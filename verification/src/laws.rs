//! Laws of the pipeline parser, stated against the model and proved once
//! and for all: how parsing treats delimiters, whitespace and single-stage
//! input.

use vstd::prelude::*;

use crate::model::{
    cmd_of, cmds_of, is_space, lemma_cmds_of_cons, lemma_segments_nonempty, lemma_segments_scan,
    lemma_tokens_nonempty, parse_spec, segments, tokens, SpecCmd,
};

verus! {

/// Turning one command list after another into commands is the same as
/// concatenating the two command lists.
pub proof fn lemma_cmds_of_concat(a: Seq<Seq<char>>, b: Seq<Seq<char>>)
    ensures
        cmds_of(a + b) == cmds_of(a) + cmds_of(b),
    decreases a.len(),
{
    if a.len() == 0 {
        assert(a + b =~= b);
        assert(cmds_of(a) + cmds_of(b) =~~= cmds_of(b));
    } else {
        lemma_cmds_of_concat(a.drop_first(), b);
        assert((a + b).first() == a.first());
        assert((a + b).drop_first() =~= a.drop_first() + b);
        let toks = tokens(a.first());
        if toks.len() == 0 {
            assert(cmds_of(a + b) == cmds_of(a.drop_first() + b));
            assert(cmds_of(a) == cmds_of(a.drop_first()));
        } else {
            assert(cmds_of(a + b) == seq![cmd_of(toks)] + (cmds_of(a.drop_first()) + cmds_of(b)));
            assert(cmds_of(a) == seq![cmd_of(toks)] + cmds_of(a.drop_first()));
            assert(seq![cmd_of(toks)] + (cmds_of(a.drop_first()) + cmds_of(b)) =~~= (seq![
                cmd_of(toks),
            ] + cmds_of(a.drop_first())) + cmds_of(b));
        }
    }
}

/// Splitting on `|` respects concatenation: the segments of
/// `a | b` are the segments of `a` followed by the segments of `b`.
pub proof fn lemma_segments_split(a: Seq<char>, b: Seq<char>)
    ensures
        segments(a + seq!['|'] + b) == segments(a) + segments(b),
    decreases a.len(),
{
    let s = a + seq!['|'] + b;
    if a.len() == 0 {
        assert(s =~= seq!['|'] + b);
        assert(s[0] == '|');
        assert(s.drop_first() =~= b);
        assert(segments(a) =~= seq![Seq::<char>::empty()]);
        assert(segments(s) == seq![Seq::<char>::empty()] + segments(b));
    } else {
        lemma_segments_split(a.drop_first(), b);
        assert(s[0] == a[0]);
        assert(s.drop_first() =~= a.drop_first() + seq!['|'] + b);
        let rest_s = segments(s.drop_first());
        let rest_a = segments(a.drop_first());
        assert(rest_s == rest_a + segments(b));
        lemma_segments_nonempty(a.drop_first());
        if a[0] == '|' {
            assert(segments(s) == seq![Seq::<char>::empty()] + rest_s);
            assert(segments(a) == seq![Seq::<char>::empty()] + rest_a);
            assert(seq![Seq::<char>::empty()] + (rest_a + segments(b)) =~~= (seq![
                Seq::<char>::empty(),
            ] + rest_a) + segments(b));
        } else {
            assert(rest_s.first() == rest_a.first());
            assert(rest_s.drop_first() =~= rest_a.drop_first() + segments(b));
            assert(segments(s) == seq![seq![s[0]] + rest_s.first()] + rest_s.drop_first());
            assert(segments(a) == seq![seq![a[0]] + rest_a.first()] + rest_a.drop_first());
            assert(seq![seq![a[0]] + rest_a.first()] + (rest_a.drop_first() + segments(b)) =~~= (
            seq![seq![a[0]] + rest_a.first()] + rest_a.drop_first()) + segments(b));
        }
    }
}

/// A lone tokenless segment denotes no commands.
pub proof fn lemma_empty_segment(seg: Seq<char>)
    requires
        tokens(seg).len() == 0,
    ensures
        cmds_of(seq![seg]) == Seq::<SpecCmd>::empty(),
{
    assert(seq![seg] + Seq::<Seq<char>>::empty() =~= seq![seg]);
    lemma_cmds_of_cons(seg, Seq::<Seq<char>>::empty());
}

/// A leading `|` adds an empty segment and changes nothing: the parse of
/// `|s` is the parse of `s`.
pub proof fn lemma_leading_pipe(s: Seq<char>)
    ensures
        parse_spec(seq!['|'] + s) == parse_spec(s),
{
    let t = seq!['|'] + s;
    assert(t[0] == '|');
    assert(t.drop_first() =~= s);
    assert(segments(t) == seq![Seq::<char>::empty()] + segments(s));
    lemma_cmds_of_cons(Seq::<char>::empty(), segments(s));
}

/// A trailing `|` adds an empty segment and changes nothing: the parse of
/// `s|` is the parse of `s`.
pub proof fn lemma_trailing_pipe(s: Seq<char>)
    ensures
        parse_spec(s + seq!['|']) == parse_spec(s),
{
    lemma_segments_split(s, Seq::<char>::empty());
    assert(s + seq!['|'] + Seq::<char>::empty() =~= s + seq!['|']);
    assert(segments(Seq::<char>::empty()) =~~= seq![Seq::<char>::empty()]);
    lemma_cmds_of_concat(segments(s), seq![Seq::<char>::empty()]);
    lemma_empty_segment(Seq::<char>::empty());
    assert(cmds_of(segments(s)) + Seq::<SpecCmd>::empty() =~~= cmds_of(segments(s)));
}

/// A doubled `|` is one delimiter with an empty segment between: the parse
/// of `a||b` is the parse of `a|b`.
pub proof fn lemma_doubled_pipe(a: Seq<char>, b: Seq<char>)
    ensures
        parse_spec(a + seq!['|'] + seq!['|'] + b) == parse_spec(a + seq!['|'] + b),
{
    let t = seq!['|'] + b;
    lemma_segments_split(a, t);
    assert(a + seq!['|'] + seq!['|'] + b =~= a + seq!['|'] + t);
    assert(t[0] == '|');
    assert(t.drop_first() =~= b);
    assert(segments(t) == seq![Seq::<char>::empty()] + segments(b));
    lemma_segments_split(a, b);
    lemma_cmds_of_concat(segments(a), seq![Seq::<char>::empty()] + segments(b));
    lemma_cmds_of_cons(Seq::<char>::empty(), segments(b));
    lemma_cmds_of_concat(segments(a), segments(b));
}

/// A single-stage pipeline: text with no `|` and at least one token parses
/// to exactly one command, the direct invocation of its first token with
/// the rest as arguments.
pub proof fn lemma_single_stage(s: Seq<char>)
    requires
        forall|k: int| 0 <= k < s.len() ==> s[k] != '|',
        tokens(s).len() > 0,
    ensures
        parse_spec(s) == seq![cmd_of(tokens(s))],
{
    lemma_segments_scan(s, s.len() as int);
    assert(seq![s] + Seq::<Seq<char>>::empty() =~= seq![s]);
    lemma_cmds_of_cons(s, Seq::<Seq<char>>::empty());
    assert(seq![cmd_of(tokens(s))] + Seq::<SpecCmd>::empty() =~~= seq![cmd_of(tokens(s))]);
}

/// A token as the parser produces it: non-empty, with no whitespace and
/// no `|` in it.
pub open spec fn plain_token(t: Seq<char>) -> bool {
    t.len() > 0 && forall|k: int| 0 <= k < t.len() ==> !is_space(#[trigger] t[k]) && t[k] != '|'
}

/// A command whose program and arguments are all plain tokens.
pub open spec fn plain_cmd(c: SpecCmd) -> bool {
    plain_token(c.program) && forall|k: int|
        0 <= k < c.args.len() ==> plain_token(#[trigger] c.args[k])
}

/// A command list of plain commands only.
pub open spec fn plain_cmds(cs: Seq<SpecCmd>) -> bool {
    forall|k: int| 0 <= k < cs.len() ==> plain_cmd(#[trigger] cs[k])
}

/// A token list written out with a single space between tokens.
pub open spec fn render_tokens(ts: Seq<Seq<char>>) -> Seq<char>
    decreases ts.len(),
{
    if ts.len() == 0 {
        Seq::empty()
    } else if ts.len() == 1 {
        ts.first()
    } else {
        ts.first() + seq![' '] + render_tokens(ts.drop_first())
    }
}

/// A command written out minimally: program and arguments, single spaces
/// between.
pub open spec fn render_cmd(c: SpecCmd) -> Seq<char> {
    render_tokens(seq![c.program] + c.args)
}

/// A command list written out minimally: commands joined by a bare `|`.
pub open spec fn render(cs: Seq<SpecCmd>) -> Seq<char>
    decreases cs.len(),
{
    if cs.len() == 0 {
        Seq::empty()
    } else if cs.len() == 1 {
        render_cmd(cs.first())
    } else {
        render_cmd(cs.first()) + seq!['|'] + render(cs.drop_first())
    }
}

/// A whitespace character between two pieces of text separates their
/// tokens completely: the tokens of `a c b` are the tokens of `a`
/// followed by the tokens of `b`.
pub proof fn lemma_tokens_split(a: Seq<char>, c: char, b: Seq<char>)
    requires
        is_space(c),
    ensures
        tokens(a + seq![c] + b) == tokens(a) + tokens(b),
    decreases a.len(),
{
    let s = a + seq![c] + b;
    if a.len() == 0 {
        assert(s =~= seq![c] + b);
        assert(is_space(s[0]));
        assert(s.drop_first() =~= b);
        assert(tokens(a) =~= Seq::<Seq<char>>::empty());
        assert(tokens(a) + tokens(b) =~~= tokens(b));
    } else {
        lemma_tokens_split(a.drop_first(), c, b);
        let d = a.drop_first();
        assert(s[0] == a[0]);
        assert(s.drop_first() =~= d + seq![c] + b);
        assert(tokens(s.drop_first()) == tokens(d) + tokens(b));
        if is_space(a[0]) {
            assert(tokens(s) == tokens(d) + tokens(b));
            assert(tokens(a) == tokens(d));
        } else {
            assert(s.len() > 1);
            if d.len() == 0 {
                assert(s[1] == c);
                assert(tokens(s) == seq![seq![s[0]]] + tokens(s.drop_first()));
                assert(tokens(d) =~= Seq::<Seq<char>>::empty());
                assert(tokens(a) =~~= seq![seq![a[0]]]);
                assert(seq![seq![a[0]]] + (tokens(d) + tokens(b)) =~~= tokens(a) + tokens(b));
            } else if is_space(d[0]) {
                assert(s[1] == d[0]);
                assert(a[1] == d[0]);
                assert(tokens(s) == seq![seq![s[0]]] + tokens(s.drop_first()));
                assert(tokens(a) == seq![seq![a[0]]] + tokens(d));
                assert(seq![seq![a[0]]] + (tokens(d) + tokens(b)) =~~= (seq![seq![a[0]]] + tokens(
                    d,
                )) + tokens(b));
            } else {
                assert(s[1] == d[0]);
                assert(a.len() > 1 ==> a[1] == d[0]);
                lemma_tokens_nonempty(d);
                let rest_s = tokens(s.drop_first());
                let rest_a = tokens(d);
                assert(rest_s.first() == rest_a.first());
                assert(rest_s.drop_first() =~= rest_a.drop_first() + tokens(b));
                assert(tokens(s) == seq![seq![s[0]] + rest_s.first()] + rest_s.drop_first());
                assert(a.len() > 1);
                assert(tokens(a) == seq![seq![a[0]] + rest_a.first()] + rest_a.drop_first());
                assert(seq![seq![a[0]] + rest_a.first()] + (rest_a.drop_first() + tokens(b)) =~~= (
                seq![seq![a[0]] + rest_a.first()] + rest_a.drop_first()) + tokens(b));
            }
        }
    }
}

/// A plain token on its own is one token.
pub proof fn lemma_tokens_single(t: Seq<char>)
    requires
        plain_token(t),
    ensures
        tokens(t) == seq![t],
    decreases t.len(),
{
    let d = t.drop_first();
    if t.len() == 1 {
        assert(tokens(t) == seq![seq![t[0]]] + tokens(d));
        assert(tokens(d) =~= Seq::<Seq<char>>::empty());
        assert(seq![t[0]] =~= t);
        assert(tokens(t) =~~= seq![t]);
    } else {
        assert(plain_token(d)) by {
            assert(forall|k: int| 0 <= k < d.len() ==> d[k] == t[k + 1]);
        }
        lemma_tokens_single(d);
        assert(!is_space(t[1]));
        assert(tokens(t) == seq![seq![t[0]] + tokens(d).first()] + tokens(d).drop_first());
        assert(tokens(d).first() == d);
        assert(seq![t[0]] + d =~= t);
        assert(tokens(d).drop_first() =~= Seq::<Seq<char>>::empty());
        assert(tokens(t) =~~= seq![t]);
    }
}

/// Rendering a list of plain tokens and splitting it again gives the list
/// back.
pub proof fn lemma_render_tokens_round_trip(ts: Seq<Seq<char>>)
    requires
        forall|k: int| 0 <= k < ts.len() ==> plain_token(#[trigger] ts[k]),
    ensures
        tokens(render_tokens(ts)) == ts,
    decreases ts.len(),
{
    if ts.len() == 0 {
        assert(tokens(render_tokens(ts)) =~~= ts);
    } else if ts.len() == 1 {
        lemma_tokens_single(ts.first());
        assert(tokens(render_tokens(ts)) =~~= ts);
    } else {
        assert(forall|k: int|
            0 <= k < ts.drop_first().len() ==> ts.drop_first()[k] == ts[k + 1]);
        lemma_render_tokens_round_trip(ts.drop_first());
        lemma_tokens_split(ts.first(), ' ', render_tokens(ts.drop_first()));
        lemma_tokens_single(ts.first());
        assert(tokens(render_tokens(ts)) == seq![ts.first()] + ts.drop_first());
        assert(seq![ts.first()] + ts.drop_first() =~~= ts);
    }
}

/// The rendering of plain tokens never contains `|`: only token
/// characters and spaces.
pub proof fn lemma_render_tokens_no_pipe(ts: Seq<Seq<char>>)
    requires
        forall|k: int| 0 <= k < ts.len() ==> plain_token(#[trigger] ts[k]),
    ensures
        forall|k: int| 0 <= k < render_tokens(ts).len() ==> #[trigger] render_tokens(ts)[k] != '|',
    decreases ts.len(),
{
    if ts.len() == 0 {
    } else if ts.len() == 1 {
        assert(render_tokens(ts) == ts.first());
    } else {
        assert(forall|k: int|
            0 <= k < ts.drop_first().len() ==> ts.drop_first()[k] == ts[k + 1]);
        lemma_render_tokens_no_pipe(ts.drop_first());
        let head = ts.first() + seq![' '];
        assert(forall|k: int| 0 <= k < head.len() ==> head[k] != '|');
        let whole = head + render_tokens(ts.drop_first());
        assert(render_tokens(ts) =~= whole);
        assert(forall|k: int| 0 <= k < whole.len() ==> whole[k] != '|');
    }
}

/// A list of commands denoted by the minimal rendering of each: parsing
/// the rendered segments gives the commands back.
pub proof fn lemma_cmds_of_render(cs: Seq<SpecCmd>)
    requires
        plain_cmds(cs),
    ensures
        cmds_of(cs.map_values(|c: SpecCmd| render_cmd(c))) == cs,
    decreases cs.len(),
{
    let segs = cs.map_values(|c: SpecCmd| render_cmd(c));
    if cs.len() == 0 {
        assert(cmds_of(segs) =~~= cs);
    } else {
        let c0 = cs.first();
        let ts = seq![c0.program] + c0.args;
        assert(forall|k: int| 0 <= k < ts.len() ==> plain_token(#[trigger] ts[k])) by {
            assert(ts[0] == c0.program);
            assert(forall|k: int| 1 <= k < ts.len() ==> ts[k] == c0.args[k - 1]);
        }
        lemma_render_tokens_round_trip(ts);
        assert(tokens(segs.first()) == ts);
        assert(cmd_of(ts) == c0) by {
            assert(ts.first() == c0.program);
            assert(ts.drop_first() =~= c0.args);
        }
        assert(forall|k: int| 0 <= k < cs.drop_first().len() ==> cs.drop_first()[k] == cs[k + 1]);
        lemma_cmds_of_render(cs.drop_first());
        assert(segs.drop_first() =~~= cs.drop_first().map_values(|c: SpecCmd| render_cmd(c)));
        assert(cmds_of(segs) == seq![c0] + cs.drop_first());
        assert(seq![c0] + cs.drop_first() =~~= cs);
    }
}

/// Rendering plain commands and splitting on `|` again gives one segment
/// per command, each the command's rendering.
pub proof fn lemma_render_segments(cs: Seq<SpecCmd>)
    requires
        plain_cmds(cs),
        cs.len() >= 1,
    ensures
        segments(render(cs)) == cs.map_values(|c: SpecCmd| render_cmd(c)),
    decreases cs.len(),
{
    let c0 = cs.first();
    let ts = seq![c0.program] + c0.args;
    assert(forall|k: int| 0 <= k < ts.len() ==> plain_token(#[trigger] ts[k])) by {
        assert(ts[0] == c0.program);
        assert(forall|k: int| 1 <= k < ts.len() ==> ts[k] == c0.args[k - 1]);
    }
    lemma_render_tokens_no_pipe(ts);
    if cs.len() == 1 {
        lemma_segments_scan(render_cmd(c0), render_cmd(c0).len() as int);
        assert(segments(render(cs)) =~~= cs.map_values(|c: SpecCmd| render_cmd(c)));
    } else {
        assert(forall|k: int| 0 <= k < cs.drop_first().len() ==> cs.drop_first()[k] == cs[k + 1]);
        lemma_render_segments(cs.drop_first());
        lemma_segments_split(render_cmd(c0), render(cs.drop_first()));
        lemma_segments_scan(render_cmd(c0), render_cmd(c0).len() as int);
        assert(segments(render(cs)) == seq![render_cmd(c0)] + cs.drop_first().map_values(
            |c: SpecCmd| render_cmd(c),
        ));
        assert(seq![render_cmd(c0)] + cs.drop_first().map_values(|c: SpecCmd| render_cmd(c)) =~~= cs
            .map_values(|c: SpecCmd| render_cmd(c)));
    }
}

/// Rendering plain commands minimally and parsing the result gives the
/// commands back.
pub proof fn lemma_render_round_trip(cs: Seq<SpecCmd>)
    requires
        plain_cmds(cs),
    ensures
        parse_spec(render(cs)) == cs,
{
    if cs.len() == 0 {
        assert(segments(Seq::<char>::empty()) == seq![Seq::<char>::empty()]);
        lemma_empty_segment(Seq::<char>::empty());
        assert(parse_spec(render(cs)) =~~= cs);
    } else {
        lemma_render_segments(cs);
        lemma_cmds_of_render(cs);
    }
}

/// Text without the delimiter in it.
pub open spec fn pipe_free(t: Seq<char>) -> bool {
    forall|k: int| 0 <= k < t.len() ==> #[trigger] t[k] != '|'
}

/// No `|` survives splitting: every segment is free of the delimiter.
pub proof fn lemma_segments_no_pipe(s: Seq<char>)
    ensures
        forall|i: int| 0 <= i < segments(s).len() ==> pipe_free(#[trigger] segments(s)[i]),
    decreases s.len(),
{
    if s.len() == 0 {
        assert(pipe_free(segments(s)[0]));
    } else if s[0] == '|' {
        lemma_segments_no_pipe(s.drop_first());
        let rest = segments(s.drop_first());
        let whole = seq![Seq::<char>::empty()] + rest;
        assert(segments(s) == whole);
        assert(pipe_free(whole[0]));
        assert(forall|i: int| 1 <= i < whole.len() ==> whole[i] == rest[i - 1]);
    } else {
        lemma_segments_no_pipe(s.drop_first());
        lemma_segments_nonempty(s.drop_first());
        let rest = segments(s.drop_first());
        let head = seq![s[0]] + rest.first();
        assert(pipe_free(head)) by {
            assert(pipe_free(rest.first()));
            assert(forall|k: int| 1 <= k < head.len() ==> head[k] == rest.first()[k - 1]);
        }
        let whole = seq![head] + rest.drop_first();
        assert(segments(s) == whole);
        assert(forall|i: int| 1 <= i < whole.len() ==> whole[i] == rest[i]);
    }
}

/// Every token of a `|`-free text is plain: non-empty, no whitespace, no
/// `|`.
pub proof fn lemma_tokens_plain(s: Seq<char>)
    requires
        pipe_free(s),
    ensures
        forall|i: int| 0 <= i < tokens(s).len() ==> plain_token(#[trigger] tokens(s)[i]),
    decreases s.len(),
{
    if s.len() == 0 {
    } else {
        assert(forall|k: int|
            0 <= k < s.drop_first().len() ==> s.drop_first()[k] == s[k + 1]);
        assert(pipe_free(s.drop_first()));
        lemma_tokens_plain(s.drop_first());
        let rest = tokens(s.drop_first());
        if is_space(s[0]) {
        } else if s.len() > 1 && !is_space(s[1]) {
            lemma_tokens_nonempty(s.drop_first());
            let head = seq![s[0]] + rest.first();
            assert(plain_token(head)) by {
                assert(plain_token(rest.first()));
                assert(forall|k: int| 1 <= k < head.len() ==> head[k] == rest.first()[k - 1]);
            }
            let whole = seq![head] + rest.drop_first();
            assert(tokens(s) == whole);
            assert(forall|i: int| 0 <= i < whole.len() ==> plain_token(#[trigger] whole[i])) by {
                assert(forall|i: int| 1 <= i < whole.len() ==> whole[i] == rest[i]);
            }
        } else {
            let head = seq![s[0]];
            assert(plain_token(head));
            let whole = seq![head] + rest;
            assert(tokens(s) == whole);
            assert(forall|i: int| 0 <= i < whole.len() ==> plain_token(#[trigger] whole[i])) by {
                assert(forall|i: int| 1 <= i < whole.len() ==> whole[i] == rest[i - 1]);
            }
        }
    }
}

/// Every command a parse produces is plain.
pub proof fn lemma_cmds_of_plain(segs: Seq<Seq<char>>)
    requires
        forall|i: int| 0 <= i < segs.len() ==> pipe_free(#[trigger] segs[i]),
    ensures
        plain_cmds(cmds_of(segs)),
    decreases segs.len(),
{
    if segs.len() == 0 {
    } else {
        assert(forall|i: int|
            0 <= i < segs.drop_first().len() ==> segs.drop_first()[i] == segs[i + 1]);
        lemma_cmds_of_plain(segs.drop_first());
        let rest = cmds_of(segs.drop_first());
        let toks = tokens(segs.first());
        if toks.len() == 0 {
        } else {
            assert(pipe_free(segs.first()));
            lemma_tokens_plain(segs.first());
            assert(plain_cmd(cmd_of(toks))) by {
                assert(plain_token(toks.first()));
                assert(forall|k: int|
                    0 <= k < toks.drop_first().len() ==> toks.drop_first()[k] == toks[k + 1]);
            }
            let whole = seq![cmd_of(toks)] + rest;
            assert(cmds_of(segs) == whole);
            assert(forall|i: int| 0 <= i < whole.len() ==> plain_cmd(#[trigger] whole[i])) by {
                assert(forall|i: int| 1 <= i < whole.len() ==> whole[i] == rest[i - 1]);
            }
        }
    }
}

/// What parsing any text produces is plain commands.
pub proof fn lemma_parse_plain(s: Seq<char>)
    ensures
        plain_cmds(parse_spec(s)),
{
    lemma_segments_no_pipe(s);
    lemma_cmds_of_plain(segments(s));
}

/// Whitespace robustness: writing the parsed commands back out with
/// minimal spacing — single spaces between tokens, a bare `|` between
/// commands — and parsing again gives the same commands. Extra whitespace
/// around `|` or between tokens therefore never changes what is parsed:
/// any input parses exactly as its minimally spaced equivalent does.
pub proof fn lemma_whitespace_normal_form(s: Seq<char>)
    ensures
        parse_spec(render(parse_spec(s))) == parse_spec(s),
{
    lemma_parse_plain(s);
    lemma_render_round_trip(parse_spec(s));
}

/// Parsing is deterministic: any two command lists that satisfy the
/// parser's contract for the same text are the same, so repeated runs of
/// one pipeline text hand the operating system the same command chain.
pub proof fn lemma_parse_deterministic(s: Seq<char>, p1: Seq<SpecCmd>, p2: Seq<SpecCmd>)
    requires
        p1 == parse_spec(s),
        p2 == parse_spec(s),
    ensures
        p1 == p2,
{
}

} // verus!
