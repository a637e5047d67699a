//! The mathematical model of pipeline parsing.
//!
//! A pipeline string is split into segments on `|`, each segment is split
//! into tokens on runs of ASCII whitespace, and every segment that has at
//! least one token becomes a command: the first token is the program, the
//! rest are its arguments. Segments with no tokens (empty or all
//! whitespace) are discarded.

use vstd::prelude::*;

verus! {

/// A parsed command at the specification level: the program name and the
/// argument list, as sequences of characters.
pub struct SpecCmd {
    pub program: Seq<char>,
    pub args: Seq<Seq<char>>,
}

/// The ASCII whitespace characters on which tokens are split.
pub open spec fn is_space(c: char) -> bool {
    c == ' ' || c == '\t' || c == '\n' || c == '\r' || c == '\x0c'
}

/// The segments of a pipeline string: the maximal runs of characters
/// between `|` delimiters, in order, empty runs included. A string with no
/// `|` is a single segment; the empty string is a single empty segment.
pub open spec fn segments(s: Seq<char>) -> Seq<Seq<char>>
    decreases s.len(),
{
    if s.len() == 0 {
        seq![Seq::<char>::empty()]
    } else if s[0] == '|' {
        seq![Seq::<char>::empty()] + segments(s.drop_first())
    } else {
        let rest = segments(s.drop_first());
        seq![seq![s[0]] + rest.first()] + rest.drop_first()
    }
}

/// The tokens of a segment: the maximal runs of non-whitespace characters,
/// in order. Whitespace only separates; it never appears in a token.
pub open spec fn tokens(s: Seq<char>) -> Seq<Seq<char>>
    decreases s.len(),
{
    if s.len() == 0 {
        Seq::empty()
    } else if is_space(s[0]) {
        tokens(s.drop_first())
    } else {
        let rest = tokens(s.drop_first());
        if s.len() > 1 && !is_space(s[1]) {
            seq![seq![s[0]] + rest.first()] + rest.drop_first()
        } else {
            seq![seq![s[0]]] + rest
        }
    }
}

/// The command a non-empty token list denotes: first token the program,
/// the rest the arguments.
pub open spec fn cmd_of(toks: Seq<Seq<char>>) -> SpecCmd {
    SpecCmd { program: toks.first(), args: toks.drop_first() }
}

/// The commands a segment list denotes: each segment with at least one
/// token contributes one command, in order; the others are discarded.
pub open spec fn cmds_of(segs: Seq<Seq<char>>) -> Seq<SpecCmd>
    decreases segs.len(),
{
    if segs.len() == 0 {
        Seq::empty()
    } else {
        let toks = tokens(segs.first());
        let rest = cmds_of(segs.drop_first());
        if toks.len() == 0 {
            rest
        } else {
            seq![cmd_of(toks)] + rest
        }
    }
}

/// What a pipeline string denotes: the commands of its segments.
pub open spec fn parse_spec(s: Seq<char>) -> Seq<SpecCmd> {
    cmds_of(segments(s))
}

/// A segment list is never empty: even the empty string has one segment.
pub proof fn lemma_segments_nonempty(s: Seq<char>)
    ensures
        segments(s).len() >= 1,
    decreases s.len(),
{
    if s.len() == 0 {
    } else if s[0] == '|' {
    } else {
        lemma_segments_nonempty(s.drop_first());
    }
}

/// A segment that begins with a non-whitespace character has at least one
/// token.
pub proof fn lemma_tokens_nonempty(s: Seq<char>)
    requires
        s.len() > 0,
        !is_space(s[0]),
    ensures
        tokens(s).len() >= 1,
{
}

/// Scanning a token: if the first `j` characters are non-whitespace and
/// the scan stopped at the end or at a whitespace character, then the
/// first token is exactly those `j` characters and the rest of the tokens
/// are the tokens of the remainder.
pub proof fn lemma_tokens_scan(s: Seq<char>, j: int)
    requires
        1 <= j <= s.len(),
        forall|k: int| 0 <= k < j ==> !is_space(s[k]),
        j < s.len() ==> is_space(s[j]),
    ensures
        tokens(s) == seq![s.take(j)] + tokens(s.skip(j)),
    decreases j,
{
    let d = s.drop_first();
    if j == 1 {
        assert(s.take(1) =~= seq![s[0]]);
        assert(s.skip(1) =~= d);
        if s.len() == 1 {
            assert(tokens(s) =~~= seq![seq![s[0]]] + tokens(d));
        }
        assert(tokens(s) =~~= seq![s.take(j)] + tokens(s.skip(j)));
    } else {
        assert(!is_space(s[1]));
        lemma_tokens_scan(d, j - 1);
        let rest = tokens(d);
        assert(rest == seq![d.take(j - 1)] + tokens(d.skip(j - 1)));
        assert(rest.first() == d.take(j - 1));
        assert(rest.drop_first() =~= tokens(d.skip(j - 1)));
        assert(tokens(s) == seq![seq![s[0]] + rest.first()] + rest.drop_first());
        assert(seq![s[0]] + d.take(j - 1) =~= s.take(j));
        assert(d.skip(j - 1) =~= s.skip(j));
        assert(tokens(s) =~~= seq![s.take(j)] + tokens(s.skip(j)));
    }
}

/// Scanning a segment: if the first `j` characters are not `|` and the
/// scan stopped at the end or at a `|`, then the first segment is exactly
/// those `j` characters, followed by the segments of what comes after the
/// delimiter, if any.
pub proof fn lemma_segments_scan(s: Seq<char>, j: int)
    requires
        0 <= j <= s.len(),
        forall|k: int| 0 <= k < j ==> s[k] != '|',
        j < s.len() ==> s[j] == '|',
    ensures
        j == s.len() ==> segments(s) == seq![s],
        j < s.len() ==> segments(s) == seq![s.take(j)] + segments(s.skip(j + 1)),
    decreases j,
{
    let d = s.drop_first();
    if j == 0 {
        if s.len() == 0 {
            assert(segments(s) =~~= seq![s]);
        } else {
            assert(s.take(0) =~= Seq::<char>::empty());
            assert(s.skip(1) =~= d);
            assert(segments(s) =~~= seq![s.take(0)] + segments(s.skip(1)));
        }
    } else {
        assert(s[0] != '|');
        lemma_segments_scan(d, j - 1);
        lemma_segments_nonempty(d);
        let rest = segments(d);
        assert(segments(s) == seq![seq![s[0]] + rest.first()] + rest.drop_first());
        if j == s.len() {
            assert(rest == seq![d]);
            assert(rest.first() == d);
            assert(seq![s[0]] + d =~= s);
            assert(rest.drop_first() =~= Seq::<Seq<char>>::empty());
            assert(segments(s) =~~= seq![s]);
        } else {
            assert(rest == seq![d.take(j - 1)] + segments(d.skip(j)));
            assert(rest.first() == d.take(j - 1));
            assert(rest.drop_first() =~= segments(d.skip(j)));
            assert(seq![s[0]] + d.take(j - 1) =~= s.take(j));
            assert(d.skip(j) =~= s.skip(j + 1));
            assert(segments(s) =~~= seq![s.take(j)] + segments(s.skip(j + 1)));
        }
    }
}

/// Prepending one segment to a segment list prepends its command, if it
/// has one.
pub proof fn lemma_cmds_of_cons(seg: Seq<char>, rest: Seq<Seq<char>>)
    ensures
        tokens(seg).len() == 0 ==> cmds_of(seq![seg] + rest) == cmds_of(rest),
        tokens(seg).len() > 0 ==> cmds_of(seq![seg] + rest) == seq![cmd_of(tokens(seg))]
            + cmds_of(rest),
{
    let whole = seq![seg] + rest;
    assert(whole.first() == seg);
    assert(whole.drop_first() =~= rest);
}

} // verus!
