//! The executable pipeline parser, verified against the model: the result
//! holds exactly the commands that `parse_spec` assigns to the input text.

use vstd::prelude::*;
use vstd::string::StrSliceExecFns;
use vstd::string::StringExecFns;

use crate::model::{
    cmd_of, cmds_of, is_space, lemma_cmds_of_cons, lemma_segments_scan, lemma_tokens_scan,
    parse_spec, segments, tokens,
};
use crate::pipeline::{CommandSpec, PipeError, Pipeline};

verus! {

/// Whether `c` is one of the ASCII whitespace characters that separate
/// tokens.
pub fn space_char(c: char) -> (r: bool)
    ensures
        r == is_space(c),
{
    c == ' ' || c == '\t' || c == '\n' || c == '\r' || c == '\x0c'
}

/// The tokens of one segment, owned: the maximal runs of non-whitespace
/// characters, in order.
pub fn tokenize(seg: &str) -> (r: Vec<String>)
    ensures
        r.deep_view() == tokens(seg@),
{
    let n = seg.unicode_len();
    let mut r: Vec<String> = Vec::new();
    let mut pos: usize = 0;
    proof {
        assert(seg@.skip(0) =~= seg@);
        assert(r.deep_view() =~~= Seq::<Seq<char>>::empty());
        assert(Seq::<Seq<char>>::empty() + tokens(seg@) =~~= tokens(seg@));
    }
    while pos < n
        invariant
            n == seg@.len(),
            pos <= n,
            tokens(seg@) == r.deep_view() + tokens(seg@.skip(pos as int)),
        decreases n - pos,
    {
        let c = seg.get_char(pos);
        if space_char(c) {
            proof {
                assert(seg@.skip(pos as int).drop_first() =~= seg@.skip(pos as int + 1));
            }
            pos = pos + 1;
        } else {
            let ghost old_dv = r.deep_view();
            let start = pos;
            let mut j = pos + 1;
            while j < n && !space_char(seg.get_char(j))
                invariant
                    n == seg@.len(),
                    start < j <= n,
                    forall|k: int| start <= k < j ==> !is_space(seg@[k]),
                    !is_space(seg@[start as int]),
                decreases n - j,
            {
                j = j + 1;
            }
            let tok = seg.substring_char(start, j);
            let owned = String::from_str(tok);
            r.push(owned);
            proof {
                let sfx = seg@.skip(start as int);
                assert(forall|k: int| 0 <= k < j - start ==> !is_space(sfx[k]));
                lemma_tokens_scan(sfx, j - start);
                assert(sfx.take(j - start) =~= seg@.subrange(start as int, j as int));
                assert(sfx.skip(j - start) =~= seg@.skip(j as int));
                assert(r.deep_view() =~~= old_dv + seq![tok@]);
                assert(old_dv + (seq![tok@] + tokens(seg@.skip(j as int))) =~~= (old_dv
                    + seq![tok@]) + tokens(seg@.skip(j as int)));
            }
            pos = j;
        }
    }
    proof {
        assert(seg@.skip(n as int) =~= Seq::<char>::empty());
        assert(r.deep_view() + tokens(seg@.skip(n as int)) =~~= r.deep_view());
    }
    r
}

/// Parses a pipeline string into its commands: segments split on `|`,
/// tokens split on whitespace, tokenless segments discarded. Returns the
/// malformed-pipeline error, carrying the input, exactly when no segment
/// has a token.
pub fn parse_pipeline(pipeline: &str) -> (r: Result<Pipeline, PipeError>)
    ensures
        parse_spec(pipeline@).len() > 0 ==> (r matches Ok(p) && p@ == parse_spec(pipeline@)),
        parse_spec(pipeline@).len() == 0 ==> (r matches Err(e) && e matches PipeError::Malformed {
            input,
        } && input@ == pipeline@),
{
    let n = pipeline.unicode_len();
    let mut cmds: Vec<CommandSpec> = Vec::new();
    let mut pos: usize = 0;
    proof {
        assert(pipeline@.skip(0) =~= pipeline@);
        assert(cmds@.map_values(|c: CommandSpec| c@) =~~= Seq::<crate::model::SpecCmd>::empty());
        assert(Seq::<crate::model::SpecCmd>::empty() + parse_spec(pipeline@) =~~= parse_spec(
            pipeline@,
        ));
    }
    loop
        invariant_except_break
            n == pipeline@.len(),
            pos <= n,
            parse_spec(pipeline@) == cmds@.map_values(|c: CommandSpec| c@) + cmds_of(
                segments(pipeline@.skip(pos as int)),
            ),
        ensures
            parse_spec(pipeline@) == cmds@.map_values(|c: CommandSpec| c@),
        decreases n - pos,
    {
        let ghost old_cv = cmds@.map_values(|c: CommandSpec| c@);
        let mut j = pos;
        while j < n && pipeline.get_char(j) != '|'
            invariant
                n == pipeline@.len(),
                pos <= j <= n,
                forall|k: int| pos <= k < j ==> pipeline@[k] != '|',
            decreases n - j,
        {
            j = j + 1;
        }
        let seg = pipeline.substring_char(pos, j);
        let mut toks = tokenize(seg);
        if toks.len() > 0 {
            let program = toks.remove(0);
            proof {
                assert(toks.deep_view() =~~= tokens(seg@).drop_first());
            }
            let cmd = CommandSpec { program, args: toks };
            proof {
                assert(cmd@ == cmd_of(tokens(seg@)));
            }
            cmds.push(cmd);
            proof {
                assert(cmds@.map_values(|c: CommandSpec| c@) =~~= old_cv + seq![
                    cmd_of(tokens(seg@)),
                ]);
            }
        }
        proof {
            let sfx = pipeline@.skip(pos as int);
            assert(forall|k: int| 0 <= k < j - pos ==> sfx[k] != '|');
            lemma_segments_scan(sfx, j - pos);
            assert(sfx.take(j - pos) =~= seg@);
            if j < n {
                assert(sfx.skip(j - pos + 1) =~= pipeline@.skip(j as int + 1));
                lemma_cmds_of_cons(seg@, segments(pipeline@.skip(j as int + 1)));
            } else {
                assert(sfx =~= seg@);
                assert(segments(sfx) =~~= seq![seg@] + Seq::<Seq<char>>::empty());
                lemma_cmds_of_cons(seg@, Seq::<Seq<char>>::empty());
                assert(cmds_of(Seq::<Seq<char>>::empty()) =~= Seq::<crate::model::SpecCmd>::empty());
            }
        }
        if j < n {
            proof {
                assert((old_cv + seq![cmd_of(tokens(seg@))]) + cmds_of(
                    segments(pipeline@.skip(j as int + 1)),
                ) =~~= old_cv + (seq![cmd_of(tokens(seg@))] + cmds_of(
                    segments(pipeline@.skip(j as int + 1)),
                )));
            }
            pos = j + 1;
        } else {
            proof {
                assert((old_cv + seq![cmd_of(tokens(seg@))]) + Seq::<crate::model::SpecCmd>::empty()
                    =~~= old_cv + seq![cmd_of(tokens(seg@))]);
                assert(old_cv + Seq::<crate::model::SpecCmd>::empty() =~~= old_cv);
            }
            break;
        }
    }
    if cmds.len() == 0 {
        proof {
            assert(cmds@.map_values(|c: CommandSpec| c@) =~~= Seq::<crate::model::SpecCmd>::empty());
        }
        Err(PipeError::Malformed { input: String::from_str(pipeline) })
    } else {
        let ghost all = cmds@.map_values(|c: CommandSpec| c@);
        let first = cmds.remove(0);
        let p = Pipeline { first, rest: cmds };
        proof {
            assert(p@ =~~= all);
        }
        Ok(p)
    }
}

} // verus!
