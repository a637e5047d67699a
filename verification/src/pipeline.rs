//! The executable data types: a parsed command, a non-empty pipeline of
//! commands, and the errors the runner can report.

use vstd::prelude::*;

use crate::model::SpecCmd;

verus! {

/// One parsed command: the program name and its arguments, exactly as they
/// stood in the pipeline text. No quoting or expansion is applied.
#[derive(Debug)]
pub struct CommandSpec {
    pub program: String,
    pub args: Vec<String>,
}

impl View for CommandSpec {
    type V = SpecCmd;

    open spec fn view(&self) -> SpecCmd {
        SpecCmd { program: self.program@, args: self.args.deep_view() }
    }
}

/// A parsed pipeline: one command followed by the remaining commands, in
/// order. The shape itself rules out a zero-length chain, so the executor
/// can never be handed nothing to run.
#[derive(Debug)]
pub struct Pipeline {
    pub first: CommandSpec,
    pub rest: Vec<CommandSpec>,
}

impl View for Pipeline {
    type V = Seq<SpecCmd>;

    open spec fn view(&self) -> Seq<SpecCmd> {
        seq![self.first@] + self.rest@.map_values(|c: CommandSpec| c@)
    }
}

/// Why a pipeline could not be run.
#[derive(Debug)]
pub enum PipeError {
    /// The input parsed to zero commands: it was empty, all whitespace, or
    /// nothing but `|` separators. Carries the offending input.
    Malformed { input: String },
    /// The operating system refused to start a stage. Carries the
    /// zero-based stage index and the program that failed to spawn.
    Spawn { stage: usize, program: String },
}

impl PipeError {
    /// A short description of the error, for callers that print it.
    pub fn describe(&self) -> (r: String)
        ensures
            self is Malformed ==> r@ == "malformed pipeline: "@ + self->Malformed_input@,
            self is Spawn ==> r@ == "failed to spawn stage program "@ + self->Spawn_program@,
    {
        match self {
            PipeError::Malformed { input } => {
                let mut r = String::from_str("malformed pipeline: ");
                r.append(input.as_str());
                r
            },
            PipeError::Spawn { stage: _, program } => {
                let mut r = String::from_str("failed to spawn stage program ");
                r.append(program.as_str());
                r
            },
        }
    }
}

} // verus!
