//! Runs a textual shell-like pipeline: commands separated by `|`, each
//! spawned as a child process with consecutive standard streams wired
//! together. This crate holds the verified logic of that facility: parsing
//! the pipeline text into command specifications and driving the spawn
//! sequence stage by stage. The actual process creation is operating-system
//! work and is left to the embedding program.

use vstd::prelude::*;

pub mod laws;
pub mod model;
pub mod parse;
pub mod pipeline;
pub mod runner;

pub use parse::parse_pipeline;
pub use pipeline::{CommandSpec, PipeError, Pipeline};
pub use runner::Executor;

verus! {

/// Runs a pipeline of commands. This type carries the verified half of the
/// facility: turning the pipeline text into the commands to spawn. The
/// spawning itself is left to the embedding program, which drives a
/// `runner::Executor` over the parsed pipeline.
pub struct PipedCommand;

impl PipedCommand {
    /// Parses the pipeline text: commands separated by `|`, each a
    /// whitespace-separated program and arguments. Segments without a
    /// token are discarded; if none is left, the input is malformed and
    /// the error carries it.
    pub fn parse(pipeline: &str) -> (r: Result<Pipeline, PipeError>)
        ensures
            model::parse_spec(pipeline@).len() > 0 ==> (r matches Ok(p) && p@ == model::parse_spec(
                pipeline@,
            )),
            model::parse_spec(pipeline@).len() == 0 ==> (r matches Err(e)
                && e matches PipeError::Malformed { input } && input@ == pipeline@),
    {
        parse::parse_pipeline(pipeline)
    }
}

} // verus!
