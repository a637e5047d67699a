//! The spawn driver: decides, stage by stage, which command to spawn next,
//! whether its standard input is wired to the previous stage's output, and
//! what to report when the operating system refuses a spawn. The embedding
//! program performs the spawns and the final wait; every decision it acts
//! on is taken here.

use vstd::prelude::*;

use crate::model::SpecCmd;
use crate::pipeline::{CommandSpec, PipeError, Pipeline};

verus! {

/// Walks a pipeline front to back. Stage 0 is spawned with its input left
/// at the process default; every later stage reads the previous stage's
/// captured output. After the last stage the walk is done and the caller
/// waits on that process.
pub struct Executor {
    pipeline: Pipeline,
    first_given: bool,
    rest_next: usize,
}

impl Executor {
    /// The commands being run, in stage order.
    pub closed spec fn cmds(&self) -> Seq<SpecCmd> {
        self.pipeline@
    }

    /// The index of the next stage to spawn; equal to `cmds().len()` once
    /// every stage has been handed out.
    pub closed spec fn next_stage(&self) -> int {
        if !self.first_given {
            0
        } else {
            1 + self.rest_next
        }
    }

    /// Well-formedness: the walk never runs past the pipeline.
    pub closed spec fn wf(&self) -> bool {
        &&& self.rest_next <= self.pipeline.rest.len()
        &&& !self.first_given ==> self.rest_next == 0
    }

    /// Starts a walk over `p`, at stage 0. A `Pipeline` always has at
    /// least one command, so there is always a stage to spawn.
    pub fn new(p: Pipeline) -> (e: Executor)
        ensures
            e.wf(),
            e.cmds() == p@,
            e.next_stage() == 0,
    {
        Executor { pipeline: p, first_given: false, rest_next: 0 }
    }

    /// The command of the stage to spawn next, or `None` when every stage
    /// has been spawned and only the final wait is left.
    pub fn current(&self) -> (r: Option<&CommandSpec>)
        requires
            self.wf(),
        ensures
            match r {
                Some(c) => self.next_stage() < self.cmds().len() && c@ == self.cmds()[self.next_stage()],
                None => self.next_stage() == self.cmds().len(),
            },
    {
        if !self.first_given {
            Some(&self.pipeline.first)
        } else if self.rest_next < self.pipeline.rest.len() {
            Some(&self.pipeline.rest[self.rest_next])
        } else {
            None
        }
    }

    /// Whether the next stage's standard input is wired to the previous
    /// stage's captured output. False exactly for stage 0, whose input is
    /// left at the process default.
    pub fn wires_input(&self) -> (r: bool)
        requires
            self.wf(),
        ensures
            r == (self.next_stage() > 0),
    {
        self.first_given
    }

    /// Records that the current stage was spawned and moves to the next.
    pub fn advance(&mut self)
        requires
            old(self).wf(),
            old(self).next_stage() < old(self).cmds().len(),
        ensures
            final(self).wf(),
            final(self).cmds() == old(self).cmds(),
            final(self).next_stage() == old(self).next_stage() + 1,
    {
        if !self.first_given {
            self.first_given = true;
        } else {
            self.rest_next = self.rest_next + 1;
        }
    }

    /// The error to report when the operating system refuses to spawn the
    /// current stage: it names that stage's index and program.
    pub fn spawn_error(&self) -> (e: PipeError)
        requires
            self.wf(),
            self.next_stage() < self.cmds().len(),
        ensures
            e matches PipeError::Spawn { stage, program } && stage == self.next_stage()
                && program@ == self.cmds()[self.next_stage()].program,
    {
        if !self.first_given {
            PipeError::Spawn { stage: 0, program: self.pipeline.first.program.clone() }
        } else {
            PipeError::Spawn {
                stage: self.rest_next + 1,
                program: self.pipeline.rest[self.rest_next].program.clone(),
            }
        }
    }
}

} // verus!
