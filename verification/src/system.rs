//! The stage protocol for units of work: every registered unit is driven
//! through Instantination (first-ever invocation, which only records its
//! name), Initialization (dependency resolution and one-time setup,
//! reported by `Initialized`), and Execution (the per-frame body, reported
//! by `Completed`).

use vstd::prelude::*;

verus! {

/// Lifecycle phase of a unit of work.
#[derive(Clone, Copy, PartialEq, Eq, Structural, Debug)]
pub enum Stage {
    Instantination,
    Initialization,
    Execution,
}

/// What a unit of work reports when invoked.
#[derive(Clone, Copy, PartialEq, Eq, Structural, Debug)]
pub enum SystemResult {
    Initialized,
    Completed,
    Stop,
}

/// What an invocation of a unit of work produced: a protocol report, or a
/// failure in the unit's own body.
#[derive(Clone, Copy, PartialEq, Eq, Structural, Debug)]
pub enum UnitReturn {
    Returned(SystemResult),
    Failed,
}

/// The scheduler's record for one unit of work: its stable display name and
/// the stage it will be invoked at next.
pub struct State {
    pub stage: Stage,
    pub name: &'static str,
}

impl State {
    /// A fresh record: the unit has never been invoked.
    pub fn new() -> (r: State)
        ensures
            r.stage is Instantination,
            r.name@.len() == 0,
    {
        proof {
            reveal_strlit("");
        }
        State { stage: Stage::Instantination, name: "" }
    }

    pub fn stage(&self) -> (r: Stage)
        ensures
            r == self.stage,
    {
        self.stage
    }

    pub fn name(&self) -> (r: &'static str)
        ensures
            r == self.name,
    {
        self.name
    }

    pub fn set_stage(&mut self, stage: Stage)
        ensures
            final(self).stage == stage,
            final(self).name == old(self).name,
    {
        self.stage = stage;
    }

    pub fn set_name(&mut self, name: &'static str)
        ensures
            final(self).name == name,
            final(self).stage == old(self).stage,
    {
        self.name = name;
    }
}

} // verus!
