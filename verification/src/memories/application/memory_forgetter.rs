//! Forgets a memory: the row is marked deleted and both indexes drop it.
//!
//! The row survives, so that what happened to a memory stays answerable.
use crate::shared::error::{RaError, Result};
use crate::shared::ids::MemoryId;
use vstd::prelude::*;

verus! {

/// What forgetting does next.
#[derive(Debug)]
pub enum ForgetStep {
    /// Mark the row as deleted.
    Delete { id: MemoryId },
    /// Drop the vector.
    RemoveVector { id: MemoryId },
    /// Drop the keyword entry.
    RemoveText { id: MemoryId },
    Done(Result<()>),
}

/// The stages of forgetting.
pub enum ForgetStage {
    Delete,
    RemoveVector,
    RemoveText,
    Forgotten,
    Failed,
}

impl ForgetStep {
    pub open spec fn stage(self) -> ForgetStage {
        match self {
            ForgetStep::Delete { .. } => ForgetStage::Delete,
            ForgetStep::RemoveVector { .. } => ForgetStage::RemoveVector,
            ForgetStep::RemoveText { .. } => ForgetStage::RemoveText,
            ForgetStep::Done(Ok(_)) => ForgetStage::Forgotten,
            ForgetStep::Done(Err(_)) => ForgetStage::Failed,
        }
    }
}

/// The stage that follows one that went well or did not.
pub open spec fn next_forget_stage(stage: ForgetStage, ok: bool) -> ForgetStage {
    match stage {
        ForgetStage::Delete => if ok {
            ForgetStage::RemoveVector
        } else {
            ForgetStage::Failed
        },
        ForgetStage::RemoveVector => ForgetStage::RemoveText,
        ForgetStage::RemoveText => ForgetStage::Forgotten,
        ForgetStage::Forgotten => ForgetStage::Forgotten,
        ForgetStage::Failed => ForgetStage::Failed,
    }
}

#[derive(Debug, Clone, Copy)]
pub struct MemoryForgetter;

impl MemoryForgetter {
    pub fn new() -> (forgetter: MemoryForgetter) {
        MemoryForgetter
    }

    /// The row goes first: it is the system of record.
    pub fn begin(&self, id: MemoryId) -> (step: ForgetStep)
        ensures
            step.stage() is Delete,
            step == (ForgetStep::Delete { id }),
    {
        ForgetStep::Delete { id }
    }

    /// Where the row stays, so do the index entries.
    pub fn deleted(&self, id: MemoryId, reply: Result<()>) -> (step: ForgetStep)
        ensures
            step.stage() == next_forget_stage(ForgetStage::Delete, reply is Ok),
            match reply {
                Ok(_) => step == (ForgetStep::RemoveVector { id }),
                Err(error) => step == ForgetStep::Done(Err(error)),
            },
    {
        match reply {
            Ok(_) => ForgetStep::RemoveVector { id },
            Err(error) => ForgetStep::Done(Err(error)),
        }
    }

    /// A leftover entry points at a deleted row, which recall drops.
    pub fn vector_removed(&self, id: MemoryId, reply: Result<()>) -> (step: ForgetStep)
        ensures
            step.stage() == next_forget_stage(ForgetStage::RemoveVector, reply is Ok),
            step == (ForgetStep::RemoveText { id }),
    {
        ForgetStep::RemoveText { id }
    }

    pub fn text_removed(&self, reply: Result<()>) -> (step: ForgetStep)
        ensures
            step.stage() == next_forget_stage(ForgetStage::RemoveText, reply is Ok),
            step == ForgetStep::Done(Ok::<(), RaError>(())),
    {
        ForgetStep::Done(Ok(()))
    }
}

/// A run of forgetting: the stages it went through and whether each went well.
pub open spec fn is_forgetting(run: Seq<(ForgetStage, bool)>) -> bool {
    &&& run.len() > 0
    &&& run[0].0 is Delete
    &&& forall|i: int|
        #![trigger run[i]]
        0 < i < run.len() ==> run[i].0 == next_forget_stage(run[i - 1].0, run[i - 1].1)
}

/// Where the row goes, both index entries are asked to go after it, and the
/// memory is forgotten whatever becomes of them; where it stays, nothing else is
/// touched.
pub proof fn forgetting_goes_by_the_row(run: Seq<(ForgetStage, bool)>)
    requires
        is_forgetting(run),
        run.len() > 3,
    ensures
        run[0].1 ==> run[1].0 is RemoveVector && run[2].0 is RemoveText && run[3].0 is Forgotten,
        !run[0].1 ==> run[1].0 is Failed && run[2].0 is Failed && run[3].0 is Failed,
{
    assert(run[1].0 == next_forget_stage(run[0].0, run[0].1));
    assert(run[2].0 == next_forget_stage(run[1].0, run[1].1));
    assert(run[3].0 == next_forget_stage(run[2].0, run[2].1));
}

} // verus!
