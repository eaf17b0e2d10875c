//! Stores a memory as given.
//!
//! A save touches the system of record, the vector index and the text index,
//! which cannot share a transaction. So the order makes partial failure
//! harmless: embed first, before anything is written; then the row, then the
//! vector, and where the vector fails the row goes again; the text index last,
//! since it is derived and can be rebuilt.
use crate::memories::domain::embedder::{embed_one, EmbeddingTask};
use crate::memories::domain::memory::{created, creation_complaint, Memory, NewMemory};
use crate::shared::error::{RaError, Result};
use crate::shared::ids::{is_version_7, UserId};
use crate::shared::time::Timestamp;
use vstd::prelude::*;

verus! {

/// What the audit trail says of a row that was taken back.
pub const ROLLBACK_DETAIL: &'static str = "rolled back: the vector index write failed";

/// What a save does next.
#[derive(Debug)]
pub enum SaveStep {
    /// Embed the memory's content for a task.
    Embed { memory: Memory, task: EmbeddingTask },
    /// Insert the row.
    Insert { memory: Memory, embedding: Vec<u32> },
    /// Write the vector.
    UpsertVector { memory: Memory, embedding: Vec<u32> },
    /// Take the row back, with this in the audit trail.
    RollBack { memory: Memory, detail: &'static str, error: RaError },
    /// Write the keyword entry.
    UpsertText { memory: Memory },
    Done(Result<Memory>),
}

/// The stages of a save.
pub enum SaveStage {
    Embed,
    Insert,
    UpsertVector,
    RollBack,
    UpsertText,
    Saved,
    Failed,
}

impl SaveStep {
    pub open spec fn stage(self) -> SaveStage {
        match self {
            SaveStep::Embed { .. } => SaveStage::Embed,
            SaveStep::Insert { .. } => SaveStage::Insert,
            SaveStep::UpsertVector { .. } => SaveStage::UpsertVector,
            SaveStep::RollBack { .. } => SaveStage::RollBack,
            SaveStep::UpsertText { .. } => SaveStage::UpsertText,
            SaveStep::Done(Ok(_)) => SaveStage::Saved,
            SaveStep::Done(Err(_)) => SaveStage::Failed,
        }
    }
}

/// The stage that follows one that went well or did not.
pub open spec fn next_stage(stage: SaveStage, ok: bool) -> SaveStage {
    match stage {
        SaveStage::Embed => if ok {
            SaveStage::Insert
        } else {
            SaveStage::Failed
        },
        SaveStage::Insert => if ok {
            SaveStage::UpsertVector
        } else {
            SaveStage::Failed
        },
        SaveStage::UpsertVector => if ok {
            SaveStage::UpsertText
        } else {
            SaveStage::RollBack
        },
        SaveStage::RollBack => SaveStage::Failed,
        SaveStage::UpsertText => SaveStage::Saved,
        SaveStage::Saved => SaveStage::Saved,
        SaveStage::Failed => SaveStage::Failed,
    }
}

#[derive(Debug, Clone, Copy)]
pub struct DirectMemorySaver;

impl DirectMemorySaver {
    pub fn new() -> (saver: DirectMemorySaver) {
        DirectMemorySaver
    }

    /// A memory that is refused touches no store.
    pub fn begin(&self, user_id: UserId, new: NewMemory, now: Timestamp) -> (step: SaveStep)
        ensures
            match creation_complaint(new, now) {
                None => step matches SaveStep::Embed { memory, task } && memory@ == created(
                    memory@.id,
                    user_id,
                    new,
                    now,
                ) && is_version_7(memory@.id.value) && task is Document,
                Some(sentence) => step matches SaveStep::Done(Err(e)) && e is Validation
                    && e.text() == sentence,
            },
    {
        match Memory::create(user_id, new, now) {
            Ok(memory) => SaveStep::Embed { memory, task: EmbeddingTask::Document },
            Err(error) => SaveStep::Done(Err(error)),
        }
    }

    /// Without a vector nothing is written.
    pub fn embedded(&self, memory: Memory, reply: Result<Vec<Vec<u32>>>) -> (step: SaveStep)
        ensures
            step.stage() == next_stage(
                SaveStage::Embed,
                reply matches Ok(vectors) && vectors@.len() > 0,
            ),
            match reply {
                Ok(vectors) => if vectors@.len() > 0 {
                    step == (SaveStep::Insert { memory, embedding: vectors@.last() })
                } else {
                    step matches SaveStep::Done(Err(e)) && e is Internal && e.text()
                        == "embedder returned no vector for one input"@
                },
                Err(error) => step == SaveStep::Done(Err(error)),
            },
    {
        match reply {
            Ok(vectors) => match embed_one(vectors) {
                Ok(embedding) => SaveStep::Insert { memory, embedding },
                Err(error) => SaveStep::Done(Err(error)),
            },
            Err(error) => SaveStep::Done(Err(error)),
        }
    }

    pub fn inserted(&self, memory: Memory, embedding: Vec<u32>, reply: Result<()>) -> (step: SaveStep)
        ensures
            step.stage() == next_stage(SaveStage::Insert, reply is Ok),
            match reply {
                Ok(_) => step == (SaveStep::UpsertVector { memory, embedding }),
                Err(error) => step == SaveStep::Done(Err(error)),
            },
    {
        match reply {
            Ok(_) => SaveStep::UpsertVector { memory, embedding },
            Err(error) => SaveStep::Done(Err(error)),
        }
    }

    /// Without its vector a memory is only half findable, and nothing would
    /// ever tell the user: the row is taken back.
    pub fn vector_written(&self, memory: Memory, reply: Result<()>) -> (step: SaveStep)
        ensures
            step.stage() == next_stage(SaveStage::UpsertVector, reply is Ok),
            match reply {
                Ok(_) => step == (SaveStep::UpsertText { memory }),
                Err(error) => step == (SaveStep::RollBack {
                    memory,
                    detail: ROLLBACK_DETAIL,
                    error,
                }),
            },
    {
        match reply {
            Ok(_) => SaveStep::UpsertText { memory },
            Err(error) => SaveStep::RollBack { memory, detail: ROLLBACK_DETAIL, error },
        }
    }

    /// However the rollback went, the caller learns what failed first.
    pub fn rolled_back(&self, error: RaError, reply: Result<()>) -> (step: SaveStep)
        ensures
            step.stage() == next_stage(SaveStage::RollBack, reply is Ok),
            step == SaveStep::Done(Err(error)),
    {
        SaveStep::Done(Err(error))
    }

    /// The memory is stored and found by meaning, whether or not the keyword
    /// entry was written.
    pub fn text_written(&self, memory: Memory, reply: Result<()>) -> (step: SaveStep)
        ensures
            step.stage() == next_stage(SaveStage::UpsertText, reply is Ok),
            step == SaveStep::Done(Ok(memory)),
    {
        SaveStep::Done(Ok(memory))
    }
}

/// A run of a save: the stages it went through and whether each went well.
pub open spec fn is_run(run: Seq<(SaveStage, bool)>) -> bool {
    &&& run.len() > 0
    &&& run[0].0 is Embed
    &&& forall|i: int|
        #![trigger run[i]]
        0 < i < run.len() ==> run[i].0 == next_stage(run[i - 1].0, run[i - 1].1)
}

/// How far along a stage is.
spec fn depth(stage: SaveStage) -> int {
    match stage {
        SaveStage::Embed => 0,
        SaveStage::Insert => 1,
        SaveStage::UpsertVector => 2,
        SaveStage::UpsertText => 3,
        SaveStage::RollBack => 3,
        SaveStage::Saved => 4,
        SaveStage::Failed => 4,
    }
}

proof fn lemma_run_prefix(run: Seq<(SaveStage, bool)>, i: int)
    requires
        is_run(run),
        0 <= i < run.len(),
    ensures
        depth(run[i].0) >= 1 && !(run[i].0 is Failed) ==> i >= 1 && run[0] == (SaveStage::Embed, true),
        depth(run[i].0) >= 2 && !(run[i].0 is Failed) ==> i >= 2 && run[1] == (
            SaveStage::Insert,
            true,
        ),
        run[i].0 is UpsertText || run[i].0 is Saved ==> i >= 3 && run[2] == (
            SaveStage::UpsertVector,
            true,
        ),
        run[i].0 is RollBack ==> i == 3 && run[2] == (SaveStage::UpsertVector, false),
        run[i].0 is Embed ==> i == 0,
        run[i].0 is Insert ==> i == 1,
        run[i].0 is UpsertVector ==> i == 2,
    decreases i,
{
    if i > 0 {
        lemma_run_prefix(run, i - 1);
        assert(run[i].0 == next_stage(run[i - 1].0, run[i - 1].1));
    }
}

/// Nothing is written before the content was embedded; the vector is written
/// only for a row that is there.
pub proof fn writes_follow_the_embedding(run: Seq<(SaveStage, bool)>, i: int)
    requires
        is_run(run),
        0 <= i < run.len(),
    ensures
        run[i].0 is Insert ==> i == 1 && run[0] == (SaveStage::Embed, true),
        run[i].0 is UpsertVector ==> i == 2 && run[1] == (SaveStage::Insert, true),
{
    lemma_run_prefix(run, i);
}

/// A save that reports success wrote the row and the vector.
pub proof fn a_saved_memory_has_its_row_and_vector(run: Seq<(SaveStage, bool)>, i: int)
    requires
        is_run(run),
        0 <= i < run.len(),
        run[i].0 is Saved,
    ensures
        run.contains((SaveStage::Insert, true)),
        run.contains((SaveStage::UpsertVector, true)),
{
    lemma_run_prefix(run, i);
    assert(run[1] == (SaveStage::Insert, true));
    assert(run[2] == (SaveStage::UpsertVector, true));
}

/// A row whose vector could not be written is always taken back, and the save
/// fails.
pub proof fn a_half_written_memory_is_taken_back(run: Seq<(SaveStage, bool)>, i: int)
    requires
        is_run(run),
        0 <= i < run.len() - 2,
        run[i] == (SaveStage::UpsertVector, false),
    ensures
        run[i + 1].0 is RollBack,
        run[i + 2].0 is Failed,
{
    assert(run[i + 1].0 == next_stage(run[i].0, run[i].1));
    assert(run[i + 2].0 == next_stage(run[i + 1].0, run[i + 1].1));
}

/// A save that can be embedded, inserted and indexed by meaning is saved, and
/// asks for the keyword entry first, whether or not that can be written; one
/// that cannot be embedded or inserted fails at once and touches nothing more.
pub proof fn saves_end_as_they_went(run: Seq<(SaveStage, bool)>)
    requires
        is_run(run),
    ensures
        run.len() > 1 && run[0].1 ==> run[1].0 is Insert,
        run.len() > 1 && !run[0].1 ==> run[1].0 is Failed,
        run.len() > 2 && run[0].1 && run[1].1 ==> run[2].0 is UpsertVector,
        run.len() > 2 && run[0].1 && !run[1].1 ==> run[2].0 is Failed,
        run.len() > 3 && run[0].1 && run[1].1 && run[2].1 ==> run[3].0 is UpsertText,
        run.len() > 4 && run[0].1 && run[1].1 && run[2].1 ==> run[4].0 is Saved,
{
    if run.len() > 1 {
        assert(run[1].0 == next_stage(run[0].0, run[0].1));
    }
    if run.len() > 2 {
        assert(run[2].0 == next_stage(run[1].0, run[1].1));
    }
    if run.len() > 3 {
        assert(run[3].0 == next_stage(run[2].0, run[2].1));
    }
    if run.len() > 4 {
        assert(run[4].0 == next_stage(run[3].0, run[3].1));
    }
}

} // verus!
