//! Edits an existing memory, keeping both indexes in step.
use crate::memories::application::memory_finder::not_found_text;
use crate::memories::domain::embedder::{embed_one, EmbeddingTask};
use crate::memories::domain::memory::{edit_complaint, edited, Memory, MemoryEdit, MemoryView};
use crate::shared::error::Result;
use crate::shared::ids::MemoryId;
use crate::shared::time::Timestamp;
use crate::text::{same_text, trim, trimmed};
use vstd::prelude::*;

verus! {

/// What an update does next.
#[derive(Debug)]
pub enum UpdateStep {
    /// Fetch the memory.
    Find { id: MemoryId },
    /// Write the row.
    Update { memory: Memory, content_changed: bool },
    /// Embed the memory's content for a task.
    Embed { memory: Memory, task: EmbeddingTask },
    /// Write the vector.
    UpsertVector { memory: Memory, embedding: Vec<u32> },
    /// Write the keyword entry.
    UpsertText { memory: Memory },
    Done(Result<Memory>),
}

/// The stages of an update.
pub enum UpdateStage {
    Find,
    Update,
    Embed,
    UpsertVector,
    UpsertText,
    Updated,
    Failed,
}

impl UpdateStep {
    pub open spec fn stage(self) -> UpdateStage {
        match self {
            UpdateStep::Find { .. } => UpdateStage::Find,
            UpdateStep::Update { .. } => UpdateStage::Update,
            UpdateStep::Embed { .. } => UpdateStage::Embed,
            UpdateStep::UpsertVector { .. } => UpdateStage::UpsertVector,
            UpdateStep::UpsertText { .. } => UpdateStage::UpsertText,
            UpdateStep::Done(Ok(_)) => UpdateStage::Updated,
            UpdateStep::Done(Err(_)) => UpdateStage::Failed,
        }
    }
}

/// The stage that follows one that went well or did not, for an edit that
/// changes the content or does not.
pub open spec fn next_update_stage(stage: UpdateStage, ok: bool, content_changed: bool) -> UpdateStage {
    match stage {
        UpdateStage::UpsertText => UpdateStage::Updated,
        UpdateStage::Updated => UpdateStage::Updated,
        UpdateStage::Failed => UpdateStage::Failed,
        _ => if !ok {
            UpdateStage::Failed
        } else if stage is Find {
            UpdateStage::Update
        } else if stage is Update && content_changed {
            UpdateStage::Embed
        } else if stage is Embed {
            UpdateStage::UpsertVector
        } else {
            UpdateStage::UpsertText
        },
    }
}

/// Whether an edit changes what a memory says, white space around it aside.
pub open spec fn changes_content(memory: MemoryView, edit: MemoryEdit) -> bool {
    edit.content is Some && trimmed(edit.content->0@) != memory.content
}

#[derive(Debug, Clone, Copy)]
pub struct MemoryUpdater;

impl MemoryUpdater {
    pub fn new() -> (updater: MemoryUpdater) {
        MemoryUpdater
    }

    pub fn begin(&self, id: MemoryId) -> (step: UpdateStep)
        ensures
            step.stage() is Find,
            step == (UpdateStep::Find { id }),
    {
        UpdateStep::Find { id }
    }

    /// A memory that is not there, or not the caller's, is not found; an edit
    /// that is refused changes nothing.
    pub fn found(
        &self,
        id: MemoryId,
        edit: MemoryEdit,
        now: Timestamp,
        reply: Result<Option<Memory>>,
    ) -> (step: UpdateStep)
        ensures
            step.stage() == next_update_stage(
                UpdateStage::Find,
                reply matches Ok(Some(_)) && edit_complaint(edit) is None,
                true,
            ),
            step.stage() == next_update_stage(
                UpdateStage::Find,
                reply matches Ok(Some(_)) && edit_complaint(edit) is None,
                false,
            ),
            match reply {
                Err(error) => step == UpdateStep::Done(Err(error)),
                Ok(None) => step matches UpdateStep::Done(Err(e)) && e is NotFound && e.text()
                    == not_found_text(id),
                Ok(Some(existing)) => match edit_complaint(edit) {
                    None => step matches UpdateStep::Update { memory, content_changed } && memory@
                        == edited(existing@, edit, now) && content_changed == changes_content(
                        existing@,
                        edit,
                    ),
                    Some(sentence) => step matches UpdateStep::Done(Err(e)) && e is Validation
                        && e.text() == sentence,
                },
            },
    {
        match crate::memories::application::memory_finder::require(id, reply) {
            Err(error) => UpdateStep::Done(Err(error)),
            Ok(existing) => {
                let content_changed = match &edit.content {
                    Some(content) => !same_text(
                        trim(content.as_str()).as_str(),
                        existing.content(),
                    ),
                    None => false,
                };
                match existing.edit(edit, now) {
                    Ok(memory) => UpdateStep::Update { memory, content_changed },
                    Err(error) => UpdateStep::Done(Err(error)),
                }
            },
        }
    }

    /// Embedding is the expensive part, so it happens only where the text
    /// changed: an edit of the tags leaves the vector valid.
    pub fn updated(&self, memory: Memory, content_changed: bool, reply: Result<()>) -> (step:
        UpdateStep)
        ensures
            step.stage() == next_update_stage(UpdateStage::Update, reply is Ok, content_changed),
            match reply {
                Ok(_) => if content_changed {
                    step == (UpdateStep::Embed { memory, task: EmbeddingTask::Document })
                } else {
                    step == (UpdateStep::UpsertText { memory })
                },
                Err(error) => step == UpdateStep::Done(Err(error)),
            },
    {
        match reply {
            Ok(_) => {
                if content_changed {
                    UpdateStep::Embed { memory, task: EmbeddingTask::Document }
                } else {
                    UpdateStep::UpsertText { memory }
                }
            },
            Err(error) => UpdateStep::Done(Err(error)),
        }
    }

    pub fn embedded(&self, memory: Memory, reply: Result<Vec<Vec<u32>>>) -> (step: UpdateStep)
        ensures
            step.stage() == next_update_stage(
                UpdateStage::Embed,
                reply matches Ok(vectors) && vectors@.len() > 0,
                true,
            ),
            match reply {
                Ok(vectors) => if vectors@.len() > 0 {
                    step == (UpdateStep::UpsertVector { memory, embedding: vectors@.last() })
                } else {
                    step matches UpdateStep::Done(Err(e)) && e is Internal && e.text()
                        == "embedder returned no vector for one input"@
                },
                Err(error) => step == UpdateStep::Done(Err(error)),
            },
    {
        match reply {
            Ok(vectors) => match embed_one(vectors) {
                Ok(embedding) => UpdateStep::UpsertVector { memory, embedding },
                Err(error) => UpdateStep::Done(Err(error)),
            },
            Err(error) => UpdateStep::Done(Err(error)),
        }
    }

    pub fn vector_written(&self, memory: Memory, reply: Result<()>) -> (step: UpdateStep)
        ensures
            step.stage() == next_update_stage(UpdateStage::UpsertVector, reply is Ok, true),
            match reply {
                Ok(_) => step == (UpdateStep::UpsertText { memory }),
                Err(error) => step == UpdateStep::Done(Err(error)),
            },
    {
        match reply {
            Ok(_) => UpdateStep::UpsertText { memory },
            Err(error) => UpdateStep::Done(Err(error)),
        }
    }

    /// Tags and category are indexed too, so any edit refreshes the keyword
    /// entry; a stale one does not fail the update.
    pub fn text_written(&self, memory: Memory, reply: Result<()>) -> (step: UpdateStep)
        ensures
            forall|changed: bool|
                step.stage() == #[trigger] next_update_stage(
                    UpdateStage::UpsertText,
                    reply is Ok,
                    changed,
                ),
            step == UpdateStep::Done(Ok(memory)),
    {
        UpdateStep::Done(Ok(memory))
    }
}

/// An edit that leaves the content alone, or writes the same content again,
/// never asks for a new vector.
pub proof fn same_content_keeps_its_vector(memory: MemoryView, edit: MemoryEdit, now: Timestamp)
    requires
        edit_complaint(edit) is None,
    ensures
        changes_content(memory, edit) <==> edited(memory, edit, now).content != memory.content,
{
}

/// A run of an update: the stages it went through and whether each went well.
pub open spec fn is_update(run: Seq<(UpdateStage, bool)>, content_changed: bool) -> bool {
    &&& run.len() > 0
    &&& run[0].0 is Find
    &&& forall|i: int|
        #![trigger run[i]]
        0 < i < run.len() ==> run[i].0 == next_update_stage(
            run[i - 1].0,
            run[i - 1].1,
            content_changed,
        )
}

/// How far along an update is, and what it has behind it.
proof fn lemma_update(run: Seq<(UpdateStage, bool)>, content_changed: bool, i: int)
    requires
        is_update(run, content_changed),
        0 <= i < run.len(),
    ensures
        run[i].0 is Update ==> i == 1 && run[0].1,
        run[i].0 is Embed ==> i == 2 && run[1] == (UpdateStage::Update, true) && content_changed,
        run[i].0 is UpsertVector ==> i == 3 && run[1] == (UpdateStage::Update, true) && run[2] == (
            UpdateStage::Embed,
            true,
        ) && content_changed,
        run[i].0 is UpsertText || run[i].0 is Updated ==> i >= 2 && run[1] == (
            UpdateStage::Update,
            true,
        ) && (content_changed ==> i >= 4 && run[3] == (UpdateStage::UpsertVector, true)),
        run[i].0 is Updated ==> run[i - 1].0 is UpsertText || run[i - 1].0 is Updated,
        run[i].0 is Find ==> i == 0,
    decreases i,
{
    if i > 0 {
        lemma_update(run, content_changed, i - 1);
        assert(run[i].0 == next_update_stage(run[i - 1].0, run[i - 1].1, content_changed));
    }
}

/// An update that reports success wrote the row, and the keyword entry was
/// asked for; where the content changed it also wrote the new vector.
pub proof fn updates_keep_the_indexes_in_step(
    run: Seq<(UpdateStage, bool)>,
    content_changed: bool,
    i: int,
)
    requires
        is_update(run, content_changed),
        0 <= i < run.len(),
        run[i].0 is Updated,
    ensures
        run.contains((UpdateStage::Update, true)),
        content_changed ==> run.contains((UpdateStage::UpsertVector, true)),
        exists|k: int| 0 <= k < i && (#[trigger] run[k]).0 is UpsertText,
{
    lemma_update(run, content_changed, i);
    assert(run[1] == (UpdateStage::Update, true));
    if content_changed {
        assert(run[3] == (UpdateStage::UpsertVector, true));
    }
    lemma_keyword_entry(run, content_changed, i);
}

proof fn lemma_keyword_entry(run: Seq<(UpdateStage, bool)>, content_changed: bool, i: int)
    requires
        is_update(run, content_changed),
        0 <= i < run.len(),
        run[i].0 is Updated,
    ensures
        exists|k: int| 0 <= k < i && (#[trigger] run[k]).0 is UpsertText,
    decreases i,
{
    lemma_update(run, content_changed, i);
    if run[i - 1].0 is Updated {
        lemma_keyword_entry(run, content_changed, i - 1);
    }
}

/// An update whose steps go well reports success: after the row it goes on to
/// the vector where the content changed, and otherwise straight to the keyword
/// entry.
pub proof fn updates_that_go_well_succeed(run: Seq<(UpdateStage, bool)>, content_changed: bool)
    requires
        is_update(run, content_changed),
        forall|i: int| 0 <= i < run.len() ==> (#[trigger] run[i]).1,
    ensures
        run.len() > 1 ==> run[1].0 is Update,
        run.len() > 3 && !content_changed ==> run[2].0 is UpsertText && run[3].0 is Updated,
        run.len() > 5 && content_changed ==> run[2].0 is Embed && run[3].0 is UpsertVector
            && run[4].0 is UpsertText && run[5].0 is Updated,
{
    assert(run[0].1);
    if run.len() > 1 {
        assert(run[1].1);
    }
    if run.len() > 2 {
        assert(run[2].1);
    }
    if run.len() > 3 {
        assert(run[3].1);
    }
    if run.len() > 4 {
        assert(run[4].1);
    }
    if run.len() > 5 {
        assert(run[5].1);
    }
}

} // verus!
