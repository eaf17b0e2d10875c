//! The record that is kept of every change to a memory.
use crate::shared::ids::MemoryId;
use crate::shared::time::Timestamp;
use crate::text::same_text;
use vstd::prelude::*;

verus! {

/// What was done to a memory.
#[derive(Debug, Clone, Copy, PartialEq, Eq, Structural)]
pub enum AuditOperation {
    Add,
    Update,
    Delete,
    Supersede,
    Merge,
}

/// One line of the audit trail.
#[derive(Debug)]
pub struct AuditEntry {
    pub memory_id: MemoryId,
    pub operation: AuditOperation,
    /// Which client or use case did it.
    pub actor: String,
    /// Human-readable summary of what changed.
    pub detail: String,
    pub at: Timestamp,
}

impl AuditOperation {
    pub open spec fn name(self) -> Seq<char> {
        match self {
            AuditOperation::Add => "add"@,
            AuditOperation::Update => "update"@,
            AuditOperation::Delete => "delete"@,
            AuditOperation::Supersede => "supersede"@,
            AuditOperation::Merge => "merge"@,
        }
    }

    pub fn as_str(&self) -> (name: &'static str)
        ensures
            name@ == self.name(),
    {
        match self {
            AuditOperation::Add => "add",
            AuditOperation::Update => "update",
            AuditOperation::Delete => "delete",
            AuditOperation::Supersede => "supersede",
            AuditOperation::Merge => "merge",
        }
    }

    /// The operation of a stored name.
    pub fn from_stored(name: &str) -> (operation: Option<AuditOperation>)
        ensures
            operation == operation_of(name@),
    {
        if same_text(name, "add") {
            Some(AuditOperation::Add)
        } else if same_text(name, "update") {
            Some(AuditOperation::Update)
        } else if same_text(name, "delete") {
            Some(AuditOperation::Delete)
        } else if same_text(name, "supersede") {
            Some(AuditOperation::Supersede)
        } else if same_text(name, "merge") {
            Some(AuditOperation::Merge)
        } else {
            None
        }
    }
}

pub open spec fn operation_of(name: Seq<char>) -> Option<AuditOperation> {
    if name == "add"@ {
        Some(AuditOperation::Add)
    } else if name == "update"@ {
        Some(AuditOperation::Update)
    } else if name == "delete"@ {
        Some(AuditOperation::Delete)
    } else if name == "supersede"@ {
        Some(AuditOperation::Supersede)
    } else if name == "merge"@ {
        Some(AuditOperation::Merge)
    } else {
        None
    }
}

/// Every operation is read back from its name.
pub proof fn operations_round_trip(operation: AuditOperation)
    ensures
        operation_of(operation.name()) == Some(operation),
{
    reveal_strlit("add");
    reveal_strlit("update");
    reveal_strlit("delete");
    reveal_strlit("supersede");
    reveal_strlit("merge");
    assert("update"@[0] != "delete"@[0]);
    assert("add"@.len() == 3 && "update"@.len() == 6 && "supersede"@.len() == 9 && "merge"@.len()
        == 5);
}

/// Each operation is written as the word for it.
pub proof fn operations_are_written_as_words(operation: AuditOperation)
    ensures
        operation is Add <==> operation.name() == "add"@,
        operation is Update <==> operation.name() == "update"@,
        operation is Delete <==> operation.name() == "delete"@,
        operation is Supersede <==> operation.name() == "supersede"@,
        operation is Merge <==> operation.name() == "merge"@,
{
    reveal_strlit("add");
    reveal_strlit("update");
    reveal_strlit("delete");
    reveal_strlit("supersede");
    reveal_strlit("merge");
    assert("update"@[0] != "delete"@[0]);
    assert("add"@.len() == 3 && "update"@.len() == 6 && "delete"@.len() == 6 && "supersede"@.len()
        == 9 && "merge"@.len() == 5);
}

} // verus!
