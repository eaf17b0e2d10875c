//! Fetches one memory.
use crate::memories::domain::memory::Memory;
use crate::shared::error::{RaError, Result};
use crate::shared::ids::MemoryId;
use vstd::prelude::*;
use vstd::string::StringExecFns;

verus! {

/// What is said of a memory that is not there, or not the caller's: the two
/// must not be told apart, or the service tells of other users' memories.
pub open spec fn not_found_text(id: MemoryId) -> Seq<char> {
    "memory "@ + id.text() + " not found"@
}

pub fn not_found(id: MemoryId) -> (error: RaError)
    ensures
        error is NotFound,
        error.text() == not_found_text(id),
{
    let mut sentence = "memory ".to_owned();
    sentence.append(id.to_text().as_str());
    sentence.append(" not found");
    RaError::NotFound(sentence)
}

/// The memory that a lookup answered, or why there is none.
pub fn require(id: MemoryId, reply: Result<Option<Memory>>) -> (memory: Result<Memory>)
    ensures
        match reply {
            Err(error) => memory == Err::<Memory, RaError>(error),
            Ok(None) => memory matches Err(e) && e is NotFound && e.text() == not_found_text(id),
            Ok(Some(found)) => memory == Ok::<Memory, RaError>(found),
        },
{
    match reply {
        Err(error) => Err(error),
        Ok(None) => Err(not_found(id)),
        Ok(Some(found)) => Ok(found),
    }
}

#[derive(Debug, Clone, Copy)]
pub struct MemoryFinder;

impl MemoryFinder {
    pub fn new() -> (finder: MemoryFinder) {
        MemoryFinder
    }

    /// What a lookup of the caller's own memories answered, or that there is
    /// none.
    pub fn found(&self, id: MemoryId, reply: Result<Option<Memory>>) -> (memory: Result<Memory>)
        ensures
            match reply {
                Err(error) => memory == Err::<Memory, RaError>(error),
                Ok(None) => memory matches Err(e) && e is NotFound && e.text() == not_found_text(
                    id,
                ),
                Ok(Some(found)) => memory == Ok::<Memory, RaError>(found),
            },
    {
        require(id, reply)
    }
}

} // verus!
