//! Turning text into vectors: what a text is embedded for, and what a batch
//! must answer.
use crate::shared::error::{RaError, Result};
use vstd::prelude::*;

verus! {

/// What a text is being embedded for.
///
/// Whatever a memory was stored as, every later comparison of that stored
/// text uses the same task: storage, updates and consolidation are
/// `Document`, and only the recall query is `Query`.
#[derive(Debug, Clone, Copy, PartialEq, Eq, Structural)]
pub enum EmbeddingTask {
    /// Content being stored, or compared with other stored content.
    Document,
    /// A search query, matched against stored documents.
    Query,
}

/// The one vector of a single-text batch: the last that came back. A vector
/// is a list of single-precision numbers, held by their bit patterns.
pub fn embed_one(embeddings: Vec<Vec<u32>>) -> (embedding: Result<Vec<u32>>)
    ensures
        match embedding {
            Ok(vector) => embeddings@.len() > 0 && vector == embeddings@.last(),
            Err(e) => embeddings@.len() == 0 && e is Internal && e.text()
                == "embedder returned no vector for one input"@,
        },
{
    let mut list = embeddings;
    match list.pop() {
        Some(vector) => Ok(vector),
        None => Err(RaError::Internal("embedder returned no vector for one input".to_owned())),
    }
}

} // verus!
