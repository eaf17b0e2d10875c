//! What the tools hand over and what they get back.
use crate::shared::time::Timestamp;
use vstd::prelude::*;

verus! {

/// A memory as the tools show it. A score is a double-precision number, by
/// its bit pattern.
#[derive(Debug, Clone)]
pub struct ToolMemory {
    pub id: String,
    pub content: String,
    pub category: String,
    pub tags: Vec<String>,
    pub created_at: Timestamp,
    pub score: Option<u64>,
}

#[derive(Debug, Clone)]
pub struct SaveRequest {
    pub content: String,
    pub category: Option<String>,
    pub tags: Vec<String>,
    /// Which client stores it, for the audit trail.
    pub client: Option<String>,
}

/// What a save did: one submission can become several memories, or none at
/// all where the store knows it already.
#[derive(Debug, Clone)]
pub struct SaveOutcome {
    pub memories: Vec<ToolMemory>,
    /// Whether a language model extracted and reconciled, or the content was
    /// stored as sent.
    pub understanding: bool,
}

#[derive(Debug, Clone)]
pub struct RecallRequest {
    pub query: String,
    pub categories: Vec<String>,
    pub limit: Option<usize>,
}

/// A finished session, handed over to be reduced to what outlives it.
#[derive(Debug, Clone)]
pub struct DistillRequest {
    /// The transcript, or a summary of it.
    pub content: String,
    /// The client's own name for the session.
    pub session_id: Option<String>,
    pub tags: Vec<String>,
}

} // verus!
