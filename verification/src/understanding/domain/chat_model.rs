//! A request for a structured answer, and how it can fail.
use vstd::prelude::*;

verus! {

/// The most that a model may write, where nothing else is said.
pub const DEFAULT_MAX_TOKENS: u32 = 4_096;

/// Why a language model gave no answer.
#[derive(Debug, Clone)]
pub enum ChatError {
    /// The provider is busy or out of reach: the same call may succeed later.
    Transient(String),
    /// The same call will be refused again.
    Permanent(String),
    /// The answer was not what was asked for.
    Malformed(String),
}

pub type ChatResult<T> = core::result::Result<T, ChatError>;

impl ChatError {
    /// The sentence carried by the error.
    pub open spec fn text(self) -> Seq<char> {
        match self {
            ChatError::Transient(m) => m@,
            ChatError::Permanent(m) => m@,
            ChatError::Malformed(m) => m@,
        }
    }

    pub fn message(&self) -> (message: String)
        ensures
            message@ == self.text(),
    {
        match self {
            ChatError::Transient(m) => m.clone(),
            ChatError::Permanent(m) => m.clone(),
            ChatError::Malformed(m) => m.clone(),
        }
    }

    pub fn is_transient(&self) -> (transient: bool)
        ensures
            transient == (self is Transient),
    {
        match self {
            ChatError::Transient(_) => true,
            _ => false,
        }
    }
}

/// A question with the schema that the answer must conform to.
#[derive(Debug)]
pub struct StructuredRequest {
    pub system: String,
    pub user: String,
    pub schema_name: String,
    pub schema: serde_json::Value,
    pub max_tokens: u32,
}

impl StructuredRequest {
    pub fn new(system: &str, user: &str, schema_name: &str, schema: serde_json::Value) -> (request:
        StructuredRequest)
        ensures
            request.system@ == system@,
            request.user@ == user@,
            request.schema_name@ == schema_name@,
            request.schema == schema,
            request.max_tokens == DEFAULT_MAX_TOKENS,
    {
        StructuredRequest {
            system: system.to_owned(),
            user: user.to_owned(),
            schema_name: schema_name.to_owned(),
            schema,
            max_tokens: DEFAULT_MAX_TOKENS,
        }
    }
}

} // verus!
