//! What the tools decide: the requests their arguments are, the two steps of
//! a deletion, and what an error may say.
use super::memory_toolbox::{DistillRequest, RecallRequest, SaveRequest};
use crate::shared::error::RaError;
use crate::text::same_text;
use vstd::prelude::*;
use vstd::string::StringExecFns;

verus! {

pub const PROFILE_URI: &'static str = "memory://profile";

/// How many candidates a deletion shows.
pub const CANDIDATES: usize = 10;

pub const NOT_CONFIRMED: &'static str =
    "Nothing deleted. Pass confirm: true along with the ids to actually delete, and only if the user asked for it.";

pub const NEITHER_GIVEN: &'static str =
    "provide `query` to find candidates, or `ids` with `confirm: true` to delete";

pub const NOT_PERMITTED: &'static str = "this RecordAgent API key is not permitted to do that";

pub const INTERNAL: &'static str = "internal error";

/// What is saved.
#[derive(Debug)]
pub struct SaveParams {
    /// The memory, written as a standalone sentence.
    pub content: String,
    pub category: Option<String>,
    pub tags: Vec<String>,
}

#[derive(Debug)]
pub struct RecallParams {
    /// The question you actually have.
    pub query: String,
    /// Optional category filter.
    pub categories: Vec<String>,
    /// How many to return. Defaults to the server's configured limit.
    pub limit: Option<usize>,
}

#[derive(Debug)]
pub struct DistillParams {
    /// The session: a summary of what happened, or the transcript itself.
    pub content: String,
    /// Your own id for this session, if you have one.
    pub session_id: Option<String>,
    /// Tags applied to everything the session yields.
    pub tags: Vec<String>,
}

#[derive(Debug)]
pub struct ForgetParams {
    /// What to look for. Returns candidates and deletes nothing.
    pub query: Option<String>,
    /// Ids to delete, from a previous `query` call.
    pub ids: Vec<String>,
    /// Must be true to actually delete.
    pub confirm: bool,
}

/// An error as an agent sees it.
#[derive(Debug)]
pub enum ToolError {
    InvalidParams(String),
    InvalidRequest(String),
    ResourceNotFound(String),
    Internal(String),
}

/// What a call of `memory_forget` comes to.
#[derive(Debug)]
pub enum ForgetPlan {
    /// Delete nothing, and say so.
    Say(String),
    /// Delete these.
    Delete(Vec<String>),
    /// Delete nothing; show what matches.
    Find { query: String, limit: usize },
    Refuse(ToolError),
}

/// The tools' decisions, for one client.
#[derive(Debug)]
pub struct MemoryMcpServer {
    /// Recorded as the source of a memory, so that the audit trail can tell
    /// an agent's writes from others.
    pub client_name: String,
}

impl MemoryMcpServer {
    pub fn new(client_name: &str) -> (server: MemoryMcpServer)
        ensures
            server.client_name@ == client_name@,
    {
        MemoryMcpServer { client_name: client_name.to_owned() }
    }

    pub fn memory_save(&self, params: SaveParams) -> (request: SaveRequest)
        ensures
            request.content == params.content,
            request.category == params.category,
            request.tags == params.tags,
            request.client matches Some(client) && client@ == self.client_name@,
    {
        SaveRequest {
            content: params.content,
            category: params.category,
            tags: params.tags,
            client: Some(self.client_name.clone()),
        }
    }

    pub fn memory_recall(&self, params: RecallParams) -> (request: RecallRequest)
        ensures
            request.query == params.query,
            request.categories == params.categories,
            request.limit == params.limit,
    {
        RecallRequest { query: params.query, categories: params.categories, limit: params.limit }
    }

    pub fn session_distill(&self, params: DistillParams) -> (request: DistillRequest)
        ensures
            request.content == params.content,
            request.session_id == params.session_id,
            request.tags == params.tags,
    {
        DistillRequest { content: params.content, session_id: params.session_id, tags: params.tags }
    }

    /// A deletion takes two steps, and the server enforces it: identifiers
    /// alone delete nothing, they need the confirmation; and a query only
    /// shows what matches.
    pub fn memory_forget(&self, params: ForgetParams) -> (plan: ForgetPlan)
        ensures
            match plan {
                ForgetPlan::Say(text) => params.ids@.len() > 0 && !params.confirm && text@
                    == NOT_CONFIRMED@,
                ForgetPlan::Delete(ids) => params.ids@.len() > 0 && params.confirm && ids
                    == params.ids,
                ForgetPlan::Find { query, limit } => params.ids@.len() == 0 && params.query == Some(
                    query,
                ) && limit == CANDIDATES,
                ForgetPlan::Refuse(error) => params.ids@.len() == 0 && params.query is None
                    && error is InvalidParams && error->InvalidParams_0@ == NEITHER_GIVEN@,
            },
    {
        if params.ids.len() > 0 {
            if !params.confirm {
                return ForgetPlan::Say(NOT_CONFIRMED.to_owned());
            }
            return ForgetPlan::Delete(params.ids);
        }
        match params.query {
            Some(query) => ForgetPlan::Find { query, limit: CANDIDATES },
            None => ForgetPlan::Refuse(ToolError::InvalidParams(NEITHER_GIVEN.to_owned())),
        }
    }

    /// The one resource there is.
    pub fn read_resource(&self, uri: &str) -> (readable: Result<(), ToolError>)
        ensures
            match readable {
                Ok(_) => uri@ == PROFILE_URI@,
                Err(e) => uri@ != PROFILE_URI@ && e is ResourceNotFound && e->ResourceNotFound_0@
                    == "unknown resource "@ + uri@,
            },
    {
        if same_text(uri, PROFILE_URI) {
            Ok(())
        } else {
            let mut sentence = "unknown resource ".to_owned();
            sentence.append(uri);
            Err(ToolError::ResourceNotFound(sentence))
        }
    }
}

/// An error as an agent may see it. The detail of an internal one names paths
/// and statements and is dropped, and so is that of a missing permission.
pub fn to_mcp_error(error: RaError) -> (shown: ToolError)
    ensures
        match error {
            RaError::Validation(m) => shown == ToolError::InvalidParams(m),
            RaError::NotFound(m) => shown == ToolError::InvalidParams(m),
            RaError::Unauthorized(_) => shown is InvalidRequest && shown->InvalidRequest_0@
                == NOT_PERMITTED@,
            RaError::Forbidden(_) => shown is InvalidRequest && shown->InvalidRequest_0@
                == NOT_PERMITTED@,
            RaError::Conflict(m) => shown == ToolError::InvalidRequest(m),
            RaError::Internal(_) => shown is Internal && shown->Internal_0@ == INTERNAL@,
        },
{
    match error {
        RaError::Validation(m) => ToolError::InvalidParams(m),
        RaError::NotFound(m) => ToolError::InvalidParams(m),
        RaError::Unauthorized(_) => ToolError::InvalidRequest(NOT_PERMITTED.to_owned()),
        RaError::Forbidden(_) => ToolError::InvalidRequest(NOT_PERMITTED.to_owned()),
        RaError::Conflict(m) => ToolError::InvalidRequest(m),
        RaError::Internal(_) => ToolError::Internal(INTERNAL.to_owned()),
    }
}

} // verus!
