//! What the REST handlers decide before and after their one use case.
use crate::memories::application::memory_exporter::{format_of, ExportFormat};
use crate::memories::domain::memory::option_text;
use crate::shared::error::{RaError, Result};
use crate::shared::ids::{uuid_of_text, MemoryId};
use crate::text::{debug_text, quote};
use vstd::prelude::*;
use vstd::string::StringExecFns;

verus! {

/// The client name that the audit trail records for REST writes.
pub const ACTOR: &'static str = "rest";

/// How much of the audit trail is read where the caller does not say.
pub const DEFAULT_AUDIT_LIMIT: usize = 100;

/// How much of the audit trail is read at most.
pub const MAX_AUDIT_LIMIT: usize = 500;

/// What an export is asked with.
#[derive(Debug)]
pub struct ExportParams {
    pub format: Option<String>,
    pub include_inactive: bool,
}

impl ExportParams {
    /// The format asked for; markdown, where none is named.
    pub fn chosen_format(&self) -> (format: Result<ExportFormat>)
        ensures
            match format {
                Ok(f) => format_of(option_text(self.format)) == Some(f),
                Err(e) => format_of(option_text(self.format)) is None && e is Validation && e.text()
                    == "unknown export format "@ + debug_text(self.format->0@)
                    + " (expected markdown or json)"@,
            },
    {
        ExportFormat::parse(&self.format)
    }
}

/// What the audit trail is asked with.
#[derive(Debug, Clone, Copy)]
pub struct AuditParams {
    pub limit: Option<usize>,
}

impl AuditParams {
    /// How much of the audit trail to read: what was asked, at least one line
    /// and at most the maximum.
    pub fn effective_limit(&self) -> (limit: usize)
        ensures
            limit == (match self.limit {
                None => DEFAULT_AUDIT_LIMIT,
                Some(n) => if n < 1 {
                    1
                } else if n > MAX_AUDIT_LIMIT {
                    MAX_AUDIT_LIMIT
                } else {
                    n
                },
            }),
            1 <= limit <= MAX_AUDIT_LIMIT,
    {
        match self.limit {
            None => DEFAULT_AUDIT_LIMIT,
            Some(n) => if n < 1 {
                1
            } else if n > MAX_AUDIT_LIMIT {
                MAX_AUDIT_LIMIT
            } else {
                n
            },
        }
    }
}

/// The identifier of a path. A malformed one is the caller's mistake, not a
/// missing memory.
pub fn parse_id(raw: &str) -> (id: Result<MemoryId>)
    ensures
        match id {
            Ok(i) => uuid_of_text(raw@) == Some(i.value),
            Err(e) => uuid_of_text(raw@) is None && e is Validation && e.text() == debug_text(raw@)
                + " is not a valid memory id"@,
        },
{
    match MemoryId::parse(raw) {
        Ok(id) => Ok(id),
        Err(_) => {
            let mut sentence = quote(raw);
            sentence.append(" is not a valid memory id");
            Err(RaError::Validation(sentence))
        },
    }
}

} // verus!
