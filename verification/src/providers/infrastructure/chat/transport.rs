//! Which failures of a provider are worth another try, and what is said of
//! them.
use crate::shared::error::{RaError, Result};
use crate::text::{debug_text, decimal, decimal_text, head, quote, take_chars, trim, trimmed};
use crate::understanding::domain::chat_model::ChatError;
use vstd::prelude::*;
use vstd::string::StrSliceExecFns;
use vstd::string::StringExecFns;

verus! {

/// Long enough for a slow answer, short enough that a stuck connection does
/// not hold a worker for ever.
pub const DEFAULT_TIMEOUT_SECONDS: u64 = 60;

/// How much of a body is repeated.
pub const SUMMARY_LIMIT: usize = 400;

/// A body in short: trimmed, and cut off where it is long.
pub open spec fn summary(body: Seq<char>, limit: nat) -> Seq<char> {
    let text = trimmed(body);
    if text.len() == 0 {
        "(empty body)"@
    } else if text.len() <= limit {
        text
    } else {
        head(text, limit) + "\u{2026}"@
    }
}

/// A body in short. The beginning carries the message; the rest is usually
/// identifiers and nested envelopes.
pub fn summarise(body: &str, limit: usize) -> (text: String)
    ensures
        text@ == summary(body@, limit as nat),
{
    let text = trim(body);
    if text.as_str().is_empty() {
        return "(empty body)".to_owned();
    }
    if text.as_str().unicode_len() <= limit {
        return text;
    }
    let mut short = take_chars(text.as_str(), limit);
    short.append("\u{2026}");
    short
}

/// Whether a status says that the provider is busy.
pub open spec fn is_busy(status: u16) -> bool {
    500 <= status < 600 || status == 408 || status == 409 || status == 429
}

/// What an answer that is not a success comes to.
pub open spec fn is_refusal(status: u16, body: Seq<char>, error: ChatError) -> bool {
    &&& is_busy(status) ==> error is Transient
    &&& !is_busy(status) ==> error is Permanent
    &&& error.text() == "HTTP "@ + decimal(status as nat) + ": "@ + summary(
        body,
        SUMMARY_LIMIT as nat,
    )
}

/// What an answer that is not a success means: busy is worth another try,
/// anything else will be refused again.
pub fn classify_status(status: u16, body: &str) -> (error: ChatError)
    ensures
        is_refusal(status, body@, error),
{
    let mut detail = "HTTP ".to_owned();
    detail.append(decimal_text(status as u64).as_str());
    detail.append(": ");
    detail.append(summarise(body, SUMMARY_LIMIT).as_str());
    if (500 <= status && status < 600) || status == 408 || status == 409 || status == 429 {
        ChatError::Transient(detail)
    } else {
        ChatError::Permanent(detail)
    }
}

/// What a failure without an answer means. A slow or unreachable provider
/// says nothing about the request, so it is worth another try.
pub fn classify_transport(timed_out: bool, unreached: bool, shown: &str) -> (error: ChatError)
    ensures
        timed_out ==> error is Transient && error.text() == "request timed out: "@ + shown@,
        !timed_out && unreached ==> error is Transient && error.text()
            == "could not reach the provider: "@ + shown@,
        !timed_out && !unreached ==> error is Permanent && error.text() == shown@,
{
    if timed_out {
        let mut sentence = "request timed out: ".to_owned();
        sentence.append(shown);
        ChatError::Transient(sentence)
    } else if unreached {
        let mut sentence = "could not reach the provider: ".to_owned();
        sentence.append(shown);
        ChatError::Transient(sentence)
    } else {
        ChatError::Permanent(shown.to_owned())
    }
}

/// A key as a bearer token: the header's name and its value.
pub fn bearer(key: &str) -> (header: (String, String))
    ensures
        header.0@ == "authorization"@,
        header.1@ == "Bearer "@ + key@,
{
    let mut value = "Bearer ".to_owned();
    value.append(key);
    ("authorization".to_owned(), value)
}

pub open spec fn key_not_set(variable: Seq<char>, section: Seq<char>) -> Seq<char> {
    "["@ + section + "].api_key_env names "@ + debug_text(variable)
        + ", but that environment variable is not set. Export it before starting the daemon."@
}

pub open spec fn key_empty(variable: Seq<char>) -> Seq<char> {
    "the environment variable "@ + debug_text(variable) + " is set but empty"@
}

/// The key that a variable of the environment holds. Configuration names the
/// variable, and never holds the key itself.
pub fn key_from_env(variable: &str, section: &str, found: Option<String>) -> (key: Result<String>)
    ensures
        match found {
            None => key matches Err(e) && e is Validation && e.text() == key_not_set(
                variable@,
                section@,
            ),
            Some(value) => match key {
                Ok(k) => trimmed(value@).len() > 0 && k == value,
                Err(e) => trimmed(value@).len() == 0 && e is Validation && e.text() == key_empty(
                    variable@,
                ),
            },
        },
{
    match found {
        None => {
            let mut sentence = "[".to_owned();
            sentence.append(section);
            sentence.append("].api_key_env names ");
            sentence.append(quote(variable).as_str());
            sentence.append(
                ", but that environment variable is not set. Export it before starting the daemon.",
            );
            Err(RaError::Validation(sentence))
        },
        Some(value) => {
            if trim(value.as_str()).as_str().is_empty() {
                let mut sentence = "the environment variable ".to_owned();
                sentence.append(quote(variable).as_str());
                sentence.append(" is set but empty");
                Err(RaError::Validation(sentence))
            } else {
                Ok(value)
            }
        },
    }
}

/// A provider is busy where it fails itself, runs out of time, is in conflict,
/// or is asked too often; any other refusal stands.
pub proof fn only_busy_is_worth_another_try(status: u16, body: Seq<char>, error: ChatError)
    requires
        is_refusal(status, body, error),
    ensures
        500 <= status < 600 ==> error is Transient,
        status == 408 || status == 409 || status == 429 ==> error is Transient,
        400 <= status < 500 && status != 408 && status != 409 && status != 429 ==> error
            is Permanent,
        error.text() == "HTTP "@ + decimal(status as nat) + ": "@ + summary(body, 400),
{
}

/// A body in short is the body, trimmed, as far as the limit goes.
pub proof fn summaries_are_beginnings(body: Seq<char>, limit: nat)
    ensures
        trimmed(body).len() == 0 ==> summary(body, limit) == "(empty body)"@,
        0 < trimmed(body).len() <= limit ==> summary(body, limit) == trimmed(body),
        trimmed(body).len() > 0 && trimmed(body).len() > limit ==> summary(body, limit) == trimmed(
            body,
        ).take(limit as int) + "\u{2026}"@,
{
}

} // verus!
