//! What the stdio transport says where it cannot start.
use crate::memories::domain::memory::option_text;
use crate::shared::error::RaError;
use vstd::prelude::*;
use vstd::string::StringExecFns;

verus! {

pub const API_KEY_ENV: &'static str = "RECUERDOS_AI_API_KEY";

pub const BASE_URL_ENV: &'static str = "RECUERDOS_AI_URL";

pub const DEFAULT_BASE_URL: &'static str = "http://127.0.0.1:7070";

/// The key that the environment holds, or how to get one.
pub fn api_key(found: Option<String>) -> (key: Result<String, RaError>)
    ensures
        match found {
            Some(k) => key == Ok::<String, RaError>(k),
            None => key matches Err(e) && e is Validation && e.text() == API_KEY_ENV@
                + " is not set. Issue a key with `recuerdos-ai key issue --user <handle>` and put it in your MCP client's config for this server."@,
        },
{
    match found {
        Some(k) => Ok(k),
        None => {
            let mut sentence = API_KEY_ENV.to_owned();
            sentence.append(
                " is not set. Issue a key with `recuerdos-ai key issue --user <handle>` and put it in your MCP client's config for this server.",
            );
            Err(RaError::Validation(sentence))
        },
    }
}

/// Where the daemon is: where the environment says, else on this machine.
pub fn base_url(found: Option<String>) -> (url: String)
    ensures
        Some(url@) == (match option_text(found) {
            Some(u) => Some(u),
            None => Some(DEFAULT_BASE_URL@),
        }),
{
    match found {
        Some(u) => u,
        None => DEFAULT_BASE_URL.to_owned(),
    }
}

/// The first profile could not be read: the daemon is not there, or refuses.
pub fn unreachable_daemon(base_url: &str, error: &RaError) -> (refusal: RaError)
    ensures
        refusal is Validation,
        refusal.text() == "could not reach the Recuerdos AI daemon at "@ + base_url@ + ": "@
            + error.text(),
{
    let mut sentence = "could not reach the Recuerdos AI daemon at ".to_owned();
    sentence.append(base_url);
    sentence.append(": ");
    sentence.append(error.message().as_str());
    RaError::Validation(sentence)
}

} // verus!
