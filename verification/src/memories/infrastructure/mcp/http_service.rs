//! Which `Host` headers the tools' HTTP transport accepts, and whose key a
//! request carries.
use crate::shared::error::{RaError, Result};
use crate::text::{copy_texts, has_prefix, same_text, strip_prefix, texts};
use vstd::prelude::*;

verus! {

/// What the audit trail calls the clients of this transport: the connection
/// carries no client name.
pub const HTTP_CLIENT: &'static str = "mcp-http";

/// The hosts that are accepted out of the box.
pub open spec fn loopback_hosts() -> Seq<Seq<char>> {
    seq!["localhost"@, "127.0.0.1"@, "::1"@]
}

/// Whether the guard is switched off: some entry is a star.
pub open spec fn accepts_any(configured: Seq<Seq<char>>) -> bool {
    exists|i: int| 0 <= i < configured.len() && #[trigger] configured[i] == "*"@
}

/// The hosts that are accepted. The empty list accepts any.
pub fn allowed_hosts(configured: &Vec<String>) -> (hosts: Vec<String>)
    ensures
        texts(hosts@) == (if accepts_any(texts(configured@)) {
            Seq::empty()
        } else {
            loopback_hosts() + texts(configured@)
        }),
{
    let mut i: usize = 0;
    while i < configured.len()
        invariant
            0 <= i <= configured@.len(),
            forall|j: int| 0 <= j < i ==> #[trigger] texts(configured@)[j] != "*"@,
        decreases configured@.len() - i,
    {
        assert(texts(configured@)[i as int] == configured@[i as int]@);
        if same_text(configured[i].as_str(), "*") {
            let none: Vec<String> = Vec::new();
            assert(texts(none@) =~= Seq::empty());
            return none;
        }
        i += 1;
    }
    let mut hosts: Vec<String> = Vec::new();
    hosts.push("localhost".to_owned());
    hosts.push("127.0.0.1".to_owned());
    hosts.push("::1".to_owned());
    let mut more = copy_texts(configured);
    let ghost listed = hosts@;
    let ghost added = more@;
    hosts.append(&mut more);
    assert(texts(hosts@) =~= loopback_hosts() + texts(configured@)) by {
        assert(hosts@ =~= listed + added);
        assert(texts(listed) =~= loopback_hosts());
        assert(texts(listed + added) =~= texts(listed) + texts(added));
    }
    hosts
}

/// The key that a request's `Authorization` header carries. Each request is
/// sent on under its own key, so the header that the daemon sees is the one
/// that came.
pub fn caller_key(authorization: Option<String>) -> (key: Result<String>)
    ensures
        match authorization {
            Some(header) if has_prefix(header@, "Bearer "@) => key matches Ok(k) && "Bearer "@ + k@
                == header@,
            _ => key matches Err(error) && error is Unauthorized && error.text()
                == "the request carries no bearer token"@,
        },
{
    if let Some(header) = authorization {
        if let Some(key) = strip_prefix(header.as_str(), "Bearer ") {
            assert("Bearer "@ + key@ =~= header@);
            return Ok(key);
        }
    }
    Err(RaError::Unauthorized("the request carries no bearer token".to_owned()))
}

/// Configuring hosts never shuts the local ones out: unless the guard is off,
/// every loopback host is accepted, and so is every configured one.
pub proof fn local_hosts_stay_allowed(configured: Seq<Seq<char>>, host: Seq<char>)
    requires
        !accepts_any(configured),
        loopback_hosts().contains(host) || configured.contains(host),
    ensures
        (loopback_hosts() + configured).contains(host),
{
    let all = loopback_hosts() + configured;
    if loopback_hosts().contains(host) {
        let i = choose|i: int| 0 <= i < loopback_hosts().len() && loopback_hosts()[i] == host;
        assert(all[i] == host);
    } else {
        let i = choose|i: int| 0 <= i < configured.len() && configured[i] == host;
        assert(all[loopback_hosts().len() + i] == host);
    }
}

/// The names and numbers of this machine are accepted out of the box, and the
/// guard is off where a star is configured, wherever it stands.
pub proof fn this_machine_is_accepted(configured: Seq<Seq<char>>)
    ensures
        loopback_hosts().contains("localhost"@),
        loopback_hosts().contains("127.0.0.1"@),
        loopback_hosts().contains("::1"@),
        loopback_hosts().len() == 3,
        accepts_any(configured) <==> configured.contains("*"@),
{
    let hosts = loopback_hosts();
    assert(hosts[0] == "localhost"@ && hosts[1] == "127.0.0.1"@ && hosts[2] == "::1"@);
}

} // verus!
