//! Identity of a client process: host name and a random tag, built once and
//! handed to every worker.

use crate::error::ConfigError;
use vstd::prelude::*;
use vstd::string::StringExecFns;

verus! {

/// Number of characters of a random tag.
pub const TAG_LEN: usize = 32;

/// A lower-case hexadecimal digit.
pub open spec fn is_lower_hex(c: char) -> bool {
    ('0' <= c && c <= '9') || ('a' <= c && c <= 'f')
}

/// A random tag: 32 lower-case hexadecimal digits.
pub open spec fn is_tag(text: Seq<char>) -> bool {
    text.len() == TAG_LEN && forall|i: int| 0 <= i < text.len() ==> is_lower_hex(#[trigger] text[i])
}

/// `gethostname::gethostname()`, converted to a `String`: `None` where the
/// name is not valid Unicode. Nothing is claimed of the name: it is the
/// machine's. The call aborts if the operating system does not give a name.
#[verifier::external_body]
fn host_name() -> (name: Option<String>) {
    gethostname::gethostname().into_string().ok()
}

/// `uuid::Uuid::new_v4()`, written through its `simple` form in lower-case
/// hexadecimal: the 128 bits of the identifier as 32 digits, no hyphens.
/// Which digits is up to chance. The call aborts if the operating system has
/// no randomness to give.
#[verifier::external_body]
fn random_tag() -> (tag: String)
    ensures
        is_tag(tag@),
{
    format!("{:x}", uuid::Uuid::new_v4().simple())
}

/// The identity of a client on `host` with the random tag `tag`.
pub open spec fn identity_of(host: Seq<char>, tag: Seq<char>) -> Seq<char> {
    host + seq![':'] + tag
}

/// Joins a host name and a tag into an identity: the name, a colon, the tag.
pub fn compose_identity(host: &str, tag: &str) -> (identity: String)
    ensures
        identity@ == identity_of(host@, tag@),
{
    proof {
        reveal_strlit(":");
    }
    let mut identity = String::from_str(host);
    identity.append(":");
    identity.append(tag);
    assert(":"@ =~= seq![':']);
    identity
}

/// The identity that a host name, if there is one, and a tag make.
pub fn identity_from(host: Option<String>, tag: &str) -> (identity: Result<String, ConfigError>)
    ensures
        match identity {
            Ok(text) => host matches Some(name) && text@ == identity_of(name@, tag@),
            Err(error) => host is None && error == ConfigError::HostNameNotUnicode,
        },
{
    match host {
        Some(name) => Ok(compose_identity(name.as_str(), tag)),
        None => Err(ConfigError::HostNameNotUnicode),
    }
}

/// Builds the identity of this process from the machine's host name and a
/// fresh random tag. It fails only for a host name that is not Unicode.
pub fn client_identity() -> (identity: Result<String, ConfigError>)
    ensures
        match identity {
            Ok(text) => exists|host: Seq<char>, tag: Seq<char>|
                is_tag(tag) && text@ == identity_of(host, tag),
            Err(error) => error == ConfigError::HostNameNotUnicode,
        },
{
    let host = host_name();
    let tag = random_tag();
    let identity = identity_from(host, tag.as_str());
    proof {
        if identity is Ok {
            assert(is_tag(tag@) && identity->Ok_0@ == identity_of(host->0@, tag@));
        }
    }
    identity
}

} // verus!
