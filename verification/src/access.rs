//! Access to test endpoints that are not open to everybody.
//!
//! A token is attached to test requests. It is only ever sent to hosts on an
//! allowlist, so that no unrelated origin gets to see it.

use vstd::prelude::*;

use crate::headers;
use crate::scoped_headers;
use crate::scoped_headers::ScopedHeaders;
use crate::text;

verus! {

/// The token is not a header value.
#[derive(Debug, Clone, Copy, PartialEq, Eq, Structural)]
pub enum AccessError {
    InvalidToken,
}

impl AccessError {
    /// The error as text.
    pub fn message(&self) -> (r: String)
        ensures
            r@ == "_MACH_CF_ACCESS_TOKEN is not a valid header value"@,
    {
        String::from_str("_MACH_CF_ACCESS_TOKEN is not a valid header value")
    }
}

/// The headers that carry the access token, and the hosts that they may be sent
/// to. `None` where there is no token, or a blank one.
///
/// The token is marked as sensitive. One that is no header value is an error,
/// so that it fails at once instead of being left out silently.
pub fn cf_access_scoped_headers(token: Option<&str>) -> (r: Result<
    Option<ScopedHeaders>,
    AccessError,
>)
    ensures
        match token {
            None => r is Ok && r->Ok_0 is None,
            Some(token) => {
                let trimmed = text::trimmed(token@);
                let value = vstd::utf8::encode_utf8(trimmed);
                if trimmed.len() == 0 {
                    r is Ok && r->Ok_0 is None
                } else if !headers::is_value(value) {
                    r == Err::<Option<ScopedHeaders>, AccessError>(AccessError::InvalidToken)
                } else {
                    &&& r is Ok
                    &&& r->Ok_0 is Some
                    &&& r->Ok_0->0@.headers == seq![("cf-access-token"@, value, true)]
                    &&& r->Ok_0->0@.suffixes == seq!["speed.cloudflare.com"@]
                }
            },
        },
{
    let token = match token {
        Some(token) => text::trim(token),
        None => {
            return Ok(None);
        },
    };
    if token.as_str().unicode_len() == 0 {
        return Ok(None);
    }
    let value = token.as_str().as_bytes();
    if !headers::is_header_value(value) {
        return Err(AccessError::InvalidToken);
    }
    let mut map = headers::new_map();
    proof {
        reveal_strlit("cf-access-token");
        reveal_strlit("speed.cloudflare.com");
        assert(text::lower_text("cf-access-token"@) =~= "cf-access-token"@);
        assert(text::lower_text("speed.cloudflare.com"@) =~= "speed.cloudflare.com"@);
        assert(scoped_headers::normalized("speed.cloudflare.com"@) == "speed.cloudflare.com"@);
    }
    headers::insert(&mut map, headers::parse_name("cf-access-token"), value, true);
    assert(headers::entries(map) =~= seq![("cf-access-token"@, value@, true)]);
    let mut suffixes: Vec<String> = Vec::new();
    suffixes.push(String::from_str("speed.cloudflare.com"));
    let scoped = ScopedHeaders::new(map, suffixes);
    assert(scoped@.suffixes =~= seq!["speed.cloudflare.com"@]);
    Ok(Some(scoped))
}

} // verus!
