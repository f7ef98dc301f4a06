use vstd::prelude::*;

use vstd::string::StrSliceExecFns;
use vstd::string::StringExecFns;

use crate::strutil::{dec_str, u16_to_string};

verus! {

/// What went wrong while checking a server URL and API key pair.
#[derive(Debug)]
pub enum ValidateError {
    /// The request never got an HTTP response; carries the transport's
    /// description of the failure.
    Connection(String),
    /// The server answered 401: the key is not accepted there.
    Auth,
    /// The server answered 404: the endpoint is missing at that URL.
    EndpointNotFound,
    /// Any other non-success answer: the status code, and the reason
    /// phrase where the transport supplied one.
    Server(u16, Option<String>),
}

pub open spec fn validate_error_message_spec(e: ValidateError) -> Seq<char> {
    match e {
        ValidateError::Connection(m) => "Connection failed: "@ + m@,
        ValidateError::Auth => "Invalid API key or unauthorized"@,
        ValidateError::EndpointNotFound => "API endpoint not found. Please check your server URL"@,
        ValidateError::Server(code, reason) => "API returned error: "@ + dec_str(code as nat)
            + " - "@ + (match reason {
            Some(r) => r@,
            None => "Unknown"@,
        }),
    }
}

impl ValidateError {
    /// The human-readable description of the failure, status code and
    /// reason or cause included.
    pub fn message(&self) -> (r: String)
        ensures
            r@ == validate_error_message_spec(*self),
    {
        match self {
            ValidateError::Connection(m) => {
                let mut s = String::from_str("Connection failed: ");
                s.append(m.as_str());
                s
            },
            ValidateError::Auth => String::from_str("Invalid API key or unauthorized"),
            ValidateError::EndpointNotFound => String::from_str(
                "API endpoint not found. Please check your server URL",
            ),
            ValidateError::Server(code, reason) => {
                let mut s = String::from_str("API returned error: ");
                let digits = u16_to_string(*code);
                s.append(digits.as_str());
                s.append(" - ");
                match reason {
                    Some(r) => s.append(r.as_str()),
                    None => s.append("Unknown"),
                }
                s
            },
        }
    }
}

/// The fixed relative path of the validation endpoint.
pub open spec fn endpoint_suffix() -> Seq<char> {
    "/api/db/user-settings"@
}

/// The server URL with every trailing slash removed.
pub open spec fn strip_trailing_slashes(s: Seq<char>) -> Seq<char>
    decreases s.len(),
{
    if s.len() > 0 && s[s.len() - 1] == '/' {
        strip_trailing_slashes(s.drop_last())
    } else {
        s
    }
}

/// The URL a validation call targets for a server URL.
pub open spec fn endpoint_spec(u: Seq<char>) -> Seq<char> {
    strip_trailing_slashes(u) + endpoint_suffix()
}

/// The normalization law: a server URL with one more trailing slash
/// targets the same endpoint.
pub proof fn lemma_trailing_slash(u: Seq<char>)
    ensures
        endpoint_spec(u.push('/')) == endpoint_spec(u),
{
    assert(u.push('/').drop_last() =~= u);
}

/// Builds the exact URL a validation call targets: the server URL with
/// trailing slashes stripped and the fixed endpoint path appended.
pub fn endpoint_url(server_url: &str) -> (r: String)
    ensures
        r@ == endpoint_spec(server_url@),
{
    let n = server_url.unicode_len();
    let mut e = n;
    proof {
        assert(server_url@.subrange(0, n as int) =~= server_url@);
    }
    while e > 0 && server_url.get_char(e - 1) == '/'
        invariant
            n == server_url@.len(),
            e <= n,
            strip_trailing_slashes(server_url@) == strip_trailing_slashes(
                server_url@.subrange(0, e as int),
            ),
        decreases e,
    {
        proof {
            assert(server_url@.subrange(0, e as int).drop_last() =~= server_url@.subrange(
                0,
                e - 1,
            ));
        }
        e = e - 1;
    }
    let base = server_url.substring_char(0, e);
    let mut out = String::from_str(base);
    out.append("/api/db/user-settings");
    proof {
        if e > 0 {
            assert(server_url@.subrange(0, e as int)[e - 1] != '/');
        }
        assert(strip_trailing_slashes(server_url@) == server_url@.subrange(0, e as int));
    }
    out
}

/// Classifies an HTTP response to the validation call by its status
/// code alone: any 2xx status is success; 401 means the key was not
/// accepted; 404 means the endpoint is missing; every other status is
/// a server error carrying the code and the reason phrase, where the
/// transport supplied one.
pub fn classify_status(code: u16, reason: Option<String>) -> (r: Result<bool, ValidateError>)
    ensures
        match r {
            Ok(b) => b == true && 200 <= code < 300,
            Err(e) => match e {
                ValidateError::Auth => code == 401,
                ValidateError::EndpointNotFound => code == 404,
                ValidateError::Server(c, re) => c == code && !(200 <= code < 300) && code != 401
                    && code != 404 && re == reason,
                ValidateError::Connection(_) => false,
            },
        },
{
    if 200 <= code && code < 300 {
        Ok(true)
    } else if code == 401 {
        Err(ValidateError::Auth)
    } else if code == 404 {
        Err(ValidateError::EndpointNotFound)
    } else {
        Err(ValidateError::Server(code, reason))
    }
}

} // verus!
