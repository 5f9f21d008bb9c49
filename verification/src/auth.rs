//! Session authentication of the routes that belong to a signed-in user.

use crate::routes::{messages, texts, ApiError};
use vstd::prelude::*;
use vstd::string::StringSliceAdditionalSpecFns;

verus! {

/// Status of a response to a request that is not authenticated.
pub const UNAUTHORIZED: u16 = 401;

/// Length of a session identifier, in bytes.
pub const SESSION_ID_LENGTH: usize = 64;

/// Days for which the session cookie is renewed on every request.
pub const SESSION_COOKIE_DAYS: i64 = 7;

/// Why a request was not let through.
#[derive(Clone, Copy, Debug, PartialEq, Eq, Structural)]
pub enum AuthFailure {
    /// The session cookie is missing or does not have the length of a
    /// session identifier.
    InvalidCookie,
    /// No user has a session with this identifier.
    Unauthorized,
}

/// The value of the session cookie: empty if the request has none.
pub open spec fn cookie_text(cookie: Option<&str>) -> Seq<char> {
    match cookie {
        Some(c) => c@,
        None => Seq::<char>::empty(),
    }
}

/// Whether the cookie has the length of a session identifier.
pub open spec fn well_formed_cookie(cookie: Option<&str>) -> bool {
    cookie matches Some(c) && c.spec_bytes().len() == SESSION_ID_LENGTH
}

/// The session identifier in the `session` cookie of a request. A missing
/// cookie, or one of another length, is refused before any lookup.
pub fn session_id(cookie: Option<&str>) -> (r: Result<String, AuthFailure>)
    ensures
        well_formed_cookie(cookie) ==> r is Ok && r->Ok_0@ == cookie_text(cookie),
        !well_formed_cookie(cookie) ==> r == Err::<String, AuthFailure>(AuthFailure::InvalidCookie),
{
    match cookie {
        Some(c) => {
            if c.as_bytes().len() == SESSION_ID_LENGTH {
                Ok(String::from_str(c))
            } else {
                Err(AuthFailure::InvalidCookie)
            }
        },
        None => Err(AuthFailure::InvalidCookie),
    }
}

/// Lets a request through with what the lookup of its session found, and
/// refuses it if the lookup found nothing.
pub fn authorize<T>(found: Option<T>) -> (r: Result<T, AuthFailure>)
    ensures
        r == match found {
            Some(v) => Ok::<T, AuthFailure>(v),
            None => Err::<T, AuthFailure>(AuthFailure::Unauthorized),
        },
{
    match found {
        Some(v) => Ok(v),
        None => Err(AuthFailure::Unauthorized),
    }
}

impl AuthFailure {
    /// The message that the caller is given.
    pub open spec fn message(self) -> Seq<char> {
        match self {
            AuthFailure::InvalidCookie => "invalid authorization cookie"@,
            AuthFailure::Unauthorized => "unauthorized"@,
        }
    }

    /// The body of the response that refuses the request.
    pub fn body(self) -> (r: ApiError)
        ensures
            !r.success,
            texts(r.errors@) == seq![self.message()],
    {
        let text: &str = match self {
            AuthFailure::InvalidCookie => "invalid authorization cookie",
            AuthFailure::Unauthorized => "unauthorized",
        };
        let message: [&str; 1] = [text];
        let r = ApiError::new(message.as_slice());
        assert(messages(message@) =~= seq![text@]);
        r
    }
}

} // verus!
