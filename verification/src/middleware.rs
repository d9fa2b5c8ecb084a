//! Access control for the API: removals need the configured token in the
//! `Authorization` header; the other endpoints are open.
use vstd::prelude::*;

use crate::text::str_eq;

verus! {

/// The status that refused requests get (401 Unauthorized).
pub const UNAUTHORIZED: u16 = 401;

/// Whether the token of a request is the configured one.
pub fn auth_check(auth_token: &str, expected: &str) -> (r: bool)
    ensures
        r == (auth_token@ == expected@),
{
    str_eq(auth_token, expected)
}

/// Whether a request for `path` needs the token: only removals
/// (`/delete`, or `/api/delete` with the prefix the API is served under).
pub open spec fn needs_token(path: Seq<char>) -> bool {
    path == "/delete"@ || path == "/api/delete"@
}

/// The verdict on a request for `path` with `header` as its `Authorization`
/// value (`None` when it has none, or none readable as text): a request that
/// needs no token passes; one that does passes when that value is the
/// configured token `expected`, and is refused with 401 otherwise.
pub fn auth(path: &str, header: Option<&str>, expected: &str) -> (r: Result<(), u16>)
    ensures
        !needs_token(path@) ==> r == Ok::<(), u16>(()),
        needs_token(path@) ==> r == (match header {
            Some(h) => if h@ == expected@ {
                Ok::<(), u16>(())
            } else {
                Err(UNAUTHORIZED)
            },
            None => Err(UNAUTHORIZED),
        }),
{
    if !str_eq(path, "/delete") && !str_eq(path, "/api/delete") {
        return Ok(());
    }
    match header {
        Some(h) => if auth_check(h, expected) {
            Ok(())
        } else {
            Err(UNAUTHORIZED)
        },
        None => Err(UNAUTHORIZED),
    }
}

} // verus!
