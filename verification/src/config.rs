//! The configuration of a server.

use crate::error::Error;
use crate::text::to_chars;
use vstd::prelude::*;

verus! {

/// The token that uploads need. An empty one counts as none.
pub open spec fn token_in_force(token: Option<String>) -> Option<String> {
    match token {
        Some(t) => if t@.len() == 0 {
            None
        } else {
            Some(t)
        },
        None => None,
    }
}

/// Takes the token that is configured. Refuses to start where one is required and there is
/// none.
pub fn configured_token(token: Option<String>, require_token: bool) -> (r: Result<
    Option<String>,
    Error,
>)
    ensures
        if require_token && token_in_force(token) is None {
            r matches Err(Error::Runtime { msg }) && msg@
                == "--require-token is set but no token is configured (--token or HALIDE_CACHE_SERVER_TOKEN)"@
        } else {
            r == Ok::<Option<String>, Error>(token_in_force(token))
        },
{
    let in_force = match token {
        Some(t) => if to_chars(t.as_str()).len() == 0 {
            None
        } else {
            Some(t)
        },
        None => None,
    };
    if require_token && in_force.is_none() {
        return Err(
            Error::Runtime {
                msg: "--require-token is set but no token is configured (--token or HALIDE_CACHE_SERVER_TOKEN)".to_owned(),
            },
        );
    }
    Ok(in_force)
}

/// The token that is given is in force, unless it is empty.
pub proof fn law_empty_token_is_none(token: String)
    ensures
        token@.len() > 0 ==> token_in_force(Some(token)) == Some(token),
        token@.len() == 0 ==> token_in_force(Some(token)) is None,
        token_in_force(None) is None,
{
}

} // verus!
