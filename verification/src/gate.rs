use vstd::prelude::*;

use crate::text::str_eq;

verus! {

/// Why a write request was refused before reaching the store.
#[derive(Clone, Copy, Debug, PartialEq, Eq, Structural)]
pub enum AuthError {
    /// No shared-secret header was supplied.
    MissingSecret,
    /// A shared-secret header was supplied but did not match.
    WrongSecret,
    /// The secret matched but no caller identifier was supplied.
    MissingCallerId,
}

impl AuthError {
    /// The explanatory body sent to the client with the refusal.
    pub fn message(&self) -> (r: &'static str) {
        match self {
            AuthError::MissingSecret => "no api key",
            AuthError::WrongSecret => "invalid api key",
            AuthError::MissingCallerId => "no user_id",
        }
    }
}

/// The view of an optional header value.
pub open spec fn opt_view(o: Option<&str>) -> Option<Seq<char>> {
    match o {
        Some(s) => Some(s@),
        None => None,
    }
}

/// The access decision for one write request: either the caller
/// identifier to store under, or the error sent back. The secret must
/// match exactly; a missing or wrong secret is reported before a
/// missing identifier.
pub open spec fn spec_authorize(
    secret: Seq<char>,
    api_key: Option<Seq<char>>,
    user_id: Option<Seq<char>>,
) -> Result<Seq<char>, AuthError> {
    match api_key {
        None => Err(AuthError::MissingSecret),
        Some(k) => if k != secret {
            Err(AuthError::WrongSecret)
        } else {
            match user_id {
                None => Err(AuthError::MissingCallerId),
                Some(u) => Ok(u),
            }
        },
    }
}

/// Validates the write-side headers of one request against the
/// configured shared secret. Read requests never pass through here.
pub fn authorize<'a>(secret: &str, api_key: Option<&str>, user_id: Option<&'a str>) -> (r: Result<
    &'a str,
    AuthError,
>)
    ensures
        match r {
            Ok(u) => spec_authorize(secret@, opt_view(api_key), opt_view(user_id)) == Ok::<
                Seq<char>,
                AuthError,
            >(u@),
            Err(e) => spec_authorize(secret@, opt_view(api_key), opt_view(user_id)) == Err::<
                Seq<char>,
                AuthError,
            >(e),
        },
{
    match api_key {
        None => Err(AuthError::MissingSecret),
        Some(k) => {
            if !str_eq(k, secret) {
                Err(AuthError::WrongSecret)
            } else {
                match user_id {
                    None => Err(AuthError::MissingCallerId),
                    Some(u) => Ok(u),
                }
            }
        },
    }
}

} // verus!
