//! How a caller authenticates against the service.

use vstd::prelude::*;

verus! {

/// Means of authentication.
#[derive(Clone, Copy)]
pub enum Authentication<'a> {
    /// Username and password, exchanged for a token at the service's login route.
    Credentials {
        /// Typically the email address used to sign up; not case sensitive.
        user: &'a str,
        /// The password of the user.
        password: &'a str,
    },
    /// A permanent API token.
    ApiToken(&'a str),
}

impl<'a> Authentication<'a> {
    /// The token held by this value, if it holds one; credentials must first be
    /// exchanged for a token.
    pub fn stored_token(&self) -> (r: Option<&'a str>)
        ensures
            r == (match *self {
                Authentication::ApiToken(token) => Some(token),
                Authentication::Credentials { .. } => None::<&'a str>,
            }),
    {
        match *self {
            Authentication::ApiToken(token) => Some(token),
            Authentication::Credentials { .. } => None,
        }
    }
}

} // verus!
