//! Who may use the server.
//!
//! Tokens are issued and checked by the caller; what is decided here is
//! whether a request passes, given what the check of its token found.

use vstd::prelude::*;
use vstd::slice::*;

verus! {

/// An authenticated user.
#[derive(Debug, Clone, PartialEq, Eq)]
pub struct AuthUser {
    pub id: String,
    pub username: String,
}

/// How users are told apart.
#[derive(Debug, Clone, Copy, PartialEq, Eq, Structural)]
pub enum AuthMode {
    /// No authentication.
    Disabled,
    /// One password for the whole server.
    SingleTenant,
    /// Named users, each with a password.
    MultiUser,
}

/// Compares two byte strings in time that depends on their length alone.
pub fn constant_time_eq(a: &[u8], b: &[u8]) -> (r: bool)
    ensures
        r == (a@ == b@),
{
    if a.len() != b.len() {
        return false;
    }
    let mut diff: u8 = 0;
    let mut i: usize = 0;
    assert(a@.take(0) =~= b@.take(0));
    while i < a.len()
        invariant
            i <= a.len(),
            a.len() == b.len(),
            diff == 0 <==> a@.take(i as int) == b@.take(i as int),
        decreases a.len() - i,
    {
        let x = a[i];
        let y = b[i];
        let ghost before = diff;
        diff = diff | (x ^ y);
        proof {
            assert(((before | (x ^ y)) == 0) <==> (before == 0 && x == y)) by (bit_vector);
            assert(a@.take(i + 1) == a@.take(i as int).push(a@[i as int]));
            assert(b@.take(i + 1) == b@.take(i as int).push(b@[i as int]));
            if a@.take(i + 1) == b@.take(i + 1) {
                assert(a@.take(i + 1)[i as int] == b@.take(i + 1)[i as int]);
                assert(a@.take(i as int) =~= a@.take(i + 1).take(i as int));
                assert(b@.take(i as int) =~= b@.take(i + 1).take(i as int));
            }
        }
        i = i + 1;
    }
    assert(a@.take(a@.len() as int) == a@);
    assert(b@.take(b@.len() as int) == b@);
    diff == 0
}

/// What the check of a token found.
#[derive(Debug, Clone, Copy, PartialEq, Eq)]
pub enum TokenCheck {
    /// The token did not verify against the secret, or has expired.
    Invalid,
    /// The token verified; `user_known` says whether its claims name a user
    /// of the server.
    Valid { user_known: bool },
}

/// What the check of a token found, once the token has verified and its
/// claims are known: the user is known where the subject of the claims is the
/// id of one of the server's users.
pub fn check_claims(subject: &str, user_ids: &Vec<String>) -> (r: TokenCheck)
    ensures
        r == (TokenCheck::Valid {
            user_known: crate::text::view_strs(user_ids@).contains(subject@),
        }),
{
    TokenCheck::Valid { user_known: crate::text::strings_contain(user_ids, subject) }
}

/// Whether a request with a token passes. Without enforced authentication
/// every request passes. With it, a secret must be configured and the token
/// must have verified; where users are told apart, its claims must name one
/// of them.
pub fn verify_token_for_config(
    auth_required: bool,
    secret_configured: bool,
    mode: AuthMode,
    check: TokenCheck,
) -> (r: bool)
    ensures
        r == (!auth_required || (secret_configured && (match check {
            TokenCheck::Invalid => false,
            TokenCheck::Valid { user_known } => mode == AuthMode::MultiUser ==> user_known,
        }))),
{
    if !auth_required {
        return true;
    }
    if !secret_configured {
        return false;
    }
    match check {
        TokenCheck::Invalid => false,
        TokenCheck::Valid { user_known } => match mode {
            AuthMode::MultiUser => user_known,
            AuthMode::SingleTenant => true,
            AuthMode::Disabled => true,
        },
    }
}

} // verus!
