//! The parts of request authentication that decide: reading the bearer token of
//! an authorization header, and checking a caller's role.

use vstd::prelude::*;
use vstd::string::*;
use crate::media::{starts_with, starts_with_spec};
use crate::model::UserRole;

verus! {

broadcast use vstd::string::group_string_axioms;

/// The token of an authorization header of the form `Bearer <token>`.
pub open spec fn bearer_token_of(header: Seq<char>) -> Option<Seq<char>> {
    if starts_with_spec(header, "Bearer "@) {
        Some(header.subrange(7, header.len() as int))
    } else {
        None
    }
}

/// The token that follows `Bearer ` in an authorization header.
pub fn bearer_token(header: &str) -> (r: Result<&str, &'static str>)
    ensures
        match bearer_token_of(header@) {
            Some(t) => r is Ok && r->Ok_0@ == t,
            None => r is Err && r->Err_0@ == "Invalid token format, expected Bearer"@,
        },
{
    if starts_with(header, "Bearer ") {
        proof { reveal_strlit("Bearer "); }
        Ok(header.substring_char(7, header.unicode_len()))
    } else {
        Err("Invalid token format, expected Bearer")
    }
}

/// Whether `role` is one of `roles`.
pub fn user_has_any_of_these_roles(role: UserRole, roles: &Vec<UserRole>) -> (r: bool)
    ensures
        r == roles@.contains(role),
{
    let mut i: usize = 0;
    while i < roles.len()
        invariant
            i <= roles@.len(),
            forall|j: int| 0 <= j < i ==> roles@[j] != role,
        decreases roles@.len() - i,
    {
        if roles[i] == role {
            assert(roles@[i as int] == role);
            return true;
        }
        i = i + 1;
    }
    false
}

} // verus!
