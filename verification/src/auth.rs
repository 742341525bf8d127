//! Identity claims and the role and business checks every handler applies.
use crate::text::str_eq;
use vstd::prelude::*;

verus! {

/// The claims of an authenticated caller.
pub struct Claims {
    pub sub: u128,
    pub email: String,
    pub role: String,
    pub business_id: Option<u128>,
    pub iat: u64,
    pub exp: u64,
}

/// Why a caller is refused.
#[derive(Clone, Copy, PartialEq, Eq, Structural, Debug)]
pub enum AuthError {
    /// The caller's role is not allowed (403).
    RoleNotAllowed,
    /// The caller acts for no business (403).
    NoBusiness,
    /// The caller is not the service, or not for this scope (403).
    ServiceScope,
}

impl AuthError {
    /// The message the service answers with.
    #[verifier::allow_in_spec]
    pub fn message(&self) -> &'static str
        returns
            (match self {
                AuthError::RoleNotAllowed => "Insufficient permissions",
                AuthError::NoBusiness => "No business associated with this account",
                AuthError::ServiceScope => "Service credentials do not cover this operation",
            }),
    {
        match self {
            AuthError::RoleNotAllowed => "Insufficient permissions",
            AuthError::NoBusiness => "No business associated with this account",
            AuthError::ServiceScope => "Service credentials do not cover this operation",
        }
    }
}

/// `role` is one of `roles`.
pub open spec fn role_in(role: Seq<char>, roles: Seq<&str>) -> bool {
    exists|i: int| 0 <= i < roles.len() && roles[i]@ == role
}

/// Accepts callers whose role is one of `roles`.
pub fn require_role(claims: &Claims, roles: &[&str]) -> (r: Result<(), AuthError>)
    ensures
        r is Ok <==> role_in(claims.role@, roles@),
        r is Err ==> r == Err::<(), AuthError>(AuthError::RoleNotAllowed),
{
    let mut i: usize = 0;
    while i < roles.len()
        invariant
            i <= roles.len(),
            forall|k: int| 0 <= k < i ==> roles@[k]@ != claims.role@,
        decreases roles.len() - i,
    {
        if str_eq(roles[i], claims.role.as_str()) {
            return Ok(());
        }
        i = i + 1;
    }
    Err(AuthError::RoleNotAllowed)
}

/// The business the caller acts for.
pub fn require_business(claims: &Claims) -> (r: Result<u128, AuthError>)
    ensures
        match claims.business_id {
            Some(b) => r == Ok::<u128, AuthError>(b),
            None => r == Err::<u128, AuthError>(AuthError::NoBusiness),
        },
{
    match claims.business_id {
        Some(b) => Ok(b),
        None => Err(AuthError::NoBusiness),
    }
}

/// Accepts a service caller with role `role` whose subject is `scope`.
pub fn require_service(claims: &Claims, role: &str, scope: u128) -> (r: Result<(), AuthError>)
    ensures
        r is Ok <==> (claims.role@ == role@ && claims.sub == scope),
        r is Err ==> r == Err::<(), AuthError>(AuthError::ServiceScope),
{
    if str_eq(claims.role.as_str(), role) && claims.sub == scope {
        Ok(())
    } else {
        Err(AuthError::ServiceScope)
    }
}

} // verus!
