//! The read side: who may read a product's traceability record, and what the
//! dashboard shows each role.
use crate::auth::{AuthError, Claims};
use crate::events::{field_uuid, is_text, read_uuid, JsonField};
use crate::text::str_eq;
use vstd::prelude::*;

verus! {

/// Why a read is refused.
#[derive(Clone, Copy, PartialEq, Eq, Structural, Debug)]
pub enum QueryError {
    /// The caller's role or business does not allow the read (403).
    Auth(AuthError),
    /// The traceability token is for another product or business (403).
    ScopeMismatch,
    /// The product is not projected yet (409).
    Synchronizing,
    /// The projected product holds no valid business id (500).
    InvalidBusiness,
    /// The product's batch belongs to another business (403).
    OtherBusiness,
}

impl QueryError {
    /// The HTTP status the service answers with.
    pub fn status(&self) -> (r: u16)
        ensures
            r == match self {
                QueryError::Auth(_) | QueryError::ScopeMismatch | QueryError::OtherBusiness => 403u16,
                QueryError::Synchronizing => 409u16,
                QueryError::InvalidBusiness => 500u16,
            },
    {
        match self {
            QueryError::Auth(_) | QueryError::ScopeMismatch | QueryError::OtherBusiness => 403,
            QueryError::Synchronizing => 409,
            QueryError::InvalidBusiness => 500,
        }
    }

    /// The message the service answers with.
    #[verifier::allow_in_spec]
    pub fn message(&self) -> &'static str
        returns
            (match self {
                QueryError::Auth(e) => e.message(),
                QueryError::ScopeMismatch => "Traceability scope mismatch",
                QueryError::Synchronizing => "Traceability is synchronizing; please retry shortly",
                QueryError::InvalidBusiness => "Invalid projected business id",
                QueryError::OtherBusiness => "Production belongs to another business",
            }),
    {
        match self {
            QueryError::Auth(e) => e.message(),
            QueryError::ScopeMismatch => "Traceability scope mismatch",
            QueryError::Synchronizing => "Traceability is synchronizing; please retry shortly",
            QueryError::InvalidBusiness => "Invalid projected business id",
            QueryError::OtherBusiness => "Production belongs to another business",
        }
    }
}

/// A traceability token may read the product it was issued for, and only it.
pub fn provenance_scope(claims: &Claims, id: u128) -> (r: Result<(), QueryError>)
    ensures
        claims.role@ != "TRACEABILITY"@ ==> r == Err::<(), QueryError>(
            QueryError::Auth(AuthError::RoleNotAllowed),
        ),
        claims.role@ == "TRACEABILITY"@ && claims.sub != id ==> r == Err::<(), QueryError>(
            QueryError::ScopeMismatch,
        ),
        claims.role@ == "TRACEABILITY"@ && claims.sub == id ==> r is Ok,
{
    if !str_eq(claims.role.as_str(), "TRACEABILITY") {
        return Err(QueryError::Auth(AuthError::RoleNotAllowed));
    }
    if claims.sub != id {
        return Err(QueryError::ScopeMismatch);
    }
    Ok(())
}

/// The projected product (if any) under its business: the business id must read
/// as a UUID and be the token's business.
pub fn product_scope(claims: &Claims, product: Option<&JsonField>) -> (r: Result<u128, QueryError>)
    ensures
        match product {
            None => r == Err::<u128, QueryError>(QueryError::Synchronizing),
            Some(f) => match field_uuid(*f) {
                None => r == Err::<u128, QueryError>(QueryError::InvalidBusiness),
                Some(b) => if claims.business_id == Some(b) {
                    r == Ok::<u128, QueryError>(b)
                } else {
                    r == Err::<u128, QueryError>(QueryError::ScopeMismatch)
                },
            },
        },
{
    let f = match product {
        None => {
            return Err(QueryError::Synchronizing);
        },
        Some(f) => f,
    };
    match read_uuid(f) {
        None => Err(QueryError::InvalidBusiness),
        Some(b) => {
            if claims.business_id == Some(b) {
                Ok(b)
            } else {
                Err(QueryError::ScopeMismatch)
            }
        },
    }
}

/// A batch shown in a product's record must belong to the product's business:
/// its business id is the very same string.
pub fn batch_scope(batch_business: &JsonField, product_business: &str) -> (r: Result<
    (),
    QueryError,
>)
    ensures
        r is Ok <==> is_text(*batch_business, product_business@),
        r is Err ==> r == Err::<(), QueryError>(QueryError::OtherBusiness),
{
    match batch_business {
        JsonField::Text(s) => {
            if str_eq(s.as_str(), product_business) {
                Ok(())
            } else {
                Err(QueryError::OtherBusiness)
            }
        },
        _ => Err(QueryError::OtherBusiness),
    }
}

/// Whose data the dashboard shows.
#[derive(Clone, Copy, PartialEq, Eq, Structural, Debug)]
pub enum DashboardScope {
    /// A customer sees their own recent orders.
    Customer(u128),
    /// An administrator sees every business.
    Everything,
    /// Staff see their business.
    Business(u128),
}

/// The dashboard's scope for a caller.
pub fn dashboard_scope(claims: &Claims) -> (r: Result<DashboardScope, QueryError>)
    ensures
        !(claims.role@ == "CUSTOMER"@ || claims.role@ == "WORKER"@ || claims.role@
            == "BUSINESS_OWNER"@ || claims.role@ == "SYSTEM_ADMIN"@) ==> r == Err::<
            DashboardScope,
            QueryError,
        >(QueryError::Auth(AuthError::RoleNotAllowed)),
        claims.role@ == "CUSTOMER"@ ==> r == Ok::<DashboardScope, QueryError>(
            DashboardScope::Customer(claims.sub),
        ),
        claims.role@ == "SYSTEM_ADMIN"@ ==> r == Ok::<DashboardScope, QueryError>(
            DashboardScope::Everything,
        ),
        claims.role@ == "WORKER"@ || claims.role@ == "BUSINESS_OWNER"@ ==> r == match claims.business_id {
            Some(b) => Ok::<DashboardScope, QueryError>(DashboardScope::Business(b)),
            None => Err::<DashboardScope, QueryError>(QueryError::Auth(AuthError::NoBusiness)),
        },
{
    proof {
        reveal_strlit("CUSTOMER");
        reveal_strlit("SYSTEM_ADMIN");
        reveal_strlit("WORKER");
        reveal_strlit("BUSINESS_OWNER");
        assert("CUSTOMER"@.len() == 8 && "SYSTEM_ADMIN"@.len() == 12 && "WORKER"@.len() == 6
            && "BUSINESS_OWNER"@.len() == 14);
    }
    let role = claims.role.as_str();
    if str_eq(role, "CUSTOMER") {
        return Ok(DashboardScope::Customer(claims.sub));
    }
    if str_eq(role, "SYSTEM_ADMIN") {
        return Ok(DashboardScope::Everything);
    }
    if !(str_eq(role, "WORKER") || str_eq(role, "BUSINESS_OWNER")) {
        return Err(QueryError::Auth(AuthError::RoleNotAllowed));
    }
    match claims.business_id {
        Some(b) => Ok(DashboardScope::Business(b)),
        None => Err(QueryError::Auth(AuthError::NoBusiness)),
    }
}

/// The positions of the entries whose status is `wanted`, in order.
pub open spec fn with_status(statuses: Seq<JsonField>, wanted: Seq<char>) -> Seq<int>
    decreases statuses.len(),
{
    if statuses.len() == 0 {
        Seq::empty()
    } else {
        let rest = with_status(statuses.drop_last(), wanted);
        if is_text(statuses.last(), wanted) {
            rest.push(statuses.len() - 1)
        } else {
            rest
        }
    }
}

/// The first `limit` positions of the entries whose status is `wanted`, and how
/// many entries have it.
pub fn select_status(statuses: &Vec<JsonField>, wanted: &str, limit: usize) -> (r: (
    Vec<usize>,
    usize,
))
    ensures
        r.1 == with_status(statuses@, wanted@).len(),
        r.0@.len() == if limit < r.1 { limit as int } else { r.1 as int },
        forall|k: int| 0 <= k < r.0@.len() ==> r.0@[k] == with_status(statuses@, wanted@)[k],
{
    let mut picked: Vec<usize> = Vec::new();
    let mut count: usize = 0;
    let mut i: usize = 0;
    while i < statuses.len()
        invariant
            i <= statuses.len(),
            count == with_status(statuses@.take(i as int), wanted@).len(),
            count <= i,
            picked@.len() == if limit < count { limit as int } else { count as int },
            forall|k: int|
                0 <= k < picked@.len() ==> picked@[k] == with_status(
                    statuses@.take(i as int),
                    wanted@,
                )[k],
        decreases statuses.len() - i,
    {
        let ghost before = with_status(statuses@.take(i as int), wanted@);
        assert(statuses@.take(i + 1).drop_last() == statuses@.take(i as int));
        let hit = match &statuses[i] {
            JsonField::Text(s) => str_eq(s.as_str(), wanted),
            _ => false,
        };
        if hit {
            if picked.len() < limit {
                picked.push(i);
            }
            count = count + 1;
        }
        i = i + 1;
        proof {
            let after = with_status(statuses@.take(i as int), wanted@);
            assert(statuses@.take(i as int).last() == statuses@[i - 1]);
            if hit {
                assert(after == before.push(i - 1));
            } else {
                assert(after == before);
            }
        }
    }
    assert(statuses@.take(statuses@.len() as int) == statuses@);
    (picked, count)
}

/// The dashboard's order count: workers are not shown the business's orders.
pub fn order_count(role: &str, orders: usize) -> (r: usize)
    ensures
        r == if role@ == "WORKER"@ { 0 } else { orders },
{
    if str_eq(role, "WORKER") {
        0
    } else {
        orders
    }
}

} // verus!
