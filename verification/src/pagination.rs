//! Page arithmetic shared by the list endpoints.
use vstd::prelude::*;

verus! {

/// The page size asked for: 20 unless given, and never more than 100.
pub open spec fn page_limit(limit: Option<i64>) -> i64 {
    let l = match limit {
        Some(l) => l,
        None => 20i64,
    };
    if l < 100 {
        l
    } else {
        100i64
    }
}

/// The page number asked for: 1 unless given, and never less than 1.
pub open spec fn page_number(page: Option<i64>) -> i64 {
    let p = match page {
        Some(p) => p,
        None => 1i64,
    };
    if p > 1 {
        p
    } else {
        1i64
    }
}

/// The number of rows before the page.
pub open spec fn page_offset(page: Option<i64>, limit: Option<i64>) -> int {
    (page_number(page) - 1) * page_limit(limit)
}

/// The offset fits in an `i64`.
pub open spec fn offset_fits(page: Option<i64>, limit: Option<i64>) -> bool {
    i64::MIN <= page_offset(page, limit) <= i64::MAX
}

pub fn limit_of(limit: Option<i64>) -> (r: i64)
    ensures
        r == page_limit(limit),
{
    let l = match limit {
        Some(l) => l,
        None => 20,
    };
    if l < 100 {
        l
    } else {
        100
    }
}

pub fn offset_of(page: Option<i64>, limit: Option<i64>) -> (r: i64)
    requires
        offset_fits(page, limit),
    ensures
        r == page_offset(page, limit),
{
    let p = match page {
        Some(p) => p,
        None => 1,
    };
    let p = if p > 1 {
        p
    } else {
        1
    };
    (p - 1) * limit_of(limit)
}

/// Whether `offset_of` may be called.
pub fn offset_in_range(page: Option<i64>, limit: Option<i64>) -> (r: bool)
    ensures
        r == offset_fits(page, limit),
{
    let p = match page {
        Some(p) => p,
        None => 1,
    };
    let p: i128 = if p > 1 {
        p as i128
    } else {
        1
    };
    let l = limit_of(limit) as i128;
    proof {
        assert(-(0x8000_0000_0000_0000 * 0x8000_0000_0000_0000) <= (p - 1) * l <= 0x8000_0000_0000_0000 * 100) by (nonlinear_arith)
            requires
                0 <= p - 1 < 0x8000_0000_0000_0000,
                -0x8000_0000_0000_0000 <= l <= 100,
        ;
    }
    let o = (p - 1) * l;
    i64::MIN as i128 <= o && o <= i64::MAX as i128
}

/// One page of a listing.
pub struct PaginatedResponse<T> {
    pub data: Vec<T>,
    pub total: i64,
    pub page: i64,
    pub limit: i64,
}

} // verus!
