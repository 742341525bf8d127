//! Raw materials and the requests that create, change or adjust them.
use crate::numbers::Number;
use crate::pagination::{limit_of, offset_fits, offset_of, page_limit, page_offset};
use vstd::prelude::*;

pub use crate::pagination::PaginatedResponse;

verus! {

/// A stored raw material. Amounts are in thousandths; dates are days since the
/// Common Era; timestamps are seconds since the Unix epoch.
pub struct RawMaterial {
    pub id: u128,
    pub business_id: u128,
    pub name: String,
    pub material_type: String,
    pub quantity: i64,
    pub unit: String,
    pub supplier: Option<String>,
    pub origin: Option<String>,
    pub harvest_date: Option<i32>,
    pub received_date: Option<i32>,
    pub expiry_date: Option<i32>,
    pub notes: Option<String>,
    pub low_stock_threshold: Option<i64>,
    pub is_deleted: bool,
    pub created_at: i64,
    pub updated_at: i64,
}

/// A new raw material.
pub struct CreateRawMaterialRequest {
    pub name: String,
    pub material_type: String,
    pub quantity: Number,
    pub unit: String,
    pub supplier: Option<String>,
    pub origin: Option<String>,
    pub harvest_date: Option<i32>,
    pub received_date: Option<i32>,
    pub expiry_date: Option<i32>,
    pub notes: Option<String>,
    pub low_stock_threshold: Option<Number>,
}

/// A partial change to a raw material; absent fields keep their stored value.
pub struct UpdateRawMaterialRequest {
    pub name: Option<String>,
    pub material_type: Option<String>,
    pub quantity: Option<Number>,
    pub unit: Option<String>,
    pub supplier: Option<String>,
    pub origin: Option<String>,
    pub harvest_date: Option<i32>,
    pub received_date: Option<i32>,
    pub expiry_date: Option<i32>,
    pub notes: Option<String>,
    pub low_stock_threshold: Option<Number>,
}

/// A stock adjustment: positive to restock, negative for usage.
pub struct AdjustQuantityRequest {
    pub delta: Number,
    pub reason: Option<String>,
}

/// The query string of a raw-material listing.
pub struct ListQuery {
    pub page: Option<i64>,
    pub limit: Option<i64>,
    pub material_type: Option<String>,
    pub search: Option<String>,
}

impl ListQuery {
    /// Rows before the requested page: `(max(page, 1) - 1) * limit()`.
    pub fn offset(&self) -> (r: i64)
        requires
            offset_fits(self.page, self.limit),
        ensures
            r == page_offset(self.page, self.limit),
    {
        offset_of(self.page, self.limit)
    }

    /// The page size: 20 unless given, at most 100.
    pub fn limit(&self) -> (r: i64)
        ensures
            r == page_limit(self.limit),
    {
        limit_of(self.limit)
    }
}

} // verus!
