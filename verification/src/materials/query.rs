//! Listing filters for raw materials.
use crate::pagination::{limit_of, offset_fits, offset_of, page_limit, page_offset};
use vstd::prelude::*;

verus! {

/// The query string of a raw-material listing.
pub struct ListQuery {
    pub page: Option<i64>,
    pub limit: Option<i64>,
    /// Only materials of this type.
    pub material_type: Option<String>,
    /// Only materials whose name contains this text.
    pub search: Option<String>,
}

impl ListQuery {
    /// Rows before the requested page: `(max(page, 1) - 1) * limit()`.
    pub fn offset(&self) -> (r: i64)
        requires
            offset_fits(self.page, self.limit),
        ensures
            r == page_offset(self.page, self.limit),
    {
        offset_of(self.page, self.limit)
    }

    /// The page size: 20 unless given, at most 100.
    pub fn limit(&self) -> (r: i64)
        ensures
            r == page_limit(self.limit),
    {
        limit_of(self.limit)
    }
}

} // verus!
