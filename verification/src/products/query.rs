//! Listing filters for products.
use crate::pagination::{limit_of, offset_fits, offset_of, page_limit, page_offset, PaginatedResponse};
use crate::products::model::Product;
use vstd::prelude::*;

verus! {

/// The query string of a product listing.
pub struct ListQuery {
    pub page: Option<i64>,
    pub limit: Option<i64>,
    pub product_type: Option<String>,
    pub search: Option<String>,
    pub active_only: Option<bool>,
    pub is_active: Option<bool>,
    pub status: Option<String>,
    pub farm_id: Option<u128>,
}

impl ListQuery {
    /// Rows before the requested page: `(max(page, 1) - 1) * limit()`.
    pub fn offset(&self) -> (r: i64)
        requires
            offset_fits(self.page, self.limit),
        ensures
            r == page_offset(self.page, self.limit),
    {
        offset_of(self.page, self.limit)
    }

    /// The page size: 20 unless given, at most 100.
    pub fn limit(&self) -> (r: i64)
        ensures
            r == page_limit(self.limit),
    {
        limit_of(self.limit)
    }

    /// The query as a caller with `role` may run it: customers only see
    /// available products.
    pub fn for_role(self, role: &str) -> (r: ListQuery)
        ensures
            role@ == "CUSTOMER"@ ==> r == (ListQuery { is_active: Some(true), ..self }),
            role@ != "CUSTOMER"@ ==> r == self,
    {
        if crate::text::str_eq(role, "CUSTOMER") {
            ListQuery { is_active: Some(true), ..self }
        } else {
            self
        }
    }

    /// The availability filter: `is_active` if given, otherwise only available
    /// products when `active_only` is set, otherwise none.
    pub fn availability(&self) -> (r: Option<bool>)
        ensures
            r == (match self.is_active {
                Some(a) => Some(a),
                None => if self.active_only == Some(true) {
                    Some(true)
                } else {
                    None
                },
            }),
    {
        match self.is_active {
            Some(a) => Some(a),
            None => if self.active_only == Some(true) {
                Some(true)
            } else {
                None
            },
        }
    }

    /// One page of products with the total count.
    pub fn page_of(&self, data: Vec<Product>, total: i64) -> (r: PaginatedResponse<Product>)
        ensures
            r.data == data,
            r.total == total,
            r.page == (match self.page {
                Some(p) => p,
                None => 1i64,
            }),
            r.limit == page_limit(self.limit),
    {
        PaginatedResponse {
            data,
            total,
            page: match self.page {
                Some(p) => p,
                None => 1,
            },
            limit: self.limit(),
        }
    }
}

} // verus!
