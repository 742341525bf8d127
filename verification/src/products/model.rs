//! Products and the requests that create or change them.
use crate::numbers::Number;
use vstd::prelude::*;

verus! {

/// A stored product. Amounts are in thousandths; dates are days since the
/// Common Era; timestamps are seconds since the Unix epoch.
pub struct Product {
    pub id: u128,
    pub business_id: u128,
    pub name: String,
    pub product_type: String,
    pub description: Option<String>,
    pub quantity: i64,
    pub unit: String,
    pub price: i64,
    pub expiry_date: Option<i32>,
    pub batch_id: Option<u128>,
    pub image_path: Option<String>,
    pub qr_token: u128,
    pub qr_path: Option<String>,
    pub status: String,
    pub is_active: bool,
    pub is_deleted: bool,
    pub created_at: i64,
    pub updated_at: i64,
}

/// The fields a new product is checked on.
pub struct CreateProductRequest {
    pub name: String,
    pub product_type: String,
    pub description: Option<String>,
    pub quantity: Number,
    pub unit: String,
    pub price: Number,
    pub expiry_date: Option<i32>,
    pub batch_id: Option<u128>,
}

/// A partial change to a product; absent fields keep their stored value.
pub struct UpdateProductRequest {
    pub name: Option<String>,
    pub product_type: Option<String>,
    pub description: Option<String>,
    pub quantity: Option<Number>,
    pub unit: Option<String>,
    pub price: Option<Number>,
    pub batch_id: Option<u128>,
    pub is_active: Option<bool>,
    pub status: Option<String>,
    pub expiry_date: Option<i32>,
}

/// The price an update stores.
pub enum PriceUpdate {
    /// The stored price, in thousandths.
    Keep(i64),
    /// The requested price.
    Requested(Number),
}

/// What an accepted update writes.
pub struct UpdateParams {
    pub name: String,
    pub product_type: String,
    pub description: Option<String>,
    /// The requested quantity, if any; the store keeps a measured quantity.
    pub quantity: Option<Number>,
    pub unit: String,
    pub price: PriceUpdate,
    pub expiry_date: Option<i32>,
    pub batch_id: Option<u128>,
    pub status: String,
    pub is_active: bool,
}

} // verus!
