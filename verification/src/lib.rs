//! Verified business rules of the Local Bite production-tracking platform:
//! product policies and updates, stock reservation and raw-material consumption
//! ledgers, integration-event validation and projection, QR and image naming.
use vstd::prelude::*;

pub mod auth;
pub mod dates;
pub mod events;
pub mod materials;
pub mod numbers;
pub mod pagination;
pub mod products;
pub mod read_models;
pub mod sorting;
pub mod text;

verus! {
} // verus!
