//! The raw-materials service: stock consumption and material records.
pub mod consumption;
pub mod models;
pub mod query;
pub mod service;
