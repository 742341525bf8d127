//! The products service: stock reservations, product policies and updates,
//! provenance, QR codes and images.
pub mod certificate;
pub mod images;
pub mod model;
pub mod outputs;
pub mod policy;
pub mod provenance;
pub mod qr;
pub mod query;
pub mod reservations;
pub mod service;
