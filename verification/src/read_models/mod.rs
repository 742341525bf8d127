//! The read-model service: event projection and traceability queries.
pub mod projector;
pub mod queries;
