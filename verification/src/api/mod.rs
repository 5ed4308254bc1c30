//! What the HTTP API answers, apart from the transport.

pub mod answer_laws;
pub mod auth;
pub mod backup;
pub mod categories;
pub mod chapters;
pub mod cors;
pub mod covers;
pub mod downloads;
pub mod error;
pub mod fingerprints;
pub mod library;
pub mod operations;
pub mod progress;
pub mod reading_laws;
pub mod service_laws;
pub mod updates;
