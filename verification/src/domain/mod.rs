//! What the library speaks of: what sources offer, what is on the shelf, how far
//! each reader has come, and the envelopes that carry it.

pub mod api;
pub mod backup;
pub mod progress;
pub mod publication;
pub mod source;
pub mod users;
