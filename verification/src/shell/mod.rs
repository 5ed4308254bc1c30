//! The desktop and mobile shell: what it keeps on the device, and how it signs in.

pub mod auth;
pub mod device;
pub mod device_laws;
