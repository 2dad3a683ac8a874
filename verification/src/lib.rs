//! Admission control for a contact endpoint: a per-client request throttle
//! over two sliding time windows, with the settings and message types of the
//! service around it.

pub mod clock;
pub mod window;
pub mod registry;
pub mod laws;
pub mod rate_limiter;
pub mod text;
pub mod config;
pub mod contact;
pub mod email;
pub mod notice;
