//! Provider routing and guest-quota limiting for an AI gateway.
//!
//! The library has two verified components: a routing table that maps a
//! declarative configuration string to concrete provider/model targets,
//! and an in-memory rate limiter that enforces a daily quota for
//! unauthenticated ("guest") callers, with automatic reset at UTC day
//! boundaries.

pub mod config;
pub mod guest;
pub mod routing;
pub mod strutil;
pub mod types;
