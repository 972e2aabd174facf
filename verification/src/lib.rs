//! Content-addressed block access: resolving addressing options into content
//! identifiers, bounded collection of multipart bodies, and single or batched
//! operations against an in-memory block store.

pub mod addressing;
pub mod encode;
pub mod errors;
pub mod laws;
pub mod multipart;
pub mod options;
pub mod pipeline;
pub mod store;
