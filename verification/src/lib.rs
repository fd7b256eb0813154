//! A store of authenticated counter records.
//!
//! Each record is addressed by a namespace tag, owns an authority fixed at
//! creation, and carries an unsigned count. Three operations exist: a record
//! is created once (`initialize`), and its count is raised or lowered by one
//! (`increment`, `decrement`) only by the matching authority. Rejected
//! operations never change the store.

pub mod laws;
pub mod record;
pub mod store;
pub mod transition;

pub use crate::record::Counter;
pub use crate::record::ErrorCode;
pub use crate::record::Principal;
