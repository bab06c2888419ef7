//! Shared ownership for a fixed number of owners.
//!
//! [`StaticArc::new`] moves a value into one shared cell and hands out a
//! batch of handles to it, as many as the caller asks for in the type. No
//! handle can be duplicated afterwards, so the number of owners only ever
//! goes down. Every handle reads the value; the last one left may change it
//! in place or take it back by value, without a lock and without a clone.
//!
//! * [`handle`] holds the handle type and its operations.
//! * [`storage`] holds the few operations of `std::sync::Arc` that the
//!   handles rest on, each with the contract that is taken on trust.
//! * [`protocol`] states the counting protocol on its own and proves the
//!   properties that make sole ownership detectable.

pub mod handle;
pub mod protocol;
pub mod storage;

pub use handle::StaticArc;
