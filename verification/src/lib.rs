//! Atomic strong count.
//!
//! [`Asc`] is a drop-in replacement for [`std::sync::Arc`] where no weak
//! references are needed: shared, thread-safe ownership of a value on the
//! heap, which is freed as soon as the last [`Asc`] to it is dropped.
//!
//! * [`shared`] holds [`Asc`] itself.
//! * [`heap`] holds the same operations on memory that is a plain value, where
//!   every contract follows the counts.
//! * [`count`] states the rules of the strong count.
//! * [`ledger`] is the mathematical state of a heap, and [`laws`] proves what
//!   holds of it: that a count is always the number of references, that a value
//!   is freed with the last of them and never twice, and that nothing leaks.
pub mod count;
pub mod heap;
pub mod laws;
pub mod ledger;
pub mod shared;

pub use crate::shared::Asc;
