//! A sequence-transformation utility that retries failures: given an ordered
//! source of items and a fallible transformation, it produces exactly one
//! result per input item — the first success, or the failure that exhausted
//! the item's retry budget — re-attempting failed items after a configurable
//! minimum delay, up to a configurable number of retries.
//!
//! [`options`] holds the immutable run parameters and their builder;
//! [`delayed`] holds the retrying engine itself, whose contracts state the
//! engine's laws: one terminal result per input item, a bound of
//! `1 + num_retries` attempts per item, and no further attempt once an item
//! is resolved.

pub mod delayed;
pub mod options;
mod pending;
