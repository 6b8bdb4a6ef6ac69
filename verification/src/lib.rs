//! State-management core of a minimal on-chain rating application.
//!
//! Callers submit a (named entity, rating) pair; the store records, per
//! calling identity, the most recent rating for that entity. Entity names
//! address per-entity rating maps that are created lazily, exactly once,
//! and updates overwrite with last-write-wins semantics.

pub mod alist;
pub mod identity;
pub mod laws;
pub mod store;
