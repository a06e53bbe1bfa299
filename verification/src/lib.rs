//! Field-level signatures over structured documents.
//!
//! A document is canonicalized into one statement per leaf — a single-entry
//! JSON object mapping the leaf's pointer path to its value — and the sorted
//! statement sequence is signed with a multi-message BBS+ signature, one
//! message per statement, so that a subset of fields can later be disclosed
//! without invalidating the signature over the rest.

pub mod bytes;
pub mod canon;
pub mod doc;
pub mod laws;
pub mod order;
pub mod scheme;
