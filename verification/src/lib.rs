//! An authenticated, persistent event store.
//!
//! Callers submit structured events (id, author key, timestamp, kind, tags,
//! content, signature) and later retrieve subsets of them through
//! multi-predicate filters. The store enforces id uniqueness with
//! last-write-wins overwrite semantics; an access-control table gates which
//! caller identities may invoke which operations; a bootstrap step seeds the
//! initial owner identity idempotently.

use vstd::prelude::*;

pub mod acl;
pub mod db;
pub mod events;
pub mod methods;

verus! {

/// The error kinds a call can report.
///
/// `Unauthorized`: the caller lacks the required role.
/// `InvalidIdentity`: a malformed external key encoding was handed in.
#[derive(Clone, Copy, Debug, PartialEq, Eq, Structural)]
pub enum BackendError {
    Unauthorized,
    InvalidIdentity,
}

} // verus!
