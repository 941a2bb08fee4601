//! A notifier that lets callers wait for a future confirmation of a
//! blockchain operation (a transaction or a priority operation) at one of
//! two confirmation levels, without polling.
//!
//! A subscription is either answered at once from already-persisted state or
//! parked in a bounded registry of waiters; a later confirmed block drains
//! the matching waiters and delivers the outcome to each of them exactly
//! once.

use vstd::prelude::*;

pub mod channel;
pub mod laws;
pub mod notifier;
pub mod op_registry;
pub mod receipt;
pub mod tx_registry;

verus! {

/// Upper bound on the number of pending waiters kept for one
/// (entity identity, confirmation level) pair; registrations past this
/// bound are dropped so that the registry cannot grow without bound.
pub const MAX_LISTENERS_PER_ENTITY: usize = 4096;

/// The bucket a map holds for a key, or the empty sequence where the map
/// holds none.
pub open spec fn bucket_or_empty<K, V>(m: Map<K, Seq<V>>, k: K) -> Seq<V> {
    if m.contains_key(k) {
        m[k]
    } else {
        Seq::empty()
    }
}

} // verus!
