//! The published snapshot: the cell from which every request takes the
//! metadata it routes by, without a lock, and into which the writer puts a
//! new snapshot as a whole.

use super::manager::MetaMap;
use std::sync::Arc;
use vstd::prelude::*;

verus! {

/// A handle to the cell that holds the published snapshot. All handles
/// made from one another share one cell.
///
/// The cell is an `arc_swap::ArcSwap`. Its type names a strategy that is
/// private to `arc_swap`, so the verifier cannot be told of it, and the
/// handle is opaque to proofs: what is read from the cell is routed by
/// verified code, but nothing is proved of which snapshot that is.
#[verifier::external_body]
pub struct SharedMetaMap {
    cell: Arc<arc_swap::ArcSwap<MetaMap>>,
}

/// Calls `arc_swap::ArcSwap::from_pointee`, which makes a cell that holds
/// the value. Nothing is claimed of the cell: what it holds later is up to
/// whoever stores into it.
#[verifier::external_body]
fn cell_from(map: MetaMap) -> (shared: SharedMetaMap) {
    SharedMetaMap { cell: Arc::new(arc_swap::ArcSwap::from_pointee(map)) }
}

/// Calls `arc_swap::ArcSwapAny::load_full`, which gives the value that the
/// cell holds at the moment of the call. Another thread may have stored
/// since the last call, so nothing is claimed of the value.
#[verifier::external_body]
fn cell_load(shared: &SharedMetaMap) -> (snapshot: Arc<MetaMap>) {
    shared.cell.load_full()
}

/// Calls `arc_swap::ArcSwapAny::store`, which replaces the value that the
/// cell holds. The call changes nothing that the contract could speak of.
#[verifier::external_body]
fn cell_store(shared: &SharedMetaMap, map: MetaMap) {
    shared.cell.store(Arc::new(map))
}

/// Calls `Arc::clone` on the cell, which gives another pointer to the
/// same allocation: the new handle is the same cell as the old one.
#[verifier::external_body]
fn cell_share(shared: &SharedMetaMap) -> (other: SharedMetaMap)
    ensures
        other == *shared,
{
    SharedMetaMap { cell: Arc::clone(&shared.cell) }
}

impl SharedMetaMap {
    /// A new cell that holds `map`.
    pub fn new(map: MetaMap) -> (shared: SharedMetaMap) {
        cell_from(map)
    }

    /// The snapshot that is published now. It stays as it is for as long as
    /// the caller holds it, whatever is published meanwhile.
    pub fn load(&self) -> (snapshot: Arc<MetaMap>) {
        cell_load(self)
    }

    /// Publishes `map` in place of what was published.
    pub fn store(&self, map: MetaMap) {
        cell_store(self, map)
    }

    /// Another handle to the same cell.
    pub fn share(&self) -> (other: SharedMetaMap)
        ensures
            other == *self,
    {
        cell_share(self)
    }
}

} // verus!
