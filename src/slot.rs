use std::sync::Arc;

use vstd::prelude::*;

use crate::state::AppState;

verus! {

#[verifier::external_type_specification]
#[verifier::external_body]
#[verifier::reject_recursive_types(R)]
#[verifier::reject_recursive_types(T)]
pub struct ExRwLock<R, T: ?Sized>(parking_lot::lock_api::RwLock<R, T>);

#[verifier::external_type_specification]
#[verifier::external_body]
pub struct ExRawRwLock(parking_lot::RawRwLock);

/// Relies on `lock_api::RwLock::new`: a lock that holds `v`.
#[verifier::external_body]
fn new_cell<Q>(v: Arc<AppState<Q>>) -> parking_lot::RwLock<Arc<AppState<Q>>> {
    parking_lot::RwLock::new(v)
}

/// Relies on `lock_api::RwLock::read`: under the shared lock, a clone of the
/// handle held at that moment.
#[verifier::external_body]
fn read_cell<Q>(c: &parking_lot::RwLock<Arc<AppState<Q>>>) -> Arc<AppState<Q>> {
    c.read().clone()
}

/// Relies on `lock_api::RwLock::write`: under the exclusive lock, replaces the
/// held handle with `v`; the old handle is dropped only after the lock is
/// released.
#[verifier::external_body]
fn write_cell<Q>(c: &parking_lot::RwLock<Arc<AppState<Q>>>, v: Arc<AppState<Q>>) {
    let previous = std::mem::replace(&mut *c.write(), v);
    drop(previous);
}

/// The one place that holds the table in service. Readers take a handle to
/// the whole table under a shared lock; a reload builds its table first and
/// then swaps the handle under an exclusive lock, so a reader sees either the
/// old table or the new one, each complete.
#[verifier::reject_recursive_types(Q)]
pub struct Slot<Q> {
    cell: parking_lot::RwLock<Arc<AppState<Q>>>,
}

impl<Q> Slot<Q> {
    /// A slot that serves `state`.
    pub fn new(state: AppState<Q>) -> Slot<Q> {
        Slot { cell: new_cell(Arc::new(state)) }
    }

    /// The table in service now. Whatever reload runs meanwhile, it is a
    /// whole table: as many tokens as entries, each token resolving to the
    /// entry at its position.
    pub fn current(&self) -> (r: Arc<AppState<Q>>)
        ensures
            r.consistent(),
    {
        let r = read_cell(&self.cell);
        r.check_consistent();
        r
    }

    /// Puts `state` in service; readers that come later see it, or a later one.
    pub fn publish(&self, state: AppState<Q>) {
        write_cell(&self.cell, Arc::new(state));
    }
}

} // verus!
