//! The consumer side of the result channel: a store of drained load
//! outcomes keyed by handle identity, guarded so that only the outcome of
//! the most recently issued request for a handle is retained.

use vstd::prelude::*;
use std::collections::HashMap;
use crate::error::AssetLoadError;
use crate::load_request::AssetResult;

verus! {

broadcast use vstd::std_specs::hash::group_hash_axioms;

/// What the store retains for one handle: the version stamp of the request
/// the outcome answers, and the decoded asset or the error.
pub struct StoredOutcome<TAsset> {
    pub version: u64,
    pub result: Result<TAsset, AssetLoadError>,
}

/// How draining one outcome changes the store: it is kept unless the store
/// already holds an outcome for the same handle that is at least as new —
/// the highest seen version wins, whatever the arrival order.
pub open spec fn spec_integrate<TAsset>(
    m: Map<u64, StoredOutcome<TAsset>>,
    handle_id: u64,
    outcome: StoredOutcome<TAsset>,
) -> Map<u64, StoredOutcome<TAsset>> {
    if m.contains_key(handle_id) && m[handle_id].version >= outcome.version {
        m
    } else {
        m.insert(handle_id, outcome)
    }
}

/// Outcomes retained per handle. Cancellation is advisory: a superseded
/// request still delivers an outcome, and this store discards it on arrival
/// when a newer version has already been seen for the handle.
#[verifier::reject_recursive_types(TAsset)]
pub struct AssetStore<TAsset> {
    outcomes: HashMap<u64, StoredOutcome<TAsset>>,
}

impl<TAsset> View for AssetStore<TAsset> {
    type V = Map<u64, StoredOutcome<TAsset>>;

    closed spec fn view(&self) -> Map<u64, StoredOutcome<TAsset>> {
        self.outcomes@
    }
}

impl<TAsset> AssetStore<TAsset> {
    /// An empty store: no handle has an outcome yet.
    pub fn new() -> (r: Self)
        ensures
            r@ == Map::<u64, StoredOutcome<TAsset>>::empty(),
    {
        AssetStore { outcomes: HashMap::new() }
    }

    /// Drain one outcome into the store, keeping it only if it is newer than
    /// what the store already holds for its handle.
    pub fn integrate(&mut self, outcome: AssetResult<TAsset>)
        ensures
            final(self)@ == spec_integrate(
                old(self)@,
                outcome.handle_id,
                (StoredOutcome { version: outcome.version, result: outcome.result }),
            ),
    {
        let newer = match self.outcomes.get(&outcome.handle_id) {
            Some(current) => current.version < outcome.version,
            None => true,
        };
        if newer {
            self.outcomes.insert(
                outcome.handle_id,
                StoredOutcome { version: outcome.version, result: outcome.result },
            );
        }
    }

    /// The outcome currently retained for a handle, if any.
    pub fn get(&self, handle_id: u64) -> (r: Option<&StoredOutcome<TAsset>>)
        ensures
            match r {
                Some(stored) => self@.contains_key(handle_id) && *stored == self@[handle_id],
                None => !self@.contains_key(handle_id),
            },
    {
        self.outcomes.get(&handle_id)
    }
}

/// The outcome of the most recently issued request wins: draining the
/// outcomes of an older and a newer request for the same handle retains the
/// newer one, whichever of the two arrives first.
pub proof fn lemma_latest_version_wins<TAsset>(
    m: Map<u64, StoredOutcome<TAsset>>,
    handle_id: u64,
    older: StoredOutcome<TAsset>,
    newer: StoredOutcome<TAsset>,
)
    requires
        older.version < newer.version,
        m.contains_key(handle_id) ==> m[handle_id].version < older.version,
    ensures
        spec_integrate(spec_integrate(m, handle_id, older), handle_id, newer) == spec_integrate(
            spec_integrate(m, handle_id, newer),
            handle_id,
            older,
        ),
        spec_integrate(spec_integrate(m, handle_id, older), handle_id, newer)[handle_id] == newer,
{
    assert(spec_integrate(spec_integrate(m, handle_id, older), handle_id, newer) =~= spec_integrate(
        spec_integrate(m, handle_id, newer),
        handle_id,
        older,
    ));
}

} // verus!
