//! A model of concurrent claims on the queue: submitters that each list the
//! queue, take one more than the largest identifier listed, and create that
//! record only if no record has it yet.

use vstd::prelude::*;
use crate::queue::{next_id, lemma_next_id_above};
use crate::status::Status;

verus! {

/// One step of one submitter.
pub enum ClaimEvent {
    /// Submitter `p` lists the queue and takes the identifier after the
    /// largest one listed as its candidate.
    Snapshot(nat, Seq<(usize, Status)>),
    /// Submitter `p` tries to create the record of its candidate; the create
    /// fails when a record with that identifier exists.
    Create(nat),
}

/// The queue and the submitters at one instant.
pub struct ClaimWorld {
    /// The records present, by identifier.
    pub store: Map<usize, Status>,
    /// The candidate identifier of each submitter between listing and create.
    pub candidates: Map<nat, usize>,
    /// The identifiers created successfully, in the order of creation.
    pub created: Seq<usize>,
}

/// The world before any claim: the records present and no submitter busy.
pub open spec fn initial_world(store: Map<usize, Status>) -> ClaimWorld {
    ClaimWorld { store, candidates: Map::empty(), created: Seq::empty() }
}

/// `l` lists exactly the records of `store`.
pub open spec fn is_listing(l: Seq<(usize, Status)>, store: Map<usize, Status>) -> bool {
    &&& forall|i: int| 0 <= i < l.len() ==> store.contains_key(#[trigger] l[i].0)
    &&& forall|id: usize|
        store.contains_key(id) ==> exists|i: int| 0 <= i < l.len() && #[trigger] l[i].0 == id
}

/// A step is possible when a submitter's listing shows the queue as it is.
pub open spec fn event_ok(w: ClaimWorld, e: ClaimEvent) -> bool {
    match e {
        ClaimEvent::Snapshot(_, l) => is_listing(l, w.store),
        ClaimEvent::Create(_) => true,
    }
}

/// The world after one step.
pub open spec fn claim_step(w: ClaimWorld, e: ClaimEvent) -> ClaimWorld {
    match e {
        ClaimEvent::Snapshot(p, l) => {
            if next_id(l) <= usize::MAX {
                ClaimWorld { candidates: w.candidates.insert(p, next_id(l) as usize), ..w }
            } else {
                ClaimWorld { candidates: w.candidates.remove(p), ..w }
            }
        },
        ClaimEvent::Create(p) => {
            if w.candidates.contains_key(p) {
                let c = w.candidates[p];
                if w.store.contains_key(c) {
                    ClaimWorld { candidates: w.candidates.remove(p), ..w }
                } else {
                    ClaimWorld {
                        store: w.store.insert(c, Status::Waiting),
                        candidates: w.candidates.remove(p),
                        created: w.created.push(c),
                    }
                }
            } else {
                w
            }
        },
    }
}

/// The world after the steps `es`, taken in order.
pub open spec fn claim_run(w: ClaimWorld, es: Seq<ClaimEvent>) -> ClaimWorld
    decreases es.len(),
{
    if es.len() == 0 {
        w
    } else {
        claim_step(claim_run(w, es.drop_last()), es.last())
    }
}

/// Every step of `es` is possible where it is taken.
pub open spec fn valid_run(w: ClaimWorld, es: Seq<ClaimEvent>) -> bool
    decreases es.len(),
{
    if es.len() == 0 {
        true
    } else {
        valid_run(w, es.drop_last()) && event_ok(claim_run(w, es.drop_last()), es.last())
    }
}

spec fn claim_inv(init: Map<usize, Status>, w: ClaimWorld) -> bool {
    &&& forall|id: usize| init.contains_key(id) ==> w.store.contains_key(id)
    &&& forall|i: int| 0 <= i < w.created.len() ==> w.store.contains_key(#[trigger] w.created[i])
    &&& forall|i: int, j: int| 0 <= i < j < w.created.len() ==> w.created[i] < w.created[j]
    &&& forall|i: int, id: usize|
        0 <= i < w.created.len() && #[trigger] init.contains_key(id) ==> id < #[trigger] w.created[i]
    &&& forall|p: nat|
        #[trigger] w.candidates.contains_key(p) ==> (w.store.contains_key(w.candidates[p])
            || forall|id: usize| w.store.contains_key(id) ==> id < w.candidates[p])
    &&& forall|p: nat|
        #[trigger] w.candidates.contains_key(p) ==> (w.candidates[p] == 0 || w.store.contains_key(
            (w.candidates[p] - 1) as usize,
        ))
}

proof fn lemma_claim_step(init: Map<usize, Status>, w: ClaimWorld, e: ClaimEvent)
    requires
        claim_inv(init, w),
        event_ok(w, e),
    ensures
        claim_inv(init, claim_step(w, e)),
{
    let w2 = claim_step(w, e);
    match e {
        ClaimEvent::Snapshot(p, l) => {
            lemma_next_id_above(l);
            if next_id(l) <= usize::MAX {
                let c = next_id(l) as usize;
                assert forall|id: usize| w.store.contains_key(id) implies id < c by {
                    let i = choose|i: int| 0 <= i < l.len() && #[trigger] l[i].0 == id;
                }
                if c > 0 {
                    assert(l.len() > 0) by {
                        if l.len() == 0 {
                            assert(next_id(l) == 0);
                        }
                    }
                    let i = choose|i: int| 0 <= i < l.len() && l[i].0 + 1 == next_id(l);
                    assert(w.store.contains_key(l[i].0));
                }
            }
        },
        ClaimEvent::Create(p) => {
            if w.candidates.contains_key(p) {
                let c = w.candidates[p];
                if !w.store.contains_key(c) {
                    assert forall|q: nat| #[trigger] w2.candidates.contains_key(q) implies (
                    w2.store.contains_key(w2.candidates[q]) || forall|id: usize|
                        w2.store.contains_key(id) ==> id < w2.candidates[q]) by {
                        let cq = w.candidates[q];
                        if !w.store.contains_key(cq) {
                            if c > 0 {
                                assert(w.store.contains_key((c - 1) as usize));
                            }
                        }
                    }
                    assert forall|i: int, j: int| 0 <= i < j < w2.created.len() implies w2.created[i]
                        < w2.created[j] by {
                        if j == w.created.len() {
                            assert(w.store.contains_key(w.created[i]));
                        }
                    }
                    assert forall|i: int| 0 <= i < w2.created.len() implies w2.store.contains_key(
                        #[trigger] w2.created[i],
                    ) by {
                        if i < w.created.len() {
                            assert(w.store.contains_key(w.created[i]));
                        }
                    }
                }
            }
        },
    }
}

proof fn lemma_claim_run(init: Map<usize, Status>, es: Seq<ClaimEvent>)
    requires
        valid_run(initial_world(init), es),
    ensures
        claim_inv(init, claim_run(initial_world(init), es)),
    decreases es.len(),
{
    if es.len() > 0 {
        lemma_claim_run(init, es.drop_last());
        lemma_claim_step(init, claim_run(initial_world(init), es.drop_last()), es.last());
    }
}

/// The identifiers claimed successfully by the steps `es` from the queue
/// `store`, in the order of creation.
pub open spec fn claimed_ids(store: Map<usize, Status>, es: Seq<ClaimEvent>) -> Seq<usize> {
    claim_run(initial_world(store), es).created
}

/// However the steps of concurrent submitters interleave, each successful
/// claim gets an identifier larger than every record present before it and
/// every record created before it, so no two records ever share an identifier.
pub proof fn lemma_claims_unique_and_increasing(store: Map<usize, Status>, es: Seq<ClaimEvent>)
    requires
        valid_run(initial_world(store), es),
    ensures
        forall|i: int, j: int|
            0 <= i < j < claimed_ids(store, es).len() ==> claimed_ids(store, es)[i] < claimed_ids(
                store,
                es,
            )[j],
        forall|i: int, id: usize|
            0 <= i < claimed_ids(store, es).len() && #[trigger] store.contains_key(id) ==> id
                < #[trigger] claimed_ids(store, es)[i],
        forall|i: int, j: int|
            0 <= i < claimed_ids(store, es).len() && 0 <= j < claimed_ids(store, es).len() && i
                != j ==> claimed_ids(store, es)[i] != claimed_ids(store, es)[j],
{
    lemma_claim_run(store, es);
    let w = claim_run(initial_world(store), es);
    assert forall|i: int, j: int|
        0 <= i < w.created.len() && 0 <= j < w.created.len() && i != j implies w.created[i]
        != w.created[j] by {
        if i < j {
            assert(w.created[i] < w.created[j]);
        } else {
            assert(w.created[j] < w.created[i]);
        }
    }
}

} // verus!
