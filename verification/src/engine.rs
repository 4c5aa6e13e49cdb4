//! The saga work-graph engine: a pending queue, an in-flight set and a
//! resolved set, disjoint by construction, so that no work key is ever
//! dispatched twice unless a transient failure put it back. Ghost
//! dispatch and failure counters carry the dedup law.

use vstd::prelude::*;

use crate::assets_work::{spec_key_of, AssetsWorkKey, AssetsWorkType};

verus! {

/// Retries a work item gets before the saga fails hard.
pub const MAX_RETRIES: u32 = 3;

#[derive(Clone, Copy, PartialEq, Eq, Structural, Debug)]
pub enum SagaStatus {
    Started,
    Processing,
    Completed,
}

#[derive(Clone, Copy, PartialEq, Eq, Structural, Debug)]
pub enum SagaError {
    InvalidState,
    ProcessingError,
}

/// A unit of work together with its dedup key and its retry count.
pub struct WorkItem {
    pub work_type: AssetsWorkType,
    pub retry_count: u32,
    pub work_resolution_key: AssetsWorkKey,
}

impl WorkItem {
    pub open spec fn consistent(&self) -> bool {
        self.work_resolution_key == spec_key_of(self.work_type@)
    }

    pub fn new(work_type: AssetsWorkType) -> (r: WorkItem)
        ensures
            r.consistent(),
            r.work_type@ == work_type@,
            r.retry_count == 0,
    {
        let work_resolution_key = crate::assets_work::to_resolution_key(&work_type);
        WorkItem { work_type, retry_count: 0, work_resolution_key }
    }

    pub fn duplicate(&self) -> (r: WorkItem)
        ensures
            r.work_type@ == self.work_type@,
            r.retry_count == self.retry_count,
            r.work_resolution_key == self.work_resolution_key,
    {
        WorkItem {
            work_type: self.work_type.clone(),
            retry_count: self.retry_count,
            work_resolution_key: self.work_resolution_key,
        }
    }
}

/// `k` is the key of one of the produced work items.
pub open spec fn in_produced(ws: Seq<AssetsWorkType>, k: AssetsWorkKey) -> bool {
    exists|j: int| 0 <= j < ws.len() && spec_key_of((#[trigger] ws[j])@) == k
}

/// Count held for `k` in a ghost counter map; zero when unseen.
pub open spec fn cnt(m: Map<AssetsWorkKey, nat>, k: AssetsWorkKey) -> nat {
    if m.contains_key(k) {
        m[k]
    } else {
        0
    }
}

/// The saga orchestrator state.
pub struct Saga {
    pub status: SagaStatus,
    pending: Vec<WorkItem>,
    in_flight_work: Vec<WorkItem>,
    resolved: Vec<AssetsWorkKey>,
    max_retries: u32,
    failed: bool,
    dispatch_count: Ghost<Map<AssetsWorkKey, nat>>,
    fail_count: Ghost<Map<AssetsWorkKey, nat>>,
}

impl Saga {
    pub closed spec fn pending_seq(&self) -> Seq<WorkItem> {
        self.pending@
    }

    pub closed spec fn in_flight_seq(&self) -> Seq<WorkItem> {
        self.in_flight_work@
    }

    pub closed spec fn resolved_seq(&self) -> Seq<AssetsWorkKey> {
        self.resolved@
    }

    pub closed spec fn max_retries_spec(&self) -> u32 {
        self.max_retries
    }

    pub closed spec fn has_failed(&self) -> bool {
        self.failed
    }

    /// Total times a key was handed to a worker.
    pub closed spec fn dispatches(&self, k: AssetsWorkKey) -> nat {
        cnt(self.dispatch_count@, k)
    }

    /// Total times a key's work was reported failed.
    pub closed spec fn failures(&self, k: AssetsWorkKey) -> nat {
        cnt(self.fail_count@, k)
    }

    pub open spec fn in_pending(&self, k: AssetsWorkKey) -> bool {
        exists|i: int|
            0 <= i < self.pending_seq().len() && (#[trigger] self.pending_seq()[i]).work_resolution_key
                == k
    }

    pub open spec fn in_flight(&self, k: AssetsWorkKey) -> bool {
        exists|i: int|
            0 <= i < self.in_flight_seq().len() && (
            #[trigger] self.in_flight_seq()[i]).work_resolution_key == k
    }

    /// The key is somewhere between discovery and resolution.
    pub open spec fn key_queued(&self, k: AssetsWorkKey) -> bool {
        self.in_pending(k) || self.in_flight(k)
    }

    pub open spec fn is_resolved_spec(&self, k: AssetsWorkKey) -> bool {
        self.resolved_seq().contains(k)
    }

    /// The in-flight item holding `k`; meaningful when `in_flight(k)`
    /// holds and the state is well formed (keys are then unique).
    pub open spec fn in_flight_item(&self, k: AssetsWorkKey) -> WorkItem {
        self.in_flight_seq()[choose|i: int|
            0 <= i < self.in_flight_seq().len() && (
            #[trigger] self.in_flight_seq()[i]).work_resolution_key == k]
    }

    /// With unique in-flight keys, any index holding `k` holds the
    /// in-flight item of `k`.
    pub proof fn lemma_in_flight_item(&self, k: AssetsWorkKey, i: int)
        requires
            self.wf(),
            0 <= i < self.in_flight_seq().len(),
            self.in_flight_seq()[i].work_resolution_key == k,
        ensures
            self.in_flight_item(k) == self.in_flight_seq()[i],
    {
        let j = choose|j: int|
            0 <= j < self.in_flight_seq().len() && (
            #[trigger] self.in_flight_seq()[j]).work_resolution_key == k;
        if i != j {
            assert(self.in_flight_seq()[i].work_resolution_key != self.in_flight_seq()[
                j].work_resolution_key);
        }
    }

    /// Pending, in-flight and resolved are disjoint and internally
    /// duplicate-free, and every held item's key matches its payload.
    pub open spec fn wf(&self) -> bool {
        &&& forall|i: int, j: int|
            0 <= i < j < self.pending_seq().len() ==> (
            #[trigger] self.pending_seq()[i]).work_resolution_key != (
            #[trigger] self.pending_seq()[j]).work_resolution_key
        &&& forall|i: int, j: int|
            0 <= i < j < self.in_flight_seq().len() ==> (
            #[trigger] self.in_flight_seq()[i]).work_resolution_key != (
            #[trigger] self.in_flight_seq()[j]).work_resolution_key
        &&& forall|i: int, j: int|
            0 <= i < j < self.resolved_seq().len() ==> (#[trigger] self.resolved_seq()[i]) != (
            #[trigger] self.resolved_seq()[j])
        &&& forall|k: AssetsWorkKey| #[trigger] self.in_pending(k) ==> !self.in_flight(k)
        &&& forall|k: AssetsWorkKey| #[trigger] self.in_pending(k) ==> !self.is_resolved_spec(k)
        &&& forall|k: AssetsWorkKey| #[trigger] self.in_flight(k) ==> !self.is_resolved_spec(k)
        &&& forall|i: int|
            0 <= i < self.pending_seq().len() ==> (#[trigger] self.pending_seq()[i]).consistent()
        &&& forall|i: int|
            0 <= i < self.in_flight_seq().len() ==> (
            #[trigger] self.in_flight_seq()[i]).consistent()
        &&& forall|i: int|
            0 <= i < self.pending_seq().len() ==> (#[trigger] self.pending_seq()[i]).retry_count
                <= self.max_retries_spec()
        &&& forall|i: int|
            0 <= i < self.in_flight_seq().len() ==> (
            #[trigger] self.in_flight_seq()[i]).retry_count <= self.max_retries_spec()
    }

    /// Dedup accounting: while a key is pending its dispatches equal its
    /// failures; once dispatched (in flight or resolved) they exceed the
    /// failures by exactly one; a key given up on never exceeds them.
    pub open spec fn dedup_inv(&self) -> bool {
        forall|k: AssetsWorkKey|
            #[trigger] self.dispatches(k) == self.failures(k) + (
            if self.in_flight(k) || self.is_resolved_spec(k) {
                1nat
            } else {
                0nat
            })
    }

    pub fn with_max_retries(max_retries: u32) -> (r: Saga)
        ensures
            r.wf(),
            r.dedup_inv(),
            !r.has_failed(),
            r.pending_seq() == Seq::<WorkItem>::empty(),
            r.in_flight_seq() == Seq::<WorkItem>::empty(),
            r.resolved_seq() == Seq::<AssetsWorkKey>::empty(),
            r.max_retries_spec() == max_retries,
            forall|k: AssetsWorkKey| #[trigger] r.dispatches(k) == 0 && r.failures(k) == 0,
    {
        let r = Saga {
            status: SagaStatus::Started,
            pending: Vec::new(),
            in_flight_work: Vec::new(),
            resolved: Vec::new(),
            max_retries,
            failed: false,
            dispatch_count: Ghost(Map::empty()),
            fail_count: Ghost(Map::empty()),
        };
        proof {
            assert forall|k: AssetsWorkKey| #[trigger] r.dispatches(k) == 0 && r.failures(k)
                == 0 by {}
        }
        r
    }

    pub fn new() -> (r: Saga)
        ensures
            r.wf(),
            r.dedup_inv(),
            !r.has_failed(),
            r.pending_seq() == Seq::<WorkItem>::empty(),
            r.in_flight_seq() == Seq::<WorkItem>::empty(),
            r.resolved_seq() == Seq::<AssetsWorkKey>::empty(),
            r.max_retries_spec() == MAX_RETRIES,
            forall|k: AssetsWorkKey| #[trigger] r.dispatches(k) == 0 && r.failures(k) == 0,
    {
        Saga::with_max_retries(MAX_RETRIES)
    }

    pub fn failed(&self) -> (r: bool)
        ensures
            r == self.has_failed(),
    {
        self.failed
    }

    pub fn pending_len(&self) -> (r: usize)
        ensures
            r == self.pending_seq().len(),
    {
        self.pending.len()
    }

    pub fn in_flight_len(&self) -> (r: usize)
        ensures
            r == self.in_flight_seq().len(),
    {
        self.in_flight_work.len()
    }

    pub fn resolved_len(&self) -> (r: usize)
        ensures
            r == self.resolved_seq().len(),
    {
        self.resolved.len()
    }

    fn key_in_pending(&self, k: AssetsWorkKey) -> (r: bool)
        ensures
            r == self.in_pending(k),
    {
        let n = self.pending.len();
        let mut i: usize = 0;
        while i < n
            invariant
                n == self.pending_seq().len(),
                i <= n,
                forall|j: int| 0 <= j < i ==> (#[trigger] self.pending_seq()[j]).work_resolution_key != k,
            decreases n - i,
        {
            if self.pending[i].work_resolution_key == k {
                return true;
            }
            i = i + 1;
        }
        false
    }

    fn key_in_flight(&self, k: AssetsWorkKey) -> (r: bool)
        ensures
            r == self.in_flight(k),
    {
        let n = self.in_flight_work.len();
        let mut i: usize = 0;
        while i < n
            invariant
                n == self.in_flight_seq().len(),
                i <= n,
                forall|j: int|
                    0 <= j < i ==> (#[trigger] self.in_flight_seq()[j]).work_resolution_key != k,
            decreases n - i,
        {
            if self.in_flight_work[i].work_resolution_key == k {
                return true;
            }
            i = i + 1;
        }
        false
    }

    pub fn key_resolved(&self, k: AssetsWorkKey) -> (r: bool)
        ensures
            r == self.is_resolved_spec(k),
    {
        let n = self.resolved.len();
        let mut i: usize = 0;
        while i < n
            invariant
                n == self.resolved_seq().len(),
                i <= n,
                forall|j: int| 0 <= j < i ==> self.resolved_seq()[j] != k,
            decreases n - i,
        {
            if self.resolved[i] == k {
                return true;
            }
            i = i + 1;
        }
        proof {
            if self.resolved_seq().contains(k) {
                let j = choose|j: int|
                    0 <= j < self.resolved_seq().len() && self.resolved_seq()[j] == k;
                assert(false);
            }
        }
        false
    }

    /// The key is in flight or already resolved: the dedup test a
    /// producer runs before queueing.
    pub fn is_resolved(&self, key: &AssetsWorkKey) -> (r: bool)
        ensures
            r == (self.in_flight(*key) || self.is_resolved_spec(*key)),
    {
        self.key_in_flight(*key) || self.key_resolved(*key)
    }

    /// Both work sets are drained: the graph is closed.
    pub fn is_complete(&self) -> (r: bool)
        ensures
            r == (self.pending_seq().len() == 0 && self.in_flight_seq().len() == 0),
    {
        self.in_flight_work.is_empty() && self.pending.is_empty()
    }
}

impl Saga {
    /// Queue `item` for dispatch unless its key is already pending, in
    /// flight or resolved.
    pub fn enqueue(&mut self, item: WorkItem)
        requires
            old(self).wf(),
            old(self).dedup_inv(),
            item.consistent(),
            item.retry_count <= old(self).max_retries_spec(),
        ensures
            final(self).wf(),
            final(self).dedup_inv(),
            final(self).resolved_seq() == old(self).resolved_seq(),
            final(self).in_flight_seq() == old(self).in_flight_seq(),
            final(self).has_failed() == old(self).has_failed(),
            final(self).max_retries_spec() == old(self).max_retries_spec(),
            (old(self).key_queued(item.work_resolution_key) || old(self).is_resolved_spec(
                item.work_resolution_key,
            )) ==> final(self).pending_seq() == old(self).pending_seq(),
            !(old(self).key_queued(item.work_resolution_key) || old(self).is_resolved_spec(
                item.work_resolution_key,
            )) ==> final(self).pending_seq() == old(self).pending_seq().push(item),
            final(self).key_queued(item.work_resolution_key) || final(self).is_resolved_spec(
                item.work_resolution_key,
            ),
            forall|k: AssetsWorkKey| old(self).key_queued(k) ==> final(self).key_queued(k),
            forall|k: AssetsWorkKey|
                final(self).key_queued(k) ==> old(self).key_queued(k) || k
                    == item.work_resolution_key,
            forall|k: AssetsWorkKey| #[trigger] old(self).in_pending(k) ==> final(self).in_pending(
                k,
            ),
            forall|k: AssetsWorkKey|
                #[trigger] final(self).in_pending(k) ==> old(self).in_pending(k) || k
                    == item.work_resolution_key,
            forall|k: AssetsWorkKey| final(self).dispatches(k) == old(self).dispatches(k),
            forall|k: AssetsWorkKey| final(self).failures(k) == old(self).failures(k),
    {
        let key = item.work_resolution_key;
        let seen = self.key_in_pending(key) || self.key_in_flight(key) || self.key_resolved(key);
        if !seen {
            let ghost p0 = self.pending_seq();
            self.pending.push(item);
            proof {
                assert(self.pending_seq() == p0.push(item));
                assert(self.pending_seq()[p0.len() as int] == item);
                assert forall|k: AssetsWorkKey| #[trigger] old(self).in_pending(k)
                    implies self.in_pending(k) by {
                    let i = choose|i: int|
                        0 <= i < p0.len() && (#[trigger] p0[i]).work_resolution_key == k;
                    assert(self.pending_seq()[i].work_resolution_key == k);
                }
                assert forall|k: AssetsWorkKey| old(self).key_queued(k) implies self.key_queued(
                    k,
                ) by {
                    if old(self).in_pending(k) {
                        let i = choose|i: int|
                            0 <= i < p0.len() && (#[trigger] p0[i]).work_resolution_key == k;
                        assert(self.pending_seq()[i].work_resolution_key == k);
                    }
                }
                assert forall|k: AssetsWorkKey| self.in_pending(k) implies old(self).in_pending(k)
                    || k == item.work_resolution_key by {
                    let i = choose|i: int|
                        0 <= i < self.pending_seq().len() && (
                        #[trigger] self.pending_seq()[i]).work_resolution_key == k;
                    if i < p0.len() {
                        assert(p0[i].work_resolution_key == k);
                    }
                }
                assert forall|i: int, j: int|
                    0 <= i < j < self.pending_seq().len() implies (
                #[trigger] self.pending_seq()[i]).work_resolution_key != (
                #[trigger] self.pending_seq()[j]).work_resolution_key by {
                    if j < p0.len() {
                        assert(self.pending_seq()[i] == p0[i] && self.pending_seq()[j] == p0[j]);
                    } else {
                        assert(self.pending_seq()[i] == p0[i]);
                        assert(!old(self).in_pending(key));
                    }
                }
                assert forall|k: AssetsWorkKey| #[trigger] self.in_pending(k) implies !self.in_flight(
                    k,
                ) && !self.is_resolved_spec(k) by {
                    if old(self).in_pending(k) {
                    } else {
                        assert(k == key);
                    }
                }
                assert forall|k: AssetsWorkKey| #[trigger] self.in_flight(k)
                    implies !self.is_resolved_spec(k) by {
                    assert(old(self).in_flight(k));
                }
                assert forall|i: int|
                    0 <= i < self.pending_seq().len() implies (
                #[trigger] self.pending_seq()[i]).consistent() && self.pending_seq()[i].retry_count
                    <= self.max_retries_spec() by {
                    if i < p0.len() {
                        assert(self.pending_seq()[i] == p0[i]);
                    }
                }
                assert forall|k: AssetsWorkKey| #[trigger] self.dispatches(k) == self.failures(k)
                    + (if self.in_flight(k) || self.is_resolved_spec(k) {
                    1nat
                } else {
                    0nat
                }) by {
                    assert(self.in_flight(k) == old(self).in_flight(k));
                    assert(self.is_resolved_spec(k) == old(self).is_resolved_spec(k));
                    assert(old(self).dispatches(k) == old(self).failures(k) + (
                    if old(self).in_flight(k) || old(self).is_resolved_spec(k) {
                        1nat
                    } else {
                        0nat
                    }));
                }
            }
        }
    }

    /// Index of the in-flight item holding `k`, if any.
    fn find_in_flight(&self, k: AssetsWorkKey) -> (r: Option<usize>)
        ensures
            match r {
                Some(i) => i < self.in_flight_seq().len() && self.in_flight_seq()[
                    i as int
                ].work_resolution_key == k && self.in_flight(k),
                None => !self.in_flight(k),
            },
    {
        let n = self.in_flight_work.len();
        let mut idx: usize = 0;
        while idx < n
            invariant
                n == self.in_flight_seq().len(),
                idx <= n,
                forall|j: int|
                    0 <= j < idx ==> (#[trigger] self.in_flight_seq()[j]).work_resolution_key != k,
            decreases n - idx,
        {
            if self.in_flight_work[idx].work_resolution_key == k {
                return Some(idx);
            }
            idx = idx + 1;
        }
        proof {
            if self.in_flight(k) {
                let j = choose|j: int|
                    0 <= j < self.in_flight_seq().len() && (
                    #[trigger] self.in_flight_seq()[j]).work_resolution_key == k;
                assert(false);
            }
        }
        None
    }

    /// Hand out the oldest pending item and move it in flight. The
    /// dispatched key was neither in flight nor resolved: no duplicate
    /// network work.
    pub fn get_work(&mut self) -> (r: Option<WorkItem>)
        requires
            old(self).wf(),
            old(self).dedup_inv(),
        ensures
            final(self).wf(),
            final(self).dedup_inv(),
            final(self).resolved_seq() == old(self).resolved_seq(),
            final(self).has_failed() == old(self).has_failed(),
            final(self).max_retries_spec() == old(self).max_retries_spec(),
            forall|k: AssetsWorkKey| final(self).key_queued(k) == old(self).key_queued(k),
            forall|k: AssetsWorkKey| final(self).failures(k) == old(self).failures(k),
            match r {
                None => {
                    &&& old(self).pending_seq().len() == 0
                    &&& final(self).pending_seq() == old(self).pending_seq()
                    &&& final(self).in_flight_seq() == old(self).in_flight_seq()
                    &&& forall|k: AssetsWorkKey|
                        final(self).dispatches(k) == old(self).dispatches(k)
                },
                Some(item) => {
                    &&& old(self).pending_seq().len() > 0
                    &&& item.work_resolution_key == old(
                        self,
                    ).pending_seq()[0].work_resolution_key
                    &&& item.work_type@ == old(self).pending_seq()[0].work_type@
                    &&& item.consistent()
                    &&& !old(self).in_flight(item.work_resolution_key)
                    &&& !old(self).is_resolved_spec(item.work_resolution_key)
                    &&& final(self).pending_seq() == old(self).pending_seq().subrange(
                        1,
                        old(self).pending_seq().len() as int,
                    )
                    &&& final(self).in_flight_seq() == old(self).in_flight_seq().push(
                        old(self).pending_seq()[0],
                    )
                    &&& final(self).in_flight(item.work_resolution_key)
                    &&& final(self).dispatches(item.work_resolution_key) == old(self).dispatches(
                        item.work_resolution_key,
                    ) + 1
                    &&& forall|k: AssetsWorkKey|
                        k != item.work_resolution_key ==> final(self).dispatches(k) == old(
                            self,
                        ).dispatches(k)
                },
            },
    {
        if self.pending.len() == 0 {
            return None;
        }
        let ghost pre = *self;
        let item = self.pending.remove(0);
        let key = item.work_resolution_key;
        proof {
            assert(item == pre.pending_seq()[0]);
            assert(pre.in_pending(key)) by {
                assert(pre.pending_seq()[0].work_resolution_key == key);
            }
        }
        let out = item.duplicate();
        let ghost f0 = self.in_flight_seq();
        self.in_flight_work.push(item);
        self.dispatch_count = Ghost(
            self.dispatch_count@.insert(key, cnt(self.dispatch_count@, key) + 1),
        );
        proof {
            let pnew = self.pending_seq();
            let fnew = self.in_flight_seq();
            assert(pnew == pre.pending_seq().subrange(1, pre.pending_seq().len() as int));
            assert(fnew == pre.in_flight_seq().push(pre.pending_seq()[0]));
            assert(fnew[fnew.len() - 1].work_resolution_key == key);
            assert(self.in_flight(key));
            // pending keys after are the old ones shifted
            assert forall|k: AssetsWorkKey| self.in_pending(k) implies pre.in_pending(k) by {
                let i = choose|i: int|
                    0 <= i < pnew.len() && (#[trigger] pnew[i]).work_resolution_key == k;
                assert(pre.pending_seq()[i + 1].work_resolution_key == k);
            }
            assert forall|k: AssetsWorkKey| self.in_flight(k) implies pre.in_flight(k) || k
                == key by {
                let i = choose|i: int|
                    0 <= i < fnew.len() && (#[trigger] fnew[i]).work_resolution_key == k;
                if i < f0.len() {
                    assert(pre.in_flight_seq()[i].work_resolution_key == k);
                }
            }
            assert forall|k: AssetsWorkKey| pre.in_flight(k) implies self.in_flight(k) by {
                let i = choose|i: int|
                    0 <= i < pre.in_flight_seq().len() && (
                    #[trigger] pre.in_flight_seq()[i]).work_resolution_key == k;
                assert(fnew[i].work_resolution_key == k);
            }
            assert forall|k: AssetsWorkKey| pre.in_pending(k) implies self.in_pending(k) || k
                == key by {
                let i = choose|i: int|
                    0 <= i < pre.pending_seq().len() && (
                    #[trigger] pre.pending_seq()[i]).work_resolution_key == k;
                if i > 0 {
                    assert(pnew[i - 1].work_resolution_key == k);
                } else {
                    assert(k == key);
                }
            }
            // uniqueness of the new sequences
            assert forall|i: int, j: int|
                0 <= i < j < pnew.len() implies (#[trigger] pnew[i]).work_resolution_key != (
            #[trigger] pnew[j]).work_resolution_key by {
                assert(pnew[i] == pre.pending_seq()[i + 1] && pnew[j] == pre.pending_seq()[j + 1]);
            }
            assert forall|i: int, j: int|
                0 <= i < j < fnew.len() implies (#[trigger] fnew[i]).work_resolution_key != (
            #[trigger] fnew[j]).work_resolution_key by {
                if j < f0.len() {
                    assert(fnew[i] == pre.in_flight_seq()[i] && fnew[j] == pre.in_flight_seq()[j]);
                } else {
                    assert(fnew[i] == pre.in_flight_seq()[i]);
                    assert(pre.in_flight(fnew[i].work_resolution_key));
                    assert(!pre.in_flight(key));
                }
            }
            assert forall|i: int|
                0 <= i < pnew.len() implies (#[trigger] pnew[i]).consistent() && pnew[i].retry_count
                <= self.max_retries_spec() by {
                assert(pnew[i] == pre.pending_seq()[i + 1]);
            }
            assert forall|i: int|
                0 <= i < fnew.len() implies (#[trigger] fnew[i]).consistent() && fnew[i].retry_count
                <= self.max_retries_spec() by {
                if i < f0.len() {
                    assert(fnew[i] == pre.in_flight_seq()[i]);
                } else {
                    assert(fnew[i] == pre.pending_seq()[0]);
                }
            }
            assert forall|k: AssetsWorkKey| #[trigger] self.in_pending(k) implies !self.in_flight(k)
                && !self.is_resolved_spec(k) by {
                assert(pre.in_pending(k));
                if self.in_flight(k) {
                    assert(pre.in_flight(k) || k == key);
                    assert(pnew[choose|i: int|
                        0 <= i < pnew.len() && (#[trigger] pnew[i]).work_resolution_key
                            == k].work_resolution_key == k);
                    if k == key {
                        let i = choose|i: int|
                            0 <= i < pnew.len() && (#[trigger] pnew[i]).work_resolution_key == k;
                        assert(pre.pending_seq()[i + 1].work_resolution_key == key);
                        assert(pre.pending_seq()[0].work_resolution_key == key);
                    }
                }
            }
            assert forall|k: AssetsWorkKey| #[trigger] self.in_flight(k) implies !self.is_resolved_spec(
                k,
            ) by {
                assert(pre.in_flight(k) || k == key);
            }
            // dedup accounting
            assert forall|k: AssetsWorkKey| #[trigger] self.dispatches(k) == self.failures(k) + (
                if self.in_flight(k) || self.is_resolved_spec(k) {
                    1nat
                } else {
                    0nat
                }) by {
                if k == key {
                    assert(self.dispatches(k) == pre.dispatches(k) + 1);
                    assert(!(pre.in_flight(k) || pre.is_resolved_spec(k)));
                } else {
                    assert(self.dispatches(k) == pre.dispatches(k));
                    assert(self.in_flight(k) == pre.in_flight(k));
                }
            }
            // queued set is preserved
            assert forall|k: AssetsWorkKey| self.key_queued(k) == pre.key_queued(k) by {
                if pre.key_queued(k) {
                    if pre.in_pending(k) {
                        let i = choose|i: int|
                            0 <= i < pre.pending_seq().len() && (
                            #[trigger] pre.pending_seq()[i]).work_resolution_key == k;
                        if i > 0 {
                            assert(pnew[i - 1].work_resolution_key == k);
                        }
                    }
                }
            }
        }
        Some(out)
    }

    /// Record a success for `work_resolution_key`: move it to resolved
    /// and queue each produced work item whose key is still unseen.
    pub fn handle_work_completed(
        &mut self,
        work_resolution_key: AssetsWorkKey,
        new_work_items: Vec<AssetsWorkType>,
    )
        requires
            old(self).wf(),
            old(self).dedup_inv(),
        ensures
            final(self).wf(),
            final(self).dedup_inv(),
            final(self).has_failed() == old(self).has_failed(),
            final(self).max_retries_spec() == old(self).max_retries_spec(),
            forall|k: AssetsWorkKey| final(self).dispatches(k) == old(self).dispatches(k),
            forall|k: AssetsWorkKey| final(self).failures(k) == old(self).failures(k),
            !old(self).in_flight(work_resolution_key) ==> {
                &&& final(self).pending_seq() == old(self).pending_seq()
                &&& final(self).in_flight_seq() == old(self).in_flight_seq()
                &&& final(self).resolved_seq() == old(self).resolved_seq()
            },
            old(self).in_flight(work_resolution_key) ==> {
                &&& forall|k: AssetsWorkKey|
                    final(self).is_resolved_spec(k) <==> (old(self).is_resolved_spec(k) || k
                        == work_resolution_key)
                &&& forall|k: AssetsWorkKey|
                    final(self).in_flight(k) <==> (old(self).in_flight(k) && k
                        != work_resolution_key)
                &&& forall|k: AssetsWorkKey| #[trigger] old(self).in_pending(k) ==> final(self).in_pending(k)
                &&& forall|k: AssetsWorkKey|
                    #[trigger] final(self).in_pending(k) ==> old(self).in_pending(k)
                        || in_produced(new_work_items@, k)
                &&& forall|k: AssetsWorkKey|
                    #[trigger] old(self).key_queued(k) ==> final(self).key_queued(k) || k
                        == work_resolution_key
                &&& forall|j: int|
                    0 <= j < new_work_items@.len() ==> {
                        let k = spec_key_of((#[trigger] new_work_items@[j])@);
                        final(self).key_queued(k) || final(self).is_resolved_spec(k)
                    }
            },
    {
        let idx = match self.find_in_flight(work_resolution_key) {
            Some(i) => i,
            None => {
                return ;
            },
        };
        let ghost pre = *self;
        let _item = self.in_flight_work.remove(idx);
        self.resolved.push(work_resolution_key);
        let ghost mid = *self;
        proof {
            let f0 = pre.in_flight_seq();
            let fnew = mid.in_flight_seq();
            assert(fnew == f0.remove(idx as int));
            assert(f0[idx as int].work_resolution_key == work_resolution_key);
            assert(mid.resolved_seq() == pre.resolved_seq().push(work_resolution_key));
            assert(mid.resolved_seq()[mid.resolved_seq().len() - 1] == work_resolution_key);
            assert(mid.is_resolved_spec(work_resolution_key));
            assert forall|k: AssetsWorkKey| mid.is_resolved_spec(k) implies pre.is_resolved_spec(k)
                || k == work_resolution_key by {
                let i = choose|i: int|
                    0 <= i < mid.resolved_seq().len() && mid.resolved_seq()[i] == k;
                if i < pre.resolved_seq().len() {
                    assert(pre.resolved_seq()[i] == k);
                }
            }
            assert forall|k: AssetsWorkKey| pre.is_resolved_spec(k) implies mid.is_resolved_spec(
                k,
            ) by {
                let i = choose|i: int|
                    0 <= i < pre.resolved_seq().len() && pre.resolved_seq()[i] == k;
                assert(mid.resolved_seq()[i] == k);
            }
            assert forall|k: AssetsWorkKey| mid.in_flight(k) implies pre.in_flight(k) && k
                != work_resolution_key by {
                let i = choose|i: int|
                    0 <= i < fnew.len() && (#[trigger] fnew[i]).work_resolution_key == k;
                if i < idx {
                    assert(f0[i].work_resolution_key == k);
                } else {
                    assert(f0[i + 1].work_resolution_key == k);
                }
            }
            assert forall|k: AssetsWorkKey|
                pre.in_flight(k) && k != work_resolution_key implies mid.in_flight(k) by {
                let i = choose|i: int|
                    0 <= i < f0.len() && (#[trigger] f0[i]).work_resolution_key == k;
                if i < idx {
                    assert(fnew[i].work_resolution_key == k);
                } else {
                    assert(i != idx);
                    assert(fnew[i - 1].work_resolution_key == k);
                }
            }
            assert forall|i: int, j: int|
                0 <= i < j < fnew.len() implies (#[trigger] fnew[i]).work_resolution_key != (
            #[trigger] fnew[j]).work_resolution_key by {
                let i0 = if i < idx {
                    i
                } else {
                    i + 1
                };
                let j0 = if j < idx {
                    j
                } else {
                    j + 1
                };
                assert(fnew[i] == f0[i0] && fnew[j] == f0[j0]);
            }
            assert forall|i: int, j: int|
                0 <= i < j < mid.resolved_seq().len() implies (#[trigger] mid.resolved_seq()[i])
                != (#[trigger] mid.resolved_seq()[j]) by {
                if j < pre.resolved_seq().len() {
                } else {
                    assert(mid.resolved_seq()[i] == pre.resolved_seq()[i]);
                    assert(pre.is_resolved_spec(pre.resolved_seq()[i]));
                    assert(pre.in_flight(work_resolution_key));
                }
            }
            assert forall|i: int|
                0 <= i < fnew.len() implies (#[trigger] fnew[i]).consistent() && fnew[i].retry_count
                <= mid.max_retries_spec() by {
                let i0 = if i < idx {
                    i
                } else {
                    i + 1
                };
                assert(fnew[i] == f0[i0]);
            }
            assert forall|k: AssetsWorkKey| #[trigger] mid.in_pending(k) implies !mid.in_flight(k)
                && !mid.is_resolved_spec(k) by {
                assert(pre.in_pending(k));
                if mid.is_resolved_spec(k) {
                    assert(pre.is_resolved_spec(k) || k == work_resolution_key);
                    assert(pre.in_flight(work_resolution_key));
                }
            }
            assert forall|k: AssetsWorkKey| #[trigger] mid.in_flight(k) implies !mid.is_resolved_spec(
                k,
            ) by {
                assert(pre.in_flight(k) && k != work_resolution_key);
            }
            assert(mid.wf());
            assert forall|k: AssetsWorkKey| #[trigger] mid.dispatches(k) == mid.failures(k) + (
                if mid.in_flight(k) || mid.is_resolved_spec(k) {
                    1nat
                } else {
                    0nat
                }) by {
                assert(mid.dispatches(k) == pre.dispatches(k));
                assert(mid.failures(k) == pre.failures(k));
                assert(pre.dispatches(k) == pre.failures(k) + (
                if pre.in_flight(k) || pre.is_resolved_spec(k) {
                    1nat
                } else {
                    0nat
                }));
                if k == work_resolution_key {
                    assert(pre.in_flight(k));
                    assert(mid.is_resolved_spec(k));
                } else {
                    assert(mid.in_flight(k) == pre.in_flight(k)) by {
                        if pre.in_flight(k) {
                        }
                    }
                    assert(mid.is_resolved_spec(k) == pre.is_resolved_spec(k));
                }
            }
            assert(mid.dedup_inv());
        }
        // queue the produced work
        let m = new_work_items.len();
        let mut j: usize = 0;
        let mut rest = new_work_items;
        while j < m
            invariant
                self.wf(),
                self.dedup_inv(),
                self.has_failed() == mid.has_failed(),
                self.max_retries_spec() == mid.max_retries_spec(),
                self.resolved_seq() == mid.resolved_seq(),
                self.in_flight_seq() == mid.in_flight_seq(),
                m == new_work_items@.len(),
                m == rest@.len() + j,
                j <= m,
                forall|jj: int| 0 <= jj < rest@.len() ==> rest@[jj] == new_work_items@[jj + j],
                forall|k: AssetsWorkKey| #[trigger] mid.in_pending(k) ==> self.in_pending(k),
                self.pending_seq().len() >= mid.pending_seq().len(),
                forall|x: int|
                    0 <= x < mid.pending_seq().len() ==> #[trigger] self.pending_seq()[x]
                        == mid.pending_seq()[x],
                forall|x: int|
                    mid.pending_seq().len() <= x < self.pending_seq().len() ==> in_produced(
                        new_work_items@,
                        (#[trigger] self.pending_seq()[x]).work_resolution_key,
                    ),
                forall|jj: int|
                    0 <= jj < j ==> {
                        let k = spec_key_of((#[trigger] new_work_items@[jj])@);
                        self.key_queued(k) || self.is_resolved_spec(k)
                    },
                forall|k: AssetsWorkKey| self.dispatches(k) == mid.dispatches(k),
                forall|k: AssetsWorkKey| self.failures(k) == mid.failures(k),
            decreases m - j,
        {
            let ghost sp = *self;
            let wt = rest.remove(0);
            proof {
                assert(wt == new_work_items@[j as int]);
            }
            let item = WorkItem::new(wt);
            let ghost ikey = item.work_resolution_key;
            proof {
                assert(ikey == spec_key_of(new_work_items@[j as int]@));
            }
            self.enqueue(item);
            proof {
                assert forall|jj: int|
                    0 <= jj < j + 1 implies {
                    let k = spec_key_of((#[trigger] new_work_items@[jj])@);
                    self.key_queued(k) || self.is_resolved_spec(k)
                } by {
                    if jj < j {
                        let k = spec_key_of(new_work_items@[jj]@);
                        if sp.key_queued(k) {
                        }
                    }
                }
                assert forall|x: int|
                    mid.pending_seq().len() <= x < self.pending_seq().len() implies in_produced(
                    new_work_items@,
                    (#[trigger] self.pending_seq()[x]).work_resolution_key,
                ) by {
                    if x < sp.pending_seq().len() {
                        assert(self.pending_seq()[x] == sp.pending_seq()[x]);
                    } else {
                        assert(self.pending_seq()[x].work_resolution_key == ikey);
                        assert(spec_key_of((new_work_items@[j as int])@) == ikey);
                        assert(in_produced(new_work_items@, ikey));
                    }
                }
            }
            j = j + 1;
        }
        proof {
            assert(old(self).in_flight(work_resolution_key));
            assert(mid.pending_seq() == old(self).pending_seq());
            assert forall|k: AssetsWorkKey|
                #[trigger] self.in_pending(k) implies old(self).in_pending(k) || in_produced(
                new_work_items@,
                k,
            ) by {
                let i = choose|i: int|
                    0 <= i < self.pending_seq().len() && (
                    #[trigger] self.pending_seq()[i]).work_resolution_key == k;
                if i < mid.pending_seq().len() {
                    assert(self.pending_seq()[i] == mid.pending_seq()[i]);
                    assert(old(self).pending_seq()[i].work_resolution_key == k);
                } else {
                    assert(in_produced(new_work_items@, k));
                }
            }
            assert forall|k: AssetsWorkKey| #[trigger] old(self).in_pending(k) implies self.in_pending(
                k,
            ) by {
                assert(mid.in_pending(k));
            }
            assert forall|k: AssetsWorkKey|
                #[trigger] old(self).key_queued(k) implies self.key_queued(k) || k
                == work_resolution_key by {
                if old(self).in_pending(k) {
                    assert(mid.in_pending(k));
                } else {
                    if k != work_resolution_key {
                        assert(mid.in_flight(k));
                        assert(self.in_flight(k));
                    }
                }
            }
            assert forall|k: AssetsWorkKey|
                final(self).dispatches(k) == old(self).dispatches(k) by {
                assert(self.dispatches(k) == mid.dispatches(k));
                assert(mid.dispatches(k) == pre.dispatches(k));
            }
            assert forall|k: AssetsWorkKey| final(self).failures(k) == old(self).failures(k) by {
                assert(self.failures(k) == mid.failures(k));
                assert(mid.failures(k) == pre.failures(k));
            }
        }
    }

    /// Record a failure: the key returns to pending with its retry count
    /// bumped, unless the retries are exhausted, in which case the item
    /// is dropped and the saga is marked failed. Returns whether the
    /// item was re-queued.
    pub fn handle_work_failed(&mut self, work_resolution_key: AssetsWorkKey) -> (retried: bool)
        requires
            old(self).wf(),
            old(self).dedup_inv(),
        ensures
            final(self).wf(),
            final(self).dedup_inv(),
            final(self).resolved_seq() == old(self).resolved_seq(),
            final(self).max_retries_spec() == old(self).max_retries_spec(),
            forall|k: AssetsWorkKey| final(self).dispatches(k) == old(self).dispatches(k),
            !old(self).in_flight(work_resolution_key) ==> {
                &&& retried
                &&& final(self).pending_seq() == old(self).pending_seq()
                &&& final(self).in_flight_seq() == old(self).in_flight_seq()
                &&& final(self).has_failed() == old(self).has_failed()
                &&& forall|k: AssetsWorkKey| final(self).failures(k) == old(self).failures(k)
            },
            old(self).in_flight(work_resolution_key) ==> {
                &&& final(self).failures(work_resolution_key) == old(self).failures(
                    work_resolution_key,
                ) + 1
                &&& forall|k: AssetsWorkKey|
                    k != work_resolution_key ==> final(self).failures(k) == old(self).failures(k)
                &&& (retried <==> old(self).in_flight_item(work_resolution_key).retry_count + 1
                    < old(self).max_retries_spec())
                &&& (retried ==> {
                    let it = old(self).in_flight_item(work_resolution_key);
                    &&& final(self).pending_seq().len() == old(self).pending_seq().len() + 1
                    &&& (forall|j: int|
                        0 <= j < old(self).pending_seq().len() ==> final(self).pending_seq()[j]
                            == old(self).pending_seq()[j])
                    &&& final(self).pending_seq().last().work_type@ == it.work_type@
                    &&& final(self).pending_seq().last().work_resolution_key
                        == work_resolution_key
                    &&& final(self).pending_seq().last().retry_count == it.retry_count + 1
                })
                &&& (retried ==> (forall|k: AssetsWorkKey|
                    final(self).key_queued(k) == old(self).key_queued(k)) && final(self).has_failed()
                    == old(self).has_failed())
                &&& (!retried ==> final(self).has_failed() && !final(self).key_queued(
                    work_resolution_key,
                ) && (forall|k: AssetsWorkKey|
                    k != work_resolution_key ==> final(self).key_queued(k) == old(self).key_queued(
                        k,
                    )))
            },
    {
        let idx = match self.find_in_flight(work_resolution_key) {
            Some(i) => i,
            None => {
                return true;
            },
        };
        let ghost pre = *self;
        proof {
            pre.lemma_in_flight_item(work_resolution_key, idx as int);
        }
        let mut item = self.in_flight_work.remove(idx);
        self.fail_count = Ghost(
            self.fail_count@.insert(
                work_resolution_key,
                cnt(self.fail_count@, work_resolution_key) + 1,
            ),
        );
        let ghost mid = *self;
        proof {
            let f0 = pre.in_flight_seq();
            let fnew = mid.in_flight_seq();
            assert(fnew == f0.remove(idx as int));
            assert(f0[idx as int].work_resolution_key == work_resolution_key);
            assert forall|k: AssetsWorkKey| mid.in_flight(k) implies pre.in_flight(k) && k
                != work_resolution_key by {
                let i = choose|i: int|
                    0 <= i < fnew.len() && (#[trigger] fnew[i]).work_resolution_key == k;
                if i < idx {
                    assert(f0[i].work_resolution_key == k);
                } else {
                    assert(f0[i + 1].work_resolution_key == k);
                }
            }
            assert forall|k: AssetsWorkKey|
                pre.in_flight(k) && k != work_resolution_key implies mid.in_flight(k) by {
                let i = choose|i: int|
                    0 <= i < f0.len() && (#[trigger] f0[i]).work_resolution_key == k;
                if i < idx {
                    assert(fnew[i].work_resolution_key == k);
                } else {
                    assert(i != idx);
                    assert(fnew[i - 1].work_resolution_key == k);
                }
            }
            assert forall|i: int, j: int|
                0 <= i < j < fnew.len() implies (#[trigger] fnew[i]).work_resolution_key != (
            #[trigger] fnew[j]).work_resolution_key by {
                let i0 = if i < idx {
                    i
                } else {
                    i + 1
                };
                let j0 = if j < idx {
                    j
                } else {
                    j + 1
                };
                assert(fnew[i] == f0[i0] && fnew[j] == f0[j0]);
            }
            assert forall|i: int|
                0 <= i < fnew.len() implies (#[trigger] fnew[i]).consistent() && fnew[i].retry_count
                <= mid.max_retries_spec() by {
                let i0 = if i < idx {
                    i
                } else {
                    i + 1
                };
                assert(fnew[i] == f0[i0]);
            }
            assert(item == f0[idx as int]);
        }
        if ((item.retry_count as u64) + 1) < (self.max_retries as u64) {
            item = WorkItem {
                work_type: item.work_type,
                retry_count: item.retry_count + 1,
                work_resolution_key: item.work_resolution_key,
            };
            let ghost p0 = self.pending_seq();
            self.pending.push(item);
            proof {
                let pnew = self.pending_seq();
                assert(pnew == p0.push(item));
                assert(pnew[p0.len() as int].work_resolution_key == work_resolution_key);
                assert(self.in_pending(work_resolution_key));
                assert forall|k: AssetsWorkKey| self.in_pending(k) implies pre.in_pending(k) || k
                    == work_resolution_key by {
                    let i = choose|i: int|
                        0 <= i < pnew.len() && (#[trigger] pnew[i]).work_resolution_key == k;
                    if i < p0.len() {
                        assert(p0[i].work_resolution_key == k);
                    }
                }
                assert forall|k: AssetsWorkKey| pre.in_pending(k) implies self.in_pending(k) by {
                    let i = choose|i: int|
                        0 <= i < p0.len() && (#[trigger] p0[i]).work_resolution_key == k;
                    assert(pnew[i].work_resolution_key == k);
                }
                assert forall|i: int, j: int|
                    0 <= i < j < pnew.len() implies (#[trigger] pnew[i]).work_resolution_key != (
                #[trigger] pnew[j]).work_resolution_key by {
                    if j < p0.len() {
                        assert(pnew[i] == p0[i] && pnew[j] == p0[j]);
                    } else {
                        assert(pnew[i] == p0[i]);
                        assert(pre.in_pending(pnew[i].work_resolution_key));
                        assert(!pre.in_pending(work_resolution_key));
                    }
                }
                assert forall|i: int|
                    0 <= i < pnew.len() implies (#[trigger] pnew[i]).consistent()
                    && pnew[i].retry_count <= self.max_retries_spec() by {
                    if i < p0.len() {
                        assert(pnew[i] == p0[i]);
                    }
                }
                assert forall|k: AssetsWorkKey| #[trigger] self.in_pending(k) implies !self.in_flight(
                    k,
                ) && !self.is_resolved_spec(k) by {
                    if k == work_resolution_key {
                        assert(!mid.in_flight(k));
                        assert(pre.in_flight(k));
                    } else {
                        assert(pre.in_pending(k));
                    }
                }
                assert forall|k: AssetsWorkKey| #[trigger] self.in_flight(k)
                    implies !self.is_resolved_spec(k) by {
                    assert(pre.in_flight(k) && k != work_resolution_key);
                }
                assert forall|k: AssetsWorkKey| #[trigger] self.dispatches(k) == self.failures(k) + (
                    if self.in_flight(k) || self.is_resolved_spec(k) {
                        1nat
                    } else {
                        0nat
                    }) by {
                    assert(self.dispatches(k) == pre.dispatches(k));
                    assert(pre.dispatches(k) == pre.failures(k) + (
                    if pre.in_flight(k) || pre.is_resolved_spec(k) {
                        1nat
                    } else {
                        0nat
                    }));
                    if k == work_resolution_key {
                        assert(pre.in_flight(k));
                        assert(self.failures(k) == pre.failures(k) + 1);
                        assert(!self.in_flight(k)) by {
                            if self.in_flight(k) {
                                assert(mid.in_flight(k));
                            }
                        }
                        assert(!self.is_resolved_spec(k));
                    } else {
                        assert(self.failures(k) == pre.failures(k));
                        assert(self.in_flight(k) == pre.in_flight(k)) by {
                            if pre.in_flight(k) {
                                assert(mid.in_flight(k));
                            }
                            if self.in_flight(k) {
                                assert(mid.in_flight(k));
                            }
                        }
                        assert(self.is_resolved_spec(k) == pre.is_resolved_spec(k));
                    }
                }
                assert forall|k: AssetsWorkKey| self.key_queued(k) == pre.key_queued(k) by {
                    if k == work_resolution_key {
                        assert(self.in_pending(k));
                        assert(pre.in_flight(k));
                    }
                }
            }
            true
        } else {
            self.failed = true;
            proof {
                assert forall|k: AssetsWorkKey| #[trigger] self.dispatches(k) == self.failures(k) + (
                    if self.in_flight(k) || self.is_resolved_spec(k) {
                        1nat
                    } else {
                        0nat
                    }) by {
                    assert(self.dispatches(k) == pre.dispatches(k));
                    assert(pre.dispatches(k) == pre.failures(k) + (
                    if pre.in_flight(k) || pre.is_resolved_spec(k) {
                        1nat
                    } else {
                        0nat
                    }));
                    if k == work_resolution_key {
                        assert(pre.in_flight(k));
                        assert(self.failures(k) == pre.failures(k) + 1);
                        assert(!self.in_flight(k)) by {
                            if self.in_flight(k) {
                                assert(mid.in_flight(k));
                            }
                        }
                        assert(!self.is_resolved_spec(k));
                    } else {
                        assert(self.failures(k) == pre.failures(k));
                        assert(self.in_flight(k) == pre.in_flight(k)) by {
                            if pre.in_flight(k) {
                                assert(mid.in_flight(k));
                            }
                            if self.in_flight(k) {
                                assert(mid.in_flight(k));
                            }
                        }
                        assert(self.is_resolved_spec(k) == pre.is_resolved_spec(k));
                    }
                }
                assert forall|k: AssetsWorkKey| #[trigger] self.in_pending(k) implies !self.in_flight(
                    k,
                ) && !self.is_resolved_spec(k) by {
                    assert(pre.in_pending(k));
                }
                assert forall|k: AssetsWorkKey| #[trigger] self.in_flight(k)
                    implies !self.is_resolved_spec(k) by {
                    assert(pre.in_flight(k) && k != work_resolution_key);
                }
                assert(!self.key_queued(work_resolution_key)) by {
                    if self.in_pending(work_resolution_key) {
                        assert(pre.in_pending(work_resolution_key));
                    }
                }
                assert forall|k: AssetsWorkKey|
                    k != work_resolution_key implies self.key_queued(k) == pre.key_queued(k) by {}
            }
            false
        }
    }
}

/// Dedup law: for any finite stream of results, the total number of
/// dispatches of a resolved work key is one more than the number of its
/// transient failures that were retried.
pub proof fn lemma_dispatch_dedup(s: &Saga, k: AssetsWorkKey)
    requires
        s.dedup_inv(),
        s.is_resolved_spec(k),
    ensures
        s.dispatches(k) == s.failures(k) + 1,
{
}

} // verus!
