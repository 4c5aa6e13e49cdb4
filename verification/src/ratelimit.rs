//! Ring-bucketed sliding-window rate limiter.
//!
//! A window of length `interval` (nanoseconds) is split into `SLOT_COUNT`
//! buckets of width `interval / SLOT_COUNT`; the ring keeps one extra
//! sentinel slot. `can_hit_at` admits a request when the hits recorded in
//! buckets still covering the window stay below `limit`, and otherwise
//! returns how long to wait. A group admits only when every member admits;
//! nothing is recorded on a deferral.

use vstd::prelude::*;

use crate::ring::RingBuffer;

verus! {

/// Number of time buckets per window.
pub const SLOT_COUNT: usize = 20;

/// Upper bound on times and intervals (nanoseconds), so that sums of a
/// few of them never overflow `u64`.
pub const MAX_TIME: u64 = 0x1000_0000_0000_0000;

/// One time bucket: its start time and how many hits fell into it.
#[derive(Clone, Copy, PartialEq, Eq, Structural, Debug)]
pub struct Slot {
    pub from: u64,
    pub hits: u64,
}

/// Start of the bucket containing time `at`.
pub open spec fn spec_slot_of(at: int, slot_size: u64) -> int {
    at - (at % (slot_size as int))
}

/// Does the bucket starting at `sl.from` still overlap the window that
/// ends at bucket start `cutoff`?
pub open spec fn in_window(sl: Slot, interval: u64, cutoff: int) -> bool {
    sl.from + interval >= cutoff
}

/// Total hits recorded in buckets that still cover the window.
pub open spec fn window_hits(s: Seq<Slot>, interval: u64, cutoff: int) -> int
    decreases s.len(),
{
    if s.len() == 0 {
        0
    } else {
        window_hits(s.drop_last(), interval, cutoff) + if in_window(
            s.last(),
            interval,
            cutoff,
        ) {
            s.last().hits as int
        } else {
            0
        }
    }
}

/// Total hits of buckets strictly newer than the bucket starting at `from`.
pub open spec fn hits_newer_than(s: Seq<Slot>, from: int) -> int
    decreases s.len(),
{
    if s.len() == 0 {
        0
    } else {
        hits_newer_than(s.drop_last(), from) + if s.last().from > from {
            s.last().hits as int
        } else {
            0
        }
    }
}

/// The admission scan, newest bucket first: accumulate hits of buckets
/// still in the window; once `limit` is reached, the wait until the
/// blocking bucket has aged out of the window is returned.
pub open spec fn scan_wait(
    s: Seq<Slot>,
    interval: u64,
    slot_size: u64,
    limit: u64,
    at: u64,
    acc: int,
) -> Option<int>
    decreases s.len(),
{
    if s.len() == 0 {
        None
    } else {
        let sl = s.last();
        if sl.from + interval < spec_slot_of(at as int, slot_size) {
            None
        } else if acc + sl.hits >= limit {
            Some(sl.from + interval + slot_size - at)
        } else {
            scan_wait(s.drop_last(), interval, slot_size, limit, at, acc + sl.hits)
        }
    }
}

/// Increment that sticks at `u64::MAX` instead of wrapping.
pub open spec fn sat_inc(h: u64) -> u64 {
    if h == u64::MAX {
        h
    } else {
        (h + 1) as u64
    }
}

/// How recording a hit in the bucket starting at `slot_from` changes the
/// slot sequence: top up the newest bucket if it is the same bucket, else
/// append a fresh one, evicting the oldest when the ring is full.
pub open spec fn spec_record(s: Seq<Slot>, cap: nat, slot_from: u64) -> Seq<Slot> {
    if s.len() > 0 && s.last().from == slot_from {
        s.update(s.len() - 1, Slot { from: slot_from, hits: sat_inc(s.last().hits) })
    } else if s.len() < cap {
        s.push(Slot { from: slot_from, hits: 1 })
    } else {
        s.subrange(1, s.len() as int).push(Slot { from: slot_from, hits: 1 })
    }
}

pub open spec fn slots_sorted(s: Seq<Slot>) -> bool {
    forall|i: int, j: int| 0 <= i < j < s.len() ==> s[i].from < s[j].from
}

pub open spec fn slots_aligned(s: Seq<Slot>, slot_size: u64) -> bool {
    forall|i: int| 0 <= i < s.len() ==> #[trigger] s[i].from % slot_size == 0
}

pub open spec fn slots_bounded(s: Seq<Slot>) -> bool {
    forall|i: int| 0 <= i < s.len() ==> #[trigger] s[i].from <= MAX_TIME
}

/// One sliding window.
pub struct Ratelimit {
    data: RingBuffer<Slot>,
    interval: u64,
    slot_size: u64,
    limit: u64,
}

impl Ratelimit {
    pub closed spec fn contents(&self) -> Seq<Slot> {
        self.data.contents()
    }

    pub closed spec fn interval(&self) -> u64 {
        self.interval
    }

    pub closed spec fn slot_size(&self) -> u64 {
        self.slot_size
    }

    pub closed spec fn limit(&self) -> u64 {
        self.limit
    }

    pub closed spec fn wf(&self) -> bool {
        &&& self.data.wf()
        &&& self.data.capacity() == SLOT_COUNT + 1
        &&& self.slot_size == self.interval / (SLOT_COUNT as u64)
        &&& self.slot_size >= 1
        &&& self.interval <= MAX_TIME
        &&& self.limit >= 1
        &&& slots_sorted(self.data.contents())
        &&& slots_aligned(self.data.contents(), self.slot_size)
        &&& slots_bounded(self.data.contents())
    }

    /// The newest recorded bucket does not start after the bucket of `at`:
    /// hits are recorded with non-decreasing timestamps.
    pub open spec fn ready_at(&self, at: u64) -> bool {
        self.contents().len() > 0 ==> self.contents().last().from <= spec_slot_of(
            at as int,
            self.slot_size(),
        )
    }

    /// What a well-formed limiter guarantees its callers, since `wf` is
    /// closed: the retained buckets are strictly ordered, aligned and
    /// bounded in time, the limit is at least one, and the bucket width
    /// is the window split into `SLOT_COUNT` parts.
    pub proof fn lemma_wf_exposes(&self)
        requires
            self.wf(),
        ensures
            slots_sorted(self.contents()),
            slots_aligned(self.contents(), self.slot_size()),
            slots_bounded(self.contents()),
            self.limit() >= 1,
            self.slot_size() == self.interval() / (SLOT_COUNT as u64),
            self.slot_size() >= 1,
            self.interval() <= MAX_TIME,
    {
    }

    pub fn new(interval: u64, limit: u64) -> (r: Ratelimit)
        requires
            SLOT_COUNT <= interval <= MAX_TIME,
            limit >= 1,
        ensures
            r.wf(),
            r.contents() == Seq::<Slot>::empty(),
            r.interval() == interval,
            r.limit() == limit,
            r.slot_size() == interval / (SLOT_COUNT as u64),
    {
        let slot_size = interval / (SLOT_COUNT as u64);
        Ratelimit {
            interval,
            slot_size,
            data: RingBuffer::with_capacity(SLOT_COUNT + 1),
            limit,
        }
    }

    /// `None`: a hit at `at` is admitted (the window still has room).
    /// `Some(w)`: defer; retrying at `at + w` will find the blocking
    /// bucket aged out of the window.
    pub fn can_hit_at(&self, at: u64) -> (r: Option<u64>)
        requires
            self.wf(),
            at <= MAX_TIME,
        ensures
            match r {
                Some(w) => scan_wait(
                    self.contents(),
                    self.interval(),
                    self.slot_size(),
                    self.limit(),
                    at,
                    0,
                ) == Some(w as int),
                None => scan_wait(
                    self.contents(),
                    self.interval(),
                    self.slot_size(),
                    self.limit(),
                    at,
                    0,
                ) is None,
            },
            r is None <==> window_hits(
                self.contents(),
                self.interval(),
                spec_slot_of(at as int, self.slot_size()),
            ) < self.limit(),
    {
        proof {
            assert(at % self.slot_size <= at) by (nonlinear_arith)
                requires
                    self.slot_size >= 1,
            ;
        }
        let cutoff = at - at % self.slot_size;
        let n = self.data.len();
        let ghost s = self.contents();
        proof {
            assert(s.subrange(0, n as int) =~= s);
        }
        let ghost full_scan = scan_wait(
            self.contents(),
            self.interval(),
            self.slot_size(),
            self.limit(),
            at,
            0,
        );
        let mut acc: u128 = 0;
        let mut k: usize = 0;
        let mut result: Option<u64> = None;
        while k < n
            invariant_except_break
                self.wf(),
                at <= MAX_TIME,
                cutoff == spec_slot_of(at as int, self.slot_size()),
                s == self.contents(),
                full_scan == scan_wait(s, self.interval(), self.slot_size(), self.limit(), at, 0),
                n == s.len(),
                k <= n,
                result is None,
                acc < self.limit(),
                full_scan == scan_wait(
                    s.subrange(0, n - k),
                    self.interval(),
                    self.slot_size(),
                    self.limit(),
                    at,
                    acc as int,
                ),
            ensures
                match result {
                    Some(w) => full_scan == Some(w as int),
                    None => full_scan is None,
                },
            decreases n - k,
        {
            let slot = *self.data.get(n - 1 - k);
            proof {
                assert(s.subrange(0, n - k).last() == s[n - 1 - k]);
                assert(slot.from <= MAX_TIME && self.interval <= MAX_TIME);
            }
            if slot.from + self.interval < cutoff {
                break ;
            }
            if acc + (slot.hits as u128) >= (self.limit as u128) {
                let w = slot.from + self.interval + self.slot_size - at;
                result = Some(w);
                break ;
            }
            proof {
                assert(s.subrange(0, n - k).drop_last() =~= s.subrange(0, n - (k + 1)));
            }
            acc = acc + (slot.hits as u128);
            k = k + 1;
            proof {
                if k == n {
                    assert(s.subrange(0, 0) =~= Seq::<Slot>::empty());
                }
            }
        }
        proof {
            lemma_scan_none_iff(
                self.contents(),
                self.interval(),
                self.slot_size(),
                self.limit(),
                at,
                0,
            );
        }
        result
    }

    /// Record one hit at time `at` (admission is the caller's business).
    pub fn hit_at(&mut self, at: u64)
        requires
            old(self).wf(),
            at <= MAX_TIME,
            old(self).ready_at(at),
        ensures
            final(self).wf(),
            final(self).interval() == old(self).interval(),
            final(self).slot_size() == old(self).slot_size(),
            final(self).limit() == old(self).limit(),
            final(self).contents() == spec_record(
                old(self).contents(),
                (SLOT_COUNT + 1) as nat,
                (at - at % old(self).slot_size()) as u64,
            ),
            final(self).ready_at(at),
    {
        proof {
            assert(at % self.slot_size <= at) by (nonlinear_arith)
                requires
                    self.slot_size >= 1,
            ;
            lemma_mod_aligned(at, self.slot_size);
        }
        let slot_from = at - at % self.slot_size;
        let ghost s = self.contents();
        let ghost ss = self.slot_size;
        let is_same = match self.data.last() {
            Some(v) => v.from == slot_from,
            None => false,
        };
        if is_same {
            let last = *self.data.last().unwrap();
            let new_hits = if last.hits == u64::MAX {
                last.hits
            } else {
                last.hits + 1
            };
            let sl = Slot { from: slot_from, hits: new_hits };
            self.data.set_last(sl);
            proof {
                lemma_sorted_update_last(s, sl);
                let sn = self.contents();
                assert(sn == s.update(s.len() - 1, sl));
                assert forall|i: int| 0 <= i < sn.len() implies #[trigger] sn[i].from % ss == 0 by {
                    if i < sn.len() - 1 {
                        assert(sn[i] == s[i]);
                    }
                }
                assert forall|i: int| 0 <= i < sn.len() implies #[trigger] sn[i].from
                    <= MAX_TIME by {
                    if i < sn.len() - 1 {
                        assert(sn[i] == s[i]);
                    }
                }
            }
        } else {
            let sl = Slot { from: slot_from, hits: 1 };
            self.data.push(sl);
            proof {
                if s.len() < SLOT_COUNT + 1 {
                    lemma_sorted_push(s, sl);
                    let sn = self.contents();
                    assert(sn == s.push(sl));
                    assert forall|i: int| 0 <= i < sn.len() implies #[trigger] sn[i].from % ss
                        == 0 by {
                        if i < sn.len() - 1 {
                            assert(sn[i] == s[i]);
                        }
                    }
                    assert forall|i: int| 0 <= i < sn.len() implies #[trigger] sn[i].from
                        <= MAX_TIME by {
                        if i < sn.len() - 1 {
                            assert(sn[i] == s[i]);
                        }
                    }
                } else {
                    old(self).data.lemma_len_le_cap();
                    lemma_sorted_evict_push(s, sl);
                    let sn = self.contents();
                    let d = s.subrange(1, s.len() as int);
                    assert(sn == d.push(sl));
                    assert forall|i: int| 0 <= i < sn.len() implies #[trigger] sn[i].from % ss
                        == 0 by {
                        if i < sn.len() - 1 {
                            assert(sn[i] == s[i + 1]);
                        }
                    }
                    assert forall|i: int| 0 <= i < sn.len() implies #[trigger] sn[i].from
                        <= MAX_TIME by {
                        if i < sn.len() - 1 {
                            assert(sn[i] == s[i + 1]);
                        }
                    }
                }
            }
        }
    }
}

/// Hits are never negative.
/// The quantization slack of the bucketed window: the hits the admission
/// check counts at time `at` lie between the hits of the exact window
/// reaching back `interval`, and those of the window stretched one
/// bucket (`interval / SLOT_COUNT`) further back. The check never misses
/// a hit of the true window and over-counts at most one bucket of extra
/// history.
pub proof fn lemma_window_slack(s: Seq<Slot>, interval: u64, slot_size: u64, at: u64)
    requires
        slot_size >= 1,
    ensures
        hits_newer_than(s, at - interval) <= window_hits(
            s,
            interval,
            spec_slot_of(at as int, slot_size),
        ),
        window_hits(s, interval, spec_slot_of(at as int, slot_size)) <= hits_newer_than(
            s,
            at - interval - slot_size,
        ),
    decreases s.len(),
{
    if s.len() > 0 {
        lemma_window_slack(s.drop_last(), interval, slot_size, at);
        let c = spec_slot_of(at as int, slot_size);
        let sl = s.last();
        assert(0 <= (at as int) % (slot_size as int) < slot_size) by (nonlinear_arith)
            requires
                slot_size >= 1,
        ;
        if sl.from > at - interval {
            assert(in_window(sl, interval, c));
        }
        if in_window(sl, interval, c) {
            assert(sl.from > at - interval - slot_size);
        }
    }
}

pub proof fn lemma_window_hits_nonneg(s: Seq<Slot>, interval: u64, cutoff: int)
    ensures
        window_hits(s, interval, cutoff) >= 0,
    decreases s.len(),
{
    if s.len() > 0 {
        lemma_window_hits_nonneg(s.drop_last(), interval, cutoff);
    }
}

/// In a sorted slot sequence whose newest bucket is already out of the
/// window, every bucket is out, so the window holds no hits.
proof fn lemma_window_all_out(s: Seq<Slot>, interval: u64, cutoff: int)
    requires
        slots_sorted(s),
        s.len() > 0 ==> !in_window(s.last(), interval, cutoff),
    ensures
        window_hits(s, interval, cutoff) == 0,
    decreases s.len(),
{
    if s.len() > 0 {
        assert(slots_sorted(s.drop_last()));
        if s.len() > 1 {
            assert(s.drop_last().last() == s[s.len() - 2]);
            assert(s[s.len() - 2].from < s.last().from);
        }
        lemma_window_all_out(s.drop_last(), interval, cutoff);
    }
}

/// The scan admits exactly when the hits still inside the window are
/// below the limit.
pub proof fn lemma_scan_none_iff(
    s: Seq<Slot>,
    interval: u64,
    slot_size: u64,
    limit: u64,
    at: u64,
    acc: int,
)
    requires
        slots_sorted(s),
        0 <= acc < limit,
    ensures
        scan_wait(s, interval, slot_size, limit, at, acc) is None <==> acc + window_hits(
            s,
            interval,
            spec_slot_of(at as int, slot_size),
        ) < limit,
    decreases s.len(),
{
    let cutoff = spec_slot_of(at as int, slot_size);
    if s.len() == 0 {
    } else {
        let sl = s.last();
        assert(slots_sorted(s.drop_last()));
        if sl.from + interval < cutoff {
            lemma_window_all_out(s, interval, cutoff);
        } else if acc + sl.hits >= limit {
            lemma_window_hits_nonneg(s.drop_last(), interval, cutoff);
        } else {
            lemma_scan_none_iff(s.drop_last(), interval, slot_size, limit, at, acc + sl.hits);
        }
    }
}

/// Bucket starts are multiples of the bucket width.
proof fn lemma_mod_aligned(at: u64, slot_size: u64)
    requires
        slot_size >= 1,
    ensures
        ((at as int) - (at as int) % (slot_size as int)) % (slot_size as int) == 0,
        (at as int) - (at as int) % (slot_size as int) == spec_slot_of(at as int, slot_size),
{
    let a = at as int;
    let s = slot_size as int;
    let q = a / s;
    assert(a - a % s == q * s) by (nonlinear_arith)
        requires
            s >= 1,
            q == a / s,
            a >= 0,
    ;
    assert((q * s) % s == 0) by (nonlinear_arith)
        requires
            s >= 1,
    ;
}

proof fn lemma_sorted_update_last(s: Seq<Slot>, sl: Slot)
    requires
        slots_sorted(s),
        s.len() > 0,
        sl.from == s.last().from,
    ensures
        slots_sorted(s.update(s.len() - 1, sl)),
{
}

proof fn lemma_sorted_push(s: Seq<Slot>, sl: Slot)
    requires
        slots_sorted(s),
        s.len() > 0 ==> s.last().from < sl.from,
    ensures
        slots_sorted(s.push(sl)),
{
    let t = s.push(sl);
    assert forall|i: int, j: int| 0 <= i < j < t.len() implies t[i].from < t[j].from by {
        if j == t.len() - 1 {
            if s.len() > 0 && i < s.len() - 1 {
                assert(s[i].from < s[s.len() - 1].from);
            }
        }
    }
}

proof fn lemma_sorted_evict_push(s: Seq<Slot>, sl: Slot)
    requires
        slots_sorted(s),
        s.len() > 0,
        s.last().from < sl.from,
    ensures
        slots_sorted(s.subrange(1, s.len() as int).push(sl)),
{
    let d = s.subrange(1, s.len() as int);
    assert(slots_sorted(d));
    if d.len() > 0 {
        assert(d.last() == s.last());
    }
    lemma_sorted_push(d, sl);
}

/// As time moves on, a fixed slot sequence only loses hits from the
/// window: the admitted count over any later window is no larger.
pub proof fn lemma_window_monotone_time(s: Seq<Slot>, interval: u64, c1: int, c2: int)
    requires
        c1 <= c2,
    ensures
        window_hits(s, interval, c2) <= window_hits(s, interval, c1),
    decreases s.len(),
{
    if s.len() > 0 {
        lemma_window_monotone_time(s.drop_last(), interval, c1, c2);
    }
}

/// Replacing the newest slot replaces only its own contribution.
proof fn lemma_window_update_last(s: Seq<Slot>, sl: Slot, interval: u64, cutoff: int)
    requires
        s.len() > 0,
    ensures
        window_hits(s.update(s.len() - 1, sl), interval, cutoff) == window_hits(
            s.drop_last(),
            interval,
            cutoff,
        ) + if in_window(sl, interval, cutoff) {
            sl.hits as int
        } else {
            0
        },
{
    let u = s.update(s.len() - 1, sl);
    assert(u.drop_last() =~= s.drop_last());
    assert(u.last() == sl);
}

proof fn lemma_window_push(s: Seq<Slot>, sl: Slot, interval: u64, cutoff: int)
    ensures
        window_hits(s.push(sl), interval, cutoff) == window_hits(s, interval, cutoff) + if in_window(
            sl,
            interval,
            cutoff,
        ) {
            sl.hits as int
        } else {
            0
        },
{
    let u = s.push(sl);
    assert(u.drop_last() =~= s);
    assert(u.last() == sl);
}

/// The window total splits off the oldest slot's contribution.
proof fn lemma_window_drop_first(s: Seq<Slot>, interval: u64, cutoff: int)
    requires
        s.len() > 0,
    ensures
        window_hits(s, interval, cutoff) == window_hits(
            s.subrange(1, s.len() as int),
            interval,
            cutoff,
        ) + if in_window(s[0], interval, cutoff) {
            s[0].hits as int
        } else {
            0
        },
    decreases s.len(),
{
    let d = s.subrange(1, s.len() as int);
    if s.len() == 1 {
        assert(d =~= Seq::<Slot>::empty());
        assert(s.drop_last() =~= Seq::<Slot>::empty());
        assert(s.last() == s[0]);
    } else {
        lemma_window_drop_first(s.drop_last(), interval, cutoff);
        assert(s.drop_last().subrange(1, s.drop_last().len() as int) =~= d.drop_last());
        assert(s.drop_last()[0] == s[0]);
        assert(d.last() == s.last());
    }
}

/// Limiter tight-bound: recording one admitted hit raises the hits seen
/// in the current window by at most one, so a window whose total was
/// below the limit stays at or below it. Bucket eviction only removes
/// contributions and can never raise the total.
pub proof fn lemma_record_window_bound(
    s: Seq<Slot>,
    cap: nat,
    slot_from: u64,
    interval: u64,
    cutoff: int,
    limit: u64,
)
    requires
        cap >= 1,
        window_hits(s, interval, cutoff) < limit,
    ensures
        window_hits(spec_record(s, cap, slot_from), interval, cutoff) <= limit,
{
    let n = spec_record(s, cap, slot_from);
    if s.len() > 0 && s.last().from == slot_from {
        let sl = Slot { from: slot_from, hits: sat_inc(s.last().hits) };
        lemma_window_update_last(s, sl, interval, cutoff);
        assert(window_hits(s, interval, cutoff) == window_hits(s.drop_last(), interval, cutoff)
            + if in_window(s.last(), interval, cutoff) {
            s.last().hits as int
        } else {
            0
        });
    } else if s.len() < cap {
        lemma_window_push(s, Slot { from: slot_from, hits: 1 }, interval, cutoff);
    } else {
        let d = s.subrange(1, s.len() as int);
        lemma_window_drop_first(s, interval, cutoff);
        lemma_window_push(d, Slot { from: slot_from, hits: 1 }, interval, cutoff);
    }
}

/// In a sorted sequence whose newest slot starts at or before `from`,
/// no slot is strictly newer than `from`.
proof fn lemma_hits_newer_all_out(s: Seq<Slot>, from: int)
    requires
        slots_sorted(s),
        s.len() > 0 ==> s.last().from <= from,
    ensures
        hits_newer_than(s, from) == 0,
    decreases s.len(),
{
    if s.len() > 0 {
        assert(slots_sorted(s.drop_last()));
        if s.len() > 1 {
            assert(s.drop_last().last() == s[s.len() - 2]);
            assert(s[s.len() - 2].from < s.last().from);
        }
        lemma_hits_newer_all_out(s.drop_last(), from);
    }
}

/// Slots still inside a window that ends past `from + interval` are all
/// strictly newer than `from`.
proof fn lemma_window_le_newer(s: Seq<Slot>, interval: u64, cutoff: int, from: int)
    requires
        cutoff > from + interval,
    ensures
        window_hits(s, interval, cutoff) <= hits_newer_than(s, from),
    decreases s.len(),
{
    if s.len() > 0 {
        lemma_window_le_newer(s.drop_last(), interval, cutoff, from);
    }
}

/// When the scan defers with wait `w`, the blocking bucket starts at
/// `w + at - interval - slot_size`, and the buckets newer than it hold
/// fewer than `limit` hits beyond the accumulator.
proof fn lemma_scan_some_boundary(
    s: Seq<Slot>,
    interval: u64,
    slot_size: u64,
    limit: u64,
    at: u64,
    acc: int,
    w: int,
)
    requires
        slots_sorted(s),
        0 <= acc < limit,
        scan_wait(s, interval, slot_size, limit, at, acc) == Some(w),
    ensures
        exists|j: int| 0 <= j < s.len() && #[trigger] s[j].from == w + at - interval - slot_size,
        acc + hits_newer_than(s, w + at - interval - slot_size) < limit,
    decreases s.len(),
{
    let f = w + at - interval - slot_size;
    let sl = s.last();
    assert(slots_sorted(s.drop_last()));
    if !(sl.from + interval < spec_slot_of(at as int, slot_size)) && acc + sl.hits >= limit {
        assert(sl.from == f);
        assert(s[s.len() - 1].from == f);
        lemma_hits_newer_all_out(s, f);
    } else {
        lemma_scan_some_boundary(s.drop_last(), interval, slot_size, limit, at, acc + sl.hits, w);
        let j = choose|j: int|
            0 <= j < s.drop_last().len() && #[trigger] s.drop_last()[j].from == f;
        assert(s[j].from == f);
        assert(sl.from > f);
    }
}

/// Limiter progress: when `can_hit_at` defers with wait `w`, then at time
/// `at + w` the same recorded state admits: the blocking bucket and
/// everything older has aged out of the window, and what remains is
/// below the limit. A lone requester that sleeps the returned wait is
/// therefore admitted on its retry.
pub proof fn lemma_deferred_wait_suffices(
    s: Seq<Slot>,
    interval: u64,
    slot_size: u64,
    limit: u64,
    at: u64,
    w: int,
)
    requires
        slots_sorted(s),
        slots_aligned(s, slot_size),
        slot_size >= 1,
        limit >= 1,
        scan_wait(s, interval, slot_size, limit, at, 0) == Some(w),
    ensures
        window_hits(s, interval, spec_slot_of(at + w, slot_size)) < limit,
{
    let f = w + at - interval - slot_size;
    lemma_scan_some_boundary(s, interval, slot_size, limit, at, 0, w);
    let j = choose|j: int| 0 <= j < s.len() && #[trigger] s[j].from == f;
    assert(s[j].from % slot_size == 0);
    assert(f >= 0);
    let ss = slot_size as int;
    let q = f / ss;
    assert(f == q * ss) by (nonlinear_arith)
        requires
            ss >= 1,
            f >= 0,
            f % ss == 0,
            q == f / ss,
    ;
    let x = at + w;
    let iv = interval as int;
    assert(x == f + iv + ss);
    assert(q * ss == ss * q);
    vstd::arithmetic::div_mod::lemma_mod_multiples_vanish(q, iv + ss, ss);
    vstd::arithmetic::div_mod::lemma_mod_multiples_vanish(1, iv, ss);
    assert(ss * 1 + iv == ss + iv);
    assert((f + iv + ss) % ss == iv % ss);
    assert(spec_slot_of(x, slot_size) == f + iv + ss - (iv % ss));
    assert(iv % ss < ss);
    assert(spec_slot_of(x, slot_size) > f + interval);
    lemma_window_le_newer(s, interval, spec_slot_of(x, slot_size), f);
}

/// Any wait the scan returns is at most `w`.
pub open spec fn wait_at_most(o: Option<int>, w: int) -> bool {
    match o {
        Some(v) => v <= w,
        None => true,
    }
}

/// A group of sliding windows; a request is admitted only when every
/// window admits, and a deferred request records nothing.
pub struct RatelimitGroup {
    ratelimits: Vec<Ratelimit>,
}

impl RatelimitGroup {
    pub closed spec fn members(&self) -> Seq<Ratelimit> {
        self.ratelimits@
    }

    pub open spec fn wf(&self) -> bool {
        forall|i: int| 0 <= i < self.members().len() ==> #[trigger] self.members()[i].wf()
    }

    pub open spec fn ready_at(&self, at: u64) -> bool {
        forall|i: int| 0 <= i < self.members().len() ==> #[trigger] self.members()[i].ready_at(at)
    }

    /// Every member window still has room at time `at`.
    pub open spec fn admits(&self, at: u64) -> bool {
        forall|i: int|
            0 <= i < self.members().len() ==> scan_wait(
                (#[trigger] self.members()[i]).contents(),
                self.members()[i].interval(),
                self.members()[i].slot_size(),
                self.members()[i].limit(),
                at,
                0,
            ) is None
    }

    pub fn new(data: Vec<Ratelimit>) -> (r: RatelimitGroup)
        ensures
            r.members() == data@,
    {
        RatelimitGroup { ratelimits: data }
    }

    /// Try to take one hit at time `at` across all windows. `None`: every
    /// window admitted and the hit was recorded in each. `Some(w)`: at
    /// least one window is full; `w` is the longest of the waits the full
    /// windows asked for, and nothing was recorded anywhere.
    pub fn hit_at(&mut self, at: u64) -> (r: Option<u64>)
        requires
            old(self).wf(),
            at <= MAX_TIME,
            old(self).ready_at(at),
        ensures
            final(self).wf(),
            final(self).ready_at(at),
            final(self).members().len() == old(self).members().len(),
            r is None <==> old(self).admits(at),
            (r is None ==> forall|i: int|
                0 <= i < old(self).members().len() ==> {
                    let m = #[trigger] old(self).members()[i];
                    let m2 = final(self).members()[i];
                    &&& m2.contents() == spec_record(
                        m.contents(),
                        (SLOT_COUNT + 1) as nat,
                        ((at as int) - (at as int) % (m.slot_size() as int)) as u64,
                    )
                    &&& m2.interval() == m.interval()
                    &&& m2.slot_size() == m.slot_size()
                    &&& m2.limit() == m.limit()
                }),
            r is Some ==> final(self).members() == old(self).members(),
            r matches Some(w) ==> exists|i: int|
                0 <= i < old(self).members().len() && scan_wait(
                    (#[trigger] old(self).members()[i]).contents(),
                    old(self).members()[i].interval(),
                    old(self).members()[i].slot_size(),
                    old(self).members()[i].limit(),
                    at,
                    0,
                ) == Some(w as int),
            r matches Some(w) ==> forall|i: int|
                0 <= i < old(self).members().len() ==> wait_at_most(
                    scan_wait(
                        (#[trigger] old(self).members()[i]).contents(),
                        old(self).members()[i].interval(),
                        old(self).members()[i].slot_size(),
                        old(self).members()[i].limit(),
                        at,
                        0,
                    ),
                    w as int,
                ),
    {
        let n = self.ratelimits.len();
        let mut worst: Option<u64> = None;
        let mut i: usize = 0;
        while i < n
            invariant
                self.wf(),
                at <= MAX_TIME,
                self == old(self),
                n == self.members().len(),
                i <= n,
                worst is None <==> forall|k: int|
                    0 <= k < i ==> scan_wait(
                        (#[trigger] self.members()[k]).contents(),
                        self.members()[k].interval(),
                        self.members()[k].slot_size(),
                        self.members()[k].limit(),
                        at,
                        0,
                    ) is None,
                worst matches Some(w) ==> exists|k: int|
                    0 <= k < i && scan_wait(
                        (#[trigger] self.members()[k]).contents(),
                        self.members()[k].interval(),
                        self.members()[k].slot_size(),
                        self.members()[k].limit(),
                        at,
                        0,
                    ) == Some(w as int),
                worst matches Some(w) ==> forall|k: int|
                    0 <= k < i ==> wait_at_most(
                        scan_wait(
                            (#[trigger] self.members()[k]).contents(),
                            self.members()[k].interval(),
                            self.members()[k].slot_size(),
                            self.members()[k].limit(),
                            at,
                            0,
                        ),
                        w as int,
                    ),
            decreases n - i,
        {
            let rl = &self.ratelimits[i];
            let res = rl.can_hit_at(at);
            match res {
                Some(w) => {
                    worst = match worst {
                        Some(prev) => if w > prev {
                            Some(w)
                        } else {
                            Some(prev)
                        },
                        None => Some(w),
                    };
                }
                None => {}
            }
            i = i + 1;
        }
        if worst.is_none() {
            let ghost before = self.members();
            let mut j: usize = 0;
            while j < n
                invariant
                    at <= MAX_TIME,
                    n == self.members().len(),
                    n == before.len(),
                    j <= n,
                    forall|k: int| j <= k < n ==> #[trigger] self.members()[k] == before[k],
                    forall|k: int| 0 <= k < n ==> (#[trigger] before[k]).wf(),
                    forall|k: int| 0 <= k < n ==> (#[trigger] before[k]).ready_at(at),
                    forall|k: int| 0 <= k < j ==> (#[trigger] self.members()[k]).wf(),
                    forall|k: int| 0 <= k < j ==> (#[trigger] self.members()[k]).ready_at(at),
                    forall|k: int|
                        0 <= k < j ==> (#[trigger] self.members()[k]).contents() == spec_record(
                            before[k].contents(),
                            (SLOT_COUNT + 1) as nat,
                            ((at as int) - (at as int) % (before[k].slot_size() as int)) as u64,
                        ),
                    forall|k: int|
                        0 <= k < j ==> (#[trigger] self.members()[k]).interval()
                            == before[k].interval(),
                    forall|k: int|
                        0 <= k < j ==> (#[trigger] self.members()[k]).slot_size()
                            == before[k].slot_size(),
                    forall|k: int|
                        0 <= k < j ==> (#[trigger] self.members()[k]).limit() == before[k].limit(),
                decreases n - j,
            {
                let ghost cur = self.members();
                let mut rl = self.ratelimits.remove(j);
                proof {
                    assert(rl == before[j as int]);
                    assert(rl.slot_size() >= 1);
                    assert((at % rl.slot_size()) <= at) by (nonlinear_arith)
                        requires
                            rl.slot_size() >= 1,
                    ;
                }
                rl.hit_at(at);
                self.ratelimits.insert(j, rl);
                proof {
                    assert(self.members() =~= cur.update(j as int, rl));
                    assert(self.members()[j as int] == rl);
                    assert(rl.wf());
                    assert(rl.ready_at(at));
                    assert(rl.interval() == before[j as int].interval());
                    assert(rl.contents() == spec_record(
                        before[j as int].contents(),
                        (SLOT_COUNT + 1) as nat,
                        ((at as int) - (at as int) % (before[j as int].slot_size() as int)) as u64,
                    ));
                }
                j = j + 1;
            }
        }
        worst
    }
}

} // verus!
