//! Insertion-ordered association table with `i64` keys and unique-key
//! invariant. The abstraction is `spec_get` (last binding wins; with
//! unique keys, the binding), together with the raw entry sequence for
//! iteration.

use vstd::prelude::*;

verus! {

/// The binding of `k` in an entry sequence, scanning newest first.
pub open spec fn spec_get_in<V>(s: Seq<(i64, V)>, k: i64) -> Option<V>
    decreases s.len(),
{
    if s.len() == 0 {
        None
    } else if s.last().0 == k {
        Some(s.last().1)
    } else {
        spec_get_in(s.drop_last(), k)
    }
}

pub struct Table<V> {
    entries: Vec<(i64, V)>,
}

impl<V> Table<V> {
    /// Entries in insertion order.
    pub closed spec fn entries_seq(&self) -> Seq<(i64, V)> {
        self.entries@
    }

    pub open spec fn spec_get(&self, k: i64) -> Option<V> {
        spec_get_in(self.entries_seq(), k)
    }

    pub open spec fn contains_key(&self, k: i64) -> bool {
        self.spec_get(k) is Some
    }

    pub open spec fn spec_len(&self) -> nat {
        self.entries_seq().len()
    }

    /// Keys are unique.
    pub open spec fn wf(&self) -> bool {
        forall|i: int, j: int|
            0 <= i < j < self.entries_seq().len() ==> (#[trigger] self.entries_seq()[i]).0 != (
            #[trigger] self.entries_seq()[j]).0
    }

    pub fn new() -> (r: Table<V>)
        ensures
            r.wf(),
            r.entries_seq() == Seq::<(i64, V)>::empty(),
            forall|k: i64| r.spec_get(k) is None,
    {
        let t = Table { entries: Vec::new() };
        proof {
            assert(forall|k: i64| t.spec_get(k) is None);
        }
        t
    }

    /// Build a table from an entry list with unique keys.
    pub fn from_entries(entries: Vec<(i64, V)>) -> (r: Table<V>)
        requires
            forall|i: int, j: int|
                0 <= i < j < entries@.len() ==> (#[trigger] entries@[i]).0 != (
                #[trigger] entries@[j]).0,
        ensures
            r.wf(),
            r.entries_seq() == entries@,
    {
        Table { entries }
    }

    pub fn len(&self) -> (r: usize)
        ensures
            r == self.spec_len(),
    {
        self.entries.len()
    }

    /// Entry at position `i`, for iteration.
    pub fn at(&self, i: usize) -> (r: &(i64, V))
        requires
            i < self.spec_len(),
        ensures
            *r == self.entries_seq()[i as int],
    {
        &self.entries[i]
    }

    pub fn get(&self, k: i64) -> (r: Option<&V>)
        ensures
            match r {
                Some(v) => self.spec_get(k) == Some(*v),
                None => self.spec_get(k) is None,
            },
    {
        let ghost s = self.entries_seq();
        let n = self.entries.len();
        let mut i: usize = n;
        proof {
            assert(s.subrange(0, n as int) =~= s);
        }
        while i > 0
            invariant
                s == self.entries_seq(),
                n == s.len(),
                i <= n,
                spec_get_in(s, k) == spec_get_in(s.subrange(0, i as int), k),
            decreases i,
        {
            let e = &self.entries[i - 1];
            if e.0 == k {
                proof {
                    assert(s.subrange(0, i as int).last() == s[i - 1]);
                }
                return Some(&e.1);
            }
            proof {
                assert(s.subrange(0, i as int).last() == s[i - 1]);
                assert(s.subrange(0, i as int).drop_last() =~= s.subrange(0, i - 1));
            }
            i = i - 1;
        }
        proof {
            assert(s.subrange(0, 0) =~= Seq::<(i64, V)>::empty());
        }
        None
    }

    pub fn contains(&self, k: i64) -> (r: bool)
        ensures
            r == self.contains_key(k),
    {
        self.get(k).is_some()
    }

    /// Insert or overwrite the binding of `k`.
    pub fn insert(&mut self, k: i64, v: V)
        requires
            old(self).wf(),
        ensures
            final(self).wf(),
            final(self).spec_get(k) == Some(v),
            forall|k2: i64| k2 != k ==> final(self).spec_get(k2) == old(self).spec_get(k2),
            old(self).contains_key(k) ==> final(self).spec_len() == old(self).spec_len(),
            !old(self).contains_key(k) ==> {
                &&& final(self).spec_len() == old(self).spec_len() + 1
                &&& final(self).entries_seq() == old(self).entries_seq().push((k, v))
            },
            old(self).contains_key(k) ==> exists|i: int|
                0 <= i < old(self).entries_seq().len() && (#[trigger] old(self).entries_seq()[i]).0
                    == k && final(self).entries_seq() == old(self).entries_seq().update(i, (k, v)),
    {
        let ghost s = self.entries_seq();
        let n = self.entries.len();
        let mut i: usize = 0;
        while i < n
            invariant
                old(self) == self,
                old(self).wf(),
                s == old(self).entries_seq(),
                s == self.entries_seq(),
                n == s.len(),
                i <= n,
                forall|j: int| 0 <= j < i ==> (#[trigger] s[j]).0 != k,
            decreases n - i,
        {
            if self.entries[i].0 == k {
                self.entries.set(i, (k, v));
                proof {
                    let t = self.entries_seq();
                    assert(t == s.update(i as int, (k, v)));
                    assert forall|p: int, q: int|
                        0 <= p < q < s.len() implies (#[trigger] s[p]).0 != (#[trigger] s[q]).0 by {
                        assert(old(self).entries_seq()[p] == s[p]);
                        assert(old(self).entries_seq()[q] == s[q]);
                    }
                    lemma_entry_get(s, i as int);
                    assert forall|p: int, q: int|
                        0 <= p < q < t.len() implies (#[trigger] t[p]).0 != (
                    #[trigger] t[q]).0 by {
                        assert(t[p].0 == s[p].0 && t[q].0 == s[q].0);
                    }
                    lemma_get_update(s, i as int, k, v);
                    assert forall|k2: i64| k2 != k implies spec_get_in(t, k2) == spec_get_in(
                        s,
                        k2,
                    ) by {
                        lemma_get_update_other(s, i as int, k, v, k2);
                    }
                    assert(s[i as int].0 == k);
                    assert(0 <= i < s.len() && s[i as int].0 == k && t == s.update(
                        i as int,
                        (k, v),
                    ));
                }
                return ;
            }
            i = i + 1;
        }
        self.entries.push((k, v));
        proof {
            let t = self.entries_seq();
            assert(t == s.push((k, v)));
            assert(t.drop_last() =~= s);
            assert forall|k2: i64| k2 != k implies spec_get_in(t, k2) == spec_get_in(s, k2) by {
                assert(t.last().0 == k);
            }
            if spec_get_in(s, k) is Some {
                lemma_get_some_index(s, k);
            }
        }
    }
}

/// After updating position `i` (which holds key `k`'s slot) to `(k, v)`,
/// looking up `k` finds `v`, provided keys are unique.
proof fn lemma_get_update<V>(s: Seq<(i64, V)>, i: int, k: i64, v: V)
    requires
        0 <= i < s.len(),
        forall|p: int, q: int| 0 <= p < q < s.len() ==> (#[trigger] s[p]).0 != (#[trigger] s[q]).0,
        s[i].0 == k,
    ensures
        spec_get_in(s.update(i, (k, v)), k) == Some(v),
    decreases s.len(),
{
    let t = s.update(i, (k, v));
    if i == s.len() - 1 {
        assert(t.last() == (k, v));
    } else {
        assert(t.last() == s.last());
        assert(s.last().0 != k);
        assert(t.drop_last() =~= s.drop_last().update(i, (k, v)));
        lemma_get_update(s.drop_last(), i, k, v);
    }
}

/// Updating the binding of `k` leaves other keys' bindings unchanged.
proof fn lemma_get_update_other<V>(s: Seq<(i64, V)>, i: int, k: i64, v: V, k2: i64)
    requires
        0 <= i < s.len(),
        s[i].0 == k,
        k2 != k,
    ensures
        spec_get_in(s.update(i, (k, v)), k2) == spec_get_in(s, k2),
    decreases s.len(),
{
    let t = s.update(i, (k, v));
    if i == s.len() - 1 {
        assert(t.last() == (k, v));
        assert(t.drop_last() =~= s.drop_last());
    } else {
        assert(t.last() == s.last());
        if s.last().0 != k2 {
            assert(t.drop_last() =~= s.drop_last().update(i, (k, v)));
            lemma_get_update_other(s.drop_last(), i, k, v, k2);
        }
    }
}

/// If a key is bound, some entry holds it.
pub proof fn lemma_get_some_index<V>(s: Seq<(i64, V)>, k: i64)
    requires
        spec_get_in(s, k) is Some,
    ensures
        exists|i: int|
            0 <= i < s.len() && (#[trigger] s[i]).0 == k && s[i].1 == spec_get_in(s, k).unwrap(),
    decreases s.len(),
{
    if s.len() > 0 {
        if s.last().0 == k {
            assert(s[s.len() - 1].0 == k);
        } else {
            lemma_get_some_index(s.drop_last(), k);
            let i = choose|i: int|
                0 <= i < s.drop_last().len() && (#[trigger] s.drop_last()[i]).0 == k
                    && s.drop_last()[i].1 == spec_get_in(s.drop_last(), k).unwrap();
            assert(s[i] == s.drop_last()[i]);
        }
    }
}

/// Every entry's key is bound (to its value, when keys are unique).
pub proof fn lemma_entry_get<V>(s: Seq<(i64, V)>, i: int)
    requires
        0 <= i < s.len(),
        forall|p: int, q: int| 0 <= p < q < s.len() ==> (#[trigger] s[p]).0 != (#[trigger] s[q]).0,
    ensures
        spec_get_in(s, s[i].0) == Some(s[i].1),
    decreases s.len(),
{
    if i == s.len() - 1 {
    } else {
        assert(s.last().0 != s[i].0);
        assert(s.drop_last()[i] == s[i]);
        lemma_entry_get(s.drop_last(), i);
    }
}

} // verus!
