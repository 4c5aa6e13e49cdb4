//! Fixed-capacity circular buffer. Once full, a push evicts the oldest
//! element. `contents()` is the abstract sequence, oldest first.

use vstd::prelude::*;

verus! {

pub struct RingBuffer<T> {
    data: Vec<T>,
    end: usize,
    cap: usize,
}

impl<T> RingBuffer<T> {
    /// Abstract contents, oldest element first.
    pub closed spec fn contents(&self) -> Seq<T> {
        if self.data@.len() < self.cap {
            self.data@
        } else {
            self.data@.subrange(self.end as int, self.data@.len() as int)
                + self.data@.subrange(0, self.end as int)
        }
    }

    pub closed spec fn capacity(&self) -> nat {
        self.cap as nat
    }

    pub closed spec fn wf(&self) -> bool {
        &&& self.cap > 0
        &&& self.data@.len() <= self.cap
        &&& (self.data@.len() < self.cap ==> self.end == 0)
        &&& self.end < self.cap
    }

    pub proof fn lemma_len_le_cap(&self)
        requires
            self.wf(),
        ensures
            self.contents().len() <= self.capacity(),
    {
    }

    pub fn with_capacity(cap: usize) -> (r: RingBuffer<T>)
        requires
            cap > 0,
        ensures
            r.wf(),
            r.capacity() == cap,
            r.contents() == Seq::<T>::empty(),
    {
        RingBuffer { data: Vec::new(), end: 0, cap }
    }

    pub fn len(&self) -> (r: usize)
        requires
            self.wf(),
        ensures
            r == self.contents().len(),
    {
        self.data.len()
    }

    /// Append `value`; if the buffer is full, the oldest element is dropped.
    pub fn push(&mut self, value: T)
        requires
            old(self).wf(),
        ensures
            final(self).wf(),
            final(self).capacity() == old(self).capacity(),
            old(self).contents().len() < old(self).capacity() ==> final(self).contents() == old(
                self,
            ).contents().push(value),
            old(self).contents().len() == old(self).capacity() ==> final(self).contents() == old(
                self,
            ).contents().subrange(1, old(self).contents().len() as int).push(value),
    {
        let cap = self.cap;
        if self.data.len() == cap {
            self.data.set(self.end, value);
            self.end = if self.end + 1 == cap {
                0
            } else {
                self.end + 1
            };
            proof {
                assert(final(self).contents() =~= old(self).contents().subrange(
                    1,
                    old(self).contents().len() as int,
                ).push(value));
            }
        } else {
            self.data.push(value);
            proof {
                assert(final(self).contents() =~= old(self).contents().push(value));
            }
        }
    }

    /// Element at position `i` of the abstract contents (0 is the oldest).
    pub fn get(&self, i: usize) -> (r: &T)
        requires
            self.wf(),
            i < self.contents().len(),
        ensures
            *r == self.contents()[i as int],
    {
        if self.data.len() < self.cap {
            &self.data[i]
        } else {
            let j = if i < self.cap - self.end {
                self.end + i
            } else {
                i - (self.cap - self.end)
            };
            &self.data[j]
        }
    }

    /// The newest element, if any.
    pub fn last(&self) -> (r: Option<&T>)
        requires
            self.wf(),
        ensures
            match r {
                Some(v) => self.contents().len() > 0 && *v == self.contents().last(),
                None => self.contents().len() == 0,
            },
    {
        let len = self.data.len();
        if len == 0 {
            None
        } else if len < self.cap {
            Some(&self.data[len - 1])
        } else {
            let j = if self.end == 0 {
                len - 1
            } else {
                self.end - 1
            };
            Some(&self.data[j])
        }
    }

    /// Replace the newest element; a no-op on an empty buffer.
    pub fn set_last(&mut self, value: T)
        requires
            old(self).wf(),
        ensures
            final(self).wf(),
            final(self).capacity() == old(self).capacity(),
            old(self).contents().len() > 0 ==> final(self).contents() == old(
                self,
            ).contents().update(old(self).contents().len() - 1, value),
            old(self).contents().len() == 0 ==> final(self).contents() == old(self).contents(),
    {
        let len = self.data.len();
        if len == 0 {
            return ;
        }
        let j = if len < self.cap {
            len - 1
        } else if self.end == 0 {
            len - 1
        } else {
            self.end - 1
        };
        self.data.set(j, value);
        proof {
            if old(self).contents().len() > 0 {
                assert(final(self).contents() =~= old(self).contents().update(
                    old(self).contents().len() - 1,
                    value,
                ));
            }
        }
    }

    /// All elements, newest first, as references.
    pub fn iter(&self) -> (r: Vec<&T>)
        requires
            self.wf(),
        ensures
            r@.len() == self.contents().len(),
            forall|i: int|
                0 <= i < r@.len() ==> *r@[i] == self.contents()[self.contents().len() - 1 - i],
    {
        let mut out: Vec<&T> = Vec::new();
        let len = self.data.len();
        let mut k: usize = 0;
        while k < len
            invariant
                self.wf(),
                len == self.contents().len(),
                k <= len,
                out@.len() == k,
                forall|i: int|
                    0 <= i < k ==> *out@[i] == self.contents()[self.contents().len() - 1 - i],
            decreases len - k,
        {
            let v = self.get(len - 1 - k);
            out.push(v);
            k = k + 1;
        }
        out
    }
}

} // verus!
