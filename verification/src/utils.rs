//! Small utilities: a fixed-size ring buffer.
use vstd::prelude::*;

verus! {

/// A fixed-size ring buffer: pushes overwrite the oldest entry once the
/// buffer has gone around.
#[derive(Debug, Clone)]
pub struct RingBuffer<T: Clone>(pub Vec<T>, pub usize);

impl<T: Clone> RingBuffer<T> {
    /// The write position is inside the buffer, or zero when empty.
    pub open spec fn wf(&self) -> bool {
        if self.0@.len() == 0 {
            self.1 == 0
        } else {
            self.1 < self.0@.len()
        }
    }

    /// A buffer of `size` slots, each holding a copy of `value`.
    pub fn new_fill(size: usize, value: T) -> (r: RingBuffer<T>)
        ensures
            r.0@.len() == size,
            r.1 == 0,
            r.wf(),
    {
        let mut v: Vec<T> = Vec::new();
        let mut i: usize = 0;
        while i < size
            invariant
                i <= size,
                v@.len() == i,
            decreases size - i,
        {
            v.push(value.clone());
            i = i + 1;
        }
        RingBuffer(v, 0)
    }

    /// Overwrite the oldest slot with `item`, advancing the write
    /// position cyclically.
    pub fn push(&mut self, item: T)
        requires
            old(self).0@.len() > 0,
            old(self).wf(),
        ensures
            final(self).0@ == old(self).0@.update(old(self).1 as int, item),
            final(self).1 == if old(self).1 + 1 == old(self).0@.len() {
                0usize
            } else {
                (old(self).1 + 1) as usize
            },
            final(self).wf(),
    {
        let pos: usize = self.1;
        self.0.set(pos, item);
        let l: usize = self.0.len();
        proof {
            assert(self.1 < l);
        }
        self.1 = self.1 + 1;
        if self.1 == l {
            self.1 = 0;
        }
    }

    /// The buffer's entries, oldest first.
    pub fn iter(&self) -> (r: Vec<T>) where T: Copy
        requires
            self.wf(),
        ensures
            r@ == self.0@.skip(self.1 as int) + self.0@.take(self.1 as int),
    {
        let mut r: Vec<T> = Vec::new();
        let mut i: usize = self.1;
        while i < self.0.len()
            invariant
                self.1 <= i <= self.0@.len(),
                r@ =~= self.0@.subrange(self.1 as int, i as int),
            decreases self.0@.len() - i,
        {
            r.push(self.0[i]);
            assert(r@ =~= self.0@.subrange(self.1 as int, i + 1));
            i = i + 1;
        }
        let mut j: usize = 0;
        while j < self.1
            invariant
                j <= self.1,
                self.wf(),
                r@ =~= self.0@.skip(self.1 as int) + self.0@.subrange(0, j as int),
            decreases self.1 - j,
        {
            r.push(self.0[j]);
            assert(r@ =~= self.0@.skip(self.1 as int) + self.0@.subrange(0, j + 1));
            j = j + 1;
        }
        proof {
            assert(r@ =~= self.0@.skip(self.1 as int) + self.0@.take(self.1 as int));
        }
        r
    }

    /// The number of slots.
    pub fn len(&self) -> (r: usize)
        ensures
            r == self.0@.len(),
    {
        self.0.len()
    }
}

} // verus!
