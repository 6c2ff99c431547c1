//! A fixed-capacity ring buffer: the storage behind pipes, channels and terminals.
use vstd::prelude::*;

verus! {

/// Elements `head .. head + len` (wrapping) of `buf` are live, oldest first.
pub struct Ring<T> {
    pub buf: Vec<T>,
    pub head: usize,
    pub len: usize,
}

/// The smaller of two counts.
pub open spec fn min_of(a: nat, b: nat) -> nat {
    if a <= b {
        a
    } else {
        b
    }
}

/// Where the `i`-th live element of a ring of `cap` slots with read position `head` sits.
pub open spec fn ring_slot(head: int, i: int, cap: int) -> int {
    if head + i < cap {
        head + i
    } else {
        head + i - cap
    }
}

/// `dst` with its first `src.len()` elements replaced by `src`.
pub open spec fn overlay<T>(dst: Seq<T>, src: Seq<T>) -> Seq<T> {
    src + dst.subrange(src.len() as int, dst.len() as int)
}

impl<T> Ring<T> {
    /// Slots in the ring.
    pub open spec fn cap(&self) -> nat {
        self.buf@.len()
    }

    /// The ring's bookkeeping is in range.
    pub open spec fn wf(&self) -> bool {
        &&& 0 < self.cap() <= 0x1000_0000
        &&& self.head < self.cap()
        &&& self.len <= self.cap()
    }

    /// The live elements, oldest first.
    pub open spec fn view(&self) -> Seq<T> {
        Seq::new(
            self.len as nat,
            |i: int| self.buf@[ring_slot(self.head as int, i, self.buf@.len() as int)],
        )
    }
}

impl<T: Copy> Ring<T> {
    /// An empty ring of `cap` slots.
    pub fn new(cap: usize, fill: T) -> (r: Self)
        requires
            0 < cap <= 0x1000_0000,
        ensures
            r.wf(),
            r.cap() == cap,
            r@ == Seq::<T>::empty(),
    {
        let mut buf: Vec<T> = Vec::new();
        let mut i: usize = 0;
        while i < cap
            invariant
                i <= cap,
                buf@.len() == i,
            decreases cap - i,
        {
            buf.push(fill);
            i += 1;
        }
        let r = Ring { buf, head: 0, len: 0 };
        assert(r@ =~= Seq::<T>::empty());
        r
    }

    /// Forget every live element; the storage is left as it is.
    pub fn clear(&mut self)
        requires
            old(self).wf(),
        ensures
            final(self).wf(),
            final(self).cap() == old(self).cap(),
            final(self)@ == Seq::<T>::empty(),
    {
        self.head = 0;
        self.len = 0;
        assert(self@ =~= Seq::<T>::empty());
    }

    /// Append one element to a ring that is not full.
    pub fn push(&mut self, x: T)
        requires
            old(self).wf(),
            old(self)@.len() < old(self).cap(),
        ensures
            final(self).wf(),
            final(self).cap() == old(self).cap(),
            final(self)@ == old(self)@.push(x),
    {
        let cap: usize = self.buf.len();
        let pos: usize = if self.head + self.len < cap {
            self.head + self.len
        } else {
            self.head + self.len - cap
        };
        self.buf[pos] = x;
        self.len += 1;
        assert(self@ =~= old(self)@.push(x));
    }

    /// Remove and return the oldest element of a ring that is not empty.
    pub fn pop(&mut self) -> (x: T)
        requires
            old(self).wf(),
            old(self)@.len() > 0,
        ensures
            final(self).wf(),
            final(self).cap() == old(self).cap(),
            x == old(self)@[0],
            final(self)@ == old(self)@.subrange(1, old(self)@.len() as int),
    {
        let cap: usize = self.buf.len();
        let x: T = self.buf[self.head];
        self.head = if self.head + 1 < cap {
            self.head + 1
        } else {
            0
        };
        self.len -= 1;
        assert(self@ =~= old(self)@.subrange(1, old(self)@.len() as int));
        x
    }

    /// Append as much of `src` as fits; returns how much that was.
    pub fn write_from(&mut self, src: &[T]) -> (n: usize)
        requires
            old(self).wf(),
        ensures
            final(self).wf(),
            final(self).cap() == old(self).cap(),
            n == min_of(src@.len(), (old(self).cap() - old(self)@.len()) as nat),
            final(self)@ == old(self)@ + src@.subrange(0, n as int),
    {
        let space: usize = self.buf.len() - self.len;
        let n: usize = if src.len() <= space {
            src.len()
        } else {
            space
        };
        let mut i: usize = 0;
        assert(self@ =~= old(self)@ + src@.subrange(0, 0));
        while i < n
            invariant
                i <= n,
                n <= src@.len(),
                self.wf(),
                self.cap() == old(self).cap(),
                n <= old(self).cap() - old(self)@.len(),
                self@ == old(self)@ + src@.subrange(0, i as int),
            decreases n - i,
        {
            self.push(src[i]);
            i += 1;
            assert(self@ =~= old(self)@ + src@.subrange(0, i as int));
        }
        n
    }

    /// Move as many elements as fit into the front of `out`; returns how many.
    pub fn read_into(&mut self, out: &mut [T]) -> (n: usize)
        requires
            old(self).wf(),
        ensures
            final(self).wf(),
            final(self).cap() == old(self).cap(),
            n == min_of(old(out)@.len(), old(self)@.len()),
            final(out)@ == overlay(old(out)@, old(self)@.subrange(0, n as int)),
            final(self)@ == old(self)@.subrange(n as int, old(self)@.len() as int),
    {
        let n: usize = if out.len() <= self.len {
            out.len()
        } else {
            self.len
        };
        let mut i: usize = 0;
        assert(out@ =~= overlay(old(out)@, old(self)@.subrange(0, 0)));
        assert(self@ =~= old(self)@.subrange(0, old(self)@.len() as int));
        while i < n
            invariant
                i <= n,
                n <= old(out)@.len(),
                n <= old(self)@.len(),
                self.wf(),
                self.cap() == old(self).cap(),
                out@ == overlay(old(out)@, old(self)@.subrange(0, i as int)),
                self@ == old(self)@.subrange(i as int, old(self)@.len() as int),
            decreases n - i,
        {
            let x: T = self.pop();
            out[i] = x;
            i += 1;
            assert(out@ =~= overlay(old(out)@, old(self)@.subrange(0, i as int)));
            assert(self@ =~= old(self)@.subrange(i as int, old(self)@.len() as int));
        }
        n
    }
}

} // verus!
