//! Bounded queues of blocked threads.
use vstd::prelude::*;
use crate::thread::MAX_THREADS;

verus! {

/// Threads one queue can hold.
pub const QCAP: usize = 8;

/// The threads parked on one condition, in order of arrival.
#[derive(Clone, Copy)]
pub struct WaitQ {
    pub q: [usize; QCAP],
    pub n: usize,
}

/// What a queue holds after `tid` asks to park on it: full queues and threads
/// already parked leave it alone.
pub open spec fn q_push(s: Seq<usize>, tid: usize) -> Seq<usize> {
    if s.len() < QCAP && !s.contains(tid) {
        s.push(tid)
    } else {
        s
    }
}

/// What a queue holds after `tid` leaves it: the last thread takes its place.
pub open spec fn q_remove(s: Seq<usize>, tid: usize) -> Seq<usize> {
    if s.contains(tid) {
        s.update(s.index_of(tid), s.last()).drop_last()
    } else {
        s
    }
}

impl WaitQ {
    /// The parked threads.
    pub open spec fn view(&self) -> Seq<usize> {
        self.q@.subrange(0, self.n as int)
    }

    /// At most `QCAP` threads that exist, each at most once.
    pub open spec fn wf(&self) -> bool {
        &&& self.n <= QCAP
        &&& self@.no_duplicates()
        &&& forall|i: int| 0 <= i < self@.len() ==> #[trigger] self@[i] < MAX_THREADS
    }

    /// An empty queue.
    pub fn new() -> (w: Self)
        ensures
            w.wf(),
            w@ == Seq::<usize>::empty(),
    {
        let w = WaitQ { q: [0usize; QCAP], n: 0 };
        assert(w@ =~= Seq::<usize>::empty());
        w
    }

    /// Position of `tid` in the queue.
    fn position(&self, tid: usize) -> (r: Option<usize>)
        requires
            self.wf(),
        ensures
            match r {
                Some(p) => p < self.n && self@[p as int] == tid,
                None => !self@.contains(tid),
            },
    {
        let mut i: usize = 0;
        while i < self.n
            invariant
                self.wf(),
                i <= self.n,
                forall|k: int| 0 <= k < i ==> self@[k] != tid,
            decreases self.n - i,
        {
            if self.q[i] == tid {
                return Some(i);
            }
            i += 1;
        }
        None
    }

    /// Park `tid`.
    pub fn push(&mut self, tid: usize)
        requires
            old(self).wf(),
            tid < MAX_THREADS,
        ensures
            final(self).wf(),
            final(self)@ == q_push(old(self)@, tid),
    {
        let present = self.position(tid).is_some();
        if self.n < QCAP && !present {
            self.q[self.n] = tid;
            self.n += 1;
            assert(self@ =~= old(self)@.push(tid));
        }
    }

    /// Empty the queue into the front of `out`; returns how many threads to wake.
    pub fn drain(&mut self, out: &mut [usize; QCAP]) -> (n: usize)
        requires
            old(self).wf(),
        ensures
            final(self).wf(),
            final(self)@ == Seq::<usize>::empty(),
            n == old(self)@.len(),
            n <= QCAP,
            final(out)@.subrange(0, n as int) == old(self)@,
    {
        let n: usize = self.n;
        let mut i: usize = 0;
        while i < n
            invariant
                *self == *old(self),
                self.wf(),
                n == self.n,
                i <= n,
                forall|k: int| 0 <= k < i ==> out@[k] == self@[k],
            decreases n - i,
        {
            out[i] = self.q[i];
            i += 1;
        }
        self.n = 0;
        assert(self@ =~= Seq::<usize>::empty());
        assert(out@.subrange(0, n as int) =~= old(self)@);
        n
    }

    /// Remove `tid` if it is parked.
    pub fn remove(&mut self, tid: usize)
        requires
            old(self).wf(),
        ensures
            final(self).wf(),
            final(self)@ == q_remove(old(self)@, tid),
    {
        if let Some(p) = self.position(tid) {
            proof {
                assert(self@.contains(tid));
                let k = self@.index_of(tid);
                assert(self@[k] == tid && 0 <= k < self@.len());
                assert(k == p);
            }
            self.n -= 1;
            self.q[p] = self.q[self.n];
            assert(self@ =~= old(self)@.update(p as int, old(self)@.last()).drop_last());
        }
    }
}

/// A thread that leaves a queue is no longer on it, and no other thread leaves with it.
pub proof fn law_remove_is_exact(s: Seq<usize>, tid: usize, other: usize)
    requires
        s.no_duplicates(),
        other != tid,
    ensures
        !q_remove(s, tid).contains(tid),
        q_remove(s, tid).contains(other) == s.contains(other),
{
    if s.contains(tid) {
        let k = s.index_of(tid);
        assert(s[k] == tid && 0 <= k < s.len());
        let r = q_remove(s, tid);
        let last = s.len() - 1;
        assert forall|i: int| 0 <= i < r.len() implies r[i] != tid by {
            if i == k {
                assert(s[last] != s[k]);
            }
        }
        if s.contains(other) {
            let j = s.index_of(other);
            assert(s[j] == other && 0 <= j < s.len());
            if j == last {
                assert(r[k] == other);
            } else {
                assert(r[j] == other);
            }
        }
        if r.contains(other) {
            let j = r.index_of(other);
            assert(r[j] == other && 0 <= j < r.len());
            if j == k {
                assert(s[last] == other);
            } else {
                assert(s[j] == other);
            }
        }
    }
}

} // verus!
