//! Kernel byte pipes: bounded FIFO buffers with blocked readers and writers.
use vstd::prelude::*;
use crate::ring;
use crate::ring::Ring;
use crate::thread::MAX_THREADS;
use crate::waitq;
use crate::waitq::{WaitQ, QCAP};

verus! {

/// Pipes in the pool.
pub const NPIPES: usize = 8;

/// Bytes one pipe buffers.
pub const PBUF: usize = 8192;

/// One pipe.
pub struct Pipe {
    pub in_use: bool,
    pub data: Ring<u8>,
    pub write_closed: bool,
    pub readers: WaitQ,
    pub writers: WaitQ,
}

impl Pipe {
    pub open spec fn wf(&self) -> bool {
        &&& self.data.wf()
        &&& self.data.cap() == PBUF
        &&& self.readers.wf()
        &&& self.writers.wf()
    }

    /// Nothing buffered, nobody parked, the write side open.
    pub open spec fn fresh(&self) -> bool {
        &&& self.wf()
        &&& !self.write_closed
        &&& self.data@ == Seq::<u8>::empty()
        &&& self.readers@ == Seq::<usize>::empty()
        &&& self.writers@ == Seq::<usize>::empty()
    }
}

/// The pool of pipes.
pub struct Pipes {
    pub slots: Vec<Pipe>,
}

/// Only slot `i` differs between two pools.
pub open spec fn only_changes(a: Seq<Pipe>, b: Seq<Pipe>, i: int) -> bool {
    b =~= a.update(i, b[i])
}

impl Pipes {
    pub open spec fn wf(&self) -> bool {
        &&& self.slots@.len() == NPIPES
        &&& forall|i: int| 0 <= i < NPIPES ==> (#[trigger] self.slots@[i]).wf()
    }

    /// A pool in which no pipe is in use.
    pub fn new() -> (p: Self)
        ensures
            p.wf(),
            forall|i: int| 0 <= i < NPIPES ==> !(#[trigger] p.slots@[i]).in_use,
    {
        let mut slots: Vec<Pipe> = Vec::new();
        let mut i: usize = 0;
        while i < NPIPES
            invariant
                i <= NPIPES,
                slots@.len() == i,
                forall|k: int| 0 <= k < i ==> (#[trigger] slots@[k]).wf() && !slots@[k].in_use,
            decreases NPIPES - i,
        {
            slots.push(
                Pipe {
                    in_use: false,
                    data: Ring::new(PBUF, 0u8),
                    write_closed: false,
                    readers: WaitQ::new(),
                    writers: WaitQ::new(),
                },
            );
            i += 1;
        }
        Pipes { slots }
    }
}

/// The outcome of a read attempt.
#[derive(Clone, Copy, PartialEq, Eq, Debug, Structural)]
pub enum ReadOut {
    /// This many bytes were read.
    Data(usize),
    /// The buffer is empty and no byte will ever come.
    Eof,
    /// The buffer is empty for now.
    WouldBlock,
}

/// What a read of at most `want` bytes reports.
pub open spec fn read_outcome(p: Pipe, want: nat) -> ReadOut {
    if !p.in_use || (p.data@.len() == 0 && p.write_closed) {
        ReadOut::Eof
    } else if p.data@.len() == 0 {
        ReadOut::WouldBlock
    } else {
        ReadOut::Data(ring::min_of(want, p.data@.len()) as usize)
    }
}

/// Bytes of a write of `len` bytes that the pipe accepts.
pub open spec fn write_count(p: Pipe, len: nat) -> nat {
    if p.in_use {
        ring::min_of(len, (PBUF - p.data@.len()) as nat)
    } else {
        0
    }
}

/// `q` is `p` after `n` bytes were read: the oldest `n` bytes are gone and every
/// waiting writer has been released.
pub open spec fn reads(p: Pipe, q: Pipe, n: int) -> bool {
    &&& q.data@ =~= p.data@.subrange(n, p.data@.len() as int)
    &&& q.writers@ == Seq::<usize>::empty()
    &&& q.readers == p.readers
    &&& q.in_use == p.in_use
    &&& q.write_closed == p.write_closed
}

/// `q` is `p` after `bytes` were written: they follow what was there, and if there
/// were any, every waiting reader has been released.
pub open spec fn writes(p: Pipe, q: Pipe, bytes: Seq<u8>) -> bool {
    &&& q.data@ =~= p.data@ + bytes
    &&& bytes.len() > 0 ==> q.readers@ == Seq::<usize>::empty()
    &&& bytes.len() == 0 ==> q.readers == p.readers
    &&& q.writers == p.writers
    &&& q.in_use == p.in_use
    &&& q.write_closed == p.write_closed
}

/// Bytes leave a pipe in the order they entered it, none lost and none made up:
/// if all that was ever written is all that was ever read followed by what is
/// buffered, a write keeps that so.
pub proof fn law_fifo_write(p: Pipe, q: Pipe, written: Seq<u8>, read: Seq<u8>, bytes: Seq<u8>)
    requires
        written == read + p.data@,
        writes(p, q, bytes),
    ensures
        written + bytes == read + q.data@,
{
    assert(written + bytes =~= read + q.data@);
}

/// The same for a read: what it hands out continues what was read before.
pub proof fn law_fifo_read(p: Pipe, q: Pipe, written: Seq<u8>, read: Seq<u8>, n: int)
    requires
        written == read + p.data@,
        0 <= n <= p.data@.len(),
        reads(p, q, n),
    ensures
        written == (read + p.data@.subrange(0, n)) + q.data@,
{
    assert(written =~= (read + p.data@.subrange(0, n)) + q.data@);
}

/// A pipe in use reports end of input only when its write side is closed and every
/// byte has been drained, and from then on it reports nothing else.
pub proof fn law_eof_after_drain(p: Pipe, want: nat)
    requires
        p.in_use,
    ensures
        read_outcome(p, want) == ReadOut::Eof <==> p.write_closed && p.data@.len() == 0,
        read_outcome(p, want) == ReadOut::WouldBlock <==> !p.write_closed && p.data@.len() == 0,
{
}

/// The lowest unused pipe from `i` up.
pub open spec fn free_from(v: Seq<Pipe>, i: int) -> int
    decreases v.len() - i,
{
    if i >= v.len() || !v[i].in_use {
        i
    } else {
        free_from(v, i + 1)
    }
}

/// Take the first free pipe of the pool.
pub fn create(pool: &mut Pipes) -> (r: Option<u8>)
    requires
        old(pool).wf(),
    ensures
        final(pool).wf(),
        ({
            let i = free_from(old(pool).slots@, 0);
            match r {
                Some(k) => {
                    &&& k == i
                    &&& i < NPIPES
                    &&& final(pool).slots@[i].in_use
                    &&& final(pool).slots@[i].fresh()
                    &&& only_changes(old(pool).slots@, final(pool).slots@, i)
                },
                None => i >= NPIPES && *final(pool) == *old(pool),
            }
        }),
{
    let mut i: usize = 0;
    while i < NPIPES
        invariant
            pool.wf(),
            *pool == *old(pool),
            i <= NPIPES,
            free_from(pool.slots@, 0) == free_from(pool.slots@, i as int),
        decreases NPIPES - i,
    {
        if !pool.slots[i].in_use {
            let p = &mut pool.slots[i];
            p.in_use = true;
            p.data.clear();
            p.write_closed = false;
            p.readers = WaitQ::new();
            p.writers = WaitQ::new();
            return Some(i as u8);
        }
        i += 1;
    }
    None
}

/// Read up to `out.len()` bytes. When bytes were read, the threads waiting for
/// space are taken off the write queue into the front of `wake`; the second
/// component says how many.
pub fn try_read(pool: &mut Pipes, idx: u8, out: &mut [u8], wake: &mut [usize; QCAP]) -> (r: (
    ReadOut,
    usize,
))
    requires
        old(pool).wf(),
        idx < NPIPES,
    ensures
        final(pool).wf(),
        only_changes(old(pool).slots@, final(pool).slots@, idx as int),
        r.0 == read_outcome(old(pool).slots@[idx as int], old(out)@.len()),
        match r.0 {
            ReadOut::Data(n) => {
                let p = old(pool).slots@[idx as int];
                &&& final(out)@ == ring::overlay(old(out)@, p.data@.subrange(0, n as int))
                &&& reads(p, final(pool).slots@[idx as int], n as int)
                &&& r.1 == p.writers@.len()
                &&& final(wake)@.subrange(0, r.1 as int) == p.writers@
            },
            _ => {
                &&& *final(pool) == *old(pool)
                &&& final(out)@ == old(out)@
                &&& final(wake)@ == old(wake)@
                &&& r.1 == 0
            },
        },
{
    let i: usize = idx as usize;
    if !pool.slots[i].in_use {
        return (ReadOut::Eof, 0);
    }
    if pool.slots[i].data.len == 0 {
        if pool.slots[i].write_closed {
            return (ReadOut::Eof, 0);
        }
        return (ReadOut::WouldBlock, 0);
    }
    let p = &mut pool.slots[i];
    let n: usize = p.data.read_into(out);
    let nwake: usize = p.writers.drain(wake);
    (ReadOut::Data(n), nwake)
}

/// Write as much of `src` as fits. When bytes were written, the threads waiting
/// for data are taken off the read queue into the front of `wake`. Returns the
/// bytes written (0 on a full or unused pipe) and the number of threads to wake.
pub fn try_write(pool: &mut Pipes, idx: u8, src: &[u8], wake: &mut [usize; QCAP]) -> (r: (
    usize,
    usize,
))
    requires
        old(pool).wf(),
        idx < NPIPES,
    ensures
        final(pool).wf(),
        only_changes(old(pool).slots@, final(pool).slots@, idx as int),
        r.0 == write_count(old(pool).slots@[idx as int], src@.len()),
        ({
            let p = old(pool).slots@[idx as int];
            &&& writes(p, final(pool).slots@[idx as int], src@.subrange(0, r.0 as int))
            &&& r.1 == (if r.0 > 0 {
                p.readers@.len()
            } else {
                0
            })
            &&& final(wake)@.subrange(0, r.1 as int) == p.readers@.subrange(0, r.1 as int)
        }),
{
    let i: usize = idx as usize;
    if !pool.slots[i].in_use {
        return (0, 0);
    }
    let p = &mut pool.slots[i];
    let n: usize = p.data.write_from(src);
    let nwake: usize = if n > 0 {
        p.readers.drain(wake)
    } else {
        0
    };
    (n, nwake)
}

/// Close the write side; the waiting readers move to the front of `wake`.
pub fn mark_eof(pool: &mut Pipes, idx: u8, wake: &mut [usize; QCAP]) -> (n: usize)
    requires
        old(pool).wf(),
        idx < NPIPES,
    ensures
        final(pool).wf(),
        only_changes(old(pool).slots@, final(pool).slots@, idx as int),
        ({
            let p = old(pool).slots@[idx as int];
            let q = final(pool).slots@[idx as int];
            &&& q.write_closed
            &&& n == p.readers@.len()
            &&& final(wake)@.subrange(0, n as int) == p.readers@
            &&& q.readers@ == Seq::<usize>::empty()
            &&& q.writers == p.writers
            &&& q.data == p.data
            &&& q.in_use == p.in_use
        }),
{
    let p = &mut pool.slots[idx as usize];
    p.write_closed = true;
    p.readers.drain(wake)
}

/// Only the read queue of slot `i` differs, and it is now `q`.
pub open spec fn readers_become(a: Seq<Pipe>, b: Seq<Pipe>, i: int, q: Seq<usize>) -> bool {
    &&& b =~= a.update(i, Pipe { readers: b[i].readers, ..a[i] })
    &&& b[i].readers@ == q
}

/// Only the write queue of slot `i` differs, and it is now `q`.
pub open spec fn writers_become(a: Seq<Pipe>, b: Seq<Pipe>, i: int, q: Seq<usize>) -> bool {
    &&& b =~= a.update(i, Pipe { writers: b[i].writers, ..a[i] })
    &&& b[i].writers@ == q
}

/// Park `tid` until a writer or the end of input wakes it.
pub fn park_reader(pool: &mut Pipes, idx: u8, tid: usize)
    requires
        old(pool).wf(),
        tid < MAX_THREADS,
        idx < NPIPES,
    ensures
        final(pool).wf(),
        readers_become(
            old(pool).slots@,
            final(pool).slots@,
            idx as int,
            waitq::q_push(old(pool).slots@[idx as int].readers@, tid),
        ),
{
    pool.slots[idx as usize].readers.push(tid);
}

/// Park `tid` until a reader frees space.
pub fn park_writer(pool: &mut Pipes, idx: u8, tid: usize)
    requires
        old(pool).wf(),
        tid < MAX_THREADS,
        idx < NPIPES,
    ensures
        final(pool).wf(),
        writers_become(
            old(pool).slots@,
            final(pool).slots@,
            idx as int,
            waitq::q_push(old(pool).slots@[idx as int].writers@, tid),
        ),
{
    pool.slots[idx as usize].writers.push(tid);
}

/// Take `tid` off the read queue: it found data and does not sleep.
pub fn unpark_reader(pool: &mut Pipes, idx: u8, tid: usize)
    requires
        old(pool).wf(),
        idx < NPIPES,
    ensures
        final(pool).wf(),
        readers_become(
            old(pool).slots@,
            final(pool).slots@,
            idx as int,
            waitq::q_remove(old(pool).slots@[idx as int].readers@, tid),
        ),
{
    pool.slots[idx as usize].readers.remove(tid);
}

/// Take `tid` off the write queue: it made progress and does not sleep.
pub fn unpark_writer(pool: &mut Pipes, idx: u8, tid: usize)
    requires
        old(pool).wf(),
        idx < NPIPES,
    ensures
        final(pool).wf(),
        writers_become(
            old(pool).slots@,
            final(pool).slots@,
            idx as int,
            waitq::q_remove(old(pool).slots@[idx as int].writers@, tid),
        ),
{
    pool.slots[idx as usize].writers.remove(tid);
}

} // verus!
