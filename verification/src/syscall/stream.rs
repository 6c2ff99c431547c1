//! Calls on pipes and channels.
//!
//! A call that has to wait parks the running thread, marks it blocked and says `Sleep`.
//! When the thread runs again, the call goes on with the same step.
use vstd::prelude::*;
use vstd::slice::slice_subrange;
use crate::abi;
use crate::abi::{Handle, SysError, CHAN_NONBLOCK, R_ATTENUATE, R_GRANT, R_IN, R_OUT};
use crate::channel;
use crate::channel::RecvOut;
use crate::ipc;
use crate::kernel;
use crate::kernel::Kernel;
use crate::notif::Outcome;
use crate::object;
use crate::object::{HandleEntry, ObjType, ObjectRef};
use crate::pipe;
use crate::pipe::{Pipe, ReadOut};
use crate::proc;
use crate::proc::{Process, Table, MAX_PROCS};
use crate::ring;
use crate::shm::Region;
use crate::syscall;
use crate::syscall::{SyscallRet, UserSpace};
use crate::thread;
use crate::thread::{Sched, Tcb};
use crate::waitq;
use crate::waitq::QCAP;

verus! {

/// Bytes one read or receive returns at most.
pub const READ_MAX: u64 = 1024;

/// Bytes one send takes at most.
pub const SEND_MAX: u64 = 0x10_0000;

/// Capabilities one send or receive carries at most.
pub const CAPS_MAX: u64 = 8;

/// What a receive that must not wait returns when there is nothing to receive.
pub const EAGAIN: u64 = 11;

/// The smaller of two numbers.
pub open spec fn capped(n: u64, limit: u64) -> u64 {
    if n <= limit {
        n
    } else {
        limit
    }
}

/// The threads of `b` are those of `a` with the threads listed woken.
pub open spec fn wakes(a: Sched, b: Sched, list: Seq<usize>) -> bool {
    &&& b.cpus@ == a.cpus@
    &&& b.tcbs@ == syscall::all_woken(a.tcbs@, list, list.len() as int)
}

proof fn lemma_woken_same(tcbs: Seq<Tcb>, a: Seq<usize>, b: Seq<usize>, n: int)
    requires
        n <= a.len(),
        n <= b.len(),
        forall|i: int| 0 <= i < n ==> a[i] == b[i],
    ensures
        syscall::all_woken(tcbs, a, n) == syscall::all_woken(tcbs, b, n),
    decreases n,
{
    if n > 0 {
        lemma_woken_same(tcbs, a, b, n - 1);
    }
}

/// Wake the `n` threads that a queue `list` released into `wake`.
fn wake_released(k: &mut Kernel, wake: &[usize; QCAP], n: usize, list: Ghost<Seq<usize>>)
    requires
        old(k).wf(),
        n <= QCAP,
        n == list@.len(),
        wake@.subrange(0, n as int) == list@,
        forall|i: int| 0 <= i < n ==> #[trigger] list@[i] < thread::MAX_THREADS,
    ensures
        final(k).wf(),
        *final(k) == (Kernel { sched: final(k).sched, ..*old(k) }),
        wakes(old(k).sched, final(k).sched, list@),
{
    let ghost before = k.sched.tcbs@;
    proof {
        assert forall|i: int| 0 <= i < n implies #[trigger] wake@[i] == list@[i] && wake@[i]
            < thread::MAX_THREADS by {
            assert(wake@.subrange(0, n as int)[i] == wake@[i]);
            assert(list@[i] < thread::MAX_THREADS);
        }
        lemma_woken_same(before, wake@, list@, n as int);
    }
    syscall::wake_all(&mut k.sched, wake.as_slice(), n);
    proof {
        ipc::lemma_wf_for_same_procs(k.ipc, before, k.sched.tcbs@);
    }
}

/// Mark the running thread blocked.
fn go_to_sleep(k: &mut Kernel, cpu: usize)
    requires
        old(k).wf(),
        old(k).sched.up(cpu),
    ensures
        final(k).wf(),
        *final(k) == (Kernel { sched: final(k).sched, ..*old(k) }),
        thread::with_state(
            old(k).sched,
            final(k).sched,
            old(k).sched.running(cpu),
            thread::State::Blocked,
        ),
{
    thread::prepare_block(&mut k.sched, cpu);
    proof {
        ipc::lemma_wf_for_same_procs(k.ipc, old(k).sched.tcbs@, k.sched.tcbs@);
    }
}

/// A buffer of `n` zero bytes.
fn zeroed(n: usize) -> (v: Vec<u8>)
    ensures
        v@ == Seq::new(n as nat, |i: int| 0u8),
{
    let mut v: Vec<u8> = Vec::new();
    let mut i: usize = 0;
    while i < n
        invariant
            i <= n,
            v@ =~= Seq::new(i as nat, |j: int| 0u8),
        decreases n - i,
    {
        v.push(0);
        i += 1;
    }
    v
}

/// Make a pipe, with every right to it.
pub fn sys_pipe(k: &mut Kernel, cpu: usize) -> (r: SyscallRet)
    requires
        old(k).wf(),
        old(k).in_process(cpu),
    ensures
        final(k).wf(),
        ({
            let i = pipe::free_from(old(k).pipes.slots@, 0);
            if i >= pipe::NPIPES {
                r == syscall::failed(SysError::NoMem) && *final(k) == *old(k)
            } else {
                &&& pipe::only_changes(old(k).pipes.slots@, final(k).pipes.slots@, i)
                &&& final(k).pipes.slots@[i].in_use
                &&& final(k).pipes.slots@[i].fresh()
                &&& syscall::given(
                    Kernel { pipes: final(k).pipes, ..*old(k) },
                    *final(k),
                    old(k).caller(cpu),
                    HandleEntry {
                        obj: ObjectRef::Pipe(i as u8),
                        rights: R_IN | R_OUT | R_GRANT | R_ATTENUATE,
                        badge: 0,
                    },
                    r,
                )
            }
        }),
        r.rax == 0 ==> {
            let e = final(k).caller_table(cpu)[r.rdx as int];
            &&& 1 <= r.rdx < 64
            &&& e is Some && e->0.obj is Pipe && e->0.rights == 0xc000c
            &&& old(k).caller_table(cpu)[r.rdx as int] is None
        },
{
    proof {
        abi::lemma_made_rights();
        proc::lemma_empty_from(k.caller_table(cpu), 1);
    }

    let me: usize = syscall::caller(k, cpu);
    match pipe::create(&mut k.pipes) {
        Some(idx) => syscall::give(
            k,
            me,
            HandleEntry {
                obj: ObjectRef::Pipe(idx),
                rights: R_IN | R_OUT | R_GRANT | R_ATTENUATE,
                badge: 0,
            },
        ),
        None => SyscallRet::err(SysError::NoMem),
    }
}

/// The pipe behind handle `h`, which must carry `rights`.
pub open spec fn pipe_behind(t: Table, h: Handle, rights: u32) -> Result<u8, SysError> {
    match proc::entry_with(t, h, ObjType::Pipe, rights) {
        Err(e) => Err(e),
        Ok(e) => Ok(e.obj->Pipe_0),
    }
}

/// Look up a pipe.
pub fn pipe_idx(p: &Process, h: Handle, rights: u32) -> (r: Result<u8, SysError>)
    requires
        p.wf(),
    ensures
        r == pipe_behind(p.handles@, h, rights),
        r is Ok ==> r->Ok_0 < pipe::NPIPES,
{
    match p.lookup(h, ObjType::Pipe, rights) {
        Err(e) => Err(e),
        Ok(e) => match e.obj {
            ObjectRef::Pipe(i) => {
                assert(object::names_object(e.obj));
                Ok(i)
            },
            _ => Err(SysError::BadType),
        },
    }
}

/// What one attempt to read from pipe `idx` comes to. Data goes to the caller's buffer;
/// if that cannot be written the data is lost and the caller told.
pub open spec fn pipe_reads(
    a: Kernel,
    b: Kernel,
    cpu: usize,
    u: UserSpace,
    idx: int,
    buf: u64,
    want: nat,
    out: Outcome,
    bytes: Seq<u8>,
) -> bool {
    let p = a.pipes.slots@[idx];
    match pipe::read_outcome(p, want) {
        ReadOut::Data(n) => {
            &&& b == Kernel { pipes: b.pipes, sched: b.sched, ..a }
            &&& pipe::only_changes(a.pipes.slots@, b.pipes.slots@, idx)
            &&& pipe::reads(p, b.pipes.slots@[idx], n as int)
            &&& wakes(a.sched, b.sched, p.writers@)
            &&& if u.reaches(buf, n as int, true) {
                out == Outcome::Done(0, n as u64) && bytes == p.data@.subrange(0, n as int)
            } else {
                &&& out == syscall::outcome(syscall::failed(SysError::Fault))
                &&& bytes.len() == 0
            }
        },
        ReadOut::Eof => out == Outcome::Done(0, 0) && bytes.len() == 0 && b == a,
        ReadOut::WouldBlock => {
            let me = a.sched.running(cpu);
            &&& out == Outcome::Sleep
            &&& bytes.len() == 0
            &&& b == Kernel { pipes: b.pipes, sched: b.sched, ..a }
            &&& pipe::readers_become(
                a.pipes.slots@,
                b.pipes.slots@,
                idx,
                waitq::q_push(p.readers@, me as usize),
            )
            &&& thread::with_state(a.sched, b.sched, me, thread::State::Blocked)
        },
    }
}

/// Try once to read up to `want` bytes from pipe `idx` for the caller's buffer `buf`.
pub fn pipe_read(k: &mut Kernel, cpu: usize, u: &UserSpace, idx: u8, buf: u64, want: usize) -> (r: (
    Outcome,
    Vec<u8>,
))
    requires
        old(k).wf(),
        old(k).sched.up(cpu),
        u.ok(),
        idx < pipe::NPIPES,
        want <= READ_MAX,
    ensures
        final(k).wf(),
        pipe_reads(*old(k), *final(k), cpu, *u, idx as int, buf, want as nat, r.0, r.1@),
{
    let mut bytes = zeroed(want);
    let mut wake: [usize; QCAP] = [0usize; QCAP];
    let ghost p = k.pipes.slots@[idx as int];
    assert(p.wf());
    let (res, nwake) = pipe::try_read(&mut k.pipes, idx, bytes.as_mut_slice(), &mut wake);
    match res {
        ReadOut::Data(n) => {
            wake_released(k, &wake, nwake, Ghost(p.writers@));
            bytes.truncate(n);
            assert(bytes@ =~= p.data@.subrange(0, n as int));
            if !u.check(buf, n, true) {
                return (Outcome::Done(SysError::Fault.code(), 0), Vec::new());
            }
            (Outcome::Done(0, n as u64), bytes)
        },
        ReadOut::Eof => (Outcome::Done(0, 0), Vec::new()),
        ReadOut::WouldBlock => {
            let me: usize = thread::current(&k.sched, cpu);
            pipe::park_reader(&mut k.pipes, idx, me);
            go_to_sleep(k, cpu);
            (Outcome::Sleep, Vec::new())
        },
    }
}

/// Read from a pipe: some bytes, or none at the end of input.
pub fn sys_pipe_read(k: &mut Kernel, cpu: usize, u: &UserSpace, h: u64, buf: u64, len: u64) -> (r: (
    Outcome,
    Vec<u8>,
))
    requires
        old(k).wf(),
        old(k).in_process(cpu),
        u.ok(),
    ensures
        final(k).wf(),
        match pipe_behind(old(k).caller_table(cpu), h as Handle, R_IN) {
            Err(e) => {
                &&& r.0 == syscall::outcome(syscall::failed(e))
                &&& r.1@.len() == 0
                &&& *final(k) == *old(k)
            },
            Ok(idx) => if len == 0 {
                r.0 == Outcome::Done(0, 0) && r.1@.len() == 0 && *final(k) == *old(k)
            } else {
                pipe_reads(
                    *old(k),
                    *final(k),
                    cpu,
                    *u,
                    idx as int,
                    buf,
                    capped(len, READ_MAX) as nat,
                    r.0,
                    r.1@,
                )
            },
        },
        r.0 == Outcome::Sleep ==> proc::holds(old(k).caller_table(cpu), h as Handle, 0x40000),
        r.0 matches Outcome::Done(rax, _) && rax == 0 ==> proc::holds(old(k).caller_table(cpu), h as Handle, 0x40000),
{
    let me: usize = syscall::caller(k, cpu);
    assert(k.procs.v@[me as int].wf());
    let idx: u8 = match pipe_idx(&k.procs.v[me], h as Handle, R_IN) {
        Ok(i) => i,
        Err(e) => {
            return (Outcome::Done(e.code(), 0), Vec::new());
        },
    };
    if len == 0 {
        return (Outcome::Done(0, 0), Vec::new());
    }
    let want: usize = if len <= READ_MAX {
        len as usize
    } else {
        READ_MAX as usize
    };
    pipe_read(k, cpu, u, idx, buf, want)
}

/// What one attempt to write `src` to pipe `idx` comes to, `done` bytes having been
/// written before: what fits goes in and wakes the readers, and if that was not all the
/// thread waits for space.
pub open spec fn pipe_writes(
    a: Kernel,
    b: Kernel,
    cpu: usize,
    idx: int,
    src: Seq<u8>,
    done: u64,
    n: nat,
    out: Outcome,
) -> bool {
    let p = a.pipes.slots@[idx];
    let q = b.pipes.slots@[idx];
    let me = a.sched.running(cpu);
    let woken = if n > 0 {
        syscall::all_woken(a.sched.tcbs@, p.readers@, p.readers@.len() as int)
    } else {
        a.sched.tcbs@
    };
    &&& n == pipe::write_count(p, src.len())
    &&& b == Kernel { pipes: b.pipes, sched: b.sched, ..a }
    &&& b.sched.cpus@ == a.sched.cpus@
    &&& pipe::only_changes(a.pipes.slots@, b.pipes.slots@, idx)
    &&& q.data@ =~= p.data@ + src.subrange(0, n as int)
    &&& q.in_use == p.in_use && q.write_closed == p.write_closed
    &&& q.readers@ == (if n > 0 {
        Seq::empty()
    } else {
        p.readers@
    })
    &&& if n == src.len() {
        &&& out == Outcome::Done(0, (done + n) as u64)
        &&& q.writers@ == p.writers@
        &&& b.sched.tcbs@ == woken
    } else {
        &&& out == Outcome::Sleep
        &&& q.writers@ == waitq::q_push(p.writers@, me as usize)
        &&& b.sched.tcbs@ == thread::state_set(woken, me, thread::State::Blocked)
    }
}

/// Try once to write `src` to pipe `idx`, `done` bytes having been written before.
/// Returns how many bytes went in.
pub fn pipe_write(k: &mut Kernel, cpu: usize, idx: u8, src: &[u8], done: u64) -> (r: (usize, Outcome))
    requires
        old(k).wf(),
        old(k).sched.up(cpu),
        idx < pipe::NPIPES,
        done + src.len() <= u64::MAX,
    ensures
        final(k).wf(),
        pipe_writes(*old(k), *final(k), cpu, idx as int, src@, done, r.0 as nat, r.1),
{
    let mut wake: [usize; QCAP] = [0usize; QCAP];
    let ghost p = k.pipes.slots@[idx as int];
    assert(p.wf());
    let (n, nwake) = pipe::try_write(&mut k.pipes, idx, src, &mut wake);
    let ghost list = p.readers@.subrange(0, nwake as int);
    assert(n > 0 ==> list =~= p.readers@);
    wake_released(k, &wake, nwake, Ghost(list));
    if n == src.len() {
        return (n, Outcome::Done(0, done + n as u64));
    }
    let me: usize = thread::current(&k.sched, cpu);
    pipe::park_writer(&mut k.pipes, idx, me);
    go_to_sleep(k, cpu);
    (n, Outcome::Sleep)
}

/// One attempt of a write that goes on from `done` bytes of `src` to `now`.
pub open spec fn write_attempt(
    a: Kernel,
    b: Kernel,
    cpu: usize,
    idx: int,
    src: Seq<u8>,
    done: usize,
    now: usize,
    out: Outcome,
) -> bool {
    &&& done <= now <= src.len()
    &&& pipe_writes(
        a,
        b,
        cpu,
        idx,
        src.subrange(done as int, src.len() as int),
        done as u64,
        (now - done) as nat,
        out,
    )
}

/// Go on with a write of `src` to pipe `idx` that had to wait after `done` bytes.
pub fn write_again(k: &mut Kernel, cpu: usize, idx: u8, src: &[u8], done: &mut usize) -> (out:
    Outcome)
    requires
        old(k).wf(),
        old(k).sched.up(cpu),
        idx < pipe::NPIPES,
        *old(done) <= src.len(),
    ensures
        final(k).wf(),
        write_attempt(*old(k), *final(k), cpu, idx as int, src@, *old(done), *final(done), out),
{
    let (n, out) = pipe_write(k, cpu, idx, slice_subrange(src, *done, src.len()), *done as u64);
    *done = *done + n;
    out
}

/// The bytes that a series of attempts put into pipe `idx`, in order.
pub open spec fn written(states: Seq<(Kernel, Kernel)>, idx: int) -> Seq<u8>
    decreases states.len(),
{
    if states.len() == 0 {
        Seq::empty()
    } else {
        let (a, b) = states.last();
        let before = a.pipes.slots@[idx].data@;
        let after = b.pipes.slots@[idx].data@;
        written(states.drop_last(), idx) + after.subrange(before.len() as int, after.len() as int)
    }
}

/// `points` are where the attempts of one write stood, from its start.
pub open spec fn write_series(
    states: Seq<(Kernel, Kernel)>,
    cpus: Seq<usize>,
    idx: int,
    src: Seq<u8>,
    points: Seq<usize>,
    outs: Seq<Outcome>,
) -> bool {
    &&& points.len() == states.len() + 1
    &&& cpus.len() == states.len()
    &&& outs.len() == states.len()
    &&& points[0] == 0
    &&& forall|i: int|
        0 <= i < states.len() ==> write_attempt(
            (#[trigger] states[i]).0,
            states[i].1,
            cpus[i],
            idx,
            src,
            points[i],
            points[i + 1],
            outs[i],
        )
}

proof fn lemma_written(
    states: Seq<(Kernel, Kernel)>,
    cpus: Seq<usize>,
    idx: int,
    src: Seq<u8>,
    points: Seq<usize>,
    outs: Seq<Outcome>,
)
    requires
        write_series(states, cpus, idx, src, points, outs),
    ensures
        points.last() <= src.len(),
        written(states, idx) == src.subrange(0, points.last() as int),
    decreases states.len(),
{
    if states.len() > 0 {
        let n = states.len() - 1;
        lemma_written(
            states.drop_last(),
            cpus.drop_last(),
            idx,
            src,
            points.drop_last(),
            outs.drop_last(),
        );
        assert(write_attempt(
            states[n].0,
            states[n].1,
            cpus[n],
            idx,
            src,
            points[n],
            points[n + 1],
            outs[n],
        ));
    }
    assert(written(states, idx) =~= src.subrange(0, points.last() as int));
}

/// However often a write has to wait, once it is done exactly its bytes have gone into
/// the pipe, each once and in order, and it reports how many.
pub proof fn law_write_is_whole(
    states: Seq<(Kernel, Kernel)>,
    cpus: Seq<usize>,
    idx: int,
    src: Seq<u8>,
    points: Seq<usize>,
    outs: Seq<Outcome>,
)
    requires
        write_series(states, cpus, idx, src, points, outs),
        states.len() > 0,
        outs.last() is Done,
    ensures
        written(states, idx) == src,
        outs.last() == Outcome::Done(0, src.len() as u64),
{
    let n = states.len() - 1;
    lemma_written(states, cpus, idx, src, points, outs);
    assert(write_attempt(
        states[n].0,
        states[n].1,
        cpus[n],
        idx,
        src,
        points[n],
        points[n + 1],
        outs[n],
    ));
    assert(src.subrange(0, src.len() as int) =~= src);
}

/// Write all of `src`, the `len` bytes at `buf`, to a pipe. Returns how many bytes went
/// in so far, and the pipe that the call goes on with.
pub fn sys_pipe_write(
    k: &mut Kernel,
    cpu: usize,
    u: &UserSpace,
    h: u64,
    buf: u64,
    len: u64,
    src: &[u8],
) -> (r: (usize, Outcome, Option<u8>))
    requires
        old(k).wf(),
        old(k).in_process(cpu),
        u.ok(),
        len <= usize::MAX,
        u.reaches(buf, len as int, false) ==> src.len() == len,
    ensures
        final(k).wf(),
        match pipe_behind(old(k).caller_table(cpu), h as Handle, R_OUT) {
            Err(e) => {
                &&& r == (0usize, syscall::outcome(syscall::failed(e)), None::<u8>)
                &&& *final(k) == *old(k)
            },
            Ok(idx) => if len == 0 {
                r == (0usize, Outcome::Done(0, 0), None::<u8>) && *final(k) == *old(k)
            } else if !u.reaches(buf, len as int, false) {
                &&& r == (0usize, syscall::outcome(syscall::failed(SysError::Fault)), None::<u8>)
                &&& *final(k) == *old(k)
            } else {
                &&& r.2 == Some(idx)
                &&& write_attempt(*old(k), *final(k), cpu, idx as int, src@, 0, r.0, r.1)
            },
        },
        r.2 is Some ==> proc::holds(old(k).caller_table(cpu), h as Handle, 0x80000),
        r.1 matches Outcome::Done(rax, _) && rax == 0 ==> proc::holds(old(k).caller_table(cpu), h as Handle, 0x80000),
{
    let me: usize = syscall::caller(k, cpu);
    assert(k.procs.v@[me as int].wf());
    let idx: u8 = match pipe_idx(&k.procs.v[me], h as Handle, R_OUT) {
        Ok(i) => i,
        Err(e) => {
            return (0, Outcome::Done(e.code(), 0), None);
        },
    };
    if len == 0 {
        return (0, Outcome::Done(0, 0), None);
    }
    if !u.check(buf, len as usize, false) {
        return (0, Outcome::Done(SysError::Fault.code(), 0), None);
    }
    let mut done: usize = 0;
    let out = write_again(k, cpu, idx, src, &mut done);
    (done, out, Some(idx))
}

/// Close the write side of a pipe. Whoever waits to read is woken, and finds the end of
/// input once the pipe is drained.
pub fn sys_pipe_eof(k: &mut Kernel, cpu: usize, h: u64) -> (r: SyscallRet)
    requires
        old(k).wf(),
        old(k).in_process(cpu),
    ensures
        final(k).wf(),
        match pipe_behind(old(k).caller_table(cpu), h as Handle, R_OUT) {
            Err(e) => r == syscall::failed(e) && *final(k) == *old(k),
            Ok(idx) => {
                let p = old(k).pipes.slots@[idx as int];
                let q = final(k).pipes.slots@[idx as int];
                &&& r == syscall::succeeded(0)
                &&& *final(k) == (Kernel {
                    pipes: final(k).pipes,
                    sched: final(k).sched,
                    ..*old(k)
                })
                &&& pipe::only_changes(old(k).pipes.slots@, final(k).pipes.slots@, idx as int)
                &&& q == (Pipe { write_closed: true, readers: q.readers, ..p })
                &&& q.readers@ == Seq::<usize>::empty()
                &&& wakes(old(k).sched, final(k).sched, p.readers@)
            },
        },
        r.rax == 0 ==> proc::holds(old(k).caller_table(cpu), h as Handle, 0x80000),
{
    let me: usize = syscall::caller(k, cpu);
    assert(k.procs.v@[me as int].wf());
    let idx: u8 = match pipe_idx(&k.procs.v[me], h as Handle, R_OUT) {
        Ok(i) => i,
        Err(e) => {
            return SyscallRet::err(e);
        },
    };
    let mut wake: [usize; QCAP] = [0usize; QCAP];
    let ghost p = k.pipes.slots@[idx as int];
    assert(p.wf());
    let n: usize = pipe::mark_eof(&mut k.pipes, idx, &mut wake);
    wake_released(k, &wake, n, Ghost(p.readers@));
    SyscallRet::ok()
}

/// The channel end behind handle `h`, which must carry `rights`.
pub open spec fn chan_behind(t: Table, h: Handle, rights: u32) -> Result<(u8, u8), SysError> {
    match proc::entry_with(t, h, ObjType::Channel, rights) {
        Err(e) => Err(e),
        Ok(e) => Ok((e.obj->conn, e.obj->side)),
    }
}

/// Look up a channel end.
pub fn chan_of(p: &Process, h: Handle, rights: u32) -> (r: Result<(u8, u8), SysError>)
    requires
        p.wf(),
    ensures
        r == chan_behind(p.handles@, h, rights),
        r is Ok ==> r->Ok_0.0 < channel::NCONN && r->Ok_0.1 < 2,
{
    match p.lookup(h, ObjType::Channel, rights) {
        Err(e) => Err(e),
        Ok(e) => match e.obj {
            ObjectRef::Channel { conn, side } => {
                assert(object::names_object(e.obj));
                Ok((conn, side))
            },
            _ => Err(SysError::BadType),
        },
    }
}

/// One end of a new connection, with every right to it.
pub open spec fn end_of(conn: u8, side: u8) -> HandleEntry {
    HandleEntry {
        obj: ObjectRef::Channel { conn, side },
        rights: R_IN | R_OUT | R_GRANT | R_ATTENUATE,
        badge: 0,
    }
}

/// Make a connected pair; both ends are the caller's. Returns both handles in one word.
/// If there is room for one handle only, that one stays.
pub fn sys_channel_pair(k: &mut Kernel, cpu: usize) -> (r: SyscallRet)
    requires
        old(k).wf(),
        old(k).in_process(cpu),
    ensures
        final(k).wf(),
        ({
            let i = channel::free_from(old(k).conns.slots@, 0);
            let me = old(k).caller(cpu);
            let t = old(k).caller_table(cpu);
            let t1 = t.update(proc::next_slot(t), Some(end_of(i as u8, 0)));
            let t2 = t1.update(proc::next_slot(t1), Some(end_of(i as u8, 1)));
            if i >= channel::NCONN {
                r == syscall::failed(SysError::NoMem) && *final(k) == *old(k)
            } else {
                &&& channel::connected(old(k).conns.slots@, final(k).conns.slots@, i)
                &&& *final(k) == (Kernel {
                    conns: final(k).conns,
                    procs: final(k).procs,
                    regions: final(k).regions,
                    ..*old(k)
                })
                &&& final(k).regions.v@ == old(k).regions.v@
                &&& if proc::full(t) {
                    &&& r == syscall::failed(SysError::NoSlots)
                    &&& final(k).procs == old(k).procs
                } else if proc::full(t1) {
                    &&& r == syscall::failed(SysError::NoSlots)
                    &&& kernel::table_becomes(old(k).procs, final(k).procs, me, t1)
                } else {
                    &&& r == syscall::succeeded(
                        (proc::next_slot(t) as u64) | ((proc::next_slot(t1) as u64) << 32),
                    )
                    &&& kernel::table_becomes(old(k).procs, final(k).procs, me, t2)
                }
            }
        }),
{
    let me: usize = syscall::caller(k, cpu);
    let conn: u8 = match channel::create(&mut k.conns) {
        Some(c) => c,
        None => {
            return SyscallRet::err(SysError::NoMem);
        },
    };
    let rights: u32 = R_IN | R_OUT | R_GRANT | R_ATTENUATE;
    let e0 = HandleEntry { obj: ObjectRef::Channel { conn, side: 0 }, rights, badge: 0 };
    let e1 = HandleEntry { obj: ObjectRef::Channel { conn, side: 1 }, rights, badge: 0 };
    let h0: Handle = match syscall::give_handle(k, me, e0) {
        Ok(h) => h,
        Err(e) => {
            return SyscallRet::err(e);
        },
    };
    let h1: Handle = match syscall::give_handle(k, me, e1) {
        Ok(h) => h,
        Err(e) => {
            return SyscallRet::err(e);
        },
    };
    SyscallRet::value((h0 as u64) | ((h1 as u64) << 32))
}

/// What a send asks for, once checked: the channel end, and the capabilities it carries.
pub open spec fn chan_send_request(
    t: Table,
    u: UserSpace,
    h: Handle,
    buf: u64,
    len: u64,
    caps_ptr: u64,
    ncaps: u64,
    handles: Seq<Handle>,
) -> Result<(u8, u8), SysError> {
    let n = capped(ncaps, CAPS_MAX);
    let total = capped(len, SEND_MAX);
    match chan_behind(t, h, R_OUT) {
        Err(e) => Err(e),
        Ok(end) => if n > 0 && !u.reaches(caps_ptr, n * 4, false) {
            Err(SysError::Fault)
        } else {
            match ipc::grant_error(t, handles, 0, n as int) {
                Some(e) => Err(e),
                None => if total > 0 && !u.reaches(buf, total as int, false) {
                    Err(SysError::Fault)
                } else {
                    Ok(end)
                },
            }
        },
    }
}

/// How far a send has come.
pub struct SendStep {
    /// Bytes accepted by this attempt.
    pub bytes: usize,
    /// Capabilities accepted by this attempt.
    pub caps: usize,
    pub out: Outcome,
}

/// What one attempt to send `data` and `caps` on `side` of connection `conn` comes to,
/// `done` bytes having been sent before. What fits goes in and wakes the receivers. A
/// send to a closed peer ends with what was sent; one that is not through waits.
pub open spec fn chan_sends(
    a: Kernel,
    b: Kernel,
    cpu: usize,
    conn: int,
    side: u8,
    data: Seq<u8>,
    caps: Seq<HandleEntry>,
    done: u64,
    step: SendStep,
) -> bool {
    let c = a.conns.slots@[conn];
    let d = c.sends(side);
    let e = b.conns.slots@[conn].sends(side);
    let me = a.sched.running(cpu);
    if !channel::peer_reachable(c, side) {
        step == SendStep { bytes: 0, caps: 0, out: Outcome::Done(0, done) } && b == a
    } else {
        let n = ring::min_of(data.len(), (channel::CBUF - d.data@.len()) as nat);
        let taken = ring::min_of(caps.len(), (channel::CAPQ - d.caps@.len()) as nat);
        let woken = if n > 0 || taken > 0 {
            syscall::all_woken(a.sched.tcbs@, d.readers@, d.readers@.len() as int)
        } else {
            a.sched.tcbs@
        };
        &&& step.bytes == n
        &&& step.caps == taken
        &&& b == Kernel { conns: b.conns, sched: b.sched, ..a }
        &&& b.sched.cpus@ == a.sched.cpus@
        &&& channel::only_dir_changes(a.conns.slots@, b.conns.slots@, conn, side)
        &&& e.data@ =~= d.data@ + data.subrange(0, n as int)
        &&& e.caps@ =~= d.caps@ + caps.subrange(0, taken as int)
        &&& e.readers@ == (if n > 0 || taken > 0 {
            Seq::empty()
        } else {
            d.readers@
        })
        &&& if n == data.len() && taken == caps.len() {
            &&& step.out == Outcome::Done(0, (done + n) as u64)
            &&& e.writers@ == d.writers@
            &&& b.sched.tcbs@ == woken
        } else {
            &&& step.out == Outcome::Sleep
            &&& e.writers@ == waitq::q_push(d.writers@, me as usize)
            &&& b.sched.tcbs@ == thread::state_set(woken, me, thread::State::Blocked)
        }
    }
}

/// Try once to send `data` and `caps`, `done` bytes having been sent before.
pub fn channel_send(
    k: &mut Kernel,
    cpu: usize,
    conn: u8,
    side: u8,
    data: &[u8],
    caps: &[HandleEntry],
    done: u64,
) -> (step: SendStep)
    requires
        old(k).wf(),
        old(k).sched.up(cpu),
        conn < channel::NCONN,
        side < 2,
        done + data.len() <= u64::MAX,
        forall|i: int| 0 <= i < caps@.len() ==> object::names_object((#[trigger] caps@[i]).obj),
    ensures
        final(k).wf(),
        chan_sends(*old(k), *final(k), cpu, conn as int, side, data@, caps@, done, step),
{
    let mut wake: [usize; QCAP] = [0usize; QCAP];
    let ghost c = k.conns.slots@[conn as int];
    let ghost d = c.sends(side);
    assert(c.wf());
    if !channel::peer_open(&k.conns, conn, side) {
        return SendStep { bytes: 0, caps: 0, out: Outcome::Done(0, done) };
    }
    let (n, taken, nwake) = channel::try_send(&mut k.conns, conn, side, data, caps, &mut wake);
    let ghost list = d.readers@.subrange(0, nwake as int);
    assert(n > 0 || taken > 0 ==> list =~= d.readers@);
    wake_released(k, &wake, nwake, Ghost(list));
    if n == data.len() && taken == caps.len() {
        return SendStep { bytes: n, caps: taken, out: Outcome::Done(0, done + n as u64) };
    }
    let me: usize = thread::current(&k.sched, cpu);
    channel::park_send(&mut k.conns, conn, side, me);
    go_to_sleep(k, cpu);
    SendStep { bytes: n, caps: taken, out: Outcome::Sleep }
}

/// How far a send that had to wait has come.
#[derive(Clone, Copy, PartialEq, Eq, Debug, Structural)]
pub struct Sending {
    /// Bytes accepted.
    pub done: usize,
    /// Capabilities accepted.
    pub given: usize,
}

/// One attempt of a send that goes on from `s` to `t`.
pub open spec fn send_attempt(
    a: Kernel,
    b: Kernel,
    cpu: usize,
    conn: int,
    side: u8,
    data: Seq<u8>,
    caps: Seq<HandleEntry>,
    s: Sending,
    t: Sending,
    out: Outcome,
) -> bool {
    &&& s.done <= t.done <= data.len()
    &&& s.given <= t.given <= caps.len()
    &&& chan_sends(
        a,
        b,
        cpu,
        conn,
        side,
        data.subrange(s.done as int, data.len() as int),
        caps.subrange(s.given as int, caps.len() as int),
        s.done as u64,
        SendStep {
            bytes: (t.done - s.done) as usize,
            caps: (t.given - s.given) as usize,
            out,
        },
    )
}

/// Go on with a send of `data` and `caps` on `side` of connection `conn` that has come to
/// `s`: try once to send what is left.
pub fn send_again(
    k: &mut Kernel,
    cpu: usize,
    conn: u8,
    side: u8,
    data: &[u8],
    caps: &[HandleEntry],
    s: &mut Sending,
) -> (out: Outcome)
    requires
        old(k).wf(),
        old(k).sched.up(cpu),
        conn < channel::NCONN,
        side < 2,
        old(s).done <= data.len(),
        old(s).given <= caps.len(),
        forall|i: int| 0 <= i < caps@.len() ==> object::names_object((#[trigger] caps@[i]).obj),
    ensures
        final(k).wf(),
        send_attempt(
            *old(k),
            *final(k),
            cpu,
            conn as int,
            side,
            data@,
            caps@,
            *old(s),
            *final(s),
            out,
        ),
{
    let rest = slice_subrange(data, s.done, data.len());
    let left = slice_subrange(caps, s.given, caps.len());
    let step = channel_send(k, cpu, conn, side, rest, left, s.done as u64);
    s.done = s.done + step.bytes;
    s.given = s.given + step.caps;
    step.out
}

/// The bytes and capabilities that a series of attempts put on their way from `side` of
/// connection `conn`, in order.
pub open spec fn put_in(states: Seq<(Kernel, Kernel)>, conn: int, side: u8) -> (
    Seq<u8>,
    Seq<HandleEntry>,
)
    decreases states.len(),
{
    if states.len() == 0 {
        (Seq::empty(), Seq::empty())
    } else {
        let before = put_in(states.drop_last(), conn, side);
        let d = states.last().0.conns.slots@[conn].sends(side);
        let e = states.last().1.conns.slots@[conn].sends(side);
        (
            before.0 + e.data@.subrange(d.data@.len() as int, e.data@.len() as int),
            before.1 + e.caps@.subrange(d.caps@.len() as int, e.caps@.len() as int),
        )
    }
}

/// `points` are where the attempts of one send stood, from its start, the peer being
/// there throughout.
pub open spec fn send_series(
    states: Seq<(Kernel, Kernel)>,
    cpus: Seq<usize>,
    conn: int,
    side: u8,
    data: Seq<u8>,
    caps: Seq<HandleEntry>,
    points: Seq<Sending>,
    outs: Seq<Outcome>,
) -> bool {
    &&& points.len() == states.len() + 1
    &&& cpus.len() == states.len()
    &&& outs.len() == states.len()
    &&& points[0] == Sending { done: 0, given: 0 }
    &&& forall|i: int|
        0 <= i < states.len() ==> {
            &&& channel::peer_reachable((#[trigger] states[i]).0.conns.slots@[conn], side)
            &&& send_attempt(
                states[i].0,
                states[i].1,
                cpus[i],
                conn,
                side,
                data,
                caps,
                points[i],
                points[i + 1],
                outs[i],
            )
        }
}

proof fn lemma_put_in(
    states: Seq<(Kernel, Kernel)>,
    cpus: Seq<usize>,
    conn: int,
    side: u8,
    data: Seq<u8>,
    caps: Seq<HandleEntry>,
    points: Seq<Sending>,
    outs: Seq<Outcome>,
)
    requires
        send_series(states, cpus, conn, side, data, caps, points, outs),
    ensures
        points.last().done <= data.len(),
        points.last().given <= caps.len(),
        put_in(states, conn, side).0 == data.subrange(0, points.last().done as int),
        put_in(states, conn, side).1 == caps.subrange(0, points.last().given as int),
    decreases states.len(),
{
    if states.len() > 0 {
        let n = states.len() - 1;
        lemma_put_in(
            states.drop_last(),
            cpus.drop_last(),
            conn,
            side,
            data,
            caps,
            points.drop_last(),
            outs.drop_last(),
        );
        assert(channel::peer_reachable(states[n].0.conns.slots@[conn], side));
        assert(send_attempt(
            states[n].0,
            states[n].1,
            cpus[n],
            conn,
            side,
            data,
            caps,
            points[n],
            points[n + 1],
            outs[n],
        ));
    }
    assert(put_in(states, conn, side).0 =~= data.subrange(0, points.last().done as int));
    assert(put_in(states, conn, side).1 =~= caps.subrange(0, points.last().given as int));
}

/// However often a send has to wait, once it is done with the peer still there exactly
/// its bytes and capabilities are on their way, each once and in order, and it reports
/// how many bytes.
pub proof fn law_send_is_whole(
    states: Seq<(Kernel, Kernel)>,
    cpus: Seq<usize>,
    conn: int,
    side: u8,
    data: Seq<u8>,
    caps: Seq<HandleEntry>,
    points: Seq<Sending>,
    outs: Seq<Outcome>,
)
    requires
        send_series(states, cpus, conn, side, data, caps, points, outs),
        states.len() > 0,
        outs.last() is Done,
    ensures
        put_in(states, conn, side).0 == data,
        put_in(states, conn, side).1 == caps,
        outs.last() == Outcome::Done(0, data.len() as u64),
{
    let n = states.len() - 1;
    lemma_put_in(states, cpus, conn, side, data, caps, points, outs);
    assert(channel::peer_reachable(states[n].0.conns.slots@[conn], side));
    assert(send_attempt(
        states[n].0,
        states[n].1,
        cpus[n],
        conn,
        side,
        data,
        caps,
        points[n],
        points[n + 1],
        outs[n],
    ));
    assert(data.subrange(0, data.len() as int) =~= data);
    assert(caps.subrange(0, caps.len() as int) =~= caps);
}

/// A send once it is under way: the side it goes out on, what it carries, and how far it
/// has come.
pub struct Sender {
    pub conn: u8,
    pub side: u8,
    pub caps: Vec<HandleEntry>,
    pub at: Sending,
}

/// The entries behind the first `n` handles.
pub open spec fn entries_of(t: Table, handles: Seq<Handle>, n: int) -> Seq<HandleEntry> {
    Seq::new(n as nat, |i: int| t[handles[i] as int]->0)
}

/// Look up the capabilities a send carries; each must carry the right to be granted.
fn gather(p: &Process, handles: &[Handle], n: usize) -> (r: Result<Vec<HandleEntry>, SysError>)
    requires
        p.wf(),
        n <= handles@.len(),
    ensures
        match r {
            Ok(v) => {
                &&& ipc::grant_error(p.handles@, handles@, 0, n as int) is None
                &&& v@ == entries_of(p.handles@, handles@, n as int)
                &&& forall|i: int| 0 <= i < v@.len() ==> object::names_object((#[trigger] v@[i]).obj)
            },
            Err(e) => ipc::grant_error(p.handles@, handles@, 0, n as int) == Some(e),
        },
{
    let mut v: Vec<HandleEntry> = Vec::new();
    let mut i: usize = 0;
    while i < n
        invariant
            i <= n <= handles@.len(),
            p.wf(),
            ipc::grant_error(p.handles@, handles@, 0, n as int) == ipc::grant_error(
                p.handles@,
                handles@,
                i as int,
                n as int,
            ),
            v@ =~= entries_of(p.handles@, handles@, i as int),
            forall|j: int| 0 <= j < i ==> object::names_object((#[trigger] v@[j]).obj),
        decreases n - i,
    {
        match p.get(handles[i]) {
            Ok(e) => {
                if e.rights & R_GRANT == 0 {
                    return Err(SysError::Rights);
                }
                assert(object::names_object(e.obj));
                v.push(e);
            },
            Err(e) => {
                return Err(e);
            },
        }
        i += 1;
    }
    Ok(v)
}

/// Stream `data`, the bytes at `buf`, to the other side, and with them copies of the
/// capabilities behind `handles`, the words at `caps_ptr`. Also returns what the attempts
/// after the first go on with.
pub fn sys_channel_send(
    k: &mut Kernel,
    cpu: usize,
    u: &UserSpace,
    h: u64,
    buf: u64,
    len: u64,
    caps_ptr: u64,
    ncaps: u64,
    data: &[u8],
    handles: &[Handle],
) -> (r: (Outcome, Option<Sender>))
    requires
        old(k).wf(),
        old(k).in_process(cpu),
        u.ok(),
        u.reaches(caps_ptr, capped(ncaps, CAPS_MAX) * 4, false) ==> handles@.len() == capped(
            ncaps,
            CAPS_MAX,
        ),
        u.reaches(buf, capped(len, SEND_MAX) as int, false) ==> data@.len() == capped(
            len,
            SEND_MAX,
        ),
    ensures
        final(k).wf(),
        match chan_send_request(
            old(k).caller_table(cpu),
            *u,
            h as Handle,
            buf,
            len,
            caps_ptr,
            ncaps,
            handles@,
        ) {
            Err(e) => {
                &&& r.0 == syscall::outcome(syscall::failed(e))
                &&& r.1 is None
                &&& *final(k) == *old(k)
            },
            Ok((conn, side)) => {
                &&& r.1 matches Some(s)
                &&& s.conn == conn && s.side == side
                &&& conn < channel::NCONN && side < 2
                &&& s.caps@ == entries_of(
                    old(k).caller_table(cpu),
                    handles@,
                    capped(ncaps, CAPS_MAX) as int,
                )
                &&& forall|i: int|
                    0 <= i < s.caps@.len() ==> object::names_object((#[trigger] s.caps@[i]).obj)
                &&& send_attempt(
                    *old(k),
                    *final(k),
                    cpu,
                    conn as int,
                    side,
                    data@,
                    s.caps@,
                    Sending { done: 0, given: 0 },
                    s.at,
                    r.0,
                )
            },
        },
{
    let me: usize = syscall::caller(k, cpu);
    assert(k.procs.v@[me as int].wf());
    let (conn, side) = match chan_of(&k.procs.v[me], h as Handle, R_OUT) {
        Ok(v) => v,
        Err(e) => {
            return (Outcome::Done(e.code(), 0), None);
        },
    };
    let n: usize = if ncaps <= CAPS_MAX {
        ncaps as usize
    } else {
        CAPS_MAX as usize
    };
    let total: usize = if len <= SEND_MAX {
        len as usize
    } else {
        SEND_MAX as usize
    };
    if n > 0 && !u.check(caps_ptr, n * 4, false) {
        return (Outcome::Done(SysError::Fault.code(), 0), None);
    }
    let caps = match gather(&k.procs.v[me], handles, n) {
        Ok(v) => v,
        Err(e) => {
            return (Outcome::Done(e.code(), 0), None);
        },
    };
    if total > 0 && !u.check(buf, total, false) {
        return (Outcome::Done(SysError::Fault.code(), 0), None);
    }
    let mut at = Sending { done: 0, given: 0 };
    let out = send_again(k, cpu, conn, side, data, caps.as_slice(), &mut at);
    (out, Some(Sender { conn, side, caps, at }))
}

/// How far received capabilities could be installed.
#[verifier::ext_equal]
pub struct Installed {
    pub table: Table,
    pub regions: Seq<Region>,
    pub handles: Seq<Handle>,
    pub full: bool,
}

/// Install `ents[i ..]` one by one in the lowest empty slots, until the table is full.
pub open spec fn installed_from(
    table: Table,
    regions: Seq<Region>,
    handles: Seq<Handle>,
    ents: Seq<HandleEntry>,
    i: int,
) -> Installed
    decreases ents.len() - i,
{
    if i >= ents.len() {
        Installed { table, regions, handles, full: false }
    } else if proc::full(table) {
        Installed { table, regions, handles, full: true }
    } else {
        let h = proc::next_slot(table);
        installed_from(
            table.update(h, Some(ents[i])),
            ipc::handle_noted(regions, ents[i]),
            handles.push(h as u32),
            ents,
            i + 1,
        )
    }
}

/// Install received capabilities for process `me`; an error if the table fills up.
fn install_received(k: &mut Kernel, me: usize, ents: &Vec<HandleEntry>) -> (r: (
    Vec<Handle>,
    bool,
))
    requires
        old(k).wf(),
        me < MAX_PROCS,
        forall|i: int| 0 <= i < ents@.len() ==> object::names_object((#[trigger] ents@[i]).obj),
    ensures
        final(k).wf(),
        *final(k) == (Kernel { procs: final(k).procs, regions: final(k).regions, ..*old(k) }),
        ({
            let t = installed_from(
                old(k).procs.v@[me as int].handles@,
                old(k).regions.v@,
                Seq::empty(),
                ents@,
                0,
            );
            &&& r.0@ == t.handles
            &&& r.1 == t.full
            &&& kernel::table_becomes(old(k).procs, final(k).procs, me as int, t.table)
            &&& final(k).regions.v@ == t.regions
        }),
{
    let mut handles: Vec<Handle> = Vec::new();
    let mut i: usize = 0;
    while i < ents.len()
        invariant
            i <= ents@.len(),
            k.wf(),
            me < MAX_PROCS,
            old(k).procs.v@.len() == MAX_PROCS,
            forall|j: int| 0 <= j < ents@.len() ==> object::names_object((#[trigger] ents@[j]).obj),
            *k == (Kernel { procs: k.procs, regions: k.regions, ..*old(k) }),
            kernel::table_becomes(
                old(k).procs,
                k.procs,
                me as int,
                k.procs.v@[me as int].handles@,
            ),
            installed_from(
                old(k).procs.v@[me as int].handles@,
                old(k).regions.v@,
                Seq::empty(),
                ents@,
                0,
            ) == installed_from(
                k.procs.v@[me as int].handles@,
                k.regions.v@,
                handles@,
                ents@,
                i as int,
            ),
        decreases ents@.len() - i,
    {
        match syscall::give_handle(k, me, ents[i]) {
            Ok(h) => {
                handles.push(h);
            },
            Err(_) => {
                return (handles, true);
            },
        }
        i += 1;
    }
    (handles, false)
}

/// What a receive hands to the caller.
pub struct RecvStep {
    pub out: Outcome,
    /// Bytes for the caller's buffer.
    pub bytes: Vec<u8>,
    /// Handles for the caller's other buffer.
    pub handles: Vec<Handle>,
}

/// A receive that hands nothing over and returns `out`.
pub open spec fn nothing_received(step: RecvStep, out: Outcome) -> bool {
    step.out == out && step.bytes@.len() == 0 && step.handles@.len() == 0
}

/// What one attempt to receive on `side` of connection `conn` comes to. Bytes that the
/// caller's buffer cannot take are lost, and so are capabilities its table cannot.
pub open spec fn chan_receives(
    a: Kernel,
    b: Kernel,
    cpu: usize,
    u: UserSpace,
    conn: int,
    side: u8,
    buf: u64,
    want: nat,
    caps_out: u64,
    ncaps: nat,
    nonblock: bool,
    step: RecvStep,
) -> bool {
    let c = a.conns.slots@[conn];
    let d = c.receives(side);
    let e = b.conns.slots@[conn].receives(side);
    let me = a.sched.running(cpu);
    match channel::recv_outcome(c, side, want) {
        RecvOut::Data(n) => {
            let nc = ring::min_of(ncaps, d.caps@.len());
            let t = installed_from(
                a.caller_table(cpu),
                a.regions.v@,
                Seq::empty(),
                d.caps@.subrange(0, nc as int),
                0,
            );
            &&& b == Kernel {
                conns: b.conns,
                sched: b.sched,
                procs: b.procs,
                regions: b.regions,
                ..a
            }
            &&& channel::only_dir_changes(
                a.conns.slots@,
                b.conns.slots@,
                conn,
                channel::peer(side),
            )
            &&& channel::receives_from(d, e, n as int, nc as int)
            &&& wakes(
                a.sched,
                b.sched,
                if n > 0 {
                    d.writers@
                } else {
                    Seq::empty()
                },
            )
            &&& if n > 0 && !u.reaches(buf, n as int, true) {
                &&& nothing_received(step, syscall::outcome(syscall::failed(SysError::Fault)))
                &&& b.procs == a.procs
                &&& b.regions == a.regions
            } else if nc > 0 && !u.reaches(caps_out, nc as int * 4, true) {
                &&& step.out == syscall::outcome(syscall::failed(SysError::Fault))
                &&& step.bytes@ == d.data@.subrange(0, n as int)
                &&& step.handles@.len() == 0
                &&& b.procs == a.procs
                &&& b.regions == a.regions
            } else {
                &&& step.bytes@ == d.data@.subrange(0, n as int)
                &&& step.handles@ == t.handles
                &&& kernel::table_becomes(a.procs, b.procs, a.caller(cpu), t.table)
                &&& b.regions.v@ == t.regions
                &&& step.out == (if t.full {
                    syscall::outcome(syscall::failed(SysError::NoSlots))
                } else {
                    Outcome::Done(0, (n as u64) | ((nc as u64) << 32))
                })
            }
        },
        RecvOut::Eof => nothing_received(step, Outcome::Done(0, 0)) && b == a,
        RecvOut::WouldBlock => if nonblock {
            nothing_received(step, Outcome::Done(EAGAIN, 0)) && b == a
        } else {
            &&& nothing_received(step, Outcome::Sleep)
            &&& b == Kernel { conns: b.conns, sched: b.sched, ..a }
            &&& channel::readers_become(
                a.conns.slots@,
                b.conns.slots@,
                conn,
                channel::peer(side),
                waitq::q_push(d.readers@, me as usize),
            )
            &&& thread::with_state(a.sched, b.sched, me, thread::State::Blocked)
        },
    }
}

/// Try once to receive up to `want` bytes and `ncaps` capabilities.
#[verifier::spinoff_prover]
pub fn channel_recv(
    k: &mut Kernel,
    cpu: usize,
    u: &UserSpace,
    conn: u8,
    side: u8,
    buf: u64,
    want: usize,
    caps_out: u64,
    ncaps: usize,
    nonblock: bool,
) -> (step: RecvStep)
    requires
        old(k).wf(),
        old(k).in_process(cpu),
        u.ok(),
        conn < channel::NCONN,
        side < 2,
        want <= READ_MAX,
        ncaps <= CAPS_MAX,
    ensures
        final(k).wf(),
        chan_receives(
            *old(k),
            *final(k),
            cpu,
            *u,
            conn as int,
            side,
            buf,
            want as nat,
            caps_out,
            ncaps as nat,
            nonblock,
            step,
        ),
{
    let me: usize = syscall::caller(k, cpu);
    let mut bytes = zeroed(want);
    let mut ents: Vec<HandleEntry> = no_entries(ncaps);
    let mut wake: [usize; QCAP] = [0usize; QCAP];
    let ghost c = k.conns.slots@[conn as int];
    let ghost d = c.receives(side);
    assert(c.wf());
    let (res, nc, nwake) = channel::try_recv(
        &mut k.conns,
        conn,
        side,
        bytes.as_mut_slice(),
        ents.as_mut_slice(),
        &mut wake,
    );
    match res {
        RecvOut::Data(n) => {
            let ghost list = d.writers@.subrange(0, nwake as int);
            proof {
                if n > 0 {
                    assert(list =~= d.writers@);
                } else {
                    assert(list =~= Seq::<usize>::empty());
                }
            }
            wake_released(k, &wake, nwake, Ghost(list));
            bytes.truncate(n);
            ents.truncate(nc);
            assert(bytes@ =~= d.data@.subrange(0, n as int));
            assert(ents@ =~= d.caps@.subrange(0, nc as int));
            if n > 0 && !u.check(buf, n, true) {
                return RecvStep {
                    out: Outcome::Done(SysError::Fault.code(), 0),
                    bytes: Vec::new(),
                    handles: Vec::new(),
                };
            }
            if nc > 0 && !u.check(caps_out, nc * 4, true) {
                return RecvStep {
                    out: Outcome::Done(SysError::Fault.code(), 0),
                    bytes,
                    handles: Vec::new(),
                };
            }
            let (handles, full) = install_received(k, me, &ents);
            let out = if full {
                Outcome::Done(SysError::NoSlots.code(), 0)
            } else {
                Outcome::Done(0, (n as u64) | ((nc as u64) << 32))
            };
            RecvStep { out, bytes, handles }
        },
        RecvOut::Eof => RecvStep {
            out: Outcome::Done(0, 0),
            bytes: Vec::new(),
            handles: Vec::new(),
        },
        RecvOut::WouldBlock => {
            if nonblock {
                return RecvStep {
                    out: Outcome::Done(EAGAIN, 0),
                    bytes: Vec::new(),
                    handles: Vec::new(),
                };
            }
            let tid: usize = thread::current(&k.sched, cpu);
            channel::park_recv(&mut k.conns, conn, side, tid);
            go_to_sleep(k, cpu);
            RecvStep { out: Outcome::Sleep, bytes: Vec::new(), handles: Vec::new() }
        },
    }
}

/// Room for `n` entries.
fn no_entries(n: usize) -> (v: Vec<HandleEntry>)
    ensures
        v@.len() == n,
{
    let mut v: Vec<HandleEntry> = Vec::new();
    let mut i: usize = 0;
    while i < n
        invariant
            i <= n,
            v@.len() == i,
        decreases n - i,
    {
        v.push(HandleEntry { obj: ObjectRef::Console, rights: 0, badge: 0 });
        i += 1;
    }
    v
}

/// Receive from the other side: bytes for `buf` and capabilities, whose handles are for
/// `caps_out`. The low half of `packed` is the number of capabilities wanted, the high
/// half holds flags.
pub fn sys_channel_recv(
    k: &mut Kernel,
    cpu: usize,
    u: &UserSpace,
    h: u64,
    buf: u64,
    len: u64,
    caps_out: u64,
    packed: u64,
) -> (step: RecvStep)
    requires
        old(k).wf(),
        old(k).in_process(cpu),
        u.ok(),
    ensures
        final(k).wf(),
        match chan_behind(old(k).caller_table(cpu), h as Handle, R_IN) {
            Err(e) => {
                &&& nothing_received(step, syscall::outcome(syscall::failed(e)))
                &&& *final(k) == *old(k)
            },
            Ok((conn, side)) => chan_receives(
                *old(k),
                *final(k),
                cpu,
                *u,
                conn as int,
                side,
                buf,
                capped(len, READ_MAX) as nat,
                caps_out,
                capped(packed & 0xffff_ffff, CAPS_MAX) as nat,
                (packed >> 32) & CHAN_NONBLOCK != 0,
                step,
            ),
        },
        step.out == Outcome::Sleep ==> proc::holds(old(k).caller_table(cpu), h as Handle, 0x40000),
        step.out matches Outcome::Done(rax, _) && rax == 0 ==> proc::holds(old(k).caller_table(cpu), h as Handle, 0x40000),
{
    let me: usize = syscall::caller(k, cpu);
    assert(k.procs.v@[me as int].wf());
    let (conn, side) = match chan_of(&k.procs.v[me], h as Handle, R_IN) {
        Ok(v) => v,
        Err(e) => {
            return RecvStep {
                out: Outcome::Done(e.code(), 0),
                bytes: Vec::new(),
                handles: Vec::new(),
            };
        },
    };
    let wanted: u64 = packed & 0xffff_ffff;
    let ncaps: usize = if wanted <= CAPS_MAX {
        wanted as usize
    } else {
        CAPS_MAX as usize
    };
    let nonblock = (packed >> 32) & CHAN_NONBLOCK != 0;
    let want: usize = if len <= READ_MAX {
        len as usize
    } else {
        READ_MAX as usize
    };
    channel_recv(k, cpu, u, conn, side, buf, want, caps_out, ncaps, nonblock)
}

/// Readiness of a channel end, without consuming anything.
pub fn sys_channel_poll(k: &Kernel, cpu: usize, h: u64) -> (r: SyscallRet)
    requires
        k.wf(),
        k.in_process(cpu),
    ensures
        r == (match chan_behind(k.caller_table(cpu), h as Handle, 0) {
            Err(e) => syscall::failed(e),
            Ok((conn, side)) => syscall::succeeded(
                channel::readiness(k.conns.slots@[conn as int], side),
            ),
        }),
{
    let me: usize = syscall::caller(k, cpu);
    assert(k.procs.v@[me as int].wf());
    match chan_of(&k.procs.v[me], h as Handle, 0) {
        Err(e) => SyscallRet::err(e),
        Ok((conn, side)) => SyscallRet::value(channel::poll(&k.conns, conn, side)),
    }
}

/// Close a channel end and the handle to it. The other side finds the end of the stream.
pub fn sys_channel_close(k: &mut Kernel, cpu: usize, h: u64) -> (r: SyscallRet)
    requires
        old(k).wf(),
        old(k).in_process(cpu),
    ensures
        final(k).wf(),
        match chan_behind(old(k).caller_table(cpu), h as Handle, 0) {
            Err(e) => r == syscall::failed(e) && *final(k) == *old(k),
            Ok((conn, side)) => {
                let c = old(k).conns.slots@[conn as int];
                let e = final(k).conns.slots@[conn as int];
                &&& r == syscall::succeeded(0)
                &&& *final(k) == (Kernel {
                    conns: final(k).conns,
                    sched: final(k).sched,
                    procs: final(k).procs,
                    ..*old(k)
                })
                &&& kernel::table_becomes(
                    old(k).procs,
                    final(k).procs,
                    old(k).caller(cpu),
                    old(k).caller_table(cpu).update((h as Handle) as int, None),
                )
                &&& if c.in_use {
                    &&& channel::only_changes(
                        old(k).conns.slots@,
                        final(k).conns.slots@,
                        conn as int,
                    )
                    &&& !e.is_open(side)
                    &&& e.is_open(channel::peer(side)) == c.is_open(channel::peer(side))
                    &&& e.in_use == c.is_open(channel::peer(side))
                    &&& e.receives(side) == c.receives(side)
                    &&& e.sends(side) == (channel::Dir {
                        readers: e.sends(side).readers,
                        ..c.sends(side)
                    })
                    &&& e.sends(side).readers@ == Seq::<usize>::empty()
                    &&& wakes(old(k).sched, final(k).sched, c.sends(side).readers@)
                } else {
                    &&& final(k).conns == old(k).conns
                    &&& wakes(old(k).sched, final(k).sched, Seq::empty())
                }
            },
        },
{
    let me: usize = syscall::caller(k, cpu);
    assert(k.procs.v@[me as int].wf());
    let (conn, side) = match chan_of(&k.procs.v[me], h as Handle, 0) {
        Ok(v) => v,
        Err(e) => {
            return SyscallRet::err(e);
        },
    };
    let mut wake: [usize; QCAP] = [0usize; QCAP];
    let ghost c = k.conns.slots@[conn as int];
    assert(c.wf());
    let n: usize = channel::close(&mut k.conns, conn, side, &mut wake);
    let ghost list = if c.in_use {
        c.sends(side).readers@
    } else {
        Seq::empty()
    };
    assert(wake@.subrange(0, n as int) =~= list);
    wake_released(k, &wake, n, Ghost(list));
    let p = &mut k.procs.v[me];
    let _ = p.close(h as Handle);
    SyscallRet::ok()
}

/// What a read gives back is what a write put in: from a pipe that was empty, the bytes
/// read are the first of the bytes written, in order.
pub proof fn law_pipe_round_trip(
    a: Kernel,
    b: Kernel,
    c: Kernel,
    writer: usize,
    reader: usize,
    u: UserSpace,
    idx: int,
    src: Seq<u8>,
    n: nat,
    sent: Outcome,
    buf: u64,
    want: nat,
    got: Outcome,
    bytes: Seq<u8>,
)
    requires
        0 <= idx < pipe::NPIPES,
        a.wf(),
        a.pipes.slots@[idx].in_use,
        a.pipes.slots@[idx].data@.len() == 0,
        n > 0,
        pipe_writes(a, b, writer, idx, src, 0, n, sent),
        pipe_reads(b, c, reader, u, idx, buf, want, got, bytes),
        u.reaches(buf, ring::min_of(want, n) as int, true),
    ensures
        bytes == src.subrange(0, ring::min_of(want, n) as int),
        got == Outcome::Done(0, ring::min_of(want, n) as u64),
{
    let p = a.pipes.slots@[idx];
    let q = b.pipes.slots@[idx];
    assert(q.data@ =~= src.subrange(0, n as int));
    let k = ring::min_of(want, n) as int;
    assert(p.wf());
    assert(n <= pipe::PBUF);
    assert(src.subrange(0, n as int).subrange(0, k) =~= src.subrange(0, k));
}

/// Received capabilities are the ones that were sent: each handle leads to its entry,
/// rights and badge included, and no handle the receiver had before leads elsewhere.
pub proof fn law_received_are_sent(
    table: Table,
    regions: Seq<Region>,
    ents: Seq<HandleEntry>,
    j: int,
    other: int,
)
    requires
        table.len() == abi::HANDLE_TABLE_SIZE,
        0 <= other < abi::HANDLE_TABLE_SIZE,
        table[other] is Some,
    ensures
        ({
            let r = installed_from(table, regions, Seq::empty(), ents, 0);
            &&& r.table[other] == table[other]
            &&& 0 <= j < r.handles.len() ==> r.table[r.handles[j] as int] == Some(ents[j])
            &&& !r.full ==> r.handles.len() == ents.len()
        }),
{
    lemma_installed(table, regions, Seq::empty(), ents, 0);
}

proof fn lemma_installed(
    table: Table,
    regions: Seq<Region>,
    handles: Seq<Handle>,
    ents: Seq<HandleEntry>,
    i: int,
)
    requires
        table.len() == abi::HANDLE_TABLE_SIZE,
        0 <= i <= ents.len(),
        handles.len() == i,
        forall|j: int|
            0 <= j < i ==> (#[trigger] handles[j]) < abi::HANDLE_TABLE_SIZE
                && table[handles[j] as int] == Some(ents[j]),
    ensures
        ({
            let r = installed_from(table, regions, handles, ents, i);
            &&& r.table.len() == abi::HANDLE_TABLE_SIZE
            &&& r.handles.len() <= ents.len()
            &&& !r.full ==> r.handles.len() == ents.len()
            &&& forall|h: int|
                0 <= h < abi::HANDLE_TABLE_SIZE && (#[trigger] table[h]) is Some ==> r.table[h]
                    == table[h]
            &&& forall|j: int|
                0 <= j < r.handles.len() ==> (#[trigger] r.handles[j]) < abi::HANDLE_TABLE_SIZE
                    && r.table[r.handles[j] as int] == Some(ents[j])
        }),
    decreases ents.len() - i,
{
    if i < ents.len() && !proc::full(table) {
        let h = proc::next_slot(table);
        proc::lemma_empty_from(table, 1);
        let t2 = table.update(h, Some(ents[i]));
        let h2 = handles.push(h as u32);
        assert forall|j: int| 0 <= j < i + 1 implies (#[trigger] h2[j]) < abi::HANDLE_TABLE_SIZE
            && t2[h2[j] as int] == Some(ents[j]) by {
            if j < i {
                assert(handles[j] < abi::HANDLE_TABLE_SIZE);
                assert(table[handles[j] as int] is Some);
            }
        }
        lemma_installed(t2, ipc::handle_noted(regions, ents[i]), h2, ents, i + 1);
        let r = installed_from(table, regions, handles, ents, i);
        assert forall|k: int|
            0 <= k < abi::HANDLE_TABLE_SIZE && (#[trigger] table[k]) is Some implies r.table[k]
            == table[k] by {
            assert(t2[k] is Some);
        }
    }
}

} // verus!
