//! Laws of notifications, pipes and channels: what a reader gets of what was written, who
//! sleeps and who is woken.

use crate::channel::{self, Conn, Conns, RecvOut};
use crate::ipc::{self, SlotView};
use crate::irq;
use crate::kernel::Kernel;
use crate::notif::{self, Notif, Notifs, Outcome};
use crate::object::HandleEntry;
use crate::pipe::{self, Pipe, ReadOut};
use crate::proc::{self, Table};
use crate::ring;
use crate::shm::Region;
use crate::syscall::stream::{self, RecvStep, SendStep};
use crate::syscall::{self, UserSpace};
use crate::thread::{Sched, State, Tcb};
use crate::waitq;
use vstd::prelude::*;

verus! {

/// A signal that nobody waits for is kept, and the next wait returns at once with the
/// number of signals kept; none is left.
pub proof fn law_signal_is_kept_for_wait(
    a: Notifs,
    b: Notifs,
    c: Notifs,
    slots: Seq<SlotView>,
    s: Sched,
    t: Sched,
    cpu: usize,
    i: int,
    r: Outcome,
)
    requires
        a.wf(),
        0 <= i < 24,
        a.pool@[i].waiter is None,
        a.pool@[i].bound_waiter is None,
        a.pool@[i].count < u64::MAX,
        b.pool@ == notif::after_signal(a.pool@, slots, s.tcbs@, i).0,
        b.tick == a.tick,
        notif::waits(b, c, s, t, cpu, i, r),
    ensures
        notif::after_signal(a.pool@, slots, s.tcbs@, i).1 == slots,
        notif::after_signal(a.pool@, slots, s.tcbs@, i).2 == s.tcbs@,
        r == Outcome::Done(0, (a.pool@[i].count + 1) as u64),
        c.pool@[i].count == 0,
        t == s,
        forall|j: int| 0 <= j < 24 && j != i ==> c.pool@[j] == a.pool@[j],
{
}

/// Who waits on a notification without a signal sleeps until one comes: the signal makes it
/// ready, with the count of one, and leaves none behind.
pub proof fn law_wait_sleeps_until_signal(
    a: Notifs,
    b: Notifs,
    slots: Seq<SlotView>,
    s: Sched,
    t: Sched,
    cpu: usize,
    i: int,
    r: Outcome,
)
    requires
        a.wf(),
        s.wf(),
        s.up(cpu),
        slots.len() == 256,
        0 <= i < 24,
        a.pool@[i].count == 0,
        a.pool@[i].waiter is None,
        a.pool@[i].bound_waiter is None,
        notif::waits(a, b, s, t, cpu, i, r),
    ensures
        ({
            let me = s.running(cpu);
            let (pool, after, tcbs) = notif::after_signal(b.pool@, slots, t.tcbs@, i);
            &&& r == Outcome::Sleep
            &&& t.tcbs@[me].state == State::Blocked
            &&& tcbs[me].state == State::Ready
            &&& ipc::resumed(after[me], true) == ((0u64, 1u64), None::<crate::abi::MsgView>)
            &&& pool[i].count == 0
            &&& pool[i].waiter is None
            &&& forall|x: int|
                0 <= x < 256 && x != me ==> tcbs[x] == t.tcbs@[x] && after[x] == slots[x]
            &&& forall|j: int| 0 <= j < 24 && j != i ==> pool[j] == b.pool@[j]
        }),
{
    assert(s.cpus@[cpu as int].current < 256);
}

/// A receiver that is bound to a notification is woken by a signal, which is kept for it to
/// drain; it is then no longer bound.
pub proof fn law_signal_wakes_bound_receiver(
    pool: Seq<Notif>,
    slots: Seq<SlotView>,
    tcbs: Seq<Tcb>,
    i: int,
    t: usize,
)
    requires
        0 <= i < pool.len(),
        t < tcbs.len(),
        pool[i].bound_waiter == Some(t),
        pool[i].count < u64::MAX,
        tcbs[t as int].state == State::Blocked,
    ensures
        ({
            let r = notif::after_signal(pool, slots, tcbs, i);
            &&& r.0[i].count == pool[i].count + 1
            &&& r.0[i].bound_waiter is None
            &&& r.0[i].waiter == pool[i].waiter
            &&& r.0[i].in_use == pool[i].in_use
            &&& r.1 == slots
            &&& r.2[t as int].state == State::Ready
            &&& forall|x: int| 0 <= x < tcbs.len() && x != t ==> r.2[x] == tcbs[x]
        }),
{
}

/// Someone else who waits where one waits already is refused, and nothing changes.
pub proof fn law_one_waiter_at_a_time(
    a: Notifs,
    b: Notifs,
    s: Sched,
    t: Sched,
    cpu: usize,
    i: int,
    r: Outcome,
)
    requires
        a.pool@[i].count == 0,
        a.pool@[i].waiter is Some,
        notif::waits(a, b, s, t, cpu, i, r),
    ensures
        r matches Outcome::Done(rax, rdx) && rax != 0 && rdx == 0,
        b == a,
        t == s,
{
}

/// A thread that is taken off a notification waits there in neither way; others stay.
pub proof fn law_taken_off_waits_no_more(n: Notif, tid: usize)
    ensures
        notif::without(n, tid).waiter != Some(tid),
        notif::without(n, tid).bound_waiter != Some(tid),
        n.waiter != Some(tid) ==> notif::without(n, tid).waiter == n.waiter,
        n.bound_waiter != Some(tid) ==> notif::without(n, tid).bound_waiter == n.bound_waiter,
        notif::without(n, tid).count == n.count,
        notif::without(n, tid).in_use == n.in_use,
        notif::unbound(n, tid).bound_waiter != Some(tid),
        notif::unbound(n, tid).waiter == n.waiter,
        notif::unbound(n, tid).count == n.count,
        n.bound_waiter != Some(tid) ==> notif::unbound(n, tid) == n,
{
}

/// A new notification has no signal, nobody who waits and no exit code, and takes the lowest
/// place that is free.
pub proof fn law_new_notification(v: Seq<Notif>, i: int)
    requires
        0 <= i <= v.len(),
    ensures
        notif::fresh().in_use,
        notif::fresh().count == 0,
        notif::fresh().waiter is None,
        notif::fresh().bound_waiter is None,
        notif::fresh().exit_code == 0,
        i <= notif::free_from(v, i) <= v.len(),
        notif::free_from(v, i) < v.len() ==> !v[notif::free_from(v, i)].in_use,
        forall|k: int| i <= k < notif::free_from(v, i) ==> (#[trigger] v[k]).in_use,
    decreases v.len() - i,
{
    if i < v.len() {
        law_new_notification(v, i + 1);
    }
}

/// An interrupt line is let through, and no other line is changed.
pub proof fn law_line_is_let_through(mask: u8, line: u8, other: u8)
    requires
        line < 8,
        other < 8,
    ensures
        (irq::unmasked(mask, line) >> line) & 1 == 0,
        other != line ==> (irq::unmasked(mask, line) >> other) & 1 == (mask >> other) & 1,
{
    assert(line < 8 && other < 8 ==> ((mask & !(1u8 << line)) >> line) & 1 == 0 && (other != line
        ==> ((mask & !(1u8 << line)) >> other) & 1 == (mask >> other) & 1)) by (bit_vector);
}

/// Whoever joins a wait queue is in it, last, unless the queue is full; whoever is there
/// keeps its place.
pub proof fn law_joining_a_wait_queue(s: Seq<usize>, tid: usize)
    ensures
        s.len() < 8 ==> waitq::q_push(s, tid).contains(tid),
        s.len() >= 8 || s.contains(tid) ==> waitq::q_push(s, tid) == s,
        s.len() < 8 && !s.contains(tid) ==> waitq::q_push(s, tid).len() == s.len() + 1
            && waitq::q_push(s, tid).last() == tid,
        forall|i: int| 0 <= i < s.len() ==> #[trigger] waitq::q_push(s, tid)[i] == s[i],
{
    if s.len() < 8 && !s.contains(tid) {
        assert(s.push(tid)[s.len() as int] == tid);
    }
}

/// Waking a list of threads makes ready each of them that sleeps, and touches nobody else.
pub proof fn law_all_listed_are_woken(tcbs: Seq<Tcb>, list: Seq<usize>, n: int, t: int)
    requires
        0 <= n <= list.len(),
        0 <= t < tcbs.len(),
        forall|i: int| 0 <= i < list.len() ==> (#[trigger] list[i]) < tcbs.len(),
    ensures
        ({
            let v = syscall::all_woken(tcbs, list, n);
            &&& v.len() == tcbs.len()
            &&& (exists|i: int| 0 <= i < n && #[trigger] list[i] == t) && tcbs[t].state
                == State::Blocked ==> v[t].state == State::Ready
            &&& !(exists|i: int| 0 <= i < n && #[trigger] list[i] == t) ==> v[t] == tcbs[t]
            &&& tcbs[t].state != State::Blocked ==> v[t] == tcbs[t]
            &&& v[t].proc == tcbs[t].proc
        }),
    decreases n,
{
    if n > 0 {
        law_all_listed_are_woken(tcbs, list, n - 1, t);
        let u = syscall::all_woken(tcbs, list, n - 1);
        let v = syscall::all_woken(tcbs, list, n);
        let x = list[n - 1] as int;
        if x == t {
            assert(list[n - 1] == t);
            if exists|i: int| 0 <= i < n - 1 && #[trigger] list[i] == t {
            } else {
                assert(u[t] == tcbs[t]);
            }
        } else {
            assert(v[t] == u[t]);
            if exists|i: int| 0 <= i < n && #[trigger] list[i] == t {
                let i = choose|i: int| 0 <= i < n && #[trigger] list[i] == t;
                assert(i < n - 1);
            }
        }
    }
}

/// A write puts in as much as there is room for: all of it, or until the pipe is full.
pub proof fn law_pipe_takes_what_fits(p: Pipe, len: nat)
    requires
        p.wf(),
    ensures
        pipe::write_count(p, len) <= len,
        !p.in_use ==> pipe::write_count(p, len) == 0,
        p.in_use ==> p.data@.len() + pipe::write_count(p, len) <= 8192,
        p.in_use ==> pipe::write_count(p, len) == len || p.data@.len() + pipe::write_count(p, len)
            == 8192,
{
}

/// A read gives what there is, up to what was asked for; an empty pipe makes the reader wait
/// while a writer may come, and is at its end when none can.
pub proof fn law_pipe_gives_what_there_is(p: Pipe, want: nat)
    requires
        p.wf(),
    ensures
        p.in_use && p.data@.len() > 0 ==> (pipe::read_outcome(p, want) matches ReadOut::Data(n) && n
            <= want && n <= p.data@.len() && (n == want || n == p.data@.len())),
        p.in_use && p.data@.len() == 0 && !p.write_closed ==> pipe::read_outcome(p, want)
            is WouldBlock,
        p.in_use && p.data@.len() == 0 && p.write_closed ==> pipe::read_outcome(p, want) is Eof,
        !p.in_use ==> pipe::read_outcome(p, want) is Eof,
{
}

/// What a read takes out of a pipe is what was first in it, and it wakes whoever waited to
/// write; a read that finds nothing puts its thread to sleep among the readers.
pub proof fn law_pipe_read(
    a: Kernel,
    b: Kernel,
    cpu: usize,
    u: UserSpace,
    idx: int,
    buf: u64,
    want: nat,
    out: Outcome,
    bytes: Seq<u8>,
)
    requires
        a.wf(),
        a.sched.up(cpu),
        0 <= idx < 8,
        a.pipes.slots@[idx].in_use,
        stream::pipe_reads(a, b, cpu, u, idx, buf, want, out, bytes),
        u.reaches(buf, want as int, true),
        want <= 0x1000,
    ensures
        ({
            let p = a.pipes.slots@[idx];
            let q = b.pipes.slots@[idx];
            let me = a.sched.running(cpu);
            &&& p.data@ == bytes + q.data@
            &&& bytes.len() <= want
            &&& bytes.len() < want ==> q.data@.len() == 0
            &&& p.data@.len() > 0 ==> out == Outcome::Done(0, bytes.len() as u64)
                && q.writers@.len() == 0
            &&& p.data@.len() > 0 ==> b.sched.tcbs@ == syscall::all_woken(
                a.sched.tcbs@,
                p.writers@,
                p.writers@.len() as int,
            )
            &&& p.data@.len() == 0 && p.write_closed ==> out == Outcome::Done(0, 0)
                && b == a
            &&& p.data@.len() == 0 && !p.write_closed ==> {
                &&& out == Outcome::Sleep
                &&& b.sched.tcbs@[me].state == State::Blocked
                &&& p.readers@.len() < 8 ==> q.readers@.contains(me as usize)
            }
            &&& forall|i: int| 0 <= i < 8 && i != idx ==> b.pipes.slots@[i] == a.pipes.slots@[i]
        }),
{
    let p = a.pipes.slots@[idx];
    assert(p.wf());
    assert(a.sched.cpus@[cpu as int].current < 256);
    law_joining_a_wait_queue(p.readers@, a.sched.running(cpu) as usize);
    match pipe::read_outcome(p, want) {
        ReadOut::Data(n) => {
            assert(n <= p.data@.len() && n <= want);
            lemma_shorter_reach(u, buf, want as int, n as int);
            assert(p.data@ =~= p.data@.subrange(0, n as int) + p.data@.subrange(
                n as int,
                p.data@.len() as int,
            ));
        },
        _ => {
            assert(bytes =~= Seq::empty());
            assert(p.data@ =~= bytes + b.pipes.slots@[idx].data@);
        },
    }
}

/// A shorter part of a buffer within reach is within reach.
proof fn lemma_shorter_reach(u: UserSpace, ptr: u64, len: int, n: int)
    requires
        u.reaches(ptr, len, true),
        0 <= n <= len,
    ensures
        u.reaches(ptr, n, true),
{
    if n > 0 {
        assert forall|page: u64| #[trigger]
            crate::usermem::page_meets(page, ptr as int, ptr + n) implies crate::usermem::user_page(
            u.ram@,
            u.root,
            page,
            true,
        ) by {
            assert(crate::usermem::page_meets(page, ptr as int, ptr + len));
        }
    }
}

/// What a write puts into a pipe goes behind what is there and wakes whoever waited to read;
/// a write that is not done puts its thread to sleep among the writers.
pub proof fn law_pipe_write(
    a: Kernel,
    b: Kernel,
    cpu: usize,
    idx: int,
    src: Seq<u8>,
    done: u64,
    n: nat,
    out: Outcome,
)
    requires
        a.wf(),
        a.sched.up(cpu),
        0 <= idx < 8,
        done + src.len() <= u64::MAX,
        stream::pipe_writes(a, b, cpu, idx, src, done, n, out),
    ensures
        ({
            let p = a.pipes.slots@[idx];
            let q = b.pipes.slots@[idx];
            let me = a.sched.running(cpu);
            &&& n <= src.len()
            &&& q.data@ == p.data@ + src.subrange(0, n as int)
            &&& n == src.len() ==> out == Outcome::Done(0, (done + n) as u64)
            &&& n < src.len() ==> {
                &&& out == Outcome::Sleep
                &&& b.sched.tcbs@[me].state == State::Blocked
                &&& p.in_use ==> q.data@.len() == 8192
                &&& p.writers@.len() < 8 ==> q.writers@.contains(me as usize)
            }
            &&& n > 0 ==> q.readers@.len() == 0
            &&& n > 0 ==> forall|k: int|
                #![trigger p.readers@[k]]
                0 <= k < p.readers@.len() && p.readers@[k] != me
                    && a.sched.tcbs@[p.readers@[k] as int].state == State::Blocked
                    ==> b.sched.tcbs@[p.readers@[k] as int].state == State::Ready
            &&& q.write_closed == p.write_closed && q.in_use == p.in_use
            &&& forall|i: int| 0 <= i < 8 && i != idx ==> b.pipes.slots@[i] == a.pipes.slots@[i]
        }),
{
    let p = a.pipes.slots@[idx];
    let q = b.pipes.slots@[idx];
    let me = a.sched.running(cpu);
    assert(p.wf());
    assert(a.sched.cpus@[cpu as int].current < 256);
    law_pipe_takes_what_fits(p, src.len());
    law_joining_a_wait_queue(p.writers@, me as usize);
    if n > 0 {
        assert forall|k: int|
            #![trigger p.readers@[k]]
            0 <= k < p.readers@.len() && p.readers@[k] != me
                && a.sched.tcbs@[p.readers@[k] as int].state == State::Blocked implies
            b.sched.tcbs@[p.readers@[k] as int].state == State::Ready by {
            law_all_listed_are_woken(
                a.sched.tcbs@,
                p.readers@,
                p.readers@.len() as int,
                p.readers@[k] as int,
            );
        }
        if p.readers@.len() > 0 {
            law_all_listed_are_woken(a.sched.tcbs@, p.readers@, p.readers@.len() as int, me);
        }
    }
}

/// A new pipe takes the lowest place that is free.
pub proof fn law_lowest_free_pipe(v: Seq<Pipe>, i: int)
    requires
        0 <= i <= v.len(),
    ensures
        i <= pipe::free_from(v, i) <= v.len(),
        pipe::free_from(v, i) < v.len() ==> !v[pipe::free_from(v, i)].in_use,
        forall|k: int| i <= k < pipe::free_from(v, i) ==> (#[trigger] v[k]).in_use,
    decreases v.len() - i,
{
    if i < v.len() {
        law_lowest_free_pipe(v, i + 1);
    }
}

/// Parking a reader or a writer on a pipe changes just that queue of that pipe.
pub proof fn law_parking_changes_one_queue(a: Seq<Pipe>, b: Seq<Pipe>, i: int, q: Seq<usize>)
    requires
        0 <= i < a.len(),
        pipe::readers_become(a, b, i, q) || pipe::writers_become(a, b, i, q),
    ensures
        b.len() == a.len(),
        pipe::readers_become(a, b, i, q) ==> b[i].readers@ == q && b[i].writers == a[i].writers,
        pipe::writers_become(a, b, i, q) ==> b[i].writers@ == q && b[i].readers == a[i].readers,
        b[i].data == a[i].data,
        b[i].in_use == a[i].in_use,
        b[i].write_closed == a[i].write_closed,
        forall|j: int| 0 <= j < a.len() && j != i ==> b[j] == a[j],
{
}

/// The two ends of a channel face each other: what one sends, the other receives.
pub proof fn law_ends_face_each_other(c: Conn, side: u8)
    requires
        side < 2,
    ensures
        channel::peer(side) != side,
        channel::peer(side) < 2,
        channel::peer(channel::peer(side)) == side,
        c.receives(side) == c.sends(channel::peer(side)),
        c.sends(0) == c.dir0,
        c.sends(1) == c.dir1,
        c.is_open(0) == c.open0,
        c.is_open(1) == c.open1,
{
}

/// A new channel is open at both ends and empty in both directions; it takes the lowest
/// place that is free, and with none free nothing changes.
pub proof fn law_new_channel(a: Conns, b: Conns, r: Option<u8>)
    requires
        a.wf(),
        channel::creates(a, b, r),
    ensures
        r is None <==> forall|i: int| 0 <= i < 8 ==> (#[trigger] a.slots@[i]).in_use,
        r is None ==> b == a,
        r matches Some(k) ==> {
            &&& k < 8
            &&& !a.slots@[k as int].in_use
            &&& b.slots@[k as int].in_use
            &&& b.slots@[k as int].open0 && b.slots@[k as int].open1
            &&& b.slots@[k as int].dir0.data@.len() == 0 && b.slots@[k as int].dir0.caps@.len() == 0
            &&& b.slots@[k as int].dir1.data@.len() == 0 && b.slots@[k as int].dir1.caps@.len() == 0
            &&& forall|i: int| 0 <= i < 8 && i != k ==> b.slots@[i] == a.slots@[i]
        },
{
    lemma_free_conn(a.slots@, 0);
}

proof fn lemma_free_conn(v: Seq<Conn>, i: int)
    requires
        0 <= i <= v.len(),
    ensures
        i <= channel::free_from(v, i) <= v.len(),
        channel::free_from(v, i) < v.len() ==> !v[channel::free_from(v, i)].in_use,
        forall|k: int| i <= k < channel::free_from(v, i) ==> (#[trigger] v[k]).in_use,
    decreases v.len() - i,
{
    if i < v.len() {
        lemma_free_conn(v, i + 1);
    }
}

/// What a poll of a channel says: 1 for something to read or the end, 2 for the end, 4 for
/// room to write.
pub proof fn law_poll_tells_readiness(c: Conn, side: u8)
    requires
        side < 2,
        c.wf(),
        c.in_use,
    ensures
        ({
            let r = channel::readiness(c, side);
            let d = c.sends(channel::peer(side));
            let open = c.is_open(channel::peer(side));
            &&& r < 8
            &&& r % 2 == 1 <==> d.data@.len() > 0 || d.caps@.len() > 0 || !open
            &&& (r / 2) % 2 == 1 <==> !open
            &&& r / 4 == 1 <==> open && c.sends(side).data@.len() < 8192
        }),
{
}

/// A receive gives what there is, up to what was asked for; with nothing there the receiver
/// waits while the other end is open, and is told of the end when it is not.
pub proof fn law_channel_gives_what_there_is(c: Conn, side: u8, want: nat)
    requires
        side < 2,
        c.wf(),
        c.in_use,
    ensures
        ({
            let d = c.sends(channel::peer(side));
            let any = d.data@.len() > 0 || d.caps@.len() > 0;
            let r = channel::recv_outcome(c, side, want);
            &&& any ==> (r matches RecvOut::Data(n) && n <= want && n <= d.data@.len() && (n == want
                || n == d.data@.len()))
            &&& !any && c.is_open(channel::peer(side)) ==> r is WouldBlock
            &&& !any && !c.is_open(channel::peer(side)) ==> r is Eof
        }),
{
}

/// A send puts in as much as there is room for, bytes and capabilities alike, behind what is
/// there; it is done when all of it is in, and sleeps when not. With the other end gone it
/// is over at once, and nothing changes.
#[verifier::spinoff_prover]
pub proof fn law_channel_send(
    a: Kernel,
    b: Kernel,
    cpu: usize,
    conn: int,
    side: u8,
    data: Seq<u8>,
    caps: Seq<HandleEntry>,
    done: u64,
    step: SendStep,
)
    requires
        a.wf(),
        a.sched.up(cpu),
        0 <= conn < 8,
        side < 2,
        done + data.len() <= u64::MAX,
        stream::chan_sends(a, b, cpu, conn, side, data, caps, done, step),
    ensures
        ({
            let c = a.conns.slots@[conn];
            let d = c.sends(side);
            let e = b.conns.slots@[conn].sends(side);
            let me = a.sched.running(cpu);
            let reachable = c.in_use && c.is_open(channel::peer(side));
            &&& !reachable ==> b == a && step.bytes == 0 && step.caps == 0 && step.out
                == Outcome::Done(0, done)
            &&& reachable ==> {
                &&& step.bytes <= data.len() && step.caps <= caps.len()
                &&& e.data@ == d.data@ + data.subrange(0, step.bytes as int)
                &&& e.caps@ == d.caps@ + caps.subrange(0, step.caps as int)
                &&& step.bytes == data.len() || e.data@.len() == 8192
                &&& step.caps == caps.len() || e.caps@.len() == 16
                &&& step.bytes == data.len() && step.caps == caps.len() <==> step.out
                    == Outcome::Done(0, (done + step.bytes) as u64)
                &&& !(step.bytes == data.len() && step.caps == caps.len()) ==> {
                    &&& step.out == Outcome::Sleep
                    &&& b.sched.tcbs@[me].state == State::Blocked
                    &&& d.writers@.len() < 8 ==> e.writers@.contains(me as usize)
                }
                &&& step.bytes > 0 || step.caps > 0 ==> e.readers@.len() == 0
                &&& b.conns.slots@[conn].sends(channel::peer(side)) == c.sends(channel::peer(side))
                &&& b.conns.slots@[conn].in_use == c.in_use
                &&& b.conns.slots@[conn].open0 == c.open0 && b.conns.slots@[conn].open1 == c.open1
                &&& forall|i: int| 0 <= i < 8 && i != conn ==> b.conns.slots@[i] == a.conns.slots@[i]
            }
        }),
{
    let c = a.conns.slots@[conn];
    assert(c.wf());
    assert(a.sched.cpus@[cpu as int].current < 256);
    let d = c.sends(side);
    let me = a.sched.running(cpu);
    law_joining_a_wait_queue(d.writers@, me as usize);
    if d.readers@.len() > 0 {
        law_all_listed_are_woken(a.sched.tcbs@, d.readers@, d.readers@.len() as int, me);
    }
}

/// A receiver finds each capability under the handle it is told of, and every handle that it
/// had still leads where it did.
pub proof fn law_received_capabilities_are_held(
    table: Table,
    regions: Seq<Region>,
    handles: Seq<crate::abi::Handle>,
    ents: Seq<HandleEntry>,
    i: int,
)
    requires
        table.len() == 64,
        0 <= i <= ents.len(),
        handles.len() == i,
        !stream::installed_from(table, regions, handles, ents, i).full,
    ensures
        ({
            let r = stream::installed_from(table, regions, handles, ents, i);
            &&& r.handles.len() == ents.len()
            &&& r.table.len() == 64
            &&& forall|k: int| 0 <= k < i ==> r.handles[k] == handles[k]
            &&& forall|k: int|
                i <= k < ents.len() ==> 1 <= (#[trigger] r.handles[k]) < 64
                    && r.table[r.handles[k] as int] == Some(ents[k])
            &&& forall|h: int|
                0 <= h < 64 && (#[trigger] table[h]) is Some ==> r.table[h] == table[h]
        }),
    decreases ents.len() - i,
{
    if i < ents.len() {
        proc::lemma_empty_from(table, 1);
        let h = proc::next_slot(table);
        let t1 = table.update(h, Some(ents[i]));
        let h1 = handles.push(h as u32);
        law_received_capabilities_are_held(
            t1,
            ipc::handle_noted(regions, ents[i]),
            h1,
            ents,
            i + 1,
        );
        let r = stream::installed_from(table, regions, handles, ents, i);
        assert(r.handles[i] == h1[i]);
        assert(t1[h] is Some);
        assert forall|k: int| 0 <= k < i implies r.handles[k] == handles[k] by {
            assert(r.handles[k] == h1[k]);
        }
        assert forall|k: int| i <= k < ents.len() implies 1 <= (#[trigger] r.handles[k]) < 64
            && r.table[r.handles[k] as int] == Some(ents[k]) by {
            if k > i {
                assert(i + 1 <= k);
            }
        }
        assert forall|x: int| 0 <= x < 64 && (#[trigger] table[x]) is Some implies r.table[x]
            == table[x] by {
            assert(t1[x] == table[x]);
        }
    }
}

/// A receive takes out what was first in the channel: with the buffers within reach, the
/// bytes and as many capabilities as were asked for, and the count of both.
#[verifier::spinoff_prover]
pub proof fn law_channel_receive(
    a: Kernel,
    b: Kernel,
    cpu: usize,
    u: UserSpace,
    conn: int,
    side: u8,
    buf: u64,
    want: nat,
    caps_out: u64,
    ncaps: nat,
    nonblock: bool,
    step: RecvStep,
)
    requires
        a.wf(),
        a.in_process(cpu),
        0 <= conn < 8,
        side < 2,
        a.conns.slots@[conn].in_use,
        stream::chan_receives(
            a,
            b,
            cpu,
            u,
            conn,
            side,
            buf,
            want,
            caps_out,
            ncaps,
            nonblock,
            step,
        ),
    ensures
        ({
            let c = a.conns.slots@[conn];
            let d = c.sends(channel::peer(side));
            let e = b.conns.slots@[conn].sends(channel::peer(side));
            let me = a.sched.running(cpu);
            let any = d.data@.len() > 0 || d.caps@.len() > 0;
            let open = c.is_open(channel::peer(side));
            &&& !any && !open ==> b == a && step.out == Outcome::Done(0, 0)
            &&& !any && open && nonblock ==> b == a && step.out == Outcome::Done(11, 0)
            &&& !any && open && !nonblock ==> {
                &&& step.out == Outcome::Sleep
                &&& b.sched.tcbs@[me].state == State::Blocked
                &&& d.readers@.len() < 8 ==> e.readers@.contains(me as usize)
            }
            &&& !any ==> step.bytes@.len() == 0 && step.handles@.len() == 0
            &&& any && step.out is Done && (step.out->Done_0 == 0 || step.out->Done_0 == 6) ==> {
                &&& d.data@ == step.bytes@ + e.data@
                &&& step.bytes@.len() == want || e.data@.len() == 0
            }
            &&& any && step.out is Done && step.out->Done_0 == 0 ==> {
                &&& step.handles@.len() == ncaps || e.caps@.len() == 0
                &&& d.caps@.len() == step.handles@.len() + e.caps@.len()
                &&& forall|k: int|
                    #![trigger step.handles@[k]]
                    0 <= k < step.handles@.len() ==> 1 <= step.handles@[k] < 64
                        && b.procs.v@[a.caller(cpu)].handles@[step.handles@[k] as int] == Some(
                        d.caps@[k],
                    )
            }
            &&& step.bytes@.len() > 0 && step.out is Done && step.out->Done_0 == 0
                ==> e.writers@.len() == 0
            &&& b.conns.slots@[conn].sends(side) == c.sends(side)
            &&& forall|i: int| 0 <= i < 8 && i != conn ==> b.conns.slots@[i] == a.conns.slots@[i]
        }),
{
    let c = a.conns.slots@[conn];
    assert(c.wf());
    assert(a.sched.cpus@[cpu as int].current < 256);
    let d = c.receives(side);
    let me = a.sched.running(cpu);
    law_joining_a_wait_queue(d.readers@, me as usize);
    match channel::recv_outcome(c, side, want) {
        RecvOut::Data(n) => {
            let nc = ring::min_of(ncaps, d.caps@.len());
            let ents = d.caps@.subrange(0, nc as int);
            let t = stream::installed_from(
                a.caller_table(cpu),
                a.regions.v@,
                Seq::empty(),
                ents,
                0,
            );
            if !t.full {
                law_received_capabilities_are_held(
                    a.caller_table(cpu),
                    a.regions.v@,
                    Seq::empty(),
                    ents,
                    0,
                );
                assert forall|k: int| 0 <= k < nc implies #[trigger] ents[k] == d.caps@[k] by {}
            }
            assert(d.data@ =~= d.data@.subrange(0, n as int) + d.data@.subrange(
                n as int,
                d.data@.len() as int,
            ));
        },
        _ => {},
    }
}

/// A number is cut to a limit and not changed below it.
pub proof fn law_capped(n: u64, limit: u64)
    ensures
        stream::capped(n, limit) <= n,
        stream::capped(n, limit) <= limit,
        stream::capped(n, limit) == n || stream::capped(n, limit) == limit,
        ring::min_of(n as nat, limit as nat) == stream::capped(n, limit),
{
}

/// The places of a ring's items are different and within it.
pub proof fn law_ring_places_differ(head: int, i: int, j: int, cap: int)
    requires
        0 <= head < cap,
        0 <= i < j < cap,
    ensures
        0 <= ring::ring_slot(head, i, cap) < cap,
        ring::ring_slot(head, i, cap) != ring::ring_slot(head, j, cap),
        ring::ring_slot(head, i + 1, cap) == if ring::ring_slot(head, i, cap) + 1 == cap {
            0
        } else {
            ring::ring_slot(head, i, cap) + 1
        },
{
}

/// What is laid over a buffer is at its start; the rest of the buffer stays.
pub proof fn law_overlay(dst: Seq<u8>, src: Seq<u8>, i: int)
    requires
        src.len() <= dst.len(),
        0 <= i < dst.len(),
    ensures
        ring::overlay(dst, src).len() == dst.len(),
        i < src.len() ==> ring::overlay(dst, src)[i] == src[i],
        i >= src.len() ==> ring::overlay(dst, src)[i] == dst[i],
{
}

} // verus!
