//! Who runs where: whatever a system call does to the threads, no thread is on two
//! processors and a processor's idle thread stays its own.
use vstd::prelude::*;
use crate::abi::{MsgView, HANDLE_TABLE_SIZE};
use crate::ipc;
use crate::ipc::{SlotView, World};
use crate::kernel::Kernel;
use crate::notif;
use crate::notif::{Notif, Outcome};
use crate::object::HandleEntry;
use crate::percpu::PerCpu;
use crate::proc;
use crate::proc::{Owed, Process, MAX_PROCS};
use crate::syscall;
use crate::syscall::stream;
use crate::syscall::stream::SendStep;
use crate::thread;
use crate::thread::{State, Tcb, MAX_THREADS};

verus! {

/// Some threads were woken, and nothing else happened to any.
pub open spec fn only_woken(a: Seq<Tcb>, b: Seq<Tcb>) -> bool {
    &&& b.len() == a.len()
    &&& forall|t: int|
        0 <= t < a.len() ==> (#[trigger] b[t]) == a[t] || b[t] == thread::woken(a[t])
}

/// Some threads were woken, and `me` may have gone to sleep.
pub open spec fn sleeps(a: Seq<Tcb>, b: Seq<Tcb>, me: int) -> bool {
    ||| only_woken(a, b)
    ||| exists|m: Seq<Tcb>| #[trigger]
        only_woken(a, m) && b == thread::state_set(m, me, State::Blocked)
}

/// Waking threads puts none on a processor, and takes none off.
pub proof fn law_waking_keeps_turns(a: Seq<Tcb>, b: Seq<Tcb>, cpus: Seq<PerCpu>)
    requires
        thread::in_range(a, cpus),
        thread::exclusive(a, cpus),
        only_woken(a, b),
    ensures
        thread::in_range(b, cpus),
        thread::exclusive(b, cpus),
{
    assert forall|t: int| 0 <= t < MAX_THREADS && (#[trigger] b[t]).running_on
        != thread::OFF_CPU implies {
        &&& 0 <= b[t].running_on < cpus.len()
        &&& cpus[b[t].running_on as int].current == t
    } by {
        assert(a[t].running_on == b[t].running_on);
    }
    assert forall|c: int| 0 <= c < cpus.len() implies {
        &&& b[(#[trigger] cpus[c]).idle_tid as int].state == State::Running
        &&& b[cpus[c].current as int].running_on == thread::OFF_CPU ==> cpus[c].current
            == cpus[c].idle_tid
        &&& b[cpus[c].current as int].state != State::Free
        &&& b[cpus[c].current as int].state != State::Exited
    } by {
        let (i, r) = (cpus[c].idle_tid as int, cpus[c].current as int);
        assert(a[i].state == State::Running);
        assert(b[i] == a[i] || b[i] == thread::woken(a[i]));
        assert(b[r] == a[r] || b[r] == thread::woken(a[r]));
    }
}

/// A thread that goes to sleep, other than an idle one, stays where it is until the next
/// switch.
pub proof fn law_sleeping_keeps_turns(a: Seq<Tcb>, b: Seq<Tcb>, cpus: Seq<PerCpu>, cpu: int)
    requires
        thread::in_range(a, cpus),
        thread::exclusive(a, cpus),
        0 <= cpu < cpus.len(),
        cpus[cpu].current != cpus[cpu].idle_tid,
        sleeps(a, b, cpus[cpu].current as int),
    ensures
        thread::in_range(b, cpus),
        thread::exclusive(b, cpus),
{
    let me = cpus[cpu].current as int;
    if only_woken(a, b) {
        law_waking_keeps_turns(a, b, cpus);
    } else {
        let m = choose|m: Seq<Tcb>| #[trigger]
            only_woken(a, m) && b == thread::state_set(m, me, State::Blocked);
        law_waking_keeps_turns(a, m, cpus);
        assert forall|t: int| 0 <= t < MAX_THREADS && (#[trigger] b[t]).running_on
            != thread::OFF_CPU implies {
            &&& 0 <= b[t].running_on < cpus.len()
            &&& cpus[b[t].running_on as int].current == t
        } by {
            assert(m[t].running_on == b[t].running_on);
        }
        assert forall|c: int| 0 <= c < cpus.len() implies {
            &&& b[(#[trigger] cpus[c]).idle_tid as int].state == State::Running
            &&& b[cpus[c].current as int].running_on == thread::OFF_CPU ==> cpus[c].current
                == cpus[c].idle_tid
            &&& b[cpus[c].current as int].state != State::Free
            &&& b[cpus[c].current as int].state != State::Exited
        } by {
            assert(m[cpus[c].idle_tid as int].state == State::Running);
            assert(c != cpu ==> cpus[cpu].current != cpus[c].idle_tid);
        }
    }
}

/// Waking one more thread.
proof fn lemma_one_more(a: Seq<Tcb>, b: Seq<Tcb>, t: int)
    requires
        only_woken(a, b),
        0 <= t < a.len(),
    ensures
        only_woken(a, b.update(t, thread::woken(b[t]))),
{
    let c = b.update(t, thread::woken(b[t]));
    assert forall|x: int| 0 <= x < a.len() implies (#[trigger] c[x]) == a[x] || c[x]
        == thread::woken(a[x]) by {
        assert(b[x] == a[x] || b[x] == thread::woken(a[x]));
    }
}

proof fn lemma_all_woken(tcbs: Seq<Tcb>, list: Seq<usize>, n: int)
    requires
        0 <= n <= list.len(),
        forall|i: int| 0 <= i < list.len() ==> #[trigger] list[i] < tcbs.len(),
    ensures
        only_woken(tcbs, syscall::all_woken(tcbs, list, n)),
    decreases n,
{
    if n > 0 {
        lemma_all_woken(tcbs, list, n - 1);
        lemma_one_more(tcbs, syscall::all_woken(tcbs, list, n - 1), list[n - 1] as int);
    }
}

/// A signal wakes at most its waiter.
pub proof fn law_signal_only_wakes(
    a: Seq<Notif>,
    b: Seq<Notif>,
    slots: (Seq<SlotView>, Seq<SlotView>),
    ta: Seq<Tcb>,
    tb: Seq<Tcb>,
    i: int,
)
    requires
        0 <= i < a.len(),
        a[i].wf(),
        ta.len() == MAX_THREADS,
        notif::signalled(a, b, slots.0, slots.1, ta, tb, i),
    ensures
        only_woken(ta, tb),
{
}

/// Waiting for a signal puts at most the caller to sleep.
pub proof fn law_wait_only_sleeps(a: Kernel, b: Kernel, cpu: usize, i: int, r: Outcome)
    requires
        a.wf(),
        a.sched.up(cpu),
        notif::waits(a.notifs, b.notifs, a.sched, b.sched, cpu, i, r),
    ensures
        sleeps(a.sched.tcbs@, b.sched.tcbs@, a.sched.running(cpu)),
{
    assert(only_woken(a.sched.tcbs@, a.sched.tcbs@));
}

/// Every thread that a message can reach exists.
pub open spec fn peers_exist(w: World) -> bool {
    &&& w.tcbs.len() == MAX_THREADS
    &&& forall|ep: int, i: int|
        0 <= ep < w.eps.len() && 0 <= i < w.eps[ep].queue.len() ==> #[trigger] w.eps[ep].queue[i]
            < MAX_THREADS
    &&& forall|ep: int|
        0 <= ep < w.eps.len() && (#[trigger] w.eps[ep]).waiter is Some ==> w.eps[ep].waiter->0
            < MAX_THREADS
}

/// A send wakes at most its receiver, who is another thread, and puts at most the sender to
/// sleep.
pub proof fn law_send_only_sleeps(
    w: World,
    me: int,
    ep: int,
    msg: MsgView,
    uptr: u64,
    is_call: bool,
)
    requires
        peers_exist(w),
        0 <= me < MAX_THREADS,
        0 <= ep < w.eps.len(),
        w.eps[ep].waiter != Some(me as usize),
    ensures
        sleeps(w.tcbs, ipc::sent(w, me, ep, msg, uptr, is_call).0.tcbs, me),
{
    let b = ipc::sent(w, me, ep, msg, uptr, is_call).0;
    assert(only_woken(w.tcbs, w.tcbs));
    if let Some(r) = w.eps[ep].waiter {
        lemma_one_more(w.tcbs, w.tcbs, r as int);
        let m = w.tcbs.update(r as int, thread::woken(w.tcbs[r as int]));
        let asleep = thread::state_set(w.tcbs, me, State::Blocked);
        assert(asleep.update(r as int, thread::woken(asleep[r as int])) =~= thread::state_set(
            m,
            me,
            State::Blocked,
        ));
        assert(b.tcbs == w.tcbs || b.tcbs == m || b.tcbs == thread::state_set(
            m,
            me,
            State::Blocked,
        ));
    }
}

/// A receive wakes at most senders.
pub proof fn law_receive_only_wakes(w: World, me: int, ep: int)
    requires
        peers_exist(w),
        0 <= ep < w.eps.len(),
    ensures
        only_woken(w.tcbs, ipc::served(w, me, ep).0.tcbs),
    decreases w.eps[ep].queue.len(),
{
    if w.eps[ep].in_use && w.eps[ep].queue.len() > 0 {
        let from = w.eps[ep].queue[0] as int;
        let dst = w.tcbs[me].proc as int;
        let p = ipc::popped(w, ep);
        let (w1, err) = ipc::moved(p, from, dst);
        assert(w1.tcbs == w.tcbs);
        assert(only_woken(w.tcbs, w.tcbs));
        lemma_one_more(w.tcbs, w.tcbs, from);
        let again = match err {
            Some(e) => Some(ipc::refused(w1, from, e)),
            None => if w1.slots[from].is_call {
                let m = ipc::mint(w1.replies, w1.tables, from as usize, dst);
                let w2 = World { replies: m.replies, tables: m.tables, ..w1 };
                match m.handle {
                    Err(e) => Some(ipc::refused(w2, from, e)),
                    Ok(h) => None,
                }
            } else {
                None
            },
        };
        if let Some(n) = again {
            assert(peers_exist(n)) by {
                assert forall|e: int, i: int|
                    0 <= e < n.eps.len() && 0 <= i < n.eps[e].queue.len() implies #[trigger] n.eps[e].queue[i]
                    < MAX_THREADS by {
                    if e == ep {
                        assert(n.eps[e].queue[i] == w.eps[e].queue[i + 1]);
                    } else {
                        assert(n.eps[e] == w.eps[e]);
                    }
                }
                assert forall|e: int|
                    0 <= e < n.eps.len() && (#[trigger] n.eps[e]).waiter is Some implies n.eps[e].waiter->0
                    < MAX_THREADS by {
                    assert(n.eps[e].waiter == w.eps[e].waiter);
                }
            }
            law_receive_only_wakes(n, me, ep);
            let end = ipc::served(n, me, ep).0.tcbs;
            assert forall|t: int| 0 <= t < w.tcbs.len() implies (#[trigger] end[t]) == w.tcbs[t]
                || end[t] == thread::woken(w.tcbs[t]) by {
                assert(n.tcbs[t] == w.tcbs[t] || n.tcbs[t] == thread::woken(w.tcbs[t]));
            }
            assert(ipc::served(w, me, ep).0 == ipc::served(n, me, ep).0);
        }
    } else {
        assert(only_woken(w.tcbs, w.tcbs));
    }
}

/// A reply wakes at most the caller it answers.
pub proof fn law_reply_only_wakes(w: World, idx: int, msg: MsgView, src: int)
    requires
        0 <= idx < w.replies.len(),
        w.replies[idx].caller_tid < w.tcbs.len(),
    ensures
        only_woken(w.tcbs, ipc::replied(w, idx, msg, src).tcbs),
{
    assert(only_woken(w.tcbs, w.tcbs));
    lemma_one_more(w.tcbs, w.tcbs, w.replies[idx].caller_tid as int);
}

/// A send on a channel wakes at most receivers, and puts at most the sender to sleep.
pub proof fn law_channel_only_sleeps(
    a: Kernel,
    b: Kernel,
    cpu: usize,
    conn: int,
    side: u8,
    data: Seq<u8>,
    caps: Seq<HandleEntry>,
    done: u64,
    step: SendStep,
)
    requires
        a.wf(),
        a.sched.up(cpu),
        0 <= conn < crate::channel::NCONN,
        stream::chan_sends(a, b, cpu, conn, side, data, caps, done, step),
    ensures
        sleeps(a.sched.tcbs@, b.sched.tcbs@, a.sched.running(cpu)),
{
    let d = a.conns.slots@[conn].sends(side);
    assert(a.conns.slots@[conn].wf());
    assert(only_woken(a.sched.tcbs@, a.sched.tcbs@));
    lemma_all_woken(a.sched.tcbs@, d.readers@, d.readers@.len() as int);
}

/// A write to a pipe wakes at most readers, and puts at most the writer to sleep.
pub proof fn law_pipe_only_sleeps(
    a: Kernel,
    b: Kernel,
    cpu: usize,
    idx: int,
    src: Seq<u8>,
    done: u64,
    n: nat,
    out: Outcome,
)
    requires
        a.wf(),
        a.sched.up(cpu),
        0 <= idx < crate::pipe::NPIPES,
        stream::pipe_writes(a, b, cpu, idx, src, done, n, out),
    ensures
        sleeps(a.sched.tcbs@, b.sched.tcbs@, a.sched.running(cpu)),
{
    let p = a.pipes.slots@[idx];
    assert(p.wf());
    assert(only_woken(a.sched.tcbs@, a.sched.tcbs@));
    lemma_all_woken(a.sched.tcbs@, p.readers@, p.readers@.len() as int);
}

proof fn lemma_abandoned(w: Owed, list: Seq<(u8, u64)>, n: int)
    requires
        0 <= n <= list.len(),
        w.2.len() == MAX_THREADS,
        forall|i: int| 0 <= i < list.len() ==> (#[trigger] list[i]).0 < w.0.len(),
        forall|i: int|
            0 <= i < w.0.len() && (#[trigger] w.0[i]).in_use ==> w.0[i].caller_tid < MAX_THREADS,
    ensures
        ({
            let v = proc::abandoned_upto(w, list, n);
            &&& only_woken(w.2, v.2)
            &&& v.0.len() == w.0.len()
            &&& forall|i: int|
                0 <= i < v.0.len() && (#[trigger] v.0[i]).in_use ==> v.0[i].caller_tid
                    < MAX_THREADS
        }),
    decreases n,
{
    if n > 0 {
        lemma_abandoned(w, list, n - 1);
        let v = proc::abandoned_upto(w, list, n - 1);
        let idx = list[n - 1].0 as int;
        if ipc::pending(v.0[idx], list[n - 1].1) {
            lemma_one_more(w.2, v.2, v.0[idx].caller_tid as int);
        }
    }
}

/// Killing a process wakes at most those it owed a reply and the one that waits for its
/// end.
pub proof fn law_kill_keeps_turns(a: Kernel, b: Kernel, id: int, code: i32)
    requires
        a.wf(),
        0 <= id < MAX_PROCS,
        proc::killed(a, b, id, code),
        thread::exclusive(a.sched.tcbs@, a.sched.cpus@),
    ensures
        only_woken(a.sched.tcbs@, b.sched.tcbs@),
        thread::exclusive(b.sched.tcbs@, b.sched.cpus@),
{
    let p = a.procs.v@[id];
    assert(p.wf());
    let list = Process::replies_upto(p.handles@, HANDLE_TABLE_SIZE as int);
    let w = (a.ipc.replies@, a.ipc.slots.views(), a.sched.tcbs@);
    proc::lemma_replies_exist(p.handles@, HANDLE_TABLE_SIZE as int);
    assert forall|i: int| 0 <= i < w.0.len() && (#[trigger] w.0[i]).in_use implies w.0[i].caller_tid
        < MAX_THREADS by {
        assert(ipc::reply_ok(a.ipc.replies@[i], a.sched.tcbs@));
    }
    lemma_abandoned(w, list, list.len() as int);
    let owed = proc::abandoned_upto(w, list, list.len() as int);
    if let Some(n) = p.exit_notif {
        assert(a.notifs.pool@[n as int].wf());
        let pool = a.notifs.pool@.update(
            n as int,
            Notif { exit_code: code, ..a.notifs.pool@[n as int] },
        );
        match pool[n as int].bound_waiter {
            Some(t) => lemma_one_more(a.sched.tcbs@, owed.2, t as int),
            None => if let Some(t) = pool[n as int].waiter {
                lemma_one_more(a.sched.tcbs@, owed.2, t as int);
            },
        }
    }
    law_waking_keeps_turns(a.sched.tcbs@, b.sched.tcbs@, a.sched.cpus@);
}

} // verus!
