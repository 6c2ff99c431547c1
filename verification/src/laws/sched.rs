//! Laws of the scheduler: what a thread keeps while others run, and what it is resumed
//! with.

use crate::percpu::PerCpu;
use crate::thread::{self, Sched, State, Tcb};
use vstd::prelude::*;

verus! {

/// A switch hands the processor over to the thread it names and to nothing else: that
/// thread runs, on its own kernel stack, with its own thread pointer and, if it has one,
/// in its own address space.
pub proof fn law_switch_resumes_next(
    tcbs: Seq<Tcb>,
    cpus: Seq<PerCpu>,
    b: Sched,
    cpu: usize,
    next: int,
    live: u64,
)
    requires
        thread::in_range(tcbs, cpus),
        cpu < cpus.len(),
        0 <= next < 256,
        thread::switched(tcbs, cpus, b, cpu, next),
    ensures
        thread::switch_plan(tcbs, cpus[cpu as int].current as int, next, live) is None
            <==> cpus[cpu as int].current == next,
        thread::switch_plan(tcbs, cpus[cpu as int].current as int, next, live) matches Some(sw) ==> {
            let t = b.tcbs@[sw.next as int];
            let space = match sw.load_cr3 {
                Some(c) => c,
                None => live,
            };
            &&& sw.next == next
            &&& sw.prev == cpus[cpu as int].current
            &&& b.cpus@[cpu as int].current == sw.next
            &&& b.cpus@[cpu as int].kstack_top == t.kstack_top
            &&& t.state == State::Running
            &&& t.running_on == cpu
            &&& sw.fs_base == t.fs_base
            &&& sw.kstack_top == t.kstack_top
            &&& t.cr3 != 0 ==> space == t.cr3
            &&& t.cr3 == 0 ==> space == live
            &&& b.tcbs@[sw.prev as int].running_on == -1
            &&& b.tcbs@[sw.prev as int].state == tcbs[sw.prev as int].state
        },
        b.cpus@[cpu as int].idle_tid == cpus[cpu as int].idle_tid,
        forall|c: int| 0 <= c < cpus.len() && c != cpu ==> #[trigger] b.cpus@[c] == cpus[c],
        forall|t: int|
            0 <= t < 256 && t != next && t != cpus[cpu as int].current ==> #[trigger] b.tcbs@[t]
                == tcbs[t],
{
}

/// Being switched to or away from changes no thread's identity: process, address space,
/// thread pointer, kernel stack, deadline, futex and sentence stay.
pub proof fn law_switch_keeps_contexts(
    tcbs: Seq<Tcb>,
    cpus: Seq<PerCpu>,
    b: Sched,
    cpu: usize,
    next: int,
    t: int,
)
    requires
        thread::in_range(tcbs, cpus),
        cpu < cpus.len(),
        0 <= next < 256,
        0 <= t < 256,
        thread::switched(tcbs, cpus, b, cpu, next),
    ensures
        b.tcbs@[t].proc == tcbs[t].proc,
        b.tcbs@[t].cr3 == tcbs[t].cr3,
        b.tcbs@[t].fs_base == tcbs[t].fs_base,
        b.tcbs@[t].kstack_top == tcbs[t].kstack_top,
        b.tcbs@[t].ctx_rsp == tcbs[t].ctx_rsp,
        b.tcbs@[t].wake_at == tcbs[t].wake_at,
        b.tcbs@[t].futex_addr == tcbs[t].futex_addr,
        b.tcbs@[t].should_die == tcbs[t].should_die,
{
}

/// A thread is resumed with what it was started with: its thread pointer, a kernel stack
/// of its own and its address space, however often others ran in between, as long as
/// nobody wrote to its slot but to put it to sleep, wake it or switch.
pub proof fn law_started_thread_is_resumed_as_started(
    a: Sched,
    b: Sched,
    tcbs: Seq<Tcb>,
    cpus: Seq<PerCpu>,
    c: Sched,
    cpu: usize,
    tid: int,
    stacks: u64,
    proc: usize,
    cr3: u64,
    fs_base: u64,
    live: u64,
)
    requires
        a.wf(),
        1 <= tid < 256,
        stacks + 256 * 16384 <= u64::MAX,
        thread::tcb_becomes(a, b, tid, thread::spawned(a.tcbs@[tid], tid, stacks, proc, cr3, fs_base)),
        thread::in_range(tcbs, cpus),
        cpu < cpus.len(),
        tcbs[tid].fs_base == b.tcbs@[tid].fs_base,
        tcbs[tid].kstack_top == b.tcbs@[tid].kstack_top,
        tcbs[tid].cr3 == b.tcbs@[tid].cr3,
        tcbs[tid].proc == b.tcbs@[tid].proc,
        cpus[cpu as int].current != tid,
        thread::switched(tcbs, cpus, c, cpu, tid),
    ensures
        thread::switch_plan(tcbs, cpus[cpu as int].current as int, tid, live) matches Some(sw) && {
            &&& sw.next == tid
            &&& sw.fs_base == fs_base
            &&& sw.kstack_top == stacks + (tid + 1) * 16384
            &&& cr3 != 0 && cr3 != live ==> sw.load_cr3 == Some(cr3)
            &&& cr3 == 0 || cr3 == live ==> sw.load_cr3 is None
            &&& c.tcbs@[tid].proc == proc
        },
{
}

/// A thread starts ready, in the process and the address space it was started in, under
/// no sentence and waiting for nothing; its first frame lies on its own kernel stack.
pub proof fn law_start_is_clean(
    a: Sched,
    b: Sched,
    tid: int,
    stacks: u64,
    proc: usize,
    cr3: u64,
    fs_base: u64,
)
    requires
        a.wf(),
        1 <= tid < 256,
        stacks + 256 * 16384 <= u64::MAX,
        thread::tcb_becomes(a, b, tid, thread::spawned(a.tcbs@[tid], tid, stacks, proc, cr3, fs_base)),
    ensures
        b.tcbs@[tid].state == State::Ready,
        !b.tcbs@[tid].should_die,
        b.tcbs@[tid].wake_at == 0,
        b.tcbs@[tid].futex_addr == 0,
        b.tcbs@[tid].proc == proc,
        b.tcbs@[tid].cr3 == cr3,
        b.tcbs@[tid].fs_base == fs_base,
        b.tcbs@[tid].running_on == a.tcbs@[tid].running_on,
        b.tcbs@[tid].ctx_rsp + 56 == b.tcbs@[tid].kstack_top,
        b.cpus@ == a.cpus@,
        forall|t: int| 0 <= t < 256 && t != tid ==> #[trigger] b.tcbs@[t] == a.tcbs@[t],
{
}

/// The kernel stacks of two threads do not overlap.
pub proof fn law_stacks_are_apart(
    s: Tcb,
    t: Tcb,
    i: int,
    j: int,
    stacks: u64,
    p: usize,
    q: usize,
    c: u64,
    d: u64,
    f: u64,
    g: u64,
)
    requires
        0 <= i < j < 256,
        stacks + 256 * 16384 <= u64::MAX,
    ensures
        thread::spawned(s, i, stacks, p, c, f).kstack_top <= thread::spawned(t, j, stacks, q, d, g).kstack_top
            - 16384,
        thread::spawned(s, i, stacks, p, c, f).kstack_top > stacks,
        thread::spawned(t, j, stacks, q, d, g).kstack_top <= stacks + 256 * 16384,
{
}

/// A new thread takes the lowest slot that no live thread has, and 0, the boot thread's,
/// stands for none.
pub proof fn law_lowest_free_slot(tcbs: Seq<Tcb>, i: int)
    requires
        1 <= i,
    ensures
        ({
            let r = thread::free_thread_from(tcbs, i);
            &&& r == 0 ==> forall|t: int|
                i <= t < 256 ==> (#[trigger] tcbs[t]).state != State::Free && tcbs[t].state
                    != State::Exited
            &&& r != 0 ==> {
                &&& i <= r < 256
                &&& tcbs[r].state == State::Free || tcbs[r].state == State::Exited
                &&& forall|t: int|
                    i <= t < r ==> (#[trigger] tcbs[t]).state != State::Free && tcbs[t].state
                        != State::Exited
            }
        }),
    decreases 256 - i,
{
    if i < 256 {
        law_lowest_free_slot(tcbs, i + 1);
    }
}

/// A processor that comes up takes the lowest slot that was never used.
pub proof fn law_lowest_unused_slot(tcbs: Seq<Tcb>, i: int)
    requires
        1 <= i,
    ensures
        ({
            let r = thread::unused_thread_from(tcbs, i);
            &&& r == 0 ==> forall|t: int| i <= t < 256 ==> (#[trigger] tcbs[t]).state != State::Free
            &&& r != 0 ==> {
                &&& i <= r < 256
                &&& tcbs[r].state == State::Free
                &&& forall|t: int| i <= t < r ==> (#[trigger] tcbs[t]).state != State::Free
            }
        }),
    decreases 256 - i,
{
    if i < 256 {
        law_lowest_unused_slot(tcbs, i + 1);
    }
}

/// A processor that has to give up its thread runs another ready thread if there is one,
/// and idles only if there is none.
pub proof fn law_idles_only_alone(tcbs: Seq<Tcb>, cpus: Seq<PerCpu>, cpu: usize)
    requires
        thread::in_range(tcbs, cpus),
        cpu < cpus.len(),
    ensures
        ({
            let n = thread::next_or_idle(tcbs, cpus, cpu);
            let me = cpus[cpu as int].current;
            ||| 0 <= n < 256 && n != me && tcbs[n].state == State::Ready && tcbs[n].running_on
                == -1
            ||| n == cpus[cpu as int].idle_tid && forall|t: int|
                0 <= t < 256 && t != me ==> !((#[trigger] tcbs[t]).state == State::Ready
                    && tcbs[t].running_on == -1)
        }),
{
    thread::law_round_robin(tcbs, cpus[cpu as int].current as int);
    let me = cpus[cpu as int].current as int;
    if thread::next_ready(tcbs, me) is None {
        assert forall|t: int| 0 <= t < 256 && t != me implies !((#[trigger] tcbs[t]).state
            == State::Ready && tcbs[t].running_on == -1) by {
            assert(!thread::runnable(tcbs[t]));
        }
    } else {
        assert(thread::runnable(tcbs[thread::next_ready(tcbs, me)->0]));
    }
}

/// A wake makes a sleeper ready and leaves anyone else as they are; it changes nothing but
/// the state.
pub proof fn law_wake_is_exact(t: Tcb)
    ensures
        t.state == State::Blocked ==> thread::woken(t).state == State::Ready,
        t.state != State::Blocked ==> thread::woken(t).state == t.state,
        thread::woken(t).should_die == t.should_die,
        thread::woken(t).running_on == t.running_on,
        thread::woken(t).ctx_rsp == t.ctx_rsp,
        thread::woken(t).kstack_top == t.kstack_top,
        thread::woken(t).proc == t.proc,
        thread::woken(t).cr3 == t.cr3,
        thread::woken(t).wake_at == t.wake_at,
        thread::woken(t).futex_addr == t.futex_addr,
        thread::woken(t).fs_base == t.fs_base,
{
}

/// Going to sleep and being woken before the switch leaves the thread on its processor,
/// ready to go on; not woken, it is off the processor, blocked, and nobody else was touched.
pub proof fn law_sleep_until_woken(
    a: Sched,
    b: Sched,
    c: Sched,
    cpu: usize,
)
    requires
        a.wf(),
        a.up(cpu),
        thread::with_state(a, b, a.running(cpu), State::Blocked),
        thread::switched(b.tcbs@, b.cpus@, c, cpu, thread::next_or_idle(b.tcbs@, b.cpus@, cpu)),
        a.running(cpu) != a.cpus@[cpu as int].idle_tid,
    ensures
        c.running(cpu) != a.running(cpu),
        c.tcbs@[a.running(cpu)].state == State::Blocked,
        c.tcbs@[a.running(cpu)].running_on == -1,
        c.tcbs@[c.running(cpu)].state == State::Running,
        thread::woken(c.tcbs@[a.running(cpu)]).state == State::Ready,
        thread::runnable(thread::woken(c.tcbs@[a.running(cpu)])),
{
    law_idles_only_alone(b.tcbs@, b.cpus@, cpu);
}

/// A deadline of 0 never passes; any other has passed from its tick on.
pub proof fn law_deadline_passes_once(t: Tcb, now: u64, later: u64)
    requires
        now <= later,
    ensures
        t.wake_at == 0 ==> !thread::expired(t, now),
        t.wake_at != 0 && now >= t.wake_at ==> thread::expired(t, now),
        now < t.wake_at ==> !thread::expired(t, now),
        thread::expired(t, now) ==> thread::expired(t, later),
{
}

/// Every live thread of a process that dies is told so and no longer sleeps; a slot
/// without a live thread is left alone, and nothing else of a thread changes.
pub proof fn law_doom_reaches_sleepers(t: Tcb)
    ensures
        t.state == State::Free || t.state == State::Exited ==> thread::doomed(t) == t,
        t.state != State::Free && t.state != State::Exited ==> {
            &&& thread::doomed(t).should_die
            &&& thread::doomed(t).state != State::Blocked
            &&& t.state == State::Blocked ==> thread::doomed(t).state == State::Ready
            &&& t.state != State::Blocked ==> thread::doomed(t).state == t.state
        },
        thread::doomed(t).proc == t.proc,
        thread::doomed(t).cr3 == t.cr3,
        thread::doomed(t).fs_base == t.fs_base,
        thread::doomed(t).kstack_top == t.kstack_top,
        thread::doomed(t).running_on == t.running_on,
        thread::doomed(t).wake_at == t.wake_at,
        thread::doomed(t).futex_addr == t.futex_addr,
{
}

/// A timed wait ends at the first tick that is no less than the milliseconds asked for
/// away, ten to the tick, or never where the clock would overflow; 0 waits for ever.
pub proof fn law_futex_deadline(ticks: u64, timeout_ms: u64)
    ensures
        timeout_ms == 0 <==> thread::futex_deadline(ticks, timeout_ms) == 0,
        timeout_ms > 0 && thread::futex_deadline(ticks, timeout_ms) < u64::MAX ==> {
            &&& (thread::futex_deadline(ticks, timeout_ms) - ticks) * 10 >= timeout_ms
            &&& (thread::futex_deadline(ticks, timeout_ms) - ticks) * 10 < timeout_ms + 10
        },
        thread::futex_deadline(ticks, timeout_ms) == u64::MAX ==> ticks + timeout_ms > u64::MAX - 10,
        timeout_ms > 0 ==> thread::futex_deadline(ticks, timeout_ms) >= ticks,
{
    if timeout_ms != 0 {
        let w = (timeout_ms + 9) / 10;
        assert(w * 10 >= timeout_ms && w * 10 < timeout_ms + 10);
        assert(w <= timeout_ms);
    }
}

/// Sleepers on a futex are the blocked threads of that process that wait on that very
/// address; the count of them grows by each and by no other.
pub proof fn law_futex_sleepers_are_counted(tcbs: Seq<Tcb>, proc: usize, addr: u64, n: int)
    requires
        1 <= n < 256,
    ensures
        thread::futex_sleepers(tcbs, proc, addr, 1) == 0,
        tcbs[n].state == State::Blocked && tcbs[n].proc == proc && tcbs[n].futex_addr == addr
            ==> thread::futex_sleepers(tcbs, proc, addr, n + 1) == thread::futex_sleepers(tcbs, proc, addr, n) + 1,
        !(tcbs[n].state == State::Blocked && tcbs[n].proc == proc && tcbs[n].futex_addr == addr)
            ==> thread::futex_sleepers(tcbs, proc, addr, n + 1) == thread::futex_sleepers(tcbs, proc, addr, n),
{
}

/// When a thread ends, everyone of its process who waits for it on its word is ready again
/// and waits on nothing; nobody of another process, nobody at another address and nobody
/// awake is touched.
pub proof fn law_joiners_are_woken(tcbs: Seq<Tcb>, proc: usize, addr: u64, t: int)
    requires
        tcbs.len() == 256,
        0 <= t < 256,
    ensures
        thread::joiners_woken(tcbs, proc, addr).len() == 256,
        t >= 1 && tcbs[t].state == State::Blocked && tcbs[t].proc == proc && tcbs[t].futex_addr
            == addr ==> thread::joiners_woken(tcbs, proc, addr)[t].state == State::Ready
            && thread::joiners_woken(tcbs, proc, addr)[t].futex_addr == 0,
        t == 0 || tcbs[t].state != State::Blocked || tcbs[t].proc != proc || tcbs[t].futex_addr
            != addr ==> thread::joiners_woken(tcbs, proc, addr)[t] == tcbs[t],
        thread::joiners_woken(tcbs, proc, addr)[t].proc == tcbs[t].proc,
        thread::joiners_woken(tcbs, proc, addr)[t].wake_at == tcbs[t].wake_at,
        thread::joiners_woken(tcbs, proc, addr)[t].fs_base == tcbs[t].fs_base,
        thread::joiners_woken(tcbs, proc, addr)[t].should_die == tcbs[t].should_die,
{
}

/// A thread that is done with a futex waits on none and has no deadline; it is the same
/// thread in every other respect.
pub proof fn law_futex_done_disarms(t: Tcb, now: u64, proc: usize, addr: u64)
    requires
        addr != 0,
    ensures
        !thread::expired(thread::futex_done(t), now),
        !thread::futex_sleeper(thread::futex_done(t), proc, addr),
        thread::futex_done(t).state == t.state,
        thread::futex_done(t).proc == t.proc,
        thread::futex_done(t).fs_base == t.fs_base,
        thread::futex_done(t).should_die == t.should_die,
{
}

/// A slot no thread has used belongs to no process, runs nowhere and cannot be run.
pub proof fn law_blank_slot_is_idle()
    ensures
        thread::blank_tcb().state == State::Free,
        !thread::runnable(thread::blank_tcb()),
        thread::blank_tcb().running_on == -1,
        thread::blank_tcb().proc == usize::MAX,
        thread::blank_tcb().wake_at == 0,
        thread::blank_tcb().futex_addr == 0,
{
}

/// Setting a thread's state sets that state and nothing else.
pub proof fn law_state_is_set_alone(tcbs: Seq<Tcb>, i: int, st: State, t: int)
    requires
        0 <= i < tcbs.len(),
        0 <= t < tcbs.len(),
    ensures
        thread::state_set(tcbs, i, st).len() == tcbs.len(),
        thread::state_set(tcbs, i, st)[i].state == st,
        thread::state_set(tcbs, i, st)[i].fs_base == tcbs[i].fs_base,
        thread::state_set(tcbs, i, st)[i].proc == tcbs[i].proc,
        thread::state_set(tcbs, i, st)[i].cr3 == tcbs[i].cr3,
        thread::state_set(tcbs, i, st)[i].should_die == tcbs[i].should_die,
        thread::state_set(tcbs, i, st)[i].wake_at == tcbs[i].wake_at,
        t != i ==> thread::state_set(tcbs, i, st)[t] == tcbs[t],
{
}

} // verus!
