//! Threads and the round-robin scheduler.
use vstd::prelude::*;
use crate::notif;
use crate::notif::Notifs;
use crate::percpu::{PerCpu, MAX_CPUS};

verus! {

/// Thread slots.
pub const MAX_THREADS: usize = 256;

/// Bytes of one kernel stack.
pub const KSTACK_SIZE: u64 = 16384;

/// Bytes of the frame a new thread's kernel stack starts with.
pub const FRAME_BYTES: u64 = 56;

/// The boot thread, which idles.
pub const IDLE: usize = 0;

/// Owner of a thread that belongs to no process.
pub const NO_PROC: usize = usize::MAX;

/// `running_on` of a thread no processor runs.
pub const OFF_CPU: i8 = -1;

/// Exit code of a process that faulted in user mode.
pub const FAULT_EXIT: i32 = 139;

#[derive(Clone, Copy, PartialEq, Eq, Debug, Structural)]
pub enum State {
    Free,
    Ready,
    Running,
    Blocked,
    Exited,
}

/// One thread.
#[derive(Clone, Copy)]
pub struct Tcb {
    pub state: State,
    /// The thread is to end itself at its next safe point.
    pub should_die: bool,
    /// The processor the thread's context is live on, or `OFF_CPU`.
    pub running_on: i8,
    pub ctx_rsp: u64,
    pub kstack_top: u64,
    /// Owning process, or `NO_PROC`.
    pub proc: usize,
    /// Address space to load (0 = keep the live one).
    pub cr3: u64,
    /// Tick at which the timer wakes the thread (0 = none).
    pub wake_at: u64,
    /// User address of the futex the thread waits on (0 = none).
    pub futex_addr: u64,
    pub fs_base: u64,
}

/// The scheduler: every thread slot, and the processors that are up.
pub struct Sched {
    pub tcbs: Vec<Tcb>,
    pub cpus: Vec<PerCpu>,
}

impl Sched {
    pub open spec fn wf(&self) -> bool {
        &&& self.tcbs@.len() == MAX_THREADS
        &&& 0 < self.cpus@.len() <= MAX_CPUS
        &&& forall|c: int|
            0 <= c < self.cpus@.len() ==> (#[trigger] self.cpus@[c]).current < MAX_THREADS
                && self.cpus@[c].idle_tid < MAX_THREADS
    }

    /// Processor `cpu` is up.
    pub open spec fn up(&self, cpu: usize) -> bool {
        cpu < self.cpus@.len()
    }

    /// The thread `cpu` runs.
    pub open spec fn running(&self, cpu: usize) -> int {
        self.cpus@[cpu as int].current as int
    }
}

/// The scheduler's safety property: no thread is on two processors, a processor's idle
/// thread runs nowhere else and never waits its turn, and a thread that runs is alive.
pub open spec fn exclusive(tcbs: Seq<Tcb>, cpus: Seq<PerCpu>) -> bool {
    &&& forall|a: int, b: int|
        #![trigger cpus[a], cpus[b]]
        0 <= a < cpus.len() && 0 <= b < cpus.len() && a != b ==> {
            &&& cpus[a].current != cpus[b].current
            &&& cpus[a].current != cpus[b].idle_tid
            &&& cpus[a].idle_tid != cpus[b].idle_tid
        }
    &&& forall|t: int|
        0 <= t < MAX_THREADS && (#[trigger] tcbs[t]).running_on != OFF_CPU ==> {
            &&& 0 <= tcbs[t].running_on < cpus.len()
            &&& cpus[tcbs[t].running_on as int].current == t
        }
    &&& forall|c: int|
        0 <= c < cpus.len() ==> {
            &&& tcbs[(#[trigger] cpus[c]).idle_tid as int].state == State::Running
            &&& tcbs[cpus[c].current as int].running_on == OFF_CPU ==> cpus[c].current
                == cpus[c].idle_tid
            &&& tcbs[cpus[c].current as int].state != State::Free
            &&& tcbs[cpus[c].current as int].state != State::Exited
        }
}

/// Thread `t` may be resumed by any processor.
pub open spec fn runnable(t: Tcb) -> bool {
    t.state == State::Ready && t.running_on == OFF_CPU
}

/// The first runnable thread at distance `off` or more after `cur`, going round.
pub open spec fn pick_from(tcbs: Seq<Tcb>, cur: int, off: int) -> Option<int>
    decreases MAX_THREADS - off,
{
    if off >= MAX_THREADS {
        None
    } else if runnable(tcbs[(cur + off) % MAX_THREADS as int]) {
        Some((cur + off) % MAX_THREADS as int)
    } else {
        pick_from(tcbs, cur, off + 1)
    }
}

/// The thread that follows `cur` in round-robin order.
pub open spec fn next_ready(tcbs: Seq<Tcb>, cur: int) -> Option<int> {
    pick_from(tcbs, cur, 1)
}

/// How far `t` is ahead of `cur`, going round.
pub open spec fn distance(cur: int, t: int) -> int {
    (t - cur + MAX_THREADS) % MAX_THREADS as int
}

proof fn lemma_pick_from(tcbs: Seq<Tcb>, cur: int, off: int)
    requires
        0 <= cur < MAX_THREADS,
        1 <= off,
    ensures
        match pick_from(tcbs, cur, off) {
            Some(t) => {
                &&& 0 <= t < MAX_THREADS
                &&& t != cur
                &&& runnable(tcbs[t])
                &&& off <= distance(cur, t)
                &&& forall|u: int|
                    0 <= u < MAX_THREADS && off <= distance(cur, u) < distance(cur, t)
                        ==> !runnable(#[trigger] tcbs[u])
            },
            None => forall|u: int|
                0 <= u < MAX_THREADS && off <= distance(cur, u) ==> !runnable(#[trigger] tcbs[u]),
        },
    decreases MAX_THREADS - off,
{
    if off < MAX_THREADS {
        let here = (cur + off) % MAX_THREADS as int;
        assert(distance(cur, here) == off);
        lemma_pick_from(tcbs, cur, off + 1);
    }
}

/// Round robin: the thread picked is never the current one, can be resumed, and is the
/// nearest such thread; none is picked only when no other thread can be resumed.
pub proof fn law_round_robin(tcbs: Seq<Tcb>, cur: int)
    requires
        0 <= cur < MAX_THREADS,
    ensures
        match next_ready(tcbs, cur) {
            Some(t) => {
                &&& 0 <= t < MAX_THREADS
                &&& t != cur
                &&& runnable(tcbs[t])
                &&& forall|u: int|
                    0 <= u < MAX_THREADS && u != cur && distance(cur, u) < distance(cur, t)
                        ==> !runnable(#[trigger] tcbs[u])
            },
            None => forall|u: int|
                0 <= u < MAX_THREADS && u != cur ==> !runnable(#[trigger] tcbs[u]),
        },
{
    lemma_pick_from(tcbs, cur, 1);
    assert forall|u: int| 0 <= u < MAX_THREADS && u != cur implies #[trigger] distance(cur, u)
        >= 1 by {}
}

/// No runnable thread starves: each pick is the waiting thread itself or brings the
/// processor strictly nearer to it.
pub proof fn law_no_starvation(tcbs: Seq<Tcb>, cur: int, waiting: int)
    requires
        0 <= cur < MAX_THREADS,
        0 <= waiting < MAX_THREADS,
        waiting != cur,
        runnable(tcbs[waiting]),
    ensures
        next_ready(tcbs, cur) is Some,
        next_ready(tcbs, cur) == Some(waiting) || distance(
            next_ready(tcbs, cur)->0,
            waiting,
        ) < distance(cur, waiting),
{
    law_round_robin(tcbs, cur);
    let t = next_ready(tcbs, cur)->0;
    assert(distance(cur, waiting) >= distance(cur, t));
}

/// Thread `t` woken: a blocked thread becomes ready, any other is left alone.
pub open spec fn woken(t: Tcb) -> Tcb {
    if t.state == State::Blocked {
        Tcb { state: State::Ready, ..t }
    } else {
        t
    }
}

/// The slots differ only in thread `i`, which is now `t`.
pub open spec fn tcb_becomes(a: Sched, b: Sched, i: int, t: Tcb) -> bool {
    &&& b.tcbs@ =~= a.tcbs@.update(i, t)
    &&& b.cpus@ =~= a.cpus@
}

/// The scheduler `b` that results when `cpu` gives up its thread for `next`, from the
/// threads and processors given.
pub open spec fn switched(
    tcbs: Seq<Tcb>,
    cpus: Seq<PerCpu>,
    b: Sched,
    cpu: usize,
    next: int,
) -> bool {
    let prev = cpus[cpu as int].current as int;
    if prev == next {
        b.tcbs@ =~= tcbs && b.cpus@ =~= cpus
    } else {
        &&& b.tcbs@ =~= tcbs.update(prev, Tcb { running_on: OFF_CPU, ..tcbs[prev] }).update(
            next,
            Tcb { running_on: cpu as i8, state: State::Running, ..tcbs[next] },
        )
        &&& b.cpus@ =~= cpus.update(
            cpu as int,
            PerCpu {
                current: next as usize,
                kstack_top: tcbs[next].kstack_top,
                ..cpus[cpu as int]
            },
        )
    }
}

/// `tcbs` with thread `i` in state `st`.
pub open spec fn state_set(tcbs: Seq<Tcb>, i: int, st: State) -> Seq<Tcb> {
    tcbs.update(i, Tcb { state: st, ..tcbs[i] })
}

/// Every processor and thread number is in range.
pub open spec fn in_range(tcbs: Seq<Tcb>, cpus: Seq<PerCpu>) -> bool {
    &&& tcbs.len() == MAX_THREADS
    &&& 0 < cpus.len() <= MAX_CPUS
    &&& forall|c: int|
        0 <= c < cpus.len() ==> (#[trigger] cpus[c]).current < MAX_THREADS && cpus[c].idle_tid
            < MAX_THREADS
}

/// Switching to a thread that round robin picked, or to the processor's own idle
/// thread, never puts a thread on two processors. The thread given up may have just
/// been marked ready, blocked or exited.
pub proof fn law_switch_keeps_exclusive(
    tcbs: Seq<Tcb>,
    cpus: Seq<PerCpu>,
    st: State,
    b: Sched,
    cpu: usize,
    next: int,
)
    requires
        in_range(tcbs, cpus),
        cpu < cpus.len(),
        exclusive(tcbs, cpus),
        0 <= next < MAX_THREADS,
        runnable(tcbs[next]) || next == cpus[cpu as int].idle_tid,
        cpus[cpu as int].current == cpus[cpu as int].idle_tid ==> st == State::Running,
        next != cpus[cpu as int].current || st == State::Running,
        switched(state_set(tcbs, cpus[cpu as int].current as int, st), cpus, b, cpu, next),
    ensures
        exclusive(b.tcbs@, b.cpus@),
{
    let prev = cpus[cpu as int].current as int;
    let mid = state_set(tcbs, prev, st);
    assert forall|x: int, y: int|
        #![trigger b.cpus@[x], b.cpus@[y]]
        0 <= x < b.cpus@.len() && 0 <= y < b.cpus@.len() && x != y implies {
        &&& b.cpus@[x].current != b.cpus@[y].current
        &&& b.cpus@[x].current != b.cpus@[y].idle_tid
        &&& b.cpus@[x].idle_tid != b.cpus@[y].idle_tid
    } by {
        assert(cpus[x].idle_tid != cpus[y].idle_tid);
        assert(tcbs[cpus[x].idle_tid as int].state == State::Running);
        assert(tcbs[cpus[y].idle_tid as int].state == State::Running);
    }
    assert forall|t: int|
        0 <= t < MAX_THREADS && (#[trigger] b.tcbs@[t]).running_on != OFF_CPU implies {
        &&& 0 <= b.tcbs@[t].running_on < b.cpus@.len()
        &&& b.cpus@[b.tcbs@[t].running_on as int].current == t
    } by {
        if t != next && t != prev {
            assert(tcbs[t].running_on == b.tcbs@[t].running_on);
            let c = tcbs[t].running_on as int;
            assert(cpus[c].current == t);
        } else if prev == next {
            assert(tcbs[t].running_on == b.tcbs@[t].running_on);
        }
    }
    assert forall|c: int| 0 <= c < b.cpus@.len() implies {
        &&& b.tcbs@[(#[trigger] b.cpus@[c]).idle_tid as int].state == State::Running
        &&& b.tcbs@[b.cpus@[c].current as int].running_on == OFF_CPU ==> b.cpus@[c].current
            == b.cpus@[c].idle_tid
        &&& b.tcbs@[b.cpus@[c].current as int].state != State::Free
        &&& b.tcbs@[b.cpus@[c].current as int].state != State::Exited
    } by {
        assert(tcbs[cpus[c].idle_tid as int].state == State::Running);
        if c != cpu {
            assert(cpus[c].current != cpus[cpu as int].current);
            assert(cpus[cpu as int].current != cpus[c].idle_tid);
        }
    }
}

/// Starting a thread in a free slot leaves the processors as they are.
pub proof fn law_spawn_keeps_exclusive(
    tcbs: Seq<Tcb>,
    cpus: Seq<PerCpu>,
    tid: int,
    t: Tcb,
)
    requires
        in_range(tcbs, cpus),
        exclusive(tcbs, cpus),
        0 <= tid < MAX_THREADS,
        tcbs[tid].state == State::Free || tcbs[tid].state == State::Exited,
        t.running_on == tcbs[tid].running_on,
    ensures
        exclusive(tcbs.update(tid, t), cpus),
        t.running_on == OFF_CPU,
{
    let b = tcbs.update(tid, t);
    if tcbs[tid].running_on != OFF_CPU {
        let c = tcbs[tid].running_on as int;
        assert(cpus[c].current == tid);
    }
    assert forall|x: int|
        0 <= x < MAX_THREADS && (#[trigger] b[x]).running_on != OFF_CPU implies {
        &&& 0 <= b[x].running_on < cpus.len()
        &&& cpus[b[x].running_on as int].current == x
    } by {
        assert(b[x].running_on == tcbs[x].running_on);
    }
    assert forall|c: int| 0 <= c < cpus.len() implies {
        &&& b[(#[trigger] cpus[c]).idle_tid as int].state == State::Running
        &&& b[cpus[c].current as int].running_on == OFF_CPU ==> cpus[c].current
            == cpus[c].idle_tid
        &&& b[cpus[c].current as int].state != State::Free
        &&& b[cpus[c].current as int].state != State::Exited
    } by {
        assert(tcbs[cpus[c].idle_tid as int].state == State::Running);
        assert(tcbs[cpus[c].current as int].state != State::Exited);
    }
}

/// What the processor has to do for a switch: save `prev`, load `next`.
#[derive(Clone, Copy)]
pub struct Switch {
    pub prev: usize,
    pub next: usize,
    /// Kernel stack to enter the kernel on.
    pub kstack_top: u64,
    pub fs_base: u64,
    /// Address space to load, if it is not the live one.
    pub load_cr3: Option<u64>,
}

/// The switch from `prev` to `next` while address space `live` is loaded.
pub open spec fn switch_plan(tcbs: Seq<Tcb>, prev: int, next: int, live: u64) -> Option<Switch> {
    if prev == next {
        None
    } else {
        Some(
            Switch {
                prev: prev as usize,
                next: next as usize,
                kstack_top: tcbs[next].kstack_top,
                fs_base: tcbs[next].fs_base,
                load_cr3: if tcbs[next].cr3 != 0 && tcbs[next].cr3 != live {
                    Some(tcbs[next].cr3)
                } else {
                    None
                },
            },
        )
    }
}

/// The thread that round robin picks for `cpu`, or else the processor's idle thread.
pub open spec fn next_or_idle(tcbs: Seq<Tcb>, cpus: Seq<PerCpu>, cpu: usize) -> int {
    match next_ready(tcbs, cpus[cpu as int].current as int) {
        Some(t) => t,
        None => cpus[cpu as int].idle_tid as int,
    }
}

/// A slot no thread has used.
pub open spec fn blank_tcb() -> Tcb {
    Tcb {
        state: State::Free,
        should_die: false,
        running_on: OFF_CPU,
        ctx_rsp: 0,
        kstack_top: 0,
        proc: NO_PROC,
        cr3: 0,
        wake_at: 0,
        futex_addr: 0,
        fs_base: 0,
    }
}

/// A page-table root fit to be loaded: page-aligned, below the managed memory's end,
/// and with the kernel half present (`entry256` is its entry 256).
pub open spec fn cr3_sane(cr3: u64, entry256: u64) -> bool {
    &&& cr3 & 0xfff == 0
    &&& cr3 < 0x2000_0000
    &&& entry256 & 1 != 0
}

/// Whether a page-table root may be loaded.
pub fn cr3_ok(cr3: u64, entry256: u64) -> (b: bool)
    ensures
        b == cr3_sane(cr3, entry256),
{
    cr3 & 0xfff == 0 && cr3 < 0x2000_0000 && entry256 & 1 != 0
}

/// The scheduler at boot: the boot thread runs, as the idle thread of processor 0.
pub fn init() -> (s: Sched)
    ensures
        s.wf(),
        exclusive(s.tcbs@, s.cpus@),
        s.cpus@ == seq![PerCpu { cpu_index: 0, current: IDLE, idle_tid: IDLE, kstack_top: 0, user_rsp: 0 }],
        s.tcbs@ == Seq::new(
            MAX_THREADS as nat,
            |i: int|
                if i == IDLE {
                    Tcb { state: State::Running, ..blank_tcb() }
                } else {
                    blank_tcb()
                },
        ),
{
    let mut tcbs: Vec<Tcb> = Vec::new();
    let mut i: usize = 0;
    while i < MAX_THREADS
        invariant
            i <= MAX_THREADS,
            tcbs@.len() == i,
            forall|k: int|
                0 <= k < i ==> #[trigger] tcbs@[k] == (if k == IDLE {
                    Tcb { state: State::Running, ..blank_tcb() }
                } else {
                    blank_tcb()
                }),
        decreases MAX_THREADS - i,
    {
        let state = if i == IDLE {
            State::Running
        } else {
            State::Free
        };
        tcbs.push(
            Tcb {
                state,
                should_die: false,
                running_on: OFF_CPU,
                ctx_rsp: 0,
                kstack_top: 0,
                proc: NO_PROC,
                cr3: 0,
                wake_at: 0,
                futex_addr: 0,
                fs_base: 0,
            },
        );
        i += 1;
    }
    let mut cpus: Vec<PerCpu> = Vec::new();
    cpus.push(
        PerCpu { cpu_index: 0, current: IDLE, idle_tid: IDLE, kstack_top: 0, user_rsp: 0 },
    );
    let s = Sched { tcbs, cpus };
    assert(s.cpus@ =~= seq![PerCpu { cpu_index: 0, current: IDLE, idle_tid: IDLE, kstack_top: 0, user_rsp: 0 }]);
    s
}

/// The thread `cpu` runs.
pub fn current(s: &Sched, cpu: usize) -> (t: usize)
    requires
        s.wf(),
        s.up(cpu),
    ensures
        t == s.running(cpu),
        t < MAX_THREADS,
{
    s.cpus[cpu].current
}

/// The thread `cpu` runs, as user space sees it.
pub fn current_tid(s: &Sched, cpu: usize) -> (t: usize)
    requires
        s.wf(),
        s.up(cpu),
    ensures
        t == s.running(cpu),
        t < MAX_THREADS,
{
    current(s, cpu)
}

/// The process that owns the running thread.
pub fn current_proc(s: &Sched, cpu: usize) -> (p: usize)
    requires
        s.wf(),
        s.up(cpu),
    ensures
        p == s.tcbs@[s.running(cpu)].proc,
{
    s.tcbs[current(s, cpu)].proc
}

/// The thread pointer of the running thread.
pub fn current_fs_base(s: &Sched, cpu: usize) -> (b: u64)
    requires
        s.wf(),
        s.up(cpu),
    ensures
        b == s.tcbs@[s.running(cpu)].fs_base,
{
    s.tcbs[current(s, cpu)].fs_base
}

/// The process that owns thread `tid`.
pub fn process_of(s: &Sched, tid: usize) -> (p: usize)
    requires
        s.wf(),
        tid < MAX_THREADS,
    ensures
        p == s.tcbs@[tid as int].proc,
{
    s.tcbs[tid].proc
}

/// The words a new thread's kernel stack starts with, lowest address first: the
/// callee-saved registers (the entry point and its two arguments among them) and the
/// address the first switch returns to.
pub fn init_stack(trampoline: u64, entry: u64, arg1: u64, arg2: u64) -> (f: [u64; 7])
    ensures
        f@ == seq![0u64, arg2, arg1, entry, 0, 0, trampoline],
{
    let f: [u64; 7] = [0, arg2, arg1, entry, 0, 0, trampoline];
    assert(f@ =~= seq![0u64, arg2, arg1, entry, 0, 0, trampoline]);
    f
}

/// The lowest slot from `i` up that a new thread may use.
pub open spec fn free_thread_from(tcbs: Seq<Tcb>, i: int) -> int
    decreases MAX_THREADS - i,
{
    if i >= MAX_THREADS {
        0
    } else if tcbs[i].state == State::Free || tcbs[i].state == State::Exited {
        i
    } else {
        free_thread_from(tcbs, i + 1)
    }
}

/// Whether there is a slot for a new thread.
pub fn has_slot(s: &Sched) -> (b: bool)
    requires
        s.wf(),
    ensures
        b == (free_thread_from(s.tcbs@, 1) != 0),
{
    let mut slot: usize = 1;
    while slot < MAX_THREADS
        invariant
            s.wf(),
            1 <= slot <= MAX_THREADS,
            free_thread_from(s.tcbs@, 1) == free_thread_from(s.tcbs@, slot as int),
        decreases MAX_THREADS - slot,
    {
        let t = s.tcbs[slot];
        if t.state == State::Free || t.state == State::Exited {
            return true;
        }
        slot += 1;
    }
    false
}

/// What [`spawn`] puts into slot `tid` when the kernel stacks start at `stacks`.
pub open spec fn spawned(
    old_tcb: Tcb,
    tid: int,
    stacks: u64,
    proc: usize,
    cr3: u64,
    fs_base: u64,
) -> Tcb {
    Tcb {
        state: State::Ready,
        should_die: false,
        running_on: old_tcb.running_on,
        ctx_rsp: (stacks + (tid + 1) * KSTACK_SIZE - FRAME_BYTES) as u64,
        kstack_top: (stacks + (tid + 1) * KSTACK_SIZE) as u64,
        proc,
        cr3,
        wake_at: 0,
        futex_addr: 0,
        fs_base,
    }
}

/// Start a thread in the lowest free slot and make it ready. The kernel stacks are an
/// array that begins at address `stacks`. Returns the slot, or 0 if none is free.
pub fn spawn(s: &mut Sched, stacks: u64, proc: usize, cr3: u64, fs_base: u64) -> (tid: usize)
    requires
        old(s).wf(),
        stacks + MAX_THREADS * KSTACK_SIZE <= u64::MAX,
    ensures
        final(s).wf(),
        tid == free_thread_from(old(s).tcbs@, 1),
        tid < MAX_THREADS,
        tid == 0 ==> *final(s) == *old(s),
        tid != 0 ==> tcb_becomes(
            *old(s),
            *final(s),
            tid as int,
            spawned(old(s).tcbs@[tid as int], tid as int, stacks, proc, cr3, fs_base),
        ),
{
    let mut slot: usize = 1;
    while slot < MAX_THREADS
        invariant
            s.wf(),
            *s == *old(s),
            1 <= slot <= MAX_THREADS,
            stacks + MAX_THREADS * KSTACK_SIZE <= u64::MAX,
            free_thread_from(s.tcbs@, 1) == free_thread_from(s.tcbs@, slot as int),
        decreases MAX_THREADS - slot,
    {
        let t = s.tcbs[slot];
        if t.state == State::Free || t.state == State::Exited {
            let top: u64 = stacks + (slot as u64 + 1) * KSTACK_SIZE;
            s.tcbs[slot] = Tcb {
                state: State::Ready,
                should_die: false,
                running_on: t.running_on,
                ctx_rsp: top - FRAME_BYTES,
                kstack_top: top,
                proc,
                cr3,
                wake_at: 0,
                futex_addr: 0,
                fs_base,
            };
            return slot;
        }
        slot += 1;
    }
    0
}

/// Start a thread of the kernel itself.
pub fn spawn_kernel(s: &mut Sched, stacks: u64) -> (tid: usize)
    requires
        old(s).wf(),
        stacks + MAX_THREADS * KSTACK_SIZE <= u64::MAX,
    ensures
        final(s).wf(),
        tid == free_thread_from(old(s).tcbs@, 1),
        tid < MAX_THREADS,
        tid == 0 ==> *final(s) == *old(s),
        tid != 0 ==> tcb_becomes(
            *old(s),
            *final(s),
            tid as int,
            spawned(old(s).tcbs@[tid as int], tid as int, stacks, NO_PROC, 0, 0),
        ),
{
    spawn(s, stacks, NO_PROC, 0, 0)
}

/// Start a thread of process `proc` in address space `cr3`.
pub fn spawn_user(s: &mut Sched, stacks: u64, proc: usize, cr3: u64, fs_base: u64) -> (tid: usize)
    requires
        old(s).wf(),
        stacks + MAX_THREADS * KSTACK_SIZE <= u64::MAX,
    ensures
        final(s).wf(),
        tid == free_thread_from(old(s).tcbs@, 1),
        tid < MAX_THREADS,
        tid == 0 ==> *final(s) == *old(s),
        tid != 0 ==> tcb_becomes(
            *old(s),
            *final(s),
            tid as int,
            spawned(old(s).tcbs@[tid as int], tid as int, stacks, proc, cr3, fs_base),
        ),
{
    spawn(s, stacks, proc, cr3, fs_base)
}

/// Start a thread beside the running one, in its process and address space.
pub fn spawn_thread_in_current(s: &mut Sched, cpu: usize, stacks: u64, fs_base: u64) -> (tid: usize)
    requires
        old(s).wf(),
        old(s).up(cpu),
        stacks + MAX_THREADS * KSTACK_SIZE <= u64::MAX,
    ensures
        final(s).wf(),
        tid == free_thread_from(old(s).tcbs@, 1),
        tid < MAX_THREADS,
        tid == 0 ==> *final(s) == *old(s),
        tid != 0 ==> ({
            let me = old(s).tcbs@[old(s).running(cpu)];
            tcb_becomes(
                *old(s),
                *final(s),
                tid as int,
                spawned(old(s).tcbs@[tid as int], tid as int, stacks, me.proc, me.cr3, fs_base),
            )
        }),
{
    let me = s.tcbs[current(s, cpu)];
    spawn(s, stacks, me.proc, me.cr3, fs_base)
}

/// The lowest slot from `i` up that no thread has used.
pub open spec fn unused_thread_from(tcbs: Seq<Tcb>, i: int) -> int
    decreases MAX_THREADS - i,
{
    if i >= MAX_THREADS {
        0
    } else if tcbs[i].state == State::Free {
        i
    } else {
        unused_thread_from(tcbs, i + 1)
    }
}

/// Bring up another processor, which already runs on `kstack_top`: it gets an idle
/// thread of its own and runs it. `None` if no slot or no processor is left.
pub fn register_running_idle(s: &mut Sched, kstack_top: u64) -> (r: Option<usize>)
    requires
        old(s).wf(),
    ensures
        final(s).wf(),
        r is None <==> unused_thread_from(old(s).tcbs@, 1) == 0 || old(s).cpus@.len()
            == MAX_CPUS,
        match r {
            Some(t) => {
                &&& t == unused_thread_from(old(s).tcbs@, 1)
                &&& final(s).tcbs@ == old(s).tcbs@.update(
                    t as int,
                    Tcb {
                        state: State::Running,
                        kstack_top,
                        running_on: old(s).tcbs@[t as int].running_on,
                        should_die: old(s).tcbs@[t as int].should_die,
                        ..blank_tcb()
                    },
                )
                &&& final(s).cpus@ == old(s).cpus@.push(
                    PerCpu {
                        cpu_index: old(s).cpus@.len() as usize,
                        current: t,
                        idle_tid: t,
                        kstack_top,
                        user_rsp: 0,
                    },
                )
            },
            None => *final(s) == *old(s),
        },
{
    if s.cpus.len() >= MAX_CPUS {
        return None;
    }
    let mut slot: usize = 1;
    while slot < MAX_THREADS
        invariant
            s.wf(),
            *s == *old(s),
            s.cpus@.len() < MAX_CPUS,
            1 <= slot <= MAX_THREADS,
            unused_thread_from(s.tcbs@, 1) == unused_thread_from(s.tcbs@, slot as int),
        decreases MAX_THREADS - slot,
    {
        let t = s.tcbs[slot];
        if t.state == State::Free {
            s.tcbs[slot] = Tcb {
                state: State::Running,
                should_die: t.should_die,
                running_on: t.running_on,
                ctx_rsp: 0,
                kstack_top,
                proc: NO_PROC,
                cr3: 0,
                wake_at: 0,
                futex_addr: 0,
                fs_base: 0,
            };
            let cpu_index: usize = s.cpus.len();
            s.cpus.push(
                PerCpu { cpu_index, current: slot, idle_tid: slot, kstack_top, user_rsp: 0 },
            );
            return Some(slot);
        }
        slot += 1;
    }
    None
}

/// Find the next thread to run after the current one of `cpu`.
pub fn pick_next(s: &Sched, cpu: usize) -> (r: Option<usize>)
    requires
        s.wf(),
        s.up(cpu),
    ensures
        match r {
            Some(t) => next_ready(s.tcbs@, s.running(cpu)) == Some(t as int) && t < MAX_THREADS,
            None => next_ready(s.tcbs@, s.running(cpu)) is None,
        },
{
    let cur: usize = s.cpus[cpu].current;
    let mut off: usize = 1;
    while off < MAX_THREADS
        invariant
            s.wf(),
            s.up(cpu),
            cur == s.running(cpu),
            cur < MAX_THREADS,
            1 <= off <= MAX_THREADS,
            next_ready(s.tcbs@, cur as int) == pick_from(s.tcbs@, cur as int, off as int),
        decreases MAX_THREADS - off,
    {
        let t: usize = (cur + off) % MAX_THREADS;
        if s.tcbs[t].state == State::Ready && s.tcbs[t].running_on == OFF_CPU {
            return Some(t);
        }
        off += 1;
    }
    None
}

/// Hand `cpu` over to thread `next`. `live` is the loaded address space. Returns what
/// the processor has to do, `None` if `next` runs already.
pub fn switch_to(s: &mut Sched, cpu: usize, next: usize, live: u64) -> (r: Option<Switch>)
    requires
        old(s).wf(),
        old(s).up(cpu),
        next < MAX_THREADS,
    ensures
        final(s).wf(),
        switched(old(s).tcbs@, old(s).cpus@, *final(s), cpu, next as int),
        r == switch_plan(old(s).tcbs@, old(s).running(cpu), next as int, live),
        r matches Some(sw) ==> {
            let t = final(s).tcbs@[sw.next as int];
            &&& final(s).running(cpu) == sw.next
            &&& sw.prev == old(s).running(cpu)
            &&& sw.fs_base == t.fs_base
            &&& sw.kstack_top == t.kstack_top
            &&& sw.load_cr3 == (if t.cr3 != 0 && t.cr3 != live {
                Some(t.cr3)
            } else {
                None
            })
        },
{
    let prev: usize = s.cpus[cpu].current;
    if prev == next {
        return None;
    }
    s.tcbs[prev].running_on = OFF_CPU;
    s.tcbs[next].running_on = cpu as i8;
    s.tcbs[next].state = State::Running;
    let t = s.tcbs[next];
    s.cpus[cpu].current = next;
    s.cpus[cpu].kstack_top = t.kstack_top;
    let load_cr3: Option<u64> = if t.cr3 != 0 && t.cr3 != live {
        Some(t.cr3)
    } else {
        None
    };
    Some(Switch { prev, next, kstack_top: t.kstack_top, fs_base: t.fs_base, load_cr3 })
}

/// `s` with thread `i` in state `st`.
pub open spec fn with_state(s: Sched, b: Sched, i: int, st: State) -> bool {
    tcb_becomes(s, b, i, Tcb { state: st, ..s.tcbs@[i] })
}

/// Give up the processor to the next ready thread, if there is one.
pub fn yield_now(s: &mut Sched, cpu: usize, live: u64) -> (r: Option<Switch>)
    requires
        old(s).wf(),
        old(s).up(cpu),
    ensures
        final(s).wf(),
        match next_ready(old(s).tcbs@, old(s).running(cpu)) {
            Some(t) => {
                &&& switched(
                    state_set(old(s).tcbs@, old(s).running(cpu), State::Ready),
                    old(s).cpus@,
                    *final(s),
                    cpu,
                    t,
                )
                &&& r == switch_plan(old(s).tcbs@, old(s).running(cpu), t, live)
                &&& r is Some
            },
            None => *final(s) == *old(s) && r is None,
        },
        exclusive(old(s).tcbs@, old(s).cpus@) && old(s).running(cpu) != old(
            s,
        ).cpus@[cpu as int].idle_tid ==> exclusive(final(s).tcbs@, final(s).cpus@),
        r matches Some(sw) ==> {
            let t = final(s).tcbs@[sw.next as int];
            &&& final(s).running(cpu) == sw.next
            &&& sw.prev == old(s).running(cpu)
            &&& sw.fs_base == t.fs_base
            &&& sw.kstack_top == t.kstack_top
            &&& sw.load_cr3 == (if t.cr3 != 0 && t.cr3 != live {
                Some(t.cr3)
            } else {
                None
            })
        },
{
    proof {
        law_round_robin(s.tcbs@, s.running(cpu));
    }
    match pick_next(s, cpu) {
        Some(n) => {
            let cur: usize = s.cpus[cpu].current;
            s.tcbs[cur].state = State::Ready;
            let r = switch_to(s, cpu, n, live);
            proof {
                if exclusive(old(s).tcbs@, old(s).cpus@) && cur != old(
                    s,
                ).cpus@[cpu as int].idle_tid {
                    law_switch_keeps_exclusive(
                        old(s).tcbs@,
                        old(s).cpus@,
                        State::Ready,
                        *s,
                        cpu,
                        n as int,
                    );
                }
            }
            r
        },
        None => None,
    }
}

/// First half of going to sleep: mark the running thread blocked, so that a wake from
/// now on is not lost.
pub fn prepare_block(s: &mut Sched, cpu: usize)
    requires
        old(s).wf(),
        old(s).up(cpu),
    ensures
        final(s).wf(),
        with_state(*old(s), *final(s), old(s).running(cpu), State::Blocked),
{
    let cur: usize = s.cpus[cpu].current;
    s.tcbs[cur].state = State::Blocked;
}

/// Take back [`prepare_block`] without sleeping.
pub fn cancel_block(s: &mut Sched, cpu: usize)
    requires
        old(s).wf(),
        old(s).up(cpu),
    ensures
        final(s).wf(),
        with_state(*old(s), *final(s), old(s).running(cpu), State::Running),
{
    let cur: usize = s.cpus[cpu].current;
    s.tcbs[cur].state = State::Running;
}

/// Second half of going to sleep: switch away only if no wake came since
/// [`prepare_block`]; otherwise keep running.
pub fn block_current(s: &mut Sched, cpu: usize, live: u64) -> (r: Option<Switch>)
    requires
        old(s).wf(),
        old(s).up(cpu),
    ensures
        final(s).wf(),
        ({
            let me = old(s).running(cpu);
            if old(s).tcbs@[me].state == State::Blocked {
                let next = next_or_idle(old(s).tcbs@, old(s).cpus@, cpu);
                &&& switched(old(s).tcbs@, old(s).cpus@, *final(s), cpu, next)
                &&& r == switch_plan(old(s).tcbs@, me, next, live)
            } else {
                &&& with_state(*old(s), *final(s), me, State::Running)
                &&& r is None
            }
        }),
        exclusive(old(s).tcbs@, old(s).cpus@) ==> exclusive(final(s).tcbs@, final(s).cpus@),
        r matches Some(sw) ==> {
            let t = final(s).tcbs@[sw.next as int];
            &&& final(s).running(cpu) == sw.next
            &&& sw.prev == old(s).running(cpu)
            &&& sw.fs_base == t.fs_base
            &&& sw.kstack_top == t.kstack_top
            &&& sw.load_cr3 == (if t.cr3 != 0 && t.cr3 != live {
                Some(t.cr3)
            } else {
                None
            })
        },
{
    let cur: usize = s.cpus[cpu].current;
    if s.tcbs[cur].state != State::Blocked {
        s.tcbs[cur].state = State::Running;
        return None;
    }
    proof {
        law_round_robin(s.tcbs@, cur as int);
    }
    let next: usize = match pick_next(s, cpu) {
        Some(n) => n,
        None => s.cpus[cpu].idle_tid,
    };
    let r = switch_to(s, cpu, next, live);
    proof {
        if exclusive(old(s).tcbs@, old(s).cpus@) {
            assert(old(s).tcbs@[old(s).cpus@[cpu as int].idle_tid as int].state == State::Running);
            assert(state_set(old(s).tcbs@, cur as int, State::Blocked) =~= old(s).tcbs@);
            law_switch_keeps_exclusive(
                old(s).tcbs@,
                old(s).cpus@,
                State::Blocked,
                *s,
                cpu,
                next as int,
            );
        }
    }
    r
}

/// Whether a thread that resumes must end itself, its process having been killed.
pub fn must_die(s: &Sched, cpu: usize) -> (b: bool)
    requires
        s.wf(),
        s.up(cpu),
    ensures
        b == s.tcbs@[s.running(cpu)].should_die,
{
    s.tcbs[current(s, cpu)].should_die
}

/// Make a blocked thread ready; any other thread is left alone.
pub fn wake(s: &mut Sched, tid: usize)
    requires
        old(s).wf(),
        tid < MAX_THREADS,
    ensures
        final(s).wf(),
        tcb_becomes(*old(s), *final(s), tid as int, woken(old(s).tcbs@[tid as int])),
{
    if s.tcbs[tid].state == State::Blocked {
        s.tcbs[tid].state = State::Ready;
    }
}

/// A wake that arrives between the two halves of going to sleep is not lost: the
/// sleeper stays on its processor.
pub proof fn law_no_lost_wakeup(a: Sched, b: Sched, c: Sched, d: Sched, cpu: usize)
    requires
        a.wf(),
        a.up(cpu),
        with_state(a, b, a.running(cpu), State::Blocked),
        tcb_becomes(b, c, a.running(cpu), woken(b.tcbs@[a.running(cpu)])),
        c.tcbs@[c.running(cpu)].state != State::Blocked ==> with_state(
            c,
            d,
            c.running(cpu),
            State::Running,
        ),
    ensures
        d.running(cpu) == a.running(cpu),
        d.tcbs@[d.running(cpu)].state == State::Running,
{
    assert(a.cpus@[cpu as int].current < MAX_THREADS);
}

/// Arm (or, with 0, disarm) the timer wake of `tid`.
pub fn set_wake_at(s: &mut Sched, tid: usize, deadline_tick: u64)
    requires
        old(s).wf(),
        tid < MAX_THREADS,
    ensures
        final(s).wf(),
        tcb_becomes(
            *old(s),
            *final(s),
            tid as int,
            Tcb { wake_at: deadline_tick, ..old(s).tcbs@[tid as int] },
        ),
{
    s.tcbs[tid].wake_at = deadline_tick;
}

/// The deadline of `t` is armed and has passed.
pub open spec fn expired(t: Tcb, now_tick: u64) -> bool {
    t.wake_at != 0 && now_tick >= t.wake_at
}

/// Whether the deadline of `tid` is armed and has passed.
pub fn timed_out(s: &Sched, tid: usize, now_tick: u64) -> (b: bool)
    requires
        s.wf(),
        tid < MAX_THREADS,
    ensures
        b == expired(s.tcbs@[tid as int], now_tick),
{
    let d: u64 = s.tcbs[tid].wake_at;
    d != 0 && now_tick >= d
}

/// Wake every thread whose deadline has passed; deadlines stay armed.
pub fn wake_expired(s: &mut Sched, now_tick: u64)
    requires
        old(s).wf(),
    ensures
        final(s).wf(),
        final(s).cpus@ == old(s).cpus@,
        forall|t: int|
            0 <= t < MAX_THREADS ==> #[trigger] final(s).tcbs@[t] == (if t >= 1 && expired(
                old(s).tcbs@[t],
                now_tick,
            ) {
                woken(old(s).tcbs@[t])
            } else {
                old(s).tcbs@[t]
            }),
{
    let mut t: usize = 1;
    while t < MAX_THREADS
        invariant
            s.wf(),
            s.cpus@ == old(s).cpus@,
            1 <= t <= MAX_THREADS,
            old(s).tcbs@.len() == MAX_THREADS,
            forall|k: int|
                0 <= k < MAX_THREADS ==> #[trigger] s.tcbs@[k] == (if 1 <= k < t && expired(
                    old(s).tcbs@[k],
                    now_tick,
                ) {
                    woken(old(s).tcbs@[k])
                } else {
                    old(s).tcbs@[k]
                }),
        decreases MAX_THREADS - t,
    {
        assert(s.tcbs@[t as int] == old(s).tcbs@[t as int]);
        if timed_out(s, t, now_tick) {
            wake(s, t);
        }
        t += 1;
    }
}

/// End the running thread: it is taken off every notification, marked exited, and the
/// processor goes to the next ready thread or to its idle thread.
pub fn exit_current(s: &mut Sched, notifs: &mut Notifs, cpu: usize, live: u64) -> (r: Option<
    Switch,
>)
    requires
        old(s).wf(),
        old(s).up(cpu),
        old(notifs).wf(),
    ensures
        final(s).wf(),
        final(notifs).wf(),
        notif::waiter_cleared(*old(notifs), *final(notifs), old(s).running(cpu) as usize),
        ({
            let me = old(s).running(cpu);
            let tcbs = state_set(old(s).tcbs@, me, State::Exited);
            let next = next_or_idle(tcbs, old(s).cpus@, cpu);
            &&& switched(tcbs, old(s).cpus@, *final(s), cpu, next)
            &&& r == switch_plan(tcbs, me, next, live)
        }),
        exclusive(old(s).tcbs@, old(s).cpus@) && old(s).running(cpu) != old(
            s,
        ).cpus@[cpu as int].idle_tid ==> exclusive(final(s).tcbs@, final(s).cpus@),
        r matches Some(sw) ==> {
            let t = final(s).tcbs@[sw.next as int];
            &&& final(s).running(cpu) == sw.next
            &&& sw.prev == old(s).running(cpu)
            &&& sw.fs_base == t.fs_base
            &&& sw.kstack_top == t.kstack_top
            &&& sw.load_cr3 == (if t.cr3 != 0 && t.cr3 != live {
                Some(t.cr3)
            } else {
                None
            })
        },
{
    let cur: usize = s.cpus[cpu].current;
    notif::clear_waiter(notifs, cur);
    s.tcbs[cur].state = State::Exited;
    assert(s.tcbs@ =~= state_set(old(s).tcbs@, cur as int, State::Exited));
    proof {
        law_round_robin(s.tcbs@, cur as int);
    }
    let next: usize = match pick_next(s, cpu) {
        Some(n) => n,
        None => s.cpus[cpu].idle_tid,
    };
    let r = switch_to(s, cpu, next, live);
    proof {
        if exclusive(old(s).tcbs@, old(s).cpus@) && cur != old(s).cpus@[cpu as int].idle_tid {
            law_switch_keeps_exclusive(
                old(s).tcbs@,
                old(s).cpus@,
                State::Exited,
                *s,
                cpu,
                next as int,
            );
        }
    }
    r
}

/// Thread `t` of a process that dies: a live thread is flagged, and woken if it sleeps.
pub open spec fn doomed(t: Tcb) -> Tcb {
    if t.state == State::Free || t.state == State::Exited {
        t
    } else {
        woken(Tcb { should_die: true, ..t })
    }
}

/// Tell every live thread of `proc` to end itself.
pub fn mark_proc_dying(s: &mut Sched, proc: usize)
    requires
        old(s).wf(),
    ensures
        final(s).wf(),
        final(s).cpus@ == old(s).cpus@,
        forall|t: int|
            0 <= t < MAX_THREADS ==> #[trigger] final(s).tcbs@[t] == (if t >= 1 && old(
                s,
            ).tcbs@[t].proc == proc {
                doomed(old(s).tcbs@[t])
            } else {
                old(s).tcbs@[t]
            }),
{
    let mut t: usize = 1;
    while t < MAX_THREADS
        invariant
            s.wf(),
            s.cpus@ == old(s).cpus@,
            1 <= t <= MAX_THREADS,
            old(s).tcbs@.len() == MAX_THREADS,
            forall|k: int|
                0 <= k < MAX_THREADS ==> #[trigger] s.tcbs@[k] == (if 1 <= k < t && old(
                    s,
                ).tcbs@[k].proc == proc {
                    doomed(old(s).tcbs@[k])
                } else {
                    old(s).tcbs@[k]
                }),
        decreases MAX_THREADS - t,
    {
        assert(s.tcbs@[t as int] == old(s).tcbs@[t as int]);
        if s.tcbs[t].proc == proc {
            let st = s.tcbs[t].state;
            if st != State::Free && st != State::Exited {
                s.tcbs[t].should_die = true;
                if st == State::Blocked {
                    s.tcbs[t].state = State::Ready;
                }
            }
        }
        t += 1;
    }
}

/// `t` is a live thread of `proc`.
pub open spec fn live_thread_of(t: Tcb, proc: usize) -> bool {
    t.proc == proc && t.state != State::Free && t.state != State::Exited
}

/// Whether `proc` still has a live thread.
pub fn proc_has_live_threads(s: &Sched, proc: usize) -> (b: bool)
    requires
        s.wf(),
    ensures
        b == exists|t: int|
            1 <= t < MAX_THREADS && live_thread_of(#[trigger] s.tcbs@[t], proc),
{
    let mut t: usize = 1;
    while t < MAX_THREADS
        invariant
            s.wf(),
            1 <= t <= MAX_THREADS,
            forall|k: int| 1 <= k < t ==> !live_thread_of(#[trigger] s.tcbs@[k], proc),
        decreases MAX_THREADS - t,
    {
        let st = s.tcbs[t].state;
        if s.tcbs[t].proc == proc && st != State::Free && st != State::Exited {
            assert(live_thread_of(s.tcbs@[t as int], proc));
            return true;
        }
        t += 1;
    }
    false
}

/// What a timer tick decides for the running thread.
#[derive(Clone, Copy)]
pub enum Preempt {
    /// The thread's process was killed: it must end itself.
    Exit,
    /// Another thread takes the processor.
    Switch(Switch),
    /// Nothing else is ready.
    Stay,
}

/// A timer tick on `cpu`: rotate to the next ready thread. An idle thread that is
/// preempted stays out of the rotation.
pub fn preempt(s: &mut Sched, cpu: usize, live: u64) -> (r: Preempt)
    requires
        old(s).wf(),
        old(s).up(cpu),
    ensures
        final(s).wf(),
        ({
            let me = old(s).running(cpu);
            let idle = old(s).cpus@[cpu as int].idle_tid;
            match r {
                Preempt::Exit => {
                    &&& me != idle && old(s).tcbs@[me].should_die
                    &&& *final(s) == *old(s)
                },
                Preempt::Switch(w) => {
                    let t = next_ready(old(s).tcbs@, me)->0;
                    &&& !(me != idle && old(s).tcbs@[me].should_die)
                    &&& next_ready(old(s).tcbs@, me) is Some
                    &&& Some(w) == switch_plan(old(s).tcbs@, me, t, live)
                    &&& switched(
                        if me == idle {
                            old(s).tcbs@
                        } else {
                            state_set(old(s).tcbs@, me, State::Ready)
                        },
                        old(s).cpus@,
                        *final(s),
                        cpu,
                        t,
                    )
                },
                Preempt::Stay => {
                    &&& !(me != idle && old(s).tcbs@[me].should_die)
                    &&& next_ready(old(s).tcbs@, me) is None
                    &&& *final(s) == *old(s)
                },
            }
        }),
        exclusive(old(s).tcbs@, old(s).cpus@) ==> exclusive(final(s).tcbs@, final(s).cpus@),
        r matches Preempt::Switch(sw) ==> {
            let t = final(s).tcbs@[sw.next as int];
            &&& final(s).running(cpu) == sw.next
            &&& sw.prev == old(s).running(cpu)
            &&& sw.fs_base == t.fs_base
            &&& sw.kstack_top == t.kstack_top
            &&& sw.load_cr3 == (if t.cr3 != 0 && t.cr3 != live {
                Some(t.cr3)
            } else {
                None
            })
        },
{
    let cur: usize = s.cpus[cpu].current;
    let idle: usize = s.cpus[cpu].idle_tid;
    if cur != idle && s.tcbs[cur].should_die {
        return Preempt::Exit;
    }
    proof {
        law_round_robin(s.tcbs@, s.running(cpu));
    }
    match pick_next(s, cpu) {
        Some(n) => {
            if cur != idle {
                s.tcbs[cur].state = State::Ready;
            }
            let w = switch_to(s, cpu, n, live);
            proof {
                if exclusive(old(s).tcbs@, old(s).cpus@) {
                    let st = if cur == idle {
                        State::Running
                    } else {
                        State::Ready
                    };
                    if cur == idle {
                        assert(old(s).tcbs@[old(s).cpus@[cpu as int].idle_tid as int].state
                            == State::Running);
                        assert(state_set(old(s).tcbs@, cur as int, st) =~= old(s).tcbs@);
                    }
                    law_switch_keeps_exclusive(
                        old(s).tcbs@,
                        old(s).cpus@,
                        st,
                        *s,
                        cpu,
                        n as int,
                    );
                }
            }
            match w {
                Some(w) => Preempt::Switch(w),
                None => Preempt::Stay,
            }
        },
        None => Preempt::Stay,
    }
}

/// `tid` is some processor's idle thread.
pub open spec fn is_idle(s: Sched, tid: int) -> bool {
    exists|c: int| 0 <= c < s.cpus@.len() && (#[trigger] s.cpus@[c]).idle_tid == tid
}

/// Whether `tid` is some processor's idle thread.
pub fn is_idle_tid(s: &Sched, tid: usize) -> (b: bool)
    requires
        s.wf(),
    ensures
        b == is_idle(*s, tid as int),
{
    let mut c: usize = 0;
    while c < s.cpus.len()
        invariant
            s.wf(),
            c <= s.cpus@.len(),
            forall|k: int| 0 <= k < c ==> (#[trigger] s.cpus@[k]).idle_tid != tid,
        decreases s.cpus@.len() - c,
    {
        if s.cpus[c].idle_tid == tid {
            assert(s.cpus@[c as int].idle_tid == tid);
            return true;
        }
        c += 1;
    }
    false
}

/// `t` is ready, running or blocked.
pub open spec fn active(t: Tcb) -> bool {
    t.state == State::Ready || t.state == State::Running || t.state == State::Blocked
}

/// Whether any thread but the idle ones is still ready, running or blocked.
pub fn any_active(s: &Sched) -> (b: bool)
    requires
        s.wf(),
    ensures
        b == exists|t: int|
            1 <= t < MAX_THREADS && active(#[trigger] s.tcbs@[t]) && !is_idle(*s, t),
{
    let mut t: usize = 1;
    while t < MAX_THREADS
        invariant
            s.wf(),
            1 <= t <= MAX_THREADS,
            forall|k: int|
                1 <= k < t ==> !(active(#[trigger] s.tcbs@[k]) && !is_idle(*s, k)),
        decreases MAX_THREADS - t,
    {
        let st = s.tcbs[t].state;
        if (st == State::Ready || st == State::Running || st == State::Blocked)
            && !is_idle_tid(s, t) {
            assert(active(s.tcbs@[t as int]));
            return true;
        }
        t += 1;
    }
    false
}

/// The tick a wait of `timeout_ms` from `ticks` ends at: one tick is 10 ms, a part of
/// a tick counts as a whole one, and a huge wait never ends. 0 stands for no limit.
pub open spec fn futex_deadline(ticks: u64, timeout_ms: u64) -> u64 {
    if timeout_ms == 0 {
        0
    } else if ticks + (timeout_ms + 9) / 10 > u64::MAX {
        u64::MAX
    } else {
        (ticks + (timeout_ms + 9) / 10) as u64
    }
}

/// First step of a futex wait: name the address, arm the deadline and mark the thread
/// blocked. The caller then reads the word at `addr` and goes on with [`futex_wait`].
pub fn futex_arm(s: &mut Sched, cpu: usize, addr: u64, timeout_ms: u64, ticks: u64) -> (deadline:
    u64)
    requires
        old(s).wf(),
        old(s).up(cpu),
    ensures
        final(s).wf(),
        deadline == futex_deadline(ticks, timeout_ms),
        ({
            let me = old(s).running(cpu);
            tcb_becomes(
                *old(s),
                *final(s),
                me,
                Tcb {
                    state: State::Blocked,
                    futex_addr: addr,
                    wake_at: if timeout_ms != 0 {
                        deadline
                    } else {
                        old(s).tcbs@[me].wake_at
                    },
                    ..old(s).tcbs@[me]
                },
            )
        }),
{
    let cur: usize = s.cpus[cpu].current;
    s.tcbs[cur].futex_addr = addr;
    let deadline: u64 = if timeout_ms != 0 {
        let wait: u64 = if timeout_ms % 10 == 0 {
            timeout_ms / 10
        } else {
            timeout_ms / 10 + 1
        };
        assert(wait == (timeout_ms + 9) / 10);
        let d: u64 = ticks.saturating_add(wait);
        set_wake_at(s, cur, d);
        d
    } else {
        0
    };
    prepare_block(s, cpu);
    deadline
}

/// The running thread no longer waits on a futex.
pub open spec fn futex_done(t: Tcb) -> Tcb {
    Tcb { futex_addr: 0, wake_at: 0, ..t }
}

/// Second step: compare the word read after [`futex_arm`] with the expected one. If
/// they differ the wait is off and the thread runs on; otherwise it must sleep.
pub fn futex_wait(s: &mut Sched, cpu: usize, observed: u32, expected: u32) -> (sleep: bool)
    requires
        old(s).wf(),
        old(s).up(cpu),
    ensures
        final(s).wf(),
        sleep == (observed == expected),
        sleep ==> *final(s) == *old(s),
        !sleep ==> tcb_becomes(
            *old(s),
            *final(s),
            old(s).running(cpu),
            Tcb { state: State::Running, ..futex_done(old(s).tcbs@[old(s).running(cpu)]) },
        ),
{
    if observed != expected {
        let cur: usize = s.cpus[cpu].current;
        cancel_block(s, cpu);
        s.tcbs[cur].futex_addr = 0;
        set_wake_at(s, cur, 0);
        return false;
    }
    true
}

/// Last step, after the sleep: disarm everything and report whether the wait timed out.
pub fn futex_finish(s: &mut Sched, cpu: usize, deadline: u64, ticks: u64) -> (timed_out: bool)
    requires
        old(s).wf(),
        old(s).up(cpu),
    ensures
        final(s).wf(),
        timed_out == (deadline != 0 && ticks >= deadline),
        tcb_becomes(
            *old(s),
            *final(s),
            old(s).running(cpu),
            futex_done(old(s).tcbs@[old(s).running(cpu)]),
        ),
{
    let cur: usize = s.cpus[cpu].current;
    s.tcbs[cur].futex_addr = 0;
    set_wake_at(s, cur, 0);
    deadline != 0 && ticks >= deadline
}

/// `t` sleeps on the futex `addr` of process `proc`.
pub open spec fn futex_sleeper(t: Tcb, proc: usize, addr: u64) -> bool {
    t.proc == proc && t.futex_addr == addr && t.state == State::Blocked
}

/// Sleepers on a futex among the first `n` threads, the idle thread aside.
pub open spec fn futex_sleepers(tcbs: Seq<Tcb>, proc: usize, addr: u64, n: int) -> nat
    decreases n,
{
    if n <= 1 {
        0
    } else {
        futex_sleepers(tcbs, proc, addr, n - 1) + (if futex_sleeper(tcbs[n - 1], proc, addr) {
            1nat
        } else {
            0
        })
    }
}

/// Wake the first `count` threads of the running thread's process that sleep on
/// `addr`; returns how many were woken.
pub fn futex_wake(s: &mut Sched, cpu: usize, addr: u64, count: usize) -> (n: usize)
    requires
        old(s).wf(),
        old(s).up(cpu),
    ensures
        final(s).wf(),
        final(s).cpus@ == old(s).cpus@,
        ({
            let proc = old(s).tcbs@[old(s).running(cpu)].proc;
            let before = old(s).tcbs@;
            let all = futex_sleepers(before, proc, addr, MAX_THREADS as int);
            &&& n == (if all <= count {
                all
            } else {
                count as nat
            })
            &&& forall|t: int|
                0 <= t < MAX_THREADS ==> #[trigger] final(s).tcbs@[t] == (if t >= 1
                    && futex_sleeper(before[t], proc, addr) && futex_sleepers(
                    before,
                    proc,
                    addr,
                    t,
                ) < count {
                    Tcb { futex_addr: 0, state: State::Ready, ..before[t] }
                } else {
                    before[t]
                })
        }),
{
    let proc: usize = current_proc(s, cpu);
    let ghost before = s.tcbs@;
    let mut n: usize = 0;
    let mut t: usize = 1;
    while t < MAX_THREADS
        invariant
            s.wf(),
            s.cpus@ == old(s).cpus@,
            1 <= t <= MAX_THREADS,
            before.len() == MAX_THREADS,
            n < t,
            n <= count,
            n == (if futex_sleepers(before, proc, addr, t as int) <= count {
                futex_sleepers(before, proc, addr, t as int)
            } else {
                count as nat
            }),
            forall|k: int|
                0 <= k < MAX_THREADS ==> #[trigger] s.tcbs@[k] == (if 1 <= k < t
                    && futex_sleeper(before[k], proc, addr) && futex_sleepers(
                    before,
                    proc,
                    addr,
                    k,
                ) < count {
                    Tcb { futex_addr: 0, state: State::Ready, ..before[k] }
                } else {
                    before[k]
                }),
        decreases MAX_THREADS - t,
    {
        assert(s.tcbs@[t as int] == before[t as int]);
        let e = s.tcbs[t];
        if n < count && e.proc == proc && e.futex_addr == addr && e.state == State::Blocked {
            s.tcbs[t].futex_addr = 0;
            wake(s, t);
            n += 1;
        }
        t += 1;
    }
    n
}

/// Set the running thread's thread pointer.
pub fn set_fsbase_current(s: &mut Sched, cpu: usize, base: u64)
    requires
        old(s).wf(),
        old(s).up(cpu),
    ensures
        final(s).wf(),
        tcb_becomes(
            *old(s),
            *final(s),
            old(s).running(cpu),
            Tcb { fs_base: base, ..old(s).tcbs@[old(s).running(cpu)] },
        ),
{
    let cur: usize = s.cpus[cpu].current;
    s.tcbs[cur].fs_base = base;
}

/// The threads after everyone of process `proc` who sleeps on the futex `addr` was woken.
pub open spec fn joiners_woken(tcbs: Seq<Tcb>, proc: usize, addr: u64) -> Seq<Tcb> {
    Seq::new(
        tcbs.len(),
        |t: int|
            if t >= 1 && futex_sleeper(tcbs[t], proc, addr) {
                Tcb { futex_addr: 0, state: State::Ready, ..tcbs[t] }
            } else {
                tcbs[t]
            },
    )
}

/// There are no more sleepers than threads.
proof fn lemma_sleepers_bound(tcbs: Seq<Tcb>, proc: usize, addr: u64, n: int)
    requires
        1 <= n,
    ensures
        futex_sleepers(tcbs, proc, addr, n) < n,
    decreases n,
{
    if n > 1 {
        lemma_sleepers_bound(tcbs, proc, addr, n - 1);
    }
}

/// End the running thread and tell whoever joins it. If `done_addr` is not 0, `word`, the
/// word there, is set first, and then everyone who sleeps on it is woken: a joiner that
/// finds it set may free the stack that the thread has left.
pub fn thread_exit(
    s: &mut Sched,
    notifs: &mut Notifs,
    cpu: usize,
    done_addr: u64,
    word: &mut u32,
    live: u64,
) -> (r: Option<Switch>)
    requires
        old(s).wf(),
        old(s).up(cpu),
        old(notifs).wf(),
    ensures
        final(s).wf(),
        final(notifs).wf(),
        *final(word) == (if done_addr != 0 {
            1
        } else {
            *old(word)
        }),
        notif::waiter_cleared(*old(notifs), *final(notifs), old(s).running(cpu) as usize),
        ({
            let me = old(s).running(cpu);
            let told = if done_addr != 0 {
                joiners_woken(old(s).tcbs@, old(s).tcbs@[me].proc, done_addr)
            } else {
                old(s).tcbs@
            };
            let tcbs = state_set(told, me, State::Exited);
            let next = next_or_idle(tcbs, old(s).cpus@, cpu);
            &&& switched(tcbs, old(s).cpus@, *final(s), cpu, next)
            &&& r == switch_plan(tcbs, me, next, live)
        }),
        r matches Some(sw) ==> {
            let t = final(s).tcbs@[sw.next as int];
            &&& final(s).running(cpu) == sw.next
            &&& sw.prev == old(s).running(cpu)
            &&& sw.fs_base == t.fs_base
            &&& sw.kstack_top == t.kstack_top
            &&& sw.load_cr3 == (if t.cr3 != 0 && t.cr3 != live {
                Some(t.cr3)
            } else {
                None
            })
        },
{
    if done_addr != 0 {
        *word = 1;
        let ghost before = s.tcbs@;
        let ghost proc = before[s.running(cpu)].proc;
        futex_wake(s, cpu, done_addr, usize::MAX);
        proof {
            assert forall|t: int| 0 <= t < MAX_THREADS implies #[trigger] s.tcbs@[t]
                == joiners_woken(before, proc, done_addr)[t] by {
                if t >= 1 {
                    lemma_sleepers_bound(before, proc, done_addr, t);
                }
            }
            assert(s.tcbs@ =~= joiners_woken(before, proc, done_addr));
        }
    }
    exit_current(s, notifs, cpu, live)
}

} // verus!
