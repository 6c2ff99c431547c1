//! Notifications: counting, latching signals with at most one waiter.
use vstd::prelude::*;
use crate::abi;
use crate::abi::SysError;
use crate::ipc;
use crate::ipc::{SlotView, Slots};
use crate::thread;
use crate::thread::{Sched, Tcb, MAX_THREADS};

verus! {

/// Notifications in the pool.
pub const POOL_SIZE: usize = 24;

/// `tick` while no notification is armed for the timer.
pub const NO_TICK: u8 = 0xFF;

/// One notification.
#[derive(Clone, Copy)]
pub struct Notif {
    pub in_use: bool,
    /// Signals not yet consumed.
    pub count: u64,
    /// The thread blocked waiting.
    pub waiter: Option<usize>,
    /// A thread blocked on an endpoint and this notification at once; a signal wakes it
    /// and leaves the count for it to drain.
    pub bound_waiter: Option<usize>,
    /// The exit code delivered last.
    pub exit_code: i32,
}

/// A notification as [`create`] hands it out.
pub open spec fn fresh() -> Notif {
    Notif { in_use: true, count: 0, waiter: None, bound_waiter: None, exit_code: 0 }
}

/// The pool, and the notification the timer signals.
pub struct Notifs {
    pub pool: Vec<Notif>,
    pub tick: u8,
}

impl Notif {
    pub open spec fn wf(&self) -> bool {
        &&& self.waiter is Some ==> self.waiter->0 < MAX_THREADS
        &&& self.bound_waiter is Some ==> self.bound_waiter->0 < MAX_THREADS
    }
}

impl Notifs {
    pub open spec fn wf(&self) -> bool {
        &&& self.pool@.len() == POOL_SIZE
        &&& forall|i: int| 0 <= i < POOL_SIZE ==> (#[trigger] self.pool@[i]).wf()
        &&& self.tick == NO_TICK || self.tick < POOL_SIZE
    }

    /// A pool in which nothing is in use, with no tick armed.
    pub fn new() -> (n: Self)
        ensures
            n.wf(),
            n.tick == NO_TICK,
            forall|i: int| 0 <= i < POOL_SIZE ==> !(#[trigger] n.pool@[i]).in_use,
    {
        let mut pool: Vec<Notif> = Vec::new();
        let mut i: usize = 0;
        while i < POOL_SIZE
            invariant
                i <= POOL_SIZE,
                pool@.len() == i,
                forall|k: int| 0 <= k < i ==> (#[trigger] pool@[k]).wf() && !pool@[k].in_use,
            decreases POOL_SIZE - i,
        {
            pool.push(
                Notif { in_use: false, count: 0, waiter: None, bound_waiter: None, exit_code: 0 },
            );
            i += 1;
        }
        Notifs { pool, tick: NO_TICK }
    }
}

/// Notification `i` is now `n`, and nothing else changed.
pub open spec fn becomes(a: Notifs, b: Notifs, i: int, n: Notif) -> bool {
    &&& b.pool@ =~= a.pool@.update(i, n)
    &&& b.tick == a.tick
}

/// Arm notification `idx` for the timer.
pub fn arm_tick(notifs: &mut Notifs, idx: u8)
    requires
        old(notifs).wf(),
        idx < POOL_SIZE,
    ensures
        final(notifs).wf(),
        final(notifs).pool@ == old(notifs).pool@,
        final(notifs).tick == idx,
{
    notifs.tick = idx;
}

/// Signal the notification armed for the timer, if there is one.
pub fn fire_tick(notifs: &mut Notifs, slots: &mut Slots, s: &mut Sched)
    requires
        old(notifs).wf(),
        old(slots).wf(),
        old(s).wf(),
    ensures
        final(notifs).wf(),
        final(slots).wf(),
        final(s).wf(),
        old(notifs).tick == NO_TICK ==> *final(notifs) == *old(notifs) && *final(slots) == *old(
            slots,
        ) && *final(s) == *old(s),
        old(notifs).tick != NO_TICK ==> final(notifs).tick == old(notifs).tick && final(s).cpus@ == old(s).cpus@
            && signalled(
            old(notifs).pool@,
            final(notifs).pool@,
            old(slots).views(),
            final(slots).views(),
            old(s).tcbs@,
            final(s).tcbs@,
            old(notifs).tick as int,
        ),
{
    let t: u8 = notifs.tick;
    if t != NO_TICK {
        signal(notifs, slots, s, t);
    }
}

/// The lowest free notification from `i` up.
pub open spec fn free_from(v: Seq<Notif>, i: int) -> int
    decreases v.len() - i,
{
    if i >= v.len() || !v[i].in_use {
        i
    } else {
        free_from(v, i + 1)
    }
}

/// Take the lowest free notification.
pub fn create(notifs: &mut Notifs) -> (r: Option<u8>)
    requires
        old(notifs).wf(),
    ensures
        final(notifs).wf(),
        ({
            let i = free_from(old(notifs).pool@, 0);
            match r {
                Some(k) => {
                    &&& k == i
                    &&& i < POOL_SIZE
                    &&& becomes(*old(notifs), *final(notifs), i, fresh())
                },
                None => i >= POOL_SIZE && *final(notifs) == *old(notifs),
            }
        }),
{
    let mut i: usize = 0;
    while i < POOL_SIZE
        invariant
            notifs.wf(),
            *notifs == *old(notifs),
            i <= POOL_SIZE,
            free_from(notifs.pool@, 0) == free_from(notifs.pool@, i as int),
        decreases POOL_SIZE - i,
    {
        if !notifs.pool[i].in_use {
            notifs.pool[i] =
            Notif { in_use: true, count: 0, waiter: None, bound_waiter: None, exit_code: 0 };
            return Some(i as u8);
        }
        i += 1;
    }
    None
}

/// Register `tid` as the bound receiver, unless a signal is latched already. The caller
/// has marked itself blocked before.
pub fn arm_bound(notifs: &mut Notifs, idx: u8, tid: usize) -> (armed: bool)
    requires
        old(notifs).wf(),
        idx < POOL_SIZE,
        tid < MAX_THREADS,
    ensures
        final(notifs).wf(),
        armed == (old(notifs).pool@[idx as int].count == 0),
        !armed ==> *final(notifs) == *old(notifs),
        armed ==> becomes(
            *old(notifs),
            *final(notifs),
            idx as int,
            Notif { bound_waiter: Some(tid), ..old(notifs).pool@[idx as int] },
        ),
{
    let i: usize = idx as usize;
    if notifs.pool[i].count > 0 {
        return false;
    }
    notifs.pool[i].bound_waiter = Some(tid);
    true
}

/// The notification without `tid` as its bound receiver.
pub open spec fn unbound(n: Notif, tid: usize) -> Notif {
    if n.bound_waiter == Some(tid) {
        Notif { bound_waiter: None, ..n }
    } else {
        n
    }
}

/// Whether `o` holds exactly `tid`.
fn names(o: Option<usize>, tid: usize) -> (b: bool)
    ensures
        b == (o == Some(tid)),
{
    match o {
        Some(t) => t == tid,
        None => false,
    }
}

/// Take `tid` off as the bound receiver.
pub fn clear_bound(notifs: &mut Notifs, idx: u8, tid: usize)
    requires
        old(notifs).wf(),
        idx < POOL_SIZE,
    ensures
        final(notifs).wf(),
        becomes(
            *old(notifs),
            *final(notifs),
            idx as int,
            unbound(old(notifs).pool@[idx as int], tid),
        ),
{
    let i: usize = idx as usize;
    if names(notifs.pool[i].bound_waiter, tid) {
        notifs.pool[i].bound_waiter = None;
    }
}

/// Consume the latched signals; returns how many there were.
pub fn drain(notifs: &mut Notifs, idx: u8) -> (c: u64)
    requires
        old(notifs).wf(),
        idx < POOL_SIZE,
    ensures
        final(notifs).wf(),
        c == old(notifs).pool@[idx as int].count,
        becomes(
            *old(notifs),
            *final(notifs),
            idx as int,
            Notif { count: 0, ..old(notifs).pool@[idx as int] },
        ),
{
    let i: usize = idx as usize;
    let c: u64 = notifs.pool[i].count;
    notifs.pool[i].count = 0;
    c
}

/// Consume the latched signals without ever blocking; returns how many there were.
pub fn poll(notifs: &mut Notifs, idx: u8) -> (c: u64)
    requires
        old(notifs).wf(),
        idx < POOL_SIZE,
    ensures
        final(notifs).wf(),
        c == old(notifs).pool@[idx as int].count,
        becomes(
            *old(notifs),
            *final(notifs),
            idx as int,
            Notif { count: 0, ..old(notifs).pool@[idx as int] },
        ),
{
    drain(notifs, idx)
}

/// The signal count after one more signal; it never wraps.
pub open spec fn bumped(count: u64) -> u64 {
    if count == u64::MAX {
        count
    } else {
        (count + 1) as u64
    }
}

/// The notifications, slots and threads after one signal on notification `i`. A bound
/// receiver is woken and finds the count still latched; else a waiter is handed the whole
/// count and woken; else the count stays latched.
pub open spec fn after_signal(
    a: Seq<Notif>,
    sa: Seq<SlotView>,
    ta: Seq<Tcb>,
    i: int,
) -> (Seq<Notif>, Seq<SlotView>, Seq<Tcb>) {
    let n = a[i];
    let c = bumped(n.count);
    match n.bound_waiter {
        Some(t) => (
            a.update(i, Notif { count: c, bound_waiter: None, ..n }),
            sa,
            ta.update(t as int, thread::woken(ta[t as int])),
        ),
        None => match n.waiter {
            Some(t) => (
                a.update(i, Notif { count: 0, waiter: None, ..n }),
                sa.update(t as int, ipc::answered(sa[t as int], 0, c)),
                ta.update(t as int, thread::woken(ta[t as int])),
            ),
            None => (a.update(i, Notif { count: c, ..n }), sa, ta),
        },
    }
}

/// The system after one signal on notification `i`.
pub open spec fn signalled(
    a: Seq<Notif>,
    b: Seq<Notif>,
    sa: Seq<SlotView>,
    sb: Seq<SlotView>,
    ta: Seq<Tcb>,
    tb: Seq<Tcb>,
    i: int,
) -> bool {
    let r = after_signal(a, sa, ta, i);
    b =~= r.0 && sb =~= r.1 && tb =~= r.2
}

/// Signal notification `idx`. Never blocks.
pub fn signal(notifs: &mut Notifs, slots: &mut Slots, s: &mut Sched, idx: u8)
    requires
        old(notifs).wf(),
        old(slots).wf(),
        old(s).wf(),
        idx < POOL_SIZE,
    ensures
        final(notifs).wf(),
        final(slots).wf(),
        final(s).wf(),
        final(notifs).tick == old(notifs).tick,
        final(s).cpus@ == old(s).cpus@,
        signalled(
            old(notifs).pool@,
            final(notifs).pool@,
            old(slots).views(),
            final(slots).views(),
            old(s).tcbs@,
            final(s).tcbs@,
            idx as int,
        ),
{
    let i: usize = idx as usize;
    let n = notifs.pool[i];
    let c: u64 = n.count.saturating_add(1);
    match n.bound_waiter {
        Some(t) => {
            notifs.pool[i].count = c;
            notifs.pool[i].bound_waiter = None;
            thread::wake(s, t);
        },
        None => match n.waiter {
            Some(t) => {
                notifs.pool[i].count = 0;
                notifs.pool[i].waiter = None;
                ipc::deposit_ret(slots, t, 0, c);
                thread::wake(s, t);
            },
            None => {
                notifs.pool[i].count = c;
            },
        },
    }
}

/// Record `code` on notification `idx` and signal it.
pub fn signal_exit(notifs: &mut Notifs, slots: &mut Slots, s: &mut Sched, idx: u8, code: i32)
    requires
        old(notifs).wf(),
        old(slots).wf(),
        old(s).wf(),
        idx < POOL_SIZE,
    ensures
        final(notifs).wf(),
        final(slots).wf(),
        final(s).wf(),
        final(notifs).tick == old(notifs).tick,
        final(s).cpus@ == old(s).cpus@,
        signalled(
            old(notifs).pool@.update(
                idx as int,
                Notif { exit_code: code, ..old(notifs).pool@[idx as int] },
            ),
            final(notifs).pool@,
            old(slots).views(),
            final(slots).views(),
            old(s).tcbs@,
            final(s).tcbs@,
            idx as int,
        ),
{
    notifs.pool[idx as usize].exit_code = code;
    signal(notifs, slots, s, idx);
}

/// The exit code delivered last, 0 if none was.
pub fn status(notifs: &Notifs, idx: u8) -> (code: i32)
    requires
        notifs.wf(),
        idx < POOL_SIZE,
    ensures
        code == notifs.pool@[idx as int].exit_code,
{
    notifs.pool[idx as usize].exit_code
}

/// What a call that may have to sleep comes to.
#[derive(Clone, Copy, PartialEq, Eq, Debug, Structural)]
pub enum Outcome {
    /// The call returns these two result registers.
    Done(u64, u64),
    /// The running thread is marked blocked and must sleep; whoever wakes it has left
    /// the result in its slot.
    Sleep,
}

/// What waiting on notification `i` comes to for the thread `cpu` runs: latched signals
/// are consumed at once; a second waiter is refused; else the thread is registered and
/// marked blocked.
pub open spec fn waits(
    a: Notifs,
    b: Notifs,
    sa: Sched,
    sb: Sched,
    cpu: usize,
    i: int,
    r: Outcome,
) -> bool {
    let n = a.pool@[i];
    if n.count > 0 {
        &&& r == Outcome::Done(0, n.count)
        &&& becomes(a, b, i, Notif { count: 0, ..n })
        &&& sb == sa
    } else if n.waiter is Some {
        &&& r == Outcome::Done(abi::error_code(SysError::NoMem), 0)
        &&& b == a
        &&& sb == sa
    } else {
        &&& r == Outcome::Sleep
        &&& becomes(a, b, i, Notif { waiter: Some(sa.running(cpu) as usize), ..n })
        &&& thread::with_state(sa, sb, sa.running(cpu), thread::State::Blocked)
    }
}

/// Wait for a signal.
pub fn wait(notifs: &mut Notifs, s: &mut Sched, cpu: usize, idx: u8) -> (r: Outcome)
    requires
        old(notifs).wf(),
        old(s).wf(),
        old(s).up(cpu),
        idx < POOL_SIZE,
    ensures
        final(notifs).wf(),
        final(s).wf(),
        waits(*old(notifs), *final(notifs), *old(s), *final(s), cpu, idx as int, r),
{
    let i: usize = idx as usize;
    let n = notifs.pool[i];
    if n.count > 0 {
        notifs.pool[i].count = 0;
        return Outcome::Done(0, n.count);
    }
    if n.waiter.is_some() {
        return Outcome::Done(SysError::NoMem.code(), 0);
    }
    let me: usize = thread::current(s, cpu);
    notifs.pool[i].waiter = Some(me);
    thread::prepare_block(s, cpu);
    Outcome::Sleep
}

/// The notification without `tid` in either waiter place.
pub open spec fn without(n: Notif, tid: usize) -> Notif {
    Notif {
        waiter: if n.waiter == Some(tid) {
            None
        } else {
            n.waiter
        },
        bound_waiter: if n.bound_waiter == Some(tid) {
            None
        } else {
            n.bound_waiter
        },
        ..n
    }
}

/// `tid` waits on no notification any more; nothing else changed.
pub open spec fn waiter_cleared(a: Notifs, b: Notifs, tid: usize) -> bool {
    &&& b.tick == a.tick
    &&& b.pool@.len() == a.pool@.len()
    &&& forall|i: int|
        0 <= i < a.pool@.len() ==> #[trigger] b.pool@[i] == without(a.pool@[i], tid)
}

/// Take `tid` off every notification.
pub fn clear_waiter(notifs: &mut Notifs, tid: usize)
    requires
        old(notifs).wf(),
    ensures
        final(notifs).wf(),
        waiter_cleared(*old(notifs), *final(notifs), tid),
{
    let mut i: usize = 0;
    while i < POOL_SIZE
        invariant
            notifs.wf(),
            old(notifs).wf(),
            i <= POOL_SIZE,
            notifs.tick == old(notifs).tick,
            forall|k: int|
                0 <= k < POOL_SIZE ==> #[trigger] notifs.pool@[k] == (if k < i {
                    without(old(notifs).pool@[k], tid)
                } else {
                    old(notifs).pool@[k]
                }),
        decreases POOL_SIZE - i,
    {
        let n = notifs.pool[i];
        assert(n == old(notifs).pool@[i as int]);
        if names(n.waiter, tid) {
            notifs.pool[i].waiter = None;
        }
        if names(n.bound_waiter, tid) {
            notifs.pool[i].bound_waiter = None;
        }
        i += 1;
    }
}

/// No signal is lost: one that finds nobody waiting is counted, and the next wait or
/// poll gets it.
pub proof fn law_signal_latches(
    a: Seq<Notif>,
    b: Seq<Notif>,
    sa: Seq<SlotView>,
    sb: Seq<SlotView>,
    ta: Seq<Tcb>,
    tb: Seq<Tcb>,
    i: int,
)
    requires
        0 <= i < a.len(),
        signalled(a, b, sa, sb, ta, tb, i),
        a[i].waiter is None,
        a[i].count < u64::MAX,
    ensures
        b[i].count == a[i].count + 1,
{
}

/// A thread that was taken off every notification is woken by none.
pub proof fn law_cleared_is_not_woken(
    a: Notifs,
    b: Notifs,
    tid: usize,
    slots: Seq<SlotView>,
    tcbs: Seq<Tcb>,
    i: int,
)
    requires
        a.wf(),
        waiter_cleared(a, b, tid),
        0 <= i < POOL_SIZE,
        tcbs.len() == MAX_THREADS,
        tid < MAX_THREADS,
    ensures
        after_signal(b.pool@, slots, tcbs, i).2[tid as int] == tcbs[tid as int],
{
    assert(b.pool@[i] == without(a.pool@[i], tid));
}

/// What can happen to a notification.
pub enum Event {
    Signal,
    /// A signal that delivers an exit code.
    Exit(i32),
    /// The latched signals were consumed, by [`drain`] or [`poll`].
    Drain,
    /// A thread waited.
    Wait,
    /// A receiver was bound or taken off, or a waiter cleared.
    Waiters,
}

/// `b` is what notification `a` can be after `event`.
pub open spec fn happens(a: Notif, b: Notif, event: Event) -> bool {
    let none: (Seq<SlotView>, Seq<Tcb>) = (Seq::empty(), Seq::empty());
    match event {
        Event::Signal => b == after_signal(seq![a], none.0, none.1, 0).0[0],
        Event::Exit(code) => b == after_signal(
            seq![Notif { exit_code: code, ..a }],
            none.0,
            none.1,
            0,
        ).0[0],
        Event::Drain => b == Notif { count: 0, ..a },
        Event::Wait => if a.count > 0 {
            b == Notif { count: 0, ..a }
        } else {
            b == Notif { waiter: b.waiter, ..a } && (a.waiter is Some ==> b == a)
        },
        Event::Waiters => b == Notif { waiter: b.waiter, bound_waiter: b.bound_waiter, ..a },
    }
}

/// A notification went through the states `h`, one event leading to the next.
pub open spec fn runs(h: Seq<Notif>, events: Seq<Event>) -> bool {
    &&& h.len() == events.len() + 1
    &&& forall|i: int|
        0 <= i < events.len() ==> happens(h[i], h[i + 1], #[trigger] events[i])
}

/// The exit code delivered last, 0 if none was.
pub open spec fn last_exit(events: Seq<Event>) -> i32
    decreases events.len(),
{
    if events.len() == 0 {
        0
    } else {
        match events.last() {
            Event::Exit(code) => code,
            _ => last_exit(events.drop_last()),
        }
    }
}

/// Whatever happened to a notification since it was made, its status is the exit code
/// delivered last, and consuming signals does not consume it.
pub proof fn law_status_is_last_exit(h: Seq<Notif>, events: Seq<Event>)
    requires
        runs(h, events),
        h[0] == fresh(),
    ensures
        h.last().exit_code == last_exit(events),
        h.last().in_use,
    decreases events.len(),
{
    if events.len() > 0 {
        let before = events.drop_last();
        let last = events.len() - 1;
        assert(runs(h.drop_last(), before)) by {
            assert forall|i: int| 0 <= i < before.len() implies happens(
                h.drop_last()[i],
                h.drop_last()[i + 1],
                #[trigger] before[i],
            ) by {
                assert(happens(h[i], h[i + 1], events[i]));
            }
        }
        law_status_is_last_exit(h.drop_last(), before);
        assert(happens(h[last], h[last + 1], events[last]));
    }
}

/// Every call does to its notification what its event says.
pub proof fn law_calls_are_events(
    a: Notifs,
    b: Notifs,
    sa: Sched,
    sb: Sched,
    slots: (Seq<SlotView>, Seq<SlotView>),
    cpu: usize,
    i: int,
    code: i32,
    tid: usize,
    out: Outcome,
)
    requires
        a.wf(),
        0 <= i < POOL_SIZE,
    ensures
        signalled(a.pool@, b.pool@, slots.0, slots.1, sa.tcbs@, sb.tcbs@, i) ==> happens(
            a.pool@[i],
            b.pool@[i],
            Event::Signal,
        ),
        signalled(
            a.pool@.update(i, Notif { exit_code: code, ..a.pool@[i] }),
            b.pool@,
            slots.0,
            slots.1,
            sa.tcbs@,
            sb.tcbs@,
            i,
        ) ==> happens(a.pool@[i], b.pool@[i], Event::Exit(code)),
        becomes(a, b, i, Notif { count: 0, ..a.pool@[i] }) ==> happens(
            a.pool@[i],
            b.pool@[i],
            Event::Drain,
        ),
        waits(a, b, sa, sb, cpu, i, out) ==> happens(a.pool@[i], b.pool@[i], Event::Wait),
        becomes(a, b, i, Notif { bound_waiter: Some(tid), ..a.pool@[i] }) ==> happens(
            a.pool@[i],
            b.pool@[i],
            Event::Waiters,
        ),
        becomes(a, b, i, unbound(a.pool@[i], tid)) ==> happens(
            a.pool@[i],
            b.pool@[i],
            Event::Waiters,
        ),
        waiter_cleared(a, b, tid) ==> happens(a.pool@[i], b.pool@[i], Event::Waiters),
{
}

/// Delivering an exit code wakes whom a plain signal wakes, leaves the same count, and
/// touches no other notification.
pub proof fn law_exit_signals(
    a: Seq<Notif>,
    slots: Seq<SlotView>,
    tcbs: Seq<Tcb>,
    i: int,
    code: i32,
)
    requires
        0 <= i < a.len(),
    ensures
        ({
            let plain = after_signal(a, slots, tcbs, i);
            let exit = after_signal(
                a.update(i, Notif { exit_code: code, ..a[i] }),
                slots,
                tcbs,
                i,
            );
            &&& exit.0 == plain.0.update(i, Notif { exit_code: code, ..plain.0[i] })
            &&& exit.1 == plain.1
            &&& exit.2 == plain.2
        }),
{
    let plain = after_signal(a, slots, tcbs, i);
    let exit = after_signal(a.update(i, Notif { exit_code: code, ..a[i] }), slots, tcbs, i);
    assert(exit.0 =~= plain.0.update(i, Notif { exit_code: code, ..plain.0[i] }));
}

} // verus!
