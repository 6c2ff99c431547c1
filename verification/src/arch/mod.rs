//! What depends on the machine, as far as it is arithmetic and decisions.
use vstd::prelude::*;
use crate::ipc;
use crate::kernel::Kernel;
use crate::notif;
use crate::notif::NO_TICK;
use crate::thread;
use crate::thread::Tcb;

pub mod fault;
pub mod irqchip;
pub mod rtc;
pub mod serial;

verus! {

/// Ticks between two signals of the tick notification: one a second.
pub const TICKS_PER_SIGNAL: u64 = 100;

/// How an emulator is told to end.
#[derive(Clone, Copy, PartialEq, Eq, Debug, Structural)]
pub enum QemuExit {
    Success,
    Failed,
}

/// The status a machine emulator exits with when it is told so.
pub open spec fn exit_status(code: QemuExit) -> int {
    match code {
        QemuExit::Success => 0x21,
        QemuExit::Failed => 0x23,
    }
}

impl QemuExit {
    /// The word written to the exit device.
    pub fn word(self) -> (w: u32)
        ensures
            w * 2 + 1 == exit_status(self),
    {
        match self {
            QemuExit::Success => 0x10,
            QemuExit::Failed => 0x11,
        }
    }
}

/// The threads after those whose time is up were woken.
pub open spec fn expired_woken(tcbs: Seq<Tcb>, now: u64) -> Seq<Tcb> {
    Seq::new(
        tcbs.len(),
        |t: int|
            if t >= 1 && thread::expired(tcbs[t], now) {
                thread::woken(tcbs[t])
            } else {
                tcbs[t]
            },
    )
}

/// The kernel after tick number `tick` was accounted: once a second the notification
/// armed for the timer is signalled, and at every tick sleepers whose time is up wake.
pub open spec fn ticked(a: Kernel, b: Kernel, tick: u64) -> bool {
    let fires = tick % TICKS_PER_SIGNAL == 0 && a.notifs.tick != NO_TICK;
    let r = if fires {
        notif::after_signal(
            a.notifs.pool@,
            a.ipc.slots.views(),
            a.sched.tcbs@,
            a.notifs.tick as int,
        )
    } else {
        (a.notifs.pool@, a.ipc.slots.views(), a.sched.tcbs@)
    };
    &&& b == Kernel { notifs: b.notifs, ipc: b.ipc, sched: b.sched, ..a }
    &&& b.ipc.eps == a.ipc.eps
    &&& b.ipc.replies == a.ipc.replies
    &&& b.notifs.tick == a.notifs.tick
    &&& b.sched.cpus@ == a.sched.cpus@
    &&& b.notifs.pool@ == r.0
    &&& b.ipc.slots.views() == r.1
    &&& b.sched.tcbs@ == expired_woken(r.2, tick)
}

/// Account tick number `tick`. The first processor alone keeps time; on the others a
/// tick only ends the running thread's turn.
pub fn lapic_timer(k: &mut Kernel, cpu: usize, tick: u64)
    requires
        old(k).wf(),
    ensures
        final(k).wf(),
        cpu == 0 ==> ticked(*old(k), *final(k), tick),
        cpu != 0 ==> *final(k) == *old(k),
{
    if cpu != 0 {
        return;
    }
    if tick % TICKS_PER_SIGNAL == 0 {
        notif::fire_tick(&mut k.notifs, &mut k.ipc.slots, &mut k.sched);
    }
    let ghost mid = k.sched.tcbs@;
    thread::wake_expired(&mut k.sched, tick);
    proof {
        assert(k.sched.tcbs@ =~= expired_woken(mid, tick));
        assert(k.ipc.wf(old(k).sched.tcbs@));
        ipc::lemma_wf_for_same_procs(k.ipc, old(k).sched.tcbs@, k.sched.tcbs@);
    }
}

/// A thread that sleeps with a deadline is ready once the deadline's tick has come.
pub proof fn law_sleepers_wake(a: Kernel, b: Kernel, tick: u64, t: int)
    requires
        a.wf(),
        ticked(a, b, tick),
        1 <= t < thread::MAX_THREADS,
        a.sched.tcbs@[t].wake_at != 0,
        a.sched.tcbs@[t].wake_at <= tick,
    ensures
        b.sched.tcbs@[t].state != thread::State::Blocked,
{
}

} // verus!
