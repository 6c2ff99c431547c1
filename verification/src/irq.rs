//! Hardware interrupt lines routed to notifications.
use vstd::prelude::*;
use crate::ipc::Slots;
use crate::notif;
use crate::notif::{Notifs, POOL_SIZE};
use crate::thread::Sched;

verus! {

/// Interrupt lines.
pub const NLINES: usize = 16;

/// Which notification each line signals.
pub struct Irqs {
    pub v: Vec<Option<u8>>,
}

impl Irqs {
    pub open spec fn wf(&self) -> bool {
        &&& self.v@.len() == NLINES
        &&& forall|i: int| 0 <= i < NLINES && (#[trigger] self.v@[i]) is Some ==> self.v@[i]->0
            < POOL_SIZE
    }

    /// No line bound.
    pub fn new() -> (q: Self)
        ensures
            q.wf(),
            forall|i: int| 0 <= i < NLINES ==> (#[trigger] q.v@[i]) is None,
    {
        let mut v: Vec<Option<u8>> = Vec::new();
        let mut i: usize = 0;
        while i < NLINES
            invariant
                i <= NLINES,
                v@.len() == i,
                forall|k: int| 0 <= k < i ==> (#[trigger] v@[k]) is None,
            decreases NLINES - i,
        {
            v.push(None);
            i += 1;
        }
        Irqs { v }
    }
}

/// Route `line` to notification `notif_idx`. The line stays masked until it is
/// acknowledged for the first time.
pub fn bind(q: &mut Irqs, line: u8, notif_idx: u8)
    requires
        old(q).wf(),
        line < NLINES,
        notif_idx < POOL_SIZE,
    ensures
        final(q).wf(),
        final(q).v@ == old(q).v@.update(line as int, Some(notif_idx)),
{
    q.v[line as usize] = Some(notif_idx);
    assert(q.v@ =~= old(q).v@.update(line as int, Some(notif_idx)));
}

/// Whether `line` is routed anywhere.
pub fn is_bound(q: &Irqs, line: u8) -> (b: bool)
    requires
        q.wf(),
        line < NLINES,
    ensures
        b == (q.v@[line as int] is Some),
{
    q.v[line as usize].is_some()
}

/// The interrupt mask after `line` of a controller of eight was unmasked.
pub open spec fn unmasked(mask: u8, line: u8) -> u8 {
    mask & !(1u8 << line)
}

/// Acknowledge: the mask register of the line's controller with the line open again.
pub fn ack(line: u8, mask: u8) -> (m: u8)
    requires
        line < NLINES,
    ensures
        m == unmasked(mask, (line % 8) as u8),
{
    mask & !(1u8 << (line % 8))
}

/// An interrupt on `line`: signal the notification it is routed to, if any.
pub fn fire(q: &Irqs, notifs: &mut Notifs, slots: &mut Slots, s: &mut Sched, line: u8)
    requires
        q.wf(),
        old(notifs).wf(),
        old(slots).wf(),
        old(s).wf(),
        line < NLINES,
    ensures
        final(notifs).wf(),
        final(slots).wf(),
        final(s).wf(),
        final(notifs).tick == old(notifs).tick,
        final(s).cpus@ == old(s).cpus@,
        match q.v@[line as int] {
            Some(i) => notif::signalled(
                old(notifs).pool@,
                final(notifs).pool@,
                old(slots).views(),
                final(slots).views(),
                old(s).tcbs@,
                final(s).tcbs@,
                i as int,
            ),
            None => *final(notifs) == *old(notifs) && *final(slots) == *old(slots) && *final(s)
                == *old(s),
        },
{
    if let Some(i) = q.v[line as usize] {
        notif::signal(notifs, slots, s, i);
    }
}

} // verus!
