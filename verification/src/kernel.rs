//! The whole state of the kernel, and what its parts have to do with each other.
use vstd::prelude::*;
use crate::channel::Conns;
use crate::fb::FbInfo;
use crate::image::Images;
use crate::ipc;
use crate::ipc::Ipc;
use crate::irq::Irqs;
use crate::mm::mem::{Frames, Mems};
use crate::mm::pmm::Pmm;
use crate::notif::Notifs;
use crate::object;
use crate::object::{HandleEntry, ObjectRef};
use crate::pipe::Pipes;
use crate::proc;
use crate::proc::{Procs, Table, MAX_PROCS};
use crate::rng::Csprng;
use crate::shm;
use crate::shm::{Regions, ShmWorld};
use crate::thread;
use crate::thread::Sched;

verus! {

/// Everything the kernel keeps.
pub struct Kernel {
    pub sched: Sched,
    pub procs: Procs,
    pub ipc: Ipc,
    pub notifs: Notifs,
    pub mems: Mems,
    pub frames: Frames,
    pub pmm: Pmm,
    pub regions: Regions,
    pub pipes: Pipes,
    pub conns: Conns,
    pub images: Images,
    pub irqs: Irqs,
    pub rng: Csprng,
    pub fb: Option<FbInfo>,
}

impl Kernel {
    /// Every part is well-formed, and so is what one part says of another.
    pub open spec fn wf(&self) -> bool {
        &&& self.sched.wf()
        &&& self.procs.wf()
        &&& self.ipc.wf(self.sched.tcbs@)
        &&& self.notifs.wf()
        &&& self.mems.wf()
        &&& self.frames.wf()
        &&& self.pmm.wf()
        &&& self.regions.wf()
        &&& self.pipes.wf()
        &&& self.conns.wf()
        &&& self.images.wf()
        &&& self.irqs.wf()
        &&& self.rng.seeded
        &&& self.fb is Some ==> self.fb->0.wf()
    }

    /// What dropping a handle can change.
    pub open spec fn shm_world(&self) -> ShmWorld {
        shm::shm_world(self.regions, self.pmm, self.mems)
    }

    /// Processor `cpu` runs a thread of a process.
    pub open spec fn in_process(&self, cpu: usize) -> bool {
        &&& self.sched.up(cpu)
        &&& self.sched.tcbs@[self.sched.running(cpu)].proc < MAX_PROCS
    }

    /// The process whose thread `cpu` runs.
    pub open spec fn caller(&self, cpu: usize) -> int {
        self.sched.tcbs@[self.sched.running(cpu)].proc as int
    }

    /// The handle table of that process.
    pub open spec fn caller_table(&self, cpu: usize) -> Table {
        self.procs.v@[self.caller(cpu)].handles@
    }
}

/// The kernel at boot, over the memory the loader left, a seeded generator and the
/// framebuffer, if there is one: the boot thread runs, and nothing else exists.
pub fn init(pmm: Pmm, rng: Csprng, fb: Option<FbInfo>) -> (k: Kernel)
    requires
        pmm.wf(),
        rng.seeded,
        fb is Some ==> fb->0.wf(),
    ensures
        k.wf(),
        thread::exclusive(k.sched.tcbs@, k.sched.cpus@),
        k.pmm == pmm,
        k.rng == rng,
        k.fb == fb,
        forall|i: int| 0 <= i < MAX_PROCS ==> proc::is_blank(#[trigger] k.procs.v@[i]),
{
    Kernel {
        sched: thread::init(),
        procs: Procs::new(),
        ipc: ipc::init(),
        notifs: Notifs::new(),
        mems: Mems::new(),
        frames: Frames::new(),
        pmm,
        regions: Regions::new(),
        pipes: Pipes::new(),
        conns: Conns::new(),
        images: Images::new(),
        irqs: Irqs::new(),
        rng,
        fb,
    }
}

/// The world after a handle was dropped: a shared region counts its handles.
pub open spec fn handle_dropped(w: ShmWorld, e: Option<HandleEntry>) -> ShmWorld {
    match e {
        Some(e) => match e.obj {
            ObjectRef::Shm(i) => shm::unreferenced(w, i as int),
            _ => w,
        },
        None => w,
    }
}

/// The world after the first `n` handles of a table were dropped.
pub open spec fn handles_dropped(w: ShmWorld, t: Table, n: int) -> ShmWorld
    decreases n,
{
    if n <= 0 {
        w
    } else {
        handle_dropped(handles_dropped(w, t, n - 1), t[n - 1])
    }
}

/// The refund that dropping a handle may bring fits its budget.
pub open spec fn drop_fits(w: ShmWorld, e: Option<HandleEntry>) -> bool {
    match e {
        Some(e) => match e.obj {
            ObjectRef::Shm(i) => shm::refund_fits(w, i as int),
            _ => true,
        },
        None => true,
    }
}

/// Every refund fits when the first `n` handles of a table are dropped one by one.
pub open spec fn drops_fit(w: ShmWorld, t: Table, n: int) -> bool {
    forall|k: int| 0 <= k < n ==> drop_fits(#[trigger] handles_dropped(w, t, k), t[k])
}

/// Stop counting a handle.
pub fn drop_handle(regions: &mut Regions, pmm: &mut Pmm, mems: &mut Mems, e: &Option<HandleEntry>)
    requires
        old(regions).wf(),
        old(pmm).wf(),
        old(mems).wf(),
        *e is Some ==> object::names_object((*e)->0.obj),
        drop_fits(shm::shm_world(*old(regions), *old(pmm), *old(mems)), *e),
    ensures
        final(regions).wf(),
        final(pmm).wf(),
        final(mems).wf(),
        final(pmm).base == old(pmm).base,
        final(pmm).next == old(pmm).next,
        final(pmm).end == old(pmm).end,
        shm::shm_world(*final(regions), *final(pmm), *final(mems)) == handle_dropped(
            shm::shm_world(*old(regions), *old(pmm), *old(mems)),
            *e,
        ),
{
    if let Some(h) = e {
        if let ObjectRef::Shm(i) = h.obj {
            shm::decref(regions, pmm, mems, i);
        }
    }
}

/// Stop counting every handle of a table.
pub fn drop_handles(
    regions: &mut Regions,
    pmm: &mut Pmm,
    mems: &mut Mems,
    t: &[Option<HandleEntry>],
)
    requires
        old(regions).wf(),
        old(pmm).wf(),
        old(mems).wf(),
        proc::table_ok(t@),
        drops_fit(shm::shm_world(*old(regions), *old(pmm), *old(mems)), t@, t@.len() as int),
    ensures
        final(regions).wf(),
        final(pmm).wf(),
        final(mems).wf(),
        final(pmm).base == old(pmm).base,
        final(pmm).next == old(pmm).next,
        final(pmm).end == old(pmm).end,
        shm::shm_world(*final(regions), *final(pmm), *final(mems)) == handles_dropped(
            shm::shm_world(*old(regions), *old(pmm), *old(mems)),
            t@,
            t@.len() as int,
        ),
{
    let mut n: usize = 0;
    while n < t.len()
        invariant
            n <= t@.len(),
            regions.wf(),
            pmm.wf(),
            mems.wf(),
            proc::table_ok(t@),
            pmm.base == old(pmm).base,
            pmm.next == old(pmm).next,
            pmm.end == old(pmm).end,
            shm::shm_world(*regions, *pmm, *mems) == handles_dropped(
                shm::shm_world(*old(regions), *old(pmm), *old(mems)),
                t@,
                n as int,
            ),
            drops_fit(
                shm::shm_world(*old(regions), *old(pmm), *old(mems)),
                t@,
                t@.len() as int,
            ),
        decreases t@.len() - n,
    {
        drop_handle(regions, pmm, mems, &t[n]);
        n += 1;
    }
}

/// Only the handle table of process `me` differs between two pools, and it is now `t`.
pub open spec fn table_becomes(a: Procs, b: Procs, me: int, t: Table) -> bool {
    &&& b.v@ =~= a.v@.update(me, b.v@[me])
    &&& proc::same_but_handles(a.v@[me], b.v@[me])
    &&& b.v@[me].handles@ =~= t
}

} // verus!
