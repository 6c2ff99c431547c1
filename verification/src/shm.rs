//! Shared memory regions: reference-counted runs of frames that several address spaces
//! can map.
use vstd::prelude::*;
use crate::mm::mem;
use crate::mm::mem::{MemObj, Mems, MEM_POOL};
use crate::mm::pmm;
use crate::mm::pmm::Pmm;
use crate::mm::vm;
use crate::mm::vm::PageMap;

verus! {

/// Regions in the pool.
pub const NREGIONS: usize = 16;

/// Pages a region holds at most.
pub const MAX_PAGES: usize = 4096;

/// One region.
pub struct Region {
    pub in_use: bool,
    /// Handles to the region, over all processes.
    pub rc: u32,
    /// The budget that paid for the frames.
    pub mem_idx: u8,
    pub frames: Vec<u64>,
}

impl Region {
    pub open spec fn wf(&self) -> bool {
        &&& self.frames@.len() <= MAX_PAGES
        &&& self.in_use ==> self.frames@.len() > 0
        &&& self.mem_idx < MEM_POOL
    }
}

/// A region as a mathematical value.
#[verifier::ext_equal]
pub struct RegionView {
    pub in_use: bool,
    pub rc: u32,
    pub mem_idx: u8,
    pub frames: Seq<u64>,
}

impl Region {
    pub open spec fn view(&self) -> RegionView {
        RegionView {
            in_use: self.in_use,
            rc: self.rc,
            mem_idx: self.mem_idx,
            frames: self.frames@,
        }
    }
}

/// The regions, the free frames and the budgets: what dropping a handle can change.
#[verifier::ext_equal]
pub struct ShmWorld {
    pub regions: Seq<RegionView>,
    pub free: Seq<u64>,
    pub mems: Seq<MemObj>,
}

/// The state of the kernel as far as dropping a handle is concerned.
pub open spec fn shm_world(regs: Regions, p: Pmm, m: Mems) -> ShmWorld {
    ShmWorld { regions: regs.views(), free: p.free@, mems: m.v@ }
}

/// The world after one handle to region `i` was dropped. The last one sends the frames
/// back and refunds the budget that paid for them.
pub open spec fn unreferenced(w: ShmWorld, i: int) -> ShmWorld {
    let r = w.regions[i];
    if !r.in_use {
        w
    } else if r.rc > 1 {
        ShmWorld {
            regions: w.regions.update(i, RegionView { rc: (r.rc - 1) as u32, ..r }),
            ..w
        }
    } else {
        let e = w.mems[r.mem_idx as int];
        ShmWorld {
            regions: w.regions.update(
                i,
                RegionView { in_use: false, rc: 0, frames: Seq::empty(), ..r },
            ),
            free: w.free + r.frames,
            mems: w.mems.update(
                r.mem_idx as int,
                MemObj { remaining: (e.remaining + r.frames.len() * 4096) as u64, ..e },
            ),
        }
    }
}

/// Dropping a handle to region `i` refunds no more than its budget can take.
pub open spec fn refund_fits(w: ShmWorld, i: int) -> bool {
    let r = w.regions[i];
    r.in_use && r.rc <= 1 ==> w.mems[r.mem_idx as int].remaining + r.frames.len() * 4096
        <= u64::MAX
}

/// The pool of regions.
pub struct Regions {
    pub v: Vec<Region>,
}

impl Regions {
    pub open spec fn wf(&self) -> bool {
        &&& self.v@.len() == NREGIONS
        &&& forall|i: int| 0 <= i < NREGIONS ==> (#[trigger] self.v@[i]).wf()
    }

    pub open spec fn views(&self) -> Seq<RegionView> {
        Seq::new(self.v@.len(), |i: int| self.v@[i]@)
    }

    /// A pool of unused regions.
    pub fn new() -> (r: Self)
        ensures
            r.wf(),
            forall|i: int| 0 <= i < NREGIONS ==> !(#[trigger] r.v@[i]).in_use,
    {
        let mut v: Vec<Region> = Vec::new();
        let mut i: usize = 0;
        while i < NREGIONS
            invariant
                i <= NREGIONS,
                v@.len() == i,
                forall|k: int| 0 <= k < i ==> (#[trigger] v@[k]).wf() && !v@[k].in_use,
            decreases NREGIONS - i,
        {
            v.push(Region { in_use: false, rc: 0, mem_idx: 0, frames: Vec::new() });
            i += 1;
        }
        Regions { v }
    }
}

/// The lowest unused region from `i` up.
pub open spec fn free_region_from(v: Seq<Region>, i: int) -> int
    decreases v.len() - i,
{
    if i >= v.len() || !v[i].in_use {
        i
    } else {
        free_region_from(v, i + 1)
    }
}

/// Only region `i` differs between two pools.
pub open spec fn only_changes(a: Seq<Region>, b: Seq<Region>, i: int) -> bool {
    b =~= a.update(i, b[i])
}

fn find_free(regs: &Regions) -> (r: Option<usize>)
    requires
        regs.wf(),
    ensures
        match r {
            Some(i) => i == free_region_from(regs.v@, 0) && i < NREGIONS && !regs.v@[i as int].in_use,
            None => free_region_from(regs.v@, 0) >= NREGIONS,
        },
{
    let mut i: usize = 0;
    while i < NREGIONS
        invariant
            regs.wf(),
            i <= NREGIONS,
            free_region_from(regs.v@, 0) == free_region_from(regs.v@, i as int),
        decreases NREGIONS - i,
    {
        if !regs.v[i].in_use {
            return Some(i);
        }
        i += 1;
    }
    None
}

/// A region of `frames` that nobody refers to yet.
pub open spec fn new_region(r: Region, frames: Seq<u64>) -> bool {
    &&& r.in_use
    &&& r.rc == 0
    &&& r.mem_idx == 0
    &&& r.frames@ =~= frames
}

/// Make a region of `npages` frames in the lowest unused slot. `None` if the size is
/// out of range, no slot is free, or there are not enough frames; the frames taken in
/// the last case go back.
pub fn create(regs: &mut Regions, p: &mut Pmm, npages: usize) -> (r: Option<u8>)
    requires
        old(regs).wf(),
        old(p).wf(),
    ensures
        final(regs).wf(),
        final(p).wf(),
        ({
            let i = free_region_from(old(regs).v@, 0);
            &&& r is Some <==> 0 < npages <= MAX_PAGES && i < NREGIONS && npages <= pmm::capacity(
                *old(p),
            )
            &&& r is Some ==> {
                &&& r->0 == i
                &&& only_changes(old(regs).v@, final(regs).v@, i)
                &&& new_region(
                    final(regs).v@[i],
                    Seq::new(npages as nat, |k: int| pmm::handed_out(*old(p), k)),
                )
                &&& pmm::allocated_run(*old(p), *final(p), npages as int)
            }
            &&& r is None ==> {
                &&& *final(regs) == *old(regs)
                &&& if 0 < npages <= MAX_PAGES && i < NREGIONS {
                    pmm::turned_over(*old(p), *final(p))
                } else {
                    *final(p) == *old(p)
                }
            }
        }),
{
    if npages == 0 || npages > MAX_PAGES {
        return None;
    }
    let idx: usize = match find_free(regs) {
        Some(i) => i,
        None => {
            return None;
        },
    };
    match pmm::alloc_many(p, npages as u64) {
        Some(frames) => {
            let r = &mut regs.v[idx];
            r.frames = frames;
            r.in_use = true;
            r.rc = 0;
            r.mem_idx = 0;
            Some(idx as u8)
        },
        None => None,
    }
}

/// Make a region of `npages` frames in a row, so that its first address names it all.
pub fn create_contig(regs: &mut Regions, p: &mut Pmm, npages: usize) -> (r: Option<u8>)
    requires
        old(regs).wf(),
        old(p).wf(),
    ensures
        final(regs).wf(),
        final(p).wf(),
        ({
            let i = free_region_from(old(regs).v@, 0);
            &&& r is Some <==> 0 < npages <= MAX_PAGES && i < NREGIONS && old(p).next + npages
                * pmm::FRAME_SIZE <= old(p).end
            &&& r is Some ==> {
                &&& r->0 == i
                &&& only_changes(old(regs).v@, final(regs).v@, i)
                &&& new_region(
                    final(regs).v@[i],
                    Seq::new(npages as nat, |k: int| (old(p).next + k * 4096) as u64),
                )
                &&& *final(p) == (Pmm {
                    next: (old(p).next + npages * pmm::FRAME_SIZE) as u64,
                    ..*old(p)
                })
            }
            &&& r is None ==> *final(regs) == *old(regs) && *final(p) == *old(p)
        }),
{
    if npages == 0 || npages > MAX_PAGES {
        return None;
    }
    let idx: usize = match find_free(regs) {
        Some(i) => i,
        None => {
            return None;
        },
    };
    let base: u64 = match pmm::alloc_contig(p, npages as u64) {
        Some(b) => b,
        None => {
            return None;
        },
    };
    let mut frames: Vec<u64> = Vec::new();
    let mut i: usize = 0;
    while i < npages
        invariant
            i <= npages,
            npages <= MAX_PAGES,
            base + npages * 4096 <= u64::MAX,
            frames@ =~= Seq::new(i as nat, |k: int| (base + k * 4096) as u64),
        decreases npages - i,
    {
        frames.push(base + (i as u64) * 4096);
        i += 1;
    }
    let r = &mut regs.v[idx];
    r.frames = frames;
    r.in_use = true;
    r.rc = 0;
    r.mem_idx = 0;
    Some(idx as u8)
}

/// Address of the region's first frame, 0 if the region is unused.
pub fn phys_base(regs: &Regions, idx: u8) -> (a: u64)
    requires
        regs.wf(),
        idx < NREGIONS,
    ensures
        a == (if regs.v@[idx as int].in_use {
            regs.v@[idx as int].frames@[0]
        } else {
            0
        }),
{
    let r = &regs.v[idx as usize];
    if r.in_use {
        r.frames[0]
    } else {
        0
    }
}

/// Bytes of the region, 0 if it is unused.
pub open spec fn region_bytes(r: Region) -> nat {
    if r.in_use {
        r.frames@.len() * 4096
    } else {
        0
    }
}

/// Bytes of the region, 0 if it is unused.
pub fn size(regs: &Regions, idx: u8) -> (n: usize)
    requires
        regs.wf(),
        idx < NREGIONS,
    ensures
        n == region_bytes(regs.v@[idx as int]),
{
    let r = &regs.v[idx as usize];
    if r.in_use {
        r.frames.len() * 4096
    } else {
        0
    }
}

/// A region can be mapped at `vaddr`: it is in use and none of its pages is taken.
pub open spec fn mappable(r: Region, ram: Seq<u64>, root: u64, vaddr: u64) -> bool {
    r.in_use && !vm::occupied(ram, root, vaddr, r.frames@.len() as int)
}

/// The pages to map so that the region appears at `vaddr` in the address space at
/// `root`, one per frame; none if the region is unused or any page is taken.
pub fn map(regs: &Regions, idx: u8, ram: &[u64], root: u64, vaddr: u64) -> (pages: Vec<PageMap>)
    requires
        regs.wf(),
        idx < NREGIONS,
        vaddr + regs.v@[idx as int].frames@.len() * 4096 <= u64::MAX,
        forall|p: int|
            0 <= p < regs.v@[idx as int].frames@.len() ==> vm::walk_in(
                ram@,
                root,
                #[trigger] vm::page_at(vaddr, p),
            ),
    ensures
        ({
            let r = regs.v@[idx as int];
            &&& !mappable(r, ram@, root, vaddr) ==> pages@.len() == 0
            &&& mappable(r, ram@, root, vaddr) ==> pages@ == Seq::new(
                r.frames@.len(),
                |i: int| PageMap { virt: (vaddr + i * 4096) as u64, phys: r.frames@[i] },
            )
        }),
{
    let r = &regs.v[idx as usize];
    let mut pages: Vec<PageMap> = Vec::new();
    if !r.in_use {
        return pages;
    }
    if vm::probe_user_range(ram, root, vaddr, r.frames.len() as u64).is_err() {
        return pages;
    }
    let mut i: usize = 0;
    while i < r.frames.len()
        invariant
            i <= r.frames@.len(),
            r.frames@.len() <= MAX_PAGES,
            vaddr + r.frames@.len() * 4096 <= u64::MAX,
            pages@ =~= Seq::new(
                i as nat,
                |k: int| PageMap { virt: (vaddr + k * 4096) as u64, phys: r.frames@[k] },
            ),
        decreases r.frames@.len() - i,
    {
        pages.push(PageMap { virt: vaddr + (i as u64) * 4096, phys: r.frames[i] });
        i += 1;
    }
    pages
}

/// Frames come back to the allocator in order.
pub open spec fn frames_back(a: Pmm, b: Pmm, frames: Seq<u64>) -> bool {
    &&& b.base == a.base
    &&& b.next == a.next
    &&& b.end == a.end
    &&& b.free@ =~= a.free@ + frames
}

fn give_back(p: &mut Pmm, frames: &Vec<u64>)
    requires
        old(p).wf(),
    ensures
        final(p).wf(),
        frames_back(*old(p), *final(p), frames@),
{
    let mut i: usize = 0;
    while i < frames.len()
        invariant
            p.wf(),
            i <= frames@.len(),
            frames_back(*old(p), *p, frames@.subrange(0, i as int)),
        decreases frames@.len() - i,
    {
        pmm::free_frame(p, frames[i]);
        i += 1;
    }
    assert(frames@.subrange(0, frames@.len() as int) =~= frames@);
}

/// Free a region that no handle refers to, without a refund.
pub fn free(regs: &mut Regions, p: &mut Pmm, idx: u8)
    requires
        old(regs).wf(),
        old(p).wf(),
        idx < NREGIONS,
    ensures
        final(regs).wf(),
        final(p).wf(),
        ({
            let r = old(regs).v@[idx as int];
            let s = final(regs).v@[idx as int];
            if r.in_use {
                &&& only_changes(old(regs).v@, final(regs).v@, idx as int)
                &&& !s.in_use && s.rc == 0 && s.frames@.len() == 0 && s.mem_idx == r.mem_idx
                &&& frames_back(*old(p), *final(p), r.frames@)
            } else {
                *final(regs) == *old(regs) && *final(p) == *old(p)
            }
        }),
{
    let i: usize = idx as usize;
    if regs.v[i].in_use {
        give_back(p, &regs.v[i].frames);
        let r = &mut regs.v[i];
        r.in_use = false;
        r.rc = 0;
        r.frames = Vec::new();
    }
}

/// Record the budget that paid for a region.
pub fn set_mem(regs: &mut Regions, idx: u8, mem_idx: u8)
    requires
        old(regs).wf(),
        idx < NREGIONS,
        mem_idx < MEM_POOL,
    ensures
        final(regs).wf(),
        ({
            let r = old(regs).v@[idx as int];
            final(regs).v@ =~= old(regs).v@.update(
                idx as int,
                if r.in_use {
                    Region { mem_idx, ..r }
                } else {
                    r
                },
            )
        }),
{
    let i: usize = idx as usize;
    if regs.v[i].in_use {
        regs.v[i].mem_idx = mem_idx;
    }
}

/// A region with one more handle to it; the count never wraps.
pub open spec fn referenced(r: Region) -> Region {
    if r.in_use && r.rc < u32::MAX {
        Region { rc: (r.rc + 1) as u32, ..r }
    } else {
        r
    }
}

/// Count one more handle to a region.
pub fn incref(regs: &mut Regions, idx: u8)
    requires
        old(regs).wf(),
        idx < NREGIONS,
    ensures
        final(regs).wf(),
        final(regs).v@ =~= old(regs).v@.update(idx as int, referenced(old(regs).v@[idx as int])),
{
    let i: usize = idx as usize;
    if regs.v[i].in_use {
        regs.v[i].rc = regs.v[i].rc.saturating_add(1);
    }
}

/// Dropping a handle to `r` frees it.
pub open spec fn last_reference(r: Region) -> bool {
    r.in_use && r.rc <= 1
}

/// Count one handle less. With the last one the frames go back and the budget that paid
/// for them is refunded.
pub fn decref(regs: &mut Regions, p: &mut Pmm, m: &mut Mems, idx: u8)
    requires
        old(regs).wf(),
        old(p).wf(),
        old(m).wf(),
        idx < NREGIONS,
        refund_fits(shm_world(*old(regs), *old(p), *old(m)), idx as int),
    ensures
        final(regs).wf(),
        final(p).wf(),
        final(m).wf(),
        final(p).base == old(p).base,
        final(p).next == old(p).next,
        final(p).end == old(p).end,
        shm_world(*final(regs), *final(p), *final(m)) == unreferenced(
            shm_world(*old(regs), *old(p), *old(m)),
            idx as int,
        ),
{
    let i: usize = idx as usize;
    let ghost w = shm_world(*regs, *p, *m);
    assert(w.regions[i as int] == regs.v@[i as int]@);
    if !regs.v[i].in_use {
        return;
    }
    if regs.v[i].rc > 0 {
        regs.v[i].rc = regs.v[i].rc - 1;
    }
    if regs.v[i].rc != 0 {
        assert(regs.views() =~= unreferenced(w, i as int).regions);
        return;
    }
    let bytes: u64 = regs.v[i].frames.len() as u64 * 4096;
    let mem_idx: u8 = regs.v[i].mem_idx;
    give_back(p, &regs.v[i].frames);
    let r = &mut regs.v[i];
    r.in_use = false;
    r.frames = Vec::new();
    mem::credit(m, mem_idx, bytes);
    proof {
        let goal = unreferenced(w, i as int);
        assert(regs.v@[i as int].frames@ =~= Seq::<u64>::empty());
        assert(regs.v@[i as int]@ =~= goal.regions[i as int]);
        assert(regs.views() =~= goal.regions);
        assert(p.free@ =~= goal.free);
        assert(m.v@ =~= goal.mems);
    }
}

/// A region lives exactly as long as some handle refers to it: the drop of a handle
/// frees it if there was no other, and does not if there was.
pub proof fn law_freed_at_last_handle(r: Region)
    requires
        r.in_use,
        r.rc < u32::MAX - 1,
    ensures
        last_reference(referenced(r)) <==> r.rc == 0,
        !last_reference(referenced(referenced(r))),
{
}

} // verus!
