//! Laws of holding and of starting: shared regions, closed handles, and what the programs of
//! the first hour are given.

use crate::boot::{self, BootContext, Booted, Module, Stop};
use crate::elf::Image;
use crate::image::ImageEntry;
use crate::ipc;
use crate::kernel::{self, Kernel};
use crate::mm::mem;
use crate::mm::pmm::{self, Pmm};
use crate::object::{HandleEntry, ObjectRef};
use crate::proc::{self, PState, Procs, Table};
use crate::shm::{self, Region, ShmWorld};
use crate::syscall::{caps, memory};
use crate::thread::State;
use vstd::prelude::*;

verus! {

/// The rights of a handle that has all rights to memory.
proof fn lemma_memory_rights()
    ensures
        0x20000u32 | 0x10000 | 4 | 8 == 0x3000c,
        0x20000u32 | 4 | 8 == 0x2000c,
{
    assert(0x20000u32 | 0x10000 | 4 | 8 == 0x3000c && 0x20000u32 | 4 | 8 == 0x2000c)
        by (bit_vector);
}

/// A new shared region has as many frames as asked for, none of them anybody's before, is
/// paid for by the page, and is held by one handle, of its maker, with all rights to it.
pub proof fn law_region_is_made(
    a: Kernel,
    b: Kernel,
    held: Set<u64>,
    me: int,
    m: u8,
    pages: u64,
)
    requires
        a.wf(),
        b.wf(),
        0 <= me < 32,
        m < 24,
        !proc::full(a.procs.v@[me].handles@),
        memory::region_fits(a, pages),
        pages * 4096 <= a.mems.v@[m as int].remaining,
        pmm::accounts(a.pmm, held),
        memory::region_made(a, b, me, m, pages),
    ensures
        ({
            let t = a.procs.v@[me].handles@;
            let u = b.procs.v@[me].handles@;
            let h = proc::next_slot(t);
            &&& 1 <= h < 64
            &&& t[h] is None
            &&& u[h] is Some
            &&& u[h]->0.rights == 0x3000c
            &&& u[h]->0.obj matches ObjectRef::Shm(i) && {
                let r = b.regions.v@[i as int]@;
                &&& i < 16
                &&& !a.regions.v@[i as int].in_use
                &&& r.in_use
                &&& r.rc == 1
                &&& r.mem_idx == m
                &&& r.frames.len() == pages
                &&& forall|x: int, y: int|
                    0 <= x < y < pages ==> #[trigger] r.frames[x] != #[trigger] r.frames[y]
                &&& forall|x: int|
                    0 <= x < pages ==> !held.contains(#[trigger] r.frames[x])
                        && !b.pmm.free@.contains(r.frames[x])
                &&& forall|j: int|
                    0 <= j < 16 && j != i ==> b.regions.v@[j]@ == a.regions.v@[j]@
            }
            &&& forall|x: int| 0 <= x < 64 && x != h ==> u[x] == t[x]
            &&& b.mems.v@[m as int].remaining == a.mems.v@[m as int].remaining - pages * 4096
            &&& forall|j: int| 0 <= j < 24 && j != m ==> b.mems.v@[j] == a.mems.v@[j]
            &&& forall|p: int| 0 <= p < 32 && p != me ==> b.procs.v@[p] == a.procs.v@[p]
        }),
{
    let t = a.procs.v@[me].handles@;
    proc::lemma_empty_from(t, 1);
    lemma_free_region(a.regions.v@, 0);
    let i = shm::free_region_from(a.regions.v@, 0);
    crate::laws::mapping::law_run_is_fresh(a.pmm, b.pmm, held, pages as int);
    lemma_memory_rights();
    let r = b.regions.views()[i];
    assert(r == b.regions.v@[i]@);
    assert forall|x: int| 0 <= x < pages implies #[trigger] r.frames[x] == pmm::handed_out(
        a.pmm,
        x,
    ) by {}
    assert forall|j: int| 0 <= j < 16 && j != i implies b.regions.v@[j]@ == a.regions.v@[j]@ by {
        assert(b.regions.views()[j] == a.regions.views()[j]);
    }
}

proof fn lemma_free_region(v: Seq<Region>, i: int)
    requires
        0 <= i <= v.len(),
    ensures
        i <= shm::free_region_from(v, i) <= v.len(),
        shm::free_region_from(v, i) < v.len() ==> !v[shm::free_region_from(v, i)].in_use,
        forall|k: int| i <= k < shm::free_region_from(v, i) ==> (#[trigger] v[k]).in_use,
    decreases v.len() - i,
{
    if i < v.len() {
        lemma_free_region(v, i + 1);
    }
}

/// A region can be made of one to 4096 pages, with a place and the frames for it.
pub proof fn law_region_fits(k: Kernel, pages: u64)
    requires
        k.wf(),
    ensures
        memory::region_fits(k, pages) <==> {
            &&& 1 <= pages <= 4096
            &&& exists|i: int| 0 <= i < 16 && !(#[trigger] k.regions.v@[i]).in_use
            &&& pages <= pmm::capacity(k.pmm)
        },
{
    lemma_free_region(k.regions.v@, 0);
}

/// A region that could not be handed to its maker costs nothing: the budgets are as before,
/// every other region too, and the allocator can hand out as much as it could.
pub proof fn law_region_is_unmade(a: Kernel, b: Kernel, pages: u64)
    requires
        a.wf(),
        memory::region_fits(a, pages),
        memory::region_unmade(a, b, pages),
    ensures
        b.mems.v@ == a.mems.v@,
        b.procs == a.procs,
        pmm::capacity(b.pmm) == pmm::capacity(a.pmm),
        ({
            let i = shm::free_region_from(a.regions.v@, 0);
            &&& 0 <= i < 16
            &&& !b.regions.views()[i].in_use
            &&& b.regions.views()[i].frames.len() == 0
            &&& forall|j: int|
                0 <= j < 16 && j != i ==> b.regions.views()[j] == a.regions.views()[j]
        }),
{
    lemma_free_region(a.regions.v@, 0);
    let n = pages as int;
    let had = a.pmm.free@.len() as int;
    if n > had {
        let more = n - had;
        assert((a.pmm.end - a.pmm.next - more * 4096) / 4096 == (a.pmm.end - a.pmm.next) / 4096
            - more);
    }
}

/// A region is as large as its pages, and one not in use holds nothing.
pub proof fn law_region_bytes(r: Region)
    ensures
        r.in_use ==> shm::region_bytes(r) == r.frames@.len() * 4096,
        !r.in_use ==> shm::region_bytes(r) == 0,
{
}

/// Frames that come back go behind those that came back before.
pub proof fn law_frames_come_back(a: Pmm, b: Pmm, frames: Seq<u64>)
    requires
        shm::frames_back(a, b, frames),
    ensures
        b.free@.len() == a.free@.len() + frames.len(),
        b.next == a.next,
        forall|i: int| 0 <= i < a.free@.len() ==> b.free@[i] == a.free@[i],
        forall|i: int| 0 <= i < frames.len() ==> b.free@.contains(#[trigger] frames[i]),
{
    assert forall|i: int| 0 <= i < frames.len() implies b.free@.contains(#[trigger] frames[i]) by {
        assert(b.free@[a.free@.len() + i] == frames[i]);
    }
}

/// A handle to anything but a shared region is dropped without a trace.
pub proof fn law_only_regions_feel_a_drop(w: ShmWorld, e: HandleEntry)
    ensures
        !(e.obj is Shm) ==> kernel::handle_dropped(w, Some(e)) == w,
        kernel::handle_dropped(w, None) == w,
        e.obj is Shm ==> kernel::handle_dropped(w, Some(e)) == shm::unreferenced(
            w,
            e.obj->Shm_0 as int,
        ),
{
}

/// Changing the table of one process changes nothing else of any.
pub proof fn law_one_table_changes(a: Procs, b: Procs, me: int, t: Table)
    requires
        a.wf(),
        0 <= me < 32,
        kernel::table_becomes(a, b, me, t),
    ensures
        b.v@[me].handles@ == t,
        b.v@[me].state == a.v@[me].state,
        b.v@[me].pml4_phys == a.v@[me].pml4_phys,
        b.v@[me].pledge == a.v@[me].pledge,
        b.v@[me].mem_idx == a.v@[me].mem_idx,
        b.v@[me].exit_notif == a.v@[me].exit_notif,
        b.v@[me].imm == a.v@[me].imm && b.v@[me].imm_count == a.v@[me].imm_count,
        forall|p: int| 0 <= p < 32 && p != me ==> b.v@[p] == a.v@[p],
{
    assert(proc::same_but_handles(a.v@[me], b.v@[me]));
}

/// A handle that is closed leads nowhere, and every other one leads where it did. Closing
/// the right to answer a call that still waits tells the caller that it failed; closing
/// anything else wakes nobody.
pub proof fn law_closed_handle(a: Kernel, b: Kernel, me: int, h: int)
    requires
        a.wf(),
        0 <= me < 32,
        1 <= h < 64,
        a.procs.v@[me].handles@[h] is Some,
        caps::closed(a, b, me, h),
    ensures
        ({
            let e = a.procs.v@[me].handles@[h]->0;
            &&& b.procs.v@[me].handles@[h] is None
            &&& forall|x: int|
                0 <= x < 64 && x != h ==> b.procs.v@[me].handles@[x] == a.procs.v@[me].handles@[x]
            &&& forall|p: int| 0 <= p < 32 && p != me ==> b.procs.v@[p] == a.procs.v@[p]
            &&& !(e.obj is Reply) ==> b.sched.tcbs@ == a.sched.tcbs@ && b.ipc.replies@
                == a.ipc.replies@ && b.ipc.slots.views() == a.ipc.slots.views()
            &&& !(e.obj is Shm) ==> b.mems.v@ == a.mems.v@ && b.pmm.free@ == a.pmm.free@
                && b.regions.views() == a.regions.views()
            &&& e.obj matches ObjectRef::Reply(i) ==> {
                let r = a.ipc.replies@[i as int];
                let c = r.caller_tid as int;
                r.in_use && r.gen == e.badge && a.sched.tcbs@[c].state == State::Blocked ==> {
                    &&& !b.ipc.replies@[i as int].in_use
                    &&& b.sched.tcbs@[c].state == State::Ready
                    &&& b.ipc.slots.views()[c].ret_rax != 0
                }
            }
        }),
{
    let e = a.procs.v@[me].handles@[h]->0;
    assert(a.procs.v@[me].wf());
    assert(crate::object::names_object(e.obj));
    if e.obj is Reply {
        let i = e.obj->Reply_0 as int;
        assert(ipc::reply_ok(a.ipc.replies@[i], a.sched.tcbs@));
    }
}

/// What each program of the first hour can spend.
pub proof fn law_first_budgets(m: Module)
    ensures
        m == Module::Shell ==> boot::budget_of(m) == 96 * 1024 * 1024,
        m == Module::Fs ==> boot::budget_of(m) == 16 * 1024 * 1024,
        m == Module::Compositor ==> boot::budget_of(m) == 108 * 1024 * 1024,
        m != Module::Shell && m != Module::Fs && m != Module::Compositor ==> boot::budget_of(m)
            == 256 * 1024,
{
}

proof fn lemma_boot_rights()
    ensures
        forall|r: u32|
            #![trigger r & 2]
            (r == 1 || r == 1u32 | 4 | 8 || r == 1u32 | 4) ==> r & 2 == 0,
        forall|r: u32|
            #![trigger r & 2]
            (r == 2 || r == 1u32 | 2 | 4 | 8 || r == 1u32 | 2 | 4) ==> r & 2 == 2,
{
    assert(forall|r: u32|
        #![trigger r & 2]
        (r == 1 || r == 1u32 | 4 | 8 || r == 1u32 | 4 ==> r & 2 == 0) && (r == 2 || r == 1u32 | 2 | 4
            | 8 || r == 1u32 | 2 | 4 ==> r & 2 == 2)) by (bit_vector);
}

/// Every service has one receiver: the terminal server on the first endpoint, the file, the
/// network and the disk server on the next three. Nobody else may receive there.
#[verifier::spinoff_prover]
pub proof fn law_services_have_one_receiver(
    m: Module,
    ctx: BootContext,
    images: Seq<ImageEntry>,
    i: int,
)
    requires
        0 <= i < boot::grants_of(m, ctx, images).len(),
    ensures
        ({
            let e = boot::grants_of(m, ctx, images)[i].entry;
            e.obj matches ObjectRef::Endpoint(ep) ==> {
                &&& 1 <= ep <= 4
                &&& e.rights & 2 != 0 <==> (ep == 1 && m == Module::Tty || ep == 2 && m
                    == Module::Fs || ep == 3 && m == Module::Net || ep == 4 && m == Module::Blk)
            }
        }),
{
    let l = boot::shell_images_list();
    let c = boot::compositor_images_list();
    boot::lemma_images_are_images(images, l, l.len() as int);
    boot::lemma_images_are_images(images, c, c.len() as int);
    lemma_boot_rights();
    let g = boot::grants_of(m, ctx, images)[i];
    let r = g.entry.rights;
    assert(r & 2 == r & 2);
    match m {
        Module::Shell => {
            let mid = boot::image_grants(images, l, l.len() as int);
            if 2 <= i < 2 + mid.len() {
                assert(g == mid[i - 2]);
            }
        },
        Module::Compositor => {
            let mid = boot::image_grants(images, c, c.len() as int);
            let all = boot::grants_of(m, ctx, images);
            let before = all.len() - mid.len();
            if i >= before {
                assert(g == mid[i - before]);
            }
        },
        _ => {},
    }
}

/// The keyboard driver has the keyboard's and the mouse's line and the two ports of the
/// keyboard, and no other line or port.
#[verifier::spinoff_prover]
pub proof fn law_keyboard_driver(ctx: BootContext, images: Seq<ImageEntry>, i: int)
    requires
        0 <= i < boot::grants_of(Module::Kbd, ctx, images).len(),
    ensures
        ({
            let o = boot::grants_of(Module::Kbd, ctx, images)[i].entry.obj;
            &&& o matches ObjectRef::Irq(l) ==> l == 1 || l == 12
            &&& o matches ObjectRef::IoPort { base, len } ==> (base == 0x60 || base == 0x64) && len
                == 1
            &&& !(o is PciDevice) && !(o is Framebuffer) && !(o is Memory)
        }),
        boot::grants_of(Module::Kbd, ctx, images).len() >= 5,
{
}

/// A program that was started is alive, holds a budget of its own of the size for it, and
/// its thread, if one was free, is ready in its address space.
pub proof fn law_started_program(
    a: Kernel,
    b: Kernel,
    r: Booted,
    cmd: Seq<u8>,
    img: Image,
    ctx: BootContext,
    stacks: u64,
)
    requires
        a.wf(),
        boot::startable(a) is None,
        stacks + 256 * 16384 <= u64::MAX,
        boot::booted(a, b, r, cmd, img, ctx, stacks),
    ensures
        ({
            let p = b.procs.v@[r.pid as int];
            let m = boot::module_named(cmd);
            &&& r.pid < 32
            &&& a.procs.v@[r.pid as int].state != PState::Alive
            &&& p.state == PState::Alive
            &&& p.pml4_phys == r.root
            &&& p.pledge == 0xffff_ffff_ffff_ffff
            &&& p.imm_count == 0
            &&& p.exit_notif is None
            &&& p.tls == r.load.tls
            &&& forall|i: int| 0 <= i < 32 && i != r.pid ==> b.procs.v@[i] == a.procs.v@[i]
            &&& pmm::next_frame(a.pmm) == Some(r.root)
            &&& r.tid != 0 ==> {
                let t = b.sched.tcbs@[r.tid as int];
                &&& r.tid < 256
                &&& t.state == State::Ready
                &&& t.proc == r.pid
                &&& t.cr3 == r.root
                &&& t.fs_base == r.load.fs_base
                &&& t.kstack_top == stacks + (r.tid + 1) * 16384
                &&& forall|i: int|
                    0 <= i < 256 && i != r.tid ==> b.sched.tcbs@[i] == a.sched.tcbs@[i]
            }
            &&& r.tid == 0 ==> b.sched == a.sched
            &&& exists|own: int|
                #![trigger b.mems.v@[own]]
                {
                    &&& 0 <= own < 24
                    &&& !a.mems.v@[own].in_use
                    &&& b.mems.v@[own].in_use
                    &&& b.mems.v@[own].remaining == boot::budget_of(m)
                    &&& forall|i: int| 0 <= i < 24 && i != own ==> b.mems.v@[i] == a.mems.v@[i]
                }
        }),
{
    crate::laws::process::law_lowest_reusable_place(a.procs.v@, a.sched.tcbs@, 0);
    mem::lemma_free_mem(a.mems.v@, 0);
    crate::laws::sched::law_lowest_free_slot(a.sched.tcbs@, 1);
    let own = mem::free_mem_from(a.mems.v@, 0);
    assert(b.mems.v@[own].in_use);
}

/// A program can be started while a frame, a place for a process and a budget are free.
pub proof fn law_startable(k: Kernel)
    requires
        k.wf(),
    ensures
        pmm::next_frame(k.pmm) is None <==> boot::startable(k) == Some(Stop::NoFrame),
        boot::startable(k) is None ==> pmm::next_frame(k.pmm) is Some && exists|i: int|
            0 <= i < 24 && !(#[trigger] k.mems.v@[i]).in_use,
        pmm::next_frame(k.pmm) is Some && (exists|i: int|
            0 <= i < 32 && (#[trigger] k.procs.v@[i]).state == PState::Free) && (exists|i: int|
            0 <= i < 24 && !(#[trigger] k.mems.v@[i]).in_use) ==> boot::startable(k) is None,
{
    crate::laws::process::law_lowest_reusable_place(k.procs.v@, k.sched.tcbs@, 0);
    crate::laws::mapping::law_lowest_free_pool_slot(k.mems.v@, k.frames.v@, 0);
}

/// The archive goes to the file server and to nobody else: every byte of it, in order, from
/// its place on.
pub proof fn law_archive_is_mapped(m: Module, phys: u64, size: u64, at: int)
    requires
        boot::archive_fits(Some((phys, size))),
        0 <= at < size,
        0x1000_0000 + size + 4096 <= u64::MAX,
        phys + size + 4096 <= u64::MAX,
    ensures
        m != Module::Fs ==> boot::archive_pages(m, Some((phys, size))).len() == 0,
        boot::archive_pages(m, None).len() == 0,
        m == Module::Fs ==> exists|i: int|
            #![trigger boot::archive_pages(m, Some((phys, size)))[i]]
            {
                let p = boot::archive_pages(m, Some((phys, size)))[i];
                &&& 0 <= i < boot::archive_pages(m, Some((phys, size))).len()
                &&& p.virt <= 0x1000_0000 + at < p.virt + 4096
                &&& p.phys + (0x1000_0000 + at - p.virt) == phys + at
            },
{
    if m == Module::Fs {
        crate::laws::authority::law_device_is_mapped_in_order(
            0x1000_0000,
            phys,
            size as int,
            at,
        );
        let pages = crate::syscall::dev::device_pages(0x1000_0000, phys, size as int);
        let i = choose|i: int|
            #![trigger pages[i]]
            {
                &&& 0 <= i < pages.len()
                &&& pages[i].virt <= 0x1000_0000 + at < pages[i].virt + 4096
                &&& pages[i].phys - pages[i].virt == phys - 0x1000_0000
            };
        assert(boot::archive_pages(m, Some((phys, size)))[i] == pages[i]);
    }
}

} // verus!
