//! Laws of memory: who may map what, what a mapping covers and costs, and where its frames
//! come from.

use crate::abi::{Handle, SysError};
use crate::mm::mem::{self, FrameObj, MemObj};
use crate::mm::pmm::{self, MemRegion, Pmm, RegionKind};
use crate::mm::vm::{self, PageMap, Probe, Release};
use crate::object::ObjectRef;
use crate::proc::{self, Process, Table};
use crate::shm::{self, Region};
use crate::syscall::memory;
use crate::syscall::UserSpace;
use crate::usermem;
use vstd::prelude::*;

verus! {

/// A mapping covers what was asked for and nothing else: every address of the range lies
/// in a page of the plan, every page lies in the range, and the pages follow one another.
pub proof fn law_map_covers_range(p: Pmm, vaddr: u64, len: u64, va: int)
    requires
        vaddr % 4096 == 0,
        len % 4096 == 0,
        vaddr + len <= 0x8000_0000_0000,
        vaddr <= va < vaddr + len,
    ensures
        ({
            let pages = memory::fresh_pages(p, vaddr, len as int / 4096);
            &&& pages.len() * 4096 == len
            &&& exists|i: int|
                0 <= i < pages.len() && (#[trigger] pages[i]).virt <= va < pages[i].virt + 4096
            &&& forall|i: int|
                0 <= i < pages.len() ==> vaddr <= (#[trigger] pages[i]).virt && pages[i].virt
                    + 4096 <= vaddr + len && pages[i].virt % 4096 == 0
            &&& forall|i: int, j: int|
                0 <= i < j < pages.len() ==> (#[trigger] pages[i]).virt + 4096 <= (
                #[trigger] pages[j]).virt
        }),
{
    let pages = memory::fresh_pages(p, vaddr, len as int / 4096);
    let i = (va - vaddr) / 4096;
    assert(pages[i].virt == vaddr + i * 4096);
}

/// The frames that the allocator hands out in a row are different from one another and
/// from every frame that somebody holds, and it hands none of them out again.
pub proof fn law_run_is_fresh(a: Pmm, b: Pmm, held: Set<u64>, n: int)
    requires
        a.wf(),
        pmm::accounts(a, held),
        0 <= n <= pmm::capacity(a),
        pmm::allocated_run(a, b, n),
    ensures
        forall|i: int, j: int|
            0 <= i < j < n ==> #[trigger] pmm::handed_out(a, i) != #[trigger] pmm::handed_out(a, j),
        forall|i: int| 0 <= i < n ==> !held.contains(#[trigger] pmm::handed_out(a, i)),
        forall|i: int|
            0 <= i < n ==> !b.free@.contains(#[trigger] pmm::handed_out(a, i))
                && pmm::handed_out(a, i) < b.next,
        forall|i: int| n <= i < pmm::capacity(a) ==> #[trigger] pmm::handed_out(b, i - n)
            == pmm::handed_out(a, i),
        pmm::capacity(b) == pmm::capacity(a) - n,
{
    let had = a.free@.len() as int;
    assert forall|i: int| 0 <= i < pmm::capacity(a) implies {
        &&& i < had ==> (#[trigger] pmm::handed_out(a, i)) == a.free@[had - 1 - i]
            && pmm::handed_out(a, i) < a.next
        &&& i >= had ==> pmm::handed_out(a, i) == a.next + (i - had) * 4096
        &&& i >= had ==> a.next + (i - had) * 4096 + 4096 <= a.end
    } by {}
    assert forall|i: int| 0 <= i < n implies !held.contains(#[trigger] pmm::handed_out(a, i)) by {
        if i < had {
            assert(!held.contains(a.free@[had - 1 - i]));
        }
    }
    assert forall|i: int| 0 <= i < n implies !b.free@.contains(#[trigger] pmm::handed_out(a, i))
        && pmm::handed_out(a, i) < b.next by {
        let f = pmm::handed_out(a, i);
        if b.free@.contains(f) {
            let k = b.free@.index_of(f);
            assert(b.free@[k] == a.free@[k]);
        }
    }
}

/// A mapping puts each of its pages on a frame of its own, held by nobody before.
pub proof fn law_map_frames_are_fresh(a: Pmm, b: Pmm, held: Set<u64>, vaddr: u64, n: int)
    requires
        a.wf(),
        pmm::accounts(a, held),
        0 <= n <= pmm::capacity(a),
        pmm::allocated_run(a, b, n),
        vaddr + n * 4096 <= u64::MAX,
    ensures
        ({
            let pages = memory::fresh_pages(a, vaddr, n);
            &&& pages.len() == n
            &&& forall|i: int, j: int|
                0 <= i < j < n ==> (#[trigger] pages[i]).phys != (#[trigger] pages[j]).phys
                    && pages[i].virt != pages[j].virt
            &&& forall|i: int|
                0 <= i < n ==> !held.contains((#[trigger] pages[i]).phys) && !b.free@.contains(
                    pages[i].phys,
                ) && pages[i].phys < b.next
        }),
{
    law_run_is_fresh(a, b, held, n);
    let pages = memory::fresh_pages(a, vaddr, n);
    assert forall|i: int| 0 <= i < n implies (#[trigger] pages[i]).phys == pmm::handed_out(a, i)
        && pages[i].virt == vaddr + i * 4096 by {}
}

/// After a shortage the allocator can hand out as many frames as before it.
pub proof fn law_shortage_costs_nothing(a: Pmm, b: Pmm)
    requires
        a.wf(),
        pmm::turned_over(a, b),
    ensures
        pmm::capacity(b) == pmm::capacity(a),
        b.free@.len() == pmm::capacity(a),
{
    let more = (a.end - a.next) / 4096;
    assert(b.next == a.next + more * 4096);
}

/// One frame after the other is a run of frames.
pub proof fn law_run_of_one(a: Pmm, b: Pmm)
    requires
        a.wf(),
        pmm::next_frame(a) is Some,
    ensures
        pmm::allocated(a, b) <==> pmm::allocated_run(a, b, 1),
        pmm::next_frame(a) == Some(pmm::handed_out(a, 0)),
        pmm::capacity(a) >= 1,
{
    assert(a.free@.len() > 0 ==> a.free@.drop_last() =~= a.free@.subrange(
        0,
        a.free@.len() - 1,
    ));
}

/// The allocator works on a usable region that no other usable region is larger than.
pub proof fn law_largest_region(map: Seq<MemRegion>, base: u64, len: u64, i: int)
    requires
        pmm::is_largest(map, base, len),
        0 <= i < map.len(),
        map[i].kind == RegionKind::Usable,
        map[i].length > 0,
    ensures
        map[i].length <= len,
        exists|j: int|
            #![trigger map[j]]
            0 <= j < map.len() && map[j].kind == RegionKind::Usable && map[j].base == base
                && map[j].length == len,
{
}

/// A region counts toward the usable bytes and regions just if it is usable.
pub proof fn law_usable_is_summed(map: Seq<MemRegion>, r: MemRegion)
    ensures
        pmm::usable_bytes(map.push(r)) == pmm::usable_bytes(map) + (if r.kind
            == RegionKind::Usable {
            r.length as nat
        } else {
            0
        }),
        pmm::usable_count(map.push(r)) == pmm::usable_count(map) + (if r.kind
            == RegionKind::Usable {
            1nat
        } else {
            0
        }),
        pmm::usable_bytes(Seq::empty()) == 0,
        pmm::usable_count(Seq::empty()) == 0,
{
    assert(map.push(r).drop_last() =~= map);
}

/// A budget can be used just by a handle to memory that may map and that was made for the
/// budget as it now is.
pub proof fn law_budget_takes_authority(t: Table, mems: Seq<MemObj>, h: Handle, i: u8)
    requires
        t.len() == 64,
    ensures
        memory::budget(t, mems, h) == Ok::<u8, SysError>(i) <==> {
            &&& 1 <= h < 64
            &&& t[h as int] is Some
            &&& t[h as int]->0.obj == ObjectRef::Memory(i)
            &&& t[h as int]->0.rights & 0x20000 == 0x20000
            &&& mems[i as int].in_use
            &&& mems[i as int].gen == t[h as int]->0.badge
        },
{
}

/// Taking from a budget takes just that from just that budget.
pub proof fn law_debit_is_exact(mems: Seq<MemObj>, i: int, bytes: int)
    requires
        0 <= i < mems.len(),
        0 <= bytes <= mems[i].remaining,
    ensures
        memory::debited(mems, i, bytes)[i].remaining + bytes == mems[i].remaining,
        memory::debited(mems, i, bytes)[i].in_use == mems[i].in_use,
        memory::debited(mems, i, bytes)[i].gen == mems[i].gen,
        memory::debited(mems, i, bytes).len() == mems.len(),
        forall|j: int|
            0 <= j < mems.len() && j != i ==> #[trigger] memory::debited(mems, i, bytes)[j]
                == mems[j],
{
}

/// Fresh memory can be readable, or readable and writable, and nothing else.
pub proof fn law_plain_protection(prot: u64)
    ensures
        memory::plain_prot(prot) <==> prot == 1 || prot == 3,
{
    assert((prot & !(1u64 | 2) == 0 && prot & 1 != 0) <==> (prot == 1 || prot == 3))
        by (bit_vector);
}

/// A mapping is granted just if a budget backs it, the range is whole pages of the user
/// half, the protection is plain, no page of it is locked or mapped, and the budget holds
/// a page for each page and for each page table that is missing; it costs just that.
pub proof fn law_map_is_granted_when_it_can_be(
    p: Process,
    mems: Seq<MemObj>,
    u: UserSpace,
    h: Handle,
    vaddr: u64,
    len: u64,
    prot: u64,
    m: u8,
)
    requires
        memory::budget(p.handles@, mems, h) == Ok::<u8, SysError>(m),
    ensures
        ({
            let n = len as int / 4096;
            let cost = 4096 * (n + vm::tables_lacking(u.ram@, u.root, vaddr, n));
            let r = memory::map_request(p, mems, u, h, vaddr, len, prot);
            &&& r is Ok <==> {
                &&& vaddr % 4096 == 0
                &&& len > 0
                &&& len % 4096 == 0
                &&& prot == 1 || prot == 3
                &&& vaddr + len <= 0x8000_0000_0000
                &&& !(exists|k: int|
                    #![trigger p.locked()[k]]
                    0 <= k < p.locked().len() && vaddr < p.locked()[k].1 && p.locked()[k].0 < vaddr
                        + len)
                &&& !(exists|k: int|
                    #![trigger vm::page_at(vaddr, k)]
                    0 <= k < n && vm::probe(u.ram@, u.root, vm::page_at(vaddr, k))
                        == Probe::Mapped)
                &&& cost <= mems[m as int].remaining
            }
            &&& r is Ok ==> r == Ok::<(u8, int), SysError>((m, cost))
        }),
{
    law_plain_protection(prot);
    let n = len as int / 4096;
    let r = memory::map_request(p, mems, u, h, vaddr, len, prot);
    if vaddr + len <= 0x8000_0000_0000 {
        let end = (vaddr + len) as u64;
        if proc::is_locked(p.locked(), vaddr, end) {
            let k = choose|k: int|
                0 <= k < p.locked().len() && proc::overlaps(#[trigger] p.locked()[k], vaddr, end);
            assert(vaddr < p.locked()[k].1 && p.locked()[k].0 < vaddr + len);
        } else {
            assert forall|k: int| 0 <= k < p.locked().len() implies !(vaddr < (
            #[trigger] p.locked()[k]).1 && p.locked()[k].0 < vaddr + len) by {
                assert(!proc::overlaps(p.locked()[k], vaddr, end));
            }
        }
    }
    if vm::occupied(u.ram@, u.root, vaddr, n) {
        let k = choose|k: int|
            0 <= k < n && #[trigger] vm::probe(u.ram@, u.root, vm::page_at(vaddr, k))
                == Probe::Mapped;
        assert(vm::probe(u.ram@, u.root, vm::page_at(vaddr, k)) == Probe::Mapped);
    }
}

/// Protection can be changed just of page-aligned ranges of the user half that touch no
/// locked page, and just to readable protection that is not both writable and executable;
/// the pages are those that hold the range.
pub proof fn law_protect_is_granted_when_it_can_be(
    p: Process,
    mems: Seq<MemObj>,
    h: Handle,
    vaddr: u64,
    len: u64,
    prot: u64,
)
    requires
        memory::budget(p.handles@, mems, h) is Ok,
        vaddr + len + 4095 <= u64::MAX,
    ensures
        ({
            let r = memory::protect_request(p, mems, h, vaddr, len, prot);
            let n = (len + 4095) / 4096;
            &&& r is Ok <==> {
                &&& vaddr % 4096 == 0
                &&& vaddr < 0x8000_0000_0000
                &&& prot & 1 != 0
                &&& prot & 2 == 0 || prot & 4 == 0
                &&& !(exists|k: int|
                    #![trigger p.locked()[k]]
                    0 <= k < p.locked().len() && vaddr < p.locked()[k].1 && p.locked()[k].0 < vaddr
                        + n * 4096)
            }
            &&& r is Ok ==> r->Ok_0 == n
            &&& r is Ok ==> len <= r->Ok_0 * 4096 < len + 4096
        }),
{
    let n = (len + 4095) / 4096;
    let end = (vaddr + n * 4096) as u64;
    assert(vm::rounded_up(len as int, 4096) / 4096 == n);
    assert(end == vaddr + n * 4096);
    if proc::is_locked(p.locked(), vaddr, end) {
        let k = choose|k: int|
            0 <= k < p.locked().len() && proc::overlaps(#[trigger] p.locked()[k], vaddr, end);
        assert(vaddr < p.locked()[k].1 && p.locked()[k].0 < vaddr + n * 4096);
    } else {
        assert forall|k: int| 0 <= k < p.locked().len() implies !(vaddr < (
        #[trigger] p.locked()[k]).1 && p.locked()[k].0 < vaddr + n * 4096) by {
            assert(!proc::overlaps(p.locked()[k], vaddr, end));
        }
    }
}

/// A user page is present and open to user code; it is writable just if asked for, and
/// code runs from it just if it may and the page is not writable.
pub proof fn law_user_page_bits(writable: bool, executable: bool)
    ensures
        ({
            let b = vm::user_bits(writable, executable);
            &&& b & 1 == 1
            &&& b & 4 == 4
            &&& b & 2 != 0 <==> writable
            &&& b & 0x8000_0000_0000_0000 == 0 <==> executable && !writable
            &&& b & 0x80 == 0
            &&& vm::w_xor_x(b)
        }),
{
    assert(forall|b: u64|
        #![trigger b & 1]
        (b == 1u64 | 4 | 2 | 0x8000_0000_0000_0000 ==> b & 1 == 1 && b & 4 == 4 && b & 2 != 0 && b
            & 0x8000_0000_0000_0000 != 0 && b & 0x80 == 0) && (b == 1u64 | 4 ==> b & 1 == 1 && b
            & 4 == 4 && b & 2 == 0 && b & 0x8000_0000_0000_0000 == 0 && b & 0x80 == 0) && (b == 1u64
            | 4 | 0x8000_0000_0000_0000 ==> b & 1 == 1 && b & 4 == 4 && b & 2 == 0 && b
            & 0x8000_0000_0000_0000 != 0 && b & 0x80 == 0)) by (bit_vector);
}

/// A frame can be mapped just by a live handle that may map it, at a free page of the user
/// half, and writable just by a handle that may write.
pub proof fn law_frame_map_takes_authority(
    t: Table,
    frames: Seq<FrameObj>,
    u: UserSpace,
    h: Handle,
    vaddr: u64,
    prot: u64,
    f: u8,
)
    requires
        t.len() == 64,
    ensures
        memory::frame_request(t, frames, u, h, vaddr, prot) == Ok::<u8, SysError>(f) <==> {
            let e = t[h as int]->0;
            &&& 1 <= h < 64
            &&& t[h as int] is Some
            &&& e.obj == ObjectRef::Frame(f)
            &&& e.rights & 0x20000 == 0x20000
            &&& prot == 1 || prot == 3
            &&& prot & 2 != 0 ==> e.rights & 0x10000 != 0
            &&& vaddr % 4096 == 0
            &&& vaddr < 0x8000_0000_0000
            &&& vm::probe(u.ram@, u.root, vaddr) != Probe::Mapped
            &&& frames[f as int].in_use
            &&& frames[f as int].gen == e.badge
        },
{
    law_plain_protection(prot);
    assert(vm::page_at(vaddr, 0) == vaddr);
    if vm::probe(u.ram@, u.root, vaddr) == Probe::Mapped {
        assert(vm::probe(u.ram@, u.root, vm::page_at(vaddr, 0)) == Probe::Mapped);
        assert(vm::occupied(u.ram@, u.root, vaddr, 1));
    }
}

/// A shared region can be mapped just by a handle that may map it, and is mapped writable
/// just if that handle may write.
pub proof fn law_shm_map_takes_authority(
    t: Table,
    regions: Seq<Region>,
    u: UserSpace,
    h: Handle,
    vaddr: u64,
    i: u8,
    writable: bool,
)
    requires
        t.len() == 64,
    ensures
        memory::shm_request(t, regions, u, h, vaddr) == Ok::<(u8, bool), SysError>((i, writable))
            <==> {
            let e = t[h as int]->0;
            &&& 1 <= h < 64
            &&& t[h as int] is Some
            &&& e.obj == ObjectRef::Shm(i)
            &&& e.rights & 0x20000 == 0x20000
            &&& writable == (e.rights & 0x10000 != 0)
            &&& vaddr % 4096 == 0
            &&& vaddr < 0x8000_0000_0000
            &&& regions[i as int].in_use
            &&& forall|k: int|
                0 <= k < regions[i as int].frames@.len() ==> #[trigger] vm::probe(
                    u.ram@,
                    u.root,
                    vm::page_at(vaddr, k),
                ) != Probe::Mapped
        },
{
}

/// Page `p` of a range is that many pages on.
pub proof fn law_pages_follow(vaddr: u64, p: int)
    requires
        0 <= p,
        vaddr + p * 4096 <= u64::MAX,
    ensures
        vm::page_at(vaddr, p) == vaddr + p * 4096,
{
}

/// An address is told by its four table indices and its place in the page, and by nothing
/// else.
pub proof fn law_indices_tell_address(va: u64)
    requires
        va < 0x1_0000_0000_0000,
    ensures
        vm::index4(va) < 512,
        vm::index3(va) < 512,
        vm::index2(va) < 512,
        vm::index1(va) < 512,
        va == (vm::index4(va) << 39) | (vm::index3(va) << 30) | (vm::index2(va) << 21) | (
        vm::index1(va) << 12) | (va & 0xfff),
{
    assert((va >> 39) & 0x1ff < 512 && (va >> 30) & 0x1ff < 512 && (va >> 21) & 0x1ff < 512 && (va
        >> 12) & 0x1ff < 512 && (va < 0x1_0000_0000_0000 ==> va == (((va >> 39) & 0x1ff) << 39) | ((
    (va >> 30) & 0x1ff) << 30) | (((va >> 21) & 0x1ff) << 21) | (((va >> 12) & 0x1ff) << 12) | (va
        & 0xfff))) by (bit_vector);
}

/// A small page is there just if every entry on the way to it is present and none above
/// the last maps a large page; a small page counts as mapped.
pub proof fn law_small_page_is_mapped(ram: Seq<u64>, root: u64, va: u64)
    ensures
        vm::small_page(ram, root, va) ==> vm::probe(ram, root, va) == Probe::Mapped,
        vm::small_page(ram, root, va) <==> {
            let e4 = ram[root / 8 + vm::index4(va)];
            let e3 = ram[(e4 & 0x000f_ffff_ffff_f000) / 8 + vm::index3(va)];
            let e2 = ram[(e3 & 0x000f_ffff_ffff_f000) / 8 + vm::index2(va)];
            let e1 = ram[(e2 & 0x000f_ffff_ffff_f000) / 8 + vm::index1(va)];
            &&& e4 & 1 != 0
            &&& e3 & 1 != 0
            &&& e3 & 0x80 == 0
            &&& e2 & 1 != 0
            &&& e2 & 0x80 == 0
            &&& e1 & 1 != 0
        },
{
}

/// What is mapped up to the first gap: every page before it is a small page, and the page
/// at it, if the range goes on, is not.
pub proof fn law_mapped_to_first_gap(ram: Seq<u64>, root: u64, vaddr: u64, n: int, i: int)
    requires
        0 <= i <= n,
    ensures
        ({
            let r = vm::mapped_upto(ram, root, vaddr, n, i);
            &&& i <= r <= n
            &&& forall|k: int|
                i <= k < r ==> vm::small_page(ram, root, #[trigger] vm::page_at(vaddr, k))
            &&& r < n ==> !vm::small_page(ram, root, vm::page_at(vaddr, r))
        }),
    decreases n - i,
{
    if i < n && vm::small_page(ram, root, vm::page_at(vaddr, i)) {
        law_mapped_to_first_gap(ram, root, vaddr, n, i + 1);
    }
}

/// A range in which every table is there lacks none, so that a mapping there costs its
/// pages alone.
pub proof fn law_no_table_lacks(ram: Seq<u64>, root: u64, vaddr: u64, n: int)
    requires
        0 <= n,
        forall|k: int|
            0 <= k < n ==> {
                let w = vm::probe(ram, root, #[trigger] vm::page_at(vaddr, k));
                w == Probe::Vacant || w == Probe::Mapped
            },
    ensures
        vm::tables_lacking(ram, root, vaddr, n) == 0,
        vm::lacking3(ram, root, vaddr, n) == Set::<u64>::empty(),
        vm::lacking2(ram, root, vaddr, n) == Set::<u64>::empty(),
        vm::lacking1(ram, root, vaddr, n) == Set::<u64>::empty(),
    decreases n,
{
    if n > 0 {
        law_no_table_lacks(ram, root, vaddr, n - 1);
        assert(vm::probe(ram, root, vm::page_at(vaddr, n - 1)) != Probe::NoTable3);
    }
}

/// A section of the kernel is mapped whole, each address onto the physical address it was
/// loaded at.
pub proof fn law_section_is_mapped(
    pages: Seq<PageMap>,
    vstart: u64,
    vend: u64,
    kphys: u64,
    kvirt: u64,
    va: int,
)
    requires
        vm::section_fits(vstart, vend, kphys, kvirt),
        vm::is_section(pages, vstart, vend, kphys, kvirt),
        vstart <= va < vend,
    ensures
        exists|i: int|
            #![trigger pages[i]]
            {
                &&& 0 <= i < pages.len()
                &&& pages[i].virt <= va < pages[i].virt + 4096
                &&& pages[i].phys + (va - pages[i].virt) == va - kvirt + kphys
            },
{
    let i = (va - vm::rounded_down(vstart as int, 4096)) / 4096;
    assert(pages[i].virt == vm::rounded_down(vstart as int, 4096) + i * 4096);
}

/// Rounding gives the nearest multiple on its side.
pub proof fn law_rounding(x: int)
    requires
        0 <= x,
    ensures
        vm::rounded_up(x, 4096) % 4096 == 0,
        x <= vm::rounded_up(x, 4096) < x + 4096,
        vm::rounded_down(x, 4096) % 4096 == 0,
        x - 4096 < vm::rounded_down(x, 4096) <= x,
{
}

/// The slot for a new budget or frame is the lowest that is not in use.
pub proof fn law_lowest_free_pool_slot(v: Seq<MemObj>, w: Seq<FrameObj>, i: int)
    requires
        0 <= i,
        i <= v.len(),
        i <= w.len(),
    ensures
        i <= mem::free_mem_from(v, i) <= v.len(),
        mem::free_mem_from(v, i) < v.len() ==> !v[mem::free_mem_from(v, i)].in_use,
        forall|k: int| i <= k < mem::free_mem_from(v, i) ==> (#[trigger] v[k]).in_use,
        i <= mem::free_frame_slot_from(w, i) <= w.len(),
        mem::free_frame_slot_from(w, i) < w.len() ==> !w[mem::free_frame_slot_from(w, i)].in_use,
        forall|k: int| i <= k < mem::free_frame_slot_from(w, i) ==> (#[trigger] w[k]).in_use,
    decreases v.len() - i + w.len() - i,
{
    if i < v.len() && i < w.len() {
        law_lowest_free_pool_slot(v, w, i + 1);
    } else if i < v.len() {
        lemma_lowest_free_budget(v, i);
    } else if i < w.len() {
        lemma_lowest_free_frame(w, i);
    }
}

proof fn lemma_lowest_free_budget(v: Seq<MemObj>, i: int)
    requires
        0 <= i <= v.len(),
    ensures
        i <= mem::free_mem_from(v, i) <= v.len(),
        mem::free_mem_from(v, i) < v.len() ==> !v[mem::free_mem_from(v, i)].in_use,
        forall|k: int| i <= k < mem::free_mem_from(v, i) ==> (#[trigger] v[k]).in_use,
    decreases v.len() - i,
{
    if i < v.len() {
        lemma_lowest_free_budget(v, i + 1);
    }
}

proof fn lemma_lowest_free_frame(w: Seq<FrameObj>, i: int)
    requires
        0 <= i <= w.len(),
    ensures
        i <= mem::free_frame_slot_from(w, i) <= w.len(),
        mem::free_frame_slot_from(w, i) < w.len() ==> !w[mem::free_frame_slot_from(w, i)].in_use,
        forall|k: int| i <= k < mem::free_frame_slot_from(w, i) ==> (#[trigger] w[k]).in_use,
    decreases w.len() - i,
{
    if i < w.len() {
        lemma_lowest_free_frame(w, i + 1);
    }
}

/// The frame object of an address is the lowest in use with it.
proof fn lemma_frame_from(v: Seq<FrameObj>, phys: u64, i: int)
    requires
        0 <= i <= v.len(),
    ensures
        i <= mem::frame_from(v, phys, i) <= v.len(),
        mem::frame_from(v, phys, i) < v.len() ==> v[mem::frame_from(v, phys, i)].in_use
            && v[mem::frame_from(v, phys, i)].phys == phys,
        forall|k: int|
            i <= k < mem::frame_from(v, phys, i) ==> !((#[trigger] v[k]).in_use && v[k].phys
                == phys),
    decreases v.len() - i,
{
    if i < v.len() {
        lemma_frame_from(v, phys, i + 1);
    }
}

/// A mapping of a shared frame is counted, once, on its object; dropping it counts back,
/// and the last drop frees the object and makes its handles stale.
pub proof fn law_mappings_are_counted(v: Seq<FrameObj>, phys: u64)
    requires
        forall|k: int|
            0 <= k < v.len() && (#[trigger] v[k]).in_use && v[k].phys == phys ==> v[k].maps
                < u32::MAX,
    ensures
        mem::shared(v, phys) <==> exists|k: int|
            0 <= k < v.len() && (#[trigger] v[k]).in_use && v[k].phys == phys,
        !mem::shared(v, phys) ==> mem::mapping_added(v, phys) == v && mem::mapping_dropped(v, phys)
            == v && !mem::drop_frees(v, phys),
        mem::shared(v, phys) ==> exists|i: int|
            #![trigger v[i]]
            {
                let e = v[i];
                let up = mem::mapping_added(v, phys);
                let down = mem::mapping_dropped(v, phys);
                &&& 0 <= i < v.len()
                &&& e.in_use && e.phys == phys
                &&& up[i].maps == e.maps + 1
                &&& up[i].in_use && up[i].phys == phys && up[i].gen == e.gen
                &&& up == v.update(i, up[i])
                &&& down == v.update(i, down[i])
                &&& e.maps > 1 ==> down[i].maps == e.maps - 1 && down[i].in_use && down[i].phys
                    == phys && down[i].gen == e.gen && !mem::drop_frees(v, phys)
                &&& e.maps <= 1 ==> !down[i].in_use && down[i].gen != e.gen && mem::drop_frees(
                    v,
                    phys,
                )
            },
{
    lemma_frame_from(v, phys, 0);
    let i = mem::frame_from(v, phys, 0);
    if i < v.len() {
        assert(v[i].in_use);
        assert(mem::mapping_added(v, phys) =~= v.update(i, mem::mapping_added(v, phys)[i]));
        assert(mem::mapping_dropped(v, phys) =~= v.update(i, mem::mapping_dropped(v, phys)[i]));
    }
}

/// A buffer is within reach just if every byte of it lies in a user page, one that can be
/// written where writing is asked for.
pub proof fn law_every_byte_is_in_reach(
    ram: Seq<u64>,
    root: u64,
    ptr: u64,
    len: int,
    write: bool,
    at: int,
)
    requires
        usermem::user_range(ram, root, ptr, len, write),
        ptr <= at < ptr + len,
    ensures
        at < 0x8000_0000_0000,
        usermem::user_page(ram, root, (at - at % 4096) as u64, write),
{
    let page = (at - at % 4096) as u64;
    assert(usermem::page_meets(page, ptr as int, ptr + len));
}

/// A user page takes an entry at every level that is present and open to user code, and to
/// writing where that is asked for.
pub proof fn law_user_page_is_open(ram: Seq<u64>, root: u64, va: u64, write: bool)
    requires
        usermem::user_page(ram, root, va, write),
    ensures
        ({
            let e4 = ram[root / 8 + vm::index4(va)];
            let e3 = ram[(e4 & 0x000f_ffff_ffff_f000) / 8 + vm::index3(va)];
            let e2 = ram[(e3 & 0x000f_ffff_ffff_f000) / 8 + vm::index2(va)];
            let e1 = ram[(e2 & 0x000f_ffff_ffff_f000) / 8 + vm::index1(va)];
            &&& e4 & 1 != 0 && e4 & 4 != 0 && (write ==> e4 & 2 != 0)
            &&& e3 & 1 != 0 && e3 & 4 != 0 && (write ==> e3 & 2 != 0)
            &&& e3 & 0x80 == 0 ==> e2 & 1 != 0 && e2 & 4 != 0 && (write ==> e2 & 2 != 0)
            &&& e3 & 0x80 == 0 && e2 & 0x80 == 0 ==> e1 & 1 != 0 && e1 & 4 != 0 && (write ==> e1
                & 2 != 0)
        }),
        vm::probe(ram, root, va) == Probe::Mapped,
{
}

/// What a tear-down lists stays listed as it goes on.
proof fn lemma_release1(ram: Seq<u64>, t: u64, n: int, i: int)
    requires
        0 <= i < n <= 512,
        vm::present(vm::entry_at(ram, t, i as u64)),
    ensures
        vm::released1(ram, t, n).contains(
            Release::Page(vm::table_of(vm::entry_at(ram, t, i as u64))),
        ),
    decreases n,
{
    let it = Release::Page(vm::table_of(vm::entry_at(ram, t, i as u64)));
    let s = vm::released1(ram, t, n);
    if i == n - 1 {
        assert(s.last() == it);
        assert(s[s.len() - 1] == it);
    } else {
        lemma_release1(ram, t, n - 1, i);
        let rest = vm::released1(ram, t, n - 1);
        let k = rest.index_of(it);
        assert(s[k] == it);
    }
}

proof fn lemma_release2(ram: Seq<u64>, t: u64, n: int, i: int, it: Release)
    requires
        0 <= i < n <= 512,
        vm::present(vm::entry_at(ram, t, i as u64)),
        !vm::huge(vm::entry_at(ram, t, i as u64)),
        it == Release::Table(vm::table_of(vm::entry_at(ram, t, i as u64))) || vm::released1(
            ram,
            vm::table_of(vm::entry_at(ram, t, i as u64)),
            512,
        ).contains(it),
    ensures
        vm::released2(ram, t, n).contains(it),
    decreases n,
{
    let s = vm::released2(ram, t, n);
    let e = vm::entry_at(ram, t, (n - 1) as u64);
    let rest = vm::released2(ram, t, n - 1);
    if i == n - 1 {
        let below = vm::released1(ram, vm::table_of(e), 512);
        if below.contains(it) {
            let k = below.index_of(it);
            assert(s[rest.len() + k] == it);
        } else {
            assert(s[s.len() - 1] == it);
        }
    } else {
        lemma_release2(ram, t, n - 1, i, it);
        let k = rest.index_of(it);
        assert(s[k] == it);
    }
}

proof fn lemma_release3(ram: Seq<u64>, t: u64, n: int, i: int, it: Release)
    requires
        0 <= i < n <= 512,
        vm::present(vm::entry_at(ram, t, i as u64)),
        !vm::huge(vm::entry_at(ram, t, i as u64)),
        it == Release::Table(vm::table_of(vm::entry_at(ram, t, i as u64))) || vm::released2(
            ram,
            vm::table_of(vm::entry_at(ram, t, i as u64)),
            512,
        ).contains(it),
    ensures
        vm::released3(ram, t, n).contains(it),
    decreases n,
{
    let s = vm::released3(ram, t, n);
    let e = vm::entry_at(ram, t, (n - 1) as u64);
    let rest = vm::released3(ram, t, n - 1);
    if i == n - 1 {
        let below = vm::released2(ram, vm::table_of(e), 512);
        if below.contains(it) {
            let k = below.index_of(it);
            assert(s[rest.len() + k] == it);
        } else {
            assert(s[s.len() - 1] == it);
        }
    } else {
        lemma_release3(ram, t, n - 1, i, it);
        let k = rest.index_of(it);
        assert(s[k] == it);
    }
}

proof fn lemma_release4(ram: Seq<u64>, t: u64, n: int, i: int, it: Release)
    requires
        0 <= i < n <= 256,
        vm::present(vm::entry_at(ram, t, i as u64)),
        it == Release::Table(vm::table_of(vm::entry_at(ram, t, i as u64))) || vm::released3(
            ram,
            vm::table_of(vm::entry_at(ram, t, i as u64)),
            512,
        ).contains(it),
    ensures
        vm::released4(ram, t, n).contains(it),
    decreases n,
{
    let s = vm::released4(ram, t, n);
    let e = vm::entry_at(ram, t, (n - 1) as u64);
    let rest = vm::released4(ram, t, n - 1);
    if i == n - 1 {
        let below = vm::released3(ram, vm::table_of(e), 512);
        if below.contains(it) {
            let k = below.index_of(it);
            assert(s[rest.len() + k] == it);
        } else {
            assert(s[s.len() - 1] == it);
        }
    } else {
        lemma_release4(ram, t, n - 1, i, it);
        let k = rest.index_of(it);
        assert(s[k] == it);
    }
}

/// Tearing an address space down gives up every small page that user code could reach, the
/// three tables on the way to it and, last, the root.
pub proof fn law_teardown_gives_up_every_page(ram: Seq<u64>, root: u64, va: u64)
    requires
        va < 0x8000_0000_0000,
        vm::small_page(ram, root, va),
    ensures
        ({
            let e4 = vm::entry_at(ram, root, vm::index4(va));
            let e3 = vm::entry_at(ram, vm::table_of(e4), vm::index3(va));
            let e2 = vm::entry_at(ram, vm::table_of(e3), vm::index2(va));
            let e1 = vm::entry_at(ram, vm::table_of(e2), vm::index1(va));
            let all = vm::teardown(ram, root);
            &&& all.contains(Release::Page(e1 & 0x000f_ffff_ffff_f000))
            &&& all.contains(Release::Table(e2 & 0x000f_ffff_ffff_f000))
            &&& all.contains(Release::Table(e3 & 0x000f_ffff_ffff_f000))
            &&& all.contains(Release::Table(e4 & 0x000f_ffff_ffff_f000))
            &&& all.last() == Release::Table(root)
        }),
{
    assert((va >> 39) & 0x1ff < 512 && (va >> 30) & 0x1ff < 512 && (va >> 21) & 0x1ff < 512 && (va
        >> 12) & 0x1ff < 512 && (va < 0x8000_0000_0000 ==> (va >> 39) & 0x1ff < 256))
        by (bit_vector);
    let i4 = vm::index4(va) as int;
    let i3 = vm::index3(va) as int;
    let i2 = vm::index2(va) as int;
    let i1 = vm::index1(va) as int;
    let e4 = vm::entry_at(ram, root, vm::index4(va));
    let e3 = vm::entry_at(ram, vm::table_of(e4), vm::index3(va));
    let e2 = vm::entry_at(ram, vm::table_of(e3), vm::index2(va));
    let e1 = vm::entry_at(ram, vm::table_of(e2), vm::index1(va));
    let page = Release::Page(vm::table_of(e1));
    let t2 = Release::Table(vm::table_of(e2));
    let t3 = Release::Table(vm::table_of(e3));
    let t4 = Release::Table(vm::table_of(e4));
    lemma_release1(ram, vm::table_of(e2), 512, i1);
    lemma_release2(ram, vm::table_of(e3), 512, i2, page);
    lemma_release2(ram, vm::table_of(e3), 512, i2, t2);
    lemma_release3(ram, vm::table_of(e4), 512, i3, page);
    lemma_release3(ram, vm::table_of(e4), 512, i3, t2);
    lemma_release3(ram, vm::table_of(e4), 512, i3, t3);
    lemma_release4(ram, root, 256, i4, page);
    lemma_release4(ram, root, 256, i4, t2);
    lemma_release4(ram, root, 256, i4, t3);
    lemma_release4(ram, root, 256, i4, t4);
    let s = vm::released4(ram, root, 256);
    let all = vm::teardown(ram, root);
    assert(all[s.index_of(page)] == page);
    assert(all[s.index_of(t2)] == t2);
    assert(all[s.index_of(t3)] == t3);
    assert(all[s.index_of(t4)] == t4);
}

/// A page given up goes back to the allocator, but for one that is shared and still mapped
/// elsewhere; a table always goes back.
pub proof fn law_given_up_comes_back(h: vm::Holdings, a: u64)
    ensures
        vm::give_up(h, Release::Table(a)).free == h.free.push(a),
        vm::give_up(h, Release::Table(a)).frames == h.frames,
        !mem::shared(h.frames, a) ==> vm::give_up(h, Release::Page(a)).free == h.free.push(a)
            && vm::give_up(h, Release::Page(a)).frames == h.frames,
        mem::shared(h.frames, a) && mem::drop_frees(h.frames, a) ==> vm::give_up(
            h,
            Release::Page(a),
        ).free == h.free.push(a),
        mem::shared(h.frames, a) && !mem::drop_frees(h.frames, a) ==> vm::give_up(
            h,
            Release::Page(a),
        ).free == h.free,
        mem::shared(h.frames, a) ==> vm::give_up(h, Release::Page(a)).frames
            == mem::mapping_dropped(h.frames, a),
{
}

/// A region is given back when its last handle goes, frames to the allocator and price to
/// the budget that paid; before that only a handle is counted off.
pub proof fn law_region_outlives_all_but_the_last_handle(w: shm::ShmWorld, i: int)
    requires
        0 <= i < w.regions.len(),
        w.regions[i].in_use,
        w.regions[i].mem_idx < w.mems.len(),
        shm::refund_fits(w, i),
    ensures
        ({
            let r = w.regions[i];
            let v = shm::unreferenced(w, i);
            let m = r.mem_idx as int;
            &&& forall|j: int|
                0 <= j < w.regions.len() && j != i ==> #[trigger] v.regions[j] == w.regions[j]
            &&& r.rc > 1 ==> {
                &&& v.regions[i].in_use
                &&& v.regions[i].rc == r.rc - 1
                &&& v.regions[i].frames == r.frames
                &&& v.regions[i].mem_idx == r.mem_idx
                &&& v.free == w.free
                &&& v.mems == w.mems
            }
            &&& r.rc <= 1 ==> {
                &&& !v.regions[i].in_use
                &&& v.regions[i].frames.len() == 0
                &&& v.free == w.free + r.frames
                &&& v.mems[m].remaining == w.mems[m].remaining + r.frames.len() * 4096
                &&& v.mems[m].in_use == w.mems[m].in_use
                &&& v.mems[m].gen == w.mems[m].gen
                &&& forall|j: int|
                    0 <= j < w.mems.len() && j != m ==> #[trigger] v.mems[j] == w.mems[j]
            }
        }),
{
}

/// A new handle to a region is counted, and nothing else of the region changes.
pub proof fn law_new_handle_is_counted(r: Region)
    requires
        r.in_use,
        r.rc < u32::MAX,
    ensures
        shm::referenced(r).rc == r.rc + 1,
        shm::referenced(r).in_use,
        shm::referenced(r).frames == r.frames,
        shm::referenced(r).mem_idx == r.mem_idx,
        !shm::last_reference(shm::referenced(r)) <==> r.rc > 0,
{
}

} // verus!
