//! Calls that map memory and make memory objects.
use vstd::prelude::*;
use crate::abi;
use crate::abi::{
    Handle, SysError, PROT_EXEC, PROT_READ, PROT_WRITE, R_ATTENUATE, R_GRANT, R_MAP, R_WRITE,
};
use crate::kernel;
use crate::kernel::Kernel;
use crate::mm::mem;
use crate::mm::mem::{FrameObj, MemObj, Mems};
use crate::mm::pmm;
use crate::mm::vm;
use crate::mm::vm::{PageMap, Protection, LOWER_HALF_END};
use crate::object;
use crate::object::{HandleEntry, ObjType, ObjectRef};
use crate::proc;
use crate::proc::{Process, Table};
use crate::rng;
use crate::shm;
use crate::shm::Region;
use crate::syscall;
use crate::syscall::{SyscallRet, UserSpace};

verus! {

/// Random bytes per call at most.
pub const ENTROPY_MAX: u64 = 256;

/// The budget behind handle `h`, which must be allowed to map. A handle that outlived
/// its budget is refused.
pub open spec fn budget(t: Table, mems: Seq<MemObj>, h: Handle) -> Result<u8, SysError> {
    match proc::entry_with(t, h, ObjType::Memory, R_MAP) {
        Err(e) => Err(e),
        Ok(e) => {
            let m = mems[e.obj->Memory_0 as int];
            if m.in_use && m.gen == e.badge {
                Ok(e.obj->Memory_0)
            } else {
                Err(SysError::Gone)
            }
        },
    }
}

/// Look up a budget.
pub fn budget_of(p: &Process, mems: &Mems, h: Handle) -> (r: Result<u8, SysError>)
    requires
        p.wf(),
        mems.wf(),
    ensures
        r == budget(p.handles@, mems.v@, h),
        r is Ok ==> r->Ok_0 < mem::MEM_POOL,
{
    match p.lookup(h, ObjType::Memory, R_MAP) {
        Err(e) => Err(e),
        Ok(e) => match e.obj {
            ObjectRef::Memory(i) => {
                assert(object::names_object(e.obj));
                if e.badge <= 0xffff_ffff && mem::mem_gen_ok(mems, i, e.badge as u32) {
                    Ok(i)
                } else {
                    Err(SysError::Gone)
                }
            },
            _ => Err(SysError::BadType),
        },
    }
}

/// The budgets after `bytes` were taken from budget `i`.
pub open spec fn debited(mems: Seq<MemObj>, i: int, bytes: int) -> Seq<MemObj> {
    mems.update(i, MemObj { remaining: (mems[i].remaining - bytes) as u64, ..mems[i] })
}

/// Protection bits that anonymous memory can have: readable, and perhaps writable.
pub open spec fn plain_prot(prot: u64) -> bool {
    prot & !(PROT_READ | PROT_WRITE) == 0 && prot & PROT_READ != 0
}

/// What a mapping of `len` bytes of fresh memory at `vaddr` asks for, once checked: the
/// budget, and what it costs, pages and page tables. A range that touches a locked page is
/// refused, mapped or not.
pub open spec fn map_request(
    p: Process,
    mems: Seq<MemObj>,
    u: UserSpace,
    h: Handle,
    vaddr: u64,
    len: u64,
    prot: u64,
) -> Result<(u8, int), SysError> {
    match budget(p.handles@, mems, h) {
        Err(e) => Err(e),
        Ok(m) => {
            let left = mems[m as int].remaining;
            let pages = len as int / 4096;
            let cost = (pages + vm::tables_lacking(u.ram@, u.root, vaddr, pages)) * 4096;
            if vaddr % 4096 != 0 || len == 0 || len % 4096 != 0 || !plain_prot(prot) {
                Err(SysError::Msg)
            } else if len > left {
                Err(SysError::NoMem)
            } else if vaddr + len > LOWER_HALF_END {
                Err(SysError::Fault)
            } else if proc::is_locked(p.locked(), vaddr, (vaddr + len) as u64) {
                Err(SysError::Rights)
            } else if vm::occupied(u.ram@, u.root, vaddr, pages) {
                Err(SysError::Fault)
            } else if cost > left {
                Err(SysError::NoMem)
            } else {
                Ok((m, cost))
            }
        },
    }
}

/// Pages to map, each at its address onto its frame.
pub struct MapPlan {
    pub pages: Vec<PageMap>,
    pub writable: bool,
}

/// The pages of a run from `vaddr` onto the frames the allocator hands out next.
pub open spec fn fresh_pages(p: pmm::Pmm, vaddr: u64, n: int) -> Seq<PageMap> {
    Seq::new(
        n as nat,
        |i: int| PageMap { virt: (vaddr + i * 4096) as u64, phys: pmm::handed_out(p, i) },
    )
}

/// Map fresh zeroed memory into the caller's address space, paid from a budget. Nothing
/// happens unless all of it can.
pub fn sys_map(
    k: &mut Kernel,
    cpu: usize,
    u: &UserSpace,
    mem_h: u64,
    vaddr: u64,
    len: u64,
    prot: u64,
) -> (r: (SyscallRet, MapPlan))
    requires
        old(k).wf(),
        old(k).in_process(cpu),
        u.ok(),
        map_request(
            old(k).procs.v@[old(k).caller(cpu)],
            old(k).mems.v@,
            *u,
            mem_h as Handle,
            vaddr,
            len,
            prot,
        ) is Ok ==> len / 4096 <= pmm::capacity(old(k).pmm),
    ensures
        final(k).wf(),
        match map_request(
            old(k).procs.v@[old(k).caller(cpu)],
            old(k).mems.v@,
            *u,
            mem_h as Handle,
            vaddr,
            len,
            prot,
        ) {
            Err(e) => {
                &&& r.0 == syscall::failed(e)
                &&& r.1.pages@.len() == 0
                &&& *final(k) == *old(k)
            },
            Ok((m, cost)) => {
                &&& r.0 == syscall::succeeded(0)
                &&& r.1.pages@ == fresh_pages(old(k).pmm, vaddr, len as int / 4096)
                &&& r.1.writable == (prot & PROT_WRITE != 0)
                &&& *final(k) == (Kernel { mems: final(k).mems, pmm: final(k).pmm, ..*old(k) })
                &&& final(k).mems.v@ == debited(old(k).mems.v@, m as int, cost)
                &&& pmm::allocated_run(old(k).pmm, final(k).pmm, len as int / 4096)
            },
        },
{
    let me: usize = syscall::caller(k, cpu);
    assert(k.procs.v@[me as int].wf());
    let none = MapPlan { pages: Vec::new(), writable: false };
    let m: u8 = match budget_of(&k.procs.v[me], &k.mems, mem_h as Handle) {
        Ok(m) => m,
        Err(e) => {
            return (SyscallRet::err(e), none);
        },
    };
    if vaddr % 4096 != 0 || len == 0 || len % 4096 != 0 {
        return (SyscallRet::err(SysError::Msg), none);
    }
    if prot & !(PROT_READ | PROT_WRITE) != 0 || prot & PROT_READ == 0 {
        return (SyscallRet::err(SysError::Msg), none);
    }
    let pages: u64 = len / 4096;
    let left: u64 = mem::remaining(&k.mems, m);
    if len > left {
        return (SyscallRet::err(SysError::NoMem), none);
    }
    if vaddr > LOWER_HALF_END || len > LOWER_HALF_END - vaddr {
        return (SyscallRet::err(SysError::Fault), none);
    }
    if k.procs.v[me].is_immutable(vaddr, vaddr + len) {
        return (SyscallRet::err(SysError::Rights), none);
    }
    let missing: u64 = match vm::probe_user_range(u.ram, u.root, vaddr, pages) {
        Ok(n) => n,
        Err(_) => {
            return (SyscallRet::err(SysError::Fault), none);
        },
    };
    if missing > left / 4096 {
        assert((pages + missing) * 4096 > left);
        return (SyscallRet::err(SysError::NoMem), none);
    }
    let cost: u64 = match (pages + missing).checked_mul(4096) {
        Some(c) => c,
        None => {
            return (SyscallRet::err(SysError::NoMem), none);
        },
    };
    if !mem::debit(&mut k.mems, m, cost) {
        return (SyscallRet::err(SysError::NoMem), none);
    }
    let ghost p0 = k.pmm;
    let mut plan: Vec<PageMap> = Vec::new();
    match pmm::alloc_many(&mut k.pmm, pages) {
        Some(frames) => {
            let mut i: usize = 0;
            while i < frames.len()
                invariant
                    i <= frames@.len(),
                    frames@.len() == pages,
                    frames@ == Seq::new(pages as nat, |j: int| pmm::handed_out(p0, j)),
                    vaddr + pages * 4096 <= LOWER_HALF_END,
                    plan@ =~= fresh_pages(p0, vaddr, i as int),
                decreases frames@.len() - i,
            {
                plan.push(PageMap { virt: vaddr + (i as u64) * 4096, phys: frames[i] });
                i += 1;
            }
        },
        None => {},
    }
    (SyscallRet::ok(), MapPlan { pages: plan, writable: prot & PROT_WRITE != 0 })
}

/// A mapping costs its budget at least what it maps, and never more than is left.
pub proof fn law_map_is_paid(
    p: Process,
    mems: Seq<MemObj>,
    u: UserSpace,
    h: Handle,
    vaddr: u64,
    len: u64,
    prot: u64,
)
    requires
        map_request(p, mems, u, h, vaddr, len, prot) is Ok,
    ensures
        ({
            let (m, cost) = map_request(p, mems, u, h, vaddr, len, prot)->Ok_0;
            len <= cost <= mems[m as int].remaining
        }),
{
}

/// Why the protection of a range cannot be changed, or the number of its pages.
pub open spec fn range_request(vaddr: u64, len: u64) -> Result<u64, SysError> {
    if vaddr % 4096 != 0 || vaddr >= LOWER_HALF_END || vaddr + len + 4095 > u64::MAX {
        Err(SysError::Fault)
    } else {
        Ok((vm::rounded_up(len as int, 4096) / 4096) as u64)
    }
}

/// What a change of protection asks for, once checked: the number of pages.
pub open spec fn protect_request(
    p: Process,
    mems: Seq<MemObj>,
    h: Handle,
    vaddr: u64,
    len: u64,
    prot: u64,
) -> Result<u64, SysError> {
    match budget(p.handles@, mems, h) {
        Err(e) => Err(e),
        Ok(_) => if vaddr % 4096 != 0 || vaddr >= LOWER_HALF_END {
            Err(SysError::Fault)
        } else if prot & PROT_READ == 0 || (prot & PROT_WRITE != 0 && prot & PROT_EXEC != 0) {
            Err(SysError::Msg)
        } else {
            match range_request(vaddr, len) {
                Err(e) => Err(e),
                Ok(pages) => if proc::is_locked(
                    p.locked(),
                    vaddr,
                    (vaddr + pages * 4096) as u64,
                ) {
                    Err(SysError::Rights)
                } else {
                    Ok(pages)
                },
            }
        },
    }
}

/// Change the protection of pages that are mapped, never to writable and executable at
/// once, and never of a locked range. A range that does not fit the address space is a
/// fault.
pub fn sys_protect(
    k: &Kernel,
    cpu: usize,
    u: &UserSpace,
    mem_h: u64,
    vaddr: u64,
    len: u64,
    prot: u64,
) -> (r: (SyscallRet, Option<Protection>))
    requires
        k.wf(),
        k.in_process(cpu),
        u.ok(),
    ensures
        match protect_request(
            k.procs.v@[k.caller(cpu)],
            k.mems.v@,
            mem_h as Handle,
            vaddr,
            len,
            prot,
        ) {
            Err(e) => r == (syscall::failed(e), None::<Protection>),
            Ok(pages) => {
                let n = vm::mapped_upto(u.ram@, u.root, vaddr, pages as int, 0);
                &&& r.1 is Some
                &&& r.1->0.pages == n
                &&& r.1->0.complete == (n == pages)
                &&& r.1->0.flags == vm::user_bits(prot & PROT_WRITE != 0, prot & PROT_EXEC != 0)
                &&& vm::w_xor_x(r.1->0.flags)
                &&& r.0 == (if n == pages {
                    syscall::succeeded(0)
                } else {
                    syscall::failed(SysError::Fault)
                })
            },
        },
{
    let me: usize = syscall::caller(k, cpu);
    assert(k.procs.v@[me as int].wf());
    if let Err(e) = budget_of(&k.procs.v[me], &k.mems, mem_h as Handle) {
        return (SyscallRet::err(e), None);
    }
    if vaddr % 4096 != 0 || vaddr >= LOWER_HALF_END {
        return (SyscallRet::err(SysError::Fault), None);
    }
    let writable = prot & PROT_WRITE != 0;
    let executable = prot & PROT_EXEC != 0;
    if prot & PROT_READ == 0 || (writable && executable) {
        return (SyscallRet::err(SysError::Msg), None);
    }
    if len > u64::MAX - 4095 - vaddr {
        return (SyscallRet::err(SysError::Fault), None);
    }
    let pages: u64 = (len + 4095) / 4096;
    if k.procs.v[me].is_immutable(vaddr, vaddr + pages * 4096) {
        return (SyscallRet::err(SysError::Rights), None);
    }
    let p = vm::protect_user_range(u.ram, u.root, vaddr, pages, writable, executable);
    let ret = if p.complete {
        SyscallRet::ok()
    } else {
        SyscallRet::err(SysError::Fault)
    };
    (ret, Some(p))
}

/// A locked range is never protected again, in whole or in part.
pub proof fn law_locked_is_not_protected(
    p: Process,
    mems: Seq<MemObj>,
    h: Handle,
    vaddr: u64,
    len: u64,
    prot: u64,
)
    requires
        protect_request(p, mems, h, vaddr, len, prot) is Ok,
    ensures
        ({
            let pages = protect_request(p, mems, h, vaddr, len, prot)->Ok_0;
            !proc::is_locked(p.locked(), vaddr, (vaddr + pages * 4096) as u64)
        }),
{
}

/// No page of a locked range is ever mapped anew.
pub proof fn law_locked_is_not_mapped(
    p: Process,
    mems: Seq<MemObj>,
    u: UserSpace,
    h: Handle,
    vaddr: u64,
    len: u64,
    prot: u64,
    start: u64,
    end: u64,
    va: int,
)
    requires
        map_request(p, mems, u, h, vaddr, len, prot) is Ok,
        p.locked().contains((start, end)),
        start <= va < end,
    ensures
        !(vaddr <= va < vaddr + len),
{
    let i = choose|i: int| 0 <= i < p.locked().len() && p.locked()[i] == (start, end);
    assert(p.locked()[i] == (start, end));
}

/// Lock the protection of a range for good.
pub fn sys_immutable(k: &mut Kernel, cpu: usize, mem_h: u64, vaddr: u64, len: u64) -> (r: SyscallRet)
    requires
        old(k).wf(),
        old(k).in_process(cpu),
    ensures
        final(k).wf(),
        ({
            let me = old(k).caller(cpu);
            let p = old(k).procs.v@[me];
            match budget(p.handles@, old(k).mems.v@, mem_h as Handle) {
                Err(e) => r == syscall::failed(e) && *final(k) == *old(k),
                Ok(_) => match range_request(vaddr, len) {
                    Err(e) => r == syscall::failed(e) && *final(k) == *old(k),
                    Ok(pages) => if p.imm_count >= proc::MAX_IMM {
                        r == syscall::failed(SysError::NoMem) && *final(k) == *old(k)
                    } else {
                        let q = final(k).procs.v@[me];
                        &&& r == syscall::succeeded(0)
                        &&& *final(k) == (Kernel { procs: final(k).procs, ..*old(k) })
                        &&& proc::proc_becomes(
                            old(k).procs,
                            final(k).procs,
                            me,
                            Process { imm: q.imm, imm_count: q.imm_count, ..p },
                        )
                        &&& q.locked() == p.locked().push((vaddr, (vaddr + pages * 4096) as u64))
                    },
                },
            }
        }),
{
    let me: usize = syscall::caller(k, cpu);
    assert(k.procs.v@[me as int].wf());
    if let Err(e) = budget_of(&k.procs.v[me], &k.mems, mem_h as Handle) {
        return SyscallRet::err(e);
    }
    if vaddr % 4096 != 0 || vaddr >= LOWER_HALF_END || len > u64::MAX - 4095 - vaddr {
        return SyscallRet::err(SysError::Fault);
    }
    let pages: u64 = (len + 4095) / 4096;
    let mut p = k.procs.v[me];
    if p.immutable_add(vaddr, vaddr + pages * 4096) {
        k.procs.v[me] = p;
        SyscallRet::ok()
    } else {
        SyscallRet::err(SysError::NoMem)
    }
}

/// Make a frame that can be named, mapped and shared, paid from a budget. What was paid
/// is not refunded when the pools are exhausted.
pub fn sys_frame_alloc(k: &mut Kernel, cpu: usize, mem_h: u64) -> (r: SyscallRet)
    requires
        old(k).wf(),
        old(k).in_process(cpu),
    ensures
        final(k).wf(),
        match budget(old(k).caller_table(cpu), old(k).mems.v@, mem_h as Handle) {
            Err(e) => r == syscall::failed(e) && *final(k) == *old(k),
            Ok(m) => if old(k).mems.v@[m as int].remaining < 4096 {
                r == syscall::failed(SysError::NoMem) && *final(k) == *old(k)
            } else {
                let f = mem::free_frame_slot_from(old(k).frames.v@, 0);
                &&& final(k).mems.v@ == debited(old(k).mems.v@, m as int, 4096)
                &&& match pmm::next_frame(old(k).pmm) {
                    None => {
                        &&& r == syscall::failed(SysError::NoMem)
                        &&& *final(k) == (Kernel { mems: final(k).mems, ..*old(k) })
                    },
                    Some(phys) => {
                        let mid = Kernel {
                            mems: final(k).mems,
                            pmm: final(k).pmm,
                            frames: final(k).frames,
                            ..*old(k)
                        };
                        &&& pmm::allocated(old(k).pmm, final(k).pmm)
                        &&& if f >= mem::FRAME_POOL {
                            &&& r == syscall::failed(SysError::NoMem)
                            &&& *final(k) == mid
                            &&& final(k).frames == old(k).frames
                        } else {
                            let gen = old(k).frames.v@[f].gen;
                            &&& final(k).frames.v@ == old(k).frames.v@.update(
                                f,
                                FrameObj { in_use: true, phys, maps: 0, gen },
                            )
                            &&& syscall::given(
                                mid,
                                *final(k),
                                old(k).caller(cpu),
                                HandleEntry {
                                    obj: ObjectRef::Frame(f as u8),
                                    rights: R_MAP | R_WRITE | R_GRANT | R_ATTENUATE,
                                    badge: gen as u64,
                                },
                                r,
                            )
                        }
                    },
                }
            },
        },
        r.rax == 0 ==> {
            let e = final(k).caller_table(cpu)[r.rdx as int];
            &&& 1 <= r.rdx < 64
            &&& e is Some && e->0.obj is Frame && e->0.rights == 0x3000c
            &&& old(k).caller_table(cpu)[r.rdx as int] is None
        },
{
    proof {
        abi::lemma_made_rights();
        proc::lemma_empty_from(k.caller_table(cpu), 1);
    }

    let me: usize = syscall::caller(k, cpu);
    assert(k.procs.v@[me as int].wf());
    let m: u8 = match budget_of(&k.procs.v[me], &k.mems, mem_h as Handle) {
        Ok(m) => m,
        Err(e) => {
            return SyscallRet::err(e);
        },
    };
    if !mem::debit(&mut k.mems, m, 4096) {
        return SyscallRet::err(SysError::NoMem);
    }
    let phys: u64 = match pmm::alloc_frame(&mut k.pmm) {
        Some(p) => p,
        None => {
            return SyscallRet::err(SysError::NoMem);
        },
    };
    match mem::frame_record(&mut k.frames, phys) {
        Some((idx, gen)) => syscall::give(
            k,
            me,
            HandleEntry {
                obj: ObjectRef::Frame(idx),
                rights: R_MAP | R_WRITE | R_GRANT | R_ATTENUATE,
                badge: gen as u64,
            },
        ),
        None => SyscallRet::err(SysError::NoMem),
    }
}

/// What mapping a frame object asks for, once checked: the frame's slot.
pub open spec fn frame_request(
    t: Table,
    frames: Seq<FrameObj>,
    u: UserSpace,
    h: Handle,
    vaddr: u64,
    prot: u64,
) -> Result<u8, SysError> {
    match proc::entry_with(t, h, ObjType::Frame, R_MAP) {
        Err(e) => Err(e),
        Ok(e) => {
            let f = frames[e.obj->Frame_0 as int];
            if vaddr % 4096 != 0 || !plain_prot(prot) {
                Err(SysError::Msg)
            } else if prot & PROT_WRITE != 0 && e.rights & R_WRITE == 0 {
                Err(SysError::Rights)
            } else if vaddr >= LOWER_HALF_END || vm::occupied(u.ram@, u.root, vaddr, 1) {
                Err(SysError::Fault)
            } else if !(f.in_use && f.gen == e.badge) {
                Err(SysError::Gone)
            } else {
                Ok(e.obj->Frame_0)
            }
        },
    }
}

/// Map a frame object into the caller's address space. To map it writable the handle
/// itself must carry the right to write, so a weakened handle gives read-only memory.
pub fn sys_frame_map(
    k: &mut Kernel,
    cpu: usize,
    u: &UserSpace,
    frame: u64,
    vaddr: u64,
    prot: u64,
) -> (r: (SyscallRet, Option<PageMap>))
    requires
        old(k).wf(),
        old(k).in_process(cpu),
        u.ok(),
        forall|i: int|
            0 <= i < mem::FRAME_POOL ==> (#[trigger] old(k).frames.v@[i]).maps < u32::MAX,
    ensures
        final(k).wf(),
        match frame_request(
            old(k).caller_table(cpu),
            old(k).frames.v@,
            *u,
            frame as Handle,
            vaddr,
            prot,
        ) {
            Err(e) => {
                &&& r == (syscall::failed(e), None::<PageMap>)
                &&& *final(k) == *old(k)
            },
            Ok(i) => {
                let f = old(k).frames.v@[i as int];
                &&& r == (syscall::succeeded(0), Some(PageMap { virt: vaddr, phys: f.phys }))
                &&& *final(k) == (Kernel { frames: final(k).frames, ..*old(k) })
                &&& final(k).frames.v@ == old(k).frames.v@.update(
                    i as int,
                    FrameObj { maps: (f.maps + 1) as u32, ..f },
                )
            },
        },
{
    let me: usize = syscall::caller(k, cpu);
    assert(k.procs.v@[me as int].wf());
    let entry = match k.procs.v[me].lookup(frame as Handle, ObjType::Frame, R_MAP) {
        Ok(e) => e,
        Err(e) => {
            return (SyscallRet::err(e), None);
        },
    };
    let idx: u8 = match entry.obj {
        ObjectRef::Frame(i) => i,
        _ => {
            return (SyscallRet::err(SysError::BadType), None);
        },
    };
    if vaddr % 4096 != 0 {
        return (SyscallRet::err(SysError::Msg), None);
    }
    if prot & !(PROT_READ | PROT_WRITE) != 0 || prot & PROT_READ == 0 {
        return (SyscallRet::err(SysError::Msg), None);
    }
    if prot & PROT_WRITE != 0 && entry.rights & R_WRITE == 0 {
        return (SyscallRet::err(SysError::Rights), None);
    }
    if vaddr >= LOWER_HALF_END {
        return (SyscallRet::err(SysError::Fault), None);
    }
    if vm::probe_user_range(u.ram, u.root, vaddr, 1).is_err() {
        return (SyscallRet::err(SysError::Fault), None);
    }
    if entry.badge > 0xffff_ffff {
        return (SyscallRet::err(SysError::Gone), None);
    }
    match mem::frame_checkout(&mut k.frames, idx, entry.badge as u32) {
        Some(phys) => (SyscallRet::ok(), Some(PageMap { virt: vaddr, phys })),
        None => (SyscallRet::err(SysError::Gone), None),
    }
}

/// A read-only handle never gives writable memory.
pub proof fn law_read_only_handle(
    t: Table,
    frames: Seq<FrameObj>,
    u: UserSpace,
    h: Handle,
    vaddr: u64,
    prot: u64,
)
    requires
        frame_request(t, frames, u, h, vaddr, prot) is Ok,
        prot & PROT_WRITE != 0,
    ensures
        proc::entry_of(t, h) is Ok,
        proc::entry_of(t, h)->Ok_0.rights & R_WRITE != 0,
{
}

/// Allocate one frame for a device, map it writable and tell its physical address, paid
/// from a budget. What was paid and taken is not given back on a later error.
pub fn sys_dma_alloc(k: &mut Kernel, cpu: usize, u: &UserSpace, mem_h: u64, vaddr: u64) -> (r: (
    SyscallRet,
    Option<PageMap>,
))
    requires
        old(k).wf(),
        old(k).in_process(cpu),
        u.ok(),
    ensures
        final(k).wf(),
        match budget(old(k).caller_table(cpu), old(k).mems.v@, mem_h as Handle) {
            Err(e) => r == (syscall::failed(e), None::<PageMap>) && *final(k) == *old(k),
            Ok(m) => if vaddr % 4096 != 0 || vaddr >= LOWER_HALF_END {
                r == (syscall::failed(SysError::Fault), None::<PageMap>) && *final(k) == *old(k)
            } else if old(k).mems.v@[m as int].remaining < 4096 {
                r == (syscall::failed(SysError::NoMem), None::<PageMap>) && *final(k) == *old(k)
            } else {
                &&& final(k).mems.v@ == debited(old(k).mems.v@, m as int, 4096)
                &&& match pmm::next_frame(old(k).pmm) {
                    None => {
                        &&& r == (syscall::failed(SysError::NoMem), None::<PageMap>)
                        &&& *final(k) == (Kernel { mems: final(k).mems, ..*old(k) })
                    },
                    Some(phys) => {
                        &&& *final(k) == (Kernel {
                            mems: final(k).mems,
                            pmm: final(k).pmm,
                            ..*old(k)
                        })
                        &&& pmm::allocated(old(k).pmm, final(k).pmm)
                        &&& r == (if vm::occupied(u.ram@, u.root, vaddr, 1) {
                            (syscall::failed(SysError::Fault), None)
                        } else {
                            (syscall::succeeded(phys), Some(PageMap { virt: vaddr, phys }))
                        })
                    },
                }
            },
        },
{
    let me: usize = syscall::caller(k, cpu);
    assert(k.procs.v@[me as int].wf());
    let m: u8 = match budget_of(&k.procs.v[me], &k.mems, mem_h as Handle) {
        Ok(m) => m,
        Err(e) => {
            return (SyscallRet::err(e), None);
        },
    };
    if vaddr % 4096 != 0 || vaddr >= LOWER_HALF_END {
        return (SyscallRet::err(SysError::Fault), None);
    }
    if !mem::debit(&mut k.mems, m, 4096) {
        return (SyscallRet::err(SysError::NoMem), None);
    }
    let phys: u64 = match pmm::alloc_frame(&mut k.pmm) {
        Some(p) => p,
        None => {
            return (SyscallRet::err(SysError::NoMem), None);
        },
    };
    if vm::probe_user_range(u.ram, u.root, vaddr, 1).is_err() {
        return (SyscallRet::err(SysError::Fault), None);
    }
    (SyscallRet::value(phys), Some(PageMap { virt: vaddr, phys }))
}

/// Random bytes for the caller's buffer, `len` of them at most a fixed number.
pub fn sys_getentropy(k: &mut Kernel, u: &UserSpace, buf: u64, len: u64) -> (r: (SyscallRet, Vec<u8>))
    requires
        old(k).wf(),
        u.ok(),
    ensures
        final(k).wf(),
        if len > ENTROPY_MAX {
            &&& r.0 == syscall::failed(SysError::Msg)
            &&& r.1@.len() == 0
            &&& *final(k) == *old(k)
        } else if !u.reaches(buf, len as int, true) {
            &&& r.0 == syscall::failed(SysError::Fault)
            &&& r.1@.len() == 0
            &&& *final(k) == *old(k)
        } else {
            &&& r.0 == syscall::succeeded(0)
            &&& *final(k) == (Kernel { rng: final(k).rng, ..*old(k) })
            &&& final(k).rng@ == rng::after_steps(old(k).rng@, (len + 31) / 32)
            &&& r.1@ == Seq::new(len as nat, |i: int| rng::output_byte(old(k).rng@, i))
        },
{
    let mut out: Vec<u8> = Vec::new();
    if len > ENTROPY_MAX {
        return (SyscallRet::err(SysError::Msg), out);
    }
    let n: usize = len as usize;
    if !u.check(buf, n, true) {
        return (SyscallRet::err(SysError::Fault), out);
    }
    let mut i: usize = 0;
    while i < n
        invariant
            i <= n,
            out@.len() == i,
        decreases n - i,
    {
        out.push(0);
        i += 1;
    }
    rng::fill_bytes(&mut k.rng, out.as_mut_slice());
    (SyscallRet::ok(), out)
}

/// A shared region of `pages` pages can be made: the size is in range, and a slot and
/// the frames are there.
pub open spec fn region_fits(k: Kernel, pages: u64) -> bool {
    &&& 0 < pages <= shm::MAX_PAGES
    &&& shm::free_region_from(k.regions.v@, 0) < shm::NREGIONS
    &&& pages <= pmm::capacity(k.pmm)
}

/// The allocator after `n` frames were taken and given back.
pub open spec fn taken_and_returned(a: pmm::Pmm, b: pmm::Pmm, n: int) -> bool {
    let out = Seq::new(n as nat, |i: int| pmm::handed_out(a, i));
    &&& b.base == a.base
    &&& b.end == a.end
    &&& if n <= a.free@.len() {
        b.next == a.next && b.free@ =~= a.free@.subrange(0, a.free@.len() - n) + out
    } else {
        b.next == a.next + (n - a.free@.len()) * pmm::FRAME_SIZE && b.free@ =~= out
    }
}

/// The kernel after a shared region of `pages` pages, paid from budget `m`, was made for
/// process `me`.
pub open spec fn region_made(a: Kernel, b: Kernel, me: int, m: u8, pages: u64) -> bool {
    let i = shm::free_region_from(a.regions.v@, 0);
    let t = a.procs.v@[me].handles@;
    &&& b == Kernel { procs: b.procs, regions: b.regions, mems: b.mems, pmm: b.pmm, ..a }
    &&& b.mems.v@ == debited(a.mems.v@, m as int, pages * 4096)
    &&& pmm::allocated_run(a.pmm, b.pmm, pages as int)
    &&& b.regions.views() =~= a.regions.views().update(
        i,
        shm::RegionView {
            in_use: true,
            rc: 1,
            mem_idx: m,
            frames: Seq::new(pages as nat, |j: int| pmm::handed_out(a.pmm, j)),
        },
    )
    &&& kernel::table_becomes(
        a.procs,
        b.procs,
        me,
        t.update(
            proc::next_slot(t),
            Some(
                HandleEntry {
                    obj: ObjectRef::Shm(i as u8),
                    rights: R_MAP | R_WRITE | R_GRANT | R_ATTENUATE,
                    badge: 0,
                },
            ),
        ),
    )
}

/// The kernel after a shared region was made for a process whose table is full: region
/// and payment have been taken back.
pub open spec fn region_unmade(a: Kernel, b: Kernel, pages: u64) -> bool {
    let i = shm::free_region_from(a.regions.v@, 0);
    &&& b == Kernel { regions: b.regions, mems: b.mems, pmm: b.pmm, ..a }
    &&& b.mems.v@ == a.mems.v@
    &&& taken_and_returned(a.pmm, b.pmm, pages as int)
    &&& b.regions.views() =~= a.regions.views().update(
        i,
        shm::RegionView { in_use: false, rc: 0, mem_idx: 0, frames: Seq::empty() },
    )
}

/// Make a shared region, paid from a budget. The budget is refunded when the region
/// cannot be made, or no handle to it can.
pub fn sys_shm_create(k: &mut Kernel, cpu: usize, mem_h: u64, pages: u64) -> (r: SyscallRet)
    requires
        old(k).wf(),
        old(k).in_process(cpu),
    ensures
        final(k).wf(),
        match budget(old(k).caller_table(cpu), old(k).mems.v@, mem_h as Handle) {
            Err(e) => r == syscall::failed(e) && *final(k) == *old(k),
            Ok(m) => if pages * 4096 > u64::MAX {
                r == syscall::failed(SysError::Msg) && *final(k) == *old(k)
            } else if old(k).mems.v@[m as int].remaining < pages * 4096 {
                r == syscall::failed(SysError::NoMem) && *final(k) == *old(k)
            } else if !region_fits(*old(k), pages) {
                &&& r == syscall::failed(SysError::NoMem)
                &&& *final(k) == (Kernel { mems: final(k).mems, pmm: final(k).pmm, ..*old(k) })
                &&& final(k).mems.v@ == old(k).mems.v@
                &&& if 0 < pages <= shm::MAX_PAGES && shm::free_region_from(
                    old(k).regions.v@,
                    0,
                ) < shm::NREGIONS {
                    pmm::turned_over(old(k).pmm, final(k).pmm)
                } else {
                    final(k).pmm == old(k).pmm
                }
            } else if proc::full(old(k).caller_table(cpu)) {
                &&& r == syscall::failed(SysError::NoSlots)
                &&& region_unmade(*old(k), *final(k), pages)
            } else {
                &&& r == syscall::succeeded(proc::next_slot(old(k).caller_table(cpu)) as u64)
                &&& region_made(*old(k), *final(k), old(k).caller(cpu), m, pages)
            },
        },
{
    let me: usize = syscall::caller(k, cpu);
    assert(k.procs.v@[me as int].wf());
    let m: u8 = match budget_of(&k.procs.v[me], &k.mems, mem_h as Handle) {
        Ok(m) => m,
        Err(e) => {
            return SyscallRet::err(e);
        },
    };
    let bytes: u64 = match pages.checked_mul(4096) {
        Some(b) => b,
        None => {
            return SyscallRet::err(SysError::Msg);
        },
    };
    if !mem::debit(&mut k.mems, m, bytes) {
        return SyscallRet::err(SysError::NoMem);
    }
    let created: Option<u8> = if pages <= shm::MAX_PAGES as u64 {
        shm::create(&mut k.regions, &mut k.pmm, pages as usize)
    } else {
        None
    };
    let idx: u8 = match created {
        Some(i) => i,
        None => {
            mem::credit(&mut k.mems, m, bytes);
            assert(k.mems.v@ =~= old(k).mems.v@);
            return SyscallRet::err(SysError::NoMem);
        },
    };
    let entry = HandleEntry {
        obj: ObjectRef::Shm(idx),
        rights: R_MAP | R_WRITE | R_GRANT | R_ATTENUATE,
        badge: 0,
    };
    let ghost frames = Seq::new(pages as nat, |j: int| pmm::handed_out(old(k).pmm, j));
    let ghost mid = *k;
    assert(mid.regions.v@[idx as int].frames@ =~= frames);
    match syscall::give_handle(k, me, entry) {
        Ok(h) => {
            shm::set_mem(&mut k.regions, idx, m);
            proof {
                assert(k.regions.v@[idx as int]@ =~= (shm::RegionView {
                    in_use: true,
                    rc: 1,
                    mem_idx: m,
                    frames,
                }));
                assert(k.regions.views() =~= old(k).regions.views().update(
                    idx as int,
                    k.regions.v@[idx as int]@,
                ));
            }
            SyscallRet::ok_handle(h)
        },
        Err(e) => {
            shm::free(&mut k.regions, &mut k.pmm, idx);
            mem::credit(&mut k.mems, m, bytes);
            proof {
                assert(k.mems.v@ =~= old(k).mems.v@);
                assert(k.regions.v@[idx as int].frames@ =~= Seq::<u64>::empty());
                assert(k.regions.views() =~= old(k).regions.views().update(
                    idx as int,
                    k.regions.v@[idx as int]@,
                ));
            }
            SyscallRet::err(e)
        },
    }
}

/// What mapping a shared region asks for, once checked: its slot, and whether writable.
pub open spec fn shm_request(
    t: Table,
    regions: Seq<Region>,
    u: UserSpace,
    h: Handle,
    vaddr: u64,
) -> Result<(u8, bool), SysError> {
    match proc::entry_with(t, h, ObjType::Shm, R_MAP) {
        Err(e) => Err(e),
        Ok(e) => if vaddr % 4096 != 0 || vaddr >= LOWER_HALF_END {
            Err(SysError::Fault)
        } else if !shm::mappable(regions[e.obj->Shm_0 as int], u.ram@, u.root, vaddr) {
            Err(SysError::Fault)
        } else {
            Ok((e.obj->Shm_0, e.rights & R_WRITE != 0))
        },
    }
}

/// Map all of a shared region at `vaddr`, writable if the handle allows it. Returns its
/// size.
pub fn sys_shm_map(k: &Kernel, cpu: usize, u: &UserSpace, shm_h: u64, vaddr: u64) -> (r: (
    SyscallRet,
    MapPlan,
))
    requires
        k.wf(),
        k.in_process(cpu),
        u.ok(),
    ensures
        match shm_request(k.caller_table(cpu), k.regions.v@, *u, shm_h as Handle, vaddr) {
            Err(e) => r.0 == syscall::failed(e) && r.1.pages@.len() == 0,
            Ok((i, writable)) => {
                let frames = k.regions.v@[i as int].frames@;
                &&& r.0 == syscall::succeeded((frames.len() * 4096) as u64)
                &&& r.1.writable == writable
                &&& r.1.pages@ == Seq::new(
                    frames.len(),
                    |j: int| PageMap { virt: (vaddr + j * 4096) as u64, phys: frames[j] },
                )
            },
        },
{
    let me: usize = syscall::caller(k, cpu);
    assert(k.procs.v@[me as int].wf());
    let none = MapPlan { pages: Vec::new(), writable: false };
    let entry = match k.procs.v[me].lookup(shm_h as Handle, ObjType::Shm, R_MAP) {
        Ok(e) => e,
        Err(e) => {
            return (SyscallRet::err(e), none);
        },
    };
    let idx: u8 = match entry.obj {
        ObjectRef::Shm(i) => i,
        _ => {
            return (SyscallRet::err(SysError::BadType), none);
        },
    };
    if vaddr % 4096 != 0 || vaddr >= LOWER_HALF_END {
        return (SyscallRet::err(SysError::Fault), none);
    }
    assert(k.regions.v@[idx as int].wf());
    let pages = shm::map(&k.regions, idx, u.ram, u.root, vaddr);
    let n: usize = pages.len();
    if n == 0 {
        return (SyscallRet::err(SysError::Fault), none);
    }
    (
        SyscallRet::value(n as u64 * 4096),
        MapPlan { pages, writable: entry.rights & R_WRITE != 0 },
    )
}

} // verus!
