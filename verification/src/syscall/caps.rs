//! Calls that make, weaken, inspect and drop capabilities.
use vstd::prelude::*;
use crate::abi;
use crate::abi::{
    Handle, SysError, CAP_CHANNEL, CAP_OTHER, CAP_SHM, R_ATTENUATE, R_GRANT, R_RECV, R_SEND,
};
use crate::ipc;
use crate::kernel;
use crate::kernel::Kernel;
use crate::object;
use crate::object::{HandleEntry, ObjType, ObjectRef};
use crate::proc;
use crate::proc::{Process, Table};
use crate::syscall;
use crate::syscall::SyscallRet;

verus! {

/// What minting from handle `src` gives: a badged capability to the same endpoint, with
/// no more rights.
pub open spec fn minted(t: Table, src: Handle, badge: u64, rights: u32) -> Result<
    HandleEntry,
    SysError,
> {
    match proc::entry_of(t, src) {
        Err(e) => Err(e),
        Ok(e) => if object::type_of(e.obj) != ObjType::Endpoint {
            Err(SysError::BadType)
        } else if e.rights & R_ATTENUATE == 0 || e.badge != 0 || !object::has_rights(
            e.rights,
            rights,
        ) {
            Err(SysError::Rights)
        } else if badge == 0 {
            Err(SysError::Msg)
        } else {
            Ok(HandleEntry { obj: e.obj, rights, badge })
        },
    }
}

/// Derive a badged capability to an endpoint. The badge is delivered with every message
/// sent through it. An endpoint capability that has a badge cannot be given another.
pub fn sys_mint(k: &mut Kernel, cpu: usize, src: u64, badge: u64, new_rights: u64) -> (r: SyscallRet)
    requires
        old(k).wf(),
        old(k).in_process(cpu),
    ensures
        final(k).wf(),
        match minted(old(k).caller_table(cpu), src as Handle, badge, new_rights as u32) {
            Err(e) => r == syscall::failed(e) && *final(k) == *old(k),
            Ok(e) => syscall::given(*old(k), *final(k), old(k).caller(cpu), e, r),
        },
{
    let me: usize = syscall::caller(k, cpu);
    let rights: u32 = new_rights as u32;
    let entry = match k.procs.v[me].get(src as Handle) {
        Ok(e) => e,
        Err(e) => {
            return SyscallRet::err(e);
        },
    };
    assert(k.procs.v@[me as int].wf());
    if entry.obj.ty() != ObjType::Endpoint {
        return SyscallRet::err(SysError::BadType);
    }
    if entry.rights & R_ATTENUATE == 0 {
        return SyscallRet::err(SysError::Rights);
    }
    if entry.badge != 0 {
        return SyscallRet::err(SysError::Rights);
    }
    if entry.rights & rights != rights {
        return SyscallRet::err(SysError::Rights);
    }
    if badge == 0 {
        return SyscallRet::err(SysError::Msg);
    }
    syscall::give(k, me, HandleEntry { obj: entry.obj, rights, badge })
}

/// What attenuating handle `src` gives: the same capability with no more rights, its
/// badge kept.
pub open spec fn attenuated(t: Table, src: Handle, rights: u32) -> Result<HandleEntry, SysError> {
    match proc::entry_of(t, src) {
        Err(e) => Err(e),
        Ok(e) => if object::type_of(e.obj) == ObjType::Reply {
            Err(SysError::BadType)
        } else if e.rights & R_ATTENUATE == 0 || !object::has_rights(e.rights, rights) {
            Err(SysError::Rights)
        } else {
            Ok(HandleEntry { obj: e.obj, rights, badge: e.badge })
        },
    }
}

/// Derive a weaker capability. Replies cannot be attenuated.
pub fn sys_attenuate(k: &mut Kernel, cpu: usize, src: u64, new_rights: u64) -> (r: SyscallRet)
    requires
        old(k).wf(),
        old(k).in_process(cpu),
    ensures
        final(k).wf(),
        match attenuated(old(k).caller_table(cpu), src as Handle, new_rights as u32) {
            Err(e) => r == syscall::failed(e) && *final(k) == *old(k),
            Ok(e) => syscall::given(*old(k), *final(k), old(k).caller(cpu), e, r),
        },
{
    let me: usize = syscall::caller(k, cpu);
    let rights: u32 = new_rights as u32;
    let entry = match k.procs.v[me].get(src as Handle) {
        Ok(e) => e,
        Err(e) => {
            return SyscallRet::err(e);
        },
    };
    assert(k.procs.v@[me as int].wf());
    if entry.obj.ty() == ObjType::Reply {
        return SyscallRet::err(SysError::BadType);
    }
    if entry.rights & R_ATTENUATE == 0 {
        return SyscallRet::err(SysError::Rights);
    }
    if entry.rights & rights != rights {
        return SyscallRet::err(SysError::Rights);
    }
    syscall::give(k, me, HandleEntry { obj: entry.obj, rights, badge: entry.badge })
}

/// No derived capability amplifies: it names the object of its source and grants nothing
/// its source did not.
pub proof fn law_no_amplification(t: Table, src: Handle, badge: u64, rights: u32)
    ensures
        attenuated(t, src, rights) matches Ok(d) ==> {
            &&& proc::entry_of(t, src) is Ok
            &&& d.obj == proc::entry_of(t, src)->Ok_0.obj
            &&& object::rights_within(d.rights, proc::entry_of(t, src)->Ok_0.rights)
        },
        minted(t, src, badge, rights) matches Ok(d) ==> {
            &&& proc::entry_of(t, src) is Ok
            &&& d.obj == proc::entry_of(t, src)->Ok_0.obj
            &&& object::rights_within(d.rights, proc::entry_of(t, src)->Ok_0.rights)
        },
{
    if proc::entry_of(t, src) is Ok {
        let have = proc::entry_of(t, src)->Ok_0.rights;
        assert(have & rights == rights ==> rights & !have == 0) by (bit_vector);
    }
}

/// A badge cannot be shed or changed: whatever is derived from a badged endpoint
/// capability carries the same badge, and only unbadged ones can be badged.
pub proof fn law_badge_is_permanent(t: Table, src: Handle, badge: u64, rights: u32)
    requires
        proc::entry_of(t, src) is Ok,
    ensures
        ({
            let e = proc::entry_of(t, src)->Ok_0;
            &&& attenuated(t, src, rights) matches Ok(d) ==> d.badge == e.badge
            &&& e.badge != 0 ==> minted(t, src, badge, rights) is Err
            &&& minted(t, src, badge, rights) matches Ok(d) ==> d.badge == badge && d.badge != 0
        }),
{
}

/// Make a fresh endpoint, with every right to it.
pub fn sys_ep_create(k: &mut Kernel, cpu: usize) -> (r: SyscallRet)
    requires
        old(k).wf(),
        old(k).in_process(cpu),
    ensures
        final(k).wf(),
        ({
            let i = ipc::free_ep_from(old(k).ipc.ep_views(), 0);
            if i >= ipc::EP_POOL {
                r == syscall::failed(SysError::NoMem) && *final(k) == *old(k)
            } else {
                let mid = Kernel { ipc: final(k).ipc, ..*old(k) };
                &&& final(k).ipc.ep_views() == old(k).ipc.ep_views().update(
                    i,
                    ipc::EpView { in_use: true, queue: Seq::empty(), waiter: None },
                )
                &&& final(k).ipc.replies == old(k).ipc.replies
                &&& final(k).ipc.slots == old(k).ipc.slots
                &&& syscall::given(
                    mid,
                    *final(k),
                    old(k).caller(cpu),
                    HandleEntry {
                        obj: ObjectRef::Endpoint(i as u8),
                        rights: R_SEND | R_RECV | R_GRANT | R_ATTENUATE,
                        badge: 0,
                    },
                    r,
                )
            }
        }),
        r.rax == 0 ==> {
            let e = final(k).caller_table(cpu)[r.rdx as int];
            &&& 1 <= r.rdx < 64
            &&& e is Some && e->0.obj is Endpoint && e->0.rights == 0xf
            &&& old(k).caller_table(cpu)[r.rdx as int] is None
        },
{
    proof {
        abi::lemma_made_rights();
        proc::lemma_empty_from(k.caller_table(cpu), 1);
    }

    let me: usize = syscall::caller(k, cpu);
    match ipc::ep_create(&mut k.ipc, &k.sched) {
        Some(idx) => syscall::give(
            k,
            me,
            HandleEntry {
                obj: ObjectRef::Endpoint(idx),
                rights: R_SEND | R_RECV | R_GRANT | R_ATTENUATE,
                badge: 0,
            },
        ),
        None => SyscallRet::err(SysError::NoMem),
    }
}

/// The kernel after process `me` closed handle `h`: the slot is empty, a reply that was
/// pending behind it is abandoned, and a shared region no longer counts it.
pub open spec fn closed(a: Kernel, b: Kernel, me: int, h: int) -> bool {
    let t = a.procs.v@[me].handles@;
    let e = t[h]->0;
    let owed = (a.ipc.replies@, a.ipc.slots.views(), a.sched.tcbs@);
    &&& b == Kernel {
        sched: b.sched,
        procs: b.procs,
        ipc: b.ipc,
        mems: b.mems,
        pmm: b.pmm,
        regions: b.regions,
        ..a
    }
    &&& kernel::table_becomes(a.procs, b.procs, me, t.update(h, None))
    &&& b.shm_world() == kernel::handle_dropped(a.shm_world(), t[h])
    &&& b.pmm.base == a.pmm.base && b.pmm.next == a.pmm.next && b.pmm.end == a.pmm.end
    &&& b.ipc.ep_views() == a.ipc.ep_views()
    &&& b.sched.cpus@ == a.sched.cpus@
    &&& (b.ipc.replies@, b.ipc.slots.views(), b.sched.tcbs@) == (match e.obj {
        ObjectRef::Reply(i) => if ipc::pending(a.ipc.replies@[i as int], e.badge) {
            ipc::abandoned(owed.0, owed.1, owed.2, i as int)
        } else {
            owed
        },
        _ => owed,
    })
}

/// Close a handle.
pub fn sys_close(k: &mut Kernel, cpu: usize, h: u64) -> (r: SyscallRet)
    requires
        old(k).wf(),
        old(k).in_process(cpu),
        proc::entry_of(old(k).caller_table(cpu), h as Handle) matches Ok(e) ==> kernel::drop_fits(
            old(k).shm_world(),
            Some(e),
        ),
    ensures
        final(k).wf(),
        match proc::entry_of(old(k).caller_table(cpu), h as Handle) {
            Err(e) => r == syscall::failed(e) && *final(k) == *old(k),
            Ok(_) => {
                &&& r == syscall::succeeded(0)
                &&& closed(*old(k), *final(k), old(k).caller(cpu), (h as Handle) as int)
            },
        },
{
    let me: usize = syscall::caller(k, cpu);
    let handle: Handle = h as Handle;
    let entry = match k.procs.v[me].get(handle) {
        Ok(e) => e,
        Err(e) => {
            return SyscallRet::err(e);
        },
    };
    assert(k.procs.v@[me as int].wf());
    if let ObjectRef::Reply(idx) = entry.obj {
        if entry.badge <= 0xffff_ffff && ipc::reply_gen_ok(
            &k.ipc,
            idx as usize,
            entry.badge as u32,
        ) {
            ipc::reply_abandon(&mut k.ipc, &mut k.sched, idx as usize);
        }
    }
    kernel::drop_handle(&mut k.regions, &mut k.pmm, &mut k.mems, &Some(entry));
    let p = &mut k.procs.v[me];
    let _ = p.close(handle);
    SyscallRet::ok()
}

/// The kind of a capability, as far as a receiver needs to know.
pub open spec fn cap_kind(e: Result<HandleEntry, SysError>) -> u64 {
    match e {
        Ok(e) => match e.obj {
            ObjectRef::Channel { .. } => CAP_CHANNEL,
            ObjectRef::Shm(_) => CAP_SHM,
            _ => CAP_OTHER,
        },
        Err(_) => CAP_OTHER,
    }
}

/// Tell the kind of a capability; a bad handle is of no particular kind.
pub fn sys_cap_type(k: &Kernel, cpu: usize, h: u64) -> (r: SyscallRet)
    requires
        k.wf(),
        k.in_process(cpu),
    ensures
        r == syscall::succeeded(cap_kind(proc::entry_of(k.caller_table(cpu), h as Handle))),
{
    let me: usize = syscall::caller(k, cpu);
    let kind: u64 = match k.procs.v[me].get(h as Handle) {
        Ok(e) => match e.obj {
            ObjectRef::Channel { .. } => CAP_CHANNEL,
            ObjectRef::Shm(_) => CAP_SHM,
            _ => CAP_OTHER,
        },
        Err(_) => CAP_OTHER,
    };
    SyscallRet::value(kind)
}

/// Give up syscall classes for good.
pub fn sys_pledge(k: &mut Kernel, cpu: usize, promises: u64) -> (r: SyscallRet)
    requires
        old(k).wf(),
        old(k).in_process(cpu),
    ensures
        final(k).wf(),
        r == syscall::succeeded(0),
        *final(k) == (Kernel { procs: final(k).procs, ..*old(k) }),
        ({
            let me = old(k).caller(cpu);
            let p = old(k).procs.v@[me];
            proc::proc_becomes(
                old(k).procs,
                final(k).procs,
                me,
                Process { pledge: p.pledge & promises, ..p },
            )
        }),
{
    let me: usize = syscall::caller(k, cpu);
    let p = &mut k.procs.v[me];
    p.pledge_narrow(promises);
    SyscallRet::ok()
}

} // verus!
