//! Calls that pass messages and signals.
use vstd::prelude::*;
use crate::abi;
use crate::abi::{
    Handle, MsgBuf, MsgView, SysError, MSG_DATA_WORDS, MSG_HANDLES, R_ACK, R_ATTENUATE, R_BIND,
    R_GRANT, R_RECV, R_SEND, R_SIGNAL, R_WAIT,
};
use crate::ipc;
use crate::ipc::{Reply, World};
use crate::irq;
use crate::kernel::Kernel;
use crate::notif;
use crate::notif::Outcome;
use crate::object;
use crate::object::{HandleEntry, ObjType, ObjectRef};
use crate::proc;
use crate::proc::{Process, Table};
use crate::syscall;
use crate::syscall::{SyscallRet, UserSpace, MSG_BYTES};

verus! {

/// The state of the kernel as far as message passing is concerned.
pub open spec fn world(k: Kernel) -> World {
    ipc::world(k.ipc, k.procs, k.regions, k.sched)
}

/// Message passing changes nothing outside its [`World`].
pub open spec fn only_world_changes(a: Kernel, b: Kernel) -> bool {
    &&& b == Kernel { ipc: b.ipc, procs: b.procs, regions: b.regions, sched: b.sched, ..a }
    &&& ipc::rest_unchanged(a.procs, b.procs, a.sched, b.sched)
}

/// `m` is what the caller's message at `ptr` may be used for: it is aligned, can be read
/// (and written if `write`), and within limits.
pub open spec fn message_error(u: UserSpace, ptr: u64, m: MsgView, write: bool) -> Option<SysError> {
    if ptr & 7 != 0 || !u.reaches(ptr, MSG_BYTES as int, write) {
        Some(SysError::Fault)
    } else if !m.within_limits() {
        Some(SysError::Msg)
    } else {
        None
    }
}

/// Check a message that was read from `ptr`.
fn check_message(u: &UserSpace, ptr: u64, m: &MsgBuf, write: bool) -> (r: Result<(), SysError>)
    requires
        u.ok(),
    ensures
        r == (match message_error(*u, ptr, m@, write) {
            Some(e) => Err(e),
            None => Ok(()),
        }),
{
    if ptr & 7 != 0 {
        return Err(SysError::Fault);
    }
    if !u.check(ptr, MSG_BYTES, write) {
        return Err(SysError::Fault);
    }
    if m.data_len as usize > MSG_DATA_WORDS || m.handle_count as usize > MSG_HANDLES {
        return Err(SysError::Msg);
    }
    Ok(())
}

/// What a send or call asks for, once checked: the endpoint, and the message with the
/// badge of the capability it was sent through, whatever the sender wrote there.
pub open spec fn send_request(
    t: Table,
    u: UserSpace,
    ep: Handle,
    ptr: u64,
    m: MsgView,
    is_call: bool,
) -> Result<(u8, MsgView), SysError> {
    match proc::entry_with(t, ep, ObjType::Endpoint, R_SEND) {
        Err(e) => Err(e),
        Ok(e) => match message_error(u, ptr, m, is_call) {
            Some(x) => Err(x),
            None => match ipc::grant_error(t, m.handles, 0, m.handle_count as int) {
                Some(x) => Err(x),
                None => Ok((e.obj->Endpoint_0, MsgView { badge: e.badge, ..m })),
            },
        },
    }
}

/// Send `msg`, the message at `msg_ptr`, or call with it. `Sleep` means that the running
/// thread is blocked until it is resumed with its result.
pub fn sys_ipc(
    k: &mut Kernel,
    cpu: usize,
    u: &UserSpace,
    ep: u64,
    msg_ptr: u64,
    msg: &MsgBuf,
    is_call: bool,
) -> (out: Outcome)
    requires
        old(k).wf(),
        old(k).in_process(cpu),
        u.ok(),
    ensures
        final(k).wf(),
        match send_request(
            old(k).caller_table(cpu),
            *u,
            ep as Handle,
            msg_ptr,
            msg@,
            is_call,
        ) {
            Err(e) => out == syscall::outcome(syscall::failed(e)) && *final(k) == *old(k),
            Ok((idx, m)) => {
                &&& only_world_changes(*old(k), *final(k))
                &&& (world(*final(k)), out) == ipc::sent(
                    world(*old(k)),
                    old(k).sched.running(cpu),
                    idx as int,
                    m,
                    msg_ptr,
                    is_call,
                )
            },
        },
{
    let me: usize = syscall::caller(k, cpu);
    assert(k.procs.v@[me as int].wf());
    let entry = match k.procs.v[me].lookup(ep as Handle, ObjType::Endpoint, R_SEND) {
        Ok(e) => e,
        Err(e) => {
            return Outcome::Done(e.code(), 0);
        },
    };
    if let Err(e) = check_message(u, msg_ptr, msg, is_call) {
        return Outcome::Done(e.code(), 0);
    }
    let mut m: MsgBuf = *msg;
    m.badge = entry.badge;
    assert(m@ =~= MsgView { badge: entry.badge, ..msg@ });
    if let Err(e) = ipc::stage_entries(&k.procs.v[me], &m) {
        return Outcome::Done(e.code(), 0);
    }
    match entry.obj {
        ObjectRef::Endpoint(idx) => ipc::send_or_call(
            &mut k.ipc,
            &mut k.procs,
            &mut k.regions,
            &mut k.sched,
            cpu,
            idx,
            &m,
            msg_ptr,
            is_call,
        ),
        _ => Outcome::Done(SysError::BadType.code(), 0),
    }
}

/// The badge that arrives is the badge of the capability that was used, not what the
/// sender wrote into the message; nothing else of the message is touched.
pub proof fn law_badge_is_unforgeable(
    t: Table,
    u: UserSpace,
    ep: Handle,
    ptr: u64,
    m: MsgView,
    forged: u64,
    is_call: bool,
)
    requires
        send_request(t, u, ep, ptr, m, is_call) is Ok,
    ensures
        ({
            let (idx, sent) = send_request(t, u, ep, ptr, m, is_call)->Ok_0;
            &&& proc::entry_of(t, ep) is Ok
            &&& sent.badge == proc::entry_of(t, ep)->Ok_0.badge
            &&& sent == MsgView { badge: sent.badge, ..m }
            &&& send_request(t, u, ep, ptr, MsgView { badge: forged, ..m }, is_call) == send_request(
                t,
                u,
                ep,
                ptr,
                m,
                is_call,
            )
        }),
{
}

/// Why a receive with buffer `ptr` cannot be, or the endpoint it is on.
pub open spec fn recv_request(t: Table, u: UserSpace, ep: Handle, ptr: u64) -> Result<u8, SysError> {
    match proc::entry_with(t, ep, ObjType::Endpoint, R_RECV) {
        Err(e) => Err(e),
        Ok(e) => if ptr & 7 != 0 || !u.reaches(ptr, MSG_BYTES as int, true) {
            Err(SysError::Fault)
        } else {
            Ok(e.obj->Endpoint_0)
        },
    }
}

/// Receive on an endpoint. The message returned is to be copied to `msg_ptr`.
pub fn sys_recv(k: &mut Kernel, cpu: usize, u: &UserSpace, ep: u64, msg_ptr: u64) -> (r: (
    Outcome,
    Option<MsgBuf>,
))
    requires
        old(k).wf(),
        old(k).in_process(cpu),
        u.ok(),
    ensures
        final(k).wf(),
        match recv_request(old(k).caller_table(cpu), *u, ep as Handle, msg_ptr) {
            Err(e) => {
                &&& r == (syscall::outcome(syscall::failed(e)), None::<MsgBuf>)
                &&& *final(k) == *old(k)
            },
            Ok(idx) => {
                let me = old(k).sched.running(cpu);
                let (w, g) = ipc::served(world(*old(k)), me, idx as int);
                &&& only_world_changes(*old(k), *final(k))
                &&& (r.0, ipc::msg_view(r.1)) == ipc::receipt(g, true)
                &&& world(*final(k)) == (if g is NoSender {
                    ipc::registered(w, me, idx as int, msg_ptr)
                } else {
                    w
                })
            },
        },
{
    let me: usize = syscall::caller(k, cpu);
    assert(k.procs.v@[me as int].wf());
    let entry = match k.procs.v[me].lookup(ep as Handle, ObjType::Endpoint, R_RECV) {
        Ok(e) => e,
        Err(e) => {
            return (Outcome::Done(e.code(), 0), None);
        },
    };
    if msg_ptr & 7 != 0 || !u.check(msg_ptr, MSG_BYTES, true) {
        return (Outcome::Done(SysError::Fault.code(), 0), None);
    }
    match entry.obj {
        ObjectRef::Endpoint(idx) => ipc::recv(
            &mut k.ipc,
            &mut k.procs,
            &mut k.regions,
            &mut k.sched,
            cpu,
            idx,
            msg_ptr,
            true,
        ),
        _ => (Outcome::Done(SysError::BadType.code(), 0), None),
    }
}

/// What a reply asks for, once checked: the pending reply, and the message without a
/// badge.
pub open spec fn reply_request(
    t: Table,
    replies: Seq<Reply>,
    u: UserSpace,
    h: Handle,
    ptr: u64,
    m: MsgView,
) -> Result<(u8, MsgView), SysError> {
    match proc::entry_with(t, h, ObjType::Reply, 0) {
        Err(e) => Err(e),
        Ok(e) => if !ipc::pending(replies[e.obj->Reply_0 as int], e.badge) {
            Err(SysError::Gone)
        } else {
            match message_error(u, ptr, m, false) {
                Some(x) => Err(x),
                None => match ipc::grant_error(t, m.handles, 0, m.handle_count as int) {
                    Some(x) => Err(x),
                    None => Ok((e.obj->Reply_0, MsgView { badge: 0, ..m })),
                },
            }
        },
    }
}

/// The world after process `me` dropped handle `h` without further effect.
pub open spec fn handle_gone(w: World, me: int, h: int) -> World {
    World { tables: w.tables.update(me, w.tables[me].update(h, None)), ..w }
}

/// Answer a pending call with `msg`, the message at `msg_ptr`. On success the reply and
/// the handle to it are used up; on an error neither is.
pub fn sys_reply(
    k: &mut Kernel,
    cpu: usize,
    u: &UserSpace,
    reply: u64,
    msg_ptr: u64,
    msg: &MsgBuf,
) -> (r: SyscallRet)
    requires
        old(k).wf(),
        old(k).in_process(cpu),
        u.ok(),
    ensures
        final(k).wf(),
        match reply_request(
            old(k).caller_table(cpu),
            old(k).ipc.replies@,
            *u,
            reply as Handle,
            msg_ptr,
            msg@,
        ) {
            Err(e) => r == syscall::failed(e) && *final(k) == *old(k),
            Ok((idx, m)) => {
                let me = old(k).caller(cpu);
                &&& r == syscall::succeeded(0)
                &&& only_world_changes(*old(k), *final(k))
                &&& world(*final(k)) == handle_gone(
                    ipc::replied(world(*old(k)), idx as int, m, me),
                    me,
                    (reply as Handle) as int,
                )
            },
        },
{
    let me: usize = syscall::caller(k, cpu);
    let h: Handle = reply as Handle;
    assert(k.procs.v@[me as int].wf());
    let entry = match k.procs.v[me].lookup(h, ObjType::Reply, 0) {
        Ok(e) => e,
        Err(e) => {
            return SyscallRet::err(e);
        },
    };
    let idx: u8 = match entry.obj {
        ObjectRef::Reply(i) => i,
        _ => {
            return SyscallRet::err(SysError::BadType);
        },
    };
    if entry.badge > 0xffff_ffff || !ipc::reply_gen_ok(&k.ipc, idx as usize, entry.badge as u32) {
        return SyscallRet::err(SysError::Gone);
    }
    if let Err(e) = check_message(u, msg_ptr, msg, false) {
        return SyscallRet::err(e);
    }
    let mut m: MsgBuf = *msg;
    m.badge = 0;
    assert(m@ =~= MsgView { badge: 0, ..msg@ });
    if let Err(e) = ipc::stage_entries(&k.procs.v[me], &m) {
        return SyscallRet::err(e);
    }
    ipc::do_reply(
        &mut k.ipc,
        &mut k.procs,
        &mut k.regions,
        &mut k.sched,
        cpu,
        idx as usize,
        &m,
    );
    let ghost w = world(*k);
    let ghost mid = k.procs;
    let mut p = k.procs.v[me];
    assert(w.tables[me as int] == p.handles@);
    assert(k.procs.v@[me as int].wf());
    p.handles[h as usize] = None;
    k.procs.v[me] = p;
    proof {
        assert(world(*k).tables =~= handle_gone(w, me as int, h as int).tables);
        assert(world(*k) =~= handle_gone(w, me as int, h as int));
    }
    SyscallRet::ok()
}

/// A reply arrives unbadged, whatever the replier wrote.
pub proof fn law_reply_is_unbadged(
    t: Table,
    replies: Seq<Reply>,
    u: UserSpace,
    h: Handle,
    ptr: u64,
    m: MsgView,
)
    requires
        reply_request(t, replies, u, h, ptr, m) is Ok,
    ensures
        reply_request(t, replies, u, h, ptr, m)->Ok_0.1 == (MsgView { badge: 0, ..m }),
{
}

/// Make a fresh notification, with every right to it.
pub fn sys_notif_create(k: &mut Kernel, cpu: usize) -> (r: SyscallRet)
    requires
        old(k).wf(),
        old(k).in_process(cpu),
    ensures
        final(k).wf(),
        ({
            let i = notif::free_from(old(k).notifs.pool@, 0);
            if i >= notif::POOL_SIZE {
                r == syscall::failed(SysError::NoMem) && *final(k) == *old(k)
            } else {
                let mid = Kernel { notifs: final(k).notifs, ..*old(k) };
                &&& notif::becomes(old(k).notifs, final(k).notifs, i, notif::fresh())
                &&& syscall::given(
                    mid,
                    *final(k),
                    old(k).caller(cpu),
                    HandleEntry {
                        obj: ObjectRef::Notification(i as u8),
                        rights: R_SIGNAL | R_WAIT | R_GRANT | R_ATTENUATE,
                        badge: 0,
                    },
                    r,
                )
            }
        }),
        r.rax == 0 ==> {
            let e = final(k).caller_table(cpu)[r.rdx as int];
            &&& 1 <= r.rdx < 64
            &&& e is Some && e->0.obj is Notification && e->0.rights == 0xf
            &&& old(k).caller_table(cpu)[r.rdx as int] is None
        },
{
    proof {
        abi::lemma_made_rights();
        proc::lemma_empty_from(k.caller_table(cpu), 1);
    }

    let me: usize = syscall::caller(k, cpu);
    match notif::create(&mut k.notifs) {
        Some(idx) => syscall::give(
            k,
            me,
            HandleEntry {
                obj: ObjectRef::Notification(idx),
                rights: R_SIGNAL | R_WAIT | R_GRANT | R_ATTENUATE,
                badge: 0,
            },
        ),
        None => SyscallRet::err(SysError::NoMem),
    }
}

/// The notification behind handle `h`, which must carry `rights`.
pub open spec fn notification(t: Table, h: Handle, rights: u32) -> Result<u8, SysError> {
    match proc::entry_with(t, h, ObjType::Notification, rights) {
        Err(e) => Err(e),
        Ok(e) => Ok(e.obj->Notification_0),
    }
}

/// Look up a notification.
pub fn notification_of(p: &Process, h: Handle, rights: u32) -> (r: Result<u8, SysError>)
    requires
        p.wf(),
    ensures
        r == notification(p.handles@, h, rights),
        r is Ok ==> r->Ok_0 < notif::POOL_SIZE,
{
    match p.lookup(h, ObjType::Notification, rights) {
        Err(e) => Err(e),
        Ok(e) => match e.obj {
            ObjectRef::Notification(i) => {
                assert(object::names_object(e.obj));
                Ok(i)
            },
            _ => Err(SysError::BadType),
        },
    }
}

/// Signal a notification.
pub fn sys_notif_signal(k: &mut Kernel, cpu: usize, notif_h: u64) -> (r: SyscallRet)
    requires
        old(k).wf(),
        old(k).in_process(cpu),
    ensures
        final(k).wf(),
        match notification(old(k).caller_table(cpu), notif_h as Handle, R_SIGNAL) {
            Err(e) => r == syscall::failed(e) && *final(k) == *old(k),
            Ok(idx) => {
                &&& r == syscall::succeeded(0)
                &&& *final(k) == (Kernel {
                    notifs: final(k).notifs,
                    ipc: final(k).ipc,
                    sched: final(k).sched,
                    ..*old(k)
                })
                &&& final(k).ipc.eps == old(k).ipc.eps
                &&& final(k).ipc.replies == old(k).ipc.replies
                &&& final(k).notifs.tick == old(k).notifs.tick
                &&& final(k).sched.cpus@ == old(k).sched.cpus@
                &&& notif::signalled(
                    old(k).notifs.pool@,
                    final(k).notifs.pool@,
                    old(k).ipc.slots.views(),
                    final(k).ipc.slots.views(),
                    old(k).sched.tcbs@,
                    final(k).sched.tcbs@,
                    idx as int,
                )
            },
        },
        r.rax == 0 ==> proc::holds(old(k).caller_table(cpu), notif_h as Handle, 1),
{
    let me: usize = syscall::caller(k, cpu);
    assert(k.procs.v@[me as int].wf());
    match notification_of(&k.procs.v[me], notif_h as Handle, R_SIGNAL) {
        Err(e) => SyscallRet::err(e),
        Ok(idx) => {
            notif::signal(&mut k.notifs, &mut k.ipc.slots, &mut k.sched, idx);
            proof {
                assert(k.ipc.wf(old(k).sched.tcbs@));
                ipc::lemma_wf_for_same_procs(k.ipc, old(k).sched.tcbs@, k.sched.tcbs@);
            }
            SyscallRet::ok()
        },
    }
}

/// Wait for a notification. A count that is latched is returned at once.
pub fn sys_notif_wait(k: &mut Kernel, cpu: usize, notif_h: u64) -> (out: Outcome)
    requires
        old(k).wf(),
        old(k).in_process(cpu),
    ensures
        final(k).wf(),
        match notification(old(k).caller_table(cpu), notif_h as Handle, R_WAIT) {
            Err(e) => out == syscall::outcome(syscall::failed(e)) && *final(k) == *old(k),
            Ok(idx) => {
                &&& *final(k) == (Kernel {
                    notifs: final(k).notifs,
                    sched: final(k).sched,
                    ..*old(k)
                })
                &&& notif::waits(
                    old(k).notifs,
                    final(k).notifs,
                    old(k).sched,
                    final(k).sched,
                    cpu,
                    idx as int,
                    out,
                )
            },
        },
        out == Outcome::Sleep ==> proc::holds(old(k).caller_table(cpu), notif_h as Handle, 2),
        out matches Outcome::Done(rax, _) && rax == 0 ==> proc::holds(old(k).caller_table(cpu), notif_h as Handle, 2),
{
    let me: usize = syscall::caller(k, cpu);
    assert(k.procs.v@[me as int].wf());
    match notification_of(&k.procs.v[me], notif_h as Handle, R_WAIT) {
        Err(e) => Outcome::Done(e.code(), 0),
        Ok(idx) => {
            let out = notif::wait(&mut k.notifs, &mut k.sched, cpu, idx);
            proof {
                ipc::lemma_wf_for_same_procs(k.ipc, old(k).sched.tcbs@, k.sched.tcbs@);
            }
            out
        },
    }
}

/// The line behind handle `h`, which must carry `rights`.
pub open spec fn irq_line(t: Table, h: Handle, rights: u32) -> Result<u8, SysError> {
    match proc::entry_with(t, h, ObjType::Irq, rights) {
        Err(e) => Err(e),
        Ok(e) => Ok(e.obj->Irq_0),
    }
}

fn irq_line_of(p: &Process, h: Handle, rights: u32) -> (r: Result<u8, SysError>)
    requires
        p.wf(),
    ensures
        r == irq_line(p.handles@, h, rights),
        r is Ok ==> r->Ok_0 < irq::NLINES,
{
    match p.lookup(h, ObjType::Irq, rights) {
        Err(e) => Err(e),
        Ok(e) => match e.obj {
            ObjectRef::Irq(i) => {
                assert(object::names_object(e.obj));
                Ok(i)
            },
            _ => Err(SysError::BadType),
        },
    }
}

/// Route an interrupt line to a notification, which the caller must be allowed to
/// signal. The line stays masked until it is acknowledged.
pub fn sys_irq_bind(k: &mut Kernel, cpu: usize, irq_h: u64, notif_h: u64) -> (r: SyscallRet)
    requires
        old(k).wf(),
        old(k).in_process(cpu),
    ensures
        final(k).wf(),
        ({
            let t = old(k).caller_table(cpu);
            match irq_line(t, irq_h as Handle, R_BIND) {
                Err(e) => r == syscall::failed(e) && *final(k) == *old(k),
                Ok(line) => match notification(t, notif_h as Handle, R_SIGNAL) {
                    Err(e) => r == syscall::failed(e) && *final(k) == *old(k),
                    Ok(n) => {
                        &&& r == syscall::succeeded(0)
                        &&& *final(k) == (Kernel { irqs: final(k).irqs, ..*old(k) })
                        &&& final(k).irqs.v@ == old(k).irqs.v@.update(line as int, Some(n))
                    },
                },
            }
        }),
        r.rax == 0 ==> proc::holds(old(k).caller_table(cpu), irq_h as Handle, 0x100000) && proc::holds(old(k).caller_table(cpu), notif_h as Handle, 1),
{
    let me: usize = syscall::caller(k, cpu);
    assert(k.procs.v@[me as int].wf());
    let line: u8 = match irq_line_of(&k.procs.v[me], irq_h as Handle, R_BIND) {
        Ok(l) => l,
        Err(e) => {
            return SyscallRet::err(e);
        },
    };
    let n: u8 = match notification_of(&k.procs.v[me], notif_h as Handle, R_SIGNAL) {
        Ok(n) => n,
        Err(e) => {
            return SyscallRet::err(e);
        },
    };
    irq::bind(&mut k.irqs, line, n);
    SyscallRet::ok()
}

/// Unmask a bound line for its next interrupt. `mask` is the interrupt controller's mask
/// register for the line; the new value is returned with the result.
pub fn sys_irq_ack(k: &Kernel, cpu: usize, irq_h: u64, mask: u8) -> (r: (SyscallRet, u8))
    requires
        k.wf(),
        k.in_process(cpu),
    ensures
        match irq_line(k.caller_table(cpu), irq_h as Handle, R_ACK) {
            Err(e) => r == (syscall::failed(e), mask),
            Ok(line) => if k.irqs.v@[line as int] is None {
                r == (syscall::failed(SysError::Msg), mask)
            } else {
                r == (syscall::succeeded(0), irq::unmasked(mask, (line % 8) as u8))
            },
        },
        r.0.rax == 0 ==> proc::holds(k.caller_table(cpu), irq_h as Handle, 0x200000),
{
    let me: usize = syscall::caller(k, cpu);
    assert(k.procs.v@[me as int].wf());
    match irq_line_of(&k.procs.v[me], irq_h as Handle, R_ACK) {
        Err(e) => (SyscallRet::err(e), mask),
        Ok(line) => {
            if !irq::is_bound(&k.irqs, line) {
                return (SyscallRet::err(SysError::Msg), mask);
            }
            (SyscallRet::ok(), irq::ack(line, mask))
        },
    }
}

} // verus!
