//! Synchronous message passing: blocking rendezvous over endpoints.
//!
//! A sender that comes first waits in the endpoint's queue; a receiver that comes first
//! waits as the endpoint's receiver. Whoever completes the exchange wakes the other. A
//! message for a blocked thread is parked in that thread's slot, and the thread copies
//! it to its own buffer when it resumes.
use vstd::prelude::*;
use crate::abi;
use crate::abi::{
    Handle, MsgBuf, MsgView, SysError, HANDLE_NULL, MSG_DATA_WORDS, MSG_HANDLES, RECV_NOTIF_FIRED,
    R_GRANT,
};
use crate::mm::mem;
use crate::notif;
use crate::notif::{Notifs, Outcome, POOL_SIZE};
use crate::object;
use crate::object::{HandleEntry, ObjectRef};
use crate::proc;
use crate::proc::{Procs, Table, MAX_PROCS};
use crate::ring::Ring;
use crate::shm;
use crate::shm::{Region, Regions};
use crate::thread;
use crate::thread::{Sched, State, Tcb, MAX_THREADS};

verus! {

pub const EP0: u8 = 0;
pub const EP1: u8 = 1;
pub const EP2: u8 = 2;
pub const EP3: u8 = 3;
pub const EP4: u8 = 4;

/// Endpoints in the pool.
pub const EP_POOL: usize = 8;

/// Pending replies in the pool.
pub const REPLY_POOL: usize = 8;

/// A meeting point of senders and one receiver.
pub struct Endpoint {
    pub in_use: bool,
    /// Senders waiting, the first to be served first.
    pub send_q: Ring<usize>,
    pub recv_waiter: Option<usize>,
}

/// The right to answer one caller. Handles to it carry the generation they were made
/// at; freeing the slot moves the generation on.
#[derive(Clone, Copy)]
pub struct Reply {
    pub in_use: bool,
    pub caller_tid: usize,
    pub gen: u32,
}

/// What the kernel keeps for a thread that is part of a message exchange.
#[derive(Clone, Copy)]
pub struct IpcSlot {
    /// The message on its way from or to the thread.
    pub staging: MsgBuf,
    /// The capabilities that ride with it, as they were when it was sent.
    pub staged_entries: [Option<HandleEntry>; MSG_HANDLES],
    /// The thread's own message buffer.
    pub msg_uptr: u64,
    /// The queued send expects a reply.
    pub is_call: bool,
    /// On resuming, the staged message goes to the thread's buffer.
    pub copy_out: bool,
    pub ret_rax: u64,
    pub ret_rdx: u64,
}

/// One slot per thread.
pub struct Slots {
    pub v: Vec<IpcSlot>,
}

/// An endpoint as a mathematical value.
#[verifier::ext_equal]
pub struct EpView {
    pub in_use: bool,
    pub queue: Seq<usize>,
    pub waiter: Option<usize>,
}

/// A slot as a mathematical value.
#[verifier::ext_equal]
pub struct SlotView {
    pub staging: MsgView,
    pub entries: Seq<Option<HandleEntry>>,
    pub msg_uptr: u64,
    pub is_call: bool,
    pub copy_out: bool,
    pub ret_rax: u64,
    pub ret_rdx: u64,
}

impl Endpoint {
    pub open spec fn view(&self) -> EpView {
        EpView { in_use: self.in_use, queue: self.send_q@, waiter: self.recv_waiter }
    }
}

impl IpcSlot {
    pub open spec fn view(&self) -> SlotView {
        SlotView {
            staging: self.staging@,
            entries: self.staged_entries@,
            msg_uptr: self.msg_uptr,
            is_call: self.is_call,
            copy_out: self.copy_out,
            ret_rax: self.ret_rax,
            ret_rdx: self.ret_rdx,
        }
    }

    /// The parked message is within limits and its capabilities name objects that exist.
    pub open spec fn wf(&self) -> bool {
        &&& self.staging@.within_limits()
        &&& proc::table_ok(self.staged_entries@)
    }
}

impl Slots {
    pub open spec fn wf(&self) -> bool {
        &&& self.v@.len() == MAX_THREADS
        &&& forall|i: int| 0 <= i < MAX_THREADS ==> (#[trigger] self.v@[i]).wf()
    }

    pub open spec fn views(&self) -> Seq<SlotView> {
        Seq::new(self.v@.len(), |i: int| self.v@[i]@)
    }

    /// Slots of threads that exchange nothing.
    pub fn new() -> (s: Self)
        ensures
            s.wf(),
            forall|i: int| 0 <= i < MAX_THREADS ==> !(#[trigger] s.v@[i]).copy_out,
    {
        let mut v: Vec<IpcSlot> = Vec::new();
        let mut i: usize = 0;
        while i < MAX_THREADS
            invariant
                i <= MAX_THREADS,
                v@.len() == i,
                forall|k: int| 0 <= k < i ==> (#[trigger] v@[k]).wf() && !v@[k].copy_out,
            decreases MAX_THREADS - i,
        {
            v.push(
                IpcSlot {
                    staging: MsgBuf::new(0),
                    staged_entries: [None; MSG_HANDLES],
                    msg_uptr: 0,
                    is_call: false,
                    copy_out: false,
                    ret_rax: 0,
                    ret_rdx: 0,
                },
            );
            i += 1;
        }
        Slots { v }
    }
}

/// Slot `i` is now `e`, and nothing else changed.
pub open spec fn slot_becomes(a: Slots, b: Slots, i: int, e: IpcSlot) -> bool {
    b.v@ =~= a.v@.update(i, e)
}

/// Thread `i` will return `rax` and `rdx`, its buffer untouched.
pub open spec fn ret_deposited(a: Slots, b: Slots, i: int, rax: u64, rdx: u64) -> bool {
    slot_becomes(a, b, i, IpcSlot { copy_out: false, ret_rax: rax, ret_rdx: rdx, ..a.v@[i] })
}

/// Leave a result for a blocked thread.
pub fn deposit_ret(slots: &mut Slots, tid: usize, rax: u64, rdx: u64)
    requires
        old(slots).wf(),
        tid < MAX_THREADS,
    ensures
        final(slots).wf(),
        ret_deposited(*old(slots), *final(slots), tid as int, rax, rdx),
        final(slots).views() == old(slots).views().update(
            tid as int,
            answered(old(slots).views()[tid as int], rax, rdx),
        ),
{
    slots.v[tid].copy_out = false;
    slots.v[tid].ret_rax = rax;
    slots.v[tid].ret_rdx = rdx;
    assert(slots.views() =~= old(slots).views().update(
        tid as int,
        answered(old(slots).views()[tid as int], rax, rdx),
    ));
}

/// The result left for a thread.
pub fn take_ret(slots: &Slots, tid: usize) -> (r: (u64, u64))
    requires
        slots.wf(),
        tid < MAX_THREADS,
    ensures
        r == (slots.v@[tid as int].ret_rax, slots.v@[tid as int].ret_rdx),
{
    (slots.v[tid].ret_rax, slots.v[tid].ret_rdx)
}

/// The endpoints, the pending replies, and the threads' slots.
pub struct Ipc {
    pub eps: Vec<Endpoint>,
    pub replies: Vec<Reply>,
    pub slots: Slots,
}

/// Thread `t` can be the other side of an exchange: it exists and belongs to a process.
pub open spec fn peer_ok(tcbs: Seq<Tcb>, t: usize) -> bool {
    t < MAX_THREADS && tcbs[t as int].proc < MAX_PROCS
}

/// Every thread an endpoint names can be the other side of an exchange, and none is queued
/// twice.
pub open spec fn ep_ok(ep: EpView, tcbs: Seq<Tcb>) -> bool {
    &&& ep.queue.len() <= MAX_THREADS
    &&& ep.queue.no_duplicates()
    &&& forall|i: int| 0 <= i < ep.queue.len() ==> peer_ok(tcbs, #[trigger] ep.queue[i])
    &&& ep.waiter is Some ==> peer_ok(tcbs, ep.waiter->0)
}

/// A pending reply answers a thread that exists.
pub open spec fn reply_ok(r: Reply, tcbs: Seq<Tcb>) -> bool {
    r.in_use ==> peer_ok(tcbs, r.caller_tid)
}

impl Ipc {
    pub open spec fn wf(&self, tcbs: Seq<Tcb>) -> bool {
        &&& self.slots.wf()
        &&& self.eps@.len() == EP_POOL
        &&& self.replies@.len() == REPLY_POOL
        &&& forall|i: int|
            0 <= i < EP_POOL ==> {
                &&& (#[trigger] self.eps@[i]).send_q.wf()
                &&& self.eps@[i].send_q.cap() == MAX_THREADS
                &&& ep_ok(self.eps@[i]@, tcbs)
            }
        &&& forall|i: int| 0 <= i < REPLY_POOL ==> reply_ok(#[trigger] self.replies@[i], tcbs)
    }

    pub open spec fn ep_views(&self) -> Seq<EpView> {
        Seq::new(self.eps@.len(), |i: int| self.eps@[i]@)
    }
}

/// Everything an exchange can change.
#[verifier::ext_equal]
pub struct World {
    pub eps: Seq<EpView>,
    pub replies: Seq<Reply>,
    pub slots: Seq<SlotView>,
    pub tables: Seq<Table>,
    pub regions: Seq<Region>,
    pub tcbs: Seq<Tcb>,
}

/// The state of the kernel as far as an exchange is concerned.
pub open spec fn world(ipc: Ipc, procs: Procs, regions: Regions, s: Sched) -> World {
    World {
        eps: ipc.ep_views(),
        replies: ipc.replies@,
        slots: ipc.slots.views(),
        tables: procs.tables(),
        regions: regions.v@,
        tcbs: s.tcbs@,
    }
}

/// Every part of the state is well-formed.
pub open spec fn world_ok(ipc: Ipc, procs: Procs, regions: Regions, s: Sched) -> bool {
    &&& ipc.wf(s.tcbs@)
    &&& procs.wf()
    &&& regions.wf()
    &&& s.wf()
}

/// An exchange leaves everything alone that is not part of the [`World`].
pub open spec fn rest_unchanged(pa: Procs, pb: Procs, sa: Sched, sb: Sched) -> bool {
    &&& pb.v@.len() == pa.v@.len()
    &&& forall|i: int|
        0 <= i < pa.v@.len() ==> proc::same_but_handles(pa.v@[i], #[trigger] pb.v@[i])
    &&& sb.cpus@ =~= sa.cpus@
}

/// A slot whose thread will return `rax` and `rdx`, its buffer untouched.
pub open spec fn answered(e: SlotView, rax: u64, rdx: u64) -> SlotView {
    SlotView { copy_out: false, ret_rax: rax, ret_rdx: rdx, ..e }
}

/// The regions after a handle was installed: a region counts its handles.
pub open spec fn handle_noted(regions: Seq<Region>, e: HandleEntry) -> Seq<Region> {
    match e.obj {
        ObjectRef::Shm(i) => regions.update(i as int, shm::referenced(regions[i as int])),
        _ => regions,
    }
}

/// Count a handle that was installed.
pub fn note_handle(regions: &mut Regions, e: &HandleEntry)
    requires
        old(regions).wf(),
        object::names_object(e.obj),
    ensures
        final(regions).wf(),
        final(regions).v@ == handle_noted(old(regions).v@, *e),
{
    if let ObjectRef::Shm(i) = e.obj {
        shm::incref(regions, i);
        assert(regions.v@ =~= handle_noted(old(regions).v@, *e));
    }
}

/// Why the first `n` handles cannot be sent from table `t`, from handle `i` on: one is
/// bad, or lacks the right to be granted.
pub open spec fn grant_error(t: Table, handles: Seq<Handle>, i: int, n: int) -> Option<SysError>
    decreases n - i,
{
    if i >= n {
        None
    } else {
        match proc::entry_of(t, handles[i]) {
            Err(e) => Some(e),
            Ok(e) => if e.rights & R_GRANT == 0 {
                Some(SysError::Rights)
            } else {
                grant_error(t, handles, i + 1, n)
            },
        }
    }
}

/// The entries behind the first `n` handles of a message, `None` in the places beyond.
pub open spec fn frozen(t: Table, handles: Seq<Handle>, n: int) -> Seq<Option<HandleEntry>> {
    Seq::new(
        MSG_HANDLES as nat,
        |i: int|
            if i < n {
                t[handles[i] as int]
            } else {
                None
            },
    )
}

/// Look up the entries a message grants; each must carry the right to be granted.
pub fn stage_entries(t: &proc::Process, msg: &MsgBuf) -> (r: Result<
    [Option<HandleEntry>; MSG_HANDLES],
    SysError,
>)
    requires
        t.wf(),
        msg@.within_limits(),
    ensures
        match r {
            Ok(es) => {
                &&& grant_error(t.handles@, msg.handles@, 0, msg.handle_count as int) is None
                &&& es@ == frozen(t.handles@, msg.handles@, msg.handle_count as int)
                &&& proc::table_ok(es@)
            },
            Err(e) => grant_error(t.handles@, msg.handles@, 0, msg.handle_count as int) == Some(e),
        },
{
    let n: usize = msg.handle_count as usize;
    let mut es: [Option<HandleEntry>; MSG_HANDLES] = [None; MSG_HANDLES];
    let mut i: usize = 0;
    while i < n
        invariant
            n == msg.handle_count,
            n <= MSG_HANDLES,
            t.wf(),
            i <= n,
            grant_error(t.handles@, msg.handles@, 0, n as int) == grant_error(
                t.handles@,
                msg.handles@,
                i as int,
                n as int,
            ),
            forall|k: int|
                0 <= k < i ==> #[trigger] es@[k] == t.handles@[msg.handles@[k] as int]
                    && msg.handles@[k] < t.handles@.len(),
            forall|k: int| i <= k < MSG_HANDLES ==> (#[trigger] es@[k]) is None,
        decreases n - i,
    {
        match t.get(msg.handles[i]) {
            Ok(e) => {
                if e.rights & R_GRANT == 0 {
                    return Err(SysError::Rights);
                }
                es[i] = Some(e);
            },
            Err(e) => {
                return Err(e);
            },
        }
        i += 1;
    }
    assert(es@ =~= frozen(t.handles@, msg.handles@, n as int));
    Ok(es)
}

/// How far a transfer of capabilities came.
#[verifier::ext_equal]
pub struct Transfer {
    pub tables: Seq<Table>,
    pub regions: Seq<Region>,
    pub handles: Seq<Handle>,
    pub err: Option<SysError>,
}

/// Move the frozen entries `i .. n` from process `src` to process `dst`. The sender must
/// still hold the same object behind each handle; the receiver gets the entry as it was
/// frozen. The handles become the receiver's.
pub open spec fn transfer(
    tables: Seq<Table>,
    regions: Seq<Region>,
    src: int,
    dst: int,
    entries: Seq<Option<HandleEntry>>,
    handles: Seq<Handle>,
    i: int,
    n: int,
) -> Transfer
    decreases n - i,
{
    if i >= n {
        Transfer { tables, regions, handles, err: None }
    } else if entries[i] is None || !still_held(tables[src], handles[i], entries[i]->0) {
        Transfer { tables, regions, handles, err: Some(SysError::BadHandle) }
    } else if proc::full(tables[dst]) {
        Transfer { tables, regions, handles, err: Some(SysError::NoSlots) }
    } else {
        let e = entries[i]->0;
        let h = proc::next_slot(tables[dst]);
        transfer(
            tables.update(dst, tables[dst].update(h, Some(e))),
            handle_noted(regions, e),
            src,
            dst,
            entries,
            handles.update(i, h as u32),
            i + 1,
            n,
        )
    }
}

/// Handle `h` still leads to the object of `e`.
pub open spec fn still_held(t: Table, h: Handle, e: HandleEntry) -> bool {
    match proc::entry_of(t, h) {
        Ok(x) => x.obj == e.obj,
        Err(_) => false,
    }
}

/// Move the capabilities parked in the slot of thread `tid` from process `src` to `dst`.
fn transfer_into(
    slots: &mut Slots,
    procs: &mut Procs,
    regions: &mut Regions,
    src: usize,
    dst: usize,
    tid: usize,
) -> (r: Result<(), SysError>)
    requires
        old(slots).wf(),
        old(procs).wf(),
        old(regions).wf(),
        src < MAX_PROCS,
        dst < MAX_PROCS,
        tid < MAX_THREADS,
    ensures
        final(slots).wf(),
        final(procs).wf(),
        final(regions).wf(),
        ({
            let e = old(slots).views()[tid as int];
            let t = transfer(
                old(procs).tables(),
                old(regions).v@,
                src as int,
                dst as int,
                e.entries,
                e.staging.handles,
                0,
                e.staging.handle_count as int,
            );
            &&& r == (match t.err {
                Some(x) => Err::<(), SysError>(x),
                None => Ok(()),
            })
            &&& final(procs).tables() == t.tables
            &&& final(regions).v@ == t.regions
            &&& final(slots).views() == old(slots).views().update(
                tid as int,
                SlotView { staging: MsgView { handles: t.handles, ..e.staging }, ..e },
            )
            &&& final(procs).v@.len() == old(procs).v@.len()
            &&& forall|i: int|
                0 <= i < MAX_PROCS ==> proc::same_but_handles(
                    old(procs).v@[i],
                    #[trigger] final(procs).v@[i],
                )
        }),
{
    let n: usize = slots.v[tid].staging.handle_count as usize;
    let ghost e0 = slots.views()[tid as int];
    let ghost goal = transfer(
        procs.tables(),
        regions.v@,
        src as int,
        dst as int,
        e0.entries,
        e0.staging.handles,
        0,
        n as int,
    );
    assert(slots.v@[tid as int].wf());
    let mut i: usize = 0;
    assert(slots.views() =~= slots.views().update(
        tid as int,
        SlotView { staging: MsgView { handles: e0.staging.handles, ..e0.staging }, ..e0 },
    ));
    while i < n
        invariant
            slots.wf(),
            procs.wf(),
            regions.wf(),
            old(slots).wf(),
            old(procs).wf(),
            src < MAX_PROCS,
            dst < MAX_PROCS,
            tid < MAX_THREADS,
            i <= n,
            n <= MSG_HANDLES,
            e0 == old(slots).views()[tid as int],
            n == e0.staging.handle_count,
            slots.v@[tid as int].staged_entries@ == e0.entries,
            goal == transfer(
                old(procs).tables(),
                old(regions).v@,
                src as int,
                dst as int,
                e0.entries,
                e0.staging.handles,
                0,
                n as int,
            ),
            goal == transfer(
                procs.tables(),
                regions.v@,
                src as int,
                dst as int,
                e0.entries,
                slots.v@[tid as int].staging.handles@,
                i as int,
                n as int,
            ),
            slots.views() == old(slots).views().update(
                tid as int,
                SlotView {
                    staging: MsgView {
                        handles: slots.v@[tid as int].staging.handles@,
                        ..e0.staging
                    },
                    ..e0
                },
            ),
            procs.v@.len() == old(procs).v@.len(),
            forall|k: int|
                0 <= k < MAX_PROCS ==> proc::same_but_handles(
                    old(procs).v@[k],
                    #[trigger] procs.v@[k],
                ),
        decreases n - i,
    {
        let snap = match slots.v[tid].staged_entries[i] {
            Some(e) => e,
            None => {
                return Err(SysError::BadHandle);
            },
        };
        let src_h: Handle = slots.v[tid].staging.handles[i];
        assert(procs.tables()[src as int] == procs.v@[src as int].handles@);
        assert(procs.tables()[dst as int] == procs.v@[dst as int].handles@);
        let same = match procs.v[src].get(src_h) {
            Ok(e) => e.obj == snap.obj,
            Err(_) => false,
        };
        if !same {
            return Err(SysError::BadHandle);
        }
        assert(slots.v@[tid as int].wf());
        assert(object::names_object(snap.obj));
        let ghost tables0 = procs.tables();
        let ghost procs0 = procs.v@;
        match procs.v[dst].alloc_slot(snap) {
            Ok(h) => {
                note_handle(regions, &snap);
                let ghost views0 = slots.views();
                let ghost before = slots.v@[tid as int];
                let ghost hs = before.staging.handles@;
                assert(views0[tid as int] == before@);
                slots.v[tid].staging.handles[i] = h;
                proof {
                    assert(procs.tables() =~= tables0.update(
                        dst as int,
                        tables0[dst as int].update(h as int, Some(snap)),
                    ));
                    assert(slots.v@[tid as int].staging.handles@ =~= hs.update(i as int, h));
                    assert(slots.v@[tid as int]@ =~= (SlotView {
                        staging: MsgView {
                            handles: slots.v@[tid as int].staging.handles@,
                            ..before@.staging
                        },
                        ..before@
                    }));
                    assert(slots.views() =~= views0.update(tid as int, slots.v@[tid as int]@));
                    assert(slots.views() =~= old(slots).views().update(
                        tid as int,
                        SlotView {
                            staging: MsgView {
                                handles: slots.v@[tid as int].staging.handles@,
                                ..e0.staging
                            },
                            ..e0
                        },
                    ));
                }
            },
            Err(e) => {
                assert(procs.tables() =~= tables0);
                return Err(e);
            },
        }
        i += 1;
    }
    Ok(())
}

/// The lowest free reply from `i` up.
pub open spec fn free_reply_from(v: Seq<Reply>, i: int) -> int
    decreases v.len() - i,
{
    if i >= v.len() || !v[i].in_use {
        i
    } else {
        free_reply_from(v, i + 1)
    }
}

/// A reply slot after it was freed: its generation has moved on.
pub open spec fn reply_freed(r: Reply) -> Reply {
    Reply { in_use: false, gen: mem::next_gen(r.gen), ..r }
}

/// Reply `r` is pending and of generation `gen`.
pub open spec fn pending(r: Reply, gen: u64) -> bool {
    r.in_use && r.gen == gen
}

/// Take the lowest free reply for `caller`; its generation stays.
fn alloc_reply(replies: &mut Vec<Reply>, caller_tid: usize) -> (r: Option<(usize, u32)>)
    requires
        old(replies)@.len() == REPLY_POOL,
    ensures
        final(replies)@.len() == REPLY_POOL,
        ({
            let i = free_reply_from(old(replies)@, 0);
            match r {
                Some((k, gen)) => {
                    &&& k == i
                    &&& i < REPLY_POOL
                    &&& gen == old(replies)@[i].gen
                    &&& final(replies)@ == old(replies)@.update(
                        i,
                        Reply { in_use: true, caller_tid, gen },
                    )
                },
                None => i >= REPLY_POOL && final(replies)@ == old(replies)@,
            }
        }),
{
    let mut i: usize = 0;
    while i < REPLY_POOL
        invariant
            replies@ == old(replies)@,
            replies@.len() == REPLY_POOL,
            i <= REPLY_POOL,
            free_reply_from(replies@, 0) == free_reply_from(replies@, i as int),
        decreases REPLY_POOL - i,
    {
        if !replies[i].in_use {
            let gen: u32 = replies[i].gen;
            replies[i] = Reply { in_use: true, caller_tid, gen };
            return Some((i, gen));
        }
        i += 1;
    }
    None
}

/// Free a reply slot; handles to it become stale.
fn free_reply(replies: &mut Vec<Reply>, idx: usize)
    requires
        old(replies)@.len() == REPLY_POOL,
        idx < REPLY_POOL,
    ensures
        final(replies)@ == old(replies)@.update(idx as int, reply_freed(old(replies)@[idx as int])),
{
    let gen: u32 = replies[idx].gen;
    let caller_tid: usize = replies[idx].caller_tid;
    replies[idx] = Reply { in_use: false, caller_tid, gen: gen.wrapping_add(1) };
    assert(replies@ =~= old(replies)@.update(
        idx as int,
        reply_freed(old(replies)@[idx as int]),
    ));
}

/// Whether reply `idx` is pending and of generation `gen`.
pub fn reply_gen_ok(ipc: &Ipc, idx: usize, gen: u32) -> (b: bool)
    requires
        ipc.replies@.len() == REPLY_POOL,
    ensures
        b == (idx < REPLY_POOL && pending(ipc.replies@[idx as int], gen as u64)),
{
    if idx >= REPLY_POOL {
        return false;
    }
    ipc.replies[idx].in_use && ipc.replies[idx].gen == gen
}

/// A handle to a reply that was given or abandoned matches nothing any more: not the
/// freed slot, nor the slot when the next caller has it.
pub proof fn law_used_reply_is_stale(r: Reply, next_caller: usize)
    ensures
        !pending(reply_freed(r), r.gen as u64),
        !pending(
            Reply { in_use: true, caller_tid: next_caller, gen: reply_freed(r).gen },
            r.gen as u64,
        ),
{
}

/// The outcome of minting a reply.
#[verifier::ext_equal]
pub struct Mint {
    pub replies: Seq<Reply>,
    pub tables: Seq<Table>,
    pub handle: Result<Handle, SysError>,
}

/// Mint the right to answer `caller` and give it to process `to`, with no other rights
/// and the generation of its slot. If the process has no room the slot is freed again.
pub open spec fn mint(replies: Seq<Reply>, tables: Seq<Table>, caller: usize, to: int) -> Mint {
    let i = free_reply_from(replies, 0);
    if i >= replies.len() {
        Mint { replies, tables, handle: Err(SysError::NoMem) }
    } else if proc::full(tables[to]) {
        Mint {
            replies: replies.update(
                i,
                reply_freed(Reply { in_use: true, caller_tid: caller, gen: replies[i].gen }),
            ),
            tables,
            handle: Err(SysError::NoSlots),
        }
    } else {
        let h = proc::next_slot(tables[to]);
        Mint {
            replies: replies.update(
                i,
                Reply { in_use: true, caller_tid: caller, gen: replies[i].gen },
            ),
            tables: tables.update(
                to,
                tables[to].update(
                    h,
                    Some(
                        HandleEntry {
                            obj: ObjectRef::Reply(i as u8),
                            rights: 0,
                            badge: replies[i].gen as u64,
                        },
                    ),
                ),
            ),
            handle: Ok(h as u32),
        }
    }
}

/// Mint a reply for `caller` into process `to`.
fn mint_reply(replies: &mut Vec<Reply>, procs: &mut Procs, caller: usize, to: usize) -> (r: Result<
    Handle,
    SysError,
>)
    requires
        old(replies)@.len() == REPLY_POOL,
        old(procs).wf(),
        to < MAX_PROCS,
    ensures
        final(procs).wf(),
        ({
            let m = mint(old(replies)@, old(procs).tables(), caller, to as int);
            &&& final(replies)@ == m.replies
            &&& final(procs).tables() == m.tables
            &&& r == m.handle
        }),
        final(procs).v@.len() == old(procs).v@.len(),
        forall|i: int|
            0 <= i < MAX_PROCS ==> proc::same_but_handles(
                old(procs).v@[i],
                #[trigger] final(procs).v@[i],
            ),
        final(replies)@.len() == REPLY_POOL,
        forall|i: int|
            0 <= i < REPLY_POOL ==> {
                ||| (#[trigger] final(replies)@[i]) == old(replies)@[i]
                ||| final(replies)@[i].caller_tid == caller
            },
{
    let (idx, gen) = match alloc_reply(replies, caller) {
        Some(x) => x,
        None => {
            return Err(SysError::NoMem);
        },
    };
    let entry = HandleEntry { obj: ObjectRef::Reply(idx as u8), rights: 0, badge: gen as u64 };
    let ghost tables0 = procs.tables();
    assert(tables0[to as int] == procs.v@[to as int].handles@);
    match procs.v[to].alloc_slot(entry) {
        Ok(h) => {
            assert(procs.tables() =~= tables0.update(
                to as int,
                tables0[to as int].update(h as int, Some(entry)),
            ));
            Ok(h)
        },
        Err(e) => {
            free_reply(replies, idx);
            proof {
                assert(procs.tables() =~= tables0);
                let i = free_reply_from(old(replies)@, 0);
                assert(replies@ =~= old(replies)@.update(
                    i,
                    reply_freed(Reply { in_use: true, caller_tid: caller, gen: old(replies)@[i].gen }),
                ));
            }
            Err(e)
        },
    }
}

/// The endpoints, replies and slots at boot: the five service endpoints exist.
pub fn init() -> (ipc: Ipc)
    ensures
        forall|tcbs: Seq<Tcb>| #[trigger] ipc.wf(tcbs),
        ipc.ep_views() == Seq::new(
            EP_POOL as nat,
            |i: int| EpView { in_use: i <= EP4, queue: Seq::empty(), waiter: None },
        ),
        forall|i: int|
            0 <= i < REPLY_POOL ==> #[trigger] ipc.replies@[i] == (Reply {
                in_use: false,
                caller_tid: 0,
                gen: 0,
            }),
{
    let mut eps: Vec<Endpoint> = Vec::new();
    let mut i: usize = 0;
    while i < EP_POOL
        invariant
            i <= EP_POOL,
            eps@.len() == i,
            forall|k: int|
                0 <= k < i ==> {
                    &&& (#[trigger] eps@[k]).send_q.wf()
                    &&& eps@[k].send_q.cap() == MAX_THREADS
                    &&& eps@[k]@ == (EpView {
                        in_use: k <= EP4,
                        queue: Seq::empty(),
                        waiter: None,
                    })
                },
        decreases EP_POOL - i,
    {
        eps.push(
            Endpoint {
                in_use: i <= EP4 as usize,
                send_q: Ring::new(MAX_THREADS, 0usize),
                recv_waiter: None,
            },
        );
        i += 1;
    }
    let mut replies: Vec<Reply> = Vec::new();
    let mut j: usize = 0;
    while j < REPLY_POOL
        invariant
            j <= REPLY_POOL,
            replies@.len() == j,
            forall|k: int|
                0 <= k < j ==> #[trigger] replies@[k] == (Reply {
                    in_use: false,
                    caller_tid: 0,
                    gen: 0,
                }),
        decreases REPLY_POOL - j,
    {
        replies.push(Reply { in_use: false, caller_tid: 0, gen: 0 });
        j += 1;
    }
    let ipc = Ipc { eps, replies, slots: Slots::new() };
    assert(ipc.ep_views() =~= Seq::new(
        EP_POOL as nat,
        |i: int| EpView { in_use: i <= EP4, queue: Seq::empty(), waiter: None },
    ));
    ipc
}

/// The lowest unused endpoint from `i` up.
pub open spec fn free_ep_from(v: Seq<EpView>, i: int) -> int
    decreases v.len() - i,
{
    if i >= v.len() || !v[i].in_use {
        i
    } else {
        free_ep_from(v, i + 1)
    }
}

/// Make the lowest unused endpoint a fresh one.
pub fn ep_create(ipc: &mut Ipc, s: &Sched) -> (r: Option<u8>)
    requires
        old(ipc).wf(s.tcbs@),
    ensures
        final(ipc).wf(s.tcbs@),
        final(ipc).replies == old(ipc).replies,
        final(ipc).slots == old(ipc).slots,
        ({
            let i = free_ep_from(old(ipc).ep_views(), 0);
            match r {
                Some(k) => {
                    &&& k == i
                    &&& i < EP_POOL
                    &&& final(ipc).ep_views() == old(ipc).ep_views().update(
                        i,
                        EpView { in_use: true, queue: Seq::empty(), waiter: None },
                    )
                },
                None => i >= EP_POOL && *final(ipc) == *old(ipc),
            }
        }),
{
    let mut i: usize = 0;
    while i < EP_POOL
        invariant
            *ipc == *old(ipc),
            ipc.wf(s.tcbs@),
            i <= EP_POOL,
            free_ep_from(ipc.ep_views(), 0) == free_ep_from(ipc.ep_views(), i as int),
        decreases EP_POOL - i,
    {
        assert(ipc.ep_views()[i as int] == ipc.eps@[i as int]@);
        if !ipc.eps[i].in_use {
            ipc.eps[i] =
            Endpoint { in_use: true, send_q: Ring::new(MAX_THREADS, 0usize), recv_waiter: None };
            assert(ipc.ep_views() =~= old(ipc).ep_views().update(
                i as int,
                EpView { in_use: true, queue: Seq::empty(), waiter: None },
            ));
            return Some(i as u8);
        }
        i += 1;
    }
    None
}

/// A thread that is told of a failure and woken.
pub open spec fn refused(w: World, tid: int, e: SysError) -> World {
    World {
        slots: w.slots.update(tid, answered(w.slots[tid], abi::error_code(e), 0)),
        tcbs: w.tcbs.update(tid, thread::woken(w.tcbs[tid])),
        ..w
    }
}

/// A message handed to a receiver that waits. If the capabilities cannot be moved or a
/// reply not be minted the receiver goes on waiting.
pub open spec fn delivered(
    w: World,
    me: int,
    ep: int,
    r: int,
    msg: MsgView,
    entries: Seq<Option<HandleEntry>>,
    uptr: u64,
    is_call: bool,
) -> (World, Outcome) {
    let src = w.tcbs[me].proc as int;
    let dst = w.tcbs[r].proc as int;
    let t = transfer(
        w.tables,
        w.regions,
        src,
        dst,
        entries,
        msg.handles,
        0,
        msg.handle_count as int,
    );
    let parked = SlotView {
        staging: MsgView { handles: t.handles, ..msg },
        entries,
        ..w.slots[r]
    };
    let w1 = World {
        tables: t.tables,
        regions: t.regions,
        slots: w.slots.update(r, parked),
        ..w
    };
    match t.err {
        Some(e) => (w1, Outcome::Done(abi::error_code(e), 0)),
        None => if is_call {
            let m = mint(w1.replies, w1.tables, me as usize, dst);
            let w2 = World { replies: m.replies, tables: m.tables, ..w1 };
            match m.handle {
                Err(e) => (w2, Outcome::Done(abi::error_code(e), 0)),
                Ok(h) => {
                    let given = w2.slots.update(
                        r,
                        SlotView { copy_out: true, ret_rax: 0, ret_rdx: h as u64, ..parked },
                    );
                    let blocked = thread::state_set(w.tcbs, me, State::Blocked);
                    (
                        World {
                            eps: w.eps.update(ep, EpView { waiter: None, ..w.eps[ep] }),
                            slots: given.update(me, SlotView { msg_uptr: uptr, ..given[me] }),
                            tcbs: blocked.update(r, thread::woken(blocked[r])),
                            ..w2
                        },
                        Outcome::Sleep,
                    )
                },
            }
        } else {
            (
                World {
                    eps: w.eps.update(ep, EpView { waiter: None, ..w.eps[ep] }),
                    slots: w1.slots.update(
                        r,
                        SlotView { copy_out: true, ret_rax: 0, ret_rdx: 0, ..parked },
                    ),
                    tcbs: w.tcbs.update(r, thread::woken(w.tcbs[r])),
                    ..w1
                },
                Outcome::Done(0, 0),
            )
        },
    }
}

/// A queue without thread `t`, the others in the order they had.
pub open spec fn left(q: Seq<usize>, t: usize) -> Seq<usize>
    decreases q.len(),
{
    if q.len() == 0 {
        q
    } else {
        let rest = left(q.drop_last(), t);
        if q.last() == t {
            rest
        } else {
            rest.push(q.last())
        }
    }
}

/// Leaving takes exactly that thread off, and does nothing to a queue it is not in.
pub proof fn law_leaving_is_exact(q: Seq<usize>, t: usize)
    ensures
        left(q, t).len() <= q.len(),
        forall|i: int|
            0 <= i < left(q, t).len() ==> (#[trigger] left(q, t)[i]) != t && q.contains(
                left(q, t)[i],
            ),
        q.no_duplicates() ==> left(q, t).no_duplicates(),
        !q.contains(t) ==> left(q, t) == q,
    decreases q.len(),
{
    if q.len() > 0 {
        let p = q.drop_last();
        law_leaving_is_exact(p, t);
        let r = left(q, t);
        assert forall|i: int| 0 <= i < r.len() implies (#[trigger] r[i]) != t && q.contains(
            r[i],
        ) by {
            if i < left(p, t).len() {
                assert(p.contains(left(p, t)[i]));
                let k = p.index_of(left(p, t)[i]);
                assert(q[k] == r[i]);
            } else {
                assert(q[q.len() - 1] == r[i]);
            }
        }
        if q.no_duplicates() {
            assert(p.no_duplicates());
            assert forall|i: int, j: int| 0 <= i < r.len() && 0 <= j < r.len() && i != j implies
                r[i] != r[j] by {
                let m = left(p, t);
                if i >= m.len() || j >= m.len() {
                    let k = if i < m.len() {
                        i
                    } else {
                        j
                    };
                    assert(p.contains(m[k]));
                    let at = p.index_of(m[k]);
                    assert(q[at] == m[k] && at < q.len() - 1);
                }
            }
        }
        if !q.contains(t) {
            assert(!p.contains(t)) by {
                if p.contains(t) {
                    assert(q[p.index_of(t)] == t);
                }
            }
            assert(q[q.len() - 1] != t);
            assert(r =~= q);
        }
    }
}

/// Take `t` off a queue of senders.
fn leave(q: &mut Ring<usize>, t: usize)
    requires
        old(q).wf(),
    ensures
        final(q).wf(),
        final(q).cap() == old(q).cap(),
        final(q)@ == left(old(q)@, t),
{
    let n: usize = q.len;
    let ghost all = q@;
    let mut i: usize = 0;
    assert(q@ =~= all.subrange(0, n as int) + left(all.subrange(0, 0), t));
    while i < n
        invariant
            q.wf(),
            q.cap() == old(q).cap(),
            i <= n == all.len(),
            q@ == all.subrange(i as int, n as int) + left(all.subrange(0, i as int), t),
            left(all.subrange(0, i as int), t).len() <= i,
            all.len() <= q.cap(),
        decreases n - i,
    {
        let ghost part = all.subrange(0, i + 1);
        proof {
            law_leaving_is_exact(part, t);
            assert(part.drop_last() =~= all.subrange(0, i as int));
            assert(q@[0] == all[i as int]);
        }
        let x: usize = q.pop();
        assert(q@ =~= all.subrange(i + 1, n as int) + left(all.subrange(0, i as int), t));
        if x != t {
            q.push(x);
        }
        assert(q@ =~= all.subrange(i + 1, n as int) + left(part, t));
        i += 1;
    }
    assert(all.subrange(0, n as int) =~= all);
    assert(q@ =~= left(all, t));
}

/// A message parked with its sender, who joins the end of the endpoint's queue and sleeps.
/// A thread stands in a queue once: should it still be there, it leaves that place.
pub open spec fn queued(
    w: World,
    me: int,
    ep: int,
    msg: MsgView,
    entries: Seq<Option<HandleEntry>>,
    uptr: u64,
    is_call: bool,
) -> World {
    World {
        eps: w.eps.update(
            ep,
            EpView { queue: left(w.eps[ep].queue, me as usize).push(me as usize), ..w.eps[ep] },
        ),
        slots: w.slots.update(
            me,
            SlotView {
                staging: msg,
                entries,
                msg_uptr: uptr,
                is_call,
                copy_out: false,
                ..w.slots[me]
            },
        ),
        tcbs: thread::state_set(w.tcbs, me, State::Blocked),
        ..w
    }
}

/// What a send (or, if `is_call`, a call) by thread `me` on endpoint `ep` comes to.
pub open spec fn sent(
    w: World,
    me: int,
    ep: int,
    msg: MsgView,
    uptr: u64,
    is_call: bool,
) -> (World, Outcome) {
    let table = w.tables[w.tcbs[me].proc as int];
    let n = msg.handle_count as int;
    match grant_error(table, msg.handles, 0, n) {
        Some(e) => (w, Outcome::Done(abi::error_code(e), 0)),
        None => if !w.eps[ep].in_use {
            (w, Outcome::Done(abi::error_code(SysError::Gone), 0))
        } else {
            let entries = frozen(table, msg.handles, n);
            match w.eps[ep].waiter {
                Some(r) => delivered(w, me, ep, r as int, msg, entries, uptr, is_call),
                None => (queued(w, me, ep, msg, entries, uptr, is_call), Outcome::Sleep),
            }
        },
    }
}

/// Endpoints and replies stay well-formed while threads stay in processes.
pub proof fn lemma_wf_for_same_procs(ipc: Ipc, a: Seq<Tcb>, b: Seq<Tcb>)
    requires
        ipc.wf(a),
        a.len() == MAX_THREADS,
        b.len() == MAX_THREADS,
        forall|t: int|
            0 <= t < MAX_THREADS ==> (#[trigger] b[t]).proc == a[t].proc || b[t].proc < MAX_PROCS,
    ensures
        ipc.wf(b),
{
    assert forall|i: int| 0 <= i < EP_POOL implies ep_ok((#[trigger] ipc.eps@[i])@, b) by {
        let q = ipc.eps@[i]@.queue;
        assert forall|k: int| 0 <= k < q.len() implies peer_ok(b, #[trigger] q[k]) by {
            assert(peer_ok(a, q[k]));
        }
    }
    assert forall|i: int| 0 <= i < REPLY_POOL implies reply_ok(#[trigger] ipc.replies@[i], b) by {
        assert(reply_ok(ipc.replies@[i], a));
    }
}

/// Hand a message to the receiver `r` that waits on endpoint `ep_idx`.
fn deliver(
    ipc: &mut Ipc,
    procs: &mut Procs,
    regions: &mut Regions,
    s: &mut Sched,
    cpu: usize,
    ep_idx: usize,
    r: usize,
    msg: &MsgBuf,
    entries: [Option<HandleEntry>; MSG_HANDLES],
    msg_uptr: u64,
    is_call: bool,
) -> (out: Outcome)
    requires
        world_ok(*old(ipc), *old(procs), *old(regions), *old(s)),
        old(s).up(cpu),
        ep_idx < EP_POOL,
        old(ipc).eps@[ep_idx as int].recv_waiter == Some(r),
        peer_ok(old(s).tcbs@, old(s).running(cpu) as usize),
        msg@.within_limits(),
        proc::table_ok(entries@),
    ensures
        world_ok(*final(ipc), *final(procs), *final(regions), *final(s)),
        rest_unchanged(*old(procs), *final(procs), *old(s), *final(s)),
        (world(*final(ipc), *final(procs), *final(regions), *final(s)), out) == delivered(
            world(*old(ipc), *old(procs), *old(regions), *old(s)),
            old(s).running(cpu),
            ep_idx as int,
            r as int,
            msg@,
            entries@,
            msg_uptr,
            is_call,
        ),
{
    let me: usize = thread::current(s, cpu);
    let ghost w = world(*ipc, *procs, *regions, *s);
    assert(ep_ok(ipc.eps@[ep_idx as int]@, s.tcbs@));
    let src: usize = thread::process_of(s, me);
    let dst: usize = thread::process_of(s, r);
    ipc.slots.v[r].staging = *msg;
    ipc.slots.v[r].staged_entries = entries;
    proof {
        assert(ipc.slots.views() =~= w.slots.update(
            r as int,
            SlotView { staging: msg@, entries: entries@, ..w.slots[r as int] },
        ));
    }
    let ghost parked0 = ipc.slots.views()[r as int];
    let moved = transfer_into(&mut ipc.slots, procs, regions, src, dst, r);
    proof {
        assert(ipc.slots.views() =~= w.slots.update(r as int, ipc.slots.views()[r as int]));
        assert(ipc.ep_views() =~= w.eps);
    }
    if let Err(e) = moved {
        return Outcome::Done(e.code(), 0);
    }
    let ghost w1 = world(*ipc, *procs, *regions, *s);
    let mut reply_h: Handle = HANDLE_NULL;
    if is_call {
        match mint_reply(&mut ipc.replies, procs, me, dst) {
            Ok(h) => {
                reply_h = h;
            },
            Err(e) => {
                proof {
                    assert(ipc.ep_views() =~= w.eps);
                    assert(ipc.slots.views() =~= w1.slots);
                }
                return Outcome::Done(e.code(), 0);
            },
        }
    }
    let ghost slots1 = ipc.slots.views();
    ipc.eps[ep_idx].recv_waiter = None;
    ipc.slots.v[r].copy_out = true;
    ipc.slots.v[r].ret_rax = 0;
    ipc.slots.v[r].ret_rdx = reply_h as u64;
    let ghost given = ipc.slots.views();
    proof {
        assert(given =~= slots1.update(
            r as int,
            SlotView {
                copy_out: true,
                ret_rax: 0,
                ret_rdx: reply_h as u64,
                ..slots1[r as int]
            },
        ));
        assert(ipc.ep_views() =~= w.eps.update(
            ep_idx as int,
            EpView { waiter: None, ..w.eps[ep_idx as int] },
        ));
    }
    let ghost tcbs0 = s.tcbs@;
    if is_call {
        ipc.slots.v[me].msg_uptr = msg_uptr;
        assert(ipc.slots.views() =~= given.update(
            me as int,
            SlotView { msg_uptr, ..given[me as int] },
        ));
        thread::prepare_block(s, cpu);
        assert(s.tcbs@ =~= thread::state_set(tcbs0, me as int, State::Blocked));
    }
    thread::wake(s, r);
    proof {
        assert(ipc.wf(tcbs0));
        lemma_wf_for_same_procs(*ipc, tcbs0, s.tcbs@);
    }
    if is_call {
        Outcome::Sleep
    } else {
        Outcome::Done(0, 0)
    }
}

/// Send `msg`, or call with it, on endpoint `ep_idx`. The capabilities it grants are
/// frozen first, so that what arrives is what was sent and was allowed to be. `Sleep`
/// means that the running thread is marked blocked: as a queued sender, or as a caller
/// that waits for its reply.
pub fn send_or_call(
    ipc: &mut Ipc,
    procs: &mut Procs,
    regions: &mut Regions,
    s: &mut Sched,
    cpu: usize,
    ep_idx: u8,
    msg: &MsgBuf,
    msg_uptr: u64,
    is_call: bool,
) -> (out: Outcome)
    requires
        world_ok(*old(ipc), *old(procs), *old(regions), *old(s)),
        old(s).up(cpu),
        ep_idx < EP_POOL,
        peer_ok(old(s).tcbs@, old(s).running(cpu) as usize),
        msg@.within_limits(),
    ensures
        world_ok(*final(ipc), *final(procs), *final(regions), *final(s)),
        rest_unchanged(*old(procs), *final(procs), *old(s), *final(s)),
        (world(*final(ipc), *final(procs), *final(regions), *final(s)), out) == sent(
            world(*old(ipc), *old(procs), *old(regions), *old(s)),
            old(s).running(cpu),
            ep_idx as int,
            msg@,
            msg_uptr,
            is_call,
        ),
{
    let me: usize = thread::current(s, cpu);
    let src: usize = thread::process_of(s, me);
    let ghost w = world(*ipc, *procs, *regions, *s);
    assert(w.tables[src as int] == procs.v@[src as int].handles@);
    let entries = match stage_entries(&procs.v[src], msg) {
        Ok(es) => es,
        Err(e) => {
            return Outcome::Done(e.code(), 0);
        },
    };
    let i: usize = ep_idx as usize;
    assert(w.eps[i as int] == ipc.eps@[i as int]@);
    if !ipc.eps[i].in_use {
        return Outcome::Done(SysError::Gone.code(), 0);
    }
    match ipc.eps[i].recv_waiter {
        Some(r) => deliver(
            ipc,
            procs,
            regions,
            s,
            cpu,
            i,
            r,
            msg,
            entries,
            msg_uptr,
            is_call,
        ),
        None => {
            ipc.slots.v[me].staging = *msg;
            ipc.slots.v[me].staged_entries = entries;
            ipc.slots.v[me].msg_uptr = msg_uptr;
            ipc.slots.v[me].is_call = is_call;
            ipc.slots.v[me].copy_out = false;
            let ghost q = left(w.eps[i as int].queue, me as usize);
            proof {
                law_leaving_is_exact(w.eps[i as int].queue, me as usize);
                law_queue_has_room(w.eps[i as int].queue, me as usize);
            }
            leave(&mut ipc.eps[i].send_q, me);
            ipc.eps[i].send_q.push(me);
            let ghost tcbs0 = s.tcbs@;
            proof {
                let goal = queued(w, me as int, i as int, msg@, entries@, msg_uptr, is_call);
                assert(ipc.slots.views() =~= goal.slots);
                assert(ipc.ep_views() =~= goal.eps);
                assert(ep_ok(ipc.eps@[i as int]@, tcbs0)) by {
                    assert forall|k: int| 0 <= k < q.push(me).len() implies peer_ok(
                        tcbs0,
                        #[trigger] q.push(me)[k],
                    ) by {
                        if k < q.len() {
                            let j = w.eps[i as int].queue.index_of(q[k]);
                            assert(w.eps[i as int].queue.contains(q[k]));
                            assert(peer_ok(tcbs0, w.eps[i as int].queue[j]));
                        }
                    }
                }
                assert(ipc.wf(tcbs0));
            }
            thread::prepare_block(s, cpu);
            proof {
                lemma_wf_for_same_procs(*ipc, tcbs0, s.tcbs@);
            }
            Outcome::Sleep
        },
    }
}

/// What a receiver finds on an endpoint.
pub enum Got {
    /// It cannot receive; this is the error's code.
    Refused(u64),
    /// A message, and the handle to answer it by (0 if none is expected).
    Message(Handle, MsgView),
    /// Nobody is waiting to send.
    NoSender,
}

/// The endpoint without the sender at the head of its queue.
pub open spec fn popped(w: World, ep: int) -> World {
    World {
        eps: w.eps.update(
            ep,
            EpView {
                queue: w.eps[ep].queue.subrange(1, w.eps[ep].queue.len() as int),
                ..w.eps[ep]
            },
        ),
        ..w
    }
}

/// The world after the capabilities parked with `from` went to process `dst`.
pub open spec fn moved(w: World, from: int, dst: int) -> (World, Option<SysError>) {
    let e = w.slots[from];
    let t = transfer(
        w.tables,
        w.regions,
        w.tcbs[from].proc as int,
        dst,
        e.entries,
        e.staging.handles,
        0,
        e.staging.handle_count as int,
    );
    (
        World {
            tables: t.tables,
            regions: t.regions,
            slots: w.slots.update(
                from,
                SlotView { staging: MsgView { handles: t.handles, ..e.staging }, ..e },
            ),
            ..w
        },
        t.err,
    )
}

/// Serve the senders queued on endpoint `ep`, first come first served, until one gets
/// through: a sender whose capabilities cannot be moved, or for whom no reply can be
/// minted, is told so and woken.
pub open spec fn served(w: World, me: int, ep: int) -> (World, Got)
    decreases w.eps[ep].queue.len(),
{
    if !(0 <= ep < w.eps.len()) || !w.eps[ep].in_use {
        (w, Got::Refused(abi::error_code(SysError::Gone)))
    } else if w.eps[ep].queue.len() == 0 {
        if w.eps[ep].waiter is Some {
            (w, Got::Refused(abi::error_code(SysError::NoMem)))
        } else {
            (w, Got::NoSender)
        }
    } else {
        let from = w.eps[ep].queue[0] as int;
        let dst = w.tcbs[me].proc as int;
        let (w1, err) = moved(popped(w, ep), from, dst);
        match err {
            Some(e) => served(refused(w1, from, e), me, ep),
            None => if w1.slots[from].is_call {
                let m = mint(w1.replies, w1.tables, from as usize, dst);
                let w2 = World { replies: m.replies, tables: m.tables, ..w1 };
                match m.handle {
                    Err(e) => served(refused(w2, from, e), me, ep),
                    Ok(h) => (w2, Got::Message(h, w2.slots[from].staging)),
                }
            } else {
                (
                    World {
                        slots: w1.slots.update(from, answered(w1.slots[from], 0, 0)),
                        tcbs: w1.tcbs.update(from, thread::woken(w1.tcbs[from])),
                        ..w1
                    },
                    Got::Message(0, w1.slots[from].staging),
                )
            },
        }
    }
}

/// Thread `me` waits as the receiver of endpoint `ep`.
pub open spec fn registered(w: World, me: int, ep: int, uptr: u64) -> World {
    World {
        eps: w.eps.update(ep, EpView { waiter: Some(me as usize), ..w.eps[ep] }),
        slots: w.slots.update(me, SlotView { msg_uptr: uptr, ..w.slots[me] }),
        tcbs: thread::state_set(w.tcbs, me, State::Blocked),
        ..w
    }
}

/// What [`serve_next`] found.
enum Served {
    Refused(u64),
    Message(Handle, MsgBuf),
    NoSender,
}

spec fn served_view(r: Served) -> Got {
    match r {
        Served::Refused(c) => Got::Refused(c),
        Served::Message(h, m) => Got::Message(h, m@),
        Served::NoSender => Got::NoSender,
    }
}

/// Tell thread `tid` of a failure and wake it.
fn refuse(slots: &mut Slots, s: &mut Sched, tid: usize, e: SysError)
    requires
        old(slots).wf(),
        old(s).wf(),
        tid < MAX_THREADS,
    ensures
        final(slots).wf(),
        final(s).wf(),
        final(slots).views() == old(slots).views().update(
            tid as int,
            answered(old(slots).views()[tid as int], abi::error_code(e), 0),
        ),
        thread::tcb_becomes(
            *old(s),
            *final(s),
            tid as int,
            thread::woken(old(s).tcbs@[tid as int]),
        ),
{
    deposit_ret(slots, tid, e.code(), 0);
    thread::wake(s, tid);
}

/// Serve the senders queued on an endpoint until one gets through.
fn serve_next(
    ipc: &mut Ipc,
    procs: &mut Procs,
    regions: &mut Regions,
    s: &mut Sched,
    cpu: usize,
    ep_idx: usize,
) -> (r: Served)
    requires
        world_ok(*old(ipc), *old(procs), *old(regions), *old(s)),
        old(s).up(cpu),
        ep_idx < EP_POOL,
        peer_ok(old(s).tcbs@, old(s).running(cpu) as usize),
    ensures
        world_ok(*final(ipc), *final(procs), *final(regions), *final(s)),
        rest_unchanged(*old(procs), *final(procs), *old(s), *final(s)),
        (world(*final(ipc), *final(procs), *final(regions), *final(s)), served_view(r)) == served(
            world(*old(ipc), *old(procs), *old(regions), *old(s)),
            old(s).running(cpu),
            ep_idx as int,
        ),
        r is NoSender ==> {
            &&& final(ipc).eps@[ep_idx as int].in_use
            &&& final(ipc).eps@[ep_idx as int].recv_waiter is None
        },
        r is Message ==> r->Message_1@.within_limits(),
        forall|t: int|
            0 <= t < MAX_THREADS ==> (#[trigger] final(s).tcbs@[t]).proc == old(s).tcbs@[t].proc,
{
    let me: usize = thread::current(s, cpu);
    let dst: usize = thread::process_of(s, me);
    let ghost goal = served(world(*ipc, *procs, *regions, *s), me as int, ep_idx as int);
    loop
        invariant
            world_ok(*ipc, *procs, *regions, *s),
            rest_unchanged(*old(procs), *procs, *old(s), *s),
            ep_idx < EP_POOL,
            me < MAX_THREADS,
            me == old(s).running(cpu),
            dst < MAX_PROCS,
            s.tcbs@[me as int].proc == dst,
            goal == served(
                world(*old(ipc), *old(procs), *old(regions), *old(s)),
                me as int,
                ep_idx as int,
            ),
            goal == served(world(*ipc, *procs, *regions, *s), me as int, ep_idx as int),
            forall|t: int|
                0 <= t < MAX_THREADS ==> (#[trigger] s.tcbs@[t]).proc == old(s).tcbs@[t].proc,
        decreases ipc.eps@[ep_idx as int].send_q@.len(),
    {
        let ghost w = world(*ipc, *procs, *regions, *s);
        assert(w.eps[ep_idx as int] == ipc.eps@[ep_idx as int]@);
        if !ipc.eps[ep_idx].in_use {
            return Served::Refused(SysError::Gone.code());
        }
        if ipc.eps[ep_idx].send_q.len == 0 {
            if ipc.eps[ep_idx].recv_waiter.is_some() {
                return Served::Refused(SysError::NoMem.code());
            }
            return Served::NoSender;
        }
        let ghost qlen = ipc.eps@[ep_idx as int].send_q@.len();
        assert(peer_ok(s.tcbs@, ipc.eps@[ep_idx as int]@.queue[0]));
        let from: usize = ipc.eps[ep_idx].send_q.pop();
        let ghost wp = popped(w, ep_idx as int);
        proof {
            assert(ipc.ep_views() =~= wp.eps);
            let q = ipc.eps@[ep_idx as int]@.queue;
            let q0 = w.eps[ep_idx as int].queue;
            assert forall|k: int| 0 <= k < q.len() implies peer_ok(s.tcbs@, #[trigger] q[k]) by {
                assert(q[k] == q0[k + 1]);
            }
            assert(ep_ok(ipc.eps@[ep_idx as int]@, s.tcbs@));
            assert(ipc.wf(s.tcbs@));
        }
        let is_call = ipc.slots.v[from].is_call;
        let src: usize = thread::process_of(s, from);
        let m = transfer_into(&mut ipc.slots, procs, regions, src, dst, from);
        let ghost w1 = moved(wp, from as int, dst as int).0;
        proof {
            assert(ipc.ep_views() =~= w1.eps);
            assert(world(*ipc, *procs, *regions, *s) =~= w1);
        }
        if let Err(e) = m {
            let ghost tcbs0 = s.tcbs@;
            refuse(&mut ipc.slots, s, from, e);
            proof {
                assert(ipc.ep_views() =~= w1.eps);
                assert(ipc.wf(tcbs0));
                lemma_wf_for_same_procs(*ipc, tcbs0, s.tcbs@);
                assert(world(*ipc, *procs, *regions, *s) =~= refused(w1, from as int, e));
            }
            continue;
        }
        assert(ipc.slots.v@[from as int].wf());
        assert(w1.slots[from as int] == ipc.slots.v@[from as int]@);
        if is_call {
            let minted = mint_reply(&mut ipc.replies, procs, from, dst);
            let ghost mm = mint(w1.replies, w1.tables, from, dst as int);
            let ghost w2 = World { replies: mm.replies, tables: mm.tables, ..w1 };
            proof {
                assert(ipc.ep_views() =~= w1.eps);
                assert(ipc.slots.views() =~= w1.slots);
                assert(world(*ipc, *procs, *regions, *s) =~= w2);
                assert(ipc.wf(s.tcbs@));
            }
            match minted {
                Ok(h) => {
                    let msg = ipc.slots.v[from].staging;
                    return Served::Message(h, msg);
                },
                Err(e) => {
                    let ghost tcbs0 = s.tcbs@;
                    refuse(&mut ipc.slots, s, from, e);
                    proof {
                        assert(ipc.ep_views() =~= w1.eps);
                        lemma_wf_for_same_procs(*ipc, tcbs0, s.tcbs@);
                        assert(world(*ipc, *procs, *regions, *s) =~= refused(w2, from as int, e));
                    }
                    continue;
                },
            }
        }
        let msg = ipc.slots.v[from].staging;
        let ghost tcbs0 = s.tcbs@;
        deposit_ret(&mut ipc.slots, from, 0, 0);
        thread::wake(s, from);
        proof {
            assert(ipc.ep_views() =~= w1.eps);
            assert(ipc.wf(tcbs0));
            lemma_wf_for_same_procs(*ipc, tcbs0, s.tcbs@);
        }
        return Served::Message(HANDLE_NULL, msg);
    }
}

/// Register the running thread as the receiver of an endpoint and mark it blocked.
fn register(ipc: &mut Ipc, s: &mut Sched, cpu: usize, ep_idx: usize, msg_uptr: u64)
    requires
        old(ipc).wf(old(s).tcbs@),
        old(s).wf(),
        old(s).up(cpu),
        ep_idx < EP_POOL,
        peer_ok(old(s).tcbs@, old(s).running(cpu) as usize),
    ensures
        final(ipc).wf(final(s).tcbs@),
        final(s).wf(),
        final(s).cpus@ == old(s).cpus@,
        final(ipc).replies@ == old(ipc).replies@,
        final(ipc).ep_views() == old(ipc).ep_views().update(
            ep_idx as int,
            EpView {
                waiter: Some(old(s).running(cpu) as usize),
                ..old(ipc).ep_views()[ep_idx as int]
            },
        ),
        final(ipc).slots.views() == old(ipc).slots.views().update(
            old(s).running(cpu),
            SlotView { msg_uptr, ..old(ipc).slots.views()[old(s).running(cpu)] },
        ),
        final(s).tcbs@ == thread::state_set(old(s).tcbs@, old(s).running(cpu), State::Blocked),
{
    let me: usize = thread::current(s, cpu);
    let ghost tcbs0 = s.tcbs@;
    assert(ep_ok(ipc.eps@[ep_idx as int]@, s.tcbs@));
    ipc.eps[ep_idx].recv_waiter = Some(me);
    ipc.slots.v[me].msg_uptr = msg_uptr;
    proof {
        assert(ipc.ep_views() =~= old(ipc).ep_views().update(
            ep_idx as int,
            EpView { waiter: Some(me), ..old(ipc).ep_views()[ep_idx as int] },
        ));
        assert(ipc.slots.views() =~= old(ipc).slots.views().update(
            me as int,
            SlotView { msg_uptr, ..old(ipc).slots.views()[me as int] },
        ));
        assert forall|i: int| 0 <= i < EP_POOL implies ep_ok(
            (#[trigger] ipc.eps@[i])@,
            tcbs0,
        ) by {
            assert(ep_ok(old(ipc).eps@[i]@, tcbs0));
        }
        assert(ipc.wf(tcbs0));
    }
    thread::prepare_block(s, cpu);
    proof {
        lemma_wf_for_same_procs(*ipc, tcbs0, s.tcbs@);
    }
}

/// What a receive hands back at once, given whether the receiver's buffer can be
/// written: the result registers, and the message to copy into the buffer.
pub open spec fn receipt(g: Got, buffer_ok: bool) -> (Outcome, Option<MsgView>) {
    match g {
        Got::Refused(c) => (Outcome::Done(c, 0), None),
        Got::Message(h, m) => if buffer_ok {
            (Outcome::Done(0, h as u64), Some(m))
        } else {
            (Outcome::Done(abi::error_code(SysError::Fault), 0), None)
        },
        Got::NoSender => (Outcome::Sleep, None),
    }
}

/// The message behind an option, as a mathematical value.
pub open spec fn msg_view(m: Option<MsgBuf>) -> Option<MsgView> {
    match m {
        Some(x) => Some(x@),
        None => None,
    }
}

/// A user's buffer after the message `m` was written to it. Words and handles that the
/// message does not have are left as they were.
pub open spec fn copied_out(dst: MsgView, m: MsgView) -> MsgView {
    MsgView {
        data: Seq::new(
            dst.data.len(),
            |i: int|
                if i < m.data_len {
                    m.data[i]
                } else {
                    dst.data[i]
                },
        ),
        handles: Seq::new(
            dst.handles.len(),
            |i: int|
                if i < m.handle_count {
                    m.handles[i]
                } else {
                    dst.handles[i]
                },
        ),
        ..m
    }
}

/// Write the valid part of `m` to the buffer of a receiver.
pub fn copy_msg_to_user(dst: &mut MsgBuf, m: &MsgBuf) -> (r: Result<(), SysError>)
    ensures
        r == (if m@.within_limits() {
            Ok::<(), SysError>(())
        } else {
            Err(SysError::Msg)
        }),
        final(dst)@ == (if r is Ok {
            copied_out(old(dst)@, m@)
        } else {
            old(dst)@
        }),
{
    if m.data_len as usize > MSG_DATA_WORDS || m.handle_count as usize > MSG_HANDLES {
        return Err(SysError::Msg);
    }
    let ghost old_data = dst.data@;
    let ghost old_handles = dst.handles@;
    dst.tag = m.tag;
    dst.data_len = m.data_len;
    dst.handle_count = m.handle_count;
    dst.badge = m.badge;
    let mut i: usize = 0;
    while i < m.data_len as usize
        invariant
            i <= m.data_len <= MSG_DATA_WORDS,
            dst.tag == m.tag,
            dst.data_len == m.data_len,
            dst.handle_count == m.handle_count,
            dst.badge == m.badge,
            dst.handles@ == old_handles,
            old_data.len() == MSG_DATA_WORDS,
            dst.data@ =~= Seq::new(
                MSG_DATA_WORDS as nat,
                |j: int|
                    if j < i {
                        m.data@[j]
                    } else {
                        old_data[j]
                    },
            ),
        decreases m.data_len - i,
    {
        dst.data[i] = m.data[i];
        i += 1;
    }
    let mut i: usize = 0;
    let ghost data = dst.data@;
    while i < m.handle_count as usize
        invariant
            i <= m.handle_count <= MSG_HANDLES,
            dst.tag == m.tag,
            dst.data_len == m.data_len,
            dst.handle_count == m.handle_count,
            dst.badge == m.badge,
            dst.data@ == data,
            old_handles.len() == MSG_HANDLES,
            dst.handles@ =~= Seq::new(
                MSG_HANDLES as nat,
                |j: int|
                    if j < i {
                        m.handles@[j]
                    } else {
                        old_handles[j]
                    },
            ),
        decreases m.handle_count - i,
    {
        dst.handles[i] = m.handles[i];
        i += 1;
    }
    assert(dst@ =~= copied_out(old(dst)@, m@));
    Ok(())
}

/// A receiver sees nothing of a message beyond the words and handles that it has.
pub proof fn law_tail_is_unseen(dst: MsgView, m: MsgView, other: MsgView)
    requires
        m.tag == other.tag,
        m.badge == other.badge,
        m.data_len == other.data_len,
        m.handle_count == other.handle_count,
        forall|i: int| 0 <= i < m.data_len ==> #[trigger] m.data[i] == other.data[i],
        forall|i: int| 0 <= i < m.handle_count ==> #[trigger] m.handles[i] == other.handles[i],
    ensures
        copied_out(dst, m) == copied_out(dst, other),
{
    assert(copied_out(dst, m) =~= copied_out(dst, other));
}

/// Receive on endpoint `ep_idx`. A queued sender is served at once, and its message is
/// returned for the caller to copy to `msg_uptr` (`buffer_ok` says whether it can);
/// otherwise the running thread becomes the endpoint's receiver and must sleep. An
/// endpoint has one receiver at a time.
pub fn recv(
    ipc: &mut Ipc,
    procs: &mut Procs,
    regions: &mut Regions,
    s: &mut Sched,
    cpu: usize,
    ep_idx: u8,
    msg_uptr: u64,
    buffer_ok: bool,
) -> (r: (Outcome, Option<MsgBuf>))
    requires
        world_ok(*old(ipc), *old(procs), *old(regions), *old(s)),
        old(s).up(cpu),
        ep_idx < EP_POOL,
        peer_ok(old(s).tcbs@, old(s).running(cpu) as usize),
    ensures
        world_ok(*final(ipc), *final(procs), *final(regions), *final(s)),
        rest_unchanged(*old(procs), *final(procs), *old(s), *final(s)),
        ({
            let me = old(s).running(cpu);
            let (w, g) = served(
                world(*old(ipc), *old(procs), *old(regions), *old(s)),
                me,
                ep_idx as int,
            );
            &&& (r.0, msg_view(r.1)) == receipt(g, buffer_ok)
            &&& world(*final(ipc), *final(procs), *final(regions), *final(s)) == (if g is NoSender {
                registered(w, me, ep_idx as int, msg_uptr)
            } else {
                w
            })
        }),
{
    let ghost me = s.running(cpu);
    let got = serve_next(ipc, procs, regions, s, cpu, ep_idx as usize);
    let ghost w = world(*ipc, *procs, *regions, *s);
    match got {
        Served::Refused(c) => (Outcome::Done(c, 0), None),
        Served::Message(h, m) => if buffer_ok {
            (Outcome::Done(0, h as u64), Some(m))
        } else {
            (Outcome::Done(SysError::Fault.code(), 0), None)
        },
        Served::NoSender => {
            assert(peer_ok(s.tcbs@, s.running(cpu) as usize));
            register(ipc, s, cpu, ep_idx as usize, msg_uptr);
            assert(world(*ipc, *procs, *regions, *s) =~= registered(w, me, ep_idx as int, msg_uptr));
            (Outcome::Sleep, None)
        },
    }
}

/// The endpoint without `tid` as its receiver.
pub open spec fn unwaited(e: EpView, tid: usize) -> EpView {
    if e.waiter == Some(tid) {
        EpView { waiter: None, ..e }
    } else {
        e
    }
}

/// Take `tid` off as the receiver of an endpoint.
fn clear_recv_waiter(ipc: &mut Ipc, s: &Sched, ep_idx: usize, tid: usize)
    requires
        old(ipc).wf(s.tcbs@),
        ep_idx < EP_POOL,
    ensures
        final(ipc).wf(s.tcbs@),
        final(ipc).replies@ == old(ipc).replies@,
        final(ipc).slots == old(ipc).slots,
        final(ipc).ep_views() == old(ipc).ep_views().update(
            ep_idx as int,
            unwaited(old(ipc).ep_views()[ep_idx as int], tid),
        ),
{
    let waits = match ipc.eps[ep_idx].recv_waiter {
        Some(t) => t == tid,
        None => false,
    };
    assert(ep_ok(ipc.eps@[ep_idx as int]@, s.tcbs@));
    if waits {
        ipc.eps[ep_idx].recv_waiter = None;
    }
    proof {
        assert(ipc.ep_views() =~= old(ipc).ep_views().update(
            ep_idx as int,
            unwaited(old(ipc).ep_views()[ep_idx as int], tid),
        ));
        assert forall|i: int| 0 <= i < EP_POOL implies ep_ok(
            (#[trigger] ipc.eps@[i])@,
            s.tcbs@,
        ) by {
            assert(ep_ok(old(ipc).eps@[i]@, s.tcbs@));
        }
    }
}

/// Wait for a message on an endpoint or a signal of a notification, whichever comes
/// first. With no sender queued the thread registers on the endpoint, then on the
/// notification; if a signal is latched already both registrations are taken back and
/// the signals consumed. Otherwise the thread must sleep, until `timeout_ticks` from
/// `now` at the latest (0 = without limit), and go on with [`recv_notif_resume`].
pub fn recv_notif(
    ipc: &mut Ipc,
    procs: &mut Procs,
    regions: &mut Regions,
    notifs: &mut Notifs,
    s: &mut Sched,
    cpu: usize,
    ep_idx: u8,
    notif_idx: u8,
    msg_uptr: u64,
    buffer_ok: bool,
    timeout_ticks: u64,
    now: u64,
) -> (r: (Outcome, Option<MsgBuf>))
    requires
        world_ok(*old(ipc), *old(procs), *old(regions), *old(s)),
        old(notifs).wf(),
        old(s).up(cpu),
        ep_idx < EP_POOL,
        notif_idx < POOL_SIZE,
        peer_ok(old(s).tcbs@, old(s).running(cpu) as usize),
        now + timeout_ticks <= u64::MAX,
    ensures
        world_ok(*final(ipc), *final(procs), *final(regions), *final(s)),
        final(notifs).wf(),
        rest_unchanged(*old(procs), *final(procs), *old(s), *final(s)),
        ({
            let me = old(s).running(cpu);
            let n = old(notifs).pool@[notif_idx as int];
            let (w, g) = served(
                world(*old(ipc), *old(procs), *old(regions), *old(s)),
                me,
                ep_idx as int,
            );
            let reg = registered(w, me, ep_idx as int, msg_uptr);
            let after = world(*final(ipc), *final(procs), *final(regions), *final(s));
            if !(g is NoSender) {
                &&& (r.0, msg_view(r.1)) == receipt(g, buffer_ok)
                &&& after == w
                &&& *final(notifs) == *old(notifs)
            } else if n.count > 0 {
                &&& r == (Outcome::Done(0, RECV_NOTIF_FIRED), None::<MsgBuf>)
                &&& after == (World {
                    eps: w.eps,
                    tcbs: thread::state_set(reg.tcbs, me, State::Running),
                    ..reg
                })
                &&& notif::becomes(
                    *old(notifs),
                    *final(notifs),
                    notif_idx as int,
                    notif::Notif { count: 0, ..n },
                )
            } else {
                &&& r == (Outcome::Sleep, None::<MsgBuf>)
                &&& after == (World {
                    tcbs: if timeout_ticks > 0 {
                        reg.tcbs.update(
                            me,
                            Tcb { wake_at: (now + timeout_ticks) as u64, ..reg.tcbs[me] },
                        )
                    } else {
                        reg.tcbs
                    },
                    ..reg
                })
                &&& notif::becomes(
                    *old(notifs),
                    *final(notifs),
                    notif_idx as int,
                    notif::Notif { bound_waiter: Some(me as usize), ..n },
                )
            }
        }),
{
    let me: usize = thread::current(s, cpu);
    let got = serve_next(ipc, procs, regions, s, cpu, ep_idx as usize);
    let ghost w = world(*ipc, *procs, *regions, *s);
    match got {
        Served::Refused(c) => (Outcome::Done(c, 0), None),
        Served::Message(h, m) => if buffer_ok {
            (Outcome::Done(0, h as u64), Some(m))
        } else {
            (Outcome::Done(SysError::Fault.code(), 0), None)
        },
        Served::NoSender => {
            let i: usize = ep_idx as usize;
            assert(w.eps[i as int] == ipc.eps@[i as int]@);
            assert(peer_ok(s.tcbs@, s.running(cpu) as usize));
            register(ipc, s, cpu, i, msg_uptr);
            let ghost reg = registered(w, me as int, i as int, msg_uptr);
            let ghost tcbs1 = s.tcbs@;
            assert(world(*ipc, *procs, *regions, *s) =~= reg);
            if !notif::arm_bound(notifs, notif_idx, me) {
                thread::cancel_block(s, cpu);
                proof {
                    lemma_wf_for_same_procs(*ipc, tcbs1, s.tcbs@);
                }
                clear_recv_waiter(ipc, s, i, me);
                assert(ipc.ep_views() =~= w.eps);
                let _ = notif::drain(notifs, notif_idx);
                return (Outcome::Done(0, RECV_NOTIF_FIRED), None);
            }
            if timeout_ticks > 0 {
                thread::set_wake_at(s, me, now + timeout_ticks);
                proof {
                    lemma_wf_for_same_procs(*ipc, tcbs1, s.tcbs@);
                }
            }
            (Outcome::Sleep, None)
        },
    }
}

/// What a thread returns when it resumes: the result left in its slot, and the message
/// to copy to its buffer. If the buffer can no longer be written the thread is told so.
pub open spec fn resumed(e: SlotView, buffer_ok: bool) -> ((u64, u64), Option<MsgView>) {
    if e.copy_out && !buffer_ok {
        ((abi::error_code(SysError::Fault), 0), None)
    } else if e.copy_out {
        ((e.ret_rax, e.ret_rdx), Some(e.staging))
    } else {
        ((e.ret_rax, e.ret_rdx), None)
    }
}

/// Resume thread `me` after its sleep.
pub fn resume_epilogue(slots: &mut Slots, me: usize, buffer_ok: bool) -> (r: (
    (u64, u64),
    Option<MsgBuf>,
))
    requires
        old(slots).wf(),
        me < MAX_THREADS,
    ensures
        final(slots).wf(),
        (r.0, msg_view(r.1)) == resumed(old(slots).views()[me as int], buffer_ok),
        final(slots).views() == old(slots).views().update(
            me as int,
            SlotView { copy_out: false, ..old(slots).views()[me as int] },
        ),
{
    let e = slots.v[me];
    slots.v[me].copy_out = false;
    assert(slots.views() =~= old(slots).views().update(
        me as int,
        SlotView { copy_out: false, ..old(slots).views()[me as int] },
    ));
    if e.copy_out {
        if !buffer_ok {
            return ((SysError::Fault.code(), 0), None);
        }
        return ((e.ret_rax, e.ret_rdx), Some(e.staging));
    }
    ((e.ret_rax, e.ret_rdx), None)
}

/// Go on after the sleep of [`recv_notif`]. A sender that came left its message in the
/// slot; otherwise the notification or the timer ended the wait. Either way no
/// registration survives the call.
pub fn recv_notif_resume(
    ipc: &mut Ipc,
    notifs: &mut Notifs,
    s: &mut Sched,
    cpu: usize,
    ep_idx: u8,
    notif_idx: u8,
    buffer_ok: bool,
    timeout_ticks: u64,
) -> (r: ((u64, u64), Option<MsgBuf>))
    requires
        old(ipc).wf(old(s).tcbs@),
        old(notifs).wf(),
        old(s).wf(),
        old(s).up(cpu),
        ep_idx < EP_POOL,
        notif_idx < POOL_SIZE,
    ensures
        final(ipc).wf(final(s).tcbs@),
        final(notifs).wf(),
        final(s).wf(),
        final(ipc).replies@ == old(ipc).replies@,
        ({
            let me = old(s).running(cpu);
            let e = old(ipc).slots.views()[me];
            let n = old(notifs).pool@[notif_idx as int];
            &&& thread::tcb_becomes(
                *old(s),
                *final(s),
                me,
                if timeout_ticks > 0 {
                    Tcb { wake_at: 0, ..old(s).tcbs@[me] }
                } else {
                    old(s).tcbs@[me]
                },
            )
            &&& if e.copy_out {
                &&& (r.0, msg_view(r.1)) == resumed(e, buffer_ok)
                &&& final(ipc).ep_views() == old(ipc).ep_views()
                &&& final(ipc).slots.views() == old(ipc).slots.views().update(
                    me,
                    SlotView { copy_out: false, ..e },
                )
                &&& notif::becomes(
                    *old(notifs),
                    *final(notifs),
                    notif_idx as int,
                    notif::unbound(n, me as usize),
                )
            } else {
                &&& r == ((0u64, RECV_NOTIF_FIRED), None::<MsgBuf>)
                &&& final(ipc).ep_views() == old(ipc).ep_views().update(
                    ep_idx as int,
                    unwaited(old(ipc).ep_views()[ep_idx as int], me as usize),
                )
                &&& final(ipc).slots == old(ipc).slots
                &&& notif::becomes(
                    *old(notifs),
                    *final(notifs),
                    notif_idx as int,
                    notif::Notif { count: 0, ..notif::unbound(n, me as usize) },
                )
            }
        }),
{
    let me: usize = thread::current(s, cpu);
    let ghost tcbs0 = s.tcbs@;
    if timeout_ticks > 0 {
        thread::set_wake_at(s, me, 0);
        proof {
            lemma_wf_for_same_procs(*ipc, tcbs0, s.tcbs@);
        }
    }
    if ipc.slots.v[me].copy_out {
        notif::clear_bound(notifs, notif_idx, me);
        let r = resume_epilogue(&mut ipc.slots, me, buffer_ok);
        assert(ipc.ep_views() =~= old(ipc).ep_views());
        return r;
    }
    clear_recv_waiter(ipc, s, ep_idx as usize, me);
    notif::clear_bound(notifs, notif_idx, me);
    let _ = notif::drain(notifs, notif_idx);
    ((0, RECV_NOTIF_FIRED), None)
}

/// What answering reply `idx` with `msg`, by a thread of process `src`, comes to: the
/// caller gets the message and its capabilities, or the reason it cannot; the reply is
/// used up and the caller woken.
pub open spec fn replied(w: World, idx: int, msg: MsgView, src: int) -> World {
    let caller = w.replies[idx].caller_tid as int;
    let n = msg.handle_count as int;
    let table = w.tables[src];
    let e = w.slots[caller];
    let (w1, err) = match grant_error(table, msg.handles, 0, n) {
        Some(x) => (
            World { slots: w.slots.update(caller, SlotView { staging: msg, ..e }), ..w },
            Some(x),
        ),
        None => {
            let entries = frozen(table, msg.handles, n);
            let t = transfer(
                w.tables,
                w.regions,
                src,
                w.tcbs[caller].proc as int,
                entries,
                msg.handles,
                0,
                n,
            );
            (
                World {
                    tables: t.tables,
                    regions: t.regions,
                    slots: w.slots.update(
                        caller,
                        SlotView {
                            staging: MsgView { handles: t.handles, ..msg },
                            entries,
                            ..e
                        },
                    ),
                    ..w
                },
                t.err,
            )
        },
    };
    World {
        slots: w1.slots.update(
            caller,
            SlotView {
                copy_out: err is None,
                ret_rax: match err {
                    Some(x) => abi::error_code(x),
                    None => 0,
                },
                ret_rdx: 0,
                ..w1.slots[caller]
            },
        ),
        replies: w1.replies.update(idx, reply_freed(w1.replies[idx])),
        tcbs: w1.tcbs.update(caller, thread::woken(w1.tcbs[caller])),
        ..w1
    }
}

/// Answer the caller behind reply `reply_idx`, using the reply up. Never blocks.
pub fn do_reply(
    ipc: &mut Ipc,
    procs: &mut Procs,
    regions: &mut Regions,
    s: &mut Sched,
    cpu: usize,
    reply_idx: usize,
    reply: &MsgBuf,
)
    requires
        world_ok(*old(ipc), *old(procs), *old(regions), *old(s)),
        old(s).up(cpu),
        reply_idx < REPLY_POOL,
        old(ipc).replies@[reply_idx as int].in_use,
        peer_ok(old(s).tcbs@, old(s).running(cpu) as usize),
        reply@.within_limits(),
    ensures
        world_ok(*final(ipc), *final(procs), *final(regions), *final(s)),
        rest_unchanged(*old(procs), *final(procs), *old(s), *final(s)),
        world(*final(ipc), *final(procs), *final(regions), *final(s)) == replied(
            world(*old(ipc), *old(procs), *old(regions), *old(s)),
            reply_idx as int,
            reply@,
            old(s).tcbs@[old(s).running(cpu)].proc as int,
        ),
{
    let ghost w = world(*ipc, *procs, *regions, *s);
    let src: usize = thread::current_proc(s, cpu);
    assert(reply_ok(ipc.replies@[reply_idx as int], s.tcbs@));
    let caller: usize = ipc.replies[reply_idx].caller_tid;
    ipc.slots.v[caller].staging = *reply;
    assert(ipc.slots.views() =~= w.slots.update(
        caller as int,
        SlotView { staging: reply@, ..w.slots[caller as int] },
    ));
    assert(w.tables[src as int] == procs.v@[src as int].handles@);
    let staged = stage_entries(&procs.v[src], reply);
    let outcome: Result<(), SysError> = match staged {
        Ok(entries) => {
            ipc.slots.v[caller].staged_entries = entries;
            assert(ipc.slots.views() =~= w.slots.update(
                caller as int,
                SlotView { staging: reply@, entries: entries@, ..w.slots[caller as int] },
            ));
            let dst: usize = thread::process_of(s, caller);
            transfer_into(&mut ipc.slots, procs, regions, src, dst, caller)
        },
        Err(e) => Err(e),
    };
    let ghost mid = ipc.slots.views();
    assert(mid =~= w.slots.update(caller as int, mid[caller as int]));
    match outcome {
        Ok(()) => {
            ipc.slots.v[caller].copy_out = true;
            ipc.slots.v[caller].ret_rax = 0;
        },
        Err(e) => {
            ipc.slots.v[caller].copy_out = false;
            ipc.slots.v[caller].ret_rax = e.code();
        },
    }
    ipc.slots.v[caller].ret_rdx = 0;
    free_reply(&mut ipc.replies, reply_idx);
    let ghost goal = replied(w, reply_idx as int, reply@, src as int);
    proof {
        assert(ipc.slots.views() =~= goal.slots);
        assert(ipc.ep_views() =~= w.eps);
        assert(ipc.wf(w.tcbs));
    }
    thread::wake(s, caller);
    proof {
        lemma_wf_for_same_procs(*ipc, w.tcbs, s.tcbs@);
        assert(world(*ipc, *procs, *regions, *s) =~= goal);
    }
}

/// What abandoning reply `idx` comes to: the caller learns that it is gone, its buffer
/// untouched, and the reply is used up.
pub open spec fn abandoned(
    replies: Seq<Reply>,
    slots: Seq<SlotView>,
    tcbs: Seq<Tcb>,
    idx: int,
) -> (Seq<Reply>, Seq<SlotView>, Seq<Tcb>) {
    let caller = replies[idx].caller_tid as int;
    (
        replies.update(idx, reply_freed(replies[idx])),
        slots.update(caller, answered(slots[caller], abi::error_code(SysError::Gone), 0)),
        tcbs.update(caller, thread::woken(tcbs[caller])),
    )
}

/// Abandon a pending reply: its handle was closed, or its holder died.
pub fn reply_abandon(ipc: &mut Ipc, s: &mut Sched, reply_idx: usize)
    requires
        old(ipc).wf(old(s).tcbs@),
        old(s).wf(),
        reply_idx < REPLY_POOL,
        old(ipc).replies@[reply_idx as int].in_use,
    ensures
        final(ipc).wf(final(s).tcbs@),
        final(s).wf(),
        final(s).cpus@ == old(s).cpus@,
        final(ipc).ep_views() == old(ipc).ep_views(),
        (final(ipc).replies@, final(ipc).slots.views(), final(s).tcbs@) == abandoned(
            old(ipc).replies@,
            old(ipc).slots.views(),
            old(s).tcbs@,
            reply_idx as int,
        ),
{
    assert(reply_ok(ipc.replies@[reply_idx as int], s.tcbs@));
    let ghost tcbs0 = s.tcbs@;
    let caller: usize = ipc.replies[reply_idx].caller_tid;
    deposit_ret(&mut ipc.slots, caller, SysError::Gone.code(), 0);
    free_reply(&mut ipc.replies, reply_idx);
    proof {
        assert(ipc.ep_views() =~= old(ipc).ep_views());
        assert(ipc.wf(tcbs0));
    }
    thread::wake(s, caller);
    proof {
        lemma_wf_for_same_procs(*ipc, tcbs0, s.tcbs@);
    }
}

/// A capability that is sent is copied: the receiver ends up with exactly the entries
/// that were frozen, rights and badge included, behind the handles it is told; nothing
/// it held before is lost, and a sender in another process keeps all it had.
pub proof fn law_transfer_copies(
    tables: Seq<Table>,
    regions: Seq<Region>,
    src: int,
    dst: int,
    entries: Seq<Option<HandleEntry>>,
    handles: Seq<Handle>,
    i: int,
    n: int,
)
    requires
        0 <= i <= n <= handles.len(),
        0 <= dst < tables.len(),
        tables[dst].len() == crate::abi::HANDLE_TABLE_SIZE,
        transfer(tables, regions, src, dst, entries, handles, i, n).err is None,
    ensures
        ({
            let t = transfer(tables, regions, src, dst, entries, handles, i, n);
            &&& t.tables.len() == tables.len()
            &&& t.handles.len() == handles.len()
            &&& t.tables[dst].len() == tables[dst].len()
            &&& forall|k: int| 0 <= k < i ==> t.handles[k] == handles[k]
            &&& forall|k: int|
                i <= k < n ==> {
                    &&& 1 <= #[trigger] t.handles[k] < tables[dst].len()
                    &&& entries[k] is Some
                    &&& t.tables[dst][t.handles[k] as int] == entries[k]
                }
            &&& forall|h: int|
                0 <= h < tables[dst].len() && (#[trigger] tables[dst][h]) is Some
                    ==> t.tables[dst][h] == tables[dst][h]
            &&& forall|p: int| 0 <= p < tables.len() && p != dst ==> t.tables[p] == tables[p]
        }),
    decreases n - i,
{
    if i < n {
        let e = entries[i]->0;
        let h = proc::next_slot(tables[dst]);
        proc::lemma_empty_from(tables[dst], 1);
        let tables1 = tables.update(dst, tables[dst].update(h, Some(e)));
        let handles1 = handles.update(i, h as u32);
        law_transfer_copies(
            tables1,
            handle_noted(regions, e),
            src,
            dst,
            entries,
            handles1,
            i + 1,
            n,
        );
        let t = transfer(tables, regions, src, dst, entries, handles, i, n);
        assert(tables1[dst][h] == Some(e));
        assert(t.handles[i] == handles1[i]);
        assert(t.tables[dst][h] == Some(e));
        assert(t.handles[i] == h);
        assert(entries[i] == Some(e));
        assert forall|k: int| i <= k < n implies {
            &&& 1 <= #[trigger] t.handles[k] < tables[dst].len()
            &&& entries[k] is Some
            &&& t.tables[dst][t.handles[k] as int] == entries[k]
        } by {
            if k > i {
                assert(i + 1 <= k);
            }
        }
        assert forall|k: int| 0 <= k < i implies t.handles[k] == handles[k] by {
            assert(t.handles[k] == handles1[k]);
        }
        assert forall|p: int| 0 <= p < tables.len() && p != dst implies t.tables[p]
            == tables[p] by {
            assert(t.tables[p] == tables1[p]);
        }
        assert forall|x: int|
            0 <= x < tables[dst].len() && (#[trigger] tables[dst][x]) is Some implies t.tables[dst][x]
            == tables[dst][x] by {
            assert(tables1[dst][x] == tables[dst][x]);
        }
    }
}

/// Only what carries the right to be granted is ever sent.
pub proof fn law_sent_is_grantable(t: Table, handles: Seq<Handle>, i: int, n: int)
    requires
        0 <= i <= n <= MSG_HANDLES,
        grant_error(t, handles, i, n) is None,
    ensures
        forall|k: int|
            i <= k < n ==> {
                &&& proc::entry_of(t, #[trigger] handles[k]) is Ok
                &&& frozen(t, handles, n)[k] == Some(proc::entry_of(t, handles[k])->Ok_0)
                &&& proc::entry_of(t, handles[k])->Ok_0.rights & R_GRANT != 0
            },
    decreases n - i,
{
    if i < n {
        law_sent_is_grantable(t, handles, i + 1, n);
    }
}

/// A message that meets a waiting receiver arrives as it was sent: label, data and badge
/// are those of the sender, and the receiver is told to copy it.
pub proof fn law_delivery_is_faithful(
    w: World,
    me: int,
    ep: int,
    r: int,
    msg: MsgView,
    entries: Seq<Option<HandleEntry>>,
    uptr: u64,
    is_call: bool,
)
    requires
        0 <= me < w.slots.len(),
        0 <= r < w.slots.len(),
        me != r,
        delivered(w, me, ep, r, msg, entries, uptr, is_call).1 == (if is_call {
            Outcome::Sleep
        } else {
            Outcome::Done(0, 0)
        }),
    ensures
        ({
            let got = delivered(w, me, ep, r, msg, entries, uptr, is_call).0.slots[r];
            &&& got.copy_out
            &&& got.ret_rax == 0
            &&& got.staging.tag == msg.tag
            &&& got.staging.data == msg.data
            &&& got.staging.data_len == msg.data_len
            &&& got.staging.badge == msg.badge
        }),
{
}

/// The right to answer a call answers the caller and nobody else.
pub proof fn law_reply_names_caller(
    replies: Seq<Reply>,
    tables: Seq<Table>,
    caller: usize,
    to: int,
)
    requires
        0 <= to < tables.len(),
        tables[to].len() == crate::abi::HANDLE_TABLE_SIZE,
        replies.len() == REPLY_POOL,
        mint(replies, tables, caller, to).handle is Ok,
    ensures
        ({
            let m = mint(replies, tables, caller, to);
            let h = m.handle->Ok_0;
            let e = m.tables[to][h as int]->0;
            &&& m.tables[to][h as int] is Some
            &&& e.obj is Reply
            &&& e.rights == 0
            &&& pending(m.replies[e.obj->Reply_0 as int], e.badge)
            &&& m.replies[e.obj->Reply_0 as int].caller_tid == caller
        }),
{
    let i = free_reply_from(replies, 0);
    lemma_free_reply(replies, 0);
    proc::lemma_empty_from(tables[to], 1);
}

proof fn lemma_free_reply(v: Seq<Reply>, i: int)
    requires
        0 <= i <= v.len(),
    ensures
        i <= free_reply_from(v, i) <= v.len(),
        free_reply_from(v, i) < v.len() ==> !v[free_reply_from(v, i)].in_use,
    decreases v.len() - i,
{
    if i < v.len() && v[i].in_use {
        lemma_free_reply(v, i + 1);
    }
}

/// A reply can be given once: giving it uses it up.
pub proof fn law_reply_is_one_shot(w: World, idx: int, msg: MsgView, src: int)
    requires
        0 <= idx < w.replies.len(),
    ensures
        !pending(replied(w, idx, msg, src).replies[idx], w.replies[idx].gen as u64),
{
}

/// Senders are served in the order they came: a sender joins the queue at its end, and
/// the one at its head is served first.
pub proof fn law_queue_order(w: World, me: int, ep: int, msg: MsgView, uptr: u64, is_call: bool)
    requires
        0 <= ep < w.eps.len(),
        w.eps[ep].queue.len() > 0,
        !w.eps[ep].queue.contains(me as usize),
    ensures
        ({
            let q = queued(
                w,
                me,
                ep,
                msg,
                frozen(w.tables[w.tcbs[me].proc as int], msg.handles, msg.handle_count as int),
                uptr,
                is_call,
            );
            &&& q.eps[ep].queue[0] == w.eps[ep].queue[0]
            &&& q.eps[ep].queue.last() == me as usize
            &&& popped(q, ep).eps[ep].queue == popped(w, ep).eps[ep].queue.push(me as usize)
        }),
{
    let e = frozen(w.tables[w.tcbs[me].proc as int], msg.handles, msg.handle_count as int);
    let q = queued(w, me, ep, msg, e, uptr, is_call);
    law_leaving_is_exact(w.eps[ep].queue, me as usize);
    assert(popped(q, ep).eps[ep].queue =~= popped(w, ep).eps[ep].queue.push(me as usize));
}

/// Endpoint `ep` has a sender at place `i` of its queue.
pub open spec fn queued_at(w: World, ep: int, i: int) -> bool {
    0 <= ep < w.eps.len() && 0 <= i < w.eps[ep].queue.len()
}

/// Thread `t` is in no queue.
pub open spec fn unqueued(w: World, t: int) -> bool {
    forall|ep: int, i: int| #[trigger] queued_at(w, ep, i) ==> w.eps[ep].queue[i] != t
}

/// Every queued sender sleeps, and stands in one place of one queue.
pub open spec fn apart(w: World) -> bool {
    &&& forall|ep: int, i: int| #[trigger]
        queued_at(w, ep, i) ==> w.eps[ep].queue[i] < w.tcbs.len() && w.tcbs[w.eps[ep].queue[i] as int].state
            == State::Blocked
    &&& forall|e: int, i: int, f: int, j: int| #[trigger]
        queued_at(w, e, i) && #[trigger] queued_at(w, f, j) && (e != f || i != j)
            ==> w.eps[e].queue[i] != w.eps[f].queue[j]
}

/// No queue of senders overflows: there are no more places in one than threads, and each
/// thread takes one.
pub proof fn law_queue_has_room(q: Seq<usize>, me: usize)
    requires
        q.no_duplicates(),
        forall|i: int| 0 <= i < q.len() ==> #[trigger] q[i] < MAX_THREADS,
        me < MAX_THREADS,
    ensures
        left(q, me).len() < MAX_THREADS,
        left(q, me).push(me).no_duplicates(),
{
    law_leaving_is_exact(q, me);
    let r = left(q, me).push(me);
    assert forall|i: int| 0 <= i < r.len() implies #[trigger] r[i] < MAX_THREADS by {
        if i < left(q, me).len() {
            assert(q.contains(left(q, me)[i]));
            assert(q[q.index_of(r[i])] == r[i]);
        }
    }
    assert(r.no_duplicates()) by {
        assert forall|i: int, j: int| 0 <= i < r.len() && 0 <= j < r.len() && i != j implies r[i]
            != r[j] by {
            assert(i < left(q, me).len() ==> left(q, me)[i] != me);
            assert(j < left(q, me).len() ==> left(q, me)[j] != me);
        }
    }
    lemma_distinct_below(r, MAX_THREADS as nat);
}

/// There are no more distinct numbers below `n` than `n`.
proof fn lemma_distinct_below(s: Seq<usize>, n: nat)
    requires
        s.no_duplicates(),
        forall|i: int| 0 <= i < s.len() ==> #[trigger] s[i] < n,
    ensures
        s.len() <= n,
    decreases n,
{
    if n > 0 {
        let m = (n - 1) as nat;
        if exists|k: int| 0 <= k < s.len() && s[k] == m {
            let k = choose|k: int| 0 <= k < s.len() && s[k] == m;
            let t = s.remove(k);
            assert forall|i: int| 0 <= i < t.len() implies #[trigger] t[i] < m by {
                assert(t[i] == s[if i < k { i } else { i + 1 }]);
            }
            assert(t.no_duplicates());
            lemma_distinct_below(t, m);
        } else {
            lemma_distinct_below(s, m);
        }
    } else if s.len() > 0 {
        assert(s[0] < n);
    }
}

/// Queues of the same threads stay apart while no queued thread wakes.
proof fn lemma_still_apart(a: World, b: World)
    requires
        apart(a),
        a.eps.len() == b.eps.len(),
        a.tcbs.len() == b.tcbs.len(),
        forall|ep: int| 0 <= ep < a.eps.len() ==> (#[trigger] b.eps[ep]).queue == a.eps[ep].queue,
        forall|t: int|
            0 <= t < a.tcbs.len() ==> (#[trigger] b.tcbs[t]).state == a.tcbs[t].state
                || b.tcbs[t].state == State::Blocked || unqueued(a, t),
    ensures
        apart(b),
{
    assert forall|ep: int, i: int| #[trigger] queued_at(b, ep, i) implies b.eps[ep].queue[i]
        < b.tcbs.len() && b.tcbs[b.eps[ep].queue[i] as int].state == State::Blocked by {
        assert(queued_at(a, ep, i));
    }
    assert forall|e: int, i: int, f: int, j: int| #[trigger]
        queued_at(b, e, i) && #[trigger] queued_at(b, f, j) && (e != f || i != j) implies b.eps[e].queue[i]
        != b.eps[f].queue[j] by {
        assert(queued_at(a, e, i) && queued_at(a, f, j));
    }
}

/// Senders stay apart through a send by a running thread, if the receiver that waits is
/// no sender.
pub proof fn law_send_keeps_apart(
    w: World,
    me: int,
    ep: int,
    msg: MsgView,
    uptr: u64,
    is_call: bool,
)
    requires
        apart(w),
        0 <= me < w.tcbs.len(),
        w.tcbs[me].state == State::Running,
        me <= usize::MAX,
        0 <= ep < w.eps.len(),
        w.eps[ep].waiter matches Some(r) ==> r < w.tcbs.len() && r != me && unqueued(w, r as int),
    ensures
        apart(sent(w, me, ep, msg, uptr, is_call).0),
{
    let b = sent(w, me, ep, msg, uptr, is_call).0;
    assert(unqueued(w, me));
    let goes = grant_error(
        w.tables[w.tcbs[me].proc as int],
        msg.handles,
        0,
        msg.handle_count as int,
    ) is None && w.eps[ep].in_use;
    if goes && w.eps[ep].waiter is None {
        law_leaving_is_exact(w.eps[ep].queue, me as usize);
        assert(!w.eps[ep].queue.contains(me as usize)) by {
            if w.eps[ep].queue.contains(me as usize) {
                assert(queued_at(w, ep, w.eps[ep].queue.index_of(me as usize)));
            }
        }
        assert forall|e: int, i: int| #[trigger] queued_at(b, e, i) implies b.eps[e].queue[i]
            < b.tcbs.len() && b.tcbs[b.eps[e].queue[i] as int].state == State::Blocked by {
            if e != ep || i < w.eps[ep].queue.len() {
                assert(queued_at(w, e, i));
            }
        }
        assert forall|e: int, i: int, f: int, j: int| #[trigger]
            queued_at(b, e, i) && #[trigger] queued_at(b, f, j) && (e != f || i != j) implies b.eps[e].queue[i]
            != b.eps[f].queue[j] by {
            if e != ep || i < w.eps[ep].queue.len() {
                assert(queued_at(w, e, i));
            }
            if f != ep || j < w.eps[ep].queue.len() {
                assert(queued_at(w, f, j));
            }
        }
    } else {
        lemma_still_apart(w, b);
    }
}

/// Taking the first sender from its queue leaves the others apart, and it in no queue.
proof fn lemma_popped_apart(w: World, ep: int)
    requires
        apart(w),
        0 <= ep < w.eps.len(),
        w.eps[ep].queue.len() > 0,
    ensures
        apart(popped(w, ep)),
        unqueued(popped(w, ep), w.eps[ep].queue[0] as int),
        w.eps[ep].queue[0] < w.tcbs.len(),
{
    let b = popped(w, ep);
    assert(queued_at(w, ep, 0));
    assert forall|e: int, i: int| #[trigger] queued_at(b, e, i) implies b.eps[e].queue[i]
        < b.tcbs.len() && b.tcbs[b.eps[e].queue[i] as int].state == State::Blocked
        && b.eps[e].queue[i] != w.eps[ep].queue[0] by {
        assert(queued_at(w, e, if e == ep { i + 1 } else { i }));
    }
    assert forall|e: int, i: int, f: int, j: int| #[trigger]
        queued_at(b, e, i) && #[trigger] queued_at(b, f, j) && (e != f || i != j) implies b.eps[e].queue[i]
        != b.eps[f].queue[j] by {
        assert(queued_at(w, e, if e == ep { i + 1 } else { i }));
        assert(queued_at(w, f, if f == ep { j + 1 } else { j }));
    }
}

/// Senders stay apart through a receive.
pub proof fn law_receive_keeps_apart(w: World, me: int, ep: int)
    requires
        apart(w),
        0 <= ep < w.eps.len(),
    ensures
        apart(served(w, me, ep).0),
    decreases w.eps[ep].queue.len(),
{
    if w.eps[ep].in_use && w.eps[ep].queue.len() > 0 {
        lemma_popped_apart(w, ep);
        let p = popped(w, ep);
        let from = w.eps[ep].queue[0] as int;
        let dst = w.tcbs[me].proc as int;
        let (w1, err) = moved(p, from, dst);
        match err {
            Some(e) => {
                let n = refused(w1, from, e);
                lemma_still_apart(p, n);
                law_receive_keeps_apart(n, me, ep);
            },
            None => if w1.slots[from].is_call {
                let m = mint(w1.replies, w1.tables, from as usize, dst);
                let w2 = World { replies: m.replies, tables: m.tables, ..w1 };
                match m.handle {
                    Err(e) => {
                        let n = refused(w2, from, e);
                        lemma_still_apart(p, n);
                        law_receive_keeps_apart(n, me, ep);
                    },
                    Ok(h) => {
                        lemma_still_apart(p, w2);
                    },
                }
            } else {
                lemma_still_apart(p, served(w, me, ep).0);
            },
        }
    }
}

/// Senders stay apart through a reply to a thread that is in no queue.
pub proof fn law_reply_keeps_apart(w: World, idx: int, msg: MsgView, src: int)
    requires
        apart(w),
        0 <= idx < w.replies.len(),
        w.replies[idx].caller_tid < w.tcbs.len(),
        unqueued(w, w.replies[idx].caller_tid as int),
    ensures
        apart(replied(w, idx, msg, src)),
{
    lemma_still_apart(w, replied(w, idx, msg, src));
}

} // verus!
