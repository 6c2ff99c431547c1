//! Calls that start programs.
use vstd::prelude::*;
use crate::abi::{
    Handle, MsgBuf, MsgView, SysError, BOOT_MEM, HANDLE_NULL, HANDLE_TABLE_SIZE, MSG_HANDLES,
    R_ATTENUATE, R_GRANT, R_MAP, R_SIGNAL, R_SPAWN, SPAWN_DEFAULT_BUDGET,
};
use crate::elf;
use crate::elf::Image;
use crate::image;
use crate::ipc;
use crate::kernel::Kernel;
use crate::load;
use crate::load::LoadResult;
use crate::mm::mem;
use crate::mm::mem::MemObj;
use crate::mm::pmm;
use crate::notif;
use crate::object;
use crate::object::{HandleEntry, ObjType, ObjectRef};
use crate::proc;
use crate::proc::{PState, Process, Table, MAX_PROCS};
use crate::rng;
use crate::shm::Region;
use crate::syscall;
use crate::syscall::memory;
use crate::syscall::msg;
use crate::syscall::{SyscallRet, UserSpace, MSG_BYTES};
use crate::thread;
use crate::thread::{KSTACK_SIZE, MAX_THREADS};

verus! {

/// Page tables a spawner pays for.
pub const PT_OVERHEAD: u64 = 8;

/// Bytes of arguments at most.
pub const ARG_MAX: u64 = 4095;

/// Bytes of a program at most.
pub const MAX_ELF: u64 = 0x400_0000;

/// The name of a process started from a registered image: "spawned".
pub open spec fn image_label() -> Seq<u8> {
    seq![115, 112, 97, 119, 110, 101, 100]
}

/// The name of a process started from bytes: "exec".
pub open spec fn bytes_label() -> Seq<u8> {
    seq![101, 120, 101, 99]
}

/// The child's handle for the `i`-th capability granted.
pub open spec fn spawn_slot(i: int) -> int {
    if i == 0 {
        1
    } else if i == 1 {
        2
    } else if i == 2 {
        4
    } else {
        20
    }
}

fn slot_for(i: usize) -> (h: Handle)
    requires
        i < 4,
    ensures
        h == spawn_slot(i as int),
{
    if i == 0 {
        1
    } else if i == 1 {
        2
    } else if i == 2 {
        4
    } else {
        20
    }
}

/// Why the grants `i .. n` cannot be made: a handle that is not null is bad, or lacks the
/// right to be granted.
pub open spec fn grants_error(t: Table, handles: Seq<Handle>, i: int, n: int) -> Option<SysError>
    decreases n - i,
{
    if i >= n {
        None
    } else if handles[i] == 0 {
        grants_error(t, handles, i + 1, n)
    } else {
        match proc::entry_of(t, handles[i]) {
            Err(e) => Some(e),
            Ok(e) => if e.rights & R_GRANT == 0 {
                Some(SysError::Rights)
            } else {
                grants_error(t, handles, i + 1, n)
            },
        }
    }
}

/// The budget a child gets.
pub open spec fn child_budget(m: MsgView) -> u64 {
    if m.data[0] == 0 {
        SPAWN_DEFAULT_BUDGET
    } else {
        m.data[0]
    }
}

/// The length of the arguments that are passed on.
pub open spec fn arg_len(m: MsgView) -> u64 {
    if m.data[2] <= ARG_MAX {
        m.data[2]
    } else {
        ARG_MAX
    }
}

/// What a child costs its spawner: the pages it is loaded into, its stack among them,
/// tables and argument page, and its own budget.
pub open spec fn spawn_price(pages: int, budget: u64) -> int {
    (pages + PT_OVERHEAD + 1) * 4096 + budget
}

/// A spawner pays for every page its child is loaded into, and for the child's budget.
pub proof fn law_child_is_paid_for(lr: LoadResult, img: Image, rand: u64, budget: u64)
    requires
        img.loadable(),
        load::loads_image(lr, img, rand),
    ensures
        spawn_price(load::program_pages(img), budget) >= load::planned_pages(lr) * 4096 + budget,
{
    load::law_plan_is_counted(lr, img, rand);
}

/// The notification a child's end is to signal.
pub open spec fn exit_notification(t: Table, h: u64) -> Result<Option<u8>, SysError> {
    if h == 0 {
        Ok(None)
    } else {
        match msg::notification(t, h as Handle, R_SIGNAL) {
            Err(e) => Err(e),
            Ok(n) => Ok(Some(n)),
        }
    }
}

/// What a spawn asks for, once checked: the budget that pays, the exit notification, and
/// the price.
pub open spec fn spawn_request(
    t: Table,
    mems: Seq<MemObj>,
    u: UserSpace,
    pages: int,
    mem_h: Handle,
    msg_ptr: u64,
    m: MsgView,
    exit_h: u64,
) -> Result<(u8, Option<u8>, int), SysError> {
    let price = spawn_price(pages, child_budget(m));
    match memory::budget(t, mems, mem_h) {
        Err(e) => Err(e),
        Ok(payer) => match exit_notification(t, exit_h) {
            Err(e) => Err(e),
            Ok(n) => if msg_ptr & 7 != 0 || !u.reaches(msg_ptr, MSG_BYTES as int, false) {
                Err(SysError::Fault)
            } else if m.handle_count > MSG_HANDLES {
                Err(SysError::Msg)
            } else if arg_len(m) > 0 && !u.reaches(m.data[1], arg_len(m) as int, false) {
                Err(SysError::Fault)
            } else {
                match grants_error(t, m.handles, 0, m.handle_count as int) {
                    Some(e) => Err(e),
                    None => if mems[payer as int].remaining < price {
                        Err(SysError::NoMem)
                    } else {
                        Ok((payer, n, price))
                    },
                }
            },
        },
    }
}

/// A spawn that was checked.
struct Prep {
    payer: u8,
    exit_idx: Option<u8>,
    grants: [Option<HandleEntry>; MSG_HANDLES],
    count: usize,
    budget: u64,
    cost: u64,
    arg_ptr: u64,
    arg_len: u64,
}

/// The entries granted by the first `n` handles, null handles granting none.
pub open spec fn granted(t: Table, handles: Seq<Handle>, n: int) -> Seq<Option<HandleEntry>> {
    Seq::new(
        MSG_HANDLES as nat,
        |i: int|
            if i < n && handles[i] != 0 {
                t[handles[i] as int]
            } else {
                None
            },
    )
}

/// Look up the entries a spawn grants.
fn collect_grants(p: &Process, m: &MsgBuf) -> (r: Result<
    [Option<HandleEntry>; MSG_HANDLES],
    SysError,
>)
    requires
        p.wf(),
        m.handle_count <= MSG_HANDLES,
    ensures
        match r {
            Ok(g) => {
                &&& grants_error(p.handles@, m.handles@, 0, m.handle_count as int) is None
                &&& g@ == granted(p.handles@, m.handles@, m.handle_count as int)
                &&& proc::table_ok(g@)
            },
            Err(e) => grants_error(p.handles@, m.handles@, 0, m.handle_count as int) == Some(e),
        },
{
    let n: usize = m.handle_count as usize;
    let mut g: [Option<HandleEntry>; MSG_HANDLES] = [None; MSG_HANDLES];
    let mut i: usize = 0;
    while i < n
        invariant
            n == m.handle_count,
            n <= MSG_HANDLES,
            p.wf(),
            i <= n,
            grants_error(p.handles@, m.handles@, 0, n as int) == grants_error(
                p.handles@,
                m.handles@,
                i as int,
                n as int,
            ),
            g@ =~= granted(p.handles@, m.handles@, i as int),
            proc::table_ok(g@),
        decreases n - i,
    {
        let h: Handle = m.handles[i];
        if h != HANDLE_NULL {
            match p.get(h) {
                Ok(e) => {
                    if e.rights & R_GRANT == 0 {
                        return Err(SysError::Rights);
                    }
                    assert(object::names_object(e.obj));
                    g[i] = Some(e);
                },
                Err(e) => {
                    return Err(e);
                },
            }
        }
        i += 1;
    }
    Ok(g)
}

/// Check a spawn of a program of `count` pages.
fn prepare(
    k: &Kernel,
    cpu: usize,
    u: &UserSpace,
    count: u64,
    mem_h: u64,
    msg_ptr: u64,
    m: &MsgBuf,
    exit_h: u64,
) -> (r: Result<Prep, SysError>)
    requires
        k.wf(),
        k.in_process(cpu),
        u.ok(),
        count <= 0x8_0000_0000 * 0x1_0000 + load::USER_STACK_PAGES + 1,
    ensures
        ({
            let t = k.caller_table(cpu);
            match spawn_request(
                t,
                k.mems.v@,
                *u,
                count as int,
                mem_h as Handle,
                msg_ptr,
                m@,
                exit_h,
            ) {
                Err(e) => r matches Err(x) && x == e,
                Ok((payer, n, price)) => {
                    &&& r is Ok
                    &&& r->Ok_0.payer == payer
                    &&& payer < mem::MEM_POOL
                    &&& r->Ok_0.exit_idx == n
                    &&& n is Some ==> n->0 < notif::POOL_SIZE
                    &&& r->Ok_0.grants@ == granted(t, m.handles@, m.handle_count as int)
                    &&& proc::table_ok(r->Ok_0.grants@)
                    &&& r->Ok_0.count == m.handle_count
                    &&& m.handle_count <= MSG_HANDLES
                    &&& r->Ok_0.budget == child_budget(m@)
                    &&& r->Ok_0.cost == price
                    &&& r->Ok_0.arg_ptr == m.data@[1]
                    &&& r->Ok_0.arg_len == arg_len(m@)
                },
            }
        }),
{
    let me: usize = syscall::caller(k, cpu);
    assert(k.procs.v@[me as int].wf());
    let payer: u8 = match memory::budget_of(&k.procs.v[me], &k.mems, mem_h as Handle) {
        Ok(p) => p,
        Err(e) => {
            return Err(e);
        },
    };
    let exit_idx: Option<u8> = if exit_h != 0 {
        match msg::notification_of(&k.procs.v[me], exit_h as Handle, R_SIGNAL) {
            Ok(n) => Some(n),
            Err(e) => {
                return Err(e);
            },
        }
    } else {
        None
    };
    if msg_ptr & 7 != 0 || !u.check(msg_ptr, MSG_BYTES, false) {
        return Err(SysError::Fault);
    }
    if m.handle_count as usize > MSG_HANDLES {
        return Err(SysError::Msg);
    }
    let budget: u64 = if m.data[0] == 0 {
        SPAWN_DEFAULT_BUDGET
    } else {
        m.data[0]
    };
    let arg_ptr: u64 = m.data[1];
    let len: u64 = if m.data[2] <= ARG_MAX {
        m.data[2]
    } else {
        ARG_MAX
    };
    if len > 0 && !u.check(arg_ptr, len as usize, false) {
        return Err(SysError::Fault);
    }
    let grants = match collect_grants(&k.procs.v[me], m) {
        Ok(g) => g,
        Err(e) => {
            return Err(e);
        },
    };
    let pages: u64 = (count + PT_OVERHEAD + 1) * 4096;
    let left: u64 = mem::remaining(&k.mems, payer);
    if left < pages || left - pages < budget {
        return Err(SysError::NoMem);
    }
    Ok(
        Prep {
            payer,
            exit_idx,
            grants,
            count: m.handle_count as usize,
            budget,
            cost: pages + budget,
            arg_ptr,
            arg_len: len,
        },
    )
}

/// A table with the entries of `g` installed for grants `i .. n`.
pub open spec fn with_grants(t: Table, g: Seq<Option<HandleEntry>>, i: int) -> Table
    decreases i,
{
    if i <= 0 {
        t
    } else if g[i - 1] is Some {
        with_grants(t, g, i - 1).update(spawn_slot(i - 1), g[i - 1])
    } else {
        with_grants(t, g, i - 1)
    }
}

/// The regions after the first `i` grants were counted.
pub open spec fn grants_noted(regions: Seq<Region>, g: Seq<Option<HandleEntry>>, i: int) -> Seq<
    Region,
>
    decreases i,
{
    if i <= 0 {
        regions
    } else if g[i - 1] is Some {
        ipc::handle_noted(grants_noted(regions, g, i - 1), g[i - 1]->0)
    } else {
        grants_noted(regions, g, i - 1)
    }
}

/// An empty handle table.
pub open spec fn empty_table() -> Table {
    Seq::new(HANDLE_TABLE_SIZE as nat, |i: int| None::<HandleEntry>)
}

/// A child that was set up, and how it is loaded.
pub struct Child {
    pub pid: usize,
    /// Its thread, 0 if it was not started.
    pub tid: usize,
    /// Root of its address space: a fresh frame.
    pub root: u64,
    /// Root of the address space whose place it took, to be torn down.
    pub dead: Option<u64>,
    pub load: LoadResult,
    pub arg_ptr: u64,
    pub arg_len: u64,
}

/// The process a spawn makes.
pub open spec fn is_child(
    p: Process,
    root: u64,
    label: Seq<u8>,
    table: Table,
    exit: Option<u8>,
    own: u8,
    payer: u8,
    price: int,
    lr: LoadResult,
) -> bool {
    &&& p.state == PState::Alive
    &&& p.pml4_phys == root
    &&& p.name@ == proc::name_field(label)
    &&& p.handles@ =~= table
    &&& p.exit_notif == exit
    &&& p.mem_idx == Some(own)
    &&& p.parent_mem == Some(payer)
    &&& p.spawn_cost == price
    &&& p.tls == lr.tls
    &&& p.tls_next == lr.tls_next
    &&& p.pledge == u64::MAX
    &&& p.imm_count == 0
    &&& p.sig_dispatch == 0
}

/// The process that a spawn leaves behind which finds no budget for it: it is alive and
/// loaded, holds nothing and has no thread.
pub open spec fn is_orphan(p: Process, root: u64, label: Seq<u8>, lr: LoadResult) -> bool {
    &&& p.state == PState::Alive
    &&& p.pml4_phys == root
    &&& p.name@ == proc::name_field(label)
    &&& p.handles@ =~= empty_table()
    &&& p.exit_notif is None
    &&& p.mem_idx is None
    &&& p.parent_mem is None
    &&& p.spawn_cost == 0
    &&& p.tls == lr.tls
    &&& p.tls_next == lr.tls_next
    &&& p.pledge == u64::MAX
    &&& p.imm_count == 0
    &&& p.sig_dispatch == 0
}

/// Child `c` is set up from image `img` in the lowest reusable process, with its address
/// space at `root`.
pub open spec fn sets_up(a: Kernel, c: Child, img: Image, m: MsgView, root: u64) -> bool {
    let id = proc::reusable_from(a.procs.v@, a.sched.tcbs@, 0);
    &&& c.pid == id
    &&& c.root == root
    &&& c.dead == (if a.procs.v@[id].state == PState::Dead {
        Some(a.procs.v@[id].pml4_phys)
    } else {
        None
    })
    &&& load::loads_image(c.load, img, rng::next_value(a.rng@))
    &&& c.arg_ptr == m.data[1]
    &&& c.arg_len == arg_len(m)
}

/// What a spawn of image `img` that was granted comes to. A frame for the root of the
/// child's address space is taken first, then a process, then a budget: what was taken
/// when one of them is found missing stays taken. Nothing is taken if there is no thread
/// for the child. A spawn that fails is not charged for.
pub open spec fn spawns(
    a: Kernel,
    b: Kernel,
    img: Image,
    label: Seq<u8>,
    stacks: u64,
    g: Seq<Option<HandleEntry>>,
    n: int,
    m: MsgView,
    payer: u8,
    exit: Option<u8>,
    price: int,
    r: SyscallRet,
    child: Option<Child>,
) -> bool {
    let root = pmm::next_frame(a.pmm)->0;
    let id = proc::reusable_from(a.procs.v@, a.sched.tcbs@, 0);
    let own = mem::free_mem_from(a.mems.v@, 0);
    if pmm::next_frame(a.pmm) is None {
        r == syscall::failed(SysError::NoMem) && child is None && b == a
    } else if id >= MAX_PROCS {
        &&& r == syscall::failed(SysError::NoMem)
        &&& child is None
        &&& b == Kernel { pmm: b.pmm, ..a }
        &&& pmm::allocated(a.pmm, b.pmm)
    } else if own >= mem::MEM_POOL {
        &&& r == syscall::failed(SysError::NoMem)
        &&& child matches Some(c)
        &&& c.tid == 0
        &&& sets_up(a, c, img, m, root)
        &&& b == Kernel { pmm: b.pmm, procs: b.procs, rng: b.rng, ..a }
        &&& pmm::allocated(a.pmm, b.pmm)
        &&& b.rng@ == rng::after_steps(a.rng@, 1)
        &&& proc::proc_becomes(a.procs, b.procs, id, b.procs.v@[id])
        &&& is_orphan(b.procs.v@[id], root, label, c.load)
    } else if thread::free_thread_from(a.sched.tcbs@, 1) == 0 {
        r == syscall::failed(SysError::NoMem) && child is None && b == a
    } else {
        &&& pmm::allocated(a.pmm, b.pmm)
        &&& spawns_into(a, b, img, label, stacks, g, n, m, payer, exit, price, r, child, root)
    }
}

/// What a spawn comes to that lacks nothing and whose address space has its root at `root`.
pub open spec fn spawns_into(
    a: Kernel,
    b: Kernel,
    img: Image,
    label: Seq<u8>,
    stacks: u64,
    g: Seq<Option<HandleEntry>>,
    n: int,
    m: MsgView,
    payer: u8,
    exit: Option<u8>,
    price: int,
    r: SyscallRet,
    child: Option<Child>,
    root: u64,
) -> bool {
    let id = proc::reusable_from(a.procs.v@, a.sched.tcbs@, 0);
    let own = mem::free_mem_from(a.mems.v@, 0);
    let gen = a.mems.v@[own].gen;
    let table = with_grants(
        empty_table().update(BOOT_MEM as int, Some(proc::own_budget(own, gen))),
        g,
        n,
    );
    let tid = thread::free_thread_from(a.sched.tcbs@, 1);
    &&& r == syscall::succeeded(id as u64)
    &&& child is Some
    &&& child->0.tid == tid
    &&& sets_up(a, child->0, img, m, root)
    &&& b == Kernel {
        pmm: b.pmm,
        procs: b.procs,
        rng: b.rng,
        mems: b.mems,
        regions: b.regions,
        sched: b.sched,
        ..a
    }
    &&& b.rng@ == rng::after_steps(a.rng@, 1)
    &&& proc::proc_becomes(a.procs, b.procs, id, b.procs.v@[id])
    &&& is_child(
        b.procs.v@[id],
        root,
        label,
        table,
        exit,
        own as u8,
        payer,
        price,
        child->0.load,
    )
    &&& b.regions.v@ =~= grants_noted(a.regions.v@, g, n)
    &&& b.mems.v@ =~= memory::debited(
        a.mems.v@.update(own, MemObj { in_use: true, remaining: child_budget(m), gen }),
        payer as int,
        price,
    )
    &&& thread::tcb_becomes(
        a.sched,
        b.sched,
        tid,
        thread::spawned(
            a.sched.tcbs@[tid],
            tid,
            stacks,
            id as usize,
            root,
            child->0.load.fs_base,
        ),
    )
}

/// A spawn that fails costs its spawner nothing: no budget changes, and no handle, thread
/// or shared region either.
pub proof fn law_failed_spawn_is_free(
    a: Kernel,
    b: Kernel,
    img: Image,
    label: Seq<u8>,
    stacks: u64,
    g: Seq<Option<HandleEntry>>,
    n: int,
    m: MsgView,
    payer: u8,
    exit: Option<u8>,
    price: int,
    r: SyscallRet,
    child: Option<Child>,
)
    requires
        spawns(a, b, img, label, stacks, g, n, m, payer, exit, price, r, child),
        r.rax != 0,
    ensures
        b.mems == a.mems,
        b.sched == a.sched,
        b.regions == a.regions,
        child is Some ==> child->0.tid == 0,
{
}

/// Install the capabilities of a child.
fn install_grants(
    k: &mut Kernel,
    id: usize,
    g: &[Option<HandleEntry>; MSG_HANDLES],
    n: usize,
)
    requires
        old(k).wf(),
        id < MAX_PROCS,
        n <= MSG_HANDLES,
        proc::table_ok(g@),
    ensures
        final(k).wf(),
        *final(k) == (Kernel { procs: final(k).procs, regions: final(k).regions, ..*old(k) }),
        crate::kernel::table_becomes(
            old(k).procs,
            final(k).procs,
            id as int,
            with_grants(old(k).procs.v@[id as int].handles@, g@, n as int),
        ),
        final(k).regions.v@ == grants_noted(old(k).regions.v@, g@, n as int),
{
    let mut i: usize = 0;
    while i < n
        invariant
            i <= n <= MSG_HANDLES,
            k.wf(),
            id < MAX_PROCS,
            old(k).procs.v@.len() == MAX_PROCS,
            proc::table_ok(g@),
            *k == (Kernel { procs: k.procs, regions: k.regions, ..*old(k) }),
            crate::kernel::table_becomes(
                old(k).procs,
                k.procs,
                id as int,
                with_grants(old(k).procs.v@[id as int].handles@, g@, i as int),
            ),
            k.regions.v@ == grants_noted(old(k).regions.v@, g@, i as int),
        decreases n - i,
    {
        if let Some(e) = g[i] {
            assert(object::names_object(g@[i as int]->0.obj));
            let mut p = k.procs.v[id];
            assert(k.procs.v@[id as int].wf());
            p.install(slot_for(i), e);
            k.procs.v[id] = p;
            ipc::note_handle(&mut k.regions, &e);
        }
        i += 1;
    }
}

/// Fill in the process of a child: its budget, what is to happen when it ends, its
/// thread-local storage and its capabilities.
fn furnish(k: &mut Kernel, id: usize, own: u8, prep: &Prep, lr: &LoadResult)
    requires
        old(k).wf(),
        id < MAX_PROCS,
        own < mem::MEM_POOL,
        prep.payer < mem::MEM_POOL,
        prep.exit_idx is Some ==> prep.exit_idx->0 < notif::POOL_SIZE,
        prep.count <= MSG_HANDLES,
        proc::table_ok(prep.grants@),
    ensures
        final(k).wf(),
        *final(k) == (Kernel { procs: final(k).procs, regions: final(k).regions, ..*old(k) }),
        ({
            let p = old(k).procs.v@[id as int];
            let q = final(k).procs.v@[id as int];
            &&& proc::proc_becomes(
                old(k).procs,
                final(k).procs,
                id as int,
                Process {
                    tls: lr.tls,
                    tls_next: lr.tls_next,
                    exit_notif: prep.exit_idx,
                    mem_idx: Some(own),
                    parent_mem: Some(prep.payer),
                    spawn_cost: prep.cost,
                    handles: q.handles,
                    ..p
                },
            )
            &&& q.handles@ == with_grants(
                p.handles@.update(
                    BOOT_MEM as int,
                    Some(proc::own_budget(own as int, old(k).mems.v@[own as int].gen)),
                ),
                prep.grants@,
                prep.count as int,
            )
        }),
        final(k).regions.v@ == grants_noted(old(k).regions.v@, prep.grants@, prep.count as int),
{
    let gen: u32 = mem::mem_gen(&k.mems, own);
    let mut p = k.procs.v[id];
    assert(k.procs.v@[id as int].wf());
    p.tls = lr.tls;
    p.tls_next = lr.tls_next;
    p.exit_notif = prep.exit_idx;
    p.mem_idx = Some(own);
    p.parent_mem = Some(prep.payer);
    p.spawn_cost = prep.cost;
    p.install(
        BOOT_MEM,
        HandleEntry {
            obj: ObjectRef::Memory(own),
            rights: R_MAP | R_GRANT | R_ATTENUATE,
            badge: gen as u64,
        },
    );
    k.procs.v[id] = p;
    install_grants(k, id, &prep.grants, prep.count);
}

/// Furnish a child, charge its spawner, and start its thread.
fn start(k: &mut Kernel, id: usize, root: u64, own: u8, stacks: u64, prep: &Prep, lr: &LoadResult) -> (tid:
    usize)
    requires
        old(k).wf(),
        id < MAX_PROCS,
        own < mem::MEM_POOL,
        stacks + MAX_THREADS * KSTACK_SIZE <= u64::MAX,
        prep.payer < mem::MEM_POOL,
        prep.exit_idx is Some ==> prep.exit_idx->0 < notif::POOL_SIZE,
        prep.count <= MSG_HANDLES,
        proc::table_ok(prep.grants@),
        old(k).mems.v@[prep.payer as int].remaining >= prep.cost,
    ensures
        final(k).wf(),
        *final(k) == (Kernel {
            procs: final(k).procs,
            regions: final(k).regions,
            mems: final(k).mems,
            sched: final(k).sched,
            ..*old(k)
        }),
        ({
            let p = old(k).procs.v@[id as int];
            let q = final(k).procs.v@[id as int];
            &&& proc::proc_becomes(
                old(k).procs,
                final(k).procs,
                id as int,
                Process {
                    tls: lr.tls,
                    tls_next: lr.tls_next,
                    exit_notif: prep.exit_idx,
                    mem_idx: Some(own),
                    parent_mem: Some(prep.payer),
                    spawn_cost: prep.cost,
                    handles: q.handles,
                    ..p
                },
            )
            &&& q.handles@ == with_grants(
                p.handles@.update(
                    BOOT_MEM as int,
                    Some(proc::own_budget(own as int, old(k).mems.v@[own as int].gen)),
                ),
                prep.grants@,
                prep.count as int,
            )
        }),
        final(k).regions.v@ == grants_noted(old(k).regions.v@, prep.grants@, prep.count as int),
        final(k).mems.v@ == memory::debited(old(k).mems.v@, prep.payer as int, prep.cost as int),
        tid == thread::free_thread_from(old(k).sched.tcbs@, 1),
        tid == 0 ==> final(k).sched == old(k).sched,
        tid != 0 ==> thread::tcb_becomes(
            old(k).sched,
            final(k).sched,
            tid as int,
            thread::spawned(
                old(k).sched.tcbs@[tid as int],
                tid as int,
                stacks,
                id,
                root,
                lr.fs_base,
            ),
        ),
{
    furnish(k, id, own, prep, lr);
    let ghost mems1 = k.mems.v@;
    let _ = mem::debit(&mut k.mems, prep.payer, prep.cost);
    assert(k.mems.v@ =~= memory::debited(mems1, prep.payer as int, prep.cost as int));
    let ghost before = k.sched.tcbs@;
    let tid: usize = thread::spawn_user(&mut k.sched, stacks, id, root, lr.fs_base);
    proof {
        ipc::lemma_wf_for_same_procs(k.ipc, before, k.sched.tcbs@);
    }
    tid
}

/// Start a child whose spawn was checked.
#[verifier::spinoff_prover]
fn launch(k: &mut Kernel, img: &Image, label: &[u8], stacks: u64, prep: &Prep, m: Ghost<MsgView>) -> (r:
    (SyscallRet, Option<Child>))
    requires
        old(k).wf(),
        img.loadable(),
        stacks + MAX_THREADS * KSTACK_SIZE <= u64::MAX,
        prep.payer < mem::MEM_POOL,
        prep.exit_idx is Some ==> prep.exit_idx->0 < notif::POOL_SIZE,
        prep.count <= MSG_HANDLES,
        proc::table_ok(prep.grants@),
        old(k).mems.v@[prep.payer as int].in_use,
        old(k).mems.v@[prep.payer as int].remaining >= prep.cost,
        prep.budget == child_budget(m@),
        prep.arg_ptr == m@.data[1],
        prep.arg_len == arg_len(m@),
    ensures
        final(k).wf(),
        spawns(
            *old(k),
            *final(k),
            *img,
            label@,
            stacks,
            prep.grants@,
            prep.count as int,
            m@,
            prep.payer,
            prep.exit_idx,
            prep.cost as int,
            r.0,
            r.1,
        ),
{
    if proc::find_reusable(&k.procs, &k.sched).is_some() && mem::has_budget(&k.mems)
        && !thread::has_slot(&k.sched) {
        return (SyscallRet::err(SysError::NoMem), None);
    }
    let root: u64 = match pmm::alloc_frame(&mut k.pmm) {
        Some(f) => f,
        None => {
            return (SyscallRet::err(SysError::NoMem), None);
        },
    };
    let (id, dead) = match proc::create(&mut k.procs, &k.sched, root, label) {
        Ok(t) => t,
        Err(e) => {
            return (SyscallRet::err(e), None);
        },
    };
    assert(k.procs.v@[id as int].handles@ =~= empty_table());
    let rand: u64 = rng::next_u64(&mut k.rng);
    let lr = load::load_into(img, rand);
    let own: u8 = match mem::grant(&mut k.mems, prep.budget) {
        Some(m) => m,
        None => {
            let mut p = k.procs.v[id];
            assert(k.procs.v@[id as int].wf());
            p.tls = lr.tls;
            p.tls_next = lr.tls_next;
            k.procs.v[id] = p;
            return (
                SyscallRet::err(SysError::NoMem),
                Some(
                    Child {
                        pid: id,
                        tid: 0,
                        root,
                        dead,
                        load: lr,
                        arg_ptr: prep.arg_ptr,
                        arg_len: prep.arg_len,
                    },
                ),
            );
        },
    };
    let tid: usize = start(k, id, root, own, stacks, prep, &lr);
    (
        SyscallRet::ok_handle(id as Handle),
        Some(
            Child {
                pid: id,
                tid,
                root,
                dead,
                load: lr,
                arg_ptr: prep.arg_ptr,
                arg_len: prep.arg_len,
            },
        ),
    )
}

/// Start a program from a loadable image, for the caller and at the caller's expense.
/// `msg` is the message at `msg_ptr`: its first word is the child's budget, the next two
/// say where the arguments are, and its handles are the capabilities granted. The kernel
/// stacks of threads begin at `stacks`.
pub fn spawn_common(
    k: &mut Kernel,
    cpu: usize,
    u: &UserSpace,
    img: &Image,
    mem_h: u64,
    msg_ptr: u64,
    msg: &MsgBuf,
    exit_notif_h: u64,
    label: &[u8],
    stacks: u64,
) -> (r: (SyscallRet, Option<Child>))
    requires
        old(k).wf(),
        old(k).in_process(cpu),
        u.ok(),
        img.loadable(),
        stacks + MAX_THREADS * KSTACK_SIZE <= u64::MAX,
    ensures
        final(k).wf(),
        match spawn_request(
            old(k).caller_table(cpu),
            old(k).mems.v@,
            *u,
            load::program_pages(*img),
            mem_h as Handle,
            msg_ptr,
            msg@,
            exit_notif_h,
        ) {
            Err(e) => r.0 == syscall::failed(e) && r.1 is None && *final(k) == *old(k),
            Ok((payer, exit, price)) => spawns(
                *old(k),
                *final(k),
                *img,
                label@,
                stacks,
                granted(old(k).caller_table(cpu), msg.handles@, msg.handle_count as int),
                msg.handle_count as int,
                msg@,
                payer,
                exit,
                price,
                r.0,
                r.1,
            ),
        },
{
    let pages: u64 = load::count_pages(img);
    let prep = match prepare(k, cpu, u, pages, mem_h, msg_ptr, msg, exit_notif_h) {
        Ok(p) => p,
        Err(e) => {
            return (SyscallRet::err(e), None);
        },
    };
    launch(k, img, label, stacks, &prep, Ghost(msg@))
}

/// The image behind handle `h`, and whether it can be loaded.
pub open spec fn image_request(t: Table, images: Seq<image::ImageEntry>, h: Handle) -> Result<
    Seq<u8>,
    SysError,
> {
    match proc::entry_with(t, h, ObjType::Image, R_SPAWN) {
        Err(e) => Err(e),
        Ok(e) => {
            let i = e.obj->Image_0;
            if i >= image::MAX_IMAGES || !images[i as int].in_use {
                Err(SysError::Msg)
            } else {
                Ok(images[i as int].data@)
            }
        },
    }
}

/// What spawning the program `data` comes to: bytes that are no program, or none that can
/// be loaded, are refused.
pub open spec fn program_spawns(
    a: Kernel,
    b: Kernel,
    cpu: usize,
    u: UserSpace,
    data: Seq<u8>,
    mem_h: u64,
    msg_ptr: u64,
    m: MsgView,
    exit_h: u64,
    label: Seq<u8>,
    stacks: u64,
    r: (SyscallRet, Option<Child>),
) -> bool {
    if !elf::valid_header(data) {
        r.0 == syscall::failed(SysError::Msg) && r.1 is None && b == a
    } else {
        exists|img: Image| #[trigger]
            img.describes(data) && if !img.loadable() {
                r.0 == syscall::failed(SysError::Msg) && r.1 is None && b == a
            } else {
                match spawn_request(
                    a.caller_table(cpu),
                    a.mems.v@,
                    u,
                    load::program_pages(img),
                    mem_h as Handle,
                    msg_ptr,
                    m,
                    exit_h,
                ) {
                    Err(e) => r.0 == syscall::failed(e) && r.1 is None && b == a,
                    Ok((payer, exit, price)) => spawns(
                        a,
                        b,
                        img,
                        label,
                        stacks,
                        granted(a.caller_table(cpu), m.handles, m.handle_count as int),
                        m.handle_count as int,
                        m,
                        payer,
                        exit,
                        price,
                        r.0,
                        r.1,
                    ),
                }
            }
    }
}

/// Start a registered program, which the caller must hold a capability to spawn. Returns
/// the child's number, which grants nothing.
pub fn sys_spawn(
    k: &mut Kernel,
    cpu: usize,
    u: &UserSpace,
    image_h: u64,
    mem_h: u64,
    msg_ptr: u64,
    msg: &MsgBuf,
    exit_notif_h: u64,
    stacks: u64,
) -> (r: (SyscallRet, Option<Child>))
    requires
        old(k).wf(),
        old(k).in_process(cpu),
        u.ok(),
        stacks + MAX_THREADS * KSTACK_SIZE <= u64::MAX,
    ensures
        final(k).wf(),
        match image_request(old(k).caller_table(cpu), old(k).images.v@, image_h as Handle) {
            Err(e) => r.0 == syscall::failed(e) && r.1 is None && *final(k) == *old(k),
            Ok(data) => program_spawns(
                *old(k),
                *final(k),
                cpu,
                *u,
                data,
                mem_h,
                msg_ptr,
                msg@,
                exit_notif_h,
                image_label(),
                stacks,
                r,
            ),
        },
{
    let me: usize = syscall::caller(k, cpu);
    let entry = match k.procs.v[me].lookup(image_h as Handle, ObjType::Image, R_SPAWN) {
        Ok(e) => e,
        Err(e) => {
            return (SyscallRet::err(e), None);
        },
    };
    let idx: u8 = match entry.obj {
        ObjectRef::Image(i) => i,
        _ => {
            return (SyscallRet::err(SysError::BadType), None);
        },
    };
    let data: &'static [u8] = match image::bytes(&k.images, idx) {
        Some(b) => b,
        None => {
            return (SyscallRet::err(SysError::Msg), None);
        },
    };
    let label: [u8; 7] = [115, 112, 97, 119, 110, 101, 100];
    assert(label@ =~= image_label());
    spawn_program(k, cpu, u, data, mem_h, msg_ptr, msg, exit_notif_h, label.as_slice(), stacks)
}

/// Start the program `data` if it is one that can be loaded.
fn spawn_program(
    k: &mut Kernel,
    cpu: usize,
    u: &UserSpace,
    data: &[u8],
    mem_h: u64,
    msg_ptr: u64,
    msg: &MsgBuf,
    exit_notif_h: u64,
    label: &[u8],
    stacks: u64,
) -> (r: (SyscallRet, Option<Child>))
    requires
        old(k).wf(),
        old(k).in_process(cpu),
        u.ok(),
        stacks + MAX_THREADS * KSTACK_SIZE <= u64::MAX,
    ensures
        final(k).wf(),
        program_spawns(
            *old(k),
            *final(k),
            cpu,
            *u,
            data@,
            mem_h,
            msg_ptr,
            msg@,
            exit_notif_h,
            label@,
            stacks,
            r,
        ),
{
    let img = match Image::try_validate(data) {
        Ok(i) => i,
        Err(e) => {
            return (SyscallRet::err(e), None);
        },
    };
    assert(img.describes(data@));
    if !img.is_loadable() {
        return (SyscallRet::err(SysError::Msg), None);
    }
    spawn_common(k, cpu, u, &img, mem_h, msg_ptr, msg, exit_notif_h, label, stacks)
}

/// Start the program `data`, the `len` bytes at `buf`: whoever can read a program and
/// pay for it can run it. Bytes that are no sound program are an error, whatever they
/// are.
pub fn sys_spawn_bytes(
    k: &mut Kernel,
    cpu: usize,
    u: &UserSpace,
    buf: u64,
    len: u64,
    data: &[u8],
    mem_h: u64,
    msg_ptr: u64,
    msg: &MsgBuf,
    exit_notif_h: u64,
    stacks: u64,
) -> (r: (SyscallRet, Option<Child>))
    requires
        old(k).wf(),
        old(k).in_process(cpu),
        u.ok(),
        stacks + MAX_THREADS * KSTACK_SIZE <= u64::MAX,
    ensures
        final(k).wf(),
        if len == 0 || len > MAX_ELF {
            r.0 == syscall::failed(SysError::Msg) && r.1 is None && *final(k) == *old(k)
        } else if !u.reaches(buf, len as int, false) {
            r.0 == syscall::failed(SysError::Fault) && r.1 is None && *final(k) == *old(k)
        } else {
            program_spawns(
                *old(k),
                *final(k),
                cpu,
                *u,
                data@,
                mem_h,
                msg_ptr,
                msg@,
                exit_notif_h,
                bytes_label(),
                stacks,
                r,
            )
        },
{
    if len == 0 || len > MAX_ELF {
        return (SyscallRet::err(SysError::Msg), None);
    }
    if !u.check(buf, len as usize, false) {
        return (SyscallRet::err(SysError::Fault), None);
    }
    let label: [u8; 4] = [101, 120, 101, 99];
    assert(label@ =~= bytes_label());
    spawn_program(k, cpu, u, data, mem_h, msg_ptr, msg, exit_notif_h, label.as_slice(), stacks)
}

proof fn lemma_grant_slots(t: Table, g: Seq<Option<HandleEntry>>, n: int, h: int)
    requires
        t.len() == HANDLE_TABLE_SIZE,
        0 <= n <= 4,
        g.len() == 4,
        0 <= h < HANDLE_TABLE_SIZE,
    ensures
        with_grants(t, g, n).len() == HANDLE_TABLE_SIZE,
        with_grants(t, g, n)[h] == t[h] || exists|i: int|
            0 <= i < n && #[trigger] g[i] is Some && with_grants(t, g, n)[h] == g[i] && h
                == spawn_slot(i),
    decreases n,
{
    if n > 0 {
        lemma_grant_slots(t, g, n - 1, h);
        if g[n - 1] is Some && h == spawn_slot(n - 1) {
            assert(with_grants(t, g, n)[h] == g[n - 1]);
        }
    }
}

proof fn lemma_grants_had_right(t: Table, handles: Seq<Handle>, i: int, n: int, j: int)
    requires
        grants_error(t, handles, i, n) is None,
        i <= j < n,
        handles[j] != 0,
    ensures
        proc::entry_of(t, handles[j]) is Ok,
        proc::entry_of(t, handles[j])->Ok_0.rights & R_GRANT != 0,
    decreases n - i,
{
    if i < j {
        lemma_grants_had_right(t, handles, i + 1, n, j);
    }
}

/// A child holds nothing but its own budget and what its spawner held with the right to
/// grant it: no authority comes from anywhere else.
pub proof fn law_child_is_confined(
    t: Table,
    handles: Seq<Handle>,
    n: int,
    own: int,
    gen: u32,
    h: int,
)
    requires
        t.len() == HANDLE_TABLE_SIZE,
        handles.len() == 4,
        0 <= n <= 4,
        grants_error(t, handles, 0, n) is None,
        0 <= h < HANDLE_TABLE_SIZE,
    ensures
        ({
            let table = with_grants(
                empty_table().update(BOOT_MEM as int, Some(proc::own_budget(own, gen))),
                granted(t, handles, n),
                n,
            );
            &&& h == BOOT_MEM ==> table[h] == Some(proc::own_budget(own, gen))
            &&& h != BOOT_MEM && table[h] is Some ==> exists|j: int|
                0 <= j < n && proc::entry_of(t, #[trigger] handles[j]) == Ok::<
                    HandleEntry,
                    SysError,
                >(table[h]->0) && table[h]->0.rights & R_GRANT != 0
        }),
{
    let base = empty_table().update(BOOT_MEM as int, Some(proc::own_budget(own, gen)));
    let g = granted(t, handles, n);
    lemma_grant_slots(base, g, n, h);
    let table = with_grants(base, g, n);
    if h != BOOT_MEM && table[h] is Some {
        assert(base[h] is None);
        let i = choose|i: int|
            0 <= i < n && #[trigger] g[i] is Some && table[h] == g[i] && h == spawn_slot(i);
        lemma_grants_had_right(t, handles, 0, n, i);
        assert(proc::entry_of(t, handles[i]) == Ok::<HandleEntry, SysError>(table[h]->0));
    }
}

proof fn lemma_nothing_shared(w: crate::shm::ShmWorld, t: Table, n: int)
    requires
        0 <= n <= t.len(),
        forall|i: int| 0 <= i < t.len() && (#[trigger] t[i]) is Some ==> !(t[i]->0.obj is Shm),
    ensures
        crate::kernel::handles_dropped(w, t, n) == w,
    decreases n,
{
    if n > 0 {
        lemma_nothing_shared(w, t, n - 1);
    }
}

/// Spawning is paid for and refunded: when a child ends that holds no shared region, its
/// spawner's budget is what it was before the spawn, and the child's budget is gone.
pub proof fn law_spawn_is_refunded(
    a: Kernel,
    b: Kernel,
    c: Kernel,
    img: Image,
    label: Seq<u8>,
    stacks: u64,
    g: Seq<Option<HandleEntry>>,
    n: int,
    m: MsgView,
    payer: u8,
    exit: Option<u8>,
    price: int,
    r: SyscallRet,
    child: Option<Child>,
    code: i32,
)
    requires
        a.wf(),
        b.wf(),
        payer < mem::MEM_POOL,
        a.mems.v@[payer as int].in_use,
        0 < price <= a.mems.v@[payer as int].remaining,
        spawns(a, b, img, label, stacks, g, n, m, payer, exit, price, r, child),
        child is Some,
        child->0.tid != 0,
        forall|i: int|
            0 <= i < HANDLE_TABLE_SIZE && (#[trigger] b.procs.v@[child->0.pid as int].handles@[i])
                is Some ==> !(b.procs.v@[child->0.pid as int].handles@[i]->0.obj is Shm),
        proc::killed(b, c, child->0.pid as int, code),
    ensures
        c.mems.v@[payer as int] == a.mems.v@[payer as int],
        !c.mems.v@[b.procs.v@[child->0.pid as int].mem_idx->0 as int].in_use,
{
    let id = child->0.pid as int;
    let p = b.procs.v@[id];
    let own = mem::free_mem_from(a.mems.v@, 0);
    mem::lemma_free_mem(a.mems.v@, 0);
    lemma_nothing_shared(b.shm_world(), p.handles@, HANDLE_TABLE_SIZE as int);
    assert(own != payer);
}

} // verus!
