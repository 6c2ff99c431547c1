//! Processes: an address space and a table of capabilities each.
use vstd::prelude::*;
use crate::abi::{
    Handle, SysError, BOOT_CONSOLE, BOOT_MEM, HANDLE_TABLE_SIZE, R_ATTENUATE, R_GRANT, R_MAP, R_WRITE,
};
use crate::bytes;
use crate::ipc;
use crate::ipc::{Ipc, Reply, SlotView, REPLY_POOL};
use crate::kernel;
use crate::kernel::Kernel;
use crate::mm::mem;
use crate::mm::mem::{MemObj, MEM_POOL};
use crate::notif;
use crate::notif::{Notif, POOL_SIZE};
use crate::object;
use crate::object::{HandleEntry, ObjType, ObjectRef};
use crate::shm::{Region, Regions};
use crate::thread;
use crate::thread::{Sched, State, Switch, Tcb};

verus! {

/// Process slots.
pub const MAX_PROCS: usize = 32;

/// Locked address ranges per process.
pub const MAX_IMM: usize = 8;

/// Bytes of a process name.
pub const NAME_LEN: usize = 16;

/// Where the thread-local blocks of a process begin.
pub const TLS_REGION_BASE: u64 = 0x0000_7000_0000_0000;

#[derive(Clone, Copy, PartialEq, Eq, Debug, Structural)]
pub enum PState {
    Free,
    Alive,
    Dead,
}

/// What every thread's block of thread-local storage is made from.
#[derive(Clone, Copy, PartialEq, Eq, Debug, Structural)]
pub struct TlsTemplate {
    pub vaddr: u64,
    pub filesz: u64,
    pub memsz: u64,
    pub align: u64,
}

/// One process.
#[derive(Clone, Copy)]
pub struct Process {
    pub state: PState,
    pub pml4_phys: u64,
    pub tls: Option<TlsTemplate>,
    /// Address of the next thread-local block.
    pub tls_next: u64,
    pub handles: [Option<HandleEntry>; HANDLE_TABLE_SIZE],
    /// Notification to signal when the process ends.
    pub exit_notif: Option<u8>,
    /// The process's own budget, given back when it ends.
    pub mem_idx: Option<u8>,
    /// The budget that paid for the process, and what it paid.
    pub parent_mem: Option<u8>,
    pub spawn_cost: u64,
    /// Syscall classes the process may use.
    pub pledge: u64,
    /// Address ranges whose protection is locked; the first `imm_count` are live.
    pub imm: [(u64, u64); MAX_IMM],
    pub imm_count: usize,
    pub name: [u8; NAME_LEN],
    /// User address of the signal dispatcher, 0 for none.
    pub sig_dispatch: u64,
}

/// The contents of a handle table.
pub type Table = Seq<Option<HandleEntry>>;

/// Every entry of a table names an object that exists.
pub open spec fn table_ok(t: Table) -> bool {
    forall|i: int| 0 <= i < t.len() && (#[trigger] t[i]) is Some ==> object::names_object(t[i]->0.obj)
}

/// The entry behind handle `h`.
pub open spec fn entry_of(t: Table, h: Handle) -> Result<HandleEntry, SysError> {
    if h == 0 || h >= HANDLE_TABLE_SIZE || t[h as int] is None {
        Err(SysError::BadHandle)
    } else {
        Ok(t[h as int]->0)
    }
}

/// Handle `h` of table `t` names a capability with all the rights of `mask`.
pub open spec fn holds(t: Table, h: Handle, mask: u32) -> bool {
    1 <= h < 64 && t[h as int] is Some && t[h as int]->0.rights & mask == mask
}

/// The entry behind handle `h`, which must be of type `ty` and carry `rights`. A bad
/// handle is found before a wrong type, and a wrong type before missing rights.
pub open spec fn entry_with(t: Table, h: Handle, ty: ObjType, rights: u32) -> Result<
    HandleEntry,
    SysError,
> {
    match entry_of(t, h) {
        Err(e) => Err(e),
        Ok(e) => if object::type_of(e.obj) != ty {
            Err(SysError::BadType)
        } else if !object::has_rights(e.rights, rights) {
            Err(SysError::Rights)
        } else {
            Ok(e)
        },
    }
}

/// The lowest empty slot from `i` up, or the table size.
pub open spec fn empty_from(t: Table, i: int) -> int
    decreases HANDLE_TABLE_SIZE - i,
{
    if i >= HANDLE_TABLE_SIZE {
        HANDLE_TABLE_SIZE as int
    } else if t[i] is None {
        i
    } else {
        empty_from(t, i + 1)
    }
}

/// The slot a new handle gets: the lowest empty one, never slot 0.
pub open spec fn next_slot(t: Table) -> int {
    empty_from(t, 1)
}

/// The table is full.
pub open spec fn full(t: Table) -> bool {
    next_slot(t) >= HANDLE_TABLE_SIZE
}

pub proof fn lemma_empty_from(t: Table, i: int)
    requires
        0 <= i <= HANDLE_TABLE_SIZE,
    ensures
        i <= empty_from(t, i) <= HANDLE_TABLE_SIZE,
        empty_from(t, i) < HANDLE_TABLE_SIZE ==> t[empty_from(t, i)] is None,
        forall|k: int| i <= k < empty_from(t, i) ==> #[trigger] t[k] is Some,
    decreases HANDLE_TABLE_SIZE - i,
{
    if i < HANDLE_TABLE_SIZE && t[i] is Some {
        lemma_empty_from(t, i + 1);
    }
}

/// A new handle is never the null handle, takes an empty slot, and leads to the entry it
/// was made for; every other handle still leads where it did.
pub proof fn law_new_handle(t: Table, e: HandleEntry, other: Handle)
    requires
        t.len() == HANDLE_TABLE_SIZE,
        !full(t),
        other != next_slot(t),
    ensures
        1 <= next_slot(t) < HANDLE_TABLE_SIZE,
        t[next_slot(t)] is None,
        entry_of(t.update(next_slot(t), Some(e)), next_slot(t) as u32) == Ok::<
            HandleEntry,
            SysError,
        >(e),
        entry_of(t.update(next_slot(t), Some(e)), other) == entry_of(t, other),
{
    lemma_empty_from(t, 1);
}

/// The null handle leads nowhere.
pub proof fn law_null_handle(t: Table, ty: ObjType, rights: u32)
    ensures
        entry_with(t, 0, ty, rights) == Err::<HandleEntry, SysError>(SysError::BadHandle),
{
}

/// `q` is `p` with another handle table.
pub open spec fn same_but_handles(p: Process, q: Process) -> bool {
    q == Process { handles: q.handles, ..p }
}

/// `[start, end)` overlaps `range`.
pub open spec fn overlaps(range: (u64, u64), start: u64, end: u64) -> bool {
    start < range.1 && range.0 < end
}

/// A blank process, every syscall class permitted.
pub open spec fn is_blank(p: Process) -> bool {
    &&& p.state == PState::Free
    &&& p.pml4_phys == 0
    &&& p.tls is None
    &&& p.tls_next == TLS_REGION_BASE
    &&& p.handles@ =~= Seq::new(HANDLE_TABLE_SIZE as nat, |i: int| None::<HandleEntry>)
    &&& p.exit_notif is None
    &&& p.mem_idx is None
    &&& p.parent_mem is None
    &&& p.spawn_cost == 0
    &&& p.pledge == u64::MAX
    &&& p.imm_count == 0
    &&& p.name@ =~= Seq::new(NAME_LEN as nat, |i: int| 0u8)
    &&& p.sig_dispatch == 0
}

impl Process {
    pub open spec fn wf(&self) -> bool {
        &&& self.imm_count <= MAX_IMM
        &&& table_ok(self.handles@)
        &&& self.exit_notif is Some ==> self.exit_notif->0 < POOL_SIZE
        &&& self.mem_idx is Some ==> self.mem_idx->0 < MEM_POOL
        &&& self.parent_mem is Some ==> self.parent_mem->0 < MEM_POOL
    }

    /// The locked ranges.
    pub open spec fn locked(&self) -> Seq<(u64, u64)> {
        self.imm@.subrange(0, self.imm_count as int)
    }

    pub fn new() -> (p: Self)
        ensures
            p.wf(),
            is_blank(p),
    {
        Process {
            state: PState::Free,
            pml4_phys: 0,
            tls: None,
            tls_next: TLS_REGION_BASE,
            handles: [None; HANDLE_TABLE_SIZE],
            exit_notif: None,
            mem_idx: None,
            parent_mem: None,
            spawn_cost: 0,
            pledge: u64::MAX,
            imm: [(0u64, 0u64); MAX_IMM],
            imm_count: 0,
            name: [0u8; NAME_LEN],
            sig_dispatch: 0,
        }
    }

    /// Whether every class in `class` is permitted.
    pub fn pledge_allows(&self, class: u64) -> (ok: bool)
        ensures
            ok == permits(self.pledge, class),
    {
        self.pledge & class == class
    }

    /// Give up every class outside `mask`.
    pub fn pledge_narrow(&mut self, mask: u64)
        requires
            old(self).wf(),
        ensures
            final(self).wf(),
            *final(self) == (Process { pledge: old(self).pledge & mask, ..*old(self) }),
    {
        self.pledge = self.pledge & mask;
    }

    /// Lock `[start, end)`; false if no more ranges can be locked.
    pub fn immutable_add(&mut self, start: u64, end: u64) -> (ok: bool)
        requires
            old(self).wf(),
        ensures
            final(self).wf(),
            ok == (old(self).imm_count < MAX_IMM),
            !ok ==> *final(self) == *old(self),
            ok ==> {
                &&& *final(self) == (Process {
                    imm: final(self).imm,
                    imm_count: final(self).imm_count,
                    ..*old(self)
                })
                &&& final(self).locked() == old(self).locked().push((start, end))
            },
    {
        if self.imm_count >= MAX_IMM {
            return false;
        }
        self.imm[self.imm_count] = (start, end);
        self.imm_count += 1;
        assert(self.locked() =~= old(self).locked().push((start, end)));
        true
    }

    /// Whether `[start, end)` overlaps a locked range.
    pub fn is_immutable(&self, start: u64, end: u64) -> (b: bool)
        requires
            self.wf(),
        ensures
            b == is_locked(self.locked(), start, end),
    {
        let mut i: usize = 0;
        while i < self.imm_count
            invariant
                self.wf(),
                i <= self.imm_count,
                forall|k: int| 0 <= k < i ==> !overlaps(#[trigger] self.locked()[k], start, end),
            decreases self.imm_count - i,
        {
            let r = self.imm[i];
            assert(r == self.locked()[i as int]);
            if start < r.1 && r.0 < end {
                return true;
            }
            i += 1;
        }
        false
    }

    /// Put an entry into a fixed slot.
    pub fn install(&mut self, slot: Handle, entry: HandleEntry)
        requires
            old(self).wf(),
            slot < HANDLE_TABLE_SIZE,
            object::names_object(entry.obj),
        ensures
            final(self).wf(),
            same_but_handles(*old(self), *final(self)),
            final(self).handles@ == old(self).handles@.update(slot as int, Some(entry)),
    {
        self.handles[slot as usize] = Some(entry);
    }

    /// The entry behind a handle.
    pub fn get(&self, h: Handle) -> (r: Result<HandleEntry, SysError>)
        ensures
            r == entry_of(self.handles@, h),
    {
        let idx: usize = h as usize;
        if idx == 0 || idx >= HANDLE_TABLE_SIZE {
            return Err(SysError::BadHandle);
        }
        match self.handles[idx] {
            Some(e) => Ok(e),
            None => Err(SysError::BadHandle),
        }
    }

    /// The entry behind a handle, checked for type and rights.
    pub fn lookup(&self, h: Handle, ty: ObjType, rights: u32) -> (r: Result<HandleEntry, SysError>)
        ensures
            r == entry_with(self.handles@, h, ty, rights),
    {
        let entry = match self.get(h) {
            Ok(e) => e,
            Err(e) => {
                return Err(e);
            },
        };
        if entry.obj.ty() != ty {
            return Err(SysError::BadType);
        }
        if entry.rights & rights != rights {
            return Err(SysError::Rights);
        }
        Ok(entry)
    }

    /// Put an entry into the lowest empty slot.
    pub fn alloc_slot(&mut self, entry: HandleEntry) -> (r: Result<Handle, SysError>)
        requires
            old(self).wf(),
            object::names_object(entry.obj),
        ensures
            final(self).wf(),
            same_but_handles(*old(self), *final(self)),
            match r {
                Ok(h) => {
                    &&& !full(old(self).handles@)
                    &&& h == next_slot(old(self).handles@)
                    &&& 1 <= h < HANDLE_TABLE_SIZE
                    &&& final(self).handles@ == old(self).handles@.update(h as int, Some(entry))
                },
                Err(e) => {
                    &&& full(old(self).handles@)
                    &&& e == SysError::NoSlots
                    &&& *final(self) == *old(self)
                },
            },
    {
        let mut i: usize = 1;
        while i < HANDLE_TABLE_SIZE
            invariant
                *self == *old(self),
                old(self).wf(),
                object::names_object(entry.obj),
                1 <= i <= HANDLE_TABLE_SIZE,
                next_slot(self.handles@) == empty_from(self.handles@, i as int),
            decreases HANDLE_TABLE_SIZE - i,
        {
            if self.handles[i].is_none() {
                self.handles[i] = Some(entry);
                return Ok(i as Handle);
            }
            i += 1;
        }
        Err(SysError::NoSlots)
    }

    /// Empty the slot of a handle.
    pub fn close(&mut self, h: Handle) -> (r: Result<(), SysError>)
        requires
            old(self).wf(),
        ensures
            final(self).wf(),
            same_but_handles(*old(self), *final(self)),
            match entry_of(old(self).handles@, h) {
                Ok(_) => r is Ok && final(self).handles@ == old(self).handles@.update(
                    h as int,
                    None,
                ),
                Err(e) => r == Err::<(), SysError>(e) && *final(self) == *old(self),
            },
    {
        let idx: usize = h as usize;
        if idx == 0 || idx >= HANDLE_TABLE_SIZE || self.handles[idx].is_none() {
            return Err(SysError::BadHandle);
        }
        self.handles[idx] = None;
        Ok(())
    }

    /// Empty every slot.
    pub fn close_all(&mut self)
        requires
            old(self).wf(),
        ensures
            final(self).wf(),
            same_but_handles(*old(self), *final(self)),
            final(self).handles@ == Seq::new(HANDLE_TABLE_SIZE as nat, |i: int| None::<HandleEntry>),
    {
        self.handles = [None; HANDLE_TABLE_SIZE];
        assert(self.handles@ =~= Seq::new(
            HANDLE_TABLE_SIZE as nat,
            |i: int| None::<HandleEntry>,
        ));
    }

    /// The reply handles in the first `n` slots, as pool index and generation.
    pub open spec fn replies_upto(t: Table, n: int) -> Seq<(u8, u64)>
        decreases n,
    {
        if n <= 0 {
            Seq::empty()
        } else {
            let rest = Self::replies_upto(t, n - 1);
            match t[n - 1] {
                Some(e) => match e.obj {
                    ObjectRef::Reply(idx) => rest.push((idx, e.badge)),
                    _ => rest,
                },
                None => rest,
            }
        }
    }

    /// The reply handles the process holds, as pool index and generation.
    pub fn for_each_reply(&self) -> (v: Vec<(u8, u64)>)
        ensures
            v@ == Self::replies_upto(self.handles@, HANDLE_TABLE_SIZE as int),
    {
        let mut v: Vec<(u8, u64)> = Vec::new();
        let mut i: usize = 0;
        while i < HANDLE_TABLE_SIZE
            invariant
                i <= HANDLE_TABLE_SIZE,
                v@ =~= Self::replies_upto(self.handles@, i as int),
            decreases HANDLE_TABLE_SIZE - i,
        {
            if let Some(e) = self.handles[i] {
                if let ObjectRef::Reply(idx) = e.obj {
                    v.push((idx, e.badge));
                }
            }
            i += 1;
        }
        v
    }
}

/// Every class in `class` is in `pledge`.
pub open spec fn permits(pledge: u64, class: u64) -> bool {
    pledge & class == class
}

/// Some locked range meets `[start, end)`.
pub open spec fn is_locked(locked: Seq<(u64, u64)>, start: u64, end: u64) -> bool {
    exists|k: int| 0 <= k < locked.len() && overlaps(#[trigger] locked[k], start, end)
}

/// A process can only ever give up syscall classes: what a narrowed pledge permits, the
/// pledge before permitted too.
pub proof fn law_pledge_only_narrows(pledge: u64, mask: u64, class: u64)
    ensures
        permits(pledge & mask, class) ==> permits(pledge, class),
        permits(pledge & mask, class) ==> permits(mask, class),
{
    assert((pledge & mask) & class == class ==> pledge & class == class) by (bit_vector);
    assert((pledge & mask) & class == class ==> mask & class == class) by (bit_vector);
}

/// A range that is locked stays locked whatever is locked after it.
pub proof fn law_locks_are_permanent(
    locked: Seq<(u64, u64)>,
    more: (u64, u64),
    start: u64,
    end: u64,
)
    requires
        is_locked(locked, start, end),
    ensures
        is_locked(locked.push(more), start, end),
{
    let k = choose|k: int| 0 <= k < locked.len() && overlaps(#[trigger] locked[k], start, end);
    assert(overlaps(locked.push(more)[k], start, end));
}

/// The pool of processes.
pub struct Procs {
    pub v: Vec<Process>,
}

impl Procs {
    pub open spec fn wf(&self) -> bool {
        &&& self.v@.len() == MAX_PROCS
        &&& forall|i: int| 0 <= i < MAX_PROCS ==> (#[trigger] self.v@[i]).wf()
    }

    /// The handle tables of all processes.
    pub open spec fn tables(&self) -> Seq<Table> {
        Seq::new(self.v@.len(), |i: int| self.v@[i].handles@)
    }

    /// A pool of blank processes.
    pub fn new() -> (p: Self)
        ensures
            p.wf(),
            forall|i: int| 0 <= i < MAX_PROCS ==> is_blank(#[trigger] p.v@[i]),
    {
        let mut v: Vec<Process> = Vec::new();
        let mut i: usize = 0;
        while i < MAX_PROCS
            invariant
                i <= MAX_PROCS,
                v@.len() == i,
                forall|k: int| 0 <= k < i ==> (#[trigger] v@[k]).wf() && is_blank(v@[k]),
            decreases MAX_PROCS - i,
        {
            v.push(Process::new());
            i += 1;
        }
        Procs { v }
    }
}

/// Process `i` is now `q`, and nothing else changed.
pub open spec fn proc_becomes(a: Procs, b: Procs, i: int, q: Process) -> bool {
    b.v@ =~= a.v@.update(i, q)
}

/// Record what is to happen when a spawned process ends.
pub fn set_lifecycle(
    procs: &mut Procs,
    id: usize,
    exit_notif: Option<u8>,
    mem_idx: u8,
    parent_mem: u8,
    cost: u64,
)
    requires
        old(procs).wf(),
        id < MAX_PROCS,
        exit_notif is Some ==> exit_notif->0 < POOL_SIZE,
        mem_idx < MEM_POOL,
        parent_mem < MEM_POOL,
    ensures
        final(procs).wf(),
        proc_becomes(
            *old(procs),
            *final(procs),
            id as int,
            Process {
                exit_notif,
                mem_idx: Some(mem_idx),
                parent_mem: Some(parent_mem),
                spawn_cost: cost,
                ..old(procs).v@[id as int]
            },
        ),
{
    procs.v[id].exit_notif = exit_notif;
    procs.v[id].mem_idx = Some(mem_idx);
    procs.v[id].parent_mem = Some(parent_mem);
    procs.v[id].spawn_cost = cost;
}

/// `p` is alive and signals notification `n` when it ends.
pub open spec fn ends_with(p: Process, n: u8) -> bool {
    p.state == PState::Alive && p.exit_notif == Some(n)
}

/// The live process that signals notification `notif_idx` when it ends; the first one if
/// there are several.
pub fn find_by_exit_notif(procs: &Procs, notif_idx: u8) -> (r: Option<usize>)
    requires
        procs.wf(),
    ensures
        match r {
            Some(i) => {
                &&& i < MAX_PROCS
                &&& ends_with(procs.v@[i as int], notif_idx)
                &&& forall|k: int| 0 <= k < i ==> !ends_with(#[trigger] procs.v@[k], notif_idx)
            },
            None => forall|k: int|
                0 <= k < MAX_PROCS ==> !ends_with(#[trigger] procs.v@[k], notif_idx),
        },
{
    let mut i: usize = 0;
    while i < MAX_PROCS
        invariant
            procs.wf(),
            i <= MAX_PROCS,
            forall|k: int| 0 <= k < i ==> !ends_with(#[trigger] procs.v@[k], notif_idx),
        decreases MAX_PROCS - i,
    {
        let same = match procs.v[i].exit_notif {
            Some(n) => n == notif_idx,
            None => false,
        };
        if procs.v[i].state == PState::Alive && same {
            return Some(i);
        }
        i += 1;
    }
    None
}

/// What a listing says of process `i`: its number, whether it is alive (1) or dead (2),
/// and its name.
pub open spec fn row(p: Process, i: int) -> (u8, u8, [u8; NAME_LEN]) {
    (
        i as u8,
        if p.state == PState::Alive {
            1u8
        } else {
            2
        },
        p.name,
    )
}

/// The listing of the first `n` process slots.
pub open spec fn rows(v: Seq<Process>, n: int) -> Seq<(u8, u8, [u8; NAME_LEN])>
    decreases n,
{
    if n <= 0 {
        Seq::empty()
    } else if v[n - 1].state == PState::Free {
        rows(v, n - 1)
    } else {
        rows(v, n - 1).push(row(v[n - 1], n - 1))
    }
}

proof fn lemma_rows_grow(v: Seq<Process>, i: int, n: int)
    requires
        0 <= i <= n,
    ensures
        rows(v, i).len() <= rows(v, n).len(),
        rows(v, n).subrange(0, rows(v, i).len() as int) == rows(v, i),
        rows(v, i).len() <= i,
    decreases n,
{
    if i < n {
        lemma_rows_grow(v, i, n - 1);
        assert(rows(v, n).subrange(0, rows(v, i).len() as int) =~= rows(v, i));
    } else {
        assert(rows(v, n).subrange(0, rows(v, n).len() as int) =~= rows(v, n));
        if n > 0 {
            lemma_rows_grow(v, n - 1, n - 1);
        }
    }
}

/// List processes into `out`, in slot order, as many as fit; returns how many.
pub fn snapshot(procs: &Procs, out: &mut [(u8, u8, [u8; NAME_LEN])]) -> (n: usize)
    requires
        procs.wf(),
    ensures
        ({
            let all = rows(procs.v@, MAX_PROCS as int);
            &&& n == (if all.len() <= old(out)@.len() {
                all.len()
            } else {
                old(out)@.len()
            })
            &&& final(out)@ == all.subrange(0, n as int) + old(out)@.subrange(
                n as int,
                old(out)@.len() as int,
            )
        }),
{
    let len: usize = out.len();
    let mut n: usize = 0;
    let mut i: usize = 0;
    assert(out@ =~= rows(procs.v@, 0) + old(out)@.subrange(0, old(out)@.len() as int));
    while i < MAX_PROCS && n < len
        invariant
            procs.wf(),
            i <= MAX_PROCS,
            n <= len,
            len == old(out)@.len(),
            n == rows(procs.v@, i as int).len(),
            out@ == rows(procs.v@, i as int) + old(out)@.subrange(n as int, len as int),
        decreases MAX_PROCS - i,
    {
        let st = procs.v[i].state;
        if st != PState::Free {
            let code: u8 = if st == PState::Alive {
                1
            } else {
                2
            };
            out[n] = (i as u8, code, procs.v[i].name);
            n += 1;
            assert(out@ =~= rows(procs.v@, i + 1) + old(out)@.subrange(n as int, len as int));
        }
        i += 1;
    }
    proof {
        lemma_rows_grow(procs.v@, i as int, MAX_PROCS as int);
    }
    n
}

/// The signal dispatcher of a live process, 0 otherwise.
pub fn sig_dispatch_of(procs: &Procs, pid: usize) -> (a: u64)
    requires
        procs.wf(),
    ensures
        a == (if pid < MAX_PROCS && procs.v@[pid as int].state == PState::Alive {
            procs.v@[pid as int].sig_dispatch
        } else {
            0
        }),
{
    if pid >= MAX_PROCS {
        return 0;
    }
    if procs.v[pid].state == PState::Alive {
        procs.v[pid].sig_dispatch
    } else {
        0
    }
}

/// A process slot that a new process may take: never used, or dead with no thread left.
pub open spec fn reusable(p: Process, tcbs: Seq<thread::Tcb>, i: int) -> bool {
    ||| p.state == PState::Free
    ||| p.state == PState::Dead && !(exists|t: int|
        1 <= t < thread::MAX_THREADS && thread::live_thread_of(#[trigger] tcbs[t], i as usize))
}

/// The lowest reusable slot from `i` up.
pub open spec fn reusable_from(v: Seq<Process>, tcbs: Seq<thread::Tcb>, i: int) -> int
    decreases v.len() - i,
{
    if i >= v.len() || reusable(v[i], tcbs, i) {
        i
    } else {
        reusable_from(v, tcbs, i + 1)
    }
}

/// Find the slot for a new process.
pub fn find_reusable(procs: &Procs, s: &Sched) -> (r: Option<usize>)
    requires
        procs.wf(),
        s.wf(),
    ensures
        match r {
            Some(i) => {
                &&& i == reusable_from(procs.v@, s.tcbs@, 0)
                &&& i < MAX_PROCS
                &&& reusable(procs.v@[i as int], s.tcbs@, i as int)
            },
            None => reusable_from(procs.v@, s.tcbs@, 0) >= MAX_PROCS,
        },
{
    let mut i: usize = 0;
    while i < MAX_PROCS
        invariant
            procs.wf(),
            s.wf(),
            i <= MAX_PROCS,
            reusable_from(procs.v@, s.tcbs@, 0) == reusable_from(procs.v@, s.tcbs@, i as int),
        decreases MAX_PROCS - i,
    {
        let st = procs.v[i].state;
        let ok = if st == PState::Free {
            true
        } else if st == PState::Dead {
            !thread::proc_has_live_threads(s, i)
        } else {
            false
        };
        if ok {
            return Some(i);
        }
        i += 1;
    }
    None
}

/// A process name: the first 15 bytes given, NUL-padded.
pub open spec fn name_field(name: Seq<u8>) -> Seq<u8> {
    bytes::padded(
        name.subrange(
            0,
            if name.len() < 15 {
                name.len() as int
            } else {
                15
            },
        ),
        NAME_LEN as nat,
    )
}

/// Claim the lowest reusable slot for a new process in address space `pml4_phys`. The
/// slot starts blank. Also returns the address space of the dead process whose slot it
/// was, which is now to be torn down.
pub fn create(procs: &mut Procs, s: &Sched, pml4_phys: u64, name: &[u8]) -> (r: Result<
    (usize, Option<u64>),
    SysError,
>)
    requires
        old(procs).wf(),
        s.wf(),
    ensures
        final(procs).wf(),
        ({
            let i = reusable_from(old(procs).v@, s.tcbs@, 0);
            match r {
                Ok((id, dead)) => {
                    let was = old(procs).v@[i];
                    let p = final(procs).v@[i];
                    &&& i < MAX_PROCS
                    &&& id == i
                    &&& dead == (if was.state == PState::Dead {
                        Some(was.pml4_phys)
                    } else {
                        None
                    })
                    &&& proc_becomes(*old(procs), *final(procs), i, p)
                    &&& p.state == PState::Alive
                    &&& p.pml4_phys == pml4_phys
                    &&& p.name@ == name_field(name@)
                    &&& exists|b: Process| #[trigger]
                        is_blank(b) && p == (Process {
                            state: p.state,
                            pml4_phys: p.pml4_phys,
                            name: p.name,
                            ..b
                        })
                },
                Err(e) => {
                    &&& i >= MAX_PROCS
                    &&& e == SysError::NoMem
                    &&& *final(procs) == *old(procs)
                },
            }
        }),
{
    let id: usize = match find_reusable(procs, s) {
        Some(i) => i,
        None => {
            return Err(SysError::NoMem);
        },
    };
    let dead: Option<u64> = if procs.v[id].state == PState::Dead {
        Some(procs.v[id].pml4_phys)
    } else {
        None
    };
    let mut p = Process::new();
    let ghost blank = p;
    p.state = PState::Alive;
    p.pml4_phys = pml4_phys;
    let mut n: usize = 0;
    while n < 15 && n < name.len()
        invariant
            n <= 15,
            n <= name@.len(),
            is_blank(blank),
            p == (Process { state: PState::Alive, pml4_phys, name: p.name, ..blank }),
            forall|k: int| 0 <= k < n ==> p.name@[k] == name@[k],
            forall|k: int| n <= k < NAME_LEN ==> p.name@[k] == 0,
        decreases 15 - n,
    {
        p.name[n] = name[n];
        n += 1;
    }
    assert(p.name@ =~= name_field(name@));
    procs.v[id] = p;
    assert(is_blank(blank));
    Ok((id, dead))
}

/// The pending replies, the threads' slots and the threads: what abandoning replies can
/// change.
pub type Owed = (Seq<Reply>, Seq<SlotView>, Seq<Tcb>);

/// After the first `n` of the replies listed were abandoned, as far as they were still
/// pending.
pub open spec fn abandoned_upto(w: Owed, list: Seq<(u8, u64)>, n: int) -> Owed
    decreases n,
{
    if n <= 0 {
        w
    } else {
        let v = abandoned_upto(w, list, n - 1);
        let idx = list[n - 1].0 as int;
        if ipc::pending(v.0[idx], list[n - 1].1) {
            ipc::abandoned(v.0, v.1, v.2, idx)
        } else {
            v
        }
    }
}

/// Abandon every pending reply listed.
fn abandon_all(ipc: &mut Ipc, s: &mut Sched, list: &Vec<(u8, u64)>)
    requires
        old(ipc).wf(old(s).tcbs@),
        old(s).wf(),
        forall|i: int| 0 <= i < list@.len() ==> (#[trigger] list@[i]).0 < REPLY_POOL,
    ensures
        final(ipc).wf(final(s).tcbs@),
        final(s).wf(),
        final(s).cpus@ == old(s).cpus@,
        final(ipc).ep_views() == old(ipc).ep_views(),
        (final(ipc).replies@, final(ipc).slots.views(), final(s).tcbs@) == abandoned_upto(
            (old(ipc).replies@, old(ipc).slots.views(), old(s).tcbs@),
            list@,
            list@.len() as int,
        ),
{
    let mut n: usize = 0;
    while n < list.len()
        invariant
            n <= list@.len(),
            ipc.wf(s.tcbs@),
            s.wf(),
            s.cpus@ == old(s).cpus@,
            ipc.ep_views() == old(ipc).ep_views(),
            forall|i: int| 0 <= i < list@.len() ==> (#[trigger] list@[i]).0 < REPLY_POOL,
            (ipc.replies@, ipc.slots.views(), s.tcbs@) == abandoned_upto(
                (old(ipc).replies@, old(ipc).slots.views(), old(s).tcbs@),
                list@,
                n as int,
            ),
        decreases list@.len() - n,
    {
        let (idx, gen) = list[n];
        assert(list@[n as int].0 < REPLY_POOL);
        if gen <= 0xffff_ffff && ipc::reply_gen_ok(ipc, idx as usize, gen as u32) {
            ipc::reply_abandon(ipc, s, idx as usize);
        }
        n += 1;
    }
}

pub(crate) proof fn lemma_replies_exist(t: Table, n: int)
    requires
        table_ok(t),
        0 <= n <= t.len(),
    ensures
        forall|i: int|
            0 <= i < Process::replies_upto(t, n).len() ==> (#[trigger] Process::replies_upto(
                t,
                n,
            )[i]).0 < REPLY_POOL,
    decreases n,
{
    if n > 0 {
        lemma_replies_exist(t, n - 1);
        let rest = Process::replies_upto(t, n - 1);
        let all = Process::replies_upto(t, n);
        if t[n - 1] is Some {
            assert(object::names_object(t[n - 1]->0.obj));
        }
        assert forall|i: int| 0 <= i < all.len() implies (#[trigger] all[i]).0 < REPLY_POOL by {
            if i < rest.len() {
                assert(rest[i].0 < REPLY_POOL);
            }
        }
    }
}

/// The budgets after a process gave back its own and had its cost refunded to the one
/// that paid for it.
pub open spec fn settled(mems: Seq<MemObj>, p: Process) -> Seq<MemObj> {
    let released = match p.mem_idx {
        Some(i) => mems.update(
            i as int,
            MemObj { in_use: false, gen: mem::next_gen(mems[i as int].gen), ..mems[i as int] },
        ),
        None => mems,
    };
    match p.parent_mem {
        Some(i) => if p.spawn_cost > 0 {
            released.update(
                i as int,
                MemObj {
                    remaining: (released[i as int].remaining + p.spawn_cost) as u64,
                    ..released[i as int]
                },
            )
        } else {
            released
        },
        None => released,
    }
}

/// Every refund that the end of process `id` brings fits its budget: those for the shared
/// regions it was the last to hold, and that of its own cost.
pub open spec fn refunds_fit(k: Kernel, id: int) -> bool {
    let p = k.procs.v@[id];
    let w = kernel::handles_dropped(k.shm_world(), p.handles@, HANDLE_TABLE_SIZE as int);
    &&& kernel::drops_fit(k.shm_world(), p.handles@, HANDLE_TABLE_SIZE as int)
    &&& p.parent_mem is Some ==> w.mems[p.parent_mem->0 as int].remaining + p.spawn_cost
        <= u64::MAX
}

/// The kernel after process `id` was killed with `code`: the callers it owed replies are
/// told so, its handles are gone, its budget is given back, its cost is refunded, and
/// its exit notification has been signalled. Its slot is dead until it is reused.
pub open spec fn killed(a: Kernel, b: Kernel, id: int, code: i32) -> bool {
    let p = a.procs.v@[id];
    let t = p.handles@;
    let list = Process::replies_upto(t, HANDLE_TABLE_SIZE as int);
    let owed = abandoned_upto(
        (a.ipc.replies@, a.ipc.slots.views(), a.sched.tcbs@),
        list,
        list.len() as int,
    );
    let w = kernel::handles_dropped(a.shm_world(), t, HANDLE_TABLE_SIZE as int);
    &&& b == Kernel {
        sched: b.sched,
        procs: b.procs,
        ipc: b.ipc,
        notifs: b.notifs,
        mems: b.mems,
        pmm: b.pmm,
        regions: b.regions,
        ..a
    }
    &&& proc_becomes(
        a.procs,
        b.procs,
        id,
        Process {
            state: PState::Dead,
            exit_notif: None,
            mem_idx: None,
            parent_mem: None,
            handles: b.procs.v@[id].handles,
            ..p
        },
    )
    &&& b.procs.v@[id].handles@ =~= Seq::new(
        HANDLE_TABLE_SIZE as nat,
        |i: int| None::<HandleEntry>,
    )
    &&& b.ipc.ep_views() == a.ipc.ep_views()
    &&& b.ipc.replies@ == owed.0
    &&& b.sched.cpus@ == a.sched.cpus@
    &&& b.regions.views() == w.regions
    &&& b.pmm.free@ == w.free
    &&& b.pmm.base == a.pmm.base && b.pmm.next == a.pmm.next && b.pmm.end == a.pmm.end
    &&& b.mems.v@ == settled(w.mems, p)
    &&& b.notifs.tick == a.notifs.tick
    &&& match p.exit_notif {
        Some(n) => notif::signalled(
            a.notifs.pool@.update(
                n as int,
                Notif { exit_code: code, ..a.notifs.pool@[n as int] },
            ),
            b.notifs.pool@,
            owed.1,
            b.ipc.slots.views(),
            owed.2,
            b.sched.tcbs@,
            n as int,
        ),
        None => {
            &&& b.notifs == a.notifs
            &&& b.ipc.slots.views() == owed.1
            &&& b.sched.tcbs@ == owed.2
        },
    }
}

/// End process `id`. Its address space stays until the slot is reused, since the thread
/// that dies may still run on it.
#[verifier::spinoff_prover]
pub fn kill(k: &mut Kernel, id: usize, code: i32)
    requires
        old(k).wf(),
        id < MAX_PROCS,
        refunds_fit(*old(k), id as int),
    ensures
        final(k).wf(),
        killed(*old(k), *final(k), id as int, code),
{
    let ghost t = k.procs.v@[id as int].handles@;
    assert(k.procs.v@[id as int].wf());
    proof {
        lemma_replies_exist(t, HANDLE_TABLE_SIZE as int);
    }
    let list = k.procs.v[id].for_each_reply();
    abandon_all(&mut k.ipc, &mut k.sched, &list);
    let table = k.procs.v[id].handles;
    kernel::drop_handles(&mut k.regions, &mut k.pmm, &mut k.mems, table.as_slice());
    let ghost mems = k.mems.v@;
    let p = k.procs.v[id];
    let exit_notif: Option<u8> = p.exit_notif;
    let mem_idx: Option<u8> = p.mem_idx;
    let parent_mem: Option<u8> = p.parent_mem;
    let cost: u64 = p.spawn_cost;
    let mut q = p;
    q.close_all();
    q.state = PState::Dead;
    q.exit_notif = None;
    q.mem_idx = None;
    q.parent_mem = None;
    k.procs.v[id] = q;
    if let Some(m) = mem_idx {
        mem::release(&mut k.mems, m);
    }
    if let Some(m) = parent_mem {
        if cost > 0 {
            mem::credit(&mut k.mems, m, cost);
        }
    }
    assert(k.mems.v@ =~= settled(mems, p));
    let ghost tcbs = k.sched.tcbs@;
    let ghost ipc0 = k.ipc;
    if let Some(n) = exit_notif {
        notif::signal_exit(&mut k.notifs, &mut k.ipc.slots, &mut k.sched, n, code);
        proof {
            assert(k.ipc.ep_views() =~= ipc0.ep_views());
            assert(k.ipc.wf(tcbs));
            ipc::lemma_wf_for_same_procs(k.ipc, tcbs, k.sched.tcbs@);
        }
    }
}

/// Kill the live process `pid`; false if there is none.
pub fn kill_pid(k: &mut Kernel, pid: usize, code: i32) -> (ok: bool)
    requires
        old(k).wf(),
        pid < MAX_PROCS && old(k).procs.v@[pid as int].state == PState::Alive ==> refunds_fit(
            *old(k),
            pid as int,
        ),
    ensures
        final(k).wf(),
        ok == (pid < MAX_PROCS && old(k).procs.v@[pid as int].state == PState::Alive),
        ok ==> killed(*old(k), *final(k), pid as int, code),
        !ok ==> *final(k) == *old(k),
{
    if pid >= MAX_PROCS {
        return false;
    }
    if k.procs.v[pid].state != PState::Alive {
        return false;
    }
    kill(k, pid, code);
    true
}

/// A killed process is dead, holds no handle, and has neither a budget nor an exit
/// notification left to give back.
pub proof fn law_killed_holds_nothing(a: Kernel, b: Kernel, id: int, code: i32, h: Handle)
    requires
        a.wf(),
        0 <= id < MAX_PROCS,
        killed(a, b, id, code),
    ensures
        b.procs.v@[id].state == PState::Dead,
        entry_of(b.procs.v@[id].handles@, h) == Err::<HandleEntry, SysError>(SysError::BadHandle),
        b.procs.v@[id].exit_notif is None,
        b.procs.v@[id].mem_idx is None,
{
}

proof fn lemma_no_handles(w: crate::shm::ShmWorld, t: Table, n: int)
    requires
        0 <= n <= t.len(),
        forall|i: int| 0 <= i < t.len() ==> (#[trigger] t[i]) is None,
    ensures
        kernel::handles_dropped(w, t, n) == w,
        Process::replies_upto(t, n).len() == 0,
    decreases n,
{
    if n > 0 {
        lemma_no_handles(w, t, n - 1);
    }
}

/// Killing a process again changes nothing: nobody is refunded, released, answered or
/// signalled a second time, and it is still dead and empty.
pub proof fn law_second_kill_changes_nothing(
    a: Kernel,
    b: Kernel,
    c: Kernel,
    id: int,
    code: i32,
    again: i32,
)
    requires
        a.wf(),
        b.wf(),
        0 <= id < MAX_PROCS,
        killed(a, b, id, code),
        killed(b, c, id, again),
    ensures
        refunds_fit(b, id),
        c.mems.v@ == b.mems.v@,
        c.notifs == b.notifs,
        c.regions.views() == b.regions.views(),
        c.pmm.free@ == b.pmm.free@,
        c.pmm.next == b.pmm.next,
        c.ipc.replies@ == b.ipc.replies@,
        c.ipc.slots.views() == b.ipc.slots.views(),
        c.ipc.ep_views() == b.ipc.ep_views(),
        c.sched.tcbs@ == b.sched.tcbs@,
        c.sched.cpus@ == b.sched.cpus@,
        c.procs.tables() == b.procs.tables(),
        forall|i: int|
            0 <= i < MAX_PROCS ==> same_but_handles(b.procs.v@[i], #[trigger] c.procs.v@[i]),
{
    let t = b.procs.v@[id].handles@;
    lemma_no_handles(b.shm_world(), t, HANDLE_TABLE_SIZE as int);
    assert forall|k: int| 0 <= k < HANDLE_TABLE_SIZE implies kernel::drop_fits(
        #[trigger] kernel::handles_dropped(b.shm_world(), t, k),
        t[k],
    ) by {}
    assert(c.procs.tables() =~= b.procs.tables());
}

/// The end of a process settles its account: it is dead and names nothing any more, its
/// budget is given back and handles to it go stale, the budget that paid for it has its
/// cost back, and its exit notification tells how it ended.
pub proof fn law_kill_settles(
    a: Kernel,
    b: Kernel,
    id: int,
    code: i32,
    own: u8,
    payer: u8,
    exit: u8,
)
    requires
        a.wf(),
        0 <= id < MAX_PROCS,
        killed(a, b, id, code),
        refunds_fit(a, id),
        a.procs.v@[id].mem_idx == Some(own),
        a.procs.v@[id].parent_mem == Some(payer),
        a.procs.v@[id].exit_notif == Some(exit),
        own != payer,
    ensures
        b.procs.v@[id].state == PState::Dead,
        forall|h: Handle| #[trigger]
            entry_of(b.procs.v@[id].handles@, h) == Err::<HandleEntry, SysError>(
                SysError::BadHandle,
            ),
        !b.mems.v@[own as int].in_use,
        b.mems.v@[own as int].gen == mem::next_gen(a.mems.v@[own as int].gen),
        b.mems.v@[payer as int].remaining == kernel::handles_dropped(
            a.shm_world(),
            a.procs.v@[id].handles@,
            HANDLE_TABLE_SIZE as int,
        ).mems[payer as int].remaining + a.procs.v@[id].spawn_cost,
        b.notifs.pool@[exit as int].exit_code == code,
{
    assert(a.procs.v@[id].wf());
    lemma_drops_keep_budgets(a, id, HANDLE_TABLE_SIZE as int);
}

/// Dropping handles refunds budgets, and changes nothing else of them.
proof fn lemma_drops_keep_budgets(a: Kernel, id: int, n: int)
    requires
        a.wf(),
        0 <= id < MAX_PROCS,
        0 <= n <= HANDLE_TABLE_SIZE,
    ensures
        ({
            let w = kernel::handles_dropped(a.shm_world(), a.procs.v@[id].handles@, n);
            &&& w.mems.len() == a.mems.v@.len()
            &&& w.regions.len() == a.regions.v@.len()
            &&& forall|i: int|
                0 <= i < w.mems.len() ==> (#[trigger] w.mems[i]).gen == a.mems.v@[i].gen
                    && w.mems[i].in_use == a.mems.v@[i].in_use
            &&& forall|i: int|
                0 <= i < w.regions.len() ==> (#[trigger] w.regions[i]).mem_idx < MEM_POOL
        }),
    decreases n,
{
    if n > 0 {
        lemma_drops_keep_budgets(a, id, n - 1);
        assert(a.procs.v@[id].wf());
    } else {
        let w = a.shm_world();
        assert forall|i: int| 0 <= i < w.regions.len() implies (#[trigger] w.regions[i]).mem_idx
            < MEM_POOL by {
            assert(a.regions.v@[i].wf());
        }
    }
}

/// The capability to its own budget that every program has.
pub open spec fn own_budget(i: int, gen: u32) -> HandleEntry {
    HandleEntry {
        obj: ObjectRef::Memory(i as u8),
        rights: R_MAP | R_GRANT | R_ATTENUATE,
        badge: gen as u64,
    }
}

/// The capability to write to the console.
pub open spec fn console_entry() -> HandleEntry {
    HandleEntry { obj: ObjectRef::Console, rights: R_WRITE | R_ATTENUATE | R_GRANT, badge: 0 }
}

/// Give a boot process what every one of them has: the console, and a budget of its own.
pub fn grant_standard(k: &mut Kernel, id: usize, budget: u64)
    requires
        old(k).wf(),
        id < MAX_PROCS,
        mem::free_mem_from(old(k).mems.v@, 0) < MEM_POOL,
    ensures
        final(k).wf(),
        *final(k) == (Kernel { procs: final(k).procs, mems: final(k).mems, ..*old(k) }),
        ({
            let i = mem::free_mem_from(old(k).mems.v@, 0);
            let gen = old(k).mems.v@[i].gen;
            &&& mem::mem_becomes(
                old(k).mems,
                final(k).mems,
                i,
                MemObj { in_use: true, remaining: budget, gen },
            )
            &&& kernel::table_becomes(
                old(k).procs,
                final(k).procs,
                id as int,
                old(k).procs.v@[id as int].handles@.update(
                    BOOT_CONSOLE as int,
                    Some(console_entry()),
                ).update(BOOT_MEM as int, Some(own_budget(i, gen))),
            )
        }),
{
    let m: u8 = match mem::grant(&mut k.mems, budget) {
        Some(m) => m,
        None => {
            return;
        },
    };
    let gen: u32 = mem::mem_gen(&k.mems, m);
    let mut p = k.procs.v[id];
    assert(k.procs.v@[id as int].wf());
    p.install(
        BOOT_CONSOLE,
        HandleEntry { obj: ObjectRef::Console, rights: R_WRITE | R_ATTENUATE | R_GRANT, badge: 0 },
    );
    p.install(
        BOOT_MEM,
        HandleEntry {
            obj: ObjectRef::Memory(m),
            rights: R_MAP | R_GRANT | R_ATTENUATE,
            badge: gen as u64,
        },
    );
    k.procs.v[id] = p;
}

/// The budget of a forked process.
pub const FORK_BUDGET: u64 = 0x200_0000;

/// The regions after every handle of the first `n` slots of a table was counted.
pub open spec fn table_noted(regions: Seq<Region>, t: Table, n: int) -> Seq<Region>
    decreases n,
{
    if n <= 0 {
        regions
    } else if t[n - 1] is Some {
        ipc::handle_noted(table_noted(regions, t, n - 1), t[n - 1]->0)
    } else {
        table_noted(regions, t, n - 1)
    }
}

/// Count every handle of a table.
fn note_table(regions: &mut Regions, t: &[Option<HandleEntry>])
    requires
        old(regions).wf(),
        table_ok(t@),
    ensures
        final(regions).wf(),
        final(regions).v@ == table_noted(old(regions).v@, t@, t@.len() as int),
{
    let mut i: usize = 0;
    while i < t.len()
        invariant
            i <= t@.len(),
            regions.wf(),
            table_ok(t@),
            regions.v@ == table_noted(old(regions).v@, t@, i as int),
        decreases t@.len() - i,
    {
        if let Some(e) = t[i] {
            assert(object::names_object(t@[i as int]->0.obj));
            ipc::note_handle(regions, &e);
        }
        i += 1;
    }
}

/// What a fork comes to.
pub struct Forked {
    /// The child, or 0 if there is none.
    pub pid: u64,
    pub tid: usize,
    /// Root of an address space that is to be torn down.
    pub dead: Option<u64>,
}

/// The kernel after process `parent` was forked into slot `id`: the child is a copy of
/// the parent with an address space, a budget and an exit notification of its own. Its
/// handle to its budget leads to its own; everything else it holds is what the parent
/// holds.
pub open spec fn forked(
    a: Kernel,
    b: Kernel,
    parent: int,
    id: int,
    own: int,
    child_pml4: u64,
    notif_idx: Option<u8>,
) -> bool {
    let p = a.procs.v@[parent];
    let q = b.procs.v@[id];
    let gen = a.mems.v@[own].gen;
    let table = p.handles@.update(BOOT_MEM as int, Some(own_budget(own, gen)));
    &&& b == Kernel {
        procs: b.procs,
        mems: b.mems,
        regions: b.regions,
        sched: b.sched,
        ..a
    }
    &&& b.mems.v@ =~= a.mems.v@.update(
        own,
        MemObj { in_use: true, remaining: FORK_BUDGET, gen },
    )
    &&& proc_becomes(
        a.procs,
        b.procs,
        id,
        Process {
            state: PState::Alive,
            pml4_phys: child_pml4,
            mem_idx: Some(own as u8),
            exit_notif: notif_idx,
            parent_mem: None,
            spawn_cost: 0,
            handles: q.handles,
            ..p
        },
    )
    &&& q.handles@ =~= table
    &&& b.regions.v@ =~= table_noted(a.regions.v@, table, HANDLE_TABLE_SIZE as int)
}

/// Fork the calling process into a copy of its address space at `child_pml4` (0 if it
/// could not be copied). The child's thread shares the caller's thread-local base. The
/// result is 0 when there is no process slot or budget left, and the copy is then to be
/// torn down.
pub fn fork_current(
    k: &mut Kernel,
    cpu: usize,
    child_pml4: u64,
    stacks: u64,
    notif_idx: Option<u8>,
) -> (r: Forked)
    requires
        old(k).wf(),
        old(k).in_process(cpu),
        stacks + thread::MAX_THREADS * thread::KSTACK_SIZE <= u64::MAX,
        notif_idx is Some ==> notif_idx->0 < POOL_SIZE,
    ensures
        final(k).wf(),
        ({
            let id = reusable_from(old(k).procs.v@, old(k).sched.tcbs@, 0);
            let own = mem::free_mem_from(old(k).mems.v@, 0);
            if child_pml4 == 0 {
                r == (Forked { pid: 0, tid: 0, dead: None }) && *final(k) == *old(k)
            } else if own >= MEM_POOL {
                r == (Forked { pid: 0, tid: 0, dead: Some(child_pml4) }) && *final(k) == *old(k)
            } else if id >= MAX_PROCS {
                &&& r == (Forked { pid: 0, tid: 0, dead: Some(child_pml4) })
                &&& *final(k) == (Kernel { mems: final(k).mems, ..*old(k) })
                &&& final(k).mems.v@ == old(k).mems.v@.update(
                    own,
                    MemObj {
                        in_use: false,
                        remaining: FORK_BUDGET,
                        gen: mem::next_gen(old(k).mems.v@[own].gen),
                    },
                )
            } else {
                let tid = thread::free_thread_from(old(k).sched.tcbs@, 1);
                let me = old(k).sched.tcbs@[old(k).sched.running(cpu)];
                &&& r.pid == id
                &&& r.tid == tid
                &&& r.dead == (if old(k).procs.v@[id].state == PState::Dead {
                    Some(old(k).procs.v@[id].pml4_phys)
                } else {
                    None
                })
                &&& forked(*old(k), *final(k), old(k).caller(cpu), id, own, child_pml4, notif_idx)
                &&& if tid == 0 {
                    final(k).sched == old(k).sched
                } else {
                    thread::tcb_becomes(
                        old(k).sched,
                        final(k).sched,
                        tid,
                        thread::spawned(
                            old(k).sched.tcbs@[tid],
                            tid,
                            stacks,
                            id as usize,
                            child_pml4,
                            me.fs_base,
                        ),
                    )
                }
            }
        }),
{
    let parent: usize = thread::current_proc(&k.sched, cpu);
    let fs_base: u64 = thread::current_fs_base(&k.sched, cpu);
    if child_pml4 == 0 {
        return Forked { pid: 0, tid: 0, dead: None };
    }
    let own: u8 = match mem::grant(&mut k.mems, FORK_BUDGET) {
        Some(m) => m,
        None => {
            return Forked { pid: 0, tid: 0, dead: Some(child_pml4) };
        },
    };
    let id: usize = match find_reusable(&k.procs, &k.sched) {
        Some(i) => i,
        None => {
            mem::release(&mut k.mems, own);
            assert(k.mems.v@ =~= old(k).mems.v@.update(
                own as int,
                MemObj {
                    in_use: false,
                    remaining: FORK_BUDGET,
                    gen: mem::next_gen(old(k).mems.v@[own as int].gen),
                },
            ));
            return Forked { pid: 0, tid: 0, dead: Some(child_pml4) };
        },
    };
    let gen: u32 = mem::mem_gen(&k.mems, own);
    let dead: Option<u64> = if k.procs.v[id].state == PState::Dead {
        Some(k.procs.v[id].pml4_phys)
    } else {
        None
    };
    let mut copy = k.procs.v[parent];
    assert(k.procs.v@[parent as int].wf());
    copy.pml4_phys = child_pml4;
    copy.mem_idx = Some(own);
    copy.exit_notif = notif_idx;
    copy.parent_mem = None;
    copy.spawn_cost = 0;
    copy.state = PState::Alive;
    copy.install(
        BOOT_MEM,
        HandleEntry {
            obj: ObjectRef::Memory(own),
            rights: R_MAP | R_GRANT | R_ATTENUATE,
            badge: gen as u64,
        },
    );
    let table = copy.handles;
    note_table(&mut k.regions, table.as_slice());
    k.procs.v[id] = copy;
    let ghost before = k.sched.tcbs@;
    let tid: usize = thread::spawn_user(&mut k.sched, stacks, id, child_pml4, fs_base);
    proof {
        ipc::lemma_wf_for_same_procs(k.ipc, before, k.sched.tcbs@);
    }
    Forked { pid: id as u64, tid, dead }
}

/// A forked process holds what its parent holds, but for its own budget: its end gives
/// back its budget, never the parent's.
pub proof fn law_fork_has_own_budget(
    a: Kernel,
    b: Kernel,
    parent: int,
    id: int,
    own: int,
    child_pml4: u64,
    notif_idx: Option<u8>,
    h: Handle,
)
    requires
        a.wf(),
        0 <= parent < MAX_PROCS,
        0 <= id < MAX_PROCS,
        0 <= own < MEM_POOL,
        !a.mems.v@[own].in_use,
        forked(a, b, parent, id, own, child_pml4, notif_idx),
        h != BOOT_MEM,
    ensures
        entry_of(b.procs.v@[id].handles@, h) == entry_of(a.procs.v@[parent].handles@, h),
        b.procs.v@[id].mem_idx == Some(own as u8),
        b.procs.v@[id].parent_mem is None,
        parent != id ==> b.procs.v@[parent] == a.procs.v@[parent],
        forall|m: int|
            0 <= m < MEM_POOL && a.mems.v@[m].in_use ==> #[trigger] b.mems.v@[m] == a.mems.v@[m],
{
}

/// The kernel after the running thread of `cpu` ended, and what the processor is to switch
/// to.
pub open spec fn thread_ended(a: Kernel, b: Kernel, cpu: usize, live: u64, sw: Option<Switch>) -> bool {
    let me = a.sched.running(cpu);
    let tcbs = thread::state_set(a.sched.tcbs@, me, State::Exited);
    let next = thread::next_or_idle(tcbs, a.sched.cpus@, cpu);
    &&& b == Kernel { sched: b.sched, notifs: b.notifs, ..a }
    &&& notif::waiter_cleared(a.notifs, b.notifs, me as usize)
    &&& thread::switched(tcbs, a.sched.cpus@, b.sched, cpu, next)
    &&& sw == thread::switch_plan(tcbs, me, next, live)
}

/// The kernel after the running process of `cpu` was killed with `code` and its running
/// thread ended.
pub open spec fn process_ended(
    a: Kernel,
    b: Kernel,
    cpu: usize,
    code: i32,
    live: u64,
    sw: Option<Switch>,
) -> bool {
    exists|mid: Kernel| #[trigger]
        killed(a, mid, a.caller(cpu), code) && thread_ended(mid, b, cpu, live, sw)
}

/// Kill the running process and end its running thread.
pub fn end_current(k: &mut Kernel, cpu: usize, code: i32, live: u64) -> (sw: Option<Switch>)
    requires
        old(k).wf(),
        old(k).in_process(cpu),
        refunds_fit(*old(k), old(k).caller(cpu)),
    ensures
        final(k).wf(),
        process_ended(*old(k), *final(k), cpu, code, live, sw),
{
    let me: usize = thread::current_proc(&k.sched, cpu);
    kill(k, me, code);
    let ghost mid = *k;
    let sw = thread::exit_current(&mut k.sched, &mut k.notifs, cpu, live);
    proof {
        assert(killed(*old(k), mid, old(k).caller(cpu), code));
        assert(thread_ended(mid, *k, cpu, live, sw));
        let cur = mid.sched.running(cpu);
        thread::law_round_robin(thread::state_set(mid.sched.tcbs@, cur, State::Exited), cur);
        ipc::lemma_wf_for_same_procs(k.ipc, mid.sched.tcbs@, k.sched.tcbs@);
    }
    sw
}

/// A fault in user mode: the process that caused it dies, the machine lives on.
pub fn kill_current_user(k: &mut Kernel, cpu: usize, live: u64) -> (sw: Option<Switch>)
    requires
        old(k).wf(),
        old(k).in_process(cpu),
        refunds_fit(*old(k), old(k).caller(cpu)),
    ensures
        final(k).wf(),
        process_ended(*old(k), *final(k), cpu, thread::FAULT_EXIT, live, sw),
{
    end_current(k, cpu, thread::FAULT_EXIT, live)
}

} // verus!
