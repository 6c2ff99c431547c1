//! System calls: what each one checks, in which order, and what it does.
//!
//! A call names objects only by handles of the calling process. Everything is checked
//! before anything is changed. What has to happen outside the kernel's own state
//! (copying to user memory, changing page tables, driving devices) is returned to the
//! caller, which does it.
use vstd::prelude::*;
use crate::abi;
use crate::abi::{Handle, SysError, HANDLE_NULL};
use crate::ipc;
use crate::kernel;
use crate::kernel::Kernel;
use crate::mm::vm;
use crate::notif::Outcome;
use crate::object;
use crate::object::HandleEntry;
use crate::proc;
use crate::proc::MAX_PROCS;
use crate::thread;
use crate::thread::{Sched, Tcb, MAX_THREADS};
use crate::usermem;

pub mod caps;
pub mod dev;
pub mod dispatch;
pub mod memory;
pub mod msg;
pub mod spawn;
pub mod stream;

verus! {

/// Bytes of a message in user memory.
pub const MSG_BYTES: usize = 104;

/// What a call returns: `rax` is 0 or an error, `rdx` a value or a handle.
#[derive(Clone, Copy, PartialEq, Eq, Debug, Structural)]
pub struct SyscallRet {
    pub rax: u64,
    pub rdx: u64,
}

/// The return of a call that failed with `e`.
pub open spec fn failed(e: SysError) -> SyscallRet {
    SyscallRet { rax: abi::error_code(e), rdx: 0 }
}

/// The return of a call that succeeded with `value`.
pub open spec fn succeeded(value: u64) -> SyscallRet {
    SyscallRet { rax: 0, rdx: value }
}

/// A call that returns `r` without sleeping.
pub open spec fn outcome(r: SyscallRet) -> Outcome {
    Outcome::Done(r.rax, r.rdx)
}

impl SyscallRet {
    pub fn ok() -> (r: Self)
        ensures
            r == succeeded(0),
    {
        SyscallRet { rax: 0, rdx: HANDLE_NULL as u64 }
    }

    pub fn ok_handle(h: Handle) -> (r: Self)
        ensures
            r == succeeded(h as u64),
    {
        SyscallRet { rax: 0, rdx: h as u64 }
    }

    pub fn value(v: u64) -> (r: Self)
        ensures
            r == succeeded(v),
    {
        SyscallRet { rax: 0, rdx: v }
    }

    pub fn err(e: SysError) -> (r: Self)
        ensures
            r == failed(e),
    {
        SyscallRet { rax: e.code(), rdx: HANDLE_NULL as u64 }
    }

    pub fn from_result(r: Result<(), SysError>) -> (s: Self)
        ensures
            s == (match r {
                Ok(_) => succeeded(0),
                Err(e) => failed(e),
            }),
    {
        match r {
            Ok(_) => Self::ok(),
            Err(e) => Self::err(e),
        }
    }
}

/// The memory of the calling process: all of physical memory, word by word, and the root
/// of the live page tables.
pub struct UserSpace<'a> {
    pub ram: &'a [u64],
    pub root: u64,
}

impl<'a> UserSpace<'a> {
    /// Every page table of the address space lies in physical memory.
    pub open spec fn ok(&self) -> bool {
        forall|va: u64| #[trigger] vm::walk_in(self.ram@, self.root, va)
    }

    /// User code can read, or write if `write`, the `len` bytes at `ptr`.
    pub open spec fn reaches(&self, ptr: u64, len: int, write: bool) -> bool {
        usermem::user_range(self.ram@, self.root, ptr, len, write)
    }

    /// Whether user code can read, or write, the `len` bytes at `ptr`.
    pub fn check(&self, ptr: u64, len: usize, write: bool) -> (b: bool)
        requires
            self.ok(),
        ensures
            b == self.reaches(ptr, len as int, write),
    {
        usermem::check_user(self.ram, self.root, ptr, len, write).is_ok()
    }
}

/// The process whose thread `cpu` runs.
pub fn caller(k: &Kernel, cpu: usize) -> (me: usize)
    requires
        k.wf(),
        k.in_process(cpu),
    ensures
        me == k.caller(cpu),
        me < MAX_PROCS,
{
    thread::current_proc(&k.sched, cpu)
}

/// What installing `e` in the table of process `me` comes to: the lowest empty slot is
/// its handle, or the table is full and nothing changes.
pub open spec fn given(a: Kernel, b: Kernel, me: int, e: HandleEntry, r: SyscallRet) -> bool {
    let t = a.procs.v@[me].handles@;
    if proc::full(t) {
        r == failed(SysError::NoSlots) && b == a
    } else {
        &&& r == succeeded(proc::next_slot(t) as u64)
        &&& installed(a, b, me, proc::next_slot(t), e)
    }
}

/// Entry `e` now stands at handle `h` of process `me`, and nothing else changed except
/// that a shared region counts the handle.
pub open spec fn installed(a: Kernel, b: Kernel, me: int, h: int, e: HandleEntry) -> bool {
    &&& b == Kernel { procs: b.procs, regions: b.regions, ..a }
    &&& kernel::table_becomes(
        a.procs,
        b.procs,
        me,
        a.procs.v@[me].handles@.update(h, Some(e)),
    )
    &&& b.regions.v@ =~= ipc::handle_noted(a.regions.v@, e)
}

/// Give process `me` a handle to `e`.
pub fn give_handle(k: &mut Kernel, me: usize, e: HandleEntry) -> (r: Result<Handle, SysError>)
    requires
        old(k).wf(),
        me < MAX_PROCS,
        object::names_object(e.obj),
    ensures
        final(k).wf(),
        match r {
            Ok(h) => {
                &&& !proc::full(old(k).procs.v@[me as int].handles@)
                &&& h == proc::next_slot(old(k).procs.v@[me as int].handles@)
                &&& 1 <= h < abi::HANDLE_TABLE_SIZE
                &&& installed(*old(k), *final(k), me as int, h as int, e)
            },
            Err(x) => {
                &&& proc::full(old(k).procs.v@[me as int].handles@)
                &&& x == SysError::NoSlots
                &&& *final(k) == *old(k)
            },
        },
{
    let mut p = k.procs.v[me];
    match p.alloc_slot(e) {
        Ok(h) => {
            k.procs.v[me] = p;
            ipc::note_handle(&mut k.regions, &e);
            Ok(h)
        },
        Err(x) => Err(x),
    }
}

/// Give process `me` a handle to `e`, as the end of a call.
pub fn give(k: &mut Kernel, me: usize, e: HandleEntry) -> (r: SyscallRet)
    requires
        old(k).wf(),
        me < MAX_PROCS,
        object::names_object(e.obj),
    ensures
        final(k).wf(),
        given(*old(k), *final(k), me as int, e, r),
{
    match give_handle(k, me, e) {
        Ok(h) => SyscallRet::ok_handle(h),
        Err(x) => SyscallRet::err(x),
    }
}

/// The threads after each of those listed was woken, in order.
pub open spec fn all_woken(tcbs: Seq<Tcb>, list: Seq<usize>, n: int) -> Seq<Tcb>
    decreases n,
{
    if n <= 0 {
        tcbs
    } else {
        let t = list[n - 1] as int;
        let v = all_woken(tcbs, list, n - 1);
        v.update(t, thread::woken(v[t]))
    }
}

/// Wake the first `n` threads listed.
pub fn wake_all(s: &mut Sched, list: &[usize], n: usize)
    requires
        old(s).wf(),
        n <= list@.len(),
        forall|i: int| 0 <= i < n ==> #[trigger] list@[i] < MAX_THREADS,
    ensures
        final(s).wf(),
        final(s).cpus@ == old(s).cpus@,
        final(s).tcbs@ == all_woken(old(s).tcbs@, list@, n as int),
        forall|t: int|
            0 <= t < MAX_THREADS ==> (#[trigger] final(s).tcbs@[t]).proc == old(s).tcbs@[t].proc,
{
    let mut i: usize = 0;
    while i < n
        invariant
            s.wf(),
            i <= n <= list@.len(),
            forall|j: int| 0 <= j < n ==> #[trigger] list@[j] < MAX_THREADS,
            s.cpus@ == old(s).cpus@,
            s.tcbs@ == all_woken(old(s).tcbs@, list@, i as int),
            forall|t: int|
                0 <= t < MAX_THREADS ==> (#[trigger] s.tcbs@[t]).proc == old(s).tcbs@[t].proc,
        decreases n - i,
    {
        thread::wake(s, list[i]);
        i += 1;
    }
}

} // verus!
