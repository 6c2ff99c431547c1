//! Laws of processes: what a child starts with, what the end of a process leaves behind, and
//! what can be seen of it from outside.

use crate::abi::MsgView;
use crate::elf::Image;
use crate::ipc::{self, Reply};
use crate::kernel::Kernel;
use crate::load;
use crate::mm::mem;
use crate::mm::pmm;
use crate::object::{HandleEntry, ObjectRef};
use crate::proc::{self, Owed, PState, Process, Table};
use crate::rng;
use crate::syscall::spawn::{self, Child};
use crate::syscall::SyscallRet;
use crate::thread::{self, State, Switch, Tcb};
use vstd::prelude::*;

verus! {

/// The lowest place for a new process is one that is free, or whose process is dead and has
/// no thread left.
pub proof fn law_lowest_reusable_place(v: Seq<Process>, tcbs: Seq<Tcb>, i: int)
    requires
        0 <= i <= v.len(),
    ensures
        ({
            let r = proc::reusable_from(v, tcbs, i);
            &&& i <= r <= v.len()
            &&& r < v.len() ==> v[r].state != PState::Alive
            &&& r < v.len() && v[r].state == PState::Dead ==> forall|t: int|
                1 <= t < 256 && (#[trigger] tcbs[t]).proc == r ==> tcbs[t].state == State::Free
                    || tcbs[t].state == State::Exited
            &&& forall|k: int| i <= k < r ==> (#[trigger] v[k]).state != PState::Free
        }),
    decreases v.len() - i,
{
    let r = proc::reusable_from(v, tcbs, i);
    if i < v.len() {
        if !proc::reusable(v[i], tcbs, i) {
            law_lowest_reusable_place(v, tcbs, i + 1);
        } else if v[i].state == PState::Dead {
            assert forall|t: int| 1 <= t < 256 && (#[trigger] tcbs[t]).proc == i implies
                tcbs[t].state == State::Free || tcbs[t].state == State::Exited by {
                assert(i as usize == i);
                assert(!thread::live_thread_of(tcbs[t], i as usize));
            }
        }
    }
}

/// Where the grants of a spawn go: the first four handles that a program knows for them.
proof fn lemma_grant_places(t: Table, g: Seq<Option<HandleEntry>>, n: int)
    requires
        t.len() == 64,
        g.len() == 4,
        0 <= n <= 4,
    ensures
        ({
            let r = spawn::with_grants(t, g, n);
            &&& r.len() == 64
            &&& r[1] == if n > 0 && g[0] is Some {
                g[0]
            } else {
                t[1]
            }
            &&& r[2] == if n > 1 && g[1] is Some {
                g[1]
            } else {
                t[2]
            }
            &&& r[4] == if n > 2 && g[2] is Some {
                g[2]
            } else {
                t[4]
            }
            &&& r[20] == if n > 3 && g[3] is Some {
                g[3]
            } else {
                t[20]
            }
            &&& forall|h: int|
                0 <= h < 64 && h != 1 && h != 2 && h != 4 && h != 20 ==> #[trigger] r[h] == t[h]
        }),
    decreases n,
{
    if n > 0 {
        lemma_grant_places(t, g, n - 1);
    }
}

/// A spawn that succeeds makes one process, in a place that was not alive. It holds what it
/// was granted, in the order of the grants, under the handles 1, 2, 4 and 20, a budget of
/// its own, of the size asked for, under 3, and nothing else; nothing is forbidden to it
/// and nothing of it is locked. Its one thread is ready, in its address space, with the
/// thread pointer of its image. Its spawner's budget paid the price, and no other process
/// or thread is touched.
#[verifier::spinoff_prover]
#[verifier::rlimit(60)]
pub proof fn law_child_starts_as_asked(
    a: Kernel,
    b: Kernel,
    img: Image,
    label: Seq<u8>,
    stacks: u64,
    t: Table,
    n: int,
    m: MsgView,
    payer: u8,
    exit: Option<u8>,
    price: int,
    r: SyscallRet,
    child: Option<Child>,
)
    requires
        a.wf(),
        b.wf(),
        t.len() == 64,
        0 <= n <= 4,
        m.handles.len() == 4,
        m.data.len() == 8,
        payer < 24,
        a.mems.v@[payer as int].in_use,
        0 <= price <= a.mems.v@[payer as int].remaining,
        stacks + 256 * 16384 <= u64::MAX,
        spawn::spawns(
            a,
            b,
            img,
            label,
            stacks,
            spawn::granted(t, m.handles, n),
            n,
            m,
            payer,
            exit,
            price,
            r,
            child,
        ),
        r.rax == 0,
    ensures
        child is Some,
        ({
            let c = child->0;
            let pid = c.pid as int;
            let p = b.procs.v@[pid];
            let h = p.handles@;
            &&& 0 <= pid < 32
            &&& r.rdx == c.pid
            &&& a.procs.v@[pid].state != PState::Alive
            &&& p.state == PState::Alive
            &&& p.pml4_phys == c.root
            &&& pmm::next_frame(a.pmm) == Some(c.root)
            &&& p.exit_notif == exit
            &&& p.pledge == 0xffff_ffff_ffff_ffff
            &&& p.imm_count == 0
            &&& p.parent_mem == Some(payer)
            &&& p.spawn_cost == price
            &&& p.tls == c.load.tls
            &&& p.tls_next == c.load.tls_next
            &&& h[1] == if n > 0 && m.handles[0] != 0 {
                t[m.handles[0] as int]
            } else {
                None
            }
            &&& h[2] == if n > 1 && m.handles[1] != 0 {
                t[m.handles[1] as int]
            } else {
                None
            }
            &&& h[4] == if n > 2 && m.handles[2] != 0 {
                t[m.handles[2] as int]
            } else {
                None
            }
            &&& h[20] == if n > 3 && m.handles[3] != 0 {
                t[m.handles[3] as int]
            } else {
                None
            }
            &&& h[3] is Some
            &&& h[3]->0.obj matches ObjectRef::Memory(own) && {
                &&& p.mem_idx == Some(own)
                &&& own != payer
                &&& !a.mems.v@[own as int].in_use
                &&& b.mems.v@[own as int].in_use
                &&& b.mems.v@[own as int].gen == h[3]->0.badge
                &&& b.mems.v@[own as int].remaining == if m.data[0] == 0 {
                    262144
                } else {
                    m.data[0]
                }
                &&& forall|i: int|
                    0 <= i < 24 && i != own && i != payer ==> b.mems.v@[i] == a.mems.v@[i]
            }
            &&& forall|i: int|
                0 <= i < 64 && i != 1 && i != 2 && i != 3 && i != 4 && i != 20 ==> (#[trigger] h[i])
                    is None
            &&& b.mems.v@[payer as int].remaining == a.mems.v@[payer as int].remaining - price
            &&& forall|i: int| 0 <= i < 32 && i != pid ==> b.procs.v@[i] == a.procs.v@[i]
        }),
        ({
            let c = child->0;
            let old_t = a.sched.tcbs@[c.tid as int];
            let new_t = b.sched.tcbs@[c.tid as int];
            &&& 1 <= c.tid < 256
            &&& old_t.state == State::Free || old_t.state == State::Exited
            &&& new_t.state == State::Ready
            &&& new_t.proc == c.pid
            &&& new_t.cr3 == c.root
            &&& new_t.fs_base == c.load.fs_base
            &&& !new_t.should_die
            &&& new_t.kstack_top == stacks + (c.tid + 1) * 16384
            &&& forall|i: int| 0 <= i < 256 && i != c.tid ==> b.sched.tcbs@[i] == a.sched.tcbs@[i]
            &&& b.sched.cpus@ == a.sched.cpus@
            &&& load::loads_image(c.load, img, rng::next_value(a.rng@))
            &&& c.arg_ptr == m.data[1]
            &&& c.arg_len == if m.data[2] <= 4095 {
                m.data[2]
            } else {
                4095
            }
        }),
{
    law_lowest_reusable_place(a.procs.v@, a.sched.tcbs@, 0);
    mem::lemma_free_mem(a.mems.v@, 0);
    crate::laws::sched::law_lowest_free_slot(a.sched.tcbs@, 1);
    let own = mem::free_mem_from(a.mems.v@, 0);
    let gen = a.mems.v@[own].gen;
    let g = spawn::granted(t, m.handles, n);
    let base = spawn::empty_table().update(3, Some(proc::own_budget(own, gen)));
    lemma_grant_places(base, g, n);
}

/// The name of a process is what it was given, up to fifteen bytes, and ends in a zero.
pub proof fn law_name_is_kept(name: Seq<u8>, i: int)
    requires
        0 <= i < 16,
    ensures
        proc::name_field(name).len() == 16,
        i < 15 && i < name.len() ==> proc::name_field(name)[i] == name[i],
        i >= name.len() || i == 15 ==> proc::name_field(name)[i] == 0,
{
}

/// The listing has a line for each place that is not free, in order: its number, whether it
/// is alive (1) or dead (2), and its name.
pub proof fn law_listing_shows_processes(v: Seq<Process>, n: int)
    requires
        0 <= n <= v.len() <= 32,
    ensures
        proc::rows(v, n).len() <= n,
        forall|i: int|
            0 <= i < n && (#[trigger] v[i]).state != PState::Free ==> exists|k: int|
                #![trigger proc::rows(v, n)[k]]
                {
                    &&& 0 <= k < proc::rows(v, n).len()
                    &&& proc::rows(v, n)[k].0 == i
                    &&& proc::rows(v, n)[k].1 == if v[i].state == PState::Alive {
                        1u8
                    } else {
                        2
                    }
                    &&& proc::rows(v, n)[k].2 == v[i].name
                },
        forall|k: int|
            0 <= k < proc::rows(v, n).len() ==> {
                let r = #[trigger] proc::rows(v, n)[k];
                r.0 < n && v[r.0 as int].state != PState::Free
            },
        forall|j: int, k: int|
            0 <= j < k < proc::rows(v, n).len() ==> (#[trigger] proc::rows(v, n)[j]).0 < (
            #[trigger] proc::rows(v, n)[k]).0,
    decreases n,
{
    if n > 0 {
        law_listing_shows_processes(v, n - 1);
        let s = proc::rows(v, n - 1);
        let r = proc::rows(v, n);
        assert forall|i: int| 0 <= i < n && (#[trigger] v[i]).state != PState::Free implies exists|
            k: int,
        |
            #![trigger r[k]]
            {
                &&& 0 <= k < r.len()
                &&& r[k].0 == i
                &&& r[k].1 == if v[i].state == PState::Alive {
                    1u8
                } else {
                    2
                }
                &&& r[k].2 == v[i].name
            } by {
            if i == n - 1 {
                assert(r[r.len() - 1] == proc::row(v[n - 1], n - 1));
            } else {
                let k = choose|k: int|
                    #![trigger s[k]]
                    {
                        &&& 0 <= k < s.len()
                        &&& s[k].0 == i
                        &&& s[k].1 == if v[i].state == PState::Alive {
                            1u8
                        } else {
                            2
                        }
                        &&& s[k].2 == v[i].name
                    };
                assert(r[k] == s[k]);
            }
        }
        assert forall|k: int| 0 <= k < r.len() implies {
            let x = #[trigger] r[k];
            x.0 < n && v[x.0 as int].state != PState::Free
        } by {
            if k < s.len() {
                assert(r[k] == s[k]);
            }
        }
        assert forall|j: int, k: int| 0 <= j < k < r.len() implies (#[trigger] r[j]).0 < (
        #[trigger] r[k]).0 by {
            assert(r[j] == s[j]);
            if k < s.len() {
                assert(r[k] == s[k]);
            }
        }
    }
}

/// A range is locked just if one of its addresses is.
pub proof fn law_locked_by_the_byte(locked: Seq<(u64, u64)>, start: u64, end: u64)
    requires
        start < end,
        forall|k: int| 0 <= k < locked.len() ==> (#[trigger] locked[k]).0 < locked[k].1,
    ensures
        proc::is_locked(locked, start, end) <==> exists|k: int, va: int|
            #![trigger locked[k], in_range(va)]
            in_range(va) && 0 <= k < locked.len() && locked[k].0 <= va < locked[k].1 && start <= va
                < end,
{
    if proc::is_locked(locked, start, end) {
        let k = choose|k: int|
            0 <= k < locked.len() && proc::overlaps(#[trigger] locked[k], start, end);
        let va = if start >= locked[k].0 {
            start as int
        } else {
            locked[k].0 as int
        };
        assert(in_range(va));
        assert(locked[k].0 <= va < locked[k].1 && start <= va < end);
    }
    if exists|k: int, va: int|
        #![trigger locked[k], in_range(va)]
        in_range(va) && 0 <= k < locked.len() && locked[k].0 <= va < locked[k].1 && start <= va
            < end {
        let (k, va) = choose|k: int, va: int|
            #![trigger locked[k], in_range(va)]
            in_range(va) && 0 <= k < locked.len() && locked[k].0 <= va < locked[k].1 && start <= va
                < end;
        assert(proc::overlaps(locked[k], start, end));
    }
}

/// `va` is an address.
pub open spec fn in_range(va: int) -> bool {
    0 <= va <= u64::MAX
}

/// Reply `i` was owed in `w` and is no longer owed in `v`: its caller was told.
spec fn told(w: Owed, v: Owed, i: int) -> bool {
    let c = w.0[i].caller_tid as int;
    w.0[i].in_use && !v.0[i].in_use && w.2[c].state == State::Blocked ==> v.2[c].state
        == State::Ready && v.1[c].ret_rax != 0 && !v.1[c].copy_out
}

proof fn lemma_abandoned(w: Owed, list: Seq<(u8, u64)>, n: int)
    requires
        0 <= n <= list.len(),
        w.0.len() == 8,
        w.1.len() == 256,
        w.2.len() == 256,
        forall|i: int| 0 <= i < 8 && (#[trigger] w.0[i]).in_use ==> w.0[i].caller_tid < 256,
        forall|k: int| 0 <= k < list.len() ==> (#[trigger] list[k]).0 < 8,
    ensures
        ({
            let v = proc::abandoned_upto(w, list, n);
            &&& v.0.len() == 8
            &&& v.1.len() == 256
            &&& v.2.len() == 256
            &&& forall|i: int|
                0 <= i < 8 ==> (#[trigger] v.0[i]).in_use ==> v.0[i] == w.0[i]
            &&& forall|i: int| 0 <= i < 8 ==> #[trigger] told(w, v, i)
            &&& forall|k: int|
                0 <= k < n ==> !ipc::pending(v.0[(#[trigger] list[k]).0 as int], list[k].1)
            &&& forall|t: int|
                0 <= t < 256 && w.2[t].state == State::Blocked ==> (#[trigger] v.2[t]).state
                    == State::Blocked || v.2[t].state == State::Ready && v.1[t].ret_rax != 0
                    && !v.1[t].copy_out
            &&& forall|t: int|
                0 <= t < 256 && w.2[t].state != State::Blocked ==> #[trigger] v.2[t] == w.2[t]
        }),
    decreases n,
{
    if n > 0 {
        lemma_abandoned(w, list, n - 1);
        let u = proc::abandoned_upto(w, list, n - 1);
        let v = proc::abandoned_upto(w, list, n);
        let idx = list[n - 1].0 as int;
        if ipc::pending(u.0[idx], list[n - 1].1) {
            assert(u.0[idx] == w.0[idx]);
            let c = u.0[idx].caller_tid as int;
            assert(v.0 =~= u.0.update(idx, ipc::reply_freed(u.0[idx])));
            assert forall|i: int| 0 <= i < 8 implies #[trigger] told(w, v, i) by {
                assert(told(w, u, i));
                let d = w.0[i].caller_tid as int;
                if w.0[i].in_use && !v.0[i].in_use && w.2[d].state == State::Blocked {
                    if d == c {
                        assert(u.2[c].state == State::Blocked || u.2[c].state == State::Ready);
                    }
                }
            }
        }
        assert forall|k: int| 0 <= k < n implies !ipc::pending(
            v.0[(#[trigger] list[k]).0 as int],
            list[k].1,
        ) by {
            if k < n - 1 {
                assert(!ipc::pending(u.0[list[k].0 as int], list[k].1));
            }
        }
    }
}

/// Every right to answer that a table holds is in the list of them.
proof fn lemma_reply_is_listed(t: Table, n: int, h: int) -> (k: int)
    requires
        0 <= h < n,
        t[h] is Some,
        t[h]->0.obj is Reply,
    ensures
        0 <= k < Process::replies_upto(t, n).len(),
        Process::replies_upto(t, n)[k] == (t[h]->0.obj->Reply_0, t[h]->0.badge),
    decreases n,
{
    if h == n - 1 {
        Process::replies_upto(t, n).len() - 1
    } else {
        lemma_reply_is_listed(t, n - 1, h)
    }
}

proof fn lemma_listed_replies(t: Table, n: int)
    requires
        0 <= n <= t.len(),
        proc::table_ok(t),
    ensures
        forall|k: int|
            0 <= k < Process::replies_upto(t, n).len() ==> (#[trigger] Process::replies_upto(
                t,
                n,
            )[k]).0 < 8,
    decreases n,
{
    if n > 0 {
        lemma_listed_replies(t, n - 1);
        let s = Process::replies_upto(t, n - 1);
        let r = Process::replies_upto(t, n);
        assert(t[n - 1] is Some ==> crate::object::names_object(t[n - 1]->0.obj));
        assert forall|k: int| 0 <= k < r.len() implies (#[trigger] r[k]).0 < 8 by {
            if k < s.len() {
                assert(r[k] == s[k]);
            }
        }
    }
}

/// Whoever waits for an answer from a process that ends does not wait for ever: the call
/// fails, and the right to answer it is used up.
pub proof fn law_callers_of_the_dead_are_told(a: Kernel, id: int, h: int)
    requires
        a.wf(),
        0 <= id < 32,
        0 <= h < 64,
        a.procs.v@[id].handles@[h] is Some,
        a.procs.v@[id].handles@[h]->0.obj is Reply,
        ({
            let e = a.procs.v@[id].handles@[h]->0;
            let r = a.ipc.replies@[e.obj->Reply_0 as int];
            &&& r.in_use
            &&& r.gen == e.badge
            &&& a.sched.tcbs@[r.caller_tid as int].state == State::Blocked
        }),
    ensures
        ({
            let t = a.procs.v@[id].handles@;
            let i = t[h]->0.obj->Reply_0 as int;
            let c = a.ipc.replies@[i].caller_tid as int;
            let list = Process::replies_upto(t, 64);
            let owed = proc::abandoned_upto(
                (a.ipc.replies@, a.ipc.slots.views(), a.sched.tcbs@),
                list,
                list.len() as int,
            );
            &&& !owed.0[i].in_use
            &&& owed.2[c].state == State::Ready
            &&& owed.1[c].ret_rax != 0
            &&& !owed.1[c].copy_out
        }),
{
    let t = a.procs.v@[id].handles@;
    assert(a.procs.v@[id].wf());
    let w = (a.ipc.replies@, a.ipc.slots.views(), a.sched.tcbs@);
    let list = Process::replies_upto(t, 64);
    assert forall|i: int| 0 <= i < 8 && (#[trigger] w.0[i]).in_use implies w.0[i].caller_tid
        < 256 by {
        assert(ipc::reply_ok(a.ipc.replies@[i], a.sched.tcbs@));
    }
    lemma_listed_replies(t, 64);
    lemma_abandoned(w, list, list.len() as int);
    let k = lemma_reply_is_listed(t, 64, h);
    let v = proc::abandoned_upto(w, list, list.len() as int);
    let i = t[h]->0.obj->Reply_0 as int;
    assert(list[k].0 == i);
    assert(!ipc::pending(v.0[i], t[h]->0.badge));
    assert(told(w, v, i));
}

/// When a process ends itself, it is dead, its running thread has ended and waits for
/// nothing, and the processor runs another thread, in that thread's context.
pub proof fn law_process_end_frees_processor(
    a: Kernel,
    b: Kernel,
    cpu: usize,
    code: i32,
    live: u64,
    sw: Option<Switch>,
)
    requires
        a.wf(),
        a.in_process(cpu),
        a.sched.running(cpu) != a.sched.cpus@[cpu as int].idle_tid,
        proc::process_ended(a, b, cpu, code, live, sw),
        b.wf(),
    ensures
        b.procs.v@[a.caller(cpu)].state == PState::Dead,
        b.sched.tcbs@[a.sched.running(cpu)].state == State::Exited,
        b.sched.tcbs@[a.sched.running(cpu)].running_on == -1,
        b.sched.running(cpu) != a.sched.running(cpu),
        sw matches Some(s) && {
            &&& s.prev == a.sched.running(cpu)
            &&& s.next == b.sched.running(cpu)
            &&& s.fs_base == b.sched.tcbs@[s.next as int].fs_base
            &&& s.kstack_top == b.sched.tcbs@[s.next as int].kstack_top
        },
{
    let mid = choose|mid: Kernel| #[trigger]
        proc::killed(a, mid, a.caller(cpu), code) && proc::thread_ended(mid, b, cpu, live, sw);
    assert(mid.sched.cpus@ == a.sched.cpus@);
    let me = a.sched.running(cpu);
    let tcbs = thread::state_set(mid.sched.tcbs@, me, State::Exited);
    assert(a.sched.cpus@[cpu as int].current < 256);
    assert(mid.procs.v@[a.caller(cpu)].state == PState::Dead);
    lemma_kill_keeps_threads(a, mid, a.caller(cpu), code);
    assert(tcbs.len() == 256);
    crate::laws::sched::law_idles_only_alone(tcbs, a.sched.cpus@, cpu);
}

/// A kill leaves as many threads as there were.
proof fn lemma_kill_keeps_threads(a: Kernel, b: Kernel, id: int, code: i32)
    requires
        a.wf(),
        0 <= id < 32,
        proc::killed(a, b, id, code),
    ensures
        b.sched.tcbs@.len() == 256,
{
    let p = a.procs.v@[id];
    let t = p.handles@;
    assert(p.wf());
    let w = (a.ipc.replies@, a.ipc.slots.views(), a.sched.tcbs@);
    let list = Process::replies_upto(t, 64);
    assert forall|i: int| 0 <= i < 8 && (#[trigger] w.0[i]).in_use implies w.0[i].caller_tid
        < 256 by {
        assert(ipc::reply_ok(a.ipc.replies@[i], a.sched.tcbs@));
    }
    lemma_listed_replies(t, 64);
    lemma_abandoned(w, list, list.len() as int);
}

/// A process starts its life with a budget that it may map from, grant and attenuate, and a
/// console that it may write, attenuate and grant.
pub proof fn law_first_capabilities(i: int, gen: u32)
    requires
        0 <= i < 24,
    ensures
        proc::own_budget(i, gen).obj == ObjectRef::Memory(i as u8),
        proc::own_budget(i, gen).badge == gen,
        proc::own_budget(i, gen).rights == 0x2000c,
        proc::console_entry().obj == ObjectRef::Console,
        proc::console_entry().rights == 0x1000c,
        proc::console_entry().badge == 0,
{
    crate::abi::lemma_made_rights();
}

/// A forked child is alive, in the address space it was given, with a budget of 32 MiB of
/// its own and every other capability of its parent.
pub proof fn law_fork_copies_parent(
    a: Kernel,
    b: Kernel,
    parent: int,
    id: int,
    own: int,
    pml4: u64,
    notif: Option<u8>,
)
    requires
        a.wf(),
        0 <= parent < 32,
        0 <= id < 32,
        0 <= own < 24,
        parent != id,
        proc::forked(a, b, parent, id, own, pml4, notif),
    ensures
        b.procs.v@[id].state == PState::Alive,
        b.procs.v@[id].pml4_phys == pml4,
        b.procs.v@[id].exit_notif == notif,
        b.procs.v@[id].pledge == a.procs.v@[parent].pledge,
        b.procs.v@[id].handles@[3] == Some(
            (HandleEntry {
                obj: ObjectRef::Memory(own as u8),
                rights: 0x2000c,
                badge: a.mems.v@[own].gen as u64,
            }),
        ),
        forall|h: int|
            0 <= h < 64 && h != 3 ==> b.procs.v@[id].handles@[h] == a.procs.v@[parent].handles@[h],
        b.mems.v@[own].in_use,
        b.mems.v@[own].remaining == 0x200_0000,
        b.procs.v@[parent] == a.procs.v@[parent],
{
    law_first_capabilities(own, a.mems.v@[own].gen);
}

} // verus!
