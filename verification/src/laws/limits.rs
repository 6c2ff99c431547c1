//! Laws of what is refused and of what comes back: when a transfer stops, when a range is
//! turned down, and what the end of a process returns.

use crate::abi::{self, Handle, MsgView, SysError};
use crate::ipc::{self, Got, Reply, SlotView, World};
use crate::kernel::{self, Kernel};
use crate::laws::exchange;
use crate::libc::fd::{self, FdSlot, FdTable};
use crate::libc::{net, number};
use crate::mm::pmm::{self, MemRegion, Pmm};
use crate::mm::{mem, vm};
use crate::notif::Outcome;
use crate::object::{HandleEntry, ObjType};
use crate::pci::{self, Scan};
use crate::proc::{self, Process, Table};

use crate::rt::packet;
use crate::shm::{self, Region};
use crate::syscall::{dev, memory, msg, spawn, stream, UserSpace};
use crate::thread::Tcb;
use crate::usermem;

use vstd::prelude::*;

verus! {

/// The end of a process gives the price of its spawning back to the budget that paid it,
/// releases the process's own budget, and touches no other budget beyond what its handles
/// held. Frames never handed out stay so.
pub proof fn law_price_comes_back(a: Kernel, b: Kernel, id: int, code: i32, i: int)
    requires
        a.wf(),
        0 <= id < 32,
        proc::killed(a, b, id, code),
        0 <= i < a.mems.v@.len(),
        kernel::handles_dropped(a.shm_world(), a.procs.v@[id].handles@, 64).mems.len()
            == a.mems.v@.len(),
        proc::refunds_fit(a, id),
    ensures
        ({
            let p = a.procs.v@[id];
            let before = kernel::handles_dropped(a.shm_world(), p.handles@, 64).mems[i];
            let after = b.mems.v@[i];
            let paid = p.parent_mem is Some && p.parent_mem->0 == i;
            let own = p.mem_idx is Some && p.mem_idx->0 == i;
            &&& after.remaining == before.remaining + if paid {
                p.spawn_cost as int
            } else {
                0
            }
            &&& after.in_use == (before.in_use && !own)
            &&& !own ==> after.gen == before.gen
            &&& own ==> after.gen == (before.gen + 1) % 0x1_0000_0000
            &&& b.pmm.base == a.pmm.base
            &&& b.pmm.next == a.pmm.next
            &&& b.pmm.end == a.pmm.end
        }),
{
    assert(a.procs.v@[id].wf());
}

/// A reply object is refused for want of one only when all are taken, and for want of a
/// handle only when one is free and the table is not.
pub proof fn law_refused_reply(replies: Seq<Reply>, tables: Seq<Table>, caller: usize, to: int)
    requires
        0 <= to < tables.len(),
        tables[to].len() == 64,
    ensures
        ({
            let m = ipc::mint(replies, tables, caller, to);
            let taken = forall|i: int| 0 <= i < replies.len() ==> (#[trigger] replies[i]).in_use;
            let crammed = forall|h: int| 1 <= h < 64 ==> (#[trigger] tables[to][h]) is Some;
            &&& m.handle == Err::<Handle, SysError>(SysError::NoMem) <==> taken
            &&& m.handle == Err::<Handle, SysError>(SysError::NoSlots) <==> !taken && crammed
            &&& m.handle is Err ==> m.tables == tables
        }),
{
    exchange::lemma_free_reply(replies, 0);
    proc::lemma_empty_from(tables[to], 1);
}

/// A transfer between two processes ends well only when the sender still held every
/// capability. It stops for want of a handle only when the receiver's table is full, and
/// for a bad handle only when one was no longer held.
pub proof fn law_transfer_stops(
    tables: Seq<Table>,
    regions: Seq<Region>,
    src: int,
    dst: int,
    entries: Seq<Option<HandleEntry>>,
    handles: Seq<Handle>,
    i: int,
    n: int,
)
    requires
        0 <= src < tables.len(),
        0 <= dst < tables.len(),
        src != dst,
        tables[dst].len() == 64,
        0 <= i <= n <= handles.len(),
        n <= entries.len(),
    ensures
        ({
            let t = ipc::transfer(tables, regions, src, dst, entries, handles, i, n);
            &&& t.err is None ==> forall|k: int|
                i <= k < n ==> (#[trigger] entries[k]) is Some && 1 <= handles[k] < 64
                    && tables[src][handles[k] as int] is Some
                    && tables[src][handles[k] as int]->0.obj == entries[k]->0.obj
            &&& t.err is Some ==> t.err == Some(SysError::NoSlots) || t.err == Some(
                SysError::BadHandle,
            )
            &&& t.err == Some(SysError::NoSlots) ==> t.tables[dst].len() == 64 && forall|h: int|
                1 <= h < 64 ==> (#[trigger] t.tables[dst][h]) is Some
            &&& t.err == Some(SysError::BadHandle) ==> exists|k: int|
                i <= k < n && ((#[trigger] entries[k]) is None || handles[k] == 0 || handles[k]
                    >= 64 || tables[src][handles[k] as int] is None
                    || tables[src][handles[k] as int]->0.obj != entries[k]->0.obj)
            &&& t.tables[src] == tables[src]
        }),
    decreases n - i,
{
    if i < n && entries[i] is Some && ipc::still_held(tables[src], handles[i], entries[i]->0) {
        proc::lemma_empty_from(tables[dst], 1);
        if !proc::full(tables[dst]) {
            let h = proc::next_slot(tables[dst]);
            let t1 = tables.update(dst, tables[dst].update(h, entries[i]));
            let h1 = handles.update(i, h as u32);
            law_transfer_stops(
                t1,
                ipc::handle_noted(regions, entries[i]->0),
                src,
                dst,
                entries,
                h1,
                i + 1,
                n,
            );
            let t = ipc::transfer(tables, regions, src, dst, entries, handles, i, n);
            if t.err is None {
                assert forall|k: int| i <= k < n implies (#[trigger] entries[k]) is Some && 1
                    <= handles[k] < 64 && tables[src][handles[k] as int] is Some
                    && tables[src][handles[k] as int]->0.obj == entries[k]->0.obj by {
                    if k > i {
                        assert(h1[k] == handles[k]);
                    }
                }
            }
            if t.err == Some(SysError::BadHandle) {
                let k = choose|k: int|
                    i + 1 <= k < n && ((#[trigger] entries[k]) is None || h1[k] == 0 || h1[k] >= 64
                        || t1[src][h1[k] as int] is None || t1[src][h1[k] as int]->0.obj
                        != entries[k]->0.obj);
                assert(h1[k] == handles[k]);
                assert(entries[k] is None || handles[k] == 0 || handles[k] >= 64
                    || tables[src][handles[k] as int] is None
                    || tables[src][handles[k] as int]->0.obj != entries[k]->0.obj);
            }
        }
    } else if i < n {
        assert(entries[i] is None || handles[i] == 0 || handles[i] >= 64
            || tables[src][handles[i] as int] is None || tables[src][handles[i] as int]->0.obj
            != entries[i]->0.obj);
    }
}

/// Capabilities stop being taken over only when the table is full, and then not all of
/// them were.
pub proof fn law_full_table_is_told(
    table: Table,
    regions: Seq<Region>,
    handles: Seq<Handle>,
    ents: Seq<HandleEntry>,
    i: int,
)
    requires
        table.len() == 64,
        0 <= i <= ents.len(),
        handles.len() == i,
    ensures
        ({
            let r = stream::installed_from(table, regions, handles, ents, i);
            &&& r.full <==> r.handles.len() < ents.len()
            &&& r.full ==> r.table.len() == 64 && forall|h: int|
                1 <= h < 64 ==> (#[trigger] r.table[h]) is Some
        }),
    decreases ents.len() - i,
{
    if i < ents.len() {
        proc::lemma_empty_from(table, 1);
        if !proc::full(table) {
            let h = proc::next_slot(table);
            law_full_table_is_told(
                table.update(h, Some(ents[i])),
                ipc::handle_noted(regions, ents[i]),
                handles.push(h as u32),
                ents,
                i + 1,
            );
        }
    }
}

/// A sender that queues is handed no message when it runs again.
pub proof fn law_queued_sender_gets_nothing(
    w: World,
    me: int,
    ep: int,
    msg: MsgView,
    entries: Seq<Option<HandleEntry>>,
    uptr: u64,
    is_call: bool,
    fits: bool,
)
    requires
        0 <= me < w.slots.len(),
    ensures
        ({
            let s = ipc::queued(w, me, ep, msg, entries, uptr, is_call).slots[me];
            &&& ipc::resumed(s, fits).1 is None
            &&& ipc::resumed(s, fits).0 == (w.slots[me].ret_rax, w.slots[me].ret_rdx)
        }),
{
}

/// A range of pages is taken when it starts on a page of the lower half and its end can be
/// rounded up, and it then has just enough pages.
pub proof fn law_range_is_taken(vaddr: u64, len: u64)
    ensures
        ({
            let r = memory::range_request(vaddr, len);
            &&& r is Ok <==> {
                &&& vaddr % 4096 == 0
                &&& vaddr < 0x8000_0000_0000
                &&& vaddr + len + 4095 <= 0xffff_ffff_ffff_ffff
            }
            &&& r is Err ==> r == Err::<u64, SysError>(SysError::Fault)
            &&& r is Ok ==> len <= r->Ok_0 * 4096 < len + 4096
        }),
{
}

/// The address of a configuration register is made of the enable bit, the place of the
/// device and the register's offset, down to a whole word.
pub proof fn law_config_address(bus: u8, device: u8, func: u8, off: u8)
    requires
        device < 32,
        func < 8,
    ensures
        pci::config_address(bus, device, func, off) == 0x8000_0000 + bus * 0x1_0000 + device * 0x800
            + func * 0x100 + off - off % 4,
{
    assert((0x8000_0000u32 | ((bus as u32) << 16u32) | ((device as u32) << 11u32) | ((func as u32)
        << 8u32) | (off as u32 & 0xFC)) == 0x8000_0000 + bus * 0x1_0000 + device * 0x800 + func
        * 0x100 + off - off % 4) by (bit_vector)
        requires
            device < 32,
            func < 8,
    ;
}

/// A base register is read only for a holder of the device that may map it, at a whole page
/// of the lower half. Register `n` stands `n` words after the first, which is at 16.
pub proof fn law_base_register(t: Table, h: Handle, bar: u8, vaddr: u64)
    requires
        t.len() == 64,
    ensures
        ({
            let r = dev::bar_request(t, h, bar, vaddr);
            let w = dev::pci_behind(t, h, 0x20000);
            &&& r is Ok ==> w is Ok
            &&& w is Err ==> r == Err::<u32, SysError>(w->Err_0)
            &&& w is Ok ==> (r is Ok <==> vaddr % 4096 == 0 && vaddr < 0x8000_0000_0000 && bar < 60)
            &&& w is Ok && (vaddr % 4096 != 0 || vaddr >= 0x8000_0000_0000) ==> r == Err::<
                u32,
                SysError,
            >(SysError::Fault)
            &&& r is Ok ==> {
                let at = dev::place_of(w->Ok_0);
                at.1 < 32 && at.2 < 8 ==> r->Ok_0 == 0x8000_0000 + at.0 * 0x1_0000 + at.1 * 0x800 + at.2 * 0x100 + 16 + 4
                    * bar
            }
        }),
{
    if let Ok(w) = dev::pci_behind(t, h, 0x20000) {
        let at = dev::place_of(w);
        if bar < 60 && at.1 < 32 && at.2 < 8 {
            law_config_address(at.0, at.1, at.2, (0x10 + bar * 4) as u8);
        }
    }
}

/// A scan goes through the places in order and leaves none out but the other functions of a
/// device that has only one. The first network controller that it meets stays found.
pub proof fn law_scan_order(s: Scan, id: u32, class_reg: u32, header: u32)
    requires
        s.bus < 256,
        s.dev < 32,
        s.func < 8,
    ensures
        ({
            let n = s.bus * 256 + s.dev * 8 + s.func;
            let t = pci::stepped(s, id, class_reg, header);
            let there = id % 0x1_0000 != 0xffff;
            let alone = there && s.func == 0 && header & 0x80_0000 == 0;
            &&& t.dev < 32
            &&& t.func < 8
            &&& t.bus * 256 + t.dev * 8 + t.func == if alone {
                n + 8
            } else {
                n + 1
            }
            &&& s.nic is Some ==> t.nic == s.nic
            &&& s.nic is None ==> (t.nic is Some <==> there && class_reg / 0x100_0000 == 2)
            &&& s.nic is None && t.nic is Some ==> {
                &&& t.nic->0.bus == s.bus
                &&& t.nic->0.dev == s.dev
                &&& t.nic->0.func == s.func
            }
        }),
{
}

/// A code beyond the known ones reads as a call that does not exist.
pub proof fn law_unknown_code(rax: u64)
    ensures
        rax >= 10 ==> abi::decode_raw(rax) == Err::<(), SysError>(SysError::Nosys),
        abi::decode_raw(rax) is Ok <==> rax == 0,
{
}

/// The parts of a dotted text, with the dots between them.
pub open spec fn dotted_again(p: Seq<Seq<u8>>) -> Seq<u8>
    decreases p.len(),
{
    if p.len() <= 1 {
        p[0]
    } else {
        p[0] + seq![46u8] + dotted_again(p.subrange(1, p.len() as int))
    }
}

/// Splitting at dots loses nothing and leaves no dot in a part.
pub proof fn law_parts_rejoin(s: Seq<u8>)
    ensures
        net::parts(s).len() >= 1,
        dotted_again(net::parts(s)) == s,
        forall|k: int, j: int|
            0 <= k < net::parts(s).len() && 0 <= j < net::parts(s)[k].len() ==> (
            #[trigger] net::parts(s)[k][j]) != 46,
    decreases s.len(),
{
    let n = crate::bytes::first_of(s, 0x2E);
    crate::bytes::lemma_first_of(s, 0x2E);
    let p = net::parts(s);
    if n < s.len() {
        let rest = s.subrange(n + 1, s.len() as int);
        law_parts_rejoin(rest);
        let q = net::parts(rest);
        assert(p.subrange(1, p.len() as int) =~= q);
        assert(p[0] + seq![46u8] + rest =~= s);
        assert forall|k: int, j: int| 0 <= k < p.len() && 0 <= j < p[k].len() implies (
        #[trigger] p[k][j]) != 46 by {
            if k > 0 {
                assert(p[k] == q[k - 1]);
                assert(q[k - 1][j] != 46);
            } else {
                assert(p[0][j] == s[j]);
            }
        }
    }
}

/// A child costs its pages, eight more for its tables, one for its root, and its budget.
pub proof fn law_price(pages: int, budget: u64)
    ensures
        spawn::spawn_price(pages, budget) == pages * 4096 + 9 * 4096 + budget,
{
}

/// Generations count up and start over, so that two in a row never agree.
pub proof fn law_generations_count(gen: u32)
    ensures
        mem::next_gen(gen) == (gen + 1) % 0x1_0000_0000,
        mem::next_gen(gen) != gen,
{
}

/// A thread that is told of an error gets its code and nothing beside it, copies no message
/// out, and is not asleep any more.
pub proof fn law_error_is_told(w: World, t: int, e: SysError, fits: bool)
    requires
        0 <= t < w.slots.len(),
        0 <= t < w.tcbs.len(),
    ensures
        ({
            let v = ipc::refused(w, t, e);
            &&& ipc::resumed(v.slots[t], fits) == ((abi::error_code(e), 0u64), None::<MsgView>)
            &&& w.tcbs[t].state is Blocked ==> v.tcbs[t].state is Ready
        }),
        forall|c: u64| #[trigger]
            ipc::receipt(Got::Refused(c), fits) == (Outcome::Done(c, 0), None::<MsgView>),
{
}

/// A caller whose reply object goes away is told that the other side is gone.
pub proof fn law_caller_learns_of_the_end(
    replies: Seq<Reply>,
    slots: Seq<SlotView>,
    tcbs: Seq<Tcb>,
    idx: int,
    fits: bool,
)
    requires
        0 <= idx < replies.len(),
        replies[idx].caller_tid < slots.len(),
    ensures
        ({
            let v = ipc::abandoned(replies, slots, tcbs, idx);
            &&& ipc::resumed(v.1[replies[idx].caller_tid as int], fits) == (
                (8u64, 0u64),
                None::<MsgView>,
            )
            &&& !v.0[idx].in_use
            &&& v.0[idx].gen != replies[idx].gen
        }),
{
}

/// A receiver that may receive but whose buffer is not a whole message of its own memory
/// gets a fault.
pub proof fn law_receive_buffer(t: Table, u: UserSpace, ep: Handle, ptr: u64)
    requires
        t.len() == 64,
        proc::entry_with(t, ep, ObjType::Endpoint, 2) is Ok,
    ensures
        msg::recv_request(t, u, ep, ptr) is Err ==> msg::recv_request(t, u, ep, ptr) == Err::<
            u8,
            SysError,
        >(SysError::Fault),
{
}

/// A closed descriptor is free and keeps no mode, and the others are as they were.
pub proof fn law_closed_descriptor(s: Seq<FdSlot>, n: i32, other: i32)
    requires
        fd::is_open(s, n),
        n < s.len(),
    ensures
        ({
            let v = FdTable::closed(s, n);
            &&& v.len() == s.len()
            &&& !fd::is_open(v, n)
            &&& !v[n as int].nonblock
            &&& other != n && 0 <= other < s.len() ==> v[other as int] == s[other as int]
        }),
{
}

/// The digits of a number end at the first character that is none in its base.
pub proof fn law_digits_end(s: Seq<u8>, base: int, i: int)
    requires
        2 <= base <= 36,
    ensures
        0 <= number::digits_len(s, base) <= s.len(),
        0 <= i < number::digits_len(s, base) ==> number::digit_of(s[i]) < base,
        i == number::digits_len(s, base) && i < s.len() ==> number::digit_of(s[i]) >= base,
    decreases s.len(),
{
    if s.len() > 0 {
        law_digits_end(s.subrange(1, s.len() as int), base, i - 1);
    }
}

/// Bytes put into an area stand where they were put, and the rest stays.
pub proof fn law_area_is_written(area: Seq<u8>, off: int, b: Seq<u8>, i: int)
    requires
        0 <= off,
        off + b.len() <= area.len(),
    ensures
        ({
            let v = packet::written(area, off, b);
            &&& v.len() == area.len()
            &&& v.subrange(off, off + b.len()) =~= b
            &&& 0 <= i < off ==> v[i] == area[i]
            &&& off + b.len() <= i < area.len() ==> v[i] == area[i]
        }),
{
}

/// A page is open to a program when every entry on the way to it is, down to the first that
/// maps a large page.
pub proof fn law_open_page(ram: Seq<u64>, root: u64, va: u64, write: bool)
    ensures
        ({
            let e4 = ram[root / 8 + vm::index4(va)];
            let e3 = ram[(e4 & 0x000f_ffff_ffff_f000) / 8 + vm::index3(va)];
            let e2 = ram[(e3 & 0x000f_ffff_ffff_f000) / 8 + vm::index2(va)];
            let e1 = ram[(e2 & 0x000f_ffff_ffff_f000) / 8 + vm::index1(va)];
            let o4 = e4 & 1 != 0 && e4 & 4 != 0 && (write ==> e4 & 2 != 0);
            let o3 = e3 & 1 != 0 && e3 & 4 != 0 && (write ==> e3 & 2 != 0);
            let o2 = e2 & 1 != 0 && e2 & 4 != 0 && (write ==> e2 & 2 != 0);
            let o1 = e1 & 1 != 0 && e1 & 4 != 0 && (write ==> e1 & 2 != 0);
            &&& o4 && o3 && e3 & 0x80 != 0 ==> usermem::user_page(ram, root, va, write)
            &&& o4 && o3 && o2 && e2 & 0x80 != 0 ==> usermem::user_page(ram, root, va, write)
            &&& o4 && o3 && o2 && o1 ==> usermem::user_page(ram, root, va, write)
        }),
{
}

/// Frames that come back are free, after those that were, and the range that frames are
/// handed out of stays. Without usable memory there is no region to hand out.
pub proof fn law_frames_rejoin(a: Pmm, b: Pmm, frames: Seq<u64>, map: Seq<MemRegion>, base: u64)
    requires
        shm::frames_back(a, b, frames),
        pmm::is_largest(map, base, 0),
    ensures
        b.base == a.base && b.next == a.next && b.end == a.end,
        b.free@.len() == a.free@.len() + frames.len(),
        forall|i: int| 0 <= i < frames.len() ==> b.free@.contains(#[trigger] frames[i]),
        base == 0,
{
    assert forall|i: int| 0 <= i < frames.len() implies b.free@.contains(#[trigger] frames[i]) by {
        assert(b.free@[a.free@.len() + i] == frames[i]);
    }
}

/// A process that was never used has no name and no capability, and may make every call.
pub proof fn law_blank_process(p: Process, i: int)
    requires
        proc::is_blank(p),
    ensures
        p.name@.len() > 0 && p.name@[0] == 0,
        0 <= i < 64 ==> p.handles@[i] is None,
        p.pledge == 0xffff_ffff_ffff_ffff,
        p.spawn_cost == 0 && p.imm_count == 0 && p.sig_dispatch == 0 && p.pml4_phys == 0,
        p.state is Free && p.mem_idx is None && p.parent_mem is None && p.exit_notif is None,
{
}

} // verus!
