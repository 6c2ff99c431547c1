//! Laws of authority: which capability each call takes, with the rights and the numbers
//! that programs are built for.

use crate::abi::{self, Handle, MsgView, SysError};
use crate::fb::FbInfo;
use crate::image::ImageEntry;
use crate::ipc::{self, Reply};
use crate::kernel::Kernel;
use crate::laws::exchange;
use crate::mm::mem::MemObj;
use crate::object::{self, HandleEntry, ObjType, ObjectRef};
use crate::proc::{self, Table};
use crate::syscall::dispatch::{self, Call};
use crate::syscall::{self, caps, dev, memory, msg, spawn, stream, SyscallRet, UserSpace};
use crate::usermem;
use vstd::prelude::*;

verus! {

/// Every object is of the type that it is named for.
pub proof fn law_objects_have_their_types(i: u8, w: u32, base: u16, len: u16, side: u8)
    ensures
        object::type_of(ObjectRef::Endpoint(i)) == ObjType::Endpoint,
        object::type_of(ObjectRef::Reply(i)) == ObjType::Reply,
        object::type_of(ObjectRef::Console) == ObjType::Console,
        object::type_of(ObjectRef::Memory(i)) == ObjType::Memory,
        object::type_of(ObjectRef::Frame(i)) == ObjType::Frame,
        object::type_of(ObjectRef::Notification(i)) == ObjType::Notification,
        object::type_of(ObjectRef::IoPort { base, len }) == ObjType::IoPort,
        object::type_of(ObjectRef::Irq(i)) == ObjType::Irq,
        object::type_of(ObjectRef::Image(i)) == ObjType::Image,
        object::type_of(ObjectRef::PciDevice(w)) == ObjType::PciDevice,
        object::type_of(ObjectRef::Pipe(i)) == ObjType::Pipe,
        object::type_of(ObjectRef::Framebuffer) == ObjType::Framebuffer,
        object::type_of(ObjectRef::Channel { conn: i, side }) == ObjType::Channel,
        object::type_of(ObjectRef::Shm(i)) == ObjType::Shm,
{
}

/// A handle leads to an entry of the table, and no handle but those from 1 to 63 leads
/// anywhere; a lookup fails for want of an entry, then of the type, then of a right.
pub proof fn law_lookup(t: Table, h: Handle, ty: ObjType, rights: u32)
    requires
        t.len() == 64,
    ensures
        ({
            let there = 1 <= h < 64 && t[h as int] is Some;
            let e = t[h as int]->0;
            let r = proc::entry_with(t, h, ty, rights);
            &&& !there ==> r == Err::<HandleEntry, SysError>(SysError::BadHandle)
            &&& there && object::type_of(e.obj) != ty ==> r == Err::<HandleEntry, SysError>(
                SysError::BadType,
            )
            &&& there && object::type_of(e.obj) == ty && e.rights & rights != rights ==> r == Err::<
                HandleEntry,
                SysError,
            >(SysError::Rights)
            &&& there && object::type_of(e.obj) == ty && e.rights & rights == rights ==> r == Ok::<
                HandleEntry,
                SysError,
            >(e)
        }),
{
}

/// The codes of errors are those programs know.
pub proof fn law_error_codes()
    ensures
        abi::error_code(SysError::BadHandle) == 1,
        abi::error_code(SysError::BadType) == 2,
        abi::error_code(SysError::Rights) == 3,
        abi::error_code(SysError::Fault) == 4,
        abi::error_code(SysError::Msg) == 5,
        abi::error_code(SysError::NoSlots) == 6,
        abi::error_code(SysError::NoMem) == 7,
        abi::error_code(SysError::Gone) == 8,
        abi::error_code(SysError::WouldBlock) == 9,
        abi::error_code(SysError::Nosys) == 10,
{
}

/// A call that fails says so in the first register and gives nothing in the second; one
/// that succeeds has zero in the first.
pub proof fn law_results(e: SysError, v: u64)
    ensures
        syscall::failed(e).rax == abi::error_code(e),
        syscall::failed(e).rax != 0,
        syscall::failed(e).rdx == 0,
        syscall::succeeded(v).rax == 0,
        syscall::succeeded(v).rdx == v,
{
}

/// Sending takes a handle to an endpoint that may send, an aligned buffer within reach, one
/// that can be written where a reply is to come back in it, a message within its limits
/// and the right to grant what it grants; what is sent carries the handle's badge.
pub proof fn law_send_takes_authority(
    t: Table,
    u: UserSpace,
    ep: Handle,
    ptr: u64,
    m: MsgView,
    is_call: bool,
)
    requires
        t.len() == 64,
        m.handles.len() == 4,
    ensures
        ({
            let e = t[ep as int]->0;
            let r = msg::send_request(t, u, ep, ptr, m, is_call);
            &&& r is Ok <==> {
                &&& 1 <= ep < 64
                &&& t[ep as int] is Some
                &&& e.obj is Endpoint
                &&& e.rights & 1 == 1
                &&& ptr & 7 == 0
                &&& usermem::user_range(u.ram@, u.root, ptr, 104, is_call)
                &&& m.data_len <= 8
                &&& m.handle_count <= 4
                &&& exchange::grantable(t, m.handles, m.handle_count as int)
            }
            &&& r is Ok ==> {
                &&& e.obj == ObjectRef::Endpoint(r->Ok_0.0)
                &&& r->Ok_0.1.badge == e.badge
                &&& r->Ok_0.1.tag == m.tag
                &&& r->Ok_0.1.data == m.data
                &&& r->Ok_0.1.data_len == m.data_len
                &&& r->Ok_0.1.handles == m.handles
                &&& r->Ok_0.1.handle_count == m.handle_count
            }
        }),
{
    exchange::lemma_grants(t, m.handles, 0, m.handle_count as int);
}

/// Receiving takes a handle to an endpoint that may receive and an aligned buffer within
/// reach that can be written.
pub proof fn law_receive_takes_authority(t: Table, u: UserSpace, ep: Handle, ptr: u64, i: u8)
    requires
        t.len() == 64,
    ensures
        msg::recv_request(t, u, ep, ptr) == Ok::<u8, SysError>(i) <==> {
            &&& 1 <= ep < 64
            &&& t[ep as int] is Some
            &&& t[ep as int]->0.obj == ObjectRef::Endpoint(i)
            &&& t[ep as int]->0.rights & 2 == 2
            &&& ptr & 7 == 0
            &&& usermem::user_range(u.ram@, u.root, ptr, 104, true)
        },
{
}

/// Answering takes a reply handle whose call still waits for it.
pub proof fn law_reply_takes_authority(
    t: Table,
    replies: Seq<Reply>,
    u: UserSpace,
    h: Handle,
    ptr: u64,
    m: MsgView,
)
    requires
        t.len() == 64,
        m.handles.len() == 4,
    ensures
        ({
            let e = t[h as int]->0;
            let r = msg::reply_request(t, replies, u, h, ptr, m);
            &&& r is Ok <==> {
                &&& 1 <= h < 64
                &&& t[h as int] is Some
                &&& e.obj is Reply
                &&& replies[e.obj->Reply_0 as int].in_use
                &&& replies[e.obj->Reply_0 as int].gen == e.badge
                &&& ptr & 7 == 0
                &&& usermem::user_range(u.ram@, u.root, ptr, 104, false)
                &&& m.data_len <= 8
                &&& m.handle_count <= 4
                &&& exchange::grantable(t, m.handles, m.handle_count as int)
            }
            &&& r is Ok ==> {
                &&& e.obj == ObjectRef::Reply(r->Ok_0.0)
                &&& r->Ok_0.1.badge == 0
                &&& r->Ok_0.1.tag == m.tag
                &&& r->Ok_0.1.data == m.data
                &&& r->Ok_0.1.data_len == m.data_len
                &&& r->Ok_0.1.handles == m.handles
                &&& r->Ok_0.1.handle_count == m.handle_count
            }
        }),
{
    exchange::lemma_grants(t, m.handles, 0, m.handle_count as int);
    let e = t[h as int]->0;
    if 1 <= h < 64 && t[h as int] is Some {
        assert(e.rights & 0 == 0) by (bit_vector);
    }
}

/// A handle that is given up leads nowhere; every other one leads where it did, in every
/// process.
pub proof fn law_handle_is_given_up(w: ipc::World, me: int, h: int)
    requires
        exchange::shaped(w),
        0 <= me < 32,
        0 <= h < 64,
    ensures
        ({
            let v = msg::handle_gone(w, me, h);
            &&& v.tables[me][h] is None
            &&& forall|x: int| 0 <= x < 64 && x != h ==> v.tables[me][x] == w.tables[me][x]
            &&& forall|p: int| 0 <= p < 32 && p != me ==> v.tables[p] == w.tables[p]
            &&& v.eps == w.eps && v.slots == w.slots && v.tcbs == w.tcbs && v.replies == w.replies
        }),
{
}

/// A notification, an interrupt line, a PCI device or a pipe is reached just by a handle to
/// it that has the rights asked for.
pub proof fn law_named_objects_take_authority(t: Table, h: Handle, rights: u32, i: u8, w: u32)
    requires
        t.len() == 64,
    ensures
        msg::notification(t, h, rights) == Ok::<u8, SysError>(i) <==> {
            &&& 1 <= h < 64 && t[h as int] is Some
            &&& t[h as int]->0.obj == ObjectRef::Notification(i)
            &&& t[h as int]->0.rights & rights == rights
        },
        msg::irq_line(t, h, rights) == Ok::<u8, SysError>(i) <==> {
            &&& 1 <= h < 64 && t[h as int] is Some
            &&& t[h as int]->0.obj == ObjectRef::Irq(i)
            &&& t[h as int]->0.rights & rights == rights
        },
        dev::pci_behind(t, h, rights) == Ok::<u32, SysError>(w) <==> {
            &&& 1 <= h < 64 && t[h as int] is Some
            &&& t[h as int]->0.obj == ObjectRef::PciDevice(w)
            &&& t[h as int]->0.rights & rights == rights
        },
        stream::pipe_behind(t, h, rights) == Ok::<u8, SysError>(i) <==> {
            &&& 1 <= h < 64 && t[h as int] is Some
            &&& t[h as int]->0.obj == ObjectRef::Pipe(i)
            &&& t[h as int]->0.rights & rights == rights
        },
{
}

/// A channel end is reached just by a handle to that end of that connection.
pub proof fn law_channel_end_takes_authority(t: Table, h: Handle, rights: u32, conn: u8, side: u8)
    requires
        t.len() == 64,
    ensures
        stream::chan_behind(t, h, rights) == Ok::<(u8, u8), SysError>((conn, side)) <==> {
            &&& 1 <= h < 64 && t[h as int] is Some
            &&& t[h as int]->0.obj == (ObjectRef::Channel { conn, side })
            &&& t[h as int]->0.rights & rights == rights
        },
        stream::end_of(conn, side).obj == (ObjectRef::Channel { conn, side }),
        stream::end_of(conn, side).badge == 0,
{
}

/// A port can be used just by a handle to a range of ports that it lies in.
pub proof fn law_port_takes_authority(t: Table, h: Handle, port: u16, rights: u32)
    requires
        t.len() == 64,
    ensures
        dev::io_port(t, h, port, rights) is Ok <==> {
            &&& 1 <= h < 64 && t[h as int] is Some
            &&& t[h as int]->0.obj matches ObjectRef::IoPort { base, len } && base <= port < base
                + len
            &&& t[h as int]->0.rights & rights == rights
        },
        dev::io_port(t, h, port, rights) is Ok ==> dev::io_port(t, h, port, rights)->Ok_0 == port,
{
}

/// The framebuffer is reached just by a handle that may map it, while there is one.
pub proof fn law_framebuffer_takes_authority(t: Table, fb: Option<FbInfo>, h: Handle, f: FbInfo)
    requires
        t.len() == 64,
    ensures
        dev::framebuffer(t, fb, h) == Ok::<FbInfo, SysError>(f) <==> {
            &&& 1 <= h < 64 && t[h as int] is Some
            &&& t[h as int]->0.obj == ObjectRef::Framebuffer
            &&& t[h as int]->0.rights & 0x20000 == 0x20000
            &&& fb == Some(f)
            &&& f.usable()
        },
{
}

/// The registers of a device are mapped page after page, from the page asked for on, onto
/// the device's memory in order.
pub proof fn law_device_is_mapped_in_order(vaddr: u64, base: u64, size: int, at: int)
    requires
        0 <= at < size,
        vaddr + size + 4096 <= u64::MAX,
        base + size + 4096 <= u64::MAX,
    ensures
        ({
            let pages = dev::device_pages(vaddr, base, size);
            &&& size <= pages.len() * 4096 < size + 4096
            &&& exists|i: int|
                #![trigger pages[i]]
                {
                    &&& 0 <= i < pages.len()
                    &&& pages[i].virt <= vaddr + at < pages[i].virt + 4096
                    &&& pages[i].phys - pages[i].virt == base - vaddr
                }
        }),
{
    let pages = dev::device_pages(vaddr, base, size);
    let i = at / 4096;
    assert(pages[i].virt == vaddr + i * 4096);
}

/// The place of a PCI device is packed into one word, bus first.
pub proof fn law_place_is_unpacked(bus: u8, device: u8, function: u8)
    ensures
        dev::place_of((bus * 0x1_0000 + device * 0x100 + function) as u32) == (
            bus,
            device,
            function,
        ),
{
}

/// An image can be started just by a handle that may spawn it, while it is registered; what
/// is started is the image's file.
pub proof fn law_image_takes_authority(t: Table, images: Seq<ImageEntry>, h: Handle)
    requires
        t.len() == 64,
    ensures
        ({
            let r = spawn::image_request(t, images, h);
            &&& r is Ok <==> {
                &&& 1 <= h < 64 && t[h as int] is Some
                &&& t[h as int]->0.obj matches ObjectRef::Image(i) && i < crate::image::MAX_IMAGES
                    && images[i as int].in_use
                &&& t[h as int]->0.rights & 0x400000 == 0x400000
            }
            &&& r is Ok ==> r->Ok_0 == images[t[h as int]->0.obj->Image_0 as int].data@
        }),
{
}

/// A process that tells of its end tells a notification that its parent may signal.
pub proof fn law_exit_notification_takes_authority(t: Table, h: u64, n: u8)
    requires
        t.len() == 64,
        h <= 0xffff_ffff,
    ensures
        spawn::exit_notification(t, 0) == Ok::<Option<u8>, SysError>(None),
        spawn::exit_notification(t, h) == Ok::<Option<u8>, SysError>(Some(n)) <==> {
            &&& 1 <= h < 64 && t[h as int] is Some
            &&& t[h as int]->0.obj == ObjectRef::Notification(n)
            &&& t[h as int]->0.rights & 1 == 1
        },
{
}

/// A process can be started just by who can pay for it and may grant what it is given: the
/// price is a page for each page of the program, for its page tables and for its
/// arguments, and the budget that the child is to have.
pub proof fn law_spawn_takes_authority(
    t: Table,
    mems: Seq<MemObj>,
    u: UserSpace,
    pages: int,
    mem_h: Handle,
    ptr: u64,
    m: MsgView,
    exit_h: u64,
)
    requires
        t.len() == 64,
        m.handles.len() == 4,
        m.data.len() == 8,
    ensures
        ({
            let r = spawn::spawn_request(t, mems, u, pages, mem_h, ptr, m, exit_h);
            let own = if m.data[0] == 0 {
                262144
            } else {
                m.data[0]
            };
            let args = if m.data[2] <= 4095 {
                m.data[2] as int
            } else {
                4095
            };
            let price = (pages + 9) * 4096 + own;
            &&& r is Ok <==> {
                &&& memory::budget(t, mems, mem_h) is Ok
                &&& spawn::exit_notification(t, exit_h) is Ok
                &&& ptr & 7 == 0
                &&& usermem::user_range(u.ram@, u.root, ptr, 104, false)
                &&& m.handle_count <= 4
                &&& usermem::user_range(u.ram@, u.root, m.data[1], args, false)
                &&& spawn_grantable(t, m.handles, m.handle_count as int)
                &&& mems[memory::budget(t, mems, mem_h)->Ok_0 as int].remaining >= price
            }
            &&& r is Ok ==> {
                &&& memory::budget(t, mems, mem_h) == Ok::<u8, SysError>(r->Ok_0.0)
                &&& spawn::exit_notification(t, exit_h) == Ok::<Option<u8>, SysError>(r->Ok_0.1)
                &&& r->Ok_0.2 == price
            }
        }),
{
    lemma_spawn_grants(t, m.handles, 0, m.handle_count as int);
}

/// Each of the first `n` handles is null or leads to a capability that may be granted.
pub open spec fn spawn_grantable(t: Table, handles: Seq<Handle>, n: int) -> bool {
    forall|k: int|
        0 <= k < n ==> (#[trigger] handles[k]) == 0 || 1 <= handles[k] < 64
            && t[handles[k] as int] is Some && t[handles[k] as int]->0.rights & 4 != 0
}

proof fn lemma_spawn_grants(t: Table, handles: Seq<Handle>, i: int, n: int)
    requires
        0 <= i <= n,
        t.len() == 64,
    ensures
        spawn::grants_error(t, handles, i, n) is None <==> forall|k: int|
            i <= k < n ==> (#[trigger] handles[k]) == 0 || 1 <= handles[k] < 64
                && t[handles[k] as int] is Some && t[handles[k] as int]->0.rights & 4 != 0,
    decreases n - i,
{
    if i < n {
        lemma_spawn_grants(t, handles, i + 1, n);
        let h = handles[i];
        if spawn::grants_error(t, handles, i, n) is None {
            assert forall|k: int| i <= k < n implies (#[trigger] handles[k]) == 0 || 1 <= handles[k]
                < 64 && t[handles[k] as int] is Some && t[handles[k] as int]->0.rights & 4 != 0 by {
                if k > i {
                    assert(i + 1 <= k);
                }
            }
        }
    }
}

/// Sending on a channel takes a handle that may send, and the right to grant what is
/// granted, of which there are at most eight.
pub proof fn law_channel_send_takes_authority(
    t: Table,
    u: UserSpace,
    h: Handle,
    buf: u64,
    len: u64,
    caps_ptr: u64,
    ncaps: u64,
    handles: Seq<Handle>,
)
    requires
        t.len() == 64,
    ensures
        ({
            let n = if ncaps <= 8 {
                ncaps as int
            } else {
                8
            };
            let total = if len <= 0x10_0000 {
                len as int
            } else {
                0x10_0000
            };
            let r = stream::chan_send_request(t, u, h, buf, len, caps_ptr, ncaps, handles);
            &&& r is Ok <==> {
                &&& 1 <= h < 64 && t[h as int] is Some
                &&& t[h as int]->0.obj is Channel
                &&& t[h as int]->0.rights & 0x80000 == 0x80000
                &&& usermem::user_range(u.ram@, u.root, caps_ptr, n * 4, false)
                &&& exchange::grantable(t, handles, n)
                &&& usermem::user_range(u.ram@, u.root, buf, total, false)
            }
            &&& r is Ok ==> t[h as int]->0.obj == (ObjectRef::Channel {
                conn: r->Ok_0.0,
                side: r->Ok_0.1,
            })
        }),
{
    exchange::lemma_grants(
        t,
        handles,
        0,
        if ncaps <= 8 {
            ncaps as int
        } else {
            8
        },
    );
}

/// A badged copy of an endpoint handle takes an unbadged one that may be attenuated; it
/// leads to the same endpoint, has no right that the first has not, and its badge is not 0.
pub proof fn law_mint_takes_authority(t: Table, src: Handle, badge: u64, rights: u32)
    requires
        t.len() == 64,
    ensures
        ({
            let e = t[src as int]->0;
            let r = caps::minted(t, src, badge, rights);
            &&& r is Ok <==> {
                &&& 1 <= src < 64 && t[src as int] is Some
                &&& e.obj is Endpoint
                &&& e.rights & 8 != 0
                &&& e.badge == 0
                &&& e.rights & rights == rights
                &&& badge != 0
            }
            &&& r is Ok ==> r->Ok_0.obj == e.obj && r->Ok_0.rights == rights && r->Ok_0.badge
                == badge
        }),
{
}

/// A lesser copy of a handle takes one that may be attenuated and is no reply; it leads to
/// the same object under the same badge and has no right that the first has not.
pub proof fn law_attenuate_takes_authority(t: Table, src: Handle, rights: u32)
    requires
        t.len() == 64,
    ensures
        ({
            let e = t[src as int]->0;
            let r = caps::attenuated(t, src, rights);
            &&& r is Ok <==> {
                &&& 1 <= src < 64 && t[src as int] is Some
                &&& !(e.obj is Reply)
                &&& e.rights & 8 != 0
                &&& e.rights & rights == rights
            }
            &&& r is Ok ==> r->Ok_0.obj == e.obj && r->Ok_0.rights == rights && r->Ok_0.badge
                == e.badge
        }),
{
}

/// The kind that a program is told of a capability.
pub proof fn law_capability_kinds(e: HandleEntry, x: SysError)
    ensures
        e.obj is Channel ==> caps::cap_kind(Ok(e)) == 1,
        e.obj is Shm ==> caps::cap_kind(Ok(e)) == 2,
        !(e.obj is Channel) && !(e.obj is Shm) ==> caps::cap_kind(Ok(e)) == 0,
        caps::cap_kind(Err(x)) == 0,
{
}

/// A capability that a process is given stands, under the lowest free handle, which the
/// process is told; with no handle free nothing is given. Nothing else of any process
/// changes.
pub proof fn law_given_capability_is_held(
    a: Kernel,
    b: Kernel,
    me: int,
    e: HandleEntry,
    r: SyscallRet,
)
    requires
        a.wf(),
        0 <= me < 32,
        syscall::given(a, b, me, e, r),
    ensures
        r.rax == 0 <==> exists|h: int| 1 <= h < 64 && (#[trigger] a.procs.v@[me].handles@[h]) is None,
        r.rax != 0 ==> b == a && r.rax == 6,
        r.rax == 0 ==> {
            &&& 1 <= r.rdx < 64
            &&& a.procs.v@[me].handles@[r.rdx as int] is None
            &&& b.procs.v@[me].handles@[r.rdx as int] == Some(e)
            &&& forall|h: int|
                0 <= h < 64 && h != r.rdx ==> b.procs.v@[me].handles@[h]
                    == a.procs.v@[me].handles@[h]
            &&& forall|p: int| 0 <= p < 32 && p != me ==> b.procs.v@[p] == a.procs.v@[p]
            &&& b.procs.v@[me].state == a.procs.v@[me].state
            &&& b.procs.v@[me].pledge == a.procs.v@[me].pledge
            &&& b.ipc == a.ipc && b.mems == a.mems && b.pmm == a.pmm && b.sched == a.sched
        },
{
    let t = a.procs.v@[me].handles@;
    proc::lemma_empty_from(t, 1);
    if !proc::full(t) {
        let h = proc::next_slot(t);
        assert(t[h] is None);
        assert(proc::same_but_handles(a.procs.v@[me], b.procs.v@[me]));
    }
}

/// A handle to a shared region is counted on that region when it is given; no other handle
/// counts on any.
pub proof fn law_only_regions_are_counted(regions: Seq<crate::shm::Region>, e: HandleEntry)
    ensures
        !(e.obj is Shm) ==> ipc::handle_noted(regions, e) == regions,
        e.obj matches ObjectRef::Shm(i) && i < regions.len() ==> ipc::handle_noted(
            regions,
            e,
        )[e.obj->Shm_0 as int] == crate::shm::referenced(regions[e.obj->Shm_0 as int]),
        e.obj matches ObjectRef::Shm(i) && i < regions.len() ==> forall|j: int|
            0 <= j < regions.len() && j != e.obj->Shm_0 ==> ipc::handle_noted(regions, e)[j]
                == regions[j],
{
}

/// The calls by number.
pub proof fn law_call_numbers()
    ensures
        dispatch::call_numbered(0) == Call::Send,
        dispatch::call_numbered(1) == Call::Recv,
        dispatch::call_numbered(2) == Call::Call,
        dispatch::call_numbered(3) == Call::Reply,
        dispatch::call_numbered(4) == Call::Attenuate,
        dispatch::call_numbered(5) == Call::Close,
        dispatch::call_numbered(6) == Call::ConsoleWrite,
        dispatch::call_numbered(7) == Call::Exit,
        dispatch::call_numbered(8) == Call::MapMemory,
        dispatch::call_numbered(9) == Call::FrameAlloc,
        dispatch::call_numbered(10) == Call::FrameMap,
        dispatch::call_numbered(11) == Call::NotifCreate,
        dispatch::call_numbered(12) == Call::NotifSignal,
        dispatch::call_numbered(13) == Call::NotifWait,
        dispatch::call_numbered(14) == Call::IoIn,
        dispatch::call_numbered(15) == Call::IoOut,
        dispatch::call_numbered(16) == Call::IrqBind,
        dispatch::call_numbered(17) == Call::IrqAck,
        dispatch::call_numbered(18) == Call::Spawn,
        dispatch::call_numbered(19) == Call::EpCreate,
        dispatch::call_numbered(20) == Call::Mint,
        dispatch::call_numbered(21) == Call::PciRead,
        dispatch::call_numbered(22) == Call::PciWrite,
        dispatch::call_numbered(23) == Call::PciBarMap,
        dispatch::call_numbered(24) == Call::DmaAlloc,
        dispatch::call_numbered(25) == Call::UptimeMs,
        dispatch::call_numbered(26) == Call::Protect,
        dispatch::call_numbered(27) == Call::SpawnBytes,
        dispatch::call_numbered(28) == Call::GetEntropy,
        dispatch::call_numbered(29) == Call::Pledge,
        dispatch::call_numbered(30) == Call::Immutable,
        dispatch::call_numbered(31) == Call::Pipe,
        dispatch::call_numbered(32) == Call::PipeRead,
        dispatch::call_numbered(33) == Call::PipeWrite,
        dispatch::call_numbered(34) == Call::PipeEof,
        dispatch::call_numbered(35) == Call::FbInfo,
        dispatch::call_numbered(36) == Call::FbMap,
        dispatch::call_numbered(37) == Call::ChannelPair,
        dispatch::call_numbered(38) == Call::ChannelSend,
        dispatch::call_numbered(39) == Call::ChannelRecv,
        dispatch::call_numbered(40) == Call::ChannelClose,
        dispatch::call_numbered(41) == Call::ChannelPoll,
        dispatch::call_numbered(42) == Call::ShmCreate,
        dispatch::call_numbered(43) == Call::ShmMap,
        dispatch::call_numbered(44) == Call::CapType,
        forall|nr: u64| nr > 44 ==> dispatch::call_numbered(nr) == Call::Nosys,
{
}

/// The promise that a call takes, by the call's number; 0 for a call that takes none.
pub open spec fn promise(nr: u64) -> u64 {
    if nr == 6 || nr == 25 || nr == 28 {
        1
    } else if nr <= 3 || nr == 19 || nr == 20 || 31 <= nr <= 34 || 37 <= nr <= 41 || nr == 44 {
        2
    } else if 8 <= nr <= 10 || nr == 24 || nr == 26 || nr == 30 || nr == 42 || nr == 43 {
        4
    } else if nr == 18 || nr == 27 {
        8
    } else if nr == 4 {
        0x10
    } else if 14 <= nr <= 17 || 21 <= nr <= 23 || nr == 35 || nr == 36 {
        0x20
    } else if 11 <= nr <= 13 {
        0x40
    } else {
        0
    }
}

/// A process may make just the calls it promised to need, and those that take no promise.
pub proof fn law_pledge_admits_promised_calls(pledge: u64, nr: u64)
    ensures
        dispatch::breaks_pledge(pledge, nr) <==> promise(nr) != 0 && pledge & promise(nr)
            != promise(nr),
{
}

} // verus!
