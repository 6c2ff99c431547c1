//! The kernel's binary interface: syscall numbers, rights bits, error codes, the
//! message layout and the inherited identity record.
use vstd::prelude::*;
use vstd::slice::slice_subrange;
use crate::bytes;
use crate::bytes::{copy_field, nul_len};

verus! {

/// Revision of the interface.
pub const ABI_VERSION: u32 = 0;

/// An index into the calling process's private handle table.
pub type Handle = u32;

/// The reserved invalid handle: slot 0 is never occupied.
pub const HANDLE_NULL: Handle = 0;

/// Slots in a process's handle table.
pub const HANDLE_TABLE_SIZE: usize = 64;

/// Payload words in a message.
pub const MSG_DATA_WORDS: usize = 8;

/// Handle slots in a message.
pub const MSG_HANDLES: usize = 4;

// Rights bits: the low half is generic, the high half object-specific.
pub const R_SEND: u32 = 0x1;
pub const R_RECV: u32 = 0x2;
pub const R_GRANT: u32 = 0x4;
pub const R_ATTENUATE: u32 = 0x8;
pub const R_WRITE: u32 = 0x10000;
pub const R_MAP: u32 = 0x20000;
pub const R_IN: u32 = 0x40000;
pub const R_OUT: u32 = 0x80000;
pub const R_BIND: u32 = 0x100000;
pub const R_ACK: u32 = 0x200000;
pub const R_SPAWN: u32 = 0x400000;
pub const R_SIGNAL: u32 = R_SEND;
pub const R_WAIT: u32 = R_RECV;

/// The rights that a new object comes with: of an endpoint or a notification, of a pipe, of
/// a frame, of a process's own budget, and of its console.
pub proof fn lemma_made_rights()
    ensures
        R_SEND | R_RECV | R_GRANT | R_ATTENUATE == 0xf,
        R_IN | R_OUT | R_GRANT | R_ATTENUATE == 0xc000c,
        R_MAP | R_WRITE | R_GRANT | R_ATTENUATE == 0x3000c,
        R_MAP | R_GRANT | R_ATTENUATE == 0x2000c,
        R_WRITE | R_ATTENUATE | R_GRANT == 0x1000c,
{
    assert(0x1u32 | 0x2 | 0x4 | 0x8 == 0xf && 0x40000u32 | 0x80000 | 0x4 | 0x8 == 0xc000c && 0x20000u32
        | 0x10000 | 0x4 | 0x8 == 0x3000c && 0x20000u32 | 0x4 | 0x8 == 0x2000c && 0x10000u32 | 0x8 | 0x4
        == 0x1000c) by (bit_vector);
}

// Page protection bits.
pub const PROT_READ: u64 = 1;
pub const PROT_WRITE: u64 = 2; // implies read
pub const PROT_EXEC: u64 = 4; // read + execute (never combined with WRITE)

// Syscall numbers.
pub const SYS_SEND: u64 = 0;
pub const SYS_RECV: u64 = 1;
pub const SYS_CALL: u64 = 2;
pub const SYS_REPLY: u64 = 3;
pub const SYS_ATTENUATE: u64 = 4;
pub const SYS_CLOSE: u64 = 5;
pub const SYS_CONSOLE_WRITE: u64 = 6;
pub const SYS_EXIT: u64 = 7;
pub const SYS_MAP: u64 = 8; // sys_map(mem, vaddr, len, prot)
pub const SYS_FRAME_ALLOC: u64 = 9; // sys_frame_alloc(mem) -> Frame handle
pub const SYS_FRAME_MAP: u64 = 10; // sys_frame_map(frame, vaddr, prot)
pub const SYS_NOTIF_CREATE: u64 = 11; // () -> Notification handle
pub const SYS_NOTIF_SIGNAL: u64 = 12; // (notif)          needs R_SIGNAL
pub const SYS_NOTIF_WAIT: u64 = 13; // (notif) -> count   needs R_WAIT
pub const SYS_IO_IN: u64 = 14; // (ioport, port) -> byte  needs R_IN
pub const SYS_IO_OUT: u64 = 15; // (ioport, port, value)  needs R_OUT
pub const SYS_IRQ_BIND: u64 = 16; // (irq, notif)          needs R_BIND + R_SIGNAL
pub const SYS_IRQ_ACK: u64 = 17; // (irq)                  needs R_ACK
pub const SYS_SPAWN: u64 = 18; // (image, mem, &MsgBuf, exit_notif) -> pid
pub const SYS_EP_CREATE: u64 = 19; // () -> fresh Endpoint handle
pub const SYS_MINT: u64 = 20; // (ep, badge, new_rights) -> badged Endpoint handle
pub const SYS_PCI_READ: u64 = 21; // (pcidev, offset) -> u32   needs R_IN
pub const SYS_PCI_WRITE: u64 = 22; // (pcidev, offset, value)  needs R_OUT
pub const SYS_PCI_BAR_MAP: u64 = 23; // (pcidev, bar, vaddr)   needs R_MAP; maps BAR MMIO
pub const SYS_DMA_ALLOC: u64 = 24; // (mem, vaddr) -> phys      needs R_MAP
pub const SYS_UPTIME_MS: u64 = 25; // () -> u64 ms
pub const SYS_PROTECT: u64 = 26; // (mem, vaddr, len, prot)
pub const SYS_SPAWN_BYTES: u64 = 27; // (buf, len, mem, &MsgBuf, exit_notif) -> pid
pub const SYS_GETENTROPY: u64 = 28; // (buf, len) -> 0 / E_MSG (len>256) / E_FAULT
pub const SYS_PLEDGE: u64 = 29; // (promises) -> 0
pub const SYS_IMMUTABLE: u64 = 30; // (mem, vaddr, len) -> 0 / E_NOMEM (table full)
pub const SYS_PIPE: u64 = 31; // () -> pipe handle (R_IN|R_OUT|R_GRANT|R_ATTENUATE)
pub const SYS_PIPE_READ: u64 = 32; // (pipe, buf, len) -> count (0 = EOF). Needs R_IN
pub const SYS_PIPE_WRITE: u64 = 33; // (pipe, buf, len) -> count. Needs R_OUT
pub const SYS_PIPE_EOF: u64 = 34; // (pipe) -> 0. Mark the write side closed (R_OUT)
pub const SYS_FB_INFO: u64 = 35; // (fb) -> packed geometry (R_MAP). See fb server.
pub const SYS_FB_MAP: u64 = 36; // (fb, vaddr) -> 0. Map the framebuffer RW (R_MAP)
pub const SYS_CHANNEL_PAIR: u64 = 37; // () -> rdx = h0 | h1<<32 (two channel ends)
pub const SYS_CHANNEL_SEND: u64 = 38; // (h, buf, len, caps_ptr, ncaps) -> rdx = nbytes
pub const SYS_CHANNEL_RECV: u64 = 39; // (h, buf, len, caps_out, ncaps_max|flags<<32)
pub const SYS_CHANNEL_CLOSE: u64 = 40; // (h) -> 0. Close this end; peer sees EOF.
pub const SYS_CHANNEL_POLL: u64 = 41; // (h) -> rdx readiness: 1=readable 2=eof 4=writable
pub const SYS_SHM_CREATE: u64 = 42; // (mem, pages) -> Shm handle (R_MAP|R_WRITE|R_GRANT)
pub const SYS_SHM_MAP: u64 = 43; // (shm, vaddr) -> size. Map all pages RW at vaddr.
pub const SYS_CAP_TYPE: u64 = 44; // (h) -> rdx cap kind (CAP_* below). For fd-passing.
pub const SYS_CAP_DUP: u64 = 45; // (h) -> a fresh handle to the SAME object (same rights)

// Promise classes a process may restrict itself to.
pub const PLEDGE_STDIO: u64 = 0x1; // console_write, getentropy, uptime
pub const PLEDGE_IPC: u64 = 0x2; // send, recv, call, reply, ep_create, mint
pub const PLEDGE_MEM: u64 = 0x4; // map, protect, frame_alloc/map, dma_alloc
pub const PLEDGE_SPAWN: u64 = 0x8; // spawn, spawn_bytes
pub const PLEDGE_CAP: u64 = 0x10; // attenuate
pub const PLEDGE_IO: u64 = 0x20; // io_in/out, pci_*, irq_*
pub const PLEDGE_NOTIF: u64 = 0x40; // notif_create/signal/wait

// Capability kinds reported to user space, and channel flags.
pub const CAP_OTHER: u64 = 0;
pub const CAP_CHANNEL: u64 = 1;
pub const CAP_SHM: u64 = 2;
pub const CHAN_NONBLOCK: u64 = 1;

// Boot-time handle slots.
pub const BOOT_EP: Handle = 1;
pub const BOOT_CONSOLE: Handle = 2;
pub const BOOT_MEM: Handle = 3;
pub const BOOT_TICK: Handle = 4;
pub const BOOT_IRQ: Handle = 4; // IrqLine(1) - R_BIND|R_ACK
pub const BOOT_KBD_DATA: Handle = 5; // IoPort{0x60,1}
pub const BOOT_KBD_STATUS: Handle = 6; // IoPort{0x64,1}
pub const BOOT_TTY: Handle = 7;
pub const BOOT_SERIAL_IRQ: Handle = 4; // IrqLine(4) - R_BIND|R_ACK
pub const BOOT_SERIAL_RBR: Handle = 5; // IoPort{0x3F8,1} - R_IN (RBR, read side)
pub const BOOT_SERIAL_LSR: Handle = 6; // IoPort{0x3FD,1} - R_IN (line status)
pub const BOOT_IMG_HELLO: Handle = 8;
pub const BOOT_IMG_PONG: Handle = 9;
pub const BOOT_IMG_BETA: Handle = 10;
pub const BOOT_IMG_BADGE: Handle = 11; // badged-endpoint demo server
pub const BOOT_IMG_CAT: Handle = 13; // spawned coreutil: cat (gets a file cap)
pub const BOOT_IMG_LS: Handle = 14; // spawned coreutil: ls (gets a dir cap)
pub const BOOT_IMG_MKDIR: Handle = 15; // spawned coreutil: mkdir (dir cap + argv)
pub const BOOT_IMG_TOUCH: Handle = 16; // spawned coreutil: touch (dir cap + argv)
pub const BOOT_IMG_RM: Handle = 17; // spawned coreutil: rm (dir cap + argv)
pub const BOOT_IMG_MV: Handle = 18; // spawned coreutil: mv (dir cap + argv)
pub const BOOT_IMG_CP: Handle = 19; // spawned coreutil: cp (dir cap + argv)
pub const BOOT_PCI: Handle = 8;
pub const BOOT_NET_IRQ: Handle = 9;
pub const BOOT_BLK_EP: Handle = 28;
pub const BOOT_FS_ROOT: Handle = 12;
pub const BOOT_NET_EP: Handle = 20;
pub const BOOT_IMG_DRIFT: Handle = 21;
pub const BOOT_IMG_CCHELLO: Handle = 22;
pub const BOOT_IMG_TCC: Handle = 23;
pub const BOOT_IMG_LUA: Handle = 24; // the Lua 5.4 interpreter
pub const BOOT_IMG_UPY: Handle = 25; // the MicroPython interpreter
pub const BOOT_IMG_QJS: Handle = 26; // the QuickJS JavaScript engine
pub const BOOT_IMG_CURL: Handle = 27; // curl (HTTP, no TLS)
pub const BOOT_IMG_JAIL: Handle = 29; // jail - the capability-confinement showcase
pub const BOOT_IMG_FSTEST: Handle = 30; // fstest - lwext4/ext2
pub const BOOT_IMG_CARES: Handle = 31; // cares-test - c-ares DNS resolver
pub const BOOT_IMG_FFI: Handle = 33; // ffi-test - libffi (x86_64 SysV)
pub const BOOT_IMG_WL: Handle = 34; // wl-test - libwayland wire-core
pub const BOOT_IMG_WLCLIENT: Handle = 35; // wlclient - the compositor's Wayland client
pub const BOOT_IMG_XKB: Handle = 37; // xkb-test - libxkbcommon keymap/keysym (36 = BOOT_INPUT_CHAN)
pub const BOOT_IMG_VTERM: Handle = 38; // vterm-test - libvterm terminal state machine
pub const BOOT_IMG_FT: Handle = 39; // ft-test - FreeType glyph rasterizer
pub const BOOT_IMG_OXTERM: Handle = 40; // oxterm - the Wayland terminal client
pub const BOOT_FB: Handle = 32;
pub const BOOT_INPUT_CHAN: Handle = 36;
pub const BOOT_TERM_CHAN: Handle = 41;

// Fixed user addresses for device windows, shared buffers and the initial disk.
pub const NET_MMIO: u64 = 0x4000_0000;
pub const NET_DMA: u64 = 0x4010_0000;
pub const BLK_MMIO: u64 = 0x4020_0000;
pub const BLK_DMA: u64 = 0x4030_0000;
pub const BLK_CHUNK: usize = 40;
pub const BLK_XFER_SECTORS: u64 = 8;
pub const BLK_SHARED: u64 = 0x4040_0000;
pub const FS_INITRD: u64 = 0x1000_0000;
pub const FB_MMIO: u64 = 0x5000_0000;
pub const NET_CTL: u64 = 0x00C0_FFEE;
pub const NET_SHARED: u64 = 0x4050_0000;

// File-system node kinds and the root badge.
pub const FS_ROOT: u64 = 1;
pub const FS_DIR: u64 = 1;
pub const FS_FILE: u64 = 2;

// Message tags: four ASCII letters, little endian.
pub const TAG_BLK_READ: u64 = 0x44524B42; // "BKRD"
pub const TAG_BLK_WRITE: u64 = 0x52574B42; // "BKWR"
pub const TAG_BLK_FLUSH: u64 = 0x4C464B42; // "BKFL"
pub const TAG_BLK_ATTACH: u64 = 0x54414B42; // "BKAT"
pub const TAG_BLK_READN: u64 = 0x4E524B42; // "BKRN"
pub const TAG_BLK_WRITEN: u64 = 0x4E574B42; // "BKWN"
pub const TAG_FS_OPEN: u64 = 0x504F5346; // "FSOP"
pub const TAG_FS_READ: u64 = 0x44525346; // "FSRD"
pub const TAG_FS_READDIR: u64 = 0x52445346; // "FSDR"
pub const TAG_FS_CREATE: u64 = 0x52435346; // "FSCR"
pub const TAG_FS_WRITE: u64 = 0x52575346; // "FSWR"
pub const TAG_FS_MKDIR: u64 = 0x444D5346; // "FSMD"
pub const TAG_FS_UNLINK: u64 = 0x4D525346; // "FSRM"
pub const TAG_FS_RENAME: u64 = 0x564D5346; // "FSMV"
pub const TAG_FS_SYNC: u64 = 0x59535346; // "FSSY"
pub const TAG_NET_DNS: u64 = 0x534E444E; // "NDNS"
pub const TAG_UDP_BIND: u64 = 0x444E4255; // "UBND"
pub const TAG_UDP_SENDTO: u64 = 0x444E5355; // "USND"
pub const TAG_UDP_RECVFROM: u64 = 0x56435255; // "URCV"
pub const TAG_TCP_CONNECT: u64 = 0x4E4F4354; // "TCON"
pub const TAG_TCP_SEND: u64 = 0x444E5354; // "TSND"
pub const TAG_TCP_RECV: u64 = 0x56435254; // "TRCV"
pub const TAG_TCP_CLOSE: u64 = 0x4F4C4354; // "TCLO"
pub const TAG_UDP_ATTACH: u64 = 0x54544155; // "UATT"
pub const TAG_UDP_SENDV: u64 = 0x564E5355; // "USNV"
pub const TAG_UDP_RECVV: u64 = 0x42565255; // "URVB"
pub const TAG_UDP_CLOSE: u64 = 0x4F4C4355; // "UCLO"
pub const TAG_PING: u64 = 0x474E4950;
pub const TAG_PONG: u64 = 0x474E4F50;
pub const TAG_SHMEM: u64 = 0x4D4D4853;
pub const TAG_NOTIF: u64 = 0x5946544E;
pub const TAG_TTY_CHAR: u64 = 0x52414843; // "CHAR"
pub const TAG_TTY_READ: u64 = 0x44414552; // "READ"
pub const TAG_TTY_LINE: u64 = 0x454E494C; // "LINE"
pub const TAG_TTY_WRITE: u64 = 0x54495257; // "WRIT"

/// A spawned program's standard output endpoint.
pub const SPAWN_STDOUT: Handle = 2;
/// Child memory budget when the spawn message asks for none.
pub const SPAWN_DEFAULT_BUDGET: u64 = 262144;
/// User address of a spawned program's argument page.
pub const SPAWN_ARGV: u64 = 0x0F00_0000;
/// User address of a spawned program's identity page.
pub const SPAWN_IDENT: u64 = 0x0F00_1000;
/// Child slots that receive the handles of a spawn message, in order.
pub const SPAWN_SLOTS: [Handle; 4] = [1, 2, 4, BOOT_NET_EP];

/// Bytes of the login name, home path and group list of an [`IdentRec`].
pub const IDENT_NAME_MAX: usize = 32;
pub const IDENT_HOME_MAX: usize = 128;
pub const IDENT_GROUPS_MAX: usize = 16;

/// Second result of a combined wait that a notification ended; no handle has this bit.
pub const RECV_NOTIF_FIRED: u64 = 0x1_0000_0000;

/// What a failed syscall reports.
#[derive(Clone, Copy, Debug, PartialEq, Eq, Structural)]
pub enum SysError {
    /// Index out of range, or the slot is empty.
    BadHandle,
    /// The object is not of the type the call expects.
    BadType,
    /// A required right is missing, or rights would be amplified.
    Rights,
    /// Bad user pointer.
    Fault,
    /// A message or length limit is exceeded.
    Msg,
    /// A handle table is full.
    NoSlots,
    /// A kernel pool or a memory budget is exhausted.
    NoMem,
    /// The peer or object went away, or a reply was abandoned.
    Gone,
    /// A non-blocking call found nothing to do.
    WouldBlock,
    /// Unknown syscall number.
    Nosys,
}

pub type SysResult<T = ()> = Result<T, SysError>;

/// The register value that stands for `e`.
pub open spec fn error_code(e: SysError) -> u64 {
    match e {
        SysError::BadHandle => 1,
        SysError::BadType => 2,
        SysError::Rights => 3,
        SysError::Fault => 4,
        SysError::Msg => 5,
        SysError::NoSlots => 6,
        SysError::NoMem => 7,
        SysError::Gone => 8,
        SysError::WouldBlock => 9,
        SysError::Nosys => 10,
    }
}

/// The outcome a raw register value stands for.
pub open spec fn decode_raw(rax: u64) -> SysResult {
    if rax == 0 {
        Ok(())
    } else if rax == 1 {
        Err(SysError::BadHandle)
    } else if rax == 2 {
        Err(SysError::BadType)
    } else if rax == 3 {
        Err(SysError::Rights)
    } else if rax == 4 {
        Err(SysError::Fault)
    } else if rax == 5 {
        Err(SysError::Msg)
    } else if rax == 6 {
        Err(SysError::NoSlots)
    } else if rax == 7 {
        Err(SysError::NoMem)
    } else if rax == 8 {
        Err(SysError::Gone)
    } else if rax == 9 {
        Err(SysError::WouldBlock)
    } else {
        Err(SysError::Nosys)
    }
}

impl SysError {
    /// Decode a raw result register: 0 is success, an unknown value is `Nosys`.
    pub fn from_raw(rax: u64) -> (r: SysResult)
        ensures
            r == decode_raw(rax),
    {
        match rax {
            0 => Ok(()),
            1 => Err(SysError::BadHandle),
            2 => Err(SysError::BadType),
            3 => Err(SysError::Rights),
            4 => Err(SysError::Fault),
            5 => Err(SysError::Msg),
            6 => Err(SysError::NoSlots),
            7 => Err(SysError::NoMem),
            8 => Err(SysError::Gone),
            9 => Err(SysError::WouldBlock),
            _ => Err(SysError::Nosys),
        }
    }

    /// The register value of this error.
    pub fn code(self) -> (c: u64)
        ensures
            c == error_code(self),
    {
        match self {
            SysError::BadHandle => 1,
            SysError::BadType => 2,
            SysError::Rights => 3,
            SysError::Fault => 4,
            SysError::Msg => 5,
            SysError::NoSlots => 6,
            SysError::NoMem => 7,
            SysError::Gone => 8,
            SysError::WouldBlock => 9,
            SysError::Nosys => 10,
        }
    }
}

/// Every error survives the trip through the result register, and none reads as
/// success.
pub proof fn law_error_round_trip(e: SysError)
    ensures
        error_code(e) != 0,
        decode_raw(error_code(e)) == Err::<(), SysError>(e),
{
}

/// Two errors never share a register value.
pub proof fn law_error_codes_distinct(a: SysError, b: SysError)
    requires
        error_code(a) == error_code(b),
    ensures
        a == b,
{
}

/// An IPC message as user space sees it.
#[derive(Clone, Copy)]
pub struct MsgBuf {
    /// User-defined label; never interpreted by the kernel.
    pub tag: u64,
    /// Valid words in `data`.
    pub data_len: u32,
    /// Valid slots in `handles`.
    pub handle_count: u32,
    /// Inline payload.
    pub data: [u64; MSG_DATA_WORDS],
    /// Handles to transfer, or (on receipt) the fresh indices.
    pub handles: [Handle; MSG_HANDLES],
    /// Badge of the capability the sender invoked; written on delivery.
    pub badge: u64,
}

/// A message as a mathematical value.
#[verifier::ext_equal]
pub struct MsgView {
    pub tag: u64,
    pub data_len: u32,
    pub handle_count: u32,
    pub data: Seq<u64>,
    pub handles: Seq<Handle>,
    pub badge: u64,
}

impl MsgView {
    /// The counts are within the message's limits.
    pub open spec fn within_limits(&self) -> bool {
        self.data_len <= MSG_DATA_WORDS && self.handle_count <= MSG_HANDLES
    }
}

impl MsgBuf {
    pub open spec fn view(&self) -> MsgView {
        MsgView {
            tag: self.tag,
            data_len: self.data_len,
            handle_count: self.handle_count,
            data: self.data@,
            handles: self.handles@,
            badge: self.badge,
        }
    }

    /// An empty message labelled `tag`.
    pub fn new(tag: u64) -> (m: Self)
        ensures
            m.tag == tag,
            m.data_len == 0,
            m.handle_count == 0,
            m.data@ == Seq::new(MSG_DATA_WORDS as nat, |i: int| 0u64),
            m.handles@ == Seq::new(MSG_HANDLES as nat, |i: int| HANDLE_NULL),
            m.badge == 0,
    {
        let m = MsgBuf {
            tag,
            data_len: 0,
            handle_count: 0,
            data: [0u64; MSG_DATA_WORDS],
            handles: [HANDLE_NULL; MSG_HANDLES],
            badge: 0,
        };
        assert(m.data@ =~= Seq::new(MSG_DATA_WORDS as nat, |i: int| 0u64));
        assert(m.handles@ =~= Seq::new(MSG_HANDLES as nat, |i: int| HANDLE_NULL));
        m
    }
}

/// The inherited identity of a process. It describes and grants nothing.
#[derive(Clone, Copy)]
pub struct IdentRec {
    pub uid: u32,
    pub gid: u32,
    /// Valid entries in `groups`.
    pub ngroups: u32,
    pub groups: [u32; IDENT_GROUPS_MAX],
    /// Login name, NUL-padded.
    pub name: [u8; IDENT_NAME_MAX],
    /// Home directory path, NUL-padded.
    pub home: [u8; IDENT_HOME_MAX],
}

impl IdentRec {
    /// The groups in use.
    pub open spec fn group_list(&self) -> Seq<u32> {
        self.groups@.subrange(0, self.ngroups as int)
    }

    /// Every place past the groups in use is zero.
    pub open spec fn clear_past_groups(&self) -> bool {
        forall|i: int|
            self.ngroups <= i < IDENT_GROUPS_MAX ==> #[trigger] self.groups@[i] == 0
    }

    /// The all-zero record, which reads as the superuser.
    pub fn zeroed() -> (r: Self)
        ensures
            r.uid == 0,
            r.gid == 0,
            r.ngroups == 0,
            r.groups@ == Seq::new(IDENT_GROUPS_MAX as nat, |i: int| 0u32),
            r.clear_past_groups(),
            r.name@ == bytes::padded(Seq::empty(), IDENT_NAME_MAX as nat),
            r.home@ == bytes::padded(Seq::empty(), IDENT_HOME_MAX as nat),
    {
        let r = IdentRec {
            uid: 0,
            gid: 0,
            ngroups: 0,
            groups: [0u32; IDENT_GROUPS_MAX],
            name: [0u8; IDENT_NAME_MAX],
            home: [0u8; IDENT_HOME_MAX],
        };
        assert(r.groups@ =~= Seq::new(IDENT_GROUPS_MAX as nat, |i: int| 0u32));
        assert(r.name@ =~= bytes::padded(Seq::empty(), IDENT_NAME_MAX as nat));
        assert(r.home@ =~= bytes::padded(Seq::empty(), IDENT_HOME_MAX as nat));
        r
    }

    /// Build a record; an over-long name or home is cut to its field.
    pub fn new(uid: u32, gid: u32, name: &[u8], home: &[u8]) -> (r: Self)
        ensures
            r.uid == uid,
            r.gid == gid,
            r.ngroups == 0,
            r.groups@ == Seq::new(IDENT_GROUPS_MAX as nat, |i: int| 0u32),
            r.clear_past_groups(),
            r.name@ == bytes::padded(name@, IDENT_NAME_MAX as nat),
            r.home@ == bytes::padded(home@, IDENT_HOME_MAX as nat),
    {
        let mut r = Self::zeroed();
        r.uid = uid;
        r.gid = gid;
        r.set_name(name);
        r.set_home(home);
        r
    }

    /// Replace the login name.
    pub fn set_name(&mut self, s: &[u8])
        ensures
            *final(self) == (IdentRec { name: final(self).name, ..*old(self) }),
            final(self).name@ == bytes::padded(s@, IDENT_NAME_MAX as nat),
    {
        copy_field(&mut self.name, s);
    }

    /// Replace the home path.
    pub fn set_home(&mut self, s: &[u8])
        ensures
            *final(self) == (IdentRec { home: final(self).home, ..*old(self) }),
            final(self).home@ == bytes::padded(s@, IDENT_HOME_MAX as nat),
    {
        copy_field(&mut self.home, s);
    }

    /// Append a supplementary group; ignored once the list is full.
    pub fn add_group(&mut self, gid: u32)
        ensures
            old(self).ngroups >= IDENT_GROUPS_MAX ==> *final(self) == *old(self),
            old(self).ngroups < IDENT_GROUPS_MAX ==> {
                &&& *final(self) == (IdentRec {
                    ngroups: final(self).ngroups,
                    groups: final(self).groups,
                    ..*old(self)
                })
                &&& final(self).ngroups == old(self).ngroups + 1
                &&& final(self).groups@ == old(self).groups@.update(
                    old(self).ngroups as int,
                    gid,
                )
                &&& final(self).group_list() == old(self).group_list().push(gid)
            },
            old(self).clear_past_groups() ==> final(self).clear_past_groups(),
    {
        let n: usize = self.ngroups as usize;
        if n < IDENT_GROUPS_MAX {
            self.groups[n] = gid;
            self.ngroups += 1;
            assert(self.group_list() =~= old(self).group_list().push(gid));
        }
    }

    /// The login name, trimmed at the first NUL.
    pub fn name_bytes(&self) -> (s: &[u8])
        ensures
            s@ == bytes::until_nul(self.name@),
    {
        let n: usize = nul_len(self.name.as_slice());
        slice_subrange(self.name.as_slice(), 0, n)
    }

    /// The home path, trimmed at the first NUL.
    pub fn home_bytes(&self) -> (s: &[u8])
        ensures
            s@ == bytes::until_nul(self.home@),
    {
        let n: usize = nul_len(self.home.as_slice());
        slice_subrange(self.home.as_slice(), 0, n)
    }
}

} // verus!
