//! Booting: what each program the bootloader brought is, and what it is given.
use vstd::prelude::*;
use vstd::string::*;
use crate::abi::{
    BOOT_BLK_EP, BOOT_MEM, BOOT_CONSOLE, BOOT_EP, BOOT_FB, BOOT_FS_ROOT, BOOT_IMG_BADGE, BOOT_IMG_BETA,
    BOOT_IMG_CARES, BOOT_IMG_CAT, BOOT_IMG_CCHELLO, BOOT_IMG_CP, BOOT_IMG_CURL, BOOT_IMG_DRIFT,
    BOOT_IMG_FFI, BOOT_IMG_FSTEST, BOOT_IMG_FT, BOOT_IMG_HELLO, BOOT_IMG_JAIL, BOOT_IMG_LS,
    BOOT_IMG_LUA, BOOT_IMG_MKDIR, BOOT_IMG_MV, BOOT_IMG_OXTERM, BOOT_IMG_PONG, BOOT_IMG_QJS,
    BOOT_IMG_RM, BOOT_IMG_TCC, BOOT_IMG_TOUCH, BOOT_IMG_UPY, BOOT_IMG_VTERM, BOOT_IMG_WL,
    BOOT_IMG_WLCLIENT, BOOT_IMG_XKB, BOOT_INPUT_CHAN, BOOT_IRQ, BOOT_KBD_DATA, BOOT_KBD_STATUS,
    BOOT_NET_EP, BOOT_NET_IRQ, BOOT_PCI, BOOT_SERIAL_IRQ, BOOT_SERIAL_LSR, BOOT_SERIAL_RBR,
    BOOT_TERM_CHAN, BOOT_TICK, BOOT_TTY, FS_INITRD, FS_ROOT, HANDLE_TABLE_SIZE, Handle, NET_CTL, R_ACK,
    R_ATTENUATE, R_BIND, R_GRANT, R_IN, R_MAP, R_OUT, R_RECV, R_SEND, R_SPAWN, R_WAIT,
};
use crate::channel;
use crate::channel::Conns;
use crate::elf;
use crate::elf::Image;
use crate::image;
use crate::image::Images;
use crate::ipc;
use crate::ipc::{EP1, EP2, EP3, EP4};
use crate::kernel;
use crate::kernel::Kernel;
use crate::load;
use crate::load::LoadResult;
use crate::mm::mem;
use crate::mm::mem::{MemObj, BOOT_BUDGET, MEM_POOL};
use crate::mm::pmm;
use crate::mm::vm::PageMap;
use crate::notif;
use crate::object;
use crate::object::{HandleEntry, ObjectRef};
use crate::proc;
use crate::proc::{PState, Process, Table, MAX_PROCS};
use crate::rng;
use crate::syscall::dev;
use crate::syscall::dev::list_pages;
use crate::thread;
use crate::thread::{KSTACK_SIZE, MAX_THREADS};

verus! {

/// Handles of the mouse line, the mouse channel and the monitor's image.
pub const BOOT_MOUSE_IRQ: Handle = 42;
pub const BOOT_MOUSE_CHAN: Handle = 43;
pub const BOOT_IMG_SYSMON: Handle = 44;

/// Budget of the shell, which pays for every program it starts.
pub const SHELL_BUDGET: u64 = 0x600_0000;

/// Budget of the file server.
pub const FS_BUDGET: u64 = 0x100_0000;

/// Budget of the compositor, which pays for its clients.
pub const COMPOSITOR_BUDGET: u64 = 0x6C0_0000;

/// What a boot module is.
#[derive(Clone, Copy, PartialEq, Eq, Debug, Structural)]
pub enum Module {
    /// The archive of the first file system: no program.
    Initrd,
    /// A program to be registered, and started on demand.
    Image,
    Kbd,
    Tty,
    Shell,
    Fs,
    Serial,
    Net,
    Blk,
    Fb,
    Compositor,
    /// Any other program.
    Other,
}

/// The bytes of a name.
pub open spec fn name_bytes(name: Seq<char>) -> Seq<u8> {
    Seq::new(name.len(), |i: int| name[i] as u8)
}

/// The bytes of a name.
fn to_bytes(name: &str) -> (v: Vec<u8>)
    ensures
        v@ == name_bytes(name@),
{
    let n: usize = name.unicode_len();
    let mut v: Vec<u8> = Vec::new();
    let mut i: usize = 0;
    while i < n
        invariant
            i <= n,
            n == name@.len(),
            v@ =~= name_bytes(name@).subrange(0, i as int),
        decreases n - i,
    {
        let c: char = name.get_char(i);
        v.push(c as u8);
        i += 1;
    }
    assert(v@ =~= name_bytes(name@));
    v
}

/// Whether `cmd` is the name `name`.
fn spells(cmd: &[u8], name: &str) -> (b: bool)
    ensures
        b == (cmd@ == name_bytes(name@)),
{
    let want = to_bytes(name);
    if cmd.len() != want.len() {
        return false;
    }
    let mut i: usize = 0;
    while i < want.len()
        invariant
            i <= want@.len(),
            want@.len() == cmd@.len(),
            want@ == name_bytes(name@),
            forall|k: int| 0 <= k < i ==> cmd@[k] == want@[k],
        decreases want@.len() - i,
    {
        if cmd[i] != want[i] {
            return false;
        }
        i += 1;
    }
    assert(cmd@ =~= want@);
    true
}

/// The programs that are registered as images.
pub open spec fn is_image_name(cmd: Seq<u8>) -> bool {
    ||| cmd == name_bytes("pong"@)
    ||| cmd == name_bytes("beta"@)
    ||| cmd == name_bytes("hello"@)
    ||| cmd == name_bytes("badge"@)
    ||| cmd == name_bytes("cat"@)
    ||| cmd == name_bytes("ls"@)
    ||| cmd == name_bytes("mkdir"@)
    ||| cmd == name_bytes("touch"@)
    ||| cmd == name_bytes("rm"@)
    ||| cmd == name_bytes("mv"@)
    ||| cmd == name_bytes("cp"@)
    ||| cmd == name_bytes("drift"@)
    ||| cmd == name_bytes("cc-hello"@)
    ||| cmd == name_bytes("tcc"@)
    ||| cmd == name_bytes("lua"@)
    ||| cmd == name_bytes("micropython"@)
    ||| cmd == name_bytes("qjs"@)
    ||| cmd == name_bytes("curl"@)
    ||| cmd == name_bytes("cares-test"@)
    ||| cmd == name_bytes("ffi-test"@)
    ||| cmd == name_bytes("wl-test"@)
    ||| cmd == name_bytes("xkb-test"@)
    ||| cmd == name_bytes("vterm-test"@)
    ||| cmd == name_bytes("ft-test"@)
    ||| cmd == name_bytes("wlclient"@)
    ||| cmd == name_bytes("oxterm"@)
    ||| cmd == name_bytes("sysmon"@)
    ||| cmd == name_bytes("jail"@)
    ||| cmd == name_bytes("fstest"@)
}

fn has_image_name(cmd: &[u8]) -> (b: bool)
    ensures
        b == is_image_name(cmd@),
{
    spells(cmd, "pong")
        || spells(cmd, "beta")
        || spells(cmd, "hello")
        || spells(cmd, "badge")
        || spells(cmd, "cat")
        || spells(cmd, "ls")
        || spells(cmd, "mkdir")
        || spells(cmd, "touch")
        || spells(cmd, "rm")
        || spells(cmd, "mv")
        || spells(cmd, "cp")
        || spells(cmd, "drift")
        || spells(cmd, "cc-hello")
        || spells(cmd, "tcc")
        || spells(cmd, "lua")
        || spells(cmd, "micropython")
        || spells(cmd, "qjs")
        || spells(cmd, "curl")
        || spells(cmd, "cares-test")
        || spells(cmd, "ffi-test")
        || spells(cmd, "wl-test")
        || spells(cmd, "xkb-test")
        || spells(cmd, "vterm-test")
        || spells(cmd, "ft-test")
        || spells(cmd, "wlclient")
        || spells(cmd, "oxterm")
        || spells(cmd, "sysmon")
        || spells(cmd, "jail")
        || spells(cmd, "fstest")
}

/// What the module named `cmd` is.
pub open spec fn module_named(cmd: Seq<u8>) -> Module {
    if cmd == name_bytes("initrd"@) {
        Module::Initrd
    } else if is_image_name(cmd) {
        Module::Image
    } else if cmd == name_bytes("kbd"@) {
        Module::Kbd
    } else if cmd == name_bytes("tty"@) {
        Module::Tty
    } else if cmd == name_bytes("shell"@) {
        Module::Shell
    } else if cmd == name_bytes("fs"@) {
        Module::Fs
    } else if cmd == name_bytes("serial"@) {
        Module::Serial
    } else if cmd == name_bytes("net"@) {
        Module::Net
    } else if cmd == name_bytes("blk"@) {
        Module::Blk
    } else if cmd == name_bytes("fb"@) {
        Module::Fb
    } else if cmd == name_bytes("oxcomp"@) {
        Module::Compositor
    } else {
        Module::Other
    }
}

/// What the module named `cmd` is.
pub fn classify(cmd: &[u8]) -> (m: Module)
    ensures
        m == module_named(cmd@),
{
    if spells(cmd, "initrd") {
        Module::Initrd
    } else if has_image_name(cmd) {
        Module::Image
    } else if spells(cmd, "kbd") {
        Module::Kbd
    } else if spells(cmd, "tty") {
        Module::Tty
    } else if spells(cmd, "shell") {
        Module::Shell
    } else if spells(cmd, "fs") {
        Module::Fs
    } else if spells(cmd, "serial") {
        Module::Serial
    } else if spells(cmd, "net") {
        Module::Net
    } else if spells(cmd, "blk") {
        Module::Blk
    } else if spells(cmd, "fb") {
        Module::Fb
    } else if spells(cmd, "oxcomp") {
        Module::Compositor
    } else {
        Module::Other
    }
}

/// The budget a boot program is born with.
pub open spec fn budget_of(m: Module) -> u64 {
    match m {
        Module::Shell => SHELL_BUDGET,
        Module::Fs => FS_BUDGET,
        Module::Compositor => COMPOSITOR_BUDGET,
        _ => BOOT_BUDGET,
    }
}

/// The budget a boot program is born with.
pub fn boot_budget(m: Module) -> (b: u64)
    ensures
        b == budget_of(m),
{
    match m {
        Module::Shell => SHELL_BUDGET,
        Module::Fs => FS_BUDGET,
        Module::Compositor => COMPOSITOR_BUDGET,
        _ => BOOT_BUDGET,
    }
}

/// What the kernel has made and found before programs are started.
#[derive(Clone, Copy)]
pub struct BootContext {
    /// The notification the timer signals.
    pub tick: u8,
    /// Channel from the keyboard driver to the compositor.
    pub input_chan: Option<u8>,
    /// Channel from the terminal to its window.
    pub term_chan: Option<u8>,
    /// Channel of mouse packets to the compositor.
    pub mouse_chan: Option<u8>,
    /// The network controller and its interrupt line.
    pub nic: Option<(u32, u8)>,
    /// The disk.
    pub blk: Option<u32>,
}

impl BootContext {
    /// What the context names exists.
    pub open spec fn wf(&self) -> bool {
        &&& object::names_object(ObjectRef::Notification(self.tick))
        &&& self.input_chan is Some ==> self.input_chan->0 < crate::channel::NCONN
        &&& self.term_chan is Some ==> self.term_chan->0 < crate::channel::NCONN
        &&& self.mouse_chan is Some ==> self.mouse_chan->0 < crate::channel::NCONN
        &&& self.nic is Some ==> (self.nic->0).1 < crate::irq::NLINES
    }
}

/// Make what programs are given in common: the notification that the timer signals, and
/// the channels between drivers, terminal and compositor. Nothing when no notification
/// is left: without a clock the machine cannot boot.
pub fn prepare(k: &mut Kernel, nic: Option<(u32, u8)>, blk: Option<u32>) -> (r: Option<BootContext>)
    requires
        old(k).wf(),
        nic is Some ==> (nic->0).1 < crate::irq::NLINES,
    ensures
        final(k).wf(),
        ({
            let i = notif::free_from(old(k).notifs.pool@, 0);
            match r {
                Some(ctx) => {
                    &&& i < notif::POOL_SIZE
                    &&& ctx.wf()
                    &&& ctx.tick == i
                    &&& ctx.nic == nic
                    &&& ctx.blk == blk
                    &&& final(k).notifs.pool@ == old(k).notifs.pool@.update(i, notif::fresh())
                    &&& final(k).notifs.tick == ctx.tick
                    &&& exists|c1: Conns, c2: Conns|
                        #![trigger channel::creates(c1, c2, ctx.term_chan)]
                        channel::creates(old(k).conns, c1, ctx.input_chan) && channel::creates(
                            c1,
                            c2,
                            ctx.term_chan,
                        ) && channel::creates(c2, final(k).conns, ctx.mouse_chan)
                    &&& *final(k) == (Kernel {
                        notifs: final(k).notifs,
                        conns: final(k).conns,
                        ..*old(k)
                    })
                },
                None => i >= notif::POOL_SIZE && *final(k) == *old(k),
            }
        }),
{
    let tick: u8 = match notif::create(&mut k.notifs) {
        Some(i) => i,
        None => return None,
    };
    notif::arm_tick(&mut k.notifs, tick);
    let input_chan = channel::create(&mut k.conns);
    let ghost c1 = k.conns;
    let term_chan = channel::create(&mut k.conns);
    let ghost c2 = k.conns;
    let mouse_chan = channel::create(&mut k.conns);
    assert(channel::creates(c1, c2, term_chan));
    Some(BootContext { tick, input_chan, term_chan, mouse_chan, nic, blk })
}

/// The pages of the archive of `size` bytes at `phys`, where the file server reads it.
pub fn initrd_pages(phys: u64, size: u64) -> (v: Vec<PageMap>)
    requires
        FS_INITRD + size + 4095 <= u64::MAX,
        phys + size + 4095 <= u64::MAX,
    ensures
        v@ == dev::device_pages(FS_INITRD, phys, size as int),
{
    list_pages(FS_INITRD, phys, size)
}

/// A capability installed at a fixed handle.
#[derive(Clone, Copy, PartialEq, Eq, Debug, Structural)]
pub struct Grant {
    pub slot: Handle,
    pub entry: HandleEntry,
}

/// An unbadged capability at handle `slot`.
pub open spec fn plain(slot: Handle, obj: ObjectRef, rights: u32) -> Grant {
    Grant { slot, entry: HandleEntry { obj, rights, badge: 0 } }
}

fn plain_grant(slot: Handle, obj: ObjectRef, rights: u32) -> (g: Grant)
    ensures
        g == plain(slot, obj, rights),
{
    Grant { slot, entry: HandleEntry { obj, rights, badge: 0 } }
}

/// One side of a channel at handle `slot`, if there is the channel.
pub open spec fn end_at(slot: Handle, chan: Option<u8>, side: u8, rights: u32) -> Seq<Grant> {
    match chan {
        Some(conn) => seq![plain(slot, ObjectRef::Channel { conn, side }, rights)],
        None => Seq::empty(),
    }
}

fn push_end(v: &mut Vec<Grant>, slot: Handle, chan: Option<u8>, side: u8, rights: u32)
    ensures
        final(v)@ == old(v)@ + end_at(slot, chan, side, rights),
{
    if let Some(conn) = chan {
        v.push(plain_grant(slot, ObjectRef::Channel { conn, side }, rights));
    }
    assert(v@ =~= old(v)@ + end_at(slot, chan, side, rights));
}

/// A list of handles and names.
pub open spec fn lists(v: Seq<(Handle, &'static str)>, l: Seq<(Handle, Seq<char>)>) -> bool {
    &&& v.len() == l.len()
    &&& forall|i: int| 0 <= i < v.len() ==> (#[trigger] v[i]).0 == l[i].0 && v[i].1@ == l[i].1
}

/// The images the shell can start, and its handles for them.
pub open spec fn shell_images_list() -> Seq<(Handle, Seq<char>)> {
    seq![
        (BOOT_IMG_HELLO, "hello"@),
        (BOOT_IMG_PONG, "pong"@),
        (BOOT_IMG_BETA, "beta"@),
        (BOOT_IMG_BADGE, "badge"@),
        (BOOT_IMG_CAT, "cat"@),
        (BOOT_IMG_LS, "ls"@),
        (BOOT_IMG_MKDIR, "mkdir"@),
        (BOOT_IMG_TOUCH, "touch"@),
        (BOOT_IMG_RM, "rm"@),
        (BOOT_IMG_MV, "mv"@),
        (BOOT_IMG_CP, "cp"@),
        (BOOT_IMG_DRIFT, "drift"@),
        (BOOT_IMG_CCHELLO, "cc-hello"@),
        (BOOT_IMG_TCC, "tcc"@),
        (BOOT_IMG_LUA, "lua"@),
        (BOOT_IMG_UPY, "micropython"@),
        (BOOT_IMG_QJS, "qjs"@),
        (BOOT_IMG_CURL, "curl"@),
        (BOOT_IMG_JAIL, "jail"@),
        (BOOT_IMG_FSTEST, "fstest"@),
        (BOOT_IMG_CARES, "cares-test"@),
        (BOOT_IMG_FFI, "ffi-test"@),
        (BOOT_IMG_WL, "wl-test"@),
        (BOOT_IMG_XKB, "xkb-test"@),
        (BOOT_IMG_VTERM, "vterm-test"@),
        (BOOT_IMG_FT, "ft-test"@),
    ]
}

/// The images the shell can start, and its handles for them.
fn shell_images() -> (v: Vec<(Handle, &'static str)>)
    ensures
        lists(v@, shell_images_list()),
{
    let mut v: Vec<(Handle, &'static str)> = Vec::new();
    v.push((BOOT_IMG_HELLO, "hello"));
    v.push((BOOT_IMG_PONG, "pong"));
    v.push((BOOT_IMG_BETA, "beta"));
    v.push((BOOT_IMG_BADGE, "badge"));
    v.push((BOOT_IMG_CAT, "cat"));
    v.push((BOOT_IMG_LS, "ls"));
    v.push((BOOT_IMG_MKDIR, "mkdir"));
    v.push((BOOT_IMG_TOUCH, "touch"));
    v.push((BOOT_IMG_RM, "rm"));
    v.push((BOOT_IMG_MV, "mv"));
    v.push((BOOT_IMG_CP, "cp"));
    v.push((BOOT_IMG_DRIFT, "drift"));
    v.push((BOOT_IMG_CCHELLO, "cc-hello"));
    v.push((BOOT_IMG_TCC, "tcc"));
    v.push((BOOT_IMG_LUA, "lua"));
    v.push((BOOT_IMG_UPY, "micropython"));
    v.push((BOOT_IMG_QJS, "qjs"));
    v.push((BOOT_IMG_CURL, "curl"));
    v.push((BOOT_IMG_JAIL, "jail"));
    v.push((BOOT_IMG_FSTEST, "fstest"));
    v.push((BOOT_IMG_CARES, "cares-test"));
    v.push((BOOT_IMG_FFI, "ffi-test"));
    v.push((BOOT_IMG_WL, "wl-test"));
    v.push((BOOT_IMG_XKB, "xkb-test"));
    v.push((BOOT_IMG_VTERM, "vterm-test"));
    v.push((BOOT_IMG_FT, "ft-test"));
    v
}

/// The images the compositor can start, and its handles for them.
pub open spec fn compositor_images_list() -> Seq<(Handle, Seq<char>)> {
    seq![
        (BOOT_IMG_WLCLIENT, "wlclient"@),
        (BOOT_IMG_OXTERM, "oxterm"@),
        (BOOT_IMG_SYSMON, "sysmon"@),
    ]
}

/// The images the compositor can start, and its handles for them.
fn compositor_images() -> (v: Vec<(Handle, &'static str)>)
    ensures
        lists(v@, compositor_images_list()),
{
    let mut v: Vec<(Handle, &'static str)> = Vec::new();
    v.push((BOOT_IMG_WLCLIENT, "wlclient"));
    v.push((BOOT_IMG_OXTERM, "oxterm"));
    v.push((BOOT_IMG_SYSMON, "sysmon"));
    v
}

/// Capabilities to spawn those of the first `n` images listed that are registered.
pub open spec fn image_grants(
    images: Seq<image::ImageEntry>,
    l: Seq<(Handle, Seq<char>)>,
    n: int,
) -> Seq<Grant>
    decreases n,
{
    if n <= 0 {
        Seq::empty()
    } else {
        let rest = image_grants(images, l, n - 1);
        match image::lookup(images, name_bytes(l[n - 1].1)) {
            Some(i) => rest.push(
                plain(l[n - 1].0, ObjectRef::Image(i), R_SPAWN | R_GRANT | R_ATTENUATE),
            ),
            None => rest,
        }
    }
}

fn push_images(
    v: &mut Vec<Grant>,
    images: &Images,
    list: &Vec<(Handle, &'static str)>,
    l: Ghost<Seq<(Handle, Seq<char>)>>,
)
    requires
        images.wf(),
        lists(list@, l@),
    ensures
        final(v)@ == old(v)@ + image_grants(images.v@, l@, l@.len() as int),
{
    let mut i: usize = 0;
    assert(v@ =~= old(v)@ + image_grants(images.v@, l@, 0));
    while i < list.len()
        invariant
            i <= list@.len(),
            images.wf(),
            lists(list@, l@),
            v@ == old(v)@ + image_grants(images.v@, l@, i as int),
        decreases list@.len() - i,
    {
        let (h, name) = list[i];
        assert(list@[i as int].0 == l@[i as int].0);
        let bytes = to_bytes(name);
        if let Some(idx) = image::find(images, bytes.as_slice()) {
            v.push(plain_grant(h, ObjectRef::Image(idx), R_SPAWN | R_GRANT | R_ATTENUATE));
        }
        i += 1;
        assert(v@ =~= old(v)@ + image_grants(images.v@, l@, i as int));
    }
}

/// What a boot program is given beside its budget, in the order it is installed. The
/// kernel is the root of all authority over hardware; here it delegates it.
pub open spec fn grants_of(m: Module, ctx: BootContext, images: Seq<image::ImageEntry>) -> Seq<Grant> {
    let io = R_IN | R_OUT | R_GRANT | R_ATTENUATE;
    let line = R_BIND | R_ACK | R_GRANT | R_ATTENUATE;
    let serve = R_SEND | R_RECV | R_GRANT | R_ATTENUATE;
    let both = R_IN | R_OUT;
    match m {
        Module::Kbd => seq![
            plain(BOOT_IRQ, ObjectRef::Irq(1), line),
            plain(BOOT_KBD_DATA, ObjectRef::IoPort { base: 0x60, len: 1 }, io),
            plain(BOOT_KBD_STATUS, ObjectRef::IoPort { base: 0x64, len: 1 }, io),
            plain(BOOT_TTY, ObjectRef::Endpoint(EP1), R_SEND),
        ] + end_at(BOOT_INPUT_CHAN, ctx.input_chan, 0, both) + seq![
            plain(BOOT_MOUSE_IRQ, ObjectRef::Irq(12), line),
        ] + end_at(BOOT_MOUSE_CHAN, ctx.mouse_chan, 0, both),
        Module::Fb => seq![
            plain(BOOT_FB, ObjectRef::Framebuffer, R_MAP | R_GRANT | R_ATTENUATE),
        ],
        Module::Compositor => seq![
            plain(BOOT_FB, ObjectRef::Framebuffer, R_MAP | R_GRANT | R_ATTENUATE),
        ] + end_at(BOOT_INPUT_CHAN, ctx.input_chan, 1, both) + end_at(
            BOOT_TERM_CHAN,
            ctx.term_chan,
            1,
            R_IN | R_OUT | R_GRANT,
        ) + end_at(BOOT_MOUSE_CHAN, ctx.mouse_chan, 1, both) + image_grants(
            images,
            compositor_images_list(),
            compositor_images_list().len() as int,
        ),
        Module::Tty => seq![plain(BOOT_TTY, ObjectRef::Endpoint(EP1), R_RECV)] + end_at(
            BOOT_TERM_CHAN,
            ctx.term_chan,
            0,
            both,
        ),
        Module::Shell => seq![
            plain(BOOT_TTY, ObjectRef::Endpoint(EP1), R_SEND | R_GRANT | R_ATTENUATE),
            plain(
                BOOT_TICK,
                ObjectRef::Notification(ctx.tick),
                R_WAIT | R_GRANT | R_ATTENUATE,
            ),
        ] + image_grants(images, shell_images_list(), shell_images_list().len() as int) + seq![
            Grant {
                slot: BOOT_FS_ROOT,
                entry: HandleEntry {
                    obj: ObjectRef::Endpoint(EP2),
                    rights: R_SEND | R_GRANT,
                    badge: FS_ROOT,
                },
            },
            Grant {
                slot: BOOT_NET_EP,
                entry: HandleEntry {
                    obj: ObjectRef::Endpoint(EP3),
                    rights: R_SEND | R_GRANT,
                    badge: NET_CTL,
                },
            },
        ],
        Module::Fs => seq![
            plain(BOOT_EP, ObjectRef::Endpoint(EP2), serve),
            plain(BOOT_BLK_EP, ObjectRef::Endpoint(EP4), R_SEND),
        ],
        Module::Serial => seq![
            plain(BOOT_SERIAL_IRQ, ObjectRef::Irq(4), R_BIND | R_ACK),
            plain(BOOT_SERIAL_RBR, ObjectRef::IoPort { base: 0x3F8, len: 1 }, R_IN),
            plain(BOOT_SERIAL_LSR, ObjectRef::IoPort { base: 0x3FD, len: 1 }, R_IN),
            plain(BOOT_TTY, ObjectRef::Endpoint(EP1), R_SEND),
        ],
        Module::Net => (match ctx.nic {
            Some((bdf, irq)) => seq![
                plain(BOOT_PCI, ObjectRef::PciDevice(bdf), R_IN | R_OUT | R_MAP),
                plain(BOOT_NET_IRQ, ObjectRef::Irq(irq), R_BIND | R_ACK),
            ],
            None => Seq::empty(),
        }) + seq![plain(BOOT_EP, ObjectRef::Endpoint(EP3), serve)],
        Module::Blk => (match ctx.blk {
            Some(bdf) => seq![plain(BOOT_PCI, ObjectRef::PciDevice(bdf), R_IN | R_OUT | R_MAP)],
            None => Seq::empty(),
        }) + seq![plain(BOOT_EP, ObjectRef::Endpoint(EP4), R_SEND | R_RECV | R_GRANT)],
        _ => Seq::empty(),
    }
}

/// What a boot program is given beside its budget.
pub fn boot_grants(m: Module, ctx: &BootContext, images: &Images) -> (v: Vec<Grant>)
    requires
        images.wf(),
    ensures
        v@ == grants_of(m, *ctx, images.v@),
{
    let io: u32 = R_IN | R_OUT | R_GRANT | R_ATTENUATE;
    let line: u32 = R_BIND | R_ACK | R_GRANT | R_ATTENUATE;
    let serve: u32 = R_SEND | R_RECV | R_GRANT | R_ATTENUATE;
    let both: u32 = R_IN | R_OUT;
    let mut v: Vec<Grant> = Vec::new();
    match m {
        Module::Kbd => {
            v.push(plain_grant(BOOT_IRQ, ObjectRef::Irq(1), line));
            v.push(plain_grant(BOOT_KBD_DATA, ObjectRef::IoPort { base: 0x60, len: 1 }, io));
            v.push(plain_grant(BOOT_KBD_STATUS, ObjectRef::IoPort { base: 0x64, len: 1 }, io));
            v.push(plain_grant(BOOT_TTY, ObjectRef::Endpoint(EP1), R_SEND));
            push_end(&mut v, BOOT_INPUT_CHAN, ctx.input_chan, 0, both);
            v.push(plain_grant(BOOT_MOUSE_IRQ, ObjectRef::Irq(12), line));
            push_end(&mut v, BOOT_MOUSE_CHAN, ctx.mouse_chan, 0, both);
        },
        Module::Fb => {
            v.push(plain_grant(BOOT_FB, ObjectRef::Framebuffer, R_MAP | R_GRANT | R_ATTENUATE));
        },
        Module::Compositor => {
            v.push(plain_grant(BOOT_FB, ObjectRef::Framebuffer, R_MAP | R_GRANT | R_ATTENUATE));
            push_end(&mut v, BOOT_INPUT_CHAN, ctx.input_chan, 1, both);
            push_end(&mut v, BOOT_TERM_CHAN, ctx.term_chan, 1, R_IN | R_OUT | R_GRANT);
            push_end(&mut v, BOOT_MOUSE_CHAN, ctx.mouse_chan, 1, both);
            let list = compositor_images();
            push_images(&mut v, images, &list, Ghost(compositor_images_list()));
        },
        Module::Tty => {
            v.push(plain_grant(BOOT_TTY, ObjectRef::Endpoint(EP1), R_RECV));
            push_end(&mut v, BOOT_TERM_CHAN, ctx.term_chan, 0, both);
        },
        Module::Shell => {
            v.push(plain_grant(BOOT_TTY, ObjectRef::Endpoint(EP1), R_SEND | R_GRANT | R_ATTENUATE));
            v.push(
                plain_grant(
                    BOOT_TICK,
                    ObjectRef::Notification(ctx.tick),
                    R_WAIT | R_GRANT | R_ATTENUATE,
                ),
            );
            let list = shell_images();
            push_images(&mut v, images, &list, Ghost(shell_images_list()));
            v.push(
                Grant {
                    slot: BOOT_FS_ROOT,
                    entry: HandleEntry {
                        obj: ObjectRef::Endpoint(EP2),
                        rights: R_SEND | R_GRANT,
                        badge: FS_ROOT,
                    },
                },
            );
            v.push(
                Grant {
                    slot: BOOT_NET_EP,
                    entry: HandleEntry {
                        obj: ObjectRef::Endpoint(EP3),
                        rights: R_SEND | R_GRANT,
                        badge: NET_CTL,
                    },
                },
            );
        },
        Module::Fs => {
            v.push(plain_grant(BOOT_EP, ObjectRef::Endpoint(EP2), serve));
            v.push(plain_grant(BOOT_BLK_EP, ObjectRef::Endpoint(EP4), R_SEND));
        },
        Module::Serial => {
            v.push(plain_grant(BOOT_SERIAL_IRQ, ObjectRef::Irq(4), R_BIND | R_ACK));
            v.push(plain_grant(BOOT_SERIAL_RBR, ObjectRef::IoPort { base: 0x3F8, len: 1 }, R_IN));
            v.push(plain_grant(BOOT_SERIAL_LSR, ObjectRef::IoPort { base: 0x3FD, len: 1 }, R_IN));
            v.push(plain_grant(BOOT_TTY, ObjectRef::Endpoint(EP1), R_SEND));
        },
        Module::Net => {
            if let Some((bdf, irq)) = ctx.nic {
                v.push(plain_grant(BOOT_PCI, ObjectRef::PciDevice(bdf), R_IN | R_OUT | R_MAP));
                v.push(plain_grant(BOOT_NET_IRQ, ObjectRef::Irq(irq), R_BIND | R_ACK));
            }
            v.push(plain_grant(BOOT_EP, ObjectRef::Endpoint(EP3), serve));
        },
        Module::Blk => {
            if let Some(bdf) = ctx.blk {
                v.push(plain_grant(BOOT_PCI, ObjectRef::PciDevice(bdf), R_IN | R_OUT | R_MAP));
            }
            v.push(plain_grant(BOOT_EP, ObjectRef::Endpoint(EP4), R_SEND | R_RECV | R_GRANT));
        },
        _ => {},
    }
    assert(v@ =~= grants_of(m, *ctx, images.v@));
    v
}

/// Direct authority over a device.
pub open spec fn is_hardware(o: ObjectRef) -> bool {
    o is Console || o is IoPort || o is Irq || o is PciDevice || o is Framebuffer
}

/// The entries granted for a list of images all name images.
pub proof fn lemma_images_are_images(
    images: Seq<image::ImageEntry>,
    l: Seq<(Handle, Seq<char>)>,
    n: int,
)
    ensures
        forall|i: int|
            0 <= i < image_grants(images, l, n).len() ==> (#[trigger] image_grants(
                images,
                l,
                n,
            )[i]).entry.obj is Image,
    decreases n,
{
    if n > 0 {
        lemma_images_are_images(images, l, n - 1);
        let rest = image_grants(images, l, n - 1);
        let all = image_grants(images, l, n);
        assert forall|i: int| 0 <= i < all.len() implies (#[trigger] all[i]).entry.obj is Image by {
            if i < rest.len() {
                assert(all[i] == rest[i]);
            }
        }
    }
}

/// The shell holds no authority over any device: all it has are endpoints, a clock, and
/// programs to start.
pub proof fn law_shell_holds_no_hardware(
    ctx: BootContext,
    images: Seq<image::ImageEntry>,
    i: int,
)
    requires
        0 <= i < grants_of(Module::Shell, ctx, images).len(),
    ensures
        !is_hardware(grants_of(Module::Shell, ctx, images)[i].entry.obj),
{
    let l = shell_images_list();
    lemma_images_are_images(images, l, l.len() as int);
    let mid = image_grants(images, l, l.len() as int);
    if 2 <= i < 2 + mid.len() {
        assert(grants_of(Module::Shell, ctx, images)[i] == mid[i - 2]);
    }
}

/// The serial driver can only read its ports: every configuration and transmit register
/// stays the kernel's.
pub proof fn law_serial_only_reads(ctx: BootContext, images: Seq<image::ImageEntry>, i: int)
    requires
        0 <= i < grants_of(Module::Serial, ctx, images).len(),
        grants_of(Module::Serial, ctx, images)[i].entry.obj is IoPort,
    ensures
        grants_of(Module::Serial, ctx, images)[i].entry.rights == R_IN,
{
}

/// Devices on the bus are handed to the network and the disk driver and to nobody else,
/// and each gets the one device that is its own.
pub proof fn law_bus_devices(m: Module, ctx: BootContext, images: Seq<image::ImageEntry>, i: int)
    requires
        0 <= i < grants_of(m, ctx, images).len(),
        grants_of(m, ctx, images)[i].entry.obj is PciDevice,
    ensures
        m == Module::Net && ctx.nic is Some && grants_of(m, ctx, images)[i].entry.obj
            == ObjectRef::PciDevice((ctx.nic->0).0) || m == Module::Blk && ctx.blk is Some
            && grants_of(m, ctx, images)[i].entry.obj == ObjectRef::PciDevice(ctx.blk->0),
{
    let l = shell_images_list();
    let c = compositor_images_list();
    lemma_images_are_images(images, l, l.len() as int);
    lemma_images_are_images(images, c, c.len() as int);
    let g = grants_of(m, ctx, images);
    if m == Module::Shell {
        let mid = image_grants(images, l, l.len() as int);
        if 2 <= i < 2 + mid.len() {
            assert(g[i] == mid[i - 2]);
        }
    }
    if m == Module::Compositor {
        let mid = image_grants(images, c, c.len() as int);
        let k = g.len() - mid.len();
        if i >= k {
            assert(g[i] == mid[i - k]);
        }
    }
}

/// A table with the first `n` grants installed.
pub open spec fn with_grants(t: Table, g: Seq<Grant>, n: int) -> Table
    decreases n,
{
    if n <= 0 {
        t
    } else {
        with_grants(t, g, n - 1).update(g[n - 1].slot as int, Some(g[n - 1].entry))
    }
}

/// A grant that can be installed.
pub open spec fn installable(g: Grant) -> bool {
    g.slot < HANDLE_TABLE_SIZE && object::names_object(g.entry.obj)
}

proof fn lemma_images_installable(
    images: Seq<image::ImageEntry>,
    l: Seq<(Handle, Seq<char>)>,
    n: int,
)
    requires
        0 <= n <= l.len(),
        forall|i: int| 0 <= i < l.len() ==> (#[trigger] l[i]).0 < HANDLE_TABLE_SIZE,
    ensures
        forall|i: int|
            0 <= i < image_grants(images, l, n).len() ==> installable(
                #[trigger] image_grants(images, l, n)[i],
            ),
    decreases n,
{
    if n > 0 {
        lemma_images_installable(images, l, n - 1);
        assert(l[n - 1].0 < HANDLE_TABLE_SIZE);
        let rest = image_grants(images, l, n - 1);
        let all = image_grants(images, l, n);
        assert forall|i: int| 0 <= i < all.len() implies installable(#[trigger] all[i]) by {
            if i < rest.len() {
                assert(all[i] == rest[i]);
            }
        }
    }
}

/// The grants of a module name objects that exist.
pub proof fn lemma_grants_installable(m: Module, ctx: BootContext, images: Seq<image::ImageEntry>)
    requires
        ctx.wf(),
    ensures
        forall|i: int|
            0 <= i < grants_of(m, ctx, images).len() ==> installable(
                #[trigger] grants_of(m, ctx, images)[i],
            ),
{
    let l = shell_images_list();
    let c = compositor_images_list();
    lemma_images_installable(images, l, l.len() as int);
    lemma_images_installable(images, c, c.len() as int);
    let g = grants_of(m, ctx, images);
    assert forall|i: int| 0 <= i < g.len() implies installable(#[trigger] g[i]) by {
        if m == Module::Shell {
            let mid = image_grants(images, l, l.len() as int);
            if 2 <= i < 2 + mid.len() {
                assert(g[i] == mid[i - 2]);
            }
        }
        if m == Module::Compositor {
            let mid = image_grants(images, c, c.len() as int);
            let k = g.len() - mid.len();
            if i >= k {
                assert(g[i] == mid[i - k]);
            }
        }
    }
}

/// The table of a boot program: the console and its budget, then what it is given. The
/// shell does not keep the console.
pub open spec fn boot_table(t: Table, m: Module, g: Seq<Grant>, own: int, gen: u32) -> Table {
    let t1 = t.update(BOOT_CONSOLE as int, Some(proc::console_entry())).update(
        BOOT_MEM as int,
        Some(proc::own_budget(own, gen)),
    );
    let t2 = with_grants(t1, g, g.len() as int);
    if m == Module::Shell {
        t2.update(BOOT_CONSOLE as int, None)
    } else {
        t2
    }
}

/// Give a boot program all it is to have.
pub fn grant_boot(k: &mut Kernel, pid: usize, m: Module, ctx: &BootContext)
    requires
        old(k).wf(),
        pid < MAX_PROCS,
        ctx.wf(),
        mem::free_mem_from(old(k).mems.v@, 0) < MEM_POOL,
    ensures
        final(k).wf(),
        *final(k) == (Kernel { procs: final(k).procs, mems: final(k).mems, ..*old(k) }),
        ({
            let own = mem::free_mem_from(old(k).mems.v@, 0);
            let gen = old(k).mems.v@[own].gen;
            &&& mem::mem_becomes(
                old(k).mems,
                final(k).mems,
                own,
                MemObj { in_use: true, remaining: budget_of(m), gen },
            )
            &&& kernel::table_becomes(
                old(k).procs,
                final(k).procs,
                pid as int,
                boot_table(
                    old(k).procs.v@[pid as int].handles@,
                    m,
                    grants_of(m, *ctx, old(k).images.v@),
                    own,
                    gen,
                ),
            )
        }),
{
    proc::grant_standard(k, pid, boot_budget(m));
    let g = boot_grants(m, ctx, &k.images);
    proof {
        lemma_grants_installable(m, *ctx, k.images.v@);
    }
    let ghost start = k.procs.v@[pid as int].handles@;
    let mut p = k.procs.v[pid];
    assert(k.procs.v@[pid as int].wf());
    let ghost p0 = p;
    let mut i: usize = 0;
    while i < g.len()
        invariant
            i <= g@.len(),
            p.wf(),
            forall|j: int| 0 <= j < g@.len() ==> installable(#[trigger] g@[j]),
            proc::same_but_handles(p0, p),
            p.handles@ == with_grants(start, g@, i as int),
        decreases g@.len() - i,
    {
        assert(installable(g@[i as int]));
        p.install(g[i].slot, g[i].entry);
        i += 1;
    }
    if m == Module::Shell {
        p.handles[BOOT_CONSOLE as usize] = None;
    }
    k.procs.v[pid] = p;
}

/// A boot program that was started.
pub struct Booted {
    pub pid: usize,
    pub tid: usize,
    /// Root of its address space: a fresh frame.
    pub root: u64,
    /// Root of the address space whose place it took, to be torn down.
    pub dead: Option<u64>,
    pub load: LoadResult,
}

/// `b` is `a` after the program `img`, known by `cmd`, was started as `r` says.
pub open spec fn booted(
    a: Kernel,
    b: Kernel,
    r: Booted,
    cmd: Seq<u8>,
    img: Image,
    ctx: BootContext,
    stacks: u64,
) -> bool {
    let m = module_named(cmd);
    let id = proc::reusable_from(a.procs.v@, a.sched.tcbs@, 0);
    let own = mem::free_mem_from(a.mems.v@, 0);
    let gen = a.mems.v@[own].gen;
    let root = pmm::next_frame(a.pmm)->0;
    let tid = thread::free_thread_from(a.sched.tcbs@, 1);
    let p = b.procs.v@[id];
    &&& r.pid == id
    &&& r.tid == tid
    &&& r.root == root
    &&& r.dead == (if a.procs.v@[id].state == PState::Dead {
        Some(a.procs.v@[id].pml4_phys)
    } else {
        None
    })
    &&& load::loads_image(r.load, img, rng::next_value(a.rng@))
    &&& b == (Kernel {
        pmm: b.pmm,
        procs: b.procs,
        rng: b.rng,
        mems: b.mems,
        sched: b.sched,
        ..a
    })
    &&& pmm::allocated(a.pmm, b.pmm)
    &&& b.rng@ == rng::after_steps(a.rng@, 1)
    &&& mem::mem_becomes(
        a.mems,
        b.mems,
        own,
        MemObj { in_use: true, remaining: budget_of(m), gen },
    )
    &&& proc::proc_becomes(a.procs, b.procs, id, p)
    &&& p.state == PState::Alive
    &&& p.pml4_phys == root
    &&& p.name@ == proc::name_field(cmd)
    &&& p.tls == r.load.tls
    &&& p.tls_next == r.load.tls_next
    &&& exists|c: Process| #[trigger]
        proc::is_blank(c) && p == (Process {
            state: p.state,
            pml4_phys: p.pml4_phys,
            name: p.name,
            tls: p.tls,
            tls_next: p.tls_next,
            handles: p.handles,
            ..c
        })
    &&& p.handles@ == boot_table(
        Seq::new(HANDLE_TABLE_SIZE as nat, |i: int| None::<HandleEntry>),
        m,
        grants_of(m, ctx, a.images.v@),
        own,
        gen,
    )
    &&& if tid == 0 {
        b.sched == a.sched
    } else {
        thread::tcb_becomes(
            a.sched,
            b.sched,
            tid,
            thread::spawned(
                a.sched.tcbs@[tid],
                tid,
                stacks,
                id as usize,
                root,
                r.load.fs_base,
            ),
        )
    }
}

/// Start the boot program `img`, known by `cmd`: claim a process, load the image, give it
/// what it is to have, and start its thread. Frames, process slots and budgets must be
/// there, or the machine cannot boot.
#[verifier::spinoff_prover]
pub fn boot_module(k: &mut Kernel, cmd: &[u8], img: &Image, ctx: &BootContext, stacks: u64) -> (r:
    Booted)
    requires
        old(k).wf(),
        ctx.wf(),
        img.loadable(),
        stacks + MAX_THREADS * KSTACK_SIZE <= u64::MAX,
        pmm::next_frame(old(k).pmm) is Some,
        proc::reusable_from(old(k).procs.v@, old(k).sched.tcbs@, 0) < MAX_PROCS,
        mem::free_mem_from(old(k).mems.v@, 0) < MEM_POOL,
    ensures
        final(k).wf(),
        booted(*old(k), *final(k), r, cmd@, *img, *ctx, stacks),
{
    let m = classify(cmd);
    let root: u64 = match pmm::alloc_frame(&mut k.pmm) {
        Some(f) => f,
        None => 0,
    };
    let (id, dead) = match proc::create(&mut k.procs, &k.sched, root, cmd) {
        Ok(t) => t,
        Err(_) => (0, None),
    };
    assert(k.procs.v@[id as int].handles@ =~= Seq::new(
        HANDLE_TABLE_SIZE as nat,
        |i: int| None::<HandleEntry>,
    ));
    let rand: u64 = rng::next_u64(&mut k.rng);
    let lr = load::load_into(img, rand);
    let mut p = k.procs.v[id];
    assert(k.procs.v@[id as int].wf());
    p.tls = lr.tls;
    p.tls_next = lr.tls_next;
    k.procs.v[id] = p;
    grant_boot(k, id, m, ctx);
    let ghost before = k.sched.tcbs@;
    let tid: usize = thread::spawn_user(&mut k.sched, stacks, id, root, lr.fs_base);
    proof {
        ipc::lemma_wf_for_same_procs(k.ipc, before, k.sched.tcbs@);
    }
    Booted { pid: id, tid, root, dead, load: lr }
}

/// Why a module stops the boot.
#[derive(Clone, Copy, PartialEq, Eq, Debug, Structural)]
pub enum Stop {
    /// The registry of images is full.
    NoRoom,
    /// It is no program that can be loaded.
    BadProgram,
    NoFrame,
    NoProcess,
    NoBudget,
}

/// What became of a module.
pub enum Action {
    /// It is the archive: remembered for the file server.
    Remembered,
    /// It was registered as an image.
    Registered(u8),
    /// It was started: its pages are to be mapped, those of the archive too if there are any.
    Started(Booted, Vec<PageMap>),
    Stopped(Stop),
}

/// The program in `data` can be loaded.
pub open spec fn is_program(img: Image, data: Seq<u8>) -> bool {
    elf::valid_header(data) && img.describes(data) && img.loadable()
}

/// The pages of the archive that a program gets: only the file server reads it.
pub open spec fn archive_pages(m: Module, initrd: Option<(u64, u64)>) -> Seq<PageMap> {
    match initrd {
        Some((phys, size)) => if m == Module::Fs {
            dev::device_pages(FS_INITRD, phys, size as int)
        } else {
            Seq::empty()
        },
        None => Seq::empty(),
    }
}

/// An archive in memory whose pages can be mapped.
pub open spec fn archive_fits(initrd: Option<(u64, u64)>) -> bool {
    initrd is Some ==> FS_INITRD + (initrd->0).1 + 4095 <= u64::MAX && (initrd->0).0 + (
    initrd->0).1 + 4095 <= u64::MAX
}

/// Take the next module: remember the archive, register a program that is started on
/// demand, start any other. `initrd` is the archive so far; `phys` is where the module is.
#[verifier::spinoff_prover]
pub fn boot_step(
    k: &mut Kernel,
    initrd: &mut Option<(u64, u64)>,
    cmd: &[u8],
    data: &'static [u8],
    phys: u64,
    ctx: &BootContext,
    stacks: u64,
) -> (r: Action)
    requires
        old(k).wf(),
        ctx.wf(),
        stacks + MAX_THREADS * KSTACK_SIZE <= u64::MAX,
        archive_fits(*old(initrd)),
        archive_fits(Some((phys, data.len() as u64))),
        data.len() <= u64::MAX,
    ensures
        final(k).wf(),
        archive_fits(*final(initrd)),
        ({
            let m = module_named(cmd@);
            match m {
                Module::Initrd => {
                    &&& r is Remembered
                    &&& *final(initrd) == Some((phys, data.len() as u64))
                    &&& *final(k) == *old(k)
                },
                Module::Image => {
                    let i = image::free_image_from(old(k).images.v@, 0);
                    &&& *final(initrd) == *old(initrd)
                    &&& *final(k) == (Kernel { images: final(k).images, ..*old(k) })
                    &&& if i < image::MAX_IMAGES {
                        &&& r == Action::Registered(i as u8)
                        &&& image::registers(old(k).images, final(k).images, i, cmd@, data@)
                    } else {
                        r == Action::Stopped(Stop::NoRoom) && *final(k) == *old(k)
                    }
                },
                _ => {
                    &&& *final(initrd) == *old(initrd)
                    &&& match r {
                        Action::Started(b, pages) => {
                            &&& exists|img: Image|
                                #![trigger img.describes(data@)]
                                is_program(img, data@) && booted(
                                    *old(k),
                                    *final(k),
                                    b,
                                    cmd@,
                                    img,
                                    *ctx,
                                    stacks,
                                )
                            &&& pages@ == archive_pages(m, *old(initrd))
                            &&& startable(*old(k)) is None
                        },
                        Action::Stopped(why) => {
                            &&& *final(k) == *old(k)
                            &&& if why == Stop::BadProgram {
                                !elf::valid_header(data@) || exists|img: Image|
                                    #![trigger img.describes(data@)]
                                    img.describes(data@) && !img.loadable()
                            } else {
                                startable(*old(k)) == Some(why) && exists|img: Image|
                                    #![trigger img.describes(data@)]
                                    is_program(img, data@)
                            }
                        },
                        _ => false,
                    }
                },
            }
        }),
{
    let m = classify(cmd);
    if m == Module::Initrd {
        *initrd = Some((phys, data.len() as u64));
        return Action::Remembered;
    }
    if m == Module::Image {
        if !image::has_room(&k.images) {
            return Action::Stopped(Stop::NoRoom);
        }
        let i: u8 = image::register(&mut k.images, cmd, data);
        return Action::Registered(i);
    }
    let img = match Image::try_validate(data) {
        Ok(i) => i,
        Err(_) => return Action::Stopped(Stop::BadProgram),
    };
    if !img.is_loadable() {
        return Action::Stopped(Stop::BadProgram);
    }
    assert(is_program(img, data@));
    if !pmm::has_frame(&k.pmm) {
        return Action::Stopped(Stop::NoFrame);
    }
    if proc::find_reusable(&k.procs, &k.sched).is_none() {
        return Action::Stopped(Stop::NoProcess);
    }
    if !mem::has_budget(&k.mems) {
        return Action::Stopped(Stop::NoBudget);
    }
    let mut pages: Vec<PageMap> = Vec::new();
    if m == Module::Fs {
        if let Some((at, size)) = *initrd {
            pages = initrd_pages(at, size);
        }
    }
    assert(pages@ =~= archive_pages(m, *initrd));
    let b = boot_module(k, cmd, &img, ctx, stacks);
    Action::Started(b, pages)
}

/// What keeps a program from being started, the first thing that is missing.
pub open spec fn startable(k: Kernel) -> Option<Stop> {
    if pmm::next_frame(k.pmm) is None {
        Some(Stop::NoFrame)
    } else if proc::reusable_from(k.procs.v@, k.sched.tcbs@, 0) >= MAX_PROCS {
        Some(Stop::NoProcess)
    } else if mem::free_mem_from(k.mems.v@, 0) >= MEM_POOL {
        Some(Stop::NoBudget)
    } else {
        None
    }
}

/// What the table of a program holds after grants was there before or was granted.
pub proof fn lemma_granted_or_held(t: Table, g: Seq<Grant>, n: int, h: int)
    requires
        0 <= n <= g.len(),
        0 <= h < t.len(),
        forall|i: int| 0 <= i < g.len() ==> (#[trigger] g[i]).slot < t.len(),
    ensures
        with_grants(t, g, n).len() == t.len(),
        with_grants(t, g, n)[h] == t[h] || exists|i: int|
            0 <= i < n && (#[trigger] g[i]).slot == h && with_grants(t, g, n)[h] == Some(
                g[i].entry,
            ),
    decreases n,
{
    if n > 0 {
        lemma_granted_or_held(t, g, n - 1, h);
        assert(g[n - 1].slot < t.len());
        let before = with_grants(t, g, n - 1);
        if g[n - 1].slot == h {
            assert(with_grants(t, g, n)[h] == Some(g[n - 1].entry));
        } else if before[h] != t[h] {
            let i = choose|i: int|
                0 <= i < n - 1 && (#[trigger] g[i]).slot == h && before[h] == Some(g[i].entry);
            assert(with_grants(t, g, n)[h] == Some(g[i].entry));
        }
    }
}

/// The shell as it is started holds no capability to any device, the console included.
pub proof fn law_booted_shell_holds_no_hardware(
    a: Kernel,
    b: Kernel,
    r: Booted,
    cmd: Seq<u8>,
    img: Image,
    ctx: BootContext,
    stacks: u64,
    h: int,
)
    requires
        booted(a, b, r, cmd, img, ctx, stacks),
        ctx.wf(),
        module_named(cmd) == Module::Shell,
        0 <= h < HANDLE_TABLE_SIZE,
        b.procs.v@[r.pid as int].handles@[h] is Some,
    ensures
        !is_hardware(b.procs.v@[r.pid as int].handles@[h]->0.obj),
{
    let m = Module::Shell;
    let g = grants_of(m, ctx, a.images.v@);
    let own = mem::free_mem_from(a.mems.v@, 0);
    let gen = a.mems.v@[own].gen;
    let t = Seq::new(HANDLE_TABLE_SIZE as nat, |i: int| None::<HandleEntry>);
    let t1 = t.update(BOOT_CONSOLE as int, Some(proc::console_entry())).update(
        BOOT_MEM as int,
        Some(proc::own_budget(own, gen)),
    );
    lemma_grants_installable(m, ctx, a.images.v@);
    assert forall|i: int| 0 <= i < g.len() implies (#[trigger] g[i]).slot < t1.len() by {
        assert(installable(g[i]));
    }
    lemma_granted_or_held(t1, g, g.len() as int, h);
    let all = with_grants(t1, g, g.len() as int);
    if h != BOOT_CONSOLE && all[h] != t1[h] {
        let i = choose|i: int|
            0 <= i < g.len() && (#[trigger] g[i]).slot == h && all[h] == Some(g[i].entry);
        law_shell_holds_no_hardware(ctx, a.images.v@, i);
    }
}

} // verus!
