//! Calls that reach devices. What they decide is decided here; the access itself is the
//! caller's.
use vstd::prelude::*;
use crate::abi::{Handle, SysError, R_IN, R_MAP, R_OUT, R_WRITE};
use crate::arch::serial;
use crate::fb;
use crate::fb::FbInfo;
use crate::kernel::Kernel;
use crate::mm::vm::{PageMap, LOWER_HALF_END};
use crate::object;
use crate::object::{ObjType, ObjectRef};
use crate::pci;
use crate::pci::Device;
use crate::proc;
use crate::proc::{Process, Table};
use crate::syscall;
use crate::syscall::{SyscallRet, UserSpace};

verus! {

/// Bytes per write to the console at most.
pub const CONSOLE_MAX: u64 = 1024;

/// Bytes of a base address that can be mapped at most.
pub const BAR_MAX: u64 = 0x10_0000;

/// The port that may be accessed through handle `h`: it must be in the range the
/// capability covers.
pub open spec fn io_port(t: Table, h: Handle, port: u16, rights: u32) -> Result<u16, SysError> {
    match proc::entry_with(t, h, ObjType::IoPort, rights) {
        Err(e) => Err(e),
        Ok(e) => if port < e.obj->base || port >= e.obj->base + e.obj->len {
            Err(SysError::Msg)
        } else {
            Ok(port)
        },
    }
}

fn io_port_of(p: &Process, h: Handle, port: u16, rights: u32) -> (r: Result<u16, SysError>)
    requires
        p.wf(),
    ensures
        r == io_port(p.handles@, h, port, rights),
{
    match p.lookup(h, ObjType::IoPort, rights) {
        Err(e) => Err(e),
        Ok(e) => match e.obj {
            ObjectRef::IoPort { base, len } => {
                assert(object::names_object(e.obj));
                if port < base || port >= base + len {
                    Err(SysError::Msg)
                } else {
                    Ok(port)
                }
            },
            _ => Err(SysError::BadType),
        },
    }
}

/// The port to read a byte from.
pub fn sys_io_in(k: &Kernel, cpu: usize, io: u64, port: u64) -> (r: Result<u16, SysError>)
    requires
        k.wf(),
        k.in_process(cpu),
    ensures
        r == io_port(k.caller_table(cpu), io as Handle, port as u16, R_IN),
        r is Ok ==> r->Ok_0 == port as u16 && proc::holds(k.caller_table(cpu), io as Handle, 0x40000),
{
    let me: usize = syscall::caller(k, cpu);
    assert(k.procs.v@[me as int].wf());
    io_port_of(&k.procs.v[me], io as Handle, port as u16, R_IN)
}

/// The port to write a byte to, and the byte.
pub fn sys_io_out(k: &Kernel, cpu: usize, io: u64, port: u64, value: u64) -> (r: Result<
    (u16, u8),
    SysError,
>)
    requires
        k.wf(),
        k.in_process(cpu),
    ensures
        r == (match io_port(k.caller_table(cpu), io as Handle, port as u16, R_OUT) {
            Ok(p) => Ok((p, value as u8)),
            Err(e) => Err(e),
        }),
        r is Ok ==> r->Ok_0 == (port as u16, value as u8) && proc::holds(k.caller_table(cpu), io as Handle, 0x80000),
{
    let me: usize = syscall::caller(k, cpu);
    assert(k.procs.v@[me as int].wf());
    match io_port_of(&k.procs.v[me], io as Handle, port as u16, R_OUT) {
        Ok(p) => Ok((p, value as u8)),
        Err(e) => Err(e),
    }
}

/// A port is only ever accessed by a holder of a capability to it.
pub proof fn law_ports_are_confined(t: Table, h: Handle, port: u16, rights: u32)
    requires
        io_port(t, h, port, rights) is Ok,
    ensures
        proc::entry_of(t, h) matches Ok(e) && e.obj is IoPort && e.obj->base <= port < e.obj->base
            + e.obj->len && object::has_rights(e.rights, rights),
{
}

/// The device behind handle `h`, which must carry `rights`.
pub open spec fn pci_behind(t: Table, h: Handle, rights: u32) -> Result<u32, SysError> {
    match proc::entry_with(t, h, ObjType::PciDevice, rights) {
        Err(e) => Err(e),
        Ok(e) => Ok(e.obj->PciDevice_0),
    }
}

/// Bus, device and function of the packed address `w`.
pub open spec fn place_of(w: u32) -> (u8, u8, u8) {
    ((w as int / 0x1_0000 % 256) as u8, (w as int / 0x100 % 256) as u8, (w as int % 256) as u8)
}

/// Look up a device.
pub fn pci_dev(p: &Process, h: Handle, rights: u32) -> (r: Result<(u8, u8, u8), SysError>)
    ensures
        r == (match pci_behind(p.handles@, h, rights) {
            Ok(w) => Ok(place_of(w)),
            Err(e) => Err(e),
        }),
{
    match p.lookup(h, ObjType::PciDevice, rights) {
        Err(e) => Err(e),
        Ok(e) => match e.obj {
            ObjectRef::PciDevice(w) => Ok(pci::unpack_bdf(w)),
            _ => Err(SysError::BadType),
        },
    }
}

/// The address of the configuration register to read.
pub fn sys_pci_read(k: &Kernel, cpu: usize, dev: u64, offset: u64) -> (r: Result<u32, SysError>)
    requires
        k.wf(),
        k.in_process(cpu),
    ensures
        r == (match pci_behind(k.caller_table(cpu), dev as Handle, R_IN) {
            Ok(w) => Ok(
                pci::config_address(place_of(w).0, place_of(w).1, place_of(w).2, offset as u8),
            ),
            Err(e) => Err(e),
        }),
        r is Ok ==> proc::holds(k.caller_table(cpu), dev as Handle, 0x40000),
{
    let me: usize = syscall::caller(k, cpu);
    match pci_dev(&k.procs.v[me], dev as Handle, R_IN) {
        Ok((b, d, f)) => Ok(pci::address(b, d, f, offset as u8)),
        Err(e) => Err(e),
    }
}

/// The address of the configuration register to write, and the value.
pub fn sys_pci_write(k: &Kernel, cpu: usize, dev: u64, offset: u64, value: u64) -> (r: Result<
    (u32, u32),
    SysError,
>)
    requires
        k.wf(),
        k.in_process(cpu),
    ensures
        r == (match pci_behind(k.caller_table(cpu), dev as Handle, R_OUT) {
            Ok(w) => Ok(
                (
                    pci::config_address(place_of(w).0, place_of(w).1, place_of(w).2, offset as u8),
                    value as u32,
                ),
            ),
            Err(e) => Err(e),
        }),
        r is Ok ==> (r->Ok_0).1 == value as u32 && proc::holds(k.caller_table(cpu), dev as Handle, 0x80000),
{
    let me: usize = syscall::caller(k, cpu);
    match pci_dev(&k.procs.v[me], dev as Handle, R_OUT) {
        Ok((b, d, f)) => Ok((pci::address(b, d, f, offset as u8), value as u32)),
        Err(e) => Err(e),
    }
}

/// What mapping a base address asks for, once checked: the address of its register. A
/// number that is no base address register's is refused.
pub open spec fn bar_request(t: Table, h: Handle, bar: u8, vaddr: u64) -> Result<u32, SysError> {
    match pci_behind(t, h, R_MAP) {
        Err(e) => Err(e),
        Ok(w) => if vaddr % 4096 != 0 || vaddr >= LOWER_HALF_END {
            Err(SysError::Fault)
        } else if bar >= 60 {
            Err(SysError::Msg)
        } else {
            Ok(
                pci::config_address(
                    place_of(w).0,
                    place_of(w).1,
                    place_of(w).2,
                    (0x10 + bar * 4) as u8,
                ),
            )
        },
    }
}

/// Check a request to map a base address; returns the address of its register.
pub fn sys_pci_bar_map(k: &Kernel, cpu: usize, dev: u64, bar: u64, vaddr: u64) -> (r: Result<
    u32,
    SysError,
>)
    requires
        k.wf(),
        k.in_process(cpu),
    ensures
        r == bar_request(k.caller_table(cpu), dev as Handle, bar as u8, vaddr),
{
    let me: usize = syscall::caller(k, cpu);
    match pci_dev(&k.procs.v[me], dev as Handle, R_MAP) {
        Ok((b, d, f)) => {
            if vaddr % 4096 != 0 || vaddr >= LOWER_HALF_END {
                return Err(SysError::Fault);
            }
            let i: u8 = bar as u8;
            if i >= 60 {
                return Err(SysError::Msg);
            }
            Ok(pci::address(b, d, f, Device::bar(i)))
        },
        Err(e) => Err(e),
    }
}

/// The pages of `size` bytes at `base`, to be mapped from `vaddr` up.
pub open spec fn device_pages(vaddr: u64, base: u64, size: int) -> Seq<PageMap> {
    Seq::new(
        ((size + 4095) / 4096) as nat,
        |i: int| PageMap { virt: (vaddr + i * 4096) as u64, phys: (base + i * 4096) as u64 },
    )
}

/// List the pages of `size` bytes at `base`, to be mapped from `vaddr` up.
pub fn list_pages(vaddr: u64, base: u64, size: u64) -> (v: Vec<PageMap>)
    requires
        size + 4095 <= u64::MAX,
        vaddr + size + 4095 <= u64::MAX,
        base + size + 4095 <= u64::MAX,
    ensures
        v@ == device_pages(vaddr, base, size as int),
{
    let pages: u64 = (size + 4095) / 4096;
    let mut v: Vec<PageMap> = Vec::new();
    let mut i: u64 = 0;
    while i < pages
        invariant
            i <= pages,
            pages == (size + 4095) / 4096,
            vaddr + size + 4095 <= u64::MAX,
            base + size + 4095 <= u64::MAX,
            v@ =~= device_pages(vaddr, base, size as int).subrange(0, i as int),
        decreases pages - i,
    {
        v.push(PageMap { virt: vaddr + i * 4096, phys: base + i * 4096 });
        i += 1;
    }
    assert(v@ =~= device_pages(vaddr, base, size as int));
    v
}

/// The pages of a base address to map, from its register `orig` and its size mask. An
/// I/O address, an empty or an implausibly large one is refused.
pub fn bar_pages(vaddr: u64, orig: u32, mask: u32) -> (r: Result<Vec<PageMap>, SysError>)
    requires
        vaddr < LOWER_HALF_END,
    ensures
        ({
            let base = (orig & 0xFFFF_FFF0) as u64;
            let size = pci::region_size(mask);
            if orig & 1 != 0 || base == 0 || size == 0 || size > BAR_MAX {
                r == Err::<Vec<PageMap>, SysError>(SysError::Msg)
            } else {
                r is Ok && r->Ok_0@ == device_pages(vaddr, base, size as int)
            }
        }),
{
    let (base, size) = Device::bar_region(orig, mask);
    if base == 0 || size == 0 || size > BAR_MAX {
        return Err(SysError::Msg);
    }
    Ok(list_pages(vaddr, base, size))
}

/// The framebuffer behind handle `h`.
pub open spec fn framebuffer(t: Table, fb: Option<FbInfo>, h: Handle) -> Result<FbInfo, SysError> {
    match proc::entry_with(t, h, ObjType::Framebuffer, R_MAP) {
        Err(e) => Err(e),
        Ok(_) => if fb is Some && fb->0.usable() {
            Ok(fb->0)
        } else {
            Err(SysError::Gone)
        },
    }
}

/// Geometry of a framebuffer in one word.
pub open spec fn packed_geometry(f: FbInfo) -> u64 {
    (f.width as u64) | ((f.height as u64) << 16u64) | ((f.pitch as u64) << 32u64) | ((f.bpp as u64)
        << 48u64)
}

/// Tell the geometry of the framebuffer: width, height, bytes per line and bits per
/// pixel, 16 bits each.
pub fn sys_fb_info(k: &Kernel, cpu: usize, h: u64) -> (r: SyscallRet)
    requires
        k.wf(),
        k.in_process(cpu),
    ensures
        r == (match framebuffer(k.caller_table(cpu), k.fb, h as Handle) {
            Ok(f) => syscall::succeeded(packed_geometry(f)),
            Err(e) => syscall::failed(e),
        }),
{
    let me: usize = syscall::caller(k, cpu);
    if let Err(e) = k.procs.v[me].lookup(h as Handle, ObjType::Framebuffer, R_MAP) {
        return SyscallRet::err(e);
    }
    match fb::info(&k.fb) {
        Some(f) => SyscallRet::value(
            (f.width as u64) | ((f.height as u64) << 16u64) | ((f.pitch as u64) << 32u64) | ((
            f.bpp as u64) << 48u64),
        ),
        None => SyscallRet::err(SysError::Gone),
    }
}

/// The parts of the geometry can be taken out again.
pub proof fn law_geometry_unpacks(f: FbInfo)
    requires
        f.width < 0x1_0000,
        f.height < 0x1_0000,
        f.pitch < 0x1_0000,
    ensures
        packed_geometry(f) & 0xffff == f.width,
        (packed_geometry(f) >> 16u64) & 0xffff == f.height,
        (packed_geometry(f) >> 32u64) & 0xffff == f.pitch,
        (packed_geometry(f) >> 48u64) & 0xffff == f.bpp,
{
    let w = f.width as u64;
    let h = f.height as u64;
    let p = f.pitch as u64;
    let b = f.bpp as u64;
    let g = packed_geometry(f);
    assert(g & 0xffff == w && (g >> 16u64) & 0xffff == h && (g >> 32u64) & 0xffff == p && (g
        >> 48u64) & 0xffff == b) by (bit_vector)
        requires
            w < 0x1_0000u64,
            h < 0x1_0000u64,
            p < 0x1_0000u64,
            b < 0x1_0000u64,
            g == w | (h << 16u64) | (p << 32u64) | (b << 48u64),
    ;
}

/// Map the framebuffer at `vaddr`.
pub fn sys_fb_map(k: &Kernel, cpu: usize, h: u64, vaddr: u64) -> (r: (SyscallRet, Vec<PageMap>))
    requires
        k.wf(),
        k.in_process(cpu),
    ensures
        match proc::entry_with(k.caller_table(cpu), h as Handle, ObjType::Framebuffer, R_MAP) {
            Err(e) => r.0 == syscall::failed(e) && r.1@.len() == 0,
            Ok(_) => if vaddr % 4096 != 0 || vaddr >= LOWER_HALF_END {
                r.0 == syscall::failed(SysError::Fault) && r.1@.len() == 0
            } else {
                match framebuffer(k.caller_table(cpu), k.fb, h as Handle) {
                    Err(e) => r.0 == syscall::failed(e) && r.1@.len() == 0,
                    Ok(f) => {
                        &&& r.0 == syscall::succeeded(0)
                        &&& r.1@ == device_pages(vaddr, f.phys, f.bytes())
                    },
                }
            },
        },
        r.0.rax == 0 ==> proc::holds(k.caller_table(cpu), h as Handle, 0x20000) && vaddr % 4096 == 0 && vaddr
            < 0x8000_0000_0000,
{
    let me: usize = syscall::caller(k, cpu);
    if let Err(e) = k.procs.v[me].lookup(h as Handle, ObjType::Framebuffer, R_MAP) {
        return (SyscallRet::err(e), Vec::new());
    }
    if vaddr % 4096 != 0 || vaddr >= LOWER_HALF_END {
        return (SyscallRet::err(SysError::Fault), Vec::new());
    }
    match fb::info(&k.fb) {
        Some(f) => {
            let size: u64 = f.size_bytes();
            (SyscallRet::ok(), list_pages(vaddr, f.phys, size))
        },
        None => (SyscallRet::err(SysError::Gone), Vec::new()),
    }
}

/// Write `data`, the `len` bytes at `buf`, to the console: what the console is to send.
pub fn sys_console_write(
    k: &Kernel,
    cpu: usize,
    u: &UserSpace,
    con: u64,
    buf: u64,
    len: u64,
    data: &[u8],
) -> (r: (SyscallRet, Vec<u8>))
    requires
        k.wf(),
        k.in_process(cpu),
        u.ok(),
    ensures
        match proc::entry_with(k.caller_table(cpu), con as Handle, ObjType::Console, R_WRITE) {
            Err(e) => r.0 == syscall::failed(e) && r.1@.len() == 0,
            Ok(_) => if len > CONSOLE_MAX {
                r.0 == syscall::failed(SysError::Msg) && r.1@.len() == 0
            } else if !u.reaches(buf, len as int, false) {
                r.0 == syscall::failed(SysError::Fault) && r.1@.len() == 0
            } else {
                r.0 == syscall::succeeded(0) && r.1@ == serial::crlf(data@)
            },
        },
        r.0.rax == 0 ==> proc::holds(k.caller_table(cpu), con as Handle, 0x10000) && len <= 1024,
{
    let me: usize = syscall::caller(k, cpu);
    if let Err(e) = k.procs.v[me].lookup(con as Handle, ObjType::Console, R_WRITE) {
        return (SyscallRet::err(e), Vec::new());
    }
    if len > CONSOLE_MAX {
        return (SyscallRet::err(SysError::Msg), Vec::new());
    }
    if !u.check(buf, len as usize, false) {
        return (SyscallRet::err(SysError::Fault), Vec::new());
    }
    (SyscallRet::ok(), serial::write_bytes(data))
}

/// Milliseconds since boot, from the tick count.
pub fn sys_uptime_ms(ticks: u64) -> (r: SyscallRet)
    ensures
        r == syscall::succeeded(((ticks * 10) % 0x1_0000_0000_0000_0000) as u64),
{
    SyscallRet::value(ticks.wrapping_mul(10))
}

} // verus!
