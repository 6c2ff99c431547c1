//! PCI configuration space: addresses, devices, and the scan of the bus.
use vstd::prelude::*;

verus! {

/// Port the address of a configuration register goes to.
pub const CONFIG_ADDRESS: u16 = 0xCF8;

/// Port its value is read and written through.
pub const CONFIG_DATA: u16 = 0xCFC;

/// Class of network controllers.
pub const CLASS_NETWORK: u8 = 0x02;

/// Bit of the header register that says a device has several functions.
pub const MULTI_FUNCTION: u32 = 0x0080_0000;

/// The address of a configuration register; the low two bits of `off` do not count.
pub open spec fn config_address(bus: u8, dev: u8, func: u8, off: u8) -> u32 {
    0x8000_0000u32 | ((bus as u32) << 16u32) | ((dev as u32) << 11u32) | ((func as u32) << 8u32) | (
    off as u32 & 0xFC)
}

/// The address of a configuration register.
pub fn address(bus: u8, dev: u8, func: u8, off: u8) -> (a: u32)
    ensures
        a == config_address(bus, dev, func, off),
{
    0x8000_0000u32 | ((bus as u32) << 16u32) | ((dev as u32) << 11u32) | ((func as u32) << 8u32) | (
    off as u32 & 0xFC)
}

/// No two registers of the bus share an address.
pub proof fn law_addresses_distinct(
    b1: u8,
    d1: u8,
    f1: u8,
    o1: u8,
    b2: u8,
    d2: u8,
    f2: u8,
    o2: u8,
)
    requires
        d1 < 32,
        d2 < 32,
        f1 < 8,
        f2 < 8,
        o1 & 3 == 0,
        o2 & 3 == 0,
        config_address(b1, d1, f1, o1) == config_address(b2, d2, f2, o2),
    ensures
        b1 == b2 && d1 == d2 && f1 == f2 && o1 == o2,
{
    assert(b1 == b2 && d1 == d2 && f1 == f2 && o1 == o2) by (bit_vector)
        requires
            d1 < 32,
            d2 < 32,
            f1 < 8,
            f2 < 8,
            o1 & 3 == 0,
            o2 & 3 == 0,
            (0x8000_0000u32 | ((b1 as u32) << 16u32) | ((d1 as u32) << 11u32) | ((f1 as u32)
                << 8u32) | (o1 as u32 & 0xFC)) == (0x8000_0000u32 | ((b2 as u32) << 16u32) | ((
            d2 as u32) << 11u32) | ((f2 as u32) << 8u32) | (o2 as u32 & 0xFC)),
    ;
}

/// One function of a device.
#[derive(Clone, Copy, PartialEq, Eq, Debug, Structural)]
pub struct Device {
    pub bus: u8,
    pub dev: u8,
    pub func: u8,
    pub vendor: u16,
    pub device: u16,
    pub class: u8,
    pub subclass: u8,
}

/// Where a function is, in one word.
pub open spec fn packed_bdf(bus: u8, dev: u8, func: u8) -> int {
    bus * 0x1_0000 + dev * 0x100 + func
}

impl Device {
    /// Where the function is, in one word.
    pub fn bdf(&self) -> (w: u32)
        ensures
            w == packed_bdf(self.bus, self.dev, self.func),
    {
        self.bus as u32 * 0x1_0000 + self.dev as u32 * 0x100 + self.func as u32
    }

    /// The register of base address `i`.
    pub fn bar(i: u8) -> (off: u8)
        requires
            i < 60,
        ensures
            off == 0x10 + i * 4,
    {
        0x10 + i * 4
    }

    /// The interrupt line, from the register that holds it: its low byte.
    pub fn irq_line(reg: u32) -> (line: u8)
        ensures
            line == reg % 256,
    {
        (reg % 256) as u8
    }

    /// What a memory base address covers, from its register `orig` and what `mask` the
    /// register holds after all ones were written to it. Nothing for an I/O address.
    pub fn bar_region(orig: u32, mask: u32) -> (r: (u64, u64))
        ensures
            r == (if orig & 1 != 0 {
                (0u64, 0u64)
            } else {
                ((orig & 0xFFFF_FFF0) as u64, region_size(mask))
            }),
    {
        if orig & 1 != 0 {
            return (0, 0);
        }
        let low: u32 = !(mask & 0xFFFF_FFF0);
        ((orig & 0xFFFF_FFF0) as u64, low.wrapping_add(1) as u64)
    }
}

/// What to write to a base address register that holds `orig`, to learn its size: all
/// ones, and then what it held, so that it ends as it was. An I/O address is left alone.
pub fn bar_writes(orig: u32) -> (w: Option<(u32, u32)>)
    ensures
        w == (if orig & 1 != 0 {
            None
        } else {
            Some((0xFFFF_FFFFu32, orig))
        }),
{
    if orig & 1 != 0 {
        None
    } else {
        Some((0xFFFF_FFFF, orig))
    }
}

/// Size of a region whose size mask is `mask`: the address bits that stay zero, plus one.
pub open spec fn region_size(mask: u32) -> u64 {
    let low = !(mask & 0xFFFF_FFF0u32);
    if low == u32::MAX {
        0
    } else {
        (low + 1) as u64
    }
}

/// A device that decodes a power of two of at least sixteen bytes shows just that size.
pub proof fn law_region_size(size: u32, flags: u32)
    requires
        size >= 16,
        size & ((size - 1) as u32) == 0,
        flags < 16,
    ensures
        region_size(!((size - 1) as u32) | flags) == size,
{
    let m = (size - 1) as u32;
    assert(!((!m | flags) & 0xFFFF_FFF0u32) == m) by (bit_vector)
        requires
            size >= 16,
            size & m == 0,
            m == size - 1,
            flags < 16,
    ;
}

/// Where the function with the packed address `w` is.
pub fn unpack_bdf(w: u32) -> (r: (u8, u8, u8))
    ensures
        r == ((w as int / 0x1_0000 % 256) as u8, (w as int / 0x100 % 256) as u8, (w as int % 256) as u8),
{
    (((w / 0x1_0000) % 256) as u8, ((w / 0x100) % 256) as u8, (w % 256) as u8)
}

/// Packing where a function is loses nothing.
pub proof fn law_bdf_round_trip(bus: u8, dev: u8, func: u8)
    ensures
        ({
            let w = packed_bdf(bus, dev, func);
            w / 0x1_0000 % 256 == bus && w / 0x100 % 256 == dev && w % 256 == func
        }),
{
}

/// The function at an address, from its identification and class registers; none if
/// nothing answers there.
pub open spec fn found(bus: u8, dev: u8, func: u8, id: u32, class_reg: u32) -> Option<Device> {
    if id % 0x1_0000 == 0xFFFF {
        None
    } else {
        Some(
            Device {
                bus,
                dev,
                func,
                vendor: (id % 0x1_0000) as u16,
                device: (id / 0x1_0000) as u16,
                class: (class_reg / 0x100_0000) as u8,
                subclass: (class_reg / 0x1_0000 % 256) as u8,
            },
        )
    }
}

/// The function at an address, from its registers.
pub fn probe(bus: u8, dev: u8, func: u8, id: u32, class_reg: u32) -> (r: Option<Device>)
    ensures
        r == found(bus, dev, func, id, class_reg),
{
    let vendor: u32 = id % 0x1_0000;
    if vendor == 0xFFFF {
        return None;
    }
    Some(
        Device {
            bus,
            dev,
            func,
            vendor: vendor as u16,
            device: (id / 0x1_0000) as u16,
            class: (class_reg / 0x100_0000) as u8,
            subclass: (class_reg / 0x1_0000 % 256) as u8,
        },
    )
}

/// A scan of the bus under way: where it looks next, and the network controller found.
#[derive(Clone, Copy, PartialEq, Eq, Debug, Structural)]
pub struct Scan {
    pub bus: u16,
    pub dev: u8,
    pub func: u8,
    pub nic: Option<Device>,
}

impl Scan {
    pub open spec fn wf(&self) -> bool {
        &&& self.bus <= 256
        &&& self.dev < 32
        &&& self.func < 8
        &&& self.bus == 256 ==> self.dev == 0 && self.func == 0
    }

    /// The whole bus has been looked at.
    pub open spec fn over(&self) -> bool {
        self.bus == 256
    }

    /// Functions still to look at, at most.
    pub open spec fn left(&self) -> int {
        (256 - self.bus) * 256 - self.dev * 8 - self.func
    }
}

/// The start of a scan.
pub fn enumerate() -> (s: Scan)
    ensures
        s == (Scan { bus: 0, dev: 0, func: 0, nic: None }),
        s.wf(),
{
    Scan { bus: 0, dev: 0, func: 0, nic: None }
}

/// Where a scan looks after `s`: the next function, or past the device if `skip`.
pub open spec fn next_place(s: Scan, skip: bool) -> (int, int, int) {
    if !skip && s.func < 7 {
        (s.bus as int, s.dev as int, s.func + 1)
    } else if s.dev < 31 {
        (s.bus as int, s.dev + 1, 0)
    } else {
        (s.bus + 1, 0, 0)
    }
}

/// The first function of a device that is alone there, by its header register.
pub open spec fn single(s: Scan, d: Option<Device>, header: u32) -> bool {
    d is Some && s.func == 0 && header & MULTI_FUNCTION == 0
}

/// A scan after it looked at a function with these registers.
pub open spec fn stepped(s: Scan, id: u32, class_reg: u32, header: u32) -> Scan {
    let d = found(s.bus as u8, s.dev, s.func, id, class_reg);
    let p = next_place(s, single(s, d, header));
    Scan {
        bus: p.0 as u16,
        dev: p.1 as u8,
        func: p.2 as u8,
        nic: if s.nic is None && d is Some && d->0.class == CLASS_NETWORK {
            d
        } else {
            s.nic
        },
    }
}

/// Go on with a scan, given the registers of the function it looked at. The first network
/// controller is kept. A device with one function is not looked at further.
pub fn scan_step(s: &Scan, id: u32, class_reg: u32, header: u32) -> (t: Scan)
    requires
        s.wf(),
        !s.over(),
    ensures
        t.wf(),
        t == stepped(*s, id, class_reg, header),
        t.left() < s.left(),
        t.left() >= 0,
{
    let d = probe(s.bus as u8, s.dev, s.func, id, class_reg);
    let mut nic: Option<Device> = s.nic;
    let mut skip = false;
    if let Some(x) = d {
        if x.class == CLASS_NETWORK && nic.is_none() {
            nic = Some(x);
        }
        skip = s.func == 0 && header & MULTI_FUNCTION == 0;
    }
    if !skip && s.func < 7 {
        Scan { bus: s.bus, dev: s.dev, func: s.func + 1, nic }
    } else if s.dev < 31 {
        Scan { bus: s.bus, dev: s.dev + 1, func: 0, nic }
    } else {
        Scan { bus: s.bus + 1, dev: 0, func: 0, nic }
    }
}

/// The identification, class and header registers of each function on a bus.
pub type Registers = spec_fn(int, int, int) -> (u32, u32, u32);

/// The scan after looking at the function it is at.
pub open spec fn looked(s: Scan, regs: Registers) -> Scan {
    let r = regs(s.bus as int, s.dev as int, s.func as int);
    stepped(s, r.0, r.1, r.2)
}

/// What a scan finds when it goes on to the end.
pub open spec fn scanned(s: Scan, regs: Registers) -> Option<Device>
    decreases s.left(),
    when s.wf()
{
    if s.over() {
        s.nic
    } else {
        scanned(looked(s, regs), regs)
    }
}

/// A step of a scan leaves less to look at.
pub proof fn lemma_step(s: Scan, regs: Registers)
    requires
        s.wf(),
        !s.over(),
    ensures
        looked(s, regs).wf(),
        0 <= looked(s, regs).left() < s.left(),
{
}

/// `d` is a network controller on the bus.
pub open spec fn is_controller(d: Device, regs: Registers) -> bool {
    let r = regs(d.bus as int, d.dev as int, d.func as int);
    d.class == CLASS_NETWORK && found(d.bus, d.dev, d.func, r.0, r.1) == Some(d)
}

/// A scan that finds something finds a network controller that is on the bus.
pub proof fn law_scan_finds_a_controller(s: Scan, regs: Registers)
    requires
        s.wf(),
        s.nic is Some ==> is_controller(s.nic->0, regs),
    ensures
        scanned(s, regs) is Some ==> is_controller(scanned(s, regs)->0, regs),
        s.nic is Some ==> scanned(s, regs) == s.nic,
    decreases s.left(),
{
    if !s.over() {
        lemma_step(s, regs);
        law_scan_finds_a_controller(looked(s, regs), regs);
    }
}

/// A whole scan finds a controller if the first function of any device is one.
pub proof fn law_controller_is_found(s: Scan, regs: Registers, bus: u8, dev: u8)
    requires
        s.wf(),
        dev < 32,
        s.bus * 256 + s.dev * 8 + s.func <= bus * 256 + dev * 8,
        ({
            let r = regs(bus as int, dev as int, 0);
            let d = found(bus, dev, 0, r.0, r.1);
            d is Some && d->0.class == CLASS_NETWORK
        }),
    ensures
        scanned(s, regs) is Some,
    decreases s.left(),
{
    lemma_step(s, regs);
    let t = looked(s, regs);
    if t.nic is Some {
        lemma_found_stays(t, regs);
    } else {
        law_controller_is_found(t, regs, bus, dev);
    }
}

proof fn lemma_found_stays(s: Scan, regs: Registers)
    requires
        s.wf(),
        s.nic is Some,
    ensures
        scanned(s, regs) == s.nic,
    decreases s.left(),
{
    if !s.over() {
        lemma_step(s, regs);
        lemma_found_stays(looked(s, regs), regs);
    }
}

} // verus!
