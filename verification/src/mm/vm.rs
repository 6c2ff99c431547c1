//! Page tables: where pages go, what protection they get, and what a table tree holds.
//!
//! Physical memory is a slice of 64-bit words: word `w` lies at physical address `8 * w`.
use vstd::prelude::*;
use crate::mm::mem;
use crate::mm::mem::{FrameObj, Frames};
use crate::mm::pmm;
use crate::mm::pmm::{MemRegion, Pmm, RegionKind};

verus! {

pub const PAGE_4K: u64 = 4096;
pub const PAGE_2M: u64 = 0x20_0000;

/// First address past the user half.
pub const LOWER_HALF_END: u64 = 0x0000_8000_0000_0000;

/// First address of the kernel half.
pub const UPPER_HALF_START: u64 = 0xffff_8000_0000_0000;

// Page-table entry bits.
pub const PTE_PRESENT: u64 = 0x1;
pub const PTE_WRITABLE: u64 = 0x2;
pub const PTE_USER: u64 = 0x4;
pub const PTE_NO_CACHE: u64 = 0x10;
pub const PTE_HUGE: u64 = 0x80;
pub const PTE_NO_EXECUTE: u64 = 0x8000_0000_0000_0000;
pub const PTE_ADDR_MASK: u64 = 0x000f_ffff_ffff_f000;

/// `x` rounded up to a multiple of `align`.
pub open spec fn rounded_up(x: int, align: int) -> int {
    ((x + align - 1) / align) * align
}

/// `x` rounded down to a multiple of `align`.
pub open spec fn rounded_down(x: int, align: int) -> int {
    (x / align) * align
}

/// Round up to a whole number of 4 KiB pages.
pub fn align_up_4k(x: u64) -> (r: u64)
    requires
        x + 4095 <= u64::MAX,
    ensures
        r == rounded_up(x as int, 4096),
        r % 4096 == 0,
        x <= r < x + 4096,
{
    let y: u64 = x + 4095;
    assert(y & !4095u64 == y - y % 4096) by (bit_vector);
    y & !(PAGE_4K - 1)
}

/// Round down to a whole number of 4 KiB pages.
pub fn align_down_4k(x: u64) -> (r: u64)
    ensures
        r == rounded_down(x as int, 4096),
        r % 4096 == 0,
        r <= x < r + 4096,
{
    assert(x & !4095u64 == x - x % 4096) by (bit_vector);
    x & !(PAGE_4K - 1)
}

/// Round up to a whole number of 2 MiB pages.
pub fn align_up_2m(x: u64) -> (r: u64)
    requires
        x + 0x1f_ffff <= u64::MAX,
    ensures
        r == rounded_up(x as int, 0x20_0000),
        r % 0x20_0000 == 0,
        x <= r < x + 0x20_0000,
{
    let y: u64 = x + 0x1f_ffff;
    assert(y & !0x1f_ffffu64 == y - y % 0x20_0000) by (bit_vector);
    y & !(PAGE_2M - 1)
}

/// Memory the kernel reads or writes through its direct map.
pub open spec fn touched(e: MemRegion) -> bool {
    e.kind == RegionKind::Usable || e.kind == RegionKind::BootloaderReclaimable || e.kind
        == RegionKind::ExecutableAndModules
}

/// Highest end of a region the kernel touches.
pub open spec fn max_touched(map: Seq<MemRegion>) -> int
    decreases map.len(),
{
    if map.len() == 0 {
        0
    } else {
        let rest = max_touched(map.drop_last());
        let e = map.last();
        if touched(e) && e.base + e.length > rest {
            e.base + e.length
        } else {
            rest
        }
    }
}

/// Physical extent of the direct map: every address below it is mapped, in 2 MiB pages.
pub fn hhdm_extent(map: &[MemRegion]) -> (end: u64)
    requires
        forall|i: int|
            0 <= i < map@.len() && touched(#[trigger] map@[i]) ==> map@[i].base + map@[i].length
                + PAGE_2M <= u64::MAX,
    ensures
        end == rounded_up(max_touched(map@), PAGE_2M as int),
        forall|i: int|
            0 <= i < map@.len() && touched(#[trigger] map@[i]) ==> map@[i].base + map@[i].length
                <= end,
{
    let mut max_phys: u64 = 0;
    let mut i: usize = 0;
    assert(map@.subrange(0, 0) =~= Seq::<MemRegion>::empty());
    while i < map.len()
        invariant
            i <= map@.len(),
            max_phys == max_touched(map@.subrange(0, i as int)),
            max_phys + PAGE_2M <= u64::MAX,
            forall|k: int|
                0 <= k < map@.len() && touched(#[trigger] map@[k]) ==> map@[k].base
                    + map@[k].length + PAGE_2M <= u64::MAX,
            forall|k: int|
                0 <= k < i && touched(#[trigger] map@[k]) ==> map@[k].base + map@[k].length
                    <= max_phys,
        decreases map@.len() - i,
    {
        let e = map[i];
        proof {
            let now = map@.subrange(0, i + 1);
            assert(now.drop_last() =~= map@.subrange(0, i as int));
            assert(now.last() == e);
        }
        let reach = e.kind == RegionKind::Usable || e.kind == RegionKind::BootloaderReclaimable
            || e.kind == RegionKind::ExecutableAndModules;
        if reach {
            let end: u64 = e.base + e.length;
            if end > max_phys {
                max_phys = end;
            }
        }
        i += 1;
    }
    assert(map@.subrange(0, map@.len() as int) =~= map@);
    align_up_2m(max_phys)
}

/// An entry's protection lets a page be written or executed, never both.
pub open spec fn w_xor_x(flags: u64) -> bool {
    flags & PTE_WRITABLE == 0 || flags & PTE_NO_EXECUTE != 0
}

/// Entry bits of a user page.
pub open spec fn user_bits(writable: bool, executable: bool) -> u64 {
    if writable {
        PTE_PRESENT | PTE_USER | PTE_WRITABLE | PTE_NO_EXECUTE
    } else if executable {
        PTE_PRESENT | PTE_USER
    } else {
        PTE_PRESENT | PTE_USER | PTE_NO_EXECUTE
    }
}

/// Entry bits of a user page. Writable and executable at once is not to be had.
pub fn user_flags(writable: bool, executable: bool) -> (f: u64)
    requires
        !(writable && executable),
    ensures
        f == user_bits(writable, executable),
        w_xor_x(f),
        f & PTE_PRESENT != 0,
        f & PTE_USER != 0,
        (f & PTE_WRITABLE != 0) == writable,
        (f & PTE_NO_EXECUTE == 0) == executable,
{
    proof {
        lemma_flag_bits();
    }
    if writable {
        PTE_PRESENT | PTE_USER | PTE_WRITABLE | PTE_NO_EXECUTE
    } else if executable {
        PTE_PRESENT | PTE_USER
    } else {
        PTE_PRESENT | PTE_USER | PTE_NO_EXECUTE
    }
}

proof fn lemma_flag_bits()
    by (bit_vector)
    ensures
        (0x1u64 | 0x4 | 0x2 | 0x8000_0000_0000_0000) & 0x1 != 0,
        (0x1u64 | 0x4 | 0x2 | 0x8000_0000_0000_0000) & 0x4 != 0,
        (0x1u64 | 0x4 | 0x2 | 0x8000_0000_0000_0000) & 0x2 != 0,
        (0x1u64 | 0x4 | 0x2 | 0x8000_0000_0000_0000) & 0x8000_0000_0000_0000 != 0,
        (0x1u64 | 0x4) & 0x1 != 0,
        (0x1u64 | 0x4) & 0x4 != 0,
        (0x1u64 | 0x4) & 0x2 == 0,
        (0x1u64 | 0x4) & 0x8000_0000_0000_0000 == 0,
        (0x1u64 | 0x4 | 0x8000_0000_0000_0000) & 0x1 != 0,
        (0x1u64 | 0x4 | 0x8000_0000_0000_0000) & 0x4 != 0,
        (0x1u64 | 0x4 | 0x8000_0000_0000_0000) & 0x2 == 0,
        (0x1u64 | 0x4 | 0x8000_0000_0000_0000) & 0x8000_0000_0000_0000 != 0,
        (0x1u64 | 0x4 | 0x2 | 0x8000_0000_0000_0000 | 0x10) & 0x8000_0000_0000_0000 != 0,
        (0x1u64 | 0x2 | 0x8000_0000_0000_0000 | 0x10) & 0x8000_0000_0000_0000 != 0,
        (0x1u64 | 0x2 | 0x8000_0000_0000_0000 | 0x10) & 0x4 == 0,
{
}

/// Entry bits of a device register page in user space: writable, uncached, never code.
pub fn mmio_flags() -> (f: u64)
    ensures
        f == PTE_PRESENT | PTE_USER | PTE_WRITABLE | PTE_NO_EXECUTE | PTE_NO_CACHE,
        w_xor_x(f),
{
    proof {
        lemma_flag_bits();
    }
    PTE_PRESENT | PTE_USER | PTE_WRITABLE | PTE_NO_EXECUTE | PTE_NO_CACHE
}

/// Entry bits of a device register page of the kernel's own.
pub fn mmio_kernel_flags() -> (f: u64)
    ensures
        f == PTE_PRESENT | PTE_WRITABLE | PTE_NO_EXECUTE | PTE_NO_CACHE,
        w_xor_x(f),
        f & PTE_USER == 0,
{
    proof {
        lemma_flag_bits();
    }
    PTE_PRESENT | PTE_WRITABLE | PTE_NO_EXECUTE | PTE_NO_CACHE
}

/// One page to map: its address and the frame behind it.
#[derive(Clone, Copy)]
pub struct PageMap {
    pub virt: u64,
    pub phys: u64,
}

/// The section `[vstart, vend)` lies in the kernel image and in memory.
pub open spec fn section_fits(vstart: u64, vend: u64, kphys: u64, kvirt: u64) -> bool {
    &&& vstart <= vend
    &&& vend + 4095 <= u64::MAX
    &&& kvirt <= rounded_down(vstart as int, 4096)
    &&& vend + 4096 - kvirt + kphys <= u64::MAX
}

/// `pages` are the pages of the kernel image section `[vstart, vend)`.
pub open spec fn is_section(
    pages: Seq<PageMap>,
    vstart: u64,
    vend: u64,
    kphys: u64,
    kvirt: u64,
) -> bool {
    &&& pages.len() == (rounded_up(vend as int, 4096) - rounded_down(vstart as int, 4096)) / 4096
    &&& forall|i: int|
        0 <= i < pages.len() ==> {
            &&& (#[trigger] pages[i]).virt == rounded_down(vstart as int, 4096) + i * 4096
            &&& pages[i].phys == pages[i].virt - kvirt + kphys
        }
}

/// The pages of the kernel image section `[vstart, vend)`. The image is contiguous:
/// the section lies at the same distance from `kphys` as from `kvirt`.
pub fn map_kernel_section(vstart: u64, vend: u64, kphys: u64, kvirt: u64) -> (pages: Vec<PageMap>)
    requires
        section_fits(vstart, vend, kphys, kvirt),
    ensures
        is_section(pages@, vstart, vend, kphys, kvirt),
{
    let start: u64 = align_down_4k(vstart);
    let end: u64 = align_up_4k(vend);
    let mut pages: Vec<PageMap> = Vec::new();
    let mut v: u64 = start;
    while v < end
        invariant
            start <= v <= end,
            start % 4096 == 0,
            end % 4096 == 0,
            v == start + pages@.len() * 4096,
            end < vend + 4096,
            kvirt <= start,
            vend + 4096 - kvirt + kphys <= u64::MAX,
            forall|i: int|
                0 <= i < pages@.len() ==> {
                    &&& (#[trigger] pages@[i]).virt == start + i * 4096
                    &&& pages@[i].phys == pages@[i].virt - kvirt + kphys
                },
        decreases end - v,
    {
        let phys: u64 = v - kvirt + kphys;
        pages.push(PageMap { virt: v, phys });
        v += PAGE_4K;
    }
    pages
}

/// Pages that are mapped alike.
pub struct Mapping {
    pub pages: Vec<PageMap>,
    pub flags: u64,
}

/// What the kernel's own address space maps.
pub struct KernelSpace {
    /// All memory that is touched, in pages of 2 MiB.
    pub direct: Mapping,
    pub text: Mapping,
    pub rodata: Mapping,
    pub data: Mapping,
}

/// Where the kernel image is: its sections, and its first byte in memory and in its
/// address space.
#[derive(Clone, Copy)]
pub struct KernelImage {
    pub text: (u64, u64),
    pub rodata: (u64, u64),
    pub data: (u64, u64),
    pub phys: u64,
    pub virt: u64,
}

impl KernelImage {
    /// Every section can be mapped.
    pub open spec fn wf(&self) -> bool {
        &&& section_fits(self.text.0, self.text.1, self.phys, self.virt)
        &&& section_fits(self.rodata.0, self.rodata.1, self.phys, self.virt)
        &&& section_fits(self.data.0, self.data.1, self.phys, self.virt)
    }
}

/// `r` maps all memory that is touched at `hhdm`, and the sections of the kernel image.
pub open spec fn is_plan(r: KernelSpace, map: Seq<MemRegion>, hhdm: u64, image: KernelImage) -> bool {
    let n = rounded_up(max_touched(map), PAGE_2M as int) / PAGE_2M as int;
    &&& r.direct.pages@ == Seq::new(
        n as nat,
        |i: int| PageMap { virt: (hhdm + i * PAGE_2M) as u64, phys: (i * PAGE_2M) as u64 },
    )
    &&& r.direct.flags == PTE_PRESENT | PTE_WRITABLE | PTE_NO_EXECUTE
    &&& is_section(r.text.pages@, image.text.0, image.text.1, image.phys, image.virt)
    &&& r.text.flags == PTE_PRESENT
    &&& is_section(r.rodata.pages@, image.rodata.0, image.rodata.1, image.phys, image.virt)
    &&& r.rodata.flags == PTE_PRESENT | PTE_NO_EXECUTE
    &&& is_section(r.data.pages@, image.data.0, image.data.1, image.phys, image.virt)
    &&& r.data.flags == PTE_PRESENT | PTE_WRITABLE | PTE_NO_EXECUTE
}

/// Plan the kernel's own address space: all memory that is touched at `hhdm`, and each
/// section of the kernel image with no more than it needs. Code is never writable, and
/// nothing else is code.
pub fn init(map: &[MemRegion], hhdm: u64, image: &KernelImage) -> (r: KernelSpace)
    requires
        forall|i: int|
            0 <= i < map@.len() && touched(#[trigger] map@[i]) ==> map@[i].base + map@[i].length
                + PAGE_2M <= u64::MAX,
        hhdm + rounded_up(max_touched(map@), PAGE_2M as int) <= u64::MAX,
        image.wf(),
    ensures
        is_plan(r, map@, hhdm, *image),
{
    let end: u64 = hhdm_extent(map);
    let mut pages: Vec<PageMap> = Vec::new();
    let mut phys: u64 = 0;
    while phys < end
        invariant
            phys <= end,
            end % PAGE_2M == 0,
            hhdm + end <= u64::MAX,
            phys == pages@.len() * PAGE_2M,
            pages@ =~= Seq::new(
                pages@.len(),
                |i: int| PageMap { virt: (hhdm + i * PAGE_2M) as u64, phys: (i * PAGE_2M) as u64 },
            ),
        decreases end - phys,
    {
        pages.push(PageMap { virt: hhdm + phys, phys });
        phys += PAGE_2M;
    }
    let direct = Mapping { pages, flags: PTE_PRESENT | PTE_WRITABLE | PTE_NO_EXECUTE };
    let text = Mapping {
        pages: map_kernel_section(image.text.0, image.text.1, image.phys, image.virt),
        flags: PTE_PRESENT,
    };
    let rodata = Mapping {
        pages: map_kernel_section(image.rodata.0, image.rodata.1, image.phys, image.virt),
        flags: PTE_PRESENT | PTE_NO_EXECUTE,
    };
    let data = Mapping {
        pages: map_kernel_section(image.data.0, image.data.1, image.phys, image.virt),
        flags: PTE_PRESENT | PTE_WRITABLE | PTE_NO_EXECUTE,
    };
    KernelSpace { direct, text, rodata, data }
}

/// No page of the kernel's own address space can be written and executed, and no program
/// can reach one.
pub proof fn law_kernel_w_xor_x(r: KernelSpace, map: Seq<MemRegion>, hhdm: u64, image: KernelImage)
    requires
        is_plan(r, map, hhdm, image),
    ensures
        w_xor_x(r.direct.flags) && r.direct.flags & PTE_USER == 0,
        w_xor_x(r.text.flags) && r.text.flags & PTE_USER == 0,
        w_xor_x(r.rodata.flags) && r.rodata.flags & PTE_USER == 0,
        w_xor_x(r.data.flags) && r.data.flags & PTE_USER == 0,
{
    assert(0x1u64 & 0x2 == 0 && (0x1u64 | 0x8000_0000_0000_0000) & 0x2 == 0 && (0x1u64 | 0x2
        | 0x8000_0000_0000_0000) & 0x8000_0000_0000_0000 != 0 && 0x1u64 & 0x4 == 0 && (0x1u64
        | 0x8000_0000_0000_0000) & 0x4 == 0 && (0x1u64 | 0x2 | 0x8000_0000_0000_0000) & 0x4 == 0)
        by (bit_vector);
}

/// Every byte of a touched region is reached through the direct map, at its offset.
pub proof fn law_direct_map_covers(
    r: KernelSpace,
    map: Seq<MemRegion>,
    hhdm: u64,
    image: KernelImage,
    j: int,
    phys: int,
)
    requires
        is_plan(r, map, hhdm, image),
        0 <= j < map.len(),
        touched(map[j]),
        map[j].base <= phys < map[j].base + map[j].length,
        hhdm + rounded_up(max_touched(map), PAGE_2M as int) <= u64::MAX,
    ensures
        ({
            let i = phys / PAGE_2M as int;
            &&& 0 <= i < r.direct.pages@.len()
            &&& r.direct.pages@[i].phys <= phys < r.direct.pages@[i].phys + PAGE_2M
            &&& r.direct.pages@[i].virt - r.direct.pages@[i].phys == hhdm
        }),
{
    lemma_max_touched(map, j);
    let i = phys / PAGE_2M as int;
    let n = rounded_up(max_touched(map), PAGE_2M as int) / PAGE_2M as int;
    assert(0 <= i < n);
    assert(hhdm + i * PAGE_2M <= u64::MAX);
}

proof fn lemma_max_touched(map: Seq<MemRegion>, j: int)
    requires
        0 <= j < map.len(),
        touched(map[j]),
    ensures
        map[j].base + map[j].length <= max_touched(map),
    decreases map.len(),
{
    if j < map.len() - 1 {
        lemma_max_touched(map.drop_last(), j);
    }
}

/// Index of `va` in the tables of each level, the root first.
pub open spec fn index4(va: u64) -> u64 {
    (va >> 39) & 0x1ff
}

pub open spec fn index3(va: u64) -> u64 {
    (va >> 30) & 0x1ff
}

pub open spec fn index2(va: u64) -> u64 {
    (va >> 21) & 0x1ff
}

pub open spec fn index1(va: u64) -> u64 {
    (va >> 12) & 0x1ff
}

/// The table at physical address `t` lies in memory.
pub open spec fn table_in(ram: Seq<u64>, t: u64) -> bool {
    t / 8 + 512 <= ram.len()
}

/// Entry `i` of the table at physical address `t`.
pub open spec fn entry_at(ram: Seq<u64>, t: u64, i: u64) -> u64 {
    ram[t / 8 + i]
}

/// The table an entry points to.
pub open spec fn table_of(e: u64) -> u64 {
    e & PTE_ADDR_MASK
}

pub open spec fn present(e: u64) -> bool {
    e & PTE_PRESENT != 0
}

pub open spec fn huge(e: u64) -> bool {
    e & PTE_HUGE != 0
}

/// Read entry `i` of the table at physical address `t`.
pub fn read_entry(ram: &[u64], t: u64, i: u64) -> (e: u64)
    requires
        table_in(ram@, t),
        i < 512,
    ensures
        e == entry_at(ram@, t, i),
{
    ram[(t / 8 + i) as usize]
}

/// What the walk for `va` meets: how many of its tables are there, and whether a page.
#[derive(Clone, Copy, PartialEq, Eq, Debug, Structural)]
pub enum Probe {
    /// A page is mapped.
    Mapped,
    /// Every table is there, the page is not.
    Vacant,
    /// The last-level table is missing.
    NoTable1,
    /// The two lower tables are missing.
    NoTable2,
    /// All three tables below the root are missing.
    NoTable3,
}

/// What the walk for `va` from `root` meets.
pub open spec fn probe(ram: Seq<u64>, root: u64, va: u64) -> Probe {
    let e4 = entry_at(ram, root, index4(va));
    let e3 = entry_at(ram, table_of(e4), index3(va));
    let e2 = entry_at(ram, table_of(e3), index2(va));
    let e1 = entry_at(ram, table_of(e2), index1(va));
    if !present(e4) {
        Probe::NoTable3
    } else if !present(e3) {
        Probe::NoTable2
    } else if huge(e3) {
        Probe::Mapped
    } else if !present(e2) {
        Probe::NoTable1
    } else if huge(e2) || present(e1) {
        Probe::Mapped
    } else {
        Probe::Vacant
    }
}

/// Every table the walk for `va` reads lies in memory.
pub open spec fn walk_in(ram: Seq<u64>, root: u64, va: u64) -> bool {
    let e4 = entry_at(ram, root, index4(va));
    let e3 = entry_at(ram, table_of(e4), index3(va));
    let e2 = entry_at(ram, table_of(e3), index2(va));
    &&& table_in(ram, root)
    &&& present(e4) ==> {
        &&& table_in(ram, table_of(e4))
        &&& present(e3) && !huge(e3) ==> {
            &&& table_in(ram, table_of(e3))
            &&& present(e2) && !huge(e2) ==> table_in(ram, table_of(e2))
        }
    }
}

pub proof fn lemma_index_bounds(va: u64)
    ensures
        index4(va) < 512,
        index3(va) < 512,
        index2(va) < 512,
        index1(va) < 512,
{
    assert((va >> 39) & 0x1ff < 512) by (bit_vector);
    assert((va >> 30) & 0x1ff < 512) by (bit_vector);
    assert((va >> 21) & 0x1ff < 512) by (bit_vector);
    assert((va >> 12) & 0x1ff < 512) by (bit_vector);
}

/// Walk the tables for one page.
pub fn probe_page(ram: &[u64], root: u64, va: u64) -> (r: Probe)
    requires
        walk_in(ram@, root, va),
    ensures
        r == probe(ram@, root, va),
{
    proof {
        lemma_index_bounds(va);
    }
    let e4: u64 = read_entry(ram, root, (va >> 39) & 0x1ff);
    if e4 & PTE_PRESENT == 0 {
        return Probe::NoTable3;
    }
    let e3: u64 = read_entry(ram, e4 & PTE_ADDR_MASK, (va >> 30) & 0x1ff);
    if e3 & PTE_PRESENT == 0 {
        return Probe::NoTable2;
    }
    if e3 & PTE_HUGE != 0 {
        return Probe::Mapped;
    }
    let e2: u64 = read_entry(ram, e3 & PTE_ADDR_MASK, (va >> 21) & 0x1ff);
    if e2 & PTE_PRESENT == 0 {
        return Probe::NoTable1;
    }
    if e2 & PTE_HUGE != 0 {
        return Probe::Mapped;
    }
    let e1: u64 = read_entry(ram, e2 & PTE_ADDR_MASK, (va >> 12) & 0x1ff);
    if e1 & PTE_PRESENT != 0 {
        return Probe::Mapped;
    }
    Probe::Vacant
}

/// Address of page `p` of a range.
pub open spec fn page_at(vaddr: u64, p: int) -> u64 {
    (vaddr + p * 4096) as u64
}

/// Keys of the tables of each level that the first `n` pages of a range lack: a table is
/// named by the part of the address that it serves.
pub open spec fn lacking3(ram: Seq<u64>, root: u64, vaddr: u64, n: int) -> Set<u64>
    decreases n,
{
    if n <= 0 {
        Set::empty()
    } else {
        let va = page_at(vaddr, n - 1);
        let rest = lacking3(ram, root, vaddr, n - 1);
        if probe(ram, root, va) == Probe::NoTable3 {
            rest.insert(va >> 39)
        } else {
            rest
        }
    }
}

pub open spec fn lacking2(ram: Seq<u64>, root: u64, vaddr: u64, n: int) -> Set<u64>
    decreases n,
{
    if n <= 0 {
        Set::empty()
    } else {
        let va = page_at(vaddr, n - 1);
        let rest = lacking2(ram, root, vaddr, n - 1);
        let w = probe(ram, root, va);
        if w == Probe::NoTable3 || w == Probe::NoTable2 {
            rest.insert(va >> 30)
        } else {
            rest
        }
    }
}

pub open spec fn lacking1(ram: Seq<u64>, root: u64, vaddr: u64, n: int) -> Set<u64>
    decreases n,
{
    if n <= 0 {
        Set::empty()
    } else {
        let va = page_at(vaddr, n - 1);
        let rest = lacking1(ram, root, vaddr, n - 1);
        let w = probe(ram, root, va);
        if w == Probe::NoTable3 || w == Probe::NoTable2 || w == Probe::NoTable1 {
            rest.insert(va >> 21)
        } else {
            rest
        }
    }
}

/// Page tables that mapping the first `n` pages of a range would have to add.
pub open spec fn tables_lacking(ram: Seq<u64>, root: u64, vaddr: u64, n: int) -> nat {
    lacking3(ram, root, vaddr, n).len() + lacking2(ram, root, vaddr, n).len() + lacking1(
        ram,
        root,
        vaddr,
        n,
    ).len()
}

/// One of the first `n` pages of a range is mapped.
pub open spec fn occupied(ram: Seq<u64>, root: u64, vaddr: u64, n: int) -> bool {
    exists|p: int|
        0 <= p < n && #[trigger] probe(ram, root, page_at(vaddr, p)) == Probe::Mapped
}

/// A page of 4 KiB is mapped at `va`.
pub open spec fn small_page(ram: Seq<u64>, root: u64, va: u64) -> bool {
    let e4 = entry_at(ram, root, index4(va));
    let e3 = entry_at(ram, table_of(e4), index3(va));
    let e2 = entry_at(ram, table_of(e3), index2(va));
    let e1 = entry_at(ram, table_of(e2), index1(va));
    present(e4) && present(e3) && !huge(e3) && present(e2) && !huge(e2) && present(e1)
}

/// Whether a page of 4 KiB is mapped at `va`.
fn is_small_page(ram: &[u64], root: u64, va: u64) -> (b: bool)
    requires
        walk_in(ram@, root, va),
    ensures
        b == small_page(ram@, root, va),
{
    proof {
        lemma_index_bounds(va);
    }
    let e4: u64 = read_entry(ram, root, (va >> 39) & 0x1ff);
    if e4 & PTE_PRESENT == 0 {
        return false;
    }
    let e3: u64 = read_entry(ram, e4 & PTE_ADDR_MASK, (va >> 30) & 0x1ff);
    if e3 & PTE_PRESENT == 0 || e3 & PTE_HUGE != 0 {
        return false;
    }
    let e2: u64 = read_entry(ram, e3 & PTE_ADDR_MASK, (va >> 21) & 0x1ff);
    if e2 & PTE_PRESENT == 0 || e2 & PTE_HUGE != 0 {
        return false;
    }
    let e1: u64 = read_entry(ram, e2 & PTE_ADDR_MASK, (va >> 12) & 0x1ff);
    e1 & PTE_PRESENT != 0
}

/// The first page from `i` up, of a range of `n`, that is not mapped.
pub open spec fn mapped_upto(ram: Seq<u64>, root: u64, vaddr: u64, n: int, i: int) -> int
    decreases n - i,
{
    if i >= n || !small_page(ram, root, page_at(vaddr, i)) {
        i
    } else {
        mapped_upto(ram, root, vaddr, n, i + 1)
    }
}

/// How to change the protection of a range of mapped pages: the leading pages that are
/// mapped get `flags`, and the change succeeds if those are all of them.
pub struct Protection {
    pub pages: u64,
    pub flags: u64,
    pub complete: bool,
}

/// Change the protection of `pages` pages from `vaddr`, never to writable and executable
/// at once. The change stops at the first page that is not mapped.
pub fn protect_user_range(
    ram: &[u64],
    root: u64,
    vaddr: u64,
    pages: u64,
    writable: bool,
    executable: bool,
) -> (r: Protection)
    requires
        !(writable && executable),
        vaddr + pages * 4096 <= u64::MAX,
        forall|p: int| 0 <= p < pages ==> walk_in(ram@, root, #[trigger] page_at(vaddr, p)),
    ensures
        r.pages == mapped_upto(ram@, root, vaddr, pages as int, 0),
        r.complete == (r.pages == pages),
        r.pages <= pages,
        r.flags == user_bits(writable, executable),
        w_xor_x(r.flags),
{
    let flags: u64 = user_flags(writable, executable);
    let mut p: u64 = 0;
    while p < pages
        invariant
            p <= pages,
            vaddr + pages * 4096 <= u64::MAX,
            forall|q: int| 0 <= q < pages ==> walk_in(ram@, root, #[trigger] page_at(vaddr, q)),
            mapped_upto(ram@, root, vaddr, pages as int, 0) == mapped_upto(
                ram@,
                root,
                vaddr,
                pages as int,
                p as int,
            ),
            flags == user_bits(writable, executable),
            w_xor_x(flags),
        decreases pages - p,
    {
        assert(walk_in(ram@, root, page_at(vaddr, p as int)));
        if !is_small_page(ram, root, vaddr + p * 4096) {
            return Protection { pages: p, flags, complete: false };
        }
        p += 1;
    }
    Protection { pages, flags, complete: true }
}

/// A set of keys that were counted in rising order: `seen` is the largest, or the
/// all-ones word when there is none yet.
spec fn counted(s: Set<u64>, seen: u64) -> bool {
    &&& s.finite()
    &&& forall|k: u64| #[trigger] s.contains(k) ==> k <= seen && seen != u64::MAX
    &&& seen != u64::MAX ==> s.contains(seen)
}

proof fn lemma_shift_monotone(a: u64, b: u64)
    requires
        a <= b,
    ensures
        a >> 39 <= b >> 39,
        a >> 30 <= b >> 30,
        a >> 21 <= b >> 21,
        b >> 39 != u64::MAX,
        b >> 30 != u64::MAX,
        b >> 21 != u64::MAX,
{
    assert(a <= b ==> a >> 39 <= b >> 39 && a >> 30 <= b >> 30 && a >> 21 <= b >> 21) by (bit_vector);
    assert(b >> 39 != 0xffff_ffff_ffff_ffff && b >> 30 != 0xffff_ffff_ffff_ffff && b >> 21
        != 0xffff_ffff_ffff_ffff) by (bit_vector);
}

/// Walk the tables over `pages` pages from `vaddr`: an error if any is mapped, else the
/// number of page tables that mapping them all would have to add.
pub fn probe_user_range(ram: &[u64], root: u64, vaddr: u64, pages: u64) -> (r: Result<u64, ()>)
    requires
        vaddr + pages * 4096 <= u64::MAX,
        forall|p: int| 0 <= p < pages ==> walk_in(ram@, root, #[trigger] page_at(vaddr, p)),
    ensures
        r is Err <==> occupied(ram@, root, vaddr, pages as int),
        r is Ok ==> r->Ok_0 == tables_lacking(ram@, root, vaddr, pages as int),
{
    let mut missing: u64 = 0;
    let mut seen3: u64 = u64::MAX;
    let mut seen2: u64 = u64::MAX;
    let mut seen1: u64 = u64::MAX;
    let mut p: u64 = 0;
    while p < pages
        invariant
            p <= pages,
            vaddr + pages * 4096 <= u64::MAX,
            missing <= 3 * p,
            forall|q: int| 0 <= q < pages ==> walk_in(ram@, root, #[trigger] page_at(vaddr, q)),
            !occupied(ram@, root, vaddr, p as int),
            missing == tables_lacking(ram@, root, vaddr, p as int),
            counted(lacking3(ram@, root, vaddr, p as int), seen3),
            counted(lacking2(ram@, root, vaddr, p as int), seen2),
            counted(lacking1(ram@, root, vaddr, p as int), seen1),
            p > 0 ==> {
                let last = page_at(vaddr, p - 1);
                &&& seen3 != u64::MAX ==> seen3 <= last >> 39
                &&& seen2 != u64::MAX ==> seen2 <= last >> 30
                &&& seen1 != u64::MAX ==> seen1 <= last >> 21
            },
        decreases pages - p,
    {
        let va: u64 = vaddr + p * 4096;
        assert(va == page_at(vaddr, p as int));
        proof {
            lemma_shift_monotone(va, va);
            if p > 0 {
                lemma_shift_monotone(page_at(vaddr, p - 1), va);
            }
        }
        let w = probe_page(ram, root, va);
        if w == Probe::Mapped {
            assert(probe(ram@, root, page_at(vaddr, p as int)) == Probe::Mapped);
            return Err(());
        }
        let ghost s3 = lacking3(ram@, root, vaddr, p as int);
        let ghost s2 = lacking2(ram@, root, vaddr, p as int);
        let ghost s1 = lacking1(ram@, root, vaddr, p as int);
        if w == Probe::NoTable3 {
            if va >> 39 != seen3 {
                missing += 1;
                seen3 = va >> 39;
            } else {
                assert(s3.insert(va >> 39) =~= s3);
            }
        }
        if w == Probe::NoTable3 || w == Probe::NoTable2 {
            if va >> 30 != seen2 {
                missing += 1;
                seen2 = va >> 30;
            } else {
                assert(s2.insert(va >> 30) =~= s2);
            }
        }
        if w == Probe::NoTable3 || w == Probe::NoTable2 || w == Probe::NoTable1 {
            if va >> 21 != seen1 {
                missing += 1;
                seen1 = va >> 21;
            } else {
                assert(s1.insert(va >> 21) =~= s1);
            }
        }
        p += 1;
    }
    Ok(missing)
}

/// Something an address space gives up when it is torn down.
pub enum Release {
    /// A mapping of a data frame.
    Page(u64),
    /// A table of the tree.
    Table(u64),
}

/// What the first `n` entries of the last-level table `t` give up.
pub open spec fn released1(ram: Seq<u64>, t: u64, n: int) -> Seq<Release>
    decreases n,
{
    if n <= 0 {
        Seq::empty()
    } else {
        let e = entry_at(ram, t, (n - 1) as u64);
        let rest = released1(ram, t, n - 1);
        if present(e) {
            rest.push(Release::Page(table_of(e)))
        } else {
            rest
        }
    }
}

/// What the first `n` entries of the second-level table `t` give up: everything below
/// each, then the table it points to. A huge page gives up nothing.
pub open spec fn released2(ram: Seq<u64>, t: u64, n: int) -> Seq<Release>
    decreases n,
{
    if n <= 0 {
        Seq::empty()
    } else {
        let e = entry_at(ram, t, (n - 1) as u64);
        let rest = released2(ram, t, n - 1);
        if present(e) && !huge(e) {
            (rest + released1(ram, table_of(e), 512)).push(Release::Table(table_of(e)))
        } else {
            rest
        }
    }
}

/// The same one level up.
pub open spec fn released3(ram: Seq<u64>, t: u64, n: int) -> Seq<Release>
    decreases n,
{
    if n <= 0 {
        Seq::empty()
    } else {
        let e = entry_at(ram, t, (n - 1) as u64);
        let rest = released3(ram, t, n - 1);
        if present(e) && !huge(e) {
            (rest + released2(ram, table_of(e), 512)).push(Release::Table(table_of(e)))
        } else {
            rest
        }
    }
}

/// The same for the root.
pub open spec fn released4(ram: Seq<u64>, t: u64, n: int) -> Seq<Release>
    decreases n,
{
    if n <= 0 {
        Seq::empty()
    } else {
        let e = entry_at(ram, t, (n - 1) as u64);
        let rest = released4(ram, t, n - 1);
        if present(e) {
            (rest + released3(ram, table_of(e), 512)).push(Release::Table(table_of(e)))
        } else {
            rest
        }
    }
}

/// What tearing down the user half of the address space at `root` gives up, in order.
pub open spec fn teardown(ram: Seq<u64>, root: u64) -> Seq<Release> {
    released4(ram, root, 256).push(Release::Table(root))
}

/// The free frames and shared frame objects.
pub struct Holdings {
    pub free: Seq<u64>,
    pub frames: Seq<FrameObj>,
}

/// The holdings after one thing was given up: a mapping of a shared frame is dropped,
/// anything else is freed.
pub open spec fn give_up(h: Holdings, r: Release) -> Holdings {
    match r {
        Release::Page(a) => {
            if mem::shared(h.frames, a) {
                Holdings {
                    free: if mem::drop_frees(h.frames, a) {
                        h.free.push(a)
                    } else {
                        h.free
                    },
                    frames: mem::mapping_dropped(h.frames, a),
                }
            } else {
                Holdings { free: h.free.push(a), ..h }
            }
        },
        Release::Table(a) => Holdings { free: h.free.push(a), ..h },
    }
}

/// The holdings after a run of things was given up.
pub open spec fn give_up_all(h: Holdings, rs: Seq<Release>) -> Holdings
    decreases rs.len(),
{
    if rs.len() == 0 {
        h
    } else {
        give_up(give_up_all(h, rs.drop_last()), rs.last())
    }
}

/// Every table of the tree below the first `n` entries of a table lies in memory.
pub open spec fn tree_in2(ram: Seq<u64>, t: u64) -> bool {
    &&& table_in(ram, t)
    &&& forall|i: u64|
        i < 512 && present(#[trigger] entry_at(ram, t, i)) && !huge(entry_at(ram, t, i))
            ==> table_in(ram, table_of(entry_at(ram, t, i)))
}

pub open spec fn tree_in3(ram: Seq<u64>, t: u64) -> bool {
    &&& table_in(ram, t)
    &&& forall|i: u64|
        i < 512 && present(#[trigger] entry_at(ram, t, i)) && !huge(entry_at(ram, t, i))
            ==> tree_in2(ram, table_of(entry_at(ram, t, i)))
}

pub open spec fn tree_in4(ram: Seq<u64>, t: u64) -> bool {
    &&& table_in(ram, t)
    &&& forall|i: u64|
        i < 256 && present(#[trigger] entry_at(ram, t, i)) ==> tree_in3(
            ram,
            table_of(entry_at(ram, t, i)),
        )
}

proof fn lemma_give_up_joined(h: Holdings, a: Seq<Release>, b: Seq<Release>)
    ensures
        give_up_all(h, a + b) == give_up_all(give_up_all(h, a), b),
    decreases b.len(),
{
    if b.len() == 0 {
        assert(a + b =~= a);
    } else {
        lemma_give_up_joined(h, a, b.drop_last());
        assert((a + b).drop_last() =~= a + b.drop_last());
        assert((a + b).last() == b.last());
    }
}

proof fn lemma_give_up_push(h: Holdings, a: Seq<Release>, r: Release)
    ensures
        give_up_all(h, a.push(r)) == give_up(give_up_all(h, a), r),
{
    assert(a.push(r).drop_last() =~= a);
}

/// The pools agree with `h`, and the allocator's bounds are as in `p0`.
spec fn holds(p0: Pmm, p: Pmm, f: Frames, h: Holdings) -> bool {
    &&& p.wf()
    &&& f.wf()
    &&& p.base == p0.base
    &&& p.next == p0.next
    &&& p.end == p0.end
    &&& p.free@ =~= h.free
    &&& f.v@ =~= h.frames
}

/// Give up one mapping of a data frame.
fn release_page(p: &mut Pmm, f: &mut Frames, leaf: u64)
    requires
        old(p).wf(),
        old(f).wf(),
    ensures
        holds(
            *old(p),
            *final(p),
            *final(f),
            give_up(Holdings { free: old(p).free@, frames: old(f).v@ }, Release::Page(leaf)),
        ),
{
    if mem::is_shared_frame(f, leaf) {
        mem::frame_unmap(f, p, leaf);
    } else {
        pmm::free_frame(p, leaf);
    }
}

fn free_table1(ram: &[u64], p: &mut Pmm, f: &mut Frames, t: u64)
    requires
        old(p).wf(),
        old(f).wf(),
        table_in(ram@, t),
    ensures
        holds(
            *old(p),
            *final(p),
            *final(f),
            give_up_all(
                Holdings { free: old(p).free@, frames: old(f).v@ },
                released1(ram@, t, 512),
            ),
        ),
{
    let ghost h = Holdings { free: p.free@, frames: f.v@ };
    let mut m: u64 = 0;
    while m < 512
        invariant
            m <= 512,
            table_in(ram@, t),
            holds(*old(p), *p, *f, give_up_all(h, released1(ram@, t, m as int))),
        decreases 512 - m,
    {
        let e: u64 = read_entry(ram, t, m);
        let ghost done = released1(ram@, t, m as int);
        if e & PTE_PRESENT != 0 {
            release_page(p, f, e & PTE_ADDR_MASK);
            proof {
                lemma_give_up_push(h, done, Release::Page(table_of(e)));
            }
        }
        m += 1;
    }
}

fn free_table2(ram: &[u64], p: &mut Pmm, f: &mut Frames, t: u64)
    requires
        old(p).wf(),
        old(f).wf(),
        tree_in2(ram@, t),
    ensures
        holds(
            *old(p),
            *final(p),
            *final(f),
            give_up_all(
                Holdings { free: old(p).free@, frames: old(f).v@ },
                released2(ram@, t, 512),
            ),
        ),
{
    let ghost h = Holdings { free: p.free@, frames: f.v@ };
    let mut k: u64 = 0;
    while k < 512
        invariant
            k <= 512,
            tree_in2(ram@, t),
            holds(*old(p), *p, *f, give_up_all(h, released2(ram@, t, k as int))),
        decreases 512 - k,
    {
        let e: u64 = read_entry(ram, t, k);
        assert(e == entry_at(ram@, t, k));
        let ghost done = released2(ram@, t, k as int);
        if e & PTE_PRESENT != 0 && e & PTE_HUGE == 0 {
            let below: u64 = e & PTE_ADDR_MASK;
            free_table1(ram, p, f, below);
            pmm::free_frame(p, below);
            proof {
                lemma_give_up_joined(h, done, released1(ram@, below, 512));
                lemma_give_up_push(
                    h,
                    done + released1(ram@, below, 512),
                    Release::Table(below),
                );
            }
        }
        k += 1;
    }
}

fn free_table3(ram: &[u64], p: &mut Pmm, f: &mut Frames, t: u64)
    requires
        old(p).wf(),
        old(f).wf(),
        tree_in3(ram@, t),
    ensures
        holds(
            *old(p),
            *final(p),
            *final(f),
            give_up_all(
                Holdings { free: old(p).free@, frames: old(f).v@ },
                released3(ram@, t, 512),
            ),
        ),
{
    let ghost h = Holdings { free: p.free@, frames: f.v@ };
    let mut j: u64 = 0;
    while j < 512
        invariant
            j <= 512,
            tree_in3(ram@, t),
            holds(*old(p), *p, *f, give_up_all(h, released3(ram@, t, j as int))),
        decreases 512 - j,
    {
        let e: u64 = read_entry(ram, t, j);
        assert(e == entry_at(ram@, t, j));
        let ghost done = released3(ram@, t, j as int);
        if e & PTE_PRESENT != 0 && e & PTE_HUGE == 0 {
            let below: u64 = e & PTE_ADDR_MASK;
            free_table2(ram, p, f, below);
            pmm::free_frame(p, below);
            proof {
                lemma_give_up_joined(h, done, released2(ram@, below, 512));
                lemma_give_up_push(
                    h,
                    done + released2(ram@, below, 512),
                    Release::Table(below),
                );
            }
        }
        j += 1;
    }
}

/// Give up the user half of the address space at `root`: every data frame, every table,
/// and the root itself. A frame that others map too only loses this mapping. The
/// kernel half is shared and not touched. The address space must not be live.
pub fn free_user_pml4(ram: &[u64], p: &mut Pmm, f: &mut Frames, root: u64)
    requires
        old(p).wf(),
        old(f).wf(),
        tree_in4(ram@, root),
    ensures
        final(p).wf(),
        final(f).wf(),
        final(p).base == old(p).base,
        final(p).next == old(p).next,
        final(p).end == old(p).end,
        ({
            let h = give_up_all(
                Holdings { free: old(p).free@, frames: old(f).v@ },
                teardown(ram@, root),
            );
            &&& final(p).free@ == h.free
            &&& final(f).v@ == h.frames
        }),
{
    let ghost h = Holdings { free: p.free@, frames: f.v@ };
    let mut i: u64 = 0;
    while i < 256
        invariant
            i <= 256,
            tree_in4(ram@, root),
            holds(*old(p), *p, *f, give_up_all(h, released4(ram@, root, i as int))),
        decreases 256 - i,
    {
        let e: u64 = read_entry(ram, root, i);
        assert(e == entry_at(ram@, root, i));
        let ghost done = released4(ram@, root, i as int);
        if e & PTE_PRESENT != 0 {
            let below: u64 = e & PTE_ADDR_MASK;
            free_table3(ram, p, f, below);
            pmm::free_frame(p, below);
            proof {
                lemma_give_up_joined(h, done, released3(ram@, below, 512));
                lemma_give_up_push(
                    h,
                    done + released3(ram@, below, 512),
                    Release::Table(below),
                );
            }
        }
        i += 1;
    }
    pmm::free_frame(p, root);
    proof {
        lemma_give_up_push(h, released4(ram@, root, 256), Release::Table(root));
    }
}

/// The root of a new user address space, as the words of its table: the user half
/// empty, the kernel half that of the table at `live`.
pub fn new_user_pml4(ram: &[u64], live: u64) -> (t: Vec<u64>)
    requires
        table_in(ram@, live),
    ensures
        t@.len() == 512,
        forall|i: int| 0 <= i < 256 ==> #[trigger] t@[i] == 0,
        forall|i: int| 256 <= i < 512 ==> #[trigger] t@[i] == entry_at(ram@, live, i as u64),
{
    let mut t: Vec<u64> = Vec::new();
    let mut i: u64 = 0;
    while i < 512
        invariant
            i <= 512,
            t@.len() == i,
            table_in(ram@, live),
            forall|k: int| 0 <= k < i && k < 256 ==> #[trigger] t@[k] == 0,
            forall|k: int|
                256 <= k < i ==> #[trigger] t@[k] == entry_at(ram@, live, k as u64),
        decreases 512 - i,
    {
        if i < 256 {
            t.push(0);
        } else {
            t.push(read_entry(ram, live, i));
        }
        i += 1;
    }
    t
}

/// A new address space maps nothing in the user half.
pub proof fn law_new_space_is_empty(ram: Seq<u64>, root: u64, va: u64)
    requires
        forall|i: u64| i < 256 ==> #[trigger] entry_at(ram, root, i) == 0,
        va < LOWER_HALF_END,
    ensures
        probe(ram, root, va) == Probe::NoTable3,
        released4(ram, root, 256).len() == 0,
{
    assert(va < 0x8000_0000_0000 ==> (va >> 39) & 0x1ff < 256) by (bit_vector);
    assert(0u64 & 0x1 == 0) by (bit_vector);
    lemma_nothing_released(ram, root, 256);
}

proof fn lemma_nothing_released(ram: Seq<u64>, root: u64, n: int)
    requires
        0 <= n <= 256,
        forall|i: u64| i < 256 ==> #[trigger] entry_at(ram, root, i) == 0,
        0u64 & 0x1 == 0,
    ensures
        released4(ram, root, n).len() == 0,
    decreases n,
{
    if n > 0 {
        lemma_nothing_released(ram, root, n - 1);
        assert(entry_at(ram, root, (n - 1) as u64) == 0);
    }
}

/// A root with its user half still whole gives up the root alone when torn down.
pub proof fn law_empty_teardown(ram: Seq<u64>, root: u64)
    requires
        forall|i: u64| i < 256 ==> #[trigger] entry_at(ram, root, i) == 0,
    ensures
        teardown(ram, root) == seq![Release::Table(root)],
{
    assert(0u64 & 0x1 == 0) by (bit_vector);
    lemma_nothing_released(ram, root, 256);
    assert(teardown(ram, root) =~= seq![Release::Table(root)]);
}

/// The live address space is the one whose root the processor holds.
pub fn current_pml4(cr3: u64) -> (root: u64)
    ensures
        root == cr3 & PTE_ADDR_MASK,
{
    cr3 & PTE_ADDR_MASK
}

} // verus!
