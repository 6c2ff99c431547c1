//! Memory management.
use vstd::prelude::*;

pub mod mem;
pub mod pmm;
pub mod vm;

verus! {

/// Where physical memory appears in the kernel's address space: physical address `p`
/// is reached at `offset + p`.
pub struct Hhdm {
    pub offset: u64,
}

/// Record the offset reported at boot.
pub fn set_hhdm_offset(h: &mut Hhdm, offset: u64)
    ensures
        final(h).offset == offset,
{
    h.offset = offset;
}

/// The offset recorded at boot.
pub fn hhdm_offset(h: &Hhdm) -> (o: u64)
    ensures
        o == h.offset,
{
    h.offset
}

/// Kernel address of physical address `phys`.
pub fn phys_to_virt(h: &Hhdm, phys: u64) -> (v: u64)
    requires
        phys + h.offset <= u64::MAX,
    ensures
        v == phys + h.offset,
{
    phys + hhdm_offset(h)
}

} // verus!
