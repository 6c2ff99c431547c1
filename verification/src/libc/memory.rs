//! What the allocation and mapping calls of C ask of the heap and the kernel.
use crate::abi::{PROT_EXEC, PROT_READ, PROT_WRITE};
use vstd::prelude::*;

verus! {

/// Bytes before a block that hold its size.
pub const HDR: usize = 16;

/// Where mappings start.
pub const MMAP_BASE: u64 = 0x5000_0000;

/// The heap block for `size` bytes: nothing for none.
pub fn malloc_total(size: usize) -> (r: Option<usize>)
    requires
        size + HDR <= usize::MAX,
    ensures
        r == (if size == 0 {
            None
        } else {
            Some((size + HDR) as usize)
        }),
{
    if size == 0 {
        None
    } else {
        Some(size + HDR)
    }
}

/// The bytes of `n` items of `size`, the largest number when they are more.
pub fn calloc_total(n: usize, size: usize) -> (total: usize)
    ensures
        total == (if n * size > usize::MAX {
            usize::MAX as int
        } else {
            n * size
        }),
{
    match n.checked_mul(size) {
        Some(t) => t,
        None => usize::MAX,
    }
}

/// What a change of size comes to.
#[derive(Clone, Copy, PartialEq, Eq, Structural, Debug)]
pub enum Realloc {
    /// A new block.
    Malloc,
    /// The block is given up.
    Free,
    /// A new block that begins with this much of the old one.
    Move { copy: usize },
}

/// What a change to `size` bytes comes to, for no block or one whose heap block
/// has `total` bytes.
pub fn realloc_plan(total: Option<usize>, size: usize) -> (p: Realloc)
    requires
        total matches Some(t) ==> t >= HDR,
    ensures
        p == (match total {
            None => Realloc::Malloc,
            Some(t) => if size == 0 {
                Realloc::Free
            } else if t - HDR < size {
                Realloc::Move { copy: (t - HDR) as usize }
            } else {
                Realloc::Move { copy: size }
            },
        }),
{
    match total {
        None => Realloc::Malloc,
        Some(t) => {
            if size == 0 {
                return Realloc::Free;
            }
            let old: usize = t - HDR;
            Realloc::Move {
                copy: if old < size {
                    old
                } else {
                    size
                },
            }
        },
    }
}

/// The kernel's protection for one of C: executable pages are not writable, all
/// others are.
pub fn mprotect(prot: i32) -> (p: u64)
    ensures
        p == (if prot & 4 != 0 {
            PROT_READ | PROT_EXEC
        } else {
            PROT_READ | PROT_WRITE
        }),
        p & PROT_EXEC == 0 || p & PROT_WRITE == 0,
{
    assert((1u64 | 4u64) & 2u64 == 0 && (1u64 | 2u64) & 4u64 == 0) by (bit_vector);
    if prot & 4 != 0 {
        PROT_READ | PROT_EXEC
    } else {
        PROT_READ | PROT_WRITE
    }
}

/// Mappings that were handed out, from the bottom.
#[derive(Clone, Copy, PartialEq, Eq, Structural, Debug)]
pub struct MmapNext {
    pub next: u64,
}

impl MmapNext {
    /// No mapping.
    pub fn new() -> (m: MmapNext)
        ensures
            m.next == MMAP_BASE,
    {
        MmapNext { next: MMAP_BASE }
    }

    /// Where a mapping of `len` bytes goes and how many bytes, in whole pages,
    /// it takes. Nothing for none.
    pub fn mmap(&mut self, len: u64) -> (r: Option<(u64, u64)>)
        requires
            len + 0xFFF <= u64::MAX,
            old(self).next + (len + 0xFFF) / 0x1000 * 0x1000 <= u64::MAX,
        ensures
            ({
                let n = (len + 0xFFF) / 0x1000 * 0x1000;
                &&& final(self).next == old(self).next + n
                &&& r == (if len == 0 {
                    None
                } else {
                    Some((old(self).next, n as u64))
                })
            }),
    {
        let n: u64 = (len + 0xFFF) / 0x1000 * 0x1000;
        if n == 0 {
            return None;
        }
        let at: u64 = self.next;
        self.next = at + n;
        Some((at, n))
    }
}

} // verus!
