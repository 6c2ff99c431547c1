//! Validation of user pointers.
use vstd::prelude::*;
use crate::abi::SysError;
use crate::mm::vm;
use crate::mm::vm::{LOWER_HALF_END, PTE_ADDR_MASK, PTE_HUGE, PTE_PRESENT, PTE_USER, PTE_WRITABLE};

verus! {

/// An entry that lets user code through, for writing if `write`.
pub open spec fn opens(e: u64, write: bool) -> bool {
    &&& e & PTE_PRESENT != 0
    &&& e & PTE_USER != 0
    &&& write ==> e & PTE_WRITABLE != 0
}

/// User code can read (or, if `write`, write) the page of `va` in the address space at
/// `root`: every level of the walk lets it through.
pub open spec fn user_page(ram: Seq<u64>, root: u64, va: u64, write: bool) -> bool {
    let e4 = vm::entry_at(ram, root, vm::index4(va));
    let e3 = vm::entry_at(ram, vm::table_of(e4), vm::index3(va));
    let e2 = vm::entry_at(ram, vm::table_of(e3), vm::index2(va));
    let e1 = vm::entry_at(ram, vm::table_of(e2), vm::index1(va));
    &&& opens(e4, write)
    &&& opens(e3, write)
    &&& vm::huge(e3) || {
        &&& opens(e2, write)
        &&& vm::huge(e2) || opens(e1, write)
    }
}

/// Walk the tables for one page.
fn walk_user(ram: &[u64], root: u64, virt: u64, need_write: bool) -> (ok: bool)
    requires
        vm::walk_in(ram@, root, virt),
    ensures
        ok == user_page(ram@, root, virt, need_write),
{
    proof {
        vm::lemma_index_bounds(virt);
    }
    let e4: u64 = vm::read_entry(ram, root, (virt >> 39) & 0x1ff);
    if !entry_opens(e4, need_write) {
        return false;
    }
    let e3: u64 = vm::read_entry(ram, e4 & PTE_ADDR_MASK, (virt >> 30) & 0x1ff);
    if !entry_opens(e3, need_write) {
        return false;
    }
    if e3 & PTE_HUGE != 0 {
        return true;
    }
    let e2: u64 = vm::read_entry(ram, e3 & PTE_ADDR_MASK, (virt >> 21) & 0x1ff);
    if !entry_opens(e2, need_write) {
        return false;
    }
    if e2 & PTE_HUGE != 0 {
        return true;
    }
    let e1: u64 = vm::read_entry(ram, e2 & PTE_ADDR_MASK, (virt >> 12) & 0x1ff);
    entry_opens(e1, need_write)
}

fn entry_opens(e: u64, need_write: bool) -> (ok: bool)
    ensures
        ok == opens(e, need_write),
{
    e & PTE_PRESENT != 0 && e & PTE_USER != 0 && (!need_write || e & PTE_WRITABLE != 0)
}

/// `page` is the address of a page that meets `[ptr, end)`.
pub open spec fn page_meets(page: u64, ptr: int, end: int) -> bool {
    page % 4096 == 0 && page + 4096 > ptr && page < end
}

/// `[ptr, ptr + len)` lies in the user half and user code can reach all of it.
pub open spec fn user_range(ram: Seq<u64>, root: u64, ptr: u64, len: int, write: bool) -> bool {
    len == 0 || {
        &&& ptr + len <= LOWER_HALF_END
        &&& forall|page: u64| #[trigger]
            page_meets(page, ptr as int, ptr + len) ==> user_page(ram, root, page, write)
    }
}

/// Validate `[ptr, ptr + len)` as memory user code can reach, for writing if
/// `need_write`. An empty range is always valid.
pub fn check_user(ram: &[u64], root: u64, ptr: u64, len: usize, need_write: bool) -> (r: Result<
    (),
    SysError,
>)
    requires
        forall|page: u64| #[trigger]
            page_meets(page, ptr as int, ptr + len) && page < LOWER_HALF_END ==> vm::walk_in(
                ram@,
                root,
                page,
            ),
    ensures
        r == (if user_range(ram@, root, ptr, len as int, need_write) {
            Ok(())
        } else {
            Err(SysError::Fault)
        }),
{
    if len == 0 {
        return Ok(());
    }
    let end: u64 = match ptr.checked_add(len as u64) {
        Some(e) => e,
        None => {
            return Err(SysError::Fault);
        },
    };
    if ptr >= LOWER_HALF_END || end > LOWER_HALF_END {
        return Err(SysError::Fault);
    }
    let mut page: u64 = vm::align_down_4k(ptr);
    while page < end
        invariant
            page % 4096 == 0,
            page < end + 4096,
            end == ptr + len,
            len != 0,
            end <= LOWER_HALF_END,
            page + 4096 > ptr,
            forall|q: u64| #[trigger]
                page_meets(q, ptr as int, ptr + len) && q < LOWER_HALF_END ==> vm::walk_in(
                    ram@,
                    root,
                    q,
                ),
            forall|q: u64| #[trigger]
                page_meets(q, ptr as int, ptr + len) && q < page ==> user_page(
                    ram@,
                    root,
                    q,
                    need_write,
                ),
        decreases end + 4096 - page,
    {
        assert(page_meets(page, ptr as int, ptr + len));
        if !walk_user(ram, root, page, need_write) {
            return Err(SysError::Fault);
        }
        page += 4096;
    }
    Ok(())
}

/// No pointer into the kernel half ever passes.
pub proof fn law_kernel_pointers_rejected(ram: Seq<u64>, root: u64, ptr: u64, len: int, write: bool)
    requires
        len > 0,
        ptr + len > LOWER_HALF_END,
    ensures
        !user_range(ram, root, ptr, len, write),
{
}

/// What may be written may be read.
pub proof fn law_writable_is_readable(ram: Seq<u64>, root: u64, ptr: u64, len: int)
    requires
        user_range(ram, root, ptr, len, true),
    ensures
        user_range(ram, root, ptr, len, false),
{
    assert forall|page: u64| #[trigger]
        page_meets(page, ptr as int, ptr + len) && len != 0 implies user_page(
        ram,
        root,
        page,
        false,
    ) by {
        assert(user_page(ram, root, page, true));
    }
}

} // verus!
