//! The books of the page frames: every frame that was ever handed out is free, or in one
//! shared region, or held by someone else, and never two of these.
use vstd::prelude::*;
use crate::kernel;
use crate::kernel::Kernel;
use crate::mm::pmm;
use crate::mm::pmm::Pmm;
use crate::proc;
use crate::proc::{Table, MAX_PROCS};
use crate::shm;
use crate::shm::{RegionView, ShmWorld, NREGIONS};
use crate::abi::HANDLE_TABLE_SIZE;

verus! {

/// Region `i` is in use and has a frame at place `k`.
pub open spec fn held_at(regions: Seq<RegionView>, i: int, k: int) -> bool {
    0 <= i < regions.len() && regions[i].in_use && 0 <= k < regions[i].frames.len()
}

/// The books balance over the regions, the free frames, the frame `next` to be taken fresh,
/// and the frames that `others` hold: address spaces and frame objects.
pub open spec fn balanced(
    regions: Seq<RegionView>,
    free: Seq<u64>,
    next: u64,
    others: Set<u64>,
) -> bool {
    &&& free.no_duplicates()
    &&& forall|n: int|
        0 <= n < free.len() ==> (#[trigger] free[n]) < next && !others.contains(free[n])
    &&& forall|f: u64| #[trigger] others.contains(f) ==> f < next
    &&& forall|i: int, k: int| #[trigger]
        held_at(regions, i, k) ==> {
            &&& regions[i].frames[k] < next
            &&& !others.contains(regions[i].frames[k])
            &&& !free.contains(regions[i].frames[k])
        }
    &&& forall|i: int, k: int, j: int, l: int| #[trigger]
        held_at(regions, i, k) && #[trigger] held_at(regions, j, l) && (i != j || k != l)
            ==> regions[i].frames[k] != regions[j].frames[l]
}

/// The books of a kernel.
pub open spec fn kernel_balanced(k: Kernel, others: Set<u64>) -> bool {
    balanced(k.regions.views(), k.pmm.free@, k.pmm.next, others)
}

/// They balance while nothing was handed out.
pub proof fn law_books_open(regions: Seq<RegionView>, p: Pmm)
    requires
        forall|i: int| 0 <= i < regions.len() ==> !(#[trigger] regions[i]).in_use,
        p.free@.len() == 0,
    ensures
        balanced(regions, p.free@, p.next, Set::empty()),
{
}

/// A frame that is handed out was in no region and in nobody's hands.
pub proof fn law_frame_keeps_books(
    regions: Seq<RegionView>,
    a: Pmm,
    b: Pmm,
    others: Set<u64>,
)
    requires
        a.wf(),
        balanced(regions, a.free@, a.next, others),
        pmm::next_frame(a) is Some,
        pmm::allocated(a, b),
    ensures
        !others.contains(pmm::next_frame(a)->0),
        forall|i: int, k: int| #[trigger]
            held_at(regions, i, k) ==> regions[i].frames[k] != pmm::next_frame(a)->0,
        balanced(regions, b.free@, b.next, others.insert(pmm::next_frame(a)->0)),
{
    let f = pmm::next_frame(a)->0;
    if a.free@.len() > 0 {
        let last = a.free@.len() - 1;
        assert(a.free@[last] == f);
        assert forall|i: int, k: int| #[trigger] held_at(regions, i, k) implies regions[i].frames[k]
            != f && !b.free@.contains(regions[i].frames[k]) by {
            assert(a.free@.contains(f));
            let x = regions[i].frames[k];
            if b.free@.contains(x) {
                assert(a.free@[b.free@.index_of(x)] == x);
            }
        }
        assert forall|n: int| 0 <= n < b.free@.len() implies (#[trigger] b.free@[n]) < b.next
            && !others.insert(f).contains(b.free@[n]) by {
            assert(b.free@[n] == a.free@[n]);
        }
    }
}

/// A frame that someone else gives back is free.
pub proof fn law_return_keeps_books(
    regions: Seq<RegionView>,
    a: Pmm,
    b: Pmm,
    others: Set<u64>,
    frame: u64,
)
    requires
        balanced(regions, a.free@, a.next, others),
        others.contains(frame),
        pmm::freed(a, b, frame),
    ensures
        balanced(regions, b.free@, b.next, others.remove(frame)),
{
    let last = a.free@.len() as int;
    assert forall|n: int| 0 <= n < b.free@.len() implies (#[trigger] b.free@[n]) < b.next
        && !others.remove(frame).contains(b.free@[n]) by {
        if n < last {
            assert(b.free@[n] == a.free@[n]);
        }
    }
    assert(b.free@.no_duplicates()) by {
        assert forall|i: int, j: int|
            0 <= i < b.free@.len() && 0 <= j < b.free@.len() && i != j implies b.free@[i]
            != b.free@[j] by {
            assert(i < last ==> b.free@[i] == a.free@[i]);
            assert(j < last ==> b.free@[j] == a.free@[j]);
        }
    }
    assert forall|i: int, k: int| #[trigger] held_at(regions, i, k) implies !b.free@.contains(
        regions[i].frames[k],
    ) by {
        let x = regions[i].frames[k];
        if b.free@.contains(x) {
            let n = b.free@.index_of(x);
            if n < last {
                assert(a.free@[n] == x);
            }
        }
    }
}

/// A new region gets frames that were in no region and in nobody's hands, each once.
pub proof fn law_region_keeps_books(
    regions: Seq<RegionView>,
    a: Pmm,
    b: Pmm,
    others: Set<u64>,
    i: int,
    n: int,
    r: RegionView,
)
    requires
        a.wf(),
        balanced(regions, a.free@, a.next, others),
        0 <= i < regions.len(),
        !regions[i].in_use,
        0 <= n <= pmm::capacity(a),
        pmm::allocated_run(a, b, n),
        r.frames == Seq::new(n as nat, |k: int| pmm::handed_out(a, k)),
    ensures
        balanced(regions.update(i, r), b.free@, b.next, others),
{
    let after = regions.update(i, r);
    let had = a.free@.len() as int;
    assert forall|k: int| 0 <= k < n implies {
        &&& (#[trigger] r.frames[k]) == pmm::handed_out(a, k)
        &&& r.frames[k] < b.next
        &&& !others.contains(r.frames[k])
        &&& k < had ==> r.frames[k] == a.free@[had - 1 - k]
        &&& k >= had ==> r.frames[k] == a.next + (k - had) * 4096
    } by {
        if k >= had {
            assert((n - had) * 4096 <= a.end - a.next);
        }
    }
    assert forall|m: int| 0 <= m < b.free@.len() implies (#[trigger] b.free@[m]) == a.free@[m]
        && m < had - n by {}
    assert forall|x: int, k: int| #[trigger] held_at(after, x, k) implies {
        &&& after[x].frames[k] < b.next
        &&& !others.contains(after[x].frames[k])
        &&& !b.free@.contains(after[x].frames[k])
    } by {
        let f = after[x].frames[k];
        if b.free@.contains(f) {
            let m = b.free@.index_of(f);
            assert(a.free@[m] == f);
            if x != i {
                assert(held_at(regions, x, k));
                assert(a.free@.contains(f));
            } else if k < had {
                assert(a.free@[had - 1 - k] == f && m != had - 1 - k);
            }
        }
        if x != i {
            assert(held_at(regions, x, k));
        }
    }
    assert forall|x: int, k: int, y: int, l: int| #[trigger]
        held_at(after, x, k) && #[trigger] held_at(after, y, l) && (x != y || k != l) implies after[x].frames[k]
        != after[y].frames[l] by {
        if x != i {
            assert(held_at(regions, x, k));
        }
        if y != i {
            assert(held_at(regions, y, l));
        }
        if x == i && y != i {
            lemma_not_handed_out(regions, a, others, y, l, k);
        }
        if y == i && x != i {
            lemma_not_handed_out(regions, a, others, x, k, l);
        }
    }
}

/// What a region holds is not handed out.
proof fn lemma_not_handed_out(
    regions: Seq<RegionView>,
    a: Pmm,
    others: Set<u64>,
    i: int,
    k: int,
    n: int,
)
    requires
        a.wf(),
        balanced(regions, a.free@, a.next, others),
        held_at(regions, i, k),
        0 <= n < pmm::capacity(a),
    ensures
        regions[i].frames[k] != pmm::handed_out(a, n),
{
    let had = a.free@.len() as int;
    if n < had {
        assert(a.free@.contains(a.free@[had - 1 - n]));
    } else {
        assert((n - had) * 4096 <= a.end - a.next);
    }
}

/// A new region of frames in a row takes them fresh.
pub proof fn law_row_keeps_books(
    regions: Seq<RegionView>,
    a: Pmm,
    b: Pmm,
    others: Set<u64>,
    i: int,
    n: int,
    r: RegionView,
)
    requires
        a.wf(),
        balanced(regions, a.free@, a.next, others),
        0 <= i < regions.len(),
        !regions[i].in_use,
        0 <= n,
        a.next + n * 4096 <= a.end,
        b == (Pmm { next: (a.next + n * 4096) as u64, ..a }),
        r.frames == Seq::new(n as nat, |k: int| (a.next + k * 4096) as u64),
    ensures
        balanced(regions.update(i, r), b.free@, b.next, others),
{
    let after = regions.update(i, r);
    assert forall|k: int| 0 <= k < n implies (#[trigger] r.frames[k]) == a.next + k * 4096
        && r.frames[k] < b.next by {}
    assert forall|x: int, k: int| #[trigger] held_at(after, x, k) implies {
        &&& after[x].frames[k] < b.next
        &&& !others.contains(after[x].frames[k])
        &&& !b.free@.contains(after[x].frames[k])
        &&& x != i ==> after[x].frames[k] < a.next
    } by {
        let f = after[x].frames[k];
        if x != i {
            assert(held_at(regions, x, k));
        } else if b.free@.contains(f) {
            assert(a.free@[a.free@.index_of(f)] == f);
        }
    }
    assert forall|x: int, k: int, y: int, l: int| #[trigger]
        held_at(after, x, k) && #[trigger] held_at(after, y, l) && (x != y || k != l) implies after[x].frames[k]
        != after[y].frames[l] by {
        if x != i {
            assert(held_at(regions, x, k));
        }
        if y != i {
            assert(held_at(regions, y, l));
        }
    }
}

/// A request that could not be met leaves the frames free that it took on the way.
pub proof fn law_shortage_keeps_books(
    regions: Seq<RegionView>,
    a: Pmm,
    b: Pmm,
    others: Set<u64>,
)
    requires
        a.wf(),
        balanced(regions, a.free@, a.next, others),
        pmm::turned_over(a, b),
    ensures
        balanced(regions, b.free@, b.next, others),
{
    let had = a.free@.len() as int;
    let n = pmm::capacity(a) as int;
    assert((n - had) * 4096 <= a.end - a.next);
    assert forall|k: int| 0 <= k < n implies {
        &&& (#[trigger] b.free@[k]) == pmm::handed_out(a, k)
        &&& b.free@[k] < b.next
        &&& !others.contains(b.free@[k])
        &&& k < had ==> b.free@[k] == a.free@[had - 1 - k]
        &&& k >= had ==> b.free@[k] == a.next + (k - had) * 4096
    } by {}
    assert forall|i: int, k: int| #[trigger] held_at(regions, i, k) implies !b.free@.contains(
        regions[i].frames[k],
    ) by {
        let f = regions[i].frames[k];
        if b.free@.contains(f) {
            lemma_not_handed_out(regions, a, others, i, k, b.free@.index_of(f));
        }
    }
}

/// Dropping a handle to a shared region sends its frames back at most once, and none that
/// anyone else holds.
pub proof fn law_drop_keeps_books(w: ShmWorld, i: int, next: u64, others: Set<u64>)
    requires
        balanced(w.regions, w.free, next, others),
        0 <= i < w.regions.len(),
    ensures
        ({
            let b = shm::unreferenced(w, i);
            &&& balanced(b.regions, b.free, next, others)
            &&& b.regions.len() == w.regions.len()
        }),
{
    let b = shm::unreferenced(w, i);
    let r = w.regions[i];
    if r.in_use {
        assert forall|x: int, k: int| #[trigger] held_at(b.regions, x, k) implies held_at(
            w.regions,
            x,
            k,
        ) && b.regions[x].frames == w.regions[x].frames by {}
        if r.rc <= 1 {
            let had = w.free.len() as int;
            assert forall|n: int| 0 <= n < b.free.len() implies (#[trigger] b.free[n]) < next
                && !others.contains(b.free[n]) by {
                if n >= had {
                    assert(held_at(w.regions, i, n - had));
                } else {
                    assert(b.free[n] == w.free[n]);
                }
            }
            assert(b.free.no_duplicates()) by {
                assert forall|m: int, n: int|
                    0 <= m < b.free.len() && 0 <= n < b.free.len() && m != n implies b.free[m]
                    != b.free[n] by {
                    assert(m >= had ==> held_at(w.regions, i, m - had));
                    assert(n >= had ==> held_at(w.regions, i, n - had));
                    assert(m < had ==> w.free.contains(w.free[m]));
                    assert(n < had ==> w.free.contains(w.free[n]));
                }
            }
            assert forall|x: int, k: int| #[trigger] held_at(b.regions, x, k) implies !b.free.contains(
                b.regions[x].frames[k],
            ) by {
                let f = b.regions[x].frames[k];
                assert(held_at(w.regions, x, k));
                if b.free.contains(f) {
                    let n = b.free.index_of(f);
                    if n < had {
                        assert(w.free[n] == f);
                    } else {
                        assert(held_at(w.regions, i, n - had));
                    }
                }
            }
        }
    }
}

/// The same for all handles of a table, one by one.
pub proof fn law_drops_keep_books(
    w: ShmWorld,
    t: Table,
    n: int,
    next: u64,
    others: Set<u64>,
)
    requires
        balanced(w.regions, w.free, next, others),
        proc::table_ok(t),
        w.regions.len() == NREGIONS,
        0 <= n <= t.len(),
    ensures
        ({
            let b = kernel::handles_dropped(w, t, n);
            &&& balanced(b.regions, b.free, next, others)
            &&& b.regions.len() == NREGIONS
        }),
    decreases n,
{
    if n > 0 {
        law_drops_keep_books(w, t, n - 1, next, others);
        let m = kernel::handles_dropped(w, t, n - 1);
        if let Some(e) = t[n - 1] {
            if let crate::object::ObjectRef::Shm(i) = e.obj {
                law_drop_keeps_books(m, i as int, next, others);
            }
        }
    }
}

/// The end of a process gives back what it alone held, once, and nothing else.
pub proof fn law_kill_keeps_books(a: Kernel, b: Kernel, id: int, code: i32, others: Set<u64>)
    requires
        a.wf(),
        0 <= id < MAX_PROCS,
        proc::killed(a, b, id, code),
        kernel_balanced(a, others),
    ensures
        kernel_balanced(b, others),
{
    let t = a.procs.v@[id].handles@;
    assert(a.procs.v@[id].wf());
    law_drops_keep_books(a.shm_world(), t, HANDLE_TABLE_SIZE as int, a.pmm.next, others);
}

} // verus!
