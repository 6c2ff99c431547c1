//! Memory budgets and shareable frames.
use vstd::prelude::*;
use crate::mm::pmm;
use crate::mm::pmm::Pmm;

verus! {

/// Budgets in the pool.
pub const MEM_POOL: usize = 24;

/// Shareable frames in the pool.
pub const FRAME_POOL: usize = 32;

/// The budget a boot process is born with.
pub const BOOT_BUDGET: u64 = 262144;

/// A byte budget. Handles to it carry the generation they were made at; releasing the
/// slot moves the generation on, so an old handle no longer matches.
#[derive(Clone, Copy)]
pub struct MemObj {
    pub in_use: bool,
    pub remaining: u64,
    pub gen: u32,
}

/// The pool of budgets.
pub struct Mems {
    pub v: Vec<MemObj>,
}

impl Mems {
    pub open spec fn wf(&self) -> bool {
        self.v@.len() == MEM_POOL
    }

    /// A pool of unused budgets.
    pub fn new() -> (m: Self)
        ensures
            m.wf(),
            forall|i: int|
                0 <= i < MEM_POOL ==> #[trigger] m.v@[i] == (MemObj {
                    in_use: false,
                    remaining: 0,
                    gen: 0,
                }),
    {
        let mut v: Vec<MemObj> = Vec::new();
        let mut i: usize = 0;
        while i < MEM_POOL
            invariant
                i <= MEM_POOL,
                v@.len() == i,
                forall|k: int|
                    0 <= k < i ==> #[trigger] v@[k] == (MemObj {
                        in_use: false,
                        remaining: 0,
                        gen: 0,
                    }),
            decreases MEM_POOL - i,
        {
            v.push(MemObj { in_use: false, remaining: 0, gen: 0 });
            i += 1;
        }
        Mems { v }
    }
}

/// Budget `i` is now `e`, and nothing else changed.
pub open spec fn mem_becomes(a: Mems, b: Mems, i: int, e: MemObj) -> bool {
    b.v@ =~= a.v@.update(i, e)
}

/// A generation after the one given; generations wrap round.
pub open spec fn next_gen(gen: u32) -> u32 {
    if gen == u32::MAX {
        0
    } else {
        (gen + 1) as u32
    }
}

/// The lowest unused budget from `i` up.
pub open spec fn free_mem_from(v: Seq<MemObj>, i: int) -> int
    decreases v.len() - i,
{
    if i >= v.len() || !v[i].in_use {
        i
    } else {
        free_mem_from(v, i + 1)
    }
}

/// The lowest unused budget is unused.
pub proof fn lemma_free_mem(v: Seq<MemObj>, i: int)
    requires
        0 <= i <= v.len(),
    ensures
        i <= free_mem_from(v, i) <= v.len(),
        free_mem_from(v, i) < v.len() ==> !v[free_mem_from(v, i)].in_use,
    decreases v.len() - i,
{
    if i < v.len() && v[i].in_use {
        lemma_free_mem(v, i + 1);
    }
}

/// Whether a budget is unused.
pub fn has_budget(m: &Mems) -> (b: bool)
    requires
        m.wf(),
    ensures
        b == (free_mem_from(m.v@, 0) < MEM_POOL),
{
    let mut i: usize = 0;
    while i < MEM_POOL
        invariant
            m.wf(),
            i <= MEM_POOL,
            free_mem_from(m.v@, 0) == free_mem_from(m.v@, i as int),
        decreases MEM_POOL - i,
    {
        if !m.v[i].in_use {
            return true;
        }
        i += 1;
    }
    false
}

/// Take the lowest unused budget and fill it; its generation stays.
pub fn grant(m: &mut Mems, budget: u64) -> (r: Option<u8>)
    requires
        old(m).wf(),
    ensures
        final(m).wf(),
        ({
            let i = free_mem_from(old(m).v@, 0);
            match r {
                Some(k) => {
                    &&& k == i
                    &&& i < MEM_POOL
                    &&& !old(m).v@[i].in_use
                    &&& mem_becomes(
                        *old(m),
                        *final(m),
                        i,
                        MemObj { in_use: true, remaining: budget, gen: old(m).v@[i].gen },
                    )
                },
                None => i >= MEM_POOL && *final(m) == *old(m),
            }
        }),
{
    let mut i: usize = 0;
    while i < MEM_POOL
        invariant
            m.wf(),
            *m == *old(m),
            i <= MEM_POOL,
            free_mem_from(m.v@, 0) == free_mem_from(m.v@, i as int),
        decreases MEM_POOL - i,
    {
        if !m.v[i].in_use {
            let gen: u32 = m.v[i].gen;
            m.v[i] = MemObj { in_use: true, remaining: budget, gen };
            return Some(i as u8);
        }
        i += 1;
    }
    None
}

/// The generation of budget `idx`.
pub fn mem_gen(m: &Mems, idx: u8) -> (g: u32)
    requires
        m.wf(),
        idx < MEM_POOL,
    ensures
        g == m.v@[idx as int].gen,
{
    m.v[idx as usize].gen
}

/// Budget `e` is live and of generation `gen`.
pub open spec fn mem_live(e: MemObj, gen: u32) -> bool {
    e.in_use && e.gen == gen
}

/// Whether budget `idx` is live and of generation `gen`.
pub fn mem_gen_ok(m: &Mems, idx: u8, gen: u32) -> (b: bool)
    requires
        m.wf(),
        idx < MEM_POOL,
    ensures
        b == mem_live(m.v@[idx as int], gen),
{
    let e = m.v[idx as usize];
    e.in_use && e.gen == gen
}

/// Give budget `idx` back; its generation moves on.
pub fn release(m: &mut Mems, idx: u8)
    requires
        old(m).wf(),
        idx < MEM_POOL,
    ensures
        final(m).wf(),
        mem_becomes(
            *old(m),
            *final(m),
            idx as int,
            MemObj {
                in_use: false,
                gen: next_gen(old(m).v@[idx as int].gen),
                ..old(m).v@[idx as int]
            },
        ),
{
    let i: usize = idx as usize;
    m.v[i].in_use = false;
    m.v[i].gen = m.v[i].gen.wrapping_add(1);
}

/// Refund `bytes` to budget `idx`.
pub fn credit(m: &mut Mems, idx: u8, bytes: u64)
    requires
        old(m).wf(),
        idx < MEM_POOL,
        old(m).v@[idx as int].remaining + bytes <= u64::MAX,
    ensures
        final(m).wf(),
        mem_becomes(
            *old(m),
            *final(m),
            idx as int,
            MemObj {
                remaining: (old(m).v@[idx as int].remaining + bytes) as u64,
                ..old(m).v@[idx as int]
            },
        ),
{
    let i: usize = idx as usize;
    m.v[i].remaining = m.v[i].remaining + bytes;
}

/// What is left of budget `idx`.
pub fn remaining(m: &Mems, idx: u8) -> (r: u64)
    requires
        m.wf(),
        idx < MEM_POOL,
    ensures
        r == m.v@[idx as int].remaining,
{
    m.v[idx as usize].remaining
}

/// Take `bytes` from budget `idx` if it holds that much.
pub fn debit(m: &mut Mems, idx: u8, bytes: u64) -> (ok: bool)
    requires
        old(m).wf(),
        idx < MEM_POOL,
    ensures
        final(m).wf(),
        ok == (old(m).v@[idx as int].remaining >= bytes),
        !ok ==> *final(m) == *old(m),
        ok ==> mem_becomes(
            *old(m),
            *final(m),
            idx as int,
            MemObj {
                remaining: (old(m).v@[idx as int].remaining - bytes) as u64,
                ..old(m).v@[idx as int]
            },
        ),
{
    let i: usize = idx as usize;
    if m.v[i].remaining >= bytes {
        m.v[i].remaining = m.v[i].remaining - bytes;
        true
    } else {
        false
    }
}

/// A refund undoes the debit it answers.
pub proof fn law_credit_undoes_debit(a: Mems, b: Mems, c: Mems, i: int, bytes: u64)
    requires
        a.wf(),
        0 <= i < MEM_POOL,
        a.v@[i].remaining >= bytes,
        mem_becomes(a, b, i, MemObj { remaining: (a.v@[i].remaining - bytes) as u64, ..a.v@[i] }),
        mem_becomes(b, c, i, MemObj { remaining: (b.v@[i].remaining + bytes) as u64, ..b.v@[i] }),
    ensures
        c.v@ == a.v@,
{
    assert(c.v@ =~= a.v@);
}

/// A handle to a budget that was released matches nothing: not the empty slot, and not
/// the budget that takes the slot next.
pub proof fn law_released_budget_is_stale(e: MemObj, refill: u64)
    ensures
        !mem_live(MemObj { in_use: false, gen: next_gen(e.gen), ..e }, e.gen),
        !mem_live(MemObj { in_use: true, remaining: refill, gen: next_gen(e.gen) }, e.gen),
{
}

/// A physical frame that handles name. It lives as long as some address space maps it.
#[derive(Clone, Copy)]
pub struct FrameObj {
    pub in_use: bool,
    pub phys: u64,
    /// Mappings of the frame.
    pub maps: u32,
    /// Moves on each time the slot is freed.
    pub gen: u32,
}

/// The pool of shareable frames.
pub struct Frames {
    pub v: Vec<FrameObj>,
}

impl Frames {
    pub open spec fn wf(&self) -> bool {
        self.v@.len() == FRAME_POOL
    }

    /// A pool of unused frames.
    pub fn new() -> (f: Self)
        ensures
            f.wf(),
            forall|i: int|
                0 <= i < FRAME_POOL ==> #[trigger] f.v@[i] == (FrameObj {
                    in_use: false,
                    phys: 0,
                    maps: 0,
                    gen: 0,
                }),
    {
        let mut v: Vec<FrameObj> = Vec::new();
        let mut i: usize = 0;
        while i < FRAME_POOL
            invariant
                i <= FRAME_POOL,
                v@.len() == i,
                forall|k: int|
                    0 <= k < i ==> #[trigger] v@[k] == (FrameObj {
                        in_use: false,
                        phys: 0,
                        maps: 0,
                        gen: 0,
                    }),
            decreases FRAME_POOL - i,
        {
            v.push(FrameObj { in_use: false, phys: 0, maps: 0, gen: 0 });
            i += 1;
        }
        Frames { v }
    }
}

/// The lowest live frame object of `phys` from `i` up, or the end of the pool.
pub open spec fn frame_from(v: Seq<FrameObj>, phys: u64, i: int) -> int
    decreases v.len() - i,
{
    if i >= v.len() || (v[i].in_use && v[i].phys == phys) {
        i
    } else {
        frame_from(v, phys, i + 1)
    }
}

/// `phys` backs a live frame object.
pub open spec fn shared(v: Seq<FrameObj>, phys: u64) -> bool {
    frame_from(v, phys, 0) < v.len()
}

proof fn lemma_frame_from(v: Seq<FrameObj>, phys: u64, i: int)
    requires
        0 <= i <= v.len(),
    ensures
        i <= frame_from(v, phys, i) <= v.len(),
        frame_from(v, phys, i) < v.len() ==> v[frame_from(v, phys, i)].in_use && v[frame_from(
            v,
            phys,
            i,
        )].phys == phys,
        forall|k: int|
            i <= k < frame_from(v, phys, i) ==> !((#[trigger] v[k]).in_use && v[k].phys == phys),
    decreases v.len() - i,
{
    if i >= v.len() || (v[i].in_use && v[i].phys == phys) {
    } else {
        lemma_frame_from(v, phys, i + 1);
    }
}

/// Find the live frame object of `phys`.
fn find_frame(f: &Frames, phys: u64) -> (r: Option<usize>)
    requires
        f.wf(),
    ensures
        match r {
            Some(i) => i == frame_from(f.v@, phys, 0) && i < FRAME_POOL && f.v@[i as int].in_use
                && f.v@[i as int].phys == phys,
            None => !shared(f.v@, phys),
        },
{
    let mut i: usize = 0;
    while i < FRAME_POOL
        invariant
            f.wf(),
            i <= FRAME_POOL,
            frame_from(f.v@, phys, 0) == frame_from(f.v@, phys, i as int),
        decreases FRAME_POOL - i,
    {
        if f.v[i].in_use && f.v[i].phys == phys {
            return Some(i);
        }
        i += 1;
    }
    None
}

/// Whether `phys` backs a live frame object.
pub fn is_shared_frame(f: &Frames, phys: u64) -> (b: bool)
    requires
        f.wf(),
    ensures
        b == exists|i: int|
            0 <= i < f.v@.len() && (#[trigger] f.v@[i]).in_use && f.v@[i].phys == phys,
        b == shared(f.v@, phys),
{
    proof {
        lemma_frame_from(f.v@, phys, 0);
    }
    let r = find_frame(f, phys);
    r.is_some()
}

/// The pool after one more mapping of `phys`.
pub open spec fn mapping_added(v: Seq<FrameObj>, phys: u64) -> Seq<FrameObj> {
    let i = frame_from(v, phys, 0);
    if i < v.len() {
        v.update(i, FrameObj { maps: (v[i].maps + 1) as u32, ..v[i] })
    } else {
        v
    }
}

/// Account one more mapping of the frame object of `phys`, if there is one.
pub fn frame_inc_map_by_phys(f: &mut Frames, phys: u64)
    requires
        old(f).wf(),
        shared(old(f).v@, phys) ==> old(f).v@[frame_from(old(f).v@, phys, 0)].maps < u32::MAX,
    ensures
        final(f).wf(),
        final(f).v@ == mapping_added(old(f).v@, phys),
{
    if let Some(i) = find_frame(f, phys) {
        f.v[i].maps = f.v[i].maps + 1;
        assert(f.v@ =~= mapping_added(old(f).v@, phys));
    }
}

/// The frame object `e` is down to its last mapping.
pub open spec fn last_mapping(e: FrameObj) -> bool {
    e.maps <= 1
}

/// The pool after one mapping of `phys` went away: the last one frees the slot, and the
/// generation moves on.
pub open spec fn mapping_dropped(v: Seq<FrameObj>, phys: u64) -> Seq<FrameObj> {
    let i = frame_from(v, phys, 0);
    if i >= v.len() {
        v
    } else if last_mapping(v[i]) {
        v.update(i, FrameObj { in_use: false, phys: 0, maps: 0, gen: next_gen(v[i].gen) })
    } else {
        v.update(i, FrameObj { maps: (v[i].maps - 1) as u32, ..v[i] })
    }
}

/// Dropping a mapping of `phys` frees the frame.
pub open spec fn drop_frees(v: Seq<FrameObj>, phys: u64) -> bool {
    let i = frame_from(v, phys, 0);
    i < v.len() && last_mapping(v[i])
}

/// Drop one mapping of the frame object of `phys`; with the last one the frame goes
/// back to the allocator.
pub fn frame_unmap(f: &mut Frames, p: &mut Pmm, phys: u64)
    requires
        old(f).wf(),
        old(p).wf(),
    ensures
        final(f).wf(),
        final(p).wf(),
        final(f).v@ == mapping_dropped(old(f).v@, phys),
        drop_frees(old(f).v@, phys) ==> pmm::freed(*old(p), *final(p), phys),
        !drop_frees(old(f).v@, phys) ==> *final(p) == *old(p),
{
    if let Some(i) = find_frame(f, phys) {
        let e = f.v[i];
        if e.maps <= 1 {
            f.v[i] =
            FrameObj { in_use: false, phys: 0, maps: 0, gen: e.gen.wrapping_add(1) };
            pmm::free_frame(p, phys);
        } else {
            f.v[i].maps = e.maps - 1;
        }
        assert(f.v@ =~= mapping_dropped(old(f).v@, phys));
    }
}

/// The lowest unused frame object from `i` up.
pub open spec fn free_frame_slot_from(v: Seq<FrameObj>, i: int) -> int
    decreases v.len() - i,
{
    if i >= v.len() || !v[i].in_use {
        i
    } else {
        free_frame_slot_from(v, i + 1)
    }
}

/// Record a physical frame as a frame object with no mapping; returns its slot and
/// generation.
pub fn frame_record(f: &mut Frames, phys: u64) -> (r: Option<(u8, u32)>)
    requires
        old(f).wf(),
    ensures
        final(f).wf(),
        ({
            let i = free_frame_slot_from(old(f).v@, 0);
            match r {
                Some((k, gen)) => {
                    &&& k == i
                    &&& i < FRAME_POOL
                    &&& !old(f).v@[i].in_use
                    &&& gen == old(f).v@[i].gen
                    &&& final(f).v@ == old(f).v@.update(
                        i,
                        FrameObj { in_use: true, phys, maps: 0, gen },
                    )
                },
                None => i >= FRAME_POOL && *final(f) == *old(f),
            }
        }),
{
    let mut i: usize = 0;
    while i < FRAME_POOL
        invariant
            f.wf(),
            *f == *old(f),
            i <= FRAME_POOL,
            free_frame_slot_from(f.v@, 0) == free_frame_slot_from(f.v@, i as int),
        decreases FRAME_POOL - i,
    {
        if !f.v[i].in_use {
            let gen: u32 = f.v[i].gen;
            f.v[i] = FrameObj { in_use: true, phys, maps: 0, gen };
            return Some((i as u8, gen));
        }
        i += 1;
    }
    None
}

/// Frame object `e` is live and of generation `gen`.
pub open spec fn frame_live(e: FrameObj, gen: u32) -> bool {
    e.in_use && e.gen == gen
}

/// Check that frame `idx` is live at generation `gen` and account a mapping of it, in
/// one step; returns its address.
pub fn frame_checkout(f: &mut Frames, idx: u8, gen: u32) -> (r: Option<u64>)
    requires
        old(f).wf(),
        idx < FRAME_POOL,
        frame_live(old(f).v@[idx as int], gen) ==> old(f).v@[idx as int].maps < u32::MAX,
    ensures
        final(f).wf(),
        r == (if frame_live(old(f).v@[idx as int], gen) {
            Some(old(f).v@[idx as int].phys)
        } else {
            None
        }),
        r is None ==> *final(f) == *old(f),
        r is Some ==> final(f).v@ == old(f).v@.update(
            idx as int,
            FrameObj {
                maps: (old(f).v@[idx as int].maps + 1) as u32,
                ..old(f).v@[idx as int]
            },
        ),
{
    let i: usize = idx as usize;
    let e = f.v[i];
    if e.in_use && e.gen == gen {
        f.v[i].maps = e.maps + 1;
        Some(e.phys)
    } else {
        None
    }
}

/// A handle to a frame whose last mapping went away matches nothing any more, neither
/// the freed slot nor the frame recorded in it next.
pub proof fn law_freed_frame_is_stale(v: Seq<FrameObj>, phys: u64, other: u64)
    requires
        drop_frees(v, phys),
    ensures
        ({
            let i = frame_from(v, phys, 0);
            let w = mapping_dropped(v, phys);
            &&& !frame_live(w[i], v[i].gen)
            &&& !frame_live(
                FrameObj { in_use: true, phys: other, maps: 0, gen: w[i].gen },
                v[i].gen,
            )
        }),
{
    lemma_frame_from(v, phys, 0);
}

/// The pool after `n` mappings of `phys` went away.
pub open spec fn mappings_dropped(v: Seq<FrameObj>, phys: u64, n: nat) -> Seq<FrameObj>
    decreases n,
{
    if n == 0 {
        v
    } else {
        mapping_dropped(mappings_dropped(v, phys, (n - 1) as nat), phys)
    }
}

/// Fewer mappings of a frame do not move its object.
proof fn lemma_same_slot(v: Seq<FrameObj>, w: Seq<FrameObj>, phys: u64, i: int)
    requires
        v.len() == w.len(),
        0 <= i,
        forall|k: int|
            0 <= k < v.len() ==> (#[trigger] w[k]).in_use == v[k].in_use && w[k].phys == v[k].phys,
    ensures
        frame_from(w, phys, i) == frame_from(v, phys, i),
    decreases v.len() - i,
{
    if i < v.len() {
        assert(w[i].in_use == v[i].in_use && w[i].phys == v[i].phys);
        lemma_same_slot(v, w, phys, i + 1);
    }
}

proof fn lemma_mappings_left(v: Seq<FrameObj>, phys: u64, k: nat)
    requires
        shared(v, phys),
        k < v[frame_from(v, phys, 0)].maps,
    ensures
        ({
            let i = frame_from(v, phys, 0);
            let w = mappings_dropped(v, phys, k);
            &&& frame_from(w, phys, 0) == i
            &&& w == v.update(i, FrameObj { maps: (v[i].maps - k) as u32, ..v[i] })
        }),
    decreases k,
{
    let i = frame_from(v, phys, 0);
    lemma_frame_from(v, phys, 0);
    if k == 0 {
        assert(v =~= v.update(i, v[i]));
    } else {
        lemma_mappings_left(v, phys, (k - 1) as nat);
        let w = mappings_dropped(v, phys, k);
        assert(w =~= v.update(i, FrameObj { maps: (v[i].maps - k) as u32, ..v[i] }));
        lemma_same_slot(v, w, phys, 0);
    }
}

/// A shared frame goes back to the allocator exactly when nobody maps it any more: of as
/// many drops as there are mappings the last one frees it, and none before.
pub proof fn law_frame_freed_at_last_mapping(v: Seq<FrameObj>, phys: u64, k: nat)
    requires
        shared(v, phys),
        k < v[frame_from(v, phys, 0)].maps,
    ensures
        drop_frees(mappings_dropped(v, phys, k), phys) == (k + 1 == v[frame_from(
            v,
            phys,
            0,
        )].maps),
{
    lemma_frame_from(v, phys, 0);
    lemma_mappings_left(v, phys, k);
}

} // verus!
