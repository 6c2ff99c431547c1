//! The physical frame allocator: a bump pointer over one region, and a stack of frames
//! that came back.
use vstd::prelude::*;

verus! {

/// Bytes of a frame.
pub const FRAME_SIZE: u64 = 4096;

/// What a region of the memory map may be used for.
#[derive(Clone, Copy, PartialEq, Eq, Debug, Structural)]
pub enum RegionKind {
    Usable,
    BootloaderReclaimable,
    ExecutableAndModules,
    Other,
}

/// One region of the memory map.
#[derive(Clone, Copy)]
pub struct MemRegion {
    pub base: u64,
    pub length: u64,
    pub kind: RegionKind,
}

/// The allocator.
pub struct Pmm {
    /// Start of the managed region.
    pub base: u64,
    /// Next frame never handed out.
    pub next: u64,
    /// One past the end of the region.
    pub end: u64,
    /// Frames that came back, the one to hand out next last.
    pub free: Vec<u64>,
}

impl Pmm {
    pub open spec fn wf(&self) -> bool {
        &&& self.base <= self.next
        &&& self.base <= self.end
        &&& self.next <= self.end
        &&& self.end + FRAME_SIZE <= u64::MAX
    }
}

/// Bytes in the usable regions of `map`.
pub open spec fn usable_bytes(map: Seq<MemRegion>) -> nat
    decreases map.len(),
{
    if map.len() == 0 {
        0
    } else {
        usable_bytes(map.drop_last()) + (if map.last().kind == RegionKind::Usable {
            map.last().length as nat
        } else {
            0
        })
    }
}

/// Usable regions in `map`.
pub open spec fn usable_count(map: Seq<MemRegion>) -> nat
    decreases map.len(),
{
    if map.len() == 0 {
        0
    } else {
        usable_count(map.drop_last()) + (if map.last().kind == RegionKind::Usable {
            1nat
        } else {
            0
        })
    }
}

/// `(base, len)` is the first of the largest usable regions of `map`, or empty at 0 if
/// no usable region holds a byte.
pub open spec fn is_largest(map: Seq<MemRegion>, base: u64, len: u64) -> bool {
    &&& forall|i: int|
        0 <= i < map.len() && (#[trigger] map[i]).kind == RegionKind::Usable ==> map[i].length
            <= len
    &&& if len == 0 {
        base == 0
    } else {
        exists|i: int|
            #![trigger map[i]]
            {
                &&& 0 <= i < map.len()
                &&& map[i].kind == RegionKind::Usable
                &&& map[i].length == len
                &&& map[i].base == base
                &&& forall|j: int|
                    0 <= j < i && (#[trigger] map[j]).kind == RegionKind::Usable
                        ==> map[j].length < len
            }
    }
}

/// Set up the allocator over the largest usable region of `map`. Also returns the
/// usable bytes and the number of usable regions.
pub fn init(map: &[MemRegion]) -> (r: (Pmm, u64, u32))
    requires
        usable_bytes(map@) <= u64::MAX,
        usable_count(map@) <= u32::MAX,
        forall|i: int|
            0 <= i < map@.len() && (#[trigger] map@[i]).kind == RegionKind::Usable
                ==> map@[i].base + map@[i].length + FRAME_SIZE <= u64::MAX,
    ensures
        r.0.wf(),
        r.0.next == r.0.base,
        r.0.free@.len() == 0,
        is_largest(map@, r.0.base, (r.0.end - r.0.base) as u64),
        r.1 == usable_bytes(map@),
        r.2 == usable_count(map@),
{
    let mut total: u64 = 0;
    let mut count: u32 = 0;
    let mut best_base: u64 = 0;
    let mut best_len: u64 = 0;
    let mut i: usize = 0;
    let ghost mut w: int = 0;
    assert(map@.subrange(0, 0) =~= Seq::<MemRegion>::empty());
    while i < map.len()
        invariant
            i <= map@.len(),
            usable_bytes(map@) <= u64::MAX,
            usable_count(map@) <= u32::MAX,
            total == usable_bytes(map@.subrange(0, i as int)),
            count == usable_count(map@.subrange(0, i as int)),
            best_base + best_len + FRAME_SIZE <= u64::MAX,
            forall|i: int|
                0 <= i < map@.len() && (#[trigger] map@[i]).kind == RegionKind::Usable
                    ==> map@[i].base + map@[i].length + FRAME_SIZE <= u64::MAX,
            forall|k: int|
                0 <= k < i && (#[trigger] map@[k]).kind == RegionKind::Usable ==> map@[k].length
                    <= best_len,
            best_len == 0 ==> best_base == 0,
            best_len != 0 ==> {
                &&& 0 <= w < i
                &&& map@[w].kind == RegionKind::Usable
                &&& map@[w].length == best_len
                &&& map@[w].base == best_base
                &&& forall|j: int|
                    0 <= j < w && (#[trigger] map@[j]).kind == RegionKind::Usable
                        ==> map@[j].length < best_len
            },
        decreases map@.len() - i,
    {
        let e = map[i];
        proof {
            let now = map@.subrange(0, i + 1);
            assert(now.drop_last() =~= map@.subrange(0, i as int));
            assert(now.last() == e);
            lemma_prefix_bounds(map@, i + 1);
        }
        if e.kind == RegionKind::Usable {
            total += e.length;
            count += 1;
            if e.length > best_len {
                best_len = e.length;
                best_base = e.base;
                proof {
                    w = i as int;
                }
            }
        }
        i += 1;
    }
    assert(map@.subrange(0, map@.len() as int) =~= map@);
    (
        Pmm { base: best_base, next: best_base, end: best_base + best_len, free: Vec::new() },
        total,
        count,
    )
}

/// A part of the memory map holds no more than the whole.
proof fn lemma_prefix_bounds(map: Seq<MemRegion>, n: int)
    requires
        0 <= n <= map.len(),
    ensures
        usable_bytes(map.subrange(0, n)) <= usable_bytes(map),
        usable_count(map.subrange(0, n)) <= usable_count(map),
    decreases map.len(),
{
    if n == map.len() {
        assert(map.subrange(0, n) =~= map);
    } else {
        lemma_prefix_bounds(map.drop_last(), n);
        assert(map.drop_last().subrange(0, n) =~= map.subrange(0, n));
    }
}

/// `(used, total)` bytes of the managed region.
pub fn stats(p: &Pmm) -> (r: (u64, u64))
    requires
        p.wf(),
        p.free@.len() * FRAME_SIZE <= u64::MAX,
    ensures
        r.1 == p.end - p.base,
        r.0 == (if p.next - p.base >= p.free@.len() * FRAME_SIZE {
            p.next - p.base - p.free@.len() * FRAME_SIZE
        } else {
            0
        }),
{
    let freed: u64 = p.free.len() as u64 * FRAME_SIZE;
    let used: u64 = (p.next - p.base).saturating_sub(freed);
    (used, p.end - p.base)
}

/// The frame the allocator hands out next.
pub open spec fn next_frame(p: Pmm) -> Option<u64> {
    if p.free@.len() > 0 {
        Some(p.free@.last())
    } else if p.next + FRAME_SIZE <= p.end {
        Some(p.next)
    } else {
        None
    }
}

/// Whether a frame is left.
pub fn has_frame(p: &Pmm) -> (b: bool)
    requires
        p.wf(),
    ensures
        b == (next_frame(*p) is Some),
{
    p.free.len() > 0 || FRAME_SIZE <= p.end - p.next
}

/// `b` is `a` after it handed out `next_frame(a)`.
pub open spec fn allocated(a: Pmm, b: Pmm) -> bool {
    &&& b.base == a.base
    &&& b.end == a.end
    &&& if a.free@.len() > 0 {
        b.free@ =~= a.free@.drop_last() && b.next == a.next
    } else {
        b.free@ =~= a.free@ && b.next == a.next + FRAME_SIZE
    }
}

/// Hand out one frame; a frame that came back goes before a new one. The caller clears
/// the frame.
pub fn alloc_frame(p: &mut Pmm) -> (r: Option<u64>)
    requires
        old(p).wf(),
    ensures
        final(p).wf(),
        r == next_frame(*old(p)),
        r is Some ==> allocated(*old(p), *final(p)),
        r is None ==> *final(p) == *old(p),
{
    if p.free.len() > 0 {
        return p.free.pop();
    }
    if p.next + FRAME_SIZE > p.end {
        return None;
    }
    let f: u64 = p.next;
    p.next += FRAME_SIZE;
    Some(f)
}

/// Hand out `n` frames in a row, off the bump pointer; returns the first.
pub fn alloc_contig(p: &mut Pmm, n: u64) -> (r: Option<u64>)
    requires
        old(p).wf(),
        n * FRAME_SIZE <= u64::MAX,
    ensures
        final(p).wf(),
        r is Some <==> old(p).next + n * FRAME_SIZE <= old(p).end,
        r is None ==> *final(p) == *old(p),
        r is Some ==> {
            &&& r->0 == old(p).next
            &&& *final(p) == (Pmm { next: (old(p).next + n * FRAME_SIZE) as u64, ..*old(p) })
        },
{
    let bytes: u64 = n * FRAME_SIZE;
    if bytes > p.end - p.next {
        return None;
    }
    let f: u64 = p.next;
    p.next += bytes;
    Some(f)
}

/// `b` is `a` after `frame` came back.
pub open spec fn freed(a: Pmm, b: Pmm, frame: u64) -> bool {
    &&& b.base == a.base
    &&& b.next == a.next
    &&& b.end == a.end
    &&& b.free@ =~= a.free@.push(frame)
}

/// Take a frame back.
pub fn free_frame(p: &mut Pmm, frame: u64)
    requires
        old(p).wf(),
    ensures
        final(p).wf(),
        freed(*old(p), *final(p), frame),
{
    p.free.push(frame);
}

/// The frame that came back last is the first to go out again.
pub proof fn law_last_in_first_out(a: Pmm, b: Pmm, frame: u64)
    requires
        freed(a, b, frame),
    ensures
        next_frame(b) == Some(frame),
{
}

/// The bookkeeping between the allocator and the frames `held` by its clients: no
/// frame is both held and free, free frames are distinct, and every frame ever handed
/// out lies below the bump pointer.
pub open spec fn accounts(p: Pmm, held: Set<u64>) -> bool {
    &&& p.free@.no_duplicates()
    &&& forall|i: int| 0 <= i < p.free@.len() ==> !held.contains(#[trigger] p.free@[i])
    &&& forall|i: int| 0 <= i < p.free@.len() ==> (#[trigger] p.free@[i]) < p.next
    &&& forall|f: u64| held.contains(f) ==> f < p.next
}

/// No frame is handed out twice: what is handed out was held by nobody, and the
/// accounts still balance.
pub proof fn law_no_double_allocation(a: Pmm, b: Pmm, held: Set<u64>)
    requires
        a.wf(),
        accounts(a, held),
        next_frame(a) is Some,
        allocated(a, b),
    ensures
        !held.contains(next_frame(a)->0),
        accounts(b, held.insert(next_frame(a)->0)),
{
    let f = next_frame(a)->0;
    if a.free@.len() > 0 {
        assert(a.free@[a.free@.len() - 1] == f);
        assert forall|i: int| 0 <= i < b.free@.len() implies !held.insert(f).contains(
            #[trigger] b.free@[i],
        ) by {
            assert(b.free@[i] == a.free@[i]);
        }
        assert forall|i: int| 0 <= i < b.free@.len() implies (#[trigger] b.free@[i]) < b.next by {
            assert(b.free@[i] == a.free@[i]);
        }
    }
}

/// A held frame that comes back is free, and the accounts still balance.
pub proof fn law_free_balances(a: Pmm, b: Pmm, held: Set<u64>, frame: u64)
    requires
        accounts(a, held),
        held.contains(frame),
        freed(a, b, frame),
    ensures
        accounts(b, held.remove(frame)),
{
    assert forall|i: int| 0 <= i < b.free@.len() implies !held.remove(frame).contains(
        #[trigger] b.free@[i],
    ) by {
        if i < a.free@.len() {
            assert(b.free@[i] == a.free@[i]);
        }
    }
    assert forall|i: int| 0 <= i < b.free@.len() implies (#[trigger] b.free@[i]) < b.next by {
        if i < a.free@.len() {
            assert(b.free@[i] == a.free@[i]);
        }
    }
    assert forall|i: int, j: int|
        0 <= i < b.free@.len() && 0 <= j < b.free@.len() && i != j implies b.free@[i]
        != b.free@[j] by {
        if i < a.free@.len() {
            assert(b.free@[i] == a.free@[i]);
        }
        if j < a.free@.len() {
            assert(b.free@[j] == a.free@[j]);
        }
    }
}

/// Frames the allocator can still hand out.
pub open spec fn capacity(p: Pmm) -> nat {
    p.free@.len() + ((p.end - p.next) / FRAME_SIZE as int) as nat
}

/// The `i`-th frame from now that the allocator hands out.
pub open spec fn handed_out(p: Pmm, i: int) -> u64 {
    if i < p.free@.len() {
        p.free@[p.free@.len() - 1 - i]
    } else {
        (p.next + (i - p.free@.len()) * FRAME_SIZE) as u64
    }
}

/// `b` is `a` after it handed out `n` frames.
pub open spec fn allocated_run(a: Pmm, b: Pmm, n: int) -> bool {
    &&& b.base == a.base
    &&& b.end == a.end
    &&& if n <= a.free@.len() {
        b.free@ =~= a.free@.subrange(0, a.free@.len() - n) && b.next == a.next
    } else {
        b.free@.len() == 0 && b.next == a.next + (n - a.free@.len()) * FRAME_SIZE
    }
}

/// `b` is `a` after it handed out all it had and got it all back.
pub open spec fn turned_over(a: Pmm, b: Pmm) -> bool {
    &&& b.base == a.base
    &&& b.end == a.end
    &&& b.next == a.next + (capacity(a) - a.free@.len()) * FRAME_SIZE
    &&& b.free@ =~= Seq::new(capacity(a), |i: int| handed_out(a, i))
}

/// Hand out `n` frames, or none: on a shortage those already taken go back.
pub fn alloc_many(p: &mut Pmm, n: u64) -> (r: Option<Vec<u64>>)
    requires
        old(p).wf(),
    ensures
        final(p).wf(),
        r is Some <==> n <= capacity(*old(p)),
        match r {
            Some(v) => {
                &&& v@ == Seq::new(n as nat, |i: int| handed_out(*old(p), i))
                &&& allocated_run(*old(p), *final(p), n as int)
            },
            None => turned_over(*old(p), *final(p)),
        },
{
    let mut v: Vec<u64> = Vec::new();
    let mut i: u64 = 0;
    while i < n
        invariant
            p.wf(),
            old(p).wf(),
            i <= n,
            i <= capacity(*old(p)),
            v@ =~= Seq::new(i as nat, |k: int| handed_out(*old(p), k)),
            allocated_run(*old(p), *p, i as int),
        decreases n - i,
    {
        let ghost before = *p;
        match alloc_frame(p) {
            Some(f) => {
                v.push(f);
                proof {
                    if i < old(p).free@.len() {
                    } else {
                        assert(before.next + FRAME_SIZE <= before.end);
                    }
                }
            },
            None => {
                let ghost taken = v@;
                let mut k: usize = 0;
                let ghost short = *p;
                while k < v.len()
                    invariant
                        p.wf(),
                        k <= v@.len(),
                        v@ == taken,
                        short.free@.len() == 0,
                        p.base == short.base && p.end == short.end && p.next == short.next,
                        p.free@ =~= taken.subrange(0, k as int),
                    decreases v@.len() - k,
                {
                    free_frame(p, v[k]);
                    k += 1;
                }
                return None;
            },
        }
        i += 1;
    }
    Some(v)
}

} // verus!
