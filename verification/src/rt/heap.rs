//! The heap of a program: power-of-two size classes, each with a stack of freed
//! blocks, over a region that is carved from the bottom and mapped as it grows.
use vstd::arithmetic::power2::{lemma_pow2_pos, lemma_pow2_strictly_increases, pow2};
use vstd::prelude::*;

verus! {

/// First address of the region.
pub const HEAP_BASE: u64 = 0x3000_0000;

/// End of the region.
pub const HEAP_LIMIT: u64 = 0x3400_0000;

/// Exponent of the smallest class.
pub const MIN_BUCKET: usize = 4;

/// Number of classes.
pub const NBUCKETS: usize = 40;

/// The larger of a block's size and alignment, at least one.
pub open spec fn need_of(size: u64, align: u64) -> int {
    if size >= align && size >= 1 {
        size as int
    } else if align >= 1 {
        align as int
    } else {
        1
    }
}

/// `b` is the class of a request for `need` bytes: the least exponent, from
/// `MIN_BUCKET` up, whose power of two reaches it.
pub open spec fn is_class(b: int, need: int) -> bool {
    &&& b >= MIN_BUCKET
    &&& pow2(b as nat) >= need
    &&& b > MIN_BUCKET ==> pow2((b - 1) as nat) < need
}

/// The class of a request for `size` bytes aligned to `align`.
pub open spec fn class_of(size: u64, align: u64) -> int {
    choose|b: int| is_class(b, need_of(size, align))
}

/// A request has one class.
proof fn lemma_class_unique(a: int, b: int, need: int)
    requires
        is_class(a, need),
        is_class(b, need),
    ensures
        a == b,
{
    if a < b {
        if a < b - 1 {
            lemma_pow2_strictly_increases(a as nat, (b - 1) as nat);
        }
    } else if b < a {
        if b < a - 1 {
            lemma_pow2_strictly_increases(b as nat, (a - 1) as nat);
        }
    }
}

/// Twice a power of two is the next one.
proof fn lemma_double(n: nat)
    ensures
        pow2(n + 1) == 2 * pow2(n),
        pow2(n) > 0,
{
    vstd::arithmetic::power2::lemma_pow2_unfold(n + 1);
    lemma_pow2_pos(n);
}

/// The class of a request for `size` bytes aligned to `align`.
pub fn bucket_of(size: u64, align: u64) -> (b: usize)
    ensures
        is_class(b as int, need_of(size, align)),
        b == class_of(size, align),
        b <= 64,
{
    let mut need: u64 = size;
    if need < align {
        need = align;
    }
    if need < 1 {
        need = 1;
    }
    let mut b: usize = MIN_BUCKET;
    let mut class: u64 = 16;
    proof {
        vstd::arithmetic::power2::lemma2_to64();
        lemma_double(63);
    }
    while class < need
        invariant
            MIN_BUCKET <= b <= 63,
            class == pow2(b as nat),
            b > MIN_BUCKET ==> pow2((b - 1) as nat) < need,
            need == need_of(size, align),
            pow2(63) == 0x8000_0000_0000_0000,
            pow2(64) == 0x1_0000_0000_0000_0000,
        decreases 64 - b,
    {
        proof {
            lemma_double(b as nat);
        }
        if b == 63 {
            proof {
                assert(is_class(64, need as int));
                lemma_class_unique(64, class_of(size, align), need as int);
            }
            return 64;
        }
        proof {
            if b + 1 < 63 {
                lemma_pow2_strictly_increases((b + 1) as nat, 63);
            }
        }
        class = 2 * class;
        b += 1;
    }
    proof {
        assert(is_class(b as int, need as int));
        lemma_class_unique(b as int, class_of(size, align), need as int);
    }
    b
}

/// What a request is answered.
#[derive(Clone, Copy, PartialEq, Eq, Structural, Debug)]
pub enum Alloc {
    /// A block at this address.
    Block(u64),
    /// These pages have to be mapped first.
    Grow { vaddr: u64, len: u64 },
    /// No block.
    Fail,
}

/// The allocator.
pub struct Slab {
    /// The next address that was never handed out.
    pub bump: u64,
    /// End of what is mapped.
    pub mapped_end: u64,
    /// The freed blocks of each class.
    pub free: Vec<Vec<u64>>,
}

/// The allocator's state as a value.
#[verifier::ext_equal]
pub struct SlabView {
    pub bump: u64,
    pub mapped_end: u64,
    pub free: Seq<Seq<u64>>,
}

/// The first multiple of `class` from `at` on.
pub open spec fn align_up(at: int, class: int) -> int {
    ((at + class - 1) / class) * class
}

/// Two blocks, each an address and a class, share no byte.
pub open spec fn apart(a: (u64, int), b: (u64, int)) -> bool {
    ||| a.0 + pow2(a.1 as nat) <= b.0
    ||| b.0 + pow2(b.1 as nat) <= a.0
}

impl SlabView {
    /// `k` is a block that was carved.
    pub open spec fn carved(self, k: (u64, int)) -> bool {
        &&& MIN_BUCKET <= k.1 < NBUCKETS
        &&& HEAP_BASE <= k.0
        &&& k.0 + pow2(k.1 as nat) <= self.bump
        &&& k.0 as int % pow2(k.1 as nat) as int == 0
    }

    /// The region is consistent and the freed blocks are carved and disjoint.
    pub open spec fn wf(self) -> bool {
        &&& self.free.len() == NBUCKETS
        &&& HEAP_BASE <= self.bump <= self.mapped_end <= HEAP_LIMIT
        &&& self.mapped_end % 4096 == 0
        &&& forall|c: int, i: int|
            0 <= c < NBUCKETS && 0 <= i < self.free[c].len() ==> self.carved(
                (#[trigger] self.free[c][i], c),
            )
        &&& forall|c: int, i: int, d: int, j: int|
            0 <= c < NBUCKETS && 0 <= i < self.free[c].len() && 0 <= d < NBUCKETS && 0 <= j
                < self.free[d].len() && (c != d || i != j) ==> apart(
                (#[trigger] self.free[c][i], c),
                (#[trigger] self.free[d][j], d),
            )
    }

    /// What a request of class `b` is answered, and the state after it.
    pub open spec fn answer(self, b: int) -> (Alloc, SlabView) {
        let start = align_up(self.bump as int, pow2(b as nat) as int);
        let end = start + pow2(b as nat);
        if b >= NBUCKETS {
            (Alloc::Fail, self)
        } else if self.free[b].len() > 0 {
            (
                Alloc::Block(self.free[b].last()),
                SlabView { free: self.free.update(b, self.free[b].drop_last()), ..self },
            )
        } else if end > HEAP_LIMIT {
            (Alloc::Fail, self)
        } else if end > self.mapped_end {
            (
                Alloc::Grow {
                    vaddr: self.mapped_end,
                    len: align_up(end - self.mapped_end, 4096) as u64,
                },
                self,
            )
        } else {
            (Alloc::Block(start as u64), SlabView { bump: end as u64, ..self })
        }
    }

    /// The state after a block of class `b` is given back.
    pub open spec fn freed(self, ptr: u64, b: int) -> SlabView {
        SlabView { free: self.free.update(b, self.free[b].push(ptr)), ..self }
    }

    /// `live` are blocks in use: carved, disjoint from each other and from
    /// every freed block.
    pub open spec fn owns(self, live: Seq<(u64, int)>) -> bool {
        &&& forall|i: int| 0 <= i < live.len() ==> self.carved(#[trigger] live[i])
        &&& forall|i: int, j: int|
            0 <= i < live.len() && 0 <= j < live.len() && i != j ==> apart(
                #[trigger] live[i],
                #[trigger] live[j],
            )
        &&& forall|i: int, c: int, j: int|
            0 <= i < live.len() && 0 <= c < NBUCKETS && 0 <= j < self.free[c].len() ==> apart(
                #[trigger] live[i],
                (#[trigger] self.free[c][j], c),
            )
    }
}

/// Facts on the first multiple of a class from an address on.
proof fn lemma_align_up(at: int, class: int)
    requires
        at >= 0,
        class > 0,
    ensures
        at <= align_up(at, class) < at + class,
        align_up(at, class) % class == 0,
{
    let q = (at + class - 1) / class;
    vstd::arithmetic::div_mod::lemma_fundamental_div_mod(at + class - 1, class);
    vstd::arithmetic::div_mod::lemma_mod_division_less_than_divisor(at + class - 1, class);
    assert(q * class == class * q) by (nonlinear_arith);
    vstd::arithmetic::div_mod::lemma_mod_multiples_basic(q, class);
}

impl Slab {
    /// The state as a value.
    pub open spec fn view(&self) -> SlabView {
        SlabView {
            bump: self.bump,
            mapped_end: self.mapped_end,
            free: Seq::new(self.free@.len(), |c: int| self.free@[c]@),
        }
    }

    /// A heap of which nothing is used.
    pub fn new() -> (s: Slab)
        ensures
            s@.wf(),
            s@.bump == HEAP_BASE,
            s@.mapped_end == HEAP_BASE,
            forall|c: int| 0 <= c < NBUCKETS ==> (#[trigger] s@.free[c]).len() == 0,
            s@.owns(Seq::empty()),
    {
        let mut free: Vec<Vec<u64>> = Vec::new();
        let mut i: usize = 0;
        while i < NBUCKETS
            invariant
                i <= NBUCKETS,
                free@.len() == i,
                forall|c: int| 0 <= c < i ==> (#[trigger] free@[c])@.len() == 0,
            decreases NBUCKETS - i,
        {
            free.push(Vec::new());
            i += 1;
        }
        Slab { bump: HEAP_BASE, mapped_end: HEAP_BASE, free }
    }

    /// Serve a request. On `Grow` the pages are mapped, `grown` is told, and the
    /// request is made again.
    pub fn allocate(&mut self, size: u64, align: u64) -> (r: Alloc)
        requires
            old(self)@.wf(),
        ensures
            final(self)@.wf(),
            (r, final(self)@) == old(self)@.answer(class_of(size, align)),
    {
        let b: usize = bucket_of(size, align);
        if b >= NBUCKETS {
            assert(self@ =~= old(self)@);
            return Alloc::Fail;
        }
        let ghost before = self@;
        assert(before.free[b as int] == self.free@[b as int]@);
        let n: usize = self.free[b].len();
        if n > 0 {
            let head: u64 = self.free[b][n - 1];
            let stack = &mut self.free[b];
            stack.truncate(n - 1);
            proof {
                assert(self@.free =~= before.free.update(
                    b as int,
                    before.free[b as int].drop_last(),
                ));
            }
            return Alloc::Block(head);
        }
        let mut class: u64 = 16;
        let mut k: usize = MIN_BUCKET;
        proof {
            vstd::arithmetic::power2::lemma2_to64();
            vstd::arithmetic::power2::lemma_pow2_adds(32, 7);
        }
        while k < b
            invariant
                MIN_BUCKET <= k <= b < NBUCKETS,
                class == pow2(k as nat),
                pow2(39) == 0x80_0000_0000,
            decreases b - k,
        {
            proof {
                lemma_double(k as nat);
                if k < 39 {
                    lemma_pow2_strictly_increases(k as nat, 39);
                }
            }
            class = 2 * class;
            k += 1;
        }
        proof {
            if b < 39 {
                lemma_pow2_strictly_increases(b as nat, 39);
            }
            lemma_align_up(self.bump as int, class as int);
        }
        let q: u64 = (self.bump + class - 1) / class;
        proof {
            assert(q as int * class as int == align_up(self.bump as int, class as int));
        }
        let start: u64 = q * class;
        let end: u64 = start + class;
        if end > HEAP_LIMIT {
            assert(self@ =~= before);
            return Alloc::Fail;
        }
        if end > self.mapped_end {
            proof {
                lemma_align_up(end - self.mapped_end, 4096);
            }
            let len: u64 = ((end - self.mapped_end + 4095) / 4096) * 4096;
            assert(self@ =~= before);
            return Alloc::Grow { vaddr: self.mapped_end, len };
        }
        self.bump = end;
        assert(self@ =~= (SlabView { bump: end, ..before }));
        Alloc::Block(start)
    }

    /// The pages that a request asked for are mapped.
    pub fn grown(&mut self, len: u64)
        requires
            old(self)@.wf(),
            len % 4096 == 0,
            old(self).mapped_end + len <= HEAP_LIMIT,
        ensures
            final(self)@.wf(),
            final(self)@ == (SlabView {
                mapped_end: (old(self).mapped_end + len) as u64,
                ..old(self)@
            }),
    {
        self.mapped_end = self.mapped_end + len;
        assert(self@ =~= (SlabView {
            mapped_end: (old(self).mapped_end + len) as u64,
            ..old(self)@
        }));
    }

    /// Take a block back.
    pub fn dealloc(&mut self, ptr: u64, size: u64, align: u64)
        requires
            old(self)@.wf(),
            old(self)@.owns(seq![(ptr, class_of(size, align))]),
        ensures
            final(self)@.wf(),
            final(self)@ == old(self)@.freed(ptr, class_of(size, align)),
    {
        let b: usize = bucket_of(size, align);
        let ghost before = self@;
        assert(before.owns(seq![(ptr, b as int)]));
        assert(seq![(ptr, b as int)][0] == (ptr, b as int));
        assert(before.free[b as int] == self.free@[b as int]@);
        let stack = &mut self.free[b];
        stack.push(ptr);
        proof {
            assert(self@.free =~= before.free.update(b as int, before.free[b as int].push(ptr)));
            assert(self@ =~= before.freed(ptr, b as int));
        }
    }
}

/// A block handed out reaches the size and the alignment asked for, and shares
/// no byte with a block in use or a freed one.
pub proof fn law_blocks_are_disjoint(
    s: SlabView,
    live: Seq<(u64, int)>,
    b: int,
    size: u64,
    align: u64,
)
    requires
        s.wf(),
        s.owns(live),
        is_class(b, need_of(size, align)),
        s.answer(b).0 is Block,
    ensures
        s.answer(b).1.owns(live.push((s.answer(b).0->0, b))),
        pow2(b as nat) >= size,
        pow2(b as nat) >= align,
        s.answer(b).0->0 as int % pow2(b as nat) as int == 0,
{
    let t = s.answer(b).1;
    let a = s.answer(b).0->0;
    let now = live.push((a, b));
    lemma_pow2_pos(b as nat);
    if s.free[b].len() > 0 {
        let n = s.free[b].len() - 1;
        assert(a == s.free[b][n]);
        assert(s.carved((s.free[b][n], b)));
        assert forall|c: int, j: int| 0 <= c < NBUCKETS && 0 <= j < t.free[c].len() implies
            #[trigger] t.free[c][j] == s.free[c][j] && j < s.free[c].len() && (c != b || j < n) by {
        }
        assert forall|i: int, c: int, j: int|
            0 <= i < now.len() && 0 <= c < NBUCKETS && 0 <= j < t.free[c].len() implies apart(
            #[trigger] now[i],
            (#[trigger] t.free[c][j], c),
        ) by {
            assert(t.free[c][j] == s.free[c][j]);
            if i < live.len() {
                assert(now[i] == live[i]);
            } else {
                assert(apart((s.free[b][n], b), (s.free[c][j], c)));
            }
        }
        assert forall|i: int, j: int| 0 <= i < now.len() && 0 <= j < now.len() && i != j implies apart(
            #[trigger] now[i],
            #[trigger] now[j],
        ) by {
            if i < live.len() && j < live.len() {
                assert(apart(live[i], live[j]));
            } else if i < live.len() {
                assert(apart(live[i], (s.free[b][n], b)));
            } else {
                assert(apart(live[j], (s.free[b][n], b)));
            }
        }
        assert forall|i: int| 0 <= i < now.len() implies t.carved(#[trigger] now[i]) by {
            if i < live.len() {
                assert(now[i] == live[i]);
                assert(s.carved(live[i]));
            }
        }
    } else {
        lemma_align_up(s.bump as int, pow2(b as nat) as int);
        assert forall|i: int| 0 <= i < now.len() implies t.carved(#[trigger] now[i]) by {
            if i < live.len() {
                assert(now[i] == live[i]);
                assert(s.carved(live[i]));
            }
        }
        assert forall|i: int, j: int| 0 <= i < now.len() && 0 <= j < now.len() && i != j implies apart(
            #[trigger] now[i],
            #[trigger] now[j],
        ) by {
            if i < live.len() && j < live.len() {
                assert(apart(live[i], live[j]));
            } else if i < live.len() {
                assert(s.carved(live[i]));
            } else {
                assert(s.carved(live[j]));
            }
        }
        assert forall|i: int, c: int, j: int|
            0 <= i < now.len() && 0 <= c < NBUCKETS && 0 <= j < t.free[c].len() implies apart(
            #[trigger] now[i],
            (#[trigger] t.free[c][j], c),
        ) by {
            assert(t.free[c][j] == s.free[c][j]);
            if i < live.len() {
                assert(now[i] == live[i]);
            } else {
                assert(s.carved((s.free[c][j], c)));
            }
        }
    }
}

/// A block that is given back is no longer in use, and the others still are.
pub proof fn law_freed_block_is_released(s: SlabView, live: Seq<(u64, int)>, k: int)
    requires
        s.wf(),
        s.owns(live),
        0 <= k < live.len(),
    ensures
        s.freed(live[k].0, live[k].1).wf(),
        s.freed(live[k].0, live[k].1).owns(live.remove(k)),
{
    let (ptr, b) = live[k];
    let t = s.freed(ptr, b);
    let now = live.remove(k);
    assert(s.carved(live[k]));
    let n = s.free[b].len() as int;
    assert forall|c: int, j: int| 0 <= c < NBUCKETS && 0 <= j < t.free[c].len() implies if c == b && j
        == n {
        #[trigger] t.free[c][j] == ptr
    } else {
        t.free[c][j] == s.free[c][j] && j < s.free[c].len()
    } by {}
    assert forall|c: int, i: int, d: int, j: int|
        0 <= c < NBUCKETS && 0 <= i < t.free[c].len() && 0 <= d < NBUCKETS && 0 <= j
            < t.free[d].len() && (c != d || i != j) implies apart(
        (#[trigger] t.free[c][i], c),
        (#[trigger] t.free[d][j], d),
    ) by {
        if c == b && i == n {
            assert(apart(live[k], (s.free[d][j], d)));
        } else if d == b && j == n {
            assert(apart(live[k], (s.free[c][i], c)));
        } else {
            assert(apart((s.free[c][i], c), (s.free[d][j], d)));
        }
    }
    assert forall|i: int| 0 <= i < now.len() implies #[trigger] now[i] == live[if i < k {
        i
    } else {
        i + 1
    }] by {}
    assert forall|i: int, c: int, j: int|
        0 <= i < now.len() && 0 <= c < NBUCKETS && 0 <= j < t.free[c].len() implies apart(
        #[trigger] now[i],
        (#[trigger] t.free[c][j], c),
    ) by {
        let m = if i < k {
            i
        } else {
            i + 1
        };
        if c == b && j == n {
            assert(apart(live[m], live[k]));
        } else {
            assert(apart(live[m], (s.free[c][j], c)));
        }
    }
}

/// A block that is given back serves the next request of its class.
pub proof fn law_freed_block_is_reused(s: SlabView, ptr: u64, b: int)
    requires
        s.free.len() == NBUCKETS,
        MIN_BUCKET <= b < NBUCKETS,
    ensures
        s.freed(ptr, b).answer(b).0 == Alloc::Block(ptr),
        s.freed(ptr, b).answer(b).1 == s,
{
    let t = s.freed(ptr, b);
    assert(t.free[b].drop_last() =~= s.free[b]);
    assert(t.answer(b).1.free =~= s.free);
}

/// Mapping what a request asked for lets the request succeed.
pub proof fn law_grown_request_succeeds(s: SlabView, b: int)
    requires
        s.wf(),
        b >= MIN_BUCKET,
        s.answer(b).0 is Grow,
    ensures
        ({
            let len = s.answer(b).0->len;
            let t = SlabView { mapped_end: (s.mapped_end + len) as u64, ..s };
            &&& s.mapped_end + len <= HEAP_LIMIT
            &&& len % 4096 == 0
            &&& t.answer(b).0 is Block
        }),
{
    let end = align_up(s.bump as int, pow2(b as nat) as int) + pow2(b as nat);
    lemma_align_up(end - s.mapped_end, 4096);
}

} // verus!
