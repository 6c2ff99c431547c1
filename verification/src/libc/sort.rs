//! Sorting by a caller's order.
use vstd::prelude::*;

verus! {

/// The caller's order has been seen to let `x` stand before `y`: it does not
/// put `x` after `y`, or it puts `y` after `x`.
pub open spec fn in_order<T, F: Fn(&T, &T) -> i32>(f: F, x: T, y: T) -> bool {
    ||| exists|r: i32| #[trigger] call_ensures(f, (&x, &y), r) && r <= 0
    ||| exists|r: i32| #[trigger] call_ensures(f, (&y, &x), r) && r > 0
}

/// Each of the first `n` items may stand before the next.
pub open spec fn chained<T, F: Fn(&T, &T) -> i32>(f: F, s: Seq<T>, n: int) -> bool {
    forall|i: int|
        #![trigger s[i]]
        0 < i < n ==> in_order(f, s[i - 1], s[i])
}

/// The caller's order has been seen to put `x` behind `y`.
pub open spec fn behind<T, F: Fn(&T, &T) -> i32>(f: F, x: T, y: T) -> bool {
    exists|r: i32| #[trigger] call_ensures(f, (&x, &y), r) && r > 0
}

/// `b` holds the items of `a`, the one at place `i` coming from place `p[i]`, and two of
/// them change their order only where the caller's order puts the first behind the second.
pub open spec fn rearranged<T, F: Fn(&T, &T) -> i32>(
    f: F,
    a: Seq<T>,
    b: Seq<T>,
    p: Seq<int>,
) -> bool {
    &&& b.len() == a.len()
    &&& p.len() == a.len()
    &&& p.no_duplicates()
    &&& forall|i: int| 0 <= i < p.len() ==> 0 <= #[trigger] p[i] < a.len() && b[i] == a[p[i]]
    &&& forall|i: int, j: int|
        0 <= i < j < p.len() && #[trigger] p[i] > #[trigger] p[j] ==> behind(f, b[j], b[i])
}

/// Sort in place by insertion. The order says of two items, by a positive
/// number, that the first belongs behind the second. Items that it does not tell apart
/// keep the order they had.
pub fn qsort<T: Copy, F: Fn(&T, &T) -> i32>(v: &mut Vec<T>, order: F)
    requires
        forall|a: T, b: T| #[trigger] call_requires(order, (&a, &b)),
    ensures
        final(v)@.len() == old(v)@.len(),
        final(v)@.to_multiset() == old(v)@.to_multiset(),
        chained(order, final(v)@, final(v)@.len() as int),
        exists|p: Seq<int>| #[trigger] rearranged(order, old(v)@, final(v)@, p),
{
    let len: usize = v.len();
    let ghost mut p: Seq<int> = Seq::new(v@.len(), |k: int| k);
    assert(rearranged(order, old(v)@, v@, p));
    if len < 2 {
        return;
    }
    let mut i: usize = 1;
    while i < len
        invariant
            1 <= i <= len,
            len == v@.len(),
            len == old(v)@.len(),
            forall|a: T, b: T| #[trigger] call_requires(order, (&a, &b)),
            v@.to_multiset() == old(v)@.to_multiset(),
            chained(order, v@, i as int),
            rearranged(order, old(v)@, v@, p),
            forall|k: int| 0 <= k < i ==> #[trigger] p[k] < i,
            forall|k: int| i <= k < len ==> #[trigger] p[k] == k,
        decreases len - i,
    {
        let ghost base = v@;
        let tmp: T = v[i];
        let mut j: usize = i;
        let mut placed: bool = false;
        while j > 0 && !placed
            invariant
                j <= i < len,
                len == v@.len(),
                base.len() == len,
                tmp == base[i as int],
                forall|a: T, b: T| #[trigger] call_requires(order, (&a, &b)),
                chained(order, base, i as int),
                forall|k: int|
                    0 <= k < len && k != j ==> #[trigger] v@[k] == (if j < k <= i {
                        base[k - 1]
                    } else {
                        base[k]
                    }),
                forall|k: int| j <= k < i ==> behind(order, #[trigger] base[k], tmp),
                placed ==> j > 0 && (exists|r: i32|
                    #[trigger] call_ensures(order, (&base[j - 1], &tmp), r) && r <= 0),
            decreases j, (if placed {
                0int
            } else {
                1int
            }),
        {
            let x: T = v[j - 1];
            assert(x == base[j - 1]);
            let r: i32 = order(&x, &tmp);
            if r > 0 {
                v.set(j, x);
                j -= 1;
                assert(behind(order, base[j as int], tmp)) by {
                    assert(call_ensures(order, (&base[j as int], &tmp), r));
                }
            } else {
                placed = true;
                assert(call_ensures(order, (&base[j - 1], &tmp), r));
            }
        }
        v.set(j, tmp);
        proof {
            let moved = base.remove(i as int).insert(j as int, tmp);
            assert(v@ =~= moved) by {
                assert forall|k: int| 0 <= k < len implies v@[k] == moved[k] by {}
            }
            vstd::seq_lib::to_multiset_remove(base, i as int);
            vstd::seq_lib::to_multiset_insert(base.remove(i as int), j as int, tmp);
            vstd::seq_lib::to_multiset_contains(base, tmp);
            assert(base.contains(tmp));
            assert(base.to_multiset().remove(tmp).insert(tmp) =~= base.to_multiset());
            assert forall|k: int| #![trigger v@[k]] 0 < k < i + 1 implies in_order(
                order,
                v@[k - 1],
                v@[k],
            ) by {
                if k < j {
                    assert(v@[k] == base[k] && v@[k - 1] == base[k - 1]);
                    assert(in_order(order, base[k - 1], base[k]));
                } else if k == j {
                    assert(v@[k - 1] == base[k - 1]);
                } else if k == j + 1 {
                    assert(v@[k] == base[k - 1]);
                    assert(base[j as int] == base[k - 1]);
                    assert(behind(order, base[j as int], tmp));
                } else {
                    assert(v@[k] == base[k - 1] && v@[k - 1] == base[k - 2]);
                    assert(in_order(order, base[k - 2], base[k - 1]));
                }
            }
            let before = p;
            p = before.remove(i as int).insert(j as int, before[i as int]);
            lemma_inserted(order, old(v)@, base, v@, before, p, i as int, j as int);
        }
        i += 1;
    }
}

/// Moving the item at `i` forward to `j`, past items that belong behind it.
proof fn lemma_inserted<T, F: Fn(&T, &T) -> i32>(
    f: F,
    a: Seq<T>,
    base: Seq<T>,
    b: Seq<T>,
    p: Seq<int>,
    q: Seq<int>,
    i: int,
    j: int,
)
    requires
        rearranged(f, a, base, p),
        0 <= j <= i < a.len(),
        b =~= base.remove(i).insert(j, base[i]),
        q =~= p.remove(i).insert(j, p[i]),
        forall|k: int| j <= k < i ==> behind(f, #[trigger] base[k], base[i]),
        forall|k: int| 0 <= k < i ==> #[trigger] p[k] < i,
        forall|k: int| i <= k < a.len() ==> #[trigger] p[k] == k,
    ensures
        rearranged(f, a, b, q),
        forall|k: int| 0 <= k < i + 1 ==> #[trigger] q[k] < i + 1,
        forall|k: int| i + 1 <= k < a.len() ==> #[trigger] q[k] == k,
{
    let from = |k: int|
        if k == j {
            i
        } else if j < k <= i {
            k - 1
        } else {
            k
        };
    assert forall|k: int| 0 <= k < a.len() implies (#[trigger] q[k]) == p[from(k)] && b[k]
        == base[from(k)] && 0 <= from(k) < a.len() by {}
    assert(q.no_duplicates()) by {
        assert forall|x: int, y: int| 0 <= x < q.len() && 0 <= y < q.len() && x != y implies q[x]
            != q[y] by {
            assert(from(x) != from(y));
            assert(q[x] == p[from(x)] && q[y] == p[from(y)]);
        }
    }
    assert forall|x: int, y: int| 0 <= x < y < q.len() && #[trigger] q[x] > #[trigger] q[y] implies behind(
        f,
        b[y],
        b[x],
    ) by {
        assert(q[x] == p[from(x)] && q[y] == p[from(y)]);
        if x == j && y <= i {
            assert(behind(f, base[y - 1], base[i]));
        } else if x == j {
            assert(p[y] == y && p[i] == i);
        } else if y == j {
            assert(p[x] < i && p[i] == i);
        } else {
            assert(from(x) < from(y));
            assert(p[from(x)] > p[from(y)]);
        }
    }
}

/// Of two items for which the order answers 0 both ways, the one that stood first stands
/// first after the sort.
pub proof fn law_equal_items_keep_order<T, F: Fn(&T, &T) -> i32>(
    f: F,
    a: Seq<T>,
    b: Seq<T>,
    p: Seq<int>,
    i: int,
    j: int,
)
    requires
        rearranged(f, a, b, p),
        0 <= i < b.len(),
        0 <= j < b.len(),
        p[i] < p[j],
        forall|r: i32| #[trigger] call_ensures(f, (&b[i], &b[j]), r) ==> r == 0,
        forall|r: i32| #[trigger] call_ensures(f, (&b[j], &b[i]), r) ==> r == 0,
    ensures
        i < j,
{
    if j < i {
        assert(p[j] > p[i]);
        assert(behind(f, b[i], b[j]));
    }
}

/// Where the order agrees with a total and transitive one, the items end up
/// sorted by it.
pub proof fn law_sorted<T, F: Fn(&T, &T) -> i32>(
    f: F,
    s: Seq<T>,
    le: spec_fn(T, T) -> bool,
    i: int,
    j: int,
)
    requires
        chained(f, s, s.len() as int),
        forall|a: T, b: T, r: i32|
            #[trigger] call_ensures(f, (&a, &b), r) ==> (r <= 0 <==> le(a, b)),
        forall|a: T, b: T| #[trigger] le(a, b) || le(b, a),
        forall|a: T, b: T, c: T| #[trigger] le(a, b) && #[trigger] le(b, c) ==> le(a, c),
        0 <= i <= j < s.len(),
    ensures
        le(s[i], s[j]),
    decreases j - i,
{
    if i < j {
        law_sorted(f, s, le, i, j - 1);
        let x = s[j - 1];
        let y = s[j];
        assert(in_order(f, s[j - 1], s[j]));
        assert(le(x, y));
        assert(le(s[i], x) && le(x, y));
    } else {
        assert(le(s[i], s[i]) || le(s[i], s[i]));
    }
}

} // verus!
