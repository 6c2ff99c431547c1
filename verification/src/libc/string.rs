//! Strings that end at their first zero byte. A slice without one is a string
//! that ends with the slice.
use crate::bytes;
use crate::bytes::nul_len;
use crate::rt::packet;
use vstd::prelude::*;
use vstd::slice::slice_subrange;

verus! {

/// The text of a string.
pub open spec fn text(s: Seq<u8>) -> Seq<u8> {
    bytes::until_nul(s)
}

/// How two byte strings compare: the difference of their first bytes that
/// differ, the end of one counting as zero.
pub open spec fn order(a: Seq<u8>, b: Seq<u8>) -> int
    decreases a.len(),
{
    if a.len() == 0 && b.len() == 0 {
        0
    } else if a.len() == 0 {
        0 - b[0]
    } else if b.len() == 0 {
        a[0] as int
    } else if a[0] != b[0] {
        a[0] - b[0]
    } else {
        order(a.subrange(1, a.len() as int), b.subrange(1, b.len() as int))
    }
}

/// Equal beginnings do not decide.
proof fn lemma_order_step(a: Seq<u8>, b: Seq<u8>, i: int)
    requires
        0 <= i < a.len(),
        i < b.len(),
        a[i] == b[i],
    ensures
        order(a.subrange(i, a.len() as int), b.subrange(i, b.len() as int)) == order(
            a.subrange(i + 1, a.len() as int),
            b.subrange(i + 1, b.len() as int),
        ),
{
    let x = a.subrange(i, a.len() as int);
    let y = b.subrange(i, b.len() as int);
    assert(x.subrange(1, x.len() as int) =~= a.subrange(i + 1, a.len() as int));
    assert(y.subrange(1, y.len() as int) =~= b.subrange(i + 1, b.len() as int));
}

/// The difference of two bytes.
fn diff(a: u8, b: u8) -> (d: i32)
    ensures
        d == a - b,
{
    a as i32 - b as i32
}

/// Compare two byte strings.
pub fn compare(a: &[u8], b: &[u8]) -> (d: i32)
    ensures
        d == order(a@, b@),
{
    let mut i: usize = 0;
    assert(a@.subrange(0, a@.len() as int) =~= a@);
    assert(b@.subrange(0, b@.len() as int) =~= b@);
    while i < a.len() && i < b.len()
        invariant
            i <= a.len(),
            i <= b.len(),
            order(a@, b@) == order(
                a@.subrange(i as int, a@.len() as int),
                b@.subrange(i as int, b@.len() as int),
            ),
        decreases a.len() - i,
    {
        if a[i] != b[i] {
            return diff(a[i], b[i]);
        }
        proof {
            lemma_order_step(a@, b@, i as int);
        }
        i += 1;
    }
    if i < a.len() {
        diff(a[i], 0)
    } else if i < b.len() {
        diff(0, b[i])
    } else {
        0
    }
}

/// The length of a string.
pub fn strlen(s: &[u8]) -> (n: usize)
    ensures
        n == text(s@).len(),
{
    proof {
        bytes::lemma_nul_index(s@);
    }
    nul_len(s)
}

/// The text of a string.
pub fn content(s: &[u8]) -> (t: &[u8])
    ensures
        t@ == text(s@),
{
    slice_subrange(s, 0, nul_len(s))
}

/// The text of a string, cut to `n` bytes.
pub fn content_upto(s: &[u8], n: usize) -> (t: &[u8])
    ensures
        t@ == packet::first(text(s@), n as int),
{
    let t = content(s);
    if t.len() <= n {
        t
    } else {
        slice_subrange(t, 0, n)
    }
}

/// The first `n` of some bytes.
pub open spec fn head(s: Seq<u8>, n: usize) -> Seq<u8> {
    s.subrange(0, n as int)
}

/// Compare the first `n` bytes.
pub fn memcmp(a: &[u8], b: &[u8], n: usize) -> (d: i32)
    requires
        n <= a.len(),
        n <= b.len(),
    ensures
        d == order(head(a@, n), head(b@, n)),
{
    compare(slice_subrange(a, 0, n), slice_subrange(b, 0, n))
}

/// Compare two strings.
pub fn strcmp(a: &[u8], b: &[u8]) -> (d: i32)
    ensures
        d == order(text(a@), text(b@)),
{
    compare(content(a), content(b))
}

/// The text of a string, cut to `n` bytes.
pub open spec fn text_upto(s: Seq<u8>, n: usize) -> Seq<u8> {
    packet::first(text(s), n as int)
}

/// Compare at most `n` bytes of two strings.
pub fn strncmp(a: &[u8], b: &[u8], n: usize) -> (d: i32)
    ensures
        d == order(text_upto(a@, n), text_upto(b@, n)),
{
    compare(content_upto(a, n), content_upto(b, n))
}

/// Compare two strings as the plain locale does.
pub fn strcoll(a: &[u8], b: &[u8]) -> (d: i32)
    ensures
        d == order(text(a@), text(b@)),
{
    strcmp(a, b)
}

/// Comparing gives zero exactly for equal texts, provided neither holds a zero,
/// and changes its sign with the order of the two.
pub proof fn law_order(a: Seq<u8>, b: Seq<u8>)
    requires
        forall|i: int| 0 <= i < a.len() ==> a[i] != 0,
        forall|i: int| 0 <= i < b.len() ==> b[i] != 0,
    ensures
        order(a, b) == 0 <==> a == b,
        order(a, b) == -order(b, a),
    decreases a.len(),
{
    if a.len() == 0 && b.len() == 0 {
        assert(a =~= b);
    } else if a.len() > 0 && b.len() > 0 && a[0] == b[0] {
        let x = a.subrange(1, a.len() as int);
        let y = b.subrange(1, b.len() as int);
        law_order(x, y);
        if x == y {
            assert(a =~= b) by {
                assert forall|i: int| 0 <= i < a.len() implies a[i] == b[i] by {
                    if i > 0 {
                        assert(x[i - 1] == y[i - 1]);
                    }
                }
            }
        }
    }
}

/// Write the first `n` bytes of `src` over `dst` from `off` on.
fn put(dst: &mut [u8], off: usize, src: &[u8], n: usize)
    requires
        n <= src.len(),
        off + n <= old(dst).len(),
    ensures
        final(dst)@ == packet::written(old(dst)@, off as int, src@.subrange(0, n as int)),
{
    let ghost before = dst@;
    let len: usize = dst.len();
    let mut i: usize = 0;
    while i < n
        invariant
            i <= n <= src.len(),
            dst@.len() == before.len(),
            len == before.len(),
            off + n <= before.len(),
            dst@ =~= packet::written(before, off as int, src@.subrange(0, i as int)),
        decreases n - i,
    {
        dst[off + i] = src[i];
        i += 1;
    }
}

/// Write a text and its closing zero.
fn put_text(dst: &mut [u8], off: usize, t: &[u8])
    requires
        off + t.len() + 1 <= old(dst).len(),
    ensures
        final(dst)@ == packet::written(old(dst)@, off as int, t@.push(0)),
{
    put(dst, off, t, t.len());
    dst[off + t.len()] = 0;
    assert(dst@ =~= packet::written(old(dst)@, off as int, t@.push(0)));
}

/// Copy `n` bytes.
pub fn memcpy(dst: &mut [u8], src: &[u8], n: usize)
    requires
        n <= src.len(),
        n <= old(dst).len(),
    ensures
        final(dst)@ == packet::written(old(dst)@, 0, src@.subrange(0, n as int)),
{
    put(dst, 0, src, n);
}

/// Fill `n` bytes with the low byte of `c`.
pub fn memset(dst: &mut [u8], c: i32, n: usize)
    requires
        n <= old(dst).len(),
    ensures
        final(dst)@ == packet::written(old(dst)@, 0, Seq::new(n as nat, |i: int| c as u8)),
{
    let ghost before = dst@;
    let mut i: usize = 0;
    while i < n
        invariant
            i <= n <= before.len(),
            dst@.len() == before.len(),
            dst@ =~= packet::written(before, 0, Seq::new(i as nat, |k: int| c as u8)),
        decreases n - i,
    {
        dst[i] = c as u8;
        i += 1;
    }
}

/// Move `n` bytes inside a buffer from `src` to `dst`; the two may overlap.
pub fn memmove(buf: &mut [u8], dst: usize, src: usize, n: usize)
    requires
        src + n <= old(buf).len(),
        dst + n <= old(buf).len(),
    ensures
        final(buf)@ == packet::written(
            old(buf)@,
            dst as int,
            old(buf)@.subrange(src as int, src + n),
        ),
{
    let ghost before = buf@;
    let len: usize = buf.len();
    if dst <= src {
        let mut i: usize = 0;
        while i < n
            invariant
                i <= n,
                dst <= src,
                src + n <= before.len(),
                buf@.len() == before.len(),
                len == before.len(),
                buf@ =~= packet::written(
                    before,
                    dst as int,
                    before.subrange(src as int, src + i),
                ),
            decreases n - i,
        {
            assert(buf@[src + i] == before[src + i]);
            buf[dst + i] = buf[src + i];
            i += 1;
        }
    } else {
        let mut i: usize = n;
        while i > 0
            invariant
                i <= n,
                src < dst,
                dst + n <= before.len(),
                buf@.len() == before.len(),
                len == before.len(),
                buf@ =~= packet::written(
                    before,
                    dst + i,
                    before.subrange(src + i, src + n),
                ),
            decreases i,
        {
            i -= 1;
            assert(buf@[src + i] == before[src + i]);
            buf[dst + i] = buf[src + i];
        }
    }
}

/// Copy a string with its closing zero.
pub fn strcpy(dst: &mut [u8], src: &[u8])
    requires
        text(src@).len() + 1 <= old(dst).len(),
    ensures
        final(dst)@ == packet::written(old(dst)@, 0, text(src@).push(0)),
{
    put_text(dst, 0, content(src));
}

/// Fill `n` bytes with a string, cut or padded with zeros.
pub fn strncpy(dst: &mut [u8], src: &[u8], n: usize)
    requires
        n <= old(dst).len(),
    ensures
        final(dst)@ == packet::written(old(dst)@, 0, bytes::padded(text(src@), n as nat)),
{
    let t = content(src);
    let ghost before = dst@;
    let mut i: usize = 0;
    while i < n
        invariant
            i <= n <= before.len(),
            dst@.len() == before.len(),
            dst@ =~= packet::written(before, 0, bytes::padded(t@, i as nat)),
        decreases n - i,
    {
        if i < t.len() {
            dst[i] = t[i];
        } else {
            dst[i] = 0;
        }
        i += 1;
    }
}

/// Append a string to the one in `dst`.
pub fn strcat(dst: &mut [u8], src: &[u8])
    requires
        text(old(dst)@).len() + text(src@).len() + 1 <= old(dst).len(),
    ensures
        final(dst)@ == packet::written(
            old(dst)@,
            text(old(dst)@).len() as int,
            text(src@).push(0),
        ),
{
    let at: usize = strlen(dst);
    put_text(dst, at, content(src));
}

/// Append at most `n` bytes of a string to the one in `dst`.
pub fn strncat(dst: &mut [u8], src: &[u8], n: usize)
    requires
        text(old(dst)@).len() + text_upto(src@, n).len() + 1 <= old(dst).len(),
    ensures
        final(dst)@ == packet::written(
            old(dst)@,
            text(old(dst)@).len() as int,
            text_upto(src@, n).push(0),
        ),
{
    let at: usize = strlen(dst);
    put_text(dst, at, content_upto(src, n));
}

/// A text written with its closing zero reads back as the string there.
proof fn lemma_text_there(buf: Seq<u8>, t: Seq<u8>)
    requires
        t.len() < buf.len(),
        forall|i: int| 0 <= i < t.len() ==> t[i] != 0,
        forall|i: int| 0 <= i < t.len() ==> buf[i] == t[i],
        buf[t.len() as int] == 0,
    ensures
        text(buf) == t,
{
    bytes::lemma_nul_index_unique(buf, t.len() as int);
    assert(text(buf) =~= t);
}

/// A copied string reads back.
pub proof fn law_copy_reads_back(dst: Seq<u8>, src: Seq<u8>)
    requires
        text(src).len() + 1 <= dst.len(),
    ensures
        text(packet::written(dst, 0, text(src).push(0))) == text(src),
{
    bytes::lemma_nul_index(src);
    let t = text(src);
    let buf = packet::written(dst, 0, t.push(0));
    assert forall|i: int| 0 <= i < t.len() implies buf[i] == t[i] by {
        assert(t.push(0)[i] == t[i]);
    }
    assert(buf[t.len() as int] == t.push(0)[t.len() as int]);
    lemma_text_there(buf, t);
}

/// Appending puts one text behind the other.
pub proof fn law_append_joins(dst: Seq<u8>, src: Seq<u8>)
    requires
        text(dst).len() + text(src).len() + 1 <= dst.len(),
    ensures
        text(packet::written(dst, text(dst).len() as int, text(src).push(0))) == text(dst) + text(
            src,
        ),
{
    bytes::lemma_nul_index(src);
    bytes::lemma_nul_index(dst);
    let d = text(dst);
    let s = text(src);
    let buf = packet::written(dst, d.len() as int, s.push(0));
    let t = d + s;
    assert forall|i: int| 0 <= i < t.len() implies buf[i] == t[i] by {
        if i >= d.len() {
            assert(s.push(0)[i - d.len()] == s[i - d.len()]);
        }
    }
    assert(buf[t.len() as int] == s.push(0)[s.len() as int]);
    lemma_text_there(buf, t);
}

/// A copy of a string, with its closing zero.
pub fn strdup(s: &[u8]) -> (v: Vec<u8>)
    ensures
        v@ == text(s@).push(0),
{
    let t = content(s);
    let mut v: Vec<u8> = Vec::new();
    let mut i: usize = 0;
    while i < t.len()
        invariant
            i <= t.len(),
            v@ =~= t@.subrange(0, i as int),
        decreases t.len() - i,
    {
        v.push(t[i]);
        i += 1;
    }
    v.push(0);
    assert(v@ =~= t@.push(0));
    v
}

/// The first position of a byte.
fn first_of(t: &[u8], c: u8) -> (n: usize)
    ensures
        n == bytes::first_of(t@, c),
        n <= t.len(),
{
    let mut n: usize = 0;
    while n < t.len() && t[n] != c
        invariant
            n <= t.len(),
            forall|i: int| 0 <= i < n ==> t@[i] != c,
        decreases t.len() - n,
    {
        n += 1;
    }
    proof {
        bytes::lemma_first_of_unique(t@, c, n as int);
    }
    n
}

/// Where the low byte of `c` first stands in a string, its closing zero counting.
pub fn strchr(s: &[u8], c: i32) -> (r: Option<usize>)
    ensures
        ({
            let t = text(s@).push(0);
            let n = bytes::first_of(t, c as u8);
            r == (if n < t.len() {
                Some(n as usize)
            } else {
                None
            })
        }),
{
    let t = content(s);
    let n: usize = first_of(t, c as u8);
    let ghost full = t@.push(0);
    if n < t.len() {
        proof {
            bytes::lemma_first_of(t@, c as u8);
            bytes::lemma_first_of_unique(full, c as u8, n as int);
        }
        Some(n)
    } else if c as u8 == 0 {
        proof {
            bytes::lemma_first_of(t@, c as u8);
            bytes::lemma_first_of_unique(full, c as u8, n as int);
        }
        Some(n)
    } else {
        proof {
            bytes::lemma_first_of(t@, c as u8);
            bytes::lemma_first_of_unique(full, c as u8, n + 1);
        }
        None
    }
}

/// Where the low byte of `c` first stands among the first `n` bytes.
pub fn memchr(s: &[u8], c: i32, n: usize) -> (r: Option<usize>)
    requires
        n <= s.len(),
    ensures
        ({
            let i = bytes::first_of(s@.subrange(0, n as int), c as u8);
            r == (if i < n {
                Some(i as usize)
            } else {
                None
            })
        }),
{
    let i: usize = first_of(slice_subrange(s, 0, n), c as u8);
    if i < n {
        Some(i)
    } else {
        None
    }
}

/// The last position of a byte.
pub open spec fn last_of(t: Seq<u8>, c: u8) -> Option<int>
    decreases t.len(),
{
    if t.len() == 0 {
        None
    } else if t.last() == c {
        Some(t.len() - 1)
    } else {
        last_of(t.drop_last(), c)
    }
}

/// Where the low byte of `c` last stands in a string, its closing zero counting.
pub fn strrchr(s: &[u8], c: i32) -> (r: Option<usize>)
    ensures
        r == (match last_of(text(s@).push(0), c as u8) {
            Some(n) => Some(n as usize),
            None => None,
        }),
{
    let t = content(s);
    let ghost full = t@.push(0);
    assert(full.drop_last() =~= t@);
    if c as u8 == 0 {
        return Some(t.len());
    }
    let mut n: usize = t.len();
    assert(t@.subrange(0, n as int) =~= t@);
    while n > 0
        invariant
            n <= t.len(),
            full == text(s@).push(0),
            last_of(full, c as u8) == last_of(t@.subrange(0, n as int), c as u8),
        decreases n,
    {
        assert(t@.subrange(0, n as int).drop_last() =~= t@.subrange(0, n - 1));
        if t[n - 1] == c as u8 {
            return Some(n - 1);
        }
        n -= 1;
    }
    None
}

/// How long a text begins with bytes that are, or are not, in a set.
pub open spec fn span(t: Seq<u8>, set: Seq<u8>, inside: bool) -> int
    decreases t.len(),
{
    if t.len() == 0 || set.contains(t[0]) != inside {
        0
    } else {
        1 + span(t.subrange(1, t.len() as int), set, inside)
    }
}

/// `span` is where the bytes first differ in belonging.
pub proof fn lemma_span(t: Seq<u8>, set: Seq<u8>, inside: bool)
    ensures
        0 <= span(t, set, inside) <= t.len(),
        forall|i: int| 0 <= i < span(t, set, inside) ==> set.contains(t[i]) == inside,
        span(t, set, inside) < t.len() ==> set.contains(t[span(t, set, inside)]) != inside,
    decreases t.len(),
{
    if t.len() == 0 || set.contains(t[0]) != inside {
    } else {
        let u = t.subrange(1, t.len() as int);
        lemma_span(u, set, inside);
        assert forall|i: int| 0 <= i < span(t, set, inside) implies set.contains(t[i]) == inside by {
            if i > 0 {
                assert(t[i] == u[i - 1]);
            }
        }
    }
}

/// Any position with those two properties is `span`.
proof fn lemma_span_unique(t: Seq<u8>, set: Seq<u8>, inside: bool, n: int)
    requires
        0 <= n <= t.len(),
        forall|i: int| 0 <= i < n ==> set.contains(t[i]) == inside,
        n < t.len() ==> set.contains(t[n]) != inside,
    ensures
        span(t, set, inside) == n,
{
    lemma_span(t, set, inside);
    let m = span(t, set, inside);
    if m < n {
        assert(set.contains(t[m]) == inside);
    } else if n < m {
        assert(set.contains(t[n]) == inside);
    }
}

/// Whether a byte is among others.
fn is_member(set: &[u8], c: u8) -> (b: bool)
    ensures
        b == set@.contains(c),
{
    let mut i: usize = 0;
    while i < set.len()
        invariant
            i <= set.len(),
            forall|k: int| 0 <= k < i ==> set@[k] != c,
        decreases set.len() - i,
    {
        if set[i] == c {
            assert(set@[i as int] == c);
            return true;
        }
        i += 1;
    }
    false
}

/// How long a text begins with bytes that are, or are not, in a set.
fn span_of(t: &[u8], set: &[u8], inside: bool) -> (n: usize)
    ensures
        n == span(t@, set@, inside),
        n <= t.len(),
{
    let mut n: usize = 0;
    while n < t.len() && is_member(set, t[n]) == inside
        invariant
            n <= t.len(),
            forall|i: int| 0 <= i < n ==> set@.contains(t@[i]) == inside,
        decreases t.len() - n,
    {
        n += 1;
    }
    proof {
        lemma_span_unique(t@, set@, inside, n as int);
    }
    n
}

/// How many bytes a string begins with that are in `set`.
pub fn strspn(s: &[u8], set: &[u8]) -> (n: usize)
    ensures
        n == span(text(s@), text(set@), true),
{
    span_of(content(s), content(set), true)
}

/// How many bytes a string begins with that are not in `reject`.
pub fn strcspn(s: &[u8], reject: &[u8]) -> (n: usize)
    ensures
        n == span(text(s@), text(reject@), false),
{
    span_of(content(s), content(reject), false)
}

/// Where a byte of `set` first stands in a string.
pub fn strpbrk(s: &[u8], set: &[u8]) -> (r: Option<usize>)
    ensures
        ({
            let n = span(text(s@), text(set@), false);
            r == (if n < text(s@).len() {
                Some(n as usize)
            } else {
                None
            })
        }),
{
    let t = content(s);
    let n: usize = span_of(t, content(set), false);
    if n < t.len() {
        Some(n)
    } else {
        None
    }
}

/// `n` stands in `h` at `i`.
pub open spec fn occurs(h: Seq<u8>, n: Seq<u8>, i: int) -> bool {
    0 <= i && i + n.len() <= h.len() && h.subrange(i, i + n.len()) == n
}

/// Whether `n` stands in `h` at `i`.
fn occurs_at(h: &[u8], n: &[u8], i: usize) -> (b: bool)
    requires
        i + n.len() <= h.len(),
    ensures
        b == occurs(h@, n@, i as int),
{
    let mut k: usize = 0;
    while k < n.len()
        invariant
            k <= n.len(),
            i + n.len() <= h.len(),
            forall|j: int| 0 <= j < k ==> h@[i + j] == n@[j],
        decreases n.len() - k,
    {
        if h[i + k] != n[k] {
            assert(h@.subrange(i as int, i + n@.len())[k as int] != n@[k as int]);
            return false;
        }
        k += 1;
    }
    assert(h@.subrange(i as int, i + n@.len()) =~= n@);
    true
}

/// Where a string first stands in another.
pub fn strstr(h: &[u8], n: &[u8]) -> (r: Option<usize>)
    ensures
        match r {
            Some(i) => {
                &&& occurs(text(h@), text(n@), i as int)
                &&& forall|j: int| 0 <= j < i ==> !occurs(text(h@), text(n@), j)
            },
            None => forall|j: int| !occurs(text(h@), text(n@), j),
        },
{
    let ht = content(h);
    let nt = content(n);
    if nt.len() > ht.len() {
        return None;
    }
    let last: usize = ht.len() - nt.len();
    let mut i: usize = 0;
    while i <= last
        invariant
            ht@ == text(h@),
            nt@ == text(n@),
            last + nt.len() == ht.len(),
            i <= last,
            forall|j: int| 0 <= j < i ==> !occurs(ht@, nt@, j),
        decreases last - i,
    {
        if occurs_at(ht, nt, i) {
            return Some(i);
        }
        if i == last {
            return None;
        }
        i += 1;
    }
    None
}

/// What cutting a token out of a buffer gives: where it starts, where to go on,
/// and the zero that was written behind it, if one was.
pub open spec fn token(t: Seq<u8>, delim: Seq<u8>) -> (Option<int>, int, Option<int>) {
    let a = span(t, delim, true);
    if a >= t.len() {
        (None, a, None)
    } else {
        let b = a + span(t.subrange(a, t.len() as int), delim, false);
        if b < t.len() {
            (Some(a), b + 1, Some(b))
        } else {
            (Some(a), b, None)
        }
    }
}

/// Cut the next token out of the string at `start`. The byte behind it becomes
/// a zero; the second number is where the next call starts.
pub fn strtok_r(buf: &mut [u8], start: usize, delim: &[u8]) -> (r: (Option<usize>, usize))
    requires
        start <= old(buf).len(),
    ensures
        ({
            let t = text(old(buf)@.subrange(start as int, old(buf)@.len() as int));
            let (tok, next, cut) = token(t, text(delim@));
            &&& r.0 == (match tok {
                Some(i) => Some((start + i) as usize),
                None => None,
            })
            &&& r.1 == start + next
            &&& final(buf)@ == (match cut {
                Some(i) => old(buf)@.update(start + i, 0),
                None => old(buf)@,
            })
        }),
{
    let delim = content(delim);
    let len: usize = buf.len();
    let rest = slice_subrange(buf, start, len);
    let t = content(rest);
    proof {
        bytes::lemma_nul_index(rest@);
        lemma_span(t@, delim@, true);
    }
    let a: usize = span_of(t, delim, true);
    if a == t.len() {
        return (None, start + a);
    }
    let tail = slice_subrange(t, a, t.len());
    let b: usize = a + span_of(tail, delim, false);
    let whole: usize = t.len();
    if b < whole {
        buf[start + b] = 0;
        (Some(start + a), start + b + 1)
    } else {
        (Some(start + a), start + b)
    }
}

/// Cut the next token out of a buffer, from where the last call ended, which is
/// nowhere once the string is used up.
pub fn strtok(buf: &mut [u8], save: &mut Option<usize>, delim: &[u8]) -> (r: Option<usize>)
    requires
        *old(save) matches Some(i) ==> i <= old(buf).len(),
    ensures
        match *old(save) {
            None => r is None && *final(save) is None && final(buf)@ == old(buf)@,
            Some(start) => {
                let t = text(old(buf)@.subrange(start as int, old(buf)@.len() as int));
                let (tok, next, cut) = token(t, text(delim@));
                &&& r == (match tok {
                    Some(i) => Some((start + i) as usize),
                    None => None,
                })
                &&& *final(save) == (match cut {
                    Some(_) => Some((start + next) as usize),
                    None => None,
                })
                &&& final(buf)@ == (match cut {
                    Some(i) => old(buf)@.update(start + i, 0),
                    None => old(buf)@,
                })
            },
        },
{
    match *save {
        None => None,
        Some(start) => {
            let delim = content(delim);
            let len: usize = buf.len();
            let rest = slice_subrange(buf, start, len);
            let t = content(rest);
            proof {
                bytes::lemma_nul_index(rest@);
                bytes::lemma_nul_index(delim@);
                lemma_span(t@, delim@, true);
            }
            let a: usize = span_of(t, delim, true);
            if a == t.len() {
                *save = None;
                return None;
            }
            let tail = slice_subrange(t, a, t.len());
            let b: usize = a + span_of(tail, delim, false);
            let whole: usize = t.len();
            if b < whole {
                buf[start + b] = 0;
                *save = Some(start + b + 1);
            } else {
                *save = None;
            }
            Some(start + a)
        },
    }
}

/// A token holds no separator and is not empty.
pub proof fn law_tokens_are_clean(t: Seq<u8>, delim: Seq<u8>, i: int)
    requires
        token(t, delim).0 is Some,
    ensures
        ({
            let (tok, next, cut) = token(t, delim);
            let end = match cut {
                Some(e) => e,
                None => next,
            };
            &&& tok->0 < end <= t.len()
            &&& tok->0 <= i < end ==> !delim.contains(t[i])
        }),
{
    let a = span(t, delim, true);
    lemma_span(t, delim, true);
    let tail = t.subrange(a, t.len() as int);
    lemma_span(tail, delim, false);
    assert(tail[0] == t[a]);
    let b = span(tail, delim, false);
    if a <= i < a + b {
        assert(tail[i - a] == t[i]);
    }
}

/// Where the last part of a path starts: behind its last slash.
pub fn basename(path: &[u8]) -> (n: usize)
    ensures
        n == (match last_of(text(path@), 0x2F) {
            Some(i) => i + 1,
            None => 0,
        }),
{
    let t = content(path);
    let mut n: usize = t.len();
    assert(t@.subrange(0, n as int) =~= t@);
    while n > 0
        invariant
            n <= t.len(),
            t@ == text(path@),
            last_of(t@, 0x2F) == last_of(t@.subrange(0, n as int), 0x2F),
        decreases n,
    {
        assert(t@.subrange(0, n as int).drop_last() =~= t@.subrange(0, n - 1));
        if t[n - 1] == 0x2F {
            return n;
        }
        n -= 1;
    }
    0
}

/// The last part of a path holds no slash.
pub proof fn law_last_part(t: Seq<u8>, i: int)
    requires
        0 <= i < t.len(),
        last_of(t, 0x2F) matches Some(n) ==> n < i,
    ensures
        t[i] != 0x2F,
    decreases t.len(),
{
    if t.last() != 0x2F && i < t.len() - 1 {
        law_last_part(t.drop_last(), i);
    }
}

/// Fill a buffer with a fixed error text, cut so that its closing zero fits.
pub fn strerror_r(buf: &mut [u8])
    ensures
        ({
            let msg = seq![0x65u8, 0x72u8, 0x72u8, 0x6Fu8, 0x72u8];
            final(buf)@ == (if old(buf)@.len() == 0 {
                old(buf)@
            } else {
                packet::written(old(buf)@, 0, packet::first(msg, old(buf)@.len() - 1).push(0))
            })
        }),
{
    let msg: [u8; 5] = [0x65, 0x72, 0x72, 0x6F, 0x72];
    assert(msg@ =~= seq![0x65u8, 0x72u8, 0x72u8, 0x6Fu8, 0x72u8]);
    let len: usize = buf.len();
    if len == 0 {
        return;
    }
    let n: usize = if len - 1 < 5 {
        len - 1
    } else {
        5
    };
    let t = slice_subrange(msg.as_slice(), 0, n);
    assert(t@ =~= packet::first(msg@, len - 1));
    put_text(buf, 0, t);
}

} // verus!
