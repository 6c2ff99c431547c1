//! Byte-string helpers shared by every module that handles NUL-terminated text.
use vstd::prelude::*;

verus! {

/// Index of the first NUL byte of `s`, or its length when it holds none.
pub open spec fn nul_index(s: Seq<u8>) -> int
    decreases s.len(),
{
    if s.len() == 0 || s[0] == 0 {
        0
    } else {
        1 + nul_index(s.subrange(1, s.len() as int))
    }
}

/// The bytes of `s` before its first NUL.
pub open spec fn until_nul(s: Seq<u8>) -> Seq<u8> {
    s.subrange(0, nul_index(s))
}

/// `s` cut or zero-filled to exactly `n` bytes.
pub open spec fn padded(s: Seq<u8>, n: nat) -> Seq<u8> {
    Seq::new(n, |i: int| if i < s.len() { s[i] } else { 0u8 })
}

/// `nul_index` is the one position with no NUL before it and a NUL (or the end) at it.
pub proof fn lemma_nul_index(s: Seq<u8>)
    ensures
        0 <= nul_index(s) <= s.len(),
        forall|i: int| 0 <= i < nul_index(s) ==> s[i] != 0,
        nul_index(s) < s.len() ==> s[nul_index(s)] == 0,
    decreases s.len(),
{
    if s.len() == 0 || s[0] == 0 {
    } else {
        let t = s.subrange(1, s.len() as int);
        lemma_nul_index(t);
        assert forall|i: int| 0 <= i < nul_index(s) implies s[i] != 0 by {
            if i > 0 {
                assert(s[i] == t[i - 1]);
            }
        }
    }
}

/// Any position with those two properties is `nul_index`.
pub proof fn lemma_nul_index_unique(s: Seq<u8>, n: int)
    requires
        0 <= n <= s.len(),
        forall|i: int| 0 <= i < n ==> s[i] != 0,
        n < s.len() ==> s[n] == 0,
    ensures
        nul_index(s) == n,
{
    lemma_nul_index(s);
    let m = nul_index(s);
    if m < n {
        assert(s[m] != 0);
    } else if n < m {
        assert(s[n] != 0);
    }
}

/// The position of the first `c` in `s`, or its length when it holds none.
pub open spec fn first_of(s: Seq<u8>, c: u8) -> int
    decreases s.len(),
{
    if s.len() == 0 || s[0] == c {
        0
    } else {
        1 + first_of(s.subrange(1, s.len() as int), c)
    }
}

/// `first_of` is the one position with no `c` before it and a `c` (or the end) at it.
pub proof fn lemma_first_of(s: Seq<u8>, c: u8)
    ensures
        0 <= first_of(s, c) <= s.len(),
        forall|i: int| 0 <= i < first_of(s, c) ==> s[i] != c,
        first_of(s, c) < s.len() ==> s[first_of(s, c)] == c,
    decreases s.len(),
{
    if s.len() == 0 || s[0] == c {
    } else {
        let t = s.subrange(1, s.len() as int);
        lemma_first_of(t, c);
        assert forall|i: int| 0 <= i < first_of(s, c) implies s[i] != c by {
            if i > 0 {
                assert(s[i] == t[i - 1]);
            }
        }
    }
}

/// Any position with those two properties is `first_of`.
pub proof fn lemma_first_of_unique(s: Seq<u8>, c: u8, n: int)
    requires
        0 <= n <= s.len(),
        forall|i: int| 0 <= i < n ==> s[i] != c,
        n < s.len() ==> s[n] == c,
    ensures
        first_of(s, c) == n,
{
    lemma_first_of(s, c);
    let m = first_of(s, c);
    if m < n {
        assert(s[m] != c);
    } else if n < m {
        assert(s[n] != c);
    }
}

/// Length of the text in `s` up to its first NUL.
pub fn nul_len(s: &[u8]) -> (n: usize)
    ensures
        n == nul_index(s@),
        n <= s.len(),
{
    let mut n: usize = 0;
    while n < s.len() && s[n] != 0
        invariant
            n <= s.len(),
            forall|i: int| 0 <= i < n ==> s@[i] != 0,
        decreases s.len() - n,
    {
        n += 1;
    }
    proof {
        lemma_nul_index_unique(s@, n as int);
    }
    n
}

/// Fill a fixed field with `src`, truncating or zero-padding to the field's size.
pub fn copy_field<const N: usize>(dst: &mut [u8; N], src: &[u8])
    ensures
        final(dst)@ == padded(src@, N as nat),
{
    let mut i: usize = 0;
    while i < N
        invariant
            i <= N,
            forall|k: int| 0 <= k < i ==> dst@[k] == padded(src@, N as nat)[k],
        decreases N - i,
    {
        if i < src.len() {
            dst[i] = src[i];
        } else {
            dst[i] = 0;
        }
        i += 1;
    }
    assert(dst@ =~= padded(src@, N as nat));
}

/// The little-endian number in the two bytes of `s` at `off`.
pub open spec fn le16(s: Seq<u8>, off: int) -> int {
    s[off] + s[off + 1] * 0x100
}

/// The little-endian number in the four bytes of `s` at `off`.
pub open spec fn le32(s: Seq<u8>, off: int) -> int {
    le16(s, off) + le16(s, off + 2) * 0x1_0000
}

/// The little-endian number in the eight bytes of `s` at `off`.
pub open spec fn le64(s: Seq<u8>, off: int) -> int {
    le32(s, off) + le32(s, off + 4) * 0x1_0000_0000
}

/// Read two little-endian bytes.
pub fn read_le16(s: &[u8], off: usize) -> (v: u16)
    requires
        off + 2 <= s.len(),
    ensures
        v == le16(s@, off as int),
{
    s[off] as u16 + s[off + 1] as u16 * 0x100
}

/// Read four little-endian bytes.
pub fn read_le32(s: &[u8], off: usize) -> (v: u32)
    requires
        off + 4 <= s.len(),
    ensures
        v == le32(s@, off as int),
{
    read_le16(s, off) as u32 + read_le16(s, off + 2) as u32 * 0x1_0000
}

/// Read eight little-endian bytes.
pub fn read_le64(s: &[u8], off: usize) -> (v: u64)
    requires
        off + 8 <= s.len(),
    ensures
        v == le64(s@, off as int),
{
    read_le32(s, off) as u64 + read_le32(s, off + 4) as u64 * 0x1_0000_0000
}

/// The big-endian number in the two bytes of `s` at `off`.
pub open spec fn be16(s: Seq<u8>, off: int) -> int {
    s[off] * 0x100 + s[off + 1]
}

/// Read two big-endian bytes.
pub fn read_be16(s: &[u8], off: usize) -> (v: u16)
    requires
        off + 2 <= s.len(),
    ensures
        v == be16(s@, off as int),
{
    s[off] as u16 * 0x100 + s[off + 1] as u16
}

/// The eight little-endian bytes of a number.
pub open spec fn le64_bytes(v: u64) -> Seq<u8> {
    Seq::new(8, |i: int| le64_byte(v, i))
}

/// Byte `i` of a number, the lowest first.
pub open spec fn le64_byte(v: u64, i: int) -> u8 {
    (if i == 0 {
        v as int % 256
    } else if i == 1 {
        (v as int / 0x100) % 256
    } else if i == 2 {
        (v as int / 0x1_0000) % 256
    } else if i == 3 {
        (v as int / 0x100_0000) % 256
    } else if i == 4 {
        (v as int / 0x1_0000_0000) % 256
    } else if i == 5 {
        (v as int / 0x100_0000_0000) % 256
    } else if i == 6 {
        (v as int / 0x1_0000_0000_0000) % 256
    } else {
        (v as int / 0x100_0000_0000_0000) % 256
    }) as u8
}

/// Split a number into its eight little-endian bytes.
pub fn to_le64(v: u64) -> (b: [u8; 8])
    ensures
        b@ == le64_bytes(v),
{
    let b: [u8; 8] = [
        (v % 256) as u8,
        ((v / 0x100) % 256) as u8,
        ((v / 0x1_0000) % 256) as u8,
        ((v / 0x100_0000) % 256) as u8,
        ((v / 0x1_0000_0000) % 256) as u8,
        ((v / 0x100_0000_0000) % 256) as u8,
        ((v / 0x1_0000_0000_0000) % 256) as u8,
        ((v / 0x100_0000_0000_0000) % 256) as u8,
    ];
    assert(b@ =~= le64_bytes(v));
    b
}

/// A number survives being split into bytes and read back.
pub proof fn law_le64_round_trip(v: u64)
    ensures
        le64(le64_bytes(v), 0) == v,
{
    let q1 = v as int / 0x100;
    let q2 = v as int / 0x1_0000;
    let q3 = v as int / 0x100_0000;
    let q4 = v as int / 0x1_0000_0000;
    let q5 = v as int / 0x100_0000_0000;
    let q6 = v as int / 0x1_0000_0000_0000;
    let q7 = v as int / 0x100_0000_0000_0000;
    assert(v == 256 * q1 + v as int % 256);
    assert(q1 == 256 * q2 + q1 % 256);
    assert(q2 == 256 * q3 + q2 % 256);
    assert(q3 == 256 * q4 + q3 % 256);
    assert(q4 == 256 * q5 + q4 % 256);
    assert(q5 == 256 * q6 + q5 % 256);
    assert(q6 == 256 * q7 + q6 % 256);
    let b = le64_bytes(v);
    assert(b[0] == v as int % 256);
    assert(b[1] == q1 % 256);
    assert(b[2] == q2 % 256);
    assert(b[3] == q3 % 256);
    assert(b[4] == q4 % 256);
    assert(b[5] == q5 % 256);
    assert(b[6] == q6 % 256);
    assert(b[7] == q7 % 256);
}

proof fn lemma_split(v: int, d: int, low: int, high: int)
    requires
        d > 0,
        v == low + high * d,
        0 <= low < d,
    ensures
        v / d == high,
        v % d == low,
{
    vstd::arithmetic::div_mod::lemma_fundamental_div_mod_converse(v, d, high, low);
}

/// Eight bytes survive being read as a number and split again.
#[verifier::spinoff_prover]
pub proof fn law_bytes64_round_trip(s: Seq<u8>, at: int)
    requires
        0 <= at,
        at + 8 <= s.len(),
    ensures
        0 <= le64(s, at) <= u64::MAX,
        le64_bytes(le64(s, at) as u64) == s.subrange(at, at + 8),
{
    let v = le64(s, at);
    let b = s.subrange(at, at + 8);
    let r7 = b[7] as int;
    let r6 = b[6] + 256 * r7;
    let r5 = b[5] + 256 * r6;
    let r4 = b[4] + 256 * r5;
    let r3 = b[3] + 256 * r4;
    let r2 = b[2] + 256 * r3;
    let r1 = b[1] + 256 * r2;
    assert(v == b[0] + 256 * r1);
    lemma_split(v, 256, b[0] as int, r1);
    lemma_split(v, 0x100int, b[0] as int, r1);
    lemma_split(v, 0x1_0000int, b[0] + b[1] * 0x100, r2);
    lemma_split(v, 0x100_0000int, b[0] + b[1] * 0x100 + b[2] * 0x1_0000, r3);
    lemma_split(v, 0x1_0000_0000int, b[0] + b[1] * 0x100 + b[2] * 0x1_0000 + b[3] * 0x100_0000, r4);
    lemma_split(v, 0x100_0000_0000int, b[0] + b[1] * 0x100 + b[2] * 0x1_0000 + b[3] * 0x100_0000 + b[4] * 0x1_0000_0000, r5);
    lemma_split(v, 0x1_0000_0000_0000int, b[0] + b[1] * 0x100 + b[2] * 0x1_0000 + b[3] * 0x100_0000 + b[4] * 0x1_0000_0000 + b[5] * 0x100_0000_0000, r6);
    lemma_split(v, 0x100_0000_0000_0000int, b[0] + b[1] * 0x100 + b[2] * 0x1_0000 + b[3] * 0x100_0000 + b[4] * 0x1_0000_0000 + b[5] * 0x100_0000_0000 + b[6] * 0x1_0000_0000_0000, r7);
    lemma_split(r1, 256, b[1] as int, r2);
    lemma_split(r2, 256, b[2] as int, r3);
    lemma_split(r3, 256, b[3] as int, r4);
    lemma_split(r4, 256, b[4] as int, r5);
    lemma_split(r5, 256, b[5] as int, r6);
    lemma_split(r6, 256, b[6] as int, r7);
    let w = le64_bytes(v as u64);
    assert(w[0] == b[0]);
    assert(w[1] == b[1]);
    assert(w[2] == b[2]);
    assert(w[3] == b[3]);
    assert(w[4] == b[4]);
    assert(w[5] == b[5]);
    assert(w[6] == b[6]);
    assert(w[7] == b[7]);
    assert(w =~= b);
}

} // verus!
