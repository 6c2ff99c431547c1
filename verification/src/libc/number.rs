//! Numbers in text: digits in a base, read and written.
use crate::libc::ctype;
use crate::libc::ctype::is_space_b;
use crate::libc::string;
use crate::libc::string::content;
use vstd::prelude::*;

verus! {

/// The value of a digit in any base; 99 for a byte that is none.
pub open spec fn digit_of(c: u8) -> int {
    if 0x30 <= c <= 0x39 {
        c - 0x30
    } else if 0x61 <= c <= 0x7A {
        c - 0x61 + 10
    } else if 0x41 <= c <= 0x5A {
        c - 0x41 + 10
    } else {
        99
    }
}

/// The value of a digit; 99 for a byte that is none.
fn digit_value(c: u8) -> (d: i64)
    ensures
        d == digit_of(c),
{
    if 0x30 <= c && c <= 0x39 {
        (c - 0x30) as i64
    } else if 0x61 <= c && c <= 0x7A {
        (c - 0x61) as i64 + 10
    } else if 0x41 <= c && c <= 0x5A {
        (c - 0x41) as i64 + 10
    } else {
        99
    }
}

/// The number that digits stand for.
pub open spec fn value_of(s: Seq<u8>, base: int) -> int
    decreases s.len(),
{
    if s.len() == 0 {
        0
    } else {
        value_of(s.drop_last(), base) * base + digit_of(s.last())
    }
}

/// How many digits of a base a text begins with.
pub open spec fn digits_len(s: Seq<u8>, base: int) -> int
    decreases s.len(),
{
    if s.len() == 0 || digit_of(s[0]) >= base || digit_of(s[0]) == 99 {
        0
    } else {
        1 + digits_len(s.subrange(1, s.len() as int), base)
    }
}

/// `digits_len` is where the digits end.
pub proof fn lemma_digits_len(s: Seq<u8>, base: int)
    ensures
        0 <= digits_len(s, base) <= s.len(),
        forall|i: int|
            0 <= i < digits_len(s, base) ==> digit_of(#[trigger] s[i]) < base && digit_of(s[i])
                != 99,
        digits_len(s, base) < s.len() ==> digit_of(s[digits_len(s, base)]) >= base || digit_of(
            s[digits_len(s, base)],
        ) == 99,
    decreases s.len(),
{
    if s.len() == 0 || digit_of(s[0]) >= base || digit_of(s[0]) == 99 {
    } else {
        let t = s.subrange(1, s.len() as int);
        lemma_digits_len(t, base);
        assert forall|i: int| 0 <= i < digits_len(s, base) implies digit_of(#[trigger] s[i]) < base
            && digit_of(s[i]) != 99 by {
            if i > 0 {
                assert(s[i] == t[i - 1]);
            }
        }
    }
}

/// Any position where the digits end is `digits_len`.
proof fn lemma_digits_len_unique(s: Seq<u8>, base: int, n: int)
    requires
        0 <= n <= s.len(),
        forall|i: int|
            0 <= i < n ==> digit_of(#[trigger] s[i]) < base && digit_of(s[i]) != 99,
        n < s.len() ==> digit_of(s[n]) >= base || digit_of(s[n]) == 99,
    ensures
        digits_len(s, base) == n,
{
    lemma_digits_len(s, base);
    let m = digits_len(s, base);
    if m < n {
        assert(digit_of(s[m]) < base);
    } else if n < m {
        assert(digit_of(s[n]) < base);
    }
}

/// Digits stand for a number that is not negative and no smaller than that of
/// any beginning of them.
proof fn lemma_value_grows(s: Seq<u8>, base: int, n: int)
    requires
        base >= 1,
        0 <= n <= s.len(),
        forall|i: int| 0 <= i < s.len() ==> 0 <= digit_of(#[trigger] s[i]),
    ensures
        0 <= value_of(s.subrange(0, n), base) <= value_of(s, base),
    decreases s.len(),
{
    if n == s.len() {
        assert(s.subrange(0, n) =~= s);
        if s.len() > 0 {
            let t = s.drop_last();
            assert(forall|i: int| 0 <= i < t.len() ==> t[i] == s[i]);
            lemma_value_grows(t, base, t.len() as int);
            assert(t.subrange(0, t.len() as int) =~= t);
            assert(value_of(t, base) * base >= 0) by (nonlinear_arith)
                requires
                    value_of(t, base) >= 0,
                    base >= 1,
            ;
        }
    } else {
        let t = s.drop_last();
        assert(forall|i: int| 0 <= i < t.len() ==> t[i] == s[i]);
        lemma_value_grows(t, base, n);
        assert(t.subrange(0, n) =~= s.subrange(0, n));
        assert(value_of(t, base) * base >= value_of(t, base)) by (nonlinear_arith)
            requires
                value_of(t, base) >= 0,
                base >= 1,
        ;
    }
}

/// How many spaces a text begins with.
pub open spec fn spaces(s: Seq<u8>) -> int
    decreases s.len(),
{
    if s.len() == 0 || !ctype::space(s[0]) {
        0
    } else {
        1 + spaces(s.subrange(1, s.len() as int))
    }
}

/// `spaces` is where the spaces end.
proof fn lemma_spaces_unique(s: Seq<u8>, n: int)
    requires
        0 <= n <= s.len(),
        forall|i: int| 0 <= i < n ==> ctype::space(#[trigger] s[i]),
        n < s.len() ==> !ctype::space(s[n]),
    ensures
        spaces(s) == n,
    decreases s.len(),
{
    if n > 0 {
        let t = s.subrange(1, s.len() as int);
        assert(ctype::space(s[0]));
        assert forall|i: int| 0 <= i < n - 1 implies ctype::space(#[trigger] t[i]) by {
            assert(t[i] == s[i + 1]);
        }
        if n < s.len() {
            assert(t[n - 1] == s[n]);
        }
        lemma_spaces_unique(t, n - 1);
    }
}

/// How many spaces a text begins with.
fn count_spaces(t: &[u8]) -> (n: usize)
    ensures
        n == spaces(t@),
        n <= t.len(),
{
    let mut n: usize = 0;
    while n < t.len() && is_space_b(t[n])
        invariant
            n <= t.len(),
            forall|i: int| 0 <= i < n ==> ctype::space(#[trigger] t@[i]),
        decreases t.len() - n,
    {
        n += 1;
    }
    proof {
        lemma_spaces_unique(t@, n as int);
    }
    n
}

/// Whether a text goes on with a minus at `i`.
pub open spec fn negative_at(t: Seq<u8>, i: int) -> bool {
    i < t.len() && t[i] == 0x2D
}

/// Where the digits start behind an optional sign at `i`.
pub open spec fn past_sign(t: Seq<u8>, i: int) -> int {
    if i < t.len() && (t[i] == 0x2D || t[i] == 0x2B) {
        i + 1
    } else {
        i
    }
}

/// A text goes on with `0x` at `i`.
pub open spec fn hex_at(t: Seq<u8>, i: int) -> bool {
    i + 1 < t.len() && t[i] == 0x30 && (t[i + 1] == 0x78 || t[i + 1] == 0x58)
}

/// The base of a number at `i` for which `base` was asked: zero means to go by
/// the prefix.
pub open spec fn base_at(t: Seq<u8>, i: int, base: i32) -> int {
    if (base == 0 || base == 16) && hex_at(t, i) {
        16
    } else if base == 0 && i < t.len() && t[i] == 0x30 {
        8
    } else if base == 0 {
        10
    } else {
        base as int
    }
}

/// Where the digits of a number at `i` start, behind `0x` in base sixteen.
pub open spec fn past_prefix(t: Seq<u8>, i: int, base: i32) -> int {
    if (base == 0 || base == 16) && hex_at(t, i) {
        i + 2
    } else {
        i
    }
}

/// A number read from a text: its value and where it ends.
pub open spec fn parsed(t: Seq<u8>, base: i32) -> (int, int) {
    let s = spaces(t);
    let p = past_sign(t, s);
    let b = base_at(t, p, base);
    let d = past_prefix(t, p, base);
    let rest = t.subrange(d, t.len() as int);
    let n = digits_len(rest, b);
    let v = value_of(rest.subrange(0, n), b);
    (if negative_at(t, s) {
        -v
    } else {
        v
    }, d + n)
}

/// The magnitude of a number read from a text.
pub open spec fn magnitude(t: Seq<u8>, base: i32) -> int {
    let v = parsed(t, base).0;
    if v < 0 {
        -v
    } else {
        v
    }
}

/// Read digits from `at` on: their value and where they end; nothing if the value is more
/// than the largest number.
fn read_digits(t: &[u8], at: usize, base: i32) -> (r: Option<(i64, usize)>)
    requires
        at <= t.len(),
    ensures
        ({
            let rest = t@.subrange(at as int, t@.len() as int);
            let n = digits_len(rest, base as int);
            let v = value_of(rest.subrange(0, n), base as int);
            match r {
                Some((x, end)) => x == v && x >= 0 && end == at + n,
                None => v > i64::MAX,
            }
        }),
{
    let ghost rest = t@.subrange(at as int, t@.len() as int);
    let ghost n = digits_len(rest, base as int);
    let ghost all = rest.subrange(0, n);
    proof {
        lemma_digits_len(rest, base as int);
        assert(forall|i: int| 0 <= i < n ==> all[i] == rest[i]);
    }
    let mut i: usize = at;
    let mut v: i64 = 0;
    assert(all.subrange(0, 0) =~= Seq::empty());
    loop
        invariant_except_break
            at <= i <= at + n,
            at + n <= t.len(),
            rest == t@.subrange(at as int, t@.len() as int),
            n == digits_len(rest, base as int),
            all == rest.subrange(0, n),
            v == value_of(all.subrange(0, i - at), base as int),
            0 <= v,
            forall|k: int|
                0 <= k < n ==> 0 <= digit_of(#[trigger] all[k]) < base && digit_of(all[k]) != 99,
            n < rest.len() ==> digit_of(rest[n]) >= base || digit_of(rest[n]) == 99,
            0 <= n <= rest.len(),
        ensures
            i == at + n,
            v == value_of(all, base as int),
            v >= 0,
        decreases t.len() - i,
    {
        if i >= t.len() {
            assert(all.subrange(0, i - at) =~= all);
            break ;
        }
        let d: i64 = digit_value(t[i]);
        assert(t@[i as int] == rest[i - at]);
        if d >= base as i64 || d == 99 {
            proof {
                if i - at < n {
                    assert(digit_of(all[i - at]) < base);
                }
                assert(all.subrange(0, i - at) =~= all);
            }
            break ;
        }
        proof {
            if i - at == n {
                assert(digit_of(rest[n]) >= base || digit_of(rest[n]) == 99);
            }
            let next = all.subrange(0, i - at + 1);
            assert(next.drop_last() =~= all.subrange(0, i - at));
            assert(next.last() == rest[i - at]);
            assert(base >= 1);
            lemma_value_grows(all, base as int, i - at + 1);
            assert(value_of(next, base as int) == v * base + d);
            assert(0 <= v * base <= 0x7FFF_FFFF_FFFF_FFFF * 0x7FFF_FFFF) by (nonlinear_arith)
                requires
                    0 <= v <= 0x7FFF_FFFF_FFFF_FFFF,
                    1 <= base <= 0x7FFF_FFFF,
            ;
        }
        let wide: i128 = v as i128 * base as i128 + d as i128;
        if wide > i64::MAX as i128 {
            return None;
        }
        v = wide as i64;
        i += 1;
    }
    Some((v, i))
}

/// Read a whole number; nothing if its digits stand for more than the largest number.
pub fn parse_checked(s: &[u8], base: i32) -> (r: Option<(i64, usize)>)
    ensures
        match r {
            Some((v, end)) => {
                &&& magnitude(string::text(s@), base) <= i64::MAX
                &&& v == parsed(string::text(s@), base).0
                &&& end == parsed(string::text(s@), base).1
            },
            None => magnitude(string::text(s@), base) > i64::MAX,
        },
{
    let t = content(s);
    let sp: usize = count_spaces(t);
    let mut neg: bool = false;
    let mut i: usize = sp;
    if i < t.len() {
        if t[i] == 0x2D {
            neg = true;
            i += 1;
        } else if t[i] == 0x2B {
            i += 1;
        }
    }
    let mut b: i32 = base;
    let hex: bool = i < t.len() && i + 1 < t.len() && t[i] == 0x30 && (t[i + 1] == 0x78 || t[i + 1]
        == 0x58);
    if (base == 0 || base == 16) && hex {
        b = 16;
        i += 2;
    } else if base == 0 && i < t.len() && t[i] == 0x30 {
        b = 8;
    } else if base == 0 {
        b = 10;
    }
    proof {
        let rest = t@.subrange(i as int, t@.len() as int);
        let n = digits_len(rest, b as int);
        lemma_digits_len(rest, b as int);
        let all = rest.subrange(0, n);
        assert(forall|k: int| 0 <= k < n ==> all[k] == rest[k]);
        if b >= 1 {
            lemma_value_grows(all, b as int, n);
            assert(all.subrange(0, n) =~= all);
        } else {
            if n > 0 {
                assert(digit_of(rest[0]) < b);
            }
            assert(n == 0);
        }
    }
    match read_digits(t, i, b) {
        Some((v, end)) => Some(
            (
                if neg {
                    -v
                } else {
                    v
                },
                end,
            ),
        ),
        None => None,
    }
}

/// Read a whole number. The digits have to stand for no more than the largest
/// number.
pub fn parse_long(s: &[u8], base: i32) -> (r: (i64, usize))
    requires
        magnitude(string::text(s@), base) <= i64::MAX,
    ensures
        r.0 == parsed(string::text(s@), base).0,
        r.1 == parsed(string::text(s@), base).1,
{
    match parse_checked(s, base) {
        Some(r) => r,
        None => (0, 0),
    }
}

/// Read a number, and where it ends.
pub fn strtol(s: &[u8], base: i32) -> (r: (i64, usize))
    requires
        magnitude(string::text(s@), base) <= i64::MAX,
    ensures
        r.0 == parsed(string::text(s@), base).0,
        r.1 == parsed(string::text(s@), base).1,
{
    parse_long(s, base)
}

/// Read a number, a negative one wrapping, and where it ends.
pub fn strtoul(s: &[u8], base: i32) -> (r: (u64, usize))
    requires
        magnitude(string::text(s@), base) <= i64::MAX,
    ensures
        r.0 == parsed(string::text(s@), base).0 as i64 as u64,
        r.1 == parsed(string::text(s@), base).1,
{
    let (v, end) = parse_long(s, base);
    (v as u64, end)
}

/// Read a number, and where it ends.
pub fn strtoll(s: &[u8], base: i32) -> (r: (i64, usize))
    requires
        magnitude(string::text(s@), base) <= i64::MAX,
    ensures
        r.0 == parsed(string::text(s@), base).0,
        r.1 == parsed(string::text(s@), base).1,
{
    parse_long(s, base)
}

/// Read a number, a negative one wrapping, and where it ends.
pub fn strtoull(s: &[u8], base: i32) -> (r: (u64, usize))
    requires
        magnitude(string::text(s@), base) <= i64::MAX,
    ensures
        r.0 == parsed(string::text(s@), base).0 as i64 as u64,
        r.1 == parsed(string::text(s@), base).1,
{
    strtoul(s, base)
}

/// Read a decimal number, of which the low 32 bits are kept.
pub fn atoi(s: &[u8]) -> (v: i32)
    requires
        magnitude(string::text(s@), 10) <= i64::MAX,
    ensures
        v == parsed(string::text(s@), 10).0 as i64 as i32,
{
    let (v, _) = parse_long(s, 10);
    v as i32
}

/// The magnitude of a number; the least one is its own.
pub fn abs(v: i32) -> (r: i32)
    ensures
        r == (if v == i32::MIN {
            v as int
        } else if v < 0 {
            -v
        } else {
            v as int
        }),
{
    if v == i32::MIN {
        v
    } else if v < 0 {
        -v
    } else {
        v
    }
}

/// The character of a digit.
pub open spec fn digit_char(d: int) -> u8 {
    if d < 10 {
        (0x30 + d) as u8
    } else {
        (0x61 + d - 10) as u8
    }
}

/// The digits of a number, the highest first.
pub open spec fn digits(v: int, base: int) -> Seq<u8>
    decreases v,
    when base >= 2
{
    if v < base {
        seq![digit_char(v)]
    } else {
        proof {
            assert(0 <= v / base < v) by (nonlinear_arith)
                requires
                    v >= base,
                    base >= 2,
            ;
        }
        digits(v / base, base).push(digit_char(v % base))
    }
}

/// The digits of a number.
pub fn print_uint(v: u64, base: u64) -> (r: Vec<u8>)
    requires
        2 <= base <= 16,
    ensures
        r@ == digits(v as int, base as int),
    decreases v,
{
    if v < base {
        let mut r: Vec<u8> = Vec::new();
        r.push(char_of(v as u8));
        assert(r@ =~= seq![digit_char(v as int)]);
        r
    } else {
        proof {
            assert(v / base < v) by (nonlinear_arith)
                requires
                    v >= base,
                    base >= 2,
            ;
        }
        let mut r: Vec<u8> = print_uint(v / base, base);
        proof {
            assert(v % base < base) by (nonlinear_arith)
                requires
                    base >= 2,
            ;
        }
        r.push(char_of((v % base) as u8));
        r
    }
}

/// The character of a digit.
fn char_of(d: u8) -> (c: u8)
    requires
        d < 16,
    ensures
        c == digit_char(d as int),
{
    if d < 10 {
        0x30 + d
    } else {
        0x61 + (d - 10)
    }
}

/// The decimal digits of a number, behind a minus when it is negative.
pub open spec fn signed_digits(v: int) -> Seq<u8> {
    if v < 0 {
        seq![0x2Du8] + digits(-v, 10)
    } else {
        digits(v, 10)
    }
}

/// The decimal digits of a number with its sign.
pub fn print_int(v: i64) -> (r: Vec<u8>)
    ensures
        r@ == signed_digits(v as int),
{
    if v < 0 {
        let mag: u64 = if v == i64::MIN {
            0x8000_0000_0000_0000
        } else {
            (-v) as u64
        };
        let mut r: Vec<u8> = Vec::new();
        r.push(0x2D);
        let mut d = print_uint(mag, 10);
        r.append(&mut d);
        assert(r@ =~= signed_digits(v as int));
        r
    } else {
        print_uint(v as u64, 10)
    }
}

/// The digits of a number are digits of its base and stand for it.
pub proof fn law_digits_stand_for_number(v: int, base: int)
    requires
        v >= 0,
        2 <= base <= 16,
    ensures
        digits(v, base).len() > 0,
        forall|i: int|
            0 <= i < digits(v, base).len() ==> digit_of(#[trigger] digits(v, base)[i]) < base,
        value_of(digits(v, base), base) == v,
    decreases v,
{
    if v < base {
        let s = seq![digit_char(v)];
        assert(s.drop_last() =~= Seq::empty());
        assert(value_of(s.drop_last(), base) == 0);
        assert(0 * base == 0) by (nonlinear_arith);
    } else {
        assert(0 <= v / base < v) by (nonlinear_arith)
            requires
                v >= base,
                base >= 2,
        ;
        law_digits_stand_for_number(v / base, base);
        vstd::arithmetic::div_mod::lemma_fundamental_div_mod(v, base);
        assert(0 <= v % base < base) by (nonlinear_arith)
            requires
                base >= 2,
        ;
        let head = digits(v / base, base);
        let s = digits(v, base);
        assert(s.drop_last() =~= head);
        assert(s.last() == digit_char(v % base));
        assert(base * (v / base) == (v / base) * base) by (nonlinear_arith);
        assert forall|i: int| 0 <= i < s.len() implies digit_of(#[trigger] s[i]) < base by {
            if i < head.len() {
                assert(s[i] == head[i]);
            }
        }
    }
}

/// A number that is printed reads back.
pub proof fn law_printed_number_reads_back(v: i64)
    ensures
        parsed(signed_digits(v as int), 10) == (v as int, signed_digits(v as int).len() as int),
{
    let t = signed_digits(v as int);
    let m = if v < 0 {
        -(v as int)
    } else {
        v as int
    };
    let d = digits(m, 10);
    law_digits_stand_for_number(m, 10);
    assert(digit_of(d[0]) < 10);
    lemma_spaces_unique(t, 0);
    let p = past_sign(t, 0);
    let rest = t.subrange(p, t.len() as int);
    assert(rest =~= d);
    lemma_digits_len_unique(d, 10, d.len() as int);
    assert(rest.subrange(0, d.len() as int) =~= d);
}

} // verus!
