//! Formatted output: a format's directives, and the text each gives for whole
//! numbers, characters and strings.
use crate::bytes;
use crate::libc::ctype;
use crate::libc::number;
use crate::libc::number::{print_int, print_uint};
use crate::libc::string;
use crate::libc::string::content;
use crate::rt::packet;
use vstd::prelude::*;

verus! {

/// The kinds of characters inside a directive.
#[derive(Clone, Copy, PartialEq, Eq, Structural, Debug)]
pub enum Class {
    /// `-`, `+`, blank, `#` or `0`.
    Flag,
    Digit,
    /// `l`, `z`, `j` or `t`: a long argument.
    Long,
    /// `h`, which changes nothing.
    Half,
}

/// A character is of a kind.
pub open spec fn member(k: Class, c: u8) -> bool {
    match k {
        Class::Flag => c == 0x2D || c == 0x2B || c == 0x20 || c == 0x23 || c == 0x30,
        Class::Digit => ctype::digit(c),
        Class::Long => c == 0x6C || c == 0x7A || c == 0x6A || c == 0x74,
        Class::Half => c == 0x68,
    }
}

/// Whether a character is of a kind.
fn is_member(k: Class, c: u8) -> (b: bool)
    ensures
        b == member(k, c),
{
    match k {
        Class::Flag => c == 0x2D || c == 0x2B || c == 0x20 || c == 0x23 || c == 0x30,
        Class::Digit => 0x30 <= c && c <= 0x39,
        Class::Long => c == 0x6C || c == 0x7A || c == 0x6A || c == 0x74,
        Class::Half => c == 0x68,
    }
}

/// Where the characters of a kind end, from `i` on.
pub open spec fn run(t: Seq<u8>, i: int, k: Class) -> int
    decreases t.len() - i,
{
    if i < 0 || i >= t.len() || !member(k, t[i]) {
        i
    } else {
        run(t, i + 1, k)
    }
}

/// Where the characters of a kind end, from `i` on.
fn run_from(t: &[u8], i: usize, k: Class) -> (n: usize)
    requires
        i <= t.len(),
    ensures
        n == run(t@, i as int, k),
        i <= n <= t.len(),
{
    let mut n: usize = i;
    while n < t.len() && is_member(k, t[n])
        invariant
            i <= n <= t.len(),
            run(t@, i as int, k) == run(t@, n as int, k),
        decreases t.len() - n,
    {
        n += 1;
    }
    n
}

/// A precision.
#[derive(Clone, Copy, PartialEq, Eq, Structural, Debug)]
pub enum Prec {
    Unset,
    /// Taken from the arguments.
    Star,
    Num(i32),
}

/// One piece of a format.
#[derive(Clone, Copy, PartialEq, Eq, Structural, Debug)]
pub enum Directive {
    /// A character as it is.
    Byte(u8),
    /// A percent sign.
    Percent,
    /// A conversion of an argument; `star` when the width takes one too.
    Conv { star: bool, prec: Prec, long: bool, spec: u8 },
    /// A conversion that is none: a percent sign and its character.
    Odd(u8),
    /// The format is over.
    End,
}

/// The conversions there are.
pub open spec fn known(c: u8) -> bool {
    c == 0x64 || c == 0x69 || c == 0x75 || c == 0x6F || c == 0x78 || c == 0x58 || c == 0x70 || c
        == 0x63 || c == 0x73 || c == 0x66 || c == 0x46 || c == 0x65 || c == 0x45 || c == 0x67 || c
        == 0x47 || c == 0x61 || c == 0x41
}

/// Whether a character is a conversion.
fn is_known(c: u8) -> (b: bool)
    ensures
        b == known(c),
{
    c == 0x64 || c == 0x69 || c == 0x75 || c == 0x6F || c == 0x78 || c == 0x58 || c == 0x70 || c
        == 0x63 || c == 0x73 || c == 0x66 || c == 0x46 || c == 0x65 || c == 0x45 || c == 0x67 || c
        == 0x47 || c == 0x61 || c == 0x41
}

/// A number of digits as a precision, the largest when it is more.
pub open spec fn capped(s: Seq<u8>) -> i32 {
    let v = number::value_of(s, 10);
    if v > i32::MAX {
        i32::MAX
    } else {
        v as i32
    }
}

/// The precision at `i` and where it ends.
pub open spec fn prec_at(t: Seq<u8>, i: int) -> (Prec, int) {
    if i < t.len() && t[i] == 0x2E {
        if i + 1 < t.len() && t[i + 1] == 0x2A {
            (Prec::Star, i + 2)
        } else {
            let e = run(t, i + 1, Class::Digit);
            (Prec::Num(capped(t.subrange(i + 1, e))), e)
        }
    } else {
        (Prec::Unset, i)
    }
}

/// The directive at `i` and where it ends.
pub open spec fn directive_at(t: Seq<u8>, i: int) -> (Directive, int) {
    if i < 0 || i >= t.len() {
        (Directive::End, i)
    } else if t[i] != 0x25 {
        (Directive::Byte(t[i]), i + 1)
    } else {
        let b = run(t, run(t, i + 1, Class::Flag), Class::Digit);
        let star = b < t.len() && t[b] == 0x2A;
        let (prec, d) = prec_at(
            t,
            if star {
                b + 1
            } else {
                b
            },
        );
        let f = run(t, d, Class::Long);
        let g = run(t, f, Class::Half);
        if g >= t.len() {
            (Directive::End, g)
        } else if t[g] == 0x25 {
            (Directive::Percent, g + 1)
        } else if known(t[g]) {
            (Directive::Conv { star, prec, long: f > d, spec: t[g] }, g + 1)
        } else {
            (Directive::Odd(t[g]), g + 1)
        }
    }
}

/// The directives from `i` on.
pub open spec fn directives(t: Seq<u8>, i: int) -> Seq<Directive>
    decreases t.len() - i,
{
    let (d, n) = directive_at(t, i);
    if d is End || n <= i || i >= t.len() {
        Seq::empty()
    } else {
        seq![d] + directives(t, n)
    }
}

/// Digits stand for no less than any beginning of them.
proof fn lemma_value_prefix(s: Seq<u8>, n: int)
    requires
        0 <= n <= s.len(),
        forall|i: int| 0 <= i < s.len() ==> ctype::digit(#[trigger] s[i]),
    ensures
        0 <= number::value_of(s.subrange(0, n), 10) <= number::value_of(s, 10),
    decreases s.len(),
{
    if n == s.len() {
        assert(s.subrange(0, n) =~= s);
        if s.len() > 0 {
            let t = s.drop_last();
            assert(forall|i: int| 0 <= i < t.len() ==> t[i] == s[i]);
            lemma_value_prefix(t, t.len() as int);
            assert(t.subrange(0, t.len() as int) =~= t);
        }
    } else {
        let t = s.drop_last();
        assert(forall|i: int| 0 <= i < t.len() ==> t[i] == s[i]);
        lemma_value_prefix(t, n);
        assert(t.subrange(0, n) =~= s.subrange(0, n));
    }
}

/// The characters of a run are of its kind.
proof fn lemma_run_members(t: Seq<u8>, i: int, k: Class, j: int)
    requires
        0 <= i <= j < run(t, i, k),
    ensures
        j < t.len(),
        member(k, t[j]),
    decreases t.len() - i,
{
    if i < t.len() && member(k, t[i]) && i < j {
        lemma_run_members(t, i + 1, k, j);
    }
}

/// The number that digits stand for, the largest when it is more.
fn capped_value(t: &[u8], from: usize, to: usize) -> (v: i32)
    requires
        from <= to <= t.len(),
        forall|i: int| from <= i < to ==> ctype::digit(#[trigger] t@[i]),
    ensures
        v == capped(t@.subrange(from as int, to as int)),
{
    let ghost s = t@.subrange(from as int, to as int);
    let mut v: i64 = 0;
    let mut i: usize = from;
    assert(s.subrange(0, 0) =~= Seq::empty());
    proof {
        assert forall|k: int| 0 <= k < s.len() implies ctype::digit(#[trigger] s[k]) by {
            assert(s[k] == t@[from + k]);
        }
    }
    while i < to
        invariant
            from <= i <= to <= t.len(),
            s == t@.subrange(from as int, to as int),
            forall|k: int| 0 <= k < s.len() ==> ctype::digit(#[trigger] s[k]),
            v == number::value_of(s.subrange(0, i - from), 10),
            0 <= v <= i32::MAX,
        decreases to - i,
    {
        let ghost next = s.subrange(0, i - from + 1);
        assert(next.drop_last() =~= s.subrange(0, i - from));
        assert(next.last() == s[i - from]);
        assert(t@[i as int] == s[i - from]);
        v = v * 10 + (t[i] - 0x30) as i64;
        if v > i32::MAX as i64 {
            proof {
                lemma_value_prefix(s, i - from + 1);
            }
            return i32::MAX;
        }
        i += 1;
    }
    assert(s.subrange(0, to - from) =~= s);
    v as i32
}

/// The directive at `i` of a text and where it ends.
pub fn directive(t: &[u8], i: usize) -> (r: (Directive, usize))
    requires
        i <= t.len(),
    ensures
        r.0 == directive_at(t@, i as int).0,
        r.1 == directive_at(t@, i as int).1,
        r.0 !is End ==> i < r.1 <= t.len(),
{
    if i >= t.len() {
        return (Directive::End, i);
    }
    if t[i] != 0x25 {
        return (Directive::Byte(t[i]), i + 1);
    }
    let a: usize = run_from(t, i + 1, Class::Flag);
    let b: usize = run_from(t, a, Class::Digit);
    let star: bool = b < t.len() && t[b] == 0x2A;
    let c: usize = if star {
        b + 1
    } else {
        b
    };
    let mut prec = Prec::Unset;
    let mut d: usize = c;
    if c < t.len() && t[c] == 0x2E {
        if c + 1 < t.len() && t[c + 1] == 0x2A {
            prec = Prec::Star;
            d = c + 2;
        } else {
            d = run_from(t, c + 1, Class::Digit);
            proof {
                assert forall|j: int| c + 1 <= j < d implies ctype::digit(#[trigger] t@[j]) by {
                    lemma_run_members(t@, c + 1, Class::Digit, j);
                }
            }
            prec = Prec::Num(capped_value(t, c + 1, d));
        }
    }
    let f: usize = run_from(t, d, Class::Long);
    let g: usize = run_from(t, f, Class::Half);
    if g >= t.len() {
        (Directive::End, g)
    } else if t[g] == 0x25 {
        (Directive::Percent, g + 1)
    } else if is_known(t[g]) {
        (Directive::Conv { star, prec, long: f > d, spec: t[g] }, g + 1)
    } else {
        (Directive::Odd(t[g]), g + 1)
    }
}

/// The directives of a format.
pub fn parse(fmt: &[u8]) -> (v: Vec<Directive>)
    ensures
        v@ == directives(string::text(fmt@), 0),
{
    let t = content(fmt);
    let mut v: Vec<Directive> = Vec::new();
    let mut i: usize = 0;
    assert(v@ + directives(t@, 0) =~= directives(t@, 0));
    loop
        invariant_except_break
            i <= t.len(),
            t@ == string::text(fmt@),
            v@ + directives(t@, i as int) == directives(t@, 0),
        ensures
            v@ == directives(string::text(fmt@), 0),
        decreases t.len() - i,
    {
        let (d, n) = directive(t, i);
        let ghost sofar = v@;
        match d {
            Directive::End => {
                assert(directives(t@, i as int) =~= Seq::empty());
                assert(v@ =~= v@ + directives(t@, i as int));
                break ;
            },
            _ => {
                v.push(d);
                assert(v@ + directives(t@, n as int) =~= sofar + directives(t@, i as int));
                i = n;
            },
        }
    }
    v
}

/// An argument.
#[derive(Clone, Copy)]
pub enum Arg<'a> {
    /// A register.
    Word(u64),
    /// A string.
    Text(&'a [u8]),
    /// No string.
    Null,
}

/// The text of a whole number under a conversion.
pub open spec fn word_text(spec: u8, long: bool, w: u64) -> Seq<u8> {
    let v: u64 = if long {
        w
    } else {
        (w as u32) as u64
    };
    if spec == 0x64 || spec == 0x69 {
        number::signed_digits(
            if long {
                (w as i64) as int
            } else {
                (w as i32) as int
            },
        )
    } else if spec == 0x75 {
        number::digits(v as int, 10)
    } else if spec == 0x6F {
        number::digits(v as int, 8)
    } else if spec == 0x78 || spec == 0x58 {
        number::digits(v as int, 16)
    } else if spec == 0x70 {
        seq![0x30u8, 0x78u8] + number::digits(w as int, 16)
    } else {
        seq![w as u8]
    }
}

/// The text of a whole number under a conversion. Every conversion but the
/// pointer's keeps 32 bits unless it is long.
pub fn word(spec: u8, long: bool, w: u64) -> (r: Vec<u8>)
    ensures
        r@ == word_text(spec, long, w),
{
    let v: u64 = if long {
        w
    } else {
        (w as u32) as u64
    };
    if spec == 0x64 || spec == 0x69 {
        if long {
            print_int(w as i64)
        } else {
            print_int((w as i32) as i64)
        }
    } else if spec == 0x75 {
        print_uint(v, 10)
    } else if spec == 0x6F {
        print_uint(v, 8)
    } else if spec == 0x78 || spec == 0x58 {
        print_uint(v, 16)
    } else if spec == 0x70 {
        let mut r: Vec<u8> = vec![0x30u8, 0x78u8];
        let mut d = print_uint(w, 16);
        r.append(&mut d);
        assert(r@ =~= word_text(spec, long, w));
        r
    } else {
        let r: Vec<u8> = vec![w as u8];
        assert(r@ =~= seq![w as u8]);
        r
    }
}

/// What stands for no string.
pub open spec fn null_text() -> Seq<u8> {
    seq![0x28u8, 0x6Eu8, 0x75u8, 0x6Cu8, 0x6Cu8, 0x29u8]
}

/// The text of a directive with its argument, for all conversions but those of
/// fractions.
pub open spec fn piece_text(d: Directive, arg: Arg) -> Seq<u8> {
    match d {
        Directive::Byte(c) => seq![c],
        Directive::Percent => seq![0x25u8],
        Directive::Odd(c) => seq![0x25u8, c],
        Directive::End => Seq::empty(),
        Directive::Conv { long, spec, .. } => match arg {
            Arg::Word(w) => word_text(spec, long, w),
            Arg::Text(s) => string::text(s@),
            Arg::Null => null_text(),
        },
    }
}

/// A copy of some bytes.
fn owned(s: &[u8]) -> (v: Vec<u8>)
    ensures
        v@ == s@,
{
    let mut v: Vec<u8> = Vec::new();
    let mut i: usize = 0;
    while i < s.len()
        invariant
            i <= s.len(),
            v@ =~= s@.subrange(0, i as int),
        decreases s.len() - i,
    {
        v.push(s[i]);
        i += 1;
    }
    assert(s@.subrange(0, s@.len() as int) =~= s@);
    v
}

/// The text of a directive with its argument.
pub fn piece(d: Directive, arg: Arg) -> (r: Vec<u8>)
    ensures
        r@ == piece_text(d, arg),
{
    match d {
        Directive::Byte(c) => {
            let r: Vec<u8> = vec![c];
            assert(r@ =~= seq![c]);
            r
        },
        Directive::Percent => {
            let r: Vec<u8> = vec![0x25u8];
            assert(r@ =~= seq![0x25u8]);
            r
        },
        Directive::Odd(c) => {
            let r: Vec<u8> = vec![0x25u8, c];
            assert(r@ =~= seq![0x25u8, c]);
            r
        },
        Directive::End => {
            let r: Vec<u8> = Vec::new();
            assert(r@ =~= Seq::empty());
            r
        },
        Directive::Conv { long, spec, .. } => match arg {
            Arg::Word(w) => word(spec, long, w),
            Arg::Text(s) => owned(content(s)),
            Arg::Null => {
                let r: Vec<u8> = vec![0x28u8, 0x6Eu8, 0x75u8, 0x6Cu8, 0x6Cu8, 0x29u8];
                assert(r@ =~= null_text());
                r
            },
        },
    }
}

/// How many arguments a directive takes: its own, and one for each star.
pub open spec fn taken(d: Directive) -> int {
    match d {
        Directive::Conv { star, prec, .. } => 1 + (if star {
            1int
        } else {
            0
        }) + (if prec is Star {
            1int
        } else {
            0
        }),
        _ => 0,
    }
}

/// How many arguments the first `n` directives take.
pub open spec fn used(ds: Seq<Directive>, n: int) -> int
    decreases n,
{
    if n <= 0 {
        0
    } else {
        used(ds, n - 1) + taken(ds[n - 1])
    }
}

/// The text of the first `n` directives with their arguments. A directive's own
/// argument is the last that it takes.
pub open spec fn output<'a>(ds: Seq<Directive>, args: Seq<Arg<'a>>, n: int) -> Seq<u8>
    decreases n,
{
    if n <= 0 {
        Seq::empty()
    } else {
        let arg = if taken(ds[n - 1]) > 0 {
            args[used(ds, n) - 1]
        } else {
            Arg::Null
        };
        output(ds, args, n - 1) + piece_text(ds[n - 1], arg)
    }
}

/// More directives take no fewer arguments.
proof fn lemma_used_grows(ds: Seq<Directive>, n: int, m: int)
    requires
        0 <= n <= m,
    ensures
        0 <= used(ds, n) <= used(ds, m),
    decreases m,
{
    if n < m {
        lemma_used_grows(ds, n, m - 1);
    } else if n > 0 {
        lemma_used_grows(ds, n - 1, m - 1);
    }
}

/// Format arguments. A fraction is handed in as the text that its directive
/// gives.
pub fn vfmt<'a>(fmt: &[u8], args: &[Arg<'a>]) -> (out: Vec<u8>)
    requires
        ({
            let ds = directives(string::text(fmt@), 0);
            used(ds, ds.len() as int) <= args.len()
        }),
    ensures
        ({
            let ds = directives(string::text(fmt@), 0);
            out@ == output(ds, args@, ds.len() as int)
        }),
{
    let ds: Vec<Directive> = parse(fmt);
    let mut out: Vec<u8> = Vec::new();
    let mut a: usize = 0;
    let mut i: usize = 0;
    assert(out@ =~= output(ds@, args@, 0));
    while i < ds.len()
        invariant
            i <= ds.len(),
            a == used(ds@, i as int),
            used(ds@, ds@.len() as int) <= args.len(),
            out@ == output(ds@, args@, i as int),
        decreases ds.len() - i,
    {
        proof {
            lemma_used_grows(ds@, i + 1, ds@.len() as int);
            lemma_used_grows(ds@, 0, i as int);
        }
        let d: Directive = ds[i];
        let mut arg: Arg<'a> = Arg::Null;
        if let Directive::Conv { star, prec, .. } = d {
            if star {
                a += 1;
            }
            if let Prec::Star = prec {
                a += 1;
            }
            arg = args[a];
            a += 1;
        }
        let ghost before = out@;
        let mut p = piece(d, arg);
        out.append(&mut p);
        assert(out@ =~= before + piece_text(d, arg));
        i += 1;
    }
    out
}

/// A decimal exponent: its sign and at least two digits.
pub open spec fn exp_text(e: int) -> Seq<u8> {
    let d = number::digits(
        if e < 0 {
            -e
        } else {
            e
        },
        10,
    );
    let head = seq![
        0x65u8,
        if e < 0 {
            0x2Du8
        } else {
            0x2Bu8
        },
    ];
    if d.len() < 2 {
        head.push(0x30) + d
    } else {
        head + d
    }
}

/// A decimal exponent.
pub fn emit_exp(e: i32) -> (r: Vec<u8>)
    ensures
        r@ == exp_text(e as int),
{
    let mag: u64 = if e < 0 {
        (-(e as i64)) as u64
    } else {
        e as u64
    };
    let mut d = print_uint(mag, 10);
    let mut r: Vec<u8> = Vec::new();
    r.push(0x65);
    if e < 0 {
        r.push(0x2D);
    } else {
        r.push(0x2B);
    }
    if d.len() < 2 {
        r.push(0x30);
    }
    r.append(&mut d);
    assert(r@ =~= exp_text(e as int));
    r
}

/// A text without the zeros at its end.
pub open spec fn without_zeros(s: Seq<u8>) -> Seq<u8>
    decreases s.len(),
{
    if s.len() > 0 && s.last() == 0x30 {
        without_zeros(s.drop_last())
    } else {
        s
    }
}

/// A number with a fraction in its shortest form: without the zeros at its end
/// and without a point that ends it.
pub open spec fn stripped(s: Seq<u8>) -> Seq<u8> {
    if !s.contains(0x2E) {
        s
    } else {
        let z = without_zeros(s);
        if z.len() > 0 && z.last() == 0x2E {
            z.drop_last()
        } else {
            z
        }
    }
}

/// Bring a number with a fraction into its shortest form.
pub fn strip_g(buf: &mut Vec<u8>)
    ensures
        final(buf)@ == stripped(old(buf)@),
{
    let mut point: bool = false;
    let mut i: usize = 0;
    while i < buf.len()
        invariant
            i <= buf.len(),
            buf@ == old(buf)@,
            point == buf@.subrange(0, i as int).contains(0x2E),
        decreases buf.len() - i,
    {
        proof {
            let a = buf@.subrange(0, i as int);
            let b = buf@.subrange(0, i + 1);
            assert(b =~= a.push(buf@[i as int]));
            if a.contains(0x2E) {
                let k = choose|k: int| 0 <= k < a.len() && a[k] == 0x2E;
                assert(b[k] == 0x2E);
            }
            if buf@[i as int] == 0x2E {
                assert(b[i as int] == 0x2E);
            }
            if b.contains(0x2E) {
                let k = choose|k: int| 0 <= k < b.len() && b[k] == 0x2E;
                if k < i {
                    assert(a[k] == 0x2E);
                }
            }
        }
        if buf[i] == 0x2E {
            point = true;
        }
        i += 1;
    }
    assert(buf@.subrange(0, buf@.len() as int) =~= buf@);
    if !point {
        return;
    }
    let mut n: usize = buf.len();
    while n > 0 && buf[n - 1] == 0x30
        invariant
            n <= buf.len(),
            buf@ == old(buf)@,
            without_zeros(buf@.subrange(0, n as int)) == without_zeros(old(buf)@),
        decreases n,
    {
        assert(buf@.subrange(0, n as int).drop_last() =~= buf@.subrange(0, n - 1));
        n -= 1;
    }
    assert(without_zeros(old(buf)@) == buf@.subrange(0, n as int));
    if n > 0 && buf[n - 1] == 0x2E {
        n -= 1;
        assert(buf@.subrange(0, n + 1).drop_last() =~= buf@.subrange(0, n as int));
    }
    buf.truncate(n);
    assert(buf@ =~= stripped(old(buf)@));
}

/// Put a text into a buffer of `size` bytes, cut so that its closing zero fits.
/// The result is the length of the whole text.
pub fn snprint(buf: &mut [u8], size: usize, out: &[u8]) -> (n: usize)
    requires
        size <= old(buf).len() || out.len() + 1 <= old(buf).len(),
    ensures
        n == out.len(),
        final(buf)@ == (if size == 0 {
            old(buf)@
        } else {
            packet::written(old(buf)@, 0, packet::first(out@, size - 1).push(0))
        }),
{
    if size == 0 {
        return out.len();
    }
    let n: usize = if out.len() < size {
        out.len()
    } else {
        size - 1
    };
    assert(out@.subrange(0, n as int) =~= packet::first(out@, size - 1));
    string::memcpy(buf, out, n);
    buf[n] = 0;
    assert(buf@ =~= packet::written(old(buf)@, 0, packet::first(out@, size - 1).push(0)));
    out.len()
}

/// A format without a percent sign is its own output.
pub proof fn law_plain_text(t: Seq<u8>, i: int)
    requires
        0 <= i <= t.len(),
        forall|k: int| 0 <= k < t.len() ==> #[trigger] t[k] != 0x25,
    ensures
        directives(t, i) == Seq::new(
            (t.len() - i) as nat,
            |k: int| Directive::Byte(t[i + k]),
        ),
    decreases t.len() - i,
{
    let want = Seq::new((t.len() - i) as nat, |k: int| Directive::Byte(t[i + k]));
    if i < t.len() {
        law_plain_text(t, i + 1);
        let rest = Seq::new((t.len() - (i + 1)) as nat, |k: int| Directive::Byte(t[i + 1 + k]));
        assert(t[i] != 0x25);
        assert(directive_at(t, i) == (Directive::Byte(t[i]), i + 1));
        assert(directives(t, i) == seq![Directive::Byte(t[i])] + directives(t, i + 1));
        assert(want =~= seq![Directive::Byte(t[i])] + rest);
    } else {
        assert(want =~= Seq::empty());
    }
}

/// A text in a buffer that holds it reads back, and is cut in one that does not.
pub proof fn law_output_reads_back(buf: Seq<u8>, size: int, out: Seq<u8>)
    requires
        0 < size <= buf.len(),
        forall|k: int| 0 <= k < out.len() ==> #[trigger] out[k] != 0,
    ensures
        string::text(packet::written(buf, 0, packet::first(out, size - 1).push(0)))
            == packet::first(out, size - 1),
{
    let t = packet::first(out, size - 1);
    let b = packet::written(buf, 0, t.push(0));
    assert forall|k: int| 0 <= k < t.len() implies b[k] != 0 by {
        assert(t.push(0)[k] == t[k]);
        assert(t[k] == out[k]);
    }
    assert(b[t.len() as int] == t.push(0)[t.len() as int]);
    bytes::lemma_nul_index_unique(b, t.len() as int);
    assert(string::text(b) =~= t);
}

} // verus!
