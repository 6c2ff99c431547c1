//! Laws of formatted output and of numbers in text: what a conversion prints reads back as
//! what it was given.

use crate::bytes;
use crate::libc;
use crate::libc::format::{Arg, Class, Directive, Prec};
use crate::libc::number;
use crate::libc::string;
use vstd::prelude::*;

verus! {

/// The output of a format for its arguments.
spec fn printed<'a>(t: Seq<u8>, args: Seq<Arg<'a>>) -> Seq<u8> {
    let ds = libc::format::directives(t, 0);
    libc::format::output(ds, args, ds.len() as int)
}

/// A format that is one conversion, long or not.
proof fn lemma_one_conversion(t: Seq<u8>, long: bool, c: u8)
    requires
        t == if long {
            seq![0x25u8, 0x6Cu8, c]
        } else {
            seq![0x25u8, c]
        },
        libc::format::known(c),
    ensures
        libc::format::directives(t, 0) == seq![
            Directive::Conv { star: false, prec: Prec::Unset, long, spec: c },
        ],
{
    let d = Directive::Conv { star: false, prec: Prec::Unset, long, spec: c };
    let n = t.len() as int;
    assert(libc::format::run(t, 1, Class::Flag) == 1);
    assert(libc::format::run(t, 1, Class::Digit) == 1);
    if long {
        assert(libc::format::run(t, 2, Class::Long) == 2);
        assert(libc::format::run(t, 1, Class::Long) == 2);
        assert(libc::format::run(t, 2, Class::Half) == 2);
    } else {
        assert(libc::format::run(t, 1, Class::Long) == 1);
        assert(libc::format::run(t, 1, Class::Half) == 1);
    }
    assert(libc::format::directive_at(t, 0) == (d, n));
    assert(libc::format::directives(t, n) =~= Seq::empty());
    assert(libc::format::directives(t, 0) =~= seq![d]);
}

/// The output of a format that is one conversion is the text of its argument.
proof fn lemma_one_text<'a>(t: Seq<u8>, long: bool, c: u8, arg: Arg<'a>)
    requires
        t == if long {
            seq![0x25u8, 0x6Cu8, c]
        } else {
            seq![0x25u8, c]
        },
        libc::format::known(c),
    ensures
        printed(t, seq![arg]) == libc::format::piece_text(
            Directive::Conv { star: false, prec: Prec::Unset, long, spec: c },
            arg,
        ),
{
    lemma_one_conversion(t, long, c);
    let ds = libc::format::directives(t, 0);
    let args = seq![arg];
    assert(libc::format::used(ds, 0) == 0);
    assert(libc::format::used(ds, 1) == 1);
    assert(libc::format::output(ds, args, 0) =~= Seq::<u8>::empty());
    assert(libc::format::output(ds, args, 1) =~= Seq::<u8>::empty() + libc::format::piece_text(ds[0], arg));
    assert(printed(t, args) =~= libc::format::piece_text(ds[0], arg));
}

/// A long unsigned conversion prints all 64 bits: in base ten, eight or sixteen its text
/// reads back as the number.
pub proof fn law_long_unsigned_reads_back(w: u64)
    ensures
        ({
            let ds = libc::format::directives(seq![0x25u8, 0x6Cu8, 0x75u8], 0);
            let out = libc::format::output(ds, seq![Arg::Word(w)], ds.len() as int);
            number::value_of(out, 10) == w && out.len() > 0
        }),
        ({
            let ds = libc::format::directives(seq![0x25u8, 0x6Cu8, 0x6Fu8], 0);
            let out = libc::format::output(ds, seq![Arg::Word(w)], ds.len() as int);
            number::value_of(out, 8) == w && out.len() > 0
        }),
        ({
            let ds = libc::format::directives(seq![0x25u8, 0x6Cu8, 0x78u8], 0);
            let out = libc::format::output(ds, seq![Arg::Word(w)], ds.len() as int);
            number::value_of(out, 16) == w && out.len() > 0
        }),
        ({
            let ds = libc::format::directives(seq![0x25u8, 0x6Cu8, 0x58u8], 0);
            let out = libc::format::output(ds, seq![Arg::Word(w)], ds.len() as int);
            number::value_of(out, 16) == w && out.len() > 0
        }),
{
    lemma_one_text(seq![0x25u8, 0x6Cu8, 0x75u8], true, 0x75, Arg::Word(w));
    lemma_one_text(seq![0x25u8, 0x6Cu8, 0x6Fu8], true, 0x6F, Arg::Word(w));
    lemma_one_text(seq![0x25u8, 0x6Cu8, 0x78u8], true, 0x78, Arg::Word(w));
    lemma_one_text(seq![0x25u8, 0x6Cu8, 0x58u8], true, 0x58, Arg::Word(w));
    number::law_digits_stand_for_number(w as int, 10);
    number::law_digits_stand_for_number(w as int, 8);
    number::law_digits_stand_for_number(w as int, 16);
}

/// An unsigned conversion that is not long prints the low 32 bits.
pub proof fn law_short_unsigned_reads_back(w: u64)
    ensures
        ({
            let ds = libc::format::directives(seq![0x25u8, 0x75u8], 0);
            let out = libc::format::output(ds, seq![Arg::Word(w)], ds.len() as int);
            number::value_of(out, 10) == w % 0x1_0000_0000 && out.len() > 0
        }),
        ({
            let ds = libc::format::directives(seq![0x25u8, 0x6Fu8], 0);
            let out = libc::format::output(ds, seq![Arg::Word(w)], ds.len() as int);
            number::value_of(out, 8) == w % 0x1_0000_0000 && out.len() > 0
        }),
        ({
            let ds = libc::format::directives(seq![0x25u8, 0x78u8], 0);
            let out = libc::format::output(ds, seq![Arg::Word(w)], ds.len() as int);
            number::value_of(out, 16) == w % 0x1_0000_0000 && out.len() > 0
        }),
        ({
            let ds = libc::format::directives(seq![0x25u8, 0x58u8], 0);
            let out = libc::format::output(ds, seq![Arg::Word(w)], ds.len() as int);
            number::value_of(out, 16) == w % 0x1_0000_0000 && out.len() > 0
        }),
{
    lemma_one_text(seq![0x25u8, 0x75u8], false, 0x75, Arg::Word(w));
    lemma_one_text(seq![0x25u8, 0x6Fu8], false, 0x6F, Arg::Word(w));
    lemma_one_text(seq![0x25u8, 0x78u8], false, 0x78, Arg::Word(w));
    lemma_one_text(seq![0x25u8, 0x58u8], false, 0x58, Arg::Word(w));
    assert((w as u32) as u64 == w % 0x1_0000_0000) by (bit_vector);
    let v = (w % 0x1_0000_0000) as int;
    number::law_digits_stand_for_number(v, 10);
    number::law_digits_stand_for_number(v, 8);
    number::law_digits_stand_for_number(v, 16);
}

/// A signed conversion prints the register as a signed number, of all 64 bits if it is long
/// and of the low 32 if not, and its text reads back as that number.
pub proof fn law_signed_reads_back(v: i64, x: i32)
    ensures
        ({
            let ds = libc::format::directives(seq![0x25u8, 0x6Cu8, 0x64u8], 0);
            let out = libc::format::output(ds, seq![Arg::Word(v as u64)], ds.len() as int);
            number::parsed(out, 10) == (v as int, out.len() as int)
        }),
        ({
            let ds = libc::format::directives(seq![0x25u8, 0x6Cu8, 0x69u8], 0);
            let out = libc::format::output(ds, seq![Arg::Word(v as u64)], ds.len() as int);
            number::parsed(out, 10) == (v as int, out.len() as int)
        }),
        ({
            let ds = libc::format::directives(seq![0x25u8, 0x64u8], 0);
            let out = libc::format::output(ds, seq![Arg::Word((x as u32) as u64)], ds.len() as int);
            number::parsed(out, 10) == (x as int, out.len() as int)
        }),
        ({
            let ds = libc::format::directives(seq![0x25u8, 0x69u8], 0);
            let out = libc::format::output(ds, seq![Arg::Word((x as i64) as u64)], ds.len() as int);
            number::parsed(out, 10) == (x as int, out.len() as int)
        }),
{
    let a = v as u64;
    let b = (x as u32) as u64;
    let c = (x as i64) as u64;
    lemma_one_text(seq![0x25u8, 0x6Cu8, 0x64u8], true, 0x64, Arg::Word(a));
    lemma_one_text(seq![0x25u8, 0x6Cu8, 0x69u8], true, 0x69, Arg::Word(a));
    lemma_one_text(seq![0x25u8, 0x64u8], false, 0x64, Arg::Word(b));
    lemma_one_text(seq![0x25u8, 0x69u8], false, 0x69, Arg::Word(c));
    assert((v as u64) as i64 == v && ((x as u32) as u64) as i32 == x && ((x as i64) as u64) as i32
        == x) by (bit_vector);
    number::law_printed_number_reads_back(v);
    number::law_printed_number_reads_back(x as i64);
}

/// A pointer is printed as `0x` and all of it in base sixteen.
pub proof fn law_pointer_reads_back(w: u64)
    ensures
        ({
            let ds = libc::format::directives(seq![0x25u8, 0x70u8], 0);
            let out = libc::format::output(ds, seq![Arg::Word(w)], ds.len() as int);
            &&& out.len() > 2
            &&& out[0] == 0x30 && out[1] == 0x78
            &&& number::value_of(out.subrange(2, out.len() as int), 16) == w
        }),
{
    lemma_one_text(seq![0x25u8, 0x70u8], false, 0x70, Arg::Word(w));
    number::law_digits_stand_for_number(w as int, 16);
    let d = number::digits(w as int, 16);
    let out = seq![0x30u8, 0x78u8] + d;
    assert(out.subrange(2, out.len() as int) =~= d);
}

/// A character is printed as it is, a string up to its end, and no string as `(null)`.
pub proof fn law_characters_and_strings<'a>(w: u8, s: &'a [u8])
    ensures
        ({
            let ds = libc::format::directives(seq![0x25u8, 0x63u8], 0);
            libc::format::output(ds, seq![Arg::Word(w as u64)], ds.len() as int) == seq![w]
        }),
        ({
            let ds = libc::format::directives(seq![0x25u8, 0x73u8], 0);
            let out = libc::format::output(ds, seq![Arg::Text(s)], ds.len() as int);
            &&& out.len() <= s@.len()
            &&& forall|i: int| 0 <= i < out.len() ==> #[trigger] out[i] == s@[i] && out[i] != 0
            &&& out.len() < s@.len() ==> s@[out.len() as int] == 0
        }),
        ({
            let ds = libc::format::directives(seq![0x25u8, 0x73u8], 0);
            libc::format::output(ds, seq![Arg::Null], ds.len() as int) == seq![
                0x28u8,
                0x6Eu8,
                0x75u8,
                0x6Cu8,
                0x6Cu8,
                0x29u8,
            ]
        }),
{
    lemma_one_text(seq![0x25u8, 0x63u8], false, 0x63, Arg::Word(w as u64));
    lemma_one_text(seq![0x25u8, 0x73u8], false, 0x73, Arg::Text(s));
    lemma_one_text(seq![0x25u8, 0x73u8], false, 0x73, Arg::Null);
    assert((w as u64) as u8 == w) by (bit_vector);
    bytes::lemma_nul_index(s@);
    let out = string::text(s@);
    assert forall|i: int| 0 <= i < out.len() implies #[trigger] out[i] == s@[i] && out[i]
        != 0 by {}
}

/// The characters of a kind end in the same place whatever stands before them.
proof fn lemma_run_shift(p: Seq<u8>, t: Seq<u8>, i: int, k: Class)
    requires
        0 <= i <= t.len(),
    ensures
        libc::format::run(p + t, p.len() + i, k) == p.len() + libc::format::run(t, i, k),
        i <= libc::format::run(t, i, k) <= t.len(),
    decreases t.len() - i,
{
    if i < t.len() {
        assert((p + t)[p.len() + i] == t[i]);
        if libc::format::member(k, t[i]) {
            lemma_run_shift(p, t, i + 1, k);
        }
    }
}

/// A directive is the same whatever stands before it.
proof fn lemma_directive_shift(p: Seq<u8>, t: Seq<u8>, i: int)
    requires
        0 <= i <= t.len(),
    ensures
        libc::format::directive_at(p + t, p.len() + i).0 == libc::format::directive_at(t, i).0,
        libc::format::directive_at(p + t, p.len() + i).1 == p.len() + libc::format::directive_at(t, i).1,
        i <= libc::format::directive_at(t, i).1 <= t.len(),
        libc::format::directive_at(t, i).0 !is End ==> i < libc::format::directive_at(t, i).1,
{
    let u = p + t;
    let n = p.len();
    if i < t.len() {
        assert(u[n + i] == t[i]);
        if t[i] == 0x25 {
            lemma_run_shift(p, t, i + 1, Class::Flag);
            let a = libc::format::run(t, i + 1, Class::Flag);
            lemma_run_shift(p, t, a, Class::Digit);
            let b = libc::format::run(t, a, Class::Digit);
            if b < t.len() {
                assert(u[n + b] == t[b]);
            }
            let star = b < t.len() && t[b] == 0x2A;
            let c = if star {
                b + 1
            } else {
                b
            };
            if c < t.len() {
                assert(u[n + c] == t[c]);
                if c + 1 < t.len() {
                    assert(u[n + c + 1] == t[c + 1]);
                }
                if t[c] == 0x2E && !(c + 1 < t.len() && t[c + 1] == 0x2A) {
                    lemma_run_shift(p, t, c + 1, Class::Digit);
                    let e = libc::format::run(t, c + 1, Class::Digit);
                    assert(u.subrange(n + c + 1, n + e) =~= t.subrange(c + 1, e));
                }
            }
            let (prec, d) = libc::format::prec_at(t, c);
            assert(libc::format::prec_at(u, n + c) == (prec, n + d));
            lemma_run_shift(p, t, d, Class::Long);
            let f = libc::format::run(t, d, Class::Long);
            lemma_run_shift(p, t, f, Class::Half);
            let g = libc::format::run(t, f, Class::Half);
            if g < t.len() {
                assert(u[n + g] == t[g]);
            }
        }
    }
}

/// The directives from a place on are the same whatever stands before it.
proof fn lemma_directives_shift(p: Seq<u8>, t: Seq<u8>, i: int)
    requires
        0 <= i <= t.len(),
    ensures
        libc::format::directives(p + t, p.len() + i) == libc::format::directives(t, i),
    decreases t.len() - i,
{
    lemma_directive_shift(p, t, i);
    let (d, n) = libc::format::directive_at(t, i);
    if !(d is End) && i < t.len() {
        lemma_directives_shift(p, t, n);
    }
}

/// The directives of plain text followed by a format: its characters, then the format's.
proof fn lemma_text_then_format(p: Seq<u8>, t: Seq<u8>, i: int)
    requires
        0 <= i <= p.len(),
        forall|k: int| 0 <= k < p.len() ==> #[trigger] p[k] != 0x25,
    ensures
        libc::format::directives(p + t, i) == Seq::new(
            (p.len() - i) as nat,
            |k: int| Directive::Byte(p[i + k]),
        ) + libc::format::directives(t, 0),
    decreases p.len() - i,
{
    let want = Seq::new((p.len() - i) as nat, |k: int| Directive::Byte(p[i + k]))
        + libc::format::directives(t, 0);
    if i < p.len() {
        lemma_text_then_format(p, t, i + 1);
        let rest = Seq::new((p.len() - (i + 1)) as nat, |k: int| Directive::Byte(p[i + 1 + k]));
        assert((p + t)[i] == p[i]);
        assert(libc::format::directive_at(p + t, i) == (Directive::Byte(p[i]), i + 1));
        assert(want =~= seq![Directive::Byte(p[i])] + (rest + libc::format::directives(t, 0)));
    } else {
        lemma_directives_shift(p, t, 0);
        assert(want =~= libc::format::directives(t, 0));
    }
}

/// Characters take no argument and are printed as they are; what follows is printed as if
/// it stood alone.
proof fn lemma_output_after_text<'a>(
    p: Seq<u8>,
    es: Seq<Directive>,
    args: Seq<Arg<'a>>,
    n: int,
)
    requires
        0 <= n <= p.len() + es.len(),
    ensures
        ({
            let ds = Seq::new(p.len(), |k: int| Directive::Byte(p[k])) + es;
            &&& n <= p.len() ==> libc::format::used(ds, n) == 0 && libc::format::output(ds, args, n)
                == p.subrange(0, n)
            &&& n >= p.len() ==> libc::format::used(ds, n) == libc::format::used(es, n - p.len())
                && libc::format::output(ds, args, n) == p + libc::format::output(es, args, n - p.len())
        }),
    decreases n,
{
    let ds = Seq::new(p.len(), |k: int| Directive::Byte(p[k])) + es;
    if n == 0 {
        assert(p.subrange(0, 0) =~= Seq::<u8>::empty());
        if p.len() == 0 {
            assert(p + libc::format::output(es, args, 0) =~= Seq::<u8>::empty());
        }
    } else {
        lemma_output_after_text(p, es, args, n - 1);
        if n <= p.len() {
            assert(ds[n - 1] == Directive::Byte(p[n - 1]));
            assert(p.subrange(0, n) =~= p.subrange(0, n - 1) + seq![p[n - 1]]);
            if n == p.len() {
                assert(p + libc::format::output(es, args, 0) =~= p.subrange(0, n));
            }
        } else {
            let m = n - p.len();
            assert(ds[n - 1] == es[m - 1]);
            assert(libc::format::output(ds, args, n - 1) == p + libc::format::output(es, args, m - 1));
            let arg = if libc::format::taken(es[m - 1]) > 0 {
                args[libc::format::used(es, m) - 1]
            } else {
                Arg::Null
            };
            assert(libc::format::output(ds, args, n) =~= p + libc::format::output(es, args, m));
        }
    }
}

/// Text before a directive is printed before what the rest of the format prints.
pub proof fn law_text_goes_before<'a>(p: Seq<u8>, t: Seq<u8>, args: Seq<Arg<'a>>)
    requires
        forall|k: int| 0 <= k < p.len() ==> #[trigger] p[k] != 0x25,
    ensures
        ({
            let ds = libc::format::directives(p + t, 0);
            let es = libc::format::directives(t, 0);
            &&& libc::format::output(ds, args, ds.len() as int) == p + libc::format::output(
                es,
                args,
                es.len() as int,
            )
            &&& libc::format::used(ds, ds.len() as int) == libc::format::used(es, es.len() as int)
        }),
{
    lemma_text_then_format(p, t, 0);
    let es = libc::format::directives(t, 0);
    let ds = Seq::new(p.len(), |k: int| Directive::Byte(p[k])) + es;
    assert(libc::format::directives(p + t, 0) =~= ds);
    lemma_output_after_text(p, es, args, p.len() + es.len() as int);
}

/// A doubled percent sign prints one; a conversion that is none is printed as it stands.
pub proof fn law_percent_is_printed<'a>(c: u8, args: Seq<Arg<'a>>)
    requires
        !libc::format::known(c),
        c != 0x25,
        !(c == 0x2D || c == 0x2B || c == 0x20 || c == 0x23 || 0x30 <= c <= 0x39),
        !(c == 0x6C || c == 0x7A || c == 0x6A || c == 0x74 || c == 0x68),
        c != 0x2A && c != 0x2E,
    ensures
        ({
            let ds = libc::format::directives(seq![0x25u8, 0x25u8], 0);
            libc::format::output(ds, args, ds.len() as int) == seq![0x25u8]
        }),
        ({
            let ds = libc::format::directives(seq![0x25u8, c], 0);
            libc::format::output(ds, args, ds.len() as int) == seq![0x25u8, c]
        }),
{
    let t = seq![0x25u8, 0x25u8];
    assert(libc::format::run(t, 1, Class::Flag) == 1);
    assert(libc::format::run(t, 1, Class::Digit) == 1);
    assert(libc::format::run(t, 1, Class::Long) == 1);
    assert(libc::format::run(t, 1, Class::Half) == 1);
    assert(libc::format::directive_at(t, 0) == (Directive::Percent, 2int));
    assert(libc::format::directives(t, 2) =~= Seq::empty());
    assert(libc::format::directives(t, 0) =~= seq![Directive::Percent]);
    let ds = seq![Directive::Percent];
    assert(libc::format::output(ds, args, 0) =~= Seq::<u8>::empty());
    assert(libc::format::output(ds, args, 1) =~= seq![0x25u8]);
    let s = seq![0x25u8, c];
    assert(libc::format::run(s, 1, Class::Flag) == 1);
    assert(libc::format::run(s, 1, Class::Digit) == 1);
    assert(libc::format::run(s, 1, Class::Long) == 1);
    assert(libc::format::run(s, 1, Class::Half) == 1);
    assert(libc::format::directive_at(s, 0) == (Directive::Odd(c), 2int));
    assert(libc::format::directives(s, 2) =~= Seq::empty());
    assert(libc::format::directives(s, 0) =~= seq![Directive::Odd(c)]);
    let es = seq![Directive::Odd(c)];
    assert(libc::format::output(es, args, 0) =~= Seq::<u8>::empty());
    assert(libc::format::output(es, args, 1) =~= seq![0x25u8, c]);
}

/// A width from the arguments takes one of them and leaves the next for the conversion.
pub proof fn law_star_takes_an_argument<'a>(x: Arg<'a>, w: u64)
    ensures
        ({
            let ds = libc::format::directives(seq![0x25u8, 0x2Au8, 0x75u8], 0);
            let out = libc::format::output(ds, seq![x, Arg::Word(w)], ds.len() as int);
            &&& libc::format::used(ds, ds.len() as int) == 2
            &&& number::value_of(out, 10) == w % 0x1_0000_0000
        }),
{
    let t = seq![0x25u8, 0x2Au8, 0x75u8];
    assert(libc::format::run(t, 1, Class::Flag) == 1);
    assert(libc::format::run(t, 1, Class::Digit) == 1);
    assert(libc::format::run(t, 2, Class::Long) == 2);
    assert(libc::format::run(t, 2, Class::Half) == 2);
    let d = Directive::Conv { star: true, prec: Prec::Unset, long: false, spec: 0x75 };
    assert(libc::format::directive_at(t, 0) == (d, 3int));
    assert(libc::format::directives(t, 3) =~= Seq::empty());
    assert(libc::format::directives(t, 0) =~= seq![d]);
    let ds = seq![d];
    let args = seq![x, Arg::Word(w)];
    assert(libc::format::used(ds, 0) == 0);
    assert(libc::format::used(ds, 1) == 2);
    assert(libc::format::output(ds, args, 0) =~= Seq::<u8>::empty());
    assert(libc::format::output(ds, args, 1) =~= libc::format::word_text(0x75, false, w));
    assert((w as u32) as u64 == w % 0x1_0000_0000) by (bit_vector);
    number::law_digits_stand_for_number((w % 0x1_0000_0000) as int, 10);
}

/// A number is printed without zeros before it.
pub proof fn law_no_leading_zero(v: int, base: int)
    requires
        v > 0,
        2 <= base <= 16,
    ensures
        number::digits(v, base)[0] != 0x30,
        number::digits(0, base) == seq![0x30u8],
    decreases v,
{
    if v >= base {
        assert(0 < v / base < v) by (nonlinear_arith)
            requires
                v >= base,
                base >= 2,
        ;
        law_no_leading_zero(v / base, base);
        number::law_digits_stand_for_number(v / base, base);
    }
}

/// The digits are `0` to `9`, then `a` to `z`, in either case.
pub proof fn law_digit_values(d: int)
    requires
        0 <= d < 36,
    ensures
        d < 10 ==> number::digit_of((0x30 + d) as u8) == d,
        d >= 10 ==> number::digit_of((0x61 + d - 10) as u8) == d,
        d >= 10 ==> number::digit_of((0x41 + d - 10) as u8) == d,
        d < 16 ==> number::digit_of(number::digit_char(d)) == d,
{
}

} // verus!
