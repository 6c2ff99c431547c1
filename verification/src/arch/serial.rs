//! What the serial console sends.
use vstd::prelude::*;

verus! {

pub const LF: u8 = 10;
pub const CR: u8 = 13;

/// What is sent for byte `b`: a line feed brings the cursor back to the first column.
pub open spec fn sent_for(b: u8) -> Seq<u8> {
    if b == LF {
        seq![CR, LF]
    } else {
        seq![b]
    }
}

/// What is sent for `bytes`.
pub open spec fn crlf(bytes: Seq<u8>) -> Seq<u8>
    decreases bytes.len(),
{
    if bytes.len() == 0 {
        Seq::empty()
    } else {
        crlf(bytes.drop_last()) + sent_for(bytes.last())
    }
}

/// Queue what is sent for `b`.
pub fn send_crlf(out: &mut Vec<u8>, b: u8)
    ensures
        final(out)@ == old(out)@ + sent_for(b),
{
    if b == LF {
        out.push(CR);
    }
    out.push(b);
    assert(out@ =~= old(out)@ + sent_for(b));
}

/// What the console sends for `bytes`.
pub fn write_bytes(bytes: &[u8]) -> (out: Vec<u8>)
    ensures
        out@ == crlf(bytes@),
{
    let mut out: Vec<u8> = Vec::new();
    let mut i: usize = 0;
    while i < bytes.len()
        invariant
            i <= bytes@.len(),
            out@ == crlf(bytes@.subrange(0, i as int)),
        decreases bytes@.len() - i,
    {
        send_crlf(&mut out, bytes[i]);
        i += 1;
        assert(bytes@.subrange(0, i as int).drop_last() =~= bytes@.subrange(0, i - 1));
    }
    assert(bytes@.subrange(0, i as int) =~= bytes@);
    out
}

/// Writing in pieces sends the same as writing at once.
pub proof fn law_pieces(a: Seq<u8>, b: Seq<u8>)
    ensures
        crlf(a + b) == crlf(a) + crlf(b),
    decreases b.len(),
{
    if b.len() == 0 {
        assert(a + b =~= a);
        assert(crlf(a) + crlf(b) =~= crlf(a));
    } else {
        law_pieces(a, b.drop_last());
        assert((a + b).drop_last() =~= a + b.drop_last());
        assert(crlf(a + b) =~= crlf(a) + crlf(b));
    }
}

/// Every line feed that is sent comes right after a carriage return.
pub proof fn law_line_feed_after_return(bytes: Seq<u8>, i: int)
    requires
        0 <= i < crlf(bytes).len(),
        crlf(bytes)[i] == LF,
    ensures
        i > 0 && crlf(bytes)[i - 1] == CR,
    decreases bytes.len(),
{
    let rest = crlf(bytes.drop_last());
    if i < rest.len() {
        law_line_feed_after_return(bytes.drop_last(), i);
    }
}

/// The character of a hexadecimal digit.
pub open spec fn hex_digit(n: int) -> int {
    if n < 10 {
        48 + n
    } else {
        87 + n
    }
}

/// Digit `i` of `v`, counted from the right.
pub open spec fn digit_of(v: u64, i: int) -> int
    decreases i,
{
    if i <= 0 {
        v as int % 16
    } else {
        digit_of((v / 16) as u64, i - 1)
    }
}

/// A number in hexadecimal: the prefix and all sixteen digits.
pub fn raw_hex(v: u64) -> (s: [u8; 18])
    ensures
        s@[0] == 48,
        s@[1] == 120,
        forall|i: int| 0 <= i < 16 ==> #[trigger] s@[17 - i] == hex_digit(digit_of(v, i)),
{
    let mut s: [u8; 18] = [48u8; 18];
    s[1] = 120;
    let mut w: u64 = v;
    let mut i: usize = 0;
    while i < 16
        invariant
            i <= 16,
            s@[0] == 48,
            s@[1] == 120,
            forall|k: int| 0 <= k < i ==> #[trigger] s@[17 - k] == hex_digit(digit_of(v, k)),
            forall|k: int| k >= 0 ==> #[trigger] digit_of(w, k) == digit_of(v, k + i),
        decreases 16 - i,
    {
        let n: u8 = (w % 16) as u8;
        assert(digit_of(w, 0) == digit_of(v, i as int));
        let ghost before = s@;
        s[17 - i] = if n < 10 {
            48 + n
        } else {
            87 + n
        };
        let ghost w0 = w;
        w = w / 16;
        proof {
            assert forall|k: int| 0 <= k < i + 1 implies #[trigger] s@[17 - k] == hex_digit(
                digit_of(v, k),
            ) by {
                if k < i {
                    assert(s@[17 - k] == before[17 - k]);
                }
            }
            assert forall|k: int| k >= 0 implies #[trigger] digit_of(w, k) == digit_of(
                v,
                k + (i + 1),
            ) by {
                assert(digit_of(w0, k + 1) == digit_of(w, k));
                assert(digit_of(w0, k + 1) == digit_of(v, (k + 1) + i));
            }
        }
        i += 1;
    }
    s
}

} // verus!
