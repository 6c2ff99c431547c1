//! A small DNS client: build a recursive query, find the first address in the
//! response.
use crate::bytes;
use crate::bytes::read_be16;
use vstd::prelude::*;
use vstd::string::*;

verus! {

/// Record type of an IPv4 address.
pub const TYPE_A: u16 = 1;

/// Record type of an IPv6 address.
pub const TYPE_AAAA: u16 = 28;

/// Bytes before the first question.
pub const HEADER_LEN: usize = 12;

/// Milliseconds that a query waits for its response.
pub const TIMEOUT_MS: u64 = 4000;

/// Whether a query sent at `start` has waited long enough; the clock may wrap.
pub fn timed_out(start: u64, now: u64) -> (b: bool)
    ensures
        b == ((now - start) % 0x1_0000_0000_0000_0000 > TIMEOUT_MS),
{
    now.wrapping_sub(start) > TIMEOUT_MS
}

/// The two big-endian bytes of a number.
pub open spec fn be16_bytes(v: u16) -> Seq<u8> {
    seq![(v as int / 0x100) as u8, (v as int % 0x100) as u8]
}

/// The labels of a dotted name, each behind its length, without the closing zero.
pub open spec fn labels(name: Seq<u8>) -> Seq<u8>
    decreases name.len(),
{
    let n = bytes::first_of(name, 0x2E);
    if 0 <= n < name.len() {
        seq![n as u8] + name.subrange(0, n) + labels(name.subrange(n + 1, name.len() as int))
    } else {
        seq![n as u8] + name
    }
}

/// The twelve bytes of a recursive query with one question.
pub open spec fn header(id: u16) -> Seq<u8> {
    be16_bytes(id) + seq![1u8, 0, 0, 1, 0, 0, 0, 0, 0, 0]
}

/// The query for the records of type `qtype` of `name`.
pub open spec fn question(id: u16, name: Seq<u8>, qtype: u16) -> Seq<u8> {
    header(id) + labels(name) + seq![0u8] + be16_bytes(qtype) + seq![0u8, 1u8]
}

/// Append the two big-endian bytes of `v`.
fn push_be16(q: &mut Vec<u8>, v: u16)
    ensures
        final(q)@ == old(q)@ + be16_bytes(v),
{
    q.push((v / 0x100) as u8);
    q.push((v % 0x100) as u8);
    assert(q@ =~= old(q)@ + be16_bytes(v));
}

/// Append the labels of `name`.
fn push_labels(q: &mut Vec<u8>, name: &[u8])
    ensures
        final(q)@ == old(q)@ + labels(name@),
{
    let ghost before = q@;
    let mut start: usize = 0;
    assert(name@.subrange(0, name@.len() as int) =~= name@);
    loop
        invariant_except_break
            start <= name.len(),
            q@ + labels(name@.subrange(start as int, name@.len() as int)) == before + labels(name@),
        ensures
            q@ == before + labels(name@),
        decreases name.len() - start,
    {
        let ghost rest = name@.subrange(start as int, name@.len() as int);
        let ghost sofar = q@;
        let mut end: usize = start;
        while end < name.len() && name[end] != 0x2E
            invariant
                start <= end <= name.len(),
                rest == name@.subrange(start as int, name@.len() as int),
                forall|i: int| 0 <= i < end - start ==> rest[i] != 0x2E,
            decreases name.len() - end,
        {
            assert(rest[end - start] == name@[end as int]);
            end += 1;
        }
        let n: usize = end - start;
        proof {
            if end < name.len() {
                assert(rest[n as int] == name@[end as int]);
            }
            bytes::lemma_first_of_unique(rest, 0x2E, n as int);
        }
        q.push(n as u8);
        let mut i: usize = start;
        while i < end
            invariant
                start <= i <= end <= name.len(),
                n == end - start,
                q@ =~= sofar + seq![n as u8] + name@.subrange(start as int, i as int),
            decreases end - i,
        {
            q.push(name[i]);
            i += 1;
        }
        assert(name@.subrange(start as int, end as int) =~= rest.subrange(0, n as int));
        if end == name.len() {
            assert(rest.subrange(0, n as int) =~= rest);
            assert(q@ =~= sofar + labels(rest));
            break ;
        }
        start = end + 1;
        assert(name@.subrange(start as int, name@.len() as int) =~= rest.subrange(
            n + 1,
            rest.len() as int,
        ));
        assert(q@ + labels(name@.subrange(start as int, name@.len() as int)) =~= sofar + labels(
            rest,
        ));
    }
}

/// Build a recursive query for `name`.
pub fn query(id: u16, name: &str, qtype: u16) -> (q: Vec<u8>)
    ensures
        q@ == question(id, name.spec_bytes(), qtype),
{
    let mut q: Vec<u8> = Vec::new();
    push_be16(&mut q, id);
    push_be16(&mut q, 0x0100);
    push_be16(&mut q, 1);
    push_be16(&mut q, 0);
    push_be16(&mut q, 0);
    push_be16(&mut q, 0);
    assert(q@ =~= header(id));
    push_labels(&mut q, name.as_bytes());
    q.push(0);
    push_be16(&mut q, qtype);
    push_be16(&mut q, 1);
    assert(q@ =~= question(id, name.spec_bytes(), qtype));
    q
}

/// The position behind the name that starts at `off`: behind its closing zero
/// or behind its first pointer. `None` when the bytes end first.
pub open spec fn name_end(p: Seq<u8>, off: int) -> Option<int>
    decreases p.len() + 0x100 - off,
{
    if off < 0 || off >= p.len() {
        None
    } else if p[off] >= 0xC0 {
        Some(off + 2)
    } else if p[off] == 0 {
        Some(off + 1)
    } else {
        name_end(p, off + 1 + p[off])
    }
}

/// The position behind `n` questions from `off` on.
pub open spec fn questions_end(p: Seq<u8>, off: int, n: int) -> Option<int>
    decreases n,
{
    if n <= 0 {
        Some(off)
    } else {
        match name_end(p, off) {
            None => None,
            Some(e) => questions_end(p, e + 4, n - 1),
        }
    }
}

/// The position of the data of the first of `n` records from `off` on that has
/// type `typ` and `size` bytes of data, all present.
pub open spec fn record_data(p: Seq<u8>, off: int, n: int, typ: u16, size: int) -> Option<int>
    decreases n,
{
    if n <= 0 {
        None
    } else {
        match name_end(p, off) {
            None => None,
            Some(e) => if e + 10 > p.len() {
                None
            } else if bytes::be16(p, e) == typ && bytes::be16(p, e + 8) == size && e + 10 + size
                <= p.len() {
                Some(e + 10)
            } else {
                record_data(p, e + 10 + bytes::be16(p, e + 8), n - 1, typ, size)
            },
        }
    }
}

/// The data of the first answer of type `typ` with `size` bytes in a response.
pub open spec fn answer(resp: Seq<u8>, typ: u16, size: int) -> Option<Seq<u8>> {
    if resp.len() < HEADER_LEN {
        None
    } else {
        match questions_end(resp, HEADER_LEN as int, bytes::be16(resp, 4)) {
            None => None,
            Some(off) => match record_data(resp, off, bytes::be16(resp, 6), typ, size) {
                None => None,
                Some(d) => Some(resp.subrange(d, d + size)),
            },
        }
    }
}

/// Skip the name at `off`.
fn skip_name(p: &[u8], off: usize) -> (r: Option<usize>)
    requires
        p.len() + 0x100 <= usize::MAX,
    ensures
        match r {
            Some(e) => name_end(p@, off as int) == Some(e as int) && e <= p.len() + 1,
            None => name_end(p@, off as int) is None,
        },
{
    let mut at: usize = off;
    loop
        invariant
            p.len() + 0x100 <= usize::MAX,
            name_end(p@, at as int) == name_end(p@, off as int),
        decreases p.len() + 0x100 - at,
    {
        if at >= p.len() {
            return None;
        }
        let b: u8 = p[at];
        assert((b & 0xC0 == 0xC0) == (b >= 0xC0)) by (bit_vector);
        if b & 0xC0 == 0xC0 {
            return Some(at + 2);
        }
        if b == 0 {
            return Some(at + 1);
        }
        at += 1 + b as usize;
    }
}

/// Find the data of the first answer of a type and size.
fn find_answer(resp: &[u8], typ: u16, size: u16) -> (r: Option<usize>)
    requires
        resp.len() + 0x1_0100 <= usize::MAX,
    ensures
        match r {
            Some(d) => d + size <= resp.len() && answer(resp@, typ, size as int) == Some(
                resp@.subrange(d as int, d + size),
            ),
            None => answer(resp@, typ, size as int) is None,
        },
{
    if resp.len() < HEADER_LEN {
        return None;
    }
    let qd: u16 = read_be16(resp, 4);
    let an: u16 = read_be16(resp, 6);
    let mut off: usize = HEADER_LEN;
    let mut i: u16 = 0;
    while i < qd
        invariant
            i <= qd,
            off <= resp.len() + 5,
            resp.len() + 0x1_0100 <= usize::MAX,
            questions_end(resp@, off as int, qd - i) == questions_end(
                resp@,
                HEADER_LEN as int,
                qd as int,
            ),
            qd == bytes::be16(resp@, 4),
            resp.len() >= HEADER_LEN,
        decreases qd - i,
    {
        match skip_name(resp, off) {
            None => {
                return None;
            },
            Some(e) => {
                off = e + 4;
            },
        }
        i += 1;
    }
    let ghost start = off as int;
    let mut k: u16 = 0;
    while k < an
        invariant
            k <= an,
            off <= resp.len() + 0x1_0000,
            resp.len() + 0x1_0100 <= usize::MAX,
            record_data(resp@, off as int, an - k, typ, size as int) == record_data(
                resp@,
                start,
                an as int,
                typ,
                size as int,
            ),
            questions_end(resp@, HEADER_LEN as int, bytes::be16(resp@, 4)) == Some(start),
            an == bytes::be16(resp@, 6),
            resp.len() >= HEADER_LEN,
        decreases an - k,
    {
        match skip_name(resp, off) {
            None => {
                return None;
            },
            Some(e) => {
                if e + 10 > resp.len() {
                    return None;
                }
                let t: u16 = read_be16(resp, e);
                let rdlen: u16 = read_be16(resp, e + 8);
                let d: usize = e + 10;
                if t == typ && rdlen == size && d + size as usize <= resp.len() {
                    return Some(d);
                }
                off = d + rdlen as usize;
            },
        }
        k += 1;
    }
    None
}

/// The first IPv4 address in a response.
pub fn first_a(resp: &[u8]) -> (r: Option<[u8; 4]>)
    requires
        resp.len() + 0x1_0100 <= usize::MAX,
    ensures
        match r {
            Some(a) => answer(resp@, TYPE_A, 4) == Some(a@),
            None => answer(resp@, TYPE_A, 4) is None,
        },
{
    match find_answer(resp, TYPE_A, 4) {
        None => None,
        Some(d) => {
            let a: [u8; 4] = [resp[d], resp[d + 1], resp[d + 2], resp[d + 3]];
            assert(a@ =~= resp@.subrange(d as int, d + 4));
            Some(a)
        },
    }
}

/// The first IPv6 address in a response.
pub fn first_aaaa(resp: &[u8]) -> (r: Option<[u8; 16]>)
    requires
        resp.len() + 0x1_0100 <= usize::MAX,
    ensures
        match r {
            Some(a) => answer(resp@, TYPE_AAAA, 16) == Some(a@),
            None => answer(resp@, TYPE_AAAA, 16) is None,
        },
{
    match find_answer(resp, TYPE_AAAA, 16) {
        None => None,
        Some(d) => {
            let mut a: [u8; 16] = [0u8; 16];
            let mut i: usize = 0;
            while i < 16
                invariant
                    i <= 16,
                    d + 16 <= resp.len(),
                    forall|k: int| 0 <= k < i ==> a@[k] == resp@[d + k],
                decreases 16 - i,
            {
                a[i] = resp[d + i];
                i += 1;
            }
            assert(a@ =~= resp@.subrange(d as int, d + 16));
            Some(a)
        },
    }
}

/// Every label of a name is between one byte and the longest that a length
/// byte can hold without reading as a pointer.
pub open spec fn labels_fit(name: Seq<u8>) -> bool
    decreases name.len(),
{
    let n = bytes::first_of(name, 0x2E);
    &&& 0 < n < 0xC0
    &&& n < name.len() ==> labels_fit(name.subrange(n + 1, name.len() as int))
}

/// The name that stands at the end of `head`, closed by a zero, is skipped whole.
pub proof fn lemma_labels_skipped(head: Seq<u8>, name: Seq<u8>, tail: Seq<u8>)
    requires
        labels_fit(name),
    ensures
        name_end(head + labels(name) + seq![0u8] + tail, head.len() as int) == Some(
            (head.len() + labels(name).len() + 1) as int,
        ),
    decreases name.len(),
{
    let n = bytes::first_of(name, 0x2E);
    bytes::lemma_first_of(name, 0x2E);
    let p = head + labels(name) + seq![0u8] + tail;
    let off = head.len() as int;
    assert(p[off] == labels(name)[0]);
    assert(p[off] == n as u8);
    if n < name.len() {
        let rest = name.subrange(n + 1, name.len() as int);
        let h2 = head + seq![n as u8] + name.subrange(0, n);
        lemma_labels_skipped(h2, rest, tail);
        assert(h2 + labels(rest) + seq![0u8] + tail =~= p);
    } else {
        assert(p[off + 1 + n] == 0);
        assert(name_end(p, off + 1 + n) == Some(off + 1 + n + 1));
    }
}

/// One record whose name is a pointer to the first question.
pub open spec fn record(typ: u16, class_ttl: Seq<u8>, data: Seq<u8>) -> Seq<u8> {
    seq![0xC0u8, 12u8] + be16_bytes(typ) + class_ttl + be16_bytes(data.len() as u16) + data
}

/// A response with one question and one answer.
pub open spec fn response(
    id: u16,
    name: Seq<u8>,
    typ: u16,
    class_ttl: Seq<u8>,
    data: Seq<u8>,
) -> Seq<u8> {
    be16_bytes(id) + seq![0x81u8, 0x80, 0, 1, 0, 1, 0, 0, 0, 0] + labels(name) + seq![0u8]
        + be16_bytes(typ) + seq![0u8, 1u8] + record(typ, class_ttl, data)
}

/// A record at the end of a message is found there.
proof fn lemma_record_found(pre: Seq<u8>, typ: u16, class_ttl: Seq<u8>, data: Seq<u8>)
    requires
        class_ttl.len() == 6,
        data.len() <= 0xFFFF,
    ensures
        ({
            let p = pre + record(typ, class_ttl, data);
            let off = pre.len() as int;
            &&& record_data(p, off, 1, typ, data.len() as int) == Some(off + 12)
            &&& p.subrange(off + 12, off + 12 + data.len()) == data
        }),
{
    let rec = record(typ, class_ttl, data);
    let p = pre + rec;
    let off = pre.len() as int;
    let tb = be16_bytes(typ);
    let dl = be16_bytes(data.len() as u16);
    assert(rec[0] == 0xC0 && rec[2] == tb[0] && rec[3] == tb[1]);
    assert(rec[10] == dl[0] && rec[11] == dl[1]);
    assert(rec.len() == 12 + data.len());
    assert forall|i: int| 0 <= i < rec.len() implies p[off + i] == #[trigger] rec[i] by {}
    assert(p[off] == 0xC0);
    assert(name_end(p, off) == Some(off + 2));
    assert(bytes::be16(p, off + 2) == typ);
    assert(p[off + 10] == dl[0] && p[off + 11] == dl[1]);
    assert(bytes::be16(p, off + 10) == data.len());
    assert(p.subrange(off + 12, off + 12 + data.len()) =~= data);
}

/// A response to a query, with a pointer for the answer's name, gives back the
/// answer's data.
pub proof fn law_answer_to_query(
    id: u16,
    name: Seq<u8>,
    typ: u16,
    class_ttl: Seq<u8>,
    data: Seq<u8>,
)
    requires
        labels_fit(name),
        class_ttl.len() == 6,
        data.len() <= 0xFFFF,
    ensures
        answer(response(id, name, typ, class_ttl, data), typ, data.len() as int) == Some(data),
{
    let resp = response(id, name, typ, class_ttl, data);
    let head = be16_bytes(id) + seq![0x81u8, 0x80, 0, 1, 0, 1, 0, 0, 0, 0];
    let rec = record(typ, class_ttl, data);
    let tail = be16_bytes(typ) + seq![0u8, 1u8] + rec;
    assert(resp =~= head + labels(name) + seq![0u8] + tail);
    lemma_labels_skipped(head, name, tail);
    let pre = head + labels(name) + seq![0u8] + be16_bytes(typ) + seq![0u8, 1u8];
    assert(resp =~= pre + rec);
    lemma_record_found(pre, typ, class_ttl, data);
    assert(head.len() == 12);
    assert(resp[4] == head[4] && resp[5] == head[5] && resp[6] == head[6] && resp[7] == head[7]);
    let off = pre.len() as int;
    assert(questions_end(resp, off, 0) == Some(off));
    assert(name_end(resp, 12) == Some(off - 4));
    assert(questions_end(resp, 12, 1) == Some(off)) by {
        reveal_with_fuel(questions_end, 2);
    }
}

} // verus!
