//! Laws of the runtime: what a request says to the server that reads it, and what a reply
//! says to the program.

use crate::abi::SysResult;
use crate::bytes;
use crate::image::{self, ImageEntry, Images};
use crate::rng;
use crate::rt::calls;
use crate::rt::dns;
use crate::rt::fs;
use crate::rt::heap;
use crate::rt::packet::{self, Packet};
use crate::rt::rings;
use crate::rt::udp::{self, FrameCache};
use vstd::prelude::*;

verus! {

/// A number in network order is its high byte and its low byte.
pub proof fn law_network_order(v: u16)
    ensures
        dns::be16_bytes(v).len() == 2,
        dns::be16_bytes(v)[0] * 256 + dns::be16_bytes(v)[1] == v,
        bytes::be16(dns::be16_bytes(v), 0) == v,
{
}

/// A name is asked for label by label, each behind its length; what is left of the name
/// after a dot follows.
pub proof fn law_name_in_labels(name: Seq<u8>)
    requires
        dns::labels_fit(name),
    ensures
        ({
            let n = bytes::first_of(name, 0x2E);
            let l = dns::labels(name);
            &&& l[0] == n
            &&& forall|i: int| 0 <= i < n ==> #[trigger] l[i + 1] == name[i]
            &&& n < name.len() ==> name[n] == 0x2E && l.subrange(n + 1, l.len() as int)
                == dns::labels(name.subrange(n + 1, name.len() as int))
            &&& n == name.len() ==> l.len() == n + 1
        }),
{
    let n = bytes::first_of(name, 0x2E);
    bytes::lemma_first_of(name, 0x2E);
    let l = dns::labels(name);
    assert(l[0] == n as u8);
    if n < name.len() {
        let rest = dns::labels(name.subrange(n + 1, name.len() as int));
        assert(l.subrange(n + 1, l.len() as int) =~= rest);
    }
    assert forall|i: int| 0 <= i < n implies #[trigger] l[i + 1] == name[i] by {}
}

/// A query asks one question, of its number, name and type, with recursion, and holds
/// nothing else.
pub proof fn law_question_asks(id: u16, name: Seq<u8>, qtype: u16)
    requires
        dns::labels_fit(name),
    ensures
        ({
            let q = dns::question(id, name, qtype);
            let e = 12int + dns::labels(name).len() + 1;
            &&& bytes::be16(q, 0) == id
            &&& q[2] == 1 && q[3] == 0
            &&& bytes::be16(q, 4) == 1
            &&& bytes::be16(q, 6) == 0
            &&& bytes::be16(q, 8) == 0
            &&& bytes::be16(q, 10) == 0
            &&& q.subrange(12, e - 1) == dns::labels(name)
            &&& dns::name_end(q, 12) == Some(e)
            &&& bytes::be16(q, e) == qtype
            &&& bytes::be16(q, e + 2) == 1
            &&& q.len() == e + 4
        }),
{
    let q = dns::question(id, name, qtype);
    let h = dns::header(id);
    let l = dns::labels(name);
    let tail = dns::be16_bytes(qtype) + seq![0u8, 1u8];
    assert(q =~= h + l + seq![0u8] + tail);
    dns::lemma_labels_skipped(h, name, tail);
    let e = 12int + l.len() + 1;
    assert(q.subrange(12, e - 1) =~= l);
    assert(q[e] == tail[0] && q[e + 1] == tail[1] && q[e + 2] == tail[2] && q[e + 3] == tail[3]);
    assert(q[0] == h[0] && q[1] == h[1]);
}

/// A file server's reply is accepted if the call succeeded and its first word is 0; it
/// describes the node by its capability, kind, size and, where it says them, times.
pub proof fn law_node_of_reply(res: SysResult, reply: Packet)
    ensures
        fs::accepted(res, reply) <==> res is Ok && packet::word_of(reply.area@, 0) == 0,
        fs::node_of(reply).cap == reply.handles@[0],
        fs::node_of(reply).kind == packet::word_of(reply.area@, 1) as u64,
        fs::node_of(reply).size == packet::word_of(reply.area@, 2) as u64,
        reply.data_len < 4 ==> fs::node_of(reply).mtime == 0,
        reply.data_len >= 4 ==> fs::node_of(reply).mtime == packet::word_of(reply.area@, 3) as u64
            as u32,
        reply.data_len < 5 ==> fs::node_of(reply).atime == 0,
        reply.data_len >= 5 ==> fs::node_of(reply).atime == packet::word_of(reply.area@, 4) as u64
            as u32,
{
}

/// A request to write tells where, how much and what.
pub proof fn law_write_request_tells(off: u64, payload: Seq<u8>)
    requires
        payload.len() <= 480,
    ensures
        ({
            let a = fs::write_area(off, payload);
            &&& a.len() == 512
            &&& packet::word_of(a, 0) == off
            &&& packet::word_of(a, 1) == payload.len()
            &&& a.subrange(16, 16 + payload.len() as int) == payload
        }),
{
    let b = packet::with_word(packet::blank(), 0, off);
    let c = packet::with_word(b, 1, payload.len() as u64);
    packet::law_word_round_trip(packet::blank(), 0, 0, off);
    packet::law_word_round_trip(b, 1, 0, payload.len() as u64);
    packet::law_word_round_trip(b, 1, 1, payload.len() as u64);
    packet::law_put_round_trip(c, 16, payload);
    let a = fs::write_area(off, payload);
    lemma_word_kept(c, a, 0);
    lemma_word_kept(c, a, 1);
}

/// A word is the same in two areas that agree on its bytes.
proof fn lemma_word_kept(a: Seq<u8>, b: Seq<u8>, i: int)
    requires
        0 <= i,
        forall|j: int| 8 * i <= j < 8 * i + 8 ==> #[trigger] b[j] == a[j],
    ensures
        packet::word_of(b, i) == packet::word_of(a, i),
{
}

/// A datagram to be sent tells the address, the port, the length and the bytes.
pub proof fn law_datagram_request_tells(ip: Seq<u8>, port: u16, payload: Seq<u8>)
    requires
        ip.len() == 4,
        payload.len() <= 480,
    ensures
        ({
            let a = udp::sendto_area(ip, port, payload);
            &&& packet::word_of(a, 0) == ip[0] * 0x100_0000 + ip[1] * 0x1_0000 + ip[2] * 0x100
                + ip[3]
            &&& packet::word_of(a, 1) == port
            &&& packet::word_of(a, 2) == payload.len()
            &&& a.subrange(24, 24 + payload.len() as int) == payload
        }),
{
    let v = udp::ip_number(ip) as u64;
    let b = packet::with_word(packet::blank(), 0, v);
    let c = packet::with_word(b, 1, port as u64);
    let d = packet::with_word(c, 2, payload.len() as u64);
    packet::law_word_round_trip(packet::blank(), 0, 0, v);
    packet::law_word_round_trip(b, 1, 0, port as u64);
    packet::law_word_round_trip(b, 1, 1, port as u64);
    packet::law_word_round_trip(c, 2, 0, payload.len() as u64);
    packet::law_word_round_trip(c, 2, 1, payload.len() as u64);
    packet::law_word_round_trip(c, 2, 2, payload.len() as u64);
    packet::law_put_round_trip(d, 24, payload);
    let a = udp::sendto_area(ip, port, payload);
    lemma_word_kept(d, a, 0);
    lemma_word_kept(d, a, 1);
    lemma_word_kept(d, a, 2);
}

/// A datagram that came inside a message is as long as the reply says, cut to the buffer and
/// to what a message holds.
pub proof fn law_inline_datagram(reply: Packet, cap: int)
    requires
        0 <= cap,
        packet::word_of(reply.area@, 0) >= 0,
    ensures
        ({
            let b = udp::inline_bytes(reply, cap);
            let n = packet::word_of(reply.area@, 0);
            &&& b.len() <= n && b.len() <= cap && b.len() <= 480
            &&& b.len() == n || b.len() == cap || b.len() == 480
            &&& forall|i: int| 0 <= i < b.len() ==> #[trigger] b[i] == reply.area@[8 + i]
        }),
{
}

/// An entry of the frame cache is one for that socket whose frame is mapped.
pub proof fn law_frame_cache_entry(c: FrameCache, sock: crate::abi::Handle, i: int)
    ensures
        udp::has_entry(c, sock, i) <==> 0 <= i < 16 && c.sock@[i] == sock && c.ptr@[i] != 0,
{
}

/// A directory entry's name ends at its zero; a field without one names nothing.
pub proof fn law_entry_name(reply: Packet)
    ensures
        ({
            let n = fs::entry_name(reply);
            &&& n.len() < 48
            &&& forall|i: int| 0 <= i < n.len() ==> #[trigger] n[i] == reply.area@[16 + i] && n[i]
                != 0
            &&& n.len() > 0 ==> reply.area@[16 + n.len() as int] == 0
        }),
{
    let field = reply.area@.subrange(16, 64);
    bytes::lemma_nul_index(field);
    let n = fs::entry_name(reply);
    assert forall|i: int| 0 <= i < n.len() implies #[trigger] n[i] == reply.area@[16 + i] && n[i]
        != 0 by {
        assert(field[i] == reply.area@[16 + i]);
    }
    if n.len() > 0 {
        assert(field[n.len() as int] == reply.area@[16 + n.len() as int]);
    }
}

/// A path is taken from the root whether it says so or not.
pub proof fn law_path_is_relative_to_root(path: Seq<u8>)
    ensures
        path.len() > 0 && path[0] == 0x2F ==> fs::relative(path).len() == path.len() - 1 && forall|
            i: int,
        |
            0 <= i < fs::relative(path).len() ==> #[trigger] fs::relative(path)[i] == path[i + 1],
        path.len() == 0 || path[0] != 0x2F ==> fs::relative(path) == path,
{
}

/// The rings of two sockets are in two pages.
pub proof fn law_rings_are_apart(a: int, b: int)
    requires
        0 <= a,
        a < b,
    ensures
        rings::ring_addr(a) + 4096 <= rings::ring_addr(b),
        rings::ring_addr(a) >= 0x3E10_0000,
        rings::ring_addr(a) % 4096 == 0,
{
}

/// A mapping takes whole pages: as few as hold it.
pub proof fn law_whole_pages(len: int)
    requires
        0 <= len,
    ensures
        calls::whole_pages(len) % 4096 == 0,
        len <= calls::whole_pages(len) < len + 4096,
{
}

/// Memory is reserved from the cursor on, up to the end of the window and not beyond.
pub proof fn law_reservation(cursor: int, len: int)
    requires
        0 <= len,
        0 <= cursor,
    ensures
        calls::reserved(cursor, len) is Some <==> len > 0 && cursor + calls::whole_pages(len)
            <= 0x6000_0000,
        calls::reserved(cursor, len) matches Some((at, n)) ==> at == cursor && n >= len && at + n
            <= 0x6000_0000,
{
}

/// A request for memory needs room for its size and for its alignment, and at least a byte.
pub proof fn law_heap_need(size: u64, align: u64)
    ensures
        heap::need_of(size, align) >= size,
        heap::need_of(size, align) >= align,
        heap::need_of(size, align) >= 1,
        heap::need_of(size, align) == size || heap::need_of(size, align) == align
            || heap::need_of(size, align) == 1,
{
}

/// An image keeps its name, up to sixteen bytes, and its file; others stay as they are.
pub proof fn law_registered_image(a: Images, b: Images, i: int, name: Seq<u8>, data: Seq<u8>)
    requires
        a.wf(),
        0 <= i < 12,
        image::registers(a, b, i, name, data),
    ensures
        b.v@[i].in_use,
        b.v@[i].data@ == data,
        b.v@[i].label().len() == if name.len() <= 16 {
            name.len() as int
        } else {
            16
        },
        forall|k: int| 0 <= k < b.v@[i].label().len() ==> #[trigger] b.v@[i].label()[k] == name[k],
        forall|j: int| 0 <= j < 12 && j != i ==> b.v@[j] == a.v@[j],
{
}

/// A lookup finds the first image of that name, and none only where there is none.
pub proof fn law_lookup_finds_first(v: Seq<ImageEntry>, name: Seq<u8>)
    requires
        v.len() <= 12,
    ensures
        image::lookup(v, name) matches Some(i) ==> {
            &&& i < v.len()
            &&& v[i as int].in_use
            &&& v[i as int].label() == name
            &&& forall|j: int|
                0 <= j < i ==> !((#[trigger] v[j]).in_use && v[j].label() == name)
        },
        image::lookup(v, name) is None ==> forall|j: int|
            0 <= j < v.len() ==> !((#[trigger] v[j]).in_use && v[j].label() == name),
{
    lemma_named_from(v, name, 0);
}

proof fn lemma_named_from(v: Seq<ImageEntry>, name: Seq<u8>, i: int)
    requires
        0 <= i <= v.len(),
    ensures
        ({
            let r = image::named_from(v, name, i);
            &&& i <= r <= v.len()
            &&& r < v.len() ==> v[r].in_use && v[r].label() == name
            &&& forall|j: int|
                i <= j < r ==> !((#[trigger] v[j]).in_use && v[j].label() == name)
        }),
    decreases v.len() - i,
{
    if i < v.len() {
        lemma_named_from(v, name, i + 1);
    }
}

/// A new image takes the lowest place that is free.
pub proof fn law_lowest_free_image(v: Seq<ImageEntry>, i: int)
    requires
        0 <= i <= v.len(),
    ensures
        i <= image::free_image_from(v, i) <= v.len(),
        image::free_image_from(v, i) < v.len() ==> !v[image::free_image_from(v, i)].in_use,
        forall|k: int| i <= k < image::free_image_from(v, i) ==> (#[trigger] v[k]).in_use,
    decreases v.len() - i,
{
    if i < v.len() {
        law_lowest_free_image(v, i + 1);
    }
}

/// A rotation loses nothing: turned on by what is missing to a full turn, a word is itself.
pub proof fn law_rotation_turns_back(x: u32, n: u32)
    requires
        0 < n < 32,
    ensures
        rng::rotl(rng::rotl(x, n), (32 - n) as u32) == x,
{
    let y = rng::rotl(x, n);
    let m = (32 - n) as u32;
    assert(n == (32 - m) as u32);
    assert(0 < n < 32 && m == 32 - n && y == (x << n) | (x >> m) ==> (y << m) | (y >> n) == x)
        by (bit_vector);
}

/// A quarter round touches its four words and no other.
pub proof fn law_quarter_round_is_local(s: rng::Words, a: int, b: int, c: int, d: int, i: int)
    requires
        s.len() == 16,
        0 <= a < 16 && 0 <= b < 16 && 0 <= c < 16 && 0 <= d < 16,
        0 <= i < 16,
        i != a && i != b && i != c && i != d,
    ensures
        rng::quarter(s, a, b, c, d).len() == 16,
        rng::quarter(s, a, b, c, d)[i] == s[i],
{
}

/// The bytes of the stream are those of its words, the lowest first.
pub proof fn law_stream_bytes(ws: rng::Words, i: int)
    requires
        0 <= i < ws.len(),
    ensures
        rng::word_byte(ws, 4 * i) + rng::word_byte(ws, 4 * i + 1) * 0x100 + rng::word_byte(
            ws,
            4 * i + 2,
        ) * 0x1_0000 + rng::word_byte(ws, 4 * i + 3) * 0x100_0000 == ws[i],
{
    let w = ws[i] as int;
    let q1 = w / 256;
    let q2 = w / 65536;
    let q3 = w / 16777216;
    assert(w == 256 * q1 + w % 256);
    assert(q1 == 256 * q2 + q1 % 256);
    assert(q2 == 256 * q3 + q2 % 256);
    assert((4 * i) / 4 == i && (4 * i + 1) / 4 == i && (4 * i + 2) / 4 == i && (4 * i + 3) / 4
        == i);
}

/// What the hardware gives goes into every word of the seed, folded to its size, over what
/// the clocks give.
pub proof fn law_hardware_is_mixed_in(i: int, t1: u64, x: u64, t2: u64)
    ensures
        rng::seed_mix(i, t1, Some(x), t2) == rng::seed_mix(i, t1, None, t2) ^ (((x ^ (x >> 32))
            & 0xffff_ffff) as u32),
{
    let r = if i == 0 {
        t1
    } else {
        (t1 << ((7 * i) as u64)) | (t1 >> ((64 - 7 * i) as u64))
    };
    assert((((r ^ x ^ t2) ^ ((r ^ x ^ t2) >> 32)) & 0xffff_ffff) as u32 == ((((r ^ t2) ^ ((r ^ t2)
        >> 32)) & 0xffff_ffff) as u32) ^ (((x ^ (x >> 32)) & 0xffff_ffff) as u32)) by (bit_vector);
}

/// The random number that a program is loaded by is the first eight bytes of output.
pub proof fn law_random_number(s: rng::RngState)
    ensures
        bytes::le64_bytes(rng::next_value(s)) == Seq::new(8, |k: int| rng::output_byte(s, k)),
{
    let b = Seq::new(8, |k: int| rng::output_byte(s, k));
    bytes::law_bytes64_round_trip(b, 0);
    assert(b.subrange(0, 8) =~= b);
}

} // verus!
