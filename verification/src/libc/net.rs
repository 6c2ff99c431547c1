//! Network numbers and names: byte order, dotted addresses, ports, readiness.
use crate::bytes;
use crate::libc::ctype;
use crate::libc::ctype::is_digit_b;
use crate::libc::number;
use crate::libc::number::print_uint;
use crate::libc::string;
use crate::libc::string::content;
use crate::rt::packet;
use crate::rt::packet::Packet;
use crate::rt::tcp;
use vstd::prelude::*;
use vstd::slice::slice_subrange;

verus! {

/// Family of IPv4 addresses.
pub const AF_INET: i32 = 2;

/// An IPv4 address with a port, both in network order: the bytes of the address
/// stand in memory as it is written.
#[derive(Clone, Copy)]
pub struct SockAddrIn {
    pub sin_family: u16,
    pub sin_port: u16,
    pub sin_addr: u32,
    pub sin_zero: [u8; 8],
}

/// A number of 16 bits with its bytes exchanged.
pub open spec fn swapped16(x: u16) -> int {
    x as int % 0x100 * 0x100 + x as int / 0x100
}

/// A number of 32 bits with its bytes in the opposite order.
pub open spec fn swapped32(x: u32) -> int {
    x as int % 0x100 * 0x100_0000 + x as int / 0x100 % 0x100 * 0x1_0000 + x as int / 0x1_0000
        % 0x100 * 0x100 + x as int / 0x100_0000
}

/// From the machine's order to the network's.
pub fn htons(x: u16) -> (y: u16)
    ensures
        y == swapped16(x),
{
    x % 0x100 * 0x100 + x / 0x100
}

/// From the network's order to the machine's.
pub fn ntohs(x: u16) -> (y: u16)
    ensures
        y == swapped16(x),
{
    htons(x)
}

/// From the machine's order to the network's.
pub fn htonl(x: u32) -> (y: u32)
    ensures
        y == swapped32(x),
{
    x % 0x100 * 0x100_0000 + x / 0x100 % 0x100 * 0x1_0000 + x / 0x1_0000 % 0x100 * 0x100 + x
        / 0x100_0000
}

/// From the network's order to the machine's.
pub fn ntohl(x: u32) -> (y: u32)
    ensures
        y == swapped32(x),
{
    htonl(x)
}

/// The bytes of a number made of four.
proof fn lemma_four_bytes(a: int, b: int, c: int, d: int)
    requires
        0 <= a < 0x100,
        0 <= b < 0x100,
        0 <= c < 0x100,
        0 <= d < 0x100,
    ensures
        ({
            let n = a + 0x100 * b + 0x1_0000 * c + 0x100_0000 * d;
            &&& 0 <= n < 0x1_0000_0000
            &&& n % 0x100 == a
            &&& n / 0x100 % 0x100 == b
            &&& n / 0x1_0000 % 0x100 == c
            &&& n / 0x100_0000 == d
        }),
{
    let n = a + 0x100 * b + 0x1_0000 * c + 0x100_0000 * d;
    assert(n / 0x100 == b + 0x100 * c + 0x1_0000 * d);
    assert(n / 0x1_0000 == c + 0x100 * d);
}

/// Changing the order of two bytes twice changes nothing.
pub proof fn law_port_order_round_trip(x: u16)
    ensures
        swapped16(swapped16(x) as u16) == x,
{
}

/// Changing the order of four bytes twice changes nothing.
pub proof fn law_address_order_round_trip(y: u32)
    ensures
        swapped32(swapped32(y) as u32) == y,
{
    let a = y as int % 0x100;
    let b = y as int / 0x100 % 0x100;
    let c = y as int / 0x1_0000 % 0x100;
    let d = y as int / 0x100_0000;
    assert(y as int / 0x100 == 0x100 * (y as int / 0x1_0000) + b);
    assert(y as int / 0x1_0000 == 0x100 * d + c);
    assert(y == a + 0x100 * b + 0x1_0000 * c + 0x100_0000 * d);
    lemma_four_bytes(d, c, b, a);
}

/// One part of a dotted address: digits that stand for a byte.
pub open spec fn is_octet(s: Seq<u8>) -> bool {
    &&& s.len() > 0
    &&& forall|i: int| 0 <= i < s.len() ==> ctype::digit(#[trigger] s[i])
    &&& number::value_of(s, 10) <= 255
}

/// The parts of a text between dots.
pub open spec fn parts(s: Seq<u8>) -> Seq<Seq<u8>>
    decreases s.len(),
{
    let n = bytes::first_of(s, 0x2E);
    if 0 <= n < s.len() {
        seq![s.subrange(0, n)] + parts(s.subrange(n + 1, s.len() as int))
    } else {
        seq![s]
    }
}

/// The address that a text writes: four parts, each a byte.
pub open spec fn dotted(s: Seq<u8>) -> Option<Seq<u8>> {
    let p = parts(s);
    if p.len() == 4 && is_octet(p[0]) && is_octet(p[1]) && is_octet(p[2]) && is_octet(p[3]) {
        Some(
            seq![
                number::value_of(p[0], 10) as u8,
                number::value_of(p[1], 10) as u8,
                number::value_of(p[2], 10) as u8,
                number::value_of(p[3], 10) as u8,
            ],
        )
    } else {
        None
    }
}

/// The value of a part, if it is an octet.
fn octet(t: &[u8], from: usize, to: usize) -> (r: Option<u8>)
    requires
        from <= to <= t.len(),
    ensures
        ({
            let s = t@.subrange(from as int, to as int);
            match r {
                Some(v) => is_octet(s) && v == number::value_of(s, 10),
                None => !is_octet(s),
            }
        }),
{
    let ghost s = t@.subrange(from as int, to as int);
    if from == to {
        return None;
    }
    let mut v: u32 = 0;
    let mut i: usize = from;
    assert(s.subrange(0, 0) =~= Seq::empty());
    while i < to
        invariant
            from <= i <= to <= t.len(),
            s == t@.subrange(from as int, to as int),
            forall|k: int| 0 <= k < i - from ==> ctype::digit(#[trigger] s[k]),
            v == number::value_of(s.subrange(0, i - from), 10),
            v <= 255,
        decreases to - i,
    {
        let c: u8 = t[i];
        assert(c == s[i - from]);
        if !is_digit_b(c) {
            return None;
        }
        let ghost next = s.subrange(0, i - from + 1);
        assert(next.drop_last() =~= s.subrange(0, i - from));
        assert(next.last() == c);
        v = v * 10 + (c - 0x30) as u32;
        if v > 255 {
            proof {
                if is_octet(s) {
                    lemma_prefix(s, i - from + 1);
                }
            }
            return None;
        }
        i += 1;
    }
    assert(s.subrange(0, to - from) =~= s);
    Some(v as u8)
}

/// Digits stand for no less than any beginning of them.
proof fn lemma_prefix(s: Seq<u8>, n: int)
    requires
        0 <= n <= s.len(),
        forall|i: int| 0 <= i < s.len() ==> ctype::digit(#[trigger] s[i]),
    ensures
        0 <= number::value_of(s.subrange(0, n), 10) <= number::value_of(s, 10),
    decreases s.len(),
{
    if n == s.len() {
        assert(s.subrange(0, n) =~= s);
        if s.len() > 0 {
            let t = s.drop_last();
            assert(forall|i: int| 0 <= i < t.len() ==> t[i] == s[i]);
            lemma_prefix(t, t.len() as int);
            assert(t.subrange(0, t.len() as int) =~= t);
        }
    } else {
        let t = s.drop_last();
        assert(forall|i: int| 0 <= i < t.len() ==> t[i] == s[i]);
        lemma_prefix(t, n);
        assert(t.subrange(0, n) =~= s.subrange(0, n));
    }
}

/// Where the next dot is, from `at` on.
fn next_dot(t: &[u8], at: usize) -> (n: usize)
    requires
        at <= t.len(),
    ensures
        n == at + bytes::first_of(t@.subrange(at as int, t@.len() as int), 0x2E),
        at <= n <= t.len(),
{
    let ghost rest = t@.subrange(at as int, t@.len() as int);
    let mut n: usize = at;
    while n < t.len() && t[n] != 0x2E
        invariant
            at <= n <= t.len(),
            rest == t@.subrange(at as int, t@.len() as int),
            forall|i: int| 0 <= i < n - at ==> rest[i] != 0x2E,
        decreases t.len() - n,
    {
        assert(rest[n - at] == t@[n as int]);
        n += 1;
    }
    proof {
        if n < t.len() {
            assert(rest[n - at] == t@[n as int]);
        }
        bytes::lemma_first_of_unique(rest, 0x2E, n - at);
    }
    n
}

/// Read a dotted address.
pub fn inet_pton(s: &[u8]) -> (r: Option<[u8; 4]>)
    ensures
        match r {
            Some(a) => dotted(string::text(s@)) == Some(a@),
            None => dotted(string::text(s@)) is None,
        },
{
    let t = content(s);
    let mut a: [u8; 4] = [0u8; 4];
    let mut at: usize = 0;
    let mut k: usize = 0;
    let ghost whole = parts(t@);
    assert(t@.subrange(0, t@.len() as int) =~= t@);
    loop
        invariant
            k < 4,
            at <= t.len(),
            t@ == string::text(s@),
            whole == parts(t@),
            whole.len() == k + parts(t@.subrange(at as int, t@.len() as int)).len(),
            forall|j: int|
                0 <= j < whole.len() - k ==> whole[k + j] == #[trigger] parts(
                    t@.subrange(at as int, t@.len() as int),
                )[j],
            forall|j: int|
                0 <= j < k ==> is_octet(#[trigger] whole[j]) && a@[j] == number::value_of(
                    whole[j],
                    10,
                ),
        decreases t.len() - at,
    {
        let ghost rest = t@.subrange(at as int, t@.len() as int);
        let end: usize = next_dot(t, at);
        let ghost n = end - at;
        proof {
            bytes::lemma_first_of(rest, 0x2E);
            assert(t@.subrange(at as int, end as int) =~= rest.subrange(0, n));
            if n == rest.len() {
                assert(rest.subrange(0, n) =~= rest);
            }
            assert(parts(rest)[0] == rest.subrange(0, n));
            assert(whole[k + 0] == parts(rest)[0]);
        }
        match octet(t, at, end) {
            None => {
                return None;
            },
            Some(v) => {
                a[k] = v;
            },
        }
        k += 1;
        if end == t.len() {
            proof {
                assert(parts(rest).len() == 1);
                assert(whole.len() == k);
            }
            if k != 4 {
                return None;
            }
            proof {
                assert(is_octet(whole[0]) && is_octet(whole[1]) && is_octet(whole[2]) && is_octet(
                    whole[3],
                ));
                assert(a@ =~= dotted(t@)->0);
            }
            return Some(a);
        }
        proof {
            let tail = rest.subrange(n + 1, rest.len() as int);
            assert(tail =~= t@.subrange(end + 1, t@.len() as int));
            assert(parts(rest) =~= seq![rest.subrange(0, n)] + parts(tail));
            assert(parts(tail).len() >= 1);
            assert forall|j: int| 0 <= j < whole.len() - k implies whole[k + j] == #[trigger] parts(
                tail,
            )[j] by {
                assert(whole[(k - 1) + (j + 1)] == parts(rest)[j + 1]);
            }
        }
        at = end + 1;
        if k == 4 {
            return None;
        }
    }
}

/// Read a dotted address as a number in network order; all ones when it is none.
pub fn inet_addr(s: &[u8]) -> (v: u32)
    ensures
        v == (match dotted(string::text(s@)) {
            Some(a) => bytes::le32(a, 0),
            None => 0xFFFF_FFFF,
        }),
{
    match inet_pton(s) {
        Some(a) => bytes::read_le32(a.as_slice(), 0),
        None => 0xFFFF_FFFF,
    }
}

/// An address as a dotted text.
pub open spec fn dotted_text(a: Seq<u8>) -> Seq<u8> {
    number::digits(a[0] as int, 10).push(0x2E) + number::digits(a[1] as int, 10).push(0x2E)
        + number::digits(a[2] as int, 10).push(0x2E) + number::digits(a[3] as int, 10)
}

/// Append the decimal digits of a byte.
fn push_octet(v: &mut Vec<u8>, o: u8)
    ensures
        final(v)@ == old(v)@ + number::digits(o as int, 10),
{
    let mut d = print_uint(o as u64, 10);
    v.append(&mut d);
}

/// Write an address into a buffer, cut to its size. The text needs its closing
/// zero only where that fits.
pub fn inet_ntop(a: [u8; 4], dst: &mut [u8])
    ensures
        ({
            let t = dotted_text(a@).push(0);
            final(dst)@ == packet::written(
                old(dst)@,
                0,
                packet::first(t, old(dst)@.len() as int),
            )
        }),
{
    let mut t: Vec<u8> = Vec::new();
    push_octet(&mut t, a[0]);
    t.push(0x2E);
    push_octet(&mut t, a[1]);
    t.push(0x2E);
    push_octet(&mut t, a[2]);
    t.push(0x2E);
    push_octet(&mut t, a[3]);
    assert(t@ =~= dotted_text(a@));
    t.push(0);
    let ghost full = dotted_text(a@).push(0);
    let len: usize = dst.len();
    let n: usize = if t.len() < len {
        t.len()
    } else {
        len
    };
    string::memcpy(dst, t.as_slice(), n);
    assert(t@.subrange(0, n as int) =~= packet::first(full, len as int));
}

/// The digits of a byte are an octet, hold no dot, and stand for it.
proof fn lemma_octet_digits(v: u8)
    ensures
        is_octet(number::digits(v as int, 10)),
        number::value_of(number::digits(v as int, 10), 10) == v,
        forall|i: int|
            0 <= i < number::digits(v as int, 10).len() ==> #[trigger] number::digits(
                v as int,
                10,
            )[i] != 0x2E,
{
    number::law_digits_stand_for_number(v as int, 10);
    let d = number::digits(v as int, 10);
    lemma_decimal_chars(v as int);
    assert forall|i: int| 0 <= i < d.len() implies #[trigger] d[i] != 0x2E by {
        assert(ctype::digit(d[i]));
    }
}

/// Decimal digits are written with decimal digits.
proof fn lemma_decimal_chars(v: int)
    requires
        v >= 0,
    ensures
        forall|i: int|
            0 <= i < number::digits(v, 10).len() ==> ctype::digit(
                #[trigger] number::digits(v, 10)[i],
            ),
    decreases v,
{
    if v >= 10 {
        lemma_decimal_chars(v / 10);
        let head = number::digits(v / 10, 10);
        let d = number::digits(v, 10);
        assert(d == head.push(number::digit_char(v % 10)));
        assert forall|i: int| 0 <= i < d.len() implies ctype::digit(#[trigger] d[i]) by {
            if i < head.len() {
                assert(d[i] == head[i]);
            }
        }
    }
}

/// The parts of a text that starts with a part and a dot.
proof fn lemma_parts_step(head: Seq<u8>, tail: Seq<u8>)
    requires
        forall|i: int| 0 <= i < head.len() ==> #[trigger] head[i] != 0x2E,
    ensures
        parts(head.push(0x2E) + tail) == seq![head] + parts(tail),
{
    let s = head.push(0x2E) + tail;
    let n = head.len() as int;
    assert forall|i: int| 0 <= i < n implies s[i] != 0x2E by {
        assert(s[i] == head[i]);
    }
    bytes::lemma_first_of_unique(s, 0x2E, n);
    assert(s.subrange(0, n) =~= head);
    assert(s.subrange(n + 1, s.len() as int) =~= tail);
}

/// A text without a dot is its only part.
proof fn lemma_parts_last(s: Seq<u8>)
    requires
        forall|i: int| 0 <= i < s.len() ==> #[trigger] s[i] != 0x2E,
    ensures
        parts(s) == seq![s],
{
    bytes::lemma_first_of_unique(s, 0x2E, s.len() as int);
}

/// An address that is written reads back.
pub proof fn law_address_reads_back(a: Seq<u8>)
    requires
        a.len() == 4,
    ensures
        dotted(dotted_text(a)) == Some(a),
{
    let d0 = number::digits(a[0] as int, 10);
    let d1 = number::digits(a[1] as int, 10);
    let d2 = number::digits(a[2] as int, 10);
    let d3 = number::digits(a[3] as int, 10);
    lemma_octet_digits(a[0]);
    lemma_octet_digits(a[1]);
    lemma_octet_digits(a[2]);
    lemma_octet_digits(a[3]);
    let t2 = d2.push(0x2E) + d3;
    let t1 = d1.push(0x2E) + t2;
    let t0 = d0.push(0x2E) + t1;
    assert(dotted_text(a) =~= t0);
    lemma_parts_last(d3);
    lemma_parts_step(d2, d3);
    lemma_parts_step(d1, t2);
    lemma_parts_step(d0, t1);
    let p = parts(t0);
    assert(p =~= seq![d0, d1, d2, d3]);
    assert(dotted(t0)->0 =~= a);
}

/// The port that a text writes: its digits, the other bytes passed over, modulo
/// 2 to the 16.
pub open spec fn port_of(s: Seq<u8>) -> int
    decreases s.len(),
{
    if s.len() == 0 {
        0
    } else {
        let p = port_of(s.drop_last());
        if ctype::digit(s.last()) {
            (p * 10 + (s.last() - 0x30)) % 0x1_0000
        } else {
            p
        }
    }
}

/// Read a service's port.
pub fn service_port(s: &[u8]) -> (p: u16)
    ensures
        p == port_of(string::text(s@)),
{
    let t = content(s);
    let mut p: u16 = 0;
    let mut i: usize = 0;
    assert(t@.subrange(0, 0) =~= Seq::empty());
    while i < t.len()
        invariant
            i <= t.len(),
            p == port_of(t@.subrange(0, i as int)),
        decreases t.len() - i,
    {
        let ghost next = t@.subrange(0, i + 1);
        assert(next.drop_last() =~= t@.subrange(0, i as int));
        if is_digit_b(t[i]) {
            p = ((p as u32 * 10 + (t[i] - 0x30) as u32) % 0x1_0000) as u16;
        }
        i += 1;
    }
    assert(t@.subrange(0, t@.len() as int) =~= t@);
    p
}

/// The only kind of socket that an address is given for.
pub const SOCK_STREAM: i32 = 1;

/// An address that a name and a service resolve to.
#[derive(Clone, Copy)]
pub struct AddrInfo {
    pub ai_flags: i32,
    pub ai_family: i32,
    pub ai_socktype: i32,
    pub ai_protocol: i32,
    pub ai_addrlen: u32,
    pub ai_addr: SockAddrIn,
}

/// The name of a socket here: its family alone is known.
pub fn getsockname() -> (a: SockAddrIn)
    ensures
        a.sin_family == AF_INET,
        a.sin_port == 0,
        a.sin_addr == 0,
        a.sin_zero@ == Seq::new(8, |i: int| 0u8),
{
    let a = SockAddrIn { sin_family: 2, sin_port: 0, sin_addr: 0, sin_zero: [0; 8] };
    assert(a.sin_zero@ =~= Seq::new(8, |i: int| 0u8));
    a
}

/// The name of a peer is as little known.
pub fn getpeername() -> (a: SockAddrIn)
    ensures
        a.sin_family == AF_INET,
        a.sin_port == 0,
        a.sin_addr == 0,
        a.sin_zero@ == Seq::new(8, |i: int| 0u8),
{
    getsockname()
}

/// What a question for a socket's option stores where there is room for it, `room` bytes
/// or any number of them: that there is no error.
pub fn getsockopt(asked: bool, room: Option<u32>) -> (v: Option<i32>)
    ensures
        v == (if asked && (room matches Some(n) ==> n >= 4) {
            Some(0i32)
        } else {
            None
        }),
{
    let fits = match room {
        Some(n) => n >= 4,
        None => true,
    };
    if asked && fits {
        Some(0)
    } else {
        None
    }
}

/// Bytes of one message of a stream socket.
pub const SOCK_CHUNK: usize = 48;

/// The next message of `data` to a stream socket, of which `done` bytes are sent, and
/// how many bytes it sends; nothing when all are sent.
pub fn sock_send(data: &[u8], done: usize) -> (r: Option<(Packet, usize)>)
    requires
        done <= data.len(),
    ensures
        match r {
            Some((m, n)) => {
                &&& done < data.len()
                &&& n == (if data.len() - done < SOCK_CHUNK {
                    data.len() - done
                } else {
                    SOCK_CHUNK as int
                })
                &&& tcp::sends(m, data@.subrange(done as int, done + n))
            },
            None => done == data.len(),
        },
{
    if done == data.len() {
        return None;
    }
    let left: usize = data.len() - done;
    let n: usize = if left < SOCK_CHUNK {
        left
    } else {
        SOCK_CHUNK
    };
    let part = slice_subrange(data, done, done + n);
    Some((tcp::send(part), n))
}

/// Resolve a name and a service: a dotted address as it is, any other name to
/// what the name server found. The error is that of an unknown name.
pub fn getaddrinfo(node: &[u8], service: Option<&[u8]>, found: Option<[u8; 4]>) -> (r: Result<
    AddrInfo,
    i32,
>)
    ensures
        ({
            let ip = match dotted(string::text(node@)) {
                Some(a) => Some(a),
                None => match found {
                    Some(a) => Some(a@),
                    None => None,
                },
            };
            match r {
                Ok(ai) => {
                    &&& ip is Some
                    &&& ai.ai_flags == 0
                    &&& ai.ai_family == AF_INET
                    &&& ai.ai_socktype == SOCK_STREAM
                    &&& ai.ai_protocol == 0
                    &&& ai.ai_addrlen == 16
                    &&& ai.ai_addr.sin_family == AF_INET
                    &&& ai.ai_addr.sin_port == swapped16(
                        (match service {
                            Some(s) => port_of(string::text(s@)),
                            None => 0,
                        }) as u16,
                    )
                    &&& ai.ai_addr.sin_addr == bytes::le32(ip->0, 0)
                    &&& forall|i: int| 0 <= i < 8 ==> ai.ai_addr.sin_zero@[i] == 0
                },
                Err(e) => ip is None && e == -2,
            }
        }),
{
    let ip: [u8; 4] = match inet_pton(node) {
        Some(a) => a,
        None => match found {
            Some(a) => a,
            None => {
                return Err(-2);
            },
        },
    };
    let port: u16 = match service {
        Some(s) => service_port(s),
        None => 0,
    };
    Ok(
        AddrInfo {
            ai_flags: 0,
            ai_family: AF_INET,
            ai_socktype: SOCK_STREAM,
            ai_protocol: 0,
            ai_addrlen: 16,
            ai_addr: SockAddrIn {
                sin_family: 2,
                sin_port: htons(port),
                sin_addr: bytes::read_le32(ip.as_slice(), 0),
                sin_zero: [0u8; 8],
            },
        },
    )
}

/// The address and port that a socket is connected to, in the machine's order.
pub fn connect_target(addr: SockAddrIn) -> (r: ([u8; 4], u16))
    ensures
        bytes::le32(r.0@, 0) == addr.sin_addr,
        r.1 == swapped16(addr.sin_port),
{
    let v: u32 = addr.sin_addr;
    let ip: [u8; 4] = [
        (v % 0x100) as u8,
        (v / 0x100 % 0x100) as u8,
        (v / 0x1_0000 % 0x100) as u8,
        (v / 0x100_0000) as u8,
    ];
    proof {
        let q1 = v as int / 0x100;
        let q2 = v as int / 0x1_0000;
        assert(q1 == 0x100 * q2 + q1 % 0x100);
        assert(q2 == 0x100 * (v as int / 0x100_0000) + q2 % 0x100);
    }
    (ip, ntohs(addr.sin_port))
}

/// One descriptor of a poll.
#[derive(Clone, Copy, PartialEq, Eq, Structural, Debug)]
pub struct PollFd {
    pub fd: i32,
    pub events: u16,
    pub revents: u16,
}

/// Readable and writable, the only conditions reported.
pub const READY: u16 = 5;

/// What a poll reports of a descriptor: what was asked of readiness, nothing of
/// a descriptor that is none.
pub open spec fn polled(p: PollFd) -> PollFd {
    PollFd {
        revents: if p.fd < 0 {
            0
        } else {
            p.events & READY
        },
        ..p
    }
}

/// How many descriptors report something.
pub open spec fn ready_count(v: Seq<PollFd>) -> int
    decreases v.len(),
{
    if v.len() == 0 {
        0
    } else {
        ready_count(v.drop_last()) + (if v.last().revents != 0 {
            1int
        } else {
            0
        })
    }
}

/// Report what is ready.
pub fn poll(fds: &mut Vec<PollFd>) -> (n: i32)
    requires
        old(fds).len() <= i32::MAX,
    ensures
        final(fds)@ == Seq::new(old(fds)@.len(), |i: int| polled(old(fds)@[i])),
        n == ready_count(final(fds)@),
{
    let ghost before = fds@;
    let len: usize = fds.len();
    let mut n: i32 = 0;
    let mut i: usize = 0;
    assert(fds@.subrange(0, 0) =~= Seq::empty());
    while i < len
        invariant
            i <= len,
            len == before.len(),
            len <= i32::MAX,
            fds@ =~= Seq::new(
                before.len(),
                |k: int|
                    if k < i {
                        polled(before[k])
                    } else {
                        before[k]
                    },
            ),
            0 <= n <= i,
            n == ready_count(fds@.subrange(0, i as int)),
        decreases len - i,
    {
        let ghost mid = fds@;
        let p: PollFd = fds[i];
        let revents: u16 = if p.fd < 0 {
            0
        } else {
            p.events & READY
        };
        fds.set(i, PollFd { fd: p.fd, events: p.events, revents });
        if revents != 0 {
            n += 1;
        }
        proof {
            let next = fds@.subrange(0, i + 1);
            assert(next.drop_last() =~= mid.subrange(0, i as int));
        }
        i += 1;
    }
    assert(fds@.subrange(0, len as int) =~= fds@);
    n
}

/// Everything selected is ready.
pub fn select(nfds: i32) -> (n: i32)
    ensures
        n == (if nfds > 0 {
            nfds
        } else {
            0
        }),
{
    if nfds > 0 {
        nfds
    } else {
        0
    }
}

/// The least random number that is taken: what is left of 2 to the 32 by `bound`.
pub open spec fn least(bound: u32) -> int {
    0x1_0000_0000int % (bound as int)
}

/// A number that is not negative from a random one.
pub fn rand(r: u32) -> (v: i32)
    ensures
        v == r as int % 0x8000_0000,
{
    (r % 0x8000_0000) as i32
}

/// Bytes of one request for random ones.
pub const ENTROPY_MAX: usize = 256;

/// Whether one call may ask for `len` random bytes.
pub fn getentropy(len: usize) -> (ok: bool)
    ensures
        ok == (len <= ENTROPY_MAX),
{
    len <= ENTROPY_MAX
}

/// The size of the next request for random bytes, of `len` of which `off` are there.
pub fn arc4random_buf(off: usize, len: usize) -> (n: usize)
    requires
        off <= len,
    ensures
        n == (if len - off < ENTROPY_MAX {
            len - off
        } else {
            ENTROPY_MAX as int
        }),
{
    if len - off < ENTROPY_MAX {
        len - off
    } else {
        ENTROPY_MAX
    }
}

/// A number below `bound` from a random one, or nothing when another has to be
/// drawn.
pub fn arc4random_uniform(bound: u32, r: u32) -> (v: Option<u32>)
    ensures
        v == (if bound < 2 {
            Some(0u32)
        } else if r >= least(bound) {
            Some((r as int % bound as int) as u32)
        } else {
            None
        }),
{
    if bound < 2 {
        return Some(0);
    }
    let min: u64 = 0x1_0000_0000u64 % bound as u64;
    if r as u64 >= min {
        Some(r % bound)
    } else {
        None
    }
}

/// The `k`-th draw after the first one, `r`, that gives the same result.
pub open spec fn later_draw(r: int, k: int, bound: u32) -> int {
    r + k * (bound as int)
}

/// The first draw that is taken and gives `v`.
pub open spec fn first_draw(bound: u32, v: int) -> int {
    least(bound) + (v - least(bound) % (bound as int) + bound) % (bound as int)
}

/// How many draws give each result.
pub open spec fn draws_each(bound: u32) -> int {
    (0x1_0000_0000 - least(bound)) / (bound as int)
}

/// No result is likelier than another: the numbers taken are a whole number of rounds, and
/// each result comes from one number of each round, and from no other.
pub proof fn law_uniform(bound: u32, v: int)
    requires
        2 <= bound,
        0 <= v < bound,
    ensures
        (0x1_0000_0000 - least(bound)) % (bound as int) == 0,
        least(bound) < bound,
        least(bound) <= first_draw(bound, v) < least(bound) + bound,
        first_draw(bound, v) % (bound as int) == v,
        forall|k: int|
            0 <= k < draws_each(bound) ==> {
                let r = #[trigger] later_draw(first_draw(bound, v), k, bound);
                least(bound) <= r < 0x1_0000_0000 && r % (bound as int) == v
            },
        forall|r: int|
            least(bound) <= r < 0x1_0000_0000 && #[trigger] (r % (bound as int)) == v ==> exists|
                k: int,
            |
                0 <= k < draws_each(bound) && r == #[trigger] later_draw(
                    first_draw(bound, v),
                    k,
                    bound,
                ),
{
    let b = bound as int;
    let m = least(bound);
    vstd::arithmetic::div_mod::lemma_fundamental_div_mod(0x1_0000_0000, b);
    let q = 0x1_0000_0000int / b;
    assert(0x1_0000_0000 - m == b * q);
    assert(b * q == q * b) by (nonlinear_arith);
    vstd::arithmetic::div_mod::lemma_mod_multiples_basic(q, b);
    vstd::arithmetic::div_mod::lemma_div_multiples_vanish(q, b);
    assert(draws_each(bound) == q);
    assert(0 <= m < b) by (nonlinear_arith)
        requires
            m == 0x1_0000_0000int % b,
            b >= 2,
    ;
    vstd::arithmetic::div_mod::lemma_small_mod(m as nat, b as nat);
    vstd::arithmetic::div_mod::lemma_small_mod(v as nat, b as nat);
    let x = v - m + b;
    let f = first_draw(bound, v);
    if x < b {
        vstd::arithmetic::div_mod::lemma_small_mod(x as nat, b as nat);
        assert(f == v + b);
        vstd::arithmetic::div_mod::lemma_mod_add_multiples_vanish(v, b);
    } else {
        vstd::arithmetic::div_mod::lemma_mod_add_multiples_vanish(v - m, b);
        vstd::arithmetic::div_mod::lemma_small_mod((v - m) as nat, b as nat);
        assert(f == v);
    }
    assert forall|k: int| 0 <= k < draws_each(bound) implies {
        let r = #[trigger] later_draw(f, k, bound);
        m <= r < 0x1_0000_0000 && r % b == v
    } by {
        let r = later_draw(f, k, bound);
        assert(0 <= k * b <= q * b - b) by (nonlinear_arith)
            requires
                0 <= k <= q - 1,
                b >= 2,
        ;
        assert(k * b == b * k) by (nonlinear_arith);
        vstd::arithmetic::div_mod::lemma_mod_multiples_vanish(k, f, b);
    }
    assert forall|r: int| m <= r < 0x1_0000_0000 && #[trigger] (r % b) == v implies exists|k: int|
        0 <= k < draws_each(bound) && r == #[trigger] later_draw(f, k, bound) by {
        vstd::arithmetic::div_mod::lemma_fundamental_div_mod(r, b);
        vstd::arithmetic::div_mod::lemma_fundamental_div_mod(f, b);
        let k = r / b - f / b;
        assert(r - f == k * b) by (nonlinear_arith)
            requires
                r == b * (r / b) + v,
                f == b * (f / b) + v,
                k == r / b - f / b,
        ;
        assert(0 <= k < q) by (nonlinear_arith)
            requires
                r - f == k * b,
                m <= r,
                r < m + q * b,
                m <= f,
                f < m + b,
                b >= 2,
        ;
        assert(r == later_draw(f, k, bound));
    }
}

} // verus!
