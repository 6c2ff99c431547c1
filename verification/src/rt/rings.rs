//! Batches of datagrams: a page shared with the net server that holds a ring of
//! slots to send and a ring of slots received.
use crate::abi::{Handle, SysResult};
use crate::bytes;
use crate::bytes::{read_le16, read_le32};
use crate::rt::fs;
use crate::rt::fs::succeeded;
use crate::rt::packet;
use crate::rt::packet::Packet;
use crate::rt::udp;
use crate::rt::udp::{ip_to_u32, u32_to_ip};
use vstd::prelude::*;
use vstd::slice::slice_subrange;

verus! {

/// Size of the shared page.
pub const PAGE: usize = 4096;

/// Where the rings are mapped.
pub const RING_XFER: u64 = 0x3E10_0000;

/// How a page is laid out: a header, the slots to send, the slots received.
#[derive(Clone, Copy, PartialEq, Eq, Structural, Debug)]
pub struct Shape {
    /// Slots in each ring.
    pub slots: u32,
    /// Bytes of a slot.
    pub stride: usize,
    /// Bytes before the first slot.
    pub header: usize,
    /// Longest payload of a slot.
    pub payload_max: usize,
}

impl Shape {
    /// The rings fit into the page, and a record into a slot.
    pub open spec fn wf(self) -> bool {
        &&& 0 < self.slots <= PAGE
        &&& 16 <= self.header
        &&& self.payload_max <= 0xFFFF
        &&& 8 + self.payload_max <= self.stride
        &&& self.header + 2 * self.slots * self.stride <= PAGE
    }

    /// Where slot `i` starts, the received ones behind those to send.
    pub open spec fn slot(self, i: int) -> int {
        self.header + i * self.stride
    }
}

/// The four little-endian bytes of a number.
pub open spec fn le32_bytes(v: u32) -> Seq<u8> {
    seq![
        (v as int % 0x100) as u8,
        (v as int / 0x100 % 0x100) as u8,
        (v as int / 0x1_0000 % 0x100) as u8,
        (v as int / 0x100_0000) as u8,
    ]
}

/// The two little-endian bytes of a number.
pub open spec fn le16_bytes(v: u16) -> Seq<u8> {
    seq![(v as int % 0x100) as u8, (v as int / 0x100) as u8]
}

/// A datagram in a slot: address, port, length, payload.
pub open spec fn record(ip: Seq<u8>, port: u16, payload: Seq<u8>) -> Seq<u8> {
    le32_bytes(udp::ip_number(ip) as u32) + le16_bytes(port) + le16_bytes(payload.len() as u16)
        + payload
}

/// A ring page mapped by a program.
pub struct Ring {
    pub shape: Shape,
    pub page: Vec<u8>,
}

/// The smaller of two numbers.
pub open spec fn smaller(a: int, b: int) -> int {
    if a < b {
        a
    } else {
        b
    }
}

impl Ring {
    /// The first slot to send that the server has not taken.
    pub open spec fn tx_head(&self) -> int {
        bytes::le32(self.page@, 0)
    }

    /// The next slot to fill.
    pub open spec fn tx_tail(&self) -> int {
        bytes::le32(self.page@, 4)
    }

    /// The first received slot that is not taken.
    pub open spec fn rx_head(&self) -> int {
        bytes::le32(self.page@, 8)
    }

    /// The next slot that the server fills.
    pub open spec fn rx_tail(&self) -> int {
        bytes::le32(self.page@, 12)
    }

    /// The program's own positions are slots. The server's are its own.
    pub open spec fn wf(&self) -> bool {
        &&& self.shape.wf()
        &&& self.page@.len() == PAGE
        &&& self.tx_tail() < self.shape.slots
        &&& self.rx_head() < self.shape.slots
    }

    /// A slot lies inside the page.
    proof fn lemma_slot(shape: Shape, i: int)
        requires
            shape.wf(),
            0 <= i < 2 * shape.slots,
        ensures
            16 <= shape.slot(i),
            shape.slot(i) + shape.stride <= PAGE,
    {
        assert(i * shape.stride + shape.stride <= 2 * shape.slots * shape.stride)
            by (nonlinear_arith)
            requires
                0 <= i < 2 * shape.slots,
                0 <= shape.stride,
        ;
        assert(0 <= i * shape.stride) by (nonlinear_arith)
            requires
                0 <= i,
                0 <= shape.stride,
        ;
    }

    /// Write the first `n` bytes of `b` over the page from `off` on.
    fn put(&mut self, off: usize, b: &[u8], n: usize)
        requires
            n <= b.len(),
            old(self).page@.len() == PAGE,
            off + n <= PAGE,
        ensures
            final(self).shape == old(self).shape,
            final(self).page@ == packet::written(
                old(self).page@,
                off as int,
                b@.subrange(0, n as int),
            ),
    {
        let ghost before = self.page@;
        let mut i: usize = 0;
        while i < n
            invariant
                i <= n <= b.len(),
                off + n <= PAGE,
                self.shape == old(self).shape,
                before.len() == PAGE,
                self.page@ =~= packet::written(before, off as int, b@.subrange(0, i as int)),
            decreases n - i,
        {
            self.page.set(off + i, b[i]);
            i += 1;
        }
    }

    /// Write a number of 32 bits.
    fn put32(&mut self, off: usize, v: u32)
        requires
            old(self).page@.len() == PAGE,
            off + 4 <= PAGE,
        ensures
            final(self).shape == old(self).shape,
            final(self).page@ == packet::written(old(self).page@, off as int, le32_bytes(v)),
    {
        let b: [u8; 4] = [
            (v % 0x100) as u8,
            (v / 0x100 % 0x100) as u8,
            (v / 0x1_0000 % 0x100) as u8,
            (v / 0x100_0000) as u8,
        ];
        self.put(off, b.as_slice(), 4);
        assert(b@.subrange(0, 4) =~= le32_bytes(v));
    }

    /// Queue one datagram, its payload cut to what a slot holds. `false` when
    /// the ring is full.
    pub fn push(&mut self, ip: [u8; 4], port: u16, payload: &[u8]) -> (r: bool)
        requires
            old(self).wf(),
        ensures
            final(self).wf(),
            final(self).shape == old(self).shape,
            ({
                let next = (old(self).tx_tail() + 1) % (old(self).shape.slots as int);
                let cut = payload@.subrange(
                    0,
                    smaller(payload@.len() as int, old(self).shape.payload_max as int),
                );
                &&& r == (next != old(self).tx_head())
                &&& !r ==> final(self).page@ == old(self).page@
                &&& r ==> final(self).page@ == packet::written(
                    packet::written(
                        old(self).page@,
                        old(self).shape.slot(old(self).tx_tail()),
                        record(ip@, port, cut),
                    ),
                    4,
                    le32_bytes(next as u32),
                )
            }),
    {
        let tail: u32 = read_le32(self.page.as_slice(), 4);
        let head: u32 = read_le32(self.page.as_slice(), 0);
        let next: u32 = (tail + 1) % self.shape.slots;
        if next == head {
            return false;
        }
        let ghost before = *self;
        let n: usize = if payload.len() < self.shape.payload_max {
            payload.len()
        } else {
            self.shape.payload_max
        };
        let ghost cut = payload@.subrange(0, n as int);
        proof {
            Self::lemma_slot(self.shape, tail as int);
            assert(tail * self.shape.stride <= PAGE) by (nonlinear_arith)
                requires
                    self.shape.header + tail * self.shape.stride + self.shape.stride <= PAGE,
                    0 <= self.shape.stride,
                    0 <= self.shape.header,
            ;
        }
        let at: usize = self.shape.header + tail as usize * self.shape.stride;
        self.put32(at, ip_to_u32(ip));
        let small: [u8; 4] = [
            (port % 0x100) as u8,
            (port / 0x100) as u8,
            (n as u16 % 0x100) as u8,
            (n as u16 / 0x100) as u8,
        ];
        self.put(at + 4, small.as_slice(), 4);
        self.put(at + 8, payload, n);
        proof {
            assert(small@.subrange(0, 4) =~= le16_bytes(port) + le16_bytes(n as u16));
            assert(self.page@ =~= packet::written(
                before.page@,
                at as int,
                record(ip@, port, cut),
            ));
        }
        let ghost mid = self.page@;
        self.put32(4, next);
        proof {
            lemma_le32(next);
            assert(bytes::le32(self.page@, 4) == next) by {
                assert(self.page@[4] == le32_bytes(next)[0]);
                assert(self.page@[5] == le32_bytes(next)[1]);
                assert(self.page@[6] == le32_bytes(next)[2]);
                assert(self.page@[7] == le32_bytes(next)[3]);
            }
            assert(bytes::le32(self.page@, 8) == bytes::le32(before.page@, 8));
        }
        true
    }

    /// The datagram in received slot `i`.
    pub open spec fn received(&self, i: int) -> (Seq<u8>, u16, Seq<u8>) {
        let at = self.shape.slot(self.shape.slots + i);
        let n = smaller(bytes::le16(self.page@, at + 6), self.shape.payload_max as int);
        (
            udp::ip_of(bytes::le32(self.page@, at) as u32),
            bytes::le16(self.page@, at + 4) as u16,
            self.page@.subrange(at + 8, at + 8 + n),
        )
    }

    /// Take one received datagram into a buffer of `cap` bytes: its source and
    /// its payload. Nothing when there is none.
    pub fn pop(&mut self, cap: usize) -> (r: Option<([u8; 4], u16, Vec<u8>)>)
        requires
            old(self).wf(),
        ensures
            final(self).wf(),
            final(self).shape == old(self).shape,
            match r {
                None => {
                    &&& old(self).rx_head() == old(self).rx_tail()
                    &&& final(self).page@ == old(self).page@
                },
                Some((ip, port, data)) => {
                    let d = old(self).received(old(self).rx_head());
                    &&& old(self).rx_head() != old(self).rx_tail()
                    &&& ip@ == d.0
                    &&& port == d.1
                    &&& data@ == d.2.subrange(0, smaller(d.2.len() as int, cap as int))
                    &&& final(self).page@ == packet::written(
                        old(self).page@,
                        8,
                        le32_bytes(
                            ((old(self).rx_head() + 1) % (old(self).shape.slots as int)) as u32,
                        ),
                    )
                },
            },
    {
        let head: u32 = read_le32(self.page.as_slice(), 8);
        let tail: u32 = read_le32(self.page.as_slice(), 12);
        if head == tail {
            return None;
        }
        proof {
            Self::lemma_slot(self.shape, self.shape.slots + head);
            assert((self.shape.slots + head) * self.shape.stride <= PAGE) by (nonlinear_arith)
                requires
                    self.shape.header + (self.shape.slots + head) * self.shape.stride
                        + self.shape.stride <= PAGE,
                    0 <= self.shape.stride,
                    0 <= self.shape.header,
            ;
        }
        let i: u32 = self.shape.slots + head;
        let at: usize = self.shape.header + i as usize * self.shape.stride;
        let ip = u32_to_ip(read_le32(self.page.as_slice(), at));
        let port: u16 = read_le16(self.page.as_slice(), at + 4);
        let mut n: usize = read_le16(self.page.as_slice(), at + 6) as usize;
        if n > self.shape.payload_max {
            n = self.shape.payload_max;
        }
        if n > cap {
            n = cap;
        }
        let part = slice_subrange(self.page.as_slice(), at + 8, at + 8 + n);
        let mut data: Vec<u8> = Vec::new();
        let mut k: usize = 0;
        while k < n
            invariant
                k <= n,
                part@.len() == n,
                data@ =~= part@.subrange(0, k as int),
            decreases n - k,
        {
            data.push(part[k]);
            k += 1;
        }
        proof {
            let d = self.received(head as int);
            assert(data@ =~= d.2.subrange(0, smaller(d.2.len() as int, cap as int)));
        }
        let ghost before = *self;
        let next: u32 = (head + 1) % self.shape.slots;
        self.put32(8, next);
        proof {
            lemma_le32(next);
            assert(bytes::le32(self.page@, 8) == next) by {
                assert(self.page@[8] == le32_bytes(next)[0]);
                assert(self.page@[9] == le32_bytes(next)[1]);
                assert(self.page@[10] == le32_bytes(next)[2]);
                assert(self.page@[11] == le32_bytes(next)[3]);
            }
            assert(bytes::le32(self.page@, 4) == bytes::le32(before.page@, 4));
        }
        Some((ip, port, data))
    }
}

/// Which ring pages are mapped, by socket number: up to two of each slot.
pub struct RingMap {
    pub mapped: Vec<bool>,
}

/// Where the ring page of a socket is mapped.
pub open spec fn ring_addr(sid: int) -> int {
    RING_XFER + sid * PAGE
}

impl RingMap {
    /// Every socket number that a page can have for has a place.
    pub open spec fn wf(&self, shape: Shape) -> bool {
        self.mapped@.len() == 2 * shape.slots + 1
    }

    /// Nothing mapped.
    pub fn new(shape: Shape) -> (m: RingMap)
        requires
            shape.wf(),
        ensures
            m.wf(shape),
            forall|i: int| 0 <= i < m.mapped@.len() ==> !(#[trigger] m.mapped@[i]),
    {
        let n: usize = 2 * shape.slots as usize + 1;
        let mut mapped: Vec<bool> = Vec::new();
        let mut i: usize = 0;
        while i < n
            invariant
                i <= n,
                mapped@.len() == i,
                forall|k: int| 0 <= k < i ==> !(#[trigger] mapped@[k]),
            decreases n - i,
        {
            mapped.push(false);
            i += 1;
        }
        RingMap { mapped }
    }

    /// The page and socket number in the reply to an attach.
    pub fn attached(&self, res: SysResult, reply: &Packet) -> (r: Option<(Handle, usize)>)
        ensures
            ({
                let sid = packet::word_of(reply.area@, 1);
                r == (if fs::accepted(res, *reply) && reply.handle_count != 0 && 0 < sid
                    < self.mapped@.len() {
                    Some((reply.handles@[0], sid as usize))
                } else {
                    None
                })
            }),
    {
        if !succeeded(res, reply) || reply.handle_count == 0 {
            return None;
        }
        let sid: u64 = reply.word(1);
        if sid == 0 || sid >= self.mapped.len() as u64 {
            return None;
        }
        Some((reply.handles[0], sid as usize))
    }

    /// Where the page of `sid` is, and whether it has to be mapped there first.
    pub fn attach(&self, shape: Shape, sid: usize) -> (r: (u64, bool))
        requires
            shape.wf(),
            self.wf(shape),
            0 < sid < self.mapped@.len(),
        ensures
            r.0 == ring_addr(sid as int),
            r.1 == !self.mapped@[sid as int],
    {
        (RING_XFER + sid as u64 * PAGE as u64, !self.mapped[sid])
    }

    /// The page of `sid` was mapped.
    pub fn remember(&mut self, sid: usize)
        requires
            sid < old(self).mapped@.len(),
        ensures
            final(self).mapped@ == old(self).mapped@.update(sid as int, true),
    {
        self.mapped.set(sid, true);
    }
}

/// How many datagrams the server sent and received at a kick; none if it did not answer.
pub fn kick(res: SysResult, reply: &Packet) -> (r: (u64, u64))
    ensures
        r == (if res is Ok {
            (packet::word_of(reply.area@, 0) as u64, packet::word_of(reply.area@, 1) as u64)
        } else {
            (0u64, 0u64)
        }),
{
    if res.is_err() {
        (0, 0)
    } else {
        (reply.word(0), reply.word(1))
    }
}

/// A number of 32 bits survives being split into bytes.
pub proof fn lemma_le32(v: u32)
    ensures
        bytes::le32(le32_bytes(v), 0) == v,
{
    let q1 = v as int / 0x100;
    let q2 = v as int / 0x1_0000;
    let q3 = v as int / 0x100_0000;
    assert(v == 0x100 * q1 + v as int % 0x100);
    assert(q1 == 0x100 * q2 + q1 % 0x100);
    assert(q2 == 0x100 * q3 + q2 % 0x100);
}

/// A datagram that stands in a received slot as a record is taken as it is.
pub proof fn law_record_is_received(r: Ring, i: int, ip: Seq<u8>, port: u16, payload: Seq<u8>)
    requires
        r.wf(),
        0 <= i < r.shape.slots,
        ip.len() == 4,
        payload.len() <= r.shape.payload_max,
        ({
            let at = r.shape.slot(r.shape.slots + i);
            r.page@.subrange(at, at + 8 + payload.len()) == record(ip, port, payload)
        }),
    ensures
        r.received(i) == (ip, port, payload),
{
    let at = r.shape.slot(r.shape.slots + i);
    Ring::lemma_slot(r.shape, r.shape.slots + i);
    let rec = record(ip, port, payload);
    let part = r.page@.subrange(at, at + 8 + payload.len());
    let a = le32_bytes(udp::ip_number(ip) as u32);
    let p = le16_bytes(port);
    let l = le16_bytes(payload.len() as u16);
    lemma_le32(udp::ip_number(ip) as u32);
    udp::law_ip_round_trip(ip);
    assert(rec[0] == a[0] && rec[1] == a[1] && rec[2] == a[2] && rec[3] == a[3]);
    assert(rec[4] == p[0] && rec[5] == p[1] && rec[6] == l[0] && rec[7] == l[1]);
    assert(part[0] == r.page@[at] && part[1] == r.page@[at + 1] && part[2] == r.page@[at + 2]
        && part[3] == r.page@[at + 3]);
    assert(part[4] == r.page@[at + 4] && part[5] == r.page@[at + 5] && part[6] == r.page@[at + 6]
        && part[7] == r.page@[at + 7]);
    assert(bytes::le32(r.page@, at) == udp::ip_number(ip));
    assert(bytes::le16(r.page@, at + 4) == port);
    assert(bytes::le16(r.page@, at + 6) == payload.len());
    assert(r.page@.subrange(at + 8, at + 8 + payload.len()) =~= part.subrange(
        8,
        8 + payload.len() as int,
    ));
    assert(rec.subrange(8, 8 + payload.len() as int) =~= payload);
}

} // verus!
