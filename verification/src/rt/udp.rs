//! Datagram sockets: the messages of the net server's socket interface, and the
//! transfer frames that sockets share with the server.
use crate::abi::{
    Handle, SysResult, MSG_DATA_WORDS, TAG_UDP_BIND, TAG_UDP_RECVFROM, TAG_UDP_SENDTO, TAG_UDP_SENDV,
};
use crate::bytes;
use crate::rt::fs;
use crate::rt::fs::succeeded;
use crate::rt::packet;
use crate::rt::packet::{Packet, INLINE_WORDS};
use vstd::prelude::*;

verus! {

/// Where the transfer frames are mapped.
pub const UDP_XFER: u64 = 0x3E00_0000;

/// Frames that can be attached at once.
pub const UDP_FRAME_SLOTS: usize = 16;

/// Longest datagram through a frame.
pub const FRAME_MAX: usize = 1472;

/// Longest datagram inside a message.
pub const INLINE_MAX: usize = 480;

/// How a datagram travels.
#[derive(Clone, Copy, PartialEq, Eq, Structural, Debug)]
pub enum Route {
    /// Not at all: it would have to be split.
    Refuse,
    /// Through the socket's frame.
    Frame,
    /// Inside the message.
    Inline,
}

/// How a datagram of `len` bytes travels.
pub fn route(len: usize) -> (r: Route)
    ensures
        r == (if len > FRAME_MAX {
            Route::Refuse
        } else if len > INLINE_MAX {
            Route::Frame
        } else {
            Route::Inline
        }),
{
    if len > FRAME_MAX {
        Route::Refuse
    } else if len > INLINE_MAX {
        Route::Frame
    } else {
        Route::Inline
    }
}

/// An address as a big-endian number.
pub open spec fn ip_number(ip: Seq<u8>) -> int {
    bytes::be16(ip, 0) * 0x1_0000 + bytes::be16(ip, 2)
}

/// An address as a big-endian number.
pub fn ip_to_u32(ip: [u8; 4]) -> (v: u32)
    ensures
        v == ip_number(ip@),
{
    ((ip[0] as u32 * 0x100 + ip[1] as u32) * 0x1_0000) + (ip[2] as u32 * 0x100 + ip[3] as u32)
}

/// The address that a big-endian number names.
pub open spec fn ip_of(v: u32) -> Seq<u8> {
    seq![
        (v as int / 0x100_0000) as u8,
        (v as int / 0x1_0000 % 0x100) as u8,
        (v as int / 0x100 % 0x100) as u8,
        (v as int % 0x100) as u8,
    ]
}

/// The address that a big-endian number names.
pub fn u32_to_ip(v: u32) -> (ip: [u8; 4])
    ensures
        ip@ == ip_of(v),
{
    let ip: [u8; 4] = [
        (v / 0x100_0000) as u8,
        (v / 0x1_0000 % 0x100) as u8,
        (v / 0x100 % 0x100) as u8,
        (v % 0x100) as u8,
    ];
    assert(ip@ =~= ip_of(v));
    ip
}

/// An address survives being made a number and back.
pub proof fn law_ip_round_trip(ip: Seq<u8>)
    requires
        ip.len() == 4,
    ensures
        ip_of(ip_number(ip) as u32) == ip,
{
    let v = ip_number(ip);
    assert(0 <= v < 0x1_0000_0000);
    assert(ip_of(v as u32) =~= ip);
}

/// `v` cut to `n`.
pub open spec fn at_most(v: int, n: int) -> int {
    if v < n {
        v
    } else {
        n
    }
}

/// Send the first `len` bytes of the frame to `ip:dport`.
pub fn sendv(ip: [u8; 4], dport: u16, len: usize) -> (m: Packet)
    ensures
        m.carries(
            TAG_UDP_SENDV,
            3,
            packet::with_word(
                packet::with_word(
                    packet::with_word(packet::blank(), 0, ip_number(ip@) as u64),
                    1,
                    dport as u64,
                ),
                2,
                at_most(len as int, FRAME_MAX as int) as u64,
            ),
        ),
{
    let mut m = Packet::new(TAG_UDP_SENDV);
    m.set_word(0, ip_to_u32(ip) as u64);
    m.set_word(1, dport as u64);
    let n: usize = if len < FRAME_MAX {
        len
    } else {
        FRAME_MAX
    };
    m.set_word(2, n as u64);
    m.data_len = 3;
    m
}

/// A datagram's length, source address and source port.
#[derive(Clone, Copy)]
pub struct Datagram {
    pub len: usize,
    pub ip: [u8; 4],
    pub port: u16,
}

/// What arrived in the frame: nothing when the call failed.
pub fn recvv_src(res: SysResult, reply: &Packet) -> (d: Datagram)
    ensures
        match res {
            Ok(_) => {
                &&& d.len == at_most(packet::word_of(reply.area@, 0), FRAME_MAX as int)
                &&& d.ip@ == ip_of(packet::word_of(reply.area@, 1) as u64 as u32)
                &&& d.port == packet::word_of(reply.area@, 2) as u64 as u16
            },
            Err(_) => d.len == 0 && d.ip@ == seq![0u8, 0u8, 0u8, 0u8] && d.port == 0,
        },
{
    match res {
        Err(_) => {
            let ip: [u8; 4] = [0u8; 4];
            assert(ip@ =~= seq![0u8, 0u8, 0u8, 0u8]);
            Datagram { len: 0, ip, port: 0 }
        },
        Ok(_) => {
            let w: u64 = reply.word(0);
            let len: usize = if w < FRAME_MAX as u64 {
                w as usize
            } else {
                FRAME_MAX
            };
            Datagram { len, ip: u32_to_ip(reply.word(1) as u32), port: reply.word(2) as u16 }
        },
    }
}

/// The address of the name server: what the net server leased, or the usual
/// one of an emulated network when the call failed.
pub fn dns_server(res: SysResult, reply: &Packet) -> (ip: [u8; 4])
    ensures
        match res {
            Ok(_) => ip@ == seq![
                packet::word_of(reply.area@, 0) as u64 as u8,
                packet::word_of(reply.area@, 1) as u64 as u8,
                packet::word_of(reply.area@, 2) as u64 as u8,
                packet::word_of(reply.area@, 3) as u64 as u8,
            ],
            Err(_) => ip@ == seq![10u8, 0u8, 2u8, 3u8],
        },
{
    match res {
        Ok(_) => {
            let a: u64 = reply.word(0);
            let b: u64 = reply.word(1);
            let c: u64 = reply.word(2);
            let d: u64 = reply.word(3);
            let ip: [u8; 4] = [a as u8, b as u8, c as u8, d as u8];
            assert(ip@ =~= seq![a as u8, b as u8, c as u8, d as u8]);
            ip
        },
        Err(_) => {
            let ip: [u8; 4] = [10, 0, 2, 3];
            assert(ip@ =~= seq![10u8, 0u8, 2u8, 3u8]);
            ip
        },
    }
}

/// Bind a socket; port zero asks for any.
pub fn bind(port: u16) -> (m: Packet)
    ensures
        m.carries(TAG_UDP_BIND, 1, packet::with_word(packet::blank(), 0, port as u64)),
{
    let mut m = Packet::new(TAG_UDP_BIND);
    m.set_word(0, port as u64);
    m.data_len = 1;
    m
}

/// The socket and port that a bind gave.
pub fn bound(res: SysResult, reply: &Packet) -> (r: Option<(Handle, u16)>)
    ensures
        r == (if fs::accepted(res, *reply) {
            Some((reply.handles@[0], packet::word_of(reply.area@, 1) as u64 as u16))
        } else {
            None
        }),
{
    if succeeded(res, reply) {
        Some((reply.handles[0], reply.word(1) as u16))
    } else {
        None
    }
}

/// The inline area of a datagram.
pub open spec fn sendto_area(ip: Seq<u8>, dport: u16, payload: Seq<u8>) -> Seq<u8> {
    packet::written(
        packet::with_word(
            packet::with_word(
                packet::with_word(packet::blank(), 0, ip_number(ip) as u64),
                1,
                dport as u64,
            ),
            2,
            payload.len() as u64,
        ),
        24,
        payload,
    )
}

/// Send one datagram. A payload that does not fit is refused, never cut.
pub fn sendto(ip: [u8; 4], dport: u16, payload: &[u8]) -> (r: Option<Packet>)
    ensures
        match r {
            Some(m) => {
                &&& payload.len() <= INLINE_MAX
                &&& m.carries(
                    TAG_UDP_SENDTO,
                    INLINE_WORDS as int,
                    sendto_area(ip@, dport, payload@),
                )
            },
            None => payload.len() > INLINE_MAX,
        },
{
    if payload.len() > INLINE_MAX {
        return None;
    }
    let mut m = Packet::new(TAG_UDP_SENDTO);
    m.set_word(0, ip_to_u32(ip) as u64);
    m.set_word(1, dport as u64);
    m.set_word(2, payload.len() as u64);
    m.put(24, payload, payload.len());
    assert(payload@.subrange(0, payload@.len() as int) =~= payload@);
    m.data_len = INLINE_WORDS as u32;
    Some(m)
}

/// A datagram that is sent carries its whole payload behind the header.
pub proof fn law_datagram_is_whole(ip: Seq<u8>, dport: u16, payload: Seq<u8>)
    requires
        payload.len() <= INLINE_MAX,
    ensures
        sendto_area(ip, dport, payload).subrange(24, 24 + payload.len() as int) == payload,
{
    assert(sendto_area(ip, dport, payload).subrange(24, 24 + payload.len() as int) =~= payload);
}

/// The bytes that an inline receive brought into a buffer of `cap` bytes.
pub open spec fn inline_bytes(reply: Packet, cap: int) -> Seq<u8> {
    let n = at_most(at_most(packet::word_of(reply.area@, 0), cap), INLINE_MAX as int);
    reply.area@.subrange(8, 8 + n)
}

/// What a receive brought into a buffer of `cap` bytes, with its source, which
/// rides in the last two words of a message.
pub fn recvfrom_src(res: SysResult, reply: &Packet, cap: usize) -> (r: (Vec<u8>, Datagram))
    ensures
        r.1.len == r.0@.len(),
        match res {
            Ok(_) => {
                &&& r.0@ == inline_bytes(*reply, cap as int)
                &&& r.1.ip@ == ip_of(
                    packet::word_of(reply.area@, MSG_DATA_WORDS - 2) as u64 as u32,
                )
                &&& r.1.port == packet::word_of(reply.area@, MSG_DATA_WORDS - 1) as u64 as u16
            },
            Err(_) => {
                &&& r.0@.len() == 0
                &&& r.1.ip@ == seq![0u8, 0u8, 0u8, 0u8]
                &&& r.1.port == 0
            },
        },
{
    match res {
        Err(_) => {
            let ip: [u8; 4] = [0u8; 4];
            assert(ip@ =~= seq![0u8, 0u8, 0u8, 0u8]);
            (Vec::new(), Datagram { len: 0, ip, port: 0 })
        },
        Ok(_) => {
            let v = recvfrom(res, reply, cap);
            let ip = u32_to_ip(reply.word(MSG_DATA_WORDS - 2) as u32);
            let port: u16 = reply.word(MSG_DATA_WORDS - 1) as u16;
            let len: usize = v.len();
            (v, Datagram { len, ip, port })
        },
    }
}

/// What a receive brought into a buffer of `cap` bytes.
pub fn recvfrom(res: SysResult, reply: &Packet, cap: usize) -> (v: Vec<u8>)
    ensures
        v@ == (if res is Ok {
            inline_bytes(*reply, cap as int)
        } else {
            Seq::empty()
        }),
{
    if res.is_err() {
        let v: Vec<u8> = Vec::new();
        assert(v@ =~= Seq::empty());
        return v;
    }
    let w: u64 = reply.word(0);
    let mut n: usize = cap;
    if w < n as u64 {
        n = w as usize;
    }
    if n > INLINE_MAX {
        n = INLINE_MAX;
    }
    reply.get(8, n)
}

/// Ask for a datagram.
pub fn receive() -> (m: Packet)
    ensures
        m.is_blank(TAG_UDP_RECVFROM),
{
    Packet::new(TAG_UDP_RECVFROM)
}

/// The frames that sockets have attached. A frame belongs to a server-side
/// socket number and is mapped once; a socket's own entry is forgotten when it
/// is closed.
#[derive(Clone, Copy)]
pub struct FrameCache {
    /// The socket of each entry, zero when it is free.
    pub sock: [Handle; UDP_FRAME_SLOTS],
    /// Where the entry's frame is mapped.
    pub ptr: [u64; UDP_FRAME_SLOTS],
    /// Which numbers' frames are mapped, from one up.
    pub mapped: [bool; 17],
}

/// Where the frame of socket number `sid` is mapped.
pub open spec fn frame_addr(sid: int) -> int {
    UDP_XFER + sid * 4096
}

/// The entry of `sock` with an address.
pub open spec fn has_entry(c: FrameCache, sock: Handle, i: int) -> bool {
    0 <= i < UDP_FRAME_SLOTS && c.sock@[i] == sock && c.ptr@[i] != 0
}

impl FrameCache {
    /// No socket has two entries.
    pub open spec fn wf(&self) -> bool {
        forall|i: int, j: int|
            0 <= i < UDP_FRAME_SLOTS && 0 <= j < UDP_FRAME_SLOTS && i != j && self.sock@[i] != 0
                ==> #[trigger] self.sock@[i] != #[trigger] self.sock@[j]
    }

    /// No frame is attached.
    pub fn new() -> (c: FrameCache)
        ensures
            c.wf(),
            forall|i: int| 0 <= i < UDP_FRAME_SLOTS ==> c.sock@[i] == 0 && c.ptr@[i] == 0,
            forall|i: int| 0 <= i < 17 ==> !c.mapped@[i],
    {
        FrameCache {
            sock: [0u32; UDP_FRAME_SLOTS],
            ptr: [0u64; UDP_FRAME_SLOTS],
            mapped: [false; 17],
        }
    }

    /// Where the frame of `sock` is mapped, if it is attached.
    pub fn lookup(&self, sock: Handle) -> (r: Option<u64>)
        ensures
            match r {
                Some(p) => exists|i: int| has_entry(*self, sock, i) && #[trigger] self.ptr@[i] == p,
                None => forall|i: int| !has_entry(*self, sock, i),
            },
    {
        let mut i: usize = 0;
        while i < UDP_FRAME_SLOTS
            invariant
                i <= UDP_FRAME_SLOTS,
                forall|k: int| 0 <= k < i ==> !has_entry(*self, sock, k),
            decreases UDP_FRAME_SLOTS - i,
        {
            if self.sock[i] == sock && self.ptr[i] != 0 {
                assert(has_entry(*self, sock, i as int));
                return Some(self.ptr[i]);
            }
            i += 1;
        }
        None
    }

    /// The frame and socket number in the reply to an attach.
    pub fn attached(res: SysResult, reply: &Packet) -> (r: Option<(Handle, usize)>)
        ensures
            ({
                let sid = packet::word_of(reply.area@, 1);
                r == (if fs::accepted(res, *reply) && reply.handle_count != 0 && 0 < sid
                    <= UDP_FRAME_SLOTS {
                    Some((reply.handles@[0], sid as usize))
                } else {
                    None
                })
            }),
    {
        if !succeeded(res, reply) || reply.handle_count == 0 {
            return None;
        }
        let sid: u64 = reply.word(1);
        if sid == 0 || sid > UDP_FRAME_SLOTS as u64 {
            return None;
        }
        Some((reply.handles[0], sid as usize))
    }

    /// Where to map the frame of `sid`, unless it is mapped.
    pub fn to_map(&self, sid: usize) -> (r: Option<u64>)
        requires
            0 < sid <= UDP_FRAME_SLOTS,
        ensures
            r == (if self.mapped@[sid as int] {
                None
            } else {
                Some(frame_addr(sid as int) as u64)
            }),
    {
        if self.mapped[sid] {
            None
        } else {
            Some(UDP_XFER + sid as u64 * 4096)
        }
    }

    /// The frame of `sid` is mapped and belongs to `sock`: it is entered at the
    /// first entry that is free, if any.
    pub fn remember(&mut self, sock: Handle, sid: usize) -> (vaddr: u64)
        requires
            old(self).wf(),
            sock != 0,
            0 < sid <= UDP_FRAME_SLOTS,
            forall|i: int| 0 <= i < UDP_FRAME_SLOTS ==> old(self).sock@[i] != sock,
        ensures
            vaddr == frame_addr(sid as int),
            final(self).wf(),
            final(self).mapped@ == old(self).mapped@.update(sid as int, true),
            ({
                let full = forall|i: int| 0 <= i < UDP_FRAME_SLOTS ==> old(self).sock@[i] != 0;
                if full {
                    final(self).sock@ == old(self).sock@ && final(self).ptr@ == old(self).ptr@
                } else {
                    exists|i: int|
                        0 <= i < UDP_FRAME_SLOTS && #[trigger] old(self).sock@[i] == 0
                            && (forall|k: int| 0 <= k < i ==> old(self).sock@[k] != 0)
                            && final(self).sock@ == old(self).sock@.update(i, sock)
                            && final(self).ptr@ == old(self).ptr@.update(i, vaddr)
                            && has_entry(*final(self), sock, i)
                }
            }),
    {
        let vaddr: u64 = UDP_XFER + sid as u64 * 4096;
        self.mapped[sid] = true;
        let mut i: usize = 0;
        while i < UDP_FRAME_SLOTS
            invariant
                i <= UDP_FRAME_SLOTS,
                forall|k: int| 0 <= k < i ==> self.sock@[k] != 0,
                self.sock@ == old(self).sock@,
                self.ptr@ == old(self).ptr@,
                self.mapped@ == old(self).mapped@.update(sid as int, true),
                old(self).wf(),
                sock != 0,
                vaddr == frame_addr(sid as int),
                0 < sid <= UDP_FRAME_SLOTS,
                forall|k: int| 0 <= k < UDP_FRAME_SLOTS ==> old(self).sock@[k] != sock,
            decreases UDP_FRAME_SLOTS - i,
        {
            if self.sock[i] == 0 {
                self.ptr[i] = vaddr;
                self.sock[i] = sock;
                assert(old(self).sock@[i as int] == 0);
                assert(self.sock@ =~= old(self).sock@.update(i as int, sock));
                assert(self.ptr@ =~= old(self).ptr@.update(i as int, vaddr));
                assert(has_entry(*self, sock, i as int));
                return vaddr;
            }
            i += 1;
        }
        vaddr
    }

    /// Forget the entry of a socket that is closed; its frame stays mapped.
    pub fn frame_drop(&mut self, sock: Handle)
        requires
            old(self).wf(),
        ensures
            final(self).wf(),
            final(self).mapped@ == old(self).mapped@,
            forall|i: int|
                0 <= i < UDP_FRAME_SLOTS ==> {
                    &&& #[trigger] final(self).sock@[i] == (if old(self).sock@[i] == sock {
                        0
                    } else {
                        old(self).sock@[i]
                    })
                    &&& final(self).ptr@[i] == (if old(self).sock@[i] == sock {
                        0
                    } else {
                        old(self).ptr@[i]
                    })
                },
            forall|i: int| !has_entry(*final(self), sock, i),
    {
        let ghost socks = self.sock@;
        let ghost ptrs = self.ptr@;
        let mut i: usize = 0;
        while i < UDP_FRAME_SLOTS
            invariant
                i <= UDP_FRAME_SLOTS,
                self.mapped@ == old(self).mapped@,
                socks == old(self).sock@,
                ptrs == old(self).ptr@,
                self.sock@ =~= Seq::new(
                    UDP_FRAME_SLOTS as nat,
                    |k: int|
                        if k < i && socks[k] == sock {
                            0
                        } else {
                            socks[k]
                        },
                ),
                self.ptr@ =~= Seq::new(
                    UDP_FRAME_SLOTS as nat,
                    |k: int|
                        if k < i && socks[k] == sock {
                            0
                        } else {
                            ptrs[k]
                        },
                ),
            decreases UDP_FRAME_SLOTS - i,
        {
            if self.sock[i] == sock {
                self.sock[i] = 0;
                self.ptr[i] = 0;
            }
            i += 1;
        }
        proof {
            assert forall|a: int, b: int|
                0 <= a < UDP_FRAME_SLOTS && 0 <= b < UDP_FRAME_SLOTS && a != b && self.sock@[a] != 0 implies #[trigger] self.sock@[a]
                != #[trigger] self.sock@[b] by {
                assert(old(self).sock@[a] == self.sock@[a]);
                assert(old(self).sock@[a] != old(self).sock@[b]);
            }
        }
    }
}

/// Two socket numbers never share a frame's address.
pub proof fn law_frames_are_apart(a: int, b: int)
    requires
        0 < a <= UDP_FRAME_SLOTS,
        0 < b <= UDP_FRAME_SLOTS,
        a != b,
    ensures
        frame_addr(a) + 4096 <= frame_addr(b) || frame_addr(b) + 4096 <= frame_addr(a),
{
}

} // verus!
