//! Stream sockets: the messages of the net server's socket interface. Tags that
//! belong to the server alone are handed in.
use crate::abi::{Handle, SysResult, TAG_TCP_CONNECT, TAG_TCP_RECV, TAG_TCP_SEND};
use crate::rt::fs;
use crate::rt::fs::succeeded;
use crate::rt::packet;
use crate::rt::packet::{Packet, INLINE_WORDS};
use crate::rt::udp;
use crate::rt::udp::{ip_to_u32, FRAME_MAX};
use vstd::prelude::*;

verus! {

/// Bytes of a stream in one message.
pub const STREAM_MAX: usize = 504;

/// Whether a piece of a stream is worth the socket's frame: it does not fit into
/// one message.
pub fn wants_frame(len: usize) -> (b: bool)
    ensures
        b == (len > STREAM_MAX),
{
    len > STREAM_MAX
}

/// Connect to an IPv4 address.
pub fn connect(ip: [u8; 4], port: u16) -> (m: Packet)
    ensures
        m.carries(
            TAG_TCP_CONNECT,
            2,
            packet::with_word(
                packet::with_word(packet::blank(), 0, udp::ip_number(ip@) as u64),
                1,
                port as u64,
            ),
        ),
{
    let mut m = Packet::new(TAG_TCP_CONNECT);
    m.set_word(0, ip_to_u32(ip) as u64);
    m.set_word(1, port as u64);
    m.data_len = 2;
    m
}

/// The socket that a connect gave.
pub fn connected(res: SysResult, reply: &Packet) -> (r: Option<Handle>)
    ensures
        r == (if fs::accepted(res, *reply) {
            Some(reply.handles@[0])
        } else {
            None
        }),
{
    if succeeded(res, reply) {
        Some(reply.handles[0])
    } else {
        None
    }
}

/// Connect to an IPv6 address.
pub fn connect6(tag: u64, addr: [u8; 16], port: u16) -> (m: Packet)
    ensures
        m.carries(
            tag,
            3,
            packet::written(packet::with_word(packet::blank(), 0, port as u64), 8, addr@),
        ),
{
    let mut m = Packet::new(tag);
    m.set_word(0, port as u64);
    m.put(8, addr.as_slice(), 16);
    assert(addr@.subrange(0, 16) =~= addr@);
    m.data_len = 3;
    m
}

/// Listen on a port.
pub fn listen(tag: u64, port: u16) -> (m: Packet)
    ensures
        m.carries(tag, 1, packet::with_word(packet::blank(), 0, port as u64)),
{
    let mut m = Packet::new(tag);
    m.set_word(0, port as u64);
    m.data_len = 1;
    m
}

/// The capability that a reply grants: none when it carries none.
pub fn granted(res: SysResult, reply: &Packet) -> (r: Option<Handle>)
    ensures
        r == (if fs::accepted(res, *reply) && reply.handle_count != 0 {
            Some(reply.handles@[0])
        } else {
            None
        }),
{
    if succeeded(res, reply) && reply.handle_count != 0 {
        Some(reply.handles[0])
    } else {
        None
    }
}

/// A connection that was accepted.
pub struct Accepted {
    pub sock: Handle,
    /// The peer's address; an IPv4 one in the first four bytes.
    pub addr: Vec<u8>,
    pub is_v6: bool,
    pub port: u16,
}

/// The connection that an accept gave.
pub fn accepted(res: SysResult, reply: &Packet) -> (r: Option<Accepted>)
    ensures
        match r {
            Some(a) => {
                &&& fs::accepted(res, *reply)
                &&& reply.handle_count != 0
                &&& a.sock == reply.handles@[0]
                &&& a.addr@ == reply.area@.subrange(24, 40)
                &&& a.is_v6 == (packet::word_of(reply.area@, 1) == 6)
                &&& a.port == packet::word_of(reply.area@, 2) as u64 as u16
            },
            None => !fs::accepted(res, *reply) || reply.handle_count == 0,
        },
{
    match granted(res, reply) {
        None => None,
        Some(sock) => Some(
            Accepted {
                sock,
                addr: reply.get(24, 16),
                is_v6: reply.word(1) == 6,
                port: reply.word(2) as u16,
            },
        ),
    }
}

/// `m` sends as much of `data` as fits.
pub open spec fn sends(m: Packet, data: Seq<u8>) -> bool {
    let p = packet::first(data, STREAM_MAX as int);
    m.carries(
        TAG_TCP_SEND,
        INLINE_WORDS as int,
        packet::written(packet::with_word(packet::blank(), 0, p.len() as u64), 8, p),
    )
}

/// Send what fits into one message.
pub fn send(data: &[u8]) -> (m: Packet)
    ensures
        sends(m, data@),
{
    let n: usize = if data.len() < STREAM_MAX {
        data.len()
    } else {
        STREAM_MAX
    };
    let mut m = Packet::new(TAG_TCP_SEND);
    m.set_word(0, n as u64);
    m.put(8, data, n);
    assert(data@.subrange(0, n as int) =~= packet::first(data@, STREAM_MAX as int));
    m.data_len = INLINE_WORDS as u32;
    m
}

/// How many bytes the server took.
pub fn sent(res: SysResult, reply: &Packet) -> (r: Option<u64>)
    ensures
        r == (if fs::accepted(res, *reply) {
            Some(packet::word_of(reply.area@, 1) as u64)
        } else {
            None
        }),
{
    if succeeded(res, reply) {
        Some(reply.word(1))
    } else {
        None
    }
}

/// Ask for as many bytes as a buffer of `cap` bytes and a reply can hold, so
/// that the server takes no more than that from the stream.
pub fn recv(cap: usize) -> (m: Packet)
    ensures
        m.carries(
            TAG_TCP_RECV,
            1,
            packet::with_word(
                packet::blank(),
                0,
                udp::at_most(cap as int, STREAM_MAX as int) as u64,
            ),
        ),
{
    let n: usize = if cap < STREAM_MAX {
        cap
    } else {
        STREAM_MAX
    };
    let mut m = Packet::new(TAG_TCP_RECV);
    m.set_word(0, n as u64);
    m.data_len = 1;
    m
}

/// The bytes that arrived: none when the call failed or the stream is closed.
pub fn received(res: SysResult, reply: &Packet, cap: usize) -> (v: Vec<u8>)
    ensures
        v@ == (if res is Ok {
            fs::brought_upto(*reply, cap as int)
        } else {
            Seq::empty()
        }),
{
    if res.is_err() {
        let v: Vec<u8> = Vec::new();
        assert(v@ =~= Seq::empty());
        v
    } else {
        fs::bytes_upto(reply, cap)
    }
}

/// No byte of the stream is lost: when the server sends no more than was asked
/// for, everything it sent arrives.
pub proof fn law_stream_is_whole(reply: Packet, cap: int)
    requires
        0 <= cap,
        packet::word_of(reply.area@, 0) <= udp::at_most(cap, STREAM_MAX as int),
    ensures
        fs::brought_upto(reply, cap) == reply.area@.subrange(
            8,
            8 + packet::word_of(reply.area@, 0),
        ),
{
}

/// Send the first `len` bytes of the frame.
pub fn sendv(tag: u64, len: usize) -> (m: Packet)
    ensures
        m.carries(
            tag,
            1,
            packet::with_word(
                packet::blank(),
                0,
                udp::at_most(len as int, FRAME_MAX as int) as u64,
            ),
        ),
{
    let n: usize = if len < FRAME_MAX {
        len
    } else {
        FRAME_MAX
    };
    let mut m = Packet::new(tag);
    m.set_word(0, n as u64);
    m.data_len = 1;
    m
}

/// Ask for up to `want` bytes in the frame, at least one.
pub fn recvv(tag: u64, want: usize) -> (m: Packet)
    ensures
        m.carries(
            tag,
            1,
            packet::with_word(
                packet::blank(),
                0,
                (if want == 0 {
                    1
                } else {
                    udp::at_most(want as int, FRAME_MAX as int)
                }) as u64,
            ),
        ),
{
    let n: usize = if want == 0 {
        1
    } else if want < FRAME_MAX {
        want
    } else {
        FRAME_MAX
    };
    let mut m = Packet::new(tag);
    m.set_word(0, n as u64);
    m.data_len = 1;
    m
}

/// How many bytes arrived in the frame.
pub fn recvv_len(res: SysResult, reply: &Packet, want: usize) -> (n: usize)
    ensures
        n == (if res is Ok {
            udp::at_most(
                udp::at_most(packet::word_of(reply.area@, 0), want as int),
                FRAME_MAX as int,
            )
        } else {
            0
        }),
{
    if res.is_err() {
        return 0;
    }
    let w: u64 = reply.word(0);
    let mut n: usize = want;
    if w < n as u64 {
        n = w as usize;
    }
    if n > FRAME_MAX {
        n = FRAME_MAX;
    }
    n
}

} // verus!
