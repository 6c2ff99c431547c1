//! The message a client exchanges with a server: a tag, inline bytes and
//! capabilities. The inline area is read as bytes or as little-endian words. A client may
//! fill all of it; what travels in one message is its first [`MSG_DATA_WORDS`] words, and
//! the kernel refuses a message that claims more.
use crate::abi::{Handle, MsgBuf, MsgView, SysError, MSG_DATA_WORDS, MSG_HANDLES};
use crate::bytes;
use crate::bytes::{read_le64, to_le64};
use crate::ipc;
use crate::syscall::msg;
use crate::syscall::{UserSpace, MSG_BYTES};
use vstd::prelude::*;

verus! {

/// Size of the inline area.
pub const INLINE_BYTES: usize = 512;

/// Number of words in the inline area.
pub const INLINE_WORDS: usize = 64;

/// One message, sent or received.
#[derive(Clone, Copy)]
pub struct Packet {
    /// What is asked for.
    pub tag: u64,
    /// Words of the inline area that travel.
    pub data_len: u32,
    /// Handles that travel.
    pub handle_count: u32,
    /// The inline area.
    pub area: [u8; INLINE_BYTES],
    /// The capabilities.
    pub handles: [Handle; MSG_HANDLES],
}

/// `area` with `b` written over it from `off` on.
pub open spec fn written(area: Seq<u8>, off: int, b: Seq<u8>) -> Seq<u8> {
    Seq::new(
        area.len(),
        |i: int|
            if off <= i < off + b.len() {
                b[i - off]
            } else {
                area[i]
            },
    )
}

/// Word `i` of an inline area.
pub open spec fn word_of(area: Seq<u8>, i: int) -> int {
    bytes::le64(area, 8 * i)
}

/// `area` with word `i` set to `v`.
pub open spec fn with_word(area: Seq<u8>, i: int, v: u64) -> Seq<u8> {
    written(area, 8 * i, bytes::le64_bytes(v))
}

/// An inline area with nothing in it.
pub open spec fn blank() -> Seq<u8> {
    Seq::new(INLINE_BYTES as nat, |i: int| 0u8)
}

/// The words that hold `n` bytes.
pub open spec fn words_for(n: nat) -> int {
    (n as int + 7) / 8
}

/// `s` cut to its first `n` bytes.
pub open spec fn first(s: Seq<u8>, n: int) -> Seq<u8> {
    if s.len() <= n {
        s
    } else {
        s.subrange(0, n)
    }
}

impl Packet {
    /// An empty message carrying only `tag`.
    pub open spec fn is_blank(&self, tag: u64) -> bool {
        &&& self.tag == tag
        &&& self.data_len == 0
        &&& self.handle_count == 0
        &&& self.area@ == blank()
        &&& self.handles@ == seq![0u32, 0u32, 0u32, 0u32]
    }

    /// A message without capabilities: `tag`, `len` words, and `area`.
    pub open spec fn carries(&self, tag: u64, len: int, area: Seq<u8>) -> bool {
        &&& self.tag == tag
        &&& self.data_len == len
        &&& self.handle_count == 0
        &&& self.area@ == area
        &&& self.handles@ == seq![0u32, 0u32, 0u32, 0u32]
    }

    /// A fresh message.
    pub fn new(tag: u64) -> (m: Packet)
        ensures
            m.is_blank(tag),
    {
        let m = Packet {
            tag,
            data_len: 0,
            handle_count: 0,
            area: [0u8; INLINE_BYTES],
            handles: [0u32; MSG_HANDLES],
        };
        assert(m.area@ =~= blank());
        assert(m.handles@ =~= seq![0u32, 0u32, 0u32, 0u32]);
        m
    }

    /// Word `i` of the inline area.
    pub fn word(&self, i: usize) -> (v: u64)
        requires
            i < INLINE_WORDS,
        ensures
            v == word_of(self.area@, i as int),
    {
        read_le64(self.area.as_slice(), 8 * i)
    }

    /// Write the first `n` bytes of `b` into the inline area from `off` on.
    pub fn put(&mut self, off: usize, b: &[u8], n: usize)
        requires
            n <= b.len(),
            off + n <= INLINE_BYTES,
        ensures
            *final(self) == (Packet { area: final(self).area, ..*old(self) }),
            final(self).area@ == written(old(self).area@, off as int, b@.subrange(0, n as int)),
    {
        let ghost before = self.area@;
        let mut i: usize = 0;
        while i < n
            invariant
                i <= n <= b.len(),
                off + n <= INLINE_BYTES,
                *self == (Packet { area: self.area, ..*old(self) }),
                self.area@ =~= written(before, off as int, b@.subrange(0, i as int)),
                before == old(self).area@,
            decreases n - i,
        {
            self.area[off + i] = b[i];
            i += 1;
        }
    }

    /// Set word `i` of the inline area.
    pub fn set_word(&mut self, i: usize, v: u64)
        requires
            i < INLINE_WORDS,
        ensures
            *final(self) == (Packet { area: final(self).area, ..*old(self) }),
            final(self).area@ == with_word(old(self).area@, i as int, v),
    {
        let b = to_le64(v);
        self.put(8 * i, b.as_slice(), 8);
        assert(b@.subrange(0, 8) =~= b@);
    }

    /// The `n` bytes of the inline area from `off` on.
    pub fn get(&self, off: usize, n: usize) -> (v: Vec<u8>)
        requires
            off + n <= INLINE_BYTES,
        ensures
            v@ == self.area@.subrange(off as int, off + n),
    {
        let mut v: Vec<u8> = Vec::new();
        let mut i: usize = 0;
        while i < n
            invariant
                i <= n,
                off + n <= INLINE_BYTES,
                v@ =~= self.area@.subrange(off as int, off + i),
            decreases n - i,
        {
            v.push(self.area[off + i]);
            i += 1;
        }
        v
    }
}

/// What the kernel is handed of a message.
pub open spec fn message_of(m: Packet) -> MsgView {
    MsgView {
        tag: m.tag,
        data_len: m.data_len,
        handle_count: m.handle_count,
        data: Seq::new(MSG_DATA_WORDS as nat, |i: int| word_of(m.area@, i) as u64),
        handles: m.handles@,
        badge: 0,
    }
}

/// The inline area that words received make: they lie at its start.
pub open spec fn area_of(data: Seq<u64>) -> Seq<u8> {
    Seq::new(
        INLINE_BYTES as nat,
        |j: int|
            if j < 8 * data.len() {
                bytes::le64_byte(data[j / 8], j % 8)
            } else {
                0
            },
    )
}

impl Packet {
    /// The message that the kernel is handed.
    pub fn message(&self) -> (m: MsgBuf)
        ensures
            m@ == message_of(*self),
    {
        let mut m = MsgBuf::new(self.tag);
        m.data_len = self.data_len;
        m.handle_count = self.handle_count;
        m.handles = self.handles;
        let mut i: usize = 0;
        while i < MSG_DATA_WORDS
            invariant
                i <= MSG_DATA_WORDS,
                m.tag == self.tag,
                m.data_len == self.data_len,
                m.handle_count == self.handle_count,
                m.handles == self.handles,
                m.badge == 0,
                forall|k: int|
                    0 <= k < i ==> #[trigger] m.data@[k] == word_of(self.area@, k) as u64,
            decreases MSG_DATA_WORDS - i,
        {
            m.data[i] = self.word(i);
            i += 1;
        }
        assert(m.data@ =~= message_of(*self).data);
        m
    }

    /// A message as it was received.
    pub fn received(m: &MsgBuf) -> (p: Packet)
        ensures
            p.tag == m.tag,
            p.data_len == m.data_len,
            p.handle_count == m.handle_count,
            p.handles@ == m.handles@,
            p.area@ == area_of(m.data@),
    {
        let mut p = Packet::new(m.tag);
        p.data_len = m.data_len;
        p.handle_count = m.handle_count;
        p.handles = m.handles;
        let mut i: usize = 0;
        while i < MSG_DATA_WORDS
            invariant
                i <= MSG_DATA_WORDS,
                p.tag == m.tag,
                p.data_len == m.data_len,
                p.handle_count == m.handle_count,
                p.handles == m.handles,
                p.area@ =~= Seq::new(
                    INLINE_BYTES as nat,
                    |j: int|
                        if j < 8 * i {
                            bytes::le64_byte(m.data@[j / 8], j % 8)
                        } else {
                            0
                        },
                ),
            decreases MSG_DATA_WORDS - i,
        {
            let ghost before = p.area@;
            p.set_word(i, m.data[i]);
            proof {
                let b = bytes::le64_bytes(m.data@[i as int]);
                assert forall|j: int| 0 <= j < INLINE_BYTES implies p.area@[j] == (if j < 8 * (i
                    + 1) {
                    bytes::le64_byte(m.data@[j / 8], j % 8)
                } else {
                    0
                }) by {
                    if 8 * i <= j < 8 * i + 8 {
                        assert(j / 8 == i && j % 8 == j - 8 * i);
                        assert(p.area@[j] == b[j - 8 * i]);
                    } else {
                        assert(p.area@[j] == before[j]);
                    }
                }
            }
            i += 1;
        }
        assert(p.area@ =~= area_of(m.data@));
        p
    }
}

/// The kernel admits a message of a client that claims no more words and capabilities than
/// a message has, and refuses any other, wherever the client's buffer is sound.
pub proof fn law_short_message_is_admitted(m: Packet, u: UserSpace, ptr: u64, write: bool)
    requires
        ptr & 7 == 0,
        u.reaches(ptr, MSG_BYTES as int, write),
    ensures
        msg::message_error(u, ptr, message_of(m), write) == (if m.data_len <= MSG_DATA_WORDS
            && m.handle_count <= MSG_HANDLES {
            None
        } else {
            Some(SysError::Msg)
        }),
{
}

/// What one side wrote into the words of a message the other side reads from them: the tag,
/// the count, and every byte of the words that count, whatever was in the receiver's buffer.
pub proof fn law_message_arrives(m: Packet, buffer: MsgView, badge: u64)
    requires
        m.data_len <= MSG_DATA_WORDS,
        buffer.data.len() == MSG_DATA_WORDS,
    ensures
        ({
            let got = ipc::copied_out(buffer, MsgView { badge, ..message_of(m) });
            let area = area_of(got.data);
            &&& got.tag == m.tag
            &&& got.data_len == m.data_len
            &&& got.handle_count == m.handle_count
            &&& area.subrange(0, 8 * m.data_len as int) == m.area@.subrange(
                0,
                8 * m.data_len as int,
            )
            &&& forall|i: int|
                0 <= i < m.data_len ==> #[trigger] word_of(area, i) == word_of(m.area@, i)
        }),
{
    let got = ipc::copied_out(buffer, MsgView { badge, ..message_of(m) });
    let area = area_of(got.data);
    assert forall|j: int| 0 <= j < 8 * m.data_len implies #[trigger] area[j] == m.area@[j] by {
        let i = j / 8;
        bytes::law_bytes64_round_trip(m.area@, 8 * i);
        let b = bytes::le64_bytes(word_of(m.area@, i) as u64);
        assert(b[j % 8] == m.area@.subrange(8 * i, 8 * i + 8)[j % 8]);
        assert(got.data[i] == word_of(m.area@, i) as u64);
    }
    assert(area.subrange(0, 8 * m.data_len as int) =~= m.area@.subrange(
        0,
        8 * m.data_len as int,
    ));
    assert forall|i: int| 0 <= i < m.data_len implies #[trigger] word_of(area, i) == word_of(
        m.area@,
        i,
    ) by {
        assert(area[8 * i] == m.area@[8 * i]);
        assert(area[8 * i + 1] == m.area@[8 * i + 1]);
        assert(area[8 * i + 2] == m.area@[8 * i + 2]);
        assert(area[8 * i + 3] == m.area@[8 * i + 3]);
        assert(area[8 * i + 4] == m.area@[8 * i + 4]);
        assert(area[8 * i + 5] == m.area@[8 * i + 5]);
        assert(area[8 * i + 6] == m.area@[8 * i + 6]);
        assert(area[8 * i + 7] == m.area@[8 * i + 7]);
    }
}

/// A word that was set reads back, and the other words are as they were.
pub proof fn law_word_round_trip(area: Seq<u8>, i: int, j: int, v: u64)
    requires
        area.len() == INLINE_BYTES,
        0 <= i < INLINE_WORDS,
        0 <= j < INLINE_WORDS,
    ensures
        word_of(with_word(area, i, v), j) == (if i == j {
            v as int
        } else {
            word_of(area, j)
        }),
{
    let a = with_word(area, i, v);
    bytes::law_le64_round_trip(v);
    let b = bytes::le64_bytes(v);
    if i == j {
        assert(a[8 * i] == b[0]);
        assert(a[8 * i + 1] == b[1]);
        assert(a[8 * i + 2] == b[2]);
        assert(a[8 * i + 3] == b[3]);
        assert(a[8 * i + 4] == b[4]);
        assert(a[8 * i + 5] == b[5]);
        assert(a[8 * i + 6] == b[6]);
        assert(a[8 * i + 7] == b[7]);
    } else {
        assert(a[8 * j] == area[8 * j]);
        assert(a[8 * j + 1] == area[8 * j + 1]);
        assert(a[8 * j + 2] == area[8 * j + 2]);
        assert(a[8 * j + 3] == area[8 * j + 3]);
        assert(a[8 * j + 4] == area[8 * j + 4]);
        assert(a[8 * j + 5] == area[8 * j + 5]);
        assert(a[8 * j + 6] == area[8 * j + 6]);
        assert(a[8 * j + 7] == area[8 * j + 7]);
    }
}

/// Bytes that were written over a stretch read back from it.
pub proof fn law_put_round_trip(area: Seq<u8>, off: int, b: Seq<u8>)
    requires
        0 <= off,
        off + b.len() <= area.len(),
    ensures
        written(area, off, b).subrange(off, off + b.len()) == b,
        written(area, off, b).len() == area.len(),
{
    assert(written(area, off, b).subrange(off, off + b.len()) =~= b);
}

} // verus!
