//! The client side of the file protocol: the requests, and what their replies
//! mean.
use crate::abi::{
    Handle, SysResult, BOOT_NET_EP, FS_DIR, MSG_DATA_WORDS, TAG_FS_CREATE, TAG_FS_MKDIR, TAG_FS_OPEN, TAG_FS_READ,
    TAG_FS_READDIR, TAG_FS_UNLINK, TAG_FS_WRITE,
};
use crate::bytes;
use crate::bytes::nul_len;
use crate::rt::packet;
use crate::rt::packet::{Packet, INLINE_BYTES};
use vstd::prelude::*;
use vstd::slice::slice_subrange;

verus! {

/// Longest path in a request for one path.
pub const PATH_MAX: usize = 56;

/// Longest path in a request for two.
pub const PAIR_MAX: usize = 200;

/// Bytes written by one request of `write_all`.
pub const WRITE_CHUNK: usize = 48;

/// Bytes written by one positioned write.
pub const PWRITE_MAX: usize = 480;

/// Bytes one reply can hold behind its count.
pub const READ_MAX: usize = 504;

/// The directory a program starts in.
pub const ROOT_DIR: Handle = 1;

/// What `open` found.
#[derive(Clone, Copy, PartialEq, Eq, Structural, Debug)]
pub struct Node {
    pub cap: Handle,
    /// `FS_FILE` or `FS_DIR`.
    pub kind: u64,
    pub size: u64,
    /// Times in seconds, zero when the server does not report them.
    pub mtime: u32,
    pub atime: u32,
}

/// A NUL-terminated string at the start of an inline area.
pub open spec fn text_area(s: Seq<u8>) -> Seq<u8> {
    packet::written(packet::blank(), 0, s.push(0))
}

/// The length of `s` cut to `n`.
fn cut(s: &[u8], n: usize) -> (r: usize)
    ensures
        r <= n,
        r <= s.len(),
        s@.subrange(0, r as int) == packet::first(s@, n as int),
{
    if s.len() <= n {
        assert(s@.subrange(0, s@.len() as int) =~= s@);
        s.len()
    } else {
        n
    }
}

/// Write `s`, cut to `n` bytes, and a NUL at `off`.
fn put_text(m: &mut Packet, off: usize, s: &[u8], n: usize) -> (end: usize)
    requires
        off + n + 1 <= INLINE_BYTES,
    ensures
        *final(m) == (Packet { area: final(m).area, ..*old(m) }),
        final(m).area@ == packet::written(
            old(m).area@,
            off as int,
            packet::first(s@, n as int).push(0),
        ),
        end == off + packet::first(s@, n as int).len() + 1,
{
    let k: usize = cut(s, n);
    m.put(off, s, k);
    let nul: [u8; 1] = [0u8];
    m.put(off + k, nul.as_slice(), 1);
    assert(nul@.subrange(0, 1) =~= seq![0u8]);
    assert(m.area@ =~= packet::written(
        old(m).area@,
        off as int,
        packet::first(s@, n as int).push(0),
    ));
    off + k + 1
}

/// A request for one path.
pub fn pack(tag: u64, path: &[u8]) -> (m: Packet)
    ensures
        ({
            let p = packet::first(path@, PATH_MAX as int);
            m.carries(tag, packet::words_for(p.len() + 1), text_area(p))
        }),
{
    let mut m = Packet::new(tag);
    let end: usize = put_text(&mut m, 0, path, PATH_MAX);
    m.data_len = ((end + 7) / 8) as u32;
    m
}

/// A request for two paths, one behind the other.
pub fn pack_two(tag: u64, a: &[u8], b: &[u8]) -> (m: Packet)
    ensures
        ({
            let x = packet::first(a@, PAIR_MAX as int);
            let y = packet::first(b@, PAIR_MAX as int);
            m.carries(
                tag,
                packet::words_for(x.len() + 1 + y.len() + 1),
                text_area(x.push(0) + y),
            )
        }),
{
    let mut m = Packet::new(tag);
    let mid: usize = put_text(&mut m, 0, a, PAIR_MAX);
    let end: usize = put_text(&mut m, mid, b, PAIR_MAX);
    m.data_len = ((end + 7) / 8) as u32;
    assert(m.area@ =~= text_area(
        packet::first(a@, PAIR_MAX as int).push(0) + packet::first(b@, PAIR_MAX as int),
    ));
    m
}

/// Open a path relative to a directory.
pub fn open(path: &[u8]) -> (m: Packet)
    ensures
        ({
            let p = packet::first(path@, PATH_MAX as int);
            m.carries(TAG_FS_OPEN, packet::words_for(p.len() + 1), text_area(p))
        }),
{
    pack(TAG_FS_OPEN, path)
}

/// Create a path, or empty it.
pub fn create(path: &[u8]) -> (m: Packet)
    ensures
        ({
            let p = packet::first(path@, PATH_MAX as int);
            m.carries(TAG_FS_CREATE, packet::words_for(p.len() + 1), text_area(p))
        }),
{
    pack(TAG_FS_CREATE, path)
}

/// Make a directory.
pub fn mkdir(path: &[u8]) -> (m: Packet)
    ensures
        ({
            let p = packet::first(path@, PATH_MAX as int);
            m.carries(TAG_FS_MKDIR, packet::words_for(p.len() + 1), text_area(p))
        }),
{
    pack(TAG_FS_MKDIR, path)
}

/// Remove a path.
pub fn unlink(path: &[u8]) -> (m: Packet)
    ensures
        ({
            let p = packet::first(path@, PATH_MAX as int);
            m.carries(TAG_FS_UNLINK, packet::words_for(p.len() + 1), text_area(p))
        }),
{
    pack(TAG_FS_UNLINK, path)
}

/// A call went through and its server reports success.
pub open spec fn accepted(res: SysResult, reply: Packet) -> bool {
    res is Ok && packet::word_of(reply.area@, 0) == 0
}

/// Whether a call went through and its server reports success.
pub fn succeeded(res: SysResult, reply: &Packet) -> (b: bool)
    ensures
        b == accepted(res, *reply),
{
    match res {
        Ok(_) => reply.word(0) == 0,
        Err(_) => false,
    }
}

/// The node a reply describes.
pub open spec fn node_of(reply: Packet) -> Node {
    Node {
        cap: reply.handles@[0],
        kind: packet::word_of(reply.area@, 1) as u64,
        size: packet::word_of(reply.area@, 2) as u64,
        mtime: if reply.data_len >= 4 {
            packet::word_of(reply.area@, 3) as u64 as u32
        } else {
            0
        },
        atime: if reply.data_len >= 5 {
            packet::word_of(reply.area@, 4) as u64 as u32
        } else {
            0
        },
    }
}

/// What `open` gave.
pub fn opened(res: SysResult, reply: &Packet) -> (r: Option<Node>)
    ensures
        r == (if accepted(res, *reply) {
            Some(node_of(*reply))
        } else {
            None
        }),
{
    if !succeeded(res, reply) {
        return None;
    }
    let mtime: u32 = if reply.data_len >= 4 {
        reply.word(3) as u32
    } else {
        0
    };
    let atime: u32 = if reply.data_len >= 5 {
        reply.word(4) as u32
    } else {
        0
    };
    Some(
        Node { cap: reply.handles[0], kind: reply.word(1), size: reply.word(2), mtime, atime },
    )
}

/// What `create` gave.
pub fn created(res: SysResult, reply: &Packet) -> (r: Option<Handle>)
    ensures
        r == (if accepted(res, *reply) {
            Some(reply.handles@[0])
        } else {
            None
        }),
{
    if succeeded(res, reply) {
        Some(reply.handles[0])
    } else {
        None
    }
}

/// How many bytes the request of `write_all` at `pos` carries.
pub open spec fn chunk_len(len: int, pos: int) -> int {
    if len - pos < WRITE_CHUNK {
        len - pos
    } else {
        WRITE_CHUNK as int
    }
}

/// A request to write `payload` at `off`.
pub open spec fn write_area(off: u64, payload: Seq<u8>) -> Seq<u8> {
    packet::written(
        packet::with_word(packet::with_word(packet::blank(), 0, off), 1, payload.len() as u64),
        16,
        payload,
    )
}

/// Write `payload` at `off`: the offset, the count, and the bytes.
fn write_packet(off: u64, payload: &[u8]) -> (m: Packet)
    requires
        payload.len() <= INLINE_BYTES - 16,
    ensures
        m.carries(TAG_FS_WRITE, 0, write_area(off, payload@)),
{
    let mut m = Packet::new(TAG_FS_WRITE);
    m.set_word(0, off);
    m.set_word(1, payload.len() as u64);
    m.put(16, payload, payload.len());
    assert(payload@.subrange(0, payload@.len() as int) =~= payload@);
    m
}

/// The request that writes the bytes from `pos` on.
pub fn write_chunk(data: &[u8], pos: usize) -> (m: Packet)
    requires
        pos < data.len(),
    ensures
        m.carries(
            TAG_FS_WRITE,
            8,
            write_area(
                pos as u64,
                data@.subrange(pos as int, pos + chunk_len(data@.len() as int, pos as int)),
            ),
        ),
{
    let n: usize = if data.len() - pos < WRITE_CHUNK {
        data.len() - pos
    } else {
        WRITE_CHUNK
    };
    let mut m = write_packet(pos as u64, slice_subrange(data, pos, pos + n));
    m.data_len = 8;
    m
}

/// Where `write_all` goes on after a reply: nowhere when the call failed or
/// nothing was written.
pub fn write_next(res: SysResult, reply: &Packet, pos: usize) -> (r: Option<usize>)
    requires
        pos + packet::word_of(reply.area@, 0) <= usize::MAX,
    ensures
        r == (if res is Ok && packet::word_of(reply.area@, 0) != 0 {
            Some((pos + packet::word_of(reply.area@, 0)) as usize)
        } else {
            None
        }),
{
    match res {
        Err(_) => None,
        Ok(_) => {
            let wrote: u64 = reply.word(0);
            if wrote == 0 {
                None
            } else {
                Some(pos + wrote as usize)
            }
        },
    }
}

/// The payloads of the requests from `pos` on, when each is taken whole.
pub open spec fn payloads(data: Seq<u8>, pos: int) -> Seq<u8>
    decreases data.len() - pos,
{
    if pos < 0 || pos >= data.len() {
        Seq::empty()
    } else {
        let n = chunk_len(data.len() as int, pos);
        data.subrange(pos, pos + n) + payloads(data, pos + n)
    }
}

/// When each request is taken whole, everything is written, in order.
pub proof fn law_everything_is_written(data: Seq<u8>, pos: int)
    requires
        0 <= pos <= data.len(),
    ensures
        payloads(data, pos) == data.subrange(pos, data.len() as int),
    decreases data.len() - pos,
{
    if pos < data.len() {
        let n = chunk_len(data.len() as int, pos);
        law_everything_is_written(data, pos + n);
        assert(data.subrange(pos, data.len() as int) =~= data.subrange(pos, pos + n)
            + data.subrange(pos + n, data.len() as int));
    } else {
        assert(data.subrange(pos, data.len() as int) =~= Seq::empty());
    }
}

/// Ask for the bytes at `off`.
pub fn read(off: u64) -> (m: Packet)
    ensures
        m.carries(TAG_FS_READ, 1, packet::with_word(packet::blank(), 0, off)),
{
    let mut m = Packet::new(TAG_FS_READ);
    m.set_word(0, off);
    m.data_len = 1;
    m
}

/// The bytes a read brought: none when the call failed, the file ended, or the
/// count is more than a reply can hold.
pub open spec fn brought(res: SysResult, reply: Packet) -> Seq<u8> {
    let n = packet::word_of(reply.area@, 0);
    if res is Ok && n <= READ_MAX {
        reply.area@.subrange(8, 8 + n)
    } else {
        Seq::empty()
    }
}

/// Take a read's reply: its bytes are appended, and whether there may be more.
pub fn read_next(res: SysResult, reply: &Packet, out: &mut Vec<u8>) -> (more: bool)
    ensures
        final(out)@ == old(out)@ + brought(res, *reply),
        more == (brought(res, *reply).len() > 0),
{
    let ghost before = out@;
    let n: u64 = reply.word(0);
    if res.is_err() || n > READ_MAX as u64 {
        assert(out@ =~= before + brought(res, *reply));
        return false;
    }
    let n: usize = n as usize;
    let mut part: Vec<u8> = reply.get(8, n);
    assert(part@ =~= brought(res, *reply));
    out.append(&mut part);
    n > 0
}

/// A reply to a read with `data` behind its count.
pub open spec fn is_read_reply(reply: Packet, data: Seq<u8>) -> bool {
    &&& data.len() <= READ_MAX
    &&& packet::word_of(reply.area@, 0) == data.len()
    &&& reply.area@.subrange(8, 8 + data.len() as int) == data
}

/// A read gives back what its reply carries.
pub proof fn law_read_brings_reply(reply: Packet, data: Seq<u8>)
    requires
        is_read_reply(reply, data),
    ensures
        brought(Ok(()), reply) == data,
{
}

/// Ask for the directory entry at `cursor`.
pub fn readdir(cursor: u64) -> (m: Packet)
    ensures
        m.carries(TAG_FS_READDIR, 1, packet::with_word(packet::blank(), 0, cursor)),
{
    let mut m = Packet::new(TAG_FS_READDIR);
    m.set_word(0, cursor);
    m.data_len = 1;
    m
}

/// The name a directory reply carries: empty when it has no end.
pub open spec fn entry_name(reply: Packet) -> Seq<u8> {
    let field = reply.area@.subrange(16, 64);
    if bytes::nul_index(field) == 48 {
        Seq::empty()
    } else {
        bytes::until_nul(field)
    }
}

/// The name and kind of an entry, or nothing past the last one.
pub fn entry(res: SysResult, reply: &Packet) -> (r: Option<(Vec<u8>, u64)>)
    ensures
        match r {
            Some((name, kind)) => {
                &&& res is Ok
                &&& packet::word_of(reply.area@, 0) != 0
                &&& name@ == entry_name(*reply)
                &&& kind == packet::word_of(reply.area@, 1)
            },
            None => res is Err || packet::word_of(reply.area@, 0) == 0,
        },
{
    if res.is_err() || reply.word(0) == 0 {
        return None;
    }
    let mut name: Vec<u8> = reply.get(16, 48);
    let n: usize = nul_len(name.as_slice());
    if n == 48 {
        name.truncate(0);
    } else {
        name.truncate(n);
    }
    assert(name@ =~= entry_name(*reply));
    Some((name, reply.word(1)))
}

/// Open with flags, which ride in the last word of a message, over what reaches it of the
/// path.
pub fn open_with(path: &[u8], flags: u32) -> (m: Packet)
    ensures
        ({
            let p = packet::first(path@, PATH_MAX as int);
            m.carries(
                TAG_FS_OPEN,
                MSG_DATA_WORDS as int,
                packet::with_word(text_area(p), MSG_DATA_WORDS - 1, flags as u64),
            )
        }),
{
    let mut m = pack(TAG_FS_OPEN, path);
    m.set_word(MSG_DATA_WORDS - 1, flags as u64);
    m.data_len = MSG_DATA_WORDS as u32;
    m
}

/// Why an open with flags failed.
#[derive(Clone, Copy, PartialEq, Eq, Structural, Debug)]
pub enum OpenError {
    NotFound,
    AlreadyExists,
    Failed,
    IsADirectory,
}

impl OpenError {
    /// The status a program is given.
    pub fn status(self) -> (s: i64)
        ensures
            s == (match self {
                OpenError::NotFound => -1i64,
                OpenError::AlreadyExists => -2i64,
                OpenError::Failed => -3i64,
                OpenError::IsADirectory => -4i64,
            }),
    {
        match self {
            OpenError::NotFound => -1,
            OpenError::AlreadyExists => -2,
            OpenError::Failed => -3,
            OpenError::IsADirectory => -4,
        }
    }
}

/// What an open with flags gave: all five words of the reply are reported.
pub fn opened_with(res: SysResult, reply: &Packet) -> (r: Result<Node, OpenError>)
    ensures
        ({
            let status = packet::word_of(reply.area@, 0);
            r == (if res is Err {
                Err(OpenError::Failed)
            } else if status == 0 {
                Ok(node_of(Packet { data_len: 5, ..*reply }))
            } else if status == 2 {
                Err(OpenError::AlreadyExists)
            } else if status == 3 {
                Err(OpenError::IsADirectory)
            } else {
                Err(OpenError::NotFound)
            })
        }),
{
    if res.is_err() {
        return Err(OpenError::Failed);
    }
    let status: u64 = reply.word(0);
    if status == 0 {
        Ok(
            Node {
                cap: reply.handles[0],
                kind: reply.word(1),
                size: reply.word(2),
                mtime: reply.word(3) as u32,
                atime: reply.word(4) as u32,
            },
        )
    } else if status == 2 {
        Err(OpenError::AlreadyExists)
    } else if status == 3 {
        Err(OpenError::IsADirectory)
    } else {
        Err(OpenError::NotFound)
    }
}

/// Cut a file to `size` bytes, under the server's tag for it.
pub fn truncate(tag: u64, size: u64) -> (m: Packet)
    ensures
        m.carries(tag, 1, packet::with_word(packet::blank(), 0, size)),
{
    let mut m = Packet::new(tag);
    m.set_word(0, size);
    m.data_len = 1;
    m
}

/// Set a file's times, under the server's tag for it. The third word says
/// which of the two are meant.
pub fn set_times(tag: u64, mtime: u32, atime: u32, set_m: bool, set_a: bool) -> (m: Packet)
    ensures
        ({
            let which: u64 = if set_m && set_a {
                3
            } else if set_m {
                1
            } else if set_a {
                2
            } else {
                0
            };
            let a = packet::with_word(packet::blank(), 0, mtime as u64);
            m.carries(
                tag,
                3,
                packet::with_word(packet::with_word(a, 1, atime as u64), 2, which),
            )
        }),
{
    let mut m = Packet::new(tag);
    m.set_word(0, mtime as u64);
    m.set_word(1, atime as u64);
    let mut which: u64 = 0;
    if set_m {
        which = which + 1;
    }
    if set_a {
        which = which + 2;
    }
    m.set_word(2, which);
    m.data_len = 3;
    m
}

/// The bytes a reply brings for a buffer of `cap` bytes.
pub open spec fn brought_upto(reply: Packet, cap: int) -> Seq<u8> {
    let n = packet::word_of(reply.area@, 0);
    let k = if n < cap {
        n
    } else {
        cap
    };
    if k <= READ_MAX {
        reply.area@.subrange(8, 8 + k)
    } else {
        reply.area@.subrange(8, 8 + READ_MAX)
    }
}

/// The bytes a reply brings for a buffer of `cap` bytes, never more than the
/// reply can hold.
pub fn bytes_upto(reply: &Packet, cap: usize) -> (v: Vec<u8>)
    ensures
        v@ == brought_upto(*reply, cap as int),
{
    let n: u64 = reply.word(0);
    let mut k: usize = cap;
    if n < k as u64 {
        k = n as usize;
    }
    if k > READ_MAX {
        k = READ_MAX;
    }
    reply.get(8, k)
}

/// What a positioned read of `len` bytes gave.
pub fn pread_reply(res: SysResult, reply: &Packet, len: usize) -> (r: Option<Vec<u8>>)
    ensures
        match r {
            Some(v) => res is Ok && v@ == brought_upto(*reply, len as int),
            None => res is Err,
        },
{
    if res.is_err() {
        None
    } else {
        Some(bytes_upto(reply, len))
    }
}

/// What reading a link into a buffer of `cap` bytes gave: no link is empty.
pub fn readlink_reply(res: SysResult, reply: &Packet, cap: usize) -> (r: Option<Vec<u8>>)
    ensures
        match r {
            Some(v) => {
                &&& res is Ok
                &&& packet::word_of(reply.area@, 0) != 0
                &&& v@ == brought_upto(*reply, cap as int)
            },
            None => res is Err || packet::word_of(reply.area@, 0) == 0,
        },
{
    if res.is_err() || reply.word(0) == 0 {
        None
    } else {
        Some(bytes_upto(reply, cap))
    }
}

/// A positioned write of what fits into one message.
pub fn pwrite(data: &[u8], off: u64) -> (m: Packet)
    ensures
        ({
            let p = packet::first(data@, PWRITE_MAX as int);
            m.carries(TAG_FS_WRITE, packet::words_for(16 + p.len()), write_area(off, p))
        }),
{
    let n: usize = cut(data, PWRITE_MAX);
    let mut m = write_packet(off, slice_subrange(data, 0, n));
    m.data_len = ((16 + n + 7) / 8) as u32;
    m
}

/// How many bytes a positioned write wrote.
pub fn pwrite_reply(res: SysResult, reply: &Packet) -> (r: Option<u64>)
    ensures
        r == (if res is Ok {
            Some(packet::word_of(reply.area@, 0) as u64)
        } else {
            None
        }),
{
    match res {
        Ok(_) => Some(reply.word(0)),
        Err(_) => None,
    }
}

/// The directory that relative paths start from.
#[derive(Clone, Copy, PartialEq, Eq, Structural, Debug)]
pub struct Cwd {
    pub handle: Handle,
}

/// A path without its leading slash.
pub open spec fn relative(path: Seq<u8>) -> Seq<u8> {
    if path.len() > 0 && path[0] == 0x2F {
        path.subrange(1, path.len() as int)
    } else {
        path
    }
}

impl Cwd {
    /// The directory a program starts in.
    pub fn new() -> (c: Cwd)
        ensures
            c.handle == ROOT_DIR,
    {
        Cwd { handle: ROOT_DIR }
    }

    /// What has to be opened, from the starting directory, to go to `path`:
    /// nothing when it is that directory itself.
    pub fn target<'a>(&self, path: &'a [u8]) -> (r: Option<&'a [u8]>)
        ensures
            match r {
                Some(p) => p@ == relative(path@) && p@.len() > 0,
                None => relative(path@).len() == 0,
            },
    {
        let rel: &[u8] = if path.len() > 0 && path[0] == 0x2F {
            slice_subrange(path, 1, path.len())
        } else {
            path
        };
        if rel.len() == 0 {
            None
        } else {
            Some(rel)
        }
    }

    /// Go to `handle`. The directory left is handed back to be closed, unless
    /// the program started in it.
    pub fn change(&mut self, handle: Handle) -> (close: Option<Handle>)
        ensures
            final(self).handle == handle,
            close == (if old(self).handle != ROOT_DIR {
                Some(old(self).handle)
            } else {
                None
            }),
    {
        let left: Handle = self.handle;
        self.handle = handle;
        if left != ROOT_DIR {
            Some(left)
        } else {
            None
        }
    }

    /// Go to what was opened, if it is a directory. What is handed back has to
    /// be closed: the directory left, or what was opened and is none.
    pub fn arrive(&mut self, node: Option<Node>) -> (r: (bool, Option<Handle>))
        ensures
            match node {
                Some(n) => if n.kind == FS_DIR {
                    &&& r.0
                    &&& final(self).handle == n.cap
                    &&& r.1 == (if old(self).handle != ROOT_DIR {
                        Some(old(self).handle)
                    } else {
                        None
                    })
                } else {
                    r == (false, Some(n.cap)) && *final(self) == *old(self)
                },
                None => r == (false, None::<Handle>) && *final(self) == *old(self),
            },
    {
        match node {
            Some(n) => if n.kind == FS_DIR {
                let close = self.change(n.cap);
                (true, close)
            } else {
                (false, Some(n.cap))
            },
            None => (false, None),
        }
    }
}

/// The budget of a child.
pub const CHILD_BUDGET: u64 = 0x80_0000;

/// The message that spawns a child: its budget, its arguments, and the
/// directory, output, input and network it inherits.
pub fn spawn_request(argv: u64, argv_len: u64, cwd: &Cwd, stdout: Handle) -> (m: Packet)
    ensures
        m.tag == 0,
        m.data_len == 3,
        m.handle_count == 4,
        m.handles@ == seq![cwd.handle, stdout, 4u32, BOOT_NET_EP],
        m.area@ == packet::with_word(
            packet::with_word(packet::with_word(packet::blank(), 0, CHILD_BUDGET), 1, argv),
            2,
            argv_len,
        ),
{
    let mut m = Packet::new(0);
    m.set_word(0, CHILD_BUDGET);
    m.set_word(1, argv);
    m.set_word(2, argv_len);
    m.data_len = 3;
    m.handle_count = 4;
    m.handles = [cwd.handle, stdout, 4, BOOT_NET_EP];
    assert(m.handles@ =~= seq![cwd.handle, stdout, 4u32, BOOT_NET_EP]);
    m
}

/// A request for one path fits one message, however long the path is.
pub proof fn law_path_request_fits(path: Seq<u8>)
    ensures
        packet::words_for(packet::first(path, PATH_MAX as int).len() + 1) <= MSG_DATA_WORDS,
{
}

/// A path that holds no NUL and fits arrives as it was given.
pub proof fn law_path_arrives(path: Seq<u8>)
    requires
        path.len() <= PATH_MAX,
        forall|i: int| 0 <= i < path.len() ==> path[i] != 0,
    ensures
        bytes::until_nul(text_area(packet::first(path, PATH_MAX as int))) == path,
{
    let a = text_area(path);
    assert forall|i: int| 0 <= i < path.len() implies a[i] != 0 by {
        assert(path.push(0)[i] == path[i]);
    }
    assert(path.push(0)[path.len() as int] == 0);
    bytes::lemma_nul_index_unique(a, path.len() as int);
    assert(bytes::until_nul(a) =~= path);
}

} // verus!
