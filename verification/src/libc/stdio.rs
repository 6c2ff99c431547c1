//! Streams: thin wrappers over descriptors.
use crate::bytes;
use crate::libc::fd;
use crate::libc::fd::{ClosePlan, FdSlot, FdTable};
use crate::libc::string;
use crate::libc::string::content;
use crate::rt::packet;
use vstd::prelude::*;

verus! {

/// Streams at once, besides the three of the terminal.
pub const MAX_FILES: usize = 16;

/// Write only.
pub const O_WRONLY: i32 = 1;

/// Read and write.
pub const O_RDWR: i32 = 2;

/// A stream.
#[derive(Clone, Copy, PartialEq, Eq, Structural, Debug)]
pub struct FILE {
    /// Its descriptor, negative when it is free.
    pub fd: i32,
    /// Whether its end was met.
    pub eof: i32,
}

/// How a mode opens a file, before a plus.
pub open spec fn mode_flags(mode: Seq<u8>) -> i32 {
    if mode.len() > 0 && mode[0] == 0x77 {
        0x241
    } else if mode.len() > 0 && mode[0] == 0x61 {
        0x41
    } else {
        0
    }
}

/// The flags of `mode`, and whether it starts at the end: `r` reads, `w` creates
/// or empties, `a` creates and starts at the end; a plus behind it reads and
/// writes.
pub fn fopen_mode(mode: &[u8]) -> (r: (i32, bool))
    ensures
        ({
            let t = string::text(mode@);
            let plus = exists|i: int| 0 < i < t.len() && #[trigger] t[i] == 0x2B;
            &&& r.0 == (if plus {
                (mode_flags(t) & !O_WRONLY) | O_RDWR
            } else {
                mode_flags(t)
            })
            &&& r.1 == (t.len() > 0 && t[0] == 0x61)
        }),
{
    let t = content(mode);
    if t.len() == 0 {
        return (0, false);
    }
    let append: bool = t[0] == 0x61;
    let flags: i32 = if t[0] == 0x77 {
        0x241
    } else if append {
        0x41
    } else {
        0
    };
    let mut i: usize = 1;
    while i < t.len()
        invariant
            1 <= i <= t.len(),
            t@ == string::text(mode@),
            append == (t@[0] == 0x61),
            flags == mode_flags(t@),
            forall|k: int| 0 < k < i ==> #[trigger] t@[k] != 0x2B,
        decreases t.len() - i,
    {
        if t[i] == 0x2B {
            assert(t@[i as int] == 0x2B);
            return ((flags & !O_WRONLY) | O_RDWR, append);
        }
        i += 1;
    }
    (flags, append)
}

/// The streams of a program.
#[derive(Clone, Copy)]
pub struct Files {
    pub v: [FILE; MAX_FILES],
}

/// The first free stream from `i` on.
pub open spec fn first_free(v: Seq<FILE>, i: int) -> Option<int>
    decreases v.len() - i,
{
    if i < 0 || i >= v.len() {
        None
    } else if v[i].fd < 0 {
        Some(i)
    } else {
        first_free(v, i + 1)
    }
}

impl Files {
    /// No stream in use.
    pub fn new() -> (f: Files)
        ensures
            forall|i: int| 0 <= i < MAX_FILES ==> #[trigger] f.v@[i] == (FILE { fd: -1i32, eof: 0 }),
    {
        Files { v: [FILE { fd: -1, eof: 0 }; MAX_FILES] }
    }

    /// Wrap a descriptor in the first free stream.
    pub fn fdopen(&mut self, fd: i32) -> (r: Option<usize>)
        ensures
            match first_free(old(self).v@, 0) {
                Some(i) => if fd >= 0 {
                    &&& r == Some(i as usize)
                    &&& final(self).v@ == old(self).v@.update(i, FILE { fd, eof: 0 })
                } else {
                    r is None && final(self).v@ == old(self).v@
                },
                None => r is None && final(self).v@ == old(self).v@,
            },
    {
        if fd < 0 {
            return None;
        }
        let mut i: usize = 0;
        while i < MAX_FILES
            invariant
                i <= MAX_FILES,
                *self == *old(self),
                fd >= 0,
                first_free(self.v@, 0) == first_free(self.v@, i as int),
            decreases MAX_FILES - i,
        {
            if self.v[i].fd < 0 {
                self.v[i] = FILE { fd, eof: 0 };
                return Some(i);
            }
            i += 1;
        }
        None
    }
}

impl FILE {
    /// Close the stream: the descriptor that has to be closed, unless it is the
    /// terminal's.
    pub fn fclose(&mut self) -> (r: Option<i32>)
        ensures
            if old(self).fd >= 3 {
                r == Some(old(self).fd) && *final(self) == (FILE { fd: -1i32, ..*old(self) })
            } else {
                r is None && *final(self) == *old(self)
            },
    {
        if self.fd >= 3 {
            let fd: i32 = self.fd;
            self.fd = -1;
            Some(fd)
        } else {
            None
        }
    }

    /// One character was read, or the end was met.
    pub fn fgetc(&mut self, got: Option<u8>) -> (c: i32)
        ensures
            match got {
                Some(b) => c == b && *final(self) == *old(self),
                None => c == -1 && *final(self) == (FILE { eof: 1, ..*old(self) }),
            },
    {
        match got {
            Some(b) => b as i32,
            None => {
                self.eof = 1;
                -1
            },
        }
    }

    /// A seek was made; one that went through forgets that the end was met.
    pub fn fseek(&mut self, at: i64) -> (r: i32)
        ensures
            if at < 0 {
                r == -1 && *final(self) == *old(self)
            } else {
                r == 0 && *final(self) == (FILE { eof: 0, ..*old(self) })
            },
    {
        if at < 0 {
            -1
        } else {
            self.eof = 0;
            0
        }
    }
}

/// The descriptor of a stream, -1 of none.
pub fn fileno(stream: Option<&FILE>) -> (fd: i32)
    ensures
        fd == (match stream {
            Some(f) => f.fd,
            None => -1i32,
        }),
{
    match stream {
        Some(f) => f.fd,
        None => -1,
    }
}

/// Whether a stream has met the end of its input.
pub fn feof(stream: Option<&FILE>) -> (v: i32)
    ensures
        v == (match stream {
            Some(f) => f.eof,
            None => 0,
        }),
{
    match stream {
        Some(f) => f.eof,
        None => 0,
    }
}

/// How many of the bytes at hand a line takes: up to its line feed, and no more
/// than `n - 1`.
pub open spec fn line_len(input: Seq<u8>, n: int) -> int {
    let nl = bytes::first_of(input, 0x0A);
    let whole = if nl < input.len() {
        nl + 1
    } else {
        nl
    };
    if whole < n - 1 {
        whole
    } else {
        n - 1
    }
}

/// How many of the bytes at hand a line takes; nothing at the end of input or
/// where there is no room.
pub fn fgets(input: &[u8], n: i32) -> (r: Option<usize>)
    ensures
        r == (if n <= 0 || line_len(input@, n as int) == 0 {
            None
        } else {
            Some(line_len(input@, n as int) as usize)
        }),
{
    proof {
        bytes::lemma_first_of(input@, 0x0A);
    }
    if n <= 0 {
        return None;
    }
    let max: usize = (n - 1) as usize;
    let mut i: usize = 0;
    let mut over: bool = false;
    while i < max && i < input.len() && !over
        invariant
            i <= max,
            i <= input.len(),
            over ==> i > 0 && input@[i - 1] == 0x0A,
            forall|k: int|
                0 <= k < i && !(over && k == i - 1) ==> #[trigger] input@[k] != 0x0A,
        decreases input.len() - i,
    {
        if input[i] == 0x0A {
            over = true;
        }
        i += 1;
    }
    proof {
        let nl = bytes::first_of(input@, 0x0A);
        if over {
            bytes::lemma_first_of_unique(input@, 0x0A, i - 1);
        } else if i == input.len() {
            bytes::lemma_first_of_unique(input@, 0x0A, i as int);
        } else {
            assert(i == max);
            if nl < i {
                assert(input@[nl] != 0x0A);
            }
        }
    }
    if i == 0 {
        None
    } else {
        Some(i)
    }
}

/// The table with a descriptor moved to the end of its file.
pub open spec fn at_end(s: Seq<FdSlot>, fd: i32) -> Seq<FdSlot> {
    if fd::is_open(s, fd) {
        s.update(fd as int, FdSlot { off: s[fd as int].size, ..s[fd as int] })
    } else {
        s
    }
}

/// Wrap what was opened in a stream, at its end if `append`. When no stream is
/// free the descriptor is closed again, with what it held.
pub fn fopen(files: &mut Files, t: &mut FdTable, fd: i32, append: bool) -> (r: (
    Option<usize>,
    ClosePlan,
))
    requires
        fd < fd::EPOLL_FD_BASE,
        fd::is_open(old(t).slots@, fd) ==> old(t).slots@[fd as int].off <= i64::MAX && old(
            t,
        ).slots@[fd as int].size <= i64::MAX,
    ensures
        ({
            let s = if append {
                at_end(old(t).slots@, fd)
            } else {
                old(t).slots@
            };
            if fd < 0 {
                &&& r == (None::<usize>, ClosePlan::Nothing)
                &&& final(files).v@ == old(files).v@
                &&& final(t).slots@ == old(t).slots@
            } else {
                match first_free(old(files).v@, 0) {
                    Some(i) => {
                        &&& r == (Some(i as usize), ClosePlan::Nothing)
                        &&& final(files).v@ == old(files).v@.update(i, FILE { fd, eof: 0 })
                        &&& final(t).slots@ == s
                    },
                    None => {
                        &&& r.0 is None
                        &&& r.1 == FdTable::closing(s, fd)
                        &&& final(files).v@ == old(files).v@
                        &&& final(t).slots@ == FdTable::closed(s, fd)
                    },
                }
            }
        }),
{
    if fd < 0 {
        return (None, ClosePlan::Nothing);
    }
    if append {
        t.lseek(fd, 0, 2);
    }
    match files.fdopen(fd) {
        Some(i) => (Some(i), ClosePlan::Nothing),
        None => (None, t.close(fd)),
    }
}

/// Go on with a read of `total` bytes of which `done` are there, given what the
/// last read brought: how many are there, and whether to read again.
pub fn fread(done: usize, total: usize, got: i64) -> (r: (usize, bool))
    requires
        done <= total,
        got <= total - done,
    ensures
        r.0 == (if got > 0 {
            done + got
        } else {
            done as int
        }),
        r.1 == (got > 0 && done + got < total),
{
    if got <= 0 {
        return (done, false);
    }
    let now: usize = done + got as usize;
    (now, now < total)
}

/// How many whole items some bytes are.
pub fn items(done: usize, size: usize) -> (n: usize)
    ensures
        n == (if size == 0 {
            0
        } else {
            done as int / size as int
        }),
{
    if size == 0 {
        0
    } else {
        done / size
    }
}

/// Put the only directory there is into a buffer. `false` when it does not fit.
pub fn getcwd(buf: &mut [u8]) -> (ok: bool)
    ensures
        ok == (old(buf).len() >= 2),
        final(buf)@ == (if ok {
            packet::written(old(buf)@, 0, seq![0x2Fu8, 0u8])
        } else {
            old(buf)@
        }),
{
    if buf.len() < 2 {
        return false;
    }
    buf[0] = 0x2F;
    buf[1] = 0;
    assert(buf@ =~= packet::written(old(buf)@, 0, seq![0x2Fu8, 0u8]));
    true
}

/// A line ends at its line feed or fills its room; nothing behind a line feed is
/// taken.
pub proof fn law_line_stops(input: Seq<u8>, n: int, i: int)
    requires
        n > 0,
        0 <= i < line_len(input, n) - 1,
    ensures
        line_len(input, n) <= input.len(),
        input[i] != 0x0A,
{
    bytes::lemma_first_of(input, 0x0A);
}

} // verus!
