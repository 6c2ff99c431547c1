//! Standard output: messages to a terminal, or bytes into a pipe, found out on
//! the first write.
use crate::abi::{SysError, SysResult, TAG_TTY_WRITE};
use crate::rt::fs;
use crate::rt::packet;
use crate::rt::packet::Packet;
use vstd::prelude::*;

verus! {

/// Bytes in one message to a terminal.
pub const TTY_CHUNK: usize = 63;

/// What standard output is.
#[derive(Clone, Copy, PartialEq, Eq, Structural, Debug)]
pub enum Mode {
    /// Nothing was written yet.
    Unknown,
    /// A terminal.
    Tty,
    /// The write end of a pipe.
    Pipe,
}

/// What to do next.
#[derive(Clone, Copy)]
pub enum Step {
    /// Everything is written.
    Done,
    /// Send this message, which carries `n` bytes.
    Send { msg: Packet, n: usize },
    /// Write what is left into the pipe.
    Pipe,
}

/// Standard output.
#[derive(Clone, Copy, PartialEq, Eq, Structural, Debug)]
pub struct Stdout {
    pub mode: Mode,
}

/// How many bytes the message at `off` carries.
pub open spec fn chunk_len(len: int, off: int) -> int {
    if len - off < TTY_CHUNK {
        len - off
    } else {
        TTY_CHUNK as int
    }
}

/// The message for the bytes of `data` at `off`.
pub open spec fn is_chunk(msg: Packet, data: Seq<u8>, off: int) -> bool {
    let n = chunk_len(data.len() as int, off);
    msg.carries(
        TAG_TTY_WRITE,
        packet::words_for((n + 1) as nat),
        fs::text_area(data.subrange(off, off + n)),
    )
}

/// The message for the bytes of `data` at `off`.
fn tty_message(data: &[u8], off: usize, n: usize) -> (m: Packet)
    requires
        n <= TTY_CHUNK,
        off + n <= data.len(),
    ensures
        m.carries(
            TAG_TTY_WRITE,
            packet::words_for((n + 1) as nat),
            fs::text_area(data@.subrange(off as int, off + n)),
        ),
{
    let mut m = Packet::new(TAG_TTY_WRITE);
    let part = vstd::slice::slice_subrange(data, off, off + n);
    m.put(0, part, n);
    assert(part@.subrange(0, n as int) =~= part@);
    m.data_len = ((n + 1 + 7) / 8) as u32;
    assert(m.area@ =~= fs::text_area(part@));
    m
}

impl Stdout {
    /// Standard output of a program that wrote nothing.
    pub fn new() -> (s: Stdout)
        ensures
            s.mode is Unknown,
    {
        Stdout { mode: Mode::Unknown }
    }

    /// What to do with the bytes of `data` from `off` on.
    pub fn next(&self, data: &[u8], off: usize) -> (r: Step)
        ensures
            match r {
                Step::Done => off >= data.len() && self.mode !is Pipe,
                Step::Pipe => self.mode is Pipe,
                Step::Send { msg, n } => {
                    &&& self.mode !is Pipe
                    &&& off < data.len()
                    &&& n == chunk_len(data@.len() as int, off as int)
                    &&& is_chunk(msg, data@, off as int)
                },
            },
    {
        match self.mode {
            Mode::Pipe => Step::Pipe,
            _ => {
                if off >= data.len() {
                    return Step::Done;
                }
                let n: usize = if data.len() - off < TTY_CHUNK {
                    data.len() - off
                } else {
                    TTY_CHUNK
                };
                Step::Send { msg: tty_message(data, off, n), n }
            },
        }
    }

    /// Where to go on after a message of `n` bytes at `off`: behind it when it
    /// was taken; at it when standard output turns out to be a pipe; nowhere
    /// after any other error.
    pub fn sent(&mut self, res: SysResult, off: usize, n: usize) -> (r: Option<usize>)
        requires
            old(self).mode !is Pipe,
            off + n <= usize::MAX,
        ensures
            match res {
                Ok(_) => final(self).mode is Tty && r == Some((off + n) as usize),
                Err(e) => if e is BadType && old(self).mode is Unknown {
                    final(self).mode is Pipe && r == Some(off)
                } else {
                    *final(self) == *old(self) && r is None
                },
            },
    {
        match res {
            Ok(_) => {
                self.mode = Mode::Tty;
                Some(off + n)
            },
            Err(SysError::BadType) => match self.mode {
                Mode::Unknown => {
                    self.mode = Mode::Pipe;
                    Some(off)
                },
                _ => None,
            },
            Err(_) => None,
        }
    }
}

/// Where a write into a pipe goes on after `w` bytes were taken: nowhere when
/// the read end is closed or everything is written.
pub fn pipe_next(len: usize, off: usize, w: usize) -> (r: Option<usize>)
    requires
        off + w <= usize::MAX,
    ensures
        r == (if w != 0 && off + w < len {
            Some((off + w) as usize)
        } else {
            None
        }),
{
    if w == 0 || off + w >= len {
        None
    } else {
        Some(off + w)
    }
}

/// The texts of the messages from `off` on.
pub open spec fn texts(data: Seq<u8>, off: int) -> Seq<u8>
    decreases data.len() - off,
{
    if off < 0 || off >= data.len() {
        Seq::empty()
    } else {
        let n = chunk_len(data.len() as int, off);
        data.subrange(off, off + n) + texts(data, off + n)
    }
}

/// The messages carry everything, in order.
pub proof fn law_output_is_whole(data: Seq<u8>, off: int)
    requires
        0 <= off <= data.len(),
    ensures
        texts(data, off) == data.subrange(off, data.len() as int),
    decreases data.len() - off,
{
    if off < data.len() {
        let n = chunk_len(data.len() as int, off);
        law_output_is_whole(data, off + n);
        assert(data.subrange(off, data.len() as int) =~= data.subrange(off, off + n)
            + data.subrange(off + n, data.len() as int));
    } else {
        assert(data.subrange(off, data.len() as int) =~= Seq::empty());
    }
}

} // verus!
