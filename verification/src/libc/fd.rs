//! File descriptors over capabilities. Descriptors 0 to 2 are the terminal; the
//! others index a table whose slots hold a file, a socket, a channel or shared
//! memory.
use crate::abi::{Handle, CAP_CHANNEL, CAP_SHM, FS_FILE};
use crate::rt::fs::Node;
use vstd::prelude::*;

verus! {

/// Size of the table.
pub const MAX_FD: usize = 32;

/// First descriptor of the table that is handed out.
pub const FIRST_FD: usize = 3;

/// First number of the readiness multiplexers, which have a table of their own.
pub const EPOLL_FD_BASE: i32 = 1000;

/// Bytes of a file that one read brings.
pub const READ_CHUNK: usize = 56;

/// Capabilities that one message passes.
pub const PASS_MAX: usize = 8;

/// Create the file, or cut it.
pub const O_CREAT: i32 = 0x40;

/// Cut the file.
pub const O_TRUNC: i32 = 0x200;

/// Do not wait.
pub const O_NONBLOCK: i64 = 0x800;

/// What a descriptor stands for.
#[derive(Clone, Copy, PartialEq, Eq, Structural, Debug)]
pub enum FdKind {
    /// A file, or a counter.
    File,
    /// A socket; its handle is zero until it is connected.
    Sock,
    /// One end of a channel.
    Chan,
    /// Shared memory; its handle is zero until it has a size.
    Shm,
}

/// One descriptor.
#[derive(Clone, Copy, PartialEq, Eq, Structural, Debug)]
pub struct FdSlot {
    pub handle: Handle,
    /// Where the next read or write goes; the count of a counter.
    pub off: u64,
    /// How far the file reaches.
    pub size: u64,
    pub used: bool,
    /// Reads of a channel do not wait.
    pub nonblock: bool,
    pub kind: FdKind,
}

/// The descriptors of a program.
#[derive(Clone, Copy)]
pub struct FdTable {
    pub slots: [FdSlot; MAX_FD],
}

/// A slot in use at its start.
pub open spec fn fresh(kind: FdKind, handle: Handle, off: u64, size: u64) -> FdSlot {
    FdSlot { handle, off, size, used: true, nonblock: false, kind }
}

/// The kind of descriptor of a capability, by its own kind.
pub open spec fn kind_of(cap_kind: u64) -> FdKind {
    if cap_kind == CAP_CHANNEL {
        FdKind::Chan
    } else if cap_kind == CAP_SHM {
        FdKind::Shm
    } else {
        FdKind::File
    }
}

/// The first free slot from `from` on.
pub open spec fn lowest_free(s: Seq<FdSlot>, from: int) -> Option<int>
    decreases s.len() - from,
{
    if from < 0 || from >= s.len() {
        None
    } else if !s[from].used {
        Some(from)
    } else {
        lowest_free(s, from + 1)
    }
}

/// The descriptor that a new slot gets, and the table with it: -1 and the table
/// as it was when no slot is free.
pub open spec fn installed(s: Seq<FdSlot>, from: int, slot: FdSlot) -> (i32, Seq<FdSlot>) {
    match lowest_free(s, from) {
        Some(i) => (i as i32, s.update(i, slot)),
        None => (-1i32, s),
    }
}

/// `fd` is a descriptor of the table in use.
pub open spec fn is_open(s: Seq<FdSlot>, fd: i32) -> bool {
    FIRST_FD <= fd < MAX_FD && s[fd as int].used
}

/// What to do to read.
#[derive(Clone, Copy, PartialEq, Eq, Structural, Debug)]
pub enum ReadPlan {
    Bad,
    Channel { handle: Handle, nonblock: bool },
    Socket { handle: Handle },
    File { handle: Handle, off: u64 },
}

/// What to do to write.
#[derive(Clone, Copy, PartialEq, Eq, Structural, Debug)]
pub enum WritePlan {
    Bad,
    Terminal,
    Channel { handle: Handle },
    Socket { handle: Handle },
    File { handle: Handle, off: u64 },
}

/// What to close.
#[derive(Clone, Copy, PartialEq, Eq, Structural, Debug)]
pub enum ClosePlan {
    Nothing,
    Epoll,
    Channel { handle: Handle },
    Socket { handle: Handle },
    Capability { handle: Handle },
}

impl FdTable {
    /// A table of which nothing is used.
    pub fn new() -> (t: FdTable)
        ensures
            forall|i: int| 0 <= i < MAX_FD ==> !(#[trigger] t.slots@[i]).used,
    {
        let slot = FdSlot {
            handle: 0,
            off: 0,
            size: 0,
            used: false,
            nonblock: false,
            kind: FdKind::File,
        };
        FdTable { slots: [slot; MAX_FD] }
    }

    /// Put a slot at the first free place from `from` on.
    pub fn install(&mut self, from: usize, slot: FdSlot) -> (fd: i32)
        ensures
            (fd, final(self).slots@) == installed(old(self).slots@, from as int, slot),
    {
        let mut i: usize = from;
        while i < MAX_FD
            invariant
                *self == *old(self),
                from <= i,
                lowest_free(self.slots@, i as int) == lowest_free(self.slots@, from as int),
            decreases MAX_FD - i,
        {
            if !self.slots[i].used {
                self.slots[i] = slot;
                return i as i32;
            }
            i += 1;
        }
        -1
    }

    /// Whether a descriptor of the table is in use.
    pub fn open_slot(&self, fd: i32) -> (b: bool)
        ensures
            b == is_open(self.slots@, fd),
    {
        fd >= FIRST_FD as i32 && fd < MAX_FD as i32 && self.slots[fd as usize].used
    }

    /// A file that was opened gets a descriptor. When none is free its
    /// capability is handed back to be closed.
    pub fn adopt(&mut self, cap: Handle, size: u64) -> (r: (i32, Option<Handle>))
        ensures
            (r.0, final(self).slots@) == installed(
                old(self).slots@,
                FIRST_FD as int,
                fresh(FdKind::File, cap, 0, size),
            ),
            r.1 == (if r.0 < 0 {
                Some(cap)
            } else {
                None
            }),
    {
        let fd: i32 = self.install(
            FIRST_FD,
            FdSlot {
                handle: cap,
                off: 0,
                size,
                used: true,
                nonblock: false,
                kind: FdKind::File,
            },
        );
        if fd < 0 {
            (fd, Some(cap))
        } else {
            (fd, None)
        }
    }

    /// A node that was opened gets a descriptor if it is a file.
    pub fn adopt_node(&mut self, node: Node) -> (r: (i32, Option<Handle>))
        ensures
            node.kind == FS_FILE ==> {
                &&& (r.0, final(self).slots@) == installed(
                    old(self).slots@,
                    FIRST_FD as int,
                    fresh(FdKind::File, node.cap, 0, node.size),
                )
                &&& r.1 == (if r.0 < 0 {
                    Some(node.cap)
                } else {
                    None
                })
            },
            node.kind != FS_FILE ==> r == (-1i32, Some(node.cap)) && *final(self) == *old(self),
    {
        if node.kind == FS_FILE {
            self.adopt(node.cap, node.size)
        } else {
            (-1, Some(node.cap))
        }
    }

    /// A capability that was received gets a descriptor of its kind.
    pub fn alloc_cap_fd(&mut self, handle: Handle, cap_kind: u64) -> (fd: i32)
        ensures
            (fd, final(self).slots@) == installed(
                old(self).slots@,
                FIRST_FD as int,
                fresh(kind_of(cap_kind), handle, 0, 0),
            ),
    {
        let kind = if cap_kind == CAP_CHANNEL {
            FdKind::Chan
        } else if cap_kind == CAP_SHM {
            FdKind::Shm
        } else {
            FdKind::File
        };
        self.install(
            FIRST_FD,
            FdSlot { handle, off: 0, size: 0, used: true, nonblock: false, kind },
        )
    }

    /// A new socket: only streams over IPv4.
    pub fn socket(&mut self, domain: i32, ty: i32) -> (fd: i32)
        ensures
            if domain == 2 && ty == 1 {
                (fd, final(self).slots@) == installed(
                    old(self).slots@,
                    FIRST_FD as int,
                    fresh(FdKind::Sock, 0, 0, 0),
                )
            } else {
                fd == -1 && *final(self) == *old(self)
            },
    {
        if domain != 2 || ty != 1 {
            return -1;
        }
        self.install(
            FIRST_FD,
            FdSlot {
                handle: 0,
                off: 0,
                size: 0,
                used: true,
                nonblock: false,
                kind: FdKind::Sock,
            },
        )
    }

    /// Whether a descriptor is a socket that can be connected, sent to or read.
    pub fn is_socket(&self, fd: i32) -> (b: bool)
        ensures
            b == (is_open(self.slots@, fd) && self.slots@[fd as int].kind is Sock),
    {
        if !self.open_slot(fd) {
            return false;
        }
        match self.slots[fd as usize].kind {
            FdKind::Sock => true,
            _ => false,
        }
    }

    /// A socket is connected.
    pub fn connected(&mut self, fd: i32, sock: Handle)
        requires
            is_open(old(self).slots@, fd),
        ensures
            final(self).slots@ == old(self).slots@.update(
                fd as int,
                FdSlot { handle: sock, ..old(self).slots@[fd as int] },
            ),
    {
        let mut s = self.slots[fd as usize];
        s.handle = sock;
        self.slots[fd as usize] = s;
    }

    /// The two ends of a channel get descriptors: both, or -1.
    pub fn socketpair(&mut self, h0: Handle, h1: Handle) -> (r: Option<(i32, i32)>)
        ensures
            ({
                let a = installed(
                    old(self).slots@,
                    FIRST_FD as int,
                    fresh(FdKind::Chan, h0, 0, 0),
                );
                let b = installed(a.1, FIRST_FD as int, fresh(FdKind::Chan, h1, 0, 0));
                &&& final(self).slots@ == b.1
                &&& r == (if a.0 < 0 || b.0 < 0 {
                    None
                } else {
                    Some((a.0, b.0))
                })
            }),
    {
        let a: i32 = self.alloc_cap_fd(h0, CAP_CHANNEL);
        let b: i32 = self.alloc_cap_fd(h1, CAP_CHANNEL);
        if a < 0 || b < 0 {
            None
        } else {
            Some((a, b))
        }
    }

    /// What to do to read from a descriptor.
    pub fn read(&self, fd: i32) -> (p: ReadPlan)
        ensures
            p == (if !is_open(self.slots@, fd) {
                ReadPlan::Bad
            } else {
                let s = self.slots@[fd as int];
                match s.kind {
                    FdKind::Chan => ReadPlan::Channel { handle: s.handle, nonblock: s.nonblock },
                    FdKind::Sock => ReadPlan::Socket { handle: s.handle },
                    _ => ReadPlan::File { handle: s.handle, off: s.off },
                }
            }),
    {
        if !self.open_slot(fd) {
            return ReadPlan::Bad;
        }
        let s = self.slots[fd as usize];
        match s.kind {
            FdKind::Chan => ReadPlan::Channel { handle: s.handle, nonblock: s.nonblock },
            FdKind::Sock => ReadPlan::Socket { handle: s.handle },
            _ => ReadPlan::File { handle: s.handle, off: s.off },
        }
    }

    /// `got` bytes were read from a file.
    pub fn read_done(&mut self, fd: i32, got: u64)
        requires
            is_open(old(self).slots@, fd),
            old(self).slots@[fd as int].off + got <= u64::MAX,
        ensures
            final(self).slots@ == old(self).slots@.update(
                fd as int,
                FdSlot {
                    off: (old(self).slots@[fd as int].off + got) as u64,
                    ..old(self).slots@[fd as int]
                },
            ),
    {
        let mut s = self.slots[fd as usize];
        s.off = s.off + got;
        self.slots[fd as usize] = s;
    }

    /// What to do to write to a descriptor.
    pub fn write(&self, fd: i32) -> (p: WritePlan)
        ensures
            p == (if fd == 1 || fd == 2 {
                WritePlan::Terminal
            } else if !is_open(self.slots@, fd) {
                WritePlan::Bad
            } else {
                let s = self.slots@[fd as int];
                match s.kind {
                    FdKind::Chan => WritePlan::Channel { handle: s.handle },
                    FdKind::Sock => WritePlan::Socket { handle: s.handle },
                    _ => WritePlan::File { handle: s.handle, off: s.off },
                }
            }),
    {
        if fd == 1 || fd == 2 {
            return WritePlan::Terminal;
        }
        if !self.open_slot(fd) {
            return WritePlan::Bad;
        }
        let s = self.slots[fd as usize];
        match s.kind {
            FdKind::Chan => WritePlan::Channel { handle: s.handle },
            FdKind::Sock => WritePlan::Socket { handle: s.handle },
            _ => WritePlan::File { handle: s.handle, off: s.off },
        }
    }

    /// `wrote` bytes were written to a file, which grows when it has to.
    pub fn write_done(&mut self, fd: i32, wrote: u64)
        requires
            is_open(old(self).slots@, fd),
            old(self).slots@[fd as int].off + wrote <= u64::MAX,
        ensures
            ({
                let s = old(self).slots@[fd as int];
                let off = (s.off + wrote) as u64;
                final(self).slots@ == old(self).slots@.update(
                    fd as int,
                    FdSlot {
                        off,
                        size: if off > s.size {
                            off
                        } else {
                            s.size
                        },
                        ..s
                    },
                )
            }),
    {
        let mut s = self.slots[fd as usize];
        s.off = s.off + wrote;
        if s.off > s.size {
            s.size = s.off;
        }
        self.slots[fd as usize] = s;
    }

    /// What has to be closed with a descriptor.
    pub open spec fn closing(s: Seq<FdSlot>, fd: i32) -> ClosePlan {
        let slot = s[fd as int];
        if fd >= EPOLL_FD_BASE {
            ClosePlan::Epoll
        } else if !is_open(s, fd) {
            ClosePlan::Nothing
        } else {
            match slot.kind {
                FdKind::Chan => ClosePlan::Channel { handle: slot.handle },
                FdKind::Sock => if slot.handle != 0 {
                    ClosePlan::Socket { handle: slot.handle }
                } else {
                    ClosePlan::Nothing
                },
                _ => ClosePlan::Capability { handle: slot.handle },
            }
        }
    }

    /// The table without a descriptor.
    pub open spec fn closed(s: Seq<FdSlot>, fd: i32) -> Seq<FdSlot> {
        if is_open(s, fd) {
            s.update(
                fd as int,
                FdSlot { used: false, nonblock: false, kind: FdKind::File, ..s[fd as int] },
            )
        } else {
            s
        }
    }

    /// Close a descriptor: its slot is free again, and what it held has to be
    /// closed. A descriptor that is none is no error.
    pub fn close(&mut self, fd: i32) -> (p: ClosePlan)
        ensures
            p == Self::closing(old(self).slots@, fd),
            final(self).slots@ == Self::closed(old(self).slots@, fd),
    {
        if fd >= EPOLL_FD_BASE {
            return ClosePlan::Epoll;
        }
        if !self.open_slot(fd) {
            return ClosePlan::Nothing;
        }
        let s = self.slots[fd as usize];
        self.slots[fd as usize] = FdSlot {
            handle: s.handle,
            off: s.off,
            size: s.size,
            used: false,
            nonblock: false,
            kind: FdKind::File,
        };
        match s.kind {
            FdKind::Chan => ClosePlan::Channel { handle: s.handle },
            FdKind::Sock => if s.handle != 0 {
                ClosePlan::Socket { handle: s.handle }
            } else {
                ClosePlan::Nothing
            },
            _ => ClosePlan::Capability { handle: s.handle },
        }
    }

    /// Duplicate a descriptor at or above a number, set or report whether its
    /// reads wait. Everything else succeeds and does nothing.
    pub fn fcntl(&mut self, fd: i32, cmd: i32, arg: i64) -> (r: i32)
        ensures
            ({
                let s = old(self).slots@;
                if cmd == 0 || cmd == 1030 {
                    if is_open(s, fd) {
                        let from = if arg >= FIRST_FD {
                            arg as int
                        } else {
                            FIRST_FD as int
                        };
                        (r, final(self).slots@) == installed(s, from, s[fd as int])
                    } else {
                        r == -1 && final(self).slots@ == s
                    }
                } else if cmd == 4 && is_open(s, fd) {
                    r == 0 && final(self).slots@ == s.update(
                        fd as int,
                        FdSlot { nonblock: arg & O_NONBLOCK != 0, ..s[fd as int] },
                    )
                } else {
                    &&& final(self).slots@ == s
                    &&& r == (if cmd == 3 && is_open(s, fd) && s[fd as int].nonblock {
                        0x800
                    } else {
                        0int
                    })
                }
            }),
    {
        if cmd == 0 || cmd == 1030 {
            if !self.open_slot(fd) {
                return -1;
            }
            let s = self.slots[fd as usize];
            let from: usize = if arg < FIRST_FD as i64 {
                FIRST_FD
            } else if arg < MAX_FD as i64 {
                arg as usize
            } else {
                return -1;
            };
            return self.install(from, s);
        }
        if self.open_slot(fd) {
            let mut s = self.slots[fd as usize];
            if cmd == 4 {
                s.nonblock = arg & O_NONBLOCK != 0;
                self.slots[fd as usize] = s;
            } else if cmd == 3 {
                return if s.nonblock {
                    0x800
                } else {
                    0
                };
            }
        }
        0
    }

    /// Where a seek starts from.
    pub open spec fn seek_base(s: FdSlot, whence: i32) -> Option<int> {
        if whence == 0 {
            Some(0)
        } else if whence == 1 {
            Some(s.off as int)
        } else if whence == 2 {
            Some(s.size as int)
        } else {
            None
        }
    }

    /// Set where the next read or write goes: from the start, from there, or
    /// from the end. Nothing lies before the start.
    pub fn lseek(&mut self, fd: i32, off: i64, whence: i32) -> (r: i64)
        requires
            is_open(old(self).slots@, fd) ==> {
                let s = old(self).slots@[fd as int];
                &&& s.off <= i64::MAX
                &&& s.size <= i64::MAX
                &&& Self::seek_base(s, whence) matches Some(b) ==> b + off <= i64::MAX
            },
        ensures
            ({
                let s = old(self).slots@[fd as int];
                let base = Self::seek_base(s, whence);
                if is_open(old(self).slots@, fd) && base is Some && base->0 + off >= 0 {
                    &&& r == base->0 + off
                    &&& final(self).slots@ == old(self).slots@.update(
                        fd as int,
                        FdSlot { off: r as u64, ..s },
                    )
                } else {
                    r == -1 && final(self).slots@ == old(self).slots@
                }
            }),
    {
        if !self.open_slot(fd) {
            return -1;
        }
        let mut s = self.slots[fd as usize];
        let base: i64 = if whence == 0 {
            0
        } else if whence == 1 {
            s.off as i64
        } else if whence == 2 {
            s.size as i64
        } else {
            return -1;
        };
        let target: i64 = base + off;
        if target < 0 {
            return -1;
        }
        s.off = target as u64;
        self.slots[fd as usize] = s;
        target
    }

    /// A new counter.
    pub fn eventfd(&mut self, initval: u32) -> (fd: i32)
        ensures
            (fd, final(self).slots@) == installed(
                old(self).slots@,
                FIRST_FD as int,
                fresh(FdKind::File, 0, initval as u64, 0),
            ),
    {
        self.install(
            FIRST_FD,
            FdSlot {
                handle: 0,
                off: initval as u64,
                size: 0,
                used: true,
                nonblock: false,
                kind: FdKind::File,
            },
        )
    }

    /// Take the count of a counter.
    pub fn eventfd_read(&mut self, fd: i32) -> (r: Option<u64>)
        ensures
            ({
                let s = old(self).slots@;
                if is_open(s, fd) {
                    &&& r == Some(s[fd as int].off)
                    &&& final(self).slots@ == s.update(
                        fd as int,
                        FdSlot { off: 0, ..s[fd as int] },
                    )
                } else {
                    r is None && final(self).slots@ == s
                }
            }),
    {
        if !self.open_slot(fd) {
            return None;
        }
        let mut s = self.slots[fd as usize];
        let v: u64 = s.off;
        s.off = 0;
        self.slots[fd as usize] = s;
        Some(v)
    }

    /// Add to a counter, which wraps.
    pub fn eventfd_write(&mut self, fd: i32, value: u64) -> (r: i32)
        ensures
            ({
                let s = old(self).slots@;
                if is_open(s, fd) {
                    &&& r == 0
                    &&& final(self).slots@ == s.update(
                        fd as int,
                        FdSlot {
                            off: ((s[fd as int].off + value) % 0x1_0000_0000_0000_0000) as u64,
                            ..s[fd as int]
                        },
                    )
                } else {
                    r == -1 && final(self).slots@ == s
                }
            }),
    {
        if !self.open_slot(fd) {
            return -1;
        }
        let mut s = self.slots[fd as usize];
        s.off = s.off.wrapping_add(value);
        self.slots[fd as usize] = s;
        0
    }

    /// New shared memory without a size.
    pub fn memfd_create(&mut self) -> (fd: i32)
        ensures
            (fd, final(self).slots@) == installed(
                old(self).slots@,
                FIRST_FD as int,
                fresh(FdKind::Shm, 0, 0, 0),
            ),
    {
        self.install(
            FIRST_FD,
            FdSlot {
                handle: 0,
                off: 0,
                size: 0,
                used: true,
                nonblock: false,
                kind: FdKind::Shm,
            },
        )
    }

    /// How many pages of shared memory have to be made to give a descriptor
    /// `length` bytes: nothing when it has a size already or is none.
    pub fn ftruncate(&self, fd: i32, length: i64) -> (r: Option<u64>)
        ensures
            ({
                let s = self.slots@[fd as int];
                r == (if is_open(self.slots@, fd) && s.kind is Shm && s.handle == 0 && length > 0 {
                    Some(((length + 4095) / 4096) as u64)
                } else {
                    None
                })
            }),
    {
        if !self.open_slot(fd) {
            return None;
        }
        let s = self.slots[fd as usize];
        match s.kind {
            FdKind::Shm => if s.handle == 0 && length > 0 {
                Some((length as u64 + 4095) / 4096)
            } else {
                None
            },
            _ => None,
        }
    }

    /// Shared memory was made for a descriptor.
    pub fn sized(&mut self, fd: i32, handle: Handle, length: u64)
        requires
            is_open(old(self).slots@, fd),
        ensures
            final(self).slots@ == old(self).slots@.update(
                fd as int,
                FdSlot { handle, size: length, ..old(self).slots@[fd as int] },
            ),
    {
        let mut s = self.slots[fd as usize];
        s.handle = handle;
        s.size = length;
        self.slots[fd as usize] = s;
    }

    /// The shared memory that a mapping of a descriptor maps.
    pub fn shared_memory(&self, fd: i32) -> (r: Option<Handle>)
        ensures
            ({
                let s = self.slots@[fd as int];
                r == (if is_open(self.slots@, fd) && s.kind is Shm && s.handle != 0 {
                    Some(s.handle)
                } else {
                    None
                })
            }),
    {
        if !self.open_slot(fd) {
            return None;
        }
        let s = self.slots[fd as usize];
        match s.kind {
            FdKind::Shm => if s.handle != 0 {
                Some(s.handle)
            } else {
                None
            },
            _ => None,
        }
    }

    /// The capabilities behind some descriptors, those that are none left out.
    pub open spec fn backing(s: Seq<FdSlot>, fds: Seq<i32>) -> Seq<Handle>
        decreases fds.len(),
    {
        if fds.len() == 0 {
            Seq::empty()
        } else {
            let rest = Self::backing(s, fds.drop_last());
            let fd = fds.last();
            if 0 <= fd < MAX_FD && s[fd as int].used {
                rest.push(s[fd as int].handle)
            } else {
                rest
            }
        }
    }

    /// The capabilities that a message passes for some descriptors: those of
    /// the first few.
    pub fn passed(&self, fds: &[i32]) -> (v: Vec<Handle>)
        ensures
            v@ == Self::backing(
                self.slots@,
                fds@.subrange(
                    0,
                    if fds@.len() < PASS_MAX {
                        fds@.len() as int
                    } else {
                        PASS_MAX as int
                    },
                ),
            ),
    {
        let n: usize = if fds.len() < PASS_MAX {
            fds.len()
        } else {
            PASS_MAX
        };
        let mut v: Vec<Handle> = Vec::new();
        let mut i: usize = 0;
        assert(fds@.subrange(0, 0) =~= Seq::empty());
        assert(v@ =~= Self::backing(self.slots@, fds@.subrange(0, 0)));
        while i < n
            invariant
                i <= n <= fds.len(),
                v@ == Self::backing(self.slots@, fds@.subrange(0, i as int)),
            decreases n - i,
        {
            let fd: i32 = fds[i];
            assert(fds@.subrange(0, i + 1).drop_last() =~= fds@.subrange(0, i as int));
            if fd >= 0 && fd < MAX_FD as i32 && self.slots[fd as usize].used {
                v.push(self.slots[fd as usize].handle);
            }
            i += 1;
        }
        v
    }
}

/// The result of a write: an error only when nothing of something was written.
pub fn write_result(w: usize, len: usize) -> (r: Option<usize>)
    ensures
        r == (if w == 0 && len > 0 {
            None
        } else {
            Some(w)
        }),
{
    if w == 0 && len > 0 {
        None
    } else {
        Some(w)
    }
}

/// Where output of the C library goes: to the terminal, to a file, or nowhere.
#[derive(Clone, Copy, PartialEq, Eq, Structural, Debug)]
pub enum Output {
    Terminal,
    File,
    Nowhere,
}

/// Where output to a descriptor goes.
pub fn out_fd(fd: i32) -> (o: Output)
    ensures
        o == (if fd == 1 || fd == 2 {
            Output::Terminal
        } else if fd >= 3 {
            Output::File
        } else {
            Output::Nowhere
        }),
{
    if fd == 1 || fd == 2 {
        Output::Terminal
    } else if fd >= 3 {
        Output::File
    } else {
        Output::Nowhere
    }
}

/// How a path is opened.
#[derive(Clone, Copy, PartialEq, Eq, Structural, Debug)]
pub enum OpenPlan {
    /// Not at all.
    Refuse,
    /// Created, or emptied.
    Create,
    /// As it is.
    Open,
}

/// How a path of `len` bytes is opened with some flags.
pub fn open_plan(len: usize, flags: i32) -> (p: OpenPlan)
    ensures
        p == (if len == 0 {
            OpenPlan::Refuse
        } else if flags & (O_CREAT | O_TRUNC) != 0 {
            OpenPlan::Create
        } else {
            OpenPlan::Open
        }),
{
    if len == 0 {
        OpenPlan::Refuse
    } else if flags & (O_CREAT | O_TRUNC) != 0 {
        OpenPlan::Create
    } else {
        OpenPlan::Open
    }
}

/// Where the first free slot is: free, with none free before it.
pub proof fn lemma_lowest_free(s: Seq<FdSlot>, from: int)
    requires
        0 <= from,
    ensures
        match lowest_free(s, from) {
            Some(i) => {
                &&& from <= i < s.len()
                &&& !s[i].used
                &&& forall|j: int| from <= j < i ==> (#[trigger] s[j]).used
            },
            None => forall|j: int| from <= j < s.len() ==> (#[trigger] s[j]).used,
        },
    decreases s.len() - from,
{
    if from < s.len() && s[from].used {
        lemma_lowest_free(s, from + 1);
    }
}

/// A new descriptor is the lowest that was free, and disturbs no other.
pub proof fn law_lowest_descriptor(s: Seq<FdSlot>, slot: FdSlot, j: int)
    requires
        s.len() == MAX_FD,
        0 <= j < MAX_FD,
    ensures
        ({
            let (fd, t) = installed(s, FIRST_FD as int, slot);
            &&& fd >= 0 ==> FIRST_FD <= fd < MAX_FD && !s[fd as int].used && t[fd as int] == slot
            &&& fd >= 0 && FIRST_FD <= j < fd ==> s[j].used
            &&& fd < 0 && FIRST_FD <= j ==> s[j].used
            &&& j != fd ==> t[j] == s[j]
        }),
{
    lemma_lowest_free(s, FIRST_FD as int);
}

/// A descriptor that is closed is no longer open, and its number is the next to
/// be handed out unless a lower one is free.
pub proof fn law_closed_is_reused(s: Seq<FdSlot>, fd: i32, slot: FdSlot)
    requires
        s.len() == MAX_FD,
        is_open(s, fd),
        forall|j: int| FIRST_FD <= j < fd ==> (#[trigger] s[j]).used,
    ensures
        ({
            let t = FdTable::closed(s, fd);
            &&& !is_open(t, fd)
            &&& installed(t, FIRST_FD as int, slot).0 == fd
        }),
{
    let t = s.update(
        fd as int,
        FdSlot { used: false, nonblock: false, kind: FdKind::File, ..s[fd as int] },
    );
    lemma_lowest_free(t, FIRST_FD as int);
    match lowest_free(t, FIRST_FD as int) {
        Some(i) => {
            if i < fd {
                assert(s[i].used);
            }
        },
        None => {
            assert(t[fd as int].used);
        },
    }
}

} // verus!
