//! What the two result registers of a system call mean to a program.
use crate::abi;
use crate::abi::{Handle, SysError, SysResult, CAP_OTHER, CHAN_NONBLOCK, RECV_NOTIF_FIRED};
use crate::fb::FbInfo;
use crate::syscall::dev;
use vstd::prelude::*;

verus! {

/// A call that gives a handle.
pub fn handle_result(rax: u64, rdx: u64) -> (r: SysResult<Handle>)
    ensures
        r == (match abi::decode_raw(rax) {
            Ok(_) => Ok(rdx as Handle),
            Err(e) => Err(e),
        }),
{
    match SysError::from_raw(rax) {
        Ok(_) => Ok(rdx as Handle),
        Err(e) => Err(e),
    }
}

/// A call that gives a number.
pub fn value_result(rax: u64, rdx: u64) -> (r: SysResult<u64>)
    ensures
        r == (match abi::decode_raw(rax) {
            Ok(_) => Ok(rdx),
            Err(e) => Err(e),
        }),
{
    match SysError::from_raw(rax) {
        Ok(_) => Ok(rdx),
        Err(e) => Err(e),
    }
}

/// A call that gives a count, which is zero when it fails.
pub fn count_result(rax: u64, rdx: u64) -> (n: u64)
    ensures
        n == (if rax == 0 {
            rdx
        } else {
            0
        }),
{
    if rax != 0 {
        0
    } else {
        rdx
    }
}

/// What a wait for a message or a notification ended with.
#[derive(Clone, Copy, PartialEq, Eq, Structural, Debug)]
pub enum RecvNotif {
    /// A message arrived, with this reply capability.
    Message(Handle),
    /// The notification fired.
    Notified,
}

/// A wait for a message or a notification.
pub fn sys_recv_notif(rax: u64, rdx: u64) -> (r: SysResult<RecvNotif>)
    ensures
        r == (match abi::decode_raw(rax) {
            Ok(_) => if rdx & RECV_NOTIF_FIRED != 0 {
                Ok(RecvNotif::Notified)
            } else {
                Ok(RecvNotif::Message(rdx as Handle))
            },
            Err(e) => Err(e),
        }),
{
    match SysError::from_raw(rax) {
        Ok(_) => if rdx & RECV_NOTIF_FIRED != 0 {
            Ok(RecvNotif::Notified)
        } else {
            Ok(RecvNotif::Message(rdx as Handle))
        },
        Err(e) => Err(e),
    }
}

/// Sixteen bits of `v` from bit `16 * i` on.
pub open spec fn quarter(v: u64, i: int) -> int {
    if i == 0 {
        v as int % 0x1_0000
    } else if i == 1 {
        v as int / 0x1_0000 % 0x1_0000
    } else if i == 2 {
        v as int / 0x1_0000_0000 % 0x1_0000
    } else {
        v as int / 0x1_0000_0000_0000 % 0x1_0000
    }
}

/// The width, height, bytes per line and bits per pixel of the framebuffer.
pub fn sys_fb_info(rax: u64, rdx: u64) -> (r: SysResult<(u32, u32, u32, u16)>)
    ensures
        r == (match abi::decode_raw(rax) {
            Ok(_) => Ok(
                (
                    quarter(rdx, 0) as u32,
                    quarter(rdx, 1) as u32,
                    quarter(rdx, 2) as u32,
                    quarter(rdx, 3) as u16,
                ),
            ),
            Err(e) => Err(e),
        }),
{
    match SysError::from_raw(rax) {
        Ok(_) => Ok(
            (
                (rdx % 0x1_0000) as u32,
                (rdx / 0x1_0000 % 0x1_0000) as u32,
                (rdx / 0x1_0000_0000 % 0x1_0000) as u32,
                (rdx / 0x1_0000_0000_0000 % 0x1_0000) as u16,
            ),
        ),
        Err(e) => Err(e),
    }
}

/// A program reads the geometry that the kernel packed.
pub proof fn law_geometry_arrives(f: FbInfo)
    requires
        f.width < 0x1_0000,
        f.height < 0x1_0000,
        f.pitch < 0x1_0000,
    ensures
        quarter(dev::packed_geometry(f), 0) == f.width,
        quarter(dev::packed_geometry(f), 1) == f.height,
        quarter(dev::packed_geometry(f), 2) == f.pitch,
        quarter(dev::packed_geometry(f), 3) == f.bpp,
{
    dev::law_geometry_unpacks(f);
    let g = dev::packed_geometry(f);
    assert(g & 0xffff == g % 0x1_0000 && (g >> 16u64) & 0xffff == g / 0x1_0000 % 0x1_0000 && (g
        >> 32u64) & 0xffff == g / 0x1_0000_0000 % 0x1_0000 && (g >> 48u64) & 0xffff == g
        / 0x1_0000_0000_0000 % 0x1_0000) by (bit_vector);
}

/// Used and total memory in KiB.
pub fn sys_meminfo(rdx: u64) -> (r: (u64, u64))
    ensures
        r.0 == rdx as int / 0x1_0000_0000,
        r.1 == rdx as int % 0x1_0000_0000,
{
    (rdx / 0x1_0000_0000, rdx % 0x1_0000_0000)
}

/// The kind of a capability; an unknown handle is none that can be passed.
pub fn sys_cap_type(rax: u64, rdx: u64) -> (kind: u64)
    ensures
        kind == (if rax != 0 {
            CAP_OTHER
        } else {
            rdx
        }),
{
    if rax != 0 {
        CAP_OTHER
    } else {
        rdx
    }
}

/// The last exit code delivered to a notification, zero when there is none.
pub fn sys_notif_status(rax: u64, rdx: u64) -> (code: i32)
    ensures
        code == (if rax == 0 {
            rdx as i32
        } else {
            0
        }),
{
    if SysError::from_raw(rax).is_ok() {
        rdx as i32
    } else {
        0
    }
}

/// A child that may have exited: its code once a signal was taken from its
/// notification.
pub fn try_wait(signals: u64, code: i32) -> (r: Option<i32>)
    ensures
        r == (if signals > 0 {
            Some(code)
        } else {
            None
        }),
{
    if signals > 0 {
        Some(code)
    } else {
        None
    }
}

/// The two ends of a new channel.
pub fn pair(rax: u64, rdx: u64) -> (r: Option<(Handle, Handle)>)
    ensures
        r == (if rax != 0 {
            None
        } else {
            Some(
                (
                    (rdx as int % 0x1_0000_0000) as Handle,
                    (rdx as int / 0x1_0000_0000) as Handle,
                ),
            )
        }),
{
    if rax != 0 {
        None
    } else {
        Some(((rdx % 0x1_0000_0000) as Handle, (rdx / 0x1_0000_0000) as Handle))
    }
}

/// The argument that says how many capabilities a receive may deliver and
/// whether it may wait.
pub fn recv_flags(caps: u32, nonblock: bool) -> (v: u64)
    ensures
        v == caps as u64 | ((if nonblock {
            CHAN_NONBLOCK
        } else {
            0
        }) << 32u64),
{
    let flags: u64 = if nonblock {
        CHAN_NONBLOCK
    } else {
        0
    };
    caps as u64 | (flags << 32u64)
}

/// How many bytes and capabilities a receive delivered; nothing when it would
/// have had to wait.
pub fn received(rax: u64, rdx: u64) -> (r: Option<(u64, u64)>)
    ensures
        r == (if rax != 0 {
            None
        } else {
            Some(((rdx as int % 0x1_0000_0000) as u64, (rdx as int / 0x1_0000_0000) as u64))
        }),
{
    if rax != 0 {
        None
    } else {
        Some((rdx % 0x1_0000_0000, rdx / 0x1_0000_0000))
    }
}

/// Two numbers of 32 bits that the kernel packs arrive as they were.
pub proof fn law_pair_arrives(lo: u32, hi: u32)
    ensures
        ({
            let v = (lo as u64) | ((hi as u64) << 32u64);
            v as int % 0x1_0000_0000 == lo && v as int / 0x1_0000_0000 == hi
        }),
{
    let v = (lo as u64) | ((hi as u64) << 32u64);
    assert(v % 0x1_0000_0000u64 == lo as u64 && v / 0x1_0000_0000u64 == hi as u64) by (bit_vector)
        requires
            v == (lo as u64) | ((hi as u64) << 32u64),
    ;
}

/// What a channel is ready for: a channel that cannot be asked reads as readable
/// and closed, so that its holder goes on.
pub fn poll(rax: u64, rdx: u64) -> (bits: u64)
    ensures
        bits == (if rax != 0 {
            3
        } else {
            rdx
        }),
{
    if rax != 0 {
        3
    } else {
        rdx
    }
}

/// First address of anonymous mappings.
pub const ANON_BASE: u64 = 0x4000_0000;

/// End of anonymous mappings.
pub const ANON_LIMIT: u64 = 0x6000_0000;

/// The window of anonymous mappings, used from the bottom.
#[derive(Clone, Copy, PartialEq, Eq, Structural, Debug)]
pub struct AnonWindow {
    pub cursor: u64,
}

/// `len` in whole pages.
pub open spec fn whole_pages(len: int) -> int {
    (len + 0xFFF) / 0x1000 * 0x1000
}

/// Where a request for `len` bytes is placed when the window is used up to
/// `cursor`, and how many bytes it takes.
pub open spec fn reserved(cursor: int, len: int) -> Option<(int, int)> {
    if len == 0 || cursor + whole_pages(len) > ANON_LIMIT {
        None
    } else {
        Some((cursor, whole_pages(len)))
    }
}

impl AnonWindow {
    /// A window of which nothing is used.
    pub fn new() -> (w: AnonWindow)
        ensures
            w.cursor == ANON_BASE,
    {
        AnonWindow { cursor: ANON_BASE }
    }

    /// Take `len` bytes, in whole pages: where they start and how many they
    /// are. A request that does not fit uses up the window all the same.
    pub fn mmap_anon(&mut self, len: u64) -> (r: Option<(u64, u64)>)
        requires
            len + 0xFFF <= u64::MAX,
            old(self).cursor + whole_pages(len as int) <= u64::MAX,
        ensures
            final(self).cursor == old(self).cursor + whole_pages(len as int),
            r == (match reserved(old(self).cursor as int, len as int) {
                Some((start, n)) => Some((start as u64, n as u64)),
                None => None,
            }),
    {
        let need: u64 = (len + 0xFFF) / 0x1000 * 0x1000;
        if need == 0 {
            return None;
        }
        let start: u64 = self.cursor;
        self.cursor = start + need;
        if start + need > ANON_LIMIT {
            return None;
        }
        Some((start, need))
    }
}

/// A mapping holds what was asked for, and the next one starts behind it.
pub proof fn law_mappings_are_apart(cursor: int, a: int, b: int)
    requires
        ANON_BASE <= cursor,
        0 <= a,
        0 <= b,
        reserved(cursor, a) is Some,
        reserved(cursor + whole_pages(a), b) is Some,
    ensures
        ({
            let x = reserved(cursor, a)->0;
            let y = reserved(cursor + whole_pages(a), b)->0;
            &&& a <= x.1 && b <= y.1
            &&& ANON_BASE <= x.0 && x.0 + x.1 <= y.0 && y.0 + y.1 <= ANON_LIMIT
        }),
{
}

/// The stack pointer of a thread whose stack ends at `end`: two words below the
/// last multiple of sixteen.
pub fn thread_stack(end: u64) -> (sp: u64)
    requires
        end >= 32,
    ensures
        sp == end as int / 16 * 16 - 16,
{
    end / 16 * 16 - 16
}

} // verus!
