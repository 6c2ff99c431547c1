//! Messages over channels: bytes gathered from and scattered over several
//! buffers, and descriptors passed in a control message.
use crate::abi::Handle;
use crate::bytes;
use crate::bytes::{read_le32, read_le64};
use crate::libc::fd;
use crate::libc::fd::{FdKind, FdSlot, FdTable, FIRST_FD, PASS_MAX};
use vstd::prelude::*;

verus! {

/// Bytes of one message.
pub const MESSAGE_MAX: usize = 4096;

/// Bytes before the descriptors of a control message.
pub const CMSG_HDR_SZ: usize = 16;

/// The level and the type of a control message that passes descriptors.
pub const SCM_RIGHTS: u32 = 1;

/// Several buffers one behind the other.
pub open spec fn joined(parts: Seq<Vec<u8>>, n: int) -> Seq<u8>
    decreases n,
{
    if n <= 0 {
        Seq::empty()
    } else {
        joined(parts, n - 1) + parts[n - 1]@
    }
}

/// The bytes of some buffers, as many as a message holds.
pub fn gather(parts: &Vec<Vec<u8>>) -> (data: Vec<u8>)
    ensures
        ({
            let all = joined(parts@, parts@.len() as int);
            data@ == (if all.len() <= MESSAGE_MAX {
                all
            } else {
                all.subrange(0, MESSAGE_MAX as int)
            })
        }),
{
    let mut data: Vec<u8> = Vec::new();
    let mut i: usize = 0;
    while i < parts.len()
        invariant
            i <= parts.len(),
            ({
                let all = joined(parts@, i as int);
                data@ == (if all.len() <= MESSAGE_MAX {
                    all
                } else {
                    all.subrange(0, MESSAGE_MAX as int)
                })
            }),
        decreases parts.len() - i,
    {
        let ghost all = joined(parts@, i as int);
        let ghost before = data@;
        let room: usize = MESSAGE_MAX - data.len();
        let n: usize = if parts[i].len() < room {
            parts[i].len()
        } else {
            room
        };
        let mut k: usize = 0;
        while k < n
            invariant
                k <= n,
                i < parts.len(),
                n <= parts@[i as int]@.len(),
                data@ =~= before + parts@[i as int]@.subrange(0, k as int),
            decreases n - k,
        {
            data.push(parts[i][k]);
            k += 1;
        }
        proof {
            let next = joined(parts@, i + 1);
            assert(next == all + parts@[i as int]@);
            if next.len() <= MESSAGE_MAX {
                assert(data@ =~= next);
            } else {
                assert(data@ =~= next.subrange(0, MESSAGE_MAX as int));
            }
        }
        i += 1;
    }
    data
}

/// How many bytes go into the first `i` of some buffers.
pub open spec fn placed(lens: Seq<usize>, n: int, i: int) -> int
    decreases i,
{
    if i <= 0 {
        0
    } else {
        let before = placed(lens, n, i - 1);
        let left = n - before;
        before + (if (lens[i - 1] as int) < left {
            lens[i - 1] as int
        } else {
            left
        })
    }
}

/// How many of `n` bytes go into each of some buffers, filled in turn.
pub fn scatter(lens: &Vec<usize>, n: usize) -> (v: Vec<usize>)
    ensures
        v@.len() == lens@.len(),
        forall|i: int|
            0 <= i < lens@.len() ==> #[trigger] v@[i] == placed(lens@, n as int, i + 1) - placed(
                lens@,
                n as int,
                i,
            ),
{
    let mut v: Vec<usize> = Vec::new();
    let mut copied: usize = 0;
    let mut i: usize = 0;
    while i < lens.len()
        invariant
            i <= lens.len(),
            v@.len() == i,
            copied <= n,
            copied == placed(lens@, n as int, i as int),
            forall|k: int|
                0 <= k < i ==> #[trigger] v@[k] == placed(lens@, n as int, k + 1) - placed(
                    lens@,
                    n as int,
                    k,
                ),
        decreases lens.len() - i,
    {
        let left: usize = n - copied;
        let take: usize = if lens[i] < left {
            lens[i]
        } else {
            left
        };
        v.push(take);
        copied += take;
        i += 1;
    }
    v
}

/// No buffer gets more than it holds, and no byte goes missing while there is
/// room.
pub proof fn law_scatter(lens: Seq<usize>, n: int, i: int)
    requires
        0 <= n,
        0 <= i < lens.len(),
    ensures
        0 <= placed(lens, n, i) <= n,
        0 <= placed(lens, n, i + 1) - placed(lens, n, i) <= lens[i],
        placed(lens, n, i + 1) < n ==> placed(lens, n, i + 1) - placed(lens, n, i) == lens[i],
    decreases i,
{
    if i > 0 {
        law_scatter(lens, n, i - 1);
    }
}

/// The little-endian number in four bytes as a descriptor.
pub open spec fn fd_at(control: Seq<u8>, i: int) -> i32 {
    (bytes::le32(control, CMSG_HDR_SZ + 4 * i) as u32) as i32
}

/// A control message that passes descriptors.
pub open spec fn passes(control: Seq<u8>) -> bool {
    &&& control.len() >= CMSG_HDR_SZ
    &&& bytes::le32(control, 8) == SCM_RIGHTS
    &&& bytes::le32(control, 12) == SCM_RIGHTS
}

/// How many descriptors a control message passes, no more than a message can.
pub open spec fn passed_count(control: Seq<u8>) -> int {
    let n = (bytes::le64(control, 0) - CMSG_HDR_SZ) / 4;
    if n < PASS_MAX {
        n
    } else {
        PASS_MAX as int
    }
}

/// The descriptors that a control message passes; none when it says something
/// else. Its length has to be that of what it holds.
pub fn rights(control: &[u8]) -> (v: Vec<i32>)
    requires
        passes(control@) ==> CMSG_HDR_SZ <= bytes::le64(control@, 0) <= control.len(),
    ensures
        v@ == (if passes(control@) {
            Seq::new(passed_count(control@) as nat, |i: int| fd_at(control@, i))
        } else {
            Seq::empty()
        }),
{
    let mut v: Vec<i32> = Vec::new();
    if control.len() < CMSG_HDR_SZ || read_le32(control, 8) != SCM_RIGHTS || read_le32(control, 12)
        != SCM_RIGHTS {
        assert(v@ =~= Seq::empty());
        return v;
    }
    let len: u64 = read_le64(control, 0);
    let mut n: usize = (len as usize - CMSG_HDR_SZ) / 4;
    if n > PASS_MAX {
        n = PASS_MAX;
    }
    let mut i: usize = 0;
    while i < n
        invariant
            i <= n,
            CMSG_HDR_SZ + 4 * n <= control.len(),
            v@ =~= Seq::new(i as nat, |k: int| fd_at(control@, k)),
        decreases n - i,
    {
        v.push(read_le32(control, CMSG_HDR_SZ + 4 * i) as i32);
        i += 1;
    }
    v
}

/// Whether `n` descriptors that arrived can be reported in a control buffer.
pub fn rights_fit(control_len: usize, n: usize) -> (b: bool)
    requires
        n <= PASS_MAX,
    ensures
        b == (n > 0 && control_len >= CMSG_HDR_SZ + 4 * n),
{
    n > 0 && control_len >= CMSG_HDR_SZ + 4 * n
}

/// `fd` is a channel in use.
pub open spec fn is_channel(s: Seq<FdSlot>, fd: i32) -> bool {
    fd::is_open(s, fd) && s[fd as int].kind is Chan
}

/// Bytes and capabilities to send over a channel.
pub struct Outgoing {
    pub handle: Handle,
    pub data: Vec<u8>,
    pub caps: Vec<Handle>,
}

/// What a message sends: the bytes of its buffers and the capabilities of the
/// descriptors that its control message passes. Nothing goes out of a descriptor
/// that is no channel.
pub fn sendmsg(t: &FdTable, fd: i32, parts: &Vec<Vec<u8>>, control: &[u8]) -> (r: Option<Outgoing>)
    requires
        passes(control@) ==> CMSG_HDR_SZ <= bytes::le64(control@, 0) <= control.len(),
    ensures
        match r {
            Some(o) => {
                let all = joined(parts@, parts@.len() as int);
                &&& is_channel(t.slots@, fd)
                &&& o.handle == t.slots@[fd as int].handle
                &&& o.data@ == (if all.len() <= MESSAGE_MAX {
                    all
                } else {
                    all.subrange(0, MESSAGE_MAX as int)
                })
                &&& o.caps@ == (if passes(control@) {
                    FdTable::backing(
                        t.slots@,
                        Seq::new(passed_count(control@) as nat, |i: int| fd_at(control@, i)),
                    )
                } else {
                    Seq::empty()
                })
            },
            None => !is_channel(t.slots@, fd),
        },
{
    let handle: Handle = match channel_of(t, fd) {
        Some(s) => s.handle,
        None => return None,
    };
    let data = gather(parts);
    let fds = rights(control);
    let caps = t.passed(fds.as_slice());
    assert(fds@.len() <= PASS_MAX);
    assert(fds@.subrange(0, fds@.len() as int) =~= fds@);
    Some(Outgoing { handle, data, caps })
}

/// The channel of a descriptor.
fn channel_of(t: &FdTable, fd: i32) -> (r: Option<FdSlot>)
    ensures
        r == (if is_channel(t.slots@, fd) {
            Some(t.slots@[fd as int])
        } else {
            None
        }),
{
    if !t.open_slot(fd) {
        return None;
    }
    let s = t.slots[fd as usize];
    match s.kind {
        FdKind::Chan => Some(s),
        _ => None,
    }
}

/// The channel that a message is received from, and whether to wait for one.
pub fn recvmsg(t: &FdTable, fd: i32) -> (r: Option<(Handle, bool)>)
    ensures
        r == (if is_channel(t.slots@, fd) {
            Some((t.slots@[fd as int].handle, !t.slots@[fd as int].nonblock))
        } else {
            None
        }),
{
    match channel_of(t, fd) {
        Some(s) => Some((s.handle, !s.nonblock)),
        None => None,
    }
}

/// A message as it was received.
pub struct Incoming {
    /// How many bytes go into each buffer.
    pub takes: Vec<usize>,
    /// The descriptors of the capabilities that came with it.
    pub fds: Vec<i32>,
    /// The length of the control message that passes them, 0 for none.
    pub control_len: usize,
}

/// The table after the first `n` capabilities received got descriptors.
pub open spec fn adopted(s: Seq<FdSlot>, caps: Seq<(Handle, u64)>, n: int) -> Seq<FdSlot>
    decreases n,
{
    if n <= 0 {
        s
    } else {
        adopted_one(adopted(s, caps, n - 1), caps[n - 1]).1
    }
}

/// The descriptor that one capability received gets, and the table with it.
pub open spec fn adopted_one(s: Seq<FdSlot>, cap: (Handle, u64)) -> (i32, Seq<FdSlot>) {
    fd::installed(s, FIRST_FD as int, fd::fresh(fd::kind_of(cap.1), cap.0, 0, 0))
}

/// Place `n` bytes and the capabilities that came with them, each with its kind.
/// Capabilities get descriptors only if the control buffer has room for all.
pub fn recvmsg_done(
    t: &mut FdTable,
    lens: &Vec<usize>,
    n: usize,
    caps: &Vec<(Handle, u64)>,
    control_len: usize,
) -> (r: Incoming)
    requires
        caps.len() <= PASS_MAX,
    ensures
        r.takes@.len() == lens@.len(),
        forall|i: int|
            0 <= i < lens@.len() ==> #[trigger] r.takes@[i] == placed(lens@, n as int, i + 1)
                - placed(lens@, n as int, i),
        ({
            let k = caps@.len() as int;
            if k > 0 && control_len >= CMSG_HDR_SZ + 4 * k {
                &&& r.control_len == CMSG_HDR_SZ + 4 * k
                &&& r.fds@.len() == k
                &&& forall|i: int|
                    0 <= i < k ==> #[trigger] r.fds@[i] == adopted_one(
                        adopted(old(t).slots@, caps@, i),
                        caps@[i],
                    ).0
                &&& final(t).slots@ == adopted(old(t).slots@, caps@, k)
            } else {
                &&& r.control_len == 0
                &&& r.fds@.len() == 0
                &&& final(t).slots@ == old(t).slots@
            }
        }),
{
    let takes = scatter(lens, n);
    let mut fds: Vec<i32> = Vec::new();
    if !rights_fit(control_len, caps.len()) {
        return Incoming { takes, fds, control_len: 0 };
    }
    let mut i: usize = 0;
    while i < caps.len()
        invariant
            i <= caps.len(),
            fds@.len() == i,
            forall|k: int|
                0 <= k < i ==> #[trigger] fds@[k] == adopted_one(
                    adopted(old(t).slots@, caps@, k),
                    caps@[k],
                ).0,
            t.slots@ == adopted(old(t).slots@, caps@, i as int),
        decreases caps.len() - i,
    {
        let (handle, kind) = caps[i];
        let fd: i32 = t.alloc_cap_fd(handle, kind);
        fds.push(fd);
        i += 1;
    }
    Incoming { takes, fds, control_len: CMSG_HDR_SZ + 4 * caps.len() }
}

} // verus!
