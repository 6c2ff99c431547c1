//! What a C program is started with, and how its writes reach a file.
use crate::abi::SysResult;
use crate::libc::fd;
use crate::libc::fd::FdTable;
use crate::rt::fs;
use crate::rt::ident;
use crate::rt::ident::args;
use crate::rt::packet;
use crate::rt::packet::Packet;
use vstd::prelude::*;
use vstd::slice::slice_subrange;

verus! {

/// What stands for a program's own name.
pub open spec fn program_name() -> Seq<u8> {
    seq![0x70u8, 0x72u8, 0x6Fu8, 0x67u8, 0u8]
}

/// The arguments of `main`: a name, and the words of the argument string, each
/// closed by a zero.
pub open spec fn argv_of(line: Seq<u8>) -> Seq<Seq<u8>> {
    seq![program_name()] + Seq::new(
        ident::tokens(line).len(),
        |i: int| ident::tokens(line)[i].push(0),
    )
}

/// Build the arguments of `main`.
pub fn build_argv(line: &[u8]) -> (v: Vec<Vec<u8>>)
    ensures
        ident::texts(v@) == argv_of(line@),
{
    let mut v: Vec<Vec<u8>> = Vec::new();
    let name: Vec<u8> = vec![0x70u8, 0x72u8, 0x6Fu8, 0x67u8, 0u8];
    assert(name@ =~= program_name());
    v.push(name);
    let mut words = args(line);
    let n: usize = words.len();
    let ghost all = ident::texts(words@);
    assert(all.len() == n);
    let mut i: usize = 0;
    assert(ident::texts(v@) =~= argv_of(line@).subrange(0, 1));
    while i < n
        invariant
            i <= n,
            n == words@.len(),
            all == ident::tokens(line@),
            all.len() == n,
            forall|k: int| i <= k < n ==> (#[trigger] words@[k])@ == all[k],
            ident::texts(v@) == argv_of(line@).subrange(0, i + 1),
        decreases n - i,
    {
        let ghost before = v@;
        let mut w: Vec<u8> = Vec::new();
        assert(words@[i as int]@ == all[i as int]);
        std::mem::swap(&mut words[i], &mut w);
        w.push(0);
        assert(w@ == all[i as int].push(0));
        v.push(w);
        assert(ident::texts(v@) =~= ident::texts(before).push(all[i as int].push(0)));
        assert(argv_of(line@)[i + 1] == all[i as int].push(0));
        assert(argv_of(line@).subrange(0, i + 2) =~= argv_of(line@).subrange(0, i + 1).push(
            all[i as int].push(0),
        ));
        i += 1;
    }
    assert(argv_of(line@).subrange(0, n + 1) =~= argv_of(line@));
    v
}

/// The next request of a write of `data` to a descriptor of which `done` bytes
/// are written: the bytes that follow, at the descriptor's place in the file.
/// Nothing when all is written or the descriptor is none.
pub fn fs_write_fd(t: &FdTable, fd: i32, data: &[u8], done: usize) -> (r: Option<Packet>)
    ensures
        match r {
            Some(m) => {
                let n = fs::chunk_len(data@.len() as int, done as int);
                &&& fd::is_open(t.slots@, fd)
                &&& done < data.len()
                &&& m.carries(
                    crate::abi::TAG_FS_WRITE,
                    8,
                    fs::write_area(
                        t.slots@[fd as int].off,
                        data@.subrange(done as int, done + n),
                    ),
                )
            },
            None => !fd::is_open(t.slots@, fd) || done >= data.len(),
        },
{
    if !t.open_slot(fd) || done >= data.len() {
        return None;
    }
    let n: usize = if data.len() - done < fs::WRITE_CHUNK {
        data.len() - done
    } else {
        fs::WRITE_CHUNK
    };
    let part = slice_subrange(data, done, done + n);
    let mut m = Packet::new(crate::abi::TAG_FS_WRITE);
    m.set_word(0, t.slots[fd as usize].off);
    m.set_word(1, n as u64);
    m.put(16, part, n);
    assert(part@.subrange(0, n as int) =~= part@);
    m.data_len = 8;
    Some(m)
}

/// A write's reply: the descriptor moves on by what was written, and so does
/// the write. Nothing when the call failed or nothing was written.
pub fn fs_wrote(
    t: &mut FdTable,
    fd: i32,
    done: usize,
    res: SysResult,
    reply: &Packet,
) -> (r: Option<usize>)
    requires
        fd::is_open(old(t).slots@, fd),
        done + packet::word_of(reply.area@, 0) <= usize::MAX,
        old(t).slots@[fd as int].off + packet::word_of(reply.area@, 0) <= u64::MAX,
    ensures
        ({
            let w = packet::word_of(reply.area@, 0);
            let s = old(t).slots@[fd as int];
            let off = (s.off + w) as u64;
            if res is Ok && w != 0 {
                &&& r == Some((done + w) as usize)
                &&& final(t).slots@ == old(t).slots@.update(
                    fd as int,
                    fd::FdSlot {
                        off,
                        size: if off > s.size {
                            off
                        } else {
                            s.size
                        },
                        ..s
                    },
                )
            } else {
                r is None && final(t).slots@ == old(t).slots@
            }
        }),
{
    match fs::write_next(res, reply, done) {
        Some(next) => {
            t.write_done(fd, reply.word(0));
            Some(next)
        },
        None => None,
    }
}

} // verus!
