//! What a program is told at its start: its arguments and its identity.
use crate::abi::{IdentRec, MsgBuf};
use crate::bytes;
use crate::bytes::nul_len;
use vstd::prelude::*;
use vstd::slice::slice_subrange;

verus! {

/// Longest argument string.
pub const ARGV_MAX: usize = 4095;

/// Size of an identity record.
pub const IDENT_SIZE: u64 = 236;

/// A white space byte: a space, a tab, a line end, or the like.
pub open spec fn is_white(c: u8) -> bool {
    c == 0x20 || 0x09 <= c <= 0x0D
}

fn white(c: u8) -> (b: bool)
    ensures
        b == is_white(c),
{
    c == 0x20 || (0x09 <= c && c <= 0x0D)
}

/// Where the first white space of `s` is; its length if there is none.
pub open spec fn first_white(s: Seq<u8>) -> int
    decreases s.len(),
{
    if s.len() == 0 || is_white(s[0]) {
        0
    } else {
        1 + first_white(s.subrange(1, s.len() as int))
    }
}

/// Before the first white space there is none, and it is one.
proof fn lemma_first_white(s: Seq<u8>)
    ensures
        0 <= first_white(s) <= s.len(),
        forall|i: int| 0 <= i < first_white(s) ==> !is_white(#[trigger] s[i]),
        first_white(s) < s.len() ==> is_white(s[first_white(s)]),
    decreases s.len(),
{
    if s.len() > 0 && !is_white(s[0]) {
        let t = s.subrange(1, s.len() as int);
        lemma_first_white(t);
        assert forall|i: int| 0 <= i < first_white(s) implies !is_white(#[trigger] s[i]) by {
            if i > 0 {
                assert(s[i] == t[i - 1]);
            }
        }
    }
}

/// Any position with those two properties is the first white space.
proof fn lemma_first_white_unique(s: Seq<u8>, n: int)
    requires
        0 <= n <= s.len(),
        forall|i: int| 0 <= i < n ==> !is_white(#[trigger] s[i]),
        n < s.len() ==> is_white(s[n]),
    ensures
        first_white(s) == n,
{
    lemma_first_white(s);
    let m = first_white(s);
    if m < n {
        assert(!is_white(s[m]));
    } else if n < m {
        assert(!is_white(s[n]));
    }
}

/// The words of `s` between white space, without the empty ones.
pub open spec fn tokens(s: Seq<u8>) -> Seq<Seq<u8>>
    decreases s.len(),
{
    let n = first_white(s);
    if n < 0 || n >= s.len() {
        if s.len() == 0 {
            Seq::empty()
        } else {
            seq![s]
        }
    } else {
        let rest = tokens(s.subrange(n + 1, s.len() as int));
        if n == 0 {
            rest
        } else {
            seq![s.subrange(0, n)] + rest
        }
    }
}

/// A list of byte strings as values.
pub open spec fn texts(v: Seq<Vec<u8>>) -> Seq<Seq<u8>> {
    Seq::new(v.len(), |i: int| v[i]@)
}

/// The argument string at the start of the argument page.
pub fn argv(page: &[u8]) -> (s: &[u8])
    ensures
        ({
            let t = bytes::until_nul(page@);
            s@ == (if t.len() <= ARGV_MAX {
                t
            } else {
                t.subrange(0, ARGV_MAX as int)
            })
        }),
{
    proof {
        bytes::lemma_nul_index(page@);
    }
    let n: usize = nul_len(page);
    if n <= ARGV_MAX {
        slice_subrange(page, 0, n)
    } else {
        let s = slice_subrange(page, 0, ARGV_MAX);
        assert(s@ =~= bytes::until_nul(page@).subrange(0, ARGV_MAX as int));
        s
    }
}

/// The arguments: the words of the argument string.
pub fn args(line: &[u8]) -> (v: Vec<Vec<u8>>)
    ensures
        texts(v@) == tokens(line@),
{
    let mut v: Vec<Vec<u8>> = Vec::new();
    let mut start: usize = 0;
    assert(line@.subrange(0, line@.len() as int) =~= line@);
    assert(texts(v@) + tokens(line@) =~= tokens(line@));
    loop
        invariant_except_break
            start <= line.len(),
            texts(v@) + tokens(line@.subrange(start as int, line@.len() as int)) == tokens(line@),
        ensures
            texts(v@) == tokens(line@),
        decreases line.len() - start,
    {
        let ghost rest = line@.subrange(start as int, line@.len() as int);
        let ghost sofar = v@;
        let mut end: usize = start;
        while end < line.len() && !white(line[end])
            invariant
                start <= end <= line.len(),
                rest == line@.subrange(start as int, line@.len() as int),
                forall|i: int| 0 <= i < end - start ==> !is_white(#[trigger] rest[i]),
            decreases line.len() - end,
        {
            assert(rest[end - start] == line@[end as int]);
            end += 1;
        }
        proof {
            if end < line.len() {
                assert(rest[end - start] == line@[end as int]);
            }
            lemma_first_white_unique(rest, end - start);
        }
        if end > start {
            let mut w: Vec<u8> = Vec::new();
            let mut i: usize = start;
            while i < end
                invariant
                    start <= i <= end <= line.len(),
                    w@ =~= line@.subrange(start as int, i as int),
                decreases end - i,
            {
                w.push(line[i]);
                i += 1;
            }
            assert(w@ =~= rest.subrange(0, end - start));
            v.push(w);
            assert(texts(v@) =~= texts(sofar).push(rest.subrange(0, end - start)));
        }
        if end == line.len() {
            proof {
                if end > start {
                    assert(rest.subrange(0, end - start) =~= rest);
                }
                assert(texts(v@) =~= texts(sofar) + tokens(rest));
            }
            break ;
        }
        start = end + 1;
        proof {
            let next = line@.subrange(start as int, line@.len() as int);
            assert(next =~= rest.subrange(rest.len() - next.len(), rest.len() as int));
            assert(texts(v@) + tokens(next) =~= texts(sofar) + tokens(rest));
        }
    }
    v
}

/// The user's number.
pub fn uid(id: &IdentRec) -> (u: u32)
    ensures
        u == id.uid,
{
    id.uid
}

/// The group's number.
pub fn gid(id: &IdentRec) -> (g: u32)
    ensures
        g == id.gid,
{
    id.gid
}

/// The name in a record, or `root` when it carries none.
pub open spec fn name_of(id: IdentRec) -> Seq<u8> {
    let n = bytes::until_nul(id.name@);
    if n.len() == 0 {
        seq![0x72u8, 0x6Fu8, 0x6Fu8, 0x74u8]
    } else {
        n
    }
}

/// The home in a record, or `/` when it carries none.
pub open spec fn home_of(id: IdentRec) -> Seq<u8> {
    let h = bytes::until_nul(id.home@);
    if h.len() == 0 {
        seq![0x2Fu8]
    } else {
        h
    }
}

/// A copy of `s`.
fn owned(s: &[u8]) -> (v: Vec<u8>)
    ensures
        v@ == s@,
{
    let mut v: Vec<u8> = Vec::new();
    let mut i: usize = 0;
    while i < s.len()
        invariant
            i <= s.len(),
            v@ =~= s@.subrange(0, i as int),
        decreases s.len() - i,
    {
        v.push(s[i]);
        i += 1;
    }
    assert(s@.subrange(0, s@.len() as int) =~= s@);
    v
}

/// The login name.
pub fn user_name(id: &IdentRec) -> (n: Vec<u8>)
    ensures
        n@ == name_of(*id),
{
    let n = id.name_bytes();
    if n.len() == 0 {
        let v: Vec<u8> = vec![0x72u8, 0x6Fu8, 0x6Fu8, 0x74u8];
        assert(v@ =~= name_of(*id));
        v
    } else {
        owned(n)
    }
}

/// The home directory.
pub fn home(id: &IdentRec) -> (h: Vec<u8>)
    ensures
        h@ == home_of(*id),
{
    let h = id.home_bytes();
    if h.len() == 0 {
        let v: Vec<u8> = vec![0x2Fu8];
        assert(v@ =~= home_of(*id));
        v
    } else {
        owned(h)
    }
}

/// Point a spawn message at the identity record at `addr`.
pub fn msg_set_identity(msg: &mut MsgBuf, addr: u64)
    ensures
        final(msg)@.data == old(msg)@.data.update(3, addr).update(4, IDENT_SIZE),
        final(msg)@.data_len == (if old(msg).data_len < 5 {
            5
        } else {
            old(msg).data_len
        }),
        final(msg).tag == old(msg).tag,
        final(msg).handle_count == old(msg).handle_count,
        final(msg)@.handles == old(msg)@.handles,
        final(msg).badge == old(msg).badge,
{
    msg.data[3] = addr;
    msg.data[4] = IDENT_SIZE;
    if msg.data_len < 5 {
        msg.data_len = 5;
    }
    assert(msg@.data =~= old(msg)@.data.update(3, addr).update(4, IDENT_SIZE));
}

/// No argument is empty or holds white space.
pub proof fn law_arguments_are_words(s: Seq<u8>, i: int, j: int)
    requires
        0 <= i < tokens(s).len(),
    ensures
        tokens(s)[i].len() > 0,
        0 <= j < tokens(s)[i].len() ==> !is_white(tokens(s)[i][j]),
    decreases s.len(),
{
    let n = first_white(s);
    lemma_first_white(s);
    if 0 <= n < s.len() {
        let t = s.subrange(n + 1, s.len() as int);
        if n == 0 {
            law_arguments_are_words(t, i, j);
        } else if i > 0 {
            law_arguments_are_words(t, i - 1, j);
        }
    }
}

/// A record without a name or a home reads as the superuser's.
pub proof fn law_blank_identity_is_root(id: IdentRec)
    requires
        id.uid == 0,
        id.gid == 0,
        id.name@[0] == 0,
        id.home@[0] == 0,
    ensures
        name_of(id) == seq![0x72u8, 0x6Fu8, 0x6Fu8, 0x74u8],
        home_of(id) == seq![0x2Fu8],
{
}

} // verus!
