//! Laws of the C library: characters, strings, numbers, descriptors and events.

use crate::bytes;
use crate::libc;
use crate::libc::ctype;
use crate::libc::epoll::{self, EpEntry, Epolls};
use crate::libc::fd::{self, ClosePlan, FdKind, FdSlot, FdTable};
use crate::libc::message;
use crate::libc::net::{self, PollFd};
use crate::libc::number;
use crate::libc::start;
use crate::libc::stdio::{self, FILE};
use crate::libc::string;
use crate::rt::ident;
use crate::rt::packet;
use vstd::prelude::*;

verus! {

/// The classes of characters are those of ASCII, and no character is in two of them.
pub proof fn law_character_classes(c: u8)
    ensures
        ctype::space(c) <==> c == 9 || c == 10 || c == 11 || c == 12 || c == 13 || c == 32,
        ctype::digit(c) <==> 48 <= c <= 57,
        ctype::upper(c) <==> 65 <= c <= 90,
        ctype::lower(c) <==> 97 <= c <= 122,
        ctype::upper(c) ==> !ctype::lower(c) && ctype::lower(ctype::lowered(c)),
        ctype::lower(c) ==> !ctype::upper(c) && ctype::upper(ctype::raised(c)),
        !ctype::upper(c) ==> ctype::lowered(c) == c,
        !ctype::lower(c) ==> ctype::raised(c) == c,
        ctype::upper(c) ==> ctype::lowered(c) == c + 32,
        ctype::lower(c) ==> ctype::raised(c) == c - 32,
        ctype::truth(true) != 0,
        ctype::truth(false) == 0,
{
}

/// A string is what stands before its first zero.
pub proof fn law_text_ends_at_zero(s: Seq<u8>)
    ensures
        string::text(s).len() <= s.len(),
        forall|i: int|
            0 <= i < string::text(s).len() ==> #[trigger] string::text(s)[i] == s[i] && s[i] != 0,
        string::text(s).len() < s.len() ==> s[string::text(s).len() as int] == 0,
{
    bytes::lemma_nul_index(s);
}

/// The first bytes of a string: at most so many, and no more than it has.
pub proof fn law_text_upto(s: Seq<u8>, n: usize)
    ensures
        string::text_upto(s, n).len() <= n,
        string::text_upto(s, n).len() <= string::text(s).len(),
        string::text_upto(s, n).len() == n || string::text_upto(s, n) == string::text(s),
        forall|i: int|
            0 <= i < string::text_upto(s, n).len() ==> #[trigger] string::text_upto(s, n)[i]
                == s[i],
        n <= s.len() ==> string::head(s, n).len() == n && forall|i: int|
            0 <= i < n ==> #[trigger] string::head(s, n)[i] == s[i],
{
    bytes::lemma_nul_index(s);
    if string::text_upto(s, n).len() != n {
        assert(string::text_upto(s, n) =~= string::text(s));
    }
}

/// A span is as long as every byte of it is in the set, or out of it, and no longer.
pub proof fn law_span(t: Seq<u8>, set: Seq<u8>, inside: bool)
    ensures
        ({
            let n = string::span(t, set, inside);
            &&& 0 <= n <= t.len()
            &&& forall|i: int| 0 <= i < n ==> set.contains(#[trigger] t[i]) == inside
            &&& n < t.len() ==> set.contains(t[n]) != inside
        }),
    decreases t.len(),
{
    if t.len() > 0 && set.contains(t[0]) == inside {
        let u = t.subrange(1, t.len() as int);
        law_span(u, set, inside);
        let n = string::span(t, set, inside);
        assert forall|i: int| 0 <= i < n implies set.contains(#[trigger] t[i]) == inside by {
            if i > 0 {
                assert(t[i] == u[i - 1]);
            }
        }
        if n < t.len() {
            assert(t[n] == u[n - 1]);
        }
    }
}

/// A text occurs in another where all its bytes stand there in a row.
pub proof fn law_occurrence(h: Seq<u8>, n: Seq<u8>, i: int)
    ensures
        string::occurs(h, n, i) <==> 0 <= i && i + n.len() <= h.len() && forall|k: int|
            0 <= k < n.len() ==> h[i + k] == #[trigger] n[k],
{
    if 0 <= i && i + n.len() <= h.len() {
        let s = h.subrange(i, i + n.len());
        if forall|k: int| 0 <= k < n.len() ==> h[i + k] == #[trigger] n[k] {
            assert(s =~= n);
        }
        if s == n {
            assert forall|k: int| 0 <= k < n.len() implies h[i + k] == #[trigger] n[k] by {
                assert(s[k] == n[k]);
            }
        }
    }
}

/// Two strings compare equal just if they are; else by the first byte in which they differ,
/// and the other way round when they change places.
pub proof fn law_comparison(a: Seq<u8>, b: Seq<u8>)
    requires
        forall|i: int| 0 <= i < a.len() ==> #[trigger] a[i] != 0,
        forall|i: int| 0 <= i < b.len() ==> #[trigger] b[i] != 0,
    ensures
        string::order(a, b) == 0 <==> a == b,
        string::order(b, a) == -string::order(a, b),
    decreases a.len(),
{
    if a.len() > 0 && b.len() > 0 && a[0] == b[0] {
        let c = a.subrange(1, a.len() as int);
        let d = b.subrange(1, b.len() as int);
        assert forall|i: int| 0 <= i < c.len() implies #[trigger] c[i] != 0 by {
            assert(c[i] == a[i + 1]);
        }
        assert forall|i: int| 0 <= i < d.len() implies #[trigger] d[i] != 0 by {
            assert(d[i] == b[i + 1]);
        }
        law_comparison(c, d);
        if c == d {
            assert(a =~= seq![a[0]] + c);
            assert(b =~= seq![b[0]] + d);
        }
    } else if a.len() == 0 && b.len() == 0 {
        assert(a =~= b);
    } else if a.len() == 0 {
        assert(b[0] != 0);
    } else if b.len() == 0 {
        assert(a[0] != 0);
    }
}

/// The digits of a number are all the digits that a reader finds in them.
proof fn lemma_all_digits(s: Seq<u8>, base: int)
    requires
        2 <= base <= 36,
        forall|i: int|
            0 <= i < s.len() ==> number::digit_of(#[trigger] s[i]) < base,
    ensures
        number::digits_len(s, base) == s.len(),
    decreases s.len(),
{
    if s.len() > 0 {
        let t = s.subrange(1, s.len() as int);
        assert forall|i: int| 0 <= i < t.len() implies number::digit_of(#[trigger] t[i])
            < base by {
            assert(t[i] == s[i + 1]);
        }
        assert(number::digit_of(s[0]) < base);
        lemma_all_digits(t, base);
    }
}

/// A number is read in the base that its beginning names where none is given: `0x` for
/// sixteen, `0` for eight, and ten without either; a minus sign before it turns its sign.
pub proof fn law_base_goes_by_prefix(v: int)
    requires
        v > 0,
    ensures
        ({
            let t = seq![0x30u8, 0x78u8] + number::digits(v, 16);
            number::parsed(t, 0) == (v, t.len() as int) && number::parsed(t, 16) == (
                v,
                t.len() as int,
            )
        }),
        ({
            let t = seq![0x30u8] + number::digits(v, 8);
            number::parsed(t, 0) == (v, t.len() as int)
        }),
        ({
            let t = number::digits(v, 10);
            number::parsed(t, 0) == (v, t.len() as int) && number::parsed(t, 10) == (
                v,
                t.len() as int,
            )
        }),
        ({
            let t = seq![0x2Du8] + number::digits(v, 10);
            number::parsed(t, 10) == (-v, t.len() as int)
        }),
{
    number::law_digits_stand_for_number(v, 16);
    number::law_digits_stand_for_number(v, 8);
    number::law_digits_stand_for_number(v, 10);
    let x = number::digits(v, 16);
    let o = number::digits(v, 8);
    let d = number::digits(v, 10);
    lemma_all_digits(x, 16);
    lemma_all_digits(o, 8);
    lemma_all_digits(d, 10);
    crate::laws::text::law_no_leading_zero(v, 10);
    let t = seq![0x30u8, 0x78u8] + x;
    assert(number::spaces(t) == 0);
    assert(number::past_sign(t, 0) == 0);
    assert(number::hex_at(t, 0));
    assert(t.subrange(2, t.len() as int) =~= x);
    assert(x.subrange(0, x.len() as int) =~= x);
    let p = seq![0x30u8] + o;
    assert(number::spaces(p) == 0);
    assert(number::past_sign(p, 0) == 0);
    assert(number::digit_of(o[0]) < 8);
    assert(p[1] == o[0]);
    assert(!number::hex_at(p, 0));
    assert(number::digits_len(p, 8) == 1 + number::digits_len(
        p.subrange(1, p.len() as int),
        8,
    ));
    assert(p.subrange(1, p.len() as int) =~= o);
    assert(p.subrange(0, p.len() as int) =~= p);
    lemma_leading_zero(o, 8);
    assert(number::digit_of(d[0]) < 10);
    assert(number::spaces(d) == 0);
    assert(number::past_sign(d, 0) == 0);
    assert(!number::hex_at(d, 0));
    assert(d.subrange(0, d.len() as int) =~= d);
    let m = seq![0x2Du8] + d;
    assert(number::spaces(m) == 0);
    assert(number::past_sign(m, 0) == 1);
    assert(m.subrange(1, m.len() as int) =~= d);
}

/// A zero before digits does not change what they stand for.
proof fn lemma_leading_zero(s: Seq<u8>, base: int)
    ensures
        number::value_of(seq![0x30u8] + s, base) == number::value_of(s, base),
    decreases s.len(),
{
    let t = seq![0x30u8] + s;
    if s.len() == 0 {
        assert(t.drop_last() =~= Seq::<u8>::empty());
        assert(number::value_of(t.drop_last(), base) == 0);
        assert(t.last() == 0x30);
        assert(0 * base == 0) by (nonlinear_arith);
    } else {
        assert(t.drop_last() =~= seq![0x30u8] + s.drop_last());
        assert(t.last() == s.last());
        lemma_leading_zero(s.drop_last(), base);
    }
}

/// An exponent has its sign and at least two digits, and reads back.
pub proof fn law_exponent_reads_back(e: int)
    ensures
        ({
            let t = libc::format::exp_text(e);
            &&& t.len() >= 4
            &&& t[0] == 0x65
            &&& t[1] == if e < 0 {
                0x2Du8
            } else {
                0x2B
            }
            &&& number::value_of(t.subrange(2, t.len() as int), 10) == if e < 0 {
                -e
            } else {
                e
            }
        }),
{
    let m = if e < 0 {
        -e
    } else {
        e
    };
    number::law_digits_stand_for_number(m, 10);
    let d = number::digits(m, 10);
    let t = libc::format::exp_text(e);
    if d.len() < 2 {
        assert(t.subrange(2, t.len() as int) =~= seq![0x30u8] + d);
        lemma_leading_zero(d, 10);
    } else {
        assert(t.subrange(2, t.len() as int) =~= d);
    }
}

/// The shortest form of a number with a point is a beginning of it that ends in neither a
/// zero nor the point, and only zeros and the point are left out.
pub proof fn law_shortest_form(s: Seq<u8>)
    ensures
        !s.contains(0x2E) ==> libc::format::stripped(s) == s,
        s.contains(0x2E) ==> {
            let r = libc::format::stripped(s);
            &&& r.len() < s.len() || s.last() != 0x30 && s.last() != 0x2E
            &&& r.len() <= s.len()
            &&& forall|i: int| 0 <= i < r.len() ==> #[trigger] r[i] == s[i]
            &&& forall|i: int|
                r.len() <= i < s.len() ==> #[trigger] s[i] == 0x30 || (s[i] == 0x2E && i == r.len())
        },
{
    lemma_without_zeros(s);
}

proof fn lemma_without_zeros(s: Seq<u8>)
    ensures
        ({
            let r = libc::format::without_zeros(s);
            &&& r.len() <= s.len()
            &&& forall|i: int| 0 <= i < r.len() ==> #[trigger] r[i] == s[i]
            &&& forall|i: int| r.len() <= i < s.len() ==> #[trigger] s[i] == 0x30
            &&& r.len() > 0 ==> r.last() != 0x30
        }),
    decreases s.len(),
{
    if s.len() > 0 && s.last() == 0x30 {
        lemma_without_zeros(s.drop_last());
        let r = libc::format::without_zeros(s);
        assert forall|i: int| r.len() <= i < s.len() implies #[trigger] s[i] == 0x30 by {
            if i < s.len() - 1 {
                assert(s.drop_last()[i] == 0x30);
            }
        }
        assert forall|i: int| 0 <= i < r.len() implies #[trigger] r[i] == s[i] by {
            assert(s.drop_last()[i] == s[i]);
        }
    }
}

/// What a descriptor is by the kind of its capability.
pub proof fn law_descriptor_kinds(k: u64)
    ensures
        k == 1 ==> fd::kind_of(k) == FdKind::Chan,
        k == 2 ==> fd::kind_of(k) == FdKind::Shm,
        k != 1 && k != 2 ==> fd::kind_of(k) == FdKind::File,
{
}

/// A seek counts from the start, from where the descriptor is, or from the end.
pub proof fn law_seek_origins(s: FdSlot, whence: i32)
    ensures
        FdTable::seek_base(s, 0) == Some(0int),
        FdTable::seek_base(s, 1) == Some(s.off as int),
        FdTable::seek_base(s, 2) == Some(s.size as int),
        whence < 0 || whence > 2 ==> FdTable::seek_base(s, whence) is None,
{
}

/// Closing a descriptor gives up what stands behind it: its channel, its connection or its
/// capability; the descriptor is then free and no other is touched.
pub proof fn law_close_gives_up(s: Seq<FdSlot>, d: i32)
    requires
        s.len() == 32,
        3 <= d < 32,
        s[d as int].used,
    ensures
        ({
            let h = s[d as int].handle;
            let p = FdTable::closing(s, d);
            &&& s[d as int].kind is Chan ==> p == (ClosePlan::Channel { handle: h })
            &&& s[d as int].kind is Sock && h != 0 ==> p == (ClosePlan::Socket { handle: h })
            &&& s[d as int].kind is Sock && h == 0 ==> p is Nothing
            &&& s[d as int].kind is File || s[d as int].kind is Shm ==> p
                == (ClosePlan::Capability { handle: h })
            &&& !FdTable::closed(s, d)[d as int].used
            &&& forall|i: int| 0 <= i < 32 && i != d ==> FdTable::closed(s, d)[i] == s[i]
            &&& FdTable::closing(FdTable::closed(s, d), d) is Nothing
        }),
{
}

/// The capabilities behind a list of descriptors, in order, without those that are not open.
pub proof fn law_backing_capabilities(s: Seq<FdSlot>, fds: Seq<i32>, d: i32)
    requires
        s.len() == 32,
    ensures
        FdTable::backing(s, Seq::empty()).len() == 0,
        0 <= d < 32 && s[d as int].used ==> FdTable::backing(s, fds.push(d)) == FdTable::backing(
            s,
            fds,
        ).push(s[d as int].handle),
        !(0 <= d < 32 && s[d as int].used) ==> FdTable::backing(s, fds.push(d))
            == FdTable::backing(s, fds),
{
    assert(fds.push(d).drop_last() =~= fds);
}

/// A capability that comes in gets the lowest free descriptor from 3 up, which is of its
/// kind and leads to it; with none free it gets -1.
pub proof fn law_capability_gets_descriptor(s: Seq<FdSlot>, h: crate::abi::Handle, kind: u64)
    requires
        s.len() == 32,
    ensures
        ({
            let (d, t) = message::adopted_one(s, (h, kind));
            &&& d == -1 ==> t == s && forall|i: int| 3 <= i < 32 ==> (#[trigger] s[i]).used
            &&& d != -1 ==> {
                &&& 3 <= d < 32
                &&& !s[d as int].used
                &&& forall|i: int| 3 <= i < d ==> (#[trigger] s[i]).used
                &&& t[d as int].used
                &&& t[d as int].handle == h
                &&& t[d as int].kind == fd::kind_of(kind)
                &&& t[d as int].off == 0
                &&& !t[d as int].nonblock
                &&& forall|i: int| 0 <= i < 32 && i != d ==> t[i] == s[i]
            }
        }),
{
    lemma_lowest_free(s, 3);
}

proof fn lemma_lowest_free(s: Seq<FdSlot>, from: int)
    requires
        0 <= from <= s.len(),
    ensures
        fd::lowest_free(s, from) is None ==> forall|i: int|
            from <= i < s.len() ==> (#[trigger] s[i]).used,
        fd::lowest_free(s, from) matches Some(k) ==> {
            &&& from <= k < s.len()
            &&& !s[k].used
            &&& forall|i: int| from <= i < k ==> (#[trigger] s[i]).used
        },
    decreases s.len() - from,
{
    if from < s.len() {
        lemma_lowest_free(s, from + 1);
    }
}

/// The parts of a message are sent one behind the other.
pub proof fn law_parts_are_joined(parts: Seq<Vec<u8>>, n: int)
    requires
        0 <= n < parts.len(),
    ensures
        message::joined(parts, 0).len() == 0,
        message::joined(parts, n + 1) == message::joined(parts, n) + parts[n]@,
{
}

/// A control message passes descriptors if it says so, at most eight, each of four bytes
/// behind a header of sixteen.
pub proof fn law_passed_descriptors(c: Seq<u8>, i: int)
    requires
        c.len() >= 16,
        bytes::le64(c, 0) >= 16,
        0 <= i,
    ensures
        message::passes(c) <==> bytes::le32(c, 8) == 1 && bytes::le32(c, 12) == 1,
        message::passed_count(c) <= 8,
        message::passed_count(c) == 8 || message::passed_count(c) * 4 + 16 <= bytes::le64(c, 0)
            < message::passed_count(c) * 4 + 20,
        message::fd_at(c, i) == (bytes::le32(c, 16 + 4 * i) as u32) as i32,
{
}

/// A port in decimal is the port.
pub proof fn law_port_reads_back(p: int)
    requires
        0 <= p < 0x1_0000,
    ensures
        net::port_of(number::digits(p, 10)) == p,
    decreases p,
{
    let d = number::digits(p, 10);
    if p >= 10 {
        law_port_reads_back(p / 10);
        assert(d.drop_last() =~= number::digits(p / 10, 10));
    } else {
        assert(d.drop_last() =~= Seq::<u8>::empty());
        assert(net::port_of(d.drop_last()) == 0);
    }
}

/// A descriptor that is polled is ready for what it is asked of reading and writing; a
/// negative one is ready for nothing. The count is of those that are ready for something.
pub proof fn law_poll(p: PollFd, v: Seq<PollFd>)
    ensures
        net::polled(p).fd == p.fd,
        net::polled(p).events == p.events,
        p.fd < 0 ==> net::polled(p).revents == 0,
        p.fd >= 0 ==> net::polled(p).revents == p.events & 5,
        net::ready_count(Seq::empty()) == 0,
        net::ready_count(v.push(p)) == net::ready_count(v) + if p.revents != 0 {
            1int
        } else {
            0
        },
{
    assert(v.push(p).drop_last() =~= v);
}

/// Changing what is watched of a descriptor changes that and nothing else.
pub proof fn law_watch_is_changed(w: Seq<EpEntry>, d: i32, events: u32, data: u64, i: int)
    requires
        0 <= i < w.len(),
    ensures
        epoll::changed(w, d, events, data).len() == w.len(),
        w[i].fd == d ==> epoll::changed(w, d, events, data)[i].events == events && epoll::changed(
            w,
            d,
            events,
            data,
        )[i].data == data && epoll::changed(w, d, events, data)[i].fd == d,
        w[i].fd != d ==> epoll::changed(w, d, events, data)[i] == w[i],
{
}

/// What is reported of a descriptor: reading and writing where it is watched for and can be
/// done, and the end always.
pub proof fn law_reported_events(events: u32, bits: u64)
    ensures
        ({
            let r = epoll::revents_of(events, bits);
            &&& 0 <= r < 32
            &&& r % 2 == 1 <==> bits & 1 != 0 && events & 1 != 0
            &&& (r / 4) % 2 == 1 <==> bits & 4 != 0 && events & 4 != 0
            &&& r / 16 == 1 <==> bits & 2 != 0
            &&& (r / 2) % 2 == 0 && (r / 8) % 2 == 0
        }),
{
}

/// Each descriptor with something to report is reported once, in order, with its own data;
/// one with nothing to report, or that is gone, is not.
pub proof fn law_events_are_listed(w: Seq<EpEntry>, bits: Seq<Option<u64>>, n: int)
    requires
        0 <= n < w.len(),
        n < bits.len(),
    ensures
        ({
            let before = epoll::events_of(w, bits, n);
            let after = epoll::events_of(w, bits, n + 1);
            &&& bits[n] is None ==> after == before
            &&& bits[n] matches Some(b) ==> {
                let r = epoll::revents_of(w[n].events, b);
                &&& r == 0 ==> after == before
                &&& r != 0 ==> after == before.push((r as u32, w[n].data))
            }
        }),
        epoll::events_of(w, bits, 0).len() == 0,
{
}

/// A descriptor of an event set names it by its place.
pub proof fn law_event_sets(e: Epolls, d: i32, i: int, j: int)
    requires
        e.holds(d, i),
    ensures
        d == 1000 + i,
        0 <= i < 4,
        e.holds(d, j) ==> i == j,
{
}

/// A program's words, behind its name, each closed by a zero.
pub proof fn law_program_arguments(line: Seq<u8>, i: int)
    requires
        0 <= i < ident::tokens(line).len(),
    ensures
        start::argv_of(line).len() == ident::tokens(line).len() + 1,
        start::argv_of(line)[0] == seq![0x70u8, 0x72u8, 0x6Fu8, 0x67u8, 0u8],
        start::argv_of(line)[i + 1] == ident::tokens(line)[i].push(0),
{
}

/// Opening to write makes or empties the file, to append makes it, and to read neither.
pub proof fn law_open_modes(mode: Seq<u8>)
    ensures
        mode.len() > 0 && mode[0] == 0x77 ==> stdio::mode_flags(mode) == 1 + 0x40 + 0x200,
        mode.len() > 0 && mode[0] == 0x61 ==> stdio::mode_flags(mode) == 1 + 0x40,
        mode.len() == 0 || mode[0] != 0x77 && mode[0] != 0x61 ==> stdio::mode_flags(mode) == 0,
{
}

/// A new stream takes the lowest place that is free.
pub proof fn law_lowest_free_stream(v: Seq<FILE>, i: int)
    requires
        0 <= i <= v.len(),
    ensures
        stdio::first_free(v, i) is None ==> forall|k: int|
            i <= k < v.len() ==> (#[trigger] v[k]).fd >= 0,
        stdio::first_free(v, i) matches Some(k) ==> {
            &&& i <= k < v.len()
            &&& v[k].fd < 0
            &&& forall|j: int| i <= j < k ==> (#[trigger] v[j]).fd >= 0
        },
    decreases v.len() - i,
{
    if i < v.len() {
        law_lowest_free_stream(v, i + 1);
    }
}

/// A stream that appends starts at the end of its file.
pub proof fn law_append_starts_at_end(s: Seq<FdSlot>, d: i32)
    requires
        s.len() == 32,
        3 <= d < 32,
        s[d as int].used,
    ensures
        stdio::at_end(s, d)[d as int].off == s[d as int].size,
        stdio::at_end(s, d)[d as int].size == s[d as int].size,
        stdio::at_end(s, d)[d as int].handle == s[d as int].handle,
        stdio::at_end(s, d)[d as int].used,
        forall|i: int| 0 <= i < 32 && i != d ==> stdio::at_end(s, d)[i] == s[i],
{
}

/// A line is read up to its end, or as far as the buffer holds it and a zero.
pub proof fn law_line_is_read(input: Seq<u8>, n: int)
    requires
        n >= 1,
    ensures
        ({
            let r = stdio::line_len(input, n);
            &&& 0 <= r <= input.len()
            &&& r <= n - 1
            &&& forall|i: int| 0 <= i < r - 1 ==> #[trigger] input[i] != 10
            &&& r == n - 1 || r == input.len() || input[r - 1] == 10
        }),
{
    bytes::lemma_first_of(input, 10);
}

/// The first bytes of a text.
pub proof fn law_first_bytes(s: Seq<u8>, n: int)
    requires
        0 <= n,
    ensures
        packet::first(s, n).len() <= n,
        packet::first(s, n).len() == if s.len() <= n {
            s.len() as int
        } else {
            n
        },
        forall|i: int| 0 <= i < packet::first(s, n).len() ==> #[trigger] packet::first(s, n)[i]
            == s[i],
{
}

} // verus!
