//! Channels: connected pairs that stream bytes and pass capabilities both ways.
use vstd::prelude::*;
use crate::object;
use crate::object::{HandleEntry, ObjectRef};
use crate::ring;
use crate::ring::Ring;
use crate::thread::MAX_THREADS;
use crate::waitq;
use crate::waitq::{WaitQ, QCAP};

verus! {

/// Connections in the pool.
pub const NCONN: usize = 8;

/// Bytes buffered per direction.
pub const CBUF: usize = 8192;

/// Capabilities pending per direction.
pub const CAPQ: usize = 16;

/// One direction of a connection: a byte stream and a capability queue.
pub struct Dir {
    pub data: Ring<u8>,
    pub caps: Ring<HandleEntry>,
    /// Threads waiting to receive from this direction.
    pub readers: WaitQ,
    /// Threads waiting to send into this direction.
    pub writers: WaitQ,
}

impl Dir {
    pub open spec fn wf(&self) -> bool {
        &&& self.data.wf()
        &&& self.data.cap() == CBUF
        &&& self.caps.wf()
        &&& self.caps.cap() == CAPQ
        &&& forall|i: int|
            0 <= i < self.caps@.len() ==> object::names_object((#[trigger] self.caps@[i]).obj)
        &&& self.readers.wf()
        &&& self.writers.wf()
    }

    /// Nothing pending and nobody parked.
    pub open spec fn fresh(&self) -> bool {
        &&& self.wf()
        &&& self.data@ == Seq::<u8>::empty()
        &&& self.caps@ == Seq::<HandleEntry>::empty()
        &&& self.readers@ == Seq::<usize>::empty()
        &&& self.writers@ == Seq::<usize>::empty()
    }

    /// Neither a byte nor a capability is pending.
    pub open spec fn idle(&self) -> bool {
        self.data@.len() == 0 && self.caps@.len() == 0
    }

    fn new() -> (d: Self)
        ensures
            d.fresh(),
    {
        Dir {
            data: Ring::new(CBUF, 0u8),
            caps: Ring::new(CAPQ, HandleEntry { obj: ObjectRef::Console, rights: 0, badge: 0 }),
            readers: WaitQ::new(),
            writers: WaitQ::new(),
        }
    }
}

/// One connection. Direction 0 carries what side 0 sends, direction 1 what side 1 sends.
pub struct Conn {
    pub in_use: bool,
    pub open0: bool,
    pub open1: bool,
    pub dir0: Dir,
    pub dir1: Dir,
}

impl Conn {
    pub open spec fn wf(&self) -> bool {
        &&& self.dir0.wf()
        &&& self.dir1.wf()
    }

    /// Whether `side` is open.
    pub open spec fn is_open(&self, side: u8) -> bool {
        if side == 0 {
            self.open0
        } else {
            self.open1
        }
    }

    /// The direction that carries what `side` sends.
    pub open spec fn sends(&self, side: u8) -> Dir {
        if side == 0 {
            self.dir0
        } else {
            self.dir1
        }
    }

    /// The direction that `side` receives from.
    pub open spec fn receives(&self, side: u8) -> Dir {
        self.sends(peer(side))
    }

    /// This connection with the direction `side` sends into replaced.
    pub open spec fn with_sends(self, side: u8, d: Dir) -> Conn {
        if side == 0 {
            Conn { dir0: d, ..self }
        } else {
            Conn { dir1: d, ..self }
        }
    }
}

/// The other side.
pub open spec fn peer(side: u8) -> u8 {
    if side == 0 {
        1
    } else {
        0
    }
}

/// The pool of connections.
pub struct Conns {
    pub slots: Vec<Conn>,
}

/// Only slot `i` differs between two pools.
pub open spec fn only_changes(a: Seq<Conn>, b: Seq<Conn>, i: int) -> bool {
    b =~= a.update(i, b[i])
}

/// Only the direction that side `s` of connection `i` sends into differs.
pub open spec fn only_dir_changes(a: Seq<Conn>, b: Seq<Conn>, i: int, s: u8) -> bool {
    b =~= a.update(i, a[i].with_sends(s, b[i].sends(s)))
}

impl Conns {
    pub open spec fn wf(&self) -> bool {
        &&& self.slots@.len() == NCONN
        &&& forall|i: int| 0 <= i < NCONN ==> (#[trigger] self.slots@[i]).wf()
    }

    /// A pool in which no connection is in use.
    pub fn new() -> (c: Self)
        ensures
            c.wf(),
            forall|i: int| 0 <= i < NCONN ==> !(#[trigger] c.slots@[i]).in_use,
    {
        let mut slots: Vec<Conn> = Vec::new();
        let mut i: usize = 0;
        while i < NCONN
            invariant
                i <= NCONN,
                slots@.len() == i,
                forall|k: int| 0 <= k < i ==> (#[trigger] slots@[k]).wf() && !slots@[k].in_use,
            decreases NCONN - i,
        {
            slots.push(
                Conn {
                    in_use: false,
                    open0: false,
                    open1: false,
                    dir0: Dir::new(),
                    dir1: Dir::new(),
                },
            );
            i += 1;
        }
        Conns { slots }
    }
}

/// Outcome of a receive attempt.
#[derive(Clone, Copy, PartialEq, Eq, Debug, Structural)]
pub enum RecvOut {
    /// This many bytes were received, possibly 0 beside capabilities.
    Data(usize),
    /// The peer closed and nothing is left.
    Eof,
    /// Nothing is pending right now.
    WouldBlock,
}

/// What a receive of at most `want` bytes on `side` reports.
pub open spec fn recv_outcome(c: Conn, side: u8, want: nat) -> RecvOut {
    let d = c.receives(side);
    if !c.in_use || (d.idle() && !c.is_open(peer(side))) {
        RecvOut::Eof
    } else if d.idle() {
        RecvOut::WouldBlock
    } else {
        RecvOut::Data(ring::min_of(want, d.data@.len()) as usize)
    }
}

/// `e` is `d` after `n` bytes and `nc` capabilities were received from it.
pub open spec fn receives_from(d: Dir, e: Dir, n: int, nc: int) -> bool {
    &&& e.data@ =~= d.data@.subrange(n, d.data@.len() as int)
    &&& e.caps@ =~= d.caps@.subrange(nc, d.caps@.len() as int)
    &&& e.readers == d.readers
    &&& n > 0 ==> e.writers@ == Seq::<usize>::empty()
    &&& n == 0 ==> e.writers == d.writers
}

/// `e` is `d` after `bytes` and `caps` were sent into it.
pub open spec fn sends_into(d: Dir, e: Dir, bytes: Seq<u8>, caps: Seq<HandleEntry>) -> bool {
    &&& e.data@ =~= d.data@ + bytes
    &&& e.caps@ =~= d.caps@ + caps
    &&& e.writers == d.writers
    &&& bytes.len() > 0 || caps.len() > 0 ==> e.readers@ == Seq::<usize>::empty()
    &&& bytes.len() == 0 && caps.len() == 0 ==> e.readers == d.readers
}

/// What a send can go through to: the connection is in use and the peer is open.
pub open spec fn peer_reachable(c: Conn, side: u8) -> bool {
    c.in_use && c.is_open(peer(side))
}

/// Bytes and capabilities reach the other side in the order they were sent, none
/// lost and none made up: a send keeps it so.
pub proof fn law_fifo_send(
    d: Dir,
    e: Dir,
    sent: Seq<u8>,
    got: Seq<u8>,
    sent_caps: Seq<HandleEntry>,
    got_caps: Seq<HandleEntry>,
    bytes: Seq<u8>,
    caps: Seq<HandleEntry>,
)
    requires
        sent == got + d.data@,
        sent_caps == got_caps + d.caps@,
        sends_into(d, e, bytes, caps),
    ensures
        sent + bytes == got + e.data@,
        sent_caps + caps == got_caps + e.caps@,
{
    assert(sent + bytes =~= got + e.data@);
    assert(sent_caps + caps =~= got_caps + e.caps@);
}

/// The same for a receive.
pub proof fn law_fifo_recv(
    d: Dir,
    e: Dir,
    sent: Seq<u8>,
    got: Seq<u8>,
    sent_caps: Seq<HandleEntry>,
    got_caps: Seq<HandleEntry>,
    n: int,
    nc: int,
)
    requires
        sent == got + d.data@,
        sent_caps == got_caps + d.caps@,
        0 <= n <= d.data@.len(),
        0 <= nc <= d.caps@.len(),
        receives_from(d, e, n, nc),
    ensures
        sent == (got + d.data@.subrange(0, n)) + e.data@,
        sent_caps == (got_caps + d.caps@.subrange(0, nc)) + e.caps@,
{
    assert(sent =~= (got + d.data@.subrange(0, n)) + e.data@);
    assert(sent_caps =~= (got_caps + d.caps@.subrange(0, nc)) + e.caps@);
}

/// A connection in use reports the end only when the peer has closed and every
/// byte and capability has been drained.
pub proof fn law_eof_after_drain(c: Conn, side: u8, want: nat)
    requires
        c.in_use,
    ensures
        recv_outcome(c, side, want) == RecvOut::Eof <==> !c.is_open(peer(side)) && c.receives(
            side,
        ).idle(),
{
}

/// A call on a connection, with the side that made it and what it moved.
pub enum Event {
    /// These bytes and capabilities were accepted from the side.
    Sent(u8, Seq<u8>, Seq<HandleEntry>),
    /// The side received these.
    Received(u8, Seq<u8>, Seq<HandleEntry>),
    /// Threads were parked or woken, or a side was closed.
    Other,
}

/// Nothing on its way from `side` changed.
pub open spec fn same_cargo(c: Conn, e: Conn, side: u8) -> bool {
    e.sends(side).data@ == c.sends(side).data@ && e.sends(side).caps@ == c.sends(side).caps@
}

/// `e` holds on its way what `c` held before `event`.
pub open spec fn happens(c: Conn, e: Conn, event: Event) -> bool {
    match event {
        Event::Sent(s, bytes, caps) => {
            &&& s < 2
            &&& e.sends(s).data@ =~= c.sends(s).data@ + bytes
            &&& e.sends(s).caps@ =~= c.sends(s).caps@ + caps
            &&& same_cargo(c, e, peer(s))
        },
        Event::Received(s, bytes, caps) => {
            &&& s < 2
            &&& c.receives(s).data@ =~= bytes + e.receives(s).data@
            &&& c.receives(s).caps@ =~= caps + e.receives(s).caps@
            &&& same_cargo(c, e, s)
        },
        Event::Other => same_cargo(c, e, 0) && same_cargo(c, e, 1),
    }
}

/// A connection went through the states `h`, one event leading to the next.
pub open spec fn runs(h: Seq<Conn>, events: Seq<Event>) -> bool {
    &&& h.len() == events.len() + 1
    &&& forall|i: int|
        0 <= i < events.len() ==> happens(h[i], h[i + 1], #[trigger] events[i])
}

/// The bytes and capabilities accepted from `side`, in order.
pub open spec fn sent_by(events: Seq<Event>, side: u8) -> (Seq<u8>, Seq<HandleEntry>)
    decreases events.len(),
{
    if events.len() == 0 {
        (Seq::empty(), Seq::empty())
    } else {
        let before = sent_by(events.drop_last(), side);
        match events.last() {
            Event::Sent(s, bytes, caps) if s == side => (before.0 + bytes, before.1 + caps),
            _ => before,
        }
    }
}

/// The bytes and capabilities that `side` received, in order.
pub open spec fn received_by(events: Seq<Event>, side: u8) -> (Seq<u8>, Seq<HandleEntry>)
    decreases events.len(),
{
    if events.len() == 0 {
        (Seq::empty(), Seq::empty())
    } else {
        let before = received_by(events.drop_last(), side);
        match events.last() {
            Event::Received(s, bytes, caps) if s == side => (before.0 + bytes, before.1 + caps),
            _ => before,
        }
    }
}

/// Whatever was done with a connection since it was made, what a side has received is
/// what the other side sent, as far as it has got: in order, nothing lost, made up or
/// repeated, and nothing that it sent itself.
pub proof fn law_peer_gets_what_was_sent(h: Seq<Conn>, events: Seq<Event>, side: u8)
    requires
        side < 2,
        runs(h, events),
        h[0].dir0.fresh(),
        h[0].dir1.fresh(),
    ensures
        sent_by(events, side).0 == received_by(events, peer(side)).0 + h.last().sends(side).data@,
        sent_by(events, side).1 == received_by(events, peer(side)).1 + h.last().sends(side).caps@,
        received_by(events, peer(side)).0.is_prefix_of(sent_by(events, side).0),
        received_by(events, peer(side)).1.is_prefix_of(sent_by(events, side).1),
    decreases events.len(),
{
    if events.len() > 0 {
        let before = events.drop_last();
        let last = events.len() - 1;
        assert(runs(h.drop_last(), before)) by {
            assert forall|i: int| 0 <= i < before.len() implies happens(
                h.drop_last()[i],
                h.drop_last()[i + 1],
                #[trigger] before[i],
            ) by {
                assert(happens(h[i], h[i + 1], events[i]));
            }
        }
        law_peer_gets_what_was_sent(h.drop_last(), before, side);
        assert(happens(h[last], h[last + 1], events[last]));
    }
    assert(sent_by(events, side).0 =~= received_by(events, peer(side)).0 + h.last().sends(
        side,
    ).data@);
    assert(sent_by(events, side).1 =~= received_by(events, peer(side)).1 + h.last().sends(
        side,
    ).caps@);
}

/// Empty one direction in place.
fn reset_dir(d: &mut Dir)
    requires
        old(d).wf(),
    ensures
        final(d).fresh(),
{
    d.data.clear();
    d.caps.clear();
    d.readers = WaitQ::new();
    d.writers = WaitQ::new();
}

/// Slot `i` is now a fresh connection with both sides open, and nothing else changed.
pub open spec fn connected(a: Seq<Conn>, b: Seq<Conn>, i: int) -> bool {
    &&& b[i].in_use && b[i].open0 && b[i].open1
    &&& b[i].dir0.fresh() && b[i].dir1.fresh()
    &&& only_changes(a, b, i)
}

/// The lowest unused connection from `i` up.
pub open spec fn free_from(v: Seq<Conn>, i: int) -> int
    decreases v.len() - i,
{
    if i >= v.len() || !v[i].in_use {
        i
    } else {
        free_from(v, i + 1)
    }
}

/// `b` is `a` after the first free connection was taken, as `r` says.
pub open spec fn creates(a: Conns, b: Conns, r: Option<u8>) -> bool {
    let i = free_from(a.slots@, 0);
    match r {
        Some(k) => {
            &&& k == i
            &&& i < NCONN
            &&& connected(a.slots@, b.slots@, i)
        },
        None => i >= NCONN && b == a,
    }
}

/// Take the first free connection; both sides start open.
pub fn create(pool: &mut Conns) -> (r: Option<u8>)
    requires
        old(pool).wf(),
    ensures
        final(pool).wf(),
        creates(*old(pool), *final(pool), r),
{
    let mut i: usize = 0;
    while i < NCONN
        invariant
            pool.wf(),
            *pool == *old(pool),
            i <= NCONN,
            free_from(pool.slots@, 0) == free_from(pool.slots@, i as int),
        decreases NCONN - i,
    {
        if !pool.slots[i].in_use {
            let c = &mut pool.slots[i];
            reset_dir(&mut c.dir0);
            reset_dir(&mut c.dir1);
            c.in_use = true;
            c.open0 = true;
            c.open1 = true;
            return Some(i as u8);
        }
        i += 1;
    }
    None
}

/// Receive from `d`; see [`try_recv`].
fn dir_recv(d: &mut Dir, out: &mut [u8], caps_out: &mut [HandleEntry], wake: &mut [usize; QCAP]) -> (r: (
    usize,
    usize,
    usize,
))
    requires
        old(d).wf(),
    ensures
        final(d).wf(),
        r.0 == ring::min_of(old(out)@.len(), old(d).data@.len()),
        r.1 == ring::min_of(old(caps_out)@.len(), old(d).caps@.len()),
        receives_from(*old(d), *final(d), r.0 as int, r.1 as int),
        final(out)@ == ring::overlay(old(out)@, old(d).data@.subrange(0, r.0 as int)),
        final(caps_out)@ == ring::overlay(old(caps_out)@, old(d).caps@.subrange(0, r.1 as int)),
        r.2 == (if r.0 > 0 {
            old(d).writers@.len()
        } else {
            0
        }),
        final(wake)@.subrange(0, r.2 as int) == old(d).writers@.subrange(0, r.2 as int),
{
    let n: usize = d.data.read_into(out);
    let nc: usize = d.caps.read_into(caps_out);
    let nwake: usize = if n > 0 {
        d.writers.drain(wake)
    } else {
        0
    };
    (n, nc, nwake)
}

/// Receive on `side` up to `out.len()` bytes and `caps_out.len()` capabilities.
/// When bytes were received, the threads waiting for space move to the front of
/// `wake`. Returns the outcome, the number of capabilities and of threads to wake.
pub fn try_recv(
    pool: &mut Conns,
    idx: u8,
    side: u8,
    out: &mut [u8],
    caps_out: &mut [HandleEntry],
    wake: &mut [usize; QCAP],
) -> (r: (RecvOut, usize, usize))
    requires
        old(pool).wf(),
        idx < NCONN,
        side < 2,
    ensures
        final(pool).wf(),
        r.0 == recv_outcome(old(pool).slots@[idx as int], side, old(out)@.len()),
        match r.0 {
            RecvOut::Data(n) => {
                let d = old(pool).slots@[idx as int].receives(side);
                let e = final(pool).slots@[idx as int].receives(side);
                &&& only_dir_changes(old(pool).slots@, final(pool).slots@, idx as int, peer(side))
                &&& r.1 == ring::min_of(old(caps_out)@.len(), d.caps@.len())
                &&& receives_from(d, e, n as int, r.1 as int)
                &&& final(out)@ == ring::overlay(old(out)@, d.data@.subrange(0, n as int))
                &&& final(caps_out)@ == ring::overlay(
                    old(caps_out)@,
                    d.caps@.subrange(0, r.1 as int),
                )
                &&& r.2 == (if n > 0 {
                    d.writers@.len()
                } else {
                    0
                })
                &&& final(wake)@.subrange(0, r.2 as int) == d.writers@.subrange(0, r.2 as int)
                &&& happens(
                    old(pool).slots@[idx as int],
                    final(pool).slots@[idx as int],
                    Event::Received(
                        side,
                        final(out)@.subrange(0, n as int),
                        final(caps_out)@.subrange(0, r.1 as int),
                    ),
                )
            },
            _ => {
                &&& *final(pool) == *old(pool)
                &&& final(out)@ == old(out)@
                &&& final(caps_out)@ == old(caps_out)@
                &&& final(wake)@ == old(wake)@
                &&& r.1 == 0
                &&& r.2 == 0
            },
        },
{
    let i: usize = idx as usize;
    if !pool.slots[i].in_use {
        return (RecvOut::Eof, 0, 0);
    }
    let peer_open = if side == 0 {
        pool.slots[i].open1
    } else {
        pool.slots[i].open0
    };
    let idle = if side == 0 {
        pool.slots[i].dir1.data.len == 0 && pool.slots[i].dir1.caps.len == 0
    } else {
        pool.slots[i].dir0.data.len == 0 && pool.slots[i].dir0.caps.len == 0
    };
    if idle {
        if !peer_open {
            return (RecvOut::Eof, 0, 0);
        }
        return (RecvOut::WouldBlock, 0, 0);
    }
    let c = &mut pool.slots[i];
    let (n, nc, nwake) = if side == 0 {
        dir_recv(&mut c.dir1, out, caps_out, wake)
    } else {
        dir_recv(&mut c.dir0, out, caps_out, wake)
    };
    (RecvOut::Data(n), nc, nwake)
}

/// Send into `d`; see [`try_send`].
fn dir_send(d: &mut Dir, src: &[u8], caps: &[HandleEntry], wake: &mut [usize; QCAP]) -> (r: (
    usize,
    usize,
    usize,
))
    requires
        old(d).wf(),
        forall|i: int| 0 <= i < caps@.len() ==> object::names_object((#[trigger] caps@[i]).obj),
    ensures
        final(d).wf(),
        r.0 == ring::min_of(src@.len(), (CBUF - old(d).data@.len()) as nat),
        r.1 == ring::min_of(caps@.len(), (CAPQ - old(d).caps@.len()) as nat),
        sends_into(*old(d), *final(d), src@.subrange(0, r.0 as int), caps@.subrange(0, r.1 as int)),
        r.2 == (if r.0 > 0 || r.1 > 0 {
            old(d).readers@.len()
        } else {
            0
        }),
        final(wake)@.subrange(0, r.2 as int) == old(d).readers@.subrange(0, r.2 as int),
{
    let n: usize = d.data.write_from(src);
    let taken: usize = d.caps.write_from(caps);
    let nwake: usize = if n > 0 || taken > 0 {
        d.readers.drain(wake)
    } else {
        0
    };
    (n, taken, nwake)
}

/// Send on `side` as many bytes and capabilities as fit. When any were accepted,
/// the threads waiting to receive move to the front of `wake`. Returns the bytes
/// and capabilities accepted and the number of threads to wake; nothing is
/// accepted once the peer is gone.
pub fn try_send(
    pool: &mut Conns,
    idx: u8,
    side: u8,
    src: &[u8],
    caps: &[HandleEntry],
    wake: &mut [usize; QCAP],
) -> (r: (usize, usize, usize))
    requires
        old(pool).wf(),
        idx < NCONN,
        side < 2,
        forall|i: int| 0 <= i < caps@.len() ==> object::names_object((#[trigger] caps@[i]).obj),
    ensures
        final(pool).wf(),
        ({
            let c = old(pool).slots@[idx as int];
            let d = c.sends(side);
            if peer_reachable(c, side) {
                &&& only_dir_changes(old(pool).slots@, final(pool).slots@, idx as int, side)
                &&& r.0 == ring::min_of(src@.len(), (CBUF - d.data@.len()) as nat)
                &&& r.1 == ring::min_of(caps@.len(), (CAPQ - d.caps@.len()) as nat)
                &&& sends_into(
                    d,
                    final(pool).slots@[idx as int].sends(side),
                    src@.subrange(0, r.0 as int),
                    caps@.subrange(0, r.1 as int),
                )
                &&& r.2 == (if r.0 > 0 || r.1 > 0 {
                    d.readers@.len()
                } else {
                    0
                })
                &&& final(wake)@.subrange(0, r.2 as int) == d.readers@.subrange(0, r.2 as int)
            } else {
                &&& *final(pool) == *old(pool)
                &&& r == (0usize, 0usize, 0usize)
            }
        }),
        happens(
            old(pool).slots@[idx as int],
            final(pool).slots@[idx as int],
            Event::Sent(side, src@.subrange(0, r.0 as int), caps@.subrange(0, r.1 as int)),
        ),
{
    let i: usize = idx as usize;
    let peer_open = if side == 0 {
        pool.slots[i].open1
    } else {
        pool.slots[i].open0
    };
    if !pool.slots[i].in_use || !peer_open {
        return (0, 0, 0);
    }
    let c = &mut pool.slots[i];
    if side == 0 {
        dir_send(&mut c.dir0, src, caps, wake)
    } else {
        dir_send(&mut c.dir1, src, caps, wake)
    }
}

/// The readiness bits of `side`: 1 readable, 2 end of stream, 4 writable.
pub open spec fn readiness(c: Conn, side: u8) -> u64 {
    if !c.in_use {
        3
    } else {
        let open = c.is_open(peer(side));
        let readable = !c.receives(side).idle() || !open;
        let writable = open && c.sends(side).data@.len() < CBUF;
        ((if readable {
            1int
        } else {
            0
        }) + (if !open {
            2int
        } else {
            0
        }) + (if writable {
            4int
        } else {
            0
        })) as u64
    }
}

/// Readiness of `side` without consuming anything.
pub fn poll(pool: &Conns, idx: u8, side: u8) -> (bits: u64)
    requires
        pool.wf(),
        idx < NCONN,
        side < 2,
    ensures
        bits == readiness(pool.slots@[idx as int], side),
{
    let c = &pool.slots[idx as usize];
    if !c.in_use {
        return 3;
    }
    let peer_open = if side == 0 {
        c.open1
    } else {
        c.open0
    };
    let rd = if side == 0 {
        &c.dir1
    } else {
        &c.dir0
    };
    let wr = if side == 0 {
        &c.dir0
    } else {
        &c.dir1
    };
    let mut bits: u64 = 0;
    if rd.data.len > 0 || rd.caps.len > 0 || !peer_open {
        bits = bits + 1;
    }
    if !peer_open {
        bits = bits + 2;
    }
    if peer_open && wr.data.len < CBUF {
        bits = bits + 4;
    }
    bits
}

/// Whether the peer of `side` can still receive.
pub fn peer_open(pool: &Conns, idx: u8, side: u8) -> (b: bool)
    requires
        pool.wf(),
        idx < NCONN,
        side < 2,
    ensures
        b == peer_reachable(pool.slots@[idx as int], side),
{
    let c = &pool.slots[idx as usize];
    c.in_use && (if side == 0 {
        c.open1
    } else {
        c.open0
    })
}

/// Park `tid` until something arrives for `side`.
pub fn park_recv(pool: &mut Conns, idx: u8, side: u8, tid: usize)
    requires
        old(pool).wf(),
        tid < MAX_THREADS,
        idx < NCONN,
        side < 2,
    ensures
        final(pool).wf(),
        readers_become(
            old(pool).slots@,
            final(pool).slots@,
            idx as int,
            peer(side),
            waitq::q_push(old(pool).slots@[idx as int].receives(side).readers@, tid),
        ),
{
    if side == 0 {
        pool.slots[idx as usize].dir1.readers.push(tid);
    } else {
        pool.slots[idx as usize].dir0.readers.push(tid);
    }
}

/// Park `tid` until the peer of `side` frees space.
pub fn park_send(pool: &mut Conns, idx: u8, side: u8, tid: usize)
    requires
        old(pool).wf(),
        tid < MAX_THREADS,
        idx < NCONN,
        side < 2,
    ensures
        final(pool).wf(),
        ({
            let d = old(pool).slots@[idx as int].sends(side);
            let e = final(pool).slots@[idx as int].sends(side);
            &&& only_dir_changes(old(pool).slots@, final(pool).slots@, idx as int, side)
            &&& e == (Dir { writers: e.writers, ..d })
            &&& e.writers@ == waitq::q_push(d.writers@, tid)
        }),
{
    if side == 0 {
        pool.slots[idx as usize].dir0.writers.push(tid);
    } else {
        pool.slots[idx as usize].dir1.writers.push(tid);
    }
}

/// Only the read queue of the direction `s` sends into differs, and it is now `q`.
pub open spec fn readers_become(
    a: Seq<Conn>,
    b: Seq<Conn>,
    i: int,
    s: u8,
    q: Seq<usize>,
) -> bool {
    let d = a[i].sends(s);
    let e = b[i].sends(s);
    &&& only_dir_changes(a, b, i, s)
    &&& e == (Dir { readers: e.readers, ..d })
    &&& e.readers@ == q
}

/// Take `tid` off the queue that [`park_recv`] put it on.
pub fn unpark_recv(pool: &mut Conns, idx: u8, side: u8, tid: usize)
    requires
        old(pool).wf(),
        idx < NCONN,
        side < 2,
    ensures
        final(pool).wf(),
        readers_become(
            old(pool).slots@,
            final(pool).slots@,
            idx as int,
            peer(side),
            waitq::q_remove(old(pool).slots@[idx as int].receives(side).readers@, tid),
        ),
{
    if side == 0 {
        pool.slots[idx as usize].dir1.readers.remove(tid);
    } else {
        pool.slots[idx as usize].dir0.readers.remove(tid);
    }
}

/// Close `side`. The peer's waiting receivers move to the front of `wake`; the
/// connection is free again once both sides are closed. Returns how many to wake.
pub fn close(pool: &mut Conns, idx: u8, side: u8, wake: &mut [usize; QCAP]) -> (n: usize)
    requires
        old(pool).wf(),
        idx < NCONN,
        side < 2,
    ensures
        final(pool).wf(),
        ({
            let c = old(pool).slots@[idx as int];
            let e = final(pool).slots@[idx as int];
            if c.in_use {
                &&& only_changes(old(pool).slots@, final(pool).slots@, idx as int)
                &&& !e.is_open(side)
                &&& e.is_open(peer(side)) == c.is_open(peer(side))
                &&& e.in_use == c.is_open(peer(side))
                &&& e.receives(side) == c.receives(side)
                &&& e.sends(side) == (Dir { readers: e.sends(side).readers, ..c.sends(side) })
                &&& e.sends(side).readers@ == Seq::<usize>::empty()
                &&& n == c.sends(side).readers@.len()
                &&& final(wake)@.subrange(0, n as int) == c.sends(side).readers@
            } else {
                &&& *final(pool) == *old(pool)
                &&& n == 0
            }
        }),
{
    let i: usize = idx as usize;
    if !pool.slots[i].in_use {
        return 0;
    }
    let c = &mut pool.slots[i];
    let nwake: usize = if side == 0 {
        c.open0 = false;
        c.dir0.readers.drain(wake)
    } else {
        c.open1 = false;
        c.dir1.readers.drain(wake)
    };
    if !c.open0 && !c.open1 {
        c.in_use = false;
    }
    nwake
}

} // verus!
