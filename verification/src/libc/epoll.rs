//! Readiness multiplexers: tables of watched descriptors.
use crate::libc::fd::EPOLL_FD_BASE;
use vstd::prelude::*;

verus! {

/// Multiplexers at once.
pub const EPOLL_MAX: usize = 4;

/// Descriptors one of them watches.
pub const EPOLL_WATCH: usize = 48;

/// Readable.
pub const EPOLLIN: u32 = 1;

/// Writable.
pub const EPOLLOUT: u32 = 4;

/// Closed by the other side.
pub const EPOLLHUP: u32 = 16;

/// One watched descriptor.
#[derive(Clone, Copy, PartialEq, Eq, Structural, Debug)]
pub struct EpEntry {
    pub fd: i32,
    pub events: u32,
    pub data: u64,
}

/// One multiplexer.
pub struct EpollInst {
    pub used: bool,
    pub w: Vec<EpEntry>,
}

/// What is changed.
#[derive(Clone, Copy, PartialEq, Eq, Structural, Debug)]
pub enum Ctl {
    Watch,
    Forget,
    Change,
}

/// The change that a number asks for.
pub fn ctl_of(op: i32) -> (r: Option<Ctl>)
    ensures
        r == (if op == 1 {
            Some(Ctl::Watch)
        } else if op == 2 {
            Some(Ctl::Forget)
        } else if op == 3 {
            Some(Ctl::Change)
        } else {
            None
        }),
{
    if op == 1 {
        Some(Ctl::Watch)
    } else if op == 2 {
        Some(Ctl::Forget)
    } else if op == 3 {
        Some(Ctl::Change)
    } else {
        None
    }
}

/// The entries from `i` on without those of `fd`: the last takes the place of
/// one that goes.
pub open spec fn forgotten(w: Seq<EpEntry>, fd: i32, i: int) -> Seq<EpEntry>
    decreases w.len() - i,
{
    if i < 0 || i >= w.len() {
        w
    } else if w[i].fd == fd {
        forgotten(w.update(i, w.last()).drop_last(), fd, i)
    } else {
        forgotten(w, fd, i + 1)
    }
}

/// The entries with those of `fd` replaced.
pub open spec fn changed(w: Seq<EpEntry>, fd: i32, events: u32, data: u64) -> Seq<EpEntry> {
    Seq::new(
        w.len(),
        |i: int|
            if w[i].fd == fd {
                EpEntry { fd, events, data }
            } else {
                w[i]
            },
    )
}

/// What is reported of an entry whose descriptor is ready for `bits`: readable
/// and writable only when asked for, closed in any case.
pub open spec fn revents_of(events: u32, bits: u64) -> int {
    (if bits & 1 != 0 && events & 1 != 0 {
        EPOLLIN as int
    } else {
        0
    }) + (if bits & 2 != 0 {
        EPOLLHUP as int
    } else {
        0
    }) + (if bits & 4 != 0 && events & 4 != 0 {
        EPOLLOUT as int
    } else {
        0
    })
}

/// What is reported of an entry; nothing of a descriptor that is no channel.
pub open spec fn reported(e: EpEntry, bits: Option<u64>) -> int {
    match bits {
        Some(b) => revents_of(e.events, b),
        None => 0,
    }
}

/// The events of the first `n` entries that have any.
pub open spec fn events_of(w: Seq<EpEntry>, bits: Seq<Option<u64>>, n: int) -> Seq<(u32, u64)>
    decreases n,
{
    if n <= 0 {
        Seq::empty()
    } else {
        let rest = events_of(w, bits, n - 1);
        let r = reported(w[n - 1], bits[n - 1]);
        if r != 0 {
            rest.push((r as u32, w[n - 1].data))
        } else {
            rest
        }
    }
}

/// What is reported of an entry.
pub fn revents(events: u32, bits: u64) -> (r: u32)
    ensures
        r == revents_of(events, bits),
{
    let mut r: u32 = 0;
    if bits & 1 != 0 && events & 1 != 0 {
        r = r + EPOLLIN;
    }
    if bits & 2 != 0 {
        r = r + EPOLLHUP;
    }
    if bits & 4 != 0 && events & 4 != 0 {
        r = r + EPOLLOUT;
    }
    r
}

impl EpollInst {
    /// Watch a descriptor, forget it, or change what is watched of it. `false`
    /// when there is no room, or nothing is said of what to watch.
    pub fn ctl(&mut self, op: Ctl, fd: i32, ev: Option<(u32, u64)>) -> (ok: bool)
        requires
            old(self).w.len() <= EPOLL_WATCH,
        ensures
            final(self).used == old(self).used,
            final(self).w.len() <= EPOLL_WATCH,
            ({
                let w = old(self).w@;
                match op {
                    Ctl::Watch => if w.len() < EPOLL_WATCH && ev is Some {
                        &&& ok
                        &&& final(self).w@ == w.push(
                            EpEntry { fd, events: (ev->0).0, data: (ev->0).1 },
                        )
                    } else {
                        !ok && final(self).w@ == w
                    },
                    Ctl::Forget => ok && final(self).w@ == forgotten(w, fd, 0),
                    Ctl::Change => ok && final(self).w@ == (match ev {
                        Some(e) => changed(w, fd, e.0, e.1),
                        None => w,
                    }),
                }
            }),
    {
        match op {
            Ctl::Watch => match ev {
                Some((events, data)) => {
                    if self.w.len() < EPOLL_WATCH {
                        self.w.push(EpEntry { fd, events, data });
                        true
                    } else {
                        false
                    }
                },
                None => false,
            },
            Ctl::Forget => {
                let mut i: usize = 0;
                while i < self.w.len()
                    invariant
                        self.used == old(self).used,
                        i <= self.w.len() <= EPOLL_WATCH,
                        forgotten(self.w@, fd, i as int) == forgotten(old(self).w@, fd, 0),
                    decreases self.w.len() - i,
                {
                    if self.w[i].fd == fd {
                        let n: usize = self.w.len();
                        let last = self.w[n - 1];
                        self.w.set(i, last);
                        self.w.truncate(n - 1);
                    } else {
                        i += 1;
                    }
                }
                true
            },
            Ctl::Change => match ev {
                Some((events, data)) => {
                    let ghost before = self.w@;
                    let mut i: usize = 0;
                    while i < self.w.len()
                        invariant
                            self.used == old(self).used,
                            i <= self.w.len() <= EPOLL_WATCH,
                            before.len() == self.w@.len(),
                            self.w@ =~= Seq::new(
                                before.len(),
                                |k: int|
                                    if k < i && before[k].fd == fd {
                                        EpEntry { fd, events, data }
                                    } else {
                                        before[k]
                                    },
                            ),
                        decreases self.w.len() - i,
                    {
                        if self.w[i].fd == fd {
                            self.w.set(i, EpEntry { fd, events, data });
                        }
                        i += 1;
                    }
                    assert(self.w@ =~= changed(before, fd, events, data));
                    true
                },
                None => true,
            },
        }
    }

    /// The events of the watched descriptors, at most `max` of them. `bits[i]`
    /// is what the descriptor of entry `i` is ready for, if it is a channel.
    pub fn collect(&self, bits: &[Option<u64>], max: usize) -> (v: Vec<(u32, u64)>)
        requires
            bits.len() == self.w.len(),
        ensures
            ({
                let all = events_of(self.w@, bits@, self.w@.len() as int);
                v@ == (if all.len() <= max {
                    all
                } else {
                    all.subrange(0, max as int)
                })
            }),
    {
        let mut v: Vec<(u32, u64)> = Vec::new();
        let mut i: usize = 0;
        assert(v@ =~= events_of(self.w@, bits@, 0));
        while i < self.w.len()
            invariant
                i <= self.w.len(),
                bits.len() == self.w.len(),
                v@ == events_of(self.w@, bits@, i as int),
                v@.len() <= max,
            decreases self.w.len() - i,
        {
            if v.len() >= max {
                proof {
                    lemma_events_prefix(self.w@, bits@, i as int, self.w@.len() as int);
                    let all = events_of(self.w@, bits@, self.w@.len() as int);
                    assert(v@ =~= all.subrange(0, max as int));
                    if all.len() <= max {
                        assert(v@ =~= all);
                    }
                }
                return v;
            }
            if let Some(b) = bits[i] {
                let r: u32 = revents(self.w[i].events, b);
                if r != 0 {
                    v.push((r, self.w[i].data));
                }
            }
            i += 1;
        }
        v
    }
}

/// The events of some entries begin those of more.
proof fn lemma_events_prefix(w: Seq<EpEntry>, bits: Seq<Option<u64>>, n: int, m: int)
    requires
        0 <= n <= m,
    ensures
        events_of(w, bits, n).len() <= events_of(w, bits, m).len(),
        events_of(w, bits, m).subrange(0, events_of(w, bits, n).len() as int) == events_of(
            w,
            bits,
            n,
        ),
    decreases m,
{
    if n == m {
        assert(events_of(w, bits, m).subrange(0, events_of(w, bits, m).len() as int) =~= events_of(
            w,
            bits,
            n,
        ));
    } else {
        lemma_events_prefix(w, bits, n, m - 1);
        let a = events_of(w, bits, m);
        let b = events_of(w, bits, m - 1);
        let k = events_of(w, bits, n).len() as int;
        assert(a.subrange(0, k) =~= b.subrange(0, k));
    }
}

/// All multiplexers.
pub struct Epolls {
    pub v: Vec<EpollInst>,
}

impl Epolls {
    /// A full table of multiplexers, each within its room.
    pub open spec fn wf(&self) -> bool {
        &&& self.v@.len() == EPOLL_MAX
        &&& forall|i: int| 0 <= i < EPOLL_MAX ==> (#[trigger] self.v@[i]).w@.len() <= EPOLL_WATCH
    }

    /// No multiplexer in use.
    pub fn new() -> (t: Epolls)
        ensures
            t.wf(),
            forall|i: int| 0 <= i < EPOLL_MAX ==> !(#[trigger] t.v@[i]).used,
    {
        let mut v: Vec<EpollInst> = Vec::new();
        let mut i: usize = 0;
        while i < EPOLL_MAX
            invariant
                i <= EPOLL_MAX,
                v@.len() == i,
                forall|k: int|
                    0 <= k < i ==> !(#[trigger] v@[k]).used && v@[k].w@.len() == 0,
            decreases EPOLL_MAX - i,
        {
            v.push(EpollInst { used: false, w: Vec::new() });
            i += 1;
        }
        Epolls { v }
    }

    /// Make a multiplexer: the first that is free, empty.
    pub fn epoll_create1(&mut self) -> (fd: i32)
        requires
            old(self).wf(),
        ensures
            final(self).wf(),
            if exists|i: int| 0 <= i < EPOLL_MAX && !(#[trigger] old(self).v@[i]).used {
                let i = fd - EPOLL_FD_BASE;
                &&& 0 <= i < EPOLL_MAX
                &&& !old(self).v@[i].used
                &&& forall|j: int| 0 <= j < i ==> (#[trigger] old(self).v@[j]).used
                &&& final(self).v@[i].used
                &&& final(self).v@[i].w@.len() == 0
                &&& forall|j: int|
                    0 <= j < EPOLL_MAX && j != i ==> #[trigger] final(self).v@[j] == old(
                        self,
                    ).v@[j]
            } else {
                fd == -1 && final(self).v@ == old(self).v@
            },
    {
        let mut i: usize = 0;
        while i < EPOLL_MAX
            invariant
                i <= EPOLL_MAX,
                self.wf(),
                self.v@ == old(self).v@,
                forall|j: int| 0 <= j < i ==> (#[trigger] self.v@[j]).used,
            decreases EPOLL_MAX - i,
        {
            if !self.v[i].used {
                assert(!old(self).v@[i as int].used);
                self.v.set(i, EpollInst { used: true, w: Vec::new() });
                return EPOLL_FD_BASE + i as i32;
            }
            i += 1;
        }
        -1
    }

    /// `epfd` is the multiplexer at `i`, in use.
    pub open spec fn holds(&self, epfd: i32, i: int) -> bool {
        epfd == EPOLL_FD_BASE + i && 0 <= i < EPOLL_MAX && self.v@[i].used
    }

    /// Where a multiplexer in use is.
    pub fn epoll_inst(&self, epfd: i32) -> (r: Option<usize>)
        requires
            self.wf(),
        ensures
            match r {
                Some(i) => self.holds(epfd, i as int),
                None => forall|i: int| !self.holds(epfd, i),
            },
    {
        if epfd < EPOLL_FD_BASE || epfd >= EPOLL_FD_BASE + EPOLL_MAX as i32 {
            return None;
        }
        let i: usize = (epfd - EPOLL_FD_BASE) as usize;
        if self.v[i].used {
            Some(i)
        } else {
            assert forall|j: int| !self.holds(epfd, j) by {}
            None
        }
    }

    /// Change what a multiplexer watches: 0, or -1 when there is no such
    /// multiplexer or operation, or the change fails.
    pub fn epoll_ctl(&mut self, epfd: i32, op: i32, fd: i32, ev: Option<(u32, u64)>) -> (r: i32)
        requires
            old(self).wf(),
        ensures
            final(self).wf(),
            r == 0 || r == -1,
            ({
                let i = epfd - EPOLL_FD_BASE;
                if old(self).holds(epfd, i) && 1 <= op <= 3 {
                    let w = old(self).v@[i].w@;
                    let u = final(self).v@[i].w@;
                    &&& (r == 0) == (op != 1 || (w.len() < EPOLL_WATCH && ev is Some))
                    &&& u == (if op == 1 {
                        if r == 0 {
                            w.push(EpEntry { fd, events: (ev->0).0, data: (ev->0).1 })
                        } else {
                            w
                        }
                    } else if op == 2 {
                        forgotten(w, fd, 0)
                    } else {
                        match ev {
                            Some(e) => changed(w, fd, e.0, e.1),
                            None => w,
                        }
                    })
                    &&& final(self).v@[i].used
                    &&& forall|j: int|
                        0 <= j < EPOLL_MAX && j != i ==> #[trigger] final(self).v@[j] == old(
                            self,
                        ).v@[j]
                } else {
                    r == -1 && final(self).v@ == old(self).v@
                }
            }),
    {
        let i: usize = match self.epoll_inst(epfd) {
            Some(i) => i,
            None => {
                assert(!self.holds(epfd, epfd - EPOLL_FD_BASE));
                return -1;
            },
        };
        match ctl_of(op) {
            Some(c) => {
                let inst = &mut self.v[i];
                if inst.ctl(c, fd, ev) {
                    0
                } else {
                    -1
                }
            },
            None => -1,
        }
    }

    /// One look at a multiplexer: an error, the events that there are, nothing
    /// once the wait is over, or another look. `bits[i]` is what the descriptor
    /// of its entry `i` is ready for, if it is a channel.
    pub fn epoll_wait(
        &self,
        epfd: i32,
        bits: &[Option<u64>],
        maxevents: i32,
        timeout: i32,
        now: u64,
        end: u64,
    ) -> (r: Wait)
        requires
            self.wf(),
            self.holds(epfd, epfd - EPOLL_FD_BASE) ==> bits.len() == self.v@[epfd
                - EPOLL_FD_BASE].w@.len(),
        ensures
            ({
                let i = epfd - EPOLL_FD_BASE;
                if !self.holds(epfd, i) || maxevents <= 0 {
                    r is Bad
                } else {
                    let all = events_of(self.v@[i].w@, bits@, self.v@[i].w@.len() as int);
                    if all.len() > 0 {
                        &&& r is Ready
                        &&& r->0@ == (if all.len() <= maxevents {
                            all
                        } else {
                            all.subrange(0, maxevents as int)
                        })
                    } else if timeout == 0 || now >= end {
                        r is Over
                    } else {
                        r is Again
                    }
                }
            }),
    {
        let i: usize = match self.epoll_inst(epfd) {
            Some(i) => i,
            None => {
                assert(!self.holds(epfd, epfd - EPOLL_FD_BASE));
                return Wait::Bad;
            },
        };
        if maxevents <= 0 {
            return Wait::Bad;
        }
        let v = self.v[i].collect(bits, maxevents as usize);
        if v.len() > 0 {
            Wait::Ready(v)
        } else if expired(timeout, now, end) {
            Wait::Over
        } else {
            Wait::Again
        }
    }
}

/// What a look at a multiplexer brings.
pub enum Wait {
    Bad,
    Ready(Vec<(u32, u64)>),
    Over,
    Again,
}

/// When a wait ends: never, or after some milliseconds.
pub fn deadline(timeout: i32, now: u64) -> (d: u64)
    ensures
        d == (if timeout < 0 {
            u64::MAX as int
        } else {
            (now + timeout) % 0x1_0000_0000_0000_0000
        }),
{
    if timeout < 0 {
        u64::MAX
    } else {
        now.wrapping_add(timeout as u64)
    }
}

/// Whether a wait without events is over.
pub fn expired(timeout: i32, now: u64, end: u64) -> (b: bool)
    ensures
        b == (timeout == 0 || now >= end),
{
    timeout == 0 || now >= end
}

/// Forgetting leaves no entry of the descriptor, and every other one as often
/// as it was.
pub proof fn law_forgotten(w: Seq<EpEntry>, fd: i32, i: int)
    requires
        0 <= i <= w.len(),
        forall|k: int| 0 <= k < i ==> (#[trigger] w[k]).fd != fd,
    ensures
        forall|k: int| 0 <= k < forgotten(w, fd, i).len() ==> (#[trigger] forgotten(w, fd, i)[k]).fd != fd,
        forall|e: EpEntry|
            e.fd != fd ==> #[trigger] forgotten(w, fd, i).to_multiset().count(e)
                == w.to_multiset().count(e),
    decreases w.len() - i,
{
    broadcast use vstd::seq_lib::group_to_multiset_ensures;

    if i < w.len() {
        if w[i].fd == fd {
            let u = w.update(i, w.last()).drop_last();
            assert forall|k: int| 0 <= k < i implies (#[trigger] u[k]).fd != fd by {
                assert(u[k] == w[k]);
            }
            law_forgotten(u, fd, i);
            assert(forgotten(w, fd, i) == forgotten(u, fd, i));
            let x = w.update(i, w.last());
            assert(u.push(w.last()) =~= x);
            vstd::seq_lib::to_multiset_update(w, i, w.last());
            vstd::seq_lib::to_multiset_build(u, w.last());
            assert forall|e: EpEntry| e.fd != fd implies #[trigger] forgotten(
                w,
                fd,
                i,
            ).to_multiset().count(e) == w.to_multiset().count(e) by {
                assert(u.to_multiset().count(e) == forgotten(u, fd, i).to_multiset().count(e));
                let last = w.last();
                assert(e != w[i]);
                assert(x.to_multiset().count(e) == u.to_multiset().insert(last).count(e));
                assert(x.to_multiset().count(e) == w.to_multiset().insert(last).remove(
                    w[i],
                ).count(e));
                assert(w.to_multiset().insert(last).remove(w[i]).count(e)
                    == w.to_multiset().insert(last).count(e));
            }
        } else {
            assert forall|k: int| 0 <= k < i + 1 implies (#[trigger] w[k]).fd != fd by {}
            law_forgotten(w, fd, i + 1);
            assert(forgotten(w, fd, i) == forgotten(w, fd, i + 1));
        }
    }
}

/// A multiplexer reports a channel that was closed whatever it was asked for.
pub proof fn law_closed_is_reported(events: u32, bits: u64)
    requires
        bits & 2 != 0,
    ensures
        revents_of(events, bits) >= EPOLLHUP,
{
}

} // verus!
