//! Laws of message passing: what a receiver gets of a send or a call, what a caller gets of
//! a reply, and who waits for whom.

use crate::abi::{Handle, MsgView};
use crate::ipc::{self, EpView, Got, Reply, SlotView, World};
use crate::notif::Outcome;
use crate::object::{HandleEntry, ObjectRef};
use crate::proc::{self, Table};
use crate::shm::Region;
use crate::thread::{State, Tcb};
use vstd::prelude::*;

verus! {

/// Every pool of the world has its size.
pub open spec fn shaped(w: World) -> bool {
    &&& w.tcbs.len() == 256
    &&& w.slots.len() == 256
    &&& w.replies.len() == 8
    &&& w.tables.len() == 32
    &&& forall|p: int| 0 <= p < 32 ==> (#[trigger] w.tables[p]).len() == 64
}

/// Thread `t` is a thread of a process.
pub open spec fn in_process(w: World, t: int) -> bool {
    0 <= t < 256 && w.tcbs[t].proc < 32
}

/// Empty slots of a table from `i` up.
pub open spec fn vacancies(t: Table, i: int) -> int
    decreases 64 - i,
{
    if i >= 64 {
        0
    } else {
        vacancies(t, i + 1) + (if t[i] is None {
            1int
        } else {
            0
        })
    }
}

/// The first `n` handles lead to capabilities that may be granted.
pub open spec fn grantable(t: Table, handles: Seq<Handle>, n: int) -> bool {
    forall|k: int|
        0 <= k < n ==> 1 <= (#[trigger] handles[k]) < 64 && t[handles[k] as int] is Some
            && t[handles[k] as int]->0.rights & 4 != 0
}

/// Thread `from` can send `msg`, and process `to` has room for what comes with it and, if
/// `call`, for the right to answer.
pub open spec fn sendable(w: World, from: int, to: int, msg: MsgView, call: bool) -> bool {
    &&& shaped(w)
    &&& in_process(w, from)
    &&& 0 <= to < 32
    &&& msg.within_limits()
    &&& msg.handles.len() == 4
    &&& grantable(w.tables[w.tcbs[from].proc as int], msg.handles, msg.handle_count as int)
    &&& vacancies(w.tables[to], 1) >= msg.handle_count + if call {
        1int
    } else {
        0
    }
    &&& call ==> exists|i: int| 0 <= i < 8 && !(#[trigger] w.replies[i]).in_use
}

/// Message `m` is `msg` but for the names of its capabilities, which are those that table
/// `t` has for the capabilities that `handles` name in `s`.
pub open spec fn arrived(m: MsgView, msg: MsgView, s: Table, t: Table) -> bool {
    &&& m.tag == msg.tag
    &&& m.badge == msg.badge
    &&& m.data_len == msg.data_len
    &&& m.data == msg.data
    &&& m.handle_count == msg.handle_count
    &&& forall|k: int|
        0 <= k < msg.handle_count ==> 1 <= (#[trigger] m.handles[k]) < 64 && t[m.handles[k] as int]
            == s[msg.handles[k] as int]
}

/// Handle `h` of table `t` is the right to answer thread `caller`.
pub open spec fn answers(w: World, t: Table, h: Handle, caller: int) -> bool {
    &&& 1 <= h < 64
    &&& t[h as int] is Some
    &&& t[h as int]->0.obj matches ObjectRef::Reply(i) && {
        &&& i < 8
        &&& w.replies[i as int].in_use
        &&& w.replies[i as int].caller_tid == caller
        &&& w.replies[i as int].gen == t[h as int]->0.badge
    }
}

proof fn lemma_vacancy_filled(t: Table, i: int, h: int, e: Option<HandleEntry>)
    requires
        0 <= i,
        0 <= h < 64,
        t.len() == 64,
        t[h] is None,
        e is Some,
    ensures
        vacancies(t.update(h, e), i) == vacancies(t, i) - (if i <= h {
            1int
        } else {
            0
        }),
    decreases 64 - i,
{
    if i < 64 {
        lemma_vacancy_filled(t, i + 1, h, e);
    }
}

proof fn lemma_room(t: Table, i: int)
    requires
        1 <= i <= 64,
        t.len() == 64,
    ensures
        i <= proc::empty_from(t, i) <= 64,
        vacancies(t, i) > 0 ==> proc::empty_from(t, i) < 64,
        proc::empty_from(t, i) < 64 ==> t[proc::empty_from(t, i)] is None,
        vacancies(t, i) >= 0,
        proc::empty_from(t, i) < 64 ==> vacancies(t, i) > 0,
    decreases 64 - i,
{
    if i < 64 {
        lemma_room(t, i + 1);
    }
}

/// The first free reply from `i` up is free, and those before it are not.
pub proof fn lemma_free_reply(v: Seq<Reply>, i: int)
    requires
        0 <= i <= v.len(),
    ensures
        i <= ipc::free_reply_from(v, i) <= v.len(),
        ipc::free_reply_from(v, i) < v.len() ==> !v[ipc::free_reply_from(v, i)].in_use,
        forall|k: int| i <= k < ipc::free_reply_from(v, i) ==> (#[trigger] v[k]).in_use,
    decreases v.len() - i,
{
    if i < v.len() {
        lemma_free_reply(v, i + 1);
    }
}

/// A message is refused just if one of its handles leads nowhere or may not be granted.
pub proof fn lemma_grants(t: Table, handles: Seq<Handle>, i: int, n: int)
    requires
        0 <= i <= n,
        t.len() == 64,
    ensures
        ipc::grant_error(t, handles, i, n) is None <==> forall|k: int|
            i <= k < n ==> 1 <= (#[trigger] handles[k]) < 64 && t[handles[k] as int] is Some
                && t[handles[k] as int]->0.rights & 4 != 0,
    decreases n - i,
{
    if i < n {
        lemma_grants(t, handles, i + 1, n);
        let h = handles[i];
        if ipc::grant_error(t, handles, i, n) is None {
            assert forall|k: int| i <= k < n implies 1 <= (#[trigger] handles[k]) < 64
                && t[handles[k] as int] is Some && t[handles[k] as int]->0.rights & 4 != 0 by {
                if k > i {
                    assert(i + 1 <= k);
                }
            }
        }
    }
}

/// Capabilities that the sender still has go over when the receiver has room for them.
proof fn lemma_transfer_succeeds(
    tables: Seq<Table>,
    regions: Seq<Region>,
    src: int,
    dst: int,
    entries: Seq<Option<HandleEntry>>,
    handles: Seq<Handle>,
    i: int,
    n: int,
)
    requires
        0 <= i <= n <= handles.len(),
        0 <= src < tables.len(),
        0 <= dst < tables.len(),
        forall|p: int| 0 <= p < tables.len() ==> (#[trigger] tables[p]).len() == 64,
        vacancies(tables[dst], 1) >= n - i,
        forall|k: int|
            i <= k < n ==> 1 <= (#[trigger] handles[k]) < 64 && tables[src][handles[k] as int]
                is Some && entries[k] == tables[src][handles[k] as int],
    ensures
        ({
            let t = ipc::transfer(tables, regions, src, dst, entries, handles, i, n);
            &&& t.err is None
            &&& t.tables.len() == tables.len()
            &&& t.handles.len() == handles.len()
            &&& forall|p: int| 0 <= p < tables.len() ==> (#[trigger] t.tables[p]).len() == 64
            &&& vacancies(t.tables[dst], 1) == vacancies(tables[dst], 1) - (n - i)
        }),
    decreases n - i,
{
    if i < n {
        lemma_room(tables[dst], 1);
        let e = entries[i]->0;
        assert(1 <= handles[i] < 64);
        let h = proc::next_slot(tables[dst]);
        let tables1 = tables.update(dst, tables[dst].update(h, Some(e)));
        let handles1 = handles.update(i, h as u32);
        lemma_vacancy_filled(tables[dst], 1, h, Some(e));
        assert forall|k: int| i + 1 <= k < n implies 1 <= (#[trigger] handles1[k]) < 64
            && tables1[src][handles1[k] as int] is Some && entries[k]
            == tables1[src][handles1[k] as int] by {
            assert(handles1[k] == handles[k]);
            assert(tables[src][handles[k] as int] is Some);
        }
        lemma_transfer_succeeds(
            tables1,
            ipc::handle_noted(regions, e),
            src,
            dst,
            entries,
            handles1,
            i + 1,
            n,
        );
    }
}

/// The right to answer can be minted when a reply and a slot are free.
proof fn lemma_mint_succeeds(replies: Seq<Reply>, tables: Seq<Table>, caller: usize, to: int)
    requires
        replies.len() == 8,
        0 <= to < tables.len(),
        tables[to].len() == 64,
        vacancies(tables[to], 1) >= 1,
        exists|i: int| 0 <= i < 8 && !(#[trigger] replies[i]).in_use,
    ensures
        ({
            let m = ipc::mint(replies, tables, caller, to);
            &&& m.handle is Ok
            &&& 1 <= m.handle->Ok_0 < 64
            &&& tables[to][m.handle->Ok_0 as int] is None
            &&& m.tables[to].len() == 64
            &&& m.tables[to] == tables[to].update(
                m.handle->Ok_0 as int,
                m.tables[to][m.handle->Ok_0 as int],
            )
            &&& forall|p: int| 0 <= p < tables.len() && p != to ==> m.tables[p] == tables[p]
            &&& m.tables[to][m.handle->Ok_0 as int] is Some
            &&& m.tables[to][m.handle->Ok_0 as int]->0.obj matches ObjectRef::Reply(i) && {
                &&& i < 8
                &&& !replies[i as int].in_use
                &&& m.replies == replies.update(i as int, m.replies[i as int])
                &&& m.replies[i as int].in_use
                &&& m.replies[i as int].caller_tid == caller
                &&& m.replies[i as int].gen == m.tables[to][m.handle->Ok_0 as int]->0.badge
            }
        }),
{
    lemma_free_reply(replies, 0);
    lemma_room(tables[to], 1);
    let m = ipc::mint(replies, tables, caller, to);
    let i = ipc::free_reply_from(replies, 0);
    let j = choose|j: int| 0 <= j < 8 && !(#[trigger] replies[j]).in_use;
    assert(i <= j);
    assert(m.replies =~= replies.update(i, m.replies[i]));
    assert(m.tables[to] =~= tables[to].update(
        m.handle->Ok_0 as int,
        m.tables[to][m.handle->Ok_0 as int],
    ));
}

/// The capabilities of a message that was staged go to process `dst`.
proof fn lemma_moves(w: World, from: int, dst: int, msg: MsgView)
    requires
        shaped(w),
        in_process(w, from),
        0 <= dst < 32,
        msg.within_limits(),
        msg.handles.len() == 4,
        grantable(w.tables[w.tcbs[from].proc as int], msg.handles, msg.handle_count as int),
        vacancies(w.tables[dst], 1) >= msg.handle_count,
    ensures
        ({
            let s = w.tables[w.tcbs[from].proc as int];
            let n = msg.handle_count as int;
            let t = ipc::transfer(
                w.tables,
                w.regions,
                w.tcbs[from].proc as int,
                dst,
                ipc::frozen(s, msg.handles, n),
                msg.handles,
                0,
                n,
            );
            &&& t.err is None
            &&& t.tables.len() == 32
            &&& forall|p: int| 0 <= p < 32 ==> (#[trigger] t.tables[p]).len() == 64
            &&& forall|p: int| 0 <= p < 32 && p != dst ==> t.tables[p] == w.tables[p]
            &&& vacancies(t.tables[dst], 1) == vacancies(w.tables[dst], 1) - n
            &&& arrived(MsgView { handles: t.handles, ..msg }, msg, s, t.tables[dst])
            &&& forall|h: int|
                0 <= h < 64 && (#[trigger] w.tables[dst][h]) is Some ==> t.tables[dst][h]
                    == w.tables[dst][h]
        }),
{
    let src = w.tcbs[from].proc as int;
    let s = w.tables[src];
    let n = msg.handle_count as int;
    let entries = ipc::frozen(s, msg.handles, n);
    assert forall|k: int| 0 <= k < n implies 1 <= (#[trigger] msg.handles[k]) < 64
        && w.tables[src][msg.handles[k] as int] is Some && entries[k]
        == w.tables[src][msg.handles[k] as int] by {}
    lemma_transfer_succeeds(w.tables, w.regions, src, dst, entries, msg.handles, 0, n);
    ipc::law_transfer_copies(w.tables, w.regions, src, dst, entries, msg.handles, 0, n);
    let t = ipc::transfer(w.tables, w.regions, src, dst, entries, msg.handles, 0, n);
    assert forall|k: int| 0 <= k < n implies 1 <= (#[trigger] t.handles[k]) < 64
        && t.tables[dst][t.handles[k] as int] == s[msg.handles[k] as int] by {
        assert(entries[k] == s[msg.handles[k] as int]);
    }
}

/// A send or a call on an endpoint where nobody waits, followed by a receive: the sender
/// sleeps, and the receiver gets the message as it was sent, with the capabilities that
/// came with it under names of its own. After a plain send the sender is ready again and
/// was told of success; after a call the receiver also holds the right to answer just this
/// caller, and the caller goes on sleeping.
#[verifier::spinoff_prover]
#[verifier::rlimit(40)]
pub proof fn law_queued_message_is_received(
    w: World,
    from: int,
    to: int,
    ep: int,
    msg: MsgView,
    uptr: u64,
    is_call: bool,
)
    requires
        sendable(w, from, w.tcbs[to].proc as int, msg, is_call),
        in_process(w, to),
        from != to,
        0 <= ep < w.eps.len(),
        w.eps[ep].in_use,
        w.eps[ep].waiter is None,
        w.eps[ep].queue.len() == 0,
    ensures
        ({
            let (w1, out) = ipc::sent(w, from, ep, msg, uptr, is_call);
            let (w2, got) = ipc::served(w1, to, ep);
            let pt = w.tcbs[to].proc as int;
            &&& out == Outcome::Sleep
            &&& w1.tcbs[from].state == State::Blocked
            &&& got matches Got::Message(h, m) && {
                &&& arrived(m, msg, w.tables[w.tcbs[from].proc as int], w2.tables[pt])
                &&& is_call ==> answers(w2, w2.tables[pt], h, from)
                &&& is_call ==> w2.tcbs[from].state == State::Blocked
                &&& !is_call ==> h == 0
                &&& !is_call ==> w2.tcbs[from].state == State::Ready
                &&& !is_call ==> ipc::resumed(w2.slots[from], true) == ((0u64, 0u64), None::<
                    MsgView,
                >)
            }
            &&& w2.eps[ep].queue.len() == 0
            &&& w2.eps[ep].in_use
            &&& w2.eps[ep].waiter is None
            &&& forall|t: int|
                0 <= t < 256 && t != from ==> w2.tcbs[t] == w.tcbs[t] && w2.slots[t] == w.slots[t]
            &&& w2.slots[from].msg_uptr == uptr
        }),
{
    let src = w.tcbs[from].proc as int;
    let dst = w.tcbs[to].proc as int;
    let s = w.tables[src];
    let n = msg.handle_count as int;
    lemma_grants(s, msg.handles, 0, n);
    assert(ipc::grant_error(s, msg.handles, 0, n) is None);
    let (w1, out) = ipc::sent(w, from, ep, msg, uptr, is_call);
    let q = w1.eps[ep].queue;
    assert(w.eps[ep].queue =~= Seq::empty());
    assert(ipc::left(w.eps[ep].queue, from as usize) == w.eps[ep].queue);
    assert(q =~= seq![from as usize]);
    let p = ipc::popped(w1, ep);
    assert(p.eps[ep].queue =~= Seq::empty());
    assert(p.tables == w.tables && p.regions == w.regions);
    assert(w1.tcbs[from].proc == w.tcbs[from].proc);
    assert(w1.tcbs[to] == w.tcbs[to]);
    lemma_moves(w, from, dst, msg);
    let (a, err) = ipc::moved(p, from, dst);
    assert(err is None);
    assert(a.slots[from].is_call == is_call);
    if is_call {
        lemma_mint_succeeds(a.replies, a.tables, from as usize, dst);
        let m = ipc::mint(a.replies, a.tables, from as usize, dst);
        let h = m.handle->Ok_0;
        let staging = a.slots[from].staging;
        assert(arrived(staging, msg, s, a.tables[dst]));
        assert forall|k: int| 0 <= k < n implies 1 <= (#[trigger] staging.handles[k]) < 64
            && m.tables[dst][staging.handles[k] as int] == s[msg.handles[k] as int] by {
            assert(s[msg.handles[k] as int] is Some);
            assert(a.tables[dst][staging.handles[k] as int] is Some);
        }
        assert(arrived(staging, msg, s, m.tables[dst]));
    }
}

/// A send or a call on an endpoint where a receiver waits: the receiver is ready, no longer
/// waits there, and on resuming gets the message as it was sent and, if it was a call, the
/// right to answer just this caller. A plain sender goes on at once; a caller sleeps.
#[verifier::spinoff_prover]
#[verifier::rlimit(40)]
pub proof fn law_waiting_receiver_gets_message(
    w: World,
    from: int,
    to: int,
    ep: int,
    msg: MsgView,
    uptr: u64,
    is_call: bool,
)
    requires
        sendable(w, from, w.tcbs[to].proc as int, msg, is_call),
        in_process(w, to),
        from != to,
        0 <= ep < w.eps.len(),
        w.eps[ep].in_use,
        w.eps[ep].waiter == Some(to as usize),
        w.tcbs[to].state == State::Blocked,
    ensures
        ({
            let (v, out) = ipc::sent(w, from, ep, msg, uptr, is_call);
            let pt = w.tcbs[to].proc as int;
            let ((rax, rdx), m) = ipc::resumed(v.slots[to], true);
            &&& v.eps[ep].waiter is None
            &&& v.eps[ep].in_use
            &&& v.eps[ep].queue == w.eps[ep].queue
            &&& v.tcbs[to].state == State::Ready
            &&& rax == 0
            &&& m is Some
            &&& arrived(m->0, msg, w.tables[w.tcbs[from].proc as int], v.tables[pt])
            &&& is_call ==> {
                &&& out == Outcome::Sleep
                &&& answers(v, v.tables[pt], rdx as u32, from)
                &&& rdx < 64
                &&& v.tcbs[from].state == State::Blocked
                &&& v.slots[from].msg_uptr == uptr
            }
            &&& !is_call ==> {
                &&& out == Outcome::Done(0, 0)
                &&& rdx == 0
                &&& v.tcbs[from] == w.tcbs[from]
                &&& v.slots[from] == w.slots[from]
            }
            &&& forall|t: int|
                0 <= t < 256 && t != from && t != to ==> v.tcbs[t] == w.tcbs[t] && v.slots[t]
                    == w.slots[t]
        }),
{
    let src = w.tcbs[from].proc as int;
    let dst = w.tcbs[to].proc as int;
    let s = w.tables[src];
    let n = msg.handle_count as int;
    lemma_grants(s, msg.handles, 0, n);
    assert(ipc::grant_error(s, msg.handles, 0, n) is None);
    lemma_moves(w, from, dst, msg);
    let t = ipc::transfer(
        w.tables,
        w.regions,
        src,
        dst,
        ipc::frozen(s, msg.handles, n),
        msg.handles,
        0,
        n,
    );
    let staging = MsgView { handles: t.handles, ..msg };
    assert(arrived(staging, msg, s, t.tables[dst]));
    if is_call {
        lemma_mint_succeeds(w.replies, t.tables, from as usize, dst);
        let m = ipc::mint(w.replies, t.tables, from as usize, dst);
        let h = m.handle->Ok_0;
        assert((h as u64) as u32 == h);
        assert forall|k: int| 0 <= k < n implies 1 <= (#[trigger] staging.handles[k]) < 64
            && m.tables[dst][staging.handles[k] as int] == s[msg.handles[k] as int] by {
            assert(s[msg.handles[k] as int] is Some);
            assert(t.tables[dst][staging.handles[k] as int] is Some);
        }
        assert(arrived(staging, msg, s, m.tables[dst]));
    }
}

/// A reply reaches the caller it is owed to: the caller is ready, was told of success, and
/// on resuming gets the message as it was sent, with the capabilities that came with it;
/// the right to answer is used up, and nobody else is touched.
#[verifier::spinoff_prover]
pub proof fn law_reply_reaches_caller(w: World, idx: int, msg: MsgView, from: int)
    requires
        0 <= idx < 8,
        shaped(w),
        in_process(w, from),
        in_process(w, w.replies[idx].caller_tid as int),
        w.replies[idx].in_use,
        w.tcbs[w.replies[idx].caller_tid as int].state == State::Blocked,
        msg.within_limits(),
        msg.handles.len() == 4,
        grantable(w.tables[w.tcbs[from].proc as int], msg.handles, msg.handle_count as int),
        vacancies(w.tables[w.tcbs[w.replies[idx].caller_tid as int].proc as int], 1)
            >= msg.handle_count,
    ensures
        ({
            let c = w.replies[idx].caller_tid as int;
            let v = ipc::replied(w, idx, msg, w.tcbs[from].proc as int);
            let (ret, m) = ipc::resumed(v.slots[c], true);
            &&& v.tcbs[c].state == State::Ready
            &&& ret == (0u64, 0u64)
            &&& m is Some
            &&& arrived(
                m->0,
                msg,
                w.tables[w.tcbs[from].proc as int],
                v.tables[w.tcbs[c].proc as int],
            )
            &&& v.slots[c].msg_uptr == w.slots[c].msg_uptr
            &&& !v.replies[idx].in_use
            &&& v.replies[idx].gen != w.replies[idx].gen
            &&& v.eps == w.eps
            &&& forall|t: int|
                0 <= t < 256 && t != c ==> v.tcbs[t] == w.tcbs[t] && v.slots[t] == w.slots[t]
            &&& forall|i: int| 0 <= i < 8 && i != idx ==> v.replies[i] == w.replies[i]
        }),
{
    let c = w.replies[idx].caller_tid as int;
    let s = w.tables[w.tcbs[from].proc as int];
    lemma_grants(s, msg.handles, 0, msg.handle_count as int);
    assert(ipc::grant_error(s, msg.handles, 0, msg.handle_count as int) is None);
    lemma_moves(w, from, w.tcbs[c].proc as int, msg);
}

/// A message that grants what its sender does not have, or may not grant, is refused, and
/// nothing changes; so is any message on an endpoint that is not in use.
pub proof fn law_refused_send_changes_nothing(
    w: World,
    from: int,
    ep: int,
    msg: MsgView,
    uptr: u64,
    is_call: bool,
)
    requires
        shaped(w),
        in_process(w, from),
        0 <= ep < w.eps.len(),
        msg.within_limits(),
        !w.eps[ep].in_use || !grantable(
            w.tables[w.tcbs[from].proc as int],
            msg.handles,
            msg.handle_count as int,
        ),
    ensures
        ({
            let (v, out) = ipc::sent(w, from, ep, msg, uptr, is_call);
            &&& v == w
            &&& out matches Outcome::Done(rax, rdx) && rax != 0 && rdx == 0
        }),
{
    lemma_grants(
        w.tables[w.tcbs[from].proc as int],
        msg.handles,
        0,
        msg.handle_count as int,
    );
}

/// A delivery that fails tells the sender so and wakes nobody: the receiver waits on.
pub proof fn law_failed_delivery_wakes_nobody(
    w: World,
    from: int,
    ep: int,
    msg: MsgView,
    uptr: u64,
    is_call: bool,
)
    requires
        w.eps[ep].waiter is Some,
        ({
            let out = ipc::sent(w, from, ep, msg, uptr, is_call).1;
            out is Done && out != Outcome::Done(0, 0)
        }),
    ensures
        ipc::sent(w, from, ep, msg, uptr, is_call).0.eps == w.eps,
        ipc::sent(w, from, ep, msg, uptr, is_call).0.tcbs == w.tcbs,
        ipc::sent(w, from, ep, msg, uptr, is_call).1 matches Outcome::Done(rax, rdx) && rax != 0,
{
}

/// A receiver that finds nobody waits: it is the endpoint's receiver and sleeps, and
/// nothing else changes. One that cannot receive is told so with an error.
pub proof fn law_receiver_waits(w: World, me: int, ep: int, uptr: u64)
    requires
        0 <= ep < w.eps.len(),
        0 <= me < 256,
        shaped(w),
    ensures
        !w.eps[ep].in_use ==> ipc::served(w, me, ep).0 == w && (ipc::served(w, me, ep).1
            matches Got::Refused(c) && c != 0),
        w.eps[ep].in_use && w.eps[ep].queue.len() == 0 && w.eps[ep].waiter is Some ==> ipc::served(
            w,
            me,
            ep,
        ).0 == w && (ipc::served(w, me, ep).1 matches Got::Refused(c) && c != 0),
        w.eps[ep].in_use && w.eps[ep].queue.len() == 0 && w.eps[ep].waiter is None ==> ipc::served(
            w,
            me,
            ep,
        ).0 == w && ipc::served(w, me, ep).1 is NoSender,
        ({
            let v = ipc::registered(w, me, ep, uptr);
            &&& v.eps[ep].waiter == Some(me as usize)
            &&& v.eps[ep].in_use == w.eps[ep].in_use
            &&& v.eps[ep].queue == w.eps[ep].queue
            &&& v.tcbs[me].state == State::Blocked
            &&& v.slots[me].msg_uptr == uptr
            &&& forall|t: int|
                0 <= t < 256 && t != me ==> v.tcbs[t] == w.tcbs[t] && v.slots[t] == w.slots[t]
            &&& forall|e: int| 0 <= e < w.eps.len() && e != ep ==> v.eps[e] == w.eps[e]
            &&& v.tables == w.tables
            &&& v.replies == w.replies
        }),
{
}

/// Someone who receives the queue of an endpoint touches nobody who is not in it, and wakes
/// a queued caller only with an error: a caller that got through sleeps on until it is
/// answered.
#[verifier::spinoff_prover]
pub proof fn law_receive_wakes_no_caller_without_error(w: World, me: int, ep: int, t: int)
    requires
        shaped(w),
        in_process(w, me),
        0 <= ep < w.eps.len(),
        0 <= t < 256,
        w.eps[ep].queue.no_duplicates(),
        forall|i: int| 0 <= i < w.eps[ep].queue.len() ==> (#[trigger] w.eps[ep].queue[i]) < 256,
    ensures
        ({
            let v = ipc::served(w, me, ep).0;
            &&& !w.eps[ep].queue.contains(t as usize) ==> v.tcbs[t] == w.tcbs[t] && v.slots[t]
                == w.slots[t]
            &&& w.slots[t].is_call && w.tcbs[t].state == State::Blocked ==> v.tcbs[t].state
                == State::Blocked || v.tcbs[t].state == State::Ready && v.slots[t].ret_rax != 0
                && !v.slots[t].copy_out
            &&& !w.slots[t].is_call && w.tcbs[t].state == State::Blocked && v.tcbs[t].state
                != State::Blocked ==> v.tcbs[t].state == State::Ready && !v.slots[t].copy_out
        }),
    decreases w.eps[ep].queue.len(),
{
    let q = w.eps[ep].queue;
    if w.eps[ep].in_use && q.len() > 0 {
        let from = q[0] as int;
        let dst = w.tcbs[me].proc as int;
        let rest = q.subrange(1, q.len() as int);
        assert forall|i: int| 0 <= i < rest.len() implies (#[trigger] rest[i]) < 256 by {
            assert(rest[i] == q[i + 1]);
        }
        assert(rest.no_duplicates());
        assert(!rest.contains(q[0])) by {
            if rest.contains(q[0]) {
                let k = rest.index_of(q[0]);
                assert(q[k + 1] == q[0]);
            }
        }
        if rest.contains(t as usize) {
            let k = rest.index_of(t as usize);
            assert(q[k + 1] == t as usize);
            assert(q.contains(t as usize));
        }
        assert(q.contains(q[0]));
        let (w1, err) = ipc::moved(ipc::popped(w, ep), from, dst);
        if err is Some {
            let v = ipc::refused(w1, from, err->0);
            lemma_shape_after_transfer(
                w.tables,
                w.regions,
                w.tcbs[from].proc as int,
                dst,
                w.slots[from].entries,
                w.slots[from].staging.handles,
                0,
                w.slots[from].staging.handle_count as int,
            );
            assert(v.eps[ep].queue == rest);
            law_receive_wakes_no_caller_without_error(v, me, ep, t);
        } else if w1.slots[from].is_call {
            let m = ipc::mint(w1.replies, w1.tables, from as usize, dst);
            if m.handle is Err {
                let w2 = World { replies: m.replies, tables: m.tables, ..w1 };
                let v = ipc::refused(w2, from, m.handle->Err_0);
                lemma_shape_after_transfer(
                    w.tables,
                    w.regions,
                    w.tcbs[from].proc as int,
                    dst,
                    w.slots[from].entries,
                    w.slots[from].staging.handles,
                    0,
                    w.slots[from].staging.handle_count as int,
                );
                assert(v.eps[ep].queue == rest);
                lemma_free_reply(w1.replies, 0);
                law_receive_wakes_no_caller_without_error(v, me, ep, t);
            }
        }
    }
}

/// A transfer keeps the shape of the tables.
proof fn lemma_shape_after_transfer(
    tables: Seq<Table>,
    regions: Seq<Region>,
    src: int,
    dst: int,
    entries: Seq<Option<HandleEntry>>,
    handles: Seq<Handle>,
    i: int,
    n: int,
)
    requires
        0 <= dst < tables.len(),
        forall|p: int| 0 <= p < tables.len() ==> (#[trigger] tables[p]).len() == 64,
    ensures
        ({
            let t = ipc::transfer(tables, regions, src, dst, entries, handles, i, n);
            &&& t.tables.len() == tables.len()
            &&& forall|p: int| 0 <= p < tables.len() ==> (#[trigger] t.tables[p]).len() == 64
        }),
    decreases n - i,
{
    if i < n && entries[i] is Some && ipc::still_held(tables[src], handles[i], entries[i]->0)
        && !proc::full(tables[dst]) {
        let e = entries[i]->0;
        let h = proc::next_slot(tables[dst]);
        lemma_room(tables[dst], 1);
        lemma_shape_after_transfer(
            tables.update(dst, tables[dst].update(h, Some(e))),
            ipc::handle_noted(regions, e),
            src,
            dst,
            entries,
            handles.update(i, h as u32),
            i + 1,
            n,
        );
    }
}

/// A thread that called is made ready only by a reply, by an abandoned reply or by an
/// error: whoever receives next, the caller sleeps on or was told of a failure.
pub proof fn law_caller_waits_for_its_reply(
    w: World,
    from: int,
    to: int,
    ep: int,
    msg: MsgView,
    uptr: u64,
)
    requires
        shaped(w),
        in_process(w, from),
        in_process(w, to),
        0 <= ep < w.eps.len(),
        w.eps[ep].queue.no_duplicates(),
        forall|i: int| 0 <= i < w.eps[ep].queue.len() ==> (#[trigger] w.eps[ep].queue[i]) < 256,
        w.eps[ep].waiter is None,
        ipc::sent(w, from, ep, msg, uptr, true).1 == Outcome::Sleep,
    ensures
        ({
            let w1 = ipc::sent(w, from, ep, msg, uptr, true).0;
            let w2 = ipc::served(w1, to, ep).0;
            &&& w1.tcbs[from].state == State::Blocked
            &&& w2.tcbs[from].state == State::Blocked || w2.tcbs[from].state == State::Ready
                && w2.slots[from].ret_rax != 0
        }),
{
    let w1 = ipc::sent(w, from, ep, msg, uptr, true).0;
    let q = w.eps[ep].queue;
    let l = ipc::left(q, from as usize);
    ipc::law_leaving_is_exact(q, from as usize);
    assert forall|i: int| 0 <= i < w1.eps[ep].queue.len() implies (
    #[trigger] w1.eps[ep].queue[i]) < 256 by {
        if i < l.len() {
            assert(q.contains(l[i]));
            let k = q.index_of(l[i]);
            assert(q[k] < 256);
        }
    }
    assert(l.push(from as usize).no_duplicates()) by {
        let p = l.push(from as usize);
        assert forall|i: int, j: int|
            0 <= i < p.len() && 0 <= j < p.len() && i != j implies #[trigger] p[i]
            != #[trigger] p[j] by {
            if i < l.len() {
                assert(l[i] != from as usize);
            }
            if j < l.len() {
                assert(l[j] != from as usize);
            }
        }
    }
    law_receive_wakes_no_caller_without_error(w1, to, ep, from);
}

/// A caller whose reply is given up learns so: it is ready, with an error and no message,
/// and the right to answer is used up.
pub proof fn law_abandoned_caller_is_told(
    replies: Seq<Reply>,
    slots: Seq<SlotView>,
    tcbs: Seq<Tcb>,
    idx: int,
)
    requires
        0 <= idx < replies.len(),
        slots.len() == 256,
        tcbs.len() == 256,
        replies[idx].caller_tid < 256,
        tcbs[replies[idx].caller_tid as int].state == State::Blocked,
    ensures
        ({
            let c = replies[idx].caller_tid as int;
            let v = ipc::abandoned(replies, slots, tcbs, idx);
            let ((rax, rdx), m) = ipc::resumed(v.1[c], true);
            &&& v.2[c].state == State::Ready
            &&& rax != 0
            &&& rdx == 0
            &&& m is None
            &&& !v.0[idx].in_use
            &&& v.0[idx].gen != replies[idx].gen
            &&& forall|t: int|
                0 <= t < 256 && t != c ==> v.1[t] == slots[t] && v.2[t] == tcbs[t]
            &&& forall|i: int| 0 <= i < replies.len() && i != idx ==> v.0[i] == replies[i]
        }),
{
}

/// A message goes into a buffer as far as it is long; what the buffer held behind it stays.
pub proof fn law_message_is_copied_out(dst: MsgView, m: MsgView, i: int)
    requires
        m.data.len() == dst.data.len(),
        m.handles.len() == dst.handles.len(),
    ensures
        ({
            let v = ipc::copied_out(dst, m);
            &&& v.tag == m.tag
            &&& v.badge == m.badge
            &&& v.data_len == m.data_len
            &&& v.handle_count == m.handle_count
            &&& 0 <= i < m.data_len && i < dst.data.len() ==> v.data[i] == m.data[i]
            &&& m.data_len <= i < dst.data.len() ==> v.data[i] == dst.data[i]
            &&& 0 <= i < m.handle_count && i < dst.handles.len() ==> v.handles[i] == m.handles[i]
            &&& m.handle_count <= i < dst.handles.len() ==> v.handles[i] == dst.handles[i]
        }),
{
}

/// A receiver whose buffer cannot take the message is told so, whether it waited or not.
pub proof fn law_bad_buffer_is_reported(e: SlotView, h: Handle, m: MsgView)
    ensures
        ipc::receipt(Got::Message(h, m), true) == (Outcome::Done(0, h as u64), Some(m)),
        ipc::receipt(Got::Message(h, m), false).0 matches Outcome::Done(rax, rdx) && rax != 0
            && rdx == 0,
        ipc::receipt(Got::Message(h, m), false).1 is None,
        ipc::receipt(Got::NoSender, true) == (Outcome::Sleep, None::<MsgView>),
        e.copy_out ==> ipc::resumed(e, false).0.0 != 0 && ipc::resumed(e, false).0.1 == 0
            && ipc::resumed(e, false).1 is None,
        !e.copy_out ==> ipc::resumed(e, false) == ipc::resumed(e, true),
{
}

/// A new endpoint is the lowest that is not in use.
pub proof fn law_lowest_free_endpoint(v: Seq<EpView>, i: int)
    requires
        0 <= i <= v.len(),
    ensures
        i <= ipc::free_ep_from(v, i) <= v.len(),
        ipc::free_ep_from(v, i) < v.len() ==> !v[ipc::free_ep_from(v, i)].in_use,
        forall|k: int| i <= k < ipc::free_ep_from(v, i) ==> (#[trigger] v[k]).in_use,
    decreases v.len() - i,
{
    if i < v.len() {
        law_lowest_free_endpoint(v, i + 1);
    }
}

} // verus!
