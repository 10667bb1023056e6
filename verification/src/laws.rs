//! Properties of the queue and the server that span several operations.
use crate::address::DeliveryMode;
use crate::queue::QueueView;
use crate::agent::{handle_view, unsubscribed_all};
use crate::client::{consume_reply_view, produce_reply_view, subscribe_reply_view};
use crate::error::{ErrorKind, ErrorView};
use crate::frame::FrameView;
use crate::server::{wrapping_next, ServerView, SlotView};
use vstd::prelude::*;

verus! {

/// Ids are stable: pushing gives the new message the next id and leaves the
/// message under every other id as it was.
pub proof fn lemma_push_keeps_ids(q: QueueView, p: Seq<u8>)
    ensures
        q.pushed(p).peek(q.next_id()) == Some(p),
        q.pushed(p).next_id() == q.next_id() + 1,
        forall|id: nat| id != q.next_id() ==> #[trigger] q.pushed(p).peek(id) == q.peek(id),
{
    assert forall|id: nat| id != q.next_id() implies #[trigger] q.pushed(p).peek(id) == q.peek(id) by {
        if q.first_id() <= id && id < q.next_id() {
            assert(q.pushed(p).pending[id - q.first_id()] == q.pending[id - q.first_id()]);
        }
    }
}

/// Ids are stable: popping removes only the oldest message's id; every other
/// id still names the same message, and ids are never handed out again.
pub proof fn lemma_pop_keeps_ids(q: QueueView)
    ensures
        q.popped_front().next_id() == q.next_id(),
        q.pending.len() > 0 ==> q.popped_front().peek(q.first_id()) is None,
        forall|id: nat| id != q.first_id() ==> #[trigger] q.popped_front().peek(id) == q.peek(id),
{
    assert forall|id: nat| id != q.first_id() implies #[trigger] q.popped_front().peek(id) == q.peek(id) by {
        if q.pending.len() > 0 && q.first_id() < id && id < q.next_id() {
            assert(q.popped_front().pending[id - q.popped_front().first_id()] == q.pending[id - q.first_id()]);
        }
    }
}

/// Messages leave in the order they came: after pushing `p`, the oldest
/// message is unchanged, or is `p` if there was none.
pub proof fn lemma_fifo(q: QueueView, p: Seq<u8>)
    ensures
        q.pushed(p).front() == (if q.pending.len() > 0 { q.front() } else { Some(p) }),
        q.pending.len() > 0 ==> q.pushed(p).popped_front() == q.popped_front().pushed(p),
{
    if q.pending.len() > 0 {
        assert(q.pushed(p).pending.drop_first() =~= q.pending.drop_first().push(p));
    }
}

/// Compacting changes nothing that can be observed: the pending messages,
/// their ids, the oldest and newest message, and the next id.
pub proof fn lemma_compact_unobservable(q: QueueView)
    ensures
        q.compacted().pending == q.pending,
        q.compacted().front() == q.front(),
        q.compacted().rear() == q.rear(),
        q.compacted().next_id() == q.next_id(),
        forall|id: nat| #[trigger] q.compacted().peek(id) == q.peek(id),
{
}

/// Clearing drops every pending message without reusing their ids.
pub proof fn lemma_clear_keeps_ids(q: QueueView)
    ensures
        q.cleared().next_id() == q.next_id(),
        q.cleared().pending.len() == 0,
        forall|id: nat| #[trigger] q.cleared().peek(id) is None,
{
}

/// The first operation on an address fixes its mode: afterwards an operation
/// with the other mode is refused, and a refused operation changes nothing
/// (a refused subscribe still uses up an id).
pub proof fn lemma_mode_fixed(v: ServerView, addr: Seq<u8>, m: DeliveryMode, other: DeliveryMode, p: Seq<u8>)
    requires
        other != m,
    ensures
        v.accepts(addr, m) ==> !v.produced(addr, m, p).accepts(addr, other),
        v.accepts(addr, m) ==> !v.subscribed(addr, m).accepts(addr, other),
        !v.accepts(addr, m) ==> v.produced(addr, m, p) == v,
        !v.accepts(addr, m) ==> v.subscribed(addr, m) == (ServerView {
            next_sub_id: wrapping_next(v.next_sub_id),
            ..v
        }),
{
}

/// A produced message reaches every current subscriber of its address:
/// anycast subscribers see it in their shared queue, broadcast subscribers
/// each in their own. Subscribers of other addresses see no change.
pub proof fn lemma_produce_reaches_subscribers(v: ServerView, addr: Seq<u8>, mode: DeliveryMode, p: Seq<u8>, id: u64)
    requires
        v.inv(),
        v.accepts(addr, mode),
        v.subscribers.contains_key(id),
    ensures
        v.subscribers[id].addr == addr ==> v.produced(addr, mode, p).queue_of(id) == v.queue_of(id).pushed(p),
        v.subscribers[id].addr != addr ==> v.produced(addr, mode, p).queue_of(id) == v.queue_of(id),
{
}

/// Anycast delivers each message once: all subscribers of an anycast address
/// consume from one queue, so a message one of them consumes is gone for the
/// others.
pub proof fn lemma_anycast_delivers_once(v: ServerView, a: u64, b: u64)
    requires
        v.inv(),
        v.subscribers.contains_key(a),
        v.subscribers.contains_key(b),
        v.subscribers[a].addr == v.subscribers[b].addr,
        v.subscribers[a].mode == DeliveryMode::Anycast,
    ensures
        v.queue_of(a) == v.queue_of(b),
        v.consumed(a).queue_of(b) == v.queue_of(b).popped_front(),
{
}

/// Broadcast queues are independent: what one subscriber consumes is still
/// there for every other subscriber.
pub proof fn lemma_broadcast_queues_independent(v: ServerView, a: u64, b: u64)
    requires
        v.inv(),
        v.subscribers.contains_key(a),
        v.subscribers.contains_key(b),
        a != b,
        v.subscribers[a].mode == DeliveryMode::Broadcast,
    ensures
        v.consumed(a).queue_of(b) == v.queue_of(b),
{
}

/// An ended subscription is gone, and ending it again changes nothing.
pub proof fn lemma_unsubscribe_idempotent(v: ServerView, id: u64)
    ensures
        !v.unsubscribed(id).subscribers.contains_key(id),
        v.unsubscribed(id).unsubscribed(id) == v.unsubscribed(id),
{
}

/// Subscribing and then ending that subscription leaves the server as it
/// was, except that the address exists and the id is used up. It needs an
/// anycast count below the top of its range.
pub proof fn lemma_subscribe_then_unsubscribe(v: ServerView, addr: Seq<u8>, m: DeliveryMode)
    requires
        v.inv(),
        v.accepts(addr, m),
        v.slot_for(addr, m) matches SlotView::Anycast { sub_count, .. } ==> sub_count < usize::MAX,
    ensures
        v.subscribed(addr, m).unsubscribed(v.next_sub_id) == (ServerView {
            next_sub_id: wrapping_next(v.next_sub_id),
            ..v.touched(addr, m)
        }),
{
    let id = v.next_sub_id;
    let w = v.subscribed(addr, m);
    let u = w.unsubscribed(id);
    let slot = v.slot_for(addr, m);
    if v.subscribers.contains_key(id) {
        assert(v.sub_ok(id));
    }
    if v.addresses.contains_key(addr) {
        assert(crate::server::slot_ids_below(v.addresses[addr], id));
    }
    assert(w.subscribers[id] == crate::server::SubView { addr, mode: m });
    if let SlotView::Broadcast { subs } = slot {
        assert(subs.insert(id, QueueView::empty()).remove(id) =~= subs);
    }
    assert(w.addresses[addr].left(id, m) == slot);
    assert(u.addresses =~= v.touched(addr, m).addresses);
    assert(u.subscribers =~= v.subscribers);
}

proof fn lemma_left_commutes(slot: SlotView, a: u64, ma: DeliveryMode, b: u64, mb: DeliveryMode)
    ensures
        slot.left(a, ma).left(b, mb) == slot.left(b, mb).left(a, ma),
{
    if let SlotView::Broadcast { subs } = slot {
        if ma == DeliveryMode::Broadcast && mb == DeliveryMode::Broadcast {
            assert(subs.remove(a).remove(b) =~= subs.remove(b).remove(a));
        }
    }
}

/// Ending two subscriptions gives the same server whichever is ended first.
pub proof fn lemma_unsubscribe_commutes(v: ServerView, a: u64, b: u64)
    ensures
        v.unsubscribed(a).unsubscribed(b) == v.unsubscribed(b).unsubscribed(a),
{
    if a != b && v.subscribers.contains_key(a) && v.subscribers.contains_key(b) {
        let sa = v.subscribers[a];
        let sb = v.subscribers[b];
        let x = v.unsubscribed(a).unsubscribed(b);
        let y = v.unsubscribed(b).unsubscribed(a);
        assert(v.unsubscribed(a).subscribers[b] == sb);
        assert(v.unsubscribed(b).subscribers[a] == sa);
        if sa.addr == sb.addr && v.addresses.contains_key(sa.addr) {
            lemma_left_commutes(v.addresses[sa.addr], a, sa.mode, b, sb.mode);
        }
        assert(x.addresses =~= y.addresses);
        assert(x.subscribers =~= y.subscribers);
    }
}

/// Moving one id to the end of an unsubscribe sequence changes nothing.
proof fn lemma_unsubscribed_all_move_to_end(v: ServerView, s: Seq<u64>, j: int)
    requires
        0 <= j < s.len(),
    ensures
        unsubscribed_all(v, s.remove(j).push(s[j])) == unsubscribed_all(v, s),
    decreases s.len(),
{
    if j == s.len() - 1 {
        assert(s.remove(j).push(s[j]) =~= s);
    } else {
        let t = s.drop_last();
        let x = s.last();
        let u = t.remove(j);
        let y = s[j];
        assert(t[j] == y);
        let lhs = s.remove(j).push(y);
        assert(lhs.drop_last() =~= u.push(x));
        assert(lhs.last() == y);
        assert(u.push(x).drop_last() =~= u);
        assert(u.push(x).last() == x);
        assert(u.push(y).drop_last() =~= u);
        assert(u.push(y).last() == y);
        assert(unsubscribed_all(v, lhs) == unsubscribed_all(v, u.push(x)).unsubscribed(y));
        assert(unsubscribed_all(v, u.push(x)) == unsubscribed_all(v, u).unsubscribed(x));
        assert(unsubscribed_all(v, u.push(y)) == unsubscribed_all(v, u).unsubscribed(y));
        lemma_unsubscribe_commutes(unsubscribed_all(v, u), x, y);
        lemma_unsubscribed_all_move_to_end(v, t, j);
        assert(unsubscribed_all(v, s) == unsubscribed_all(v, t).unsubscribed(x));
    }
}

/// Ending a set of subscriptions gives the same server in whatever order the
/// set is walked.
pub proof fn lemma_unsubscribed_all_any_order(v: ServerView, s1: Seq<u64>, s2: Seq<u64>)
    requires
        s1.no_duplicates(),
        s2.no_duplicates(),
        s1.to_set() == s2.to_set(),
    ensures
        unsubscribed_all(v, s1) == unsubscribed_all(v, s2),
    decreases s1.len(),
{
    if s1.len() == 0 {
        if s2.len() > 0 {
            assert(s2.to_set().contains(s2[0]));
        }
    } else {
        let x = s1.last();
        assert(s1.to_set().contains(x));
        assert(s2.contains(x));
        let j = choose|j: int| 0 <= j < s2.len() && s2[j] == x;
        let t1 = s1.drop_last();
        let t2 = s2.remove(j);
        assert forall|k: u64| t1.contains(k) <==> (s1.contains(k) && k != x) by {
            if t1.contains(k) {
                let i = choose|i: int| 0 <= i < t1.len() && t1[i] == k;
                assert(s1[i] == k);
            }
            if s1.contains(k) && k != x {
                let i = choose|i: int| 0 <= i < s1.len() && s1[i] == k;
                assert(t1[i] == k);
            }
        }
        assert forall|k: u64| t2.contains(k) <==> (s2.contains(k) && k != x) by {
            if t2.contains(k) {
                let i = choose|i: int| 0 <= i < t2.len() && t2[i] == k;
                if i < j {
                    assert(s2[i] == k);
                } else {
                    assert(s2[i + 1] == k);
                }
            }
            if s2.contains(k) && k != x {
                let i = choose|i: int| 0 <= i < s2.len() && s2[i] == k;
                if i < j {
                    assert(t2[i] == k);
                } else {
                    assert(i != j);
                    assert(t2[i - 1] == k);
                }
            }
        }
        assert forall|k: u64| t1.to_set().contains(k) == t2.to_set().contains(k) by {
            assert(s1.to_set().contains(k) == s2.to_set().contains(k));
            assert(s1.to_set().contains(k) == s1.contains(k));
            assert(s2.to_set().contains(k) == s2.contains(k));
            assert(t1.contains(k) == (s1.contains(k) && k != x));
            assert(t2.contains(k) == (s2.contains(k) && k != x));
            assert(t1.to_set().contains(k) == t1.contains(k));
            assert(t2.to_set().contains(k) == t2.contains(k));
        }
        assert(t1.to_set() =~= t2.to_set());
        assert(t1.no_duplicates());
        assert(t2.no_duplicates()) by {
            assert forall|p: int, q: int| 0 <= p < t2.len() && 0 <= q < t2.len() && p != q implies t2[p] != t2[q] by {
                let pp = if p < j { p } else { p + 1 };
                let qq = if q < j { q } else { q + 1 };
                assert(t2[p] == s2[pp]);
                assert(t2[q] == s2[qq]);
            }
        }
        lemma_unsubscribed_all_any_order(v, t1, t2);
        lemma_unsubscribed_all_move_to_end(v, s2, j);
        assert(t2.push(s2[j]).drop_last() =~= t2);
    }
}

/// Ending one subscription leaves every other subscription, and the queue it
/// consumes from, as they were.
pub proof fn lemma_unsubscribe_keeps_others(v: ServerView, id: u64, k: u64)
    requires
        v.inv(),
        v.subscribers.contains_key(k),
        k != id,
    ensures
        v.unsubscribed(id).subscribers.contains_key(k),
        v.unsubscribed(id).subscribers[k] == v.subscribers[k],
        v.unsubscribed(id).queue_of(k) == v.queue_of(k),
{
    assert(v.sub_ok(k));
}

/// Ending a subscription forgets it, keeps every address and its mode, and
/// drops the subscriber's own queue from a broadcast address.
pub proof fn lemma_unsubscribe_keeps_modes(v: ServerView, id: u64)
    requires
        v.inv(),
        v.subscribers.contains_key(id),
    ensures
        !v.unsubscribed(id).subscribers.contains_key(id),
        v.unsubscribed(id).addresses.dom() == v.addresses.dom(),
        forall|a: Seq<u8>| #[trigger] v.addresses.contains_key(a) ==> v.unsubscribed(id).addresses[a].mode()
            == v.addresses[a].mode(),
        v.unsubscribed(id).addresses[v.subscribers[id].addr] matches SlotView::Broadcast { subs } ==> !subs.contains_key(id),
{
    assert(v.sub_ok(id));
    assert(v.unsubscribed(id).addresses.dom() =~= v.addresses.dom());
}

/// Consuming from an empty queue changes nothing.
pub proof fn lemma_consume_empty_unchanged(v: ServerView, id: u64)
    requires
        v.inv(),
        v.subscribers.contains_key(id),
        v.queue_of(id).pending.len() == 0,
    ensures
        v.consumed(id) == v,
{
    assert(v.sub_ok(id));
    let a = v.subscribers[id].addr;
    if let SlotView::Broadcast { subs } = v.addresses[a] {
        assert(subs.insert(id, subs[id]) =~= subs);
    }
    assert(v.consumed(id).addresses =~= v.addresses);
}

/// Consuming keeps every subscription, every address and its mode, and the
/// queue of every subscriber that does not share the consumer's queue.
pub proof fn lemma_consume_keeps_others(v: ServerView, id: u64, k: u64)
    requires
        v.inv(),
        v.subscribers.contains_key(id),
        v.subscribers.contains_key(k),
        v.subscribers[k].addr != v.subscribers[id].addr || (k != id && v.subscribers[id].mode
            == DeliveryMode::Broadcast),
    ensures
        v.consumed(id).subscribers == v.subscribers,
        v.consumed(id).addresses.dom() == v.addresses.dom(),
        forall|a: Seq<u8>| #[trigger] v.addresses.contains_key(a) ==> v.consumed(id).addresses[a].mode()
            == v.addresses[a].mode(),
        v.consumed(id).queue_of(k) == v.queue_of(k),
{
    assert(v.sub_ok(id));
    assert(v.sub_ok(k));
    assert(v.consumed(id).addresses.dom() =~= v.addresses.dom());
}

/// Subscriber ids are fresh: a new subscription gets an id above every id
/// issued before (live or not), every live subscription keeps its id and
/// what it denotes, and the next id grows by one.
pub proof fn lemma_subscribe_fresh(v: ServerView, addr: Seq<u8>, m: DeliveryMode)
    requires
        v.inv(),
        v.next_sub_id < u64::MAX,
    ensures
        !v.subscribers.contains_key(v.next_sub_id),
        forall|k: u64| #[trigger] v.subscribers.contains_key(k) ==> k < v.next_sub_id,
        v.subscribed(addr, m).next_sub_id == v.next_sub_id + 1,
        forall|k: u64| #[trigger] v.subscribers.contains_key(k) ==> v.subscribed(addr, m).subscribers.contains_key(k)
            && v.subscribed(addr, m).subscribers[k] == v.subscribers[k],
{
    assert forall|k: u64| #[trigger] v.subscribers.contains_key(k) implies k < v.next_sub_id by {
        assert(v.sub_ok(k));
    }
}

/// Ids are never handed out again: only a subscribe moves the next id, and
/// only upwards; every other operation keeps it.
pub proof fn lemma_next_id_only_grows(v: ServerView, addr: Seq<u8>, m: DeliveryMode, p: Seq<u8>, id: u64)
    requires
        v.next_sub_id < u64::MAX,
    ensures
        v.subscribed(addr, m).next_sub_id > v.next_sub_id,
        v.produced(addr, m, p).next_sub_id == v.next_sub_id,
        v.consumed(id).next_sub_id == v.next_sub_id,
        v.unsubscribed(id).next_sub_id == v.next_sub_id,
{
}

/// One operation on a server, as a step of a history.
pub enum ServerOp {
    Produce { addr: Seq<u8>, mode: DeliveryMode, payload: Seq<u8> },
    Subscribe { addr: Seq<u8>, mode: DeliveryMode },
    Consume { id: u64 },
    Unsubscribe { id: u64 },
}

/// The server after one operation.
pub open spec fn step(v: ServerView, op: ServerOp) -> ServerView {
    match op {
        ServerOp::Produce { addr, mode, payload } => v.produced(addr, mode, payload),
        ServerOp::Subscribe { addr, mode } => v.subscribed(addr, mode),
        ServerOp::Consume { id } => v.consumed(id),
        ServerOp::Unsubscribe { id } => v.unsubscribed(id),
    }
}

/// The server after a history of operations, oldest first.
pub open spec fn run(v: ServerView, ops: Seq<ServerOp>) -> ServerView
    decreases ops.len(),
{
    if ops.len() == 0 {
        v
    } else {
        step(run(v, ops.drop_last()), ops.last())
    }
}

/// The ids that the successful subscribes of a history handed out.
pub open spec fn issued(v: ServerView, ops: Seq<ServerOp>) -> Set<u64>
    decreases ops.len(),
{
    if ops.len() == 0 {
        Set::empty()
    } else {
        let before = run(v, ops.drop_last());
        let earlier = issued(v, ops.drop_last());
        match ops.last() {
            ServerOp::Subscribe { addr, mode } => if before.accepts(addr, mode) {
                earlier.insert(before.next_sub_id)
            } else {
                earlier
            },
            _ => earlier,
        }
    }
}

/// Ids are never reused over a whole history: every id handed out lies
/// between the starting next id and the final one, so the id a later
/// subscribe hands out is above all of them (and, by the invariant, above
/// every id live at the start). The history must not reach the top of the
/// id range.
pub proof fn lemma_ids_never_reused(v: ServerView, ops: Seq<ServerOp>)
    requires
        v.next_sub_id + ops.len() < u64::MAX,
    ensures
        v.next_sub_id <= run(v, ops).next_sub_id <= v.next_sub_id + ops.len(),
        forall|k: u64| #[trigger] issued(v, ops).contains(k) ==> v.next_sub_id <= k < run(v, ops).next_sub_id,
        v.inv() ==> forall|k: u64| #[trigger] v.subscribers.contains_key(k) ==> k < run(v, ops).next_sub_id,
    decreases ops.len(),
{
    if ops.len() > 0 {
        let t = ops.drop_last();
        lemma_ids_never_reused(v, t);
        let before = run(v, t);
        assert(run(v, ops) == step(before, ops.last()));
        assert(before.next_sub_id < u64::MAX);
        assert(before.next_sub_id <= run(v, ops).next_sub_id);
        assert forall|k: u64| #[trigger] issued(v, ops).contains(k) implies v.next_sub_id <= k < run(
            v,
            ops,
        ).next_sub_id by {
            if issued(v, t).contains(k) {
            } else {
                assert(k == before.next_sub_id);
            }
        }
    }
    if v.inv() {
        assert forall|k: u64| #[trigger] v.subscribers.contains_key(k) implies k < run(v, ops).next_sub_id by {
            assert(v.sub_ok(k));
        }
    }
}

/// Answering an Unsubscribe for a subscription the connection owns ends it:
/// the connection no longer owns it, the server no longer knows it, every
/// other owned id and every other subscription stays, and a later Consume of
/// that id is refused.
pub proof fn lemma_handle_unsubscribe_ends(owned: Set<u64>, s: ServerView, id: u64)
    requires
        owned.contains(id),
    ensures
        ({
            let st = handle_view(owned, s, FrameView::Unsubscribe { sub_id: id });
            &&& st.reply == FrameView::UnsubscribeOk
            &&& !st.owned.contains(id)
            &&& forall|k: u64| k != id ==> (#[trigger] st.owned.contains(k) == owned.contains(k))
            &&& !st.server.subscribers.contains_key(id)
            &&& forall|k: u64| k != id ==> (#[trigger] st.server.subscribers.contains_key(k)
                == s.subscribers.contains_key(k))
            &&& handle_view(st.owned, st.server, FrameView::Consume { sub_id: id }).reply is Error
        }),
{
}

/// An Unsubscribe for an id the connection does not own changes nothing.
pub proof fn lemma_handle_unsubscribe_foreign(owned: Set<u64>, s: ServerView, id: u64)
    requires
        !owned.contains(id),
    ensures
        handle_view(owned, s, FrameView::Unsubscribe { sub_id: id }).owned == owned,
        handle_view(owned, s, FrameView::Unsubscribe { sub_id: id }).server == s,
{
}

/// Consuming takes exactly the oldest pending message of the subscriber's
/// queue, for anycast and broadcast alike: the rest stay, in order.
pub proof fn lemma_consume_pops_oldest(v: ServerView, a: u64)
    requires
        v.inv(),
        v.subscribers.contains_key(a),
    ensures
        v.queue_of(a).pending.len() > 0 ==> v.consumed(a).queue_of(a).pending == v.queue_of(a).pending.subrange(
            1,
            v.queue_of(a).pending.len() as int,
        ),
        v.queue_of(a).pending.len() == 0 ==> v.consumed(a).queue_of(a).pending.len() == 0,
        v.consumed(a).subscribers.contains_key(a),
{
    assert(v.sub_ok(a));
}

/// A produced message joins the end of every current subscriber's queue of
/// its address, behind the messages already there.
pub proof fn lemma_produce_appends(v: ServerView, addr: Seq<u8>, mode: DeliveryMode, p: Seq<u8>, id: u64)
    requires
        v.inv(),
        v.accepts(addr, mode),
        v.subscribers.contains_key(id),
        v.subscribers[id].addr == addr,
    ensures
        v.produced(addr, mode, p).queue_of(id).pending == v.queue_of(id).pending.push(p),
{
    lemma_produce_reaches_subscribers(v, addr, mode, p, id);
}

/// A client hands back the payload of a ConsumeOk reply byte for byte.
pub proof fn lemma_consume_reply_keeps_payload(payload: Option<Seq<u8>>)
    ensures
        consume_reply_view(FrameView::ConsumeOk { payload }) == Ok::<Option<Seq<u8>>, ErrorView>(payload),
{
}

/// A produce succeeds exactly on a ProduceOk reply; an error reply is an error
/// of kind `Other` carrying the server's message unchanged, and any other
/// reply is an `InvalidData` error.
pub proof fn lemma_produce_reply_meaning(resp: FrameView)
    ensures
        produce_reply_view(resp) is Ok <==> resp == FrameView::ProduceOk,
        resp matches FrameView::Error { msg } ==> produce_reply_view(resp) == Err::<(), ErrorView>(
            ErrorView { kind: ErrorKind::Other, message: msg },
        ),
        !(resp is ProduceOk) && !(resp is Error) ==> (produce_reply_view(resp) matches Err(e) && e.kind
            == ErrorKind::InvalidData),
{
}

/// A subscribe succeeds exactly on a SubscribeOk reply, with the id it names;
/// an error reply carries the server's message unchanged.
pub proof fn lemma_subscribe_reply_meaning(resp: FrameView)
    ensures
        resp matches FrameView::SubscribeOk { sub_id } ==> subscribe_reply_view(resp) == Ok::<u64, ErrorView>(sub_id),
        !(resp is SubscribeOk) ==> subscribe_reply_view(resp) is Err,
        resp matches FrameView::Error { msg } ==> subscribe_reply_view(resp) == Err::<u64, ErrorView>(
            ErrorView { kind: ErrorKind::Other, message: msg },
        ),
{
}

/// A consume reply other than ConsumeOk is an error; an error reply carries
/// the server's message unchanged.
pub proof fn lemma_consume_reply_errors(resp: FrameView)
    ensures
        !(resp is ConsumeOk) ==> consume_reply_view(resp) is Err,
        resp matches FrameView::Error { msg } ==> consume_reply_view(resp) == Err::<Option<Seq<u8>>, ErrorView>(
            ErrorView { kind: ErrorKind::Other, message: msg },
        ),
{
}

} // verus!
