//! The server side of one client connection: it answers each request frame
//! and remembers which subscriptions the connection made, so that they can be
//! ended when the connection closes.
use crate::error::{mode_mismatch_view, unknown_subscriber_view};
use crate::frame::{Frame, FrameView};
use crate::laws::{lemma_unsubscribe_keeps_others, lemma_unsubscribed_all_any_order};
use crate::payload::{bytes_from_vec, bytes_into_vec};
use crate::server::{ServerInner, ServerView};
use crate::text::{decimal, push_decimal};
use std::collections::HashSet;
use vstd::prelude::*;
use vstd::std_specs::iter::IteratorSpec;
use vstd::string::StringExecFns;

verus! {

broadcast use vstd::std_specs::hash::group_hash_axioms;

/// The reply to a consume request for a subscription this connection does
/// not own.
pub open spec fn not_owned_message(sub_id: u64) -> Seq<char> {
    "sub_id "@ + decimal(sub_id as nat) + " not owned by this connection"@
}

/// The reply to a frame that only a server sends.
pub open spec fn misdirected_message() -> Seq<char> {
    "unexpected server-direction frame from client"@
}

/// What one request does: the subscriptions the connection then owns, the
/// server's new state, and the reply.
pub struct Step {
    pub owned: Set<u64>,
    pub server: ServerView,
    pub reply: FrameView,
}

/// The effect of request `f` on a connection that owns `owned`, against a
/// server in state `s`.
pub open spec fn handle_view(owned: Set<u64>, s: ServerView, f: FrameView) -> Step {
    match f {
        FrameView::Produce { addr, mode, payload } => Step {
            owned,
            server: s.produced(addr, mode, payload),
            reply: if s.accepts(addr, mode) {
                FrameView::ProduceOk
            } else {
                FrameView::Error { msg: mode_mismatch_view(addr).message }
            },
        },
        FrameView::Subscribe { addr, mode } => if s.accepts(addr, mode) {
            Step {
                owned: owned.insert(s.next_sub_id),
                server: s.subscribed(addr, mode),
                reply: FrameView::SubscribeOk { sub_id: s.next_sub_id },
            }
        } else {
            Step {
                owned,
                server: s.subscribed(addr, mode),
                reply: FrameView::Error { msg: mode_mismatch_view(addr).message },
            }
        },
        FrameView::Consume { sub_id } => if !owned.contains(sub_id) {
            Step { owned, server: s, reply: FrameView::Error { msg: not_owned_message(sub_id) } }
        } else if s.subscribers.contains_key(sub_id) {
            Step {
                owned,
                server: s.consumed(sub_id),
                reply: FrameView::ConsumeOk { payload: s.queue_of(sub_id).front() },
            }
        } else {
            Step {
                owned,
                server: s,
                reply: FrameView::Error { msg: unknown_subscriber_view(sub_id).message },
            }
        },
        FrameView::Unsubscribe { sub_id } => if owned.contains(sub_id) {
            Step {
                owned: owned.remove(sub_id),
                server: s.unsubscribed(sub_id),
                reply: FrameView::UnsubscribeOk,
            }
        } else {
            Step { owned, server: s, reply: FrameView::UnsubscribeOk }
        },
        _ => Step { owned, server: s, reply: FrameView::Error { msg: misdirected_message() } },
    }
}

/// The server after unsubscribing `ids` in order.
pub open spec fn unsubscribed_all(s: ServerView, ids: Seq<u64>) -> ServerView
    decreases ids.len(),
{
    if ids.len() == 0 {
        s
    } else {
        unsubscribed_all(s, ids.drop_last()).unsubscribed(ids.last())
    }
}

/// The subscriptions one connection made and has not ended.
pub struct Session {
    owned_subs: HashSet<u64>,
}

impl View for Session {
    type V = Set<u64>;

    closed spec fn view(&self) -> Set<u64> {
        self.owned_subs@
    }
}

fn not_owned(sub_id: u64) -> (m: String)
    ensures
        m@ == not_owned_message(sub_id),
{
    let mut m = String::new();
    m.append("sub_id ");
    push_decimal(&mut m, sub_id);
    m.append(" not owned by this connection");
    m
}

fn collect_ids(s: &HashSet<u64>) -> (ids: Vec<u64>)
    ensures
        ids@.to_set() == s@,
        ids@.no_duplicates(),
{
    let mut ids: Vec<u64> = Vec::new();
    let ghost all = vstd::std_specs::hash::spec_hash_keys_iter(s).remaining().unref();
    for k in it: s.iter()
        invariant
            all.to_set() == s@,
            all.no_duplicates(),
            it.seq().unref() == all,
            ids@ == all.take(it.index()),
        ensures
            ids@ == all,
    {
        ids.push(*k);
        assert(ids@ =~= all.take(it.index() + 1));
    }
    ids
}

impl Session {
    pub fn new() -> (s: Session)
        ensures
            s@ == Set::<u64>::empty(),
    {
        Session { owned_subs: HashSet::new() }
    }

    /// Answers one request frame.
    pub fn handle(&mut self, server: &mut ServerInner, frame: Frame) -> (r: Option<Frame>)
        requires
            old(server).wf(),
            frame@ is Subscribe ==> old(server)@.next_sub_id < u64::MAX,
        ensures
            final(server).wf(),
            r matches Some(reply) && reply@ == handle_view(old(self)@, old(server)@, frame@).reply,
            final(self)@ == handle_view(old(self)@, old(server)@, frame@).owned,
            final(server)@ == handle_view(old(self)@, old(server)@, frame@).server,
    {
        match frame {
            Frame::Produce { addr, mode, payload } => {
                match server.produce(addr.as_slice(), mode, bytes_from_vec(payload)) {
                    Ok(()) => Some(Frame::ProduceOk),
                    Err(e) => Some(Frame::Error { msg: e.message }),
                }
            },
            Frame::Subscribe { addr, mode } => {
                match server.subscribe(addr.as_slice(), mode) {
                    Ok(sub_id) => {
                        self.owned_subs.insert(sub_id);
                        Some(Frame::SubscribeOk { sub_id })
                    },
                    Err(e) => Some(Frame::Error { msg: e.message }),
                }
            },
            Frame::Consume { sub_id } => {
                if !self.owned_subs.contains(&sub_id) {
                    return Some(Frame::Error { msg: not_owned(sub_id) });
                }
                match server.consume(sub_id) {
                    Ok(payload) => Some(
                        Frame::ConsumeOk {
                            payload: match payload {
                                Some(b) => Some(bytes_into_vec(b)),
                                None => None,
                            },
                        },
                    ),
                    Err(e) => Some(Frame::Error { msg: e.message }),
                }
            },
            Frame::Unsubscribe { sub_id } => {
                if self.owned_subs.remove(&sub_id) {
                    server.unsubscribe(sub_id);
                }
                Some(Frame::UnsubscribeOk)
            },
            _ => Some(
                Frame::Error {
                    msg: String::from_str("unexpected server-direction frame from client"),
                },
            ),
        }
    }

    /// Ends every subscription the connection owns and forgets them. The
    /// set is walked in an unspecified order; every order gives the same server.
    pub fn close(&mut self, server: &mut ServerInner)
        requires
            old(server).wf(),
        ensures
            final(server).wf(),
            final(self)@ == Set::<u64>::empty(),
            forall|ids: Seq<u64>|
                #![trigger unsubscribed_all(old(server)@, ids)]
                ids.to_set() == old(self)@ && ids.no_duplicates() ==> final(server)@
                    == unsubscribed_all(old(server)@, ids),
            final(server)@.subscribers == old(server)@.subscribers.remove_keys(old(self)@),
            final(server)@.next_sub_id == old(server)@.next_sub_id,
            forall|k: u64| #[trigger] old(server)@.subscribers.contains_key(k) && !old(self)@.contains(k)
                ==> final(server)@.queue_of(k) == old(server)@.queue_of(k),
            old(self)@.finite(),
    {
        let ids = collect_ids(&self.owned_subs);
        let n = ids.len();
        let mut i: usize = 0;
        while i < n
            invariant
                n == ids@.len(),
                i <= n,
                server.wf(),
                server@ == unsubscribed_all(old(server)@, ids@.take(i as int)),
                forall|k: u64| #[trigger] server@.subscribers.contains_key(k) <==> (
                    old(server)@.subscribers.contains_key(k) && !ids@.take(i as int).contains(k)),
                forall|k: u64| #[trigger] server@.subscribers.contains_key(k) ==>
                    server@.subscribers[k] == old(server)@.subscribers[k],
                server@.next_sub_id == old(server)@.next_sub_id,
                forall|k: u64| #[trigger] server@.subscribers.contains_key(k) ==>
                    server@.queue_of(k) == old(server)@.queue_of(k),
            decreases n - i,
        {
            let id = ids[i];
            let ghost before = server@;
            server.unsubscribe(id);
            proof {
                assert forall|k: u64| #[trigger] server@.subscribers.contains_key(k) implies
                    server@.queue_of(k) == old(server)@.queue_of(k) by {
                    lemma_unsubscribe_keeps_others(before, id, k);
                }
            }
            proof {
                let t = ids@.take(i + 1);
                assert(t.drop_last() =~= ids@.take(i as int));
                assert(t.last() == id);
                assert forall|k: u64| t.contains(k) <==> (ids@.take(i as int).contains(k) || k == id) by {
                    if t.contains(k) {
                        let j = choose|j: int| 0 <= j < t.len() && t[j] == k;
                        if j < i {
                            assert(ids@.take(i as int)[j] == k);
                        }
                    }
                    if ids@.take(i as int).contains(k) {
                        let j = choose|j: int| 0 <= j < i && ids@.take(i as int)[j] == k;
                        assert(t[j] == k);
                    }
                    if k == id {
                        assert(t[i as int] == k);
                    }
                }
            }
            i = i + 1;
        }
        self.owned_subs.clear();
        proof {
            assert(ids@.take(n as int) =~= ids@);
            vstd::seq_lib::seq_to_set_is_finite(ids@);
            assert forall|k: u64| #[trigger] old(server)@.subscribers.contains_key(k) && !old(self)@.contains(k)
                implies server@.subscribers.contains_key(k) by {
                assert(!ids@.to_set().contains(k));
                assert(!ids@.contains(k));
            }
            assert(server@.subscribers =~= old(server)@.subscribers.remove_keys(old(self)@));
            assert forall|other: Seq<u64>|
                #![trigger unsubscribed_all(old(server)@, other)]
                other.to_set() == old(self)@ && other.no_duplicates() implies server@
                    == unsubscribed_all(old(server)@, other) by {
                lemma_unsubscribed_all_any_order(old(server)@, ids@, other);
            }
        }
    }
}

} // verus!
