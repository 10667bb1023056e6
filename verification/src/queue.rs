//! A FIFO queue of payloads in which every message keeps a stable id.
//!
//! Popping a message does not shift the ids of the others: the slot of a
//! popped message is only emptied, and `compact` later drops the emptied
//! prefix while advancing `base`, the id of the first stored slot.
use crate::payload::{bytes_clone, bytes_view};
use bytes::Bytes;
use std::collections::VecDeque;
use vstd::prelude::*;

verus! {

broadcast use vstd::std_specs::vecdeque::group_vec_dequeue_axioms;

/// The abstract state of a queue.
pub struct QueueView {
    /// Popped messages whose slots are still stored (not yet compacted).
    pub popped: nat,
    /// The messages not yet popped, oldest first.
    pub pending: Seq<Seq<u8>>,
    /// The id of the first stored slot.
    pub base: nat,
}

impl QueueView {
    /// The id of the oldest pending message.
    pub open spec fn first_id(self) -> nat {
        self.base + self.popped
    }

    /// The id the next pushed message will get.
    pub open spec fn next_id(self) -> nat {
        self.base + self.popped + self.pending.len()
    }

    pub open spec fn front(self) -> Option<Seq<u8>> {
        if self.pending.len() > 0 {
            Some(self.pending[0])
        } else {
            None
        }
    }

    pub open spec fn rear(self) -> Option<Seq<u8>> {
        if self.pending.len() > 0 {
            Some(self.pending.last())
        } else {
            None
        }
    }

    /// The pending message with the given id, if there is one.
    pub open spec fn peek(self, id: nat) -> Option<Seq<u8>> {
        if self.first_id() <= id && id < self.next_id() {
            Some(self.pending[id - self.first_id()])
        } else {
            None
        }
    }

    pub open spec fn pushed(self, data: Seq<u8>) -> QueueView {
        QueueView { pending: self.pending.push(data), ..self }
    }

    /// The state after a pop: the oldest pending message, if any, is gone.
    pub open spec fn popped_front(self) -> QueueView {
        if self.pending.len() > 0 {
            QueueView { popped: self.popped + 1, pending: self.pending.drop_first(), base: self.base }
        } else {
            self
        }
    }

    pub open spec fn compacted(self) -> QueueView {
        QueueView { popped: 0, pending: self.pending, base: self.base + self.popped }
    }

    pub open spec fn cleared(self) -> QueueView {
        QueueView { popped: 0, pending: Seq::empty(), base: self.next_id() }
    }

    pub open spec fn empty() -> QueueView {
        QueueView { popped: 0, pending: Seq::empty(), base: 0 }
    }
}

/// The bytes held by a stored slot (empty for an emptied one).
pub open spec fn slot_bytes(slot: Option<Bytes>) -> Seq<u8> {
    match slot {
        Some(b) => bytes_view(b),
        None => Seq::empty(),
    }
}

/// A message queue whose messages keep their ids: message `i` of the stored
/// slots has id `base + i`.
pub struct Queue {
    data: VecDeque<Option<Bytes>>,
    head: usize,
    tail: usize,
    base: usize,
}

impl View for Queue {
    type V = QueueView;

    closed spec fn view(&self) -> QueueView {
        QueueView {
            popped: self.head as nat,
            pending: Seq::new(
                (self.tail - self.head) as nat,
                |i: int| slot_bytes(self.data@[self.head + i]),
            ),
            base: self.base as nat,
        }
    }
}

impl Queue {
    /// Slots before `head` are emptied, the others hold pending messages.
    pub closed spec fn wf(&self) -> bool {
        &&& self.head <= self.tail
        &&& self.tail == self.data@.len()
        &&& forall|i: int| 0 <= i < self.head ==> self.data@[i] is None
        &&& forall|i: int| self.head <= i < self.tail ==> self.data@[i] is Some
    }

    pub fn new() -> (q: Queue)
        ensures
            q.wf(),
            q@ == QueueView::empty(),
    {
        let q = Queue { data: VecDeque::new(), head: 0, tail: 0, base: 0 };
        assert(q@.pending =~= Seq::<Seq<u8>>::empty());
        q
    }

    /// Appends a message at the back.
    pub fn push_back(&mut self, data: Bytes)
        requires
            old(self).wf(),
        ensures
            final(self).wf(),
            final(self)@ == old(self)@.pushed(bytes_view(data)),
    {
        let ghost d = bytes_view(data);
        self.data.push_back(Some(data));
        self.tail = self.data.len();
        assert(self@.pending =~= old(self)@.pending.push(d));
    }

    /// Removes and returns the oldest pending message; its id is not reused.
    pub fn pop_front(&mut self) -> (r: Option<Bytes>)
        requires
            old(self).wf(),
        ensures
            final(self).wf(),
            final(self)@ == old(self)@.popped_front(),
            final(self)@.pending == (if old(self)@.pending.len() > 0 {
                old(self)@.pending.subrange(1, old(self)@.pending.len() as int)
            } else {
                old(self)@.pending
            }),
            r matches Some(b) ==> old(self)@.pending.len() > 0 && bytes_view(b) == old(self)@.pending[0],
            r is None ==> old(self)@.pending.len() == 0,
            match r {
                Some(b) => old(self)@.front() == Some(bytes_view(b)),
                None => old(self)@.front() is None,
            },
    {
        if self.head == self.tail {
            return None;
        }
        let ghost old_data = self.data@;
        let h = self.head;
        let removed = self.data.remove(h);
        match removed {
            Some(Some(b)) => {
                self.data.insert(h, None);
                self.head = h + 1;
                assert(self.data@ =~= old_data.update(h as int, None));
                assert(self@.pending =~= old(self)@.pending.drop_first());
                Some(b)
            },
            _ => {
                assert(false);
                None
            },
        }
    }

    /// Drops the emptied slots of popped messages; returns how many it dropped.
    /// Ids of pending messages are unchanged.
    pub fn compact(&mut self) -> (dropped: usize)
        requires
            old(self).wf(),
            old(self).view().base + old(self).view().popped <= usize::MAX,
        ensures
            final(self).wf(),
            final(self)@ == old(self)@.compacted(),
            dropped == old(self)@.popped,
    {
        let h0 = self.head;
        let mut diff: usize = 0;
        while diff < h0
            invariant
                diff <= h0,
                h0 == old(self).head,
                self.head == h0 - diff,
                self.tail == old(self).tail - diff,
                self.base == old(self).base + diff,
                old(self).base + h0 <= usize::MAX,
                self.data@ == old(self).data@.subrange(diff as int, old(self).tail as int),
                old(self).wf(),
            decreases h0 - diff,
        {
            let _ = self.data.pop_front();
            self.head = self.head - 1;
            self.tail = self.tail - 1;
            self.base = self.base + 1;
            diff = diff + 1;
        }
        assert(self@.pending =~= old(self)@.pending);
        diff
    }

    /// Drops every slot; returns how many messages were still pending.
    /// The ids of the dropped messages are never handed out again.
    pub fn clear(&mut self) -> (dropped: usize)
        requires
            old(self).wf(),
            old(self).view().next_id() <= usize::MAX,
        ensures
            final(self).wf(),
            final(self)@ == old(self)@.cleared(),
            dropped == old(self)@.pending.len(),
    {
        let diff = self.tail - self.head;
        self.data.clear();
        self.base = self.base + self.tail;
        self.head = 0;
        self.tail = 0;
        assert(self@.pending =~= Seq::<Seq<u8>>::empty());
        diff
    }

    /// A copy of the oldest pending message.
    pub fn front(&self) -> (r: Option<Bytes>)
        requires
            self.wf(),
        ensures
            match r {
                Some(b) => self@.front() == Some(bytes_view(b)),
                None => self@.front() is None,
            },
    {
        if self.head < self.data.len() {
            match &self.data[self.head] {
                Some(b) => Some(bytes_clone(b)),
                None => None,
            }
        } else {
            None
        }
    }

    /// A copy of the newest pending message.
    pub fn rear(&self) -> (r: Option<Bytes>)
        requires
            self.wf(),
        ensures
            match r {
                Some(b) => self@.rear() == Some(bytes_view(b)),
                None => self@.rear() is None,
            },
    {
        if self.data.len() == 0 {
            return None;
        }
        match &self.data[self.tail - 1] {
            Some(b) => Some(bytes_clone(b)),
            None => None,
        }
    }

    /// A copy of the pending message with the given id.
    pub fn peek(&self, id: usize) -> (r: Option<Bytes>)
        requires
            self.wf(),
        ensures
            match r {
                Some(b) => self@.peek(id as nat) == Some(bytes_view(b)),
                None => self@.peek(id as nat) is None,
            },
    {
        if self.head == self.tail {
            return None;
        }
        if id < self.base {
            return None;
        }
        let k = id - self.base;
        if k < self.data.len() {
            match &self.data[k] {
                Some(b) => Some(bytes_clone(b)),
                None => None,
            }
        } else {
            None
        }
    }

    /// The number of pending messages.
    pub fn len(&self) -> (n: usize)
        requires
            self.wf(),
        ensures
            n == self@.pending.len(),
    {
        self.tail - self.head
    }

    pub fn is_empty(&self) -> (b: bool)
        requires
            self.wf(),
        ensures
            b == (self@.pending.len() == 0),
    {
        self.len() == 0
    }
}

} // verus!
