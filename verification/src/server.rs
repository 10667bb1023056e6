//! The server's state: the queues behind each address, the subscriptions,
//! and the operations that produce to, subscribe to, consume from and
//! unsubscribe from them.
//!
//! The first operation on an address fixes its delivery mode. An anycast
//! address has one queue that all its subscribers consume from; a broadcast
//! address has one queue per subscriber, and a produced message is appended
//! to each of them.
use crate::address::DeliveryMode;
use crate::error::{mode_mismatch_view, unknown_subscriber, unknown_subscriber_view, Error, ErrorKind};
use crate::payload::{bytes_clone, bytes_view};
use crate::queue::{Queue, QueueView};
use crate::text::push_bytes_debug;
use vstd::slice::slice_to_vec;
use vstd::std_specs::iter::IteratorSpec;
use bytes::Bytes;
use std::collections::HashMap;
use vstd::prelude::*;
use vstd::string::StringExecFns;

verus! {

broadcast use vstd::std_specs::hash::group_hash_axioms;

/// The abstract state of the queues behind one address.
pub enum SlotView {
    Anycast { queue: QueueView, sub_count: usize },
    Broadcast { subs: Map<u64, QueueView> },
}

/// The slot that the first operation with `mode` creates.
pub open spec fn empty_slot_view(mode: DeliveryMode) -> SlotView {
    match mode {
        DeliveryMode::Anycast => SlotView::Anycast { queue: QueueView::empty(), sub_count: 0 },
        DeliveryMode::Broadcast => SlotView::Broadcast { subs: Map::empty() },
    }
}

impl SlotView {
    pub open spec fn mode(self) -> DeliveryMode {
        match self {
            SlotView::Anycast { .. } => DeliveryMode::Anycast,
            SlotView::Broadcast { .. } => DeliveryMode::Broadcast,
        }
    }

    /// A message appended: to the shared queue, or to every subscriber's queue.
    pub open spec fn pushed(self, p: Seq<u8>) -> SlotView {
        match self {
            SlotView::Anycast { queue, sub_count } => SlotView::Anycast {
                queue: queue.pushed(p),
                sub_count,
            },
            SlotView::Broadcast { subs } => SlotView::Broadcast {
                subs: subs.map_values(|q: QueueView| q.pushed(p)),
            },
        }
    }

    /// Subscriber `id` joined: counted, or given a fresh queue of its own.
    pub open spec fn joined(self, id: u64) -> SlotView {
        match self {
            SlotView::Anycast { queue, sub_count } => SlotView::Anycast {
                queue,
                sub_count: if sub_count == usize::MAX { 0 } else { (sub_count + 1) as usize },
            },
            SlotView::Broadcast { subs } => SlotView::Broadcast {
                subs: subs.insert(id, QueueView::empty()),
            },
        }
    }

    /// Subscriber `id`, subscribed with `mode`, left.
    pub open spec fn left(self, id: u64, mode: DeliveryMode) -> SlotView {
        match self {
            SlotView::Anycast { queue, sub_count } => if mode == DeliveryMode::Anycast {
                SlotView::Anycast {
                    queue,
                    sub_count: if sub_count == 0 { 0 } else { (sub_count - 1) as usize },
                }
            } else {
                self
            },
            SlotView::Broadcast { subs } => if mode == DeliveryMode::Broadcast {
                SlotView::Broadcast { subs: subs.remove(id) }
            } else {
                self
            },
        }
    }
}

/// A subscription: the address it was made on, and with which mode.
pub struct SubView {
    pub addr: Seq<u8>,
    pub mode: DeliveryMode,
}

/// The abstract state of a server.
pub struct ServerView {
    pub addresses: Map<Seq<u8>, SlotView>,
    pub subscribers: Map<u64, SubView>,
    pub next_sub_id: u64,
}

/// Every queue of a broadcast slot belongs to an id below `n`.
pub open spec fn slot_ids_below(slot: SlotView, n: u64) -> bool {
    slot matches SlotView::Broadcast { subs } ==> forall|k: u64| #[trigger] subs.contains_key(k) ==> k < n
}

/// The id after `id`, wrapping at the top of the range.
pub open spec fn wrapping_next(id: u64) -> u64 {
    if id == u64::MAX { 0 } else { (id + 1) as u64 }
}

impl ServerView {
    /// Subscription `id` points at an existing slot of its own mode, owns a
    /// queue there if it is a broadcast subscription, and was issued before
    /// the next id.
    pub open spec fn sub_ok(self, id: u64) -> bool {
        let sub = self.subscribers[id];
        &&& self.addresses.contains_key(sub.addr)
        &&& self.addresses[sub.addr].mode() == sub.mode
        &&& (self.addresses[sub.addr] matches SlotView::Broadcast { subs } ==> subs.contains_key(id))
        &&& id < self.next_sub_id
    }

    /// Every subscription is usable, and every id issued so far (live, or
    /// owning a broadcast queue) is below the next id, so a new id is fresh.
    pub open spec fn inv(self) -> bool {
        &&& forall|id: u64| #[trigger] self.subscribers.contains_key(id) ==> self.sub_ok(id)
        &&& forall|a: Seq<u8>| #[trigger] self.addresses.contains_key(a) ==> slot_ids_below(
            self.addresses[a],
            self.next_sub_id,
        )
    }

    /// The slot of `addr`, or the one a first operation with `mode` creates.
    pub open spec fn slot_for(self, addr: Seq<u8>, mode: DeliveryMode) -> SlotView {
        if self.addresses.contains_key(addr) {
            self.addresses[addr]
        } else {
            empty_slot_view(mode)
        }
    }

    /// Whether an operation with `mode` on `addr` is accepted: the address is
    /// new, or was first used with the same mode.
    pub open spec fn accepts(self, addr: Seq<u8>, mode: DeliveryMode) -> bool {
        self.slot_for(addr, mode).mode() == mode
    }

    pub open spec fn touched(self, addr: Seq<u8>, mode: DeliveryMode) -> ServerView {
        ServerView { addresses: self.addresses.insert(addr, self.slot_for(addr, mode)), ..self }
    }

    pub open spec fn produced(self, addr: Seq<u8>, mode: DeliveryMode, p: Seq<u8>) -> ServerView {
        if self.accepts(addr, mode) {
            ServerView {
                addresses: self.addresses.insert(addr, self.slot_for(addr, mode).pushed(p)),
                ..self
            }
        } else {
            self
        }
    }

    /// A subscribe takes the next id whether or not the mode is accepted.
    pub open spec fn subscribed(self, addr: Seq<u8>, mode: DeliveryMode) -> ServerView {
        let id = self.next_sub_id;
        if self.accepts(addr, mode) {
            ServerView {
                addresses: self.addresses.insert(addr, self.slot_for(addr, mode).joined(id)),
                subscribers: self.subscribers.insert(id, SubView { addr, mode }),
                next_sub_id: wrapping_next(id),
            }
        } else {
            ServerView { next_sub_id: wrapping_next(id), ..self }
        }
    }

    /// The queue that subscriber `id` consumes from.
    pub open spec fn queue_of(self, id: u64) -> QueueView {
        match self.addresses[self.subscribers[id].addr] {
            SlotView::Anycast { queue, .. } => queue,
            SlotView::Broadcast { subs } => subs[id],
        }
    }

    pub open spec fn with_queue(self, id: u64, q: QueueView) -> ServerView {
        let addr = self.subscribers[id].addr;
        let slot = match self.addresses[addr] {
            SlotView::Anycast { sub_count, .. } => SlotView::Anycast { queue: q, sub_count },
            SlotView::Broadcast { subs } => SlotView::Broadcast { subs: subs.insert(id, q) },
        };
        ServerView { addresses: self.addresses.insert(addr, slot), ..self }
    }

    pub open spec fn consumed(self, id: u64) -> ServerView {
        if self.subscribers.contains_key(id) {
            self.with_queue(id, self.queue_of(id).popped_front())
        } else {
            self
        }
    }

    pub open spec fn unsubscribed(self, id: u64) -> ServerView {
        if self.subscribers.contains_key(id) {
            let sub = self.subscribers[id];
            ServerView {
                addresses: if self.addresses.contains_key(sub.addr) {
                    self.addresses.insert(sub.addr, self.addresses[sub.addr].left(id, sub.mode))
                } else {
                    self.addresses
                },
                subscribers: self.subscribers.remove(id),
                next_sub_id: self.next_sub_id,
            }
        } else {
            self
        }
    }
}

/// The error for an operation whose delivery mode differs from the one the
/// address was first used with.
pub fn mode_mismatch(addr: &[u8]) -> (e: Error)
    ensures
        e@ == mode_mismatch_view(addr@),
{
    let mut message = String::new();
    message.append("delivery mode mismatch for address ");
    push_bytes_debug(&mut message, addr);
    Error { kind: ErrorKind::InvalidInput, message }
}

enum AddrSlot {
    Anycast { queue: Queue, sub_count: usize },
    Broadcast { subs: HashMap<u64, Queue> },
}

impl View for AddrSlot {
    type V = SlotView;

    closed spec fn view(&self) -> SlotView {
        match self {
            AddrSlot::Anycast { queue, sub_count } => SlotView::Anycast {
                queue: queue@,
                sub_count: *sub_count,
            },
            AddrSlot::Broadcast { subs } => SlotView::Broadcast {
                subs: subs@.map_values(|q: Queue| q@),
            },
        }
    }
}

impl AddrSlot {
    closed spec fn wf(&self) -> bool {
        match self {
            AddrSlot::Anycast { queue, .. } => queue.wf(),
            AddrSlot::Broadcast { subs } => forall|k: u64| #[trigger]
                subs@.contains_key(k) ==> subs@[k].wf(),
        }
    }
}

fn empty_slot(mode: DeliveryMode) -> (s: AddrSlot)
    ensures
        s.wf(),
        s@ == empty_slot_view(mode),
{
    match mode {
        DeliveryMode::Anycast => AddrSlot::Anycast { queue: Queue::new(), sub_count: 0 },
        DeliveryMode::Broadcast => {
            let subs: HashMap<u64, Queue> = HashMap::new();
            let s = AddrSlot::Broadcast { subs };
            assert(s@ == empty_slot_view(mode)) by {
                assert(subs@.map_values(|q: Queue| q@) =~= Map::<u64, QueueView>::empty());
            }
            s
        },
    }
}

struct AddrEntry {
    addr: Vec<u8>,
    slot: AddrSlot,
}

struct Subscription {
    addr: Vec<u8>,
    mode: DeliveryMode,
}

impl View for Subscription {
    type V = SubView;

    closed spec fn view(&self) -> SubView {
        SubView { addr: self.addr@, mode: self.mode }
    }
}

/// The addresses of `s`, each with the view of its slot.
closed spec fn addr_map(s: Seq<AddrEntry>) -> Map<Seq<u8>, SlotView>
    decreases s.len(),
{
    if s.len() == 0 {
        Map::empty()
    } else {
        addr_map(s.drop_last()).insert(s.last().addr@, s.last().slot@)
    }
}

closed spec fn distinct_addrs(s: Seq<AddrEntry>) -> bool {
    forall|i: int, j: int| 0 <= i < j < s.len() ==> s[i].addr@ != s[j].addr@
}

proof fn lemma_addr_map_at(s: Seq<AddrEntry>, i: int)
    requires
        distinct_addrs(s),
        0 <= i < s.len(),
    ensures
        addr_map(s).contains_key(s[i].addr@),
        addr_map(s)[s[i].addr@] == s[i].slot@,
    decreases s.len(),
{
    if i < s.len() - 1 {
        lemma_addr_map_at(s.drop_last(), i);
    }
}

proof fn lemma_addr_map_absent(s: Seq<AddrEntry>, a: Seq<u8>)
    requires
        forall|i: int| 0 <= i < s.len() ==> s[i].addr@ != a,
    ensures
        !addr_map(s).contains_key(a),
    decreases s.len(),
{
    if s.len() > 0 {
        lemma_addr_map_absent(s.drop_last(), a);
    }
}

proof fn lemma_addr_map_has(s: Seq<AddrEntry>, a: Seq<u8>)
    requires
        addr_map(s).contains_key(a),
    ensures
        exists|i: int| 0 <= i < s.len() && s[i].addr@ == a,
    decreases s.len(),
{
    if s.len() > 0 && s.last().addr@ != a {
        lemma_addr_map_has(s.drop_last(), a);
        let i = choose|i: int| 0 <= i < s.drop_last().len() && s.drop_last()[i].addr@ == a;
        assert(s[i].addr@ == a);
    }
}

proof fn lemma_addr_map_update(s: Seq<AddrEntry>, i: int, e: AddrEntry)
    requires
        distinct_addrs(s),
        0 <= i < s.len(),
        e.addr@ == s[i].addr@,
    ensures
        addr_map(s.update(i, e)) == addr_map(s).insert(e.addr@, e.slot@),
    decreases s.len(),
{
    let t = s.update(i, e);
    if i == s.len() - 1 {
        assert(t.drop_last() =~= s.drop_last());
        assert(addr_map(t) =~= addr_map(s).insert(e.addr@, e.slot@));
    } else {
        assert(t.drop_last() =~= s.drop_last().update(i, e));
        lemma_addr_map_update(s.drop_last(), i, e);
        assert(s.last().addr@ != e.addr@);
        assert(addr_map(t) =~= addr_map(s).insert(e.addr@, e.slot@));
    }
}

proof fn lemma_addr_map_push(s: Seq<AddrEntry>, e: AddrEntry)
    ensures
        addr_map(s.push(e)) == addr_map(s).insert(e.addr@, e.slot@),
{
    assert(s.push(e).drop_last() =~= s);
}

/// Whether two byte strings are equal.
fn same_bytes(a: &[u8], b: &[u8]) -> (r: bool)
    ensures
        r == (a@ == b@),
{
    if a.len() != b.len() {
        return false;
    }
    let n = a.len();
    let mut i: usize = 0;
    while i < n
        invariant
            n == a@.len(),
            n == b@.len(),
            i <= n,
            forall|j: int| 0 <= j < i ==> a@[j] == b@[j],
        decreases n - i,
    {
        if a[i] != b[i] {
            return false;
        }
        i = i + 1;
    }
    assert(a@ =~= b@);
    true
}

/// The index of the entry for `addr`, if there is one.
fn find_addr(entries: &Vec<AddrEntry>, addr: &[u8]) -> (r: Option<usize>)
    ensures
        match r {
            Some(i) => i < entries@.len() && entries@[i as int].addr@ == addr@,
            None => forall|i: int| 0 <= i < entries@.len() ==> entries@[i].addr@ != addr@,
        },
{
    let n = entries.len();
    let mut i: usize = 0;
    while i < n
        invariant
            n == entries@.len(),
            i <= n,
            forall|j: int| 0 <= j < i ==> entries@[j].addr@ != addr@,
        decreases n - i,
    {
        if same_bytes(entries[i].addr.as_slice(), addr) {
            return Some(i);
        }
        i = i + 1;
    }
    None
}


/// The keys of `m`, each once.
fn collect_keys(m: &HashMap<u64, Queue>) -> (ks: Vec<u64>)
    ensures
        ks@.to_set() == m@.dom(),
        ks@.no_duplicates(),
{
    let mut ks: Vec<u64> = Vec::new();
    let ghost all = vstd::std_specs::hash::spec_keys_iter(m).remaining().unref();
    for k in it: m.keys()
        invariant
            all.to_set() == m@.dom(),
            all.no_duplicates(),
            it.seq().unref() == all,
            ks@ == all.take(it.index()),
        ensures
            ks@ == all,
    {
        ks.push(*k);
        assert(ks@ =~= all.take(it.index() + 1));
    }
    ks
}

/// Appends a copy of `payload` to every queue of `subs`.
fn push_to_all(subs: &mut HashMap<u64, Queue>, payload: Bytes)
    requires
        forall|k: u64| #[trigger] old(subs)@.contains_key(k) ==> old(subs)@[k].wf(),
    ensures
        final(subs)@.dom() == old(subs)@.dom(),
        forall|k: u64| #[trigger] final(subs)@.contains_key(k) ==> final(subs)@[k].wf(),
        forall|k: u64| #[trigger] final(subs)@.contains_key(k) ==> final(subs)@[k]@ == old(subs)@[k]@.pushed(bytes_view(payload)),
{
    let keys = collect_keys(subs);
    let n = keys.len();
    let mut i: usize = 0;
    while i < n
        invariant
            n == keys@.len(),
            i <= n,
            keys@.to_set() == old(subs)@.dom(),
            keys@.no_duplicates(),
            subs@.dom() == old(subs)@.dom(),
            forall|k: u64| #[trigger] subs@.contains_key(k) ==> subs@[k].wf(),
            forall|j: int| 0 <= j < i ==> subs@[#[trigger] keys@[j]]@ == old(subs)@[keys@[j]]@.pushed(bytes_view(payload)),
            forall|j: int| i <= j < n ==> subs@[#[trigger] keys@[j]] == old(subs)@[keys@[j]],
        decreases n - i,
    {
        let k = keys[i];
        assert(keys@.contains(k));
        assert(subs@.contains_key(k));
        let removed = subs.remove(&k);
        match removed {
            Some(q0) => {
                let mut q = q0;
                q.push_back(bytes_clone(&payload));
                subs.insert(k, q);
            },
            None => {},
        }
        assert forall|j: int| 0 <= j < n && j != i implies keys@[j] != k by {
            assert(keys@[j] != keys@[i as int]);
        }
        i = i + 1;
    }
    assert forall|k: u64| #[trigger] subs@.contains_key(k) implies subs@[k]@ == old(subs)@[k]@.pushed(bytes_view(payload)) by {
        assert(keys@.to_set().contains(k));
        assert(keys@.contains(k));
        let j = choose|j: int| 0 <= j < keys@.len() && keys@[j] == k;
        assert(subs@[keys@[j]]@ == old(subs)@[keys@[j]]@.pushed(bytes_view(payload)));
    }
}

/// Whether replacing slot `a` by `b` keeps every subscription's slot usable.
pub open spec fn same_shape(a: SlotView, b: SlotView) -> bool {
    &&& a.mode() == b.mode()
    &&& (a matches SlotView::Broadcast { subs: s1 } ==> (b matches SlotView::Broadcast { subs: s2 }
        && forall|k: u64| s1.contains_key(k) ==> #[trigger] s2.contains_key(k)))
}

proof fn lemma_inv_reshape(v: ServerView, a: Seq<u8>, s: SlotView)
    requires
        v.inv(),
        v.addresses.contains_key(a),
        same_shape(v.addresses[a], s),
        slot_ids_below(s, v.next_sub_id),
    ensures
        (ServerView { addresses: v.addresses.insert(a, s), ..v }).inv(),
{
    let w = ServerView { addresses: v.addresses.insert(a, s), ..v };
    assert forall|id: u64| #[trigger] w.subscribers.contains_key(id) implies w.sub_ok(id) by {
        assert(v.sub_ok(id));
        let sub = v.subscribers[id];
        if sub.addr == a {
            if let SlotView::Broadcast { subs: s1 } = v.addresses[a] {
                assert(s1.contains_key(id));
            }
        }
    }
    assert forall|b: Seq<u8>| #[trigger] w.addresses.contains_key(b) implies slot_ids_below(
        w.addresses[b],
        w.next_sub_id,
    ) by {
        if b != a {
            assert(v.addresses.contains_key(b));
        }
    }
}

/// Raising the next id keeps the invariant.
proof fn lemma_inv_raise(v: ServerView, n: u64)
    requires
        v.inv(),
        v.next_sub_id <= n,
    ensures
        (ServerView { next_sub_id: n, ..v }).inv(),
{
    let w = ServerView { next_sub_id: n, ..v };
    assert forall|id: u64| #[trigger] w.subscribers.contains_key(id) implies w.sub_ok(id) by {
        assert(v.sub_ok(id));
    }
    assert forall|b: Seq<u8>| #[trigger] w.addresses.contains_key(b) implies slot_ids_below(
        w.addresses[b],
        w.next_sub_id,
    ) by {
        assert(slot_ids_below(v.addresses[b], v.next_sub_id));
    }
}

/// The shared state of a server: every address's queues and every
/// subscription. Addresses are byte strings, kept as entries with distinct
/// addresses; subscriptions are keyed by their id.
pub struct ServerInner {
    addresses: Vec<AddrEntry>,
    subscribers: HashMap<u64, Subscription>,
    next_sub_id: u64,
}

impl View for ServerInner {
    type V = ServerView;

    closed spec fn view(&self) -> ServerView {
        ServerView {
            addresses: addr_map(self.addresses@),
            subscribers: self.subscribers@.map_values(|s: Subscription| s@),
            next_sub_id: self.next_sub_id,
        }
    }
}

impl ServerInner {
    /// The entries have distinct addresses and well-formed queues.
    pub closed spec fn stored_well(&self) -> bool {
        &&& distinct_addrs(self.addresses@)
        &&& forall|i: int| 0 <= i < self.addresses@.len() ==> #[trigger] self.addresses@[i].slot.wf()
    }

    /// A well-formed server: well stored, and its view keeps the invariant.
    pub open spec fn wf(&self) -> bool {
        &&& self.stored_well()
        &&& self@.inv()
    }

    /// The id the next subscribe will hand out.
    pub fn next_sub_id(&self) -> (n: u64)
        ensures
            n == self@.next_sub_id,
    {
        self.next_sub_id
    }

    /// A server with no addresses and no subscriptions; ids start at 1.
    pub fn new() -> (s: ServerInner)
        ensures
            s.wf(),
            s@.addresses == Map::<Seq<u8>, SlotView>::empty(),
            s@.subscribers == Map::<u64, SubView>::empty(),
            s@.next_sub_id == 1,
    {
        let s = ServerInner { addresses: Vec::new(), subscribers: HashMap::new(), next_sub_id: 1 };
        assert(s@.addresses =~= Map::<Seq<u8>, SlotView>::empty());
        assert(s@.subscribers =~= Map::<u64, SubView>::empty());
        s
    }

    /// The index of the entry for `addr`, created with `mode` if there was none.
    fn entry_for(&mut self, addr: &[u8], mode: DeliveryMode) -> (i: usize)
        requires
            old(self).wf(),
        ensures
            final(self).wf(),
            i < final(self).addresses@.len(),
            final(self).addresses@[i as int].addr@ == addr@,
            final(self).addresses@[i as int].slot@ == old(self)@.slot_for(addr@, mode),
            final(self)@ == old(self)@.touched(addr@, mode),
            final(self).subscribers == old(self).subscribers,
            final(self).next_sub_id == old(self).next_sub_id,
    {
        match find_addr(&self.addresses, addr) {
            Some(i) => {
                proof {
                    lemma_addr_map_at(self.addresses@, i as int);
                    assert(self@.addresses =~= old(self)@.touched(addr@, mode).addresses);
                }
                i
            },
            None => {
                proof {
                    lemma_addr_map_absent(self.addresses@, addr@);
                }
                let ghost before = self.addresses@;
                let e = AddrEntry { addr: slice_to_vec(addr), slot: empty_slot(mode) };
                self.addresses.push(e);
                proof {
                    lemma_addr_map_push(before, e);
                    assert(self.addresses@ == before.push(e));
                    assert forall|i: int, j: int| 0 <= i < j < self.addresses@.len() implies
                        self.addresses@[i].addr@ != self.addresses@[j].addr@ by {
                        if j == before.len() {
                            assert(before[i].addr@ != addr@);
                        }
                    }
                    let v = old(self)@;
                    let w = self@;
                    assert forall|id: u64| #[trigger] w.subscribers.contains_key(id) implies w.sub_ok(id) by {
                        assert(v.subscribers.contains_key(id));
                        assert(v.sub_ok(id));
                        assert(v.addresses.contains_key(v.subscribers[id].addr));
                    }
                    assert forall|b: Seq<u8>| #[trigger] w.addresses.contains_key(b) implies slot_ids_below(
                        w.addresses[b],
                        w.next_sub_id,
                    ) by {
                        if b != addr@ {
                            assert(v.addresses.contains_key(b));
                        }
                    }
                    assert(self@.addresses =~= old(self)@.touched(addr@, mode).addresses);
                }
                self.addresses.len() - 1
            },
        }
    }

    /// Appends `payload` to the queue of `addr` (anycast) or to the queue of
    /// each current subscriber of `addr` (broadcast). The first operation on
    /// an address fixes its mode; a later one with the other mode fails and
    /// changes nothing.
    pub fn produce(&mut self, addr: &[u8], mode: DeliveryMode, payload: Bytes) -> (r: Result<(), Error>)
        requires
            old(self).wf(),
        ensures
            final(self).wf(),
            final(self)@ == old(self)@.produced(addr@, mode, bytes_view(payload)),
            r is Ok <==> old(self)@.accepts(addr@, mode),
            r matches Err(e) ==> e@ == mode_mismatch_view(addr@),
    {
        let ghost p = bytes_view(payload);
        let i = self.entry_for(addr, mode);
        let ghost mid = self.addresses@;
        let ghost mid_view = self@;
        proof {
            assert(self.addresses@[i as int].slot.wf());
        }
        let ok = {
            let entry = &mut self.addresses[i];
            match &mut entry.slot {
                AddrSlot::Anycast { queue, .. } => {
                    if mode == DeliveryMode::Anycast {
                        queue.push_back(payload);
                        true
                    } else {
                        false
                    }
                },
                AddrSlot::Broadcast { subs } => {
                    if mode == DeliveryMode::Broadcast {
                        push_to_all(subs, payload);
                        true
                    } else {
                        false
                    }
                },
            }
        };
        proof {
            let e = self.addresses@[i as int];
            assert(self.addresses@ =~= mid.update(i as int, e));
            lemma_addr_map_update(mid, i as int, e);
            lemma_addr_map_at(mid, i as int);
            let old_slot = old(self)@.slot_for(addr@, mode);
            if ok {
                if let SlotView::Broadcast { subs: s0 } = old_slot {
                    if let AddrSlot::Broadcast { subs } = &e.slot {
                        assert(subs@.map_values(|q: Queue| q@) =~= s0.map_values(|q: QueueView| q.pushed(p)));
                    }
                }
                assert(e.slot@ == old_slot.pushed(p));
            } else {
                assert(e.slot@ == old_slot);
            }
            assert(same_shape(mid_view.addresses[addr@], e.slot@));
            lemma_inv_reshape(mid_view, addr@, e.slot@);
            assert(self@.addresses =~= mid_view.addresses.insert(addr@, e.slot@));
            assert(self@.subscribers =~= mid_view.subscribers);
            assert(forall|j: int| 0 <= j < self.addresses@.len() ==> #[trigger] self.addresses@[j].slot.wf());
            if ok {
                assert(self@.addresses =~= old(self)@.produced(addr@, mode, p).addresses);
            } else {
                assert(self@.addresses =~= old(self)@.addresses.insert(addr@, old_slot));
                assert(self@.addresses =~= old(self)@.addresses);
            }
        }
        if ok {
            Ok(())
        } else {
            Err(mode_mismatch(addr))
        }
    }

    /// Subscribes to `addr` with `mode`, returning the new subscriber id.
    /// Every call takes the next id, also one that fails because the address
    /// was first used with the other mode.
    pub fn subscribe(&mut self, addr: &[u8], mode: DeliveryMode) -> (r: Result<u64, Error>)
        requires
            old(self).wf(),
            old(self)@.next_sub_id < u64::MAX,
        ensures
            final(self).wf(),
            final(self)@ == old(self)@.subscribed(addr@, mode),
            final(self)@.next_sub_id == old(self)@.next_sub_id + 1,
            r matches Ok(id) ==> forall|k: u64| #[trigger] old(self)@.subscribers.contains_key(k) ==> k < id,
            match r {
                Ok(id) => old(self)@.accepts(addr@, mode) && id == old(self)@.next_sub_id,
                Err(e) => !old(self)@.accepts(addr@, mode) && e@ == mode_mismatch_view(addr@),
            },
    {
        let i = self.entry_for(addr, mode);
        let sub_id = self.next_sub_id;
        let ghost touched = self@;
        self.next_sub_id = sub_id + 1;
        let ghost mid = self.addresses@;
        let ghost mid_view = self@;
        proof {
            assert(self.addresses@[i as int].slot.wf());
            lemma_addr_map_at(mid, i as int);
            lemma_inv_raise(touched, (sub_id + 1) as u64);
            assert(mid_view == (ServerView { next_sub_id: (sub_id + 1) as u64, ..touched }));
            assert(touched.addresses.contains_key(addr@));
            assert(slot_ids_below(touched.addresses[addr@], sub_id));
        }
        let ok = {
            let entry = &mut self.addresses[i];
            match &mut entry.slot {
                AddrSlot::Anycast { sub_count, .. } => {
                    if mode == DeliveryMode::Anycast {
                        *sub_count = sub_count.wrapping_add(1);
                        true
                    } else {
                        false
                    }
                },
                AddrSlot::Broadcast { subs } => {
                    if mode == DeliveryMode::Broadcast {
                        subs.insert(sub_id, Queue::new());
                        true
                    } else {
                        false
                    }
                },
            }
        };
        let ghost e = self.addresses@[i as int];
        let ghost old_slot = old(self)@.slot_for(addr@, mode);
        proof {
            assert(self.addresses@ =~= mid.update(i as int, e));
            lemma_addr_map_update(mid, i as int, e);
            if ok {
                if let SlotView::Broadcast { subs: s0 } = old_slot {
                    if let AddrSlot::Broadcast { subs } = &e.slot {
                        assert(subs@.map_values(|q: Queue| q@) =~= s0.insert(sub_id, QueueView::empty()));
                    }
                }
                assert(e.slot@ == old_slot.joined(sub_id));
            } else {
                assert(e.slot@ == old_slot);
            }
            assert(same_shape(mid_view.addresses[addr@], e.slot@));
            assert(slot_ids_below(e.slot@, mid_view.next_sub_id));
            lemma_inv_reshape(mid_view, addr@, e.slot@);
            assert(self@.addresses =~= mid_view.addresses.insert(addr@, e.slot@));
            assert(self@.subscribers =~= mid_view.subscribers);
            assert(forall|j: int| 0 <= j < self.addresses@.len() ==> #[trigger] self.addresses@[j].slot.wf());
            assert forall|k: u64| #[trigger] old(self)@.subscribers.contains_key(k) implies k < sub_id by {
                assert(old(self)@.sub_ok(k));
            }
        }
        if !ok {
            proof {
                assert(self@.addresses =~= old(self)@.addresses.insert(addr@, old_slot));
                assert(self@.addresses =~= old(self)@.addresses);
            }
            return Err(mode_mismatch(addr));
        }
        let ghost before = self@;
        self.subscribers.insert(sub_id, Subscription { addr: slice_to_vec(addr), mode });
        proof {
            let w = self@;
            assert(w.subscribers =~= before.subscribers.insert(sub_id, SubView { addr: addr@, mode }));
            assert(w.addresses == before.addresses);
            assert forall|id: u64| #[trigger] w.subscribers.contains_key(id) implies w.sub_ok(id) by {
                if id != sub_id {
                    assert(before.subscribers.contains_key(id));
                    assert(before.sub_ok(id));
                }
            }
            assert forall|b: Seq<u8>| #[trigger] w.addresses.contains_key(b) implies slot_ids_below(
                w.addresses[b],
                w.next_sub_id,
            ) by {
                assert(before.addresses.contains_key(b));
            }
            assert(self@.addresses =~= old(self)@.subscribed(addr@, mode).addresses);
        }
        Ok(sub_id)
    }

    /// Pops the oldest message of the queue that subscriber `sub_id` consumes
    /// from: the address's shared queue (anycast) or its own (broadcast).
    pub fn consume(&mut self, sub_id: u64) -> (r: Result<Option<Bytes>, Error>)
        requires
            old(self).wf(),
        ensures
            final(self).wf(),
            final(self)@ == old(self)@.consumed(sub_id),
            r matches Ok(Some(b)) ==> old(self)@.queue_of(sub_id).pending.len() > 0 && bytes_view(b)
                == old(self)@.queue_of(sub_id).pending[0],
            r matches Ok(None) ==> old(self)@.queue_of(sub_id).pending.len() == 0,
            match r {
                Ok(Some(b)) => old(self)@.subscribers.contains_key(sub_id)
                    && old(self)@.queue_of(sub_id).front() == Some(bytes_view(b)),
                Ok(None) => old(self)@.subscribers.contains_key(sub_id)
                    && old(self)@.queue_of(sub_id).front() is None,
                Err(e) => !old(self)@.subscribers.contains_key(sub_id)
                    && e@ == unknown_subscriber_view(sub_id),
            },
    {
        let found = match self.subscribers.get(&sub_id) {
            None => None,
            Some(sub) => Some(find_addr(&self.addresses, sub.addr.as_slice())),
        };
        let i = match found {
            None => {
                return Err(unknown_subscriber(sub_id));
            },
            Some(None) => {
                // unreachable: every subscription's address has a slot
                proof {
                    let a = old(self)@.subscribers[sub_id].addr;
                    assert(old(self)@.subscribers.contains_key(sub_id));
                    lemma_addr_map_has(self.addresses@, a);
                }
                return Ok(None);
            },
            Some(Some(i)) => i,
        };
        let ghost v = old(self)@;
        let ghost mid = self.addresses@;
        let ghost addr = v.subscribers[sub_id].addr;
        proof {
            assert(v.subscribers.contains_key(sub_id));
            assert(self.addresses@[i as int].slot.wf());
            lemma_addr_map_at(mid, i as int);
            assert(v.addresses[addr] == mid[i as int].slot@);
        }
        let r = {
            let entry = &mut self.addresses[i];
            match &mut entry.slot {
                AddrSlot::Anycast { queue, .. } => queue.pop_front(),
                AddrSlot::Broadcast { subs } => {
                    assert(subs@.contains_key(sub_id));
                    match subs.remove(&sub_id) {
                        Some(q0) => {
                            let mut q = q0;
                            let r = q.pop_front();
                            subs.insert(sub_id, q);
                            r
                        },
                        // unreachable: a broadcast subscriber owns a queue
                        None => None,
                    }
                },
            }
        };
        proof {
            let e = self.addresses@[i as int];
            assert(self.addresses@ =~= mid.update(i as int, e));
            lemma_addr_map_update(mid, i as int, e);
            let q = v.queue_of(sub_id);
            let new_slot = v.with_queue(sub_id, q.popped_front()).addresses[addr];
            if let AddrSlot::Broadcast { subs } = &e.slot {
                if let SlotView::Broadcast { subs: s0 } = v.addresses[addr] {
                    assert(subs@.map_values(|q: Queue| q@) =~= s0.insert(sub_id, q.popped_front()));
                }
            }
            assert(e.slot@ == new_slot);
            assert(same_shape(v.addresses[addr], e.slot@));
            lemma_inv_reshape(v, addr, e.slot@);
            assert(self@.addresses =~= v.addresses.insert(addr, e.slot@));
            assert(self@.subscribers =~= v.subscribers);
            assert(forall|j: int| 0 <= j < self.addresses@.len() ==> #[trigger] self.addresses@[j].slot.wf());
        }
        Ok(r)
    }

    /// Ends subscription `sub_id`: it is forgotten, the anycast subscriber
    /// count drops by one (never below zero), or the subscriber's broadcast
    /// queue is dropped. Unknown ids are ignored.
    pub fn unsubscribe(&mut self, sub_id: u64)
        requires
            old(self).wf(),
        ensures
            final(self).wf(),
            final(self)@ == old(self)@.unsubscribed(sub_id),
    {
        let ghost v = old(self)@;
        let removed = self.subscribers.remove(&sub_id);
        let sub = match removed {
            None => {
                proof {
                    assert(self@.subscribers =~= v.subscribers);
                }
                return;
            },
            Some(s) => s,
        };
        let ghost after_remove = self@;
        proof {
            assert(v.subscribers.contains_key(sub_id));
            assert(v.subscribers[sub_id] == sub@);
            assert(after_remove.subscribers =~= v.subscribers.remove(sub_id));
        }
        match find_addr(&self.addresses, sub.addr.as_slice()) {
            None => {
                // unreachable: every subscription's address has a slot
                proof {
                    lemma_addr_map_has(self.addresses@, sub.addr@);
                }
            },
            Some(i) => {
                let ghost mid = self.addresses@;
                proof {
                    assert(self.addresses@[i as int].slot.wf());
                    lemma_addr_map_at(mid, i as int);
                }
                {
                    let entry = &mut self.addresses[i];
                    match &mut entry.slot {
                        AddrSlot::Anycast { sub_count, .. } => {
                            if sub.mode == DeliveryMode::Anycast {
                                *sub_count = sub_count.saturating_sub(1);
                            }
                        },
                        AddrSlot::Broadcast { subs } => {
                            if sub.mode == DeliveryMode::Broadcast {
                                let _ = subs.remove(&sub_id);
                            }
                        },
                    }
                }
                proof {
                    let e = self.addresses@[i as int];
                    assert(self.addresses@ =~= mid.update(i as int, e));
                    lemma_addr_map_update(mid, i as int, e);
                    let a = sub.addr@;
                    if let AddrSlot::Broadcast { subs } = &e.slot {
                        if let SlotView::Broadcast { subs: s0 } = v.addresses[a] {
                            if sub.mode == DeliveryMode::Broadcast {
                                assert(subs@.map_values(|q: Queue| q@) =~= s0.remove(sub_id));
                            }
                        }
                    }
                    assert(e.slot@ == v.addresses[a].left(sub_id, sub.mode));
                    assert(self@.addresses =~= v.addresses.insert(a, e.slot@));
                    assert(forall|j: int| 0 <= j < self.addresses@.len() ==> #[trigger] self.addresses@[j].slot.wf());
                }
            },
        }
        proof {
            let w = self@;
            assert(w.subscribers =~= v.subscribers.remove(sub_id));
            assert forall|id: u64| #[trigger] w.subscribers.contains_key(id) implies w.sub_ok(id) by {
                assert(v.subscribers.contains_key(id));
                assert(v.sub_ok(id));
                let s = v.subscribers[id];
                if s.addr == sub.addr@ {
                    if let SlotView::Broadcast { subs: s0 } = v.addresses[s.addr] {
                        assert(s0.contains_key(id));
                    }
                }
            }
            assert forall|b: Seq<u8>| #[trigger] w.addresses.contains_key(b) implies slot_ids_below(
                w.addresses[b],
                w.next_sub_id,
            ) by {
                assert(v.addresses.contains_key(b));
                assert(slot_ids_below(v.addresses[b], v.next_sub_id));
            }
        }
    }
}

} // verus!
