//! Message-passing primitives: a mailbox, a broadcaster that owns the
//! mailboxes it hands out, and a router that addresses mailboxes by identifier.
use vstd::prelude::*;
use vstd::set_lib::{lemma_int_range, lemma_len_subset, set_int_range};

verus! {

/// A mailbox: messages are appended at the tail and drained, all at once and
/// in append order, by the mailbox's owner.
pub struct Receiver<T> {
    event_queue: Vec<T>,
}

impl<T> View for Receiver<T> {
    type V = Seq<T>;

    closed spec fn view(&self) -> Seq<T> {
        self.event_queue@
    }
}

impl<T: Copy> Receiver<T> {
    /// An empty mailbox.
    pub fn new() -> (r: Self)
        ensures
            r@ == Seq::<T>::empty(),
    {
        Receiver { event_queue: Vec::new() }
    }

    /// Appends `event` at the tail.
    pub fn receive(&mut self, event: T)
        ensures
            final(self)@ == old(self)@.push(event),
    {
        self.event_queue.push(event);
    }

    /// Returns every buffered message in append order and leaves the mailbox empty.
    pub fn poll(&mut self) -> (r: Vec<T>)
        ensures
            r@ == old(self)@,
            final(self)@ == Seq::<T>::empty(),
    {
        let mut drained: Vec<T> = Vec::new();
        drained.append(&mut self.event_queue);
        drained
    }
}


/// Every mailbox of `boxes` with `event` appended.
pub open spec fn broadcast<T>(boxes: Seq<Seq<T>>, event: T) -> Seq<Seq<T>> {
    boxes.map_values(|b: Seq<T>| b.push(event))
}

/// A broadcaster: it owns every mailbox it has created and copies each sent
/// message into all of them, in creation order. A mailbox is named by the
/// handle that `new_receiver` returned.
pub struct Sender<T> {
    receivers: Vec<Receiver<T>>,
}

impl<T> View for Sender<T> {
    type V = Seq<Seq<T>>;

    closed spec fn view(&self) -> Seq<Seq<T>> {
        self.receivers@.map_values(|r: Receiver<T>| r@)
    }
}

impl<T: Copy> Sender<T> {
    /// A broadcaster with no mailbox.
    pub fn new() -> (r: Self)
        ensures
            r@ == Seq::<Seq<T>>::empty(),
    {
        Sender { receivers: Vec::new() }
    }

    /// Creates an empty mailbox and returns its handle.
    pub fn new_receiver(&mut self) -> (handle: usize)
        ensures
            handle == old(self)@.len(),
            final(self)@ == old(self)@.push(Seq::<T>::empty()),
    {
        let handle = self.receivers.len();
        self.receivers.push(Receiver::new());
        proof {
            assert(self@ =~= old(self)@.push(Seq::<T>::empty()));
        }
        handle
    }

    /// Delivers a copy of `event` to every mailbox.
    pub fn send(&mut self, event: T)
        ensures
            final(self)@ == broadcast(old(self)@, event),
    {
        let ghost before = self@;
        let n = self.receivers.len();
        let mut i: usize = 0;
        while i < n
            invariant
                0 <= i <= n,
                n == before.len(),
                self.receivers@.len() == n,
                forall|j: int| 0 <= j < i ==> #[trigger] self.receivers@[j]@ == before[j].push(event),
                forall|j: int| i <= j < n ==> #[trigger] self.receivers@[j]@ == before[j],
            decreases n - i,
        {
            let ghost prev = self.receivers@;
            self.receivers[i].receive(event);
            proof {
                assert forall|j: int| 0 <= j < n && j != i implies self.receivers@[j] == prev[j] by {}
            }
            i = i + 1;
        }
        proof {
            assert(self@ =~= broadcast(before, event));
        }
    }

    /// Drains the mailbox named by `handle`; an unknown handle drains nothing.
    pub fn poll(&mut self, handle: usize) -> (r: Vec<T>)
        ensures
            handle < old(self)@.len() ==> r@ == old(self)@[handle as int]
                && final(self)@ == old(self)@.update(handle as int, Seq::<T>::empty()),
            handle >= old(self)@.len() ==> r@ == Seq::<T>::empty() && final(self)@ == old(self)@,
    {
        if handle < self.receivers.len() {
            let r = self.receivers[handle].poll();
            proof {
                assert(self@ =~= old(self)@.update(handle as int, Seq::<T>::empty()));
            }
            r
        } else {
            Vec::new()
        }
    }
}


/// The identity of an entity and the key of its routed mailbox: a 128-bit
/// UUID held as its big-endian integer value.
pub type Identifier = u128;

/// Relies on uuid::Uuid::new_v4, read back with Uuid::as_u128: a random
/// identifier whose version field (bits 76 to 79) is 4.
#[verifier::external_body]
pub(crate) fn fresh_identifier() -> (r: Identifier)
    ensures
        (r >> 76u128) & 0xfu128 == 4u128,
{
    uuid::Uuid::new_v4().as_u128()
}

/// Some entry of `entries` has the key `x`.
pub open spec fn has_key<X>(entries: Seq<(Identifier, X)>, x: int) -> bool {
    exists|k: int| 0 <= k < entries.len() && #[trigger] entries[k].0 == x
}

/// When every identifier below `c` is the key of some entry of `entries`,
/// there are at least `c` entries.
pub proof fn lemma_keys_below_bound<X>(entries: Seq<(Identifier, X)>, c: int)
    requires
        0 <= c,
        forall|x: int| 0 <= x < c ==> #[trigger] has_key(entries, x),
    ensures
        c <= entries.len(),
{
    let keys = entries.map_values(|e: (Identifier, X)| e.0 as int);
    keys.lemma_cardinality_of_set();
    vstd::seq_lib::seq_to_set_is_finite(keys);
    lemma_int_range(0, c);
    assert forall|x: int| set_int_range(0, c).contains(x) implies keys.to_set().contains(x) by {
        assert(has_key(entries, x));
        let k = choose|k: int| 0 <= k < entries.len() && #[trigger] entries[k].0 == x;
        assert(keys[k] == x);
        assert(keys.contains(x));
    }
    lemma_len_subset(set_int_range(0, c), keys.to_set());
}

/// A message for a router: `Some(id)` addresses the mailbox registered under
/// `id`, `None` addresses every mailbox.
#[derive(Clone, Copy, Debug, PartialEq)]
pub struct RoutedEvent<T>(pub Option<Identifier>, pub T);

/// No two entries of `boxes` share an identifier.
pub open spec fn ids_distinct<T>(boxes: Seq<(Identifier, Seq<T>)>) -> bool {
    forall|i: int, j: int|
        0 <= i < boxes.len() && 0 <= j < boxes.len() && i != j ==> #[trigger] boxes[i].0 != #[trigger] boxes[j].0
}

/// `boxes` has an entry under `id`.
pub open spec fn has_id<T>(boxes: Seq<(Identifier, Seq<T>)>, id: Identifier) -> bool {
    exists|i: int| 0 <= i < boxes.len() && #[trigger] boxes[i].0 == id
}

/// A message whose target is `target` is addressed to the mailbox under `id`.
pub open spec fn targets(target: Option<Identifier>, id: Identifier) -> bool {
    match target {
        Some(t) => t == id,
        None => true,
    }
}

/// `boxes` once `event` has been routed: each addressed mailbox holds the
/// payload at its tail; the others are unchanged.
pub open spec fn route<T>(boxes: Seq<(Identifier, Seq<T>)>, event: RoutedEvent<T>) -> Seq<(Identifier, Seq<T>)> {
    boxes.map_values(
        |entry: (Identifier, Seq<T>)|
            if targets(event.0, entry.0) {
                (entry.0, entry.1.push(event.1))
            } else {
                entry
            },
    )
}

/// `boxes` once each of `events` has been routed, in order.
pub open spec fn route_all<T>(boxes: Seq<(Identifier, Seq<T>)>, events: Seq<RoutedEvent<T>>) -> Seq<
    (Identifier, Seq<T>),
>
    decreases events.len(),
{
    if events.len() == 0 {
        boxes
    } else {
        route(route_all(boxes, events.drop_last()), events.last())
    }
}

/// A routed message changes exactly the mailboxes it addresses: one whose
/// target is `Some(x)` is appended to the mailbox under `x` alone, one whose
/// target is `None` to every mailbox. No identifier changes.
pub proof fn lemma_route_targets<T>(boxes: Seq<(Identifier, Seq<T>)>, event: RoutedEvent<T>, j: int)
    requires
        0 <= j < boxes.len(),
    ensures
        route(boxes, event).len() == boxes.len(),
        route(boxes, event)[j].0 == boxes[j].0,
        targets(event.0, boxes[j].0) ==> route(boxes, event)[j].1 == boxes[j].1.push(event.1),
        !targets(event.0, boxes[j].0) ==> route(boxes, event)[j].1 == boxes[j].1,
{
}

/// Once a sequence of messages has been routed, every message is in each
/// mailbox it addresses, after what that mailbox held before.
pub proof fn lemma_routed_messages_arrive<T>(
    boxes: Seq<(Identifier, Seq<T>)>,
    events: Seq<RoutedEvent<T>>,
    j: int,
)
    requires
        0 <= j < boxes.len(),
    ensures
        route_all(boxes, events).len() == boxes.len(),
        route_all(boxes, events)[j].0 == boxes[j].0,
        route_all(boxes, events)[j].1.len() >= boxes[j].1.len(),
        route_all(boxes, events)[j].1.subrange(0, boxes[j].1.len() as int) == boxes[j].1,
        forall|k: int|
            0 <= k < events.len() && targets(#[trigger] events[k].0, boxes[j].0) ==> route_all(
                boxes,
                events,
            )[j].1.contains(events[k].1),
    decreases events.len(),
{
    if events.len() > 0 {
        let rest = events.drop_last();
        lemma_routed_messages_arrive(boxes, rest, j);
        let mid = route_all(boxes, rest);
        lemma_route_targets(mid, events.last(), j);
        let after = route_all(boxes, events);
        if targets(events.last().0, boxes[j].0) {
            assert(after[j].1.subrange(0, boxes[j].1.len() as int) =~= mid[j].1.subrange(
                0,
                boxes[j].1.len() as int,
            ));
        }
        assert forall|k: int| 0 <= k < events.len() && targets(#[trigger] events[k].0, boxes[j].0) implies after[
            j
        ].1.contains(events[k].1) by {
            if k < rest.len() {
                assert(rest[k] == events[k]);
                let m = choose|m: int| 0 <= m < mid[j].1.len() && mid[j].1[m] == events[k].1;
                assert(after[j].1[m] == events[k].1);
            } else {
                assert(after[j].1[after[j].1.len() - 1] == events[k].1);
            }
        }
    }
}

/// An addressable broadcaster: it owns one mailbox per identifier and delivers
/// each message either to the mailbox its target names or to all of them.
pub struct Router<T> {
    receivers: Vec<(Identifier, Receiver<T>)>,
}

impl<T> View for Router<T> {
    type V = Seq<(Identifier, Seq<T>)>;

    closed spec fn view(&self) -> Seq<(Identifier, Seq<T>)> {
        self.receivers@.map_values(|e: (Identifier, Receiver<T>)| (e.0, e.1@))
    }
}

impl<T: Copy> Router<T> {
    /// The router's identifiers are distinct.
    pub open spec fn wf(&self) -> bool {
        ids_distinct(self@)
    }

    /// A router with no mailbox.
    pub fn new() -> (r: Self)
        ensures
            r@ == Seq::<(Identifier, Seq<T>)>::empty(),
            r.wf(),
    {
        Router { receivers: Vec::new() }
    }

    fn find(&self, id: Identifier) -> (r: Option<usize>)
        ensures
            r matches Some(i) ==> i < self@.len() && self@[i as int].0 == id,
            r is None ==> !has_id(self@, id),
    {
        let mut i: usize = 0;
        while i < self.receivers.len()
            invariant
                0 <= i <= self.receivers@.len(),
                forall|j: int| 0 <= j < i ==> self@[j].0 != id,
            decreases self.receivers@.len() - i,
        {
            if self.receivers[i].0 == id {
                return Some(i);
            }
            i = i + 1;
        }
        None
    }

    /// Registers an empty mailbox under `uuid` and returns `uuid`; a mailbox
    /// already registered under it is replaced.
    pub fn new_receiver_uuid(&mut self, uuid: Identifier) -> (r: Identifier)
        requires
            old(self).wf(),
        ensures
            r == uuid,
            final(self).wf(),
            !has_id(old(self)@, uuid) ==> final(self)@ == old(self)@.push((uuid, Seq::<T>::empty())),
            forall|j: int|
                0 <= j < old(self)@.len() && #[trigger] old(self)@[j].0 == uuid ==> final(self)@
                    == old(self)@.update(j, (uuid, Seq::<T>::empty())),
    {
        match self.find(uuid) {
            Some(i) => {
                self.receivers.set(i, (uuid, Receiver::new()));
                proof {
                    assert(self@ =~= old(self)@.update(i as int, (uuid, Seq::<T>::empty())));
                    assert forall|j: int|
                        0 <= j < old(self)@.len() && #[trigger] old(self)@[j].0 == uuid implies j == i by {}
                }
            },
            None => {
                self.receivers.push((uuid, Receiver::new()));
                proof {
                    assert(self@ =~= old(self)@.push((uuid, Seq::<T>::empty())));
                }
            },
        }
        uuid
    }

    /// An identifier under which no mailbox is registered: a random one or,
    /// should that be taken, the smallest free one.
    fn unused_identifier(&self) -> (r: Identifier)
        ensures
            !has_id(self@, r),
    {
        let drawn = fresh_identifier();
        if self.find(drawn).is_none() {
            return drawn;
        }
        let n = self.receivers.len();
        let mut c: u128 = 0;
        let mut taken = self.find(c).is_some();
        while taken
            invariant
                n == self@.len(),
                taken == has_id(self@, c),
                forall|x: int| 0 <= x < c ==> #[trigger] has_key(self@, x),
            decreases self@.len() - c,
        {
            proof {
                assert forall|x: int| 0 <= x < c + 1 implies #[trigger] has_key(self@, x) by {
                    if x == c {
                        let k = choose|k: int| 0 <= k < self@.len() && self@[k].0 == c;
                        assert(self@[k].0 == x);
                    }
                }
                lemma_keys_below_bound(self@, c + 1);
            }
            c = c + 1;
            taken = self.find(c).is_some();
        }
        c
    }

    /// Registers an empty mailbox under an identifier that no mailbox has yet,
    /// generated at random, and returns that identifier.
    pub fn new_receiver(&mut self) -> (r: Identifier)
        requires
            old(self).wf(),
        ensures
            final(self).wf(),
            !has_id(old(self)@, r),
            final(self)@ == old(self)@.push((r, Seq::<T>::empty())),
    {
        let uuid = self.unused_identifier();
        self.new_receiver_uuid(uuid)
    }

    /// Delivers the payload to the mailbox its target names, or to every
    /// mailbox when it names none; an unknown target delivers nothing.
    pub fn send(&mut self, event: RoutedEvent<T>)
        requires
            old(self).wf(),
        ensures
            final(self).wf(),
            final(self)@ == route(old(self)@, event),
    {
        let ghost before = self@;
        let RoutedEvent(target, payload) = event;
        match target {
            Some(id) => {
                match self.find(id) {
                    Some(i) => {
                        let ghost prev = self.receivers@;
                        self.receivers[i].1.receive(payload);
                        proof {
                            assert forall|j: int| 0 <= j < before.len() && j != i implies self.receivers@[j]
                                == prev[j] by {}
                            assert forall|j: int| 0 <= j < before.len() && j != i implies before[j].0 != id by {}
                        }
                    },
                    None => {},
                }
            },
            None => {
                let n = self.receivers.len();
                let mut i: usize = 0;
                while i < n
                    invariant
                        0 <= i <= n,
                        n == before.len(),
                        self.receivers@.len() == n,
                        forall|j: int| 0 <= j < n ==> #[trigger] self.receivers@[j].0 == before[j].0,
                        forall|j: int| 0 <= j < i ==> #[trigger] self.receivers@[j].1@ == before[j].1.push(payload),
                        forall|j: int| i <= j < n ==> #[trigger] self.receivers@[j].1@ == before[j].1,
                    decreases n - i,
                {
                    let ghost prev = self.receivers@;
                    assert(forall|j: int| 0 <= j < i ==> #[trigger] prev[j].1@ == before[j].1.push(payload));
                    self.receivers[i].1.receive(payload);
                    proof {
                        assert(self.receivers@[i as int].1@ == prev[i as int].1@.push(payload));
                        assert(prev[i as int].1@ == before[i as int].1);
                        assert forall|j: int| 0 <= j < n && j != i implies self.receivers@[j] == prev[j] by {}
                        assert forall|j: int| 0 <= j < i + 1 implies #[trigger] self.receivers@[j].1@
                            == before[j].1.push(payload) by {
                            if j < i {
                                assert(self.receivers@[j] == prev[j]);
                                assert(prev[j].1@ == before[j].1.push(payload));
                            }
                        }
                        assert forall|j: int| i + 1 <= j < n implies #[trigger] self.receivers@[j].1@
                            == before[j].1 by {
                            assert(self.receivers@[j] == prev[j]);
                        }
                    }
                    i = i + 1;
                }
            },
        }
        proof {
            assert(self@ =~= route(before, event));
        }
    }

    /// Drains the mailbox registered under `id`; an unknown `id` drains nothing.
    pub fn poll(&mut self, id: Identifier) -> (r: Vec<T>)
        requires
            old(self).wf(),
        ensures
            final(self).wf(),
            !has_id(old(self)@, id) ==> r@ == Seq::<T>::empty() && final(self)@ == old(self)@,
            forall|j: int|
                0 <= j < old(self)@.len() && #[trigger] old(self)@[j].0 == id ==> r@ == old(self)@[j].1
                    && final(self)@ == old(self)@.update(j, (id, Seq::<T>::empty())),
    {
        match self.find(id) {
            Some(i) => {
                let r = self.receivers[i].1.poll();
                proof {
                    assert(self@ =~= old(self)@.update(i as int, (id, Seq::<T>::empty())));
                    assert forall|j: int|
                        0 <= j < old(self)@.len() && #[trigger] old(self)@[j].0 == id implies j == i by {}
                }
                r
            },
            None => Vec::new(),
        }
    }
}

} // verus!
