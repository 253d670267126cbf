//! A second form of the broadcaster, behind a trait: a sender owns the
//! mailboxes it creates and copies each message into every one of them.
use vstd::prelude::*;

verus! {

/// A source of messages that fans each message out to every mailbox it has
/// created.
pub trait Sender<T: Copy> {
    /// The contents of the mailboxes, in creation order.
    spec fn mailboxes(&self) -> Seq<Seq<T>>;

    /// Creates an empty mailbox and returns its position.
    fn new_receiver(&mut self) -> (handle: usize)
        ensures
            handle == old(self).mailboxes().len(),
            final(self).mailboxes() == old(self).mailboxes().push(Seq::<T>::empty()),
    ;

    /// Appends `event` to every mailbox.
    fn send(&mut self, event: T)
        ensures
            final(self).mailboxes() == old(self).mailboxes().map_values(|b: Seq<T>| b.push(event)),
    ;
}

/// A mailbox that only ever grows.
pub struct Receiver<T> {
    event_queue: Vec<T>,
}

impl<T> View for Receiver<T> {
    type V = Seq<T>;

    closed spec fn view(&self) -> Seq<T> {
        self.event_queue@
    }
}

impl<T: Copy> Receiver<T> {
    /// An empty mailbox.
    pub fn new() -> (r: Self)
        ensures
            r@ == Seq::<T>::empty(),
    {
        Receiver { event_queue: Vec::new() }
    }

    /// Appends `event` at the tail.
    pub fn receive(&mut self, event: T)
        ensures
            final(self)@ == old(self)@.push(event),
    {
        self.event_queue.push(event);
    }
}

/// The sender of this module: it owns its mailboxes.
pub struct EventSender<T> {
    receivers: Vec<Receiver<T>>,
}

impl<T: Copy> EventSender<T> {
    /// A sender with no mailbox.
    pub fn new() -> (r: Self)
        ensures
            r.mailboxes() == Seq::<Seq<T>>::empty(),
    {
        EventSender { receivers: Vec::new() }
    }
}

impl<T: Copy> Sender<T> for EventSender<T> {
    closed spec fn mailboxes(&self) -> Seq<Seq<T>> {
        self.receivers@.map_values(|r: Receiver<T>| r@)
    }

    fn new_receiver(&mut self) -> (handle: usize) {
        let handle = self.receivers.len();
        self.receivers.push(Receiver::new());
        proof {
            assert(self.mailboxes() =~= old(self).mailboxes().push(Seq::<T>::empty()));
        }
        handle
    }

    fn send(&mut self, event: T) {
        let ghost before = self.mailboxes();
        let n = self.receivers.len();
        let mut i: usize = 0;
        while i < n
            invariant
                0 <= i <= n,
                n == before.len(),
                self.receivers@.len() == n,
                forall|j: int| 0 <= j < i ==> #[trigger] self.receivers@[j]@ == before[j].push(event),
                forall|j: int| i <= j < n ==> #[trigger] self.receivers@[j]@ == before[j],
            decreases n - i,
        {
            let ghost prev = self.receivers@;
            self.receivers[i].receive(event);
            proof {
                assert forall|j: int| 0 <= j < n && j != i implies self.receivers@[j] == prev[j] by {}
            }
            i = i + 1;
        }
        proof {
            assert(self.mailboxes() =~= before.map_values(|b: Seq<T>| b.push(event)));
        }
    }
}

} // verus!
