//! The change notifier: every signal published reaches each subscriber that
//! is registered at that moment, in publish order, through a bounded queue of
//! its own. A subscriber whose queue is full when a signal arrives is dropped,
//! so publishing never waits for a reader.

use vstd::prelude::*;

verus! {

/// The notifier as a mathematical value: the bound of each queue, the
/// identifier the next subscriber gets, and for each registered subscriber
/// the signals it has not taken yet, oldest first.
pub struct NotifierState {
    pub capacity: nat,
    pub next_id: nat,
    pub pending: Map<nat, Seq<Seq<char>>>,
}

impl NotifierState {
    /// The state after one more subscriber registered, with an empty queue.
    pub open spec fn subscribed(self) -> NotifierState {
        NotifierState {
            capacity: self.capacity,
            next_id: self.next_id + 1,
            pending: self.pending.insert(self.next_id, Seq::empty()),
        }
    }

    /// The state after subscriber `id` left.
    pub open spec fn unsubscribed(self, id: nat) -> NotifierState {
        NotifierState {
            capacity: self.capacity,
            next_id: self.next_id,
            pending: self.pending.remove(id),
        }
    }

    /// The state after `signal` was published: it is the newest entry of
    /// each queue that had room, and the subscribers whose queue was full
    /// are gone.
    pub open spec fn published(self, signal: Seq<char>) -> NotifierState {
        NotifierState {
            capacity: self.capacity,
            next_id: self.next_id,
            pending: Map::new(
                |id: nat| self.pending.contains_key(id) && self.pending[id].len() < self.capacity,
                |id: nat| self.pending[id].push(signal),
            ),
        }
    }

    /// Whether subscriber `id` has a signal to take.
    pub open spec fn has_signal(self, id: nat) -> bool {
        self.pending.contains_key(id) && self.pending[id].len() > 0
    }

    /// The state after subscriber `id` took its oldest signal.
    pub open spec fn taken(self, id: nat) -> NotifierState {
        NotifierState {
            capacity: self.capacity,
            next_id: self.next_id,
            pending: self.pending.insert(id, self.pending[id].drop_first()),
        }
    }

    /// The state after the signals were published one after the other.
    pub open spec fn published_all(self, signals: Seq<Seq<char>>) -> NotifierState
        decreases signals.len(),
    {
        if signals.len() == 0 {
            self
        } else {
            self.published_all(signals.drop_last()).published(signals.last())
        }
    }
}

/// One thing that can happen to a notifier.
pub enum Step {
    /// A signal is published.
    Publish(Seq<char>),
    /// A subscriber asks for its next signal.
    Take(nat),
    /// A new subscriber registers.
    Subscribe,
    /// A subscriber leaves.
    Unsubscribe(nat),
}

impl NotifierState {
    /// Every registered identifier was handed out already.
    pub open spec fn ids_handed_out(self) -> bool {
        forall|id: nat| #[trigger] self.pending.contains_key(id) ==> id < self.next_id
    }

    /// The state after one step. Asking for a signal changes nothing where
    /// there is none to take.
    pub open spec fn after(self, step: Step) -> NotifierState {
        match step {
            Step::Publish(signal) => self.published(signal),
            Step::Take(id) => if self.has_signal(id) {
                self.taken(id)
            } else {
                self
            },
            Step::Subscribe => self.subscribed(),
            Step::Unsubscribe(id) => self.unsubscribed(id),
        }
    }

    /// The state after the steps, taken one after the other.
    pub open spec fn after_all(self, steps: Seq<Step>) -> NotifierState
        decreases steps.len(),
    {
        if steps.len() == 0 {
            self
        } else {
            self.after_all(steps.drop_last()).after(steps.last())
        }
    }

    /// The signals that subscriber `id` was handed in the course of the
    /// steps, in the order in which it took them.
    pub open spec fn received(self, steps: Seq<Step>, id: nat) -> Seq<Seq<char>>
        decreases steps.len(),
    {
        if steps.len() == 0 {
            Seq::empty()
        } else {
            let before = self.after_all(steps.drop_last());
            let earlier = self.received(steps.drop_last(), id);
            if steps.last() == Step::Take(id) && before.has_signal(id) {
                earlier.push(before.pending[id].first())
            } else {
                earlier
            }
        }
    }
}

/// The signals published in the course of the steps, in publish order.
pub open spec fn published_in(steps: Seq<Step>) -> Seq<Seq<char>>
    decreases steps.len(),
{
    if steps.len() == 0 {
        Seq::empty()
    } else {
        match steps.last() {
            Step::Publish(signal) => published_in(steps.drop_last()).push(signal),
            _ => published_in(steps.drop_last()),
        }
    }
}

/// No step registers an identifier that was not handed out, and none takes
/// an identifier back.
pub proof fn steps_keep_identifiers(state: NotifierState, steps: Seq<Step>)
    requires
        state.ids_handed_out(),
    ensures
        state.after_all(steps).ids_handed_out(),
        state.after_all(steps).next_id >= state.next_id,
    decreases steps.len(),
{
    if steps.len() > 0 {
        steps_keep_identifiers(state, steps.drop_last());
    }
}

/// Whatever else happens in between, a subscriber that is registered before
/// the steps and still registered after them gets every signal published in
/// their course exactly once and in publish order: what it held before,
/// followed by the published signals, is what it took followed by what it
/// still holds.
pub proof fn every_signal_is_received_once_in_order(
    state: NotifierState,
    steps: Seq<Step>,
    id: nat,
)
    requires
        state.ids_handed_out(),
        state.pending.contains_key(id),
        state.after_all(steps).pending.contains_key(id),
    ensures
        state.received(steps, id) + state.after_all(steps).pending[id] == state.pending[id]
            + published_in(steps),
    decreases steps.len(),
{
    if steps.len() == 0 {
        assert(state.received(steps, id) + state.pending[id] =~= state.pending[id]
            + published_in(steps));
    } else {
        let earlier = steps.drop_last();
        let before = state.after_all(earlier);
        let after = state.after_all(steps);
        steps_keep_identifiers(state, earlier);
        assert(before.pending.contains_key(id));
        every_signal_is_received_once_in_order(state, earlier, id);
        let got = state.received(earlier, id);
        let sent = published_in(earlier);
        assert(got + before.pending[id] == state.pending[id] + sent);
        match steps.last() {
            Step::Publish(signal) => {
                assert(got + before.pending[id].push(signal) =~= (got + before.pending[id]).push(
                    signal,
                ));
                assert((state.pending[id] + sent).push(signal) =~= state.pending[id] + sent.push(
                    signal,
                ));
            },
            Step::Take(taker) => {
                if taker == id && before.has_signal(id) {
                    assert(got.push(before.pending[id].first()) + before.pending[id].drop_first()
                        =~= got + before.pending[id]);
                }
            },
            Step::Subscribe => {},
            Step::Unsubscribe(leaver) => {},
        }
    }
}

/// A subscriber that is still registered after a run of publishes was
/// registered before it, and its queue then holds what it held before
/// followed by exactly the published signals, in publish order.
pub proof fn signals_arrive_in_publish_order(
    state: NotifierState,
    id: nat,
    signals: Seq<Seq<char>>,
)
    requires
        state.published_all(signals).pending.contains_key(id),
    ensures
        state.pending.contains_key(id),
        state.published_all(signals).pending[id] == state.pending[id] + signals,
    decreases signals.len(),
{
    if signals.len() == 0 {
        assert(state.pending[id] + signals =~= state.pending[id]);
    } else {
        let earlier = signals.drop_last();
        signals_arrive_in_publish_order(state, id, earlier);
        assert((state.pending[id] + earlier).push(signals.last()) =~= state.pending[id]
            + signals);
    }
}

/// A subscriber takes its signals oldest first: after a take, the signal
/// taken followed by what is left is what was pending before.
pub proof fn take_yields_oldest_first(state: NotifierState, id: nat)
    requires
        state.has_signal(id),
    ensures
        seq![state.pending[id].first()] + state.taken(id).pending[id] == state.pending[id],
{
    assert(seq![state.pending[id].first()] + state.pending[id].drop_first()
        =~= state.pending[id]);
}

/// A new subscriber starts with an empty queue, so it gets no signal that
/// was published before it registered.
pub proof fn new_subscriber_starts_empty(state: NotifierState)
    ensures
        state.subscribed().pending.contains_key(state.next_id),
        state.subscribed().pending[state.next_id] == Seq::<Seq<char>>::empty(),
{
}

/// The texts of a queue, oldest first.
pub open spec fn queue_view(queue: Seq<String>) -> Seq<Seq<char>> {
    Seq::new(queue.len(), |k: int| queue[k]@)
}

/// One registered subscriber: its identifier and the signals it has not
/// taken yet.
struct Subscriber {
    id: u64,
    queue: Vec<String>,
}

/// The registry of subscribers with their queues.
pub struct ChangeNotifier {
    capacity: usize,
    next_id: u64,
    subscribers: Vec<Subscriber>,
    state: Ghost<NotifierState>,
}

impl View for ChangeNotifier {
    type V = NotifierState;

    closed spec fn view(&self) -> NotifierState {
        self.state@
    }
}

impl ChangeNotifier {
    /// The registry and the mathematical state say the same, no identifier
    /// is used twice, and no queue is over the bound.
    pub closed spec fn wf(&self) -> bool {
        &&& self.state@.capacity == self.capacity
        &&& self.state@.next_id == self.next_id
        &&& self.capacity > 0
        &&& self.state@.pending.dom().finite()
        &&& self.state@.pending.dom().len() == self.subscribers@.len()
        &&& forall|i: int|
            0 <= i < self.subscribers@.len() ==> {
                &&& (#[trigger] self.subscribers@[i]).id < self.next_id
                &&& self.subscribers@[i].queue@.len() <= self.capacity
                &&& self.state@.pending.contains_key(self.subscribers@[i].id as nat)
                &&& self.state@.pending[self.subscribers@[i].id as nat] == queue_view(
                    self.subscribers@[i].queue@,
                )
            }
        &&& forall|i: int, j: int|
            0 <= i < j < self.subscribers@.len() ==> (#[trigger] self.subscribers@[i]).id != (
            #[trigger] self.subscribers@[j]).id
        &&& forall|id: nat| #[trigger]
            self.state@.pending.contains_key(id) ==> exists|i: int|
                0 <= i < self.subscribers@.len() && (#[trigger] self.subscribers@[i]).id == id
    }

    /// What holds of the state of every well-formed notifier.
    pub proof fn state_is_bounded(&self)
        requires
            self.wf(),
        ensures
            self@.capacity > 0,
            self@.capacity <= usize::MAX,
            self@.next_id <= u64::MAX,
            forall|id: nat| #[trigger]
                self@.pending.contains_key(id) ==> id < self@.next_id && self@.pending[id].len()
                    <= self@.capacity,
    {
        assert forall|id: nat| #[trigger] self@.pending.contains_key(id) implies id
            < self@.next_id && self@.pending[id].len() <= self@.capacity by {
            let i = choose|i: int|
                0 <= i < self.subscribers@.len() && (#[trigger] self.subscribers@[i]).id == id;
            assert(self.subscribers@[i].queue@.len() <= self.capacity);
        }
    }

    /// A notifier without subscribers whose queues hold up to `capacity`
    /// signals each.
    pub fn new(capacity: usize) -> (notifier: ChangeNotifier)
        requires
            capacity > 0,
        ensures
            notifier.wf(),
            notifier@ == (NotifierState {
                capacity: capacity as nat,
                next_id: 0,
                pending: Map::empty(),
            }),
    {
        ChangeNotifier {
            capacity,
            next_id: 0,
            subscribers: Vec::new(),
            state: Ghost(
                NotifierState { capacity: capacity as nat, next_id: 0, pending: Map::empty() },
            ),
        }
    }

    /// The bound of each subscriber's queue.
    pub fn capacity(&self) -> (capacity: usize)
        requires
            self.wf(),
        ensures
            capacity == self@.capacity,
    {
        self.capacity
    }

    /// Number of registered subscribers.
    pub fn subscriber_count(&self) -> (count: usize)
        requires
            self.wf(),
        ensures
            count == self@.pending.dom().len(),
    {
        self.subscribers.len()
    }

    /// Place of subscriber `id` in the registry.
    fn position(&self, id: u64) -> (at: Option<usize>)
        requires
            self.wf(),
        ensures
            match at {
                Some(i) => i < self.subscribers@.len() && self.subscribers@[i as int].id == id,
                None => !self@.pending.contains_key(id as nat),
            },
    {
        let mut i: usize = 0;
        while i < self.subscribers.len()
            invariant
                i <= self.subscribers@.len(),
                forall|j: int| 0 <= j < i ==> (#[trigger] self.subscribers@[j]).id != id,
            decreases self.subscribers@.len() - i,
        {
            if self.subscribers[i].id == id {
                return Some(i);
            }
            i = i + 1;
        }
        None
    }

    /// Whether subscriber `id` is registered.
    pub fn is_subscribed(&self, id: u64) -> (registered: bool)
        requires
            self.wf(),
        ensures
            registered == self@.pending.contains_key(id as nat),
    {
        self.position(id).is_some()
    }

    /// Registers a new subscriber with an empty queue and returns its
    /// identifier. `None`, with nothing changed, once the identifiers are
    /// used up.
    pub fn subscribe(&mut self) -> (id: Option<u64>)
        requires
            old(self).wf(),
        ensures
            final(self).wf(),
            match id {
                Some(id) => id == old(self)@.next_id && final(self)@ == old(self)@.subscribed(),
                None => old(self)@.next_id == u64::MAX && final(self)@ == old(self)@,
            },
    {
        if self.next_id == u64::MAX {
            return None;
        }
        proof {
            self.state_is_bounded();
        }
        let id = self.next_id;
        let ghost before = *self;
        self.subscribers.push(Subscriber { id, queue: Vec::new() });
        self.next_id = id + 1;
        self.state = Ghost(before.state@.subscribed());
        proof {
            assert(!before.state@.pending.contains_key(id as nat));
            assert(queue_view(Seq::<String>::empty()) =~= Seq::<Seq<char>>::empty());
            assert forall|k: nat| #[trigger] self.state@.pending.contains_key(k) implies exists|
                i: int,
            |
                0 <= i < self.subscribers@.len() && (#[trigger] self.subscribers@[i]).id == k by {
                if k == id as nat {
                    assert(self.subscribers@[before.subscribers@.len() as int].id == k);
                } else {
                    let i = choose|i: int|
                        0 <= i < before.subscribers@.len() && (
                        #[trigger] before.subscribers@[i]).id == k;
                    assert(self.subscribers@[i].id == k);
                }
            }
        }
        Some(id)
    }

    /// Publishes one signal: it goes to the end of the queue of every
    /// subscriber that has room for it, and each subscriber whose queue is
    /// full is dropped. Returns the number of subscribers the signal went to.
    pub fn publish(&mut self, signal: &str) -> (delivered: usize)
        requires
            old(self).wf(),
        ensures
            final(self).wf(),
            final(self)@ == old(self)@.published(signal@),
            delivered == final(self)@.pending.dom().len(),
    {
        let ghost before = *self;
        let mut waiting: Vec<Subscriber> = Vec::new();
        core::mem::swap(&mut self.subscribers, &mut waiting);
        let mut kept: Vec<Subscriber> = Vec::new();
        let ghost mut pending: Map<nat, Seq<Seq<char>>> = Map::empty();
        let capacity = self.capacity;
        let next_id = self.next_id;
        while waiting.len() > 0
            invariant
                before.wf(),
                capacity == before.capacity,
                next_id == before.next_id,
                waiting@.len() <= before.subscribers@.len(),
                waiting@ == before.subscribers@.subrange(0, waiting@.len() as int),
                pending.dom().finite(),
                pending.dom().len() == kept@.len(),
                forall|i: int|
                    0 <= i < kept@.len() ==> {
                        &&& (#[trigger] kept@[i]).id < next_id
                        &&& kept@[i].queue@.len() <= capacity
                        &&& pending.contains_key(kept@[i].id as nat)
                        &&& pending[kept@[i].id as nat] == queue_view(kept@[i].queue@)
                    },
                forall|i: int, j: int|
                    0 <= i < j < kept@.len() ==> (#[trigger] kept@[i]).id != (#[trigger] kept@[j]).id,
                forall|id: nat| #[trigger]
                    pending.contains_key(id) ==> {
                        &&& exists|i: int|
                            0 <= i < kept@.len() && (#[trigger] kept@[i]).id == id
                        &&& exists|j: int|
                            waiting@.len() <= j < before.subscribers@.len() && (
                            #[trigger] before.subscribers@[j]).id == id
                        &&& before.state@.pending.contains_key(id)
                        &&& before.state@.pending[id].len() < capacity
                        &&& pending[id] == before.state@.pending[id].push(signal@)
                    },
                forall|j: int|
                    waiting@.len() <= j < before.subscribers@.len() && (
                    #[trigger] before.subscribers@[j]).queue@.len() < capacity
                        ==> pending.contains_key(before.subscribers@[j].id as nat),
            decreases waiting@.len(),
        {
            let ghost at = waiting@.len() - 1;
            let ghost earlier = pending;
            let ghost kept_before = kept@;
            let popped = waiting.pop();
            let mut subscriber = popped.unwrap();
            assert(subscriber == before.subscribers@[at]);
            assert(before.state@.pending[subscriber.id as nat] == queue_view(subscriber.queue@));
            assert(!earlier.contains_key(subscriber.id as nat));
            if subscriber.queue.len() < capacity {
                let ghost queue_before = subscriber.queue@;
                subscriber.queue.push(signal.to_owned());
                proof {
                    assert(queue_view(subscriber.queue@) =~= queue_view(queue_before).push(
                        signal@,
                    ));
                    pending = earlier.insert(subscriber.id as nat, queue_view(subscriber.queue@));
                }
                kept.push(subscriber);
                proof {
                    assert forall|id: nat| #[trigger] pending.contains_key(id) implies exists|
                        i: int,
                    |
                        0 <= i < kept@.len() && (#[trigger] kept@[i]).id == id by {
                        if id == subscriber.id as nat {
                            assert(kept@[kept_before.len() as int].id == id);
                        } else {
                            let i = choose|i: int|
                                0 <= i < kept_before.len() && (#[trigger] kept_before[i]).id == id;
                            assert(kept@[i].id == id);
                        }
                    }
                    assert forall|id: nat| #[trigger] pending.contains_key(id) implies exists|
                        j: int,
                    |
                        waiting@.len() <= j < before.subscribers@.len() && (
                        #[trigger] before.subscribers@[j]).id == id by {
                        if id == subscriber.id as nat {
                            assert(before.subscribers@[at].id == id);
                        } else {
                            let j = choose|j: int|
                                at < j < before.subscribers@.len() && (
                                #[trigger] before.subscribers@[j]).id == id;
                            assert(before.subscribers@[j].id == id);
                        }
                    }
                }
            }
            assert(waiting@ =~= before.subscribers@.subrange(0, waiting@.len() as int));
        }
        self.subscribers = kept;
        self.state = Ghost(
            NotifierState {
                capacity: before.state@.capacity,
                next_id: before.state@.next_id,
                pending,
            },
        );
        proof {
            let wanted = before.state@.published(signal@).pending;
            assert forall|id: nat| wanted.contains_key(id) implies pending.contains_key(id) by {
                let j = choose|j: int|
                    0 <= j < before.subscribers@.len() && (#[trigger] before.subscribers@[j]).id
                        == id;
                assert(before.subscribers@[j].queue@.len() < capacity);
            }
            assert(pending =~= wanted);
        }
        self.subscribers.len()
    }

    /// Removes subscriber `id` with its queue. Returns whether it was
    /// registered.
    pub fn unsubscribe(&mut self, id: u64) -> (removed: bool)
        requires
            old(self).wf(),
        ensures
            final(self).wf(),
            removed == old(self)@.pending.contains_key(id as nat),
            final(self)@ == old(self)@.unsubscribed(id as nat),
    {
        let ghost before = *self;
        match self.position(id) {
            Some(i) => {
                let gone = self.subscribers.remove(i);
                self.state = Ghost(before.state@.unsubscribed(id as nat));
                proof {
                    assert forall|k: int| 0 <= k < self.subscribers@.len() implies (
                    #[trigger] self.subscribers@[k]).id != id by {
                        if k < i {
                            assert(self.subscribers@[k] == before.subscribers@[k]);
                        } else {
                            assert(self.subscribers@[k] == before.subscribers@[k + 1]);
                        }
                    }
                    assert forall|key: nat| #[trigger]
                        self.state@.pending.contains_key(key) implies exists|k: int|
                        0 <= k < self.subscribers@.len() && (#[trigger] self.subscribers@[k]).id
                            == key by {
                        let j = choose|j: int|
                            0 <= j < before.subscribers@.len() && (
                            #[trigger] before.subscribers@[j]).id == key;
                        if j < i {
                            assert(self.subscribers@[j].id == key);
                        } else {
                            assert(self.subscribers@[j - 1].id == key);
                        }
                    }
                }
                true
            },
            None => {
                assert(self.state@.pending.remove(id as nat) =~= self.state@.pending);
                false
            },
        }
    }

    /// Hands subscriber `id` its oldest signal, if it is registered and has
    /// one.
    pub fn try_recv(&mut self, id: u64) -> (delivery: Delivery)
        requires
            old(self).wf(),
        ensures
            final(self).wf(),
            match delivery {
                Delivery::Signal(signal) => old(self)@.has_signal(id as nat) && signal@ == old(
                    self,
                )@.pending[id as nat].first() && final(self)@ == old(self)@.taken(id as nat),
                Delivery::Empty => old(self)@.pending.contains_key(id as nat) && !old(
                    self,
                )@.has_signal(id as nat) && final(self)@ == old(self)@,
                Delivery::Dropped => !old(self)@.pending.contains_key(id as nat) && final(self)@
                    == old(self)@,
            },
    {
        let ghost before = *self;
        match self.position(id) {
            Some(i) => {
                if self.subscribers[i].queue.len() == 0 {
                    assert(queue_view(self.subscribers@[i as int].queue@).len() == 0);
                    return Delivery::Empty;
                }
                let mut subscriber = self.subscribers.remove(i);
                let ghost queue_before = subscriber.queue@;
                let signal = subscriber.queue.remove(0);
                assert(queue_view(subscriber.queue@) =~= queue_view(queue_before).drop_first());
                assert(queue_view(queue_before)[0] == signal@);
                self.subscribers.insert(i, subscriber);
                self.state = Ghost(before.state@.taken(id as nat));
                proof {
                    assert(self.subscribers@.len() == before.subscribers@.len());
                    assert(self.subscribers@[i as int] == subscriber);
                    assert forall|k: int|
                        0 <= k < self.subscribers@.len() && k != i implies self.subscribers@[k]
                        == before.subscribers@[k] by {}
                    assert(self.state@.pending.dom() =~= before.state@.pending.dom());
                    assert forall|key: nat| #[trigger]
                        self.state@.pending.contains_key(key) implies exists|k: int|
                        0 <= k < self.subscribers@.len() && (#[trigger] self.subscribers@[k]).id
                            == key by {
                        let j = choose|j: int|
                            0 <= j < before.subscribers@.len() && (
                            #[trigger] before.subscribers@[j]).id == key;
                        assert(self.subscribers@[j].id == key);
                    }
                }
                Delivery::Signal(signal)
            },
            None => Delivery::Dropped,
        }
    }
}

/// The message that tells a page to load itself again.
pub const RELOAD_MESSAGE: &'static str = "reload";

/// What the stream of one connection does next.
#[derive(Debug, Clone, Copy, PartialEq, Eq, Structural)]
pub enum StreamAction {
    /// Send the reload message, then ask for the next signal.
    Reload,
    /// Wait until something is published, then ask again.
    Wait,
    /// End the stream: the subscriber is gone.
    Close,
}

/// What the stream of a connection does with what its subscriber got: each
/// signal, whatever it names, becomes one reload message; an empty queue is
/// waited on; a subscriber that is no longer registered ends the stream.
pub fn stream_action(delivery: &Delivery) -> (action: StreamAction)
    ensures
        action == match *delivery {
            Delivery::Signal(_) => StreamAction::Reload,
            Delivery::Empty => StreamAction::Wait,
            Delivery::Dropped => StreamAction::Close,
        },
{
    match delivery {
        Delivery::Signal(_) => StreamAction::Reload,
        Delivery::Empty => StreamAction::Wait,
        Delivery::Dropped => StreamAction::Close,
    }
}

/// What a subscriber gets when it asks for its next signal.
pub enum Delivery {
    /// The oldest signal that it had not taken yet.
    Signal(String),
    /// Nothing has been published since it took the last one.
    Empty,
    /// It is not registered: it left, or it was dropped with a full queue.
    Dropped,
}

} // verus!
