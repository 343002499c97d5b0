//! The broadcast relay: the shared text, the set of live connections, and
//! one bounded queue of undelivered updates per connection.
//!
//! Every accepted update is written to the store and then queued for every
//! live connection, its sender included. A queue holds at most `capacity`
//! updates; when a full queue gets a new update, its oldest one is dropped,
//! so a slow connection loses old updates of its own and never holds back
//! anyone else.

use vstd::prelude::*;
use vstd::set_lib::{lemma_int_range, lemma_len_subset, set_int_range};
use crate::model::{enqueue, RelayView};
use crate::store::Store;

verus! {

/// The number of undelivered updates a connection may have queued when the
/// relay is made by [`Relay::new`].
pub const QUEUE_CAPACITY: usize = 16;

/// What a connection gets when it joins.
#[derive(Debug, PartialEq, Eq)]
pub struct Welcome {
    /// Its identity, for as long as it lives: the least one that no live
    /// connection had.
    pub conn: u64,
    /// The shared text at the moment it joined: the first message to send.
    pub text: String,
}

/// What the relay has for a connection that asks for its next update.
#[derive(Debug, PartialEq, Eq)]
pub enum Delivery {
    /// The oldest queued update, now taken off the queue.
    Message(String),
    /// The connection is live and nothing is queued for it.
    Idle,
    /// No such connection is live.
    Gone,
}

/// One live connection as the relay keeps it.
struct Subscriber {
    conn: u64,
    queue: Vec<String>,
}

impl Subscriber {
    /// The undelivered updates, oldest first.
    spec fn pending(self) -> Seq<Seq<char>> {
        self.queue@.map_values(|text: String| text@)
    }

    /// Queues `text`; a full queue first lets its oldest update go.
    fn accept(&mut self, text: String, capacity: usize)
        requires
            capacity >= 1,
            old(self).queue@.len() <= capacity,
        ensures
            final(self).conn == old(self).conn,
            final(self).queue@.len() <= capacity,
            final(self).pending() == enqueue(old(self).pending(), text@, capacity as nat),
    {
        if self.queue.len() >= capacity {
            self.queue.remove(0);
        }
        self.queue.push(text);
        assert(self.pending() =~= enqueue(old(self).pending(), text@, capacity as nat));
    }

    /// Takes the oldest update off the queue.
    fn take(&mut self) -> (text: String)
        requires
            old(self).queue@.len() > 0,
        ensures
            final(self).conn == old(self).conn,
            final(self).queue@.len() < old(self).queue@.len(),
            text@ == old(self).pending().first(),
            final(self).pending() == old(self).pending().drop_first(),
    {
        let text = self.queue.remove(0);
        assert(self.pending() =~= old(self).pending().drop_first());
        text
    }
}

/// Whether one of `subs` has the identity `conn`.
spec fn holds(subs: Seq<Subscriber>, conn: u64) -> bool {
    exists|i: int| 0 <= i < subs.len() && (#[trigger] subs[i]).conn == conn
}

/// Where in `subs` the identity `conn` stands.
spec fn slot(subs: Seq<Subscriber>, conn: u64) -> int {
    choose|i: int| 0 <= i < subs.len() && (#[trigger] subs[i]).conn == conn
}

/// No identity stands twice in `subs`.
spec fn distinct(subs: Seq<Subscriber>) -> bool {
    forall|i: int, j: int|
        0 <= i < j < subs.len() ==> (#[trigger] subs[i]).conn != (#[trigger] subs[j]).conn
}

/// The queues of `subs`, by identity.
spec fn queues_of(subs: Seq<Subscriber>) -> Map<u64, Seq<Seq<char>>> {
    Map::new(|conn: u64| holds(subs, conn), |conn: u64| subs[slot(subs, conn)].pending())
}

/// The subscriber at `i` is found under its identity, with its own queue.
proof fn lemma_queue_at(subs: Seq<Subscriber>, i: int)
    requires
        distinct(subs),
        0 <= i < subs.len(),
    ensures
        queues_of(subs).dom().contains(subs[i].conn),
        queues_of(subs)[subs[i].conn] == subs[i].pending(),
{
    let k = slot(subs, subs[i].conn);
    if k < i {
        assert(subs[k].conn != subs[i].conn);
    } else if i < k {
        assert(subs[i].conn != subs[k].conn);
    }
}

/// A map that has, for each of `subs`, its queue under its identity, and
/// nothing else, is the map of their queues.
proof fn lemma_queues_are(subs: Seq<Subscriber>, wanted: Map<u64, Seq<Seq<char>>>)
    requires
        distinct(subs),
        forall|i: int|
            0 <= i < subs.len() ==> wanted.dom().contains((#[trigger] subs[i]).conn)
                && wanted[subs[i].conn] == subs[i].pending(),
        forall|conn: u64| #[trigger] wanted.dom().contains(conn) ==> holds(subs, conn),
    ensures
        queues_of(subs) == wanted,
{
    assert forall|conn: u64| #[trigger] queues_of(subs).dom().contains(conn) implies wanted.dom().contains(conn)
        && queues_of(subs)[conn] == wanted[conn] by {
        lemma_queue_at(subs, slot(subs, conn));
    }
    assert(queues_of(subs) =~= wanted);
}

/// Identities that are all taken are no more than there are subscribers: if
/// every identity below `count` stands in `subs`, then `count` is at most
/// their number.
proof fn lemma_taken_prefix(subs: Seq<Subscriber>, count: int)
    requires
        0 <= count <= u64::MAX + 1,
        forall|conn: u64| conn < count ==> holds(subs, conn),
    ensures
        count <= subs.len(),
{
    let taken = subs.map_values(|sub: Subscriber| sub.conn as int);
    let prefix = set_int_range(0, count);
    assert forall|id: int| prefix.contains(id) implies taken.to_set().contains(id) by {
        assert(holds(subs, id as u64));
        let i = slot(subs, id as u64);
        assert(taken[i] == id);
        assert(taken.contains(id));
    }
    taken.lemma_cardinality_of_set();
    lemma_int_range(0, count);
    lemma_len_subset(prefix, taken.to_set());
}

/// A shared text with its live connections and their queues.
pub struct Relay {
    store: Store,
    subscribers: Vec<Subscriber>,
    capacity: usize,
}

impl View for Relay {
    type V = RelayView;

    closed spec fn view(&self) -> RelayView {
        RelayView {
            text: self.store@,
            queues: queues_of(self.subscribers@),
            capacity: self.capacity as nat,
        }
    }
}

impl Relay {
    /// The invariant of the representation.
    pub closed spec fn wf(&self) -> bool {
        &&& self.capacity >= 1
        &&& distinct(self.subscribers@)
        &&& forall|i: int|
            0 <= i < self.subscribers@.len() ==> (#[trigger] self.subscribers@[i]).queue@.len()
                <= self.capacity
    }

    /// A well-formed relay is a valid one.
    pub proof fn lemma_valid(&self)
        requires
            self.wf(),
        ensures
            self@.valid(),
    {
        let subs = self.subscribers@;
        assert forall|conn: u64| #[trigger] self@.queues.dom().contains(conn) implies self@.queues[conn].len()
            <= self@.capacity by {
            lemma_queue_at(subs, slot(subs, conn));
        }
    }

    /// A relay with the empty text, no connection, and queues of
    /// [`QUEUE_CAPACITY`].
    pub fn new() -> (relay: Relay)
        ensures
            relay.wf(),
            relay@ == (RelayView {
                text: Seq::empty(),
                queues: Map::empty(),
                capacity: QUEUE_CAPACITY as nat,
            }),
    {
        Relay::with_capacity(QUEUE_CAPACITY)
    }

    /// A relay with the empty text, no connection, and queues that hold up
    /// to `capacity` undelivered updates each. A queue must have room for
    /// one update at least.
    pub fn with_capacity(capacity: usize) -> (relay: Relay)
        requires
            capacity >= 1,
        ensures
            relay.wf(),
            relay@ == (RelayView {
                text: Seq::empty(),
                queues: Map::empty(),
                capacity: capacity as nat,
            }),
    {
        let relay = Relay { store: Store::new(), subscribers: Vec::new(), capacity };
        assert(relay@.queues =~= Map::empty());
        relay
    }

    /// A copy of the current shared text.
    pub fn read(&self) -> (text: String)
        ensures
            text@ == self@.text,
    {
        self.store.read()
    }

    /// Where the subscriber with the identity `conn` stands, if one does.
    fn find(&self, conn: u64) -> (at: Option<usize>)
        ensures
            match at {
                Some(i) => i < self.subscribers@.len() && self.subscribers@[i as int].conn == conn,
                None => !holds(self.subscribers@, conn),
            },
    {
        let mut i: usize = 0;
        while i < self.subscribers.len()
            invariant
                i <= self.subscribers@.len(),
                forall|k: int| 0 <= k < i ==> (#[trigger] self.subscribers@[k]).conn != conn,
            decreases self.subscribers@.len() - i,
        {
            if self.subscribers[i].conn == conn {
                return Some(i);
            }
            i += 1;
        }
        None
    }

    /// Whether `conn` is a live connection.
    pub fn is_live(&self, conn: u64) -> (live: bool)
        ensures
            live == self@.is_live(conn),
    {
        self.find(conn).is_some()
    }

    /// The identity for the next connection: the least that no live
    /// connection has. There always is one, as no more connections are live
    /// than the machine can count.
    fn next_identity(&self) -> (conn: u64)
        ensures
            self@.is_next(conn),
            conn <= self.subscribers@.len(),
    {
        let count = self.subscribers.len();
        let mut conn: u64 = 0;
        loop
            invariant
                count == self.subscribers@.len(),
                forall|lower: u64| lower < conn ==> holds(self.subscribers@, lower),
                conn <= count,
            decreases count - conn,
        {
            match self.find(conn) {
                None => {
                    return conn;
                },
                Some(at) => {
                    proof {
                        assert(holds(self.subscribers@, self.subscribers@[at as int].conn));
                        lemma_taken_prefix(self.subscribers@, conn + 1);
                    }
                },
            }
            conn += 1;
        }
    }

    /// Registers a new connection. It gets the least identity that no live
    /// connection has and a copy of the current text, which is the first
    /// thing to send to it; its queue starts empty, and the shared text and
    /// the other connections are left as they are.
    pub fn on_connect(&mut self) -> (welcome: Welcome)
        requires
            old(self).wf(),
        ensures
            final(self).wf(),
            old(self)@.is_next(welcome.conn),
            welcome.text@ == old(self)@.text,
            final(self)@ == old(self)@.connect(welcome.conn),
    {
        let conn = self.next_identity();
        let text = self.store.read();
        let ghost before = self.subscribers@;
        self.subscribers.push(Subscriber { conn, queue: Vec::new() });
        proof {
            let after = self.subscribers@;
            let wanted = queues_of(before).insert(conn, Seq::empty());
            assert forall|i: int| 0 <= i < after.len() implies wanted.dom().contains(
                (#[trigger] after[i]).conn,
            ) && wanted[after[i].conn] == after[i].pending() by {
                if i < before.len() {
                    lemma_queue_at(before, i);
                } else {
                    assert(after[i].pending() =~= Seq::<Seq<char>>::empty());
                }
            }
            assert forall|c: u64| #[trigger] wanted.dom().contains(c) implies holds(after, c) by {
                let i = if c == conn { before.len() as int } else { slot(before, c) };
                assert(after[i].conn == c);
            }
            lemma_queues_are(after, wanted);
        }
        Welcome { conn, text }
    }

    /// Takes `text`, sent by `conn`, as the new shared text: it is written to
    /// the store and queued for every live connection, `conn` among them.
    /// Any text is taken as it is, the empty one too. A `conn` that is not
    /// live is not heard: nothing changes and the answer is `false`.
    pub fn on_client_message(&mut self, conn: u64, text: String) -> (accepted: bool)
        requires
            old(self).wf(),
        ensures
            final(self).wf(),
            accepted == old(self)@.is_live(conn),
            final(self)@ == if accepted {
                old(self)@.publish(text@)
            } else {
                old(self)@
            },
    {
        if self.find(conn).is_none() {
            return false;
        }
        let ghost before = self.subscribers@;
        let n = self.subscribers.len();
        let mut i: usize = 0;
        while i < n
            invariant
                i <= n,
                n == before.len(),
                self.subscribers@.len() == n,
                self.capacity == old(self).capacity,
                self.capacity >= 1,
                self.store == old(self).store,
                forall|k: int|
                    0 <= k < n ==> (#[trigger] self.subscribers@[k]).conn == before[k].conn
                        && self.subscribers@[k].queue@.len() <= self.capacity,
                forall|k: int|
                    0 <= k < i ==> (#[trigger] self.subscribers@[k]).pending() == enqueue(
                        before[k].pending(),
                        text@,
                        self.capacity as nat,
                    ),
                forall|k: int| i <= k < n ==> (#[trigger] self.subscribers@[k]) == before[k],
            decreases n - i,
        {
            let capacity = self.capacity;
            self.subscribers[i].accept(text.clone(), capacity);
            i += 1;
        }
        self.store.write(text);
        proof {
            let after = self.subscribers@;
            let wanted = old(self)@.publish(text@).queues;
            assert forall|k: int| 0 <= k < after.len() implies wanted.dom().contains(
                (#[trigger] after[k]).conn,
            ) && wanted[after[k].conn] == after[k].pending() by {
                lemma_queue_at(before, k);
            }
            assert forall|c: u64| #[trigger] wanted.dom().contains(c) implies holds(after, c) by {
                assert(after[slot(before, c)].conn == c);
            }
            lemma_queues_are(after, wanted);
        }
        true
    }

    /// Removes `conn` from the live connections; what was queued for it is
    /// dropped. Nothing changes for the others, nor if `conn` was not live.
    pub fn on_disconnect(&mut self, conn: u64)
        requires
            old(self).wf(),
        ensures
            final(self).wf(),
            final(self)@ == old(self)@.disconnect(conn),
    {
        let ghost before = self.subscribers@;
        match self.find(conn) {
            Some(at) => {
                self.subscribers.remove(at);
                proof {
                    let after = self.subscribers@;
                    let wanted = queues_of(before).remove(conn);
                    let origin = |k: int| if k < at { k } else { k + 1 };
                    assert forall|k: int| 0 <= k < after.len() implies (#[trigger] after[k])
                        == before[origin(k)] by {}
                    assert(distinct(after)) by {
                        assert forall|a: int, b: int| 0 <= a < b < after.len() implies (
                        #[trigger] after[a]).conn != (#[trigger] after[b]).conn by {
                            assert(before[origin(a)].conn != before[origin(b)].conn);
                        }
                    }
                    assert forall|k: int| 0 <= k < after.len() implies wanted.dom().contains(
                        (#[trigger] after[k]).conn,
                    ) && wanted[after[k].conn] == after[k].pending() by {
                        lemma_queue_at(before, origin(k));
                        if origin(k) < at {
                            assert(before[origin(k)].conn != before[at as int].conn);
                        } else {
                            assert(before[at as int].conn != before[origin(k)].conn);
                        }
                    }
                    assert forall|c: u64| #[trigger] wanted.dom().contains(c) implies holds(
                        after,
                        c,
                    ) by {
                        let k = slot(before, c);
                        assert(after[if k < at { k } else { k - 1 }].conn == c);
                    }
                    lemma_queues_are(after, wanted);
                }
            },
            None => {
                assert(queues_of(before) =~= queues_of(before).remove(conn));
            },
        }
    }

    /// Hands out the oldest update queued for `conn` and takes it off the
    /// queue, so that updates leave in the order in which they were accepted.
    pub fn next_delivery(&mut self, conn: u64) -> (delivery: Delivery)
        requires
            old(self).wf(),
        ensures
            final(self).wf(),
            match delivery {
                Delivery::Message(text) => {
                    &&& old(self)@.is_live(conn)
                    &&& old(self)@.queues[conn].len() > 0
                    &&& text@ == old(self)@.queues[conn].first()
                    &&& final(self)@ == old(self)@.deliver(conn)
                },
                Delivery::Idle => {
                    &&& old(self)@.is_live(conn)
                    &&& old(self)@.queues[conn].len() == 0
                    &&& final(self)@ == old(self)@
                },
                Delivery::Gone => !old(self)@.is_live(conn) && final(self)@ == old(self)@,
            },
    {
        let ghost before = self.subscribers@;
        match self.find(conn) {
            None => Delivery::Gone,
            Some(at) => {
                proof {
                    lemma_queue_at(before, at as int);
                }
                if self.subscribers[at].queue.len() == 0 {
                    return Delivery::Idle;
                }
                let text = self.subscribers[at].take();
                proof {
                    let after = self.subscribers@;
                    let wanted = old(self)@.deliver(conn).queues;
                    assert forall|k: int| 0 <= k < after.len() implies (#[trigger] after[k]).conn
                        == before[k].conn by {}
                    assert(distinct(after)) by {
                        assert forall|a: int, b: int| 0 <= a < b < after.len() implies (
                        #[trigger] after[a]).conn != (#[trigger] after[b]).conn by {
                            assert(before[a].conn != before[b].conn);
                        }
                    }
                    assert forall|k: int| 0 <= k < after.len() implies wanted.dom().contains(
                        (#[trigger] after[k]).conn,
                    ) && wanted[after[k].conn] == after[k].pending() by {
                        lemma_queue_at(before, k);
                        if k != at {
                            assert(after[k] == before[k]);
                        }
                    }
                    assert forall|c: u64| #[trigger] wanted.dom().contains(c) implies holds(
                        after,
                        c,
                    ) by {
                        let k = if c == conn { at as int } else { slot(before, c) };
                        assert(after[k].conn == c);
                    }
                    lemma_queues_are(after, wanted);
                    assert forall|k: int| 0 <= k < after.len() implies (#[trigger] after[k]).queue@.len()
                        <= self.capacity by {
                        if k != at {
                            assert(after[k] == before[k]);
                        }
                    }
                }
                Delivery::Message(text)
            },
        }
    }
}

} // verus!
