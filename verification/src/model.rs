//! The relay as mathematics: its states, the steps between them, and what
//! holds of every run of steps.

use vstd::prelude::*;

verus! {

/// A queue after `text` arrives: at the back, and with the oldest entry gone
/// if the queue was already full.
pub open spec fn enqueue(queue: Seq<Seq<char>>, text: Seq<char>, capacity: nat) -> Seq<
    Seq<char>,
> {
    if queue.len() < capacity {
        queue.push(text)
    } else {
        queue.drop_first().push(text)
    }
}

/// What a relay is, as mathematics.
#[verifier::ext_equal]
pub struct RelayView {
    /// The current shared text.
    pub text: Seq<char>,
    /// For each live connection, its undelivered updates, oldest first.
    pub queues: Map<u64, Seq<Seq<char>>>,
    /// The bound on every queue.
    pub capacity: nat,
}

impl RelayView {
    /// What holds of every relay: the bound is at least one, and every queue
    /// is within it.
    pub open spec fn valid(self) -> bool {
        &&& self.capacity >= 1
        &&& forall|conn: u64| #[trigger]
            self.queues.dom().contains(conn) ==> self.queues[conn].len() <= self.capacity
    }

    /// Whether `conn` is a live connection.
    pub open spec fn is_live(self, conn: u64) -> bool {
        self.queues.dom().contains(conn)
    }

    /// Whether `conn` is the identity that the next connection gets: the
    /// least one that no live connection has. An identity is free again once
    /// its connection has left.
    pub open spec fn is_next(self, conn: u64) -> bool {
        &&& !self.is_live(conn)
        &&& forall|lower: u64| lower < conn ==> self.is_live(lower)
    }

    /// The relay after a connection joins under the identity `conn`: it is
    /// live, with nothing queued, and the shared text is as it was.
    pub open spec fn connect(self, conn: u64) -> RelayView {
        RelayView { queues: self.queues.insert(conn, Seq::empty()), ..self }
    }

    /// The relay after an update is accepted: `text` is the shared text and
    /// is queued for every live connection.
    pub open spec fn publish(self, text: Seq<char>) -> RelayView {
        RelayView {
            text,
            queues: self.queues.map_values(|queue: Seq<Seq<char>>| enqueue(queue, text, self.capacity)),
            ..self
        }
    }

    /// The relay after `conn` leaves: its queue is gone with it.
    pub open spec fn disconnect(self, conn: u64) -> RelayView {
        RelayView { queues: self.queues.remove(conn), ..self }
    }

    /// The relay after the oldest queued update of `conn` was handed out.
    /// Where `conn` is not live or has nothing queued, nothing is handed out
    /// and the relay is as before.
    pub open spec fn deliver(self, conn: u64) -> RelayView {
        if self.is_live(conn) && self.queues[conn].len() > 0 {
            RelayView { queues: self.queues.insert(conn, self.queues[conn].drop_first()), ..self }
        } else {
            self
        }
    }

    /// The relay after the updates `texts` are accepted one after another.
    pub open spec fn publish_all(self, texts: Seq<Seq<char>>) -> RelayView
        decreases texts.len(),
    {
        if texts.len() == 0 {
            self
        } else {
            self.publish_all(texts.drop_last()).publish(texts.last())
        }
    }

    /// The relay after the `count` oldest queued updates of `conn` were
    /// handed out, one after another.
    pub open spec fn deliver_n(self, conn: u64, count: nat) -> RelayView
        decreases count,
    {
        if count == 0 {
            self
        } else {
            self.deliver_n(conn, (count - 1) as nat).deliver(conn)
        }
    }
}

/// Every step leads from a valid relay to a valid relay, and keeps the bound
/// on the queues as it was.
pub proof fn lemma_steps_keep_valid(state: RelayView, conn: u64, text: Seq<char>)
    requires
        state.valid(),
    ensures
        state.connect(conn).valid(),
        state.publish(text).valid(),
        state.disconnect(conn).valid(),
        state.deliver(conn).valid(),
        state.connect(conn).capacity == state.capacity,
        state.publish(text).capacity == state.capacity,
        state.disconnect(conn).capacity == state.capacity,
        state.deliver(conn).capacity == state.capacity,
{
    let next = state.connect(conn);
    assert forall|c: u64| #[trigger] next.queues.dom().contains(c) implies next.queues[c].len()
        <= next.capacity by {
        if c != conn {
            assert(state.queues.dom().contains(c));
        }
    }
    let next = state.publish(text);
    assert forall|c: u64| #[trigger] next.queues.dom().contains(c) implies next.queues[c].len()
        <= next.capacity by {
        assert(state.queues.dom().contains(c));
    }
    let next = state.disconnect(conn);
    assert forall|c: u64| #[trigger] next.queues.dom().contains(c) implies next.queues[c].len()
        <= next.capacity by {
        assert(state.queues.dom().contains(c));
    }
    let next = state.deliver(conn);
    assert forall|c: u64| #[trigger] next.queues.dom().contains(c) implies next.queues[c].len()
        <= next.capacity by {
        assert(state.queues.dom().contains(c));
    }
}

/// A run of updates leaves a valid relay valid, with the same connections
/// live and the same bound.
pub proof fn lemma_publish_all_keeps(state: RelayView, texts: Seq<Seq<char>>)
    requires
        state.valid(),
    ensures
        state.publish_all(texts).valid(),
        state.publish_all(texts).capacity == state.capacity,
        state.publish_all(texts).queues.dom() == state.queues.dom(),
    decreases texts.len(),
{
    if texts.len() > 0 {
        lemma_publish_all_keeps(state, texts.drop_last());
        let mid = state.publish_all(texts.drop_last());
        lemma_steps_keep_valid(mid, 0, texts.last());
        assert(mid.publish(texts.last()).queues.dom() =~= mid.queues.dom());
    }
}

/// Last writer wins: after a non-empty run of updates the shared text is the
/// last of them, whatever the relay held before and whoever sent them.
pub proof fn lemma_last_update_wins(state: RelayView, texts: Seq<Seq<char>>)
    requires
        texts.len() > 0,
    ensures
        state.publish_all(texts).text == texts.last(),
{
}

/// Catch-up: whatever the relay holds and under whichever identity a
/// connection joins, it is then live with nothing queued, so that the text
/// it is welcomed with comes before every update; joining leaves the shared
/// text as it is.
pub proof fn lemma_joiner_starts_clean(state: RelayView, conn: u64)
    ensures
        state.connect(conn).is_live(conn),
        state.connect(conn).queues[conn] == Seq::<Seq<char>>::empty(),
        state.connect(conn).text == state.text,
        state.connect(conn).capacity == state.capacity,
{
}

/// Catch-up after any history: a connection that joins after a run of
/// updates, however long, finds the last of them as the shared text, which
/// is what it is welcomed with.
pub proof fn lemma_joiner_gets_latest(state: RelayView, texts: Seq<Seq<char>>, conn: u64)
    requires
        texts.len() > 0,
    ensures
        state.publish_all(texts).text == texts.last(),
        state.publish_all(texts).connect(conn).text == texts.last(),
        state.publish_all(texts).connect(conn).queues[conn] == Seq::<Seq<char>>::empty(),
{
}

/// Nothing is lost between the welcome and the updates that follow it: the
/// first update accepted after a connection joined is the first in its
/// queue.
pub proof fn lemma_nothing_lost_after_join(state: RelayView, conn: u64, text: Seq<char>)
    requires
        state.valid(),
    ensures
        state.connect(conn).publish(text).is_live(conn),
        state.connect(conn).publish(text).queues[conn] == seq![text],
{
    assert(enqueue(Seq::<Seq<char>>::empty(), text, state.capacity) =~= seq![text]);
}

/// Joining changes nothing for those already live: they stay live, and their
/// queues are as they were.
pub proof fn lemma_connect_leaves_others(state: RelayView, conn: u64, other: u64)
    requires
        state.is_live(other),
        other != conn,
    ensures
        state.connect(conn).is_live(other),
        state.connect(conn).queues[other] == state.queues[other],
{
}

/// A connection that joins under a free identity and leaves again leaves
/// the relay as it found it.
pub proof fn lemma_join_then_leave(state: RelayView, conn: u64)
    requires
        !state.is_live(conn),
    ensures
        state.connect(conn).disconnect(conn) == state,
{
    assert(state.connect(conn).disconnect(conn).queues =~= state.queues);
}

/// There is one next identity at most.
pub proof fn lemma_next_is_unique(state: RelayView, one: u64, other: u64)
    requires
        state.is_next(one),
        state.is_next(other),
    ensures
        one == other,
{
}

/// Fan-out: an accepted update is queued for every live connection, whoever
/// sent it. Where the queue has room the update goes to its back and nothing
/// is lost; where it is full the oldest entry makes room.
pub proof fn lemma_update_reaches_all(state: RelayView, text: Seq<char>, conn: u64)
    requires
        state.valid(),
        state.is_live(conn),
    ensures
        state.publish(text).is_live(conn),
        state.publish(text).queues[conn] == enqueue(state.queues[conn], text, state.capacity),
        state.publish(text).queues[conn].last() == text,
        state.queues[conn].len() < state.capacity ==> state.publish(text).queues[conn]
            == state.queues[conn].push(text),
        state.queues[conn].len() == state.capacity ==> state.publish(text).queues[conn]
            == state.queues[conn].drop_first().push(text),
{
}

/// One order for all: while the queue of `conn` does not overflow, a run of
/// updates is queued for it whole and in the order of acceptance, behind
/// what was queued before.
pub proof fn lemma_updates_queue_in_order(state: RelayView, texts: Seq<Seq<char>>, conn: u64)
    requires
        state.valid(),
        state.is_live(conn),
        state.queues[conn].len() + texts.len() <= state.capacity,
    ensures
        state.publish_all(texts).is_live(conn),
        state.publish_all(texts).queues[conn] == state.queues[conn] + texts,
    decreases texts.len(),
{
    if texts.len() == 0 {
        assert(state.queues[conn] + texts =~= state.queues[conn]);
    } else {
        let head = texts.drop_last();
        lemma_updates_queue_in_order(state, head, conn);
        lemma_publish_all_keeps(state, head);
        let mid = state.publish_all(head);
        lemma_update_reaches_all(mid, texts.last(), conn);
        assert((state.queues[conn] + head).push(texts.last()) =~= state.queues[conn] + texts);
    }
}

/// Handing out `count` queued updates of `conn` takes the `count` oldest off
/// its queue and touches nothing else.
pub proof fn lemma_deliver_n(state: RelayView, conn: u64, count: nat)
    requires
        state.is_live(conn),
        count <= state.queues[conn].len(),
    ensures
        state.deliver_n(conn, count).is_live(conn),
        state.deliver_n(conn, count).queues[conn] == state.queues[conn].skip(count as int),
        state.deliver_n(conn, count).queues.remove(conn) == state.queues.remove(conn),
        state.deliver_n(conn, count).text == state.text,
    decreases count,
{
    if count == 0 {
        assert(state.queues[conn].skip(0) =~= state.queues[conn]);
    } else {
        let before = (count - 1) as nat;
        lemma_deliver_n(state, conn, before);
        let mid = state.deliver_n(conn, before);
        assert(mid.queues[conn].drop_first() =~= state.queues[conn].skip(count as int));
        assert(mid.deliver(conn).queues.remove(conn) =~= mid.queues.remove(conn));
    }
}

/// Updates are observed in the order in which they were accepted: for a
/// connection with nothing queued and a run of updates that its queue can
/// hold, the update handed out after `k` earlier ones is the `k`-th of the
/// run.
pub proof fn lemma_updates_observed_in_order(
    state: RelayView,
    texts: Seq<Seq<char>>,
    conn: u64,
    k: nat,
)
    requires
        state.valid(),
        state.is_live(conn),
        state.queues[conn].len() == 0,
        texts.len() <= state.capacity,
        k < texts.len(),
    ensures
        state.publish_all(texts).deliver_n(conn, k).is_live(conn),
        state.publish_all(texts).deliver_n(conn, k).queues[conn].len() > 0,
        state.publish_all(texts).deliver_n(conn, k).queues[conn].first() == texts[k as int],
{
    lemma_updates_queue_in_order(state, texts, conn);
    let now = state.publish_all(texts);
    assert(state.queues[conn] + texts =~= texts);
    lemma_deliver_n(now, conn, k);
}

/// A connection that leaves takes nothing from the others: each of them
/// stays live with its queue and the shared text as they were, and the next
/// update reaches it exactly as if nobody had left.
pub proof fn lemma_disconnect_leaves_others(
    state: RelayView,
    leaving: u64,
    other: u64,
    text: Seq<char>,
)
    requires
        state.valid(),
        state.is_live(other),
        other != leaving,
    ensures
        !state.disconnect(leaving).is_live(leaving),
        state.disconnect(leaving).is_live(other),
        state.disconnect(leaving).queues[other] == state.queues[other],
        state.disconnect(leaving).text == state.text,
        state.disconnect(leaving).publish(text).queues[other] == state.publish(text).queues[other],
        state.disconnect(leaving).publish(text).text == text,
{
}

/// The empty text is an update like any other: it becomes the shared text
/// and is queued for every live connection.
pub proof fn lemma_empty_update(state: RelayView, conn: u64)
    requires
        state.valid(),
        state.is_live(conn),
    ensures
        state.publish(Seq::empty()).text == Seq::<char>::empty(),
        state.publish(Seq::empty()).queues[conn] == enqueue(
            state.queues[conn],
            Seq::empty(),
            state.capacity,
        ),
        state.publish(Seq::empty()).queues[conn].last() == Seq::<char>::empty(),
{
}


} // verus!
