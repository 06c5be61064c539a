//! The state behind the service that exposes the engine to clients: the
//! queues of notifications of each connection, the shared vectors of
//! published events, and the lookups of tuple types and attributes by name.

use vstd::prelude::*;
use crate::aggregators::events_view;
use crate::engine::{TRex, attribute_index, first_named};
use crate::tuples::{Event, SpecEvent};

verus! {

/// The identifier of the first declared tuple type with this name.
pub fn get_tuple_id(engine: &TRex, name: &str) -> (r: Option<usize>)
    requires
        engine.wf(),
    ensures
        r == first_named(engine.model().order, engine.model().tuples, name@),
{
    engine.tuple_id(name)
}

/// The index of the first attribute named `attr_name` of the first declared
/// tuple type named `tuple_name`.
pub fn get_tupleattr_id(engine: &TRex, tuple_name: &str, attr_name: &str) -> (r: Option<usize>)
    requires
        engine.wf(),
    ensures
        r == (match first_named(engine.model().order, engine.model().tuples, tuple_name@) {
            Some(id) => attribute_index(engine.model().tuples[id].attributes@, attr_name@, 0),
            None => None,
        }),
{
    engine.tupleattr_id(tuple_name, attr_name)
}

/// A listener that queues every event it receives for one connection.
#[derive(Clone, Debug)]
pub struct QueueListener {
    conn_id: String,
}

impl QueueListener {
    /// The connection the listener queues events for.
    pub closed spec fn conn(&self) -> Seq<char> {
        self.conn_id@
    }

    pub fn new(conn_id: String) -> (r: Self)
        ensures
            r.conn() == conn_id@,
    {
        QueueListener { conn_id }
    }

    /// The connection the listener queues events for.
    pub fn conn_id(&self) -> (r: &String)
        ensures
            r@ == self.conn(),
    {
        &self.conn_id
    }

    /// Queues a received event for the listener's connection.
    pub fn receive(&self, queues: &mut ConnQueues, event: &Event)
        ensures
            final(queues).has_queue(self.conn()),
            final(queues).queue_of(self.conn()) == seq![event@] + old(queues).queue_of(self.conn()),
            forall|k: Seq<char>| k != self.conn() ==> #[trigger] final(queues).queue_of(k) == old(queues).queue_of(k)
                && final(queues).has_queue(k) == old(queues).has_queue(k),
    {
        insert_queue(queues, self.conn_id.clone(), event.clone());
    }
}

/// The index of the first entry of the connection `k`.
pub open spec fn lookup(entries: Seq<(String, Vec<Event>)>, k: Seq<char>, i: int) -> Option<int>
    decreases entries.len() - i,
{
    if i < 0 || i >= entries.len() {
        None
    } else if entries[i].0@ == k {
        Some(i)
    } else {
        lookup(entries, k, i + 1)
    }
}

/// The queues of notifications of the connections: the newest event first,
/// the oldest last.
#[derive(Debug)]
pub struct ConnQueues {
    entries: Vec<(String, Vec<Event>)>,
}

impl ConnQueues {
    /// Whether the connection has a queue.
    pub closed spec fn has_queue(&self, k: Seq<char>) -> bool {
        lookup(self.entries@, k, 0) is Some
    }

    /// The queue of a connection, newest first; empty when it has none.
    pub closed spec fn queue_of(&self, k: Seq<char>) -> Seq<SpecEvent> {
        match lookup(self.entries@, k, 0) {
            Some(i) => events_view(self.entries@[i].1@),
            None => Seq::empty(),
        }
    }

    /// No queues.
    pub fn new() -> (r: Self)
        ensures
            forall|k: Seq<char>| !(#[trigger] r.has_queue(k)) && r.queue_of(k) == Seq::<SpecEvent>::empty(),
    {
        ConnQueues { entries: Vec::new() }
    }

    /// The connections with a queue, in the order their queues were made.
    pub fn conn_ids(&self) -> (r: Vec<String>)
        ensures
            forall|k: Seq<char>| #[trigger] self.has_queue(k) <==> exists|i: int| 0 <= i < r@.len() && r@[i]@ == k,
    {
        let mut r: Vec<String> = Vec::new();
        let mut i: usize = 0;
        while i < self.entries.len()
            invariant
                i <= self.entries@.len(),
                r@.len() == i,
                forall|j: int| 0 <= j < i ==> #[trigger] r@[j]@ == self.entries@[j].0@,
            decreases self.entries@.len() - i,
        {
            r.push(self.entries[i].0.clone());
            i = i + 1;
        }
        proof {
            assert forall|k: Seq<char>| #[trigger] self.has_queue(k) <==> exists|j: int| 0 <= j < r@.len() && r@[j]@ == k by {
                lemma_lookup_exists(self.entries@, k, 0);
                if exists|j: int| 0 <= j < r@.len() && r@[j]@ == k {
                    let j = choose|j: int| 0 <= j < r@.len() && r@[j]@ == k;
                    assert(self.entries@[j].0@ == k);
                }
                if self.has_queue(k) {
                    let j = lookup(self.entries@, k, 0)->0;
                    assert(r@[j]@ == k);
                }
            }
        }
        r
    }

    /// The queue of a connection, newest event first, if it has one.
    pub fn get_queue(&self, conn_id: &String) -> (r: Option<&Vec<Event>>)
        ensures
            r is Some <==> self.has_queue(conn_id@),
            r matches Some(q) ==> events_view(q@) == self.queue_of(conn_id@),
    {
        let mut i: usize = 0;
        while i < self.entries.len()
            invariant
                i <= self.entries@.len(),
                lookup(self.entries@, conn_id@, 0) == lookup(self.entries@, conn_id@, i as int),
            decreases self.entries@.len() - i,
        {
            if self.entries[i].0 == *conn_id {
                return Some(&self.entries[i].1);
            }
            i = i + 1;
        }
        None
    }

    /// The index of the queue of a connection, making an empty one when it
    /// has none.
    fn entry(&mut self, conn_id: String) -> (r: usize)
        ensures
            r < final(self).entries@.len(),
            lookup(final(self).entries@, conn_id@, 0) == Some(r as int),
            old(self).has_queue(conn_id@) ==> final(self).entries@ == old(self).entries@,
            !old(self).has_queue(conn_id@) ==> final(self).entries@[r as int].1@ == Seq::<Event>::empty(),
            forall|k: Seq<char>| k != conn_id@ ==> #[trigger] final(self).queue_of(k) == old(self).queue_of(k)
                && final(self).has_queue(k) == old(self).has_queue(k),
            old(self).has_queue(conn_id@) ==> final(self).queue_of(conn_id@) == old(self).queue_of(conn_id@),
    {
        let mut i: usize = 0;
        while i < self.entries.len()
            invariant
                *self == *old(self),
                i <= self.entries@.len(),
                lookup(self.entries@, conn_id@, 0) == lookup(self.entries@, conn_id@, i as int),
            decreases self.entries@.len() - i,
        {
            if self.entries[i].0 == conn_id {
                return i;
            }
            i = i + 1;
        }
        let ghost before = self.entries@;
        let ghost id = conn_id@;
        self.entries.push((conn_id, Vec::new()));
        proof {
            lemma_lookup_extend(before, self.entries@, 0);
            assert forall|k: Seq<char>| k != id implies #[trigger] self.queue_of(k) == old(self).queue_of(k)
                && self.has_queue(k) == old(self).has_queue(k) by {
                lemma_lookup_extend_other(before, self.entries@, k, 0);
                lemma_lookup_exists(before, k, 0);
            }
        }
        i
    }
}

/// Where `lookup` finds nothing from `i` on, no identifier from `i` on
/// matches; where it finds one, that one matches.
proof fn lemma_lookup_exists(ids: Seq<(String, Vec<Event>)>, k: Seq<char>, i: int)
    requires
        0 <= i,
    ensures
        lookup(ids, k, i) is Some <==> exists|j: int| i <= j < ids.len() && ids[j].0@ == k,
        lookup(ids, k, i) matches Some(j) ==> i <= j < ids.len() && ids[j].0@ == k,
    decreases ids.len() - i,
{
    if i < ids.len() {
        lemma_lookup_exists(ids, k, i + 1);
        if ids[i].0@ != k {
            if exists|j: int| i <= j < ids.len() && ids[j].0@ == k {
                let j = choose|j: int| i <= j < ids.len() && ids[j].0@ == k;
                assert(i + 1 <= j);
            }
        }
    }
}

/// Appending the looked-up identifier to a list that lacks it: `lookup`
/// finds it at the end.
proof fn lemma_lookup_extend(before: Seq<(String, Vec<Event>)>, after: Seq<(String, Vec<Event>)>, i: int)
    requires
        0 <= i <= before.len(),
        after.len() == before.len() + 1,
        forall|j: int| 0 <= j < before.len() ==> #[trigger] after[j] == before[j],
        lookup(before, after[before.len() as int].0@, i) is None,
    ensures
        lookup(after, after[before.len() as int].0@, i) == Some(before.len() as int),
    decreases after.len() - i,
{
    if i < before.len() {
        lemma_lookup_extend(before, after, i + 1);
    }
}

/// Appending an identifier leaves the lookups of the others as they were.
proof fn lemma_lookup_extend_other(before: Seq<(String, Vec<Event>)>, after: Seq<(String, Vec<Event>)>, k: Seq<char>, i: int)
    requires
        0 <= i <= before.len(),
        after.len() == before.len() + 1,
        forall|j: int| 0 <= j < before.len() ==> #[trigger] after[j] == before[j],
        after[before.len() as int].0@ != k,
    ensures
        lookup(after, k, i) == lookup(before, k, i),
    decreases after.len() - i,
{
    if i < before.len() {
        assert(after[i] == before[i]);
        lemma_lookup_extend_other(before, after, k, i + 1);
    } else {
        assert(lookup(after, k, i + 1) is None);
    }
}

/// Queues an event for a connection, in front of the events queued before.
pub fn insert_queue(queues: &mut ConnQueues, connid: String, event: Event)
    ensures
        final(queues).has_queue(connid@),
        final(queues).queue_of(connid@) == seq![event@] + old(queues).queue_of(connid@),
        forall|k: Seq<char>| k != connid@ ==> #[trigger] final(queues).queue_of(k) == old(queues).queue_of(k)
            && final(queues).has_queue(k) == old(queues).has_queue(k),
{
    let ghost id = connid@;
    let i = queues.entry(connid);
    let ghost before = queues.entries@[i as int].1@;
    let ghost ev = event@;
    let ghost mid = queues.entries@;
    let ghost mq = *queues;
    queues.entries[i].1.insert(0, event);
    proof {
        assert forall|j: int| 0 <= j < mid.len() implies #[trigger] queues.entries@[j].0 == mid[j].0 by {}
        assert forall|k: Seq<char>| #[trigger] lookup(queues.entries@, k, 0) == lookup(mid, k, 0) by {
            lemma_lookup_same_keys(mid, queues.entries@, k, 0);
        }
        assert(events_view(queues.entries@[i as int].1@) =~= seq![ev] + events_view(before));
        assert forall|k: Seq<char>| k != id implies #[trigger] queues.queue_of(k) == mq.queue_of(k) && queues.has_queue(k) == mq.has_queue(k) by {
            assert(lookup(queues.entries@, k, 0) == lookup(mid, k, 0));
            lemma_lookup_exists(mid, k, 0);
            lemma_lookup_exists(mid, id, 0);
            if let Some(j) = lookup(mid, k, 0) {
                assert(j != i);
                assert(queues.entries@[j] == mid[j]);
            }
        }
        assert(lookup(queues.entries@, id, 0) == Some(i as int));
    }
}


/// Lists with the same connection identifiers at the same places look up
/// alike.
proof fn lemma_lookup_same_keys(a: Seq<(String, Vec<Event>)>, b: Seq<(String, Vec<Event>)>, k: Seq<char>, i: int)
    requires
        a.len() == b.len(),
        forall|j: int| 0 <= j < a.len() ==> #[trigger] a[j].0 == b[j].0,
    ensures
        lookup(a, k, i) == lookup(b, k, i),
    decreases a.len() - i,
{
    if 0 <= i < a.len() {
        assert(a[i].0 == b[i].0);
        lemma_lookup_same_keys(a, b, k, i + 1);
    }
}


/// Takes the oldest event queued for a connection, making it an empty
/// queue when it has none.
pub fn pop_queue(queues: &mut ConnQueues, connid: String) -> (r: Option<Event>)
    ensures
        final(queues).has_queue(connid@),
        match r {
            Some(e) => old(queues).queue_of(connid@).len() > 0
                && e@ == old(queues).queue_of(connid@).last()
                && final(queues).queue_of(connid@) == old(queues).queue_of(connid@).drop_last(),
            None => old(queues).queue_of(connid@).len() == 0 && final(queues).queue_of(connid@).len() == 0,
        },
        forall|k: Seq<char>| k != connid@ ==> #[trigger] final(queues).queue_of(k) == old(queues).queue_of(k)
            && final(queues).has_queue(k) == old(queues).has_queue(k),
{
    let ghost id = connid@;
    let i = queues.entry(connid);
    let ghost before = queues.entries@[i as int].1@;
    let ghost mid = queues.entries@;
    let ghost mq = *queues;
    let r = queues.entries[i].1.pop();
    proof {
        assert forall|j: int| 0 <= j < mid.len() implies #[trigger] queues.entries@[j].0 == mid[j].0 by {}
        assert forall|k: Seq<char>| #[trigger] lookup(queues.entries@, k, 0) == lookup(mid, k, 0) by {
            lemma_lookup_same_keys(mid, queues.entries@, k, 0);
        }
        if before.len() > 0 {
            assert(events_view(queues.entries@[i as int].1@) =~= events_view(before).drop_last());
        }
        assert forall|k: Seq<char>| k != id implies #[trigger] queues.queue_of(k) == mq.queue_of(k) && queues.has_queue(k) == mq.has_queue(k) by {
            assert(lookup(queues.entries@, k, 0) == lookup(mid, k, 0));
            lemma_lookup_exists(mid, k, 0);
            lemma_lookup_exists(mid, id, 0);
            if let Some(j) = lookup(mid, k, 0) {
                assert(queues.entries@[j] == mid[j]);
            }
        }
        assert(lookup(queues.entries@, id, 0) == Some(i as int));
    }
    r
}

/// The models of a list of event vectors.
pub open spec fn vectors_view(v: Seq<Vec<Event>>) -> Seq<Seq<SpecEvent>> {
    v.map_values(|x: Vec<Event>| events_view(x@))
}

/// Adds an empty vector of events for a new subscriber.
pub fn m_subscribe(vectors: &mut Vec<Vec<Event>>)
    ensures
        vectors_view(final(vectors)@) == vectors_view(old(vectors)@).push(Seq::empty()),
{
    let ghost before = vectors@;
    vectors.push(Vec::new());
    proof {
        assert(events_view(Seq::<Event>::empty()) =~= Seq::<SpecEvent>::empty());
        assert(vectors_view(vectors@) =~= vectors_view(before).push(Seq::empty()));
    }
}

/// Appends an event to the vector of every subscriber.
pub fn m_publish(vectors: &mut Vec<Vec<Event>>, value: Event)
    ensures
        vectors_view(final(vectors)@).len() == vectors_view(old(vectors)@).len(),
        forall|i: int| 0 <= i < vectors_view(old(vectors)@).len() ==> #[trigger] vectors_view(final(vectors)@)[i] == vectors_view(old(vectors)@)[i].push(value@),
{
    let ghost start = vectors@;
    let mut i: usize = 0;
    while i < vectors.len()
        invariant
            vectors@.len() == start.len(),
            i <= start.len(),
            forall|j: int| 0 <= j < i ==> #[trigger] events_view(vectors@[j]@) == events_view(start[j]@).push(value@),
            forall|j: int| i <= j < start.len() ==> #[trigger] vectors@[j] == start[j],
        decreases start.len() - i,
    {
        let ghost before = vectors@[i as int]@;
        vectors[i].push(value.clone());
        proof {
            assert(events_view(vectors@[i as int]@) =~= events_view(before).push(value@));
        }
        i = i + 1;
    }
    proof {
        assert forall|j: int| 0 <= j < vectors_view(start).len() implies #[trigger] vectors_view(vectors@)[j] == vectors_view(start)[j].push(value@) by {
            assert(vectors_view(vectors@)[j] == events_view(vectors@[j]@));
        }
    }
}

/// Takes the most recent event of a subscriber's vector, if any.
pub fn m_get_publish(vectors: &mut Vec<Vec<Event>>, id: usize) -> (r: Option<Event>)
    requires
        id < old(vectors)@.len(),
    ensures
        vectors_view(final(vectors)@).len() == vectors_view(old(vectors)@).len(),
        forall|i: int| 0 <= i < vectors_view(old(vectors)@).len() && i != id ==> #[trigger] vectors_view(final(vectors)@)[i] == vectors_view(old(vectors)@)[i],
        match r {
            Some(e) => vectors_view(old(vectors)@)[id as int].len() > 0
                && e@ == vectors_view(old(vectors)@)[id as int].last()
                && vectors_view(final(vectors)@)[id as int] == vectors_view(old(vectors)@)[id as int].drop_last(),
            None => vectors_view(old(vectors)@)[id as int].len() == 0 && vectors_view(final(vectors)@)[id as int].len() == 0,
        },
{
    let ghost before = vectors@;
    let r = vectors[id].pop();
    proof {
        if before[id as int]@.len() > 0 {
            assert(events_view(vectors@[id as int]@) =~= events_view(before[id as int]@).drop_last());
        }
        assert forall|i: int| 0 <= i < vectors_view(before).len() && i != id implies #[trigger] vectors_view(vectors@)[i] == vectors_view(before)[i] by {
            assert(vectors@[i] == before[i]);
        }
    }
    r
}


/// The queues are first in, first out: queueing an event does not change
/// which event comes out next unless the queue was empty, and taking the
/// oldest event out commutes with queueing a new one.
pub proof fn law_queue_fifo(q: Seq<SpecEvent>, e: SpecEvent)
    ensures
        (seq![e] + q).last() == (if q.len() > 0 {
            q.last()
        } else {
            e
        }),
        q.len() > 0 ==> (seq![e] + q).drop_last() == seq![e] + q.drop_last(),
{
    if q.len() > 0 {
        assert((seq![e] + q).drop_last() =~= seq![e] + q.drop_last());
    }
}

} // verus!
