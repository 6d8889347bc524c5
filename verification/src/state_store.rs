//! The drone's local durable store of backend states and its pending event
//! queue.
//!
//! Every state transition upserts the backend's current state and appends an
//! event row with a fresh increasing id. Events stay queued until the
//! controller acknowledges them; installing a listener first replays every
//! queued event in id order, which is the at-least-once recovery path after
//! a crash or reconnect.

use vstd::prelude::*;

use crate::backend_state::{status_of, BackendState};
use crate::protocol::{BackendEventId, BackendStateMessage};
use crate::time::TimeMs;
use crate::types::{BackendName, BackendStatus};

verus! {

/// One queued (not yet acknowledged) state-change event.
#[derive(Debug)]
pub struct StoredEvent {
    pub event_id: i64,
    pub backend_id: BackendName,
    pub state: BackendState,
    pub timestamp: TimeMs,
}

/// The state a backend row holds, looked up by name, searching from the
/// front of the row list.
pub open spec fn lookup_state(rows: Seq<(BackendName, BackendState)>, id: Seq<char>) -> Option<
    BackendState,
>
    decreases rows.len(),
{
    if rows.len() == 0 {
        None
    } else if rows[0].0@ == id {
        Some(rows[0].1)
    } else {
        lookup_state(rows.skip(1), id)
    }
}

/// The message a listener receives for a stored event.
pub open spec fn message_of(ev: StoredEvent) -> BackendStateMessage {
    BackendStateMessage {
        event_id: BackendEventId { id: ev.event_id },
        backend_id: ev.backend_id,
        state: ev.state,
        timestamp: ev.timestamp,
    }
}

/// No two rows name the same backend.
pub open spec fn unique_backend_names(rows: Seq<(BackendName, BackendState)>) -> bool {
    forall|i: int, j: int|
        0 <= i < j < rows.len() ==> (#[trigger] rows[i]).0@ != (#[trigger] rows[j]).0@
}

/// Event ids grow strictly along the queue.
pub open spec fn events_strictly_increasing(events: Seq<StoredEvent>) -> bool {
    forall|i: int, j: int|
        0 <= i < j < events.len() ==> (#[trigger] events[i]).event_id < (
        #[trigger] events[j]).event_id
}

/// Every event id lies below `bound`.
pub open spec fn events_below(events: Seq<StoredEvent>, bound: int) -> bool {
    forall|i: int| 0 <= i < events.len() ==> (#[trigger] events[i]).event_id < bound
}

/// Stores state information about running backends.
pub struct StateStore {
    backends: Vec<(BackendName, BackendState)>,
    events: Vec<StoredEvent>,
    next_event_id: i64,
    listening: bool,
}

impl StateStore {
    /// Backend rows: one current state per backend name.
    pub closed spec fn backends(&self) -> Seq<(BackendName, BackendState)> {
        self.backends@
    }

    /// The queued events, oldest first.
    pub closed spec fn events(&self) -> Seq<StoredEvent> {
        self.events@
    }

    /// The id the next registered event will get.
    pub closed spec fn next_id(&self) -> int {
        self.next_event_id as int
    }

    /// Whether a listener is installed.
    pub closed spec fn listening(&self) -> bool {
        self.listening
    }

    /// The state currently stored for a backend name.
    pub open spec fn state_of(&self, id: Seq<char>) -> Option<BackendState> {
        lookup_state(self.backends(), id)
    }

    /// Well-formedness: backend names are unique, event ids are strictly
    /// increasing and all below the next id.
    pub open spec fn wf(&self) -> bool {
        &&& unique_backend_names(self.backends())
        &&& events_strictly_increasing(self.events())
        &&& events_below(self.events(), self.next_id())
        &&& 1 <= self.next_id()
    }

    /// An empty store with no listener.
    pub fn new() -> (s: StateStore)
        ensures
            s.wf(),
            s.backends() =~= Seq::<(BackendName, BackendState)>::empty(),
            s.events() =~= Seq::<StoredEvent>::empty(),
            s.next_id() == 1,
            !s.listening(),
    {
        StateStore { backends: Vec::new(), events: Vec::new(), next_event_id: 1, listening: false }
    }

    /// Make the store aware of a change to a backend's state: upsert the
    /// backend row, append an event with a fresh id, and hand back the
    /// message a listener receives (if one is installed).
    pub fn register_event(
        &mut self,
        backend_id: &BackendName,
        state: &BackendState,
        timestamp: TimeMs,
    ) -> (msg: Option<BackendStateMessage>)
        requires
            old(self).wf(),
            old(self).next_id() < i64::MAX,
        ensures
            final(self).wf(),
            final(self).state_of(backend_id@) == Some(*state),
            forall|other: Seq<char>|
                other != backend_id@ ==> #[trigger] final(self).state_of(other) == old(
                    self,
                ).state_of(other),
            final(self).events() =~= old(self).events().push(
                StoredEvent {
                    event_id: old(self).next_id() as i64,
                    backend_id: *backend_id,
                    state: *state,
                    timestamp,
                },
            ),
            final(self).next_id() == old(self).next_id() + 1,
            final(self).listening() == old(self).listening(),
            final(self).backends().len() == old(self).backends().len() + (
            if old(self).state_of(backend_id@) is Some {
                0int
            } else {
                1int
            }),
            msg == if old(self).listening() {
                Some(
                    BackendStateMessage {
                        event_id: BackendEventId { id: old(self).next_id() as i64 },
                        backend_id: *backend_id,
                        state: *state,
                        timestamp,
                    },
                )
            } else {
                Option::<BackendStateMessage>::None
            },
    {
        let ghost old_rows = self.backends@;
        let mut i: usize = 0;
        let mut found = false;
        while i < self.backends.len() && !found
            invariant
                *self == *old(self),
                i <= self.backends.len(),
                found ==> i < self.backends.len() && self.backends@[i as int].0@ == backend_id@,
                !found ==> forall|j: int| 0 <= j < i ==> self.backends@[j].0@ != backend_id@,
            decreases self.backends.len() - i + (if found { 0int } else { 1int }),
        {
            if self.backends[i].0.name == backend_id.name {
                found = true;
            } else {
                i = i + 1;
            }
        }
        if found {
            let name = self.backends[i].0.clone();
            self.backends.set(i, (name, *state));
            proof {
                lemma_lookup_found(old_rows, i as int, backend_id@);
                lemma_lookup_update(old_rows, self.backends@, i as int, backend_id@);
                lemma_unique_update(old_rows, self.backends@, i as int);
            }
        } else {
            self.backends.push((backend_id.clone(), *state));
            proof {
                lemma_lookup_none(old_rows, backend_id@);
                lemma_lookup_push(old_rows, backend_id@, *state);
                lemma_unique_push(old_rows, *backend_id, *state);
            }
        }

        let event_id = self.next_event_id;
        self.events.push(
            StoredEvent { event_id, backend_id: backend_id.clone(), state: *state, timestamp },
        );
        self.next_event_id = self.next_event_id + 1;
        proof {
            lemma_events_push(
                old(self).events(),
                StoredEvent {
                    event_id: old(self).next_id() as i64,
                    backend_id: *backend_id,
                    state: *state,
                    timestamp,
                },
            );
        }

        if self.listening {
            Some(
                BackendStateMessage {
                    event_id: BackendEventId { id: event_id },
                    backend_id: backend_id.clone(),
                    state: *state,
                    timestamp,
                },
            )
        } else {
            None
        }
    }

    /// How many backends the store holds a row for.
    pub fn backend_count(&self) -> (n: usize)
        ensures
            n == self.backends().len(),
    {
        self.backends.len()
    }

    /// The id the next registered event will get.
    pub fn peek_next_event_id(&self) -> (id: i64)
        ensures
            id == self.next_id(),
    {
        self.next_event_id
    }

    /// Load a backend's current state without queueing an event: the
    /// recovery path uses this to rebuild the state mirror from durable
    /// rows after the pending events have been replayed.
    pub fn load_backend_state(&mut self, backend_id: &BackendName, state: &BackendState)
        requires
            old(self).wf(),
        ensures
            final(self).wf(),
            final(self).state_of(backend_id@) == Some(*state),
            forall|other: Seq<char>|
                other != backend_id@ ==> #[trigger] final(self).state_of(other) == old(
                    self,
                ).state_of(other),
            final(self).events() == old(self).events(),
            final(self).next_id() == old(self).next_id(),
            final(self).listening() == old(self).listening(),
            final(self).backends().len() == old(self).backends().len() + (
            if old(self).state_of(backend_id@) is Some {
                0int
            } else {
                1int
            }),
    {
        let ghost old_rows = self.backends@;
        let mut i: usize = 0;
        let mut found = false;
        while i < self.backends.len() && !found
            invariant
                *self == *old(self),
                i <= self.backends.len(),
                found ==> i < self.backends.len() && self.backends@[i as int].0@ == backend_id@,
                !found ==> forall|j: int| 0 <= j < i ==> self.backends@[j].0@ != backend_id@,
            decreases self.backends.len() - i + (if found { 0int } else { 1int }),
        {
            if self.backends[i].0.name == backend_id.name {
                found = true;
            } else {
                i = i + 1;
            }
        }
        if found {
            let name = self.backends[i].0.clone();
            self.backends.set(i, (name, *state));
            proof {
                lemma_lookup_found(old_rows, i as int, backend_id@);
                lemma_lookup_update(old_rows, self.backends@, i as int, backend_id@);
                lemma_unique_update(old_rows, self.backends@, i as int);
            }
        } else {
            self.backends.push((backend_id.clone(), *state));
            proof {
                lemma_lookup_none(old_rows, backend_id@);
                lemma_lookup_push(old_rows, backend_id@, *state);
                lemma_unique_push(old_rows, *backend_id, *state);
            }
        }
    }

    /// The state currently stored for a backend, or `None` if the store has
    /// no row for it.
    pub fn backend_state(&self, backend_id: &BackendName) -> (r: Option<BackendState>)
        requires
            self.wf(),
        ensures
            r == self.state_of(backend_id@),
    {
        let mut i: usize = 0;
        while i < self.backends.len()
            invariant
                i <= self.backends.len(),
                forall|j: int| 0 <= j < i ==> self.backends@[j].0@ != backend_id@,
            decreases self.backends.len() - i,
        {
            if self.backends[i].0.name == backend_id.name {
                proof {
                    lemma_lookup_found(self.backends@, i as int, backend_id@);
                }
                return Some(self.backends[i].1);
            }
            i = i + 1;
        }
        proof {
            lemma_lookup_none(self.backends@, backend_id@);
        }
        None
    }

    /// Install a listener: every queued event is replayed, in id order,
    /// before the listener becomes live. This is the recovery path after a
    /// crash or socket reconnect.
    pub fn register_listener(&mut self) -> (replay: Vec<BackendStateMessage>)
        requires
            old(self).wf(),
        ensures
            final(self).wf(),
            final(self).backends() == old(self).backends(),
            final(self).events() == old(self).events(),
            final(self).next_id() == old(self).next_id(),
            final(self).listening(),
            replay@.len() == old(self).events().len(),
            forall|i: int|
                0 <= i < replay@.len() ==> replay@[i] == message_of(
                    #[trigger] old(self).events()[i],
                ),
    {
        let mut replay: Vec<BackendStateMessage> = Vec::new();
        let mut i: usize = 0;
        while i < self.events.len()
            invariant
                *self == *old(self),
                i <= self.events.len(),
                replay@.len() == i,
                forall|j: int|
                    0 <= j < i ==> replay@[j] == message_of(#[trigger] self.events@[j]),
            decreases self.events.len() - i,
        {
            let ev = &self.events[i];
            replay.push(
                BackendStateMessage {
                    event_id: BackendEventId { id: ev.event_id },
                    backend_id: ev.backend_id.clone(),
                    state: ev.state,
                    timestamp: ev.timestamp,
                },
            );
            i = i + 1;
        }
        self.listening = true;
        replay
    }

    /// Remove one event from the queue; the sole way to do so. The
    /// controller acknowledges an event only after committing it.
    pub fn ack_event(&mut self, event_id: BackendEventId)
        requires
            old(self).wf(),
        ensures
            final(self).wf(),
            final(self).backends() == old(self).backends(),
            final(self).next_id() == old(self).next_id(),
            final(self).listening() == old(self).listening(),
            final(self).events() =~= old(self).events().filter(
                |ev: StoredEvent| ev.event_id != event_id.id,
            ),
    {
        let ghost old_events = self.events@;
        let mut kept: Vec<StoredEvent> = Vec::new();
        let mut i: usize = 0;
        while i < self.events.len()
            invariant
                *self == *old(self),
                i <= self.events.len(),
                kept@ =~= self.events@.take(i as int).filter(
                    |ev: StoredEvent| ev.event_id != event_id.id,
                ),
            decreases self.events.len() - i,
        {
            proof {
                assert(self.events@.take(i as int + 1) =~= self.events@.take(i as int).push(
                    self.events@[i as int],
                ));
                self.events@.take(i as int).lemma_filter_push(
                    self.events@[i as int],
                    |ev: StoredEvent| ev.event_id != event_id.id,
                );
            }
            let ev = &self.events[i];
            if ev.event_id != event_id.id {
                kept.push(
                    StoredEvent {
                        event_id: ev.event_id,
                        backend_id: ev.backend_id.clone(),
                        state: ev.state,
                        timestamp: ev.timestamp,
                    },
                );
            }
            i = i + 1;
        }
        proof {
            assert(self.events@.take(self.events@.len() as int) =~= self.events@);
        }
        self.events = kept;
        proof {
            let pred = |ev: StoredEvent| ev.event_id != event_id.id;
            lemma_filter_keeps_order(old_events, pred);
            lemma_filter_keeps_bound(old_events, pred, self.next_event_id as int);
            assert(self.events@ =~= old_events.filter(pred));
        }
    }

    /// All backends whose stored state is not `Terminated`, in row order;
    /// called on startup to reconcile with the runtime.
    pub fn active_backends(&self) -> (r: Vec<(BackendName, BackendState)>)
        requires
            self.wf(),
        ensures
            r@ =~= self.backends().filter(
                |row: (BackendName, BackendState)| status_of(row.1) != BackendStatus::Terminated,
            ),
    {
        let mut out: Vec<(BackendName, BackendState)> = Vec::new();
        let mut i: usize = 0;
        while i < self.backends.len()
            invariant
                i <= self.backends.len(),
                out@ =~= self.backends@.take(i as int).filter(
                    |row: (BackendName, BackendState)| status_of(row.1)
                        != BackendStatus::Terminated,
                ),
            decreases self.backends.len() - i,
        {
            proof {
                assert(self.backends@.take(i as int + 1) =~= self.backends@.take(i as int).push(
                    self.backends@[i as int],
                ));
                self.backends@.take(i as int).lemma_filter_push(
                    self.backends@[i as int],
                    |row: (BackendName, BackendState)| status_of(row.1)
                        != BackendStatus::Terminated,
                );
            }
            let row = &self.backends[i];
            if !row.1.is_terminated() {
                out.push((row.0.clone(), row.1));
            }
            i = i + 1;
        }
        proof {
            assert(self.backends@.take(self.backends@.len() as int) =~= self.backends@);
        }
        out
    }
}

/// Updating row `i` in place changes the lookup of that row's key and no
/// other.
proof fn lemma_lookup_update(
    rows: Seq<(BackendName, BackendState)>,
    updated: Seq<(BackendName, BackendState)>,
    i: int,
    id: Seq<char>,
)
    requires
        0 <= i < rows.len(),
        rows[i].0@ == id,
        forall|p: int, q: int| 0 <= p < q < rows.len() ==> rows[p].0@ != rows[q].0@,
        updated.len() == rows.len(),
        updated[i].0@ == id,
        forall|j: int| 0 <= j < rows.len() && j != i ==> updated[j] == rows[j],
    ensures
        lookup_state(updated, id) == Some(updated[i].1),
        forall|other: Seq<char>|
            other != id ==> #[trigger] lookup_state(updated, other) == lookup_state(rows, other),
    decreases rows.len(),
{
    if i == 0 {
        assert(lookup_state(updated, id) == Some(updated[0].1));
        assert forall|other: Seq<char>| other != id implies #[trigger] lookup_state(
            updated,
            other,
        ) == lookup_state(rows, other) by {
            assert(updated.skip(1) =~= rows.skip(1));
            assert(lookup_state(updated, other) == lookup_state(updated.skip(1), other));
            assert(lookup_state(rows, other) == lookup_state(rows.skip(1), other));
        }
    } else {
        assert forall|p: int, q: int|
            0 <= p < q < rows.skip(1).len() implies rows.skip(1)[p].0@ != rows.skip(
            1,
        )[q].0@ by {
            assert(rows.skip(1)[p] == rows[p + 1]);
            assert(rows.skip(1)[q] == rows[q + 1]);
        }
        assert(rows.skip(1)[i - 1] == rows[i]);
        assert forall|j: int| 0 <= j < rows.skip(1).len() && j != i - 1 implies updated.skip(
            1,
        )[j] == rows.skip(1)[j] by {
            assert(updated.skip(1)[j] == updated[j + 1]);
            assert(rows.skip(1)[j] == rows[j + 1]);
        }
        assert(updated.skip(1)[i - 1] == updated[i]);
        lemma_lookup_update(rows.skip(1), updated.skip(1), i - 1, id);
        assert(updated[0] == rows[0]);
        assert(rows[0].0@ != id);
        assert(lookup_state(updated, id) == lookup_state(updated.skip(1), id));
        assert forall|other: Seq<char>| other != id implies #[trigger] lookup_state(
            updated,
            other,
        ) == lookup_state(rows, other) by {
            if rows[0].0@ != other {
                assert(lookup_state(updated, other) == lookup_state(updated.skip(1), other));
                assert(lookup_state(rows, other) == lookup_state(rows.skip(1), other));
                assert(lookup_state(updated.skip(1), other) == lookup_state(
                    rows.skip(1),
                    other,
                ));
            }
        }
    }
}

/// Appending a row with a fresh key adds exactly that key's lookup.
proof fn lemma_lookup_push(rows: Seq<(BackendName, BackendState)>, id: Seq<char>, v: BackendState)
    requires
        forall|j: int| 0 <= j < rows.len() ==> (#[trigger] rows[j]).0@ != id,
    ensures
        forall|name: BackendName|
            name@ == id ==> lookup_state(#[trigger] rows.push((name, v)), id) == Some(v),
        forall|name: BackendName, other: Seq<char>|
            name@ == id && other != id ==> #[trigger] lookup_state(rows.push((name, v)), other)
                == lookup_state(rows, other),
    decreases rows.len(),
{
    if rows.len() == 0 {
        assert forall|name: BackendName| name@ == id implies lookup_state(
            #[trigger] rows.push((name, v)),
            id,
        ) == Some(v) by {
            let p = rows.push((name, v));
            assert(p[0] == (name, v));
        }
        assert forall|name: BackendName, other: Seq<char>| name@ == id && other
            != id implies #[trigger] lookup_state(rows.push((name, v)), other) == lookup_state(
            rows,
            other,
        ) by {
            let p = rows.push((name, v));
            assert(p[0] == (name, v));
            assert(p.skip(1) =~= Seq::<(BackendName, BackendState)>::empty());
            assert(lookup_state(p, other) == lookup_state(p.skip(1), other));
        }
    } else {
        assert forall|j: int| 0 <= j < rows.skip(1).len() implies (#[trigger] rows.skip(
            1,
        )[j]).0@ != id by {
            assert(rows.skip(1)[j] == rows[j + 1]);
        }
        lemma_lookup_push(rows.skip(1), id, v);
        assert forall|name: BackendName| name@ == id implies lookup_state(
            #[trigger] rows.push((name, v)),
            id,
        ) == Some(v) by {
            let p = rows.push((name, v));
            assert(p[0] == rows[0]);
            assert(rows[0].0@ != id);
            assert(p.skip(1) =~= rows.skip(1).push((name, v)));
            assert(lookup_state(p, id) == lookup_state(p.skip(1), id));
            assert(lookup_state(rows.skip(1).push((name, v)), id) == Some(v));
        }
        assert forall|name: BackendName, other: Seq<char>| name@ == id && other
            != id implies #[trigger] lookup_state(rows.push((name, v)), other) == lookup_state(
            rows,
            other,
        ) by {
            let p = rows.push((name, v));
            assert(p[0] == rows[0]);
            if rows[0].0@ != other {
                assert(p.skip(1) =~= rows.skip(1).push((name, v)));
                assert(lookup_state(p, other) == lookup_state(p.skip(1), other));
                assert(lookup_state(rows, other) == lookup_state(rows.skip(1), other));
                assert(lookup_state(rows.skip(1).push((name, v)), other) == lookup_state(
                    rows.skip(1),
                    other,
                ));
            }
        }
    }
}

/// A matching row whose key is absent from the prefix is what lookup finds.
pub proof fn lemma_lookup_found(rows: Seq<(BackendName, BackendState)>, i: int, id: Seq<char>)
    requires
        0 <= i < rows.len(),
        rows[i].0@ == id,
        forall|j: int| 0 <= j < i ==> rows[j].0@ != id,
    ensures
        lookup_state(rows, id) == Some(rows[i].1),
    decreases i,
{
    if i > 0 {
        lemma_lookup_found(rows.skip(1), i - 1, id);
    }
}

/// A key on no row looks up to `None`.
pub proof fn lemma_lookup_none(rows: Seq<(BackendName, BackendState)>, id: Seq<char>)
    requires
        forall|j: int| 0 <= j < rows.len() ==> (#[trigger] rows[j]).0@ != id,
    ensures
        lookup_state(rows, id) is None,
    decreases rows.len(),
{
    if rows.len() > 0 {
        lemma_lookup_none(rows.skip(1), id);
    }
}

/// Filtering keeps every element inside some bound on its id.
proof fn lemma_filter_keeps_bound(
    events: Seq<StoredEvent>,
    pred: spec_fn(StoredEvent) -> bool,
    bound: int,
)
    requires
        events_below(events, bound),
    ensures
        events_below(events.filter(pred), bound),
{
    assert forall|i: int| 0 <= i < events.filter(pred).len() implies (#[trigger] events.filter(
        pred,
    )[i]).event_id < bound by {
        let elem = events.filter(pred)[i];
        events.lemma_filter_contains_rev(pred, elem);
        let j = choose|j: int| 0 <= j < events.len() && events[j] == elem;
        assert(events[j].event_id < bound);
    }
}

/// Filtering a strictly increasing event queue keeps it strictly increasing.
proof fn lemma_filter_keeps_order(events: Seq<StoredEvent>, pred: spec_fn(StoredEvent) -> bool)
    requires
        events_strictly_increasing(events),
    ensures
        events_strictly_increasing(events.filter(pred)),
    decreases events.len(),
{
    reveal_with_fuel(Seq::filter, 2);
    if events.len() > 0 {
        let rest = events.drop_last();
        let last = events.last();
        assert forall|i: int, j: int| 0 <= i < j < rest.len() implies (#[trigger] rest[i]).event_id
            < (#[trigger] rest[j]).event_id by {
            assert(events[i].event_id < events[j].event_id);
        }
        lemma_filter_keeps_order(rest, pred);
        assert forall|i: int| 0 <= i < rest.len() implies (#[trigger] rest[i]).event_id
            < last.event_id as int by {
            assert(events[i].event_id < events[events.len() - 1].event_id);
        }
        lemma_filter_keeps_bound(rest, pred, last.event_id as int);
        if pred(last) {
            assert(events.filter(pred) == rest.filter(pred).push(last));
            assert forall|i: int, j: int|
                0 <= i < j < events.filter(pred).len() implies (#[trigger] events.filter(
                pred,
            )[i]).event_id < (#[trigger] events.filter(pred)[j]).event_id by {
                if j < events.filter(pred).len() - 1 {
                    assert(rest.filter(pred)[i].event_id < rest.filter(pred)[j].event_id);
                } else {
                    assert(rest.filter(pred)[i].event_id < last.event_id);
                }
            }
        } else {
            assert(events.filter(pred) == rest.filter(pred));
        }
    }
}


/// Replacing row `i` without changing its name keeps names unique.
proof fn lemma_unique_update(
    rows: Seq<(BackendName, BackendState)>,
    updated: Seq<(BackendName, BackendState)>,
    i: int,
)
    requires
        unique_backend_names(rows),
        0 <= i < rows.len(),
        updated.len() == rows.len(),
        updated[i].0@ == rows[i].0@,
        forall|j: int| 0 <= j < rows.len() && j != i ==> updated[j] == rows[j],
    ensures
        unique_backend_names(updated),
{
    assert forall|p: int, q: int| 0 <= p < q < updated.len() implies (#[trigger] updated[p]).0@
        != (#[trigger] updated[q]).0@ by {
        assert(rows[p].0@ != rows[q].0@);
        assert(updated[p].0@ == rows[p].0@);
        assert(updated[q].0@ == rows[q].0@);
    }
}

/// Appending a row with a fresh name keeps names unique.
proof fn lemma_unique_push(
    rows: Seq<(BackendName, BackendState)>,
    name: BackendName,
    v: BackendState,
)
    requires
        unique_backend_names(rows),
        forall|j: int| 0 <= j < rows.len() ==> (#[trigger] rows[j]).0@ != name@,
    ensures
        unique_backend_names(rows.push((name, v))),
{
    let p = rows.push((name, v));
    assert forall|i: int, j: int| 0 <= i < j < p.len() implies (#[trigger] p[i]).0@ != (
    #[trigger] p[j]).0@ by {
        if j == rows.len() {
            assert(p[i] == rows[i]);
            assert(p[j] == (name, v));
        } else {
            assert(p[i] == rows[i]);
            assert(p[j] == rows[j]);
        }
    }
}

/// Appending an event whose id dominates the queue keeps it ordered, and
/// bounds the queue by the next id.
proof fn lemma_events_push(events: Seq<StoredEvent>, e: StoredEvent)
    requires
        events_strictly_increasing(events),
        events_below(events, e.event_id as int),
    ensures
        events_strictly_increasing(events.push(e)),
        events_below(events.push(e), e.event_id + 1),
{
    let p = events.push(e);
    assert forall|i: int, j: int| 0 <= i < j < p.len() implies (#[trigger] p[i]).event_id < (
    #[trigger] p[j]).event_id by {
        if j == events.len() {
            assert(p[i] == events[i]);
            assert(p[j] == e);
        } else {
            assert(p[i] == events[i]);
            assert(p[j] == events[j]);
        }
    }
    assert forall|i: int| 0 <= i < p.len() implies (#[trigger] p[i]).event_id < e.event_id
        + 1 by {
        if i < events.len() {
            assert(p[i] == events[i]);
        } else {
            assert(p[i] == e);
        }
    }
}


/// With unique names, every row is what lookup finds for its own name.
pub proof fn lemma_row_lookup(rows: Seq<(BackendName, BackendState)>, i: int)
    requires
        unique_backend_names(rows),
        0 <= i < rows.len(),
    ensures
        lookup_state(rows, rows[i].0@) == Some(rows[i].1),
{
    lemma_lookup_found(rows, i, rows[i].0@);
}

/// A successful lookup names some row.
pub proof fn lemma_lookup_some_index(rows: Seq<(BackendName, BackendState)>, id: Seq<char>)
    requires
        lookup_state(rows, id) is Some,
    ensures
        exists|i: int|
            0 <= i < rows.len() && (#[trigger] rows[i]).0@ == id && rows[i].1 == lookup_state(
                rows,
                id,
            )->Some_0,
    decreases rows.len(),
{
    if rows.len() > 0 && rows[0].0@ != id {
        lemma_lookup_some_index(rows.skip(1), id);
        let j = choose|j: int|
            0 <= j < rows.skip(1).len() && (#[trigger] rows.skip(1)[j]).0@ == id && rows.skip(
                1,
            )[j].1 == lookup_state(rows.skip(1), id)->Some_0;
        assert(rows[j + 1] == rows.skip(1)[j]);
    }
}

} // verus!
