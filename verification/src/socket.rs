//! The typed socket's client-side policies: reconnect backoff and the
//! bounded send queue.

use vstd::prelude::*;


verus! {

/// The first reconnect delay.
pub const BACKOFF_INITIAL_MS: u64 = 500;

/// The largest reconnect delay.
pub const BACKOFF_CAP_MS: u64 = 30_000;

/// The send queue's bound for droppable messages.
pub const SEND_QUEUE_BOUND: usize = 256;

/// The reconnect delay before attempt `attempt`: doubling from the
/// initial delay, capped.
pub open spec fn spec_backoff(attempt: int) -> int
    decreases attempt,
{
    if attempt <= 0 {
        BACKOFF_INITIAL_MS as int
    } else if 2 * spec_backoff(attempt - 1) >= BACKOFF_CAP_MS {
        BACKOFF_CAP_MS as int
    } else {
        2 * spec_backoff(attempt - 1)
    }
}

/// The reconnect delay before one attempt.
pub fn backoff_ms(attempt: u32) -> (r: u64)
    ensures
        r == spec_backoff(attempt as int),
{
    let mut d: u64 = BACKOFF_INITIAL_MS;
    let mut k: u32 = 0;
    while k < attempt
        invariant
            k <= attempt,
            d == spec_backoff(k as int),
            BACKOFF_INITIAL_MS <= d <= BACKOFF_CAP_MS,
        decreases attempt - k,
    {
        if d >= BACKOFF_CAP_MS / 2 {
            d = BACKOFF_CAP_MS;
        } else {
            d = 2 * d;
        }
        k = k + 1;
    }
    d
}

/// A reconnect delay with a jitter word mixed in, within twenty percent
/// of the base delay.
pub fn apply_jitter(base: u64, jitter: u64) -> (r: u64)
    requires
        base <= BACKOFF_CAP_MS,
    ensures
        base - base / 5 <= r <= base + base / 5,
{
    let spread: u64 = 2 * (base / 5) + 1;
    let offset = jitter % spread;
    base - base / 5 + offset
}

/// One queued outgoing message.
#[derive(Debug)]
pub struct QueuedMessage {
    /// The logical key coalescing applies to.
    pub key: u64,
    /// Whether this is a backend state event, which must never be
    /// dropped.
    pub is_state_event: bool,
    /// The framed payload.
    pub payload: Vec<u8>,
}

/// What enqueueing decided.
#[derive(Debug, Clone, Copy, PartialEq, Eq, Structural)]
pub enum EnqueueOutcome {
    /// The message was appended.
    Enqueued,
    /// The queue was full; the oldest droppable message with the same key
    /// made way.
    ReplacedOldest,
    /// The queue was full and nothing with this key could be dropped.
    Rejected,
}

/// The backend state events among queued messages, in order.
pub open spec fn state_events(items: Seq<QueuedMessage>) -> Seq<QueuedMessage> {
    items.filter(|m: QueuedMessage| m.is_state_event)
}

/// Whether a queued message may be dropped to make way for a new message
/// with this key: same key, and not a state event.
pub open spec fn droppable_for(m: QueuedMessage, key: u64) -> bool {
    m.key == key && !m.is_state_event
}

/// The bounded send queue.
pub struct SendQueue {
    items: Vec<QueuedMessage>,
}

impl SendQueue {
    /// The queued messages, oldest first.
    pub closed spec fn items(&self) -> Seq<QueuedMessage> {
        self.items@
    }

    /// An empty queue.
    pub fn new() -> (q: SendQueue)
        ensures
            q.items() =~= Seq::<QueuedMessage>::empty(),
    {
        SendQueue { items: Vec::new() }
    }

    /// How many messages wait.
    pub fn len(&self) -> (n: usize)
        ensures
            n == self.items().len(),
    {
        self.items.len()
    }

    /// Enqueue a message. Under the bound the message is appended; over
    /// it, the oldest droppable (non-state-event) message with the same
    /// key is dropped to make way; a state event is always appended, so
    /// no backend state event is ever lost.
    pub fn enqueue(&mut self, msg: QueuedMessage) -> (outcome: EnqueueOutcome)
        ensures
            // every state event previously queued is still queued, in order
            state_events(final(self).items()) == state_events(old(self).items()).push(msg)
                || state_events(final(self).items()) == state_events(old(self).items()),
            msg.is_state_event ==> (final(self).items() == old(self).items().push(msg) && outcome
                == EnqueueOutcome::Enqueued),
            old(self).items().len() < SEND_QUEUE_BOUND ==> (final(self).items() == old(
                self,
            ).items().push(msg) && outcome == EnqueueOutcome::Enqueued),
            outcome == EnqueueOutcome::ReplacedOldest ==> exists|j: int|
                0 <= j < old(self).items().len() && droppable_for(
                    #[trigger] old(self).items()[j],
                    msg.key,
                ) && (forall|k: int|
                    0 <= k < j ==> !droppable_for(#[trigger] old(self).items()[k], msg.key))
                && final(self).items() == old(self).items().remove(j).push(msg),
            outcome == EnqueueOutcome::Rejected ==> *final(self) == *old(self) && (forall|k: int|
                0 <= k < old(self).items().len() ==> !droppable_for(
                    #[trigger] old(self).items()[k],
                    msg.key,
                )),
    {
        let ghost old_items = self.items@;
        if msg.is_state_event || self.items.len() < SEND_QUEUE_BOUND {
            let ghost is_state = msg.is_state_event;
            self.items.push(msg);
            proof {
                old_items.lemma_filter_push(
                    self.items@.last(),
                    |m: QueuedMessage| m.is_state_event,
                );
            }
            return EnqueueOutcome::Enqueued;
        }
        let mut i: usize = 0;
        while i < self.items.len()
            invariant
                *self == *old(self),
                old_items == self.items@,
                old_items.len() >= SEND_QUEUE_BOUND,
                i <= self.items@.len(),
                forall|j: int| 0 <= j < i ==> !droppable_for(#[trigger] self.items@[j], msg.key),
                !msg.is_state_event,
            decreases self.items@.len() - i,
        {
            if self.items[i].key == msg.key && !self.items[i].is_state_event {
                let ghost victim = self.items@[i as int];
                self.items.remove(i);
                proof {
                    lemma_filter_remove_non_state(old_items, i as int);
                }
                self.items.push(msg);
                proof {
                    self.items@.drop_last().lemma_filter_push(
                        self.items@.last(),
                        |m: QueuedMessage| m.is_state_event,
                    );
                    assert(self.items@.drop_last() =~= old_items.remove(i as int));
                    assert(droppable_for(old_items[i as int], msg.key));
                    assert(self.items@ == old_items.remove(i as int).push(msg));
                }
                return EnqueueOutcome::ReplacedOldest;
            }
            i = i + 1;
        }
        EnqueueOutcome::Rejected
    }
}

/// Removing a non-state message leaves the state events untouched.
proof fn lemma_filter_remove_non_state(items: Seq<QueuedMessage>, i: int)
    requires
        0 <= i < items.len(),
        !items[i].is_state_event,
    ensures
        items.remove(i).filter(|m: QueuedMessage| m.is_state_event) == items.filter(
            |m: QueuedMessage| m.is_state_event,
        ),
    decreases items.len(),
{
    reveal_with_fuel(Seq::filter, 2);
    let pred = |m: QueuedMessage| m.is_state_event;
    if items.len() > 0 {
        let last = items.last();
        let rest = items.drop_last();
        if i == items.len() - 1 {
            assert(items.remove(i) =~= rest);
            assert(items.filter(pred) == rest.filter(pred));
        } else {
            lemma_filter_remove_non_state(rest, i);
            assert(items.remove(i) =~= rest.remove(i).push(last));
            rest.remove(i).lemma_filter_push(last, pred);
            assert(items.remove(i).filter(pred) == rest.remove(i).push(last).filter(pred));
        }
    }
}

/// A per-sender monotonic request-id source.
pub struct RequestIds {
    next: u64,
}

impl RequestIds {
    /// The next id to be issued.
    pub closed spec fn next_id(&self) -> int {
        self.next as int
    }

    /// A source starting at zero.
    pub fn new() -> (r: RequestIds)
        ensures
            r.next_id() == 0,
    {
        RequestIds { next: 0 }
    }

    /// Issue a fresh id; ids are handed out strictly increasing.
    pub fn fresh(&mut self) -> (id: u64)
        requires
            old(self).next_id() < u64::MAX,
        ensures
            id == old(self).next_id(),
            final(self).next_id() == old(self).next_id() + 1,
    {
        let id = self.next;
        self.next = self.next + 1;
        id
    }
}


/// How an inbound frame is dispatched: a frame carrying an id is a
/// request whose response must echo that id; one without is a
/// fire-and-forget event.
#[derive(Debug, Clone, Copy, PartialEq, Eq, Structural)]
pub enum InboundKind {
    Request { id: u64 },
    Event,
}

/// Dispatch one inbound frame by its id field.
pub fn classify_inbound(id: Option<u64>) -> (r: InboundKind)
    ensures
        match id {
            Some(i) => r == InboundKind::Request { id: i },
            None => r == InboundKind::Event,
        },
{
    match id {
        Some(i) => InboundKind::Request { id: i },
        None => InboundKind::Event,
    }
}

} // verus!
