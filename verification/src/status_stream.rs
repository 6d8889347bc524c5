//! The per-backend status stream a subscriber sees: a snapshot of the
//! journal, then live events deduplicated by rank.
//!
//! The subscriber subscribes to live events before reading the snapshot,
//! so events may arrive twice; every event whose rank is not strictly
//! above the last seen rank is dropped. Because a backend's journal
//! carries strictly rising ranks, the merged stream replays every
//! journalled state exactly once, in order.

use vstd::prelude::*;

use crate::backend_state::{status_of, BackendState};
use crate::types::status_rank;

verus! {

/// The states a follower starting after `last` emits from a run of live
/// events: exactly those whose rank strictly exceeds the last seen one.
pub open spec fn emitted_seq(last: Option<int>, states: Seq<BackendState>) -> Seq<BackendState>
    decreases states.len(),
{
    if states.len() == 0 {
        Seq::<BackendState>::empty()
    } else {
        let head = states[0];
        if emits(last, head) {
            seq![head] + emitted_seq(Some(status_rank(status_of(head))), states.skip(1))
        } else {
            emitted_seq(last, states.skip(1))
        }
    }
}

/// Whether a follower that last saw `last` emits this state.
pub open spec fn emits(last: Option<int>, state: BackendState) -> bool {
    match last {
        None => true,
        Some(r) => status_rank(status_of(state)) > r,
    }
}

/// The rank of the last snapshot entry, if any.
pub open spec fn last_rank_of(all: Seq<BackendState>, c: int) -> Option<int> {
    if c == 0 {
        None
    } else {
        Some(status_rank(status_of(all[c - 1])))
    }
}

/// A subscriber's dedup state: the rank of the last state it passed on.
pub struct StatusStreamFollower {
    pub last: Option<i32>,
}

impl StatusStreamFollower {
    /// A follower that has seen nothing.
    pub fn new() -> (f: StatusStreamFollower)
        ensures
            f.last is None,
    {
        StatusStreamFollower { last: None }
    }

    /// The follower's last rank as a spec value.
    pub open spec fn last_rank(&self) -> Option<int> {
        match self.last {
            None => None,
            Some(r) => Some(r as int),
        }
    }

    /// Offer one live event; returns whether the subscriber passes it on.
    pub fn offer(&mut self, state: &BackendState) -> (emit: bool)
        ensures
            emit == emits(old(self).last_rank(), *state),
            emit ==> final(self).last_rank() == Some(status_rank(status_of(*state))),
            !emit ==> *final(self) == *old(self),
    {
        let rank = state.status().as_int();
        let emit = match self.last {
            None => true,
            Some(r) => rank > r,
        };
        if emit {
            self.last = Some(rank);
        }
        emit
    }
}

/// Replay a snapshot and then a run of live events, deduplicated by rank.
pub fn follow_stream(snapshot: &Vec<BackendState>, live: &Vec<BackendState>) -> (out: Vec<
    BackendState,
>)
    ensures
        out@ == snapshot@ + emitted_seq(last_rank_of(snapshot@, snapshot@.len() as int), live@),
{
    let mut out: Vec<BackendState> = Vec::new();
    let mut follower = StatusStreamFollower::new();
    let mut i: usize = 0;
    while i < snapshot.len()
        invariant
            i <= snapshot@.len(),
            out@ =~= snapshot@.take(i as int),
            follower.last_rank() == last_rank_of(snapshot@, i as int),
        decreases snapshot@.len() - i,
    {
        let st = snapshot[i];
        out.push(st);
        follower.last = Some(st.status().as_int());
        i = i + 1;
    }
    proof {
        assert(snapshot@.take(snapshot@.len() as int) =~= snapshot@);
    }
    let mut j: usize = 0;
    proof {
        assert(live@.skip(0) =~= live@);
    }
    while j < live.len()
        invariant
            j <= live@.len(),
            out@ + emitted_seq(follower.last_rank(), live@.skip(j as int)) =~= snapshot@
                + emitted_seq(last_rank_of(snapshot@, snapshot@.len() as int), live@),
        decreases live@.len() - j,
    {
        let ghost pre_out = out@;
        let ghost pre_last = follower.last_rank();
        let st = live[j];
        let emit = follower.offer(&st);
        if emit {
            out.push(st);
        }
        j = j + 1;
        proof {
            assert(live@.skip(j - 1)[0] == live@[j - 1]);
            assert(live@.skip(j - 1).skip(1) =~= live@.skip(j as int));
            if emits(pre_last, live@[j - 1]) {
                assert(emitted_seq(pre_last, live@.skip(j - 1)) =~= seq![live@[j - 1]]
                    + emitted_seq(
                    Some(status_rank(status_of(live@[j - 1]))),
                    live@.skip(j as int),
                ));
                assert(out@ =~= pre_out.push(live@[j - 1]));
                assert(out@ + emitted_seq(follower.last_rank(), live@.skip(j as int)) =~= pre_out
                    + emitted_seq(pre_last, live@.skip(j - 1)));
            } else {
                assert(emitted_seq(pre_last, live@.skip(j - 1)) == emitted_seq(
                    pre_last,
                    live@.skip(j as int),
                ));
            }
        }
    }
    proof {
        assert(live@.skip(live@.len() as int) =~= Seq::<BackendState>::empty());
    }
    out
}

/// Whether a run of states carries strictly rising ranks.
pub open spec fn strictly_rising(states: Seq<BackendState>) -> bool {
    forall|i: int, j: int|
        0 <= i < j < states.len() ==> status_rank(status_of(#[trigger] states[i])) < status_rank(
            status_of(#[trigger] states[j]),
        )
}

/// Law: whatever a follower is offered, what it passes on carries
/// strictly rising ranks; the observed status stream is monotonic.
pub proof fn lemma_stream_monotonic(last: Option<int>, states: Seq<BackendState>)
    ensures
        strictly_rising(emitted_seq(last, states)),
        forall|k: int|
            0 <= k < emitted_seq(last, states).len() ==> emits(
                last,
                #[trigger] emitted_seq(last, states)[k],
            ),
    decreases states.len(),
{
    if states.len() > 0 {
        let head = states[0];
        if emits(last, head) {
            let next = Some(status_rank(status_of(head)));
            lemma_stream_monotonic(next, states.skip(1));
            let rest = emitted_seq(next, states.skip(1));
            assert forall|i: int, j: int|
                0 <= i < j < emitted_seq(last, states).len() implies status_rank(
                status_of(#[trigger] emitted_seq(last, states)[i]),
            ) < status_rank(status_of(#[trigger] emitted_seq(last, states)[j])) by {
                if i > 0 {
                    assert(emitted_seq(last, states)[i] == rest[i - 1]);
                    assert(emitted_seq(last, states)[j] == rest[j - 1]);
                } else {
                    assert(emitted_seq(last, states)[j] == rest[j - 1]);
                    assert(emits(next, rest[j - 1]));
                }
            }
        } else {
            lemma_stream_monotonic(last, states.skip(1));
        }
    }
}

/// Law: a subscriber that snapshots the first `c` states of a backend's
/// journal and then receives the live run from any point `p` inside its
/// snapshot replays the whole journal exactly once: the duplicated prefix
/// is dropped by rank, the fresh suffix is passed on whole.
pub proof fn lemma_status_stream_completeness(all: Seq<BackendState>, c: int, p: int)
    requires
        strictly_rising(all),
        0 <= p <= c <= all.len(),
    ensures
        all.take(c) + emitted_seq(last_rank_of(all, c), all.skip(p)) == all,
{
    lemma_completeness_step(all, c, p);
    assert(all.take(c) + all.skip(c) =~= all);
}

/// The inductive heart of the completeness law: from position `p`, a
/// follower whose last rank is that of entry `c - 1` emits exactly the
/// entries from `c` on.
proof fn lemma_completeness_step(all: Seq<BackendState>, c: int, p: int)
    requires
        strictly_rising(all),
        0 <= p <= all.len(),
        0 <= c <= all.len(),
    ensures
        emitted_seq(last_rank_of(all, c), all.skip(p)) == (
        if p <= c {
            all.skip(c)
        } else {
            all.skip(p)
        }),
    decreases all.len() - p,
{
    if p < all.len() {
        let head = all.skip(p)[0];
        assert(head == all[p]);
        assert(all.skip(p).skip(1) =~= all.skip(p + 1));
        if c == 0 {
            assert(emits(last_rank_of(all, c), head));
            lemma_completeness_step_after(all, p);
            assert(emitted_seq(last_rank_of(all, c), all.skip(p)) =~= seq![all[p]] + all.skip(
                p + 1,
            ));
            assert(seq![all[p]] + all.skip(p + 1) =~= all.skip(p));
            assert(all.skip(c) =~= all);
            assert(all.skip(0) =~= all);
        } else if p < c {
            assert(status_rank(status_of(all[p])) <= status_rank(status_of(all[c - 1])));
            assert(!emits(last_rank_of(all, c), head));
            lemma_completeness_step(all, c, p + 1);
        } else {
            assert(status_rank(status_of(all[p])) > status_rank(status_of(all[c - 1])));
            assert(emits(last_rank_of(all, c), head));
            lemma_completeness_step_after(all, p);
            assert(emitted_seq(last_rank_of(all, c), all.skip(p)) =~= seq![all[p]] + all.skip(
                p + 1,
            ));
            assert(seq![all[p]] + all.skip(p + 1) =~= all.skip(p));
            if p == c {
                assert(all.skip(c) =~= all.skip(p));
            }
        }
    } else {
        assert(all.skip(p) =~= Seq::<BackendState>::empty());
        if p <= c {
            assert(all.skip(c) =~= Seq::<BackendState>::empty());
        }
    }
}

/// After emitting entry `p`, everything later is fresh and is emitted.
proof fn lemma_completeness_step_after(all: Seq<BackendState>, p: int)
    requires
        strictly_rising(all),
        0 <= p < all.len(),
    ensures
        emitted_seq(Some(status_rank(status_of(all[p]))), all.skip(p + 1)) == all.skip(p + 1),
    decreases all.len() - p,
{
    if p + 1 < all.len() {
        let head = all.skip(p + 1)[0];
        assert(head == all[p + 1]);
        assert(status_rank(status_of(all[p])) < status_rank(status_of(all[p + 1])));
        assert(all.skip(p + 1).skip(1) =~= all.skip(p + 2));
        lemma_completeness_step_after(all, p + 1);
        assert(emitted_seq(Some(status_rank(status_of(all[p]))), all.skip(p + 1)) =~= seq![
            all[p + 1],
        ] + all.skip(p + 2));
        assert(seq![all[p + 1]] + all.skip(p + 2) =~= all.skip(p + 1));
    } else {
        assert(all.skip(p + 1) =~= Seq::<BackendState>::empty());
    }
}

} // verus!
