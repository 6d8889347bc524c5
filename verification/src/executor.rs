//! The drone executor's decisions: reconciling preexisting backends on
//! startup, and applying controller actions to the set of backend managers.
//!
//! On startup no orphan survives: every backend the state store still holds
//! as active is marked hard-terminating, handed to the runtime for a forced
//! stop, and recorded as terminated. The runtime calls themselves are the
//! caller's to perform; this module fixes what is written durably and which
//! backends must be stopped.

use vstd::prelude::*;

use crate::backend_state::{
    status_of, terminated_from, terminating_from, BackendState,
};
use crate::state_store::{
    lemma_lookup_some_index, lemma_row_lookup, unique_backend_names, StateStore,
};
use crate::time::TimeMs;
use crate::types::{BackendName, BackendStatus, TerminationKind, TerminationReason};

verus! {

/// The state a live backend is driven to by restart reconciliation: hard
/// termination for an expired key, then terminated with no exit code.
pub open spec fn hard_swept_state(st: BackendState) -> BackendState {
    terminated_from(
        terminating_from(st, TerminationKind::Hard, TerminationReason::KeyExpired),
        None,
    )
}

/// Filtering rows with unique names keeps the names unique.
proof fn lemma_live_filter_unique(rows: Seq<(BackendName, BackendState)>)
    requires
        unique_backend_names(rows),
    ensures
        unique_backend_names(
            rows.filter(
                |row: (BackendName, BackendState)| status_of(row.1) != BackendStatus::Terminated,
            ),
        ),
    decreases rows.len(),
{
    reveal_with_fuel(Seq::filter, 2);
    let pred = |row: (BackendName, BackendState)| status_of(row.1) != BackendStatus::Terminated;
    if rows.len() > 0 {
        let rest = rows.drop_last();
        let last = rows.last();
        assert forall|i: int, j: int| 0 <= i < j < rest.len() implies (#[trigger] rest[i]).0@ != (
        #[trigger] rest[j]).0@ by {
            assert(rows[i].0@ != rows[j].0@);
        }
        lemma_live_filter_unique(rest);
        if pred(last) {
            assert(rows.filter(pred) == rest.filter(pred).push(last));
            assert forall|i: int, j: int| 0 <= i < j < rows.filter(pred).len() implies (
            #[trigger] rows.filter(pred)[i]).0@ != (#[trigger] rows.filter(pred)[j]).0@ by {
                if j == rows.filter(pred).len() - 1 {
                    let elem = rest.filter(pred)[i];
                    rest.lemma_filter_contains_rev(pred, elem);
                    let q = choose|q: int| 0 <= q < rest.len() && rest[q] == elem;
                    assert(rows[q] == rest[q]);
                    assert(rows[q].0@ != rows[rows.len() - 1].0@);
                }
            }
        } else {
            assert(rows.filter(pred) == rest.filter(pred));
        }
    }
}

/// Every row the live filter keeps is indeed not terminated and looks up
/// to its own state among the unfiltered rows.
proof fn lemma_live_filter_rows(rows: Seq<(BackendName, BackendState)>, acts: Seq<(BackendName, BackendState)>)
    requires
        unique_backend_names(rows),
        acts == rows.filter(
            |row: (BackendName, BackendState)| status_of(row.1) != BackendStatus::Terminated,
        ),
    ensures
        forall|j: int|
            0 <= j < acts.len() ==> {
                let row = #[trigger] acts[j];
                &&& status_of(row.1) != BackendStatus::Terminated
                &&& crate::state_store::lookup_state(rows, row.0@) == Some(row.1)
            },
{
    let pred = |row: (BackendName, BackendState)| status_of(row.1) != BackendStatus::Terminated;
    assert forall|j: int| 0 <= j < acts.len() implies {
        let row = #[trigger] acts[j];
        &&& status_of(row.1) != BackendStatus::Terminated
        &&& crate::state_store::lookup_state(rows, row.0@) == Some(row.1)
    } by {
        rows.lemma_filter_pred(pred, j);
        let row = acts[j];
        rows.lemma_filter_contains_rev(pred, row);
        let q = choose|q: int| 0 <= q < rows.len() && rows[q] == row;
        lemma_row_lookup(rows, q);
    }
}

/// On restart, mark every backend the store still holds as active as hard
/// terminating (reason: its key can no longer be presumed held), then as
/// terminated, and return the backends the runtime must force-stop, in
/// store order. A backend missing from the returned plan was already
/// terminated in the store.
pub fn terminate_preexisting_backends(store: &mut StateStore, now: TimeMs) -> (plan: Vec<
    BackendName,
>)
    requires
        old(store).wf(),
        old(store).next_id() + 2 * old(store).backends().len() < i64::MAX,
    ensures
        final(store).wf(),
        final(store).listening() == old(store).listening(),
        final(store).backends().len() == old(store).backends().len(),
        plan@.len() == old(store).backends().filter(
            |row: (BackendName, BackendState)| status_of(row.1) != BackendStatus::Terminated,
        ).len(),
        forall|j: int|
            0 <= j < plan@.len() ==> #[trigger] plan@[j] == old(store).backends().filter(
                |row: (BackendName, BackendState)| status_of(row.1) != BackendStatus::Terminated,
            )[j].0,
        forall|x: Seq<char>|
            #![trigger final(store).state_of(x)]
            match old(store).state_of(x) {
                Some(st) => final(store).state_of(x) == (
                if status_of(st) != BackendStatus::Terminated {
                    Some(hard_swept_state(st))
                } else {
                    Some(st)
                }),
                None => final(store).state_of(x) is None,
            },
        final(store).events().len() == old(store).events().len() + 2 * plan@.len(),
        forall|i: int|
            0 <= i < old(store).events().len() ==> #[trigger] final(store).events()[i] == old(
                store,
            ).events()[i],
{
    let ghost pred = |row: (BackendName, BackendState)| status_of(row.1)
        != BackendStatus::Terminated;
    proof {
        old(store).backends().lemma_filter_len(pred);
        lemma_live_filter_unique(old(store).backends());
    }
    let active = store.active_backends();
    let ghost acts = active@;
    proof {
        lemma_live_filter_rows(old(store).backends(), acts);
    }
    let mut plan: Vec<BackendName> = Vec::new();
    let mut k: usize = 0;
    while k < active.len()
        invariant
            old(store).wf(),
            old(store).next_id() + 2 * old(store).backends().len() < i64::MAX,
            store.wf(),
            acts == active@,
            acts =~= old(store).backends().filter(
                |row: (BackendName, BackendState)| status_of(row.1) != BackendStatus::Terminated,
            ),
            unique_backend_names(acts),
            forall|j: int|
                0 <= j < acts.len() ==> status_of((#[trigger] acts[j]).1)
                    != BackendStatus::Terminated,
            forall|j: int|
                0 <= j < acts.len() ==> #[trigger] old(store).state_of(acts[j].0@) == Some(
                    acts[j].1,
                ),
            k <= acts.len(),
            acts.len() <= old(store).backends().len(),
            plan@.len() == k,
            forall|j: int| 0 <= j < k ==> #[trigger] plan@[j] == acts[j].0,
            store.next_id() == old(store).next_id() + 2 * k,
            store.listening() == old(store).listening(),
            store.backends().len() == old(store).backends().len(),
            forall|j: int|
                0 <= j < k ==> #[trigger] store.state_of(acts[j].0@) == Some(
                    hard_swept_state(acts[j].1),
                ),
            forall|x: Seq<char>|
                #![trigger store.state_of(x)]
                (forall|j: int| 0 <= j < k ==> (#[trigger] acts[j]).0@ != x)
                    ==> store.state_of(x) == old(store).state_of(x),
            store.events().len() == old(store).events().len() + 2 * k,
            forall|i: int|
                0 <= i < old(store).events().len() ==> #[trigger] store.events()[i] == old(
                    store,
                ).events()[i],
        decreases active.len() - k,
    {
        let name = active[k].0.clone();
        let st = active[k].1;
        let term = st.to_terminating(TerminationKind::Hard, TerminationReason::KeyExpired);
        let _ = store.register_event(&name, &term, now);
        let dead = term.to_terminated(None);
        let _ = store.register_event(&name, &dead, now);
        plan.push(name);
        k = k + 1;
        proof {
            assert(terminated_from(
                terminating_from(st, TerminationKind::Hard, TerminationReason::KeyExpired),
                None,
            ) == hard_swept_state(st));
            assert forall|j: int| 0 <= j < k implies #[trigger] store.state_of(acts[j].0@)
                == Some(hard_swept_state(acts[j].1)) by {
                if j < k - 1 {
                    assert(acts[j].0@ != acts[k - 1].0@);
                }
            }
        }
    }
    proof {
        assert forall|x: Seq<char>|
            #![trigger store.state_of(x)]
        true implies match old(store).state_of(x) {
            Some(st) => store.state_of(x) == (
            if status_of(st) != BackendStatus::Terminated {
                Some(hard_swept_state(st))
            } else {
                Some(st)
            }),
            None => store.state_of(x) is None,
        } by {
            match old(store).state_of(x) {
                Some(st) => {
                    if status_of(st) != BackendStatus::Terminated {
                        lemma_lookup_some_index(old(store).backends(), x);
                        let i = choose|i: int|
                            0 <= i < old(store).backends().len() && (#[trigger] old(
                                store,
                            ).backends()[i]).0@ == x && old(store).backends()[i].1 == old(
                                store,
                            ).state_of(x)->Some_0;
                        old(store).backends().lemma_filter_contains(pred, i);
                        let j = choose|j: int|
                            0 <= j < acts.len() && acts[j] == old(store).backends()[i];
                        assert(store.state_of(acts[j].0@) == Some(hard_swept_state(acts[j].1)));
                    } else {
                        assert forall|j: int| 0 <= j < acts.len() implies (#[trigger] acts[j]).0@
                            != x by {
                            if acts[j].0@ == x {
                                assert(old(store).state_of(acts[j].0@) == Some(acts[j].1));
                            }
                        }
                    }
                },
                None => {
                    assert forall|j: int| 0 <= j < acts.len() implies (#[trigger] acts[j]).0@
                        != x by {
                        if acts[j].0@ == x {
                            assert(old(store).state_of(acts[j].0@) == Some(acts[j].1));
                        }
                    }
                },
            }
        }
    }
    plan
}

/// Whether some name in the list views to `x`.
pub open spec fn contains_name(names: Seq<BackendName>, x: Seq<char>) -> bool {
    exists|i: int| 0 <= i < names.len() && (#[trigger] names[i])@ == x
}

/// The set of backends for which this executor currently runs a manager.
pub struct ManagerSet {
    names: Vec<BackendName>,
}

/// What applying a controller action decides.
#[derive(Clone, Copy, Debug, PartialEq, Eq, Structural)]
pub enum ApplyOutcome {
    /// A manager was created for the backend; the runtime must spawn it.
    Spawned,
    /// The named manager must signal its backend to terminate.
    SignalTerminate { kind: TerminationKind, reason: TerminationReason },
    /// No manager exists; the backend is treated as already terminated.
    AlreadyTerminated,
}

impl ManagerSet {
    /// Whether a manager for this name exists.
    pub closed spec fn has(&self, name: Seq<char>) -> bool {
        contains_name(self.names@, name)
    }

    /// An executor with no managers.
    pub fn new() -> (s: ManagerSet)
        ensures
            forall|x: Seq<char>| !#[trigger] s.has(x),
    {
        ManagerSet { names: Vec::new() }
    }

    fn find(&self, name: &BackendName) -> (r: bool)
        ensures
            r == self.has(name@),
    {
        let mut i: usize = 0;
        while i < self.names.len()
            invariant
                i <= self.names@.len(),
                forall|j: int| 0 <= j < i ==> (#[trigger] self.names@[j])@ != name@,
            decreases self.names@.len() - i,
        {
            if self.names[i].name == name.name {
                return true;
            }
            i = i + 1;
        }
        false
    }

    /// Apply one controller action: a spawn creates a manager; a terminate
    /// addressed to a backend without a manager is treated as already done,
    /// which makes duplicate delivery harmless.
    pub fn apply_action(
        &mut self,
        backend_id: &BackendName,
        is_spawn: bool,
        kind: TerminationKind,
        reason: TerminationReason,
    ) -> (outcome: ApplyOutcome)
        ensures
            is_spawn ==> outcome == ApplyOutcome::Spawned && final(self).has(backend_id@) && (
            forall|x: Seq<char>|
                x != backend_id@ ==> #[trigger] final(self).has(x) == old(self).has(x)),
            !is_spawn ==> *final(self) == *old(self) && outcome == (
            if old(self).has(backend_id@) {
                ApplyOutcome::SignalTerminate { kind, reason }
            } else {
                ApplyOutcome::AlreadyTerminated
            }),
    {
        if is_spawn {
            let ghost old_names = self.names@;
            self.names.push(backend_id.clone());
            proof {
                lemma_contains_name_push(old_names, *backend_id);
                assert(self.names@[self.names@.len() - 1]@ == backend_id@);
            }
            ApplyOutcome::Spawned
        } else {
            if self.find(backend_id) {
                ApplyOutcome::SignalTerminate { kind, reason }
            } else {
                ApplyOutcome::AlreadyTerminated
            }
        }
    }

    /// The runtime reported that a container exited: drop its manager (if
    /// any) and say whether one existed.
    pub fn handle_exit(&mut self, backend_id: &BackendName) -> (had: bool)
        ensures
            had == old(self).has(backend_id@),
            !final(self).has(backend_id@),
            forall|x: Seq<char>|
                x != backend_id@ ==> #[trigger] final(self).has(x) == old(self).has(x),
    {
        let ghost old_names = self.names@;
        let mut kept: Vec<BackendName> = Vec::new();
        let mut i: usize = 0;
        let mut had = false;
        while i < self.names.len()
            invariant
                i <= self.names@.len(),
                old_names == self.names@,
                had == contains_name(old_names.take(i as int), backend_id@),
                forall|j: int| 0 <= j < kept@.len() ==> (#[trigger] kept@[j])@ != backend_id@,
                forall|x: Seq<char>|
                    x != backend_id@ ==> #[trigger] contains_name(kept@, x) == contains_name(
                        old_names.take(i as int),
                        x,
                    ),
            decreases self.names@.len() - i,
        {
            let ghost old_kept = kept@;
            let ghost old_take = old_names.take(i as int);
            if self.names[i].name == backend_id.name {
                had = true;
            } else {
                kept.push(self.names[i].clone());
            }
            i = i + 1;
            proof {
                assert(old_names.take(i as int) =~= old_take.push(old_names[i - 1]));
                lemma_contains_name_push(old_take, old_names[i - 1]);
                if old_names[i - 1]@ != backend_id@ {
                    lemma_contains_name_push(old_kept, old_names[i - 1]);
                }
            }
        }
        proof {
            assert(old_names.take(old_names.len() as int) =~= old_names);
        }
        self.names = kept;
        had
    }
}

/// What pushing one name does to `contains_name`.
proof fn lemma_contains_name_push(names: Seq<BackendName>, name: BackendName)
    ensures
        contains_name(names.push(name), name@),
        forall|x: Seq<char>|
            x != name@ ==> #[trigger] contains_name(names.push(name), x) == contains_name(
                names,
                x,
            ),
{
    assert(names.push(name)[names.len() as int]@ == name@);
    assert forall|x: Seq<char>| x != name@ implies #[trigger] contains_name(names.push(name), x)
        == contains_name(names, x) by {
        if contains_name(names, x) {
            let i = choose|i: int| 0 <= i < names.len() && (#[trigger] names[i])@ == x;
            assert(names.push(name)[i]@ == x);
        } else if contains_name(names.push(name), x) {
            let i = choose|i: int|
                0 <= i < names.push(name).len() && (#[trigger] names.push(name)[i])@ == x;
            assert(names[i]@ == x);
        }
    }
}


/// Law: once every stored state is terminated -- as restart
/// reconciliation leaves them -- the store reports no active backends:
/// a drone that boots with any number of active rows ends with none.
pub proof fn lemma_restart_leaves_none_active(store: StateStore)
    requires
        store.wf(),
        forall|x: Seq<char>|
            #![trigger store.state_of(x)]
            store.state_of(x) matches Some(st) ==> status_of(st) == BackendStatus::Terminated,
    ensures
        store.backends().filter(
            |row: (BackendName, BackendState)| status_of(row.1) != BackendStatus::Terminated,
        ).len() == 0,
{
    let pred = |row: (BackendName, BackendState)| status_of(row.1) != BackendStatus::Terminated;
    assert forall|i: int| 0 <= i < store.backends().len() implies !pred(
        #[trigger] store.backends()[i],
    ) by {
        crate::state_store::lemma_row_lookup(store.backends(), i);
        assert(store.state_of(store.backends()[i].0@) == Some(store.backends()[i].1));
    }
    store.backends().lemma_all_neg_filter_empty(pred);
}

} // verus!
