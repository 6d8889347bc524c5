//! The controller's authoritative scheduling state and the operations the
//! API handlers drive against it.
//!
//! The state mirrors the persisted tables: nodes, backends, the append-only
//! backend-state journal, the action outbox, fencing keys and bearer tokens.
//! Updates are commutative-max over the status rank, the journal carries a
//! strictly rising rank per backend, a fencing key is held by at most one
//! live backend, and no backend ever gets a second spawn action.

use vstd::prelude::*;
use vstd::string::StringExecFns;

use crate::backend_state::{address_of, status_of, BackendState};
use crate::protocol::KeyDeadlines;
use crate::table::{
    find_by, find_where, lemma_filter_unique_by, lemma_find_index, lemma_find_none,
    lemma_find_push, lemma_find_unique_at, lemma_find_update, unique_by,
};
use crate::time::TimeMs;
use crate::types::{
    status_rank, BackendAddr, BackendName, BackendStatus, BearerToken, ClusterName, DroneName,
    KeyConfig, NodeId, SecretToken, Subdomain,
};

verus! {

/// One registered node (drone) row.
#[derive(Clone, Debug)]
pub struct NodeRow {
    pub id: NodeId,
    pub name: DroneName,
    pub cluster: ClusterName,
    /// Whether the drone reports itself ready to take backends.
    pub ready: bool,
    /// Whether the drone is draining and must not take new backends.
    pub draining: bool,
    pub last_heartbeat: TimeMs,
    pub pool: String,
}

/// One backend row.
#[derive(Clone, Debug)]
pub struct BackendRow {
    pub id: BackendName,
    pub cluster: ClusterName,
    pub drone_id: NodeId,
    pub state: BackendState,
    pub last_status: BackendStatus,
    pub last_status_number: i32,
    pub last_status_time: TimeMs,
    pub cluster_address: Option<BackendAddr>,
    pub last_keepalive: TimeMs,
    pub expiration_time: Option<TimeMs>,
    pub allowed_idle_seconds: Option<i32>,
    pub static_token: Option<BearerToken>,
    pub subdomain: Option<Subdomain>,
}

/// One fencing-key row; exists only while its backend is not terminated.
#[derive(Clone, Debug)]
pub struct KeyRow {
    pub backend_id: BackendName,
    pub cluster: ClusterName,
    pub key: KeyConfig,
    pub fencing_token: i64,
    pub deadlines: KeyDeadlines,
    pub expires_at: TimeMs,
}

/// One outbox row: an action the assigned drone must acknowledge.
#[derive(Clone, Debug)]
pub struct ActionRow {
    pub action_id: i64,
    pub backend_id: BackendName,
    pub drone_id: NodeId,
    /// Whether this is a spawn (else a terminate).
    pub is_spawn: bool,
    /// For a terminate action, whether it is hard.
    pub hard: bool,
    pub acked: bool,
}

/// One bearer-token row (non-static tokens only).
#[derive(Clone, Debug)]
pub struct TokenRow {
    pub token: BearerToken,
    pub backend_id: BackendName,
    pub username: Option<String>,
    /// Opaque auth metadata (JSON text).
    pub auth: String,
    pub secret_token: SecretToken,
}

/// How backend rows are keyed.
pub open spec fn backend_key() -> spec_fn(BackendRow) -> Seq<char> {
    |r: BackendRow| r.id@
}

/// How node rows are keyed.
pub open spec fn node_key() -> spec_fn(NodeRow) -> i32 {
    |r: NodeRow| r.id.id
}

/// How key rows are keyed: the full lock identity.
pub open spec fn key_key() -> spec_fn(KeyRow) -> (Seq<char>, (Seq<char>, Seq<char>, Seq<char>)) {
    |r: KeyRow| (r.cluster@, r.key@)
}

/// How token rows are keyed.
pub open spec fn token_key() -> spec_fn(TokenRow) -> Seq<char> {
    |r: TokenRow| r.token@
}

/// The controller's authoritative state.
pub struct ControllerState {
    pub nodes: Vec<NodeRow>,
    pub backends: Vec<BackendRow>,
    /// Append-only log of accepted state transitions.
    pub journal: Vec<(BackendName, BackendState)>,
    pub keys: Vec<KeyRow>,
    pub actions: Vec<ActionRow>,
    pub tokens: Vec<TokenRow>,
    pub next_action: i64,
    pub next_fencing: i64,
    pub next_node: i32,
}

/// A backend row's denormalized columns agree with its state.
pub open spec fn row_consistent(r: BackendRow) -> bool {
    &&& r.last_status == status_of(r.state)
    &&& r.last_status_number == status_rank(status_of(r.state))
}

/// The journal's entries for one backend carry strictly rising ranks.
pub open spec fn journal_ordered(journal: Seq<(BackendName, BackendState)>) -> bool {
    forall|i: int, j: int|
        0 <= i < j < journal.len() && (#[trigger] journal[i]).0@ == (#[trigger] journal[j]).0@
            ==> status_rank(status_of(journal[i].1)) < status_rank(status_of(journal[j].1))
}

/// Every journal entry's rank is at most its backend row's current rank.
pub open spec fn journal_below(
    journal: Seq<(BackendName, BackendState)>,
    backends: Seq<BackendRow>,
) -> bool {
    forall|i: int|
        0 <= i < journal.len() ==> match find_by(
            backends,
            backend_key(),
            (#[trigger] journal[i]).0@,
        ) {
            Some(r) => status_rank(status_of(journal[i].1)) <= r.last_status_number as int,
            None => false,
        }
}

/// The journal holds a `Ready` entry for this backend.
pub open spec fn has_ready_entry(
    journal: Seq<(BackendName, BackendState)>,
    id: Seq<char>,
) -> bool {
    exists|i: int|
        0 <= i < journal.len() && (#[trigger] journal[i]).0@ == id && status_of(journal[i].1)
            == BackendStatus::Ready
}

/// A backend's address column is set exactly when it has ever been ready.
pub open spec fn addresses_consistent(
    backends: Seq<BackendRow>,
    journal: Seq<(BackendName, BackendState)>,
) -> bool {
    forall|i: int|
        0 <= i < backends.len() ==> ((#[trigger] backends[i]).cluster_address is Some
            <==> has_ready_entry(journal, backends[i].id@))
}

/// Every key row names an existing, non-terminated backend.
pub open spec fn keys_live(keys: Seq<KeyRow>, backends: Seq<BackendRow>) -> bool {
    forall|i: int|
        0 <= i < keys.len() ==> match find_by(
            backends,
            backend_key(),
            (#[trigger] keys[i]).backend_id@,
        ) {
            Some(r) => status_of(r.state) != BackendStatus::Terminated,
            None => false,
        }
}

/// No two spawn actions ever name the same backend.
pub open spec fn at_most_one_spawn(actions: Seq<ActionRow>) -> bool {
    forall|i: int, j: int|
        0 <= i < j < actions.len() && (#[trigger] actions[i]).is_spawn && (
        #[trigger] actions[j]).is_spawn ==> actions[i].backend_id@ != actions[j].backend_id@
}

/// Every action row names an existing backend.
pub open spec fn actions_ref_backends(actions: Seq<ActionRow>, backends: Seq<BackendRow>) -> bool {
    forall|i: int|
        0 <= i < actions.len() ==> find_by(
            backends,
            backend_key(),
            (#[trigger] actions[i]).backend_id@,
        ) is Some
}

/// Every token row names an existing backend.
pub open spec fn tokens_ref_backends(tokens: Seq<TokenRow>, backends: Seq<BackendRow>) -> bool {
    forall|i: int|
        0 <= i < tokens.len() ==> find_by(
            backends,
            backend_key(),
            (#[trigger] tokens[i]).backend_id@,
        ) is Some
}

/// Every fencing token on a key row lies below the next one to be issued.
pub open spec fn fencing_below(keys: Seq<KeyRow>, next: int) -> bool {
    forall|i: int| 0 <= i < keys.len() ==> (#[trigger] keys[i]).fencing_token < next
}

/// Every node id lies below the next one to be issued.
pub open spec fn nodes_below(nodes: Seq<NodeRow>, next: int) -> bool {
    forall|i: int| 0 <= i < nodes.len() ==> (#[trigger] nodes[i]).id.id < next
}

impl ControllerState {
    /// The backend row for a name.
    pub open spec fn backend_of(&self, id: Seq<char>) -> Option<BackendRow> {
        find_by(self.backends@, backend_key(), id)
    }

    /// The key row for a lock identity.
    pub open spec fn key_of(
        &self,
        cluster: Seq<char>,
        key: (Seq<char>, Seq<char>, Seq<char>),
    ) -> Option<KeyRow> {
        find_by(self.keys@, key_key(), (cluster, key))
    }

    /// The token row for a bearer token.
    pub open spec fn token_of(&self, token: Seq<char>) -> Option<TokenRow> {
        find_by(self.tokens@, token_key(), token)
    }

    /// Well-formedness of the whole state.
    pub open spec fn wf(&self) -> bool {
        &&& unique_by(self.backends@, backend_key())
        &&& unique_by(self.nodes@, node_key())
        &&& unique_by(self.keys@, key_key())
        &&& unique_by(self.tokens@, token_key())
        &&& forall|i: int| 0 <= i < self.backends@.len() ==> row_consistent(#[trigger] self.backends@[i])
        &&& journal_ordered(self.journal@)
        &&& journal_below(self.journal@, self.backends@)
        &&& addresses_consistent(self.backends@, self.journal@)
        &&& keys_live(self.keys@, self.backends@)
        &&& at_most_one_spawn(self.actions@)
        &&& actions_ref_backends(self.actions@, self.backends@)
        &&& tokens_ref_backends(self.tokens@, self.backends@)
        &&& fencing_below(self.keys@, self.next_fencing as int)
        &&& nodes_below(self.nodes@, self.next_node as int)
        &&& 0 <= self.next_action
        &&& 0 <= self.next_fencing
        &&& 0 <= self.next_node
    }

    /// An empty controller state.
    pub fn new() -> (s: ControllerState)
        ensures
            s.wf(),
            s.backends@ =~= Seq::<BackendRow>::empty(),
            s.nodes@ =~= Seq::<NodeRow>::empty(),
            s.journal@ =~= Seq::<(BackendName, BackendState)>::empty(),
            s.keys@ =~= Seq::<KeyRow>::empty(),
            s.actions@ =~= Seq::<ActionRow>::empty(),
            s.tokens@ =~= Seq::<TokenRow>::empty(),
    {
        ControllerState {
            nodes: Vec::new(),
            backends: Vec::new(),
            journal: Vec::new(),
            keys: Vec::new(),
            actions: Vec::new(),
            tokens: Vec::new(),
            next_action: 0,
            next_fencing: 0,
            next_node: 0,
        }
    }

    /// The index of a backend row, searching from the front.
    fn find_backend_index(&self, backend: &BackendName) -> (r: Option<usize>)
        ensures
            match r {
                Some(i) => i < self.backends@.len() && self.backends@[i as int].id@ == backend@
                    && self.backend_of(backend@) == Some(self.backends@[i as int]) && (
                forall|j: int| 0 <= j < i ==> (#[trigger] self.backends@[j]).id@ != backend@),
                None => self.backend_of(backend@) is None,
            },
    {
        let mut i: usize = 0;
        while i < self.backends.len()
            invariant
                i <= self.backends@.len(),
                forall|j: int| 0 <= j < i ==> (#[trigger] self.backends@[j]).id@ != backend@,
            decreases self.backends@.len() - i,
        {
            if self.backends[i].id.name == backend.name {
                proof {
                    crate::table::lemma_find_at(self.backends@, backend_key(), i as int);
                }
                return Some(i);
            }
            i = i + 1;
        }
        proof {
            lemma_find_none(self.backends@, backend_key(), backend@);
        }
        None
    }

    /// Apply a state report for a backend. The update is accepted only when
    /// the new state's rank is strictly above the stored rank, which makes
    /// reports commutative and ignores stale ones; an accepted update is
    /// journalled, refreshes the address column on `Ready`, and deletes the
    /// backend's fencing key when the backend terminated. Returns whether
    /// the update was accepted.
    pub fn update_state(&mut self, backend: &BackendName, new_state: &BackendState, now: TimeMs)
        -> (applied: bool)
        requires
            old(self).wf(),
        ensures
            final(self).wf(),
            final(self).nodes@ == old(self).nodes@,
            final(self).tokens@ == old(self).tokens@,
            final(self).actions@ == old(self).actions@,
            final(self).next_action == old(self).next_action,
            final(self).next_fencing == old(self).next_fencing,
            match old(self).backend_of(backend@) {
                None => !applied && *final(self) == *old(self),
                Some(row) => {
                    if status_rank(status_of(*new_state)) > row.last_status_number as int {
                        &&& applied
                        &&& final(self).backend_of(backend@) == Some(
                            updated_backend_row(row, *new_state, now),
                        )
                        &&& forall|other: Seq<char>|
                            other != backend@ ==> #[trigger] final(self).backend_of(other) == old(
                                self,
                            ).backend_of(other)
                        &&& final(self).backends@.len() == old(self).backends@.len()
                        &&& final(self).journal@ =~= old(self).journal@.push(
                            (row.id, *new_state),
                        )
                        &&& final(self).keys@ =~= (
                        if status_of(*new_state) == BackendStatus::Terminated {
                            old(self).keys@.filter(
                                |k: KeyRow| k.backend_id@ != backend@,
                            )
                        } else {
                            old(self).keys@
                        })
                    } else {
                        !applied && *final(self) == *old(self)
                    }
                },
            },
    {
        let Some(i) = self.find_backend_index(backend) else { return false };
        let new_rank = new_state.status().as_int();
        if !(new_rank > self.backends[i].last_status_number) {
            return false;
        }
        let ghost old_rows = self.backends@;
        let ghost old_journal = self.journal@;
        let ghost old_keys = self.keys@;
        let ghost old_row = self.backends@[i as int];

        let row = &self.backends[i];
        let updated = BackendRow {
            id: row.id.clone(),
            cluster: row.cluster.clone(),
            drone_id: row.drone_id,
            state: *new_state,
            last_status: new_state.status(),
            last_status_number: new_rank,
            last_status_time: now,
            cluster_address: match new_state.address() {
                Some(a) => Some(a),
                None => row.cluster_address,
            },
            last_keepalive: row.last_keepalive,
            expiration_time: row.expiration_time,
            allowed_idle_seconds: row.allowed_idle_seconds,
            static_token: match &row.static_token {
                Some(t) => Some(t.clone()),
                None => None,
            },
            subdomain: match &row.subdomain {
                Some(s) => Some(s.clone()),
                None => None,
            },
        };
        self.backends.set(i, updated);
        proof {
            assert(self.backends@[i as int] == updated_backend_row(old_row, *new_state, now));
            lemma_find_update(old_rows, self.backends@, backend_key(), i as int);
        }

        let name = self.backends[i].id.clone();
        self.journal.push((name, *new_state));
        proof {
            lemma_journal_push(old_journal, old_rows, self.backends@, old_row, *new_state, now);
        }

        if new_state.is_terminated() {
            let ghost pred = |k: KeyRow| k.backend_id@ != backend@;
            let mut kept: Vec<KeyRow> = Vec::new();
            let mut j: usize = 0;
            while j < self.keys.len()
                invariant
                    j <= self.keys@.len(),
                    old_keys == self.keys@,
                    kept@ =~= self.keys@.take(j as int).filter(
                        |k: KeyRow| k.backend_id@ != backend@,
                    ),
                decreases self.keys@.len() - j,
            {
                proof {
                    assert(self.keys@.take(j as int + 1) =~= self.keys@.take(j as int).push(
                        self.keys@[j as int],
                    ));
                    self.keys@.take(j as int).lemma_filter_push(
                        self.keys@[j as int],
                        |k: KeyRow| k.backend_id@ != backend@,
                    );
                }
                let k = &self.keys[j];
                if !(k.backend_id.name == backend.name) {
                    kept.push(
                        KeyRow {
                            backend_id: k.backend_id.clone(),
                            cluster: k.cluster.clone(),
                            key: k.key.clone(),
                            fencing_token: k.fencing_token,
                            deadlines: k.deadlines,
                            expires_at: k.expires_at,
                        },
                    );
                }
                j = j + 1;
            }
            proof {
                assert(self.keys@.take(self.keys@.len() as int) =~= self.keys@);
            }
            self.keys = kept;
            proof {
                lemma_filter_unique_by(
                    old_keys,
                    key_key(),
                    |k: KeyRow| k.backend_id@ != backend@,
                );
                crate::table::lemma_filter_rows_contained(
                    old_keys,
                    |k: KeyRow| k.backend_id@ != backend@,
                );
                assert forall|p: int| 0 <= p < self.keys@.len() implies match find_by(
                    self.backends@,
                    backend_key(),
                    (#[trigger] self.keys@[p]).backend_id@,
                ) {
                    Some(r) => status_of(r.state) != BackendStatus::Terminated,
                    None => false,
                } by {
                    let k = self.keys@[p];
                    let q = choose|q: int| 0 <= q < old_keys.len() && old_keys[q] == k;
                    assert(find_by(old_rows, backend_key(), k.backend_id@) is Some);
                }
            }
        }
        proof {
            lemma_refs_stable(
                self.actions@,
                self.tokens@,
                old_rows,
                self.backends@,
                backend@,
            );
            lemma_addresses_after_update(
                old_rows,
                self.backends@,
                old_journal,
                self.journal@,
                old_row,
                *new_state,
                i as int,
            );
        }
        true
    }

    /// Refresh a backend's keep-alive column; returns whether the backend
    /// exists.
    pub fn update_keepalive(&mut self, backend: &BackendName, now: TimeMs) -> (found: bool)
        requires
            old(self).wf(),
        ensures
            final(self).wf(),
            final(self).nodes@ == old(self).nodes@,
            final(self).tokens@ == old(self).tokens@,
            final(self).actions@ == old(self).actions@,
            final(self).keys@ == old(self).keys@,
            final(self).journal@ == old(self).journal@,
            match old(self).backend_of(backend@) {
                None => !found && *final(self) == *old(self),
                Some(row) => {
                    &&& found
                    &&& final(self).backend_of(backend@) == Some(
                        BackendRow { last_keepalive: now, ..row },
                    )
                    &&& forall|other: Seq<char>|
                        other != backend@ ==> #[trigger] final(self).backend_of(other) == old(
                            self,
                        ).backend_of(other)
                },
            },
    {
        let Some(i) = self.find_backend_index(backend) else { return false };
        let ghost old_rows = self.backends@;
        let ghost old_row = self.backends@[i as int];
        let row = &self.backends[i];
        let updated = BackendRow {
            id: row.id.clone(),
            cluster: row.cluster.clone(),
            drone_id: row.drone_id,
            state: row.state,
            last_status: row.last_status,
            last_status_number: row.last_status_number,
            last_status_time: row.last_status_time,
            cluster_address: row.cluster_address,
            last_keepalive: now,
            expiration_time: row.expiration_time,
            allowed_idle_seconds: row.allowed_idle_seconds,
            static_token: match &row.static_token {
                Some(t) => Some(t.clone()),
                None => None,
            },
            subdomain: match &row.subdomain {
                Some(s) => Some(s.clone()),
                None => None,
            },
        };
        self.backends.set(i, updated);
        proof {
            assert(self.backends@[i as int] == BackendRow { last_keepalive: now, ..old_row });
            lemma_find_update(old_rows, self.backends@, backend_key(), i as int);
            lemma_refs_stable(
                self.actions@,
                self.tokens@,
                old_rows,
                self.backends@,
                backend@,
            );
            lemma_journal_stable_rows(self.journal@, old_rows, self.backends@, i as int);
            lemma_addresses_stable(old_rows, self.backends@, self.journal@, i as int);
            assert forall|p: int| 0 <= p < self.keys@.len() implies match find_by(
                self.backends@,
                backend_key(),
                (#[trigger] self.keys@[p]).backend_id@,
            ) {
                Some(r) => status_of(r.state) != BackendStatus::Terminated,
                None => false,
            } by {
                let k = self.keys@[p];
                assert(find_by(old_rows, backend_key(), k.backend_id@) is Some);
                if k.backend_id@ == backend@ {
                    assert(find_by(old_rows, backend_key(), k.backend_id@) == Some(old_row));
                }
            }
        }
        true
    }
}

/// What an accepted state update makes of a backend row.
pub open spec fn updated_backend_row(row: BackendRow, new_state: BackendState, now: TimeMs)
    -> BackendRow {
    BackendRow {
        state: new_state,
        last_status: status_of(new_state),
        last_status_number: status_rank(status_of(new_state)) as i32,
        last_status_time: now,
        cluster_address: match address_of(new_state) {
            Some(a) => Some(a),
            None => row.cluster_address,
        },
        ..row
    }
}

/// Pushing an accepted (strictly higher-ranked) entry keeps the journal
/// ordered and below the updated rows.
proof fn lemma_journal_push(
    journal: Seq<(BackendName, BackendState)>,
    rows: Seq<BackendRow>,
    updated_rows: Seq<BackendRow>,
    row: BackendRow,
    new_state: BackendState,
    now: TimeMs,
)
    requires
        journal_ordered(journal),
        journal_below(journal, rows),
        unique_by(rows, backend_key()),
        find_by(rows, backend_key(), row.id@) == Some(row),
        status_rank(status_of(new_state)) > row.last_status_number as int,
        find_by(updated_rows, backend_key(), row.id@) == Some(
            updated_backend_row(row, new_state, now),
        ),
        forall|other: Seq<char>|
            other != row.id@ ==> #[trigger] find_by(updated_rows, backend_key(), other) == find_by(
                rows,
                backend_key(),
                other,
            ),
    ensures
        journal_ordered(journal.push((row.id, new_state))),
        journal_below(journal.push((row.id, new_state)), updated_rows),
{
    let p = journal.push((row.id, new_state));
    assert forall|i: int, j: int|
        0 <= i < j < p.len() && (#[trigger] p[i]).0@ == (#[trigger] p[j]).0@ implies status_rank(
        status_of(p[i].1),
    ) < status_rank(status_of(p[j].1)) by {
        if j == journal.len() {
            assert(p[i] == journal[i]);
            if journal[i].0@ == row.id@ {
                assert(status_rank(status_of(journal[i].1)) <= row.last_status_number as int);
            }
        } else {
            assert(p[i] == journal[i]);
            assert(p[j] == journal[j]);
        }
    }
    assert forall|i: int| 0 <= i < p.len() implies match find_by(
        updated_rows,
        backend_key(),
        (#[trigger] p[i]).0@,
    ) {
        Some(r) => status_rank(status_of(p[i].1)) <= r.last_status_number as int,
        None => false,
    } by {
        if i < journal.len() {
            assert(p[i] == journal[i]);
            if journal[i].0@ == row.id@ {
                assert(status_rank(status_of(journal[i].1)) <= row.last_status_number as int);
            }
        } else {
            assert(p[i] == (row.id, new_state));
        }
    }
}

/// Updating one backend row without touching names keeps the action and
/// token references resolvable.
proof fn lemma_refs_stable(
    actions: Seq<ActionRow>,
    tokens: Seq<TokenRow>,
    rows: Seq<BackendRow>,
    updated_rows: Seq<BackendRow>,
    changed: Seq<char>,
)
    requires
        actions_ref_backends(actions, rows),
        tokens_ref_backends(tokens, rows),
        find_by(updated_rows, backend_key(), changed) is Some,
        forall|other: Seq<char>|
            other != changed ==> #[trigger] find_by(updated_rows, backend_key(), other) == find_by(
                rows,
                backend_key(),
                other,
            ),
    ensures
        actions_ref_backends(actions, updated_rows),
        tokens_ref_backends(tokens, updated_rows),
{
    assert forall|i: int| 0 <= i < actions.len() implies find_by(
        updated_rows,
        backend_key(),
        (#[trigger] actions[i]).backend_id@,
    ) is Some by {
        if actions[i].backend_id@ != changed {
            assert(find_by(updated_rows, backend_key(), actions[i].backend_id@) == find_by(
                rows,
                backend_key(),
                actions[i].backend_id@,
            ));
        }
    }
    assert forall|i: int| 0 <= i < tokens.len() implies find_by(
        updated_rows,
        backend_key(),
        (#[trigger] tokens[i]).backend_id@,
    ) is Some by {
        if tokens[i].backend_id@ != changed {
            assert(find_by(updated_rows, backend_key(), tokens[i].backend_id@) == find_by(
                rows,
                backend_key(),
                tokens[i].backend_id@,
            ));
        }
    }
}

/// A row update that does not change rank keeps the journal bound.
proof fn lemma_journal_stable_rows(
    journal: Seq<(BackendName, BackendState)>,
    rows: Seq<BackendRow>,
    updated_rows: Seq<BackendRow>,
    i: int,
)
    requires
        journal_below(journal, rows),
        unique_by(rows, backend_key()),
        0 <= i < rows.len(),
        updated_rows.len() == rows.len(),
        updated_rows[i].id@ == rows[i].id@,
        updated_rows[i].last_status_number == rows[i].last_status_number,
        forall|j: int| 0 <= j < rows.len() && j != i ==> updated_rows[j] == rows[j],
    ensures
        journal_below(journal, updated_rows),
{
    lemma_find_update(rows, updated_rows, backend_key(), i);
    assert forall|p: int| 0 <= p < journal.len() implies match find_by(
        updated_rows,
        backend_key(),
        (#[trigger] journal[p]).0@,
    ) {
        Some(r) => status_rank(status_of(journal[p].1)) <= r.last_status_number as int,
        None => false,
    } by {
        if journal[p].0@ == rows[i].id@ {
            assert(find_by(rows, backend_key(), journal[p].0@) == Some(rows[i])) by {
                lemma_find_unique_at(rows, backend_key(), i);
            }
            assert(find_by(updated_rows, backend_key(), journal[p].0@) == Some(updated_rows[i]));
        } else {
            assert(find_by(updated_rows, backend_key(), journal[p].0@) == find_by(
                rows,
                backend_key(),
                journal[p].0@,
            ));
        }
    }
}

/// A row update that keeps the address column keeps addresses consistent.
proof fn lemma_addresses_stable(
    rows: Seq<BackendRow>,
    updated_rows: Seq<BackendRow>,
    journal: Seq<(BackendName, BackendState)>,
    i: int,
)
    requires
        addresses_consistent(rows, journal),
        0 <= i < rows.len(),
        updated_rows.len() == rows.len(),
        updated_rows[i].id@ == rows[i].id@,
        updated_rows[i].cluster_address == rows[i].cluster_address,
        forall|j: int| 0 <= j < rows.len() && j != i ==> updated_rows[j] == rows[j],
    ensures
        addresses_consistent(updated_rows, journal),
{
    assert forall|p: int| 0 <= p < updated_rows.len() implies ((
    #[trigger] updated_rows[p]).cluster_address is Some <==> has_ready_entry(
        journal,
        updated_rows[p].id@,
    )) by {
        if p == i {
            assert(rows[i].cluster_address is Some <==> has_ready_entry(journal, rows[i].id@));
        } else {
            assert(updated_rows[p] == rows[p]);
        }
    }
}

/// An accepted update keeps addresses consistent: the journal gains the new
/// state, and the updated row's address merges the new state's address.
proof fn lemma_addresses_after_update(
    rows: Seq<BackendRow>,
    updated_rows: Seq<BackendRow>,
    journal: Seq<(BackendName, BackendState)>,
    updated_journal: Seq<(BackendName, BackendState)>,
    row: BackendRow,
    new_state: BackendState,
    i: int,
)
    requires
        addresses_consistent(rows, journal),
        unique_by(rows, backend_key()),
        0 <= i < rows.len(),
        rows[i] == row,
        updated_rows.len() == rows.len(),
        updated_rows[i].id@ == row.id@,
        updated_rows[i].cluster_address == (match address_of(new_state) {
            Some(a) => Some(a),
            None => row.cluster_address,
        }),
        forall|j: int| 0 <= j < rows.len() && j != i ==> updated_rows[j] == rows[j],
        updated_journal == journal.push((row.id, new_state)),
    ensures
        addresses_consistent(updated_rows, updated_journal),
{
    assert forall|p: int| 0 <= p < updated_rows.len() implies ((
    #[trigger] updated_rows[p]).cluster_address is Some <==> has_ready_entry(
        updated_journal,
        updated_rows[p].id@,
    )) by {
        let x = updated_rows[p].id@;
        if has_ready_entry(journal, x) {
            let w = choose|w: int|
                0 <= w < journal.len() && (#[trigger] journal[w]).0@ == x && status_of(
                    journal[w].1,
                ) == BackendStatus::Ready;
            assert(updated_journal[w] == journal[w]);
            assert(has_ready_entry(updated_journal, x));
        }
        if p == i {
            if address_of(new_state) is Some {
                assert(status_of(new_state) == BackendStatus::Ready);
                assert(updated_journal[journal.len() as int] == (row.id, new_state));
                assert(has_ready_entry(updated_journal, x));
            } else {
                if has_ready_entry(updated_journal, x) {
                    let w = choose|w: int|
                        0 <= w < updated_journal.len() && (#[trigger] updated_journal[w]).0@ == x
                            && status_of(updated_journal[w].1) == BackendStatus::Ready;
                    if w < journal.len() {
                        assert(has_ready_entry(journal, x));
                    }
                }
                assert(rows[i].cluster_address is Some <==> has_ready_entry(journal, x));
            }
        } else {
            assert(updated_rows[p] == rows[p]);
            assert(rows[p].cluster_address is Some <==> has_ready_entry(journal, x));
            if has_ready_entry(updated_journal, x) && !has_ready_entry(journal, x) {
                let w = choose|w: int|
                    0 <= w < updated_journal.len() && (#[trigger] updated_journal[w]).0@ == x
                        && status_of(updated_journal[w].1) == BackendStatus::Ready;
                assert(w == journal.len());
                assert(x == row.id@);
                assert(rows[p].id@ != rows[i].id@);
            }
        }
    }
}


/// How long a keep-alive may lag before a `Ready` backend counts as
/// unhealthy for key reuse.
pub const KEEPALIVE_STALE_MS: i64 = 30_000;

/// How long after issue a renewed key should be renewed again.
pub const KEY_RENEW_AFTER_MS: i64 = 30_000;

/// How long after issue an unrenewed key soft-terminates its backend.
pub const KEY_SOFT_TERMINATE_AFTER_MS: i64 = 60_000;

/// How long after issue an unrenewed key hard-terminates its backend.
pub const KEY_HARD_TERMINATE_AFTER_MS: i64 = 120_000;

/// The deadlines a key issued or renewed at `now` carries.
pub open spec fn spec_deadlines_at(now: TimeMs) -> KeyDeadlines {
    KeyDeadlines {
        renew_at: TimeMs { ms: (now.ms + KEY_RENEW_AFTER_MS) as i64 },
        soft_terminate_at: TimeMs { ms: (now.ms + KEY_SOFT_TERMINATE_AFTER_MS) as i64 },
        hard_terminate_at: TimeMs { ms: (now.ms + KEY_HARD_TERMINATE_AFTER_MS) as i64 },
    }
}

/// The deadlines a key issued or renewed at `now` carries; renewal comes
/// strictly before soft termination, which comes strictly before hard
/// termination.
pub fn deadlines_at(now: TimeMs) -> (d: KeyDeadlines)
    requires
        now.ms + KEY_HARD_TERMINATE_AFTER_MS <= i64::MAX,
    ensures
        d == spec_deadlines_at(now),
        d.renew_at.ms < d.soft_terminate_at.ms < d.hard_terminate_at.ms,
{
    KeyDeadlines {
        renew_at: TimeMs { ms: now.ms + KEY_RENEW_AFTER_MS },
        soft_terminate_at: TimeMs { ms: now.ms + KEY_SOFT_TERMINATE_AFTER_MS },
        hard_terminate_at: TimeMs { ms: now.ms + KEY_HARD_TERMINATE_AFTER_MS },
    }
}

/// Whether a backend row carries this static bearer token.
pub open spec fn has_static_token(row: BackendRow, token: Seq<char>) -> bool {
    match row.static_token {
        Some(t) => t@ == token,
        None => false,
    }
}

/// The part of a route that is known before the backend has an address.
#[derive(Clone, Debug)]
pub struct PartialRouteInfo {
    pub backend_id: BackendName,
    pub secret_token: SecretToken,
    pub cluster: ClusterName,
    pub user: Option<String>,
    pub user_data: Option<String>,
    pub subdomain: Option<Subdomain>,
}

impl PartialRouteInfo {
    /// Complete the route with the backend's address.
    pub fn set_address(self, address: BackendAddr) -> (r: crate::protocol::RouteInfo)
        ensures
            r.backend_id == self.backend_id,
            r.address == address,
            r.secret_token == self.secret_token,
            r.cluster == self.cluster,
            r.user == self.user,
            r.user_data == self.user_data,
            r.subdomain == self.subdomain,
    {
        crate::protocol::RouteInfo {
            backend_id: self.backend_id,
            address,
            secret_token: self.secret_token,
            cluster: self.cluster,
            user: self.user,
            user_data: self.user_data,
            subdomain: self.subdomain,
        }
    }
}

/// What a route lookup finds.
#[derive(Debug)]
pub enum RouteInfoResult {
    /// The token is unknown, or its backend is terminating or gone.
    NotFound,
    /// The route is not yet available, because the backend is starting.
    Pending(PartialRouteInfo),
    /// The route info is available and the backend is ready.
    Available(crate::protocol::RouteInfo),
}

/// Whether a backend row's status forbids routing to it for good.
pub open spec fn route_gone(s: BackendStatus) -> bool {
    s == BackendStatus::Terminated || s == BackendStatus::Terminating
        || s == BackendStatus::HardTerminating
}

/// What the route for a backend row is, given the identity columns a
/// non-static token row contributes (or none, for a static token).
pub open spec fn spec_route_for_row(
    row: BackendRow,
    secret: Seq<char>,
    user: Option<Seq<char>>,
    user_data: Option<Seq<char>>,
    r: RouteInfoResult,
) -> bool {
    if route_gone(row.last_status) {
        r is NotFound
    } else if row.last_status != BackendStatus::Ready {
        r matches RouteInfoResult::Pending(p) && p.backend_id@ == row.id@ && p.secret_token@
            == secret && p.cluster@ == row.cluster@ && option_view(p.user) == user && option_view(
            p.user_data,
        ) == user_data && option_sub_view(p.subdomain) == option_sub_view(row.subdomain)
    } else {
        match row.cluster_address {
            None => r is NotFound,
            Some(addr) => r matches RouteInfoResult::Available(info) && info.backend_id@
                == row.id@ && info.address == addr && info.secret_token@ == secret && info.cluster@
                == row.cluster@ && option_view(info.user) == user && option_view(info.user_data)
                == user_data && option_sub_view(info.subdomain) == option_sub_view(row.subdomain),
        }
    }
}

/// The views of an optional string.
pub open spec fn option_view(o: Option<String>) -> Option<Seq<char>> {
    match o {
        Some(s) => Some(s@),
        None => None,
    }
}

/// The views of an optional subdomain.
pub open spec fn option_sub_view(o: Option<Subdomain>) -> Option<Seq<char>> {
    match o {
        Some(s) => Some(s@),
        None => None,
    }
}

/// A backend selected by the idle / expiration sweep.
#[derive(Clone, Debug)]
pub struct TerminationCandidate {
    pub backend_id: BackendName,
    pub expiration_time: Option<TimeMs>,
    pub last_keepalive: TimeMs,
    pub allowed_idle_seconds: Option<i32>,
    pub as_of: TimeMs,
}

/// Whether a backend row is due for termination at `now`: it is past
/// `Scheduled`, not yet terminated, and either idle beyond its allowance
/// or past its expiration time.
pub open spec fn due_for_termination(row: BackendRow, drone: NodeId, now: TimeMs) -> bool {
    &&& row.drone_id == drone
    &&& row.last_status != BackendStatus::Scheduled
    &&& row.last_status != BackendStatus::Terminated
    &&& {
        ||| (row.allowed_idle_seconds matches Some(a) && now.ms - row.last_keepalive.ms > a
            * 1000)
        ||| (row.expiration_time matches Some(e) && now.ms > e.ms)
    }
}

/// The candidate row the sweep reports for a due backend.
pub open spec fn candidate_of(row: BackendRow, now: TimeMs) -> TerminationCandidate {
    TerminationCandidate {
        backend_id: row.id,
        expiration_time: row.expiration_time,
        last_keepalive: row.last_keepalive,
        allowed_idle_seconds: row.allowed_idle_seconds,
        as_of: now,
    }
}

impl ControllerState {
    /// Resolve a static bearer token: the first backend carrying it, with
    /// no secret token and no user identity attached.
    pub fn route_info_for_static_token(&self, token: &BearerToken) -> (r: RouteInfoResult)
        requires
            self.wf(),
        ensures
            match find_where(
                self.backends@,
                |row: BackendRow| has_static_token(row, token@),
            ) {
                None => r is NotFound,
                Some(row) => spec_route_for_row(row, Seq::<char>::empty(), None, None, r),
            },
    {
        let mut i: usize = 0;
        while i < self.backends.len()
            invariant
                self.wf(),
                i <= self.backends@.len(),
                forall|j: int|
                    0 <= j < i ==> !has_static_token(#[trigger] self.backends@[j], token@),
            decreases self.backends@.len() - i,
        {
            let row = &self.backends[i];
            let matched = match &row.static_token {
                Some(t) => t.token == token.token,
                None => false,
            };
            if matched {
                proof {
                    let pred = |row: BackendRow| has_static_token(row, token@);
                    assert(pred(self.backends@[i as int]));
                    assert forall|j: int| 0 <= j < i implies !pred(
                        #[trigger] self.backends@[j],
                    ) by {}
                    crate::table::lemma_find_where_at(self.backends@, pred, i as int);
                }
                return self.route_result_for_row(i, SecretToken { token: String::new() }, None, None);
            }
            i = i + 1;
        }
        proof {
            let pred = |row: BackendRow| has_static_token(row, token@);
            assert forall|j: int| 0 <= j < self.backends@.len() implies !pred(
                #[trigger] self.backends@[j],
            ) by {}
            crate::table::lemma_find_where_none(self.backends@, pred);
        }
        RouteInfoResult::NotFound
    }

    /// Build the route outcome for the backend row at `i`.
    fn route_result_for_row(
        &self,
        i: usize,
        secret: SecretToken,
        user: Option<String>,
        user_data: Option<String>,
    ) -> (r: RouteInfoResult)
        requires
            self.wf(),
            i < self.backends@.len(),
        ensures
            spec_route_for_row(
                self.backends@[i as int],
                secret@,
                option_view(user),
                option_view(user_data),
                r,
            ),
    {
        let row = &self.backends[i];
        let status = row.last_status;
        if matches!(
            status,
            BackendStatus::Terminated | BackendStatus::Terminating | BackendStatus::HardTerminating
        ) {
            return RouteInfoResult::NotFound;
        }
        let partial = PartialRouteInfo {
            backend_id: row.id.clone(),
            secret_token: secret,
            cluster: row.cluster.clone(),
            user,
            user_data,
            subdomain: match &row.subdomain {
                Some(s) => Some(s.clone()),
                None => None,
            },
        };
        if !matches!(status, BackendStatus::Ready) {
            return RouteInfoResult::Pending(partial);
        }
        match row.cluster_address {
            None => RouteInfoResult::NotFound,
            Some(addr) => RouteInfoResult::Available(partial.set_address(addr)),
        }
    }

    /// Resolve a bearer token: static tokens resolve through the backend
    /// table, other tokens through the token table, joining their backend
    /// and attaching the stored user identity and secret.
    pub fn route_info_for_token(&self, token: &BearerToken) -> (r: RouteInfoResult)
        requires
            self.wf(),
        ensures
            crate::types::is_static_token(token@) ==> match find_where(
                self.backends@,
                |row: BackendRow| has_static_token(row, token@),
            ) {
                None => r is NotFound,
                Some(row) => spec_route_for_row(row, Seq::<char>::empty(), None, None, r),
            },
            !crate::types::is_static_token(token@) ==> match self.token_of(token@) {
                None => r is NotFound,
                Some(tok) => spec_route_for_row(
                    self.backend_of(tok.backend_id@)->Some_0,
                    tok.secret_token@,
                    option_view(tok.username),
                    Some(tok.auth@),
                    r,
                ),
            },
    {
        if token.is_static() {
            return self.route_info_for_static_token(token);
        }
        let mut i: usize = 0;
        while i < self.tokens.len()
            invariant
                self.wf(),
                !crate::types::is_static_token(token@),
                i <= self.tokens@.len(),
                forall|j: int| 0 <= j < i ==> (#[trigger] self.tokens@[j]).token@ != token@,
            decreases self.tokens@.len() - i,
        {
            if self.tokens[i].token.token == token.token {
                proof {
                    crate::table::lemma_find_at(self.tokens@, token_key(), i as int);
                    assert(self.token_of(token@) == Some(self.tokens@[i as int]));
                }
                let tok = &self.tokens[i];
                let Some(b) = self.find_backend_index(&tok.backend_id) else {
                    proof {
                        assert(find_by(self.backends@, backend_key(), self.tokens@[i as int].backend_id@) is Some);
                    }
                    return RouteInfoResult::NotFound;
                };
                return self.route_result_for_row(
                    b,
                    tok.secret_token.clone(),
                    match &tok.username {
                        Some(u) => Some(u.clone()),
                        None => None,
                    },
                    Some(tok.auth.clone()),
                );
            }
            i = i + 1;
        }
        proof {
            lemma_find_none(self.tokens@, token_key(), token@);
        }
        RouteInfoResult::NotFound
    }

    /// The backends on one drone that the expiration sweep must terminate
    /// at `now`: idle past their allowance, or past their expiration time.
    pub fn termination_candidates(&self, drone: NodeId, now: TimeMs) -> (r: Vec<
        TerminationCandidate,
    >)
        requires
            self.wf(),
        ensures
            r@ =~= self.backends@.filter(
                |row: BackendRow| due_for_termination(row, drone, now),
            ).map_values(|row: BackendRow| candidate_of(row, now)),
    {
        let mut out: Vec<TerminationCandidate> = Vec::new();
        let mut i: usize = 0;
        while i < self.backends.len()
            invariant
                i <= self.backends@.len(),
                out@ =~= self.backends@.take(i as int).filter(
                    |row: BackendRow| due_for_termination(row, drone, now),
                ).map_values(|row: BackendRow| candidate_of(row, now)),
            decreases self.backends@.len() - i,
        {
            proof {
                assert(self.backends@.take(i as int + 1) =~= self.backends@.take(i as int).push(
                    self.backends@[i as int],
                ));
                self.backends@.take(i as int).lemma_filter_push(
                    self.backends@[i as int],
                    |row: BackendRow| due_for_termination(row, drone, now),
                );
            }
            let row = &self.backends[i];
            let relevant = row.drone_id.id == drone.id && !matches!(
                row.last_status,
                BackendStatus::Scheduled | BackendStatus::Terminated
            );
            if relevant {
                let idle = match row.allowed_idle_seconds {
                    Some(a) => (now.ms as i128) - (row.last_keepalive.ms as i128) > (a as i128)
                        * 1000,
                    None => false,
                };
                let expired = match row.expiration_time {
                    Some(e) => now.ms > e.ms,
                    None => false,
                };
                if idle || expired {
                    out.push(
                        TerminationCandidate {
                            backend_id: row.id.clone(),
                            expiration_time: row.expiration_time,
                            last_keepalive: row.last_keepalive,
                            allowed_idle_seconds: row.allowed_idle_seconds,
                            as_of: now,
                        },
                    );
                }
            }
            i = i + 1;
        }
        proof {
            assert(self.backends@.take(self.backends@.len() as int) =~= self.backends@);
        }
        out
    }

    /// Renew the fencing key a backend holds. Renewal succeeds iff the key
    /// row exists and the presented fencing token equals the stored one;
    /// the renewed deadlines start from `now`.
    pub fn renew_key(&mut self, backend: &BackendName, presented_fencing: i64, now: TimeMs) -> (r:
        Option<KeyDeadlines>)
        requires
            old(self).wf(),
            now.ms + KEY_HARD_TERMINATE_AFTER_MS <= i64::MAX,
        ensures
            final(self).wf(),
            final(self).backends@ == old(self).backends@,
            final(self).journal@ == old(self).journal@,
            final(self).actions@ == old(self).actions@,
            final(self).tokens@ == old(self).tokens@,
            final(self).nodes@ == old(self).nodes@,
            match find_where(
                old(self).keys@,
                |k: KeyRow| k.backend_id@ == backend@,
            ) {
                None => r is None && *final(self) == *old(self),
                Some(krow) => {
                    if krow.fencing_token == presented_fencing {
                        &&& r == Some(spec_deadlines_at(now))
                        &&& find_where(
                            final(self).keys@,
                            |k: KeyRow| k.backend_id@ == backend@,
                        ) == Some(
                            KeyRow {
                                deadlines: spec_deadlines_at(now),
                                expires_at: spec_deadlines_at(now).hard_terminate_at,
                                ..krow
                            },
                        )
                    } else {
                        r is None && *final(self) == *old(self)
                    }
                },
            },
    {
        let mut i: usize = 0;
        while i < self.keys.len()
            invariant
                self.wf(),
                *self == *old(self),
                now.ms + KEY_HARD_TERMINATE_AFTER_MS <= i64::MAX,
                i <= self.keys@.len(),
                forall|j: int| 0 <= j < i ==> (#[trigger] self.keys@[j]).backend_id@ != backend@,
            decreases self.keys@.len() - i,
        {
            if self.keys[i].backend_id.name == backend.name {
                proof {
                    let pred = |k: KeyRow| k.backend_id@ == backend@;
                    assert(pred(self.keys@[i as int]));
                    assert forall|j: int| 0 <= j < i implies !pred(#[trigger] self.keys@[j]) by {}
                    crate::table::lemma_find_where_at(self.keys@, pred, i as int);
                }
                if !(self.keys[i].fencing_token == presented_fencing) {
                    return None;
                }
                let d = deadlines_at(now);
                let ghost old_keys = self.keys@;
                let ghost old_row = self.keys@[i as int];
                let k = &self.keys[i];
                let updated = KeyRow {
                    backend_id: k.backend_id.clone(),
                    cluster: k.cluster.clone(),
                    key: k.key.clone(),
                    fencing_token: k.fencing_token,
                    deadlines: d,
                    expires_at: d.hard_terminate_at,
                };
                self.keys.set(i, updated);
                proof {
                    let pred = |k: KeyRow| k.backend_id@ == backend@;
                    assert(self.keys@[i as int] == KeyRow {
                        deadlines: spec_deadlines_at(now),
                        expires_at: spec_deadlines_at(now).hard_terminate_at,
                        ..old_row
                    });
                    lemma_find_update(old_keys, self.keys@, key_key(), i as int);
                    assert(pred(self.keys@[i as int]));
                    assert forall|j: int| 0 <= j < i implies !pred(#[trigger] self.keys@[j]) by {
                        assert(self.keys@[j] == old_keys[j]);
                    }
                    crate::table::lemma_find_where_at(self.keys@, pred, i as int);
                    crate::table::lemma_find_where_at(old_keys, pred, i as int);
                    assert forall|p: int| 0 <= p < self.keys@.len() implies match find_by(
                        self.backends@,
                        backend_key(),
                        (#[trigger] self.keys@[p]).backend_id@,
                    ) {
                        Some(r2) => status_of(r2.state) != BackendStatus::Terminated,
                        None => false,
                    } by {
                        if p != i as int {
                            assert(self.keys@[p] == old_keys[p]);
                        }
                    }
                }
                return Some(d);
            }
            i = i + 1;
        }
        proof {
            let pred = |k: KeyRow| k.backend_id@ == backend@;
            assert forall|j: int| 0 <= j < self.keys@.len() implies !pred(
                #[trigger] self.keys@[j],
            ) by {}
            crate::table::lemma_find_where_none(self.keys@, pred);
        }
        None
    }

    /// Record a terminate instruction for a backend in the outbox; the
    /// assigned drone will receive and acknowledge it. Fails iff the
    /// backend does not exist.
    pub fn terminate_backend(&mut self, backend: &BackendName, hard: bool) -> (r: Option<i64>)
        requires
            old(self).wf(),
            old(self).next_action < i64::MAX,
        ensures
            final(self).wf(),
            final(self).backends@ == old(self).backends@,
            final(self).journal@ == old(self).journal@,
            final(self).keys@ == old(self).keys@,
            final(self).tokens@ == old(self).tokens@,
            final(self).nodes@ == old(self).nodes@,
            final(self).next_fencing == old(self).next_fencing,
            final(self).next_node == old(self).next_node,
            match old(self).backend_of(backend@) {
                None => r is None && *final(self) == *old(self),
                Some(row) => {
                    &&& r == Some(old(self).next_action)
                    &&& final(self).actions@ =~= old(self).actions@.push(
                        ActionRow {
                            action_id: old(self).next_action,
                            backend_id: row.id,
                            drone_id: row.drone_id,
                            is_spawn: false,
                            hard,
                            acked: false,
                        },
                    )
                    &&& final(self).next_action == old(self).next_action + 1
                },
            },
    {
        let Some(i) = self.find_backend_index(backend) else { return None };
        let ghost old_actions = self.actions@;
        let id = self.next_action;
        let row = ActionRow {
            action_id: id,
            backend_id: self.backends[i].id.clone(),
            drone_id: self.backends[i].drone_id,
            is_spawn: false,
            hard,
            acked: false,
        };
        self.actions.push(row);
        self.next_action = self.next_action + 1;
        proof {
            assert forall|p: int, q: int|
                0 <= p < q < self.actions@.len() && (#[trigger] self.actions@[p]).is_spawn && (
                #[trigger] self.actions@[q]).is_spawn implies self.actions@[p].backend_id@
                != self.actions@[q].backend_id@ by {
                assert(q < old_actions.len());
                assert(self.actions@[p] == old_actions[p]);
                assert(self.actions@[q] == old_actions[q]);
            }
            assert forall|p: int| 0 <= p < self.actions@.len() implies find_by(
                self.backends@,
                backend_key(),
                (#[trigger] self.actions@[p]).backend_id@,
            ) is Some by {
                if p < old_actions.len() {
                    assert(self.actions@[p] == old_actions[p]);
                }
            }
        }
        Some(id)
    }

    /// Mark one outbox row acknowledged; redelivery stops. Rows stay, so a
    /// backend's spawn history is never forgotten.
    pub fn ack_action(&mut self, action_id: i64) -> (found: bool)
        requires
            old(self).wf(),
        ensures
            final(self).wf(),
            final(self).backends@ == old(self).backends@,
            final(self).journal@ == old(self).journal@,
            final(self).keys@ == old(self).keys@,
            final(self).tokens@ == old(self).tokens@,
            final(self).nodes@ == old(self).nodes@,
            final(self).actions@.len() == old(self).actions@.len(),
            forall|i: int|
                0 <= i < old(self).actions@.len() ==> #[trigger] final(self).actions@[i] == (
                if old(self).actions@[i].action_id == action_id {
                    ActionRow { acked: true, ..old(self).actions@[i] }
                } else {
                    old(self).actions@[i]
                }),
            found == exists|i: int|
                0 <= i < old(self).actions@.len() && (#[trigger] old(
                    self,
                ).actions@[i]).action_id == action_id,
    {
        let ghost old_actions = self.actions@;
        let mut i: usize = 0;
        let mut found = false;
        while i < self.actions.len()
            invariant
                i <= self.actions@.len(),
                self.actions@.len() == old_actions.len(),
                old(self).actions@ == old_actions,
                self.backends@ == old(self).backends@,
                self.journal@ == old(self).journal@,
                self.keys@ == old(self).keys@,
                self.tokens@ == old(self).tokens@,
                self.nodes@ == old(self).nodes@,
                self.next_action == old(self).next_action,
                self.next_fencing == old(self).next_fencing,
                self.next_node == old(self).next_node,
                forall|j: int|
                    0 <= j < self.actions@.len() ==> #[trigger] self.actions@[j] == (
                    if j < i && old_actions[j].action_id == action_id {
                        ActionRow { acked: true, ..old_actions[j] }
                    } else {
                        old_actions[j]
                    }),
                found == exists|j: int|
                    0 <= j < i && (#[trigger] old_actions[j]).action_id == action_id,
            decreases self.actions@.len() - i,
        {
            if self.actions[i].action_id == action_id {
                let a = &self.actions[i];
                let updated = ActionRow {
                    action_id: a.action_id,
                    backend_id: a.backend_id.clone(),
                    drone_id: a.drone_id,
                    is_spawn: a.is_spawn,
                    hard: a.hard,
                    acked: true,
                };
                self.actions.set(i, updated);
                found = true;
                proof {
                    assert(self.actions@[i as int] == ActionRow {
                        acked: true,
                        ..old_actions[i as int]
                    });
                    assert(old_actions[i as int].action_id == action_id);
                }
            }
            i = i + 1;
        }
        proof {
            assert forall|p: int, q: int|
                0 <= p < q < self.actions@.len() && (#[trigger] self.actions@[p]).is_spawn && (
                #[trigger] self.actions@[q]).is_spawn implies self.actions@[p].backend_id@
                != self.actions@[q].backend_id@ by {
                assert(old_actions[p].is_spawn && old_actions[q].is_spawn);
            }
            assert forall|p: int| 0 <= p < self.actions@.len() implies find_by(
                self.backends@,
                backend_key(),
                (#[trigger] self.actions@[p]).backend_id@,
            ) is Some by {
                assert(self.actions@[p].backend_id@ == old_actions[p].backend_id@);
            }
        }
        found
    }

    /// The not-yet-acknowledged outbox rows for one drone, in insertion
    /// order; a reconnecting drone socket redelivers exactly these.
    pub fn pending_actions(&self, drone: NodeId) -> (r: Vec<ActionRow>)
        requires
            self.wf(),
        ensures
            r@ =~= self.actions@.filter(
                |a: ActionRow| a.drone_id == drone && !a.acked,
            ),
    {
        let mut out: Vec<ActionRow> = Vec::new();
        let mut i: usize = 0;
        while i < self.actions.len()
            invariant
                i <= self.actions@.len(),
                out@ =~= self.actions@.take(i as int).filter(
                    |a: ActionRow| a.drone_id == drone && !a.acked,
                ),
            decreases self.actions@.len() - i,
        {
            proof {
                assert(self.actions@.take(i as int + 1) =~= self.actions@.take(i as int).push(
                    self.actions@[i as int],
                ));
                self.actions@.take(i as int).lemma_filter_push(
                    self.actions@[i as int],
                    |a: ActionRow| a.drone_id == drone && !a.acked,
                );
            }
            let a = &self.actions[i];
            if a.drone_id.id == drone.id && !a.acked {
                out.push(
                    ActionRow {
                        action_id: a.action_id,
                        backend_id: a.backend_id.clone(),
                        drone_id: a.drone_id,
                        is_spawn: a.is_spawn,
                        hard: a.hard,
                        acked: a.acked,
                    },
                );
            }
            i = i + 1;
        }
        proof {
            assert(self.actions@.take(self.actions@.len() as int) =~= self.actions@);
        }
        out
    }
}


/// How recent a drone's heartbeat must be for it to receive spawns.
pub const DRONE_LIVENESS_MS: i64 = 30_000;

/// What a client asks the controller to run.
#[derive(Clone, Debug)]
pub struct SpawnConfig {
    /// Opaque executable description (JSON text); only the drone's runtime
    /// knows its shape.
    pub executable: String,
    /// Cap on the backend's total lifetime, in seconds.
    pub lifetime_limit_seconds: Option<i64>,
    /// Idle window after which the backend is swept, in seconds.
    pub max_idle_seconds: Option<i32>,
    /// Whether the bearer token goes on the backend row as a static token.
    pub use_static_token: bool,
    pub subdomain: Option<Subdomain>,
    /// The drone pool to schedule into.
    pub pool: String,
}

/// A connect call: spawn something, join something locked, or both.
#[derive(Clone, Debug)]
pub struct ConnectRequest {
    pub spawn_config: Option<SpawnConfig>,
    pub key: Option<KeyConfig>,
    pub user: Option<String>,
    /// Opaque auth metadata (JSON text).
    pub auth: String,
}

/// What a successful connect hands back.
#[derive(Clone, Debug)]
pub struct ConnectResponse {
    pub backend_id: BackendName,
    /// Whether this call created the backend (false: an existing key
    /// holder was joined).
    pub spawned: bool,
    pub token: BearerToken,
    pub url: String,
    pub secret_token: SecretToken,
    pub status_url: String,
    pub drone: DroneName,
}

/// The randomly generated identifiers a connect call consumes.
#[derive(Clone, Debug)]
pub struct FreshIds {
    pub backend: BackendName,
    pub token: BearerToken,
    pub secret: SecretToken,
}

/// Whether a drone may receive a spawn at `now`: right cluster and pool,
/// ready, not draining, and a heartbeat within the liveness window.
pub open spec fn drone_eligible(
    n: NodeRow,
    cluster: Seq<char>,
    pool: Seq<char>,
    now: TimeMs,
) -> bool {
    &&& n.cluster@ == cluster
    &&& n.pool@ == pool
    &&& n.ready
    &&& !n.draining
    &&& now.ms - n.last_heartbeat.ms <= DRONE_LIVENESS_MS
}

/// Whether a backend row counts against a drone's load.
pub open spec fn counts_against(b: BackendRow, d: NodeId) -> bool {
    b.drone_id == d && status_of(b.state) != BackendStatus::Terminated
}

/// How many live backends a drone carries.
pub open spec fn drone_load(backends: Seq<BackendRow>, d: NodeId) -> int {
    backends.filter(|b: BackendRow| counts_against(b, d)).len() as int
}

/// The URL a backend is reached at.
pub open spec fn spec_backend_url(
    subdomain: Option<Seq<char>>,
    cluster: Seq<char>,
    token: Seq<char>,
) -> Seq<char> {
    "https://"@ + (match subdomain {
        Some(s) => s + "."@,
        None => Seq::<char>::empty(),
    }) + cluster + "/"@ + token + "/"@
}

/// The URL a backend's status is streamed at.
pub open spec fn spec_status_url(base: Seq<char>, cluster: Seq<char>, backend: Seq<char>)
    -> Seq<char> {
    base + "/c/"@ + cluster + "/b/"@ + backend + "/status"@
}

/// The requested subdomain of a connect call.
pub open spec fn requested_subdomain(request: ConnectRequest) -> Option<Seq<char>> {
    match request.spawn_config {
        Some(c) => option_sub_view(c.subdomain),
        None => None,
    }
}

/// Build the URL a backend is reached at.
pub fn build_backend_url(
    subdomain: &Option<Subdomain>,
    cluster: &ClusterName,
    token: &BearerToken,
) -> (r: String)
    ensures
        r@ == spec_backend_url(option_sub_view(*subdomain), cluster@, token@),
{
    let mut url = String::new();
    url.append("https://");
    match subdomain {
        Some(s) => {
            url.append(s.label.as_str());
            url.append(".");
        },
        None => {},
    }
    url.append(cluster.name.as_str());
    url.append("/");
    url.append(token.token.as_str());
    url.append("/");
    url
}

/// Build the URL a backend's status is streamed at.
pub fn build_status_url(base: &str, cluster: &ClusterName, backend: &BackendName) -> (r: String)
    ensures
        r@ == spec_status_url(base@, cluster@, backend@),
{
    let mut url = String::new();
    url.append(base);
    url.append("/c/");
    url.append(cluster.name.as_str());
    url.append("/b/");
    url.append(backend.name.as_str());
    url.append("/status");
    url
}

impl ControllerState {
    /// The live-backend count of one drone.
    fn count_live_on(&self, d: NodeId) -> (r: usize)
        ensures
            r == drone_load(self.backends@, d),
    {
        let mut count: usize = 0;
        let mut i: usize = 0;
        while i < self.backends.len()
            invariant
                i <= self.backends@.len(),
                count == self.backends@.take(i as int).filter(
                    |b: BackendRow| counts_against(b, d),
                ).len(),
                count <= i,
            decreases self.backends@.len() - i,
        {
            proof {
                assert(self.backends@.take(i as int + 1) =~= self.backends@.take(i as int).push(
                    self.backends@[i as int],
                ));
                self.backends@.take(i as int).lemma_filter_push(
                    self.backends@[i as int],
                    |b: BackendRow| counts_against(b, d),
                );
            }
            let b = &self.backends[i];
            if b.drone_id.id == d.id && !b.state.is_terminated() {
                count = count + 1;
            }
            i = i + 1;
        }
        proof {
            assert(self.backends@.take(self.backends@.len() as int) =~= self.backends@);
        }
        count
    }

    /// Choose the drone a new backend goes to: among the eligible drones of
    /// the cluster and pool, the one with the fewest live backends, ties
    /// broken by the oldest heartbeat.
    fn choose_drone(&self, cluster: &ClusterName, pool: &String, now: TimeMs) -> (r: Option<
        usize,
    >)
        ensures
            match r {
                None => forall|j: int|
                    0 <= j < self.nodes@.len() ==> !drone_eligible(
                        #[trigger] self.nodes@[j],
                        cluster@,
                        pool@,
                        now,
                    ),
                Some(i) => {
                    &&& i < self.nodes@.len()
                    &&& drone_eligible(self.nodes@[i as int], cluster@, pool@, now)
                    &&& forall|j: int|
                        0 <= j < self.nodes@.len() && drone_eligible(
                            #[trigger] self.nodes@[j],
                            cluster@,
                            pool@,
                            now,
                        ) ==> (drone_load(self.backends@, self.nodes@[i as int].id) < drone_load(
                            self.backends@,
                            self.nodes@[j].id,
                        ) || (drone_load(self.backends@, self.nodes@[i as int].id) == drone_load(
                            self.backends@,
                            self.nodes@[j].id,
                        ) && self.nodes@[i as int].last_heartbeat.ms <= self.nodes@[j].last_heartbeat.ms))
                },
            },
    {
        let mut best: Option<usize> = None;
        let mut best_load: usize = 0;
        let mut i: usize = 0;
        while i < self.nodes.len()
            invariant
                i <= self.nodes@.len(),
                match best {
                    None => forall|j: int|
                        0 <= j < i ==> !drone_eligible(
                            #[trigger] self.nodes@[j],
                            cluster@,
                            pool@,
                            now,
                        ),
                    Some(b) => {
                        &&& b < i
                        &&& i <= self.nodes@.len()
                        &&& drone_eligible(self.nodes@[b as int], cluster@, pool@, now)
                        &&& best_load == drone_load(self.backends@, self.nodes@[b as int].id)
                        &&& forall|j: int|
                            0 <= j < i && drone_eligible(
                                #[trigger] self.nodes@[j],
                                cluster@,
                                pool@,
                                now,
                            ) ==> (drone_load(self.backends@, self.nodes@[b as int].id)
                                < drone_load(self.backends@, self.nodes@[j].id) || (drone_load(
                                self.backends@,
                                self.nodes@[b as int].id,
                            ) == drone_load(self.backends@, self.nodes@[j].id)
                                && self.nodes@[b as int].last_heartbeat.ms
                                <= self.nodes@[j].last_heartbeat.ms))
                    },
                },
            decreases self.nodes@.len() - i,
        {
            let n = &self.nodes[i];
            let eligible = n.cluster.name == cluster.name && n.pool == *pool && n.ready
                && !n.draining && (now.ms as i128) - (n.last_heartbeat.ms as i128)
                <= DRONE_LIVENESS_MS as i128;
            if eligible {
                let load = self.count_live_on(n.id);
                match best {
                    None => {
                        best = Some(i);
                        best_load = load;
                    },
                    Some(b) => {
                        let better = load < best_load || (load == best_load
                            && n.last_heartbeat.ms < self.nodes[b].last_heartbeat.ms);
                        if better {
                            best = Some(i);
                            best_load = load;
                        }
                    },
                }
            }
            i = i + 1;
        }
        best
    }
}


/// Whether a key holder's row forbids joining it.
pub open spec fn holder_terminating(hrow: BackendRow) -> bool {
    hrow.last_status == BackendStatus::Terminating || hrow.last_status
        == BackendStatus::HardTerminating
}

/// Whether a key holder is unhealthy: it reports ready but its keep-alive
/// is stale.
pub open spec fn holder_unhealthy(hrow: BackendRow, now: TimeMs) -> bool {
    hrow.last_status == BackendStatus::Ready && now.ms - hrow.last_keepalive.ms
        > KEEPALIVE_STALE_MS
}

/// The key row a connect call would join, if any.
pub open spec fn key_holder_of(
    keys: Seq<KeyRow>,
    cluster: Seq<char>,
    request: ConnectRequest,
) -> Option<KeyRow> {
    match request.key {
        Some(k) => find_by(keys, key_key(), (cluster, k@)),
        None => None,
    }
}

/// The backend row a fresh spawn inserts.
pub open spec fn new_backend_row(
    fresh: FreshIds,
    cluster: ClusterName,
    cfg: SpawnConfig,
    drone: NodeId,
    now: TimeMs,
) -> BackendRow {
    BackendRow {
        id: fresh.backend,
        cluster,
        drone_id: drone,
        state: BackendState::Scheduled,
        last_status: BackendStatus::Scheduled,
        last_status_number: 1,
        last_status_time: now,
        cluster_address: None,
        last_keepalive: now,
        expiration_time: match cfg.lifetime_limit_seconds {
            Some(l) => Some(TimeMs { ms: (now.ms + l * 1000) as i64 }),
            None => None,
        },
        allowed_idle_seconds: cfg.max_idle_seconds,
        static_token: if cfg.use_static_token {
            Some(fresh.token)
        } else {
            None
        },
        subdomain: cfg.subdomain,
    }
}


/// Everything [`ControllerState::connect`] promises, as a relation between
/// the state before the call, the state after it, and the result. The
/// eviction-handling wrapper reuses it to describe its two chained calls.
pub open spec fn connect_post(
    pre: ControllerState,
    post: ControllerState,
    cluster: ClusterName,
    request: ConnectRequest,
    fresh: FreshIds,
    base_url: Seq<char>,
    now: TimeMs,
    r: Result<ConnectResponse, crate::protocol::ApiErrorKind>,
) -> bool {
    &&& post.wf()
    &&& r is Err ==> post == pre
    &&& (r matches Ok(resp) && !resp.spawned) ==> post == pre
    &&& (r matches Ok(resp) && resp.spawned) ==> {
        &&& post.nodes@ == pre.nodes@
        &&& post.next_node == pre.next_node
        &&& post.next_action == pre.next_action + 1
        &&& post.next_fencing == pre.next_fencing + (if request.key is Some {
            1int
        } else {
            0int
        })
    }
    &&& match key_holder_of(pre.keys@, cluster@, request) {
                Some(kr) => {
                    let hrow = find_by(pre.backends@, backend_key(), kr.backend_id@)->Some_0;
                    if holder_terminating(hrow) {
                        r == Err::<ConnectResponse, crate::protocol::ApiErrorKind>(
                            crate::protocol::ApiErrorKind::KeyHeld,
                        )
                    } else if holder_unhealthy(hrow, now) {
                        r == Err::<ConnectResponse, crate::protocol::ApiErrorKind>(
                            crate::protocol::ApiErrorKind::KeyHeldUnhealthy,
                        )
                    } else if option_sub_view(hrow.subdomain) != requested_subdomain(request) {
                        r == Err::<ConnectResponse, crate::protocol::ApiErrorKind>(
                            crate::protocol::ApiErrorKind::KeyHeld,
                        )
                    } else {
                        match find_by(pre.nodes@, node_key(), hrow.drone_id.id) {
                            None => r == Err::<ConnectResponse, crate::protocol::ApiErrorKind>(
                                crate::protocol::ApiErrorKind::Other,
                            ),
                            Some(n) => match hrow.static_token {
                                Some(t) => r matches Ok(resp) && resp.backend_id@ == hrow.id@
                                    && !resp.spawned && resp.token@ == t@ && resp.drone@ == n.name@
                                    && resp.url@ == spec_backend_url(
                                    option_sub_view(hrow.subdomain),
                                    hrow.cluster@,
                                    t@,
                                ) && resp.status_url@ == spec_status_url(
                                    base_url,
                                    hrow.cluster@,
                                    hrow.id@,
                                ),
                                None => match find_where(
                                    pre.tokens@,
                                    |tk: TokenRow| tk.backend_id@ == kr.backend_id@,
                                ) {
                                    Some(tk) => r matches Ok(resp) && resp.backend_id@ == hrow.id@
                                        && !resp.spawned && resp.token@ == tk.token@
                                        && resp.secret_token@ == tk.secret_token@ && resp.drone@
                                        == n.name@ && resp.url@ == spec_backend_url(
                                        option_sub_view(hrow.subdomain),
                                        hrow.cluster@,
                                        tk.token@,
                                    ) && resp.status_url@ == spec_status_url(
                                        base_url,
                                        hrow.cluster@,
                                        hrow.id@,
                                    ),
                                    None => r == Err::<
                                        ConnectResponse,
                                        crate::protocol::ApiErrorKind,
                                    >(crate::protocol::ApiErrorKind::Other),
                                },
                            },
                        }
                    }
                },
                None => match request.spawn_config {
                    None => r == Err::<ConnectResponse, crate::protocol::ApiErrorKind>(
                        crate::protocol::ApiErrorKind::KeyUnheldNoSpawnConfig,
                    ),
                    Some(cfg) => {
                        if pre.backend_of(fresh.backend@) is Some {
                            r == Err::<ConnectResponse, crate::protocol::ApiErrorKind>(
                                crate::protocol::ApiErrorKind::Other,
                            )
                        } else if !cfg.use_static_token && pre.token_of(fresh.token@)
                            is Some {
                            r == Err::<ConnectResponse, crate::protocol::ApiErrorKind>(
                                crate::protocol::ApiErrorKind::Other,
                            )
                        } else if (forall|j: int|
                            0 <= j < pre.nodes@.len() ==> !drone_eligible(
                                #[trigger] pre.nodes@[j],
                                cluster@,
                                cfg.pool@,
                                now,
                            )) {
                            r == Err::<ConnectResponse, crate::protocol::ApiErrorKind>(
                                crate::protocol::ApiErrorKind::NoDroneAvailable,
                            )
                        } else {
                            r matches Ok(resp) && {
                                &&& resp.spawned
                                &&& resp.backend_id@ == fresh.backend@
                                &&& resp.token@ == fresh.token@
                                &&& resp.secret_token@ == fresh.secret@
                                &&& resp.url@ == spec_backend_url(
                                    option_sub_view(cfg.subdomain),
                                    cluster@,
                                    fresh.token@,
                                )
                                &&& resp.status_url@ == spec_status_url(
                                    base_url,
                                    cluster@,
                                    fresh.backend@,
                                )
                                &&& exists|i: int|
                                    0 <= i < pre.nodes@.len() && (#[trigger] pre.nodes@[i]).name@
                                        == resp.drone@ && drone_eligible(
                                        pre.nodes@[i],
                                        cluster@,
                                        cfg.pool@,
                                        now,
                                    ) && post.backend_of(fresh.backend@) == Some(
                                        new_backend_row(
                                            fresh,
                                            cluster,
                                            cfg,
                                            pre.nodes@[i].id,
                                            now,
                                        ),
                                    ) && (forall|j: int|
                                        0 <= j < pre.nodes@.len() && drone_eligible(
                                            #[trigger] pre.nodes@[j],
                                            cluster@,
                                            cfg.pool@,
                                            now,
                                        ) ==> (drone_load(
                                            pre.backends@,
                                            pre.nodes@[i].id,
                                        ) < drone_load(pre.backends@, pre.nodes@[j].id)
                                            || (drone_load(
                                            pre.backends@,
                                            pre.nodes@[i].id,
                                        ) == drone_load(
                                            pre.backends@,
                                            pre.nodes@[j].id,
                                        ) && pre.nodes@[i].last_heartbeat.ms
                                            <= pre.nodes@[j].last_heartbeat.ms)))
                                &&& forall|other: Seq<char>|
                                    other != fresh.backend@ ==> #[trigger] post.backend_of(
                                        other,
                                    ) == pre.backend_of(other)
                                &&& post.journal@ =~= pre.journal@.push(
                                    (fresh.backend, BackendState::Scheduled),
                                )
                                &&& (match request.key {
                                    Some(k) => post.keys@.len() == pre.keys@.len() + 1
                                        && post.keys@.last() == (KeyRow {
                                        backend_id: fresh.backend,
                                        cluster: cluster,
                                        key: k,
                                        fencing_token: pre.next_fencing,
                                        deadlines: spec_deadlines_at(now),
                                        expires_at: spec_deadlines_at(now).hard_terminate_at,
                                    }) && post.keys@.take(pre.keys@.len() as int)
                                        =~= pre.keys@,
                                    None => post.keys@ == pre.keys@,
                                })
                                &&& (if cfg.use_static_token {
                                    post.tokens@ == pre.tokens@
                                } else {
                                    post.tokens@.len() == pre.tokens@.len() + 1
                                        && post.tokens@.last().token@ == fresh.token@
                                        && post.tokens@.last().backend_id@ == fresh.backend@
                                        && post.tokens@.last().secret_token@
                                        == fresh.secret@ && post.tokens@.take(
                                        pre.tokens@.len() as int,
                                    ) =~= pre.tokens@
                                })
                                &&& post.actions@.len() == pre.actions@.len() + 1
                                &&& post.actions@.last() == (ActionRow {
                                    action_id: pre.next_action,
                                    backend_id: fresh.backend,
                                    drone_id: post.backend_of(
                                        fresh.backend@,
                                    )->Some_0.drone_id,
                                    is_spawn: true,
                                    hard: false,
                                    acked: false,
                                })
                                &&& post.actions@.take(pre.actions@.len() as int)
                                    =~= pre.actions@
                            }
                        }
                    },
                },
            }
}


/// Whether a connect call finds the key held by an unhealthy (ready but
/// keep-alive-stale), non-terminating backend -- the one case the
/// eviction-handling wrapper resolves by releasing the key.
pub open spec fn connect_finds_unhealthy_holder(
    pre: ControllerState,
    cluster: ClusterName,
    request: ConnectRequest,
    now: TimeMs,
) -> bool {
    match key_holder_of(pre.keys@, cluster@, request) {
        Some(kr) => {
            let hrow = find_by(pre.backends@, backend_key(), kr.backend_id@)->Some_0;
            !holder_terminating(hrow) && holder_unhealthy(hrow, now)
        },
        None => false,
    }
}

/// Everything releasing an unhealthy holder's key row changes: the row
/// for the lock identity is gone, one hard-terminate action for the old
/// holder `kr` is queued, and nothing else moves.
pub open spec fn evict_post(
    pre: ControllerState,
    post: ControllerState,
    cluster: ClusterName,
    key: KeyConfig,
    kr: KeyRow,
) -> bool {
    &&& post.wf()
    &&& post.backends@ == pre.backends@
    &&& post.journal@ == pre.journal@
    &&& post.tokens@ == pre.tokens@
    &&& post.nodes@ == pre.nodes@
    &&& post.next_action == pre.next_action + 1
    &&& post.next_fencing == pre.next_fencing
    &&& post.next_node == pre.next_node
    &&& post.keys@ =~= pre.keys@.filter(
        |k: KeyRow| !(k.cluster@ == cluster@ && k.key@ == key@),
    )
    &&& post.key_of(cluster@, key@) is None
    &&& post.actions@.len() == pre.actions@.len() + 1
    &&& post.actions@.take(pre.actions@.len() as int) =~= pre.actions@
    &&& post.actions@.last().backend_id@ == kr.backend_id@
    &&& !post.actions@.last().is_spawn
    &&& post.actions@.last().hard
}

/// Whether two optional subdomains agree.
fn subdomains_match(a: &Option<Subdomain>, b: &Option<Subdomain>) -> (r: bool)
    ensures
        r == (option_sub_view(*a) == option_sub_view(*b)),
{
    match (a, b) {
        (Some(x), Some(y)) => x.label == y.label,
        (None, None) => true,
        _ => false,
    }
}

impl ControllerState {
    /// The index of a node row.
    fn find_node_index(&self, id: NodeId) -> (r: Option<usize>)
        ensures
            match r {
                Some(i) => i < self.nodes@.len() && self.nodes@[i as int].id == id && find_by(
                    self.nodes@,
                    node_key(),
                    id.id,
                ) == Some(self.nodes@[i as int]),
                None => find_by(self.nodes@, node_key(), id.id) is None,
            },
    {
        let mut i: usize = 0;
        while i < self.nodes.len()
            invariant
                i <= self.nodes@.len(),
                forall|j: int| 0 <= j < i ==> (#[trigger] self.nodes@[j]).id.id != id.id,
            decreases self.nodes@.len() - i,
        {
            if self.nodes[i].id.id == id.id {
                proof {
                    crate::table::lemma_find_at(self.nodes@, node_key(), i as int);
                }
                return Some(i);
            }
            i = i + 1;
        }
        proof {
            lemma_find_none(self.nodes@, node_key(), id.id);
        }
        None
    }

    /// Resolve a connect call against the authoritative state.
    ///
    /// With a key config, an existing healthy, non-terminating holder with
    /// the same subdomain is joined and its token returned; a terminating
    /// or incompatible holder is `KeyHeld`; a ready holder with a stale
    /// keep-alive is `KeyHeldUnhealthy` (release it with
    /// [`Self::evict_key_holder`] and call again). Otherwise a backend is
    /// created on the least-loaded eligible drone: its row starts
    /// `Scheduled`, the key (if any) is acquired with a fresh fencing
    /// token, the bearer token is stored (on the row when static, as a
    /// token row otherwise) and a spawn action is queued. No state changes
    /// on any error.
    pub fn connect(
        &mut self,
        cluster: &ClusterName,
        request: &ConnectRequest,
        fresh: &FreshIds,
        base_url: &str,
        now: TimeMs,
    ) -> (r: Result<ConnectResponse, crate::protocol::ApiErrorKind>)
        requires
            old(self).wf(),
            old(self).next_action < i64::MAX,
            old(self).next_fencing < i64::MAX,
            now.ms + KEY_HARD_TERMINATE_AFTER_MS <= i64::MAX,
            match request.spawn_config {
                Some(c) => match c.lifetime_limit_seconds {
                    Some(l) => 0 <= l <= 0x7fff_ffff && i64::MIN <= now.ms + l * 1000 <= i64::MAX,
                    None => true,
                },
                None => true,
            },
        ensures
            connect_post(
                *old(self),
                *final(self),
                *cluster,
                *request,
                *fresh,
                base_url@,
                now,
                r,
            ),
    {
        // Key handling: join, refuse, or fall through to acquire.
        if let Some(k) = &request.key {
            let holder = self.find_key_index(cluster, k);
            if let Some(ki) = holder {
                let hb_name = self.keys[ki].backend_id.clone();
                let Some(bi) = self.find_backend_index(&hb_name) else {
                    proof {
                        assert(false);
                    }
                    return Err(crate::protocol::ApiErrorKind::Other);
                };
                let hrow = &self.backends[bi];
                if matches!(
                    hrow.last_status,
                    BackendStatus::Terminating | BackendStatus::HardTerminating
                ) {
                    return Err(crate::protocol::ApiErrorKind::KeyHeld);
                }
                let stale = matches!(hrow.last_status, BackendStatus::Ready) && (now.ms as i128)
                    - (hrow.last_keepalive.ms as i128) > KEEPALIVE_STALE_MS as i128;
                if stale {
                    return Err(crate::protocol::ApiErrorKind::KeyHeldUnhealthy);
                }
                let req_sub = match &request.spawn_config {
                    Some(c) => match &c.subdomain {
                        Some(sd) => Some(sd.clone()),
                        None => None,
                    },
                    None => None,
                };
                if !subdomains_match(&hrow.subdomain, &req_sub) {
                    return Err(crate::protocol::ApiErrorKind::KeyHeld);
                }
                // Join the holder: return its token.
                let Some(ni) = self.find_node_index(hrow.drone_id) else {
                    return Err(crate::protocol::ApiErrorKind::Other);
                };
                let drone = self.nodes[ni].name.clone();
                match &hrow.static_token {
                    Some(t) => {
                        let url = build_backend_url(&hrow.subdomain, &hrow.cluster, t);
                        let status_url = build_status_url(base_url, &hrow.cluster, &hrow.id);
                        return Ok(
                            ConnectResponse {
                                backend_id: hrow.id.clone(),
                                spawned: false,
                                token: t.clone(),
                                url,
                                secret_token: SecretToken { token: String::new() },
                                status_url,
                                drone,
                            },
                        );
                    },
                    None => {
                        let Some(ti) = self.find_token_for_backend(&hb_name) else {
                            return Err(crate::protocol::ApiErrorKind::Other);
                        };
                        let tk = &self.tokens[ti];
                        let url = build_backend_url(&hrow.subdomain, &hrow.cluster, &tk.token);
                        let status_url = build_status_url(base_url, &hrow.cluster, &hrow.id);
                        return Ok(
                            ConnectResponse {
                                backend_id: hrow.id.clone(),
                                spawned: false,
                                token: tk.token.clone(),
                                url,
                                secret_token: tk.secret_token.clone(),
                                status_url,
                                drone,
                            },
                        );
                    },
                }
            }
        }

        // Acquire-and-spawn path.
        let Some(cfg) = &request.spawn_config else {
            return Err(crate::protocol::ApiErrorKind::KeyUnheldNoSpawnConfig);
        };
        if self.find_backend_index(&fresh.backend).is_some() {
            return Err(crate::protocol::ApiErrorKind::Other);
        }
        if !cfg.use_static_token && self.find_token_index(&fresh.token).is_some() {
            return Err(crate::protocol::ApiErrorKind::Other);
        }
        let Some(ni) = self.choose_drone(cluster, &cfg.pool, now) else {
            return Err(crate::protocol::ApiErrorKind::NoDroneAvailable);
        };
        let drone_id = self.nodes[ni].id;
        let drone_name = self.nodes[ni].name.clone();

        let ghost old_backends = self.backends@;
        let ghost old_journal = self.journal@;
        let ghost old_keys = self.keys@;
        let ghost old_tokens = self.tokens@;
        let ghost old_actions = self.actions@;

        let row = BackendRow {
            id: fresh.backend.clone(),
            cluster: cluster.clone(),
            drone_id,
            state: BackendState::Scheduled,
            last_status: BackendStatus::Scheduled,
            last_status_number: 1,
            last_status_time: now,
            cluster_address: None,
            last_keepalive: now,
            expiration_time: match cfg.lifetime_limit_seconds {
                Some(l) => Some(TimeMs { ms: now.ms + (l as i64) * 1000 }),
                None => None,
            },
            allowed_idle_seconds: cfg.max_idle_seconds,
            static_token: if cfg.use_static_token {
                Some(fresh.token.clone())
            } else {
                None
            },
            subdomain: match &cfg.subdomain {
                Some(sd) => Some(sd.clone()),
                None => None,
            },
        };
        proof {
            assert(row == new_backend_row(*fresh, *cluster, *cfg, drone_id, now));
            assert forall|j: int| 0 <= j < old_backends.len() implies backend_key()(
                #[trigger] old_backends[j],
            ) != fresh.backend@ by {
                lemma_find_unique_at(old_backends, backend_key(), j);
            }
        }
        self.backends.push(row);
        proof {
            lemma_find_push(old_backends, backend_key(), self.backends@.last());
        }

        self.journal.push((fresh.backend.clone(), BackendState::Scheduled));
        proof {
            lemma_connect_journal(
                old_journal,
                old_backends,
                self.backends@,
                self.journal@,
                fresh.backend@,
            );
        }

        if let Some(k) = &request.key {
            proof {
                assert forall|j: int| 0 <= j < old_keys.len() implies key_key()(
                    #[trigger] old_keys[j],
                ) != (cluster@, k@) by {
                    lemma_find_unique_at(old_keys, key_key(), j);
                }
            }
            let d = deadlines_at(now);
            self.keys.push(
                KeyRow {
                    backend_id: fresh.backend.clone(),
                    cluster: cluster.clone(),
                    key: k.clone(),
                    fencing_token: self.next_fencing,
                    deadlines: d,
                    expires_at: d.hard_terminate_at,
                },
            );
            self.next_fencing = self.next_fencing + 1;
            proof {
                lemma_find_push(old_keys, key_key(), self.keys@.last());
            }
        }

        if !cfg.use_static_token {
            proof {
                assert forall|j: int| 0 <= j < old_tokens.len() implies token_key()(
                    #[trigger] old_tokens[j],
                ) != fresh.token@ by {
                    lemma_find_unique_at(old_tokens, token_key(), j);
                }
            }
            self.tokens.push(
                TokenRow {
                    token: fresh.token.clone(),
                    backend_id: fresh.backend.clone(),
                    username: match &request.user {
                        Some(u) => Some(u.clone()),
                        None => None,
                    },
                    auth: request.auth.clone(),
                    secret_token: fresh.secret.clone(),
                },
            );
            proof {
                lemma_find_push(old_tokens, token_key(), self.tokens@.last());
            }
        }

        let action_id = self.next_action;
        self.actions.push(
            ActionRow {
                action_id,
                backend_id: fresh.backend.clone(),
                drone_id,
                is_spawn: true,
                hard: false,
                acked: false,
            },
        );
        self.next_action = self.next_action + 1;

        proof {
            lemma_connect_wf(
                old_backends,
                self.backends@,
                old_journal,
                self.journal@,
                old_keys,
                self.keys@,
                old_tokens,
                self.tokens@,
                old_actions,
                self.actions@,
                fresh.backend@,
            );
        }

        let url = build_backend_url(&cfg.subdomain, cluster, &fresh.token);
        let status_url = build_status_url(base_url, cluster, &fresh.backend);
        Ok(
            ConnectResponse {
                backend_id: fresh.backend.clone(),
                spawned: true,
                token: fresh.token.clone(),
                url,
                secret_token: fresh.secret.clone(),
                status_url,
                drone: drone_name,
            },
        )
    }

    /// The index of the key row for a lock identity.
    fn find_key_index(&self, cluster: &ClusterName, key: &KeyConfig) -> (r: Option<usize>)
        ensures
            match r {
                Some(i) => i < self.keys@.len() && find_by(
                    self.keys@,
                    key_key(),
                    (cluster@, key@),
                ) == Some(self.keys@[i as int]),
                None => find_by(self.keys@, key_key(), (cluster@, key@)) is None,
            },
    {
        let mut i: usize = 0;
        while i < self.keys.len()
            invariant
                i <= self.keys@.len(),
                forall|j: int|
                    0 <= j < i ==> key_key()(#[trigger] self.keys@[j]) != (cluster@, key@),
            decreases self.keys@.len() - i,
        {
            let k = &self.keys[i];
            if k.cluster.name == cluster.name && k.key.name == key.name && k.key.namespace
                == key.namespace && k.key.tag == key.tag {
                proof {
                    assert(key_key()(self.keys@[i as int]) == (cluster@, key@));
                    crate::table::lemma_find_at(self.keys@, key_key(), i as int);
                }
                return Some(i);
            }
            proof {
                assert(key_key()(self.keys@[i as int]) != (cluster@, key@));
            }
            i = i + 1;
        }
        proof {
            lemma_find_none(self.keys@, key_key(), (cluster@, key@));
        }
        None
    }

    /// The index of the first token row for a backend.
    fn find_token_for_backend(&self, backend: &BackendName) -> (r: Option<usize>)
        ensures
            match r {
                Some(i) => i < self.tokens@.len() && find_where(
                    self.tokens@,
                    |tk: TokenRow| tk.backend_id@ == backend@,
                ) == Some(self.tokens@[i as int]),
                None => find_where(
                    self.tokens@,
                    |tk: TokenRow| tk.backend_id@ == backend@,
                ) is None,
            },
    {
        let mut i: usize = 0;
        while i < self.tokens.len()
            invariant
                i <= self.tokens@.len(),
                forall|j: int| 0 <= j < i ==> (#[trigger] self.tokens@[j]).backend_id@ != backend@,
            decreases self.tokens@.len() - i,
        {
            if self.tokens[i].backend_id.name == backend.name {
                proof {
                    let pred = |tk: TokenRow| tk.backend_id@ == backend@;
                    assert(pred(self.tokens@[i as int]));
                    assert forall|j: int| 0 <= j < i implies !pred(
                        #[trigger] self.tokens@[j],
                    ) by {}
                    crate::table::lemma_find_where_at(self.tokens@, pred, i as int);
                }
                return Some(i);
            }
            i = i + 1;
        }
        proof {
            let pred = |tk: TokenRow| tk.backend_id@ == backend@;
            assert forall|j: int| 0 <= j < self.tokens@.len() implies !pred(
                #[trigger] self.tokens@[j],
            ) by {}
            crate::table::lemma_find_where_none(self.tokens@, pred);
        }
        None
    }

    /// The index of a token row by its bearer token.
    fn find_token_index(&self, token: &BearerToken) -> (r: Option<usize>)
        ensures
            match r {
                Some(i) => i < self.tokens@.len() && self.token_of(token@) == Some(
                    self.tokens@[i as int],
                ),
                None => self.token_of(token@) is None,
            },
    {
        let mut i: usize = 0;
        while i < self.tokens.len()
            invariant
                i <= self.tokens@.len(),
                forall|j: int| 0 <= j < i ==> (#[trigger] self.tokens@[j]).token@ != token@,
            decreases self.tokens@.len() - i,
        {
            if self.tokens[i].token.token == token.token {
                proof {
                    crate::table::lemma_find_at(self.tokens@, token_key(), i as int);
                }
                return Some(i);
            }
            i = i + 1;
        }
        proof {
            lemma_find_none(self.tokens@, token_key(), token@);
        }
        None
    }
}

/// The journal facts a connect insert needs: pushing a `Scheduled` entry
/// for a backend name that had no row keeps the journal ordered, below the
/// rows, and address-consistent.
proof fn lemma_connect_journal(
    journal: Seq<(BackendName, BackendState)>,
    rows: Seq<BackendRow>,
    updated_rows: Seq<BackendRow>,
    updated_journal: Seq<(BackendName, BackendState)>,
    fresh: Seq<char>,
)
    requires
        journal_ordered(journal),
        journal_below(journal, rows),
        find_by(rows, backend_key(), fresh) is None,
        updated_rows.len() == rows.len() + 1,
        updated_rows.last().id@ == fresh,
        updated_rows.last().last_status_number == 1,
        find_by(updated_rows, backend_key(), fresh) == Some(updated_rows.last()),
        forall|other: Seq<char>|
            other != fresh ==> #[trigger] find_by(updated_rows, backend_key(), other) == find_by(
                rows,
                backend_key(),
                other,
            ),
        updated_journal == journal.push((updated_rows.last().id, BackendState::Scheduled)),
    ensures
        journal_ordered(updated_journal),
        journal_below(updated_journal, updated_rows),
        forall|x: Seq<char>|
            #[trigger] has_ready_entry(updated_journal, x) == has_ready_entry(journal, x),
{
    assert forall|i: int| 0 <= i < journal.len() implies (#[trigger] journal[i]).0@ != fresh by {
        if journal[i].0@ == fresh {
            assert(find_by(rows, backend_key(), journal[i].0@) is Some);
        }
    }
    assert forall|i: int, j: int|
        0 <= i < j < updated_journal.len() && (#[trigger] updated_journal[i]).0@ == (
        #[trigger] updated_journal[j]).0@ implies status_rank(status_of(updated_journal[i].1))
        < status_rank(status_of(updated_journal[j].1)) by {
        if j < journal.len() {
            assert(updated_journal[i] == journal[i]);
            assert(updated_journal[j] == journal[j]);
        } else {
            assert(updated_journal[i] == journal[i]);
            assert(journal[i].0@ != fresh);
        }
    }
    assert forall|i: int| 0 <= i < updated_journal.len() implies match find_by(
        updated_rows,
        backend_key(),
        (#[trigger] updated_journal[i]).0@,
    ) {
        Some(r) => status_rank(status_of(updated_journal[i].1)) <= r.last_status_number as int,
        None => false,
    } by {
        if i < journal.len() {
            assert(updated_journal[i] == journal[i]);
            assert(journal[i].0@ != fresh);
            assert(find_by(updated_rows, backend_key(), journal[i].0@) == find_by(
                rows,
                backend_key(),
                journal[i].0@,
            ));
        } else {
            assert(updated_journal[i] == (updated_rows.last().id, BackendState::Scheduled));
        }
    }
    assert forall|x: Seq<char>| #[trigger]
    has_ready_entry(updated_journal, x) == has_ready_entry(journal, x) by {
        if has_ready_entry(journal, x) {
            let w = choose|w: int|
                0 <= w < journal.len() && (#[trigger] journal[w]).0@ == x && status_of(
                    journal[w].1,
                ) == BackendStatus::Ready;
            assert(updated_journal[w] == journal[w]);
        }
        if has_ready_entry(updated_journal, x) {
            let w = choose|w: int|
                0 <= w < updated_journal.len() && (#[trigger] updated_journal[w]).0@ == x
                    && status_of(updated_journal[w].1) == BackendStatus::Ready;
            assert(w < journal.len());
        }
    }
}

/// Connect's remaining well-formedness obligations after all inserts.
#[verifier::rlimit(30)]
proof fn lemma_connect_wf(
    old_backends: Seq<BackendRow>,
    backends: Seq<BackendRow>,
    old_journal: Seq<(BackendName, BackendState)>,
    journal: Seq<(BackendName, BackendState)>,
    old_keys: Seq<KeyRow>,
    keys: Seq<KeyRow>,
    old_tokens: Seq<TokenRow>,
    tokens: Seq<TokenRow>,
    old_actions: Seq<ActionRow>,
    actions: Seq<ActionRow>,
    fresh: Seq<char>,
)
    requires
        addresses_consistent(old_backends, old_journal),
        journal_below(old_journal, old_backends),
        keys_live(old_keys, old_backends),
        at_most_one_spawn(old_actions),
        actions_ref_backends(old_actions, old_backends),
        tokens_ref_backends(old_tokens, old_backends),
        find_by(old_backends, backend_key(), fresh) is None,
        backends.len() == old_backends.len() + 1,
        forall|j: int| 0 <= j < old_backends.len() ==> backends[j] == old_backends[j],
        backends.last().id@ == fresh,
        backends.last().cluster_address is None,
        status_of(backends.last().state) == BackendStatus::Scheduled,
        find_by(backends, backend_key(), fresh) == Some(backends.last()),
        forall|other: Seq<char>|
            other != fresh ==> #[trigger] find_by(backends, backend_key(), other) == find_by(
                old_backends,
                backend_key(),
                other,
            ),
        forall|x: Seq<char>|
            #[trigger] has_ready_entry(journal, x) == has_ready_entry(old_journal, x),
        keys.len() == old_keys.len() || keys.len() == old_keys.len() + 1,
        forall|j: int| 0 <= j < old_keys.len() ==> keys[j] == old_keys[j],
        keys.len() == old_keys.len() + 1 ==> keys.last().backend_id@ == fresh,
        tokens.len() == old_tokens.len() || tokens.len() == old_tokens.len() + 1,
        forall|j: int| 0 <= j < old_tokens.len() ==> tokens[j] == old_tokens[j],
        tokens.len() == old_tokens.len() + 1 ==> tokens.last().backend_id@ == fresh,
        actions == old_actions.push(
            ActionRow {
                action_id: actions.last().action_id,
                backend_id: actions.last().backend_id,
                drone_id: actions.last().drone_id,
                is_spawn: true,
                hard: false,
                acked: false,
            },
        ),
        actions.last().backend_id@ == fresh,
    ensures
        addresses_consistent(backends, journal),
        keys_live(keys, backends),
        at_most_one_spawn(actions),
        actions_ref_backends(actions, backends),
        tokens_ref_backends(tokens, backends),
{
    assert forall|i: int| 0 <= i < backends.len() implies ((
    #[trigger] backends[i]).cluster_address is Some <==> has_ready_entry(
        journal,
        backends[i].id@,
    )) by {
        if i < old_backends.len() {
            assert(backends[i] == old_backends[i]);
            assert(old_backends[i].cluster_address is Some <==> has_ready_entry(
                old_journal,
                old_backends[i].id@,
            ));
            assert(has_ready_entry(journal, backends[i].id@) == has_ready_entry(
                old_journal,
                backends[i].id@,
            ));
        } else {
            assert(backends[i] == backends.last());
            assert(has_ready_entry(journal, fresh) == has_ready_entry(old_journal, fresh));
            if has_ready_entry(old_journal, fresh) {
                let w = choose|w: int|
                    0 <= w < old_journal.len() && (#[trigger] old_journal[w]).0@ == fresh
                        && status_of(old_journal[w].1) == BackendStatus::Ready;
                assert(find_by(old_backends, backend_key(), fresh) is None);
                assert(false) by {
                    assert(match find_by(old_backends, backend_key(), old_journal[w].0@) {
                        Some(r) => status_rank(status_of(old_journal[w].1))
                            <= r.last_status_number as int,
                        None => false,
                    });
                }
            }
        }
    }
    assert forall|i: int| 0 <= i < keys.len() implies match find_by(
        backends,
        backend_key(),
        (#[trigger] keys[i]).backend_id@,
    ) {
        Some(r) => status_of(r.state) != BackendStatus::Terminated,
        None => false,
    } by {
        if i < old_keys.len() {
            assert(keys[i] == old_keys[i]);
            assert(match find_by(old_backends, backend_key(), old_keys[i].backend_id@) {
                Some(r) => status_of(r.state) != BackendStatus::Terminated,
                None => false,
            });
            if old_keys[i].backend_id@ == fresh {
                assert(false);
            }
            assert(find_by(backends, backend_key(), keys[i].backend_id@) == find_by(
                old_backends,
                backend_key(),
                keys[i].backend_id@,
            ));
        } else {
            assert(keys[i] == keys.last());
            assert(keys[i].backend_id@ == fresh);
        }
    }
    assert forall|p: int, q: int|
        0 <= p < q < actions.len() && (#[trigger] actions[p]).is_spawn && (
        #[trigger] actions[q]).is_spawn implies actions[p].backend_id@
        != actions[q].backend_id@ by {
        if q < old_actions.len() {
            assert(actions[p] == old_actions[p]);
            assert(actions[q] == old_actions[q]);
        } else {
            assert(actions[p] == old_actions[p]);
            assert(find_by(old_backends, backend_key(), old_actions[p].backend_id@) is Some);
            if old_actions[p].backend_id@ == fresh {
                assert(false);
            }
        }
    }
    assert forall|i: int| 0 <= i < actions.len() implies find_by(
        backends,
        backend_key(),
        (#[trigger] actions[i]).backend_id@,
    ) is Some by {
        if i < old_actions.len() {
            assert(actions[i] == old_actions[i]);
            if old_actions[i].backend_id@ != fresh {
                assert(find_by(backends, backend_key(), actions[i].backend_id@) == find_by(
                    old_backends,
                    backend_key(),
                    actions[i].backend_id@,
                ));
            }
        }
    }
    assert forall|i: int| 0 <= i < tokens.len() implies find_by(
        backends,
        backend_key(),
        (#[trigger] tokens[i]).backend_id@,
    ) is Some by {
        if i < old_tokens.len() {
            assert(tokens[i] == old_tokens[i]);
            if old_tokens[i].backend_id@ != fresh {
                assert(find_by(backends, backend_key(), tokens[i].backend_id@) == find_by(
                    old_backends,
                    backend_key(),
                    tokens[i].backend_id@,
                ));
            }
        }
    }
}


impl ControllerState {
    /// Register a drone node (or refresh it): an existing node of the same
    /// cluster and name gets a new heartbeat and ready flag; a new one gets
    /// a fresh id.
    pub fn register_drone(
        &mut self,
        name: &DroneName,
        cluster: &ClusterName,
        pool: &String,
        ready: bool,
        now: TimeMs,
    ) -> (id: NodeId)
        requires
            old(self).wf(),
            old(self).next_node < i32::MAX,
        ensures
            final(self).wf(),
            final(self).backends@ == old(self).backends@,
            final(self).journal@ == old(self).journal@,
            final(self).keys@ == old(self).keys@,
            final(self).actions@ == old(self).actions@,
            final(self).tokens@ == old(self).tokens@,
            match find_where(
                old(self).nodes@,
                |n: NodeRow| n.name@ == name@ && n.cluster@ == cluster@,
            ) {
                Some(n) => {
                    &&& id == n.id
                    &&& final(self).nodes@.len() == old(self).nodes@.len()
                    &&& find_by(final(self).nodes@, node_key(), n.id.id) == Some(
                        (NodeRow { ready, last_heartbeat: now, ..n }),
                    )
                    &&& forall|other: i32|
                        other != n.id.id ==> #[trigger] find_by(
                            final(self).nodes@,
                            node_key(),
                            other,
                        ) == find_by(old(self).nodes@, node_key(), other)
                },
                None => {
                    &&& id.id == old(self).next_node
                    &&& final(self).nodes@.len() == old(self).nodes@.len() + 1
                    &&& final(self).nodes@.take(old(self).nodes@.len() as int) =~= old(
                        self,
                    ).nodes@
                    &&& final(self).nodes@.last() == (NodeRow {
                        id,
                        name: *name,
                        cluster: *cluster,
                        ready,
                        draining: false,
                        last_heartbeat: now,
                        pool: final(self).nodes@.last().pool,
                    })
                    &&& final(self).nodes@.last().pool@ == pool@
                    &&& find_by(final(self).nodes@, node_key(), id.id) == Some(
                        final(self).nodes@.last(),
                    )
                },
            },
    {
        let ghost pred = |n: NodeRow| n.name@ == name@ && n.cluster@ == cluster@;
        let mut i: usize = 0;
        while i < self.nodes.len()
            invariant
                self.wf(),
                *self == *old(self),
                i <= self.nodes@.len(),
                forall|j: int|
                    0 <= j < i ==> !((#[trigger] self.nodes@[j]).name@ == name@
                        && self.nodes@[j].cluster@ == cluster@),
            decreases self.nodes@.len() - i,
        {
            if self.nodes[i].name.name == name.name && self.nodes[i].cluster.name
                == cluster.name {
                proof {
                    let pred2 = |n: NodeRow| n.name@ == name@ && n.cluster@ == cluster@;
                    assert(pred2(self.nodes@[i as int]));
                    assert forall|j: int| 0 <= j < i implies !pred2(
                        #[trigger] self.nodes@[j],
                    ) by {}
                    crate::table::lemma_find_where_at(self.nodes@, pred2, i as int);
                }
                let ghost old_nodes = self.nodes@;
                let ghost old_row = self.nodes@[i as int];
                let n = &self.nodes[i];
                let id = n.id;
                let updated = NodeRow {
                    id: n.id,
                    name: n.name.clone(),
                    cluster: n.cluster.clone(),
                    ready,
                    draining: n.draining,
                    last_heartbeat: now,
                    pool: n.pool.clone(),
                };
                self.nodes.set(i, updated);
                proof {
                    assert(self.nodes@[i as int] == NodeRow {
                        ready,
                        last_heartbeat: now,
                        ..old_row
                    });
                    lemma_find_update(old_nodes, self.nodes@, node_key(), i as int);
                    assert(self.nodes@ =~= old_nodes.update(
                        i as int,
                        NodeRow { ready, last_heartbeat: now, ..old_row },
                    ));
                }
                return id;
            }
            i = i + 1;
        }
        proof {
            let pred2 = |n: NodeRow| n.name@ == name@ && n.cluster@ == cluster@;
            assert forall|j: int| 0 <= j < self.nodes@.len() implies !pred2(
                #[trigger] self.nodes@[j],
            ) by {}
            crate::table::lemma_find_where_none(self.nodes@, pred2);
        }
        let ghost old_nodes = self.nodes@;
        let id = NodeId { id: self.next_node };
        self.nodes.push(
            NodeRow {
                id,
                name: name.clone(),
                cluster: cluster.clone(),
                ready,
                draining: false,
                last_heartbeat: now,
                pool: pool.clone(),
            },
        );
        self.next_node = self.next_node + 1;
        proof {
            assert forall|j: int| 0 <= j < old_nodes.len() implies node_key()(
                #[trigger] old_nodes[j],
            ) != id.id by {}
            lemma_find_push(old_nodes, node_key(), self.nodes@.last());
        }
        id
    }

    /// Set or clear a drone's draining flag; a draining drone receives no
    /// new backends. Returns whether the node exists.
    pub fn set_draining(&mut self, node: NodeId, draining: bool) -> (found: bool)
        requires
            old(self).wf(),
        ensures
            final(self).wf(),
            final(self).backends@ == old(self).backends@,
            final(self).journal@ == old(self).journal@,
            final(self).keys@ == old(self).keys@,
            final(self).actions@ == old(self).actions@,
            final(self).tokens@ == old(self).tokens@,
            match find_by(old(self).nodes@, node_key(), node.id) {
                None => !found && *final(self) == *old(self),
                Some(n) => {
                    &&& found
                    &&& find_by(final(self).nodes@, node_key(), node.id) == Some(
                        NodeRow { draining, ..n },
                    )
                    &&& forall|other: i32|
                        other != node.id ==> #[trigger] find_by(final(self).nodes@, node_key(), other)
                            == find_by(old(self).nodes@, node_key(), other)
                },
            },
    {
        let mut i: usize = 0;
        while i < self.nodes.len()
            invariant
                self.wf(),
                *self == *old(self),
                i <= self.nodes@.len(),
                forall|j: int| 0 <= j < i ==> (#[trigger] self.nodes@[j]).id.id != node.id,
            decreases self.nodes@.len() - i,
        {
            if self.nodes[i].id.id == node.id {
                proof {
                    crate::table::lemma_find_at(self.nodes@, node_key(), i as int);
                }
                let ghost old_nodes = self.nodes@;
                let ghost old_row = self.nodes@[i as int];
                let n = &self.nodes[i];
                let updated = NodeRow {
                    id: n.id,
                    name: n.name.clone(),
                    cluster: n.cluster.clone(),
                    ready: n.ready,
                    draining,
                    last_heartbeat: n.last_heartbeat,
                    pool: n.pool.clone(),
                };
                self.nodes.set(i, updated);
                proof {
                    assert(self.nodes@[i as int] == NodeRow { draining, ..old_row });
                    lemma_find_update(old_nodes, self.nodes@, node_key(), i as int);
                }
                return true;
            }
            i = i + 1;
        }
        proof {
            lemma_find_none(self.nodes@, node_key(), node.id);
        }
        false
    }

    /// Release the key an unhealthy holder sits on and queue a hard
    /// terminate for that holder; a following connect can then acquire the
    /// key. Returns whether a key row was released.
    pub fn evict_key_holder(&mut self, cluster: &ClusterName, key: &KeyConfig) -> (r: bool)
        requires
            old(self).wf(),
            old(self).next_action < i64::MAX,
        ensures
            final(self).wf(),
            match find_by(old(self).keys@, key_key(), (cluster@, key@)) {
                None => !r && *final(self) == *old(self),
                Some(kr) => r && evict_post(*old(self), *final(self), *cluster, *key, kr),
            },
    {
        let Some(ki) = self.find_key_index(cluster, key) else { return false };
        let holder = self.keys[ki].backend_id.clone();
        let ghost old_keys = self.keys@;
        let ghost pred = |k: KeyRow| !(k.cluster@ == cluster@ && k.key@ == key@);
        let mut kept: Vec<KeyRow> = Vec::new();
        let mut j: usize = 0;
        while j < self.keys.len()
            invariant
                j <= self.keys@.len(),
                old_keys == self.keys@,
                kept@ =~= self.keys@.take(j as int).filter(
                    |k: KeyRow| !(k.cluster@ == cluster@ && k.key@ == key@),
                ),
            decreases self.keys@.len() - j,
        {
            proof {
                assert(self.keys@.take(j as int + 1) =~= self.keys@.take(j as int).push(
                    self.keys@[j as int],
                ));
                self.keys@.take(j as int).lemma_filter_push(
                    self.keys@[j as int],
                    |k: KeyRow| !(k.cluster@ == cluster@ && k.key@ == key@),
                );
            }
            let k = &self.keys[j];
            let is_target = k.cluster.name == cluster.name && k.key.name == key.name
                && k.key.namespace == key.namespace && k.key.tag == key.tag;
            if !is_target {
                kept.push(
                    KeyRow {
                        backend_id: k.backend_id.clone(),
                        cluster: k.cluster.clone(),
                        key: k.key.clone(),
                        fencing_token: k.fencing_token,
                        deadlines: k.deadlines,
                        expires_at: k.expires_at,
                    },
                );
            }
            j = j + 1;
        }
        proof {
            assert(self.keys@.take(self.keys@.len() as int) =~= self.keys@);
        }
        self.keys = kept;
        proof {
            let pred2 = |k: KeyRow| !(k.cluster@ == cluster@ && k.key@ == key@);
            lemma_filter_unique_by(old_keys, key_key(), pred2);
            crate::table::lemma_filter_rows_contained(old_keys, pred2);
            assert forall|p: int| 0 <= p < self.keys@.len() implies match find_by(
                self.backends@,
                backend_key(),
                (#[trigger] self.keys@[p]).backend_id@,
            ) {
                Some(r2) => status_of(r2.state) != BackendStatus::Terminated,
                None => false,
            } by {
                let k = self.keys@[p];
                let q = choose|q: int| 0 <= q < old_keys.len() && old_keys[q] == k;
            }
            assert forall|p: int| 0 <= p < self.keys@.len() implies (
            #[trigger] self.keys@[p]).fencing_token < self.next_fencing as int by {
                let k = self.keys@[p];
                let q = choose|q: int| 0 <= q < old_keys.len() && old_keys[q] == k;
            }
            assert forall|p: int| 0 <= p < self.keys@.len() implies key_key()(
                #[trigger] self.keys@[p],
            ) != (cluster@, key@) by {
                let k = self.keys@[p];
                assert(pred2(k));
            }
            lemma_find_none(self.keys@, key_key(), (cluster@, key@));
        }
        let r = self.terminate_backend(&holder, true);
        proof {
            assert(r is Some);
            lemma_find_index(self.backends@, backend_key(), holder@);
        }
        true
    }

    /// Resolve a connect call, releasing an unhealthy key holder and
    /// retrying once, so that the caller never sees `KeyHeldUnhealthy`.
    pub fn connect_handling_unhealthy(
        &mut self,
        cluster: &ClusterName,
        request: &ConnectRequest,
        fresh: &FreshIds,
        base_url: &str,
        now: TimeMs,
    ) -> (r: Result<ConnectResponse, crate::protocol::ApiErrorKind>)
        requires
            old(self).wf(),
            old(self).next_action + 1 < i64::MAX,
            old(self).next_fencing < i64::MAX,
            now.ms + KEY_HARD_TERMINATE_AFTER_MS <= i64::MAX,
            match request.spawn_config {
                Some(c) => match c.lifetime_limit_seconds {
                    Some(l) => 0 <= l <= 0x7fff_ffff && i64::MIN <= now.ms + l * 1000 <= i64::MAX,
                    None => true,
                },
                None => true,
            },
        ensures
            final(self).wf(),
            !(r == Err::<ConnectResponse, crate::protocol::ApiErrorKind>(
                crate::protocol::ApiErrorKind::KeyHeldUnhealthy,
            )),
            !connect_finds_unhealthy_holder(*old(self), *cluster, *request, now)
                ==> connect_post(
                *old(self),
                *final(self),
                *cluster,
                *request,
                *fresh,
                base_url@,
                now,
                r,
            ),
            connect_finds_unhealthy_holder(*old(self), *cluster, *request, now) ==> {
                &&& exists|mid: ControllerState|
                    #[trigger] evict_post(
                        *old(self),
                        mid,
                        *cluster,
                        request.key->0,
                        key_holder_of(old(self).keys@, cluster@, *request)->Some_0,
                    ) && connect_post(
                        mid,
                        *final(self),
                        *cluster,
                        *request,
                        *fresh,
                        base_url@,
                        now,
                        r,
                    )
                &&& exists|i: int|
                    0 <= i < final(self).actions@.len()
                        && (#[trigger] final(self).actions@[i]).backend_id@ == key_holder_of(
                        old(self).keys@,
                        cluster@,
                        *request,
                    )->Some_0.backend_id@ && !final(self).actions@[i].is_spawn
                        && final(self).actions@[i].hard
            },
    {
        let first = self.connect(cluster, request, fresh, base_url, now);
        match first {
            Err(crate::protocol::ApiErrorKind::KeyHeldUnhealthy) => {
                let Some(k) = &request.key else {
                    proof {
                        assert(false);
                    }
                    return Err(crate::protocol::ApiErrorKind::Other);
                };
                proof {
                    assert(connect_finds_unhealthy_holder(*old(self), *cluster, *request, now));
                }
                let ghost kr = key_holder_of(old(self).keys@, cluster@, *request)->Some_0;
                let evicted = self.evict_key_holder(cluster, k);
                proof {
                    assert(evicted);
                }
                let ghost mid = *self;
                let second = self.connect(cluster, request, fresh, base_url, now);
                proof {
                    assert(evict_post(*old(self), mid, *cluster, *k, kr));
                    assert(key_holder_of(mid.keys@, cluster@, *request) is None);
                    let victim_at = mid.actions@.len() - 1;
                    assert(mid.actions@[victim_at].backend_id@ == kr.backend_id@
                        && !mid.actions@[victim_at].is_spawn && mid.actions@[victim_at].hard);
                    match &second {
                        Ok(resp) => {
                            if resp.spawned {
                                assert(final(self).actions@.take(mid.actions@.len() as int)
                                    =~= mid.actions@);
                                assert(final(self).actions@[victim_at] == mid.actions@[victim_at]);
                            } else {
                                assert(*final(self) == mid);
                            }
                        },
                        Err(_) => {
                            assert(*final(self) == mid);
                        },
                    }
                }
                match second {
                    Err(crate::protocol::ApiErrorKind::KeyHeldUnhealthy) => {
                        proof {
                            assert(false);
                        }
                        Err(crate::protocol::ApiErrorKind::Other)
                    },
                    other => other,
                }
            },
            other => other,
        }
    }
}

/// Whether a token row's backend is still live (present and not
/// terminated).
pub open spec fn token_backend_live(backends: Seq<BackendRow>, t: TokenRow) -> bool {
    match find_by(backends, backend_key(), t.backend_id@) {
        Some(r) => status_of(r.state) != BackendStatus::Terminated,
        None => false,
    }
}

impl ControllerState {
    /// Delete the token rows of terminated backends; a token exists only
    /// while its backend is live once this sweep has run. Returns how many
    /// rows were removed.
    pub fn clean_up_tokens(&mut self) -> (removed: usize)
        requires
            old(self).wf(),
        ensures
            final(self).wf(),
            final(self).backends@ == old(self).backends@,
            final(self).journal@ == old(self).journal@,
            final(self).keys@ == old(self).keys@,
            final(self).actions@ == old(self).actions@,
            final(self).nodes@ == old(self).nodes@,
            final(self).next_action == old(self).next_action,
            final(self).next_fencing == old(self).next_fencing,
            final(self).next_node == old(self).next_node,
            final(self).tokens@ =~= old(self).tokens@.filter(
                |t: TokenRow| token_backend_live(old(self).backends@, t),
            ),
            removed + final(self).tokens@.len() == old(self).tokens@.len(),
    {
        let ghost old_tokens = self.tokens@;
        let mut kept: Vec<TokenRow> = Vec::new();
        let mut i: usize = 0;
        while i < self.tokens.len()
            invariant
                *self == *old(self),
                self.wf(),
                i <= self.tokens@.len(),
                kept@ =~= self.tokens@.take(i as int).filter(
                    |t: TokenRow| token_backend_live(old(self).backends@, t),
                ),
            decreases self.tokens@.len() - i,
        {
            proof {
                assert(self.tokens@.take(i as int + 1) =~= self.tokens@.take(i as int).push(
                    self.tokens@[i as int],
                ));
                self.tokens@.take(i as int).lemma_filter_push(
                    self.tokens@[i as int],
                    |t: TokenRow| token_backend_live(old(self).backends@, t),
                );
            }
            let name = self.tokens[i].backend_id.clone();
            let live = match self.find_backend_index(&name) {
                Some(b) => !matches!(self.backends[b].last_status, BackendStatus::Terminated),
                None => false,
            };
            if live {
                let t = &self.tokens[i];
                kept.push(
                    TokenRow {
                        token: t.token.clone(),
                        backend_id: t.backend_id.clone(),
                        username: match &t.username {
                            Some(u) => Some(u.clone()),
                            None => None,
                        },
                        auth: t.auth.clone(),
                        secret_token: t.secret_token.clone(),
                    },
                );
            }
            i = i + 1;
        }
        proof {
            assert(self.tokens@.take(self.tokens@.len() as int) =~= self.tokens@);
        }
        let removed = self.tokens.len() - kept.len();
        self.tokens = kept;
        proof {
            let keep = |t: TokenRow| token_backend_live(old(self).backends@, t);
            lemma_filter_unique_by(old_tokens, token_key(), keep);
            old_tokens.lemma_filter_len(keep);
            crate::table::lemma_filter_rows_contained(old_tokens, keep);
            assert forall|p: int| 0 <= p < self.tokens@.len() implies find_by(
                self.backends@,
                backend_key(),
                (#[trigger] self.tokens@[p]).backend_id@,
            ) is Some by {
                let t = self.tokens@[p];
                let q = choose|q: int| 0 <= q < old_tokens.len() && old_tokens[q] == t;
                assert(keep(t));
            }
        }
        removed
    }
}

/// Law: any two distinct fencing-key rows of a well-formed state name
/// distinct lock identities, and every key row's holder exists and is not
/// terminated. So at no point do two non-terminated backends share a key:
/// each operation of this module preserves well-formedness, hence the
/// property holds after any interleaving of connects and terminations.
pub proof fn lemma_unique_live_key(s: ControllerState, i: int, j: int)
    requires
        s.wf(),
        0 <= i < s.keys@.len(),
        0 <= j < s.keys@.len(),
        i != j,
    ensures
        !(s.keys@[i].cluster@ == s.keys@[j].cluster@ && s.keys@[i].key@ == s.keys@[j].key@),
        match find_by(s.backends@, backend_key(), s.keys@[i].backend_id@) {
            Some(r) => status_of(r.state) != BackendStatus::Terminated,
            None => false,
        },
{
    if i < j {
        assert(key_key()(s.keys@[i]) != key_key()(s.keys@[j]));
    } else {
        assert(key_key()(s.keys@[j]) != key_key()(s.keys@[i]));
    }
}

/// Law: no two spawn actions ever exist for the same backend: a spawn is
/// recorded only by a connect that created the backend's row freshly, and
/// acknowledging an action keeps its row, so a second spawn for the same
/// backend can never be inserted.
pub proof fn lemma_at_most_once_spawn(s: ControllerState, i: int, j: int)
    requires
        s.wf(),
        0 <= i < s.actions@.len(),
        0 <= j < s.actions@.len(),
        i != j,
        s.actions@[i].is_spawn,
        s.actions@[j].is_spawn,
    ensures
        s.actions@[i].backend_id@ != s.actions@[j].backend_id@,
{
    if i < j {
        assert(s.actions@[i].backend_id@ != s.actions@[j].backend_id@);
    } else {
        assert(s.actions@[j].backend_id@ != s.actions@[i].backend_id@);
    }
}

/// Law: the ranks a backend's journal carries are strictly increasing, so
/// the status stream a subscriber replays is monotonic.
pub proof fn lemma_monotonic_journal(s: ControllerState, b: Seq<char>, i: int, j: int)
    requires
        s.wf(),
        0 <= i < j < s.journal@.len(),
        s.journal@[i].0@ == b,
        s.journal@[j].0@ == b,
    ensures
        status_rank(status_of(s.journal@[i].1)) < status_rank(status_of(s.journal@[j].1)),
{
}


/// A deep copy of a backend row.
fn clone_backend_row(r: &BackendRow) -> (c: BackendRow)
    ensures
        c == *r,
{
    BackendRow {
        id: r.id.clone(),
        cluster: r.cluster.clone(),
        drone_id: r.drone_id,
        state: r.state,
        last_status: r.last_status,
        last_status_number: r.last_status_number,
        last_status_time: r.last_status_time,
        cluster_address: r.cluster_address,
        last_keepalive: r.last_keepalive,
        expiration_time: r.expiration_time,
        allowed_idle_seconds: r.allowed_idle_seconds,
        static_token: match &r.static_token {
            Some(t) => Some(t.clone()),
            None => None,
        },
        subdomain: match &r.subdomain {
            Some(sd) => Some(sd.clone()),
            None => None,
        },
    }
}

/// Whether a name is among the selected ones.
fn name_among(sel: &Vec<BackendName>, x: &BackendName) -> (r: bool)
    ensures
        r == crate::executor::contains_name(sel@, x@),
{
    let mut i: usize = 0;
    while i < sel.len()
        invariant
            i <= sel@.len(),
            forall|j: int| 0 <= j < i ==> (#[trigger] sel@[j])@ != x@,
        decreases sel@.len() - i,
    {
        if sel[i].name == x.name {
            proof {
                assert(sel@[i as int]@ == x@);
            }
            return true;
        }
        i = i + 1;
    }
    false
}

/// Whether a backend row qualifies for cleanup at `now`: terminated for
/// longer than the minimum age.
pub open spec fn cleanup_due(r: BackendRow, now: TimeMs, min_age_ms: i64) -> bool {
    r.last_status == BackendStatus::Terminated && now.ms - r.last_status_time.ms > min_age_ms
}

impl ControllerState {
    /// Delete up to `batch` backends that terminated longer than
    /// `min_age_ms` ago, together with their tokens, outbox rows and
    /// journal entries, and return their names. Fencing keys need no
    /// sweeping: a backend's key row is deleted the moment it terminates.
    #[verifier::rlimit(30)]
    pub fn cleanup(&mut self, now: TimeMs, min_age_ms: i64, batch: usize) -> (deleted: Vec<
        BackendName,
    >)
        requires
            old(self).wf(),
        ensures
            final(self).wf(),
            final(self).nodes@ == old(self).nodes@,
            final(self).keys@ == old(self).keys@,
            final(self).next_action == old(self).next_action,
            final(self).next_fencing == old(self).next_fencing,
            deleted@.len() <= batch,
            forall|j: int|
                0 <= j < deleted@.len() ==> match old(self).backend_of(
                    (#[trigger] deleted@[j])@,
                ) {
                    Some(r) => cleanup_due(r, now, min_age_ms),
                    None => false,
                },
            deleted@.len() < batch ==> forall|x: Seq<char>|
                #![trigger old(self).backend_of(x)]
                (old(self).backend_of(x) matches Some(r) && cleanup_due(r, now, min_age_ms))
                    ==> crate::executor::contains_name(deleted@, x),
            forall|x: Seq<char>|
                #![trigger final(self).backend_of(x)]
                final(self).backend_of(x) == (if crate::executor::contains_name(deleted@, x) {
                    None
                } else {
                    old(self).backend_of(x)
                }),
            final(self).backends@ =~= old(self).backends@.filter(
                |r: BackendRow| !crate::executor::contains_name(deleted@, r.id@),
            ),
            final(self).journal@ =~= old(self).journal@.filter(
                |e: (BackendName, BackendState)| !crate::executor::contains_name(deleted@, e.0@),
            ),
            final(self).tokens@ =~= old(self).tokens@.filter(
                |t: TokenRow| !crate::executor::contains_name(deleted@, t.backend_id@),
            ),
            final(self).actions@ =~= old(self).actions@.filter(
                |a: ActionRow| !crate::executor::contains_name(deleted@, a.backend_id@),
            ),
    {
        let ghost old_backends = self.backends@;
        let ghost old_journal = self.journal@;
        let ghost old_tokens = self.tokens@;
        let ghost old_actions = self.actions@;

        // Select the doomed backends, oldest rows first, up to the batch.
        let mut deleted: Vec<BackendName> = Vec::new();
        let mut i: usize = 0;
        while i < self.backends.len()
            invariant
                self.wf(),
                *self == *old(self),
                i <= self.backends@.len(),
                deleted@.len() <= batch,
                forall|j: int, k: int|
                    0 <= j < k < deleted@.len() ==> (#[trigger] deleted@[j])@ != (
                    #[trigger] deleted@[k])@,
                forall|j: int|
                    0 <= j < deleted@.len() ==> exists|q: int|
                        0 <= q < i && (#[trigger] deleted@[j]) == self.backends@[q].id
                            && cleanup_due(self.backends@[q], now, min_age_ms),
                deleted@.len() < batch ==> forall|q: int|
                    0 <= q < i && cleanup_due(#[trigger] self.backends@[q], now, min_age_ms)
                        ==> crate::executor::contains_name(deleted@, self.backends@[q].id@),
            decreases self.backends@.len() - i,
        {
            if deleted.len() < batch {
                let r = &self.backends[i];
                let due = matches!(r.last_status, BackendStatus::Terminated) && (now.ms as i128)
                    - (r.last_status_time.ms as i128) > min_age_ms as i128;
                if due {
                    let ghost pre = deleted@;
                    deleted.push(r.id.clone());
                    proof {
                        assert(deleted@[deleted@.len() - 1] == self.backends@[i as int].id);
                        assert forall|j: int, k: int|
                            0 <= j < k < deleted@.len() implies (#[trigger] deleted@[j])@ != (
                        #[trigger] deleted@[k])@ by {
                            if k == deleted@.len() - 1 {
                                let q = choose|q: int|
                                    0 <= q < i && (#[trigger] pre[j]) == self.backends@[q].id
                                        && cleanup_due(self.backends@[q], now, min_age_ms);
                                assert(self.backends@[q].id@ != self.backends@[i as int].id@)
                                    by {
                                    assert(backend_key()(self.backends@[q]) != backend_key()(
                                        self.backends@[i as int],
                                    ));
                                }
                            } else {
                                assert(pre[j]@ != pre[k]@);
                            }
                        }
                        assert forall|q: int|
                            0 <= q < i + 1 && cleanup_due(
                                #[trigger] self.backends@[q],
                                now,
                                min_age_ms,
                            ) implies crate::executor::contains_name(
                            deleted@,
                            self.backends@[q].id@,
                        ) by {
                            if q < i {
                                if pre.len() < batch {
                                    assert(crate::executor::contains_name(
                                        pre,
                                        self.backends@[q].id@,
                                    ));
                                    let w = choose|w: int|
                                        0 <= w < pre.len() && (#[trigger] pre[w])@
                                            == self.backends@[q].id@;
                                    assert(deleted@[w]@ == self.backends@[q].id@);
                                }
                            } else {
                                assert(deleted@[deleted@.len() - 1]@
                                    == self.backends@[i as int].id@);
                            }
                        }
                    }
                }
            }
            i = i + 1;
        }
        let ghost sel = deleted@;
        proof {
            assert forall|j: int| 0 <= j < sel.len() implies match find_by(
                old_backends,
                backend_key(),
                (#[trigger] sel[j])@,
            ) {
                Some(r) => cleanup_due(r, now, min_age_ms),
                None => false,
            } by {
                let q = choose|q: int|
                    0 <= q < old_backends.len() && (#[trigger] sel[j]) == old_backends[q].id
                        && cleanup_due(old_backends[q], now, min_age_ms);
                lemma_find_unique_at(old_backends, backend_key(), q);
            }
        }

        // Drop the selected backends' rows.
        let mut kept_b: Vec<BackendRow> = Vec::new();
        let mut i: usize = 0;
        while i < self.backends.len()
            invariant
                *self == *old(self),
                sel == deleted@,
                i <= self.backends@.len(),
                kept_b@ =~= self.backends@.take(i as int).filter(
                    |r: BackendRow| !crate::executor::contains_name(deleted@, r.id@),
                ),
            decreases self.backends@.len() - i,
        {
            proof {
                assert(self.backends@.take(i as int + 1) =~= self.backends@.take(i as int).push(
                    self.backends@[i as int],
                ));
                self.backends@.take(i as int).lemma_filter_push(
                    self.backends@[i as int],
                    |r: BackendRow| !crate::executor::contains_name(deleted@, r.id@),
                );
            }
            let keep = !name_among(&deleted, &self.backends[i].id);
            if keep {
                let row = clone_backend_row(&self.backends[i]);
                kept_b.push(row);
            }
            i = i + 1;
        }
        proof {
            assert(self.backends@.take(self.backends@.len() as int) =~= self.backends@);
        }
        self.backends = kept_b;

        // Drop their journal entries.
        let mut kept_j: Vec<(BackendName, BackendState)> = Vec::new();
        let mut i: usize = 0;
        while i < self.journal.len()
            invariant
                old_journal == self.journal@,
                sel == deleted@,
                i <= self.journal@.len(),
                kept_j@ =~= self.journal@.take(i as int).filter(
                    |e: (BackendName, BackendState)| !crate::executor::contains_name(
                        deleted@,
                        e.0@,
                    ),
                ),
            decreases self.journal@.len() - i,
        {
            proof {
                assert(self.journal@.take(i as int + 1) =~= self.journal@.take(i as int).push(
                    self.journal@[i as int],
                ));
                self.journal@.take(i as int).lemma_filter_push(
                    self.journal@[i as int],
                    |e: (BackendName, BackendState)| !crate::executor::contains_name(
                        deleted@,
                        e.0@,
                    ),
                );
            }
            let keep = !name_among(&deleted, &self.journal[i].0);
            if keep {
                kept_j.push((self.journal[i].0.clone(), self.journal[i].1));
            }
            i = i + 1;
        }
        proof {
            assert(self.journal@.take(self.journal@.len() as int) =~= self.journal@);
        }
        self.journal = kept_j;

        // Drop their token rows.
        let mut kept_t: Vec<TokenRow> = Vec::new();
        let mut i: usize = 0;
        while i < self.tokens.len()
            invariant
                old_tokens == self.tokens@,
                sel == deleted@,
                i <= self.tokens@.len(),
                kept_t@ =~= self.tokens@.take(i as int).filter(
                    |t: TokenRow| !crate::executor::contains_name(deleted@, t.backend_id@),
                ),
            decreases self.tokens@.len() - i,
        {
            proof {
                assert(self.tokens@.take(i as int + 1) =~= self.tokens@.take(i as int).push(
                    self.tokens@[i as int],
                ));
                self.tokens@.take(i as int).lemma_filter_push(
                    self.tokens@[i as int],
                    |t: TokenRow| !crate::executor::contains_name(deleted@, t.backend_id@),
                );
            }
            let keep = !name_among(&deleted, &self.tokens[i].backend_id);
            if keep {
                let t = &self.tokens[i];
                kept_t.push(
                    TokenRow {
                        token: t.token.clone(),
                        backend_id: t.backend_id.clone(),
                        username: match &t.username {
                            Some(u) => Some(u.clone()),
                            None => None,
                        },
                        auth: t.auth.clone(),
                        secret_token: t.secret_token.clone(),
                    },
                );
            }
            i = i + 1;
        }
        proof {
            assert(self.tokens@.take(self.tokens@.len() as int) =~= self.tokens@);
        }
        self.tokens = kept_t;

        // Drop their outbox rows.
        let mut kept_a: Vec<ActionRow> = Vec::new();
        let mut i: usize = 0;
        while i < self.actions.len()
            invariant
                old_actions == self.actions@,
                sel == deleted@,
                i <= self.actions@.len(),
                kept_a@ =~= self.actions@.take(i as int).filter(
                    |a: ActionRow| !crate::executor::contains_name(deleted@, a.backend_id@),
                ),
            decreases self.actions@.len() - i,
        {
            proof {
                assert(self.actions@.take(i as int + 1) =~= self.actions@.take(i as int).push(
                    self.actions@[i as int],
                ));
                self.actions@.take(i as int).lemma_filter_push(
                    self.actions@[i as int],
                    |a: ActionRow| !crate::executor::contains_name(deleted@, a.backend_id@),
                );
            }
            let keep = !name_among(&deleted, &self.actions[i].backend_id);
            if keep {
                let a = &self.actions[i];
                kept_a.push(
                    ActionRow {
                        action_id: a.action_id,
                        backend_id: a.backend_id.clone(),
                        drone_id: a.drone_id,
                        is_spawn: a.is_spawn,
                        hard: a.hard,
                        acked: a.acked,
                    },
                );
            }
            i = i + 1;
        }
        proof {
            assert(self.actions@.take(self.actions@.len() as int) =~= self.actions@);
        }
        self.actions = kept_a;

        proof {
            lemma_cleanup_wf(
                old_backends,
                self.backends@,
                old_journal,
                self.journal@,
                old_tokens,
                self.tokens@,
                old_actions,
                self.actions@,
                self.keys@,
                sel,
                now,
                min_age_ms,
            );
            assert forall|x: Seq<char>|
                #![trigger find_by(self.backends@, backend_key(), x)]
            true implies find_by(self.backends@, backend_key(), x) == (
            if crate::executor::contains_name(sel, x) {
                None
            } else {
                find_by(old_backends, backend_key(), x)
            }) by {
                let keep = |r: BackendRow| !crate::executor::contains_name(sel, r.id@);
                crate::table::lemma_find_filter(old_backends, backend_key(), keep, x);
                if find_by(old_backends, backend_key(), x) is Some {
                    lemma_find_index(old_backends, backend_key(), x);
                }
            }
            if sel.len() < batch {
                assert forall|x: Seq<char>|
                    #![trigger find_by(old_backends, backend_key(), x)]
                (find_by(old_backends, backend_key(), x) matches Some(r) && cleanup_due(
                    r,
                    now,
                    min_age_ms,
                )) implies crate::executor::contains_name(sel, x) by {
                    lemma_find_index(old_backends, backend_key(), x);
                    let q = choose|q: int|
                        0 <= q < old_backends.len() && backend_key()(#[trigger] old_backends[q])
                            == x && old_backends[q] == find_by(
                            old_backends,
                            backend_key(),
                            x,
                        )->Some_0;
                    assert(cleanup_due(old_backends[q], now, min_age_ms));
                    assert(crate::executor::contains_name(sel, old_backends[q].id@));
                }
            }
        }
        deleted
    }
}

/// The well-formedness obligations after a cleanup pass: every table was
/// filtered by the same set of doomed backend names, and every doomed
/// name was a terminated backend, so keys, live references and the
/// journal stay coherent.
#[verifier::rlimit(60)]
proof fn lemma_cleanup_wf(
    old_backends: Seq<BackendRow>,
    backends: Seq<BackendRow>,
    old_journal: Seq<(BackendName, BackendState)>,
    journal: Seq<(BackendName, BackendState)>,
    old_tokens: Seq<TokenRow>,
    tokens: Seq<TokenRow>,
    old_actions: Seq<ActionRow>,
    actions: Seq<ActionRow>,
    keys: Seq<KeyRow>,
    sel: Seq<BackendName>,
    now: TimeMs,
    min_age_ms: i64,
)
    requires
        unique_by(old_backends, backend_key()),
        forall|i: int| 0 <= i < old_backends.len() ==> row_consistent(#[trigger] old_backends[i]),
        journal_ordered(old_journal),
        journal_below(old_journal, old_backends),
        addresses_consistent(old_backends, old_journal),
        keys_live(keys, old_backends),
        unique_by(keys, key_key()),
        at_most_one_spawn(old_actions),
        actions_ref_backends(old_actions, old_backends),
        tokens_ref_backends(old_tokens, old_backends),
        unique_by(old_tokens, token_key()),
        forall|j: int|
            0 <= j < sel.len() ==> match find_by(old_backends, backend_key(), (#[trigger] sel[j])@) {
                Some(r) => cleanup_due(r, now, min_age_ms),
                None => false,
            },
        backends == old_backends.filter(
            |r: BackendRow| !crate::executor::contains_name(sel, r.id@),
        ),
        journal == old_journal.filter(
            |e: (BackendName, BackendState)| !crate::executor::contains_name(sel, e.0@),
        ),
        tokens == old_tokens.filter(
            |t: TokenRow| !crate::executor::contains_name(sel, t.backend_id@),
        ),
        actions == old_actions.filter(
            |a: ActionRow| !crate::executor::contains_name(sel, a.backend_id@),
        ),
    ensures
        unique_by(backends, backend_key()),
        forall|i: int| 0 <= i < backends.len() ==> row_consistent(#[trigger] backends[i]),
        journal_ordered(journal),
        journal_below(journal, backends),
        addresses_consistent(backends, journal),
        keys_live(keys, backends),
        at_most_one_spawn(actions),
        actions_ref_backends(actions, backends),
        tokens_ref_backends(tokens, backends),
        unique_by(tokens, token_key()),
{
    let keep_b = |r: BackendRow| !crate::executor::contains_name(sel, r.id@);
    let keep_j = |e: (BackendName, BackendState)| !crate::executor::contains_name(sel, e.0@);
    let keep_t = |t: TokenRow| !crate::executor::contains_name(sel, t.backend_id@);
    let keep_a = |a: ActionRow| !crate::executor::contains_name(sel, a.backend_id@);

    lemma_filter_unique_by(old_backends, backend_key(), keep_b);
    lemma_filter_unique_by(old_tokens, token_key(), keep_t);
    crate::table::lemma_filter_rows_contained(old_backends, keep_b);
    crate::table::lemma_filter_rows_contained(old_journal, keep_j);
    crate::table::lemma_filter_rows_contained(old_tokens, keep_t);
    crate::table::lemma_filter_rows_contained(old_actions, keep_a);

    assert forall|i: int| 0 <= i < backends.len() implies row_consistent(
        #[trigger] backends[i],
    ) by {
        let q = choose|q: int| 0 <= q < old_backends.len() && old_backends[q] == backends[i];
    }

    crate::table::lemma_filter_pairwise(
        old_journal,
        keep_j,
        |a: (BackendName, BackendState), b: (BackendName, BackendState)|
            a.0@ == b.0@ ==> status_rank(status_of(a.1)) < status_rank(status_of(b.1)),
    );

    assert forall|i: int| 0 <= i < journal.len() implies match find_by(
        backends,
        backend_key(),
        (#[trigger] journal[i]).0@,
    ) {
        Some(r) => status_rank(status_of(journal[i].1)) <= r.last_status_number as int,
        None => false,
    } by {
        let e = journal[i];
        let q = choose|q: int| 0 <= q < old_journal.len() && old_journal[q] == e;
        assert(keep_j(e));
        crate::table::lemma_find_filter(old_backends, backend_key(), keep_b, e.0@);
        let r = find_by(old_backends, backend_key(), e.0@)->Some_0;
        lemma_find_index(old_backends, backend_key(), e.0@);
        assert(keep_b(r));
    }

    assert forall|i: int| 0 <= i < backends.len() implies ((
    #[trigger] backends[i]).cluster_address is Some <==> has_ready_entry(
        journal,
        backends[i].id@,
    )) by {
        let r = backends[i];
        let q = choose|q: int| 0 <= q < old_backends.len() && old_backends[q] == r;
        assert(r.cluster_address is Some <==> has_ready_entry(old_journal, r.id@));
        if has_ready_entry(old_journal, r.id@) {
            let w = choose|w: int|
                0 <= w < old_journal.len() && (#[trigger] old_journal[w]).0@ == r.id@
                    && status_of(old_journal[w].1) == BackendStatus::Ready;
            assert(keep_j(old_journal[w]));
            old_journal.lemma_filter_contains(keep_j, w);
            let v = choose|v: int| 0 <= v < journal.len() && journal[v] == old_journal[w];
            assert(has_ready_entry(journal, r.id@));
        }
        if has_ready_entry(journal, r.id@) {
            let w = choose|w: int|
                0 <= w < journal.len() && (#[trigger] journal[w]).0@ == r.id@ && status_of(
                    journal[w].1,
                ) == BackendStatus::Ready;
            let v = choose|v: int| 0 <= v < old_journal.len() && old_journal[v] == journal[w];
            assert(has_ready_entry(old_journal, r.id@));
        }
    }

    assert forall|i: int| 0 <= i < keys.len() implies match find_by(
        backends,
        backend_key(),
        (#[trigger] keys[i]).backend_id@,
    ) {
        Some(r) => status_of(r.state) != BackendStatus::Terminated,
        None => false,
    } by {
        let k = keys[i];
        let r = find_by(old_backends, backend_key(), k.backend_id@)->Some_0;
        lemma_find_index(old_backends, backend_key(), k.backend_id@);
        assert(status_of(r.state) != BackendStatus::Terminated);
        if crate::executor::contains_name(sel, k.backend_id@) {
            let j = choose|j: int| 0 <= j < sel.len() && (#[trigger] sel[j])@ == k.backend_id@;
            let rr = find_by(old_backends, backend_key(), sel[j]@)->Some_0;
            assert(cleanup_due(rr, now, min_age_ms));
            let q = choose|q: int|
                0 <= q < old_backends.len() && backend_key()(#[trigger] old_backends[q])
                    == k.backend_id@ && old_backends[q] == r;
            assert(row_consistent(r));
            assert(false);
        }
        crate::table::lemma_find_filter(old_backends, backend_key(), keep_b, k.backend_id@);
        assert(keep_b(r));
    }

    crate::table::lemma_filter_pairwise(
        old_actions,
        keep_a,
        |a: ActionRow, b: ActionRow| (a.is_spawn && b.is_spawn) ==> a.backend_id@ != b.backend_id@,
    );

    assert forall|i: int| 0 <= i < actions.len() implies find_by(
        backends,
        backend_key(),
        (#[trigger] actions[i]).backend_id@,
    ) is Some by {
        let a = actions[i];
        let q = choose|q: int| 0 <= q < old_actions.len() && old_actions[q] == a;
        assert(keep_a(a));
        crate::table::lemma_find_filter(old_backends, backend_key(), keep_b, a.backend_id@);
        let r = find_by(old_backends, backend_key(), a.backend_id@)->Some_0;
        lemma_find_index(old_backends, backend_key(), a.backend_id@);
        assert(keep_b(r));
    }

    assert forall|i: int| 0 <= i < tokens.len() implies find_by(
        backends,
        backend_key(),
        (#[trigger] tokens[i]).backend_id@,
    ) is Some by {
        let tk = tokens[i];
        let q = choose|q: int| 0 <= q < old_tokens.len() && old_tokens[q] == tk;
        assert(keep_t(tk));
        crate::table::lemma_find_filter(old_backends, backend_key(), keep_b, tk.backend_id@);
        let r = find_by(old_backends, backend_key(), tk.backend_id@)->Some_0;
        lemma_find_index(old_backends, backend_key(), tk.backend_id@);
        assert(keep_b(r));
    }
}


impl BackendRow {
    /// The age of the last status change, as of the query instant.
    pub fn status_age(&self, as_of: TimeMs) -> (r: i64)
        requires
            i64::MIN <= as_of.ms - self.last_status_time.ms <= i64::MAX,
        ensures
            r == as_of.ms - self.last_status_time.ms,
    {
        as_of.ms - self.last_status_time.ms
    }
}

impl ControllerState {
    /// The backend row for a name, if any.
    pub fn backend(&self, backend_id: &BackendName) -> (r: Option<BackendRow>)
        requires
            self.wf(),
        ensures
            r == self.backend_of(backend_id@),
    {
        match self.find_backend_index(backend_id) {
            Some(i) => Some(clone_backend_row(&self.backends[i])),
            None => None,
        }
    }

    /// Every backend row.
    pub fn list_backends(&self) -> (r: Vec<BackendRow>)
        ensures
            r@ =~= self.backends@,
    {
        let mut out: Vec<BackendRow> = Vec::new();
        let mut i: usize = 0;
        while i < self.backends.len()
            invariant
                i <= self.backends@.len(),
                out@ =~= self.backends@.take(i as int),
            decreases self.backends@.len() - i,
        {
            out.push(clone_backend_row(&self.backends[i]));
            i = i + 1;
        }
        proof {
            assert(self.backends@.take(self.backends@.len() as int) =~= self.backends@);
        }
        out
    }

    /// The live (not terminated) backends assigned to one drone.
    pub fn list_alive_backends_for_drone(&self, drone: NodeId) -> (r: Vec<BackendRow>)
        ensures
            r@ =~= self.backends@.filter(
                |b: BackendRow| b.drone_id == drone && b.last_status != BackendStatus::Terminated,
            ),
    {
        let mut out: Vec<BackendRow> = Vec::new();
        let mut i: usize = 0;
        while i < self.backends.len()
            invariant
                i <= self.backends@.len(),
                out@ =~= self.backends@.take(i as int).filter(
                    |b: BackendRow| b.drone_id == drone && b.last_status
                        != BackendStatus::Terminated,
                ),
            decreases self.backends@.len() - i,
        {
            proof {
                assert(self.backends@.take(i as int + 1) =~= self.backends@.take(i as int).push(
                    self.backends@[i as int],
                ));
                self.backends@.take(i as int).lemma_filter_push(
                    self.backends@[i as int],
                    |b: BackendRow| b.drone_id == drone && b.last_status
                        != BackendStatus::Terminated,
                );
            }
            let b = &self.backends[i];
            if b.drone_id.id == drone.id && !matches!(b.last_status, BackendStatus::Terminated) {
                out.push(clone_backend_row(b));
            }
            i = i + 1;
        }
        proof {
            assert(self.backends@.take(self.backends@.len() as int) =~= self.backends@);
        }
        out
    }
}


impl ControllerState {
    /// The journalled states of one backend, in order: what a status
    /// stream subscriber replays as its snapshot.
    pub fn status_stream_snapshot(&self, backend: &BackendName) -> (r: Vec<BackendState>)
        ensures
            r@ =~= self.journal@.filter(
                |e: (BackendName, BackendState)| e.0@ == backend@,
            ).map_values(|e: (BackendName, BackendState)| e.1),
    {
        let mut out: Vec<BackendState> = Vec::new();
        let mut i: usize = 0;
        while i < self.journal.len()
            invariant
                i <= self.journal@.len(),
                out@ =~= self.journal@.take(i as int).filter(
                    |e: (BackendName, BackendState)| e.0@ == backend@,
                ).map_values(|e: (BackendName, BackendState)| e.1),
            decreases self.journal@.len() - i,
        {
            proof {
                assert(self.journal@.take(i as int + 1) =~= self.journal@.take(i as int).push(
                    self.journal@[i as int],
                ));
                self.journal@.take(i as int).lemma_filter_push(
                    self.journal@[i as int],
                    |e: (BackendName, BackendState)| e.0@ == backend@,
                );
            }
            if self.journal[i].0.name == backend.name {
                out.push(self.journal[i].1);
            }
            i = i + 1;
        }
        proof {
            assert(self.journal@.take(self.journal@.len() as int) =~= self.journal@);
        }
        out
    }
}

/// Law: the snapshot a status-stream subscriber replays carries strictly
/// rising ranks, because the journal accepts only strictly higher-ranked
/// updates per backend. With the stream follower's dedup this makes the
/// observed stream monotonic, and the replay of the whole journal exact.
pub proof fn lemma_snapshot_strictly_rising(s: ControllerState, backend: Seq<char>)
    requires
        s.wf(),
    ensures
        crate::status_stream::strictly_rising(
            s.journal@.filter(|e: (BackendName, BackendState)| e.0@ == backend).map_values(
                |e: (BackendName, BackendState)| e.1,
            ),
        ),
{
    let keep = |e: (BackendName, BackendState)| e.0@ == backend;
    let f = s.journal@.filter(keep);
    crate::table::lemma_filter_pairwise(
        s.journal@,
        keep,
        |a: (BackendName, BackendState), b: (BackendName, BackendState)|
            a.0@ == b.0@ ==> status_rank(status_of(a.1)) < status_rank(status_of(b.1)),
    );
    crate::table::lemma_filter_rows_contained(s.journal@, keep);
    let m = f.map_values(|e: (BackendName, BackendState)| e.1);
    assert forall|i: int, j: int|
        0 <= i < j < m.len() implies status_rank(status_of(#[trigger] m[i])) < status_rank(
        status_of(#[trigger] m[j]),
    ) by {
        assert(m[i] == f[i].1);
        assert(m[j] == f[j].1);
        assert(f[i].0@ == backend);
        assert(f[j].0@ == backend);
    }
}

} // verus!
