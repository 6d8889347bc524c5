//! The proxy's token-to-route cache with request coalescing.
//!
//! A miss inserts a pending entry and asks the controller once; later
//! lookups for the same token wait on that entry instead of asking again.
//! Answers are cached with a TTL: a found route for a longer while, a
//! negative answer briefly, so a flood of requests for a dead token stays
//! cheap.

use vstd::prelude::*;

use crate::protocol::RouteInfo;
use crate::table::{find_by, lemma_find_none, lemma_find_push, lemma_find_update, unique_by};
use crate::time::TimeMs;
use crate::types::BearerToken;

verus! {

/// How long a resolved route stays cached.
pub const ROUTE_TTL_MS: i64 = 300_000;

/// How long a negative answer stays cached.
pub const GONE_TTL_MS: i64 = 60_000;

/// One cache entry.
#[derive(Debug)]
pub enum MapEntry {
    /// A request to the controller is in flight; `waiters` lookups wait on
    /// its answer.
    Pending { waiters: u32 },
    /// The controller answered with a route; valid until `expires`.
    Resolved { info: RouteInfo, expires: TimeMs },
    /// The controller answered that the token does not resolve; cached
    /// until `expires`.
    Gone { expires: TimeMs },
}

/// How the map keys its entries.
pub open spec fn entry_key() -> spec_fn((BearerToken, MapEntry)) -> Seq<char> {
    |e: (BearerToken, MapEntry)| e.0@
}

/// What one lookup decides.
#[derive(Debug)]
pub enum LookupOutcome {
    /// The route is cached and fresh.
    Hit(RouteInfo),
    /// The token is cached as unresolvable; answer 410 without asking.
    HitGone,
    /// A request for this token is already in flight: wait, ask nothing.
    Wait,
    /// The caller must send one `RouteInfoRequest` for this token.
    MustRequest,
}

/// The token-to-route cache.
pub struct RouteMap {
    entries: Vec<(BearerToken, MapEntry)>,
}

/// Whether an entry still answers a lookup at `now` (pending entries
/// always do; cached answers until their expiry).
pub open spec fn entry_fresh(e: MapEntry, now: TimeMs) -> bool {
    match e {
        MapEntry::Pending { .. } => true,
        MapEntry::Resolved { expires, .. } => now.ms < expires.ms,
        MapEntry::Gone { expires } => now.ms < expires.ms,
    }
}

/// What a lookup at `now` answers, given the entry it found.
pub open spec fn spec_lookup_outcome(found: Option<MapEntry>, now: TimeMs, r: LookupOutcome)
    -> bool {
    match found {
        None => r is MustRequest,
        Some(e) => if !entry_fresh(e, now) {
            r is MustRequest
        } else {
            match e {
                MapEntry::Pending { .. } => r is Wait,
                MapEntry::Resolved { info, .. } => r matches LookupOutcome::Hit(i) && i == info,
                MapEntry::Gone { .. } => r is HitGone,
            }
        },
    }
}

/// The entry a token holds after a lookup at `now`.
pub open spec fn spec_entry_after_lookup(found: Option<MapEntry>, now: TimeMs) -> MapEntry {
    match found {
        None => MapEntry::Pending { waiters: 1 },
        Some(e) => if !entry_fresh(e, now) {
            MapEntry::Pending { waiters: 1 }
        } else {
            match e {
                MapEntry::Pending { waiters } => MapEntry::Pending {
                    waiters: if waiters == u32::MAX {
                        waiters
                    } else {
                        (waiters + 1) as u32
                    },
                },
                _ => e,
            }
        },
    }
}

impl RouteMap {
    /// The entry cached for a token.
    pub closed spec fn entry_of(&self, token: Seq<char>) -> Option<MapEntry> {
        match find_by(self.entries@, entry_key(), token) {
            Some(e) => Some(e.1),
            None => None,
        }
    }

    /// Tokens are cached at most once.
    pub closed spec fn wf(&self) -> bool {
        unique_by(self.entries@, entry_key())
    }

    /// An empty cache.
    pub fn new() -> (m: RouteMap)
        ensures
            m.wf(),
            forall|t: Seq<char>| #[trigger] m.entry_of(t) is None,
    {
        let m = RouteMap { entries: Vec::new() };
        proof {
            assert forall|t: Seq<char>| #[trigger] m.entry_of(t) is None by {
                lemma_find_none(m.entries@, entry_key(), t);
            }
        }
        m
    }

    /// Look a token up at `now`. Exactly when the outcome is
    /// `MustRequest`, the caller owes the controller one
    /// `RouteInfoRequest`; the token is left pending either way, so
    /// concurrent lookups coalesce onto that one request.
    pub fn lookup(&mut self, token: &BearerToken, now: TimeMs) -> (r: LookupOutcome)
        requires
            old(self).wf(),
        ensures
            final(self).wf(),
            spec_lookup_outcome(old(self).entry_of(token@), now, r),
            final(self).entry_of(token@) == Some(
                spec_entry_after_lookup(old(self).entry_of(token@), now),
            ),
            forall|t: Seq<char>|
                t != token@ ==> #[trigger] final(self).entry_of(t) == old(self).entry_of(t),
    {
        let ghost old_entries = self.entries@;
        let mut i: usize = 0;
        while i < self.entries.len()
            invariant
                self.wf(),
                *self == *old(self),
                i <= self.entries@.len(),
                forall|j: int| 0 <= j < i ==> (#[trigger] self.entries@[j]).0@ != token@,
            decreases self.entries@.len() - i,
        {
            if self.entries[i].0.token == token.token {
                proof {
                    crate::table::lemma_find_at(self.entries@, entry_key(), i as int);
                }
                let fresh = match &self.entries[i].1 {
                    MapEntry::Pending { .. } => true,
                    MapEntry::Resolved { expires, .. } => now.ms < expires.ms,
                    MapEntry::Gone { expires } => now.ms < expires.ms,
                };
                let ghost old_rows = self.entries@;
                if !fresh {
                    let name = self.entries[i].0.clone();
                    self.entries.set(i, (name, MapEntry::Pending { waiters: 1 }));
                    proof {
                        lemma_find_update(old_rows, self.entries@, entry_key(), i as int);
                    }
                    return LookupOutcome::MustRequest;
                }
                match &self.entries[i].1 {
                    MapEntry::Pending { waiters } => {
                        let w = *waiters;
                        let new_w = if w == u32::MAX {
                            w
                        } else {
                            w + 1
                        };
                        let name = self.entries[i].0.clone();
                        self.entries.set(i, (name, MapEntry::Pending { waiters: new_w }));
                        proof {
                            lemma_find_update(old_rows, self.entries@, entry_key(), i as int);
                        }
                        return LookupOutcome::Wait;
                    },
                    MapEntry::Resolved { info, .. } => {
                        let out = RouteInfo {
                            backend_id: info.backend_id.clone(),
                            address: info.address,
                            secret_token: info.secret_token.clone(),
                            cluster: info.cluster.clone(),
                            user: match &info.user {
                                Some(u) => Some(u.clone()),
                                None => None,
                            },
                            user_data: match &info.user_data {
                                Some(u) => Some(u.clone()),
                                None => None,
                            },
                            subdomain: match &info.subdomain {
                                Some(sd) => Some(sd.clone()),
                                None => None,
                            },
                        };
                        return LookupOutcome::Hit(out);
                    },
                    MapEntry::Gone { .. } => {
                        return LookupOutcome::HitGone;
                    },
                }
            }
            i = i + 1;
        }
        proof {
            lemma_find_none(self.entries@, entry_key(), token@);
            assert forall|j: int| 0 <= j < old_entries.len() implies entry_key()(
                #[trigger] old_entries[j],
            ) != token@ by {}
        }
        self.entries.push((token.clone(), MapEntry::Pending { waiters: 1 }));
        proof {
            lemma_find_push(old_entries, entry_key(), self.entries@.last());
        }
        LookupOutcome::MustRequest
    }

    /// Store the controller's answer for a token: a route is cached for
    /// [`ROUTE_TTL_MS`], a negative answer for [`GONE_TTL_MS`].
    pub fn receive_response(&mut self, token: &BearerToken, info: Option<RouteInfo>, now: TimeMs)
        requires
            old(self).wf(),
            now.ms + ROUTE_TTL_MS <= i64::MAX,
        ensures
            final(self).wf(),
            final(self).entry_of(token@) == Some(spec_response_entry(info, now)),
            forall|t: Seq<char>|
                t != token@ ==> #[trigger] final(self).entry_of(t) == old(self).entry_of(t),
    {
        let entry = match info {
            Some(route) => MapEntry::Resolved {
                info: route,
                expires: TimeMs { ms: now.ms + ROUTE_TTL_MS },
            },
            None => MapEntry::Gone { expires: TimeMs { ms: now.ms + GONE_TTL_MS } },
        };
        let ghost old_entries = self.entries@;
        let mut i: usize = 0;
        while i < self.entries.len()
            invariant
                self.wf(),
                *self == *old(self),
                entry == spec_response_entry(info, now),
                i <= self.entries@.len(),
                forall|j: int| 0 <= j < i ==> (#[trigger] self.entries@[j]).0@ != token@,
            decreases self.entries@.len() - i,
        {
            if self.entries[i].0.token == token.token {
                proof {
                    crate::table::lemma_find_at(self.entries@, entry_key(), i as int);
                }
                let ghost old_rows = self.entries@;
                let name = self.entries[i].0.clone();
                self.entries.set(i, (name, entry));
                proof {
                    lemma_find_update(old_rows, self.entries@, entry_key(), i as int);
                }
                return ;
            }
            i = i + 1;
        }
        proof {
            lemma_find_none(self.entries@, entry_key(), token@);
            assert forall|j: int| 0 <= j < old_entries.len() implies entry_key()(
                #[trigger] old_entries[j],
            ) != token@ by {}
        }
        self.entries.push((token.clone(), entry));
        proof {
            lemma_find_push(old_entries, entry_key(), self.entries@.last());
        }
    }
}

/// How many controller requests a run of `k` lookups of one token sends,
/// starting from the entry `found`, with no response arriving in between.
pub open spec fn requests_sent(found: Option<MapEntry>, now: TimeMs, k: int) -> int
    decreases k,
{
    if k <= 0 {
        0
    } else {
        (if spec_lookup_must_request(found, now) {
            1int
        } else {
            0int
        }) + requests_sent(Some(spec_entry_after_lookup(found, now)), now, k - 1)
    }
}

/// Whether a lookup at `now` on this entry asks the controller.
pub open spec fn spec_lookup_must_request(found: Option<MapEntry>, now: TimeMs) -> bool {
    match found {
        None => true,
        Some(e) => !entry_fresh(e, now),
    }
}

/// Law: `k` concurrent lookups of one unknown token send exactly one
/// `RouteInfoRequest`: the first inserts a pending entry and asks, every
/// later one waits on it.
pub proof fn lemma_request_coalescing(now: TimeMs, k: int)
    requires
        1 <= k,
    ensures
        requests_sent(None, now, k) == 1,
{
    lemma_pending_sends_nothing(MapEntry::Pending { waiters: 1 }, now, k - 1);
}

/// A pending entry never sends: lookups only bump its waiter count.
proof fn lemma_pending_sends_nothing(e: MapEntry, now: TimeMs, k: int)
    requires
        e is Pending,
    ensures
        requests_sent(Some(e), now, k) == 0,
    decreases k,
{
    if k > 0 {
        lemma_pending_sends_nothing(spec_entry_after_lookup(Some(e), now), now, k - 1);
    }
}


/// The entry the controller's answer is cached as.
pub open spec fn spec_response_entry(info: Option<RouteInfo>, now: TimeMs) -> MapEntry {
    match info {
        Some(route) => MapEntry::Resolved {
            info: route,
            expires: TimeMs { ms: (now.ms + ROUTE_TTL_MS) as i64 },
        },
        None => MapEntry::Gone { expires: TimeMs { ms: (now.ms + GONE_TTL_MS) as i64 } },
    }
}

} // verus!
