//! The per-backend lifecycle state machine.
//!
//! A backend moves through `Scheduled -> Loading -> Starting -> Waiting ->
//! Ready`, and from any of those into `Terminating` or `HardTerminating` and
//! finally `Terminated`. Each state maps to a status whose integer rank is
//! strictly increasing along the lifecycle, which lets state updates be
//! applied commutatively by taking the maximum rank.

use vstd::prelude::*;

use crate::time::TimeMs;
use crate::types::{
    status_rank, BackendAddr, BackendStatus, TerminationKind, TerminationReason,
};

verus! {

/// The full state of one backend, as stored durably and sent on the wire.
#[derive(Clone, Copy, Debug, PartialEq, Eq, Structural)]
pub enum BackendState {
    /// Created by the controller; no drone work has begun.
    Scheduled,
    /// The drone is fetching the image.
    Loading,
    /// The container is being created and started.
    Starting,
    /// The container runs but does not answer on its port yet.
    Waiting,
    /// The container answers at `address`.
    Ready { address: BackendAddr },
    /// A graceful stop was requested.
    Terminating {
        kind: TerminationKind,
        reason: TerminationReason,
        last_status: BackendStatus,
    },
    /// A forceful stop was requested (or a graceful one escalated).
    HardTerminating { reason: TerminationReason, last_status: BackendStatus },
    /// The container exited.
    Terminated {
        last_status: BackendStatus,
        termination: Option<TerminationKind>,
        reason: Option<TerminationReason>,
        exit_code: Option<i32>,
    },
}

/// The status (rank carrier) of a state.
pub open spec fn status_of(s: BackendState) -> BackendStatus {
    match s {
        BackendState::Scheduled => BackendStatus::Scheduled,
        BackendState::Loading => BackendStatus::Loading,
        BackendState::Starting => BackendStatus::Starting,
        BackendState::Waiting => BackendStatus::Waiting,
        BackendState::Ready { .. } => BackendStatus::Ready,
        BackendState::Terminating { .. } => BackendStatus::Terminating,
        BackendState::HardTerminating { .. } => BackendStatus::HardTerminating,
        BackendState::Terminated { .. } => BackendStatus::Terminated,
    }
}

/// The rank of a state: the rank of its status.
pub open spec fn state_rank(s: BackendState) -> int {
    status_rank(status_of(s))
}

/// The address a state exposes, if any.
pub open spec fn address_of(s: BackendState) -> Option<BackendAddr> {
    match s {
        BackendState::Ready { address } => Some(address),
        _ => None,
    }
}

/// The status a terminating or terminated state remembers as the last one
/// before termination began; for live states, the state's own status.
pub open spec fn remembered_status(s: BackendState) -> BackendStatus {
    match s {
        BackendState::Terminating { last_status, .. } => last_status,
        BackendState::HardTerminating { last_status, .. } => last_status,
        BackendState::Terminated { last_status, .. } => last_status,
        _ => status_of(s),
    }
}

impl BackendState {
    /// The status of this state.
    pub fn status(&self) -> (r: BackendStatus)
        ensures
            r == status_of(*self),
    {
        match self {
            BackendState::Scheduled => BackendStatus::Scheduled,
            BackendState::Loading => BackendStatus::Loading,
            BackendState::Starting => BackendStatus::Starting,
            BackendState::Waiting => BackendStatus::Waiting,
            BackendState::Ready { .. } => BackendStatus::Ready,
            BackendState::Terminating { .. } => BackendStatus::Terminating,
            BackendState::HardTerminating { .. } => BackendStatus::HardTerminating,
            BackendState::Terminated { .. } => BackendStatus::Terminated,
        }
    }

    /// The address this state exposes, if any.
    pub fn address(&self) -> (r: Option<BackendAddr>)
        ensures
            r == address_of(*self),
    {
        match self {
            BackendState::Ready { address } => Some(*address),
            _ => None,
        }
    }

    /// Whether this state is terminal.
    pub fn is_terminated(&self) -> (r: bool)
        ensures
            r == (status_of(*self) == BackendStatus::Terminated),
    {
        matches!(self, BackendState::Terminated { .. })
    }

    /// The state after a termination request of the given kind: soft requests
    /// yield `Terminating`, hard ones `HardTerminating`. The current status
    /// is remembered as `last_status`.
    pub fn to_terminating(&self, kind: TerminationKind, reason: TerminationReason) -> (r:
        BackendState)
        ensures
            r == terminating_from(*self, kind, reason),
    {
        match kind {
            TerminationKind::Soft => BackendState::Terminating {
                kind,
                reason,
                last_status: self.status(),
            },
            TerminationKind::Hard => BackendState::HardTerminating {
                reason,
                last_status: self.status(),
            },
        }
    }

    /// The state after a hard termination request.
    pub fn to_hard_terminating(&self, reason: TerminationReason) -> (r: BackendState)
        ensures
            r == terminating_from(*self, TerminationKind::Hard, reason),
    {
        BackendState::HardTerminating { reason, last_status: self.status() }
    }

    /// The state after the container exited. A state that was already
    /// terminating carries its kind, reason and remembered status through;
    /// an exit before any terminate request is recorded as `ExitSelf`.
    pub fn to_terminated(&self, exit_code: Option<i32>) -> (r: BackendState)
        ensures
            r == terminated_from(*self, exit_code),
    {
        match self {
            BackendState::Terminating { kind, reason, last_status } => BackendState::Terminated {
                last_status: *last_status,
                termination: Some(*kind),
                reason: Some(*reason),
                exit_code,
            },
            BackendState::HardTerminating { reason, last_status } => BackendState::Terminated {
                last_status: *last_status,
                termination: Some(TerminationKind::Hard),
                reason: Some(*reason),
                exit_code,
            },
            _ => BackendState::Terminated {
                last_status: self.status(),
                termination: None,
                reason: Some(TerminationReason::ExitSelf),
                exit_code,
            },
        }
    }
}

/// What `to_terminating` / `to_hard_terminating` produce.
pub open spec fn terminating_from(
    s: BackendState,
    kind: TerminationKind,
    reason: TerminationReason,
) -> BackendState {
    match kind {
        TerminationKind::Soft => BackendState::Terminating {
            kind,
            reason,
            last_status: status_of(s),
        },
        TerminationKind::Hard => BackendState::HardTerminating {
            reason,
            last_status: status_of(s),
        },
    }
}

/// What `to_terminated` produces.
pub open spec fn terminated_from(s: BackendState, exit_code: Option<i32>) -> BackendState {
    match s {
        BackendState::Terminating { kind, reason, last_status } => BackendState::Terminated {
            last_status,
            termination: Some(kind),
            reason: Some(reason),
            exit_code,
        },
        BackendState::HardTerminating { reason, last_status } => BackendState::Terminated {
            last_status,
            termination: Some(TerminationKind::Hard),
            reason: Some(reason),
            exit_code,
        },
        _ => BackendState::Terminated {
            last_status: status_of(s),
            termination: None,
            reason: Some(TerminationReason::ExitSelf),
            exit_code,
        },
    }
}

/// How long a graceful stop may stay outstanding before it is escalated
/// to a forced one.
pub const SOFT_TERMINATION_GRACE_MS: i64 = 10_000;

/// Whether a graceful stop requested at `requested_at` has been
/// outstanding longer than the grace at `now`.
pub open spec fn spec_soft_termination_overdue(requested_at: TimeMs, now: TimeMs) -> bool {
    now.ms - requested_at.ms > SOFT_TERMINATION_GRACE_MS
}

/// Decide whether a backend still in `Terminating` must be escalated: the
/// graceful stop was requested at `requested_at` and the container has
/// not exited by `now`, past the grace.
pub fn soft_termination_overdue(requested_at: TimeMs, now: TimeMs) -> (r: bool)
    ensures
        r == spec_soft_termination_overdue(requested_at, now),
{
    (now.ms as i128) - (requested_at.ms as i128) > SOFT_TERMINATION_GRACE_MS as i128
}

/// Moving a live (not yet terminating) state into termination strictly
/// raises its rank, and a terminated state always has the top rank.
pub proof fn lemma_termination_raises_rank(
    s: BackendState,
    kind: TerminationKind,
    reason: TerminationReason,
    exit_code: Option<i32>,
)
    ensures
        state_rank(s) < status_rank(BackendStatus::Terminating) ==> state_rank(s) < state_rank(
            terminating_from(s, kind, reason),
        ),
        state_rank(s) < status_rank(BackendStatus::Terminated) ==> state_rank(s) < state_rank(
            terminated_from(s, exit_code),
        ),
        state_rank(terminated_from(s, exit_code)) == status_rank(BackendStatus::Terminated),
{
}

} // verus!
