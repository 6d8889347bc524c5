//! Message types exchanged between the controller, drones, proxies and the
//! DNS collaborator over the typed socket, and the API error shape.

use vstd::prelude::*;
use vstd::string::StrSliceExecFns;

use crate::backend_state::BackendState;
use crate::time::TimeMs;
use crate::types::{
    BackendAddr, BackendName, BearerToken, ClusterName, KeyConfig, NodeId, SecretToken,
    Subdomain, TerminationKind, TerminationReason,
};

verus! {

/// The failure classes an API caller can see.
#[derive(Clone, Copy, Debug, PartialEq, Eq, Structural)]
pub enum ApiErrorKind {
    FailedToAcquireKey,
    KeyUnheldNoSpawnConfig,
    KeyHeldUnhealthy,
    KeyHeld,
    NoDroneAvailable,
    FailedToRemoveKey,
    DatabaseError,
    NoClusterProvided,
    NotFound,
    InvalidClusterName,
    Other,
}

/// A user-visible failure, with a random id correlated to server logs.
#[derive(Clone, Debug)]
pub struct ApiError {
    pub id: String,
    pub kind: ApiErrorKind,
    pub message: String,
}

/// The HTTP status an error kind is answered with: key conflicts are 409,
/// an unknown name is 404, an unresolvable token 410, a missing drone 503,
/// a missing cluster or invalid name 400, and everything else 500.
pub open spec fn spec_status_code_of(kind: ApiErrorKind) -> int {
    match kind {
        ApiErrorKind::FailedToAcquireKey => 409,
        ApiErrorKind::KeyUnheldNoSpawnConfig => 400,
        ApiErrorKind::KeyHeldUnhealthy => 409,
        ApiErrorKind::KeyHeld => 409,
        ApiErrorKind::NoDroneAvailable => 503,
        ApiErrorKind::FailedToRemoveKey => 500,
        ApiErrorKind::DatabaseError => 500,
        ApiErrorKind::NoClusterProvided => 400,
        ApiErrorKind::NotFound => 404,
        ApiErrorKind::InvalidClusterName => 400,
        ApiErrorKind::Other => 500,
    }
}

impl ApiErrorKind {
    /// The HTTP status this kind is answered with.
    pub fn status_code(&self) -> (r: u16)
        ensures
            r == spec_status_code_of(*self),
    {
        match self {
            ApiErrorKind::FailedToAcquireKey => 409,
            ApiErrorKind::KeyUnheldNoSpawnConfig => 400,
            ApiErrorKind::KeyHeldUnhealthy => 409,
            ApiErrorKind::KeyHeld => 409,
            ApiErrorKind::NoDroneAvailable => 503,
            ApiErrorKind::FailedToRemoveKey => 500,
            ApiErrorKind::DatabaseError => 500,
            ApiErrorKind::NoClusterProvided => 400,
            ApiErrorKind::NotFound => 404,
            ApiErrorKind::InvalidClusterName => 400,
            ApiErrorKind::Other => 500,
        }
    }
}

impl ApiError {
    /// Build the error a handler answers with: the kind and message as
    /// given, under a fresh random id for correlating with server logs.
    pub fn new(kind: ApiErrorKind, message: &str) -> (e: ApiError)
        ensures
            e.kind == kind,
            e.message@ == message@,
            e.id@.len() == 8,
    {
        ApiError {
            id: crate::rng::random_string(8),
            kind,
            message: message.to_owned(),
        }
    }
}

/// Deadlines attached to an acquired fencing key.
#[derive(Clone, Copy, Debug, PartialEq, Eq, Structural)]
pub struct KeyDeadlines {
    /// When the key should be renewed.
    pub renew_at: TimeMs,
    /// When the backend should be soft-terminated if the key could not be
    /// renewed.
    pub soft_terminate_at: TimeMs,
    /// When the backend should be hard-terminated if the key could not be
    /// renewed.
    pub hard_terminate_at: TimeMs,
}

/// A fencing key as held by a backend, with its deadlines and the fencing
/// token: a number incremented each time the key is released and reacquired.
#[derive(Clone, Debug)]
pub struct AcquiredKey {
    pub key: KeyConfig,
    pub deadlines: KeyDeadlines,
    pub token: i64,
}

/// An instruction from the controller to a drone about one backend.
#[derive(Clone, Debug)]
pub enum BackendAction {
    Spawn {
        /// Opaque executable description (JSON text); only the drone's
        /// runtime knows its shape.
        executable: String,
        key: AcquiredKey,
        static_token: Option<BearerToken>,
    },
    Terminate { kind: TerminationKind, reason: TerminationReason },
}

impl BackendAction {
    /// Whether this action is a spawn.
    pub fn is_spawn(&self) -> (r: bool)
        ensures
            r == (self matches BackendAction::Spawn { .. }),
    {
        matches!(self, BackendAction::Spawn { .. })
    }
}

/// Identifier of one row in a drone's durable event queue.
#[derive(Clone, Copy, Debug, PartialEq, Eq, Structural)]
pub struct BackendEventId {
    pub id: i64,
}

impl From<i64> for BackendEventId {
    fn from(i: i64) -> Self {
        BackendEventId { id: i }
    }
}

impl vstd::std_specs::convert::FromSpecImpl<i64> for BackendEventId {
    open spec fn obeys_from_spec() -> bool {
        true
    }

    open spec fn from_spec(i: i64) -> Self {
        BackendEventId { id: i }
    }
}

impl From<BackendEventId> for i64 {
    fn from(id: BackendEventId) -> Self {
        id.id
    }
}

impl vstd::std_specs::convert::FromSpecImpl<BackendEventId> for i64 {
    open spec fn obeys_from_spec() -> bool {
        true
    }

    open spec fn from_spec(id: BackendEventId) -> Self {
        id.id
    }
}

/// A durable record of a backend state change, replayed to the controller
/// until acknowledged.
#[derive(Clone, Debug)]
pub struct BackendStateMessage {
    pub event_id: BackendEventId,
    pub backend_id: BackendName,
    pub state: BackendState,
    pub timestamp: TimeMs,
}

/// A drone's request to extend its key's deadlines.
#[derive(Clone, Debug)]
pub struct RenewKeyRequest {
    pub backend: BackendName,
    pub local_time: TimeMs,
}

/// A liveness signal from a drone.
#[derive(Clone, Copy, Debug, PartialEq, Eq, Structural)]
pub struct Heartbeat {
    pub local_time: TimeMs,
}

/// Resource usage of one backend, as deltas between metric samples.
#[derive(Clone, Debug)]
pub struct BackendMetricsMessage {
    pub backend_id: BackendName,
    /// Memory used by the backend excluding inactive file cache.
    pub mem_used: u64,
    /// Memory used by the backend in bytes.
    pub mem_total: u64,
    /// Active (non-reclaimable) memory.
    pub mem_active: u64,
    /// Inactive (reclaimable) memory.
    pub mem_inactive: u64,
    /// Unevictable memory.
    pub mem_unevictable: u64,
    /// The backend's memory limit.
    pub mem_limit: u64,
    /// Nanoseconds of CPU used by the backend since the last message.
    pub cpu_used: u64,
    /// Total CPU nanoseconds for the system since the last message.
    pub sys_cpu: u64,
}

/// Everything a drone sends the controller.
#[derive(Clone, Debug)]
pub enum MessageFromDrone {
    Heartbeat(Heartbeat),
    BackendEvent(BackendStateMessage),
    BackendMetrics(BackendMetricsMessage),
    AckAction { action_id: BackendActionName },
    RenewKey(RenewKeyRequest),
}

/// The controller's answer to a key renewal: new deadlines, or a denial.
#[derive(Clone, Debug)]
pub struct RenewKeyResponse {
    pub backend: BackendName,
    /// The renewed deadlines; `None` means the renewal was denied.
    pub deadlines: Option<KeyDeadlines>,
}

/// Identifier of one row in the controller's action outbox.
#[derive(Debug, Eq)]
pub struct BackendActionName {
    pub id: String,
}

impl View for BackendActionName {
    type V = Seq<char>;

    open spec fn view(&self) -> Seq<char> {
        self.id@
    }
}

impl Clone for BackendActionName {
    fn clone(&self) -> (r: Self)
        ensures
            r == *self,
    {
        BackendActionName { id: self.id.clone() }
    }
}

impl PartialEq for BackendActionName {
    fn eq(&self, o: &Self) -> bool {
        self.id == o.id
    }
}

impl vstd::std_specs::cmp::PartialEqSpecImpl for BackendActionName {
    open spec fn obeys_eq_spec() -> bool {
        true
    }

    open spec fn eq_spec(&self, o: &Self) -> bool {
        self.id@ == o.id@
    }
}

/// One outbox row delivered to a drone, redelivered until acked.
#[derive(Clone, Debug)]
pub struct BackendActionMessage {
    pub action_id: BackendActionName,
    pub backend_id: BackendName,
    pub drone_id: NodeId,
    pub action: BackendAction,
}

/// Everything the controller sends a drone.
#[derive(Clone, Debug)]
pub enum MessageToDrone {
    Action(BackendActionMessage),
    /// Acknowledge that the controller has committed a backend event.
    AckEvent { event_id: BackendEventId },
    RenewKeyResponse(RenewKeyResponse),
}

/// The tuple a proxy needs to forward a request to one backend.
#[derive(Clone, Debug)]
pub struct RouteInfo {
    pub backend_id: BackendName,
    pub address: BackendAddr,
    pub secret_token: SecretToken,
    pub cluster: ClusterName,
    pub user: Option<String>,
    /// Opaque auth metadata (JSON text).
    pub user_data: Option<String>,
    pub subdomain: Option<Subdomain>,
}

/// A proxy's side of the leased ACME flow.
#[derive(Clone, Debug)]
pub enum CertManagerRequest {
    /// Request a certificate lease for a cluster.
    CertLeaseRequest,
    /// Set the TXT record for a cluster. Fails if another proxy has more
    /// recently been granted the lease.
    SetTxtRecord { txt_value: String },
    /// Release a certificate lease so another proxy can take it at once.
    ReleaseCertLease,
}

/// The controller's answers in the leased ACME flow.
#[derive(Clone, Copy, Debug, PartialEq, Eq, Structural)]
pub enum CertManagerResponse {
    /// Acknowledge a lease request and say whether it was accepted.
    CertLeaseResponse { accepted: bool },
    /// Acknowledge a TXT record update and say whether it was accepted.
    SetTxtRecordResponse { accepted: bool },
}

/// A proxy asking the controller to resolve a bearer token.
#[derive(Clone, Debug)]
pub struct RouteInfoRequest {
    pub token: BearerToken,
}

/// The controller's answer: the route, or `None` when the token is unknown
/// or its backend is gone.
#[derive(Clone, Debug)]
pub struct RouteInfoResponse {
    pub token: BearerToken,
    pub route_info: Option<RouteInfo>,
}

/// Everything a proxy sends the controller.
#[derive(Clone, Debug)]
pub enum MessageFromProxy {
    RouteInfoRequest(RouteInfoRequest),
    KeepAlive(BackendName),
    CertManagerRequest(CertManagerRequest),
}

/// Everything the controller sends a proxy.
#[derive(Clone, Debug)]
pub enum MessageToProxy {
    RouteInfoResponse(RouteInfoResponse),
    CertManagerResponse(CertManagerResponse),
    BackendRemoved { backend: BackendName },
}

/// The DNS collaborator asking for the current ACME TXT value.
#[derive(Clone, Debug)]
pub enum MessageFromDns {
    TxtRecordRequest { cluster: ClusterName },
}

/// The controller's answer to the DNS collaborator.
#[derive(Clone, Debug)]
pub enum MessageToDns {
    TxtRecordResponse { cluster: ClusterName, txt_value: Option<String> },
}

/// The controller's liveness report.
#[derive(Clone, Debug)]
pub struct StatusResponse {
    pub status: String,
    pub version: String,
    pub hash: String,
}

} // verus!
