//! Identifiers and small value types shared by the controller, the drone
//! agent and the proxy.

use vstd::prelude::*;

verus! {

/// DNS-style name of a routing domain; forms the host part of backend URLs.
#[derive(Debug, Eq)]
pub struct ClusterName {
    pub name: String,
}

impl View for ClusterName {
    type V = Seq<char>;

    open spec fn view(&self) -> Seq<char> {
        self.name@
    }
}

impl Clone for ClusterName {
    fn clone(&self) -> (r: Self)
        ensures
            r == *self,
    {
        ClusterName { name: self.name.clone() }
    }
}

impl PartialEq for ClusterName {
    fn eq(&self, o: &Self) -> bool {
        self.name == o.name
    }
}

impl vstd::std_specs::cmp::PartialEqSpecImpl for ClusterName {
    open spec fn obeys_eq_spec() -> bool {
        true
    }

    open spec fn eq_spec(&self, o: &Self) -> bool {
        self.name@ == o.name@
    }
}

/// Unique (per cluster) name of one session backend.
#[derive(Debug, Eq)]
pub struct BackendName {
    pub name: String,
}

impl View for BackendName {
    type V = Seq<char>;

    open spec fn view(&self) -> Seq<char> {
        self.name@
    }
}

impl Clone for BackendName {
    fn clone(&self) -> (r: Self)
        ensures
            r == *self,
    {
        BackendName { name: self.name.clone() }
    }
}

impl PartialEq for BackendName {
    fn eq(&self, o: &Self) -> bool {
        self.name == o.name
    }
}

impl vstd::std_specs::cmp::PartialEqSpecImpl for BackendName {
    open spec fn obeys_eq_spec() -> bool {
        true
    }

    open spec fn eq_spec(&self, o: &Self) -> bool {
        self.name@ == o.name@
    }
}

impl BackendName {
    /// A fresh random backend name.
    pub fn new_random() -> (r: BackendName)
        ensures
            r.name@.len() == 12,
    {
        BackendName { name: crate::rng::random_string(12) }
    }
}

/// Node identifier of a worker host.
#[derive(Debug, Eq)]
pub struct DroneName {
    pub name: String,
}

impl View for DroneName {
    type V = Seq<char>;

    open spec fn view(&self) -> Seq<char> {
        self.name@
    }
}

impl Clone for DroneName {
    fn clone(&self) -> (r: Self)
        ensures
            r == *self,
    {
        DroneName { name: self.name.clone() }
    }
}

impl PartialEq for DroneName {
    fn eq(&self, o: &Self) -> bool {
        self.name == o.name
    }
}

impl vstd::std_specs::cmp::PartialEqSpecImpl for DroneName {
    open spec fn obeys_eq_spec() -> bool {
        true
    }

    open spec fn eq_spec(&self, o: &Self) -> bool {
        self.name@ == o.name@
    }
}

/// Node identifier of a proxy.
#[derive(Debug, Eq)]
pub struct ProxyName {
    pub name: String,
}

impl View for ProxyName {
    type V = Seq<char>;

    open spec fn view(&self) -> Seq<char> {
        self.name@
    }
}

impl Clone for ProxyName {
    fn clone(&self) -> (r: Self)
        ensures
            r == *self,
    {
        ProxyName { name: self.name.clone() }
    }
}

impl PartialEq for ProxyName {
    fn eq(&self, o: &Self) -> bool {
        self.name == o.name
    }
}

impl vstd::std_specs::cmp::PartialEqSpecImpl for ProxyName {
    open spec fn obeys_eq_spec() -> bool {
        true
    }

    open spec fn eq_spec(&self, o: &Self) -> bool {
        self.name@ == o.name@
    }
}

/// Integer surrogate key the controller assigns to any registered node.
#[derive(Clone, Copy, Debug, PartialEq, Eq, Structural)]
pub struct NodeId {
    pub id: i32,
}

impl NodeId {
    pub fn as_i32(&self) -> (r: i32)
        ensures
            r == self.id,
    {
        self.id
    }
}

/// Shared secret for backend-to-proxy authentication.
#[derive(Debug, Eq)]
pub struct SecretToken {
    pub token: String,
}

impl View for SecretToken {
    type V = Seq<char>;

    open spec fn view(&self) -> Seq<char> {
        self.token@
    }
}

impl Clone for SecretToken {
    fn clone(&self) -> (r: Self)
        ensures
            r == *self,
    {
        SecretToken { token: self.token.clone() }
    }
}

impl PartialEq for SecretToken {
    fn eq(&self, o: &Self) -> bool {
        self.token == o.token
    }
}

impl vstd::std_specs::cmp::PartialEqSpecImpl for SecretToken {
    open spec fn obeys_eq_spec() -> bool {
        true
    }

    open spec fn eq_spec(&self, o: &Self) -> bool {
        self.token@ == o.token@
    }
}

/// Optional host-label constraint attached to a backend.
#[derive(Debug, Eq)]
pub struct Subdomain {
    pub label: String,
}

impl View for Subdomain {
    type V = Seq<char>;

    open spec fn view(&self) -> Seq<char> {
        self.label@
    }
}

impl Clone for Subdomain {
    fn clone(&self) -> (r: Self)
        ensures
            r == *self,
    {
        Subdomain { label: self.label.clone() }
    }
}

impl PartialEq for Subdomain {
    fn eq(&self, o: &Self) -> bool {
        self.label == o.label
    }
}

impl vstd::std_specs::cmp::PartialEqSpecImpl for Subdomain {
    open spec fn obeys_eq_spec() -> bool {
        true
    }

    open spec fn eq_spec(&self, o: &Self) -> bool {
        self.label@ == o.label@
    }
}

/// Opaque URL path segment that authorizes one client to one backend.
///
/// A token is static iff it begins with `s.`; static tokens pass the original
/// URL path through to the backend, non-static tokens strip the token prefix.
#[derive(Debug, Eq)]
pub struct BearerToken {
    pub token: String,
}

impl View for BearerToken {
    type V = Seq<char>;

    open spec fn view(&self) -> Seq<char> {
        self.token@
    }
}

impl Clone for BearerToken {
    fn clone(&self) -> (r: Self)
        ensures
            r == *self,
    {
        BearerToken { token: self.token.clone() }
    }
}

impl PartialEq for BearerToken {
    fn eq(&self, o: &Self) -> bool {
        self.token == o.token
    }
}

impl vstd::std_specs::cmp::PartialEqSpecImpl for BearerToken {
    open spec fn obeys_eq_spec() -> bool {
        true
    }

    open spec fn eq_spec(&self, o: &Self) -> bool {
        self.token@ == o.token@
    }
}

/// Whether a token's text marks it as static: it begins with `s.`.
pub open spec fn is_static_token(t: Seq<char>) -> bool {
    t.len() >= 2 && t[0] == 's' && t[1] == '.'
}

impl BearerToken {
    /// Whether this token is static (`s.` prefix).
    pub fn is_static(&self) -> (r: bool)
        ensures
            r == is_static_token(self.token@),
    {
        let len = self.token.as_str().unicode_len();
        if len < 2 {
            false
        } else {
            let c0 = self.token.as_str().get_char(0);
            let c1 = self.token.as_str().get_char(1);
            c0 == 's' && c1 == '.'
        }
    }
}

/// Identity of a named fencing lock: at most one live backend may hold a
/// given `(cluster, namespace, name, tag)` at a time.
#[derive(Debug, Eq)]
pub struct KeyConfig {
    pub name: String,
    pub namespace: String,
    pub tag: String,
}

impl Clone for KeyConfig {
    fn clone(&self) -> (r: Self)
        ensures
            r == *self,
    {
        KeyConfig { name: self.name.clone(), namespace: self.namespace.clone(), tag: self.tag.clone() }
    }
}

impl PartialEq for KeyConfig {
    fn eq(&self, o: &Self) -> bool {
        self.name == o.name && self.namespace == o.namespace && self.tag == o.tag
    }
}

impl vstd::std_specs::cmp::PartialEqSpecImpl for KeyConfig {
    open spec fn obeys_eq_spec() -> bool {
        true
    }

    open spec fn eq_spec(&self, o: &Self) -> bool {
        self.name@ == o.name@ && self.namespace@ == o.namespace@ && self.tag@ == o.tag@
    }
}

impl View for KeyConfig {
    type V = (Seq<char>, Seq<char>, Seq<char>);

    open spec fn view(&self) -> (Seq<char>, Seq<char>, Seq<char>) {
        (self.name@, self.namespace@, self.tag@)
    }
}

/// Graceful signal versus forceful kill.
#[derive(Clone, Copy, Debug, PartialEq, Eq, Structural)]
pub enum TerminationKind {
    Soft,
    Hard,
}

/// Why a backend was asked to terminate (or terminated on its own).
#[derive(Clone, Copy, Debug, PartialEq, Eq, Structural)]
pub enum TerminationReason {
    /// An external terminate request.
    External,
    /// The fencing key passed its soft or hard deadline without renewal.
    KeyExpired,
    /// Idle beyond the allowed idle window with no active connections.
    Swept,
    /// The backend passed its configured expiration time.
    Expired,
    /// The spawn failed.
    ErrorStarting,
    /// The container exited before any terminate request.
    ExitSelf,
    /// The backend was lost track of.
    Lost,
}

/// Coarse lifecycle stage of a backend; each stage carries a monotonic
/// integer rank so that state updates are commutative-max.
#[derive(Clone, Copy, Debug, PartialEq, Eq, Structural)]
pub enum BackendStatus {
    Scheduled,
    Loading,
    Starting,
    Waiting,
    Ready,
    Terminating,
    HardTerminating,
    Terminated,
}

/// The rank of a status; strictly increasing along the backend lifecycle.
pub open spec fn status_rank(s: BackendStatus) -> int {
    match s {
        BackendStatus::Scheduled => 1,
        BackendStatus::Loading => 10,
        BackendStatus::Starting => 20,
        BackendStatus::Waiting => 30,
        BackendStatus::Ready => 40,
        BackendStatus::Terminating => 50,
        BackendStatus::HardTerminating => 60,
        BackendStatus::Terminated => 70,
    }
}

impl BackendStatus {
    /// The monotonic integer rank stored as `last_status_number`.
    pub fn as_int(&self) -> (r: i32)
        ensures
            r == status_rank(*self),
    {
        match self {
            BackendStatus::Scheduled => 1,
            BackendStatus::Loading => 10,
            BackendStatus::Starting => 20,
            BackendStatus::Waiting => 30,
            BackendStatus::Ready => 40,
            BackendStatus::Terminating => 50,
            BackendStatus::HardTerminating => 60,
            BackendStatus::Terminated => 70,
        }
    }

    /// The status's wire name, as stored in the `last_status` column.
    pub fn to_str(&self) -> (r: &'static str)
        ensures
            r@ == status_name(*self),
    {
        match self {
            BackendStatus::Scheduled => "scheduled",
            BackendStatus::Loading => "loading",
            BackendStatus::Starting => "starting",
            BackendStatus::Waiting => "waiting",
            BackendStatus::Ready => "ready",
            BackendStatus::Terminating => "terminating",
            BackendStatus::HardTerminating => "hard-terminating",
            BackendStatus::Terminated => "terminated",
        }
    }
}

/// The wire name of a status.
pub open spec fn status_name(s: BackendStatus) -> Seq<char> {
    match s {
        BackendStatus::Scheduled => "scheduled"@,
        BackendStatus::Loading => "loading"@,
        BackendStatus::Starting => "starting"@,
        BackendStatus::Waiting => "waiting"@,
        BackendStatus::Ready => "ready"@,
        BackendStatus::Terminating => "terminating"@,
        BackendStatus::HardTerminating => "hard-terminating"@,
        BackendStatus::Terminated => "terminated"@,
    }
}

/// Every status rank is positive and at most the rank of `Terminated`.
pub proof fn lemma_status_rank_bounds(s: BackendStatus)
    ensures
        1 <= status_rank(s) <= 70,
{
}

/// Distinct statuses have distinct ranks, so the rank determines the status.
pub proof fn lemma_status_rank_injective(a: BackendStatus, b: BackendStatus)
    ensures
        status_rank(a) == status_rank(b) ==> a == b,
{
}

/// An IPv4 or IPv6 address, held as plain values.
#[derive(Clone, Copy, Debug, PartialEq, Eq, Structural)]
pub enum IpAddress {
    V4(u8, u8, u8, u8),
    V6(u16, u16, u16, u16, u16, u16, u16, u16),
}

/// A backend's reachable socket address.
#[derive(Clone, Copy, Debug, PartialEq, Eq, Structural)]
pub struct BackendAddr {
    pub ip: IpAddress,
    pub port: u16,
}

} // verus!
