//! Messages between the platform and drone agents, and the coarse backend
//! state an agent reports, with the subjects they travel on.

use vstd::prelude::*;
use vstd::string::StrSliceExecFns;
use vstd::string::StringExecFns;

use crate::time::{now_ms, TimeMs};
use crate::types::IpAddress;

verus! {

/// A subject on the message bus carrying messages of type `M` answered by
/// type `R`.
#[derive(Debug)]
pub struct Subject<M, R> {
    pub subject: String,
    pub marker: core::marker::PhantomData<(M, R)>,
}

impl<M, R> Subject<M, R> {
    /// A subject with this name.
    pub fn new(subject: String) -> (s: Subject<M, R>)
        ensures
            s.subject@ == subject@,
    {
        Subject { subject, marker: core::marker::PhantomData }
    }
}

/// A subject pattern for subscribing.
#[derive(Debug)]
pub struct SubscribeSubject<M, R> {
    pub subject: String,
    pub marker: core::marker::PhantomData<(M, R)>,
}

impl<M, R> SubscribeSubject<M, R> {
    /// A subject pattern with this name.
    pub fn new(subject: String) -> (s: SubscribeSubject<M, R>)
        ensures
            s.subject@ == subject@,
    {
        SubscribeSubject { subject, marker: core::marker::PhantomData }
    }
}

/// The reply type of fire-and-forget subjects.
#[derive(Debug, Clone, Copy, PartialEq, Eq, Structural)]
pub struct NoReply {}

/// A drone's identifier on the bus.
#[derive(Debug, Eq)]
pub struct DroneId {
    pub id: String,
}

impl View for DroneId {
    type V = Seq<char>;

    open spec fn view(&self) -> Seq<char> {
        self.id@
    }
}

impl Clone for DroneId {
    fn clone(&self) -> (r: Self)
        ensures
            r == *self,
    {
        DroneId { id: self.id.clone() }
    }
}

impl PartialEq for DroneId {
    fn eq(&self, o: &Self) -> bool {
        self.id == o.id
    }
}

impl vstd::std_specs::cmp::PartialEqSpecImpl for DroneId {
    open spec fn obeys_eq_spec() -> bool {
        true
    }

    open spec fn eq_spec(&self, o: &Self) -> bool {
        self.id@ == o.id@
    }
}

impl DroneId {
    /// The raw identifier.
    pub fn id(&self) -> (r: &str)
        ensures
            r@ == self.id@,
    {
        self.id.as_str()
    }
}

/// A backend's identifier on the bus.
#[derive(Debug, Eq)]
pub struct BackendId {
    pub id: String,
}

impl View for BackendId {
    type V = Seq<char>;

    open spec fn view(&self) -> Seq<char> {
        self.id@
    }
}

impl Clone for BackendId {
    fn clone(&self) -> (r: Self)
        ensures
            r == *self,
    {
        BackendId { id: self.id.clone() }
    }
}

impl PartialEq for BackendId {
    fn eq(&self, o: &Self) -> bool {
        self.id == o.id
    }
}

impl vstd::std_specs::cmp::PartialEqSpecImpl for BackendId {
    open spec fn obeys_eq_spec() -> bool {
        true
    }

    open spec fn eq_spec(&self, o: &Self) -> bool {
        self.id@ == o.id@
    }
}

impl BackendId {
    /// The raw identifier.
    pub fn id(&self) -> (r: &str)
        ensures
            r@ == self.id@,
    {
        self.id.as_str()
    }
}

/// A periodic liveness and capacity report from a drone.
#[derive(Debug)]
pub struct DroneStatusMessage {
    pub drone_id: DroneId,
    pub cluster: String,
    pub capacity: u32,
}

impl DroneStatusMessage {
    /// The subject one drone's status reports travel on.
    pub fn subject(drone_id: &DroneId) -> (s: Subject<DroneStatusMessage, NoReply>)
        ensures
            s.subject@ == "drone."@ + drone_id@ + ".status"@,
    {
        let mut text = String::new();
        text.append("drone.");
        text.append(drone_id.id.as_str());
        text.append(".status");
        Subject::new(text)
    }

    /// The pattern that subscribes to every drone's status reports.
    pub fn subject_subscribe() -> (s: SubscribeSubject<DroneStatusMessage, bool>)
        ensures
            s.subject@ == "drone.*.status"@,
    {
        SubscribeSubject::new("drone.*.status".to_owned())
    }
}

/// A request from a drone to connect to the platform.
#[derive(Debug)]
pub struct DroneConnectRequest {
    /// The cluster the drone is requesting to join.
    pub cluster: String,
    /// The public-facing address of the drone.
    pub ip: IpAddress,
}

/// A response from the platform to a drone's request to join.
#[derive(Debug)]
pub enum DroneConnectResponse {
    /// The drone has joined the cluster and been given an id.
    Success { drone_id: DroneId },
    /// The drone requested to join a cluster that does not exist.
    NoSuchCluster,
}

impl DroneConnectRequest {
    /// The subject drone registrations travel on.
    pub fn subject() -> (s: Subject<DroneConnectRequest, DroneConnectResponse>)
        ensures
            s.subject@ == "drone.register"@,
    {
        Subject::new("drone.register".to_owned())
    }
}

/// A message telling a drone to spawn a backend.
#[derive(Debug)]
pub struct SpawnRequest {
    /// The container image to run.
    pub image: String,
    /// The name of the backend; forms part of the hostname used to connect
    /// to it.
    pub backend_id: BackendId,
    /// Idle time, in milliseconds, after which the backend is shut down if
    /// no connections are made.
    pub max_idle_time: u64,
    /// Environment variables to pass in to the container.
    pub env: Vec<(String, String)>,
    /// Metadata for the spawn, added to log messages for observability.
    pub metadata: Vec<(String, String)>,
}

impl SpawnRequest {
    /// The subject one drone's spawn requests travel on.
    pub fn subject(drone_id: DroneId) -> (s: Subject<SpawnRequest, bool>)
        ensures
            s.subject@ == "drone."@ + drone_id@ + ".spawn"@,
    {
        let mut text = String::new();
        text.append("drone.");
        text.append(drone_id.id.as_str());
        text.append(".spawn");
        Subject::new(text)
    }
}

/// The coarse state of one backend, as an agent reports it.
#[derive(Debug, Clone, Copy, PartialEq, Eq, Structural)]
pub enum BackendState {
    /// The backend has been created, and the image is being fetched.
    Loading,
    /// A failure occurred while loading the image.
    ErrorLoading,
    /// The image has been fetched and is running, but is not yet listening
    /// on a port.
    Starting,
    /// A failure occurred while starting the container.
    ErrorStarting,
    /// The container is listening on the expected port.
    Ready,
    /// A timeout occurred before the container was ready.
    TimedOutBeforeReady,
    /// The container exited on its own initiative with a non-zero status.
    Failed,
    /// The container exited on its own initiative with a zero status.
    Exited,
    /// The container was terminated because all connections were closed.
    Swept,
}

/// The wire name of an agent-reported state.
pub open spec fn agent_state_name(s: BackendState) -> Seq<char> {
    match s {
        BackendState::Loading => "Loading"@,
        BackendState::ErrorLoading => "ErrorLoading"@,
        BackendState::Starting => "Starting"@,
        BackendState::ErrorStarting => "ErrorStarting"@,
        BackendState::Ready => "Ready"@,
        BackendState::TimedOutBeforeReady => "TimedOutBeforeReady"@,
        BackendState::Failed => "Failed"@,
        BackendState::Exited => "Exited"@,
        BackendState::Swept => "Swept"@,
    }
}

/// Whether an agent-reported state is terminal.
pub open spec fn agent_state_terminal(s: BackendState) -> bool {
    match s {
        BackendState::ErrorLoading => true,
        BackendState::ErrorStarting => true,
        BackendState::TimedOutBeforeReady => true,
        BackendState::Failed => true,
        BackendState::Exited => true,
        BackendState::Swept => true,
        _ => false,
    }
}

impl BackendState {
    /// Parse a state from its wire name; every other string is refused.
    pub fn from_str(s: &str) -> (r: Result<BackendState, String>)
        ensures
            match r {
                Ok(state) => s@ == agent_state_name(state),
                Err(_) => forall|state: BackendState| s@ != agent_state_name(state),
            },
    {
        proof {
            reveal_strlit("Loading");
            reveal_strlit("ErrorLoading");
            reveal_strlit("Starting");
            reveal_strlit("ErrorStarting");
            reveal_strlit("Ready");
            reveal_strlit("TimedOutBeforeReady");
            reveal_strlit("Failed");
            reveal_strlit("Exited");
            reveal_strlit("Swept");
        }
        if str_eq(s, "Loading") {
            Ok(BackendState::Loading)
        } else if str_eq(s, "ErrorLoading") {
            Ok(BackendState::ErrorLoading)
        } else if str_eq(s, "Starting") {
            Ok(BackendState::Starting)
        } else if str_eq(s, "ErrorStarting") {
            Ok(BackendState::ErrorStarting)
        } else if str_eq(s, "Ready") {
            Ok(BackendState::Ready)
        } else if str_eq(s, "TimedOutBeforeReady") {
            Ok(BackendState::TimedOutBeforeReady)
        } else if str_eq(s, "Failed") {
            Ok(BackendState::Failed)
        } else if str_eq(s, "Exited") {
            Ok(BackendState::Exited)
        } else if str_eq(s, "Swept") {
            Ok(BackendState::Swept)
        } else {
            let mut msg = String::new();
            msg.append("not a valid state: ");
            msg.append(s);
            Err(msg)
        }
    }

    /// The state's wire name.
    pub fn to_string(&self) -> (r: String)
        ensures
            r@ == agent_state_name(*self),
    {
        match self {
            BackendState::Loading => "Loading".to_owned(),
            BackendState::ErrorLoading => "ErrorLoading".to_owned(),
            BackendState::Starting => "Starting".to_owned(),
            BackendState::ErrorStarting => "ErrorStarting".to_owned(),
            BackendState::Ready => "Ready".to_owned(),
            BackendState::TimedOutBeforeReady => "TimedOutBeforeReady".to_owned(),
            BackendState::Failed => "Failed".to_owned(),
            BackendState::Exited => "Exited".to_owned(),
            BackendState::Swept => "Swept".to_owned(),
        }
    }

    /// Whether this state is terminal: the backend will not come back
    /// from it.
    pub fn terminal(self) -> (r: bool)
        ensures
            r == agent_state_terminal(self),
    {
        matches!(
            self,
            BackendState::ErrorLoading | BackendState::ErrorStarting
                | BackendState::TimedOutBeforeReady | BackendState::Failed | BackendState::Exited
                | BackendState::Swept
        )
    }
}

/// Law: parsing a state's wire name gives the state back, for every state.
pub proof fn lemma_state_name_round_trip(a: BackendState, b: BackendState)
    ensures
        agent_state_name(a) == agent_state_name(b) ==> a == b,
{
    reveal_strlit("Loading");
    reveal_strlit("ErrorLoading");
    reveal_strlit("Starting");
    reveal_strlit("ErrorStarting");
    reveal_strlit("Ready");
    reveal_strlit("TimedOutBeforeReady");
    reveal_strlit("Failed");
    reveal_strlit("Exited");
    reveal_strlit("Swept");
    if agent_state_name(a) == agent_state_name(b) {
        assert(agent_state_name(a).len() == agent_state_name(b).len());
        assert(agent_state_name(a)[0] == agent_state_name(b)[0]);
        assert(a == b);
    }
}

/// Whether two strings hold the same characters.
pub fn str_eq(a: &str, b: &str) -> (r: bool)
    ensures
        r == (a@ == b@),
{
    let la = a.unicode_len();
    let lb = b.unicode_len();
    if la != lb {
        return false;
    }
    let mut i: usize = 0;
    while i < la
        invariant
            i <= la,
            la == a@.len(),
            la == b@.len(),
            forall|j: int| 0 <= j < i ==> a@[j] == b@[j],
        decreases la - i,
    {
        if a.get_char(i) != b.get_char(i) {
            return false;
        }
        i = i + 1;
    }
    proof {
        assert(a@ =~= b@);
    }
    true
}

/// A message reporting a change in the state of a backend.
#[derive(Debug)]
pub struct BackendStateMessage {
    /// The new state.
    pub state: BackendState,
    /// The time the state change was observed.
    pub time: TimeMs,
}

impl BackendStateMessage {
    /// Construct a status message using the current time as its timestamp.
    pub fn new(state: BackendState) -> (m: BackendStateMessage)
        ensures
            m.state == state,
    {
        BackendStateMessage { state, time: now_ms() }
    }

    /// The subject one backend's status messages travel on.
    pub fn subject(backend_id: &BackendId) -> (s: Subject<BackendStateMessage, NoReply>)
        ensures
            s.subject@ == "backend."@ + backend_id@ + ".status"@,
    {
        let mut text = String::new();
        text.append("backend.");
        text.append(backend_id.id.as_str());
        text.append(".status");
        Subject::new(text)
    }
}

} // verus!
