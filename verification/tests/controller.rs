//! Tests for the controller's scheduling state: connect, key reuse and
//! eviction, the rank-guarded state updates, the idle sweep, and route
//! lookups.

use plane::backend_state::BackendState;
use plane::controller::{
    ConnectRequest, ControllerState, FreshIds, RouteInfoResult, SpawnConfig,
};
use plane::protocol::ApiErrorKind;
use plane::time::TimeMs;
use plane::types::{
    BackendAddr, BackendName, BearerToken, ClusterName, DroneName, IpAddress, KeyConfig,
    SecretToken, TerminationReason,
};

fn cluster() -> ClusterName {
    ClusterName { name: "plane.test".to_owned() }
}

fn t(ms: i64) -> TimeMs {
    TimeMs { ms }
}

fn spawn_config() -> SpawnConfig {
    SpawnConfig {
        executable: "{\"image\":\"demo\"}".to_owned(),
        lifetime_limit_seconds: None,
        max_idle_seconds: Some(5),
        use_static_token: false,
        subdomain: None,
        pool: "default".to_owned(),
    }
}

fn request_with_key(name: &str) -> ConnectRequest {
    ConnectRequest {
        spawn_config: Some(spawn_config()),
        key: Some(KeyConfig {
            name: name.to_owned(),
            namespace: "default".to_owned(),
            tag: "v1".to_owned(),
        }),
        user: None,
        auth: "{}".to_owned(),
    }
}

fn fresh(n: &str) -> FreshIds {
    FreshIds {
        backend: BackendName { name: format!("backend-{}", n) },
        token: BearerToken { token: format!("token-{}", n) },
        secret: SecretToken { token: format!("secret-{}", n) },
    }
}

fn state_with_drone() -> ControllerState {
    let mut state = ControllerState::new();
    state.register_drone(
        &DroneName { name: "drone-1".to_owned() },
        &cluster(),
        &"default".to_owned(),
        true,
        t(1_000),
    );
    state
}

#[test]
fn fresh_connect_creates_scheduled_backend_and_one_spawn() {
    let mut state = state_with_drone();
    let request = ConnectRequest {
        spawn_config: Some(spawn_config()),
        key: None,
        user: None,
        auth: "{}".to_owned(),
    };
    let resp = state
        .connect(&cluster(), &request, &fresh("a"), "https://ctrl", t(2_000))
        .expect("connect succeeds");

    assert!(resp.spawned);
    assert_eq!(resp.backend_id.name, "backend-a");
    assert_eq!(resp.url, "https://plane.test/token-a/");
    assert_eq!(
        resp.status_url,
        "https://ctrl/c/plane.test/b/backend-a/status"
    );
    assert_eq!(resp.drone.name, "drone-1");

    let row = state
        .backends
        .iter()
        .find(|r| r.id.name == "backend-a")
        .expect("backend row exists");
    assert_eq!(row.state, BackendState::Scheduled);

    let spawns: Vec<_> = state.actions.iter().filter(|a| a.is_spawn).collect();
    assert_eq!(spawns.len(), 1);
    assert_eq!(spawns[0].backend_id.name, "backend-a");
}

#[test]
fn key_reuse_returns_same_backend_and_token() {
    let mut state = state_with_drone();
    let request = request_with_key("game-42");

    let first = state
        .connect(&cluster(), &request, &fresh("a"), "https://ctrl", t(2_000))
        .expect("first connect succeeds");
    assert!(first.spawned);

    let second = state
        .connect(&cluster(), &request, &fresh("b"), "https://ctrl", t(3_000))
        .expect("second connect succeeds");
    assert!(!second.spawned);
    assert_eq!(second.backend_id, first.backend_id);
    assert_eq!(second.token, first.token);

    // Still exactly one spawn action: joining a held key spawns nothing.
    let spawns: Vec<_> = state.actions.iter().filter(|a| a.is_spawn).collect();
    assert_eq!(spawns.len(), 1);
}

#[test]
fn unhealthy_key_holder_is_evicted_and_replaced() {
    let mut state = state_with_drone();
    let request = request_with_key("game-42");

    let first = state
        .connect(&cluster(), &request, &fresh("a"), "https://ctrl", t(2_000))
        .expect("first connect succeeds");

    // Drive the holder to Ready; its keep-alive then goes stale.
    let addr = BackendAddr { ip: IpAddress::V4(10, 0, 0, 1), port: 8080 };
    assert!(state.update_state(&first.backend_id, &BackendState::Ready { address: addr }, t(3_000)));
    assert!(state.update_keepalive(&first.backend_id, t(3_000)));

    // The drone stays live (fresh heartbeat), but the backend does not.
    state.register_drone(
        &DroneName { name: "drone-1".to_owned() },
        &cluster(),
        &"default".to_owned(),
        true,
        t(50_000),
    );

    // A plain connect reports the unhealthy holder.
    let err = state
        .connect(&cluster(), &request, &fresh("b"), "https://ctrl", t(60_000))
        .expect_err("holder is unhealthy");
    assert_eq!(err, ApiErrorKind::KeyHeldUnhealthy);

    // The eviction-handling connect releases the key and spawns afresh.
    let second = state
        .connect_handling_unhealthy(&cluster(), &request, &fresh("b"), "https://ctrl", t(60_000))
        .expect("eviction and respawn succeed");
    assert!(second.spawned);
    assert_ne!(second.backend_id, first.backend_id);

    // The old holder got a hard-terminate action.
    let hard_terms: Vec<_> = state
        .actions
        .iter()
        .filter(|a| !a.is_spawn && a.hard && a.backend_id == first.backend_id)
        .collect();
    assert_eq!(hard_terms.len(), 1);
}

#[test]
fn connect_without_spawn_config_or_drone_fails() {
    let mut state = ControllerState::new();
    let no_config = ConnectRequest {
        spawn_config: None,
        key: Some(KeyConfig {
            name: "k".to_owned(),
            namespace: "default".to_owned(),
            tag: "v1".to_owned(),
        }),
        user: None,
        auth: "{}".to_owned(),
    };
    let err = state
        .connect(&cluster(), &no_config, &fresh("a"), "https://ctrl", t(2_000))
        .expect_err("no spawn config");
    assert_eq!(err, ApiErrorKind::KeyUnheldNoSpawnConfig);

    let request = ConnectRequest { spawn_config: Some(spawn_config()), ..no_config };
    let err = state
        .connect(&cluster(), &request, &fresh("a"), "https://ctrl", t(2_000))
        .expect_err("no drone registered");
    assert_eq!(err, ApiErrorKind::NoDroneAvailable);
}

#[test]
fn stale_state_updates_are_ignored() {
    let mut state = state_with_drone();
    let request = ConnectRequest {
        spawn_config: Some(spawn_config()),
        key: None,
        user: None,
        auth: "{}".to_owned(),
    };
    let resp = state
        .connect(&cluster(), &request, &fresh("a"), "https://ctrl", t(2_000))
        .expect("connect succeeds");

    let addr = BackendAddr { ip: IpAddress::V4(10, 0, 0, 1), port: 8080 };
    assert!(state.update_state(&resp.backend_id, &BackendState::Ready { address: addr }, t(3_000)));
    let journal_len = state.journal.len();

    // Loading has a smaller rank than Ready: the report is stale and dropped.
    assert!(!state.update_state(&resp.backend_id, &BackendState::Loading, t(4_000)));
    assert_eq!(state.journal.len(), journal_len);

    // Ranks along the backend's journal are strictly increasing.
    let ranks: Vec<i32> = state
        .journal
        .iter()
        .filter(|(b, _)| *b == resp.backend_id)
        .map(|(_, s)| s.status().as_int())
        .collect();
    for w in ranks.windows(2) {
        assert!(w[0] < w[1]);
    }
}

#[test]
fn idle_sweep_selects_only_idle_live_backends() {
    let mut state = state_with_drone();
    let request = ConnectRequest {
        spawn_config: Some(spawn_config()),
        key: None,
        user: None,
        auth: "{}".to_owned(),
    };
    let resp = state
        .connect(&cluster(), &request, &fresh("a"), "https://ctrl", t(2_000))
        .expect("connect succeeds");
    let drone = state.nodes[0].id;

    let addr = BackendAddr { ip: IpAddress::V4(10, 0, 0, 1), port: 8080 };
    assert!(state.update_state(&resp.backend_id, &BackendState::Ready { address: addr }, t(3_000)));
    assert!(state.update_keepalive(&resp.backend_id, t(3_000)));

    // Within the 5 second idle allowance: nothing to terminate.
    let candidates = state.termination_candidates(drone, t(7_900));
    assert!(candidates.is_empty());

    // More than 5 seconds past the keep-alive: the backend is due.
    let candidates = state.termination_candidates(drone, t(8_100));
    assert_eq!(candidates.len(), 1);
    assert_eq!(candidates[0].backend_id, resp.backend_id);
    assert_eq!(candidates[0].allowed_idle_seconds, Some(5));
}

#[test]
fn route_info_follows_backend_lifecycle() {
    let mut state = state_with_drone();
    let request = ConnectRequest {
        spawn_config: Some(spawn_config()),
        key: None,
        user: None,
        auth: "{}".to_owned(),
    };
    let resp = state
        .connect(&cluster(), &request, &fresh("a"), "https://ctrl", t(2_000))
        .expect("connect succeeds");

    // Scheduled: the token resolves but has no address yet.
    match state.route_info_for_token(&resp.token) {
        RouteInfoResult::Pending(partial) => {
            assert_eq!(partial.backend_id, resp.backend_id);
        }
        other => panic!("expected pending, got {:?}", other),
    }

    // Ready: the route is available at the backend's address.
    let addr = BackendAddr { ip: IpAddress::V4(10, 0, 0, 1), port: 8080 };
    assert!(state.update_state(&resp.backend_id, &BackendState::Ready { address: addr }, t(3_000)));
    match state.route_info_for_token(&resp.token) {
        RouteInfoResult::Available(info) => {
            assert_eq!(info.backend_id, resp.backend_id);
            assert_eq!(info.address, addr);
            assert_eq!(info.secret_token.token, "secret-a");
        }
        other => panic!("expected available, got {:?}", other),
    }

    // Terminated: the token no longer resolves, and the key row count
    // drops to zero.
    let dead = BackendState::Ready { address: addr }
        .to_hard_terminating(TerminationReason::External)
        .to_terminated(Some(0));
    assert!(state.update_state(&resp.backend_id, &dead, t(4_000)));
    match state.route_info_for_token(&resp.token) {
        RouteInfoResult::NotFound => {}
        other => panic!("expected not found, got {:?}", other),
    }

    // An unknown token never resolves.
    let unknown = BearerToken { token: "nothere".to_owned() };
    match state.route_info_for_token(&unknown) {
        RouteInfoResult::NotFound => {}
        other => panic!("expected not found, got {:?}", other),
    }
}

#[test]
fn static_tokens_resolve_through_the_backend_row() {
    let mut state = state_with_drone();
    let request = ConnectRequest {
        spawn_config: Some(SpawnConfig { use_static_token: true, ..spawn_config() }),
        key: None,
        user: None,
        auth: "{}".to_owned(),
    };
    let ids = FreshIds {
        backend: BackendName { name: "backend-s".to_owned() },
        token: BearerToken { token: "s.xyz".to_owned() },
        secret: SecretToken { token: "secret-s".to_owned() },
    };
    let resp = state
        .connect(&cluster(), &request, &ids, "https://ctrl", t(2_000))
        .expect("connect succeeds");
    assert_eq!(resp.token.token, "s.xyz");

    let addr = BackendAddr { ip: IpAddress::V4(10, 0, 0, 2), port: 9090 };
    assert!(state.update_state(&resp.backend_id, &BackendState::Ready { address: addr }, t(3_000)));
    match state.route_info_for_token(&resp.token) {
        RouteInfoResult::Available(info) => {
            assert_eq!(info.backend_id, resp.backend_id);
            // Static tokens carry no secret.
            assert_eq!(info.secret_token.token, "");
        }
        other => panic!("expected available, got {:?}", other),
    }
}

#[test]
fn key_renewal_needs_the_right_fencing_token() {
    let mut state = state_with_drone();
    let request = request_with_key("game-42");
    let resp = state
        .connect(&cluster(), &request, &fresh("a"), "https://ctrl", t(2_000))
        .expect("connect succeeds");

    let fencing = state.keys[0].fencing_token;
    assert!(state.renew_key(&resp.backend_id, fencing, t(10_000)).is_some());
    assert!(state.renew_key(&resp.backend_id, fencing + 1, t(11_000)).is_none());

    // The renewed deadlines start from the renewal instant and escalate.
    let d = state.renew_key(&resp.backend_id, fencing, t(20_000)).unwrap();
    assert_eq!(d.renew_at.ms, 50_000);
    assert_eq!(d.soft_terminate_at.ms, 80_000);
    assert_eq!(d.hard_terminate_at.ms, 140_000);
}

#[test]
fn outbox_redelivers_until_acked() {
    let mut state = state_with_drone();
    let request = ConnectRequest {
        spawn_config: Some(spawn_config()),
        key: None,
        user: None,
        auth: "{}".to_owned(),
    };
    let resp = state
        .connect(&cluster(), &request, &fresh("a"), "https://ctrl", t(2_000))
        .expect("connect succeeds");
    let drone = state.nodes[0].id;

    let pending = state.pending_actions(drone);
    assert_eq!(pending.len(), 1);
    assert!(pending[0].is_spawn);

    let id = state.terminate_backend(&resp.backend_id, false).expect("backend exists");
    assert_eq!(state.pending_actions(drone).len(), 2);

    assert!(state.ack_action(id));
    let pending = state.pending_actions(drone);
    assert_eq!(pending.len(), 1);
    assert!(pending[0].is_spawn);

    // Acked rows stay, so the spawn history is never forgotten.
    assert_eq!(state.actions.len(), 2);
}

#[test]
fn cleanup_sweeps_old_terminated_backends() {
    let mut state = state_with_drone();
    let request = ConnectRequest {
        spawn_config: Some(spawn_config()),
        key: None,
        user: None,
        auth: "{}".to_owned(),
    };
    let doomed = state
        .connect(&cluster(), &request, &fresh("a"), "https://ctrl", t(2_000))
        .expect("connect succeeds");
    let kept = state
        .connect(&cluster(), &request, &fresh("b"), "https://ctrl", t(2_500))
        .expect("connect succeeds");

    let dead = BackendState::Scheduled
        .to_hard_terminating(TerminationReason::External)
        .to_terminated(Some(1));
    assert!(state.update_state(&doomed.backend_id, &dead, t(3_000)));

    // Too young to sweep: a day must pass first.
    let deleted = state.cleanup(t(10_000), 86_400_000, 10);
    assert!(deleted.is_empty());

    // Old enough: the backend, its token, its journal and its outbox rows
    // all go; the living backend is untouched.
    let deleted = state.cleanup(t(90_000_000), 86_400_000, 10);
    assert_eq!(deleted, vec![doomed.backend_id.clone()]);
    assert!(state.backends.iter().all(|r| r.id != doomed.backend_id));
    assert!(state.tokens.iter().all(|r| r.backend_id != doomed.backend_id));
    assert!(state.actions.iter().all(|r| r.backend_id != doomed.backend_id));
    assert!(state.journal.iter().all(|(b, _)| *b != doomed.backend_id));
    assert!(state.backends.iter().any(|r| r.id == kept.backend_id));
    assert!(state.tokens.iter().any(|r| r.backend_id == kept.backend_id));
}

#[test]
fn incompatible_subdomain_means_key_held() {
    let mut state = state_with_drone();
    let request = request_with_key("game-42");
    state
        .connect(&cluster(), &request, &fresh("a"), "https://ctrl", t(2_000))
        .expect("first connect succeeds");

    let other_subdomain = ConnectRequest {
        spawn_config: Some(SpawnConfig {
            subdomain: Some(plane::types::Subdomain { label: "room1".to_owned() }),
            ..spawn_config()
        }),
        ..request_with_key("game-42")
    };
    let err = state
        .connect(&cluster(), &other_subdomain, &fresh("b"), "https://ctrl", t(3_000))
        .expect_err("subdomain differs from the holder's");
    assert_eq!(err, ApiErrorKind::KeyHeld);
}

#[test]
fn status_stream_replays_the_journal_exactly_once() {
    let mut state = state_with_drone();
    let request = ConnectRequest {
        spawn_config: Some(spawn_config()),
        key: None,
        user: None,
        auth: "{}".to_owned(),
    };
    let resp = state
        .connect(&cluster(), &request, &fresh("a"), "https://ctrl", t(2_000))
        .expect("connect succeeds");

    let addr = BackendAddr { ip: IpAddress::V4(10, 0, 0, 1), port: 8080 };
    assert!(state.update_state(&resp.backend_id, &BackendState::Loading, t(2_100)));
    assert!(state.update_state(&resp.backend_id, &BackendState::Ready { address: addr }, t(2_200)));

    // A subscriber snapshots the journal, then receives the live run
    // again from the start: every state comes through exactly once.
    let snapshot = state.status_stream_snapshot(&resp.backend_id);
    assert_eq!(
        snapshot,
        vec![
            BackendState::Scheduled,
            BackendState::Loading,
            BackendState::Ready { address: addr },
        ]
    );
    let out = plane::status_stream::follow_stream(&snapshot, &snapshot);
    assert_eq!(out, snapshot);
}

#[test]
fn token_sweep_removes_only_terminated_backends_tokens() {
    let mut state = state_with_drone();
    let request = ConnectRequest {
        spawn_config: Some(spawn_config()),
        key: None,
        user: None,
        auth: "{}".to_owned(),
    };
    let doomed = state
        .connect(&cluster(), &request, &fresh("a"), "https://ctrl", t(2_000))
        .expect("connect succeeds");
    let kept = state
        .connect(&cluster(), &request, &fresh("b"), "https://ctrl", t(2_500))
        .expect("connect succeeds");

    let dead = BackendState::Scheduled
        .to_hard_terminating(TerminationReason::External)
        .to_terminated(Some(0));
    assert!(state.update_state(&doomed.backend_id, &dead, t(3_000)));
    assert_eq!(state.tokens.len(), 2);

    let removed = state.clean_up_tokens();
    assert_eq!(removed, 1);
    assert!(state.tokens.iter().all(|r| r.backend_id != doomed.backend_id));
    assert!(state.tokens.iter().any(|r| r.backend_id == kept.backend_id));
}

