//! Tests for the remaining components: agent messages, key renewal, the
//! status stream, metrics, the send queue, the cert lease, the connection
//! monitor, and the API name helpers.

use plane::agent::{BackendId, BackendState as AgentState, DroneId, DroneStatusMessage, SpawnRequest};
use plane::api::ApiSettings;
use plane::backend_state::{soft_termination_overdue, BackendState, SOFT_TERMINATION_GRACE_MS};
use plane::cert::AcmeState;
use plane::connection_monitor::BackendConnections;
use plane::container::{ContainerEvent, EventActor, EventMessage, MinuteExt};
use plane::keys::{renewal_action, RenewalAction};
use plane::metrics::{
    metrics_message_from_container_stats, ContainerStats, MemoryStatsKind, MemoryStatsV1,
    MetricsError,
};
use plane::protocol::{ApiError, ApiErrorKind, KeyDeadlines};
use plane::rng::random_string;
use plane::routing::format_u32;
use plane::socket::{backoff_ms, apply_jitter, EnqueueOutcome, QueuedMessage, SendQueue};
use plane::status_stream::follow_stream;
use plane::time::TimeMs;
use plane::types::{BackendAddr, BackendName, IpAddress, ProxyName, TerminationReason};

fn t(ms: i64) -> TimeMs {
    TimeMs { ms }
}

#[test]
fn agent_state_names_round_trip() {
    let all = [
        AgentState::Loading,
        AgentState::ErrorLoading,
        AgentState::Starting,
        AgentState::ErrorStarting,
        AgentState::Ready,
        AgentState::TimedOutBeforeReady,
        AgentState::Failed,
        AgentState::Exited,
        AgentState::Swept,
    ];
    for s in all {
        assert_eq!(AgentState::from_str(&s.to_string()).unwrap(), s);
    }
    assert!(AgentState::from_str("NotAState").is_err());
    assert!(!AgentState::Loading.terminal());
    assert!(!AgentState::Ready.terminal());
    assert!(AgentState::Failed.terminal());
    assert!(AgentState::Swept.terminal());
}

#[test]
fn bus_subjects_carry_the_node_names() {
    let drone = DroneId { id: "d1".to_owned() };
    assert_eq!(DroneStatusMessage::subject(&drone).subject, "drone.d1.status");
    assert_eq!(DroneStatusMessage::subject_subscribe().subject, "drone.*.status");
    assert_eq!(SpawnRequest::subject(drone).subject, "drone.d1.spawn");
    let backend = BackendId { id: "b7".to_owned() };
    assert_eq!(
        plane::agent::BackendStateMessage::subject(&backend).subject,
        "backend.b7.status"
    );
}

#[test]
fn renewal_escalates_through_the_deadlines() {
    let d = KeyDeadlines {
        renew_at: t(1_000),
        soft_terminate_at: t(2_000),
        hard_terminate_at: t(3_000),
    };
    assert_eq!(renewal_action(&d, t(500)), RenewalAction::Wait { until: t(1_000) });
    assert_eq!(renewal_action(&d, t(1_500)), RenewalAction::Renew);
    assert_eq!(renewal_action(&d, t(2_500)), RenewalAction::SoftTerminate);
    assert_eq!(renewal_action(&d, t(3_500)), RenewalAction::HardTerminate);
}

#[test]
fn status_stream_deduplicates_by_rank() {
    let addr = BackendAddr { ip: IpAddress::V4(10, 0, 0, 1), port: 8080 };
    let scheduled = BackendState::Scheduled;
    let loading = BackendState::Loading;
    let ready = BackendState::Ready { address: addr };
    let terminating = ready.to_hard_terminating(TerminationReason::External);

    // The live run overlaps the snapshot's tail; the overlap is dropped
    // and every journalled state appears exactly once.
    let snapshot = vec![scheduled, loading, ready];
    let live = vec![loading, ready, terminating];
    let out = follow_stream(&snapshot, &live);
    assert_eq!(out, vec![scheduled, loading, ready, terminating]);

    // Without a snapshot everything is fresh.
    let out = follow_stream(&vec![], &vec![scheduled, loading]);
    assert_eq!(out, vec![scheduled, loading]);
}

#[test]
fn metrics_reduce_the_raw_sample() {
    let v1 = MemoryStatsV1 {
        total_active_anon: 100,
        total_active_file: 50,
        total_rss: 1_000,
        total_cache: 500,
        total_unevictable: 7,
        total_inactive_anon: 30,
        total_inactive_file: 20,
    };
    let stats = ContainerStats {
        mem_stats: Some(MemoryStatsKind::V1(v1)),
        mem_usage: Some(900),
        mem_limit: Some(4_096),
        cpu_total: 5_000,
        precpu_total: 3_000,
        system_cpu: Some(100_000),
        pre_system_cpu: Some(90_000),
    };
    let backend = BackendName { name: "backend-a".to_owned() };
    let m = metrics_message_from_container_stats(&stats, backend)
        .unwrap()
        .unwrap();
    assert_eq!(m.mem_total, 1_500);
    assert_eq!(m.mem_active, 150);
    assert_eq!(m.mem_inactive, 50);
    assert_eq!(m.mem_unevictable, 7);
    assert_eq!(m.mem_used, 880);
    assert_eq!(m.mem_limit, 4_096);
    assert_eq!(m.cpu_used, 2_000);
    assert_eq!(m.sys_cpu, 10_000);

    // The engine's first sample has no previous CPU reading: skipped.
    let first = ContainerStats { pre_system_cpu: None, ..stats };
    let backend = BackendName { name: "backend-a".to_owned() };
    assert!(metrics_message_from_container_stats(&first, backend).unwrap().is_none());

    // A rewound CPU counter is an error.
    let rewound = ContainerStats { cpu_total: 2_000, ..stats };
    let backend = BackendName { name: "backend-a".to_owned() };
    assert!(matches!(
        metrics_message_from_container_stats(&rewound, backend),
        Err(MetricsError::CpuWentBackwards)
    ));

    // A sample without memory counters is an error.
    let empty = ContainerStats { mem_stats: None, ..stats };
    let backend = BackendName { name: "backend-a".to_owned() };
    assert!(matches!(
        metrics_message_from_container_stats(&empty, backend),
        Err(MetricsError::MissingMemoryStats)
    ));
}

#[test]
fn send_queue_never_drops_state_events() {
    let mut q = SendQueue::new();
    for i in 0..256u64 {
        let outcome = q.enqueue(QueuedMessage {
            key: i,
            is_state_event: false,
            payload: vec![1],
        });
        assert_eq!(outcome, EnqueueOutcome::Enqueued);
    }
    // Full: a droppable message with a queued key replaces the old one.
    let outcome = q.enqueue(QueuedMessage { key: 5, is_state_event: false, payload: vec![2] });
    assert_eq!(outcome, EnqueueOutcome::ReplacedOldest);
    assert_eq!(q.len(), 256);

    // Full and no droppable message with this key: rejected.
    let outcome = q.enqueue(QueuedMessage { key: 999, is_state_event: false, payload: vec![3] });
    assert_eq!(outcome, EnqueueOutcome::Rejected);

    // A state event goes in regardless.
    let outcome = q.enqueue(QueuedMessage { key: 999, is_state_event: true, payload: vec![4] });
    assert_eq!(outcome, EnqueueOutcome::Enqueued);
    assert_eq!(q.len(), 257);
}

#[test]
fn reconnect_backoff_doubles_to_a_cap() {
    assert_eq!(backoff_ms(0), 500);
    assert_eq!(backoff_ms(1), 1_000);
    assert_eq!(backoff_ms(5), 16_000);
    assert_eq!(backoff_ms(6), 30_000);
    assert_eq!(backoff_ms(60), 30_000);
    for jitter in [0u64, 17, 12345, u64::MAX] {
        let d = apply_jitter(1_000, jitter);
        assert!((800..=1_200).contains(&d));
    }
}

#[test]
fn cert_lease_is_exclusive_until_released_or_expired() {
    let mut acme = AcmeState::new();
    let a = ProxyName { name: "proxy-a".to_owned() };
    let b = ProxyName { name: "proxy-b".to_owned() };

    assert!(acme.request_lease(&a, t(1_000)));
    assert!(!acme.request_lease(&b, t(2_000)));

    // Only the holder can set the challenge value.
    assert!(!acme.set_txt_record(&b, "challenge-b".to_owned(), t(2_000)));
    assert!(acme.set_txt_record(&a, "challenge-a".to_owned(), t(2_000)));
    assert_eq!(acme.txt_record().as_deref(), Some("challenge-a"));

    // Released: another proxy can take the lease at once.
    acme.release_lease(&a);
    assert!(acme.request_lease(&b, t(3_000)));

    // Expired: a new lease is granted without a release.
    assert!(!acme.request_lease(&a, t(10_000)));
    assert!(acme.request_lease(&a, t(100_000)));
}

#[test]
fn keepalive_sent_when_busy_or_newly_active() {
    let mut conn = BackendConnections::new(t(0));
    assert!(!conn.tick(t(5_000)));

    assert!(conn.connection_opened());
    assert!(!conn.connection_opened());

    // Busy but within the interval: nothing to send.
    assert!(!conn.tick(t(9_000)));
    // Past the interval: send and restart the clock.
    assert!(conn.tick(t(11_000)));
    assert!(!conn.tick(t(12_000)));

    conn.connection_closed();
    conn.connection_closed();
    // Idle again: nothing to send however much time passes.
    assert!(!conn.tick(t(60_000)));
}

#[test]
fn api_names_round_trip() {
    let settings = ApiSettings {
        namespace: "default".to_owned(),
        url_template: Some("https://{}.backends.test".to_owned()),
        api_server_base: Some("https://api.test".to_owned()),
        service_prefix: "slab-".to_owned(),
    };
    assert_eq!(settings.backend_to_slab_name("abc"), "slab-abc");
    assert_eq!(settings.slab_name_to_backend("slab-abc").as_deref(), Some("abc"));
    assert_eq!(settings.slab_name_to_backend("other-abc"), None);
    assert_eq!(
        settings.backend_to_url("abc").as_deref(),
        Some("https://abc.backends.test")
    );
    assert_eq!(
        settings.backend_api_path("abc", "ready").as_deref(),
        Some("https://api.test/backend/abc/ready")
    );
    let result = settings.get_init_result("abc");
    assert_eq!(result.name, "abc");
    assert_eq!(result.status_url.as_deref(), Some("https://api.test/backend/abc/status"));
}

#[test]
fn container_events_decode_action_and_name() {
    let ev = EventMessage {
        action: Some("die".to_owned()),
        actor: Some(EventActor {
            attributes: Some(vec![
                ("image".to_owned(), "demo".to_owned()),
                ("name".to_owned(), "backend-a".to_owned()),
            ]),
        }),
    };
    let decoded = ContainerEvent::from_event_message(&ev).unwrap();
    assert_eq!(decoded.event, plane::container::ContainerEventType::Die);
    assert_eq!(decoded.name, "backend-a");

    let unknown = EventMessage {
        action: Some("somethingelse".to_owned()),
        actor: Some(EventActor {
            attributes: Some(vec![("name".to_owned(), "backend-a".to_owned())]),
        }),
    };
    assert!(ContainerEvent::from_event_message(&unknown).is_none());

    let nameless = EventMessage {
        action: Some("die".to_owned()),
        actor: Some(EventActor { attributes: Some(vec![]) }),
    };
    assert!(ContainerEvent::from_event_message(&nameless).is_none());
}

#[test]
fn api_errors_carry_kind_status_and_random_id() {
    let e = ApiError::new(ApiErrorKind::NoDroneAvailable, "no drone available");
    assert_eq!(e.kind, ApiErrorKind::NoDroneAvailable);
    assert_eq!(e.message, "no drone available");
    assert_eq!(e.id.chars().count(), 8);

    assert_eq!(ApiErrorKind::NoDroneAvailable.status_code(), 503);
    assert_eq!(ApiErrorKind::KeyHeld.status_code(), 409);
    assert_eq!(ApiErrorKind::KeyHeldUnhealthy.status_code(), 409);
    assert_eq!(ApiErrorKind::NotFound.status_code(), 404);
    assert_eq!(ApiErrorKind::NoClusterProvided.status_code(), 400);
    assert_eq!(ApiErrorKind::DatabaseError.status_code(), 500);

    let offset = plane::rng::cleanup_start_offset_seconds();
    assert!(offset < plane::rng::CLEANUP_LOOP_INTERVAL_SECONDS);
}

#[test]
fn soft_termination_escalates_after_the_grace() {
    let requested = t(5_000);
    assert!(!soft_termination_overdue(requested, t(5_000)));
    assert!(!soft_termination_overdue(requested, t(5_000 + SOFT_TERMINATION_GRACE_MS)));
    assert!(soft_termination_overdue(requested, t(5_001 + SOFT_TERMINATION_GRACE_MS)));
}

#[test]
fn misc_helpers_behave() {
    assert_eq!(600u64.as_minutes(), 10);
    assert_eq!(59u64.as_minutes(), 0);
    assert!(plane::container::make_exposed_ports(8080).is_some());
    assert_eq!(plane::container::exposed_port_key(8080), "8080/tcp");
    let ports = plane::container::make_exposed_ports(8080).unwrap();
    assert_eq!(ports.len(), 1);
    assert!(ports.get("8080/tcp").is_some_and(|inner| inner.is_empty()));

    let s = random_string(12);
    assert_eq!(s.chars().count(), 12);
    assert!(s.chars().all(|c| c.is_ascii_lowercase() || c.is_ascii_digit()));

    assert_eq!(format_u32(80), "80");

    let name = BackendName::new_random();
    assert_eq!(name.name.chars().count(), 12);
}
