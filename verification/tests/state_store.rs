//! Tests for the drone state store and the restart reconciliation built
//! on it.

use plane::backend_state::BackendState;
use plane::executor::{terminate_preexisting_backends, ApplyOutcome, ManagerSet};
use plane::protocol::BackendEventId;
use plane::state_store::StateStore;
use plane::time::TimeMs;
use plane::types::{
    BackendAddr, BackendName, BackendStatus, IpAddress, TerminationKind, TerminationReason,
};

fn dummy_addr() -> BackendAddr {
    BackendAddr { ip: IpAddress::V4(12, 34, 12, 34), port: 1234 }
}

fn now() -> TimeMs {
    plane::time::now_ms()
}

#[test]
fn single_event() {
    let mut state_store = StateStore::new();
    let backend_id = BackendName::new_random();

    state_store.register_event(
        &backend_id,
        &BackendState::Ready { address: dummy_addr() },
        now(),
    );

    let result = state_store.backend_state(&backend_id).unwrap();
    assert_eq!(result, BackendState::Ready { address: dummy_addr() });
}

#[test]
fn two_events() {
    let mut state_store = StateStore::new();
    let backend_id = BackendName::new_random();

    let ready_state = BackendState::Ready { address: dummy_addr() };
    {
        state_store.register_event(&backend_id, &ready_state, now());

        let result = state_store.backend_state(&backend_id).unwrap();
        assert_eq!(result, BackendState::Ready { address: dummy_addr() });
    }

    {
        state_store.register_event(
            &backend_id,
            &ready_state.to_hard_terminating(TerminationReason::External),
            now(),
        );

        let result = state_store.backend_state(&backend_id).unwrap();
        assert_eq!(
            result,
            BackendState::HardTerminating {
                last_status: BackendStatus::Ready,
                reason: TerminationReason::External,
            }
        );
    }
}

#[test]
fn subscribe_events() {
    let mut state_store = StateStore::new();

    let replay = state_store.register_listener();
    assert!(replay.is_empty());

    let backend_id = BackendName::new_random();

    let ready_state = BackendState::Ready { address: dummy_addr() };
    let event = state_store
        .register_event(&backend_id, &ready_state, now())
        .expect("listener is installed");

    {
        let result = state_store.backend_state(&backend_id).unwrap();
        assert_eq!(result, ready_state);

        assert_eq!(event.backend_id, backend_id);
        assert_eq!(event.state, BackendState::Ready { address: dummy_addr() });
    }

    {
        let event = state_store
            .register_event(
                &backend_id,
                &ready_state.to_hard_terminating(TerminationReason::Swept),
                now(),
            )
            .expect("listener is installed");

        let result = state_store.backend_state(&backend_id).unwrap();
        assert_eq!(result, ready_state.to_hard_terminating(TerminationReason::Swept));

        assert_eq!(event.backend_id, backend_id);
        assert_eq!(
            event.state,
            BackendState::HardTerminating {
                last_status: BackendStatus::Ready,
                reason: TerminationReason::Swept,
            }
        );
    }
}

#[test]
fn events_are_durable() {
    let mut state_store = StateStore::new();

    let backend_id = BackendName::new_random();

    let ready_state = BackendState::Ready { address: dummy_addr() };
    state_store.register_event(&backend_id, &ready_state, now());

    state_store.register_event(
        &backend_id,
        &ready_state.to_hard_terminating(TerminationReason::Swept),
        now(),
    );

    let replay = state_store.register_listener();
    assert_eq!(replay.len(), 2);

    {
        let event = &replay[0];
        assert_eq!(event.backend_id, backend_id);
        assert_eq!(event.event_id, BackendEventId::from(1));
        assert_eq!(event.state, BackendState::Ready { address: dummy_addr() });
    }

    {
        let event = &replay[1];
        assert_eq!(event.backend_id, backend_id);
        assert_eq!(event.event_id, BackendEventId::from(2));
        assert_eq!(
            event.state,
            BackendState::HardTerminating {
                last_status: BackendStatus::Ready,
                reason: TerminationReason::Swept,
            }
        );
    }

    // Events are replayed when we install a new listener.
    let replay = state_store.register_listener();
    assert_eq!(replay.len(), 2);

    {
        let event = &replay[0];
        assert_eq!(event.backend_id, backend_id);
        assert_eq!(event.state, BackendState::Ready { address: dummy_addr() });
    }

    {
        let event = &replay[1];
        assert_eq!(event.backend_id, backend_id);
        assert_eq!(
            event.state,
            BackendState::HardTerminating {
                last_status: BackendStatus::Ready,
                reason: TerminationReason::Swept,
            }
        );
    }

    // Events are NOT replayed once acked.
    state_store.ack_event(BackendEventId::from(1));

    let replay = state_store.register_listener();
    assert_eq!(replay.len(), 1);

    {
        let event = &replay[0];
        assert_eq!(event.backend_id, backend_id);
        assert_eq!(
            event.state,
            BackendState::HardTerminating {
                last_status: BackendStatus::Ready,
                reason: TerminationReason::Swept,
            }
        );
    }
}

#[test]
fn restart_terminates_every_active_backend() {
    let mut store = StateStore::new();
    let a = BackendName { name: "backend-a".to_owned() };
    let b = BackendName { name: "backend-b".to_owned() };
    let c = BackendName { name: "backend-c".to_owned() };

    store.register_event(&a, &BackendState::Ready { address: dummy_addr() }, now());
    store.register_event(&b, &BackendState::Starting, now());
    // A backend that already terminated must not be touched.
    store.register_event(
        &c,
        &BackendState::Starting.to_terminated(Some(0)),
        now(),
    );

    let plan = terminate_preexisting_backends(&mut store, now());

    assert_eq!(plan.len(), 2);
    assert_eq!(plan[0], a);
    assert_eq!(plan[1], b);
    assert!(store.active_backends().is_empty());

    match store.backend_state(&a).unwrap() {
        BackendState::Terminated { last_status, termination, reason, exit_code } => {
            assert_eq!(last_status, BackendStatus::Ready);
            assert_eq!(termination, Some(TerminationKind::Hard));
            assert_eq!(reason, Some(TerminationReason::KeyExpired));
            assert_eq!(exit_code, None);
        }
        other => panic!("expected terminated, got {:?}", other),
    }
}

#[test]
fn apply_action_is_idempotent_for_missing_managers() {
    let mut managers = ManagerSet::new();
    let a = BackendName { name: "backend-a".to_owned() };

    // A terminate for an unknown backend is treated as already done.
    let outcome = managers.apply_action(
        &a,
        false,
        TerminationKind::Soft,
        TerminationReason::External,
    );
    assert_eq!(outcome, ApplyOutcome::AlreadyTerminated);

    let outcome = managers.apply_action(
        &a,
        true,
        TerminationKind::Soft,
        TerminationReason::External,
    );
    assert_eq!(outcome, ApplyOutcome::Spawned);

    let outcome = managers.apply_action(
        &a,
        false,
        TerminationKind::Hard,
        TerminationReason::External,
    );
    assert_eq!(
        outcome,
        ApplyOutcome::SignalTerminate {
            kind: TerminationKind::Hard,
            reason: TerminationReason::External,
        }
    );

    assert!(managers.handle_exit(&a));
    assert!(!managers.handle_exit(&a));
}

#[test]
fn loading_a_state_touches_no_queued_event() {
    let mut store = StateStore::new();
    let a = BackendName { name: "backend-a".to_owned() };
    let b = BackendName { name: "backend-b".to_owned() };

    // One pending event for a; then recovery loads b's current state and
    // overwrites a's, without queueing anything.
    store.register_event(&a, &BackendState::Loading, now());
    store.load_backend_state(&a, &BackendState::Ready { address: dummy_addr() });
    store.load_backend_state(&b, &BackendState::Starting);

    assert_eq!(
        store.backend_state(&a).unwrap(),
        BackendState::Ready { address: dummy_addr() }
    );
    assert_eq!(store.backend_state(&b).unwrap(), BackendState::Starting);

    // Only the original event is replayed to a new listener.
    let replay = store.register_listener();
    assert_eq!(replay.len(), 1);
    assert_eq!(replay[0].backend_id, a);
    assert_eq!(replay[0].state, BackendState::Loading);
}

