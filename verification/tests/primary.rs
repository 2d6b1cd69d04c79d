//! The initiating side of delegations.

use openab_core::control_plane::primary::Answer;
use openab_core::control_plane::primary::CommandError;
use openab_core::control_plane::primary::DelegationHandle;
use openab_core::control_plane::primary::DelegationLifecycle;
use openab_core::control_plane::primary::DelegationOutcome;
use openab_core::control_plane::primary::DelegationSnapshot;
use openab_core::control_plane::primary::DelegationStatusWire;
use openab_core::control_plane::primary::PrimaryState;
use openab_core::control_plane::primary::ReplyResult;
use openab_core::control_plane::primary::SpawnRequest;
use openab_core::control_plane::primary::SpawnTarget;
use openab_core::control_plane::primary::MAX_TRACKED_DELEGATIONS;
use openab_core::labels::Labels;
use openab_core::proto::AgentSummary;
use openab_core::proto::AgentType;
use openab_core::proto::DelegateAck;
use openab_core::proto::DelegateResultParams;
use openab_core::proto::DelegationStatus;
use openab_core::proto::ErrorObject;
use openab_core::proto::Timestamp;
use openab_core::proto::NO_TARGET;

fn spawn_request(id: &str) -> SpawnRequest {
    SpawnRequest {
        delegation_id: id.into(),
        target: SpawnTarget::by_name("worker-1".into()),
        prompt: "do the thing".into(),
        deadline: Timestamp { secs: 1_800_000_060, nanos: 0 },
        parent: None,
    }
}

fn handle(id: &str, admission: u64) -> DelegationHandle {
    DelegationHandle::new(id.to_string(), admission)
}

fn ack_value(delegation_id: &str, admission: u64, assigned_to: &str) -> ReplyResult {
    ReplyResult {
        ack: Some(DelegateAck {
            delegation_id: delegation_id.into(),
            admission,
            assigned_to: assigned_to.into(),
        }),
        agents: None,
    }
}

fn nothing() -> ReplyResult {
    ReplyResult { ack: None, agents: None }
}

fn ended(id: &str, admission: u64, status: DelegationStatus, result: Option<&str>, error: Option<&str>) -> DelegateResultParams {
    DelegateResultParams {
        delegation_id: id.into(),
        admission,
        status,
        result: result.map(|r| r.to_string()),
        error: error.map(|e| e.to_string()),
    }
}

/// Spawns, and takes the ack.
fn spawned(st: &mut PrimaryState, rpc_id: u64, id: &str, admission: u64, assigned_to: &str) -> DelegationHandle {
    let emission = st.begin_spawn(rpc_id, spawn_request(id), rpc_id + 100);
    match st.on_reply(emission.rpc_id, ack_value(id, admission, assigned_to), None) {
        Some(Answer::Spawn { reply, result: Ok(ack) }) => {
            assert_eq!(reply, rpc_id + 100);
            assert_eq!(ack.assigned_to, assigned_to);
            ack.handle
        }
        _ => panic!("the spawn must be answered"),
    }
}

#[test]
fn a_handle_is_opaque_and_carries_both_halves() {
    let h = handle("d-1", 7);
    assert_eq!(h.delegation_id(), "d-1");
    assert_eq!(h.admission(), 7);
    assert_ne!(h, handle("d-1", 8));
}

#[test]
fn spawn_target_is_exactly_one_of_name_or_labels() {
    let by_name = SpawnTarget::by_name("w1".into()).into_selector();
    assert_eq!(by_name.name.as_deref(), Some("w1"));
    assert!(by_name.labels.is_none());
    let mut labels = Labels::new();
    labels.insert("backend".to_string(), "kiro".to_string());
    let by_labels = SpawnTarget::by_labels(labels.copy()).into_selector();
    assert!(by_labels.name.is_none());
    assert_eq!(by_labels.labels, Some(labels));
}

#[test]
fn begin_spawn_parks_the_reply_and_produces_wire_params() {
    let mut st = PrimaryState::new();
    let emission = st.begin_spawn(1, spawn_request("d-1"), 5);
    assert_eq!(emission.rpc_id, 1);
    assert_eq!(emission.params.delegation_id, "d-1");
    assert_eq!(emission.params.target.name.as_deref(), Some("worker-1"));
    assert!(emission.params.parent_delegation_id.is_none());
    assert!(emission.params.parent_admission.is_none());
}

#[test]
fn a_parented_spawn_carries_both_halves_of_the_parent_reference() {
    let mut st = PrimaryState::new();
    let mut req = spawn_request("child");
    req.parent = Some(handle("parent", 42));
    let emission = st.begin_spawn(7, req, 5);
    assert_eq!(emission.params.parent_delegation_id.as_deref(), Some("parent"));
    assert_eq!(emission.params.parent_admission, Some(42));
}

#[test]
fn a_delegate_ack_resolves_the_spawn_and_starts_tracking() {
    let mut st = PrimaryState::new();
    let h = spawned(&mut st, 1, "d-1", 5, "prod/worker-1");
    assert_eq!(h.delegation_id(), "d-1");
    assert_eq!(h.admission(), 5);
    assert_eq!(
        st.lifecycle(&h),
        Some(DelegationLifecycle::Running { assigned_to: "prod/worker-1".into() })
    );
    assert_eq!(st.tracked_len(), 1);
}

#[test]
fn a_delegate_error_reply_fails_the_spawn_and_tracks_nothing() {
    let mut st = PrimaryState::new();
    let emission = st.begin_spawn(1, spawn_request("d-1"), 9);
    let err = ErrorObject { code: NO_TARGET, message: "no such worker".into() };
    match st.on_reply(emission.rpc_id, nothing(), Some(err)) {
        Some(Answer::Spawn { reply: 9, result: Err(CommandError::Cp { code, message }) }) => {
            assert_eq!(code, NO_TARGET);
            assert_eq!(message, "no such worker");
        }
        _ => panic!("the spawn must fail"),
    }
    assert_eq!(st.tracked_len(), 0);
}

#[test]
fn a_malformed_ack_fails_the_spawn() {
    let mut st = PrimaryState::new();
    st.begin_spawn(1, spawn_request("d-1"), 9);
    assert!(matches!(
        st.on_reply(1, nothing(), None),
        Some(Answer::Spawn { reply: 9, result: Err(CommandError::Internal(_)) })
    ));
    assert_eq!(st.tracked_len(), 0);
}

#[test]
fn a_terminal_result_wakes_an_earlier_awaiter() {
    let mut st = PrimaryState::new();
    let h = spawned(&mut st, 1, "d-1", 3, "prod/w1");
    assert_eq!(st.begin_await(&h, 70), None);
    let answers = st
        .on_delegate_result(&ended("d-1", 3, DelegationStatus::Completed, Some("done"), None))
        .unwrap();
    assert_eq!(answers.len(), 1);
    match &answers[0] {
        Answer::Await { reply: 70, result: Ok(outcome) } => {
            assert_eq!(outcome.status, DelegationStatus::Completed);
            assert_eq!(outcome.result.as_deref(), Some("done"));
        }
        _ => panic!("the awaiter must be answered"),
    }
}

#[test]
fn awaiting_an_already_terminal_delegation_answers_immediately() {
    let mut st = PrimaryState::new();
    let h = spawned(&mut st, 1, "d-1", 3, "prod/w1");
    st.on_delegate_result(&ended("d-1", 3, DelegationStatus::Failed, None, Some("boom")));
    let outcome = st.begin_await(&h, 70).unwrap().unwrap();
    assert_eq!(outcome.status, DelegationStatus::Failed);
    assert_eq!(outcome.error.as_deref(), Some("boom"));
    assert!(matches!(st.begin_await(&handle("never", 1), 71), Some(Err(CommandError::UnknownDelegation))));
}

#[test]
fn a_stale_admission_result_is_dropped() {
    let mut st = PrimaryState::new();
    spawned(&mut st, 1, "d-1", 10, "prod/w1");
    let stale = ended("d-1", 9, DelegationStatus::Completed, Some("wrong"), None);
    assert!(st.on_delegate_result(&stale).is_none());
}

#[test]
fn a_second_result_changes_nothing() {
    let mut st = PrimaryState::new();
    let h = spawned(&mut st, 1, "d-1", 3, "prod/w1");
    st.on_delegate_result(&ended("d-1", 3, DelegationStatus::Completed, Some("first"), None));
    let again = st.on_delegate_result(&ended("d-1", 3, DelegationStatus::Failed, None, Some("late")));
    assert_eq!(again.unwrap().len(), 0);
    assert_eq!(st.begin_await(&h, 1).unwrap().unwrap().result.as_deref(), Some("first"));
}

#[test]
fn cancel_of_an_untracked_handle_never_emits_a_frame() {
    let mut st = PrimaryState::new();
    let r = st.begin_cancel(1, &handle("never", 1), "stop".into(), 5);
    assert!(matches!(r, Err(CommandError::UnknownDelegation)));
    assert!(st.on_reply(1, nothing(), None).is_none());
}

#[test]
fn cancel_of_a_tracked_handle_emits_and_resolves_on_ok() {
    let mut st = PrimaryState::new();
    let h = spawned(&mut st, 1, "d-1", 3, "prod/w1");
    let params = st.begin_cancel(2, &h, "initiator gave up".into(), 8).unwrap();
    assert_eq!(params.delegation_id, "d-1");
    assert_eq!(params.admission, 3);
    assert_eq!(params.reason, "initiator gave up");
    assert!(matches!(
        st.on_reply(2, nothing(), None),
        Some(Answer::Cancel { reply: 8, result: Ok(()) })
    ));
}

#[test]
fn list_agents_resolves_with_the_roster() {
    let mut st = PrimaryState::new();
    st.begin_list_agents(1, 4);
    let result = ReplyResult {
        ack: None,
        agents: Some(vec![AgentSummary {
            name: "worker-1".into(),
            agent_type: AgentType::Worker,
            instance_id: "i-1".into(),
            labels: Labels::new(),
            active_sessions: 0,
            max_delegated_sessions: 2,
        }]),
    };
    match st.on_reply(1, result, None) {
        Some(Answer::ListAgents { reply: 4, result: Ok(agents) }) => {
            assert_eq!(agents.len(), 1);
            assert_eq!(agents[0].name, "worker-1");
        }
        _ => panic!("the roster must be answered"),
    }
}

#[test]
fn check_reports_running_then_terminal_without_blocking() {
    let mut st = PrimaryState::new();
    let h = spawned(&mut st, 1, "d-1", 4, "prod/w1");
    assert!(matches!(
        st.check(&h),
        Ok(DelegationSnapshot::Running { assigned_to }) if assigned_to == "prod/w1"
    ));
    st.on_delegate_result(&ended("d-1", 4, DelegationStatus::Completed, Some("done"), None));
    match st.check(&h) {
        Ok(DelegationSnapshot::Terminal(outcome)) => assert_eq!(
            outcome,
            DelegationOutcome {
                status: DelegationStatus::Completed,
                result: Some("done".into()),
                error: None,
            }
        ),
        _ => panic!("must be terminal"),
    }
}

#[test]
fn check_of_an_untracked_handle_is_unknown() {
    let st = PrimaryState::new();
    assert!(matches!(st.check(&handle("never", 1)), Err(CommandError::UnknownDelegation)));
}

#[test]
fn a_foreign_reply_id_is_not_ours() {
    let mut st = PrimaryState::new();
    assert!(st.on_reply(999, nothing(), None).is_none());
}

#[test]
fn terminal_history_is_bounded_by_evicting_the_oldest_terminal() {
    let mut st = PrimaryState::new();
    for admission in 1..=MAX_TRACKED_DELEGATIONS as u64 {
        let id = format!("d-{admission}");
        spawned(&mut st, admission, &id, admission, "prod/w");
        st.on_delegate_result(&ended(&id, admission, DelegationStatus::Completed, Some("done"), None));
    }
    assert_eq!(st.tracked_len(), MAX_TRACKED_DELEGATIONS);
    spawned(&mut st, 9000, "d-new", 9000, "prod/w");
    assert_eq!(st.tracked_len(), MAX_TRACKED_DELEGATIONS);
    assert_eq!(st.lifecycle(&handle("d-1", 1)), None);
    assert!(st.lifecycle(&handle("d-2", 2)).is_some());
}

#[test]
fn running_delegations_are_never_evicted() {
    let mut st = PrimaryState::new();
    for admission in 1..=MAX_TRACKED_DELEGATIONS as u64 + 3 {
        spawned(&mut st, admission, &format!("d-{admission}"), admission, "prod/w");
    }
    assert_eq!(st.tracked_len(), MAX_TRACKED_DELEGATIONS + 3);
    assert!(st.lifecycle(&handle("d-1", 1)).is_some());
}

#[test]
fn fail_all_live_disconnects_pending_and_running_but_not_terminal() {
    let mut st = PrimaryState::new();
    let running = spawned(&mut st, 1, "d-run", 1, "prod/w1");
    assert_eq!(st.begin_await(&running, 50), None);
    let done = spawned(&mut st, 2, "d-done", 2, "prod/w1");
    st.on_delegate_result(&ended("d-done", 2, DelegationStatus::Completed, Some("ok"), None));
    st.begin_spawn(3, spawn_request("d-pending"), 60);

    let answers = st.fail_all_live();
    assert_eq!(answers.len(), 2);
    assert!(answers.iter().any(|a| matches!(
        a,
        Answer::Await { reply: 50, result: Err(CommandError::Disconnected) }
    )));
    assert!(answers.iter().any(|a| matches!(
        a,
        Answer::Spawn { reply: 60, result: Err(CommandError::Disconnected) }
    )));
    assert_eq!(
        st.lifecycle(&done),
        Some(DelegationLifecycle::Terminal(DelegationOutcome {
            status: DelegationStatus::Completed,
            result: Some("ok".into()),
            error: None,
        }))
    );
    assert_eq!(st.lifecycle(&running), None);
}

#[test]
fn errors_and_states_are_worded() {
    assert_eq!(
        CommandError::from_cp(ErrorObject { code: -32004, message: "no such worker".into() }).message(),
        "control plane returned an error: no such worker (code -32004)"
    );
    assert_eq!(CommandError::NotConnected.message(), "control-plane client is not connected");
    assert!(!CommandError::UnknownDelegation.message().is_empty());
    assert!(!CommandError::Disconnected.message().is_empty());
    assert!(CommandError::Internal("odd".into()).message().contains("odd"));
    let words: Vec<&str> = [
        DelegationStatus::Completed,
        DelegationStatus::Failed,
        DelegationStatus::Timeout,
        DelegationStatus::Cancelled,
        DelegationStatus::TargetDisconnected,
    ]
    .iter()
    .map(|s| DelegationStatusWire::from_status(*s).as_str())
    .collect();
    assert_eq!(words, vec!["completed", "failed", "timeout", "cancelled", "target_disconnected"]);
}
