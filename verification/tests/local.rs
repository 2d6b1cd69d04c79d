//! The local socket's requests, responses and tokens.

use openab_core::control_plane::local::default_socket_path;
use openab_core::control_plane::local::dispatch;
use openab_core::control_plane::local::hex_text;
use openab_core::control_plane::local::into_spawn_target;
use openab_core::control_plane::local::respond;
use openab_core::control_plane::local::DispatchStep;
use openab_core::control_plane::local::HandleRegistry;
use openab_core::control_plane::local::LocalClient;
use openab_core::control_plane::local::LocalRequest;
use openab_core::control_plane::local::LocalResponse;
use openab_core::control_plane::local::LocalTarget;
use openab_core::control_plane::local::Submission;
use openab_core::control_plane::local::MAX_DEADLINE_SECS;
use openab_core::control_plane::local::MAX_HANDLE_TOKENS;
use openab_core::control_plane::local::TOKEN_BYTES;
use openab_core::control_plane::primary::Answer;
use openab_core::control_plane::primary::ClientCommand;
use openab_core::control_plane::primary::CommandError;
use openab_core::control_plane::primary::DelegationHandle;
use openab_core::control_plane::primary::DelegationOutcome;
use openab_core::control_plane::primary::DelegationSnapshot;
use openab_core::control_plane::primary::DelegationStatusWire;
use openab_core::control_plane::primary::SpawnAck;
use openab_core::paths::join_path;
use openab_core::labels::Labels;
use openab_core::proto::AgentSummary;
use openab_core::proto::AgentType;
use openab_core::proto::DelegationStatus;
use openab_core::proto::Timestamp;

const NOW: Timestamp = Timestamp { secs: 1_800_000_000, nanos: 5 };

fn labelled_with(pairs: &[(&str, &str)]) -> Labels {
    let mut labels = Labels::new();
    for (name, value) in pairs {
        labels.insert(name.to_string(), value.to_string());
    }
    labels
}

fn handle(id: &str, admission: u64) -> DelegationHandle {
    DelegationHandle::new(id.to_string(), admission)
}

fn spawn(deadline_secs: u64, parent: Option<&str>) -> LocalRequest {
    LocalRequest::Spawn {
        delegation_id: "d-1".into(),
        target: LocalTarget { name: Some("worker-1".into()), labels: None },
        prompt: "hi".into(),
        deadline_secs,
        parent: parent.map(|p| p.to_string()),
    }
}

fn acked(registry: &mut HandleRegistry) -> LocalResponse {
    let answer = Answer::Spawn {
        reply: 9,
        result: Ok(SpawnAck { handle: handle("d-1", 5), assigned_to: "prod/worker-1".into() }),
    };
    respond(Submission::Answered(answer), registry)
}

#[test]
fn a_minted_token_is_opaque_hex_and_encodes_nothing_about_the_handle() {
    let mut reg = HandleRegistry::new();
    let h = handle("discord:12345:thread", 42);
    let token = reg.insert(h.clone());
    assert_eq!(token.len(), TOKEN_BYTES * 2);
    assert!(token.chars().all(|c| c.is_ascii_hexdigit() && !c.is_ascii_uppercase()));
    assert_ne!(token, format!("{}:{}", h.admission(), h.delegation_id()));
    assert_ne!(token, h.delegation_id());
    assert!(!token.contains("discord"));
    assert!(!token.contains("thread"));
    assert!(!token.contains(':'));
    assert_eq!(reg.resolve(&token), Some(h));
}

#[test]
fn two_tokens_for_the_same_handle_are_distinct_and_unguessable() {
    let mut reg = HandleRegistry::new();
    let h = handle("d-1", 7);
    let a = reg.insert(h.clone());
    let b = reg.insert(h);
    assert_ne!(a, b);
}

#[test]
fn a_fabricated_token_does_not_resolve() {
    let mut reg = HandleRegistry::new();
    let real = reg.insert(handle("d-1", 1));
    assert!(reg.resolve(&"0".repeat(TOKEN_BYTES * 2)).is_none());
    assert!(reg.resolve("1:d-1").is_none());
    assert!(reg.resolve("").is_none());
    assert!(reg.resolve(&real).is_some());
}

#[test]
fn the_registry_is_bounded_and_evicts_oldest_first() {
    let mut reg = HandleRegistry::new();
    let first = reg.insert(handle("d-0", 0));
    for i in 1..MAX_HANDLE_TOKENS {
        reg.insert(handle(&format!("d-{i}"), i as u64));
    }
    assert_eq!(reg.len(), MAX_HANDLE_TOKENS);
    assert!(reg.resolve(&first).is_some());
    let newest = reg.insert(handle("d-overflow", 9999));
    assert_eq!(reg.len(), MAX_HANDLE_TOKENS);
    assert!(reg.resolve(&first).is_none());
    assert!(reg.resolve(&newest).is_some());
}

#[test]
fn bytes_are_written_as_lower_hex() {
    assert_eq!(hex_text(&vec![0, 0x0f, 0xa5, 0xff]), "000fa5ff");
}

#[test]
fn spawn_reports_the_assigned_peer_not_an_empty_string() {
    let mut registry = HandleRegistry::new();
    match dispatch(spawn(60, None), &registry, NOW, 9) {
        DispatchStep::Submit(ClientCommand::Spawn { request, reply: 9 }) => {
            assert_eq!(request.delegation_id, "d-1");
            assert_eq!(request.deadline, Timestamp { secs: NOW.secs + 60, nanos: 5 });
            assert!(request.parent.is_none());
        }
        _ => panic!("must be submitted"),
    }
    match acked(&mut registry) {
        LocalResponse::Spawned { handle, assigned_to } => {
            assert_eq!(assigned_to, "prod/worker-1");
            assert_eq!(handle.len(), TOKEN_BYTES * 2);
            assert!(!handle.contains(':'));
            assert!(registry.resolve(&handle).is_some());
        }
        other => panic!("expected Spawned, got {other:?}"),
    }
}

#[test]
fn check_after_spawn_reports_running_without_blocking() {
    let mut registry = HandleRegistry::new();
    let LocalResponse::Spawned { handle: token, .. } = acked(&mut registry) else {
        panic!("spawn failed");
    };
    match dispatch(LocalRequest::Check { handle: token }, &registry, NOW, 3) {
        DispatchStep::Submit(ClientCommand::Check { handle: h, reply: 3 }) => {
            assert_eq!(h, handle("d-1", 5));
        }
        _ => panic!("must be submitted"),
    }
    let snapshot = DelegationSnapshot::Running { assigned_to: "prod/worker-1".into() };
    let answer = Answer::Check { reply: 3, result: Ok(snapshot) };
    assert_eq!(
        respond(Submission::Answered(answer), &mut registry),
        LocalResponse::Running { assigned_to: "prod/worker-1".into() }
    );
}

#[test]
fn check_of_a_fabricated_token_is_rejected_before_reaching_the_cp() {
    let registry = HandleRegistry::new();
    let r = dispatch(LocalRequest::Check { handle: "deadbeef".into() }, &registry, NOW, 3);
    assert!(matches!(r, DispatchStep::Respond(LocalResponse::Error { .. })));
    let r = dispatch(LocalRequest::Await { handle: "deadbeef".into() }, &registry, NOW, 3);
    assert!(matches!(r, DispatchStep::Respond(LocalResponse::Error { .. })));
    let cancel = LocalRequest::Cancel { handle: "deadbeef".into(), reason: "r".into() };
    let r = dispatch(cancel, &registry, NOW, 3);
    assert!(matches!(r, DispatchStep::Respond(LocalResponse::Error { .. })));
    let r = dispatch(spawn(5, Some("deadbeef")), &registry, NOW, 3);
    assert!(matches!(r, DispatchStep::Respond(LocalResponse::Error { .. })));
}

#[test]
fn a_zero_deadline_is_rejected_and_never_reaches_the_cp() {
    let registry = HandleRegistry::new();
    match dispatch(spawn(0, None), &registry, NOW, 1) {
        DispatchStep::Respond(LocalResponse::Error { message }) => {
            assert!(message.contains("deadline_secs"))
        }
        _ => panic!("expected an error"),
    }
    assert_eq!(registry.len(), 0);
}

#[test]
fn an_over_long_deadline_is_clamped_to_the_adr_max() {
    let registry = HandleRegistry::new();
    match dispatch(spawn(u64::MAX, None), &registry, NOW, 1) {
        DispatchStep::Submit(ClientCommand::Spawn { request, .. }) => {
            assert_eq!(request.deadline.secs, NOW.secs + MAX_DEADLINE_SECS as i64);
        }
        _ => panic!("must be submitted"),
    }
}

#[test]
fn a_parent_token_becomes_a_parent_handle() {
    let mut registry = HandleRegistry::new();
    let token = registry.insert(handle("parent", 42));
    match dispatch(spawn(60, Some(&token)), &registry, NOW, 1) {
        DispatchStep::Submit(ClientCommand::Spawn { request, .. }) => {
            assert_eq!(request.parent, Some(handle("parent", 42)));
        }
        _ => panic!("must be submitted"),
    }
}

#[test]
fn spawn_target_conversion_enforces_exactly_one() {
    let labels = labelled_with(&[("k", "v")]);
    let named = LocalTarget { name: Some("w1".into()), labels: None };
    assert!(into_spawn_target(named).is_ok());
    let labelled = LocalTarget { name: None, labels: Some(labels.copy()) };
    assert!(into_spawn_target(labelled).is_ok());
    let both = LocalTarget { name: Some("w1".into()), labels: Some(labels) };
    assert!(into_spawn_target(both).is_err());
    assert!(into_spawn_target(LocalTarget { name: None, labels: None }).is_err());
    assert!(into_spawn_target(LocalTarget { name: Some(String::new()), labels: None }).is_err());
    assert!(into_spawn_target(LocalTarget { name: None, labels: Some(Labels::new()) }).is_err());
}

#[test]
fn every_answer_has_its_response() {
    let mut registry = HandleRegistry::new();
    assert!(matches!(respond(Submission::NotTaken, &mut registry), LocalResponse::Error { .. }));
    assert_eq!(
        respond(Submission::Dropped, &mut registry),
        LocalResponse::error("control-plane client dropped the reply".into())
    );
    let ended = DelegationOutcome {
        status: DelegationStatus::Timeout,
        result: None,
        error: Some("late".into()),
    };
    let answer = Answer::Await { reply: 1, result: Ok(ended) };
    assert_eq!(
        respond(Submission::Answered(answer), &mut registry),
        LocalResponse::Terminal {
            status: DelegationStatusWire::Timeout,
            result: None,
            error: Some("late".into()),
        }
    );
    let answer = Answer::Cancel { reply: 1, result: Ok(()) };
    assert_eq!(respond(Submission::Answered(answer), &mut registry), LocalResponse::Cancelled);
    let answer = Answer::Check { reply: 1, result: Ok(DelegationSnapshot::Pending) };
    assert_eq!(respond(Submission::Answered(answer), &mut registry), LocalResponse::Pending);
    let answer = Answer::Cancel { reply: 1, result: Err(CommandError::UnknownDelegation) };
    assert!(matches!(
        respond(Submission::Answered(answer), &mut registry),
        LocalResponse::Error { .. }
    ));
    let roster = vec![AgentSummary {
        name: "w1".into(),
        agent_type: AgentType::Worker,
        instance_id: "i-1".into(),
        labels: labelled_with(&[("zone", "b"), ("backend", "kiro")]),
        active_sessions: 1,
        max_delegated_sessions: 2,
    }];
    let answer = Answer::ListAgents { reply: 1, result: Ok(roster) };
    match respond(Submission::Answered(answer), &mut registry) {
        LocalResponse::Agents { agents } => {
            assert_eq!(agents.len(), 1);
            assert_eq!(agents[0].agent_type, "worker");
            assert_eq!(agents[0].max_delegated_sessions, 2);
        }
        _ => panic!("expected the roster"),
    }
    assert_eq!(registry.len(), 0);
}

#[test]
fn default_socket_path_prefers_env_then_falls_back_to_home() {
    assert_eq!(
        default_socket_path(Some("/tmp/custom-agent.sock".into()), Some("/home/tester".into())),
        Ok("/tmp/custom-agent.sock".to_string())
    );
    assert_eq!(
        default_socket_path(None, Some("/home/tester".into())),
        Ok("/home/tester/.openab/agent.sock".to_string())
    );
    assert!(default_socket_path(None, None).is_err());
    let client = LocalClient::from_default(None, Some("/home/tester/".into())).unwrap();
    assert_eq!(client.socket_path(), "/home/tester/.openab/agent.sock");
    assert_eq!(LocalClient::new("/tmp/s".into()).socket_path(), "/tmp/s");
    assert_eq!(join_path("", "x"), "x");
}
