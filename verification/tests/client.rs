//! The connection to the control plane.

use openab_core::config::ControlPlaneConfig;
use openab_core::config::CpAgentType;
use openab_core::control_plane::client::backoff_after_session;
use openab_core::control_plane::client::delegate_result_request;
use openab_core::control_plane::client::heartbeat_interval;
use openab_core::control_plane::client::jittered_backoff;
use openab_core::control_plane::client::next_backoff;
use openab_core::control_plane::client::on_register_event;
use openab_core::control_plane::client::reject_command;
use openab_core::control_plane::client::validate_register_ack;
use openab_core::control_plane::client::ControlPlaneClient;
use openab_core::control_plane::client::FrameAction;
use openab_core::control_plane::client::FrameParams;
use openab_core::control_plane::client::InboundMessage;
use openab_core::control_plane::client::OutboundRequest;
use openab_core::control_plane::client::Outcome;
use openab_core::control_plane::client::Reconnect;
use openab_core::control_plane::client::RegisterEvent;
use openab_core::control_plane::client::RegisterStep;
use openab_core::control_plane::client::Served;
use openab_core::control_plane::client::SessionAction;
use openab_core::control_plane::client::SessionEvent;
use openab_core::control_plane::client::MAX_FRAME_BYTES;
use openab_core::control_plane::client::STABLE_SESSION_SECS;
use openab_core::control_plane::primary::Answer;
use openab_core::control_plane::primary::ClientCommand;
use openab_core::control_plane::primary::CommandError;
use openab_core::control_plane::primary::DelegationHandle;
use openab_core::control_plane::primary::PrimaryState;
use openab_core::control_plane::primary::ReplyResult;
use openab_core::control_plane::primary::SpawnRequest;
use openab_core::control_plane::primary::SpawnTarget;
use openab_core::control_plane::request_id;
use openab_core::control_plane::sha256_hex;
use openab_core::control_plane::ControlRequestContext;
use openab_core::labels::Labels;
use openab_core::proto::AgentType;
use openab_core::proto::CancelParams;
use openab_core::proto::DelegateAck;
use openab_core::proto::DelegateForward;
use openab_core::proto::DelegateResultParams;
use openab_core::proto::DelegationStatus;
use openab_core::proto::ErrorObject;
use openab_core::proto::RegisterAck;
use openab_core::proto::Timestamp;
use openab_core::proto::INVALID_PARAMS;
use openab_core::proto::INVALID_REQUEST;
use openab_core::proto::METHOD_NOT_FOUND;
use openab_core::proto::POLICY_DENIED;
use openab_core::proto::PROTOCOL_VERSION;

const NOW: Timestamp = Timestamp { secs: 1_800_000_000, nanos: 0 };

fn backend_labels() -> Labels {
    let mut labels = Labels::new();
    labels.insert("backend".into(), "kiro".into());
    labels
}

fn cfg(agent_type: CpAgentType) -> ControlPlaneConfig {
    ControlPlaneConfig {
        url: "ws://127.0.0.1:1/cp".into(),
        auth_key: "k".into(),
        namespace: "prod".into(),
        name: "worker-1".into(),
        agent_type,
        labels: backend_labels(),
        max_delegated_sessions: 3,
        allow_insecure_transport: false,
    }
}

fn client() -> ControlPlaneClient {
    ControlPlaneClient::new(cfg(CpAgentType::Worker), 60_000_000_000)
}

fn primary_client() -> ControlPlaneClient {
    ControlPlaneClient::with_instance_id(cfg(CpAgentType::Primary), "i-1".into(), 60_000_000_000)
}

fn message(id: Option<u64>, method: Option<&str>) -> InboundMessage {
    InboundMessage {
        jsonrpc: Some("2.0".into()),
        id,
        method: method.map(|m| m.to_string()),
        params: FrameParams { delegate: None, cancel: None, delegate_result: None },
        result: ReplyResult { ack: None, agents: None },
        error: None,
    }
}

fn forward() -> DelegateForward {
    DelegateForward {
        delegation_id: "d-1".into(),
        admission: 7,
        prompt: "hi".into(),
        deadline: Timestamp { secs: NOW.secs + 60, nanos: 0 },
        from: "prod/koudu".into(),
        chain: vec!["prod/koudu".into()],
    }
}

fn delegate(id: u64) -> InboundMessage {
    let mut m = message(Some(id), Some("cp/delegate"));
    m.params.delegate = Some(forward());
    m
}

fn reply_of(action: FrameAction) -> serde_json::Value {
    match action {
        FrameAction::Reply(t) => serde_json::from_str(&t).unwrap(),
        _ => panic!("expected a reply"),
    }
}

#[test]
fn the_instance_id_is_a_uuid_and_is_stable_for_the_process() {
    let c = client();
    assert_eq!(c.instance_id().len(), 36);
    assert_eq!(c.instance_id(), c.instance_id());
    assert_ne!(client().instance_id(), c.instance_id());
}

#[test]
fn register_params_mirror_the_config_and_never_carry_the_key() {
    let mut c = client();
    let (id, params) = c.register();
    assert_eq!(id, 1);
    assert_eq!(params.agent_type, AgentType::Worker);
    assert_eq!(params.namespace, "prod");
    assert_eq!(params.name, "worker-1");
    assert_eq!(params.max_delegated_sessions, 3);
    assert_eq!(params.protocol_version, PROTOCOL_VERSION);
    assert_eq!(params.instance_id, c.instance_id());
    assert_eq!(params.labels, backend_labels());
    assert!(!format!("{params:?}").contains("\"k\""));
}

#[test]
fn a_primary_config_registers_as_primary() {
    assert_eq!(CpAgentType::Primary.agent_type(), AgentType::Primary);
    assert_eq!(primary_client().register().1.agent_type, AgentType::Primary);
}

#[test]
fn a_primary_refuses_worker_side_delegate_frames() {
    let v = reply_of(primary_client().handle_frame(delegate(9)).action);
    assert_eq!(v["error"]["code"], POLICY_DENIED);
}

fn ack(version: u32) -> RegisterAck {
    RegisterAck {
        protocol_version: version,
        heartbeat_interval_secs: 15,
        lease_expiry_secs: 45,
        effective_max_delegated_sessions: 1,
    }
}

#[test]
fn register_ack_requires_the_exact_protocol_version() {
    assert!(validate_register_ack(ack(PROTOCOL_VERSION)).is_ok());
    assert!(validate_register_ack(ack(PROTOCOL_VERSION + 1)).unwrap_err().contains("requires"));
}

#[test]
fn registration_waits_for_its_own_reply() {
    let frame = |id, error, result| RegisterEvent::Frame { id, error, result };
    assert!(matches!(on_register_event(1, RegisterEvent::Other), RegisterStep::Wait));
    assert!(matches!(
        on_register_event(1, frame(Some(2), None, Some(Ok(ack(PROTOCOL_VERSION))))),
        RegisterStep::Wait
    ));
    assert!(matches!(
        on_register_event(1, frame(Some(1), None, Some(Ok(ack(PROTOCOL_VERSION))))),
        RegisterStep::Registered(_)
    ));
    assert!(matches!(
        on_register_event(1, frame(Some(1), None, Some(Ok(ack(PROTOCOL_VERSION + 1))))),
        RegisterStep::Fail(_)
    ));
    assert!(matches!(
        on_register_event(1, frame(Some(1), None, Some(Err("odd".into())))),
        RegisterStep::Fail(_)
    ));
    assert!(matches!(on_register_event(1, frame(Some(1), None, None)), RegisterStep::Fail(_)));
    let refused = ErrorObject { code: -32001, message: "bad key".into() };
    match on_register_event(1, frame(Some(1), Some(refused), None)) {
        RegisterStep::Fail(why) => assert!(why.contains("bad key")),
        _ => panic!("must fail"),
    }
    assert!(matches!(on_register_event(1, RegisterEvent::Eof), RegisterStep::Fail(_)));
    assert!(matches!(on_register_event(1, RegisterEvent::Closed), RegisterStep::Fail(_)));
    match on_register_event(1, RegisterEvent::Malformed("eof".into())) {
        RegisterStep::Fail(why) => assert_eq!(why, "malformed cp/register reply: eof"),
        _ => panic!("must fail"),
    }
}

#[test]
fn the_ack_sets_the_ceiling_and_the_heartbeat() {
    let mut c = client();
    c.registered(&ack(PROTOCOL_VERSION));
    assert_eq!(c.executor().effective_max(), 1);
    assert_eq!(heartbeat_interval(&ack(PROTOCOL_VERSION)), 15);
    let mut never = ack(PROTOCOL_VERSION);
    never.heartbeat_interval_secs = 0;
    assert_eq!(heartbeat_interval(&never), 1);
}

#[test]
fn reconnect_backoff_is_jittered_bounded_and_resets_only_after_stability() {
    for base in [1, 2, 4, 8, 16, 30] {
        for _ in 0..100 {
            let delay = jittered_backoff(base);
            assert!(delay >= base * 500);
            assert!(delay <= base * 1000);
        }
    }
    assert_eq!(next_backoff(16), 30);
    assert_eq!(next_backoff(30), 30);
    assert_eq!(backoff_after_session(16, (STABLE_SESSION_SECS - 1) * 1000), 16);
    assert_eq!(backoff_after_session(16, STABLE_SESSION_SECS * 1000), 1);
}

#[test]
fn jitter_is_not_the_whole_delay() {
    let delays: Vec<u64> = (0..100).map(|_| jittered_backoff(30)).collect();
    assert!(delays.iter().any(|d| *d != delays[0]));
    assert!(jittered_backoff(0) <= 1);
}

#[test]
fn attempts_back_off_until_a_session_was_stable() {
    let mut r = Reconnect::new();
    assert_eq!(r.after_attempt(Served::Failed), Some(1));
    r.after_delay();
    assert_eq!(r.after_attempt(Served::Disconnected { elapsed_ms: 5 }), Some(2));
    r.after_delay();
    assert_eq!(r.after_attempt(Served::Disconnected { elapsed_ms: 60_000 }), Some(1));
    assert_eq!(r.after_attempt(Served::Shutdown), None);
}

fn completed(delegation_id: String, result: Option<String>) -> DelegateResultParams {
    DelegateResultParams {
        delegation_id,
        admission: 1,
        status: DelegationStatus::Completed,
        result,
        error: None,
    }
}

#[test]
fn delegate_result_cap_accounts_for_the_complete_envelope() {
    let result = completed("d".repeat(600 * 1024), Some("x".repeat(512 * 1024)));
    let serialized = delegate_result_request(42, result).unwrap();
    assert!(serialized.len() <= MAX_FRAME_BYTES);
    assert!(serialized.contains("truncated by worker"));
    let v: serde_json::Value = serde_json::from_str(&serialized).unwrap();
    assert_eq!(v["id"], 42);
    assert_eq!(v["method"], "cp/delegate_result");
}

#[test]
fn a_small_result_is_framed_whole() {
    let frame = delegate_result_request(3, completed("d\"1".into(), Some("ok".into()))).unwrap();
    let v: serde_json::Value = serde_json::from_str(&frame).unwrap();
    assert_eq!(v["params"]["delegation_id"], "d\"1");
    assert_eq!(v["params"]["result"], "ok");
    assert_eq!(v["params"]["status"], "completed");
    assert_eq!(v["params"]["admission"], 1);
    assert!(v["params"].get("error").is_none());
}

#[test]
fn an_envelope_that_cannot_fit_is_an_error() {
    let big = "d".repeat(MAX_FRAME_BYTES);
    assert_eq!(
        delegate_result_request(1, completed(big.clone(), None)),
        Err("delegate_result envelope exceeds the transport limit without a payload".to_string())
    );
    let err = delegate_result_request(1, completed(big, Some("x".into()))).unwrap_err();
    assert!(err.ends_with("bytes) exceeds transport limit (1048576 bytes)"));
}

#[test]
fn rpc_ids_are_monotonic() {
    let mut c = client();
    let a = c.next_id();
    let b = c.next_id();
    assert!(b > a);
}

#[test]
fn a_delegate_frame_is_acked_and_yields_a_servable_forward() {
    let c = client();
    match c.handle_frame(delegate(9)).action {
        FrameAction::Serve { ack, forward } => {
            let v: serde_json::Value = serde_json::from_str(&ack).unwrap();
            assert_eq!(v["id"], 9);
            assert_eq!(v["result"]["ok"], true);
            assert!(v.get("error").is_none());
            assert_eq!(forward.delegation_id, "d-1");
            assert_eq!(forward.admission, 7);
            assert_eq!(forward.from, "prod/koudu");
            assert_eq!(forward.chain, vec!["prod/koudu".to_string()]);
        }
        _ => panic!("cp/delegate must be served"),
    }
}

#[test]
fn malformed_delegate_params_are_rejected_without_serving() {
    let v = reply_of(client().handle_frame(message(Some(3), Some("cp/delegate"))).action);
    assert_eq!(v["error"]["code"], INVALID_PARAMS);
}

#[test]
fn cancel_is_acked_even_for_an_unknown_delegation() {
    let mut m = message(Some(4), Some("cp/cancel"));
    m.params.cancel = Some(CancelParams {
        delegation_id: "gone".into(),
        admission: 3,
        reason: "initiator gave up".into(),
    });
    let step = client().handle_frame(m);
    assert_eq!(step.signal, None);
    let FrameAction::Reply(reply) = step.action else {
        panic!("expected an ack");
    };
    assert!(reply.contains("\"ok\":true"));
}

#[test]
fn cancel_signals_only_the_admission_that_it_names() {
    let mut c = client();
    c.serve_forward(&forward(), NOW);
    let cancel = |admission| {
        let mut m = message(Some(4), Some("cp/cancel"));
        m.params.cancel = Some(CancelParams {
            delegation_id: "d-1".into(),
            admission,
            reason: "r".into(),
        });
        m
    };
    assert_eq!(c.handle_frame(cancel(6)).signal, None);
    assert_eq!(c.handle_frame(cancel(7)).signal, Some("d-1".to_string()));
    c.release("d-1");
    assert_eq!(c.handle_frame(cancel(7)).signal, None);
}

#[test]
fn an_unknown_method_gets_method_not_found() {
    let v = reply_of(client().handle_frame(message(Some(5), Some("cp/event"))).action);
    assert_eq!(v["error"]["code"], METHOD_NOT_FOUND);
}

#[test]
fn responses_to_our_own_requests_are_absorbed() {
    let c = client();
    let ok = message(Some(1), None);
    assert!(matches!(c.handle_frame(ok).action, FrameAction::Ignore));
    let mut failed = message(Some(2), None);
    failed.error = Some(ErrorObject { code: -32004, message: "no target".into() });
    assert!(matches!(c.handle_frame(failed).action, FrameAction::Ignore));
}

#[test]
fn a_notification_shaped_request_is_refused() {
    let v = reply_of(client().handle_frame(message(None, Some("cp/delegate"))).action);
    assert_eq!(v["error"]["code"], INVALID_REQUEST);
    let mut unversioned = message(Some(2), Some("cp/delegate"));
    unversioned.jsonrpc = None;
    let v = reply_of(client().handle_frame(unversioned).action);
    assert_eq!(v["error"]["code"], INVALID_REQUEST);
    assert_eq!(v["id"], 2);
}

#[test]
fn garbage_is_dropped_not_answered() {
    let mut primary = PrimaryState::new();
    let step = client().on_event(SessionEvent::Inbound(None), &mut primary);
    assert!(matches!(step.action, SessionAction::Nothing));
}

fn spawn(reply: u64) -> ClientCommand {
    ClientCommand::Spawn {
        request: SpawnRequest {
            delegation_id: "d-9".into(),
            target: SpawnTarget::by_name("w".into()),
            prompt: "p".into(),
            deadline: NOW,
            parent: None,
        },
        reply,
    }
}

#[test]
fn a_worker_cannot_initiate_delegations() {
    let mut c = client();
    let mut primary = PrimaryState::new();
    let step = c.handle_command(spawn(3), &mut primary);
    assert!(matches!(step.action, SessionAction::Nothing));
    assert!(matches!(
        &step.answers[0],
        Answer::Spawn { reply: 3, result: Err(CommandError::Internal(m)) } if m.contains("not registered")
    ));
    let step = c.handle_command(ClientCommand::ListAgents { reply: 4 }, &mut primary);
    assert!(matches!(
        &step.answers[0],
        Answer::ListAgents { reply: 4, result: Err(CommandError::Internal(_)) }
    ));
}

#[test]
fn a_primary_session_spawns_learns_the_ack_and_ends() {
    let mut c = primary_client();
    let mut primary = PrimaryState::new();
    let step = c.on_event(SessionEvent::Command(spawn(3)), &mut primary);
    let rpc_id = match step.action {
        SessionAction::Request { rpc_id, request } => {
            assert_eq!(request.method(), "cp/delegate");
            rpc_id
        }
        _ => panic!("must be sent"),
    };
    let mut reply = message(Some(rpc_id), None);
    reply.result.ack = Some(DelegateAck {
        delegation_id: "d-9".into(),
        admission: 2,
        assigned_to: "prod/w".into(),
    });
    let step = c.on_event(SessionEvent::Inbound(Some(reply)), &mut primary);
    assert!(matches!(&step.answers[0], Answer::Spawn { reply: 3, result: Ok(_) }));

    let handle = DelegationHandle::new("d-9".into(), 2);
    let await_it = ClientCommand::Await { handle: handle.clone(), reply: 8 };
    assert_eq!(c.on_event(SessionEvent::Command(await_it), &mut primary).answers.len(), 0);

    let step = c.on_event(SessionEvent::HeartbeatTick, &mut primary);
    match step.action {
        SessionAction::Request { request, .. } => {
            assert_eq!(request.method(), "cp/heartbeat");
            assert!(matches!(request, OutboundRequest::Heartbeat { active_delegated_sessions: 0, .. }));
        }
        _ => panic!("must be sent"),
    }
    let end = c.end_session(&mut primary);
    assert!(end.signals.is_empty());
    assert!(matches!(
        &end.answers[0],
        Answer::Await { reply: 8, result: Err(CommandError::Disconnected) }
    ));
}

#[test]
fn a_result_frame_is_acked_and_wakes_its_awaiter() {
    let mut c = primary_client();
    let mut primary = PrimaryState::new();
    let emission = primary.begin_spawn(
        1,
        match spawn(3) {
            ClientCommand::Spawn { request, .. } => request,
            _ => unreachable!(),
        },
        3,
    );
    let ack = DelegateAck { delegation_id: "d-9".into(), admission: 2, assigned_to: "w".into() };
    primary.on_reply(emission.rpc_id, ReplyResult { ack: Some(ack), agents: None }, None);
    primary.begin_await(&DelegationHandle::new("d-9".into(), 2), 8);
    let mut m = message(Some(77), Some("cp/delegate_result"));
    m.params.delegate_result = Some(DelegateResultParams {
        delegation_id: "d-9".into(),
        admission: 2,
        status: DelegationStatus::Completed,
        result: Some("fine".into()),
        error: None,
    });
    let step = c.on_event(SessionEvent::Inbound(Some(m)), &mut primary);
    match step.action {
        SessionAction::Send(t) => assert_eq!(t, "{\"jsonrpc\":\"2.0\",\"id\":77,\"result\":{\"ok\":true}}"),
        _ => panic!("must be acked"),
    }
    assert!(matches!(&step.answers[0], Answer::Await { reply: 8, result: Ok(_) }));
}

#[test]
fn sessions_end_pong_and_report() {
    let mut c = client();
    let mut primary = PrimaryState::new();
    assert!(matches!(
        c.on_event(SessionEvent::Shutdown, &mut primary).action,
        SessionAction::End(Outcome::Shutdown)
    ));
    assert!(matches!(
        c.on_event(SessionEvent::Gone, &mut primary).action,
        SessionAction::End(Outcome::Disconnected)
    ));
    assert!(matches!(
        c.on_event(SessionEvent::Ping(vec![1, 2]), &mut primary).action,
        SessionAction::Pong(p) if p == vec![1, 2]
    ));
    assert!(matches!(
        c.on_event(SessionEvent::Finished(completed("d".into(), None)), &mut primary).action,
        SessionAction::Send(_)
    ));
    let too_big = completed("d".repeat(MAX_FRAME_BYTES), None);
    assert!(matches!(
        c.on_event(SessionEvent::Finished(too_big), &mut primary).action,
        SessionAction::Abort(_)
    ));
}

#[test]
fn commands_without_a_connection_are_rejected() {
    assert!(matches!(
        reject_command(ClientCommand::ListAgents { reply: 2 }),
        Answer::ListAgents { reply: 2, result: Err(CommandError::NotConnected) }
    ));
    assert!(matches!(
        reject_command(spawn(2)),
        Answer::Spawn { reply: 2, result: Err(CommandError::NotConnected) }
    ));
}

#[test]
fn request_contexts_and_digests() {
    let context = ControlRequestContext::new("r-1".into());
    assert_eq!(context.request_id(), "r-1");
    assert_eq!(request_id(Some(&context)), Some("r-1".to_string()));
    assert_eq!(request_id(None), None);
    assert_eq!(
        sha256_hex("abc"),
        "ba7816bf8f01cfea414140de5dae2223b00361a396177a9cb410ff61f20015ad"
    );
}
