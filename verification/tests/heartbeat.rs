//! The heartbeats of native work, and what decides that they are sent.

use openab_core::admission::NativeWorkflowMetadata;
use openab_core::agent_lease_heartbeat::after_tick;
use openab_core::agent_lease_heartbeat::after_wait;
use openab_core::agent_lease_heartbeat::AgentLeaseHeartbeatError;
use openab_core::agent_lease_heartbeat::AgentLeaseHeartbeatResponse;
use openab_core::agent_lease_heartbeat::HeartbeatProducer;
use openab_core::agent_lease_heartbeat::LoopAction;
use openab_core::agent_lease_heartbeat::ResolvedHeartbeatConfig;
use openab_core::agent_lease_heartbeat::Tick;
use openab_core::agent_lease_heartbeat::TickAction;
use openab_core::agent_lease_heartbeat::TickEvent;
use openab_core::agent_lease_heartbeat::WaitEvent;
use openab_core::agent_lease_heartbeat_compose::compose_production_heartbeat;
use openab_core::agent_lease_heartbeat_compose::native_work_enabled_for;
use openab_core::agent_lease_heartbeat_compose::HeartbeatComposeError;
use openab_core::agent_lease_heartbeat_compose::HeartbeatComposeOutcome;
use openab_core::agent_lease_heartbeat_compose::AAP_LEASE_TTL_SECONDS;
use openab_core::agent_lease_heartbeat_compose::DEFAULT_HEARTBEAT_INTERVAL_SECONDS;
use openab_core::config::AapControlPlaneConfig;
use openab_core::config::AgentLeaseHeartbeatConfig;
use openab_core::retry::backoff_ms;

fn parsed() -> AgentLeaseHeartbeatConfig {
    AgentLeaseHeartbeatConfig {
        aap_runtime_url: "http://127.0.0.1:8000".into(),
        aap_credential_env: "ARTHUR_AGENT_KEY_OPENAB".into(),
        heartbeat_interval_seconds: 80,
        request_timeout_seconds: 5,
        retry_max: 3,
        retry_backoff_ms: 250,
        ttl_seconds: None,
    }
}

fn metadata(dispatch_id: &str) -> NativeWorkflowMetadata {
    NativeWorkflowMetadata {
        dispatch_id: dispatch_id.into(),
        conversation_key: "ck".into(),
        workflow_run_id: "run-1".into(),
        task_id: "task-1".into(),
        role: "PRIMARY".into(),
        agent: "ArthurClaude".into(),
        lease_id: "lease-1".into(),
        lease_generation: 7,
        expected_revision: 3,
        language: None,
        project_id: None,
        project_root: None,
        native_execution_session_key: None,
        transport: None,
        delivery_destination: None,
        scope_policy: None,
    }
}

fn response(disposition: &str) -> AgentLeaseHeartbeatResponse {
    AgentLeaseHeartbeatResponse {
        disposition: disposition.into(),
        reason: "r".into(),
        lease_id: None,
        generation: None,
        expires_at: Some("soon".into()),
    }
}

#[test]
fn default_cadence_is_well_below_lease_ttl() {
    let cfg = parsed();
    assert!(cfg.heartbeat_interval_seconds < 300);
    assert!((60..=100).contains(&cfg.heartbeat_interval_seconds));
}

#[test]
fn heartbeat_url_uses_canonical_path() {
    let mut cfg = ResolvedHeartbeatConfig::default();
    cfg.aap_runtime_url = "http://127.0.0.1:8000/".into();
    assert_eq!(cfg.heartbeat_url(), "http://127.0.0.1:8000/v1/integrations/openab/agent/heartbeat");
}

#[test]
fn is_enabled_requires_non_empty_bearer_token() {
    let mut cfg = ResolvedHeartbeatConfig::default();
    assert!(!cfg.is_enabled());
    cfg.bearer_token = String::new();
    assert!(!cfg.is_enabled());
    cfg.bearer_token = "real-token".into();
    assert!(cfg.is_enabled());
}

#[test]
fn build_production_returns_none_when_credential_missing() {
    let cfg = ResolvedHeartbeatConfig::default();
    assert!(HeartbeatProducer::build_production(cfg).is_none());
}

#[test]
fn resolve_returns_none_when_credential_env_missing() {
    assert!(ResolvedHeartbeatConfig::resolve(&parsed(), None).is_none());
    assert!(ResolvedHeartbeatConfig::resolve(&parsed(), Some(String::new())).is_none());
    let resolved = ResolvedHeartbeatConfig::resolve(&parsed(), Some("t".into())).unwrap();
    assert_eq!(resolved.bearer_token, "t");
    assert_eq!(resolved.retry_backoff_ms, 250);
}

#[test]
fn payload_carries_authoritative_dispatch_metadata() {
    let mut cfg = ResolvedHeartbeatConfig::default();
    cfg.aap_runtime_url = "http://aap".into();
    cfg.bearer_token = "test-token".into();
    cfg.heartbeat_interval_seconds = 60;
    cfg.ttl_seconds = Some(300);
    let producer = HeartbeatProducer::build_production(cfg).unwrap();
    let context = producer.start(&metadata("dispatch-77"));
    assert_eq!(context.request.dispatch_id, "dispatch-77");
    assert_eq!(context.request.lease_id, "lease-1");
    assert_eq!(context.request.lease_generation, 7);
    assert_eq!(context.request.workflow_run_id, "run-1");
    assert_eq!(context.request.agent, "ArthurClaude");
    assert_eq!(context.request.role, "PRIMARY");
    assert_eq!(context.request.ttl_seconds, Some(300));
    assert_eq!(context.url, "http://aap/v1/integrations/openab/agent/heartbeat");
    assert_eq!(context.bearer, "test-token");
    assert_eq!(context.cadence_seconds, 60);
}

#[test]
fn errors_have_codes_and_words() {
    let e = AgentLeaseHeartbeatError::Http { status: 503, body_snippet: "busy".into() };
    assert_eq!(e.code(), "HEARTBEAT_HTTP_ERROR");
    assert_eq!(e.message(), "heartbeat HTTP 503: busy");
    assert_eq!(AgentLeaseHeartbeatError::Timeout.code(), "HEARTBEAT_TIMEOUT");
    assert_eq!(AgentLeaseHeartbeatError::Timeout.message(), "heartbeat timeout");
    assert_eq!(AgentLeaseHeartbeatError::AuthMissing.code(), "HEARTBEAT_AUTH_MISSING");
    assert_eq!(AgentLeaseHeartbeatError::AuthMissing.message(), "heartbeat credential missing");
    let u = AgentLeaseHeartbeatError::Unreachable("dns".into());
    assert_eq!(u.code(), "HEARTBEAT_UNREACHABLE");
    assert_eq!(u.message(), "heartbeat unreachable: dns");
    let m = AgentLeaseHeartbeatError::Malformed("x".into());
    assert_eq!(m.code(), "HEARTBEAT_RESPONSE_MALFORMED");
    assert_eq!(m.message(), "heartbeat response malformed: x");
}

#[test]
fn transport_failure_is_retried_with_growing_waits() {
    let mut tick = Tick::new(2, 250);
    assert_eq!(tick.step(TickEvent::Ready { stopped: false }), TickAction::Post);
    let failed = AgentLeaseHeartbeatError::Unreachable("down".into());
    assert_eq!(tick.step(TickEvent::Failed(failed)), TickAction::Sleep { ms: 250 });
    assert_eq!(tick.step(TickEvent::Ready { stopped: false }), TickAction::Post);
    let busy = TickEvent::Response { status: 503, body: "busy".into(), decoded: Ok(response("ACCEPTED")) };
    assert_eq!(tick.step(busy), TickAction::Sleep { ms: 500 });
    assert_eq!(tick.step(TickEvent::Ready { stopped: false }), TickAction::Post);
    assert_eq!(
        tick.step(TickEvent::Failed(AgentLeaseHeartbeatError::Timeout)),
        TickAction::Done(Err(AgentLeaseHeartbeatError::Timeout))
    );
}

#[test]
fn retry_backoff_is_interruptible_by_stop() {
    let mut tick = Tick::new(3, 5000);
    tick.step(TickEvent::Ready { stopped: false });
    tick.step(TickEvent::Failed(AgentLeaseHeartbeatError::Timeout));
    assert_eq!(
        tick.step(TickEvent::Stopped),
        TickAction::Done(Err(AgentLeaseHeartbeatError::Timeout))
    );
}

#[test]
fn in_flight_http_attempt_is_interruptible_by_stop() {
    let mut tick = Tick::new(3, 100);
    tick.step(TickEvent::Ready { stopped: false });
    assert_eq!(
        tick.step(TickEvent::Stopped),
        TickAction::Done(Err(AgentLeaseHeartbeatError::Unreachable("stop signalled mid-request".into())))
    );
}

#[test]
fn late_heartbeat_after_stop_is_not_sent() {
    let mut tick = Tick::new(3, 100);
    assert_eq!(
        tick.step(TickEvent::Ready { stopped: true }),
        TickAction::Done(Err(AgentLeaseHeartbeatError::Unreachable(
            "stop signalled before retry attempt".into()
        )))
    );
    assert_eq!(after_wait(WaitEvent::Elapsed, true), LoopAction::Exit);
    assert_eq!(after_wait(WaitEvent::SignalDropped, false), LoopAction::Exit);
    assert_eq!(after_wait(WaitEvent::SignalChanged, false), LoopAction::Fire);
}

#[test]
fn rejected_heartbeats_are_not_repeated_and_long_bodies_are_cut() {
    let mut tick = Tick::new(3, 100);
    tick.step(TickEvent::Ready { stopped: false });
    let event = TickEvent::Response { status: 401, body: "é".repeat(300), decoded: Err("no".into()) };
    assert_eq!(
        tick.step(event),
        TickAction::Done(Err(AgentLeaseHeartbeatError::Http { status: 401, body_snippet: "é".repeat(200) }))
    );
}

#[test]
fn accepted_responses_end_the_tick() {
    let mut tick = Tick::new(0, 100);
    tick.step(TickEvent::Ready { stopped: false });
    let event = TickEvent::Response { status: 200, body: "{}".into(), decoded: Ok(response("ACCEPTED")) };
    assert_eq!(tick.step(event), TickAction::Done(Ok(response("ACCEPTED"))));
    let mut other = Tick::new(3, 100);
    other.step(TickEvent::Ready { stopped: false });
    let event = TickEvent::Response { status: 200, body: "?".into(), decoded: Err("bad json".into()) };
    assert_eq!(
        other.step(event),
        TickAction::Done(Err(AgentLeaseHeartbeatError::Malformed("decode response: bad json".into())))
    );
}

#[test]
fn transport_failure_does_not_kill_loop() {
    assert_eq!(
        after_tick(Err(AgentLeaseHeartbeatError::Timeout), false),
        LoopAction::ReportFailed { code: "HEARTBEAT_TIMEOUT", error: "heartbeat timeout".into() }
    );
    assert_eq!(
        after_tick(Ok(response("REJECTED")), false),
        LoopAction::ReportRejected { reason: "r".into() }
    );
    assert_eq!(
        after_tick(Ok(response("ACCEPTED")), false),
        LoopAction::ReportAccepted { expires_at: "soon".into() }
    );
    assert_eq!(after_tick(Ok(response("ACCEPTED")), true), LoopAction::Exit);
}

#[test]
fn waits_double_from_attempt_to_attempt() {
    assert_eq!(backoff_ms(250, 0), 250);
    assert_eq!(backoff_ms(250, 3), 2000);
    assert_eq!(backoff_ms(u64::MAX, 63), (u64::MAX as u128) << 63);
}

fn aap_control_plane_enabled(env: &str) -> AapControlPlaneConfig {
    AapControlPlaneConfig {
        aap_runtime_url: "http://127.0.0.1:8000".into(),
        aap_credential_env: env.into(),
        enabled: true,
    }
}

fn heartbeat_override(cadence: u64) -> AgentLeaseHeartbeatConfig {
    AgentLeaseHeartbeatConfig {
        aap_runtime_url: "http://should-be-ignored:9999".into(),
        aap_credential_env: "SHOULD_BE_IGNORED".into(),
        heartbeat_interval_seconds: cadence,
        request_timeout_seconds: 5,
        retry_max: 3,
        retry_backoff_ms: 250,
        ttl_seconds: None,
    }
}

fn composed(cadence: Option<u64>, credential: &str) -> Result<HeartbeatComposeOutcome, HeartbeatComposeError> {
    let section = aap_control_plane_enabled("ARTHUR_AGENT_KEY_OPENAB_TEST_OK");
    let over = cadence.map(heartbeat_override);
    compose_production_heartbeat(Some(&section), over.as_ref(), Some(credential.to_string()))
}

fn producer_of(outcome: HeartbeatComposeOutcome) -> HeartbeatProducer {
    match outcome {
        HeartbeatComposeOutcome::Enabled(p) => p,
        HeartbeatComposeOutcome::Disabled => panic!("must be enabled"),
    }
}

#[test]
fn aap_control_plane_enabled_with_valid_credential_derives_producer() {
    let producer = producer_of(composed(None, "test-bearer-token-123").unwrap());
    assert!(producer.config().is_enabled());
    assert_eq!(producer.config().aap_runtime_url, "http://127.0.0.1:8000");
    assert_eq!(producer.config().bearer_token, "test-bearer-token-123");
    assert_eq!(producer.config().heartbeat_interval_seconds, DEFAULT_HEARTBEAT_INTERVAL_SECONDS);
}

#[test]
fn native_work_enabled_missing_credential_fails_closed() {
    let section = aap_control_plane_enabled("OPENAB_HEARTBEAT_TEST_CREDENTIAL_MISSING_ZZZ");
    match compose_production_heartbeat(Some(&section), None, None) {
        Err(HeartbeatComposeError::CredentialMissing { credential_env }) => {
            assert_eq!(credential_env, "OPENAB_HEARTBEAT_TEST_CREDENTIAL_MISSING_ZZZ");
        }
        _ => panic!("expected CredentialMissing"),
    }
}

#[test]
fn native_work_disabled_returns_disabled_outcome() {
    let outcome = compose_production_heartbeat(None, None, None).unwrap();
    assert!(matches!(outcome, HeartbeatComposeOutcome::Disabled));
    let disabled = AapControlPlaneConfig {
        aap_runtime_url: "http://127.0.0.1:8000".into(),
        aap_credential_env: "ANY".into(),
        enabled: false,
    };
    let outcome = compose_production_heartbeat(Some(&disabled), None, None).unwrap();
    assert!(matches!(outcome, HeartbeatComposeOutcome::Disabled));
}

#[test]
fn cadence_equal_to_or_above_ttl_fails_closed() {
    assert_eq!(
        composed(Some(300), "test-bearer-token-123"),
        Err(HeartbeatComposeError::CadenceTooLong {
            cadence_seconds: 300,
            ttl_seconds: AAP_LEASE_TTL_SECONDS,
        })
    );
    assert!(matches!(
        composed(Some(600), "test-bearer-token-123"),
        Err(HeartbeatComposeError::CadenceTooLong { .. })
    ));
}

#[test]
fn effective_cadence_is_strictly_below_ttl() {
    let default = producer_of(composed(None, "test-bearer-token-123").unwrap());
    assert!(default.config().heartbeat_interval_seconds < AAP_LEASE_TTL_SECONDS);
    let upper = producer_of(composed(Some(99), "test-bearer-token-123").unwrap());
    assert_eq!(upper.config().heartbeat_interval_seconds, 99);
    assert!(upper.config().heartbeat_interval_seconds < AAP_LEASE_TTL_SECONDS);
    let lower = producer_of(composed(Some(60), "test-bearer-token-123").unwrap());
    assert_eq!(lower.config().heartbeat_interval_seconds, 60);
}

#[test]
fn heartbeat_override_does_not_supplant_canonical_authority() {
    let producer = producer_of(composed(Some(70), "canonical-credential").unwrap());
    assert_eq!(producer.config().aap_runtime_url, "http://127.0.0.1:8000");
    assert_eq!(producer.config().bearer_token, "canonical-credential");
    assert_eq!(producer.config().heartbeat_interval_seconds, 70);
}

#[test]
fn native_work_enabled_signal_matches_aap_control_plane_enabled_flag() {
    assert!(!native_work_enabled_for(None));
    assert!(!native_work_enabled_for(Some(&AapControlPlaneConfig {
        aap_runtime_url: "http://127.0.0.1:8000".into(),
        aap_credential_env: "ANY".into(),
        enabled: false,
    })));
    assert!(native_work_enabled_for(Some(&AapControlPlaneConfig {
        aap_runtime_url: "http://127.0.0.1:8000".into(),
        aap_credential_env: "ANY".into(),
        enabled: true,
    })));
}

fn daemon(credential: Option<&str>, enabled: bool) -> Result<HeartbeatComposeOutcome, HeartbeatComposeError> {
    let section = AapControlPlaneConfig {
        aap_runtime_url: "http://127.0.0.1:8000".into(),
        aap_credential_env: "ARTHUR_AGENT_KEY_OPENAB".into(),
        enabled,
    };
    compose_production_heartbeat(Some(&section), None, credential.map(|c| c.to_string()))
}

#[test]
fn round_3_first_daemon_compose_enabled() {
    let outcome = daemon(Some("first-deployment-credential"), true).unwrap();
    assert!(matches!(outcome, HeartbeatComposeOutcome::Enabled(_)));
}

#[test]
fn round_3_codex_daemon_compose_enabled_without_autonomous_ingress() {
    let outcome = daemon(Some("codex-deployment-credential"), true).unwrap();
    assert!(matches!(outcome, HeartbeatComposeOutcome::Enabled(_)));
}

#[test]
fn round_3_gemini_daemon_compose_enabled_without_autonomous_ingress() {
    let outcome = daemon(Some("gemini-deployment-credential"), true).unwrap();
    assert!(matches!(outcome, HeartbeatComposeOutcome::Enabled(_)));
}

#[test]
fn round_3_acp_only_daemon_with_disabled_flag_composes_disabled() {
    let outcome = daemon(Some("would-be-credential"), false).unwrap();
    assert!(matches!(outcome, HeartbeatComposeOutcome::Disabled));
}

#[test]
fn round_3_native_work_enabled_missing_canonical_credential_fails_closed() {
    assert!(matches!(daemon(None, true), Err(HeartbeatComposeError::CredentialMissing { .. })));
}

#[test]
fn round_3_production_cadence_below_ttl_for_all_enabled() {
    let producer = producer_of(daemon(Some("production-cadence-credential"), true).unwrap());
    assert!(producer.config().heartbeat_interval_seconds < AAP_LEASE_TTL_SECONDS);
}

#[test]
fn a_wait_follows_only_a_failure_that_is_not_the_last() {
    let mut tick = Tick::new(1, 10);
    let response = |status: u16| TickEvent::Response {
        status,
        body: String::new(),
        decoded: Err(String::new()),
    };
    assert!(!tick.waits_after(&response(500)));
    assert_eq!(tick.step(TickEvent::Ready { stopped: false }), TickAction::Post);
    assert!(tick.waits_after(&response(500)));
    assert!(tick.waits_after(&response(301)));
    assert!(tick.waits_after(&TickEvent::Failed(AgentLeaseHeartbeatError::Timeout)));
    assert!(!tick.waits_after(&response(200)));
    assert!(!tick.waits_after(&response(404)));
    assert!(!tick.waits_after(&TickEvent::Stopped));
    assert_eq!(tick.step(response(500)), TickAction::Sleep { ms: 10 });
    assert_eq!(tick.step(TickEvent::Ready { stopped: false }), TickAction::Post);
    assert!(!tick.waits_after(&response(500)));
}

#[test]
fn a_tick_sends_no_more_requests_than_its_retries_and_one() {
    let mut tick = Tick::new(2, 10);
    let mut event = TickEvent::Ready { stopped: false };
    let mut requests = 0;
    loop {
        event = match tick.step(event) {
            TickAction::Post => {
                requests += 1;
                TickEvent::Failed(AgentLeaseHeartbeatError::Timeout)
            }
            TickAction::Sleep { .. } => TickEvent::Ready { stopped: false },
            TickAction::Done(outcome) => {
                assert_eq!(outcome, Err(AgentLeaseHeartbeatError::Timeout));
                break;
            }
        };
    }
    assert_eq!(requests, 3);
}
