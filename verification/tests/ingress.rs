//! Handing turns to the scheduler.

use openab_core::adapter::ChannelRef;
use openab_core::autonomous_ingress::build_candidate;
use openab_core::autonomous_ingress::build_production_client;
use openab_core::autonomous_ingress::HttpAutonomousIngressClient;
use openab_core::autonomous_ingress::log_accepted;
use openab_core::autonomous_ingress::log_candidate;
use openab_core::autonomous_ingress::log_failure;
use openab_core::autonomous_ingress::project_error;
use openab_core::autonomous_ingress::project_response;
use openab_core::autonomous_ingress::should_route_to_aap;
use openab_core::autonomous_ingress::AutonomousIngressError;
use openab_core::autonomous_ingress::AutonomousIngressResponse;
use openab_core::autonomous_ingress::AutonomousRouteDisposition;
use openab_core::autonomous_ingress::LogField;
use openab_core::autonomous_ingress::LogValue;
use openab_core::config::AutonomousIngressConfig;

fn cfg_with_agents(agents: &[&str], universal: bool) -> AutonomousIngressConfig {
    AutonomousIngressConfig {
        aap_agents: agents.iter().map(|s| s.to_string()).collect(),
        aap_runtime_url: "http://127.0.0.1:8000".into(),
        aap_credential_env: "TEST_TOKEN_ENV".into(),
        project_id: "arthur-ai-platform".into(),
        request_timeout_seconds: 5,
        aap_universal_humans: universal,
    }
}

#[test]
fn routing_requires_config() {
    assert!(!should_route_to_aap(None, "ArthurClaude", true));
}

#[test]
fn routing_requires_declared_agent() {
    let cfg = cfg_with_agents(&["ArthurCodex"], false);
    assert!(!should_route_to_aap(Some(&cfg), "ArthurClaude", true));
    assert!(should_route_to_aap(Some(&cfg), "ArthurCodex", true));
}

#[test]
fn routing_requires_tech_lead_when_universal_false() {
    let cfg = cfg_with_agents(&["ArthurClaude"], false);
    assert!(!should_route_to_aap(Some(&cfg), "ArthurClaude", false));
    assert!(should_route_to_aap(Some(&cfg), "ArthurClaude", true));
}

#[test]
fn routing_universal_humans_bypasses_tech_lead() {
    let cfg = cfg_with_agents(&["ArthurClaude"], true);
    assert!(should_route_to_aap(Some(&cfg), "ArthurClaude", false));
    assert!(should_route_to_aap(Some(&cfg), "ArthurClaude", true));
}

#[test]
fn disposition_accepted_carries_canonical_identifiers() {
    let resp = AutonomousIngressResponse {
        disposition: "ACCEPTED".into(),
        task_id: Some("t1".into()),
        workflow_run_id: Some("r1".into()),
        binding_id: Some("b1".into()),
        conversation_key: Some("k1".into()),
        error_code: None,
        detail: None,
        retryable: None,
    };
    let d = project_response(resp, "fallback");
    match d {
        AutonomousRouteDisposition::Accepted {
            task_id,
            workflow_run_id,
            binding_id,
            conversation_key,
        } => {
            assert_eq!(task_id, "t1");
            assert_eq!(workflow_run_id, "r1");
            assert_eq!(binding_id, "b1");
            assert_eq!(conversation_key, "k1");
        }
        _ => panic!("expected Accepted"),
    }
}

#[test]
fn disposition_rejected_carries_error_code() {
    let resp = AutonomousIngressResponse {
        disposition: "REJECTED".into(),
        task_id: None,
        workflow_run_id: None,
        binding_id: None,
        conversation_key: None,
        error_code: Some("AAP_AUTH_FAILURE".into()),
        detail: Some("bad token".into()),
        retryable: Some(false),
    };
    let d = project_response(resp, "fallback");
    match d {
        AutonomousRouteDisposition::Rejected {
            error_code,
            retryable,
            detail,
        } => {
            assert_eq!(error_code, "AAP_AUTH_FAILURE");
            assert!(!retryable);
            assert_eq!(detail.as_deref(), Some("bad token"));
        }
        _ => panic!("expected Rejected"),
    }
}

#[test]
fn disposition_unknown_string_fails_closed_as_rejected() {
    let resp = AutonomousIngressResponse {
        disposition: "WEIRD".into(),
        task_id: None,
        workflow_run_id: None,
        binding_id: None,
        conversation_key: None,
        error_code: None,
        detail: None,
        retryable: None,
    };
    let d = project_response(resp, "fallback");
    assert!(matches!(
        d,
        AutonomousRouteDisposition::Rejected { ref error_code, .. }
            if error_code.starts_with("AAP_UNKNOWN_DISPOSITION")
    ));
}

#[test]
fn transport_error_unreachable_is_retryable() {
    let e = AutonomousIngressError::Unreachable("dns".into());
    assert!(e.retryable());
    let d = project_error(e);
    match d {
        AutonomousRouteDisposition::Unavailable {
            error_code,
            retryable,
        } => {
            assert_eq!(error_code, "AAP_UNREACHABLE");
            assert!(retryable);
        }
        _ => panic!("expected Unavailable"),
    }
}

#[test]
fn transport_error_auth_missing_is_not_retryable() {
    let e = AutonomousIngressError::AuthMissing;
    assert!(!e.retryable());
    let d = project_error(e);
    match d {
        AutonomousRouteDisposition::Unavailable {
            error_code,
            retryable,
        } => {
            assert_eq!(error_code, "AAP_AUTH_MISSING");
            assert!(!retryable);
        }
        _ => panic!("expected Unavailable"),
    }
}

#[test]
fn http_5xx_is_retryable_4xx_is_not() {
    let err5 = AutonomousIngressError::Http {
        status: 503,
        body_snippet: "".into(),
    };
    let err4 = AutonomousIngressError::Http {
        status: 401,
        body_snippet: "".into(),
    };
    assert!(err5.retryable());
    assert!(!err4.retryable());
}

#[test]
fn production_config_wires_autonomous_ingress_into_builder() {
    let cfg = cfg_with_agents(&["ArthurClaude"], false);
    let client = build_production_client(&cfg, Some("round2-test-token-not-real".into())).unwrap();
    assert!(client.base_url.ends_with(":8000"));
    assert_eq!(client.timeout_seconds, 5);
    assert_eq!(client.credential, "round2-test-token-not-real");
    assert_eq!(client.url(), "http://127.0.0.1:8000/v1/integrations/openab/autonomous_ingress");
}

#[test]
fn autonomous_ingress_config_without_credential_fails_closed() {
    let cfg = cfg_with_agents(&["ArthurClaude"], false);
    assert_eq!(build_production_client(&cfg, None), Err(AutonomousIngressError::AuthMissing));
    assert_eq!(
        build_production_client(&cfg, Some(String::new())),
        Err(AutonomousIngressError::AuthMissing)
    );
}

fn reply(disposition: &str) -> AutonomousIngressResponse {
    AutonomousIngressResponse {
        disposition: disposition.into(),
        task_id: None,
        workflow_run_id: None,
        binding_id: None,
        conversation_key: None,
        error_code: None,
        detail: None,
        retryable: None,
    }
}

#[test]
fn responses_are_taken_only_with_a_good_status() {
    let cfg = cfg_with_agents(&["ArthurClaude"], false);
    let client = build_production_client(&cfg, Some("t".into())).unwrap();
    assert_eq!(client.submit(200, "{}", Ok(reply("ACCEPTED"))), Ok(reply("ACCEPTED")));
    assert_eq!(
        client.submit(299, "?", Err("eof".into())),
        Err(AutonomousIngressError::Malformed("decode response: eof".into()))
    );
    let long = "x".repeat(201);
    assert_eq!(
        client.submit(500, &long, Ok(reply("ACCEPTED"))),
        Err(AutonomousIngressError::Http { status: 500, body_snippet: "x".repeat(200) })
    );
}

#[test]
fn missing_fields_have_fallbacks() {
    match project_response(reply("ACCEPTED"), "fallback") {
        AutonomousRouteDisposition::Accepted { task_id, conversation_key, .. } => {
            assert_eq!(task_id, "");
            assert_eq!(conversation_key, "fallback");
        }
        _ => panic!("expected Accepted"),
    }
    match project_response(reply("WEIRD"), "fallback") {
        AutonomousRouteDisposition::Rejected { error_code, retryable, detail } => {
            assert_eq!(error_code, "AAP_UNKNOWN_DISPOSITION:WEIRD");
            assert!(!retryable);
            assert_eq!(detail, None);
        }
        _ => panic!("expected Rejected"),
    }
}

#[test]
fn errors_are_worded() {
    assert_eq!(AutonomousIngressError::Unreachable("dns".into()).message(), "AAP unreachable: dns");
    assert_eq!(AutonomousIngressError::Timeout.message(), "AAP timeout");
    assert_eq!(AutonomousIngressError::Timeout.code(), "AAP_TIMEOUT");
    assert!(AutonomousIngressError::Timeout.retryable());
    assert_eq!(AutonomousIngressError::AuthMissing.message(), "AAP auth credential missing");
    let http = AutonomousIngressError::Http { status: 401, body_snippet: "no".into() };
    assert_eq!(http.message(), "AAP HTTP 401: no");
    assert_eq!(http.code(), "AAP_HTTP_ERROR");
    let bad = AutonomousIngressError::Malformed("x".into());
    assert_eq!(bad.message(), "AAP response malformed: x");
    assert_eq!(bad.code(), "AAP_RESPONSE_MALFORMED");
    assert!(!bad.retryable());
}

fn text(name: &'static str, value: &str) -> LogField {
    LogField { name, value: LogValue::Text(value.into()) }
}

fn flag(name: &'static str, value: bool) -> LogField {
    LogField { name, value: LogValue::Flag(value) }
}

#[test]
fn log_lines_tell_what_became_of_a_turn() {
    let channel = ChannelRef {
        platform: "discord".into(),
        channel_id: "c1".into(),
        thread_id: None,
        parent_id: None,
        origin_event_id: None,
    };
    let candidate = build_candidate("ArthurClaude", &channel, "m1");
    assert_eq!(candidate.conversation_key, "discord:c1");
    let line = log_candidate(&candidate);
    assert_eq!(line[0], text("event", "autonomous workflow candidate"));
    assert_eq!(line[2], text("agent", "ArthurClaude"));
    assert_eq!(line.len(), 6);
    let refused = AutonomousRouteDisposition::Rejected {
        error_code: "E".into(),
        retryable: true,
        detail: None,
    };
    assert_eq!(log_accepted(&candidate, &refused), None);
    assert_eq!(
        log_failure(&candidate, &refused),
        Some(vec![
            text("event", "autonomous workflow ingress failed"),
            text("source", "discord"),
            text("agent", "ArthurClaude"),
            text("error_code", "E"),
            flag("retryable", true),
            flag("consumed", true),
            text("detail", ""),
        ])
    );
    let taken = project_response(reply("ACCEPTED"), "k");
    assert_eq!(log_failure(&candidate, &taken), None);
    let accepted = log_accepted(&candidate, &taken).unwrap();
    assert_eq!(accepted[6], text("conversation_key", "k"));
    assert_eq!(accepted[8], flag("consumed", true));
}

#[test]
fn production_builder_does_not_mutate_native_dispatch_contract() {
    let cfg = cfg_with_agents(&["ArthurClaude"], false);
    let token = Some("round2-test-token-not-real".to_string());
    assert!(build_production_client(&cfg, token).is_ok());
    let _: fn(
        &AutonomousIngressConfig,
        Option<String>,
    ) -> Result<HttpAutonomousIngressClient, AutonomousIngressError> = build_production_client;
}
