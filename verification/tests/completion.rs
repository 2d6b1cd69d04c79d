//! Reports on the ends of turns.

use openab_core::acp::TurnResult;
use openab_core::completion_bridge::is_terminal_stop_reason;
use openab_core::completion_bridge::AttemptOutcome;
use openab_core::completion_bridge::BridgeAction;
use openab_core::completion_bridge::CompletionBridge;
use openab_core::completion_bridge::CompletionBridgeConfig;
use openab_core::completion_bridge::CompletionOutcome;

fn config(enabled: bool, url: &str) -> CompletionBridgeConfig {
    let mut c = CompletionBridgeConfig::default();
    c.enabled = enabled;
    c.url = url.to_string();
    c
}

#[test]
fn fire_returns_success_when_disabled() {
    let bridge = CompletionBridge::new(config(false, ""));
    assert_eq!(bridge.fire(), BridgeAction::Done(CompletionOutcome::Success));
    assert!(!bridge.enabled());
}

#[test]
fn fire_returns_success_when_url_empty() {
    let bridge = CompletionBridge::new(config(true, ""));
    assert_eq!(bridge.fire(), BridgeAction::Done(CompletionOutcome::Success));
}

fn stopped(reason: Option<&str>) -> TurnResult {
    TurnResult { stop_reason: reason.map(|r| r.to_string()) }
}

#[test]
fn is_terminal_end_turn() {
    assert!(is_terminal_stop_reason(&stopped(Some("end_turn"))));
}

#[test]
fn is_terminal_max_tokens() {
    assert!(!is_terminal_stop_reason(&stopped(Some("max_tokens"))));
}

#[test]
fn is_terminal_refusal() {
    assert!(!is_terminal_stop_reason(&stopped(Some("refusal"))));
}

#[test]
fn is_terminal_error() {
    assert!(!is_terminal_stop_reason(&stopped(Some("error"))));
}

#[test]
fn is_not_terminal_intermediate() {
    assert!(!is_terminal_stop_reason(&stopped(None)));
}

#[test]
fn attempts_back_off_and_give_up() {
    let mut bridge = CompletionBridge::new(config(true, "http://aap"));
    assert_eq!(bridge.fire(), BridgeAction::Post { authenticated: false });
    bridge.config.bearer_token = "t".to_string();
    assert_eq!(bridge.fire(), BridgeAction::Post { authenticated: true });
    assert_eq!(bridge.on_attempt(0, AttemptOutcome::TransportError), BridgeAction::Sleep { ms: 250 });
    assert_eq!(bridge.on_attempt(1, AttemptOutcome::Status(503)), BridgeAction::Sleep { ms: 500 });
    assert_eq!(bridge.on_attempt(2, AttemptOutcome::Status(302)), BridgeAction::Sleep { ms: 1000 });
    assert_eq!(
        bridge.on_attempt(3, AttemptOutcome::Status(500)),
        BridgeAction::Done(CompletionOutcome::Failed)
    );
    assert_eq!(
        bridge.on_attempt(0, AttemptOutcome::Status(409)),
        BridgeAction::Done(CompletionOutcome::Rejected)
    );
    assert_eq!(
        bridge.on_attempt(3, AttemptOutcome::Status(204)),
        BridgeAction::Done(CompletionOutcome::Success)
    );
}

#[test]
fn a_request_always_gets_some_time() {
    let mut bridge = CompletionBridge::new(config(true, "http://aap"));
    assert_eq!(bridge.request_timeout_ms(), 5000);
    bridge.config.timeout_ms = 0;
    assert_eq!(bridge.request_timeout_ms(), 1);
}
