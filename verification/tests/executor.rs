//! The serving side of delegations.

use openab_core::control_plane::executor::cap_result;
use openab_core::control_plane::executor::conclude;
use openab_core::control_plane::executor::delegation_channel;
use openab_core::control_plane::executor::delegation_context_json;
use openab_core::control_plane::executor::delegation_session_key;
use openab_core::control_plane::executor::discard_after_cancel;
use openab_core::control_plane::executor::failed;
use openab_core::control_plane::executor::render_delegation_context;
use openab_core::control_plane::executor::DelegationExecutor;
use openab_core::control_plane::executor::PromptOutcome;
use openab_core::control_plane::executor::RunEvent;
use openab_core::control_plane::executor::ServeStep;
use openab_core::control_plane::executor::SinkAdapter;
use openab_core::control_plane::executor::Teardown;
use openab_core::control_plane::executor::MAX_ERROR_BYTES;
use openab_core::control_plane::executor::MAX_RESULT_BYTES;
use openab_core::control_plane::executor::TEARDOWN_BOUND_MS;
use openab_core::json::json_escaped_len;
use openab_core::proto::DelegateForward;
use openab_core::proto::DelegateResultParams;
use openab_core::proto::DelegationStatus;
use openab_core::proto::Timestamp;

const NOW: Timestamp = Timestamp { secs: 1_800_000_000, nanos: 250_000_000 };

fn forward(id: &str, secs: i64) -> DelegateForward {
    DelegateForward {
        delegation_id: id.into(),
        admission: 1,
        prompt: "do the thing".into(),
        deadline: Timestamp { secs: NOW.secs + secs, nanos: NOW.nanos },
        from: "prod/koudu".into(),
        chain: vec!["prod/koudu".into()],
    }
}

fn executor(max: u32) -> DelegationExecutor {
    DelegationExecutor::new("i-test".to_string(), max, 600_000_000_000)
}

fn answer(step: ServeStep) -> DelegateResultParams {
    match step {
        ServeStep::Answer(a) => a,
        ServeStep::Run { .. } => panic!("must not run"),
    }
}

/// The session under which a delegation runs.
fn running(step: ServeStep) -> String {
    match step {
        ServeStep::Run { session_key, .. } => session_key,
        ServeStep::Answer(_) => panic!("must run"),
    }
}

/// The sessions that a teardown cancels, and those that it discards.
fn torn_down(teardown: &Teardown, key: &str) -> (Vec<String>, Vec<String>) {
    match teardown {
        Teardown::CancelThenDiscard => (vec![key.to_string()], vec![key.to_string()]),
        Teardown::Discard | Teardown::DiscardInBackground => (vec![], vec![key.to_string()]),
    }
}

fn outcome(text: &str, error: Option<&str>, silent_failure: bool) -> RunEvent {
    RunEvent::Finished(PromptOutcome {
        text: text.into(),
        error: error.map(|e| e.to_string()),
        silent_failure,
    })
}

#[test]
fn success_maps_to_completed_and_discards_the_session() {
    let mut ex = executor(1);
    let fwd = forward("d-1", 60);
    match ex.serve(&fwd, NOW) {
        ServeStep::Run { session_key, budget_nanos } => {
            assert_eq!(session_key, delegation_session_key("i-test", "d-1", 1));
            assert_eq!(budget_nanos, 60_000_000_000);
        }
        ServeStep::Answer(_) => panic!("must run"),
    }
    assert_eq!(ex.active(), 1);
    let done = conclude(&fwd, outcome("here you go", None, false));
    assert_eq!(done.result.status, DelegationStatus::Completed);
    assert_eq!(done.result.result.as_deref(), Some("here you go"));
    assert!(done.result.error.is_none());
    assert_eq!(done.teardown, Teardown::DiscardInBackground);
    ex.release("d-1");
    assert_eq!(ex.active(), 0);
}

#[test]
fn a_prompt_never_runs_beyond_the_hard_ceiling() {
    let mut ex = executor(1);
    match ex.serve(&forward("d-1", 6000), NOW) {
        ServeStep::Run { budget_nanos, .. } => assert_eq!(budget_nanos, 600_000_000_000),
        ServeStep::Answer(_) => panic!("must run"),
    }
    let mut brief = DelegationExecutor::new("i-test".to_string(), 1, 1_500);
    match brief.serve(&forward("d-1", 60), NOW) {
        ServeStep::Run { budget_nanos, .. } => assert_eq!(budget_nanos, 1_500),
        ServeStep::Answer(_) => panic!("must run"),
    }
}

#[test]
fn over_capacity_is_refused_without_executing() {
    let mut ex = executor(1);
    assert!(ex.reserve("d-held", 1).is_ok());
    let res = answer(ex.serve(&forward("d-2", 60), NOW));
    assert_eq!(res.status, DelegationStatus::Failed);
    assert!(res.error.unwrap().contains("local delegation capacity"));
    assert_eq!(ex.active(), 1);
}

#[test]
fn duplicate_delegation_id_is_refused_without_executing() {
    let mut ex = executor(4);
    assert!(ex.reserve("d-3", 1).is_ok());
    let res = answer(ex.serve(&forward("d-3", 60), NOW));
    assert_eq!(res.status, DelegationStatus::Failed);
    assert!(res.error.unwrap().contains("already in flight"));
}

#[test]
fn effective_max_from_the_ack_is_what_bounds_admission() {
    let mut ex = executor(4);
    ex.set_effective_max(1);
    assert_eq!(ex.effective_max(), 1);
    assert!(ex.reserve("d-a", 1).is_ok());
    let res = answer(ex.serve(&forward("d-b", 60), NOW));
    assert_eq!(res.status, DelegationStatus::Failed);
    assert!(res.error.unwrap().contains("(1/1)"));
}

#[test]
fn agent_error_maps_to_failed() {
    let mut ex = executor(1);
    let fwd = forward("d-4", 60);
    let key = running(ex.serve(&fwd, NOW));
    assert_eq!(key, delegation_session_key("i-test", "d-4", 1));
    let c = conclude(&fwd, outcome("", Some("provider returned HTTP 500"), false));
    assert_eq!(c.result.status, DelegationStatus::Failed);
    assert_eq!(c.result.error.as_deref(), Some("provider returned HTTP 500"));
    assert_eq!(torn_down(&c.teardown, &key), (vec![], vec![key.clone()]));
    ex.release("d-4");
    assert_eq!(ex.active(), 0);
}

#[test]
fn silent_failure_maps_to_failed_not_completed() {
    let c = conclude(&forward("d-5", 60), outcome("", None, true));
    assert_eq!(c.result.status, DelegationStatus::Failed);
    assert!(c.result.error.unwrap().contains("empty turn"));
}

#[test]
fn broker_error_maps_to_failed() {
    let mut ex = executor(1);
    let fwd = forward("d-6", 60);
    let key = running(ex.serve(&fwd, NOW));
    let c = conclude(&fwd, RunEvent::Broken("no connection for session".into()));
    assert_eq!(c.result.status, DelegationStatus::Failed);
    assert!(c.result.error.unwrap().contains("no connection"));
    assert_eq!(c.teardown, Teardown::Discard);
    assert_eq!(torn_down(&c.teardown, &key).1.len(), 1);
    ex.release("d-6");
    assert_eq!(ex.active(), 0);
}

#[test]
fn a_past_deadline_times_out_without_executing() {
    let mut ex = executor(1);
    let res = answer(ex.serve(&forward("d-7", -1), NOW));
    assert_eq!(res.status, DelegationStatus::Timeout);
    assert_eq!(ex.active(), 0);
}

#[test]
fn the_local_deadline_times_out_and_cleans_the_session_up() {
    let mut ex = executor(1);
    let fwd = forward("d-8", 5);
    let served = running(ex.serve(&fwd, NOW));
    assert_eq!(ex.active(), 1);
    let c = conclude(&fwd, RunEvent::Elapsed);
    assert_eq!(c.result.status, DelegationStatus::Timeout);
    assert_eq!(c.teardown, Teardown::CancelThenDiscard);
    let key = delegation_session_key("i-test", "d-8", 1);
    let (cancelled, discarded) = torn_down(&c.teardown, &served);
    assert_eq!(cancelled, vec![key.clone()]);
    assert_eq!(discarded, vec![key]);
    ex.release("d-8");
    assert_eq!(ex.active(), 0);
}

#[test]
fn cancel_mid_flight_maps_to_cancelled_and_drops_the_session() {
    let mut ex = executor(1);
    let fwd = forward("d-9", 600);
    let served = running(ex.serve(&fwd, NOW));
    assert!(ex.cancel("d-9", 1));
    let c = conclude(&fwd, RunEvent::Cancelled);
    assert_eq!(c.result.status, DelegationStatus::Cancelled);
    assert!(c.result.result.is_none());
    assert_eq!(c.teardown, Teardown::CancelThenDiscard);
    let key = delegation_session_key("i-test", "d-9", 1);
    let (cancelled, discarded) = torn_down(&c.teardown, &served);
    assert_eq!(cancelled, vec![key.clone()]);
    assert_eq!(discarded, vec![key]);
    ex.release("d-9");
    assert_eq!(ex.active(), 0);
}

#[test]
fn cancel_all_ends_every_in_flight_delegation() {
    let mut ex = executor(4);
    let mut keys = vec![];
    for id in ["d-x", "d-y"] {
        keys.push(running(ex.serve(&forward(id, 600), NOW)));
    }
    assert_eq!(ex.active(), 2);
    let signalled = ex.cancel_all();
    assert_eq!(signalled, vec!["d-x".to_string(), "d-y".to_string()]);
    let mut all_discarded = vec![];
    for (i, id) in signalled.iter().enumerate() {
        let c = conclude(&forward(id, 600), RunEvent::Cancelled);
        assert_eq!(c.result.status, DelegationStatus::Cancelled);
        assert_eq!(keys[i], delegation_session_key("i-test", id, 1));
        let (cancelled, discarded) = torn_down(&c.teardown, &keys[i]);
        assert_eq!(cancelled, vec![keys[i].clone()]);
        all_discarded.extend(discarded);
        ex.release(id);
    }
    assert_eq!(ex.active(), 0);
    assert_eq!(all_discarded, keys);
}

#[test]
fn an_aborted_serving_task_still_frees_its_slot() {
    let mut ex = executor(1);
    running(ex.serve(&forward("d-abort", 600), NOW));
    assert_eq!(ex.active(), 1);
    ex.release("d-abort");
    assert_eq!(ex.active(), 0);
    let after = forward("d-after", 600);
    running(ex.serve(&after, NOW));
    let c = conclude(&after, outcome("ok", None, false));
    assert_eq!(c.result.status, DelegationStatus::Completed);
}

#[test]
fn cancel_of_an_unknown_id_is_a_no_op() {
    let ex = executor(1);
    assert!(!ex.cancel("never-seen", 1));
}

#[test]
fn a_stale_cancel_does_not_abort_a_reserving_admission() {
    let mut ex = executor(1);
    let mut fwd = forward("d-1", 600);
    fwd.admission = 42;
    assert!(matches!(ex.serve(&fwd, NOW), ServeStep::Run { .. }));
    assert!(!ex.cancel("d-1", 7));
    assert_eq!(ex.active(), 1);
    assert!(ex.cancel("d-1", 42));
    assert_eq!(conclude(&fwd, RunEvent::Cancelled).result.admission, 42);
}

#[test]
fn session_keys_are_namespaced_bounded_and_instance_scoped() {
    let a = delegation_session_key("i-1", "d-1", 1);
    let b = delegation_session_key("i-2", "d-1", 1);
    assert!(a.starts_with("control-plane:"));
    assert_ne!(a, b);
    assert_eq!(a.len(), "control-plane:".len() + 64);
    let c = delegation_session_key("i-1", "d-1", 2);
    assert_ne!(a, c);
    let hostile = delegation_session_key("i-1", "discord:12345", 1);
    assert!(hostile.starts_with("control-plane:"));
    assert_eq!(hostile.len(), a.len());
}

#[test]
fn session_keys_tell_where_one_id_ends() {
    let split = |i: &str, d: &str| delegation_session_key(i, d, 1);
    assert_ne!(split("i-1", "2d"), split("i-12", "d"));
    assert_ne!(split("i-1", ""), split("", "i-1"));
    assert_ne!(split("i-1", "d-1"), split("i-1", "d-2"));
    assert_eq!(
        split("i-1", "d-1"),
        "control-plane:ac343e8f55b2ddb67c2047a2bede8b3c639303b009562207909e07e37bd19800"
    );
}

#[test]
fn the_delegation_context_block_carries_the_cp_stamped_provenance() {
    let text = delegation_context_json(&forward("d-10", 30)).unwrap();
    let v: serde_json::Value = serde_json::from_str(&text).unwrap();
    assert_eq!(v["schema"], "openab.delegation.v1");
    assert_eq!(v["delegation_id"], "d-10");
    assert_eq!(v["from"], "prod/koudu");
    assert_eq!(v["chain"][0], "prod/koudu");
    assert!(v["deadline"].as_str().unwrap().contains('T'));
    assert!(v["deadline"].as_str().unwrap().starts_with("2027-01-15T08:00:30.250"));
}

#[test]
fn the_delegation_context_block_reads_exactly() {
    let mut fwd = forward("d \"q\"", 30);
    fwd.chain = vec!["a".into(), "b\\c".into()];
    let text = render_delegation_context(&fwd, "then");
    let v: serde_json::Value = serde_json::from_str(&text).unwrap();
    assert_eq!(v["delegation_id"], "d \"q\"");
    assert_eq!(v["chain"][1], "b\\c");
    assert_eq!(v["deadline"], "then");
    assert_eq!(v.as_object().unwrap().len(), 5);
}

#[test]
fn a_deadline_beyond_the_calendar_has_no_context() {
    let mut fwd = forward("d-11", 0);
    fwd.deadline = Timestamp { secs: i64::MAX, nanos: 0 };
    assert_eq!(delegation_context_json(&fwd), None);
}

#[test]
fn the_sink_adapter_never_streams() {
    assert!(!SinkAdapter.use_streaming(false));
    assert!(!SinkAdapter.use_streaming(true));
    assert!(!SinkAdapter.uses_native_streaming(false));
    assert!(!SinkAdapter.uses_assistant_status());
    assert_eq!(SinkAdapter.platform(), "control-plane");
    assert_eq!(SinkAdapter.message_limit(), usize::MAX);
}

#[test]
fn oversized_results_are_capped_below_the_transport_limit() {
    let big = "x".repeat(2 * 1024 * 1024);
    let capped = cap_result(big);
    assert!(capped.len() <= MAX_RESULT_BYTES);
    assert!(capped.ends_with("bytes total exceeded the transport budget]"));

    let emoji = "\u{1F980}".repeat(MAX_RESULT_BYTES / 4 + 64);
    let capped = cap_result(emoji);
    assert!(capped.len() <= MAX_RESULT_BYTES);
    assert!(std::str::from_utf8(capped.as_bytes()).is_ok());

    assert_eq!(cap_result("small".into()), "small");
}

#[test]
fn oversized_errors_are_capped_below_the_transport_limit() {
    let big = "e".repeat(2 * 1024 * 1024);
    let res = failed("d-err", 7, big);
    let err = res.error.expect("failed() always carries an error");
    assert!(err.len() <= MAX_ERROR_BYTES);
    assert!(err.ends_with("bytes total exceeded the transport budget]"));
    assert_eq!(res.admission, 7);
    assert_eq!(res.status, DelegationStatus::Failed);

    let emoji = "\u{1F980}".repeat(MAX_ERROR_BYTES / 4 + 64);
    let res = failed("d-err", 7, emoji);
    let err = res.error.expect("failed() always carries an error");
    assert!(err.len() <= MAX_ERROR_BYTES);
    assert!(std::str::from_utf8(err.as_bytes()).is_ok());

    let res = failed("d-err", 7, "short".to_string());
    assert_eq!(res.error.as_deref(), Some("short"));
}

#[test]
fn json_escaped_len_matches_serde_json() {
    let test_cases = vec![
        "",
        "hello world",
        "escapes: \x08 \t \n \x0c \r",
        "control: \x00 \x1b \x1f",
        "quotes and slashes: \" \\ \"",
        "multibyte: 🦀 日本語 \u{1F980}",
    ];
    for case in test_cases {
        let expected = serde_json::to_string(case).unwrap().len() - 2;
        assert_eq!(json_escaped_len(case), expected);
    }
}

#[test]
fn escape_heavy_results_cannot_inflate_past_the_transport_budget() {
    let escapes = "\x1b".repeat(500 * 1024);
    let capped = cap_result(escapes);
    let serialized = serde_json::to_string(&capped).unwrap();
    assert!(serialized.len() <= MAX_RESULT_BYTES + 2);
    assert!(capped.ends_with("bytes total exceeded the transport budget]"));

    let slashes = "\\\"".repeat(300 * 1024);
    let capped_slashes = cap_result(slashes);
    let serialized_slashes = serde_json::to_string(&capped_slashes).unwrap();
    assert!(serialized_slashes.len() <= MAX_RESULT_BYTES + 2);
}

#[test]
fn stalled_cancel_and_stalled_discard_share_one_teardown_bound() {
    assert_eq!(discard_after_cancel(TEARDOWN_BOUND_MS), None);
    assert_eq!(discard_after_cancel(10_000), None);
    assert_eq!(discard_after_cancel(1_500), Some(3_500));
}

#[test]
fn a_delegated_turn_has_a_channel_of_its_own() {
    let channel = delegation_channel(&forward("d-7", 30));
    assert_eq!(channel.platform, "control-plane");
    assert_eq!(channel.channel_id, "d-7");
    assert_eq!(channel.thread_id, None);
    assert_eq!(channel.session_pool_key(), "control-plane:d-7");
}
