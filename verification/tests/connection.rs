//! One connection to an agent: environment, messages, requests, activity.

use openab_core::acp::connection::baseline_environment;
use openab_core::acp::connection::build_agent_env;
use openab_core::acp::connection::child_group;
use openab_core::acp::connection::connection_closed;
use openab_core::acp::connection::expand_env;
use openab_core::acp::connection::group_to_kill;
use openab_core::acp::connection::on_close;
use openab_core::acp::connection::on_message;
use openab_core::acp::connection::referenced_name;
use openab_core::acp::connection::request_timeout_secs;
use openab_core::acp::connection::sanitize_stderr;
use openab_core::acp::connection::settle;
use openab_core::acp::connection::spawn_environment;
use openab_core::acp::connection::usage_report;
use openab_core::acp::connection::AcpConnection;
use openab_core::acp::connection::ConfigEvent;
use openab_core::acp::connection::ConfigStep;
use openab_core::acp::connection::ContentBlock;
use openab_core::acp::connection::Platform;
use openab_core::acp::connection::ReaderStep;
use openab_core::acp::connection::RequestError;
use openab_core::acp::connection::ResponseEvent;
use openab_core::acp::connection::SessionActivity;
use openab_core::acp::connection::WritePolicyGuard;
use openab_core::acp::protocol::config_options_of;
use openab_core::acp::protocol::ConfigOption;
use openab_core::acp::protocol::ConfigOptionValue;
use openab_core::acp::protocol::JsonRpcError;
use openab_core::acp::protocol::JsonRpcMessage;
use openab_core::acp::stub_agent::line_answers;
use openab_core::acp::stub_agent::stub_replies;
use openab_core::json::parse_json;
use openab_core::table::Table;
use openab_core::value::Json;

fn table(entries: &[(&str, &str)]) -> Table<String, String> {
    let mut t = Table::new();
    for (k, v) in entries {
        t.insert(k.to_string(), v.to_string());
    }
    t
}

fn value<'a>(t: &'a Table<String, String>, key: &str) -> Option<&'a str> {
    t.get(&key.to_string()).map(|v| v.as_str())
}

#[test]
fn explicit_env_takes_precedence_over_inherit_env() {
    let key = "OAB_TEST_PRECEDENCE";
    let process = table(&[(key, "from_process")]);
    let explicit = table(&[(key, "from_config")]);
    let inherit = vec![key.to_string()];

    let (result, inherited) = build_agent_env(&explicit, &inherit, &process);

    assert_eq!(value(&result, key), Some("from_config"));
    assert!(!inherited.contains(&key.to_string()));
}

#[test]
fn inherit_env_copies_from_process() {
    let key = "OAB_TEST_INHERIT";
    let process = table(&[(key, "process_value")]);
    let explicit = table(&[]);
    let inherit = vec![key.to_string()];

    let (result, inherited) = build_agent_env(&explicit, &inherit, &process);

    assert_eq!(value(&result, key), Some("process_value"));
    assert!(inherited.contains(&key.to_string()));
}

#[test]
fn inherit_env_skips_missing_vars() {
    let explicit = table(&[]);
    let inherit = vec!["OAB_TEST_NONEXISTENT_VAR_12345".to_string()];

    let (result, inherited) = build_agent_env(&explicit, &inherit, &table(&[]));

    assert_eq!(value(&result, "OAB_TEST_NONEXISTENT_VAR_12345"), None);
    assert!(inherited.is_empty());
}

#[test]
fn references_are_expanded_and_other_values_are_not() {
    let process = table(&[("TOKEN", "s3"), ("EMPTY", "")]);
    assert_eq!(expand_env("${TOKEN}", &process), "s3");
    assert_eq!(expand_env("${EMPTY}", &process), "");
    assert_eq!(expand_env("${MISSING}", &process), "");
    assert_eq!(expand_env("x${TOKEN}", &process), "x${TOKEN}");
    assert_eq!(expand_env("${TOKEN", &process), "${TOKEN");
    assert_eq!(expand_env("${}", &process), "");
    assert_eq!(expand_env("", &process), "");
}

#[test]
fn the_environment_of_an_agent_holds_nothing_that_was_not_named() {
    let process = table(&[
        ("HOME", "/home/me"),
        ("DISCORD_BOT_TOKEN", "secret"),
        ("PROXY", "p"),
        ("REF", "r"),
    ]);
    let explicit = table(&[("A", "${REF}"), ("USER", "robot")]);
    let inherit = vec!["PROXY".to_string(), "PROXY".to_string(), "A".to_string()];
    let env = spawn_environment(Platform::Unix, &explicit, &inherit, &process, "/work");
    assert_eq!(value(&env, "HOME"), Some("/home/me"));
    assert_eq!(value(&env, "PATH"), Some("/usr/local/bin:/usr/bin:/bin"));
    assert_eq!(value(&env, "USER"), Some("robot"));
    assert_eq!(value(&env, "A"), Some("r"));
    assert_eq!(value(&env, "PROXY"), Some("p"));
    assert_eq!(value(&env, "DISCORD_BOT_TOKEN"), None);
    assert_eq!(env.len(), 5);
    let bare = spawn_environment(Platform::Unix, &table(&[]), &vec![], &table(&[]), "/work");
    assert_eq!(value(&bare, "HOME"), Some("/work"));
    assert_eq!(value(&bare, "USER"), Some("agent"));
    assert_eq!(bare.len(), 3);
}

#[test]
fn every_platform_has_a_baseline_of_its_own() {
    let process = table(&[
        ("USER", "unix-me"),
        ("USERNAME", "me"),
        ("SystemRoot", "C:\\Windows"),
        ("TEMP", "secret"),
    ]);
    let explicit = table(&[("SystemDrive", "D:")]);
    let env = spawn_environment(Platform::Windows, &explicit, &vec![], &process, "C:\\work");
    assert_eq!(value(&env, "HOME"), Some("C:\\work"));
    assert_eq!(value(&env, "PATH"), Some("/usr/local/bin:/usr/bin:/bin"));
    assert_eq!(value(&env, "USERPROFILE"), Some("C:\\work"));
    assert_eq!(value(&env, "USERNAME"), Some("me"));
    assert_eq!(value(&env, "SystemRoot"), Some("C:\\Windows"));
    assert_eq!(value(&env, "SystemDrive"), Some("D:"));
    assert_eq!(value(&env, "USER"), None);
    assert_eq!(env.len(), 6);
    let bare = baseline_environment(Platform::Windows, &table(&[]), "C:\\work");
    assert_eq!(value(&bare, "USERNAME"), Some("agent"));
    assert_eq!(value(&bare, "SystemRoot"), None);
    assert_eq!(bare.len(), 4);
    let other = baseline_environment(Platform::Other, &process, "/work");
    assert_eq!(value(&other, "HOME"), Some("/work"));
    assert_eq!(value(&other, "USER"), None);
    assert_eq!(other.len(), 2);
}

#[test]
fn references_name_their_variable() {
    assert_eq!(referenced_name("${TOKEN}"), Some("TOKEN".to_string()));
    assert_eq!(referenced_name("${}"), Some(String::new()));
    assert_eq!(referenced_name("x${TOKEN}"), None);
    assert_eq!(referenced_name("${TOKEN"), None);
}

#[test]
fn groups_are_signalled_only_when_they_name_one() {
    assert_eq!(child_group(Some(17)), Some(17));
    assert_eq!(child_group(Some(u32::MAX)), None);
    assert_eq!(child_group(None), None);
    assert_eq!(group_to_kill(Some(17)), Some(17));
    assert_eq!(group_to_kill(Some(0)), None);
    assert_eq!(group_to_kill(Some(-4)), None);
    assert_eq!(group_to_kill(None), None);
}

#[test]
fn error_output_is_stripped_of_control_characters() {
    assert_eq!(sanitize_stderr("  \u{1b}[31mbad\tthing\u{7}\r\n"), Some("[31mbad\tthing".to_string()));
    assert_eq!(sanitize_stderr("   \n"), None);
    assert_eq!(sanitize_stderr("\u{1}\u{2}"), None);
}

fn response(id: Option<u64>, method: Option<&str>, params: Option<Json>) -> JsonRpcMessage {
    JsonRpcMessage {
        id,
        method: method.map(|m| m.to_string()),
        result: None,
        error: None,
        params,
    }
}

#[test]
fn stale_id_response_is_forwarded_without_pending_entry() {
    let mut pending: Table<u64, u64> = Table::new();
    let step = on_message(&response(Some(42), None, None), &mut pending, None);
    assert!(matches!(step, ReaderStep::Forward));
    assert_eq!(pending.len(), 0);
}

#[test]
fn matched_id_response_resolves_pending_and_forwards() {
    let mut pending: Table<u64, u64> = Table::new();
    pending.insert(7, 70);
    pending.insert(8, 80);
    let mut m = response(Some(7), Some("odd"), Some(Json::object()));
    m.result = Some(Json::text("done"));
    match on_message(&m, &mut pending, None) {
        ReaderStep::Resolve { ticket, completion } => {
            assert_eq!(ticket, 70);
            assert_eq!(completion.id, Some(7));
            assert_eq!(completion.method, None);
            assert_eq!(completion.params, None);
            assert_eq!(completion.result, Some(Json::text("done")));
        }
        _ => panic!("must be resolved"),
    }
    assert_eq!(pending.len(), 1);
    assert!(pending.contains(&8));
}

#[test]
fn notifications_are_forwarded() {
    let mut pending: Table<u64, u64> = Table::new();
    pending.insert(1, 10);
    let step = on_message(&response(None, Some("session/update"), None), &mut pending, None);
    assert!(matches!(step, ReaderStep::Forward));
    assert_eq!(pending.len(), 1);
}

fn permission_request(id: Option<u64>, params: &str) -> JsonRpcMessage {
    response(id, Some("session/request_permission"), parse_json(params))
}

fn tool_params(title: &str) -> String {
    format!(
        "{{\"toolCall\":{{\"title\":\"{title}\"}},\"options\":[{{\"kind\":\"allow_always\",\"optionId\":\"always\"}}]}}"
    )
}

const DECORATED_WRITE: &str = "{\"toolCall\":{\"title\":\"Write .phase641f-round3-probe\",\"kind\":\"edit\",\"rawInput\":{\"file_path\":\"/home/arthur/workspace/ai-workstation/.phase641f-round3-probe\",\"content\":\"probe\"}},\"options\":[{\"kind\":\"allow_always\",\"optionId\":\"always\"}]}";

fn guard(policy: &str) -> WritePolicyGuard {
    let mut guard = WritePolicyGuard::new();
    guard.set(policy);
    guard
}

/// What a permission request is answered, while somebody waits for a response
/// of the same id.
fn permission_outcome(guard: Option<&WritePolicyGuard>, params: &str) -> Json {
    let mut pending: Table<u64, u64> = Table::new();
    pending.insert(1, 50);
    let step = on_message(&permission_request(Some(1), params), &mut pending, guard);
    assert_eq!(pending.len(), 1);
    match step {
        ReaderStep::Reply { id, outcome } => {
            assert_eq!(id, 1);
            outcome
        }
        _ => panic!("expected a reply"),
    }
}

fn cancelled_outcome() -> Json {
    Json::object().with("outcome", Json::object().with("outcome", Json::text("cancelled")))
}

fn always_outcome() -> Json {
    Json::object().with(
        "outcome",
        Json::object()
            .with("outcome", Json::text("selected"))
            .with("optionId", Json::text("always")),
    )
}

#[test]
fn post_spawn_policy_update_is_visible_to_reader_loop() {
    let mut guard = WritePolicyGuard::new();
    let before = permission_outcome(Some(&guard), &tool_params("Write"));
    assert_eq!(before.get("outcome").unwrap().get_str("outcome"), Some("selected"));
    guard.set("READ_ONLY");
    let after = permission_outcome(Some(&guard), &tool_params("Write"));
    assert_eq!(after.get("outcome").unwrap().get_str("outcome"), Some("cancelled"));
}

#[test]
fn read_only_guard_cancels_write_request() {
    let outcome = permission_outcome(Some(&guard("READ_ONLY")), &tool_params("Write"));
    assert_eq!(outcome, cancelled_outcome());
}

#[test]
fn read_only_guard_cancels_edit_request() {
    let outcome = permission_outcome(Some(&guard("READ_ONLY")), &tool_params("Edit"));
    assert_eq!(outcome, cancelled_outcome());
}

#[test]
fn modify_allowed_guard_preserves_legacy_behaviour() {
    let outcome = permission_outcome(Some(&guard("MODIFY_ALLOWED")), &tool_params("Write"));
    assert_eq!(outcome, always_outcome());
}

#[test]
fn unset_guard_preserves_pre_6_4_1f_behaviour() {
    assert_eq!(permission_outcome(None, &tool_params("Write")), always_outcome());
}

#[test]
fn fresh_session_guard_is_isolated() {
    let mut guard_a = WritePolicyGuard::new();
    let guard_b = WritePolicyGuard::new();
    guard_a.set("READ_ONLY");
    assert!(guard_a.is_read_only());
    assert!(!guard_b.is_read_only());
}

#[test]
fn production_security_criterion_read_only_write_is_cancelled() {
    let mut guard = WritePolicyGuard::new();
    guard.set("READ_ONLY");
    assert_eq!(permission_outcome(Some(&guard), &tool_params("Write")), cancelled_outcome());
}

#[test]
fn reader_loop_cancels_exact_production_payload() {
    assert_eq!(permission_outcome(Some(&guard("READ_ONLY")), DECORATED_WRITE), cancelled_outcome());
}

#[test]
fn reader_loop_preserves_legacy_for_production_payload_when_unset() {
    assert_eq!(permission_outcome(None, DECORATED_WRITE), always_outcome());
}

#[test]
fn reader_loop_preserves_legacy_for_production_payload_when_modify_allowed() {
    assert_eq!(permission_outcome(Some(&guard("MODIFY_ALLOWED")), DECORATED_WRITE), always_outcome());
}

#[test]
fn a_permission_request_without_an_id_is_skipped() {
    let mut pending: Table<u64, u64> = Table::new();
    assert!(matches!(on_message(&permission_request(None, &tool_params("Write")), &mut pending, None), ReaderStep::Skip));
}

#[test]
fn closing_resolves_everyone_who_waits() {
    let mut pending: Table<u64, u64> = Table::new();
    pending.insert(3, 30);
    pending.insert(1, 10);
    assert_eq!(on_close(&mut pending), vec![30, 10]);
    assert_eq!(pending.len(), 0);
    let m = connection_closed();
    assert_eq!(m.error, Some(JsonRpcError { code: -1, message: "connection closed".to_string(), data: None }));
    assert_eq!(m.id, None);
}

#[test]
fn requests_settle_by_how_the_wait_ended() {
    assert_eq!(
        settle("session/new", ResponseEvent::TimedOut),
        Err(RequestError::NoResponse("timeout waiting for session/new response".to_string()))
    );
    assert_eq!(
        settle("initialize", ResponseEvent::Closed),
        Err(RequestError::NoResponse("channel closed waiting for initialize".to_string()))
    );
    let ok = response(Some(1), None, None);
    assert_eq!(settle("x", ResponseEvent::Reply(ok)).unwrap().id, Some(1));
    let mut bad = response(Some(1), None, None);
    bad.error = Some(JsonRpcError { code: -32000, message: "no".to_string(), data: None });
    assert_eq!(
        settle("x", ResponseEvent::Reply(bad)),
        Err(RequestError::Rejected(JsonRpcError { code: -32000, message: "no".to_string(), data: None }))
    );
    assert_eq!(request_timeout_secs("session/new"), 120);
    assert_eq!(request_timeout_secs("session/load"), 30);
}

#[test]
fn usage_is_reported_or_says_why_not() {
    assert_eq!(usage_report(true, Some(3)), Ok(3));
    assert_eq!(usage_report::<u8>(false, None), Err("empty usage response".to_string()));
    assert_eq!(
        usage_report::<u8>(true, None),
        Err("could not parse usage response from agent".to_string())
    );
}

fn option(id: &str, current: &str) -> ConfigOption {
    ConfigOption {
        id: id.to_string(),
        name: id.to_string(),
        description: None,
        category: None,
        option_type: "select".to_string(),
        current_value: current.to_string(),
        options: vec![ConfigOptionValue {
            value: current.to_string(),
            name: current.to_string(),
            description: None,
        }],
    }
}

#[test]
fn a_session_is_opened_configured_and_prompted() {
    let mut c = AcpConnection::new(Some(17));
    assert_eq!(c.child_pgid(), Some(17));
    assert_eq!(c.usage_params(), Err("usage query is not supported by this backend (unknown agent)".to_string()));
    assert_eq!(c.session_prompt(&vec![]), Err("no session".to_string()));
    let mut pending: Table<u64, u64> = Table::new();
    let line = c.begin_request("initialize", AcpConnection::initialize_params(), 9, &mut pending);
    assert_eq!(line.get("id").unwrap().as_u64(), Some(1));
    assert_eq!(line.get_str("method"), Some("initialize"));
    assert_eq!(pending.get(&1), Some(&9));
    assert_eq!(c.next_id(), 2);

    let result = Json::object()
        .with("agentInfo", Json::object().with("name", Json::text("Kiro CLI Agent")))
        .with("agentCapabilities", Json::object().with("loadSession", Json::Bool(true)));
    c.initialize(Some(&result));
    assert_eq!(c.agent_name, "Kiro CLI Agent");
    assert!(c.supports_load_session);

    assert_eq!(
        c.session_new(Some(&Json::object()), vec![]),
        Err("no sessionId in session/new response".to_string())
    );
    let opened = Json::object().with("sessionId", Json::text("s-1"));
    assert_eq!(c.session_new(Some(&opened), vec![option("model", "a"), option("mode", "b")]), Ok("s-1".to_string()));
    assert_eq!(c.config_options.len(), 2);

    match c.set_config_option("model", "z", ConfigEvent::Start) {
        Ok(ConfigStep::Request { method, params }) => {
            assert_eq!(method, "session/set_config_option");
            assert_eq!(params.get_str("value"), Some("z"));
        }
        _ => panic!("must be asked for"),
    }
    match c.set_config_option("model", "z", ConfigEvent::Refused) {
        Ok(ConfigStep::Request { method, .. }) => assert_eq!(method, "session/prompt"),
        _ => panic!("must be prompted for"),
    }
    let updated = match c.set_config_option("model", "z", ConfigEvent::Prompted) {
        Ok(ConfigStep::Done(options)) => options,
        _ => panic!("must be set"),
    };
    assert_eq!(updated[0].current_value, "z");
    assert_eq!(updated[1].current_value, "b");
    let answered = ConfigEvent::Answered(Some(vec![option("only", "x")]));
    assert!(matches!(
        c.set_config_option("model", "z", answered),
        Ok(ConfigStep::Done(o)) if o == vec![option("only", "x")]
    ));
    let failed = ConfigEvent::PromptFailed(RequestError::NoResponse("late".to_string()));
    assert!(matches!(c.set_config_option("model", "z", failed), Ok(ConfigStep::Failed(_))));

    let fallback = c.config_fallback_params("model", "z").unwrap();
    let block = &fallback.get("prompt").unwrap().as_array().unwrap()[0];
    assert_eq!(block.get_str("text"), Some("/model z"));
    let set = c.set_config_option_params("model", "z").unwrap();
    assert_eq!(set.get_str("configId"), Some("model"));
    assert!(c.usage_params().is_ok());

    let image = ContentBlock::Image { media_type: "image/png".to_string(), data: "AA".to_string() };
    let prompt = c.session_prompt(&vec![ContentBlock::Text { text: "hi".to_string() }, image]).unwrap();
    let blocks = prompt.get("prompt").unwrap().as_array().unwrap();
    assert_eq!(blocks[0].get_str("text"), Some("hi"));
    assert_eq!(blocks[1].get_str("mimeType"), Some("image/png"));
    assert_eq!(blocks[1].get_str("data"), Some("AA"));

    assert_eq!(c.session_load("s-2", true, None), Err("session/load rejected".to_string()));
    assert_eq!(c.session_load("s-2", false, None), Ok(()));
    assert_eq!(c.acp_session_id, Some("s-2".to_string()));

    let cancel = c.abandon_request(1, &mut pending).unwrap();
    assert_eq!(cancel.get_str("method"), Some("session/cancel"));
    assert_eq!(cancel.get("params").unwrap().get_str("sessionId"), Some("s-2"));
    assert_eq!(pending.len(), 0);
}

#[test]
fn session_activity_touch_advances_last_active() {
    let mut activity = SessionActivity::new(12);
    activity.set_last_active_ms(0);
    let before = activity.last_active_ms();
    activity.touch(12);
    assert!(activity.last_active_ms() > before);
    activity.set_last_active_ms(0);
    assert!(activity.age(12) >= 10);
    activity.touch(12);
    assert!(activity.age(13) < 60_000);
    activity.set_last_active_ms(u64::MAX);
    assert_eq!(activity.age(13), 0);
}

#[test]
fn session_activity_set_in_flight_round_trips() {
    let mut activity = SessionActivity::new(0);
    assert!(!activity.in_flight());
    activity.set_in_flight(true);
    assert!(activity.in_flight());
    activity.set_in_flight(false);
    assert!(!activity.in_flight());
}

#[test]
fn a_prompt_marks_its_session_busy_while_it_runs() {
    let mut activity = SessionActivity::new(0);
    activity.prompt_started(5);
    assert!(activity.in_flight());
    assert_eq!(activity.last_active_ms(), 5);
    activity.prompt_done(9);
    assert!(!activity.in_flight());
    assert_eq!(activity.last_active_ms(), 9);
}

#[test]
fn the_stub_agent_answers_what_it_models_and_rejects_the_rest() {
    let init = Json::object().with("id", Json::number(4)).with("method", Json::text("initialize"));
    let r = stub_replies(&init);
    assert_eq!(r.len(), 1);
    assert_eq!(r[0].get("id").unwrap().as_u64(), Some(4));
    let prompt = Json::object().with("id", Json::number(6)).with("method", Json::text("session/prompt"));
    let r = stub_replies(&prompt);
    assert_eq!(r.len(), 2);
    assert_eq!(r[0].get_str("method"), Some("session/updated"));
    assert_eq!(r[1].get("result").unwrap().get_str("stopReason"), Some("end_turn"));
    let other = Json::object().with("id", Json::number(8)).with("method", Json::text("session/load"));
    let e = stub_replies(&other);
    assert_eq!(
        e[0].get("error").unwrap().get_str("message"),
        Some("oab_acp_stub_agent does not model session/load")
    );
    assert!(stub_replies(&Json::object().with("method", Json::text("session/cancel"))).is_empty());
    assert_eq!(line_answers(" {\"id\":3,\"method\":\"initialize\"} "), stub_replies(&Json::object().with("id", Json::number(3)).with("method", Json::text("initialize"))));
    assert!(line_answers("  ").is_empty());
    assert!(line_answers("{").is_empty());
    let nameless = stub_replies(&Json::object().with("id", Json::number(1)));
    assert_eq!(
        nameless[0].get("error").unwrap().get_str("message"),
        Some("oab_acp_stub_agent does not model <none>")
    );
}

#[test]
fn results_name_the_options_of_a_session() {
    assert_eq!(config_options_of(None), None);
    assert_eq!(config_options_of(Some(&Json::Null)), Some(vec![]));
    let result = parse_json(
        "{\"configOptions\":[{\"id\":\"model\",\"name\":\"Model\",\"category\":\"model\",\
         \"type\":\"select\",\"currentValue\":\"m1\",\"options\":[{\"value\":\"m1\",\"name\":\"M1\",\
         \"description\":\"fast\"},{\"value\":2}]},{\"options\":{}}]}",
    );
    let options = config_options_of(result.as_ref()).unwrap();
    assert_eq!(
        options,
        vec![
            ConfigOption {
                id: "model".into(),
                name: "Model".into(),
                description: None,
                category: Some("model".into()),
                option_type: "select".into(),
                current_value: "m1".into(),
                options: vec![
                    ConfigOptionValue {
                        value: "m1".into(),
                        name: "M1".into(),
                        description: Some("fast".into()),
                    },
                    ConfigOptionValue { value: "".into(), name: "".into(), description: None },
                ],
            },
            ConfigOption {
                id: "".into(),
                name: "".into(),
                description: None,
                category: None,
                option_type: "".into(),
                current_value: "".into(),
                options: vec![],
            },
        ]
    );
}
