//! The bridge to the Antigravity command line, one run for each prompt.

use openab_core::agy::batch::route;
use openab_core::agy::batch::Adapter;
use openab_core::agy::batch::AgentRun;
use openab_core::agy::batch::Route;
use openab_core::agy::batch::SessionStore;
use openab_core::value::Json;

fn adapter() -> Adapter {
    Adapter::new(Some("/home/a"), Some("/work"))
}

fn names(list: &[&str]) -> Vec<String> {
    list.iter().map(|n| n.to_string()).collect()
}

#[test]
fn test_extract_delta_returns_full_text_when_unbound() {
    let result = Adapter::extract_delta(3, "oldnew", false);
    assert_eq!(result, "oldnew");
}

#[test]
fn test_extract_delta_skips_emitted_lines_when_bound() {
    let result = Adapter::extract_delta(1, "first response\nsecond response", true);
    assert_eq!(result, "second response");
}

#[test]
fn test_extract_delta_returns_empty_when_line_count_unchanged() {
    let result = Adapter::extract_delta(1, "fresh response", true);
    assert_eq!(result, "");
}

#[test]
fn test_extract_delta_returns_full_when_line_count_shrinks() {
    let result = Adapter::extract_delta(7, "l1\nl2\nl3\nl4\nl5\nl6\n", true);
    assert_eq!(result, "l2\nl3\nl4\nl5\nl6\n");
}

#[test]
fn test_extract_delta_preserves_leading_spaces() {
    let result = Adapter::extract_delta(1, "hello\n  indented code", true);
    assert_eq!(result, "  indented code");
}

#[test]
fn test_extract_delta_returns_all_lines_when_fewer_than_five_on_fallback() {
    let result = Adapter::extract_delta(4, "l1\nl2\nl3\n", true);
    assert_eq!(result, "l1\nl2\nl3\n");
}

#[test]
fn lines_are_counted_and_kept_from_the_end() {
    assert_eq!(Adapter::count_lines(""), 0);
    assert_eq!(Adapter::count_lines("a\nb"), 2);
    assert_eq!(Adapter::count_lines("a\nb\n"), 2);
    assert_eq!(Adapter::last_n_lines("a\nb\nc", 2), "b\nc");
}

#[test]
fn test_initialize_advertises_load_session_support() {
    let response = adapter().handle_initialize(Json::number(1), "1.0");
    assert_eq!(
        response
            .get("result")
            .and_then(|r| r.get("agentCapabilities"))
            .and_then(|c| c.get("loadSession"))
            .and_then(|v| v.as_bool()),
        Some(true)
    );
}

#[test]
fn test_session_load_restores_persisted_session() {
    let mut store = SessionStore::new();
    store.persist_session("sess-1", Some("conv-abc"), 3);
    let mut a = adapter();
    let params = Json::object().with("sessionId", Json::text("sess-1"));
    let response = a.handle_session_load(Json::number(7), &params, &store);
    assert!(response.get("error").is_none());
    let session = a.sessions.get("sess-1").unwrap();
    assert_eq!(session.conversation_id.as_deref(), Some("conv-abc"));
    assert_eq!(session.emitted_line_count, 3);
}

#[test]
fn test_session_load_rejects_unknown_session() {
    let mut a = adapter();
    let params = Json::object().with("sessionId", Json::text("missing"));
    let response = a.handle_session_load(Json::number(9), &params, &SessionStore::new());
    assert!(response.get("result").is_none());
    assert_eq!(response.get("error").unwrap().get_str("message"), Some("unknown sessionId: missing"));
}

#[test]
fn test_persist_and_restore_session_binding() {
    let mut store = SessionStore::new();
    store.persist_session("sess-1", Some("conv-abc"), 4);
    let restored = store.restore_session("sess-1");
    assert_eq!(restored.as_ref().and_then(|s| s.conversation_id.as_deref()), Some("conv-abc"));
    assert_eq!(restored.map(|s| s.emitted_line_count), Some(4));
    assert!(store.restore_session("sess-unknown").is_none());
}

fn ran(stdout: &str) -> AgentRun {
    AgentRun::Finished {
        success: true,
        status: "exit status: 0".to_string(),
        stdout: stdout.to_string(),
        stderr: String::new(),
    }
}

fn sent(lines: &Vec<Json>) -> String {
    let update = lines[0].get("params").unwrap().get("update").unwrap();
    update.get("content").unwrap().get_str("text").unwrap().to_string()
}

#[test]
fn a_conversation_sends_only_what_is_new() {
    let mut a = adapter();
    let store = SessionStore::new();
    a.open_session(Json::number(1), "s");
    let blocks = vec![
        Json::object().with("text", Json::text(" go")),
        Json::object().with("type", Json::text("image")),
        Json::object().with("text", Json::text("on\n")),
    ];
    let params = Json::object().with("sessionId", Json::text("s")).with("prompt", Json::array(blocks));
    let plan = a.begin_session_prompt(&params, &store, Some("--x  --y"));
    assert!(plan.needs_snapshot);
    assert_eq!(plan.args, vec!["--add-dir", "/work", "--x", "--y", "-p", "go\non"]);
    let before = Adapter::conversation_snapshot(&names(&["c0.pb", "other.db"]));
    assert_eq!(before, names(&["c0"]));
    let end = a.handle_session_prompt(Json::number(2), "s", &ran("one\n"), Some(&before), &names(&["c0", "c1"]));
    assert_eq!(sent(&end.lines), "one\n");
    assert_eq!(end.keep, Some(("c1".to_string(), 1)));
    let plan = a.begin_session_prompt(&params, &store, None);
    assert!(!plan.needs_snapshot);
    assert_eq!(plan.args, vec!["--add-dir", "/work", "--conversation", "c1", "-p", "go\non"]);
    let end = a.handle_session_prompt(Json::number(3), "s", &ran("one\ntwo\n"), None, &vec![]);
    assert_eq!(sent(&end.lines), "two\n");
    assert_eq!(end.keep, Some(("c1".to_string(), 2)));
}

#[test]
fn failed_runs_are_errors() {
    let mut a = adapter();
    let error = |a: &mut Adapter, run: AgentRun| {
        let end = a.handle_session_prompt(Json::number(1), "s", &run, None, &vec![]);
        assert_eq!(end.keep, None);
        end.lines[0].get("error").unwrap().get_str("message").unwrap().to_string()
    };
    assert_eq!(error(&mut a, AgentRun::Failed("no such file".into())), "failed to run agy: no such file");
    let quiet = AgentRun::Finished {
        success: false,
        status: "exit status: 2".into(),
        stdout: String::new(),
        stderr: String::new(),
    };
    assert_eq!(error(&mut a, quiet), "agy exited with status: exit status: 2");
    let loud = AgentRun::Finished {
        success: false,
        status: "exit status: 2".into(),
        stdout: String::new(),
        stderr: "bad flag\n".into(),
    };
    assert_eq!(error(&mut a, loud), "agy failed: bad flag");
}

#[test]
fn requests_are_routed_by_method() {
    assert!(matches!(route(Some(Json::number(1)), Some("initialize")), Route::Initialize));
    assert!(matches!(route(Some(Json::number(1)), Some("session/prompt")), Route::Prompt));
    assert!(matches!(route(None, Some("session/prompt")), Route::Ignore));
    match route(Some(Json::number(1)), Some("x")) {
        Route::Answer(a) => {
            assert_eq!(a.get("error").unwrap().get_str("message"), Some("method not found: x"))
        }
        _ => panic!("must be answered"),
    }
    match route(Some(Json::number(1)), Some("session/cancel")) {
        Route::Answer(a) => assert_eq!(a.get("result"), Some(&Json::object())),
        _ => panic!("must be answered"),
    }
}
