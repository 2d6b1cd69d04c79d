//! The bridge to a model server.

use openab_core::ollama::chat::failed_session_prompt;
use openab_core::ollama::chat::http_error_text;
use openab_core::ollama::chat::route;
use openab_core::ollama::chat::Chat;
use openab_core::ollama::chat::OllamaConfig;
use openab_core::ollama::chat::Route;
use openab_core::ollama::chat::Setting;
use openab_core::ollama::chat::TurnStart;
use openab_core::ollama::stream::content_of;
use openab_core::ollama::stream::texts_of;
use openab_core::ollama::stream::EventBuffer;
use openab_core::ollama::stream::StreamChunk;
use openab_core::value::Json;

fn unset() -> Setting {
    Setting { own: None, shared: None }
}

#[test]
fn settings_come_from_their_own_variable_first() {
    let config = OllamaConfig::from_env(
        Setting { own: Some("http://a".into()), shared: Some("http://b".into()) },
        Setting { own: None, shared: Some("m".into()) },
        unset(),
    );
    assert_eq!(config.base_url, "http://a");
    assert_eq!(config.model, "m");
    assert_eq!(config.chat_url(), "http://a/chat/completions");
    let default = OllamaConfig::from_env(unset(), unset(), unset());
    assert_eq!(default.base_url, "http://localhost:11434/v1");
    assert_eq!(default.model, "gemma4:26b");
    assert_eq!(default.api_key, "ollama");
    let request = default.chat_request(vec![Json::text("x")]);
    assert_eq!(request.get("stream"), Some(&Json::Bool(true)));
    assert_eq!(request.get_str("model"), Some("gemma4:26b"));
    let name = Chat::handle_initialize(1, &default);
    assert_eq!(
        name.get("result").unwrap().get("agentInfo").unwrap().get_str("name"),
        Some("ollama-acp (gemma4:26b)")
    );
}

#[test]
fn events_are_cut_at_lines_however_the_stream_is_cut() {
    let mut whole = EventBuffer::new();
    let stream = "data: {\"a\":1}\n\n: comment\ndata: two\r\ndata: [DONE]\ndata: late\n";
    let (payloads, done) = whole.feed(stream);
    assert_eq!(payloads, vec!["{\"a\":1}".to_string(), "two".to_string()]);
    assert!(done);
    let mut pieces = EventBuffer::new();
    let mut got = Vec::new();
    let mut over = false;
    for c in "data: {\"a\":1}\n\n: comment\ndata: two\r\ndata: [DONE]\n".chars() {
        let (p, d) = pieces.feed(&c.to_string());
        got.extend(p);
        over = over || d;
    }
    assert_eq!(got, payloads);
    assert!(over);
}

#[test]
fn the_text_of_an_event_is_that_of_its_first_choice() {
    let choice = |delta| Json::object().with("delta", delta);
    let event = |c| Json::object().with("choices", Json::array(vec![c]));
    let text = Json::object().with("content", Json::text("hi"));
    assert_eq!(content_of(&event(choice(text))), Some("hi".to_string()));
    assert_eq!(content_of(&event(choice(Json::object()))), None);
    assert_eq!(content_of(&Json::object()), None);
}

fn params(prompt: &str) -> Json {
    Json::object().with("sessionId", Json::text("s")).with(
        "prompt",
        Json::array(vec![Json::object().with("type", Json::text("text")).with("text", Json::text(prompt))]),
    )
}

#[test]
fn a_turn_extends_the_conversation() {
    let mut chat = Chat::new();
    let new = Json::object().with("cwd", Json::text("/w"));
    chat.open_session(1, &new, Some("be kind".into()), "s");
    let (mut turn, messages) = match chat.begin_session_prompt(2, &params("hello")) {
        TurnStart::Ask { turn, notifications, messages } => {
            assert_eq!(notifications.len(), 2);
            (turn, messages)
        }
        TurnStart::Refused(_) => panic!("must be asked"),
    };
    assert_eq!(messages.len(), 2);
    assert_eq!(messages[0].get_str("role"), Some("system"));
    assert_eq!(messages[1].get_str("content"), Some("hello"));
    let (note, on) = turn.on_chunk(&StreamChunk::Content("fine".into()));
    assert!(note.is_some());
    assert!(on);
    let (note, _) = turn.on_chunk(&StreamChunk::Error("slow".into()));
    let shown = note.unwrap();
    let update = shown.get("params").unwrap().get("update").unwrap();
    assert_eq!(update.get("content").unwrap().get_str("text"), Some("\n\n**Error:** slow\n"));
    let (none, on) = turn.on_chunk(&StreamChunk::Done);
    assert!(none.is_none());
    assert!(!on);
    let lines = chat.finish_session_prompt(2, &turn);
    assert_eq!(lines.last().unwrap().get("result").unwrap().get_str("status"), Some("completed"));
    match chat.begin_session_prompt(3, &params("again")) {
        TurnStart::Ask { messages, .. } => {
            assert_eq!(messages.len(), 4);
            assert_eq!(messages[2].get_str("role"), Some("assistant"));
            assert_eq!(messages[2].get_str("content"), Some("fine"));
        }
        TurnStart::Refused(_) => panic!("must be asked"),
    }
}

#[test]
fn turns_without_a_session_are_refused() {
    let mut chat = Chat::new();
    match chat.begin_session_prompt(2, &Json::object()) {
        TurnStart::Refused(e) => {
            assert_eq!(e.get("error").unwrap().get_str("message"), Some("Missing sessionId"))
        }
        _ => panic!("must be refused"),
    }
    assert!(matches!(chat.begin_session_prompt(2, &params("x")), TurnStart::Refused(_)));
    let opened = chat.handle_session_new(1, &Json::object(), None);
    assert_eq!(opened.get("result").unwrap().get_str("sessionId").unwrap().len(), 36);
}

#[test]
fn failures_are_said_in_the_conversation() {
    let lines = failed_session_prompt(4, "refused");
    assert_eq!(lines.len(), 3);
    let update = lines[0].get("params").unwrap().get("update").unwrap();
    assert_eq!(
        update.get("content").unwrap().get_str("text"),
        Some("\n\n**Error communicating with Ollama:** refused\n")
    );
    assert_eq!(http_error_text("404 Not Found", None), "Ollama HTTP 404 Not Found: Unknown error");
    assert_eq!(http_error_text("500", Some("boom")), "Ollama HTTP 500: boom");
    assert!(matches!(route(1, "session/new"), Route::NewSession));
    match route(1, "x") {
        Route::Unknown(e) => {
            assert_eq!(e.get("error").unwrap().get_str("message"), Some("Method not found: x"))
        }
        _ => panic!("must be unknown"),
    }
}

#[test]
fn payloads_add_their_texts_in_order() {
    let payloads = vec![
        "{\"choices\":[{\"delta\":{\"content\":\"a\"}}]}".to_string(),
        "not json".to_string(),
        "{\"choices\":[{\"delta\":{\"content\":\"\"}}]}".to_string(),
        "{\"choices\":[{\"delta\":{\"content\":\"b\"}}]}".to_string(),
        "{\"choices\":[]}".to_string(),
    ];
    assert_eq!(texts_of(&payloads), vec!["a".to_string(), "b".to_string()]);
}
