//! The bridge to the Antigravity command line.

use openab_core::agy::adapter::augmented_path;
use openab_core::agy::adapter::cached_models;
use openab_core::agy::adapter::models_cache_text;
use openab_core::agy::adapter::ModelSources;
use openab_core::agy::adapter::agy_bin;
use openab_core::agy::adapter::parse_models;
use openab_core::agy::adapter::prompt_extra_args;
use openab_core::agy::adapter::Adapter;
use openab_core::agy::adapter::SessionStore;
use openab_core::agy::adapter::StoredSession;
use openab_core::agy::narration::filter_narration;
use openab_core::agy::narration::is_narration;
use openab_core::agy::narration::read_response_from_db;
use openab_core::agy::narration::show_narration;
use openab_core::agy::narration::show_tool_output;
use openab_core::agy::narration::ResponseRow;
use openab_core::agy::prompt::base64_decode;
use openab_core::agy::prompt::extension_for;
use openab_core::agy::prompt::fresh_media_file_name;
use openab_core::agy::prompt::media_requests;
use openab_core::agy::prompt::parse_prompt;
use openab_core::agy::prompt::parse_prompt_and_extract_media;
use openab_core::agy::protobuf::extract_text_from_step_payload;
use openab_core::agy::protobuf::extract_tool_from_step_payload;
use openab_core::agy::protobuf::get_proto_field;
use openab_core::agy::protobuf::get_proto_text;
use openab_core::agy::protobuf::is_tool_step_type;
use openab_core::agy::protobuf::read_varint;
use openab_core::agy::sessions::MAX_SESSIONS;
use openab_core::agy::streaming::new_conversation_id;
use openab_core::agy::streaming::poll_streaming_delta;
use openab_core::agy::streaming::skip_bytes;
use openab_core::agy::streaming::tool_call_title;
use openab_core::agy::streaming::Display;
use openab_core::agy::streaming::tool_updates;
use openab_core::agy::streaming::StepRow;
use openab_core::agy::streaming::StreamingState;
use openab_core::value::Json;

#[test]
fn default_timeout_is_added_without_discarding_extra_args() {
    assert_eq!(prompt_extra_args(""), ["--print-timeout", "60m"]);
    assert_eq!(
        prompt_extra_args("--model 'model with spaces'"),
        ["--model", "model with spaces", "--print-timeout", "60m"]
    );
}

#[test]
fn explicit_timeout_is_preserved_in_both_forms() {
    assert_eq!(prompt_extra_args("--print-timeout 5m"), ["--print-timeout", "5m"]);
    assert_eq!(prompt_extra_args("--print-timeout=30m"), ["--print-timeout=30m"]);
}

#[test]
fn invalid_explicit_timeouts_are_left_for_cli_validation() {
    for extra in [
        "--print-timeout",
        "--print-timeout=",
        "--print-timeout ''",
        "--print-timeout --model example",
        "--print-timeout=invalid",
    ] {
        assert_eq!(prompt_extra_args(extra), shell_words::split(extra).unwrap());
    }
}

#[test]
fn similar_flag_does_not_suppress_default() {
    assert_eq!(
        prompt_extra_args("--print-timeout-other 1s"),
        ["--print-timeout-other", "1s", "--print-timeout", "60m"]
    );
}

#[test]
fn malformed_extra_args_still_get_default_timeout() {
    assert_eq!(prompt_extra_args("--print-timeout '5m"), ["--print-timeout", "60m"]);
}

/// A length-delimited field.
fn field(number: u8, content: &[u8]) -> Vec<u8> {
    assert!(content.len() < 16384);
    let tag = (number as u16) << 3 | 2;
    let mut out = Vec::new();
    if tag < 128 {
        out.push(tag as u8);
    } else {
        out.push((tag & 0x7f) as u8 | 0x80);
        out.push((tag >> 7) as u8);
    }
    if content.len() < 128 {
        out.push(content.len() as u8);
    } else {
        out.push((content.len() & 0x7f) as u8 | 0x80);
        out.push((content.len() >> 7) as u8);
    }
    out.extend_from_slice(content);
    out
}

fn text_step(text: &str) -> Vec<u8> {
    field(20, &field(1, text.as_bytes()))
}

fn tool_step(name: &str, input: &str) -> Vec<u8> {
    let mut call = field(2, name.as_bytes());
    call.extend(field(3, input.as_bytes()));
    field(5, &field(4, &call))
}

#[test]
fn varints_are_read_seven_bits_at_a_time() {
    assert_eq!(read_varint(&[0x05]), Some((5, 1)));
    assert_eq!(read_varint(&[0xac, 0x02, 0xff]), Some((300, 2)));
    assert_eq!(read_varint(&[0x80]), None);
    assert_eq!(read_varint(&[]), None);
    let all = [0xff, 0xff, 0xff, 0xff, 0xff, 0xff, 0xff, 0xff, 0xff, 0x01];
    assert_eq!(read_varint(&all), Some((u64::MAX, 10)));
    assert_eq!(read_varint(&[0x80; 12]), None);
}

#[test]
fn fields_are_found_past_others() {
    let mut blob = vec![0x08, 0x96, 0x01];
    blob.extend([0x15, 1, 2, 3, 4]);
    blob.extend([0x19, 1, 2, 3, 4, 5, 6, 7, 8]);
    blob.extend(field(4, b"skip"));
    blob.extend(field(6, b"found"));
    blob.extend(field(6, b"later"));
    assert_eq!(get_proto_field(&blob, 6), Some(b"found".to_vec()));
    assert_eq!(get_proto_text(&blob, 4), Some("skip".to_string()));
    assert_eq!(get_proto_field(&blob, 7), None);
    assert_eq!(get_proto_field(&[0x32, 9, 1], 6), None);
    assert_eq!(get_proto_field(&[0x33], 6), None);
    assert_eq!(get_proto_text(&field(6, &[0xff]), 6), None);
    let endless = [0x32, 0xff, 0xff, 0xff, 0xff, 0xff, 0xff, 0xff, 0xff, 0xff, 0x01];
    assert_eq!(get_proto_field(&endless, 6), None);
}

#[test]
fn step_payloads_hold_text_or_tool_calls() {
    assert_eq!(extract_text_from_step_payload(&text_step("hello")), Some("hello".to_string()));
    let nested = field(20, &field(1, &field(1, b"inner")));
    assert_eq!(extract_text_from_step_payload(&nested), Some("\n\x05inner".to_string()));
    let indented = text_step("\n\tlet x = 1;");
    assert_eq!(indented[..5], [0xa2, 0x01, 0x0e, 0x0a, 0x0c]);
    assert_eq!(
        extract_text_from_step_payload(&indented),
        Some("\n\tlet x = 1;".to_string())
    );
    assert_eq!(extract_text_from_step_payload(&field(20, &field(1, &[0xff]))), None);
    assert_eq!(extract_text_from_step_payload(&field(2, b"x")), None);
    let tool = extract_tool_from_step_payload(&tool_step("view_file", "{}")).unwrap();
    assert_eq!(tool, ("view_file".to_string(), Some(Json::object())));
    let unreadable = extract_tool_from_step_payload(&tool_step("view_file", "{")).unwrap();
    assert_eq!(unreadable, ("view_file".to_string(), None));
    let nameless = field(5, &field(4, &field(2, b"")));
    assert!(extract_tool_from_step_payload(&nameless).is_none());
    let other = extract_tool_from_step_payload(&field(5, &field(4, &field(9, b"grep")))).unwrap();
    assert_eq!(other, ("grep".to_string(), None));
    assert!(is_tool_step_type(138));
    assert!(!is_tool_step_type(15));
}

#[test]
fn narration_is_left_out_unless_it_is_asked_for() {
    assert!(is_narration("I will look.\n\n  I will write."));
    assert!(!is_narration("I will look.\nDone."));
    assert!(!is_narration("  \n"));
    let parts = vec!["I will look.".to_string(), "Here it is.".to_string(), "I will rest.".to_string()];
    assert_eq!(filter_narration(&parts, false), "Here it is.\nI will rest.");
    assert_eq!(filter_narration(&parts, true), "I will look.\nHere it is.\nI will rest.");
    let only = vec!["I will look.".to_string(), "I will rest.".to_string()];
    assert_eq!(filter_narration(&only, false), "I will rest.");
    assert!(show_narration(Some("TRUE"), None));
    assert!(show_narration(Some("1"), Some("compact")));
    assert!(!show_narration(Some("yes"), Some("full")));
    assert!(show_narration(None, Some("FULL")));
    assert!(!show_narration(None, None));
    assert!(show_tool_output(Some("True"), None));
    assert!(!show_tool_output(Some("0"), Some("full")));
    assert!(show_tool_output(None, Some("Full")));
}

#[test]
fn the_response_is_read_from_its_steps() {
    let row = |idx, payload| ResponseRow { idx, payload };
    let rows = vec![
        row(3, text_step("I will look.")),
        row(5, text_step("Answer")),
        row(6, field(2, b"odd")),
    ];
    assert_eq!(read_response_from_db(&rows, 2, false), Some(("Answer".to_string(), 6)));
    assert_eq!(read_response_from_db(&vec![row(6, field(2, b"odd"))], 2, false), None);
    assert_eq!(read_response_from_db(&vec![], 2, false), None);
}

fn sources(fetched: &[&str], cache: Option<&str>) -> ModelSources {
    ModelSources { fetched: names(fetched), cache: cache.map(|c| c.to_string()) }
}

fn names(list: &[&str]) -> Vec<String> {
    list.iter().map(|n| n.to_string()).collect()
}

#[test]
fn conversations_are_files_with_their_extension() {
    let files = names(&["a.db", "b.pb", ".db", "c.x.db", "db", "d.db.tmp", "é.db"]);
    assert_eq!(Adapter::conversation_snapshot(&files), names(&["a", "c.x", "é"]));
}

#[test]
fn test_snapshot_diff_binds_single_new_conversation() {
    assert_eq!(
        new_conversation_id(&names(&["existing"]), &names(&["existing", "new-conv"])),
        Some("new-conv".to_string())
    );
}

#[test]
fn test_new_conversation_id_returns_none_when_multiple_files() {
    assert_eq!(new_conversation_id(&vec![], &names(&["a", "b"])), None);
    assert_eq!(new_conversation_id(&names(&["a"]), &names(&["a"])), None);
}

#[test]
fn bytes_are_skipped_only_at_characters() {
    assert_eq!(skip_bytes("héllo", 3), Some("llo".to_string()));
    assert_eq!(skip_bytes("héllo", 2), None);
    assert_eq!(skip_bytes("héllo", 6), Some(String::new()));
}

fn step(idx: i64, step_type: i64, payload: Vec<u8>) -> StepRow {
    StepRow { idx, step_type, payload, output: None }
}

const QUIET: Display = Display { narration: false, tool_output: false };

fn sent_text(update: &Json) -> String {
    let u = update.get("params").unwrap().get("update").unwrap();
    assert_eq!(u.get_str("sessionUpdate"), Some("agent_message_chunk"));
    u.get("content").unwrap().get_str("text").unwrap().to_string()
}

#[test]
fn growing_text_is_sent_piece_by_piece() {
    let mut state = StreamingState::new(Some("c".into()), 4);
    let first = poll_streaming_delta("s", &mut state, &vec![step(5, 15, text_step("He"))], QUIET).unwrap();
    assert_eq!(first.len(), 1);
    assert_eq!(sent_text(&first[0]), "He");
    let again = poll_streaming_delta("s", &mut state, &vec![step(5, 15, text_step("He"))], QUIET).unwrap();
    assert!(again.is_empty());
    let rows = vec![step(5, 15, text_step("Hello")), step(7, 15, text_step("I will rest."))];
    let more = poll_streaming_delta("s", &mut state, &rows, QUIET).unwrap();
    assert_eq!(more.len(), 1);
    assert_eq!(sent_text(&more[0]), "llo");
    assert_eq!(state.last_step_idx, 7);
    assert!(state.had_updates);
}

#[test]
fn text_that_was_replaced_inside_a_character_is_reported() {
    let mut state = StreamingState::new(None, -1);
    poll_streaming_delta("s", &mut state, &vec![step(0, 15, text_step("ab"))], QUIET).unwrap();
    let replaced = vec![step(0, 15, text_step("aé!"))];
    assert_eq!(poll_streaming_delta("s", &mut state, &replaced, QUIET), Err(0));
}

#[test]
fn tool_calls_are_sent_once_with_their_output_where_it_is_shown() {
    let input = Json::object().with("path", Json::text("/tmp/x"));
    let row = || StepRow {
        idx: 9,
        step_type: 8,
        payload: tool_step("view_file", "{\"path\":\"/tmp/x\"}"),
        output: Some("shown".to_string()),
    };
    let mut state = StreamingState::new(None, -1);
    let show = Display { narration: false, tool_output: true };
    let updates = poll_streaming_delta("s", &mut state, &vec![row()], show).unwrap();
    assert_eq!(updates.len(), 2);
    let start = updates[0].get("params").unwrap().get("update").unwrap();
    assert_eq!(start.get_str("toolCallId"), Some("agy-9-8"));
    assert_eq!(start.get_str("title"), Some("view_file: /tmp/x"));
    assert_eq!(start.get("rawInput"), Some(&input));
    let end = updates[1].get("params").unwrap().get("update").unwrap();
    assert_eq!(end.get_str("status"), Some("completed"));
    assert_eq!(end.get("rawOutput").unwrap().get_str("text"), Some("shown"));
    assert!(poll_streaming_delta("s", &mut state, &vec![row()], show).unwrap().is_empty());
    let mut quiet = StreamingState::new(None, -1);
    let updates = poll_streaming_delta("s", &mut quiet, &vec![row()], QUIET).unwrap();
    assert!(updates[1].get("params").unwrap().get("update").unwrap().get("rawOutput").is_none());
    let given = tool_updates("s", 9, 8, "view_file", &Some(input), &None);
    assert_eq!(given, updates);
}

#[test]
fn tool_calls_are_titled_by_their_input() {
    assert_eq!(tool_call_title("t", None), "t");
    let long = Json::object().with("command", Json::text(&"x".repeat(70)));
    assert_eq!(tool_call_title("t", Some(&long)), format!("t: {}", "x".repeat(60)));
    let both = Json::object().with("query", Json::text("q")).with("FilePath", Json::text("/f"));
    assert_eq!(tool_call_title("t", Some(&both)), "t: /f");
    assert_eq!(tool_call_title("t", Some(&Json::object())), "t");
}

#[test]
fn a_stream_binds_the_one_new_conversation() {
    let mut state = StreamingState::new(None, -1);
    state.bind(Some(&names(&["a"])), &names(&["a", "b"]));
    assert_eq!(state.conversation_id, Some("b".to_string()));
    state.bind(Some(&names(&["a", "b"])), &names(&["a", "b", "c"]));
    assert_eq!(state.conversation_id, Some("b".to_string()));
}

#[test]
fn prompts_are_text_or_blocks() {
    assert_eq!(parse_prompt(Some(&Json::text("hi"))), "hi");
    assert_eq!(parse_prompt(None), "");
    let blocks = Json::array(vec![
        Json::object().with("type", Json::text("text")).with("text", Json::text("see ")),
        Json::object().with("type", Json::text("file")).with("uri", Json::text("file:///tmp/x")),
        Json::object().with("type", Json::text("text")).with("text", Json::text(" and @")),
        Json::object().with("type", Json::text("resource_link")).with("uri", Json::text("http://y")),
        Json::object()
            .with("type", Json::text("resource"))
            .with("content", Json::object().with("text", Json::text(" inline"))),
    ]);
    assert_eq!(parse_prompt(Some(&blocks)), "see @/tmp/x and @http://y inline");
}

#[test]
fn pictures_are_decoded_written_and_referred_to() {
    let image = |data: &str, mime: &str| {
        Json::object()
            .with("type", Json::text("image"))
            .with("data", Json::text(data))
            .with("mimeType", Json::text(mime))
    };
    let prompt = Json::array(vec![
        Json::object().with("type", Json::text("text")).with("text", Json::text("look")),
        image("aGk=", "image/jpeg"),
        image("!!", "image/gif"),
    ]);
    let requests = media_requests(Some(&prompt));
    assert_eq!(requests.len(), 1);
    assert_eq!(requests[0].block, 1);
    assert_eq!(requests[0].extension, "jpg");
    assert_eq!(requests[0].bytes, b"hi".to_vec());
    let written = vec![None, Some("temp_media_1.jpg".to_string()), None];
    let (text, files) = parse_prompt_and_extract_media(Some(&prompt), &written);
    assert_eq!(text, "look ![temp_media_1.jpg](/tmp/agy-media/temp_media_1.jpg) ");
    assert_eq!(files, vec!["/tmp/agy-media/temp_media_1.jpg".to_string()]);
}

#[test]
fn base64_is_cleaned_and_padded_before_it_is_decoded() {
    assert_eq!(base64_decode("aGVsbG8="), Some(b"hello".to_vec()));
    assert_eq!(base64_decode("aGVs\nbG8"), Some(b"hello".to_vec()));
    assert_eq!(base64_decode("data:image/png;base64,aGVsbG8"), Some(b"hello".to_vec()));
    assert_eq!(base64_decode("*"), None);
    assert_eq!(extension_for("image/webp"), "webp");
    assert_eq!(extension_for("x"), "png");
}

#[test]
fn fresh_file_names_differ() {
    let a = fresh_media_file_name("png");
    let b = fresh_media_file_name("png");
    assert_ne!(a, b);
    assert!(a.starts_with("temp_media_"));
    assert!(a.ends_with(".png"));
    assert_eq!(a.len(), "temp_media_".len() + 8 + ".png".len());
}

fn adapter() -> Adapter {
    Adapter::new(Some("/home/a"), None, Some("/work"))
}

fn kept(conversation: &str, last: i64, model: Option<&str>) -> StoredSession {
    StoredSession {
        conversation_id: Some(conversation.to_string()),
        last_step_idx: last,
        model_id: model.map(|m| m.to_string()),
    }
}

#[test]
fn paths_and_models_have_defaults() {
    let mut a = adapter();
    assert_eq!(a.state_file(), "/home/a/.openab/agy-acp/sessions.json");
    assert_eq!(a.models_cache_path(), "/home/a/.openab/agy-acp/models_cache.json");
    assert_eq!(a.conversations_dir, "/home/a/.gemini/antigravity-cli/conversations");
    assert_eq!(agy_bin(None), "/usr/local/bin/agy");
    assert_eq!(
        augmented_path(Some("/h"), Some("/p")),
        "/h/bin:/h/.local/bin:/h/.local/share/fnm/aliases/default/bin:/p"
    );
    assert_eq!(parse_models(" one \n\n two\n"), vec!["one".to_string(), "two".to_string()]);
    assert!(!a.keeps_models(&sources(&[], Some("[\"cached\"]"))));
    assert_eq!(a.get_available_models(sources(&[], Some("[\"cached\"]"))), &names(&["cached"]));
    assert_eq!(a.available_models, Some(names(&["cached"])));
    assert!(!a.keeps_models(&sources(&["late"], None)));
    assert_eq!(a.get_available_models(sources(&["late"], None)), &names(&["cached"]));
    assert_eq!(a.available_models, Some(names(&["cached"])));
    let mut b = adapter();
    assert!(b.keeps_models(&sources(&["fetched"], Some("[\"cached\"]"))));
    assert_eq!(
        b.get_available_models(sources(&["fetched"], Some("[\"cached\"]"))),
        &names(&["fetched"])
    );
    for cache in [None, Some("[]"), Some("[\"a\", 1]"), Some("{}"), Some("[\"a\"")] {
        let mut c = adapter();
        c.get_available_models(sources(&[], cache));
        assert_eq!(c.available_models, Some(Adapter::static_fallback_models()));
    }
    assert_eq!(Adapter::static_fallback_models()[0], "Gemini 3.5 Flash (Medium)");
}

#[test]
fn the_cache_of_models_is_a_list_of_names() {
    assert_eq!(cached_models(" [\"one\", \"t\\u0077o\"] "), Some(names(&["one", "two"])));
    assert_eq!(cached_models("[]"), None);
    assert_eq!(cached_models("[\"one\", null]"), None);
    assert_eq!(cached_models("\"one\""), None);
    assert_eq!(cached_models("not json"), None);
    assert_eq!(models_cache_text(&names(&["one", "a \"b\""])), "[\"one\",\"a \\\"b\\\"\"]");
    assert_eq!(models_cache_text(&vec![]), "[]");
    let models = Adapter::static_fallback_models();
    assert_eq!(cached_models(&models_cache_text(&models)), Some(models));
}

#[test]
fn a_fresh_adapter_always_offers_models() {
    let mut a = adapter();
    let opened = a.handle_session_new(Json::number(1), sources(&[], None));
    let options = opened.get("result").unwrap().get("configOptions").unwrap().as_array().unwrap();
    assert_eq!(options[0].get_str("currentValue"), Some("Gemini 3.5 Flash (Medium)"));
    assert_eq!(a.available_models, Some(Adapter::static_fallback_models()));
    let mut b = adapter();
    let shown = b.config_options_json(Some("mine"), sources(&["m1"], None));
    let entry = &shown.as_array().unwrap()[0];
    assert_eq!(entry.get_str("currentValue"), Some("mine"));
    assert_eq!(entry.get("options").unwrap().as_array().unwrap().len(), 1);
    let mut c = adapter();
    let unknown = Json::object().with("sessionId", Json::text("nope"));
    c.handle_session_load(Json::number(2), &unknown, &SessionStore::new(), sources(&["m1"], None));
    assert_eq!(c.available_models, None);
}

#[test]
fn sessions_open_load_and_configure() {
    let mut a = adapter();
    let opened = a.handle_session_new(Json::number(1), sources(&["m1", "m2"], None));
    let id = opened.get("result").unwrap().get_str("sessionId").unwrap().to_string();
    assert_eq!(id.len(), 36);
    for (i, c) in id.chars().enumerate() {
        match i {
            8 | 13 | 18 | 23 => assert_eq!(c, '-'),
            14 => assert_eq!(c, '4'),
            _ => assert!(matches!(c, '0'..='9' | 'a'..='f')),
        }
    }
    let options = opened.get("result").unwrap().get("configOptions").unwrap().as_array().unwrap();
    assert_eq!(options[0].get_str("currentValue"), Some("m1"));

    let mut store = SessionStore::new();
    store.persist_session("old", kept("conv", 7, Some("m2")));
    let params = Json::object().with("sessionId", Json::text("old"));
    let loaded = a.handle_session_load(Json::number(2), &params, &store, sources(&[], None));
    let options = loaded.get("result").unwrap().get("configOptions").unwrap().as_array().unwrap();
    assert_eq!(options[0].get_str("currentValue"), Some("m2"));
    let unknown = Json::object().with("sessionId", Json::text("nope"));
    let failed = a.handle_session_load(Json::number(3), &unknown, &store, sources(&[], None));
    assert_eq!(failed.get("error").unwrap().get_str("message"), Some("unknown sessionId: nope"));
    let missing = a.handle_session_load(Json::number(4), &Json::object(), &store, sources(&[], None));
    assert_eq!(missing.get("error").unwrap().get_str("message"), Some("missing sessionId"));

    let set = Json::object()
        .with("sessionId", Json::text("old"))
        .with("configId", Json::text("model"))
        .with("value", Json::text("m1"));
    let (answer, keep) = a.handle_session_set_config_option(Json::number(5), &set, &store, sources(&[], None));
    assert!(answer.get("result").is_some());
    assert_eq!(keep, Some(kept("conv", 7, Some("m1"))));
    let (refused, none) = a.handle_session_set_config_option(Json::number(6), &unknown, &store, sources(&[], None));
    assert_eq!(
        refused.get("error").unwrap().get_str("message"),
        Some("missing sessionId, configId, or value")
    );
    assert_eq!(none, None);
}

#[test]
fn prompts_are_planned_with_what_is_known_of_their_session() {
    let mut a = adapter();
    let mut store = SessionStore::new();
    store.persist_session("old", kept("conv", 7, Some("m2")));
    let prompt = || Json::array(vec![Json::object().with("text", Json::text(" go "))]);
    let params = Json::object().with("sessionId", Json::text("old")).with("prompt", prompt());
    let plan = a.prepare_prompt_state(&params, &store, "--x");
    assert_eq!(
        plan.args,
        vec![
            "--add-dir", "/work", "--x", "--print-timeout", "60m", "--conversation", "conv",
            "--model", "m2", "-p", "go"
        ]
    );
    assert!(!plan.needs_snapshot);
    assert_eq!(plan.last_step_idx, 7);
    a.open_session(Json::number(1), "fresh", sources(&[], None));
    let params = Json::object().with("sessionId", Json::text("fresh")).with("prompt", prompt());
    let plan = a.prepare_prompt_state(&params, &store, "");
    assert!(plan.needs_snapshot);
    assert_eq!(plan.last_step_idx, -1);
}

#[test]
fn the_oldest_session_makes_room() {
    let mut a = adapter();
    for i in 0..MAX_SESSIONS + 1 {
        a.open_session(Json::number(1), &format!("s{i}"), sources(&[], None));
    }
    assert!(!a.sessions.contains("s0"));
    assert!(a.sessions.contains("s1"));
    assert!(a.sessions.contains(&format!("s{MAX_SESSIONS}")));
}
