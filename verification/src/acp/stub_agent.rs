//! An agent that answers every prompt the same way.
//!
//! It models opening a session and one prompt, and nothing else. A request that
//! it does not model is answered with an error, so that its sender does not
//! wait in vain.

use crate::json::parse_json;
use crate::json::parsed_json;
use crate::ollama::chat::error;
use crate::ollama::chat::error_json;
use crate::ollama::chat::response;
use crate::ollama::chat::response_json;
use crate::text::same;
use crate::text::trim;
use crate::text::trimmed;
use crate::value::Json;
use crate::value::JsonView;
use crate::value::NumberView;
use crate::value::get_of;
use crate::value::law_added_member_is_found;
use crate::value::text_in;
use vstd::prelude::*;
use vstd::string::*;

verus! {

/// The id of a message, where it is a natural number.
pub open spec fn request_id(m: JsonView) -> Option<u64> {
    match get_of(Some(m), "id"@) {
        Some(JsonView::Number(NumberView::Unsigned(n))) => Some(n),
        _ => None,
    }
}

/// The id that an answer bears.
pub open spec fn answer_id(m: JsonView) -> u64 {
    match request_id(m) {
        Some(n) => n,
        None => 0,
    }
}

/// Who answers.
pub open spec fn introduction() -> JsonView {
    JsonView::empty_object().with(
        "protocolVersion"@,
        JsonView::Number(NumberView::Unsigned(1)),
    ).with(
        "agentInfo"@,
        JsonView::empty_object().with("name"@, JsonView::Text("oab-acp-stub"@)).with(
            "version"@,
            JsonView::Text("1.0.0"@),
        ),
    ).with("agentCapabilities"@, JsonView::empty_object())
}

/// What every prompt is answered.
pub open spec fn greeting() -> JsonView {
    JsonView::empty_object().with("jsonrpc"@, JsonView::Text("2.0"@)).with(
        "method"@,
        JsonView::Text("session/updated"@),
    ).with(
        "params"@,
        JsonView::empty_object().with(
            "update"@,
            JsonView::empty_object().with(
                "sessionUpdate"@,
                JsonView::Text("agent_message_chunk"@),
            ).with(
                "content"@,
                JsonView::empty_object().with("text"@, JsonView::Text("Hello, world!"@)),
            ),
        ),
    )
}

/// How every prompt ends.
pub open spec fn turn_result() -> JsonView {
    JsonView::empty_object().with("stopReason"@, JsonView::Text("end_turn"@)).with(
        "usage"@,
        JsonView::empty_object().with(
            "inputTokens"@,
            JsonView::Number(NumberView::Unsigned(1)),
        ).with("outputTokens"@, JsonView::Number(NumberView::Unsigned(5))).with(
            "totalTokens"@,
            JsonView::Number(NumberView::Unsigned(6)),
        ),
    )
}

/// What a message is answered.
pub open spec fn replies(m: JsonView) -> Seq<JsonView> {
    let method = text_in(Some(m), "method"@);
    if method == Some("initialize"@) {
        seq![response_json(answer_id(m), introduction())]
    } else if method == Some("session/new"@) {
        seq![
            response_json(
                answer_id(m),
                JsonView::empty_object().with("sessionId"@, JsonView::Text("sess-1"@)),
            ),
        ]
    } else if method == Some("session/prompt"@) {
        seq![greeting(), response_json(answer_id(m), turn_result())]
    } else {
        match request_id(m) {
            Some(n) => seq![
                error_json(
                    n,
                    -32601,
                    "oab_acp_stub_agent does not model "@ + (match method {
                        Some(w) => w,
                        None => "<none>"@,
                    }),
                ),
            ],
            None => seq![],
        }
    }
}

/// What a message is answered.
pub fn stub_replies(m: &Json) -> (r: Vec<Json>)
    ensures
        r.deep_view() == replies(m@),
{
    let id = match m.get("id") {
        Some(v) => v.as_u64(),
        None => None,
    };
    let answer: u64 = match id {
        Some(n) => n,
        None => 0,
    };
    let method = m.get_str("method");
    let named = match method {
        Some(w) => w,
        None => "<none>",
    };
    let known = method.is_some();
    let mut out: Vec<Json> = Vec::new();
    assert(out.deep_view() =~= seq![]);
    if known && same(named, "initialize") {
        let a = response(
            answer,
            Json::object().with("protocolVersion", Json::number(1)).with(
                "agentInfo",
                Json::object().with("name", Json::text("oab-acp-stub")).with(
                    "version",
                    Json::text("1.0.0"),
                ),
            ).with("agentCapabilities", Json::object()),
        );
        let ghost shown = a@;
        out.push(a);
        assert(out.deep_view() =~= seq![shown]);
    } else if known && same(named, "session/new") {
        let a = response(answer, Json::object().with("sessionId", Json::text("sess-1")));
        let ghost shown = a@;
        out.push(a);
        assert(out.deep_view() =~= seq![shown]);
    } else if known && same(named, "session/prompt") {
        let hello = Json::object().with("jsonrpc", Json::text("2.0")).with(
            "method",
            Json::text("session/updated"),
        ).with(
            "params",
            Json::object().with(
                "update",
                Json::object().with("sessionUpdate", Json::text("agent_message_chunk")).with(
                    "content",
                    Json::object().with("text", Json::text("Hello, world!")),
                ),
            ),
        );
        let a = response(
            answer,
            Json::object().with("stopReason", Json::text("end_turn")).with(
                "usage",
                Json::object().with("inputTokens", Json::number(1)).with(
                    "outputTokens",
                    Json::number(5),
                ).with("totalTokens", Json::number(6)),
            ),
        );
        let ghost shown = seq![hello@, a@];
        out.push(hello);
        out.push(a);
        assert(out.deep_view() =~= shown);
    } else {
        match id {
            Some(n) => {
                let mut why = "oab_acp_stub_agent does not model ".to_owned();
                why.append(named);
                let e = error(n, -32601, why.as_str());
                let ghost shown = e@;
                out.push(e);
                assert(out.deep_view() =~= seq![shown]);
            },
            None => {},
        }
    }
    out
}

/// Whether a method is one that the agent models.
pub open spec fn is_modelled(method: Option<Seq<char>>) -> bool {
    method == Some("initialize"@) || method == Some("session/new"@) || method == Some(
        "session/prompt"@,
    )
}

/// Every message with an id is answered, and so is one whose method is
/// modelled. A notification that is not modelled never is.
pub proof fn law_requests_are_answered(m: JsonView)
    ensures
        request_id(m) is Some ==> replies(m).len() > 0,
        is_modelled(text_in(Some(m), "method"@)) ==> replies(m).len() > 0,
        request_id(m) is None && !is_modelled(text_in(Some(m), "method"@)) ==> replies(m).len()
            == 0,
{
}

/// What a line is answered: nothing, where it is no JSON.
pub open spec fn line_replies(line: Seq<char>) -> Seq<JsonView> {
    if trimmed(line).len() == 0 {
        seq![]
    } else {
        match parsed_json(trimmed(line)) {
            Some(m) => replies(m),
            None => seq![],
        }
    }
}

/// What a line is answered.
pub fn line_answers(line: &str) -> (r: Vec<Json>)
    ensures
        r.deep_view() == line_replies(line@),
{
    let t = trim(line);
    if !t.is_empty() {
        match parse_json(t) {
            Some(m) => {
                return stub_replies(&m);
            },
            None => {},
        }
    }
    let none: Vec<Json> = Vec::new();
    assert(none.deep_view() =~= seq![]);
    none
}

/// The last reply to a request bears its id: a result, where its method is
/// modelled, and otherwise an error that is for an unknown method.
pub proof fn law_replies_bear_the_id(m: JsonView, id: u64)
    requires
        get_of(Some(m), "id"@) == Some(JsonView::Number(NumberView::Unsigned(id))),
    ensures
        replies(m).len() > 0,
        replies(m).last().get("id"@) == Some(JsonView::Number(NumberView::Unsigned(id))),
        is_modelled(text_in(Some(m), "method"@)) <==> replies(m).last().get("result"@) is Some,
        is_modelled(text_in(Some(m), "method"@)) <==> replies(m).last().get("error"@) is None,
{
    broadcast use law_added_member_is_found;

    reveal_strlit("jsonrpc");
    reveal_strlit("id");
    reveal_strlit("result");
    reveal_strlit("error");
    assert("jsonrpc"@.len() == 7 && "id"@.len() == 2 && "result"@.len() == 6 && "error"@.len()
        == 5);
}

/// A prompt is answered with the greeting first, and then with its end.
pub proof fn law_prompts_are_greeted(m: JsonView)
    requires
        text_in(Some(m), "method"@) == Some("session/prompt"@),
    ensures
        replies(m).len() == 2,
        replies(m)[0].get("method"@) == Some(JsonView::Text("session/updated"@)),
        ({
            let update = get_of(replies(m)[0].get("params"@), "update"@);
            &&& text_in(update, "sessionUpdate"@) == Some("agent_message_chunk"@)
            &&& text_in(get_of(update, "content"@), "text"@) == Some("Hello, world!"@)
        }),
        text_in(replies(m)[1].get("result"@), "stopReason"@) == Some("end_turn"@),
{
    broadcast use law_added_member_is_found;

    reveal_strlit("initialize");
    reveal_strlit("session/new");
    reveal_strlit("session/prompt");
    reveal_strlit("jsonrpc");
    reveal_strlit("id");
    reveal_strlit("result");
    reveal_strlit("method");
    reveal_strlit("params");
    reveal_strlit("update");
    reveal_strlit("sessionUpdate");
    reveal_strlit("content");
    reveal_strlit("stopReason");
    reveal_strlit("usage");
    assert("initialize"@.len() == 10 && "session/new"@.len() == 11 && "session/prompt"@.len() == 14);
    assert("jsonrpc"@.len() == 7 && "id"@.len() == 2 && "result"@.len() == 6);
    assert("method"@.len() == 6 && "params"@.len() == 6 && "method"@[0] == 'm' && "params"@[0]
        == 'p' && "result"@[0] == 'r');
    assert("sessionUpdate"@.len() == 13 && "content"@.len() == 7);
    assert("stopReason"@.len() == 10 && "usage"@.len() == 5);
}

/// A blank line is answered nothing, and any other what the message in it is.
pub proof fn law_lines_are_read(line: Seq<char>, m: JsonView)
    ensures
        trimmed(line).len() == 0 ==> line_replies(line).len() == 0,
        trimmed(line).len() > 0 && parsed_json(trimmed(line)) == Some(m) ==> line_replies(line)
            == replies(m),
        trimmed(line).len() > 0 && parsed_json(trimmed(line)) is None ==> line_replies(line).len()
            == 0,
{
}

} // verus!
