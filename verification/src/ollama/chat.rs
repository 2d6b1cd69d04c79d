//! Conversations with a model.

use crate::agy::sessions::Sessions;
use crate::ids::fresh_uuid;
use crate::ids::is_uuid;
use crate::ollama::stream::StreamChunk;
use crate::text::holds;
use crate::text::join;
use crate::text::joined;
use crate::text::law_joining_appends;
use crate::text::lemma_holds_between;
use crate::text::same;
use crate::value::Json;
use crate::value::JsonView;
use crate::value::NumberView;
use crate::value::get_of;
use crate::value::integer_view;
use crate::value::law_added_member_is_found;
use crate::value::maybe_json;
use crate::value::text_in;
use vstd::prelude::*;
use vstd::string::*;

verus! {

/// Where the model server is, and which model answers.
#[derive(Debug, PartialEq, Eq)]
pub struct OllamaConfig {
    pub base_url: String,
    pub model: String,
    pub api_key: String,
}

/// The first of two values that is set, or a third.
pub open spec fn first_set(
    own: Option<Seq<char>>,
    shared: Option<Seq<char>>,
    other: Seq<char>,
) -> Seq<char> {
    match own {
        Some(v) => v,
        None => match shared {
            Some(v) => v,
            None => other,
        },
    }
}

fn choose_set(own: Option<String>, shared: Option<String>, other: &str) -> (r: String)
    ensures
        r@ == first_set(own.deep_view(), shared.deep_view(), other@),
{
    match own {
        Some(v) => v,
        None => match shared {
            Some(v) => v,
            None => other.to_owned(),
        },
    }
}

/// What a setting's own variable holds, and what the shared one does.
#[derive(Debug, PartialEq, Eq)]
pub struct Setting {
    pub own: Option<String>,
    pub shared: Option<String>,
}

impl OllamaConfig {
    /// The configuration, given what `OLLAMA_BASE_URL`, `OLLAMA_MODEL` and
    /// `OLLAMA_API_KEY` hold, and their namesakes that start with `LLM`.
    pub fn from_env(base_url: Setting, model: Setting, api_key: Setting) -> (r: Self)
        ensures
            r.base_url@ == first_set(
                base_url.own.deep_view(),
                base_url.shared.deep_view(),
                "http://localhost:11434/v1"@,
            ),
            r.model@ == first_set(
                model.own.deep_view(),
                model.shared.deep_view(),
                "gemma4:26b"@,
            ),
            r.api_key@ == first_set(
                api_key.own.deep_view(),
                api_key.shared.deep_view(),
                "ollama"@,
            ),
    {
        OllamaConfig {
            base_url: choose_set(base_url.own, base_url.shared, "http://localhost:11434/v1"),
            model: choose_set(model.own, model.shared, "gemma4:26b"),
            api_key: choose_set(api_key.own, api_key.shared, "ollama"),
        }
    }

    /// Where chats go.
    pub fn chat_url(&self) -> (r: String)
        ensures
            r@ == self.base_url@ + "/chat/completions"@,
    {
        let mut u = self.base_url.clone();
        u.append("/chat/completions");
        u
    }

    /// What the model server is asked.
    pub fn chat_request(&self, messages: Vec<Json>) -> (r: Json)
        ensures
            r@ == JsonView::empty_object().with("model"@, JsonView::Text(self.model@)).with(
                "messages"@,
                JsonView::Array(messages.deep_view()),
            ).with("stream"@, JsonView::Bool(true)),
    {
        Json::object().with("model", Json::text(self.model.as_str())).with(
            "messages",
            Json::array(messages),
        ).with("stream", Json::Bool(true))
    }
}

/// Why a response is no answer, given its status line and the reason in it.
pub fn http_error_text(status: &str, reason: Option<&str>) -> (r: String)
    ensures
        r@ == "Ollama HTTP "@ + status@ + ": "@ + (match reason {
            Some(w) => w@,
            None => "Unknown error"@,
        }),
{
    let mut t = "Ollama HTTP ".to_owned();
    t.append(status);
    t.append(": ");
    match reason {
        Some(w) => t.append(w),
        None => t.append("Unknown error"),
    }
    t
}

/// An answer.
pub open spec fn response_json(id: u64, result: JsonView) -> JsonView {
    JsonView::empty_object().with("jsonrpc"@, JsonView::Text("2.0"@)).with(
        "id"@,
        JsonView::Number(NumberView::Unsigned(id)),
    ).with("result"@, result)
}

/// An error.
pub open spec fn error_json(id: u64, code: int, message: Seq<char>) -> JsonView {
    JsonView::empty_object().with("jsonrpc"@, JsonView::Text("2.0"@)).with(
        "id"@,
        JsonView::Number(NumberView::Unsigned(id)),
    ).with(
        "error"@,
        JsonView::empty_object().with("code"@, JsonView::Number(integer_view(code as i64))).with(
            "message"@,
            JsonView::Text(message),
        ),
    )
}

/// A notification about a turn.
pub open spec fn notification_json(update: JsonView) -> JsonView {
    JsonView::empty_object().with("jsonrpc"@, JsonView::Text("2.0"@)).with(
        "method"@,
        JsonView::Text("session/notify"@),
    ).with("params"@, JsonView::empty_object().with("update"@, update))
}

/// An answer.
pub fn response(id: u64, result: Json) -> (r: Json)
    ensures
        r@ == response_json(id, result@),
{
    Json::object().with("jsonrpc", Json::text("2.0")).with("id", Json::number(id)).with(
        "result",
        result,
    )
}

/// An error.
pub fn error(id: u64, code: i64, message: &str) -> (r: Json)
    ensures
        r@ == error_json(id, code as int, message@),
{
    Json::object().with("jsonrpc", Json::text("2.0")).with("id", Json::number(id)).with(
        "error",
        Json::object().with("code", Json::integer(code)).with("message", Json::text(message)),
    )
}

fn notification(update: Json) -> (r: Json)
    ensures
        r@ == notification_json(update@),
{
    Json::object().with("jsonrpc", Json::text("2.0")).with("method", Json::text("session/notify")).with(
        "params",
        Json::object().with("update", update),
    )
}

/// A piece of the answer.
pub open spec fn text_update(text: Seq<char>) -> JsonView {
    notification_json(
        JsonView::empty_object().with(
            "sessionUpdate"@,
            JsonView::Text("agent_message_chunk"@),
        ).with("content"@, JsonView::empty_object().with("text"@, JsonView::Text(text))),
    )
}

/// That the model thinks.
pub open spec fn thinking_update() -> JsonView {
    notification_json(
        JsonView::empty_object().with("sessionUpdate"@, JsonView::Text("agent_thought_chunk"@)),
    )
}

/// That a tool starts.
pub open spec fn tool_start_update(title: Seq<char>) -> JsonView {
    notification_json(
        JsonView::empty_object().with("sessionUpdate"@, JsonView::Text("tool_call"@)).with(
            "title"@,
            JsonView::Text(title),
        ),
    )
}

/// That a tool is done.
pub open spec fn tool_done_update(title: Seq<char>, status: Seq<char>) -> JsonView {
    notification_json(
        JsonView::empty_object().with("sessionUpdate"@, JsonView::Text("tool_call_update"@)).with(
            "title"@,
            JsonView::Text(title),
        ).with("status"@, JsonView::Text(status)),
    )
}

/// A piece of the answer.
pub fn notify_text(text: &str) -> (r: Json)
    ensures
        r@ == text_update(text@),
{
    notification(
        Json::object().with("sessionUpdate", Json::text("agent_message_chunk")).with(
            "content",
            Json::object().with("text", Json::text(text)),
        ),
    )
}

/// That the model thinks.
pub fn notify_thinking() -> (r: Json)
    ensures
        r@ == thinking_update(),
{
    notification(Json::object().with("sessionUpdate", Json::text("agent_thought_chunk")))
}

/// That a tool starts.
pub fn notify_tool_start(title: &str) -> (r: Json)
    ensures
        r@ == tool_start_update(title@),
{
    notification(
        Json::object().with("sessionUpdate", Json::text("tool_call")).with(
            "title",
            Json::text(title),
        ),
    )
}

/// That a tool is done.
pub fn notify_tool_done(title: &str, status: &str) -> (r: Json)
    ensures
        r@ == tool_done_update(title@, status@),
{
    notification(
        Json::object().with("sessionUpdate", Json::text("tool_call_update")).with(
            "title",
            Json::text(title),
        ).with("status", Json::text(status)),
    )
}

/// A message of a conversation.
pub open spec fn message_json(role: Seq<char>, content: Seq<char>) -> JsonView {
    JsonView::empty_object().with("role"@, JsonView::Text(role)).with(
        "content"@,
        JsonView::Text(content),
    )
}

fn message(role: &str, content: &str) -> (r: Json)
    ensures
        r@ == message_json(role@, content@),
{
    Json::object().with("role", Json::text(role)).with("content", Json::text(content))
}

/// A conversation.
#[derive(Debug, PartialEq, Eq)]
pub struct Session {
    pub cwd: String,
    pub messages: Vec<Json>,
}

/// What a [`Session`] says.
#[verifier::ext_equal]
pub struct SessionView {
    pub cwd: Seq<char>,
    pub messages: Seq<JsonView>,
}

impl View for Session {
    type V = SessionView;

    open spec fn view(&self) -> SessionView {
        SessionView { cwd: self.cwd@, messages: self.messages.deep_view() }
    }
}

impl SessionView {
    /// With one more message.
    pub open spec fn with_message(self, role: Seq<char>, content: Seq<char>) -> SessionView {
        SessionView { messages: self.messages.push(message_json(role, content)), ..self }
    }

    /// With the question of a prompt.
    pub open spec fn asked(self, params: JsonView) -> SessionView {
        self.with_message("user"@, user_text(params))
    }

    /// With the answer of the model.
    pub open spec fn answered(self, answer: Seq<char>) -> SessionView {
        self.with_message("assistant"@, answer)
    }
}

fn copy_messages(messages: &Vec<Json>) -> (r: Vec<Json>)
    ensures
        r.deep_view() == messages.deep_view(),
{
    let mut out: Vec<Json> = Vec::new();
    let mut i: usize = 0;
    while i < messages.len()
        invariant
            i <= messages@.len(),
            out.deep_view() =~= messages.deep_view().take(i as int),
        decreases messages@.len() - i,
    {
        let ghost sofar = out.deep_view();
        let m = messages[i].clone();
        out.push(m);
        assert(out.deep_view() =~= sofar.push(messages@[i as int]@));
        i += 1;
    }
    assert(messages.deep_view().take(i as int) =~= messages.deep_view());
    out
}

fn with_message(s: &Session, role: &str, content: &str) -> (r: Session)
    ensures
        r@ == s@.with_message(role@, content@),
{
    let mut messages = copy_messages(&s.messages);
    let m = message(role, content);
    let ghost shown = m@;
    messages.push(m);
    assert(messages.deep_view() =~= s.messages.deep_view().push(shown));
    Session { cwd: s.cwd.clone(), messages }
}

/// The text of a prompt: its text blocks, one to a line.
pub open spec fn prompt_texts(blocks: Seq<JsonView>) -> Seq<Seq<char>>
    decreases blocks.len(),
{
    if blocks.len() == 0 {
        seq![]
    } else {
        let rest = prompt_texts(blocks.drop_last());
        let b = Some(blocks.last());
        match text_in(b, "text"@) {
            Some(t) => if text_in(b, "type"@) == Some("text"@) {
                rest.push(t)
            } else {
                rest
            },
            None => rest,
        }
    }
}

/// The text of a prompt.
pub open spec fn user_text(params: JsonView) -> Seq<char> {
    match get_of(Some(params), "prompt"@) {
        Some(JsonView::Array(blocks)) => joined(prompt_texts(blocks), "\n"@),
        _ => seq![],
    }
}

/// The text of a prompt.
pub fn user_text_of(params: &Json) -> (r: String)
    ensures
        r@ == user_text(params@),
{
    let blocks = match params.get("prompt") {
        Some(p) => match p.as_array() {
            Some(b) => b,
            None => {
                return String::new();
            },
        },
        None => {
            return String::new();
        },
    };
    let ghost all = blocks.deep_view();
    let mut texts: Vec<String> = Vec::new();
    let mut i: usize = 0;
    assert(all.take(0) =~= seq![]);
    assert(texts.deep_view() =~= seq![]);
    while i < blocks.len()
        invariant
            i <= blocks@.len(),
            all == blocks.deep_view(),
            texts.deep_view() == prompt_texts(all.take(i as int)),
        decreases blocks@.len() - i,
    {
        let ghost sofar = texts.deep_view();
        proof {
            assert(all.take(i + 1).drop_last() =~= all.take(i as int));
            assert(all.take(i + 1).last() == blocks@[i as int]@);
        }
        let is_text = match blocks[i].get_str("type") {
            Some(k) => same(k, "text"),
            None => false,
        };
        match blocks[i].get_str("text") {
            Some(t) => {
                if is_text {
                    texts.push(t.to_owned());
                    assert(texts.deep_view() =~= sofar.push(t@));
                }
            },
            None => {},
        }
        i += 1;
    }
    assert(all.take(i as int) =~= all);
    assert(texts.deep_view().skip(0) =~= texts.deep_view());
    join(&texts, 0, "\n")
}

/// What a conversation starts with.
pub open spec fn opening(cwd: Seq<char>, system_prompt: Option<Seq<char>>) -> SessionView {
    SessionView {
        cwd,
        messages: seq![
            message_json(
                "system"@,
                match system_prompt {
                    Some(p) => p,
                    None =>
                        "You are a helpful coding assistant. The user's working directory is: "@
                        + cwd,
                },
            ),
        ],
    }
}

/// A turn that is under way.
#[derive(Debug, PartialEq, Eq)]
pub struct Turn {
    pub session_id: String,
    /// What was answered so far.
    pub answer: String,
}

/// How a turn starts.
pub enum TurnStart {
    /// It does not: the error.
    Refused(Json),
    /// Write the notifications, and send the messages to the model server.
    Ask { turn: Turn, notifications: Vec<Json>, messages: Vec<Json> },
}

/// What the last turn wrote is said after a turn.
pub open spec fn turn_end(id: u64, status: Seq<char>) -> Seq<JsonView> {
    seq![
        tool_done_update("ollama_chat"@, status),
        response_json(id, JsonView::empty_object().with("status"@, JsonView::Text("completed"@))),
    ]
}

fn end_lines(id: u64, status: &str) -> (r: Vec<Json>)
    ensures
        r.deep_view() == turn_end(id, status@),
{
    let mut out: Vec<Json> = Vec::new();
    let done = notify_tool_done("ollama_chat", status);
    let answer = response(id, Json::object().with("status", Json::text("completed")));
    let ghost both = seq![done@, answer@];
    out.push(done);
    out.push(answer);
    assert(out.deep_view() =~= both);
    out
}

/// All conversations.
pub struct Chat {
    pub sessions: Sessions<Session>,
}

impl Chat {
    pub open spec fn wf(&self) -> bool {
        self.sessions.wf()
    }

    /// None yet.
    pub fn new() -> (r: Self)
        ensures
            r.wf(),
            r.sessions@ == Map::<Seq<char>, SessionView>::empty(),
    {
        Chat { sessions: Sessions::new() }
    }

    /// Who answers.
    pub fn handle_initialize(id: u64, config: &OllamaConfig) -> (r: Json)
        ensures
            r@ == response_json(
                id,
                JsonView::empty_object().with(
                    "agentInfo"@,
                    JsonView::empty_object().with(
                        "name"@,
                        JsonView::Text("ollama-acp ("@ + config.model@ + ")"@),
                    ).with("version"@, JsonView::Text("0.1.0"@)),
                ).with("capabilities"@, JsonView::empty_object()),
            ),
    {
        let mut name = "ollama-acp (".to_owned();
        name.append(config.model.as_str());
        name.append(")");
        response(
            id,
            Json::object().with(
                "agentInfo",
                Json::object().with("name", Json::text(name.as_str())).with(
                    "version",
                    Json::text("0.1.0"),
                ),
            ).with("capabilities", Json::object()),
        )
    }

    /// Opens a conversation under the given id. `system_prompt` is what
    /// `OLLAMA_SYSTEM_PROMPT` holds.
    pub fn open_session(
        &mut self,
        id: u64,
        params: &Json,
        system_prompt: Option<String>,
        session_id: &str,
    ) -> (r: Json)
        requires
            old(self).wf(),
        ensures
            final(self).wf(),
            final(self).sessions@ == old(self).sessions@.insert(
                session_id@,
                opening(
                    match text_in(Some(params@), "cwd"@) {
                        Some(c) => c,
                        None => "/tmp"@,
                    },
                    system_prompt.deep_view(),
                ),
            ),
            r@ == response_json(id, session_json(session_id@)),
    {
        let cwd = match params.get_str("cwd") {
            Some(c) => c,
            None => "/tmp",
        };
        let prompt = match system_prompt {
            Some(p) => p,
            None => {
                let mut p =
                    "You are a helpful coding assistant. The user's working directory is: ".to_owned();
                p.append(cwd);
                p
            },
        };
        let mut messages: Vec<Json> = Vec::new();
        let m = message("system", prompt.as_str());
        let ghost shown = m@;
        messages.push(m);
        assert(messages.deep_view() =~= seq![shown]);
        self.sessions.put(session_id, Session { cwd: cwd.to_owned(), messages });
        response(id, Json::object().with("sessionId", Json::text(session_id)))
    }

    /// Opens a conversation under a fresh id.
    pub fn handle_session_new(&mut self, id: u64, params: &Json, system_prompt: Option<String>) -> (r:
        Json)
        requires
            old(self).wf(),
        ensures
            final(self).wf(),
            exists|session_id: Seq<char>|
                is_uuid(session_id) && final(self).sessions@ == old(self).sessions@.insert(
                    session_id,
                    opening(
                        match text_in(Some(params@), "cwd"@) {
                            Some(c) => c,
                            None => "/tmp"@,
                        },
                        system_prompt.deep_view(),
                    ),
                ) && r@ == response_json(id, #[trigger] session_json(session_id)),
    {
        let session_id = fresh_uuid();
        self.open_session(id, params, system_prompt, session_id.as_str())
    }

    /// Starts a turn: the prompt joins the conversation, and the whole of it is
    /// sent.
    pub fn begin_session_prompt(&mut self, id: u64, params: &Json) -> (r: TurnStart)
        requires
            old(self).wf(),
        ensures
            final(self).wf(),
            match text_in(Some(params@), "sessionId"@) {
                None => {
                    &&& final(self).sessions@ == old(self).sessions@
                    &&& r matches TurnStart::Refused(e) && e@ == error_json(
                        id,
                        -32600,
                        "Missing sessionId"@,
                    )
                },
                Some(k) => if old(self).sessions@.contains_key(k) {
                    let asked = old(self).sessions@[k].asked(params@);
                    &&& final(self).sessions@ == old(self).sessions@.insert(k, asked)
                    &&& r matches TurnStart::Ask { turn, notifications, messages }
                        && turn.session_id@ == k && turn.answer@.len() == 0
                        && notifications.deep_view() == seq![
                        thinking_update(),
                        tool_start_update("ollama_chat"@),
                    ] && messages.deep_view() == asked.messages
                } else {
                    &&& final(self).sessions@ == old(self).sessions@
                    &&& r matches TurnStart::Refused(e) && e@ == error_json(
                        id,
                        -32600,
                        "Unknown session: "@ + k,
                    )
                },
            },
    {
        let session_id = match params.get_str("sessionId") {
            Some(s) => s,
            None => {
                return TurnStart::Refused(error(id, -32600, "Missing sessionId"));
            },
        };
        let text = user_text_of(params);
        let asked = match self.sessions.get(session_id) {
            Some(s) => with_message(s, "user", text.as_str()),
            None => {
                let mut why = "Unknown session: ".to_owned();
                why.append(session_id);
                return TurnStart::Refused(error(id, -32600, why.as_str()));
            },
        };
        let messages = copy_messages(&asked.messages);
        self.sessions.put(session_id, asked);
        let mut notifications: Vec<Json> = Vec::new();
        let thinking = notify_thinking();
        let start = notify_tool_start("ollama_chat");
        let ghost both = seq![thinking@, start@];
        notifications.push(thinking);
        notifications.push(start);
        assert(notifications.deep_view() =~= both);
        TurnStart::Ask {
            turn: Turn { session_id: session_id.to_owned(), answer: String::new() },
            notifications,
            messages,
        }
    }

    /// The end of a turn: what was answered joins the conversation.
    pub fn finish_session_prompt(&mut self, id: u64, turn: &Turn) -> (r: Vec<Json>)
        requires
            old(self).wf(),
        ensures
            final(self).wf(),
            final(self).sessions@ == (if turn.answer@.len() > 0 && old(
                self,
            ).sessions@.contains_key(turn.session_id@) {
                old(self).sessions@.insert(
                    turn.session_id@,
                    old(self).sessions@[turn.session_id@].answered(turn.answer@),
                )
            } else {
                old(self).sessions@
            }),
            r.deep_view() == turn_end(id, "completed"@),
    {
        if !turn.answer.as_str().is_empty() {
            let answered = match self.sessions.get(turn.session_id.as_str()) {
                Some(s) => Some(with_message(s, "assistant", turn.answer.as_str())),
                None => None,
            };
            match answered {
                Some(s) => self.sessions.put(turn.session_id.as_str(), s),
                None => {},
            }
        }
        end_lines(id, "completed")
    }
}

/// What is said of a conversation that was opened.
pub open spec fn session_json(session_id: Seq<char>) -> JsonView {
    JsonView::empty_object().with("sessionId"@, JsonView::Text(session_id))
}

/// What a piece of the answer makes of what was answered so far, what is
/// written for it, and whether the turn goes on.
pub open spec fn taken(answer: Seq<char>, chunk: StreamChunk) -> (
    Seq<char>,
    Option<JsonView>,
    bool,
) {
    match chunk {
        StreamChunk::Content(t) => (answer + t@, Some(text_update(t@)), true),
        StreamChunk::Error(e) => (
            answer,
            Some(text_update("\n\n**Error:** "@ + e@ + "\n"@)),
            true,
        ),
        StreamChunk::Done => (answer, None, false),
    }
}

impl Turn {
    /// Takes a piece of the answer: what is written, if anything, and whether
    /// the turn goes on.
    pub fn on_chunk(&mut self, chunk: &StreamChunk) -> (r: (Option<Json>, bool))
        ensures
            final(self).session_id == old(self).session_id,
            ({
                let took = taken(old(self).answer@, *chunk);
                &&& final(self).answer@ == took.0
                &&& maybe_json(r.0) == took.1
                &&& r.1 == took.2
            }),
    {
        match chunk {
            StreamChunk::Content(t) => {
                self.answer.append(t.as_str());
                (Some(notify_text(t.as_str())), true)
            },
            StreamChunk::Error(e) => {
                let mut text = "\n\n**Error:** ".to_owned();
                text.append(e.as_str());
                text.append("\n");
                (Some(notify_text(text.as_str())), true)
            },
            StreamChunk::Done => (None, false),
        }
    }
}

/// What is written where the model server could not be asked.
pub fn failed_session_prompt(id: u64, why: &str) -> (r: Vec<Json>)
    ensures
        r.deep_view() == seq![
            text_update("\n\n**Error communicating with Ollama:** "@ + why@ + "\n"@),
        ] + turn_end(id, "failed"@),
{
    let mut text = "\n\n**Error communicating with Ollama:** ".to_owned();
    text.append(why);
    text.append("\n");
    let mut out: Vec<Json> = Vec::new();
    let said = notify_text(text.as_str());
    let done = notify_tool_done("ollama_chat", "failed");
    let answer = response(id, Json::object().with("status", Json::text("completed")));
    let ghost all = seq![said@, done@, answer@];
    out.push(said);
    out.push(done);
    out.push(answer);
    assert(out.deep_view() =~= all);
    assert(out.deep_view() =~= seq![
        text_update("\n\n**Error communicating with Ollama:** "@ + why@ + "\n"@),
    ] + turn_end(id, "failed"@));
    out
}

/// After a whole turn, the conversation holds what was said before, the prompt
/// and the answer, in that order.
pub proof fn law_turn_extends_the_conversation(
    s: SessionView,
    question: Seq<char>,
    answer: Seq<char>,
)
    ensures
        s.with_message("user"@, question).with_message("assistant"@, answer).messages
            == s.messages + seq![
            message_json("user"@, question),
            message_json("assistant"@, answer),
        ],
{
    assert(s.with_message("user"@, question).with_message("assistant"@, answer).messages
        =~= s.messages + seq![
        message_json("user"@, question),
        message_json("assistant"@, answer),
    ]);
}

/// What a request asks for.
#[derive(Debug, PartialEq, Eq)]
pub enum Route {
    Initialize,
    NewSession,
    Prompt,
    /// The error that it is answered.
    Unknown(Json),
}

/// What a request asks for.
pub fn route(id: u64, method: &str) -> (r: Route)
    ensures
        if method@ == "initialize"@ {
            r is Initialize
        } else if method@ == "session/new"@ {
            r is NewSession
        } else if method@ == "session/prompt"@ {
            r is Prompt
        } else {
            r matches Route::Unknown(e) && e@ == error_json(
                id,
                -32601,
                "Method not found: "@ + method@,
            )
        },
{
    if same(method, "initialize") {
        Route::Initialize
    } else if same(method, "session/new") {
        Route::NewSession
    } else if same(method, "session/prompt") {
        Route::Prompt
    } else {
        let mut why = "Method not found: ".to_owned();
        why.append(method);
        Route::Unknown(error(id, -32601, why.as_str()))
    }
}

/// Whether a block of a prompt is text, and which.
pub open spec fn is_text_block(b: JsonView, text: Seq<char>) -> bool {
    b.text_of("type"@) == Some("text"@) && b.text_of("text"@) == Some(text)
}

/// The texts of a prompt are those of its parts, one after the other: nothing
/// that came before is lost or moved by what follows.
pub proof fn law_prompt_texts_follow_the_blocks(a: Seq<JsonView>, b: Seq<JsonView>)
    ensures
        prompt_texts(a + b) == prompt_texts(a) + prompt_texts(b),
    decreases b.len(),
{
    if b.len() == 0 {
        assert(a + b =~= a);
        assert(prompt_texts(a) + prompt_texts(b) =~= prompt_texts(a));
    } else {
        assert((a + b).drop_last() =~= a + b.drop_last());
        assert((a + b).last() == b.last());
        law_prompt_texts_follow_the_blocks(a, b.drop_last());
        let front = prompt_texts(a);
        let rest = prompt_texts(b.drop_last());
        match b.last().text_of("text"@) {
            Some(t) => assert((front + rest).push(t) =~= front + rest.push(t)),
            None => {},
        }
    }
}

/// A prompt of text blocks has as many parts as blocks, and the part at each
/// place is the text of the block at that place.
pub proof fn law_every_text_block_is_a_part(blocks: Seq<JsonView>, texts: Seq<Seq<char>>)
    requires
        blocks.len() == texts.len(),
        forall|i: int| 0 <= i < blocks.len() ==> is_text_block(#[trigger] blocks[i], texts[i]),
    ensures
        prompt_texts(blocks) == texts,
    decreases blocks.len(),
{
    if blocks.len() > 0 {
        let (front, last) = (blocks.drop_last(), texts.drop_last());
        assert forall|i: int| 0 <= i < front.len() implies is_text_block(
            #[trigger] front[i],
            last[i],
        ) by {
            assert(front[i] == blocks[i]);
        }
        law_every_text_block_is_a_part(front, last);
        assert(is_text_block(blocks[blocks.len() - 1], texts[texts.len() - 1]));
        assert(last.push(texts.last()) =~= texts);
    } else {
        assert(texts =~= seq![]);
    }
}

/// A block that is no text adds nothing to a prompt.
pub proof fn law_other_blocks_add_nothing(blocks: Seq<JsonView>, b: JsonView)
    requires
        b.text_of("type"@) != Some("text"@) || b.text_of("text"@) is None,
    ensures
        prompt_texts(blocks.push(b)) == prompt_texts(blocks),
{
    assert(blocks.push(b).drop_last() =~= blocks);
}

/// What the model is asked is the texts of the prompt in their order with line
/// breaks between them: one more text block adds a line break and its text.
pub proof fn law_question_grows_by_a_line(
    params: JsonView,
    more: JsonView,
    blocks: Seq<JsonView>,
    b: JsonView,
    text: Seq<char>,
)
    requires
        params.get("prompt"@) == Some(JsonView::Array(blocks)),
        more.get("prompt"@) == Some(JsonView::Array(blocks.push(b))),
        is_text_block(b, text),
    ensures
        user_text(more) == (if prompt_texts(blocks).len() == 0 {
            text
        } else {
            user_text(params) + "\n"@ + text
        }),
{
    assert(blocks.push(b).drop_last() =~= blocks);
    law_joining_appends(prompt_texts(blocks), text, "\n"@);
}

/// A prompt without blocks asks nothing.
pub proof fn law_no_blocks_no_question(params: JsonView)
    requires
        !(params.get("prompt"@) matches Some(JsonView::Array(_))),
    ensures
        user_text(params).len() == 0,
{
}

/// A message reads as it was said, after all that was said before it.
pub proof fn law_message_is_kept_as_said(s: SessionView, role: Seq<char>, content: Seq<char>)
    ensures
        ({
            let t = s.with_message(role, content);
            &&& t.cwd == s.cwd
            &&& t.messages.len() == s.messages.len() + 1
            &&& t.messages.take(s.messages.len() as int) == s.messages
            &&& t.messages.last().text_of("role"@) == Some(role)
            &&& t.messages.last().text_of("content"@) == Some(content)
        }),
{
    broadcast use law_added_member_is_found;

    reveal_strlit("role");
    reveal_strlit("content");
    assert("role"@.len() != "content"@.len());
    let t = s.with_message(role, content);
    assert(t.messages.take(s.messages.len() as int) =~= s.messages);
}

/// A conversation starts with one message of the system: the operator's prompt
/// where there is one, else one that names the working directory.
pub proof fn law_conversation_starts_with_the_system(
    cwd: Seq<char>,
    system_prompt: Option<Seq<char>>,
)
    ensures
        ({
            let s = opening(cwd, system_prompt);
            &&& s.cwd == cwd
            &&& s.messages.len() == 1
            &&& s.messages[0].text_of("role"@) == Some("system"@)
            &&& s.messages[0].text_of("content"@) matches Some(c) && match system_prompt {
                Some(p) => c == p,
                None => holds(c, cwd),
            }
        }),
{
    broadcast use law_added_member_is_found;

    reveal_strlit("role");
    reveal_strlit("content");
    assert("role"@.len() != "content"@.len());
    let head = "You are a helpful coding assistant. The user's working directory is: "@;
    lemma_holds_between(head, cwd, seq![]);
    assert(head + cwd + Seq::<char>::empty() =~= head + cwd);
}

/// What a client reads of a notification.
pub open spec fn update_in(n: JsonView) -> Option<JsonView> {
    get_of(n.get("params"@), "update"@)
}

/// A notification of text carries exactly that text, as a piece of the message.
pub proof fn law_text_reaches_the_client(text: Seq<char>)
    ensures
        text_in(update_in(text_update(text)), "sessionUpdate"@) == Some("agent_message_chunk"@),
        text_in(get_of(update_in(text_update(text)), "content"@), "text"@) == Some(text),
        text_update(text).get("id"@) is None,
        text_update(text).text_of("jsonrpc"@) == Some("2.0"@),
        text_update(text).text_of("method"@) == Some("session/notify"@),
{
    lemma_notification_members();
    broadcast use law_added_member_is_found;

    reveal_strlit("sessionUpdate");
    reveal_strlit("content");
    assert("sessionUpdate"@.len() != "content"@.len());
}

proof fn lemma_notification_members()
    ensures
        forall|u: JsonView| #[trigger] update_in(notification_json(u)) == Some(u),
        forall|u: JsonView| (#[trigger] notification_json(u)).get("id"@) is None,
        forall|u: JsonView|
            (#[trigger] notification_json(u)).text_of("jsonrpc"@) == Some("2.0"@)
                && notification_json(u).text_of("method"@) == Some("session/notify"@),
{
    broadcast use law_added_member_is_found;

    reveal_strlit("jsonrpc");
    reveal_strlit("method");
    reveal_strlit("params");
    reveal_strlit("update");
    reveal_strlit("id");
    assert("jsonrpc"@.len() == 7 && "id"@.len() == 2);
    assert("method"@[0] == 'm' && "params"@[0] == 'p');
    assert forall|u: JsonView| #[trigger] update_in(notification_json(u)) == Some(u) by {}
}

/// A tool is told to start, and to be done, under its title, and its end tells
/// how it ended.
pub proof fn law_tool_is_told_under_its_title(title: Seq<char>, status: Seq<char>)
    ensures
        text_in(update_in(tool_start_update(title)), "sessionUpdate"@) == Some("tool_call"@),
        text_in(update_in(tool_start_update(title)), "title"@) == Some(title),
        text_in(update_in(tool_done_update(title, status)), "sessionUpdate"@) == Some(
            "tool_call_update"@,
        ),
        text_in(update_in(tool_done_update(title, status)), "title"@) == Some(title),
        text_in(update_in(tool_done_update(title, status)), "status"@) == Some(status),
        text_in(update_in(thinking_update()), "sessionUpdate"@) == Some("agent_thought_chunk"@),
{
    lemma_notification_members();
    broadcast use law_added_member_is_found;

    reveal_strlit("sessionUpdate");
    reveal_strlit("title");
    reveal_strlit("status");
    assert("sessionUpdate"@.len() == 13 && "title"@.len() == 5 && "status"@.len() == 6);
}

/// An answer has the id of its request and its result, and no error; an error
/// has the id, the code and the message, and no result.
pub proof fn law_answers_carry_the_id(
    id: u64,
    result: JsonView,
    code: i64,
    message: Seq<char>,
)
    ensures
        response_json(id, result).get("id"@) == Some(JsonView::Number(NumberView::Unsigned(id))),
        response_json(id, result).get("result"@) == Some(result),
        response_json(id, result).get("error"@) is None,
        response_json(id, result).text_of("jsonrpc"@) == Some("2.0"@),
        error_json(id, code as int, message).text_of("jsonrpc"@) == Some("2.0"@),
        error_json(id, code as int, message).get("id"@) == Some(
            JsonView::Number(NumberView::Unsigned(id)),
        ),
        error_json(id, code as int, message).get("result"@) is None,
        text_in(error_json(id, code as int, message).get("error"@), "message"@) == Some(message),
        get_of(error_json(id, code as int, message).get("error"@), "code"@) == Some(
            JsonView::Number(
                if code >= 0 {
                    NumberView::Unsigned(code as u64)
                } else {
                    NumberView::Negative(code)
                },
            ),
        ),
{
    broadcast use law_added_member_is_found;

    reveal_strlit("jsonrpc");
    reveal_strlit("id");
    reveal_strlit("result");
    reveal_strlit("error");
    reveal_strlit("code");
    reveal_strlit("message");
    assert("jsonrpc"@.len() == 7 && "id"@.len() == 2 && "result"@.len() == 6 && "error"@.len() == 5);
    assert("code"@.len() != "message"@.len());
}

/// A turn ends with the end of the tool call, told with its status, and then
/// with the answer to the request that began it.
pub proof fn law_turn_ends_with_its_answer(id: u64, status: Seq<char>)
    ensures
        turn_end(id, status).len() == 2,
        text_in(update_in(turn_end(id, status)[0]), "status"@) == Some(status),
        text_in(update_in(turn_end(id, status)[0]), "sessionUpdate"@) == Some(
            "tool_call_update"@,
        ),
        turn_end(id, status)[1].get("id"@) == Some(JsonView::Number(NumberView::Unsigned(id))),
        text_in(turn_end(id, status)[1].get("result"@), "status"@) == Some("completed"@),
{
    law_tool_is_told_under_its_title("ollama_chat"@, status);
    let result = JsonView::empty_object().with("status"@, JsonView::Text("completed"@));
    law_answers_carry_the_id(id, result, 0, seq![]);
    broadcast use law_added_member_is_found;

}

/// A setting's own variable counts before the shared one, and either before
/// what is usual.
pub proof fn law_own_setting_counts_first(v: Seq<char>, w: Option<Seq<char>>, usual: Seq<char>)
    ensures
        first_set(Some(v), w, usual) == v,
        first_set(None, Some(v), usual) == v,
        first_set(None, None, usual) == usual,
{
}

/// What the client reads of a line, if it is a piece of the message.
pub open spec fn shown_text(line: Option<JsonView>) -> Option<Seq<char>> {
    match line {
        Some(n) => text_in(get_of(update_in(n), "content"@), "text"@),
        None => None,
    }
}

/// A piece of the answer is shown as it came and joins what was answered; an
/// error is shown and does not; and only the end ends the turn.
pub proof fn law_answer_is_what_was_shown(answer: Seq<char>, chunk: StreamChunk)
    ensures
        match chunk {
            StreamChunk::Content(t) => {
                &&& shown_text(taken(answer, chunk).1) == Some(t@)
                &&& taken(answer, chunk).0 == answer + t@
            },
            StreamChunk::Error(e) => {
                &&& shown_text(taken(answer, chunk).1) matches Some(s) && holds(s, e@)
                &&& taken(answer, chunk).0 == answer
            },
            StreamChunk::Done => taken(answer, chunk).1 is None && taken(answer, chunk).0 == answer,
        },
        taken(answer, chunk).2 <==> !(chunk is Done),
{
    match chunk {
        StreamChunk::Content(t) => {
            law_text_reaches_the_client(t@);
        },
        StreamChunk::Error(e) => {
            law_text_reaches_the_client("\n\n**Error:** "@ + e@ + "\n"@);
            lemma_holds_between("\n\n**Error:** "@, e@, "\n"@);
        },
        StreamChunk::Done => {},
    }
}

/// The model is sent the conversation with the prompt's text as the user's last
/// word, and what it answered is kept as the assistant's.
pub proof fn law_question_and_answer_have_their_roles(
    s: SessionView,
    params: JsonView,
    answer: Seq<char>,
)
    ensures
        s.asked(params).messages.last().text_of("role"@) == Some("user"@),
        s.asked(params).messages.last().text_of("content"@) == Some(user_text(params)),
        s.asked(params).messages.drop_last() == s.messages,
        s.answered(answer).messages.last().text_of("role"@) == Some("assistant"@),
        s.answered(answer).messages.last().text_of("content"@) == Some(answer),
        s.answered(answer).messages.drop_last() == s.messages,
{
    law_message_is_kept_as_said(s, "user"@, user_text(params));
    law_message_is_kept_as_said(s, "assistant"@, answer);
    assert(s.asked(params).messages.drop_last() =~= s.messages);
    assert(s.answered(answer).messages.drop_last() =~= s.messages);
}

/// A conversation that was opened is named to the client as it is held.
pub proof fn law_conversation_is_named(session_id: Seq<char>)
    ensures
        session_json(session_id).text_of("sessionId"@) == Some(session_id),
{
    broadcast use law_added_member_is_found;

}

} // verus!
