//! Turns what a conversation gained since the last look into updates.

use crate::agy::narration::is_narration;
use crate::agy::narration::narrates;
use crate::agy::protobuf::extract_text_from_step_payload;
use crate::agy::protobuf::extract_tool_from_step_payload;
use crate::agy::protobuf::is_tool_step;
use crate::agy::protobuf::is_tool_step_type;
use crate::agy::protobuf::step_text;
use crate::agy::protobuf::tool_step;
use crate::encoding::byte_len;
use crate::encoding::char_len;
use crate::encoding::lemma_utf8_len_add;
use crate::encoding::lemma_utf8_len_push;
use crate::encoding::len_utf8;
use crate::encoding::utf8_len;
use crate::table::Table;
use crate::text::all_digits;
use crate::text::chars_of;
use crate::text::decimal;
use crate::text::first_chars;
use crate::text::is_digit;
use crate::text::law_decimal_reads_back;
use crate::text::law_decimals_differ;
use crate::text::law_first_characters_are_a_prefix;
use crate::text::same;
use crate::text::signed_decimal;
use crate::text::signed_decimal_text;
use crate::text::string_of;
use crate::text::take_chars;
use crate::value::Json;
use crate::value::JsonView;
use crate::value::get_of;
use crate::value::json_view;
use crate::value::law_added_member_is_found;
use crate::value::maybe_json;
use crate::value::text_in;
use vstd::prelude::*;
use vstd::string::*;

verus! {

/// The only name among `after` that is not among `before`.
pub open spec fn only_new(before: Seq<Seq<char>>, after: Seq<Seq<char>>, name: Seq<char>) -> bool {
    &&& after.contains(name)
    &&& !before.contains(name)
    &&& forall|i: int|
        0 <= i < after.len() && !before.contains(#[trigger] after[i]) ==> after[i] == name
}

fn listed(names: &Vec<String>, name: &str) -> (r: bool)
    ensures
        r == names.deep_view().contains(name@),
{
    let ghost all = names.deep_view();
    let mut i: usize = 0;
    while i < names.len()
        invariant
            i <= names@.len(),
            all == names.deep_view(),
            forall|k: int| 0 <= k < i ==> all[k] != name@,
        decreases names@.len() - i,
    {
        if same(names[i].as_str(), name) {
            assert(all[i as int] == name@);
            return true;
        }
        i += 1;
    }
    false
}

/// The name of a file without its extension, where it is this one.
pub open spec fn stem(name: Seq<char>, extension: Seq<char>) -> Option<Seq<char>> {
    let n = name.len() - extension.len() - 1;
    if n > 0 && name.skip(n) == "."@ + extension {
        Some(name.take(n))
    } else {
        None
    }
}

/// The names of the files with this extension, without it.
pub open spec fn stems(names: Seq<Seq<char>>, extension: Seq<char>) -> Seq<Seq<char>>
    decreases names.len(),
{
    if names.len() == 0 {
        seq![]
    } else {
        let rest = stems(names.drop_last(), extension);
        match stem(names.last(), extension) {
            Some(s) => rest.push(s),
            None => rest,
        }
    }
}

fn stem_of(name: &str, extension: &str) -> (r: Option<String>)
    ensures
        r.deep_view() == stem(name@, extension@),
{
    let cs = chars_of(name);
    let m: usize = extension.unicode_len();
    if cs.len() < 2 || cs.len() - 2 < m {
        return None;
    }
    let n: usize = cs.len() - 1 - m;
    let mut ending = ".".to_owned();
    ending.append(extension);
    let tail = string_of(&cs, n, cs.len());
    assert(tail@ =~= name@.skip(n as int));
    if same(tail.as_str(), ending.as_str()) {
        let front = string_of(&cs, 0, n);
        assert(front@ =~= name@.take(n as int));
        Some(front)
    } else {
        None
    }
}

/// The conversations among the files of a directory: those with the given
/// extension.
pub fn conversation_ids(names: &Vec<String>, extension: &str) -> (r: Vec<String>)
    ensures
        r.deep_view() == stems(names.deep_view(), extension@),
{
    let ghost all = names.deep_view();
    let mut out: Vec<String> = Vec::new();
    let mut i: usize = 0;
    assert(all.take(0) =~= seq![]);
    assert(out.deep_view() =~= seq![]);
    while i < names.len()
        invariant
            i <= names@.len(),
            all == names.deep_view(),
            out.deep_view() == stems(all.take(i as int), extension@),
        decreases names@.len() - i,
    {
        let ghost sofar = out.deep_view();
        proof {
            assert(all.take(i + 1).drop_last() =~= all.take(i as int));
            assert(all.take(i + 1).last() == names@[i as int]@);
        }
        match stem_of(names[i].as_str(), extension) {
            Some(s) => {
                out.push(s);
                assert(out.deep_view() =~= sofar.push(s@));
            },
            None => {},
        }
        i += 1;
    }
    assert(all.take(i as int) =~= all);
    out
}

/// The conversation that appeared between two looks, if exactly one did.
pub fn new_conversation_id(before: &Vec<String>, after: &Vec<String>) -> (r: Option<String>)
    ensures
        match r {
            Some(n) => only_new(before.deep_view(), after.deep_view(), n@),
            None => forall|n: Seq<char>| !only_new(before.deep_view(), after.deep_view(), n),
        },
{
    let ghost old_names = before.deep_view();
    let ghost all = after.deep_view();
    let mut found: Option<usize> = None;
    let mut i: usize = 0;
    while i < after.len()
        invariant
            i <= after@.len(),
            all == after.deep_view(),
            old_names == before.deep_view(),
            match found {
                Some(k) => k < i && !old_names.contains(all[k as int]) && forall|j: int|
                    0 <= j < i && !old_names.contains(#[trigger] all[j]) ==> all[j]
                        == all[k as int],
                None => forall|j: int| 0 <= j < i ==> old_names.contains(#[trigger] all[j]),
            },
        decreases after@.len() - i,
    {
        let name = after[i].as_str();
        assert(name@ == all[i as int]);
        if !listed(before, name) {
            match found {
                Some(k) => {
                    if !same(after[k].as_str(), name) {
                        proof {
                            assert forall|n: Seq<char>| !only_new(old_names, all, n) by {
                                assert(all[k as int] != all[i as int]);
                            }
                        }
                        return None;
                    }
                },
                None => {
                    found = Some(i);
                },
            }
        }
        i += 1;
    }
    match found {
        Some(k) => {
            assert(all.contains(all[k as int]));
            Some(after[k].clone())
        },
        None => {
            proof {
                assert forall|n: Seq<char>| !only_new(old_names, all, n) by {
                    if all.contains(n) {
                        let j = all.index_of(n);
                        assert(old_names.contains(all[j]));
                    }
                }
            }
            None
        },
    }
}

/// What is left of `s` after its first `n` bytes; nothing when they end inside
/// a character or beyond the end.
pub open spec fn after_bytes(s: Seq<char>, n: int) -> Option<Seq<char>>
    decreases s.len(),
{
    if n == 0 {
        Some(s)
    } else if s.len() == 0 || char_len(s[0]) > n {
        None
    } else {
        after_bytes(s.skip(1), n - char_len(s[0]))
    }
}

/// What is left of `s` after its first `n` bytes.
pub fn skip_bytes(s: &str, n: usize) -> (r: Option<String>)
    ensures
        r.deep_view() == after_bytes(s@, n as int),
{
    let cs = chars_of(s);
    let mut i: usize = 0;
    let mut left: usize = n;
    assert(s@.skip(0) =~= s@);
    while left > 0
        invariant
            cs@ == s@,
            i <= cs@.len(),
            after_bytes(s@, n as int) == after_bytes(s@.skip(i as int), left as int),
        decreases cs@.len() - i,
    {
        if i >= cs.len() {
            return None;
        }
        let w: usize = len_utf8(cs[i]);
        assert(s@.skip(i as int)[0] == cs@[i as int]);
        if w > left {
            return None;
        }
        assert(s@.skip(i as int).skip(1) =~= s@.skip(i + 1));
        left = left - w;
        i += 1;
    }
    let out = string_of(&cs, i, cs.len());
    assert(out@ =~= s@.skip(i as int));
    Some(out)
}

/// Text that grew is cut exactly where it ended before.
pub proof fn law_growth_is_cut_exactly(before: Seq<char>, more: Seq<char>)
    ensures
        after_bytes(before + more, utf8_len(before) as int) == Some(more),
    decreases before.len(),
{
    if before.len() == 0 {
        assert(before + more =~= more);
        assert(utf8_len(before) == 0);
    } else {
        let (c, rest) = (before[0], before.skip(1));
        assert(before =~= seq![c] + rest);
        lemma_utf8_len_add(seq![c], rest);
        lemma_utf8_len_push(seq![], c);
        assert(Seq::<char>::empty().push(c) =~= seq![c]);
        assert((before + more)[0] == c);
        assert((before + more).skip(1) =~= rest + more);
        law_growth_is_cut_exactly(rest, more);
    }
}

/// How far the updates of a prompt have come.
pub struct StreamingState {
    pub conversation_id: Option<String>,
    pub base_step_idx: i64,
    pub last_step_idx: i64,
    /// How many bytes of each step were sent.
    pub emitted_len: Table<i64, usize>,
    /// The tool steps that were sent.
    pub emitted_tool_steps: Table<i64, ()>,
    pub had_updates: bool,
}

/// What a [`StreamingState`] says.
#[verifier::ext_equal]
pub struct StreamView {
    pub conversation_id: Option<Seq<char>>,
    pub base_step_idx: i64,
    pub last_step_idx: i64,
    pub emitted_len: Map<i64, usize>,
    pub emitted_tool_steps: Map<i64, ()>,
    pub had_updates: bool,
}

impl View for StreamingState {
    type V = StreamView;

    open spec fn view(&self) -> StreamView {
        StreamView {
            conversation_id: self.conversation_id.deep_view(),
            base_step_idx: self.base_step_idx,
            last_step_idx: self.last_step_idx,
            emitted_len: self.emitted_len@,
            emitted_tool_steps: self.emitted_tool_steps@,
            had_updates: self.had_updates,
        }
    }
}

impl StreamingState {
    pub open spec fn wf(&self) -> bool {
        self.emitted_len.wf() && self.emitted_tool_steps.wf()
    }

    /// Nothing was sent yet.
    pub fn new(conversation_id: Option<String>, base_step_idx: i64) -> (r: Self)
        ensures
            r.wf(),
            r@ == (StreamView {
                conversation_id: conversation_id.deep_view(),
                base_step_idx,
                last_step_idx: base_step_idx,
                emitted_len: Map::empty(),
                emitted_tool_steps: Map::empty(),
                had_updates: false,
            }),
    {
        StreamingState {
            conversation_id,
            base_step_idx,
            last_step_idx: base_step_idx,
            emitted_len: Table::new(),
            emitted_tool_steps: Table::new(),
            had_updates: false,
        }
    }

    /// Binds the conversation, if it is not known yet and exactly one appeared
    /// since the prompt was started.
    pub fn bind(&mut self, snapshot: Option<&Vec<String>>, listing: &Vec<String>)
        requires
            old(self).wf(),
        ensures
            final(self).wf(),
            ({
                let bound = final(self)@.conversation_id;
                &&& final(self)@ == (StreamView { conversation_id: bound, ..old(self)@ })
                &&& match (old(self)@.conversation_id, snapshot) {
                    (None, Some(before)) => match bound {
                        Some(n) => only_new(before.deep_view(), listing.deep_view(), n),
                        None => forall|n: Seq<char>|
                            !only_new(before.deep_view(), listing.deep_view(), n),
                    },
                    _ => bound == old(self)@.conversation_id,
                }
            }),
    {
        if self.conversation_id.is_none() {
            match snapshot {
                Some(before) => {
                    self.conversation_id = new_conversation_id(before, listing);
                },
                None => {},
            }
        }
    }
}

/// One step of a conversation, as the database holds it.
#[derive(Debug, PartialEq, Eq)]
pub struct StepRow {
    pub idx: i64,
    pub step_type: i64,
    pub payload: Vec<u8>,
    /// The output of a tool step, where it has one.
    pub output: Option<String>,
}

/// An update of a session.
pub open spec fn update_json(session_id: Seq<char>, update: JsonView) -> JsonView {
    JsonView::empty_object().with("jsonrpc"@, JsonView::Text("2.0"@)).with(
        "method"@,
        JsonView::Text("session/update"@),
    ).with(
        "params"@,
        JsonView::empty_object().with("sessionId"@, JsonView::Text(session_id)).with(
            "update"@,
            update,
        ),
    )
}

/// An update of a session.
pub fn session_update(session_id: &str, update: Json) -> (r: Json)
    ensures
        r@ == update_json(session_id@, update@),
{
    Json::object().with("jsonrpc", Json::text("2.0")).with("method", Json::text("session/update")).with(
        "params",
        Json::object().with("sessionId", Json::text(session_id)).with("update", update),
    )
}

/// A piece of text, as a client reads it.
pub open spec fn text_content(text: Seq<char>) -> JsonView {
    JsonView::empty_object().with("type"@, JsonView::Text("text"@)).with(
        "text"@,
        JsonView::Text(text),
    )
}

fn text_block(text: &str) -> (r: Json)
    ensures
        r@ == text_content(text@),
{
    Json::object().with("type", Json::text("text")).with("text", Json::text(text))
}

/// A piece of the agent's message.
pub open spec fn message_chunk(text: Seq<char>) -> JsonView {
    JsonView::empty_object().with("sessionUpdate"@, JsonView::Text("agent_message_chunk"@)).with(
        "content"@,
        text_content(text),
    )
}

/// A piece of the agent's message.
pub fn agent_message_chunk(text: &str) -> (r: Json)
    ensures
        r@ == message_chunk(text@),
{
    Json::object().with("sessionUpdate", Json::text("agent_message_chunk")).with(
        "content",
        text_block(text),
    )
}

/// The first of some members that is text.
pub open spec fn first_text(input: Option<JsonView>, keys: Seq<Seq<char>>) -> Option<Seq<char>>
    decreases keys.len(),
{
    if keys.len() == 0 {
        None
    } else {
        match text_in(input, keys[0]) {
            Some(t) => Some(t),
            None => first_text(input, keys.skip(1)),
        }
    }
}

/// The title of a tool call: the tool, and the file or the start of the text
/// that it is about.
pub open spec fn call_title(name: Seq<char>, input: Option<JsonView>) -> Seq<char> {
    match first_text(input, seq!["path"@, "file"@, "AbsolutePath"@, "FilePath"@]) {
        Some(path) => name + ": "@ + path,
        None => match first_text(input, seq!["query"@, "command"@, "text"@]) {
            Some(t) => name + ": "@ + first_chars(t, 60),
            None => name,
        },
    }
}

fn titled(name: &str, detail: &str) -> (r: String)
    ensures
        r@ == name@ + ": "@ + detail@,
{
    let mut t = name.to_owned();
    t.append(": ");
    t.append(detail);
    t
}

/// The title of a tool call.
pub fn tool_call_title(name: &str, input: Option<&Json>) -> (r: String)
    ensures
        r@ == call_title(name@, json_view(input)),
{
    let ghost view = json_view(input);
    let ghost paths = seq!["path"@, "file"@, "AbsolutePath"@, "FilePath"@];
    let ghost texts = seq!["query"@, "command"@, "text"@];
    proof {
        reveal_with_fuel(first_text, 5);
        assert(paths.skip(1) =~= seq!["file"@, "AbsolutePath"@, "FilePath"@]);
        assert(paths.skip(1).skip(1) =~= seq!["AbsolutePath"@, "FilePath"@]);
        assert(paths.skip(1).skip(1).skip(1) =~= seq!["FilePath"@]);
        assert(paths.skip(1).skip(1).skip(1).skip(1) =~= seq![]);
        assert(texts.skip(1) =~= seq!["command"@, "text"@]);
        assert(texts.skip(1).skip(1) =~= seq!["text"@]);
        assert(texts.skip(1).skip(1).skip(1) =~= seq![]);
    }
    match input {
        Some(i) => {
            match i.get_str("path") {
                Some(p) => {
                    return titled(name, p);
                },
                None => {},
            }
            match i.get_str("file") {
                Some(p) => {
                    return titled(name, p);
                },
                None => {},
            }
            match i.get_str("AbsolutePath") {
                Some(p) => {
                    return titled(name, p);
                },
                None => {},
            }
            match i.get_str("FilePath") {
                Some(p) => {
                    return titled(name, p);
                },
                None => {},
            }
            match i.get_str("query") {
                Some(t) => {
                    return titled(name, take_chars(t, 60));
                },
                None => {},
            }
            match i.get_str("command") {
                Some(t) => {
                    return titled(name, take_chars(t, 60));
                },
                None => {},
            }
            match i.get_str("text") {
                Some(t) => {
                    return titled(name, take_chars(t, 60));
                },
                None => {},
            }
            name.to_owned()
        },
        None => name.to_owned(),
    }
}

/// The id of a tool call.
pub open spec fn call_id(idx: i64, step_type: i64) -> Seq<char> {
    "agy-"@ + signed_decimal(idx as int) + "-"@ + signed_decimal(step_type as int)
}

fn tool_call_id(idx: i64, step_type: i64) -> (r: String)
    ensures
        r@ == call_id(idx, step_type),
{
    let a = signed_decimal_text(idx);
    let b = signed_decimal_text(step_type);
    let mut t = "agy-".to_owned();
    t.append(a.as_str());
    t.append("-");
    t.append(b.as_str());
    t
}

/// The start of a tool call.
pub open spec fn call_started(id: Seq<char>, title: Seq<char>, input: Option<JsonView>) -> JsonView {
    let start = JsonView::empty_object().with("sessionUpdate"@, JsonView::Text("tool_call"@)).with(
        "toolCallId"@,
        JsonView::Text(id),
    ).with("title"@, JsonView::Text(title));
    match input {
        Some(i) => start.with("rawInput"@, i),
        None => start,
    }
}

/// The end of a tool call, with its output where that is to be shown.
pub open spec fn call_completed(
    id: Seq<char>,
    title: Seq<char>,
    output: Option<Seq<char>>,
) -> JsonView {
    let done = JsonView::empty_object().with(
        "sessionUpdate"@,
        JsonView::Text("tool_call_update"@),
    ).with("toolCallId"@, JsonView::Text(id)).with("title"@, JsonView::Text(title)).with(
        "status"@,
        JsonView::Text("completed"@),
    );
    match output {
        Some(o) => done.with(
            "content"@,
            JsonView::Array(
                seq![
                    JsonView::empty_object().with("type"@, JsonView::Text("content"@)).with(
                        "content"@,
                        text_content(o),
                    ),
                ],
            ),
        ).with("rawOutput"@, JsonView::empty_object().with("text"@, JsonView::Text(o))),
        None => done,
    }
}

fn started_call(id: &str, title: &str, input: &Option<Json>) -> (r: Json)
    ensures
        r@ == call_started(id@, title@, maybe_json(*input)),
{
    let start = Json::object().with("sessionUpdate", Json::text("tool_call")).with(
        "toolCallId",
        Json::text(id),
    ).with("title", Json::text(title));
    match input {
        Some(i) => start.with("rawInput", i.clone()),
        None => start,
    }
}

fn completed_call(id: &str, title: &str, output: Option<&str>) -> (r: Json)
    ensures
        r@ == call_completed(
            id@,
            title@,
            match output {
                Some(o) => Some(o@),
                None => None,
            },
        ),
{
    let done = Json::object().with("sessionUpdate", Json::text("tool_call_update")).with(
        "toolCallId",
        Json::text(id),
    ).with("title", Json::text(title)).with("status", Json::text("completed"));
    match output {
        Some(o) => {
            let mut content: Vec<Json> = Vec::new();
            let block = Json::object().with("type", Json::text("content")).with(
                "content",
                text_block(o),
            );
            let ghost shown = block@;
            content.push(block);
            assert(content.deep_view() =~= seq![shown]);
            done.with("content", Json::array(content)).with(
                "rawOutput",
                Json::object().with("text", Json::text(o)),
            )
        },
        None => done,
    }
}

/// The updates for a tool step: the call starts, and is completed.
pub open spec fn call_updates(
    session_id: Seq<char>,
    idx: i64,
    step_type: i64,
    name: Seq<char>,
    input: Option<JsonView>,
    output: Option<Seq<char>>,
) -> Seq<JsonView> {
    let id = call_id(idx, step_type);
    let title = call_title(name, input);
    seq![
        update_json(session_id, call_started(id, title, input)),
        update_json(session_id, call_completed(id, title, output)),
    ]
}

/// The updates for a tool step, given the tool's name and input, and the output
/// that is to be shown.
pub fn tool_updates(
    session_id: &str,
    idx: i64,
    step_type: i64,
    name: &str,
    input: &Option<Json>,
    output: &Option<String>,
) -> (r: Vec<Json>)
    ensures
        r.deep_view() == call_updates(
            session_id@,
            idx,
            step_type,
            name@,
            maybe_json(*input),
            output.deep_view(),
        ),
{
    let named = match input {
        Some(i) => Some(i),
        None => None,
    };
    let shown = match output {
        Some(o) => Some(o.as_str()),
        None => None,
    };
    let title = tool_call_title(name, named);
    let id = tool_call_id(idx, step_type);
    let mut out: Vec<Json> = Vec::new();
    assert(out.deep_view() =~= seq![]);
    push_update(session_id, started_call(id.as_str(), title.as_str(), input), &mut out);
    push_update(session_id, completed_call(id.as_str(), title.as_str(), shown), &mut out);
    out
}

/// What is shown beside the agent's message.
#[derive(Clone, Copy, Debug, PartialEq, Eq, Structural)]
pub struct Display {
    pub narration: bool,
    pub tool_output: bool,
}

/// How many bytes of a step were sent.
pub open spec fn sent(s: StreamView, idx: i64) -> int {
    if s.emitted_len.contains_key(idx) {
        s.emitted_len[idx] as int
    } else {
        0
    }
}

/// The state once a step was looked at.
pub open spec fn reached(s: StreamView, idx: i64) -> StreamView {
    StreamView {
        last_step_idx: if idx > s.last_step_idx {
            idx
        } else {
            s.last_step_idx
        },
        ..s
    }
}

/// What one step adds: the state after it, and its updates. Nothing where the
/// text was sent up to the middle of a character: then it did not grow, but was
/// replaced.
pub open spec fn stepped(session_id: Seq<char>, s: StreamView, row: StepRow, show: Display) -> Option<
    (StreamView, Seq<JsonView>),
> {
    let t = reached(s, row.idx);
    if row.step_type == 15 {
        match step_text(row.payload@) {
            None => Some((t, seq![])),
            Some(text) => if utf8_len(text) <= sent(s, row.idx) {
                Some((t, seq![]))
            } else {
                let u = StreamView {
                    emitted_len: t.emitted_len.insert(row.idx, utf8_len(text) as usize),
                    ..t
                };
                if !show.narration && narrates(text) {
                    Some((u, seq![]))
                } else {
                    match after_bytes(text, sent(s, row.idx)) {
                        Some(new) => Some((u, seq![update_json(session_id, message_chunk(new))])),
                        None => None,
                    }
                }
            },
        }
    } else if is_tool_step(row.step_type) && !s.emitted_tool_steps.contains_key(row.idx) {
        match tool_step(row.payload@) {
            None => Some((t, seq![])),
            Some((name, input)) => Some(
                (
                    StreamView {
                        emitted_tool_steps: t.emitted_tool_steps.insert(row.idx, ()),
                        ..t
                    },
                    call_updates(
                        session_id,
                        row.idx,
                        row.step_type,
                        name,
                        input,
                        if show.tool_output {
                            row.output.deep_view()
                        } else {
                            None
                        },
                    ),
                ),
            ),
        }
    } else {
        Some((t, seq![]))
    }
}

/// What all steps add, one after the other.
pub open spec fn streamed(
    session_id: Seq<char>,
    s: StreamView,
    rows: Seq<StepRow>,
    show: Display,
) -> Option<(StreamView, Seq<JsonView>)>
    decreases rows.len(),
{
    if rows.len() == 0 {
        Some((s, seq![]))
    } else {
        match streamed(session_id, s, rows.drop_last(), show) {
            None => None,
            Some((t, sofar)) => match stepped(session_id, t, rows.last(), show) {
                None => None,
                Some((u, more)) => Some((u, sofar + more)),
            },
        }
    }
}

fn push_update(session_id: &str, update: Json, out: &mut Vec<Json>)
    ensures
        final(out).deep_view() == old(out).deep_view().push(update_json(session_id@, update@)),
{
    let ghost before = out.deep_view();
    let line = session_update(session_id, update);
    let ghost shown = line@;
    out.push(line);
    assert(out.deep_view() =~= before.push(shown));
}

fn step_row(
    session_id: &str,
    state: &mut StreamingState,
    row: &StepRow,
    show: Display,
    out: &mut Vec<Json>,
) -> (r: bool)
    requires
        old(state).wf(),
    ensures
        final(state).wf(),
        match stepped(session_id@, old(state)@, *row, show) {
            None => !r,
            Some((t, more)) => {
                &&& r
                &&& final(state)@ == t
                &&& final(out).deep_view() == old(out).deep_view() + more
            },
        },
{
    let ghost before = out.deep_view();
    let ghost s = state@;
    if row.idx > state.last_step_idx {
        state.last_step_idx = row.idx;
    }
    assert(state@ == reached(s, row.idx));
    if row.step_type == 15 {
        match extract_text_from_step_payload(row.payload.as_slice()) {
            None => {},
            Some(text) => {
                let n: usize = byte_len(text.as_str());
                let emitted: usize = match state.emitted_len.get(&row.idx) {
                    Some(k) => *k,
                    None => 0,
                };
                assert(emitted == sent(s, row.idx));
                if n > emitted {
                    if !show.narration && is_narration(text.as_str()) {
                        let _ = state.emitted_len.insert(row.idx, n);
                    } else {
                        match skip_bytes(text.as_str(), emitted) {
                            Some(new) => {
                                let _ = state.emitted_len.insert(row.idx, n);
                                push_update(session_id, agent_message_chunk(new.as_str()), out);
                                assert(out.deep_view() =~= before + seq![
                                    update_json(session_id@, message_chunk(new@)),
                                ]);
                                return true;
                            },
                            None => {
                                return false;
                            },
                        }
                    }
                }
            },
        }
    } else if is_tool_step_type(row.step_type) && !state.emitted_tool_steps.contains(&row.idx) {
        match extract_tool_from_step_payload(row.payload.as_slice()) {
            None => {},
            Some((name, input)) => {
                let _ = state.emitted_tool_steps.insert(row.idx, ());
                let hidden: Option<String> = None;
                let output = if show.tool_output {
                    &row.output
                } else {
                    &hidden
                };
                let mut both = tool_updates(
                    session_id,
                    row.idx,
                    row.step_type,
                    name.as_str(),
                    &input,
                    output,
                );
                let ghost shown = both.deep_view();
                out.append(&mut both);
                assert(out.deep_view() =~= before + shown);
                return true;
            },
        }
    }
    assert(out.deep_view() =~= before + seq![]);
    true
}

/// The updates for the steps that a conversation gained. Fails, with the step,
/// where a text was sent up to the middle of a character of what now stands
/// there.
pub fn poll_streaming_delta(
    session_id: &str,
    state: &mut StreamingState,
    rows: &Vec<StepRow>,
    show: Display,
) -> (r: Result<Vec<Json>, i64>)
    requires
        old(state).wf(),
    ensures
        final(state).wf(),
        match streamed(session_id@, old(state)@, rows@, show) {
            Some((t, updates)) => r matches Ok(v) && v.deep_view() == updates && final(state)@ == (
            StreamView { had_updates: t.had_updates || updates.len() > 0, ..t }),
            None => r matches Err(idx) && exists|i: int|
                0 <= i < rows@.len() && #[trigger] rows@[i].idx == idx && streamed(
                    session_id@,
                    old(state)@,
                    rows@.take(i + 1),
                    show,
                ) is None && streamed(session_id@, old(state)@, rows@.take(i), show) is Some,
        },
{
    let ghost s = state@;
    let mut out: Vec<Json> = Vec::new();
    let mut i: usize = 0;
    assert(rows@.take(0) =~= seq![]);
    assert(out.deep_view() =~= seq![]);
    while i < rows.len()
        invariant
            i <= rows@.len(),
            state.wf(),
            s == old(state)@,
            streamed(session_id@, s, rows@.take(i as int), show) == Some(
                (state@, out.deep_view()),
            ),
        decreases rows@.len() - i,
    {
        proof {
            assert(rows@.take(i + 1).drop_last() =~= rows@.take(i as int));
            assert(rows@.take(i + 1).last() == rows@[i as int]);
        }
        if !step_row(session_id, state, &rows[i], show, &mut out) {
            proof {
                lemma_failure_is_final(session_id@, s, rows@, show, i + 1);
            }
            return Err(rows[i].idx);
        }
        i += 1;
    }
    assert(rows@.take(i as int) =~= rows@);
    assert(out.deep_view().len() == out@.len());
    if out.len() > 0 {
        state.had_updates = true;
    }
    Ok(out)
}

proof fn lemma_failure_is_final(
    session_id: Seq<char>,
    s: StreamView,
    rows: Seq<StepRow>,
    show: Display,
    n: int,
)
    requires
        0 <= n <= rows.len(),
        streamed(session_id, s, rows.take(n), show) is None,
    ensures
        streamed(session_id, s, rows, show) is None,
    decreases rows.len() - n,
{
    if n < rows.len() {
        assert(rows.take(n + 1).drop_last() =~= rows.take(n));
        lemma_failure_is_final(session_id, s, rows, show, n + 1);
    } else {
        assert(rows.take(n) =~= rows);
    }
}

/// The state that looking at steps leads to; where it fails, the one before.
pub open spec fn state_of(r: Option<(StreamView, Seq<JsonView>)>, before: StreamView) -> StreamView {
    match r {
        Some((t, _)) => t,
        None => before,
    }
}

/// Whether a step adds nothing any more.
pub open spec fn settled(s: StreamView, row: StepRow) -> bool {
    &&& row.idx <= s.last_step_idx
    &&& row.step_type == 15 ==> match step_text(row.payload@) {
        Some(text) => utf8_len(text) <= sent(s, row.idx),
        None => true,
    }
    &&& row.step_type != 15 && is_tool_step(row.step_type) ==> tool_step(row.payload@) is None
        || s.emitted_tool_steps.contains_key(row.idx)
}

/// Every text fits in memory, so its length is a machine number.
pub open spec fn texts_fit(rows: Seq<StepRow>) -> bool {
    forall|i: int|
        0 <= i < rows.len() ==> match step_text((#[trigger] rows[i]).payload@) {
            Some(text) => utf8_len(text) <= usize::MAX,
            None => true,
        }
}

proof fn lemma_settled_stays(
    session_id: Seq<char>,
    s: StreamView,
    next: StepRow,
    show: Display,
    row: StepRow,
)
    requires
        settled(s, row),
        texts_fit(seq![next]),
        stepped(session_id, s, next, show) is Some,
    ensures
        settled(state_of(stepped(session_id, s, next, show), s), row),
{
    assert(seq![next][0] == next);
}

proof fn lemma_step_settles(session_id: Seq<char>, s: StreamView, row: StepRow, show: Display)
    requires
        texts_fit(seq![row]),
        stepped(session_id, s, row, show) is Some,
    ensures
        settled(state_of(stepped(session_id, s, row, show), s), row),
{
    assert(seq![row][0] == row);
}

proof fn lemma_all_settled(
    session_id: Seq<char>,
    s: StreamView,
    rows: Seq<StepRow>,
    show: Display,
    i: int,
)
    requires
        texts_fit(rows),
        streamed(session_id, s, rows, show) is Some,
        0 <= i < rows.len(),
    ensures
        settled(state_of(streamed(session_id, s, rows, show), s), rows[i]),
    decreases rows.len(),
{
    let last = rows.last();
    assert(rows[rows.len() - 1] == last);
    assert(texts_fit(seq![last])) by {
        assert(seq![last][0] == last);
    }
    let t = state_of(streamed(session_id, s, rows.drop_last(), show), s);
    if i == rows.len() - 1 {
        lemma_step_settles(session_id, t, last, show);
    } else {
        assert(texts_fit(rows.drop_last())) by {
            assert forall|k: int| 0 <= k < rows.drop_last().len() implies match step_text(
                (#[trigger] rows.drop_last()[k]).payload@,
            ) {
                Some(text) => utf8_len(text) <= usize::MAX,
                None => true,
            } by {
                assert(rows.drop_last()[k] == rows[k]);
            }
        }
        lemma_all_settled(session_id, s, rows.drop_last(), show, i);
        assert(rows.drop_last()[i] == rows[i]);
        lemma_settled_stays(session_id, t, last, show, rows[i]);
    }
}

proof fn lemma_settled_rows_add_nothing(
    session_id: Seq<char>,
    s: StreamView,
    rows: Seq<StepRow>,
    show: Display,
)
    requires
        forall|i: int| 0 <= i < rows.len() ==> settled(s, #[trigger] rows[i]),
    ensures
        streamed(session_id, s, rows, show) == Some((s, Seq::<JsonView>::empty())),
    decreases rows.len(),
{
    if rows.len() > 0 {
        assert forall|i: int| 0 <= i < rows.drop_last().len() implies settled(
            s,
            #[trigger] rows.drop_last()[i],
        ) by {
            assert(rows.drop_last()[i] == rows[i]);
        }
        lemma_settled_rows_add_nothing(session_id, s, rows.drop_last(), show);
        let last = rows.last();
        assert(rows[rows.len() - 1] == last);
        assert(settled(s, last));
        assert(reached(s, last.idx) =~= s);
        assert(stepped(session_id, s, last, show) == Some((s, Seq::<JsonView>::empty())));
        assert(Seq::<JsonView>::empty() + Seq::<JsonView>::empty() =~= Seq::<JsonView>::empty());
    }
}

/// Nothing is sent twice: the same steps, looked at once more, add nothing.
pub proof fn law_nothing_is_sent_twice(
    session_id: Seq<char>,
    s: StreamView,
    rows: Seq<StepRow>,
    show: Display,
    again: Display,
)
    requires
        texts_fit(rows),
        streamed(session_id, s, rows, show) is Some,
    ensures
        ({
            let t = state_of(streamed(session_id, s, rows, show), s);
            streamed(session_id, t, rows, again) == Some((t, Seq::<JsonView>::empty()))
        }),
{
    let t = state_of(streamed(session_id, s, rows, show), s);
    assert forall|i: int| 0 <= i < rows.len() implies settled(t, #[trigger] rows[i]) by {
        lemma_all_settled(session_id, s, rows, show, i);
    }
    lemma_settled_rows_add_nothing(session_id, t, rows, again);
}

/// The updates of a poll stand in the order of the steps: those of the first
/// steps, and behind them what the later steps add in the state that the first
/// lead to. It fails where either part does.
#[verifier::spinoff_prover]
#[verifier::rlimit(40)]
pub proof fn law_updates_follow_the_steps(
    session_id: Seq<char>,
    s: StreamView,
    a: Seq<StepRow>,
    b: Seq<StepRow>,
    show: Display,
)
    ensures
        match streamed(session_id, s, a, show) {
            None => streamed(session_id, s, a + b, show) is None,
            Some((t, first)) => match streamed(session_id, t, b, show) {
                None => streamed(session_id, s, a + b, show) is None,
                Some((u, later)) => streamed(session_id, s, a + b, show) == Some((u, first + later)),
            },
        },
    decreases b.len(),
{
    if b.len() == 0 {
        assert(a + b =~= a);
        match streamed(session_id, s, a, show) {
            Some((t, first)) => {
                assert(first + Seq::<JsonView>::empty() =~= first);
            },
            None => {},
        }
    } else {
        law_updates_follow_the_steps(session_id, s, a, b.drop_last(), show);
        assert((a + b).drop_last() =~= a + b.drop_last());
        assert((a + b).last() == b.last());
        match streamed(session_id, s, a, show) {
            Some((t, first)) => match streamed(session_id, t, b.drop_last(), show) {
                Some((u, later)) => match stepped(session_id, u, b.last(), show) {
                    Some((v, more)) => {
                        assert(first + later + more =~= first + (later + more));
                    },
                    None => {},
                },
                None => {},
            },
            None => {},
        }
    }
}

/// One step on its own adds what the step adds, and no step adds nothing.
pub proof fn law_one_step_adds_its_updates(
    session_id: Seq<char>,
    s: StreamView,
    row: StepRow,
    show: Display,
)
    ensures
        streamed(session_id, s, seq![row], show) == stepped(session_id, s, row, show),
        streamed(session_id, s, seq![], show) == Some((s, Seq::<JsonView>::empty())),
{
    assert(seq![row].drop_last() =~= Seq::<StepRow>::empty());
    assert(seq![row].last() == row);
    match stepped(session_id, s, row, show) {
        Some((t, more)) => {
            assert(Seq::<JsonView>::empty() + more =~= more);
        },
        None => {},
    }
}

/// The content of an update of a session.
pub open spec fn update_of(line: JsonView) -> Option<JsonView> {
    get_of(line.get("params"@), "update"@)
}

/// An update names its session and its method, and carries what it is about.
pub proof fn law_update_reaches_its_session(session_id: Seq<char>, update: JsonView)
    ensures
        update_json(session_id, update).text_of("jsonrpc"@) == Some("2.0"@),
        update_json(session_id, update).text_of("method"@) == Some("session/update"@),
        text_in(update_json(session_id, update).get("params"@), "sessionId"@) == Some(session_id),
        update_of(update_json(session_id, update)) == Some(update),
        update_json(session_id, update).get("id"@) is None,
{
    broadcast use law_added_member_is_found;

    reveal_strlit("jsonrpc");
    reveal_strlit("method");
    reveal_strlit("params");
    reveal_strlit("sessionId");
    reveal_strlit("update");
    reveal_strlit("id");
    assert("jsonrpc"@.len() == 7 && "id"@.len() == 2);
    assert("method"@[0] == 'm' && "params"@[0] == 'p');
    assert("sessionId"@.len() == 9 && "update"@.len() == 6);
}

/// A piece of the agent's message reads as that piece.
pub proof fn law_message_chunk_holds_its_text(text: Seq<char>)
    ensures
        message_chunk(text).text_of("sessionUpdate"@) == Some("agent_message_chunk"@),
        text_in(message_chunk(text).get("content"@), "type"@) == Some("text"@),
        text_in(message_chunk(text).get("content"@), "text"@) == Some(text),
{
    broadcast use law_added_member_is_found;

    reveal_strlit("sessionUpdate");
    reveal_strlit("content");
    reveal_strlit("type");
    reveal_strlit("text");
    assert("sessionUpdate"@.len() == 13 && "content"@.len() == 7);
    assert("type"@[1] == 'y' && "text"@[1] == 'e');
}

/// What was sent of a text before, and what is sent of it now, are together the
/// text: where a step said `before` when it was last looked at and says
/// `before + more` now, one piece of the message is sent, and it is `more`.
pub proof fn law_what_is_new_is_sent(
    session_id: Seq<char>,
    s: StreamView,
    row: StepRow,
    show: Display,
    before: Seq<char>,
    more: Seq<char>,
)
    requires
        row.step_type == 15,
        step_text(row.payload@) == Some(before + more),
        sent(s, row.idx) == utf8_len(before),
        more.len() > 0,
        utf8_len(before + more) <= usize::MAX,
        show.narration || !narrates(before + more),
    ensures
        stepped(session_id, s, row, show) matches Some((t, updates)) && updates.len() == 1
            && updates[0] == update_json(session_id, message_chunk(more)) && sent(t, row.idx)
            == utf8_len(before + more) && t.last_step_idx >= row.idx,
{
    lemma_utf8_len_add(before, more);
    lemma_some_bytes(more);
    law_growth_is_cut_exactly(before, more);
}

proof fn lemma_some_bytes(s: Seq<char>)
    requires
        s.len() > 0,
    ensures
        utf8_len(s) > 0,
{
    lemma_utf8_len_push(s.drop_last(), s.last());
    assert(s.drop_last().push(s.last()) =~= s);
}

/// An announcement that is not to be shown sends nothing, and is not sent later
/// either: it counts as sent.
pub proof fn law_hidden_narration_is_never_sent(
    session_id: Seq<char>,
    s: StreamView,
    row: StepRow,
    show: Display,
    text: Seq<char>,
)
    requires
        row.step_type == 15,
        step_text(row.payload@) == Some(text),
        narrates(text),
        !show.narration,
        utf8_len(text) <= usize::MAX,
    ensures
        stepped(session_id, s, row, show) matches Some((t, updates)) && updates.len() == 0 && sent(
            t,
            row.idx,
        ) >= utf8_len(text),
{
}

/// A tool step that was not sent yet sends the start of the call and its end,
/// in this order, under one id and one title, with the tool's input, and with
/// its output where that is to be shown; and the step counts as sent.
pub proof fn law_tool_call_starts_and_ends(
    session_id: Seq<char>,
    s: StreamView,
    row: StepRow,
    show: Display,
    name: Seq<char>,
    input: Option<JsonView>,
)
    requires
        is_tool_step(row.step_type),
        !s.emitted_tool_steps.contains_key(row.idx),
        tool_step(row.payload@) == Some((name, input)),
    ensures
        stepped(session_id, s, row, show) matches Some((t, updates)) && {
            &&& t.emitted_tool_steps.contains_key(row.idx)
            &&& t.emitted_len == s.emitted_len
            &&& updates.len() == 2
            &&& update_of(updates[0]) matches Some(start) && update_of(updates[1]) matches Some(
                end,
            ) && {
                &&& start.text_of("sessionUpdate"@) == Some("tool_call"@)
                &&& end.text_of("sessionUpdate"@) == Some("tool_call_update"@)
                &&& end.text_of("status"@) == Some("completed"@)
                &&& start.text_of("toolCallId"@) == Some(call_id(row.idx, row.step_type))
                &&& end.text_of("toolCallId"@) == start.text_of("toolCallId"@)
                &&& start.text_of("title"@) == Some(call_title(name, input))
                &&& end.text_of("title"@) == start.text_of("title"@)
                &&& start.get("rawInput"@) == input
                &&& show.tool_output ==> text_in(end.get("rawOutput"@), "text"@)
                    == row.output.deep_view()
                &&& show.tool_output && row.output is Some ==> (end.get("content"@) matches Some(
                    JsonView::Array(parts),
                ) && parts.len() == 1 && text_in(parts[0].get("content"@), "text"@)
                    == row.output.deep_view())
                &&& !show.tool_output ==> end.get("rawOutput"@) is None && end.get("content"@) is None
            }
        },
{
    let id = call_id(row.idx, row.step_type);
    let title = call_title(name, input);
    let output = if show.tool_output {
        row.output.deep_view()
    } else {
        None
    };
    law_update_reaches_its_session(session_id, call_started(id, title, input));
    law_update_reaches_its_session(session_id, call_completed(id, title, output));
    lemma_call_members(id, title, input, output);
}

proof fn lemma_call_members(
    id: Seq<char>,
    title: Seq<char>,
    input: Option<JsonView>,
    output: Option<Seq<char>>,
)
    ensures
        ({
            let (start, end) = (call_started(id, title, input), call_completed(id, title, output));
            &&& start.text_of("sessionUpdate"@) == Some("tool_call"@)
            &&& end.text_of("sessionUpdate"@) == Some("tool_call_update"@)
            &&& end.text_of("status"@) == Some("completed"@)
            &&& start.text_of("toolCallId"@) == Some(id)
            &&& end.text_of("toolCallId"@) == Some(id)
            &&& start.text_of("title"@) == Some(title)
            &&& end.text_of("title"@) == Some(title)
            &&& start.get("rawInput"@) == input
            &&& text_in(end.get("rawOutput"@), "text"@) == output
            &&& output is None ==> end.get("rawOutput"@) is None && end.get("content"@) is None
            &&& output is Some ==> (end.get("content"@) matches Some(JsonView::Array(parts))
                && parts.len() == 1 && text_in(parts[0].get("content"@), "text"@) == output)
        }),
{
    broadcast use law_added_member_is_found;

    reveal_strlit("sessionUpdate");
    reveal_strlit("toolCallId");
    reveal_strlit("title");
    reveal_strlit("rawInput");
    reveal_strlit("rawOutput");
    reveal_strlit("status");
    reveal_strlit("content");
    reveal_strlit("type");
    reveal_strlit("text");
    assert("sessionUpdate"@.len() == 13 && "toolCallId"@.len() == 10 && "title"@.len() == 5);
    assert("rawInput"@.len() == 8 && "rawOutput"@.len() == 9 && "status"@.len() == 6);
    assert("content"@.len() == 7);
    assert("type"@[1] == 'y' && "text"@[1] == 'e' && "type"@.len() == 4);
}

/// A file that a tool works on is named in the title, under whichever of its
/// names the input has it; the first of them counts.
pub proof fn law_title_names_the_file(name: Seq<char>, input: JsonView, path: Seq<char>)
    ensures
        input.text_of("path"@) == Some(path) ==> call_title(name, Some(input)) == name + ": "@
            + path,
        input.text_of("path"@) is None && input.text_of("file"@) == Some(path) ==> call_title(
            name,
            Some(input),
        ) == name + ": "@ + path,
        input.text_of("path"@) is None && input.text_of("file"@) is None && input.text_of(
            "AbsolutePath"@,
        ) == Some(path) ==> call_title(name, Some(input)) == name + ": "@ + path,
        input.text_of("path"@) is None && input.text_of("file"@) is None && input.text_of(
            "AbsolutePath"@,
        ) is None && input.text_of("FilePath"@) == Some(path) ==> call_title(name, Some(input))
            == name + ": "@ + path,
        call_title(name, None) == name,
{
    lemma_title_keys(Some(input));
    lemma_title_keys(None);
}

/// Without a file, the start of what a tool is asked stands in the title: at
/// most sixty characters of it.
pub proof fn law_title_starts_the_question(name: Seq<char>, input: JsonView, asked: Seq<char>)
    requires
        input.text_of("path"@) is None,
        input.text_of("file"@) is None,
        input.text_of("AbsolutePath"@) is None,
        input.text_of("FilePath"@) is None,
        input.text_of("query"@) == Some(asked) || (input.text_of("query"@) is None && (
        input.text_of("command"@) == Some(asked) || (input.text_of("command"@) is None
            && input.text_of("text"@) == Some(asked)))),
    ensures
        (name + ": "@).is_prefix_of(call_title(name, Some(input))),
        ({
            let shown = call_title(name, Some(input)).skip((name + ": "@).len() as int);
            &&& shown.is_prefix_of(asked)
            &&& asked.len() <= 60 ==> shown == asked
            &&& asked.len() > 60 ==> shown.len() == 60
        }),
{
    lemma_title_keys(Some(input));
    law_first_characters_are_a_prefix(asked, 60);
    let head = name + ": "@;
    let whole = call_title(name, Some(input));
    assert(whole == head + first_chars(asked, 60));
    assert(whole.subrange(0, head.len() as int) =~= head);
    assert(whole.skip(head.len() as int) =~= first_chars(asked, 60));
}

proof fn lemma_title_keys(input: Option<JsonView>)
    ensures
        first_text(input, seq!["path"@, "file"@, "AbsolutePath"@, "FilePath"@]) == (match text_in(
            input,
            "path"@,
        ) {
            Some(t) => Some(t),
            None => match text_in(input, "file"@) {
                Some(t) => Some(t),
                None => match text_in(input, "AbsolutePath"@) {
                    Some(t) => Some(t),
                    None => text_in(input, "FilePath"@),
                },
            },
        }),
        first_text(input, seq!["query"@, "command"@, "text"@]) == (match text_in(
            input,
            "query"@,
        ) {
            Some(t) => Some(t),
            None => match text_in(input, "command"@) {
                Some(t) => Some(t),
                None => text_in(input, "text"@),
            },
        }),
{
    let paths = seq!["path"@, "file"@, "AbsolutePath"@, "FilePath"@];
    let texts = seq!["query"@, "command"@, "text"@];
    reveal_with_fuel(first_text, 5);
    assert(paths.skip(1) =~= seq!["file"@, "AbsolutePath"@, "FilePath"@]);
    assert(paths.skip(1).skip(1) =~= seq!["AbsolutePath"@, "FilePath"@]);
    assert(paths.skip(1).skip(1).skip(1) =~= seq!["FilePath"@]);
    assert(paths.skip(1).skip(1).skip(1).skip(1) =~= seq![]);
    assert(texts.skip(1) =~= seq!["command"@, "text"@]);
    assert(texts.skip(1).skip(1) =~= seq!["text"@]);
    assert(texts.skip(1).skip(1).skip(1) =~= seq![]);
}

/// Two tool steps have two ids: of two steps that are counted from zero, the
/// ids differ where the steps do.
pub proof fn law_call_ids_differ(i: i64, j: i64, kind: i64, other: i64)
    requires
        0 <= i,
        0 <= j,
        i != j,
    ensures
        call_id(i, kind) != call_id(j, other),
{
    let (a, b) = (decimal(i as nat), decimal(j as nat));
    law_decimals_differ(i as nat, j as nat);
    law_decimal_reads_back(i as nat);
    law_decimal_reads_back(j as nat);
    reveal_strlit("agy-");
    reveal_strlit("-");
    let (x, y) = (call_id(i, kind), call_id(j, other));
    if x == y {
        assert(x[4 + a.len() as int] == '-');
        assert(y[4 + b.len() as int] == '-');
        if a.len() < b.len() {
            assert(y[4 + a.len() as int] == b[a.len() as int]);
            assert(is_digit(b[a.len() as int]));
        } else if b.len() < a.len() {
            assert(x[4 + b.len() as int] == a[b.len() as int]);
            assert(is_digit(a[b.len() as int]));
        } else {
            assert forall|k: int| 0 <= k < a.len() implies a[k] == b[k] by {
                assert(x[4 + k] == a[k]);
                assert(y[4 + k] == b[k]);
            }
            assert(a =~= b);
        }
    }
}

/// After a poll the last step is the highest that was looked at, or the one
/// that was the last before, and the conversation and its start are as before.
pub proof fn law_last_step_is_the_highest(
    session_id: Seq<char>,
    s: StreamView,
    rows: Seq<StepRow>,
    show: Display,
)
    ensures
        streamed(session_id, s, rows, show) matches Some((t, _)) ==> {
            &&& t.last_step_idx >= s.last_step_idx
            &&& forall|i: int| 0 <= i < rows.len() ==> t.last_step_idx >= (#[trigger] rows[i]).idx
            &&& t.last_step_idx == s.last_step_idx || exists|i: int|
                0 <= i < rows.len() && t.last_step_idx == (#[trigger] rows[i]).idx
            &&& t.conversation_id == s.conversation_id
            &&& t.base_step_idx == s.base_step_idx
        },
    decreases rows.len(),
{
    if rows.len() > 0 {
        law_last_step_is_the_highest(session_id, s, rows.drop_last(), show);
        match streamed(session_id, s, rows, show) {
            Some((t, _)) => {
                let u = state_of(streamed(session_id, s, rows.drop_last(), show), s);
                assert forall|i: int| 0 <= i < rows.len() implies t.last_step_idx >= (
                #[trigger] rows[i]).idx by {
                    if i < rows.len() - 1 {
                        assert(rows.drop_last()[i] == rows[i]);
                    }
                }
                if t.last_step_idx != s.last_step_idx {
                    if t.last_step_idx == u.last_step_idx {
                        let i = choose|i: int|
                            0 <= i < rows.drop_last().len() && u.last_step_idx == (
                            #[trigger] rows.drop_last()[i]).idx;
                        assert(rows[i].idx == t.last_step_idx);
                    } else {
                        assert(rows[rows.len() - 1].idx == t.last_step_idx);
                    }
                }
            },
            None => {},
        }
    }
}

/// A conversation that appeared is found, and the files with other names are no
/// conversations: the conversations of two lists of files are those of the
/// first and then those of the second.
pub proof fn law_conversations_are_the_files(
    a: Seq<Seq<char>>,
    b: Seq<Seq<char>>,
    extension: Seq<char>,
    name: Seq<char>,
)
    ensures
        stems(a + b, extension) == stems(a, extension) + stems(b, extension),
        name.len() > 0 ==> stem(name + "."@ + extension, extension) == Some(name),
        stem(name, extension) matches Some(n) ==> name == n + "."@ + extension,
        stems(seq![name], extension) == (match stem(name, extension) {
            Some(n) => seq![n],
            None => seq![],
        }),
    decreases b.len(),
{
    reveal_strlit(".");
    if b.len() == 0 {
        assert(a + b =~= a);
        assert(stems(a, extension) + Seq::<Seq<char>>::empty() =~= stems(a, extension));
    } else {
        law_conversations_are_the_files(a, b.drop_last(), extension, name);
        assert((a + b).drop_last() =~= a + b.drop_last());
        assert((a + b).last() == b.last());
        match stem(b.last(), extension) {
            Some(n) => {
                assert((stems(a, extension) + stems(b.drop_last(), extension)).push(n)
                    =~= stems(a, extension) + stems(b.drop_last(), extension).push(n));
            },
            None => {},
        }
    }
    let whole = name + "."@ + extension;
    let n = whole.len() - extension.len() - 1;
    assert(whole.skip(n) =~= "."@ + extension);
    assert(whole.take(n) =~= name);
    match stem(name, extension) {
        Some(front) => {
            let k = name.len() - extension.len() - 1;
            assert(name =~= name.take(k) + name.skip(k));
            assert(front + "."@ + extension =~= front + ("."@ + extension));
        },
        None => {},
    }
    assert(seq![name].drop_last() =~= Seq::<Seq<char>>::empty());
    assert(seq![name].last() == name);
    let none = Seq::<Seq<char>>::empty();
    assert(stems(none, extension) =~= none);
    match stem(name, extension) {
        Some(front) => {
            assert(none.push(front) =~= seq![front]);
        },
        None => {},
    }
}

/// Of what appeared between two looks, the one that is new is the one, and two
/// that are new are none.
pub proof fn law_the_new_one_is_bound(
    before: Seq<Seq<char>>,
    name: Seq<char>,
    second: Seq<char>,
)
    requires
        !before.contains(name),
        !before.contains(second),
        name != second,
    ensures
        only_new(before, before.push(name), name),
        forall|n: Seq<char>| !only_new(before, before.push(name).push(second), n),
        forall|n: Seq<char>| !only_new(before, before, n),
{
    let after = before.push(name);
    assert(after[before.len() as int] == name);
    assert forall|i: int| 0 <= i < after.len() && !before.contains(#[trigger] after[i]) implies
        after[i] == name by {
        if i < before.len() {
            assert(before[i] == after[i]);
        }
    }
    assert forall|n: Seq<char>| !only_new(before, after.push(second), n) by {
        assert(after.push(second)[before.len() as int] == name);
        assert(after.push(second)[before.len() as int + 1] == second);
    }
}

/// The text of a step that nothing was sent of is sent whole.
pub proof fn law_first_text_is_sent_whole(
    session_id: Seq<char>,
    s: StreamView,
    row: StepRow,
    show: Display,
    text: Seq<char>,
)
    requires
        row.step_type == 15,
        step_text(row.payload@) == Some(text),
        !s.emitted_len.contains_key(row.idx),
        text.len() > 0,
        utf8_len(text) <= usize::MAX,
        show.narration || !narrates(text),
    ensures
        stepped(session_id, s, row, show) matches Some((t, updates)) && updates.len() == 1
            && updates[0] == update_json(session_id, message_chunk(text)) && sent(t, row.idx)
            == utf8_len(text),
{
    let none = Seq::<char>::empty();
    assert(none + text =~= text);
    law_what_is_new_is_sent(session_id, s, row, show, none, text);
}

} // verus!
