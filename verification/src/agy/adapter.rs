//! The adapter's own state: its sessions, its models, and how a prompt is run.

use crate::agy::sessions::Sessions;
use crate::agy::sessions::error_json;
use crate::agy::sessions::error_response;
use crate::agy::sessions::law_room_is_made;
use crate::agy::sessions::result_json;
use crate::agy::sessions::result_response;
use crate::agy::sessions::room;
use crate::agy::streaming::conversation_ids;
use crate::agy::streaming::stems;
use crate::ids::fresh_uuid;
use crate::ids::is_uuid;
use crate::json::json_string;
use crate::json::parse_json;
use crate::json::parsed_json;
use crate::json::quoted;
use crate::paths::join_path;
use crate::paths::path_join;
use crate::proto::copy_text;
use crate::text::all_white;
use crate::text::holds;
use crate::text::join;
use crate::text::joined;
use crate::text::law_joined_text_holds_its_parts;
use crate::text::law_trimming_takes_white_space_only;
use crate::text::lines;
use crate::text::push_text;
use crate::text::same;
use crate::text::split_lines;
use crate::text::starts_with;
use crate::text::trim;
use crate::text::trimmed;
use crate::value::Json;
use crate::value::JsonView;
use crate::value::NumberView;
use crate::value::get_of;
use crate::value::law_added_member_is_found;
use crate::value::str_view;
use crate::value::text_in;
use vstd::prelude::*;
use vstd::string::*;

verus! {

/// How long a prompt may take where nothing else is asked for: as long as the
/// caller waits.
pub const DEFAULT_PRINT_TIMEOUT: &'static str = "60m";

/// The words of a command line.
pub uninterp spec fn shell_split(s: Seq<char>) -> Option<Seq<Seq<char>>>;

/// The words of a command line, by `shell_words::split`. Claims only that the
/// same text always has the same words, or never any.
#[verifier::external_body]
fn split_shell(s: &str) -> (r: Option<Vec<String>>)
    ensures
        r.deep_view() == shell_split(s@),
{
    shell_words::split(s).ok()
}

/// Whether an argument sets the time that a prompt may take.
pub open spec fn sets_timeout(arg: Seq<char>) -> bool {
    arg == "--print-timeout"@ || "--print-timeout="@.is_prefix_of(arg)
}

/// Arguments that set the time that a prompt may take, one way or the other.
pub open spec fn with_timeout(args: Seq<Seq<char>>) -> Seq<Seq<char>> {
    if exists|i: int| 0 <= i < args.len() && sets_timeout(#[trigger] args[i]) {
        args
    } else {
        args + seq!["--print-timeout"@, "60m"@]
    }
}

/// Adds the default time to arguments that set none.
pub fn with_print_timeout(args: Vec<String>) -> (r: Vec<String>)
    ensures
        r.deep_view() == with_timeout(args.deep_view()),
{
    let ghost all = args.deep_view();
    let mut i: usize = 0;
    while i < args.len()
        invariant
            i <= args@.len(),
            all == args.deep_view(),
            forall|k: int| 0 <= k < i ==> !sets_timeout(#[trigger] all[k]),
        decreases args@.len() - i,
    {
        let a = args[i].as_str();
        assert(a@ == all[i as int]);
        if same(a, "--print-timeout") || starts_with(a, "--print-timeout=") {
            assert(sets_timeout(all[i as int]));
            return args;
        }
        i += 1;
    }
    let mut out = args;
    push_text(&mut out, "--print-timeout");
    push_text(&mut out, DEFAULT_PRINT_TIMEOUT);
    assert(out.deep_view() =~= all + seq!["--print-timeout"@, "60m"@]);
    out
}

/// The arguments that an operator adds: none where they cannot be read.
pub fn prompt_extra_args(extra: &str) -> (r: Vec<String>)
    ensures
        r.deep_view() == with_timeout(
            match shell_split(extra@) {
                Some(words) => words,
                None => seq![],
            },
        ),
{
    let args = match split_shell(extra) {
        Some(words) => words,
        None => {
            let none: Vec<String> = Vec::new();
            assert(none.deep_view() =~= seq![]);
            none
        },
    };
    with_print_timeout(args)
}

/// Whatever arguments are given, the time of a prompt is set, and arguments
/// that set it are left alone.
pub proof fn law_timeout_is_always_set(args: Seq<Seq<char>>)
    ensures
        exists|i: int|
            0 <= i < with_timeout(args).len() && sets_timeout(#[trigger] with_timeout(args)[i]),
        args.is_prefix_of(with_timeout(args)),
        (exists|i: int| 0 <= i < args.len() && sets_timeout(#[trigger] args[i])) ==> with_timeout(
            args,
        ) == args,
{
    if !(exists|i: int| 0 <= i < args.len() && sets_timeout(#[trigger] args[i])) {
        assert(sets_timeout(with_timeout(args)[args.len() as int]));
        assert(args =~= with_timeout(args).subrange(0, args.len() as int));
    } else {
        assert(args =~= with_timeout(args).subrange(0, args.len() as int));
    }
}

/// A session.
#[derive(Debug, PartialEq, Eq)]
pub struct Session {
    pub conversation_id: Option<String>,
    pub last_step_idx: i64,
    pub model_id: Option<String>,
}

/// A session as it is kept between runs.
#[derive(Debug, PartialEq, Eq)]
pub struct StoredSession {
    pub conversation_id: Option<String>,
    pub last_step_idx: i64,
    pub model_id: Option<String>,
}

/// What a session says.
#[verifier::ext_equal]
pub struct SessionView {
    pub conversation_id: Option<Seq<char>>,
    pub last_step_idx: i64,
    pub model_id: Option<Seq<char>>,
}

impl View for Session {
    type V = SessionView;

    open spec fn view(&self) -> SessionView {
        SessionView {
            conversation_id: self.conversation_id.deep_view(),
            last_step_idx: self.last_step_idx,
            model_id: self.model_id.deep_view(),
        }
    }
}

impl View for StoredSession {
    type V = SessionView;

    open spec fn view(&self) -> SessionView {
        SessionView {
            conversation_id: self.conversation_id.deep_view(),
            last_step_idx: self.last_step_idx,
            model_id: self.model_id.deep_view(),
        }
    }
}

/// The sessions that are kept between runs.
pub struct SessionStore {
    pub sessions: Sessions<StoredSession>,
}

impl SessionStore {
    pub open spec fn wf(&self) -> bool {
        self.sessions.wf()
    }

    /// Nothing is kept.
    pub fn new() -> (r: Self)
        ensures
            r.wf(),
            r.sessions@ == Map::<Seq<char>, SessionView>::empty(),
    {
        SessionStore { sessions: Sessions::new() }
    }

    /// Keeps a session.
    pub fn persist_session(&mut self, session_id: &str, session: StoredSession)
        requires
            old(self).wf(),
        ensures
            final(self).wf(),
            final(self).sessions@ == old(self).sessions@.insert(session_id@, session@),
    {
        self.sessions.put(session_id, session);
    }

    /// The session of an id, if its conversation is known.
    pub fn restore_session(&self, session_id: &str) -> (r: Option<Session>)
        requires
            self.wf(),
        ensures
            match restored(self.sessions@, session_id@) {
                Some(s) => r matches Some(t) && t@ == s,
                None => r is None,
            },
    {
        match self.sessions.get(session_id) {
            Some(s) => match &s.conversation_id {
                Some(c) => Some(
                    Session {
                        conversation_id: Some(c.clone()),
                        last_step_idx: s.last_step_idx,
                        model_id: copy_text(&s.model_id),
                    },
                ),
                None => None,
            },
            None => None,
        }
    }
}

/// The session of an id, if it is kept and its conversation is known.
pub open spec fn restored(store: Map<Seq<char>, SessionView>, id: Seq<char>) -> Option<
    SessionView,
> {
    if store.contains_key(id) && store[id].conversation_id is Some {
        Some(store[id])
    } else {
        None
    }
}

/// What is kept is restored, and nothing else is touched.
pub proof fn law_kept_session_is_restored(
    store: Map<Seq<char>, SessionView>,
    id: Seq<char>,
    s: SessionView,
    other: Seq<char>,
)
    ensures
        s.conversation_id is Some ==> restored(store.insert(id, s), id) == Some(s),
        s.conversation_id is None ==> restored(store.insert(id, s), id) is None,
        other != id ==> restored(store.insert(id, s), other) == restored(store, other),
{
}

/// The models to choose from where nobody names any.
pub open spec fn fallback_models() -> Seq<Seq<char>> {
    seq![
        "Gemini 3.5 Flash (Medium)"@,
        "Gemini 3.5 Flash (High)"@,
        "Gemini 3.5 Flash (Low)"@,
        "Gemini 3.1 Pro (Low)"@,
        "Gemini 3.1 Pro (High)"@,
    ]
}

/// The names that a JSON value lists: the texts of an array that holds nothing
/// else and is not empty.
pub open spec fn listed_names(v: Option<JsonView>) -> Option<Seq<Seq<char>>> {
    match v {
        Some(JsonView::Array(items)) => if items.len() > 0 && forall|i: int|
            0 <= i < items.len() ==> (#[trigger] items[i]) is Text {
            Some(items.map_values(|item: JsonView| item->Text_0))
        } else {
            None
        },
        _ => None,
    }
}

/// The models that the text of the cache lists, if it lists any.
pub fn cached_models(text: &str) -> (r: Option<Vec<String>>)
    ensures
        r.deep_view() == listed_names(parsed_json(text@)),
{
    let value = match parse_json(text) {
        Some(v) => v,
        None => {
            return None;
        },
    };
    let items = match value.as_array() {
        Some(items) => items,
        None => {
            return None;
        },
    };
    let ghost all = items.deep_view();
    assert(parsed_json(text@) == Some(JsonView::Array(all)));
    assert(all.len() == items@.len());
    if items.len() == 0 {
        return None;
    }
    let mut out: Vec<String> = Vec::new();
    let mut i: usize = 0;
    while i < items.len()
        invariant
            i <= items@.len(),
            all == items.deep_view(),
            all.len() == items@.len(),
            parsed_json(text@) == Some(JsonView::Array(all)),
            forall|k: int| 0 <= k < i ==> (#[trigger] all[k]) is Text,
            out.deep_view() =~= all.take(i as int).map_values(|item: JsonView| item->Text_0),
        decreases items@.len() - i,
    {
        assert(all[i as int] == items@[i as int]@);
        match items[i].as_str() {
            Some(name) => push_text(&mut out, name),
            None => {
                assert(!(all[i as int] is Text));
                return None;
            },
        }
        i += 1;
    }
    assert(all.take(i as int) =~= all);
    Some(out)
}

/// A list of names as the cache holds it: a JSON array of strings.
pub open spec fn names_text(names: Seq<Seq<char>>) -> Seq<char> {
    "["@ + joined(names.map_values(|name: Seq<char>| json_string(name)), ","@) + "]"@
}

/// A list of models as the cache holds it.
pub fn models_cache_text(models: &Vec<String>) -> (r: String)
    ensures
        r@ == names_text(models.deep_view()),
{
    let ghost all = models.deep_view().map_values(|name: Seq<char>| json_string(name));
    let mut parts: Vec<String> = Vec::new();
    let mut i: usize = 0;
    while i < models.len()
        invariant
            i <= models@.len(),
            all == models.deep_view().map_values(|name: Seq<char>| json_string(name)),
            parts.deep_view() =~= all.take(i as int),
        decreases models@.len() - i,
    {
        let part = quoted(models[i].as_str());
        push_text(&mut parts, part.as_str());
        i += 1;
    }
    assert(parts.deep_view().skip(0) =~= all);
    let body = join(&parts, 0, ",");
    let mut out = "[".to_owned();
    out.append(body.as_str());
    out.append("]");
    out
}

/// Where the models are learnt from that there are.
#[derive(Debug, PartialEq, Eq)]
pub struct ModelSources {
    /// The models that the program named. None where it failed.
    pub fetched: Vec<String>,
    /// The text of the cache, where there is one.
    pub cache: Option<String>,
}

/// What [`ModelSources`] say.
#[verifier::ext_equal]
pub struct SourcesView {
    pub fetched: Seq<Seq<char>>,
    pub cache: Option<Seq<char>>,
}

impl View for ModelSources {
    type V = SourcesView;

    open spec fn view(&self) -> SourcesView {
        SourcesView { fetched: self.fetched.deep_view(), cache: self.cache.deep_view() }
    }
}

impl SourcesView {
    /// The models that there are: those that the program named, else those that
    /// it named before, else the usual ones.
    pub open spec fn models(self) -> Seq<Seq<char>> {
        if self.fetched.len() > 0 {
            self.fetched
        } else {
            match self.cache {
                Some(text) => match listed_names(parsed_json(text)) {
                    Some(names) => names,
                    None => fallback_models(),
                },
                None => fallback_models(),
            }
        }
    }
}

/// There is always a model to choose.
pub proof fn law_there_are_models(sources: SourcesView)
    ensures
        sources.models().len() > 0,
{
}

/// The lines that name a model.
pub open spec fn model_names(ls: Seq<Seq<char>>) -> Seq<Seq<char>>
    decreases ls.len(),
{
    if ls.len() == 0 {
        seq![]
    } else {
        let rest = model_names(ls.drop_last());
        if trimmed(ls.last()).len() > 0 {
            rest.push(trimmed(ls.last()))
        } else {
            rest
        }
    }
}

/// The models that a listing names, one to a line.
pub fn parse_models(stdout: &str) -> (r: Vec<String>)
    ensures
        r.deep_view() == model_names(lines(stdout@)),
{
    let ls = split_lines(stdout);
    let ghost all = lines(stdout@);
    let mut out: Vec<String> = Vec::new();
    let mut i: usize = 0;
    assert(all.take(0) =~= seq![]);
    assert(out.deep_view() =~= seq![]);
    while i < ls.len()
        invariant
            i <= ls@.len(),
            all == ls.deep_view(),
            out.deep_view() == model_names(all.take(i as int)),
        decreases ls@.len() - i,
    {
        proof {
            assert(all.take(i + 1).drop_last() =~= all.take(i as int));
            assert(all.take(i + 1).last() == ls@[i as int]@);
        }
        let name = trim(ls[i].as_str());
        if !name.is_empty() {
            push_text(&mut out, name);
        }
        i += 1;
    }
    assert(all.take(i as int) =~= all);
    out
}

/// The program that is run: the operator's choice, or the usual place.
pub fn agy_bin(value: Option<String>) -> (r: String)
    ensures
        r@ == (match value {
            Some(v) => v@,
            None => "/usr/local/bin/agy"@,
        }),
{
    match value {
        Some(v) => v,
        None => "/usr/local/bin/agy".to_owned(),
    }
}

/// Where programs are looked for: the usual places of a home directory first.
pub fn augmented_path(home: Option<&str>, path: Option<&str>) -> (r: String)
    ensures
        ({
            let h = match home {
                Some(h) => h@,
                None => "/home/agent"@,
            };
            let p = match path {
                Some(p) => p@,
                None => "/usr/local/bin:/usr/bin:/bin"@,
            };
            r@ == h + "/bin:"@ + h + "/.local/bin:"@ + h
                + "/.local/share/fnm/aliases/default/bin:"@ + p
        }),
{
    let h = match home {
        Some(h) => h,
        None => "/home/agent",
    };
    let p = match path {
        Some(p) => p,
        None => "/usr/local/bin:/usr/bin:/bin",
    };
    let mut out = h.to_owned();
    out.append("/bin:");
    out.append(h);
    out.append("/.local/bin:");
    out.append(h);
    out.append("/.local/share/fnm/aliases/default/bin:");
    out.append(p);
    out
}

/// The configuration that a session offers: its models, if there are any.
pub open spec fn config_options(models: Seq<Seq<char>>, model_id: Option<Seq<char>>) -> JsonView {
    if models.len() == 0 {
        JsonView::Array(seq![])
    } else {
        JsonView::Array(
            seq![
                JsonView::empty_object().with("id"@, JsonView::Text("model"@)).with(
                    "name"@,
                    JsonView::Text("Model"@),
                ).with("category"@, JsonView::Text("model"@)).with(
                    "type"@,
                    JsonView::Text("select"@),
                ).with(
                    "currentValue"@,
                    JsonView::Text(
                        match model_id {
                            Some(m) => m,
                            None => models[0],
                        },
                    ),
                ).with("options"@, JsonView::Array(model_options(models))),
            ],
        )
    }
}

/// One choice for each model.
pub open spec fn model_options(models: Seq<Seq<char>>) -> Seq<JsonView> {
    models.map_values(
        |m: Seq<char>|
            JsonView::empty_object().with("value"@, JsonView::Text(m)).with(
                "name"@,
                JsonView::Text(m),
            ),
    )
}

/// An adapter.
pub struct Adapter {
    pub sessions: Sessions<Session>,
    pub working_dir: String,
    pub conversations_dir: String,
    pub state_dir: String,
    pub available_models: Option<Vec<String>>,
}

/// What an [`Adapter`] says.
#[verifier::ext_equal]
pub struct AdapterView {
    /// The ids of the sessions, the oldest first.
    pub order: Seq<Seq<char>>,
    pub sessions: Map<Seq<char>, SessionView>,
    pub working_dir: Seq<char>,
    pub conversations_dir: Seq<char>,
    pub state_dir: Seq<char>,
    pub models: Option<Seq<Seq<char>>>,
}

impl View for Adapter {
    type V = AdapterView;

    open spec fn view(&self) -> AdapterView {
        AdapterView {
            order: self.sessions.order(),
            sessions: self.sessions@,
            working_dir: self.working_dir@,
            conversations_dir: self.conversations_dir@,
            state_dir: self.state_dir@,
            models: self.available_models.deep_view(),
        }
    }
}

impl AdapterView {
    /// With room for one more session.
    pub open spec fn evicted(self) -> AdapterView {
        AdapterView {
            order: room(self.order),
            sessions: self.sessions.restrict(room(self.order).to_set()),
            ..self
        }
    }

    /// With a session.
    pub open spec fn with_session(self, id: Seq<char>, s: SessionView) -> AdapterView {
        AdapterView {
            order: if self.sessions.contains_key(id) {
                self.order
            } else {
                self.order.push(id)
            },
            sessions: self.sessions.insert(id, s),
            ..self
        }
    }

    /// With a session that was kept, if it was.
    pub open spec fn restoring(self, id: Seq<char>, store: Map<Seq<char>, SessionView>) -> AdapterView {
        match restored(store, id) {
            Some(s) => if self.sessions.contains_key(id) {
                self.with_session(id, s)
            } else {
                self.evicted().with_session(id, s)
            },
            None => self,
        }
    }

    /// With a session that was kept, where none is held.
    pub open spec fn recalling(self, id: Seq<char>, store: Map<Seq<char>, SessionView>) -> AdapterView {
        if self.sessions.contains_key(id) {
            self
        } else {
            self.restoring(id, store)
        }
    }

    /// The models to choose from: those that were settled on, else those that
    /// the sources give.
    pub open spec fn known_models(self, sources: SourcesView) -> Seq<Seq<char>> {
        match self.models {
            Some(m) => m,
            None => sources.models(),
        }
    }

    /// With the models settled.
    pub open spec fn settled(self, sources: SourcesView) -> AdapterView {
        AdapterView { models: Some(self.known_models(sources)), ..self }
    }
}

/// A member of the parameters that is text, or nothing at all.
pub open spec fn param(params: JsonView, key: Seq<char>) -> Seq<char> {
    match text_in(Some(params), key) {
        Some(t) => t,
        None => ""@,
    }
}

fn param_str<'a>(params: &'a Json, key: &str) -> (r: &'a str)
    ensures
        r@ == param(params@, key@),
{
    match params.get_str(key) {
        Some(t) => t,
        None => "",
    }
}

/// The texts of the blocks that have one.
pub open spec fn block_texts(blocks: Seq<JsonView>) -> Seq<Seq<char>>
    decreases blocks.len(),
{
    if blocks.len() == 0 {
        seq![]
    } else {
        let rest = block_texts(blocks.drop_last());
        match text_in(Some(blocks.last()), "text"@) {
            Some(t) => rest.push(t),
            None => rest,
        }
    }
}

/// The prompt of a request: the texts of its blocks, one to a line.
pub open spec fn request_prompt(params: JsonView) -> Seq<char> {
    match get_of(Some(params), "prompt"@) {
        Some(JsonView::Array(blocks)) => trimmed(joined(block_texts(blocks), "\n"@)),
        _ => trimmed(""@),
    }
}

/// The prompt of a request.
pub fn prompt_of(params: &Json) -> (r: String)
    ensures
        r@ == request_prompt(params@),
{
    let blocks = match params.get("prompt") {
        Some(p) => match p.as_array() {
            Some(b) => b,
            None => {
                return trim("").to_owned();
            },
        },
        None => {
            return trim("").to_owned();
        },
    };
    let ghost all = blocks.deep_view();
    let mut texts: Vec<String> = Vec::new();
    let mut i: usize = 0;
    assert(all.take(0) =~= seq![]);
    assert(texts.deep_view() =~= seq![]);
    while i < blocks.len()
        invariant
            i <= blocks@.len(),
            all == blocks.deep_view(),
            texts.deep_view() == block_texts(all.take(i as int)),
        decreases blocks@.len() - i,
    {
        proof {
            assert(all.take(i + 1).drop_last() =~= all.take(i as int));
            assert(all.take(i + 1).last() == blocks@[i as int]@);
        }
        match blocks[i].get_str("text") {
            Some(t) => push_text(&mut texts, t),
            None => {},
        }
        i += 1;
    }
    assert(all.take(i as int) =~= all);
    assert(texts.deep_view().skip(0) =~= texts.deep_view());
    let whole = join(&texts, 0, "\n");
    trim(whole.as_str()).to_owned()
}

/// What running a prompt takes.
#[derive(Debug, PartialEq, Eq)]
pub struct PromptState {
    pub session_id: String,
    pub prompt: String,
    pub args: Vec<String>,
    /// Whether the conversation has yet to be found.
    pub needs_snapshot: bool,
    pub conversation_id: Option<String>,
    pub last_step_idx: i64,
}

/// The arguments of a prompt.
pub open spec fn prompt_args(
    working_dir: Seq<char>,
    extra: Seq<Seq<char>>,
    conversation: Option<Seq<char>>,
    model: Option<Seq<char>>,
    prompt: Seq<char>,
) -> Seq<Seq<char>> {
    seq!["--add-dir"@, working_dir] + extra + (match conversation {
        Some(c) => seq!["--conversation"@, c],
        None => seq![],
    }) + (match model {
        Some(m) => seq!["--model"@, m],
        None => seq![],
    }) + seq!["-p"@, prompt]
}

/// The arguments of a prompt.
pub(crate) fn prompt_arguments(
    working_dir: &str,
    extra_args: &Vec<String>,
    conversation_id: &Option<String>,
    model_id: &Option<String>,
    prompt: &str,
) -> (r: Vec<String>)
    ensures
        r.deep_view() == prompt_args(
            working_dir@,
            extra_args.deep_view(),
            conversation_id.deep_view(),
            model_id.deep_view(),
            prompt@,
        ),
{
    let ghost extra = extra_args.deep_view();
    let mut args: Vec<String> = Vec::new();
    assert(args.deep_view() =~= seq![]);
    push_text(&mut args, "--add-dir");
    push_text(&mut args, working_dir);
    let ghost head = args.deep_view();
    assert(head =~= seq!["--add-dir"@, working_dir@]);
    let mut i: usize = 0;
    while i < extra_args.len()
        invariant
            i <= extra_args@.len(),
            extra == extra_args.deep_view(),
            args.deep_view() =~= head + extra.take(i as int),
        decreases extra_args@.len() - i,
    {
        push_text(&mut args, extra_args[i].as_str());
        i += 1;
    }
    assert(extra.take(i as int) =~= extra);
    let ghost sofar = args.deep_view();
    match conversation_id {
        Some(c) => {
            push_text(&mut args, "--conversation");
            push_text(&mut args, c.as_str());
            assert(args.deep_view() =~= sofar + seq!["--conversation"@, c@]);
        },
        None => {
            assert(args.deep_view() =~= sofar + seq![]);
        },
    }
    let ghost sofar2 = args.deep_view();
    match model_id {
        Some(m) => {
            push_text(&mut args, "--model");
            push_text(&mut args, m.as_str());
            assert(args.deep_view() =~= sofar2 + seq!["--model"@, m@]);
        },
        None => {
            assert(args.deep_view() =~= sofar2 + seq![]);
        },
    }
    let ghost sofar3 = args.deep_view();
    push_text(&mut args, "-p");
    push_text(&mut args, prompt);
    assert(args.deep_view() =~= sofar3 + seq!["-p"@, prompt@]);
    args
}

/// The conversation of a session, where both are known.
pub open spec fn conversation_in(session: Option<SessionView>) -> Option<Seq<char>> {
    match session {
        Some(s) => s.conversation_id,
        None => None,
    }
}

/// The model of a session, where one was chosen.
pub open spec fn model_in(session: Option<SessionView>) -> Option<Seq<char>> {
    match session {
        Some(s) => s.model_id,
        None => None,
    }
}

/// The session of an id.
pub open spec fn session_at(sessions: Map<Seq<char>, SessionView>, id: Seq<char>) -> Option<
    SessionView,
> {
    if sessions.contains_key(id) {
        Some(sessions[id])
    } else {
        None
    }
}

/// Whether `r` is what running a prompt in a session takes.
pub open spec fn planned(
    a: AdapterView,
    session_id: Seq<char>,
    prompt: Seq<char>,
    extra: Seq<Seq<char>>,
    r: PromptState,
) -> bool {
    let session = session_at(a.sessions, session_id);
    &&& r.session_id@ == session_id
    &&& r.prompt@ == prompt
    &&& r.args.deep_view() == prompt_args(
        a.working_dir,
        extra,
        conversation_in(session),
        model_in(session),
        prompt,
    )
    &&& r.needs_snapshot == (session matches Some(s) && s.conversation_id is None)
    &&& r.conversation_id.deep_view() == conversation_in(session)
    &&& r.last_step_idx == (match session {
        Some(s) => s.last_step_idx as int,
        None => -1,
    })
}

/// Whether the answer and the state after it are what loading a session that
/// was kept leads to.
pub open spec fn session_loaded(
    id: JsonView,
    params: JsonView,
    store: Map<Seq<char>, SessionView>,
    sources: SourcesView,
    before: AdapterView,
    after: AdapterView,
    answer: JsonView,
) -> bool {
    let session_id = param(params, "sessionId"@);
    if session_id.len() == 0 {
        &&& after == before
        &&& answer == error_json(id, -32602, "missing sessionId"@)
    } else {
        match restored(store, session_id) {
            Some(s) => {
                &&& after == before.restoring(session_id, store).settled(sources)
                &&& answer == result_json(
                    id,
                    session_result(session_id, before.known_models(sources), s.model_id),
                )
            },
            None => {
                &&& after == before
                &&& answer == error_json(id, -32000, "unknown sessionId: "@ + session_id)
            },
        }
    }
}

/// Whether the answer, the state after it and what is to be kept are what
/// setting the model of a session leads to.
pub open spec fn model_set(
    id: JsonView,
    params: JsonView,
    store: Map<Seq<char>, SessionView>,
    sources: SourcesView,
    before: AdapterView,
    after: AdapterView,
    answer: JsonView,
    keep: Option<SessionView>,
) -> bool {
    let session_id = param(params, "sessionId"@);
    let value = param(params, "value"@);
    let recalled = before.recalling(session_id, store);
    if session_id.len() == 0 || param(params, "configId"@) != "model"@ || value.len() == 0 {
        &&& after == before
        &&& answer == error_json(id, -32602, "missing sessionId, configId, or value"@)
        &&& keep is None
    } else if !recalled.sessions.contains_key(session_id) {
        &&& after == recalled
        &&& answer == error_json(id, -32000, "unknown sessionId: "@ + session_id)
        &&& keep is None
    } else {
        let s = SessionView { model_id: Some(value), ..recalled.sessions[session_id] };
        &&& after == recalled.with_session(session_id, s).settled(sources)
        &&& answer == result_json(
            id,
            JsonView::empty_object().with(
                "configOptions"@,
                config_options(before.known_models(sources), Some(value)),
            ),
        )
        &&& keep == Some(s)
    }
}

impl Adapter {
    pub open spec fn wf(&self) -> bool {
        self.sessions.wf()
    }

    /// An adapter without sessions, given what `HOME` and `AGY_ACP_STATE_DIR`
    /// hold and where the program runs.
    pub fn new(home: Option<&str>, state_dir: Option<&str>, working_dir: Option<&str>) -> (r: Self)
        ensures
            r.wf(),
            ({
                let h = match home {
                    Some(h) => h@,
                    None => "/tmp"@,
                };
                r@ == (AdapterView {
                    order: Seq::empty(),
                    sessions: Map::empty(),
                    working_dir: match working_dir {
                        Some(d) => d@,
                        None => "/tmp"@,
                    },
                    conversations_dir: path_join(h, ".gemini/antigravity-cli/conversations"@),
                    state_dir: match state_dir {
                        Some(d) => d@,
                        None => path_join(h, ".openab/agy-acp"@),
                    },
                    models: None,
                })
            }),
    {
        let h = match home {
            Some(h) => h,
            None => "/tmp",
        };
        Adapter {
            sessions: Sessions::new(),
            working_dir: match working_dir {
                Some(d) => d.to_owned(),
                None => "/tmp".to_owned(),
            },
            conversations_dir: join_path(h, ".gemini/antigravity-cli/conversations"),
            state_dir: match state_dir {
                Some(d) => d.to_owned(),
                None => join_path(h, ".openab/agy-acp"),
            },
            available_models: None,
        }
    }

    /// Where sessions are kept.
    pub fn state_file(&self) -> (r: String)
        ensures
            r@ == path_join(self@.state_dir, "sessions.json"@),
    {
        join_path(self.state_dir.as_str(), "sessions.json")
    }

    /// Where the models are kept that were last seen.
    pub fn models_cache_path(&self) -> (r: String)
        ensures
            r@ == path_join(self@.state_dir, "models_cache.json"@),
    {
        join_path(self.state_dir.as_str(), "models_cache.json")
    }

    /// The models to choose from where nobody names any.
    pub fn static_fallback_models() -> (r: Vec<String>)
        ensures
            r.deep_view() == fallback_models(),
    {
        let mut out: Vec<String> = Vec::new();
        assert(out.deep_view() =~= seq![]);
        push_text(&mut out, "Gemini 3.5 Flash (Medium)");
        push_text(&mut out, "Gemini 3.5 Flash (High)");
        push_text(&mut out, "Gemini 3.5 Flash (Low)");
        push_text(&mut out, "Gemini 3.1 Pro (Low)");
        push_text(&mut out, "Gemini 3.1 Pro (High)");
        assert(out.deep_view() =~= fallback_models());
        out
    }

    /// Whether settling the models calls for keeping what the program named.
    pub fn keeps_models(&self, sources: &ModelSources) -> (r: bool)
        ensures
            r == (self@.models is None && sources@.fetched.len() > 0),
    {
        assert(sources.fetched.deep_view().len() == sources.fetched@.len());
        self.available_models.is_none() && sources.fetched.len() > 0
    }

    /// The models that there are. Which, is settled the first time that they are
    /// asked for.
    pub fn get_available_models(&mut self, sources: ModelSources) -> (r: &Vec<String>)
        requires
            old(self).wf(),
        ensures
            final(self).wf(),
            final(self)@ == old(self)@.settled(sources@),
            r.deep_view() == old(self)@.known_models(sources@),
    {
        if self.available_models.is_none() {
            assert(sources.fetched.deep_view().len() == sources.fetched@.len());
            let models = if sources.fetched.len() > 0 {
                sources.fetched
            } else {
                let cached = match &sources.cache {
                    Some(text) => cached_models(text.as_str()),
                    None => None,
                };
                match cached {
                    Some(names) => names,
                    None => Adapter::static_fallback_models(),
                }
            };
            self.available_models = Some(models);
        }
        self.available_models.as_ref().unwrap()
    }

    /// The configuration that a session offers.
    pub fn config_options_json(&mut self, model_id: Option<&str>, sources: ModelSources) -> (r:
        Json)
        requires
            old(self).wf(),
        ensures
            final(self).wf(),
            final(self)@ == old(self)@.settled(sources@),
            r@ == config_options(old(self)@.known_models(sources@), str_view(model_id)),
    {
        let models = self.get_available_models(sources);
        let mut list: Vec<Json> = Vec::new();
        assert(list.deep_view() =~= seq![]);
        let ghost names = models.deep_view();
        assert(names.len() == models@.len());
        if models.len() == 0 {
            return Json::array(list);
        }
        let mut options: Vec<Json> = Vec::new();
        let mut i: usize = 0;
        while i < models.len()
            invariant
                i <= models@.len(),
                names == models.deep_view(),
                options.deep_view() =~= model_options(names.take(i as int)),
            decreases models@.len() - i,
        {
            let ghost sofar = options.deep_view();
            let name = models[i].as_str();
            let o = Json::object().with("value", Json::text(name)).with("name", Json::text(name));
            let ghost shown = o@;
            options.push(o);
            assert(options.deep_view() =~= sofar.push(shown));
            i += 1;
        }
        assert(names.take(i as int) =~= names);
        let current = match model_id {
            Some(m) => m,
            None => models[0].as_str(),
        };
        let entry = Json::object().with("id", Json::text("model")).with(
            "name",
            Json::text("Model"),
        ).with("category", Json::text("model")).with("type", Json::text("select")).with(
            "currentValue",
            Json::text(current),
        ).with("options", Json::array(options));
        let ghost shown = entry@;
        list.push(entry);
        assert(list.deep_view() =~= seq![shown]);
        Json::array(list)
    }

    /// Makes room for one more session.
    pub fn evict_if_needed(&mut self)
        requires
            old(self).wf(),
        ensures
            final(self).wf(),
            final(self)@ == old(self)@.evicted(),
    {
        self.sessions.evict_if_needed();
    }

    /// Takes a session back that was kept. Nothing is evicted for one that was
    /// not.
    pub fn restore_session_state(&mut self, session_id: &str, store: &SessionStore) -> (r: bool)
        requires
            old(self).wf(),
            store.wf(),
        ensures
            final(self).wf(),
            final(self)@ == old(self)@.restoring(session_id@, store.sessions@),
            r == (restored(store.sessions@, session_id@) is Some),
    {
        match store.restore_session(session_id) {
            Some(s) => {
                if !self.sessions.contains(session_id) {
                    self.sessions.evict_if_needed();
                }
                self.sessions.put(session_id, s);
                true
            },
            None => false,
        }
    }

    /// The conversations among the files of their directory.
    pub fn conversation_snapshot(names: &Vec<String>) -> (r: Vec<String>)
        ensures
            r.deep_view() == stems(names.deep_view(), "db"@),
    {
        conversation_ids(names, "db")
    }

    /// Who answers, and what it can do.
    pub fn handle_initialize(&self, id: Json, version: &str) -> (r: Json)
        ensures
            r@ == result_json(id@, initialize_result(version@)),
    {
        initialize_answer(id, version)
    }

    /// Opens a session under the given id.
    pub fn open_session(&mut self, id: Json, session_id: &str, sources: ModelSources) -> (r: Json)
        requires
            old(self).wf(),
        ensures
            final(self).wf(),
            final(self)@ == old(self)@.evicted().with_session(
                session_id@,
                fresh_session(),
            ).settled(sources@),
            r@ == result_json(
                id@,
                session_result(session_id@, old(self)@.known_models(sources@), None),
            ),
    {
        self.sessions.evict_if_needed();
        self.sessions.put(
            session_id,
            Session { conversation_id: None, last_step_idx: -1, model_id: None },
        );
        let options = self.config_options_json(None, sources);
        result_response(
            id,
            Json::object().with("sessionId", Json::text(session_id)).with("configOptions", options),
        )
    }

    /// Opens a session under a fresh id.
    pub fn handle_session_new(&mut self, id: Json, sources: ModelSources) -> (r: Json)
        requires
            old(self).wf(),
        ensures
            final(self).wf(),
            exists|session_id: Seq<char>|
                #![trigger session_result(session_id, old(self)@.known_models(sources@), None)]
                is_uuid(session_id) && final(self)@ == old(self)@.evicted().with_session(
                    session_id,
                    fresh_session(),
                ).settled(sources@) && r@ == result_json(
                    id@,
                    session_result(session_id, old(self)@.known_models(sources@), None),
                ),
    {
        let session_id = fresh_uuid();
        self.open_session(id, session_id.as_str(), sources)
    }

    /// Loads a session that was kept.
    pub fn handle_session_load(
        &mut self,
        id: Json,
        params: &Json,
        store: &SessionStore,
        sources: ModelSources,
    ) -> (r: Json)
        requires
            old(self).wf(),
            store.wf(),
        ensures
            final(self).wf(),
            session_loaded(
                id@,
                params@,
                store.sessions@,
                sources@,
                old(self)@,
                final(self)@,
                r@,
            ),
    {
        let session_id = param_str(params, "sessionId");
        if session_id.is_empty() {
            return error_response(id, -32602, "missing sessionId");
        }
        if self.restore_session_state(session_id, store) {
            let model_id = match self.sessions.get(session_id) {
                Some(s) => copy_text(&s.model_id),
                None => None,
            };
            let options = match &model_id {
                Some(m) => self.config_options_json(Some(m.as_str()), sources),
                None => self.config_options_json(None, sources),
            };
            return result_response(
                id,
                Json::object().with("sessionId", Json::text(session_id)).with(
                    "configOptions",
                    options,
                ),
            );
        }
        let mut message = "unknown sessionId: ".to_owned();
        message.append(session_id);
        error_response(id, -32000, message.as_str())
    }

    /// Sets the model of a session. What is to be kept is returned with the
    /// answer.
    pub fn handle_session_set_config_option(
        &mut self,
        id: Json,
        params: &Json,
        store: &SessionStore,
        sources: ModelSources,
    ) -> (r: (Json, Option<StoredSession>))
        requires
            old(self).wf(),
            store.wf(),
        ensures
            final(self).wf(),
            model_set(
                id@,
                params@,
                store.sessions@,
                sources@,
                old(self)@,
                final(self)@,
                r.0@,
                match r.1 {
                    Some(kept) => Some(kept@),
                    None => None,
                },
            ),
    {
        let session_id = param_str(params, "sessionId");
        let config_id = param_str(params, "configId");
        let value = param_str(params, "value");
        if session_id.is_empty() || !same(config_id, "model") || value.is_empty() {
            return (error_response(id, -32602, "missing sessionId, configId, or value"), None);
        }
        if !self.sessions.contains(session_id) {
            let _ = self.restore_session_state(session_id, store);
        }
        let (conversation_id, last_step_idx): (Option<String>, i64) = match self.sessions.get(
            session_id,
        ) {
            Some(s) => (copy_text(&s.conversation_id), s.last_step_idx),
            None => {
                let mut message = "unknown sessionId: ".to_owned();
                message.append(session_id);
                return (error_response(id, -32000, message.as_str()), None);
            },
        };
        let kept = StoredSession {
            conversation_id: copy_text(&conversation_id),
            last_step_idx,
            model_id: Some(value.to_owned()),
        };
        self.sessions.put(
            session_id,
            Session { conversation_id, last_step_idx, model_id: Some(value.to_owned()) },
        );
        let options = self.config_options_json(Some(value), sources);
        (result_response(id, Json::object().with("configOptions", options)), Some(kept))
    }

    /// What running a prompt takes, given what `AGY_EXTRA_ARGS` holds.
    pub fn prepare_prompt_state(&mut self, params: &Json, store: &SessionStore, extra: &str) -> (r:
        PromptState)
        requires
            old(self).wf(),
            store.wf(),
        ensures
            final(self).wf(),
            ({
                let id = param(params@, "sessionId"@);
                let after = if id.len() > 0 {
                    old(self)@.recalling(id, store.sessions@)
                } else {
                    old(self)@
                };
                &&& final(self)@ == after
                &&& planned(
                    after,
                    id,
                    request_prompt(params@),
                    with_timeout(
                        match shell_split(extra@) {
                            Some(words) => words,
                            None => seq![],
                        },
                    ),
                    r,
                )
            }),
    {
        let session_id = param_str(params, "sessionId");
        if !session_id.is_empty() && !self.sessions.contains(session_id) {
            let _ = self.restore_session_state(session_id, store);
        }
        let prompt = prompt_of(params);
        let extra_args = prompt_extra_args(extra);
        self.plan_prompt(session_id, prompt, extra_args)
    }

    /// What running a prompt takes, given the arguments that are added.
    pub fn plan_prompt(&self, session_id: &str, prompt: String, extra_args: Vec<String>) -> (r:
        PromptState)
        requires
            self.wf(),
        ensures
            planned(self@, session_id@, prompt@, extra_args.deep_view(), r),
    {
        let (held, conversation_id, model_id, last_step_idx): (
            bool,
            Option<String>,
            Option<String>,
            i64,
        ) = match self.sessions.get(session_id) {
            Some(s) => (
                true,
                copy_text(&s.conversation_id),
                copy_text(&s.model_id),
                s.last_step_idx,
            ),
            None => (false, None, None, -1),
        };
        let args = prompt_arguments(
            self.working_dir.as_str(),
            &extra_args,
            &conversation_id,
            &model_id,
            prompt.as_str(),
        );
        PromptState {
            session_id: session_id.to_owned(),
            prompt,
            args,
            needs_snapshot: held && conversation_id.is_none(),
            conversation_id,
            last_step_idx,
        }
    }
}

/// What the adapter says of itself.
pub open spec fn initialize_result(version: Seq<char>) -> JsonView {
    JsonView::empty_object().with(
        "protocolVersion"@,
        JsonView::Number(NumberView::Unsigned(1)),
    ).with(
        "agentInfo"@,
        JsonView::empty_object().with("name"@, JsonView::Text("agy"@)).with(
            "version"@,
            JsonView::Text(version),
        ),
    ).with(
        "agentCapabilities"@,
        JsonView::empty_object().with("streaming"@, JsonView::Bool(true)).with(
            "loadSession"@,
            JsonView::Bool(true),
        ),
    )
}

/// What the adapter says of itself, as a response.
pub(crate) fn initialize_answer(id: Json, version: &str) -> (r: Json)
    ensures
        r@ == result_json(id@, initialize_result(version@)),
{
    result_response(
        id,
        Json::object().with("protocolVersion", Json::number(1)).with(
            "agentInfo",
            Json::object().with("name", Json::text("agy")).with("version", Json::text(version)),
        ).with(
            "agentCapabilities",
            Json::object().with("streaming", Json::Bool(true)).with(
                "loadSession",
                Json::Bool(true),
            ),
        ),
    )
}

/// A session before its first prompt.
pub open spec fn fresh_session() -> SessionView {
    SessionView { conversation_id: None, last_step_idx: (-1) as i64, model_id: None }
}

/// What is said of a session that was opened or loaded.
pub open spec fn session_result(
    session_id: Seq<char>,
    models: Seq<Seq<char>>,
    model_id: Option<Seq<char>>,
) -> JsonView {
    JsonView::empty_object().with("sessionId"@, JsonView::Text(session_id)).with(
        "configOptions"@,
        config_options(models, model_id),
    )
}

/// However sessions come in, no more are held than the limit allows.
pub proof fn law_sessions_are_bounded(a: AdapterView, id: Seq<char>, s: SessionView)
    ensures
        a.evicted().with_session(id, s).order.len() <= crate::agy::sessions::MAX_SESSIONS,
        a.evicted().with_session(id, s).sessions[id] == s,
{
}

/// The texts of a prompt's blocks follow the blocks: those of the first blocks,
/// and behind them those of the rest; a block with a text has one, and one
/// without has none.
pub proof fn law_block_texts_follow_the_blocks(
    a: Seq<JsonView>,
    b: Seq<JsonView>,
    block: JsonView,
)
    ensures
        block_texts(a + b) == block_texts(a) + block_texts(b),
        block_texts(seq![block]) == (match block.text_of("text"@) {
            Some(t) => seq![t],
            None => seq![],
        }),
        block_texts(seq![]) == Seq::<Seq<char>>::empty(),
    decreases b.len(),
{
    if b.len() == 0 {
        assert(a + b =~= a);
        assert(block_texts(a) + Seq::<Seq<char>>::empty() =~= block_texts(a));
    } else {
        law_block_texts_follow_the_blocks(a, b.drop_last(), block);
        assert((a + b).drop_last() =~= a + b.drop_last());
        assert((a + b).last() == b.last());
        assert(block_texts(a + b) =~= block_texts(a) + block_texts(b));
    }
    assert(seq![block].drop_last() =~= Seq::<JsonView>::empty());
    assert(seq![block].last() == block);
    assert(block_texts(Seq::<JsonView>::empty()) =~= Seq::<Seq<char>>::empty());
    match block.text_of("text"@) {
        Some(t) => {
            assert(Seq::<Seq<char>>::empty().push(t) =~= seq![t]);
        },
        None => {},
    }
}

/// A prompt of so many text blocks has so many parts, and each part is the text
/// of its block.
pub proof fn law_every_text_is_a_part(blocks: Seq<JsonView>)
    requires
        forall|i: int| 0 <= i < blocks.len() ==> (#[trigger] blocks[i]).text_of("text"@) is Some,
    ensures
        block_texts(blocks).len() == blocks.len(),
        forall|i: int|
            0 <= i < blocks.len() ==> Some(#[trigger] block_texts(blocks)[i]) == blocks[i].text_of(
                "text"@,
            ),
    decreases blocks.len(),
{
    if blocks.len() > 0 {
        let front = blocks.drop_last();
        assert forall|i: int| 0 <= i < front.len() implies (#[trigger] front[i]).text_of(
            "text"@,
        ) is Some by {
            assert(front[i] == blocks[i]);
        }
        law_every_text_is_a_part(front);
        assert(blocks[blocks.len() - 1] == blocks.last());
        assert forall|i: int| 0 <= i < blocks.len() implies Some(
            #[trigger] block_texts(blocks)[i],
        ) == blocks[i].text_of("text"@) by {
            if i < front.len() {
                assert(front[i] == blocks[i]);
                assert(block_texts(blocks)[i] == block_texts(front)[i]);
            }
        }
    }
}

/// The prompt of a request is what its blocks say, one after the other, without
/// the white space around it; without blocks there is nothing to ask.
pub proof fn law_prompt_is_what_the_blocks_say(params: JsonView, blocks: Seq<JsonView>)
    ensures
        params.get("prompt"@) == Some(JsonView::Array(blocks)) ==> exists|a: Seq<char>, b: Seq<char>|
            #![trigger a + request_prompt(params) + b]
            joined(block_texts(blocks), "\n"@) == a + request_prompt(params) + b
                && all_white(a) && all_white(b),
        params.get("prompt"@) is None ==> request_prompt(params).len() == 0,
{
    let whole = joined(block_texts(blocks), "\n"@);
    law_trimming_takes_white_space_only(whole);
    if params.get("prompt"@) == Some(JsonView::Array(blocks)) {
        assert(request_prompt(params) == trimmed(whole));
        let (a, b) = choose|a: Seq<char>, b: Seq<char>|
            #![trigger a + trimmed(whole) + b]
            whole == a + trimmed(whole) + b && all_white(a) && all_white(b);
        assert(whole == a + request_prompt(params) + b);
    }
    reveal_strlit("");
    assert(""@.len() == 0);
}

/// The arguments of a prompt start with the directory, end with the prompt and
/// hold what was added between; the conversation and the model are named where
/// they are known, in this order, and nowhere else is anything added.
pub proof fn law_arguments_say_what_to_run(
    working_dir: Seq<char>,
    extra: Seq<Seq<char>>,
    conversation: Option<Seq<char>>,
    model: Option<Seq<char>>,
    prompt: Seq<char>,
)
    ensures
        ({
            let args = prompt_args(working_dir, extra, conversation, model, prompt);
            let n = 2 + extra.len() as int;
            let m = n + if conversation is Some {
                2int
            } else {
                0
            };
            let k = m + if model is Some {
                2int
            } else {
                0
            };
            &&& args.len() == k + 2
            &&& args[0] == "--add-dir"@ && args[1] == working_dir
            &&& args.subrange(2, n) == extra
            &&& conversation matches Some(c) ==> args[n] == "--conversation"@ && args[n + 1] == c
            &&& model matches Some(id) ==> args[m] == "--model"@ && args[m + 1] == id
            &&& args[k] == "-p"@ && args[k + 1] == prompt
        }),
{
    let args = prompt_args(working_dir, extra, conversation, model, prompt);
    assert(args.subrange(2, 2 + extra.len() as int) =~= extra);
}

/// The models of a listing are those of its first lines and then those of the
/// rest; a line that says something names a model, without the white space
/// around the name, and a blank line none.
pub proof fn law_models_follow_the_lines(a: Seq<Seq<char>>, b: Seq<Seq<char>>, line: Seq<char>)
    ensures
        model_names(a + b) == model_names(a) + model_names(b),
        model_names(seq![line]) == (if trimmed(line).len() > 0 {
            seq![trimmed(line)]
        } else {
            seq![]
        }),
    decreases b.len(),
{
    if b.len() == 0 {
        assert(a + b =~= a);
        assert(model_names(a) + Seq::<Seq<char>>::empty() =~= model_names(a));
    } else {
        law_models_follow_the_lines(a, b.drop_last(), line);
        assert((a + b).drop_last() =~= a + b.drop_last());
        assert((a + b).last() == b.last());
        assert(model_names(a + b) =~= model_names(a) + model_names(b));
    }
    assert(seq![line].drop_last() =~= Seq::<Seq<char>>::empty());
    assert(seq![line].last() == line);
    let none = Seq::<Seq<char>>::empty();
    assert(model_names(none) =~= none);
    assert(none.push(trimmed(line)) =~= seq![trimmed(line)]);
}

/// An array of names lists those names, in their order; an array that holds
/// anything else, or nothing, lists none.
pub proof fn law_lists_are_of_names(names: Seq<Seq<char>>, items: Seq<JsonView>, i: int)
    ensures
        names.len() > 0 ==> listed_names(
            Some(JsonView::Array(names.map_values(|n: Seq<char>| JsonView::Text(n)))),
        ) == Some(names),
        0 <= i < items.len() && !(items[i] is Text) ==> listed_names(
            Some(JsonView::Array(items)),
        ) is None,
        listed_names(Some(JsonView::Array(seq![]))) is None,
        listed_names(None) is None,
{
    let texts = names.map_values(|n: Seq<char>| JsonView::Text(n));
    assert(texts.map_values(|item: JsonView| item->Text_0) =~= names);
}

/// The cache holds every model as a JSON string.
pub proof fn law_cache_holds_the_models(names: Seq<Seq<char>>, i: int)
    requires
        0 <= i < names.len(),
    ensures
        holds(names_text(names), json_string(names[i])),
{
    let parts = names.map_values(|name: Seq<char>| json_string(name));
    let body = joined(parts, ","@);
    law_joined_text_holds_its_parts(parts, ","@, i);
    assert(parts[i] == json_string(names[i]));
    let (a, b) = ("["@, "]"@);
    let k = choose|k: int|
        0 <= k <= body.len() - parts[i].len() && #[trigger] body.subrange(k, k + parts[i].len())
            == parts[i];
    let n = a.len() + k;
    assert(names_text(names).subrange(n, n + parts[i].len()) =~= parts[i]);
}

/// What the program names now comes before what it named before, and that
/// before the usual models; and once the models are settled, they stay.
pub proof fn law_newest_models_count(a: AdapterView, sources: SourcesView, later: SourcesView)
    ensures
        sources.fetched.len() > 0 ==> sources.models() == sources.fetched,
        sources.fetched.len() == 0 ==> (sources.cache matches Some(text) ==> (listed_names(
            parsed_json(text),
        ) matches Some(names) ==> sources.models() == names)),
        a.settled(sources).known_models(later) == a.known_models(sources),
        a.models is None ==> a.known_models(sources) == sources.models(),
        a.settled(sources).sessions == a.sessions,
{
}

/// The configuration offers one option, the model: each model is a choice, in
/// its order, and the current one is the model that was chosen, or else the
/// first.
pub proof fn law_models_are_offered(models: Seq<Seq<char>>, model_id: Option<Seq<char>>, i: int)
    requires
        0 <= i < models.len(),
    ensures
        config_options(models, model_id) matches JsonView::Array(list) && list.len() == 1 && {
            let o = list[0];
            &&& o.text_of("id"@) == Some("model"@)
            &&& o.text_of("category"@) == Some("model"@)
            &&& o.text_of("type"@) == Some("select"@)
            &&& o.text_of("currentValue"@) == (match model_id {
                Some(m) => Some(m),
                None => Some(models[0]),
            })
            &&& o.get("options"@) matches Some(JsonView::Array(choices)) && choices.len()
                == models.len() && choices[i].text_of("value"@) == Some(models[i])
                && choices[i].text_of("name"@) == Some(models[i])
        },
{
    broadcast use law_added_member_is_found;

    reveal_strlit("id");
    reveal_strlit("name");
    reveal_strlit("category");
    reveal_strlit("type");
    reveal_strlit("currentValue");
    reveal_strlit("options");
    reveal_strlit("value");
    assert("id"@.len() == 2 && "category"@.len() == 8 && "currentValue"@.len() == 12);
    assert("options"@.len() == 7 && "value"@.len() == 5);
    assert("name"@[0] == 'n' && "type"@[0] == 't' && "name"@.len() == 4 && "type"@.len() == 4);
}

/// What is said of a session names it and offers its configuration, and the
/// adapter says that sessions can be loaded.
pub proof fn law_sessions_are_named(
    session_id: Seq<char>,
    models: Seq<Seq<char>>,
    model_id: Option<Seq<char>>,
    version: Seq<char>,
)
    ensures
        session_result(session_id, models, model_id).text_of("sessionId"@) == Some(session_id),
        session_result(session_id, models, model_id).get("configOptions"@) == Some(
            config_options(models, model_id),
        ),
        text_in(initialize_result(version).get("agentInfo"@), "name"@) == Some("agy"@),
        text_in(initialize_result(version).get("agentInfo"@), "version"@) == Some(version),
        get_of(initialize_result(version).get("agentCapabilities"@), "loadSession"@) == Some(
            JsonView::Bool(true),
        ),
{
    broadcast use law_added_member_is_found;

    reveal_strlit("sessionId");
    reveal_strlit("configOptions");
    reveal_strlit("protocolVersion");
    reveal_strlit("agentInfo");
    reveal_strlit("agentCapabilities");
    reveal_strlit("name");
    reveal_strlit("version");
    reveal_strlit("streaming");
    reveal_strlit("loadSession");
    assert("sessionId"@.len() == 9 && "configOptions"@.len() == 13);
    assert("protocolVersion"@.len() == 15 && "agentInfo"@.len() == 9);
    assert("agentCapabilities"@.len() == 17 && "name"@.len() == 4 && "version"@.len() == 7);
    assert("streaming"@.len() == 9 && "loadSession"@.len() == 11);
}

/// Setting the model of a session that is held sets it there, keeps the rest of
/// the session, says so in the answer, and hands out the session to be kept.
pub proof fn law_model_is_set(
    id: JsonView,
    params: JsonView,
    store: Map<Seq<char>, SessionView>,
    sources: SourcesView,
    before: AdapterView,
    after: AdapterView,
    answer: JsonView,
    keep: Option<SessionView>,
    session_id: Seq<char>,
    value: Seq<char>,
    other: Seq<char>,
)
    requires
        model_set(id, params, store, sources, before, after, answer, keep),
        params.text_of("sessionId"@) == Some(session_id),
        params.text_of("configId"@) == Some("model"@),
        params.text_of("value"@) == Some(value),
        session_id.len() > 0,
        value.len() > 0,
        before.sessions.contains_key(session_id),
        other != session_id,
    ensures
        after.sessions[session_id].model_id == Some(value),
        after.sessions[session_id].conversation_id == before.sessions[session_id].conversation_id,
        after.sessions[session_id].last_step_idx == before.sessions[session_id].last_step_idx,
        after.sessions.contains_key(other) == before.sessions.contains_key(other),
        before.sessions.contains_key(other) ==> after.sessions[other] == before.sessions[other],
        keep == Some(after.sessions[session_id]),
        answer.get("id"@) == Some(id),
        get_of(answer.get("result"@), "configOptions"@) == Some(
            config_options(before.known_models(sources), Some(value)),
        ),
{
    broadcast use law_added_member_is_found;

    crate::agy::sessions::law_answer_is_to_its_request(
        id,
        JsonView::empty_object().with(
            "configOptions"@,
            config_options(before.known_models(sources), Some(value)),
        ),
        0,
        seq![],
    );
}

/// A request that lacks what it needs, or names a session that nobody knows, is
/// answered with an error, and no session changes.
pub proof fn law_unknown_sessions_are_errors(
    id: JsonView,
    params: JsonView,
    store: Map<Seq<char>, SessionView>,
    sources: SourcesView,
    before: AdapterView,
    after: AdapterView,
    answer: JsonView,
)
    requires
        session_loaded(id, params, store, sources, before, after, answer),
        restored(store, param(params, "sessionId"@)) is None,
    ensures
        after == before,
        answer.get("error"@) is Some,
        answer.get("result"@) is None,
        answer.get("id"@) == Some(id),
{
    crate::agy::sessions::law_answer_is_to_its_request(
        id,
        JsonView::Null,
        -32602,
        "missing sessionId"@,
    );
    crate::agy::sessions::law_answer_is_to_its_request(
        id,
        JsonView::Null,
        -32000,
        "unknown sessionId: "@ + param(params, "sessionId"@),
    );
}

/// A session that was kept is held after it was loaded, as it was kept, and the
/// answer names it with the model that was chosen in it.
pub proof fn law_kept_session_is_loaded(
    id: JsonView,
    params: JsonView,
    store: Map<Seq<char>, SessionView>,
    sources: SourcesView,
    before: AdapterView,
    after: AdapterView,
    answer: JsonView,
    session_id: Seq<char>,
)
    requires
        session_loaded(id, params, store, sources, before, after, answer),
        params.text_of("sessionId"@) == Some(session_id),
        session_id.len() > 0,
        store.contains_key(session_id),
        store[session_id].conversation_id is Some,
    ensures
        after.sessions.contains_key(session_id),
        after.sessions[session_id] == store[session_id],
        answer.get("id"@) == Some(id),
        text_in(answer.get("result"@), "sessionId"@) == Some(session_id),
        get_of(answer.get("result"@), "configOptions"@) == Some(
            config_options(before.known_models(sources), store[session_id].model_id),
        ),
{
    law_sessions_are_named(
        session_id,
        before.known_models(sources),
        store[session_id].model_id,
        seq![],
    );
    crate::agy::sessions::law_answer_is_to_its_request(
        id,
        session_result(session_id, before.known_models(sources), store[session_id].model_id),
        0,
        seq![],
    );
}

/// A session that is held is not replaced by what was kept of it, and one that
/// is not held is taken back as it was kept.
pub proof fn law_held_session_counts(
    a: AdapterView,
    id: Seq<char>,
    store: Map<Seq<char>, SessionView>,
)
    ensures
        a.sessions.contains_key(id) ==> a.recalling(id, store) == a,
        !a.sessions.contains_key(id) && store.contains_key(id) && store[id].conversation_id is Some
            ==> a.recalling(id, store).sessions.contains_key(id) && a.recalling(
            id,
            store,
        ).sessions[id] == store[id],
        !a.sessions.contains_key(id) && !store.contains_key(id) ==> a.recalling(id, store) == a,
{
}

/// Making room keeps the newest sessions as they are, and a session that was
/// opened has no conversation, no step that was sent and no model yet.
pub proof fn law_room_keeps_the_newest(a: AdapterView, id: Seq<char>, i: int)
    requires
        forall|k: Seq<char>| a.sessions.contains_key(k) <==> #[trigger] a.order.contains(k),
    ensures
        a.order.len() < crate::agy::sessions::MAX_SESSIONS ==> a.evicted().sessions == a.sessions,
        0 <= i < a.evicted().order.len() ==> a.evicted().sessions.contains_key(a.evicted().order[i])
            && a.evicted().sessions[a.evicted().order[i]] == a.sessions[a.evicted().order[i]],
        a.evicted().with_session(id, fresh_session()).sessions[id].conversation_id is None,
        a.evicted().with_session(id, fresh_session()).sessions[id].model_id is None,
        a.evicted().with_session(id, fresh_session()).sessions[id].last_step_idx == -1,
{
    law_room_is_made(a.order);
    if a.order.len() < crate::agy::sessions::MAX_SESSIONS {
        assert forall|k: Seq<char>| a.sessions.contains_key(k) implies room(a.order).to_set().contains(
            k,
        ) by {
            assert(a.order.contains(k));
        }
        assert(a.evicted().sessions =~= a.sessions);
    }
    if 0 <= i < a.evicted().order.len() {
        let k = a.evicted().order[i];
        let n = a.order.len() - room(a.order).len() + i;
        assert(a.order[n] == k);
        assert(a.order.contains(k));
        assert(room(a.order).contains(k));
    }
}

/// A prompt is run in the session that it names: with that session's
/// conversation and model, from where its steps were last sent. A conversation
/// is looked for exactly where the session has none yet.
pub proof fn law_prompt_runs_in_its_session(
    a: AdapterView,
    session_id: Seq<char>,
    prompt: Seq<char>,
    extra: Seq<Seq<char>>,
    r: PromptState,
)
    requires
        planned(a, session_id, prompt, extra, r),
    ensures
        r.session_id@ == session_id && r.prompt@ == prompt,
        r.args.deep_view().last() == prompt,
        a.sessions.contains_key(session_id) ==> {
            let s = a.sessions[session_id];
            &&& r.conversation_id.deep_view() == s.conversation_id
            &&& r.last_step_idx == s.last_step_idx
            &&& r.needs_snapshot <==> s.conversation_id is None
            &&& s.conversation_id matches Some(c) ==> r.args.deep_view().contains(c)
            &&& s.model_id matches Some(m) ==> r.args.deep_view().contains(m)
        },
        !a.sessions.contains_key(session_id) ==> r.conversation_id is None && !r.needs_snapshot
            && r.last_step_idx == -1,
{
    let session = session_at(a.sessions, session_id);
    let args = r.args.deep_view();
    law_arguments_say_what_to_run(
        a.working_dir,
        extra,
        conversation_in(session),
        model_in(session),
        prompt,
    );
    let n = 2 + extra.len() as int;
    let m = n + if conversation_in(session) is Some {
        2int
    } else {
        0
    };
    if conversation_in(session) is Some {
        assert(args.contains(args[n + 1]));
    }
    if model_in(session) is Some {
        assert(args.contains(args[m + 1]));
    }
}

/// A session that comes back to where it is held takes its own place, and no
/// other gives way to it; one that comes back from the store alone comes last.
pub proof fn law_session_comes_back_to_its_place(
    a: AdapterView,
    id: Seq<char>,
    store: Map<Seq<char>, SessionView>,
)
    requires
        store.contains_key(id),
        store[id].conversation_id is Some,
        forall|k: Seq<char>| a.sessions.contains_key(k) <==> #[trigger] a.order.contains(k),
    ensures
        a.restoring(id, store).sessions[id] == store[id],
        a.sessions.contains_key(id) ==> a.restoring(id, store).order == a.order && a.restoring(
            id,
            store,
        ).sessions == a.sessions.insert(id, store[id]),
        !a.sessions.contains_key(id) ==> a.restoring(id, store).order.last() == id && a.restoring(
            id,
            store,
        ).order.len() <= crate::agy::sessions::MAX_SESSIONS,
{
    law_room_is_made(a.order);
}

/// Setting the model of a session that nobody knows, or without saying which
/// session or model, is an error with the code and the words for it; nothing is
/// kept.
pub proof fn law_refused_setting_is_told(
    id: JsonView,
    params: JsonView,
    store: Map<Seq<char>, SessionView>,
    sources: SourcesView,
    before: AdapterView,
    after: AdapterView,
    answer: JsonView,
    keep: Option<SessionView>,
)
    requires
        model_set(id, params, store, sources, before, after, answer, keep),
        ({
            ||| param(params, "sessionId"@).len() == 0
            ||| param(params, "value"@).len() == 0
            ||| param(params, "configId"@) != "model"@
            ||| !before.recalling(param(params, "sessionId"@), store).sessions.contains_key(
                param(params, "sessionId"@),
            )
        }),
    ensures
        keep is None,
        answer.get("id"@) == Some(id),
        answer.get("result"@) is None,
        ({
            let session_id = param(params, "sessionId"@);
            let code = get_of(answer.get("error"@), "code"@);
            if session_id.len() > 0 && param(params, "value"@).len() > 0 && param(
                params,
                "configId"@,
            ) == "model"@ {
                &&& code == Some(JsonView::Number(NumberView::Negative((-32000) as i64)))
                &&& text_in(answer.get("error"@), "message"@) == Some(
                    "unknown sessionId: "@ + session_id,
                )
            } else {
                &&& code == Some(JsonView::Number(NumberView::Negative((-32602) as i64)))
                &&& after == before
            }
        }),
{
    crate::agy::sessions::law_answer_is_to_its_request(
        id,
        JsonView::Null,
        -32602,
        "missing sessionId, configId, or value"@,
    );
    crate::agy::sessions::law_answer_is_to_its_request(
        id,
        JsonView::Null,
        -32000,
        "unknown sessionId: "@ + param(params, "sessionId"@),
    );
}

/// The adapter says its version, and that it streams and loads sessions.
pub proof fn law_adapter_says_what_it_can(version: Seq<char>)
    ensures
        ({
            let r = initialize_result(version);
            &&& r.get("protocolVersion"@) == Some(
                JsonView::Number(NumberView::Unsigned(1)),
            )
            &&& text_in(r.get("agentInfo"@), "name"@) == Some("agy"@)
            &&& text_in(r.get("agentInfo"@), "version"@) == Some(version)
            &&& get_of(r.get("agentCapabilities"@), "streaming"@) == Some(JsonView::Bool(true))
            &&& get_of(r.get("agentCapabilities"@), "loadSession"@) == Some(JsonView::Bool(true))
        }),
{
    broadcast use law_added_member_is_found;

    reveal_strlit("protocolVersion");
    reveal_strlit("agentInfo");
    reveal_strlit("agentCapabilities");
    reveal_strlit("name");
    reveal_strlit("version");
    reveal_strlit("streaming");
    reveal_strlit("loadSession");
    assert("protocolVersion"@.len() == 15 && "agentInfo"@.len() == 9);
    assert("agentCapabilities"@.len() == 17 && "name"@.len() == 4 && "version"@.len() == 7);
    assert("streaming"@.len() == 9 && "loadSession"@.len() == 11);
}

/// Loading without saying which session, or one that nobody knows, is an error
/// with the code and the words for it.
pub proof fn law_refused_loading_is_told(
    id: JsonView,
    params: JsonView,
    store: Map<Seq<char>, SessionView>,
    sources: SourcesView,
    before: AdapterView,
    after: AdapterView,
    answer: JsonView,
)
    requires
        session_loaded(id, params, store, sources, before, after, answer),
    ensures
        ({
            let session_id = param(params, "sessionId"@);
            let code = get_of(answer.get("error"@), "code"@);
            &&& session_id.len() == 0 ==> code == Some(
                JsonView::Number(NumberView::Negative((-32602) as i64)),
            )
            &&& session_id.len() > 0 && restored(store, session_id) is None ==> code == Some(
                JsonView::Number(NumberView::Negative((-32000) as i64)),
            ) && text_in(answer.get("error"@), "message"@) == Some(
                "unknown sessionId: "@ + session_id,
            )
        }),
{
    crate::agy::sessions::law_answer_is_to_its_request(
        id,
        JsonView::Null,
        -32602,
        "missing sessionId"@,
    );
    crate::agy::sessions::law_answer_is_to_its_request(
        id,
        JsonView::Null,
        -32000,
        "unknown sessionId: "@ + param(params, "sessionId"@),
    );
}

/// A session takes its own place, where it has one, and otherwise the last; no
/// other session changes.
pub proof fn law_session_takes_its_place(
    a: AdapterView,
    id: Seq<char>,
    s: SessionView,
    other: Seq<char>,
)
    ensures
        a.with_session(id, s).sessions[id] == s,
        a.sessions.contains_key(id) ==> a.with_session(id, s).order == a.order,
        !a.sessions.contains_key(id) ==> a.with_session(id, s).order == a.order.push(id),
        other != id ==> (a.with_session(id, s).sessions.contains_key(other)
            <==> a.sessions.contains_key(other)) && a.with_session(id, s).sessions[other]
            == a.sessions[other],
{
}

} // verus!
