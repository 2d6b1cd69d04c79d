//! An adapter that runs one command for each prompt and reads what it prints.
//!
//! The command prints the whole conversation every time. What of it was sent
//! before is told by counting lines.

use crate::agy::adapter::initialize_answer;
use crate::agy::adapter::initialize_result;
use crate::agy::adapter::param;
use crate::agy::adapter::prompt_args;
use crate::agy::adapter::prompt_arguments;
use crate::agy::adapter::prompt_of;
use crate::agy::adapter::request_prompt;
use crate::agy::sessions::Sessions;
use crate::agy::sessions::error_json;
use crate::agy::sessions::error_response;
use crate::agy::sessions::law_answer_is_to_its_request;
use crate::agy::sessions::law_room_is_made;
use crate::agy::sessions::result_json;
use crate::agy::sessions::result_response;
use crate::agy::sessions::room;
use crate::agy::streaming::agent_message_chunk;
use crate::agy::streaming::conversation_ids;
use crate::agy::streaming::law_message_chunk_holds_its_text;
use crate::agy::streaming::law_update_reaches_its_session;
use crate::agy::streaming::message_chunk;
use crate::agy::streaming::new_conversation_id;
use crate::agy::streaming::only_new;
use crate::agy::streaming::session_update;
use crate::agy::streaming::stems;
use crate::agy::streaming::update_json;
use crate::agy::streaming::update_of;
use crate::ids::fresh_uuid;
use crate::ids::is_uuid;
use crate::paths::join_path;
use crate::paths::path_join;
use crate::proto::copy_text;
use crate::text::chars_of;
use crate::text::holds;
use crate::text::lemma_holds_between;
use crate::text::same;
use crate::text::split_words;
use crate::text::string_of;
use crate::text::trim_back;
use crate::text::trim_end;
use crate::text::words;
use crate::value::Json;
use crate::value::JsonView;
use crate::value::law_added_member_is_found;
use crate::value::str_view;
use crate::value::text_in;
use vstd::prelude::*;
use vstd::string::*;

verus! {

/// What follows the first line, if a line ends.
pub open spec fn past_line(s: Seq<char>) -> Option<Seq<char>>
    decreases s.len(),
{
    if s.len() == 0 {
        None
    } else if s[0] == '\n' {
        Some(s.skip(1))
    } else {
        past_line(s.skip(1))
    }
}

proof fn lemma_past_line_shrinks(s: Seq<char>)
    ensures
        past_line(s) matches Some(rest) ==> rest.len() < s.len(),
    decreases s.len(),
{
    if s.len() > 0 && s[0] != '\n' {
        lemma_past_line_shrinks(s.skip(1));
    }
}

/// The number of lines, the last of which need not end.
pub open spec fn line_count(s: Seq<char>) -> nat
    decreases s.len(),
{
    if s.len() == 0 {
        0
    } else {
        match past_line(s) {
            Some(rest) => if rest.len() < s.len() {
                1 + line_count(rest)
            } else {
                1
            },
            None => 1,
        }
    }
}

/// What follows the first `n` lines.
pub open spec fn skip_lines(s: Seq<char>, n: int) -> Seq<char>
    decreases n,
{
    if n <= 0 {
        s
    } else {
        match past_line(s) {
            Some(rest) => skip_lines(rest, n - 1),
            None => seq![],
        }
    }
}

/// The last `n` lines, or all there are.
pub open spec fn last_lines(s: Seq<char>, n: int) -> Seq<char> {
    if n <= 0 {
        seq![]
    } else {
        skip_lines(s, line_count(s) - n)
    }
}

/// What of a text is new, when `emitted` lines of it were sent before: all of
/// it while the conversation is not known, and the last lines where there are
/// fewer than there were.
pub open spec fn delta(emitted: int, text: Seq<char>, bound: bool) -> Seq<char> {
    if !bound || emitted == 0 {
        text
    } else if emitted <= line_count(text) {
        skip_lines(text, emitted)
    } else {
        last_lines(text, 5)
    }
}

/// Text that grew by whole lines is cut exactly where it ended.
pub proof fn law_delta_is_what_was_added(before: Seq<char>, more: Seq<char>)
    requires
        before.len() > 0,
        before.last() == '\n',
    ensures
        delta(line_count(before) as int, before + more, true) == more,
        line_count(before + more) == line_count(before) + line_count(more),
{
    lemma_lines_add(before, more);
}

proof fn lemma_past_line_add(a: Seq<char>, b: Seq<char>)
    requires
        a.len() > 0,
        a.last() == '\n',
    ensures
        past_line(a) matches Some(rest) && past_line(a + b) == Some(rest + b) && rest.len()
            < a.len() && (rest.len() > 0 ==> rest.last() == '\n'),
    decreases a.len(),
{
    assert((a + b)[0] == a[0]);
    assert((a + b).skip(1) =~= a.skip(1) + b);
    if a[0] != '\n' {
        assert(a.skip(1).last() == a.last());
        lemma_past_line_add(a.skip(1), b);
    } else if a.len() > 1 {
        assert(a.skip(1).last() == a.last());
    }
}

proof fn lemma_lines_add(a: Seq<char>, b: Seq<char>)
    requires
        a.len() > 0 ==> a.last() == '\n',
    ensures
        line_count(a + b) == line_count(a) + line_count(b),
        skip_lines(a + b, line_count(a) as int) == b,
        a.len() > 0 ==> line_count(a) > 0,
    decreases a.len(),
{
    if a.len() == 0 {
        assert(a + b =~= b);
    } else {
        lemma_past_line_add(a, b);
        let rest = past_line(a)->0;
        lemma_lines_add(rest, b);
    }
}

/// Where the first line from `from` on ends.
fn line_end(cs: &Vec<char>, from: usize) -> (r: Option<usize>)
    requires
        from <= cs@.len(),
    ensures
        match past_line(cs@.skip(from as int)) {
            Some(rest) => r matches Some(i) && from < i <= cs@.len() && rest == cs@.skip(i as int),
            None => r is None,
        },
{
    let mut i: usize = from;
    while i < cs.len()
        invariant
            from <= i <= cs@.len(),
            past_line(cs@.skip(from as int)) == past_line(cs@.skip(i as int)),
        decreases cs@.len() - i,
    {
        assert(cs@.skip(i as int)[0] == cs@[i as int]);
        assert(cs@.skip(i as int).skip(1) =~= cs@.skip(i + 1));
        if cs[i] == '\n' {
            return Some(i + 1);
        }
        i += 1;
    }
    None
}

/// A session.
#[derive(Debug, PartialEq, Eq)]
pub struct Session {
    pub conversation_id: Option<String>,
    /// How many lines of the conversation were sent.
    pub emitted_line_count: usize,
}

/// A session as it is kept between runs.
#[derive(Debug, PartialEq, Eq)]
pub struct StoredSession {
    pub conversation_id: Option<String>,
    pub emitted_line_count: usize,
}

/// What a session says.
#[verifier::ext_equal]
pub struct SessionView {
    pub conversation_id: Option<Seq<char>>,
    pub emitted_line_count: usize,
}

impl View for Session {
    type V = SessionView;

    open spec fn view(&self) -> SessionView {
        SessionView {
            conversation_id: self.conversation_id.deep_view(),
            emitted_line_count: self.emitted_line_count,
        }
    }
}

impl View for StoredSession {
    type V = SessionView;

    open spec fn view(&self) -> SessionView {
        SessionView {
            conversation_id: self.conversation_id.deep_view(),
            emitted_line_count: self.emitted_line_count,
        }
    }
}

/// The sessions that are kept between runs.
pub struct SessionStore {
    pub sessions: Sessions<StoredSession>,
}

/// The session of an id, if it is kept and its conversation is known.
pub open spec fn restored(store: Map<Seq<char>, SessionView>, id: Seq<char>) -> Option<
    SessionView,
> {
    if store.contains_key(id) && store[id].conversation_id is Some {
        Some(store[id])
    } else {
        None
    }
}

impl SessionStore {
    pub open spec fn wf(&self) -> bool {
        self.sessions.wf()
    }

    /// Nothing is kept.
    pub fn new() -> (r: Self)
        ensures
            r.wf(),
            r.sessions@ == Map::<Seq<char>, SessionView>::empty(),
    {
        SessionStore { sessions: Sessions::new() }
    }

    /// Keeps a session.
    pub fn persist_session(
        &mut self,
        session_id: &str,
        conversation_id: Option<&str>,
        emitted_line_count: usize,
    )
        requires
            old(self).wf(),
        ensures
            final(self).wf(),
            final(self).sessions@ == old(self).sessions@.insert(
                session_id@,
                (SessionView { conversation_id: str_view(conversation_id), emitted_line_count }),
            ),
    {
        let conversation_id = match conversation_id {
            Some(c) => Some(c.to_owned()),
            None => None,
        };
        self.sessions.put(session_id, StoredSession { conversation_id, emitted_line_count });
    }

    /// What is kept of a session.
    pub fn restore_session(&self, session_id: &str) -> (r: Option<StoredSession>)
        requires
            self.wf(),
        ensures
            r is Some <==> self.sessions@.contains_key(session_id@),
            r matches Some(s) ==> s@ == self.sessions@[session_id@],
    {
        match self.sessions.get(session_id) {
            Some(s) => Some(
                StoredSession {
                    conversation_id: copy_text(&s.conversation_id),
                    emitted_line_count: s.emitted_line_count,
                },
            ),
            None => None,
        }
    }
}

/// What a run of the command came to.
#[derive(Debug, PartialEq, Eq)]
pub enum AgentRun {
    /// It could not be run: why.
    Failed(String),
    /// It ended.
    Finished { success: bool, status: String, stdout: String, stderr: String },
}

/// What a prompt is run with.
#[derive(Debug, PartialEq, Eq)]
pub struct PromptPlan {
    pub session_id: String,
    pub args: Vec<String>,
    /// Whether the conversation has yet to be found.
    pub needs_snapshot: bool,
}

/// What a prompt comes to.
#[derive(Debug, PartialEq, Eq)]
pub struct PromptEnd {
    /// What is written to the client, in order.
    pub lines: Vec<Json>,
    /// The conversation and the number of lines that are to be kept.
    pub keep: Option<(String, usize)>,
}

/// An adapter.
pub struct Adapter {
    pub sessions: Sessions<Session>,
    pub working_dir: String,
    pub conversations_dir: String,
    pub state_file: String,
}

/// What an [`Adapter`] says.
#[verifier::ext_equal]
pub struct AdapterView {
    pub order: Seq<Seq<char>>,
    pub sessions: Map<Seq<char>, SessionView>,
    pub working_dir: Seq<char>,
    pub conversations_dir: Seq<char>,
    pub state_file: Seq<char>,
}

impl View for Adapter {
    type V = AdapterView;

    open spec fn view(&self) -> AdapterView {
        AdapterView {
            order: self.sessions.order(),
            sessions: self.sessions@,
            working_dir: self.working_dir@,
            conversations_dir: self.conversations_dir@,
            state_file: self.state_file@,
        }
    }
}

impl AdapterView {
    /// With room for one more session.
    pub open spec fn evicted(self) -> AdapterView {
        AdapterView {
            order: room(self.order),
            sessions: self.sessions.restrict(room(self.order).to_set()),
            ..self
        }
    }

    /// With a session.
    pub open spec fn with_session(self, id: Seq<char>, s: SessionView) -> AdapterView {
        AdapterView {
            order: if self.sessions.contains_key(id) {
                self.order
            } else {
                self.order.push(id)
            },
            sessions: self.sessions.insert(id, s),
            ..self
        }
    }

    /// With a session that was kept, if it was.
    pub open spec fn restoring(self, id: Seq<char>, store: Map<Seq<char>, SessionView>) -> AdapterView {
        match restored(store, id) {
            Some(s) => if self.sessions.contains_key(id) {
                self.with_session(id, s)
            } else {
                self.evicted().with_session(id, s)
            },
            None => self,
        }
    }

    /// The session of an id.
    pub open spec fn session(self, id: Seq<char>) -> Option<SessionView> {
        if self.sessions.contains_key(id) {
            Some(self.sessions[id])
        } else {
            None
        }
    }
}

/// Why a run gave nothing to show.
pub open spec fn run_failure(run: AgentRun) -> Option<Seq<char>> {
    match run {
        AgentRun::Failed(e) => Some("failed to run agy: "@ + e@),
        AgentRun::Finished { success, status, stdout, stderr } => if !success && stdout@.len()
            == 0 {
            Some(
                if stderr@.len() == 0 {
                    "agy exited with status: "@ + status@
                } else {
                    "agy failed: "@ + trim_back(stderr@)
                },
            )
        } else {
            None
        },
    }
}

/// A session after a run: its conversation, where it is known now, and the
/// lines that were sent of it.
pub open spec fn session_after(s: SessionView, found: Option<Seq<char>>, text: Seq<char>) -> SessionView {
    let conversation_id = match s.conversation_id {
        Some(c) => Some(c),
        None => found,
    };
    SessionView {
        conversation_id,
        emitted_line_count: if conversation_id is Some {
            line_count(text) as usize
        } else {
            0
        },
    }
}

/// Whether `r` and the state after it are what a prompt comes to whose run
/// printed `text`, where the conversation `found` appeared.
pub open spec fn prompted(
    id: JsonView,
    session_id: Seq<char>,
    text: Seq<char>,
    found: Option<Seq<char>>,
    before: AdapterView,
    after: AdapterView,
    r: PromptEnd,
) -> bool {
    let held = before.session(session_id);
    let new = delta(
        match held {
            Some(s) => s.emitted_line_count as int,
            None => 0,
        },
        text,
        held matches Some(s) && s.conversation_id is Some,
    );
    &&& r.lines.deep_view() == seq![
        update_json(session_id, message_chunk(new)),
        result_json(id, end_turn()),
    ]
    &&& match held {
        Some(s) => {
            let t = session_after(s, found, text);
            &&& after == before.with_session(session_id, t)
            &&& match t.conversation_id {
                Some(c) => r.keep matches Some((k, n)) && k@ == c && n == t.emitted_line_count,
                None => r.keep is None,
            }
        },
        None => after == before && r.keep is None,
    }
}

impl Adapter {
    pub open spec fn wf(&self) -> bool {
        self.sessions.wf()
    }

    /// An adapter without sessions, given what `HOME` holds and where the
    /// program runs.
    pub fn new(home: Option<&str>, working_dir: Option<&str>) -> (r: Self)
        ensures
            r.wf(),
            ({
                let h = match home {
                    Some(h) => h@,
                    None => "/tmp"@,
                };
                r@ == (AdapterView {
                    order: Seq::empty(),
                    sessions: Map::empty(),
                    working_dir: match working_dir {
                        Some(d) => d@,
                        None => "/tmp"@,
                    },
                    conversations_dir: path_join(h, ".gemini/antigravity-cli/conversations"@),
                    state_file: path_join(path_join(h, ".openab/agy-acp"@), "sessions.json"@),
                })
            }),
    {
        let h = match home {
            Some(h) => h,
            None => "/tmp",
        };
        let state_dir = join_path(h, ".openab/agy-acp");
        Adapter {
            sessions: Sessions::new(),
            working_dir: match working_dir {
                Some(d) => d.to_owned(),
                None => "/tmp".to_owned(),
            },
            conversations_dir: join_path(h, ".gemini/antigravity-cli/conversations"),
            state_file: join_path(state_dir.as_str(), "sessions.json"),
        }
    }

    /// The number of lines, the last of which need not end.
    pub fn count_lines(text: &str) -> (r: usize)
        ensures
            r == line_count(text@),
    {
        let cs = chars_of(text);
        let mut i: usize = 0;
        let mut n: usize = 0;
        assert(cs@.skip(0) =~= cs@);
        while i < cs.len()
            invariant
                cs@ == text@,
                n <= i <= cs@.len(),
                line_count(text@) == n + line_count(cs@.skip(i as int)),
            decreases cs@.len() - i,
        {
            match line_end(&cs, i) {
                Some(k) => {
                    i = k;
                },
                None => {
                    i = cs.len();
                    assert(cs@.skip(i as int) =~= seq![]);
                },
            }
            n = n + 1;
        }
        assert(cs@.skip(i as int) =~= seq![]);
        n
    }

    fn skip_lines(text: &str, n: usize) -> (r: String)
        ensures
            r@ == skip_lines(text@, n as int),
    {
        let cs = chars_of(text);
        let mut i: usize = 0;
        let mut left: usize = n;
        assert(cs@.skip(0) =~= cs@);
        while left > 0
            invariant
                cs@ == text@,
                i <= cs@.len(),
                skip_lines(text@, n as int) == skip_lines(cs@.skip(i as int), left as int),
            decreases left,
        {
            match line_end(&cs, i) {
                Some(k) => {
                    i = k;
                },
                None => {
                    return String::new();
                },
            }
            left = left - 1;
        }
        let out = string_of(&cs, i, cs.len());
        assert(out@ =~= cs@.skip(i as int));
        out
    }

    /// The last lines, or all there are.
    pub fn last_n_lines(text: &str, n: usize) -> (r: String)
        ensures
            r@ == last_lines(text@, n as int),
    {
        if n == 0 {
            return String::new();
        }
        let count: usize = Self::count_lines(text);
        if count <= n {
            return text.to_owned();
        }
        Self::skip_lines(text, count - n)
    }

    /// What of a text is new.
    pub fn extract_delta(emitted_line_count: usize, full_text: &str, conversation_bound: bool) -> (r:
        String)
        ensures
            r@ == delta(emitted_line_count as int, full_text@, conversation_bound),
    {
        if !conversation_bound || emitted_line_count == 0 {
            return full_text.to_owned();
        }
        if emitted_line_count <= Self::count_lines(full_text) {
            return Self::skip_lines(full_text, emitted_line_count);
        }
        Self::last_n_lines(full_text, 5)
    }

    /// Takes a session back that was kept. Nothing is evicted for one that was
    /// not.
    pub fn restore_session_state(&mut self, session_id: &str, store: &SessionStore) -> (r: bool)
        requires
            old(self).wf(),
            store.wf(),
        ensures
            final(self).wf(),
            final(self)@ == old(self)@.restoring(session_id@, store.sessions@),
            r == (restored(store.sessions@, session_id@) is Some),
    {
        match store.restore_session(session_id) {
            Some(s) => {
                if s.conversation_id.is_none() {
                    return false;
                }
                if !self.sessions.contains(session_id) {
                    self.sessions.evict_if_needed();
                }
                self.sessions.put(
                    session_id,
                    Session {
                        conversation_id: s.conversation_id,
                        emitted_line_count: s.emitted_line_count,
                    },
                );
                true
            },
            None => false,
        }
    }

    /// The conversations among the files of their directory.
    pub fn conversation_snapshot(names: &Vec<String>) -> (r: Vec<String>)
        ensures
            r.deep_view() == stems(names.deep_view(), "pb"@),
    {
        conversation_ids(names, "pb")
    }

    /// Who answers, and what it can do.
    pub fn handle_initialize(&self, id: Json, version: &str) -> (r: Json)
        ensures
            r@ == result_json(id@, initialize_result(version@)),
    {
        initialize_answer(id, version)
    }

    /// Opens a session under the given id.
    pub fn open_session(&mut self, id: Json, session_id: &str) -> (r: Json)
        requires
            old(self).wf(),
        ensures
            final(self).wf(),
            final(self)@ == old(self)@.evicted().with_session(
                session_id@,
                (SessionView { conversation_id: None, emitted_line_count: 0 }),
            ),
            r@ == result_json(id@, id_result(session_id@)),
    {
        self.sessions.evict_if_needed();
        self.sessions.put(session_id, Session { conversation_id: None, emitted_line_count: 0 });
        result_response(id, Json::object().with("sessionId", Json::text(session_id)))
    }

    /// Opens a session under a fresh id.
    pub fn handle_session_new(&mut self, id: Json) -> (r: Json)
        requires
            old(self).wf(),
        ensures
            final(self).wf(),
            exists|session_id: Seq<char>|
                is_uuid(session_id) && final(self)@ == old(self)@.evicted().with_session(
                    session_id,
                    (SessionView { conversation_id: None, emitted_line_count: 0 }),
                ) && r@ == result_json(id@, #[trigger] id_result(session_id)),
    {
        let session_id = fresh_uuid();
        self.open_session(id, session_id.as_str())
    }

    /// Loads a session that was kept.
    pub fn handle_session_load(&mut self, id: Json, params: &Json, store: &SessionStore) -> (r:
        Json)
        requires
            old(self).wf(),
            store.wf(),
        ensures
            final(self).wf(),
            ({
                let session_id = param(params@, "sessionId"@);
                if session_id.len() == 0 {
                    &&& final(self)@ == old(self)@
                    &&& r@ == error_json(id@, -32602, "missing sessionId"@)
                } else {
                    &&& final(self)@ == old(self)@.restoring(session_id, store.sessions@)
                    &&& r@ == match restored(store.sessions@, session_id) {
                        Some(_) => result_json(id@, id_result(session_id)),
                        None => error_json(id@, -32000, "unknown sessionId: "@ + session_id),
                    }
                }
            }),
    {
        let session_id = match params.get_str("sessionId") {
            Some(t) => t,
            None => "",
        };
        if session_id.is_empty() {
            return error_response(id, -32602, "missing sessionId");
        }
        if self.restore_session_state(session_id, store) {
            return result_response(id, Json::object().with("sessionId", Json::text(session_id)));
        }
        let mut message = "unknown sessionId: ".to_owned();
        message.append(session_id);
        error_response(id, -32000, message.as_str())
    }

    /// What a prompt is run with, given what `AGY_EXTRA_ARGS` holds.
    pub fn begin_session_prompt(&mut self, params: &Json, store: &SessionStore, extra: Option<&str>) -> (r:
        PromptPlan)
        requires
            old(self).wf(),
            store.wf(),
        ensures
            final(self).wf(),
            ({
                let id = param(params@, "sessionId"@);
                let after = if id.len() > 0 && !old(self)@.sessions.contains_key(id) {
                    old(self)@.restoring(id, store.sessions@)
                } else {
                    old(self)@
                };
                let conversation = match after.session(id) {
                    Some(s) => s.conversation_id,
                    None => None,
                };
                &&& final(self)@ == after
                &&& r.session_id@ == id
                &&& r.needs_snapshot == (after.session(id) is Some && conversation is None)
                &&& r.args.deep_view() == prompt_args(
                    after.working_dir,
                    match extra {
                        Some(e) => words(e@),
                        None => seq![],
                    },
                    conversation,
                    None,
                    request_prompt(params@),
                )
            }),
    {
        let session_id = match params.get_str("sessionId") {
            Some(t) => t,
            None => "",
        };
        if !session_id.is_empty() && !self.sessions.contains(session_id) {
            let _ = self.restore_session_state(session_id, store);
        }
        let prompt = prompt_of(params);
        let (held, conversation_id): (bool, Option<String>) = match self.sessions.get(session_id) {
            Some(s) => (true, copy_text(&s.conversation_id)),
            None => (false, None),
        };
        let extra_args = match extra {
            Some(e) => split_words(e),
            None => {
                let none: Vec<String> = Vec::new();
                assert(none.deep_view() =~= seq![]);
                none
            },
        };
        let args = prompt_arguments(
            self.working_dir.as_str(),
            &extra_args,
            &conversation_id,
            &None,
            prompt.as_str(),
        );
        PromptPlan {
            session_id: session_id.to_owned(),
            args,
            needs_snapshot: held && conversation_id.is_none(),
        }
    }

    /// What a prompt comes to, given what the run came to, and the names of the
    /// conversations before, where they were looked up, and after it.
    pub fn handle_session_prompt(
        &mut self,
        id: Json,
        session_id: &str,
        run: &AgentRun,
        snapshot: Option<&Vec<String>>,
        listing: &Vec<String>,
    ) -> (r: PromptEnd)
        requires
            old(self).wf(),
        ensures
            final(self).wf(),
            match run_failure(*run) {
                Some(why) => {
                    &&& final(self)@ == old(self)@
                    &&& r.lines.deep_view() == seq![error_json(id@, -32000, why)]
                    &&& r.keep is None
                },
                None => exists|found: Option<Seq<char>>|
                    #[trigger] found_between(snapshot, listing, found) && prompted(
                        id@,
                        session_id@,
                        run->stdout@,
                        found,
                        old(self)@,
                        final(self)@,
                        r,
                    ),
            },
    {
        let mut lines: Vec<Json> = Vec::new();
        assert(lines.deep_view() =~= seq![]);
        let text = match run {
            AgentRun::Failed(e) => {
                let mut why = "failed to run agy: ".to_owned();
                why.append(e.as_str());
                let answer = error_response(id, -32000, why.as_str());
                let ghost shown = answer@;
                lines.push(answer);
                assert(lines.deep_view() =~= seq![shown]);
                return PromptEnd { lines, keep: None };
            },
            AgentRun::Finished { success, status, stdout, stderr } => {
                if !*success && stdout.as_str().is_empty() {
                    let why = if stderr.as_str().is_empty() {
                        let mut w = "agy exited with status: ".to_owned();
                        w.append(status.as_str());
                        w
                    } else {
                        let mut w = "agy failed: ".to_owned();
                        w.append(trim_end(stderr.as_str()));
                        w
                    };
                    let answer = error_response(id, -32000, why.as_str());
                    let ghost shown = answer@;
                    lines.push(answer);
                    assert(lines.deep_view() =~= seq![shown]);
                    return PromptEnd { lines, keep: None };
                }
                stdout.as_str()
            },
        };
        let (emitted, bound): (usize, bool) = match self.sessions.get(session_id) {
            Some(s) => (s.emitted_line_count, s.conversation_id.is_some()),
            None => (0, false),
        };
        let new_text = Self::extract_delta(emitted, text, bound);
        let count: usize = Self::count_lines(text);
        let found = match snapshot {
            Some(before) => new_conversation_id(before, listing),
            None => None,
        };
        assert(found_between(snapshot, listing, found.deep_view()));
        let mut keep: Option<(String, usize)> = None;
        let held = match self.sessions.get(session_id) {
            Some(s) => Some(copy_text(&s.conversation_id)),
            None => None,
        };
        match held {
            Some(known) => {
                let conversation_id = match known {
                    Some(c) => Some(c),
                    None => found,
                };
                let emitted_line_count: usize = if conversation_id.is_some() {
                    count
                } else {
                    0
                };
                match &conversation_id {
                    Some(c) => {
                        keep = Some((c.clone(), count));
                    },
                    None => {},
                }
                self.sessions.put(session_id, Session { conversation_id, emitted_line_count });
            },
            None => {},
        }
        let chunk = session_update(session_id, agent_message_chunk(new_text.as_str()));
        let answer = result_response(
            id,
            Json::object().with("stopReason", Json::text("end_turn")),
        );
        let ghost both = seq![chunk@, answer@];
        lines.push(chunk);
        lines.push(answer);
        assert(lines.deep_view() =~= both);
        PromptEnd { lines, keep }
    }
}

/// The conversation that appeared during a run, where it was looked for and
/// exactly one did.
pub open spec fn found_between(
    snapshot: Option<&Vec<String>>,
    listing: &Vec<String>,
    found: Option<Seq<char>>,
) -> bool {
    match snapshot {
        Some(before) => match found {
            Some(n) => only_new(before.deep_view(), listing.deep_view(), n),
            None => forall|n: Seq<char>| !only_new(before.deep_view(), listing.deep_view(), n),
        },
        None => found is None,
    }
}

/// What is said of a session that was opened or loaded.
pub open spec fn id_result(session_id: Seq<char>) -> JsonView {
    JsonView::empty_object().with("sessionId"@, JsonView::Text(session_id))
}

/// What is said at the end of a turn.
pub open spec fn end_turn() -> JsonView {
    JsonView::empty_object().with("stopReason"@, JsonView::Text("end_turn"@))
}

/// What a request asks for.
#[derive(Debug, PartialEq, Eq)]
pub enum Route {
    Initialize,
    NewSession,
    LoadSession,
    Prompt,
    /// Answered as it is.
    Answer(Json),
    /// Not answered at all.
    Ignore,
}

/// Whether `r` is what a request asks for.
pub open spec fn routed(id: Option<JsonView>, method: Option<Seq<char>>, r: Route) -> bool {
    match (id, method) {
        (Some(i), Some(m)) => if m == "initialize"@ {
            r is Initialize
        } else if m == "session/new"@ {
            r is NewSession
        } else if m == "session/load"@ {
            r is LoadSession
        } else if m == "session/prompt"@ {
            r is Prompt
        } else if m == "session/cancel"@ {
            r matches Route::Answer(a) && a@ == result_json(i, JsonView::empty_object())
        } else {
            r matches Route::Answer(a) && a@ == error_json(i, -32601, "method not found: "@ + m)
        },
        _ => r is Ignore,
    }
}

/// What a request asks for. One without an id or a method is not answered.
pub fn route(id: Option<Json>, method: Option<&str>) -> (r: Route)
    ensures
        routed(
            match id {
                Some(i) => Some(i@),
                None => None,
            },
            str_view(method),
            r,
        ),
{
    match (id, method) {
        (Some(i), Some(m)) => {
            if same(m, "initialize") {
                Route::Initialize
            } else if same(m, "session/new") {
                Route::NewSession
            } else if same(m, "session/load") {
                Route::LoadSession
            } else if same(m, "session/prompt") {
                Route::Prompt
            } else if same(m, "session/cancel") {
                Route::Answer(result_response(i, Json::object()))
            } else {
                let mut message = "method not found: ".to_owned();
                message.append(m);
                Route::Answer(error_response(i, -32601, message.as_str()))
            }
        },
        _ => Route::Ignore,
    }
}

/// A line that ends counts as one, and so does one that does not, unless it is
/// empty.
pub proof fn law_lines_are_counted(line: Seq<char>, rest: Seq<char>)
    requires
        !line.contains('\n'),
    ensures
        line_count(line + seq!['\n'] + rest) == 1 + line_count(rest),
        skip_lines(line + seq!['\n'] + rest, 1) == rest,
        line_count(line) == (if line.len() > 0 {
            1nat
        } else {
            0nat
        }),
{
    let tail = seq!['\n'] + rest;
    assert(line + seq!['\n'] + rest =~= line + tail);
    lemma_past_first_line(line, tail);
    assert(tail[0] == '\n');
    assert(tail.skip(1) =~= rest);
    assert(past_line(tail) == Some(rest));
    lemma_past_first_line(line, seq![]);
    assert(line + Seq::<char>::empty() =~= line);
    reveal_with_fuel(skip_lines, 2);
}

proof fn lemma_past_first_line(line: Seq<char>, tail: Seq<char>)
    requires
        !line.contains('\n'),
    ensures
        past_line(line + tail) == past_line(tail),
    decreases line.len(),
{
    if line.len() == 0 {
        assert(line + tail =~= tail);
    } else {
        assert(line.contains(line[0]));
        assert((line + tail)[0] == line[0]);
        assert((line + tail).skip(1) =~= line.skip(1) + tail);
        assert(!line.skip(1).contains('\n')) by {
            if line.skip(1).contains('\n') {
                let i = line.skip(1).index_of('\n');
                assert(line[i + 1] == '\n');
            }
        }
        lemma_past_first_line(line.skip(1), tail);
    }
}

/// Skipping lines leaves the end of a text, with as many lines fewer.
pub proof fn law_skipping_leaves_the_end(s: Seq<char>, n: int)
    requires
        0 <= n <= line_count(s),
    ensures
        line_count(skip_lines(s, n)) == line_count(s) - n,
        skip_lines(s, n).len() <= s.len(),
        skip_lines(s, n) == s.skip(s.len() - skip_lines(s, n).len()),
    decreases s.len(),
{
    if n == 0 {
        assert(s.skip(0) =~= s);
    } else {
        lemma_past_line_is_the_end(s);
        match past_line(s) {
            Some(rest) => {
                law_skipping_leaves_the_end(rest, n - 1);
                let out = skip_lines(rest, n - 1);
                assert(rest.skip(rest.len() - out.len()) =~= s.skip(s.len() - out.len()));
            },
            None => {
                assert(s.skip(s.len() as int) =~= Seq::<char>::empty());
            },
        }
    }
}

proof fn lemma_past_line_is_the_end(s: Seq<char>)
    ensures
        past_line(s) matches Some(rest) ==> rest.len() < s.len() && rest == s.skip(
            s.len() - rest.len(),
        ),
    decreases s.len(),
{
    if s.len() > 0 && s[0] != '\n' {
        lemma_past_line_is_the_end(s.skip(1));
        match past_line(s.skip(1)) {
            Some(rest) => {
                let t = s.skip(1);
                assert(t.skip(t.len() - rest.len()) =~= s.skip(s.len() - rest.len()));
            },
            None => {},
        }
    }
}

/// All of a text is new while its conversation is not known or nothing was sent
/// of it; and where there are fewer lines than were sent, its last five are, or
/// all where it has no more.
pub proof fn law_what_is_new_of_a_text(emitted: int, text: Seq<char>)
    requires
        emitted >= 0,
    ensures
        delta(emitted, text, false) == text,
        delta(0, text, true) == text,
        emitted > line_count(text) ==> {
            let new = delta(emitted, text, true);
            &&& new.len() <= text.len() && new == text.skip(text.len() - new.len())
            &&& line_count(text) <= 5 ==> new == text
            &&& line_count(text) > 5 ==> line_count(new) == 5
        },
{
    if emitted > line_count(text) && line_count(text) > 5 {
        law_skipping_leaves_the_end(text, line_count(text) - 5);
    }
    assert(text.skip(0) =~= text);
}

/// A run gives nothing to show exactly where it could not be started, or failed
/// without printing anything; the reason tells what is known of it.
pub proof fn law_failed_runs_tell_why(run: AgentRun)
    ensures
        match run {
            AgentRun::Failed(e) => run_failure(run) matches Some(why) && holds(why, e@),
            AgentRun::Finished { success, status, stdout, stderr } => {
                &&& run_failure(run) is Some <==> !success && stdout@.len() == 0
                &&& run_failure(run) matches Some(why) ==> if stderr@.len() == 0 {
                    holds(why, status@)
                } else {
                    holds(why, trim_back(stderr@))
                }
            },
        },
{
    let none = Seq::<char>::empty();
    match run {
        AgentRun::Failed(e) => {
            lemma_holds_between("failed to run agy: "@, e@, none);
            assert("failed to run agy: "@ + e@ + none =~= "failed to run agy: "@ + e@);
        },
        AgentRun::Finished { status, stderr, .. } => {
            let (a, b) = ("agy exited with status: "@, "agy failed: "@);
            lemma_holds_between(a, status@, none);
            assert(a + status@ + none =~= a + status@);
            lemma_holds_between(b, trim_back(stderr@), none);
            assert(b + trim_back(stderr@) + none =~= b + trim_back(stderr@));
        },
    }
}

/// A conversation that is known stays the one of its session, and one that
/// appeared becomes it; the lines that were sent are counted from then on.
pub proof fn law_conversation_stays(s: SessionView, found: Option<Seq<char>>, text: Seq<char>)
    requires
        line_count(text) <= usize::MAX,
    ensures
        s.conversation_id is Some ==> session_after(s, found, text).conversation_id
            == s.conversation_id,
        s.conversation_id is None ==> session_after(s, found, text).conversation_id == found,
        session_after(s, found, text).conversation_id is Some ==> session_after(
            s,
            found,
            text,
        ).emitted_line_count == line_count(text),
        session_after(s, found, text).conversation_id is None ==> session_after(
            s,
            found,
            text,
        ).emitted_line_count == 0,
{
}

/// A prompt sends the client what is new, in its own session, and then the
/// answer to its request. Where the same conversation grows from one prompt to
/// the next, each sends what was added since.
pub proof fn law_prompt_sends_what_is_new(
    id: JsonView,
    session_id: Seq<char>,
    before: Seq<char>,
    more: Seq<char>,
    conversation: Seq<char>,
    found: Option<Seq<char>>,
    a: AdapterView,
    b: AdapterView,
    r: PromptEnd,
)
    requires
        before.len() > 0,
        before.last() == '\n',
        line_count(before) <= usize::MAX,
        line_count(before + more) <= usize::MAX,
        a.session(session_id) == Some(
            SessionView {
                conversation_id: Some(conversation),
                emitted_line_count: line_count(before) as usize,
            },
        ),
        prompted(id, session_id, before + more, found, a, b, r),
    ensures
        r.lines.deep_view().len() == 2,
        update_of(r.lines.deep_view()[0]) matches Some(u) && text_in(u.get("content"@), "text"@)
            == Some(more),
        text_in(r.lines.deep_view()[0].get("params"@), "sessionId"@) == Some(session_id),
        r.lines.deep_view()[1].get("id"@) == Some(id),
        text_in(r.lines.deep_view()[1].get("result"@), "stopReason"@) == Some("end_turn"@),
        b.session(session_id) == Some(
            SessionView {
                conversation_id: Some(conversation),
                emitted_line_count: line_count(before + more) as usize,
            },
        ),
        r.keep matches Some((c, n)) && c@ == conversation && n == line_count(before + more),
{
    broadcast use law_added_member_is_found;

    law_delta_is_what_was_added(before, more);
    law_update_reaches_its_session(session_id, message_chunk(more));
    law_message_chunk_holds_its_text(more);
    law_answer_is_to_its_request(id, end_turn(), 0, seq![]);
}

/// What is said of a session names it.
pub proof fn law_session_is_named(session_id: Seq<char>)
    ensures
        id_result(session_id).text_of("sessionId"@) == Some(session_id),
{
    broadcast use law_added_member_is_found;

}

/// Each request is taken for what its method asks, a cancellation is answered
/// at once, an unknown method is an error that names it, and what has no id is
/// not answered.
pub proof fn law_methods_are_routed(id: JsonView, method: Seq<char>, r: Route)
    requires
        routed(Some(id), Some(method), r),
    ensures
        r is Initialize <==> method == "initialize"@,
        r is NewSession <==> method == "session/new"@,
        r is LoadSession <==> method == "session/load"@,
        r is Prompt <==> method == "session/prompt"@,
        method == "session/cancel"@ ==> (r matches Route::Answer(a) && a@.get("id"@) == Some(id)
            && a@.get("result"@) is Some),
        r matches Route::Answer(a) ==> a@.get("id"@) == Some(id) && (method != "session/cancel"@
            ==> (text_in(a@.get("error"@), "message"@) matches Some(m) && holds(m, method))),
        r !is Ignore,
{
    reveal_strlit("initialize");
    reveal_strlit("session/new");
    reveal_strlit("session/load");
    reveal_strlit("session/prompt");
    reveal_strlit("session/cancel");
    assert("initialize"@.len() == 10 && "session/new"@.len() == 11 && "session/load"@.len() == 12);
    assert("session/prompt"@[8] == 'p' && "session/cancel"@[8] == 'c');
    assert("session/prompt"@.len() == 14 && "session/cancel"@.len() == 14);
    let why = "method not found: "@ + method;
    law_answer_is_to_its_request(id, JsonView::empty_object(), -32601, why);
    lemma_holds_between("method not found: "@, method, seq![]);
    assert(why + Seq::<char>::empty() =~= why);
}

/// A session takes its own place, where it has one, and otherwise the last; no
/// other session changes.
pub proof fn law_session_takes_its_place(
    a: AdapterView,
    id: Seq<char>,
    s: SessionView,
    other: Seq<char>,
)
    ensures
        a.with_session(id, s).sessions[id] == s,
        a.sessions.contains_key(id) ==> a.with_session(id, s).order == a.order,
        !a.sessions.contains_key(id) ==> a.with_session(id, s).order == a.order.push(id),
        other != id ==> (a.with_session(id, s).sessions.contains_key(other)
            <==> a.sessions.contains_key(other)) && a.with_session(id, s).sessions[other]
            == a.sessions[other],
{
}

/// A session that comes back to where it is held takes its own place, and no
/// other gives way to it; one that comes back from the store alone comes last.
pub proof fn law_session_comes_back_to_its_place(
    a: AdapterView,
    id: Seq<char>,
    store: Map<Seq<char>, SessionView>,
)
    requires
        store.contains_key(id),
        store[id].conversation_id is Some,
        forall|k: Seq<char>| a.sessions.contains_key(k) <==> #[trigger] a.order.contains(k),
    ensures
        a.restoring(id, store).sessions[id] == store[id],
        a.sessions.contains_key(id) ==> a.restoring(id, store).order == a.order && a.restoring(
            id,
            store,
        ).sessions == a.sessions.insert(id, store[id]),
        !a.sessions.contains_key(id) ==> a.restoring(id, store).order.last() == id && a.restoring(
            id,
            store,
        ).order.len() <= crate::agy::sessions::MAX_SESSIONS,
{
    law_room_is_made(a.order);
}

} // verus!
