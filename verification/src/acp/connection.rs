//! One connection to a coding agent: its environment, the requests it is sent,
//! and what becomes of each message that it writes.

use crate::acp::protocol::ConfigOption;
use crate::acp::protocol::JsonRpcError;
use crate::acp::protocol::JsonRpcMessage;
use crate::acp::protocol::OptionView;
use crate::acp::protocol::copy_options;
use crate::control_plane::client::id_after;
use crate::seqs::lemma_filter_none;
use crate::seqs::lemma_filter_step;
use crate::table::Table;
use crate::text::all_white;
use crate::text::ascii_lowered;
use crate::text::chars_of;
use crate::text::contains;
use crate::text::control;
use crate::text::holds;
use crate::text::is_control;
use crate::text::is_white;
use crate::text::is_word;
use crate::text::law_first_word_comes_first;
use crate::text::law_lowering_touches_capitals_only;
use crate::text::law_trimming_ignores_surroundings;
use crate::text::lemma_holds_between;
use crate::text::same;
use crate::text::same_ignoring_ascii_case;
use crate::text::split_words;
use crate::text::starts_with;
use crate::text::string_of;
use crate::text::to_ascii_lower;
use crate::text::trim;
use crate::text::trimmed;
use crate::text::words;
use crate::value::Json;
use crate::value::JsonView;
use crate::value::NumberView;
use crate::value::get_of;
use crate::value::json_view;
use crate::value::law_added_member_is_found;
use crate::value::maybe_json;
use crate::value::text_in;
use vstd::prelude::*;
use vstd::string::*;

verus! {

/// The policy under which tools that write are denied.
pub const WRITE_POLICY_READ_ONLY: &'static str = "READ_ONLY";

/// The policy under which tools may write.
pub const WRITE_POLICY_MODIFY_ALLOWED: &'static str = "MODIFY_ALLOWED";

/// The tools that are denied while only reading is allowed: every one that
/// writes or executes. Shell commands are not read to find out which of them
/// write.
pub const READ_ONLY_DENY_TOOLS: [&'static str; 7] = [
    "Edit",
    "Write",
    "NotebookEdit",
    "MultiEdit",
    "apply_patch",
    "ApplyPatch",
    "Bash",
];

/// The kinds of tool call that are denied while only reading is allowed.
pub const READ_ONLY_DENY_KINDS: [&'static str; 4] = ["edit", "delete", "move", "execute"];

/// Whether two texts are equal up to the case of ASCII letters.
pub open spec fn alike(a: Seq<char>, b: Seq<char>) -> bool {
    ascii_lowered(a) == ascii_lowered(b)
}

/// The kinds of tool call that write or execute.
pub open spec fn is_denied_kind(kind: Seq<char>) -> bool {
    ||| alike(kind, "edit"@)
    ||| alike(kind, "delete"@)
    ||| alike(kind, "move"@)
    ||| alike(kind, "execute"@)
}

/// The tools that write or execute.
pub open spec fn is_denied_tool(name: Seq<char>) -> bool {
    ||| alike(name, "Edit"@)
    ||| alike(name, "Write"@)
    ||| alike(name, "NotebookEdit"@)
    ||| alike(name, "MultiEdit"@)
    ||| alike(name, "apply_patch"@)
    ||| alike(name, "ApplyPatch"@)
    ||| alike(name, "Bash"@)
}

/// Whether a word is, up to case, one of the names listed.
pub open spec fn listed(word: Seq<char>, names: Seq<&str>) -> bool {
    exists|i: int| 0 <= i < names.len() && alike(word, (#[trigger] names[i])@)
}

fn is_listed(word: &str, names: &[&str]) -> (r: bool)
    ensures
        r == listed(word@, names@),
{
    let mut i: usize = 0;
    while i < names.len()
        invariant
            i <= names@.len(),
            forall|k: int| 0 <= k < i ==> !alike(word@, (#[trigger] names@[k])@),
        decreases names@.len() - i,
    {
        if same_ignoring_ascii_case(word, names[i]) {
            assert(alike(word@, names@[i as int]@));
            return true;
        }
        i += 1;
    }
    false
}

/// The kinds that are denied are those listed.
proof fn lemma_denied_kinds(kind: Seq<char>)
    ensures
        is_denied_kind(kind) <==> listed(kind, READ_ONLY_DENY_KINDS@),
{
    let names = READ_ONLY_DENY_KINDS@;
    assert(names[0] == "edit" && names[1] == "delete" && names[2] == "move" && names[3]
        == "execute");
}

/// The tools that are denied are those listed.
proof fn lemma_denied_tools(name: Seq<char>)
    ensures
        is_denied_tool(name) <==> listed(name, READ_ONLY_DENY_TOOLS@),
{
    let names = READ_ONLY_DENY_TOOLS@;
    assert(names[0] == "Edit" && names[1] == "Write" && names[2] == "NotebookEdit" && names[3]
        == "MultiEdit" && names[4] == "apply_patch" && names[5] == "ApplyPatch" && names[6]
        == "Bash");
}

/// Whether a kind, once trimmed, is denied.
pub open spec fn kind_denied(kind: Seq<char>) -> bool {
    trimmed(kind).len() > 0 && is_denied_kind(trimmed(kind))
}

/// Whether the first word of a title is denied.
pub open spec fn title_denied(title: Seq<char>) -> bool {
    words(title).len() > 0 && is_denied_tool(words(title)[0])
}

/// Whether the kind of a tool call is denied while only reading is allowed.
pub fn tool_kind_denied_for_read_only(kind: &str) -> (r: bool)
    ensures
        r == kind_denied(kind@),
{
    let k = trim(kind);
    if k.is_empty() {
        return false;
    }
    let r = is_listed(k, &READ_ONLY_DENY_KINDS);
    proof {
        lemma_denied_kinds(trimmed(kind@));
    }
    r
}

/// Whether the title of a tool call names a tool that is denied while only
/// reading is allowed. Only the first word counts: what follows it are the
/// arguments.
pub fn tool_title_denied_for_read_only(title: &str) -> (r: bool)
    ensures
        r == title_denied(title@),
{
    let parts = split_words(title);
    if parts.len() == 0 {
        return false;
    }
    let t = parts[0].as_str();
    assert(t@ == words(title@)[0]) by {
        assert(parts.deep_view()[0] == parts@[0]@);
    }
    let r = is_listed(t, &READ_ONLY_DENY_TOOLS);
    proof {
        lemma_denied_tools(words(title@)[0]);
    }
    r
}

/// What a session may do to the workspace.
#[derive(Clone, Copy, Debug, PartialEq, Eq, Structural)]
pub enum WritePolicy {
    Unset,
    ModifyAllowed,
    ReadOnly,
}

/// The policy that a label names.
pub open spec fn policy_named(label: Seq<char>) -> WritePolicy {
    if label == "READ_ONLY"@ {
        WritePolicy::ReadOnly
    } else if label == "MODIFY_ALLOWED"@ {
        WritePolicy::ModifyAllowed
    } else {
        WritePolicy::Unset
    }
}

/// The policy in force for a session.
#[derive(Clone, Copy, Debug, PartialEq, Eq, Structural)]
pub struct WritePolicyGuard {
    policy: WritePolicy,
}

impl View for WritePolicyGuard {
    type V = WritePolicy;

    closed spec fn view(&self) -> WritePolicy {
        self.policy
    }
}

impl Default for WritePolicyGuard {
    fn default() -> (r: Self)
        ensures
            r@ == WritePolicy::Unset,
    {
        WritePolicyGuard { policy: WritePolicy::Unset }
    }
}

impl WritePolicyGuard {
    /// No policy is set.
    pub fn new() -> (r: Self)
        ensures
            r@ == WritePolicy::Unset,
    {
        WritePolicyGuard { policy: WritePolicy::Unset }
    }

    /// Sets the policy that `value` names; any other text unsets it.
    pub fn set(&mut self, value: &str)
        ensures
            final(self)@ == policy_named(value@),
    {
        self.policy = if same(value, "READ_ONLY") {
            WritePolicy::ReadOnly
        } else if same(value, "MODIFY_ALLOWED") {
            WritePolicy::ModifyAllowed
        } else {
            WritePolicy::Unset
        };
    }

    /// Whether only reading is allowed.
    pub fn is_read_only(&self) -> (r: bool)
        ensures
            r <==> self@ is ReadOnly,
    {
        match self.policy {
            WritePolicy::ReadOnly => true,
            _ => false,
        }
    }

    /// The name of the policy.
    pub fn label(&self) -> (r: &'static str)
        ensures
            r@ == match self@ {
                WritePolicy::ReadOnly => "READ_ONLY"@,
                WritePolicy::ModifyAllowed => "MODIFY_ALLOWED"@,
                WritePolicy::Unset => "<unset>"@,
            },
    {
        match self.policy {
            WritePolicy::ReadOnly => "READ_ONLY",
            WritePolicy::ModifyAllowed => "MODIFY_ALLOWED",
            WritePolicy::Unset => "<unset>",
        }
    }
}

/// The label of a policy names that policy again.
pub proof fn law_label_names_its_policy()
    ensures
        policy_named("READ_ONLY"@) is ReadOnly,
        policy_named("MODIFY_ALLOWED"@) is ModifyAllowed,
        policy_named("<unset>"@) is Unset,
{
    reveal_strlit("READ_ONLY");
    reveal_strlit("MODIFY_ALLOWED");
    reveal_strlit("<unset>");
    assert("MODIFY_ALLOWED"@.len() != "READ_ONLY"@.len());
    assert("<unset>"@.len() != "READ_ONLY"@.len());
    assert("<unset>"@.len() != "MODIFY_ALLOWED"@.len());
}

/// The first option of that kind.
pub open spec fn first_of_kind(options: Seq<JsonView>, kind: Seq<char>) -> Option<JsonView>
    decreases options.len(),
{
    if options.len() == 0 {
        None
    } else if options[0].text_of("kind"@) == Some(kind) {
        Some(options[0])
    } else {
        first_of_kind(options.drop_first(), kind)
    }
}

/// Whether an option rejects the tool call.
pub open spec fn is_rejection(option: JsonView) -> bool {
    option.text_of("kind"@) == Some("reject_once"@) || option.text_of("kind"@) == Some(
        "reject_always"@,
    )
}

/// The first option that does not reject the tool call.
pub open spec fn first_selectable(options: Seq<JsonView>) -> Option<JsonView>
    decreases options.len(),
{
    if options.len() == 0 {
        None
    } else if !is_rejection(options[0]) {
        Some(options[0])
    } else {
        first_selectable(options.drop_first())
    }
}

/// The id of the most permissive option: one that allows always, else one that
/// allows once, else the first that does not reject.
pub open spec fn best_option(options: Seq<JsonView>) -> Option<Seq<char>> {
    if first_of_kind(options, "allow_always"@) is Some {
        text_in(first_of_kind(options, "allow_always"@), "optionId"@)
    } else if first_of_kind(options, "allow_once"@) is Some {
        text_in(first_of_kind(options, "allow_once"@), "optionId"@)
    } else {
        text_in(first_selectable(options), "optionId"@)
    }
}

fn find_of_kind<'a>(options: &'a Vec<Json>, kind: &str) -> (r: Option<&'a Json>)
    ensures
        json_view(r) == first_of_kind(options.deep_view(), kind@),
{
    let ghost all = options.deep_view();
    let mut i: usize = 0;
    assert(all.skip(0) =~= all);
    while i < options.len()
        invariant
            i <= options@.len(),
            all == options.deep_view(),
            first_of_kind(all, kind@) == first_of_kind(all.skip(i as int), kind@),
        decreases options@.len() - i,
    {
        assert(all.skip(i as int)[0] == options@[i as int]@);
        assert(all.skip(i as int).drop_first() =~= all.skip(i + 1));
        let hit = match options[i].get_str("kind") {
            Some(k) => same(k, kind),
            None => false,
        };
        if hit {
            return Some(&options[i]);
        }
        i += 1;
    }
    None
}

fn find_selectable<'a>(options: &'a Vec<Json>) -> (r: Option<&'a Json>)
    ensures
        json_view(r) == first_selectable(options.deep_view()),
{
    let ghost all = options.deep_view();
    let mut i: usize = 0;
    assert(all.skip(0) =~= all);
    while i < options.len()
        invariant
            i <= options@.len(),
            all == options.deep_view(),
            first_selectable(all) == first_selectable(all.skip(i as int)),
        decreases options@.len() - i,
    {
        assert(all.skip(i as int)[0] == options@[i as int]@);
        assert(all.skip(i as int).drop_first() =~= all.skip(i + 1));
        let rejects = match options[i].get_str("kind") {
            Some(k) => same(k, "reject_once") || same(k, "reject_always"),
            None => false,
        };
        if !rejects {
            return Some(&options[i]);
        }
        i += 1;
    }
    None
}

fn option_id(option: Option<&Json>) -> (r: Option<String>)
    ensures
        r.deep_view() == text_in(json_view(option), "optionId"@),
{
    match option {
        Some(o) => match o.get_str("optionId") {
            Some(id) => Some(id.to_owned()),
            None => None,
        },
        None => None,
    }
}

/// The id of the most permissive option that can be selected.
pub fn pick_best_option(options: &Vec<Json>) -> (r: Option<String>)
    ensures
        r.deep_view() == best_option(options.deep_view()),
{
    let always = find_of_kind(options, "allow_always");
    if always.is_some() {
        return option_id(always);
    }
    let once = find_of_kind(options, "allow_once");
    if once.is_some() {
        return option_id(once);
    }
    option_id(find_selectable(options))
}

/// The response that cancels a tool call.
pub open spec fn cancelled_response() -> JsonView {
    JsonView::empty_object().with(
        "outcome"@,
        JsonView::empty_object().with("outcome"@, JsonView::Text("cancelled"@)),
    )
}

/// The response that selects an option.
pub open spec fn selected_response(option_id: Seq<char>) -> JsonView {
    JsonView::empty_object().with(
        "outcome"@,
        JsonView::empty_object().with("outcome"@, JsonView::Text("selected"@)).with(
            "optionId"@,
            JsonView::Text(option_id),
        ),
    )
}

/// The response to a permission request when no policy interferes: the most
/// permissive option, or a general permission when no options are given.
pub open spec fn permission_response(params: Option<JsonView>) -> JsonView {
    match get_of(params, "options"@) {
        Some(JsonView::Array(options)) => match best_option(options) {
            Some(id) => selected_response(id),
            None => cancelled_response(),
        },
        _ => selected_response("allow_always"@),
    }
}

/// Whether the tool call of a permission request writes or executes: its kind
/// says so, or else the first word of its title does.
pub open spec fn writes(params: Option<JsonView>) -> bool {
    let call = get_of(params, "toolCall"@);
    ||| text_in(call, "kind"@) matches Some(k) && kind_denied(k)
    ||| text_in(call, "title"@) matches Some(t) && title_denied(t)
}

/// The response to a permission request under a policy.
pub open spec fn gated_response(params: Option<JsonView>, policy: Option<WritePolicy>) -> JsonView {
    if policy == Some(WritePolicy::ReadOnly) && writes(params) {
        cancelled_response()
    } else {
        permission_response(params)
    }
}

fn cancelled() -> (r: Json)
    ensures
        r@ == cancelled_response(),
{
    Json::object().with("outcome", Json::object().with("outcome", Json::text("cancelled")))
}

fn selected(id: &str) -> (r: Json)
    ensures
        r@ == selected_response(id@),
{
    Json::object().with(
        "outcome",
        Json::object().with("outcome", Json::text("selected")).with("optionId", Json::text(id)),
    )
}

/// Answers a permission request when no policy interferes.
pub fn build_permission_response(params: Option<&Json>) -> (r: Json)
    ensures
        r@ == permission_response(json_view(params)),
{
    let options = match params {
        Some(p) => match p.get("options") {
            Some(o) => o.as_array(),
            None => None,
        },
        None => None,
    };
    match options {
        None => selected("allow_always"),
        Some(options) => match pick_best_option(options) {
            Some(id) => selected(id.as_str()),
            None => cancelled(),
        },
    }
}

/// Answers a permission request. While only reading is allowed, a tool call
/// that writes or executes is cancelled; otherwise the most permissive option
/// is selected.
pub fn build_permission_response_with_policy(
    params: Option<&Json>,
    write_policy_guard: Option<&WritePolicyGuard>,
) -> (r: Json)
    ensures
        r@ == gated_response(
            json_view(params),
            match write_policy_guard {
                Some(g) => Some(g@),
                None => None,
            },
        ),
{
    let read_only = match write_policy_guard {
        Some(g) => g.is_read_only(),
        None => false,
    };
    if read_only {
        let call = match params {
            Some(p) => p.get("toolCall"),
            None => None,
        };
        let denied = match call {
            Some(c) => {
                let by_kind = match c.get_str("kind") {
                    Some(k) => tool_kind_denied_for_read_only(k),
                    None => false,
                };
                let by_title = match c.get_str("title") {
                    Some(t) => tool_title_denied_for_read_only(t),
                    None => false,
                };
                by_kind || by_title
            },
            None => false,
        };
        if denied {
            return cancelled();
        }
    }
    build_permission_response(params)
}

/// While only reading is allowed, every tool call that writes or executes is
/// cancelled, whatever options the agent offers.
pub proof fn law_read_only_denies_writes(params: JsonView)
    requires
        writes(Some(params)),
    ensures
        gated_response(Some(params), Some(WritePolicy::ReadOnly)) == cancelled_response(),
{
}

/// Under any other policy, and under none, a request is answered as if nothing
/// guarded it.
pub proof fn law_gate_is_transparent(params: Option<JsonView>, policy: Option<WritePolicy>)
    requires
        policy != Some(WritePolicy::ReadOnly),
    ensures
        gated_response(params, policy) == permission_response(params),
{
}

/// While only reading is allowed, a tool call that neither writes nor executes
/// is answered as if there were no policy.
pub proof fn law_read_only_allows_reads(params: Option<JsonView>)
    requires
        !writes(params),
    ensures
        gated_response(params, Some(WritePolicy::ReadOnly)) == permission_response(params),
{
}

/// A permission is never granted through an option that rejects.
pub proof fn law_rejections_are_not_selected(options: Seq<JsonView>)
    requires
        forall|i: int| 0 <= i < options.len() ==> is_rejection(#[trigger] options[i]),
    ensures
        best_option(options) is None,
    decreases options.len(),
{
    lemma_only_rejections(options, "allow_always"@);
    lemma_only_rejections(options, "allow_once"@);
}

proof fn lemma_only_rejections(options: Seq<JsonView>, kind: Seq<char>)
    requires
        forall|i: int| 0 <= i < options.len() ==> is_rejection(#[trigger] options[i]),
        kind == "allow_always"@ || kind == "allow_once"@,
    ensures
        first_of_kind(options, kind) is None,
        first_selectable(options) is None,
    decreases options.len(),
{
    if options.len() > 0 {
        reveal_strlit("allow_always");
        reveal_strlit("allow_once");
        reveal_strlit("reject_once");
        reveal_strlit("reject_always");
        assert("allow_always"@[0] == 'a' && "allow_once"@[0] == 'a');
        assert("reject_once"@[0] == 'r' && "reject_always"@[0] == 'r');
        assert(is_rejection(options[0]));
        assert forall|i: int| 0 <= i < options.drop_first().len() implies is_rejection(
            #[trigger] options.drop_first()[i],
        ) by {
            assert(options.drop_first()[i] == options[i + 1]);
        }
        lemma_only_rejections(options.drop_first(), kind);
    }
}

/// A part of a prompt.
#[derive(Debug, PartialEq, Eq)]
pub enum ContentBlock {
    Text { text: String },
    Image { media_type: String, data: String },
}

/// A part of a prompt as the agent reads it.
pub open spec fn block_json(b: ContentBlock) -> JsonView {
    match b {
        ContentBlock::Text { text } => JsonView::empty_object().with(
            "type"@,
            JsonView::Text("text"@),
        ).with("text"@, JsonView::Text(text@)),
        ContentBlock::Image { media_type, data } => JsonView::empty_object().with(
            "type"@,
            JsonView::Text("image"@),
        ).with("data"@, JsonView::Text(data@)).with("mimeType"@, JsonView::Text(media_type@)),
    }
}

impl ContentBlock {
    /// The block as the agent reads it.
    pub fn to_json(&self) -> (r: Json)
        ensures
            r@ == block_json(*self),
    {
        match self {
            ContentBlock::Text { text } => Json::object().with("type", Json::text("text")).with(
                "text",
                Json::text(text.as_str()),
            ),
            ContentBlock::Image { media_type, data } => Json::object().with(
                "type",
                Json::text("image"),
            ).with("data", Json::text(data.as_str())).with(
                "mimeType",
                Json::text(media_type.as_str()),
            ),
        }
    }
}

/// The variable that a value of the form `${NAME}` refers to.
pub open spec fn reference_key(val: Seq<char>) -> Option<Seq<char>> {
    if "${"@.is_prefix_of(val) && val.len() > 0 && val.last() == '}' {
        Some(val.subrange(2, val.len() - 1))
    } else {
        None
    }
}

/// The texts of a table.
pub open spec fn texts(m: Map<Seq<char>, String>) -> Map<Seq<char>, Seq<char>> {
    m.map_values(|s: String| s@)
}

/// The value of a variable, or nothing at all when it is not set.
pub open spec fn variable(process: Map<Seq<char>, Seq<char>>, key: Seq<char>) -> Seq<char> {
    if process.contains_key(key) {
        process[key]
    } else {
        seq![]
    }
}

/// A configured value: a reference stands for the variable that it names, and
/// anything else for itself.
pub open spec fn expanded(val: Seq<char>, process: Map<Seq<char>, Seq<char>>) -> Seq<char> {
    match reference_key(val) {
        Some(key) => variable(process, key),
        None => val,
    }
}

/// The variable that a value of the form `${NAME}` refers to.
pub fn referenced_name(val: &str) -> (r: Option<String>)
    ensures
        r.deep_view() == reference_key(val@),
{
    let cs = chars_of(val);
    let n: usize = cs.len();
    proof {
        reveal_strlit("${");
    }
    if starts_with(val, "${") && n > 0 && cs[n - 1] == '}' {
        proof {
            assert(val@.subrange(0, 2)[1] == "${"@[1]);
            assert(n >= 3);
        }
        Some(string_of(&cs, 2, n - 1))
    } else {
        None
    }
}

/// Expands a configured value.
pub fn expand_env(val: &str, process: &Table<String, String>) -> (r: String)
    requires
        process.wf(),
    ensures
        r@ == expanded(val@, texts(process@)),
{
    match referenced_name(val) {
        Some(key) => match process.get(&key) {
            Some(v) => v.clone(),
            None => String::new(),
        },
        None => val.to_owned(),
    }
}

/// The variables of the process that an agent inherits: those that are asked
/// for, set, and not configured.
pub open spec fn inherited_keys(
    keys: Seq<Seq<char>>,
    explicit: Map<Seq<char>, Seq<char>>,
    process: Map<Seq<char>, Seq<char>>,
) -> Seq<Seq<char>>
    decreases keys.len(),
{
    if keys.len() == 0 {
        seq![]
    } else {
        let rest = inherited_keys(keys.drop_last(), explicit, process);
        let k = keys.last();
        if explicit.contains_key(k) || rest.contains(k) || !process.contains_key(k) {
            rest
        } else {
            rest.push(k)
        }
    }
}

/// The environment that configuration and inheritance give together.
pub open spec fn agent_env(
    explicit: Map<Seq<char>, Seq<char>>,
    inherited: Seq<Seq<char>>,
    process: Map<Seq<char>, Seq<char>>,
) -> Map<Seq<char>, Seq<char>> {
    Map::new(
        |k: Seq<char>| explicit.contains_key(k) || inherited.contains(k),
        |k: Seq<char>|
            if explicit.contains_key(k) {
                expanded(explicit[k], process)
            } else {
                process[k]
            },
    )
}

/// Builds the environment that is configured for an agent and that it inherits
/// from the process. What is configured takes precedence.
pub fn build_agent_env(
    explicit: &Table<String, String>,
    inherit_keys: &Vec<String>,
    process: &Table<String, String>,
) -> (r: (Table<String, String>, Vec<String>))
    requires
        explicit.wf(),
        process.wf(),
    ensures
        r.0.wf(),
        r.1.deep_view() == inherited_keys(
            inherit_keys.deep_view(),
            texts(explicit@),
            texts(process@),
        ),
        texts(r.0@) == agent_env(texts(explicit@), r.1.deep_view(), texts(process@)),
{
    let ghost ex = texts(explicit@);
    let ghost pr = texts(process@);
    let mut env: Table<String, String> = Table::new();
    let mut i: usize = 0;
    while i < explicit.len()
        invariant
            explicit.wf(),
            process.wf(),
            env.wf(),
            ex == texts(explicit@),
            pr == texts(process@),
            i <= explicit.keys().len(),
            forall|k: Seq<char>| #[trigger]
                env@.contains_key(k) <==> explicit@.contains_key(k)
                    && explicit.keys().index_of(k) < i,
            forall|k: Seq<char>| #[trigger]
                env@.contains_key(k) ==> env@[k]@ == expanded(ex[k], pr),
        decreases explicit.keys().len() - i,
    {
        proof {
            explicit.lemma_at(i as int);
        }
        let ghost key = explicit.keys()[i as int];
        let ghost before = env;
        let e = explicit.at(i);
        let v = expand_env(e.1.as_str(), process);
        env.insert(e.0.clone(), v);
        proof {
            assert forall|k: Seq<char>| #[trigger]
                env@.contains_key(k) <==> explicit@.contains_key(k)
                    && explicit.keys().index_of(k) < i + 1 by {
                assert(env@.contains_key(k) <==> before@.contains_key(k) || k == key);
                if explicit@.contains_key(k) && explicit.keys().index_of(k) == i {
                    assert(explicit.keys()[explicit.keys().index_of(k)] == k);
                }
            }
        }
        i += 1;
    }
    let ghost configured = env;
    proof {
        assert forall|k: Seq<char>| #[trigger]
            env@.contains_key(k) <==> explicit@.contains_key(k) by {
            if explicit@.contains_key(k) {
                let n = explicit.keys().index_of(k);
                assert(explicit.keys().contains(k));
                assert(0 <= n < explicit.keys().len());
            }
        }
    }
    let mut inherited: Vec<String> = Vec::new();
    let ghost keys = inherit_keys.deep_view();
    let mut j: usize = 0;
    assert(keys.take(0) =~= seq![]);
    assert(inherited.deep_view() =~= seq![]);
    while j < inherit_keys.len()
        invariant
            process.wf(),
            env.wf(),
            pr == texts(process@),
            ex == texts(explicit@),
            keys == inherit_keys.deep_view(),
            j <= inherit_keys@.len(),
            inherited.deep_view() == inherited_keys(keys.take(j as int), ex, pr),
            forall|k: Seq<char>| #[trigger]
                env@.contains_key(k) <==> ex.contains_key(k) || inherited.deep_view().contains(k),
            forall|k: Seq<char>| #[trigger]
                env@.contains_key(k) ==> env@[k]@ == (if ex.contains_key(k) {
                    expanded(ex[k], pr)
                } else {
                    pr[k]
                }),
        decreases inherit_keys@.len() - j,
    {
        let key = &inherit_keys[j];
        let ghost before = env;
        let ghost sofar = inherited.deep_view();
        proof {
            assert(keys.take(j + 1).drop_last() =~= keys.take(j as int));
            assert(keys.take(j + 1).last() == key@);
        }
        if !env.contains(key) {
            match process.get(key) {
                Some(v) => {
                    env.insert(key.clone(), v.clone());
                    inherited.push(key.clone());
                    proof {
                        assert(inherited.deep_view() =~= sofar.push(key@));
                        assert forall|k: Seq<char>| #[trigger]
                            env@.contains_key(k) <==> ex.contains_key(k)
                                || inherited.deep_view().contains(k) by {
                            assert(env@.contains_key(k) <==> before@.contains_key(k) || k == key@);
                            if k == key@ {
                                assert(inherited.deep_view()[sofar.len() as int] == k);
                            }
                            if sofar.contains(k) {
                                let n = sofar.index_of(k);
                                assert(inherited.deep_view()[n] == k);
                            }
                            if inherited.deep_view().contains(k) && k != key@ {
                                let n = inherited.deep_view().index_of(k);
                                assert(n < sofar.len());
                                assert(sofar[n] == k);
                            }
                        }
                    }
                },
                None => {},
            }
        }
        j += 1;
    }
    assert(keys.take(keys.len() as int) =~= keys);
    assert(texts(env@) =~= agent_env(ex, inherited.deep_view(), pr));
    (env, inherited)
}

/// The first of two values that is set.
pub open spec fn variable_or(
    process: Map<Seq<char>, Seq<char>>,
    key: Seq<char>,
    fallback: Seq<char>,
) -> Seq<char> {
    if process.contains_key(key) {
        process[key]
    } else {
        fallback
    }
}

fn lookup_or(process: &Table<String, String>, key: &str, fallback: &str) -> (r: String)
    requires
        process.wf(),
    ensures
        r@ == variable_or(texts(process@), key@, fallback@),
{
    let k = key.to_owned();
    match process.get(&k) {
        Some(v) => v.clone(),
        None => fallback.to_owned(),
    }
}

/// The kind of system that an agent runs on.
#[derive(Clone, Copy, Debug, PartialEq, Eq, Structural)]
pub enum Platform {
    Unix,
    Windows,
    /// Neither of the two.
    Other,
}

/// An environment with a variable of the process, where that is set.
pub open spec fn passed_on(
    env: Map<Seq<char>, Seq<char>>,
    process: Map<Seq<char>, Seq<char>>,
    key: Seq<char>,
) -> Map<Seq<char>, Seq<char>> {
    if process.contains_key(key) {
        env.insert(key, process[key])
    } else {
        env
    }
}

/// What every agent finds in its environment: where its user lives and where
/// programs are found, and what its platform knows the user by. On Windows
/// nothing runs without the system's own directories, so they are passed on.
pub open spec fn baseline_env(
    platform: Platform,
    process: Map<Seq<char>, Seq<char>>,
    working_dir: Seq<char>,
) -> Map<Seq<char>, Seq<char>> {
    let common = Map::<Seq<char>, Seq<char>>::empty().insert(
        "HOME"@,
        variable_or(process, "HOME"@, working_dir),
    ).insert("PATH"@, variable_or(process, "PATH"@, "/usr/local/bin:/usr/bin:/bin"@));
    match platform {
        Platform::Unix => common.insert("USER"@, variable_or(process, "USER"@, "agent"@)),
        Platform::Windows => passed_on(
            passed_on(
                common.insert(
                    "USERPROFILE"@,
                    variable_or(process, "USERPROFILE"@, working_dir),
                ).insert("USERNAME"@, variable_or(process, "USERNAME"@, "agent"@)),
                process,
                "SystemRoot"@,
            ),
            process,
            "SystemDrive"@,
        ),
        Platform::Other => common,
    }
}

/// Whether a variable belongs to the baseline of a platform.
pub open spec fn is_baseline(platform: Platform, key: Seq<char>) -> bool {
    key == "HOME"@ || key == "PATH"@ || match platform {
        Platform::Unix => key == "USER"@,
        Platform::Windows => key == "USERPROFILE"@ || key == "USERNAME"@ || key == "SystemRoot"@
            || key == "SystemDrive"@,
        Platform::Other => false,
    }
}

fn set_variable(env: &mut Table<String, String>, key: &str, value: String)
    requires
        old(env).wf(),
    ensures
        final(env).wf(),
        texts(final(env)@) == texts(old(env)@).insert(key@, value@),
{
    env.insert(key.to_owned(), value);
    assert(texts(env@) =~= texts(old(env)@).insert(key@, value@));
}

fn pass_on(env: &mut Table<String, String>, process: &Table<String, String>, key: &str)
    requires
        old(env).wf(),
        process.wf(),
    ensures
        final(env).wf(),
        texts(final(env)@) == passed_on(texts(old(env)@), texts(process@), key@),
{
    let k = key.to_owned();
    match process.get(&k) {
        Some(v) => set_variable(env, key, v.clone()),
        None => {},
    }
}

/// What every agent finds in its environment.
pub fn baseline_environment(
    platform: Platform,
    process: &Table<String, String>,
    working_dir: &str,
) -> (r: Table<String, String>)
    requires
        process.wf(),
    ensures
        r.wf(),
        texts(r@) == baseline_env(platform, texts(process@), working_dir@),
{
    let mut env: Table<String, String> = Table::new();
    assert(texts(env@) =~= Map::<Seq<char>, Seq<char>>::empty());
    set_variable(&mut env, "HOME", lookup_or(process, "HOME", working_dir));
    set_variable(&mut env, "PATH", lookup_or(process, "PATH", "/usr/local/bin:/usr/bin:/bin"));
    match platform {
        Platform::Unix => set_variable(&mut env, "USER", lookup_or(process, "USER", "agent")),
        Platform::Windows => {
            set_variable(
                &mut env,
                "USERPROFILE",
                lookup_or(process, "USERPROFILE", working_dir),
            );
            set_variable(&mut env, "USERNAME", lookup_or(process, "USERNAME", "agent"));
            pass_on(&mut env, process, "SystemRoot");
            pass_on(&mut env, process, "SystemDrive");
        },
        Platform::Other => {},
    }
    env
}

/// The whole environment of an agent on a platform. Nothing of the process
/// reaches it but the platform's baseline and what it inherits by name. Names
/// are told apart by case here: a system that does not tell them apart is handed
/// a `process` in which each name is found as it is asked for.
pub fn spawn_environment(
    platform: Platform,
    explicit: &Table<String, String>,
    inherit_keys: &Vec<String>,
    process: &Table<String, String>,
    working_dir: &str,
) -> (r: Table<String, String>)
    requires
        explicit.wf(),
        process.wf(),
    ensures
        r.wf(),
        texts(r@) == baseline_env(platform, texts(process@), working_dir@).union_prefer_right(
            agent_env(
                texts(explicit@),
                inherited_keys(inherit_keys.deep_view(), texts(explicit@), texts(process@)),
                texts(process@),
            ),
        ),
{
    let (agent, _inherited) = build_agent_env(explicit, inherit_keys, process);
    let mut env = baseline_environment(platform, process, working_dir);
    let ghost base = baseline_env(platform, texts(process@), working_dir@);
    let ghost start = env;
    let mut i: usize = 0;
    while i < agent.len()
        invariant
            agent.wf(),
            env.wf(),
            i <= agent.keys().len(),
            forall|k: Seq<char>| #[trigger]
                env@.contains_key(k) <==> start@.contains_key(k) || (agent@.contains_key(k)
                    && agent.keys().index_of(k) < i),
            forall|k: Seq<char>| #[trigger]
                env@.contains_key(k) ==> env@[k]@ == (if agent@.contains_key(k)
                    && agent.keys().index_of(k) < i {
                    agent@[k]@
                } else {
                    start@[k]@
                }),
        decreases agent.keys().len() - i,
    {
        proof {
            agent.lemma_at(i as int);
        }
        let ghost key = agent.keys()[i as int];
        let ghost before = env;
        let e = agent.at(i);
        env.insert(e.0.clone(), e.1.clone());
        proof {
            assert forall|k: Seq<char>| #[trigger]
                env@.contains_key(k) <==> start@.contains_key(k) || (agent@.contains_key(k)
                    && agent.keys().index_of(k) < i + 1) by {
                assert(env@.contains_key(k) <==> before@.contains_key(k) || k == key);
                if agent@.contains_key(k) && agent.keys().index_of(k) == i {
                    assert(agent.keys()[agent.keys().index_of(k)] == k);
                }
            }
            assert forall|k: Seq<char>| #[trigger] env@.contains_key(k) implies env@[k]@ == (
            if agent@.contains_key(k) && agent.keys().index_of(k) < i + 1 {
                agent@[k]@
            } else {
                start@[k]@
            }) by {
                if k == key {
                } else {
                    assert(before@.contains_key(k));
                    if agent@.contains_key(k) && agent.keys().index_of(k) == i {
                        assert(agent.keys()[agent.keys().index_of(k)] == k);
                    }
                }
            }
        }
        i += 1;
    }
    proof {
        let whole = base.union_prefer_right(texts(agent@));
        assert forall|k: Seq<char>| texts(env@).contains_key(k) <==> whole.contains_key(k) by {
            assert(env@.contains_key(k) <==> texts(env@).contains_key(k));
            assert(start@.contains_key(k) <==> texts(start@).contains_key(k));
            if agent@.contains_key(k) {
                assert(agent.keys().contains(k));
                assert(agent.keys().index_of(k) < agent.keys().len());
            }
        }
        assert forall|k: Seq<char>| texts(env@).contains_key(k) implies texts(env@)[k]
            == whole[k] by {
            assert(env@.contains_key(k));
            if agent@.contains_key(k) {
                assert(agent.keys().contains(k));
                assert(agent.keys().index_of(k) < agent.keys().len());
            }
        }
        assert(texts(env@) =~= whole);
    }
    env
}

/// A variable of the process that is neither in the baseline nor configured
/// nor inherited by name never reaches an agent.
pub proof fn law_environment_does_not_leak(
    platform: Platform,
    explicit: Map<Seq<char>, Seq<char>>,
    inherit: Seq<Seq<char>>,
    process: Map<Seq<char>, Seq<char>>,
    working_dir: Seq<char>,
    key: Seq<char>,
)
    requires
        !is_baseline(platform, key),
        !explicit.contains_key(key),
        !inherit.contains(key),
    ensures
        !baseline_env(platform, process, working_dir).union_prefer_right(
            agent_env(explicit, inherited_keys(inherit, explicit, process), process),
        ).contains_key(key),
{
    if inherited_keys(inherit, explicit, process).contains(key) {
        lemma_inherited_are_asked_for(inherit, explicit, process, key);
    }
}

proof fn lemma_inherited_are_asked_for(
    keys: Seq<Seq<char>>,
    explicit: Map<Seq<char>, Seq<char>>,
    process: Map<Seq<char>, Seq<char>>,
    key: Seq<char>,
)
    requires
        inherited_keys(keys, explicit, process).contains(key),
    ensures
        keys.contains(key),
        process.contains_key(key),
        !explicit.contains_key(key),
    decreases keys.len(),
{
    let rest = inherited_keys(keys.drop_last(), explicit, process);
    let all = inherited_keys(keys, explicit, process);
    if rest.contains(key) {
        lemma_inherited_are_asked_for(keys.drop_last(), explicit, process, key);
        let i = keys.drop_last().index_of(key);
        assert(keys[i] == key);
    } else {
        let i = all.index_of(key);
        assert(i == rest.len()) by {
            if i < rest.len() {
                assert(rest[i] == key);
            }
        }
        assert(keys[keys.len() - 1] == key);
    }
}

/// A configured value takes precedence over a variable of the process.
pub proof fn law_configured_value_wins(
    explicit: Map<Seq<char>, Seq<char>>,
    inherit: Seq<Seq<char>>,
    process: Map<Seq<char>, Seq<char>>,
    key: Seq<char>,
)
    requires
        explicit.contains_key(key),
    ensures
        agent_env(explicit, inherited_keys(inherit, explicit, process), process)[key] == expanded(
            explicit[key],
            process,
        ),
        !inherited_keys(inherit, explicit, process).contains(key),
{
    if inherited_keys(inherit, explicit, process).contains(key) {
        lemma_inherited_are_asked_for(inherit, explicit, process, key);
    }
}

/// The process group of an agent, when its process id can name one.
pub open spec fn group_of(pid: Option<u32>) -> Option<i32> {
    match pid {
        Some(p) => if p <= i32::MAX {
            Some(p as i32)
        } else {
            None
        },
        None => None,
    }
}

/// The process group of an agent, when its process id can name one.
pub fn child_group(pid: Option<u32>) -> (r: Option<i32>)
    ensures
        r == group_of(pid),
{
    match pid {
        Some(p) => {
            if p <= 2147483647 {
                Some(p as i32)
            } else {
                None
            }
        },
        None => None,
    }
}

/// The process group to signal at the end, if there is one: a group id that is
/// not positive would name other processes.
pub fn group_to_kill(group: Option<i32>) -> (r: Option<i32>)
    ensures
        r is Some <==> (group matches Some(g) && g > 0),
        r is Some ==> r == group,
{
    match group {
        Some(g) => {
            if g > 0 {
                Some(g)
            } else {
                None
            }
        },
        None => None,
    }
}

/// `s` without control characters other than the tab.
pub open spec fn printable(s: Seq<char>) -> Seq<char> {
    s.filter(|c: char| !is_control(c) || c == '\t')
}

/// A line that an agent wrote to its error stream, as it is logged; nothing
/// when no text is left.
pub fn sanitize_stderr(line: &str) -> (r: Option<String>)
    ensures
        r.deep_view() == (if printable(trimmed(line@)).len() == 0 {
            None::<Seq<char>>
        } else {
            Some(printable(trimmed(line@)))
        }),
{
    let cs = chars_of(trim(line));
    let ghost keep = |c: char| !is_control(c) || c == '\t';
    let mut out = String::new();
    let mut i: usize = 0;
    proof {
        lemma_filter_none(cs@, keep);
    }
    while i < cs.len()
        invariant
            i <= cs@.len(),
            keep == (|c: char| !is_control(c) || c == '\t'),
            out@ == cs@.take(i as int).filter(keep),
        decreases cs@.len() - i,
    {
        proof {
            lemma_filter_step(cs@, keep, i as int);
        }
        let c = cs[i];
        if !control(c) || c == '\t' {
            out.push(c);
        }
        i += 1;
    }
    assert(cs@.take(cs@.len() as int) =~= cs@);
    if out.as_str().is_empty() {
        None
    } else {
        Some(out)
    }
}

/// What becomes of one message of the agent.
pub enum ReaderStep {
    /// Write this outcome back as the result of request `id`.
    Reply { id: u64, outcome: Json },
    /// Nothing.
    Skip,
    /// Hand the message to the caller `ticket`, and its completion to the
    /// subscriber.
    Resolve { ticket: u64, completion: JsonRpcMessage },
    /// Hand the message to the subscriber.
    Forward,
}

/// Whether a message asks for a permission.
pub open spec fn asks_permission(m: JsonRpcMessage) -> bool {
    m.method.deep_view() == Some("session/request_permission"@)
}

/// Who waits for the response of this id.
pub open spec fn waiter(pending: Map<u64, u64>, id: Option<u64>) -> Option<u64> {
    match id {
        Some(i) => if pending.contains_key(i) {
            Some(pending[i])
        } else {
            None
        },
        None => None,
    }
}

/// Whether `c` tells a subscriber how the request was answered that `m`
/// answers: its id, and its result or error, and nothing else.
pub open spec fn completes(m: JsonRpcMessage, c: JsonRpcMessage) -> bool {
    &&& c.id == m.id
    &&& c.method is None
    &&& c.params is None
    &&& maybe_json(c.result) == maybe_json(m.result)
    &&& match m.error {
        Some(e) => c.error matches Some(f) && f.code == e.code && f.message@ == e.message@
            && maybe_json(f.data) == maybe_json(e.data),
        None => c.error is None,
    }
}

fn copy_payload(v: &Option<Json>) -> (r: Option<Json>)
    ensures
        maybe_json(r) == maybe_json(*v),
{
    match v {
        Some(j) => Some(j.clone()),
        None => None,
    }
}

/// What a subscriber is told of a response.
pub fn completion_of(m: &JsonRpcMessage) -> (r: JsonRpcMessage)
    ensures
        completes(*m, r),
{
    JsonRpcMessage {
        id: m.id,
        method: None,
        result: copy_payload(&m.result),
        error: match &m.error {
            Some(e) => Some(
                JsonRpcError {
                    code: e.code,
                    message: e.message.clone(),
                    data: copy_payload(&e.data),
                },
            ),
            None => None,
        },
        params: None,
    }
}

/// What becomes of a message, and who waits for what after it.
pub open spec fn routed(
    m: JsonRpcMessage,
    before: Map<u64, u64>,
    policy: Option<WritePolicy>,
    after: Map<u64, u64>,
    r: ReaderStep,
) -> bool {
    if asks_permission(m) {
        &&& after == before
        &&& match m.id {
            Some(id) => r matches ReaderStep::Reply { id: n, outcome } && n == id && outcome@
                == gated_response(maybe_json(m.params), policy),
            None => r is Skip,
        }
    } else {
        match waiter(before, m.id) {
            Some(ticket) => {
                &&& r matches ReaderStep::Resolve { ticket: t, completion }
                &&& t == ticket
                &&& completes(m, completion)
                &&& after == before.remove(m.id->0)
            },
            None => r is Forward && after == before,
        }
    }
}

/// Takes one message of the agent. A permission request is answered here under
/// the policy in force; the response to a pending request goes to its caller;
/// everything else, a response that nobody awaits any more among it, goes to
/// the subscriber.
pub fn on_message(
    m: &JsonRpcMessage,
    pending: &mut Table<u64, u64>,
    write_policy_guard: Option<&WritePolicyGuard>,
) -> (r: ReaderStep)
    requires
        old(pending).wf(),
    ensures
        final(pending).wf(),
        ({
            let policy = match write_policy_guard {
                Some(g) => Some(g@),
                None => None,
            };
            &&& routed(*m, old(pending)@, policy, final(pending)@, r)
            &&& !(r is Resolve) ==> *final(pending) == *old(pending)
        }),
{
    let permission = match &m.method {
        Some(method) => same(method.as_str(), "session/request_permission"),
        None => false,
    };
    if permission {
        match m.id {
            Some(id) => {
                let params = match &m.params {
                    Some(p) => Some(p),
                    None => None,
                };
                let outcome = build_permission_response_with_policy(params, write_policy_guard);
                return ReaderStep::Reply { id, outcome };
            },
            None => {
                return ReaderStep::Skip;
            },
        }
    }
    match m.id {
        Some(id) => match pending.remove(&id) {
            Some(ticket) => ReaderStep::Resolve { ticket, completion: completion_of(m) },
            None => ReaderStep::Forward,
        },
        None => ReaderStep::Forward,
    }
}

/// The callers that still wait when the agent is gone, in the order of their
/// requests. Each is due the error `connection closed`, and none waits any
/// more.
pub fn on_close(pending: &mut Table<u64, u64>) -> (r: Vec<u64>)
    requires
        old(pending).wf(),
    ensures
        final(pending).wf(),
        final(pending)@ == Map::<u64, u64>::empty(),
        r@ == old(pending).values(),
{
    let mut out: Vec<u64> = Vec::new();
    let mut i: usize = 0;
    while i < pending.len()
        invariant
            pending.wf(),
            *pending == *old(pending),
            i <= pending.keys().len(),
            out@ =~= pending.values().take(i as int),
        decreases pending.keys().len() - i,
    {
        out.push(*pending.at(i).1);
        i += 1;
    }
    assert(pending.values().take(i as int) =~= pending.values());
    *pending = Table::new();
    out
}

/// What a caller receives in place of a response when the agent is gone.
pub fn connection_closed() -> (r: JsonRpcMessage)
    ensures
        r.id is None,
        r.method is None,
        r.result is None,
        r.params is None,
        r.error matches Some(e) && e.code == -1 && e.message@ == "connection closed"@
            && e.data is None,
{
    JsonRpcMessage {
        id: None,
        method: None,
        result: None,
        error: Some(JsonRpcError {
                code: -1,
                message: "connection closed".to_owned(),
                data: None,
            },
        ),
        params: None,
    }
}

/// How the wait for a response ended.
pub enum ResponseEvent {
    /// The time for it is over.
    TimedOut,
    /// The waiting end was dropped.
    Closed,
    /// A response came.
    Reply(JsonRpcMessage),
}

/// Why a request has no result.
#[derive(Debug, PartialEq, Eq)]
pub enum RequestError {
    /// No response: what happened, in words.
    NoResponse(String),
    /// The agent answered with an error.
    Rejected(JsonRpcError),
}

/// Whether `r` is what a request comes to.
pub open spec fn settles(
    method: Seq<char>,
    event: ResponseEvent,
    r: Result<JsonRpcMessage, RequestError>,
) -> bool {
    match event {
        ResponseEvent::TimedOut => r matches Err(RequestError::NoResponse(e)) && e@
            == "timeout waiting for "@ + method + " response"@,
        ResponseEvent::Closed => r matches Err(RequestError::NoResponse(e)) && e@
            == "channel closed waiting for "@ + method,
        ResponseEvent::Reply(m) => match m.error {
            Some(e) => r == Err::<JsonRpcMessage, RequestError>(RequestError::Rejected(e)),
            None => r == Ok::<JsonRpcMessage, RequestError>(m),
        },
    }
}

/// What a request comes to.
pub fn settle(method: &str, event: ResponseEvent) -> (r: Result<JsonRpcMessage, RequestError>)
    ensures
        settles(method@, event, r),
{
    match event {
        ResponseEvent::TimedOut => {
            let mut e = "timeout waiting for ".to_owned();
            e.append(method);
            e.append(" response");
            Err(RequestError::NoResponse(e))
        },
        ResponseEvent::Closed => {
            let mut e = "channel closed waiting for ".to_owned();
            e.append(method);
            Err(RequestError::NoResponse(e))
        },
        ResponseEvent::Reply(m) => match m.error {
            Some(e) => Err(RequestError::Rejected(e)),
            None => Ok(m),
        },
    }
}

/// What a usage request comes to, given whether the response holds a result
/// and what that result was read as.
pub fn usage_report<T>(has_result: bool, parsed: Option<T>) -> (r: Result<T, String>)
    ensures
        !has_result ==> (r matches Err(e) && e@ == "empty usage response"@),
        has_result ==> match parsed {
            Some(u) => r == Ok::<T, String>(u),
            None => r matches Err(e) && e@ == "could not parse usage response from agent"@,
        },
{
    if !has_result {
        return Err("empty usage response".to_owned());
    }
    match parsed {
        Some(u) => Ok(u),
        None => Err("could not parse usage response from agent".to_owned()),
    }
}

/// How long the response to a request may take, in seconds.
pub fn request_timeout_secs(method: &str) -> (r: u64)
    ensures
        r == (if method@ == "session/new"@ {
            120u64
        } else {
            30u64
        }),
{
    if same(method, "session/new") {
        120
    } else {
        30
    }
}

/// A request as it is written to the agent.
pub open spec fn request_json(id: u64, method: Seq<char>, params: JsonView) -> JsonView {
    JsonView::empty_object().with("jsonrpc"@, JsonView::Text("2.0"@)).with(
        "id"@,
        JsonView::Number(NumberView::Unsigned(id)),
    ).with("method"@, JsonView::Text(method)).with("params"@, params)
}

/// A request as it is written to the agent.
pub fn request(id: u64, method: &str, params: Json) -> (r: Json)
    ensures
        r@ == request_json(id, method@, params@),
{
    Json::object().with("jsonrpc", Json::text("2.0")).with("id", Json::number(id)).with(
        "method",
        Json::text(method),
    ).with("params", params)
}

/// The logical state of one connection to an agent.
pub struct AcpConnection {
    pub acp_session_id: Option<String>,
    pub supports_load_session: bool,
    pub agent_name: String,
    pub config_options: Vec<ConfigOption>,
    child_pgid: Option<i32>,
    next_id: u64,
}

/// The state of an [`AcpConnection`].
#[verifier::ext_equal]
pub struct ConnectionView {
    pub acp_session_id: Option<Seq<char>>,
    pub supports_load_session: bool,
    pub agent_name: Seq<char>,
    pub config_options: Seq<OptionView>,
    /// The process group of the agent.
    pub child_pgid: Option<i32>,
    pub next_id: u64,
}

impl View for AcpConnection {
    type V = ConnectionView;

    closed spec fn view(&self) -> ConnectionView {
        ConnectionView {
            acp_session_id: self.acp_session_id.deep_view(),
            supports_load_session: self.supports_load_session,
            agent_name: self.agent_name@,
            config_options: self.config_options.deep_view(),
            child_pgid: self.child_pgid,
            next_id: self.next_id,
        }
    }
}

/// The options with the value of one of them set.
pub open spec fn with_current_value(
    options: Seq<OptionView>,
    config_id: Seq<char>,
    value: Seq<char>,
) -> Seq<OptionView> {
    options.map_values(
        |o: OptionView|
            if o.id == config_id {
                OptionView { current_value: value, ..o }
            } else {
                o
            },
    )
}

/// What happens while an option is set.
pub enum ConfigEvent {
    Start,
    /// The agent set it, and named its options anew where it gave a result.
    Answered(Option<Vec<ConfigOption>>),
    /// The agent did not.
    Refused,
    /// The slash command was answered.
    Prompted,
    /// The slash command was not.
    PromptFailed(RequestError),
}

/// What setting an option needs next.
pub enum ConfigStep {
    /// Send this request, and say what became of it.
    Request { method: &'static str, params: Json },
    /// It is set: the options as they are now known.
    Done(Vec<ConfigOption>),
    Failed(RequestError),
}

/// The request that sets an option.
pub open spec fn config_params(
    session: Seq<char>,
    config_id: Seq<char>,
    value: Seq<char>,
) -> JsonView {
    JsonView::empty_object().with("sessionId"@, JsonView::Text(session)).with(
        "configId"@,
        JsonView::Text(config_id),
    ).with("value"@, JsonView::Text(value))
}

/// The prompt that sets an option of an agent which has no request for it.
pub open spec fn config_prompt(
    session: Seq<char>,
    config_id: Seq<char>,
    value: Seq<char>,
) -> JsonView {
    JsonView::empty_object().with("sessionId"@, JsonView::Text(session)).with(
        "prompt"@,
        JsonView::Array(
            seq![
                JsonView::empty_object().with("type"@, JsonView::Text("text"@)).with(
                    "text"@,
                    JsonView::Text("/"@ + config_id + " "@ + value),
                ),
            ],
        ),
    )
}

/// One step of setting an option.
pub open spec fn config_stepped(
    config_id: Seq<char>,
    value: Seq<char>,
    event: ConfigEvent,
    before: ConnectionView,
    after: ConnectionView,
    r: Result<ConfigStep, String>,
) -> bool {
    match event {
        ConfigEvent::Start => after == before && match before.acp_session_id {
            Some(id) => r matches Ok(ConfigStep::Request { method, params }) && method@
                == "session/set_config_option"@ && params@ == config_params(id, config_id, value),
            None => r matches Err(e) && e@ == "no session"@,
        },
        ConfigEvent::Refused => after == before && match before.acp_session_id {
            Some(id) => r matches Ok(ConfigStep::Request { method, params }) && method@
                == "session/prompt"@ && params@ == config_prompt(id, config_id, value),
            None => r matches Err(e) && e@ == "no session"@,
        },
        ConfigEvent::Answered(options) => {
            &&& after == (ConnectionView {
                config_options: match options {
                    Some(o) => o.deep_view(),
                    None => before.config_options,
                },
                ..before
            })
            &&& r matches Ok(ConfigStep::Done(o)) && o.deep_view() == after.config_options
        },
        ConfigEvent::Prompted => {
            &&& after == (ConnectionView {
                config_options: with_current_value(before.config_options, config_id, value),
                ..before
            })
            &&& r matches Ok(ConfigStep::Done(o)) && o.deep_view() == after.config_options
        },
        ConfigEvent::PromptFailed(e) => after == before && r == Ok::<ConfigStep, String>(
            ConfigStep::Failed(e),
        ),
    }
}

/// The name that an agent gives itself.
pub open spec fn advertised_name(result: Option<JsonView>) -> Seq<char> {
    match text_in(get_of(result, "agentInfo"@), "name"@) {
        Some(n) => n,
        None => "unknown"@,
    }
}

/// Whether an agent can load an earlier session.
pub open spec fn advertises_load(result: Option<JsonView>) -> bool {
    get_of(get_of(result, "agentCapabilities"@), "loadSession"@) == Some(JsonView::Bool(true))
}

/// Whether an agent of this name can be asked for usage.
pub open spec fn reports_usage(agent_name: Seq<char>) -> bool {
    holds(ascii_lowered(agent_name), "kiro"@)
}

/// The request for the usage of a session.
pub open spec fn usage_query(session: Seq<char>) -> JsonView {
    JsonView::empty_object().with("sessionId"@, JsonView::Text(session)).with(
        "command"@,
        JsonView::empty_object().with("command"@, JsonView::Text("usage"@)).with(
            "args"@,
            JsonView::empty_object(),
        ),
    )
}

/// The parameters of a prompt.
pub open spec fn prompt_json(session: Seq<char>, blocks: Seq<ContentBlock>) -> JsonView {
    JsonView::empty_object().with("sessionId"@, JsonView::Text(session)).with(
        "prompt"@,
        JsonView::Array(blocks.map_values(|b: ContentBlock| block_json(b))),
    )
}

/// The notification that cancels the turn of a session.
pub open spec fn cancel_notification(session: Seq<char>) -> JsonView {
    JsonView::empty_object().with("jsonrpc"@, JsonView::Text("2.0"@)).with(
        "method"@,
        JsonView::Text("session/cancel"@),
    ).with("params"@, JsonView::empty_object().with("sessionId"@, JsonView::Text(session)))
}

impl AcpConnection {
    /// A connection before anything was sent, to the agent with this process
    /// id.
    pub fn new(pid: Option<u32>) -> (r: Self)
        ensures
            r@ == (ConnectionView {
                acp_session_id: None,
                supports_load_session: false,
                agent_name: seq![],
                config_options: seq![],
                child_pgid: group_of(pid),
                next_id: 1,
            }),
    {
        let r = AcpConnection {
            acp_session_id: None,
            supports_load_session: false,
            agent_name: String::new(),
            config_options: Vec::new(),
            child_pgid: child_group(pid),
            next_id: 1,
        };
        assert(r@.config_options =~= seq![]);
        assert(r@.agent_name =~= seq![]);
        r
    }

    /// The process group of the agent.
    pub fn child_pgid(&self) -> (r: Option<i32>)
        ensures
            r == self@.child_pgid,
    {
        self.child_pgid
    }

    /// The id of the next request; every call gives the one after.
    pub fn next_id(&mut self) -> (r: u64)
        ensures
            r == old(self)@.next_id,
            final(self)@ == (ConnectionView {
                next_id: id_after(old(self)@.next_id),
                ..old(self)@
            }),
    {
        let id: u64 = self.next_id;
        self.next_id = if id == u64::MAX {
            0
        } else {
            id + 1
        };
        id
    }

    /// Starts a request: `ticket` waits for its response under a fresh id.
    /// What is written to the agent is returned.
    pub fn begin_request(
        &mut self,
        method: &str,
        params: Json,
        ticket: u64,
        pending: &mut Table<u64, u64>,
    ) -> (r: Json)
        requires
            old(pending).wf(),
        ensures
            final(pending).wf(),
            final(pending)@ == old(pending)@.insert(old(self)@.next_id, ticket),
            final(self)@ == (ConnectionView {
                next_id: id_after(old(self)@.next_id),
                ..old(self)@
            }),
            r@ == request_json(old(self)@.next_id, method@, params@),
    {
        let id: u64 = self.next_id();
        pending.insert(id, ticket);
        request(id, method, params)
    }

    /// The parameters of the first request.
    pub fn initialize_params() -> (r: Json)
        ensures
            r@ == JsonView::empty_object().with(
                "protocolVersion"@,
                JsonView::Number(NumberView::Unsigned(1)),
            ).with("clientCapabilities"@, JsonView::empty_object()).with(
                "clientInfo"@,
                JsonView::empty_object().with("name"@, JsonView::Text("openab"@)).with(
                    "version"@,
                    JsonView::Text("0.1.0"@),
                ),
            ),
    {
        Json::object().with("protocolVersion", Json::number(1)).with(
            "clientCapabilities",
            Json::object(),
        ).with(
            "clientInfo",
            Json::object().with("name", Json::text("openab")).with("version", Json::text("0.1.0")),
        )
    }

    /// Takes the result of the first request: who the agent is, and whether it
    /// can load sessions.
    pub fn initialize(&mut self, result: Option<&Json>)
        ensures
            final(self)@ == (ConnectionView {
                agent_name: advertised_name(json_view(result)),
                supports_load_session: advertises_load(json_view(result)),
                ..old(self)@
            }),
    {
        let info = match result {
            Some(r) => r.get("agentInfo"),
            None => None,
        };
        let name = match info {
            Some(i) => match i.get_str("name") {
                Some(n) => n.to_owned(),
                None => "unknown".to_owned(),
            },
            None => "unknown".to_owned(),
        };
        let capabilities = match result {
            Some(r) => r.get("agentCapabilities"),
            None => None,
        };
        let load = match capabilities {
            Some(c) => match c.get("loadSession") {
                Some(l) => match l.as_bool() {
                    Some(b) => b,
                    None => false,
                },
                None => false,
            },
            None => false,
        };
        self.agent_name = name;
        self.supports_load_session = load;
    }

    /// The parameters that open a session.
    pub fn session_new_params(cwd: &str) -> (r: Json)
        ensures
            r@ == JsonView::empty_object().with("cwd"@, JsonView::Text(cwd@)).with(
                "mcpServers"@,
                JsonView::Array(seq![]),
            ),
    {
        let none: Vec<Json> = Vec::new();
        assert(none.deep_view() =~= seq![]);
        Json::object().with("cwd", Json::text(cwd)).with("mcpServers", Json::array(none))
    }

    /// Takes the result of opening a session, with the options that it carries.
    pub fn session_new(&mut self, result: Option<&Json>, options: Vec<ConfigOption>) -> (r: Result<
        String,
        String,
    >)
        ensures
            match text_in(json_view(result), "sessionId"@) {
                Some(id) => {
                    &&& r matches Ok(s) && s@ == id
                    &&& final(self)@ == (ConnectionView {
                        acp_session_id: Some(id),
                        config_options: options.deep_view(),
                        ..old(self)@
                    })
                },
                None => {
                    &&& r matches Err(e) && e@ == "no sessionId in session/new response"@
                    &&& final(self)@ == old(self)@
                },
            },
    {
        let id = match result {
            Some(j) => j.get_str("sessionId"),
            None => None,
        };
        match id {
            Some(s) => {
                self.acp_session_id = Some(s.to_owned());
                self.config_options = options;
                Ok(s.to_owned())
            },
            None => Err("no sessionId in session/new response".to_owned()),
        }
    }

    /// The parameters that load an earlier session.
    pub fn session_load_params(session_id: &str, cwd: &str) -> (r: Json)
        ensures
            r@ == JsonView::empty_object().with("sessionId"@, JsonView::Text(session_id@)).with(
                "cwd"@,
                JsonView::Text(cwd@),
            ).with("mcpServers"@, JsonView::Array(seq![])),
    {
        let none: Vec<Json> = Vec::new();
        assert(none.deep_view() =~= seq![]);
        Json::object().with("sessionId", Json::text(session_id)).with("cwd", Json::text(cwd)).with(
            "mcpServers",
            Json::array(none),
        )
    }

    /// Takes the result of loading a session. A response without an error is
    /// success; its options, when it carries a result, replace the ones known.
    pub fn session_load(
        &mut self,
        session_id: &str,
        failed: bool,
        options: Option<Vec<ConfigOption>>,
    ) -> (r: Result<(), String>)
        ensures
            failed ==> (r matches Err(e) && e@ == "session/load rejected"@) && final(self)@ == old(
                self,
            )@,
            !failed ==> r is Ok && final(self)@ == (ConnectionView {
                acp_session_id: Some(session_id@),
                config_options: match options {
                    Some(o) => o.deep_view(),
                    None => old(self)@.config_options,
                },
                ..old(self)@
            }),
    {
        if failed {
            return Err("session/load rejected".to_owned());
        }
        self.acp_session_id = Some(session_id.to_owned());
        match options {
            Some(o) => {
                self.config_options = o;
            },
            None => {},
        }
        Ok(())
    }

    /// Sets a configuration option, one step after the other: asks the agent
    /// for it, and where the agent refuses, sends a slash command instead. Fails
    /// without a session.
    pub fn set_config_option(&mut self, config_id: &str, value: &str, event: ConfigEvent) -> (r:
        Result<ConfigStep, String>)
        ensures
            config_stepped(config_id@, value@, event, old(self)@, final(self)@, r),
    {
        match event {
            ConfigEvent::Start => match self.set_config_option_params(config_id, value) {
                Ok(params) => Ok(
                    ConfigStep::Request { method: "session/set_config_option", params },
                ),
                Err(e) => Err(e),
            },
            ConfigEvent::Refused => match self.config_fallback_params(config_id, value) {
                Ok(params) => Ok(ConfigStep::Request { method: "session/prompt", params }),
                Err(e) => Err(e),
            },
            ConfigEvent::Answered(options) => Ok(
                ConfigStep::Done(self.config_option_set(config_id, value, false, options)),
            ),
            ConfigEvent::Prompted => Ok(
                ConfigStep::Done(self.config_option_set(config_id, value, true, None)),
            ),
            ConfigEvent::PromptFailed(e) => Ok(ConfigStep::Failed(e)),
        }
    }

    /// The parameters that set a configuration option; fails without a session.
    pub fn set_config_option_params(&self, config_id: &str, value: &str) -> (r: Result<Json, String>)
        ensures
            match self@.acp_session_id {
                Some(id) => r matches Ok(p) && p@ == config_params(id, config_id@, value@),
                None => r matches Err(e) && e@ == "no session"@,
            },
    {
        match &self.acp_session_id {
            Some(id) => Ok(
                Json::object().with("sessionId", Json::text(id.as_str())).with(
                    "configId",
                    Json::text(config_id),
                ).with("value", Json::text(value)),
            ),
            None => Err("no session".to_owned()),
        }
    }

    /// The prompt that sets an option of an agent which has no request for it:
    /// a slash command.
    pub fn config_fallback_params(&self, config_id: &str, value: &str) -> (r: Result<Json, String>)
        ensures
            match self@.acp_session_id {
                Some(id) => r matches Ok(p) && p@ == config_prompt(id, config_id@, value@),
                None => r matches Err(e) && e@ == "no session"@,
            },
    {
        match &self.acp_session_id {
            Some(id) => {
                let mut cmd = "/".to_owned();
                cmd.append(config_id);
                cmd.append(" ");
                cmd.append(value);
                let mut prompt: Vec<Json> = Vec::new();
                prompt.push(
                    Json::object().with("type", Json::text("text")).with(
                        "text",
                        Json::text(cmd.as_str()),
                    ),
                );
                assert(prompt.deep_view() =~= seq![
                    JsonView::empty_object().with("type"@, JsonView::Text("text"@)).with(
                        "text"@,
                        JsonView::Text(cmd@),
                    ),
                ]);
                Ok(
                    Json::object().with("sessionId", Json::text(id.as_str())).with(
                        "prompt",
                        Json::array(prompt),
                    ),
                )
            },
            None => Err("no session".to_owned()),
        }
    }

    /// Takes the response to setting an option: the options that it carries,
    /// or, after the fallback prompt, the new value of the option. Returns the
    /// options as they are now known.
    pub fn config_option_set(
        &mut self,
        config_id: &str,
        value: &str,
        by_prompt: bool,
        options: Option<Vec<ConfigOption>>,
    ) -> (r: Vec<ConfigOption>)
        ensures
            final(self)@ == (ConnectionView {
                config_options: if by_prompt {
                    with_current_value(old(self)@.config_options, config_id@, value@)
                } else {
                    match options {
                        Some(o) => o.deep_view(),
                        None => old(self)@.config_options,
                    }
                },
                ..old(self)@
            }),
            r.deep_view() == final(self)@.config_options,
    {
        if by_prompt {
            let ghost before = self.config_options.deep_view();
            let mut updated: Vec<ConfigOption> = Vec::new();
            let mut i: usize = 0;
            while i < self.config_options.len()
                invariant
                    i <= self.config_options@.len(),
                    before == self.config_options.deep_view(),
                    *self == *old(self),
                    updated.deep_view() =~= with_current_value(
                        before.take(i as int),
                        config_id@,
                        value@,
                    ),
                decreases self.config_options@.len() - i,
            {
                let ghost sofar = updated.deep_view();
                let mut o = self.config_options[i].clone();
                assert(before.take(i + 1) =~= before.take(i as int).push(before[i as int]));
                if same(o.id.as_str(), config_id) {
                    o.current_value = value.to_owned();
                }
                updated.push(o);
                assert(updated.deep_view() =~= sofar.push(o@));
                i += 1;
            }
            assert(before.take(i as int) =~= before);
            self.config_options = updated;
        } else {
            match options {
                Some(o) => {
                    self.config_options = o;
                },
                None => {},
            }
        }
        copy_options(&self.config_options)
    }

    /// Whether usage can be asked for: only of an agent of the one kind that
    /// has the request, and only within a session. The parameters of the
    /// request, or why there is none.
    pub fn usage_params(&self) -> (r: Result<Json, String>)
        ensures
            if !reports_usage(self@.agent_name) {
                r matches Err(e) && e@ == "usage query is not supported by this backend ("@ + (
                if self@.agent_name.len() == 0 {
                    "unknown agent"@
                } else {
                    self@.agent_name
                }) + ")"@
            } else {
                match self@.acp_session_id {
                    None => r matches Err(e) && e@ == "no session"@,
                    Some(id) => r matches Ok(p) && p@ == usage_query(id),
                }
            },
    {
        let lowered = to_ascii_lower(self.agent_name.as_str());
        if !contains(lowered.as_str(), "kiro") {
            let mut e = "usage query is not supported by this backend (".to_owned();
            if self.agent_name.as_str().is_empty() {
                e.append("unknown agent");
            } else {
                e.append(self.agent_name.as_str());
            }
            e.append(")");
            return Err(e);
        }
        match &self.acp_session_id {
            None => Err("no session".to_owned()),
            Some(id) => Ok(
                Json::object().with("sessionId", Json::text(id.as_str())).with(
                    "command",
                    Json::object().with("command", Json::text("usage")).with("args", Json::object()),
                ),
            ),
        }
    }

    /// The parameters of a prompt; fails without a session.
    pub fn session_prompt(&self, blocks: &Vec<ContentBlock>) -> (r: Result<Json, String>)
        ensures
            match self@.acp_session_id {
                Some(id) => r matches Ok(p) && p@ == prompt_json(id, blocks@),
                None => r matches Err(e) && e@ == "no session"@,
            },
    {
        match &self.acp_session_id {
            Some(id) => {
                let ghost shown = |b: ContentBlock| block_json(b);
                let mut prompt: Vec<Json> = Vec::new();
                let mut i: usize = 0;
                while i < blocks.len()
                    invariant
                        i <= blocks@.len(),
                        shown == (|b: ContentBlock| block_json(b)),
                        prompt.deep_view() =~= blocks@.take(i as int).map_values(shown),
                    decreases blocks@.len() - i,
                {
                    let ghost sofar = prompt.deep_view();
                    prompt.push(blocks[i].to_json());
                    assert(prompt.deep_view() =~= sofar.push(block_json(blocks@[i as int])));
                    i += 1;
                }
                assert(blocks@.take(i as int) =~= blocks@);
                Ok(
                    Json::object().with("sessionId", Json::text(id.as_str())).with(
                        "prompt",
                        Json::array(prompt),
                    ),
                )
            },
            None => Err("no session".to_owned()),
        }
    }

    /// Gives up on a request: nobody awaits its response any more, and the
    /// notification that cancels the turn is returned when there is a session.
    pub fn abandon_request(&self, request_id: u64, pending: &mut Table<u64, u64>) -> (r: Option<
        Json,
    >)
        requires
            old(pending).wf(),
        ensures
            final(pending).wf(),
            final(pending)@ == old(pending)@.remove(request_id),
            match self@.acp_session_id {
                Some(id) => r matches Some(n) && n@ == cancel_notification(id),
                None => r is None,
            },
    {
        let _ = pending.remove(&request_id);
        match &self.acp_session_id {
            Some(id) => Some(
                Json::object().with("jsonrpc", Json::text("2.0")).with(
                    "method",
                    Json::text("session/cancel"),
                ).with("params", Json::object().with("sessionId", Json::text(id.as_str()))),
            ),
            None => None,
        }
    }
}

/// Nobody waits for the response to a request that was abandoned, nor for a
/// second response to one that was answered; whoever waits for another
/// response still does.
pub proof fn law_abandoned_request_is_not_resolved(
    pending: Map<u64, u64>,
    id: u64,
    other: Option<u64>,
)
    ensures
        waiter(pending.remove(id), Some(id)) is None,
        other != Some(id) ==> waiter(pending.remove(id), other) == waiter(pending, other),
{
}

/// When a session was last active, and whether a prompt is running. Times are
/// milliseconds of one monotonic clock.
#[derive(Clone, Copy, Debug, PartialEq, Eq, Structural)]
pub struct SessionActivity {
    last_active_ms: u64,
    prompt_in_flight: bool,
}

/// The state of a [`SessionActivity`].
pub struct ActivityView {
    pub last_active_ms: u64,
    pub in_flight: bool,
}

impl View for SessionActivity {
    type V = ActivityView;

    closed spec fn view(&self) -> ActivityView {
        ActivityView { last_active_ms: self.last_active_ms, in_flight: self.prompt_in_flight }
    }
}

impl SessionActivity {
    /// Active now, with no prompt running.
    pub fn new(now_ms: u64) -> (r: Self)
        ensures
            r@ == (ActivityView { last_active_ms: now_ms, in_flight: false }),
    {
        SessionActivity { last_active_ms: now_ms, prompt_in_flight: false }
    }

    /// Notes activity.
    pub fn touch(&mut self, now_ms: u64)
        ensures
            final(self)@ == (ActivityView { last_active_ms: now_ms, ..old(self)@ }),
    {
        self.last_active_ms = now_ms;
    }

    /// Notes whether a prompt is running.
    pub fn set_in_flight(&mut self, in_flight: bool)
        ensures
            final(self)@ == (ActivityView { in_flight, ..old(self)@ }),
    {
        self.prompt_in_flight = in_flight;
    }

    /// When the session was last active.
    pub fn last_active_ms(&self) -> (r: u64)
        ensures
            r == self@.last_active_ms,
    {
        self.last_active_ms
    }

    /// How long ago the session was last active; nothing at all when that lies
    /// in the future.
    pub fn age(&self, now_ms: u64) -> (r: u64)
        ensures
            r == (if now_ms >= self@.last_active_ms {
                now_ms - self@.last_active_ms
            } else {
                0
            }),
    {
        now_ms.saturating_sub(self.last_active_ms)
    }

    /// Whether a prompt is running.
    pub fn in_flight(&self) -> (r: bool)
        ensures
            r == self@.in_flight,
    {
        self.prompt_in_flight
    }

    /// Sets when the session was last active.
    pub fn set_last_active_ms(&mut self, ms: u64)
        ensures
            final(self)@ == (ActivityView { last_active_ms: ms, ..old(self)@ }),
    {
        self.last_active_ms = ms;
    }

    /// A prompt starts.
    pub fn prompt_started(&mut self, now_ms: u64)
        ensures
            final(self)@ == (ActivityView { last_active_ms: now_ms, in_flight: true }),
    {
        self.touch(now_ms);
        self.set_in_flight(true);
    }

    /// A prompt is done.
    pub fn prompt_done(&mut self, now_ms: u64)
        ensures
            final(self)@ == (ActivityView { last_active_ms: now_ms, in_flight: false }),
    {
        self.touch(now_ms);
        self.set_in_flight(false);
    }
}

/// Whether an option is of a kind.
pub open spec fn of_kind(option: JsonView, kind: Seq<char>) -> bool {
    option.text_of("kind"@) == Some(kind)
}

proof fn lemma_first_of_kind(options: Seq<JsonView>, kind: Seq<char>, i: int)
    requires
        0 <= i < options.len(),
        of_kind(options[i], kind),
        forall|j: int| 0 <= j < i ==> !of_kind(#[trigger] options[j], kind),
    ensures
        first_of_kind(options, kind) == Some(options[i]),
    decreases i,
{
    if i > 0 {
        let rest = options.drop_first();
        assert(!of_kind(options[0], kind));
        assert forall|j: int| 0 <= j < i - 1 implies !of_kind(#[trigger] rest[j], kind) by {
            assert(rest[j] == options[j + 1]);
        }
        lemma_first_of_kind(rest, kind, i - 1);
    }
}

proof fn lemma_none_of_kind(options: Seq<JsonView>, kind: Seq<char>)
    requires
        forall|j: int| 0 <= j < options.len() ==> !of_kind(#[trigger] options[j], kind),
    ensures
        first_of_kind(options, kind) is None,
    decreases options.len(),
{
    if options.len() > 0 {
        let rest = options.drop_first();
        assert(!of_kind(options[0], kind));
        assert forall|j: int| 0 <= j < rest.len() implies !of_kind(#[trigger] rest[j], kind) by {
            assert(rest[j] == options[j + 1]);
        }
        lemma_none_of_kind(rest, kind);
    }
}

proof fn lemma_first_selectable(options: Seq<JsonView>, i: int)
    requires
        0 <= i < options.len(),
        !is_rejection(options[i]),
        forall|j: int| 0 <= j < i ==> is_rejection(#[trigger] options[j]),
    ensures
        first_selectable(options) == Some(options[i]),
    decreases i,
{
    if i > 0 {
        let rest = options.drop_first();
        assert(is_rejection(options[0]));
        assert forall|j: int| 0 <= j < i - 1 implies is_rejection(#[trigger] rest[j]) by {
            assert(rest[j] == options[j + 1]);
        }
        lemma_first_selectable(rest, i - 1);
    }
}

/// Where an option allows always, the first that does is chosen.
pub proof fn law_always_is_chosen_first(options: Seq<JsonView>, i: int)
    requires
        0 <= i < options.len(),
        of_kind(options[i], "allow_always"@),
        forall|j: int| 0 <= j < i ==> !of_kind(#[trigger] options[j], "allow_always"@),
    ensures
        best_option(options) == options[i].text_of("optionId"@),
{
    lemma_first_of_kind(options, "allow_always"@, i);
}

/// Where none allows always, the first option that allows once is chosen.
pub proof fn law_once_is_chosen_next(options: Seq<JsonView>, i: int)
    requires
        0 <= i < options.len(),
        of_kind(options[i], "allow_once"@),
        forall|j: int| 0 <= j < i ==> !of_kind(#[trigger] options[j], "allow_once"@),
        forall|j: int| 0 <= j < options.len() ==> !of_kind(#[trigger] options[j], "allow_always"@),
    ensures
        best_option(options) == options[i].text_of("optionId"@),
{
    lemma_none_of_kind(options, "allow_always"@);
    lemma_first_of_kind(options, "allow_once"@, i);
}

/// Where none allows in so many words, the first option that does not reject is
/// chosen.
pub proof fn law_what_does_not_reject_is_chosen_last(options: Seq<JsonView>, i: int)
    requires
        0 <= i < options.len(),
        !of_kind(options[i], "reject_once"@) && !of_kind(options[i], "reject_always"@),
        forall|j: int|
            0 <= j < i ==> of_kind(#[trigger] options[j], "reject_once"@) || of_kind(
                options[j],
                "reject_always"@,
            ),
        forall|j: int|
            0 <= j < options.len() ==> !of_kind(#[trigger] options[j], "allow_always"@) && !of_kind(
                options[j],
                "allow_once"@,
            ),
    ensures
        best_option(options) == options[i].text_of("optionId"@),
{
    lemma_none_of_kind(options, "allow_always"@);
    lemma_none_of_kind(options, "allow_once"@);
    lemma_first_selectable(options, i);
}

/// The least index from `from` on with a property, given one that has it.
proof fn lemma_least(p: spec_fn(int) -> bool, from: int, at: int) -> (k: int)
    requires
        from <= at,
        p(at),
    ensures
        from <= k <= at,
        p(k),
        forall|j: int| from <= j < k ==> !#[trigger] p(j),
    decreases at - from,
{
    if p(from) {
        from
    } else {
        lemma_least(p, from + 1, at)
    }
}

/// Where some option does not reject, and every option has an id, a choice is
/// made: the id of an option that does not reject, and that allows wherever one
/// does. So without a policy such a request is never cancelled.
pub proof fn law_permission_is_not_withheld(
    params: JsonView,
    options: Seq<JsonView>,
    at: int,
    policy: Option<WritePolicy>,
)
    requires
        params.get("options"@) == Some(JsonView::Array(options)),
        0 <= at < options.len(),
        !is_rejection(options[at]),
        forall|j: int| 0 <= j < options.len() ==> (#[trigger] options[j]).text_of("optionId"@) is Some,
        policy != Some(WritePolicy::ReadOnly),
    ensures
        exists|k: int|
            #![trigger options[k]]
            0 <= k < options.len() && !is_rejection(options[k]) && best_option(options)
                == options[k].text_of("optionId"@) && (of_kind(options[at], "allow_always"@)
                ==> of_kind(options[k], "allow_always"@)) && (of_kind(options[at], "allow_once"@)
                ==> of_kind(options[k], "allow_once"@) || of_kind(options[k], "allow_always"@)),
        best_option(options) is Some,
        chosen_id(gated_response(Some(params), policy)) == best_option(options),
{
    reveal_strlit("allow_always");
    reveal_strlit("allow_once");
    reveal_strlit("reject_once");
    reveal_strlit("reject_always");
    assert("allow_always"@.len() != "allow_once"@.len());
    assert("allow_always"@[0] == 'a' && "allow_once"@[0] == 'a');
    assert("reject_once"@[0] == 'r' && "reject_always"@[0] == 'r');
    let always = |j: int| of_kind(options[j], "allow_always"@);
    let once = |j: int| of_kind(options[j], "allow_once"@);
    let open = |j: int| !is_rejection(options[j]);
    if exists|j: int| 0 <= j < options.len() && #[trigger] always(j) {
        let j = choose|j: int| 0 <= j < options.len() && #[trigger] always(j);
        let k = lemma_least(always, 0, j);
        assert forall|n: int| 0 <= n < k implies !of_kind(
            #[trigger] options[n],
            "allow_always"@,
        ) by {
            assert(!always(n));
        }
        law_always_is_chosen_first(options, k);
        assert(!is_rejection(options[k]));
        assert(options[k].text_of("optionId"@) is Some);
    } else {
        assert forall|n: int| 0 <= n < options.len() implies !of_kind(
            #[trigger] options[n],
            "allow_always"@,
        ) by {
            assert(!always(n));
        }
        if exists|j: int| 0 <= j < options.len() && #[trigger] once(j) {
            let j = choose|j: int| 0 <= j < options.len() && #[trigger] once(j);
            let k = lemma_least(once, 0, j);
            assert forall|n: int| 0 <= n < k implies !of_kind(
                #[trigger] options[n],
                "allow_once"@,
            ) by {
                assert(!once(n));
            }
            law_once_is_chosen_next(options, k);
            assert(!is_rejection(options[k]));
            assert(options[k].text_of("optionId"@) is Some);
        } else {
            assert forall|n: int| 0 <= n < options.len() implies !of_kind(
                #[trigger] options[n],
                "allow_once"@,
            ) by {
                assert(!once(n));
            }
            assert(open(at));
            let k = lemma_least(open, 0, at);
            assert forall|n: int| 0 <= n < k implies of_kind(#[trigger] options[n], "reject_once"@)
                || of_kind(options[n], "reject_always"@) by {
                assert(!open(n));
            }
            law_what_does_not_reject_is_chosen_last(options, k);
            assert(!is_rejection(options[k]));
            assert(options[k].text_of("optionId"@) is Some);
            assert(!always(at));
            assert(!once(at));
        }
    }
    law_responses_say_what_was_decided(best_option(options)->0);
}

/// The option that a response selects, if it selects one.
pub open spec fn chosen_id(response: JsonView) -> Option<Seq<char>> {
    if text_in(response.get("outcome"@), "outcome"@) == Some("selected"@) {
        text_in(response.get("outcome"@), "optionId"@)
    } else {
        None
    }
}

/// Whether a response cancels the tool call.
pub open spec fn cancels(response: JsonView) -> bool {
    text_in(response.get("outcome"@), "outcome"@) == Some("cancelled"@)
}

/// A response that selects an option selects that one and does not cancel, and
/// one that cancels selects none.
pub proof fn law_responses_say_what_was_decided(id: Seq<char>)
    ensures
        chosen_id(selected_response(id)) == Some(id),
        !cancels(selected_response(id)),
        cancels(cancelled_response()),
        chosen_id(cancelled_response()) is None,
{
    broadcast use law_added_member_is_found;

    reveal_strlit("outcome");
    reveal_strlit("optionId");
    reveal_strlit("selected");
    reveal_strlit("cancelled");
    assert("outcome"@.len() != "optionId"@.len());
    assert("selected"@.len() != "cancelled"@.len());
}

/// A request that offers no options at all is allowed for good.
pub proof fn law_no_options_is_allowed(params: Option<JsonView>)
    requires
        !(get_of(params, "options"@) matches Some(JsonView::Array(_))),
    ensures
        chosen_id(permission_response(params)) == Some("allow_always"@),
{
    law_responses_say_what_was_decided("allow_always"@);
}

/// While only reading is allowed, a tool call whose kind edits, deletes, moves
/// or executes, in whatever case and with whatever white space around it, is
/// cancelled.
pub proof fn law_writing_kinds_are_cancelled(
    params: JsonView,
    before: Seq<char>,
    kind: Seq<char>,
    after: Seq<char>,
)
    requires
        all_white(before),
        all_white(after),
        text_in(params.get("toolCall"@), "kind"@) == Some(before + kind + after),
        kind.len() > 0,
        !is_white(kind[0]),
        !is_white(kind.last()),
        ascii_lowered(kind) == "edit"@ || ascii_lowered(kind) == "delete"@ || ascii_lowered(kind)
            == "move"@ || ascii_lowered(kind) == "execute"@,
    ensures
        cancels(gated_response(Some(params), Some(WritePolicy::ReadOnly))),
{
    law_trimming_ignores_surroundings(before, kind, after);
    lemma_lower_literals();
    law_responses_say_what_was_decided(seq![]);
}

/// While only reading is allowed, a tool call whose title starts with the name
/// of a tool that writes or executes, in whatever case and whatever follows, is
/// cancelled.
pub proof fn law_writing_titles_are_cancelled(
    params: JsonView,
    tool: Seq<char>,
    gap: char,
    arguments: Seq<char>,
)
    requires
        is_word(tool),
        is_white(gap),
        text_in(params.get("toolCall"@), "title"@) == Some(tool + seq![gap] + arguments),
        ascii_lowered(tool) == "edit"@ || ascii_lowered(tool) == "write"@ || ascii_lowered(tool)
            == "notebookedit"@ || ascii_lowered(tool) == "multiedit"@ || ascii_lowered(tool)
            == "apply_patch"@ || ascii_lowered(tool) == "applypatch"@ || ascii_lowered(tool)
            == "bash"@,
    ensures
        cancels(gated_response(Some(params), Some(WritePolicy::ReadOnly))),
{
    law_first_word_comes_first(tool, gap, arguments);
    lemma_lower_literals();
    law_responses_say_what_was_decided(seq![]);
}

proof fn lemma_lower_literals()
    ensures
        ascii_lowered("edit"@) == "edit"@,
        ascii_lowered("delete"@) == "delete"@,
        ascii_lowered("move"@) == "move"@,
        ascii_lowered("execute"@) == "execute"@,
        ascii_lowered("Edit"@) == "edit"@,
        ascii_lowered("Write"@) == "write"@,
        ascii_lowered("NotebookEdit"@) == "notebookedit"@,
        ascii_lowered("MultiEdit"@) == "multiedit"@,
        ascii_lowered("apply_patch"@) == "apply_patch"@,
        ascii_lowered("ApplyPatch"@) == "applypatch"@,
        ascii_lowered("Bash"@) == "bash"@,
{
    reveal_strlit("edit");
    reveal_strlit("delete");
    reveal_strlit("move");
    reveal_strlit("execute");
    reveal_strlit("Edit");
    reveal_strlit("Write");
    reveal_strlit("write");
    reveal_strlit("NotebookEdit");
    reveal_strlit("notebookedit");
    reveal_strlit("MultiEdit");
    reveal_strlit("multiedit");
    reveal_strlit("apply_patch");
    reveal_strlit("ApplyPatch");
    reveal_strlit("applypatch");
    reveal_strlit("Bash");
    reveal_strlit("bash");
    assert(ascii_lowered("edit"@) =~= "edit"@);
    assert(ascii_lowered("delete"@) =~= "delete"@);
    assert(ascii_lowered("move"@) =~= "move"@);
    assert(ascii_lowered("execute"@) =~= "execute"@);
    assert(ascii_lowered("Edit"@) =~= "edit"@);
    assert(ascii_lowered("Write"@) =~= "write"@);
    assert(ascii_lowered("NotebookEdit"@) =~= "notebookedit"@);
    assert(ascii_lowered("MultiEdit"@) =~= "multiedit"@);
    assert(ascii_lowered("apply_patch"@) =~= "apply_patch"@);
    assert(ascii_lowered("ApplyPatch"@) =~= "applypatch"@);
    assert(ascii_lowered("Bash"@) =~= "bash"@);
}

/// A tool call is never cancelled for a kind that speaks of no edit, deletion,
/// move or execution.
pub proof fn law_reading_is_never_denied(kind: Seq<char>)
    requires
        !holds(ascii_lowered(kind), "edit"@),
        !holds(ascii_lowered(kind), "delete"@),
        !holds(ascii_lowered(kind), "move"@),
        !holds(ascii_lowered(kind), "execute"@),
        trimmed(kind) == kind,
    ensures
        !kind_denied(kind),
{
    lemma_lower_literals();
    let k = ascii_lowered(kind);
    lemma_holds_between(seq![], k, seq![]);
    assert(Seq::<char>::empty() + k + Seq::<char>::empty() =~= k);
}

/// A value of the form `${NAME}` stands for the variable of that name, or for
/// nothing where it is not set; one that does not start so stands for itself.
pub proof fn law_references_are_looked_up(
    name: Seq<char>,
    val: Seq<char>,
    process: Map<Seq<char>, Seq<char>>,
)
    ensures
        process.contains_key(name) ==> expanded("${"@ + name + "}"@, process) == process[name],
        !process.contains_key(name) ==> expanded("${"@ + name + "}"@, process).len() == 0,
        !"${"@.is_prefix_of(val) ==> expanded(val, process) == val,
        val.len() > 0 && val.last() != '}' ==> expanded(val, process) == val,
{
    reveal_strlit("${");
    reveal_strlit("}");
    let v = "${"@ + name + "}"@;
    assert(v.subrange(0, "${"@.len() as int) =~= "${"@);
    assert(v.last() == '}');
    assert(v.subrange(2, v.len() - 1) =~= name);
}

/// What an agent inherits is exactly what is asked for, set and not configured,
/// each once, and with the value that the process has.
pub proof fn law_inheritance_is_exact(
    keys: Seq<Seq<char>>,
    explicit: Map<Seq<char>, Seq<char>>,
    process: Map<Seq<char>, Seq<char>>,
    key: Seq<char>,
)
    ensures
        inherited_keys(keys, explicit, process).contains(key) <==> keys.contains(key)
            && process.contains_key(key) && !explicit.contains_key(key),
        inherited_keys(keys, explicit, process).no_duplicates(),
        keys.contains(key) && process.contains_key(key) && !explicit.contains_key(key)
            ==> agent_env(explicit, inherited_keys(keys, explicit, process), process)[key]
            == process[key],
        agent_env(
            explicit,
            inherited_keys(keys, explicit, process),
            process,
        ).contains_key(key) <==> explicit.contains_key(key) || (keys.contains(key)
            && process.contains_key(key)),
    decreases keys.len(),
{
    let all = inherited_keys(keys, explicit, process);
    if keys.len() > 0 {
        let rest = inherited_keys(keys.drop_last(), explicit, process);
        let last = keys.last();
        law_inheritance_is_exact(keys.drop_last(), explicit, process, key);
        law_inheritance_is_exact(keys.drop_last(), explicit, process, last);
        if keys.contains(key) && key != last {
            let i = keys.index_of(key);
            assert(keys.drop_last()[i] == key);
        }
        if keys.drop_last().contains(key) {
            let i = keys.drop_last().index_of(key);
            assert(keys[i] == key);
        }
        assert(keys[keys.len() - 1] == last);
        if all != rest {
            assert(all == rest.push(last));
            assert(all[rest.len() as int] == last);
            if rest.contains(key) {
                let i = rest.index_of(key);
                assert(all[i] == key);
            }
            if all.contains(key) && key != last {
                let i = all.index_of(key);
                assert(rest[i] == key);
            }
        }
    }
}

/// On every platform an agent finds its user's home and where programs are: what
/// the process has, or else the working directory and the usual places.
pub proof fn law_every_agent_has_home_and_path(
    platform: Platform,
    process: Map<Seq<char>, Seq<char>>,
    working_dir: Seq<char>,
)
    ensures
        ({
            let env = baseline_env(platform, process, working_dir);
            &&& env.contains_key("HOME"@) && env.contains_key("PATH"@)
            &&& process.contains_key("HOME"@) ==> env["HOME"@] == process["HOME"@]
            &&& !process.contains_key("HOME"@) ==> env["HOME"@] == working_dir
            &&& process.contains_key("PATH"@) ==> env["PATH"@] == process["PATH"@]
            &&& !process.contains_key("PATH"@) ==> env["PATH"@] == "/usr/local/bin:/usr/bin:/bin"@
            &&& env.contains_key("USER"@) <==> platform is Unix
            &&& platform is Unix && process.contains_key("USER"@) ==> env["USER"@]
                == process["USER"@]
            &&& platform is Unix && !process.contains_key("USER"@) ==> env["USER"@] == "agent"@
            &&& env.contains_key("USERPROFILE"@) <==> platform is Windows
            &&& platform is Windows && process.contains_key("USERPROFILE"@)
                ==> env["USERPROFILE"@] == process["USERPROFILE"@]
            &&& platform is Windows && !process.contains_key("USERPROFILE"@)
                ==> env["USERPROFILE"@] == working_dir
            &&& env.contains_key("USERNAME"@) <==> platform is Windows
            &&& platform is Windows && process.contains_key("USERNAME"@) ==> env["USERNAME"@]
                == process["USERNAME"@]
            &&& platform is Windows && !process.contains_key("USERNAME"@) ==> env["USERNAME"@]
                == "agent"@
            &&& env.contains_key("SystemRoot"@) <==> platform is Windows && process.contains_key(
                "SystemRoot"@,
            )
            &&& env.contains_key("SystemRoot"@) ==> env["SystemRoot"@] == process["SystemRoot"@]
            &&& env.contains_key("SystemDrive"@) <==> platform is Windows && process.contains_key(
                "SystemDrive"@,
            )
            &&& env.contains_key("SystemDrive"@) ==> env["SystemDrive"@] == process["SystemDrive"@]
        }),
{
    reveal_strlit("HOME");
    reveal_strlit("PATH");
    reveal_strlit("USER");
    reveal_strlit("USERPROFILE");
    reveal_strlit("USERNAME");
    reveal_strlit("SystemRoot");
    reveal_strlit("SystemDrive");
    assert("HOME"@[0] == 'H' && "PATH"@[0] == 'P' && "USER"@[0] == 'U');
    assert("USERPROFILE"@.len() == 11 && "USERNAME"@.len() == 8);
    assert("SystemRoot"@.len() == 10 && "SystemDrive"@.len() == 11);
    assert("SystemDrive"@[0] == 'S' && "USERPROFILE"@[0] == 'U');
}

/// A process id that can name a group names its own, and any other none.
pub proof fn law_group_is_the_process(pid: u32)
    ensures
        pid <= i32::MAX ==> group_of(Some(pid)) == Some(pid as i32),
        pid > i32::MAX ==> group_of(Some(pid)) is None,
        group_of(None) is None,
{
}

/// What is logged holds no control character but the tab, and a text without
/// any is logged whole.
pub proof fn law_logged_text_is_printable(s: Seq<char>)
    ensures
        forall|i: int|
            0 <= i < printable(s).len() ==> !is_control(#[trigger] printable(s)[i])
                || printable(s)[i] == '\t',
        (forall|i: int| 0 <= i < s.len() ==> !is_control(#[trigger] s[i]) || s[i] == '\t')
            ==> printable(s) == s,
{
    let keep = |c: char| !is_control(c) || c == '\t';
    assert forall|i: int| 0 <= i < printable(s).len() implies !is_control(
        #[trigger] printable(s)[i],
    ) || printable(s)[i] == '\t' by {
        s.lemma_filter_pred(keep, i);
    }
    if forall|i: int| 0 <= i < s.len() ==> !is_control(#[trigger] s[i]) || s[i] == '\t' {
        crate::seqs::lemma_filter_all(s, keep);
    }
}

/// A response goes to the one who waits for it, and to nobody else, and nobody
/// waits for it again; whoever waits for another response still does.
pub proof fn law_responses_reach_their_callers(
    m: JsonRpcMessage,
    before: Map<u64, u64>,
    policy: Option<WritePolicy>,
    after: Map<u64, u64>,
    r: ReaderStep,
    id: u64,
    other: u64,
)
    requires
        m.id == Some(id),
        m.method is None,
        before.contains_key(id),
        routed(m, before, policy, after, r),
    ensures
        r matches ReaderStep::Resolve { ticket, completion } && ticket == before[id]
            && completion.id == Some(id) && maybe_json(completion.result) == maybe_json(m.result)
            && (completion.error is Some <==> m.error is Some),
        !after.contains_key(id),
        other != id ==> after.contains_key(other) == before.contains_key(other),
        other != id && before.contains_key(other) ==> after[other] == before[other],
{
}

/// A permission request is answered under its own id, a message that nobody
/// waits for goes to the subscriber, and neither changes who waits.
pub proof fn law_other_messages_leave_the_callers(
    m: JsonRpcMessage,
    before: Map<u64, u64>,
    policy: Option<WritePolicy>,
    after: Map<u64, u64>,
    r: ReaderStep,
)
    requires
        routed(m, before, policy, after, r),
        !(m.id matches Some(id) && before.contains_key(id)) || m.method.deep_view() == Some(
            "session/request_permission"@,
        ),
    ensures
        after == before,
        m.method.deep_view() == Some("session/request_permission"@) && m.id is Some ==> (
        r matches ReaderStep::Reply { id, outcome } && m.id == Some(id) && (cancels(outcome@)
            || chosen_id(outcome@) is Some)),
        m.method.deep_view() != Some("session/request_permission"@) ==> r is Forward,
{
    let params = maybe_json(m.params);
    law_responses_say_what_was_decided("allow_always"@);
    match get_of(params, "options"@) {
        Some(JsonView::Array(options)) => match best_option(options) {
            Some(id) => law_responses_say_what_was_decided(id),
            None => {},
        },
        _ => {},
    }
}

/// A request comes to its response, unless that is an error: then to that
/// error. Without a response it comes to an error that names the request.
pub proof fn law_requests_come_to_their_response(
    method: Seq<char>,
    event: ResponseEvent,
    r: Result<JsonRpcMessage, RequestError>,
)
    requires
        settles(method, event, r),
    ensures
        r is Ok <==> (event matches ResponseEvent::Reply(m) && m.error is None),
        event matches ResponseEvent::Reply(m) ==> match r {
            Ok(given) => given == m,
            Err(RequestError::Rejected(e)) => m.error == Some(e),
            Err(_) => false,
        },
        !(event is Reply) ==> (r matches Err(RequestError::NoResponse(e)) && holds(e@, method)),
{
    lemma_holds_between("timeout waiting for "@, method, " response"@);
    lemma_holds_between("channel closed waiting for "@, method, seq![]);
    assert("channel closed waiting for "@ + method + Seq::<char>::empty()
        =~= "channel closed waiting for "@ + method);
}

/// A request reads as what it asks for.
pub proof fn law_requests_read_as_asked(id: u64, method: Seq<char>, params: JsonView)
    ensures
        request_json(id, method, params).text_of("jsonrpc"@) == Some("2.0"@),
        request_json(id, method, params).get("id"@) == Some(
            JsonView::Number(NumberView::Unsigned(id)),
        ),
        request_json(id, method, params).text_of("method"@) == Some(method),
        request_json(id, method, params).get("params"@) == Some(params),
{
    broadcast use law_added_member_is_found;

    reveal_strlit("jsonrpc");
    reveal_strlit("id");
    reveal_strlit("method");
    reveal_strlit("params");
    assert("jsonrpc"@.len() == 7 && "id"@.len() == 2);
    assert("method"@[0] == 'm' && "params"@[0] == 'p');
}

/// What is asked of an agent names its session and what is to be done there.
pub proof fn law_session_requests_name_their_session(
    session: Seq<char>,
    config_id: Seq<char>,
    value: Seq<char>,
    blocks: Seq<ContentBlock>,
)
    ensures
        config_params(session, config_id, value).text_of("sessionId"@) == Some(session),
        config_params(session, config_id, value).text_of("configId"@) == Some(config_id),
        config_params(session, config_id, value).text_of("value"@) == Some(value),
        config_prompt(session, config_id, value).text_of("sessionId"@) == Some(session),
        config_prompt(session, config_id, value).get("prompt"@) matches Some(
            JsonView::Array(parts),
        ) && parts.len() == 1 && parts[0].text_of("type"@) == Some("text"@) && parts[0].text_of(
            "text"@,
        ) == Some("/"@ + config_id + " "@ + value),
        usage_query(session).text_of("sessionId"@) == Some(session),
        text_in(usage_query(session).get("command"@), "command"@) == Some("usage"@),
        prompt_json(session, blocks).text_of("sessionId"@) == Some(session),
        prompt_json(session, blocks).get("prompt"@) matches Some(JsonView::Array(parts))
            && parts.len() == blocks.len() && forall|i: int|
            0 <= i < blocks.len() ==> #[trigger] parts[i] == block_json(blocks[i]),
        cancel_notification(session).text_of("method"@) == Some("session/cancel"@),
        text_in(cancel_notification(session).get("params"@), "sessionId"@) == Some(session),
        cancel_notification(session).get("id"@) is None,
{
    broadcast use law_added_member_is_found;

    reveal_strlit("sessionId");
    reveal_strlit("configId");
    reveal_strlit("value");
    reveal_strlit("prompt");
    reveal_strlit("type");
    reveal_strlit("text");
    reveal_strlit("command");
    reveal_strlit("args");
    reveal_strlit("jsonrpc");
    reveal_strlit("method");
    reveal_strlit("params");
    reveal_strlit("id");
    assert("sessionId"@.len() == 9 && "configId"@.len() == 8 && "value"@.len() == 5);
    assert("prompt"@.len() == 6 && "command"@.len() == 7 && "args"@.len() == 4);
    assert("type"@[1] == 'y' && "text"@[1] == 'e');
    assert("jsonrpc"@.len() == 7 && "id"@.len() == 2);
    assert("method"@[0] == 'm' && "params"@[0] == 'p');
}

/// A block of a prompt reaches the agent as what it is, with all that it holds.
pub proof fn law_blocks_reach_the_agent(b: ContentBlock)
    ensures
        match b {
            ContentBlock::Text { text } => block_json(b).text_of("type"@) == Some("text"@)
                && block_json(b).text_of("text"@) == Some(text@),
            ContentBlock::Image { media_type, data } => block_json(b).text_of("type"@) == Some(
                "image"@,
            ) && block_json(b).text_of("data"@) == Some(data@) && block_json(b).text_of(
                "mimeType"@,
            ) == Some(media_type@),
        },
{
    broadcast use law_added_member_is_found;

    reveal_strlit("type");
    reveal_strlit("text");
    reveal_strlit("data");
    reveal_strlit("mimeType");
    assert("type"@[1] == 'y' && "text"@[1] == 'e' && "data"@[1] == 'a');
    assert("mimeType"@.len() == 8 && "type"@.len() == 4 && "data"@.len() == 4);
}

/// Setting a value changes the current value of the option of that id, and
/// nothing else of any option.
pub proof fn law_setting_changes_one_value(
    options: Seq<OptionView>,
    config_id: Seq<char>,
    value: Seq<char>,
    i: int,
)
    requires
        0 <= i < options.len(),
    ensures
        with_current_value(options, config_id, value).len() == options.len(),
        ({
            let (o, n) = (options[i], with_current_value(options, config_id, value)[i]);
            &&& n.current_value == (if o.id == config_id {
                value
            } else {
                o.current_value
            })
            &&& n.id == o.id && n.name == o.name && n.description == o.description
            &&& n.category == o.category && n.option_type == o.option_type
            &&& n.options == o.options
        }),
{
}

/// Setting an option asks the agent by the request for it; an agent that
/// refuses is prompted; and what it answered, or else the value that was asked
/// for, is what is known afterwards. Nothing else of the connection changes.
pub proof fn law_option_is_set_one_way_or_the_other(
    config_id: Seq<char>,
    value: Seq<char>,
    event: ConfigEvent,
    before: ConnectionView,
    after: ConnectionView,
    r: Result<ConfigStep, String>,
)
    requires
        config_stepped(config_id, value, event, before, after, r),
    ensures
        after.acp_session_id == before.acp_session_id && after.next_id == before.next_id
            && after.agent_name == before.agent_name,
        event is Start && before.acp_session_id is Some ==> (r matches Ok(
            ConfigStep::Request { method, params },
        ) && method@ == "session/set_config_option"@ && params@.text_of("value"@) == Some(value)
            && params@.text_of("configId"@) == Some(config_id) && params@.text_of("sessionId"@)
            == before.acp_session_id),
        event is Refused && before.acp_session_id is Some ==> (r matches Ok(
            ConfigStep::Request { method, params },
        ) && method@ == "session/prompt"@ && params@.text_of("sessionId"@)
            == before.acp_session_id),
        (event is Start || event is Refused) && before.acp_session_id is None ==> r is Err,
        event matches ConfigEvent::Answered(Some(o)) ==> after.config_options == o.deep_view(),
        event matches ConfigEvent::Answered(None) ==> after.config_options
            == before.config_options,
        event is Prompted ==> forall|i: int|
            0 <= i < before.config_options.len() && before.config_options[i].id == config_id
                ==> (#[trigger] after.config_options[i]).current_value == value,
        (event is Answered || event is Prompted) ==> (r matches Ok(ConfigStep::Done(o))
            && o.deep_view() == after.config_options),
        event is PromptFailed ==> (r matches Ok(ConfigStep::Failed(_))) && after == before,
{
    match before.acp_session_id {
        Some(id) => law_session_requests_name_their_session(id, config_id, value, seq![]),
        None => {},
    }
}

/// An agent's name and whether it loads sessions are read from what it says of
/// itself.
pub proof fn law_agent_is_what_it_says(result: JsonView, name: Seq<char>, info: JsonView, can: JsonView)
    requires
        result.get("agentInfo"@) == Some(info),
        info.text_of("name"@) == Some(name),
        result.get("agentCapabilities"@) == Some(can),
    ensures
        advertised_name(Some(result)) == name,
        advertises_load(Some(result)) <==> can.get("loadSession"@) == Some(JsonView::Bool(true)),
        advertised_name(None) == "unknown"@,
        !advertises_load(None),
{
}

/// An agent is asked for usage whose name holds the one product's name, in
/// whatever case, and no other is.
pub proof fn law_usage_is_asked_by_name(before: Seq<char>, name: Seq<char>, after: Seq<char>)
    requires
        ascii_lowered(name) == "kiro"@,
    ensures
        reports_usage(before + name + after),
        !reports_usage(Seq::<char>::empty()),
{
    let (a, b) = (ascii_lowered(before), ascii_lowered(after));
    lemma_holds_between(a, "kiro"@, b);
    assert(ascii_lowered(before + name + after) =~= a + "kiro"@ + b);
    reveal_strlit("kiro");
    assert("kiro"@.len() == 4);
    assert(ascii_lowered(Seq::<char>::empty()).len() == 0);
}

/// A subscriber is told of a response just what it answers: its id, and its
/// result or its error as they came, in a message that asks for nothing.
pub proof fn law_completion_tells_the_answer(m: JsonRpcMessage, c: JsonRpcMessage)
    requires
        completes(m, c),
    ensures
        c.id == m.id,
        c.method is None && c.params is None,
        maybe_json(c.result) == maybe_json(m.result),
        c.error is Some <==> m.error is Some,
        c.error matches Some(f) ==> (m.error matches Some(e) && f.code == e.code && f.message@
            == e.message@ && maybe_json(f.data) == maybe_json(e.data)),
{
}

/// A kind or a title without a word is no reason to cancel a tool call.
pub proof fn law_nothing_said_is_not_denied(kind: Seq<char>, title: Seq<char>)
    ensures
        trimmed(kind).len() == 0 ==> !kind_denied(kind),
        words(title).len() == 0 ==> !title_denied(title),
{
}

/// A permission that is asked for without an id is answered to nobody and shown
/// to nobody. Of all other messages, a response that is awaited goes to who
/// awaits it, and every other to the subscriber.
pub proof fn law_messages_go_to_who_awaits_them(
    m: JsonRpcMessage,
    before: Map<u64, u64>,
    policy: Option<WritePolicy>,
    after: Map<u64, u64>,
    r: ReaderStep,
)
    requires
        routed(m, before, policy, after, r),
    ensures
        r is Skip <==> asks_permission(m) && m.id is None,
        r is Reply <==> asks_permission(m) && m.id is Some,
        r is Resolve <==> !asks_permission(m) && (m.id matches Some(i) && before.contains_key(i)),
        r !is Resolve ==> after == before,
        r is Resolve ==> after == before.remove(m.id->0),
{
}

} // verus!
