//! Platform-neutral commands: how they are read, carried out and shown.
//!
//! What a command does to a session is done outside: [`CommandService`] says
//! which operation comes next and takes what came of it.

use crate::acp::protocol::ChoiceView;
use crate::acp::protocol::ConfigOption;
use crate::acp::protocol::ConfigOptionValue;
use crate::acp::protocol::OptionView;
use crate::text::all_white;
use crate::text::chars_of;
use crate::text::contains;
use crate::text::decimal;
use crate::text::decimal_text;
use crate::text::holds;
use crate::text::is_white;
use crate::text::is_word;
use crate::text::join;
use crate::text::joined;
use crate::text::law_decimal_reads_back;
use crate::text::law_joined_text_holds_its_parts;
use crate::text::law_trimming_ignores_surroundings;
use crate::text::lemma_holds_between;
use crate::text::lemma_holds_in_longer;
use crate::text::lowercase_of;
use crate::text::parse_usize;
use crate::text::parsed_usize;
use crate::text::same;
use crate::text::split_words;
use crate::text::starts_with;
use crate::text::string_of;
use crate::text::to_lowercase;
use crate::text::trim;
use crate::text::trimmed;
use crate::text::white;
use crate::text::words;
use vstd::prelude::*;
use vstd::string::*;

verus! {

/// How long a command may take, in seconds.
pub const COMMAND_EXECUTION_TIMEOUT_SECS: u64 = 45;

/// How many choices a listing shows.
pub const TEXT_OPTION_LIMIT: usize = 25;

/// How many characters a response holds.
pub const TEXT_RESPONSE_CHAR_LIMIT: usize = 3_500;

/// How many characters a value inside a response holds.
pub const TEXT_VALUE_CHAR_LIMIT: usize = 120;

/// What kind of configuration a command is about.
#[derive(Clone, Copy, Debug, PartialEq, Eq, Structural)]
pub enum ConfigCategory {
    Model,
    Agent,
}

/// The name of a category.
pub open spec fn category_name(c: ConfigCategory) -> Seq<char> {
    match c {
        ConfigCategory::Model => "model"@,
        ConfigCategory::Agent => "agent"@,
    }
}

/// Whether an option of this category belongs to `c`.
pub open spec fn in_category(c: ConfigCategory, category: Option<Seq<char>>) -> bool {
    match c {
        ConfigCategory::Model => category == Some("model"@),
        ConfigCategory::Agent => category == Some("agent"@) || category == Some("mode"@),
    }
}

impl ConfigCategory {
    /// The name of the category.
    pub fn as_str(self) -> (r: &'static str)
        ensures
            r@ == category_name(self),
    {
        match self {
            ConfigCategory::Model => "model",
            ConfigCategory::Agent => "agent",
        }
    }

    /// Whether an option of this category belongs here.
    pub fn matches(self, category: &Option<String>) -> (r: bool)
        ensures
            r == in_category(self, category.deep_view()),
    {
        match category {
            None => false,
            Some(c) => match self {
                ConfigCategory::Model => same(c.as_str(), "model"),
                ConfigCategory::Agent => same(c.as_str(), "agent") || same(c.as_str(), "mode"),
            },
        }
    }
}

/// The name of a command.
#[derive(Clone, Copy, Debug, PartialEq, Eq, Structural)]
pub enum CommandName {
    Models,
    Agents,
    Cancel,
    CancelAll,
    Reset,
    Usage,
}

/// A command's name as text.
pub open spec fn command_text(n: CommandName) -> Seq<char> {
    match n {
        CommandName::Models => "models"@,
        CommandName::Agents => "agents"@,
        CommandName::Cancel => "cancel"@,
        CommandName::CancelAll => "cancel-all"@,
        CommandName::Reset => "reset"@,
        CommandName::Usage => "usage"@,
    }
}

impl CommandName {
    /// The name as text.
    pub fn as_str(self) -> (r: &'static str)
        ensures
            r@ == command_text(self),
    {
        match self {
            CommandName::Models => "models",
            CommandName::Agents => "agents",
            CommandName::Cancel => "cancel",
            CommandName::CancelAll => "cancel-all",
            CommandName::Reset => "reset",
            CommandName::Usage => "usage",
        }
    }
}

/// The command that is about a category.
pub open spec fn category_command(c: ConfigCategory) -> CommandName {
    match c {
        ConfigCategory::Model => CommandName::Models,
        ConfigCategory::Agent => CommandName::Agents,
    }
}

fn command_name(category: ConfigCategory) -> (r: CommandName)
    ensures
        r == category_command(category),
{
    match category {
        ConfigCategory::Model => CommandName::Models,
        ConfigCategory::Agent => CommandName::Agents,
    }
}

/// A command.
#[derive(Debug, PartialEq, Eq)]
pub enum Command {
    ListConfig(ConfigCategory),
    SetConfig { category: ConfigCategory, selector: String },
    Cancel,
    CancelAll,
    Reset,
    Usage,
    InvalidArguments { name: CommandName },
}

/// What a [`Command`] says.
pub enum CommandView {
    ListConfig(ConfigCategory),
    SetConfig { category: ConfigCategory, selector: Seq<char> },
    Cancel,
    CancelAll,
    Reset,
    Usage,
    InvalidArguments { name: CommandName },
}

impl View for Command {
    type V = CommandView;

    open spec fn view(&self) -> CommandView {
        match *self {
            Command::ListConfig(c) => CommandView::ListConfig(c),
            Command::SetConfig { category, selector } => CommandView::SetConfig {
                category,
                selector: selector@,
            },
            Command::Cancel => CommandView::Cancel,
            Command::CancelAll => CommandView::CancelAll,
            Command::Reset => CommandView::Reset,
            Command::Usage => CommandView::Usage,
            Command::InvalidArguments { name } => CommandView::InvalidArguments { name },
        }
    }
}

/// Which command it is.
pub open spec fn command_named(c: CommandView) -> CommandName {
    match c {
        CommandView::ListConfig(category) => category_command(category),
        CommandView::SetConfig { category, .. } => category_command(category),
        CommandView::Cancel => CommandName::Cancel,
        CommandView::CancelAll => CommandName::CancelAll,
        CommandView::Reset => CommandName::Reset,
        CommandView::Usage => CommandName::Usage,
        CommandView::InvalidArguments { name } => name,
    }
}

impl Command {
    /// Which command it is.
    pub fn name(&self) -> (r: CommandName)
        ensures
            r == command_named(self@),
    {
        match self {
            Command::ListConfig(c) => command_name(*c),
            Command::SetConfig { category, .. } => command_name(*category),
            Command::Cancel => CommandName::Cancel,
            Command::CancelAll => CommandName::CancelAll,
            Command::Reset => CommandName::Reset,
            Command::Usage => CommandName::Usage,
            Command::InvalidArguments { name } => *name,
        }
    }
}

/// Whether `input` is `prefix` followed by white space.
pub open spec fn spaced(input: Seq<char>, prefix: Seq<char>) -> bool {
    prefix.is_prefix_of(input) && input.len() > prefix.len() && is_white(
        input[prefix.len() as int],
    )
}

fn has_whitespace_suffix(input: &str, prefix: &str) -> (r: bool)
    ensures
        r == spaced(input@, prefix@),
{
    if !starts_with(input, prefix) {
        return false;
    }
    let n: usize = prefix.unicode_len();
    if input.unicode_len() <= n {
        return false;
    }
    white(input.get_char(n))
}

/// What the words after `/model` or `/agent` ask for.
pub open spec fn config_command(ws: Seq<Seq<char>>, category: ConfigCategory) -> CommandView {
    if ws.len() == 1 && ws[0] == "list"@ {
        CommandView::ListConfig(category)
    } else if ws.len() > 1 && ws[0] == "set"@ {
        CommandView::SetConfig { category, selector: joined(ws.skip(1), " "@) }
    } else {
        CommandView::InvalidArguments { name: category_command(category) }
    }
}

/// The command that a text is, if it is one.
pub open spec fn parsed_command(input: Seq<char>) -> Option<CommandView> {
    let t = trimmed(input);
    if t == "/models"@ || t == "/model"@ {
        Some(CommandView::ListConfig(ConfigCategory::Model))
    } else if t == "/agents"@ || t == "/agent"@ {
        Some(CommandView::ListConfig(ConfigCategory::Agent))
    } else if t == "/cancel"@ {
        Some(CommandView::Cancel)
    } else if t == "/cancel-all"@ {
        Some(CommandView::CancelAll)
    } else if t == "/reset"@ {
        Some(CommandView::Reset)
    } else if t == "/usage"@ {
        Some(CommandView::Usage)
    } else if spaced(t, "/models"@) {
        Some(CommandView::InvalidArguments { name: CommandName::Models })
    } else if spaced(t, "/agents"@) {
        Some(CommandView::InvalidArguments { name: CommandName::Agents })
    } else if spaced(t, "/cancel-all"@) {
        Some(CommandView::InvalidArguments { name: CommandName::CancelAll })
    } else if spaced(t, "/cancel"@) {
        Some(CommandView::InvalidArguments { name: CommandName::Cancel })
    } else if spaced(t, "/reset"@) {
        Some(CommandView::InvalidArguments { name: CommandName::Reset })
    } else if spaced(t, "/usage"@) {
        Some(CommandView::InvalidArguments { name: CommandName::Usage })
    } else if spaced(t, "/model"@) {
        Some(config_command(words(t.skip("/model"@.len() as int)), ConfigCategory::Model))
    } else if spaced(t, "/agent"@) {
        Some(config_command(words(t.skip("/agent"@.len() as int)), ConfigCategory::Agent))
    } else {
        None
    }
}

fn parse_config_compatibility(input: &str, prefix: &str, category: ConfigCategory) -> (r: Command)
    requires
        spaced(input@, prefix@),
    ensures
        r@ == config_command(words(input@.skip(prefix@.len() as int)), category),
{
    let cs = chars_of(input);
    let n: usize = prefix.unicode_len();
    let suffix = string_of(&cs, n, cs.len());
    assert(suffix@ =~= input@.skip(n as int));
    let ws = split_words(suffix.as_str());
    assert(ws.deep_view().len() == ws@.len());
    if ws.len() == 1 && same(ws[0].as_str(), "list") {
        Command::ListConfig(category)
    } else if ws.len() > 1 && same(ws[0].as_str(), "set") {
        let selector = join(&ws, 1, " ");
        Command::SetConfig { category, selector }
    } else {
        Command::InvalidArguments { name: command_name(category) }
    }
}

/// Reads a command. A prefix of one, or any other text that starts with a
/// slash, is no command: it is left to the agent.
pub fn parse_command(input: &str) -> (r: Option<Command>)
    ensures
        match parsed_command(input@) {
            Some(c) => r matches Some(k) && k@ == c,
            None => r is None,
        },
{
    let t = trim(input);
    if same(t, "/models") || same(t, "/model") {
        return Some(Command::ListConfig(ConfigCategory::Model));
    }
    if same(t, "/agents") || same(t, "/agent") {
        return Some(Command::ListConfig(ConfigCategory::Agent));
    }
    if same(t, "/cancel") {
        return Some(Command::Cancel);
    }
    if same(t, "/cancel-all") {
        return Some(Command::CancelAll);
    }
    if same(t, "/reset") {
        return Some(Command::Reset);
    }
    if same(t, "/usage") {
        return Some(Command::Usage);
    }
    if has_whitespace_suffix(t, "/models") {
        return Some(Command::InvalidArguments { name: CommandName::Models });
    }
    if has_whitespace_suffix(t, "/agents") {
        return Some(Command::InvalidArguments { name: CommandName::Agents });
    }
    if has_whitespace_suffix(t, "/cancel-all") {
        return Some(Command::InvalidArguments { name: CommandName::CancelAll });
    }
    if has_whitespace_suffix(t, "/cancel") {
        return Some(Command::InvalidArguments { name: CommandName::Cancel });
    }
    if has_whitespace_suffix(t, "/reset") {
        return Some(Command::InvalidArguments { name: CommandName::Reset });
    }
    if has_whitespace_suffix(t, "/usage") {
        return Some(Command::InvalidArguments { name: CommandName::Usage });
    }
    if has_whitespace_suffix(t, "/model") {
        return Some(parse_config_compatibility(t, "/model", ConfigCategory::Model));
    }
    if has_whitespace_suffix(t, "/agent") {
        return Some(parse_config_compatibility(t, "/agent", ConfigCategory::Agent));
    }
    None
}

/// Where a command comes from.
#[derive(Debug, PartialEq, Eq)]
pub struct CommandContext {
    pub platform: String,
    pub logical_thread_id: String,
    pub response_is_private: bool,
}

/// What a [`CommandContext`] says.
#[verifier::ext_equal]
pub struct ContextView {
    pub platform: Seq<char>,
    pub logical_thread_id: Seq<char>,
    pub response_is_private: bool,
}

impl View for CommandContext {
    type V = ContextView;

    open spec fn view(&self) -> ContextView {
        ContextView {
            platform: self.platform@,
            logical_thread_id: self.logical_thread_id@,
            response_is_private: self.response_is_private,
        }
    }
}

impl ContextView {
    /// The session that commands of this place are about.
    pub open spec fn session_key(self) -> Seq<char> {
        self.platform + ":"@ + self.logical_thread_id
    }
}

impl CommandContext {
    pub fn new(platform: &str, logical_thread_id: &str, response_is_private: bool) -> (r: Self)
        ensures
            r@ == (ContextView {
                platform: platform@,
                logical_thread_id: logical_thread_id@,
                response_is_private,
            }),
    {
        CommandContext {
            platform: platform.to_owned(),
            logical_thread_id: logical_thread_id.to_owned(),
            response_is_private,
        }
    }

    /// The session that commands of this place are about.
    pub fn session_key(&self) -> (r: String)
        ensures
            r@ == self@.session_key(),
    {
        let mut k = self.platform.clone();
        k.append(":");
        k.append(self.logical_thread_id.as_str());
        k
    }
}

/// Two platforms never share a session: the platform ends at the first colon.
pub proof fn law_session_key_is_namespaced(a: ContextView, b: ContextView)
    requires
        a.platform != b.platform,
        !a.platform.contains(':'),
        !b.platform.contains(':'),
    ensures
        a.session_key() != b.session_key(),
{
    reveal_strlit(":");
    if a.session_key() == b.session_key() {
        let (n, m) = (a.platform.len() as int, b.platform.len() as int);
        assert(a.session_key()[n] == ':');
        assert(b.session_key()[m] == ':');
        if n < m {
            assert(b.session_key()[n] == b.platform[n]);
        } else if m < n {
            assert(a.session_key()[m] == a.platform[m]);
        } else {
            assert forall|i: int| 0 <= i < n implies a.platform[i] == b.platform[i] by {
                assert(a.session_key()[i] == b.session_key()[i]);
            }
            assert(a.platform =~= b.platform);
        }
    }
}

/// Why a command has no result.
#[derive(Clone, Copy, Debug, PartialEq, Eq, Structural)]
pub enum CommandError {
    InvalidArguments(CommandName),
    NoConfigOptions(ConfigCategory),
    InvalidConfigSelection(Option<ConfigCategory>),
    ConfigUpdateUnavailable,
    OperationUnavailable,
    NoActiveSession,
    UsagePrivateOnly,
    UsageUnsupported,
    UsageUnavailable,
}

/// A cap on one kind of usage, with its amount written out.
#[derive(Debug, PartialEq, Eq)]
pub struct UsageLimit {
    pub amount: String,
    pub percentage: u64,
}

/// A charge beyond a cap, with its amount written out.
#[derive(Debug, PartialEq, Eq)]
pub struct Overage {
    pub amount: String,
    pub currency: Option<String>,
}

/// One kind of usage. Amounts are text: how they are rounded is decided where
/// they are read.
#[derive(Debug, PartialEq, Eq)]
pub struct UsageBreakdown {
    pub display_name: String,
    pub used: String,
    pub limit: Option<UsageLimit>,
    pub overage: Option<Overage>,
}

/// What an account has used.
#[derive(Debug, PartialEq, Eq)]
pub struct UsageReport {
    pub plan_name: String,
    pub billing_cycle_reset: Option<String>,
    pub breakdowns: Vec<UsageBreakdown>,
}

/// What a command came to.
#[derive(Debug, PartialEq, Eq)]
pub enum CommandResult {
    ConfigOptions { category: ConfigCategory, options: Vec<ConfigOption> },
    ConfigUpdated { display_name: String },
    Cancel { signalled: bool },
    CancelAll { signalled: bool, buffers_cleared: bool },
    Reset { session_reset: bool, buffers_cleared: bool },
    Usage(UsageReport),
    Error(CommandError),
}

/// The class of a result.
pub open spec fn outcome(r: CommandResult) -> Seq<char> {
    match r {
        CommandResult::ConfigOptions { .. } => "completed"@,
        CommandResult::ConfigUpdated { .. } => "completed"@,
        CommandResult::Usage(_) => "completed"@,
        CommandResult::Cancel { signalled } => if signalled {
            "completed"@
        } else {
            "no_active_session"@
        },
        CommandResult::CancelAll { signalled, buffers_cleared } => if signalled
            || buffers_cleared {
            "completed"@
        } else {
            "no_active_session"@
        },
        CommandResult::Reset { session_reset, buffers_cleared } => if session_reset
            || buffers_cleared {
            "completed"@
        } else {
            "no_active_session"@
        },
        CommandResult::Error(e) => match e {
            CommandError::UsagePrivateOnly => "denied_private_surface"@,
            CommandError::InvalidArguments(_) => "invalid"@,
            CommandError::InvalidConfigSelection(_) => "invalid"@,
            _ => "unavailable"@,
        },
    }
}

impl CommandResult {
    /// The class of the result.
    pub fn outcome_class(&self) -> (r: &'static str)
        ensures
            r@ == outcome(*self),
    {
        match self {
            CommandResult::ConfigOptions { .. } => "completed",
            CommandResult::ConfigUpdated { .. } => "completed",
            CommandResult::Usage(_) => "completed",
            CommandResult::Cancel { signalled } => {
                if *signalled {
                    "completed"
                } else {
                    "no_active_session"
                }
            },
            CommandResult::CancelAll { signalled, buffers_cleared } => {
                if *signalled || *buffers_cleared {
                    "completed"
                } else {
                    "no_active_session"
                }
            },
            CommandResult::Reset { session_reset, buffers_cleared } => {
                if *session_reset || *buffers_cleared {
                    "completed"
                } else {
                    "no_active_session"
                }
            },
            CommandResult::Error(e) => match e {
                CommandError::UsagePrivateOnly => "denied_private_surface",
                CommandError::InvalidArguments(_) => "invalid",
                CommandError::InvalidConfigSelection(_) => "invalid",
                _ => "unavailable",
            },
        }
    }
}

/// The options of one category, under that category's name.
pub open spec fn matching(options: Seq<OptionView>, category: ConfigCategory) -> Seq<OptionView>
    decreases options.len(),
{
    if options.len() == 0 {
        seq![]
    } else {
        let rest = matching(options.drop_last(), category);
        if in_category(category, options.last().category) {
            rest.push(OptionView { category: Some(category_name(category)), ..options.last() })
        } else {
            rest
        }
    }
}

/// The options of one category, under that category's name.
pub fn matching_options(options: &Vec<ConfigOption>, category: ConfigCategory) -> (r: Vec<
    ConfigOption,
>)
    ensures
        r.deep_view() == matching(options.deep_view(), category),
{
    let ghost all = options.deep_view();
    let mut out: Vec<ConfigOption> = Vec::new();
    let mut i: usize = 0;
    assert(out.deep_view() =~= seq![]);
    while i < options.len()
        invariant
            i <= options@.len(),
            all == options.deep_view(),
            out.deep_view() == matching(all.take(i as int), category),
        decreases options@.len() - i,
    {
        let ghost sofar = out.deep_view();
        proof {
            assert(all.take(i + 1).drop_last() =~= all.take(i as int));
            assert(all.take(i + 1).last() == options@[i as int]@);
        }
        if category.matches(&options[i].category) {
            let mut o = options[i].clone();
            o.category = Some(category.as_str().to_owned());
            out.push(o);
            assert(out.deep_view() =~= sofar.push(o@));
        }
        i += 1;
    }
    assert(all.take(i as int) =~= all);
    out
}

/// One choice of a listing.
#[derive(Debug, PartialEq, Eq)]
pub struct PlacedChoice {
    /// The option that it belongs to.
    pub config_id: String,
    pub choice: ConfigOptionValue,
    /// Whether it is that option's current value.
    pub current: bool,
}

/// What a [`PlacedChoice`] says.
#[verifier::ext_equal]
pub struct PlacedView {
    pub config_id: Seq<char>,
    pub choice: ChoiceView,
    pub current: bool,
}

impl View for PlacedChoice {
    type V = PlacedView;

    open spec fn view(&self) -> PlacedView {
        PlacedView {
            config_id: self.config_id@,
            choice: self.choice@,
            current: self.current,
        }
    }
}

impl DeepView for PlacedChoice {
    type V = PlacedView;

    open spec fn deep_view(&self) -> PlacedView {
        self@
    }
}

/// The choices of an option that are its current value (`current`), or those
/// that are not, in order.
pub open spec fn placed(id: Seq<char>, value: Seq<char>, choices: Seq<ChoiceView>, current: bool) -> Seq<
    PlacedView,
>
    decreases choices.len(),
{
    if choices.len() == 0 {
        seq![]
    } else {
        let rest = placed(id, value, choices.drop_last(), current);
        if (choices.last().value == value) == current {
            rest.push(PlacedView { config_id: id, choice: choices.last(), current })
        } else {
            rest
        }
    }
}

/// All choices in the order in which they are shown: option by option, the
/// current value of each first.
pub open spec fn ordered(options: Seq<OptionView>) -> Seq<PlacedView>
    decreases options.len(),
{
    if options.len() == 0 {
        seq![]
    } else {
        let o = options.last();
        ordered(options.drop_last()) + placed(o.id, o.current_value, o.options, true) + placed(
            o.id,
            o.current_value,
            o.options,
            false,
        )
    }
}

fn place(o: &ConfigOption, current: bool, out: &mut Vec<PlacedChoice>)
    ensures
        final(out).deep_view() == old(out).deep_view() + placed(
            o@.id,
            o@.current_value,
            o@.options,
            current,
        ),
{
    let ghost before = out.deep_view();
    let ghost all = o@.options;
    let mut i: usize = 0;
    assert(out.deep_view() =~= before + placed(o@.id, o@.current_value, all.take(0), current));
    while i < o.options.len()
        invariant
            i <= o.options@.len(),
            all == o@.options,
            out.deep_view() == before + placed(
                o@.id,
                o@.current_value,
                all.take(i as int),
                current,
            ),
        decreases o.options@.len() - i,
    {
        let ghost sofar = out.deep_view();
        proof {
            assert(all.take(i + 1).drop_last() =~= all.take(i as int));
            assert(all.take(i + 1).last() == o.options@[i as int]@);
        }
        if same(o.options[i].value.as_str(), o.current_value.as_str()) == current {
            let p = PlacedChoice {
                config_id: o.id.clone(),
                choice: o.options[i].clone(),
                current,
            };
            out.push(p);
            assert(out.deep_view() =~= sofar.push(p@));
        }
        assert(out.deep_view() =~= before + placed(
            o@.id,
            o@.current_value,
            all.take(i + 1),
            current,
        ));
        i += 1;
    }
    assert(all.take(i as int) =~= all);
}

/// All choices in the order in which they are shown: option by option, the
/// current value of each first.
pub fn ordered_choices(options: &Vec<ConfigOption>) -> (r: Vec<PlacedChoice>)
    ensures
        r.deep_view() == ordered(options.deep_view()),
{
    let ghost all = options.deep_view();
    let mut out: Vec<PlacedChoice> = Vec::new();
    let mut i: usize = 0;
    assert(out.deep_view() =~= seq![]);
    while i < options.len()
        invariant
            i <= options@.len(),
            all == options.deep_view(),
            out.deep_view() == ordered(all.take(i as int)),
        decreases options@.len() - i,
    {
        proof {
            assert(all.take(i + 1).drop_last() =~= all.take(i as int));
            assert(all.take(i + 1).last() == options@[i as int]@);
        }
        place(&options[i], true, &mut out);
        place(&options[i], false, &mut out);
        i += 1;
    }
    assert(all.take(i as int) =~= all);
    out
}

/// The value and the name of a choice in lower case.
#[derive(Debug, PartialEq, Eq)]
pub struct FoldedChoice {
    pub value: String,
    pub name: String,
}

/// What a [`FoldedChoice`] says.
#[verifier::ext_equal]
pub struct FoldedView {
    pub value: Seq<char>,
    pub name: Seq<char>,
}

impl View for FoldedChoice {
    type V = FoldedView;

    open spec fn view(&self) -> FoldedView {
        FoldedView { value: self.value@, name: self.name@ }
    }
}

impl DeepView for FoldedChoice {
    type V = FoldedView;

    open spec fn deep_view(&self) -> FoldedView {
        self@
    }
}

/// The position of the first choice whose value or name is `folded`.
pub open spec fn first_folded(fs: Seq<FoldedView>, folded: Seq<char>) -> Option<int>
    decreases fs.len(),
{
    if fs.len() == 0 {
        None
    } else if fs[0].value == folded || fs[0].name == folded {
        Some(0)
    } else {
        match first_folded(fs.skip(1), folded) {
            Some(i) => Some(i + 1),
            None => None,
        }
    }
}

/// The position of the first choice whose value or name is `folded`.
pub fn first_folded_choice(choices: &Vec<FoldedChoice>, folded: &str) -> (r: Option<usize>)
    ensures
        match first_folded(choices.deep_view(), folded@) {
            Some(i) => r matches Some(k) && k == i && k < choices@.len(),
            None => r is None,
        },
{
    let ghost all = choices.deep_view();
    let mut i: usize = 0;
    assert(all.skip(0) =~= all);
    while i < choices.len()
        invariant
            i <= choices@.len(),
            all == choices.deep_view(),
            first_folded(all, folded@) == (match first_folded(all.skip(i as int), folded@) {
                Some(k) => Some(k + i),
                None => None,
            }),
        decreases choices@.len() - i,
    {
        assert(all.skip(i as int)[0] == choices@[i as int]@);
        if same(choices[i].value.as_str(), folded) || same(choices[i].name.as_str(), folded) {
            return Some(i);
        }
        assert(all.skip(i as int).skip(1) =~= all.skip(i + 1));
        i += 1;
    }
    None
}

/// A choice in lower case.
pub open spec fn folded_of(p: PlacedView) -> FoldedView {
    FoldedView { value: lowercase_of(p.choice.value), name: lowercase_of(p.choice.name) }
}

/// All choices in lower case.
pub open spec fn all_folded(ps: Seq<PlacedView>) -> Seq<FoldedView> {
    ps.map_values(|p: PlacedView| folded_of(p))
}

fn fold_choices(choices: &Vec<PlacedChoice>) -> (r: Vec<FoldedChoice>)
    ensures
        r.deep_view() == all_folded(choices.deep_view()),
{
    let ghost all = choices.deep_view();
    let mut out: Vec<FoldedChoice> = Vec::new();
    let mut i: usize = 0;
    while i < choices.len()
        invariant
            i <= choices@.len(),
            all == choices.deep_view(),
            out.deep_view() =~= all_folded(all.take(i as int)),
        decreases choices@.len() - i,
    {
        let ghost sofar = out.deep_view();
        let f = FoldedChoice {
            value: to_lowercase(choices[i].choice.value.as_str()),
            name: to_lowercase(choices[i].choice.name.as_str()),
        };
        out.push(f);
        assert(out.deep_view() =~= sofar.push(folded_of(all[i as int])));
        i += 1;
    }
    assert(all.take(i as int) =~= all);
    out
}

/// The choice at a one-based position.
pub open spec fn numbered(ps: Seq<PlacedView>, selector: Seq<char>) -> Option<PlacedView> {
    match parsed_usize(selector) {
        Some(n) => if 1 <= n <= ps.len() {
            Some(ps[n - 1])
        } else {
            None
        },
        None => None,
    }
}

/// The choice that a selector names: by its number in the listing, or else by
/// its value or name, whatever the case of the letters.
pub open spec fn selected(ps: Seq<PlacedView>, selector: Seq<char>) -> Option<PlacedView> {
    match numbered(ps, selector) {
        Some(p) => Some(p),
        None => match first_folded(all_folded(ps), lowercase_of(selector)) {
            Some(i) => Some(ps[i]),
            None => None,
        },
    }
}

/// The position of the choice at a one-based number.
pub fn numbered_choice(choices: &Vec<PlacedChoice>, selector: &str) -> (r: Option<usize>)
    ensures
        match numbered(choices.deep_view(), selector@) {
            Some(p) => r matches Some(i) && i < choices@.len() && choices@[i as int]@ == p,
            None => r is None,
        },
{
    assert(choices.deep_view().len() == choices@.len());
    match parse_usize(selector) {
        Some(n) => {
            if 1 <= n && n <= choices.len() {
                Some(n - 1)
            } else {
                None
            }
        },
        None => None,
    }
}

fn select(choices: &Vec<PlacedChoice>, selector: &str) -> (r: Option<usize>)
    ensures
        match selected(choices.deep_view(), selector@) {
            Some(p) => r matches Some(i) && i < choices@.len() && choices@[i as int]@ == p,
            None => r is None,
        },
{
    match numbered_choice(choices, selector) {
        Some(i) => {
            return Some(i);
        },
        None => {},
    }
    let folded = fold_choices(choices);
    let key = to_lowercase(selector);
    assert(folded.deep_view().len() == folded@.len());
    assert(choices.deep_view().len() == choices@.len());
    first_folded_choice(&folded, key.as_str())
}

/// The first choice of this value.
pub open spec fn choice_of(choices: Seq<ChoiceView>, value: Seq<char>) -> Option<ChoiceView>
    decreases choices.len(),
{
    if choices.len() == 0 {
        None
    } else if choices[0].value == value {
        Some(choices[0])
    } else {
        choice_of(choices.skip(1), value)
    }
}

/// The name of a value of an option, if the option is one of those that
/// commands may set and offers the value.
pub open spec fn offered_by(o: OptionView, config_id: Seq<char>, value: Seq<char>) -> Option<
    Seq<char>,
> {
    if o.id == config_id && (in_category(ConfigCategory::Model, o.category) || in_category(
        ConfigCategory::Agent,
        o.category,
    )) {
        match choice_of(o.options, value) {
            Some(c) => Some(c.name),
            None => None,
        }
    } else {
        None
    }
}

/// The name under which the first option that offers a value offers it.
pub open spec fn offered(options: Seq<OptionView>, config_id: Seq<char>, value: Seq<char>) -> Option<
    Seq<char>,
>
    decreases options.len(),
{
    if options.len() == 0 {
        None
    } else {
        match offered_by(options[0], config_id, value) {
            Some(n) => Some(n),
            None => offered(options.skip(1), config_id, value),
        }
    }
}

fn find_choice(choices: &Vec<ConfigOptionValue>, value: &str) -> (r: Option<usize>)
    ensures
        match choice_of(choices.deep_view(), value@) {
            Some(c) => r matches Some(i) && i < choices@.len() && choices@[i as int]@ == c,
            None => r is None,
        },
{
    let ghost all = choices.deep_view();
    let mut i: usize = 0;
    assert(all.skip(0) =~= all);
    while i < choices.len()
        invariant
            i <= choices@.len(),
            all == choices.deep_view(),
            choice_of(all, value@) == choice_of(all.skip(i as int), value@),
        decreases choices@.len() - i,
    {
        assert(all.skip(i as int)[0] == choices@[i as int]@);
        if same(choices[i].value.as_str(), value) {
            return Some(i);
        }
        assert(all.skip(i as int).skip(1) =~= all.skip(i + 1));
        i += 1;
    }
    None
}

/// The name under which a value is offered, if it is.
pub fn offered_name(options: &Vec<ConfigOption>, config_id: &str, value: &str) -> (r: Option<
    String,
>)
    ensures
        r.deep_view() == offered(options.deep_view(), config_id@, value@),
{
    let ghost all = options.deep_view();
    let mut i: usize = 0;
    assert(all.skip(0) =~= all);
    while i < options.len()
        invariant
            i <= options@.len(),
            all == options.deep_view(),
            offered(all, config_id@, value@) == offered(all.skip(i as int), config_id@, value@),
        decreases options@.len() - i,
    {
        let o = &options[i];
        assert(all.skip(i as int)[0] == o@);
        if same(o.id.as_str(), config_id) && (ConfigCategory::Model.matches(&o.category)
            || ConfigCategory::Agent.matches(&o.category)) {
            match find_choice(&o.options, value) {
                Some(k) => {
                    return Some(o.options[k].name.clone());
                },
                None => {},
            }
        }
        assert(all.skip(i as int).skip(1) =~= all.skip(i + 1));
        i += 1;
    }
    None
}

/// Why there is no usage report.
#[derive(Clone, Copy, Debug, PartialEq, Eq, Structural)]
pub enum UsageFailure {
    Unsupported,
    Unavailable,
}

/// What a failed usage query means, by its message.
pub fn usage_failure(message: &str) -> (r: UsageFailure)
    ensures
        r == (if holds(message@, "usage query is not supported"@) {
            UsageFailure::Unsupported
        } else {
            UsageFailure::Unavailable
        }),
{
    if contains(message, "usage query is not supported") {
        UsageFailure::Unsupported
    } else {
        UsageFailure::Unavailable
    }
}

/// The operation that a command needs next.
#[derive(Debug, PartialEq, Eq)]
pub enum CommandAction {
    /// Read the session's options.
    GetConfigOptions { session_key: String },
    /// Set one of them.
    SetConfigOption { session_key: String, config_id: String, value: String },
    /// Cancel the session's turn.
    CancelSession { session_key: String },
    /// Reset the session.
    ResetSession { session_key: String },
    /// Drop the messages that wait for this thread.
    ClearBufferedThread { platform: String, logical_thread_id: String },
    /// See whether the session is live.
    HasLiveSession { session_key: String },
    /// Query the account's usage.
    GetUsage { session_key: String },
    /// Nothing more: the result.
    Finished(CommandResult),
}

/// What came of an operation.
pub enum CommandEvent {
    ConfigOptions(Vec<ConfigOption>),
    /// Whether the option was set.
    ConfigSet(bool),
    /// Whether a turn was signalled.
    Cancelled(bool),
    /// Whether the session was reset.
    WasReset(bool),
    /// How many messages were dropped.
    Cleared(usize),
    /// Whether the session is live.
    Live(bool),
    Usage(Result<UsageReport, UsageFailure>),
    /// The time for the command is over.
    TimedOut,
}

/// How far a command has come.
#[derive(Debug, PartialEq, Eq)]
pub enum CommandStage {
    Idle,
    Listing { category: ConfigCategory },
    Selecting { category: ConfigCategory, selector: String },
    Choosing { config_id: String, value: String },
    Setting { display_name: String },
    Cancelling,
    ClearingToCancel,
    CancellingAll { buffers_cleared: bool },
    ClearingToReset,
    Resetting { buffers_cleared: bool },
    Probing,
    Querying,
}

/// Carries out the commands of one place.
pub struct CommandService {
    pub context: CommandContext,
    pub stage: CommandStage,
}

/// Ends the command with an error.
pub open spec fn ends(s: CommandService, a: CommandAction, e: CommandError) -> bool {
    s.stage is Idle && a == CommandAction::Finished(CommandResult::Error(e))
}

/// The action reads the options of the session.
pub open spec fn reads_options(a: CommandAction, key: Seq<char>) -> bool {
    a matches CommandAction::GetConfigOptions { session_key } && session_key@ == key
}

/// The action sets one option of the session.
pub open spec fn sets_option(
    a: CommandAction,
    key: Seq<char>,
    id: Seq<char>,
    v: Seq<char>,
) -> bool {
    a matches CommandAction::SetConfigOption { session_key, config_id, value } && session_key@
        == key && config_id@ == id && value@ == v
}

/// The action drops the messages that wait for the place.
pub open spec fn clears_buffers(a: CommandAction, c: ContextView) -> bool {
    a matches CommandAction::ClearBufferedThread { platform, logical_thread_id } && platform@
        == c.platform && logical_thread_id@ == c.logical_thread_id
}

/// How a command starts.
pub open spec fn started(
    c: ContextView,
    command: CommandView,
    s: CommandService,
    a: CommandAction,
) -> bool {
    let key = c.session_key();
    match command {
        CommandView::ListConfig(category) => {
            &&& reads_options(a, key)
            &&& s.stage == (CommandStage::Listing { category })
        },
        CommandView::SetConfig { category, selector } => {
            &&& reads_options(a, key)
            &&& s.stage matches CommandStage::Selecting { category: k, selector: t } && k
                == category && t@ == selector
        },
        CommandView::Cancel => {
            &&& a matches CommandAction::CancelSession { session_key } && session_key@ == key
            &&& s.stage is Cancelling
        },
        CommandView::CancelAll => clears_buffers(a, c) && s.stage is ClearingToCancel,
        CommandView::Reset => clears_buffers(a, c) && s.stage is ClearingToReset,
        CommandView::Usage => if c.response_is_private {
            &&& a matches CommandAction::HasLiveSession { session_key } && session_key@ == key
            &&& s.stage is Probing
        } else {
            ends(s, a, CommandError::UsagePrivateOnly)
        },
        CommandView::InvalidArguments { name } => ends(
            s,
            a,
            CommandError::InvalidArguments(name),
        ),
    }
}

/// How a command goes on.
pub open spec fn advanced(
    c: ContextView,
    stage: CommandStage,
    event: CommandEvent,
    s: CommandService,
    a: CommandAction,
) -> bool {
    let key = c.session_key();
    match (stage, event) {
        (CommandStage::Listing { category }, CommandEvent::ConfigOptions(options)) => {
            let found = matching(options.deep_view(), category);
            if found.len() == 0 {
                ends(s, a, CommandError::NoConfigOptions(category))
            } else {
                &&& s.stage is Idle
                &&& a matches CommandAction::Finished(
                    CommandResult::ConfigOptions { category: k, options: o },
                ) && k == category && o.deep_view() == found
            }
        },
        (CommandStage::Selecting { category, selector }, CommandEvent::ConfigOptions(options)) => {
            let found = matching(options.deep_view(), category);
            if found.len() == 0 {
                ends(s, a, CommandError::NoConfigOptions(category))
            } else {
                match selected(ordered(found), selector@) {
                    None => ends(s, a, CommandError::InvalidConfigSelection(Some(category))),
                    Some(p) => {
                        &&& sets_option(a, key, p.config_id, p.choice.value)
                        &&& s.stage matches CommandStage::Setting { display_name }
                            && display_name@ == p.choice.name
                    },
                }
            }
        },
        (CommandStage::Choosing { config_id, value }, CommandEvent::ConfigOptions(options)) => {
            match offered(options.deep_view(), config_id@, value@) {
                None => ends(s, a, CommandError::InvalidConfigSelection(None)),
                Some(name) => {
                    &&& sets_option(a, key, config_id@, value@)
                    &&& s.stage matches CommandStage::Setting { display_name } && display_name@
                        == name
                },
            }
        },
        (CommandStage::Setting { display_name }, CommandEvent::ConfigSet(done)) => if done {
            s.stage is Idle && a == CommandAction::Finished(
                CommandResult::ConfigUpdated { display_name },
            )
        } else {
            ends(s, a, CommandError::ConfigUpdateUnavailable)
        },
        (CommandStage::Cancelling, CommandEvent::Cancelled(signalled)) => s.stage is Idle && a
            == CommandAction::Finished(CommandResult::Cancel { signalled }),
        (CommandStage::ClearingToCancel, CommandEvent::Cleared(n)) => {
            &&& a matches CommandAction::CancelSession { session_key } && session_key@ == key
            &&& s.stage == (CommandStage::CancellingAll { buffers_cleared: n > 0 })
        },
        (
            CommandStage::CancellingAll { buffers_cleared },
            CommandEvent::Cancelled(signalled),
        ) => s.stage is Idle && a == CommandAction::Finished(
            CommandResult::CancelAll { signalled, buffers_cleared },
        ),
        (CommandStage::ClearingToReset, CommandEvent::Cleared(n)) => {
            &&& a matches CommandAction::ResetSession { session_key } && session_key@ == key
            &&& s.stage == (CommandStage::Resetting { buffers_cleared: n > 0 })
        },
        (CommandStage::Resetting { buffers_cleared }, CommandEvent::WasReset(session_reset)) =>
        s.stage is Idle && a == CommandAction::Finished(
            CommandResult::Reset { session_reset, buffers_cleared },
        ),
        (CommandStage::Probing, CommandEvent::Live(live)) => if live {
            &&& a matches CommandAction::GetUsage { session_key } && session_key@ == key
            &&& s.stage is Querying
        } else {
            ends(s, a, CommandError::NoActiveSession)
        },
        (CommandStage::Querying, CommandEvent::Usage(u)) => match u {
            Ok(report) => s.stage is Idle && a == CommandAction::Finished(
                CommandResult::Usage(report),
            ),
            Err(UsageFailure::Unsupported) => ends(s, a, CommandError::UsageUnsupported),
            Err(UsageFailure::Unavailable) => ends(s, a, CommandError::UsageUnavailable),
        },
        _ => ends(s, a, CommandError::OperationUnavailable),
    }
}

impl CommandService {
    /// No command yet.
    pub fn new(context: CommandContext) -> (r: Self)
        ensures
            r.context == context,
            r.stage is Idle,
    {
        CommandService { context, stage: CommandStage::Idle }
    }

    fn fail(&mut self, e: CommandError) -> (r: CommandAction)
        ensures
            final(self).context == old(self).context,
            ends(*final(self), r, e),
    {
        self.stage = CommandStage::Idle;
        CommandAction::Finished(CommandResult::Error(e))
    }

    fn finish(&mut self, result: CommandResult) -> (r: CommandAction)
        ensures
            final(self).context == old(self).context,
            final(self).stage is Idle,
            r == CommandAction::Finished(result),
    {
        self.stage = CommandStage::Idle;
        CommandAction::Finished(result)
    }

    /// Starts a command.
    pub fn execute(&mut self, command: Command) -> (r: CommandAction)
        ensures
            final(self).context == old(self).context,
            started(old(self).context@, command@, *final(self), r),
    {
        let session_key = self.context.session_key();
        match command {
            Command::ListConfig(category) => {
                self.stage = CommandStage::Listing { category };
                CommandAction::GetConfigOptions { session_key }
            },
            Command::SetConfig { category, selector } => {
                self.stage = CommandStage::Selecting { category, selector };
                CommandAction::GetConfigOptions { session_key }
            },
            Command::Cancel => {
                self.stage = CommandStage::Cancelling;
                CommandAction::CancelSession { session_key }
            },
            Command::CancelAll => {
                self.stage = CommandStage::ClearingToCancel;
                CommandAction::ClearBufferedThread {
                    platform: self.context.platform.clone(),
                    logical_thread_id: self.context.logical_thread_id.clone(),
                }
            },
            Command::Reset => {
                self.stage = CommandStage::ClearingToReset;
                CommandAction::ClearBufferedThread {
                    platform: self.context.platform.clone(),
                    logical_thread_id: self.context.logical_thread_id.clone(),
                }
            },
            Command::Usage => {
                if !self.context.response_is_private {
                    return self.fail(CommandError::UsagePrivateOnly);
                }
                self.stage = CommandStage::Probing;
                CommandAction::HasLiveSession { session_key }
            },
            Command::InvalidArguments { name } => self.fail(CommandError::InvalidArguments(name)),
        }
    }

    /// Starts setting an option to a value that was picked from a listing.
    pub fn set_config_value(&mut self, config_id: &str, value: &str) -> (r: CommandAction)
        ensures
            final(self).context == old(self).context,
            reads_options(r, old(self).context@.session_key()),
            final(self).stage matches CommandStage::Choosing { config_id: c, value: v } && c@
                == config_id@ && v@ == value@,
    {
        let session_key = self.context.session_key();
        self.stage = CommandStage::Choosing {
            config_id: config_id.to_owned(),
            value: value.to_owned(),
        };
        CommandAction::GetConfigOptions { session_key }
    }

    fn take_stage(&mut self) -> (r: CommandStage)
        ensures
            r == old(self).stage,
            final(self).stage is Idle,
            final(self).context == old(self).context,
    {
        let mut stage = CommandStage::Idle;
        std::mem::swap(&mut stage, &mut self.stage);
        stage
    }

    /// Takes what came of the operation that was asked for. Anything else, and
    /// the end of the command's time, ends the command.
    pub fn advance(&mut self, event: CommandEvent) -> (r: CommandAction)
        ensures
            final(self).context == old(self).context,
            advanced(old(self).context@, old(self).stage, event, *final(self), r),
    {
        let session_key = self.context.session_key();
        let stage = self.take_stage();
        match (stage, event) {
            (CommandStage::Listing { category }, CommandEvent::ConfigOptions(options)) => {
                let found = matching_options(&options, category);
                assert(found.deep_view().len() == found@.len());
                if found.len() == 0 {
                    return self.fail(CommandError::NoConfigOptions(category));
                }
                self.finish(CommandResult::ConfigOptions { category, options: found })
            },
            (
                CommandStage::Selecting { category, selector },
                CommandEvent::ConfigOptions(options),
            ) => {
                let found = matching_options(&options, category);
                assert(found.deep_view().len() == found@.len());
                if found.len() == 0 {
                    return self.fail(CommandError::NoConfigOptions(category));
                }
                let choices = ordered_choices(&found);
                match select(&choices, selector.as_str()) {
                    Some(i) => {
                        let p = &choices[i];
                        self.stage = CommandStage::Setting { display_name: p.choice.name.clone() };
                        CommandAction::SetConfigOption {
                            session_key,
                            config_id: p.config_id.clone(),
                            value: p.choice.value.clone(),
                        }
                    },
                    None => self.fail(CommandError::InvalidConfigSelection(Some(category))),
                }
            },
            (CommandStage::Choosing { config_id, value }, CommandEvent::ConfigOptions(options)) => {
                match offered_name(&options, config_id.as_str(), value.as_str()) {
                    Some(display_name) => {
                        self.stage = CommandStage::Setting { display_name };
                        CommandAction::SetConfigOption { session_key, config_id, value }
                    },
                    None => self.fail(CommandError::InvalidConfigSelection(None)),
                }
            },
            (CommandStage::Setting { display_name }, CommandEvent::ConfigSet(done)) => {
                if done {
                    self.finish(CommandResult::ConfigUpdated { display_name })
                } else {
                    self.fail(CommandError::ConfigUpdateUnavailable)
                }
            },
            (CommandStage::Cancelling, CommandEvent::Cancelled(signalled)) => self.finish(
                CommandResult::Cancel { signalled },
            ),
            (CommandStage::ClearingToCancel, CommandEvent::Cleared(n)) => {
                self.stage = CommandStage::CancellingAll { buffers_cleared: n > 0 };
                CommandAction::CancelSession { session_key }
            },
            (
                CommandStage::CancellingAll { buffers_cleared },
                CommandEvent::Cancelled(signalled),
            ) => self.finish(CommandResult::CancelAll { signalled, buffers_cleared }),
            (CommandStage::ClearingToReset, CommandEvent::Cleared(n)) => {
                self.stage = CommandStage::Resetting { buffers_cleared: n > 0 };
                CommandAction::ResetSession { session_key }
            },
            (
                CommandStage::Resetting { buffers_cleared },
                CommandEvent::WasReset(session_reset),
            ) => self.finish(CommandResult::Reset { session_reset, buffers_cleared }),
            (CommandStage::Probing, CommandEvent::Live(live)) => {
                if live {
                    self.stage = CommandStage::Querying;
                    CommandAction::GetUsage { session_key }
                } else {
                    self.fail(CommandError::NoActiveSession)
                }
            },
            (CommandStage::Querying, CommandEvent::Usage(u)) => match u {
                Ok(report) => self.finish(CommandResult::Usage(report)),
                Err(UsageFailure::Unsupported) => self.fail(CommandError::UsageUnsupported),
                Err(UsageFailure::Unavailable) => self.fail(CommandError::UsageUnavailable),
            },
            _ => self.fail(CommandError::OperationUnavailable),
        }
    }
}

/// A text of at most `max` characters: the whole of it, or its start and an
/// ellipsis.
pub open spec fn truncated(s: Seq<char>, max: int) -> Seq<char> {
    if s.len() <= max {
        s
    } else if max <= 0 {
        seq![]
    } else {
        s.take(max - 1).push('…')
    }
}

/// A text of at most `max` characters: the whole of it, or its start and an
/// ellipsis.
pub fn truncate_chars(input: &str, max: usize) -> (r: String)
    ensures
        r@ == truncated(input@, max as int),
{
    let cs = chars_of(input);
    if cs.len() <= max {
        input.to_owned()
    } else if max == 0 {
        String::new()
    } else {
        let mut out = string_of(&cs, 0, max - 1);
        assert(out@ =~= input@.take(max - 1));
        out.push('…');
        out
    }
}

fn push_line(lines: &mut Vec<String>, line: String)
    ensures
        final(lines).deep_view() == old(lines).deep_view().push(line@),
{
    let ghost before = lines.deep_view();
    lines.push(line);
    assert(lines.deep_view() =~= before.push(line@));
}

/// One line of a listing.
pub open spec fn choice_line(i: int, p: PlacedView) -> Seq<char> {
    "  "@ + decimal((i + 1) as nat) + ". "@ + truncated(
        p.choice.name,
        TEXT_VALUE_CHAR_LIMIT as int,
    ) + if p.current {
        " ✅"@
    } else {
        ""@
    }
}

/// The lines of the first `n` choices.
pub open spec fn choice_lines(ps: Seq<PlacedView>, n: int) -> Seq<Seq<char>> {
    Seq::new(n as nat, |i: int| choice_line(i, ps[i]))
}

/// How many choices a listing shows.
pub open spec fn shown(ps: Seq<PlacedView>) -> int {
    if ps.len() <= TEXT_OPTION_LIMIT {
        ps.len() as int
    } else {
        TEXT_OPTION_LIMIT as int
    }
}

/// A listing: at most so many choices, and how many are left out.
pub open spec fn listing(category: ConfigCategory, ps: Seq<PlacedView>) -> Seq<char> {
    joined(listing_lines(category, ps), "\n"@)
}

/// The lines of a listing.
pub open spec fn listing_lines(category: ConfigCategory, ps: Seq<PlacedView>) -> Seq<Seq<char>> {
    let name = category_name(category);
    let omitted = ps.len() - shown(ps);
    (seq!["🔧 Available "@ + name + "s:"@] + choice_lines(ps, shown(ps)) + if omitted > 0 {
        seq!["… "@ + decimal(omitted as nat) + " more option(s) omitted."@]
    } else {
        seq![]
    }).push("\nUsage: /"@ + name + " set <number or exact name>"@)
}

fn render_options(category: ConfigCategory, options: &Vec<ConfigOption>) -> (r: String)
    ensures
        r@ == listing(category, ordered(options.deep_view())),
{
    let choices = ordered_choices(options);
    let ghost ps = choices.deep_view();
    assert(ps.len() == choices@.len());
    let limit: usize = if choices.len() <= TEXT_OPTION_LIMIT {
        choices.len()
    } else {
        TEXT_OPTION_LIMIT
    };
    let name = category.as_str();
    let mut lines: Vec<String> = Vec::new();
    assert(lines.deep_view() =~= seq![]);
    let mut head = "🔧 Available ".to_owned();
    head.append(name);
    head.append("s:");
    let ghost first = head@;
    push_line(&mut lines, head);
    let mut i: usize = 0;
    assert(lines.deep_view() =~= seq![first] + choice_lines(ps, 0));
    while i < limit
        invariant
            i <= limit <= choices@.len(),
            limit <= TEXT_OPTION_LIMIT,
            ps == choices.deep_view(),
            lines.deep_view() == seq![first] + choice_lines(ps, i as int),
        decreases limit - i,
    {
        let p = &choices[i];
        let number = decimal_text(i as u64 + 1);
        let text = truncate_chars(p.choice.name.as_str(), TEXT_VALUE_CHAR_LIMIT);
        let mut line = "  ".to_owned();
        line.append(number.as_str());
        line.append(". ");
        line.append(text.as_str());
        if p.current {
            line.append(" ✅");
        } else {
            line.append("");
        }
        assert(line@ == choice_line(i as int, ps[i as int]));
        push_line(&mut lines, line);
        assert(choice_lines(ps, i + 1) =~= choice_lines(ps, i as int).push(
            choice_line(i as int, ps[i as int]),
        ));
        assert(lines.deep_view() =~= seq![first] + choice_lines(ps, i + 1));
        i += 1;
    }
    let ghost sofar = lines.deep_view();
    assert(sofar + seq![] =~= sofar);
    if choices.len() > limit {
        let omitted: usize = choices.len() - limit;
        let number = decimal_text(omitted as u64);
        let mut line = "… ".to_owned();
        line.append(number.as_str());
        line.append(" more option(s) omitted.");
        let ghost l = line@;
        push_line(&mut lines, line);
        assert(lines.deep_view() =~= sofar + seq![l]);
    }
    let mut usage = "\nUsage: /".to_owned();
    usage.append(name);
    usage.append(" set <number or exact name>");
    push_line(&mut lines, usage);
    let r = join(&lines, 0, "\n");
    assert(lines.deep_view().skip(0) =~= lines.deep_view());
    r
}

/// A bar of ten cells for a percentage.
pub open spec fn bar(percentage: u64) -> Seq<char> {
    let filled = if percentage <= 100 {
        percentage as int / 10
    } else {
        10
    };
    Seq::new(filled as nat, |i: int| '█') + Seq::new((10 - filled) as nat, |i: int| '░')
}

/// A bar of ten cells for a percentage.
pub fn usage_bar(percentage: u64) -> (r: String)
    ensures
        r@ == bar(percentage),
{
    let filled: u64 = if percentage <= 100 {
        percentage / 10
    } else {
        10
    };
    let mut out = String::new();
    let mut i: u64 = 0;
    assert(out@ =~= Seq::new(0, |i: int| '█'));
    while i < filled
        invariant
            i <= filled <= 10,
            out@ == Seq::new(i as nat, |i: int| '█'),
        decreases filled - i,
    {
        out.push('█');
        assert(out@ =~= Seq::new((i + 1) as nat, |i: int| '█'));
        i += 1;
    }
    let mut j: u64 = 0;
    let ghost done = out@;
    assert(out@ =~= done + Seq::new(0, |i: int| '░'));
    while j < 10 - filled
        invariant
            j <= 10 - filled,
            filled <= 10,
            out@ == done + Seq::new(j as nat, |i: int| '░'),
        decreases 10 - filled - j,
    {
        out.push('░');
        assert(out@ =~= done + Seq::new((j + 1) as nat, |i: int| '░'));
        j += 1;
    }
    out
}

/// A value inside a response.
pub open spec fn shortened(s: Seq<char>) -> Seq<char> {
    truncated(s, TEXT_VALUE_CHAR_LIMIT as int)
}

/// The line on one kind of usage.
pub open spec fn breakdown_line(b: UsageBreakdown) -> Seq<char> {
    match b.limit {
        Some(l) => shortened(b.display_name@) + ": "@ + b.used@ + " / "@ + l.amount@ + " `"@ + bar(
            l.percentage,
        ) + "` "@ + decimal(l.percentage as nat) + "%"@ + if l.percentage > 100 {
            " ⚠️"@
        } else {
            ""@
        },
        None => shortened(b.display_name@) + ": "@ + b.used@ + " used"@,
    }
}

/// The lines on one kind of usage.
pub open spec fn breakdown_lines(b: UsageBreakdown) -> Seq<Seq<char>> {
    match b.overage {
        Some(o) => seq![
            breakdown_line(b),
            "Overage charges: "@ + o.amount@ + " "@ + shortened(
                match o.currency {
                    Some(c) => c@,
                    None => "USD"@,
                },
            ),
        ],
        None => seq![breakdown_line(b)],
    }
}

/// The lines on all kinds of usage.
pub open spec fn usage_lines(bs: Seq<UsageBreakdown>) -> Seq<Seq<char>>
    decreases bs.len(),
{
    if bs.len() == 0 {
        seq![]
    } else {
        usage_lines(bs.drop_last()) + breakdown_lines(bs.last())
    }
}

/// A usage report as text.
pub open spec fn usage_text(u: UsageReport) -> Seq<char> {
    joined(report_lines(u), "\n"@)
}

/// The lines of a usage report.
pub open spec fn report_lines(u: UsageReport) -> Seq<Seq<char>> {
    seq!["📊 **Usage — "@ + shortened(u.plan_name@) + "**"@] + usage_lines(u.breakdowns@)
        + match u.billing_cycle_reset {
        Some(reset) => seq!["Billing cycle resets "@ + shortened(reset@)],
        None => seq![],
    }
}

fn render_breakdown(b: &UsageBreakdown, lines: &mut Vec<String>)
    ensures
        final(lines).deep_view() == old(lines).deep_view() + breakdown_lines(*b),
{
    let ghost before = lines.deep_view();
    let mut line = truncate_chars(b.display_name.as_str(), TEXT_VALUE_CHAR_LIMIT);
    line.append(": ");
    line.append(b.used.as_str());
    match &b.limit {
        Some(l) => {
            let cells = usage_bar(l.percentage);
            let number = decimal_text(l.percentage);
            line.append(" / ");
            line.append(l.amount.as_str());
            line.append(" `");
            line.append(cells.as_str());
            line.append("` ");
            line.append(number.as_str());
            line.append("%");
            if l.percentage > 100 {
                line.append(" ⚠️");
            } else {
                line.append("");
            }
        },
        None => {
            line.append(" used");
        },
    }
    assert(line@ == breakdown_line(*b));
    push_line(lines, line);
    match &b.overage {
        Some(o) => {
            let currency = match &o.currency {
                Some(c) => truncate_chars(c.as_str(), TEXT_VALUE_CHAR_LIMIT),
                None => truncate_chars("USD", TEXT_VALUE_CHAR_LIMIT),
            };
            let mut charges = "Overage charges: ".to_owned();
            charges.append(o.amount.as_str());
            charges.append(" ");
            charges.append(currency.as_str());
            push_line(lines, charges);
        },
        None => {},
    }
    assert(lines.deep_view() =~= before + breakdown_lines(*b));
}

/// A usage report as text.
pub fn render_usage(report: &UsageReport) -> (r: String)
    ensures
        r@ == usage_text(*report),
{
    let mut lines: Vec<String> = Vec::new();
    assert(lines.deep_view() =~= seq![]);
    let plan = truncate_chars(report.plan_name.as_str(), TEXT_VALUE_CHAR_LIMIT);
    let mut head = "📊 **Usage — ".to_owned();
    head.append(plan.as_str());
    head.append("**");
    let ghost first = head@;
    push_line(&mut lines, head);
    let ghost all = report.breakdowns@;
    let mut i: usize = 0;
    assert(lines.deep_view() =~= seq![first] + usage_lines(all.take(0)));
    while i < report.breakdowns.len()
        invariant
            i <= report.breakdowns@.len(),
            all == report.breakdowns@,
            lines.deep_view() == seq![first] + usage_lines(all.take(i as int)),
        decreases report.breakdowns@.len() - i,
    {
        proof {
            assert(all.take(i + 1).drop_last() =~= all.take(i as int));
            assert(all.take(i + 1).last() == all[i as int]);
        }
        render_breakdown(&report.breakdowns[i], &mut lines);
        assert(lines.deep_view() =~= seq![first] + usage_lines(all.take(i + 1)));
        i += 1;
    }
    assert(all.take(i as int) =~= all);
    let ghost sofar = lines.deep_view();
    match &report.billing_cycle_reset {
        Some(reset) => {
            let when = truncate_chars(reset.as_str(), TEXT_VALUE_CHAR_LIMIT);
            let mut line = "Billing cycle resets ".to_owned();
            line.append(when.as_str());
            let ghost l = line@;
            push_line(&mut lines, line);
            assert(lines.deep_view() =~= sofar + seq![l]);
        },
        None => {
            assert(sofar + seq![] =~= sofar);
        },
    }
    let r = join(&lines, 0, "\n");
    assert(lines.deep_view().skip(0) =~= lines.deep_view());
    r
}

/// How a command is used.
pub open spec fn usage_hint(n: CommandName) -> Seq<char> {
    match n {
        CommandName::Models =>
            "/models or /model list | /model set <number or exact name>"@,
        CommandName::Agents =>
            "/agents or /agent list | /agent set <number or exact name>"@,
        CommandName::Cancel => "/cancel"@,
        CommandName::CancelAll => "/cancel-all"@,
        CommandName::Reset => "/reset"@,
        CommandName::Usage => "/usage"@,
    }
}

/// An error as text.
pub open spec fn error_text(e: CommandError) -> Seq<char> {
    match e {
        CommandError::InvalidArguments(n) => "⚠️ Invalid arguments. Usage: "@ + usage_hint(n),
        CommandError::NoConfigOptions(c) => "⚠️ No "@ + category_name(c)
            + " options available. Start a conversation first."@,
        CommandError::InvalidConfigSelection(Some(c)) => "⚠️ No matching "@ + category_name(c)
            + ". Use /"@ + category_name(c) + " list to see options."@,
        CommandError::InvalidConfigSelection(None) =>
            "⚠️ That configuration selection is no longer available."@,
        CommandError::ConfigUpdateUnavailable =>
            "❌ The configuration change could not be completed."@,
        CommandError::OperationUnavailable => "⚠️ The command could not be completed."@,
        CommandError::NoActiveSession => "⚠️ No active session. Start a conversation first."@,
        CommandError::UsagePrivateOnly => "🔒 `/usage` is only available in a private chat."@,
        CommandError::UsageUnsupported =>
            "⚠️ Usage reporting is not supported by this backend."@,
        CommandError::UsageUnavailable => "⚠️ Usage information is temporarily unavailable."@,
    }
}

/// An error as text.
pub fn render_error(error: CommandError) -> (r: String)
    ensures
        r@ == error_text(error),
{
    match error {
        CommandError::InvalidArguments(name) => {
            let mut t = "⚠️ Invalid arguments. Usage: ".to_owned();
            match name {
                CommandName::Models => t.append(
                    "/models or /model list | /model set <number or exact name>",
                ),
                CommandName::Agents => t.append(
                    "/agents or /agent list | /agent set <number or exact name>",
                ),
                CommandName::Cancel => t.append("/cancel"),
                CommandName::CancelAll => t.append("/cancel-all"),
                CommandName::Reset => t.append("/reset"),
                CommandName::Usage => t.append("/usage"),
            }
            t
        },
        CommandError::NoConfigOptions(category) => {
            let mut t = "⚠️ No ".to_owned();
            t.append(category.as_str());
            t.append(" options available. Start a conversation first.");
            t
        },
        CommandError::InvalidConfigSelection(Some(category)) => {
            let mut t = "⚠️ No matching ".to_owned();
            t.append(category.as_str());
            t.append(". Use /");
            t.append(category.as_str());
            t.append(" list to see options.");
            t
        },
        CommandError::InvalidConfigSelection(None) =>
            "⚠️ That configuration selection is no longer available.".to_owned(),
        CommandError::ConfigUpdateUnavailable =>
            "❌ The configuration change could not be completed.".to_owned(),
        CommandError::OperationUnavailable => "⚠️ The command could not be completed.".to_owned(),
        CommandError::NoActiveSession =>
            "⚠️ No active session. Start a conversation first.".to_owned(),
        CommandError::UsagePrivateOnly =>
            "🔒 `/usage` is only available in a private chat.".to_owned(),
        CommandError::UsageUnsupported =>
            "⚠️ Usage reporting is not supported by this backend.".to_owned(),
        CommandError::UsageUnavailable =>
            "⚠️ Usage information is temporarily unavailable.".to_owned(),
    }
}

/// A result as text, before it is cut.
pub open spec fn result_text(r: CommandResult) -> Seq<char> {
    match r {
        CommandResult::ConfigOptions { category, options } => listing(
            category,
            ordered(options.deep_view()),
        ),
        CommandResult::ConfigUpdated { display_name } => "✅ Switched to **"@ + shortened(
            display_name@,
        ) + "**"@,
        CommandResult::Cancel { signalled: true } => "🛑 Cancel signal sent."@,
        CommandResult::Cancel { signalled: false } =>
            "⚠️ Nothing to cancel — no active session."@,
        CommandResult::CancelAll { signalled: true, buffers_cleared: true } =>
            "🛑 Cancel signal sent. Buffered messages cleared."@,
        CommandResult::CancelAll { signalled: true, buffers_cleared: false } =>
            "🛑 Cancel signal sent."@,
        CommandResult::CancelAll { signalled: false, buffers_cleared: true } =>
            "🛑 Buffered messages cleared. No active session to cancel."@,
        CommandResult::CancelAll { signalled: false, buffers_cleared: false } =>
            "⚠️ Nothing to cancel — no active session and no buffered messages."@,
        CommandResult::Reset { session_reset: true, buffers_cleared: true } =>
            "🔄 Session reset. Buffered messages cleared. Start a new conversation!"@,
        CommandResult::Reset { session_reset: true, buffers_cleared: false } =>
            "🔄 Session reset. Start a new conversation!"@,
        CommandResult::Reset { session_reset: false, buffers_cleared: true } =>
            "🔄 Buffered messages cleared. No active session to reset."@,
        CommandResult::Reset { session_reset: false, buffers_cleared: false } =>
            "⚠️ No active session to reset."@,
        CommandResult::Usage(report) => usage_text(report),
        CommandResult::Error(error) => error_text(error),
    }
}

/// A result as text.
pub fn render_text_result(result: &CommandResult) -> (r: String)
    ensures
        r@ == truncated(result_text(*result), TEXT_RESPONSE_CHAR_LIMIT as int),
{
    let text = match result {
        CommandResult::ConfigOptions { category, options } => render_options(*category, options),
        CommandResult::ConfigUpdated { display_name } => {
            let name = truncate_chars(display_name.as_str(), TEXT_VALUE_CHAR_LIMIT);
            let mut t = "✅ Switched to **".to_owned();
            t.append(name.as_str());
            t.append("**");
            t
        },
        CommandResult::Cancel { signalled } => {
            if *signalled {
                "🛑 Cancel signal sent.".to_owned()
            } else {
                "⚠️ Nothing to cancel — no active session.".to_owned()
            }
        },
        CommandResult::CancelAll { signalled, buffers_cleared } => {
            if *signalled && *buffers_cleared {
                "🛑 Cancel signal sent. Buffered messages cleared.".to_owned()
            } else if *signalled {
                "🛑 Cancel signal sent.".to_owned()
            } else if *buffers_cleared {
                "🛑 Buffered messages cleared. No active session to cancel.".to_owned()
            } else {
                "⚠️ Nothing to cancel — no active session and no buffered messages.".to_owned()
            }
        },
        CommandResult::Reset { session_reset, buffers_cleared } => {
            if *session_reset && *buffers_cleared {
                "🔄 Session reset. Buffered messages cleared. Start a new conversation!".to_owned()
            } else if *session_reset {
                "🔄 Session reset. Start a new conversation!".to_owned()
            } else if *buffers_cleared {
                "🔄 Buffered messages cleared. No active session to reset.".to_owned()
            } else {
                "⚠️ No active session to reset.".to_owned()
            }
        },
        CommandResult::Usage(report) => render_usage(report),
        CommandResult::Error(error) => render_error(*error),
    };
    truncate_chars(text.as_str(), TEXT_RESPONSE_CHAR_LIMIT)
}

/// A cut text is never longer than allowed, and a text that is short enough is
/// not cut.
pub proof fn law_truncation_is_bounded(s: Seq<char>, max: int)
    requires
        max >= 0,
    ensures
        truncated(s, max).len() <= max,
        s.len() <= max ==> truncated(s, max) == s,
{
}

/// No response is longer than the limit, whatever an agent put into it.
pub proof fn law_responses_are_bounded(r: CommandResult)
    ensures
        truncated(result_text(r), TEXT_RESPONSE_CHAR_LIMIT as int).len()
            <= TEXT_RESPONSE_CHAR_LIMIT,
{
    law_truncation_is_bounded(result_text(r), TEXT_RESPONSE_CHAR_LIMIT as int);
}

/// Outside a private place, a usage command ends at once: no operation on a
/// session or an account is ever asked for.
pub proof fn law_public_usage_is_denied_first(
    c: ContextView,
    s: CommandService,
    a: CommandAction,
)
    requires
        !c.response_is_private,
        started(c, CommandView::Usage, s, a),
    ensures
        a == CommandAction::Finished(CommandResult::Error(CommandError::UsagePrivateOnly)),
{
}

/// An option is set only to a value that the session offers for it.
pub proof fn law_forged_selection_is_not_set(
    c: ContextView,
    stage: CommandStage,
    options: Vec<ConfigOption>,
    s: CommandService,
    a: CommandAction,
)
    requires
        stage matches CommandStage::Choosing { config_id, value } && offered(
            options.deep_view(),
            config_id@,
            value@,
        ) is None,
        advanced(c, stage, CommandEvent::ConfigOptions(options), s, a),
    ensures
        a == CommandAction::Finished(
            CommandResult::Error(CommandError::InvalidConfigSelection(None)),
        ),
{
}

/// Cancelling a turn leaves the messages that wait: it asks for no operation
/// but the cancellation.
pub proof fn law_cancel_preserves_buffers(
    c: ContextView,
    s: CommandService,
    a: CommandAction,
    signalled: bool,
    s2: CommandService,
    a2: CommandAction,
)
    requires
        started(c, CommandView::Cancel, s, a),
        advanced(c, s.stage, CommandEvent::Cancelled(signalled), s2, a2),
    ensures
        a is CancelSession,
        a2 == CommandAction::Finished(CommandResult::Cancel { signalled }),
{
}

/// Whatever a command waits for, the end of its time ends it with one and the
/// same error.
pub proof fn law_timeout_ends_any_command(
    c: ContextView,
    stage: CommandStage,
    s: CommandService,
    a: CommandAction,
)
    requires
        advanced(c, stage, CommandEvent::TimedOut, s, a),
    ensures
        a == CommandAction::Finished(CommandResult::Error(CommandError::OperationUnavailable)),
{
}

/// Every choice of an option appears in its listing, with its current value in
/// front.
pub proof fn law_current_choice_comes_first(o: OptionView, c: ChoiceView)
    requires
        o.options.contains(c),
    ensures
        ordered(seq![o]).contains(
            (PlacedView { config_id: o.id, choice: c, current: c.value == o.current_value }),
        ),
        c.value == o.current_value ==> ordered(seq![o])[0].current,
{
    let (yes, no) = (
        placed(o.id, o.current_value, o.options, true),
        placed(o.id, o.current_value, o.options, false),
    );
    assert(seq![o].drop_last() =~= seq![]);
    assert(ordered(seq![o].drop_last()) =~= seq![]);
    assert(ordered(seq![o]) =~= yes + no);
    let current = c.value == o.current_value;
    let p = PlacedView { config_id: o.id, choice: c, current };
    lemma_placed(o.id, o.current_value, o.options, current, c);
    lemma_placed_flag(o.id, o.current_value, o.options, true);
    if current {
        let i = yes.index_of(p);
        assert((yes + no)[i] == p);
    } else {
        let i = no.index_of(p);
        assert((yes + no)[yes.len() + i] == p);
    }
}

proof fn lemma_placed(
    id: Seq<char>,
    value: Seq<char>,
    choices: Seq<ChoiceView>,
    current: bool,
    c: ChoiceView,
)
    requires
        choices.contains(c),
        (c.value == value) == current,
    ensures
        placed(id, value, choices, current).contains(
            (PlacedView { config_id: id, choice: c, current }),
        ),
    decreases choices.len(),
{
    let p = PlacedView { config_id: id, choice: c, current };
    let rest = placed(id, value, choices.drop_last(), current);
    let all = placed(id, value, choices, current);
    if choices.last() == c {
        assert(all[rest.len() as int] == p);
    } else {
        let i = choices.index_of(c);
        assert(choices.drop_last()[i] == c);
        lemma_placed(id, value, choices.drop_last(), current, c);
        let k = rest.index_of(p);
        assert(all[k] == p);
    }
}

proof fn lemma_placed_flag(
    id: Seq<char>,
    value: Seq<char>,
    choices: Seq<ChoiceView>,
    current: bool,
)
    ensures
        forall|i: int|
            0 <= i < placed(id, value, choices, current).len() ==> (#[trigger] placed(
                id,
                value,
                choices,
                current,
            )[i]).current == current,
    decreases choices.len(),
{
    if choices.len() > 0 {
        lemma_placed_flag(id, value, choices.drop_last(), current);
    }
}

/// The word that gives a command: a slash and the command's name.
pub open spec fn command_word(n: CommandName) -> Seq<char> {
    "/"@ + command_text(n)
}

/// The word that is about one value of a category: a slash and the category's
/// name.
pub open spec fn category_word(c: ConfigCategory) -> Seq<char> {
    "/"@ + category_name(c)
}

/// Whether a word gives a command.
pub open spec fn gives_a_command(w: Seq<char>) -> bool {
    (exists|n: CommandName| w == #[trigger] command_word(n)) || (exists|c: ConfigCategory|
        w == #[trigger] category_word(c))
}

proof fn lemma_words_of_commands()
    ensures
        command_word(CommandName::Models) == "/models"@,
        command_word(CommandName::Agents) == "/agents"@,
        command_word(CommandName::Cancel) == "/cancel"@,
        command_word(CommandName::CancelAll) == "/cancel-all"@,
        command_word(CommandName::Reset) == "/reset"@,
        command_word(CommandName::Usage) == "/usage"@,
        category_word(ConfigCategory::Model) == "/model"@,
        category_word(ConfigCategory::Agent) == "/agent"@,
        is_word("/models"@),
        is_word("/agents"@),
        is_word("/cancel"@),
        is_word("/cancel-all"@),
        is_word("/reset"@),
        is_word("/usage"@),
        is_word("/model"@),
        is_word("/agent"@),
{
    reveal_strlit("/");
    reveal_strlit("models");
    reveal_strlit("agents");
    reveal_strlit("cancel");
    reveal_strlit("cancel-all");
    reveal_strlit("reset");
    reveal_strlit("usage");
    reveal_strlit("model");
    reveal_strlit("agent");
    reveal_strlit("/models");
    reveal_strlit("/agents");
    reveal_strlit("/cancel");
    reveal_strlit("/cancel-all");
    reveal_strlit("/reset");
    reveal_strlit("/usage");
    reveal_strlit("/model");
    reveal_strlit("/agent");
    assert(command_word(CommandName::Models) =~= "/models"@);
    assert(command_word(CommandName::Agents) =~= "/agents"@);
    assert(command_word(CommandName::Cancel) =~= "/cancel"@);
    assert(command_word(CommandName::CancelAll) =~= "/cancel-all"@);
    assert(command_word(CommandName::Reset) =~= "/reset"@);
    assert(command_word(CommandName::Usage) =~= "/usage"@);
    assert(category_word(ConfigCategory::Model) =~= "/model"@);
    assert(category_word(ConfigCategory::Agent) =~= "/agent"@);
}

proof fn lemma_words_differ()
    ensures
        "/models"@ != "/agents"@,
        "/models"@ != "/cancel"@,
        "/models"@ != "/cancel-all"@,
        "/models"@ != "/reset"@,
        "/models"@ != "/usage"@,
        "/models"@ != "/model"@,
        "/models"@ != "/agent"@,
        "/agents"@ != "/cancel"@,
        "/agents"@ != "/cancel-all"@,
        "/agents"@ != "/reset"@,
        "/agents"@ != "/usage"@,
        "/agents"@ != "/model"@,
        "/agents"@ != "/agent"@,
        "/cancel"@ != "/cancel-all"@,
        "/cancel"@ != "/reset"@,
        "/cancel"@ != "/usage"@,
        "/cancel"@ != "/model"@,
        "/cancel"@ != "/agent"@,
        "/cancel-all"@ != "/reset"@,
        "/cancel-all"@ != "/usage"@,
        "/cancel-all"@ != "/model"@,
        "/cancel-all"@ != "/agent"@,
        "/reset"@ != "/usage"@,
        "/reset"@ != "/model"@,
        "/reset"@ != "/agent"@,
        "/usage"@ != "/model"@,
        "/usage"@ != "/agent"@,
        "/model"@ != "/agent"@,
{
    reveal_strlit("/models");
    reveal_strlit("/agents");
    reveal_strlit("/cancel");
    reveal_strlit("/cancel-all");
    reveal_strlit("/reset");
    reveal_strlit("/usage");
    reveal_strlit("/model");
    reveal_strlit("/agent");
    assert("/models"@.len() == 7 && "/agents"@.len() == 7 && "/cancel"@.len() == 7);
    assert("/cancel-all"@.len() == 11);
    assert("/reset"@.len() == 6 && "/usage"@.len() == 6);
    assert("/model"@.len() == 6 && "/agent"@.len() == 6);
    assert("/models"@[1] == 'm' && "/agents"@[1] == 'a' && "/cancel"@[1] == 'c');
    assert("/reset"@[1] == 'r' && "/usage"@[1] == 'u');
    assert("/model"@[1] == 'm' && "/agent"@[1] == 'a');
}

/// A word, white space and more start with that word only.
proof fn lemma_spaced_word(t: Seq<char>, w: Seq<char>, gap: char, rest: Seq<char>, prefix: Seq<char>)
    requires
        is_word(w),
        is_word(prefix),
        is_white(gap),
        t == w + seq![gap] + rest,
    ensures
        spaced(t, prefix) <==> prefix == w,
        t != prefix,
        t.skip(w.len() as int) == seq![gap] + rest,
{
    let (n, m) = (w.len() as int, prefix.len() as int);
    assert(t[n] == gap);
    assert(t.skip(n) =~= seq![gap] + rest);
    if prefix == w {
        assert(t.subrange(0, n) =~= w);
    }
    if spaced(t, prefix) {
        assert(t.subrange(0, m) == prefix);
        if m < n {
            assert(t[m] == w[m]);
        } else if n < m {
            assert(t.subrange(0, m)[n] == gap);
            assert(is_white(prefix[n]));
        } else {
            assert(t.subrange(0, m) =~= w);
        }
    }
    if t == prefix {
        assert(is_white(prefix[n]));
    }
}

proof fn lemma_word_alone(w: Seq<char>, prefix: Seq<char>)
    requires
        is_word(w),
    ensures
        !spaced(w, prefix),
{
}

/// Every command's own word reads as that command, whatever white space stands
/// around it: a slash and the name of a command read as a command of that name,
/// and not as a complaint about its arguments.
pub proof fn law_commands_read_as_themselves(n: CommandName, before: Seq<char>, after: Seq<char>)
    requires
        all_white(before),
        all_white(after),
    ensures
        parsed_command(before + ("/"@ + command_text(n)) + after) matches Some(c) && command_named(c)
            == n && !(c is InvalidArguments) && !(c is SetConfig),
{
    lemma_words_of_commands();
    lemma_words_differ();
    let w = command_word(n);
    assert(is_word(w));
    law_trimming_ignores_surroundings(before, w, after);
}

/// The name of a category reads as the command that lists it: `/agent` as
/// `/agents` does, and `/model` as `/models` does.
pub proof fn law_singular_reads_as_plural(c: ConfigCategory)
    ensures
        parsed_command("/"@ + category_name(c)) == parsed_command("/"@ + category_name(c) + "s"@),
        parsed_command("/"@ + category_name(c)) == Some(CommandView::ListConfig(c)),
        category_name(c) + "s"@ == command_text(category_command(c)),
{
    lemma_words_of_commands();
    lemma_words_differ();
    reveal_strlit("model");
    reveal_strlit("models");
    reveal_strlit("agent");
    reveal_strlit("agents");
    reveal_strlit("s");
    assert(category_name(c) + "s"@ =~= command_text(category_command(c)));
    let (one, all) = (category_word(c), command_word(category_command(c)));
    assert(is_word(one) && is_word(all));
    let none = Seq::<char>::empty();
    law_trimming_ignores_surroundings(none, one, none);
    law_trimming_ignores_surroundings(none, all, none);
    assert(none + one + none =~= one);
    assert(none + all + none =~= all);
    assert("/"@ + category_name(c) + "s"@ =~= all);
}

/// A command that takes no arguments complains about any that it gets, under
/// its own name.
pub proof fn law_arguments_are_refused_by_name(
    input: Seq<char>,
    n: CommandName,
    gap: char,
    rest: Seq<char>,
)
    requires
        is_white(gap),
        trimmed(input) == "/"@ + command_text(n) + seq![gap] + rest,
    ensures
        parsed_command(input) == Some(CommandView::InvalidArguments { name: n }),
{
    lemma_words_of_commands();
    lemma_words_differ();
    let (t, w) = (trimmed(input), command_word(n));
    lemma_spaced_word(t, w, gap, rest, "/models"@);
    lemma_spaced_word(t, w, gap, rest, "/agents"@);
    lemma_spaced_word(t, w, gap, rest, "/cancel"@);
    lemma_spaced_word(t, w, gap, rest, "/cancel-all"@);
    lemma_spaced_word(t, w, gap, rest, "/reset"@);
    lemma_spaced_word(t, w, gap, rest, "/usage"@);
    lemma_spaced_word(t, w, gap, rest, "/model"@);
    lemma_spaced_word(t, w, gap, rest, "/agent"@);
}

/// After the name of a category, `list` lists it, `set` and a selector select
/// in it, and anything else is a complaint about the arguments of its command.
pub proof fn law_category_commands_are_about_their_category(
    input: Seq<char>,
    c: ConfigCategory,
    gap: char,
    rest: Seq<char>,
)
    requires
        is_white(gap),
        trimmed(input) == "/"@ + category_name(c) + seq![gap] + rest,
    ensures
        parsed_command(input) matches Some(k) && command_named(k) == category_command(c),
        words(rest) == seq!["list"@] ==> parsed_command(input) == parsed_command(
            "/"@ + category_name(c),
        ),
        words(rest).len() > 1 && words(rest)[0] == "set"@ ==> (parsed_command(input) matches Some(
            CommandView::SetConfig { category, selector },
        ) && category == c && selector == joined(words(rest).skip(1), " "@)),
        !(words(rest).len() == 1 && words(rest)[0] == "list"@) && !(words(rest).len() > 1 && words(
            rest,
        )[0] == "set"@) ==> (parsed_command(input) matches Some(
            CommandView::InvalidArguments { .. },
        )),
{
    lemma_words_of_commands();
    lemma_words_differ();
    let (t, w) = (trimmed(input), category_word(c));
    lemma_spaced_word(t, w, gap, rest, "/models"@);
    lemma_spaced_word(t, w, gap, rest, "/agents"@);
    lemma_spaced_word(t, w, gap, rest, "/cancel"@);
    lemma_spaced_word(t, w, gap, rest, "/cancel-all"@);
    lemma_spaced_word(t, w, gap, rest, "/reset"@);
    lemma_spaced_word(t, w, gap, rest, "/usage"@);
    lemma_spaced_word(t, w, gap, rest, "/model"@);
    lemma_spaced_word(t, w, gap, rest, "/agent"@);
    law_singular_reads_as_plural(c);
    assert((seq![gap] + rest)[0] == gap);
    assert((seq![gap] + rest).drop_first() =~= rest);
    assert(words(seq![gap] + rest) == words(rest));
}

/// A text whose first word gives no command is none: it is left to the agent.
pub proof fn law_other_text_is_no_command(
    input: Seq<char>,
    w: Seq<char>,
    gap: char,
    rest: Seq<char>,
)
    requires
        is_word(w),
        is_white(gap),
        !gives_a_command(w),
        trimmed(input) == w || trimmed(input) == w + seq![gap] + rest,
    ensures
        parsed_command(input) is None,
{
    lemma_words_of_commands();
    assert(w != command_word(CommandName::Models));
    assert(w != command_word(CommandName::Agents));
    assert(w != command_word(CommandName::Cancel));
    assert(w != command_word(CommandName::CancelAll));
    assert(w != command_word(CommandName::Reset));
    assert(w != command_word(CommandName::Usage));
    assert(w != category_word(ConfigCategory::Model));
    assert(w != category_word(ConfigCategory::Agent));
    let t = trimmed(input);
    if t == w {
        lemma_word_alone(w, "/models"@);
        lemma_word_alone(w, "/agents"@);
        lemma_word_alone(w, "/cancel"@);
        lemma_word_alone(w, "/cancel-all"@);
        lemma_word_alone(w, "/reset"@);
        lemma_word_alone(w, "/usage"@);
        lemma_word_alone(w, "/model"@);
        lemma_word_alone(w, "/agent"@);
    } else {
        lemma_spaced_word(t, w, gap, rest, "/models"@);
        lemma_spaced_word(t, w, gap, rest, "/agents"@);
        lemma_spaced_word(t, w, gap, rest, "/cancel"@);
        lemma_spaced_word(t, w, gap, rest, "/cancel-all"@);
        lemma_spaced_word(t, w, gap, rest, "/reset"@);
        lemma_spaced_word(t, w, gap, rest, "/usage"@);
        lemma_spaced_word(t, w, gap, rest, "/model"@);
        lemma_spaced_word(t, w, gap, rest, "/agent"@);
    }
}

/// A text without a slash in front is no command.
pub proof fn law_commands_start_with_a_slash(input: Seq<char>)
    requires
        trimmed(input).len() == 0 || trimmed(input)[0] != '/',
    ensures
        parsed_command(input) is None,
{
    reveal_strlit("/models");
    reveal_strlit("/agents");
    reveal_strlit("/cancel");
    reveal_strlit("/cancel-all");
    reveal_strlit("/reset");
    reveal_strlit("/usage");
    reveal_strlit("/model");
    reveal_strlit("/agent");
    let t = trimmed(input);
    assert("/models"@[0] == '/' && "/agents"@[0] == '/' && "/cancel"@[0] == '/');
    assert("/cancel-all"@[0] == '/' && "/reset"@[0] == '/' && "/usage"@[0] == '/');
    assert("/model"@[0] == '/' && "/agent"@[0] == '/');
    lemma_no_prefix(t, "/models"@);
    lemma_no_prefix(t, "/agents"@);
    lemma_no_prefix(t, "/cancel"@);
    lemma_no_prefix(t, "/cancel-all"@);
    lemma_no_prefix(t, "/reset"@);
    lemma_no_prefix(t, "/usage"@);
    lemma_no_prefix(t, "/model"@);
    lemma_no_prefix(t, "/agent"@);
}

proof fn lemma_no_prefix(t: Seq<char>, prefix: Seq<char>)
    requires
        prefix.len() > 0,
        t.len() == 0 || t[0] != prefix[0],
    ensures
        !spaced(t, prefix),
        t != prefix,
{
    if t.len() > 0 && prefix.is_prefix_of(t) {
        assert(t.subrange(0, prefix.len() as int)[0] == t[0]);
    }
}

/// The hint on how a command is used starts with the command's own word, and
/// what is said about wrong arguments holds it.
pub proof fn law_hint_is_about_the_command(n: CommandName)
    ensures
        ("/"@ + command_text(n)).is_prefix_of(usage_hint(n)),
        holds(error_text(CommandError::InvalidArguments(n)), "/"@ + command_text(n)),
{
    lemma_words_of_commands();
    reveal_strlit("/models");
    reveal_strlit("/agents");
    reveal_strlit("/models or /model list | /model set <number or exact name>");
    reveal_strlit("/agents or /agent list | /agent set <number or exact name>");
    let (w, hint) = (command_word(n), usage_hint(n));
    assert(hint.subrange(0, w.len() as int) =~= w);
    let head = "⚠️ Invalid arguments. Usage: "@;
    lemma_holds_between(head, w, hint.skip(w.len() as int));
    assert(head + w + hint.skip(w.len() as int) =~= head + hint);
}

/// The options of a category are those that are marked as model, or as agent or
/// mode; each keeps all that it says but the name of its category, they keep
/// their order, and no other option is among them.
pub proof fn law_options_of_a_category_are_its_own(
    a: Seq<OptionView>,
    b: Seq<OptionView>,
    o: OptionView,
    category: ConfigCategory,
)
    ensures
        matching(a + b, category) == matching(a, category) + matching(b, category),
        matching(seq![], category) == Seq::<OptionView>::empty(),
        ({
            let is_model = o.category == Some("model"@);
            let is_agent = o.category == Some("agent"@) || o.category == Some("mode"@);
            let one = matching(seq![o], category);
            &&& one.len() == (if (category is Model && is_model) || (category is Agent && is_agent) {
                1nat
            } else {
                0nat
            })
            &&& one.len() == 1 ==> one[0].id == o.id && one[0].name == o.name
                && one[0].description == o.description && one[0].current_value == o.current_value
                && one[0].options == o.options && one[0].category == Some(category_name(category))
        }),
    decreases b.len(),
{
    if b.len() == 0 {
        assert(a + b =~= a);
        assert(matching(a, category) + Seq::<OptionView>::empty() =~= matching(a, category));
    } else {
        law_options_of_a_category_are_its_own(a, b.drop_last(), o, category);
        assert((a + b).drop_last() =~= a + b.drop_last());
        assert((a + b).last() == b.last());
        assert(matching(a + b, category) =~= matching(a, category) + matching(b, category));
    }
    assert(seq![o].drop_last() =~= Seq::<OptionView>::empty());
    assert(seq![o].last() == o);
    assert(matching(Seq::<OptionView>::empty(), category) =~= seq![]);
}

/// No option belongs to two categories.
pub proof fn law_categories_share_no_option(category: Option<Seq<char>>)
    ensures
        !(in_category(ConfigCategory::Model, category) && in_category(
            ConfigCategory::Agent,
            category,
        )),
        in_category(ConfigCategory::Model, Some(category_name(ConfigCategory::Model))),
        in_category(ConfigCategory::Agent, Some(category_name(ConfigCategory::Agent))),
        !in_category(ConfigCategory::Model, None) && !in_category(ConfigCategory::Agent, None),
{
    reveal_strlit("model");
    reveal_strlit("agent");
    reveal_strlit("mode");
    assert("model"@[0] == 'm' && "agent"@[0] == 'a' && "mode"@.len() == 4 && "model"@.len() == 5);
}

/// The choices of two lists of options are those of the first and then those of
/// the second; each choice of one option stands once, under the option's id,
/// the current ones before the others and otherwise in their order.
pub proof fn law_choices_follow_the_options(a: Seq<OptionView>, b: Seq<OptionView>)
    ensures
        ordered(a + b) == ordered(a) + ordered(b),
    decreases b.len(),
{
    if b.len() == 0 {
        assert(a + b =~= a);
        assert(ordered(a) + Seq::<PlacedView>::empty() =~= ordered(a));
    } else {
        law_choices_follow_the_options(a, b.drop_last());
        assert((a + b).drop_last() =~= a + b.drop_last());
        assert((a + b).last() == b.last());
        assert(ordered(a + b) =~= ordered(a) + ordered(b));
    }
}

/// The choices of one option: each is one of the option's choices, under its
/// id, and marked as current exactly where it is; there are as many as the
/// option has, and no current one stands behind one that is not.
pub proof fn law_choices_of_an_option(o: OptionView)
    ensures
        ordered(seq![o]).len() == o.options.len(),
        forall|i: int|
            0 <= i < ordered(seq![o]).len() ==> {
                let p = #[trigger] ordered(seq![o])[i];
                &&& p.config_id == o.id
                &&& o.options.contains(p.choice)
                &&& p.current <==> p.choice.value == o.current_value
            },
        forall|i: int, j: int|
            0 <= i < j < ordered(seq![o]).len() && (#[trigger] ordered(seq![o])[j]).current ==> (
            #[trigger] ordered(seq![o])[i]).current,
{
    let (yes, no) = (
        placed(o.id, o.current_value, o.options, true),
        placed(o.id, o.current_value, o.options, false),
    );
    assert(seq![o].drop_last() =~= seq![]);
    assert(ordered(seq![o].drop_last()) =~= seq![]);
    assert(ordered(seq![o]) =~= yes + no);
    lemma_placed_counts(o.id, o.current_value, o.options);
    lemma_placed_members(o.id, o.current_value, o.options, true);
    lemma_placed_members(o.id, o.current_value, o.options, false);
    let all = ordered(seq![o]);
    assert forall|i: int| 0 <= i < all.len() implies {
        let p = #[trigger] all[i];
        &&& p.config_id == o.id
        &&& o.options.contains(p.choice)
        &&& p.current <==> p.choice.value == o.current_value
    } by {
        if i < yes.len() {
            assert(all[i] == yes[i]);
        } else {
            assert(all[i] == no[i - yes.len()]);
        }
    }
    assert forall|i: int, j: int|
        0 <= i < j < all.len() && (#[trigger] all[j]).current implies (#[trigger] all[i]).current by {
        if j >= yes.len() {
            assert(all[j] == no[j - yes.len()]);
        }
        assert(all[i] == yes[i]);
    }
}

/// Choices of one kind keep their order.
pub proof fn law_placing_keeps_the_order(
    id: Seq<char>,
    value: Seq<char>,
    a: Seq<ChoiceView>,
    b: Seq<ChoiceView>,
    current: bool,
)
    ensures
        placed(id, value, a + b, current) == placed(id, value, a, current) + placed(
            id,
            value,
            b,
            current,
        ),
    decreases b.len(),
{
    if b.len() == 0 {
        assert(a + b =~= a);
        assert(placed(id, value, a, current) + Seq::<PlacedView>::empty() =~= placed(
            id,
            value,
            a,
            current,
        ));
    } else {
        law_placing_keeps_the_order(id, value, a, b.drop_last(), current);
        assert((a + b).drop_last() =~= a + b.drop_last());
        assert((a + b).last() == b.last());
        assert(placed(id, value, a + b, current) =~= placed(id, value, a, current) + placed(
            id,
            value,
            b,
            current,
        ));
    }
}

proof fn lemma_placed_counts(id: Seq<char>, value: Seq<char>, choices: Seq<ChoiceView>)
    ensures
        placed(id, value, choices, true).len() + placed(id, value, choices, false).len()
            == choices.len(),
    decreases choices.len(),
{
    if choices.len() > 0 {
        lemma_placed_counts(id, value, choices.drop_last());
    }
}

proof fn lemma_placed_members(
    id: Seq<char>,
    value: Seq<char>,
    choices: Seq<ChoiceView>,
    current: bool,
)
    ensures
        forall|i: int|
            0 <= i < placed(id, value, choices, current).len() ==> {
                let p = #[trigger] placed(id, value, choices, current)[i];
                &&& p.config_id == id
                &&& choices.contains(p.choice)
                &&& p.current == current
                &&& (p.choice.value == value) == current
            },
    decreases choices.len(),
{
    if choices.len() > 0 {
        let front = choices.drop_last();
        lemma_placed_members(id, value, front, current);
        let (rest, all) = (placed(id, value, front, current), placed(id, value, choices, current));
        assert forall|i: int| 0 <= i < all.len() implies {
            let p = #[trigger] all[i];
            &&& p.config_id == id
            &&& choices.contains(p.choice)
            &&& p.current == current
            &&& (p.choice.value == value) == current
        } by {
            if i < rest.len() {
                assert(all[i] == rest[i]);
                let k = front.index_of(rest[i].choice);
                assert(choices[k] == rest[i].choice);
            } else {
                assert(all[i].choice == choices[choices.len() - 1]);
            }
        }
    }
}

/// The number that stands before a choice in a listing selects that choice, and
/// a number that stands before none selects by name or not at all.
pub proof fn law_numbers_select_what_they_stand_before(ps: Seq<PlacedView>, n: nat)
    requires
        n <= usize::MAX,
    ensures
        1 <= n <= ps.len() ==> selected(ps, decimal(n)) == Some(ps[n - 1]),
        !(1 <= n <= ps.len()) ==> numbered(ps, decimal(n)) is None,
{
    law_decimal_reads_back(n);
}

/// A selector that is no number of a choice selects the first choice whose
/// value or name is the same but for the case of its letters.
pub proof fn law_names_select_the_first(ps: Seq<PlacedView>, selector: Seq<char>, i: int)
    requires
        numbered(ps, selector) is None,
        0 <= i < ps.len(),
        lowercase_of(ps[i].choice.value) == lowercase_of(selector) || lowercase_of(
            ps[i].choice.name,
        ) == lowercase_of(selector),
        forall|j: int|
            0 <= j < i ==> lowercase_of((#[trigger] ps[j]).choice.value) != lowercase_of(selector)
                && lowercase_of(ps[j].choice.name) != lowercase_of(selector),
    ensures
        selected(ps, selector) == Some(ps[i]),
{
    let fs = all_folded(ps);
    assert forall|j: int| 0 <= j < i implies (#[trigger] fs[j]).value != lowercase_of(selector)
        && fs[j].name != lowercase_of(selector) by {
        assert(fs[j] == folded_of(ps[j]));
    }
    assert(fs[i] == folded_of(ps[i]));
    lemma_first_folded(fs, lowercase_of(selector), i);
}

proof fn lemma_first_folded(fs: Seq<FoldedView>, folded: Seq<char>, i: int)
    requires
        0 <= i < fs.len(),
        fs[i].value == folded || fs[i].name == folded,
        forall|j: int|
            0 <= j < i ==> (#[trigger] fs[j]).value != folded && fs[j].name != folded,
    ensures
        first_folded(fs, folded) == Some(i),
    decreases i,
{
    if i > 0 {
        let rest = fs.skip(1);
        assert(fs[0].value != folded);
        assert(rest[i - 1] == fs[i]);
        assert forall|j: int| 0 <= j < i - 1 implies (#[trigger] rest[j]).value != folded
            && rest[j].name != folded by {
            assert(rest[j] == fs[j + 1]);
        }
        lemma_first_folded(rest, folded, i - 1);
    }
}

/// What is selected is one of the choices, and it is selected by its number or
/// by its value or name; what none has selects nothing.
pub proof fn law_selection_is_justified(ps: Seq<PlacedView>, selector: Seq<char>)
    ensures
        match selected(ps, selector) {
            Some(p) => ps.contains(p) && (numbered(ps, selector) == Some(p) || lowercase_of(
                p.choice.value,
            ) == lowercase_of(selector) || lowercase_of(p.choice.name) == lowercase_of(selector)),
            None => forall|i: int|
                0 <= i < ps.len() ==> lowercase_of((#[trigger] ps[i]).choice.value) != lowercase_of(
                    selector,
                ) && lowercase_of(ps[i].choice.name) != lowercase_of(selector),
        },
{
    let fs = all_folded(ps);
    lemma_folded_found(fs, lowercase_of(selector));
    match first_folded(fs, lowercase_of(selector)) {
        Some(i) => {
            assert(fs[i] == folded_of(ps[i]));
        },
        None => {
            assert forall|i: int| 0 <= i < ps.len() implies lowercase_of(
                (#[trigger] ps[i]).choice.value,
            ) != lowercase_of(selector) && lowercase_of(ps[i].choice.name) != lowercase_of(
                selector,
            ) by {
                assert(fs[i] == folded_of(ps[i]));
            }
        },
    }
}

proof fn lemma_folded_found(fs: Seq<FoldedView>, folded: Seq<char>)
    ensures
        match first_folded(fs, folded) {
            Some(i) => 0 <= i < fs.len() && (fs[i].value == folded || fs[i].name == folded),
            None => forall|i: int|
                0 <= i < fs.len() ==> (#[trigger] fs[i]).value != folded && fs[i].name != folded,
        },
    decreases fs.len(),
{
    if fs.len() > 0 && fs[0].value != folded && fs[0].name != folded {
        let rest = fs.skip(1);
        lemma_folded_found(rest, folded);
        match first_folded(rest, folded) {
            Some(i) => {
                assert(rest[i] == fs[i + 1]);
            },
            None => {
                assert forall|i: int| 0 <= i < fs.len() implies (#[trigger] fs[i]).value != folded
                    && fs[i].name != folded by {
                    if i > 0 {
                        assert(fs[i] == rest[i - 1]);
                    }
                }
            },
        }
    }
}

/// A value is offered exactly where an option of that id that commands may set
/// has a choice of that value, and then under the name of such a choice.
pub proof fn law_offers_are_justified(
    options: Seq<OptionView>,
    config_id: Seq<char>,
    value: Seq<char>,
)
    ensures
        match offered(options, config_id, value) {
            Some(name) => exists|i: int, k: int|
                #![trigger options[i].options[k]]
                0 <= i < options.len() && 0 <= k < options[i].options.len() && options[i].id
                    == config_id && (options[i].category == Some("model"@) || options[i].category
                    == Some("agent"@) || options[i].category == Some("mode"@))
                    && options[i].options[k].value == value && options[i].options[k].name == name,
            None => forall|i: int, k: int|
                #![trigger options[i].options[k]]
                0 <= i < options.len() && 0 <= k < options[i].options.len() && options[i].id
                    == config_id && (options[i].category == Some("model"@) || options[i].category
                    == Some("agent"@) || options[i].category == Some("mode"@))
                    ==> options[i].options[k].value != value,
        },
    decreases options.len(),
{
    if options.len() > 0 {
        let rest = options.skip(1);
        law_offers_are_justified(rest, config_id, value);
        lemma_choice_found(options[0].options, value);
        match offered_by(options[0], config_id, value) {
            Some(name) => {
                let k = choose|k: int|
                    0 <= k < options[0].options.len() && (#[trigger] options[0].options[k]).value
                        == value && options[0].options[k].name == name;
                assert(options[0].options[k].name == name);
            },
            None => match offered(rest, config_id, value) {
                Some(name) => {
                    let (i, k) = choose|i: int, k: int|
                        #![trigger rest[i].options[k]]
                        0 <= i < rest.len() && 0 <= k < rest[i].options.len() && rest[i].id
                            == config_id && (rest[i].category == Some("model"@)
                            || rest[i].category == Some("agent"@) || rest[i].category == Some(
                            "mode"@,
                        )) && rest[i].options[k].value == value && rest[i].options[k].name == name;
                    assert(options[i + 1] == rest[i]);
                    assert(options[i + 1].options[k].name == name);
                },
                None => {
                    assert forall|i: int, k: int|
                        #![trigger options[i].options[k]]
                        0 <= i < options.len() && 0 <= k < options[i].options.len()
                            && options[i].id == config_id && (options[i].category == Some("model"@)
                            || options[i].category == Some("agent"@) || options[i].category == Some(
                            "mode"@,
                        )) implies options[i].options[k].value != value by {
                        if i > 0 {
                            assert(options[i] == rest[i - 1]);
                            assert(rest[i - 1].options[k].value != value);
                        }
                    }
                },
            },
        }
    }
}

proof fn lemma_choice_found(choices: Seq<ChoiceView>, value: Seq<char>)
    ensures
        match choice_of(choices, value) {
            Some(c) => exists|k: int|
                0 <= k < choices.len() && (#[trigger] choices[k]).value == value && choices[k] == c,
            None => forall|k: int| 0 <= k < choices.len() ==> (#[trigger] choices[k]).value != value,
        },
    decreases choices.len(),
{
    if choices.len() > 0 && choices[0].value != value {
        let rest = choices.skip(1);
        lemma_choice_found(rest, value);
        match choice_of(rest, value) {
            Some(c) => {
                let k = choose|k: int|
                    0 <= k < rest.len() && (#[trigger] rest[k]).value == value && rest[k] == c;
                assert(choices[k + 1] == rest[k]);
            },
            None => {
                assert forall|k: int| 0 <= k < choices.len() implies (#[trigger] choices[k]).value
                    != value by {
                    if k > 0 {
                        assert(choices[k] == rest[k - 1]);
                    }
                }
            },
        }
    } else if choices.len() > 0 {
        assert(choices[0].value == value);
    }
}

/// A listing command reads the options of its own session and ends with those of
/// its category, or with word that there are none.
pub proof fn law_listing_ends_with_its_category(
    c: ContextView,
    category: ConfigCategory,
    s: CommandService,
    a: CommandAction,
    options: Vec<ConfigOption>,
    s2: CommandService,
    a2: CommandAction,
)
    requires
        started(c, CommandView::ListConfig(category), s, a),
        advanced(c, s.stage, CommandEvent::ConfigOptions(options), s2, a2),
    ensures
        a matches CommandAction::GetConfigOptions { session_key } && session_key@ == c.platform
            + ":"@ + c.logical_thread_id,
        s2.stage is Idle,
        match a2 {
            CommandAction::Finished(CommandResult::ConfigOptions { category: k, options: o }) => k
                == category && o.deep_view() == matching(options.deep_view(), category)
                && o.deep_view().len() > 0,
            CommandAction::Finished(CommandResult::Error(CommandError::NoConfigOptions(k))) => k
                == category && matching(options.deep_view(), category).len() == 0,
            _ => false,
        },
{
}

/// A selecting command sets the choice that the selector names, in the option
/// that it belongs to and in its own session, and ends with the choice's name.
pub proof fn law_selection_is_carried_out(
    c: ContextView,
    category: ConfigCategory,
    selector: Seq<char>,
    s: CommandService,
    a: CommandAction,
    options: Vec<ConfigOption>,
    s2: CommandService,
    a2: CommandAction,
    done: bool,
    s3: CommandService,
    a3: CommandAction,
    p: PlacedView,
)
    requires
        started(c, CommandView::SetConfig { category, selector }, s, a),
        advanced(c, s.stage, CommandEvent::ConfigOptions(options), s2, a2),
        selected(ordered(matching(options.deep_view(), category)), selector) == Some(p),
        matching(options.deep_view(), category).len() > 0,
        advanced(c, s2.stage, CommandEvent::ConfigSet(done), s3, a3),
    ensures
        a matches CommandAction::GetConfigOptions { session_key } && session_key@ == c.platform
            + ":"@ + c.logical_thread_id,
        a2 matches CommandAction::SetConfigOption { session_key, config_id, value } && session_key@
            == c.platform + ":"@ + c.logical_thread_id && config_id@ == p.config_id && value@
            == p.choice.value,
        done ==> (a3 matches CommandAction::Finished(CommandResult::ConfigUpdated { display_name })
            && display_name@ == p.choice.name),
        !done ==> a3 == CommandAction::Finished(
            CommandResult::Error(CommandError::ConfigUpdateUnavailable),
        ),
        s3.stage is Idle,
{
}

/// A value that was picked is set as picked, where the session still offers it.
pub proof fn law_pick_is_carried_out(
    c: ContextView,
    config_id: String,
    value: String,
    options: Vec<ConfigOption>,
    s: CommandService,
    a: CommandAction,
    name: Seq<char>,
    s2: CommandService,
    a2: CommandAction,
)
    requires
        advanced(
            c,
            CommandStage::Choosing { config_id, value },
            CommandEvent::ConfigOptions(options),
            s,
            a,
        ),
        offered(options.deep_view(), config_id@, value@) == Some(name),
        advanced(c, s.stage, CommandEvent::ConfigSet(true), s2, a2),
    ensures
        a matches CommandAction::SetConfigOption { session_key, config_id: i, value: v }
            && session_key@ == c.session_key() && i@ == config_id@ && v@ == value@,
        a2 matches CommandAction::Finished(CommandResult::ConfigUpdated { display_name })
            && display_name@ == name,
{
}

/// Cancelling everything first drops the messages that wait and then cancels the
/// turn, and reports of both; so does a reset, which resets the session.
pub proof fn law_both_parts_are_reported(
    c: ContextView,
    command: CommandView,
    s: CommandService,
    a: CommandAction,
    cleared: usize,
    s2: CommandService,
    a2: CommandAction,
    event: CommandEvent,
    s3: CommandService,
    a3: CommandAction,
)
    requires
        command is CancelAll || command is Reset,
        started(c, command, s, a),
        advanced(c, s.stage, CommandEvent::Cleared(cleared), s2, a2),
        advanced(c, s2.stage, event, s3, a3),
    ensures
        a matches CommandAction::ClearBufferedThread { platform, logical_thread_id } && platform@
            == c.platform && logical_thread_id@ == c.logical_thread_id,
        command is CancelAll ==> (a2 matches CommandAction::CancelSession { session_key }
            && session_key@ == c.session_key()),
        command is Reset ==> (a2 matches CommandAction::ResetSession { session_key } && session_key@
            == c.session_key()),
        command is CancelAll && event is Cancelled ==> a3 == CommandAction::Finished(
            CommandResult::CancelAll { signalled: event->Cancelled_0, buffers_cleared: cleared > 0 },
        ),
        command is Reset && event is WasReset ==> a3 == CommandAction::Finished(
            CommandResult::Reset { session_reset: event->WasReset_0, buffers_cleared: cleared > 0 },
        ),
{
}

/// In a private place, a usage command looks for a live session, then asks for
/// the usage, and ends with the report; without a session, or without a report,
/// it ends with word of that.
pub proof fn law_usage_is_reported_in_private(
    c: ContextView,
    s: CommandService,
    a: CommandAction,
    live: bool,
    s2: CommandService,
    a2: CommandAction,
    u: Result<UsageReport, UsageFailure>,
    s3: CommandService,
    a3: CommandAction,
)
    requires
        c.response_is_private,
        started(c, CommandView::Usage, s, a),
        advanced(c, s.stage, CommandEvent::Live(live), s2, a2),
        live ==> advanced(c, s2.stage, CommandEvent::Usage(u), s3, a3),
    ensures
        a matches CommandAction::HasLiveSession { session_key } && session_key@ == c.session_key(),
        !live ==> a2 == CommandAction::Finished(CommandResult::Error(CommandError::NoActiveSession)),
        live ==> (a2 matches CommandAction::GetUsage { session_key } && session_key@
            == c.session_key()),
        live ==> match u {
            Ok(report) => a3 == CommandAction::Finished(CommandResult::Usage(report)),
            Err(UsageFailure::Unsupported) => a3 == CommandAction::Finished(
                CommandResult::Error(CommandError::UsageUnsupported),
            ),
            Err(UsageFailure::Unavailable) => a3 == CommandAction::Finished(
                CommandResult::Error(CommandError::UsageUnavailable),
            ),
        },
{
}

/// A command with wrong arguments ends at once and does nothing.
pub proof fn law_wrong_arguments_do_nothing(
    c: ContextView,
    name: CommandName,
    s: CommandService,
    a: CommandAction,
)
    requires
        started(c, CommandView::InvalidArguments { name }, s, a),
    ensures
        s.stage is Idle,
        a == CommandAction::Finished(CommandResult::Error(CommandError::InvalidArguments(name))),
{
}

/// A result is completed where something was done or shown, and only there; a
/// private surface that is denied, and what is invalid, are told apart from what
/// is not available.
pub proof fn law_outcome_tells_what_was_done(r: CommandResult)
    ensures
        outcome(r) == "completed"@ <==> match r {
            CommandResult::Cancel { signalled } => signalled,
            CommandResult::CancelAll { signalled, buffers_cleared } => signalled || buffers_cleared,
            CommandResult::Reset { session_reset, buffers_cleared } => session_reset
                || buffers_cleared,
            CommandResult::Error(_) => false,
            _ => true,
        },
        outcome(r) == "no_active_session"@ <==> !(r is Error) && outcome(r) != "completed"@,
        outcome(r) == "denied_private_surface"@ <==> r == CommandResult::Error(
            CommandError::UsagePrivateOnly,
        ),
        outcome(r) == "invalid"@ <==> (r matches CommandResult::Error(e) && (e is InvalidArguments
            || e is InvalidConfigSelection)),
{
    reveal_strlit("completed");
    reveal_strlit("no_active_session");
    reveal_strlit("denied_private_surface");
    reveal_strlit("invalid");
    reveal_strlit("unavailable");
    assert("completed"@.len() == 9 && "no_active_session"@.len() == 17);
    assert("denied_private_surface"@.len() == 22 && "invalid"@.len() == 7);
    assert("unavailable"@.len() == 11);
}

/// What is cut is the start of the text and an ellipsis, and as long as it may
/// be.
pub proof fn law_cut_text_is_its_start(s: Seq<char>, max: int)
    requires
        0 < max < s.len(),
    ensures
        truncated(s, max).len() == max,
        truncated(s, max).last() == '…',
        truncated(s, max).drop_last().is_prefix_of(s),
{
    let t = truncated(s, max);
    assert(t.drop_last() =~= s.take(max - 1));
    assert(s.subrange(0, max - 1) =~= t.drop_last());
}

/// A bar has ten cells, and a cell is filled where the percentage reaches its
/// end; so a larger percentage never fills fewer.
pub proof fn law_bar_shows_the_percentage(percentage: u64, i: int)
    requires
        0 <= i < 10,
    ensures
        bar(percentage).len() == 10,
        bar(percentage)[i] == '█' <==> percentage >= 10 * (i + 1),
        bar(percentage)[i] == '█' || bar(percentage)[i] == '░',
{
}

/// The start of a name, as far as a listing shows it.
pub open spec fn listed_name(p: PlacedView) -> Seq<char> {
    truncated(p.choice.name, TEXT_VALUE_CHAR_LIMIT as int)
}

/// A listing holds a line for each of its first choices: the number by which it
/// is selected, its name, and a mark where it is current.
pub proof fn law_listing_holds_its_choices(category: ConfigCategory, ps: Seq<PlacedView>, i: int)
    requires
        0 <= i < ps.len(),
        i < TEXT_OPTION_LIMIT,
    ensures
        holds(
            listing(category, ps),
            "  "@ + decimal((i + 1) as nat) + ". "@ + listed_name(ps[i]) + (if ps[i].current {
                " ✅"@
            } else {
                ""@
            }),
        ),
{
    let parts = listing_lines(category, ps);
    assert(parts[i + 1] == choice_line(i, ps[i]));
    law_joined_text_holds_its_parts(parts, "\n"@, i + 1);
}

/// A listing says how to select from it.
pub proof fn law_listing_says_how_to_select(category: ConfigCategory, ps: Seq<PlacedView>)
    ensures
        holds(listing(category, ps), "/"@ + category_name(category) + " set "@),
{
    let name = category_name(category);
    let usage = "\nUsage: /"@ + name + " set <number or exact name>"@;
    let parts = listing_lines(category, ps);
    assert(parts[parts.len() - 1] == usage);
    law_joined_text_holds_its_parts(parts, "\n"@, parts.len() - 1);
    lemma_usage_line(name);
    lemma_holds_through(listing(category, ps), usage, "/"@ + name + " set "@);
}

proof fn lemma_usage_line(name: Seq<char>)
    ensures
        holds(
            "\nUsage: /"@ + name + " set <number or exact name>"@,
            "/"@ + name + " set "@,
        ),
{
    reveal_strlit("/");
    reveal_strlit("\nUsage: /");
    reveal_strlit(" set ");
    reveal_strlit(" set <number or exact name>");
    let before = "\nUsage: /"@.take(8);
    let after = " set <number or exact name>"@.skip(5);
    assert("\nUsage: /"@ =~= before + "/"@);
    assert(" set <number or exact name>"@ =~= " set "@ + after);
    let wanted = "/"@ + name + " set "@;
    lemma_holds_between(before, wanted, after);
    assert(before + wanted + after =~= "\nUsage: /"@ + name + " set <number or exact name>"@);
}

/// A listing says how many choices it leaves out, if any.
pub proof fn law_listing_counts_what_it_leaves_out(category: ConfigCategory, ps: Seq<PlacedView>)
    requires
        ps.len() > TEXT_OPTION_LIMIT,
    ensures
        holds(
            listing(category, ps),
            decimal((ps.len() - TEXT_OPTION_LIMIT) as nat) + " more option(s) omitted."@,
        ),
{
    let number = decimal((ps.len() - TEXT_OPTION_LIMIT) as nat);
    let parts = listing_lines(category, ps);
    let k = 1 + TEXT_OPTION_LIMIT as int;
    assert(parts[k] == "… "@ + number + " more option(s) omitted."@);
    law_joined_text_holds_its_parts(parts, "\n"@, k);
    lemma_ends_with("… "@, number, " more option(s) omitted."@);
    lemma_holds_through(listing(category, ps), parts[k], number + " more option(s) omitted."@);
}

proof fn lemma_ends_with(a: Seq<char>, b: Seq<char>, c: Seq<char>)
    ensures
        holds(a + b + c, b + c),
        holds(a + b + c, a + b),
{
    let (s, front, back) = (a + b + c, a + b, b + c);
    assert(s.subrange(a.len() as int, a.len() as int + back.len()) =~= back);
    lemma_holds_at(s, back, a.len() as int);
    assert(s.subrange(0, 0int + front.len()) =~= front);
    lemma_holds_at(s, front, 0);
}

/// What a part of a text holds, the text holds.
proof fn lemma_holds_through(s: Seq<char>, part: Seq<char>, inner: Seq<char>)
    requires
        holds(s, part),
        holds(part, inner),
    ensures
        holds(s, inner),
{
    let i = choose|i: int|
        0 <= i <= s.len() - part.len() && #[trigger] s.subrange(i, i + part.len()) == part;
    let j = choose|j: int|
        0 <= j <= part.len() - inner.len() && #[trigger] part.subrange(j, j + inner.len()) == inner;
    assert(s.subrange(i + j, i + j + inner.len()) =~= part.subrange(j, j + inner.len()));
}

/// A usage report tells the plan, and when the cycle resets.
pub proof fn law_usage_report_names_the_plan(u: UsageReport)
    ensures
        holds(usage_text(u), shortened(u.plan_name@)),
        u.billing_cycle_reset matches Some(reset) ==> holds(
            usage_text(u),
            "Billing cycle resets "@ + shortened(reset@),
        ),
{
    let parts = report_lines(u);
    law_joined_text_holds_its_parts(parts, "\n"@, 0);
    lemma_holds_between("📊 **Usage — "@, shortened(u.plan_name@), "**"@);
    lemma_holds_through(usage_text(u), parts[0], shortened(u.plan_name@));
    if u.billing_cycle_reset is Some {
        law_joined_text_holds_its_parts(parts, "\n"@, parts.len() - 1);
    }
}

/// A usage report tells each kind of usage: its name and what was used, of what
/// limit and how much of it that is, and what was charged beyond it.
pub proof fn law_usage_report_tells_each_kind(u: UsageReport, i: int)
    requires
        0 <= i < u.breakdowns@.len(),
    ensures
        holds(
            usage_text(u),
            shortened(u.breakdowns@[i].display_name@) + ": "@ + u.breakdowns@[i].used@,
        ),
        u.breakdowns@[i].limit matches Some(l) ==> holds(
            usage_text(u),
            l.amount@ + " `"@ + bar(l.percentage) + "` "@ + decimal(l.percentage as nat) + "%"@,
        ),
        u.breakdowns@[i].overage matches Some(o) ==> holds(
            usage_text(u),
            "Overage charges: "@ + o.amount@ + " "@ + shortened(
                match o.currency {
                    Some(c) => c@,
                    None => "USD"@,
                },
            ),
        ),
{
    let b = u.breakdowns@[i];
    let body = usage_lines(u.breakdowns@);
    let parts = report_lines(u);
    let k = lemma_usage_lines(u.breakdowns@, i);
    assert(parts[k + 1] == body[k]);
    law_joined_text_holds_its_parts(parts, "\n"@, k + 1);
    lemma_breakdown_line(b);
    let line = breakdown_line(b);
    lemma_holds_through(usage_text(u), line, shortened(b.display_name@) + ": "@ + b.used@);
    match b.limit {
        Some(l) => {
            lemma_holds_through(
                usage_text(u),
                line,
                l.amount@ + " `"@ + bar(l.percentage) + "` "@ + decimal(l.percentage as nat) + "%"@,
            );
        },
        None => {},
    }
    if b.overage is Some {
        assert(parts[k + 2] == body[k + 1]);
        law_joined_text_holds_its_parts(parts, "\n"@, k + 2);
    }
}

proof fn lemma_breakdown_line(b: UsageBreakdown)
    ensures
        holds(breakdown_line(b), shortened(b.display_name@) + ": "@ + b.used@),
        b.limit matches Some(l) ==> holds(
            breakdown_line(b),
            l.amount@ + " `"@ + bar(l.percentage) + "` "@ + decimal(l.percentage as nat) + "%"@,
        ),
{
    let start = shortened(b.display_name@) + ": "@ + b.used@;
    match b.limit {
        Some(l) => {
            let warning = if l.percentage > 100 {
                " ⚠️"@
            } else {
                ""@
            };
            lemma_limited_line(
                start,
                l.amount@,
                bar(l.percentage),
                decimal(l.percentage as nat),
                warning,
            );
        },
        None => {
            lemma_ends_with(seq![], start, " used"@);
            assert(Seq::<char>::empty() + start =~= start);
        },
    }
}

proof fn lemma_limited_line(
    start: Seq<char>,
    amount: Seq<char>,
    cells: Seq<char>,
    number: Seq<char>,
    warning: Seq<char>,
)
    ensures
        ({
            let line = start + " / "@ + amount + " `"@ + cells + "` "@ + number + "%"@ + warning;
            &&& holds(line, start)
            &&& holds(line, amount + " `"@ + cells + "` "@ + number + "%"@)
        }),
{
    let line = start + " / "@ + amount + " `"@ + cells + "` "@ + number + "%"@ + warning;
    let shown = amount + " `"@ + cells + "` "@ + number + "%"@;
    let none = Seq::<char>::empty();
    lemma_holds_between(none, start, " / "@ + shown + warning);
    assert(none + start + (" / "@ + shown + warning) =~= line);
    lemma_holds_between(start + " / "@, shown, warning);
    assert(start + " / "@ + shown + warning =~= line);
}

/// Where the lines of a kind of usage stand among all lines.
proof fn lemma_usage_lines(bs: Seq<UsageBreakdown>, i: int) -> (k: int)
    requires
        0 <= i < bs.len(),
    ensures
        0 <= k,
        k + breakdown_lines(bs[i]).len() <= usage_lines(bs).len(),
        forall|j: int|
            0 <= j < breakdown_lines(bs[i]).len() ==> #[trigger] usage_lines(bs)[k + j]
                == breakdown_lines(bs[i])[j],
        usage_lines(bs)[k] == breakdown_line(bs[i]),
        bs[i].overage is Some ==> usage_lines(bs)[k + 1] == breakdown_lines(bs[i])[1]
            && k + 1 < usage_lines(bs).len(),
        k < usage_lines(bs).len(),
    decreases bs.len(),
{
    let front = usage_lines(bs.drop_last());
    let mine = breakdown_lines(bs[i]);
    assert(mine[0] == breakdown_line(bs[i]));
    if i == bs.len() - 1 {
        let k = front.len() as int;
        assert forall|j: int| 0 <= j < mine.len() implies #[trigger] usage_lines(bs)[k + j]
            == mine[j] by {}
        assert(usage_lines(bs)[k + 0] == mine[0]);
        if bs[i].overage is Some {
            assert(usage_lines(bs)[k + 1] == mine[1]);
        }
        k
    } else {
        let k = lemma_usage_lines(bs.drop_last(), i);
        assert(bs.drop_last()[i] == bs[i]);
        assert forall|j: int| 0 <= j < mine.len() implies #[trigger] usage_lines(bs)[k + j]
            == mine[j] by {
            assert(usage_lines(bs)[k + j] == front[k + j]);
        }
        assert(usage_lines(bs)[k + 0] == mine[0]);
        if bs[i].overage is Some {
            assert(usage_lines(bs)[k + 1] == mine[1]);
        }
        k
    }
}

/// What was switched to is told by its name.
pub proof fn law_switch_is_told(name: String)
    ensures
        holds(
            result_text(CommandResult::ConfigUpdated { display_name: name }),
            truncated(name@, TEXT_VALUE_CHAR_LIMIT as int),
        ),
{
    lemma_holds_between("✅ Switched to **"@, shortened(name@), "**"@);
}

/// Whether the turn was signalled and whether messages were dropped can be told
/// from the text on a cancellation.
pub proof fn law_cancellations_are_told_apart(signalled: bool, cleared: bool)
    ensures
        ({
            let text = result_text(CommandResult::CancelAll { signalled, buffers_cleared: cleared });
            &&& cleared ==> holds(text, "Buffered messages cleared."@)
            &&& signalled ==> holds(text, "Cancel signal sent."@)
            &&& !signalled && !cleared ==> holds(text, "Nothing to cancel"@)
        }),
        ({
            let text = result_text(
                CommandResult::Reset { session_reset: signalled, buffers_cleared: cleared },
            );
            &&& cleared ==> holds(text, "Buffered messages cleared."@)
            &&& signalled ==> holds(text, "Session reset."@)
            &&& !signalled ==> holds(text, "o active session to reset."@)
        }),
        holds(result_text(CommandResult::Cancel { signalled: true }), "Cancel signal sent."@),
        holds(result_text(CommandResult::Cancel { signalled: false }), "Nothing to cancel"@),
{
    reveal_strlit("Buffered messages cleared.");
    reveal_strlit("Cancel signal sent.");
    reveal_strlit("Nothing to cancel");
    reveal_strlit("Session reset.");
    reveal_strlit("o active session to reset.");
    reveal_strlit("🛑 Cancel signal sent.");
    reveal_strlit("⚠️ Nothing to cancel — no active session.");
    reveal_strlit("🛑 Cancel signal sent. Buffered messages cleared.");
    reveal_strlit("🛑 Buffered messages cleared. No active session to cancel.");
    reveal_strlit("⚠️ Nothing to cancel — no active session and no buffered messages.");
    reveal_strlit("🔄 Session reset. Buffered messages cleared. Start a new conversation!");
    reveal_strlit("🔄 Session reset. Start a new conversation!");
    reveal_strlit("🔄 Buffered messages cleared. No active session to reset.");
    reveal_strlit("⚠️ No active session to reset.");
    let sent = "Cancel signal sent."@;
    let dropped = "Buffered messages cleared."@;
    let nothing = "Nothing to cancel"@;
    let reset = "Session reset."@;
    let none = "o active session to reset."@;
    if signalled && cleared {
        let text = "🛑 Cancel signal sent. Buffered messages cleared."@;
        lemma_holds_at(text, sent, 2);
        lemma_holds_at(text, dropped, 22);
        let text = "🔄 Session reset. Buffered messages cleared. Start a new conversation!"@;
        lemma_holds_at(text, reset, 2);
        lemma_holds_at(text, dropped, 17);
    } else if signalled {
        lemma_holds_at("🔄 Session reset. Start a new conversation!"@, reset, 2);
    } else if cleared {
        lemma_holds_at(
            "🛑 Buffered messages cleared. No active session to cancel."@,
            dropped,
            2,
        );
        let text = "🔄 Buffered messages cleared. No active session to reset."@;
        lemma_holds_at(text, dropped, 2);
        lemma_holds_at(text, none, 30);
    } else {
        lemma_holds_at(
            "⚠️ Nothing to cancel — no active session and no buffered messages."@,
            nothing,
            3,
        );
        lemma_holds_at("⚠️ No active session to reset."@, none, 4);
    }
    lemma_holds_at("🛑 Cancel signal sent."@, sent, 2);
    lemma_holds_at("⚠️ Nothing to cancel — no active session."@, nothing, 3);
}

/// What stands at a place of a text is held by it.
proof fn lemma_holds_at(s: Seq<char>, part: Seq<char>, i: int)
    requires
        0 <= i,
        i + part.len() <= s.len(),
        s.subrange(i, i + part.len()) =~= part,
    ensures
        holds(s, part),
{
}

/// What went wrong is said for each error that no command caused.
pub proof fn law_errors_say_what_went_wrong()
    ensures
        holds(error_text(CommandError::InvalidConfigSelection(None)), "no longer available"@),
        holds(error_text(CommandError::ConfigUpdateUnavailable), "configuration change could not be completed"@),
        holds(error_text(CommandError::OperationUnavailable), "command could not be completed"@),
        holds(error_text(CommandError::NoActiveSession), "No active session"@),
        holds(error_text(CommandError::UsagePrivateOnly), "only available in a private chat"@),
        holds(error_text(CommandError::UsageUnsupported), "not supported by this backend"@),
        holds(error_text(CommandError::UsageUnavailable), "temporarily unavailable"@),
{
    lemma_gone_selection_is_said();
    lemma_failed_change_is_said();
    lemma_failed_command_is_said();
    lemma_no_session_is_said();
    lemma_private_usage_is_said();
    lemma_unsupported_usage_is_said();
    lemma_missing_usage_is_said();
}

proof fn lemma_gone_selection_is_said()
    ensures
        holds(error_text(CommandError::InvalidConfigSelection(None)), "no longer available"@),
{
    reveal_strlit("⚠️ That configuration selection is no longer available.");
    reveal_strlit("no longer available");
    let (words, part) = (error_text(CommandError::InvalidConfigSelection(None)), "no longer available"@);
    assert(words.subrange(35, 35int + part.len()) =~= part);
    lemma_holds_at(words, part, 35);
}

proof fn lemma_failed_change_is_said()
    ensures
        holds(error_text(CommandError::ConfigUpdateUnavailable), "configuration change could not be completed"@),
{
    reveal_strlit("❌ The configuration change could not be completed.");
    reveal_strlit("configuration change could not be completed");
    let (words, part) = (error_text(CommandError::ConfigUpdateUnavailable), "configuration change could not be completed"@);
    assert(words.subrange(6, 6int + part.len()) =~= part);
    lemma_holds_at(words, part, 6);
}

proof fn lemma_failed_command_is_said()
    ensures
        holds(error_text(CommandError::OperationUnavailable), "command could not be completed"@),
{
    reveal_strlit("⚠️ The command could not be completed.");
    reveal_strlit("command could not be completed");
    let (words, part) = (error_text(CommandError::OperationUnavailable), "command could not be completed"@);
    assert(words.subrange(7, 7int + part.len()) =~= part);
    lemma_holds_at(words, part, 7);
}

proof fn lemma_no_session_is_said()
    ensures
        holds(error_text(CommandError::NoActiveSession), "No active session"@),
{
    reveal_strlit("⚠️ No active session. Start a conversation first.");
    reveal_strlit("No active session");
    let (words, part) = (error_text(CommandError::NoActiveSession), "No active session"@);
    assert(words.subrange(3, 3int + part.len()) =~= part);
    lemma_holds_at(words, part, 3);
}

proof fn lemma_private_usage_is_said()
    ensures
        holds(error_text(CommandError::UsagePrivateOnly), "only available in a private chat"@),
{
    reveal_strlit("🔒 `/usage` is only available in a private chat.");
    reveal_strlit("only available in a private chat");
    let (words, part) = (error_text(CommandError::UsagePrivateOnly), "only available in a private chat"@);
    assert(words.subrange(14, 14int + part.len()) =~= part);
    lemma_holds_at(words, part, 14);
}

proof fn lemma_unsupported_usage_is_said()
    ensures
        holds(error_text(CommandError::UsageUnsupported), "not supported by this backend"@),
{
    reveal_strlit("⚠️ Usage reporting is not supported by this backend.");
    reveal_strlit("not supported by this backend");
    let (words, part) = (error_text(CommandError::UsageUnsupported), "not supported by this backend"@);
    assert(words.subrange(22, 22int + part.len()) =~= part);
    lemma_holds_at(words, part, 22);
}

proof fn lemma_missing_usage_is_said()
    ensures
        holds(error_text(CommandError::UsageUnavailable), "temporarily unavailable"@),
{
    reveal_strlit("⚠️ Usage information is temporarily unavailable.");
    reveal_strlit("temporarily unavailable");
    let (words, part) = (error_text(CommandError::UsageUnavailable), "temporarily unavailable"@);
    assert(words.subrange(24, 24int + part.len()) =~= part);
    lemma_holds_at(words, part, 24);
}

/// An error about a category names it: one for which nothing can be chosen, and
/// one in which nothing was chosen, which also says how to list it.
pub proof fn law_errors_name_their_category(c: ConfigCategory)
    ensures
        holds(error_text(CommandError::NoConfigOptions(c)), "No "@ + category_name(c)),
        holds(
            error_text(CommandError::InvalidConfigSelection(Some(c))),
            "No matching "@ + category_name(c),
        ),
        holds(
            error_text(CommandError::InvalidConfigSelection(Some(c))),
            "/"@ + category_name(c) + " list"@,
        ),
{
    let name = category_name(c);
    reveal_strlit("⚠️ No ");
    reveal_strlit("No ");
    assert("⚠️ No "@.skip(3) =~= "No "@);
    lemma_words_around(
        "⚠️ No "@,
        "No "@,
        name,
        " options available. Start a conversation first."@,
        3,
    );
    lemma_selection_words(name);
}

proof fn lemma_words_around(
    front: Seq<char>,
    end: Seq<char>,
    name: Seq<char>,
    back: Seq<char>,
    i: int,
)
    requires
        0 <= i <= front.len(),
        front.skip(i) == end,
    ensures
        holds(front + name + back, end + name),
{
    let (all, part) = (front + name + back, end + name);
    assert(all.subrange(i, i + part.len()) =~= part);
    lemma_holds_at(all, part, i);
}

proof fn lemma_selection_words(name: Seq<char>)
    ensures
        ({
            let words = "⚠️ No matching "@ + name + ". Use /"@ + name + " list to see options."@;
            &&& holds(words, "No matching "@ + name)
            &&& holds(words, "/"@ + name + " list"@)
        }),
{
    reveal_strlit("⚠️ No matching ");
    reveal_strlit("No matching ");
    reveal_strlit(". Use /");
    reveal_strlit("/");
    reveal_strlit(" list");
    reveal_strlit(" list to see options.");
    let (front, middle, back) = ("⚠️ No matching "@, ". Use /"@, " list to see options."@);
    let words = front + name + middle + name + back;
    let first = "No matching "@ + name;
    assert(words.subrange(3, 3int + first.len()) =~= first);
    lemma_holds_at(words, first, 3);
    let second = "/"@ + name + " list"@;
    let at = front.len() as int + name.len() as int + 6;
    assert(words.subrange(at, at + second.len()) =~= second);
    lemma_holds_at(words, second, at);
}

/// A listing has a line for each choice that it shows, one before them and one
/// behind, and another only where choices are left out.
pub proof fn law_listing_has_a_line_for_each(category: ConfigCategory, ps: Seq<PlacedView>)
    ensures
        ps.len() <= TEXT_OPTION_LIMIT ==> listing_lines(category, ps).len() == ps.len() + 2,
        ps.len() > TEXT_OPTION_LIMIT ==> listing_lines(category, ps).len() == TEXT_OPTION_LIMIT + 3,
{
}

} // verus!
