//! The local surface for callers outside the process: one request per line in,
//! one response per line out.
//!
//! Callers hold opaque random tokens. A token encodes nothing about the
//! delegation that it stands for.

use crate::control_plane::primary::Answer;
use crate::control_plane::primary::ClientCommand;
use crate::control_plane::primary::CommandError;
use crate::control_plane::primary::CommandErrorView;
use crate::control_plane::primary::DelegationHandle;
use crate::control_plane::primary::DelegationKey;
use crate::control_plane::primary::DelegationOutcome;
use crate::control_plane::primary::DelegationSnapshot;
use crate::control_plane::primary::DelegationStatusWire;
use crate::control_plane::primary::LifecycleView;
use crate::control_plane::primary::OutcomeView;
use crate::control_plane::primary::SpawnRequest;
use crate::control_plane::primary::SpawnTarget;
use crate::control_plane::primary::command_error_text;
use crate::control_plane::primary::wire_status;
use crate::control_plane::primary::wire_word;
use crate::digest::is_lower_hex;
use crate::json::hex_digit;
use crate::labels::Labels;
use crate::paths::join_path;
use crate::paths::path_join;
use crate::proto::AgentSummary;
use crate::proto::AgentType;
use crate::proto::DelegationStatus;
use crate::proto::Timestamp;
use crate::table::Table;
use vstd::prelude::*;
use vstd::string::*;

verus! {

/// Environment override for the socket path.
pub const SOCKET_ENV: &'static str = "OPENAB_AGENT_SOCKET";

/// How many tokens are remembered.
pub const MAX_HANDLE_TOKENS: usize = 4096;

/// How many random bytes stand behind a token.
pub const TOKEN_BYTES: usize = 32;

/// The shortest deadline that is accepted, in seconds.
pub const MIN_DEADLINE_SECS: u64 = 1;

/// The longest deadline, in seconds; longer ones are shortened to it.
pub const MAX_DEADLINE_SECS: u64 = 1800;

/// The socket path: the override when it is set, else a place below the home
/// directory. Fails when neither is known.
pub fn default_socket_path(explicit: Option<String>, home: Option<String>) -> (r: Result<
    String,
    String,
>)
    ensures
        explicit matches Some(p) ==> r == Ok::<String, String>(p),
        explicit is None ==> match home {
            Some(h) => r matches Ok(p) && p@ == path_join(
                path_join(h@, ".openab"@),
                "agent.sock"@,
            ),
            None => r matches Err(e) && e@ == "neither OPENAB_AGENT_SOCKET nor HOME is set"@,
        },
{
    match explicit {
        Some(p) => Ok(p),
        None => match home {
            Some(h) => {
                let dir = join_path(h.as_str(), ".openab");
                Ok(join_path(dir.as_str(), "agent.sock"))
            },
            None => Err("neither OPENAB_AGENT_SOCKET nor HOME is set".to_owned()),
        },
    }
}

/// A spawn target as a local caller writes it. Exactly one field must be set.
#[derive(Debug, PartialEq, Eq)]
pub struct LocalTarget {
    pub name: Option<String>,
    pub labels: Option<Labels>,
}

/// One request.
#[derive(Debug, PartialEq, Eq)]
pub enum LocalRequest {
    Spawn {
        delegation_id: String,
        target: LocalTarget,
        prompt: String,
        deadline_secs: u64,
        parent: Option<String>,
    },
    Await { handle: String },
    Check { handle: String },
    Cancel { handle: String, reason: String },
    ListAgents,
}

/// One runtime as a local caller sees it.
#[derive(Debug, PartialEq, Eq)]
pub struct LocalAgent {
    pub name: String,
    pub agent_type: String,
    pub instance_id: String,
    pub labels: Labels,
    pub active_sessions: u32,
    pub max_delegated_sessions: u32,
}

/// One response.
#[derive(Debug, PartialEq, Eq)]
pub enum LocalResponse {
    Spawned { handle: String, assigned_to: String },
    Pending,
    Running { assigned_to: String },
    Terminal { status: DelegationStatusWire, result: Option<String>, error: Option<String> },
    Cancelled,
    Agents { agents: Vec<LocalAgent> },
    Error { message: String },
}

impl LocalResponse {
    /// The response to a request that could not be satisfied.
    pub fn error(message: String) -> (r: Self)
        ensures
            r == (LocalResponse::Error { message }),
    {
        LocalResponse::Error { message }
    }

    /// Whether this is the error `message`.
    pub open spec fn is_error(self, message: Seq<char>) -> bool {
        self matches LocalResponse::Error { message: m } && m@ == message
    }

    /// Whether this reports the end `o` of a delegation.
    pub open spec fn is_terminal(self, o: OutcomeView) -> bool {
        self matches LocalResponse::Terminal { status, result, error } && same_status(
            status,
            o.status,
        ) && result.deep_view() == o.result && error.deep_view() == o.error
    }
}

/// Whether the local status spells the wire status.
pub open spec fn same_status(w: DelegationStatusWire, s: DelegationStatus) -> bool {
    match s {
        DelegationStatus::Completed => w is Completed,
        DelegationStatus::Failed => w is Failed,
        DelegationStatus::Timeout => w is Timeout,
        DelegationStatus::Cancelled => w is Cancelled,
        DelegationStatus::TargetDisconnected => w is TargetDisconnected,
    }
}

/// `n` bytes as lower-case hexadecimal digits, two for each.
pub open spec fn hex_of(bytes: Seq<u8>) -> Seq<char>
    decreases bytes.len(),
{
    if bytes.len() == 0 {
        seq![]
    } else {
        hex_of(bytes.drop_last()) + seq![
            hex_digit(bytes.last() as int / 16),
            hex_digit(bytes.last() as int % 16),
        ]
    }
}

/// The lower-case hexadecimal digit for `n`.
fn hex_char(n: u8) -> (r: char)
    requires
        n < 16,
    ensures
        r == hex_digit(n as int),
        '0' <= r <= '9' || 'a' <= r <= 'f',
{
    if n < 10 {
        (48u8 + n) as char
    } else {
        (87u8 + n) as char
    }
}

/// Writes bytes in lower-case hexadecimal.
pub fn hex_text(bytes: &Vec<u8>) -> (r: String)
    ensures
        r@ == hex_of(bytes@),
        r@.len() == 2 * bytes@.len(),
        is_lower_hex(r@),
{
    let mut out = String::new();
    let mut i: usize = 0;
    assert(bytes@.take(0) =~= seq![]);
    while i < bytes.len()
        invariant
            i <= bytes@.len(),
            out@ == hex_of(bytes@.take(i as int)),
            out@.len() == 2 * i,
            is_lower_hex(out@),
        decreases bytes@.len() - i,
    {
        let b: u8 = bytes[i];
        let ghost sofar = out@;
        out.push(hex_char(b / 16));
        out.push(hex_char(b % 16));
        proof {
            assert(bytes@.take(i + 1).drop_last() =~= bytes@.take(i as int));
            assert(bytes@.take(i + 1).last() == b);
            assert(out@ =~= sofar + seq![hex_digit(b as int / 16), hex_digit(b as int % 16)]);
            assert(is_lower_hex(out@)) by {
                assert forall|j: int| 0 <= j < out@.len() implies '0' <= #[trigger] out@[j] <= '9'
                    || 'a' <= out@[j] <= 'f' by {
                    if j < sofar.len() {
                        assert(out@[j] == sofar[j]);
                    }
                }
            }
        }
        i += 1;
    }
    assert(bytes@.take(bytes@.len() as int) =~= bytes@);
    out
}

/// `rand::thread_rng().fill_bytes` on [`TOKEN_BYTES`] bytes: as many bytes, of
/// which nothing else is known.
#[verifier::external_body]
fn random_token_bytes() -> (r: Vec<u8>)
    ensures
        r@.len() == TOKEN_BYTES,
{
    let mut bytes = vec![0u8; TOKEN_BYTES];
    rand::RngCore::fill_bytes(&mut rand::thread_rng(), &mut bytes);
    bytes
}

/// A fresh token.
pub fn mint_token() -> (r: String)
    ensures
        r@.len() == 2 * TOKEN_BYTES,
        is_lower_hex(r@),
{
    let bytes = random_token_bytes();
    hex_text(&bytes)
}

/// The handles that stand behind the tokens handed out.
pub struct HandleRegistry {
    by_token: Table<String, DelegationHandle>,
    order: Vec<String>,
}

/// The state of a [`HandleRegistry`].
#[verifier::ext_equal]
pub struct RegistryView {
    /// The handle behind each token.
    pub by_token: Map<Seq<char>, DelegationKey>,
    /// The tokens in the order in which they were handed out.
    pub order: Seq<Seq<char>>,
}

impl RegistryView {
    /// Every token is in the order, and the order is bounded.
    pub open spec fn wf(self) -> bool {
        &&& self.order.len() <= MAX_HANDLE_TOKENS
        &&& forall|t: Seq<char>|
            self.by_token.contains_key(t) ==> #[trigger] self.order.contains(t)
    }

    /// The state in which `token` stands for `key`: it is the newest, and when
    /// that is one too many, the oldest is gone.
    pub open spec fn inserted(self, token: Seq<char>, key: DelegationKey) -> RegistryView {
        let by_token = self.by_token.insert(token, key);
        let order = self.order.push(token);
        if order.len() > MAX_HANDLE_TOKENS {
            RegistryView { by_token: by_token.remove(order[0]), order: order.drop_first() }
        } else {
            RegistryView { by_token, order }
        }
    }
}

impl View for HandleRegistry {
    type V = RegistryView;

    closed spec fn view(&self) -> RegistryView {
        RegistryView {
            by_token: self.by_token@.map_values(|h: DelegationHandle| h@),
            order: self.order.deep_view(),
        }
    }
}

impl HandleRegistry {
    /// The table is well-formed, and so is the state that it stands for.
    pub closed spec fn wf(&self) -> bool {
        self.by_token.wf() && self@.wf()
    }

    /// A well-formed registry stands for a well-formed view.
    pub proof fn lemma_wf(&self)
        requires
            self.wf(),
        ensures
            self@.wf(),
    {
    }

    /// A registry without tokens.
    pub fn new() -> (r: Self)
        ensures
            r.wf(),
            r@ == (RegistryView { by_token: Map::empty(), order: seq![] }),
    {
        let r = HandleRegistry { by_token: Table::new(), order: Vec::new() };
        assert(r@.by_token =~= Map::empty());
        assert(r@.order =~= seq![]);
        r
    }

    /// How many tokens resolve.
    pub fn len(&self) -> (r: usize)
        requires
            self.wf(),
        ensures
            r == self@.by_token.dom().len(),
    {
        assert(self@.by_token.dom() =~= self.by_token@.dom());
        self.by_token.len()
    }

    /// The handle behind `token`, when it was handed out here and has not aged
    /// out.
    pub fn resolve(&self, token: &str) -> (r: Option<DelegationHandle>)
        requires
            self.wf(),
        ensures
            r is Some <==> self@.by_token.contains_key(token@),
            r matches Some(h) ==> h@ == self@.by_token[token@],
    {
        let t = token.to_owned();
        match self.by_token.get(&t) {
            Some(h) => Some(h.clone()),
            None => None,
        }
    }

    /// Lets `token` stand for `handle`.
    pub fn insert_token(&mut self, token: &str, handle: DelegationHandle)
        requires
            old(self).wf(),
        ensures
            final(self).wf(),
            final(self)@ == old(self)@.inserted(token@, handle@),
    {
        let ghost before = *self;
        self.by_token.insert(token.to_owned(), handle);
        self.order.push(token.to_owned());
        let ghost grown = *self;
        proof {
            assert(grown@.order =~= before@.order.push(token@));
            assert(grown@.by_token =~= before@.by_token.insert(token@, handle@));
        }
        if self.order.len() > MAX_HANDLE_TOKENS {
            let oldest = self.order.remove(0);
            let _ = self.by_token.remove(&oldest);
            proof {
                assert(oldest@ == grown@.order[0]);
                assert(self@.order =~= grown@.order.drop_first());
                assert(self@.by_token =~= grown@.by_token.remove(oldest@));
            }
        }
        proof {
            assert(self@ =~= before@.inserted(token@, handle@));
            assert forall|t: Seq<char>| self@.by_token.contains_key(t) implies
                #[trigger] self@.order.contains(t) by {
                lemma_inserted_order(before@, token@, handle@, t);
            }
        }
    }

    /// Hands out a fresh token for `handle`.
    pub fn insert(&mut self, handle: DelegationHandle) -> (r: String)
        requires
            old(self).wf(),
        ensures
            final(self).wf(),
            r@.len() == 2 * TOKEN_BYTES,
            is_lower_hex(r@),
            final(self)@ == old(self)@.inserted(r@, handle@),
    {
        let token = mint_token();
        self.insert_token(token.as_str(), handle);
        token
    }
}

proof fn lemma_inserted_order(s: RegistryView, token: Seq<char>, key: DelegationKey, t: Seq<char>)
    requires
        s.wf(),
        s.inserted(token, key).by_token.contains_key(t),
    ensures
        s.inserted(token, key).order.contains(t),
{
    let order = s.order.push(token);
    let n = s.order.len() as int;
    let i = if t == token {
        n
    } else {
        assert(s.order.contains(t));
        s.order.index_of(t)
    };
    assert(order[i] == t);
    if order.len() > MAX_HANDLE_TOKENS {
        assert(i > 0);
        assert(order.drop_first()[i - 1] == t);
    }
}

/// A fresh token resolves to the handle that it was handed out for.
pub proof fn law_fresh_token_resolves(s: RegistryView, token: Seq<char>, key: DelegationKey)
    requires
        s.wf(),
        !s.order.contains(token),
    ensures
        s.inserted(token, key).by_token.contains_key(token),
        s.inserted(token, key).by_token[token] == key,
{
    if s.order.len() > 0 {
        assert(s.order.push(token)[0] == s.order[0]);
        assert(s.order.contains(s.order[0]));
    }
}

/// A token that was never handed out does not resolve.
pub proof fn law_fabricated_token_does_not_resolve(s: RegistryView, token: Seq<char>)
    requires
        s.wf(),
        !s.order.contains(token),
    ensures
        !s.by_token.contains_key(token),
{
}

/// A full registry drops its oldest token and no other when a fresh one is
/// handed out; one that is not full drops none.
pub proof fn law_oldest_token_is_dropped(
    s: RegistryView,
    token: Seq<char>,
    key: DelegationKey,
    t: Seq<char>,
)
    requires
        s.wf(),
        s.order.no_duplicates(),
        !s.order.contains(token),
        s.by_token.contains_key(t),
    ensures
        s.inserted(token, key).wf(),
        s.inserted(token, key).by_token.contains_key(t) <==> !(s.order.len() == MAX_HANDLE_TOKENS
            && t == s.order[0]),
{
    assert forall|u: Seq<char>| s.inserted(token, key).by_token.contains_key(u) implies
        #[trigger] s.inserted(token, key).order.contains(u) by {
        lemma_inserted_order(s, token, key, u);
    }
    if s.order.len() > 0 {
        assert(s.order.push(token)[0] == s.order[0]);
    }
}

/// What is wrong with a target, if anything is.
pub open spec fn target_error(t: LocalTarget) -> Option<Seq<char>> {
    match (t.name, t.labels) {
        (Some(name), None) => if name@.len() == 0 {
            Some("target.name is empty"@)
        } else {
            None
        },
        (None, Some(labels)) => if labels@ == Map::<Seq<char>, Seq<char>>::empty() {
            Some("target.labels is empty"@)
        } else {
            None
        },
        (Some(_), Some(_)) => Some("target must set exactly one of name or labels, not both"@),
        (None, None) => Some("target must set exactly one of name or labels"@),
    }
}

/// Reads a target: a name or labels, not both, and not empty.
pub fn into_spawn_target(target: LocalTarget) -> (r: Result<SpawnTarget, String>)
    ensures
        r is Ok <==> target_error(target) is None,
        r matches Err(e) ==> target_error(target) == Some(e@),
        r matches Ok(SpawnTarget::Name(n)) ==> target.name == Some(n),
        r matches Ok(SpawnTarget::Labels(l)) ==> target.labels == Some(l),
{
    match (target.name, target.labels) {
        (Some(name), None) => {
            if name.as_str().is_empty() {
                Err("target.name is empty".to_owned())
            } else {
                Ok(SpawnTarget::by_name(name))
            }
        },
        (None, Some(labels)) => {
            if labels.len() == 0 {
                Err("target.labels is empty".to_owned())
            } else {
                Ok(SpawnTarget::by_labels(labels))
            }
        },
        (Some(_), Some(_)) => {
            Err("target must set exactly one of name or labels, not both".to_owned())
        },
        (None, None) => Err("target must set exactly one of name or labels".to_owned()),
    }
}

/// How a request is taken up.
pub enum DispatchStep {
    /// It is answered at once, and nothing reaches the control plane.
    Respond(LocalResponse),
    /// This command goes to the control plane.
    Submit(ClientCommand),
}

impl DispatchStep {
    /// Whether the request is answered at once with the error `message`.
    pub open spec fn is_error(self, message: Seq<char>) -> bool {
        self matches DispatchStep::Respond(r) && r.is_error(message)
    }
}

/// Why a spawn request is turned down before anything is sent, if it is: the
/// target is checked first, then the deadline, then the parent.
pub open spec fn spawn_error(
    target: LocalTarget,
    deadline_secs: u64,
    parent: Option<Seq<char>>,
    registry: RegistryView,
) -> Option<Seq<char>> {
    if target_error(target) is Some {
        target_error(target)
    } else if deadline_secs < MIN_DEADLINE_SECS {
        Some("deadline_secs must be at least 1"@)
    } else {
        match parent {
            Some(token) => if registry.by_token.contains_key(token) {
                None
            } else {
                Some("unknown parent handle token"@)
            },
            None => None,
        }
    }
}

/// The deadline that a spawn asks for: at most [`MAX_DEADLINE_SECS`] from now.
pub open spec fn clamped_deadline(deadline_secs: u64) -> u64 {
    if deadline_secs > MAX_DEADLINE_SECS {
        MAX_DEADLINE_SECS
    } else {
        deadline_secs
    }
}

/// What a request becomes: the command `reply` asks for, or an error.
pub open spec fn dispatched(
    request: LocalRequest,
    registry: RegistryView,
    now: Timestamp,
    reply: u64,
    step: DispatchStep,
) -> bool {
    match request {
        LocalRequest::Spawn { delegation_id, target, prompt, deadline_secs, parent } => {
            match spawn_error(target, deadline_secs, parent.deep_view(), registry) {
                Some(e) => step.is_error(e),
                None => {
                    &&& step matches DispatchStep::Submit(ClientCommand::Spawn { request, reply: t })
                    &&& t == reply
                    &&& request.delegation_id == delegation_id
                    &&& request.prompt == prompt
                    &&& request.target matches SpawnTarget::Name(n) ==> target.name == Some(n)
                    &&& request.target matches SpawnTarget::Labels(l) ==> target.labels == Some(l)
                    &&& request.deadline.nanos == now.nanos
                    &&& request.deadline.secs == now.secs + clamped_deadline(deadline_secs)
                    &&& match parent {
                        Some(token) => request.parent matches Some(h) && h@
                            == registry.by_token[token@],
                        None => request.parent is None,
                    }
                },
            }
        },
        LocalRequest::Await { handle } => if registry.by_token.contains_key(handle@) {
            step matches DispatchStep::Submit(ClientCommand::Await { handle: h, reply: t })
                && h@ == registry.by_token[handle@] && t == reply
        } else {
            step.is_error("unknown handle token"@)
        },
        LocalRequest::Check { handle } => if registry.by_token.contains_key(handle@) {
            step matches DispatchStep::Submit(ClientCommand::Check { handle: h, reply: t })
                && h@ == registry.by_token[handle@] && t == reply
        } else {
            step.is_error("unknown handle token"@)
        },
        LocalRequest::Cancel { handle, reason } => if registry.by_token.contains_key(handle@) {
            step matches DispatchStep::Submit(
                ClientCommand::Cancel { handle: h, reason: why, reply: t },
            ) && h@ == registry.by_token[handle@] && why == reason && t == reply
        } else {
            step.is_error("unknown handle token"@)
        },
        LocalRequest::ListAgents => step matches DispatchStep::Submit(
            ClientCommand::ListAgents { reply: t },
        ) && t == reply,
    }
}

/// Takes up one request at time `now`: it becomes a command whose caller is
/// `reply`, or it is turned down before anything is sent.
pub fn dispatch(
    request: LocalRequest,
    registry: &HandleRegistry,
    now: Timestamp,
    reply: u64,
) -> (r: DispatchStep)
    requires
        registry.wf(),
        now.secs <= i64::MAX - MAX_DEADLINE_SECS,
    ensures
        dispatched(request, registry@, now, reply, r),
{
    match request {
        LocalRequest::Spawn { delegation_id, target, prompt, deadline_secs, parent } => {
            let target = match into_spawn_target(target) {
                Ok(t) => t,
                Err(e) => {
                    return DispatchStep::Respond(LocalResponse::error(e));
                },
            };
            if deadline_secs < MIN_DEADLINE_SECS {
                return DispatchStep::Respond(
                    LocalResponse::error("deadline_secs must be at least 1".to_owned()),
                );
            }
            let clamped: u64 = if deadline_secs > MAX_DEADLINE_SECS {
                MAX_DEADLINE_SECS
            } else {
                deadline_secs
            };
            let parent = match parent {
                Some(token) => match registry.resolve(token.as_str()) {
                    Some(h) => Some(h),
                    None => {
                        return DispatchStep::Respond(
                            LocalResponse::error("unknown parent handle token".to_owned()),
                        );
                    },
                },
                None => None,
            };
            let deadline = Timestamp { secs: now.secs + clamped as i64, nanos: now.nanos };
            DispatchStep::Submit(
                ClientCommand::Spawn {
                    request: SpawnRequest { delegation_id, target, prompt, deadline, parent },
                    reply,
                },
            )
        },
        LocalRequest::Await { handle } => match registry.resolve(handle.as_str()) {
            Some(h) => DispatchStep::Submit(ClientCommand::Await { handle: h, reply }),
            None => DispatchStep::Respond(
                LocalResponse::error("unknown handle token".to_owned()),
            ),
        },
        LocalRequest::Check { handle } => match registry.resolve(handle.as_str()) {
            Some(h) => DispatchStep::Submit(ClientCommand::Check { handle: h, reply }),
            None => DispatchStep::Respond(
                LocalResponse::error("unknown handle token".to_owned()),
            ),
        },
        LocalRequest::Cancel { handle, reason } => match registry.resolve(handle.as_str()) {
            Some(h) => DispatchStep::Submit(ClientCommand::Cancel { handle: h, reason, reply }),
            None => DispatchStep::Respond(
                LocalResponse::error("unknown handle token".to_owned()),
            ),
        },
        LocalRequest::ListAgents => DispatchStep::Submit(ClientCommand::ListAgents { reply }),
    }
}

/// What came back for a submitted command.
pub enum Submission {
    /// The client does not run, so the command was not taken.
    NotTaken,
    /// The client went away without an answer.
    Dropped,
    /// The client answered.
    Answered(Answer),
}

/// The word for a role.
pub open spec fn agent_type_text(t: AgentType) -> Seq<char> {
    match t {
        AgentType::Primary => "primary"@,
        AgentType::Worker => "worker"@,
    }
}

/// Whether `l` shows the runtime `a`.
pub open spec fn shows_agent(l: LocalAgent, a: AgentSummary) -> bool {
    &&& l.name == a.name
    &&& l.agent_type@ == agent_type_text(a.agent_type)
    &&& l.instance_id == a.instance_id
    &&& l.labels == a.labels
    &&& l.active_sessions == a.active_sessions
    &&& l.max_delegated_sessions == a.max_delegated_sessions
}

/// One runtime as a local caller sees it.
pub fn local_agent(a: AgentSummary) -> (r: LocalAgent)
    ensures
        shows_agent(r, a),
{
    let agent_type = match a.agent_type {
        AgentType::Primary => "primary",
        AgentType::Worker => "worker",
    };
    LocalAgent {
        name: a.name,
        agent_type: agent_type.to_owned(),
        instance_id: a.instance_id,
        labels: a.labels,
        active_sessions: a.active_sessions,
        max_delegated_sessions: a.max_delegated_sessions,
    }
}

/// The roster as a local caller sees it, in the same order.
pub fn local_agents(agents: Vec<AgentSummary>) -> (r: Vec<LocalAgent>)
    ensures
        r@.len() == agents@.len(),
        forall|i: int| 0 <= i < r@.len() ==> shows_agent(#[trigger] r@[i], agents@[i]),
{
    let ghost all = agents@;
    let mut rest = agents;
    let mut reversed: Vec<LocalAgent> = Vec::new();
    while rest.len() > 0
        invariant
            rest@.len() + reversed@.len() == all.len(),
            rest@ == all.take(rest@.len() as int),
            forall|i: int|
                0 <= i < reversed@.len() ==> shows_agent(
                    #[trigger] reversed@[i],
                    all[all.len() - 1 - i],
                ),
        decreases rest@.len(),
    {
        let ghost n = rest@.len();
        match rest.pop() {
            Some(a) => {
                assert(a == all[n - 1]);
                reversed.push(local_agent(a));
                assert(rest@ =~= all.take(rest@.len() as int));
            },
            None => {},
        }
    }
    let mut out: Vec<LocalAgent> = Vec::new();
    while reversed.len() > 0
        invariant
            out@.len() + reversed@.len() == all.len(),
            forall|i: int|
                0 <= i < reversed@.len() ==> shows_agent(
                    #[trigger] reversed@[i],
                    all[all.len() - 1 - i],
                ),
            forall|i: int| 0 <= i < out@.len() ==> shows_agent(#[trigger] out@[i], all[i]),
        decreases reversed@.len(),
    {
        match reversed.pop() {
            Some(l) => {
                out.push(l);
            },
            None => {},
        }
    }
    out
}

/// The response that reports the end of a delegation.
pub fn terminal_response(outcome: DelegationOutcome) -> (r: LocalResponse)
    ensures
        r.is_terminal(outcome@),
{
    LocalResponse::Terminal {
        status: DelegationStatusWire::from_status(outcome.status),
        result: outcome.result,
        error: outcome.error,
    }
}

/// Whether `r` is the response to what came back for a command that hands out
/// no token.
pub open spec fn responds(s: Submission, r: LocalResponse) -> bool {
    match s {
        Submission::NotTaken => r.is_error(command_error_text(CommandErrorView::NotConnected)),
        Submission::Dropped => r.is_error("control-plane client dropped the reply"@),
        Submission::Answered(Answer::Spawn { result, .. }) => result matches Err(e) && r.is_error(
            command_error_text(e@),
        ),
        Submission::Answered(Answer::Await { result, .. }) => match result {
            Ok(o) => r.is_terminal(o@),
            Err(e) => r.is_error(command_error_text(e@)),
        },
        Submission::Answered(Answer::Check { result, .. }) => match result {
            Ok(s) => match s@ {
                LifecycleView::Pending => r is Pending,
                LifecycleView::Running { assigned_to } => r matches LocalResponse::Running {
                    assigned_to: a,
                } && a@ == assigned_to,
                LifecycleView::Terminal(o) => r.is_terminal(o),
            },
            Err(e) => r.is_error(command_error_text(e@)),
        },
        Submission::Answered(Answer::Cancel { result, .. }) => match result {
            Ok(_) => r is Cancelled,
            Err(e) => r.is_error(command_error_text(e@)),
        },
        Submission::Answered(Answer::ListAgents { result, .. }) => match result {
            Ok(agents) => r matches LocalResponse::Agents { agents: l } && l@.len() == agents@.len()
                && forall|i: int|
                0 <= i < l@.len() ==> shows_agent(#[trigger] l@[i], agents@[i]),
            Err(e) => r.is_error(command_error_text(e@)),
        },
    }
}

/// Answers a request from what came back for its command. A successful spawn
/// hands out a fresh token; nothing else changes the registry.
pub fn respond(s: Submission, registry: &mut HandleRegistry) -> (r: LocalResponse)
    requires
        old(registry).wf(),
    ensures
        final(registry).wf(),
        match s {
            Submission::Answered(Answer::Spawn { result: Ok(ack), .. }) => {
                &&& r matches LocalResponse::Spawned { handle, assigned_to }
                &&& assigned_to == ack.assigned_to
                &&& handle@.len() == 2 * TOKEN_BYTES
                &&& is_lower_hex(handle@)
                &&& final(registry)@ == old(registry)@.inserted(handle@, ack.handle@)
            },
            _ => responds(s, r) && *final(registry) == *old(registry),
        },
{
    match s {
        Submission::NotTaken => LocalResponse::error(CommandError::NotConnected.message()),
        Submission::Dropped => LocalResponse::error(
            "control-plane client dropped the reply".to_owned(),
        ),
        Submission::Answered(Answer::Spawn { result, .. }) => match result {
            Ok(ack) => {
                let token = registry.insert(ack.handle);
                LocalResponse::Spawned { handle: token, assigned_to: ack.assigned_to }
            },
            Err(e) => LocalResponse::error(e.message()),
        },
        Submission::Answered(Answer::Await { result, .. }) => match result {
            Ok(outcome) => terminal_response(outcome),
            Err(e) => LocalResponse::error(e.message()),
        },
        Submission::Answered(Answer::Check { result, .. }) => match result {
            Ok(DelegationSnapshot::Pending) => LocalResponse::Pending,
            Ok(DelegationSnapshot::Running { assigned_to }) => LocalResponse::Running { assigned_to },
            Ok(DelegationSnapshot::Terminal(outcome)) => terminal_response(outcome),
            Err(e) => LocalResponse::error(e.message()),
        },
        Submission::Answered(Answer::Cancel { result, .. }) => match result {
            Ok(()) => LocalResponse::Cancelled,
            Err(e) => LocalResponse::error(e.message()),
        },
        Submission::Answered(Answer::ListAgents { result, .. }) => match result {
            Ok(agents) => LocalResponse::Agents { agents: local_agents(agents) },
            Err(e) => LocalResponse::error(e.message()),
        },
    }
}

/// The token that a request names.
pub open spec fn named_token(request: LocalRequest) -> Option<Seq<char>> {
    match request {
        LocalRequest::Spawn { parent, .. } => parent.deep_view(),
        LocalRequest::Await { handle } => Some(handle@),
        LocalRequest::Check { handle } => Some(handle@),
        LocalRequest::Cancel { handle, .. } => Some(handle@),
        LocalRequest::ListAgents => None,
    }
}

/// No request that names a token which was never handed out reaches the
/// control plane.
pub proof fn law_unknown_token_never_reaches_the_control_plane(
    request: LocalRequest,
    registry: RegistryView,
    now: Timestamp,
    reply: u64,
    step: DispatchStep,
)
    requires
        registry.wf(),
        named_token(request) matches Some(token) && !registry.order.contains(token),
        dispatched(request, registry, now, reply, step),
    ensures
        step is Respond,
{
    law_fabricated_token_does_not_resolve(registry, named_token(request)->0);
}

/// No spawn reaches the control plane with a deadline that has passed or lies
/// further away than [`MAX_DEADLINE_SECS`].
pub proof fn law_spawn_deadline_is_bounded(
    request: LocalRequest,
    registry: RegistryView,
    now: Timestamp,
    reply: u64,
    step: DispatchStep,
)
    requires
        request is Spawn,
        dispatched(request, registry, now, reply, step),
    ensures
        step matches DispatchStep::Submit(ClientCommand::Spawn { request: sent, .. })
            ==> now.secs + MIN_DEADLINE_SECS <= sent.deadline.secs <= now.secs + MAX_DEADLINE_SECS,
{
}

/// Where a local caller finds the socket.
pub struct LocalClient {
    path: String,
}

impl LocalClient {
    /// The socket path.
    pub closed spec fn path(&self) -> Seq<char> {
        self.path@
    }

    /// A client of the socket at `path`.
    pub fn new(path: String) -> (r: Self)
        ensures
            r.path() == path@,
    {
        LocalClient { path }
    }

    /// A client of the default socket.
    pub fn from_default(explicit: Option<String>, home: Option<String>) -> (r: Result<Self, String>)
        ensures
            explicit matches Some(p) ==> r matches Ok(c) && c.path() == p@,
            explicit is None ==> match home {
                Some(h) => r matches Ok(c) && c.path() == path_join(
                    path_join(h@, ".openab"@),
                    "agent.sock"@,
                ),
                None => r matches Err(e) && e@ == "neither OPENAB_AGENT_SOCKET nor HOME is set"@,
            },
    {
        match default_socket_path(explicit, home) {
            Ok(path) => Ok(LocalClient { path }),
            Err(e) => Err(e),
        }
    }

    /// The socket path.
    pub fn socket_path(&self) -> (r: &str)
        ensures
            r@ == self.path(),
    {
        self.path.as_str()
    }
}

/// A caller is told the end of a delegation as it is: under the word for its
/// status, with its result and its error.
pub proof fn law_end_is_told_as_it_is(r: LocalResponse, o: OutcomeView)
    requires
        r.is_terminal(o),
    ensures
        r matches LocalResponse::Terminal { status, result, error } && wire_word(status)
            == wire_word(wire_status(o.status)) && status == wire_status(o.status)
            && result.deep_view() == o.result && error.deep_view() == o.error,
{
}

/// Whoever waits is told the outcome, whoever looks is told where the
/// delegation stands, whoever cancels that it is cancelled, and an error is told
/// by its text, whatever was asked for.
pub proof fn law_answers_are_told(
    reply: u64,
    outcome: DelegationOutcome,
    snapshot: DelegationSnapshot,
    e: CommandError,
    r: LocalResponse,
)
    ensures
        responds(Submission::Answered(Answer::Await { reply, result: Ok(outcome) }), r) ==> (
        r matches LocalResponse::Terminal { status, result, error } && status == wire_status(
            outcome.status,
        ) && result.deep_view() == outcome.result.deep_view() && error.deep_view()
            == outcome.error.deep_view()),
        responds(Submission::Answered(Answer::Check { reply, result: Ok(snapshot) }), r)
            ==> match snapshot {
            DelegationSnapshot::Pending => r is Pending,
            DelegationSnapshot::Running { assigned_to } => r matches LocalResponse::Running {
                assigned_to: a,
            } && a@ == assigned_to@,
            DelegationSnapshot::Terminal(o) => r matches LocalResponse::Terminal { status, .. }
                && status == wire_status(o.status),
        },
        responds(Submission::Answered(Answer::Cancel { reply, result: Ok(()) }), r) ==> r is Cancelled,
        responds(Submission::Answered(Answer::Spawn { reply, result: Err(e) }), r) || responds(
            Submission::Answered(Answer::Await { reply, result: Err(e) }),
            r,
        ) || responds(Submission::Answered(Answer::Check { reply, result: Err(e) }), r) || responds(
            Submission::Answered(Answer::Cancel { reply, result: Err(e) }),
            r,
        ) || responds(Submission::Answered(Answer::ListAgents { reply, result: Err(e) }), r) ==> (
        r matches LocalResponse::Error { message } && message@ == command_error_text(e@)),
        responds(Submission::NotTaken, r) || responds(Submission::Dropped, r) ==> r is Error,
{
}

/// A target is in order exactly where one of its two fields is set, and that one
/// is not empty.
pub proof fn law_target_names_one_thing(t: LocalTarget)
    ensures
        target_error(t) is None <==> (t.name is Some) != (t.labels is Some) && (
        t.name matches Some(n) ==> n@.len() > 0) && (t.labels matches Some(l) ==> l@ != Map::<
            Seq<char>,
            Seq<char>,
        >::empty()),
{
}

/// A request about a delegation goes out as a command of its own kind, about the
/// delegation that its token stands for, and under the caller's own ticket.
pub proof fn law_request_is_about_its_handle(
    request: LocalRequest,
    registry: RegistryView,
    now: Timestamp,
    reply: u64,
    step: DispatchStep,
    token: Seq<char>,
)
    requires
        named_token(request) == Some(token),
        registry.by_token.contains_key(token),
        dispatched(request, registry, now, reply, step),
    ensures
        request is Await ==> (step matches DispatchStep::Submit(
            ClientCommand::Await { handle, reply: t },
        ) && handle@ == registry.by_token[token] && t == reply),
        request is Check ==> (step matches DispatchStep::Submit(
            ClientCommand::Check { handle, reply: t },
        ) && handle@ == registry.by_token[token] && t == reply),
        request matches LocalRequest::Cancel { reason: said, .. } ==> (step matches
            DispatchStep::Submit(ClientCommand::Cancel { handle, reason, reply: t }) && handle@
            == registry.by_token[token] && reason == said && t == reply),
        request is Spawn ==> (step matches DispatchStep::Submit(
            ClientCommand::Spawn { request: sent, reply: t },
        ) ==> (sent.parent matches Some(h) && h@ == registry.by_token[token]) && t == reply),
{
}

/// A spawn that is in order goes out as it was asked for: the same id, prompt
/// and target, with the deadline that was asked for where that is allowed, and
/// the furthest that is allowed where it is not.
pub proof fn law_spawn_goes_out_as_asked(
    delegation_id: String,
    target: LocalTarget,
    prompt: String,
    deadline_secs: u64,
    registry: RegistryView,
    now: Timestamp,
    reply: u64,
    step: DispatchStep,
)
    requires
        target_error(target) is None,
        deadline_secs >= MIN_DEADLINE_SECS,
        dispatched(
            LocalRequest::Spawn { delegation_id, target, prompt, deadline_secs, parent: None },
            registry,
            now,
            reply,
            step,
        ),
    ensures
        step matches DispatchStep::Submit(ClientCommand::Spawn { request, reply: t }) && {
            &&& t == reply
            &&& request.delegation_id == delegation_id
            &&& request.prompt == prompt
            &&& request.parent is None
            &&& target.name matches Some(n) ==> request.target == SpawnTarget::Name(n)
            &&& target.labels matches Some(l) ==> request.target == SpawnTarget::Labels(l)
            &&& deadline_secs <= MAX_DEADLINE_SECS ==> request.deadline.total_nanos()
                == now.total_nanos() + deadline_secs * 1_000_000_000
            &&& deadline_secs > MAX_DEADLINE_SECS ==> request.deadline.total_nanos()
                == now.total_nanos() + MAX_DEADLINE_SECS * 1_000_000_000
        },
{
}

/// The digits of bytes are those of the first bytes and then those of the rest,
/// two for each byte.
pub proof fn law_hex_follows_the_bytes(a: Seq<u8>, b: Seq<u8>)
    ensures
        hex_of(a + b) == hex_of(a) + hex_of(b),
        hex_of(a).len() == 2 * a.len(),
    decreases b.len(), a.len(),
{
    if a.len() > 0 {
        law_hex_follows_the_bytes(a.drop_last(), seq![]);
    }
    if b.len() == 0 {
        assert(a + b =~= a);
        assert(hex_of(a) + Seq::<char>::empty() =~= hex_of(a));
    } else {
        law_hex_follows_the_bytes(a, b.drop_last());
        assert((a + b).drop_last() =~= a + b.drop_last());
        assert((a + b).last() == b.last());
        assert(hex_of(a + b) =~= hex_of(a) + hex_of(b));
    }
}

/// Different bytes have different digits.
pub proof fn law_hex_tells_bytes_apart(a: Seq<u8>, b: Seq<u8>)
    requires
        a != b,
    ensures
        hex_of(a) != hex_of(b),
    decreases a.len(),
{
    law_hex_follows_the_bytes(a, seq![]);
    law_hex_follows_the_bytes(b, seq![]);
    if a.len() == b.len() && a.len() > 0 {
        let (x, y) = (hex_of(a), hex_of(b));
        let n = x.len() as int;
        if x == y {
            assert(x.take(n - 2) =~= hex_of(a.drop_last()));
            assert(y.take(n - 2) =~= hex_of(b.drop_last()));
            let (p, q) = (a.last() as int, b.last() as int);
            assert(x[n - 2] == hex_digit(p / 16) && y[n - 2] == hex_digit(q / 16));
            assert(x[n - 1] == hex_digit(p % 16) && y[n - 1] == hex_digit(q % 16));
            lemma_hex_digits_differ(p / 16, q / 16);
            lemma_hex_digits_differ(p % 16, q % 16);
            assert(p == q);
            if a.drop_last() != b.drop_last() {
                law_hex_tells_bytes_apart(a.drop_last(), b.drop_last());
            } else {
                assert(a =~= a.drop_last().push(a.last()));
                assert(b =~= b.drop_last().push(b.last()));
            }
        }
    } else if a.len() == b.len() {
        assert(a =~= b);
    }
}

proof fn lemma_hex_digits_differ(m: int, n: int)
    requires
        0 <= m < 16,
        0 <= n < 16,
    ensures
        hex_digit(m) == hex_digit(n) <==> m == n,
{
}

/// A runtime is shown under its own name and instance, with its labels, its load
/// and its capacity, and the two roles are told apart.
pub proof fn law_roster_shows_its_runtimes(l: LocalAgent, a: AgentSummary)
    requires
        shows_agent(l, a),
    ensures
        l.name@ == a.name@ && l.instance_id@ == a.instance_id@ && l.labels@ == a.labels@,
        l.active_sessions == a.active_sessions,
        l.max_delegated_sessions == a.max_delegated_sessions,
        a.agent_type is Primary <==> l.agent_type@ == "primary"@,
        a.agent_type is Worker <==> l.agent_type@ == "worker"@,
{
    reveal_strlit("primary");
    reveal_strlit("worker");
    assert("primary"@.len() == 7 && "worker"@.len() == 6);
}

} // verus!
