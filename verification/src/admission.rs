//! Shared, transport-neutral ingress into the turn dispatcher.
//!
//! An acknowledgement means that the dispatcher accepted the event. It does not
//! wait for the turn.

use crate::adapter::ChannelRef;
use crate::adapter::ChannelView;
use crate::proto::copy_text;
use crate::text::decimal;
use crate::text::decimal_text;
use crate::text::holds;
use crate::text::lemma_ends_in;
use crate::text::lemma_joins;
use crate::text::same;
use vstd::prelude::*;
use vstd::string::*;

verus! {

/// What a scheduler decides about the reach of one piece of native work.
#[derive(Debug, PartialEq, Eq)]
pub struct NativeScopePolicy {
    pub scope_mode: String,
    /// `READ_ONLY` or `MODIFY_ALLOWED`.
    pub write_policy: String,
    pub historical_context_policy: String,
}

/// What a [`NativeScopePolicy`] says.
#[verifier::ext_equal]
pub struct ScopeView {
    pub scope_mode: Seq<char>,
    pub write_policy: Seq<char>,
    pub historical_context_policy: Seq<char>,
}

impl View for NativeScopePolicy {
    type V = ScopeView;

    open spec fn view(&self) -> ScopeView {
        ScopeView {
            scope_mode: self.scope_mode@,
            write_policy: self.write_policy@,
            historical_context_policy: self.historical_context_policy@,
        }
    }
}

impl DeepView for NativeScopePolicy {
    type V = ScopeView;

    open spec fn deep_view(&self) -> ScopeView {
        self@
    }
}

impl Clone for NativeScopePolicy {
    fn clone(&self) -> (r: Self)
        ensures
            r@ == self@,
    {
        NativeScopePolicy {
            scope_mode: self.scope_mode.clone(),
            write_policy: self.write_policy.clone(),
            historical_context_policy: self.historical_context_policy.clone(),
        }
    }
}

impl NativeScopePolicy {
    pub const READ_ONLY: &'static str = "READ_ONLY";

    pub const MODIFY_ALLOWED: &'static str = "MODIFY_ALLOWED";

    /// Whether the policy restricts the work to reading.
    pub fn is_read_only(&self) -> (r: bool)
        ensures
            r == (self@.write_policy == "READ_ONLY"@),
    {
        same(self.write_policy.as_str(), "READ_ONLY")
    }
}

impl Default for NativeScopePolicy {
    /// The policy of work that declares none: mutation is allowed.
    fn default() -> (r: Self)
        ensures
            r@ == (ScopeView {
                scope_mode: "BOUNDED"@,
                write_policy: "MODIFY_ALLOWED"@,
                historical_context_policy: "ADVISORY_ONLY"@,
            }),
    {
        NativeScopePolicy {
            scope_mode: "BOUNDED".to_owned(),
            write_policy: "MODIFY_ALLOWED".to_owned(),
            historical_context_policy: "ADVISORY_ONLY".to_owned(),
        }
    }
}

/// The authority under which one piece of native work runs.
#[derive(Debug, PartialEq, Eq)]
pub struct NativeWorkflowMetadata {
    pub dispatch_id: String,
    /// Identity of the conversation; not the key of a session.
    pub conversation_key: String,
    pub workflow_run_id: String,
    pub task_id: String,
    pub role: String,
    pub agent: String,
    pub lease_id: String,
    pub lease_generation: u64,
    pub expected_revision: u64,
    pub language: Option<String>,
    pub project_id: Option<String>,
    pub project_root: Option<String>,
    /// Key of the session that this work runs in, and no other.
    pub native_execution_session_key: Option<String>,
    /// How the work came in; never derived from anything else.
    pub transport: Option<String>,
    /// Where what it says is delivered.
    pub delivery_destination: Option<ChannelRef>,
    pub scope_policy: Option<NativeScopePolicy>,
}

/// What a [`NativeWorkflowMetadata`] says.
#[verifier::ext_equal]
pub struct MetadataView {
    pub dispatch_id: Seq<char>,
    pub conversation_key: Seq<char>,
    pub workflow_run_id: Seq<char>,
    pub task_id: Seq<char>,
    pub role: Seq<char>,
    pub agent: Seq<char>,
    pub lease_id: Seq<char>,
    pub lease_generation: u64,
    pub expected_revision: u64,
    pub language: Option<Seq<char>>,
    pub project_id: Option<Seq<char>>,
    pub project_root: Option<Seq<char>>,
    pub native_execution_session_key: Option<Seq<char>>,
    pub transport: Option<Seq<char>>,
    pub delivery_destination: Option<ChannelView>,
    pub scope_policy: Option<ScopeView>,
}

/// What an optional destination says.
pub open spec fn destination_view(d: Option<ChannelRef>) -> Option<ChannelView> {
    match d {
        Some(c) => Some(c@),
        None => None,
    }
}

impl View for NativeWorkflowMetadata {
    type V = MetadataView;

    open spec fn view(&self) -> MetadataView {
        MetadataView {
            dispatch_id: self.dispatch_id@,
            conversation_key: self.conversation_key@,
            workflow_run_id: self.workflow_run_id@,
            task_id: self.task_id@,
            role: self.role@,
            agent: self.agent@,
            lease_id: self.lease_id@,
            lease_generation: self.lease_generation,
            expected_revision: self.expected_revision,
            language: self.language.deep_view(),
            project_id: self.project_id.deep_view(),
            project_root: self.project_root.deep_view(),
            native_execution_session_key: self.native_execution_session_key.deep_view(),
            transport: self.transport.deep_view(),
            delivery_destination: destination_view(self.delivery_destination),
            scope_policy: self.scope_policy.deep_view(),
        }
    }
}

impl DeepView for NativeWorkflowMetadata {
    type V = MetadataView;

    open spec fn deep_view(&self) -> MetadataView {
        self@
    }
}

impl Clone for NativeWorkflowMetadata {
    fn clone(&self) -> (r: Self)
        ensures
            r@ == self@,
    {
        NativeWorkflowMetadata {
            dispatch_id: self.dispatch_id.clone(),
            conversation_key: self.conversation_key.clone(),
            workflow_run_id: self.workflow_run_id.clone(),
            task_id: self.task_id.clone(),
            role: self.role.clone(),
            agent: self.agent.clone(),
            lease_id: self.lease_id.clone(),
            lease_generation: self.lease_generation,
            expected_revision: self.expected_revision,
            language: copy_text(&self.language),
            project_id: copy_text(&self.project_id),
            project_root: copy_text(&self.project_root),
            native_execution_session_key: copy_text(&self.native_execution_session_key),
            transport: copy_text(&self.transport),
            delivery_destination: match &self.delivery_destination {
                Some(c) => Some(c.clone()),
                None => None,
            },
            scope_policy: match &self.scope_policy {
                Some(p) => Some(p.clone()),
                None => None,
            },
        }
    }
}

/// The scope of work that declares none.
pub const UNSET_SCOPE: &'static str = "NATIVE SCOPE (structured)\n\
scope_mode: <unset — legacy caller>\n\
write_policy: <unset — defaults to MODIFY_ALLOWED; no ACP tool-permission gate>\n\
historical_context_policy: <unset — defaults to ADVISORY_ONLY>\n";

/// What an agent is told of work that may only read.
pub const READ_ONLY_DIRECTIVE: &'static str = "WRITE POLICY DIRECTIVE\n\
This native dispatch declares write_policy=READ_ONLY. The ACP layer MUST\n\
deny any tool invocation whose title or kind matches: Edit, Write,\n\
NotebookEdit, MultiEdit, apply_patch, or Bash. Deterministic denial is\n\
applied at the session/request_permission seam BEFORE the tool can\n\
mutate the filesystem. Do NOT attempt to bypass this with shell\n\
commands, alternate tool names, or partial edits — every known\n\
write-capable tool name is on the deny-list.\n";

/// What an agent is told of work that may write.
pub const MODIFY_ALLOWED_DIRECTIVE: &'static str = "WRITE POLICY DIRECTIVE\n\
This native dispatch declares write_policy=MODIFY_ALLOWED. Mutation is\n\
permitted subject to the rest of this authority block and the canonical\n\
role + scope. Do NOT expand the scope, reopen historical unfinished\n\
work, or execute historical next_action values.\n";

/// What an agent is told of work that declares no policy.
pub const UNSET_DIRECTIVE: &'static str = "WRITE POLICY DIRECTIVE\n\
This native dispatch did not declare a structured scope policy (legacy\n\
caller). Mutation remains permitted subject to the rest of this\n\
authority block. The ACP tool-permission gate is NOT active for this\n\
turn.\n";

/// How the authority of native work starts.
pub const AUTHORITY_HEAD: &'static str = "<native_work_authority>\n\
NATIVE WORK AUTHORITY\n\
This turn was admitted by AAP Phase-5 fenced execution.\n\
Authoritative:\n\
dispatch_id: ";

/// What comes before the name of an agent's own policy file.
pub const PRECEDENCE_RULES: &'static str = "\n\
PRECEDENCE HIERARCHY (binding for this turn)\n\
1. Current native work authority and structured native scope (this block).\n\
2. The AAP Task snapshot embedded in the WORKFLOW_DISPATCH envelope\n\
(dispatch_id, workflow_run_id, task_id, role, agent,\n\
requested_work, remaining_work, next_action, write_policy).\n\
3. Repository policy — AGENTS.md and ";

/// What comes between that name and the name of an agent's product.
pub const MEMORY_RULES: &'static str = ".\n\
4. Persistent / auto-memory and historical task context — ADVISORY ONLY.\n\
Persistent memory (";

/// What memory may not do, and how a verdict is given.
pub const VERDICT_RULES: &'static str = " auto-memory, prior reports, historical\n\
task context, MEMORY.md, legacy workflow_assignment projections) is\n\
advisory only for this turn. It MUST NOT:\n\
- redefine the current task or workflow identity\n\
- change the AAP Task snapshot's requested_work\n\
- expand the current scope\n\
- reopen historical unfinished work whose remaining_work is now empty\n\
- override the structured write_policy\n\
- execute historical next_action values\n\
- override explicit current-turn restrictions\n\
When persistent memory conflicts with the current native authority or\n\
the AAP Task snapshot, the conflicting memory MUST be ignored for this\n\
turn. Legacy .agents/workflow_assignment.json and\n\
.openab/workflow_assignment.json files are non-authoritative projections.\n\
AGENTS.md remains the policy and workflow-rules authority. Follow the\n\
native role and assignment for this turn.\n\
For a VERIFIER or FINAL_REVIEWER terminal verdict, emit exactly one standalone canonical \
line: VERIFIER_PASS, VERIFIER_FAIL, FINAL_REVIEWER_PASS, or FINAL_REVIEWER_FAIL, matching \
your assigned role. ACP end_turn alone is not a workflow verdict.\n\
</native_work_authority>";

/// What takes precedence over what for an agent whose product is called
/// `product` and reads its policy from `policy_file`, and how a verdict is given.
pub open spec fn rules(policy_file: Seq<char>, product: Seq<char>) -> Seq<char> {
    PRECEDENCE_RULES@ + policy_file + MEMORY_RULES@ + product + VERDICT_RULES@
}

/// The scope of a piece of work, as an agent reads it.
pub open spec fn scope_block(p: Option<ScopeView>) -> Seq<char> {
    match p {
        Some(s) => "NATIVE SCOPE (structured)\nscope_mode: "@ + s.scope_mode
            + "\nwrite_policy: "@ + s.write_policy + "\nhistorical_context_policy: "@
            + s.historical_context_policy + "\n"@,
        None => UNSET_SCOPE@,
    }
}

/// What an agent is told of writing.
pub open spec fn directive(p: Option<ScopeView>) -> Seq<char> {
    match p {
        Some(s) => if s.write_policy == "READ_ONLY"@ {
            READ_ONLY_DIRECTIVE@
        } else {
            MODIFY_ALLOWED_DIRECTIVE@
        },
        None => UNSET_DIRECTIVE@,
    }
}

/// Who does what, under which lease.
pub open spec fn identity_block(m: MetadataView) -> Seq<char> {
    AUTHORITY_HEAD@ + m.dispatch_id + "\nworkflow_run_id: "@ + m.workflow_run_id
        + "\ntask_id: "@ + m.task_id + "\nrole: "@ + m.role + "\nagent: "@ + m.agent
        + "\nlease_id: "@ + m.lease_id + "\nlease_generation: "@ + decimal(
        m.lease_generation as nat,
    ) + "\nexpected_revision: "@ + decimal(m.expected_revision as nat) + "\nlanguage: "@
        + match m.language {
        Some(l) => l,
        None => "<none>"@,
    } + "\n"@
}

/// The authority of native work, as an agent reads it whose product is called
/// `product` and reads its policy from `policy_file`.
pub open spec fn authority(
    m: MetadataView,
    policy_file: Seq<char>,
    product: Seq<char>,
) -> Seq<char> {
    identity_block(m) + scope_block(m.scope_policy) + "\n"@ + directive(m.scope_policy)
        + rules(policy_file, product)
}

/// The authority of native work, as an agent reads it: the work's identity, its
/// scope, what it may write, and that nothing remembered overrides it.
///
/// The block names the product that the deployment runs and the file from which
/// that product reads its policy. They are facts of the deployment and the same
/// for all its work: no part of the metadata, and nothing to be chosen for a
/// turn.
pub fn render_native_workflow_authority(
    metadata: &NativeWorkflowMetadata,
    policy_file: &str,
    product: &str,
) -> (r: String)
    ensures
        r@ == authority(metadata@, policy_file@, product@),
{
    let generation = decimal_text(metadata.lease_generation);
    let revision = decimal_text(metadata.expected_revision);
    let mut t = AUTHORITY_HEAD.to_owned();
    t.append(metadata.dispatch_id.as_str());
    t.append("\nworkflow_run_id: ");
    t.append(metadata.workflow_run_id.as_str());
    t.append("\ntask_id: ");
    t.append(metadata.task_id.as_str());
    t.append("\nrole: ");
    t.append(metadata.role.as_str());
    t.append("\nagent: ");
    t.append(metadata.agent.as_str());
    t.append("\nlease_id: ");
    t.append(metadata.lease_id.as_str());
    t.append("\nlease_generation: ");
    t.append(generation.as_str());
    t.append("\nexpected_revision: ");
    t.append(revision.as_str());
    t.append("\nlanguage: ");
    match &metadata.language {
        Some(l) => t.append(l.as_str()),
        None => t.append("<none>"),
    }
    t.append("\n");
    assert(t@ == identity_block(metadata@));
    let mut scope = String::new();
    match &metadata.scope_policy {
        Some(p) => {
            scope.append("NATIVE SCOPE (structured)\nscope_mode: ");
            assert(scope@ =~= "NATIVE SCOPE (structured)\nscope_mode: "@);
            scope.append(p.scope_mode.as_str());
            scope.append("\nwrite_policy: ");
            scope.append(p.write_policy.as_str());
            scope.append("\nhistorical_context_policy: ");
            scope.append(p.historical_context_policy.as_str());
            scope.append("\n");
        },
        None => {
            scope.append(UNSET_SCOPE);
            assert(scope@ =~= UNSET_SCOPE@);
        },
    }
    t.append(scope.as_str());
    t.append("\n");
    match &metadata.scope_policy {
        Some(p) => {
            if p.is_read_only() {
                t.append(READ_ONLY_DIRECTIVE);
            } else {
                t.append(MODIFY_ALLOWED_DIRECTIVE);
            }
        },
        None => t.append(UNSET_DIRECTIVE),
    }
    let ghost front = t@;
    t.append(PRECEDENCE_RULES);
    t.append(policy_file);
    t.append(MEMORY_RULES);
    t.append(product);
    t.append(VERDICT_RULES);
    assert(t@ =~= front + rules(policy_file@, product@));
    t
}

proof fn lemma_holds_middle(a: Seq<char>, b: Seq<char>, c: Seq<char>)
    ensures
        holds(a + b + c, b),
{
    let n = a.len() as int;
    assert((a + b + c).subrange(n, n + b.len()) =~= b);
}

/// Whatever the work, the agent is told the rules of precedence, and what its
/// policy says of writing: a read-only policy is never left out.
pub proof fn law_policy_is_always_rendered(
    m: MetadataView,
    policy_file: Seq<char>,
    product: Seq<char>,
)
    ensures
        holds(authority(m, policy_file, product), directive(m.scope_policy)),
        holds(authority(m, policy_file, product), rules(policy_file, product)),
        (m.scope_policy matches Some(p) && p.write_policy == "READ_ONLY"@) ==> holds(
            authority(m, policy_file, product),
            READ_ONLY_DIRECTIVE@,
        ),
{
    let front = identity_block(m) + scope_block(m.scope_policy) + "\n"@;
    let all = rules(policy_file, product);
    lemma_holds_middle(front, directive(m.scope_policy), all);
    lemma_holds_middle(front + directive(m.scope_policy), all, seq![]);
    assert(front + directive(m.scope_policy) + all + seq![] =~= authority(
        m,
        policy_file,
        product,
    ));
}

/// A turn as its ingress adapter hands it over, without what the dispatcher
/// alone reads.
#[derive(Debug, PartialEq, Eq)]
pub struct WorkAdmissionRequest {
    pub conversation: ChannelRef,
    pub sender_id: String,
    pub native_workflow: Option<NativeWorkflowMetadata>,
    /// Key of the session for native work; unset for everything else.
    pub native_execution_session_key: Option<String>,
}

/// What an admitted turn is answered.
#[derive(Debug, PartialEq, Eq)]
pub struct WorkAdmissionAck {
    pub admission_id: String,
    pub conversation_key: String,
    pub accepted: bool,
    pub native_workflow: Option<NativeWorkflowMetadata>,
}

/// Why the dispatcher took nothing.
#[derive(Clone, Copy, Debug, PartialEq, Eq, Structural)]
pub enum DispatchError {
    /// The consumer of the thread is gone.
    ConsumerDead,
}

/// Why a turn was not admitted.
#[derive(Debug, PartialEq, Eq)]
pub enum WorkAdmissionError {
    /// No dispatcher was installed yet.
    NotInstalled,
    /// The request lacks the identity of its conversation or sender.
    InvalidRequest(&'static str),
    DispatchRejected(DispatchError),
    /// Neither the input nor the dispatcher is at fault.
    Internal(&'static str),
}

/// The token of an error.
pub open spec fn admission_code(e: WorkAdmissionError) -> Seq<char> {
    match e {
        WorkAdmissionError::NotInstalled => "ADMISSION_NOT_INSTALLED"@,
        WorkAdmissionError::InvalidRequest(_) => "INVALID_ADMISSION_REQUEST"@,
        WorkAdmissionError::DispatchRejected(_) => "DISPATCH_REJECTED"@,
        WorkAdmissionError::Internal(_) => "ADMISSION_INTERNAL_ERROR"@,
    }
}

impl WorkAdmissionError {
    /// The token of the error.
    pub fn code(&self) -> (r: &'static str)
        ensures
            r@ == admission_code(*self),
    {
        match self {
            WorkAdmissionError::NotInstalled => "ADMISSION_NOT_INSTALLED",
            WorkAdmissionError::InvalidRequest(_) => "INVALID_ADMISSION_REQUEST",
            WorkAdmissionError::DispatchRejected(_) => "DISPATCH_REJECTED",
            WorkAdmissionError::Internal(_) => "ADMISSION_INTERNAL_ERROR",
        }
    }

    /// The error in words, given how the dispatcher words its own.
    pub fn message(&self, rejection: &str) -> (r: String)
        ensures
            r@ == admission_code(*self) + ": "@ + (match *self {
                WorkAdmissionError::NotInstalled => "admission service is not ready"@,
                WorkAdmissionError::InvalidRequest(reason) => reason@,
                WorkAdmissionError::DispatchRejected(_) => rejection@,
                WorkAdmissionError::Internal(reason) => reason@,
            }),
    {
        let mut m = self.code().to_owned();
        m.append(": ");
        match self {
            WorkAdmissionError::NotInstalled => m.append("admission service is not ready"),
            WorkAdmissionError::InvalidRequest(reason) => m.append(reason),
            WorkAdmissionError::DispatchRejected(_) => m.append(rejection),
            WorkAdmissionError::Internal(reason) => m.append(reason),
        }
        m
    }
}

/// What is handed to the dispatcher, and what is answered if it accepts.
#[derive(Debug, PartialEq, Eq)]
pub struct Submission {
    /// Key of the session that the turn runs in.
    pub dispatch_key: String,
    pub native_workflow: Option<NativeWorkflowMetadata>,
    pub ack: WorkAdmissionAck,
}

/// What a request lacks.
pub open spec fn missing(r: WorkAdmissionRequest) -> Option<Seq<char>> {
    if r.conversation@.platform.len() == 0 {
        Some("platform is required"@)
    } else if r.conversation@.channel_id.len() == 0 {
        Some("conversation channel is required"@)
    } else if r.sender_id@.len() == 0 {
        Some("sender is required"@)
    } else {
        None
    }
}

/// The session that a turn runs in: the one that native work names, else the
/// one that the dispatcher names, else that of the conversation.
pub open spec fn dispatch_key(r: WorkAdmissionRequest, dispatcher_key: Option<Seq<char>>) -> Seq<
    char,
> {
    match r.native_execution_session_key.deep_view() {
        Some(k) => if k.len() > 0 {
            k
        } else {
            fallback_key(r, dispatcher_key)
        },
        None => fallback_key(r, dispatcher_key),
    }
}

/// The session of a turn that names none.
pub open spec fn fallback_key(r: WorkAdmissionRequest, dispatcher_key: Option<Seq<char>>) -> Seq<
    char,
> {
    match dispatcher_key {
        Some(k) => k,
        None => r.conversation@.session_pool_key(),
    }
}

/// Takes turns in on behalf of a dispatcher.
#[derive(Debug)]
pub struct DispatcherAdmissionPort;

/// Whether `r` is what a request is handed to the dispatcher as, given the key
/// that the dispatcher has for the conversation.
pub open spec fn submitted(
    request: WorkAdmissionRequest,
    dispatcher_key: Option<Seq<char>>,
    r: Result<Submission, WorkAdmissionError>,
) -> bool {
    match missing(request) {
        Some(what) => r matches Err(WorkAdmissionError::InvalidRequest(e)) && e@ == what,
        None => r matches Ok(s) && {
            let key = request.conversation@.session_pool_key();
            &&& s.dispatch_key@ == dispatch_key(request, dispatcher_key)
            &&& s.native_workflow.deep_view() == request.native_workflow.deep_view()
            &&& s.ack.accepted
            &&& s.ack.conversation_key@ == key
            &&& s.ack.admission_id@ == key + ":"@ + request.sender_id@
            &&& s.ack.native_workflow.deep_view() == request.native_workflow.deep_view()
        },
    }
}

impl DispatcherAdmissionPort {
    pub fn new() -> (r: Self)
        ensures
            r == DispatcherAdmissionPort,
    {
        DispatcherAdmissionPort
    }

    /// What to hand to the dispatcher for a request, given the key that the
    /// dispatcher has for the conversation, where there is a dispatcher.
    pub fn admit_work(&self, request: WorkAdmissionRequest, dispatcher_key: Option<String>) -> (r:
        Result<Submission, WorkAdmissionError>)
        ensures
            submitted(request, dispatcher_key.deep_view(), r),
    {
        if request.conversation.platform.as_str().is_empty() {
            return Err(WorkAdmissionError::InvalidRequest("platform is required"));
        }
        if request.conversation.channel_id.as_str().is_empty() {
            return Err(WorkAdmissionError::InvalidRequest("conversation channel is required"));
        }
        if request.sender_id.as_str().is_empty() {
            return Err(WorkAdmissionError::InvalidRequest("sender is required"));
        }
        let conversation_key = request.conversation.session_pool_key();
        let fallback = match dispatcher_key {
            Some(k) => k,
            None => conversation_key.clone(),
        };
        let dispatch_key = match &request.native_execution_session_key {
            Some(k) => {
                if k.as_str().is_empty() {
                    fallback
                } else {
                    k.clone()
                }
            },
            None => fallback,
        };
        let copy = match &request.native_workflow {
            Some(m) => Some(m.clone()),
            None => None,
        };
        let mut admission_id = conversation_key.clone();
        admission_id.append(":");
        admission_id.append(request.sender_id.as_str());
        Ok(
            Submission {
                dispatch_key,
                native_workflow: copy,
                ack: WorkAdmissionAck {
                    admission_id,
                    conversation_key,
                    accepted: true,
                    native_workflow: request.native_workflow,
                },
            },
        )
    }

    /// What a request is answered once the dispatcher has taken the turn or
    /// turned it down.
    pub fn acknowledge(&self, submission: Submission, outcome: Result<(), DispatchError>) -> (r:
        Result<WorkAdmissionAck, WorkAdmissionError>)
        ensures
            match outcome {
                Ok(_) => r == Ok::<WorkAdmissionAck, WorkAdmissionError>(submission.ack),
                Err(e) => r == Err::<WorkAdmissionAck, WorkAdmissionError>(
                    WorkAdmissionError::DispatchRejected(e),
                ),
            },
    {
        match outcome {
            Ok(_) => Ok(submission.ack),
            Err(e) => Err(WorkAdmissionError::DispatchRejected(e)),
        }
    }
}

/// Native work that names its session runs there, wherever its conversation
/// takes place and whatever the dispatcher would have chosen.
pub proof fn law_native_session_is_isolated(
    a: WorkAdmissionRequest,
    b: WorkAdmissionRequest,
    key: Option<Seq<char>>,
    other: Option<Seq<char>>,
)
    requires
        a.native_execution_session_key.deep_view() == b.native_execution_session_key.deep_view(),
        a.native_execution_session_key.deep_view() matches Some(k) && k.len() > 0,
    ensures
        dispatch_key(a, key) == dispatch_key(b, other),
        Some(dispatch_key(a, key)) == a.native_execution_session_key.deep_view(),
{
}

/// Made before the dispatcher, and given it once.
#[derive(Debug)]
pub struct AdmissionPortHandle<P> {
    inner: Option<P>,
}

impl<P> AdmissionPortHandle<P> {
    /// What was installed.
    pub closed spec fn installed(self) -> Option<P> {
        self.inner
    }

    /// Nothing is installed.
    pub fn new() -> (r: Self)
        ensures
            r.installed() is None,
    {
        AdmissionPortHandle { inner: None }
    }

    /// Installs a port, or hands it back where there is one already.
    pub fn install(&mut self, port: P) -> (r: Result<(), P>)
        ensures
            old(self).installed() is None ==> r is Ok && final(self).installed() == Some(port),
            old(self).installed() is Some ==> r == Err::<(), P>(port) && final(self).installed()
                == old(self).installed(),
    {
        match &self.inner {
            Some(_) => Err(port),
            None => {
                self.inner = Some(port);
                Ok(())
            },
        }
    }

    /// The port; without one, nothing can be admitted.
    pub fn port(&self) -> (r: Result<&P, WorkAdmissionError>)
        ensures
            match self.installed() {
                Some(p) => r matches Ok(q) && *q == p,
                None => r == Err::<&P, WorkAdmissionError>(WorkAdmissionError::NotInstalled),
            },
    {
        match &self.inner {
            Some(p) => Ok(p),
            None => Err(WorkAdmissionError::NotInstalled),
        }
    }
}

/// A request is admitted exactly where it names a platform, a channel and a
/// sender. What is admitted is acknowledged for its own work and conversation,
/// and two senders of one conversation are told apart.
pub proof fn law_complete_requests_are_admitted(
    a: WorkAdmissionRequest,
    b: WorkAdmissionRequest,
    key: Option<Seq<char>>,
    r: Result<Submission, WorkAdmissionError>,
    q: Result<Submission, WorkAdmissionError>,
)
    requires
        submitted(a, key, r),
        submitted(b, key, q),
    ensures
        r is Ok <==> a.conversation@.platform.len() > 0 && a.conversation@.channel_id.len() > 0
            && a.sender_id@.len() > 0,
        r matches Ok(s) ==> s.ack.accepted && s.ack.conversation_key@
            == a.conversation@.session_pool_key() && s.native_workflow.deep_view()
            == a.native_workflow.deep_view() && s.ack.native_workflow.deep_view()
            == a.native_workflow.deep_view(),
        r is Ok && q is Ok && a.conversation@ == b.conversation@ && a.sender_id@ != b.sender_id@
            ==> r->Ok_0.ack.admission_id@ != q->Ok_0.ack.admission_id@,
        r is Err ==> r->Err_0 is InvalidRequest,
{
    if r is Ok && q is Ok && a.conversation@ == b.conversation@ {
        let head = a.conversation@.session_pool_key() + ":"@;
        assert((head + a.sender_id@).skip(head.len() as int) =~= a.sender_id@);
        assert((head + b.sender_id@).skip(head.len() as int) =~= b.sender_id@);
    }
}

/// What a request lacks is named: first the platform, after it the channel, and
/// last the sender, each in words of its own.
pub proof fn law_what_is_missing_is_named(r: WorkAdmissionRequest, s: WorkAdmissionRequest)
    ensures
        r.conversation@.platform.len() == 0 && s.conversation@.platform.len() == 0 ==> missing(r)
            == missing(s),
        r.conversation@.platform.len() == 0 && s.conversation@.platform.len() > 0 ==> missing(r)
            != missing(s),
        r.conversation@.channel_id.len() == 0 && s.conversation@.channel_id.len() > 0 ==> missing(r)
            != missing(s) || r.conversation@.platform.len() == 0,
        r.conversation@.platform.len() > 0 && r.conversation@.channel_id.len() > 0
            && r.sender_id@.len() == 0 ==> missing(r) == Some("sender is required"@),
{
    reveal_strlit("platform is required");
    reveal_strlit("conversation channel is required");
    reveal_strlit("sender is required");
    assert("platform is required"@.len() == 20 && "sender is required"@.len() == 18);
    assert("conversation channel is required"@.len() == 32);
}

/// A turn without a session of its own runs where the dispatcher keeps the
/// conversation, and where it keeps none, in the conversation's own session.
pub proof fn law_turns_run_in_their_conversation(r: WorkAdmissionRequest, key: Seq<char>)
    requires
        r.native_execution_session_key.deep_view() matches Some(k) ==> k.len() == 0,
    ensures
        dispatch_key(r, Some(key)) == key,
        dispatch_key(r, None) == r.conversation@.session_pool_key(),
{
}

/// Every kind of error has a token of its own, and no other kind has it.
pub proof fn law_admission_tokens_are_told_apart(e: WorkAdmissionError)
    ensures
        e is NotInstalled <==> admission_code(e) == "ADMISSION_NOT_INSTALLED"@,
        e is InvalidRequest <==> admission_code(e) == "INVALID_ADMISSION_REQUEST"@,
        e is DispatchRejected <==> admission_code(e) == "DISPATCH_REJECTED"@,
        e is Internal <==> admission_code(e) == "ADMISSION_INTERNAL_ERROR"@,
{
    reveal_strlit("ADMISSION_NOT_INSTALLED");
    reveal_strlit("INVALID_ADMISSION_REQUEST");
    reveal_strlit("DISPATCH_REJECTED");
    reveal_strlit("ADMISSION_INTERNAL_ERROR");
    assert("ADMISSION_NOT_INSTALLED"@.len() == 23);
    assert("INVALID_ADMISSION_REQUEST"@.len() == 25);
    assert("DISPATCH_REJECTED"@.len() == 17);
    assert("ADMISSION_INTERNAL_ERROR"@.len() == 24);
}

/// A head, and behind it a label and a value for each row.
spec fn rows(head: Seq<char>, fields: Seq<(Seq<char>, Seq<char>)>) -> Seq<char>
    decreases fields.len(),
{
    if fields.len() == 0 {
        head
    } else {
        rows(head, fields.drop_last()) + fields.last().0 + fields.last().1
    }
}

proof fn lemma_rows_push(
    head: Seq<char>,
    fields: Seq<(Seq<char>, Seq<char>)>,
    label: Seq<char>,
    value: Seq<char>,
)
    ensures
        rows(head, fields.push((label, value))) == rows(head, fields) + label + value,
{
    assert(fields.push((label, value)).drop_last() =~= fields);
}

/// What a text holds, it holds with more behind it.
proof fn lemma_holds_before(s: Seq<char>, part: Seq<char>, rest: Seq<char>)
    requires
        holds(s, part),
    ensures
        holds(s + rest, part),
{
    let i = choose|i: int|
        0 <= i <= s.len() - part.len() && #[trigger] s.subrange(i, i + part.len()) == part;
    assert((s + rest).subrange(i, i + part.len()) =~= s.subrange(i, i + part.len()));
}

/// Every row stands among the rows.
proof fn lemma_rows_hold(head: Seq<char>, fields: Seq<(Seq<char>, Seq<char>)>, i: int)
    requires
        0 <= i < fields.len(),
    ensures
        holds(rows(head, fields), fields[i].0 + fields[i].1),
    decreases fields.len(),
{
    let front = rows(head, fields.drop_last());
    let (label, value) = fields.last();
    lemma_joins(front, label, value);
    if i == fields.len() - 1 {
        lemma_ends_in(front, label + value);
    } else {
        lemma_rows_hold(head, fields.drop_last(), i);
        assert(fields.drop_last()[i] == fields[i]);
        lemma_holds_before(front, fields[i].0 + fields[i].1, label + value);
    }
}

/// The rows of an identity, in their order.
spec fn identity_rows(m: MetadataView) -> Seq<(Seq<char>, Seq<char>)> {
    Seq::<(Seq<char>, Seq<char>)>::empty().push(("\nworkflow_run_id: "@, m.workflow_run_id)).push(
        ("\ntask_id: "@, m.task_id),
    ).push(("\nrole: "@, m.role)).push(("\nagent: "@, m.agent)).push(
        ("\nlease_id: "@, m.lease_id),
    ).push(("\nlease_generation: "@, decimal(m.lease_generation as nat))).push(
        ("\nexpected_revision: "@, decimal(m.expected_revision as nat)),
    ).push(
        (
            "\nlanguage: "@,
            match m.language {
                Some(l) => l,
                None => "<none>"@,
            },
        ),
    )
}

proof fn lemma_identity_is_rows(m: MetadataView)
    ensures
        identity_block(m) == rows(AUTHORITY_HEAD@ + m.dispatch_id, identity_rows(m)) + "\n"@,
{
    let head = AUTHORITY_HEAD@ + m.dispatch_id;
    let none = Seq::<(Seq<char>, Seq<char>)>::empty();
    let a = none.push(("\nworkflow_run_id: "@, m.workflow_run_id));
    let b = a.push(("\ntask_id: "@, m.task_id));
    let c = b.push(("\nrole: "@, m.role));
    let d = c.push(("\nagent: "@, m.agent));
    let e = d.push(("\nlease_id: "@, m.lease_id));
    let f = e.push(("\nlease_generation: "@, decimal(m.lease_generation as nat)));
    let g = f.push(("\nexpected_revision: "@, decimal(m.expected_revision as nat)));
    let language = match m.language {
        Some(l) => l,
        None => "<none>"@,
    };
    lemma_rows_push(head, none, "\nworkflow_run_id: "@, m.workflow_run_id);
    lemma_rows_push(head, a, "\ntask_id: "@, m.task_id);
    lemma_rows_push(head, b, "\nrole: "@, m.role);
    lemma_rows_push(head, c, "\nagent: "@, m.agent);
    lemma_rows_push(head, d, "\nlease_id: "@, m.lease_id);
    lemma_rows_push(head, e, "\nlease_generation: "@, decimal(m.lease_generation as nat));
    lemma_rows_push(head, f, "\nexpected_revision: "@, decimal(m.expected_revision as nat));
    lemma_rows_push(head, g, "\nlanguage: "@, language);
}

/// The agent is told every part of the identity that its work has, each behind
/// its own label.
pub proof fn law_identity_is_told(m: MetadataView)
    ensures
        ({
            let block = identity_block(m);
            &&& holds(block, AUTHORITY_HEAD@ + m.dispatch_id)
            &&& holds(block, "\nworkflow_run_id: "@ + m.workflow_run_id)
            &&& holds(block, "\ntask_id: "@ + m.task_id)
            &&& holds(block, "\nrole: "@ + m.role)
            &&& holds(block, "\nagent: "@ + m.agent)
            &&& holds(block, "\nlease_id: "@ + m.lease_id)
            &&& holds(block, "\nlease_generation: "@ + decimal(m.lease_generation as nat))
            &&& holds(block, "\nexpected_revision: "@ + decimal(m.expected_revision as nat))
            &&& m.language matches Some(l) ==> holds(block, "\nlanguage: "@ + l)
        }),
{
    let head = AUTHORITY_HEAD@ + m.dispatch_id;
    let fields = identity_rows(m);
    let all = rows(head, fields);
    lemma_identity_is_rows(m);
    assert forall|i: int| 0 <= i < 8 implies holds(
        identity_block(m),
        (#[trigger] fields[i]).0 + fields[i].1,
    ) by {
        lemma_rows_hold(head, fields, i);
        lemma_holds_before(all, fields[i].0 + fields[i].1, "\n"@);
    }
    lemma_head_stays(head, fields);
    lemma_holds_before(all, head, "\n"@);
    assert(fields[0] == ("\nworkflow_run_id: "@, m.workflow_run_id));
    assert(fields[1] == ("\ntask_id: "@, m.task_id));
    assert(fields[2] == ("\nrole: "@, m.role));
    assert(fields[3] == ("\nagent: "@, m.agent));
    assert(fields[4] == ("\nlease_id: "@, m.lease_id));
    assert(fields[5] == ("\nlease_generation: "@, decimal(m.lease_generation as nat)));
    assert(fields[6] == ("\nexpected_revision: "@, decimal(m.expected_revision as nat)));
    assert(fields[7].0 == "\nlanguage: "@);
}

/// The head stands before the rows.
proof fn lemma_head_stays(head: Seq<char>, fields: Seq<(Seq<char>, Seq<char>)>)
    ensures
        holds(rows(head, fields), head),
    decreases fields.len(),
{
    if fields.len() == 0 {
        lemma_ends_in(seq![], head);
        assert(Seq::<char>::empty() + head =~= head);
    } else {
        let front = rows(head, fields.drop_last());
        lemma_head_stays(head, fields.drop_last());
        lemma_joins(front, fields.last().0, fields.last().1);
        lemma_holds_before(front, head, fields.last().0 + fields.last().1);
    }
}

/// The agent is told the limits of its work, each behind its own label, and
/// what follows from them: to write nothing, exactly where the policy is to
/// read only.
pub proof fn law_limits_are_told(m: MetadataView, policy_file: Seq<char>, product: Seq<char>)
    ensures
        ({
            let all = authority(m, policy_file, product);
            &&& holds(all, identity_block(m))
            &&& holds(all, scope_block(m.scope_policy))
        }),
        m.scope_policy matches Some(p) ==> {
            let block = scope_block(m.scope_policy);
            &&& holds(block, "scope_mode: "@ + p.scope_mode)
            &&& holds(block, "\nwrite_policy: "@ + p.write_policy)
            &&& holds(block, "\nhistorical_context_policy: "@ + p.historical_context_policy)
        },
        m.scope_policy matches Some(p) ==> directive(m.scope_policy) == (if p.write_policy
            == "READ_ONLY"@ {
            READ_ONLY_DIRECTIVE@
        } else {
            MODIFY_ALLOWED_DIRECTIVE@
        }),
        m.scope_policy is None ==> directive(m.scope_policy) == UNSET_DIRECTIVE@
            && scope_block(m.scope_policy) == UNSET_SCOPE@,
{
    let (identity, scope) = (identity_block(m), scope_block(m.scope_policy));
    let (limits, rest) = (directive(m.scope_policy), rules(policy_file, product));
    lemma_ends_in(seq![], identity);
    assert(Seq::<char>::empty() + identity =~= identity);
    lemma_holds_before(identity, identity, scope);
    lemma_ends_in(identity, scope);
    lemma_holds_before(identity + scope, identity, "\n"@);
    lemma_holds_before(identity + scope, scope, "\n"@);
    lemma_holds_before(identity + scope + "\n"@, identity, limits);
    lemma_holds_before(identity + scope + "\n"@, scope, limits);
    lemma_holds_before(identity + scope + "\n"@ + limits, identity, rest);
    lemma_holds_before(identity + scope + "\n"@ + limits, scope, rest);
    if let Some(p) = m.scope_policy {
        lemma_scope_is_told(p);
    }
}

proof fn lemma_scope_is_told(p: ScopeView)
    ensures
        ({
            let block = scope_block(Some(p));
            &&& holds(block, "scope_mode: "@ + p.scope_mode)
            &&& holds(block, "\nwrite_policy: "@ + p.write_policy)
            &&& holds(block, "\nhistorical_context_policy: "@ + p.historical_context_policy)
        }),
{
    let title = "NATIVE SCOPE (structured)\n"@;
    reveal_strlit("NATIVE SCOPE (structured)\n");
    reveal_strlit("scope_mode: ");
    reveal_strlit("NATIVE SCOPE (structured)\nscope_mode: ");
    assert(title + "scope_mode: "@ =~= "NATIVE SCOPE (structured)\nscope_mode: "@);
    let none = Seq::<(Seq<char>, Seq<char>)>::empty();
    let a = none.push(("scope_mode: "@, p.scope_mode));
    let b = a.push(("\nwrite_policy: "@, p.write_policy));
    let c = b.push(("\nhistorical_context_policy: "@, p.historical_context_policy));
    lemma_rows_push(title, none, "scope_mode: "@, p.scope_mode);
    lemma_rows_push(title, a, "\nwrite_policy: "@, p.write_policy);
    lemma_rows_push(title, b, "\nhistorical_context_policy: "@, p.historical_context_policy);
    assert(scope_block(Some(p)) == rows(title, c) + "\n"@);
    lemma_rows_hold(title, c, 0);
    lemma_rows_hold(title, c, 1);
    lemma_rows_hold(title, c, 2);
    lemma_holds_before(rows(title, c), "scope_mode: "@ + p.scope_mode, "\n"@);
    lemma_holds_before(rows(title, c), "\nwrite_policy: "@ + p.write_policy, "\n"@);
    lemma_holds_before(
        rows(title, c),
        "\nhistorical_context_policy: "@ + p.historical_context_policy,
        "\n"@,
    );
}

} // verus!
