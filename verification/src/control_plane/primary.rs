//! The initiating side of the control plane: which requests await a reply,
//! which delegations are live, and who waits for them.
//!
//! Callers are named by tickets. Every transition returns the answers that are
//! now due, and the program hands each to the caller that holds the ticket.

use crate::labels::Labels;
use crate::proto::AdmissionToken;
use crate::proto::AgentSummary;
use crate::proto::CancelParams;
use crate::proto::DelegateAck;
use crate::proto::DelegateParams;
use crate::proto::DelegateResultParams;
use crate::proto::DelegateResultView;
use crate::proto::DelegationStatus;
use crate::proto::ErrorObject;
use crate::proto::ErrorView;
use crate::proto::TargetSelector;
use crate::proto::Timestamp;
use crate::proto::copy_text;
use crate::seqs::lemma_filter_members;
use crate::seqs::lemma_filter_none;
use crate::seqs::lemma_filter_step;
use crate::table::Key;
use crate::table::Table;
use crate::text::holds;
use crate::text::lemma_holds_between;
use crate::text::signed_decimal;
use crate::text::signed_decimal_text;
use vstd::prelude::*;
use vstd::string::StringExecFns;

verus! {

/// The pair that names one admission of a delegation id.
pub type DelegationKey = (Seq<char>, AdmissionToken);

/// Opaque reference to one admission of a delegation that this runtime
/// initiated.
#[derive(Debug, PartialEq, Eq)]
pub struct DelegationHandle {
    delegation_id: String,
    admission: AdmissionToken,
}

impl View for DelegationHandle {
    type V = DelegationKey;

    closed spec fn view(&self) -> DelegationKey {
        (self.delegation_id@, self.admission)
    }
}

impl Key for DelegationHandle {
    fn same_key(&self, other: &Self) -> (r: bool) {
        self.admission == other.admission && self.delegation_id == other.delegation_id
    }
}

impl Clone for DelegationHandle {
    fn clone(&self) -> (r: Self)
        ensures
            r@ == self@,
    {
        DelegationHandle { delegation_id: self.delegation_id.clone(), admission: self.admission }
    }
}

impl DelegationHandle {
    /// The handle of one admission.
    pub fn new(delegation_id: String, admission: AdmissionToken) -> (r: Self)
        ensures
            r@ == (delegation_id@, admission),
    {
        DelegationHandle { delegation_id, admission }
    }

    /// The reusable delegation id.
    pub fn delegation_id(&self) -> (r: &str)
        ensures
            r@ == self@.0,
    {
        self.delegation_id.as_str()
    }

    /// The token of the admission.
    pub fn admission(&self) -> (r: AdmissionToken)
        ensures
            r == self@.1,
    {
        self.admission
    }
}

/// A spawn target: an exact logical name, or labels that must all match.
#[derive(Debug, PartialEq, Eq)]
pub enum SpawnTarget {
    Name(String),
    Labels(Labels),
}

impl SpawnTarget {
    /// Targets the runtime with this name.
    pub fn by_name(name: String) -> (r: Self)
        ensures
            r == SpawnTarget::Name(name),
    {
        SpawnTarget::Name(name)
    }

    /// Targets any runtime that carries these labels.
    pub fn by_labels(labels: Labels) -> (r: Self)
        ensures
            r == SpawnTarget::Labels(labels),
    {
        SpawnTarget::Labels(labels)
    }

    /// The selector for the wire: exactly one of its two fields is set.
    pub fn into_selector(self) -> (r: TargetSelector)
        ensures
            r.name is Some <==> self is Name,
            r.labels is Some <==> self is Labels,
            self matches SpawnTarget::Name(n) ==> r.name == Some(n),
            self matches SpawnTarget::Labels(l) ==> r.labels == Some(l),
    {
        match self {
            SpawnTarget::Name(name) => TargetSelector { name: Some(name), labels: None },
            SpawnTarget::Labels(labels) => TargetSelector { name: None, labels: Some(labels) },
        }
    }
}

/// A request to delegate work to a peer runtime.
#[derive(Debug)]
pub struct SpawnRequest {
    /// Chosen by the caller; may be used again after a cancel.
    pub delegation_id: String,
    pub target: SpawnTarget,
    pub prompt: String,
    pub deadline: Timestamp,
    /// The delegation during whose service this one is spawned.
    pub parent: Option<DelegationHandle>,
}

/// The end of a delegation, as its initiator sees it.
#[derive(Debug, PartialEq, Eq)]
pub struct DelegationOutcome {
    pub status: DelegationStatus,
    pub result: Option<String>,
    pub error: Option<String>,
}

/// What a [`DelegationOutcome`] says.
#[verifier::ext_equal]
pub struct OutcomeView {
    pub status: DelegationStatus,
    pub result: Option<Seq<char>>,
    pub error: Option<Seq<char>>,
}

impl View for DelegationOutcome {
    type V = OutcomeView;

    open spec fn view(&self) -> OutcomeView {
        OutcomeView {
            status: self.status,
            result: self.result.deep_view(),
            error: self.error.deep_view(),
        }
    }
}

impl Clone for DelegationOutcome {
    fn clone(&self) -> (r: Self)
        ensures
            r@ == self@,
    {
        DelegationOutcome {
            status: self.status,
            result: copy_text(&self.result),
            error: copy_text(&self.error),
        }
    }
}

/// The outcome that a result frame reports.
pub open spec fn outcome_of(p: DelegateResultView) -> OutcomeView {
    OutcomeView { status: p.status, result: p.result, error: p.error }
}

impl DelegationOutcome {
    /// The outcome that a result frame reports.
    pub fn from_result(params: &DelegateResultParams) -> (r: Self)
        ensures
            r@ == outcome_of(params@),
    {
        DelegationOutcome {
            status: params.status,
            result: copy_text(&params.result),
            error: copy_text(&params.error),
        }
    }
}

/// [`DelegationStatus`] as the local socket protocol spells it.
#[derive(Clone, Copy, Debug, PartialEq, Eq, Structural)]
pub enum DelegationStatusWire {
    Completed,
    Failed,
    Timeout,
    Cancelled,
    TargetDisconnected,
}

/// The local spelling of a status.
pub open spec fn wire_status(s: DelegationStatus) -> DelegationStatusWire {
    match s {
        DelegationStatus::Completed => DelegationStatusWire::Completed,
        DelegationStatus::Failed => DelegationStatusWire::Failed,
        DelegationStatus::Timeout => DelegationStatusWire::Timeout,
        DelegationStatus::Cancelled => DelegationStatusWire::Cancelled,
        DelegationStatus::TargetDisconnected => DelegationStatusWire::TargetDisconnected,
    }
}

/// The word for a status on the local socket.
pub open spec fn wire_word(w: DelegationStatusWire) -> Seq<char> {
    match w {
        DelegationStatusWire::Completed => "completed"@,
        DelegationStatusWire::Failed => "failed"@,
        DelegationStatusWire::Timeout => "timeout"@,
        DelegationStatusWire::Cancelled => "cancelled"@,
        DelegationStatusWire::TargetDisconnected => "target_disconnected"@,
    }
}

impl DelegationStatusWire {
    /// The local spelling of `s`.
    pub fn from_status(s: DelegationStatus) -> (r: Self)
        ensures
            r is Completed <==> s is Completed,
            r is Failed <==> s is Failed,
            r is Timeout <==> s is Timeout,
            r is Cancelled <==> s is Cancelled,
            r is TargetDisconnected <==> s is TargetDisconnected,
            r == wire_status(s),
    {
        match s {
            DelegationStatus::Completed => DelegationStatusWire::Completed,
            DelegationStatus::Failed => DelegationStatusWire::Failed,
            DelegationStatus::Timeout => DelegationStatusWire::Timeout,
            DelegationStatus::Cancelled => DelegationStatusWire::Cancelled,
            DelegationStatus::TargetDisconnected => DelegationStatusWire::TargetDisconnected,
        }
    }

    /// The word on the local socket.
    pub fn as_str(&self) -> (r: &'static str)
        ensures
            r@ == wire_word(*self),
    {
        match self {
            DelegationStatusWire::Completed => "completed",
            DelegationStatusWire::Failed => "failed",
            DelegationStatusWire::Timeout => "timeout",
            DelegationStatusWire::Cancelled => "cancelled",
            DelegationStatusWire::TargetDisconnected => "target_disconnected",
        }
    }
}

/// The reply to a successful spawn.
#[derive(Debug, PartialEq, Eq)]
pub struct SpawnAck {
    pub handle: DelegationHandle,
    pub assigned_to: String,
}

/// What a [`SpawnAck`] says.
pub struct SpawnAckView {
    pub handle: DelegationKey,
    pub assigned_to: Seq<char>,
}

impl View for SpawnAck {
    type V = SpawnAckView;

    open spec fn view(&self) -> SpawnAckView {
        SpawnAckView { handle: self.handle@, assigned_to: self.assigned_to@ }
    }
}

/// Where a tracked delegation stands.
#[derive(Debug, PartialEq, Eq)]
pub enum DelegationLifecycle {
    /// The delegate frame was sent; its ack has not arrived.
    Pending,
    /// A peer runtime serves it.
    Running { assigned_to: String },
    /// It has ended.
    Terminal(DelegationOutcome),
}

/// What a [`DelegationLifecycle`] says.
pub enum LifecycleView {
    Pending,
    Running { assigned_to: Seq<char> },
    Terminal(OutcomeView),
}

impl View for DelegationLifecycle {
    type V = LifecycleView;

    open spec fn view(&self) -> LifecycleView {
        match self {
            DelegationLifecycle::Pending => LifecycleView::Pending,
            DelegationLifecycle::Running { assigned_to } => LifecycleView::Running {
                assigned_to: assigned_to@,
            },
            DelegationLifecycle::Terminal(o) => LifecycleView::Terminal(o@),
        }
    }
}

impl Clone for DelegationLifecycle {
    fn clone(&self) -> (r: Self)
        ensures
            r@ == self@,
    {
        match self {
            DelegationLifecycle::Pending => DelegationLifecycle::Pending,
            DelegationLifecycle::Running { assigned_to } => DelegationLifecycle::Running {
                assigned_to: assigned_to.clone(),
            },
            DelegationLifecycle::Terminal(o) => DelegationLifecycle::Terminal(o.clone()),
        }
    }
}

/// A delegation's lifecycle as a status query reports it.
#[derive(Debug, PartialEq, Eq)]
pub enum DelegationSnapshot {
    Pending,
    Running { assigned_to: String },
    Terminal(DelegationOutcome),
}

impl View for DelegationSnapshot {
    type V = LifecycleView;

    open spec fn view(&self) -> LifecycleView {
        match self {
            DelegationSnapshot::Pending => LifecycleView::Pending,
            DelegationSnapshot::Running { assigned_to } => LifecycleView::Running {
                assigned_to: assigned_to@,
            },
            DelegationSnapshot::Terminal(o) => LifecycleView::Terminal(o@),
        }
    }
}

/// Why a command could not be satisfied.
#[derive(Debug, PartialEq, Eq)]
pub enum CommandError {
    /// No connection is registered, so no frame can be sent.
    NotConnected,
    /// The control plane answered with an error.
    Cp { code: i64, message: String },
    /// The handle is not tracked here.
    UnknownDelegation,
    /// The connection dropped while the request was outstanding.
    Disconnected,
    /// The request cannot be carried out on this side.
    Internal(String),
}

/// What a [`CommandError`] says.
pub enum CommandErrorView {
    NotConnected,
    Cp { code: i64, message: Seq<char> },
    UnknownDelegation,
    Disconnected,
    Internal(Seq<char>),
}

impl View for CommandError {
    type V = CommandErrorView;

    open spec fn view(&self) -> CommandErrorView {
        match self {
            CommandError::NotConnected => CommandErrorView::NotConnected,
            CommandError::Cp { code, message } => CommandErrorView::Cp {
                code: *code,
                message: message@,
            },
            CommandError::UnknownDelegation => CommandErrorView::UnknownDelegation,
            CommandError::Disconnected => CommandErrorView::Disconnected,
            CommandError::Internal(m) => CommandErrorView::Internal(m@),
        }
    }
}

/// The text of a command error.
pub open spec fn command_error_text(e: CommandErrorView) -> Seq<char> {
    match e {
        CommandErrorView::NotConnected => "control-plane client is not connected"@,
        CommandErrorView::Cp { code, message } => "control plane returned an error: "@ + message
            + " (code "@ + signed_decimal(code as int) + ")"@,
        CommandErrorView::UnknownDelegation => "no such delegation is tracked by this runtime"@,
        CommandErrorView::Disconnected =>
            "control-plane connection dropped before the delegation finished"@,
        CommandErrorView::Internal(m) => "internal error: "@ + m,
    }
}

impl CommandError {
    /// The error as text.
    pub fn message(&self) -> (r: String)
        ensures
            r@ == command_error_text(self@),
    {
        let mut out = String::new();
        match self {
            CommandError::NotConnected => {
                out.append("control-plane client is not connected");
            },
            CommandError::Cp { code, message } => {
                out.append("control plane returned an error: ");
                out.append(message.as_str());
                out.append(" (code ");
                let digits = signed_decimal_text(*code);
                out.append(digits.as_str());
                out.append(")");
            },
            CommandError::UnknownDelegation => {
                out.append("no such delegation is tracked by this runtime");
            },
            CommandError::Disconnected => {
                out.append("control-plane connection dropped before the delegation finished");
            },
            CommandError::Internal(m) => {
                out.append("internal error: ");
                out.append(m.as_str());
            },
        }
        assert(out@ =~= command_error_text(self@));
        out
    }

    /// The error that the control plane answered with.
    pub fn from_cp(err: ErrorObject) -> (r: Self)
        ensures
            r@ == cp_error(err@),
    {
        CommandError::Cp { code: err.code, message: err.message }
    }
}

/// The command error for an error reply.
pub open spec fn cp_error(e: ErrorView) -> CommandErrorView {
    CommandErrorView::Cp { code: e.code, message: e.message }
}

/// A command of an initiating surface, with the ticket of its caller.
pub enum ClientCommand {
    /// Delegate work; answered when the control plane acks or refuses it.
    Spawn { request: SpawnRequest, reply: u64 },
    /// Wait for the end of a delegation.
    Await { handle: DelegationHandle, reply: u64 },
    /// Report where a delegation stands, at once.
    Check { handle: DelegationHandle, reply: u64 },
    /// Cancel a delegation.
    Cancel { handle: DelegationHandle, reason: String, reply: u64 },
    /// List the runtimes of the namespace.
    ListAgents { reply: u64 },
}

/// How many ended delegations are remembered before the oldest are forgotten.
/// Live delegations are never forgotten.
pub const MAX_TRACKED_DELEGATIONS: usize = 4096;

/// A request that awaits its reply, with the ticket of its caller.
pub enum PendingRequest {
    Spawn { delegation_id: String, reply: u64 },
    Cancel { reply: u64 },
    ListAgents { reply: u64 },
}

/// What a pending request is for.
#[verifier::ext_equal]
pub enum PendingView {
    Spawn { delegation_id: Seq<char>, reply: u64 },
    Cancel { reply: u64 },
    ListAgents { reply: u64 },
}

impl View for PendingRequest {
    type V = PendingView;

    open spec fn view(&self) -> PendingView {
        match self {
            PendingRequest::Spawn { delegation_id, reply } => PendingView::Spawn {
                delegation_id: delegation_id@,
                reply: *reply,
            },
            PendingRequest::Cancel { reply } => PendingView::Cancel { reply: *reply },
            PendingRequest::ListAgents { reply } => PendingView::ListAgents { reply: *reply },
        }
    }
}

/// An answer that is due to the caller that holds the ticket `reply`.
#[allow(inconsistent_fields)]
pub enum Answer {
    Spawn { reply: u64, result: Result<SpawnAck, CommandError> },
    Await { reply: u64, result: Result<DelegationOutcome, CommandError> },
    Check { reply: u64, result: Result<DelegationSnapshot, CommandError> },
    Cancel { reply: u64, result: Result<(), CommandError> },
    ListAgents { reply: u64, result: Result<Vec<AgentSummary>, CommandError> },
}

/// What an [`Answer`] says.
#[allow(inconsistent_fields)]
pub enum AnswerView {
    Spawn { reply: u64, result: Result<SpawnAckView, CommandErrorView> },
    Await { reply: u64, result: Result<OutcomeView, CommandErrorView> },
    Check { reply: u64, result: Result<LifecycleView, CommandErrorView> },
    Cancel { reply: u64, result: Result<(), CommandErrorView> },
    ListAgents { reply: u64, result: Result<Seq<AgentSummary>, CommandErrorView> },
}

/// A result with both sides seen through their views.
pub open spec fn result_view<T: View>(r: Result<T, CommandError>) -> Result<T::V, CommandErrorView> {
    match r {
        Ok(v) => Ok(v@),
        Err(e) => Err(e@),
    }
}

impl View for Answer {
    type V = AnswerView;

    open spec fn view(&self) -> AnswerView {
        match self {
            Answer::Spawn { reply, result } => AnswerView::Spawn {
                reply: *reply,
                result: result_view(*result),
            },
            Answer::Await { reply, result } => AnswerView::Await {
                reply: *reply,
                result: result_view(*result),
            },
            Answer::Check { reply, result } => AnswerView::Check {
                reply: *reply,
                result: result_view(*result),
            },
            Answer::Cancel { reply, result } => AnswerView::Cancel {
                reply: *reply,
                result: match *result {
                    Ok(_) => Ok(()),
                    Err(e) => Err(e@),
                },
            },
            Answer::ListAgents { reply, result } => AnswerView::ListAgents {
                reply: *reply,
                result: result_view(*result),
            },
        }
    }
}

impl DeepView for Answer {
    type V = AnswerView;

    open spec fn deep_view(&self) -> AnswerView {
        self@
    }
}

/// Correlation and tracking for the delegations that this runtime initiates.
pub struct PrimaryState {
    pending: Table<u64, PendingRequest>,
    known: Table<DelegationHandle, DelegationLifecycle>,
    tracked_order: Vec<DelegationHandle>,
    awaiters: Vec<(DelegationHandle, u64)>,
}

/// The state of a [`PrimaryState`].
#[verifier::ext_equal]
pub struct PrimaryView {
    /// The requests that await a reply, by request id.
    pub pending: Map<u64, PendingView>,
    /// The ids of `pending`, oldest first.
    pub pending_order: Seq<u64>,
    /// The lifecycle of every tracked delegation.
    pub known: Map<DelegationKey, LifecycleView>,
    /// Every admission in the order of its ack.
    pub order: Seq<DelegationKey>,
    /// Who waits for which delegation, in the order of arrival.
    pub awaiters: Seq<(DelegationKey, u64)>,
}

/// Whether `key` is tracked and has not ended.
pub open spec fn is_live(known: Map<DelegationKey, LifecycleView>, key: DelegationKey) -> bool {
    known.contains_key(key) && !(known[key] is Terminal)
}

/// Whether `key` is tracked and has ended.
pub open spec fn is_ended(known: Map<DelegationKey, LifecycleView>, key: DelegationKey) -> bool {
    known.contains_key(key) && known[key] is Terminal
}

/// Picks those who wait for `key`.
pub open spec fn waits_for(key: DelegationKey) -> spec_fn((DelegationKey, u64)) -> bool {
    |w: (DelegationKey, u64)| w.0 == key
}

/// Picks those who wait for something else than `key`.
pub open spec fn waits_elsewhere(key: DelegationKey) -> spec_fn((DelegationKey, u64)) -> bool {
    |w: (DelegationKey, u64)| w.0 != key
}

impl PrimaryView {
    /// What every reachable state keeps: the pending ids are listed once each,
    /// every tracked delegation has its place in the order, and only live
    /// delegations are waited for.
    pub open spec fn wf(self) -> bool {
        &&& self.known.dom().finite()
        &&& self.pending_order.no_duplicates()
        &&& forall|id: u64|
            self.pending.contains_key(id) <==> #[trigger] self.pending_order.contains(id)
        &&& forall|key: DelegationKey|
            self.known.contains_key(key) ==> #[trigger] self.order.contains(key)
        &&& forall|i: int|
            0 <= i < self.awaiters.len() ==> is_live(self.known, #[trigger] self.awaiters[i].0)
    }

    /// A request is parked under `id`.
    pub open spec fn parked(self, id: u64, request: PendingView) -> PrimaryView {
        PrimaryView {
            pending: self.pending.insert(id, request),
            pending_order: if self.pending.contains_key(id) {
                self.pending_order
            } else {
                self.pending_order.push(id)
            },
            ..self
        }
    }

    /// The request under `id` has had its reply.
    pub open spec fn unparked(self, id: u64) -> PrimaryView {
        PrimaryView {
            pending: self.pending.remove(id),
            pending_order: self.pending_order.remove(self.pending_order.index_of(id)),
            ..self
        }
    }

    /// The tickets that wait for `key`, in the order of arrival.
    pub open spec fn waiting_for(self, key: DelegationKey) -> Seq<u64> {
        self.awaiters.filter(waits_for(key)).map_values(
            |w: (DelegationKey, u64)| w.1,
        )
    }

    /// The first place in the order at or after `from` that holds an ended
    /// delegation.
    pub open spec fn first_ended(self, from: int) -> Option<int>
        decreases self.order.len() - from,
    {
        if from < 0 || from >= self.order.len() {
            None
        } else if is_ended(self.known, self.order[from]) {
            Some(from)
        } else {
            self.first_ended(from + 1)
        }
    }

    /// The delegation at place `i` of the order is forgotten.
    pub open spec fn forgotten(self, i: int) -> PrimaryView {
        PrimaryView {
            known: self.known.remove(self.order[i]),
            order: self.order.remove(i),
            awaiters: self.awaiters.filter(waits_elsewhere(self.order[i])),
            ..self
        }
    }

    /// The oldest ended delegations are forgotten until there is room for one
    /// more, or until none is left that has ended.
    pub open spec fn with_room(self) -> PrimaryView
        decreases self.order.len(),
    {
        if self.known.dom().len() < MAX_TRACKED_DELEGATIONS {
            self
        } else {
            match self.first_ended(0) {
                Some(i) => if 0 <= i < self.order.len() {
                    self.forgotten(i).with_room()
                } else {
                    self
                },
                None => self,
            }
        }
    }

    /// The admission `key` is tracked as running at `assigned_to`.
    pub open spec fn admitted(self, key: DelegationKey, assigned_to: Seq<char>) -> PrimaryView {
        let s = self.with_room();
        PrimaryView {
            known: s.known.insert(key, LifecycleView::Running { assigned_to }),
            order: s.order.push(key),
            ..s
        }
    }

    /// The state after the reply to request `id`: the request is no longer
    /// pending, and an acked spawn is tracked.
    pub open spec fn after_reply(
        self,
        id: u64,
        result: ReplyView,
        error: Option<ErrorView>,
    ) -> PrimaryView {
        if !self.pending.contains_key(id) {
            self
        } else {
            match (self.pending[id], error, result.ack) {
                (PendingView::Spawn { .. }, None, Some(ack)) => self.unparked(id).admitted(
                    ack.handle,
                    ack.assigned_to,
                ),
                _ => self.unparked(id),
            }
        }
    }

    /// The state after the result frame `p`: a live delegation ends and nobody
    /// waits for it any more; any other frame changes nothing.
    pub open spec fn after_result(self, p: DelegateResultView) -> PrimaryView {
        let key = (p.delegation_id, p.admission);
        if is_live(self.known, key) {
            PrimaryView {
                known: self.known.insert(key, LifecycleView::Terminal(outcome_of(p))),
                awaiters: self.awaiters.filter(waits_elsewhere(key)),
                ..self
            }
        } else {
            self
        }
    }

    /// The answers that the result frame `p` makes due.
    pub open spec fn result_answers(self, p: DelegateResultView) -> Seq<AnswerView> {
        let key = (p.delegation_id, p.admission);
        if is_live(self.known, key) {
            self.waiting_for(key).map_values(
                |t: u64| AnswerView::Await { reply: t, result: Ok(outcome_of(p)) },
            )
        } else {
            seq![]
        }
    }

    /// The state after the connection is lost: no request is pending, and only
    /// ended delegations stay.
    pub open spec fn after_disconnect(self) -> PrimaryView {
        let ended = self.known.restrict(
            Set::new(|key: DelegationKey| is_ended(self.known, key)),
        );
        PrimaryView {
            pending: Map::empty(),
            pending_order: seq![],
            known: ended,
            order: self.order.filter(|key: DelegationKey| is_ended(self.known, key)),
            awaiters: seq![],
        }
    }

    /// The answers that the loss of the connection makes due: one to the
    /// caller of every pending request and one to everybody who waits.
    pub open spec fn disconnect_answers(self) -> Seq<AnswerView> {
        self.pending_order.map_values(|id: u64| disconnected_answer(self.pending[id]))
            + self.awaiters.map_values(
            |w: (DelegationKey, u64)|
                AnswerView::Await { reply: w.1, result: Err(CommandErrorView::Disconnected) },
        )
    }
}

/// The answer to a pending request whose connection is lost.
pub open spec fn disconnected_answer(p: PendingView) -> AnswerView {
    match p {
        PendingView::Spawn { reply, .. } => AnswerView::Spawn {
            reply,
            result: Err(CommandErrorView::Disconnected),
        },
        PendingView::Cancel { reply } => AnswerView::Cancel {
            reply,
            result: Err(CommandErrorView::Disconnected),
        },
        PendingView::ListAgents { reply } => AnswerView::ListAgents {
            reply,
            result: Err(CommandErrorView::Disconnected),
        },
    }
}

/// The result of a reply, as read for either kind of request that has one.
pub struct ReplyResult {
    /// The result read as the ack of a delegation.
    pub ack: Option<DelegateAck>,
    /// The result read as a roster.
    pub agents: Option<Vec<AgentSummary>>,
}

/// What a [`ReplyResult`] says.
pub struct ReplyView {
    pub ack: Option<SpawnAckView>,
    pub agents: Option<Seq<AgentSummary>>,
}

impl View for ReplyResult {
    type V = ReplyView;

    open spec fn view(&self) -> ReplyView {
        ReplyView {
            ack: match self.ack {
                Some(a) => Some(
                    SpawnAckView {
                        handle: (a.delegation_id@, a.admission),
                        assigned_to: a.assigned_to@,
                    },
                ),
                None => None,
            },
            agents: match self.agents {
                Some(l) => Some(l@),
                None => None,
            },
        }
    }
}

/// The answer that a reply makes due to the caller of the pending request `p`.
pub open spec fn reply_answer(
    p: PendingView,
    result: ReplyView,
    error: Option<ErrorView>,
) -> AnswerView {
    match p {
        PendingView::Spawn { reply, .. } => AnswerView::Spawn {
            reply,
            result: match error {
                Some(e) => Err(cp_error(e)),
                None => match result.ack {
                    Some(ack) => Ok(ack),
                    None => Err(
                        CommandErrorView::Internal("cp/delegate ack carried no valid result"@),
                    ),
                },
            },
        },
        PendingView::Cancel { reply } => AnswerView::Cancel {
            reply,
            result: match error {
                Some(e) => Err(cp_error(e)),
                None => Ok(()),
            },
        },
        PendingView::ListAgents { reply } => AnswerView::ListAgents {
            reply,
            result: match error {
                Some(e) => Err(cp_error(e)),
                None => match result.agents {
                    Some(agents) => Ok(agents),
                    None => Err(
                        CommandErrorView::Internal("cp/list_agents reply carried no valid result"@),
                    ),
                },
            },
        },
    }
}

/// The request that a spawn puts on the wire.
pub struct SpawnEmission {
    pub rpc_id: u64,
    pub params: DelegateParams,
}

impl View for PrimaryState {
    type V = PrimaryView;

    closed spec fn view(&self) -> PrimaryView {
        PrimaryView {
            pending: self.pending@.map_values(|p: PendingRequest| p@),
            pending_order: self.pending.keys(),
            known: self.known@.map_values(|l: DelegationLifecycle| l@),
            order: self.tracked_order@.map_values(|h: DelegationHandle| h@),
            awaiters: self.awaiters@.map_values(|w: (DelegationHandle, u64)| (w.0@, w.1)),
        }
    }
}

impl PrimaryState {
    /// The tables are well-formed, and so is the state that they stand for.
    pub closed spec fn wf(&self) -> bool {
        &&& self.pending.wf()
        &&& self.known.wf()
        &&& self@.wf()
    }

    /// A well-formed state stands for a well-formed view.
    pub proof fn lemma_wf(&self)
        requires
            self.wf(),
        ensures
            self@.wf(),
    {
    }

    /// No request, no delegation, nobody waiting.
    pub fn new() -> (r: Self)
        ensures
            r.wf(),
            r@ == (PrimaryView {
                pending: Map::empty(),
                pending_order: seq![],
                known: Map::empty(),
                order: seq![],
                awaiters: seq![],
            }),
    {
        let r = PrimaryState {
            pending: Table::new(),
            known: Table::new(),
            tracked_order: Vec::new(),
            awaiters: Vec::new(),
        };
        assert(r@.pending =~= Map::empty());
        assert(r@.known =~= Map::empty());
        assert(r@.order =~= seq![]);
        assert(r@.awaiters =~= seq![]);
        r
    }

    /// The number of tracked delegations, whatever their lifecycle.
    pub fn tracked_len(&self) -> (r: usize)
        requires
            self.wf(),
        ensures
            r == self@.known.dom().len(),
    {
        assert(self@.known.dom() =~= self.known@.dom());
        self.known.len()
    }

    fn park(&mut self, rpc_id: u64, request: PendingRequest)
        requires
            old(self).wf(),
        ensures
            final(self).wf(),
            final(self)@ == old(self)@.parked(rpc_id, request@),
    {
        let ghost before = *self;
        self.pending.insert(rpc_id, request);
        proof {
            assert(self@.pending =~= before@.parked(rpc_id, request@).pending);
            assert(self@ =~= before@.parked(rpc_id, request@));
            assert forall|id: u64|
                self@.pending.contains_key(id) <==> #[trigger] self@.pending_order.contains(id) by {
                assert(self.pending@.contains_key(id) <==> self.pending.keys().contains(id));
            }
        }
    }

    /// Parks the caller `reply` of a spawn under `rpc_id` and gives the request
    /// to send.
    pub fn begin_spawn(&mut self, rpc_id: u64, request: SpawnRequest, reply: u64) -> (r:
        SpawnEmission)
        requires
            old(self).wf(),
        ensures
            final(self).wf(),
            final(self)@ == old(self)@.parked(
                rpc_id,
                PendingView::Spawn { delegation_id: request.delegation_id@, reply },
            ),
            r.rpc_id == rpc_id,
            r.params.delegation_id@ == request.delegation_id@,
            r.params.prompt == request.prompt,
            r.params.deadline == request.deadline,
            r.params.target.name is Some <==> request.target is Name,
            r.params.target.labels is Some <==> request.target is Labels,
            request.target matches SpawnTarget::Name(n) ==> r.params.target.name == Some(n),
            request.target matches SpawnTarget::Labels(l) ==> r.params.target.labels == Some(l),
            request.parent is None ==> r.params.parent_delegation_id is None
                && r.params.parent_admission is None,
            request.parent matches Some(h) ==> r.params.parent_delegation_id.deep_view() == Some(
                h@.0,
            ) && r.params.parent_admission == Some(h@.1),
    {
        let (parent_delegation_id, parent_admission) = match request.parent {
            Some(h) => (Some(h.delegation_id), Some(h.admission)),
            None => (None, None),
        };
        let params = DelegateParams {
            delegation_id: request.delegation_id.clone(),
            target: request.target.into_selector(),
            prompt: request.prompt,
            deadline: request.deadline,
            parent_delegation_id,
            parent_admission,
        };
        self.park(
            rpc_id,
            PendingRequest::Spawn { delegation_id: request.delegation_id, reply },
        );
        SpawnEmission { rpc_id, params }
    }

    /// Parks the caller `reply` of a cancel under `rpc_id` and gives the request
    /// to send. A handle that is not tracked is refused, and nothing is sent.
    pub fn begin_cancel(
        &mut self,
        rpc_id: u64,
        handle: &DelegationHandle,
        reason: String,
        reply: u64,
    ) -> (r: Result<CancelParams, CommandError>)
        requires
            old(self).wf(),
        ensures
            final(self).wf(),
            old(self)@.known.contains_key(handle@) <==> r is Ok,
            r matches Ok(p) ==> p.delegation_id@ == handle@.0 && p.admission == handle@.1
                && p.reason == reason && final(self)@ == old(self)@.parked(
                rpc_id,
                PendingView::Cancel { reply },
            ),
            r matches Err(e) ==> e is UnknownDelegation && final(self)@ == old(self)@,
    {
        if !self.known.contains(handle) {
            return Err(CommandError::UnknownDelegation);
        }
        let params = CancelParams {
            delegation_id: handle.delegation_id.clone(),
            admission: handle.admission,
            reason,
        };
        self.park(rpc_id, PendingRequest::Cancel { reply });
        Ok(params)
    }

    /// Parks the caller `reply` of a roster request under `rpc_id`.
    pub fn begin_list_agents(&mut self, rpc_id: u64, reply: u64)
        requires
            old(self).wf(),
        ensures
            final(self).wf(),
            final(self)@ == old(self)@.parked(rpc_id, PendingView::ListAgents { reply }),
    {
        self.park(rpc_id, PendingRequest::ListAgents { reply });
    }

    /// Waits for the end of a delegation. One that has ended is answered at
    /// once, and so is a handle that is not tracked; otherwise the caller
    /// `reply` is parked.
    pub fn begin_await(&mut self, handle: &DelegationHandle, reply: u64) -> (r: Option<
        Result<DelegationOutcome, CommandError>,
    >)
        requires
            old(self).wf(),
        ensures
            final(self).wf(),
            r is None <==> is_live(old(self)@.known, handle@),
            r is None ==> final(self)@ == (PrimaryView {
                awaiters: old(self)@.awaiters.push((handle@, reply)),
                ..old(self)@
            }),
            r is Some ==> final(self)@ == old(self)@,
            r matches Some(Ok(o)) ==> old(self)@.known[handle@] == LifecycleView::Terminal(o@),
            r matches Some(Err(e)) ==> e is UnknownDelegation,
            old(self)@.known.contains_key(handle@) ==> !(r matches Some(Err(_))),
            !old(self)@.known.contains_key(handle@) ==> r matches Some(Err(_)),
    {
        let answer = match self.known.get(handle) {
            Some(DelegationLifecycle::Terminal(outcome)) => Some(Ok(outcome.clone())),
            Some(_) => None,
            None => Some(Err(CommandError::UnknownDelegation)),
        };
        if answer.is_none() {
            let ghost before = *self;
            self.awaiters.push((handle.clone(), reply));
            assert(self@.awaiters =~= before@.awaiters.push((handle@, reply)));
        }
        answer
    }

    /// The lifecycle of a delegation, without waiting.
    pub fn check(&self, handle: &DelegationHandle) -> (r: Result<DelegationSnapshot, CommandError>)
        requires
            self.wf(),
        ensures
            self@.known.contains_key(handle@) <==> r is Ok,
            r matches Ok(s) ==> s@ == self@.known[handle@],
            r matches Err(e) ==> e is UnknownDelegation,
    {
        match self.known.get(handle) {
            Some(DelegationLifecycle::Pending) => Ok(DelegationSnapshot::Pending),
            Some(DelegationLifecycle::Running { assigned_to }) => Ok(
                DelegationSnapshot::Running { assigned_to: assigned_to.clone() },
            ),
            Some(DelegationLifecycle::Terminal(outcome)) => Ok(
                DelegationSnapshot::Terminal(outcome.clone()),
            ),
            None => Err(CommandError::UnknownDelegation),
        }
    }

    /// The lifecycle of a tracked delegation.
    pub fn lifecycle(&self, handle: &DelegationHandle) -> (r: Option<DelegationLifecycle>)
        requires
            self.wf(),
        ensures
            r is Some <==> self@.known.contains_key(handle@),
            r matches Some(l) ==> l@ == self@.known[handle@],
    {
        match self.known.get(handle) {
            Some(l) => Some(l.clone()),
            None => None,
        }
    }

    /// The oldest place of the order that holds an ended delegation.
    fn find_ended(&self) -> (r: Option<usize>)
        requires
            self.wf(),
        ensures
            match r {
                Some(i) => self@.first_ended(0) == Some(i as int) && i < self@.order.len()
                    && is_ended(self@.known, self@.order[i as int]),
                None => self@.first_ended(0) is None,
            },
    {
        let mut i: usize = 0;
        while i < self.tracked_order.len()
            invariant
                self.wf(),
                i <= self@.order.len(),
                self@.order.len() == self.tracked_order@.len(),
                self@.first_ended(0) == self@.first_ended(i as int),
            decreases self.tracked_order@.len() - i,
        {
            let handle = &self.tracked_order[i];
            assert(handle@ == self@.order[i as int]);
            match self.known.get(handle) {
                Some(DelegationLifecycle::Terminal(_)) => {
                    return Some(i);
                },
                _ => {},
            }
            i += 1;
        }
        None
    }

    /// Takes out everybody who waits for `handle`.
    fn take_waiters(&mut self, handle: &DelegationHandle) -> (r: Vec<u64>)
        requires
            old(self).pending.wf(),
            old(self).known.wf(),
        ensures
            final(self).pending.wf(),
            final(self).known.wf(),
            r@ == old(self)@.waiting_for(handle@),
            final(self)@ == (PrimaryView {
                awaiters: old(self)@.awaiters.filter(waits_elsewhere(handle@)),
                ..old(self)@
            }),
            final(self).known == old(self).known,
            final(self).pending == old(self).pending,
            final(self).tracked_order == old(self).tracked_order,
    {
        let ghost before = *self;
        let ghost all = self@.awaiters;
        let ghost mine = waits_for(handle@);
        let ghost theirs = waits_elsewhere(handle@);
        let mut keep: Vec<(DelegationHandle, u64)> = Vec::new();
        let mut woken: Vec<u64> = Vec::new();
        let ghost seen = |w: (DelegationHandle, u64)| (w.0@, w.1);
        let ghost ticket = |w: (DelegationKey, u64)| w.1;
        let mut i: usize = 0;
        proof {
            lemma_filter_none(all, mine);
            lemma_filter_none(all, theirs);
            assert(keep@.map_values(seen) =~= seq![]);
            assert(Seq::<(DelegationKey, u64)>::empty().map_values(ticket) =~= seq![]);
        }
        while i < self.awaiters.len()
            invariant
                *self == before,
                all == self@.awaiters,
                i <= all.len() == self.awaiters@.len(),
                mine == waits_for(handle@),
                theirs == waits_elsewhere(handle@),
                seen == (|w: (DelegationHandle, u64)| (w.0@, w.1)),
                ticket == (|w: (DelegationKey, u64)| w.1),
                keep@.map_values(seen) == all.take(i as int).filter(theirs),
                woken@ == all.take(i as int).filter(mine).map_values(ticket),
            decreases self.awaiters@.len() - i,
        {
            let w = &self.awaiters[i];
            let ghost kept = keep@;
            proof {
                assert(all[i as int] == (w.0@, w.1));
                lemma_filter_step(all, mine, i as int);
                lemma_filter_step(all, theirs, i as int);
            }
            if w.0.same_key(handle) {
                woken.push(w.1);
                assert(all.take(i as int).filter(mine).push(all[i as int]).map_values(ticket)
                    =~= all.take(i as int).filter(mine).map_values(ticket).push(w.1));
            } else {
                keep.push((w.0.clone(), w.1));
                assert(keep@.map_values(seen) =~= kept.map_values(seen).push(all[i as int]));
            }
            i += 1;
        }
        assert(all.take(all.len() as int) =~= all);
        self.awaiters = keep;
        woken
    }

    /// Forgets the ended delegation at place `i` of the order.
    fn forget(&mut self, i: usize)
        requires
            old(self).wf(),
            i < old(self)@.order.len(),
            is_ended(old(self)@.known, old(self)@.order[i as int]),
        ensures
            final(self).wf(),
            final(self)@ == old(self)@.forgotten(i as int),
    {
        let ghost before = *self;
        let ghost key = self@.order[i as int];
        let handle = self.tracked_order.remove(i);
        self.known.remove(&handle);
        let _ = self.take_waiters(&handle);
        proof {
            assert(handle@ == key);
            assert(self@.order =~= before@.order.remove(i as int));
            assert(self@.known =~= before@.known.remove(key));
            assert(self@ =~= before@.forgotten(i as int));
            assert forall|k: DelegationKey| self@.known.contains_key(k) implies
                #[trigger] self@.order.contains(k) by {
                assert(before@.order.contains(k));
                let j = before@.order.index_of(k);
                if j < i {
                    assert(self@.order[j] == k);
                } else {
                    assert(self@.order[j - 1] == k);
                }
            }
            assert forall|j: int| 0 <= j < self@.awaiters.len() implies is_live(
                self@.known,
                #[trigger] self@.awaiters[j].0,
            ) by {
                let p = waits_elsewhere(key);
                before@.awaiters.lemma_filter_pred(p, j);
                assert(self@.awaiters.contains(self@.awaiters[j]));
                lemma_filter_members(before@.awaiters, p, self@.awaiters[j]);
                let n = before@.awaiters.index_of(self@.awaiters[j]);
                assert(is_live(before@.known, before@.awaiters[n].0));
            }
        }
    }

    /// Makes room for one more delegation by forgetting the oldest that have
    /// ended. Live delegations stay.
    pub fn make_history_room(&mut self)
        requires
            old(self).wf(),
        ensures
            final(self).wf(),
            final(self)@ == old(self)@.with_room(),
    {
        assert(self@.known.dom() =~= self.known@.dom());
        while self.known.len() >= MAX_TRACKED_DELEGATIONS
            invariant_except_break
                self@.known.dom() == self.known@.dom(),
                self.wf(),
                self@.with_room() == old(self)@.with_room(),
            ensures
                self.wf(),
                self@ == old(self)@.with_room(),
            decreases self@.order.len(),
        {
            match self.find_ended() {
                Some(i) => {
                    self.forget(i);
                    assert(self@.known.dom() =~= self.known@.dom());
                },
                None => {
                    break;
                },
            }
        }
    }

    /// Takes the reply to one of this runtime's requests. Returns nothing, and
    /// changes nothing, when `id` is not pending here; otherwise the answer that
    /// is due to the caller.
    pub fn on_reply(&mut self, id: u64, result: ReplyResult, error: Option<ErrorObject>) -> (r:
        Option<Answer>)
        requires
            old(self).wf(),
        ensures
            final(self).wf(),
            r is Some <==> old(self)@.pending.contains_key(id),
            r matches Some(a) ==> a@ == reply_answer(
                old(self)@.pending[id],
                result@,
                match error {
                    Some(e) => Some(e@),
                    None => None,
                },
            ),
            final(self)@ == old(self)@.after_reply(
                id,
                result@,
                match error {
                    Some(e) => Some(e@),
                    None => None,
                },
            ),
    {
        let ghost before = *self;
        let pending = match self.pending.remove(&id) {
            Some(p) => p,
            None => {
                return None;
            },
        };
        proof {
            assert(self@.pending =~= before@.pending.remove(id));
            assert(self@ =~= before@.unparked(id));
            assert forall|k: u64|
                self@.pending.contains_key(k) <==> #[trigger] self@.pending_order.contains(k) by {
                assert(self.pending@.contains_key(k) <==> self.pending.keys().contains(k));
            }
        }
        match pending {
            PendingRequest::Spawn { delegation_id, reply } => {
                match error {
                    Some(err) => Some(
                        Answer::Spawn { reply, result: Err(CommandError::from_cp(err)) },
                    ),
                    None => match result.ack {
                        Some(ack) => {
                            let handle = DelegationHandle::new(ack.delegation_id, ack.admission);
                            self.make_history_room();
                            let ghost roomy = *self;
                            let assigned_to = ack.assigned_to.clone();
                            self.known.insert(
                                handle.clone(),
                                DelegationLifecycle::Running { assigned_to: ack.assigned_to },
                            );
                            self.tracked_order.push(handle.clone());
                            proof {
                                assert(self@.known =~= roomy@.known.insert(
                                    handle@,
                                    LifecycleView::Running { assigned_to: assigned_to@ },
                                ));
                                assert(self@.order =~= roomy@.order.push(handle@));
                                assert(self@ =~= before@.unparked(id).admitted(
                                    handle@,
                                    assigned_to@,
                                ));
                                assert forall|k: DelegationKey| self@.known.contains_key(k) implies
                                    #[trigger] self@.order.contains(k) by {
                                    if k == handle@ {
                                        assert(self@.order[roomy@.order.len() as int] == k);
                                    } else {
                                        assert(roomy@.order.contains(k));
                                        let j = roomy@.order.index_of(k);
                                        assert(self@.order[j] == k);
                                    }
                                }
                            }
                            Some(Answer::Spawn { reply, result: Ok(SpawnAck { handle, assigned_to }) })
                        },
                        None => Some(
                            Answer::Spawn {
                                reply,
                                result: Err(
                                    CommandError::Internal(
                                        "cp/delegate ack carried no valid result".to_owned(),
                                    ),
                                ),
                            },
                        ),
                    },
                }
            },
            PendingRequest::Cancel { reply } => match error {
                Some(err) => Some(Answer::Cancel { reply, result: Err(CommandError::from_cp(err)) }),
                None => Some(Answer::Cancel { reply, result: Ok(()) }),
            },
            PendingRequest::ListAgents { reply } => match error {
                Some(err) => Some(
                    Answer::ListAgents { reply, result: Err(CommandError::from_cp(err)) },
                ),
                None => match result.agents {
                    Some(agents) => Some(Answer::ListAgents { reply, result: Ok(agents) }),
                    None => Some(
                        Answer::ListAgents {
                            reply,
                            result: Err(
                                CommandError::Internal(
                                    "cp/list_agents reply carried no valid result".to_owned(),
                                ),
                            ),
                        },
                    ),
                },
            },
        }
    }

    /// Routes a result frame to its delegation. Returns nothing when the
    /// admission that it names is not tracked; otherwise the answers that are
    /// due to everybody who waits for it. The first result counts, and a later
    /// one for the same admission changes nothing.
    pub fn on_delegate_result(&mut self, params: &DelegateResultParams) -> (r: Option<Vec<Answer>>)
        requires
            old(self).wf(),
        ensures
            final(self).wf(),
            final(self)@ == old(self)@.after_result(params@),
            r is Some <==> old(self)@.known.contains_key(
                (params.delegation_id@, params.admission),
            ),
            r matches Some(a) ==> a.deep_view() == old(self)@.result_answers(params@),
    {
        let ghost before = *self;
        let handle = DelegationHandle::new(params.delegation_id.clone(), params.admission);
        let mut answers: Vec<Answer> = Vec::new();
        match self.known.get(&handle) {
            None => {
                return None;
            },
            Some(DelegationLifecycle::Terminal(_)) => {
                assert(answers.deep_view() =~= seq![]);
                return Some(answers);
            },
            Some(_) => {},
        }
        let ghost key = handle@;
        let outcome = DelegationOutcome::from_result(params);
        self.known.insert(handle.clone(), DelegationLifecycle::Terminal(outcome.clone()));
        let waiters = self.take_waiters(&handle);
        let ghost due = |t: u64| AnswerView::Await { reply: t, result: Ok(outcome@) };
        proof {
            assert(self@.known =~= before@.known.insert(key, LifecycleView::Terminal(outcome@)));
            assert(self@ =~= before@.after_result(params@));
            let p = waits_elsewhere(key);
            assert forall|j: int| 0 <= j < self@.awaiters.len() implies is_live(
                self@.known,
                #[trigger] self@.awaiters[j].0,
            ) by {
                before@.awaiters.lemma_filter_pred(p, j);
                assert(self@.awaiters.contains(self@.awaiters[j]));
                lemma_filter_members(before@.awaiters, p, self@.awaiters[j]);
                let n = before@.awaiters.index_of(self@.awaiters[j]);
                assert(is_live(before@.known, before@.awaiters[n].0));
            }
            assert forall|k: DelegationKey| self@.known.contains_key(k) implies
                #[trigger] self@.order.contains(k) by {
                assert(before@.known.contains_key(k));
                assert(before@.order.contains(k));
            }
            assert(answers.deep_view() =~= waiters@.take(0).map_values(due));
        }
        let mut i: usize = 0;
        while i < waiters.len()
            invariant
                i <= waiters@.len(),
                due == (|t: u64| AnswerView::Await { reply: t, result: Ok(outcome@) }),
                answers.deep_view() == waiters@.take(i as int).map_values(due),
            decreases waiters@.len() - i,
        {
            let ghost sofar = answers.deep_view();
            answers.push(Answer::Await { reply: waiters[i], result: Ok(outcome.clone()) });
            assert(answers.deep_view() =~= sofar.push(due(waiters@[i as int])));
            assert(waiters@.take(i + 1).map_values(due) =~= waiters@.take(i as int).map_values(
                due,
            ).push(due(waiters@[i as int])));
            i += 1;
        }
        assert(waiters@.take(waiters@.len() as int) =~= waiters@);
        assert(answers.deep_view() =~= before@.result_answers(params@));
        Some(answers)
    }

    /// Drops every delegation that has not ended.
    fn drop_live(&mut self)
        requires
            old(self).known.wf(),
        ensures
            final(self).known.wf(),
            final(self).pending == old(self).pending,
            final(self).tracked_order == old(self).tracked_order,
            final(self).awaiters == old(self).awaiters,
            final(self)@.known == old(self)@.known.restrict(
                Set::new(|key: DelegationKey| is_ended(old(self)@.known, key)),
            ),
    {
        let ghost before = *self;
        let mut i: usize = self.known.len();
        while i > 0
            invariant
                self.known.wf(),
                before.known.wf(),
                self.pending == before.pending,
                self.tracked_order == before.tracked_order,
                self.awaiters == before.awaiters,
                i <= self.known.keys().len(),
                i <= before.known.keys().len(),
                self.known.keys().take(i as int) == before.known.keys().take(i as int),
                self.known.values().take(i as int) == before.known.values().take(i as int),
                forall|k: DelegationKey| #[trigger]
                    self.known@.contains_key(k) <==> before.known@.contains_key(k) && (
                    before.known@[k] is Terminal || before.known.keys().index_of(k) < i),
                forall|k: DelegationKey| #[trigger]
                    self.known@.contains_key(k) ==> self.known@[k] == before.known@[k],
            decreases i,
        {
            let ghost now = *self;
            let ghost key = before.known.keys()[i - 1];
            proof {
                assert(before.known.keys().take(i as int)[i - 1] == key);
                assert(self.known.keys()[i - 1] == self.known.keys().take(i as int)[i - 1]);
                assert(self.known.values()[i - 1] == self.known.values().take(i as int)[i - 1]);
                assert(before.known.values()[i - 1] == before.known.values().take(i as int)[i - 1]);
                before.known.lemma_at(i - 1);
                self.known.lemma_at(i - 1);
            }
            let ended = match self.known.at(i - 1).1 {
                DelegationLifecycle::Terminal(_) => true,
                _ => false,
            };
            if !ended {
                let _ = self.known.remove_at(i - 1);
                proof {
                    assert(self.known.keys().take(i - 1) =~= before.known.keys().take(i - 1)) by {
                        assert(now.known.keys().take(i as int).take(i - 1)
                            =~= now.known.keys().take(i - 1));
                        assert(before.known.keys().take(i as int).take(i - 1)
                            =~= before.known.keys().take(i - 1));
                        assert(self.known.keys().take(i - 1) =~= now.known.keys().take(i - 1));
                    }
                    assert(self.known.values().take(i - 1) =~= before.known.values().take(i - 1))
                        by {
                        assert(now.known.values().take(i as int).take(i - 1)
                            =~= now.known.values().take(i - 1));
                        assert(before.known.values().take(i as int).take(i - 1)
                            =~= before.known.values().take(i - 1));
                        assert(self.known.values().take(i - 1) =~= now.known.values().take(i - 1));
                    }
                }
            } else {
                proof {
                    assert(now.known.keys().take(i as int).take(i - 1)
                        =~= now.known.keys().take(i - 1));
                    assert(before.known.keys().take(i as int).take(i - 1)
                        =~= before.known.keys().take(i - 1));
                    assert(now.known.values().take(i as int).take(i - 1)
                        =~= now.known.values().take(i - 1));
                    assert(before.known.values().take(i as int).take(i - 1)
                        =~= before.known.values().take(i - 1));
                }
            }
            proof {
                assert forall|k: DelegationKey| #[trigger]
                    self.known@.contains_key(k) <==> before.known@.contains_key(k) && (
                    before.known@[k] is Terminal || before.known.keys().index_of(k) < i - 1) by {
                    if before.known@.contains_key(k) && before.known.keys().index_of(k) == i - 1 {
                        assert(k == key);
                    }
                    assert(now.known@.contains_key(k) <==> before.known@.contains_key(k) && (
                    before.known@[k] is Terminal || before.known.keys().index_of(k) < i));
                }
            }
            i -= 1;
        }
        assert(self@.known =~= before@.known.restrict(
            Set::new(|key: DelegationKey| is_ended(before@.known, key)),
        ));
    }

    /// Ends every outstanding interaction when the connection is lost. Returns
    /// the answers that are due: to the caller of every pending request and to
    /// everybody who waits. Live delegations are dropped; ended ones stay.
    pub fn fail_all_live(&mut self) -> (r: Vec<Answer>)
        requires
            old(self).wf(),
        ensures
            final(self).wf(),
            final(self)@ == old(self)@.after_disconnect(),
            r.deep_view() == old(self)@.disconnect_answers(),
    {
        let ghost before = *self;
        let mut answers: Vec<Answer> = Vec::new();
        let ghost closing = |id: u64| disconnected_answer(before@.pending[id]);
        let ghost waiting = |w: (DelegationKey, u64)|
            AnswerView::Await { reply: w.1, result: Err(CommandErrorView::Disconnected) };
        let mut i: usize = 0;
        assert(answers.deep_view() =~= before@.pending_order.take(0).map_values(closing));
        while i < self.pending.len()
            invariant
                self.wf(),
                *self == before,
                i <= self.pending.keys().len(),
                closing == (|id: u64| disconnected_answer(before@.pending[id])),
                answers.deep_view() == before@.pending_order.take(i as int).map_values(closing),
            decreases self.pending.keys().len() - i,
        {
            let ghost sofar = answers.deep_view();
            let ghost id = self.pending.keys()[i as int];
            proof {
                self.pending.lemma_at(i as int);
            }
            let answer = match self.pending.at(i).1 {
                PendingRequest::Spawn { reply, .. } => Answer::Spawn {
                    reply: *reply,
                    result: Err(CommandError::Disconnected),
                },
                PendingRequest::Cancel { reply } => Answer::Cancel {
                    reply: *reply,
                    result: Err(CommandError::Disconnected),
                },
                PendingRequest::ListAgents { reply } => Answer::ListAgents {
                    reply: *reply,
                    result: Err(CommandError::Disconnected),
                },
            };
            assert(answer@ == closing(id));
            answers.push(answer);
            assert(answers.deep_view() =~= sofar.push(closing(id)));
            assert(before@.pending_order.take(i + 1).map_values(closing)
                =~= before@.pending_order.take(i as int).map_values(closing).push(closing(id)));
            i += 1;
        }
        let ghost closed = answers.deep_view();
        assert(before@.pending_order.take(before@.pending_order.len() as int)
            =~= before@.pending_order);
        let mut j: usize = 0;
        assert(closed + before@.awaiters.take(0).map_values(waiting) =~= closed);
        while j < self.awaiters.len()
            invariant
                *self == before,
                j <= self.awaiters@.len(),
                waiting == (|w: (DelegationKey, u64)|
                    AnswerView::Await { reply: w.1, result: Err(CommandErrorView::Disconnected) }),
                answers.deep_view() == closed + before@.awaiters.take(j as int).map_values(waiting),
            decreases self.awaiters@.len() - j,
        {
            let ghost sofar = answers.deep_view();
            let ghost w = before@.awaiters[j as int];
            answers.push(
                Answer::Await { reply: self.awaiters[j].1, result: Err(CommandError::Disconnected) },
            );
            assert(answers.deep_view() =~= sofar.push(waiting(w)));
            assert(before@.awaiters.take(j + 1).map_values(waiting) =~= before@.awaiters.take(
                j as int,
            ).map_values(waiting).push(waiting(w)));
            j += 1;
        }
        assert(before@.awaiters.take(before@.awaiters.len() as int) =~= before@.awaiters);
        self.pending = Table::new();
        self.awaiters = Vec::new();
        self.drop_live();
        let ghost ended = |key: DelegationKey| is_ended(before@.known, key);
        let ghost seen = |h: DelegationHandle| h@;
        let mut order: Vec<DelegationHandle> = Vec::new();
        let mut n: usize = 0;
        proof {
            lemma_filter_none(before@.order, ended);
            assert(order@.map_values(seen) =~= seq![]);
        }
        while n < self.tracked_order.len()
            invariant
                self.known.wf(),
                self.pending.wf(),
                self.tracked_order == before.tracked_order,
                n <= self.tracked_order@.len() == before@.order.len(),
                self@.known == before@.known.restrict(
                    Set::new(|key: DelegationKey| is_ended(before@.known, key)),
                ),
                ended == (|key: DelegationKey| is_ended(before@.known, key)),
                seen == (|h: DelegationHandle| h@),
                order@.map_values(seen) == before@.order.take(n as int).filter(ended),
            decreases self.tracked_order@.len() - n,
        {
            let ghost sofar = order@;
            let handle = &self.tracked_order[n];
            proof {
                assert(before@.order[n as int] == handle@);
                lemma_filter_step(before@.order, ended, n as int);
                assert(self.known@.contains_key(handle@) <==> self@.known.contains_key(handle@));
            }
            if self.known.contains(handle) {
                order.push(handle.clone());
                assert(order@.map_values(seen) =~= sofar.map_values(seen).push(handle@));
            }
            n += 1;
        }
        assert(before@.order.take(before@.order.len() as int) =~= before@.order);
        self.tracked_order = order;
        proof {
            assert(self@.pending =~= Map::empty());
            assert(self@.awaiters =~= seq![]);
            assert(self@ =~= before@.after_disconnect());
            self.known.lemma_len();
            assert(self@.known.dom() =~= self.known@.dom());
            assert forall|k: DelegationKey| self@.known.contains_key(k) implies
                #[trigger] self@.order.contains(k) by {
                assert(before@.order.contains(k));
                lemma_filter_members(before@.order, ended, k);
            }
            assert(answers.deep_view() =~= before@.disconnect_answers());
        }
        answers
    }
}

/// The first result for an admission counts: a second one for the same
/// admission changes nothing and answers nobody.
pub proof fn law_first_result_wins(s: PrimaryView, p: DelegateResultView, q: DelegateResultView)
    requires
        s.wf(),
        s.known.contains_key((p.delegation_id, p.admission)),
        q.delegation_id == p.delegation_id,
        q.admission == p.admission,
    ensures
        s.after_result(p).after_result(q) == s.after_result(p),
        s.after_result(p).result_answers(q) == Seq::<AnswerView>::empty(),
{
}

/// A result that names an admission which is not tracked changes nothing, even
/// when the same delegation id is tracked under another admission.
pub proof fn law_stale_result_is_ignored(s: PrimaryView, p: DelegateResultView)
    requires
        s.wf(),
        !s.known.contains_key((p.delegation_id, p.admission)),
    ensures
        s.after_result(p) == s,
        s.result_answers(p) == Seq::<AnswerView>::empty(),
{
}

/// A result leaves every other delegation and everybody who waits for one as
/// they were.
pub proof fn law_result_touches_one_admission(
    s: PrimaryView,
    p: DelegateResultView,
    other: DelegationKey,
)
    requires
        s.wf(),
        other != (p.delegation_id, p.admission),
    ensures
        s.after_result(p).known.contains_key(other) == s.known.contains_key(other),
        s.known.contains_key(other) ==> s.after_result(p).known[other] == s.known[other],
        forall|t: u64|
            s.after_result(p).awaiters.contains((other, t)) <==> #[trigger] s.awaiters.contains(
                (other, t),
            ),
{
    let key = (p.delegation_id, p.admission);
    assert forall|t: u64|
        s.after_result(p).awaiters.contains((other, t)) <==> #[trigger] s.awaiters.contains(
            (other, t),
        ) by {
        lemma_filter_members(s.awaiters, waits_elsewhere(key), (other, t));
    }
}

/// Whoever waits for a live delegation is answered with its outcome when the
/// result arrives, and nobody waits for it afterwards.
pub proof fn law_result_wakes_waiters(s: PrimaryView, p: DelegateResultView, ticket: u64)
    requires
        s.wf(),
        s.awaiters.contains(((p.delegation_id, p.admission), ticket)),
    ensures
        s.result_answers(p).contains(
            AnswerView::Await {
                reply: ticket,
                result: Ok(OutcomeView { status: p.status, result: p.result, error: p.error }),
            },
        ),
        forall|t: u64|
            !#[trigger] s.after_result(p).awaiters.contains(
                ((p.delegation_id, p.admission), t),
            ),
        s.after_result(p).known[(p.delegation_id, p.admission)] == LifecycleView::Terminal(
            OutcomeView { status: p.status, result: p.result, error: p.error },
        ),
{
    let key = (p.delegation_id, p.admission);
    let n = s.awaiters.index_of((key, ticket));
    assert(is_live(s.known, s.awaiters[n].0));
    lemma_filter_members(s.awaiters, waits_for(key), (key, ticket));
    let mine = s.awaiters.filter(waits_for(key));
    let i = mine.index_of((key, ticket));
    assert(s.waiting_for(key)[i] == ticket);
    let due = AnswerView::Await { reply: ticket, result: Ok(outcome_of(p)) };
    assert(s.result_answers(p)[i] == due);
    assert forall|t: u64| !#[trigger] s.after_result(p).awaiters.contains((key, t)) by {
        lemma_filter_members(s.awaiters, waits_elsewhere(key), (key, t));
    }
}

/// An acked spawn is tracked as running where the control plane routed it, and
/// its request is no longer pending.
pub proof fn law_ack_starts_tracking(s: PrimaryView, id: u64, ack: SpawnAckView)
    requires
        s.wf(),
        s.pending.contains_key(id),
        s.pending[id] is Spawn,
    ensures
        ({
            let t = s.after_reply(id, ReplyView { ack: Some(ack), agents: None }, None);
            &&& t.known.contains_key(ack.handle)
            &&& t.known[ack.handle] == (LifecycleView::Running { assigned_to: ack.assigned_to })
            &&& !t.pending.contains_key(id)
        }),
{
    lemma_room_keeps_pending(s.unparked(id));
}

proof fn lemma_room_keeps_pending(s: PrimaryView)
    ensures
        s.with_room().pending == s.pending,
        s.with_room().pending_order == s.pending_order,
    decreases s.order.len(),
{
    if s.known.dom().len() >= MAX_TRACKED_DELEGATIONS {
        match s.first_ended(0) {
            Some(i) => if 0 <= i < s.order.len() {
                lemma_room_keeps_pending(s.forgotten(i));
            },
            None => {},
        }
    }
}

/// Making room never forgets a live delegation.
pub proof fn law_live_delegations_are_kept(s: PrimaryView, key: DelegationKey)
    requires
        is_live(s.known, key),
    ensures
        s.with_room().known.contains_key(key),
        s.with_room().known[key] == s.known[key],
    decreases s.order.len(),
{
    if s.known.dom().len() >= MAX_TRACKED_DELEGATIONS {
        lemma_first_ended(s, 0);
        match s.first_ended(0) {
            Some(i) => if 0 <= i < s.order.len() {
                law_live_delegations_are_kept(s.forgotten(i), key);
            },
            None => {},
        }
    }
}

proof fn lemma_first_ended(s: PrimaryView, from: int)
    requires
        0 <= from,
    ensures
        match s.first_ended(from) {
            Some(i) => from <= i < s.order.len() && is_ended(s.known, s.order[i]) && forall|j: int|
                from <= j < i ==> !is_ended(s.known, #[trigger] s.order[j]),
            None => forall|j: int|
                from <= j < s.order.len() ==> !is_ended(s.known, #[trigger] s.order[j]),
        },
    decreases s.order.len() - from,
{
    if from < s.order.len() && !is_ended(s.known, s.order[from]) {
        lemma_first_ended(s, from + 1);
    }
}

proof fn lemma_forgotten_order(s: PrimaryView, i: int)
    requires
        s.known.dom().finite(),
        forall|key: DelegationKey| s.known.contains_key(key) ==> #[trigger] s.order.contains(key),
        0 <= i < s.order.len(),
    ensures
        s.forgotten(i).known.dom().finite(),
        forall|key: DelegationKey|
            s.forgotten(i).known.contains_key(key) ==> #[trigger] s.forgotten(i).order.contains(key),
{
    assert forall|key: DelegationKey| s.forgotten(i).known.contains_key(key) implies
        #[trigger] s.forgotten(i).order.contains(key) by {
        assert(s.order.contains(key));
        let j = s.order.index_of(key);
        if j < i {
            assert(s.forgotten(i).order[j] == key);
        } else {
            assert(s.forgotten(i).order[j - 1] == key);
        }
    }
}

/// After making room fewer than [`MAX_TRACKED_DELEGATIONS`] delegations are
/// tracked, or every one that is tracked is live.
pub proof fn law_history_is_bounded(s: PrimaryView)
    requires
        s.wf(),
    ensures
        s.with_room().known.dom().len() < MAX_TRACKED_DELEGATIONS || forall|key: DelegationKey|
            #[trigger] s.with_room().known.contains_key(key) ==> is_live(s.with_room().known, key),
{
    lemma_room(s);
}

proof fn lemma_room(s: PrimaryView)
    requires
        s.known.dom().finite(),
        forall|key: DelegationKey| s.known.contains_key(key) ==> #[trigger] s.order.contains(key),
    ensures
        s.with_room().known.dom().len() < MAX_TRACKED_DELEGATIONS || forall|key: DelegationKey|
            #[trigger] s.with_room().known.contains_key(key) ==> is_live(s.with_room().known, key),
    decreases s.order.len(),
{
    if s.known.dom().len() >= MAX_TRACKED_DELEGATIONS {
        lemma_first_ended(s, 0);
        match s.first_ended(0) {
            Some(i) => {
                lemma_forgotten_order(s, i);
                lemma_room(s.forgotten(i));
            },
            None => {
                assert forall|key: DelegationKey| #[trigger]
                    s.known.contains_key(key) implies is_live(s.known, key) by {
                    assert(s.order.contains(key));
                    let j = s.order.index_of(key);
                    assert(!is_ended(s.known, s.order[j]));
                }
            },
        }
    }
}

/// What is forgotten first is the oldest: when the history is full, one step
/// of making room forgets an ended delegation before which only live ones
/// stand in the order.
pub proof fn law_oldest_is_forgotten_first(s: PrimaryView, i: int)
    requires
        s.wf(),
        s.known.dom().len() >= MAX_TRACKED_DELEGATIONS,
        0 <= i < s.order.len(),
        is_ended(s.known, s.order[i]),
        forall|j: int| 0 <= j < i ==> !is_ended(s.known, #[trigger] s.order[j]),
    ensures
        s.with_room() == s.forgotten(i).with_room(),
        !s.forgotten(i).known.contains_key(s.order[i]),
{
    lemma_first_ended(s, 0);
    assert(s.first_ended(0) == Some(i));
}

/// The loss of the connection leaves nothing live and nothing pending, and it
/// keeps every ended delegation.
pub proof fn law_disconnect_leaves_nothing_live(s: PrimaryView, key: DelegationKey)
    requires
        s.wf(),
    ensures
        !is_live(s.after_disconnect().known, key),
        is_ended(s.known, key) ==> s.after_disconnect().known.contains_key(key)
            && s.after_disconnect().known[key] == s.known[key],
        s.after_disconnect().pending == Map::<u64, PendingView>::empty(),
        s.after_disconnect().awaiters == Seq::<(DelegationKey, u64)>::empty(),
{
}

/// The loss of the connection answers the caller of every pending request and
/// everybody who waits, once each.
pub proof fn law_disconnect_answers_everybody(s: PrimaryView)
    requires
        s.wf(),
    ensures
        s.disconnect_answers().len() == s.pending_order.len() + s.awaiters.len(),
        forall|id: u64| #[trigger]
            s.pending.contains_key(id) ==> s.disconnect_answers().contains(
                disconnected_answer(s.pending[id]),
            ),
        forall|i: int|
            0 <= i < s.awaiters.len() ==> s.disconnect_answers().contains(
                AnswerView::Await {
                    reply: (#[trigger] s.awaiters[i]).1,
                    result: Err(CommandErrorView::Disconnected),
                },
            ),
{
    assert forall|id: u64| #[trigger] s.pending.contains_key(id) implies s.disconnect_answers()
        .contains(disconnected_answer(s.pending[id])) by {
        assert(s.pending_order.contains(id));
        let i = s.pending_order.index_of(id);
        assert(s.disconnect_answers()[i] == disconnected_answer(s.pending[id]));
    }
    assert forall|i: int| 0 <= i < s.awaiters.len() implies s.disconnect_answers().contains(
        AnswerView::Await {
            reply: (#[trigger] s.awaiters[i]).1,
            result: Err(CommandErrorView::Disconnected),
        },
    ) by {
        let due = AnswerView::Await {
            reply: s.awaiters[i].1,
            result: Err(CommandErrorView::Disconnected),
        };
        assert(s.disconnect_answers()[s.pending_order.len() + i] == due);
    }
}

/// The outcome has exactly the status, the result and the error of the result
/// frame, whichever status that is: so says every answer that the frame makes
/// due, and so says the lifecycle that a status check reports from then on. As
/// many are answered as wait, in the order in which they came.
pub proof fn law_outcome_is_what_the_frame_says(s: PrimaryView, p: DelegateResultView)
    requires
        s.wf(),
        is_live(s.known, (p.delegation_id, p.admission)),
    ensures
        ({
            let key = (p.delegation_id, p.admission);
            let waiting = s.waiting_for(key);
            &&& s.result_answers(p).len() == waiting.len()
            &&& forall|i: int|
                0 <= i < waiting.len() ==> (#[trigger] s.result_answers(p)[i] matches
                    AnswerView::Await { reply, result: Ok(o) } && reply == waiting[i] && o.status
                    == p.status && o.result == p.result && o.error == p.error)
            &&& s.after_result(p).known.contains_key(key)
            &&& s.after_result(p).known[key] matches LifecycleView::Terminal(o) && o.status
                == p.status && o.result == p.result && o.error == p.error
        }),
{
}

/// An outcome tells a delegation that completed from one that failed, ran out of
/// time, was cancelled or lost its target, and keeps what it says.
pub proof fn law_outcomes_keep_statuses_apart(p: DelegateResultView, q: DelegateResultView)
    ensures
        outcome_of(p).status == p.status,
        outcome_of(p).result == p.result,
        outcome_of(p).error == p.error,
        outcome_of(p) == outcome_of(q) <==> p.status == q.status && p.result == q.result && p.error
            == q.error,
{
}

/// Every status has a word of its own on the local socket.
pub proof fn law_statuses_have_their_own_words(s: DelegationStatus, t: DelegationStatus)
    ensures
        wire_word(wire_status(s)) == wire_word(wire_status(t)) <==> s == t,
        s is Completed <==> wire_word(wire_status(s)) == "completed"@,
        s is Failed <==> wire_word(wire_status(s)) == "failed"@,
        s is Timeout <==> wire_word(wire_status(s)) == "timeout"@,
        s is Cancelled <==> wire_word(wire_status(s)) == "cancelled"@,
        s is TargetDisconnected <==> wire_word(wire_status(s)) == "target_disconnected"@,
{
    reveal_strlit("completed");
    reveal_strlit("failed");
    reveal_strlit("timeout");
    reveal_strlit("cancelled");
    reveal_strlit("target_disconnected");
    assert("completed"@[1] == 'o' && "cancelled"@[1] == 'a');
    assert("failed"@.len() == 6 && "timeout"@.len() == 7 && "completed"@.len() == 9);
    assert("target_disconnected"@.len() == 19);
}

/// The ticket of whoever made a request.
pub open spec fn ticket_of(p: PendingView) -> u64 {
    match p {
        PendingView::Spawn { reply, .. } => reply,
        PendingView::Cancel { reply } => reply,
        PendingView::ListAgents { reply } => reply,
    }
}

/// The ticket under which an answer is due.
pub open spec fn answered_ticket(a: AnswerView) -> u64 {
    match a {
        AnswerView::Spawn { reply, .. } => reply,
        AnswerView::Await { reply, .. } => reply,
        AnswerView::Check { reply, .. } => reply,
        AnswerView::Cancel { reply, .. } => reply,
        AnswerView::ListAgents { reply, .. } => reply,
    }
}

/// Whether an answer is an error, and which.
pub open spec fn answered_error(a: AnswerView) -> Option<CommandErrorView> {
    match a {
        AnswerView::Spawn { result: Err(e), .. } => Some(e),
        AnswerView::Await { result: Err(e), .. } => Some(e),
        AnswerView::Check { result: Err(e), .. } => Some(e),
        AnswerView::Cancel { result: Err(e), .. } => Some(e),
        AnswerView::ListAgents { result: Err(e), .. } => Some(e),
        _ => None,
    }
}

/// A reply is handed to whoever made the request, as the kind of answer that
/// was asked for. An error is passed on with its code and its message; without
/// one a spawn gets the handle and the runtime of the ack, a roster request the
/// roster, and a cancellation is done.
pub proof fn law_reply_is_passed_on(p: PendingView, result: ReplyView, error: Option<ErrorView>)
    ensures
        ({
            let a = reply_answer(p, result, error);
            &&& answered_ticket(a) == ticket_of(p)
            &&& a is Spawn <==> p is Spawn
            &&& a is Cancel <==> p is Cancel
            &&& a is ListAgents <==> p is ListAgents
            &&& error matches Some(e) ==> (answered_error(a) matches Some(
                CommandErrorView::Cp { code, message },
            ) && code == e.code && message == e.message)
            &&& error is None && p is Cancel ==> answered_error(a) is None
            &&& error is None && p is Spawn ==> match result.ack {
                Some(ack) => a matches AnswerView::Spawn { result: Ok(given), .. } && given.handle
                    == ack.handle && given.assigned_to == ack.assigned_to,
                None => answered_error(a) is Some,
            }
            &&& error is None && p is ListAgents ==> match result.agents {
                Some(agents) => a matches AnswerView::ListAgents { result: Ok(given), .. } && given
                    == agents,
                None => answered_error(a) is Some,
            }
        }),
{
}

/// The loss of the connection answers whoever made a request, as the kind of
/// answer that was asked for, and says what happened.
pub proof fn law_lost_connection_is_told(p: PendingView)
    ensures
        answered_ticket(disconnected_answer(p)) == ticket_of(p),
        answered_error(disconnected_answer(p)) == Some(CommandErrorView::Disconnected),
        disconnected_answer(p) is Spawn <==> p is Spawn,
        disconnected_answer(p) is Cancel <==> p is Cancel,
        disconnected_answer(p) is ListAgents <==> p is ListAgents,
{
}

/// A parked request is pending under its id, and every other request is as it
/// was; once it had its reply it is not pending any more. Nothing else changes.
pub proof fn law_parking_touches_one_request(
    s: PrimaryView,
    id: u64,
    request: PendingView,
    other: u64,
)
    requires
        s.wf(),
    ensures
        ({
            let t = s.parked(id, request);
            &&& t.pending.contains_key(id) && t.pending[id] == request
            &&& other != id ==> t.pending.contains_key(other) == s.pending.contains_key(other)
            &&& other != id && s.pending.contains_key(other) ==> t.pending[other]
                == s.pending[other]
            &&& t.known == s.known && t.order == s.order && t.awaiters == s.awaiters
            &&& !t.unparked(id).pending.contains_key(id)
            &&& t.unparked(id).known == s.known && t.unparked(id).awaiters == s.awaiters
            &&& !s.pending.contains_key(id) ==> t.unparked(id) == s
        }),
{
    let t = s.parked(id, request);
    if !s.pending.contains_key(id) {
        assert(!s.pending_order.contains(id));
        let order = s.pending_order.push(id);
        assert(order[s.pending_order.len() as int] == id);
        let n = order.index_of(id);
        assert(n == s.pending_order.len()) by {
            if n < s.pending_order.len() {
                assert(s.pending_order[n] == id);
            }
        }
        assert(order.remove(n) =~= s.pending_order);
        assert(t.unparked(id).pending =~= s.pending);
    }
}

/// An error's text tells its message and its code.
pub proof fn law_command_error_is_told(code: i64, message: Seq<char>)
    ensures
        holds(command_error_text(CommandErrorView::Cp { code, message }), message),
        holds(
            command_error_text(CommandErrorView::Cp { code, message }),
            signed_decimal(code as int),
        ),
        holds(command_error_text(CommandErrorView::Internal(message)), message),
{
    let head = "control plane returned an error: "@;
    let tail = " (code "@;
    let number = signed_decimal(code as int);
    let whole = command_error_text(CommandErrorView::Cp { code, message });
    lemma_holds_between(head, message, tail + number + ")"@);
    assert(head + message + (tail + number + ")"@) =~= whole);
    lemma_holds_between(head + message + tail, number, ")"@);
    assert(head + message + tail + number + ")"@ =~= whole);
    lemma_holds_between("internal error: "@, message, seq![]);
    assert("internal error: "@ + message + Seq::<char>::empty() =~= "internal error: "@ + message);
}

/// Admitting a delegation leaves every live one as it was, and forgets none of
/// the ended ones while there is room.
pub proof fn law_admission_keeps_the_others(
    s: PrimaryView,
    key: DelegationKey,
    assigned_to: Seq<char>,
    other: DelegationKey,
)
    requires
        s.wf(),
        other != key,
    ensures
        is_live(s.known, other) ==> s.admitted(key, assigned_to).known.contains_key(other)
            && s.admitted(key, assigned_to).known[other] == s.known[other],
        s.known.dom().len() < MAX_TRACKED_DELEGATIONS && s.known.contains_key(other)
            ==> s.admitted(key, assigned_to).known.contains_key(other) && s.admitted(
            key,
            assigned_to,
        ).known[other] == s.known[other],
        s.admitted(key, assigned_to).known.contains_key(key),
        s.admitted(key, assigned_to).known[key] == (LifecycleView::Running { assigned_to }),
        s.admitted(key, assigned_to).order.last() == key,
{
    if is_live(s.known, other) {
        law_live_delegations_are_kept(s, other);
    }
}

/// A reply that is an error starts no delegation, and a reply to anything but a
/// spawn changes none.
pub proof fn law_refused_spawn_tracks_nothing(
    s: PrimaryView,
    id: u64,
    result: ReplyView,
    error: Option<ErrorView>,
)
    requires
        s.wf(),
        error is Some || !(s.pending[id] is Spawn) || result.ack is None,
    ensures
        s.after_reply(id, result, error).known == s.known,
        s.after_reply(id, result, error).order == s.order,
        s.after_reply(id, result, error).awaiters == s.awaiters,
        !s.after_reply(id, result, error).pending.contains_key(id),
{
}

/// Those who wait for a delegation wait under their own tickets, in the order in
/// which they came, and whoever comes last is last.
pub proof fn law_waiting_is_in_order_of_arrival(
    s: PrimaryView,
    key: DelegationKey,
    other: DelegationKey,
    ticket: u64,
)
    requires
        key != other,
    ensures
        ({
            let t = PrimaryView { awaiters: s.awaiters.push((key, ticket)), ..s };
            &&& t.waiting_for(key) == s.waiting_for(key).push(ticket)
            &&& t.waiting_for(other) == s.waiting_for(other)
        }),
{
    let t = PrimaryView { awaiters: s.awaiters.push((key, ticket)), ..s };
    let n = s.awaiters.len() as int;
    assert(t.awaiters.take(n) =~= s.awaiters);
    assert(t.awaiters.take(n + 1) =~= t.awaiters);
    lemma_filter_step(t.awaiters, waits_for(key), n);
    lemma_filter_step(t.awaiters, waits_for(other), n);
    assert(t.waiting_for(key) =~= s.waiting_for(key).push(ticket));
}

} // verus!
