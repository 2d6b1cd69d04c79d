//! The connection to the control plane: registration, the serve loop, and how
//! long to wait before the next attempt.
//!
//! The loop itself belongs to the program. Each function here takes one event
//! and says what to do about it.

use crate::config::ControlPlaneConfig;
use crate::config::CpAgentType;
use crate::control_plane::executor::DelegationExecutor;
use crate::control_plane::executor::ExecutorView;
use crate::control_plane::executor::ServeStep;
use crate::control_plane::executor::cap_text;
use crate::control_plane::executor::capped;
use crate::control_plane::executor::law_capped_text_fits;
use crate::control_plane::executor::lemma_marker_len;
use crate::control_plane::executor::served;
use crate::control_plane::primary::Answer;
use crate::control_plane::primary::AnswerView;
use crate::control_plane::primary::ClientCommand;
use crate::control_plane::primary::CommandError;
use crate::control_plane::primary::CommandErrorView;
use crate::control_plane::primary::DelegationHandle;
use crate::control_plane::primary::LifecycleView;
use crate::control_plane::primary::OutcomeView;
use crate::control_plane::primary::PendingView;
use crate::control_plane::primary::PrimaryState;
use crate::control_plane::primary::PrimaryView;
use crate::control_plane::primary::ReplyResult;
use crate::control_plane::primary::SpawnRequest;
use crate::control_plane::primary::SpawnTarget;
use crate::control_plane::primary::answered_error;
use crate::control_plane::primary::answered_ticket;
use crate::control_plane::primary::is_live;
use crate::control_plane::primary::law_parking_touches_one_request;
use crate::control_plane::primary::law_result_wakes_waiters;
use crate::control_plane::primary::result_view;
use crate::control_plane::primary::wire_status;
use crate::control_plane::primary::wire_word;
use crate::encoding::byte_len;
use crate::encoding::lemma_utf8_len_add;
use crate::encoding::utf8_len;
use crate::ids::fresh_uuid;
use crate::ids::is_uuid;
use crate::json::escaped_len;
use crate::json::json_string;
use crate::json::lemma_json_string_len;
use crate::json::quoted;
use crate::proto::CancelParams;
use crate::proto::DelegateForward;
use crate::proto::DelegateParams;
use crate::proto::DelegateResultParams;
use crate::proto::DelegateResultView;
use crate::proto::DelegationStatus;
use crate::proto::ErrorObject;
use crate::proto::ErrorView;
use crate::proto::INVALID_PARAMS;
use crate::proto::INVALID_REQUEST;
use crate::proto::METHOD_NOT_FOUND;
use crate::proto::POLICY_DENIED;
use crate::proto::PROTOCOL_VERSION;
use crate::proto::RegisterAck;
use crate::proto::RegisterParams;
use crate::proto::Timestamp;
use crate::text::decimal;
use crate::text::decimal_text;
use crate::text::holds;
use crate::text::lemma_holds_between;
use crate::text::same;
use crate::text::signed_decimal;
use crate::text::signed_decimal_text;
use vstd::prelude::*;
use vstd::string::*;

verus! {

/// The longest base delay between two attempts, in seconds.
pub const MAX_BACKOFF_SECS: u64 = 30;

/// How long a session must last before the delay starts over, in seconds.
pub const STABLE_SESSION_SECS: u64 = 60;

/// How long cancelled delegations may take to unwind, in milliseconds.
pub const DRAIN_TIMEOUT_MS: u64 = 5000;

/// The largest frame that the transport carries, in bytes.
pub const MAX_FRAME_BYTES: usize = 1048576;

/// How long establishing the connection may take, in milliseconds.
pub const CONNECT_TIMEOUT_MS: u64 = 10000;

/// How long the control plane may take to acknowledge a registration, in
/// milliseconds.
pub const REGISTER_TIMEOUT_MS: u64 = 10000;

/// How many commands may be queued.
pub const COMMAND_QUEUE_DEPTH: usize = 64;

/// The delay that follows `current`: twice as long, up to the ceiling.
pub open spec fn doubled_backoff(current: u64) -> u64 {
    if 2 * current <= MAX_BACKOFF_SECS {
        (2 * current) as u64
    } else {
        MAX_BACKOFF_SECS
    }
}

/// The delay that follows `current`: twice as long, up to the ceiling.
pub fn next_backoff(current: u64) -> (r: u64)
    ensures
        r == doubled_backoff(current),
        r <= MAX_BACKOFF_SECS,
{
    if current <= MAX_BACKOFF_SECS / 2 {
        current * 2
    } else {
        MAX_BACKOFF_SECS
    }
}

/// The delay after a session that lasted `elapsed_ms`: it starts over after a
/// stable session only.
pub fn backoff_after_session(current: u64, elapsed_ms: u64) -> (r: u64)
    ensures
        r == (if elapsed_ms >= STABLE_SESSION_SECS * 1000 {
            1
        } else {
            current
        }),
{
    if elapsed_ms >= STABLE_SESSION_SECS * 1000 {
        1
    } else {
        current
    }
}

/// `rand::thread_rng().gen_range(low..=high)`: a number between the two, both
/// included, of which nothing else is known.
#[verifier::external_body]
fn random_between(low: u64, high: u64) -> (r: u64)
    requires
        low <= high,
    ensures
        low <= r <= high,
{
    rand::Rng::gen_range(&mut rand::thread_rng(), low..=high)
}

/// `base_secs` in milliseconds, at least one and at most the largest `u64`.
pub open spec fn backoff_ceiling_ms(base_secs: u64) -> int {
    if base_secs == 0 {
        1
    } else if base_secs * 1000 > u64::MAX {
        u64::MAX as int
    } else {
        base_secs * 1000
    }
}

/// A random delay in milliseconds, between half of `base_secs` and all of it.
pub fn jittered_backoff(base_secs: u64) -> (r: u64)
    ensures
        backoff_ceiling_ms(base_secs) / 2 <= r <= backoff_ceiling_ms(base_secs),
{
    let max_ms: u64 = if base_secs == 0 {
        1
    } else if base_secs > u64::MAX / 1000 {
        u64::MAX
    } else {
        base_secs * 1000
    };
    random_between(max_ms / 2, max_ms)
}

/// The delay between two attempts to hold a session.
#[derive(Clone, Copy, Debug, PartialEq, Eq, Structural)]
pub struct Reconnect {
    pub backoff_secs: u64,
}

/// How one attempt to hold a session ended.
#[derive(Clone, Copy, Debug, PartialEq, Eq, Structural)]
pub enum Served {
    /// The program shuts down.
    Shutdown,
    /// A session ended after this many milliseconds.
    Disconnected { elapsed_ms: u64 },
    /// No session came about.
    Failed,
}

impl Reconnect {
    /// The delay before the first attempt failed.
    pub fn new() -> (r: Self)
        ensures
            r.backoff_secs == 1,
            r.wf(),
    {
        Reconnect { backoff_secs: 1 }
    }

    /// The delay is at least one second and at most the ceiling.
    pub open spec fn wf(self) -> bool {
        1 <= self.backoff_secs <= MAX_BACKOFF_SECS
    }

    /// What follows an attempt: nothing at shutdown, and otherwise the base of
    /// the delay before the next one.
    pub fn after_attempt(&mut self, served: Served) -> (r: Option<u64>)
        requires
            old(self).wf(),
        ensures
            final(self).wf(),
            r is None <==> served is Shutdown,
            r matches Some(base) ==> base == final(self).backoff_secs,
            final(self).backoff_secs == (match served {
                Served::Disconnected { elapsed_ms } => if elapsed_ms >= STABLE_SESSION_SECS * 1000 {
                    1
                } else {
                    old(self).backoff_secs
                },
                _ => old(self).backoff_secs,
            }),
    {
        match served {
            Served::Shutdown => None,
            Served::Disconnected { elapsed_ms } => {
                self.backoff_secs = backoff_after_session(self.backoff_secs, elapsed_ms);
                Some(self.backoff_secs)
            },
            Served::Failed => Some(self.backoff_secs),
        }
    }

    /// The delay is over; the next one is longer.
    pub fn after_delay(&mut self)
        requires
            old(self).wf(),
        ensures
            final(self).wf(),
            final(self).backoff_secs == doubled_backoff(old(self).backoff_secs),
    {
        self.backoff_secs = next_backoff(self.backoff_secs);
    }
}

/// The word for a status on the wire.
pub open spec fn status_word(s: DelegationStatus) -> Seq<char> {
    match s {
        DelegationStatus::Completed => "completed"@,
        DelegationStatus::Failed => "failed"@,
        DelegationStatus::Timeout => "timeout"@,
        DelegationStatus::Cancelled => "cancelled"@,
        DelegationStatus::TargetDisconnected => "target_disconnected"@,
    }
}

fn status_text(s: DelegationStatus) -> (r: &'static str)
    ensures
        r@ == status_word(s),
{
    match s {
        DelegationStatus::Completed => "completed",
        DelegationStatus::Failed => "failed",
        DelegationStatus::Timeout => "timeout",
        DelegationStatus::Cancelled => "cancelled",
        DelegationStatus::TargetDisconnected => "target_disconnected",
    }
}

/// An optional member of a JSON object, with the comma after it.
pub open spec fn member(name: Seq<char>, value: Option<Seq<char>>) -> Seq<char> {
    match value {
        Some(v) => name + json_string(v) + ","@,
        None => seq![],
    }
}

/// What stands before the payload of a result frame.
pub open spec fn frame_head(id: u64, p: DelegateResultView) -> Seq<char> {
    "{\"jsonrpc\":\"2.0\",\"id\":"@ + decimal(id as nat)
        + ",\"method\":\"cp/delegate_result\",\"params\":{\"admission\":"@ + decimal(
        p.admission as nat,
    ) + ",\"delegation_id\":"@ + json_string(p.delegation_id) + ","@
}

/// The end of a result frame.
pub open spec fn frame_tail(status: DelegationStatus) -> Seq<char> {
    "\"status\":\""@ + status_word(status) + "\"}}"@
}

/// The frame that reports the end of a delegation.
pub open spec fn result_frame(id: u64, p: DelegateResultView) -> Seq<char> {
    frame_head(id, p) + member("\"error\":"@, p.error) + member("\"result\":"@, p.result)
        + frame_tail(p.status)
}

/// Whether a frame fits the transport.
pub open spec fn fits(frame: Seq<char>) -> bool {
    utf8_len(frame) <= MAX_FRAME_BYTES
}

/// Whether a frame fits the transport.
pub fn fits_transport(frame: &str) -> (r: bool)
    ensures
        r == fits(frame@),
{
    byte_len(frame) <= MAX_FRAME_BYTES
}

fn push_member(out: &mut String, name: &str, value: &Option<String>)
    ensures
        final(out)@ == old(out)@ + member(name@, value.deep_view()),
{
    match value {
        Some(v) => {
            let literal = quoted(v.as_str());
            let ghost before = out@;
            out.append(name);
            out.append(literal.as_str());
            out.append(",");
            assert(out@ =~= before + member(name@, value.deep_view()));
        },
        None => {
            assert(out@ + Seq::<char>::empty() =~= out@);
        },
    }
}

/// Writes the frame that reports the end of a delegation.
pub fn render_result_frame(id: u64, p: &DelegateResultParams) -> (r: String)
    ensures
        r@ == result_frame(id, p@),
{
    let mut out = "{\"jsonrpc\":\"2.0\",\"id\":".to_owned();
    let n = decimal_text(id);
    out.append(n.as_str());
    out.append(",\"method\":\"cp/delegate_result\",\"params\":{\"admission\":");
    let a = decimal_text(p.admission);
    out.append(a.as_str());
    out.append(",\"delegation_id\":");
    let d = quoted(p.delegation_id.as_str());
    out.append(d.as_str());
    out.append(",");
    assert(out@ =~= frame_head(id, p@));
    push_member(&mut out, "\"error\":", &p.error);
    push_member(&mut out, "\"result\":", &p.result);
    let ghost before = out@;
    out.append("\"status\":\"");
    out.append(status_text(p.status));
    out.append("\"}}");
    assert(out@ =~= before + frame_tail(p.status));
    out
}

/// `p` with its payload replaced: the result text when there is one, else the
/// error text.
pub open spec fn with_payload(p: DelegateResultView, payload: Seq<char>) -> DelegateResultView {
    if p.result is Some {
        DelegateResultView { result: Some(payload), ..p }
    } else {
        DelegateResultView { error: Some(payload), ..p }
    }
}

/// The payload of a result: the result text when there is one, else the error
/// text.
pub open spec fn payload_of(p: DelegateResultView) -> Option<Seq<char>> {
    if p.result is Some {
        p.result
    } else {
        p.error
    }
}

/// The bytes of a result frame with an empty payload.
pub open spec fn envelope_len(id: u64, p: DelegateResultView) -> nat {
    utf8_len(result_frame(id, with_payload(p, seq![])))
}

/// The payload shortened to what the transport leaves beside the envelope.
pub open spec fn fitted_frame(id: u64, p: DelegateResultView) -> Seq<char> {
    result_frame(
        id,
        with_payload(
            p,
            capped(payload_of(p)->0, (MAX_FRAME_BYTES - envelope_len(id, p)) as nat),
        ),
    )
}

/// The frame that reports a delegation's end: whole where it fits, else with
/// its payload cut.
pub open spec fn sent_frame(id: u64, p: DelegateResultView) -> Seq<char> {
    if fits(result_frame(id, p)) {
        result_frame(id, p)
    } else {
        fitted_frame(id, p)
    }
}

/// Why a delegation's end cannot be reported.
pub open spec fn result_error(id: u64, p: DelegateResultView) -> Option<Seq<char>> {
    if fits(result_frame(id, p)) {
        None
    } else if payload_of(p) is None {
        Some("delegate_result envelope exceeds the transport limit without a payload"@)
    } else if envelope_len(id, p) >= MAX_FRAME_BYTES {
        Some(
            "delegate_result envelope ("@ + decimal(envelope_len(id, p))
                + " bytes) exceeds transport limit (1048576 bytes)"@,
        )
    } else if fits(fitted_frame(id, p)) {
        None
    } else {
        Some("delegate_result payload could not be fitted to the transport limit"@)
    }
}

/// The frame for a result, whose payload is shortened when the frame would
/// exceed the transport. Fails when there is no payload to shorten, and when
/// what stands beside it is too long by itself.
pub fn delegate_result_request(id: u64, result: DelegateResultParams) -> (r: Result<String, String>)
    ensures
        match result_error(id, result@) {
            Some(why) => r matches Err(e) && e@ == why,
            None => r matches Ok(frame) && frame@ == sent_frame(id, result@) && fits(frame@),
        },
{
    let ghost p = result@;
    let frame = render_result_frame(id, &result);
    if fits_transport(frame.as_str()) {
        return Ok(frame);
    }
    let is_result = result.result.is_some();
    let mut result = result;
    let payload = if is_result {
        result.result.take()
    } else {
        result.error.take()
    };
    let payload = match payload {
        Some(text) => text,
        None => {
            return Err(
                "delegate_result envelope exceeds the transport limit without a payload".to_owned(),
            );
        },
    };
    assert(payload_of(p) == Some(payload@));
    if is_result {
        result.result = Some(String::new());
    } else {
        result.error = Some(String::new());
    }
    assert(result@ =~= with_payload(p, seq![]));
    let empty_frame = render_result_frame(id, &result);
    let envelope_bytes: usize = byte_len(empty_frame.as_str());
    if envelope_bytes >= MAX_FRAME_BYTES {
        let mut e = "delegate_result envelope (".to_owned();
        let n = decimal_text(envelope_bytes as u64);
        e.append(n.as_str());
        e.append(" bytes) exceeds transport limit (1048576 bytes)");
        return Err(e);
    }
    let fitted = cap_text(payload, MAX_FRAME_BYTES - envelope_bytes);
    let ghost shortened = fitted@;
    if is_result {
        result.result = Some(fitted);
    } else {
        result.error = Some(fitted);
    }
    assert(result@ =~= with_payload(p, shortened));
    let frame = render_result_frame(id, &result);
    if fits_transport(frame.as_str()) {
        Ok(frame)
    } else {
        Err("delegate_result payload could not be fitted to the transport limit".to_owned())
    }
}

proof fn lemma_frame_len(id: u64, p: DelegateResultView, payload: Seq<char>)
    ensures
        utf8_len(result_frame(id, with_payload(p, payload))) == envelope_len(id, p) + escaped_len(
            payload,
        ),
{
    let full = with_payload(p, payload);
    let bare = with_payload(p, seq![]);
    let comma = ","@;
    lemma_json_string_len(payload);
    lemma_json_string_len(seq![]);
    lemma_frame_parts(id, full);
    lemma_frame_parts(id, bare);
    let name = if p.result is Some {
        "\"result\":"@
    } else {
        "\"error\":"@
    };
    lemma_member_len(name, payload);
    lemma_member_len(name, seq![]);
    assert(frame_head(id, full) == frame_head(id, bare));
    assert(frame_head(id, full) == frame_head(id, p));
}

proof fn lemma_member_len(name: Seq<char>, value: Seq<char>)
    ensures
        utf8_len(member(name, Some(value))) == utf8_len(name) + escaped_len(value) + 2 + utf8_len(
            ","@,
        ),
{
    lemma_json_string_len(value);
    lemma_utf8_len_add(name, json_string(value));
    lemma_utf8_len_add(name + json_string(value), ","@);
}

proof fn lemma_frame_parts(id: u64, p: DelegateResultView)
    ensures
        utf8_len(result_frame(id, p)) == utf8_len(frame_head(id, p)) + utf8_len(
            member("\"error\":"@, p.error),
        ) + utf8_len(member("\"result\":"@, p.result)) + utf8_len(frame_tail(p.status)),
{
    let h = frame_head(id, p);
    let e = member("\"error\":"@, p.error);
    let r = member("\"result\":"@, p.result);
    lemma_utf8_len_add(h, e);
    lemma_utf8_len_add(h + e, r);
    lemma_utf8_len_add(h + e + r, frame_tail(p.status));
}

/// Every result with a payload reaches the transport when what stands beside
/// the payload leaves room for the notice that it was cut.
pub proof fn law_result_reaches_the_transport(id: u64, p: DelegateResultView)
    requires
        payload_of(p) is Some,
        utf8_len(payload_of(p)->0) <= u64::MAX,
        envelope_len(id, p) + 91 <= MAX_FRAME_BYTES,
    ensures
        fits(fitted_frame(id, p)),
{
    let payload = payload_of(p)->0;
    let room = (MAX_FRAME_BYTES - envelope_len(id, p)) as nat;
    lemma_marker_len(utf8_len(payload));
    law_capped_text_fits(payload, room);
    lemma_frame_len(id, p, capped(payload, room));
}

/// The acknowledgement of request `id`.
pub open spec fn ok_text(id: u64) -> Seq<char> {
    "{\"jsonrpc\":\"2.0\",\"id\":"@ + decimal(id as nat) + ",\"result\":{\"ok\":true}}"@
}

/// The error reply to request `id`.
pub open spec fn error_text(id: u64, code: i64, message: Seq<char>) -> Seq<char> {
    "{\"jsonrpc\":\"2.0\",\"id\":"@ + decimal(id as nat) + ",\"error\":{\"code\":"@
        + signed_decimal(code as int) + ",\"message\":"@ + json_string(message) + "}}"@
}

/// Writes the acknowledgement of request `id`.
pub fn ok_reply_text(id: u64) -> (r: String)
    ensures
        r@ == ok_text(id),
{
    let mut out = "{\"jsonrpc\":\"2.0\",\"id\":".to_owned();
    let n = decimal_text(id);
    out.append(n.as_str());
    out.append(",\"result\":{\"ok\":true}}");
    out
}

/// Writes the error reply to request `id`.
pub fn error_reply_text(id: u64, code: i64, message: &str) -> (r: String)
    ensures
        r@ == error_text(id, code, message@),
{
    let mut out = "{\"jsonrpc\":\"2.0\",\"id\":".to_owned();
    let n = decimal_text(id);
    out.append(n.as_str());
    out.append(",\"error\":{\"code\":");
    let c = signed_decimal_text(code);
    out.append(c.as_str());
    out.append(",\"message\":");
    let m = quoted(message);
    out.append(m.as_str());
    out.append("}}");
    out
}

/// The parameters of an inbound request, as read for each method that has
/// some; a reading that failed is absent.
pub struct FrameParams {
    pub delegate: Option<DelegateForward>,
    pub cancel: Option<CancelParams>,
    pub delegate_result: Option<DelegateResultParams>,
}

/// One inbound frame.
pub struct InboundMessage {
    pub jsonrpc: Option<String>,
    pub id: Option<u64>,
    pub method: Option<String>,
    pub params: FrameParams,
    pub result: ReplyResult,
    pub error: Option<ErrorObject>,
}

/// What is wrong with the envelope of a request, if anything is.
pub open spec fn envelope_error(m: InboundMessage) -> Option<Seq<char>> {
    if m.jsonrpc.deep_view() != Some("2.0"@) {
        Some("jsonrpc must be 2.0"@)
    } else if m.id is None {
        Some("request id is required"@)
    } else {
        None
    }
}

impl InboundMessage {
    /// The id of a request, or what is wrong with its envelope.
    pub fn require_request_envelope(&self) -> (r: Result<u64, ErrorObject>)
        ensures
            r is Ok <==> envelope_error(*self) is None,
            r matches Ok(id) ==> self.id == Some(id),
            r matches Err(e) ==> e.code == INVALID_REQUEST && envelope_error(*self) == Some(
                e.message@,
            ),
    {
        let versioned = match &self.jsonrpc {
            Some(v) => same(v.as_str(), "2.0"),
            None => false,
        };
        if !versioned {
            return Err(
                ErrorObject { code: INVALID_REQUEST, message: "jsonrpc must be 2.0".to_owned() },
            );
        }
        match self.id {
            Some(id) => Ok(id),
            None => Err(
                ErrorObject { code: INVALID_REQUEST, message: "request id is required".to_owned() },
            ),
        }
    }
}

/// What the serve loop does with one inbound frame.
pub enum FrameAction {
    /// Acknowledge the request and serve the delegation.
    Serve { ack: String, forward: DelegateForward },
    /// Write this back.
    Reply(String),
    /// Nothing.
    Ignore,
}

impl FrameAction {
    /// Whether this writes `text` back.
    pub open spec fn replies(self, text: Seq<char>) -> bool {
        self matches FrameAction::Reply(t) && t@ == text
    }
}

/// What one inbound frame leads to.
pub struct FrameStep {
    pub action: FrameAction,
    /// The delegation in flight that must be signalled to stop.
    pub signal: Option<String>,
    /// The answers that are now due.
    pub answers: Vec<Answer>,
}

/// The id to which an error reply is addressed.
pub open spec fn reply_id(m: InboundMessage) -> u64 {
    match m.id {
        Some(id) => id,
        None => 0,
    }
}

/// Whether `step` is what the serving side makes of the frame `m`.
pub open spec fn handled(
    m: InboundMessage,
    role: CpAgentType,
    executor: ExecutorView,
    step: FrameStep,
) -> bool {
    match m.method {
        None => step.action is Ignore && step.signal is None,
        Some(method) => match envelope_error(m) {
            Some(e) => step.action.replies(error_text(reply_id(m), INVALID_REQUEST, e))
                && step.signal is None,
            None => if method@ == "cp/delegate"@ {
                &&& step.signal is None
                &&& if !(role is Worker) {
                    step.action.replies(
                        error_text(
                            reply_id(m),
                            POLICY_DENIED,
                            "this runtime is registered as primary and does not serve delegations"@,
                        ),
                    )
                } else {
                    match m.params.delegate {
                        Some(f) => step.action matches FrameAction::Serve { ack, forward }
                            && ack@ == ok_text(reply_id(m)) && forward == f,
                        None => step.action.replies(
                            error_text(reply_id(m), INVALID_PARAMS, "invalid cp/delegate params"@),
                        ),
                    }
                }
            } else if method@ == "cp/cancel"@ {
                match m.params.cancel {
                    Some(c) => {
                        &&& step.action.replies(ok_text(reply_id(m)))
                        &&& step.signal is Some <==> executor.inflight.contains_key(
                            c.delegation_id@,
                        ) && executor.inflight[c.delegation_id@] == c.admission
                        &&& step.signal matches Some(s) ==> s@ == c.delegation_id@
                    },
                    None => step.signal is None && step.action.replies(
                        error_text(reply_id(m), INVALID_PARAMS, "invalid cp/cancel params"@),
                    ),
                }
            } else {
                step.signal is None && step.action.replies(
                    error_text(
                        reply_id(m),
                        METHOD_NOT_FOUND,
                        "runtime does not serve "@ + method@,
                    ),
                )
            },
        },
    }
}

/// The error of a reply, through its view.
pub open spec fn error_view(e: Option<ErrorObject>) -> Option<ErrorView> {
    match e {
        Some(e) => Some(e@),
        None => None,
    }
}

/// The word of the method that delivers the end of a delegation.
pub open spec fn is_delegate_result(m: InboundMessage) -> bool {
    m.method.deep_view() == Some("cp/delegate_result"@)
}

/// The state of the initiating side after the frame `m`.
pub open spec fn primary_after(m: InboundMessage, s: PrimaryView) -> PrimaryView {
    if m.method is None {
        match m.id {
            Some(id) => s.after_reply(id, m.result@, error_view(m.error)),
            None => s,
        }
    } else if is_delegate_result(m) && envelope_error(m) is None {
        match m.params.delegate_result {
            Some(p) => s.after_result(p@),
            None => s,
        }
    } else {
        s
    }
}

/// The answers that the frame `m` makes due.
pub open spec fn answers_after(m: InboundMessage, s: PrimaryView) -> Seq<AnswerView> {
    if m.method is None {
        match m.id {
            Some(id) => if s.pending.contains_key(id) {
                seq![
                    crate::control_plane::primary::reply_answer(
                        s.pending[id],
                        m.result@,
                        error_view(m.error),
                    ),
                ]
            } else {
                seq![]
            },
            None => seq![],
        }
    } else if is_delegate_result(m) && envelope_error(m) is None {
        match m.params.delegate_result {
            Some(p) => s.result_answers(p@),
            None => seq![],
        }
    } else {
        seq![]
    }
}

/// Whether `step` is what the client makes of the frame `m`.
pub open spec fn classified(
    m: InboundMessage,
    role: CpAgentType,
    executor: ExecutorView,
    primary: PrimaryView,
    step: FrameStep,
) -> bool {
    &&& step.answers.deep_view() == answers_after(m, primary)
    &&& if is_delegate_result(m) {
        &&& step.signal is None
        &&& match envelope_error(m) {
            Some(e) => step.action.replies(error_text(reply_id(m), INVALID_REQUEST, e)),
            None => match m.params.delegate_result {
                Some(_) => step.action.replies(ok_text(reply_id(m))),
                None => step.action.replies(
                    error_text(reply_id(m), INVALID_PARAMS, "invalid cp/delegate_result params"@),
                ),
            },
        }
    } else {
        handled(m, role, executor, step)
    }
}

/// The text of the error that a runtime which is no primary answers with.
pub open spec fn primary_only_text() -> Seq<char> {
    "this runtime is not registered as a control-plane primary and cannot initiate delegations"@
}

/// The error for a command that only a primary may give.
pub fn primary_only_error() -> (r: CommandError)
    ensures
        r@ == CommandErrorView::Internal(primary_only_text()),
{
    CommandError::Internal(
        "this runtime is not registered as a control-plane primary and cannot initiate delegations".to_owned(),
    )
}

/// The answer to `command` that is the error `error`.
pub open spec fn error_answer(command: ClientCommand, error: CommandErrorView) -> AnswerView {
    match command {
        ClientCommand::Spawn { reply, .. } => AnswerView::Spawn { reply, result: Err(error) },
        ClientCommand::Await { reply, .. } => AnswerView::Await { reply, result: Err(error) },
        ClientCommand::Check { reply, .. } => AnswerView::Check { reply, result: Err(error) },
        ClientCommand::Cancel { reply, .. } => AnswerView::Cancel { reply, result: Err(error) },
        ClientCommand::ListAgents { reply } => AnswerView::ListAgents { reply, result: Err(error) },
    }
}

/// Answers a command that arrives while there is no connection.
pub fn reject_command(command: ClientCommand) -> (r: Answer)
    ensures
        r@ == error_answer(command, CommandErrorView::NotConnected),
{
    match command {
        ClientCommand::Spawn { reply, .. } => Answer::Spawn {
            reply,
            result: Err(CommandError::NotConnected),
        },
        ClientCommand::Await { reply, .. } => Answer::Await {
            reply,
            result: Err(CommandError::NotConnected),
        },
        ClientCommand::Check { reply, .. } => Answer::Check {
            reply,
            result: Err(CommandError::NotConnected),
        },
        ClientCommand::Cancel { reply, .. } => Answer::Cancel {
            reply,
            result: Err(CommandError::NotConnected),
        },
        ClientCommand::ListAgents { reply } => Answer::ListAgents {
            reply,
            result: Err(CommandError::NotConnected),
        },
    }
}

/// A request that this runtime sends.
pub enum OutboundRequest {
    Register(RegisterParams),
    Heartbeat { instance_id: String, active_delegated_sessions: u32 },
    Delegate(DelegateParams),
    Cancel(CancelParams),
    ListAgents,
}

impl OutboundRequest {
    /// The method on the wire.
    pub fn method(&self) -> (r: &'static str)
        ensures
            r@ == match *self {
                OutboundRequest::Register(_) => "cp/register"@,
                OutboundRequest::Heartbeat { .. } => "cp/heartbeat"@,
                OutboundRequest::Delegate(_) => "cp/delegate"@,
                OutboundRequest::Cancel(_) => "cp/cancel"@,
                OutboundRequest::ListAgents => "cp/list_agents"@,
            },
    {
        match self {
            OutboundRequest::Register(_) => "cp/register",
            OutboundRequest::Heartbeat { .. } => "cp/heartbeat",
            OutboundRequest::Delegate(_) => "cp/delegate",
            OutboundRequest::Cancel(_) => "cp/cancel",
            OutboundRequest::ListAgents => "cp/list_agents",
        }
    }
}

/// Why the serve loop ended.
#[derive(Clone, Copy, Debug, PartialEq, Eq, Structural)]
pub enum Outcome {
    /// The program shuts down; do not connect again.
    Shutdown,
    /// The connection is gone; connect and register again.
    Disconnected,
}

/// What happens to a session.
pub enum SessionEvent {
    /// The program shuts down.
    Shutdown,
    /// It is time for a heartbeat.
    HeartbeatTick,
    /// A local caller gives a command.
    Command(ClientCommand),
    /// A delegation that was served has ended.
    Finished(DelegateResultParams),
    /// A text frame arrived; absent when it could not be read.
    Inbound(Option<InboundMessage>),
    /// A ping arrived.
    Ping(Vec<u8>),
    /// A frame of another kind arrived.
    Other,
    /// The connection was closed, failed, or could not be written to.
    Gone,
}

/// What to do about an event.
pub enum SessionAction {
    Nothing,
    /// Send this request; when that fails the session is over.
    Request { rpc_id: u64, request: OutboundRequest },
    /// Send this text; when that fails the session is over.
    Send(String),
    /// Answer a ping; when that fails the session is over.
    Pong(Vec<u8>),
    /// Start serving, then send the acknowledgement; when that fails the
    /// session is over.
    Serve { ack: String, forward: DelegateForward },
    /// The session is over.
    End(Outcome),
    /// The session is over with this error.
    Abort(String),
}

/// What one event leads to.
pub struct SessionStep {
    pub action: SessionAction,
    /// The delegation in flight that must be signalled to stop.
    pub signal: Option<String>,
    /// The answers that are now due.
    pub answers: Vec<Answer>,
}

/// What remains to be done when a session is over.
pub struct SessionEnd {
    /// The delegations in flight that must be signalled to stop.
    pub signals: Vec<String>,
    /// The answers that are now due.
    pub answers: Vec<Answer>,
}

/// What the reading of the registration's reply led to.
pub enum RegisterEvent {
    /// The connection ended.
    Eof,
    /// The connection was closed.
    Closed,
    /// A text frame could not be read, for this reason.
    Malformed(String),
    /// A text frame arrived, with its result read as an acknowledgement; a
    /// result that could not be read is the reason why.
    Frame {
        id: Option<u64>,
        error: Option<ErrorObject>,
        result: Option<Result<RegisterAck, String>>,
    },
    /// A frame of another kind arrived.
    Other,
}

/// What to do about the registration.
pub enum RegisterStep {
    /// Read on.
    Wait,
    /// The runtime is registered.
    Registered(RegisterAck),
    /// The attempt failed.
    Fail(String),
}

/// The reason why an acknowledgement of another protocol revision is refused.
pub open spec fn version_error(version: u32) -> Seq<char> {
    "control plane acknowledged protocol version "@ + decimal(version as nat)
        + ", but this runtime requires "@ + decimal(PROTOCOL_VERSION as nat)
}

/// Accepts an acknowledgement of exactly this runtime's protocol revision.
pub fn validate_register_ack(ack: RegisterAck) -> (r: Result<RegisterAck, String>)
    ensures
        ack.protocol_version == PROTOCOL_VERSION ==> r == Ok::<RegisterAck, String>(ack),
        ack.protocol_version != PROTOCOL_VERSION ==> (r matches Err(e) && e@ == version_error(
            ack.protocol_version,
        )),
{
    if ack.protocol_version == PROTOCOL_VERSION {
        Ok(ack)
    } else {
        let mut e = "control plane acknowledged protocol version ".to_owned();
        let got = decimal_text(ack.protocol_version as u64);
        e.append(got.as_str());
        e.append(", but this runtime requires ");
        let want = decimal_text(PROTOCOL_VERSION as u64);
        e.append(want.as_str());
        Err(e)
    }
}

/// Whether the step fails with `reason`.
pub open spec fn fails_with(step: RegisterStep, reason: Seq<char>) -> bool {
    step matches RegisterStep::Fail(e) && e@ == reason
}

/// Whether `step` is what the reply `event` to registration `id` leads to.
pub open spec fn register_stepped(id: u64, event: RegisterEvent, step: RegisterStep) -> bool {
    match event {
        RegisterEvent::Eof => fails_with(
            step,
            "control plane closed the connection before acking cp/register"@,
        ),
        RegisterEvent::Closed => fails_with(
            step,
            "control plane closed the connection during registration"@,
        ),
        RegisterEvent::Malformed(e) => fails_with(step, "malformed cp/register reply: "@ + e@),
        RegisterEvent::Other => step is Wait,
        RegisterEvent::Frame { id: got, error, result } => if got != Some(id) {
            step is Wait
        } else {
            match (error, result) {
                (Some(e), _) => fails_with(
                    step,
                    "control plane rejected cp/register: "@ + e.message@ + " (code "@
                        + signed_decimal(e.code as int) + ")"@,
                ),
                (None, None) => fails_with(step, "cp/register reply carried no result"@),
                (None, Some(Err(e))) => fails_with(step, e@),
                (None, Some(Ok(ack))) => if ack.protocol_version == PROTOCOL_VERSION {
                    step == RegisterStep::Registered(ack)
                } else {
                    fails_with(step, version_error(ack.protocol_version))
                },
            }
        },
    }
}

/// Takes what arrives after registration request `id` was sent. Frames that
/// answer another request are passed over.
pub fn on_register_event(id: u64, event: RegisterEvent) -> (r: RegisterStep)
    ensures
        register_stepped(id, event, r),
{
    match event {
        RegisterEvent::Eof => RegisterStep::Fail(
            "control plane closed the connection before acking cp/register".to_owned(),
        ),
        RegisterEvent::Closed => RegisterStep::Fail(
            "control plane closed the connection during registration".to_owned(),
        ),
        RegisterEvent::Malformed(e) => {
            let mut out = "malformed cp/register reply: ".to_owned();
            out.append(e.as_str());
            RegisterStep::Fail(out)
        },
        RegisterEvent::Other => RegisterStep::Wait,
        RegisterEvent::Frame { id: got, error, result } => {
            let ours = match got {
                Some(n) => n == id,
                None => false,
            };
            if !ours {
                return RegisterStep::Wait;
            }
            match error {
                Some(e) => {
                    let mut out = "control plane rejected cp/register: ".to_owned();
                    out.append(e.message.as_str());
                    out.append(" (code ");
                    let c = signed_decimal_text(e.code);
                    out.append(c.as_str());
                    out.append(")");
                    RegisterStep::Fail(out)
                },
                None => match result {
                    None => RegisterStep::Fail("cp/register reply carried no result".to_owned()),
                    Some(Err(e)) => RegisterStep::Fail(e),
                    Some(Ok(ack)) => match validate_register_ack(ack) {
                        Ok(a) => RegisterStep::Registered(a),
                        Err(e) => RegisterStep::Fail(e),
                    },
                },
            }
        },
    }
}

/// The seconds between two heartbeats: what the control plane asks for, at
/// least one.
pub fn heartbeat_interval(ack: &RegisterAck) -> (r: u64)
    ensures
        r == (if ack.heartbeat_interval_secs == 0 {
            1
        } else {
            ack.heartbeat_interval_secs
        }),
{
    if ack.heartbeat_interval_secs == 0 {
        1
    } else {
        ack.heartbeat_interval_secs
    }
}

/// The runtime's client of the control plane.
pub struct ControlPlaneClient {
    cfg: ControlPlaneConfig,
    instance_id: String,
    executor: DelegationExecutor,
    next_id: u64,
}

/// The state of a [`ControlPlaneClient`].
#[verifier::ext_equal]
pub struct ClientView {
    pub cfg: ControlPlaneConfig,
    pub instance_id: Seq<char>,
    pub executor: ExecutorView,
    /// The id of the next request.
    pub next_id: u64,
}

impl View for ControlPlaneClient {
    type V = ClientView;

    closed spec fn view(&self) -> ClientView {
        ClientView {
            cfg: self.cfg,
            instance_id: self.instance_id@,
            executor: self.executor@,
            next_id: self.next_id,
        }
    }
}

/// The id after `id`.
pub open spec fn id_after(id: u64) -> u64 {
    if id == u64::MAX {
        0
    } else {
        (id + 1) as u64
    }
}

impl ClientView {
    /// The state after one id was used.
    pub open spec fn id_used(self) -> ClientView {
        ClientView { next_id: id_after(self.next_id), ..self }
    }
}

/// Whether `step` and the two states that follow are what `command` leads to.
/// A runtime that is no primary refuses to spawn, to cancel and to list.
pub open spec fn commanded(
    command: ClientCommand,
    client: ClientView,
    primary: PrimaryView,
    after: ClientView,
    primary_after: PrimaryView,
    step: SessionStep,
) -> bool {
    let answers = step.answers.deep_view();
    let id = client.next_id;
    let refused = !(client.cfg.agent_type is Primary);
    &&& step.signal is None
    &&& match command {
        ClientCommand::Spawn { request, reply } => if refused {
            &&& after == client && primary_after == primary
            &&& step.action is Nothing
            &&& answers == seq![
                error_answer(command, CommandErrorView::Internal(primary_only_text())),
            ]
        } else {
            &&& after == client.id_used()
            &&& primary_after == primary.parked(
                id,
                PendingView::Spawn { delegation_id: request.delegation_id@, reply },
            )
            &&& answers == Seq::<AnswerView>::empty()
            &&& step.action matches SessionAction::Request {
                rpc_id,
                request: OutboundRequest::Delegate(p),
            }
            &&& rpc_id == id
            &&& p.delegation_id@ == request.delegation_id@
            &&& p.prompt == request.prompt
            &&& p.deadline == request.deadline
            &&& request.target matches SpawnTarget::Name(n) ==> p.target.name == Some(n)
                && p.target.labels is None
            &&& request.target matches SpawnTarget::Labels(l) ==> p.target.labels == Some(l)
                && p.target.name is None
            &&& match request.parent {
                Some(h) => p.parent_delegation_id.deep_view() == Some(h@.0) && p.parent_admission
                    == Some(h@.1),
                None => p.parent_delegation_id is None && p.parent_admission is None,
            }
        },
        ClientCommand::Cancel { handle, reason, reply } => if refused {
            &&& after == client && primary_after == primary
            &&& step.action is Nothing
            &&& answers == seq![
                error_answer(command, CommandErrorView::Internal(primary_only_text())),
            ]
        } else if primary.known.contains_key(handle@) {
            &&& after == client.id_used()
            &&& primary_after == primary.parked(id, PendingView::Cancel { reply })
            &&& answers == Seq::<AnswerView>::empty()
            &&& step.action matches SessionAction::Request {
                rpc_id,
                request: OutboundRequest::Cancel(p),
            }
            &&& rpc_id == id
            &&& p.delegation_id@ == handle@.0
            &&& p.admission == handle@.1
            &&& p.reason == reason
        } else {
            &&& after == client.id_used() && primary_after == primary
            &&& step.action is Nothing
            &&& answers == seq![error_answer(command, CommandErrorView::UnknownDelegation)]
        },
        ClientCommand::ListAgents { reply } => if refused {
            &&& after == client && primary_after == primary
            &&& step.action is Nothing
            &&& answers == seq![
                error_answer(command, CommandErrorView::Internal(primary_only_text())),
            ]
        } else {
            &&& after == client.id_used()
            &&& primary_after == primary.parked(id, PendingView::ListAgents { reply })
            &&& answers == Seq::<AnswerView>::empty()
            &&& step.action matches SessionAction::Request {
                rpc_id,
                request: OutboundRequest::ListAgents,
            }
            &&& rpc_id == id
        },
        ClientCommand::Await { handle, reply } => {
            &&& after == client
            &&& step.action is Nothing
            &&& if is_live(primary.known, handle@) {
                &&& primary_after == (PrimaryView {
                    awaiters: primary.awaiters.push((handle@, reply)),
                    ..primary
                })
                &&& answers == Seq::<AnswerView>::empty()
            } else {
                &&& primary_after == primary
                &&& answers == seq![
                    AnswerView::Await {
                        reply,
                        result: if primary.known.contains_key(handle@) {
                            Ok(primary.known[handle@]->Terminal_0)
                        } else {
                            Err(CommandErrorView::UnknownDelegation)
                        },
                    },
                ]
            }
        },
        ClientCommand::Check { handle, reply } => {
            &&& after == client && primary_after == primary
            &&& step.action is Nothing
            &&& answers == seq![
                AnswerView::Check {
                    reply,
                    result: if primary.known.contains_key(handle@) {
                        Ok(primary.known[handle@])
                    } else {
                        Err(CommandErrorView::UnknownDelegation)
                    },
                },
            ]
        },
    }
}

/// The action for an inbound frame.
pub open spec fn same_action(f: FrameAction, a: SessionAction) -> bool {
    match f {
        FrameAction::Serve { ack, forward } => a == (SessionAction::Serve { ack, forward }),
        FrameAction::Reply(t) => a == SessionAction::Send(t),
        FrameAction::Ignore => a is Nothing,
    }
}

/// Whether `step` and the two states that follow are what `event` leads to.
pub open spec fn stepped(
    event: SessionEvent,
    client: ClientView,
    primary: PrimaryView,
    after: ClientView,
    primary_end: PrimaryView,
    step: SessionStep,
) -> bool {
    let quiet = step.signal is None && step.answers.deep_view() == Seq::<AnswerView>::empty();
    match event {
        SessionEvent::Shutdown => quiet && after == client && primary_end == primary && step.action
            == SessionAction::End(Outcome::Shutdown),
        SessionEvent::Gone => quiet && after == client && primary_end == primary && step.action
            == SessionAction::End(Outcome::Disconnected),
        SessionEvent::Other => quiet && after == client && primary_end == primary
            && step.action is Nothing,
        SessionEvent::Ping(p) => quiet && after == client && primary_end == primary && step.action
            == SessionAction::Pong(p),
        SessionEvent::HeartbeatTick => {
            &&& quiet
            &&& after == client.id_used()
            &&& primary_end == primary
            &&& step.action matches SessionAction::Request {
                rpc_id,
                request: OutboundRequest::Heartbeat { instance_id, active_delegated_sessions },
            }
            &&& rpc_id == client.next_id
            &&& instance_id@ == client.instance_id
            &&& active_delegated_sessions == client.executor.inflight.dom().len()
        },
        SessionEvent::Finished(p) => {
            &&& quiet
            &&& after == client.id_used()
            &&& primary_end == primary
            &&& match step.action {
                SessionAction::Send(frame) => result_error(client.next_id, p@) is None && frame@
                    == sent_frame(client.next_id, p@) && fits(frame@),
                SessionAction::Abort(e) => result_error(client.next_id, p@) == Some(e@),
                _ => false,
            }
        },
        SessionEvent::Command(command) => commanded(
            command,
            client,
            primary,
            after,
            primary_end,
            step,
        ),
        SessionEvent::Inbound(None) => quiet && after == client && primary_end == primary
            && step.action is Nothing,
        SessionEvent::Inbound(Some(m)) => {
            &&& after == client
            &&& primary_end == primary_after(m, primary)
            &&& exists|f: FrameStep| #[trigger]
                classified(m, client.cfg.agent_type, client.executor, primary, f) && f.signal
                    == step.signal && f.answers == step.answers && same_action(
                    f.action,
                    step.action,
                )
        },
    }
}

impl ControlPlaneClient {
    /// The executor is well-formed.
    pub closed spec fn wf(&self) -> bool {
        self.executor.wf()
    }

    /// A client under a given instance id.
    pub fn with_instance_id(
        cfg: ControlPlaneConfig,
        instance_id: String,
        prompt_hard_timeout_nanos: u128,
    ) -> (r: Self)
        ensures
            r.wf(),
            r@ == (ClientView {
                cfg,
                instance_id: instance_id@,
                executor: ExecutorView {
                    instance_id: instance_id@,
                    effective_max: cfg.max_delegated_sessions,
                    prompt_hard_timeout_nanos,
                    inflight: Map::empty(),
                    order: seq![],
                },
                next_id: 1,
            }),
    {
        let executor = DelegationExecutor::new(
            instance_id.clone(),
            cfg.max_delegated_sessions,
            prompt_hard_timeout_nanos,
        );
        ControlPlaneClient { cfg, instance_id, executor, next_id: 1 }
    }

    /// A client under a fresh instance id, which it keeps for its lifetime.
    pub fn new(cfg: ControlPlaneConfig, prompt_hard_timeout_nanos: u128) -> (r: Self)
        ensures
            r.wf(),
            r@.cfg == cfg,
            is_uuid(r@.instance_id),
            r@.executor == (ExecutorView {
                instance_id: r@.instance_id,
                effective_max: cfg.max_delegated_sessions,
                prompt_hard_timeout_nanos,
                inflight: Map::empty(),
                order: seq![],
            }),
            r@.next_id == 1,
    {
        let instance_id = fresh_uuid();
        ControlPlaneClient::with_instance_id(cfg, instance_id, prompt_hard_timeout_nanos)
    }

    /// The instance id.
    pub fn instance_id(&self) -> (r: &str)
        ensures
            r@ == self@.instance_id,
    {
        self.instance_id.as_str()
    }

    /// The local admission of delegations.
    pub fn executor(&self) -> (r: &DelegationExecutor)
        requires
            self.wf(),
        ensures
            r.wf(),
            r@ == self@.executor,
    {
        &self.executor
    }

    /// Takes up a forwarded delegation.
    pub fn serve_forward(&mut self, forward: &DelegateForward, now: Timestamp) -> (r: ServeStep)
        requires
            old(self).wf(),
        ensures
            final(self).wf(),
            final(self)@ == (ClientView { executor: final(self)@.executor, ..old(self)@ }),
            served(*forward, now, old(self)@.executor, final(self)@.executor, r),
    {
        self.executor.serve(forward, now)
    }

    /// Frees the slot of a delegation that has ended.
    pub fn release(&mut self, delegation_id: &str)
        requires
            old(self).wf(),
        ensures
            final(self).wf(),
            final(self)@ == (ClientView {
                executor: old(self)@.executor.released(delegation_id@),
                ..old(self)@
            }),
    {
        self.executor.release(delegation_id);
    }

    /// The id of the next request; every call gives the one after.
    pub fn next_id(&mut self) -> (r: u64)
        requires
            old(self).wf(),
        ensures
            final(self).wf(),
            r == old(self)@.next_id,
            final(self)@ == old(self)@.id_used(),
    {
        let id: u64 = self.next_id;
        self.next_id = if id == u64::MAX {
            0
        } else {
            id + 1
        };
        id
    }

    /// The registration request. It never carries the key, which travels in
    /// the header of the connection.
    pub fn register(&mut self) -> (r: (u64, RegisterParams))
        requires
            old(self).wf(),
        ensures
            final(self).wf(),
            final(self)@ == old(self)@.id_used(),
            r.0 == old(self)@.next_id,
            r.1.protocol_version == PROTOCOL_VERSION,
            r.1.namespace == old(self)@.cfg.namespace,
            r.1.name == old(self)@.cfg.name,
            r.1.agent_type is Primary <==> old(self)@.cfg.agent_type is Primary,
            r.1.instance_id@ == old(self)@.instance_id,
            r.1.labels@ == old(self)@.cfg.labels@,
            r.1.max_delegated_sessions == old(self)@.cfg.max_delegated_sessions,
    {
        let id: u64 = self.next_id();
        let params = RegisterParams {
            protocol_version: PROTOCOL_VERSION,
            namespace: self.cfg.namespace.clone(),
            name: self.cfg.name.clone(),
            agent_type: self.cfg.agent_type.agent_type(),
            instance_id: self.instance_id.clone(),
            labels: self.cfg.labels.copy(),
            max_delegated_sessions: self.cfg.max_delegated_sessions,
        };
        (id, params)
    }

    /// Adopts what the control plane acknowledged.
    pub fn registered(&mut self, ack: &RegisterAck)
        requires
            old(self).wf(),
        ensures
            final(self).wf(),
            final(self)@ == (ClientView {
                executor: ExecutorView {
                    effective_max: ack.effective_max_delegated_sessions,
                    ..old(self)@.executor
                },
                ..old(self)@
            }),
    {
        self.executor.set_effective_max(ack.effective_max_delegated_sessions);
    }

    /// What the serving side makes of one frame: a delegation is acknowledged
    /// and served by a worker, a cancel is acknowledged whether or not it names
    /// anything in flight, and every other request is an error.
    pub fn handle_frame(&self, m: InboundMessage) -> (r: FrameStep)
        requires
            self.wf(),
        ensures
            handled(m, self@.cfg.agent_type, self@.executor, r),
            r.answers.deep_view() == Seq::<AnswerView>::empty(),
    {
        let answers: Vec<Answer> = Vec::new();
        assert(answers.deep_view() =~= Seq::<AnswerView>::empty());
        let id: u64 = match m.id {
            Some(n) => n,
            None => 0,
        };
        let envelope = m.require_request_envelope();
        let method = match m.method {
            Some(method) => method,
            None => {
                return FrameStep { action: FrameAction::Ignore, signal: None, answers };
            },
        };
        match envelope {
            Ok(_) => {},
            Err(e) => {
                return FrameStep {
                    action: FrameAction::Reply(error_reply_text(id, e.code, e.message.as_str())),
                    signal: None,
                    answers,
                };
            },
        }
        if same(method.as_str(), "cp/delegate") {
            let worker = match self.cfg.agent_type {
                CpAgentType::Worker => true,
                CpAgentType::Primary => false,
            };
            if !worker {
                return FrameStep {
                    action: FrameAction::Reply(
                        error_reply_text(
                            id,
                            POLICY_DENIED,
                            "this runtime is registered as primary and does not serve delegations",
                        ),
                    ),
                    signal: None,
                    answers,
                };
            }
            match m.params.delegate {
                Some(forward) => FrameStep {
                    action: FrameAction::Serve { ack: ok_reply_text(id), forward },
                    signal: None,
                    answers,
                },
                None => FrameStep {
                    action: FrameAction::Reply(
                        error_reply_text(id, INVALID_PARAMS, "invalid cp/delegate params"),
                    ),
                    signal: None,
                    answers,
                },
            }
        } else if same(method.as_str(), "cp/cancel") {
            match m.params.cancel {
                Some(c) => {
                    let live = self.executor.cancel(c.delegation_id.as_str(), c.admission);
                    let signal = if live {
                        Some(c.delegation_id)
                    } else {
                        None
                    };
                    FrameStep { action: FrameAction::Reply(ok_reply_text(id)), signal, answers }
                },
                None => FrameStep {
                    action: FrameAction::Reply(
                        error_reply_text(id, INVALID_PARAMS, "invalid cp/cancel params"),
                    ),
                    signal: None,
                    answers,
                },
            }
        } else {
            let mut text = "runtime does not serve ".to_owned();
            text.append(method.as_str());
            FrameStep {
                action: FrameAction::Reply(error_reply_text(id, METHOD_NOT_FOUND, text.as_str())),
                signal: None,
                answers,
            }
        }
    }

    /// What the client makes of one frame: replies to its own requests and the
    /// ends of delegations that it initiated go to `primary`, and everything
    /// else to the serving side.
    pub fn classify_inbound(&self, m: InboundMessage, primary: &mut PrimaryState) -> (r: FrameStep)
        requires
            self.wf(),
            old(primary).wf(),
        ensures
            final(primary).wf(),
            final(primary)@ == primary_after(m, old(primary)@),
            classified(m, self@.cfg.agent_type, self@.executor, old(primary)@, r),
    {
        let mut answers: Vec<Answer> = Vec::new();
        assert(answers.deep_view() =~= Seq::<AnswerView>::empty());
        if m.method.is_none() {
            match m.id {
                Some(id) => {
                    match primary.on_reply(id, m.result, m.error) {
                        Some(a) => {
                            answers.push(a);
                            assert(answers.deep_view() =~= seq![a@]);
                        },
                        None => {},
                    }
                },
                None => {},
            }
            return FrameStep { action: FrameAction::Ignore, signal: None, answers };
        }
        let ours = match &m.method {
            Some(method) => same(method.as_str(), "cp/delegate_result"),
            None => false,
        };
        if !ours {
            return self.handle_frame(m);
        }
        let id: u64 = match m.require_request_envelope() {
            Ok(id) => id,
            Err(e) => {
                let to: u64 = match m.id {
                    Some(n) => n,
                    None => 0,
                };
                return FrameStep {
                    action: FrameAction::Reply(error_reply_text(to, e.code, e.message.as_str())),
                    signal: None,
                    answers,
                };
            },
        };
        match m.params.delegate_result {
            Some(p) => {
                let answers = match primary.on_delegate_result(&p) {
                    Some(due) => due,
                    None => answers,
                };
                FrameStep { action: FrameAction::Reply(ok_reply_text(id)), signal: None, answers }
            },
            None => FrameStep {
                action: FrameAction::Reply(
                    error_reply_text(id, INVALID_PARAMS, "invalid cp/delegate_result params"),
                ),
                signal: None,
                answers,
            },
        }
    }

    /// Takes one command: it becomes a request whose caller is parked in
    /// `primary`, or it is answered at once.
    pub fn handle_command(&mut self, command: ClientCommand, primary: &mut PrimaryState) -> (r:
        SessionStep)
        requires
            old(self).wf(),
            old(primary).wf(),
        ensures
            final(self).wf(),
            final(primary).wf(),
            commanded(command, old(self)@, old(primary)@, final(self)@, final(primary)@, r),
    {
        let mut answers: Vec<Answer> = Vec::new();
        assert(answers.deep_view() =~= Seq::<AnswerView>::empty());
        let is_primary = match self.cfg.agent_type {
            CpAgentType::Primary => true,
            CpAgentType::Worker => false,
        };
        match command {
            ClientCommand::Spawn { request, reply } => {
                if !is_primary {
                    answers.push(Answer::Spawn { reply, result: Err(primary_only_error()) });
                    assert(answers.deep_view() =~= seq![
                        AnswerView::Spawn {
                            reply,
                            result: Err(CommandErrorView::Internal(primary_only_text())),
                        },
                    ]);
                    return SessionStep { action: SessionAction::Nothing, signal: None, answers };
                }
                let id: u64 = self.next_id();
                let emission = primary.begin_spawn(id, request, reply);
                SessionStep {
                    action: SessionAction::Request {
                        rpc_id: id,
                        request: OutboundRequest::Delegate(emission.params),
                    },
                    signal: None,
                    answers,
                }
            },
            ClientCommand::Cancel { handle, reason, reply } => {
                if !is_primary {
                    answers.push(Answer::Cancel { reply, result: Err(primary_only_error()) });
                    assert(answers.deep_view() =~= seq![
                        AnswerView::Cancel {
                            reply,
                            result: Err(CommandErrorView::Internal(primary_only_text())),
                        },
                    ]);
                    return SessionStep { action: SessionAction::Nothing, signal: None, answers };
                }
                let id: u64 = self.next_id();
                match primary.begin_cancel(id, &handle, reason, reply) {
                    Ok(params) => SessionStep {
                        action: SessionAction::Request {
                            rpc_id: id,
                            request: OutboundRequest::Cancel(params),
                        },
                        signal: None,
                        answers,
                    },
                    Err(e) => {
                        answers.push(Answer::Cancel { reply, result: Err(e) });
                        assert(answers.deep_view() =~= seq![
                            AnswerView::Cancel {
                                reply,
                                result: Err(CommandErrorView::UnknownDelegation),
                            },
                        ]);
                        SessionStep { action: SessionAction::Nothing, signal: None, answers }
                    },
                }
            },
            ClientCommand::ListAgents { reply } => {
                if !is_primary {
                    answers.push(Answer::ListAgents { reply, result: Err(primary_only_error()) });
                    assert(answers.deep_view() =~= seq![
                        AnswerView::ListAgents {
                            reply,
                            result: Err(CommandErrorView::Internal(primary_only_text())),
                        },
                    ]);
                    return SessionStep { action: SessionAction::Nothing, signal: None, answers };
                }
                let id: u64 = self.next_id();
                primary.begin_list_agents(id, reply);
                SessionStep {
                    action: SessionAction::Request {
                        rpc_id: id,
                        request: OutboundRequest::ListAgents,
                    },
                    signal: None,
                    answers,
                }
            },
            ClientCommand::Await { handle, reply } => {
                match primary.begin_await(&handle, reply) {
                    Some(result) => {
                        let ghost view = result_view(result);
                        answers.push(Answer::Await { reply, result });
                        assert(answers.deep_view() =~= seq![
                            AnswerView::Await { reply, result: view },
                        ]);
                    },
                    None => {},
                }
                SessionStep { action: SessionAction::Nothing, signal: None, answers }
            },
            ClientCommand::Check { handle, reply } => {
                let result = primary.check(&handle);
                let ghost view = result_view(result);
                answers.push(Answer::Check { reply, result });
                assert(answers.deep_view() =~= seq![AnswerView::Check { reply, result: view }]);
                SessionStep { action: SessionAction::Nothing, signal: None, answers }
            },
        }
    }

    /// Takes one event of a session and says what to do about it.
    pub fn on_event(&mut self, event: SessionEvent, primary: &mut PrimaryState) -> (r: SessionStep)
        requires
            old(self).wf(),
            old(primary).wf(),
        ensures
            final(self).wf(),
            final(primary).wf(),
            stepped(event, old(self)@, old(primary)@, final(self)@, final(primary)@, r),
    {
        let answers: Vec<Answer> = Vec::new();
        assert(answers.deep_view() =~= Seq::<AnswerView>::empty());
        match event {
            SessionEvent::Shutdown => SessionStep {
                action: SessionAction::End(Outcome::Shutdown),
                signal: None,
                answers,
            },
            SessionEvent::Gone => SessionStep {
                action: SessionAction::End(Outcome::Disconnected),
                signal: None,
                answers,
            },
            SessionEvent::Other => SessionStep {
                action: SessionAction::Nothing,
                signal: None,
                answers,
            },
            SessionEvent::Ping(p) => SessionStep {
                action: SessionAction::Pong(p),
                signal: None,
                answers,
            },
            SessionEvent::HeartbeatTick => {
                let active: u32 = self.executor.active();
                let id: u64 = self.next_id();
                SessionStep {
                    action: SessionAction::Request {
                        rpc_id: id,
                        request: OutboundRequest::Heartbeat {
                            instance_id: self.instance_id.clone(),
                            active_delegated_sessions: active,
                        },
                    },
                    signal: None,
                    answers,
                }
            },
            SessionEvent::Finished(p) => {
                let id: u64 = self.next_id();
                let action = match delegate_result_request(id, p) {
                    Ok(frame) => SessionAction::Send(frame),
                    Err(e) => SessionAction::Abort(e),
                };
                SessionStep { action, signal: None, answers }
            },
            SessionEvent::Command(command) => self.handle_command(command, primary),
            SessionEvent::Inbound(None) => SessionStep {
                action: SessionAction::Nothing,
                signal: None,
                answers,
            },
            SessionEvent::Inbound(Some(m)) => {
                let f = self.classify_inbound(m, primary);
                let ghost whole = f;
                let action = match f.action {
                    FrameAction::Serve { ack, forward } => SessionAction::Serve { ack, forward },
                    FrameAction::Reply(t) => SessionAction::Send(t),
                    FrameAction::Ignore => SessionAction::Nothing,
                };
                assert(same_action(whole.action, action));
                SessionStep { action, signal: f.signal, answers: f.answers }
            },
        }
    }

    /// Ends a session: everything in flight is to be signalled, and everybody
    /// who waits on `primary` is answered.
    pub fn end_session(&self, primary: &mut PrimaryState) -> (r: SessionEnd)
        requires
            self.wf(),
            old(primary).wf(),
        ensures
            final(primary).wf(),
            final(primary)@ == old(primary)@.after_disconnect(),
            r.answers.deep_view() == old(primary)@.disconnect_answers(),
            r.signals.deep_view() == self@.executor.order,
    {
        let signals = self.executor.cancel_all();
        let answers = primary.fail_all_live();
        SessionEnd { signals, answers }
    }
}

/// The delay doubles until it reaches its ceiling and stays there; it never
/// grows shorter and never exceeds the ceiling.
pub proof fn law_delay_doubles_up_to_the_ceiling(current: u64)
    requires
        1 <= current <= MAX_BACKOFF_SECS,
    ensures
        current <= doubled_backoff(current) <= MAX_BACKOFF_SECS,
        doubled_backoff(current) == current + current || (doubled_backoff(current)
            == MAX_BACKOFF_SECS && current + current > MAX_BACKOFF_SECS),
        doubled_backoff(current) > current || current == MAX_BACKOFF_SECS,
{
}

/// Every status has a word of its own on the wire, and the word is the same as
/// on the local socket.
pub proof fn law_wire_words_agree(s: DelegationStatus, t: DelegationStatus)
    ensures
        status_word(s) == wire_word(wire_status(s)),
        status_word(s) == status_word(t) <==> s == t,
{
    crate::control_plane::primary::law_statuses_have_their_own_words(s, t);
}

/// Ids are used once: the id after one differs from it, and counting reaches
/// the next number unless there is none.
pub proof fn law_ids_go_up(id: u64)
    ensures
        id_after(id) != id,
        id < u64::MAX ==> id_after(id) == id + 1,
{
}

/// The frame on the end of a delegation names its admission, and tells its
/// status, its result and its error where it has them.
pub proof fn law_result_frame_tells_the_end(id: u64, p: DelegateResultView)
    ensures
        holds(result_frame(id, p), "\"id\":"@ + decimal(id as nat) + ",\"method\":"@),
        holds(
            result_frame(id, p),
            "\"admission\":"@ + decimal(p.admission as nat) + ",\"delegation_id\":"@ + json_string(
                p.delegation_id,
            ),
        ),
        holds(result_frame(id, p), "\"status\":\""@ + status_word(p.status) + "\""@),
        p.result matches Some(t) ==> holds(
            result_frame(id, p),
            "\"result\":"@ + json_string(t),
        ),
        p.error matches Some(t) ==> holds(result_frame(id, p), "\"error\":"@ + json_string(t)),
{
    let (head, e, r, tail) = (
        frame_head(id, p),
        member("\"error\":"@, p.error),
        member("\"result\":"@, p.result),
        frame_tail(p.status),
    );
    let frame = result_frame(id, p);
    lemma_frame_head(
        decimal(id as nat),
        decimal(p.admission as nat),
        json_string(p.delegation_id),
        e + r + tail,
    );
    assert(head + (e + r + tail) =~= frame);
    lemma_frame_tail(head + e + r, status_word(p.status));
    match p.error {
        Some(t) => {
            let told = "\"error\":"@ + json_string(t);
            lemma_holds_between(head, told, ","@ + r + tail);
            assert(head + told + (","@ + r + tail) =~= frame);
        },
        None => {},
    }
    match p.result {
        Some(t) => {
            let told = "\"result\":"@ + json_string(t);
            lemma_holds_between(head + e, told, ","@ + tail);
            assert(head + e + told + (","@ + tail) =~= frame);
        },
        None => {},
    }
}

proof fn lemma_frame_head(id: Seq<char>, admission: Seq<char>, name: Seq<char>, rest: Seq<char>)
    ensures
        ({
            let frame = "{\"jsonrpc\":\"2.0\",\"id\":"@ + id
                + ",\"method\":\"cp/delegate_result\",\"params\":{\"admission\":"@ + admission
                + ",\"delegation_id\":"@ + name + ","@ + rest;
            &&& holds(frame, "\"id\":"@ + id + ",\"method\":"@)
            &&& holds(frame, "\"admission\":"@ + admission + ",\"delegation_id\":"@ + name)
        }),
{
    reveal_strlit("{\"jsonrpc\":\"2.0\",\"id\":");
    reveal_strlit("\"id\":");
    reveal_strlit(",\"method\":\"cp/delegate_result\",\"params\":{\"admission\":");
    reveal_strlit(",\"method\":");
    reveal_strlit("\"admission\":");
    let start = "{\"jsonrpc\":\"2.0\",\"id\":"@;
    let middle = ",\"method\":\"cp/delegate_result\",\"params\":{\"admission\":"@;
    let frame = start + id + middle + admission + ",\"delegation_id\":"@ + name + ","@ + rest;
    let (a, b) = ("\"id\":"@, ",\"method\":"@);
    let n = a.len() as int;
    assert(start =~= start.take(start.len() - n) + a);
    assert(middle =~= b + middle.skip(b.len() as int));
    let front = start.take(start.len() - n);
    let back = middle.skip(b.len() as int) + admission + ",\"delegation_id\":"@ + name + ","@ + rest;
    lemma_holds_between(front, a + id + b, back);
    assert(front + (a + id + b) + back =~= frame);
    let c = "\"admission\":"@;
    let m = middle.take(middle.len() - c.len());
    assert(middle =~= m + c);
    let told = c + admission + ",\"delegation_id\":"@ + name;
    lemma_holds_between(start + id + m, told, ","@ + rest);
    assert(start + id + m + told + (","@ + rest) =~= frame);
}

proof fn lemma_frame_tail(front: Seq<char>, word: Seq<char>)
    ensures
        holds(
            front + ("\"status\":\""@ + word + "\"}}"@),
            "\"status\":\""@ + word + "\""@,
        ),
{
    reveal_strlit("\"}}");
    reveal_strlit("\"");
    let told = "\"status\":\""@ + word + "\""@;
    let back = "\"}}"@.skip(1);
    assert("\"}}"@ =~= "\""@ + back);
    lemma_holds_between(front, told, back);
    assert(front + told + back =~= front + ("\"status\":\""@ + word + "\"}}"@));
}

/// A frame whose payload has to be cut tells the same end of the same
/// delegation: only the payload differs, and it starts as the payload does.
pub proof fn law_cutting_keeps_the_end(p: DelegateResultView, payload: Seq<char>)
    ensures
        with_payload(p, payload).status == p.status,
        with_payload(p, payload).delegation_id == p.delegation_id,
        with_payload(p, payload).admission == p.admission,
        with_payload(p, payload).result is Some <==> p.result is Some,
        p.result is Some ==> with_payload(p, payload).error == p.error && with_payload(
            p,
            payload,
        ).result == Some(payload),
        p.result is None ==> with_payload(p, payload).error == Some(payload),
        payload_of(p) is Some ==> with_payload(p, payload_of(p)->0) == p,
        payload_of(with_payload(p, payload)) == Some(payload),
{
}

/// A frame that fits is sent whole.
pub proof fn law_fitting_frame_is_sent_whole(id: u64, p: DelegateResultView)
    requires
        utf8_len(result_frame(id, p)) <= MAX_FRAME_BYTES,
    ensures
        sent_frame(id, p) == result_frame(id, p),
        result_error(id, p) is None,
{
}

/// A reply is addressed to the request that it answers, and an error tells its
/// code and its message.
pub proof fn law_replies_are_addressed(id: u64, code: i64, message: Seq<char>)
    ensures
        holds(ok_text(id), "\"id\":"@ + decimal(id as nat) + ",\"result\":"@),
        holds(error_text(id, code, message), "\"id\":"@ + decimal(id as nat) + ",\"error\":"@),
        holds(
            error_text(id, code, message),
            "\"code\":"@ + signed_decimal(code as int) + ",\"message\":"@ + json_string(message),
        ),
{
    lemma_reply_parts(decimal(id as nat), signed_decimal(code as int), json_string(message));
}

proof fn lemma_reply_parts(id: Seq<char>, code: Seq<char>, message: Seq<char>)
    ensures
        holds(
            "{\"jsonrpc\":\"2.0\",\"id\":"@ + id + ",\"result\":{\"ok\":true}}"@,
            "\"id\":"@ + id + ",\"result\":"@,
        ),
        ({
            let text = "{\"jsonrpc\":\"2.0\",\"id\":"@ + id + ",\"error\":{\"code\":"@ + code
                + ",\"message\":"@ + message + "}}"@;
            &&& holds(text, "\"id\":"@ + id + ",\"error\":"@)
            &&& holds(text, "\"code\":"@ + code + ",\"message\":"@ + message)
        }),
{
    reveal_strlit("{\"jsonrpc\":\"2.0\",\"id\":");
    reveal_strlit("\"id\":");
    reveal_strlit(",\"result\":{\"ok\":true}}");
    reveal_strlit(",\"result\":");
    reveal_strlit(",\"error\":{\"code\":");
    reveal_strlit(",\"error\":");
    reveal_strlit("\"code\":");
    let start = "{\"jsonrpc\":\"2.0\",\"id\":"@;
    let a = "\"id\":"@;
    let front = start.take(start.len() - a.len());
    assert(start =~= front + a);
    let ok = ",\"result\":{\"ok\":true}}"@;
    let r = ",\"result\":"@;
    let ok_back = ok.skip(r.len() as int);
    assert(ok =~= r + ok_back);
    lemma_holds_between(front, a + id + r, ok_back);
    assert(front + (a + id + r) + ok_back =~= start + id + ok);
    let fault = ",\"error\":{\"code\":"@;
    let e = ",\"error\":"@;
    let text = start + id + fault + code + ",\"message\":"@ + message + "}}"@;
    let fault_back = fault.skip(e.len() as int);
    assert(fault =~= e + fault_back);
    let back = fault_back + code + ",\"message\":"@ + message + "}}"@;
    lemma_holds_between(front, a + id + e, back);
    assert(front + (a + id + e) + back =~= text);
    let c = "\"code\":"@;
    let fault_front = fault.take(fault.len() - c.len());
    assert(fault =~= fault_front + c);
    let told = c + code + ",\"message\":"@ + message;
    lemma_holds_between(start + id + fault_front, told, "}}"@);
    assert(start + id + fault_front + told + "}}"@ =~= text);
}

/// A worker serves a delegation as it was forwarded and acknowledges it under
/// the id of the request; a primary serves none and says so.
pub proof fn law_workers_serve(
    m: InboundMessage,
    role: CpAgentType,
    executor: ExecutorView,
    step: FrameStep,
    id: u64,
    forward: DelegateForward,
)
    requires
        handled(m, role, executor, step),
        m.jsonrpc.deep_view() == Some("2.0"@),
        m.id == Some(id),
        m.method.deep_view() == Some("cp/delegate"@),
        m.params.delegate == Some(forward),
    ensures
        role is Worker ==> (step.action matches FrameAction::Serve { ack, forward: f } && f == forward
            && ack@ == ok_text(id)),
        role is Primary ==> (step.action matches FrameAction::Reply(t) && exists|why: Seq<char>|
            t@ == #[trigger] error_text(id, POLICY_DENIED, why)),
        step.signal is None,
{
}

/// A cancel is acknowledged, and signals the delegation that it names exactly
/// where that is in flight under the admission that it names.
pub proof fn law_cancels_signal_what_they_name(
    m: InboundMessage,
    role: CpAgentType,
    executor: ExecutorView,
    step: FrameStep,
    id: u64,
    c: CancelParams,
)
    requires
        handled(m, role, executor, step),
        m.jsonrpc.deep_view() == Some("2.0"@),
        m.id == Some(id),
        m.method.deep_view() == Some("cp/cancel"@),
        m.params.cancel == Some(c),
    ensures
        step.action matches FrameAction::Reply(t) && t@ == ok_text(id),
        match step.signal {
            Some(s) => s@ == c.delegation_id@ && executor.inflight.contains_key(s@)
                && executor.inflight[s@] == c.admission,
            None => !(executor.inflight.contains_key(c.delegation_id@)
                && executor.inflight[c.delegation_id@] == c.admission),
        },
{
    reveal_strlit("cp/cancel");
    reveal_strlit("cp/delegate");
    assert("cp/cancel"@.len() != "cp/delegate"@.len());
}

/// A request without an envelope that is in order, or by a method that is not
/// served, is answered with the error for that and does nothing else.
pub proof fn law_other_requests_are_errors(
    m: InboundMessage,
    role: CpAgentType,
    executor: ExecutorView,
    step: FrameStep,
)
    requires
        handled(m, role, executor, step),
        m.method is Some,
    ensures
        m.jsonrpc.deep_view() != Some("2.0"@) || m.id is None ==> (step.action matches
            FrameAction::Reply(t) && exists|why: Seq<char>|
            t@ == #[trigger] error_text(reply_id(m), INVALID_REQUEST, why)) && step.signal is None,
        m.jsonrpc.deep_view() == Some("2.0"@) && m.id is Some && m.method.deep_view() != Some(
            "cp/delegate"@,
        ) && m.method.deep_view() != Some("cp/cancel"@) ==> (step.action matches FrameAction::Reply(
            t,
        ) && t@ == error_text(
            reply_id(m),
            METHOD_NOT_FOUND,
            "runtime does not serve "@ + m.method.deep_view()->0,
        )) && step.signal is None,
{
}

/// Whoever spawns is answered with what the control plane says to the request
/// that was sent for it: the handle and the runtime of the ack, or the error.
pub proof fn law_spawner_is_answered(
    request: SpawnRequest,
    reply: u64,
    client: ClientView,
    s: PrimaryView,
    after: ClientView,
    t: PrimaryView,
    step: SessionStep,
    m: InboundMessage,
)
    requires
        s.wf(),
        client.cfg.agent_type is Primary,
        commanded(ClientCommand::Spawn { request, reply }, client, s, after, t, step),
        m.method is None,
        step.action matches SessionAction::Request { rpc_id, .. } && m.id == Some(rpc_id),
    ensures
        step.action matches SessionAction::Request { request: OutboundRequest::Delegate(p), .. }
            && p.delegation_id@ == request.delegation_id@ && p.prompt == request.prompt
            && p.deadline == request.deadline,
        answers_after(m, t).len() == 1,
        answered_ticket(answers_after(m, t)[0]) == reply,
        m.error matches Some(e) ==> (answers_after(m, t)[0] matches AnswerView::Spawn {
            result: Err(CommandErrorView::Cp { code, message }),
            ..
        } && code == e.code && message == e.message@),
        m.error is None ==> (m.result@.ack matches Some(ack) ==> (answers_after(
            m,
            t,
        )[0] matches AnswerView::Spawn { result: Ok(given), .. } && given.handle == ack.handle
            && given.assigned_to == ack.assigned_to)),
        step.answers.deep_view().len() == 0,
{
    law_parking_touches_one_request(
        s,
        client.next_id,
        PendingView::Spawn { delegation_id: request.delegation_id@, reply },
        0,
    );
}

/// Whoever cancels or asks for the roster is answered with what the control
/// plane says to the request that was sent for it.
pub proof fn law_asker_is_answered(
    command: ClientCommand,
    reply: u64,
    client: ClientView,
    s: PrimaryView,
    after: ClientView,
    t: PrimaryView,
    step: SessionStep,
    m: InboundMessage,
)
    requires
        s.wf(),
        client.cfg.agent_type is Primary,
        (command matches ClientCommand::Cancel { handle, reply: r, .. } && r == reply
            && s.known.contains_key(handle@)) || command == (ClientCommand::ListAgents { reply }),
        commanded(command, client, s, after, t, step),
        m.method is None,
        m.error is None,
        m.id == Some(client.next_id),
    ensures
        step.action matches SessionAction::Request { rpc_id, request } && rpc_id == client.next_id
            && (command matches ClientCommand::Cancel { handle, reason, .. } ==> (request matches
            OutboundRequest::Cancel(p) && p.delegation_id@ == handle@.0 && p.admission == handle@.1
            && p.reason == reason)) && (command is ListAgents ==> request is ListAgents),
        answers_after(m, t).len() == 1,
        command is Cancel ==> answers_after(m, t)[0] == (AnswerView::Cancel { reply, result: Ok(()) }),
        command is ListAgents ==> (m.result@.agents matches Some(agents) ==> answers_after(m, t)[0]
            == (AnswerView::ListAgents { reply, result: Ok(agents) })),
{
    match command {
        ClientCommand::Cancel { reply: r, .. } => {
            law_parking_touches_one_request(s, client.next_id, PendingView::Cancel { reply: r }, 0);
        },
        ClientCommand::ListAgents { reply: r } => {
            law_parking_touches_one_request(
                s,
                client.next_id,
                PendingView::ListAgents { reply: r },
                0,
            );
        },
        _ => {},
    }
}

/// Whoever waits for a live delegation is answered when its end is delivered,
/// with the status, the result and the error that are delivered; and a check
/// made after that reports the same end.
pub proof fn law_waiter_learns_the_end(
    handle: DelegationHandle,
    reply: u64,
    client: ClientView,
    s: PrimaryView,
    after: ClientView,
    t: PrimaryView,
    step: SessionStep,
    m: InboundMessage,
    p: DelegateResultParams,
    checker: u64,
    after_check: ClientView,
    u: PrimaryView,
    check: SessionStep,
)
    requires
        s.wf(),
        t.wf(),
        is_live(s.known, handle@),
        commanded(ClientCommand::Await { handle, reply }, client, s, after, t, step),
        is_delegate_result(m),
        envelope_error(m) is None,
        m.params.delegate_result == Some(p),
        handle@ == (p.delegation_id@, p.admission),
        commanded(
            ClientCommand::Check { handle, reply: checker },
            client,
            primary_after(m, t),
            after_check,
            u,
            check,
        ),
    ensures
        step.answers.deep_view().len() == 0,
        answers_after(m, t).contains(
            AnswerView::Await {
                reply,
                result: Ok(
                    OutcomeView {
                        status: p.status,
                        result: p.result.deep_view(),
                        error: p.error.deep_view(),
                    },
                ),
            },
        ),
        check.answers.deep_view() == seq![
            AnswerView::Check {
                reply: checker,
                result: Ok(
                    LifecycleView::Terminal(
                        OutcomeView {
                            status: p.status,
                            result: p.result.deep_view(),
                            error: p.error.deep_view(),
                        },
                    ),
                ),
            },
        ],
{
    let waiting = (handle@, reply);
    assert(t.awaiters[s.awaiters.len() as int] == waiting);
    law_result_wakes_waiters(t, p@, reply);
}

/// A runtime that is no primary sends nothing for a command that only a primary
/// may give, and tells the caller so.
pub proof fn law_only_primaries_initiate(
    command: ClientCommand,
    client: ClientView,
    s: PrimaryView,
    after: ClientView,
    t: PrimaryView,
    step: SessionStep,
)
    requires
        client.cfg.agent_type is Worker,
        command is Spawn || command is Cancel || command is ListAgents,
        commanded(command, client, s, after, t, step),
    ensures
        step.action is Nothing,
        t == s,
        step.answers.deep_view().len() == 1,
        answered_error(step.answers.deep_view()[0]) == Some(
            CommandErrorView::Internal(primary_only_text()),
        ),
        command matches ClientCommand::Spawn { reply, .. } ==> answered_ticket(
            step.answers.deep_view()[0],
        ) == reply,
        command matches ClientCommand::Cancel { reply, .. } ==> answered_ticket(
            step.answers.deep_view()[0],
        ) == reply,
        command matches ClientCommand::ListAgents { reply } ==> answered_ticket(
            step.answers.deep_view()[0],
        ) == reply,
{
}

/// A command that arrives without a connection is answered to whoever gave it.
pub proof fn law_rejected_command_is_answered(command: ClientCommand, error: CommandErrorView)
    ensures
        answered_error(error_answer(command, error)) == Some(error),
        answered_ticket(error_answer(command, error)) == (match command {
            ClientCommand::Spawn { reply, .. } => reply,
            ClientCommand::Await { reply, .. } => reply,
            ClientCommand::Check { reply, .. } => reply,
            ClientCommand::Cancel { reply, .. } => reply,
            ClientCommand::ListAgents { reply } => reply,
        }),
        error_answer(command, error) is Spawn <==> command is Spawn,
        error_answer(command, error) is Await <==> command is Await,
        error_answer(command, error) is Check <==> command is Check,
        error_answer(command, error) is Cancel <==> command is Cancel,
{
}

/// A heartbeat reports how many delegations are in flight, and the end of a
/// delegation is reported or ends the session; both under an id of their own. A
/// ping is answered with what it holds, and a shutdown is no loss of connection.
pub proof fn law_session_events_are_answered(
    event: SessionEvent,
    client: ClientView,
    s: PrimaryView,
    after: ClientView,
    t: PrimaryView,
    step: SessionStep,
)
    requires
        stepped(event, client, s, after, t, step),
        !(event is Command) && !(event is Inbound),
    ensures
        t == s,
        step.answers.deep_view().len() == 0,
        event is HeartbeatTick ==> (step.action matches SessionAction::Request {
            rpc_id,
            request: OutboundRequest::Heartbeat { instance_id, active_delegated_sessions },
        } && rpc_id == client.next_id && instance_id@ == client.instance_id
            && active_delegated_sessions == client.executor.inflight.dom().len()),
        event is HeartbeatTick || event is Finished ==> after.next_id != client.next_id,
        event matches SessionEvent::Finished(p) ==> match step.action {
            SessionAction::Send(frame) => utf8_len(frame@) <= MAX_FRAME_BYTES && (utf8_len(
                result_frame(client.next_id, p@),
            ) <= MAX_FRAME_BYTES ==> frame@ == result_frame(client.next_id, p@)),
            SessionAction::Abort(_) => utf8_len(result_frame(client.next_id, p@)) > MAX_FRAME_BYTES,
            _ => false,
        },
        event matches SessionEvent::Ping(p) ==> step.action == SessionAction::Pong(p),
        event is Shutdown <==> step.action == SessionAction::End(Outcome::Shutdown),
        event is Gone <==> step.action == SessionAction::End(Outcome::Disconnected),
        after.executor == client.executor,
{
}

/// The runtime is registered exactly by a reply to its own request that is no
/// error and acknowledges its protocol revision, and with what that says; any
/// other reply to that request fails, and what is no reply to it is passed over.
pub proof fn law_registration_needs_its_own_ack(id: u64, event: RegisterEvent, step: RegisterStep)
    requires
        register_stepped(id, event, step),
    ensures
        step is Registered <==> (event matches RegisterEvent::Frame {
            id: got,
            error,
            result: Some(Ok(ack)),
        } && got == Some(id) && error is None && ack.protocol_version == PROTOCOL_VERSION),
        step matches RegisterStep::Registered(given) ==> (event matches RegisterEvent::Frame {
            result: Some(Ok(ack)),
            ..
        } && given == ack),
        step is Wait <==> event is Other || (event matches RegisterEvent::Frame { id: got, .. }
            && got != Some(id)),
{
}

/// A refused revision is told, and so is the one that is required.
pub proof fn law_refused_revision_is_told(version: u32)
    ensures
        holds(version_error(version), decimal(version as nat)),
        holds(version_error(version), decimal(PROTOCOL_VERSION as nat)),
{
    let (head, middle) = (
        "control plane acknowledged protocol version "@,
        ", but this runtime requires "@,
    );
    let (got, want) = (decimal(version as nat), decimal(PROTOCOL_VERSION as nat));
    lemma_holds_between(head, got, middle + want);
    assert(head + got + (middle + want) =~= version_error(version));
    lemma_holds_between(head + got + middle, want, seq![]);
    assert(head + got + middle + want + Seq::<char>::empty() =~= version_error(version));
}

/// The longest delay is as many seconds as were asked for, in milliseconds; none
/// at all is one millisecond, and none is longer than can be said.
pub proof fn law_delay_is_in_milliseconds(base_secs: u64, more: u64)
    ensures
        1 <= backoff_ceiling_ms(base_secs) <= u64::MAX,
        base_secs == 0 ==> backoff_ceiling_ms(base_secs) == 1,
        base_secs > 0 && base_secs * 1000 <= u64::MAX ==> backoff_ceiling_ms(base_secs)
            == base_secs * 1000,
        base_secs <= more ==> backoff_ceiling_ms(base_secs) <= backoff_ceiling_ms(more),
{
}

/// A frame that cannot be read, and a message that is no frame, change nothing
/// and are answered nothing; a frame that can be changes nothing of the client
/// itself, and of the delegations just what it is about. The end of a delegation
/// is always replied to: it is acknowledged exactly where it is in order.
pub proof fn law_frames_leave_the_client(
    event: SessionEvent,
    client: ClientView,
    s: PrimaryView,
    after: ClientView,
    t: PrimaryView,
    step: SessionStep,
)
    requires
        stepped(event, client, s, after, t, step),
        event is Inbound || event is Other,
    ensures
        after == client,
        event is Other || event == SessionEvent::Inbound(None) ==> t == s && step.action is Nothing
            && step.signal is None && step.answers.deep_view().len() == 0,
        event matches SessionEvent::Inbound(Some(m)) ==> t == primary_after(m, s)
            && step.action !is Request && step.action !is End && step.action !is Pong
            && step.answers.deep_view() == answers_after(m, s),
        event matches SessionEvent::Inbound(Some(m)) ==> (is_delegate_result(m) ==> {
            &&& step.signal is None
            &&& step.action matches SessionAction::Send(reply)
            &&& envelope_error(m) is None && m.params.delegate_result is Some ==> reply@ == ok_text(
                reply_id(m),
            )
            &&& envelope_error(m) matches Some(e) ==> reply@ == error_text(
                reply_id(m),
                INVALID_REQUEST,
                e,
            )
            &&& envelope_error(m) is None && m.params.delegate_result is None ==> reply@
                == error_text(reply_id(m), INVALID_PARAMS, "invalid cp/delegate_result params"@)
        }),
{
}

} // verus!
