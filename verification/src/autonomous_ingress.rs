//! Which messages of humans go to the scheduler before the conversation, and
//! what its answer means for the turn.
//!
//! The decision rests on configuration alone. The text of a message is never
//! looked at.

use crate::adapter::ChannelRef;
use crate::config::AutonomousIngressConfig;
use crate::config::credential;
use crate::proto::copy_text;
use crate::text::decimal;
use crate::text::decimal_text;
use crate::text::first_chars;
use crate::text::holds;
use crate::text::law_first_characters_are_a_prefix;
use crate::text::lemma_ends_in;
use crate::text::lemma_ends_in_parts;
use crate::text::lemma_holds_between;
use crate::text::same;
use crate::text::take_chars;
use crate::text::trim_end_slashes;
use crate::text::without_trailing_slashes;
use vstd::prelude::*;
use vstd::string::*;

verus! {

/// What becomes of a turn.
#[derive(Debug, PartialEq, Eq)]
pub enum AutonomousRouteDisposition {
    /// The scheduler owns the turn: it does not reach the conversation.
    Accepted {
        task_id: String,
        workflow_run_id: String,
        binding_id: String,
        conversation_key: String,
    },
    /// The scheduler refused: the sender is told, and the turn ends.
    Rejected { error_code: String, retryable: bool, detail: Option<String> },
    /// The scheduler could not be asked: the sender is told, and the turn ends.
    Unavailable { error_code: String, retryable: bool },
    /// The turn does not concern the scheduler: it goes on as always.
    NotApplicable,
}

/// A turn that is to go to the scheduler, as it is logged.
#[derive(Debug, PartialEq, Eq)]
pub struct AutonomousIngressCandidate {
    pub source: &'static str,
    pub agent: String,
    pub conversation_key: String,
    pub message_id: String,
    pub routing_contract: &'static str,
}

/// Where what the work says is delivered.
#[derive(Debug, PartialEq, Eq)]
pub struct AutonomousIngressDeliveryDestination {
    pub platform: String,
    pub channel_id: String,
    pub thread_id: Option<String>,
    pub parent_id: Option<String>,
    pub origin_event_id: Option<String>,
}

/// Where a turn came from. No authority follows from any of it.
#[derive(Debug, PartialEq, Eq)]
pub struct AutonomousIngressMetadata {
    pub discord_message_id: Option<String>,
    pub discord_channel_id: Option<String>,
    pub discord_thread_id: Option<String>,
    pub discord_user_id: Option<String>,
    pub discord_sender_is_bot: bool,
    pub delivery_destination: Option<AutonomousIngressDeliveryDestination>,
}

impl Default for AutonomousIngressMetadata {
    fn default() -> (r: Self)
        ensures
            r.discord_message_id is None,
            r.discord_channel_id is None,
            r.discord_thread_id is None,
            r.discord_user_id is None,
            !r.discord_sender_is_bot,
            r.delivery_destination is None,
    {
        AutonomousIngressMetadata {
            discord_message_id: None,
            discord_channel_id: None,
            discord_thread_id: None,
            discord_user_id: None,
            discord_sender_is_bot: false,
            delivery_destination: None,
        }
    }
}

/// What the scheduler is asked.
#[derive(Debug, PartialEq, Eq)]
pub struct AutonomousIngressRequest {
    pub protocol: &'static str,
    pub project_id: String,
    pub transport: &'static str,
    pub conversation_key: String,
    pub user_objective: String,
    pub trace_id: String,
    pub task_id: Option<String>,
    pub primary_agent: String,
    pub language: String,
    pub metadata: AutonomousIngressMetadata,
    /// Never read out of `conversation_key`.
    pub delivery_destination: Option<AutonomousIngressDeliveryDestination>,
}

/// What the scheduler answers.
#[derive(Debug, PartialEq, Eq)]
pub struct AutonomousIngressResponse {
    pub disposition: String,
    pub task_id: Option<String>,
    pub workflow_run_id: Option<String>,
    pub binding_id: Option<String>,
    pub conversation_key: Option<String>,
    pub error_code: Option<String>,
    pub detail: Option<String>,
    pub retryable: Option<bool>,
}

/// Why the scheduler gave no answer. No credential is part of it.
#[derive(Debug, PartialEq, Eq)]
pub enum AutonomousIngressError {
    Unreachable(String),
    Timeout,
    AuthMissing,
    Http { status: u16, body_snippet: String },
    Malformed(String),
}

/// Whether asking again may help.
pub open spec fn worth_retrying(e: AutonomousIngressError) -> bool {
    match e {
        AutonomousIngressError::Unreachable(_) => true,
        AutonomousIngressError::Timeout => true,
        AutonomousIngressError::Http { status, .. } => status >= 500,
        AutonomousIngressError::AuthMissing => false,
        AutonomousIngressError::Malformed(_) => false,
    }
}

/// The token of an error.
pub open spec fn ingress_code(e: AutonomousIngressError) -> Seq<char> {
    match e {
        AutonomousIngressError::Unreachable(_) => "AAP_UNREACHABLE"@,
        AutonomousIngressError::Timeout => "AAP_TIMEOUT"@,
        AutonomousIngressError::AuthMissing => "AAP_AUTH_MISSING"@,
        AutonomousIngressError::Http { .. } => "AAP_HTTP_ERROR"@,
        AutonomousIngressError::Malformed(_) => "AAP_RESPONSE_MALFORMED"@,
    }
}

/// An error in words.
pub open spec fn ingress_message(e: AutonomousIngressError) -> Seq<char> {
    match e {
        AutonomousIngressError::Unreachable(m) => "AAP unreachable: "@ + m@,
        AutonomousIngressError::Timeout => "AAP timeout"@,
        AutonomousIngressError::AuthMissing => "AAP auth credential missing"@,
        AutonomousIngressError::Http { status, body_snippet } => "AAP HTTP "@ + decimal(
            status as nat,
        ) + ": "@ + body_snippet@,
        AutonomousIngressError::Malformed(m) => "AAP response malformed: "@ + m@,
    }
}

impl AutonomousIngressError {
    /// Whether asking again may help.
    pub fn retryable(&self) -> (r: bool)
        ensures
            r == worth_retrying(*self),
    {
        match self {
            AutonomousIngressError::Unreachable(_) => true,
            AutonomousIngressError::Timeout => true,
            AutonomousIngressError::Http { status, .. } => *status >= 500,
            AutonomousIngressError::AuthMissing => false,
            AutonomousIngressError::Malformed(_) => false,
        }
    }

    /// The token of the error.
    pub fn code(&self) -> (r: &'static str)
        ensures
            r@ == ingress_code(*self),
    {
        match self {
            AutonomousIngressError::Unreachable(_) => "AAP_UNREACHABLE",
            AutonomousIngressError::Timeout => "AAP_TIMEOUT",
            AutonomousIngressError::AuthMissing => "AAP_AUTH_MISSING",
            AutonomousIngressError::Http { .. } => "AAP_HTTP_ERROR",
            AutonomousIngressError::Malformed(_) => "AAP_RESPONSE_MALFORMED",
        }
    }

    /// The error in words.
    pub fn message(&self) -> (r: String)
        ensures
            r@ == ingress_message(*self),
    {
        match self {
            AutonomousIngressError::Unreachable(m) => {
                let mut t = "AAP unreachable: ".to_owned();
                t.append(m.as_str());
                t
            },
            AutonomousIngressError::Timeout => "AAP timeout".to_owned(),
            AutonomousIngressError::AuthMissing => "AAP auth credential missing".to_owned(),
            AutonomousIngressError::Http { status, body_snippet } => {
                let number = decimal_text(*status as u64);
                let mut t = "AAP HTTP ".to_owned();
                t.append(number.as_str());
                t.append(": ");
                t.append(body_snippet.as_str());
                t
            },
            AutonomousIngressError::Malformed(m) => {
                let mut t = "AAP response malformed: ".to_owned();
                t.append(m.as_str());
                t
            },
        }
    }
}

/// Asks the scheduler over HTTP.
#[derive(Debug, PartialEq, Eq)]
pub struct HttpAutonomousIngressClient {
    pub base_url: String,
    pub credential: String,
    pub timeout_seconds: u64,
}

/// What a response comes to, given what its body decodes to.
pub open spec fn answered(
    status: u16,
    body: Seq<char>,
    decoded: Result<AutonomousIngressResponse, String>,
    r: Result<AutonomousIngressResponse, AutonomousIngressError>,
) -> bool {
    if 200 <= status < 300 {
        match decoded {
            Ok(a) => r == Ok::<AutonomousIngressResponse, AutonomousIngressError>(a),
            Err(why) => r matches Err(AutonomousIngressError::Malformed(m)) && m@
                == "decode response: "@ + why@,
        }
    } else {
        r matches Err(AutonomousIngressError::Http { status: s, body_snippet }) && s == status
            && body_snippet@ == first_chars(body, 200)
    }
}

impl HttpAutonomousIngressClient {
    /// A client, given what the variable holds that should hold the
    /// credential.
    pub fn new(config: &AutonomousIngressConfig, value: Option<String>) -> (r: Result<
        Self,
        AutonomousIngressError,
    >)
        ensures
            match credential(value.deep_view()) {
                Some(token) => r matches Ok(c) && c.base_url@ == without_trailing_slashes(
                    config.aap_runtime_url@,
                ) && c.credential@ == token && c.timeout_seconds
                    == config.request_timeout_seconds,
                None => r == Err::<Self, AutonomousIngressError>(
                    AutonomousIngressError::AuthMissing,
                ),
            },
    {
        match config.resolve_credential(value) {
            Some(credential) => Ok(
                HttpAutonomousIngressClient {
                    base_url: trim_end_slashes(config.aap_runtime_url.as_str()).to_owned(),
                    credential,
                    timeout_seconds: config.request_timeout_seconds,
                },
            ),
            None => Err(AutonomousIngressError::AuthMissing),
        }
    }

    /// Where the request goes.
    pub fn url(&self) -> (r: String)
        ensures
            r@ == self.base_url@ + "/v1/integrations/openab/autonomous_ingress"@,
    {
        let mut u = self.base_url.clone();
        u.append("/v1/integrations/openab/autonomous_ingress");
        u
    }

    /// What a response comes to, given what its body decodes to.
    pub fn submit(
        &self,
        status: u16,
        body: &str,
        decoded: Result<AutonomousIngressResponse, String>,
    ) -> (r: Result<AutonomousIngressResponse, AutonomousIngressError>)
        ensures
            answered(status, body@, decoded, r),
    {
        if status < 200 || status >= 300 {
            return Err(
                AutonomousIngressError::Http {
                    status,
                    body_snippet: take_chars(body, 200).to_owned(),
                },
            );
        }
        match decoded {
            Ok(a) => Ok(a),
            Err(why) => {
                let mut m = "decode response: ".to_owned();
                m.append(why.as_str());
                Err(AutonomousIngressError::Malformed(m))
            },
        }
    }
}

/// The client that a program starts with.
pub fn build_production_client(config: &AutonomousIngressConfig, value: Option<String>) -> (r:
    Result<HttpAutonomousIngressClient, AutonomousIngressError>)
    ensures
        match credential(value.deep_view()) {
            Some(token) => r matches Ok(c) && c.base_url@ == without_trailing_slashes(
                config.aap_runtime_url@,
            ) && c.credential@ == token && c.timeout_seconds == config.request_timeout_seconds,
            None => r == Err::<HttpAutonomousIngressClient, AutonomousIngressError>(
                AutonomousIngressError::AuthMissing,
            ),
        },
{
    HttpAutonomousIngressClient::new(config, value)
}

/// Whether a turn goes to the scheduler first.
pub open spec fn routed(
    config: Option<&AutonomousIngressConfig>,
    agent: Seq<char>,
    authorized: bool,
) -> bool {
    match config {
        Some(c) => c.aap_agents.deep_view().contains(agent) && (c.aap_universal_humans
            || authorized),
        None => false,
    }
}

/// Whether a turn goes to the scheduler first: it must be configured, for this
/// agent, and the sender must be authorised unless everybody is.
pub fn should_route_to_aap(
    config: Option<&AutonomousIngressConfig>,
    agent: &str,
    sender_tech_lead_authorized: bool,
) -> (r: bool)
    ensures
        r == routed(config, agent@, sender_tech_lead_authorized),
{
    match config {
        Some(c) => c.declares_agent(agent) && (c.aap_universal_humans
            || sender_tech_lead_authorized),
        None => false,
    }
}

/// A text, or nothing at all.
pub open spec fn or_empty(t: Option<Seq<char>>) -> Seq<char> {
    match t {
        Some(s) => s,
        None => seq![],
    }
}

fn text_or(t: Option<String>, other: &str) -> (r: String)
    ensures
        r@ == (match t {
            Some(s) => s@,
            None => other@,
        }),
{
    match t {
        Some(s) => s,
        None => other.to_owned(),
    }
}

fn text_or_empty(t: Option<String>) -> (r: String)
    ensures
        r@ == or_empty(t.deep_view()),
{
    match t {
        Some(s) => s,
        None => String::new(),
    }
}

/// What an answer means for the turn.
pub open spec fn projected(
    a: AutonomousIngressResponse,
    fallback: Seq<char>,
    d: AutonomousRouteDisposition,
) -> bool {
    if a.disposition@ == "ACCEPTED"@ {
        d matches AutonomousRouteDisposition::Accepted {
            task_id,
            workflow_run_id,
            binding_id,
            conversation_key,
        } && task_id@ == or_empty(a.task_id.deep_view()) && workflow_run_id@ == or_empty(
            a.workflow_run_id.deep_view(),
        ) && binding_id@ == or_empty(a.binding_id.deep_view()) && conversation_key@ == (
        match a.conversation_key {
            Some(k) => k@,
            None => fallback,
        })
    } else if a.disposition@ == "REJECTED"@ {
        d matches AutonomousRouteDisposition::Rejected { error_code, retryable, detail }
            && error_code@ == (match a.error_code {
            Some(c) => c@,
            None => "AAP_REJECTED"@,
        }) && retryable == (a.retryable == Some(true)) && detail == a.detail
    } else {
        d matches AutonomousRouteDisposition::Rejected { error_code, retryable, detail }
            && error_code@ == "AAP_UNKNOWN_DISPOSITION:"@ + a.disposition@ && !retryable && detail
            == a.detail
    }
}

/// What an answer means for the turn. An answer that is not understood is a
/// refusal.
pub fn project_response(response: AutonomousIngressResponse, fallback_conversation_key: &str) -> (r:
    AutonomousRouteDisposition)
    ensures
        projected(response, fallback_conversation_key@, r),
{
    if same(response.disposition.as_str(), "ACCEPTED") {
        AutonomousRouteDisposition::Accepted {
            task_id: text_or_empty(response.task_id),
            workflow_run_id: text_or_empty(response.workflow_run_id),
            binding_id: text_or_empty(response.binding_id),
            conversation_key: text_or(response.conversation_key, fallback_conversation_key),
        }
    } else if same(response.disposition.as_str(), "REJECTED") {
        AutonomousRouteDisposition::Rejected {
            error_code: text_or(response.error_code, "AAP_REJECTED"),
            retryable: match response.retryable {
                Some(b) => b,
                None => false,
            },
            detail: response.detail,
        }
    } else {
        let mut error_code = "AAP_UNKNOWN_DISPOSITION:".to_owned();
        error_code.append(response.disposition.as_str());
        AutonomousRouteDisposition::Rejected {
            error_code,
            retryable: false,
            detail: response.detail,
        }
    }
}

/// What a missing answer means for the turn.
pub fn project_error(err: AutonomousIngressError) -> (r: AutonomousRouteDisposition)
    ensures
        r matches AutonomousRouteDisposition::Unavailable { error_code, retryable }
            && error_code@ == ingress_code(err) && retryable == worth_retrying(err),
{
    AutonomousRouteDisposition::Unavailable {
        error_code: err.code().to_owned(),
        retryable: err.retryable(),
    }
}

/// Once the scheduler has been asked, the turn never falls through into the
/// conversation: every answer is an acceptance or a refusal, and only the word
/// for it is an acceptance.
pub proof fn law_asked_turn_is_consumed(
    a: AutonomousIngressResponse,
    fallback: Seq<char>,
    d: AutonomousRouteDisposition,
)
    requires
        projected(a, fallback, d),
    ensures
        d is Accepted || d is Rejected,
        d is Accepted <==> a.disposition@ == "ACCEPTED"@,
{
}

/// A turn that goes to the scheduler is routed there by configuration: without
/// it, or for another agent, no sender can bring that about.
pub proof fn law_routing_is_by_configuration(
    config: Option<&AutonomousIngressConfig>,
    agent: Seq<char>,
    authorized: bool,
)
    requires
        routed(config, agent, authorized),
    ensures
        config matches Some(c) && c.aap_agents.deep_view().contains(agent),
        routed(config, agent, true),
{
}

/// A turn that is to go to the scheduler, as it is logged.
pub fn build_candidate(agent: &str, conversation: &ChannelRef, message_id: &str) -> (r:
    AutonomousIngressCandidate)
    ensures
        r.source@ == "discord"@,
        r.agent@ == agent@,
        r.conversation_key@ == conversation@.session_pool_key(),
        r.message_id@ == message_id@,
        r.routing_contract@ == "config_autonomous_ingress"@,
{
    AutonomousIngressCandidate {
        source: "discord",
        agent: agent.to_owned(),
        conversation_key: conversation.session_pool_key(),
        message_id: message_id.to_owned(),
        routing_contract: "config_autonomous_ingress",
    }
}

/// A value of a log line.
#[derive(Debug, PartialEq, Eq)]
pub enum LogValue {
    Text(String),
    Flag(bool),
}

/// What a [`LogValue`] says.
pub enum LogView {
    Text(Seq<char>),
    Flag(bool),
}

/// One field of a log line.
#[derive(Debug, PartialEq, Eq)]
pub struct LogField {
    pub name: &'static str,
    pub value: LogValue,
}

impl DeepView for LogField {
    type V = (Seq<char>, LogView);

    open spec fn deep_view(&self) -> (Seq<char>, LogView) {
        (
            self.name@,
            match self.value {
                LogValue::Text(t) => LogView::Text(t@),
                LogValue::Flag(b) => LogView::Flag(b),
            },
        )
    }
}

fn text_field(name: &'static str, value: &str, out: &mut Vec<LogField>)
    ensures
        final(out).deep_view() == old(out).deep_view().push((name@, LogView::Text(value@))),
{
    let ghost before = out.deep_view();
    let f = LogField { name, value: LogValue::Text(value.to_owned()) };
    out.push(f);
    assert(out.deep_view() =~= before.push((name@, LogView::Text(value@))));
}

fn flag_field(name: &'static str, value: bool, out: &mut Vec<LogField>)
    ensures
        final(out).deep_view() == old(out).deep_view().push((name@, LogView::Flag(value))),
{
    let ghost before = out.deep_view();
    let f = LogField { name, value: LogValue::Flag(value) };
    out.push(f);
    assert(out.deep_view() =~= before.push((name@, LogView::Flag(value))));
}

/// The fields that every line on a turn starts with.
pub open spec fn line_start(event: Seq<char>, c: AutonomousIngressCandidate) -> Seq<
    (Seq<char>, LogView),
> {
    seq![
        ("event"@, LogView::Text(event)),
        ("source"@, LogView::Text(c.source@)),
        ("agent"@, LogView::Text(c.agent@)),
    ]
}

fn start_line(event: &str, c: &AutonomousIngressCandidate) -> (r: Vec<LogField>)
    ensures
        r.deep_view() == line_start(event@, *c),
{
    let mut out: Vec<LogField> = Vec::new();
    assert(out.deep_view() =~= seq![]);
    text_field("event", event, &mut out);
    text_field("source", c.source, &mut out);
    text_field("agent", c.agent.as_str(), &mut out);
    assert(out.deep_view() =~= line_start(event@, *c));
    out
}

/// The line that says that a turn is to go to the scheduler.
pub fn log_candidate(candidate: &AutonomousIngressCandidate) -> (r: Vec<LogField>)
    ensures
        r.deep_view() == line_start("autonomous workflow candidate"@, *candidate).push(
            ("conversation_key"@, LogView::Text(candidate.conversation_key@)),
        ).push(("message_id"@, LogView::Text(candidate.message_id@))).push(
            ("routing_contract"@, LogView::Text(candidate.routing_contract@)),
        ),
{
    let mut out = start_line("autonomous workflow candidate", candidate);
    text_field("conversation_key", candidate.conversation_key.as_str(), &mut out);
    text_field("message_id", candidate.message_id.as_str(), &mut out);
    text_field("routing_contract", candidate.routing_contract, &mut out);
    out
}

/// The line that says that the scheduler accepted a turn; none if it did not.
pub fn log_accepted(
    candidate: &AutonomousIngressCandidate,
    disposition: &AutonomousRouteDisposition,
) -> (r: Option<Vec<LogField>>)
    ensures
        match *disposition {
            AutonomousRouteDisposition::Accepted {
                task_id,
                workflow_run_id,
                binding_id,
                conversation_key,
            } => r matches Some(l) && l.deep_view() == line_start(
                "autonomous workflow accepted by runtime"@,
                *candidate,
            ).push(("task_id"@, LogView::Text(task_id@))).push(
                ("workflow_run_id"@, LogView::Text(workflow_run_id@)),
            ).push(("binding_id"@, LogView::Text(binding_id@))).push(
                ("conversation_key"@, LogView::Text(conversation_key@)),
            ).push(("disposition"@, LogView::Text("ACCEPTED"@))).push(
                ("consumed"@, LogView::Flag(true)),
            ),
            _ => r is None,
        },
{
    match disposition {
        AutonomousRouteDisposition::Accepted {
            task_id,
            workflow_run_id,
            binding_id,
            conversation_key,
        } => {
            let mut out = start_line("autonomous workflow accepted by runtime", candidate);
            text_field("task_id", task_id.as_str(), &mut out);
            text_field("workflow_run_id", workflow_run_id.as_str(), &mut out);
            text_field("binding_id", binding_id.as_str(), &mut out);
            text_field("conversation_key", conversation_key.as_str(), &mut out);
            text_field("disposition", "ACCEPTED", &mut out);
            flag_field("consumed", true, &mut out);
            Some(out)
        },
        _ => None,
    }
}

/// The line that says that a turn failed at the scheduler; none if it did not.
pub fn log_failure(
    candidate: &AutonomousIngressCandidate,
    disposition: &AutonomousRouteDisposition,
) -> (r: Option<Vec<LogField>>)
    ensures
        ({
            let start = line_start("autonomous workflow ingress failed"@, *candidate);
            match *disposition {
                AutonomousRouteDisposition::Rejected { error_code, retryable, detail } => r matches Some(
                    l,
                ) && l.deep_view() == start.push(("error_code"@, LogView::Text(error_code@))).push(
                    ("retryable"@, LogView::Flag(retryable)),
                ).push(("consumed"@, LogView::Flag(true))).push(
                    ("detail"@, LogView::Text(or_empty(detail.deep_view()))),
                ),
                AutonomousRouteDisposition::Unavailable { error_code, retryable } => r matches Some(
                    l,
                ) && l.deep_view() == start.push(("error_code"@, LogView::Text(error_code@))).push(
                    ("retryable"@, LogView::Flag(retryable)),
                ).push(("consumed"@, LogView::Flag(true))),
                _ => r is None,
            }
        }),
{
    match disposition {
        AutonomousRouteDisposition::Rejected { error_code, retryable, detail } => {
            let mut out = start_line("autonomous workflow ingress failed", candidate);
            text_field("error_code", error_code.as_str(), &mut out);
            flag_field("retryable", *retryable, &mut out);
            flag_field("consumed", true, &mut out);
            let shown = text_or_empty(copy_text(detail));
            text_field("detail", shown.as_str(), &mut out);
            Some(out)
        },
        AutonomousRouteDisposition::Unavailable { error_code, retryable } => {
            let mut out = start_line("autonomous workflow ingress failed", candidate);
            text_field("error_code", error_code.as_str(), &mut out);
            flag_field("retryable", *retryable, &mut out);
            flag_field("consumed", true, &mut out);
            Some(out)
        },
        _ => None,
    }
}

/// Asking again may help exactly where the scheduler was not reached, did not
/// answer in time, or failed itself; what it refused it will refuse again.
pub proof fn law_only_passing_faults_are_retried(e: AutonomousIngressError)
    ensures
        e is Unreachable || e is Timeout ==> worth_retrying(e),
        e is AuthMissing || e is Malformed ==> !worth_retrying(e),
        e matches AutonomousIngressError::Http { status, .. } ==> (worth_retrying(e) <==> status
            >= 500),
{
}

/// Every kind of error has a token of its own, and no other kind has it.
pub proof fn law_ingress_tokens_are_told_apart(e: AutonomousIngressError)
    ensures
        e is Unreachable <==> ingress_code(e) == "AAP_UNREACHABLE"@,
        e is Timeout <==> ingress_code(e) == "AAP_TIMEOUT"@,
        e is AuthMissing <==> ingress_code(e) == "AAP_AUTH_MISSING"@,
        e is Http <==> ingress_code(e) == "AAP_HTTP_ERROR"@,
        e is Malformed <==> ingress_code(e) == "AAP_RESPONSE_MALFORMED"@,
{
    reveal_strlit("AAP_UNREACHABLE");
    reveal_strlit("AAP_TIMEOUT");
    reveal_strlit("AAP_AUTH_MISSING");
    reveal_strlit("AAP_HTTP_ERROR");
    reveal_strlit("AAP_RESPONSE_MALFORMED");
    assert("AAP_UNREACHABLE"@.len() == 15);
    assert("AAP_TIMEOUT"@.len() == 11);
    assert("AAP_AUTH_MISSING"@.len() == 16);
    assert("AAP_HTTP_ERROR"@.len() == 14);
    assert("AAP_RESPONSE_MALFORMED"@.len() == 22);
}

/// What is known of an error is told in words: why nothing was reached or what
/// could not be read, and the status of a response before how its body starts.
pub proof fn law_ingress_errors_are_told(e: AutonomousIngressError)
    ensures
        e matches AutonomousIngressError::Unreachable(m) ==> holds(ingress_message(e), m@),
        e matches AutonomousIngressError::Malformed(m) ==> holds(ingress_message(e), m@),
        e matches AutonomousIngressError::Http { status, body_snippet } ==> holds(
            ingress_message(e),
            decimal(status as nat) + ": "@ + body_snippet@,
        ),
{
    match e {
        AutonomousIngressError::Unreachable(m) => {
            lemma_ends_in("AAP unreachable: "@, m@);
        },
        AutonomousIngressError::Malformed(m) => {
            lemma_ends_in("AAP response malformed: "@, m@);
        },
        AutonomousIngressError::Http { status, body_snippet } => {
            lemma_ends_in_parts(
                "AAP HTTP "@,
                decimal(status as nat),
                ": "@,
                body_snippet@,
            );
        },
        _ => {},
    }
}

/// An answer is taken exactly from a response that was accepted and can be
/// read; any other is an error that tells its status and how its body starts.
pub proof fn law_answer_is_from_an_accepted_response(
    status: u16,
    body: Seq<char>,
    decoded: Result<AutonomousIngressResponse, String>,
    r: Result<AutonomousIngressResponse, AutonomousIngressError>,
)
    requires
        answered(status, body, decoded, r),
    ensures
        r is Ok <==> 200 <= status < 300 && decoded is Ok,
        r matches Ok(a) ==> decoded == Ok::<AutonomousIngressResponse, String>(a),
        !(200 <= status < 300) ==> (r matches Err(
            AutonomousIngressError::Http { status: s, body_snippet },
        ) && s == status && body_snippet@.is_prefix_of(body) && (body.len() <= 200 ==> body_snippet@
            == body)),
        200 <= status < 300 && decoded is Err ==> (r matches Err(AutonomousIngressError::Malformed(_))),
{
    law_first_characters_are_a_prefix(body, 200);
}

/// Whoever is authorised is routed for every agent that is configured; where
/// everybody is, so is everybody, and otherwise nobody else.
pub proof fn law_authority_decides_for_configured_agents(
    c: AutonomousIngressConfig,
    agent: Seq<char>,
    authorized: bool,
)
    requires
        c.aap_agents.deep_view().contains(agent),
    ensures
        routed(Some(&c), agent, true),
        c.aap_universal_humans ==> routed(Some(&c), agent, authorized),
        !c.aap_universal_humans ==> (routed(Some(&c), agent, authorized) <==> authorized),
        !routed(None, agent, authorized),
{
}

/// An acceptance carries the work's own ids, and a refusal its own reason.
pub proof fn law_answers_are_carried_over(
    a: AutonomousIngressResponse,
    fallback: Seq<char>,
    d: AutonomousRouteDisposition,
)
    requires
        projected(a, fallback, d),
    ensures
        d matches AutonomousRouteDisposition::Accepted {
            task_id,
            workflow_run_id,
            binding_id,
            conversation_key,
        } ==> {
            &&& a.task_id matches Some(t) ==> task_id@ == t@
            &&& a.workflow_run_id matches Some(t) ==> workflow_run_id@ == t@
            &&& a.binding_id matches Some(t) ==> binding_id@ == t@
            &&& a.conversation_key matches Some(t) ==> conversation_key@ == t@
            &&& a.conversation_key is None ==> conversation_key@ == fallback
        },
        d matches AutonomousRouteDisposition::Rejected { error_code, retryable, detail } ==> {
            &&& detail == a.detail
            &&& a.disposition@ == "REJECTED"@ ==> retryable == (a.retryable == Some(true)) && (
            a.error_code matches Some(c) ==> error_code@ == c@)
            &&& a.disposition@ != "REJECTED"@ ==> !retryable && holds(error_code@, a.disposition@)
        },
{
    let head = "AAP_UNKNOWN_DISPOSITION:"@;
    lemma_holds_between(head, a.disposition@, seq![]);
    assert(head + a.disposition@ + Seq::<char>::empty() =~= head + a.disposition@);
    reveal_strlit("ACCEPTED");
    reveal_strlit("REJECTED");
    assert("ACCEPTED"@[0] == 'A' && "REJECTED"@[0] == 'R');
}

} // verus!
