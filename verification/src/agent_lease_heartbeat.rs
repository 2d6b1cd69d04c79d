//! Keeps the lease of native work alive while the work runs.
//!
//! Every tick presents the same dispatch identity to the scheduler, which alone
//! may extend the lease. A tick is best effort: a missed one lets the lease
//! expire on schedule, and never ends the loop.

use crate::admission::MetadataView;
use crate::admission::NativeWorkflowMetadata;
use crate::config::AgentLeaseHeartbeatConfig;
use crate::config::credential;
use crate::retry::backoff_ms;
use crate::retry::doubled;
use crate::text::decimal;
use crate::text::decimal_text;
use crate::text::first_chars;
use crate::text::holds;
use crate::text::law_first_characters_are_a_prefix;
use crate::text::lemma_ends_in;
use crate::text::lemma_ends_in_parts;
use crate::text::lemma_holds_between;
use crate::text::same;
use crate::text::take_chars;
use crate::text::trim_end_slashes;
use crate::text::without_trailing_slashes;
use vstd::prelude::*;
use vstd::string::*;

verus! {

/// A heartbeat configuration with its credential.
#[derive(Debug, PartialEq, Eq)]
pub struct ResolvedHeartbeatConfig {
    pub aap_runtime_url: String,
    pub bearer_token: String,
    pub heartbeat_interval_seconds: u64,
    pub request_timeout_seconds: u64,
    pub retry_max: u32,
    pub retry_backoff_ms: u64,
    pub ttl_seconds: Option<u64>,
}

/// What a [`ResolvedHeartbeatConfig`] says.
#[verifier::ext_equal]
pub struct ResolvedView {
    pub aap_runtime_url: Seq<char>,
    pub bearer_token: Seq<char>,
    pub heartbeat_interval_seconds: u64,
    pub request_timeout_seconds: u64,
    pub retry_max: u32,
    pub retry_backoff_ms: u64,
    pub ttl_seconds: Option<u64>,
}

impl View for ResolvedHeartbeatConfig {
    type V = ResolvedView;

    open spec fn view(&self) -> ResolvedView {
        ResolvedView {
            aap_runtime_url: self.aap_runtime_url@,
            bearer_token: self.bearer_token@,
            heartbeat_interval_seconds: self.heartbeat_interval_seconds,
            request_timeout_seconds: self.request_timeout_seconds,
            retry_max: self.retry_max,
            retry_backoff_ms: self.retry_backoff_ms,
            ttl_seconds: self.ttl_seconds,
        }
    }
}

impl ResolvedView {
    /// Where heartbeats go.
    pub open spec fn heartbeat_url(self) -> Seq<char> {
        without_trailing_slashes(self.aap_runtime_url)
            + "/v1/integrations/openab/agent/heartbeat"@
    }
}

impl ResolvedHeartbeatConfig {
    /// Where heartbeats go.
    pub fn heartbeat_url(&self) -> (r: String)
        ensures
            r@ == self@.heartbeat_url(),
    {
        let mut u = trim_end_slashes(self.aap_runtime_url.as_str()).to_owned();
        u.append("/v1/integrations/openab/agent/heartbeat");
        u
    }

    /// Whether heartbeats can be sent: only with a credential.
    pub fn is_enabled(&self) -> (r: bool)
        ensures
            r == (self@.bearer_token.len() > 0),
    {
        !self.bearer_token.as_str().is_empty()
    }

    /// The configuration with its credential, given what the variable that it
    /// names holds; none without a credential.
    pub fn resolve(parsed: &AgentLeaseHeartbeatConfig, value: Option<String>) -> (r: Option<Self>)
        ensures
            match credential(value.deep_view()) {
                Some(token) => r matches Some(c) && c@ == (ResolvedView {
                    aap_runtime_url: parsed.aap_runtime_url@,
                    bearer_token: token,
                    heartbeat_interval_seconds: parsed.heartbeat_interval_seconds,
                    request_timeout_seconds: parsed.request_timeout_seconds,
                    retry_max: parsed.retry_max,
                    retry_backoff_ms: parsed.retry_backoff_ms,
                    ttl_seconds: parsed.ttl_seconds,
                }),
                None => r is None,
            },
    {
        match parsed.resolve_credential(value) {
            Some(bearer_token) => Some(
                ResolvedHeartbeatConfig {
                    aap_runtime_url: parsed.aap_runtime_url.clone(),
                    bearer_token,
                    heartbeat_interval_seconds: parsed.heartbeat_interval_seconds,
                    request_timeout_seconds: parsed.request_timeout_seconds,
                    retry_max: parsed.retry_max,
                    retry_backoff_ms: parsed.retry_backoff_ms,
                    ttl_seconds: parsed.ttl_seconds,
                },
            ),
            None => None,
        }
    }
}

impl Default for ResolvedHeartbeatConfig {
    fn default() -> (r: Self)
        ensures
            r@ == (ResolvedView {
                aap_runtime_url: "http://127.0.0.1:8000"@,
                bearer_token: seq![],
                heartbeat_interval_seconds: 80,
                request_timeout_seconds: 5,
                retry_max: 3,
                retry_backoff_ms: 250,
                ttl_seconds: None,
            }),
    {
        let r = ResolvedHeartbeatConfig {
            aap_runtime_url: "http://127.0.0.1:8000".to_owned(),
            bearer_token: String::new(),
            heartbeat_interval_seconds: 80,
            request_timeout_seconds: 5,
            retry_max: 3,
            retry_backoff_ms: 250,
            ttl_seconds: None,
        };
        assert(r@.bearer_token =~= seq![]);
        r
    }
}

/// What one heartbeat says.
#[derive(Debug, PartialEq, Eq)]
pub struct AgentLeaseHeartbeatRequest {
    pub workflow_run_id: String,
    pub lease_id: String,
    pub lease_generation: u64,
    pub agent: String,
    pub role: String,
    pub dispatch_id: String,
    pub ttl_seconds: Option<u64>,
}

/// What an [`AgentLeaseHeartbeatRequest`] says.
#[verifier::ext_equal]
pub struct HeartbeatView {
    pub workflow_run_id: Seq<char>,
    pub lease_id: Seq<char>,
    pub lease_generation: u64,
    pub agent: Seq<char>,
    pub role: Seq<char>,
    pub dispatch_id: Seq<char>,
    pub ttl_seconds: Option<u64>,
}

impl View for AgentLeaseHeartbeatRequest {
    type V = HeartbeatView;

    open spec fn view(&self) -> HeartbeatView {
        HeartbeatView {
            workflow_run_id: self.workflow_run_id@,
            lease_id: self.lease_id@,
            lease_generation: self.lease_generation,
            agent: self.agent@,
            role: self.role@,
            dispatch_id: self.dispatch_id@,
            ttl_seconds: self.ttl_seconds,
        }
    }
}

/// The heartbeat of a piece of work.
pub open spec fn heartbeat_of(m: MetadataView, ttl_seconds: Option<u64>) -> HeartbeatView {
    HeartbeatView {
        workflow_run_id: m.workflow_run_id,
        lease_id: m.lease_id,
        lease_generation: m.lease_generation,
        agent: m.agent,
        role: m.role,
        dispatch_id: m.dispatch_id,
        ttl_seconds,
    }
}

/// What the scheduler answers.
#[derive(Debug, PartialEq, Eq)]
pub struct AgentLeaseHeartbeatResponse {
    /// `ACCEPTED` or `REJECTED`.
    pub disposition: String,
    pub reason: String,
    pub lease_id: Option<String>,
    pub generation: Option<u64>,
    pub expires_at: Option<String>,
}

/// Why a heartbeat was not answered.
#[derive(Debug, PartialEq, Eq)]
pub enum AgentLeaseHeartbeatError {
    Unreachable(String),
    Timeout,
    AuthMissing,
    Http { status: u16, body_snippet: String },
    Malformed(String),
}

/// The token of an error.
pub open spec fn heartbeat_code(e: AgentLeaseHeartbeatError) -> Seq<char> {
    match e {
        AgentLeaseHeartbeatError::Unreachable(_) => "HEARTBEAT_UNREACHABLE"@,
        AgentLeaseHeartbeatError::Timeout => "HEARTBEAT_TIMEOUT"@,
        AgentLeaseHeartbeatError::AuthMissing => "HEARTBEAT_AUTH_MISSING"@,
        AgentLeaseHeartbeatError::Http { .. } => "HEARTBEAT_HTTP_ERROR"@,
        AgentLeaseHeartbeatError::Malformed(_) => "HEARTBEAT_RESPONSE_MALFORMED"@,
    }
}

/// An error in words.
pub open spec fn heartbeat_message(e: AgentLeaseHeartbeatError) -> Seq<char> {
    match e {
        AgentLeaseHeartbeatError::Unreachable(m) => "heartbeat unreachable: "@ + m@,
        AgentLeaseHeartbeatError::Timeout => "heartbeat timeout"@,
        AgentLeaseHeartbeatError::AuthMissing => "heartbeat credential missing"@,
        AgentLeaseHeartbeatError::Http { status, body_snippet } => "heartbeat HTTP "@ + decimal(
            status as nat,
        ) + ": "@ + body_snippet@,
        AgentLeaseHeartbeatError::Malformed(m) => "heartbeat response malformed: "@ + m@,
    }
}

impl AgentLeaseHeartbeatError {
    /// The token of the error.
    pub fn code(&self) -> (r: &'static str)
        ensures
            r@ == heartbeat_code(*self),
    {
        match self {
            AgentLeaseHeartbeatError::Unreachable(_) => "HEARTBEAT_UNREACHABLE",
            AgentLeaseHeartbeatError::Timeout => "HEARTBEAT_TIMEOUT",
            AgentLeaseHeartbeatError::AuthMissing => "HEARTBEAT_AUTH_MISSING",
            AgentLeaseHeartbeatError::Http { .. } => "HEARTBEAT_HTTP_ERROR",
            AgentLeaseHeartbeatError::Malformed(_) => "HEARTBEAT_RESPONSE_MALFORMED",
        }
    }

    /// The error in words.
    pub fn message(&self) -> (r: String)
        ensures
            r@ == heartbeat_message(*self),
    {
        match self {
            AgentLeaseHeartbeatError::Unreachable(m) => {
                let mut t = "heartbeat unreachable: ".to_owned();
                t.append(m.as_str());
                t
            },
            AgentLeaseHeartbeatError::Timeout => "heartbeat timeout".to_owned(),
            AgentLeaseHeartbeatError::AuthMissing => "heartbeat credential missing".to_owned(),
            AgentLeaseHeartbeatError::Http { status, body_snippet } => {
                let number = decimal_text(*status as u64);
                let mut t = "heartbeat HTTP ".to_owned();
                t.append(number.as_str());
                t.append(": ");
                t.append(body_snippet.as_str());
                t
            },
            AgentLeaseHeartbeatError::Malformed(m) => {
                let mut t = "heartbeat response malformed: ".to_owned();
                t.append(m.as_str());
                t
            },
        }
    }
}

/// Sends the heartbeats of native work.
#[derive(Debug, PartialEq, Eq)]
pub struct HeartbeatProducer {
    config: ResolvedHeartbeatConfig,
}

/// All that the heartbeat loop of one piece of work needs.
#[derive(Debug, PartialEq, Eq)]
pub struct HeartbeatExecutionContext {
    pub request: AgentLeaseHeartbeatRequest,
    pub url: String,
    pub bearer: String,
    pub cadence_seconds: u64,
    pub timeout_seconds: u64,
    pub retry_max: u32,
    pub retry_backoff_ms: u64,
}

impl HeartbeatProducer {
    /// The configuration.
    pub closed spec fn settings(self) -> ResolvedView {
        self.config@
    }

    pub fn new(config: ResolvedHeartbeatConfig) -> (r: Self)
        ensures
            r.settings() == config@,
    {
        HeartbeatProducer { config }
    }

    /// A producer, if the configuration holds a credential.
    pub fn build_production(config: ResolvedHeartbeatConfig) -> (r: Option<Self>)
        ensures
            config@.bearer_token.len() > 0 ==> (r matches Some(p) && p.settings() == config@),
            config@.bearer_token.len() == 0 ==> r is None,
    {
        if !config.is_enabled() {
            return None;
        }
        Some(HeartbeatProducer::new(config))
    }

    /// The configuration.
    pub fn config(&self) -> (r: &ResolvedHeartbeatConfig)
        ensures
            r@ == self.settings(),
    {
        &self.config
    }

    /// What the heartbeat loop of a piece of work runs on.
    pub fn start(&self, metadata: &NativeWorkflowMetadata) -> (r: HeartbeatExecutionContext)
        ensures
            r.request@ == heartbeat_of(metadata@, self.settings().ttl_seconds),
            r.url@ == self.settings().heartbeat_url(),
            r.bearer@ == self.settings().bearer_token,
            r.cadence_seconds == self.settings().heartbeat_interval_seconds,
            r.timeout_seconds == self.settings().request_timeout_seconds,
            r.retry_max == self.settings().retry_max,
            r.retry_backoff_ms == self.settings().retry_backoff_ms,
    {
        HeartbeatExecutionContext {
            request: AgentLeaseHeartbeatRequest {
                workflow_run_id: metadata.workflow_run_id.clone(),
                lease_id: metadata.lease_id.clone(),
                lease_generation: metadata.lease_generation,
                agent: metadata.agent.clone(),
                role: metadata.role.clone(),
                dispatch_id: metadata.dispatch_id.clone(),
                ttl_seconds: self.config.ttl_seconds,
            },
            url: self.config.heartbeat_url(),
            bearer: self.config.bearer_token.clone(),
            cadence_seconds: self.config.heartbeat_interval_seconds,
            timeout_seconds: self.config.request_timeout_seconds,
            retry_max: self.config.retry_max,
            retry_backoff_ms: self.config.retry_backoff_ms,
        }
    }
}

/// What a tick is in the middle of.
#[derive(Clone, Copy, Debug, PartialEq, Eq, Structural)]
pub enum TickPhase {
    /// Before its first attempt.
    Fresh,
    /// A request is on its way.
    Posting,
    /// Between two attempts.
    Sleeping,
    /// Over.
    Over,
}

/// One tick: a heartbeat with a bounded number of attempts.
pub struct Tick {
    pub retry_max: u32,
    pub retry_backoff_ms: u64,
    /// The attempt at hand, counted from nought.
    pub attempt: u32,
    pub phase: TickPhase,
    pub last_err: Option<AgentLeaseHeartbeatError>,
}

/// What happens to a tick.
pub enum TickEvent {
    /// The tick begins, or the wait between two attempts is over. Tells
    /// whether a stop was signalled meanwhile.
    Ready { stopped: bool },
    /// A stop was signalled, or nobody is left to signal one.
    Stopped,
    /// The stop signal was touched, and no stop is signalled.
    Cleared { stopped: bool },
    /// A response came. What its body decodes to counts only where the status
    /// says that it was accepted.
    Response {
        status: u16,
        body: String,
        decoded: Result<AgentLeaseHeartbeatResponse, String>,
    },
    /// No response came.
    Failed(AgentLeaseHeartbeatError),
}

/// What a tick needs next.
#[derive(Debug, PartialEq, Eq)]
pub enum TickAction {
    /// Send the heartbeat.
    Post,
    /// Wait, and say so when the wait is over or a stop is signalled.
    Sleep { ms: u128 },
    /// The tick is over.
    Done(Result<AgentLeaseHeartbeatResponse, AgentLeaseHeartbeatError>),
}

/// The error of a tick that was stopped: the last one, else that it was
/// stopped.
pub open spec fn stopped_error(
    last: Option<AgentLeaseHeartbeatError>,
    why: Seq<char>,
    e: AgentLeaseHeartbeatError,
) -> bool {
    match last {
        Some(l) => e == l,
        None => e matches AgentLeaseHeartbeatError::Unreachable(m) && m@ == why,
    }
}

/// Whether a response is accepted.
pub open spec fn is_success(status: u16) -> bool {
    200 <= status < 300
}

/// Whether a response rejects the request for good.
pub open spec fn is_client_error(status: u16) -> bool {
    400 <= status < 500
}

/// The error that an unaccepted response is.
pub open spec fn http_error(status: u16, body: Seq<char>, e: AgentLeaseHeartbeatError) -> bool {
    e matches AgentLeaseHeartbeatError::Http { status: s, body_snippet } && s == status
        && body_snippet@ == first_chars(body, 200)
}

impl Tick {
    /// No attempt is beyond the last, and between two there is one more.
    pub open spec fn wf(self) -> bool {
        &&& self.attempt <= self.retry_max
        &&& self.phase is Sleeping ==> self.attempt < self.retry_max && self.last_err is Some
    }

    /// Whether the event fails an attempt that another one follows, after a
    /// wait.
    pub open spec fn waits(self, event: TickEvent) -> bool {
        self.phase is Posting && self.attempt < self.retry_max && match event {
            TickEvent::Response { status, .. } => !is_success(status) && !is_client_error(status),
            TickEvent::Failed(_) => true,
            _ => false,
        }
    }

    /// The tick ends with an error.
    pub open spec fn stops(self, before: Self, why: Seq<char>, a: TickAction) -> bool {
        &&& self.phase is Over
        &&& a matches TickAction::Done(r) && r matches Err(e) && stopped_error(
            before.last_err,
            why,
            e,
        )
    }

    /// The error that a failed attempt left behind.
    pub open spec fn failure(self, a: TickAction) -> Option<AgentLeaseHeartbeatError> {
        match a {
            TickAction::Done(r) => match r {
                Ok(_) => None,
                Err(e) => Some(e),
            },
            _ => self.last_err,
        }
    }

    /// The attempt at hand failed: another one follows after a wait, unless it
    /// was the last.
    pub open spec fn retries(self, before: Self, a: TickAction) -> bool {
        if before.attempt < before.retry_max {
            &&& self.phase is Sleeping
            &&& self.attempt == before.attempt
            &&& a matches TickAction::Sleep { ms } && ms == doubled(
                before.retry_backoff_ms,
                before.attempt as nat,
            )
        } else {
            self.phase is Over && a is Done
        }
    }

    /// How a tick goes on.
    pub open spec fn stepped(self, before: Self, event: TickEvent, a: TickAction) -> bool {
        match (before.phase, event) {
            (TickPhase::Fresh, TickEvent::Ready { stopped }) => if stopped {
                self.stops(before, "stop signalled before retry attempt"@, a)
            } else {
                &&& self.phase is Posting
                &&& self.attempt == before.attempt
                &&& self.last_err == before.last_err
                &&& a is Post
            },
            (TickPhase::Posting, TickEvent::Stopped) => self.stops(
                before,
                "stop signalled mid-request"@,
                a,
            ),
            (TickPhase::Posting, TickEvent::Cleared { stopped }) => {
                let toggled = |e: AgentLeaseHeartbeatError|
                    e matches AgentLeaseHeartbeatError::Unreachable(m) && m@
                        == "stop channel toggled false during attempt"@;
                if before.attempt == before.retry_max {
                    &&& self.phase is Over
                    &&& a matches TickAction::Done(r) && r matches Err(e) && toggled(e)
                } else if stopped {
                    &&& self.phase is Over
                    &&& a matches TickAction::Done(r) && r matches Err(e) && toggled(e)
                } else {
                    &&& self.phase is Posting
                    &&& self.attempt == before.attempt + 1
                    &&& self.last_err matches Some(e) && toggled(e)
                    &&& a is Post
                }
            },
            (TickPhase::Posting, TickEvent::Response { status, body, decoded }) => if is_success(
                status,
            ) {
                &&& self.phase is Over
                &&& match decoded {
                    Ok(r) => a == TickAction::Done(Ok(r)),
                    Err(why) => a matches TickAction::Done(r) && r matches Err(
                        AgentLeaseHeartbeatError::Malformed(m),
                    ) && m@ == "decode response: "@ + why@,
                }
            } else if is_client_error(status) {
                &&& self.phase is Over
                &&& a matches TickAction::Done(r) && r matches Err(e) && http_error(
                    status,
                    body@,
                    e,
                )
            } else {
                &&& self.failure(a) matches Some(e) && http_error(status, body@, e)
                &&& self.retries(before, a)
            },
            (TickPhase::Posting, TickEvent::Failed(e)) => {
                &&& self.failure(a) == Some(e)
                &&& self.retries(before, a)
            },
            (TickPhase::Sleeping, TickEvent::Stopped) => self.stops(
                before,
                "stop signalled during retry backoff"@,
                a,
            ),
            (TickPhase::Sleeping, TickEvent::Ready { stopped }) => self.resumes(
                before,
                stopped,
                a,
            ),
            (TickPhase::Sleeping, TickEvent::Cleared { stopped }) => self.resumes(
                before,
                stopped,
                a,
            ),
            _ => self.stops(before, "exhausted retries without error"@, a),
        }
    }

    /// The next attempt follows, unless a stop was signalled.
    pub open spec fn resumes(self, before: Self, stopped: bool, a: TickAction) -> bool {
        if stopped {
            self.stops(before, "stop signalled before retry attempt"@, a)
        } else {
            &&& self.phase is Posting
            &&& self.attempt == before.attempt + 1
            &&& self.last_err == before.last_err
            &&& a is Post
        }
    }

    /// A tick before its first attempt.
    pub fn new(retry_max: u32, retry_backoff_ms: u64) -> (r: Self)
        ensures
            r.wf(),
            r.retry_max == retry_max,
            r.retry_backoff_ms == retry_backoff_ms,
            r.attempt == 0,
            r.phase is Fresh,
            r.last_err is None,
    {
        Tick {
            retry_max,
            retry_backoff_ms,
            attempt: 0,
            phase: TickPhase::Fresh,
            last_err: None,
        }
    }

    /// Whether the event fails an attempt that another one follows, after a
    /// wait.
    pub fn waits_after(&self, event: &TickEvent) -> (r: bool)
        ensures
            r == self.waits(*event),
    {
        match (self.phase, event) {
            (TickPhase::Posting, TickEvent::Response { status, .. }) => {
                let accepted = 200 <= *status && *status < 300;
                let rejected = 400 <= *status && *status < 500;
                self.attempt < self.retry_max && !accepted && !rejected
            },
            (TickPhase::Posting, TickEvent::Failed(_)) => self.attempt < self.retry_max,
            _ => false,
        }
    }

    fn stop(&mut self, why: &str) -> (r: TickAction)
        requires
            old(self).wf(),
        ensures
            final(self).wf(),
            final(self).retry_max == old(self).retry_max,
            final(self).retry_backoff_ms == old(self).retry_backoff_ms,
            final(self).attempt == old(self).attempt,
            final(self).stops(*old(self), why@, r),
    {
        self.phase = TickPhase::Over;
        let mut last: Option<AgentLeaseHeartbeatError> = None;
        std::mem::swap(&mut last, &mut self.last_err);
        match last {
            Some(e) => TickAction::Done(Err(e)),
            None => TickAction::Done(Err(AgentLeaseHeartbeatError::Unreachable(why.to_owned()))),
        }
    }

    fn retry(&mut self, e: AgentLeaseHeartbeatError) -> (r: TickAction)
        requires
            old(self).wf(),
            old(self).attempt < old(self).retry_max ==> old(self).attempt < 32,
        ensures
            final(self).wf(),
            final(self).retry_max == old(self).retry_max,
            final(self).retry_backoff_ms == old(self).retry_backoff_ms,
            if old(self).attempt < old(self).retry_max {
                &&& final(self).phase is Sleeping
                &&& final(self).attempt == old(self).attempt
                &&& final(self).last_err == Some(e)
                &&& r matches TickAction::Sleep { ms } && ms == doubled(
                    old(self).retry_backoff_ms,
                    old(self).attempt as nat,
                )
            } else {
                &&& final(self).phase is Over
                &&& r == TickAction::Done(Err(e))
            },
    {
        if self.attempt < self.retry_max {
            let ms: u128 = backoff_ms(self.retry_backoff_ms, self.attempt);
            self.last_err = Some(e);
            self.phase = TickPhase::Sleeping;
            TickAction::Sleep { ms }
        } else {
            self.phase = TickPhase::Over;
            TickAction::Done(Err(e))
        }
    }

    fn resume(&mut self, stopped: bool) -> (r: TickAction)
        requires
            old(self).wf(),
            old(self).phase is Sleeping,
        ensures
            final(self).wf(),
            final(self).retry_max == old(self).retry_max,
            final(self).retry_backoff_ms == old(self).retry_backoff_ms,
            final(self).resumes(*old(self), stopped, r),
    {
        if stopped {
            return self.stop("stop signalled before retry attempt");
        }
        self.attempt = self.attempt + 1;
        self.phase = TickPhase::Posting;
        TickAction::Post
    }

    /// Takes what happened, and says what the tick needs next. A wait doubles
    /// with every attempt, and can be doubled so often only.
    pub fn step(&mut self, event: TickEvent) -> (r: TickAction)
        requires
            old(self).wf(),
            old(self).waits(event) ==> old(self).attempt < 32,
        ensures
            final(self).wf(),
            final(self).retry_max == old(self).retry_max,
            final(self).retry_backoff_ms == old(self).retry_backoff_ms,
            final(self).stepped(*old(self), event, r),
    {
        match (self.phase, event) {
            (TickPhase::Fresh, TickEvent::Ready { stopped }) => {
                if stopped {
                    return self.stop("stop signalled before retry attempt");
                }
                self.phase = TickPhase::Posting;
                TickAction::Post
            },
            (TickPhase::Posting, TickEvent::Stopped) => self.stop("stop signalled mid-request"),
            (TickPhase::Posting, TickEvent::Cleared { stopped }) => {
                let e = AgentLeaseHeartbeatError::Unreachable(
                    "stop channel toggled false during attempt".to_owned(),
                );
                if self.attempt == self.retry_max || stopped {
                    self.phase = TickPhase::Over;
                    return TickAction::Done(Err(e));
                }
                self.last_err = Some(e);
                self.attempt = self.attempt + 1;
                TickAction::Post
            },
            (TickPhase::Posting, TickEvent::Response { status, body, decoded }) => {
                if 200 <= status && status < 300 {
                    self.phase = TickPhase::Over;
                    return match decoded {
                        Ok(response) => TickAction::Done(Ok(response)),
                        Err(why) => {
                            let mut m = "decode response: ".to_owned();
                            m.append(why.as_str());
                            TickAction::Done(Err(AgentLeaseHeartbeatError::Malformed(m)))
                        },
                    };
                }
                let e = AgentLeaseHeartbeatError::Http {
                    status,
                    body_snippet: take_chars(body.as_str(), 200).to_owned(),
                };
                if 400 <= status && status < 500 {
                    self.phase = TickPhase::Over;
                    return TickAction::Done(Err(e));
                }
                self.retry(e)
            },
            (TickPhase::Posting, TickEvent::Failed(e)) => self.retry(e),
            (TickPhase::Sleeping, TickEvent::Stopped) => self.stop(
                "stop signalled during retry backoff",
            ),
            (TickPhase::Sleeping, TickEvent::Ready { stopped }) => self.resume(stopped),
            (TickPhase::Sleeping, TickEvent::Cleared { stopped }) => self.resume(stopped),
            _ => self.stop("exhausted retries without error"),
        }
    }
}

/// A stop ends a tick at once, whatever it is in the middle of: nothing is
/// sent any more, and nothing is waited for.
pub proof fn law_stop_ends_a_tick(before: Tick, after: Tick, a: TickAction)
    requires
        after.stepped(before, TickEvent::Stopped, a),
    ensures
        after.phase is Over,
        a is Done,
{
}

/// No tick makes more attempts than its budget: each new request is one
/// attempt further on, and the attempts are bounded.
pub proof fn law_attempts_are_bounded(before: Tick, event: TickEvent, after: Tick, a: TickAction)
    requires
        before.wf(),
        after.wf(),
        after.retry_max == before.retry_max,
        after.stepped(before, event, a),
        a is Post,
    ensures
        before.phase is Fresh || after.attempt == before.attempt + 1,
        after.attempt <= before.retry_max,
{
}

/// A run of a tick: its states, and what happened and was done between them.
pub open spec fn is_run(
    states: Seq<Tick>,
    events: Seq<TickEvent>,
    actions: Seq<TickAction>,
) -> bool {
    &&& states.len() == events.len() + 1
    &&& actions.len() == events.len()
    &&& states[0].phase is Fresh && states[0].attempt == 0
    &&& forall|i: int| 0 <= i < states.len() ==> (#[trigger] states[i]).wf() && states[i].retry_max
        == states[0].retry_max
    &&& forall|i: int|
        0 <= i < events.len() ==> states[i + 1].stepped(states[i], #[trigger] events[i], actions[i])
}

/// How many requests were sent.
pub open spec fn requests(actions: Seq<TickAction>) -> nat
    decreases actions.len(),
{
    if actions.len() == 0 {
        0
    } else {
        requests(actions.drop_last()) + if actions.last() is Post {
            1nat
        } else {
            0
        }
    }
}

/// Whatever happens to a tick, it sends no more requests than its retries and
/// one.
pub proof fn law_requests_are_bounded(
    states: Seq<Tick>,
    events: Seq<TickEvent>,
    actions: Seq<TickAction>,
)
    requires
        is_run(states, events, actions),
    ensures
        requests(actions) <= states[0].retry_max + 1,
{
    lemma_requests_so_far(states, events, actions, events.len() as int);
    assert(actions.take(actions.len() as int) =~= actions);
}

proof fn lemma_requests_so_far(
    states: Seq<Tick>,
    events: Seq<TickEvent>,
    actions: Seq<TickAction>,
    n: int,
)
    requires
        is_run(states, events, actions),
        0 <= n <= events.len(),
    ensures
        requests(actions.take(n)) <= (match states[n].phase {
            TickPhase::Fresh => 0,
            TickPhase::Over => states[0].retry_max + 1,
            _ => states[n].attempt + 1,
        }),
    decreases n,
{
    if n > 0 {
        lemma_requests_so_far(states, events, actions, n - 1);
        assert(actions.take(n).drop_last() =~= actions.take(n - 1));
        assert(actions.take(n).last() == actions[n - 1]);
        assert(states[n].stepped(states[n - 1], events[n - 1], actions[n - 1]));
        assert(states[n].wf() && states[n - 1].wf());
    }
}

/// A request that the scheduler rejects is not repeated.
pub proof fn law_rejection_is_not_retried(
    before: Tick,
    status: u16,
    body: String,
    decoded: Result<AgentLeaseHeartbeatResponse, String>,
    after: Tick,
    a: TickAction,
)
    requires
        is_client_error(status),
        before.phase is Posting,
        after.stepped(before, TickEvent::Response { status, body, decoded }, a),
    ensures
        a matches TickAction::Done(r) && r is Err,
{
}

/// What wakes the loop while it waits for its next tick.
#[derive(Clone, Copy, Debug, PartialEq, Eq, Structural)]
pub enum WaitEvent {
    /// It is time.
    Elapsed,
    /// The stop signal was touched.
    SignalChanged,
    /// Nobody is left to signal a stop.
    SignalDropped,
}

/// What the loop does next.
#[derive(Debug, PartialEq, Eq)]
pub enum LoopAction {
    /// A tick.
    Fire,
    /// Say that the scheduler accepted, and until when the lease runs; wait.
    ReportAccepted { expires_at: String },
    /// Say that the scheduler rejected, and why; wait.
    ReportRejected { reason: String },
    /// Say that no answer came, and why; wait.
    ReportFailed { code: &'static str, error: String },
    /// Nothing more.
    Exit,
}

/// What the loop does after a wait, given whether a stop is signalled. The
/// first wait is no wait: it is time at once.
pub fn after_wait(event: WaitEvent, stopped: bool) -> (r: LoopAction)
    ensures
        r == (if stopped || event is SignalDropped {
            LoopAction::Exit
        } else {
            LoopAction::Fire
        }),
{
    match event {
        WaitEvent::SignalDropped => LoopAction::Exit,
        _ => {
            if stopped {
                LoopAction::Exit
            } else {
                LoopAction::Fire
            }
        },
    }
}

/// What the loop does after a tick, given whether a stop is signalled.
pub open spec fn reported(
    outcome: Result<AgentLeaseHeartbeatResponse, AgentLeaseHeartbeatError>,
    stopped: bool,
    a: LoopAction,
) -> bool {
    if stopped {
        a is Exit
    } else {
        match outcome {
            Ok(r) => if r.disposition@ == "REJECTED"@ {
                a matches LoopAction::ReportRejected { reason } && reason@ == r.reason@
            } else {
                a matches LoopAction::ReportAccepted { expires_at } && expires_at@ == (
                match r.expires_at {
                    Some(t) => t@,
                    None => ""@,
                })
            },
            Err(e) => a matches LoopAction::ReportFailed { code, error } && code@
                == heartbeat_code(e) && error@ == heartbeat_message(e),
        }
    }
}

/// What the loop does after a tick. Whatever came of the tick, only a stop
/// ends the loop.
pub fn after_tick(
    outcome: Result<AgentLeaseHeartbeatResponse, AgentLeaseHeartbeatError>,
    stopped: bool,
) -> (r: LoopAction)
    ensures
        reported(outcome, stopped, r),
        r is Exit <==> stopped,
{
    if stopped {
        return LoopAction::Exit;
    }
    match outcome {
        Ok(response) => {
            if same(response.disposition.as_str(), "REJECTED") {
                LoopAction::ReportRejected { reason: response.reason }
            } else {
                LoopAction::ReportAccepted {
                    expires_at: match response.expires_at {
                        Some(t) => t,
                        None => "".to_owned(),
                    },
                }
            }
        },
        Err(e) => LoopAction::ReportFailed { code: e.code(), error: e.message() },
    }
}

/// A heartbeat presents the identity of its work, and of no other: two
/// heartbeats are the same only where the work, the lease and its generation
/// are.
pub proof fn law_heartbeat_presents_its_work(
    m: MetadataView,
    n: MetadataView,
    ttl_seconds: Option<u64>,
)
    ensures
        ({
            let h = heartbeat_of(m, ttl_seconds);
            &&& h.workflow_run_id == m.workflow_run_id && h.dispatch_id == m.dispatch_id
            &&& h.lease_id == m.lease_id && h.lease_generation == m.lease_generation
            &&& h.agent == m.agent && h.role == m.role && h.ttl_seconds == ttl_seconds
        }),
        heartbeat_of(m, ttl_seconds) == heartbeat_of(n, ttl_seconds) ==> m.lease_id == n.lease_id
            && m.lease_generation == n.lease_generation && m.dispatch_id == n.dispatch_id,
{
}

/// Slashes at the end of the address change nothing of where heartbeats go.
pub proof fn law_address_may_end_in_slashes(c: ResolvedView, d: ResolvedView)
    requires
        d.aap_runtime_url == c.aap_runtime_url.push('/'),
    ensures
        c.heartbeat_url() == d.heartbeat_url(),
        holds(c.heartbeat_url(), "/v1/integrations/openab/agent/heartbeat"@),
        (c.aap_runtime_url.len() == 0 || c.aap_runtime_url.last() != '/') ==> c.heartbeat_url()
            == c.aap_runtime_url + "/v1/integrations/openab/agent/heartbeat"@,
{
    assert(d.aap_runtime_url.drop_last() =~= c.aap_runtime_url);
    let base = without_trailing_slashes(c.aap_runtime_url);
    let path = "/v1/integrations/openab/agent/heartbeat"@;
    lemma_holds_between(base, path, seq![]);
    assert(base + path + Seq::<char>::empty() =~= base + path);
}

/// Every kind of error has a token of its own, and no other kind has it.
pub proof fn law_heartbeat_tokens_are_told_apart(e: AgentLeaseHeartbeatError)
    ensures
        e is Unreachable <==> heartbeat_code(e) == "HEARTBEAT_UNREACHABLE"@,
        e is Timeout <==> heartbeat_code(e) == "HEARTBEAT_TIMEOUT"@,
        e is AuthMissing <==> heartbeat_code(e) == "HEARTBEAT_AUTH_MISSING"@,
        e is Http <==> heartbeat_code(e) == "HEARTBEAT_HTTP_ERROR"@,
        e is Malformed <==> heartbeat_code(e) == "HEARTBEAT_RESPONSE_MALFORMED"@,
{
    reveal_strlit("HEARTBEAT_UNREACHABLE");
    reveal_strlit("HEARTBEAT_TIMEOUT");
    reveal_strlit("HEARTBEAT_AUTH_MISSING");
    reveal_strlit("HEARTBEAT_HTTP_ERROR");
    reveal_strlit("HEARTBEAT_RESPONSE_MALFORMED");
    assert("HEARTBEAT_UNREACHABLE"@.len() == 21);
    assert("HEARTBEAT_TIMEOUT"@.len() == 17);
    assert("HEARTBEAT_AUTH_MISSING"@.len() == 22);
    assert("HEARTBEAT_HTTP_ERROR"@.len() == 20);
    assert("HEARTBEAT_RESPONSE_MALFORMED"@.len() == 28);
}

/// What is known of an error is told in words: why nothing was reached or what
/// could not be read, and the status of a response before how its body starts.
pub proof fn law_heartbeat_errors_are_told(e: AgentLeaseHeartbeatError)
    ensures
        e matches AgentLeaseHeartbeatError::Unreachable(m) ==> holds(heartbeat_message(e), m@),
        e matches AgentLeaseHeartbeatError::Malformed(m) ==> holds(heartbeat_message(e), m@),
        e matches AgentLeaseHeartbeatError::Http { status, body_snippet } ==> holds(
            heartbeat_message(e),
            decimal(status as nat) + ": "@ + body_snippet@,
        ),
{
    match e {
        AgentLeaseHeartbeatError::Unreachable(m) => {
            lemma_ends_in("heartbeat unreachable: "@, m@);
        },
        AgentLeaseHeartbeatError::Malformed(m) => {
            lemma_ends_in("heartbeat response malformed: "@, m@);
        },
        AgentLeaseHeartbeatError::Http { status, body_snippet } => {
            lemma_ends_in_parts(
                "heartbeat HTTP "@,
                decimal(status as nat),
                ": "@,
                body_snippet@,
            );
        },
        _ => {},
    }
}

/// A tick starts with a request, unless a stop was signalled.
pub proof fn law_tick_starts_with_a_request(before: Tick, after: Tick, a: TickAction, stopped: bool)
    requires
        before.phase is Fresh,
        after.stepped(before, TickEvent::Ready { stopped }, a),
    ensures
        !stopped ==> a is Post && after.phase is Posting && after.attempt == before.attempt,
        stopped ==> after.phase is Over && (a matches TickAction::Done(r) && r is Err),
{
}

/// An accepted response ends a tick with what it says.
pub proof fn law_accepted_response_ends_a_tick(
    before: Tick,
    after: Tick,
    a: TickAction,
    status: u16,
    body: String,
    answer: AgentLeaseHeartbeatResponse,
)
    requires
        before.phase is Posting,
        200 <= status < 300,
        after.stepped(before, TickEvent::Response { status, body, decoded: Ok(answer) }, a),
    ensures
        a == TickAction::Done(Ok(answer)),
        after.phase is Over,
{
}

/// An attempt that fails while others are left is followed by a wait, which is
/// the base doubled for every attempt before; and the wait by the next attempt.
pub proof fn law_failed_attempt_is_repeated(
    before: Tick,
    between: Tick,
    after: Tick,
    wait: TickAction,
    next: TickAction,
    e: AgentLeaseHeartbeatError,
)
    requires
        before.phase is Posting,
        before.attempt < before.retry_max,
        between.stepped(before, TickEvent::Failed(e), wait),
        after.stepped(between, TickEvent::Ready { stopped: false }, next),
    ensures
        wait matches TickAction::Sleep { ms } && ms == before.retry_backoff_ms
            * vstd::arithmetic::power2::pow2(before.attempt as nat),
        between.last_err == Some(e),
        next is Post,
        after.attempt == before.attempt + 1,
{
}

/// The last attempt that fails ends a tick with its own error.
pub proof fn law_last_failure_is_told(
    before: Tick,
    after: Tick,
    a: TickAction,
    e: AgentLeaseHeartbeatError,
)
    requires
        before.phase is Posting,
        before.attempt == before.retry_max,
        after.stepped(before, TickEvent::Failed(e), a),
    ensures
        a == TickAction::Done(Err(e)),
        after.phase is Over,
{
}

/// A response that is neither accepted nor rejected counts as a failure, which
/// tells its status and how its body starts; it is waited after where attempts
/// are left.
pub proof fn law_server_errors_are_repeated(
    before: Tick,
    after: Tick,
    a: TickAction,
    status: u16,
    body: String,
    decoded: Result<AgentLeaseHeartbeatResponse, String>,
)
    requires
        before.phase is Posting,
        status >= 500 || status < 200 || 300 <= status < 400,
        after.stepped(before, TickEvent::Response { status, body, decoded }, a),
    ensures
        before.attempt < before.retry_max ==> a is Sleep && before.waits(
            TickEvent::Response { status, body, decoded },
        ),
        before.attempt >= before.retry_max ==> a is Done,
        after.failure(a) matches Some(AgentLeaseHeartbeatError::Http { status: s, body_snippet }) && s
            == status && body_snippet@.is_prefix_of(body@) && (body@.len() <= 200 ==> body_snippet@
            == body@),
{
    law_first_characters_are_a_prefix(body@, 200);
}

/// The loop says what the scheduler answered: a rejection with its reason, an
/// acceptance with when the lease runs out, and a failure with its token and
/// its words.
pub proof fn law_answers_are_reported(
    outcome: Result<AgentLeaseHeartbeatResponse, AgentLeaseHeartbeatError>,
    a: LoopAction,
)
    requires
        reported(outcome, false, a),
    ensures
        match outcome {
            Ok(r) => {
                &&& r.disposition@ == "REJECTED"@ ==> (a matches LoopAction::ReportRejected { reason }
                    && reason@ == r.reason@)
                &&& r.disposition@ == "ACCEPTED"@ ==> (a matches LoopAction::ReportAccepted {
                    expires_at,
                } && (r.expires_at matches Some(t) ==> expires_at@ == t@))
            },
            Err(e) => a matches LoopAction::ReportFailed { code, error } && code@ == heartbeat_code(e)
                && error@ == heartbeat_message(e),
        },
{
    reveal_strlit("REJECTED");
    reveal_strlit("ACCEPTED");
    assert("REJECTED"@[0] == 'R' && "ACCEPTED"@[0] == 'A');
}

/// A tick sleeps exactly after the events that it says it waits after.
pub proof fn law_tick_sleeps_where_it_waits(before: Tick, event: TickEvent, after: Tick, a: TickAction)
    requires
        before.phase is Posting,
        event is Response || event is Failed,
        after.stepped(before, event, a),
    ensures
        a is Sleep <==> before.waits(event),
        a is Sleep ==> before.attempt < before.retry_max,
{
}

} // verus!
