//! Reports the end of a turn to the scheduler.
//!
//! The report is an untrusted event: nothing is decided here beyond how often
//! it is sent.

use crate::acp::protocol::TurnResult;
use crate::retry::backoff_ms;
use crate::retry::doubled;
use crate::text::same;
use vstd::prelude::*;
use vstd::string::*;

verus! {

/// How reports are sent.
#[derive(Debug, PartialEq, Eq)]
pub struct CompletionBridgeConfig {
    pub enabled: bool,
    pub url: String,
    pub timeout_ms: u64,
    pub retry_max: u32,
    pub retry_backoff_ms: u64,
    /// Empty: reports are sent without a credential.
    pub bearer_token: String,
    pub agent_identity: String,
    pub project_id: String,
    pub project_root: String,
}

impl Default for CompletionBridgeConfig {
    fn default() -> (r: Self)
        ensures
            !r.enabled,
            r.url@ == Seq::<char>::empty(),
            r.timeout_ms == 5_000,
            r.retry_max == 3,
            r.retry_backoff_ms == 250,
            r.bearer_token@ == Seq::<char>::empty(),
            r.agent_identity@ == Seq::<char>::empty(),
            r.project_id@ == Seq::<char>::empty(),
            r.project_root@ == Seq::<char>::empty(),
    {
        CompletionBridgeConfig {
            enabled: false,
            url: String::new(),
            timeout_ms: 5_000,
            retry_max: 3,
            retry_backoff_ms: 250,
            bearer_token: String::new(),
            agent_identity: String::new(),
            project_id: String::new(),
            project_root: String::new(),
        }
    }
}

/// What a report says.
#[derive(Debug, PartialEq, Eq)]
pub struct CompletionEvent<'a> {
    pub source: &'a str,
    pub agent_identity: &'a str,
    pub session_id: &'a str,
    pub project_id: &'a str,
    pub project_root: &'a str,
    pub raw_assistant_text: &'a str,
    pub channel_id: Option<&'a str>,
    pub thread_id: Option<&'a str>,
    /// The same for every attempt, so that repeats are recognised.
    pub openab_turn_id: &'a str,
    pub timestamp: &'a str,
}

/// What came of a report.
#[derive(Clone, Copy, Debug, PartialEq, Eq, Structural)]
pub enum CompletionOutcome {
    /// It was accepted, or none was due.
    Success,
    /// It was rejected for good.
    Rejected,
    /// No attempt came through.
    Failed,
}

/// What an attempt came to.
#[derive(Clone, Copy, Debug, PartialEq, Eq, Structural)]
pub enum AttemptOutcome {
    /// A response with this status.
    Status(u16),
    /// No response.
    TransportError,
}

/// What the bridge does next.
#[derive(Clone, Copy, Debug, PartialEq, Eq, Structural)]
pub enum BridgeAction {
    /// Send the report, with a credential or without.
    Post { authenticated: bool },
    /// Wait so many milliseconds, then send again.
    Sleep { ms: u128 },
    /// Nothing more.
    Done(CompletionOutcome),
}

/// Reports the ends of turns.
#[derive(Debug, PartialEq, Eq)]
pub struct CompletionBridge {
    pub config: CompletionBridgeConfig,
}

/// What follows an attempt.
pub open spec fn after_attempt(
    c: CompletionBridgeConfig,
    attempt: u32,
    outcome: AttemptOutcome,
) -> BridgeAction {
    match outcome {
        AttemptOutcome::Status(s) if 200 <= s < 300 => BridgeAction::Done(
            CompletionOutcome::Success,
        ),
        AttemptOutcome::Status(s) if 400 <= s < 500 => BridgeAction::Done(
            CompletionOutcome::Rejected,
        ),
        _ => if attempt < c.retry_max {
            BridgeAction::Sleep { ms: doubled(c.retry_backoff_ms, attempt as nat) as u128 }
        } else {
            BridgeAction::Done(CompletionOutcome::Failed)
        },
    }
}

impl CompletionBridge {
    pub fn new(config: CompletionBridgeConfig) -> (r: Self)
        ensures
            r.config == config,
    {
        CompletionBridge { config }
    }

    /// How long a request may take, in milliseconds: never nothing at all.
    pub fn request_timeout_ms(&self) -> (r: u64)
        ensures
            r == (if self.config.timeout_ms == 0 {
                1
            } else {
                self.config.timeout_ms
            }),
    {
        if self.config.timeout_ms == 0 {
            1
        } else {
            self.config.timeout_ms
        }
    }

    /// Whether reports are sent.
    pub fn enabled(&self) -> (r: bool)
        ensures
            r == self.config.enabled,
    {
        self.config.enabled
    }

    /// How a report starts: it is not due where the bridge is disabled or
    /// knows no address.
    pub fn fire(&self) -> (r: BridgeAction)
        ensures
            r == (if self.config.enabled && self.config.url@.len() > 0 {
                BridgeAction::Post { authenticated: self.config.bearer_token@.len() > 0 }
            } else {
                BridgeAction::Done(CompletionOutcome::Success)
            }),
    {
        if !self.config.enabled || self.config.url.as_str().is_empty() {
            return BridgeAction::Done(CompletionOutcome::Success);
        }
        BridgeAction::Post { authenticated: !self.config.bearer_token.as_str().is_empty() }
    }

    /// What follows attempt `attempt`, counted from nought. A wait doubles with
    /// every attempt, and can be doubled so often only.
    pub fn on_attempt(&self, attempt: u32, outcome: AttemptOutcome) -> (r: BridgeAction)
        requires
            after_attempt(self.config, attempt, outcome) is Sleep ==> attempt < 64,
        ensures
            r == after_attempt(self.config, attempt, outcome),
            r matches BridgeAction::Sleep { ms } ==> ms == doubled(
                self.config.retry_backoff_ms,
                attempt as nat,
            ),
    {
        match outcome {
            AttemptOutcome::Status(s) => {
                if 200 <= s && s < 300 {
                    return BridgeAction::Done(CompletionOutcome::Success);
                }
                if 400 <= s && s < 500 {
                    return BridgeAction::Done(CompletionOutcome::Rejected);
                }
            },
            AttemptOutcome::TransportError => {},
        }
        if attempt < self.config.retry_max {
            BridgeAction::Sleep { ms: backoff_ms(self.config.retry_backoff_ms, attempt) }
        } else {
            BridgeAction::Done(CompletionOutcome::Failed)
        }
    }
}

/// The outcomes of a report that is sent until it is over: what the attempts
/// from `attempt` on come to.
pub open spec fn concluded(
    c: CompletionBridgeConfig,
    attempt: u32,
    outcomes: Seq<AttemptOutcome>,
) -> Option<CompletionOutcome>
    decreases outcomes.len(),
{
    if outcomes.len() == 0 {
        None
    } else {
        match after_attempt(c, attempt, outcomes[0]) {
            BridgeAction::Done(r) => Some(r),
            _ => concluded(c, (attempt + 1) as u32, outcomes.skip(1)),
        }
    }
}

/// A report is over after a bounded number of attempts: one, and as many
/// repeats as are allowed.
pub proof fn law_attempts_are_bounded(
    c: CompletionBridgeConfig,
    attempt: u32,
    outcomes: Seq<AttemptOutcome>,
)
    requires
        attempt <= c.retry_max < u32::MAX,
        outcomes.len() + attempt > c.retry_max,
    ensures
        concluded(c, attempt, outcomes) is Some,
    decreases outcomes.len(),
{
    match after_attempt(c, attempt, outcomes[0]) {
        BridgeAction::Done(r) => {},
        _ => {
            law_attempts_are_bounded(c, (attempt + 1) as u32, outcomes.skip(1));
        },
    }
}

/// A rejection is final: it is what the report comes to, whatever attempts
/// might have followed.
pub proof fn law_rejection_is_final(
    c: CompletionBridgeConfig,
    attempt: u32,
    status: u16,
    more: Seq<AttemptOutcome>,
)
    requires
        400 <= status < 500,
    ensures
        concluded(c, attempt, seq![AttemptOutcome::Status(status)] + more) == Some(
            CompletionOutcome::Rejected,
        ),
{
    assert((seq![AttemptOutcome::Status(status)] + more)[0] == AttemptOutcome::Status(status));
}

/// Whether a turn is over for good. Only then is a report due.
pub fn is_terminal_stop_reason(turn_result: &TurnResult) -> (r: bool)
    ensures
        r == (turn_result.stop_reason.deep_view() == Some("end_turn"@)),
{
    match &turn_result.stop_reason {
        Some(s) => same(s.as_str(), "end_turn"),
        None => false,
    }
}

/// Whether an attempt came to nothing that is final.
pub open spec fn came_to_nothing(o: AttemptOutcome) -> bool {
    match o {
        AttemptOutcome::Status(s) => s < 200 || 300 <= s < 400 || s >= 500,
        AttemptOutcome::TransportError => true,
    }
}

/// A report is repeated until it is accepted: whatever attempts came to nothing
/// before, an acceptance within the attempts that are allowed is success.
pub proof fn law_report_is_repeated_until_accepted(
    c: CompletionBridgeConfig,
    attempt: u32,
    failures: Seq<AttemptOutcome>,
    status: u16,
)
    requires
        200 <= status < 300,
        attempt + failures.len() <= c.retry_max,
        forall|i: int| 0 <= i < failures.len() ==> came_to_nothing(#[trigger] failures[i]),
    ensures
        concluded(c, attempt, failures.push(AttemptOutcome::Status(status))) == Some(
            CompletionOutcome::Success,
        ),
    decreases failures.len(),
{
    let all = failures.push(AttemptOutcome::Status(status));
    if failures.len() > 0 {
        assert(all[0] == failures[0]);
        assert(came_to_nothing(failures[0]));
        assert(all.skip(1) =~= failures.skip(1).push(AttemptOutcome::Status(status)));
        assert forall|i: int| 0 <= i < failures.skip(1).len() implies came_to_nothing(
            #[trigger] failures.skip(1)[i],
        ) by {
            assert(failures.skip(1)[i] == failures[i + 1]);
        }
        law_report_is_repeated_until_accepted(
            c,
            (attempt + 1) as u32,
            failures.skip(1),
            status,
        );
    } else {
        assert(all[0] == AttemptOutcome::Status(status));
    }
}

/// A report fails exactly when every attempt that is allowed came to nothing.
pub proof fn law_report_fails_when_all_attempts_do(
    c: CompletionBridgeConfig,
    attempt: u32,
    failures: Seq<AttemptOutcome>,
)
    requires
        attempt <= c.retry_max < u32::MAX,
        forall|i: int| 0 <= i < failures.len() ==> came_to_nothing(#[trigger] failures[i]),
    ensures
        failures.len() + attempt > c.retry_max ==> concluded(c, attempt, failures) == Some(
            CompletionOutcome::Failed,
        ),
        failures.len() + attempt <= c.retry_max ==> concluded(c, attempt, failures) is None,
    decreases failures.len(),
{
    if failures.len() > 0 {
        assert(came_to_nothing(failures[0]));
        if attempt < c.retry_max {
            assert forall|i: int| 0 <= i < failures.skip(1).len() implies came_to_nothing(
                #[trigger] failures.skip(1)[i],
            ) by {
                assert(failures.skip(1)[i] == failures[i + 1]);
            }
            law_report_fails_when_all_attempts_do(c, (attempt + 1) as u32, failures.skip(1));
        }
    }
}

/// Between two attempts the bridge waits the base, doubled for every attempt
/// before.
pub proof fn law_waits_between_attempts(
    c: CompletionBridgeConfig,
    attempt: u32,
    outcome: AttemptOutcome,
)
    requires
        came_to_nothing(outcome),
        attempt < c.retry_max,
        doubled(c.retry_backoff_ms, attempt as nat) <= u128::MAX,
    ensures
        after_attempt(c, attempt, outcome) matches BridgeAction::Sleep { ms } && ms
            == c.retry_backoff_ms * vstd::arithmetic::power2::pow2(attempt as nat),
{
    assert(doubled(c.retry_backoff_ms, attempt as nat) >= 0) by (nonlinear_arith)
        requires
            doubled(c.retry_backoff_ms, attempt as nat) == c.retry_backoff_ms
                * vstd::arithmetic::power2::pow2(attempt as nat),
    ;
}

} // verus!
