//! Decides at start whether heartbeats are sent, and with what.
//!
//! Where the scheduler may hand out native work, starting without heartbeats is
//! refused. Address and credential come from the scheduler's own section only.

use crate::agent_lease_heartbeat::HeartbeatProducer;
use crate::agent_lease_heartbeat::ResolvedHeartbeatConfig;
use crate::agent_lease_heartbeat::ResolvedView;
use crate::config::credential;
use crate::config::AapControlPlaneConfig;
use crate::config::AgentLeaseHeartbeatConfig;
use vstd::prelude::*;

verus! {

/// How long a lease lasts; every cadence is below this.
pub const AAP_LEASE_TTL_SECONDS: u64 = 300;

/// The cadence where none is configured.
pub const DEFAULT_HEARTBEAT_INTERVAL_SECONDS: u64 = 80;

/// How long a request may take where nothing is configured.
pub const DEFAULT_HEARTBEAT_REQUEST_TIMEOUT_SECONDS: u64 = 5;

/// How often an attempt is repeated where nothing is configured.
pub const DEFAULT_HEARTBEAT_RETRY_MAX: u32 = 3;

/// The first wait between two attempts where none is configured.
pub const DEFAULT_HEARTBEAT_RETRY_BACKOFF_MS: u64 = 250;

/// What was decided.
#[derive(Debug, PartialEq, Eq)]
pub enum HeartbeatComposeOutcome {
    /// Native work may arrive, and its leases are kept alive.
    Enabled(HeartbeatProducer),
    /// No native work may arrive.
    Disabled,
}

/// Why starting is refused.
#[derive(Debug, PartialEq, Eq)]
pub enum HeartbeatComposeError {
    /// The variable that should hold the credential is unset or empty.
    CredentialMissing { credential_env: String },
    /// The cadence does not beat the lease.
    CadenceTooLong { cadence_seconds: u64, ttl_seconds: u64 },
    /// No producer, though everything was there.
    ProducerBuildFailed,
}

/// Whether native work may arrive.
pub open spec fn native_work_enabled(c: Option<&AapControlPlaneConfig>) -> bool {
    c matches Some(a) && a.enabled
}

/// Whether native work may arrive: only where the scheduler's section is there
/// and enabled.
pub fn native_work_enabled_for(aap_control_plane: Option<&AapControlPlaneConfig>) -> (r: bool)
    ensures
        r == native_work_enabled(aap_control_plane),
{
    match aap_control_plane {
        Some(c) => c.enabled,
        None => false,
    }
}

/// The cadence that is asked for.
pub open spec fn cadence(o: Option<&AgentLeaseHeartbeatConfig>) -> u64 {
    match o {
        Some(h) => h.heartbeat_interval_seconds,
        None => DEFAULT_HEARTBEAT_INTERVAL_SECONDS,
    }
}

/// The configuration that is used: the override says how often and how
/// patiently, and nothing else.
pub open spec fn composed(
    a: AapControlPlaneConfig,
    o: Option<&AgentLeaseHeartbeatConfig>,
    token: Seq<char>,
) -> ResolvedView {
    ResolvedView {
        aap_runtime_url: a.aap_runtime_url@,
        bearer_token: token,
        heartbeat_interval_seconds: cadence(o),
        request_timeout_seconds: match o {
            Some(h) => h.request_timeout_seconds,
            None => DEFAULT_HEARTBEAT_REQUEST_TIMEOUT_SECONDS,
        },
        retry_max: match o {
            Some(h) => h.retry_max,
            None => DEFAULT_HEARTBEAT_RETRY_MAX,
        },
        retry_backoff_ms: match o {
            Some(h) => h.retry_backoff_ms,
            None => DEFAULT_HEARTBEAT_RETRY_BACKOFF_MS,
        },
        ttl_seconds: match o {
            Some(h) => h.ttl_seconds,
            None => None,
        },
    }
}

/// Whether a composition is the right one.
pub open spec fn composes(
    aap: Option<&AapControlPlaneConfig>,
    o: Option<&AgentLeaseHeartbeatConfig>,
    value: Option<Seq<char>>,
    r: Result<HeartbeatComposeOutcome, HeartbeatComposeError>,
) -> bool {
    if !native_work_enabled(aap) {
        r matches Ok(HeartbeatComposeOutcome::Disabled)
    } else {
        match credential(value) {
            None => r matches Err(HeartbeatComposeError::CredentialMissing { credential_env })
                && credential_env@ == aap->0.aap_credential_env@,
            Some(token) => if cadence(o) >= AAP_LEASE_TTL_SECONDS {
                r matches Err(
                    HeartbeatComposeError::CadenceTooLong { cadence_seconds, ttl_seconds },
                ) && cadence_seconds == cadence(o) && ttl_seconds == AAP_LEASE_TTL_SECONDS
            } else {
                r matches Ok(HeartbeatComposeOutcome::Enabled(p)) && p.settings() == composed(
                    *aap->0,
                    o,
                    token,
                )
            },
        }
    }
}

/// Decides whether heartbeats are sent, and with what. `credential_value` is
/// what the variable holds that the scheduler's section names.
pub fn compose_production_heartbeat(
    aap_control_plane: Option<&AapControlPlaneConfig>,
    heartbeat_override: Option<&AgentLeaseHeartbeatConfig>,
    credential_value: Option<String>,
) -> (r: Result<HeartbeatComposeOutcome, HeartbeatComposeError>)
    ensures
        composes(aap_control_plane, heartbeat_override, credential_value.deep_view(), r),
{
    let aap_cp = match aap_control_plane {
        Some(c) => {
            if !c.enabled {
                return Ok(HeartbeatComposeOutcome::Disabled);
            }
            c
        },
        None => {
            return Ok(HeartbeatComposeOutcome::Disabled);
        },
    };
    let bearer_token = match aap_cp.resolve_credential(credential_value) {
        Some(t) => t,
        None => {
            return Err(
                HeartbeatComposeError::CredentialMissing {
                    credential_env: aap_cp.aap_credential_env.clone(),
                },
            );
        },
    };
    let cadence_seconds: u64 = match heartbeat_override {
        Some(h) => h.heartbeat_interval_seconds,
        None => DEFAULT_HEARTBEAT_INTERVAL_SECONDS,
    };
    if cadence_seconds >= AAP_LEASE_TTL_SECONDS {
        return Err(
            HeartbeatComposeError::CadenceTooLong {
                cadence_seconds,
                ttl_seconds: AAP_LEASE_TTL_SECONDS,
            },
        );
    }
    let resolved = ResolvedHeartbeatConfig {
        aap_runtime_url: aap_cp.aap_runtime_url.clone(),
        bearer_token,
        heartbeat_interval_seconds: cadence_seconds,
        request_timeout_seconds: match heartbeat_override {
            Some(h) => h.request_timeout_seconds,
            None => DEFAULT_HEARTBEAT_REQUEST_TIMEOUT_SECONDS,
        },
        retry_max: match heartbeat_override {
            Some(h) => h.retry_max,
            None => DEFAULT_HEARTBEAT_RETRY_MAX,
        },
        retry_backoff_ms: match heartbeat_override {
            Some(h) => h.retry_backoff_ms,
            None => DEFAULT_HEARTBEAT_RETRY_BACKOFF_MS,
        },
        ttl_seconds: match heartbeat_override {
            Some(h) => h.ttl_seconds,
            None => None,
        },
    };
    match HeartbeatProducer::build_production(resolved) {
        Some(p) => Ok(HeartbeatComposeOutcome::Enabled(p)),
        None => Err(HeartbeatComposeError::ProducerBuildFailed),
    }
}

/// Every cadence that is used beats the lease.
pub proof fn law_cadence_beats_the_lease(
    aap: Option<&AapControlPlaneConfig>,
    o: Option<&AgentLeaseHeartbeatConfig>,
    value: Option<Seq<char>>,
    r: Result<HeartbeatComposeOutcome, HeartbeatComposeError>,
)
    requires
        composes(aap, o, value, r),
        r matches Ok(HeartbeatComposeOutcome::Enabled(p)),
    ensures
        r->Ok_0->Enabled_0.settings().heartbeat_interval_seconds < AAP_LEASE_TTL_SECONDS,
        r->Ok_0->Enabled_0.settings().bearer_token.len() > 0,
{
}

/// Where native work may arrive, starting without heartbeats is refused, never
/// passed over.
pub proof fn law_native_work_fails_closed(
    aap: Option<&AapControlPlaneConfig>,
    o: Option<&AgentLeaseHeartbeatConfig>,
    value: Option<Seq<char>>,
    r: Result<HeartbeatComposeOutcome, HeartbeatComposeError>,
)
    requires
        composes(aap, o, value, r),
    ensures
        (r matches Ok(HeartbeatComposeOutcome::Disabled)) <==> !native_work_enabled(aap),
{
}

/// The override never supplants the address or the credential: two overrides
/// that agree on cadence and patience come to the same configuration.
pub proof fn law_override_has_no_authority(
    a: AapControlPlaneConfig,
    h: AgentLeaseHeartbeatConfig,
    k: AgentLeaseHeartbeatConfig,
    token: Seq<char>,
)
    requires
        h.heartbeat_interval_seconds == k.heartbeat_interval_seconds,
        h.request_timeout_seconds == k.request_timeout_seconds,
        h.retry_max == k.retry_max,
        h.retry_backoff_ms == k.retry_backoff_ms,
        h.ttl_seconds == k.ttl_seconds,
    ensures
        composed(a, Some(&h), token) == composed(a, Some(&k), token),
        composed(a, Some(&h), token).aap_runtime_url == a.aap_runtime_url@,
        composed(a, Some(&h), token).bearer_token == token,
{
}

/// Where everything is in order, heartbeats are sent to the scheduler's own
/// address with the credential that was found, as often and as patiently as the
/// override says, or as is usual where there is none.
pub proof fn law_heartbeats_are_composed(
    a: AapControlPlaneConfig,
    o: Option<&AgentLeaseHeartbeatConfig>,
    token: Seq<char>,
    r: Result<HeartbeatComposeOutcome, HeartbeatComposeError>,
)
    requires
        a.enabled,
        token.len() > 0,
        composes(Some(&a), o, Some(token), r),
    ensures
        o is None ==> r is Ok,
        o matches Some(h) ==> (r is Ok <==> h.heartbeat_interval_seconds < AAP_LEASE_TTL_SECONDS),
        r matches Ok(HeartbeatComposeOutcome::Enabled(p)) ==> {
            let s = p.settings();
            &&& s.aap_runtime_url == a.aap_runtime_url@ && s.bearer_token == token
            &&& match o {
                Some(h) => s.heartbeat_interval_seconds == h.heartbeat_interval_seconds
                    && s.request_timeout_seconds == h.request_timeout_seconds && s.retry_max
                    == h.retry_max && s.retry_backoff_ms == h.retry_backoff_ms && s.ttl_seconds
                    == h.ttl_seconds,
                None => s.heartbeat_interval_seconds == 80 && s.request_timeout_seconds == 5
                    && s.retry_max == 3 && s.retry_backoff_ms == 250 && s.ttl_seconds is None,
            }
        },
        r matches Err(e) ==> e is CadenceTooLong,
{
}

/// Without a credential, starting is refused, and the variable is named that
/// should hold one.
pub proof fn law_missing_credential_is_named(
    a: AapControlPlaneConfig,
    o: Option<&AgentLeaseHeartbeatConfig>,
    value: Option<Seq<char>>,
    r: Result<HeartbeatComposeOutcome, HeartbeatComposeError>,
)
    requires
        a.enabled,
        value is None || value->0.len() == 0,
        composes(Some(&a), o, value, r),
    ensures
        r matches Err(HeartbeatComposeError::CredentialMissing { credential_env }) && credential_env@
            == a.aap_credential_env@,
{
}

} // verus!
