//! Configuration sections, as the program hands them over.

use crate::labels::Labels;
use crate::proto::AgentType;
use crate::text::same;
use vstd::prelude::*;

verus! {

/// The role of this runtime on the control plane.
#[derive(Clone, Copy, Debug, PartialEq, Eq, Structural)]
pub enum CpAgentType {
    Primary,
    Worker,
}

impl CpAgentType {
    /// The role as it is registered.
    pub fn agent_type(self) -> (r: AgentType)
        ensures
            r is Primary <==> self is Primary,
            r is Worker <==> self is Worker,
    {
        match self {
            CpAgentType::Primary => AgentType::Primary,
            CpAgentType::Worker => AgentType::Worker,
        }
    }
}

/// The connection to the control plane.
#[derive(Debug)]
pub struct ControlPlaneConfig {
    pub url: String,
    pub auth_key: String,
    pub namespace: String,
    pub name: String,
    pub agent_type: CpAgentType,
    pub labels: Labels,
    pub max_delegated_sessions: u32,
    pub allow_insecure_transport: bool,
}

/// The credential that a variable holds: none when it is unset or empty.
pub open spec fn credential(value: Option<Seq<char>>) -> Option<Seq<char>> {
    match value {
        Some(v) => if v.len() > 0 {
            Some(v)
        } else {
            None
        },
        None => None,
    }
}

fn present(value: Option<String>) -> (r: Option<String>)
    ensures
        r.deep_view() == credential(value.deep_view()),
{
    match value {
        Some(v) => {
            if v.as_str().is_empty() {
                None
            } else {
                Some(v)
            }
        },
        None => None,
    }
}

/// The scheduler that hands out native work.
#[derive(Debug, PartialEq, Eq)]
pub struct AapControlPlaneConfig {
    pub aap_runtime_url: String,
    /// The variable that holds the credential.
    pub aap_credential_env: String,
    pub enabled: bool,
}

impl AapControlPlaneConfig {
    /// The credential, given what the variable holds.
    pub fn resolve_credential(&self, value: Option<String>) -> (r: Option<String>)
        ensures
            r.deep_view() == credential(value.deep_view()),
    {
        present(value)
    }
}

/// How leases are kept alive.
#[derive(Debug, PartialEq, Eq)]
pub struct AgentLeaseHeartbeatConfig {
    pub aap_runtime_url: String,
    /// The variable that holds the credential.
    pub aap_credential_env: String,
    pub heartbeat_interval_seconds: u64,
    pub request_timeout_seconds: u64,
    pub retry_max: u32,
    pub retry_backoff_ms: u64,
    pub ttl_seconds: Option<u64>,
}

impl AgentLeaseHeartbeatConfig {
    /// The credential, given what the variable holds.
    pub fn resolve_credential(&self, value: Option<String>) -> (r: Option<String>)
        ensures
            r.deep_view() == credential(value.deep_view()),
    {
        present(value)
    }
}

/// Which messages of humans go to the scheduler first.
#[derive(Debug, PartialEq, Eq)]
pub struct AutonomousIngressConfig {
    /// The agents whose messages do.
    pub aap_agents: Vec<String>,
    pub aap_runtime_url: String,
    /// The variable that holds the credential.
    pub aap_credential_env: String,
    pub project_id: String,
    pub request_timeout_seconds: u64,
    /// Whether every human counts as authorised.
    pub aap_universal_humans: bool,
}

impl AutonomousIngressConfig {
    /// The credential, given what the variable holds.
    pub fn resolve_credential(&self, value: Option<String>) -> (r: Option<String>)
        ensures
            r.deep_view() == credential(value.deep_view()),
    {
        present(value)
    }

    /// Whether an agent is declared.
    pub fn declares_agent(&self, agent: &str) -> (r: bool)
        ensures
            r == self.aap_agents.deep_view().contains(agent@),
    {
        let ghost all = self.aap_agents.deep_view();
        let mut i: usize = 0;
        while i < self.aap_agents.len()
            invariant
                i <= self.aap_agents@.len(),
                all == self.aap_agents.deep_view(),
                forall|k: int| 0 <= k < i ==> all[k] != agent@,
            decreases self.aap_agents@.len() - i,
        {
            if same(self.aap_agents[i].as_str(), agent) {
                assert(all[i as int] == agent@);
                return true;
            }
            i += 1;
        }
        false
    }
}

/// A credential is what a variable holds, and only an empty one is none.
pub proof fn law_credential_is_what_is_held(v: Seq<char>)
    ensures
        v.len() > 0 ==> credential(Some(v)) == Some(v),
        v.len() == 0 ==> credential(Some(v)) is None,
        credential(None) is None,
{
}

} // verus!
