//! The values that travel between a runtime and the control plane.

use crate::labels::Labels;
use vstd::prelude::*;

verus! {

/// The control-plane protocol revision that this runtime speaks.
pub const PROTOCOL_VERSION: u32 = 1;

/// The request is not a valid JSON-RPC request.
pub const INVALID_REQUEST: i64 = -32600;

/// The method is not served here.
pub const METHOD_NOT_FOUND: i64 = -32601;

/// The parameters do not fit the method.
pub const INVALID_PARAMS: i64 = -32602;

/// The role of this runtime forbids the request.
pub const POLICY_DENIED: i64 = -32003;

/// No runtime matches the requested target.
pub const NO_TARGET: i64 = -32004;

/// Names one admission of a delegation id, which may be used again.
pub type AdmissionToken = u64;

/// The role under which a runtime registers.
#[derive(Clone, Copy, Debug, PartialEq, Eq, Structural)]
pub enum AgentType {
    Primary,
    Worker,
}

/// How a delegation ended.
#[derive(Clone, Copy, Debug, PartialEq, Eq, Structural)]
pub enum DelegationStatus {
    Completed,
    Failed,
    Timeout,
    Cancelled,
    TargetDisconnected,
}

/// A point in time: seconds since the Unix epoch and nanoseconds after them.
#[derive(Clone, Copy, Debug, PartialEq, Eq, Structural)]
pub struct Timestamp {
    pub secs: i64,
    pub nanos: u32,
}

impl Timestamp {
    /// Nanoseconds since the Unix epoch.
    pub open spec fn total_nanos(self) -> int {
        self.secs * 1_000_000_000 + self.nanos
    }
}

/// A JSON-RPC error.
#[derive(Debug, PartialEq, Eq)]
pub struct ErrorObject {
    pub code: i64,
    pub message: String,
}

/// What an [`ErrorObject`] says.
pub struct ErrorView {
    pub code: i64,
    pub message: Seq<char>,
}

impl View for ErrorObject {
    type V = ErrorView;

    open spec fn view(&self) -> ErrorView {
        ErrorView { code: self.code, message: self.message@ }
    }
}

impl Clone for ErrorObject {
    fn clone(&self) -> (r: Self)
        ensures
            r@ == self@,
    {
        ErrorObject { code: self.code, message: self.message.clone() }
    }
}

/// The answer to an accepted delegation.
#[derive(Debug, PartialEq, Eq)]
pub struct DelegateAck {
    pub delegation_id: String,
    pub admission: AdmissionToken,
    pub assigned_to: String,
}

/// One runtime of the roster.
#[derive(Debug, PartialEq, Eq)]
pub struct AgentSummary {
    pub name: String,
    pub agent_type: AgentType,
    pub instance_id: String,
    pub labels: Labels,
    pub active_sessions: u32,
    pub max_delegated_sessions: u32,
}

/// Which runtime should serve a delegation.
#[derive(Debug, PartialEq, Eq)]
pub struct TargetSelector {
    pub name: Option<String>,
    pub labels: Option<Labels>,
}

/// A request to delegate work.
#[derive(Debug, PartialEq, Eq)]
pub struct DelegateParams {
    pub delegation_id: String,
    pub target: TargetSelector,
    pub prompt: String,
    pub deadline: Timestamp,
    pub parent_delegation_id: Option<String>,
    pub parent_admission: Option<AdmissionToken>,
}

/// A request to cancel one admission of a delegation.
#[derive(Debug, PartialEq, Eq)]
pub struct CancelParams {
    pub delegation_id: String,
    pub admission: AdmissionToken,
    pub reason: String,
}

/// A delegation as it reaches the runtime that serves it.
#[derive(Debug, PartialEq, Eq)]
pub struct DelegateForward {
    pub delegation_id: String,
    pub admission: AdmissionToken,
    pub prompt: String,
    pub deadline: Timestamp,
    pub from: String,
    pub chain: Vec<String>,
}

/// The end of a delegation.
#[derive(Debug, PartialEq, Eq)]
pub struct DelegateResultParams {
    pub delegation_id: String,
    pub admission: AdmissionToken,
    pub status: DelegationStatus,
    pub result: Option<String>,
    pub error: Option<String>,
}

/// What a [`DelegateResultParams`] says.
#[verifier::ext_equal]
pub struct DelegateResultView {
    pub delegation_id: Seq<char>,
    pub admission: AdmissionToken,
    pub status: DelegationStatus,
    pub result: Option<Seq<char>>,
    pub error: Option<Seq<char>>,
}

impl View for DelegateResultParams {
    type V = DelegateResultView;

    open spec fn view(&self) -> DelegateResultView {
        DelegateResultView {
            delegation_id: self.delegation_id@,
            admission: self.admission,
            status: self.status,
            result: self.result.deep_view(),
            error: self.error.deep_view(),
        }
    }
}

/// A copy of an optional string.
pub fn copy_text(t: &Option<String>) -> (r: Option<String>)
    ensures
        r.deep_view() == t.deep_view(),
{
    match t {
        Some(s) => Some(s.clone()),
        None => None,
    }
}

/// What a runtime registers as.
#[derive(Debug, PartialEq, Eq)]
pub struct RegisterParams {
    pub protocol_version: u32,
    pub namespace: String,
    pub name: String,
    pub agent_type: AgentType,
    pub instance_id: String,
    pub labels: Labels,
    pub max_delegated_sessions: u32,
}

/// The answer to a registration.
#[derive(Clone, Copy, Debug, PartialEq, Eq, Structural)]
pub struct RegisterAck {
    pub protocol_version: u32,
    pub heartbeat_interval_secs: u64,
    pub lease_expiry_secs: u64,
    pub effective_max_delegated_sessions: u32,
}

} // verus!
