//! Taking work in, and what an agent is told of it.

use openab_core::adapter::ChannelRef;
use openab_core::admission::render_native_workflow_authority;
use openab_core::admission::AdmissionPortHandle;
use openab_core::admission::DispatchError;
use openab_core::admission::DispatcherAdmissionPort;
use openab_core::admission::NativeScopePolicy;
use openab_core::admission::NativeWorkflowMetadata;
use openab_core::admission::WorkAdmissionError;
use openab_core::admission::WorkAdmissionRequest;

/// The file from which the agent of these tests reads its policy.
const POLICY_FILE: &str = "POLICY.md";

/// What the agent of these tests is called.
const PRODUCT: &str = "Some Product";

fn conversation() -> ChannelRef {
    ChannelRef {
        platform: "native".into(),
        channel_id: "channel-id".into(),
        thread_id: Some("canonical-thread".into()),
        parent_id: None,
        origin_event_id: None,
    }
}

fn request(sender_id: &str) -> WorkAdmissionRequest {
    WorkAdmissionRequest {
        conversation: conversation(),
        sender_id: sender_id.into(),
        native_workflow: None,
        native_execution_session_key: None,
    }
}

fn metadata_for_authority(scope: Option<NativeScopePolicy>, _requested_work: &str) -> NativeWorkflowMetadata {
    NativeWorkflowMetadata {
        dispatch_id: "dispatch-641f".into(),
        conversation_key: "ck-641f".into(),
        workflow_run_id: "wfr-641f".into(),
        task_id: "task-641f".into(),
        role: "PRIMARY".into(),
        agent: "ArthurClaude".into(),
        lease_id: "lease-641f".into(),
        lease_generation: 1,
        expected_revision: 1,
        language: Some("en".into()),
        project_id: None,
        project_root: None,
        native_execution_session_key: None,
        transport: None,
        delivery_destination: None,
        scope_policy: scope,
    }
}

#[test]
fn install_is_one_shot() {
    let mut handle = AdmissionPortHandle::new();
    assert!(handle.install(DispatcherAdmissionPort::new()).is_ok());
    assert!(handle.install(DispatcherAdmissionPort::new()).is_err());
}

#[test]
fn typed_failure_taxonomy_is_transport_neutral() {
    assert_eq!(WorkAdmissionError::NotInstalled.code(), "ADMISSION_NOT_INSTALLED");
    assert_eq!(WorkAdmissionError::InvalidRequest("missing sender").code(), "INVALID_ADMISSION_REQUEST");
    assert_eq!(WorkAdmissionError::DispatchRejected(DispatchError::ConsumerDead).code(), "DISPATCH_REJECTED");
    assert_eq!(WorkAdmissionError::Internal("unexpected").code(), "ADMISSION_INTERNAL_ERROR");
    assert_eq!(
        WorkAdmissionError::NotInstalled.message(""),
        "ADMISSION_NOT_INSTALLED: admission service is not ready"
    );
    assert_eq!(
        WorkAdmissionError::InvalidRequest("missing sender").message(""),
        "INVALID_ADMISSION_REQUEST: missing sender"
    );
    assert_eq!(
        WorkAdmissionError::DispatchRejected(DispatchError::ConsumerDead).message("consumer is gone"),
        "DISPATCH_REJECTED: consumer is gone"
    );
    assert_eq!(
        WorkAdmissionError::Internal("unexpected").message(""),
        "ADMISSION_INTERNAL_ERROR: unexpected"
    );
}

#[test]
fn uninstalled_handle_fails_closed_without_ack() {
    let handle: AdmissionPortHandle<DispatcherAdmissionPort> = AdmissionPortHandle::new();
    assert!(matches!(handle.port(), Err(WorkAdmissionError::NotInstalled)));
}

#[test]
fn installed_handle_preserves_native_conversation_key_and_metadata() {
    let mut handle = AdmissionPortHandle::new();
    assert!(handle.install(DispatcherAdmissionPort::new()).is_ok());
    let mut request = request("native-sender");
    let mut metadata = metadata_for_authority(None, "");
    metadata.dispatch_id = "dispatch-sentinel".into();
    metadata.lease_generation = 79;
    request.native_workflow = Some(metadata);
    request.native_execution_session_key = Some("native-dispatch:ArthurCodex:dispatch-sentinel".into());
    let port = handle.port().unwrap();
    let submission = port.admit_work(request, None).unwrap();
    let ack = port.acknowledge(submission, Ok(())).unwrap();
    assert!(ack.accepted);
    assert_eq!(ack.conversation_key, "native:canonical-thread");
    assert_eq!(ack.native_workflow.as_ref().unwrap().dispatch_id, "dispatch-sentinel");
    assert_eq!(ack.native_workflow.as_ref().unwrap().lease_generation, 79);
}

#[test]
fn accepted_ack_is_returned_only_after_submit_accepts() {
    let port = DispatcherAdmissionPort::new();
    let submission = port.admit_work(request("native-sender"), None).unwrap();
    assert_eq!(submission.dispatch_key, "native:canonical-thread");
    let ack = port.acknowledge(submission, Ok(())).unwrap();
    assert!(ack.accepted);
    assert_eq!(ack.admission_id, "native:canonical-thread:native-sender");
}

#[test]
fn rejected_submit_returns_typed_error_without_ack() {
    let port = DispatcherAdmissionPort::new();
    let mut calls = Vec::new();
    let result = port.admit_work(request("native-sender"), None).and_then(|submission| {
        calls.push(submission.dispatch_key.clone());
        port.acknowledge(submission, Err(DispatchError::ConsumerDead))
    });
    assert!(matches!(
        result,
        Err(WorkAdmissionError::DispatchRejected(DispatchError::ConsumerDead))
    ));
    assert_eq!(calls.len(), 1);
}

#[test]
fn native_metadata_reaches_the_submit_boundary_exactly() {
    let metadata = NativeWorkflowMetadata {
        dispatch_id: "dispatch-test-123".into(),
        conversation_key: "1540183233654952036".into(),
        workflow_run_id: "run-test-456".into(),
        task_id: "task-test-789".into(),
        role: "PRIMARY".into(),
        agent: "ArthurClaude".into(),
        lease_id: "lease-test-123".into(),
        lease_generation: 314,
        expected_revision: 271,
        language: Some("zh-TW".into()),
        project_id: None,
        project_root: None,
        native_execution_session_key: Some("native-dispatch:ArthurClaude:dispatch-test-123".into()),
        transport: Some("OPENAB".into()),
        delivery_destination: None,
        scope_policy: None,
    };
    let mut admission = request("native-sender");
    admission.native_workflow = Some(metadata.clone());
    let submission = DispatcherAdmissionPort::new().admit_work(admission, None).unwrap();
    assert_eq!(submission.ack.native_workflow, Some(metadata.clone()));
    assert_eq!(submission.native_workflow, Some(metadata));
}

#[test]
fn native_execution_session_key_overrides_session_pool_key() {
    let mut admission = request("native-sender");
    admission.native_execution_session_key = Some("native-dispatch:ArthurClaude:dispatch-iso-1".into());
    let submission = DispatcherAdmissionPort::new()
        .admit_work(admission, Some("dispatcher-key".into()))
        .unwrap();
    assert!(submission.ack.accepted);
    assert_eq!(submission.dispatch_key, "native-dispatch:ArthurClaude:dispatch-iso-1");
    assert_eq!(submission.ack.conversation_key, "native:canonical-thread");
}

#[test]
fn empty_native_execution_session_key_falls_back_to_session_pool_key() {
    let port = DispatcherAdmissionPort::new();
    let mut admission = request("native-sender");
    admission.native_execution_session_key = Some(String::new());
    assert_eq!(port.admit_work(admission, None).unwrap().dispatch_key, "native:canonical-thread");
    let named = port.admit_work(request("native-sender"), Some("thread-key".into())).unwrap();
    assert_eq!(named.dispatch_key, "thread-key");
}

#[test]
fn a_request_that_lacks_something_is_refused() {
    let port = DispatcherAdmissionPort::new();
    let mut r = request("");
    assert!(matches!(
        port.admit_work(r, None),
        Err(WorkAdmissionError::InvalidRequest("sender is required"))
    ));
    r = request("s");
    r.conversation.channel_id = String::new();
    assert!(matches!(
        port.admit_work(r, None),
        Err(WorkAdmissionError::InvalidRequest("conversation channel is required"))
    ));
    r = request("");
    r.conversation.platform = String::new();
    assert!(matches!(
        port.admit_work(r, None),
        Err(WorkAdmissionError::InvalidRequest("platform is required"))
    ));
}

#[test]
fn the_whole_authority_block_reads_exactly() {
    let mut m = metadata_for_authority(None, "");
    m.language = None;
    let block = render_native_workflow_authority(&m, POLICY_FILE, PRODUCT);
    let head = "<native_work_authority>\nNATIVE WORK AUTHORITY\n\
        This turn was admitted by AAP Phase-5 fenced execution.\nAuthoritative:\n\
        dispatch_id: dispatch-641f\nworkflow_run_id: wfr-641f\ntask_id: task-641f\nrole: PRIMARY\n\
        agent: ArthurClaude\nlease_id: lease-641f\nlease_generation: 1\nexpected_revision: 1\n\
        language: <none>\nNATIVE SCOPE (structured)\n";
    assert!(block.starts_with(head));
    assert!(block.contains("3. Repository policy — AGENTS.md and POLICY.md.\n4. Persistent"));
    assert!(block.contains("Persistent memory (Some Product auto-memory, prior reports, historical\n"));
    assert!(block.contains("turn.\n\nPRECEDENCE HIERARCHY (binding for this turn)\n"));
    assert!(block.ends_with("ACP end_turn alone is not a workflow verdict.\n</native_work_authority>"));
}

#[test]
fn native_authority_block_states_explicit_precedence_hierarchy() {
    let scope = Some(NativeScopePolicy {
        scope_mode: "BOUNDED".into(),
        write_policy: NativeScopePolicy::MODIFY_ALLOWED.into(),
        historical_context_policy: "ADVISORY_ONLY".into(),
    });
    let metadata = metadata_for_authority(scope, "phase 641f native work A");
    let block = render_native_workflow_authority(&metadata, POLICY_FILE, PRODUCT);
    assert!(block.contains("<native_work_authority>"));
    assert!(block.contains("PRECEDENCE HIERARCHY"));
    assert!(block.contains("Current native work authority and structured native scope"));
    assert!(block.contains("AAP Task snapshot embedded in the WORKFLOW_DISPATCH envelope"));
    assert!(block.contains("Repository policy — AGENTS.md and POLICY.md"));
    assert!(block.contains("Persistent / auto-memory and historical task context — ADVISORY ONLY"));
    assert!(block.contains("redefine the current task or workflow identity"));
    assert!(block.contains("change the AAP Task snapshot's requested_work"));
    assert!(block.contains("override the structured write_policy"));
    assert!(block.contains("execute historical next_action values"));
    assert!(block.contains("the conflicting memory MUST be ignored"));
    assert!(block.contains("workflow_assignment.json"));
    assert!(block.contains("non-authoritative projections"));
}

#[test]
fn native_authority_block_marks_empty_remaining_work_so_history_cannot_reopen_it() {
    let scope = Some(NativeScopePolicy::default());
    let metadata = metadata_for_authority(scope, "phase 641f native work A");
    let block = render_native_workflow_authority(&metadata, POLICY_FILE, PRODUCT);
    assert!(block.contains("reopen historical unfinished work"));
    assert!(block.contains("remaining_work is now empty"));
    assert!(block.contains("historical next_action values"));
}

#[test]
fn read_only_policy_renders_write_directive_for_deterministic_denial() {
    let scope = Some(NativeScopePolicy {
        scope_mode: "BOUNDED".into(),
        write_policy: NativeScopePolicy::READ_ONLY.into(),
        historical_context_policy: "ADVISORY_ONLY".into(),
    });
    let metadata = metadata_for_authority(scope, "phase 641f native work A");
    let block = render_native_workflow_authority(&metadata, POLICY_FILE, PRODUCT);
    assert!(block.contains("NATIVE SCOPE (structured)"));
    assert!(block.contains("write_policy: READ_ONLY"));
    assert!(block.contains("WRITE POLICY DIRECTIVE"));
    assert!(block.contains("Edit, Write,\nNotebookEdit, MultiEdit, apply_patch, or Bash"));
    assert!(block.contains("Deterministic denial is"));
    assert!(block.contains("session/request_permission"));
    let modify_metadata = metadata_for_authority(Some(NativeScopePolicy::default()), "x");
    let modify_block = render_native_workflow_authority(&modify_metadata, POLICY_FILE, PRODUCT);
    assert!(modify_block.contains("write_policy: MODIFY_ALLOWED"));
    assert!(modify_block.contains("Mutation is"));
    assert!(!modify_block.contains("Deterministic denial is"));
}

#[test]
fn unset_scope_policy_renders_backward_compat_sentinel() {
    let metadata = metadata_for_authority(None, "legacy dispatch");
    let block = render_native_workflow_authority(&metadata, POLICY_FILE, PRODUCT);
    assert!(block.contains("scope_mode: <unset — legacy caller>"));
    assert!(block.contains("write_policy: <unset — defaults to MODIFY_ALLOWED"));
    assert!(block.contains("historical_context_policy: <unset — defaults to ADVISORY_ONLY>"));
    assert!(block.contains("The ACP tool-permission gate is NOT active for this"));
}

#[test]
fn native_scope_policy_default_is_modify_allowed() {
    let p = NativeScopePolicy::default();
    assert_eq!(p.scope_mode, "BOUNDED");
    assert_eq!(p.write_policy, NativeScopePolicy::MODIFY_ALLOWED);
    assert_eq!(p.historical_context_policy, "ADVISORY_ONLY");
    assert!(!p.is_read_only());
}

#[test]
fn native_scope_policy_read_only_constant_is_correct() {
    let p = NativeScopePolicy {
        scope_mode: "BOUNDED".into(),
        write_policy: NativeScopePolicy::READ_ONLY.into(),
        historical_context_policy: "ADVISORY_ONLY".into(),
    };
    assert!(p.is_read_only());
    assert_eq!(p.write_policy, "READ_ONLY");
}
