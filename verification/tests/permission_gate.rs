//! The permission gate: which tools an agent may use under which policy.

use openab_core::acp::connection::build_permission_response;
use openab_core::acp::connection::build_permission_response_with_policy;
use openab_core::acp::connection::pick_best_option;
use openab_core::acp::connection::tool_kind_denied_for_read_only;
use openab_core::acp::connection::tool_title_denied_for_read_only;
use openab_core::acp::connection::WritePolicyGuard;
use openab_core::acp::connection::READ_ONLY_DENY_KINDS;
use openab_core::acp::connection::READ_ONLY_DENY_TOOLS;
use openab_core::acp::connection::WRITE_POLICY_MODIFY_ALLOWED;
use openab_core::acp::connection::WRITE_POLICY_READ_ONLY;
use openab_core::value::Json;

fn cancelled() -> Json {
    Json::object().with("outcome", Json::object().with("outcome", Json::text("cancelled")))
}

fn selected(option_id: &str) -> Json {
    Json::object().with(
        "outcome",
        Json::object()
            .with("outcome", Json::text("selected"))
            .with("optionId", Json::text(option_id)),
    )
}

fn option(kind: &str, option_id: &str) -> Json {
    Json::object().with("kind", Json::text(kind)).with("optionId", Json::text(option_id))
}

fn tool_call(title: &str) -> Json {
    Json::object().with("toolCall", Json::object().with("title", Json::text(title)))
}

fn tool_call_of_kind(title: &str, kind: &str) -> Json {
    Json::object().with(
        "toolCall",
        Json::object().with("title", Json::text(title)).with("kind", Json::text(kind)),
    )
}

#[test]
fn picks_allow_always_over_other_options() {
    let options = vec![
        option("allow_once", "once"),
        option("allow_always", "always"),
        option("reject_once", "reject"),
    ];
    assert_eq!(pick_best_option(&options), Some("always".to_string()));
}

#[test]
fn falls_back_to_first_unknown_non_reject_kind() {
    let options = vec![
        option("reject_once", "reject"),
        option("workspace_write", "workspace-write"),
    ];
    assert_eq!(pick_best_option(&options), Some("workspace-write".to_string()));
}

#[test]
fn selects_bypass_permissions_for_exit_plan_mode() {
    let options = vec![
        Json::object().with("optionId", Json::text("bypassPermissions")).with("kind", Json::text("allow_always")),
        Json::object().with("optionId", Json::text("acceptEdits")).with("kind", Json::text("allow_always")),
        Json::object().with("optionId", Json::text("default")).with("kind", Json::text("allow_once")),
        Json::object().with("optionId", Json::text("plan")).with("kind", Json::text("reject_once")),
    ];
    assert_eq!(pick_best_option(&options), Some("bypassPermissions".to_string()));
}

#[test]
fn returns_none_when_only_reject_options_exist() {
    let options = vec![
        option("reject_once", "reject-once"),
        option("reject_always", "reject-always"),
    ];
    assert_eq!(pick_best_option(&options), None);
}

#[test]
fn builds_cancelled_outcome_when_no_selectable_option_exists() {
    let response = build_permission_response(Some(&Json::object().with("options", Json::array(vec![option("reject_once", "reject-once")]))));
    assert_eq!(response, cancelled());
}

#[test]
fn builds_cancelled_when_options_array_is_empty() {
    let response = build_permission_response(Some(&Json::object().with("options", Json::array(vec![]))));
    assert_eq!(response, cancelled());
}

#[test]
fn falls_back_to_allow_always_when_options_are_missing() {
    let response = build_permission_response(Some(&tool_call("legacy")));
    assert_eq!(response, selected("allow_always"));
}

#[test]
fn falls_back_to_allow_always_when_params_is_none() {
    let response = build_permission_response(None);
    assert_eq!(response, selected("allow_always"));
}

#[test]
fn read_only_policy_denies_edit_tool() {
    let mut guard = WritePolicyGuard::new();
    guard.set(WRITE_POLICY_READ_ONLY);
    let params = tool_call("Edit").with("options", Json::array(vec![]));
    let response = build_permission_response_with_policy(Some(&params), Some(&guard));
    assert_eq!(response, cancelled());
}

#[test]
fn read_only_policy_denies_write_notebookedit_multiedit_apply_patch_bash() {
    let mut guard = WritePolicyGuard::new();
    guard.set(WRITE_POLICY_READ_ONLY);
    for title in ["Write", "NotebookEdit", "MultiEdit", "apply_patch", "Bash"] {
        let params = tool_call(title).with("options", Json::array(vec![]));
        let response = build_permission_response_with_policy(Some(&params), Some(&guard));
        assert_eq!(response, cancelled());
    }
}

#[test]
fn read_only_policy_allows_read_only_tools() {
    let mut guard = WritePolicyGuard::new();
    guard.set(WRITE_POLICY_READ_ONLY);
    for title in ["Read", "Glob", "Grep", "LS"] {
        let params = tool_call(title);
        let response = build_permission_response_with_policy(Some(&params), Some(&guard));
        assert_eq!(response, selected("allow_always"));
    }
}

#[test]
fn modify_allowed_policy_preserves_pre_6_4_1f_behavior() {
    let mut guard = WritePolicyGuard::new();
    guard.set(WRITE_POLICY_MODIFY_ALLOWED);
    let params = tool_call("Edit").with("options", Json::array(vec![]));
    let gated = build_permission_response_with_policy(Some(&params), Some(&guard));
    let legacy = build_permission_response(Some(&params));
    assert_eq!(gated, legacy);
}

#[test]
fn unset_policy_preserves_pre_6_4_1f_behavior() {
    let params = tool_call("Edit");
    let gated = build_permission_response_with_policy(Some(&params), None);
    let legacy = build_permission_response(Some(&params));
    assert_eq!(gated, legacy);
}

#[test]
fn read_only_policy_ignores_unrecognised_tool_title() {
    let mut guard = WritePolicyGuard::new();
    guard.set(WRITE_POLICY_READ_ONLY);
    let params = tool_call("MagicCustomTool");
    let response = build_permission_response_with_policy(Some(&params), Some(&guard));
    assert_eq!(response, selected("allow_always"));
}

#[test]
fn read_only_policy_denies_case_insensitively() {
    let mut guard = WritePolicyGuard::new();
    guard.set(WRITE_POLICY_READ_ONLY);
    for title in ["edit", "WRITE", "BaSh", "ApplyPatch"] {
        let params = tool_call(title).with("options", Json::array(vec![]));
        let response = build_permission_response_with_policy(Some(&params), Some(&guard));
        assert_eq!(response, cancelled());
    }
}

#[test]
fn kind_helper_denies_known_mutation_kinds() {
    for kind in [
        "edit", "delete", "move", "execute", "EDIT", "Delete", "MOVE", "EXECUTE",
    ] {
        assert!(tool_kind_denied_for_read_only(kind));
    }
}

#[test]
fn kind_helper_does_not_deny_non_mutation_kinds() {
    for kind in [
        "read",
        "search",
        "fetch",
        "think",
        "other",
        "switch_mode",
        "",
    ] {
        assert!(!tool_kind_denied_for_read_only(kind));
    }
}

#[test]
fn title_helper_denies_first_token_for_decorated_titles() {
    for title in [
        "Write foo.txt",
        "Edit src/main.rs",
        "NotebookEdit data.ipynb",
        "MultiEdit a.rs b.rs",
        "apply_patch fix.patch",
        "ApplyPatch fix.patch",
        "Bash ls",
    ] {
        assert!(tool_title_denied_for_read_only(title));
    }
}

#[test]
fn title_helper_does_not_deny_unrecognised_first_token() {
    for title in ["MagicCustomTool", "Read README.md", "Glob **/*.rs"] {
        assert!(!tool_title_denied_for_read_only(title));
    }
}

#[test]
fn title_helper_still_denies_bare_names_for_backward_compat() {
    for title in [
        "Edit",
        "Write",
        "NotebookEdit",
        "MultiEdit",
        "apply_patch",
        "ApplyPatch",
        "Bash",
    ] {
        assert!(tool_title_denied_for_read_only(title));
    }
}

#[test]
fn read_only_denies_write_foo_txt_kind_edit() {
    let mut guard = WritePolicyGuard::new();
    guard.set(WRITE_POLICY_READ_ONLY);
    let params = tool_call_of_kind("Write foo.txt", "edit").with("options", Json::array(vec![]));
    assert_eq!(build_permission_response_with_policy(Some(&params), Some(&guard)), cancelled());
}

#[test]
fn read_only_denies_edit_src_main_rs_kind_edit() {
    let mut guard = WritePolicyGuard::new();
    guard.set(WRITE_POLICY_READ_ONLY);
    let params = tool_call_of_kind("Edit src/main.rs", "edit").with("options", Json::array(vec![]));
    assert_eq!(build_permission_response_with_policy(Some(&params), Some(&guard)), cancelled());
}

#[test]
fn read_only_denies_notebookedit_data_ipynb_kind_edit() {
    let mut guard = WritePolicyGuard::new();
    guard.set(WRITE_POLICY_READ_ONLY);
    let params = tool_call_of_kind("NotebookEdit data.ipynb", "edit").with("options", Json::array(vec![]));
    assert_eq!(build_permission_response_with_policy(Some(&params), Some(&guard)), cancelled());
}

#[test]
fn read_only_denies_multiedit_a_rs_b_rs_kind_edit() {
    let mut guard = WritePolicyGuard::new();
    guard.set(WRITE_POLICY_READ_ONLY);
    let params = tool_call_of_kind("MultiEdit a.rs b.rs", "edit").with("options", Json::array(vec![]));
    assert_eq!(build_permission_response_with_policy(Some(&params), Some(&guard)), cancelled());
}

#[test]
fn read_only_denies_apply_patch_lowercase_kind_edit() {
    let mut guard = WritePolicyGuard::new();
    guard.set(WRITE_POLICY_READ_ONLY);
    let params = tool_call_of_kind("apply_patch fix.patch", "edit").with("options", Json::array(vec![]));
    assert_eq!(build_permission_response_with_policy(Some(&params), Some(&guard)), cancelled());
}

#[test]
fn read_only_denies_apply_patch_pascal_case_kind_edit() {
    let mut guard = WritePolicyGuard::new();
    guard.set(WRITE_POLICY_READ_ONLY);
    let params = tool_call_of_kind("ApplyPatch fix.patch", "edit").with("options", Json::array(vec![]));
    assert_eq!(build_permission_response_with_policy(Some(&params), Some(&guard)), cancelled());
}

#[test]
fn read_only_denies_bash_ls_kind_execute() {
    let mut guard = WritePolicyGuard::new();
    guard.set(WRITE_POLICY_READ_ONLY);
    let params = tool_call_of_kind("Bash ls", "execute").with("options", Json::array(vec![]));
    assert_eq!(build_permission_response_with_policy(Some(&params), Some(&guard)), cancelled());
}

#[test]
fn read_only_denies_unknown_title_kind_edit() {
    let mut guard = WritePolicyGuard::new();
    guard.set(WRITE_POLICY_READ_ONLY);
    let params = tool_call_of_kind("SomeAgentSpecificMutation", "edit").with("options", Json::array(vec![]));
    assert_eq!(build_permission_response_with_policy(Some(&params), Some(&guard)), cancelled());
}

#[test]
fn read_only_denies_unknown_title_kind_delete() {
    let mut guard = WritePolicyGuard::new();
    guard.set(WRITE_POLICY_READ_ONLY);
    let params = tool_call_of_kind("SomeAgentSpecificMutation", "delete").with("options", Json::array(vec![]));
    assert_eq!(build_permission_response_with_policy(Some(&params), Some(&guard)), cancelled());
}

#[test]
fn read_only_denies_unknown_title_kind_move() {
    let mut guard = WritePolicyGuard::new();
    guard.set(WRITE_POLICY_READ_ONLY);
    let params = tool_call_of_kind("SomeAgentSpecificMutation", "move").with("options", Json::array(vec![]));
    assert_eq!(build_permission_response_with_policy(Some(&params), Some(&guard)), cancelled());
}

#[test]
fn read_only_denies_unknown_title_kind_execute() {
    let mut guard = WritePolicyGuard::new();
    guard.set(WRITE_POLICY_READ_ONLY);
    let params = tool_call_of_kind("SomeAgentSpecificMutation", "execute").with("options", Json::array(vec![]));
    assert_eq!(build_permission_response_with_policy(Some(&params), Some(&guard)), cancelled());
}

#[test]
fn read_only_preserves_fallthrough_for_non_mutation_kinds() {
    let mut guard = WritePolicyGuard::new();
    guard.set(WRITE_POLICY_READ_ONLY);
    for kind in ["read", "search", "fetch", "think", "other", "switch_mode"] {
        let with_options = tool_call_of_kind("SomeTool", kind).with("options", Json::array(vec![option("allow_always", "always")]));
        assert_eq!(build_permission_response_with_policy(Some(&with_options), Some(&guard)), selected("always"));
        let no_options = tool_call_of_kind("SomeTool", kind);
        assert_eq!(build_permission_response_with_policy(Some(&no_options), Some(&guard)), selected("allow_always"));
    }
}

#[test]
fn read_only_does_not_deny_kind_other() {
    let mut guard = WritePolicyGuard::new();
    guard.set(WRITE_POLICY_READ_ONLY);
    let params = tool_call_of_kind("Read README.md", "other");
    assert_eq!(build_permission_response_with_policy(Some(&params), Some(&guard)), selected("allow_always"));
}

#[test]
fn read_only_denies_via_first_token_fallback_when_kind_omitted() {
    let mut guard = WritePolicyGuard::new();
    guard.set(WRITE_POLICY_READ_ONLY);
    let params = tool_call("Write README.md").with("options", Json::array(vec![]));
    assert_eq!(build_permission_response_with_policy(Some(&params), Some(&guard)), cancelled());
}

#[test]
fn modify_allowed_preserves_legacy_for_production_shaped_requests() {
    let mut guard = WritePolicyGuard::new();
    guard.set(WRITE_POLICY_MODIFY_ALLOWED);
    for (title, kind) in [
        ("Write .probe", "edit"),
        ("Edit src/main.rs", "edit"),
        ("Bash ls", "execute"),
    ] {
        let params = tool_call_of_kind(title, kind).with("options", Json::array(vec![option("allow_always", "always")]));
        let gated = build_permission_response_with_policy(Some(&params), Some(&guard));
        let legacy = build_permission_response(Some(&params));
        assert_eq!(gated, legacy);
        assert_ne!(gated, cancelled());
    }
}

#[test]
fn unset_policy_preserves_legacy_for_production_shaped_requests() {
    for (title, kind) in [
        ("Write .probe", "edit"),
        ("Edit src/main.rs", "edit"),
        ("Bash ls", "execute"),
    ] {
        let params = tool_call_of_kind(title, kind).with("options", Json::array(vec![option("allow_always", "always")]));
        let gated = build_permission_response_with_policy(Some(&params), None);
        let legacy = build_permission_response(Some(&params));
        assert_eq!(gated, legacy);
        assert_ne!(gated, cancelled());
    }
}

#[test]
fn full_title_decoration_does_not_bypass_first_token_check() {
    assert!(tool_title_denied_for_read_only("Write .phase641f-round3-probe"));
    for title in [
        "Edit /etc/hosts",
        "Bash rm -rf /",
        "MultiEdit a.rs b.rs c.rs",
        "NotebookEdit /home/user/notebook.ipynb (cell 0)",
    ] {
        assert!(tool_title_denied_for_read_only(title));
    }
}

#[test]
fn exact_production_payload_cancels() {
    let mut guard = WritePolicyGuard::new();
    guard.set(WRITE_POLICY_READ_ONLY);
    let params = Json::object().with("toolCall", Json::object().with("title", Json::text("Write .phase641f-round3-probe")).with("kind", Json::text("edit")).with("rawInput", Json::object().with("file_path", Json::text("/home/arthur/workspace/ai-workstation/.phase641f-round3-probe")).with("content", Json::text("probe")))).with("options", Json::array(vec![option("allow_always", "always")]));
    assert_eq!(build_permission_response_with_policy(Some(&params), Some(&guard)), cancelled());
}

#[test]
fn write_policy_guard_round_trip() {
    let mut guard = WritePolicyGuard::new();
    assert!(!guard.is_read_only());
    assert_eq!(guard.label(), "<unset>");
    guard.set("READ_ONLY");
    assert!(guard.is_read_only());
    assert_eq!(guard.label(), "READ_ONLY");
    guard.set("MODIFY_ALLOWED");
    assert!(!guard.is_read_only());
    assert_eq!(guard.label(), "MODIFY_ALLOWED");
    guard.set("garbage");
    assert_eq!(guard.label(), "<unset>");
    assert!(!guard.is_read_only());
}

#[test]
fn what_is_listed_is_denied_in_any_case() {
    assert_eq!(READ_ONLY_DENY_KINDS, ["edit", "delete", "move", "execute"]);
    assert_eq!(
        READ_ONLY_DENY_TOOLS,
        ["Edit", "Write", "NotebookEdit", "MultiEdit", "apply_patch", "ApplyPatch", "Bash"]
    );
    for kind in READ_ONLY_DENY_KINDS {
        assert!(tool_kind_denied_for_read_only(&kind.to_uppercase()));
    }
    for tool in READ_ONLY_DENY_TOOLS {
        assert!(tool_title_denied_for_read_only(&tool.to_lowercase()));
        assert!(tool_title_denied_for_read_only(&format!("{tool} notes.txt")));
    }
}
