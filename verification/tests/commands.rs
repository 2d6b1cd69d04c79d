//! Chat commands.

use openab_core::acp::protocol::ConfigOption;
use openab_core::acp::protocol::ConfigOptionValue;
use openab_core::commands::parse_command;
use openab_core::commands::render_text_result;
use openab_core::commands::truncate_chars;
use openab_core::commands::usage_bar;
use openab_core::commands::usage_failure;
use openab_core::commands::Command;
use openab_core::commands::CommandAction;
use openab_core::commands::CommandContext;
use openab_core::commands::CommandError;
use openab_core::commands::CommandEvent;
use openab_core::commands::CommandName;
use openab_core::commands::CommandResult;
use openab_core::commands::CommandService;
use openab_core::commands::ConfigCategory;
use openab_core::commands::Overage;
use openab_core::commands::UsageBreakdown;
use openab_core::commands::UsageFailure;
use openab_core::commands::UsageLimit;
use openab_core::commands::UsageReport;
use openab_core::commands::TEXT_RESPONSE_CHAR_LIMIT;
use openab_core::commands::TEXT_VALUE_CHAR_LIMIT;

fn context(private: bool) -> CommandContext {
    CommandContext::new("teams", "conversation", private)
}

fn service(private: bool) -> CommandService {
    CommandService::new(context(private))
}

fn option(category: &str, count: usize, current: usize) -> ConfigOption {
    ConfigOption {
        id: category.to_string(),
        name: category.to_string(),
        description: None,
        category: Some(category.to_string()),
        option_type: "enum".to_string(),
        current_value: format!("value-{current}"),
        options: (0..count)
            .map(|index| ConfigOptionValue {
                value: format!("value-{index}"),
                name: format!("Choice {index}"),
                description: None,
            })
            .collect(),
    }
}

fn usage_report(limit: Option<(&str, u64)>) -> UsageReport {
    UsageReport {
        plan_name: "Plan".to_string(),
        billing_cycle_reset: Some("2026-09-01".to_string()),
        breakdowns: vec![UsageBreakdown {
            display_name: "Credits".to_string(),
            used: "12.50".to_string(),
            limit: limit.map(|(amount, percentage)| UsageLimit { amount: amount.to_string(), percentage }),
            overage: Some(Overage { amount: "1.25".to_string(), currency: Some("USD".to_string()) }),
        }],
    }
}

fn finished(action: CommandAction) -> CommandResult {
    match action {
        CommandAction::Finished(r) => r,
        _ => panic!("not finished"),
    }
}

#[test]
fn parser_requires_exact_boundaries_and_preserves_unknown_slash_text() {
    assert_eq!(parse_command(" /models \n"), Some(Command::ListConfig(ConfigCategory::Model)));
    assert_eq!(parse_command("/cancel-all"), Some(Command::CancelAll));
    assert_eq!(parse_command("/reset now"), Some(Command::InvalidArguments {
            name: CommandName::Reset
        }));
    assert_eq!(parse_command("/model set Choice 1"), Some(Command::SetConfig {
            category: ConfigCategory::Model,
            selector: "Choice 1".to_string()
        }));
    assert_eq!(parse_command("/agent list extra"), Some(Command::InvalidArguments {
            name: CommandName::Agents
        }));
    assert_eq!(parse_command("/reset-now"), None);
    assert_eq!(parse_command("/cancel-all-now"), None);
    assert_eq!(parse_command("/usage-report"), None);
    assert_eq!(parse_command("/compact"), None);
    assert_eq!(parse_command("/Models"), None);
    assert_eq!(parse_command("/agent list"), Some(Command::ListConfig(ConfigCategory::Agent)));
    assert_eq!(parse_command("/usage"), Some(Command::Usage));
    assert_eq!(parse_command("/cancel"), Some(Command::Cancel));
    assert_eq!(
        parse_command("/cancel\tx"),
        Some(Command::InvalidArguments { name: CommandName::Cancel })
    );
}

#[test]
fn text_config_list_is_current_first_and_bounded_to_25() {
    let mut s = service(true);
    let first = s.execute(Command::ListConfig(ConfigCategory::Model));
    assert_eq!(first, CommandAction::GetConfigOptions { session_key: "teams:conversation".to_string() });
    let result = finished(s.advance(CommandEvent::ConfigOptions(vec![option("model", 28, 27)])));
    let text = render_text_result(&result);
    let Some(first_choice) = text.lines().nth(1) else {
        panic!("rendered config list has no first choice");
    };
    assert!(first_choice.contains("Choice 27 ✅"));
    assert!(text.contains("… 3 more option(s) omitted."));
    assert!(!text.contains("Choice 26"));
}

fn select(category: ConfigCategory, options: Vec<ConfigOption>, selector: &str) -> CommandAction {
    let mut s = service(true);
    s.execute(Command::SetConfig { category, selector: selector.to_string() });
    s.advance(CommandEvent::ConfigOptions(options))
}

#[test]
fn agent_category_accepts_mode_and_selection_uses_full_option_set() {
    let mut s = service(true);
    s.execute(Command::SetConfig {
        category: ConfigCategory::Agent,
        selector: "Choice 29".to_string(),
    });
    let action = s.advance(CommandEvent::ConfigOptions(vec![option("mode", 30, 0)]));
    assert_eq!(
        action,
        CommandAction::SetConfigOption {
            session_key: "teams:conversation".to_string(),
            config_id: "mode".to_string(),
            value: "value-29".to_string(),
        }
    );
    let result = finished(s.advance(CommandEvent::ConfigSet(true)));
    assert_eq!(result, CommandResult::ConfigUpdated { display_name: "Choice 29".to_string() });
}

fn value_set(action: CommandAction) -> String {
    match action {
        CommandAction::SetConfigOption { value, .. } => value,
        _ => panic!("nothing is set"),
    }
}

#[test]
fn choices_are_selected_by_number_name_or_value() {
    let options = || vec![option("model", 3, 2)];
    assert_eq!(value_set(select(ConfigCategory::Model, options(), "1")), "value-2");
    assert_eq!(value_set(select(ConfigCategory::Model, options(), "2")), "value-0");
    assert_eq!(value_set(select(ConfigCategory::Model, options(), "CHOICE 1")), "value-1");
    assert_eq!(value_set(select(ConfigCategory::Model, options(), "VALUE-1")), "value-1");
    assert_eq!(
        finished(select(ConfigCategory::Model, options(), "4")),
        CommandResult::Error(CommandError::InvalidConfigSelection(Some(ConfigCategory::Model)))
    );
    assert_eq!(
        finished(select(ConfigCategory::Agent, options(), "1")),
        CommandResult::Error(CommandError::NoConfigOptions(ConfigCategory::Agent))
    );
}

#[test]
fn forged_config_payload_is_rejected_before_backend_mutation() {
    let mut s = service(true);
    s.set_config_value("forged", "value-1");
    let result = finished(s.advance(CommandEvent::ConfigOptions(vec![option("model", 2, 0)])));
    assert_eq!(result, CommandResult::Error(CommandError::InvalidConfigSelection(None)));
    s.set_config_value("model", "value-1");
    let action = s.advance(CommandEvent::ConfigOptions(vec![option("model", 2, 0)]));
    assert_eq!(value_set(action), "value-1");
    assert_eq!(
        finished(s.advance(CommandEvent::ConfigSet(false))),
        CommandResult::Error(CommandError::ConfigUpdateUnavailable)
    );
}

#[test]
fn cancel_preserves_buffers_while_cancel_all_and_reset_clear_only_context_thread() {
    let mut s = service(true);
    let key = "teams:conversation".to_string();
    assert_eq!(s.execute(Command::Cancel), CommandAction::CancelSession { session_key: key.clone() });
    assert_eq!(
        finished(s.advance(CommandEvent::Cancelled(true))),
        CommandResult::Cancel { signalled: true }
    );
    let clear = CommandAction::ClearBufferedThread {
        platform: "teams".to_string(),
        logical_thread_id: "conversation".to_string(),
    };
    assert_eq!(s.execute(Command::CancelAll), clear);
    assert_eq!(
        s.advance(CommandEvent::Cleared(2)),
        CommandAction::CancelSession { session_key: key.clone() }
    );
    assert_eq!(
        finished(s.advance(CommandEvent::Cancelled(false))),
        CommandResult::CancelAll { signalled: false, buffers_cleared: true }
    );
    assert_eq!(s.execute(Command::Reset), clear);
    assert_eq!(
        s.advance(CommandEvent::Cleared(0)),
        CommandAction::ResetSession { session_key: key }
    );
    let reset = finished(s.advance(CommandEvent::WasReset(false)));
    assert_eq!(reset, CommandResult::Reset { session_reset: false, buffers_cleared: false });
    assert_eq!(reset.outcome_class(), "no_active_session");
}

#[test]
fn public_usage_is_denied_before_session_or_backend_access() {
    let denied = finished(service(false).execute(Command::Usage));
    assert_eq!(denied, CommandResult::Error(CommandError::UsagePrivateOnly));
    assert_eq!(denied.outcome_class(), "denied_private_surface");
}

fn usage_of(outcome: Result<UsageReport, UsageFailure>) -> CommandResult {
    let mut s = service(true);
    let key = "teams:conversation".to_string();
    assert_eq!(s.execute(Command::Usage), CommandAction::HasLiveSession { session_key: key.clone() });
    assert_eq!(s.advance(CommandEvent::Live(true)), CommandAction::GetUsage { session_key: key });
    finished(s.advance(CommandEvent::Usage(outcome)))
}

#[test]
fn usage_classifies_absent_unsupported_and_malformed_without_raw_errors() {
    let mut s = service(true);
    s.execute(Command::Usage);
    let absent = finished(s.advance(CommandEvent::Live(false)));
    assert_eq!(absent, CommandResult::Error(CommandError::NoActiveSession));
    let unsupported = usage_of(Err(UsageFailure::Unsupported));
    assert_eq!(unsupported, CommandResult::Error(CommandError::UsageUnsupported));
    let malformed = usage_of(Err(UsageFailure::Unavailable));
    assert_eq!(malformed, CommandResult::Error(CommandError::UsageUnavailable));
    assert_eq!(usage_failure("usage query is not supported by this backend (x)"), UsageFailure::Unsupported);
    assert_eq!(usage_failure("empty usage response"), UsageFailure::Unavailable);
}

#[test]
fn command_execution_timeout_returns_bounded_error() {
    let mut s = service(true);
    s.execute(Command::Usage);
    s.advance(CommandEvent::Live(true));
    let result = finished(s.advance(CommandEvent::TimedOut));
    assert_eq!(result, CommandResult::Error(CommandError::OperationUnavailable));
    assert_eq!(render_text_result(&result), "⚠️ The command could not be completed.");
}

#[test]
fn usage_renderer_handles_over_limit_and_no_cap_reports() {
    let over_text = render_text_result(&usage_of(Ok(usage_report(Some(("10.00", 125))))));
    assert!(over_text.contains("125% ⚠️"));
    assert!(over_text.contains("Overage charges: 1.25 USD"));
    let no_cap = usage_of(Ok(usage_report(None)));
    assert!(render_text_result(&no_cap).contains("Credits: 12.50 used"));
    assert_eq!(
        render_text_result(&usage_of(Ok(usage_report(Some(("25.00", 50)))))),
        "📊 **Usage — Plan**\nCredits: 12.50 / 25.00 `█████░░░░░` 50%\n\
         Overage charges: 1.25 USD\nBilling cycle resets 2026-09-01"
    );
}

#[test]
fn bars_fill_in_tens() {
    assert_eq!(usage_bar(0), "░░░░░░░░░░");
    assert_eq!(usage_bar(9), "░░░░░░░░░░");
    assert_eq!(usage_bar(99), "█████████░");
    assert_eq!(usage_bar(u64::MAX), "██████████");
}

#[test]
fn long_values_are_cut_by_characters() {
    assert_eq!(truncate_chars("héllo", 5), "héllo");
    assert_eq!(truncate_chars("héllo!", 5), "héll…");
}

#[test]
fn every_error_is_worded() {
    let render = |e| render_text_result(&CommandResult::Error(e));
    assert!(render(CommandError::NoConfigOptions(ConfigCategory::Model)).contains("model"));
    assert!(render(CommandError::InvalidArguments(CommandName::CancelAll)).contains("cancel-all"));
    assert!(render(CommandError::InvalidConfigSelection(Some(ConfigCategory::Agent))).contains("agent"));
    assert!(!render(CommandError::InvalidConfigSelection(None)).is_empty());
    assert!(!render(CommandError::NoActiveSession).is_empty());
    assert!(!render(CommandError::UsagePrivateOnly).is_empty());
    assert!(!render(CommandError::UsageUnsupported).is_empty());
}

#[test]
fn renderer_bounds_untrusted_backend_strings() {
    let text = render_text_result(&CommandResult::Usage(UsageReport {
        plan_name: "x".repeat(10_000),
        billing_cycle_reset: None,
        breakdowns: vec![],
    }));
    assert!(text.chars().count() <= TEXT_RESPONSE_CHAR_LIMIT);
    assert!(!text.contains(&"x".repeat(TEXT_VALUE_CHAR_LIMIT + 1)));
}

#[test]
fn session_key_is_namespaced_by_platform() {
    assert_eq!(context(true).session_key(), "teams:conversation");
    assert_ne!(context(true).session_key(), CommandContext::new("discord", "conversation", true).session_key());
}

#[test]
fn error_rendering_never_contains_backend_details() {
    let expected = [
        (
            CommandError::ConfigUpdateUnavailable,
            "❌ The configuration change could not be completed.",
        ),
        (
            CommandError::UsageUnavailable,
            "⚠️ Usage information is temporarily unavailable.",
        ),
    ];
    for (error, message) in expected {
        assert_eq!(render_text_result(&CommandResult::Error(error)), message);
    }
}
