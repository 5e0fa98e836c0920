use rokr::cli::{AgentTier, OutputFormat, PermissionMode};
use rokr::headless::{
    build_permission_requester, build_system_prompt, config_error, count_assistant_turns,
    event_type, prompt_error, reads_stdin, run_options, run_result_object, select_mode,
    text_goes_to_stdout, BootstrapError, MemorySegment, Mode,
};
use rokr::message::{Message, Role, Usage};
use rokr::prompt::{PermissionDecision, PermissionDetail};
use rokr::result_schema::{ResultObject, Subtype, UsageObject};

#[test]
fn headless_mode_selected_only_when_print_flag_present_otherwise_tui_launches() {
    assert!(matches!(select_mode(None, ""), Mode::Tui));

    match select_mode(Some("say hi"), "") {
        Mode::Headless(prompt) => assert_eq!(prompt, "say hi"),
        Mode::Tui => panic!("expected Headless mode when --print is present"),
    }
}

#[test]
fn dash_prompt_argument_reads_from_stdin_instead_of_argv() {
    let stdin = "say hi\n";

    assert!(reads_stdin(Some("-")));
    match select_mode(Some("-"), stdin) {
        Mode::Headless(prompt) => assert_eq!(prompt, "say hi"),
        Mode::Tui => panic!("expected Headless mode when --print - is present"),
    }
}

#[test]
fn bypass_permission_mode_requires_explicit_dangerously_skip_permissions_flag() {
    assert!(
        build_permission_requester(PermissionMode::Bypass, false).is_err(),
        "bypass mode without --dangerously-skip-permissions must be rejected"
    );
    assert!(
        build_permission_requester(PermissionMode::Bypass, true).is_ok(),
        "bypass mode WITH --dangerously-skip-permissions must be accepted"
    );

    assert!(build_permission_requester(PermissionMode::Deny, false).is_ok());
    assert!(build_permission_requester(PermissionMode::AcceptEdits, false).is_ok());
}

#[test]
fn the_refusal_of_bypass_names_the_flag() {
    assert_eq!(
        build_permission_requester(PermissionMode::Bypass, false).unwrap_err(),
        "--permission-mode bypass requires the explicit --dangerously-skip-permissions flag"
    );
}

#[test]
fn only_a_lone_dash_reads_standard_input() {
    assert!(!reads_stdin(None));
    assert!(!reads_stdin(Some("say -")));
    assert!(!reads_stdin(Some("")));
    assert_eq!(
        select_mode(Some("-"), "  two\nlines \t\n"),
        Mode::Headless("  two\nlines".to_string())
    );
}

#[test]
fn modes_answer_prompts_and_refusals_are_remembered() {
    let command = PermissionDetail::Text("rm x".to_string());
    let edit = PermissionDetail::Diff { old: String::new(), new: "a".to_string() };

    let mut deny = build_permission_requester(PermissionMode::Deny, false).unwrap();
    assert!(!deny.denied());
    assert_eq!(deny.request(&edit), PermissionDecision::Deny);
    assert!(deny.denied());

    let mut edits = build_permission_requester(PermissionMode::AcceptEdits, false).unwrap();
    assert_eq!(edits.request(&edit), PermissionDecision::Allow);
    assert!(!edits.denied());
    assert_eq!(edits.request(&command), PermissionDecision::Deny);
    assert_eq!(edits.request(&edit), PermissionDecision::Allow);
    assert!(edits.denied(), "a refusal is never forgotten");

    let mut bypass = build_permission_requester(PermissionMode::Bypass, true).unwrap();
    assert_eq!(bypass.request(&command), PermissionDecision::Allow);
    assert!(!bypass.denied());
    bypass.note_denied();
    assert!(bypass.denied());
}

#[test]
fn defaults_refuse_plan_and_print_text() {
    let options = run_options(None, None, None);
    assert_eq!(options.permission_mode, PermissionMode::Deny);
    assert_eq!(options.output_format, OutputFormat::Text);
    assert_eq!(options.agent, AgentTier::Plan);
    let options = run_options(
        Some(PermissionMode::AcceptEdits),
        Some(OutputFormat::StreamJson),
        Some(AgentTier::Build),
    );
    assert_eq!(options.permission_mode, PermissionMode::AcceptEdits);
    assert_eq!(options.output_format, OutputFormat::StreamJson);
    assert_eq!(options.agent, AgentTier::Build);
}

#[test]
fn context_follows_the_prompt_under_headings() {
    let segments = vec![
        MemorySegment { label: "AGENTS.md".to_string(), content: "Use tabs.".to_string() },
        MemorySegment { label: "Git Context".to_string(), content: "Branch: main\n".to_string() },
    ];
    assert_eq!(
        build_system_prompt("You plan.", &segments),
        "You plan.\n\n# AGENTS.md\nUse tabs.\n\n# Git Context\nBranch: main\n"
    );
    assert_eq!(build_system_prompt("You plan.", &Vec::new()), "You plan.");
}

fn outcome_of(run: Result<String, String>, denied: bool) -> ResultObject {
    let transcript = vec![
        Message::user_text("hi"),
        Message::assistant_text("one"),
        Message::user_text("more"),
        Message::assistant_text("two"),
    ];
    let usage = Usage {
        input_tokens: 1,
        output_tokens: 2,
        cache_read_tokens: 3,
        cache_write_tokens: 4,
    };
    let outcome = run_result_object(run, denied, "session".to_string(), transcript, usage, 7);
    assert_eq!(outcome.transcript.len(), 4);
    outcome.result_object
}

#[test]
fn a_run_ends_in_one_of_three_ways() {
    let ok = outcome_of(Ok("done".to_string()), false);
    assert_eq!(ok.subtype, Subtype::Success);
    assert!(!ok.is_error);
    assert_eq!(ok.result, "done");
    assert_eq!(ok.session_id, "session");
    assert_eq!(ok.num_turns, 2);
    assert_eq!(ok.duration_ms, 7);
    assert_eq!(
        ok.usage,
        UsageObject {
            input_tokens: 1,
            output_tokens: 2,
            cache_read_tokens: 3,
            cache_write_tokens: 4,
        }
    );
    assert_eq!(ok.exit_code(), 0);
    assert!(text_goes_to_stdout(&ok));

    let refused = outcome_of(Ok("done".to_string()), true);
    assert_eq!(refused.subtype, Subtype::ErrorPermission);
    assert!(refused.is_error);
    assert_eq!(refused.exit_code(), 1);
    assert!(!text_goes_to_stdout(&refused));

    let refused_error = outcome_of(Err("boom".to_string()), true);
    assert_eq!(refused_error.subtype, Subtype::ErrorPermission);
    assert_eq!(refused_error.result, "boom");

    let failed = outcome_of(Err("boom".to_string()), false);
    assert_eq!(failed.subtype, Subtype::ErrorMaxTurns);
    assert_eq!(failed.result, "boom");
    assert_eq!(failed.exit_code(), 1);
}

#[test]
fn assistant_turns_are_counted() {
    assert_eq!(count_assistant_turns(&Vec::new()), 0);
    assert_eq!(
        count_assistant_turns(&vec![
            Message::system_text("s"),
            Message::user_text("u"),
            Message::assistant_text("a"),
        ]),
        1
    );
}

#[test]
fn bootstrap_errors_have_texts_and_exit_codes() {
    assert_eq!(BootstrapError::CliMisuse("x".to_string()).exit_code(), 2);
    assert_eq!(BootstrapError::Other("x".to_string()).exit_code(), 1);
    assert_eq!(
        config_error("no home"),
        BootstrapError::Other("failed to initialize config: no home".to_string())
    );
    assert_eq!(
        prompt_error("gone"),
        BootstrapError::Other("failed to read agent prompt: gone".to_string())
    );
}

#[test]
fn stream_events_are_named_by_role() {
    assert_eq!(event_type(Role::User), "user");
    assert_eq!(event_type(Role::Assistant), "assistant");
    assert_eq!(event_type(Role::System), "system");
    assert_eq!(Subtype::Success.name(), "success");
    assert_eq!(Subtype::ErrorMaxTurns.name(), "error_max_turns");
    assert_eq!(Subtype::ErrorPermission.name(), "error_permission");
}

#[test]
fn token_counts_carry_over_one_for_one() {
    let usage = Usage {
        input_tokens: 9,
        output_tokens: 8,
        cache_read_tokens: 7,
        cache_write_tokens: 6,
    };
    let object = UsageObject::from(usage);
    assert_eq!(object.input_tokens, 9);
    assert_eq!(object.output_tokens, 8);
    assert_eq!(object.cache_read_tokens, 7);
    assert_eq!(object.cache_write_tokens, 6);
    assert_eq!(UsageObject::from(Usage::default()), UsageObject::default());
}

#[test]
fn a_refusal_outlasts_later_permissions() {
    let mut requester = match build_permission_requester(PermissionMode::AcceptEdits, false) {
        Ok(requester) => requester,
        Err(error) => panic!("expected a requester, got: {error}"),
    };
    let edit = PermissionDetail::Diff { old: String::new(), new: "x".to_string() };
    let command = PermissionDetail::Text("rm x".to_string());

    assert_eq!(requester.request(&edit), PermissionDecision::Allow);
    assert!(!requester.denied());
    assert_eq!(requester.request(&command), PermissionDecision::Deny);
    assert_eq!(requester.request(&edit), PermissionDecision::Allow);
    assert!(requester.denied());
    assert_eq!(
        outcome_of(Ok("done".to_string()), requester.denied()).subtype,
        Subtype::ErrorPermission
    );
}
