use rokr::hooks::{
    apply_prompt_hook, hook_command_line, inject_context, interpret_hook_end,
    log_observational_hook_outcome, matches_tool_name, matching_hook_entries, pre_tool_hook_note, pre_tool_verdict,
    prompt_hook_note, HookEnd, HookEntry, HookEvent, HookPayload, HookResult, DEFAULT_TIMEOUT_MS,
};
use rokr::text_map::TextMap;
use rokr::tool_loop::PreToolHookOutcome;

fn entry(matcher: Option<&str>, command: &str, blocking: Option<bool>) -> HookEntry {
    HookEntry {
        matcher: matcher.map(|m| m.to_string()),
        command: command.to_string(),
        timeout_ms: None,
        blocking,
    }
}

#[test]
fn glob_matcher_only_matches_configured_tool_name_pattern_for_pre_and_post_tool_use() {
    assert!(
        matches_tool_name("mcp__*", "mcp__myserver__search"),
        "expected 'mcp__*' to match a namespaced MCP tool name"
    );
    assert!(
        !matches_tool_name("mcp__*", "bash"),
        "expected 'mcp__*' NOT to match a tool name outside the mcp__ namespace"
    );
    assert!(
        matches_tool_name("bash", "bash"),
        "expected an exact literal matcher to still match the identical tool name"
    );
    assert!(
        !matches_tool_name("bash", "bashful"),
        "expected an exact literal matcher NOT to match a longer tool name with it as a prefix"
    );
    assert!(
        matches_tool_name("*", "anything_at_all"),
        "expected '*' to still match every tool name"
    );
    assert!(
        matches_tool_name("git_?ommit", "git_commit"),
        "expected '?' to match exactly one character"
    );
    assert!(
        !matches_tool_name("git_?ommit", "git_ommit"),
        "expected '?' NOT to match zero characters"
    );
}

#[test]
fn wildcards_stand_for_whole_characters() {
    assert!(matches_tool_name("?", "é"));
    assert!(!matches_tool_name("??", "é"));
    assert!(matches_tool_name("", ""));
    assert!(!matches_tool_name("", "a"));
    assert!(matches_tool_name("*a*b", "xxaxxb"));
    assert!(!matches_tool_name("*a*b", "xxbxxa"));
}

#[test]
fn events_and_payloads_share_their_names() {
    let payloads = vec![
        (
            HookPayload::PreToolUse { tool_name: "bash".to_string(), tool_input: "{}".to_string() },
            "PreToolUse",
        ),
        (
            HookPayload::PostToolUse {
                tool_name: "bash".to_string(),
                tool_input: "{}".to_string(),
                tool_output: "file1\nfile2".to_string(),
                is_error: false,
            },
            "PostToolUse",
        ),
        (HookPayload::SessionStart, "SessionStart"),
        (HookPayload::UserPromptSubmit { prompt: "hello agent".to_string() }, "UserPromptSubmit"),
        (HookPayload::Stop, "Stop"),
        (HookPayload::SessionEnd, "SessionEnd"),
    ];
    for (payload, name) in payloads {
        assert_eq!(payload.event().name(), name);
    }
    assert_eq!(HookEvent::Stop.name(), "Stop");
}

#[test]
fn hook_exit_2_is_treated_as_blocking_and_stderr_becomes_error_result() {
    let result = interpret_hook_end(HookEnd::Exited {
        code: Some(2),
        stdout: String::new(),
        stderr: "blocked: dangerous command\n".to_string(),
    });

    match result {
        HookResult::Blocked { stderr } => {
            assert!(
                stderr.contains("blocked: dangerous command"),
                "expected the hook's stderr in the Blocked result, got: {stderr:?}"
            );
        }
        other => panic!("expected HookResult::Blocked for exit 2, got {other:?}"),
    }
}

#[test]
fn every_other_end_of_a_hook_stops_nothing() {
    let ended = |code: Option<i32>| {
        interpret_hook_end(HookEnd::Exited {
            code,
            stdout: "out".to_string(),
            stderr: "err".to_string(),
        })
    };
    assert_eq!(ended(Some(0)), HookResult::Success { stdout: "out".to_string() });
    assert_eq!(
        ended(Some(-7)),
        HookResult::NonBlockingFailure {
            message: "hook exited with status -7 (stderr: err)".to_string()
        }
    );
    assert_eq!(
        ended(None),
        HookResult::NonBlockingFailure {
            message: "hook process terminated by signal".to_string()
        }
    );
    assert_eq!(
        interpret_hook_end(HookEnd::TimedOut("60s".to_string())),
        HookResult::NonBlockingFailure { message: "hook timed out after 60s".to_string() }
    );
    assert_eq!(
        interpret_hook_end(HookEnd::NotSpawned("e".to_string())),
        HookResult::NonBlockingFailure { message: "failed to spawn hook command: e".to_string() }
    );
    assert_eq!(
        interpret_hook_end(HookEnd::NotSerialized("e".to_string())),
        HookResult::NonBlockingFailure {
            message: "failed to serialize hook payload: e".to_string()
        }
    );
    assert_eq!(
        interpret_hook_end(HookEnd::NotAwaited("e".to_string())),
        HookResult::NonBlockingFailure {
            message: "failed waiting for hook process: e".to_string()
        }
    );
}

#[test]
fn matching_entries_keep_the_order_of_the_configuration() {
    let mut config: TextMap<Vec<HookEntry>> = TextMap::new();
    config.insert(
        "PreToolUse".to_string(),
        vec![
            entry(Some("bash"), "first", None),
            entry(Some("mcp__*"), "second", None),
            entry(None, "third", None),
        ],
    );
    let commands = |event: &str, tool: Option<&str>| {
        matching_hook_entries(&config, event, tool)
            .iter()
            .map(|e| e.command.clone())
            .collect::<Vec<String>>()
    };
    assert_eq!(commands("PreToolUse", Some("bash")), vec!["first", "third"]);
    assert_eq!(commands("PreToolUse", Some("mcp__a__b")), vec!["second", "third"]);
    assert_eq!(commands("PreToolUse", None), vec!["first", "second", "third"]);
    assert!(commands("Stop", None).is_empty());
}

#[test]
fn only_objections_that_count_stop_a_call_or_a_prompt() {
    let blocked = || HookResult::Blocked { stderr: "no".to_string() };
    assert_eq!(
        pre_tool_verdict(&entry(None, "c", None), blocked()),
        PreToolHookOutcome::Deny("no".to_string())
    );
    assert_eq!(
        pre_tool_verdict(&entry(None, "c", Some(true)), blocked()),
        PreToolHookOutcome::Deny("no".to_string())
    );
    assert_eq!(
        pre_tool_verdict(&entry(None, "c", Some(false)), blocked()),
        PreToolHookOutcome::Allow
    );
    assert_eq!(
        apply_prompt_hook("ctx".to_string(), &entry(None, "c", None), blocked()),
        Err("no".to_string())
    );
    assert_eq!(
        apply_prompt_hook("ctx".to_string(), &entry(None, "c", Some(false)), blocked()),
        Ok("ctx".to_string())
    );
    assert_eq!(
        pre_tool_hook_note(&entry(None, "c", Some(false)), &blocked()),
        Some(
            "PreToolUse hook exited 2 but its config entry sets blocking: false, allowing the \
             tool call through: no"
                .to_string()
        )
    );
    assert_eq!(pre_tool_hook_note(&entry(None, "c", None), &blocked()), None);
    assert_eq!(
        prompt_hook_note(&entry(None, "c", Some(false)), &blocked()),
        Some(
            "UserPromptSubmit hook exited 2 but its config entry sets blocking: false, allowing \
             the prompt through: no"
                .to_string()
        )
    );
    let failure = HookResult::NonBlockingFailure { message: "m".to_string() };
    assert_eq!(
        prompt_hook_note(&entry(None, "c", None), &failure),
        Some(
            "UserPromptSubmit hook failed non-blocking, continuing without its injected \
             context: m"
                .to_string()
        )
    );
    assert_eq!(
        pre_tool_hook_note(&entry(None, "c", None), &failure),
        Some("PreToolUse hook failed non-blocking, allowing the tool call through: m".to_string())
    );
}

#[test]
fn what_hooks_print_joins_the_prompt() {
    let said = |s: &str| HookResult::Success { stdout: s.to_string() };
    let e = entry(None, "c", None);
    let context = apply_prompt_hook(String::new(), &e, said("  one \n")).unwrap();
    assert_eq!(context, "one");
    let context = apply_prompt_hook(context, &e, said(" \n")).unwrap();
    assert_eq!(context, "one");
    let context = apply_prompt_hook(context, &e, said("two")).unwrap();
    assert_eq!(context, "one\n\ntwo");
    assert_eq!(inject_context("prompt".to_string(), &context), "prompt\n\none\n\ntwo");
    assert_eq!(inject_context("prompt".to_string(), ""), "prompt");
}

#[test]
fn observers_are_only_logged() {
    assert_eq!(
        log_observational_hook_outcome("Stop", &HookResult::Success { stdout: "x".to_string() }),
        None
    );
    assert_eq!(
        log_observational_hook_outcome("Stop", &HookResult::Blocked { stderr: "x".to_string() }),
        Some(
            "Stop hook exited 2 (a blocking exit code), but Stop is fire-and-observe only and \
             cannot veto anything -- ignoring: x"
                .to_string()
        )
    );
    assert_eq!(
        log_observational_hook_outcome(
            "Stop",
            &HookResult::NonBlockingFailure { message: "x".to_string() }
        ),
        Some("Stop hook failed non-blocking: x".to_string())
    );
}

#[test]
fn hooks_have_a_minute_unless_they_say_otherwise() {
    let mut e = entry(None, "c", None);
    assert_eq!(e.timeout(), DEFAULT_TIMEOUT_MS);
    assert_eq!(e.timeout(), 60_000);
    e.timeout_ms = Some(5);
    assert_eq!(e.timeout(), 5);
}

#[test]
fn a_hook_runs_by_its_command_alone() {
    assert_eq!(hook_command_line("echo \"$1\"; ls"), vec!["sh", "-c", "echo \"$1\"; ls"]);
    assert_eq!(hook_command_line(""), vec!["sh", "-c", ""]);
}
