use rokr::cli::{resume_mode, AgentTier, PermissionMode, ResumeMode};
use rokr::compaction::{CompactionOutcome, TokenEstimate};
use rokr::context::ToolSpec;
use rokr::hooks::{HookEntry, HookPayload, HookResult};
use rokr::message::{ContentBlock, Message, Role, Usage};
use rokr::permission_policy::SessionGrants;
use rokr::prompt::{PermissionDecision, PermissionDetail};
use rokr::runner::{
    accumulate_user_turn, capture_checkpoint_if_granted_diff, format_tool_call_permission_text,
    now_timestamp, permission_detail, session_tool_names,
    timestamp_of, PermissionStep, SessionRunner, TurnUsage,
};
use rokr::subagent::{
    parse_subagent_input, prompt_failure, subagent_gate, subagent_tool_names, subagent_tool_spec,
    tag_permission_request, SubagentAction, SubagentCall, SubagentGate, SubagentRun, ToolError,
};
use rokr::submission::{open_submission, Opening, Stage, Submission, SubmissionAction};
use rokr::text_map::TextMap;
use rokr::tool_loop::{PermissionPayload, PermissionRequest};

fn session(hooks: TextMap<Vec<HookEntry>>, max_iterations: Option<u32>) -> SessionRunner {
    SessionRunner {
        transcript: Vec::new(),
        system_prompt: "You build.".to_string(),
        repo_map: None,
        last_known_usage: None,
        last_turn_usage: None,
        turn_index: 0,
        session_grants: SessionGrants::new(),
        mcp_http_origins: TextMap::new(),
        hooks_config: hooks,
        agent: AgentTier::Build,
        permission_mode: None,
        max_iterations,
    }
}

fn spec(name: &str) -> ToolSpec {
    ToolSpec {
        name: name.to_string(),
        description: String::new(),
        input_schema: "{}".to_string(),
        cache_control: None,
    }
}

fn calls(list: &[(&str, &str)]) -> Message {
    Message {
        role: Role::Assistant,
        content: list
            .iter()
            .map(|(id, name)| ContentBlock::ToolUse {
                id: id.to_string(),
                name: name.to_string(),
                input: "{}".to_string(),
                cache_control: None,
            })
            .collect(),
    }
}

fn usage(input: u64, output: u64) -> Usage {
    Usage {
        input_tokens: input,
        output_tokens: output,
        cache_read_tokens: 0,
        cache_write_tokens: 0,
    }
}

fn hook(command: &str, matcher: Option<&str>) -> HookEntry {
    HookEntry {
        matcher: matcher.map(|m| m.to_string()),
        command: command.to_string(),
        timeout_ms: Some(9),
        blocking: None,
    }
}

fn said(stdout: &str) -> HookResult {
    HookResult::Success { stdout: stdout.to_string() }
}

/// Goes on while nothing outside is needed.
fn settle(s: &mut Submission, mut action: SubmissionAction) -> SubmissionAction {
    loop {
        match action {
            SubmissionAction::Continue => action = s.proceed(),
            other => return other,
        }
    }
}

fn finish(action: SubmissionAction) -> (Result<String, String>, Option<(String, usize)>) {
    match action {
        SubmissionAction::Finish { result, record } => (result, record),
        _ => panic!("expected the submission to be over"),
    }
}

#[test]
fn session_runner_drives_one_submission_to_terminal_state_matching_prior_closure_behavior() {
    let mut s = Submission::new(
        session(TextMap::new(), None),
        "say hi".to_string(),
        vec![spec("read")],
    );
    match s.begin() {
        SubmissionAction::Send(request) => {
            assert_eq!(request.messages.len(), 2);
            assert_eq!(request.messages[0].text(), "You build.");
            assert_eq!(request.messages[1].text(), "say hi");
            assert_eq!(request.tools.len(), 1);
        }
        _ => panic!("expected a request"),
    }
    match s.on_reply(Ok((Message::assistant_text("hi there"), usage(10, 5)))) {
        SubmissionAction::RecordTurn(turn) => {
            assert_eq!(turn.record.len(), 2);
            assert_eq!(turn.record[0], Message::user_text("say hi"));
            assert_eq!(turn.record[1], Message::assistant_text("hi there"));
            assert_eq!(turn.spent, usage(10, 5));
            assert_eq!(turn.shown, usage(10, 5));
            assert_eq!(turn.estimate, TokenEstimate::Reported(15));
        }
        _ => panic!("expected the turn to be recorded"),
    }
    let (result, record) = finish(s.on_choice(false));
    assert_eq!(result, Ok("hi there".to_string()));
    assert_eq!(record, None);
    assert_eq!(s.session.turn_index, 1);
    assert_eq!(s.session.transcript.len(), 2);
    assert_eq!(s.session.last_known_usage, Some(usage(10, 5)));
    assert_eq!(s.session.total_usage(), usage(10, 5));
}

#[test]
fn remembered_grant_is_recorded_after_user_chooses_remember_for_session() {
    let mut s = Submission::new(
        session(TextMap::new(), None),
        "edit".to_string(),
        vec![spec("write")],
    );
    s.begin();
    let action = s.on_reply(Ok((calls(&[("1", "write"), ("2", "write")]), usage(1, 1))));
    assert!(matches!(settle(&mut s, action), SubmissionAction::Preview { tool: 0, .. }));
    let diff = || PermissionPayload::Diff {
        path: "a.rs".to_string(),
        old: "before".to_string(),
        new: "after".to_string(),
    };
    match s.on_preview(Some(Ok(diff()))) {
        SubmissionAction::Ask(prompt) => {
            assert_eq!(prompt.tool_name, "write");
            assert_eq!(
                prompt.detail,
                PermissionDetail::Diff { old: "before".to_string(), new: "after".to_string() }
            );
        }
        _ => panic!("expected the user to be asked"),
    }
    match s.on_decision(PermissionDecision::AllowAndRemember) {
        SubmissionAction::Execute { tool: 0, checkpoint: Some(kept), .. } => {
            assert_eq!(kept.path, "a.rs");
            assert_eq!(kept.old, Some("before".to_string()));
            assert_eq!(kept.turn_index, 0);
        }
        _ => panic!("expected the tool to run with a checkpoint"),
    }
    assert!(s.session.session_grants.is_granted("write"));
    let action = s.on_execution(Ok("written".to_string()));
    assert!(matches!(settle(&mut s, action), SubmissionAction::Preview { tool: 0, .. }));
    assert!(
        matches!(
            s.on_preview(Some(Ok(diff()))),
            SubmissionAction::Execute { checkpoint: Some(_), .. }
        ),
        "a remembered tool is not asked about again, and its edits are still kept"
    );
}

#[test]
fn a_refused_call_does_not_run_and_is_not_remembered() {
    let mut s =
        Submission::new(session(TextMap::new(), None), "go".to_string(), vec![spec("bash")]);
    s.begin();
    let action = s.on_reply(Ok((calls(&[("1", "bash")]), usage(1, 1))));
    settle(&mut s, action);
    s.on_preview(Some(Ok(PermissionPayload::Command("ls".to_string()))));
    let action = s.on_decision(PermissionDecision::Deny);
    assert!(matches!(action, SubmissionAction::Continue));
    assert!(!s.session.session_grants.is_granted("bash"));
    match settle(&mut s, action) {
        SubmissionAction::Send(request) => match &request.messages.last().unwrap().content[..] {
            [ContentBlock::ToolResult { content, is_error, .. }] => {
                assert_eq!(content, "permission denied by user");
                assert!(is_error);
            }
            other => panic!("got {other:?}"),
        },
        _ => panic!("expected the refusal to go back"),
    }
}

/// What comes of a shell call that would run `command`.
fn shell_call(mode: Option<PermissionMode>, command: &str) -> (Submission, SubmissionAction) {
    let mut session = session(TextMap::new(), None);
    session.permission_mode = mode;
    let mut s = Submission::new(session, "go".to_string(), vec![spec("bash")]);
    s.begin();
    let action = s.on_reply(Ok((calls(&[("1", "bash")]), usage(1, 1))));
    settle(&mut s, action);
    let action = s.on_preview(Some(Ok(PermissionPayload::Command(command.to_string()))));
    (s, action)
}

#[test]
fn commands_that_only_read_a_repository_run_unasked() {
    let runs = |mode: Option<PermissionMode>, command: &str| {
        matches!(
            shell_call(mode, command).1,
            SubmissionAction::Execute { checkpoint: None, .. }
        )
    };
    assert!(runs(None, "git status"));
    assert!(runs(Some(PermissionMode::AcceptEdits), "git log --oneline"));
    assert!(!runs(Some(PermissionMode::Deny), "git status"));
    assert!(runs(Some(PermissionMode::Bypass), "git push"));
    for command in ["git push", "git status; rm -rf x", "ls"] {
        assert!(matches!(shell_call(None, command).1, SubmissionAction::Ask(_)), "{command}");
    }
}

#[test]
fn a_mode_that_refuses_is_noted_and_asks_nobody() {
    let (mut s, action) = shell_call(Some(PermissionMode::Deny), "git status");
    assert!(matches!(action, SubmissionAction::Refused));
    match s.proceed() {
        SubmissionAction::Send(request) => match &request.messages.last().unwrap().content[..] {
            [ContentBlock::ToolResult { content, is_error: true, .. }] => {
                assert_eq!(content, "permission denied by user")
            }
            other => panic!("got {other:?}"),
        },
        _ => panic!("expected the refusal to go back"),
    }
}

#[test]
fn hooks_run_around_the_turn_in_their_order() {
    let mut hooks: TextMap<Vec<HookEntry>> = TextMap::new();
    hooks.insert("UserPromptSubmit".to_string(), vec![hook("p1", None), hook("p2", None)]);
    hooks.insert("PreToolUse".to_string(), vec![hook("pre", Some("re*"))]);
    hooks.insert("PostToolUse".to_string(), vec![hook("post", None)]);
    hooks.insert("Stop".to_string(), vec![hook("stop", None)]);
    let mut s = Submission::new(
        session(hooks, None),
        "look".to_string(),
        vec![spec("read"), spec("ls")],
    );
    let ran = |action: &SubmissionAction| match action {
        SubmissionAction::RunHook { command, timeout_ms, .. } => {
            assert_eq!(*timeout_ms, 9);
            command.clone()
        }
        _ => panic!("expected a hook"),
    };

    let action = s.begin();
    assert_eq!(ran(&action), "p1");
    match action {
        SubmissionAction::RunHook { payload: HookPayload::UserPromptSubmit { prompt }, .. } => {
            assert_eq!(prompt, "look")
        }
        _ => panic!("expected the prompt's payload"),
    }
    let action = s.on_prompt_hook(said("ctx one"));
    assert_eq!(ran(&action), "p2");
    match s.on_prompt_hook(said(" ctx two ")) {
        SubmissionAction::Send(request) => {
            assert_eq!(request.messages[1].text(), "look\n\nctx one\n\nctx two")
        }
        _ => panic!("expected a request"),
    }

    let action = s.on_reply(Ok((calls(&[("1", "read"), ("2", "ls")]), usage(1, 1))));
    let action = settle(&mut s, action);
    assert_eq!(ran(&action), "pre");
    let action = s.on_pre_tool_hook(HookResult::Blocked { stderr: "no reading".to_string() });
    assert!(
        matches!(settle(&mut s, action), SubmissionAction::Preview { tool: 1, .. }),
        "the vetoed call never runs, and no hook concerns the next one"
    );
    assert!(matches!(s.on_preview(None), SubmissionAction::Execute { tool: 1, .. }));
    let action = s.on_execution(Err("no such dir".to_string()));
    assert_eq!(ran(&action), "post");
    match action {
        SubmissionAction::RunHook {
            payload: HookPayload::PostToolUse { tool_name, tool_output, is_error, .. },
            ..
        } => {
            assert_eq!(tool_name, "ls");
            assert_eq!(tool_output, "no such dir");
            assert!(is_error);
        }
        _ => panic!("expected the tool's payload"),
    }
    let action = s.on_post_tool_hook();
    assert!(matches!(settle(&mut s, action), SubmissionAction::Send(_)));
    let action = s.on_reply(Ok((Message::assistant_text("done"), usage(2, 2))));
    assert_eq!(ran(&action), "stop");
    assert_eq!(s.session.turn_index, 0);
    match s.on_stop_hook() {
        SubmissionAction::RecordTurn(turn) => {
            assert_eq!(turn.spent, usage(3, 3));
            assert_eq!(turn.shown, usage(2, 2));
            assert_eq!(turn.record.len(), 4);
        }
        _ => panic!("expected the turn to be recorded"),
    }
    assert_eq!(s.session.turn_index, 1);
    assert_eq!(finish(s.on_choice(false)).0, Ok("done".to_string()));
}

#[test]
fn a_rejected_prompt_leaves_the_session_as_it_was() {
    let mut hooks: TextMap<Vec<HookEntry>> = TextMap::new();
    hooks.insert("UserPromptSubmit".to_string(), vec![hook("p", None)]);
    let mut s = Submission::new(session(hooks, None), "look".to_string(), Vec::new());
    s.begin();
    let (result, _) =
        finish(s.on_prompt_hook(HookResult::Blocked { stderr: "not now".to_string() }));
    assert_eq!(result, Err("not now".to_string()));
    assert!(s.session.transcript.is_empty());
    assert_eq!(s.session.turn_index, 0);
    assert_eq!(s.stage, Stage::Over);
}

#[test]
fn a_failed_call_keeps_what_was_said() {
    let mut s = Submission::new(session(TextMap::new(), None), "go".to_string(), Vec::new());
    s.begin();
    let (result, _) = finish(s.on_reply(Err("no network".to_string())));
    assert_eq!(result, Err("no network".to_string()));
    assert_eq!(s.session.transcript.len(), 1);
    assert_eq!(s.session.turn_index, 0);
    assert_eq!(s.session.last_turn_usage, None);
}

#[test]
fn provider_calls_are_limited() {
    let mut s =
        Submission::new(session(TextMap::new(), Some(1)), "go".to_string(), vec![spec("read")]);
    assert!(matches!(s.begin(), SubmissionAction::Send(_)));
    let action = s.on_reply(Ok((calls(&[("1", "read")]), usage(1, 1))));
    assert!(matches!(settle(&mut s, action), SubmissionAction::Preview { .. }));
    s.on_preview(None);
    let action = s.on_execution(Ok("x".to_string()));
    let (result, _) = finish(settle(&mut s, action));
    assert_eq!(
        result,
        Err("the tool loop reached its limit of 1 provider calls".to_string())
    );
    assert_eq!(s.session.transcript.len(), 3);
}

fn after_two_turns() -> Submission {
    let mut before = session(TextMap::new(), None);
    before.transcript =
        vec![Message::user_text("first turn"), Message::assistant_text("first reply")];
    before.turn_index = 1;
    let mut s = Submission::new(before, "second turn".to_string(), Vec::new());
    s.begin();
    s.on_reply(Ok((Message::assistant_text("second reply"), Usage::default())));
    s
}

#[test]
fn a_long_conversation_is_compacted_after_the_turn() {
    let mut s = after_two_turns();
    match s.on_choice(true) {
        SubmissionAction::Summarize(request) => {
            assert!(request[1].text().contains("first turn"));
            assert!(!request[1].text().contains("second turn"));
        }
        _ => panic!("expected a summary to be asked for"),
    }
    let (result, record) = finish(s.on_summary(Ok(Message::assistant_text("in short"))));
    assert_eq!(result, Ok("second reply".to_string()));
    assert_eq!(record, Some(("in short".to_string(), 0)));
    assert_eq!(s.session.transcript.len(), 3);
    assert_eq!(s.session.turn_index, 2);
}

#[test]
fn compact_transcript_leaves_transcript_intact_on_provider_failure() {
    let mut s = after_two_turns();
    s.on_choice(true);
    let before = s.session.transcript.len();
    let (result, record) = finish(s.on_summary(Err("quota".to_string())));
    assert_eq!(
        result,
        Ok("[auto-compaction failed, continuing with full history: quota]\nsecond reply"
            .to_string())
    );
    assert_eq!(record, None);
    assert_eq!(s.session.transcript.len(), before);
}

#[test]
fn a_single_turn_is_never_compacted() {
    let mut s = Submission::new(session(TextMap::new(), None), "only".to_string(), Vec::new());
    s.begin();
    s.on_reply(Ok((Message::assistant_text("reply"), Usage::default())));
    assert_eq!(finish(s.on_choice(true)).0, Ok("reply".to_string()));
}

#[test]
fn silent_calls_fall_back_to_the_last_known_figure() {
    let mut r = session(TextMap::new(), None);
    let start = r.begin_turn("one");
    assert_eq!(start, 0);
    let mut spent = TurnUsage::start();
    spent.add_call(usage(7, 3));
    let mut transcript = vec![Message::user_text("one")];
    transcript.push(Message::assistant_text("a"));
    let end = r.end_turn(transcript, start, spent);
    assert_eq!(end.shown, usage(7, 3));
    assert_eq!(r.last_known_usage, Some(usage(7, 3)));

    let start = r.begin_turn("two");
    assert_eq!(start, 2);
    let transcript = vec![
        Message::user_text("one"),
        Message::assistant_text("a"),
        Message::user_text("two"),
    ];
    let mut spent = TurnUsage::start();
    spent.add_call(Usage::default());
    let end = r.end_turn(transcript, start, spent);
    assert_eq!(end.shown, usage(7, 3));
    assert_eq!(end.estimate, TokenEstimate::Reported(10));
    assert_eq!(end.record, vec![Message::user_text("two")]);
    assert_eq!(r.last_known_usage, Some(usage(7, 3)));
    assert_eq!(r.turn_index, 2);
    assert_eq!(r.total_usage(), Usage::default());
}

#[test]
fn sums_that_cannot_be_held_stay_at_the_greatest_number() {
    let mut spent = TurnUsage::start();
    spent.add_call(usage(u64::MAX, 1));
    spent.add_call(usage(2, 2));
    assert_eq!(spent.cumulative, usage(u64::MAX, 3));
    assert_eq!(spent.final_call, usage(2, 2));
}

#[test]
fn a_session_answers_requests_by_its_grants() {
    let mut r = session(TextMap::new(), None);
    r.mcp_http_origins.insert("remote".to_string(), "https://r.example".to_string());
    let request = PermissionRequest {
        tool_name: "mcp__remote__echo".to_string(),
        payload: PermissionPayload::ToolCall {
            server: "remote".to_string(),
            tool: "echo".to_string(),
            input_pretty: "{}".to_string(),
        },
    };
    match r.request_permission(&request) {
        PermissionStep::Ask(prompt) => assert_eq!(
            prompt.detail,
            PermissionDetail::Text(
                "server: remote\ntool: echo\ninput: {}\norigin: https://r.example".to_string()
            )
        ),
        other => panic!("expected a prompt, got {other:?}"),
    }
    assert!(r.on_decision("mcp__remote__echo", PermissionDecision::Allow));
    assert!(matches!(r.request_permission(&request), PermissionStep::Ask(_)));
    assert!(!r.on_decision("mcp__remote__echo", PermissionDecision::Deny));
    assert!(r.on_decision("mcp__remote__echo", PermissionDecision::AllowAndRemember));
    assert!(matches!(r.request_permission(&request), PermissionStep::Granted));
}

#[test]
fn prompts_show_what_a_call_would_do() {
    assert_eq!(
        format_tool_call_permission_text("s", "t", "{\n}", None),
        "server: s\ntool: t\ninput: {\n}"
    );
    assert_eq!(
        permission_detail(&PermissionPayload::Command("ls -l".to_string()), &TextMap::new()),
        PermissionDetail::Text("ls -l".to_string())
    );
}

#[test]
fn only_edits_leave_something_to_keep() {
    let diff = |old: &str| PermissionPayload::Diff {
        path: "a.rs".to_string(),
        old: old.to_string(),
        new: "n".to_string(),
    };
    assert_eq!(
        capture_checkpoint_if_granted_diff(&diff("o")),
        Some(("a.rs".to_string(), Some("o".to_string())))
    );
    assert_eq!(
        capture_checkpoint_if_granted_diff(&diff("")),
        Some(("a.rs".to_string(), None))
    );
    assert_eq!(
        capture_checkpoint_if_granted_diff(&PermissionPayload::Command("x".to_string())),
        None
    );
}

#[test]
fn tiers_have_their_tools() {
    let mcp = vec!["mcp__s__t".to_string()];
    assert_eq!(
        session_tool_names(AgentTier::Plan, true, &mcp),
        vec!["read", "glob", "grep", "ls"]
    );
    assert_eq!(
        session_tool_names(AgentTier::Build, false, &mcp),
        vec![
            "read", "glob", "grep", "ls", "bash", "write", "edit", "webfetch", "subagent",
            "mcp__s__t"
        ]
    );
    assert_eq!(
        session_tool_names(AgentTier::Build, true, &mcp)[9..],
        ["websearch".to_string(), "mcp__s__t".to_string()]
    );
}

#[test]
fn compactions_are_recorded_by_turn() {
    let mut r = session(TextMap::new(), None);
    r.turn_index = 3;
    let kept = vec![Message::user_text("plain")];
    let end = r.end_compaction(Ok(CompactionOutcome::Compacted(kept)));
    assert_eq!(end.record, Some(("plain".to_string(), 1)));
    assert_eq!(end.notice, None);
    assert_eq!(r.transcript.len(), 1);
    let end = r.end_compaction(Ok(CompactionOutcome::NothingToCompact));
    assert_eq!((end.record, end.notice), (None, None));
    let end = r.end_compaction(Err("e".to_string()));
    assert_eq!(
        end.notice,
        Some("[auto-compaction failed, continuing with full history: e]".to_string())
    );
}

#[test]
fn prompts_join_the_conversation() {
    let mut transcript = Vec::new();
    accumulate_user_turn(&mut transcript, "hi");
    assert_eq!(transcript, vec![Message::user_text("hi")]);
}

#[test]
fn timestamps_are_whole_seconds() {
    assert_eq!(timestamp_of(Some(0)), "0");
    assert_eq!(timestamp_of(Some(1_700_000_000)), "1700000000");
    assert_eq!(timestamp_of(None), "0");
    let now: u64 = now_timestamp().parse().expect("a number of seconds");
    assert!(now > 1_600_000_000);
}

#[test]
fn resume_flags_choose_a_session() {
    assert_eq!(resume_mode(None, false), ResumeMode::Fresh);
    assert_eq!(resume_mode(None, true), ResumeMode::Continue);
    assert_eq!(resume_mode(Some("01ABCDEF"), false), ResumeMode::Id("01ABCDEF".to_string()));
    assert_eq!(resume_mode(Some("01ABCDEF"), true), ResumeMode::Id("01ABCDEF".to_string()));
    assert_eq!(AgentTier::Plan.prompt_name(), "plan");
    assert_eq!(AgentTier::Build.prompt_name(), "build");
}

fn subagent(mode: Option<PermissionMode>, tool: &str) -> SubagentRun {
    let call = SubagentCall { name: "scout".to_string(), task: "look around".to_string() };
    let (run, action) =
        SubagentRun::new(call, "You scout.".to_string(), vec![spec(tool)], mode, 7);
    match action {
        SubagentAction::Send(request) => {
            assert_eq!(request.messages[0].text(), "You scout.");
            assert_eq!(request.messages[1].text(), "look around");
        }
        _ => panic!("expected a request"),
    }
    run
}

#[test]
fn subagent_tool_returns_only_final_text_not_internal_turns() {
    let mut run = subagent(None, "read");
    let reply = calls(&[("call_1", "read")]);
    assert!(matches!(run.on_reply(Ok((reply, usage(1, 1)))), SubagentAction::Continue));
    assert!(matches!(run.proceed(), SubagentAction::Preview { tool: 0, .. }));
    assert!(matches!(
        run.on_preview(None, &SessionGrants::new()),
        SubagentAction::Execute { tool: 0, .. }
    ));
    assert!(matches!(
        run.on_execution(Ok("some file contents".to_string())),
        SubagentAction::Continue
    ));
    assert!(matches!(run.proceed(), SubagentAction::Send(_)));
    match run.on_reply(Ok((Message::assistant_text("subagent's final answer"), usage(1, 1)))) {
        SubagentAction::Finish(Ok(text)) => assert_eq!(text, "subagent's final answer"),
        _ => panic!("expected the final text"),
    }
}

#[test]
fn subagent_gated_tool_call_surfaces_permission_request_tagged_with_subagent_name() {
    let mut run = subagent(None, "fake_gated");
    run.on_reply(Ok((calls(&[("1", "fake_gated")]), usage(1, 1))));
    run.proceed();
    let payload = PermissionPayload::Command("fake command".to_string());
    match run.on_preview(Some(Ok(payload)), &SessionGrants::new()) {
        SubagentAction::Ask(request) => {
            assert_eq!(request.tool_name, "fake_gated (subagent: scout)");
            assert_eq!(request.payload, PermissionPayload::Command("fake command".to_string()));
        }
        _ => panic!("expected the user to be asked"),
    }
    assert!(matches!(run.on_permission(true), SubagentAction::Execute { tool: 0, .. }));
}

#[test]
fn subagent_deny_mode_never_reaches_request_permission_callback() {
    let mut run = subagent(Some(PermissionMode::Deny), "fake_gated");
    run.on_reply(Ok((calls(&[("1", "fake_gated")]), usage(1, 1))));
    run.proceed();
    let payload = PermissionPayload::Command("fake command".to_string());
    assert!(matches!(
        run.on_preview(Some(Ok(payload)), &SessionGrants::new()),
        SubagentAction::Refused
    ));
    match run.proceed() {
        SubagentAction::Send(request) => match &request.messages.last().unwrap().content[..] {
            [ContentBlock::ToolResult { content, is_error: true, .. }] => {
                assert_eq!(content, "permission denied by user")
            }
            other => panic!("got {other:?}"),
        },
        _ => panic!("expected the refusal to go back"),
    }
    match run.on_reply(Err("down".to_string())) {
        SubagentAction::Finish(Err(error)) => {
            assert_eq!(error, ToolError::ExecutionFailed("down".to_string()))
        }
        _ => panic!("expected the error"),
    }
}

#[test]
fn session_grants_count_for_subagents() {
    let request = || PermissionRequest {
        tool_name: "bash".to_string(),
        payload: PermissionPayload::Command("ls".to_string()),
    };
    let mut grants = SessionGrants::new();
    assert!(matches!(subagent_gate(None, request(), "s", &grants), SubagentGate::Prompt(_)));
    assert!(matches!(
        subagent_gate(Some(PermissionMode::Bypass), request(), "s", &grants),
        SubagentGate::Allow
    ));
    grants.grant("bash");
    assert!(matches!(subagent_gate(None, request(), "s", &grants), SubagentGate::Allow));
    assert_eq!(tag_permission_request(request(), "s").tool_name, "bash (subagent: s)");
}

#[test]
fn subagents_read_a_repository_unasked() {
    let request = |command: &str| PermissionRequest {
        tool_name: "bash".to_string(),
        payload: PermissionPayload::Command(command.to_string()),
    };
    let none = SessionGrants::new();
    assert!(matches!(subagent_gate(None, request("git diff"), "s", &none), SubagentGate::Allow));
    assert!(matches!(
        subagent_gate(None, request("git commit -m x"), "s", &none),
        SubagentGate::Prompt(_)
    ));
    assert!(matches!(
        subagent_gate(Some(PermissionMode::Deny), request("git diff"), "s", &none),
        SubagentGate::Deny
    ));
    let elsewhere = PermissionRequest {
        tool_name: "mcp__srv__run".to_string(),
        payload: PermissionPayload::Command("git diff".to_string()),
    };
    assert!(matches!(subagent_gate(None, elsewhere, "s", &none), SubagentGate::Prompt(_)));
    let diff = PermissionPayload::Diff {
        path: "p".to_string(),
        old: "a".to_string(),
        new: "b".to_string(),
    };
    assert_eq!(diff.command(), None);
    assert_eq!(request("git diff").payload.command(), Some("git diff"));

    let mut run = subagent(None, "bash");
    run.on_reply(Ok((calls(&[("1", "bash")]), usage(1, 1))));
    run.proceed();
    assert!(matches!(
        run.on_preview(Some(Ok(PermissionPayload::Command("git status".to_string()))), &none),
        SubagentAction::Execute { tool: 0, .. }
    ));
}

#[test]
fn subagent_calls_are_read_from_json() {
    assert_eq!(
        parse_subagent_input("{\"name\": \"scout\", \"task\": \"a \\\"b\\\"\"}"),
        Ok(SubagentCall { name: "scout".to_string(), task: "a \"b\"".to_string() })
    );
    let invalid = |m: &str| Err(ToolError::InvalidInput(m.to_string()));
    assert_eq!(parse_subagent_input("{\"task\": \"t\"}"), invalid("missing 'name' field"));
    assert_eq!(parse_subagent_input("{\"name\": 1}"), invalid("missing 'name' field"));
    assert_eq!(parse_subagent_input("{\"name\": \"n\"}"), invalid("missing 'task' field"));
    assert_eq!(parse_subagent_input("not json"), invalid("missing 'name' field"));
    assert_eq!(parse_subagent_input("[]"), invalid("missing 'name' field"));
    assert_eq!(
        prompt_failure("scout", "gone"),
        ToolError::ExecutionFailed("failed to load subagent 'scout' prompt: gone".to_string())
    );
}

#[test]
fn the_subagent_tool_is_advertised_with_a_valid_schema() {
    let spec = subagent_tool_spec();
    assert_eq!(spec.name, "subagent");
    let schema: serde_json::Value = serde_json::from_str(&spec.input_schema).unwrap();
    assert_eq!(schema["type"], "object");
    assert_eq!(schema["properties"]["name"]["type"], "string");
    assert_eq!(schema["properties"]["task"]["type"], "string");
    assert_eq!(schema["required"][0], "name");
    assert_eq!(schema["required"][1], "task");
    assert_eq!(schema.to_string(), spec.input_schema, "the schema is held as compact text");
    assert!(!subagent_tool_names().contains(&"subagent".to_string()));
}

#[test]
fn a_granted_edit_of_a_subagent_is_kept() {
    let edit = || PermissionPayload::Diff {
        path: "/w/a.txt".to_string(),
        old: "before".to_string(),
        new: "after".to_string(),
    };
    let mut run = subagent(None, "edit");
    run.on_reply(Ok((calls(&[("1", "edit")]), usage(1, 1))));
    run.proceed();
    assert!(matches!(
        run.on_preview(Some(Ok(edit())), &SessionGrants::new()),
        SubagentAction::Ask(_)
    ));
    match run.on_permission(true) {
        SubagentAction::Execute { tool: 0, checkpoint: Some(kept), .. } => {
            assert_eq!(kept.turn_index, 7);
            assert_eq!(kept.path, "/w/a.txt");
            assert_eq!(kept.old, Some("before".to_string()));
        }
        _ => panic!("expected the edit, with what the file holds"),
    }

    let mut run = subagent(None, "bash");
    run.on_reply(Ok((calls(&[("1", "bash")]), usage(1, 1))));
    run.proceed();
    run.on_preview(
        Some(Ok(PermissionPayload::Command("ls".to_string()))),
        &SessionGrants::new(),
    );
    assert!(matches!(
        run.on_permission(true),
        SubagentAction::Execute { checkpoint: None, .. }
    ));

    let mut run = subagent(None, "edit");
    run.on_reply(Ok((calls(&[("1", "edit")]), usage(1, 1))));
    run.proceed();
    run.on_preview(Some(Ok(edit())), &SessionGrants::new());
    assert!(matches!(run.on_permission(false), SubagentAction::Continue));
}

fn two_subagents(hooks: TextMap<Vec<HookEntry>>) -> Submission {
    let mut s = Submission::new(
        session(hooks, None),
        "run two subagents concurrently".to_string(),
        vec![spec("read"), spec("subagent")],
    );
    s.begin();
    let mut reply = calls(&[("call_a", "subagent"), ("call_b", "subagent")]);
    for (block, task) in reply.content.iter_mut().zip(["task-a", "task-b"]) {
        if let ContentBlock::ToolUse { input, .. } = block {
            *input = format!("{{\"name\":\"researcher\",\"task\":\"{task}\"}}");
        }
    }
    assert!(matches!(s.on_reply(Ok((reply, usage(1, 1)))), SubmissionAction::Continue));
    s
}

#[test]
fn two_concurrent_subagent_tool_calls_in_one_reply_are_dispatched_concurrently() {
    let mut s = two_subagents(TextMap::new());
    for _ in 0..2 {
        assert!(matches!(s.proceed(), SubmissionAction::Preview { tool: 1, .. }));
        assert!(matches!(s.on_preview(None), SubmissionAction::Continue));
    }
    match s.proceed() {
        SubmissionAction::ExecuteTogether(batch) => {
            assert_eq!(batch.len(), 2);
            for (errand, task) in batch.iter().zip(["task-a", "task-b"]) {
                assert_eq!(errand.tool, 1);
                assert_eq!(errand.name, "subagent");
                assert_eq!(
                    errand.input,
                    format!("{{\"name\":\"researcher\",\"task\":\"{task}\"}}")
                );
            }
        }
        _ => panic!("expected both calls at once"),
    }
    let action = s.on_together(vec![
        Ok("final answer for: task-a".to_string()),
        Err("down".to_string()),
    ]);
    assert!(matches!(action, SubmissionAction::Continue));
    match s.proceed() {
        SubmissionAction::Send(request) => match &request.messages.last().unwrap().content[..] {
            [ContentBlock::ToolResult { tool_use_id: a, content: x, is_error: false, .. }, ContentBlock::ToolResult { tool_use_id: b, content: y, is_error: true, .. }] =>
            {
                assert_eq!((a.as_str(), x.as_str()), ("call_a", "final answer for: task-a"));
                assert_eq!((b.as_str(), y.as_str()), ("call_b", "down"));
            }
            other => panic!("got {other:?}"),
        },
        _ => panic!("expected the results to go back"),
    }
    match s.on_reply(Ok((Message::assistant_text("top-level done"), usage(1, 1)))) {
        SubmissionAction::RecordTurn(_) => {}
        _ => panic!("expected the turn to end"),
    }
    assert_eq!(s.answer, "top-level done");
}

#[test]
fn hooks_are_told_of_calls_that_ran_together() {
    let mut hooks: TextMap<Vec<HookEntry>> = TextMap::new();
    hooks.insert("PreToolUse".to_string(), vec![hook("pre", None)]);
    hooks.insert("PostToolUse".to_string(), vec![hook("p1", None), hook("p2", None)]);
    let mut s = two_subagents(hooks);
    for _ in 0..2 {
        assert!(matches!(s.proceed(), SubmissionAction::RunHook { .. }));
        assert!(matches!(s.on_pre_tool_hook(said("")), SubmissionAction::Preview { .. }));
        assert!(matches!(s.on_preview(None), SubmissionAction::Continue));
    }
    assert!(matches!(s.proceed(), SubmissionAction::ExecuteTogether(_)));
    let mut action = s.on_together(vec![Ok("a".to_string()), Err("b".to_string())]);
    let mut told = Vec::new();
    while let SubmissionAction::RunHook { command, payload, .. } = action {
        match payload {
            HookPayload::PostToolUse { tool_output, is_error, .. } => {
                told.push((command, tool_output, is_error))
            }
            _ => panic!("expected a hook on a tool that has run"),
        }
        action = s.on_post_tool_hook();
    }
    assert!(matches!(action, SubmissionAction::Continue));
    let expected: Vec<(String, String, bool)> =
        [("p1", "a", false), ("p2", "a", false), ("p1", "b", true), ("p2", "b", true)]
            .iter()
            .map(|(c, o, e)| (c.to_string(), o.to_string(), *e))
            .collect();
    assert_eq!(told, expected);
    assert!(matches!(s.proceed(), SubmissionAction::Send(_)));
}

#[test]
fn calls_that_cannot_overlap_close_the_group() {
    let mut s = Submission::new(
        session(TextMap::new(), None),
        "go".to_string(),
        vec![spec("read"), spec("subagent")],
    );
    s.begin();
    let reply = calls(&[
        ("1", "subagent"),
        ("2", "read"),
        ("3", "subagent"),
        ("4", "subagent"),
    ]);
    s.on_reply(Ok((reply, usage(1, 1))));
    s.proceed();
    s.on_preview(None);
    match s.proceed() {
        SubmissionAction::ExecuteTogether(batch) => assert_eq!(batch.len(), 1),
        _ => panic!("expected the first subagent before the read"),
    }
    s.on_together(vec![Ok("one".to_string())]);
    assert!(matches!(s.proceed(), SubmissionAction::Preview { tool: 0, .. }));
    assert!(matches!(s.on_preview(None), SubmissionAction::Execute { tool: 0, .. }));
    s.on_execution(Ok("two".to_string()));
    s.proceed();
    s.on_preview(None);
    s.proceed();
    assert!(matches!(s.on_preview(Some(Err("bad".to_string()))), SubmissionAction::Continue));
    match s.proceed() {
        SubmissionAction::ExecuteTogether(batch) => assert_eq!(batch.len(), 1),
        _ => panic!("expected the third call alone"),
    }
    s.on_together(vec![Ok("three".to_string())]);
    match s.proceed() {
        SubmissionAction::Send(request) => {
            let said: Vec<(String, String)> = request
                .messages
                .last()
                .unwrap()
                .content
                .iter()
                .map(|block| match block {
                    ContentBlock::ToolResult { tool_use_id, content, .. } => {
                        (tool_use_id.clone(), content.clone())
                    }
                    other => panic!("got {other:?}"),
                })
                .collect();
            let expected: Vec<(String, String)> =
                [("1", "one"), ("2", "two"), ("3", "three"), ("4", "bad")]
                    .iter()
                    .map(|(a, b)| (a.to_string(), b.to_string()))
                    .collect();
            assert_eq!(said, expected);
        }
        _ => panic!("expected all results"),
    }
}

#[test]
fn without_a_provider_nothing_happens_to_the_session() {
    let mut before = session(TextMap::new(), None);
    before.turn_index = 3;
    before.transcript.push(Message::user_text("earlier"));
    match open_submission(before, Err("no key".to_string()), "go".to_string(), vec![spec("read")]) {
        Opening::Unprovided { session, error } => {
            assert_eq!(error, "no key");
            assert_eq!(session.turn_index, 3);
            assert_eq!(session.transcript.len(), 1);
        }
        Opening::Ready(_) => panic!("expected the reason"),
    }
    match open_submission(
        session(TextMap::new(), None),
        Ok(()),
        "go".to_string(),
        vec![spec("read")],
    ) {
        Opening::Ready(mut s) => assert!(matches!(s.begin(), SubmissionAction::Send(_))),
        Opening::Unprovided { .. } => panic!("expected a submission"),
    }
}
