use rokr::assertions::{
    check_assertion, check_command_exit, check_file_contains, check_file_exists, check_git_diff,
    probe, AssertionOutcome, Probe, Seen,
};
use rokr::case::{
    case_files, cases_dir_error, load_case, setup_error, setup_target, Assertion, Case,
    CaseAgentTier, CaseFile, CasePermissionMode, CaseRead, LoadedCase, SetupFailure, SetupFile,
};
use rokr::cli::{AgentTier, PermissionMode};
use rokr::eval::{
    bootstrap_message, case_outcome, case_run, judged_text, report_counts, CaseChecks,
    CaseOutcome, CheckAction, EvalRun, RunSummary,
};
use rokr::headless::BootstrapError;
use rokr::io_failure::IoFailure;
use rokr::judge::{
    first_choice, judge_call, score_label, verdict_json, JudgeError, ENV_API_KEY, ENV_BASE_URL,
    ENV_MODEL,
};
use rokr::result_schema::UsageObject;

fn case(mode: CasePermissionMode, assertions: Vec<Assertion>) -> Case {
    Case {
        prompt: "say hi".to_string(),
        setup_files: Vec::new(),
        agent: CaseAgentTier::Build,
        permission_mode: mode,
        model: "gpt-4o-mini".to_string(),
        provider: None,
        assertions,
    }
}

fn summary(result: &str, turns: u32, tokens: u64) -> RunSummary<f64> {
    RunSummary {
        result: result.to_string(),
        cost_usd: 0.5,
        num_turns: turns,
        usage: UsageObject {
            input_tokens: tokens,
            output_tokens: 1,
            cache_read_tokens: 2,
            cache_write_tokens: 3,
        },
    }
}

#[test]
fn file_exists_assertion_passes_when_file_present_and_fails_when_absent() {
    let passing = check_file_exists("/f", "present.txt", true);
    assert!(passing.passed, "expected file_exists to pass for a present file, got: {passing:?}");
    assert_eq!(passing.description, "file_exists(present.txt)");
    assert_eq!(passing.detail, "found /f/present.txt");

    let failing = check_file_exists("/f", "absent.txt", false);
    assert!(!failing.passed, "expected file_exists to fail for an absent file, got: {failing:?}");
    assert_eq!(failing.detail, "not found: /f/absent.txt");
}

#[test]
fn git_diff_assertion_matches_expected_diff_and_fails_on_mismatch() {
    let actual_diff = "diff --git a/t b/t\n+line two\n".to_string();

    let passing = check_git_diff("/f", &format!("\n{actual_diff}\n\n"), &Ok(actual_diff.clone()));
    assert!(
        passing.passed,
        "expected git_diff to pass when expected matches the real diff, got: {passing:?}"
    );
    assert_eq!(passing.detail, "diff matches expected");

    let failing = check_git_diff("/f", "this is not the real diff at all", &Ok(actual_diff));
    assert!(
        !failing.passed,
        "expected git_diff to fail on a mismatched expected diff, got: {failing:?}"
    );
    assert_eq!(
        failing.detail,
        "diff mismatch; actual diff was:\ndiff --git a/t b/t\n+line two\n"
    );
    let broken = check_git_diff("/f", "", &Err("no git".to_string()));
    assert!(!broken.passed);
    assert_eq!(broken.detail, "failed to run `git diff` in /f: no git");
}

#[test]
fn command_exit_assertion_passes_on_expected_code_and_fails_otherwise() {
    let passing = check_command_exit("/f", "sh", 3, &Ok(Some(3)));
    assert!(
        passing.passed,
        "expected command_exit to pass when the command's exit code matches, got: {passing:?}"
    );
    assert_eq!(passing.description, "command_exit(sh)");
    assert_eq!(passing.detail, "expected exit code 3, got 3");

    let failing = check_command_exit("/f", "sh", 0, &Ok(Some(3)));
    assert!(
        !failing.passed,
        "expected command_exit to fail when the command's exit code doesn't match, got: {failing:?}"
    );
}

#[test]
fn a_killed_command_never_passes() {
    let killed = check_command_exit("/f", "sh", -1, &Ok(None));
    assert!(!killed.passed);
    assert_eq!(killed.detail, "expected exit code -1, got -1");
    let broken = check_command_exit("/f", "sh", 0, &Err("not found".to_string()));
    assert!(!broken.passed);
    assert_eq!(broken.detail, "failed to run `sh` in /f: not found");
}

#[test]
fn check_assertion_reports_failed_outcome_for_judge_rubric_instead_of_panicking() {
    let assertion =
        Assertion::JudgeRubric { rubric: "did the agent do a good job?".to_string() };

    let outcome = check_assertion("/f", &assertion, &Seen::Nothing);

    assert!(!outcome.passed);
    assert!(!outcome.detail.is_empty(), "expected an explanatory detail string, got an empty one");
    assert!(
        outcome.detail.contains("judge") || outcome.detail.contains("score_rubric"),
        "expected the detail to explain that judge-rubric assertions are scored elsewhere, got: \
         {:?}",
        outcome.detail
    );
    assert_eq!(outcome.description, "judge_rubric(\"did the agent do a good job?\")");
}

#[test]
fn file_contents_are_searched_literally() {
    let found = check_file_contains("/f", "a.txt", "x.y", &Ok("ax.yb".to_string()));
    assert!(found.passed);
    assert_eq!(found.description, "file_contains(a.txt, \"x.y\")");
    assert_eq!(found.detail, "pattern found");
    let missing = check_file_contains("/f", "a.txt", "x.y", &Ok("axzyb".to_string()));
    assert!(!missing.passed);
    assert_eq!(missing.detail, "pattern not found in /f/a.txt");
    let unread = check_file_contains("/f", "a.txt", "", &Err("denied".to_string()));
    assert!(!unread.passed);
    assert_eq!(unread.detail, "failed to read /f/a.txt: denied");
}

#[test]
fn probes_look_where_the_assertion_points() {
    match probe("/f", &Assertion::FileExists { path: "a/b".to_string() }) {
        Probe::Exists(path) => assert_eq!(path, "/f/a/b"),
        other => panic!("got {other:?}"),
    }
    match probe("/f", &Assertion::FileExists { path: "/abs".to_string() }) {
        Probe::Exists(path) => assert_eq!(path, "/abs"),
        other => panic!("got {other:?}"),
    }
    match probe(
        "/f",
        &Assertion::CommandExit {
            command: "sh".to_string(),
            args: vec!["-c".to_string(), "exit 3".to_string()],
            expected_code: 3,
        },
    ) {
        Probe::Exit { dir, command, args } => {
            assert_eq!(dir, "/f");
            assert_eq!(command, "sh");
            assert_eq!(args, vec!["-c", "exit 3"]);
        }
        other => panic!("got {other:?}"),
    }
}

#[test]
fn eval_run_bypass_case_without_operator_flag_fails_and_never_runs_headless_turn() {
    let bypass = case(CasePermissionMode::Bypass, Vec::new());
    assert_eq!(
        case_run(&bypass, false).unwrap_err(),
        "case requests bypass but --dangerously-skip-permissions was not passed"
    );
    let refused: CaseOutcome<f64, f64> = case_outcome(
        "bypass".to_string(),
        "/f".to_string(),
        Err(case_run(&bypass, false).unwrap_err()),
        0.0,
        Vec::new(),
        Vec::new(),
    );
    assert!(!refused.passed);
    assert_eq!(refused.num_turns, 0);
    assert_eq!(refused.cost_usd, 0.0);
    assert_eq!(refused.usage, UsageObject::default());
    assert!(refused.run_error.unwrap().contains("--dangerously-skip-permissions"));
}

#[test]
fn eval_run_bypass_case_with_operator_flag_is_honored() {
    let run = case_run(&case(CasePermissionMode::Bypass, Vec::new()), true).unwrap();
    assert_eq!(run.permission_mode, PermissionMode::Bypass);
    assert!(run.dangerously_skip_permissions);
    assert_eq!(run.agent, AgentTier::Build);
    let pinned = case(CasePermissionMode::Deny, Vec::new());
    let run = case_run(&pinned, false).unwrap();
    assert_eq!(run.model, pinned.model);
    assert_eq!(run.provider, pinned.provider);

    for mode in [CasePermissionMode::Deny, CasePermissionMode::AcceptEdits] {
        for flag in [false, true] {
            let run = case_run(&case(mode, Vec::new()), flag).unwrap();
            assert_eq!(run.permission_mode, mode.to_permission_mode());
            assert!(!run.dangerously_skip_permissions, "the flag is for bypass cases alone");
        }
    }
    assert_eq!(CaseAgentTier::Plan.to_agent_tier(), AgentTier::Plan);
}

#[test]
fn case_with_scripted_judge_response_contributes_score_without_affecting_deterministic_pass_fail() {
    let assertions = vec![
        Assertion::FileExists { path: "a".to_string() },
        Assertion::JudgeRubric { rubric: "good?".to_string() },
        Assertion::JudgeRubric { rubric: "kind?".to_string() },
        Assertion::GitDiff { expected: String::new() },
    ];
    let mut checks: CaseChecks<f64> = CaseChecks::new("/f".to_string(), assertions);
    match checks.action() {
        CheckAction::Look(Probe::Exists(path)) => assert_eq!(path, "/f/a"),
        other => panic!("got {other:?}"),
    }
    checks.on_seen(&Seen::Exists(true));
    match checks.action() {
        CheckAction::Score(rubric) => assert_eq!(rubric, "good?"),
        other => panic!("got {other:?}"),
    }
    checks.on_score(Some(0.25));
    assert!(matches!(checks.action(), CheckAction::Score(_)));
    checks.on_score(None);
    assert!(matches!(checks.action(), CheckAction::Look(Probe::Diff(_))));
    checks.on_seen(&Seen::Diff(Ok("\n".to_string())));
    assert!(matches!(checks.action(), CheckAction::Done));
    assert_eq!(checks.outcomes.len(), 2);
    assert_eq!(checks.scores, vec![0.25]);

    let outcome = case_outcome(
        "c".to_string(),
        "/f".to_string(),
        Ok(summary("done", 2, 10)),
        0.0,
        checks.outcomes,
        checks.scores,
    );
    assert!(outcome.passed, "a low score is no failure");
    assert_eq!(outcome.judge_scores, vec![0.25]);
    assert_eq!(outcome.num_turns, 2);
    assert_eq!(outcome.cost_usd, 0.5);
    assert_eq!(outcome.run_error, None);
}

fn reported(passed: bool, score: Option<f64>) -> CaseOutcome<f64, f64> {
    case_outcome(
        "case".to_string(),
        "/tmp/fixture".to_string(),
        Ok(summary("done", 1, 10)),
        0.0,
        vec![AssertionOutcome {
            description: "file_exists(marker.txt)".to_string(),
            passed,
            detail: String::new(),
        }],
        score.into_iter().collect(),
    )
}

fn pass_rate(outcomes: &Vec<CaseOutcome<f64, f64>>) -> f64 {
    let counts = report_counts(outcomes);
    counts.passed_cases as f64 / counts.total_cases as f64
}

#[test]
fn aggregate_pass_rate_computed_from_deterministic_outcomes_only_excluding_judge_scores() {
    let rate = pass_rate(&vec![
        reported(true, Some(0.1)),
        reported(true, Some(0.2)),
        reported(false, Some(0.9)),
    ]);
    assert!(
        (rate - (2.0 / 3.0)).abs() < f64::EPSILON,
        "expected pass rate 2/3 from deterministic outcomes alone, got {rate}"
    );
    let rate_reversed = pass_rate(&vec![
        reported(true, Some(0.9)),
        reported(true, Some(0.9)),
        reported(false, Some(0.1)),
    ]);
    assert!((rate_reversed - rate).abs() < f64::EPSILON);
    let rate_no_scores =
        pass_rate(&vec![reported(true, None), reported(true, None), reported(false, None)]);
    assert!((rate_no_scores - rate).abs() < f64::EPSILON);
}

#[test]
fn report_json_rolls_up_cost_tokens_turns_from_each_cases_headless_result() {
    let counts = report_counts(&vec![reported(true, None), reported(false, None)]);
    assert_eq!(counts.total_cases, 2);
    assert_eq!(counts.passed_cases, 1);
    assert_eq!(counts.total_tokens, 2 * (10 + 1 + 2 + 3));
    assert_eq!(counts.total_turns, 2);
    let none: Vec<CaseOutcome<f64, f64>> = Vec::new();
    let counts = report_counts(&none);
    assert_eq!((counts.total_cases, counts.passed_cases), (0, 0));
    assert_eq!((counts.total_tokens, counts.total_turns), (0, 0));
}

#[test]
fn a_failed_run_fails_the_case_and_leaves_nothing_to_judge() {
    let run: Result<RunSummary<f64>, String> =
        Err(bootstrap_message(BootstrapError::Other("no provider".to_string())));
    assert_eq!(judged_text(&run), "");
    assert_eq!(judged_text(&Ok(summary("text", 1, 1))), "text");
    let outcome: CaseOutcome<f64, f64> =
        case_outcome("c".to_string(), "/f".to_string(), run, 0.0, Vec::new(), Vec::new());
    assert!(!outcome.passed);
    assert_eq!(outcome.run_error, Some("no provider".to_string()));
    assert_eq!(bootstrap_message(BootstrapError::CliMisuse("m".to_string())), "m");
}

#[test]
fn case_files_are_the_json_files_in_order() {
    let names: Vec<String> = ["b.json", "a.json", "notes.txt", ".json", "a.b.json", "json"]
        .iter()
        .map(|n| n.to_string())
        .collect();
    let files = case_files("/cases", &names);
    let seen: Vec<(String, String)> =
        files.iter().map(|f| (f.name.clone(), f.path.clone())).collect();
    assert_eq!(
        seen,
        vec![
            ("a.b".to_string(), "/cases/a.b.json".to_string()),
            ("a".to_string(), "/cases/a.json".to_string()),
            ("b".to_string(), "/cases/b.json".to_string()),
        ]
    );
    assert_eq!(cases_dir_error("/cases", "denied"), "failed to read cases dir /cases: denied");
}

#[test]
fn unusable_case_files_fail_the_run() {
    let file = || CaseFile {
        file_name: "a.json".to_string(),
        name: "a".to_string(),
        path: "/cases/a.json".to_string(),
    };
    let loaded =
        load_case(file(), CaseRead::Parsed(case(CasePermissionMode::Deny, Vec::new()))).unwrap();
    assert_eq!(loaded.name, "a");
    assert_eq!(loaded.case.prompt, "say hi");
    assert_eq!(
        load_case(file(), CaseRead::Unreadable("denied".to_string())).unwrap_err(),
        "failed to read case file /cases/a.json: denied"
    );
    assert_eq!(
        load_case(file(), CaseRead::Malformed("missing field `model`".to_string())).unwrap_err(),
        "failed to parse case file /cases/a.json: missing field `model`"
    );
}

#[test]
fn setup_files_are_written_into_the_case_directory() {
    let file = SetupFile { path: "src/a.rs".to_string(), contents: "x".to_string() };
    assert_eq!(setup_target("/f", &file), "/f/src/a.rs");
    assert_eq!(
        setup_error(&file, &SetupFailure::Parents(IoFailure::other("denied"))),
        "failed to create parent dirs for setup file src/a.rs: denied"
    );
    assert_eq!(
        setup_error(&file, &SetupFailure::Write(IoFailure::other("denied"))),
        "failed to write setup file src/a.rs: denied"
    );
}

#[test]
fn the_judge_is_asked_with_all_settings() {
    let some = |s: &str| Some(s.to_string());
    let call = judge_call("said", "rule", some("http://j/v1//"), some("m"), some("k")).unwrap();
    assert_eq!(call.url, "http://j/v1/chat/completions");
    assert_eq!(call.model, "m");
    assert_eq!(call.api_key, "k");
    assert_eq!(
        call.prompt,
        "You are grading an AI agent's transcript against a rubric. Respond with ONLY a JSON \
         object of the form {\"score\": <float 0.0-1.0>}, no other text.\n\nRubric:\nrule\n\n\
         Transcript:\nsaid"
    );
    let missing = |r: Result<rokr::judge::JudgeCall, JudgeError>| r.unwrap_err().message();
    assert_eq!(
        missing(judge_call("", "", None, None, None)),
        format!("missing env var {ENV_BASE_URL}")
    );
    assert_eq!(
        missing(judge_call("", "", some("b"), None, None)),
        format!("missing env var {ENV_MODEL}")
    );
    assert_eq!(
        missing(judge_call("", "", some("b"), some("m"), None)),
        format!("missing env var {ENV_API_KEY}")
    );
}

#[test]
fn verdicts_are_read_from_the_first_choice() {
    assert_eq!(
        first_choice(&vec!["one".to_string(), "two".to_string()]),
        Ok("one".to_string())
    );
    assert_eq!(first_choice(&Vec::new()), Err(JudgeError::NoChoices));
    assert_eq!(verdict_json(" {\"score\": 1}\n"), "{\"score\": 1}");
    assert_eq!(score_label("be \"nice\""), "judge_rubric(\"be \\\"nice\\\"\")");
}

#[test]
fn judge_errors_have_texts() {
    let s = |t: &str| t.to_string();
    assert_eq!(JudgeError::Request(s("e")).message(), "judge request failed: e");
    assert_eq!(JudgeError::Body(s("e")).message(), "failed to read judge response body: e");
    assert_eq!(
        JudgeError::Status { status: s("500"), body: s("b") }.message(),
        "judge returned status 500: b"
    );
    assert_eq!(
        JudgeError::Envelope { error: s("e"), body: s("b") }.message(),
        "failed to parse judge response envelope: e; body was: b"
    );
    assert_eq!(JudgeError::NoChoices.message(), "judge response had no choices");
    assert_eq!(
        JudgeError::Verdict { error: s("e"), content: s("a\"b") }.message(),
        "failed to parse judge verdict JSON: e; content was: \"a\\\"b\""
    );
}

#[test]
fn every_case_has_its_outcome_in_order() {
    let loaded = |name: &str| LoadedCase {
        name: name.to_string(),
        case: case(CasePermissionMode::Deny, Vec::new()),
    };
    let mut eval: EvalRun<f64, f64> =
        EvalRun::new(vec![loaded("a"), loaded("b"), loaded("c")]);
    let mut seen = Vec::new();
    while let Some(next) = eval.next() {
        let run = if next.name == "b" {
            Err("no".to_string())
        } else {
            Ok(RunSummary {
                result: "r".to_string(),
                cost_usd: 0.5,
                num_turns: 1,
                usage: UsageObject::default(),
            })
        };
        seen.push(next.name);
        eval.on_case("/f".to_string(), run, 0.0, Vec::new(), Vec::new());
    }
    assert_eq!(seen, vec!["a", "b", "c"]);
    let outcomes = eval.finish();
    let names: Vec<&str> = outcomes.iter().map(|o| o.name.as_str()).collect();
    assert_eq!(names, vec!["a", "b", "c"]);
    let passed: Vec<bool> = outcomes.iter().map(|o| o.passed).collect();
    assert_eq!(passed, vec![true, false, true]);
    assert_eq!(outcomes[1].run_error, Some("no".to_string()));

    let mut none: EvalRun<f64, f64> = EvalRun::new(Vec::new());
    assert!(none.next().is_none());
    assert!(none.finish().is_empty());
}
