use rokr::gh::{
    create_pr, create_pr_result, manual_command, map_gh_pr_create_failure, map_gh_spawn_error,
    GhError, GhOutput,
};
use rokr::io_failure::IoFailure;

#[test]
fn gh_not_installed_produces_actionable_not_installed_error() {
    let io_err = IoFailure::missing("No such file or directory");

    let result = map_gh_spawn_error(&io_err, "gh pr create --title \"t\" --body \"b\"");

    match result {
        GhError::NotInstalled(manual) => {
            assert!(
                manual.contains("gh pr create"),
                "expected the manual fallback command to be preserved, got: {manual}"
            );
        }
        other => panic!("expected NotInstalled, got {other:?}"),
    }
}

#[test]
fn gh_not_authenticated_produces_actionable_auth_error_distinct_from_not_installed() {
    let stderr = "To get started with GitHub CLI, please run:  gh auth login\n";

    let result = map_gh_pr_create_failure(stderr, "gh pr create --title \"t\" --body \"b\"");

    match &result {
        GhError::NotAuthenticated(manual) => {
            assert!(
                manual.contains("gh pr create"),
                "expected the manual fallback command to be preserved, got: {manual}"
            );
        }
        other => panic!("expected NotAuthenticated, got {other:?}"),
    }

    let not_installed = map_gh_spawn_error(
        &IoFailure::missing("not found"),
        "gh pr create --title \"t\" --body \"b\"",
    );
    assert_ne!(
        std::mem::discriminant(&result),
        std::mem::discriminant(&not_installed),
        "not-authenticated and not-installed must be distinct error variants"
    );
}

#[test]
fn other_failures_are_passed_on() {
    assert_eq!(
        map_gh_spawn_error(&IoFailure::other("denied"), "m"),
        GhError::Failed("failed to spawn gh: denied".to_string())
    );
    assert_eq!(
        map_gh_pr_create_failure("  no repo \n", "m"),
        GhError::Failed("no repo".to_string())
    );
    assert_eq!(
        map_gh_pr_create_failure("You are NOT Logged in", "m"),
        GhError::NotAuthenticated("m".to_string())
    );
}

#[test]
fn the_manual_command_quotes_its_arguments() {
    assert_eq!(
        manual_command("say \"hi\"", "a\nb"),
        "gh pr create --title \"say \\\"hi\\\"\" --body \"a\\nb\""
    );
}

#[test]
fn pull_requests_credit_no_co_authors() {
    assert_eq!(
        create_pr("t", "b"),
        Ok(vec![
            "pr".to_string(),
            "create".to_string(),
            "--title".to_string(),
            "t".to_string(),
            "--body".to_string(),
            "b".to_string(),
        ])
    );
    assert_eq!(create_pr("Co-Authored-By: x", "b"), Err(GhError::CoAuthorNotAllowed));
    assert_eq!(create_pr("t", "b\nco-authored-by: x"), Err(GhError::CoAuthorNotAllowed));
}

#[test]
fn a_run_of_gh_gives_the_address_or_the_error() {
    let run = |succeeded: bool, stdout: &str, stderr: &str| {
        create_pr_result(
            "t",
            "b",
            &Ok(GhOutput { succeeded, stdout: stdout.to_string(), stderr: stderr.to_string() }),
        )
    };
    assert_eq!(run(true, "https://x/1\n", "warning"), Ok("https://x/1".to_string()));
    assert_eq!(
        run(false, "", "run gh auth login"),
        Err(GhError::NotAuthenticated(manual_command("t", "b")))
    );
    assert_eq!(run(false, "", "boom"), Err(GhError::Failed("boom".to_string())));
    assert_eq!(
        create_pr_result("t", "b", &Err(IoFailure::missing("x"))),
        Err(GhError::NotInstalled(manual_command("t", "b")))
    );
}

#[test]
fn errors_say_what_to_do() {
    assert_eq!(
        GhError::NotInstalled("m".to_string()).message(),
        "gh is not installed; install it from https://cli.github.com, then run manually:\nm"
    );
    assert_eq!(
        GhError::NotAuthenticated("m".to_string()).message(),
        "gh is not authenticated; run `gh auth login`, then run manually:\nm"
    );
    assert_eq!(
        GhError::CoAuthorNotAllowed.message(),
        "PR title/body must not contain a Co-Authored-By line or other agent attribution"
    );
    assert_eq!(GhError::Failed("m".to_string()).message(), "gh pr create failed: m");
}
