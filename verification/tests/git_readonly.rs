use rokr::git_readonly::is_read_only_git;

#[test]
fn status_diff_log_show_blame_with_allowlisted_flags_classify_as_read_only() {
    for command in [
        "git status",
        "git status -s",
        "git diff",
        "git diff --stat",
        "git log",
        "git log -n -5 --oneline",
        "git show",
        "git show --no-color HEAD^",
        "git blame",
        "git blame -p file.rs",
    ] {
        assert!(
            is_read_only_git(command),
            "expected {command:?} to classify as read-only git"
        );
    }
}

#[test]
fn shell_metacharacters_disqualify_regardless_of_subcommand() {
    for command in [
        "git status && rm -rf x",
        "git log | less",
        "git diff; rm x",
        "git log --author=me",
    ] {
        assert!(
            !is_read_only_git(command),
            "expected {command:?} to be disqualified by a shell metacharacter"
        );
    }
}

#[test]
fn global_options_between_git_and_subcommand_disqualify() {
    for command in [
        "git -C .. log",
        "git -c core.pager=cat status",
        "git --git-dir=/tmp/x status",
    ] {
        assert!(
            !is_read_only_git(command),
            "expected {command:?} to be disqualified by a global option before the subcommand"
        );
    }
}

#[test]
fn unrecognized_flag_fails_closed_to_prompt() {
    assert!(
        !is_read_only_git("git log --follow"),
        "expected an unrecognized bare flag to fail closed"
    );
}

#[test]
fn empty_or_subcommand_less_or_unrecognized_subcommand_commands_fail_closed() {
    for command in [
        "",
        "git",
        "git ",
        "git commit",
        "git commit -m x",
        "gitstatus",
        "not-git status",
    ] {
        assert!(
            !is_read_only_git(command),
            "expected {command:?} to fail closed (not classify as read-only git)"
        );
    }
}

#[test]
fn max_count_numeric_shorthand_and_positional_paths_pass_through() {
    for command in [
        "git log -5",
        "git log -10 --oneline",
        "git diff --stat src/main.rs",
        "git blame src/lib.rs",
        "git log --author me --since yesterday",
    ] {
        assert!(
            is_read_only_git(command),
            "expected {command:?} to classify as read-only git"
        );
    }
}
