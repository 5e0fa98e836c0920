use rokr::git::{
    commit, contains_co_author_line, snapshot, staged_paths, CommitError, GitContext, GitOutputs,
    GitQuery,
};

fn outputs(
    branch: &str,
    status: Option<&str>,
    counts: Option<&str>,
    log: Option<&str>,
) -> GitOutputs {
    GitOutputs {
        inside_work_tree: Some("true\n".to_string()),
        branch: Some(branch.to_string()),
        status: status.map(|s| s.to_string()),
        ahead_behind: counts.map(|s| s.to_string()),
        recent_subjects: log.map(|s| s.to_string()),
    }
}

#[test]
fn branch_dirty_ahead_behind_and_recent_subjects_are_read_from_outputs() {
    let context = snapshot(&outputs(
        "main\n",
        Some("?? untracked.txt\n"),
        None,
        Some("first commit\n"),
    ))
    .expect("snapshot should be Some inside a git repo");

    assert_eq!(context.branch, "main");
    assert!(context.dirty, "expected dirty to be true with an untracked file present");
    assert_eq!(context.ahead, 0);
    assert_eq!(context.behind, 0);
    assert_eq!(context.recent_subjects, vec!["first commit".to_string()]);
}

#[test]
fn outside_a_git_repository_snapshot_is_none() {
    let outside = GitOutputs {
        inside_work_tree: None,
        branch: None,
        status: None,
        ahead_behind: None,
        recent_subjects: None,
    };
    assert!(snapshot(&outside).is_none());
    let mut no_branch = outputs("main", None, None, None);
    no_branch.branch = None;
    assert!(snapshot(&no_branch).is_none());
}

#[test]
fn inside_the_git_directory_snapshot_is_none() {
    let mut in_git_dir = outputs("main\n", Some(""), None, Some("first commit\n"));
    assert!(snapshot(&in_git_dir).is_some());
    in_git_dir.inside_work_tree = Some("false\n".to_string());
    assert!(snapshot(&in_git_dir).is_none());
    in_git_dir.inside_work_tree = Some(String::new());
    assert!(snapshot(&in_git_dir).is_none());
}

#[test]
fn recent_commit_subjects_are_capped_at_five() {
    assert_eq!(GitQuery::RecentSubjects.args(), vec!["log", "-5", "--pretty=%s"]);
    let context = snapshot(&outputs(
        "main",
        Some(""),
        None,
        Some("commit 8\ncommit 7\ncommit 6\ncommit 5\ncommit 4\n"),
    ))
    .expect("snapshot should be Some inside a git repo");

    assert_eq!(context.recent_subjects.len(), 5);
    assert_eq!(
        context.recent_subjects,
        vec!["commit 8", "commit 7", "commit 6", "commit 5", "commit 4"]
    );
}

#[test]
fn commit_stages_exactly_the_given_paths_and_writes_the_given_message() {
    let commands = commit(&vec!["b.txt".to_string()], "chore: add b.txt")
        .expect("expected the commit to be allowed");
    assert_eq!(commands.add, vec!["add", "--", "b.txt"]);
    assert_eq!(commands.commit, vec!["commit", "-m", "chore: add b.txt", "--", "b.txt"]);
    assert_eq!(commands.on_add(true), Ok(()));
    assert_eq!(commands.on_add(false), Err(CommitError::Add(vec!["b.txt".to_string()])));
    assert_eq!(commands.on_commit(true), Ok(()));
    assert_eq!(commands.on_commit(false), Err(CommitError::Commit));
}

#[test]
fn commit_message_never_contains_a_co_author_line() {
    let result = commit(
        &vec!["b.txt".to_string()],
        "chore: add b.txt\n\nCo-Authored-By: Some Agent <agent@example.com>",
    );
    assert_eq!(
        result,
        Err(CommitError::CoAuthorNotAllowed),
        "expected commit to refuse a message containing a Co-Authored-By trailer"
    );
}

#[test]
fn co_authors_are_found_in_any_case_and_only_at_a_line_s_start() {
    assert!(contains_co_author_line("x\n  cO-aUTHORED-bY: y"));
    assert!(contains_co_author_line("co-authored-by:"));
    assert!(!contains_co_author_line("no co-authored-by: here"));
    assert!(!contains_co_author_line("co-authored-by nobody"));
    assert!(!contains_co_author_line(""));
}

#[test]
fn counts_are_read_behind_first() {
    let counted = |s: &str| {
        let c = snapshot(&outputs("main", None, Some(s), None)).unwrap();
        (c.behind, c.ahead)
    };
    assert_eq!(counted("2\t3\n"), (2, 3));
    assert_eq!(counted("2"), (0, 0));
    assert_eq!(counted("two 3"), (0, 0));
    assert_eq!(counted("4294967295 0"), (u32::MAX, 0));
    assert_eq!(counted("4294967296 0"), (0, 0));
    let clean = snapshot(&outputs("main", Some(" \n"), None, None)).unwrap();
    assert!(!clean.dirty);
    assert!(clean.recent_subjects.is_empty());
}

#[test]
fn the_prompt_text_has_one_line_for_each_fact() {
    let mut context = GitContext {
        branch: "main".to_string(),
        dirty: true,
        ahead: 1,
        behind: 20,
        recent_subjects: vec!["one".to_string(), "two".to_string()],
    };
    assert_eq!(
        context.to_prompt_text(),
        "Branch: main\nStatus: dirty\nAhead/behind upstream: 1 ahead, 20 behind\n\
         Recent commits:\n- one\n- two\n"
    );
    context.dirty = false;
    context.recent_subjects = Vec::new();
    assert_eq!(
        context.to_prompt_text(),
        "Branch: main\nStatus: clean\nAhead/behind upstream: 1 ahead, 20 behind\n\
         Recent commits: (none)\n"
    );
}

#[test]
fn staged_paths_are_the_lines_of_the_output() {
    assert_eq!(staged_paths(&Some("a.rs\nb c.rs\n".to_string())), vec!["a.rs", "b c.rs"]);
    assert!(staged_paths(&None).is_empty());
    assert!(staged_paths(&Some(String::new())).is_empty());
}

#[test]
fn queries_have_their_arguments() {
    assert_eq!(GitQuery::InsideWorkTree.args(), vec!["rev-parse", "--is-inside-work-tree"]);
    assert_eq!(GitQuery::Branch.args(), vec!["rev-parse", "--abbrev-ref", "HEAD"]);
    assert_eq!(GitQuery::Status.args(), vec!["status", "--porcelain"]);
    assert_eq!(
        GitQuery::AheadBehind.args(),
        vec!["rev-list", "--left-right", "--count", "@{upstream}...HEAD"]
    );
    assert_eq!(GitQuery::StagedPaths.args(), vec!["diff", "--cached", "--name-only"]);
}

#[test]
fn commit_errors_have_texts() {
    assert_eq!(
        CommitError::CoAuthorNotAllowed.message(),
        "commit message must not contain a Co-Authored-By line or other agent attribution"
    );
    let paths = vec!["a \"b\".rs".to_string(), "c.rs".to_string()];
    assert_eq!(
        CommitError::Add(vec!["a \"b\".rs".to_string(), "c.rs".to_string()]).message(),
        format!("`git add` failed for {paths:?}")
    );
    assert_eq!(CommitError::Add(Vec::new()).message(), "`git add` failed for []");
    assert_eq!(CommitError::Commit.message(), "`git commit` failed");
}
