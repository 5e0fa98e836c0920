use rokr::cli::PermissionMode;
use rokr::permission_policy::{PermissionPolicy, Resolution, SessionGrants};

#[test]
fn bypass_mode_resolves_allow_for_every_tool() {
    let grants = SessionGrants::new();
    for tool in ["bash", "write", "edit", "read", "anything"] {
        assert_eq!(
            PermissionPolicy::resolve(Some(PermissionMode::Bypass), tool, None, None, &grants),
            Resolution::Allow,
            "tool {tool} should be allowed under Bypass mode"
        );
    }
}

#[test]
fn deny_mode_resolves_deny_without_reaching_prompt() {
    let grants = SessionGrants::new();
    for tool in ["bash", "write", "edit", "read"] {
        assert_eq!(
            PermissionPolicy::resolve(Some(PermissionMode::Deny), tool, None, None, &grants),
            Resolution::Deny,
            "tool {tool} should be denied under Deny mode"
        );
    }
}

#[test]
fn accept_edits_mode_resolves_allow_for_write_and_edit_only() {
    let grants = SessionGrants::new();
    assert_eq!(
        PermissionPolicy::resolve(
            Some(PermissionMode::AcceptEdits),
            "write",
            None,
            None,
            &grants
        ),
        Resolution::Allow
    );
    assert_eq!(
        PermissionPolicy::resolve(
            Some(PermissionMode::AcceptEdits),
            "edit",
            None,
            None,
            &grants
        ),
        Resolution::Allow
    );
    assert_eq!(
        PermissionPolicy::resolve(
            Some(PermissionMode::AcceptEdits),
            "bash",
            None,
            None,
            &grants
        ),
        Resolution::Prompt
    );
    assert_eq!(
        PermissionPolicy::resolve(
            Some(PermissionMode::AcceptEdits),
            "read",
            None,
            None,
            &grants
        ),
        Resolution::Prompt
    );
}

#[test]
fn a_prior_session_grant_for_a_tool_resolves_allow_without_prompting_again() {
    let mut grants = SessionGrants::new();
    grants.grant("bash");
    assert_eq!(
        PermissionPolicy::resolve(Some(PermissionMode::Deny), "bash", None, None, &grants),
        Resolution::Allow
    );
    assert_eq!(
        PermissionPolicy::resolve(Some(PermissionMode::Deny), "write", None, None, &grants),
        Resolution::Deny
    );
}

#[test]
fn no_matching_mode_or_grant_resolves_prompt() {
    let grants = SessionGrants::new();
    assert_eq!(
        PermissionPolicy::resolve(
            Some(PermissionMode::AcceptEdits),
            "bash",
            None,
            None,
            &grants
        ),
        Resolution::Prompt
    );
}

#[test]
fn none_mode_without_grant_resolves_prompt() {
    let grants = SessionGrants::new();
    for tool in ["bash", "write", "edit", "read", "anything"] {
        assert_eq!(
            PermissionPolicy::resolve(None, tool, None, None, &grants),
            Resolution::Prompt,
            "tool {tool} should be prompted for under None (no ambient mode)"
        );
    }
}

#[test]
fn a_prior_session_grant_for_a_tool_resolves_allow_under_none_mode() {
    let mut grants = SessionGrants::new();
    grants.grant("bash");

    assert_eq!(
        PermissionPolicy::resolve(None, "bash", None, None, &grants),
        Resolution::Allow
    );
    assert_eq!(
        PermissionPolicy::resolve(None, "write", None, None, &grants),
        Resolution::Prompt
    );
}

#[test]
fn deny_mode_beats_read_only_git_carveout_regression() {
    let grants = SessionGrants::new();
    assert_eq!(
        PermissionPolicy::resolve(
            Some(PermissionMode::Deny),
            "bash",
            None,
            Some("git status"),
            &grants
        ),
        Resolution::Deny
    );
}

#[test]
fn read_only_git_carveout_converts_prompt_to_allow_under_none_mode() {
    let grants = SessionGrants::new();
    for command in ["git status", "git diff --stat", "git log -5"] {
        assert_eq!(
            PermissionPolicy::resolve(None, "bash", None, Some(command), &grants),
            Resolution::Allow,
            "{command:?} should be allowed under None mode via the carve-out"
        );
    }
}

#[test]
fn read_only_git_carveout_converts_prompt_to_allow_under_accept_edits_mode() {
    let grants = SessionGrants::new();
    assert_eq!(
        PermissionPolicy::resolve(
            Some(PermissionMode::AcceptEdits),
            "bash",
            None,
            Some("git status"),
            &grants
        ),
        Resolution::Allow
    );
}

#[test]
fn bypass_mode_unaffected_by_read_only_git_carveout() {
    let grants = SessionGrants::new();
    assert_eq!(
        PermissionPolicy::resolve(
            Some(PermissionMode::Bypass),
            "bash",
            None,
            Some("git status"),
            &grants
        ),
        Resolution::Allow
    );
}

#[test]
fn ambiguous_or_mutating_bash_commands_still_resolve_prompt() {
    let grants = SessionGrants::new();
    for command in ["git commit -m x", "rm -rf /"] {
        assert_eq!(
            PermissionPolicy::resolve(None, "bash", None, Some(command), &grants),
            Resolution::Prompt,
            "{command:?} should still prompt, not be allowed by the carve-out"
        );
    }
}

#[test]
fn a_prior_session_grant_beats_the_carveout_question_entirely() {
    let mut grants = SessionGrants::new();
    grants.grant("bash");

    assert_eq!(
        PermissionPolicy::resolve(
            Some(PermissionMode::Deny),
            "bash",
            None,
            Some("git commit -m x"),
            &grants
        ),
        Resolution::Allow,
        "a prior grant should resolve Allow regardless of Deny mode or the command's content"
    );
}

#[test]
fn a_grant_counts_for_its_own_tool_alone() {
    let mut grants = SessionGrants::new();
    assert!(!grants.is_granted("bash"));
    grants.grant("bash");
    grants.grant("bash");
    assert!(grants.is_granted("bash"));
    assert!(!grants.is_granted("Bash"));
    assert!(!grants.is_granted("write"));
}

#[test]
fn read_only_commands_are_let_through_for_the_shell_alone() {
    let grants = SessionGrants::new();
    assert_eq!(
        PermissionPolicy::resolve(None, "webfetch", None, Some("git status"), &grants),
        Resolution::Prompt
    );
}
