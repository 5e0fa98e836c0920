use rokr::cli::PermissionMode;
use rokr::prompt::{PermissionDecision, PermissionDetail};
use rokr::skill_trust::{
    consent_prompt, hash_skill_contents, map_permission_decision, pre_approval, same_path,
    AllowSkillEntry, ConsentOutcome, ConsentResolver, HeadlessConsentResolver,
    SkillConsentRequest, SkillScope, SkillTrustStore, TrustedSkill,
};

fn request() -> SkillConsentRequest {
    SkillConsentRequest {
        command: "make deploy".to_string(),
        skill_path: "/p/.rokr/skills/deploy.md".to_string(),
        scope: SkillScope::Project,
        name: "deploy".to_string(),
        hash: "a".repeat(64),
    }
}

#[test]
fn trust_grant_is_invalidated_when_skill_file_contents_change() {
    let mut store = SkillTrustStore::new("/home/u/.config/rokr");
    let skill_path = "/fake/.rokr/skills/deploy.md";

    let hash_a = hash_skill_contents("run: echo original");
    let hash_b = hash_skill_contents("run: echo edited");
    assert_ne!(
        hash_a, hash_b,
        "test fixture sanity: two different contents must hash differently"
    );

    store.grant(skill_path, &hash_a);

    assert!(
        store.is_trusted(skill_path, &hash_a),
        "expected the exact granted (path, hash) pair to be trusted"
    );
    assert!(
        !store.is_trusted(skill_path, &hash_b),
        "expected a lookup for the same path with a different hash to be untrusted"
    );
}

#[test]
fn project_scope_trust_file_is_never_consulted() {
    let skill_path = "/work/project/.rokr/skills/deploy.md";
    let hash = hash_skill_contents("run: rm -rf /");

    let mut user_store = SkillTrustStore::new("/home/u/.config/rokr");
    user_store.grant(skill_path, &hash);
    assert!(user_store.is_trusted(skill_path, &hash));
    assert!(
        user_store.path().starts_with("/home/u/.config/rokr/"),
        "the store lies in the user's own directory"
    );

    let store_rooted_at_project_dir = SkillTrustStore::new("/work/project");
    assert!(
        !store_rooted_at_project_dir.is_trusted(skill_path, &hash),
        "expected a store rooted at the project directory to see no trust data at all"
    );
}

#[test]
fn hashes_are_sha_256_in_lowercase_hexadecimal() {
    assert_eq!(
        hash_skill_contents(""),
        "e3b0c44298fc1c149afbf4c8996fb92427ae41e4649b934ca495991b7852b855"
    );
    assert_eq!(
        hash_skill_contents("abc"),
        "ba7816bf8f01cfea414140de5dae2223b00361a396177a9cb410ff61f20015ad"
    );
}

#[test]
fn a_store_is_read_back_from_its_entries() {
    let entry = TrustedSkill { path: "/p/a.md".to_string(), hash: "h".to_string() };
    let store = SkillTrustStore::load("/c", Some(vec![entry]));
    assert!(store.is_trusted("/p/a.md", "h"));
    assert!(!store.is_trusted("/p/a.md", "i"));
    assert_eq!(store.entries().len(), 1);
    let empty = SkillTrustStore::load("/c", None);
    assert!(!empty.is_trusted("/p/a.md", "h"));
    assert!(same_path("/p/a.md", "/p/a.md"));
    assert!(!same_path("/p/a.md", "/p/b.md"));
}

#[test]
fn granting_twice_leaves_one_entry() {
    let mut store = SkillTrustStore::new("/c");
    store.grant("/p/a.md", "h");
    store.grant("/p/a.md", "h");
    assert!(store.is_trusted("/p/a.md", "h"));
    let entry = |path: &str, hash: &str| TrustedSkill {
        path: path.to_string(),
        hash: hash.to_string(),
    };
    assert_eq!(store.entries(), &vec![entry("/p/a.md", "h")]);
    store.grant("/p/b.md", "h");
    store.grant("/p//a.md", "h");
    assert_eq!(store.entries(), &vec![entry("/p/a.md", "h"), entry("/p/b.md", "h")]);
}

#[test]
fn a_loaded_list_is_kept_as_it_is() {
    let twice = || {
        vec![
            TrustedSkill { path: "/p/a.md".to_string(), hash: "h".to_string() },
            TrustedSkill { path: "/p/a.md".to_string(), hash: "h".to_string() },
        ]
    };
    let mut store = SkillTrustStore::load("/c", Some(twice()));
    assert_eq!(store.entries(), &twice());
    store.grant("/p/a.md", "h");
    assert_eq!(store.entries(), &twice());
    store.grant("/p/a.md", "i");
    assert_eq!(store.entries().len(), 3);
    assert_eq!(store.entries()[2].hash, "i");
}

#[test]
fn headless_runs_consent_only_when_everything_is_bypassed() {
    let r = request();
    assert_eq!(
        HeadlessConsentResolver::new(PermissionMode::Bypass).resolve(&r),
        ConsentOutcome::ApproveWithoutPersisting
    );
    assert_eq!(
        HeadlessConsentResolver::new(PermissionMode::Deny).resolve(&r),
        ConsentOutcome::Decline
    );
    assert_eq!(
        HeadlessConsentResolver::new(PermissionMode::AcceptEdits).resolve(&r),
        ConsentOutcome::Decline
    );
    assert_eq!(
        HeadlessConsentResolver::decline_notice(&r),
        "skill not executed (untrusted): /p/.rokr/skills/deploy.md [run: make deploy]"
    );
}

#[test]
fn answers_to_the_skill_prompt_persist_only_when_asked_to() {
    assert_eq!(
        map_permission_decision(PermissionDecision::Allow),
        ConsentOutcome::ApproveWithoutPersisting
    );
    assert_eq!(
        map_permission_decision(PermissionDecision::AllowAndRemember),
        ConsentOutcome::ApproveAndPersist
    );
    assert_eq!(map_permission_decision(PermissionDecision::Deny), ConsentOutcome::Decline);
    let prompt = consent_prompt(&request());
    assert_eq!(prompt.tool_name, "skill");
    match prompt.detail {
        PermissionDetail::Text(text) => assert_eq!(
            text,
            format!(
                "run: make deploy\nskill: /p/.rokr/skills/deploy.md\nscope: {}",
                SkillScope::Project.label()
            )
        ),
        other => panic!("expected a text, got {other:?}"),
    }
}

#[test]
fn allow_skill_flag_is_repeatable_and_rejects_malformed_values_at_parse_time() {
    let hash = "a".repeat(64);
    let entries = vec![
        AllowSkillEntry::parse("deploy").expect("a bare name should parse"),
        AllowSkillEntry::parse(&format!("release@{hash}")).expect("a pinned name should parse"),
    ];
    assert_eq!(entries[0].name, "deploy");
    assert_eq!(entries[0].hash, None);
    assert_eq!(entries[1].name, "release");
    assert_eq!(entries[1].hash, Some(hash));

    assert!(
        AllowSkillEntry::parse("deploy@short").is_err(),
        "a hash pin that isn't 64 hex characters must be a parse error"
    );
    assert!(
        AllowSkillEntry::parse(&format!("deploy@{}", "G".repeat(64))).is_err(),
        "a non-hex pin must be a parse error"
    );
    assert!(
        AllowSkillEntry::parse(&format!("deploy@{}", "A".repeat(64))).is_err(),
        "an uppercase-hex pin must be a parse error -- only lowercase hex is accepted"
    );
    assert!(
        AllowSkillEntry::parse("@abc123").is_err(),
        "an empty skill name before '@' must be a parse error"
    );
    assert!(
        AllowSkillEntry::parse("").is_err(),
        "an empty --allow-skill value must be a parse error"
    );
}

#[test]
fn allowed_skills_are_approved_by_name_and_pin() {
    let r = request();
    let by_name = vec![AllowSkillEntry::parse("deploy").unwrap()];
    let by_pin = vec![AllowSkillEntry::parse(&format!("deploy@{}", "a".repeat(64))).unwrap()];
    let other_pin = vec![AllowSkillEntry::parse(&format!("deploy@{}", "b".repeat(64))).unwrap()];
    let other_name = vec![AllowSkillEntry::parse("release").unwrap()];
    assert!(pre_approval(&by_name, &r).is_some());
    assert!(pre_approval(&by_pin, &r).is_some());
    assert!(pre_approval(&other_pin, &r).is_none());
    assert!(pre_approval(&other_name, &r).is_none());
    assert!(by_name[0].approves("deploy", "anything"));
}
