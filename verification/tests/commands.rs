use rokr::commands::{
    expand_template, parse_command_file, parse_skill_run_field, CommandRegistry, DirFile,
    SkillAction,
};
use rokr::skill_trust::{
    hash_skill_contents, ConsentOutcome, SkillConsentRequest, SkillScope, SkillTrustStore,
};

fn file(name: &str, contents: &str) -> DirFile {
    DirFile { name: name.to_string(), contents: Some(contents.to_string()) }
}

fn user_commands(files: Vec<DirFile>) -> CommandRegistry {
    CommandRegistry::discover_user_scope("/home/u/.config/rokr", &files, &Vec::new())
}

/// What a driver saw while a text was resolved.
struct Resolved {
    text: String,
    asked: Vec<SkillConsentRequest>,
    ran: Vec<String>,
}

fn resolve(
    registry: &CommandRegistry,
    text: &str,
    store: &mut SkillTrustStore,
    consent: ConsentOutcome,
) -> Resolved {
    let mut resolver = registry.resolve_skills(text);
    let mut asked = Vec::new();
    let mut ran = Vec::new();
    let mut action = resolver.next();
    loop {
        action = match action {
            SkillAction::CheckTrust { path, hash } => {
                let trusted = store.is_trusted(&path, &hash);
                resolver.on_trust(trusted)
            }
            SkillAction::AskConsent(request) => {
                asked.push(request);
                resolver.on_consent(consent)
            }
            SkillAction::Record { path, hash } => {
                store.grant(&path, &hash);
                resolver.on_recorded(Ok(()))
            }
            SkillAction::Run { command } => {
                let output = format!("output of {command}");
                ran.push(command);
                resolver.on_run(Ok(output))
            }
            SkillAction::Continue => resolver.next(),
            SkillAction::Finished(text) => return Resolved { text, asked, ran },
            SkillAction::Failed(error) => panic!("resolving failed: {error}"),
        }
    }
}

fn project_skills(files: Vec<DirFile>) -> CommandRegistry {
    CommandRegistry::discover_project_scope("/work/project", &Vec::new(), &files)
}

fn fresh_store() -> SkillTrustStore {
    SkillTrustStore::new("/home/u/.config/rokr")
}

#[test]
fn registry_discovers_user_scope_command_files_keyed_by_filename_stem() {
    let registry = user_commands(vec![file(
        "my-command.md",
        "---\ndescription: test\n---\nHandle: $ARGUMENTS",
    )]);

    assert!(
        registry.get("my-command").is_some(),
        "expected registry to discover a command keyed by filename stem \"my-command\""
    );
}

#[test]
fn command_file_frontmatter_description_argument_hint_and_agent_are_parsed() {
    let registry = user_commands(vec![file(
        "release.md",
        "---\ndescription: Cut a release\nargument-hint: <version>\nagent: release-bot\n---\nRelease $1",
    )]);
    let command =
        registry.get("release").expect("expected 'release' to be discovered from commands/");

    assert_eq!(command.description.as_deref(), Some("Cut a release"));
    assert_eq!(command.argument_hint.as_deref(), Some("<version>"));
    assert_eq!(command.agent.as_deref(), Some("release-bot"));
}

#[test]
fn project_scope_command_body_expands_to_inert_text_never_executed() {
    let registry = CommandRegistry::discover_project_scope(
        "/work/project",
        &vec![file(
            "deploy.md",
            "---\ndescription: test\n---\nRun: !rm -rf /tmp/should-never-execute && echo pwned",
        )],
        &Vec::new(),
    );

    let expanded = registry
        .expand("/deploy")
        .expect("expected /deploy to be discovered from .rokr/commands/");

    assert_eq!(expanded, "Run: !rm -rf /tmp/should-never-execute && echo pwned");
}

fn dispatch(input: &str, registry: &CommandRegistry) -> String {
    match input {
        "/cost" => "built-in cost output".to_string(),
        _ => registry.expand(input).unwrap_or_else(|| format!("unknown command: {input}")),
    }
}

#[test]
fn built_in_command_name_always_wins_over_a_same_named_discovered_command() {
    let mut registry = user_commands(vec![file("cost.md", "user-scope /cost template")]);
    registry.merge_overriding(CommandRegistry::discover_project_scope(
        "/work/project",
        &vec![file("cost.md", "project-scope /cost template")],
        &Vec::new(),
    ));

    assert!(
        registry.get("cost").is_some(),
        "expected the registry to hold a 'cost' entry -- it has no built-in awareness to filter \
         it out"
    );
    assert_eq!(dispatch("/cost", &registry), "built-in cost output");
    assert_eq!(registry.get("cost").unwrap().template, "project-scope /cost template");
    assert_eq!(dispatch("/other", &registry), "unknown command: /other");
}

#[test]
fn template_expansion_substitutes_arguments_and_positional_args() {
    let registry = user_commands(vec![file(
        "my-command.md",
        "---\ndescription: test\n---\nHandle: $ARGUMENTS (first=$1, second=$2)",
    )]);

    let expanded = registry.expand("/my-command foo bar");

    assert_eq!(expanded, Some("Handle: foo bar (first=foo, second=bar)".to_string()));
}

#[test]
fn skill_mention_resolves_to_named_skill_file_contents_from_scoped_directory() {
    let registry = CommandRegistry::discover_user_scope(
        "/home/u/.config/rokr",
        &vec![file("review.md", "---\ndescription: test\n---\nFollow @skill:code-style")],
        &vec![file("code-style.md", "# Code Style\nUse 4-space indentation.")],
    );

    let expanded =
        registry.expand("/review").expect("expected /review to be discovered from commands/");

    assert_eq!(expanded, "Follow # Code Style\nUse 4-space indentation.");
}

#[test]
fn project_scope_skill_wins_over_user_scope_skill_of_the_same_name() {
    let mut registry = CommandRegistry::discover_user_scope(
        "/home/u/.config/rokr",
        &vec![file("review.md", "---\ndescription: test\n---\nFollow @skill:code-style")],
        &vec![file("code-style.md", "USER-SCOPE-STYLE-GUIDE")],
    );
    registry.merge_overriding(project_skills(vec![file(
        "code-style.md",
        "PROJECT-SCOPE-STYLE-GUIDE",
    )]));

    let expanded = registry
        .expand("/review")
        .expect("expected /review to be discovered from user-scope commands/");

    assert_eq!(expanded, "Follow PROJECT-SCOPE-STYLE-GUIDE");
}

#[test]
fn executable_skill_frontmatter_run_field_is_parsed_and_distinguished_from_inert_skill() {
    let registry = project_skills(vec![
        file(
            "executable.md",
            "---\nrun: echo should-be-detected-as-executable\n---\nBody text.",
        ),
        file("inert.md", "Just plain inert skill text, no frontmatter at all."),
    ]);
    let mut store = fresh_store();

    let inert = resolve(&registry, "@skill:inert", &mut store, ConsentOutcome::Decline);
    assert_eq!(inert.text, "Just plain inert skill text, no frontmatter at all.");
    assert!(
        inert.asked.is_empty(),
        "expected an inert skill mention to never consult the ConsentResolver"
    );

    let executable = resolve(&registry, "@skill:executable", &mut store, ConsentOutcome::Decline);
    assert_eq!(executable.asked.len(), 1);
    assert_eq!(executable.asked[0].command, "echo should-be-detected-as-executable");
    assert_eq!(executable.asked[0].name, "executable");
    assert_eq!(executable.asked[0].scope, SkillScope::Project);
    assert_eq!(executable.asked[0].skill_path, "/work/project/.rokr/skills/executable.md");
}

#[test]
fn parse_skill_run_field_treats_empty_or_whitespace_value_as_absent() {
    assert_eq!(parse_skill_run_field("---\nrun:\n---\nBody."), None);
    assert_eq!(parse_skill_run_field("---\nrun:   \n---\nBody."), None);
    assert_eq!(
        parse_skill_run_field("---\nrun: echo hi\n---\nBody."),
        Some("echo hi".to_string()),
        "a genuinely non-empty run: value must still parse normally"
    );
}

#[test]
fn skill_with_empty_run_field_is_resolved_as_inert_without_consent_prompt() {
    let raw_contents = "---\nrun:\n---\nNoop skill body text.";
    let registry = project_skills(vec![file("noop.md", raw_contents)]);

    let resolved =
        resolve(&registry, "@skill:noop", &mut fresh_store(), ConsentOutcome::Decline);

    assert!(resolved.asked.is_empty());
    assert_eq!(resolved.text, raw_contents);
}

#[test]
fn untrusted_project_scope_executable_skill_does_not_run_without_consent() {
    let registry = project_skills(vec![file(
        "deploy.md",
        "---\nrun: touch marker\n---\nDeploy body text.",
    )]);

    let resolved =
        resolve(&registry, "@skill:deploy", &mut fresh_store(), ConsentOutcome::Decline);

    assert_eq!(resolved.asked.len(), 1);
    assert!(resolved.ran.is_empty(), "the run: command must never execute before consent");
    assert!(
        !resolved.text.contains("Deploy body text."),
        "a declined skill's body must never be inlined"
    );
}

#[test]
fn user_scope_executable_skill_is_auto_trusted() {
    let registry = CommandRegistry::discover_user_scope(
        "/home/u/.config/rokr",
        &Vec::new(),
        &vec![file("greet.md", "---\nrun: printf hello-user-scope\n---\nGreet body.")],
    );

    let resolved =
        resolve(&registry, "@skill:greet", &mut fresh_store(), ConsentOutcome::Decline);

    assert!(resolved.asked.is_empty(), "scope alone is what exempts a user-scope skill");
    assert_eq!(resolved.ran, vec!["printf hello-user-scope".to_string()]);
    assert_eq!(resolved.text.trim(), "output of printf hello-user-scope");
}

#[test]
fn declined_consent_replaces_mention_with_not_executed_notice() {
    let registry = project_skills(vec![file(
        "release.md",
        "---\nrun: echo hi\n---\nASSUMES-COMMAND-ALREADY-RAN body text.",
    )]);

    let resolved = resolve(
        &registry,
        "Before @skill:release after",
        &mut fresh_store(),
        ConsentOutcome::Decline,
    );

    assert!(!resolved.text.contains("ASSUMES-COMMAND-ALREADY-RAN"));
    assert!(resolved.text.to_lowercase().contains("not executed"));
    assert!(resolved.text.contains("Before ") && resolved.text.contains(" after"));
    assert_eq!(resolved.text, "Before [skill 'release' not executed] after");
}

#[test]
fn approve_without_persisting_executes_but_writes_no_trust_grant() {
    let contents = "---\nrun: touch marker\n---\nDeploy body.";
    let registry = project_skills(vec![file("deploy.md", contents)]);
    let mut store = fresh_store();

    let resolved = resolve(
        &registry,
        "@skill:deploy",
        &mut store,
        ConsentOutcome::ApproveWithoutPersisting,
    );

    assert_eq!(resolved.ran, vec!["touch marker".to_string()]);
    assert!(!store.is_trusted(
        "/work/project/.rokr/skills/deploy.md",
        &hash_skill_contents(contents)
    ));
}

#[test]
fn approve_and_persist_executes_and_writes_trust_grant() {
    let contents = "---\nrun: touch marker\n---\nDeploy body.";
    let registry = project_skills(vec![file("deploy.md", contents)]);
    let mut store = fresh_store();

    let resolved =
        resolve(&registry, "@skill:deploy", &mut store, ConsentOutcome::ApproveAndPersist);
    assert_eq!(resolved.ran, vec!["touch marker".to_string()]);
    assert!(store.is_trusted(
        "/work/project/.rokr/skills/deploy.md",
        &hash_skill_contents(contents)
    ));

    let again = resolve(&registry, "@skill:deploy", &mut store, ConsentOutcome::Decline);
    assert!(again.asked.is_empty(), "a trusted version is not asked about again");
    assert_eq!(again.ran.len(), 1);
}

#[test]
fn a_text_without_mentions_is_left_alone() {
    let registry = project_skills(vec![file("a.md", "---\nrun: x\n---\n")]);
    let text = "mail me @ home, @skill: and @skill:unknown";
    let resolved = resolve(&registry, text, &mut fresh_store(), ConsentOutcome::Decline);
    assert_eq!(resolved.text, text);
    assert!(resolved.asked.is_empty());
}

#[test]
fn a_failed_run_or_a_failed_record_is_reported() {
    let registry = project_skills(vec![file("a.md", "---\nrun: x\n---\n")]);
    let mut resolver = registry.resolve_skills("@skill:a");
    let mut action = resolver.next();
    loop {
        action = match action {
            SkillAction::CheckTrust { .. } => resolver.on_trust(false),
            SkillAction::AskConsent(_) => resolver.on_consent(ConsentOutcome::ApproveAndPersist),
            SkillAction::Record { .. } => resolver.on_recorded(Err("disk full".to_string())),
            SkillAction::Continue => resolver.next(),
            SkillAction::Failed(error) => {
                assert!(error.contains("disk full"));
                break;
            }
            other => panic!("nothing may run once recording has failed: {other:?}"),
        }
    }
}

#[test]
fn files_that_are_no_markdown_or_cannot_be_read_are_passed_over() {
    let registry = user_commands(vec![
        file("notes.txt", "x"),
        file(".md", "x"),
        DirFile { name: "broken.md".to_string(), contents: None },
        file("ok.md", "plain body"),
    ]);
    assert!(registry.get("notes").is_none());
    assert!(registry.get("").is_none());
    assert!(registry.get("broken").is_none());
    assert_eq!(registry.get("ok").unwrap().template, "plain body");
    assert_eq!(registry.expand("no slash"), None);
}

#[test]
fn templates_and_front_matter_have_exact_readings() {
    assert_eq!(expand_template("$1-$2-$ARGUMENTS", "a"), "a-$2-a");
    assert_eq!(expand_template("$1-$2", " a  b "), "a-b");
    assert_eq!(expand_template("$1$2", "3 4"), "34");
    assert_eq!(expand_template("$1$ARGUMENTS$", "3 4"), "33 4$");
    let command = parse_command_file("no front matter");
    assert_eq!(command.template, "no front matter");
    assert_eq!(command.description, None);
    assert_eq!(parse_skill_run_field("run: x"), None);
}

#[test]
fn a_placeholder_is_its_whole_run_of_digits() {
    assert_eq!(expand_template("$10", "a"), "$10");
    assert_eq!(expand_template("$10 $1", "a"), "$10 a");
    assert_eq!(expand_template("$1st $12 $2.", "a b"), "ast $12 b.");
    assert_eq!(expand_template("$10-$1", "a b c d e f g h i j"), "j-a");
    assert_eq!(expand_template("$0 $01 $ $x $", "a"), "$0 $01 $ $x $");
    assert_eq!(expand_template("$1", ""), "$1");
    assert_eq!(expand_template("no marks", "a b"), "no marks");
}

#[test]
fn placeholders_in_arguments_are_those_of_lower_ones() {
    assert_eq!(expand_template("$2", "x $1"), "x");
    assert_eq!(expand_template("$1", "$2 x"), "$2");
    assert_eq!(expand_template("$1", "$10 x"), "$10");
    assert_eq!(expand_template("$2", "x $10"), "$10");
    assert_eq!(expand_template("$ARGUMENTS", "a $1"), "a a");
    assert_eq!(expand_template("$ARGUMENTS", "$10 x"), "$10 x");
}

/// Fills a template by replacing one placeholder after the other.
fn by_replacing(template: &str, args: &str) -> String {
    let mut result = template.replace("$ARGUMENTS", args);
    for (i, value) in args.split_whitespace().enumerate().collect::<Vec<_>>().iter().rev() {
        result = result.replace(&format!("${}", i + 1), value);
    }
    result
}

#[test]
fn placeholders_may_arise_where_texts_meet() {
    assert_eq!(expand_template("$$2", "x 1"), "x");
    assert_eq!(expand_template("$$2", "a 1"), "a");
    assert_eq!(expand_template("$1$12", "a b c d e f g h i j k 0"), "j");
    for template in [
        "", "$", "$$", "$$1", "$$2", "$1$2", "$2$1", "$$$2$1", "$ARGUMENTS$1", "$1$ARGUMENTS",
        "$$ARGUMENTS", "x$1y$2z", "$ARGUMENT", "$2S", "a $2 b $1 c", "$ARGUMENTS$ARGUMENTS",
    ] {
        for args in ["a b", "1 2", "x 1", "$ b", "$1 $2", "1 $1", "2 $", "$2 1", "$$ARGUMENTS 2"] {
            assert_eq!(
                expand_template(template, args),
                by_replacing(template, args),
                "{template:?} {args:?}"
            );
        }
    }
}

#[test]
fn each_mention_runs_the_command_that_was_shown_for_it() {
    let registry = project_skills(vec![
        file("one.md", "---\nrun: echo $1; ls\n---\n"),
        file("two.md", "---\nrun: make two\n---\n"),
        file("note.md", "plain"),
    ]);
    let mut store = fresh_store();

    let resolved = resolve(
        &registry,
        "a @skill:two b @skill:note c @skill:one, @skill:gone",
        &mut store,
        ConsentOutcome::ApproveWithoutPersisting,
    );

    let shown: Vec<String> = resolved.asked.iter().map(|q| q.command.clone()).collect();
    assert_eq!(shown, vec!["make two".to_string(), "echo $1; ls".to_string()]);
    assert_eq!(resolved.ran, shown);
    assert_eq!(
        resolved.text,
        "a output of make two b plain c output of echo $1; ls, @skill:gone"
    );
}
