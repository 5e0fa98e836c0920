use rokr::config::{
    agent_prompt_path, default_config_dir, default_data_dir, load_or_init, load_project_context,
    scaffold_agent_prompts, Config, ConfigError, ConfigFile, Loaded, ProjectContext,
    DEFAULT_BUILD_PROMPT, DEFAULT_CONTEXT_WINDOW_SIZE, DEFAULT_PLAN_PROMPT, SUPPORTED_VERSION,
};
use rokr::io_failure::IoFailure;
use rokr::text_map::TextMap;

const DEFAULT_THRESHOLD: f64 = 0.7;

fn pricing(entries: &[(&str, f64)]) -> TextMap<f64> {
    let mut map = TextMap::new();
    for (model, price) in entries {
        map.insert(model.to_string(), *price);
    }
    map
}

fn parsed(version: u32, window: u32, threshold: f64, prices: &[(&str, f64)]) -> ConfigFile<f64, f64> {
    ConfigFile::Parsed {
        config: Config {
            version,
            context_window_size: window,
            auto_compact_threshold: threshold,
            mcp: TextMap::new(),
            hooks: TextMap::new(),
            model_pricing: pricing(prices),
        },
        threshold_in_range: threshold > 0.0 && threshold <= 1.0,
    }
}

fn load(file: ConfigFile<f64, f64>) -> Result<Loaded<f64, f64>, ConfigError> {
    load_or_init(
        "/c/rokr.json",
        file,
        DEFAULT_THRESHOLD,
        pricing(&[("gpt-4o-mini", 1.0), ("gpt-4o", 2.0)]),
    )
}

fn existing(file: ConfigFile<f64, f64>) -> Config<f64, f64> {
    match load(file) {
        Ok(Loaded::Existing(config)) => config,
        Ok(Loaded::Created(_)) => panic!("an existing file must never be rewritten"),
        Err(err) => panic!("expected the configuration to load: {}", err.message()),
    }
}

#[test]
fn load_or_init_creates_versioned_config() {
    match load(ConfigFile::Absent) {
        Ok(Loaded::Created(config)) => {
            assert_eq!(config.version, 1);
            assert_eq!(config.context_window_size, DEFAULT_CONTEXT_WINDOW_SIZE);
            assert_eq!(config.auto_compact_threshold, 0.7);
            assert_eq!(config.mcp.len(), 0);
            assert_eq!(config.hooks.len(), 0);
            assert_eq!(config.model_pricing.len(), 2);
        }
        _ => panic!("expected a fresh configuration"),
    }
}

#[test]
fn load_or_init_honors_explicit_compaction_settings_when_present() {
    let config = existing(parsed(1, 50_000, 0.5, &[]));
    assert_eq!(config.context_window_size, 50_000);
    assert_eq!(config.auto_compact_threshold, 0.5);
}

#[test]
fn load_or_init_clamps_out_of_range_auto_compact_threshold_to_default() {
    let config = existing(parsed(1, 200_000, 5.0, &[]));
    assert_eq!(
        config.auto_compact_threshold, 0.7,
        "an out-of-range auto_compact_threshold must be clamped to the default"
    );
}

#[test]
fn load_or_init_applies_empty_mcp_default_when_field_absent() {
    let config = existing(parsed(1, 200_000, 0.7, &[]));
    assert_eq!(config.mcp.len(), 0);
}

#[test]
fn load_or_init_rejects_unsupported_config_version() {
    let result = load(parsed(2, 200_000, 0.7, &[]));
    assert!(
        matches!(
            result,
            Err(ConfigError::UnsupportedVersion { found: 2, supported: 1, .. })
        ),
        "expected UnsupportedVersion of 2 against 1"
    );
    assert_eq!(SUPPORTED_VERSION, 1);
}

#[test]
fn config_missing_model_pricing_field_loads_with_built_in_defaults_and_is_never_rewritten() {
    let config = existing(parsed(1, 200_000, 0.7, &[]));
    assert_eq!(config.model_pricing.len(), 2);
    assert_eq!(config.model_pricing.get("gpt-4o-mini"), Some(&1.0));
}

#[test]
fn config_model_pricing_user_entry_overrides_only_its_own_model_key() {
    let config = existing(parsed(1, 200_000, 0.7, &[("gpt-4o", 9.0)]));
    assert_eq!(
        config.model_pricing.get("gpt-4o"),
        Some(&9.0),
        "the user's custom rate for the model they named must win"
    );
    assert_eq!(
        config.model_pricing.get("gpt-4o-mini"),
        Some(&1.0),
        "a built-in default model the user's file didn't mention must still resolve"
    );
}

#[test]
fn unusable_files_are_errors() {
    assert!(matches!(load(ConfigFile::Unreadable("denied".to_string())), Err(ConfigError::Io(_))));
    match load(ConfigFile::Malformed("line 1".to_string())) {
        Err(ConfigError::Invalid { path, source }) => {
            assert_eq!(path, "/c/rokr.json");
            assert_eq!(source, "line 1");
        }
        _ => panic!("expected an invalid configuration"),
    }
    for err in [
        ConfigError::Io("denied".to_string()),
        ConfigError::Invalid { path: "/p".to_string(), source: "denied".to_string() },
    ] {
        assert!(err.message().contains("denied"));
    }
    let err = ConfigError::UnsupportedVersion { path: "/p".to_string(), found: 2, supported: 1 };
    assert!(err.message().contains('2') && err.message().contains('1'));
}

#[test]
fn scaffold_writes_plan_and_build_prompts() {
    let written = scaffold_agent_prompts(false, false);
    assert_eq!(written.len(), 2);
    assert_eq!(written[0], ("plan.md", DEFAULT_PLAN_PROMPT));
    assert_eq!(written[1], ("build.md", DEFAULT_BUILD_PROMPT));
    for (_, contents) in written {
        assert!(!contents.trim().is_empty());
    }
}

#[test]
fn scaffold_skips_existing_prompt_files() {
    let written = scaffold_agent_prompts(true, false);
    assert_eq!(written, vec![("build.md", DEFAULT_BUILD_PROMPT)]);
    let written = scaffold_agent_prompts(false, true);
    assert_eq!(written, vec![("plan.md", DEFAULT_PLAN_PROMPT)]);
    assert!(scaffold_agent_prompts(true, true).is_empty());
}

#[test]
fn read_agent_prompt_returns_scaffolded_content() {
    let written = scaffold_agent_prompts(false, false);
    assert!(written[0].1.contains("# Plan Agent"));
    assert!(written[1].1.contains("# Build Agent"));
    assert_eq!(agent_prompt_path("/c", "plan"), "/c/agents/plan.md");
    assert_eq!(agent_prompt_path("/c", "build"), "/c/agents/build.md");
}

#[test]
fn default_config_dir_treats_empty_xdg_config_home_as_unset() {
    assert_eq!(
        default_config_dir(Some(""), Some("/tmp/rokr-test-home")),
        "/tmp/rokr-test-home/.config/rokr"
    );
    assert_eq!(default_config_dir(Some("/x"), Some("/h")), "/x/rokr");
    assert_eq!(default_config_dir(None, Some("/h")), "/h/.config/rokr");
    assert_eq!(default_data_dir(Some("/x"), Some("/h")), "/x/rokr");
    assert_eq!(default_data_dir(None, Some("/h")), "/h/.local/share/rokr");
}

#[test]
fn load_project_context_reads_agents_md_when_present() {
    let agents_content = "# Project AGENTS.md\nUse tabs, not spaces, in this repo.";
    assert_eq!(
        load_project_context(Ok(agents_content.to_string())),
        ProjectContext::Found(agents_content.to_string())
    );
}

#[test]
fn load_project_context_falls_back_to_claude_md_when_agents_md_absent() {
    assert_eq!(
        load_project_context(Err(IoFailure::missing("not found"))),
        ProjectContext::TryFallback
    );
}

#[test]
fn load_project_context_does_not_fall_back_when_agents_md_is_unreadable() {
    assert_eq!(
        load_project_context(Err(IoFailure::other("permission denied"))),
        ProjectContext::Unavailable
    );
}
