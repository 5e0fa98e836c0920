//! Configuration: which version is supported, what is filled in by default,
//! which files are written, and where everything is kept.
//!
//! Prices and the compaction threshold are fractions that this module only
//! passes on, so it is generic in their types.

use vstd::prelude::*;
use crate::hooks::HookEntry;
use crate::io_failure::IoFailure;
use crate::text::{self, decimal_of, listed, path_join};
use crate::text_map::TextMap;

verus! {

/// One configured server of tools.
#[derive(Debug)]
pub struct McpServerConfig {
    pub transport: McpTransport,
    pub enabled: bool,
    /// The tools of this server, by their own names, that run unasked.
    pub auto_approve: Vec<String>,
}

impl McpServerConfig {
    /// Whether a tool of this server, by its own name, runs unasked.
    pub open spec fn approves(self, tool: Seq<char>) -> bool {
        text::texts(self.auto_approve@).contains(tool)
    }

    /// Whether a tool of this server, by its own name, runs unasked.
    pub fn auto_approves(&self, tool: &str) -> (r: bool)
        ensures
            r == self.approves(tool@),
    {
        listed(&self.auto_approve, tool)
    }
}

/// How a server is reached.
#[derive(Debug)]
pub enum McpTransport {
    Stdio(StdioTransportConfig),
    Http(HttpTransportConfig),
}

/// A server that is a child process.
#[derive(Debug)]
pub struct StdioTransportConfig {
    pub command: String,
    pub args: Vec<String>,
    pub env: TextMap<String>,
}

/// A server that is reached over HTTP.
#[derive(Debug)]
pub struct HttpTransportConfig {
    pub url: String,
    pub headers: TextMap<String>,
}

/// The configuration, with thresholds of type `T` and prices of type `P`.
#[derive(Debug)]
pub struct Config<T, P> {
    pub version: u32,
    pub context_window_size: u32,
    pub auto_compact_threshold: T,
    pub mcp: TextMap<McpServerConfig>,
    pub hooks: TextMap<Vec<HookEntry>>,
    pub model_pricing: TextMap<P>,
}

/// The version that is supported.
pub const SUPPORTED_VERSION: u32 = 1;

/// The context window where the configuration does not give one.
pub const DEFAULT_CONTEXT_WINDOW_SIZE: u32 = 200_000;

/// The prompt of the planning agent, written on first use.
pub const DEFAULT_PLAN_PROMPT: &'static str = "# Plan Agent

You are the Plan agent. Given a user request, analyze the relevant code and produce a clear, step-by-step implementation plan.

- Read enough of the codebase to understand the current behavior and conventions before proposing changes.
- Break the work into small, ordered steps that a Build agent can follow without further clarification.
- Call out risks, open questions, and files you expect to touch.
- Do not edit any files or write code yourself — your output is the plan.
";

/// The prompt of the building agent, written on first use.
pub const DEFAULT_BUILD_PROMPT: &'static str = "# Build Agent

You are the Build agent. Given an implementation plan, carry it out.

- Follow the plan's steps in order, adapting only when the plan conflicts with what you find in the code.
- Write tests alongside (or before) the code they cover, and keep the change scoped to what the plan describes.
- Prefer small, reviewable edits over large rewrites.
- Run the relevant tests before considering a step complete.
";

/// Why there is no configuration.
#[derive(Debug, PartialEq, Eq)]
pub enum ConfigError {
    /// A file could not be read or written.
    Io(String),
    /// The file does not hold a configuration.
    Invalid { path: String, source: String },
    /// The file is of another version.
    UnsupportedVersion { path: String, found: u32, supported: u32 },
}

impl ConfigError {
    /// The error in words.
    pub open spec fn message_spec(self) -> Seq<char> {
        match self {
            ConfigError::Io(e) => "failed to read or write config file: "@ + e@,
            ConfigError::Invalid { path, source } => "config file at "@ + path@
                + " is not valid: "@ + source@,
            ConfigError::UnsupportedVersion { path, found, supported } => "config file at "@ + path@
                + " has unsupported version "@ + text::decimal(found as nat) + " (supported: "@
                + text::decimal(supported as nat) + ")"@,
        }
    }

    /// The error in words.
    pub fn message(&self) -> (r: String)
        ensures
            r@ == self.message_spec(),
    {
        match self {
            ConfigError::Io(e) => {
                let mut m = "failed to read or write config file: ".to_owned();
                m.append(e.as_str());
                m
            },
            ConfigError::Invalid { path, source } => {
                let mut m = "config file at ".to_owned();
                m.append(path.as_str());
                m.append(" is not valid: ");
                m.append(source.as_str());
                m
            },
            ConfigError::UnsupportedVersion { path, found, supported } => {
                let mut m = "config file at ".to_owned();
                m.append(path.as_str());
                m.append(" has unsupported version ");
                m.append(decimal_of(*found as u128).as_str());
                m.append(" (supported: ");
                m.append(decimal_of(*supported as u128).as_str());
                m.append(")");
                m
            },
        }
    }
}

/// What was found at the configuration file's place.
pub enum ConfigFile<T, P> {
    /// Nothing.
    Absent,
    /// A file that could not be read.
    Unreadable(String),
    /// A file that does not hold a configuration.
    Malformed(String),
    /// A configuration, and whether its threshold lies in its range.
    Parsed { config: Config<T, P>, threshold_in_range: bool },
}

/// A configuration that is in force.
pub enum Loaded<T, P> {
    /// Made up from defaults; to be written to the file.
    Created(Config<T, P>),
    /// Read from the file, which stays as it is.
    Existing(Config<T, P>),
}

/// Finds out which configuration is in force. A file that is there is never
/// written; its prices win over the defaults, model by model, and a threshold
/// out of range gives way to the default.
pub fn load_or_init<T, P>(
    path: &str,
    file: ConfigFile<T, P>,
    default_threshold: T,
    default_pricing: TextMap<P>,
) -> (r: Result<Loaded<T, P>, ConfigError>)
    requires
        default_pricing.wf(),
        file matches ConfigFile::Parsed { config, .. } ==> config.model_pricing.wf(),
    ensures
        match file {
            ConfigFile::Absent => r matches Ok(Loaded::Created(c)) && c.version
                == SUPPORTED_VERSION && c.context_window_size == DEFAULT_CONTEXT_WINDOW_SIZE
                && c.auto_compact_threshold == default_threshold && c.mcp.wf() && c.mcp@
                == Map::<Seq<char>, McpServerConfig>::empty() && c.hooks.wf() && c.hooks@
                == Map::<Seq<char>, Vec<HookEntry>>::empty() && c.model_pricing
                == default_pricing,
            ConfigFile::Unreadable(e) => r matches Err(ConfigError::Io(m)) && m@ == e@,
            ConfigFile::Malformed(e) => r matches Err(ConfigError::Invalid { path: p, source })
                && p@ == path@ && source@ == e@,
            ConfigFile::Parsed { config, threshold_in_range } => if config.version
                != SUPPORTED_VERSION {
                r matches Err(ConfigError::UnsupportedVersion { path: p, found, supported }) && p@
                    == path@ && found == config.version && supported == SUPPORTED_VERSION
            } else {
                r matches Ok(Loaded::Existing(c)) && c.version == config.version
                    && c.context_window_size == config.context_window_size
                    && c.auto_compact_threshold == (if threshold_in_range {
                    config.auto_compact_threshold
                } else {
                    default_threshold
                }) && c.mcp == config.mcp && c.hooks == config.hooks && c.model_pricing.wf()
                    && c.model_pricing@ == default_pricing@.union_prefer_right(
                    config.model_pricing@,
                )
            },
        },
{
    match file {
        ConfigFile::Absent => Ok(
            Loaded::Created(
                Config {
                    version: SUPPORTED_VERSION,
                    context_window_size: DEFAULT_CONTEXT_WINDOW_SIZE,
                    auto_compact_threshold: default_threshold,
                    mcp: TextMap::new(),
                    hooks: TextMap::new(),
                    model_pricing: default_pricing,
                },
            ),
        ),
        ConfigFile::Unreadable(e) => Err(ConfigError::Io(e)),
        ConfigFile::Malformed(e) => Err(ConfigError::Invalid { path: path.to_owned(), source: e }),
        ConfigFile::Parsed { config, threshold_in_range } => {
            if config.version != SUPPORTED_VERSION {
                return Err(
                    ConfigError::UnsupportedVersion {
                        path: path.to_owned(),
                        found: config.version,
                        supported: SUPPORTED_VERSION,
                    },
                );
            }
            let mut model_pricing = default_pricing;
            model_pricing.absorb(config.model_pricing);
            Ok(
                Loaded::Existing(
                    Config {
                        version: config.version,
                        context_window_size: config.context_window_size,
                        auto_compact_threshold: if threshold_in_range {
                            config.auto_compact_threshold
                        } else {
                            default_threshold
                        },
                        mcp: config.mcp,
                        hooks: config.hooks,
                        model_pricing,
                    },
                ),
            )
        },
    }
}

/// The agent prompts that are to be written: those that are not there yet.
pub fn scaffold_agent_prompts(plan_exists: bool, build_exists: bool) -> (r: Vec<
    (&'static str, &'static str),
>)
    ensures
        r@ == (if plan_exists {
            Seq::empty()
        } else {
            seq![("plan.md", DEFAULT_PLAN_PROMPT)]
        }) + (if build_exists {
            Seq::<(&'static str, &'static str)>::empty()
        } else {
            seq![("build.md", DEFAULT_BUILD_PROMPT)]
        }),
{
    let mut r: Vec<(&'static str, &'static str)> = Vec::new();
    if !plan_exists {
        r.push(("plan.md", DEFAULT_PLAN_PROMPT));
    }
    if !build_exists {
        r.push(("build.md", DEFAULT_BUILD_PROMPT));
    }
    r
}

/// Where an agent's prompt is kept.
pub open spec fn prompt_path(config_dir: Seq<char>, agent: Seq<char>) -> Seq<char> {
    text::join_path(text::join_path(config_dir, "agents"@), agent + ".md"@)
}

/// Where an agent's prompt is kept.
pub fn agent_prompt_path(config_dir: &str, agent: &str) -> (r: String)
    ensures
        r@ == prompt_path(config_dir@, agent@),
{
    let dir = path_join(config_dir, "agents");
    let mut file = agent.to_owned();
    file.append(".md");
    path_join(dir.as_str(), file.as_str())
}

/// What reading `AGENTS.md` came to.
#[derive(Debug, PartialEq, Eq)]
pub enum ProjectContext {
    /// The project's context.
    Found(String),
    /// The file is not there: the project's other instruction file stands in.
    TryFallback,
    /// The file is there and cannot be read: no context, and no fallback.
    Unavailable,
}

/// Decides from what reading `AGENTS.md` came to. Only its absence leads to
/// the other file.
pub fn load_project_context(agents_md: Result<String, IoFailure>) -> (r: ProjectContext)
    ensures
        match agents_md {
            Ok(content) => r == ProjectContext::Found(content),
            Err(e) => r == (if e.not_found {
                ProjectContext::TryFallback
            } else {
                ProjectContext::Unavailable
            }),
        },
{
    match agents_md {
        Ok(content) => ProjectContext::Found(content),
        Err(e) => if e.not_found {
            ProjectContext::TryFallback
        } else {
            ProjectContext::Unavailable
        },
    }
}

/// A directory for this program: below the directory that the environment
/// names, else below a place in the home directory, else below that place
/// taken relatively.
pub open spec fn base_dir(
    xdg: Option<Seq<char>>,
    home: Option<Seq<char>>,
    place: Seq<char>,
) -> Seq<char> {
    let base = if xdg is Some && xdg->0.len() > 0 {
        xdg->0
    } else if home is Some {
        text::join_path(home->0, place)
    } else {
        place
    };
    text::join_path(base, "rokr"@)
}

fn program_dir(xdg: Option<&str>, home: Option<&str>, place: &str) -> (r: String)
    ensures
        r@ == base_dir(text::opt_str(xdg), text::opt_str(home), place@),
{
    let base: String = match (xdg, home) {
        (Some(dir), Some(h)) => if dir.is_empty() {
            path_join(h, place)
        } else {
            dir.to_owned()
        },
        (Some(dir), None) => if dir.is_empty() {
            place.to_owned()
        } else {
            dir.to_owned()
        },
        (None, Some(h)) => path_join(h, place),
        (None, None) => place.to_owned(),
    };
    path_join(base.as_str(), "rokr")
}

/// The configuration directory, from `XDG_CONFIG_HOME` and `HOME`. An empty
/// value of the first counts as absent.
pub fn default_config_dir(xdg_config_home: Option<&str>, home: Option<&str>) -> (r: String)
    ensures
        r@ == base_dir(text::opt_str(xdg_config_home), text::opt_str(home), ".config"@),
{
    program_dir(xdg_config_home, home, ".config")
}

/// The data directory, from `XDG_DATA_HOME` and `HOME`. An empty value of the
/// first counts as absent.
pub fn default_data_dir(xdg_data_home: Option<&str>, home: Option<&str>) -> (r: String)
    ensures
        r@ == base_dir(text::opt_str(xdg_data_home), text::opt_str(home), ".local/share"@),
{
    program_dir(xdg_data_home, home, ".local/share")
}

/// A user's price for a model wins, and every model that only the defaults
/// price keeps its default.
pub proof fn law_prices_merge_model_by_model<P>(
    defaults: Map<Seq<char>, P>,
    user: Map<Seq<char>, P>,
    model: Seq<char>,
)
    ensures
        ({
            let merged = defaults.union_prefer_right(user);
            &&& merged.contains_key(model) <==> defaults.contains_key(model) || user.contains_key(
                model,
            )
            &&& user.contains_key(model) ==> merged[model] == user[model]
            &&& !user.contains_key(model) && defaults.contains_key(model) ==> merged[model]
                == defaults[model]
        }),
{
}

/// A tool runs unasked exactly if it stands anywhere on its server's list, by its
/// whole name.
pub proof fn law_every_listed_tool_is_approved(server: McpServerConfig, tool: Seq<char>)
    ensures
        server.approves(tool) <==> exists|i: int|
            0 <= i < server.auto_approve@.len() && (#[trigger] server.auto_approve@[i])@ == tool,
{
    let names = text::texts(server.auto_approve@);
    if server.approves(tool) {
        let i = names.index_of(tool);
        assert(names[i] == server.auto_approve@[i]@);
    }
    if exists|i: int|
        0 <= i < server.auto_approve@.len() && (#[trigger] server.auto_approve@[i])@ == tool {
        let i = choose|i: int|
            0 <= i < server.auto_approve@.len() && (#[trigger] server.auto_approve@[i])@ == tool;
        assert(names[i] == tool);
    }
}

/// A directory that the environment names wins, unless it is empty; then comes the
/// place in the home directory, and then the place by itself. The program's own
/// directory lies below it.
pub proof fn law_the_environment_names_the_directory(
    xdg: Seq<char>,
    home: Seq<char>,
    place: Seq<char>,
)
    ensures
        xdg.len() > 0 ==> base_dir(Some(xdg), Some(home), place) == text::join_path(xdg, "rokr"@)
            && base_dir(Some(xdg), None, place) == text::join_path(xdg, "rokr"@),
        base_dir(None, Some(home), place) == text::join_path(
            text::join_path(home, place),
            "rokr"@,
        ),
        base_dir(None, None, place) == text::join_path(place, "rokr"@),
        base_dir(Some(Seq::empty()), Some(home), place) == base_dir(None, Some(home), place),
        base_dir(Some(Seq::empty()), None, place) == base_dir(None, None, place),
{
}

/// An agent's prompt is a markdown file of its name among the agents.
pub proof fn law_prompts_are_kept_by_name(dir: Seq<char>, agent: Seq<char>)
    requires
        dir.len() > 0,
        dir.last() != '/',
        agent.len() > 0,
        agent[0] != '/',
    ensures
        prompt_path(dir, agent) == dir + "/agents/"@ + agent + ".md"@,
{
    reveal_strlit("agents");
    reveal_strlit("/agents/");
    let agents = "agents"@;
    let file = agent + ".md"@;
    text::law_paths_are_joined_by_one_slash(dir, agents);
    let below = text::join_path(dir, agents);
    assert(below.last() == 's');
    text::law_paths_are_joined_by_one_slash(below, file);
    assert(file[0] == agent[0]);
    assert(prompt_path(dir, agent) =~= dir + "/agents/"@ + agent + ".md"@);
}

/// Every error is told with the file it is about and its cause, whole.
pub proof fn law_errors_tell_file_and_cause(path: String, source: String, found: u32, supported: u32)
    ensures
        ConfigError::Io(source).message_spec() == "failed to read or write config file: "@
            + source@,
        (ConfigError::Invalid { path, source }).message_spec() == "config file at "@ + path@
            + " is not valid: "@ + source@,
        (ConfigError::UnsupportedVersion { path, found, supported }).message_spec()
            == "config file at "@ + path@ + " has unsupported version "@ + text::decimal(
            found as nat,
        ) + " (supported: "@ + text::decimal(supported as nat) + ")"@,
{
}

} // verus!
