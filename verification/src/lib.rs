//! A coding agent's decision core: the parts of the agent that compute, with
//! no I/O of their own, each stated in a contract and proved.

pub mod assertions;
pub mod case;
pub mod cli;
pub mod commands;
pub mod commit_candidate_set;
pub mod compaction;
pub mod config;
pub mod context;
pub mod eval;
pub mod gh;
pub mod git;
pub mod git_readonly;
pub mod headless;
pub mod hooks;
pub mod io_failure;
pub mod judge;
pub mod mcp;
pub mod mentions;
pub mod message;
pub mod permission_policy;
pub mod prompt;
pub mod result_schema;
pub mod runner;
pub mod skill_trust;
pub mod subagent;
pub mod submission;
pub mod text;
pub mod text_map;
pub mod tool_loop;
pub mod upgrade;
