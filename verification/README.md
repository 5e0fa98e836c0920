# rokr

The verified core of a terminal coding agent: the tool loop, permissions, hooks,
skills and their trust, mentions, context assembly and compaction, subagents,
headless runs, evaluation cases, and the rules around git, pull requests and
updates.

`src/` is the library. Every function states in its contract what it computes,
and Verus proves it, except for the few that only make a call outside and are
believed: `text::is_alphanumeric` and `text::debug_of` (the standard library's
character classes and quoting), `skill_trust::sha256` (the `sha2` crate),
`subagent::string_field` (`serde_json`) and `runner::seconds_since_epoch` (the
clock, of which nothing is claimed), and the specification of `String::push` in
`text`. The library does no I/O: where a conversation alternates
with the outside world, it is a state machine that takes what came back and
answers with the next thing to do. JSON values are held as their compact text,
and fractions (prices, thresholds, scores) are carried through as type
parameters.

`app/` is the ordinary Rust around it: the command line, files, processes, the
network, the JSON forms, and the drivers of the state machines.

`tests/` runs the library from outside.

The main state machines are `tool_loop::ToolLoop`, `submission::Submission`,
`subagent::SubagentRun`, `commands::SkillResolver`, `eval::EvalRun` and
`eval::CaseChecks`. Properties that span several functions are stated as `law_…`
proof functions beside them.
