//! The assertions that decide whether an evaluation case passed.
//!
//! Looking at files and running commands is outside. `probe` says what to look
//! at, and the checks judge what was seen.

use vstd::prelude::*;
use crate::case::Assertion;
use crate::text::{
    self, copy_strings, debug_of, decimal_of_i32, has, path_join, text_eq, trimmed,
};

verus! {

/// What came of an assertion.
#[derive(Debug, PartialEq, Eq)]
pub struct AssertionOutcome {
    /// Which assertion it is.
    pub description: String,
    pub passed: bool,
    /// Why it passed or failed.
    pub detail: String,
}

/// What is to be looked at for an assertion.
#[derive(Debug)]
pub enum Probe {
    /// Whether the path exists.
    Exists(String),
    /// What the file holds.
    Contents(String),
    /// What `git -C` with this directory and `diff` prints.
    Diff(String),
    /// The exit code of a command, run in the directory.
    Exit { dir: String, command: String, args: Vec<String> },
    /// Nothing.
    Nothing,
}

/// What was seen.
#[derive(Debug)]
pub enum Seen {
    Exists(bool),
    Contents(Result<String, String>),
    Diff(Result<String, String>),
    /// The exit code; none for a command that a signal killed.
    Exit(Result<Option<i32>, String>),
    Nothing,
}

/// Whether a probe looks at what an assertion speaks of.
pub open spec fn probes(probe: Probe, fixture_dir: Seq<char>, assertion: Assertion) -> bool {
    match assertion {
        Assertion::FileExists { path } => probe matches Probe::Exists(p) && p@ == text::join_path(
            fixture_dir,
            path@,
        ),
        Assertion::FileContains { path, .. } => probe matches Probe::Contents(p) && p@
            == text::join_path(fixture_dir, path@),
        Assertion::GitDiff { .. } => probe matches Probe::Diff(d) && d@ == fixture_dir,
        Assertion::CommandExit { command, args, .. } => probe matches Probe::Exit {
            dir: d,
            command: c,
            args: a,
        } && d@ == fixture_dir && c@ == command@ && text::texts(a@) == text::texts(args@),
        Assertion::JudgeRubric { .. } => probe is Nothing,
    }
}

/// What is to be looked at for an assertion.
pub fn probe(fixture_dir: &str, assertion: &Assertion) -> (r: Probe)
    ensures
        probes(r, fixture_dir@, *assertion),
{
    match assertion {
        Assertion::FileExists { path } => Probe::Exists(path_join(fixture_dir, path.as_str())),
        Assertion::FileContains { path, .. } => Probe::Contents(
            path_join(fixture_dir, path.as_str()),
        ),
        Assertion::GitDiff { .. } => Probe::Diff(fixture_dir.to_owned()),
        Assertion::CommandExit { command, args, .. } => Probe::Exit {
            dir: fixture_dir.to_owned(),
            command: command.clone(),
            args: copy_strings(args),
        },
        Assertion::JudgeRubric { .. } => Probe::Nothing,
    }
}

/// Passes where the file exists.
pub fn check_file_exists(fixture_dir: &str, relative_path: &str, exists: bool) -> (r:
    AssertionOutcome)
    ensures
        r.passed == exists,
        r.description@ == "file_exists("@ + relative_path@ + ")"@,
        r.detail@ == (if exists {
            "found "@ + text::join_path(fixture_dir@, relative_path@)
        } else {
            "not found: "@ + text::join_path(fixture_dir@, relative_path@)
        }),
{
    let target = path_join(fixture_dir, relative_path);
    let mut description = "file_exists(".to_owned();
    description.append(relative_path);
    description.append(")");
    let mut detail = if exists {
        "found ".to_owned()
    } else {
        "not found: ".to_owned()
    };
    detail.append(target.as_str());
    AssertionOutcome { description, passed: exists, detail }
}

/// Passes where the diff is the expected one, but for the white space around
/// the two.
pub fn check_git_diff(fixture_dir: &str, expected_diff: &str, diff: &Result<String, String>) -> (r:
    AssertionOutcome)
    ensures
        r.description@ == "git_diff"@,
        match *diff {
            Ok(actual) => {
                &&& r.passed == (text::trim(actual@) == text::trim(expected_diff@))
                &&& r.detail@ == (if r.passed {
                    "diff matches expected"@
                } else {
                    "diff mismatch; actual diff was:\n"@ + actual@
                })
            },
            Err(e) => !r.passed && r.detail@ == "failed to run `git diff` in "@ + fixture_dir@
                + ": "@ + e@,
        },
{
    match diff {
        Ok(actual) => {
            let passed = text_eq(
                trimmed(actual.as_str()).as_str(),
                trimmed(expected_diff).as_str(),
            );
            let detail = if passed {
                "diff matches expected".to_owned()
            } else {
                let mut m = "diff mismatch; actual diff was:\n".to_owned();
                m.append(actual.as_str());
                m
            };
            AssertionOutcome { description: "git_diff".to_owned(), passed, detail }
        },
        Err(e) => {
            let mut detail = "failed to run `git diff` in ".to_owned();
            detail.append(fixture_dir);
            detail.append(": ");
            detail.append(e.as_str());
            AssertionOutcome { description: "git_diff".to_owned(), passed: false, detail }
        },
    }
}

/// The code that is shown for a command; a killed one has none of its own.
pub open spec fn shown_code(code: Option<i32>) -> i32 {
    match code {
        Some(c) => c,
        None => -1i32,
    }
}

/// Passes where the command exited with the expected code. A command that a
/// signal killed never passes.
pub fn check_command_exit(
    fixture_dir: &str,
    command: &str,
    expected_code: i32,
    exit: &Result<Option<i32>, String>,
) -> (r: AssertionOutcome)
    ensures
        r.description@ == "command_exit("@ + command@ + ")"@,
        match *exit {
            Ok(code) => {
                &&& r.passed == (code == Some(expected_code))
                &&& r.detail@ == "expected exit code "@ + text::decimal_int(expected_code as int)
                    + ", got "@ + text::decimal_int(shown_code(code) as int)
            },
            Err(e) => !r.passed && r.detail@ == "failed to run `"@ + command@ + "` in "@
                + fixture_dir@ + ": "@ + e@,
        },
{
    let mut description = "command_exit(".to_owned();
    description.append(command);
    description.append(")");
    match exit {
        Ok(code) => {
            let (passed, shown): (bool, i32) = match code {
                Some(c) => (*c == expected_code, *c),
                None => (false, -1i32),
            };
            let mut detail = "expected exit code ".to_owned();
            detail.append(decimal_of_i32(expected_code).as_str());
            detail.append(", got ");
            detail.append(decimal_of_i32(shown).as_str());
            AssertionOutcome { description, passed, detail }
        },
        Err(e) => {
            let mut detail = "failed to run `".to_owned();
            detail.append(command);
            detail.append("` in ");
            detail.append(fixture_dir);
            detail.append(": ");
            detail.append(e.as_str());
            AssertionOutcome { description, passed: false, detail }
        },
    }
}

/// Passes where the file can be read and holds the pattern.
pub fn check_file_contains(
    fixture_dir: &str,
    relative_path: &str,
    pattern: &str,
    contents: &Result<String, String>,
) -> (r: AssertionOutcome)
    ensures
        r.description@ == "file_contains("@ + relative_path@ + ", "@ + text::debug_text(pattern@)
            + ")"@,
        match *contents {
            Ok(held) => {
                &&& r.passed == text::contains(held@, pattern@)
                &&& r.detail@ == (if r.passed {
                    "pattern found"@
                } else {
                    "pattern not found in "@ + text::join_path(fixture_dir@, relative_path@)
                })
            },
            Err(e) => !r.passed && r.detail@ == "failed to read "@ + text::join_path(
                fixture_dir@,
                relative_path@,
            ) + ": "@ + e@,
        },
{
    let target = path_join(fixture_dir, relative_path);
    let mut description = "file_contains(".to_owned();
    description.append(relative_path);
    description.append(", ");
    description.append(debug_of(pattern).as_str());
    description.append(")");
    match contents {
        Ok(held) => {
            let passed = has(held.as_str(), pattern);
            let detail = if passed {
                "pattern found".to_owned()
            } else {
                let mut m = "pattern not found in ".to_owned();
                m.append(target.as_str());
                m
            };
            AssertionOutcome { description, passed, detail }
        },
        Err(e) => {
            let mut detail = "failed to read ".to_owned();
            detail.append(target.as_str());
            detail.append(": ");
            detail.append(e.as_str());
            AssertionOutcome { description, passed: false, detail }
        },
    }
}

/// Whether what was seen is what the assertion's probe asks for.
pub open spec fn answers(assertion: Assertion, seen: Seen) -> bool {
    match assertion {
        Assertion::FileExists { .. } => seen is Exists,
        Assertion::FileContains { .. } => seen is Contents,
        Assertion::GitDiff { .. } => seen is Diff,
        Assertion::CommandExit { .. } => seen is Exit,
        Assertion::JudgeRubric { .. } => true,
    }
}

/// Whether an assertion holds, given what was seen.
pub open spec fn holds(assertion: Assertion, seen: Seen) -> bool {
    match (assertion, seen) {
        (Assertion::FileExists { .. }, Seen::Exists(exists)) => exists,
        (Assertion::FileContains { pattern, .. }, Seen::Contents(Ok(held))) => text::contains(
            held@,
            pattern@,
        ),
        (Assertion::GitDiff { expected }, Seen::Diff(Ok(actual))) => text::trim(actual@)
            == text::trim(expected@),
        (Assertion::CommandExit { expected_code, .. }, Seen::Exit(Ok(code))) => code == Some(
            expected_code,
        ),
        _ => false,
    }
}

/// The label of an assertion.
pub open spec fn label(assertion: Assertion) -> Seq<char> {
    match assertion {
        Assertion::FileExists { path } => "file_exists("@ + path@ + ")"@,
        Assertion::FileContains { path, pattern } => "file_contains("@ + path@ + ", "@
            + text::debug_text(pattern@) + ")"@,
        Assertion::GitDiff { .. } => "git_diff"@,
        Assertion::CommandExit { command, .. } => "command_exit("@ + command@ + ")"@,
        Assertion::JudgeRubric { rubric } => "judge_rubric("@ + text::debug_text(rubric@) + ")"@,
    }
}

/// Why an assertion passed or failed, in words.
pub open spec fn reason(fixture_dir: Seq<char>, assertion: Assertion, seen: Seen) -> Seq<char> {
    match (assertion, seen) {
        (Assertion::FileExists { path }, Seen::Exists(exists)) => if exists {
            "found "@ + text::join_path(fixture_dir, path@)
        } else {
            "not found: "@ + text::join_path(fixture_dir, path@)
        },
        (Assertion::FileContains { path, pattern }, Seen::Contents(Ok(held))) => if text::contains(
            held@,
            pattern@,
        ) {
            "pattern found"@
        } else {
            "pattern not found in "@ + text::join_path(fixture_dir, path@)
        },
        (Assertion::FileContains { path, .. }, Seen::Contents(Err(e))) => "failed to read "@
            + text::join_path(fixture_dir, path@) + ": "@ + e@,
        (Assertion::GitDiff { expected }, Seen::Diff(Ok(actual))) => if text::trim(actual@)
            == text::trim(expected@) {
            "diff matches expected"@
        } else {
            "diff mismatch; actual diff was:\n"@ + actual@
        },
        (Assertion::GitDiff { .. }, Seen::Diff(Err(e))) => "failed to run `git diff` in "@
            + fixture_dir + ": "@ + e@,
        (Assertion::CommandExit { expected_code, .. }, Seen::Exit(Ok(code))) =>
        "expected exit code "@ + text::decimal_int(expected_code as int) + ", got "@
            + text::decimal_int(shown_code(code) as int),
        (Assertion::CommandExit { command, .. }, Seen::Exit(Err(e))) => "failed to run `"@
            + command@ + "` in "@ + fixture_dir + ": "@ + e@,
        _ =>
        "judge-rubric assertions are scored via judge::score_rubric and routed there by lib.rs's per-case loop before this function is ever called; check_assertion has no way to score a rubric itself, so this is reported as failed-by-construction rather than panicking"@,
    }
}

/// Checks an assertion against what was seen. A rubric cannot be checked here:
/// it is reported as failed, with an explanation.
pub fn check_assertion(fixture_dir: &str, assertion: &Assertion, seen: &Seen) -> (r:
    AssertionOutcome)
    requires
        answers(*assertion, *seen),
    ensures
        r.passed == holds(*assertion, *seen),
        r.description@ == label(*assertion),
        r.detail@ == reason(fixture_dir@, *assertion, *seen),
{
    match (assertion, seen) {
        (Assertion::FileExists { path }, Seen::Exists(exists)) => check_file_exists(
            fixture_dir,
            path.as_str(),
            *exists,
        ),
        (Assertion::FileContains { path, pattern }, Seen::Contents(contents)) =>
        check_file_contains(fixture_dir, path.as_str(), pattern.as_str(), contents),
        (Assertion::GitDiff { expected }, Seen::Diff(diff)) => check_git_diff(
            fixture_dir,
            expected.as_str(),
            diff,
        ),
        (Assertion::CommandExit { command, expected_code, .. }, Seen::Exit(exit)) =>
        check_command_exit(fixture_dir, command.as_str(), *expected_code, exit),
        _ => {
            let description = rubric_label(assertion);
            AssertionOutcome {
                description,
                passed: false,
                detail:
                    "judge-rubric assertions are scored via judge::score_rubric and routed there by lib.rs's per-case loop before this function is ever called; check_assertion has no way to score a rubric itself, so this is reported as failed-by-construction rather than panicking".to_owned(),
            }
        },
    }
}

/// The label of a rubric.
fn rubric_label(assertion: &Assertion) -> (r: String)
    requires
        assertion is JudgeRubric,
    ensures
        r@ == label(*assertion),
{
    let mut out = "judge_rubric(".to_owned();
    match assertion {
        Assertion::JudgeRubric { rubric } => {
            out.append(debug_of(rubric.as_str()).as_str());
        },
        _ => {},
    }
    out.append(")");
    out
}

// ---------------------------------------------------------------------------
// Laws
// ---------------------------------------------------------------------------

/// A file holds a pattern wherever it stands in the file, and only if it stands
/// there; a file that cannot be read holds none.
pub proof fn law_patterns_are_found_anywhere(
    path: String,
    pattern: String,
    held: String,
    why: String,
    a: Seq<char>,
    b: Seq<char>,
)
    ensures
        held@ == a + pattern@ + b ==> holds(
            Assertion::FileContains { path, pattern },
            Seen::Contents(Ok(held)),
        ),
        holds(Assertion::FileContains { path, pattern }, Seen::Contents(Ok(held)))
            ==> exists|x: Seq<char>, y: Seq<char>| held@ == #[trigger] (x + pattern@ + y),
        !holds(Assertion::FileContains { path, pattern }, Seen::Contents(Err(why))),
{
    if held@ == a + pattern@ + b {
        let n = a.len() as int;
        assert(held@.subrange(n, n + pattern@.len()) =~= pattern@);
        assert(text::occurs_at(held@, pattern@, n));
    }
    if text::contains(held@, pattern@) {
        let i = choose|i: int| text::occurs_at(held@, pattern@, i);
        let x = held@.take(i);
        let y = held@.skip(i + pattern@.len());
        assert(held@.subrange(i, i + pattern@.len()) == pattern@);
        assert(held@ =~= x + pattern@ + y);
    }
}

/// A diff is the expected one if the two agree but for the white space around
/// them, and only then.
pub proof fn law_diffs_agree_but_for_white_space_around(
    expected: String,
    actual: String,
    why: String,
    a: Seq<char>,
    s: Seq<char>,
    b: Seq<char>,
    c: Seq<char>,
    t: Seq<char>,
    d: Seq<char>,
)
    requires
        actual@ == a + s + b,
        expected@ == c + t + d,
        forall|i: int| 0 <= i < a.len() ==> text::white(#[trigger] a[i]),
        forall|i: int| 0 <= i < b.len() ==> text::white(#[trigger] b[i]),
        forall|i: int| 0 <= i < c.len() ==> text::white(#[trigger] c[i]),
        forall|i: int| 0 <= i < d.len() ==> text::white(#[trigger] d[i]),
        s.len() > 0 ==> !text::white(s[0]) && !text::white(s.last()),
        t.len() > 0 ==> !text::white(t[0]) && !text::white(t.last()),
    ensures
        holds(Assertion::GitDiff { expected }, Seen::Diff(Ok(actual))) <==> s == t,
        !holds(Assertion::GitDiff { expected }, Seen::Diff(Err(why))),
{
    text::law_trimming_keeps_what_is_between(a, s, b);
    text::law_trimming_keeps_what_is_between(c, t, d);
}

/// A file has to be there, and a command has to exit by itself and with the very
/// code that is expected; a rubric is never decided by a check.
pub proof fn law_presence_and_exits_are_exact(
    path: String,
    command: String,
    args: Vec<String>,
    expected_code: i32,
    exists: bool,
    code: Option<i32>,
    why: String,
    rubric: String,
    seen: Seen,
)
    ensures
        holds(Assertion::FileExists { path }, Seen::Exists(exists)) <==> exists,
        holds(Assertion::CommandExit { command, args, expected_code }, Seen::Exit(Ok(code))) <==> (
        code is Some && code->0 == expected_code),
        !holds(Assertion::CommandExit { command, args, expected_code }, Seen::Exit(Err(why))),
        !holds(Assertion::JudgeRubric { rubric }, seen),
{
}

/// An assertion is looked at where it says: a file below the fixture, the
/// fixture's own diff, or the command with all its arguments in the fixture.
pub proof fn law_probes_look_where_assertions_say(p: Probe, dir: Seq<char>, assertion: Assertion)
    requires
        probes(p, dir, assertion),
    ensures
        assertion matches Assertion::FileExists { path } ==> p is Exists && p->Exists_0@
            == text::join_path(dir, path@),
        assertion matches Assertion::FileContains { path, pattern } ==> p is Contents
            && p->Contents_0@ == text::join_path(dir, path@),
        assertion is GitDiff ==> p is Diff && p->Diff_0@ == dir,
        assertion matches Assertion::CommandExit { command, args, expected_code } ==> p is Exit
            && p->dir@ == dir && p->command@ == command@ && p->args@.len() == args@.len() && (
        forall|i: int| 0 <= i < args@.len() ==> (#[trigger] p->args@[i])@ == args@[i]@),
{
    if let Assertion::CommandExit { command, args, expected_code } = assertion {
        let x = p->args@;
        assert(text::texts(x).len() == text::texts(args@).len());
        assert forall|i: int| 0 <= i < args@.len() implies (#[trigger] x[i])@ == args@[i]@ by {
            assert(text::texts(x)[i] == text::texts(args@)[i]);
        }
    }
}

/// A check is reported under its kind and what it is about.
pub proof fn law_labels_name_kind_and_subject(
    path: String,
    pattern: String,
    command: String,
    args: Vec<String>,
    code: i32,
)
    ensures
        label(Assertion::FileExists { path }) == "file_exists("@ + path@ + ")"@,
        label(Assertion::FileContains { path, pattern }) == "file_contains("@ + path@ + ", "@
            + text::debug_text(pattern@) + ")"@,
        label(Assertion::GitDiff { expected: pattern }) == "git_diff"@,
        label(Assertion::CommandExit { command, args, expected_code: code }) == "command_exit("@
            + command@ + ")"@,
        label(Assertion::JudgeRubric { rubric: pattern }) == "judge_rubric("@ + text::debug_text(
            pattern@,
        ) + ")"@,
{
}

/// A failed check says what there was in place of what was expected, whole: the
/// path that is missing, the diff as it is, both exit codes, or the error.
pub proof fn law_failures_say_what_there_was(
    dir: Seq<char>,
    path: String,
    pattern: String,
    actual: String,
    command: String,
    args: Vec<String>,
    expected_code: i32,
    code: i32,
    why: String,
)
    ensures
        reason(dir, Assertion::FileExists { path }, Seen::Exists(false)) == "not found: "@
            + text::join_path(dir, path@),
        reason(dir, Assertion::FileExists { path }, Seen::Exists(true)) == "found "@
            + text::join_path(dir, path@),
        reason(dir, Assertion::FileContains { path, pattern }, Seen::Contents(Err(why)))
            == "failed to read "@ + text::join_path(dir, path@) + ": "@ + why@,
        reason(dir, Assertion::FileContains { path, pattern }, Seen::Contents(Ok(actual))) == if holds(
            Assertion::FileContains { path, pattern },
            Seen::Contents(Ok(actual)),
        ) {
            "pattern found"@
        } else {
            "pattern not found in "@ + text::join_path(dir, path@)
        },
        reason(dir, Assertion::GitDiff { expected: pattern }, Seen::Diff(Ok(actual))) == if holds(
            Assertion::GitDiff { expected: pattern },
            Seen::Diff(Ok(actual)),
        ) {
            "diff matches expected"@
        } else {
            "diff mismatch; actual diff was:\n"@ + actual@
        },
        reason(dir, Assertion::GitDiff { expected: pattern }, Seen::Diff(Err(why)))
            == "failed to run `git diff` in "@ + dir + ": "@ + why@,
        reason(
            dir,
            Assertion::CommandExit { command, args, expected_code },
            Seen::Exit(Ok(Some(code))),
        ) == "expected exit code "@ + text::decimal_int(expected_code as int) + ", got "@
            + text::decimal_int(code as int),
        reason(dir, Assertion::CommandExit { command, args, expected_code }, Seen::Exit(Ok(None)))
            == "expected exit code "@ + text::decimal_int(expected_code as int) + ", got "@
            + text::decimal_int(-1),
        reason(dir, Assertion::CommandExit { command, args, expected_code }, Seen::Exit(Err(why)))
            == "failed to run `"@ + command@ + "` in "@ + dir + ": "@ + why@,
{
}

} // verus!
