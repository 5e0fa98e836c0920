//! Evaluation cases: what a case asks for, and which files hold cases.

use vstd::prelude::*;
use crate::cli::{AgentTier, PermissionMode};
use crate::io_failure::IoFailure;
use crate::text::{self, path_join, sorted_distinct, without_ending};

verus! {

/// An evaluation case.
#[derive(Debug)]
pub struct Case {
    pub prompt: String,
    /// The files that are there before the run.
    pub setup_files: Vec<SetupFile>,
    pub agent: CaseAgentTier,
    pub permission_mode: CasePermissionMode,
    /// The model that the case is pinned to.
    pub model: String,
    /// The model's provider; none stands for whichever one is configured.
    pub provider: Option<String>,
    pub assertions: Vec<Assertion>,
}

/// A file that is there before the run, by its path in the case's directory.
#[derive(Debug)]
pub struct SetupFile {
    pub path: String,
    pub contents: String,
}

/// The agent tier that a case names.
#[derive(Debug, Clone, Copy, PartialEq, Eq, Structural)]
pub enum CaseAgentTier {
    Plan,
    Build,
}

impl CaseAgentTier {
    /// The tier that runs the case.
    pub fn to_agent_tier(self) -> (r: AgentTier)
        ensures
            r == (match self {
                CaseAgentTier::Plan => AgentTier::Plan,
                CaseAgentTier::Build => AgentTier::Build,
            }),
    {
        match self {
            CaseAgentTier::Plan => AgentTier::Plan,
            CaseAgentTier::Build => AgentTier::Build,
        }
    }
}

/// The permission mode that a case names.
#[derive(Debug, Clone, Copy, PartialEq, Eq, Structural)]
pub enum CasePermissionMode {
    Deny,
    AcceptEdits,
    Bypass,
}

impl CasePermissionMode {
    /// The mode that the case is run in.
    pub open spec fn mode_spec(self) -> PermissionMode {
        match self {
            CasePermissionMode::Deny => PermissionMode::Deny,
            CasePermissionMode::AcceptEdits => PermissionMode::AcceptEdits,
            CasePermissionMode::Bypass => PermissionMode::Bypass,
        }
    }

    /// The mode that the case is run in.
    pub fn to_permission_mode(self) -> (r: PermissionMode)
        ensures
            r == self.mode_spec(),
    {
        match self {
            CasePermissionMode::Deny => PermissionMode::Deny,
            CasePermissionMode::AcceptEdits => PermissionMode::AcceptEdits,
            CasePermissionMode::Bypass => PermissionMode::Bypass,
        }
    }
}

/// What must hold after the run.
#[derive(Debug)]
pub enum Assertion {
    FileExists { path: String },
    FileContains { path: String, pattern: String },
    GitDiff { expected: String },
    CommandExit { command: String, args: Vec<String>, expected_code: i32 },
    /// A rubric that a judge scores; it never decides whether the case passed.
    JudgeRubric { rubric: String },
}

/// A case under the name that it is reported by.
#[derive(Debug)]
pub struct LoadedCase {
    pub name: String,
    pub case: Case,
}

/// A file that holds a case.
#[derive(Debug)]
pub struct CaseFile {
    pub file_name: String,
    /// The file's name without its ending.
    pub name: String,
    pub path: String,
}

/// The names of some case files.
pub open spec fn file_names(files: Seq<CaseFile>) -> Seq<Seq<char>> {
    files.map_values(|f: CaseFile| f.file_name@)
}

/// Whether a file of that name holds a case.
pub open spec fn names_a_case(file_name: Seq<char>) -> bool {
    text::strip_ending(file_name, ".json"@) is Some
}

/// The case files among the files of a directory, ordered by name.
pub fn case_files(cases_dir: &str, names: &Vec<String>) -> (r: Vec<CaseFile>)
    ensures
        text::ascending(file_names(r@)),
        forall|n: Seq<char>|
            #[trigger] file_names(r@).contains(n) == (text::texts(names@).contains(n)
                && names_a_case(n)),
        forall|i: int|
            0 <= i < r@.len() ==> {
                &&& Some((#[trigger] r@[i]).name@) == text::strip_ending(
                    r@[i].file_name@,
                    ".json"@,
                )
                &&& r@[i].path@ == text::join_path(cases_dir@, r@[i].file_name@)
            },
{
    let sorted = sorted_distinct(names);
    let ghost all = text::texts(sorted@);
    let mut files: Vec<CaseFile> = Vec::new();
    let ghost mut from: Seq<int> = Seq::empty();
    let mut i: usize = 0;
    while i < sorted.len()
        invariant
            i <= sorted.len(),
            all == text::texts(sorted@),
            text::ascending(all),
            from.len() == files@.len(),
            forall|k: int|
                0 <= k < from.len() ==> 0 <= #[trigger] from[k] < i && file_names(files@)[k]
                    == all[from[k]] && names_a_case(all[from[k]]),
            forall|j: int, k: int| 0 <= j < k < from.len() ==> #[trigger] from[j] < #[trigger] from[k],
            forall|j: int|
                0 <= j < i && names_a_case(#[trigger] all[j]) ==> file_names(files@).contains(all[j]),
            forall|k: int|
                0 <= k < files@.len() ==> {
                    &&& Some((#[trigger] files@[k]).name@) == text::strip_ending(
                        files@[k].file_name@,
                        ".json"@,
                    )
                    &&& files@[k].path@ == text::join_path(cases_dir@, files@[k].file_name@)
                },
        decreases sorted.len() - i,
    {
        let ghost before = files@;
        assert(all[i as int] == sorted@[i as int]@);
        match without_ending(sorted[i].as_str(), ".json") {
            Some(name) => {
                let file = CaseFile {
                    file_name: sorted[i].clone(),
                    name,
                    path: path_join(cases_dir, sorted[i].as_str()),
                };
                files.push(file);
                proof {
                    from = from.push(i as int);
                    assert(file_names(files@) =~= file_names(before).push(all[i as int]));
                    assert forall|j: int| 0 <= j < i + 1 && names_a_case(#[trigger] all[j]) implies file_names(
                        files@,
                    ).contains(all[j]) by {
                        text::lemma_push_contains(file_names(before), all[i as int], all[j]);
                    }
                }
            },
            None => {},
        }
        i += 1;
    }
    proof {
        let out = file_names(files@);
        assert forall|j: int, k: int| 0 <= j < k < out.len() implies text::before(
            #[trigger] out[j],
            #[trigger] out[k],
        ) by {
            assert(from[j] < from[k]);
            assert(text::before(all[from[j]], all[from[k]]));
        }
        assert forall|n: Seq<char>| #[trigger] out.contains(n) == (text::texts(names@).contains(n)
            && names_a_case(n)) by {
            assert(all.contains(n) == text::texts(names@).contains(n));
            if out.contains(n) {
                let k = out.index_of(n);
                assert(all[from[k]] == n);
            }
            if all.contains(n) && names_a_case(n) {
                let j = all.index_of(n);
                assert(all[j] == n);
            }
        }
    }
    files
}

/// The error of a directory of cases that cannot be read.
pub fn cases_dir_error(cases_dir: &str, error: &str) -> (r: String)
    ensures
        r@ == "failed to read cases dir "@ + cases_dir@ + ": "@ + error@,
{
    let mut m = "failed to read cases dir ".to_owned();
    m.append(cases_dir);
    m.append(": ");
    m.append(error);
    m
}

/// What came of reading a case file.
#[derive(Debug)]
pub enum CaseRead {
    Parsed(Case),
    Unreadable(String),
    Malformed(String),
}

/// The case of a file; a file that cannot be read or parsed fails the run.
pub fn load_case(file: CaseFile, read: CaseRead) -> (r: Result<LoadedCase, String>)
    ensures
        match read {
            CaseRead::Parsed(case) => r matches Ok(c) && c.name == file.name && c.case == case,
            CaseRead::Unreadable(e) => r matches Err(m) && m@ == "failed to read case file "@
                + file.path@ + ": "@ + e@,
            CaseRead::Malformed(e) => r matches Err(m) && m@ == "failed to parse case file "@
                + file.path@ + ": "@ + e@,
        },
{
    match read {
        CaseRead::Parsed(case) => Ok(LoadedCase { name: file.name, case }),
        CaseRead::Unreadable(e) => {
            let mut m = "failed to read case file ".to_owned();
            m.append(file.path.as_str());
            m.append(": ");
            m.append(e.as_str());
            Err(m)
        },
        CaseRead::Malformed(e) => {
            let mut m = "failed to parse case file ".to_owned();
            m.append(file.path.as_str());
            m.append(": ");
            m.append(e.as_str());
            Err(m)
        },
    }
}

/// Where a setup file goes.
pub fn setup_target(fixture_dir: &str, file: &SetupFile) -> (r: String)
    ensures
        r@ == text::join_path(fixture_dir@, file.path@),
{
    path_join(fixture_dir, file.path.as_str())
}

/// What kept a setup file from being there.
#[derive(Debug)]
pub enum SetupFailure {
    Parents(IoFailure),
    Write(IoFailure),
}

/// The error of a setup file that could not be written.
pub fn setup_error(file: &SetupFile, failure: &SetupFailure) -> (r: String)
    ensures
        r@ == (match *failure {
            SetupFailure::Parents(e) => "failed to create parent dirs for setup file "@ + file.path@
                + ": "@ + e.message@,
            SetupFailure::Write(e) => "failed to write setup file "@ + file.path@ + ": "@
                + e.message@,
        }),
{
    match failure {
        SetupFailure::Parents(e) => {
            let mut m = "failed to create parent dirs for setup file ".to_owned();
            m.append(file.path.as_str());
            m.append(": ");
            m.append(e.message.as_str());
            m
        },
        SetupFailure::Write(e) => {
            let mut m = "failed to write setup file ".to_owned();
            m.append(file.path.as_str());
            m.append(": ");
            m.append(e.message.as_str());
            m
        },
    }
}

/// Every file whose name ends in `.json` behind something holds a case, and no
/// other file does.
pub proof fn law_json_files_hold_cases(stem: Seq<char>, name: Seq<char>)
    ensures
        stem.len() > 0 ==> names_a_case(stem + ".json"@),
        names_a_case(name) ==> exists|s: Seq<char>| s.len() > 0 && name == #[trigger] (s + ".json"@),
        !names_a_case(".json"@),
{
    text::law_endings_come_off_where_they_stand(name, stem, ".json"@);
    if names_a_case(name) {
        let s = text::strip_ending(name, ".json"@)->0;
        assert(name == s + ".json"@);
    }
}

/// A case is run in the mode that it names.
pub proof fn law_cases_run_in_their_own_mode(mode: CasePermissionMode)
    ensures
        mode is Deny <==> mode.mode_spec() is Deny,
        mode is AcceptEdits <==> mode.mode_spec() is AcceptEdits,
        mode is Bypass <==> mode.mode_spec() is Bypass,
{
}

/// Case files are listed by their own names, one for one.
pub proof fn law_files_go_by_their_names(files: Seq<CaseFile>, i: int)
    requires
        0 <= i < files.len(),
    ensures
        file_names(files).len() == files.len(),
        file_names(files)[i] == files[i].file_name@,
{
}

} // verus!
