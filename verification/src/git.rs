//! The repository that a session runs in: what the agent is told of it, and
//! how its changes are committed.
//!
//! Running `git` is outside. This module says which commands to run and what
//! their outputs mean.

use vstd::prelude::*;
use crate::text::{
    self, begins_with, copy_strings, debug_of, decimal_of, joined, lines_of, lowered, parsed_u32,
    text_eq, trimmed, trimmed_start, words_of,
};

verus! {

/// A repository as it stood when the session began.
#[derive(Debug, PartialEq, Eq)]
pub struct GitContext {
    pub branch: String,
    pub dirty: bool,
    pub ahead: u32,
    pub behind: u32,
    pub recent_subjects: Vec<String>,
}

/// One line for each of the recent commits.
pub open spec fn subject_lines(subjects: Seq<Seq<char>>) -> Seq<char>
    decreases subjects.len(),
{
    if subjects.len() == 0 {
        Seq::empty()
    } else {
        subject_lines(subjects.drop_last()) + "- "@ + subjects.last() + "\n"@
    }
}

/// What the agent is told of a repository.
pub open spec fn context_text(
    branch: Seq<char>,
    dirty: bool,
    ahead: nat,
    behind: nat,
    subjects: Seq<Seq<char>>,
) -> Seq<char> {
    let head = "Branch: "@ + branch + "\n"@ + "Status: "@ + (if dirty {
        "dirty"@
    } else {
        "clean"@
    }) + "\n"@ + "Ahead/behind upstream: "@ + text::decimal(ahead) + " ahead, "@ + text::decimal(
        behind,
    ) + " behind\n"@;
    if subjects.len() == 0 {
        head + "Recent commits: (none)\n"@
    } else {
        head + "Recent commits:\n"@ + subject_lines(subjects)
    }
}

impl GitContext {
    /// What the agent is told of this repository.
    pub fn to_prompt_text(&self) -> (r: String)
        ensures
            r@ == context_text(
                self.branch@,
                self.dirty,
                self.ahead as nat,
                self.behind as nat,
                text::texts(self.recent_subjects@),
            ),
    {
        let mut out = "Branch: ".to_owned();
        out.append(self.branch.as_str());
        out.append("\n");
        out.append("Status: ");
        if self.dirty {
            out.append("dirty");
        } else {
            out.append("clean");
        }
        out.append("\n");
        out.append("Ahead/behind upstream: ");
        out.append(decimal_of(self.ahead as u128).as_str());
        out.append(" ahead, ");
        out.append(decimal_of(self.behind as u128).as_str());
        out.append(" behind\n");
        if self.recent_subjects.len() == 0 {
            out.append("Recent commits: (none)\n");
            return out;
        }
        out.append("Recent commits:\n");
        let ghost head = out@;
        let ghost subjects = text::texts(self.recent_subjects@);
        let mut i: usize = 0;
        assert(head + subject_lines(subjects.take(0)) =~= head);
        while i < self.recent_subjects.len()
            invariant
                i <= self.recent_subjects.len(),
                subjects == text::texts(self.recent_subjects@),
                out@ == head + subject_lines(subjects.take(i as int)),
            decreases self.recent_subjects.len() - i,
        {
            out.append("- ");
            out.append(self.recent_subjects[i].as_str());
            out.append("\n");
            i += 1;
            proof {
                assert(subjects.take(i as int).drop_last() =~= subjects.take(i - 1));
                assert(out@ =~= head + (subject_lines(subjects.take(i - 1)) + "- "@
                    + subjects[i - 1] + "\n"@));
            }
        }
        assert(subjects.take(subjects.len() as int) =~= subjects);
        out
    }
}

// ---------------------------------------------------------------------------
// Reading a repository
// ---------------------------------------------------------------------------

/// A question that is put to `git`.
#[derive(Debug, Clone, Copy, PartialEq, Eq, Structural)]
pub enum GitQuery {
    InsideWorkTree,
    Branch,
    Status,
    AheadBehind,
    RecentSubjects,
    StagedPaths,
}

impl GitQuery {
    /// The arguments that put the question.
    pub open spec fn args_spec(self) -> Seq<Seq<char>> {
        match self {
            GitQuery::InsideWorkTree => seq!["rev-parse"@, "--is-inside-work-tree"@],
            GitQuery::Branch => seq!["rev-parse"@, "--abbrev-ref"@, "HEAD"@],
            GitQuery::Status => seq!["status"@, "--porcelain"@],
            GitQuery::AheadBehind => seq![
                "rev-list"@,
                "--left-right"@,
                "--count"@,
                "@{upstream}...HEAD"@,
            ],
            GitQuery::RecentSubjects => seq!["log"@, "-5"@, "--pretty=%s"@],
            GitQuery::StagedPaths => seq!["diff"@, "--cached"@, "--name-only"@],
        }
    }

    /// The arguments that put the question. At most five commits are asked
    /// for, the newest first.
    pub fn args(self) -> (r: Vec<String>)
        ensures
            text::texts(r@) == self.args_spec(),
    {
        let mut args: Vec<String> = Vec::new();
        match self {
            GitQuery::InsideWorkTree => {
                args.push("rev-parse".to_owned());
                args.push("--is-inside-work-tree".to_owned());
            },
            GitQuery::Branch => {
                args.push("rev-parse".to_owned());
                args.push("--abbrev-ref".to_owned());
                args.push("HEAD".to_owned());
            },
            GitQuery::Status => {
                args.push("status".to_owned());
                args.push("--porcelain".to_owned());
            },
            GitQuery::AheadBehind => {
                args.push("rev-list".to_owned());
                args.push("--left-right".to_owned());
                args.push("--count".to_owned());
                args.push("@{upstream}...HEAD".to_owned());
            },
            GitQuery::RecentSubjects => {
                args.push("log".to_owned());
                args.push("-5".to_owned());
                args.push("--pretty=%s".to_owned());
            },
            GitQuery::StagedPaths => {
                args.push("diff".to_owned());
                args.push("--cached".to_owned());
                args.push("--name-only".to_owned());
            },
        }
        assert(text::texts(args@) =~= self.args_spec());
        args
    }
}

/// What `git` printed on each question; none where it could not be run, failed
/// or printed no text.
#[derive(Debug)]
pub struct GitOutputs {
    pub inside_work_tree: Option<String>,
    pub branch: Option<String>,
    pub status: Option<String>,
    pub ahead_behind: Option<String>,
    pub recent_subjects: Option<String>,
}

/// How many commits a branch is behind and ahead of its upstream, as two
/// numbers with white space between; nothing where they are not there.
pub open spec fn counts(output: Option<Seq<char>>) -> (u32, u32) {
    match output {
        None => (0, 0),
        Some(s) => {
            let parts = text::words(text::trim(s));
            if parts.len() < 2 {
                (0, 0)
            } else {
                match (text::parse_u32(parts[0]), text::parse_u32(parts[1])) {
                    (Some(behind), Some(ahead)) => (behind, ahead),
                    _ => (0, 0),
                }
            }
        },
    }
}

/// How many commits a branch is behind and ahead.
fn parse_counts(output: &Option<String>) -> (r: (u32, u32))
    ensures
        r == counts(text::opt_text(*output)),
{
    match output {
        None => (0, 0),
        Some(s) => {
            let parts = words_of(trimmed(s.as_str()).as_str());
            if parts.len() < 2 {
                return (0, 0);
            }
            assert(text::texts(parts@)[0] == parts@[0]@ && text::texts(parts@)[1] == parts@[1]@);
            match (parsed_u32(parts[0].as_str()), parsed_u32(parts[1].as_str())) {
                (Some(behind), Some(ahead)) => (behind, ahead),
                _ => (0, 0),
            }
        },
    }
}

/// The lines of an output, without the white space around it.
pub open spec fn output_lines(output: Option<Seq<char>>) -> Seq<Seq<char>> {
    match output {
        None => Seq::empty(),
        Some(s) => text::lines(text::trim(s)),
    }
}

/// The lines of an output, without the white space around it.
fn lines_of_output(output: &Option<String>) -> (r: Vec<String>)
    ensures
        text::texts(r@) == output_lines(text::opt_text(*output)),
{
    match output {
        None => {
            let none: Vec<String> = Vec::new();
            assert(text::texts(none@) =~= Seq::<Seq<char>>::empty());
            none
        },
        Some(s) => lines_of(trimmed(s.as_str()).as_str()),
    }
}

/// Whether an output says that the command ran inside a work tree. Inside the
/// `.git` directory the command succeeds as well, and prints `false`.
pub open spec fn says_inside(output: Option<Seq<char>>) -> bool {
    output matches Some(s) && text::trim(s) == "true"@
}

/// A repository, as mathematical values.
pub struct Repository {
    pub branch: Seq<char>,
    pub dirty: bool,
    pub ahead: u32,
    pub behind: u32,
    pub recent_subjects: Seq<Seq<char>>,
}

impl View for GitContext {
    type V = Repository;

    open spec fn view(&self) -> Repository {
        Repository {
            branch: self.branch@,
            dirty: self.dirty,
            ahead: self.ahead,
            behind: self.behind,
            recent_subjects: text::texts(self.recent_subjects@),
        }
    }
}

/// The repository that some outputs describe.
pub open spec fn repository_of(
    inside: Option<Seq<char>>,
    branch: Option<Seq<char>>,
    status: Option<Seq<char>>,
    ahead_behind: Option<Seq<char>>,
    recent_subjects: Option<Seq<char>>,
) -> Option<Repository> {
    if !says_inside(inside) || branch is None {
        None
    } else {
        let (behind, ahead) = counts(ahead_behind);
        Some(
            Repository {
                branch: text::trim(branch->0),
                dirty: status is Some && text::trim(status->0).len() > 0,
                ahead,
                behind,
                recent_subjects: output_lines(recent_subjects),
            },
        )
    }
}

/// The repository that the outputs describe. There is none outside a work
/// tree; a branch without an upstream is neither ahead nor behind.
pub fn snapshot(outputs: &GitOutputs) -> (r: Option<GitContext>)
    ensures
        (match r {
            Some(c) => Some(c@),
            None => None,
        }) == repository_of(
            text::opt_text(outputs.inside_work_tree),
            text::opt_text(outputs.branch),
            text::opt_text(outputs.status),
            text::opt_text(outputs.ahead_behind),
            text::opt_text(outputs.recent_subjects),
        ),
        r is Some == (says_inside(text::opt_text(outputs.inside_work_tree))
            && outputs.branch is Some),
        r matches Some(c) ==> {
            &&& c.branch@ == text::trim(outputs.branch->0@)
            &&& c.dirty == (outputs.status is Some && text::trim(outputs.status->0@).len() > 0)
            &&& (c.behind, c.ahead) == counts(text::opt_text(outputs.ahead_behind))
            &&& text::texts(c.recent_subjects@) == output_lines(
                text::opt_text(outputs.recent_subjects),
            )
        },
{
    match &outputs.inside_work_tree {
        None => {
            return None;
        },
        Some(s) => {
            if !text_eq(trimmed(s.as_str()).as_str(), "true") {
                return None;
            }
        },
    }
    match &outputs.branch {
        None => None,
        Some(branch) => {
            let dirty: bool = match &outputs.status {
                None => false,
                Some(s) => {
                    let t = trimmed(s.as_str());
                    !t.as_str().is_empty()
                },
            };
            let (behind, ahead) = parse_counts(&outputs.ahead_behind);
            Some(
                GitContext {
                    branch: trimmed(branch.as_str()),
                    dirty,
                    ahead,
                    behind,
                    recent_subjects: lines_of_output(&outputs.recent_subjects),
                },
            )
        },
    }
}

/// The paths that are staged: none outside a repository.
pub fn staged_paths(output: &Option<String>) -> (r: Vec<String>)
    ensures
        text::texts(r@) == output_lines(text::opt_text(*output)),
{
    lines_of_output(output)
}

// ---------------------------------------------------------------------------
// Committing
// ---------------------------------------------------------------------------

/// Why a commit was not made.
#[derive(Debug, PartialEq, Eq)]
pub enum CommitError {
    CoAuthorNotAllowed,
    Add(Vec<String>),
    Commit,
}

/// Texts in quotes, as a list.
pub open spec fn quoted_list(items: Seq<Seq<char>>) -> Seq<char> {
    "["@ + text::join(items.map_values(|s: Seq<char>| text::debug_text(s)), ", "@) + "]"@
}

/// Texts in quotes, as a list.
fn quoted_list_of(items: &Vec<String>) -> (r: String)
    ensures
        r@ == quoted_list(text::texts(items@)),
{
    let mut quoted: Vec<String> = Vec::new();
    let mut i: usize = 0;
    while i < items.len()
        invariant
            i <= items.len(),
            quoted@.len() == i,
            forall|k: int|
                0 <= k < i ==> (#[trigger] quoted@[k])@ == text::debug_text(items@[k]@),
        decreases items.len() - i,
    {
        quoted.push(debug_of(items[i].as_str()));
        i += 1;
    }
    assert(text::texts(quoted@) =~= text::texts(items@).map_values(
        |s: Seq<char>| text::debug_text(s),
    ));
    let mut out = "[".to_owned();
    out.append(joined(&quoted, ", ").as_str());
    out.append("]");
    out
}

impl CommitError {
    /// The error in words.
    pub open spec fn message_spec(self) -> Seq<char> {
        match self {
            CommitError::CoAuthorNotAllowed =>
            "commit message must not contain a Co-Authored-By line or other agent attribution"@,
            CommitError::Add(paths) => "`git add` failed for "@ + quoted_list(text::texts(paths@)),
            CommitError::Commit => "`git commit` failed"@,
        }
    }

    /// The error in words.
    pub fn message(&self) -> (r: String)
        ensures
            r@ == self.message_spec(),
    {
        match self {
            CommitError::CoAuthorNotAllowed =>
            "commit message must not contain a Co-Authored-By line or other agent attribution".to_owned(),
            CommitError::Add(paths) => {
                let mut out = "`git add` failed for ".to_owned();
                out.append(quoted_list_of(paths).as_str());
                out
            },
            CommitError::Commit => "`git commit` failed".to_owned(),
        }
    }
}

/// Whether a line credits a co-author, in upper or lower case.
pub open spec fn credits_co_author(line: Seq<char>) -> bool {
    text::starts_with(text::lower(text::trim_start(line)), "co-authored-by:"@)
}

/// Whether any line credits a co-author.
pub open spec fn has_co_author(message: Seq<char>) -> bool {
    exists|i: int|
        0 <= i < text::lines(message).len() && credits_co_author(#[trigger] text::lines(message)[i])
}

/// Whether any line credits a co-author.
pub fn contains_co_author_line(message: &str) -> (r: bool)
    ensures
        r == has_co_author(message@),
{
    let lines = lines_of(message);
    let ghost all = text::lines(message@);
    let mut i: usize = 0;
    while i < lines.len()
        invariant
            i <= lines.len(),
            all == text::lines(message@),
            text::texts(lines@) == all,
            forall|k: int| 0 <= k < i ==> !credits_co_author(#[trigger] all[k]),
        decreases lines.len() - i,
    {
        assert(all[i as int] == lines@[i as int]@);
        let low = lowered(trimmed_start(lines[i].as_str()).as_str());
        if begins_with(low.as_str(), "co-authored-by:") {
            return true;
        }
        i += 1;
    }
    false
}

/// The two commands that make a commit, and the paths they name.
#[derive(Debug, PartialEq, Eq)]
pub struct CommitCommands {
    pub paths: Vec<String>,
    pub add: Vec<String>,
    pub commit: Vec<String>,
}

/// The arguments that stage `paths`.
pub open spec fn add_args(paths: Seq<Seq<char>>) -> Seq<Seq<char>> {
    seq!["add"@, "--"@] + paths
}

/// The arguments that commit `paths`.
pub open spec fn commit_args(paths: Seq<Seq<char>>, message: Seq<char>) -> Seq<Seq<char>> {
    seq!["commit"@, "-m"@, message, "--"@] + paths
}

/// How to commit exactly `paths`: both commands name them and nothing else, so
/// whatever else is staged stays as it is. A message that credits a co-author
/// is refused.
pub fn commit(paths: &Vec<String>, message: &str) -> (r: Result<CommitCommands, CommitError>)
    ensures
        match r {
            Ok(c) => {
                &&& !has_co_author(message@)
                &&& text::texts(c.paths@) == text::texts(paths@)
                &&& text::texts(c.add@) == add_args(text::texts(paths@))
                &&& text::texts(c.commit@) == commit_args(text::texts(paths@), message@)
            },
            Err(e) => has_co_author(message@) && e == CommitError::CoAuthorNotAllowed,
        },
{
    if contains_co_author_line(message) {
        return Err(CommitError::CoAuthorNotAllowed);
    }
    let mut add: Vec<String> = Vec::new();
    add.push("add".to_owned());
    add.push("--".to_owned());
    let mut first = copy_strings(paths);
    add.append(&mut first);
    let mut commit: Vec<String> = Vec::new();
    commit.push("commit".to_owned());
    commit.push("-m".to_owned());
    commit.push(message.to_owned());
    commit.push("--".to_owned());
    let mut second = copy_strings(paths);
    commit.append(&mut second);
    let kept = copy_strings(paths);
    proof {
        let p = text::texts(paths@);
        assert forall|k: int| 0 <= k < p.len() implies add@[k + 2]@ == p[k] && commit@[k + 4]@
            == p[k] by {
            assert(text::texts(kept@)[k] == p[k]);
        }
        assert(text::texts(add@) =~= add_args(p));
        assert(text::texts(commit@) =~= commit_args(p, message@));
    }
    Ok(CommitCommands { paths: kept, add, commit })
}

impl CommitCommands {
    /// What came of staging.
    pub fn on_add(&self, succeeded: bool) -> (r: Result<(), CommitError>)
        ensures
            match r {
                Ok(_) => succeeded,
                Err(e) => !succeeded && (e matches CommitError::Add(p) && text::texts(p@)
                    == text::texts(self.paths@)),
            },
    {
        if succeeded {
            Ok(())
        } else {
            Err(CommitError::Add(copy_strings(&self.paths)))
        }
    }

    /// What came of committing.
    pub fn on_commit(&self, succeeded: bool) -> (r: Result<(), CommitError>)
        ensures
            r == (if succeeded {
                Ok::<(), CommitError>(())
            } else {
                Err::<(), CommitError>(CommitError::Commit)
            }),
    {
        if succeeded {
            Ok(())
        } else {
            Err(CommitError::Commit)
        }
    }
}

/// What a commit names is exactly what was asked for: behind the double dash
/// stand the given paths, in their order, in both commands.
pub proof fn law_commits_name_the_given_paths_alone(paths: Seq<Seq<char>>, message: Seq<char>)
    ensures
        add_args(paths).skip(2) == paths,
        add_args(paths)[1] == "--"@,
        commit_args(paths, message).skip(4) == paths,
        commit_args(paths, message)[3] == "--"@,
        commit_args(paths, message)[2] == message,
{
    assert(add_args(paths).skip(2) =~= paths);
    assert(commit_args(paths, message).skip(4) =~= paths);
}

/// Every commit has its line, in order: a list of commits is told by what tells
/// its parts.
pub proof fn law_every_commit_has_its_line(a: Seq<Seq<char>>, subject: Seq<char>, b: Seq<Seq<char>>)
    ensures
        subject_lines(a + seq![subject] + b) == subject_lines(a) + ("- "@ + subject + "\n"@)
            + subject_lines(b),
        subject_lines(Seq::empty()) == Seq::<char>::empty(),
    decreases b.len(),
{
    let s = a + seq![subject] + b;
    if b.len() == 0 {
        assert(s.drop_last() =~= a);
        assert(s.last() == subject);
        assert(subject_lines(s) =~= subject_lines(a) + ("- "@ + subject + "\n"@) + subject_lines(b));
    } else {
        assert(s.drop_last() =~= a + seq![subject] + b.drop_last());
        assert(s.last() == b.last());
        law_every_commit_has_its_line(a, subject, b.drop_last());
        assert(subject_lines(s) =~= subject_lines(a) + ("- "@ + subject + "\n"@) + subject_lines(b));
    }
}

/// The agent is told the branch, whether there are changes, how far the branch is
/// ahead and behind, and the recent commits, each of them in its own line.
pub proof fn law_the_repository_is_told_line_by_line(
    branch: Seq<char>,
    dirty: bool,
    ahead: nat,
    behind: nat,
    subjects: Seq<Seq<char>>,
)
    ensures
        ({
            let state = if dirty {
                "dirty"@
            } else {
                "clean"@
            };
            let rest = if subjects.len() == 0 {
                "Recent commits: (none)\n"@
            } else {
                "Recent commits:\n"@ + subject_lines(subjects)
            };
            context_text(branch, dirty, ahead, behind, subjects) == "Branch: "@ + branch
                + "\nStatus: "@ + state + "\nAhead/behind upstream: "@ + text::decimal(ahead)
                + " ahead, "@ + text::decimal(behind) + " behind\n"@ + rest
        }),
{
    reveal_strlit("\n");
    reveal_strlit("Status: ");
    reveal_strlit("\nStatus: ");
    reveal_strlit("Ahead/behind upstream: ");
    reveal_strlit("\nAhead/behind upstream: ");
    assert("\n"@ + "Status: "@ =~= "\nStatus: "@);
    assert("\n"@ + "Ahead/behind upstream: "@ =~= "\nAhead/behind upstream: "@);
    let state = if dirty {
        "dirty"@
    } else {
        "clean"@
    };
    let tail = "Ahead/behind upstream: "@ + text::decimal(ahead) + " ahead, "@ + text::decimal(
        behind,
    ) + " behind\n"@;
    assert("Branch: "@ + branch + "\n"@ + "Status: "@ + state + "\n"@ =~= "Branch: "@ + branch
        + "\nStatus: "@ + state + "\n"@);
    let head = "Branch: "@ + branch + "\nStatus: "@ + state;
    assert(head + "\n"@ + "Ahead/behind upstream: "@ =~= head + "\nAhead/behind upstream: "@);
    let full = head + "\nAhead/behind upstream: "@ + text::decimal(ahead) + " ahead, "@
        + text::decimal(behind) + " behind\n"@;
    if subjects.len() > 0 {
        assert(full + "Recent commits:\n"@ + subject_lines(subjects) =~= full + (
        "Recent commits:\n"@ + subject_lines(subjects)));
    }
}

/// Two numbers with white space between and around them are read as how far the
/// branch is behind and how far it is ahead; with anything but a number in either
/// place, or with fewer than two words, it is neither.
pub proof fn law_behind_and_ahead_are_read_in_that_order(
    a: Seq<char>,
    behind: Seq<char>,
    c: char,
    ahead: Seq<char>,
    b: Seq<char>,
)
    requires
        forall|k: int| 0 <= k < a.len() ==> text::white(#[trigger] a[k]),
        forall|k: int| 0 <= k < b.len() ==> text::white(#[trigger] b[k]),
        behind.len() > 0,
        ahead.len() > 0,
        text::white(c),
        forall|k: int| 0 <= k < behind.len() ==> !text::white(#[trigger] behind[k]),
        forall|k: int| 0 <= k < ahead.len() ==> !text::white(#[trigger] ahead[k]),
    ensures
        counts(Some(a + (behind + seq![c] + ahead) + b)) == match (
            text::parse_u32(behind),
            text::parse_u32(ahead),
        ) {
            (Some(m), Some(n)) => (m, n),
            _ => (0, 0),
        },
        counts(Some(a + behind + b)) == (0u32, 0u32),
        counts(None) == (0u32, 0u32),
{
    let s = behind + seq![c] + ahead;
    assert(s[0] == behind[0]);
    assert(s.last() == ahead.last());
    text::law_trimming_keeps_what_is_between(a, s, b);
    text::law_white_space_parts_words(behind, c, ahead);
    text::law_a_run_is_a_word(behind);
    text::law_a_run_is_a_word(ahead);
    assert(text::words(s) =~= seq![behind, ahead]);
    text::law_trimming_keeps_what_is_between(a, behind, b);
}

/// An output is read line by line, every line of it, without the white space
/// around the whole; and it puts a command inside a work tree only if it says
/// `true` and nothing else.
pub proof fn law_outputs_are_read_whole(a: Seq<char>, s: Seq<char>, b: Seq<char>)
    requires
        forall|k: int| 0 <= k < a.len() ==> text::white(#[trigger] a[k]),
        forall|k: int| 0 <= k < b.len() ==> text::white(#[trigger] b[k]),
        s.len() > 0 ==> !text::white(s[0]) && !text::white(s.last()),
    ensures
        output_lines(Some(a + s + b)) == text::lines(s),
        output_lines(None) == Seq::<Seq<char>>::empty(),
        says_inside(Some(a + s + b)) <==> s == "true"@,
        !says_inside(None),
{
    text::law_trimming_keeps_what_is_between(a, s, b);
}

/// A line credits a co-author exactly if it begins with `Co-Authored-By:`, in
/// capitals or small letters and after white space or none.
#[verifier::spinoff_prover]
#[verifier::rlimit(40)]
pub proof fn law_a_credit_opens_its_line(a: Seq<char>, s: Seq<char>)
    requires
        forall|k: int| 0 <= k < a.len() ==> text::white(#[trigger] a[k]),
        s.len() > 0 ==> !text::white(s[0]),
    ensures
        credits_co_author(a + s) <==> s.len() >= 15 && forall|i: int|
            0 <= i < 15 ==> (#[trigger] s[i] == "co-authored-by:"@[i] || ('A' <= s[i] <= 'Z' && s[i]
                as u32 + 32 == "co-authored-by:"@[i] as u32)),
{
    let line = a + s;
    text::law_front_trimming_cuts_white_alone(line);
    let i = choose|i: int|
        0 <= i <= line.len() && #[trigger] line.skip(i) == text::trim_start(line) && (forall|k: int|
            0 <= k < i ==> text::white(#[trigger] line[k])) && (i < line.len() ==> !text::white(
            line[i],
        ));
    let n = a.len() as int;
    if i < n {
        assert(line[i] == a[i]);
    }
    if i > n {
        assert(line[n] == s[0]);
    }
    assert(line.skip(n) =~= s);
    reveal_strlit("co-authored-by:");
    let tag = "co-authored-by:"@;
    let low = text::lower(s);
    assert(tag.len() == 15);
    assert forall|k: int| 0 <= k < s.len() && k < 15 implies (low[k] == tag[k] <==> (
    #[trigger] s[k] == tag[k] || ('A' <= s[k] <= 'Z' && s[k] as u32 + 32 == tag[k] as u32))) by {
        text::law_lowering_changes_capitals_alone(s, k);
    }
    if s.len() >= 15 {
        if text::starts_with(low, tag) {
            assert(low.subrange(0, 15) == tag);
            assert forall|k: int| 0 <= k < 15 implies (#[trigger] s[k] == tag[k] || ('A' <= s[k]
                <= 'Z' && s[k] as u32 + 32 == tag[k] as u32)) by {
                assert(low.subrange(0, 15)[k] == low[k]);
            }
        }
        if forall|k: int|
            0 <= k < 15 ==> (#[trigger] s[k] == tag[k] || ('A' <= s[k] <= 'Z' && s[k] as u32 + 32
                == tag[k] as u32)) {
            assert forall|k: int| 0 <= k < 15 implies low[k] == tag[k] by {
                assert(s[k] == s[k]);
            }
            assert(low.subrange(0, 15) =~= tag);
        }
    }
}

/// A credit is found wherever it stands in the message, and only where one
/// stands.
pub proof fn law_credits_are_found_in_every_line(before: Seq<char>, line: Seq<char>, after: Seq<char>)
    requires
        !line.contains('\n'),
        line.len() == 0 || line.last() != '\r',
    ensures
        has_co_author(before + seq!['\n'] + line + seq!['\n'] + after) <==> has_co_author(
            before + seq!['\n'],
        ) || credits_co_author(line) || has_co_author(after),
        line.len() > 0 ==> (has_co_author(line) <==> credits_co_author(line)),
{
    let s = before + seq!['\n'] + line + seq!['\n'] + after;
    let rest = line + seq!['\n'] + after;
    assert(s =~= before + seq!['\n'] + rest);
    text::law_lines_add_up(before, rest);
    text::law_line_feeds_end_lines(line, after);
    let x = text::lines(before + seq!['\n']);
    let z = text::lines(after);
    let all = text::lines(s);
    assert(all =~= x + seq![line] + z);
    if has_co_author(before + seq!['\n']) {
        let i = choose|i: int| 0 <= i < x.len() && credits_co_author(#[trigger] x[i]);
        assert(all[i] == x[i]);
    }
    if credits_co_author(line) {
        assert(all[x.len() as int] == line);
    }
    if has_co_author(after) {
        let i = choose|i: int| 0 <= i < z.len() && credits_co_author(#[trigger] z[i]);
        assert(all[x.len() as int + 1 + i] == z[i]);
    }
    if has_co_author(s) {
        let i = choose|i: int| 0 <= i < all.len() && credits_co_author(#[trigger] all[i]);
        if i < x.len() {
            assert(x[i] == all[i]);
        } else if i > x.len() {
            assert(z[i - x.len() - 1] == all[i]);
        }
    }
    if line.len() > 0 {
        assert(text::lines(line)[0] == line);
    }
}

/// Each question is put to `git` in its own words.
pub proof fn law_questions_are_put_in_words(q: GitQuery)
    ensures
        text::join(q.args_spec(), " "@) == match q {
            GitQuery::InsideWorkTree => "rev-parse --is-inside-work-tree"@,
            GitQuery::Branch => "rev-parse --abbrev-ref HEAD"@,
            GitQuery::Status => "status --porcelain"@,
            GitQuery::AheadBehind => "rev-list --left-right --count @{upstream}...HEAD"@,
            GitQuery::RecentSubjects => "log -5 --pretty=%s"@,
            GitQuery::StagedPaths => "diff --cached --name-only"@,
        },
{
    reveal_strlit(" ");
    reveal_with_fuel(text::join, 5);
    match q {
        GitQuery::InsideWorkTree => {
            reveal_strlit("rev-parse");
            reveal_strlit("--is-inside-work-tree");
            reveal_strlit("rev-parse --is-inside-work-tree");
            assert(text::join(q.args_spec(), " "@) =~= "rev-parse --is-inside-work-tree"@);
        },
        GitQuery::Branch => {
            reveal_strlit("rev-parse");
            reveal_strlit("--abbrev-ref");
            reveal_strlit("HEAD");
            reveal_strlit("rev-parse --abbrev-ref HEAD");
            assert(text::join(q.args_spec(), " "@) =~= "rev-parse --abbrev-ref HEAD"@);
        },
        GitQuery::Status => {
            reveal_strlit("status");
            reveal_strlit("--porcelain");
            reveal_strlit("status --porcelain");
            assert(text::join(q.args_spec(), " "@) =~= "status --porcelain"@);
        },
        GitQuery::AheadBehind => {
            reveal_strlit("rev-list");
            reveal_strlit("--left-right");
            reveal_strlit("--count");
            reveal_strlit("@{upstream}...HEAD");
            reveal_strlit("rev-list --left-right --count @{upstream}...HEAD");
            assert(text::join(q.args_spec(), " "@)
                =~= "rev-list --left-right --count @{upstream}...HEAD"@);
        },
        GitQuery::RecentSubjects => {
            reveal_strlit("log");
            reveal_strlit("-5");
            reveal_strlit("--pretty=%s");
            reveal_strlit("log -5 --pretty=%s");
            assert(text::join(q.args_spec(), " "@) =~= "log -5 --pretty=%s"@);
        },
        GitQuery::StagedPaths => {
            reveal_strlit("diff");
            reveal_strlit("--cached");
            reveal_strlit("--name-only");
            reveal_strlit("diff --cached --name-only");
            assert(text::join(q.args_spec(), " "@) =~= "diff --cached --name-only"@);
        },
    }
}

/// A failed staging names every path, in quotes and with commas between.
pub proof fn law_failed_paths_are_all_named(a: Seq<Seq<char>>, b: Seq<Seq<char>>, one: Seq<char>)
    ensures
        a.len() > 0 && b.len() > 0 ==> quoted_list(a + b) == quoted_list(a).drop_last()
            + seq![',', ' '] + quoted_list(b).skip(1),
        quoted_list(seq![one]) == seq!['['] + text::debug_text(one) + seq![']'],
{
    reveal_strlit("[");
    reveal_strlit("]");
    reveal_strlit(", ");
    let f = |s: Seq<char>| text::debug_text(s);
    if a.len() > 0 && b.len() > 0 {
        assert((a + b).map_values(f) =~= a.map_values(f) + b.map_values(f));
        text::law_joining_parts(a.map_values(f), b.map_values(f), ", "@);
        assert(quoted_list(a).drop_last() =~= "["@ + text::join(a.map_values(f), ", "@));
        assert(quoted_list(b).skip(1) =~= text::join(b.map_values(f), ", "@) + "]"@);
        assert(quoted_list(a + b) =~= quoted_list(a).drop_last() + seq![',', ' '] + quoted_list(
            b,
        ).skip(1));
    }
    let l = seq![one].map_values(f);
    assert(l =~= seq![text::debug_text(one)]);
    assert(quoted_list(seq![one]) =~= seq!['['] + text::debug_text(one) + seq![']']);
}

/// Inside a work tree with a branch there is a repository: its branch without the
/// white space around it, changes exactly if the status says anything, and counts
/// and commits as they are read. Anywhere else there is none.
pub proof fn law_outputs_describe_the_repository(
    a: Seq<char>,
    said: Seq<char>,
    b: Seq<char>,
    c: Seq<char>,
    branch: Seq<char>,
    d: Seq<char>,
    status: Option<Seq<char>>,
    ahead_behind: Option<Seq<char>>,
    recent: Option<Seq<char>>,
)
    requires
        forall|k: int| 0 <= k < a.len() ==> text::white(#[trigger] a[k]),
        forall|k: int| 0 <= k < b.len() ==> text::white(#[trigger] b[k]),
        forall|k: int| 0 <= k < c.len() ==> text::white(#[trigger] c[k]),
        forall|k: int| 0 <= k < d.len() ==> text::white(#[trigger] d[k]),
        said.len() > 0 ==> !text::white(said[0]) && !text::white(said.last()),
        branch.len() > 0 ==> !text::white(branch[0]) && !text::white(branch.last()),
    ensures
        ({
            let inside = Some(a + said + b);
            let on = Some(c + branch + d);
            let r = repository_of(inside, on, status, ahead_behind, recent);
            &&& r is Some <==> said == "true"@
            &&& repository_of(None, on, status, ahead_behind, recent) is None
            &&& repository_of(inside, None, status, ahead_behind, recent) is None
            &&& r matches Some(repository) ==> {
                &&& repository.branch == branch
                &&& repository.dirty <==> status is Some && exists|i: int|
                    0 <= i < status->0.len() && !text::white(#[trigger] status->0[i])
                &&& (repository.behind, repository.ahead) == counts(ahead_behind)
                &&& repository.recent_subjects == output_lines(recent)
            }
        }),
{
    text::law_trimming_keeps_what_is_between(a, said, b);
    text::law_trimming_keeps_what_is_between(c, branch, d);
    if let Some(s) = status {
        text::law_blank_texts_trim_to_nothing(s);
    }
}

} // verus!
