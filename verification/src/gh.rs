//! Pull requests: the command that creates one, and what its failures mean.

use vstd::prelude::*;
use crate::git::{self, contains_co_author_line};
use crate::io_failure::IoFailure;
use crate::text::{self, debug_of, has, lowered, trimmed};

verus! {

/// Why a pull request was not created.
#[derive(Debug, PartialEq, Eq)]
pub enum GhError {
    /// `gh` is not there; with the command to run by hand.
    NotInstalled(String),
    /// `gh` is not logged in; with the command to run by hand.
    NotAuthenticated(String),
    CoAuthorNotAllowed,
    Failed(String),
}

impl GhError {
    /// The error in words.
    pub open spec fn message_spec(self) -> Seq<char> {
        match self {
            GhError::NotInstalled(manual) =>
            "gh is not installed; install it from https://cli.github.com, then run manually:\n"@
                + manual@,
            GhError::NotAuthenticated(manual) =>
            "gh is not authenticated; run `gh auth login`, then run manually:\n"@ + manual@,
            GhError::CoAuthorNotAllowed =>
            "PR title/body must not contain a Co-Authored-By line or other agent attribution"@,
            GhError::Failed(m) => "gh pr create failed: "@ + m@,
        }
    }

    /// The error in words.
    pub fn message(&self) -> (r: String)
        ensures
            r@ == self.message_spec(),
    {
        match self {
            GhError::NotInstalled(manual) => {
                let mut out =
                    "gh is not installed; install it from https://cli.github.com, then run manually:\n".to_owned();
                out.append(manual.as_str());
                out
            },
            GhError::NotAuthenticated(manual) => {
                let mut out =
                    "gh is not authenticated; run `gh auth login`, then run manually:\n".to_owned();
                out.append(manual.as_str());
                out
            },
            GhError::CoAuthorNotAllowed =>
            "PR title/body must not contain a Co-Authored-By line or other agent attribution".to_owned(),
            GhError::Failed(m) => {
                let mut out = "gh pr create failed: ".to_owned();
                out.append(m.as_str());
                out
            },
        }
    }
}

/// Whether what `gh` printed says that it is not logged in.
pub open spec fn needs_login(stderr: Seq<char>) -> bool {
    text::contains(text::lower(stderr), "gh auth login"@) || text::contains(
        text::lower(stderr),
        "not logged"@,
    )
}

/// What a failed `gh pr create` means, by what it printed.
pub fn map_gh_pr_create_failure(stderr: &str, manual: &str) -> (r: GhError)
    ensures
        if needs_login(stderr@) {
            r matches GhError::NotAuthenticated(m) && m@ == manual@
        } else {
            r matches GhError::Failed(m) && m@ == text::trim(stderr@)
        },
{
    let low = lowered(stderr);
    if has(low.as_str(), "gh auth login") || has(low.as_str(), "not logged") {
        GhError::NotAuthenticated(manual.to_owned())
    } else {
        GhError::Failed(trimmed(stderr))
    }
}

/// What it means that `gh` could not be started: only a missing program means
/// that it is not installed.
pub fn map_gh_spawn_error(err: &IoFailure, manual: &str) -> (r: GhError)
    ensures
        if err.not_found {
            r matches GhError::NotInstalled(m) && m@ == manual@
        } else {
            r matches GhError::Failed(m) && m@ == "failed to spawn gh: "@ + err.message@
        },
{
    if err.not_found {
        GhError::NotInstalled(manual.to_owned())
    } else {
        let mut m = "failed to spawn gh: ".to_owned();
        m.append(err.message.as_str());
        GhError::Failed(m)
    }
}

/// The command that creates a pull request by hand.
pub open spec fn manual_text(title: Seq<char>, body: Seq<char>) -> Seq<char> {
    "gh pr create --title "@ + text::debug_text(title) + " --body "@ + text::debug_text(body)
}

/// The command that creates a pull request by hand.
pub fn manual_command(title: &str, body: &str) -> (r: String)
    ensures
        r@ == manual_text(title@, body@),
{
    let mut out = "gh pr create --title ".to_owned();
    out.append(debug_of(title).as_str());
    out.append(" --body ");
    out.append(debug_of(body).as_str());
    out
}

/// The arguments that create a pull request; a title or a body that credits a
/// co-author is refused.
pub fn create_pr(title: &str, body: &str) -> (r: Result<Vec<String>, GhError>)
    ensures
        match r {
            Ok(args) => !git::has_co_author(title@) && !git::has_co_author(body@) && text::texts(
                args@,
            ) == seq!["pr"@, "create"@, "--title"@, title@, "--body"@, body@],
            Err(e) => (git::has_co_author(title@) || git::has_co_author(body@)) && e
                == GhError::CoAuthorNotAllowed,
        },
{
    if contains_co_author_line(title) || contains_co_author_line(body) {
        return Err(GhError::CoAuthorNotAllowed);
    }
    let mut args: Vec<String> = Vec::new();
    args.push("pr".to_owned());
    args.push("create".to_owned());
    args.push("--title".to_owned());
    args.push(title.to_owned());
    args.push("--body".to_owned());
    args.push(body.to_owned());
    assert(text::texts(args@) =~= seq![
        "pr"@,
        "create"@,
        "--title"@,
        title@,
        "--body"@,
        body@,
    ]);
    Ok(args)
}

/// What a finished `gh` left behind.
#[derive(Debug)]
pub struct GhOutput {
    pub succeeded: bool,
    pub stdout: String,
    pub stderr: String,
}

/// Why a run of `gh` that failed created no pull request.
#[derive(Debug, Clone, Copy, PartialEq, Eq, Structural)]
pub enum GhFailure {
    NotInstalled,
    NotAuthenticated,
    Failed,
}

/// What came of a run of `gh`: the address, or why there is none and what there
/// is to say about it. `manual` is the command to run by hand.
pub open spec fn pr_outcome(run: Result<GhOutput, IoFailure>, manual: Seq<char>) -> Result<
    Seq<char>,
    (GhFailure, Seq<char>),
> {
    match run {
        Ok(out) => if out.succeeded {
            Ok(text::trim(out.stdout@))
        } else if needs_login(out.stderr@) {
            Err((GhFailure::NotAuthenticated, manual))
        } else {
            Err((GhFailure::Failed, text::trim(out.stderr@)))
        },
        Err(e) => if e.not_found {
            Err((GhFailure::NotInstalled, manual))
        } else {
            Err((GhFailure::Failed, "failed to spawn gh: "@ + e.message@))
        },
    }
}

/// What came of creating a pull request: its address, or why there is none.
pub fn create_pr_result(title: &str, body: &str, run: &Result<GhOutput, IoFailure>) -> (r: Result<
    String,
    GhError,
>)
    ensures
        ({
            let outcome = pr_outcome(*run, manual_text(title@, body@));
            match r {
                Ok(url) => outcome == Ok::<Seq<char>, (GhFailure, Seq<char>)>(url@),
                Err(GhError::NotInstalled(m)) => outcome == Err::<
                    Seq<char>,
                    (GhFailure, Seq<char>),
                >((GhFailure::NotInstalled, m@)),
                Err(GhError::NotAuthenticated(m)) => outcome == Err::<
                    Seq<char>,
                    (GhFailure, Seq<char>),
                >((GhFailure::NotAuthenticated, m@)),
                Err(GhError::Failed(m)) => outcome == Err::<Seq<char>, (GhFailure, Seq<char>)>(
                    (GhFailure::Failed, m@),
                ),
                Err(GhError::CoAuthorNotAllowed) => false,
            }
        }),
        match *run {
            Ok(out) => if out.succeeded {
                r matches Ok(url) && url@ == text::trim(out.stdout@)
            } else if needs_login(out.stderr@) {
                r matches Err(GhError::NotAuthenticated(m)) && m@ == manual_text(title@, body@)
            } else {
                r matches Err(GhError::Failed(m)) && m@ == text::trim(out.stderr@)
            },
            Err(e) => if e.not_found {
                r matches Err(GhError::NotInstalled(m)) && m@ == manual_text(title@, body@)
            } else {
                r matches Err(GhError::Failed(m)) && m@ == "failed to spawn gh: "@ + e.message@
            },
        },
{
    let manual = manual_command(title, body);
    match run {
        Err(err) => Err(map_gh_spawn_error(err, manual.as_str())),
        Ok(out) => {
            if out.succeeded {
                return Ok(trimmed(out.stdout.as_str()));
            }
            Err(map_gh_pr_create_failure(out.stderr.as_str(), manual.as_str()))
        },
    }
}

/// `gh` needs a login exactly if what it printed says so somewhere, in capitals or
/// small letters.
pub proof fn law_a_login_is_asked_for_anywhere(a: Seq<char>, phrase: Seq<char>, b: Seq<char>)
    ensures
        text::lower(phrase) == "gh auth login"@ || text::lower(phrase) == "not logged"@
            ==> needs_login(a + phrase + b),
        needs_login(a) ==> exists|i: int, j: int|
            0 <= i <= j <= a.len() && (text::lower(#[trigger] a.subrange(i, j)) == "gh auth login"@
                || text::lower(a.subrange(i, j)) == "not logged"@),
{
    let s = a + phrase + b;
    let low = text::lower(s);
    let n = a.len() as int;
    let m = n + phrase.len();
    assert(low.subrange(n, m) =~= text::lower(phrase));
    if text::lower(phrase) == "gh auth login"@ {
        assert(text::occurs_at(low, "gh auth login"@, n));
    }
    if text::lower(phrase) == "not logged"@ {
        assert(text::occurs_at(low, "not logged"@, n));
    }
    if needs_login(a) {
        let l = text::lower(a);
        if text::contains(l, "gh auth login"@) {
            let i = choose|i: int| text::occurs_at(l, "gh auth login"@, i);
            let j = i + "gh auth login"@.len();
            assert(text::lower(a.subrange(i, j)) =~= l.subrange(i, j));
        } else {
            let i = choose|i: int| text::occurs_at(l, "not logged"@, i);
            let j = i + "not logged"@.len();
            assert(text::lower(a.subrange(i, j)) =~= l.subrange(i, j));
        }
    }
}

/// Every error is told with what to do about it: the command to run by hand, or
/// what `gh` printed.
pub proof fn law_errors_tell_what_to_do(text: String)
    ensures
        GhError::NotInstalled(text).message_spec()
            == "gh is not installed; install it from https://cli.github.com, then run manually:\n"@
            + text@,
        GhError::NotAuthenticated(text).message_spec()
            == "gh is not authenticated; run `gh auth login`, then run manually:\n"@ + text@,
        GhError::Failed(text).message_spec() == "gh pr create failed: "@ + text@,
{
}

/// The command to run by hand names the title and the body, both in quotes.
pub proof fn law_manual_commands_name_title_and_body(title: Seq<char>, body: Seq<char>)
    ensures
        manual_text(title, body) == "gh pr create --title "@ + text::debug_text(title)
            + " --body "@ + text::debug_text(body),
{
}

/// A run that succeeded gives the address that it printed, without the white space
/// around it, whatever it complained about.
pub proof fn law_success_gives_the_address(
    out: GhOutput,
    manual: Seq<char>,
    a: Seq<char>,
    url: Seq<char>,
    b: Seq<char>,
)
    requires
        out.succeeded,
        out.stdout@ == a + url + b,
        forall|k: int| 0 <= k < a.len() ==> text::white(#[trigger] a[k]),
        forall|k: int| 0 <= k < b.len() ==> text::white(#[trigger] b[k]),
        url.len() > 0 ==> !text::white(url[0]) && !text::white(url.last()),
    ensures
        pr_outcome(Ok(out), manual) == Ok::<Seq<char>, (GhFailure, Seq<char>)>(url),
{
    text::law_trimming_keeps_what_is_between(a, url, b);
}

/// A run that failed gives no address. Where a login or the program itself is
/// missing, the command to run by hand is handed on, whole; else what was
/// printed, or why the program could not be started.
pub proof fn law_failures_hand_on_what_to_do(
    out: GhOutput,
    error: IoFailure,
    manual: Seq<char>,
)
    ensures
        error.not_found ==> pr_outcome(Err(error), manual) == Err::<
            Seq<char>,
            (GhFailure, Seq<char>),
        >((GhFailure::NotInstalled, manual)),
        !error.not_found ==> pr_outcome(Err(error), manual) == Err::<
            Seq<char>,
            (GhFailure, Seq<char>),
        >((GhFailure::Failed, "failed to spawn gh: "@ + error.message@)),
        !out.succeeded && needs_login(out.stderr@) ==> pr_outcome(Ok(out), manual) == Err::<
            Seq<char>,
            (GhFailure, Seq<char>),
        >((GhFailure::NotAuthenticated, manual)),
        !out.succeeded && !needs_login(out.stderr@) ==> pr_outcome(Ok(out), manual) == Err::<
            Seq<char>,
            (GhFailure, Seq<char>),
        >((GhFailure::Failed, text::trim(out.stderr@))),
{
}

} // verus!
