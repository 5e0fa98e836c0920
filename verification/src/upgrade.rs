//! Self-update: who may update the program, and what is reported of it.

use vstd::prelude::*;
use crate::text::{self, debug_of, has, text_eq, without_prefix};

verus! {

/// Whether a program lies where Homebrew keeps what it installs.
pub fn is_homebrew_managed(exe_path: &str) -> (r: bool)
    ensures
        r == text::contains(exe_path@, "/Cellar/"@),
{
    has(exe_path, "/Cellar/")
}

/// What came of an update.
#[derive(Debug, PartialEq, Eq)]
pub enum UpdateOutcome {
    /// Nothing newer was found; nothing was changed.
    UpToDate,
    /// A newer release was found and installed.
    Updated { new_version: String },
}

/// What a value of the variable that stands in for the updater says: the new
/// version, none where there is none, or why there is no answer.
pub open spec fn mocked(raw: Seq<char>) -> Result<Option<Seq<char>>, Seq<char>> {
    if raw == "up-to-date"@ {
        Ok(None)
    } else {
        match (
            text::strip_prefix(raw, "update-available:"@),
            text::strip_prefix(raw, "error:"@),
        ) {
            (Some(version), _) => Ok(Some(version)),
            (None, Some(message)) => Err(message),
            (None, None) => Err(
                "unrecognized ROKR_UPGRADE_MOCK_CHECK_OUTCOME value: "@ + text::debug_text(raw),
            ),
        }
    }
}

/// What a run of the updater is made to report by the variable that stands in
/// for it.
pub fn parse_mock_check_outcome(raw: &str) -> (r: Result<UpdateOutcome, String>)
    ensures
        match r {
            Ok(UpdateOutcome::UpToDate) => mocked(raw@) == Ok::<Option<Seq<char>>, Seq<char>>(None),
            Ok(UpdateOutcome::Updated { new_version }) => mocked(raw@) == Ok::<
                Option<Seq<char>>,
                Seq<char>,
            >(Some(new_version@)),
            Err(m) => mocked(raw@) == Err::<Option<Seq<char>>, Seq<char>>(m@),
        },
        if raw@ == "up-to-date"@ {
            r == Ok::<UpdateOutcome, String>(UpdateOutcome::UpToDate)
        } else if text::starts_with(raw@, "update-available:"@) {
            r matches Ok(UpdateOutcome::Updated { new_version }) && Some(new_version@)
                == text::strip_prefix(raw@, "update-available:"@)
        } else if text::starts_with(raw@, "error:"@) {
            r matches Err(m) && Some(m@) == text::strip_prefix(raw@, "error:"@)
        } else {
            r matches Err(m) && m@ == "unrecognized ROKR_UPGRADE_MOCK_CHECK_OUTCOME value: "@
                + text::debug_text(raw@)
        },
{
    if text_eq(raw, "up-to-date") {
        return Ok(UpdateOutcome::UpToDate);
    }
    match without_prefix(raw, "update-available:") {
        Some(version) => {
            return Ok(UpdateOutcome::Updated { new_version: version });
        },
        None => {},
    }
    match without_prefix(raw, "error:") {
        Some(message) => {
            return Err(message);
        },
        None => {},
    }
    let mut m = "unrecognized ROKR_UPGRADE_MOCK_CHECK_OUTCOME value: ".to_owned();
    m.append(debug_of(raw).as_str());
    Err(m)
}

/// What is printed at the end, and whether the program exits with success; a
/// failure is printed to standard error.
#[derive(Debug, PartialEq, Eq)]
pub struct UpgradeReport {
    pub text: String,
    pub success: bool,
}

/// What is reported where Homebrew manages the program: it is not updated.
pub fn homebrew_report() -> (r: UpgradeReport)
    ensures
        r.text@ == "rokr is managed by Homebrew; run `brew upgrade rokr` to update."@,
        r.success,
{
    UpgradeReport {
        text: "rokr is managed by Homebrew; run `brew upgrade rokr` to update.".to_owned(),
        success: true,
    }
}

/// What is reported of an update.
pub fn upgrade_report(outcome: &Result<UpdateOutcome, String>) -> (r: UpgradeReport)
    ensures
        r.success == outcome is Ok,
        r.text@ == (match *outcome {
            Ok(UpdateOutcome::UpToDate) => "rokr is already up to date."@,
            Ok(UpdateOutcome::Updated { new_version }) => "Updated rokr to version "@ + new_version@
                + "."@,
            Err(m) => "failed to check for updates: "@ + m@,
        }),
{
    match outcome {
        Ok(UpdateOutcome::UpToDate) => UpgradeReport {
            text: "rokr is already up to date.".to_owned(),
            success: true,
        },
        Ok(UpdateOutcome::Updated { new_version }) => {
            let mut text = "Updated rokr to version ".to_owned();
            text.append(new_version.as_str());
            text.append(".");
            UpgradeReport { text, success: true }
        },
        Err(m) => {
            let mut text = "failed to check for updates: ".to_owned();
            text.append(m.as_str());
            UpgradeReport { text, success: false }
        },
    }
}

/// A version and an error are whole: all that stands behind their mark.
pub proof fn law_versions_and_errors_are_read_whole(rest: Seq<char>)
    ensures
        mocked("up-to-date"@) == Ok::<Option<Seq<char>>, Seq<char>>(None),
        mocked("update-available:"@ + rest) == Ok::<Option<Seq<char>>, Seq<char>>(Some(rest)),
        mocked("error:"@ + rest) == Err::<Option<Seq<char>>, Seq<char>>(rest),
{
    reveal_strlit("up-to-date");
    reveal_strlit("update-available:");
    reveal_strlit("error:");
    let a = "update-available:"@ + rest;
    let b = "error:"@ + rest;
    text::law_prefixes_come_off_where_they_stand(a, "update-available:"@, rest);
    text::law_prefixes_come_off_where_they_stand(b, "error:"@, rest);
    assert(a[2] == 'd');
    assert("up-to-date"@[2] == '-');
    assert(b[0] == 'e');
    assert("up-to-date"@[0] == 'u');
    if text::starts_with(b, "update-available:"@) {
        assert(b.subrange(0, 17)[0] == b[0]);
    }
}

} // verus!
