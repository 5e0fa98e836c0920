//! What the command line chooses: agent tier, permission mode, output format,
//! which session to resume.

use vstd::prelude::*;
use crate::text;

verus! {

/// Which tools and which prompt an agent gets.
#[derive(Debug, Clone, Copy, PartialEq, Eq, Structural)]
pub enum AgentTier {
    Plan,
    Build,
}

impl AgentTier {
    /// The name of a tier's prompt.
    pub open spec fn prompt_name_spec(self) -> Seq<char> {
        match self {
            AgentTier::Plan => "plan"@,
            AgentTier::Build => "build"@,
        }
    }

    /// The name under which a tier's prompt is kept.
    pub fn prompt_name(self) -> (r: &'static str)
        ensures
            r@ == self.prompt_name_spec(),
    {
        match self {
            AgentTier::Plan => "plan",
            AgentTier::Build => "build",
        }
    }
}

/// Which session a run goes on with.
#[derive(Debug, PartialEq, Eq)]
pub enum ResumeMode {
    /// A fresh session.
    Fresh,
    /// The session of that identifier.
    Id(String),
    /// The most recent session.
    Continue,
}

/// How a headless run reports.
#[derive(Debug, Clone, Copy, PartialEq, Eq, Structural)]
pub enum OutputFormat {
    Text,
    Json,
    StreamJson,
}

/// What a headless run may do without asking.
#[derive(Debug, Clone, Copy, PartialEq, Eq, Structural)]
pub enum PermissionMode {
    Deny,
    AcceptEdits,
    Bypass,
}

/// How an evaluation reports.
#[derive(Debug, Clone, Copy, PartialEq, Eq, Structural)]
pub enum ReportFormat {
    Text,
    Json,
}

/// What `auth` does.
#[derive(Debug, Clone, Copy, PartialEq, Eq, Structural)]
pub enum AuthAction {
    Login,
}

impl ResumeMode {
    /// The session that is named, if one is.
    pub open spec fn named(self) -> Option<Seq<char>> {
        match self {
            ResumeMode::Id(id) => Some(id@),
            _ => None,
        }
    }
}

/// The session that the two resume flags name: one that is named, and whether
/// it is the most recent one.
pub open spec fn resumed(resume: Option<Seq<char>>, continue_session: bool) -> (
    Option<Seq<char>>,
    bool,
) {
    (resume, resume is None && continue_session)
}

/// The session choice of the two resume flags: a named session wins over the
/// most recent one.
pub fn resume_mode(resume: Option<&str>, continue_session: bool) -> (r: ResumeMode)
    ensures
        (r.named(), r is Continue) == resumed(text::opt_str(resume), continue_session),
        match resume {
            Some(id) => r matches ResumeMode::Id(s) && s@ == id@,
            None => r == (if continue_session {
                ResumeMode::Continue
            } else {
                ResumeMode::Fresh
            }),
        },
{
    match resume {
        Some(id) => ResumeMode::Id(id.to_owned()),
        None => if continue_session {
            ResumeMode::Continue
        } else {
            ResumeMode::Fresh
        },
    }
}

/// Each tier has a prompt of its own, by its own name.
pub proof fn law_tiers_have_their_own_prompts(tier: AgentTier)
    ensures
        tier is Plan <==> tier.prompt_name_spec() == "plan"@,
        tier is Build <==> tier.prompt_name_spec() == "build"@,
{
    reveal_strlit("plan");
    reveal_strlit("build");
    assert("plan"@.len() == 4);
    assert("build"@.len() == 5);
}

/// A session that is named is the one that goes on, whatever else is asked for;
/// without a name it is the most recent one if that is asked for, and else none.
pub proof fn law_a_named_session_wins(id: Seq<char>, continue_session: bool)
    ensures
        resumed(Some(id), continue_session) == (Some(id), false),
        resumed(None, continue_session) == (None::<Seq<char>>, continue_session),
{
}

} // verus!
