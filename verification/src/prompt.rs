//! What the user is asked, and what the user may answer.

use vstd::prelude::*;

verus! {

/// What a permission prompt shows.
#[derive(Debug, PartialEq, Eq)]
pub enum PermissionDetail {
    Text(String),
    Diff { old: String, new: String },
}

/// A permission prompt.
#[derive(Debug, PartialEq, Eq)]
pub struct PromptRequest {
    pub tool_name: String,
    pub detail: PermissionDetail,
}

/// The user's answer to a permission prompt.
#[derive(Debug, Clone, Copy, PartialEq, Eq, Structural)]
pub enum PermissionDecision {
    /// This once.
    Allow,
    /// This once and from now on.
    AllowAndRemember,
    Deny,
}

impl PermissionDecision {
    /// Whether the answer lets the call through.
    pub open spec fn lets_through(self) -> bool {
        self != PermissionDecision::Deny
    }

    /// Whether the answer lets the call through.
    pub fn granted(self) -> (r: bool)
        ensures
            r == self.lets_through(),
    {
        match self {
            PermissionDecision::Allow | PermissionDecision::AllowAndRemember => true,
            PermissionDecision::Deny => false,
        }
    }
}

/// Every answer but a refusal lets the call through.
pub proof fn law_only_a_refusal_stops_a_call(d: PermissionDecision)
    ensures
        d.lets_through() <==> d is Allow || d is AllowAndRemember,
{
}

} // verus!
