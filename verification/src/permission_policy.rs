//! Which tool calls run, are refused, or are put to the user.

use vstd::prelude::*;
use crate::cli::PermissionMode;
use crate::git_readonly::{self, is_read_only_git};
use crate::text::{self, text_eq};

verus! {

/// What is to happen with one tool call.
#[derive(Debug, Clone, Copy, PartialEq, Eq, Structural)]
pub enum Resolution {
    /// Run it without asking.
    Allow,
    /// Refuse it without asking.
    Deny,
    /// Ask the user.
    Prompt,
}

/// The tools that the user allowed for the rest of the session.
#[derive(Debug)]
pub struct SessionGrants {
    granted_tools: Vec<String>,
}

impl View for SessionGrants {
    type V = Set<Seq<char>>;

    closed spec fn view(&self) -> Set<Seq<char>> {
        Set::new(|t: Seq<char>| text::texts(self.granted_tools@).contains(t))
    }
}

impl Default for SessionGrants {
    fn default() -> (r: Self)
        ensures
            r@ == Set::<Seq<char>>::empty(),
    {
        let r = SessionGrants { granted_tools: Vec::new() };
        assert(r@ =~= Set::<Seq<char>>::empty());
        r
    }
}

impl SessionGrants {
    /// No grants.
    pub fn new() -> (r: Self)
        ensures
            r@ == Set::<Seq<char>>::empty(),
    {
        Self::default()
    }

    /// Allows `tool_name` for the rest of the session.
    pub fn grant(&mut self, tool_name: &str)
        ensures
            final(self)@ == old(self)@.insert(tool_name@),
    {
        let ghost before = self.granted_tools@;
        if !self.is_granted(tool_name) {
            let name = tool_name.to_owned();
            self.granted_tools.push(name);
            proof {
                let now = text::texts(self.granted_tools@);
                assert(now =~= text::texts(before).push(tool_name@));
                assert forall|t: Seq<char>| now.contains(t) == (text::texts(before).contains(t) || t
                    == tool_name@) by {
                    if text::texts(before).contains(t) {
                        let i = text::texts(before).index_of(t);
                        assert(now[i] == t);
                    }
                    if t == tool_name@ {
                        assert(now[now.len() - 1] == t);
                    }
                    if now.contains(t) {
                        let i = now.index_of(t);
                        if i < before.len() {
                            assert(text::texts(before)[i] == t);
                        }
                    }
                }
            }
        }
        assert(self@ =~= old(self)@.insert(tool_name@));
    }

    /// Whether `tool_name` is allowed for the rest of the session.
    pub fn is_granted(&self, tool_name: &str) -> (r: bool)
        ensures
            r == self@.contains(tool_name@),
    {
        let ghost names = text::texts(self.granted_tools@);
        let mut i: usize = 0;
        while i < self.granted_tools.len()
            invariant
                i <= self.granted_tools.len(),
                names == text::texts(self.granted_tools@),
                forall|j: int| 0 <= j < i ==> #[trigger] names[j] != tool_name@,
            decreases self.granted_tools.len() - i,
        {
            assert(names[i as int] == self.granted_tools@[i as int]@);
            if text_eq(self.granted_tools[i].as_str(), tool_name) {
                assert(names.contains(tool_name@));
                return true;
            }
            i += 1;
        }
        false
    }
}

/// Decides about tool calls.
pub struct PermissionPolicy;

impl PermissionPolicy {
    /// The order of precedence: a grant, then `Bypass`, then `Deny`, then
    /// read-only git commands, then `AcceptEdits`, then the prompt.
    pub open spec fn decision(
        mode: Option<PermissionMode>,
        tool_name: Seq<char>,
        command: Option<Seq<char>>,
        grants: Set<Seq<char>>,
    ) -> Resolution {
        if grants.contains(tool_name) {
            Resolution::Allow
        } else if mode == Some(PermissionMode::Bypass) {
            Resolution::Allow
        } else if mode == Some(PermissionMode::Deny) {
            Resolution::Deny
        } else if tool_name == "bash"@ && command is Some && git_readonly::read_only_git(
            command->0,
        ) {
            Resolution::Allow
        } else if mode == Some(PermissionMode::AcceptEdits) && (tool_name == "write"@ || tool_name
            == "edit"@) {
            Resolution::Allow
        } else {
            Resolution::Prompt
        }
    }

    /// Decides about a call of `tool_name`. Without a mode (an interactive
    /// session) everything that is not granted or plainly read-only is put to
    /// the user. `command` is a shell call's text where it is known. Grants go
    /// by tool, so `path` makes no difference.
    pub fn resolve(
        mode: Option<PermissionMode>,
        tool_name: &str,
        path: Option<&str>,
        command: Option<&str>,
        grants: &SessionGrants,
    ) -> (r: Resolution)
        ensures
            r == Self::decision(mode, tool_name@, text::opt_str(command), grants@),
    {
        if grants.is_granted(tool_name) {
            return Resolution::Allow;
        }
        match mode {
            Some(PermissionMode::Bypass) => {
                return Resolution::Allow;
            },
            Some(PermissionMode::Deny) => {
                return Resolution::Deny;
            },
            _ => {},
        }
        if text_eq(tool_name, "bash") {
            if let Some(text) = command {
                if is_read_only_git(text) {
                    return Resolution::Allow;
                }
            }
        }
        match mode {
            Some(PermissionMode::AcceptEdits) => {
                if text_eq(tool_name, "write") || text_eq(tool_name, "edit") {
                    Resolution::Allow
                } else {
                    Resolution::Prompt
                }
            },
            _ => Resolution::Prompt,
        }
    }
}

/// A grant settles every later call of that tool, whatever the mode and the
/// command, and leaves every other tool as it was.
pub proof fn law_a_grant_covers_its_tool_alone(
    mode: Option<PermissionMode>,
    granted: Seq<char>,
    tool_name: Seq<char>,
    command: Option<Seq<char>>,
    grants: Set<Seq<char>>,
)
    ensures
        PermissionPolicy::decision(mode, granted, command, grants.insert(granted))
            == Resolution::Allow,
        tool_name != granted ==> PermissionPolicy::decision(
            mode,
            tool_name,
            command,
            grants.insert(granted),
        ) == PermissionPolicy::decision(mode, tool_name, command, grants),
{
}

/// Knowing a command can only turn a prompt into a permission: it never
/// overrules a refusal and never takes a permission away.
pub proof fn law_the_git_exception_only_lifts_prompts(
    mode: Option<PermissionMode>,
    tool_name: Seq<char>,
    command: Seq<char>,
    grants: Set<Seq<char>>,
)
    ensures
        ({
            let without = PermissionPolicy::decision(mode, tool_name, None, grants);
            let with = PermissionPolicy::decision(mode, tool_name, Some(command), grants);
            with == without || (without == Resolution::Prompt && with == Resolution::Allow
                && git_readonly::read_only_git(command))
        }),
{
}

/// An interactive session never refuses on its own: it allows or asks.
pub proof fn law_without_a_mode_nothing_is_refused(
    tool_name: Seq<char>,
    command: Option<Seq<char>>,
    grants: Set<Seq<char>>,
)
    ensures
        PermissionPolicy::decision(None, tool_name, command, grants) != Resolution::Deny,
{
}

/// Every mode decides in its own way about a tool without a grant: `Bypass`
/// allows everything and `Deny` refuses everything; the others allow read-only
/// git commands in the shell, `AcceptEdits` also writing and editing, and ask
/// about all the rest.
pub proof fn law_every_mode_decides(
    tool_name: Seq<char>,
    command: Option<Seq<char>>,
    grants: Set<Seq<char>>,
)
    requires
        !grants.contains(tool_name),
    ensures
        PermissionPolicy::decision(Some(PermissionMode::Bypass), tool_name, command, grants)
            is Allow,
        PermissionPolicy::decision(Some(PermissionMode::Deny), tool_name, command, grants) is Deny,
        forall|mode: Option<PermissionMode>|
            mode != Some(PermissionMode::Bypass) && mode != Some(PermissionMode::Deny) && !(
            tool_name == "bash"@ && command is Some && git_readonly::read_only_git(command->0)) && !(
            mode == Some(PermissionMode::AcceptEdits) && (tool_name == "write"@ || tool_name
                == "edit"@)) ==> #[trigger] PermissionPolicy::decision(
                mode,
                tool_name,
                command,
                grants,
            ) is Prompt,
        forall|mode: Option<PermissionMode>|
            mode != Some(PermissionMode::Deny) && tool_name == "bash"@ && command is Some
                && git_readonly::read_only_git(command->0)
                ==> #[trigger] PermissionPolicy::decision(mode, tool_name, command, grants)
                is Allow,
        tool_name == "write"@ || tool_name == "edit"@ ==> PermissionPolicy::decision(
            Some(PermissionMode::AcceptEdits),
            tool_name,
            command,
            grants,
        ) is Allow,
{
}

} // verus!
