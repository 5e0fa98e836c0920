//! The result of a headless run, as scripts and tools get to see it.

use vstd::prelude::*;
use crate::message::Usage;

verus! {

/// How a run ended.
#[derive(Debug, Clone, Copy, PartialEq, Eq, Structural)]
pub enum Subtype {
    Success,
    ErrorMaxTurns,
    ErrorPermission,
}

impl Subtype {
    /// The name under which a run's end is reported.
    pub open spec fn name_spec(self) -> Seq<char> {
        match self {
            Subtype::Success => "success"@,
            Subtype::ErrorMaxTurns => "error_max_turns"@,
            Subtype::ErrorPermission => "error_permission"@,
        }
    }

    /// The name under which a run's end is reported.
    pub fn name(self) -> (r: &'static str)
        ensures
            r@ == self.name_spec(),
    {
        match self {
            Subtype::Success => "success",
            Subtype::ErrorMaxTurns => "error_max_turns",
            Subtype::ErrorPermission => "error_permission",
        }
    }
}

/// Token counts of a run.
#[derive(Debug, Clone, Copy, PartialEq, Eq, Structural)]
pub struct UsageObject {
    pub input_tokens: u64,
    pub output_tokens: u64,
    pub cache_read_tokens: u64,
    pub cache_write_tokens: u64,
}

impl Default for UsageObject {
    fn default() -> (r: Self)
        ensures
            r == usage_object(
                Usage {
                    input_tokens: 0,
                    output_tokens: 0,
                    cache_read_tokens: 0,
                    cache_write_tokens: 0,
                },
            ),
    {
        UsageObject {
            input_tokens: 0,
            output_tokens: 0,
            cache_read_tokens: 0,
            cache_write_tokens: 0,
        }
    }
}

/// The same four counts.
pub open spec fn usage_object(usage: Usage) -> UsageObject {
    UsageObject {
        input_tokens: usage.input_tokens,
        output_tokens: usage.output_tokens,
        cache_read_tokens: usage.cache_read_tokens,
        cache_write_tokens: usage.cache_write_tokens,
    }
}

impl From<Usage> for UsageObject {
    fn from(usage: Usage) -> (r: Self) {
        UsageObject {
            input_tokens: usage.input_tokens,
            output_tokens: usage.output_tokens,
            cache_read_tokens: usage.cache_read_tokens,
            cache_write_tokens: usage.cache_write_tokens,
        }
    }
}

impl vstd::std_specs::convert::FromSpecImpl<Usage> for UsageObject {
    open spec fn obeys_from_spec() -> bool {
        true
    }

    open spec fn from_spec(usage: Usage) -> Self {
        usage_object(usage)
    }
}

/// The result of a headless run, but for its cost, which is a fraction of
/// money that the caller adds.
#[derive(Debug)]
pub struct ResultObject {
    pub subtype: Subtype,
    pub session_id: String,
    pub result: String,
    pub is_error: bool,
    pub usage: UsageObject,
    pub num_turns: u32,
    pub duration_ms: u64,
}

impl ResultObject {
    /// The exit code of a run that got as far as a result.
    pub open spec fn exit_code_spec(self) -> u8 {
        match self.subtype {
            Subtype::Success => 0,
            _ => 1,
        }
    }

    /// The exit code of a run that got as far as a result: zero for success,
    /// one otherwise.
    pub fn exit_code(&self) -> (r: u8)
        ensures
            r == self.exit_code_spec(),
            r == (if self.subtype == Subtype::Success {
                0u8
            } else {
                1u8
            }),
    {
        match self.subtype {
            Subtype::Success => 0,
            Subtype::ErrorMaxTurns | Subtype::ErrorPermission => 1,
        }
    }
}

/// A result carries the four counts as they are.
pub proof fn law_counts_are_carried_over(usage: Usage)
    ensures
        usage_object(usage).input_tokens == usage.input_tokens,
        usage_object(usage).output_tokens == usage.output_tokens,
        usage_object(usage).cache_read_tokens == usage.cache_read_tokens,
        usage_object(usage).cache_write_tokens == usage.cache_write_tokens,
{
}

/// An end is reported under its own name, and only success under that of success.
pub proof fn law_ends_are_reported_by_name(end: Subtype)
    ensures
        end is Success <==> end.name_spec() == "success"@,
        end is ErrorMaxTurns <==> end.name_spec() == "error_max_turns"@,
        end is ErrorPermission <==> end.name_spec() == "error_permission"@,
{
    reveal_strlit("success");
    reveal_strlit("error_max_turns");
    reveal_strlit("error_permission");
    assert("success"@.len() == 7);
    assert("error_max_turns"@.len() == 15);
    assert("error_permission"@.len() == 16);
}

} // verus!
