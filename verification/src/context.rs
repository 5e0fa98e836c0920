//! Context assembly: the order in which a request's segments go out (system
//! prompt, repository map, transcript) and where cache breakpoints stand.

use vstd::prelude::*;
use crate::message::{self, Block, CacheControl, CacheControlKind, ContentBlock, Message, Msg, Role};
use crate::text;

verus! {

/// A tool as a provider advertises it. `input_schema` is JSON, held as its
/// compact text.
#[derive(Debug, PartialEq, Eq)]
pub struct ToolSpec {
    pub name: String,
    pub description: String,
    pub input_schema: String,
    pub cache_control: Option<CacheControl>,
}

impl Clone for ToolSpec {
    fn clone(&self) -> (r: Self)
        ensures
            r == *self,
    {
        ToolSpec {
            name: self.name.clone(),
            description: self.description.clone(),
            input_schema: self.input_schema.clone(),
            cache_control: self.cache_control,
        }
    }
}

/// A copy of a list of tool specifications.
pub fn copy_specs(v: &Vec<ToolSpec>) -> (r: Vec<ToolSpec>)
    ensures
        r@ == v@,
{
    let mut r: Vec<ToolSpec> = Vec::new();
    let mut i: usize = 0;
    while i < v.len()
        invariant
            i <= v.len(),
            r@ == v@.take(i as int),
        decreases v.len() - i,
    {
        r.push(v[i].clone());
        i += 1;
        assert(v@.take(i as int) =~= v@.take(i - 1).push(v@[i - 1]));
    }
    assert(v@.take(v@.len() as int) =~= v@);
    r
}

/// The segments of one request.
pub struct ContextInputs {
    pub system_prompt: String,
    pub tools: Vec<ToolSpec>,
    pub repo_map: Option<String>,
    pub transcript: Vec<Message>,
}

/// A request ready to be sent.
pub struct AssembledContext {
    pub messages: Vec<Message>,
    pub tools: Vec<ToolSpec>,
}

/// The cache hint of the given kind.
pub open spec fn hint(kind: CacheControlKind) -> Option<CacheControl> {
    Some(CacheControl { kind })
}

/// `b` with its cache hint replaced.
pub open spec fn with_hint(b: Block, hint: Option<CacheControl>) -> Block {
    match b {
        Block::Text { text, .. } => Block::Text { text, cache_control: hint },
        Block::ToolUse { id, name, input, .. } => Block::ToolUse {
            id,
            name,
            input,
            cache_control: hint,
        },
        Block::ToolResult { tool_use_id, content, is_error, .. } => Block::ToolResult {
            tool_use_id,
            content,
            is_error,
            cache_control: hint,
        },
    }
}

/// `m` with the cache hint of its last block replaced; an empty message is
/// left as it is.
pub open spec fn mark_last(m: Msg, hint: Option<CacheControl>) -> Msg {
    if m.content.len() == 0 {
        m
    } else {
        Msg { role: m.role, content: m.content.drop_last().push(with_hint(m.content.last(), hint)) }
    }
}

/// A system segment: one text block that ends in a long-lived breakpoint.
pub open spec fn system_segment(text: Seq<char>) -> Msg {
    mark_last(message::text_msg(Role::System, text), hint(CacheControlKind::Extended))
}

/// The transcript, its last message ending in a short-lived breakpoint.
pub open spec fn transcript_segment(t: Seq<Msg>) -> Seq<Msg> {
    if t.len() == 0 {
        t
    } else {
        t.drop_last().push(mark_last(t.last(), hint(CacheControlKind::Ephemeral)))
    }
}

/// The static segments: the system prompt, then the repository map if any.
pub open spec fn static_segments(system_prompt: Seq<char>, repo_map: Option<Seq<char>>) -> Seq<
    Msg,
> {
    match repo_map {
        Some(map) => seq![system_segment(system_prompt), system_segment(map)],
        None => seq![system_segment(system_prompt)],
    }
}

/// The messages of an assembled request.
pub open spec fn assembled_messages(
    system_prompt: Seq<char>,
    repo_map: Option<Seq<char>>,
    transcript: Seq<Msg>,
) -> Seq<Msg> {
    static_segments(system_prompt, repo_map) + transcript_segment(transcript)
}

/// The tools of an assembled request: the last one ends in a long-lived
/// breakpoint.
pub open spec fn assembled_tools(tools: Seq<ToolSpec>) -> Seq<ToolSpec> {
    if tools.len() == 0 {
        tools
    } else {
        let last = tools.last();
        tools.drop_last().push(
            ToolSpec {
                name: last.name,
                description: last.description,
                input_schema: last.input_schema,
                cache_control: hint(CacheControlKind::Extended),
            },
        )
    }
}

/// A block without its cache hint.
pub open spec fn bare_block(b: Block) -> Block {
    with_hint(b, None)
}

/// A message without cache hints.
pub open spec fn bare(m: Msg) -> Msg {
    Msg { role: m.role, content: m.content.map_values(|b: Block| bare_block(b)) }
}

/// Messages without cache hints.
pub open spec fn bare_all(ms: Seq<Msg>) -> Seq<Msg> {
    ms.map_values(|m: Msg| bare(m))
}

/// Sets the cache hint of a block.
fn with_cache_control(block: ContentBlock, cache_control: CacheControl) -> (r: ContentBlock)
    ensures
        r@ == with_hint(block@, Some(cache_control)),
{
    match block {
        ContentBlock::Text { text, .. } => ContentBlock::Text {
            text,
            cache_control: Some(cache_control),
        },
        ContentBlock::ToolUse { id, name, input, .. } => ContentBlock::ToolUse {
            id,
            name,
            input,
            cache_control: Some(cache_control),
        },
        ContentBlock::ToolResult { tool_use_id, content, is_error, .. } =>
        ContentBlock::ToolResult {
            tool_use_id,
            content,
            is_error,
            cache_control: Some(cache_control),
        },
    }
}

/// Sets the cache hint of a message's last block.
fn mark_last_block(message: Message, kind: CacheControlKind) -> (r: Message)
    ensures
        r@ == mark_last(message@, hint(kind)),
{
    let role = message.role;
    let mut content = message.content;
    let ghost before = content@;
    match content.pop() {
        Some(last) => {
            let marked = with_cache_control(last, CacheControl { kind });
            content.push(marked);
            proof {
                assert(content@ =~= before.drop_last().push(marked));
                assert(message::blocks(content@) =~= message::blocks(before).drop_last().push(marked@));
                assert(message::blocks(before).last() == last@);
            }
        },
        None => {
            assert(message::blocks(content@) =~= message::blocks(before));
        },
    }
    Message { role, content }
}

/// Assembles a request: the system prompt, the repository map if there is
/// one, then the transcript; tools pass through. The tools and the system
/// segments end in long-lived breakpoints, the transcript in a short-lived
/// one.
pub fn assemble(inputs: ContextInputs) -> (r: AssembledContext)
    ensures
        message::msgs(r.messages@) == assembled_messages(
            inputs.system_prompt@,
            text::opt_text(inputs.repo_map),
            message::msgs(inputs.transcript@),
        ),
        r.tools@ == assembled_tools(inputs.tools@),
{
    let ContextInputs { system_prompt, tools, repo_map, transcript } = inputs;
    let mut tools = tools;
    let ghost tools0 = tools@;
    match tools.pop() {
        Some(last) => {
            let marked = ToolSpec {
                name: last.name,
                description: last.description,
                input_schema: last.input_schema,
                cache_control: Some(CacheControl { kind: CacheControlKind::Extended }),
            };
            tools.push(marked);
            assert(tools@ =~= assembled_tools(tools0));
        },
        None => {},
    }

    let mut messages: Vec<Message> = Vec::new();
    messages.push(
        mark_last_block(Message::system_text(system_prompt.as_str()), CacheControlKind::Extended),
    );
    let ghost map = text::opt_text(repo_map);
    match repo_map {
        Some(text) => {
            messages.push(
                mark_last_block(Message::system_text(text.as_str()), CacheControlKind::Extended),
            );
        },
        None => {},
    }
    assert(message::msgs(messages@) =~= static_segments(system_prompt@, map));

    let mut tail = transcript;
    let ghost before = tail@;
    match tail.pop() {
        Some(last) => {
            let marked = mark_last_block(last, CacheControlKind::Ephemeral);
            tail.push(marked);
            proof {
                assert(message::msgs(before).last() == last@);
                assert(message::msgs(tail@) =~= message::msgs(before).drop_last().push(marked@));
            }
        },
        None => {},
    }
    assert(message::msgs(tail@) =~= transcript_segment(message::msgs(before)));
    let ghost head = messages@;
    let ghost rest = tail@;
    messages.append(&mut tail);
    assert(messages@ =~= head + rest);
    assert(message::msgs(messages@) =~= message::msgs(head) + message::msgs(rest));
    AssembledContext { messages, tools }
}

/// Assembling a request only adds cache hints: without them it is the system
/// prompt, the repository map if there is one, and the transcript, in order.
pub proof fn law_assembling_only_adds_hints(
    system_prompt: Seq<char>,
    repo_map: Option<Seq<char>>,
    transcript: Seq<Msg>,
)
    ensures
        bare_all(assembled_messages(system_prompt, repo_map, transcript)) == (match repo_map {
            Some(map) => seq![
                message::text_msg(Role::System, system_prompt),
                message::text_msg(Role::System, map),
            ],
            None => seq![message::text_msg(Role::System, system_prompt)],
        }) + bare_all(transcript),
{
    assert forall|t: Seq<char>| bare(#[trigger] system_segment(t)) == message::text_msg(Role::System, t) by {
        assert(bare(system_segment(t)).content =~= message::text_msg(Role::System, t).content);
    }
    let tail = transcript_segment(transcript);
    assert(bare_all(tail) =~= bare_all(transcript)) by {
        if transcript.len() > 0 {
            let last = transcript.last();
            let marked = mark_last(last, hint(CacheControlKind::Ephemeral));
            assert(bare(marked).content =~= bare(last).content);
        }
    }
    let all = assembled_messages(system_prompt, repo_map, transcript);
    match repo_map {
        Some(map) => {
            assert(bare_all(all) =~= seq![
                message::text_msg(Role::System, system_prompt),
                message::text_msg(Role::System, map),
            ] + bare_all(tail)) by {
                assert(all[0] == system_segment(system_prompt));
                assert(all[1] == system_segment(map));
            }
        },
        None => {
            assert(bare_all(all) =~= seq![message::text_msg(Role::System, system_prompt)] + bare_all(tail))
                by {
                assert(all[0] == system_segment(system_prompt));
            }
        },
    }
}

/// Only the ends of segments carry breakpoints that assembling sets: every
/// transcript message but the last goes out exactly as it stands.
pub proof fn law_only_the_tail_of_the_transcript_is_marked(
    system_prompt: Seq<char>,
    repo_map: Option<Seq<char>>,
    transcript: Seq<Msg>,
    i: int,
)
    requires
        0 <= i < transcript.len() - 1,
    ensures
        ({
            let offset = static_segments(system_prompt, repo_map).len();
            assembled_messages(system_prompt, repo_map, transcript)[offset + i] == transcript[i]
        }),
{
}

/// Assembling only adds a hint to the tools: all of them go out, in order and
/// described as they were, every one but the last unchanged, and the last with a
/// long-lived breakpoint.
pub proof fn law_every_tool_is_offered(tools: Seq<ToolSpec>, i: int)
    requires
        0 <= i < tools.len(),
    ensures
        assembled_tools(tools).len() == tools.len(),
        assembled_tools(tools)[i].name == tools[i].name,
        assembled_tools(tools)[i].description == tools[i].description,
        assembled_tools(tools)[i].input_schema == tools[i].input_schema,
        i < tools.len() - 1 ==> assembled_tools(tools)[i] == tools[i],
        i == tools.len() - 1 ==> assembled_tools(tools)[i].cache_control == Some(
            CacheControl { kind: CacheControlKind::Extended },
        ),
        assembled_tools(Seq::<ToolSpec>::empty()).len() == 0,
{
}

/// Every message of the conversation goes out behind the static segments, with
/// its role and all its blocks, each saying what it said; only the last block of
/// the last message gets another hint, a short-lived one.
pub proof fn law_every_block_goes_out(
    system_prompt: Seq<char>,
    repo_map: Option<Seq<char>>,
    transcript: Seq<Msg>,
    i: int,
    j: int,
)
    requires
        0 <= i < transcript.len(),
        0 <= j < transcript[i].content.len(),
    ensures
        ({
            let sent = assembled_messages(system_prompt, repo_map, transcript);
            let at = i + if repo_map is Some {
                2int
            } else {
                1
            };
            let m = sent[at];
            let given = transcript[i].content[j];
            let last = i == transcript.len() - 1 && j == transcript[i].content.len() - 1;
            let breakpoint = Some(CacheControl { kind: CacheControlKind::Ephemeral });
            &&& sent.len() == transcript.len() + if repo_map is Some {
                2int
            } else {
                1
            }
            &&& m.role == transcript[i].role
            &&& m.content.len() == transcript[i].content.len()
            &&& !last ==> m.content[j] == given
            &&& last ==> m.content[j] == (match given {
                Block::Text { text, .. } => Block::Text { text, cache_control: breakpoint },
                Block::ToolUse { id, name, input, .. } => Block::ToolUse {
                    id,
                    name,
                    input,
                    cache_control: breakpoint,
                },
                Block::ToolResult { tool_use_id, content, is_error, .. } => Block::ToolResult {
                    tool_use_id,
                    content,
                    is_error,
                    cache_control: breakpoint,
                },
            })
        }),
{
}

/// A request opens with the system prompt, then the repository map where there is
/// one, each a system message of one block that ends in a long-lived breakpoint.
pub proof fn law_the_static_segments_come_first(
    system_prompt: Seq<char>,
    map: Seq<char>,
    transcript: Seq<Msg>,
)
    ensures
        ({
            let breakpoint = Some(CacheControl { kind: CacheControlKind::Extended });
            let with = assembled_messages(system_prompt, Some(map), transcript);
            let without = assembled_messages(system_prompt, None, transcript);
            &&& with.len() == without.len() + 1 == transcript.len() + 2
            &&& with[0] == without[0]
            &&& with[0].role == Role::System
            &&& with[0].content == seq![
                Block::Text { text: system_prompt, cache_control: breakpoint },
            ]
            &&& with[1].role == Role::System
            &&& with[1].content == seq![Block::Text { text: map, cache_control: breakpoint }]
            &&& with.skip(2) == without.skip(1)
        }),
{
    let with = assembled_messages(system_prompt, Some(map), transcript);
    let without = assembled_messages(system_prompt, None, transcript);
    let breakpoint = Some(CacheControl { kind: CacheControlKind::Extended });
    assert(with[0] == system_segment(system_prompt));
    assert(with[1] == system_segment(map));
    assert(with[0].content =~= seq![
        Block::Text { text: system_prompt, cache_control: breakpoint },
    ]);
    assert(with[1].content =~= seq![Block::Text { text: map, cache_control: breakpoint }]);
    assert(with.skip(2) =~= transcript_segment(transcript));
    assert(without.skip(1) =~= transcript_segment(transcript));
}

} // verus!
