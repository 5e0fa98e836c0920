//! Context compaction: when a conversation should be shortened, what the
//! summarizer is asked, and what replaces the earlier turns.

use vstd::prelude::*;
use crate::message::{self, copy_messages_from, Block, ContentBlock, Message, Msg, Role, Usage};
use crate::text::{self, byte_len_of, without_prefix};

verus! {

/// What the summarizer is told.
pub const COMPACTION_PROMPT: &'static str = "You are compacting a long-running coding agent's conversation history to free up context window space. Summarize the conversation transcript below into a single, dense passage that preserves everything a continuing agent still needs:
- the current task and overall goal
- decisions already made, and why
- files touched or modified so far
- the present state of the work (what's done, what's in progress)
- open follow-ups or TODOs
- any recent tool results still needed for future steps

Do not restate these instructions or add pleasantries. Output only the summary text.";

/// What stands before a summary in the transcript, so that a reader can tell
/// it from a real turn.
pub const COMPACTION_SUMMARY_WRAPPER_PREFIX: &'static str = "[Earlier conversation summary — compacted to save context]\n\n";

/// What came of a compaction.
#[derive(Debug, PartialEq, Eq)]
pub enum CompactionOutcome {
    /// The replacement for the transcript.
    Compacted(Vec<Message>),
    /// There was no earlier turn to fold into a summary.
    NothingToCompact,
}

/// A rough size of the conversation, for the compaction threshold.
#[derive(Debug, Clone, Copy, PartialEq, Eq, Structural)]
pub enum TokenEstimate {
    /// Input and output tokens that a provider reported.
    Reported(u128),
    /// Bytes of text, of which four make about one token.
    Bytes(u128),
}

/// A prompt that a user typed: a user message with at least one text block.
/// Messages that carry tool results back have none.
pub open spec fn is_prompt(m: Msg) -> bool {
    m.role == Role::User && exists|i: int|
        0 <= i < m.content.len() && (#[trigger] m.content[i] is Text)
}

/// Where the part that compaction must never touch begins: at the last
/// prompt, or at the start where there is none.
pub open spec fn tail_start(ms: Seq<Msg>) -> nat
    decreases ms.len(),
{
    if ms.len() == 0 {
        0
    } else if is_prompt(ms.last()) {
        (ms.len() - 1) as nat
    } else {
        tail_start(ms.drop_last())
    }
}

/// The tail begins inside the transcript, at a prompt, and holds no other.
pub proof fn lemma_tail_start(ms: Seq<Msg>)
    ensures
        tail_start(ms) <= ms.len(),
        tail_start(ms) > 0 ==> tail_start(ms) < ms.len() && is_prompt(ms[tail_start(ms) as int]),
        forall|i: int| tail_start(ms) < i < ms.len() ==> !is_prompt(#[trigger] ms[i]),
    decreases ms.len(),
{
    if ms.len() > 0 && !is_prompt(ms.last()) {
        lemma_tail_start(ms.drop_last());
        assert forall|i: int| tail_start(ms) < i < ms.len() implies !is_prompt(#[trigger] ms[i]) by {
            if i < ms.len() - 1 {
                assert(ms[i] == ms.drop_last()[i]);
            }
        }
    }
}

/// A role's name.
pub open spec fn role_name(role: Role) -> Seq<char> {
    match role {
        Role::System => "System"@,
        Role::User => "User"@,
        Role::Assistant => "Assistant"@,
    }
}

/// One block as a line of the text that is summarized.
pub open spec fn rendered_block(role: Role, b: Block) -> Seq<char> {
    match b {
        Block::Text { text, .. } => "["@ + role_name(role) + "] "@ + text + "\n"@,
        Block::ToolUse { name, input, .. } => "["@ + role_name(role) + " tool_use "@ + name + "] "@
            + input + "\n"@,
        Block::ToolResult { content, is_error, .. } => if is_error {
            "["@ + role_name(role) + " tool_result error] "@ + content + "\n"@
        } else {
            "["@ + role_name(role) + " tool_result] "@ + content + "\n"@
        },
    }
}

/// Some blocks of one role, one after the other.
pub open spec fn rendered_blocks(role: Role, content: Seq<Block>) -> Seq<char>
    decreases content.len(),
{
    if content.len() == 0 {
        Seq::empty()
    } else {
        rendered_blocks(role, content.drop_last()) + rendered_block(role, content.last())
    }
}

/// Messages as the plain text that is summarized.
pub open spec fn rendered(ms: Seq<Msg>) -> Seq<char>
    decreases ms.len(),
{
    if ms.len() == 0 {
        Seq::empty()
    } else {
        rendered(ms.drop_last()) + rendered_blocks(ms.last().role, ms.last().content)
    }
}

/// What is asked of the summarizer about the turns before the tail.
pub open spec fn summary_request(ms: Seq<Msg>) -> Seq<Msg> {
    seq![
        message::text_msg(Role::System, COMPACTION_PROMPT@),
        message::text_msg(Role::User, rendered(ms.take(tail_start(ms) as int))),
    ]
}

/// The transcript with the turns before the tail replaced by a summary.
pub open spec fn compacted(ms: Seq<Msg>, summary: Seq<char>) -> Seq<Msg> {
    seq![
        message::text_msg(Role::User, COMPACTION_SUMMARY_WRAPPER_PREFIX@ + summary),
    ] + ms.skip(tail_start(ms) as int)
}

/// How many bytes of text a block holds.
pub open spec fn block_bytes(b: Block) -> nat {
    match b {
        Block::Text { text, .. } => text::byte_len(text),
        Block::ToolUse { input, .. } => text::byte_len(input),
        Block::ToolResult { content, .. } => text::byte_len(content),
    }
}

/// How many bytes of text some blocks hold.
pub open spec fn blocks_bytes(content: Seq<Block>) -> nat
    decreases content.len(),
{
    if content.len() == 0 {
        0
    } else {
        blocks_bytes(content.drop_last()) + block_bytes(content.last())
    }
}

/// How many bytes of text some messages hold.
pub open spec fn transcript_bytes(ms: Seq<Msg>) -> nat
    decreases ms.len(),
{
    if ms.len() == 0 {
        0
    } else {
        transcript_bytes(ms.drop_last()) + blocks_bytes(ms.last().content)
    }
}

/// The size that decides about compaction: the current call's figure, else
/// the last one that was reported, else the bytes of the transcript.
pub open spec fn estimate(usage: Usage, last_known: Option<Usage>, ms: Seq<Msg>) -> TokenEstimate {
    if usage.reported_spec() {
        TokenEstimate::Reported((usage.input_tokens + usage.output_tokens) as u128)
    } else if last_known is Some && last_known->0.reported_spec() {
        TokenEstimate::Reported(
            (last_known->0.input_tokens + last_known->0.output_tokens) as u128,
        )
    } else {
        TokenEstimate::Bytes(capped(transcript_bytes(ms)))
    }
}

/// A number, or the greatest that can be held.
pub open spec fn capped(n: nat) -> u128 {
    if n <= u128::MAX {
        n as u128
    } else {
        u128::MAX
    }
}

/// Whether a message is a prompt that a user typed.
fn is_user_prompt_message(message: &Message) -> (r: bool)
    ensures
        r == is_prompt(message@),
{
    if message.role != Role::User {
        return false;
    }
    let mut i: usize = 0;
    while i < message.content.len()
        invariant
            i <= message.content.len(),
            message.role == Role::User,
            forall|j: int| 0 <= j < i ==> !(#[trigger] message@.content[j] is Text),
        decreases message.content.len() - i,
    {
        assert(message@.content[i as int] == message.content@[i as int]@);
        match &message.content[i] {
            ContentBlock::Text { .. } => {
                assert(message@.content[i as int] is Text);
                return true;
            },
            _ => {},
        }
        i += 1;
    }
    false
}

/// Where the part that compaction must never touch begins.
pub fn tail_start_index(transcript: &Vec<Message>) -> (r: usize)
    ensures
        r == tail_start(message::msgs(transcript@)),
        r <= transcript.len(),
{
    let ghost ms = message::msgs(transcript@);
    let mut n: usize = transcript.len();
    assert(ms.take(n as int) =~= ms);
    while n > 0
        invariant
            n <= transcript.len(),
            ms == message::msgs(transcript@),
            tail_start(ms.take(n as int)) == tail_start(ms),
        decreases n,
    {
        assert(ms.take(n as int).last() == transcript@[n - 1]@);
        assert(ms.take(n as int).drop_last() =~= ms.take(n - 1));
        if is_user_prompt_message(&transcript[n - 1]) {
            return n - 1;
        }
        n -= 1;
    }
    0
}

/// A role's name.
fn role_label(role: Role) -> (r: String)
    ensures
        r@ == role_name(role),
{
    match role {
        Role::System => "System".to_owned(),
        Role::User => "User".to_owned(),
        Role::Assistant => "Assistant".to_owned(),
    }
}

/// One block as a line of the text that is summarized.
fn render_block(role: Role, block: &ContentBlock) -> (r: String)
    ensures
        r@ == rendered_block(role, block@),
{
    let mut line = "[".to_owned();
    line.append(role_label(role).as_str());
    match block {
        ContentBlock::Text { text, .. } => {
            line.append("] ");
            line.append(text.as_str());
        },
        ContentBlock::ToolUse { name, input, .. } => {
            line.append(" tool_use ");
            line.append(name.as_str());
            line.append("] ");
            line.append(input.as_str());
        },
        ContentBlock::ToolResult { content, is_error, .. } => {
            if *is_error {
                line.append(" tool_result error] ");
            } else {
                line.append(" tool_result] ");
            }
            line.append(content.as_str());
        },
    }
    line.append("\n");
    line
}

/// The messages `v[..n]` as the plain text that is summarized: each block on a
/// line of its own, behind its role and, for a tool, its name or error state.
pub fn render_transcript_for_summary(messages: &Vec<Message>, n: usize) -> (r: String)
    requires
        n <= messages.len(),
    ensures
        r@ == rendered(message::msgs(messages@).take(n as int)),
{
    let ghost ms = message::msgs(messages@);
    let mut out = String::new();
    let mut i: usize = 0;
    while i < n
        invariant
            i <= n <= messages.len(),
            ms == message::msgs(messages@),
            out@ == rendered(ms.take(i as int)),
        decreases n - i,
    {
        let role = messages[i].role;
        let ghost content = ms[i as int].content;
        let ghost before = out@;
        let mut j: usize = 0;
        assert(before + rendered_blocks(role, content.take(0)) =~= before);
        while j < messages[i].content.len()
            invariant
                i < messages.len(),
                j <= messages@[i as int].content.len(),
                ms == message::msgs(messages@),
                role == ms[i as int].role,
                content == ms[i as int].content,
                content == message::blocks(messages@[i as int].content@),
                out@ == before + rendered_blocks(role, content.take(j as int)),
            decreases messages@[i as int].content.len() - j,
        {
            let line = render_block(role, &messages[i].content[j]);
            out.append(line.as_str());
            j += 1;
            proof {
                let t = content.take(j as int);
                assert(t.drop_last() =~= content.take(j - 1));
                assert(t.last() == messages@[i as int].content@[j - 1]@);
                assert(out@ =~= before + rendered_blocks(role, t));
            }
        }
        proof {
            assert(content.take(content.len() as int) =~= content);
            assert(ms.take(i + 1).drop_last() =~= ms.take(i as int));
        }
        i += 1;
    }
    out
}

/// What to ask the summarizer, or nothing where no turn stands before the
/// tail.
pub fn compaction_request(transcript: &Vec<Message>) -> (r: Option<Vec<Message>>)
    ensures
        match r {
            Some(request) => tail_start(message::msgs(transcript@)) > 0 && message::msgs(request@)
                == summary_request(message::msgs(transcript@)),
            None => tail_start(message::msgs(transcript@)) == 0,
        },
{
    let split_at = tail_start_index(transcript);
    if split_at == 0 {
        return None;
    }
    let rendered_prefix = render_transcript_for_summary(transcript, split_at);
    let mut request: Vec<Message> = Vec::new();
    request.push(Message::system_text(COMPACTION_PROMPT));
    request.push(Message::user_text(rendered_prefix.as_str()));
    assert(message::msgs(request@) =~= summary_request(message::msgs(transcript@)));
    Some(request)
}

/// The transcript with everything before the last prompt replaced by the
/// summarizer's reply. The last turn is copied through unchanged.
pub fn compact_transcript(transcript: &Vec<Message>, reply: &Message) -> (r: CompactionOutcome)
    ensures
        match r {
            CompactionOutcome::Compacted(ms) => tail_start(message::msgs(transcript@)) > 0
                && message::msgs(ms@) == compacted(
                message::msgs(transcript@),
                message::text_of(reply@.content),
            ),
            CompactionOutcome::NothingToCompact => tail_start(message::msgs(transcript@)) == 0,
        },
{
    let split_at = tail_start_index(transcript);
    if split_at == 0 {
        return CompactionOutcome::NothingToCompact;
    }
    let mut summary = COMPACTION_SUMMARY_WRAPPER_PREFIX.to_owned();
    summary.append(reply.text().as_str());
    let first = Message::user_text(summary.as_str());
    let mut tail = copy_messages_from(transcript, split_at);
    let mut all: Vec<Message> = Vec::new();
    all.push(first);
    let ghost rest = tail@;
    all.append(&mut tail);
    proof {
        assert(all@ =~= seq![first] + rest);
        assert(message::msgs(all@) =~= seq![first@] + message::msgs(rest));
    }
    CompactionOutcome::Compacted(all)
}

/// The summary that a compacted transcript holds, without what was put before
/// it.
pub open spec fn raw_summary(ms: Seq<Msg>) -> Seq<char> {
    let wrapped = if ms.len() == 0 {
        Seq::empty()
    } else {
        message::text_of(ms[0].content)
    };
    match text::strip_prefix(wrapped, COMPACTION_SUMMARY_WRAPPER_PREFIX@) {
        Some(raw) => raw,
        None => wrapped,
    }
}

/// What a session log keeps of a compaction: the bare summary and the last
/// turn that it replaces. With fewer than two turns nothing is kept.
pub fn compaction_record(compacted: &Vec<Message>, raw_turn_count: usize) -> (r: Option<
    (String, usize),
>)
    ensures
        match r {
            Some((summary, through)) => raw_turn_count >= 2 && through == raw_turn_count - 2
                && summary@ == raw_summary(message::msgs(compacted@)),
            None => raw_turn_count < 2,
        },
{
    match raw_turn_count.checked_sub(2) {
        None => None,
        Some(replaced_through) => {
            let wrapped = if compacted.len() == 0 {
                String::new()
            } else {
                assert(message::msgs(compacted@)[0] == compacted@[0]@);
                compacted[0].text()
            };
            match without_prefix(wrapped.as_str(), COMPACTION_SUMMARY_WRAPPER_PREFIX) {
                Some(raw) => Some((raw, replaced_through)),
                None => Some((wrapped, replaced_through)),
            }
        },
    }
}

/// The size that decides about compaction. Cache tokens do not count: they do
/// not occupy the live context window.
pub fn token_estimate(
    usage: Usage,
    last_known_usage: Option<Usage>,
    transcript: &Vec<Message>,
) -> (r: TokenEstimate)
    ensures
        r == estimate(usage, last_known_usage, message::msgs(transcript@)),
{
    if usage.reported() {
        return TokenEstimate::Reported(usage.input_tokens as u128 + usage.output_tokens as u128);
    }
    match last_known_usage {
        Some(prior) => {
            if prior.reported() {
                return TokenEstimate::Reported(
                    prior.input_tokens as u128 + prior.output_tokens as u128,
                );
            }
        },
        None => {},
    }
    let ghost ms = message::msgs(transcript@);
    let mut total: u128 = 0;
    let mut i: usize = 0;
    while i < transcript.len()
        invariant
            i <= transcript.len(),
            ms == message::msgs(transcript@),
            total == capped(transcript_bytes(ms.take(i as int))),
        decreases transcript.len() - i,
    {
        let ghost content = ms[i as int].content;
        let ghost before = transcript_bytes(ms.take(i as int));
        proof {
            assert(ms.take(i + 1).drop_last() =~= ms.take(i as int));
        }
        let mut j: usize = 0;
        while j < transcript[i].content.len()
            invariant
                i < transcript.len(),
                j <= transcript@[i as int].content.len(),
                content == message::blocks(transcript@[i as int].content@),
                total == capped(before + blocks_bytes(content.take(j as int))),
            decreases transcript@[i as int].content.len() - j,
        {
            proof {
                let t = content.take(j + 1);
                assert(t.drop_last() =~= content.take(j as int));
                assert(t.last() == transcript@[i as int].content@[j as int]@);
            }
            let size: u128 = match &transcript[i].content[j] {
                ContentBlock::Text { text, .. } => byte_len_of(text.as_str()),
                ContentBlock::ToolUse { input, .. } => byte_len_of(input.as_str()),
                ContentBlock::ToolResult { content, .. } => byte_len_of(content.as_str()),
            };
            total = total.saturating_add(size);
            j += 1;
        }
        proof {
            assert(content.take(content.len() as int) =~= content);
        }
        i += 1;
    }
    assert(ms.take(ms.len() as int) =~= ms);
    TokenEstimate::Bytes(total)
}

/// Compaction keeps the last turn: everything from the last prompt on stands
/// in the compacted transcript, unchanged and in order, behind one summary
/// message.
pub proof fn law_compaction_keeps_the_last_turn(ms: Seq<Msg>, summary: Seq<char>)
    requires
        tail_start(ms) > 0,
    ensures
        ({
            let c = compacted(ms, summary);
            let k = tail_start(ms) as int;
            &&& c.len() == 1 + (ms.len() - k)
            &&& c.skip(1) == ms.skip(k)
            &&& is_prompt(c[1])
            &&& forall|i: int| 1 < i < c.len() ==> !is_prompt(#[trigger] c[i])
        }),
{
    lemma_tail_start(ms);
    let c = compacted(ms, summary);
    let k = tail_start(ms) as int;
    assert(c.skip(1) =~= ms.skip(k));
    assert forall|i: int| 1 < i < c.len() implies !is_prompt(#[trigger] c[i]) by {
        assert(c[i] == ms[k + i - 1]);
    }
}

/// A summary is stored bare: what a log keeps of a compacted transcript is
/// exactly the text that the summarizer wrote.
pub proof fn law_stored_summary_is_the_written_one(ms: Seq<Msg>, summary: Seq<char>)
    ensures
        raw_summary(compacted(ms, summary)) == summary,
{
    let wrapped = COMPACTION_SUMMARY_WRAPPER_PREFIX@ + summary;
    let first = compacted(ms, summary)[0];
    assert(first == message::text_msg(Role::User, wrapped));
    let content = first.content;
    assert(content.drop_last() =~= Seq::empty());
    assert(message::text_of(content) =~= wrapped) by {
        reveal_with_fuel(message::text_of, 2);
    }
    let n = COMPACTION_SUMMARY_WRAPPER_PREFIX@;
    assert(wrapped.subrange(0, n.len() as int) =~= n);
    assert(text::occurs_at(wrapped, n, 0));
    assert(wrapped.skip(n.len() as int) =~= summary);
}

/// Cache tokens never count towards compaction.
pub proof fn law_cache_tokens_do_not_count(
    usage: Usage,
    other: Usage,
    last_known: Option<Usage>,
    ms: Seq<Msg>,
)
    requires
        usage.input_tokens == other.input_tokens,
        usage.output_tokens == other.output_tokens,
    ensures
        estimate(usage, last_known, ms) == estimate(other, last_known, ms),
{
}

/// Rendering loses nothing: two lists of blocks are rendered one after the other,
/// as are two lists of messages, and one message is rendered as its blocks.
pub proof fn law_rendering_adds_up(
    role: Role,
    a: Seq<Block>,
    b: Seq<Block>,
    x: Seq<Msg>,
    y: Seq<Msg>,
)
    ensures
        rendered_blocks(role, a + b) == rendered_blocks(role, a) + rendered_blocks(role, b),
        rendered(x + y) == rendered(x) + rendered(y),
        rendered(seq![Msg { role, content: a }]) == rendered_blocks(role, a),
        rendered_blocks(role, Seq::empty()) == Seq::<char>::empty(),
        rendered(Seq::empty()) == Seq::<char>::empty(),
    decreases b.len() + y.len(),
{
    if b.len() > 0 {
        let ab = a + b;
        assert(ab.drop_last() =~= a + b.drop_last());
        law_rendering_adds_up(role, a, b.drop_last(), x, y);
        assert(rendered_blocks(role, ab) =~= rendered_blocks(role, a) + rendered_blocks(role, b));
    } else if y.len() > 0 {
        assert(a + b =~= a);
        let xy = x + y;
        assert(xy.drop_last() =~= x + y.drop_last());
        law_rendering_adds_up(role, a, b, x, y.drop_last());
        assert(rendered(xy) =~= rendered(x) + rendered(y));
    } else {
        assert(a + b =~= a);
        assert(x + y =~= x);
        assert(rendered_blocks(role, a) + Seq::<char>::empty() =~= rendered_blocks(role, a));
        assert(rendered(x) + Seq::<char>::empty() =~= rendered(x));
    }
    if b.len() > 0 && y.len() == 0 {
        assert(x + y =~= x);
    }
    let one = seq![Msg { role, content: a }];
    assert(one.drop_last() =~= Seq::<Msg>::empty());
    assert(rendered(one.drop_last()) =~= Seq::<char>::empty());
    assert(rendered(one) =~= rendered_blocks(role, a));
}

/// Each block is a line of its own that says who speaks, what kind of block it
/// is, and all that it holds.
pub proof fn law_lines_say_who_and_what(
    text: Seq<char>,
    id: Seq<char>,
    name: Seq<char>,
    hint: Option<message::CacheControl>,
)
    ensures
        rendered_blocks(Role::User, seq![Block::Text { text, cache_control: hint }])
            == "[User] "@ + text + "\n"@,
        rendered_blocks(Role::Assistant, seq![Block::Text { text, cache_control: hint }])
            == "[Assistant] "@ + text + "\n"@,
        rendered_blocks(Role::System, seq![Block::Text { text, cache_control: hint }])
            == "[System] "@ + text + "\n"@,
        rendered_blocks(
            Role::Assistant,
            seq![Block::ToolUse { id, name, input: text, cache_control: hint }],
        ) == "[Assistant tool_use "@ + name + "] "@ + text + "\n"@,
        rendered_blocks(
            Role::User,
            seq![
                Block::ToolResult {
                    tool_use_id: id,
                    content: text,
                    is_error: false,
                    cache_control: hint,
                },
            ],
        ) == "[User tool_result] "@ + text + "\n"@,
        rendered_blocks(
            Role::User,
            seq![
                Block::ToolResult {
                    tool_use_id: id,
                    content: text,
                    is_error: true,
                    cache_control: hint,
                },
            ],
        ) == "[User tool_result error] "@ + text + "\n"@,
{
    reveal_strlit("[");
    reveal_strlit("] ");
    reveal_strlit("User");
    reveal_strlit("Assistant");
    reveal_strlit("System");
    reveal_strlit(" tool_use ");
    reveal_strlit(" tool_result] ");
    reveal_strlit(" tool_result error] ");
    reveal_strlit("[User] ");
    reveal_strlit("[Assistant] ");
    reveal_strlit("[System] ");
    reveal_strlit("[Assistant tool_use ");
    reveal_strlit("[User tool_result] ");
    reveal_strlit("[User tool_result error] ");
    assert forall|role: Role, b: Block| #[trigger]
        rendered_blocks(role, seq![b]) == rendered_block(role, b) by {
        assert(seq![b].drop_last() =~= Seq::<Block>::empty());
        assert(rendered_blocks(role, Seq::<Block>::empty()) =~= Seq::<char>::empty());
        assert(rendered_blocks(role, seq![b]) =~= rendered_block(role, b));
    }
    let t = Block::Text { text, cache_control: hint };
    assert(rendered_block(Role::User, t) =~= "[User] "@ + text + "\n"@);
    assert(rendered_block(Role::Assistant, t) =~= "[Assistant] "@ + text + "\n"@);
    assert(rendered_block(Role::System, t) =~= "[System] "@ + text + "\n"@);
    let u = Block::ToolUse { id, name, input: text, cache_control: hint };
    assert(rendered_block(Role::Assistant, u) =~= "[Assistant tool_use "@ + name + "] "@ + text
        + "\n"@);
    let ok = Block::ToolResult {
        tool_use_id: id,
        content: text,
        is_error: false,
        cache_control: hint,
    };
    assert(rendered_block(Role::User, ok) =~= "[User tool_result] "@ + text + "\n"@);
    let bad = Block::ToolResult {
        tool_use_id: id,
        content: text,
        is_error: true,
        cache_control: hint,
    };
    assert(rendered_block(Role::User, bad) =~= "[User tool_result error] "@ + text + "\n"@);
}

/// The summarizer is asked about every block before the tail: the second of the
/// two messages that go out holds the line of each of them, with the lines of all
/// that stands before it before it, and those of all that follows behind it.
pub proof fn law_the_summarizer_sees_every_block(ms: Seq<Msg>, i: int, j: int)
    requires
        0 <= i < tail_start(ms),
        i < ms.len(),
        0 <= j < ms[i].content.len(),
    ensures
        ({
            let request = summary_request(ms);
            let role = ms[i].role;
            let before = rendered(ms.take(i)) + rendered_blocks(role, ms[i].content.take(j));
            let line = rendered_blocks(role, seq![ms[i].content[j]]);
            let behind = rendered_blocks(role, ms[i].content.skip(j + 1)) + rendered(
                ms.subrange(i + 1, tail_start(ms) as int),
            );
            &&& request.len() == 2
            &&& request[0].role == Role::System
            &&& request[0].content == seq![
                Block::Text { text: COMPACTION_PROMPT@, cache_control: None },
            ]
            &&& request[1].role == Role::User
            &&& request[1].content == seq![
                Block::Text { text: before + line + behind, cache_control: None },
            ]
        }),
{
    lemma_tail_start(ms);
    let k = tail_start(ms) as int;
    let head = ms.take(k);
    let m = ms[i];
    let role = m.role;
    let c = m.content;
    let none = Seq::<Block>::empty();
    let no = Seq::<Msg>::empty();
    let rest = ms.subrange(i + 1, k);
    assert(head =~= ms.take(i) + (seq![m] + rest));
    law_rendering_adds_up(role, none, none, ms.take(i), seq![m] + rest);
    law_rendering_adds_up(role, c, none, seq![m], rest);
    assert(m == Msg { role, content: c });
    let one = seq![c[j]];
    assert(c =~= c.take(j) + (one + c.skip(j + 1)));
    law_rendering_adds_up(role, c.take(j), one + c.skip(j + 1), no, no);
    law_rendering_adds_up(role, one, c.skip(j + 1), no, no);
    let before = rendered(ms.take(i)) + rendered_blocks(role, c.take(j));
    let line = rendered_blocks(role, one);
    let behind = rendered_blocks(role, c.skip(j + 1)) + rendered(rest);
    assert(rendered(head) =~= before + line + behind);
}

/// The tail begins at the last message that a user typed, one of role user with a
/// text block; where there is none behind the first message, nothing stands
/// before it.
pub proof fn law_the_tail_begins_at_the_last_prompt(ms: Seq<Msg>, k: int)
    requires
        0 <= k < ms.len(),
        ms[k].role == Role::User,
        exists|j: int| 0 <= j < ms[k].content.len() && (#[trigger] ms[k].content[j] is Text),
        forall|i: int|
            k < i < ms.len() ==> (#[trigger] ms[i]).role != Role::User || forall|j: int|
                0 <= j < ms[i].content.len() ==> !(#[trigger] ms[i].content[j] is Text),
    ensures
        tail_start(ms) == k,
{
    lemma_tail_start(ms);
    let t = tail_start(ms) as int;
    assert(is_prompt(ms[k]));
    if t > k {
        assert(is_prompt(ms[t]));
    }
}

/// Where nobody typed anything, or only in the first message, there is nothing to
/// compact.
pub proof fn law_without_an_earlier_turn_nothing_is_compacted(ms: Seq<Msg>)
    requires
        forall|i: int|
            0 < i < ms.len() ==> (#[trigger] ms[i]).role != Role::User || forall|j: int|
                0 <= j < ms[i].content.len() ==> !(#[trigger] ms[i].content[j] is Text),
    ensures
        tail_start(ms) == 0,
{
    lemma_tail_start(ms);
    let t = tail_start(ms) as int;
    if t > 0 {
        assert(is_prompt(ms[t]));
    }
}

/// A compacted conversation is one message of the user's that ends in the summary,
/// behind the words that mark it, and then the last turn, message for message.
pub proof fn law_a_compacted_conversation_is_summary_and_tail(ms: Seq<Msg>, summary: Seq<char>)
    ensures
        ({
            let c = compacted(ms, summary);
            &&& c.len() == 1 + ms.len() - tail_start(ms)
            &&& c[0].role == Role::User
            &&& c[0].content == seq![
                Block::Text {
                    text: COMPACTION_SUMMARY_WRAPPER_PREFIX@ + summary,
                    cache_control: None,
                },
            ]
            &&& forall|i: int|
                tail_start(ms) <= i < ms.len() ==> c[1 + i - tail_start(ms)] == #[trigger] ms[i]
        }),
{
    lemma_tail_start(ms);
    let c = compacted(ms, summary);
    assert forall|i: int| tail_start(ms) <= i < ms.len() implies c[1 + i - tail_start(ms)]
        == #[trigger] ms[i] by {
        assert(ms.skip(tail_start(ms) as int)[i - tail_start(ms)] == ms[i]);
    }
}

/// The size of a conversation is what was reported for its last call, else what
/// was reported last, and counts input and output alike.
pub proof fn law_reported_tokens_decide(usage: Usage, known: Usage, ms: Seq<Msg>)
    ensures
        usage.input_tokens + usage.output_tokens > 0 ==> forall|k: Option<Usage>|
            #[trigger] estimate(usage, k, ms) == TokenEstimate::Reported(
                (usage.input_tokens + usage.output_tokens) as u128,
            ),
        usage.input_tokens + usage.output_tokens == 0 && known.input_tokens + known.output_tokens
            > 0 ==> estimate(usage, Some(known), ms) == TokenEstimate::Reported(
            (known.input_tokens + known.output_tokens) as u128,
        ),
        usage.input_tokens + usage.output_tokens == 0 ==> estimate(usage, None, ms) is Bytes,
        usage.input_tokens + usage.output_tokens == 0 && known.input_tokens + known.output_tokens
            == 0 ==> estimate(usage, Some(known), ms) is Bytes,
{
}

/// Without any report the size is that of all text: of every block of every
/// message, be it words, a tool's input or its result.
pub proof fn law_all_text_counts(
    usage: Usage,
    x: Seq<Msg>,
    m: Msg,
    b: Block,
)
    requires
        usage.input_tokens == 0,
        usage.output_tokens == 0,
    ensures
        ({
            let bytes = match b {
                Block::Text { text, .. } => text::byte_len(text),
                Block::ToolUse { input, .. } => text::byte_len(input),
                Block::ToolResult { content, .. } => text::byte_len(content),
            };
            let longer = Msg { role: m.role, content: m.content.push(b) };
            &&& transcript_bytes(x.push(longer)) == transcript_bytes(x.push(m)) + bytes
            &&& transcript_bytes(x.push(Msg { role: m.role, content: Seq::empty() }))
                == transcript_bytes(x)
            &&& transcript_bytes(Seq::empty()) == 0
            &&& transcript_bytes(x) <= u128::MAX ==> estimate(usage, None, x)
                == TokenEstimate::Bytes(transcript_bytes(x) as u128)
        }),
{
    let longer = Msg { role: m.role, content: m.content.push(b) };
    let empty = Msg { role: m.role, content: Seq::empty() };
    assert(x.push(longer).drop_last() =~= x);
    assert(x.push(m).drop_last() =~= x);
    assert(x.push(empty).drop_last() =~= x);
    assert(longer.content.drop_last() =~= m.content);
}

/// Whoever speaks, a block's line begins with the speaker in brackets, holds all of
/// the block's text, and ends the line.
pub proof fn law_lines_go_by_the_speaker(role: Role, b: Block)
    ensures
        ({
            let line = rendered_blocks(role, seq![b]);
            let who = match role {
                Role::System => "System"@,
                Role::User => "User"@,
                Role::Assistant => "Assistant"@,
            };
            let kind = match b {
                Block::Text { .. } => "] "@,
                Block::ToolUse { name, .. } => " tool_use "@ + name + "] "@,
                Block::ToolResult { is_error, .. } => if is_error {
                    " tool_result error] "@
                } else {
                    " tool_result] "@
                },
            };
            let said = match b {
                Block::Text { text, .. } => text,
                Block::ToolUse { input, .. } => input,
                Block::ToolResult { content, .. } => content,
            };
            line == seq!['['] + who + kind + said + seq!['\n']
        }),
{
    reveal_strlit("[");
    reveal_strlit("\n");
    assert("["@ =~= seq!['[']);
    assert("\n"@ =~= seq!['\n']);
    assert(seq![b].drop_last() =~= Seq::<Block>::empty());
    assert(rendered_blocks(role, Seq::<Block>::empty()) =~= Seq::<char>::empty());
    assert(rendered_blocks(role, seq![b]) =~= rendered_block(role, b));
    let who = role_name(role);
    match b {
        Block::Text { text, .. } => {
            assert(rendered_block(role, b) =~= seq!['['] + who + "] "@ + text + seq!['\n']);
        },
        Block::ToolUse { name, input, .. } => {
            assert(rendered_block(role, b) =~= seq!['['] + who + (" tool_use "@ + name + "] "@)
                + input + seq!['\n']);
        },
        Block::ToolResult { content, is_error, .. } => {},
    }
}

} // verus!
