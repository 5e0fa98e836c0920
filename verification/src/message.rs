//! The provider-neutral message model: a message is a role and an ordered
//! list of content blocks.

use vstd::prelude::*;

verus! {

/// Who authored a message.
#[derive(Debug, Clone, Copy, PartialEq, Eq, Structural)]
pub enum Role {
    System,
    User,
    Assistant,
}

/// How long a cache breakpoint lives: `Ephemeral` is short, `Extended` long.
#[derive(Debug, Clone, Copy, PartialEq, Eq, Structural)]
pub enum CacheControlKind {
    Ephemeral,
    Extended,
}

/// A caching hint attached to a content block or a tool specification.
#[derive(Debug, Clone, Copy, PartialEq, Eq, Structural)]
pub struct CacheControl {
    pub kind: CacheControlKind,
}

/// One unit of content within a message. JSON values (a tool call's `input`)
/// are held as their compact text.
#[derive(Debug, PartialEq, Eq)]
pub enum ContentBlock {
    Text { text: String, cache_control: Option<CacheControl> },
    ToolUse { id: String, name: String, input: String, cache_control: Option<CacheControl> },
    ToolResult {
        tool_use_id: String,
        content: String,
        is_error: bool,
        cache_control: Option<CacheControl>,
    },
}

/// A role and its content blocks, in order.
#[derive(Debug, PartialEq, Eq)]
pub struct Message {
    pub role: Role,
    pub content: Vec<ContentBlock>,
}

/// What a content block says, as mathematical values.
pub enum Block {
    Text { text: Seq<char>, cache_control: Option<CacheControl> },
    ToolUse {
        id: Seq<char>,
        name: Seq<char>,
        input: Seq<char>,
        cache_control: Option<CacheControl>,
    },
    ToolResult {
        tool_use_id: Seq<char>,
        content: Seq<char>,
        is_error: bool,
        cache_control: Option<CacheControl>,
    },
}

/// What a message says, as mathematical values.
#[verifier::ext_equal]
pub struct Msg {
    pub role: Role,
    pub content: Seq<Block>,
}

impl View for ContentBlock {
    type V = Block;

    open spec fn view(&self) -> Block {
        match *self {
            ContentBlock::Text { text, cache_control } => Block::Text {
                text: text@,
                cache_control,
            },
            ContentBlock::ToolUse { id, name, input, cache_control } => Block::ToolUse {
                id: id@,
                name: name@,
                input: input@,
                cache_control,
            },
            ContentBlock::ToolResult { tool_use_id, content, is_error, cache_control } =>
            Block::ToolResult {
                tool_use_id: tool_use_id@,
                content: content@,
                is_error,
                cache_control,
            },
        }
    }
}

/// What a list of blocks says.
pub open spec fn blocks(v: Seq<ContentBlock>) -> Seq<Block> {
    v.map_values(|b: ContentBlock| b@)
}

impl View for Message {
    type V = Msg;

    open spec fn view(&self) -> Msg {
        Msg { role: self.role, content: blocks(self.content@) }
    }
}

/// What a list of messages says.
pub open spec fn msgs(v: Seq<Message>) -> Seq<Msg> {
    v.map_values(|m: Message| m@)
}

/// A message of one plain text block.
pub open spec fn text_msg(role: Role, text: Seq<char>) -> Msg {
    Msg { role, content: seq![Block::Text { text, cache_control: None }] }
}

/// The text of the text blocks, in order; other blocks contribute nothing.
pub open spec fn text_of(content: Seq<Block>) -> Seq<char>
    decreases content.len(),
{
    if content.len() == 0 {
        Seq::empty()
    } else {
        text_of(content.drop_last()) + match content.last() {
            Block::Text { text, .. } => text,
            _ => Seq::empty(),
        }
    }
}

impl Clone for ContentBlock {
    fn clone(&self) -> (r: Self)
        ensures
            r == *self,
    {
        match self {
            ContentBlock::Text { text, cache_control } => ContentBlock::Text {
                text: text.clone(),
                cache_control: *cache_control,
            },
            ContentBlock::ToolUse { id, name, input, cache_control } => ContentBlock::ToolUse {
                id: id.clone(),
                name: name.clone(),
                input: input.clone(),
                cache_control: *cache_control,
            },
            ContentBlock::ToolResult { tool_use_id, content, is_error, cache_control } =>
            ContentBlock::ToolResult {
                tool_use_id: tool_use_id.clone(),
                content: content.clone(),
                is_error: *is_error,
                cache_control: *cache_control,
            },
        }
    }
}

impl Clone for Message {
    fn clone(&self) -> (r: Self)
        ensures
            r@ == self@,
    {
        let mut content: Vec<ContentBlock> = Vec::new();
        let mut i: usize = 0;
        while i < self.content.len()
            invariant
                i <= self.content.len(),
                content@ == self.content@.take(i as int),
            decreases self.content.len() - i,
        {
            content.push(self.content[i].clone());
            i += 1;
            assert(self.content@.take(i as int) =~= self.content@.take(i - 1).push(
                self.content@[i - 1],
            ));
        }
        assert(self.content@.take(self.content@.len() as int) =~= self.content@);
        Message { role: self.role, content }
    }
}

/// A copy of the messages `v[from..]`.
pub fn copy_messages_from(v: &Vec<Message>, from: usize) -> (r: Vec<Message>)
    requires
        from <= v.len(),
    ensures
        msgs(r@) == msgs(v@).skip(from as int),
{
    let mut r: Vec<Message> = Vec::new();
    let mut i: usize = from;
    while i < v.len()
        invariant
            from <= i <= v.len(),
            msgs(r@) == msgs(v@).subrange(from as int, i as int),
        decreases v.len() - i,
    {
        let m = v[i].clone();
        let ghost before = r@;
        r.push(m);
        i += 1;
        assert(msgs(r@) =~= msgs(before).push(m@));
        assert(msgs(v@).subrange(from as int, i as int) =~= msgs(v@).subrange(
            from as int,
            i - 1,
        ).push(msgs(v@)[i - 1]));
    }
    assert(msgs(v@).subrange(from as int, v@.len() as int) =~= msgs(v@).skip(from as int));
    r
}

/// A copy of a list of messages.
pub fn copy_messages(v: &Vec<Message>) -> (r: Vec<Message>)
    ensures
        msgs(r@) == msgs(v@),
{
    assert(msgs(v@).skip(0) =~= msgs(v@));
    copy_messages_from(v, 0)
}

impl Message {
    fn text_message(role: Role, text: &str) -> (r: Message)
        ensures
            r@ == text_msg(role, text@),
    {
        let mut content: Vec<ContentBlock> = Vec::new();
        content.push(ContentBlock::Text { text: text.to_owned(), cache_control: None });
        let r = Message { role, content };
        assert(r@.content =~= text_msg(role, text@).content);
        r
    }

    /// A system message of one text block.
    pub fn system_text(text: &str) -> (r: Message)
        ensures
            r@ == text_msg(Role::System, text@),
    {
        Self::text_message(Role::System, text)
    }

    /// A user message of one text block.
    pub fn user_text(text: &str) -> (r: Message)
        ensures
            r@ == text_msg(Role::User, text@),
    {
        Self::text_message(Role::User, text)
    }

    /// An assistant message of one text block.
    pub fn assistant_text(text: &str) -> (r: Message)
        ensures
            r@ == text_msg(Role::Assistant, text@),
    {
        Self::text_message(Role::Assistant, text)
    }

    /// All text blocks in order, run together.
    pub fn text(&self) -> (r: String)
        ensures
            r@ == text_of(self@.content),
    {
        let mut out = String::new();
        let mut i: usize = 0;
        while i < self.content.len()
            invariant
                i <= self.content.len(),
                out@ == text_of(self@.content.take(i as int)),
            decreases self.content.len() - i,
        {
            let ghost before = out@;
            match &self.content[i] {
                ContentBlock::Text { text, .. } => {
                    out.append(text.as_str());
                },
                _ => {},
            }
            i += 1;
            proof {
                let t = self@.content.take(i as int);
                assert(t.drop_last() =~= self@.content.take(i - 1));
                assert(t.last() == self.content@[i - 1]@);
                assert(before + Seq::<char>::empty() =~= before);
            }
        }
        assert(self@.content.take(self@.content.len() as int) =~= self@.content);
        out
    }
}

/// Tokens that one provider call reported; zero stands for "not reported".
#[derive(Debug, Clone, Copy, PartialEq, Eq, Structural)]
pub struct Usage {
    pub input_tokens: u64,
    pub output_tokens: u64,
    pub cache_read_tokens: u64,
    pub cache_write_tokens: u64,
}

impl Default for Usage {
    fn default() -> (r: Self)
        ensures
            r == (Usage {
                input_tokens: 0,
                output_tokens: 0,
                cache_read_tokens: 0,
                cache_write_tokens: 0,
            }),
    {
        Usage { input_tokens: 0, output_tokens: 0, cache_read_tokens: 0, cache_write_tokens: 0 }
    }
}

impl Usage {
    /// Whether the provider reported this call's input or output tokens.
    pub open spec fn reported_spec(self) -> bool {
        self.input_tokens != 0 || self.output_tokens != 0
    }

    /// Whether the provider reported this call's input or output tokens.
    pub fn reported(&self) -> (r: bool)
        ensures
            r == self.reported_spec(),
    {
        self.input_tokens != 0 || self.output_tokens != 0
    }
}

/// The text of a message is all its text blocks, run together in order: that of
/// two lists of blocks is the one and then the other, a text block gives its text,
/// and any other block nothing.
pub proof fn law_texts_run_together(a: Seq<Block>, b: Seq<Block>, one: Block)
    ensures
        text_of(a + b) == text_of(a) + text_of(b),
        text_of(seq![one]) == (match one {
            Block::Text { text, .. } => text,
            _ => Seq::<char>::empty(),
        }),
        text_of(Seq::<Block>::empty()) == Seq::<char>::empty(),
    decreases b.len(),
{
    if b.len() > 0 {
        assert((a + b).drop_last() =~= a + b.drop_last());
        law_texts_run_together(a, b.drop_last(), one);
        assert(text_of(a + b) =~= text_of(a) + text_of(b));
    } else {
        assert(a + b =~= a);
        assert(text_of(a) + Seq::<char>::empty() =~= text_of(a));
    }
    assert(seq![one].drop_last() =~= Seq::<Block>::empty());
    assert(text_of(Seq::<Block>::empty()) =~= Seq::<char>::empty());
    assert(text_of(seq![one]) =~= match one {
        Block::Text { text, .. } => text,
        _ => Seq::<char>::empty(),
    });
}

/// A message of plain text has one block, which holds that text and no hint.
pub proof fn law_plain_messages_hold_their_text(role: Role, text: Seq<char>)
    ensures
        text_msg(role, text).role == role,
        text_msg(role, text).content.len() == 1,
        text_msg(role, text).content[0] == (Block::Text { text, cache_control: None }),
{
}

/// A call reported something exactly if its input or its output has a figure.
pub proof fn law_any_figure_is_a_report(usage: Usage)
    ensures
        usage.input_tokens > 0 ==> usage.reported_spec(),
        usage.output_tokens > 0 ==> usage.reported_spec(),
        usage.input_tokens == 0 && usage.output_tokens == 0 ==> !usage.reported_spec(),
{
}

/// A conversation says what each of its messages says, in order, and a message
/// what each of its blocks holds, in order and whole.
pub proof fn law_messages_say_what_they_hold(ms: Seq<Message>, i: int, j: int)
    requires
        0 <= i < ms.len(),
        0 <= j < ms[i].content@.len(),
    ensures
        msgs(ms).len() == ms.len(),
        msgs(ms)[i].role == ms[i].role,
        msgs(ms)[i].content.len() == ms[i].content@.len(),
        ms[i].content@[j] matches ContentBlock::Text { text, cache_control } ==> msgs(ms)[i].content[j]
            == (Block::Text { text: text@, cache_control }),
        ms[i].content@[j] matches ContentBlock::ToolUse { id, name, input, cache_control } ==> msgs(
            ms,
        )[i].content[j] == (Block::ToolUse { id: id@, name: name@, input: input@, cache_control }),
        ms[i].content@[j] matches ContentBlock::ToolResult {
            tool_use_id,
            content,
            is_error,
            cache_control,
        } ==> msgs(ms)[i].content[j] == (Block::ToolResult {
            tool_use_id: tool_use_id@,
            content: content@,
            is_error,
            cache_control,
        }),
{
}

} // verus!
