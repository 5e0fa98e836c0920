//! Tools of outside servers: how they are named, shown and answered for.

use vstd::prelude::*;
use crate::config::McpServerConfig;
use crate::context::ToolSpec;
use crate::subagent::ToolError;
use crate::text::{self, begins_with, chars_of, decimal_of, is_alphanumeric, joined, text_eq};
use crate::tool_loop::{self, LoopEvent, LoopState, PermissionPayload, Phase, Setup};

verus! {

/// A tool as a server lists it. The schema is JSON text.
#[derive(Debug)]
pub struct McpToolDef {
    pub name: String,
    pub description: String,
    pub input_schema: String,
}

/// One piece of a server's answer.
#[derive(Debug)]
pub enum RawContentItem {
    Text(String),
    NonText,
}

/// A server's answer to a call.
#[derive(Debug)]
pub struct RawCallResult {
    pub content: Vec<RawContentItem>,
    pub is_error: bool,
}

/// Why a server could not be asked.
#[derive(Debug, PartialEq, Eq)]
pub enum McpClientError {
    Spawn(String),
    Initialize(String),
    Request(String),
}

impl McpClientError {
    /// The error in words.
    pub open spec fn message_spec(self) -> Seq<char> {
        match self {
            McpClientError::Spawn(m) => "failed to start MCP server: "@ + m@,
            McpClientError::Initialize(m) => "MCP initialize handshake failed: "@ + m@,
            McpClientError::Request(m) => "MCP request failed: "@ + m@,
        }
    }

    /// The error in words.
    pub fn message(&self) -> (r: String)
        ensures
            r@ == self.message_spec(),
    {
        match self {
            McpClientError::Spawn(m) => {
                let mut out = "failed to start MCP server: ".to_owned();
                out.append(m.as_str());
                out
            },
            McpClientError::Initialize(m) => {
                let mut out = "MCP initialize handshake failed: ".to_owned();
                out.append(m.as_str());
                out
            },
            McpClientError::Request(m) => {
                let mut out = "MCP request failed: ".to_owned();
                out.append(m.as_str());
                out
            },
        }
    }
}

// ---------------------------------------------------------------------------
// Names
// ---------------------------------------------------------------------------

/// Whether a character may stand in a tool's name.
pub open spec fn name_char(c: char) -> bool {
    text::alphanumeric(c) || c == '_' || c == '-'
}

/// Whether a character may stand in a tool's name.
fn is_name_char(c: char) -> (r: bool)
    ensures
        r == name_char(c),
{
    is_alphanumeric(c) || c == '_' || c == '-'
}

/// A name with an underscore for each character that may not stand in it.
pub open spec fn clean(name: Seq<char>) -> Seq<char> {
    name.map_values(
        |c: char|
            if name_char(c) {
                c
            } else {
                '_'
            },
    )
}

/// A name with an underscore for each character that may not stand in it.
fn sanitize(name: &str) -> (r: String)
    ensures
        r@ == clean(name@),
{
    let v = chars_of(name);
    let mut out = String::new();
    let mut i: usize = 0;
    while i < v.len()
        invariant
            i <= v.len(),
            v@ == name@,
            out@ == clean(name@).take(i as int),
        decreases v.len() - i,
    {
        let c = v[i];
        if is_name_char(c) {
            out.push(c);
        } else {
            out.push('_');
        }
        i += 1;
        assert(out@ =~= clean(name@).take(i as int));
    }
    assert(clean(name@).take(v@.len() as int) =~= clean(name@));
    out
}

/// Whether the first character of `s` is written as its code: one that may not
/// stand in a name is, and so is an underscore that a hyphen follows, since
/// that pair begins a code.
pub open spec fn coded(s: Seq<char>) -> bool {
    !name_char(s[0]) || (s[0] == '_' && s.len() > 1 && s[1] == '-')
}

/// A character as its code: the number between `_-` and a hyphen.
pub open spec fn code(c: char) -> Seq<char> {
    seq!['_', '-'] + text::decimal(c as nat) + seq!['-']
}

/// A character as its code.
fn code_of(c: char) -> (r: String)
    ensures
        r@ == code(c),
{
    let mut out = String::new();
    out.push('_');
    out.push('-');
    out.append(decimal_of(c as u32 as u128).as_str());
    out.push('-');
    assert(out@ =~= code(c));
    out
}

/// A server's name as it stands in the names of its tools: in characters that
/// may stand there, and in no two names of servers the same.
pub open spec fn server_label(server: Seq<char>) -> Seq<char>
    decreases server.len(),
{
    if server.len() == 0 {
        server
    } else if coded(server) {
        code(server[0]) + server_label(server.skip(1))
    } else {
        seq![server[0]] + server_label(server.skip(1))
    }
}

/// A server's name as it stands in the names of its tools.
fn label_server(server: &str) -> (r: String)
    ensures
        r@ == server_label(server@),
{
    let v = chars_of(server);
    let mut out = String::new();
    let mut i: usize = 0;
    assert(server@.skip(0) =~= server@);
    assert(out@ + server_label(server@) =~= server_label(server@));
    while i < v.len()
        invariant
            i <= v.len(),
            v@ == server@,
            out@ + server_label(v@.skip(i as int)) == server_label(server@),
        decreases v.len() - i,
    {
        let ghost rest = v@.skip(i as int);
        let ghost before = out@;
        assert(rest.skip(1) =~= v@.skip(i + 1));
        let c = v[i];
        if !is_name_char(c) || (c == '_' && i + 1 < v.len() && v[i + 1] == '-') {
            out.append(code_of(c).as_str());
        } else {
            out.push(c);
        }
        i += 1;
        assert(out@ + server_label(v@.skip(i as int)) =~= before + server_label(rest));
    }
    assert(v@.skip(i as int) =~= Seq::<char>::empty());
    assert(out@ + Seq::<char>::empty() =~= out@);
    out
}

/// The name under which a server's tool is offered.
pub open spec fn offered_name(server: Seq<char>, tool: Seq<char>) -> Seq<char> {
    "mcp__"@ + server_label(server) + "__"@ + clean(tool)
}

/// The name under which a server's tool is offered.
pub fn qualified_name(server: &str, tool: &str) -> (r: String)
    ensures
        r@ == offered_name(server@, tool@),
{
    let mut out = "mcp__".to_owned();
    out.append(label_server(server).as_str());
    out.append("__");
    out.append(sanitize(tool).as_str());
    out
}

/// How a label begins: with `_-` just where the name's first character is
/// written as its code.
proof fn lemma_label_head(s: Seq<char>)
    requires
        s.len() > 0,
    ensures
        server_label(s).len() > 0,
        server_label(s)[0] == (if coded(s) {
            '_'
        } else {
            s[0]
        }),
        coded(s) ==> server_label(s).len() > 1 && server_label(s)[1] == '-',
        !coded(s) && s[0] == '_' ==> server_label(s).len() == 1 || server_label(s)[1] != '-',
{
    reveal_with_fuel(server_label, 2);
    let t = s.skip(1);
    if !coded(s) && t.len() > 0 {
        assert(t[0] == s[1]);
        assert(server_label(t)[0] == (if coded(t) {
            '_'
        } else {
            t[0]
        }));
        assert(server_label(s)[1] == server_label(t)[0]);
    }
}

/// Two codes that are followed by something are told apart.
proof fn lemma_codes_differ(a: char, x: Seq<char>, b: char, y: Seq<char>)
    requires
        code(a) + x == code(b) + y,
    ensures
        a == b,
        x == y,
{
    let da = text::decimal(a as nat);
    let db = text::decimal(b as nat);
    let s = code(a) + x;
    let t = code(b) + y;
    text::lemma_decimal(a as nat);
    text::lemma_decimal(b as nat);
    if da.len() < db.len() {
        assert(s[(2 + da.len()) as int] == '-');
        assert(t[(2 + da.len()) as int] == db[da.len() as int]);
    } else if db.len() < da.len() {
        assert(t[(2 + db.len()) as int] == '-');
        assert(s[(2 + db.len()) as int] == da[db.len() as int]);
    }
    assert(da =~= s.subrange(2, (2 + da.len()) as int));
    assert(db =~= t.subrange(2, (2 + db.len()) as int));
    assert(x =~= s.skip((3 + da.len()) as int));
    assert(y =~= t.skip((3 + db.len()) as int));
}

/// No two servers have the same label.
pub proof fn law_labels_differ(server: Seq<char>, other: Seq<char>)
    requires
        server_label(server) == server_label(other),
    ensures
        server == other,
    decreases server.len(),
{
    if server.len() == 0 || other.len() == 0 {
        if server.len() > 0 {
            lemma_label_head(server);
        }
        if other.len() > 0 {
            lemma_label_head(other);
        }
        assert(server =~= other);
    } else {
        lemma_label_head(server);
        lemma_label_head(other);
        let x = server_label(server.skip(1));
        let y = server_label(other.skip(1));
        if coded(server) {
            lemma_codes_differ(server[0], x, other[0], y);
        } else {
            assert(x =~= server_label(server).skip(1));
            assert(y =~= server_label(other).skip(1));
        }
        law_labels_differ(server.skip(1), other.skip(1));
        assert(server =~= seq![server[0]] + server.skip(1));
        assert(other =~= seq![other[0]] + other.skip(1));
    }
}

/// Two servers may offer tools of one name without colliding: the tools are
/// offered under different names.
pub proof fn law_servers_do_not_collide(server: Seq<char>, other: Seq<char>, tool: Seq<char>)
    ensures
        server != other ==> offered_name(server, tool) != offered_name(other, tool),
{
    let a = offered_name(server, tool);
    let b = offered_name(other, tool);
    let la = server_label(server);
    let lb = server_label(other);
    if a == b {
        let p = "mcp__"@.len();
        assert(la.len() == a.len() - p - "__"@.len() - clean(tool).len());
        assert(la =~= a.subrange(p as int, (p + la.len()) as int));
        assert(lb =~= b.subrange(p as int, (p + lb.len()) as int));
        law_labels_differ(server, other);
    }
}

/// A server's name made of letters, digits, underscores and hyphens, in which
/// no hyphen follows an underscore, is its own label.
pub proof fn law_plain_servers_are_kept(server: Seq<char>)
    requires
        forall|i: int| 0 <= i < server.len() ==> name_char(#[trigger] server[i]),
        forall|i: int| 0 < i < server.len() && #[trigger] server[i] == '-' ==> server[i - 1] != '_',
    ensures
        server_label(server) == server,
    decreases server.len(),
{
    if server.len() > 0 {
        let t = server.skip(1);
        assert forall|i: int| 0 <= i < t.len() implies name_char(#[trigger] t[i]) by {
            assert(t[i] == server[i + 1]);
        }
        assert forall|i: int| 0 < i < t.len() && #[trigger] t[i] == '-' implies t[i - 1] != '_' by {
            assert(t[i] == server[i + 1]);
        }
        law_plain_servers_are_kept(t);
        assert(name_char(server[0]));
        assert(server.len() > 1 ==> server[1] != '-' || server[0] != '_');
        assert(server =~= seq![server[0]] + t);
    }
}

/// A tool's name made of letters, digits, underscores and hyphens is offered as
/// it is.
pub proof fn law_plain_names_are_kept(name: Seq<char>)
    requires
        forall|i: int| 0 <= i < name.len() ==> name_char(#[trigger] name[i]),
    ensures
        clean(name) == name,
{
    assert(clean(name) =~= name);
}

/// Every character of a label may stand in a tool's name.
pub proof fn law_labels_are_names(server: Seq<char>)
    ensures
        forall|i: int| 0 <= i < server_label(server).len() ==> name_char(
            #[trigger] server_label(server)[i],
        ),
    decreases server.len(),
{
    if server.len() > 0 {
        let t = server_label(server.skip(1));
        law_labels_are_names(server.skip(1));
        let d = text::decimal(server[0] as nat);
        text::lemma_decimal(server[0] as nat);
        let label = server_label(server);
        assert forall|i: int| 0 <= i < label.len() implies name_char(#[trigger] label[i]) by {
            if coded(server) {
                if 2 <= i < 2 + d.len() {
                    assert(label[i] == d[i - 2]);
                } else if i >= 3 + d.len() {
                    assert(label[i] == t[i - 3 - d.len()]);
                }
            } else if i > 0 {
                assert(label[i] == t[i - 1]);
            }
        }
    }
}

// ---------------------------------------------------------------------------
// Calls
// ---------------------------------------------------------------------------

/// The arguments that a call sends, as JSON text.
pub open spec fn arguments_of(input: Seq<char>) -> Option<Seq<char>> {
    if text::starts_with(input, "{"@) {
        Some(input)
    } else if input == "null"@ {
        None
    } else {
        Some("{\"value\":"@ + input + "}"@)
    }
}

/// The arguments that a call sends, as JSON text: an object as it is, nothing
/// for null, and any other value as the one field of an object. `input` is a
/// JSON value without white space around it.
pub fn call_arguments(input: &str) -> (r: Option<String>)
    ensures
        text::opt_text(r) == arguments_of(input@),
        text::opt_text(r) == (if text::starts_with(input@, "{"@) {
            Some(input@)
        } else if input@ == "null"@ {
            None
        } else {
            Some("{\"value\":"@ + input@ + "}"@)
        }),
{
    if begins_with(input, "{") {
        return Some(input.to_owned());
    }
    if text_eq(input, "null") {
        return None;
    }
    let mut out = "{\"value\":".to_owned();
    out.append(input);
    out.append("}");
    Some(out)
}

/// What stands for one piece of an answer.
pub open spec fn item_text(item: RawContentItem) -> Seq<char> {
    match item {
        RawContentItem::Text(t) => t@,
        RawContentItem::NonText => "[non-text content omitted]"@,
    }
}

/// The pieces of an answer as one text, each on its own line.
pub open spec fn flattened(content: Seq<RawContentItem>) -> Seq<char> {
    text::join(content.map_values(|i: RawContentItem| item_text(i)), "\n"@)
}

/// The pieces of an answer as one text.
pub fn flatten_content(content: &Vec<RawContentItem>) -> (r: String)
    ensures
        r@ == flattened(content@),
{
    let mut parts: Vec<String> = Vec::new();
    let mut i: usize = 0;
    while i < content.len()
        invariant
            i <= content.len(),
            parts@.len() == i,
            forall|k: int| 0 <= k < i ==> (#[trigger] parts@[k])@ == item_text(content@[k]),
        decreases content.len() - i,
    {
        match &content[i] {
            RawContentItem::Text(t) => {
                parts.push(t.clone());
            },
            RawContentItem::NonText => {
                parts.push("[non-text content omitted]".to_owned());
            },
        }
        i += 1;
    }
    assert(text::texts(parts@) =~= content@.map_values(|i: RawContentItem| item_text(i)));
    joined(&parts, "\n")
}

/// A server's tool as the agent sees it.
#[derive(Debug)]
pub struct McpTool {
    pub server: String,
    pub tool_name: String,
    pub qualified_name: String,
    pub description: String,
    pub input_schema: String,
    /// Whether the tool runs unasked.
    pub auto_approved: bool,
}

/// What the user is shown before a call.
pub open spec fn call_text(server: Seq<char>, tool: Seq<char>, input: Seq<char>) -> Seq<char> {
    "MCP tool call: "@ + server + "::"@ + tool + " "@ + input
}

/// What the agent is told of a call, and whether as an error.
pub open spec fn told(outcome: Result<RawCallResult, McpClientError>) -> (Seq<char>, bool) {
    match outcome {
        Ok(result) => (flattened(result.content@), result.is_error),
        Err(e) => (e.message_spec(), true),
    }
}

impl McpTool {
    /// Whether the offered name is the one of the server and the tool.
    pub open spec fn wf(self) -> bool {
        self.qualified_name@ == offered_name(self.server@, self.tool_name@)
    }

    /// The tool that a server lists. Every call of it needs permission.
    pub fn new(server: &str, def: McpToolDef) -> (r: McpTool)
        ensures
            r.wf(),
            r.server@ == server@,
            r.tool_name == def.name,
            r.description == def.description,
            r.input_schema == def.input_schema,
            !r.auto_approved,
    {
        McpTool {
            server: server.to_owned(),
            qualified_name: qualified_name(server, def.name.as_str()),
            tool_name: def.name,
            description: def.description,
            input_schema: def.input_schema,
            auto_approved: false,
        }
    }

    /// The tool that a server lists, as the user has configured the server: a
    /// tool on its list of approved ones runs unasked.
    pub fn configured(server: &str, def: McpToolDef, config: &McpServerConfig) -> (r: McpTool)
        ensures
            r.wf(),
            r.server@ == server@,
            r.tool_name == def.name,
            r.description == def.description,
            r.input_schema == def.input_schema,
            r.auto_approved == config.approves(def.name@),
    {
        let auto_approved = config.auto_approves(def.name.as_str());
        let mut tool = McpTool::new(server, def);
        tool.auto_approved = auto_approved;
        tool
    }

    /// The name under which the tool is offered.
    pub fn name(&self) -> (r: &str)
        ensures
            r@ == self.qualified_name@,
    {
        self.qualified_name.as_str()
    }

    /// The tool as it is advertised.
    pub fn to_tool_spec(&self) -> (r: ToolSpec)
        ensures
            r.name@ == self.qualified_name@,
            r.description@ == self.description@,
            r.input_schema@ == self.input_schema@,
            r.cache_control is None,
    {
        ToolSpec {
            name: self.qualified_name.clone(),
            description: self.description.clone(),
            input_schema: self.input_schema.clone(),
            cache_control: None,
        }
    }

    /// What the user is shown before a call; nothing for a tool that runs
    /// unasked.
    pub fn preview(&self, input: &str) -> (r: Option<PermissionPayload>)
        ensures
            r is None == self.auto_approved,
            r is Some ==> r->0.command_spec() == Some(
                call_text(self.server@, self.tool_name@, input@),
            ),
            if self.auto_approved {
                r is None
            } else {
                r matches Some(PermissionPayload::Command(t)) && t@ == "MCP tool call: "@
                    + self.server@ + "::"@ + self.tool_name@ + " "@ + input@
            },
    {
        if self.auto_approved {
            return None;
        }
        let mut out = "MCP tool call: ".to_owned();
        out.append(self.server.as_str());
        out.append("::");
        out.append(self.tool_name.as_str());
        out.append(" ");
        out.append(input);
        Some(PermissionPayload::Command(out))
    }

    /// What the agent is told of a call: the server's text, as an error where
    /// the server says so or could not be asked.
    pub fn result_of(&self, outcome: &Result<RawCallResult, McpClientError>) -> (r: Result<
        String,
        ToolError,
    >)
        ensures
            match r {
                Ok(t) => told(*outcome) == (t@, false),
                Err(ToolError::ExecutionFailed(m)) => told(*outcome) == (m@, true),
                Err(ToolError::InvalidInput(_)) => false,
            },
            match *outcome {
                Ok(result) => if result.is_error {
                    r matches Err(ToolError::ExecutionFailed(m)) && m@ == flattened(result.content@)
                } else {
                    r matches Ok(t) && t@ == flattened(result.content@)
                },
                Err(e) => r matches Err(ToolError::ExecutionFailed(m)) && m@ == e.message_spec(),
            },
    {
        match outcome {
            Ok(result) => {
                let flat = flatten_content(&result.content);
                if result.is_error {
                    Err(ToolError::ExecutionFailed(flat))
                } else {
                    Ok(flat)
                }
            },
            Err(e) => Err(ToolError::ExecutionFailed(e.message())),
        }
    }
}

/// A tool that the user has approved in advance skips the prompt: its call goes
/// straight from the preview, of which there is none, to the execution, and the
/// user is not asked. `tool` is its place among the session's tools.
pub proof fn law_approved_tools_run_unasked(
    config: McpServerConfig,
    mcp_tool: McpTool,
    preview: Option<PermissionPayload>,
    s: LoopState,
    tool: usize,
    setup: Setup,
)
    requires
        mcp_tool.auto_approved == config.approves(mcp_tool.tool_name@),
        config.approves(mcp_tool.tool_name@),
        mcp_tool.auto_approved ==> preview is None,
        s.phase == Phase::Previewing(tool),
        !setup.concurrent.contains(s.current().name),
    ensures
        ({
            let event = LoopEvent::Preview(
                match preview {
                    None => None::<Result<PermissionPayload, Seq<char>>>,
                    Some(p) => Some(Ok(p)),
                },
            );
            &&& tool_loop::expected(s, event)
            &&& tool_loop::step(s, event, setup) == s.enter(Phase::Executing(tool))
        }),
{
}

/// A tool's name keeps its length and every letter, digit, underscore and hyphen;
/// each other character becomes one underscore.
pub proof fn law_names_are_cleaned_character_by_character(name: Seq<char>, i: int)
    requires
        0 <= i < name.len(),
    ensures
        clean(name).len() == name.len(),
        text::alphanumeric(name[i]) || name[i] == '_' || name[i] == '-' ==> clean(name)[i]
            == name[i],
        !text::alphanumeric(name[i]) && name[i] != '_' && name[i] != '-' ==> clean(name)[i] == '_',
{
}

/// In a server's label each character stands in its place, as itself if it may
/// stand in a name and begins no code, and else as its number between `_-` and a
/// hyphen.
pub proof fn law_labels_are_written_character_by_character(c: char, rest: Seq<char>)
    ensures
        ({
            let plain = (text::alphanumeric(c) || c == '_' || c == '-') && !(c == '_' && rest.len()
                > 0 && rest[0] == '-');
            &&& plain ==> server_label(seq![c] + rest) == seq![c] + server_label(rest)
            &&& !plain ==> server_label(seq![c] + rest) == seq!['_', '-'] + text::decimal(c as nat)
                + seq!['-'] + server_label(rest)
        }),
        server_label(Seq::empty()) == Seq::<char>::empty(),
{
    let s = seq![c] + rest;
    assert(s.skip(1) =~= rest);
    if rest.len() > 0 {
        assert(s[1] == rest[0]);
    }
}

/// A tool is offered under the prefix, its server's label and its own name, in
/// that order and with two underscores between them.
pub proof fn law_offered_names_say_server_and_tool(server: Seq<char>, tool: Seq<char>)
    ensures
        offered_name(server, tool) == "mcp__"@ + server_label(server) + "__"@ + clean(tool),
        text::starts_with(offered_name(server, tool), "mcp__"@),
{
    assert(offered_name(server, tool).subrange(0, "mcp__"@.len() as int) =~= "mcp__"@);
}

/// Every piece of an answer is passed on, in its order and on a line of its own: a
/// text as it is, anything else as a note that it was left out.
pub proof fn law_every_piece_of_an_answer_is_passed_on(
    a: Seq<RawContentItem>,
    b: Seq<RawContentItem>,
    item: RawContentItem,
)
    ensures
        a.len() > 0 && b.len() > 0 ==> flattened(a + b) == flattened(a) + "\n"@ + flattened(b),
        item matches RawContentItem::Text(t) ==> flattened(seq![item]) == t@,
        item is NonText ==> flattened(seq![item]) == "[non-text content omitted]"@,
        flattened(Seq::empty()) == Seq::<char>::empty(),
{
    let f = |i: RawContentItem| item_text(i);
    assert((a + b).map_values(f) =~= a.map_values(f) + b.map_values(f));
    if a.len() > 0 && b.len() > 0 {
        text::law_joining_parts(a.map_values(f), b.map_values(f), "\n"@);
    }
    let one = seq![item].map_values(f);
    assert(one =~= seq![item_text(item)]);
    assert(Seq::<RawContentItem>::empty().map_values(f) =~= Seq::<Seq<char>>::empty());
}

/// Every error is told with its cause, whole.
pub proof fn law_errors_tell_their_cause(cause: String)
    ensures
        McpClientError::Spawn(cause).message_spec() == "failed to start MCP server: "@ + cause@,
        McpClientError::Initialize(cause).message_spec() == "MCP initialize handshake failed: "@
            + cause@,
        McpClientError::Request(cause).message_spec() == "MCP request failed: "@ + cause@,
{
}

/// An object is sent as it is and null as nothing; any other value goes whole into
/// the one field of an object.
pub proof fn law_arguments_are_sent_whole(input: Seq<char>, rest: Seq<char>)
    ensures
        arguments_of(seq!['{'] + rest) == Some(seq!['{'] + rest),
        arguments_of("null"@) is None,
        input.len() > 0 && input[0] != '{' && input != "null"@ ==> arguments_of(input) == Some(
            "{\"value\":"@ + input + "}"@,
        ),
{
    reveal_strlit("{");
    reveal_strlit("null");
    let s = seq!['{'] + rest;
    assert(s.subrange(0, 1) =~= "{"@);
    if text::starts_with("null"@, "{"@) {
        assert("null"@.subrange(0, 1)[0] == 'n');
    }
    if input.len() > 0 && text::starts_with(input, "{"@) {
        assert(input.subrange(0, 1)[0] == input[0]);
    }
}

/// Before a call the user is shown the server, the tool and, at the end, the whole
/// of its input.
pub proof fn law_calls_are_shown_whole(
    server: Seq<char>,
    tool: Seq<char>,
    input: Seq<char>,
    more: Seq<char>,
)
    ensures
        call_text(server, tool, input + more) == call_text(server, tool, input) + more,
        call_text(server, tool, Seq::empty()) == "MCP tool call: "@ + server + "::"@ + tool + " "@,
{
    assert(call_text(server, tool, input + more) =~= call_text(server, tool, input) + more);
    assert(call_text(server, tool, Seq::empty()) =~= "MCP tool call: "@ + server + "::"@ + tool
        + " "@);
}

/// The agent is told all of an answer, as an error exactly if the server calls it
/// one; a server that cannot be asked is an error too.
pub proof fn law_the_agent_is_told_the_whole_answer(result: RawCallResult, error: McpClientError)
    ensures
        told(Ok(result)) == (flattened(result.content@), result.is_error),
        told(Err(error)) == (error.message_spec(), true),
{
}

} // verus!
