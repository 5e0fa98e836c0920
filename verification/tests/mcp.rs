use rokr::config::{HttpTransportConfig, McpServerConfig, McpTransport};
use rokr::mcp::{
    call_arguments, flatten_content, qualified_name, McpClientError, McpTool, McpToolDef,
    RawCallResult, RawContentItem,
};
use rokr::subagent::ToolError;
use rokr::text_map::TextMap;
use rokr::tool_loop::PermissionPayload;

fn echo(server: &str) -> McpTool {
    McpTool::new(
        server,
        McpToolDef {
            name: "echo".to_string(),
            description: "d".to_string(),
            input_schema: "{}".to_string(),
        },
    )
}

#[test]
fn mcp_tool_flattens_text_content_and_maps_is_error() {
    let tool = echo("srv");

    let result = tool.result_of(&Ok(RawCallResult {
        content: vec![
            RawContentItem::Text("first part".to_string()),
            RawContentItem::NonText,
            RawContentItem::Text("second part".to_string()),
        ],
        is_error: true,
    }));

    match result {
        Err(ToolError::ExecutionFailed(text)) => {
            assert!(text.contains("first part"), "got: {text}");
            assert!(text.contains("second part"), "got: {text}");
            assert!(
                text.contains("non-text"),
                "expected a placeholder note for the non-text item, got: {text}"
            );
            assert_eq!(text, "first part\n[non-text content omitted]\nsecond part");
        }
        other => panic!("expected an error result (isError: true), got {other:?}"),
    }
}

#[test]
fn answers_and_failures_come_through() {
    let tool = echo("srv");
    assert_eq!(
        tool.result_of(&Ok(RawCallResult {
            content: vec![RawContentItem::Text("ok".to_string())],
            is_error: false,
        })),
        Ok("ok".to_string())
    );
    assert_eq!(
        tool.result_of(&Err(McpClientError::Request("gone".to_string()))),
        Err(ToolError::ExecutionFailed("MCP request failed: gone".to_string()))
    );
    assert_eq!(flatten_content(&Vec::new()), "");
    assert_eq!(
        McpClientError::Spawn("x".to_string()).message(),
        "failed to start MCP server: x"
    );
    assert_eq!(
        McpClientError::Initialize("x".to_string()).message(),
        "MCP initialize handshake failed: x"
    );
}

#[test]
fn tools_are_named_after_their_server() {
    assert_eq!(qualified_name("srv", "echo"), "mcp__srv__echo");
    assert_eq!(qualified_name("my_server-1", "a/b-c_d"), "mcp__my_server-1__a_b-c_d");
    assert_eq!(qualified_name("größe", "x€y"), "mcp__größe__x_y");
    assert_ne!(qualified_name("one", "echo"), qualified_name("two", "echo"));
}

#[test]
fn no_two_servers_offer_a_tool_under_one_name() {
    assert_eq!(qualified_name("a.b", "echo"), "mcp__a_-46-b__echo");
    assert_eq!(qualified_name("a b", "echo"), "mcp__a_-32-b__echo");
    assert_eq!(qualified_name("a_-46-b", "echo"), "mcp__a_-95--46-b__echo");
    assert_eq!(qualified_name("x€", "echo"), "mcp__x_-8364-__echo");
    assert_eq!(qualified_name("", "echo"), "mcp____echo");
    let servers = [
        "", "_", "-", "_-", "__", "a.b", "a b", "a_b", "a-b", "a/b", "a_-46-b", "a_-46-.",
        "a_-95--46-b", "a._-46-b", "a\u{1F600}b", "größe",
    ];
    for (i, a) in servers.iter().enumerate() {
        for (j, b) in servers.iter().enumerate() {
            assert_eq!(
                qualified_name(a, "echo") == qualified_name(b, "echo"),
                i == j,
                "{a:?} {b:?}"
            );
        }
    }
}

#[test]
fn a_tool_is_advertised_under_its_full_name() {
    let tool = echo("srv");
    assert_eq!(tool.name(), "mcp__srv__echo");
    let spec = tool.to_tool_spec();
    assert_eq!(spec.name, "mcp__srv__echo");
    assert_eq!(spec.description, "d");
    assert_eq!(spec.input_schema, "{}");
    assert_eq!(spec.cache_control, None);
    assert_eq!(
        tool.preview("{\"a\":1}"),
        Some(PermissionPayload::Command("MCP tool call: srv::echo {\"a\":1}".to_string()))
    );
}

#[test]
fn arguments_are_objects_or_nothing() {
    assert_eq!(call_arguments("{\"a\":1}"), Some("{\"a\":1}".to_string()));
    assert_eq!(call_arguments("{}"), Some("{}".to_string()));
    assert_eq!(call_arguments("null"), None);
    assert_eq!(call_arguments("[1,2]"), Some("{\"value\":[1,2]}".to_string()));
    assert_eq!(call_arguments("\"x\""), Some("{\"value\":\"x\"}".to_string()));
}

#[test]
fn approved_tools_show_no_prompt() {
    let config = |auto_approve: &[&str]| McpServerConfig {
        transport: McpTransport::Http(HttpTransportConfig {
            url: "https://r.example".to_string(),
            headers: TextMap::new(),
        }),
        enabled: true,
        auto_approve: auto_approve.iter().map(|name| name.to_string()).collect(),
    };
    let def = || McpToolDef {
        name: "echo".to_string(),
        description: "d".to_string(),
        input_schema: "{}".to_string(),
    };
    let approved = McpTool::configured("srv", def(), &config(&["other", "echo"]));
    assert_eq!(approved.preview("{}"), None);
    assert_eq!(approved.name(), "mcp__srv__echo");
    let asked = McpTool::configured("srv", def(), &config(&["mcp__srv__echo", "Echo"]));
    assert_eq!(
        asked.preview("{}"),
        Some(PermissionPayload::Command("MCP tool call: srv::echo {}".to_string()))
    );
    assert!(!config(&[]).auto_approves("echo"));
}
