use rokr::context::{AssembledContext, ToolSpec};
use rokr::message::{ContentBlock, Message, Role, Usage};
use rokr::tool_loop::{
    tool_calls, LoopAction, PermissionPayload, Phase, PreToolHookOutcome, ToolLoop,
};

fn spec(name: &str) -> ToolSpec {
    ToolSpec {
        name: name.to_string(),
        description: "a tool".to_string(),
        input_schema: "{\"type\":\"object\"}".to_string(),
        cache_control: None,
    }
}

fn call(id: &str, name: &str, input: &str) -> ContentBlock {
    ContentBlock::ToolUse {
        id: id.to_string(),
        name: name.to_string(),
        input: input.to_string(),
        cache_control: None,
    }
}

fn assistant(content: Vec<ContentBlock>) -> Message {
    Message { role: Role::Assistant, content }
}

fn new_loop(tools: Vec<ToolSpec>, hook: bool, prompt: &str) -> ToolLoop {
    ToolLoop::new(
        "you are a test agent".to_string(),
        None,
        tools,
        hook,
        vec![Message::user_text(prompt)],
    )
}

fn sent(action: LoopAction) -> AssembledContext {
    match action {
        LoopAction::Send(request) => request,
        _ => panic!("expected a request to send"),
    }
}

#[test]
fn loop_executes_tool_call_and_returns_final_reply() {
    let mut turn = new_loop(vec![spec("read")], false, "read the file");

    let first = turn.request();
    assert_eq!(first.messages.len(), 2);
    assert_eq!(first.messages[0].role, Role::System);
    assert_eq!(first.messages[1].role, Role::User);

    let reply = assistant(vec![call("call_1", "read", "{\"path\":\"/tmp/whatever.txt\"}")]);
    assert!(matches!(turn.on_reply(reply, Usage::default()), LoopAction::Continue));
    match turn.proceed() {
        LoopAction::Preview { tool, input } => {
            assert_eq!(tool, 0);
            assert_eq!(input, "{\"path\":\"/tmp/whatever.txt\"}");
        }
        _ => panic!("expected the tool to be asked for a preview"),
    }
    assert!(matches!(turn.on_preview(None), LoopAction::Execute { tool: 0, .. }));
    assert!(matches!(
        turn.on_execution(Ok("contents of /tmp/whatever.txt".to_string())),
        LoopAction::Continue
    ));

    let second = sent(turn.proceed());
    assert_eq!(second.messages.len(), 4);
    assert_eq!(second.messages[0].role, Role::System);
    assert_eq!(second.messages[1].role, Role::User);
    assert_eq!(second.messages[2].role, Role::Assistant);
    assert_eq!(second.messages[3].role, Role::User);
    match &second.messages[3].content[..] {
        [ContentBlock::ToolResult { tool_use_id, content, is_error, .. }] => {
            assert_eq!(tool_use_id, "call_1");
            assert!(content.contains("/tmp/whatever.txt"));
            assert!(!is_error);
        }
        other => panic!("expected a single ToolResult block, got {other:?}"),
    }

    match turn.on_reply(Message::assistant_text("final answer"), Usage::default()) {
        LoopAction::Finished(result, _) => {
            assert_eq!(result.role, Role::Assistant);
            assert_eq!(result.text(), "final answer");
            assert_eq!(turn.transcript.last(), Some(&result));
        }
        _ => panic!("expected the final reply"),
    }
    assert_eq!(turn.phase, Phase::Done);
}

#[test]
fn loop_skips_execution_when_permission_rejected() {
    let mut turn = new_loop(vec![spec("fake_gated")], false, "run the command");
    turn.on_reply(assistant(vec![call("call_1", "fake_gated", "{}")]), Usage::default());
    assert!(matches!(turn.proceed(), LoopAction::Preview { .. }));
    match turn.on_preview(Some(Ok(PermissionPayload::Command("fake command".to_string())))) {
        LoopAction::AskPermission(request) => {
            assert_eq!(request.tool_name, "fake_gated");
            assert_eq!(request.payload, PermissionPayload::Command("fake command".to_string()));
        }
        _ => panic!("expected the user to be asked"),
    }
    assert!(
        matches!(turn.on_permission(false), LoopAction::Continue),
        "tool must not execute when permission is rejected"
    );

    let request = sent(turn.proceed());
    match &request.messages[3].content[..] {
        [ContentBlock::ToolResult { tool_use_id, content, is_error, .. }] => {
            assert_eq!(tool_use_id, "call_1");
            assert!(*is_error, "a rejected tool call should be reflected as an error result");
            assert!(
                content.to_lowercase().contains("denied")
                    || content.to_lowercase().contains("reject"),
                "result content should reflect the rejection, got: {content}"
            );
        }
        other => panic!("expected a single ToolResult block, got {other:?}"),
    }
    match turn
        .on_reply(Message::assistant_text("final answer after rejection"), Usage::default())
    {
        LoopAction::Finished(result, _) => {
            assert_eq!(result.text(), "final answer after rejection")
        }
        _ => panic!("expected the final reply"),
    }
}

#[test]
fn loop_skips_permission_prompt_and_execution_when_pretooluse_hook_denies() {
    let mut turn = new_loop(vec![spec("fake_gated")], true, "run the command");
    turn.on_reply(assistant(vec![call("call_1", "fake_gated", "{}")]), Usage::default());
    match turn.proceed() {
        LoopAction::RunHook(request) => {
            assert_eq!(request.tool_name, "fake_gated");
            assert_eq!(request.tool_input, "{}");
        }
        _ => panic!("expected the hooks to be run first"),
    }
    assert!(
        matches!(
            turn.on_hook(PreToolHookOutcome::Deny("vetoed by hook".to_string())),
            LoopAction::Continue
        ),
        "neither the permission prompt nor the tool may be reached for a vetoed call"
    );

    let request = sent(turn.proceed());
    match &request.messages[3].content[..] {
        [ContentBlock::ToolResult { tool_use_id, content, is_error, .. }] => {
            assert_eq!(tool_use_id, "call_1");
            assert!(*is_error);
            assert_eq!(content, "vetoed by hook");
        }
        other => panic!("expected a single ToolResult block, got {other:?}"),
    }
    match turn.on_reply(Message::assistant_text("final answer after hook veto"), Usage::default()) {
        LoopAction::Finished(result, _) => {
            assert_eq!(result.text(), "final answer after hook veto")
        }
        _ => panic!("expected the final reply"),
    }
}

#[test]
fn permission_payload_tool_call_variant_carries_server_tool_and_pretty_input() {
    let payload = PermissionPayload::ToolCall {
        server: "interim".to_string(),
        tool: "echo".to_string(),
        input_pretty: "{\n  \"message\": \"hi\"\n}".to_string(),
    };

    match payload {
        PermissionPayload::ToolCall { server, tool, input_pretty } => {
            assert_eq!(server, "interim");
            assert_eq!(tool, "echo");
            assert_eq!(input_pretty, "{\n  \"message\": \"hi\"\n}");
        }
        other => panic!("expected PermissionPayload::ToolCall, got {other:?}"),
    }
}

#[test]
fn several_calls_are_answered_one_for_one_in_order() {
    let mut turn = new_loop(vec![spec("read"), spec("ls")], false, "look around");
    let reply = assistant(vec![
        ContentBlock::Text { text: "looking".to_string(), cache_control: None },
        call("a", "ls", "{}"),
        call("b", "no_such_tool", "{}"),
        call("c", "read", "{}"),
        call("d", "read", "{}"),
    ]);
    assert_eq!(tool_calls(&reply).len(), 4);
    turn.on_reply(reply, Usage::default());

    assert!(matches!(turn.proceed(), LoopAction::Preview { tool: 1, .. }));
    turn.on_preview(None);
    turn.on_execution(Ok("files".to_string()));
    assert!(matches!(turn.proceed(), LoopAction::Continue), "an unknown tool needs nothing outside");
    assert!(matches!(turn.proceed(), LoopAction::Preview { tool: 0, .. }));
    assert!(matches!(turn.on_preview(Some(Err("bad input".to_string()))), LoopAction::Continue));
    assert!(matches!(turn.proceed(), LoopAction::Preview { tool: 0, .. }));
    turn.on_preview(Some(Ok(PermissionPayload::Command("c".to_string()))));
    assert!(matches!(turn.on_permission(true), LoopAction::Execute { tool: 0, .. }));
    turn.on_execution(Err("broken".to_string()));

    let request = sent(turn.proceed());
    let answers = request.messages.last().unwrap();
    assert_eq!(answers.role, Role::User);
    let seen: Vec<(String, String, bool)> = answers
        .content
        .iter()
        .map(|b| match b {
            ContentBlock::ToolResult { tool_use_id, content, is_error, .. } => {
                (tool_use_id.clone(), content.clone(), *is_error)
            }
            other => panic!("expected a ToolResult block, got {other:?}"),
        })
        .collect();
    assert_eq!(
        seen,
        vec![
            ("a".to_string(), "files".to_string(), false),
            ("b".to_string(), "unknown tool: no_such_tool".to_string(), true),
            ("c".to_string(), "bad input".to_string(), true),
            ("d".to_string(), "broken".to_string(), true),
        ]
    );
    assert_eq!(turn.transcript.len(), 3, "the transcript never holds the system prompt");
}
