use rokr::context::{assemble, ContextInputs, ToolSpec};
use rokr::message::{CacheControl, CacheControlKind, ContentBlock, Message, Role};

fn spec(name: &str, description: &str) -> ToolSpec {
    ToolSpec {
        name: name.to_string(),
        description: description.to_string(),
        input_schema: "{\"type\":\"object\"}".to_string(),
        cache_control: None,
    }
}

fn strip_cache_control(messages: Vec<Message>) -> Vec<Message> {
    messages
        .into_iter()
        .map(|message| Message {
            role: message.role,
            content: message
                .content
                .into_iter()
                .map(|block| match block {
                    ContentBlock::Text { text, .. } => {
                        ContentBlock::Text { text, cache_control: None }
                    }
                    ContentBlock::ToolUse { id, name, input, .. } => {
                        ContentBlock::ToolUse { id, name, input, cache_control: None }
                    }
                    ContentBlock::ToolResult { tool_use_id, content, is_error, .. } => {
                        ContentBlock::ToolResult {
                            tool_use_id,
                            content,
                            is_error,
                            cache_control: None,
                        }
                    }
                })
                .collect(),
        })
        .collect()
}

#[test]
fn assemble_produces_identical_output_to_prior_hand_rolled_construction_modulo_cache_control() {
    let system_prompt = "You are a helpful build agent.".to_string();
    let tools = vec![spec("read", "reads a file")];
    let transcript = vec![Message::user_text("hello"), Message::assistant_text("hi there")];

    let mut hand_rolled = vec![Message::system_text(&system_prompt)];
    hand_rolled.extend(transcript.iter().map(|m| m.clone()));

    let assembled = assemble(ContextInputs { system_prompt, tools, repo_map: None, transcript });

    assert_eq!(strip_cache_control(assembled.messages), strip_cache_control(hand_rolled));
    assert_eq!(assembled.tools.len(), 1);
    assert_eq!(assembled.tools[0].name, "read");
    assert_eq!(assembled.tools[0].description, "reads a file");
    assert_eq!(assembled.tools[0].input_schema, "{\"type\":\"object\"}");
}

#[test]
fn assemble_places_breakpoints_after_tools_and_static_system_segment() {
    let assembled = assemble(ContextInputs {
        system_prompt: "You are a helpful build agent.".to_string(),
        tools: vec![spec("read", "reads a file"), spec("write", "writes a file")],
        repo_map: None,
        transcript: vec![Message::user_text("hello"), Message::assistant_text("hi there")],
    });

    assert_eq!(
        assembled.tools[0].cache_control, None,
        "only the last tool spec should get a breakpoint"
    );
    assert_eq!(
        assembled.tools[1].cache_control,
        Some(CacheControl { kind: CacheControlKind::Extended }),
        "the last tool spec should get an Extended breakpoint"
    );

    match &assembled.messages[0].content[..] {
        [ContentBlock::Text { cache_control, .. }] => {
            assert_eq!(
                cache_control,
                &Some(CacheControl { kind: CacheControlKind::Extended }),
                "the system segment should get an Extended breakpoint"
            );
        }
        other => panic!("expected a single Text block for the system message, got {other:?}"),
    }
    match &assembled.messages[1].content[..] {
        [ContentBlock::Text { cache_control, .. }] => {
            assert_eq!(
                cache_control, &None,
                "non-tail transcript messages must not get a breakpoint"
            );
        }
        other => panic!("expected a single Text block, got {other:?}"),
    }
    match assembled.messages.last().expect("assembled messages non-empty").content.last() {
        Some(ContentBlock::Text { cache_control, .. }) => {
            assert_eq!(
                cache_control,
                &Some(CacheControl { kind: CacheControlKind::Ephemeral }),
                "the transcript tail should get an Ephemeral breakpoint"
            );
        }
        other => panic!("expected a Text block, got {other:?}"),
    }
}

#[test]
fn a_repo_map_joins_the_system_segment() {
    let assembled = assemble(ContextInputs {
        system_prompt: "prompt".to_string(),
        tools: Vec::new(),
        repo_map: Some("src/lib.rs".to_string()),
        transcript: vec![Message::user_text("hello")],
    });
    let system: Vec<&Message> =
        assembled.messages.iter().filter(|m| m.role == Role::System).collect();
    assert!(!system.is_empty());
    assert!(system.iter().any(|m| m.text().contains("prompt")));
    assert!(system.iter().any(|m| m.text().contains("src/lib.rs")));
    assert_eq!(assembled.messages.last().unwrap().text(), "hello");
    assert!(assembled.tools.is_empty());
}
