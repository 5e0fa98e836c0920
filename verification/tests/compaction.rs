use rokr::compaction::{
    compact_transcript, compaction_record, compaction_request, render_transcript_for_summary,
    tail_start_index, token_estimate, CompactionOutcome, TokenEstimate, COMPACTION_PROMPT,
    COMPACTION_SUMMARY_WRAPPER_PREFIX,
};
use rokr::message::{ContentBlock, Message, Role, Usage};

fn two_turns() -> Vec<Message> {
    vec![
        Message::user_text("first turn user text"),
        Message::assistant_text("first turn assistant text"),
        Message::user_text("second turn user text"),
        Message {
            role: Role::Assistant,
            content: vec![ContentBlock::ToolUse {
                id: "call_1".to_string(),
                name: "read".to_string(),
                input: "{\"path\":\"/tmp/whatever.txt\"}".to_string(),
                cache_control: None,
            }],
        },
        Message {
            role: Role::User,
            content: vec![ContentBlock::ToolResult {
                tool_use_id: "call_1".to_string(),
                content: "tool result content".to_string(),
                is_error: false,
                cache_control: None,
            }],
        },
        Message::assistant_text("second turn final reply"),
    ]
}

#[test]
fn compact_transcript_preserves_prefix_and_recent_turn_replaces_middle_with_summary() {
    let transcript = two_turns();
    let summary_text = "CompactionSummaryTokenForTesting";

    let request = compaction_request(&transcript).expect("there is an earlier turn to summarize");
    let compacted =
        match compact_transcript(&transcript, &Message::assistant_text(summary_text)) {
            CompactionOutcome::Compacted(compacted) => compacted,
            CompactionOutcome::NothingToCompact => {
                panic!("expected an actual compaction, got NothingToCompact")
            }
        };

    assert_eq!(
        compacted.len(),
        5,
        "expected summary message + the 4 tail messages, got: {compacted:?}"
    );
    let summary_message = &compacted[0];
    assert!(
        summary_message.text().contains(summary_text),
        "summary message should contain the scripted summary text, got: {summary_message:?}"
    );
    assert!(
        !summary_message.text().contains("first turn"),
        "summary message must not contain the first turn's raw text, got: {summary_message:?}"
    );
    assert_eq!(compacted[1..], transcript[2..]);

    let asked = request.iter().map(|m| m.text()).collect::<Vec<_>>().join("\n");
    assert!(
        asked.contains("first turn"),
        "summarization call should include the first turn's content, got: {asked}"
    );
    assert!(
        !asked.contains("second turn"),
        "summarization call must not include the second (most-recent) turn's content, got: {asked}"
    );
}

#[test]
fn compact_transcript_reports_nothing_to_compact_when_no_earlier_turn_exists() {
    let transcript = vec![Message::user_text("the only turn so far")];

    assert!(
        compaction_request(&transcript).is_none(),
        "no summarization call should be made when there's nothing to compact"
    );
    assert_eq!(
        compact_transcript(&transcript, &Message::assistant_text("summary")),
        CompactionOutcome::NothingToCompact
    );
}

#[test]
fn should_compact_reuses_prior_real_usage_when_current_turn_usage_unreported() {
    let context_window_size = 200_000;
    let auto_compact_threshold = 0.7;

    let prior_usage = Usage {
        input_tokens: 150_000,
        output_tokens: 5_000,
        cache_read_tokens: 0,
        cache_write_tokens: 0,
    };
    let unreported_usage = Usage::default();
    let transcript = vec![Message::user_text("hi")];

    let estimated = match token_estimate(unreported_usage, Some(prior_usage), &transcript) {
        TokenEstimate::Reported(tokens) => tokens as f64,
        TokenEstimate::Bytes(bytes) => bytes as f64 / 4.0,
    };
    assert!(
        estimated >= auto_compact_threshold * context_window_size as f64,
        "expected the prior real usage figure (above threshold) rather than the size of a small \
         transcript"
    );
}

#[test]
fn compaction_asks_with_its_own_prompt_and_a_plain_rendering() {
    let transcript = two_turns();
    let request = compaction_request(&transcript).unwrap();
    assert_eq!(request.len(), 2);
    assert_eq!(request[0], Message::system_text(COMPACTION_PROMPT));
    assert_eq!(
        request[1],
        Message::user_text(
            "[User] first turn user text\n[Assistant] first turn assistant text\n"
        )
    );
    assert_eq!(
        render_transcript_for_summary(&transcript, 6),
        "[User] first turn user text\n[Assistant] first turn assistant text\n\
         [User] second turn user text\n\
         [Assistant tool_use read] {\"path\":\"/tmp/whatever.txt\"}\n\
         [User tool_result] tool result content\n[Assistant] second turn final reply\n"
    );
    let failed = vec![Message {
        role: Role::User,
        content: vec![ContentBlock::ToolResult {
            tool_use_id: "x".to_string(),
            content: "oops".to_string(),
            is_error: true,
            cache_control: None,
        }],
    }];
    assert_eq!(render_transcript_for_summary(&failed, 1), "[User tool_result error] oops\n");
}

#[test]
fn the_tail_begins_at_the_last_prompt() {
    assert_eq!(tail_start_index(&two_turns()), 2);
    assert_eq!(tail_start_index(&vec![Message::assistant_text("a")]), 0);
    assert_eq!(tail_start_index(&Vec::new()), 0);
}

#[test]
fn the_log_keeps_the_bare_summary() {
    let compacted = match compact_transcript(&two_turns(), &Message::assistant_text("short")) {
        CompactionOutcome::Compacted(m) => m,
        CompactionOutcome::NothingToCompact => panic!("expected a compaction"),
    };
    assert!(compacted[0].text().starts_with(COMPACTION_SUMMARY_WRAPPER_PREFIX));
    assert_eq!(compaction_record(&compacted, 5), Some(("short".to_string(), 3)));
    assert_eq!(compaction_record(&compacted, 2), Some(("short".to_string(), 0)));
    assert_eq!(compaction_record(&compacted, 1), None);
    assert_eq!(compaction_record(&compacted, 0), None);
}

#[test]
fn estimates_fall_back_from_call_to_session_to_bytes() {
    let reported = Usage {
        input_tokens: 10,
        output_tokens: 5,
        cache_read_tokens: 1_000,
        cache_write_tokens: 1_000,
    };
    let transcript = vec![Message::user_text("häh")];
    assert_eq!(
        token_estimate(reported, None, &transcript),
        TokenEstimate::Reported(15),
        "cached tokens do not count"
    );
    assert_eq!(
        token_estimate(Usage::default(), Some(Usage::default()), &transcript),
        TokenEstimate::Bytes(4)
    );
    assert_eq!(
        token_estimate(Usage::default(), None, &two_turns()),
        TokenEstimate::Bytes(20 + 25 + 21 + 28 + 19 + 23)
    );
}
