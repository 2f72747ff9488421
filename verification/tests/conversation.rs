use claw_runtime::conversation::{
    build_assistant_message, is_stalled_reply, merge_hook_feedback, parse_max_stall_nudges,
    parse_positive_u32, resolve_auto_compaction_threshold, AssistantEvent, RuntimeError,
    ReplyStep, StaticToolExecutor, ToolError, TurnControl, DEFAULT_AUTO_COMPACTION_INPUT_TOKENS_THRESHOLD,
    DEFAULT_MAX_STALL_NUDGES,
};
use claw_runtime::session::{ContentBlock, MessageRole, TokenUsage};

#[test]
fn auto_compaction_threshold_defaults_and_parses_values() {
    assert_eq!(
        resolve_auto_compaction_threshold(None, None),
        DEFAULT_AUTO_COMPACTION_INPUT_TOKENS_THRESHOLD
    );
    assert_eq!(resolve_auto_compaction_threshold(Some("4321"), None), 4321);
    assert_eq!(
        resolve_auto_compaction_threshold(Some("0"), None),
        DEFAULT_AUTO_COMPACTION_INPUT_TOKENS_THRESHOLD
    );
    assert_eq!(
        resolve_auto_compaction_threshold(Some("not-a-number"), None),
        DEFAULT_AUTO_COMPACTION_INPUT_TOKENS_THRESHOLD
    );
}

#[test]
fn auto_compaction_threshold_derives_from_a_declared_context_window() {
    assert_eq!(resolve_auto_compaction_threshold(None, Some("65536")), 45875);
}

#[test]
fn an_explicit_threshold_still_wins_over_the_declared_window() {
    assert_eq!(
        resolve_auto_compaction_threshold(Some("48000"), Some("65536")),
        48000
    );
}

#[test]
fn an_unparseable_context_window_falls_back_to_the_default_threshold() {
    assert_eq!(
        resolve_auto_compaction_threshold(None, Some("plenty")),
        DEFAULT_AUTO_COMPACTION_INPUT_TOKENS_THRESHOLD
    );
}

#[test]
fn positive_u32_parsing_trims_and_rejects_zero() {
    assert_eq!(parse_positive_u32(Some(" 12 ")), Some(12));
    assert_eq!(parse_positive_u32(Some("0")), None);
    assert_eq!(parse_positive_u32(Some("-3")), None);
    assert_eq!(parse_positive_u32(Some("99999999999")), None);
    assert_eq!(parse_positive_u32(None), None);
}

#[test]
fn build_assistant_message_requires_message_stop_event() {
    let events = vec![AssistantEvent::TextDelta("hello".to_string())];
    let error = build_assistant_message(events)
        .err()
        .expect("assistant messages should require a stop event");
    assert!(error
        .to_string()
        .contains("assistant stream ended without a message stop event"));
}

#[test]
fn build_assistant_message_requires_content() {
    let events = vec![AssistantEvent::MessageStop];
    let error = build_assistant_message(events)
        .err()
        .expect("assistant messages should require content");
    assert!(error
        .to_string()
        .contains("assistant stream produced no content"));
}

#[test]
fn build_assistant_message_places_thinking_block_before_text_and_tool_use() {
    let events = vec![
        AssistantEvent::Thinking {
            thinking: "pondering".to_string(),
            signature: Some("sig".to_string()),
        },
        AssistantEvent::TextDelta("hello".to_string()),
        AssistantEvent::ToolUse {
            id: "tool-1".to_string(),
            name: "echo".to_string(),
            input: "payload".to_string(),
        },
        AssistantEvent::MessageStop,
    ];
    let (message, _, _) = build_assistant_message(events)
        .ok()
        .expect("assistant message should preserve thinking, text, and tool blocks");
    assert_eq!(
        message.blocks,
        vec![
            ContentBlock::Thinking {
                thinking: "pondering".to_string(),
                signature: Some("sig".to_string()),
            },
            ContentBlock::Text {
                text: "hello".to_string(),
            },
            ContentBlock::ToolUse {
                id: "tool-1".to_string(),
                name: "echo".to_string(),
                input: "payload".to_string(),
            },
        ]
    );
}

#[test]
fn build_assistant_message_joins_text_deltas_and_keeps_usage() {
    let usage = TokenUsage {
        input_tokens: 3,
        output_tokens: 4,
        cache_creation_input_tokens: 0,
        cache_read_input_tokens: 1,
    };
    let events = vec![
        AssistantEvent::TextDelta("hel".to_string()),
        AssistantEvent::TextDelta("lo".to_string()),
        AssistantEvent::Usage(usage),
        AssistantEvent::MessageStop,
    ];
    let (message, got_usage, caches) = build_assistant_message(events).ok().unwrap();
    assert_eq!(message.role, MessageRole::Assistant);
    assert_eq!(message.blocks, vec![ContentBlock::Text { text: "hello".to_string() }]);
    assert_eq!(got_usage, Some(usage));
    assert!(caches.is_empty());
}

#[test]
fn static_tool_executor_rejects_unknown_tools() {
    let mut executor = StaticToolExecutor::new();
    let error = executor
        .execute("missing", "{}")
        .err()
        .expect("unregistered tools should fail");
    assert_eq!(error.to_string(), "unknown tool: missing");
}

#[test]
fn static_tool_executor_runs_the_latest_registration() {
    let mut executor = StaticToolExecutor::new()
        .register(
            "echo",
            Box::new(|input: &str| -> Result<String, ToolError> { Ok(format!("first:{input}")) }),
        )
        .register(
            "echo",
            Box::new(|input: &str| -> Result<String, ToolError> { Ok(format!("second:{input}")) }),
        );
    assert_eq!(executor.execute("echo", "x").ok(), Some("second:x".to_string()));
}

#[test]
fn runtime_error_reports_its_message() {
    let error = RuntimeError::new("boom");
    assert_eq!(error.to_string(), "boom");
    assert!(!error.is_context_window_failure());
    assert!(RuntimeError::context_window("too big").is_context_window_failure());
}

#[test]
fn hook_feedback_is_appended_after_the_output() {
    let merged = merge_hook_feedback(&vec!["a".to_string(), "b".to_string()], "out".to_string(), false);
    assert_eq!(merged, "out\n\nHook feedback:\na\nb");
    let merged = merge_hook_feedback(&vec!["x".to_string()], "  ".to_string(), true);
    assert_eq!(merged, "Hook feedback (error):\nx");
    let untouched = merge_hook_feedback(&Vec::new(), "out".to_string(), true);
    assert_eq!(untouched, "out");
}

#[test]
fn a_question_stalls_only_after_a_tool_has_run() {
    assert!(is_stalled_reply("Should I run the DTC scan next?", true));
    assert!(!is_stalled_reply("Which port is the adapter on?", false));
}

#[test]
fn stall_detection_reads_the_last_line_not_the_whole_reply() {
    assert!(!is_stalled_reply(
        "Let me check the port.\nThe scan finished with no codes stored.",
        true
    ));
    assert!(is_stalled_reply(
        "The scan finished.\nNext I'll read the freeze-frame data.",
        true
    ));
}

#[test]
fn stall_nudge_budget_parses_from_env_value() {
    assert_eq!(DEFAULT_MAX_STALL_NUDGES, 3);
    assert_eq!(parse_max_stall_nudges(None), 3);
    assert_eq!(parse_max_stall_nudges(Some("not a number")), 3);
    assert_eq!(parse_max_stall_nudges(Some(" 5 ")), 5);
    assert_eq!(parse_max_stall_nudges(Some("0")), 0);
}

#[test]
fn turn_stops_after_its_iteration_limit() {
    let mut control = TurnControl::new(2, 3);
    assert_eq!(control.begin_iteration().ok(), Some(1));
    assert_eq!(control.begin_iteration().ok(), Some(2));
    let error = control.begin_iteration().err().expect("a third request exceeds the limit");
    assert_eq!(error.to_string(), "conversation loop exceeded the maximum number of iterations");
    assert!(!error.is_context_window_failure());
    assert_eq!(control.iterations(), 2);
}

#[test]
fn stalled_replies_are_nudged_within_budget() {
    let mut control = TurnControl::new(usize::MAX, 2);
    assert_eq!(control.after_reply(0, "Let me run the tests."), ReplyStep::Nudge);
    assert_eq!(control.after_reply(0, "I'll run them now."), ReplyStep::Nudge);
    assert_eq!(control.after_reply(0, "Let me run the tests."), ReplyStep::Finish);
}

#[test]
fn plain_completions_finish_and_tool_calls_run() {
    let mut control = TurnControl::new(10, 3);
    assert_eq!(control.after_reply(0, "All done: the build passes."), ReplyStep::Finish);
    let mut control = TurnControl::new(10, 0);
    assert_eq!(control.after_reply(0, "Let me run the tests."), ReplyStep::Finish);
    let mut control = TurnControl::new(10, 3);
    assert_eq!(control.after_reply(0, "Should I continue?"), ReplyStep::Finish);
    assert_eq!(control.after_reply(2, "Running both checks."), ReplyStep::RunTools);
    assert_eq!(control.after_reply(0, "Should I continue?"), ReplyStep::Nudge);
}
