use std::time::{Duration, Instant};

use claw_runtime::context::{
    extract_json_num, extract_json_str, filter_for_api, filter_for_api_with_config,
    summarize_tool_result, CompressionConfig,
};
use claw_runtime::session::{ContentBlock, ConversationMessage, MessageRole};

fn config_with_preserve(n: usize) -> CompressionConfig {
    CompressionConfig {
        preserve_recent_messages: n,
        ..CompressionConfig::default()
    }
}

fn tool_msg(id: &str, tool: &str, output: &str, is_error: bool, age_secs: u64) -> ConversationMessage {
    ConversationMessage {
        role: MessageRole::Tool,
        blocks: vec![ContentBlock::ToolResult {
            tool_use_id: id.to_string(),
            tool_name: tool.to_string(),
            output: output.to_string(),
            is_error,
        }],
        usage: None,
        created_at: Instant::now() - Duration::from_secs(age_secs),
    }
}

fn first_output(messages: &[ConversationMessage], index: usize) -> String {
    match &messages[index].blocks[0] {
        ContentBlock::ToolResult { output, .. } => output.clone(),
        _ => panic!("Expected ToolResult"),
    }
}

#[test]
fn filter_preserves_error_results() {
    let msg = tool_msg("tu2", "WebFetch", "Connection refused", true, 0);
    let filtered = filter_for_api(&[msg], &Vec::new());
    if let ContentBlock::ToolResult { output, .. } = &filtered[0].blocks[0] {
        assert_eq!(output, "Connection refused");
    } else {
        panic!("Expected ToolResult");
    }
}

#[test]
fn filter_preserves_recent_tool_results_verbatim() {
    let big_output = format!(
        "{{\"filePath\":\"big.rs\",\"lineCount\":500,\"bytesRead\":20000,\"content\":\"{}\"}}\n",
        "X".repeat(1000)
    );
    let messages: Vec<ConversationMessage> = (0..8)
        .map(|i| tool_msg(&format!("tu{i}"), "read_file", &big_output, false, 0))
        .collect();

    let filtered = filter_for_api(&messages, &Vec::new());

    let first = first_output(&filtered, 0);
    assert!(
        first.starts_with("[read_file:"),
        "old message should be compressed, got: {first}"
    );
    for i in 2..8 {
        let output = first_output(&filtered, i);
        assert!(
            output.contains("\"filePath\":\"big.rs\""),
            "recent message {i} should be preserved verbatim, got: {output}"
        );
    }
}

#[test]
fn filter_replaces_large_toolresult_with_structured_summary() {
    let json_output = "{\"filePath\":\"src/session.rs\",\"lineCount\":1200,\"bytesRead\":45000,\"content\":\"use std::...\"}";
    let long_output = format!("{json_output}{}", "X".repeat(1000));
    let msg = tool_msg("tu1", "read_file", &long_output, false, 0);
    let filtered = filter_for_api_with_config(&[msg], &config_with_preserve(0));
    let output = first_output(&filtered, 0);
    assert!(output.starts_with("[read_file: src/session.rs"));
    assert!(output.contains("1200 lines"));
    assert!(output.contains("45000 bytes"));
    assert!(output.contains("content processed"));
}

#[test]
fn filter_replaces_bash_with_exit_code() {
    let json_output = format!(
        "{{\"stdout\":\"test result: ok. 42 passed{}\",\"exitCode\":0}}",
        "X".repeat(600)
    );
    let msg = tool_msg("tu3", "bash", &json_output, false, 0);
    let filtered = filter_for_api_with_config(&[msg], &config_with_preserve(0));
    let output = first_output(&filtered, 0);
    assert!(output.starts_with("[bash: exit=0"));
    assert!(output.contains("test result: ok"));
}

#[test]
fn filter_keeps_small_results_and_drops_thinking_only_messages() {
    let small = tool_msg("tu4", "read_file", "short", false, 0);
    let thinking = ConversationMessage {
        role: MessageRole::Assistant,
        blocks: vec![ContentBlock::Thinking {
            thinking: "some reasoning...".to_string(),
            signature: Some("sig_abc".to_string()),
        }],
        usage: None,
        created_at: Instant::now(),
    };
    let text_and_thinking = ConversationMessage {
        role: MessageRole::Assistant,
        blocks: vec![
            ContentBlock::Text { text: "Hello".to_string() },
            ContentBlock::Thinking { thinking: "thinking...".to_string(), signature: None },
        ],
        usage: None,
        created_at: Instant::now(),
    };
    let filtered =
        filter_for_api_with_config(&[small, thinking, text_and_thinking], &config_with_preserve(0));
    assert_eq!(filtered.len(), 2);
    assert_eq!(first_output(&filtered, 0), "short");
    assert_eq!(filtered[1].role, MessageRole::Assistant);
}

#[test]
fn expired_web_fetch_is_compressed_inside_the_recent_window() {
    let output = format!("{{\"url\":\"https://example.com\",\"content\":\"{}\"}}", "X".repeat(600));
    let msg = tool_msg("tu_wf", "WebFetch", &output, false, 61);
    let filtered = filter_for_api_with_config(&[msg], &config_with_preserve(10));
    let out = first_output(&filtered, 0);
    assert!(out.starts_with("[WebFetch:"), "got: {out}");

    let fresh = tool_msg("tu_wf2", "WebFetch", &output, false, 0);
    let filtered = filter_for_api_with_config(&[fresh], &config_with_preserve(10));
    assert_eq!(first_output(&filtered, 0), output);
}

#[test]
fn summarize_unknown_tool_reports_size() {
    let summary = summarize_tool_result("mystery", "abcdef");
    assert_eq!(summary, "[mystery: 6 chars \u{2014} content processed]");
    let web = summarize_tool_result("WebFetch", "{\"url\":\"https://a.b\"}");
    assert_eq!(web, "[WebFetch: https://a.b \u{2014} content processed]");
}

#[test]
fn extract_json_str_handles_escaped_quotes() {
    let json = r#"{"path":"file with \"quotes\"","other":"val"}"#;
    assert_eq!(
        extract_json_str(json, "path"),
        Some(r#"file with \"quotes\""#.to_string())
    );
}

#[test]
fn extract_json_str_handles_backslash() {
    let json = r#"{"path":"C:\\Users\\file.txt"}"#;
    assert_eq!(
        extract_json_str(json, "path"),
        Some(r#"C:\\Users\\file.txt"#.to_string())
    );
}

#[test]
fn extract_json_str_missing_key_returns_none() {
    let json = r#"{"a":1,"b":2}"#;
    assert_eq!(extract_json_str(json, "c"), None);
}

#[test]
fn extract_json_num_returns_none_for_null() {
    let json = r#"{"exitCode":null}"#;
    assert_eq!(extract_json_num(json, "exitCode"), None);
}

#[test]
fn extract_json_num_handles_scientific_notation() {
    let json = r#"{"value":1.5e10}"#;
    assert_eq!(extract_json_num(json, "value"), Some("1.5e10".to_string()));
}

#[test]
fn extract_json_num_missing_key_returns_none() {
    let json = r#"{"a":1}"#;
    assert_eq!(extract_json_num(json, "b"), None);
}

#[test]
fn extract_json_num_reads_negative_integers() {
    let json = r#"{"exitCode":-2,"x":1}"#;
    assert_eq!(extract_json_num(json, "exitCode"), Some("-2".to_string()));
}

#[test]
fn thresholds_come_from_the_environment() {
    let env = vec![
        ("CLAW_TOOLRESULT_MIN_BYTES".to_string(), " 999 ".to_string()),
        ("CLAW_CONTEXT_PRESERVE_MSGS".to_string(), "3".to_string()),
        ("CLAW_WEBFETCH_TTL_SECS".to_string(), "not a number".to_string()),
        ("CLAW_SUMMARY_MAX_LINES".to_string(), "+10".to_string()),
    ];
    let config = claw_runtime::context::CompressionConfig::from_env(&env);
    assert_eq!(config.toolresult_min_bytes, 999);
    assert_eq!(config.preserve_recent_messages, 3);
    assert_eq!(config.webfetch_ttl_secs, 30);
    assert_eq!(config.summary_max_lines, 10);
    assert_eq!(config.websearch_ttl_secs, 15);
    assert_eq!(
        claw_runtime::context::CompressionConfig::from_env(&Vec::new()),
        claw_runtime::context::CompressionConfig::default()
    );
}
