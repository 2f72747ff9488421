use claw_runtime::json_node::JsonNode;
use claw_runtime::lsp_documents::OpenDocuments;
use claw_runtime::lsp_responses::drain_diagnostics;
use claw_runtime::lsp_transport::{
    check_response, classify_message, encode_frame, parse_server_message, frame_header, parse_usize, HeaderReader,
    LspError, LspNotification, LspRequest, LspResponse, LspTransportError, MessageKind, RequestIds,
};
use claw_runtime::lsp_types::LspId;
use serde_json::Value;

fn node(value: &Value) -> JsonNode {
    match value {
        Value::Null => JsonNode::Null,
        Value::Bool(b) => JsonNode::Bool(*b),
        Value::Number(n) => JsonNode::Number(n.as_u64()),
        Value::String(s) => JsonNode::Str(s.clone()),
        Value::Array(items) => JsonNode::Array(items.iter().map(node).collect()),
        Value::Object(map) => JsonNode::Object(map.iter().map(|(k, v)| (k.clone(), node(v))).collect()),
    }
}

fn parse(text: &str) -> JsonNode {
    node(&serde_json::from_str::<Value>(text).unwrap())
}

fn read_header(bytes: &[u8]) -> (Result<usize, String>, usize) {
    let text = std::str::from_utf8(bytes).unwrap();
    let mut reader = HeaderReader::new();
    let mut consumed = 0;
    for line in text.split_inclusive('\n') {
        consumed += line.len();
        match reader.feed_line(line) {
            Ok(Some(n)) => return (Ok(n), consumed),
            Ok(None) => {}
            Err(e) => return (Err(e.to_text()), consumed),
        }
    }
    (Err("eof".to_string()), consumed)
}

#[test]
fn frames_round_trip_through_the_header_reader() {
    let payload = br#"{"jsonrpc":"2.0","id":1,"method":"initialize","params":null}"#;
    assert_eq!(frame_header(payload.len()), format!("Content-Length: {}\r\n\r\n", payload.len()));
    let frame = encode_frame(payload);
    let header_len = frame.len() - payload.len();
    let (length, consumed) = read_header(&frame[..header_len]);
    assert_eq!(length, Ok(payload.len()));
    assert_eq!(consumed, header_len);
    assert_eq!(&frame[header_len..], &payload[..]);
}

#[test]
fn header_names_ignore_case_and_other_headers_pass() {
    let (length, _) = read_header(b"content-type: application/json\r\n  CONTENT-LENGTH :  42 \r\n\r\n");
    assert_eq!(length, Ok(42));
    let (length, _) = read_header(b"Content-Length: 3\r\nContent-Length: 7\r\n\r\n");
    assert_eq!(length, Ok(7));
}

#[test]
fn garbage_header_gives_no_length() {
    let (length, _) = read_header(b"THIS IS NOT A VALID HEADER\r\n\r\n");
    assert_eq!(length, Err("LSP invalid response for `unknown`: missing Content-Length header".to_string()));
}

#[test]
fn bad_lengths_are_io_errors() {
    let (length, _) = read_header(b"Content-Length: ten\r\n\r\n");
    assert_eq!(length, Err("invalid digit found in string".to_string()));
    let (length, _) = read_header(b"Content-Length:\r\n\r\n");
    assert_eq!(length, Err("cannot parse integer from empty string".to_string()));
    let (length, _) = read_header(b"Content-Length: 99999999999999999999999\r\n\r\n");
    assert_eq!(length, Err("number too large to fit in target type".to_string()));
}

#[test]
fn parse_usize_follows_str_parse() {
    for text in ["0", "+12", "18446744073709551615", "18446744073709551616", "", "+", "-1", "1x", "99999999999999999999x"] {
        let chars: Vec<char> = text.chars().collect();
        let expected = text.parse::<usize>().map_err(|e| e.to_string());
        assert_eq!(parse_usize(&chars), expected, "parsing {text:?}");
    }
}

#[test]
fn messages_are_told_apart_by_id_and_method() {
    assert_eq!(classify_message(&parse(r#"{"jsonrpc":"2.0","id":1,"result":null}"#)).ok(), Some(MessageKind::Response));
    assert_eq!(
        classify_message(&parse(r#"{"jsonrpc":"2.0","method":"window/logMessage"}"#)).ok(),
        Some(MessageKind::Notification)
    );
    let err = classify_message(&parse(r#"{"jsonrpc":"2.0"}"#)).err().unwrap();
    assert_eq!(err.to_text(), "LSP invalid response for `unknown`: message has neither 'id' nor 'method'");
}

fn response(jsonrpc: &str, id: LspId, error: Option<LspError>) -> LspResponse {
    LspResponse { jsonrpc: jsonrpc.to_string(), id, result: Some(JsonNode::Bool(true)), error }
}

#[test]
fn replies_are_checked_against_their_request() {
    let ok = check_response("textDocument/hover", &LspId::Number(3), response("2.0", LspId::Number(3), None));
    assert!(matches!(ok, Ok(r) if !r.is_error()));

    let err = check_response("initialize", &LspId::Number(1), response("1.0", LspId::Number(1), None)).err().unwrap();
    assert_eq!(err.to_text(), "LSP invalid response for `initialize`: unsupported jsonrpc version `1.0`");

    let err = check_response("initialize", &LspId::Number(1), response("2.0", LspId::String("a\"b".into()), None))
        .err()
        .unwrap();
    assert_eq!(
        err.to_text(),
        "LSP invalid response for `initialize`: mismatched id: expected Number(1), got String(\"a\\\"b\")"
    );

    let failure = LspError { code: -32601, message: "Method not found".into(), data: None };
    let err = check_response("x", &LspId::Null, response("2.0", LspId::Null, Some(failure))).err().unwrap();
    assert!(matches!(&err, LspTransportError::JsonRpc(e) if e.code == -32601));
    assert_eq!(err.to_text(), "LSP JSON-RPC error: Method not found (-32601)");
}

#[test]
fn error_texts() {
    let timeout = LspTransportError::Timeout { method: "textDocument/hover".into(), timeout_secs: 30 };
    assert_eq!(timeout.to_text(), "LSP request `textDocument/hover` timed out after 30s");
    assert_eq!(LspTransportError::ServerExited.to_text(), "LSP server process exited unexpectedly");
    assert_eq!(LspTransportError::Io("broken pipe".into()).to_text(), "broken pipe");
    let min = LspError { code: i64::MIN, message: "m".into(), data: None };
    assert_eq!(LspTransportError::JsonRpc(min).to_text(), format!("LSP JSON-RPC error: m ({})", i64::MIN));
}

#[test]
fn into_result_prefers_the_error() {
    let r = response("2.0", LspId::Number(1), None).into_result();
    assert!(matches!(r, Ok(JsonNode::Bool(true))));
    let empty = LspResponse { jsonrpc: "2.0".into(), id: LspId::Number(1), result: None, error: None };
    assert!(matches!(empty.into_result(), Ok(JsonNode::Null)));
    let failure = LspError { code: 1, message: "no".into(), data: None };
    let r = response("2.0", LspId::Number(1), Some(failure)).into_result();
    assert!(matches!(r, Err(e) if e.message == "no"));
}

#[test]
fn request_has_incrementing_ids() {
    let mut ids = RequestIds::new();
    assert_eq!(ids.allocate_id(), LspId::Number(1));
    assert_eq!(ids.allocate_id(), LspId::Number(2));
    assert_eq!(ids.allocate_id(), LspId::Number(3));
}

#[test]
fn requests_and_notifications_speak_json_rpc_2() {
    let request = LspRequest::new(LspId::Number(7), "shutdown", None);
    assert_eq!(request.jsonrpc, "2.0");
    assert_eq!(request.method, "shutdown");
    let notification = LspNotification::new("initialized", Some(JsonNode::Object(vec![])));
    assert_eq!(notification.jsonrpc, "2.0");
    assert_eq!(notification.method, "initialized");
}

#[test]
fn published_diagnostics_are_read_in_order() {
    let notifications = vec![
        LspNotification::new("window/logMessage", Some(parse(r#"{"message":"hi"}"#))),
        LspNotification::new(
            "textDocument/publishDiagnostics",
            Some(parse(
                r#"{"uri":"file:///src/main.rs","diagnostics":[
                    {"range":{"start":{"line":3,"character":7}},"severity":2,"message":"unused","source":"rustc"},
                    {"message":"bare"},
                    {"range":{"start":{"line":4294967301,"character":1}},"severity":9}]}"#,
            )),
        ),
        LspNotification::new("textDocument/publishDiagnostics", Some(parse(r#"{"uri":"file:///x.rs"}"#))),
        LspNotification::new("textDocument/publishDiagnostics", None),
    ];
    let diags = drain_diagnostics(&notifications);
    assert_eq!(diags.len(), 3);
    assert_eq!(diags[0].path, "/src/main.rs");
    assert_eq!((diags[0].line, diags[0].character), (3, 7));
    assert_eq!(diags[0].severity, "warning");
    assert_eq!(diags[0].message, "unused");
    assert_eq!(diags[0].source.as_deref(), Some("rustc"));
    assert_eq!((diags[1].line, diags[1].character), (0, 0));
    assert_eq!(diags[1].severity, "error");
    assert_eq!(diags[1].source, None);
    assert_eq!(diags[2].line, 5);
    assert_eq!(diags[2].message, "");
    assert_eq!(diags[2].severity, "unknown(9)");
}

#[test]
fn document_versions_count_changes_from_open() {
    let mut docs = OpenDocuments::new();
    assert!(!docs.is_open("a.rs"));
    assert_eq!(docs.change_version("a.rs"), 1);
    docs.record_open("a.rs");
    assert!(docs.is_open("a.rs"));
    let v = docs.change_version("a.rs");
    assert_eq!(v, 1);
    docs.record_version("a.rs", v);
    assert_eq!(docs.change_version("a.rs"), 2);
    docs.record_version("b.rs", 5);
    assert_eq!(docs.change_version("b.rs"), 6);
    docs.record_close("a.rs");
    assert!(!docs.is_open("a.rs"));
    assert_eq!(docs.change_version("a.rs"), 1);
    assert_eq!(docs.change_version("b.rs"), 6);
}

#[test]
fn server_payloads_are_parsed_then_told_apart() {
    let (kind, node) = parse_server_message(br#"{"jsonrpc":"2.0","id":4,"result":{"x":1}}"#).unwrap();
    assert_eq!(kind, MessageKind::Response);
    assert_eq!(node.get("id").and_then(|v| v.as_u64()), Some(4));
    let (kind, node) =
        parse_server_message(br#"{"jsonrpc":"2.0","method":"textDocument/publishDiagnostics","params":{}}"#).unwrap();
    assert_eq!(kind, MessageKind::Notification);
    assert_eq!(node.get("method").and_then(|v| v.as_str()), Some("textDocument/publishDiagnostics"));
    let err = parse_server_message(b"{oops").err().unwrap();
    assert!(err.to_text().starts_with("LSP invalid response for `unknown`: "), "{}", err.to_text());
    let err = parse_server_message(br#"{"jsonrpc":"2.0"}"#).err().unwrap();
    assert_eq!(err.to_text(), "LSP invalid response for `unknown`: message has neither 'id' nor 'method'");
}
