use claw_runtime::json_node::JsonNode;
use claw_runtime::lsp_responses::{
    parse_completions, parse_hover, parse_locations, parse_symbols, text_document_position_params,
};
use claw_runtime::lsp_parse::{file_uri, path_to_uri};
use serde_json::Value;

fn node(value: &Value) -> JsonNode {
    match value {
        Value::Null => JsonNode::Null,
        Value::Bool(b) => JsonNode::Bool(*b),
        Value::Number(n) => JsonNode::Number(n.as_u64()),
        Value::String(s) => JsonNode::Str(s.clone()),
        Value::Array(items) => JsonNode::Array(items.iter().map(node).collect()),
        Value::Object(map) => JsonNode::Object(map.iter().map(|(k, v)| (k.clone(), node(v))).collect()),
    }
}

fn parse(text: &str) -> JsonNode {
    node(&serde_json::from_str::<Value>(text).unwrap())
}

#[test]
fn hover_reads_markup_marked_strings_and_arrays() {
    let h = parse_hover(&parse(r#"{"contents": {"kind": "markdown", "value": "**x**"}}"#)).unwrap();
    assert_eq!(h.content, "**x**");
    assert_eq!(h.language.as_deref(), Some("markdown"));
    let h = parse_hover(&parse(r#"{"contents": {"kind": "plaintext", "value": "x"}}"#)).unwrap();
    assert_eq!(h.language, None);
    let h = parse_hover(&parse(r#"{"contents": {"language": "rust", "value": "fn f()"}}"#)).unwrap();
    assert_eq!(h.language.as_deref(), Some("rust"));
    let h = parse_hover(&parse(r#"{"contents": "plain"}"#)).unwrap();
    assert_eq!(h.content, "plain");
    let h = parse_hover(&parse(r#"{"contents": ["a", {"value": "b"}, 3]}"#)).unwrap();
    assert_eq!(h.content, "a\nb");
    assert!(parse_hover(&parse(r#"{"contents": []}"#)).is_none());
    assert!(parse_hover(&parse(r#"{}"#)).is_none());
}

#[test]
fn locations_skip_incomplete_entries() {
    let value = parse(
        r#"[{"uri": "file:///a.rs", "range": {"start": {"line": 1, "character": 2}, "end": {"line": 3, "character": 4}}},
            {"uri": "file:///b.rs", "range": {"start": {"line": 1}, "end": {}}},
            {"uri": "/c.rs", "range": {"start": {"line": 5, "character": 6}, "end": {}}}]"#,
    );
    let locations = parse_locations(&value);
    assert_eq!(locations.len(), 2);
    assert_eq!(locations[0].path, "/a.rs");
    assert_eq!((locations[0].line, locations[0].character), (1, 2));
    assert_eq!((locations[0].end_line, locations[0].end_character), (Some(3), Some(4)));
    assert_eq!(locations[1].path, "/c.rs");
    assert_eq!(locations[1].end_line, None);
    assert!(parse_locations(&parse("{}")).is_empty());
}

#[test]
fn completions_name_their_kinds() {
    let items = parse_completions(&parse(
        r#"[{"label": "foo", "kind": 3, "detail": "fn foo()"}, {"label": "bar", "kind": 6, "insertText": "bar()"}]"#,
    ));
    assert_eq!(items.len(), 2);
    assert_eq!(items[0].label, "foo");
    assert_eq!(items[0].kind.as_deref(), Some("Function"));
    assert_eq!(items[0].detail.as_deref(), Some("fn foo()"));
    assert_eq!(items[1].kind.as_deref(), Some("Variable"));
    assert_eq!(items[1].insert_text.as_deref(), Some("bar()"));
}

#[test]
fn symbols_are_flattened_depth_first() {
    let symbols = parse_symbols(
        &parse(
            r#"[{"name": "Outer", "kind": 23, "range": {"start": {"line": 1, "character": 0}},
                 "children": [{"name": "inner", "kind": 6, "range": {"start": {"line": 2, "character": 4}}}]},
                {"name": "free", "kind": 12}]"#,
        ),
        "src/lib.rs",
    );
    let names: Vec<(&str, &str, u32)> =
        symbols.iter().map(|s| (s.name.as_str(), s.kind.as_str(), s.line)).collect();
    assert_eq!(names, vec![("Outer", "Struct", 1), ("inner", "Method", 2), ("free", "Function", 0)]);
    assert!(symbols.iter().all(|s| s.path == "src/lib.rs"));
}

#[test]
fn position_params_have_the_protocol_shape() {
    let params = text_document_position_params("file:///test.rs", 5, 10);
    let uri = params.get("textDocument").and_then(|t| t.get("uri")).and_then(|u| u.as_str());
    assert_eq!(uri, Some("file:///test.rs"));
    let position = params.get("position").unwrap();
    assert_eq!(position.get("line").and_then(|l| l.as_u64()), Some(5));
    assert_eq!(position.get("character").and_then(|c| c.as_u64()), Some(10));
}

#[test]
fn lsp_process_parse_hover_markup_content() {
    let value = parse(r#"{"contents": {"kind": "plaintext", "value": "fn main()"}}"#);
    let result = parse_hover(&value);
    assert!(result.is_some());
    let hover = result.unwrap();
    assert_eq!(hover.content, "fn main()");
}

#[test]
fn lsp_process_parse_hover_marked_string_object() {
    let value = parse(r#"{"contents": {"language": "rust", "value": "pub fn foo()"}}"#);
    let result = parse_hover(&value);
    assert!(result.is_some());
    let hover = result.unwrap();
    assert_eq!(hover.content, "pub fn foo()");
    assert_eq!(hover.language.as_deref(), Some("rust"));
}

#[test]
fn lsp_process_parse_hover_plain_string() {
    let value = parse(r#"{"contents": "some text"}"#);
    let result = parse_hover(&value);
    assert!(result.is_some());
    let hover = result.unwrap();
    assert_eq!(hover.content, "some text");
    assert!(hover.language.is_none());
}

#[test]
fn lsp_process_parse_hover_array_of_marked_strings() {
    let value = parse(r#"{"contents": ["first line", { "language": "rust", "value": "fn bar()" }]}"#);
    let result = parse_hover(&value);
    assert!(result.is_some());
    let hover = result.unwrap();
    assert!(hover.content.contains("first line"));
    assert!(hover.content.contains("fn bar()"));
}

#[test]
fn lsp_process_parse_locations_empty_array() {
    let value = parse("[]");
    let locations = parse_locations(&value);
    assert!(locations.is_empty());
}

#[test]
fn lsp_process_parse_locations_valid() {
    let value = parse(
        r#"[{"uri": "file:///tmp/test.rs",
             "range": {"start": { "line": 5, "character": 10 }, "end": { "line": 5, "character": 15 }}}]"#,
    );
    let locations = parse_locations(&value);
    assert_eq!(locations.len(), 1);
    assert_eq!(locations[0].line, 5);
    assert_eq!(locations[0].character, 10);
    assert_eq!(locations[0].end_line, Some(5));
    assert_eq!(locations[0].end_character, Some(15));
}

#[test]
fn lsp_process_parse_symbols_basic() {
    let value = parse(
        r#"[{"name": "main", "kind": 12,
             "range": {"start": { "line": 1, "character": 0 }, "end": { "line": 5, "character": 1 }}}]"#,
    );
    let symbols = parse_symbols(&value, "/tmp/test.rs");
    assert_eq!(symbols.len(), 1);
    assert_eq!(symbols[0].name, "main");
    assert_eq!(symbols[0].kind, "Function");
    assert_eq!(symbols[0].line, 1);
}

#[test]
fn lsp_process_parse_completions_basic() {
    let value = parse(r#"[{ "label": "foo", "kind": 3, "detail": "fn foo()" }, { "label": "bar", "kind": 6 }]"#);
    let completions = parse_completions(&value);
    assert_eq!(completions.len(), 2);
    assert_eq!(completions[0].label, "foo");
    assert_eq!(completions[0].kind.as_deref(), Some("Function"));
    assert_eq!(completions[0].detail.as_deref(), Some("fn foo()"));
    assert_eq!(completions[1].label, "bar");
    assert_eq!(completions[1].kind.as_deref(), Some("Variable"));
}

#[test]
fn lsp_process_text_document_position_params_structure() {
    let params = text_document_position_params("file:///test.rs", 5, 10);
    let uri = params.get("textDocument").and_then(|t| t.get("uri")).and_then(|u| u.as_str());
    assert_eq!(uri, Some("file:///test.rs"));
    let position = params.get("position").unwrap();
    assert_eq!(position.get("line").and_then(|l| l.as_u64()), Some(5));
    assert_eq!(position.get("character").and_then(|c| c.as_u64()), Some(10));
}

#[test]
fn lsp_process_path_to_uri_absolute() {
    let uri = path_to_uri("/tmp/test.rs").expect("an absolute path needs no resolving");
    assert_eq!(uri, "file:///tmp/test.rs");
}

#[test]
fn tests_parse_hover_markup_content() {
    let value = parse(r#"{"contents": {"kind": "plaintext", "value": "fn main()"}}"#);
    let result = parse_hover(&value);
    assert!(result.is_some());
    let hover = result.unwrap();
    assert_eq!(hover.content, "fn main()");
}

#[test]
fn tests_parse_hover_marked_string_object() {
    let value = parse(r#"{"contents": {"language": "rust", "value": "pub fn foo()"}}"#);
    let result = parse_hover(&value);
    assert!(result.is_some());
    let hover = result.unwrap();
    assert_eq!(hover.content, "pub fn foo()");
    assert_eq!(hover.language.as_deref(), Some("rust"));
}

#[test]
fn tests_parse_hover_plain_string() {
    let value = parse(r#"{"contents": "some text"}"#);
    let result = parse_hover(&value);
    assert!(result.is_some());
    let hover = result.unwrap();
    assert_eq!(hover.content, "some text");
    assert!(hover.language.is_none());
}

#[test]
fn tests_parse_hover_array_of_marked_strings() {
    let value = parse(r#"{"contents": ["first line", { "language": "rust", "value": "fn bar()" }]}"#);
    let result = parse_hover(&value);
    assert!(result.is_some());
    let hover = result.unwrap();
    assert!(hover.content.contains("first line"));
    assert!(hover.content.contains("fn bar()"));
}

#[test]
fn tests_parse_locations_empty_array() {
    let value = parse("[]");
    let locations = parse_locations(&value);
    assert!(locations.is_empty());
}

#[test]
fn tests_parse_locations_valid() {
    let value = parse(
        r#"[{"uri": "file:///tmp/test.rs",
             "range": {"start": { "line": 5, "character": 10 }, "end": { "line": 5, "character": 15 }}}]"#,
    );
    let locations = parse_locations(&value);
    assert_eq!(locations.len(), 1);
    assert_eq!(locations[0].line, 5);
    assert_eq!(locations[0].character, 10);
    assert_eq!(locations[0].end_line, Some(5));
    assert_eq!(locations[0].end_character, Some(15));
}

#[test]
fn tests_parse_symbols_basic() {
    let value = parse(
        r#"[{"name": "main", "kind": 12,
             "range": {"start": { "line": 1, "character": 0 }, "end": { "line": 5, "character": 1 }}}]"#,
    );
    let symbols = parse_symbols(&value, "/tmp/test.rs");
    assert_eq!(symbols.len(), 1);
    assert_eq!(symbols[0].name, "main");
    assert_eq!(symbols[0].kind, "Function");
    assert_eq!(symbols[0].line, 1);
}

#[test]
fn tests_parse_completions_basic() {
    let value = parse(r#"[{ "label": "foo", "kind": 3, "detail": "fn foo()" }, { "label": "bar", "kind": 6 }]"#);
    let completions = parse_completions(&value);
    assert_eq!(completions.len(), 2);
    assert_eq!(completions[0].label, "foo");
    assert_eq!(completions[0].kind.as_deref(), Some("Function"));
    assert_eq!(completions[0].detail.as_deref(), Some("fn foo()"));
    assert_eq!(completions[1].label, "bar");
    assert_eq!(completions[1].kind.as_deref(), Some("Variable"));
}

#[test]
fn tests_text_document_position_params_structure() {
    let params = text_document_position_params("file:///test.rs", 5, 10);
    let uri = params.get("textDocument").and_then(|t| t.get("uri")).and_then(|u| u.as_str());
    assert_eq!(uri, Some("file:///test.rs"));
    let position = params.get("position").unwrap();
    assert_eq!(position.get("line").and_then(|l| l.as_u64()), Some(5));
    assert_eq!(position.get("character").and_then(|c| c.as_u64()), Some(10));
}

#[test]
fn tests_path_to_uri_absolute() {
    let uri = path_to_uri("/tmp/test.rs").expect("an absolute path needs no resolving");
    assert_eq!(uri, "file:///tmp/test.rs");
}

#[test]
fn file_uri_prefixes_the_scheme() {
    assert_eq!(file_uri("/a b/c.rs"), "file:///a b/c.rs");
    assert_eq!(file_uri("relative.rs"), "file://relative.rs");
    assert!(path_to_uri("relative.rs").is_none());
}
