use claw_runtime::json::{render_string, JsonError};
use claw_runtime::json_doc::{parse_document, JsonDoc};

#[test]
fn escapes_control_characters() {
    assert_eq!(render_string("a\n\t\"b"), "\"a\\n\\t\\\"b\"");
}

#[test]
fn escapes_backslashes_and_low_control_bytes() {
    assert_eq!(render_string("a\\b"), "\"a\\\\b\"");
    assert_eq!(render_string("\u{1}"), "\"\\u0001\"");
    assert_eq!(render_string("\r"), "\"\\r\"");
    assert_eq!(render_string("é"), "\"é\"");
}

#[test]
fn json_error_reports_its_message() {
    assert_eq!(JsonError::new("unexpected end").to_string(), "unexpected end");
}

use claw_runtime::json::{parse_i64, Parser};

#[test]
fn parser_reads_strings_with_escapes() {
    let mut p = Parser::new(r#""a\n\"b\u00e9\/" rest"#);
    assert_eq!(p.parse_string().ok(), Some("a\n\"bé/".to_string()));
    p.skip_whitespace();
    assert_eq!(p.peek(), Some('r'));
}

#[test]
fn parser_reports_string_errors() {
    let mut p = Parser::new("\"abc");
    assert_eq!(p.parse_string().err().map(|e| e.to_string()), Some("unterminated string".to_string()));
    let mut p = Parser::new("\"\\q\"");
    assert_eq!(
        p.parse_string().err().map(|e| e.to_string()),
        Some("invalid escape sequence: q".to_string())
    );
    let mut p = Parser::new("\"\\u12g4\"");
    assert_eq!(
        p.parse_string().err().map(|e| e.to_string()),
        Some("invalid unicode escape".to_string())
    );
    let mut p = Parser::new("\"\\ud800\"");
    assert_eq!(
        p.parse_string().err().map(|e| e.to_string()),
        Some("invalid unicode scalar value".to_string())
    );
    let mut p = Parser::new("x");
    assert_eq!(
        p.parse_string().err().map(|e| e.to_string()),
        Some("expected '\"', found 'x'".to_string())
    );
}

#[test]
fn parser_cursor_operations() {
    let mut p = Parser::new("  ,x");
    p.skip_whitespace();
    assert!(p.try_consume(','));
    assert!(!p.try_consume(','));
    assert_eq!(p.expect('y').err().map(|e| e.to_string()), Some("expected 'y', found 'x'".to_string()));
    assert!(p.is_eof());
    assert_eq!(p.next(), None);
    assert_eq!(
        p.expect('y').err().map(|e| e.to_string()),
        Some("expected 'y', found end of input".to_string())
    );
}

#[test]
fn parser_scans_number_literals() {
    let mut p = Parser::new("-12.5e+3,");
    assert_eq!(p.scan_number().ok(), Some(("-12.5e+3".to_string(), true)));
    assert_eq!(p.peek(), Some(','));
    let mut p = Parser::new("42]");
    assert_eq!(p.scan_number().ok(), Some(("42".to_string(), false)));
    let mut p = Parser::new("-x");
    assert_eq!(p.scan_number().err().map(|e| e.to_string()), Some("invalid number".to_string()));
}

#[test]
fn i64_parsing_matches_std() {
    for s in ["0", "-0", "42", "-9223372036854775808", "9223372036854775807", "9223372036854775808", "-", "", "+5", "-+5", "1a"] {
        assert_eq!(parse_i64(s), s.parse::<i64>().ok(), "input {s:?}");
    }
}

fn doc(text: &str) -> JsonDoc {
    parse_document(text).expect("valid document")
}

#[test]
fn documents_are_read_with_numbers_kept_as_text() {
    match doc(r#" {"a": [1, -2.5e3, "x\n", true, null], "b": {}, "a": false} "#) {
        JsonDoc::Object(entries) => {
            assert_eq!(entries.len(), 3);
            assert_eq!(entries[0].0, "a");
            match &entries[0].1 {
                JsonDoc::Array(items) => {
                    assert_eq!(items.len(), 5);
                    assert!(matches!(&items[0], JsonDoc::Number(t, false) if t == "1"));
                    assert!(matches!(&items[1], JsonDoc::Number(t, true) if t == "-2.5e3"));
                    assert!(matches!(&items[2], JsonDoc::Str(s) if s == "x\n"));
                    assert!(matches!(&items[3], JsonDoc::Bool(true)));
                    assert!(matches!(&items[4], JsonDoc::Null));
                }
                other => panic!("unexpected {other:?}"),
            }
            assert!(matches!(&entries[1].1, JsonDoc::Object(e) if e.is_empty()));
            assert!(matches!(&entries[2].1, JsonDoc::Bool(false)));
        }
        other => panic!("unexpected {other:?}"),
    }
    assert!(matches!(doc("[1,]"), JsonDoc::Array(items) if items.len() == 1));
}

#[test]
fn malformed_documents_are_refused_with_their_reason() {
    let err = |t: &str| parse_document(t).err().expect("refused").to_string();
    assert_eq!(err(""), "unexpected end of input");
    assert_eq!(err("nul"), "invalid literal: expected null");
    assert_eq!(err("tru e"), "invalid literal: expected true");
    assert_eq!(err("[1 2]"), "expected ',', found '2'");
    assert_eq!(err("{\"a\" 1}"), "expected ':', found '1'");
    assert_eq!(err("@"), "unexpected character: @");
    assert_eq!(err("1 2"), "unexpected trailing content");
    assert_eq!(err("[1"), "expected ',', found end of input");
}
