use claw_runtime::g004_conformance::{
    get_path, is_g004_contract_bundle_valid, validate_g004_contract_bundle,
};
use claw_runtime::json_node::{pointer, JsonNode};
use serde_json::Value;

fn node(value: &Value) -> JsonNode {
    match value {
        Value::Null => JsonNode::Null,
        Value::Bool(b) => JsonNode::Bool(*b),
        Value::Number(n) => JsonNode::Number(n.as_u64()),
        Value::String(s) => JsonNode::Str(s.clone()),
        Value::Array(items) => JsonNode::Array(items.iter().map(node).collect()),
        Value::Object(map) => JsonNode::Object(map.iter().map(|(k, v)| (k.clone(), node(v))).collect()),
    }
}

fn parse(text: &str) -> JsonNode {
    node(&serde_json::from_str::<Value>(text).unwrap())
}

const VALID: &str = r#"{
  "schemaVersion": "g004.contract.bundle.v1",
  "laneEvents": [
    {"event": "lane.started", "status": "running", "emittedAt": "t1",
     "metadata": {"provenance": "ci", "emitterIdentity": "bot", "environmentLabel": "prod", "seq": 1}},
    {"event": "lane.finished", "status": "done", "emittedAt": "t2",
     "metadata": {"provenance": "ci", "emitterIdentity": "bot", "environmentLabel": "prod", "seq": 2,
                  "eventFingerprint": "fp"}}
  ],
  "reports": [
    {"schemaVersion": "g004.report.v1", "reportId": "r1",
     "identity": {"contentHash": "h"}, "projection": {"provenance": "p"},
     "redaction": {"provenance": "q"}, "consumerCapabilities": ["x"],
     "findings": [{"kind": "fact", "confidence": "high", "statement": "s"}],
     "fieldDeltas": [{"field": "f", "previousHash": "a", "currentHash": "b", "attribution": "c"}]}
  ],
  "approvalTokens": [
    {"tokenId": "t", "owner": "o", "scope": "s", "issuedAt": "i", "oneTimeUse": true,
     "replayPreventionNonce": "n",
     "delegationChain": [{"from": "a", "to": "b", "action": "c", "at": "d"}]}
  ]
}"#;

#[test]
fn a_complete_bundle_is_valid() {
    let bundle = parse(VALID);
    assert!(validate_g004_contract_bundle(&bundle).is_empty());
    assert!(is_g004_contract_bundle_valid(&bundle));
}

#[test]
fn an_empty_object_reports_every_missing_section() {
    let errors = validate_g004_contract_bundle(&parse("{}"));
    let found: Vec<(String, String)> = errors.into_iter().map(|e| (e.path, e.message)).collect();
    assert_eq!(
        found,
        vec![
            ("/schemaVersion".to_string(), "required string field missing".to_string()),
            ("/laneEvents".to_string(), "required array field missing".to_string()),
            ("/reports".to_string(), "required array field missing".to_string()),
            ("/approvalTokens".to_string(), "required array field missing".to_string()),
        ]
    );
}

#[test]
fn specific_failures_are_reported_with_their_paths() {
    let text = VALID
        .replace("\"seq\": 2", "\"seq\": 1")
        .replace("\"confidence\": \"high\"", "\"confidence\": \"certain\"")
        .replace("\"oneTimeUse\": true", "\"oneTimeUse\": false")
        .replace("\"g004.report.v1\"", "\"g004.report.v0\"")
        .replace("\"consumerCapabilities\": [\"x\"]", "\"consumerCapabilities\": []");
    let errors = validate_g004_contract_bundle(&parse(&text));
    let found: Vec<(String, String)> = errors.into_iter().map(|e| (e.path, e.message)).collect();
    assert_eq!(
        found,
        vec![
            ("/laneEvents/1/metadata/seq".to_string(), "sequence must be strictly increasing".to_string()),
            (
                "/reports/0/schemaVersion".to_string(),
                "expected 'g004.report.v1', got 'g004.report.v0'".to_string()
            ),
            ("/reports/0/consumerCapabilities".to_string(), "array must not be empty".to_string()),
            (
                "/reports/0/findings/0/confidence".to_string(),
                "'certain' is not one of low, medium, high".to_string()
            ),
            ("/approvalTokens/0/oneTimeUse".to_string(), "must be true".to_string()),
        ]
    );
}

#[test]
fn terminal_events_need_a_fingerprint() {
    let text = VALID.replace(",\n                  \"eventFingerprint\": \"fp\"", "");
    let errors = validate_g004_contract_bundle(&parse(&text));
    assert_eq!(errors.len(), 1);
    assert_eq!(errors[0].path, "/laneEvents/1/metadata/eventFingerprint");
    assert_eq!(errors[0].message, "required string field missing");
}

#[test]
fn fields_are_found_by_pointer_or_by_suffix() {
    let doc = parse(r#"{"metadata": {"seq": 7}, "seq": 9, "a~b": {"c/d": 1}, "list": [10, 11]}"#);
    assert_eq!(pointer(&doc, "/metadata/seq").and_then(|v| v.as_u64()), Some(7));
    assert_eq!(pointer(&doc, "/a~0b/c~1d").and_then(|v| v.as_u64()), Some(1));
    assert_eq!(pointer(&doc, "/list/1").and_then(|v| v.as_u64()), Some(11));
    assert!(pointer(&doc, "/list/01").is_none());
    assert!(pointer(&doc, "metadata").is_none());
    let flat = parse(r#"{"seq": 9}"#);
    assert_eq!(get_path(&flat, "/metadata/seq").and_then(|v| v.as_u64()), Some(9));
}
