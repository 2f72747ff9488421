use std::path::PathBuf;

use claw_runtime::memory_store::{
    index_content_of, is_memory_file_name, parse_memory_frontmatter, truncate_to_lines,
    MemoryStore, MemoryType,
};

#[test]
fn for_workspace_produces_stable_path() {
    let workspace = "/tmp/test-project".to_string();
    let store = MemoryStore::with_dir(
        "/home/user/.claw/projects/abc123/memory".to_string(),
        workspace.clone(),
    );
    assert_eq!(store.workspace_root(), workspace);
    assert_eq!(
        store.memory_dir(),
        "/home/user/.claw/projects/abc123/memory"
    );
}

#[test]
fn index_path_resolves_correctly() {
    let store = MemoryStore::with_dir("/tmp/memory".to_string(), "/tmp/project".to_string());
    assert_eq!(store.index_path(), "/tmp/memory/MEMORY.md");
}

#[test]
fn parse_frontmatter_handles_quoted_values() {
    let content = "---\nname: \"quoted-name\"\ndescription: 'single quoted'\ntype: reference\n---\n";
    let entry = parse_memory_frontmatter(content, PathBuf::from("test.md")).unwrap();
    assert_eq!(entry.name, "quoted-name");
    assert_eq!(entry.description, "single quoted");
    assert_eq!(entry.memory_type, MemoryType::Reference);
}

#[test]
fn parse_frontmatter_unknown_type() {
    let content = "---\nname: test\ndescription: desc\ntype: weird\n---\n";
    let entry = parse_memory_frontmatter(content, PathBuf::from("test.md")).unwrap();
    assert_eq!(entry.memory_type, MemoryType::Unknown);
}

#[test]
fn parse_frontmatter_missing_type_defaults_to_unknown() {
    let content = "---\nname: test\ndescription: desc\n---\n";
    let entry = parse_memory_frontmatter(content, PathBuf::from("test.md")).unwrap();
    assert_eq!(entry.memory_type, MemoryType::Unknown);
}

#[test]
fn parse_frontmatter_requires_a_name_and_an_opening_fence() {
    assert!(parse_memory_frontmatter("no frontmatter here", PathBuf::from("a.md")).is_none());
    assert!(parse_memory_frontmatter("---\ndescription: d\n---\n", PathBuf::from("a.md")).is_none());
    let entry = parse_memory_frontmatter("---\nname: n\n---\n", PathBuf::from("a.md")).unwrap();
    assert_eq!(entry.name, "n");
    assert_eq!(entry.description, "");
    assert_eq!(entry.path, PathBuf::from("a.md"));
}

#[test]
fn memory_type_roundtrip() {
    for mt in [
        MemoryType::User,
        MemoryType::Feedback,
        MemoryType::Project,
        MemoryType::Reference,
    ] {
        assert_eq!(MemoryType::from_str(mt.as_str()), mt);
    }
}

#[test]
fn truncate_to_lines_no_op_when_under_limit() {
    let content = "line1\nline2\nline3";
    assert_eq!(truncate_to_lines(content, 10), content);
}

#[test]
fn truncate_to_lines_exact_limit() {
    let content = "a\nb\nc";
    assert_eq!(truncate_to_lines(content, 3), content);
}

#[test]
fn truncate_to_lines_adds_a_notice() {
    assert_eq!(
        truncate_to_lines("a\nb\nc\nd", 2),
        "a\nb\n\n[... 2 more lines truncated]"
    );
}

#[test]
fn index_content_is_none_when_blank() {
    assert_eq!(index_content_of("  \n "), None);
    assert_eq!(index_content_of("- entry"), Some("- entry".to_string()));
}

#[test]
fn memory_file_names_exclude_the_index() {
    assert!(is_memory_file_name(Some("md"), Some("user_role.md")));
    assert!(is_memory_file_name(Some("MD"), Some("notes.MD")));
    assert!(!is_memory_file_name(Some("md"), Some("MEMORY.md")));
    assert!(!is_memory_file_name(Some("md"), Some("memory.md")));
    assert!(!is_memory_file_name(Some("txt"), Some("notes.txt")));
    assert!(!is_memory_file_name(None, Some("README")));
}
