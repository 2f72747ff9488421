use claw_runtime::bash_job_object::{apply_job_object_to_pid, kill_pid};
use claw_runtime::file_ops::{
    apply_limit, byte_len, check_write_size, content_checksum, make_patch, plan_edit,
    preview_for, strip_file_url, syntax_from_json, syntax_from_toml, text_file_payload,
    validate_syntax, write_file_output, EditRefusal, SyntaxCheck, MAX_WRITE_SIZE,
    expand_braces, expand_env_vars, glob_matchers, grep_args, grep_mode, newest_first_order,
    read_grep_counts, read_grep_lines, select_glob_matches, sort_dedup, GrepMode, GrepSearchInput,
    GlobMatcher, patch_line_count, StructuredPatchHunk,
};
use claw_runtime::g004_conformance::G004ConformanceError;

#[test]
fn preview_for_handles_empty_and_small_and_oversized() {
    assert_eq!(preview_for(""), None);
    assert_eq!(preview_for("hi"), Some("hi".to_owned()));
    let big = "x".repeat(5_000);
    let clipped = preview_for(&big).expect("non-empty");
    assert!(clipped.contains("[truncated"));
    assert!(clipped.len() < big.len());
    assert_eq!(
        clipped,
        format!("{}\n\u{2026}[truncated, full content written to file]", "x".repeat(2048))
    );
}

#[test]
fn preview_cuts_on_a_character_boundary() {
    let content = format!("{}é", "a".repeat(2047));
    let clipped = preview_for(&content).unwrap();
    assert!(clipped.starts_with(&"a".repeat(2047)));
    assert!(!clipped.contains('é'));
    assert_eq!(preview_for(&"a".repeat(2048)), Some("a".repeat(2048)));
}

#[test]
fn byte_length_counts_utf8_bytes() {
    assert_eq!(byte_len("aé€😀"), 1 + 2 + 3 + 4);
}

#[test]
fn strip_file_url_handles_unix_and_drive_paths() {
    assert_eq!(strip_file_url("file:///tmp/a.rs"), "/tmp/a.rs");
    assert_eq!(strip_file_url("file:///C:/work/a.rs"), "C:/work/a.rs");
    assert_eq!(strip_file_url("file://relative"), "relative");
    assert_eq!(strip_file_url("/plain/path"), "/plain/path");
    assert_eq!(strip_file_url("file://"), "");
}

#[test]
fn apply_limit_pages_results() {
    let items: Vec<u32> = (0..10).collect();
    assert_eq!(apply_limit(items.clone(), Some(3), Some(2)), (vec![2, 3, 4], Some(3), Some(2)));
    assert_eq!(apply_limit(items.clone(), Some(0), None), (items.clone(), None, None));
    assert_eq!(apply_limit(items.clone(), None, Some(20)), (vec![], None, Some(20)));
    assert_eq!(apply_limit(items.clone(), Some(10), None), (items, None, None));
}

#[test]
fn make_patch_marks_removed_and_added_lines() {
    let patch = make_patch("a\nb", "a\nc\nd");
    assert_eq!(patch.len(), 1);
    assert_eq!(patch[0].old_start, 1);
    assert_eq!(patch[0].old_lines, 2);
    assert_eq!(patch[0].new_lines, 3);
    assert_eq!(patch[0].lines, vec!["-a", "-b", "+a", "+c", "+d"]);
}

#[test]
fn checksum_is_the_padded_xxh3_of_the_bytes() {
    let expected = format!("{:016x}", xxhash_rust::xxh3::xxh3_64("hello".as_bytes()));
    assert_eq!(content_checksum("hello"), expected);
    assert_eq!(content_checksum("hello").len(), 16);
    assert_ne!(content_checksum("hello"), content_checksum("hellp"));
}

#[test]
fn read_payload_selects_the_window() {
    let payload = text_file_payload("a.txt".to_string(), "l1\nl2\nl3\nl4", Some(1), Some(2), None);
    assert_eq!(payload.content.as_deref(), Some("l2\nl3"));
    assert_eq!(payload.bytes_read, 5);
    assert_eq!(payload.num_lines, 2);
    assert_eq!(payload.start_line, 2);
    assert_eq!(payload.total_lines, 4);
    assert_eq!(payload.checksum, content_checksum("l1\nl2\nl3\nl4"));

    let light = text_file_payload("a.txt".to_string(), "l1\nl2", Some(9), None, Some(false));
    assert_eq!(light.content, None);
    assert_eq!(light.num_lines, 0);
    assert_eq!(light.start_line, 3);
}

#[test]
fn write_output_reports_kind_sizes_and_preview() {
    let out = write_file_output("a.txt".to_string(), "alpha\nbeta\ngamma", false, SyntaxCheck::Skipped);
    assert_eq!(out.kind, "create");
    assert_eq!(out.bytes_written, 16);
    assert_eq!(out.lines_written, 3);
    let preview = out.content_preview.as_deref().unwrap();
    assert!(preview.contains("alpha") && preview.contains("gamma"));

    let large = "a".repeat(8_000);
    let out = write_file_output("b.txt".to_string(), &large, true, SyntaxCheck::Valid);
    assert_eq!(out.kind, "overwrite");
    assert!(out.content_preview.is_none());
    assert_eq!(out.syntax, Some(SyntaxCheck::Valid));
}

#[test]
fn oversized_writes_are_refused() {
    assert!(check_write_size("small").is_ok());
    let huge = "a".repeat(MAX_WRITE_SIZE + 1);
    assert_eq!(
        check_write_size(&huge),
        Err(format!(
            "content is too large ({} bytes, max {} bytes)",
            MAX_WRITE_SIZE + 1,
            MAX_WRITE_SIZE
        ))
    );
}

#[test]
fn edit_plan_replaces_first_or_every_match() {
    let plan = plan_edit("first\nsecond\nthird", "second", "SECOND-EDITED", false, None).unwrap();
    assert_eq!(plan.updated, "first\nSECOND-EDITED\nthird");
    assert_eq!(plan.occurrences, 1);

    let plan = plan_edit("a-a-a", "a", "b", true, None).unwrap();
    assert_eq!(plan.updated, "b-b-b");
    assert_eq!(plan.occurrences, 3);

    let plan = plan_edit("a-a-a", "a", "b", false, None).unwrap();
    assert_eq!(plan.updated, "b-a-a");
}

#[test]
fn edit_plan_matches_across_crlf_line_endings() {
    let plan = plan_edit("first\r\nsecond\r\nthird\r\n", "second", "SECOND", false, None).unwrap();
    assert_eq!(plan.original, "first\nsecond\nthird\n");
    assert_eq!(plan.updated, "first\nSECOND\nthird\n");
}

#[test]
fn edit_plan_refusals() {
    assert_eq!(plan_edit("abc", "b", "b", false, None), Err(EditRefusal::Unchanged));
    let missing = plan_edit("one\ntwo", "zzz", "y", false, None);
    assert_eq!(
        missing,
        Err(EditRefusal::NotFound {
            message: "old_string not found in file (2 lines). The file may have been modified since you last read it. Last 5 lines of the file:\n---\none\ntwo\n---\nPlease call read_file to see the current content before retrying.".to_string()
        })
    );
    let mismatch = plan_edit("abc", "b", "c", false, Some("0000000000000000"));
    assert!(matches!(mismatch, Err(EditRefusal::ChecksumMismatch { .. })));
    let good = content_checksum("abc");
    assert!(plan_edit("abc", "b", "c", false, Some(&good)).is_ok());
}

#[test]
fn empty_pattern_edits_follow_str_semantics() {
    let plan = plan_edit("ab", "", "X", true, None).unwrap();
    assert_eq!(plan.updated, "ab".replace("", "X"));
    assert_eq!(plan.occurrences, 3);
    let plan = plan_edit("ab", "", "X", false, None).unwrap();
    assert_eq!(plan.updated, "ab".replacen("", "X", 1));
}

#[test]
fn syntax_checks_follow_the_extension() {
    assert_eq!(validate_syntax("a.json", "{\"a\":1}"), SyntaxCheck::Valid);
    assert!(matches!(
        validate_syntax("a.json", "{\"a\":"),
        SyntaxCheck::Invalid { line: Some(1), .. }
    ));
    assert_eq!(validate_syntax("a.toml", "a = 1"), SyntaxCheck::Valid);
    assert!(matches!(
        validate_syntax("a.toml", "a = "),
        SyntaxCheck::Invalid { line: None, .. }
    ));
    assert_eq!(validate_syntax("a.rs", "fn"), SyntaxCheck::Skipped);
    assert_eq!(validate_syntax("Makefile", "x"), SyntaxCheck::Skipped);
    assert_eq!(syntax_from_json(None), SyntaxCheck::Valid);
    assert_eq!(
        syntax_from_toml(Some("bad".to_string())),
        SyntaxCheck::Invalid { message: "bad".to_string(), line: None }
    );
}

#[test]
fn job_objects_are_a_no_op_here() {
    assert_eq!(apply_job_object_to_pid(1234, true, "test"), Ok(()));
    kill_pid(1234);
}

#[test]
fn conformance_errors_carry_path_and_message() {
    let e = G004ConformanceError::new("/laneEvents", "array must not be empty");
    assert_eq!(e.path, "/laneEvents");
    assert_eq!(e.message, "array must not be empty");
}


fn env(pairs: &[(&str, &str)]) -> Vec<(String, String)> {
    pairs.iter().map(|(k, v)| (k.to_string(), v.to_string())).collect()
}

#[test]
fn env_vars_expand_in_both_forms() {
    let vars = env(&[("HOME", "/home/me"), ("X", "1"), ("X", "2")]);
    assert_eq!(expand_env_vars("%HOME%/a", &vars), "/home/me/a");
    assert_eq!(expand_env_vars("${HOME}/b/${X}", &vars), "/home/me/b/1");
    assert_eq!(expand_env_vars("%MISSING%/${NOPE}", &vars), "%MISSING%/${NOPE}");
    assert_eq!(expand_env_vars("50% off ${HOME", &vars), "50% off ${HOME");
    assert_eq!(expand_env_vars("$HOME and $", &vars), "$HOME and $");
    assert_eq!(expand_env_vars("%%", &vars), "%%");
    assert_eq!(expand_env_vars("", &vars), "");
}

fn chars(s: &str) -> Vec<char> {
    s.chars().collect()
}

fn texts(v: Vec<Vec<char>>) -> Vec<String> {
    v.into_iter().map(|c| c.into_iter().collect()).collect()
}

#[test]
fn brace_groups_expand_in_order() {
    assert_eq!(texts(expand_braces(&chars("*.rs"))), vec!["*.rs"]);
    assert_eq!(texts(expand_braces(&chars("src/*.{rs,toml}"))), vec!["src/*.rs", "src/*.toml"]);
    assert_eq!(
        texts(expand_braces(&chars("{a,b}/{c,d}"))),
        vec!["a/c", "a/d", "b/c", "b/d"]
    );
    assert_eq!(texts(expand_braces(&chars("x{,}y"))), vec!["x{,}y"]);
    assert_eq!(texts(expand_braces(&chars("x{a,,b}"))), vec!["xa", "xb"]);
    assert_eq!(texts(expand_braces(&chars("open{only"))), vec!["open{only"]);
}

#[test]
fn glob_listing_keeps_matching_lines() {
    let matchers = glob_matchers("src\\*.{rs,md}").expect("valid pattern");
    let listing = "src/a.rs\r\nsrc/b.txt\n\nREADME.md\nsrc\\c.md\n";
    assert_eq!(select_glob_matches(listing, &matchers), vec!["src/a.rs", "src\\c.md"]);
    let err = glob_matchers("[").err().expect("unclosed class");
    assert!(err.starts_with("invalid glob pattern: invalid glob pattern `[`: "), "{err}");
    assert!(GlobMatcher::new("**/*.rs").unwrap().matches("a/b/c.rs"));
}

#[test]
fn newest_files_come_first_unknown_times_before_them() {
    let times = vec![Some(10), None, Some(30), Some(10), None, Some(-5)];
    assert_eq!(newest_first_order(&times), vec![1, 4, 2, 0, 3, 5]);
    assert!(newest_first_order(&Vec::new()).is_empty());
}

fn grep_input(mode: Option<&str>) -> GrepSearchInput {
    GrepSearchInput {
        pattern: "fn main".to_string(),
        path: None,
        glob: None,
        output_mode: mode.map(str::to_string),
        before: None,
        after: None,
        context_short: None,
        context: None,
        line_numbers: None,
        case_insensitive: None,
        file_type: None,
        head_limit: None,
        offset: None,
        multiline: None,
    }
}

#[test]
fn grep_arguments_follow_the_mode() {
    let base = ["--no-heading", "--color", "never", "--line-number", "--with-filename"];
    let mut expected: Vec<&str> = base.to_vec();
    expected.extend(["--files-with-matches", "--", "fn main"]);
    assert_eq!(grep_args(&grep_input(None)), expected);

    let mut input = grep_input(Some("content"));
    input.context = Some(2);
    input.after = Some(0);
    input.case_insensitive = Some(true);
    input.glob = Some("*.rs".into());
    input.file_type = Some("rust".into());
    let mut expected: Vec<&str> = base.to_vec();
    expected.extend(["--ignore-case", "-B", "2", "-A", "0", "--glob", "*.rs", "--type", "rust", "--", "fn main"]);
    assert_eq!(grep_args(&input), expected);

    let mut input = grep_input(Some("content"));
    input.multiline = Some(true);
    let mut expected: Vec<&str> = base.to_vec();
    expected.extend(["--multiline", "--", "fn main"]);
    assert_eq!(grep_args(&input), expected);

    assert_eq!(grep_mode(&grep_input(Some("count"))), GrepMode::Count);
    assert_eq!(grep_mode(&grep_input(Some("other"))), GrepMode::FilesWithMatches);
    let mut expected: Vec<&str> = base.to_vec();
    expected.extend(["--count-matches", "--", "fn main"]);
    assert_eq!(grep_args(&grep_input(Some("count"))), expected);
}

#[test]
fn grep_output_is_read_per_mode() {
    let (paths, total) = read_grep_counts("src/a.rs:3\nsrc/b:c.rs:2\nnoise\nx:y\n");
    assert_eq!(paths, vec!["src/a.rs", "src/b:c.rs"]);
    assert_eq!(total, Some(5));
    let (paths, total) = read_grep_counts("a:18446744073709551615\nb:1\n");
    assert_eq!(paths, vec!["a", "b"]);
    assert_eq!(total, None);

    let (lines, paths) = read_grep_lines("src/a.rs:1:fn main() {}\n\nsrc/b.rs-2-context\n");
    assert_eq!(lines, vec!["src/a.rs:1:fn main() {}", "src/b.rs-2-context"]);
    assert_eq!(paths, vec!["src/a.rs", "src/b.rs-2-context"]);
}

#[test]
fn sort_dedup_sorts_and_removes_repeats() {
    let items = vec!["b".to_string(), "a".to_string(), "b".to_string(), "ab".to_string(), "é".to_string()];
    assert_eq!(sort_dedup(items), vec!["a", "ab", "b", "é"]);
    assert!(sort_dedup(Vec::new()).is_empty());
}

#[test]
fn patch_line_count_sums_every_hunk() {
    let hunk = |n: usize| StructuredPatchHunk {
        old_start: 1,
        old_lines: n,
        new_start: 1,
        new_lines: n,
        lines: vec!["-x".to_string(); n],
    };
    assert_eq!(patch_line_count(&vec![hunk(2), hunk(3), hunk(0)]), 5);
    assert_eq!(patch_line_count(&Vec::new()), 0);
    assert_eq!(patch_line_count(&make_patch("a\nb\n", "a\nc\n")), make_patch("a\nb\n", "a\nc\n")[0].lines.len());
}
