use claw_runtime::permissions::{
    extract_permission_subject, find_first_unescaped, find_last_unescaped,
    is_broad_matcher_warning, PermissionContext, PermissionMode, PermissionOutcome,
    PermissionOverride, PermissionPolicy, PermissionPromptDecision, PermissionPrompter,
    PermissionRequest, PermissionRule, PermissionRuleMatcher, RuleList,
    RuntimePermissionRuleConfig,
};

struct RecordingPrompter {
    seen: Vec<PermissionRequest>,
    allow: bool,
}

impl PermissionPrompter for RecordingPrompter {
    fn decide(&mut self, request: &PermissionRequest) -> PermissionPromptDecision {
        self.seen.push(request.clone());
        if self.allow {
            PermissionPromptDecision::Allow
        } else {
            PermissionPromptDecision::Deny {
                reason: "not now".to_string(),
            }
        }
    }
}

#[test]
fn allows_tools_when_active_mode_meets_requirement() {
    let policy = PermissionPolicy::new(PermissionMode::WorkspaceWrite)
        .with_tool_requirement("read_file", PermissionMode::ReadOnly)
        .with_tool_requirement("new_file", PermissionMode::WorkspaceWrite);
    assert_eq!(policy.authorize("read_file", "{}", None), PermissionOutcome::Allow);
    assert_eq!(policy.authorize("new_file", "{}", None), PermissionOutcome::Allow);
}

#[test]
fn denies_read_only_escalations_without_prompt() {
    let policy = PermissionPolicy::new(PermissionMode::ReadOnly)
        .with_tool_requirement("new_file", PermissionMode::WorkspaceWrite)
        .with_tool_requirement("bash", PermissionMode::DangerFullAccess);
    assert!(matches!(
        policy.authorize("new_file", "{}", None),
        PermissionOutcome::Deny { reason } if reason.contains("requires workspace-write permission")
    ));
    assert!(matches!(
        policy.authorize("bash", "{}", None),
        PermissionOutcome::Deny { reason } if reason.contains("requires danger-full-access permission")
    ));
}

#[test]
fn prompts_for_workspace_write_to_danger_full_access_escalation() {
    let policy = PermissionPolicy::new(PermissionMode::WorkspaceWrite)
        .with_tool_requirement("bash", PermissionMode::DangerFullAccess);
    let mut prompter = RecordingPrompter { seen: Vec::new(), allow: true };
    let outcome = policy.authorize("bash", "echo hi", Some(&mut prompter));
    assert_eq!(outcome, PermissionOutcome::Allow);
    assert_eq!(prompter.seen.len(), 1);
    assert_eq!(prompter.seen[0].tool_name, "bash");
    assert_eq!(prompter.seen[0].current_mode, PermissionMode::WorkspaceWrite);
    assert_eq!(prompter.seen[0].required_mode, PermissionMode::DangerFullAccess);
}

#[test]
fn honors_prompt_rejection_reason() {
    let policy = PermissionPolicy::new(PermissionMode::WorkspaceWrite)
        .with_tool_requirement("bash", PermissionMode::DangerFullAccess);
    let mut prompter = RecordingPrompter { seen: Vec::new(), allow: false };
    assert!(matches!(
        policy.authorize("bash", "echo hi", Some(&mut prompter)),
        PermissionOutcome::Deny { reason } if reason == "not now"
    ));
}

#[test]
fn applies_rule_based_denials_and_allows() {
    let rules = RuntimePermissionRuleConfig::new(
        vec!["bash(git:*)".to_string()],
        vec!["bash(rm -rf:*)".to_string()],
        Vec::new(),
    );
    let policy = PermissionPolicy::new(PermissionMode::ReadOnly)
        .with_tool_requirement("bash", PermissionMode::DangerFullAccess)
        .with_permission_rules(&rules);
    assert_eq!(
        policy.authorize("bash", r#"{"command":"git status"}"#, None),
        PermissionOutcome::Allow
    );
    assert!(matches!(
        policy.authorize("bash", r#"{"command":"rm -rf /tmp/x"}"#, None),
        PermissionOutcome::Deny { reason } if reason.contains("denied by rule")
    ));
}

#[test]
fn ask_rules_force_prompt_even_when_mode_allows() {
    let rules =
        RuntimePermissionRuleConfig::new(Vec::new(), Vec::new(), vec!["bash(git:*)".to_string()]);
    let policy = PermissionPolicy::new(PermissionMode::DangerFullAccess)
        .with_tool_requirement("bash", PermissionMode::DangerFullAccess)
        .with_permission_rules(&rules);
    let mut prompter = RecordingPrompter { seen: Vec::new(), allow: true };
    let outcome = policy.authorize("bash", r#"{"command":"git status"}"#, Some(&mut prompter));
    assert_eq!(outcome, PermissionOutcome::Allow);
    assert_eq!(prompter.seen.len(), 1);
    assert!(prompter.seen[0]
        .reason
        .as_deref()
        .is_some_and(|reason| reason.contains("ask rule")));
}

#[test]
fn hook_allow_still_respects_ask_rules() {
    let rules =
        RuntimePermissionRuleConfig::new(Vec::new(), Vec::new(), vec!["bash(git:*)".to_string()]);
    let policy = PermissionPolicy::new(PermissionMode::ReadOnly)
        .with_tool_requirement("bash", PermissionMode::DangerFullAccess)
        .with_permission_rules(&rules);
    let context =
        PermissionContext::new(Some(PermissionOverride::Allow), Some("hook approved".to_string()));
    let mut prompter = RecordingPrompter { seen: Vec::new(), allow: true };
    let outcome = policy.authorize_with_context(
        "bash",
        r#"{"command":"git status"}"#,
        &context,
        Some(&mut prompter),
    );
    assert_eq!(outcome, PermissionOutcome::Allow);
    assert_eq!(prompter.seen.len(), 1);
}

#[test]
fn hook_allow_respects_override_even_when_mode_insufficient() {
    let policy = PermissionPolicy::new(PermissionMode::ReadOnly)
        .with_tool_requirement("bash", PermissionMode::DangerFullAccess);
    let context =
        PermissionContext::new(Some(PermissionOverride::Allow), Some("hook approved".to_string()));
    assert_eq!(
        policy.authorize_with_context("bash", "{}", &context, None),
        PermissionOutcome::Allow
    );
}

#[test]
fn hook_deny_short_circuits_permission_flow() {
    let policy = PermissionPolicy::new(PermissionMode::DangerFullAccess)
        .with_tool_requirement("bash", PermissionMode::DangerFullAccess);
    let context =
        PermissionContext::new(Some(PermissionOverride::Deny), Some("blocked by hook".to_string()));
    assert_eq!(
        policy.authorize_with_context("bash", "{}", &context, None),
        PermissionOutcome::Deny {
            reason: "blocked by hook".to_string(),
        }
    );
}

#[test]
fn hook_ask_forces_prompt() {
    let policy = PermissionPolicy::new(PermissionMode::DangerFullAccess)
        .with_tool_requirement("bash", PermissionMode::DangerFullAccess);
    let context = PermissionContext::new(
        Some(PermissionOverride::Ask),
        Some("hook requested confirmation".to_string()),
    );
    let mut prompter = RecordingPrompter { seen: Vec::new(), allow: true };
    let outcome = policy.authorize_with_context("bash", "{}", &context, Some(&mut prompter));
    assert_eq!(outcome, PermissionOutcome::Allow);
    assert_eq!(prompter.seen.len(), 1);
    assert_eq!(
        prompter.seen[0].reason.as_deref(),
        Some("hook requested confirmation")
    );
}

#[test]
fn rule_parse_empty_parens_matches_all() {
    let rule = PermissionRule::parse_with_warning("bash()", RuleList::Allow).0;
    assert_eq!(rule.tool_name, "bash");
    assert_eq!(rule.matcher, PermissionRuleMatcher::Any);
}

#[test]
fn rule_parse_malformed_no_close_paren_uses_exact_fallback() {
    let rule = PermissionRule::parse_with_warning("bash(rm -rf /", RuleList::Allow).0;
    assert_eq!(rule.tool_name, "bash(rm -rf /");
    assert_eq!(rule.matcher, PermissionRuleMatcher::Exact("bash(rm -rf /".into()));
}

#[test]
fn rule_parse_malformed_no_close_paren_never_matches_bash() {
    let rules =
        RuntimePermissionRuleConfig::new(Vec::new(), vec!["bash(rm -rf /".to_string()], Vec::new());
    let policy = PermissionPolicy::new(PermissionMode::DangerFullAccess)
        .with_tool_requirement("bash", PermissionMode::DangerFullAccess)
        .with_permission_rules(&rules);
    assert_eq!(
        policy.authorize("bash", r#"{"command":"rm -rf /tmp"}"#, None),
        PermissionOutcome::Allow
    );
}

#[test]
fn rule_parse_bare_close_paren_uses_exact_fallback() {
    let rule = PermissionRule::parse_with_warning("bash)", RuleList::Allow).0;
    assert_eq!(rule.tool_name, "bash)");
    assert_eq!(rule.matcher, PermissionRuleMatcher::Exact("bash)".into()));
}

#[test]
fn subject_extraction_uses_the_tool_key() {
    assert_eq!(
        extract_permission_subject(r#"{"command":"git status"}"#, "bash"),
        Some("git status".into())
    );
    assert_eq!(
        extract_permission_subject(r#"{"path":"/tmp/foo.txt"}"#, "write"),
        Some("/tmp/foo.txt".into())
    );
    assert_eq!(
        extract_permission_subject(r#"{"pattern":"**/*.rs"}"#, "glob_search"),
        Some("**/*.rs".into())
    );
    assert_eq!(
        extract_permission_subject(r#"{"url":"https://example.com"}"#, "WebFetch"),
        Some("https://example.com".into())
    );
    assert_eq!(
        extract_permission_subject(r#"{"query":"rust lang"}"#, "WebSearch"),
        Some("rust lang".into())
    );
    assert_eq!(
        extract_permission_subject(r#"{"question":"What is your name?"}"#, "Question"),
        Some("What is your name?".into())
    );
    assert_eq!(
        extract_permission_subject(r#"{"path":"/etc/passwd"}"#, "custom_tool"),
        Some("/etc/passwd".into())
    );
    assert_eq!(
        extract_permission_subject(r#"{"file_path":"/etc/passwd"}"#, "custom_tool"),
        None
    );
    assert_eq!(
        extract_permission_subject(r#"{"file_path":"/tmp/foo.txt"}"#, "bash"),
        None
    );
    assert_eq!(extract_permission_subject("not json", "bash"), None);
}

#[test]
fn deny_rule_write_matches_by_file_path() {
    let rules = RuntimePermissionRuleConfig::new(
        Vec::new(),
        vec!["write(/etc/shadow)".to_string()],
        Vec::new(),
    );
    let policy = PermissionPolicy::new(PermissionMode::DangerFullAccess)
        .with_tool_requirement("new_file", PermissionMode::DangerFullAccess)
        .with_permission_rules(&rules);
    assert_eq!(
        policy.authorize("new_file", r#"{"path":"/etc/shadow"}"#, None),
        PermissionOutcome::Deny {
            reason: "Permission to use new_file has been denied by rule 'write(/etc/shadow)'"
                .into()
        }
    );
}

#[test]
fn tool_name_normalization_read_matches_read_file() {
    let rules =
        RuntimePermissionRuleConfig::new(vec!["Read(*)".to_string()], Vec::new(), Vec::new());
    let policy = PermissionPolicy::new(PermissionMode::DangerFullAccess)
        .with_tool_requirement("read_file", PermissionMode::ReadOnly)
        .with_permission_rules(&rules);
    assert_eq!(
        policy.authorize("read_file", r#"{"path":"/workspace/file.txt"}"#, None),
        PermissionOutcome::Allow
    );
}

#[test]
fn find_first_unescaped_basic() {
    assert_eq!(find_first_unescaped("a(b)c", '('), Some(1));
    assert_eq!(find_first_unescaped("abc", '('), None);
    assert_eq!(find_first_unescaped(r"a\(b(c", '('), Some(4));
    assert_eq!(find_first_unescaped(r"a\(b)c", '('), None);
}

#[test]
fn find_last_unescaped_basic() {
    assert_eq!(find_last_unescaped("a(b)c", ')'), Some(3));
    assert_eq!(find_last_unescaped("abc", ')'), None);
    assert_eq!(find_last_unescaped(r"a(b\)c)", ')'), Some(6));
}

#[test]
fn find_last_unescaped_all_backslashes_does_not_hang() {
    let value: String = std::iter::repeat('\\').take(10_000).collect();
    let result = find_last_unescaped(&value, ')');
    assert_eq!(result, None);
}

#[test]
fn find_last_unescaped_matches_first_unescaped_semantics() {
    let cases = [
        "()",
        r"\()",
        r"(\)",
        r"\\()",
        r"\\(\)",
        r"a(b)c",
        r"a\(b\)c",
        "))",
    ];
    for value in cases {
        let first = find_first_unescaped(value, ')');
        let last = find_last_unescaped(value, ')');
        match (first, last) {
            (Some(f), Some(l)) => assert!(f <= l, "first={f} > last={l} for {value:?}"),
            (None, None) => {}
            (Some(f), None) => panic!("first={f} but last=None for {value:?}"),
            (None, Some(l)) => panic!("last={l} but first=None for {value:?}"),
        }
    }
}

#[test]
fn parse_warnings_name_the_list_and_the_raw_tool() {
    let (_, warnings) = PermissionRule::parse_with_warning("Bash()", RuleList::Allow);
    assert_eq!(warnings.len(), 1);
    assert!(warnings[0].contains("allow list"));
    assert!(warnings[0].contains("'Bash'"));
    assert!(warnings[0].contains("empty matcher"));

    let (_, warnings) = PermissionRule::parse_with_warning("Read(*)", RuleList::Allow);
    assert_eq!(warnings.len(), 1);
    assert!(warnings[0].contains("wildcard matcher"));
    assert!(!warnings[0].contains("read_file"));

    let (_, warnings) = PermissionRule::parse_with_warning("Bash(*)", RuleList::Deny);
    assert!(warnings[0].contains("deny list"));

    let (rule, warnings) = PermissionRule::parse_with_warning("Bash(rm -rf /", RuleList::Deny);
    assert_eq!(warnings.len(), 1);
    assert!(warnings[0].contains("'(' but no matching ')'"));
    assert_eq!(rule.tool_name, "Bash(rm -rf /");

    let (_, warnings) = PermissionRule::parse_with_warning("Bash(rm:*)", RuleList::Deny);
    assert!(warnings.is_empty());
}

#[test]
fn tool_name_wildcard_rule_matches_the_family() {
    let (rule, warnings) = PermissionRule::parse_with_warning("mcp__*", RuleList::Allow);
    assert!(warnings.is_empty());
    assert_eq!(rule.tool_name, "mcp__*");
    assert_eq!(rule.matcher, PermissionRuleMatcher::ToolNamePrefix("mcp__".to_string()));
    assert!(rule.matches("mcp__filesystem__read_file", "{}"));
    assert!(!rule.matches("read_file", "{}"));
}

#[test]
fn is_broad_matcher_warning_detects_empty_and_wildcard() {
    assert!(is_broad_matcher_warning(
        "warning: permission rule 'Bash()' in allow list matches ALL 'Bash' tools (empty matcher)."
    ));
    assert!(is_broad_matcher_warning(
        "warning: permission rule 'Bash(*)' in allow list matches ALL 'Bash' tools (wildcard matcher)."
    ));
    assert!(!is_broad_matcher_warning(
        "warning: permission rule 'mcp__*' in allow list uses tool-name wildcard syntax"
    ));
    assert!(!is_broad_matcher_warning(
        "warning: permission rule 'Bash(rm -rf /' in deny list has '(' but no matching ')'"
    ));
}

#[test]
fn modes_are_named_and_ordered() {
    assert_eq!(PermissionMode::ReadOnly.as_str(), "read-only");
    assert_eq!(PermissionMode::DangerFullAccess.as_str(), "danger-full-access");
    assert!(PermissionMode::ReadOnly.level() < PermissionMode::WorkspaceWrite.level());
    let policy = PermissionPolicy::new(PermissionMode::Allow);
    assert_eq!(policy.active_mode(), PermissionMode::Allow);
    assert_eq!(policy.required_mode_for("unknown"), PermissionMode::WorkspaceWrite);
}
