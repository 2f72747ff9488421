//! Permission policy: mode requirements plus allow/deny/ask rules, hook
//! overrides and interactive prompting.
use vstd::prelude::*;

use crate::text::{
    EM_DASH, byte_offset, byte_offset_of, chars_eq, chars_eq_ignore_ascii_case, chars_eq_str, chars_lt, chars_of, contains, contains_char, contains_seq, contains_str, ends_with_str, eq_ignore_ascii_case, is_prefix, is_suffix, lemma_seq_lt_irreflexive, lemma_seq_lt_total, lemma_seq_lt_transitive, owned, push_all, push_str, replace_all, replace_str, seq_lt, slice_to_vec, starts_with, str_eq, string_from_chars, trim, trim_chars, trim_str,
};

verus! {

// ---------------------------------------------------------------------------
// Modes, overrides, context.
// ---------------------------------------------------------------------------

/// Permission level assigned to a tool invocation or runtime session.
#[derive(Debug, Clone, Copy, PartialEq, Eq, PartialOrd, Ord, Hash, Structural)]
pub enum PermissionMode {
    ReadOnly,
    WorkspaceWrite,
    DangerFullAccess,
    Prompt,
    Allow,
}

impl PermissionMode {
    /// Position in the declaration order, which is the order modes compare in.
    pub open spec fn rank(self) -> nat {
        match self {
            PermissionMode::ReadOnly => 0,
            PermissionMode::WorkspaceWrite => 1,
            PermissionMode::DangerFullAccess => 2,
            PermissionMode::Prompt => 3,
            PermissionMode::Allow => 4,
        }
    }

    pub fn level(self) -> (r: u8)
        ensures
            r == self.rank(),
    {
        match self {
            PermissionMode::ReadOnly => 0,
            PermissionMode::WorkspaceWrite => 1,
            PermissionMode::DangerFullAccess => 2,
            PermissionMode::Prompt => 3,
            PermissionMode::Allow => 4,
        }
    }

    pub open spec fn name(self) -> Seq<char> {
        match self {
            PermissionMode::ReadOnly => "read-only"@,
            PermissionMode::WorkspaceWrite => "workspace-write"@,
            PermissionMode::DangerFullAccess => "danger-full-access"@,
            PermissionMode::Prompt => "prompt"@,
            PermissionMode::Allow => "allow"@,
        }
    }

    pub fn as_str(self) -> (r: &'static str)
        ensures
            r@ == self.name(),
    {
        match self {
            PermissionMode::ReadOnly => "read-only",
            PermissionMode::WorkspaceWrite => "workspace-write",
            PermissionMode::DangerFullAccess => "danger-full-access",
            PermissionMode::Prompt => "prompt",
            PermissionMode::Allow => "allow",
        }
    }
}

/// Hook-provided override applied before standard permission evaluation.
#[derive(Debug, Clone, Copy, PartialEq, Eq, Structural)]
pub enum PermissionOverride {
    Allow,
    Deny,
    Ask,
}

/// Additional permission context supplied by hooks or higher-level orchestration.
#[derive(Debug, Clone, PartialEq, Eq)]
pub struct PermissionContext {
    override_decision: Option<PermissionOverride>,
    override_reason: Option<String>,
}

impl PermissionContext {
    pub closed spec fn decision(&self) -> Option<PermissionOverride> {
        self.override_decision
    }

    pub closed spec fn reason(&self) -> Option<Seq<char>> {
        match self.override_reason {
            Some(s) => Some(s@),
            None => None,
        }
    }

    pub fn new(override_decision: Option<PermissionOverride>, override_reason: Option<String>) -> (r:
        Self)
        ensures
            r.decision() == override_decision,
            r.reason() == (match override_reason {
                Some(s) => Some(s@),
                None => None::<Seq<char>>,
            }),
    {
        PermissionContext { override_decision, override_reason }
    }

    pub fn override_decision(&self) -> (r: Option<PermissionOverride>)
        ensures
            r == self.decision(),
    {
        self.override_decision
    }

    pub fn override_reason(&self) -> (r: Option<&str>)
        ensures
            r matches Some(s) ==> self.reason() == Some(s@),
            r is None ==> self.reason() is None,
    {
        match &self.override_reason {
            Some(s) => Some(s.as_str()),
            None => None,
        }
    }
}

impl Default for PermissionContext {
    fn default() -> (r: Self)
        ensures
            r.decision() is None,
            r.reason() is None,
    {
        PermissionContext { override_decision: None, override_reason: None }
    }
}

/// Full authorization request presented to a permission prompt.
#[derive(Debug, Clone, PartialEq, Eq)]
pub struct PermissionRequest {
    pub tool_name: String,
    pub input: String,
    pub current_mode: PermissionMode,
    pub required_mode: PermissionMode,
    pub reason: Option<String>,
}

/// User-facing decision returned by a [`PermissionPrompter`].
#[derive(Debug, Clone, PartialEq, Eq)]
pub enum PermissionPromptDecision {
    Allow,
    Deny { reason: String },
}

/// Prompting interface used when policy requires interactive approval.
pub trait PermissionPrompter {
    /// Whether this prompter may answer `request` with `decision`; a
    /// prompter that says nothing of its answers may give any.
    closed spec fn answers(&self, request: PermissionRequest, decision: PermissionPromptDecision) -> bool {
        true
    }

    fn decide(&mut self, request: &PermissionRequest) -> (r: PermissionPromptDecision)
        ensures
            old(self).answers(*request, r);
}

/// Final authorization result after evaluating static rules and prompts.
#[derive(Debug, Clone, PartialEq, Eq)]
pub enum PermissionOutcome {
    Allow,
    Deny { reason: String },
}

/// Mathematical form of an outcome: allowed, or denied with a reason.
pub enum OutcomeView {
    Allow,
    Deny(Seq<char>),
}

impl View for PermissionOutcome {
    type V = OutcomeView;

    open spec fn view(&self) -> OutcomeView {
        match self {
            PermissionOutcome::Allow => OutcomeView::Allow,
            PermissionOutcome::Deny { reason } => OutcomeView::Deny(reason@),
        }
    }
}

// ---------------------------------------------------------------------------
// Rules.
// ---------------------------------------------------------------------------

/// Identifies which rule list a permission rule came from.
#[derive(Debug, Clone, Copy, PartialEq, Eq, Structural)]
pub enum RuleList {
    Allow,
    Deny,
    Ask,
}

impl RuleList {
    pub open spec fn label(self) -> Seq<char> {
        match self {
            RuleList::Allow => "allow"@,
            RuleList::Deny => "deny"@,
            RuleList::Ask => "ask"@,
        }
    }

    pub fn as_str(self) -> (r: &'static str)
        ensures
            r@ == self.label(),
    {
        match self {
            RuleList::Allow => "allow",
            RuleList::Deny => "deny",
            RuleList::Ask => "ask",
        }
    }
}

/// How a rule selects the invocations it applies to.
#[derive(Debug, Clone, PartialEq, Eq)]
pub enum PermissionRuleMatcher {
    Any,
    Exact(String),
    Prefix(String),
    /// Matches every tool whose runtime name starts with the prefix.
    ToolNamePrefix(String),
}

pub enum MatcherView {
    Any,
    Exact(Seq<char>),
    Prefix(Seq<char>),
    ToolNamePrefix(Seq<char>),
}

impl View for PermissionRuleMatcher {
    type V = MatcherView;

    open spec fn view(&self) -> MatcherView {
        match self {
            PermissionRuleMatcher::Any => MatcherView::Any,
            PermissionRuleMatcher::Exact(s) => MatcherView::Exact(s@),
            PermissionRuleMatcher::Prefix(s) => MatcherView::Prefix(s@),
            PermissionRuleMatcher::ToolNamePrefix(s) => MatcherView::ToolNamePrefix(s@),
        }
    }
}

/// One parsed permission rule.
#[derive(Debug, Clone, PartialEq, Eq)]
pub struct PermissionRule {
    pub raw: String,
    pub tool_name: String,
    pub matcher: PermissionRuleMatcher,
}

pub struct RuleView {
    pub raw: Seq<char>,
    pub tool_name: Seq<char>,
    pub matcher: MatcherView,
}

impl View for PermissionRule {
    type V = RuleView;

    open spec fn view(&self) -> RuleView {
        RuleView { raw: self.raw@, tool_name: self.tool_name@, matcher: self.matcher@ }
    }
}

/// Unicode lower-casing as `str::to_lowercase` performs it.
pub uninterp spec fn unicode_lowercase(s: Seq<char>) -> Seq<char>;

/// `str::to_lowercase`. The contract names its result; the Unicode case
/// tables it applies are not written out here.
#[verifier::external_body]
pub(crate) fn to_lowercase(s: &str) -> (r: String)
    ensures
        r@ == unicode_lowercase(s@),
{
    s.to_lowercase()
}

/// Canonical registry name for a tool name written in a rule.
pub open spec fn normalized_tool_name(name: Seq<char>) -> Seq<char> {
    let lower = unicode_lowercase(name);
    if lower == "read"@ || lower == "read_file"@ {
        "read_file"@
    } else if lower == "write"@ || lower == "write_file"@ {
        "new_file"@
    } else if lower == "edit"@ || lower == "edit_file"@ {
        "edit_file"@
    } else if lower == "glob"@ || lower == "glob_search"@ {
        "glob_search"@
    } else if lower == "grep"@ || lower == "grep_search"@ {
        "grep_search"@
    } else if lower == "bash"@ || lower == "execute_command"@ {
        "bash"@
    } else {
        name
    }
}

pub fn normalize_tool_name(name: &[char]) -> (r: Vec<char>)
    ensures
        r@ == normalized_tool_name(name@),
{
    let s = string_from_chars(name);
    let lower_s = to_lowercase(s.as_str());
    let lower = chars_of(lower_s.as_str());
    if chars_eq_str(&lower, "read") || chars_eq_str(&lower, "read_file") {
        chars_of("read_file")
    } else if chars_eq_str(&lower, "write") || chars_eq_str(&lower, "write_file") {
        chars_of("new_file")
    } else if chars_eq_str(&lower, "edit") || chars_eq_str(&lower, "edit_file") {
        chars_of("edit_file")
    } else if chars_eq_str(&lower, "glob") || chars_eq_str(&lower, "glob_search") {
        chars_of("glob_search")
    } else if chars_eq_str(&lower, "grep") || chars_eq_str(&lower, "grep_search") {
        chars_of("grep_search")
    } else if chars_eq_str(&lower, "bash") || chars_eq_str(&lower, "execute_command") {
        chars_of("bash")
    } else {
        slice_to_vec(name, 0, name.len())
    }
}

// Escape-aware search for parentheses.
/// Whether the character at position `i` is preceded by an odd run of
/// backslashes (the escape state after reading `s[..i]`).
pub open spec fn escaped_before(s: Seq<char>, i: int) -> bool
    decreases i,
{
    if i <= 0 {
        false
    } else if s[i - 1] == '\\' {
        !escaped_before(s, i - 1)
    } else {
        false
    }
}

pub open spec fn unescaped_at(s: Seq<char>, i: int, needle: char) -> bool {
    0 <= i < s.len() && s[i] == needle && needle != '\\' && !escaped_before(s, i)
}

/// Position of the first unescaped occurrence of `needle`.
#[verifier::opaque]
pub open spec fn first_unescaped(s: Seq<char>, needle: char) -> Option<int> {
    if exists|i: int| unescaped_at(s, i, needle) {
        Some(
            choose|i: int|
                unescaped_at(s, i, needle) && forall|j: int| 0 <= j < i ==> !unescaped_at(s, j, needle),
        )
    } else {
        None
    }
}

/// Position of the last unescaped occurrence of `needle`.
#[verifier::opaque]
pub open spec fn last_unescaped(s: Seq<char>, needle: char) -> Option<int> {
    if exists|i: int| unescaped_at(s, i, needle) {
        Some(
            choose|i: int|
                unescaped_at(s, i, needle) && forall|j: int|
                    i < j < s.len() ==> !unescaped_at(s, j, needle),
        )
    } else {
        None
    }
}

/// Scans `s` once, tracking the escape state, and returns the first and
/// the last unescaped position of `needle`.
pub fn unescaped_positions(s: &[char], needle: char) -> (r: (Option<usize>, Option<usize>))
    ensures
        r.0 matches Some(i) ==> i < s@.len() && first_unescaped(s@, needle) == Some(i as int),
        r.0 is None ==> first_unescaped(s@, needle) is None,
        r.1 matches Some(i) ==> i < s@.len() && last_unescaped(s@, needle) == Some(i as int),
        r.1 is None ==> last_unescaped(s@, needle) is None,
{
    let mut escaped = false;
    let mut first: Option<usize> = None;
    let mut last: Option<usize> = None;
    let mut i: usize = 0;
    while i < s.len()
        invariant
            i <= s.len(),
            escaped == escaped_before(s@, i as int),
            first matches Some(f) ==> f < i && unescaped_at(s@, f as int, needle) && forall|j: int|
                0 <= j < f ==> !unescaped_at(s@, j, needle),
            first is None ==> forall|j: int| 0 <= j < i ==> !unescaped_at(s@, j, needle),
            last matches Some(l) ==> l < i && unescaped_at(s@, l as int, needle) && forall|j: int|
                l < j < i ==> !unescaped_at(s@, j, needle),
            last is None ==> forall|j: int| 0 <= j < i ==> !unescaped_at(s@, j, needle),
        decreases s.len() - i,
    {
        let ch = s[i];
        if ch == '\\' {
            escaped = !escaped;
        } else {
            if ch == needle && !escaped {
                if first.is_none() {
                    first = Some(i);
                }
                last = Some(i);
            }
            escaped = false;
        }
        i += 1;
    }
    proof {
        reveal(first_unescaped);
        reveal(last_unescaped);
        match first {
            Some(f) => {
                let k = choose|k: int|
                    unescaped_at(s@, k, needle) && forall|j: int|
                        0 <= j < k ==> !unescaped_at(s@, j, needle);
                assert(k == f as int) by {
                    if k < f {
                    } else if k > f {
                    }
                }
            },
            None => {},
        }
        match last {
            Some(l) => {
                let k = choose|k: int|
                    unescaped_at(s@, k, needle) && forall|j: int|
                        k < j < s@.len() ==> !unescaped_at(s@, j, needle);
                assert(k == l as int) by {
                    if k < l {
                    } else if k > l {
                    }
                }
            },
            None => {},
        }
    }
    (first, last)
}

/// Byte offset of the first unescaped `needle` in `value`.
pub fn find_first_unescaped(value: &str, needle: char) -> (r: Option<usize>)
    requires
        value@.len() <= usize::MAX / 4,
    ensures
        r matches Some(b) ==> first_unescaped(value@, needle) matches Some(i) && b == byte_offset(
            value@,
            i,
        ),
        r is None ==> first_unescaped(value@, needle) is None,
{
    let v = chars_of(value);
    let (first, _) = unescaped_positions(&v, needle);
    match first {
        Some(i) => Some(byte_offset_of(&v, i)),
        None => None,
    }
}

/// Byte offset of the last unescaped `needle` in `value`.
pub fn find_last_unescaped(value: &str, needle: char) -> (r: Option<usize>)
    requires
        value@.len() <= usize::MAX / 4,
    ensures
        r matches Some(b) ==> last_unescaped(value@, needle) matches Some(i) && b == byte_offset(
            value@,
            i,
        ),
        r is None ==> last_unescaped(value@, needle) is None,
{
    let v = chars_of(value);
    let (_, last) = unescaped_positions(&v, needle);
    match last {
        Some(i) => Some(byte_offset_of(&v, i)),
        None => None,
    }
}

/// The first and the last unescaped occurrence always exist together, and
/// the first never comes after the last.
pub proof fn lemma_first_last_unescaped_agree(s: Seq<char>, needle: char)
    ensures
        first_unescaped(s, needle) is Some <==> last_unescaped(s, needle) is Some,
        first_unescaped(s, needle) matches Some(f) ==> last_unescaped(s, needle) matches Some(l)
            && f <= l,
{
    reveal(first_unescaped);
    reveal(last_unescaped);
    if exists|i: int| unescaped_at(s, i, needle) {
        let w = choose|i: int| unescaped_at(s, i, needle);
        lemma_least_unescaped(s, needle, w);
        lemma_greatest_unescaped(s, needle, w);
        let f = first_unescaped(s, needle)->0;
        let l = last_unescaped(s, needle)->0;
        assert(f <= l) by {
            if f > l {
                assert(!unescaped_at(s, f, needle));
            }
        }
    }
}

proof fn lemma_least_unescaped(s: Seq<char>, needle: char, w: int)
    requires
        unescaped_at(s, w, needle),
    ensures
        exists|i: int|
            unescaped_at(s, i, needle) && forall|j: int| 0 <= j < i ==> !unescaped_at(s, j, needle),
    decreases w,
{
    if exists|j: int| 0 <= j < w && unescaped_at(s, j, needle) {
        let j = choose|j: int| 0 <= j < w && unescaped_at(s, j, needle);
        lemma_least_unescaped(s, needle, j);
    }
}

proof fn lemma_greatest_unescaped(s: Seq<char>, needle: char, w: int)
    requires
        unescaped_at(s, w, needle),
    ensures
        exists|i: int|
            unescaped_at(s, i, needle) && forall|j: int| i < j < s.len() ==> !unescaped_at(s, j, needle),
    decreases s.len() - w,
{
    if exists|j: int| w < j < s.len() && unescaped_at(s, j, needle) {
        let j = choose|j: int| w < j < s.len() && unescaped_at(s, j, needle);
        lemma_greatest_unescaped(s, needle, j);
    }
}

// Rule parsing.
pub open spec fn unescape_rule_content(content: Seq<char>) -> Seq<char> {
    replace_all(replace_all(replace_all(content, "\\("@, "("@), "\\)"@, ")"@), "\\\\"@, "\\"@)
}

pub open spec fn rule_matcher_for(content: Seq<char>) -> MatcherView {
    let u = unescape_rule_content(trim(content));
    if u.len() == 0 || u == "*"@ {
        MatcherView::Any
    } else if is_suffix(":*"@, u) {
        MatcherView::Prefix(u.take(u.len() - 2))
    } else {
        MatcherView::Exact(u)
    }
}

pub open spec fn malformed_rule_warning(trimmed: Seq<char>, list: RuleList) -> Seq<char> {
    "warning: permission rule '"@ + trimmed + "' in "@ + list.label()
        + " list has '(' but no matching ')'. The rule will be stored as a literal exact match and is unlikely to match any tool. Did you forget to escape or close the parenthesis?"@
}

pub open spec fn broad_rule_warning(
    trimmed: Seq<char>,
    list: RuleList,
    raw_tool_name: Seq<char>,
    kind: Seq<char>,
) -> Seq<char> {
    "warning: permission rule '"@ + trimmed + "' in "@ + list.label() + " list matches ALL '"@
        + raw_tool_name + "' tools ("@ + kind + " matcher). A broad "@ + list.label()
        + " rule like this is redundant under permissive modes such as 'danger-full-access' "@
        + seq![EM_DASH] + " consider removing it or specifying a subject matcher."@
}

/// The rule written as `Tool(content)`, where `t[o]` is the first
/// unescaped `(` and `t[c]` the last unescaped `)`; `None` when `t` does not
/// have that shape.
pub open spec fn tool_form_rule(t: Seq<char>, o: int, c: int, list: RuleList) -> Option<
    (RuleView, Seq<Seq<char>>),
> {
    if c == t.len() - 1 && o < c && trim(t.take(o)).len() > 0 {
        let raw_tool = trim(t.take(o));
        let content = t.subrange(o + 1, c);
        let ct = trim(content);
        let w: Seq<Seq<char>> = if ct.len() == 0 {
            seq![broad_rule_warning(t, list, raw_tool, "empty"@)]
        } else if ct == "*"@ {
            seq![broad_rule_warning(t, list, raw_tool, "wildcard"@)]
        } else {
            seq![]
        };
        Some(
            (
                RuleView {
                    raw: t,
                    tool_name: normalized_tool_name(raw_tool),
                    matcher: rule_matcher_for(content),
                },
                w,
            ),
        )
    } else {
        None
    }
}

/// A rule that is not in `Tool(content)` form: a tool-name prefix such as
/// `mcp__*`, else an exact literal.
pub open spec fn plain_rule(t: Seq<char>) -> RuleView {
    if !t.contains('(') && is_suffix("*"@, t) && t.len() > 1 {
        RuleView { raw: t, tool_name: t, matcher: MatcherView::ToolNamePrefix(t.drop_last()) }
    } else {
        RuleView { raw: t, tool_name: t, matcher: MatcherView::Exact(t) }
    }
}

/// The rule `raw` parses to, and the warnings the parse reports.
pub open spec fn parsed_rule(raw: Seq<char>, list: RuleList) -> (RuleView, Seq<Seq<char>>) {
    let t = trim(raw);
    let open = first_unescaped(t, '(');
    let close = last_unescaped(t, ')');
    if open is Some && close is Some && tool_form_rule(t, open->0, close->0, list) is Some {
        tool_form_rule(t, open->0, close->0, list)->0
    } else if open is Some && close is None {
        (plain_rule(t), seq![malformed_rule_warning(t, list)])
    } else {
        (plain_rule(t), seq![])
    }
}

fn unescape_content(content: &[char]) -> (r: Vec<char>)
    ensures
        r@ == unescape_rule_content(content@),
{
    proof {
        reveal_strlit("\\(");
        reveal_strlit("\\)");
        reveal_strlit("\\\\");
    }
    let a = replace_str(content, "\\(", "(");
    let b = replace_str(&a, "\\)", ")");
    replace_str(&b, "\\\\", "\\")
}

fn parse_rule_matcher(content: &[char]) -> (r: PermissionRuleMatcher)
    ensures
        r@ == rule_matcher_for(content@),
{
    let t = trim_chars(content);
    let u = unescape_content(&t);
    if u.len() == 0 || chars_eq_str(&u, "*") {
        PermissionRuleMatcher::Any
    } else if ends_with_str(&u, ":*") {
        proof {
            reveal_strlit(":*");
        }
        let p = slice_to_vec(&u, 0, u.len() - 2);
        assert(p@ =~= u@.take(u@.len() - 2));
        PermissionRuleMatcher::Prefix(string_from_chars(&p))
    } else {
        PermissionRuleMatcher::Exact(string_from_chars(&u))
    }
}

fn malformed_warning_text(t: &[char], list: RuleList) -> (r: String)
    ensures
        r@ == malformed_rule_warning(t@, list),
{
    let mut v: Vec<char> = Vec::new();
    push_str(&mut v, "warning: permission rule '");
    push_all(&mut v, t);
    push_str(&mut v, "' in ");
    push_str(&mut v, list.as_str());
    push_str(
        &mut v,
        " list has '(' but no matching ')'. The rule will be stored as a literal exact match and is unlikely to match any tool. Did you forget to escape or close the parenthesis?",
    );
    string_from_chars(&v)
}

fn broad_warning_text(t: &[char], list: RuleList, raw_tool: &[char], kind: &str) -> (r: String)
    ensures
        r@ == broad_rule_warning(t@, list, raw_tool@, kind@),
{
    let mut v: Vec<char> = Vec::new();
    push_str(&mut v, "warning: permission rule '");
    push_all(&mut v, t);
    push_str(&mut v, "' in ");
    push_str(&mut v, list.as_str());
    push_str(&mut v, " list matches ALL '");
    push_all(&mut v, raw_tool);
    push_str(&mut v, "' tools (");
    push_str(&mut v, kind);
    push_str(&mut v, " matcher). A broad ");
    push_str(&mut v, list.as_str());
    push_str(&mut v, " rule like this is redundant under permissive modes such as 'danger-full-access' ");
    v.push(EM_DASH);
    push_str(&mut v, " consider removing it or specifying a subject matcher.");
    string_from_chars(&v)
}

fn parse_tool_form(t: &Vec<char>, o: usize, c: usize, list: RuleList) -> (r: Option<
    (PermissionRule, Vec<String>),
>)
    requires
        o < t.len(),
        c < t.len(),
    ensures
        match r {
            Some(p) => tool_form_rule(t@, o as int, c as int, list) == Some(
                (p.0@, p.1@.map_values(|w: String| w@)),
            ),
            None => tool_form_rule(t@, o as int, c as int, list) is None,
        },
{
    if !(c + 1 == t.len() && o < c) {
        return None;
    }
    let head = slice_to_vec(t, 0, o);
    assert(head@ =~= t@.take(o as int));
    let raw_tool = trim_chars(&head);
    if raw_tool.len() == 0 {
        return None;
    }
    let content = slice_to_vec(t, o + 1, c);
    let tool_name = normalize_tool_name(&raw_tool);
    let ct = trim_chars(&content);
    let mut warnings: Vec<String> = Vec::new();
    if ct.len() == 0 {
        warnings.push(broad_warning_text(t, list, &raw_tool, "empty"));
    } else if chars_eq_str(&ct, "*") {
        warnings.push(broad_warning_text(t, list, &raw_tool, "wildcard"));
    }
    let matcher = parse_rule_matcher(&content);
    let rule = PermissionRule {
        raw: string_from_chars(t),
        tool_name: string_from_chars(&tool_name),
        matcher,
    };
    let ghost expected = tool_form_rule(t@, o as int, c as int, list)->0;
    assert(warnings@.map_values(|w: String| w@) =~= expected.1);
    Some((rule, warnings))
}

fn plain_rule_of(t: &Vec<char>) -> (r: PermissionRule)
    ensures
        r@ == plain_rule(t@),
{
    let has_open = contains_char(t, '(');
    if !has_open && ends_with_str(t, "*") && t.len() > 1 {
        let prefix = slice_to_vec(t, 0, t.len() - 1);
        assert(prefix@ =~= t@.drop_last());
        PermissionRule {
            raw: string_from_chars(t),
            tool_name: string_from_chars(t),
            matcher: PermissionRuleMatcher::ToolNamePrefix(string_from_chars(&prefix)),
        }
    } else {
        PermissionRule {
            raw: string_from_chars(t),
            tool_name: string_from_chars(t),
            matcher: PermissionRuleMatcher::Exact(string_from_chars(t)),
        }
    }
}

impl PermissionRule {
    /// Parses a rule and returns the non-fatal warnings it raises.
    pub fn parse_with_warning(raw: &str, list: RuleList) -> (r: (Self, Vec<String>))
        ensures
            r.0@ == parsed_rule(raw@, list).0,
            r.1@.map_values(|w: String| w@) == parsed_rule(raw@, list).1,
    {
        let t = trim_str(raw);
        let (open, _) = unescaped_positions(&t, '(');
        let (_, close) = unescaped_positions(&t, ')');
        if let (Some(o), Some(c)) = (open, close) {
            if let Some(parsed) = parse_tool_form(&t, o, c, list) {
                return parsed;
            }
        }
        let rule = plain_rule_of(&t);
        let mut warnings: Vec<String> = Vec::new();
        if open.is_some() && close.is_none() {
            warnings.push(malformed_warning_text(&t, list));
        }
        assert(warnings@.map_values(|w: String| w@) =~= parsed_rule(raw@, list).1);
        (rule, warnings)
    }

    /// Whether the rule applies to an invocation of `tool_name` with `input`.
    pub fn matches(&self, tool_name: &str, input: &str) -> (r: bool)
        ensures
            r == rule_matches(self@, tool_name@, input@),
    {
        let tool = chars_of(tool_name);
        if let PermissionRuleMatcher::ToolNamePrefix(prefix) = &self.matcher {
            let p = chars_of(prefix.as_str());
            return starts_with(&tool, &p);
        }
        let own = chars_of(self.tool_name.as_str());
        if !chars_eq(&own, &tool) {
            return false;
        }
        match &self.matcher {
            PermissionRuleMatcher::Any => true,
            PermissionRuleMatcher::Exact(expected) => {
                match extract_permission_subject(input, self.tool_name.as_str()) {
                    Some(candidate) => str_eq(candidate.as_str(), expected.as_str()),
                    None => false,
                }
            },
            PermissionRuleMatcher::Prefix(prefix) => {
                match extract_permission_subject(input, self.tool_name.as_str()) {
                    Some(candidate) => {
                        let c = chars_of(candidate.as_str());
                        let p = chars_of(prefix.as_str());
                        starts_with(&c, &p)
                    },
                    None => false,
                }
            },
            PermissionRuleMatcher::ToolNamePrefix(_) => false,
        }
    }
}

/// Detects the "broad matcher" warning emitted for empty or wildcard
/// matchers.
pub open spec fn broad_matcher_warning(w: Seq<char>) -> bool {
    contains_seq(w, "matches ALL"@) && (contains_seq(w, "empty matcher"@) || contains_seq(
        w,
        "wildcard matcher"@,
    ))
}

pub fn is_broad_matcher_warning(warning: &str) -> (r: bool)
    ensures
        r == broad_matcher_warning(warning@),
{
    let w = chars_of(warning);
    contains_str(&w, "matches ALL") && (contains_str(&w, "empty matcher") || contains_str(
        &w,
        "wildcard matcher",
    ))
}

// Subject extraction.
/// The string value stored under `key` at the top level of the JSON object
/// `input`, or `None` when `input` is not a JSON object or the value is
/// missing or not a string.
pub uninterp spec fn json_top_level_string(input: Seq<char>, key: Seq<char>) -> Option<Seq<char>>;

/// Parses `input` with `serde_json::from_str` and reads the string stored
/// under `key` in the top-level object. The contract names the result; what
/// serde_json accepts as JSON is not written out here.
#[verifier::external_body]
fn json_string_field(input: &str, key: &str) -> (r: Option<String>)
    ensures
        match r {
            Some(s) => json_top_level_string(input@, key@) == Some(s@),
            None => json_top_level_string(input@, key@) is None,
        },
{
    serde_json::from_str::<serde_json::Value>(input).ok()?.as_object()?.get(key)?.as_str().map(
        |s| s.to_string(),
    )
}

/// The input key that holds a tool's permission subject.
pub open spec fn subject_key(tool: Seq<char>) -> Seq<char> {
    if tool == "bash"@ || tool == "execute_command"@ {
        "command"@
    } else if tool == "glob_search"@ || tool == "grep_search"@ || tool == "glob"@ || tool
        == "grep"@ || tool == "search"@ {
        "pattern"@
    } else if tool == "WebFetch"@ || tool == "WebFind"@ || tool == "web_fetch"@ || tool
        == "web"@ {
        "url"@
    } else if tool == "WebSearch"@ || tool == "web_search"@ || tool == "ToolSearch"@ {
        "query"@
    } else if tool == "ask"@ || tool == "message"@ || tool == "say"@ {
        "message"@
    } else if tool == "Question"@ {
        "question"@
    } else if tool == "NotebookEdit"@ || tool == "notebook"@ || tool == "notebook_create"@
        || tool == "notebook_edit"@ {
        "notebook_path"@
    } else if tool == "Skill"@ {
        "skill"@
    } else if tool == "Config"@ {
        "setting"@
    } else {
        "path"@
    }
}

fn subject_key_for(tool: &str) -> (r: &'static str)
    ensures
        r@ == subject_key(tool@),
{
    let t = chars_of(tool);
    if chars_eq_str(&t, "bash") || chars_eq_str(&t, "execute_command") {
        "command"
    } else if chars_eq_str(&t, "glob_search") || chars_eq_str(&t, "grep_search") || chars_eq_str(
        &t,
        "glob",
    ) || chars_eq_str(&t, "grep") || chars_eq_str(&t, "search") {
        "pattern"
    } else if chars_eq_str(&t, "WebFetch") || chars_eq_str(&t, "WebFind") || chars_eq_str(
        &t,
        "web_fetch",
    ) || chars_eq_str(&t, "web") {
        "url"
    } else if chars_eq_str(&t, "WebSearch") || chars_eq_str(&t, "web_search") || chars_eq_str(
        &t,
        "ToolSearch",
    ) {
        "query"
    } else if chars_eq_str(&t, "ask") || chars_eq_str(&t, "message") || chars_eq_str(&t, "say") {
        "message"
    } else if chars_eq_str(&t, "Question") {
        "question"
    } else if chars_eq_str(&t, "NotebookEdit") || chars_eq_str(&t, "notebook") || chars_eq_str(
        &t,
        "notebook_create",
    ) || chars_eq_str(&t, "notebook_edit") {
        "notebook_path"
    } else if chars_eq_str(&t, "Skill") {
        "skill"
    } else if chars_eq_str(&t, "Config") {
        "setting"
    } else {
        "path"
    }
}

/// The permission subject of an invocation: the string under the tool's
/// subject key in the JSON input.
pub open spec fn permission_subject(input: Seq<char>, tool: Seq<char>) -> Option<Seq<char>> {
    json_top_level_string(input, subject_key(tool))
}

pub fn extract_permission_subject(input: &str, tool_name: &str) -> (r: Option<String>)
    ensures
        match r {
            Some(s) => permission_subject(input@, tool_name@) == Some(s@),
            None => permission_subject(input@, tool_name@) is None,
        },
{
    let key = subject_key_for(tool_name);
    json_string_field(input, key)
}

pub open spec fn rule_matches(rule: RuleView, tool: Seq<char>, input: Seq<char>) -> bool {
    match rule.matcher {
        MatcherView::ToolNamePrefix(p) => is_prefix(p, tool),
        MatcherView::Any => rule.tool_name == tool,
        MatcherView::Exact(e) => rule.tool_name == tool && permission_subject(input, rule.tool_name)
            == Some(e),
        MatcherView::Prefix(p) => rule.tool_name == tool && match permission_subject(
            input,
            rule.tool_name,
        ) {
            Some(c) => is_prefix(p, c),
            None => false,
        },
    }
}

/// The first rule in `rules` that applies to the invocation.
pub open spec fn first_matching_rule(rules: Seq<RuleView>, tool: Seq<char>, input: Seq<char>) -> Option<
    RuleView,
>
    decreases rules.len(),
{
    if rules.len() == 0 {
        None
    } else if rule_matches(rules[0], tool, input) {
        Some(rules[0])
    } else {
        first_matching_rule(rules.drop_first(), tool, input)
    }
}

pub open spec fn rules_view(rules: Seq<PermissionRule>) -> Seq<RuleView> {
    rules.map_values(|r: PermissionRule| r@)
}

fn find_matching_rule<'a>(rules: &'a Vec<PermissionRule>, tool_name: &str, input: &str) -> (r:
    Option<&'a PermissionRule>)
    ensures
        match r {
            Some(rule) => first_matching_rule(rules_view(rules@), tool_name@, input@) == Some(
                rule@,
            ),
            None => first_matching_rule(rules_view(rules@), tool_name@, input@) is None,
        },
{
    let mut i: usize = 0;
    assert(rules_view(rules@).skip(0) =~= rules_view(rules@));
    while i < rules.len()
        invariant
            i <= rules.len(),
            first_matching_rule(rules_view(rules@), tool_name@, input@) == first_matching_rule(
                rules_view(rules@).skip(i as int),
                tool_name@,
                input@,
            ),
        decreases rules.len() - i,
    {
        let ghost rest = rules_view(rules@).skip(i as int);
        assert(rest[0] == rules@[i as int]@);
        if rules[i].matches(tool_name, input) {
            return Some(&rules[i]);
        }
        assert(rest.drop_first() =~= rules_view(rules@).skip(i + 1));
        i += 1;
    }
    assert(rules_view(rules@).skip(i as int).len() == 0);
    None
}

// ---------------------------------------------------------------------------
// Policy.
// ---------------------------------------------------------------------------

/// Evaluates permission mode requirements plus allow/deny/ask rules.
#[derive(Debug, Clone, PartialEq, Eq)]
pub struct PermissionPolicy {
    active_mode: PermissionMode,
    tool_requirements: Vec<(String, PermissionMode)>,
    allow_rules: Vec<PermissionRule>,
    deny_rules: Vec<PermissionRule>,
    ask_rules: Vec<PermissionRule>,
}

/// Mathematical form of a policy.
pub struct PolicyView {
    pub active_mode: PermissionMode,
    /// Tool requirements, each tool name at most once.
    pub requirements: Seq<(Seq<char>, PermissionMode)>,
    pub allow: Seq<RuleView>,
    pub deny: Seq<RuleView>,
    pub ask: Seq<RuleView>,
}

pub open spec fn requirements_view(v: Seq<(String, PermissionMode)>) -> Seq<(Seq<char>, PermissionMode)> {
    v.map_values(|p: (String, PermissionMode)| (p.0@, p.1))
}

pub open spec fn distinct_keys(v: Seq<(Seq<char>, PermissionMode)>) -> bool {
    forall|i: int, j: int| 0 <= i < v.len() && 0 <= j < v.len() && i != j ==> v[i].0 != v[j].0
}

impl View for PermissionPolicy {
    type V = PolicyView;

    closed spec fn view(&self) -> PolicyView {
        PolicyView {
            active_mode: self.active_mode,
            requirements: requirements_view(self.tool_requirements@),
            allow: rules_view(self.allow_rules@),
            deny: rules_view(self.deny_rules@),
            ask: rules_view(self.ask_rules@),
        }
    }
}

/// Index of the first entry named exactly `tool`.
pub open spec fn exact_requirement(reqs: Seq<(Seq<char>, PermissionMode)>, tool: Seq<char>, i: int) -> bool {
    0 <= i < reqs.len() && reqs[i].0 == tool && forall|j: int| 0 <= j < i ==> reqs[j].0 != tool
}

/// Index of the entry whose name equals `tool` up to ASCII case and is
/// least in lexicographic order (the first such entry among equal names).
pub open spec fn folded_requirement(reqs: Seq<(Seq<char>, PermissionMode)>, tool: Seq<char>, i: int) -> bool {
    &&& 0 <= i < reqs.len()
    &&& eq_ignore_ascii_case(reqs[i].0, tool)
    &&& forall|j: int|
        0 <= j < reqs.len() && eq_ignore_ascii_case(reqs[j].0, tool) ==> !seq_lt(reqs[j].0, reqs[i].0)
    &&& forall|j: int| 0 <= j < i && eq_ignore_ascii_case(reqs[j].0, tool) ==> reqs[j].0 != reqs[i].0
}

/// The mode a tool requires: its own entry, else the entry whose name equals
/// it up to ASCII case and is least in lexicographic order, else
/// `WorkspaceWrite`.
pub open spec fn required_mode(reqs: Seq<(Seq<char>, PermissionMode)>, tool: Seq<char>) -> PermissionMode {
    if exists|i: int| exact_requirement(reqs, tool, i) {
        reqs[choose|i: int| exact_requirement(reqs, tool, i)].1
    } else if exists|i: int| folded_requirement(reqs, tool, i) {
        reqs[choose|i: int| folded_requirement(reqs, tool, i)].1
    } else {
        PermissionMode::WorkspaceWrite
    }
}

/// The mode an exact lookup finds, defaulting to `WorkspaceWrite`.
pub open spec fn exact_required_mode(reqs: Seq<(Seq<char>, PermissionMode)>, tool: Seq<char>) -> PermissionMode {
    if exists|i: int| exact_requirement(reqs, tool, i) {
        reqs[choose|i: int| exact_requirement(reqs, tool, i)].1
    } else {
        PermissionMode::WorkspaceWrite
    }
}

fn exact_requirement_index(reqs: &Vec<(String, PermissionMode)>, tool: &[char]) -> (r: Option<usize>)
    ensures
        match r {
            Some(i) => exact_requirement(requirements_view(reqs@), tool@, i as int),
            None => forall|j: int| 0 <= j < reqs@.len() ==> requirements_view(reqs@)[j].0 != tool@,
        },
{
    let ghost rv = requirements_view(reqs@);
    let mut i: usize = 0;
    while i < reqs.len()
        invariant
            i <= reqs.len(),
            rv == requirements_view(reqs@),
            forall|j: int| 0 <= j < i ==> rv[j].0 != tool@,
        decreases reqs.len() - i,
    {
        assert(rv[i as int] == (reqs@[i as int].0@, reqs@[i as int].1));
        let k = chars_of(reqs[i].0.as_str());
        if chars_eq(&k, tool) {
            return Some(i);
        }
        i += 1;
    }
    None
}

proof fn lemma_exact_unique(reqs: Seq<(Seq<char>, PermissionMode)>, tool: Seq<char>, i: int)
    requires
        exact_requirement(reqs, tool, i),
    ensures
        (choose|k: int| exact_requirement(reqs, tool, k)) == i,
{
    let k = choose|k: int| exact_requirement(reqs, tool, k);
    assert(exact_requirement(reqs, tool, k));
    if k < i {
    } else if k > i {
    }
}

fn folded_requirement_index(reqs: &Vec<(String, PermissionMode)>, tool: &[char]) -> (r: Option<usize>)
    ensures
        match r {
            Some(i) => folded_requirement(requirements_view(reqs@), tool@, i as int),
            None => forall|j: int|
                0 <= j < reqs@.len() ==> !eq_ignore_ascii_case(requirements_view(reqs@)[j].0, tool@),
        },
{
    let ghost rv = requirements_view(reqs@);
    let mut best: Option<usize> = None;
    let mut i: usize = 0;
    while i < reqs.len()
        invariant
            i <= reqs.len(),
            rv == requirements_view(reqs@),
            best matches Some(b) ==> {
                &&& b < i
                &&& eq_ignore_ascii_case(rv[b as int].0, tool@)
                &&& forall|j: int|
                    0 <= j < i && eq_ignore_ascii_case(rv[j].0, tool@) ==> !seq_lt(rv[j].0, rv[b as int].0)
                &&& forall|j: int|
                    0 <= j < b && eq_ignore_ascii_case(rv[j].0, tool@) ==> rv[j].0 != rv[b as int].0
            },
            best is None ==> forall|j: int| 0 <= j < i ==> !eq_ignore_ascii_case(rv[j].0, tool@),
        decreases reqs.len() - i,
    {
        assert(rv[i as int] == (reqs@[i as int].0@, reqs@[i as int].1));
        let k = chars_of(reqs[i].0.as_str());
        if chars_eq_ignore_ascii_case(&k, tool) {
            match best {
                None => {
                    proof {
                        lemma_seq_lt_irreflexive(rv[i as int].0);
                    }
                    best = Some(i);
                },
                Some(b) => {
                    assert(rv[b as int] == (reqs@[b as int].0@, reqs@[b as int].1));
                    let bk = chars_of(reqs[b].0.as_str());
                    if chars_lt(&k, &bk) {
                        proof {
                            assert forall|j: int|
                                0 <= j < i + 1 && eq_ignore_ascii_case(rv[j].0, tool@) implies !seq_lt(
                                rv[j].0,
                                rv[i as int].0,
                            ) by {
                                if j == i {
                                    lemma_seq_lt_irreflexive(rv[i as int].0);
                                } else if seq_lt(rv[j].0, rv[i as int].0) {
                                    lemma_seq_lt_transitive(rv[j].0, rv[i as int].0, rv[b as int].0);
                                }
                            }
                            assert forall|j: int|
                                0 <= j < i && eq_ignore_ascii_case(rv[j].0, tool@) implies rv[j].0
                                != rv[i as int].0 by {
                                if rv[j].0 == rv[i as int].0 {
                                    assert(!seq_lt(rv[j].0, rv[b as int].0));
                                }
                            }
                        }
                        best = Some(i);
                    } else {
                        proof {
                            assert forall|j: int|
                                0 <= j < i + 1 && eq_ignore_ascii_case(rv[j].0, tool@) implies !seq_lt(
                                rv[j].0,
                                rv[b as int].0,
                            ) by {
                            }
                        }
                    }
                },
            }
        }
        i += 1;
    }
    best
}

proof fn lemma_folded_unique(reqs: Seq<(Seq<char>, PermissionMode)>, tool: Seq<char>, i: int)
    requires
        folded_requirement(reqs, tool, i),
    ensures
        (choose|k: int| folded_requirement(reqs, tool, k)) == i,
{
    let k = choose|k: int| folded_requirement(reqs, tool, k);
    assert(folded_requirement(reqs, tool, k));
    if k != i {
        assert(!seq_lt(reqs[k].0, reqs[i].0));
        assert(!seq_lt(reqs[i].0, reqs[k].0));
        if reqs[k].0 != reqs[i].0 {
            lemma_seq_lt_total(reqs[k].0, reqs[i].0);
        }
    }
}

/// What evaluation of the rules and modes leads to before any prompt.
pub enum StepView {
    /// The outcome is settled.
    Done(OutcomeView),
    /// The user must be asked, with this reason.
    Ask(Seq<char>),
}

pub open spec fn denied_by_rule_reason(tool: Seq<char>, raw: Seq<char>) -> Seq<char> {
    "Permission to use "@ + tool + " has been denied by rule '"@ + raw + "'"@
}

pub open spec fn hook_denied_reason(tool: Seq<char>) -> Seq<char> {
    "tool '"@ + tool + "' denied by hook"@
}

pub open spec fn hook_ask_reason(tool: Seq<char>) -> Seq<char> {
    "tool '"@ + tool + "' requires approval due to hook guidance"@
}

pub open spec fn ask_rule_reason(tool: Seq<char>, raw: Seq<char>) -> Seq<char> {
    "tool '"@ + tool + "' requires approval due to ask rule '"@ + raw + "'"@
}

pub open spec fn escalation_reason(tool: Seq<char>, current: PermissionMode, required: PermissionMode) -> Seq<char> {
    "tool '"@ + tool + "' requires approval to escalate from "@ + current.name() + " to "@
        + required.name()
}

pub open spec fn insufficient_mode_reason(tool: Seq<char>, current: PermissionMode, required: PermissionMode) -> Seq<char> {
    "tool '"@ + tool + "' requires "@ + required.name() + " permission; current mode is "@
        + current.name()
}

/// Evaluation of a request against a policy: deny rules first, then hook
/// overrides, ask rules, allow rules and the mode comparison.
pub open spec fn authorization_step(
    p: PolicyView,
    tool: Seq<char>,
    input: Seq<char>,
    required: PermissionMode,
    decision: Option<PermissionOverride>,
    reason: Option<Seq<char>>,
) -> StepView {
    let current = p.active_mode;
    let deny = first_matching_rule(p.deny, tool, input);
    let ask = first_matching_rule(p.ask, tool, input);
    let allow = first_matching_rule(p.allow, tool, input);
    if deny is Some {
        StepView::Done(OutcomeView::Deny(denied_by_rule_reason(tool, deny->0.raw)))
    } else if decision == Some(PermissionOverride::Deny) {
        StepView::Done(
            OutcomeView::Deny(
                match reason {
                    Some(r) => r,
                    None => hook_denied_reason(tool),
                },
            ),
        )
    } else if decision == Some(PermissionOverride::Ask) {
        StepView::Ask(
            match reason {
                Some(r) => r,
                None => hook_ask_reason(tool),
            },
        )
    } else if ask is Some {
        StepView::Ask(ask_rule_reason(tool, ask->0.raw))
    } else if decision == Some(PermissionOverride::Allow) {
        StepView::Done(OutcomeView::Allow)
    } else if allow is Some || current == PermissionMode::Allow || (current.rank() >= required.rank()
        && current != PermissionMode::Prompt) {
        StepView::Done(OutcomeView::Allow)
    } else if current == PermissionMode::Prompt || (current == PermissionMode::WorkspaceWrite
        && required == PermissionMode::DangerFullAccess) {
        StepView::Ask(escalation_reason(tool, current, required))
    } else {
        StepView::Done(OutcomeView::Deny(insufficient_mode_reason(tool, current, required)))
    }
}

/// What a policy step needing approval gives when no prompter is present.
pub open spec fn unprompted_outcome(step: StepView) -> OutcomeView {
    match step {
        StepView::Done(o) => o,
        StepView::Ask(reason) => OutcomeView::Deny(reason),
    }
}

/// Result of evaluating a request before any prompt.
pub enum AuthorizationStep {
    Done(PermissionOutcome),
    Ask(String),
}

impl View for AuthorizationStep {
    type V = StepView;

    open spec fn view(&self) -> StepView {
        match self {
            AuthorizationStep::Done(o) => StepView::Done(o@),
            AuthorizationStep::Ask(r) => StepView::Ask(r@),
        }
    }
}

fn concat3(a: &str, b: &str, c: &str) -> (r: Vec<char>)
    ensures
        r@ == a@ + b@ + c@,
{
    let mut v: Vec<char> = Vec::new();
    push_str(&mut v, a);
    push_str(&mut v, b);
    push_str(&mut v, c);
    assert(v@ =~= a@ + b@ + c@);
    v
}

/// Outcome after asking the user.
/// The outcome a prompt decision stands for.
pub open spec fn decision_outcome(d: PermissionPromptDecision) -> OutcomeView {
    match d {
        PermissionPromptDecision::Allow => OutcomeView::Allow,
        PermissionPromptDecision::Deny { reason } => OutcomeView::Deny(reason@),
    }
}

/// The request shown to the user: the tool, its input, the policy's mode,
/// the mode required, and why approval is needed.
pub open spec fn is_prompt_request(
    r: PermissionRequest,
    tool_name: Seq<char>,
    input: Seq<char>,
    current_mode: PermissionMode,
    required_mode: PermissionMode,
    reason: Seq<char>,
) -> bool {
    &&& r.tool_name@ == tool_name
    &&& r.input@ == input
    &&& r.current_mode == current_mode
    &&& r.required_mode == required_mode
    &&& r.reason matches Some(x) && x@ == reason
}

/// What a call ends in once the step is known: a settled step gives its
/// outcome; a step that asks is refused with its reason when there is no
/// prompter, and otherwise ends as the prompter answers the request.
pub open spec fn prompted_outcome(
    step: StepView,
    prompter: Option<&mut dyn PermissionPrompter>,
    tool_name: Seq<char>,
    input: Seq<char>,
    current_mode: PermissionMode,
    required_mode: PermissionMode,
    r: OutcomeView,
) -> bool {
    match step {
        StepView::Done(o) => r == o,
        StepView::Ask(reason) => match prompter {
            None => r == OutcomeView::Deny(reason),
            Some(p) => exists|req: PermissionRequest, d: PermissionPromptDecision|
                is_prompt_request(req, tool_name, input, current_mode, required_mode, reason) && #[trigger] p.answers(
                    req,
                    d,
                ) && r == decision_outcome(d),
        },
    }
}

/// The request to show the user when `policy` asks about a call.
pub fn prompt_request(
    policy: &PermissionPolicy,
    tool_name: &str,
    input: &str,
    required_mode: PermissionMode,
    reason: &str,
) -> (r: PermissionRequest)
    ensures
        is_prompt_request(r, tool_name@, input@, policy@.active_mode, required_mode, reason@),
{
    PermissionRequest {
        tool_name: owned(tool_name),
        input: owned(input),
        current_mode: policy.active_mode,
        required_mode,
        reason: Some(owned(reason)),
    }
}

pub fn outcome_from_decision(decision: PermissionPromptDecision) -> (r: PermissionOutcome)
    ensures
        match decision {
            PermissionPromptDecision::Allow => r@ == OutcomeView::Allow,
            PermissionPromptDecision::Deny { reason } => r@ == OutcomeView::Deny(reason@),
        },
{
    match decision {
        PermissionPromptDecision::Allow => PermissionOutcome::Allow,
        PermissionPromptDecision::Deny { reason } => PermissionOutcome::Deny { reason },
    }
}

impl PermissionPolicy {
    pub fn new(active_mode: PermissionMode) -> (r: Self)
        ensures
            r@.active_mode == active_mode,
            r@.requirements.len() == 0,
            r@.allow.len() == 0,
            r@.deny.len() == 0,
            r@.ask.len() == 0,
    {
        let r = PermissionPolicy {
            active_mode,
            tool_requirements: Vec::new(),
            allow_rules: Vec::new(),
            deny_rules: Vec::new(),
            ask_rules: Vec::new(),
        };
        assert(r@.requirements.len() == 0);
        r
    }

    /// Sets the mode a tool requires, replacing an earlier entry for the
    /// same name.
    pub fn with_tool_requirement(self, tool_name: &str, required_mode: PermissionMode) -> (r: Self)
        ensures
            r@.active_mode == self@.active_mode,
            r@.allow == self@.allow,
            r@.deny == self@.deny,
            r@.ask == self@.ask,
            (exists|i: int| exact_requirement(self@.requirements, tool_name@, i)) ==> exists|i: int|
                exact_requirement(self@.requirements, tool_name@, i) && r@.requirements
                    == self@.requirements.update(i, (tool_name@, required_mode)),
            !(exists|i: int| exact_requirement(self@.requirements, tool_name@, i)) ==> r@.requirements
                == self@.requirements.push((tool_name@, required_mode)),
            distinct_keys(self@.requirements) ==> distinct_keys(r@.requirements),
    {
        let name = chars_of(tool_name);
        let mut reqs = self.tool_requirements;
        let ghost old_reqs = requirements_view(reqs@);
        let found = exact_requirement_index(&reqs, &name);
        let key = string_from_chars(&name);
        match found {
            Some(i) => {
                reqs.set(i, (key, required_mode));
                assert(requirements_view(reqs@) =~= old_reqs.update(i as int, (tool_name@, required_mode)));
                proof {
                    if distinct_keys(old_reqs) {
                        let nr = requirements_view(reqs@);
                        assert forall|x: int, y: int|
                            0 <= x < nr.len() && 0 <= y < nr.len() && x != y implies nr[x].0 != nr[y].0 by {
                            if x == i {
                                assert(nr[x].0 == old_reqs[x].0);
                            } else if y == i {
                                assert(nr[y].0 == old_reqs[y].0);
                            }
                        }
                    }
                }
            },
            None => {
                reqs.push((key, required_mode));
                assert(requirements_view(reqs@) =~= old_reqs.push((tool_name@, required_mode)));
                assert(!exists|i: int| exact_requirement(old_reqs, tool_name@, i));
            },
        }
        PermissionPolicy {
            active_mode: self.active_mode,
            tool_requirements: reqs,
            allow_rules: self.allow_rules,
            deny_rules: self.deny_rules,
            ask_rules: self.ask_rules,
        }
    }

    pub fn active_mode(&self) -> (r: PermissionMode)
        ensures
            r == self@.active_mode,
    {
        self.active_mode
    }

    pub fn required_mode_for(&self, tool_name: &str) -> (r: PermissionMode)
        ensures
            r == required_mode(self@.requirements, tool_name@),
    {
        let tool = chars_of(tool_name);
        let ghost rv = self@.requirements;
        match exact_requirement_index(&self.tool_requirements, &tool) {
            Some(i) => {
                proof {
                    lemma_exact_unique(rv, tool_name@, i as int);
                }
                assert(rv[i as int] == (self.tool_requirements@[i as int].0@, self.tool_requirements@[i as int].1));
                return self.tool_requirements[i].1;
            },
            None => {},
        }
        match folded_requirement_index(&self.tool_requirements, &tool) {
            Some(i) => {
                proof {
                    lemma_folded_unique(rv, tool_name@, i as int);
                }
                assert(rv[i as int] == (self.tool_requirements@[i as int].0@, self.tool_requirements@[i as int].1));
                self.tool_requirements[i].1
            },
            None => PermissionMode::WorkspaceWrite,
        }
    }

    /// Evaluates a request up to the point where the user would be asked.
    pub fn authorization_step(
        &self,
        tool_name: &str,
        input: &str,
        required_mode: PermissionMode,
        context: &PermissionContext,
    ) -> (r: AuthorizationStep)
        ensures
            r@ == authorization_step(
                self@,
                tool_name@,
                input@,
                required_mode,
                context.decision(),
                context.reason(),
            ),
    {
        if let Some(rule) = find_matching_rule(&self.deny_rules, tool_name, input) {
            let v = concat3("Permission to use ", tool_name, " has been denied by rule '");
            let mut v = v;
            push_str(&mut v, rule.raw.as_str());
            push_str(&mut v, "'");
            return AuthorizationStep::Done(PermissionOutcome::Deny { reason: string_from_chars(&v) });
        }
        let current = self.active_mode;
        let ask_rule = find_matching_rule(&self.ask_rules, tool_name, input);
        let allow_rule = find_matching_rule(&self.allow_rules, tool_name, input);
        match context.override_decision() {
            Some(PermissionOverride::Deny) => {
                let reason = match context.override_reason() {
                    Some(r) => owned(r),
                    None => string_from_chars(&concat3("tool '", tool_name, "' denied by hook")),
                };
                return AuthorizationStep::Done(PermissionOutcome::Deny { reason });
            },
            Some(PermissionOverride::Ask) => {
                let reason = match context.override_reason() {
                    Some(r) => owned(r),
                    None => string_from_chars(
                        &concat3("tool '", tool_name, "' requires approval due to hook guidance"),
                    ),
                };
                return AuthorizationStep::Ask(reason);
            },
            _ => {},
        }
        if let Some(rule) = ask_rule {
            let mut v = concat3("tool '", tool_name, "' requires approval due to ask rule '");
            push_str(&mut v, rule.raw.as_str());
            push_str(&mut v, "'");
            return AuthorizationStep::Ask(string_from_chars(&v));
        }
        if context.override_decision() == Some(PermissionOverride::Allow) {
            return AuthorizationStep::Done(PermissionOutcome::Allow);
        }
        if allow_rule.is_some() || current == PermissionMode::Allow || (current.level()
            >= required_mode.level() && current != PermissionMode::Prompt) {
            return AuthorizationStep::Done(PermissionOutcome::Allow);
        }
        if current == PermissionMode::Prompt || (current == PermissionMode::WorkspaceWrite
            && required_mode == PermissionMode::DangerFullAccess) {
            let mut v = concat3("tool '", tool_name, "' requires approval to escalate from ");
            push_str(&mut v, current.as_str());
            push_str(&mut v, " to ");
            push_str(&mut v, required_mode.as_str());
            return AuthorizationStep::Ask(string_from_chars(&v));
        }
        let mut v = concat3("tool '", tool_name, "' requires ");
        push_str(&mut v, required_mode.as_str());
        push_str(&mut v, " permission; current mode is ");
        push_str(&mut v, current.as_str());
        AuthorizationStep::Done(PermissionOutcome::Deny { reason: string_from_chars(&v) })
    }

    pub fn authorize(&self, tool_name: &str, input: &str, prompter: Option<&mut dyn PermissionPrompter>) -> (r:
        PermissionOutcome)
        ensures
            prompted_outcome(
                authorization_step(self@, tool_name@, input@, required_mode(self@.requirements, tool_name@), None, None),
                prompter,
                tool_name@,
                input@,
                self@.active_mode,
                required_mode(self@.requirements, tool_name@),
                r@,
            ),
    {
        let context = PermissionContext::default();
        self.authorize_with_context(tool_name, input, &context, prompter)
    }

    pub fn authorize_with_context(
        &self,
        tool_name: &str,
        input: &str,
        context: &PermissionContext,
        prompter: Option<&mut dyn PermissionPrompter>,
    ) -> (r: PermissionOutcome)
        ensures
            prompted_outcome(
                authorization_step(self@, tool_name@, input@, required_mode(self@.requirements, tool_name@), context.decision(), context.reason()),
                prompter,
                tool_name@,
                input@,
                self@.active_mode,
                required_mode(self@.requirements, tool_name@),
                r@,
            ),
    {
        let required_mode = self.required_mode_for(tool_name);
        self.authorize_impl(tool_name, input, required_mode, context, prompter)
    }

    /// Authorizes a call with an explicitly provided required mode.
    pub fn authorize_with_required_mode(
        &self,
        tool_name: &str,
        input: &str,
        required_mode: PermissionMode,
        prompter: Option<&mut dyn PermissionPrompter>,
    ) -> (r: PermissionOutcome)
        ensures
            prompted_outcome(
                authorization_step(self@, tool_name@, input@, required_mode, None, None),
                prompter,
                tool_name@,
                input@,
                self@.active_mode,
                required_mode,
                r@,
            ),
    {
        let context = PermissionContext::default();
        self.authorize_impl(tool_name, input, required_mode, &context, prompter)
    }

    fn authorize_impl(
        &self,
        tool_name: &str,
        input: &str,
        required_mode: PermissionMode,
        context: &PermissionContext,
        prompter: Option<&mut dyn PermissionPrompter>,
    ) -> (r: PermissionOutcome)
        ensures
            prompted_outcome(
                authorization_step(self@, tool_name@, input@, required_mode, context.decision(), context.reason()),
                prompter,
                tool_name@,
                input@,
                self@.active_mode,
                required_mode,
                r@,
            ),
    {
        match self.authorization_step(tool_name, input, required_mode, context) {
            AuthorizationStep::Done(outcome) => outcome,
            AuthorizationStep::Ask(reason) => {
                let request = prompt_request(self, tool_name, input, required_mode, reason.as_str());
                match prompter {
                    Some(p) => outcome_from_decision(p.decide(&request)),
                    None => PermissionOutcome::Deny { reason },
                }
            },
        }
    }
}


// ---------------------------------------------------------------------------
// Rules from configuration.
// ---------------------------------------------------------------------------

/// Allow, deny and ask rule strings as written in the configuration.
#[derive(Debug, Clone, PartialEq, Eq, Default)]
pub struct RuntimePermissionRuleConfig {
    allow: Vec<String>,
    deny: Vec<String>,
    ask: Vec<String>,
}

pub open spec fn strings_view(v: Seq<String>) -> Seq<Seq<char>> {
    v.map_values(|s: String| s@)
}

impl RuntimePermissionRuleConfig {
    pub closed spec fn allow_view(&self) -> Seq<Seq<char>> {
        strings_view(self.allow@)
    }

    pub closed spec fn deny_view(&self) -> Seq<Seq<char>> {
        strings_view(self.deny@)
    }

    pub closed spec fn ask_view(&self) -> Seq<Seq<char>> {
        strings_view(self.ask@)
    }

    pub fn new(allow: Vec<String>, deny: Vec<String>, ask: Vec<String>) -> (r: Self)
        ensures
            r.allow_view() == strings_view(allow@),
            r.deny_view() == strings_view(deny@),
            r.ask_view() == strings_view(ask@),
    {
        RuntimePermissionRuleConfig { allow, deny, ask }
    }

    pub fn allow(&self) -> (r: &[String])
        ensures
            strings_view(r@) == self.allow_view(),
    {
        self.allow.as_slice()
    }

    pub fn deny(&self) -> (r: &[String])
        ensures
            strings_view(r@) == self.deny_view(),
    {
        self.deny.as_slice()
    }

    pub fn ask(&self) -> (r: &[String])
        ensures
            strings_view(r@) == self.ask_view(),
    {
        self.ask.as_slice()
    }
}

/// The rules a list of rule strings parses to.
pub open spec fn parsed_rules(raws: Seq<Seq<char>>, list: RuleList) -> Seq<RuleView> {
    raws.map_values(|r: Seq<char>| parsed_rule(r, list).0)
}

/// An allow rule whose broad matcher adds nothing under the active mode.
pub open spec fn redundant_broad_allow(
    rule: RuleView,
    active: PermissionMode,
    reqs: Seq<(Seq<char>, PermissionMode)>,
) -> bool {
    rule.matcher is Any && active != PermissionMode::Prompt && active.rank() >= exact_required_mode(
        reqs,
        rule.tool_name,
    ).rank()
}

pub open spec fn without_broad_warnings(ws: Seq<Seq<char>>) -> Seq<Seq<char>>
    decreases ws.len(),
{
    if ws.len() == 0 {
        seq![]
    } else if broad_matcher_warning(ws.last()) {
        without_broad_warnings(ws.drop_last())
    } else {
        without_broad_warnings(ws.drop_last()).push(ws.last())
    }
}

/// Warnings the rule `raw` reports when built into a policy.
pub open spec fn rule_warnings(
    raw: Seq<char>,
    list: RuleList,
    active: PermissionMode,
    reqs: Seq<(Seq<char>, PermissionMode)>,
) -> Seq<Seq<char>> {
    let (rule, ws) = parsed_rule(raw, list);
    if list == RuleList::Allow && redundant_broad_allow(rule, active, reqs) {
        without_broad_warnings(ws)
    } else {
        ws
    }
}

pub open spec fn list_warnings(
    raws: Seq<Seq<char>>,
    list: RuleList,
    active: PermissionMode,
    reqs: Seq<(Seq<char>, PermissionMode)>,
) -> Seq<Seq<char>>
    decreases raws.len(),
{
    if raws.len() == 0 {
        seq![]
    } else {
        list_warnings(raws.drop_last(), list, active, reqs) + rule_warnings(
            raws.last(),
            list,
            active,
            reqs,
        )
    }
}

/// Keeps the first occurrence of each element.
pub open spec fn dedup(s: Seq<Seq<char>>) -> Seq<Seq<char>>
    decreases s.len(),
{
    if s.len() == 0 {
        seq![]
    } else if dedup(s.drop_last()).contains(s.last()) {
        dedup(s.drop_last())
    } else {
        dedup(s.drop_last()).push(s.last())
    }
}

fn parse_rule_list(raws: &[String], list: RuleList) -> (r: Vec<PermissionRule>)
    ensures
        rules_view(r@) == parsed_rules(strings_view(raws@), list),
{
    let mut out: Vec<PermissionRule> = Vec::new();
    let mut i: usize = 0;
    while i < raws.len()
        invariant
            i <= raws.len(),
            rules_view(out@) == parsed_rules(strings_view(raws@), list).take(i as int),
        decreases raws.len() - i,
    {
        let (rule, _) = PermissionRule::parse_with_warning(raws[i].as_str(), list);
        assert(strings_view(raws@)[i as int] == raws@[i as int]@);
        let ghost prev = rules_view(out@);
        out.push(rule);
        assert(rules_view(out@) =~= prev.push(rule@));
        i += 1;
        assert(rules_view(out@) =~= parsed_rules(strings_view(raws@), list).take(i as int));
    }
    assert(parsed_rules(strings_view(raws@), list).take(i as int) =~= parsed_rules(
        strings_view(raws@),
        list,
    ));
    out
}

fn strip_broad_warnings(ws: Vec<String>) -> (r: Vec<String>)
    ensures
        strings_view(r@) == without_broad_warnings(strings_view(ws@)),
{
    let mut out: Vec<String> = Vec::new();
    let mut i: usize = 0;
    while i < ws.len()
        invariant
            i <= ws.len(),
            strings_view(out@) == without_broad_warnings(strings_view(ws@).take(i as int)),
        decreases ws.len() - i,
    {
        assert(strings_view(ws@).take(i + 1).drop_last() =~= strings_view(ws@).take(i as int));
        if !is_broad_matcher_warning(ws[i].as_str()) {
            out.push(ws[i].clone());
        }
        i += 1;
        assert(strings_view(out@) =~= without_broad_warnings(strings_view(ws@).take(i as int)));
    }
    assert(strings_view(ws@).take(i as int) =~= strings_view(ws@));
    out
}

fn push_unique(seen: &mut Vec<String>, w: String)
    ensures
        strings_view(final(seen)@) == (if strings_view(old(seen)@).contains(w@) {
            strings_view(old(seen)@)
        } else {
            strings_view(old(seen)@).push(w@)
        }),
{
    let ghost sv = strings_view(seen@);
    let mut i: usize = 0;
    while i < seen.len()
        invariant
            i <= seen.len(),
            sv == strings_view(seen@),
            forall|j: int| 0 <= j < i ==> sv[j] != w@,
        decreases seen.len() - i,
    {
        if str_eq(seen[i].as_str(), w.as_str()) {
            assert(sv[i as int] == w@);
            return;
        }
        i += 1;
    }
    seen.push(w);
    assert(strings_view(seen@) =~= sv.push(w@));
}

impl PermissionPolicy {
    fn list_warnings_of(&self, raws: &[String], list: RuleList, seen: &mut Vec<String>)
        ensures
            strings_view(final(seen)@) == dedup_onto(
                strings_view(old(seen)@),
                list_warnings(strings_view(raws@), list, self@.active_mode, self@.requirements),
            ),
    {
        let ghost start = strings_view(seen@);
        let mut i: usize = 0;
        while i < raws.len()
            invariant
                i <= raws.len(),
                strings_view(seen@) == dedup_onto(
                    start,
                    list_warnings(strings_view(raws@).take(i as int), list, self@.active_mode, self@.requirements),
                ),
            decreases raws.len() - i,
        {
            let ghost before = strings_view(seen@);
            let (rule, ws) = PermissionRule::parse_with_warning(raws[i].as_str(), list);
            let ws = match list {
                RuleList::Allow => {
                    let required = match exact_requirement_index(
                        &self.tool_requirements,
                        &chars_of(rule.tool_name.as_str()),
                    ) {
                        Some(k) => {
                            proof {
                                lemma_exact_unique(self@.requirements, rule.tool_name@, k as int);
                            }
                            assert(self@.requirements[k as int] == (
                                self.tool_requirements@[k as int].0@,
                                self.tool_requirements@[k as int].1,
                            ));
                            self.tool_requirements[k].1
                        },
                        None => PermissionMode::WorkspaceWrite,
                    };
                    let redundant = match rule.matcher {
                        PermissionRuleMatcher::Any => self.active_mode != PermissionMode::Prompt
                            && self.active_mode.level() >= required.level(),
                        _ => false,
                    };
                    if redundant {
                        strip_broad_warnings(ws)
                    } else {
                        ws
                    }
                },
                _ => ws,
            };
            assert(strings_view(ws@) == rule_warnings(
                strings_view(raws@)[i as int],
                list,
                self@.active_mode,
                self@.requirements,
            ));
            let mut k: usize = 0;
            while k < ws.len()
                invariant
                    k <= ws.len(),
                    strings_view(seen@) == dedup_onto(before, strings_view(ws@).take(k as int)),
                decreases ws.len() - k,
            {
                push_unique(seen, ws[k].clone());
                proof {
                    lemma_dedup_onto_push(before, strings_view(ws@).take(k as int), strings_view(ws@)[k as int]);
                    assert(strings_view(ws@).take(k + 1) =~= strings_view(ws@).take(k as int).push(
                        strings_view(ws@)[k as int],
                    ));
                }
                k += 1;
            }
            proof {
                assert(strings_view(ws@).take(k as int) =~= strings_view(ws@));
                assert(strings_view(raws@).take(i + 1).drop_last() =~= strings_view(raws@).take(
                    i as int,
                ));
                lemma_dedup_onto_append(
                    start,
                    list_warnings(strings_view(raws@).take(i as int), list, self@.active_mode, self@.requirements),
                    strings_view(ws@),
                );
            }
            i += 1;
        }
        assert(strings_view(raws@).take(i as int) =~= strings_view(raws@));
    }

    /// The warnings that building the rules of `config` into this policy
    /// reports, each once, in the order they arise.
    pub fn permission_rule_warnings(&self, config: &RuntimePermissionRuleConfig) -> (r: Vec<String>)
        ensures
            strings_view(r@) == dedup(
                list_warnings(config.allow_view(), RuleList::Allow, self@.active_mode, self@.requirements)
                    + list_warnings(config.deny_view(), RuleList::Deny, self@.active_mode, self@.requirements)
                    + list_warnings(config.ask_view(), RuleList::Ask, self@.active_mode, self@.requirements),
            ),
    {
        let mut seen: Vec<String> = Vec::new();
        assert(strings_view(seen@) =~= Seq::<Seq<char>>::empty());
        let ghost a = list_warnings(config.allow_view(), RuleList::Allow, self@.active_mode, self@.requirements);
        let ghost d = list_warnings(config.deny_view(), RuleList::Deny, self@.active_mode, self@.requirements);
        let ghost k = list_warnings(config.ask_view(), RuleList::Ask, self@.active_mode, self@.requirements);
        self.list_warnings_of(config.allow(), RuleList::Allow, &mut seen);
        self.list_warnings_of(config.deny(), RuleList::Deny, &mut seen);
        self.list_warnings_of(config.ask(), RuleList::Ask, &mut seen);
        proof {
            lemma_dedup_onto_append(seq![], a, d);
            lemma_dedup_onto_append(seq![], a + d, k);
            lemma_dedup_onto_empty(a + d + k);
        }
        seen
    }

    /// Installs the allow, deny and ask rules of `config`. The warnings the
    /// rules raise are reported by [`Self::permission_rule_warnings`].
    pub fn with_permission_rules(self, config: &RuntimePermissionRuleConfig) -> (r: Self)
        ensures
            r@.active_mode == self@.active_mode,
            r@.requirements == self@.requirements,
            r@.allow == parsed_rules(config.allow_view(), RuleList::Allow),
            r@.deny == parsed_rules(config.deny_view(), RuleList::Deny),
            r@.ask == parsed_rules(config.ask_view(), RuleList::Ask),
    {
        let allow_rules = parse_rule_list(config.allow(), RuleList::Allow);
        let deny_rules = parse_rule_list(config.deny(), RuleList::Deny);
        let ask_rules = parse_rule_list(config.ask(), RuleList::Ask);
        PermissionPolicy {
            active_mode: self.active_mode,
            tool_requirements: self.tool_requirements,
            allow_rules,
            deny_rules,
            ask_rules,
        }
    }
}

/// `dedup` of `base + s`, given that `base` has no repeats.
pub open spec fn dedup_onto(base: Seq<Seq<char>>, s: Seq<Seq<char>>) -> Seq<Seq<char>>
    decreases s.len(),
{
    if s.len() == 0 {
        base
    } else if dedup_onto(base, s.drop_last()).contains(s.last()) {
        dedup_onto(base, s.drop_last())
    } else {
        dedup_onto(base, s.drop_last()).push(s.last())
    }
}

proof fn lemma_dedup_onto_push(base: Seq<Seq<char>>, s: Seq<Seq<char>>, x: Seq<char>)
    ensures
        dedup_onto(base, s.push(x)) == (if dedup_onto(base, s).contains(x) {
            dedup_onto(base, s)
        } else {
            dedup_onto(base, s).push(x)
        }),
{
    assert(s.push(x).drop_last() =~= s);
}

proof fn lemma_dedup_onto_append(base: Seq<Seq<char>>, s: Seq<Seq<char>>, t: Seq<Seq<char>>)
    ensures
        dedup_onto(dedup_onto(base, s), t) == dedup_onto(base, s + t),
    decreases t.len(),
{
    if t.len() == 0 {
        assert(s + t =~= s);
    } else {
        lemma_dedup_onto_append(base, s, t.drop_last());
        assert((s + t).drop_last() =~= s + t.drop_last());
        assert((s + t).last() == t.last());
    }
}

proof fn lemma_dedup_onto_empty(s: Seq<Seq<char>>)
    ensures
        dedup_onto(seq![], s) == dedup(s),
    decreases s.len(),
{
    if s.len() > 0 {
        lemma_dedup_onto_empty(s.drop_last());
    }
}

// ---------------------------------------------------------------------------
// Laws.
// ---------------------------------------------------------------------------

/// A matching deny rule decides the request: it is denied whatever the
/// active mode, the required mode and any hook override say.
pub proof fn law_deny_rule_wins(
    p: PolicyView,
    tool: Seq<char>,
    input: Seq<char>,
    required: PermissionMode,
    decision: Option<PermissionOverride>,
    reason: Option<Seq<char>>,
)
    requires
        first_matching_rule(p.deny, tool, input) is Some,
    ensures
        authorization_step(p, tool, input, required, decision, reason) matches StepView::Done(
            OutcomeView::Deny(_),
        ),
{
}

/// A hook that allows a tool is obeyed whenever no deny or ask rule applies,
/// even when the active mode is below the required one.
pub proof fn law_hook_allow_respected(
    p: PolicyView,
    tool: Seq<char>,
    input: Seq<char>,
    required: PermissionMode,
    reason: Option<Seq<char>>,
)
    requires
        first_matching_rule(p.deny, tool, input) is None,
        first_matching_rule(p.ask, tool, input) is None,
    ensures
        authorization_step(p, tool, input, required, Some(PermissionOverride::Allow), reason)
            == StepView::Done(OutcomeView::Allow),
{
}

/// The policy `p` with a different active mode.
pub open spec fn with_active_mode(p: PolicyView, m: PermissionMode) -> PolicyView {
    PolicyView { active_mode: m, ..p }
}

/// Raising the active mode (outside `Prompt`) never turns an allowed
/// request into one that is denied or needs approval.
pub proof fn law_higher_mode_keeps_allow(
    p: PolicyView,
    tool: Seq<char>,
    input: Seq<char>,
    required: PermissionMode,
    decision: Option<PermissionOverride>,
    reason: Option<Seq<char>>,
    higher: PermissionMode,
)
    requires
        p.active_mode != PermissionMode::Prompt,
        higher != PermissionMode::Prompt,
        higher.rank() >= p.active_mode.rank(),
        authorization_step(p, tool, input, required, decision, reason) == StepView::Done(
            OutcomeView::Allow,
        ),
    ensures
        authorization_step(with_active_mode(p, higher), tool, input, required, decision, reason)
            == StepView::Done(OutcomeView::Allow),
{
}

/// A request is allowed when nothing applies to it but a sufficient mode.
pub proof fn law_sufficient_mode_allows(
    p: PolicyView,
    tool: Seq<char>,
    input: Seq<char>,
    required: PermissionMode,
)
    requires
        first_matching_rule(p.deny, tool, input) is None,
        first_matching_rule(p.ask, tool, input) is None,
        p.active_mode != PermissionMode::Prompt,
        p.active_mode.rank() >= required.rank(),
    ensures
        authorization_step(p, tool, input, required, None, None) == StepView::Done(OutcomeView::Allow),
{
}

/// After `with_tool_requirement(name, m)`, the policy requires `m` for `name`.
pub proof fn law_requirement_read_after_write(
    before: PolicyView,
    after: PolicyView,
    name: Seq<char>,
    m: PermissionMode,
)
    requires
        (exists|i: int| exact_requirement(before.requirements, name, i)) ==> exists|i: int|
            exact_requirement(before.requirements, name, i) && after.requirements
                == before.requirements.update(i, (name, m)),
        !(exists|i: int| exact_requirement(before.requirements, name, i)) ==> after.requirements
            == before.requirements.push((name, m)),
    ensures
        required_mode(after.requirements, name) == m,
{
    if exists|i: int| exact_requirement(before.requirements, name, i) {
        let i = choose|i: int|
            exact_requirement(before.requirements, name, i) && after.requirements
                == before.requirements.update(i, (name, m));
        assert(exact_requirement(after.requirements, name, i));
        lemma_exact_unique(after.requirements, name, i);
    } else {
        let n = before.requirements.len() as int;
        assert(exact_requirement(after.requirements, name, n)) by {
            assert forall|j: int| 0 <= j < n implies after.requirements[j].0 != name by {
                if before.requirements[j].0 == name {
                    assert(forall|k: int| 0 <= k < j ==> before.requirements[k].0 != name ==> true);
                    lemma_first_exact(before.requirements, name, j);
                }
            }
        }
        lemma_exact_unique(after.requirements, name, n);
    }
}

proof fn lemma_first_exact(reqs: Seq<(Seq<char>, PermissionMode)>, name: Seq<char>, j: int)
    requires
        0 <= j < reqs.len(),
        reqs[j].0 == name,
    ensures
        exists|i: int| exact_requirement(reqs, name, i),
    decreases j,
{
    if exists|k: int| 0 <= k < j && reqs[k].0 == name {
        let k = choose|k: int| 0 <= k < j && reqs[k].0 == name;
        lemma_first_exact(reqs, name, k);
    } else {
        assert(exact_requirement(reqs, name, j));
    }
}


/// An exact rule `Tool(x)` applies to a call of `Tool` exactly when the
/// call's permission subject is `x` itself: a subject that merely starts
/// with `x` (a longer command, say) is not matched by it.
pub proof fn law_exact_rule_matches_only_its_subject(rule: RuleView, tool: Seq<char>, input: Seq<char>)
    requires
        rule.matcher is Exact,
    ensures
        rule_matches(rule, tool, input) <==> (rule.tool_name == tool && permission_subject(input, tool) == Some(
            rule.matcher->Exact_0,
        )),
        forall|extra: Seq<char>|
            extra.len() > 0 && permission_subject(input, tool) == Some(rule.matcher->Exact_0 + extra)
                ==> !rule_matches(rule, tool, input),
{
    assert forall|extra: Seq<char>|
        extra.len() > 0 && permission_subject(input, tool) == Some(rule.matcher->Exact_0 + extra) implies !rule_matches(
        rule,
        tool,
        input,
    ) by {
        let e = rule.matcher->Exact_0;
        assert((e + extra).len() != e.len());
    }
}

} // verus!
