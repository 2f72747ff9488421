//! Machine-checkable conformance checks for contract bundles: JSON-shaped
//! artifacts of lane events, reports and approval tokens. The checks read
//! the documents only; they do not own the implementations that produce
//! them.
use vstd::prelude::*;

use crate::json_node::{
    node_get, opt_array, opt_bool, opt_str, opt_u64, pointer, pointer_of, pointer_tokens,
    pointer_tokens_exec, JsonNode,
};
use crate::text::{
    chars_of, chars_eq, dec_string, join, owned, push_all, push_decimal, push_str, split_chars,
    split_on, string_from_chars, trim, trim_chars,
};

verus! {

broadcast use vstd::std_specs::vec::group_vec_axioms;

/// Schema version a bundle must declare.
pub open spec fn bundle_schema_version() -> Seq<char> {
    "g004.contract.bundle.v1"@
}

/// Schema version each report must declare.
pub open spec fn report_schema_version() -> Seq<char> {
    "g004.report.v1"@
}

/// A single conformance validation failure.
#[derive(Debug, Clone, PartialEq, Eq)]
pub struct G004ConformanceError {
    /// JSON pointer-ish path to the invalid field.
    pub path: String,
    /// Human-readable reason the field failed validation.
    pub message: String,
}

impl G004ConformanceError {
    pub fn new(path: &str, message: &str) -> (r: Self)
        ensures
            r.path@ == path@,
            r.message@ == message@,
    {
        G004ConformanceError { path: owned(path), message: owned(message) }
    }
}

/// Path and message of each failure.
pub open spec fn error_views(v: Seq<G004ConformanceError>) -> Seq<(Seq<char>, Seq<char>)> {
    v.map_values(|e: G004ConformanceError| (e.path@, e.message@))
}

pub open spec fn failure(path: Seq<char>, message: Seq<char>) -> Seq<(Seq<char>, Seq<char>)> {
    seq![(path, message)]
}

// ---------------------------------------------------------------------------
// Lookups.
// ---------------------------------------------------------------------------

/// A path with its leading slashes removed.
pub open spec fn trim_slashes(p: Seq<char>) -> Seq<char>
    decreases p.len(),
{
    if p.len() > 0 && p[0] == '/' {
        trim_slashes(p.drop_first())
    } else {
        p
    }
}

/// The first of the pointers made of the segments from `i` on (the
/// segments of a `/`-split path, so each suffix is the pointer
/// `/seg_i/.../seg_n`) that leads to a value.
pub open spec fn suffix_lookup(root: JsonNode, segs: Seq<Seq<char>>, i: nat) -> Option<JsonNode>
    decreases segs.len() - i,
{
    if i >= segs.len() {
        None
    } else {
        match pointer_tokens(root, segs.skip(i as int)) {
            Some(x) => Some(x),
            None => suffix_lookup(root, segs, i + 1),
        }
    }
}

/// A field by its pointer, or else by the longest shorter suffix of the
/// pointer that leads to a value, so nested and flattened documents are
/// both read.
pub open spec fn get_path_of(root: JsonNode, path: Seq<char>) -> Option<JsonNode> {
    match pointer_of(root, path) {
        Some(x) => Some(x),
        None => suffix_lookup(root, split_on(trim_slashes(path), '/'), 1),
    }
}

fn trim_slashes_chars(p: &[char]) -> (r: Vec<char>)
    ensures
        r@ == trim_slashes(p@),
{
    let mut i: usize = 0;
    assert(p@.skip(0) =~= p@);
    while i < p.len() && p[i] == '/'
        invariant
            i <= p.len(),
            trim_slashes(p@.skip(i as int)) == trim_slashes(p@),
        decreases p.len() - i,
    {
        assert(p@.skip(i as int).drop_first() =~= p@.skip(i + 1));
        i += 1;
    }
    let r = crate::text::slice_to_vec(p, i, p.len());
    assert(r@ =~= p@.skip(i as int));
    r
}

/// Reads a field by pointer, falling back to suffixes of the pointer.
pub fn get_path<'a>(root: &'a JsonNode, path: &str) -> (r: Option<&'a JsonNode>)
    ensures
        match r {
            Some(x) => get_path_of(*root, path@) == Some(*x),
            None => get_path_of(*root, path@) is None,
        },
{
    if let Some(v) = pointer(root, path) {
        return Some(v);
    }
    let c = chars_of(path);
    let trimmed = trim_slashes_chars(&c);
    let segs = split_chars(&trimmed, '/');
    let ghost sv = segs@.map_values(|t: Vec<char>| t@);
    let mut i: usize = 1;
    while i < segs.len()
        invariant
            1 <= i,
            sv == segs@.map_values(|t: Vec<char>| t@),
            sv == split_on(trim_slashes(path@), '/'),
            pointer_of(*root, path@) is None,
            suffix_lookup(*root, sv, 1) == suffix_lookup(*root, sv, i as nat),
        decreases segs.len() - i,
    {
        let suffix = crate::json_node::skip_vecs(&segs, i);
        assert(suffix@.map_values(|t: Vec<char>| t@) =~= sv.skip(i as int));
        if let Some(v) = pointer_tokens_exec(root, suffix.as_slice()) {
            return Some(v);
        }
        i += 1;
    }
    None
}

// ---------------------------------------------------------------------------
// Field checks.
// ---------------------------------------------------------------------------

pub open spec fn missing_string() -> Seq<char> {
    "required string field missing"@
}

/// A string field that must equal `expected`.
pub open spec fn string_eq_errs(root: JsonNode, ptr: Seq<char>, error_path: Seq<char>, expected: Seq<char>) -> Seq<(Seq<char>, Seq<char>)> {
    match opt_str(get_path_of(root, ptr)) {
        Some(a) => if a == expected {
            seq![]
        } else {
            failure(error_path, "expected '"@ + expected + "', got '"@ + a + "'"@)
        },
        None => failure(error_path, missing_string()),
    }
}

/// A string field that must not be blank.
pub open spec fn non_empty_string_errs(root: JsonNode, ptr: Seq<char>, error_path: Seq<char>) -> Seq<(Seq<char>, Seq<char>)> {
    match opt_str(get_path_of(root, ptr)) {
        Some(a) => if trim(a).len() > 0 {
            seq![]
        } else {
            failure(error_path, "string must not be empty"@)
        },
        None => failure(error_path, missing_string()),
    }
}

/// A string field that must be one of `allowed`.
pub open spec fn one_of_errs(root: JsonNode, ptr: Seq<char>, error_path: Seq<char>, allowed: Seq<Seq<char>>) -> Seq<(Seq<char>, Seq<char>)> {
    match opt_str(get_path_of(root, ptr)) {
        Some(a) => if allowed.contains(a) {
            seq![]
        } else {
            failure(error_path, "'"@ + a + "' is not one of "@ + join(allowed, ", "@))
        },
        None => failure(error_path, missing_string()),
    }
}

/// A boolean field that must be true.
pub open spec fn bool_true_errs(root: JsonNode, ptr: Seq<char>, error_path: Seq<char>) -> Seq<(Seq<char>, Seq<char>)> {
    match opt_bool(get_path_of(root, ptr)) {
        Some(true) => seq![],
        Some(false) => failure(error_path, "must be true"@),
        None => failure(error_path, "required boolean field missing"@),
    }
}

/// The items of a field that must be a non-empty array, or the failure.
pub open spec fn array_errs(value: Option<JsonNode>, path: Seq<char>) -> Seq<(Seq<char>, Seq<char>)> {
    match opt_array(value) {
        Some(a) => if a.len() > 0 {
            seq![]
        } else {
            failure(path, "array must not be empty"@)
        },
        None => failure(path, "required array field missing"@),
    }
}

/// `path/i`.
pub open spec fn indexed(path: Seq<char>, i: nat) -> Seq<char> {
    path + "/"@ + dec_string(i)
}

pub open spec fn error_view(e: G004ConformanceError) -> (Seq<char>, Seq<char>) {
    (e.path@, e.message@)
}

fn push_error(errors: &mut Vec<G004ConformanceError>, path: &[char], message: &[char])
    ensures
        error_views(final(errors)@) == error_views(old(errors)@) + failure(path@, message@),
{
    let e = G004ConformanceError { path: string_from_chars(path), message: string_from_chars(message) };
    errors.push(e);
    assert(error_views(errors@) =~= error_views(old(errors)@) + failure(path@, message@));
}

fn text(s: &str) -> (r: Vec<char>)
    ensures
        r@ == s@,
{
    chars_of(s)
}

fn require_string_eq_at(
    root: &JsonNode,
    ptr: &str,
    error_path: &[char],
    expected: &str,
    errors: &mut Vec<G004ConformanceError>,
)
    ensures
        error_views(final(errors)@) == error_views(old(errors)@) + string_eq_errs(
            *root,
            ptr@,
            error_path@,
            expected@,
        ),
{
    match get_path(root, ptr) {
        Some(v) => match v.as_str() {
            Some(actual) => {
                if crate::text::str_eq(actual, expected) {
                    assert(error_views(errors@) =~= error_views(old(errors)@) + seq![]);
                } else {
                    let mut m = text("expected '");
                    push_str(&mut m, expected);
                    push_str(&mut m, "', got '");
                    push_str(&mut m, actual);
                    push_str(&mut m, "'");
                    push_error(errors, error_path, &m);
                }
            },
            None => {
                push_error(errors, error_path, &text("required string field missing"));
            },
        },
        None => {
            push_error(errors, error_path, &text("required string field missing"));
        },
    }
}

fn require_non_empty_string_at(
    root: &JsonNode,
    ptr: &str,
    error_path: &[char],
    errors: &mut Vec<G004ConformanceError>,
)
    ensures
        error_views(final(errors)@) == error_views(old(errors)@) + non_empty_string_errs(
            *root,
            ptr@,
            error_path@,
        ),
{
    match get_path(root, ptr) {
        Some(v) => match v.as_str() {
            Some(actual) => {
                if crate::text::trim_str(actual).len() > 0 {
                    assert(error_views(errors@) =~= error_views(old(errors)@) + seq![]);
                } else {
                    push_error(errors, error_path, &text("string must not be empty"));
                }
            },
            None => {
                push_error(errors, error_path, &text("required string field missing"));
            },
        },
        None => {
            push_error(errors, error_path, &text("required string field missing"));
        },
    }
}

fn require_one_of_at(
    root: &JsonNode,
    ptr: &str,
    error_path: &[char],
    allowed: &Vec<String>,
    errors: &mut Vec<G004ConformanceError>,
)
    ensures
        error_views(final(errors)@) == error_views(old(errors)@) + one_of_errs(
            *root,
            ptr@,
            error_path@,
            crate::text::string_views(allowed@),
        ),
{
    let ghost av = crate::text::string_views(allowed@);
    match get_path(root, ptr) {
        Some(v) => match v.as_str() {
            Some(actual) => {
                let mut found = false;
                let mut i: usize = 0;
                while i < allowed.len()
                    invariant
                        i <= allowed@.len(),
                        av == crate::text::string_views(allowed@),
                        found == av.take(i as int).contains(actual@),
                    decreases allowed.len() - i,
                {
                    assert(av.take(i + 1) =~= av.take(i as int).push(allowed@[i as int]@));
                    if crate::text::str_eq(allowed[i].as_str(), actual) {
                        found = true;
                    }
                    proof {
                        let t1 = av.take(i + 1);
                        let t0 = av.take(i as int);
                        if t1.contains(actual@) && !t0.contains(actual@) {
                            let k = choose|k: int| 0 <= k < t1.len() && #[trigger] t1[k] == actual@;
                            if k < i {
                                assert(t0[k] == actual@);
                            }
                        }
                        if t0.contains(actual@) {
                            let k = choose|k: int| 0 <= k < t0.len() && #[trigger] t0[k] == actual@;
                            assert(t1[k] == actual@);
                        }
                        if allowed@[i as int]@ == actual@ {
                            assert(t1[i as int] == actual@);
                        }
                    }
                    i += 1;
                }
                assert(av.take(allowed@.len() as int) =~= av);
                if found {
                    assert(error_views(errors@) =~= error_views(old(errors)@) + seq![]);
                } else {
                    let mut m = text("'");
                    push_str(&mut m, actual);
                    push_str(&mut m, "' is not one of ");
                    let joined = crate::text::join_strings(allowed, ", ");
                    push_all(&mut m, &joined);
                    push_error(errors, error_path, &m);
                }
            },
            None => {
                push_error(errors, error_path, &text("required string field missing"));
            },
        },
        None => {
            push_error(errors, error_path, &text("required string field missing"));
        },
    }
}

fn require_bool_true_at(
    root: &JsonNode,
    ptr: &str,
    error_path: &[char],
    errors: &mut Vec<G004ConformanceError>,
)
    ensures
        error_views(final(errors)@) == error_views(old(errors)@) + bool_true_errs(
            *root,
            ptr@,
            error_path@,
        ),
{
    match get_path(root, ptr) {
        Some(v) => match v.as_bool() {
            Some(true) => {
                assert(error_views(errors@) =~= error_views(old(errors)@) + seq![]);
            },
            Some(false) => {
                push_error(errors, error_path, &text("must be true"));
            },
            None => {
                push_error(errors, error_path, &text("required boolean field missing"));
            },
        },
        None => {
            push_error(errors, error_path, &text("required boolean field missing"));
        },
    }
}

fn non_empty_array<'a>(
    value: Option<&'a JsonNode>,
    path: &[char],
    errors: &mut Vec<G004ConformanceError>,
) -> (r: Option<&'a Vec<JsonNode>>)
    ensures
        error_views(final(errors)@) == error_views(old(errors)@) + array_errs(
            match value {
                Some(n) => Some(*n),
                None => None,
            },
            path@,
        ),
        match r {
            Some(items) => opt_array(
                match value {
                    Some(n) => Some(*n),
                    None => None,
                },
            ) == Some(items@) && items@.len() > 0,
            None => !(opt_array(
                match value {
                    Some(n) => Some(*n),
                    None => None,
                },
            ) matches Some(a) && a.len() > 0),
        },
{
    match value {
        Some(v) => match v.as_array() {
            Some(items) => {
                if items.len() > 0 {
                    assert(error_views(errors@) =~= error_views(old(errors)@) + seq![]);
                    Some(items)
                } else {
                    push_error(errors, path, &text("array must not be empty"));
                    None
                }
            },
            None => {
                push_error(errors, path, &text("required array field missing"));
                None
            },
        },
        None => {
            push_error(errors, path, &text("required array field missing"));
            None
        },
    }
}

fn indexed_path(path: &[char], i: usize) -> (r: Vec<char>)
    ensures
        r@ == indexed(path@, i as nat),
{
    let mut r = crate::text::slice_to_vec(path, 0, path.len());
    assert(r@ =~= path@);
    r.push('/');
    push_decimal(&mut r, i as u64);
    proof {
        reveal_strlit("/");
    }
    assert(r@ =~= indexed(path@, i as nat));
    r
}

fn field_path(base: &[char], suffix: &str) -> (r: Vec<char>)
    ensures
        r@ == base@ + suffix@,
{
    let mut r = crate::text::slice_to_vec(base, 0, base.len());
    assert(r@ =~= base@);
    push_str(&mut r, suffix);
    r
}

// ---------------------------------------------------------------------------
// Document checks.
// ---------------------------------------------------------------------------

pub type Failures = Seq<(Seq<char>, Seq<char>)>;

/// The failures of each item of an array, each under its indexed path.
pub open spec fn each_errs(items: Seq<JsonNode>, path: Seq<char>, f: spec_fn(JsonNode, Seq<char>) -> Failures) -> Failures
    decreases items.len(),
{
    if items.len() == 0 {
        seq![]
    } else {
        each_errs(items.drop_last(), path, f) + f(items.last(), indexed(path, (items.len() - 1) as nat))
    }
}

/// A field that must be a non-empty array whose items pass `f`.
pub open spec fn array_items_errs(value: Option<JsonNode>, path: Seq<char>, f: spec_fn(JsonNode, Seq<char>) -> Failures) -> Failures {
    array_errs(value, path) + match opt_array(value) {
        Some(a) => if a.len() > 0 {
            each_errs(a, path, f)
        } else {
            seq![]
        },
        None => seq![],
    }
}

pub open spec fn finding_kinds() -> Seq<Seq<char>> {
    seq!["fact"@, "hypothesis"@, "negative_evidence"@]
}

pub open spec fn confidence_levels() -> Seq<Seq<char>> {
    seq!["low"@, "medium"@, "high"@]
}

/// A finding: a known kind, a known confidence and a statement.
pub open spec fn finding_errs(n: JsonNode, base: Seq<char>) -> Failures {
    one_of_errs(n, "/kind"@, base + "/kind"@, finding_kinds()) + one_of_errs(
        n,
        "/confidence"@,
        base + "/confidence"@,
        confidence_levels(),
    ) + non_empty_string_errs(n, "/statement"@, base + "/statement"@)
}

/// A field delta: the field, both hashes and its attribution.
pub open spec fn delta_errs(n: JsonNode, base: Seq<char>) -> Failures {
    non_empty_string_errs(n, "/field"@, base + "/field"@) + non_empty_string_errs(
        n,
        "/previousHash"@,
        base + "/previousHash"@,
    ) + non_empty_string_errs(n, "/currentHash"@, base + "/currentHash"@) + non_empty_string_errs(
        n,
        "/attribution"@,
        base + "/attribution"@,
    )
}

/// A delegation hop: who, to whom, what and when.
pub open spec fn hop_errs(n: JsonNode, base: Seq<char>) -> Failures {
    non_empty_string_errs(n, "/from"@, base + "/from"@) + non_empty_string_errs(n, "/to"@, base + "/to"@)
        + non_empty_string_errs(n, "/action"@, base + "/action"@) + non_empty_string_errs(
        n,
        "/at"@,
        base + "/at"@,
    )
}

fn append_each(
    items: &Vec<JsonNode>,
    path: &[char],
    errors: &mut Vec<G004ConformanceError>,
    which: ItemCheck,
)
    ensures
        error_views(final(errors)@) == error_views(old(errors)@) + each_errs(
            items@,
            path@,
            check_of(which),
        ),
{
    let ghost start = error_views(errors@);
    let mut i: usize = 0;
    while i < items.len()
        invariant
            i <= items@.len(),
                start == error_views(old(errors)@),
            error_views(errors@) == start + each_errs(items@.take(i as int), path@, check_of(which)),
        decreases items.len() - i,
    {
        assert(items@.take(i + 1).drop_last() =~= items@.take(i as int));
        assert(items@.take(i + 1).last() == items@[i as int]);
        let base = indexed_path(path, i);
        let ghost before = error_views(errors@);
        let item = &items[i];
        match which {
            ItemCheck::Finding => check_finding(item, &base, errors),
            ItemCheck::Delta => check_delta(item, &base, errors),
            ItemCheck::Hop => check_hop(item, &base, errors),
        }
        assert(error_views(errors@) =~= start + each_errs(items@.take(i + 1), path@, check_of(which)));
        i += 1;
    }
    assert(items@.take(items@.len() as int) =~= items@);
}

/// The kinds of array items the checks read.
#[derive(Clone, Copy)]
enum ItemCheck {
    Finding,
    Delta,
    Hop,
}

/// The check of one kind of item.
spec fn check_of(which: ItemCheck) -> spec_fn(JsonNode, Seq<char>) -> Failures {
    match which {
        ItemCheck::Finding => |n: JsonNode, b: Seq<char>| finding_errs(n, b),
        ItemCheck::Delta => |n: JsonNode, b: Seq<char>| delta_errs(n, b),
        ItemCheck::Hop => |n: JsonNode, b: Seq<char>| hop_errs(n, b),
    }
}

fn check_finding(n: &JsonNode, base: &[char], errors: &mut Vec<G004ConformanceError>)
    ensures
        error_views(final(errors)@) == error_views(old(errors)@) + finding_errs(*n, base@),
{
    let mut kinds: Vec<String> = Vec::new();
    kinds.push(owned("fact"));
    kinds.push(owned("hypothesis"));
    kinds.push(owned("negative_evidence"));
    assert(crate::text::string_views(kinds@) =~= finding_kinds());
    let mut levels: Vec<String> = Vec::new();
    levels.push(owned("low"));
    levels.push(owned("medium"));
    levels.push(owned("high"));
    assert(crate::text::string_views(levels@) =~= confidence_levels());
    require_one_of_at(n, "/kind", &field_path(base, "/kind"), &kinds, errors);
    require_one_of_at(n, "/confidence", &field_path(base, "/confidence"), &levels, errors);
    require_non_empty_string_at(n, "/statement", &field_path(base, "/statement"), errors);
    assert(error_views(errors@) =~= error_views(old(errors)@) + finding_errs(*n, base@));
}

fn check_delta(n: &JsonNode, base: &[char], errors: &mut Vec<G004ConformanceError>)
    ensures
        error_views(final(errors)@) == error_views(old(errors)@) + delta_errs(*n, base@),
{
    require_non_empty_string_at(n, "/field", &field_path(base, "/field"), errors);
    require_non_empty_string_at(n, "/previousHash", &field_path(base, "/previousHash"), errors);
    require_non_empty_string_at(n, "/currentHash", &field_path(base, "/currentHash"), errors);
    require_non_empty_string_at(n, "/attribution", &field_path(base, "/attribution"), errors);
    assert(error_views(errors@) =~= error_views(old(errors)@) + delta_errs(*n, base@));
}

fn check_hop(n: &JsonNode, base: &[char], errors: &mut Vec<G004ConformanceError>)
    ensures
        error_views(final(errors)@) == error_views(old(errors)@) + hop_errs(*n, base@),
{
    require_non_empty_string_at(n, "/from", &field_path(base, "/from"), errors);
    require_non_empty_string_at(n, "/to", &field_path(base, "/to"), errors);
    require_non_empty_string_at(n, "/action", &field_path(base, "/action"), errors);
    require_non_empty_string_at(n, "/at", &field_path(base, "/at"), errors);
    assert(error_views(errors@) =~= error_views(old(errors)@) + hop_errs(*n, base@));
}

pub open spec fn opt_node(v: Option<&JsonNode>) -> Option<JsonNode> {
    match v {
        Some(n) => Some(*n),
        None => None,
    }
}

fn check_array_items(
    value: Option<&JsonNode>,
    path: &[char],
    errors: &mut Vec<G004ConformanceError>,
    which: ItemCheck,
)
    ensures
        error_views(final(errors)@) == error_views(old(errors)@) + array_items_errs(
            opt_node(value),
            path@,
            check_of(which),
        ),
{
    let ghost start = error_views(errors@);
    match non_empty_array(value, path, errors) {
        Some(items) => {
            let ghost mid = error_views(errors@);
            append_each(items, path, errors, which);
            assert(error_views(errors@) =~= start + array_items_errs(opt_node(value), path@, check_of(which)));
        },
        None => {
            assert(error_views(errors@) =~= start + array_items_errs(opt_node(value), path@, check_of(which)));
        },
    }
}

/// The identity and provenance fields of a report.
pub open spec fn report_header_errs(r: JsonNode, base: Seq<char>) -> Failures {
    string_eq_errs(r, "/schemaVersion"@, base + "/schemaVersion"@, report_schema_version())
        + non_empty_string_errs(r, "/reportId"@, base + "/reportId"@) + non_empty_string_errs(
        r,
        "/identity/contentHash"@,
        base + "/identity/contentHash"@,
    ) + non_empty_string_errs(r, "/projection/provenance"@, base + "/projection/provenance"@)
        + non_empty_string_errs(r, "/redaction/provenance"@, base + "/redaction/provenance"@)
}

/// The capabilities, findings and field deltas of a report.
pub open spec fn report_body_errs(r: JsonNode, base: Seq<char>) -> Failures {
    array_errs(get_path_of(r, "/consumerCapabilities"@), base + "/consumerCapabilities"@)
        + array_items_errs(
        get_path_of(r, "/findings"@),
        base + "/findings"@,
        |n: JsonNode, b: Seq<char>| finding_errs(n, b),
    ) + array_items_errs(
        get_path_of(r, "/fieldDeltas"@),
        base + "/fieldDeltas"@,
        |n: JsonNode, b: Seq<char>| delta_errs(n, b),
    )
}

/// A report: its schema, identity, provenance, capabilities, findings and
/// field deltas.
pub open spec fn report_errs(r: JsonNode, base: Seq<char>) -> Failures {
    report_header_errs(r, base) + report_body_errs(r, base)
}

/// The identity, scope and replay fields of an approval token.
pub open spec fn token_fields_errs(t: JsonNode, base: Seq<char>) -> Failures {
    non_empty_string_errs(t, "/tokenId"@, base + "/tokenId"@) + non_empty_string_errs(
        t,
        "/owner"@,
        base + "/owner"@,
    ) + non_empty_string_errs(t, "/scope"@, base + "/scope"@) + non_empty_string_errs(
        t,
        "/issuedAt"@,
        base + "/issuedAt"@,
    ) + bool_true_errs(t, "/oneTimeUse"@, base + "/oneTimeUse"@) + non_empty_string_errs(
        t,
        "/replayPreventionNonce"@,
        base + "/replayPreventionNonce"@,
    )
}

/// An approval token: owner, scope, issue time, one-time use, a replay
/// nonce and its delegation chain.
pub open spec fn token_errs(t: JsonNode, base: Seq<char>) -> Failures {
    token_fields_errs(t, base) + array_items_errs(
        get_path_of(t, "/delegationChain"@),
        base + "/delegationChain"@,
        |n: JsonNode, b: Seq<char>| hop_errs(n, b),
    )
}

fn check_report_header(r: &JsonNode, base: &[char], errors: &mut Vec<G004ConformanceError>)
    ensures
        error_views(final(errors)@) == error_views(old(errors)@) + report_header_errs(*r, base@),
{
    let ghost start = error_views(errors@);
    require_string_eq_at(r, "/schemaVersion", &field_path(base, "/schemaVersion"), "g004.report.v1", errors);
    require_non_empty_string_at(r, "/reportId", &field_path(base, "/reportId"), errors);
    require_non_empty_string_at(r, "/identity/contentHash", &field_path(base, "/identity/contentHash"), errors);
    require_non_empty_string_at(r, "/projection/provenance", &field_path(base, "/projection/provenance"), errors);
    require_non_empty_string_at(r, "/redaction/provenance", &field_path(base, "/redaction/provenance"), errors);
    assert(error_views(errors@) =~= start + report_header_errs(*r, base@));
}

fn check_report_body(r: &JsonNode, base: &[char], errors: &mut Vec<G004ConformanceError>)
    ensures
        error_views(final(errors)@) == error_views(old(errors)@) + report_body_errs(*r, base@),
{
    let ghost start = error_views(errors@);
    non_empty_array(get_path(r, "/consumerCapabilities"), &field_path(base, "/consumerCapabilities"), errors);
    check_array_items(get_path(r, "/findings"), &field_path(base, "/findings"), errors, ItemCheck::Finding);
    check_array_items(get_path(r, "/fieldDeltas"), &field_path(base, "/fieldDeltas"), errors, ItemCheck::Delta);
    assert(check_of(ItemCheck::Finding) == (|n: JsonNode, b: Seq<char>| finding_errs(n, b)));
    assert(check_of(ItemCheck::Delta) == (|n: JsonNode, b: Seq<char>| delta_errs(n, b)));
    assert(error_views(errors@) =~= start + report_body_errs(*r, base@));
}

fn check_report(r: &JsonNode, base: &[char], errors: &mut Vec<G004ConformanceError>)
    ensures
        error_views(final(errors)@) == error_views(old(errors)@) + report_errs(*r, base@),
{
    let ghost start = error_views(errors@);
    check_report_header(r, base, errors);
    check_report_body(r, base, errors);
    assert(error_views(errors@) =~= start + report_errs(*r, base@));
}

fn check_token_fields(t: &JsonNode, base: &[char], errors: &mut Vec<G004ConformanceError>)
    ensures
        error_views(final(errors)@) == error_views(old(errors)@) + token_fields_errs(*t, base@),
{
    let ghost start = error_views(errors@);
    require_non_empty_string_at(t, "/tokenId", &field_path(base, "/tokenId"), errors);
    require_non_empty_string_at(t, "/owner", &field_path(base, "/owner"), errors);
    require_non_empty_string_at(t, "/scope", &field_path(base, "/scope"), errors);
    require_non_empty_string_at(t, "/issuedAt", &field_path(base, "/issuedAt"), errors);
    require_bool_true_at(t, "/oneTimeUse", &field_path(base, "/oneTimeUse"), errors);
    require_non_empty_string_at(t, "/replayPreventionNonce", &field_path(base, "/replayPreventionNonce"), errors);
    assert(error_views(errors@) =~= start + token_fields_errs(*t, base@));
}

fn check_token(t: &JsonNode, base: &[char], errors: &mut Vec<G004ConformanceError>)
    ensures
        error_views(final(errors)@) == error_views(old(errors)@) + token_errs(*t, base@),
{
    let ghost start = error_views(errors@);
    check_token_fields(t, base, errors);
    check_array_items(get_path(t, "/delegationChain"), &field_path(base, "/delegationChain"), errors, ItemCheck::Hop);
    assert(check_of(ItemCheck::Hop) == (|n: JsonNode, b: Seq<char>| hop_errs(n, b)));
    assert(error_views(errors@) =~= start + token_errs(*t, base@));
}

fn validate_reports(value: Option<&JsonNode>, path: &[char], errors: &mut Vec<G004ConformanceError>)
    ensures
        error_views(final(errors)@) == error_views(old(errors)@) + array_items_errs(
            opt_node(value),
            path@,
            |n: JsonNode, b: Seq<char>| report_errs(n, b),
        ),
{
    let ghost f = |n: JsonNode, b: Seq<char>| report_errs(n, b);
    let ghost start = error_views(errors@);
    let items = match non_empty_array(value, path, errors) {
        Some(items) => items,
        None => {
            assert(error_views(errors@) =~= start + array_items_errs(opt_node(value), path@, f));
            return;
        },
    };
    let ghost mid = error_views(errors@);
    let mut i: usize = 0;
    while i < items.len()
        invariant
            i <= items@.len(),
            f == (|n: JsonNode, b: Seq<char>| report_errs(n, b)),
            error_views(errors@) == mid + each_errs(items@.take(i as int), path@, f),
        decreases items.len() - i,
    {
        assert(items@.take(i + 1).drop_last() =~= items@.take(i as int));
        assert(items@.take(i + 1).last() == items@[i as int]);
        let base = indexed_path(path, i);
        let ghost before = error_views(errors@);
        check_report(&items[i], &base, errors);
        assert(f(items@[i as int], base@) == report_errs(items@[i as int], base@));
        assert(each_errs(items@.take(i + 1), path@, f) == each_errs(items@.take(i as int), path@, f) + f(
            items@[i as int],
            indexed(path@, i as nat),
        ));
        assert(error_views(errors@) =~= mid + each_errs(items@.take(i + 1), path@, f));
        i += 1;
    }
    assert(items@.take(items@.len() as int) =~= items@);
    assert(error_views(errors@) =~= start + array_items_errs(opt_node(value), path@, f));
}

fn validate_approval_tokens(value: Option<&JsonNode>, path: &[char], errors: &mut Vec<G004ConformanceError>)
    ensures
        error_views(final(errors)@) == error_views(old(errors)@) + array_items_errs(
            opt_node(value),
            path@,
            |n: JsonNode, b: Seq<char>| token_errs(n, b),
        ),
{
    let ghost f = |n: JsonNode, b: Seq<char>| token_errs(n, b);
    let ghost start = error_views(errors@);
    let items = match non_empty_array(value, path, errors) {
        Some(items) => items,
        None => {
            assert(error_views(errors@) =~= start + array_items_errs(opt_node(value), path@, f));
            return;
        },
    };
    let ghost mid = error_views(errors@);
    let mut i: usize = 0;
    while i < items.len()
        invariant
            i <= items@.len(),
            f == (|n: JsonNode, b: Seq<char>| token_errs(n, b)),
            error_views(errors@) == mid + each_errs(items@.take(i as int), path@, f),
        decreases items.len() - i,
    {
        assert(items@.take(i + 1).drop_last() =~= items@.take(i as int));
        assert(items@.take(i + 1).last() == items@[i as int]);
        let base = indexed_path(path, i);
        let ghost before = error_views(errors@);
        check_token(&items[i], &base, errors);
        assert(f(items@[i as int], base@) == token_errs(items@[i as int], base@));
        assert(each_errs(items@.take(i + 1), path@, f) == each_errs(items@.take(i as int), path@, f) + f(
            items@[i as int],
            indexed(path@, i as nat),
        ));
        assert(error_views(errors@) =~= mid + each_errs(items@.take(i + 1), path@, f));
        i += 1;
    }
    assert(items@.take(items@.len() as int) =~= items@);
    assert(error_views(errors@) =~= start + array_items_errs(opt_node(value), path@, f));
}

/// The sequence number of a lane event, when it has one.
pub open spec fn seq_value(e: JsonNode) -> Option<u64> {
    opt_u64(get_path_of(e, "/metadata/seq"@))
}

/// The sequence number of the last event that has one.
pub open spec fn last_seq(events: Seq<JsonNode>) -> Option<u64>
    decreases events.len(),
{
    if events.len() == 0 {
        None
    } else {
        match seq_value(events.last()) {
            Some(s) => Some(s),
            None => last_seq(events.drop_last()),
        }
    }
}

/// Whether an event name is one that ends a lane.
pub open spec fn is_terminal_event(v: Option<JsonNode>) -> bool {
    match opt_str(v) {
        Some(s) => s == "lane.finished"@ || s == "lane.failed"@ || s == "lane.merged"@ || s
            == "lane.superseded"@ || s == "lane.closed"@,
        None => false,
    }
}

/// The identity, status, time and provenance fields of a lane event.
pub open spec fn event_fields_errs(e: JsonNode, base: Seq<char>) -> Failures {
    non_empty_string_errs(e, "/event"@, base + "/event"@) + non_empty_string_errs(
        e,
        "/status"@,
        base + "/status"@,
    ) + non_empty_string_errs(e, "/emittedAt"@, base + "/emittedAt"@) + non_empty_string_errs(
        e,
        "/metadata/provenance"@,
        base + "/metadata/provenance"@,
    ) + non_empty_string_errs(e, "/metadata/emitterIdentity"@, base + "/metadata/emitterIdentity"@)
        + non_empty_string_errs(
        e,
        "/metadata/environmentLabel"@,
        base + "/metadata/environmentLabel"@,
    )
}

/// The sequence number of a lane event: present, and above the previous
/// event's.
pub open spec fn event_seq_errs(e: JsonNode, previous: Option<u64>, base: Seq<char>) -> Failures {
    match seq_value(e) {
        Some(s) => match previous {
            Some(p) => if s <= p {
                failure(base + "/metadata/seq"@, "sequence must be strictly increasing"@)
            } else {
                seq![]
            },
            None => seq![],
        },
        None => failure(base + "/metadata/seq"@, "required u64 field missing"@),
    }
}

/// A lane event: identity, status, time and provenance; a sequence number
/// above the previous event's; and a fingerprint when it ends the lane.
pub open spec fn event_errs(e: JsonNode, previous: Option<u64>, base: Seq<char>) -> Failures {
    event_fields_errs(e, base) + event_seq_errs(e, previous, base) + if is_terminal_event(
        node_get(e, "event"@),
    ) {
        non_empty_string_errs(e, "/metadata/eventFingerprint"@, base + "/metadata/eventFingerprint"@)
    } else {
        seq![]
    }
}

/// The failures of a list of lane events, in order.
pub open spec fn events_errs(events: Seq<JsonNode>, path: Seq<char>) -> Failures
    decreases events.len(),
{
    if events.len() == 0 {
        seq![]
    } else {
        events_errs(events.drop_last(), path) + event_errs(
            events.last(),
            last_seq(events.drop_last()),
            indexed(path, (events.len() - 1) as nat),
        )
    }
}

pub open spec fn lane_events_errs(value: Option<JsonNode>, path: Seq<char>) -> Failures {
    array_errs(value, path) + match opt_array(value) {
        Some(a) => if a.len() > 0 {
            events_errs(a, path)
        } else {
            seq![]
        },
        None => seq![],
    }
}

/// Every failure of a contract bundle, in the order the checks run: the
/// bundle's schema, its lane events, its reports, its approval tokens.
pub open spec fn bundle_errs(bundle: JsonNode) -> Failures {
    string_eq_errs(bundle, "/schemaVersion"@, "/schemaVersion"@, bundle_schema_version())
        + lane_events_errs(node_get(bundle, "laneEvents"@), "/laneEvents"@) + array_items_errs(
        node_get(bundle, "reports"@),
        "/reports"@,
        |n: JsonNode, b: Seq<char>| report_errs(n, b),
    ) + array_items_errs(
        node_get(bundle, "approvalTokens"@),
        "/approvalTokens"@,
        |n: JsonNode, b: Seq<char>| token_errs(n, b),
    )
}

fn is_terminal_event_value(value: Option<&JsonNode>) -> (r: bool)
    ensures
        r == is_terminal_event(opt_node(value)),
{
    match value {
        Some(v) => match v.as_str() {
            Some(s) => crate::text::str_eq(s, "lane.finished") || crate::text::str_eq(s, "lane.failed")
                || crate::text::str_eq(s, "lane.merged") || crate::text::str_eq(s, "lane.superseded")
                || crate::text::str_eq(s, "lane.closed"),
            None => false,
        },
        None => false,
    }
}

fn check_event_fields(e: &JsonNode, base: &[char], errors: &mut Vec<G004ConformanceError>)
    ensures
        error_views(final(errors)@) == error_views(old(errors)@) + event_fields_errs(*e, base@),
{
    let ghost start = error_views(errors@);
    require_non_empty_string_at(e, "/event", &field_path(base, "/event"), errors);
    require_non_empty_string_at(e, "/status", &field_path(base, "/status"), errors);
    require_non_empty_string_at(e, "/emittedAt", &field_path(base, "/emittedAt"), errors);
    require_non_empty_string_at(e, "/metadata/provenance", &field_path(base, "/metadata/provenance"), errors);
    require_non_empty_string_at(e, "/metadata/emitterIdentity", &field_path(base, "/metadata/emitterIdentity"), errors);
    require_non_empty_string_at(e, "/metadata/environmentLabel", &field_path(base, "/metadata/environmentLabel"), errors);
    assert(error_views(errors@) =~= start + event_fields_errs(*e, base@));
}

fn check_event(
    e: &JsonNode,
    previous: Option<u64>,
    base: &[char],
    errors: &mut Vec<G004ConformanceError>,
) -> (r: Option<u64>)
    ensures
        error_views(final(errors)@) == error_views(old(errors)@) + event_errs(*e, previous, base@),
        r == (match seq_value(*e) {
            Some(s) => Some(s),
            None => previous,
        }),
{
    let ghost start = error_views(errors@);
    check_event_fields(e, base, errors);
    let ghost after_fields = error_views(errors@);
    let seq_path = field_path(base, "/metadata/seq");
    let seq = match get_path(e, "/metadata/seq") {
        Some(v) => v.as_u64(),
        None => None,
    };
    let next = match seq {
        Some(s) => {
            match previous {
                Some(p) => {
                    if s <= p {
                        push_error(errors, &seq_path, &text("sequence must be strictly increasing"));
                    } else {
                        assert(error_views(errors@) =~= after_fields + seq![]);
                    }
                },
                None => {
                    assert(error_views(errors@) =~= after_fields + seq![]);
                },
            }
            Some(s)
        },
        None => {
            push_error(errors, &seq_path, &text("required u64 field missing"));
            previous
        },
    };
    assert(error_views(errors@) == after_fields + event_seq_errs(*e, previous, base@));
    let ghost after_seq = error_views(errors@);
    if is_terminal_event_value(e.get("event")) {
        require_non_empty_string_at(
            e,
            "/metadata/eventFingerprint",
            &field_path(base, "/metadata/eventFingerprint"),
            errors,
        );
    } else {
        assert(error_views(errors@) =~= after_seq + seq![]);
    }
    assert(error_views(errors@) =~= start + event_errs(*e, previous, base@));
    next
}

fn validate_lane_events(value: Option<&JsonNode>, path: &[char], errors: &mut Vec<G004ConformanceError>)
    ensures
        error_views(final(errors)@) == error_views(old(errors)@) + lane_events_errs(opt_node(value), path@),
{
    let ghost start = error_views(errors@);
    let items = match non_empty_array(value, path, errors) {
        Some(items) => items,
        None => {
            assert(error_views(errors@) =~= start + lane_events_errs(opt_node(value), path@));
            return;
        },
    };
    let ghost mid = error_views(errors@);
    let mut previous: Option<u64> = None;
    let mut i: usize = 0;
    while i < items.len()
        invariant
            i <= items@.len(),
            previous == last_seq(items@.take(i as int)),
            error_views(errors@) == mid + events_errs(items@.take(i as int), path@),
        decreases items.len() - i,
    {
        assert(items@.take(i + 1).drop_last() =~= items@.take(i as int));
        assert(items@.take(i + 1).last() == items@[i as int]);
        let base = indexed_path(path, i);
        previous = check_event(&items[i], previous, &base, errors);
        assert(error_views(errors@) =~= mid + events_errs(items@.take(i + 1), path@));
        i += 1;
    }
    assert(items@.take(items@.len() as int) =~= items@);
    assert(error_views(errors@) =~= start + lane_events_errs(opt_node(value), path@));
}

/// Validates a contract bundle: lane events must expose identity,
/// ordering, provenance and terminal fingerprints; reports their schema,
/// content hash, provenance, capabilities, labelled findings and field
/// deltas; approval tokens their owner, scope, delegation chain, one-time
/// use and replay nonce. Returns every failure found.
pub fn validate_g004_contract_bundle(bundle: &JsonNode) -> (r: Vec<G004ConformanceError>)
    ensures
        error_views(r@) == bundle_errs(*bundle),
{
    let mut errors: Vec<G004ConformanceError> = Vec::new();
    assert(error_views(errors@) =~= Seq::<(Seq<char>, Seq<char>)>::empty());
    let top = text("/schemaVersion");
    require_string_eq_at(bundle, "/schemaVersion", &top, "g004.contract.bundle.v1", &mut errors);
    validate_lane_events(bundle.get("laneEvents"), &text("/laneEvents"), &mut errors);
    validate_reports(bundle.get("reports"), &text("/reports"), &mut errors);
    validate_approval_tokens(bundle.get("approvalTokens"), &text("/approvalTokens"), &mut errors);
    assert(error_views(errors@) =~= bundle_errs(*bundle));
    errors
}

/// Whether a bundle passes every check.
pub fn is_g004_contract_bundle_valid(bundle: &JsonNode) -> (r: bool)
    ensures
        r == (bundle_errs(*bundle).len() == 0),
{
    validate_g004_contract_bundle(bundle).len() == 0
}


/// A terminal lane event (finished, failed, merged, superseded or closed)
/// without a fingerprint string is reported at its
/// `/metadata/eventFingerprint`, whatever else holds of it.
pub proof fn law_terminal_events_need_fingerprint(e: JsonNode, previous: Option<u64>, base: Seq<char>)
    requires
        opt_str(node_get(e, "event"@)) == Some("lane.finished"@) || opt_str(node_get(e, "event"@)) == Some(
            "lane.failed"@,
        ) || opt_str(node_get(e, "event"@)) == Some("lane.merged"@) || opt_str(node_get(e, "event"@)) == Some(
            "lane.superseded"@,
        ) || opt_str(node_get(e, "event"@)) == Some("lane.closed"@),
        opt_str(get_path_of(e, "/metadata/eventFingerprint"@)) is None,
    ensures
        event_errs(e, previous, base).contains(
            (base + "/metadata/eventFingerprint"@, "required string field missing"@),
        ),
{
    let a = event_fields_errs(e, base) + event_seq_errs(e, previous, base);
    let t = non_empty_string_errs(e, "/metadata/eventFingerprint"@, base + "/metadata/eventFingerprint"@);
    assert(is_terminal_event(node_get(e, "event"@)));
    assert(event_errs(e, previous, base) == a + t);
    assert(t[0] == (base + "/metadata/eventFingerprint"@, "required string field missing"@));
    assert((a + t)[a.len() as int] == t[0]);
}

} // verus!
