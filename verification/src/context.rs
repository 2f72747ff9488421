//! Context management for model requests: large tool results that the
//! model has already seen are replaced by short summaries, thinking blocks
//! are kept verbatim, and messages left with nothing but thinking are
//! dropped.
use vstd::prelude::*;

use vstd::utf8::encode_utf8;

use crate::session::{copy_block, elapsed_secs, ContentBlock, ConversationMessage};
use crate::text::{
    chars_of, dec_string, find, first_occurrence, is_prefix, push_all, push_decimal, push_str, slice_to_vec,
    starts_with_str, str_eq, string_from_chars, trim_start, trim_start_chars, EM_DASH,
};

verus! {

/// Thresholds for compressing context.
#[derive(Debug, Clone, Copy, PartialEq, Eq, Structural)]
pub struct CompressionConfig {
    pub toolresult_min_bytes: usize,
    pub preserve_recent_messages: usize,
    pub websearch_ttl_secs: u64,
    pub webfetch_ttl_secs: u64,
    pub compact_preserve_recent_messages: usize,
    pub compact_preserve_recent_tokens: usize,
    pub compact_max_estimated_tokens: usize,
    pub compact_preserve_last_n_turns: usize,
    pub summary_max_chars: usize,
    pub summary_max_lines: usize,
    pub summary_max_line_chars: usize,
}

/// The default thresholds.
pub open spec fn default_compression() -> CompressionConfig {
    CompressionConfig {
        toolresult_min_bytes: 500,
        preserve_recent_messages: 6,
        websearch_ttl_secs: 15,
        webfetch_ttl_secs: 30,
        compact_preserve_recent_messages: 4,
        compact_preserve_recent_tokens: 2000,
        compact_max_estimated_tokens: 10_000,
        compact_preserve_last_n_turns: 0,
        summary_max_chars: 1_200,
        summary_max_lines: 24,
        summary_max_line_chars: 160,
    }
}

impl Default for CompressionConfig {
    fn default() -> (r: Self)
        ensures
            r == default_compression(),
    {
        CompressionConfig {
            toolresult_min_bytes: 500,
            preserve_recent_messages: 6,
            websearch_ttl_secs: 15,
            webfetch_ttl_secs: 30,
            compact_preserve_recent_messages: 4,
            compact_preserve_recent_tokens: 2000,
            compact_max_estimated_tokens: 10_000,
            compact_preserve_last_n_turns: 0,
            summary_max_chars: 1_200,
            summary_max_lines: 24,
            summary_max_line_chars: 160,
        }
    }
}

// ---------------------------------------------------------------------------
// Reading values out of a tool's JSON output by key.
// ---------------------------------------------------------------------------

/// `"key":`
pub open spec fn key_pattern(key: Seq<char>) -> Seq<char> {
    seq!['"'] + key + seq!['"', ':']
}

/// The text after the first `"key":`, with leading white space removed.
pub open spec fn value_text(json: Seq<char>, key: Seq<char>) -> Option<Seq<char>> {
    match first_occurrence(json, key_pattern(key)) {
        Some(i) => Some(trim_start(json.skip(i + key_pattern(key).len()))),
        None => None,
    }
}

/// Position of the closing quote of a string body, skipping the character
/// after each backslash.
pub open spec fn quote_end(s: Seq<char>, i: int) -> Option<int>
    decreases s.len() + 1 - i,
{
    if i < 0 || i >= s.len() {
        None
    } else if s[i] == '\\' {
        quote_end(s, i + 2)
    } else if s[i] == '"' {
        Some(i)
    } else {
        quote_end(s, i + 1)
    }
}

/// The raw (still escaped) string value stored under `key`.
pub open spec fn json_str(json: Seq<char>, key: Seq<char>) -> Option<Seq<char>> {
    match value_text(json, key) {
        None => None,
        Some(rest) => if rest.len() == 0 || rest[0] != '"' {
            None
        } else {
            match quote_end(rest.skip(1), 0) {
                Some(e) => Some(rest.skip(1).take(e)),
                None => None,
            }
        },
    }
}

/// Characters a number can be written with.
pub open spec fn is_number_char(c: char) -> bool {
    ('0' <= c <= '9') || c == '-' || c == '.' || c == 'e' || c == 'E'
}

/// Length of the leading run of number characters.
pub open spec fn number_prefix_len(s: Seq<char>) -> nat
    decreases s.len(),
{
    if s.len() == 0 || !is_number_char(s[0]) {
        0
    } else {
        1 + number_prefix_len(s.drop_first())
    }
}

/// The number text stored under `key`; none for `null` or no number.
pub open spec fn json_num(json: Seq<char>, key: Seq<char>) -> Option<Seq<char>> {
    match value_text(json, key) {
        None => None,
        Some(rest) => if is_prefix("null"@, rest) {
            None
        } else if number_prefix_len(rest) > 0 {
            Some(rest.take(number_prefix_len(rest) as int))
        } else {
            None
        },
    }
}

fn value_after_key(json: &[char], key: &str) -> (r: Option<Vec<char>>)
    ensures
        match r {
            Some(v) => value_text(json@, key@) == Some(v@),
            None => value_text(json@, key@) is None,
        },
{
    let mut pattern: Vec<char> = Vec::new();
    pattern.push('"');
    push_str(&mut pattern, key);
    pattern.push('"');
    pattern.push(':');
    assert(pattern@ =~= key_pattern(key@));
    match find(json, &pattern) {
        Some(i) => {
            assert(i + pattern.len() <= json.len());
            let rest = slice_to_vec(json, i + pattern.len(), json.len());
            assert(rest@ =~= json@.skip(i + pattern@.len()));
            Some(trim_start_chars(&rest))
        },
        None => None,
    }
}

fn extract_str_chars(json: &[char], key: &str) -> (r: Option<Vec<char>>)
    ensures
        match r {
            Some(v) => json_str(json@, key@) == Some(v@),
            None => json_str(json@, key@) is None,
        },
{
    let rest = match value_after_key(json, key) {
        Some(r) => r,
        None => return None,
    };
    if rest.len() == 0 || rest[0] != '"' {
        return None;
    }
    let inner = slice_to_vec(&rest, 1, rest.len());
    assert(inner@ =~= rest@.skip(1));
    let mut i: usize = 0;
    while i < inner.len()
        invariant
            i <= inner.len() + 1,
            quote_end(inner@, 0) == quote_end(inner@, i as int),
            rest@.len() > 0,
            rest@[0] == '"',
            inner@ == rest@.skip(1),
            value_text(json@, key@) == Some(rest@),
        decreases inner.len() + 1 - i,
    {
        if inner[i] == '\\' {
            if inner.len() - i >= 2 {
                i = i + 2;
            } else {
                assert(quote_end(inner@, i + 2) is None);
                i = inner.len();
                assert(quote_end(inner@, i as int) is None);
            }
        } else if inner[i] == '"' {
            assert(quote_end(inner@, i as int) == Some(i as int));
            let v = slice_to_vec(&inner, 0, i);
            assert(rest@[0] == '"');
            assert(json_str(json@, key@) == Some(inner@.take(i as int)));
            assert(v@ =~= inner@.take(i as int));
            return Some(v);
        } else {
            i = i + 1;
        }
    }
    None
}

fn extract_num_chars(json: &[char], key: &str) -> (r: Option<Vec<char>>)
    ensures
        match r {
            Some(v) => json_num(json@, key@) == Some(v@),
            None => json_num(json@, key@) is None,
        },
{
    let rest = match value_after_key(json, key) {
        Some(r) => r,
        None => return None,
    };
    if starts_with_str(&rest, "null") {
        return None;
    }
    let mut end: usize = 0;
    proof {
        assert(rest@.skip(0) =~= rest@);
    }
    while end < rest.len() && (('0' <= rest[end] && rest[end] <= '9') || rest[end] == '-' || rest[end] == '.'
        || rest[end] == 'e' || rest[end] == 'E')
        invariant
            end <= rest.len(),
            number_prefix_len(rest@) == end + number_prefix_len(rest@.skip(end as int)),
        decreases rest.len() - end,
    {
        assert(rest@.skip(end as int).drop_first() =~= rest@.skip(end + 1));
        end += 1;
    }
    if end > 0 {
        let v = slice_to_vec(&rest, 0, end);
        assert(v@ =~= rest@.take(end as int));
        Some(v)
    } else {
        None
    }
}

/// Extracts the raw string value stored under `key` in JSON text.
pub fn extract_json_str(json: &str, key: &str) -> (r: Option<String>)
    ensures
        match r {
            Some(s) => json_str(json@, key@) == Some(s@),
            None => json_str(json@, key@) is None,
        },
{
    let j = chars_of(json);
    match extract_str_chars(&j, key) {
        Some(v) => Some(string_from_chars(&v)),
        None => None,
    }
}

/// Extracts the number text stored under `key` in JSON text.
pub fn extract_json_num(json: &str, key: &str) -> (r: Option<String>)
    ensures
        match r {
            Some(s) => json_num(json@, key@) == Some(s@),
            None => json_num(json@, key@) is None,
        },
{
    let j = chars_of(json);
    match extract_num_chars(&j, key) {
        Some(v) => Some(string_from_chars(&v)),
        None => None,
    }
}

// ---------------------------------------------------------------------------
// Summaries of tool results.
// ---------------------------------------------------------------------------

pub open spec fn or_empty(o: Option<Seq<char>>) -> Seq<char> {
    match o {
        Some(s) => s,
        None => seq![],
    }
}

pub open spec fn first_some(a: Option<Seq<char>>, b: Option<Seq<char>>) -> Option<Seq<char>> {
    if a is Some {
        a
    } else {
        b
    }
}

/// ` -- content processed]`
pub open spec fn processed_tail() -> Seq<char> {
    " "@ + seq![EM_DASH] + " content processed]"@
}

/// The start of a shell command's output kept in a summary: at most 200
/// characters, with `...` when the output is longer than 200 bytes.
pub open spec fn output_preview(s: Seq<char>) -> Seq<char> {
    if encode_utf8(s).len() > 200 {
        s.take(if s.len() < 200 {
            s.len() as int
        } else {
            200
        }) + "..."@
    } else {
        s
    }
}

pub open spec fn read_file_summary_text(out: Seq<char>) -> Seq<char> {
    "[read_file: "@ + or_empty(json_str(out, "filePath"@)) + ", "@ + or_empty(
        first_some(json_num(out, "numLines"@), json_num(out, "lineCount"@)),
    ) + " lines, "@ + or_empty(json_num(out, "bytesRead"@)) + " bytes"@ + processed_tail()
}

pub open spec fn new_file_summary_text(out: Seq<char>) -> Seq<char> {
    "[new_file: "@ + or_empty(first_some(json_str(out, "filePath"@), json_str(out, "path"@))) + ", "@ + or_empty(
        first_some(json_num(out, "bytesWritten"@), json_num(out, "bytes"@)),
    ) + " bytes written"@ + processed_tail()
}

pub open spec fn edit_file_summary_text(out: Seq<char>) -> Seq<char> {
    "[edit_file: "@ + or_empty(first_some(json_str(out, "filePath"@), json_str(out, "path"@))) + ", "@ + or_empty(
        json_num(out, "linesChanged"@),
    ) + " lines changed, diff="@ + or_empty(json_str(out, "diffPath"@)) + processed_tail()
}

pub open spec fn bash_summary_text(out: Seq<char>) -> Seq<char> {
    "[bash: exit="@ + or_empty(first_some(json_num(out, "exitCode"@), json_num(out, "code"@))) + ", output: "@
        + match first_some(json_str(out, "stdout"@), json_str(out, "output"@)) {
        Some(p) => output_preview(p),
        None => seq![],
    } + "]"@
}

pub open spec fn web_fetch_summary_text(out: Seq<char>) -> Seq<char> {
    "[WebFetch: "@ + or_empty(json_str(out, "url"@)) + processed_tail()
}

pub open spec fn web_search_summary_text(out: Seq<char>) -> Seq<char> {
    "[WebSearch: \""@ + or_empty(json_str(out, "query"@)) + "\" via "@ + or_empty(json_str(out, "provider"@)) + ", "@
        + or_empty(json_num(out, "resultsReturned"@)) + " results "@ + seq![EM_DASH] + " results reviewed]"@
}

pub open spec fn grep_search_summary_text(out: Seq<char>) -> Seq<char> {
    "[grep_search: "@ + or_empty(json_num(out, "num_files"@)) + " files, "@ + or_empty(json_num(out, "num_lines"@))
        + " matches"@ + processed_tail()
}

pub open spec fn other_summary_text(tool: Seq<char>, out: Seq<char>) -> Seq<char> {
    "["@ + tool + ": "@ + dec_string(out.len()) + " chars"@ + processed_tail()
}

/// The summary that replaces a tool's output: the metadata that matters
/// for each tool, without the bulk content.
pub open spec fn tool_summary(tool: Seq<char>, out: Seq<char>) -> Seq<char> {
    if tool == "read_file"@ {
        read_file_summary_text(out)
    } else if tool == "new_file"@ {
        new_file_summary_text(out)
    } else if tool == "edit_file"@ {
        edit_file_summary_text(out)
    } else if tool == "bash"@ {
        bash_summary_text(out)
    } else if tool == "WebFetch"@ {
        web_fetch_summary_text(out)
    } else if tool == "WebSearch"@ {
        web_search_summary_text(out)
    } else if tool == "grep_search"@ {
        grep_search_summary_text(out)
    } else {
        other_summary_text(tool, out)
    }
}

fn opt_chars(o: Option<Vec<char>>) -> (r: Vec<char>)
    ensures
        r@ == or_empty(
            match o {
                Some(v) => Some(v@),
                None => None,
            },
        ),
{
    match o {
        Some(v) => v,
        None => Vec::new(),
    }
}

fn str_or(json: &[char], a: &str, b: &str) -> (r: Vec<char>)
    ensures
        r@ == or_empty(first_some(json_str(json@, a@), json_str(json@, b@))),
{
    match extract_str_chars(json, a) {
        Some(v) => v,
        None => opt_chars(extract_str_chars(json, b)),
    }
}

fn num_or(json: &[char], a: &str, b: &str) -> (r: Vec<char>)
    ensures
        r@ == or_empty(first_some(json_num(json@, a@), json_num(json@, b@))),
{
    match extract_num_chars(json, a) {
        Some(v) => v,
        None => opt_chars(extract_num_chars(json, b)),
    }
}

fn str_of(json: &[char], a: &str) -> (r: Vec<char>)
    ensures
        r@ == or_empty(json_str(json@, a@)),
{
    opt_chars(extract_str_chars(json, a))
}

fn num_of(json: &[char], a: &str) -> (r: Vec<char>)
    ensures
        r@ == or_empty(json_num(json@, a@)),
{
    opt_chars(extract_num_chars(json, a))
}

fn push_processed_tail(out: &mut Vec<char>)
    ensures
        final(out)@ == old(out)@ + processed_tail(),
{
    push_str(out, " ");
    out.push(EM_DASH);
    push_str(out, " content processed]");
    assert(out@ =~= old(out)@ + processed_tail());
}

fn preview_of(p: Vec<char>) -> (r: Vec<char>)
    ensures
        r@ == output_preview(p@),
{
    let s = string_from_chars(&p);
    let byte_len = s.as_str().as_bytes().len();
    if byte_len > 200 {
        let n: usize = if p.len() < 200 {
            p.len()
        } else {
            200
        };
        let mut r = slice_to_vec(&p, 0, n);
        push_str(&mut r, "...");
        assert(r@ =~= output_preview(p@));
        r
    } else {
        p
    }
}

fn read_file_summary(json: &[char]) -> (r: Vec<char>)
    ensures
        r@ == read_file_summary_text(json@),
{
    let mut out: Vec<char> = Vec::new();
    push_str(&mut out, "[read_file: ");
    push_all(&mut out, &str_of(json, "filePath"));
    push_str(&mut out, ", ");
    push_all(&mut out, &num_or(json, "numLines", "lineCount"));
    push_str(&mut out, " lines, ");
    push_all(&mut out, &num_of(json, "bytesRead"));
    push_str(&mut out, " bytes");
    push_processed_tail(&mut out);
    out
}

fn new_file_summary(json: &[char]) -> (r: Vec<char>)
    ensures
        r@ == new_file_summary_text(json@),
{
    let mut out: Vec<char> = Vec::new();
    push_str(&mut out, "[new_file: ");
    push_all(&mut out, &str_or(json, "filePath", "path"));
    push_str(&mut out, ", ");
    push_all(&mut out, &num_or(json, "bytesWritten", "bytes"));
    push_str(&mut out, " bytes written");
    push_processed_tail(&mut out);
    out
}

fn edit_file_summary(json: &[char]) -> (r: Vec<char>)
    ensures
        r@ == edit_file_summary_text(json@),
{
    let mut out: Vec<char> = Vec::new();
    push_str(&mut out, "[edit_file: ");
    push_all(&mut out, &str_or(json, "filePath", "path"));
    push_str(&mut out, ", ");
    push_all(&mut out, &num_of(json, "linesChanged"));
    push_str(&mut out, " lines changed, diff=");
    push_all(&mut out, &str_of(json, "diffPath"));
    push_processed_tail(&mut out);
    out
}

fn bash_summary(json: &[char]) -> (r: Vec<char>)
    ensures
        r@ == bash_summary_text(json@),
{
    let mut out: Vec<char> = Vec::new();
    push_str(&mut out, "[bash: exit=");
    push_all(&mut out, &num_or(json, "exitCode", "code"));
    push_str(&mut out, ", output: ");
    let preview = match extract_str_chars(json, "stdout") {
        Some(v) => preview_of(v),
        None => match extract_str_chars(json, "output") {
            Some(v) => preview_of(v),
            None => Vec::new(),
        },
    };
    push_all(&mut out, &preview);
    push_str(&mut out, "]");
    out
}

fn web_fetch_summary(json: &[char]) -> (r: Vec<char>)
    ensures
        r@ == web_fetch_summary_text(json@),
{
    let mut out: Vec<char> = Vec::new();
    push_str(&mut out, "[WebFetch: ");
    push_all(&mut out, &str_of(json, "url"));
    push_processed_tail(&mut out);
    out
}

fn web_search_summary(json: &[char]) -> (r: Vec<char>)
    ensures
        r@ == web_search_summary_text(json@),
{
    let mut out: Vec<char> = Vec::new();
    push_str(&mut out, "[WebSearch: \"");
    push_all(&mut out, &str_of(json, "query"));
    push_str(&mut out, "\" via ");
    push_all(&mut out, &str_of(json, "provider"));
    push_str(&mut out, ", ");
    push_all(&mut out, &num_of(json, "resultsReturned"));
    push_str(&mut out, " results ");
    out.push(EM_DASH);
    push_str(&mut out, " results reviewed]");
    assert(out@ =~= web_search_summary_text(json@));
    out
}

fn grep_search_summary(json: &[char]) -> (r: Vec<char>)
    ensures
        r@ == grep_search_summary_text(json@),
{
    let mut out: Vec<char> = Vec::new();
    push_str(&mut out, "[grep_search: ");
    push_all(&mut out, &num_of(json, "num_files"));
    push_str(&mut out, " files, ");
    push_all(&mut out, &num_of(json, "num_lines"));
    push_str(&mut out, " matches");
    push_processed_tail(&mut out);
    out
}

/// A structured summary of a tool result that keeps key metadata (paths,
/// exit codes, URLs) and drops the bulk content.
pub fn summarize_tool_result(tool_name: &str, output: &str) -> (r: String)
    ensures
        r@ == tool_summary(tool_name@, output@),
{
    let json = chars_of(output);
    let v = if str_eq(tool_name, "read_file") {
        read_file_summary(&json)
    } else if str_eq(tool_name, "new_file") {
        new_file_summary(&json)
    } else if str_eq(tool_name, "edit_file") {
        edit_file_summary(&json)
    } else if str_eq(tool_name, "bash") {
        bash_summary(&json)
    } else if str_eq(tool_name, "WebFetch") {
        web_fetch_summary(&json)
    } else if str_eq(tool_name, "WebSearch") {
        web_search_summary(&json)
    } else if str_eq(tool_name, "grep_search") {
        grep_search_summary(&json)
    } else {
        let mut out: Vec<char> = Vec::new();
        push_str(&mut out, "[");
        push_str(&mut out, tool_name);
        push_str(&mut out, ": ");
        push_decimal(&mut out, json.len() as u64);
        push_str(&mut out, " chars");
        push_processed_tail(&mut out);
        assert(out@ =~= other_summary_text(tool_name@, output@));
        out
    };
    string_from_chars(&v)
}

// ---------------------------------------------------------------------------
// Filtering messages for a request.
// ---------------------------------------------------------------------------

/// Tools whose output is compressed once the model has seen it.
pub open spec fn is_filter_tool(name: Seq<char>) -> bool {
    name == "WebFetch"@ || name == "WebSearch"@ || name == "read_file"@ || name == "new_file"@ || name
        == "edit_file"@ || name == "bash"@ || name == "grep_search"@
}

/// How long a time-sensitive tool's result stays fresh.
pub open spec fn ttl_for(name: Seq<char>, c: CompressionConfig) -> Option<u64> {
    if name == "WebSearch"@ {
        Some(c.websearch_ttl_secs)
    } else if name == "WebFetch"@ {
        Some(c.webfetch_ttl_secs)
    } else {
        None
    }
}

/// Whether a result `age` seconds old has outlived its tool's freshness.
pub open spec fn is_expired(name: Seq<char>, age: u64, c: CompressionConfig) -> bool {
    match ttl_for(name, c) {
        Some(t) => age >= t,
        None => false,
    }
}

/// Whether a block is a large result of a compressible tool that is old
/// (outside the recent window) or expired.
pub open spec fn should_compress(b: ContentBlock, recent: bool, age: u64, c: CompressionConfig) -> bool {
    match b {
        ContentBlock::ToolResult { tool_use_id, tool_name, output, is_error } => !is_error && encode_utf8(output@).len()
            > c.toolresult_min_bytes && is_filter_tool(tool_name@) && (!recent || is_expired(tool_name@, age, c)),
        _ => false,
    }
}

/// `out` is `b` as sent: compressed results carry the summary in place of
/// their output, every other block is unchanged.
pub open spec fn block_filtered(out: ContentBlock, b: ContentBlock, recent: bool, age: u64, c: CompressionConfig) -> bool {
    if should_compress(b, recent, age, c) {
        &&& out matches ContentBlock::ToolResult { tool_use_id: i2, tool_name: n2, output: o2, is_error: e2 }
        &&& b matches ContentBlock::ToolResult { tool_use_id: i1, tool_name: n1, output: o1, is_error: e1 }
        &&& i2 == i1 && n2 == n1 && e2 == e1 && o2@ == tool_summary(n1@, o1@)
    } else {
        out == b
    }
}

/// Whether some block is not a thinking block.
pub open spec fn has_non_thinking(blocks: Seq<ContentBlock>) -> bool {
    exists|k: int| 0 <= k < blocks.len() && !(#[trigger] blocks[k] is Thinking)
}

/// Indices, among the first `n` messages, of those with a block that is
/// not a thinking block.
pub open spec fn kept_indices(msgs: Seq<ConversationMessage>, n: int) -> Seq<int>
    decreases n,
{
    if n <= 0 {
        seq![]
    } else if has_non_thinking(msgs[n - 1].blocks@) {
        kept_indices(msgs, n - 1).push(n - 1)
    } else {
        kept_indices(msgs, n - 1)
    }
}

/// First index of the recent window.
pub open spec fn preserve_from(n: nat, c: CompressionConfig) -> int {
    if n >= c.preserve_recent_messages {
        n - c.preserve_recent_messages
    } else {
        0
    }
}

/// `out` is message `m` as sent.
pub open spec fn message_filtered(out: ConversationMessage, m: ConversationMessage, recent: bool, age: u64, c: CompressionConfig) -> bool {
    &&& out.role == m.role
    &&& out.usage == m.usage
    &&& out.created_at == m.created_at
    &&& out.blocks@.len() == m.blocks@.len()
    &&& forall|k: int| 0 <= k < m.blocks@.len() ==> block_filtered(#[trigger] out.blocks@[k], m.blocks@[k], recent, age, c)
}

/// `out` is what is sent for `msgs` when message `i` is `ages[i]` seconds
/// old: the messages with a non-thinking block, in order, each filtered.
pub open spec fn filtered_for_api(out: Seq<ConversationMessage>, msgs: Seq<ConversationMessage>, c: CompressionConfig, ages: Seq<u64>) -> bool {
    let kept = kept_indices(msgs, msgs.len() as int);
    &&& out.len() == kept.len()
    &&& forall|j: int|
        0 <= j < out.len() ==> message_filtered(
            #[trigger] out[j],
            msgs[kept[j]],
            kept[j] >= preserve_from(msgs.len(), c),
            ages[kept[j]],
            c,
        )
}

fn is_filter_tool_name(name: &str) -> (r: bool)
    ensures
        r == is_filter_tool(name@),
{
    str_eq(name, "WebFetch") || str_eq(name, "WebSearch") || str_eq(name, "read_file") || str_eq(name, "new_file")
        || str_eq(name, "edit_file") || str_eq(name, "bash") || str_eq(name, "grep_search")
}

fn tool_result_expired(name: &str, age: u64, config: &CompressionConfig) -> (r: bool)
    ensures
        r == is_expired(name@, age, *config),
{
    if str_eq(name, "WebSearch") {
        age >= config.websearch_ttl_secs
    } else if str_eq(name, "WebFetch") {
        age >= config.webfetch_ttl_secs
    } else {
        false
    }
}

fn filter_block(b: &ContentBlock, recent: bool, age: u64, config: &CompressionConfig) -> (r: ContentBlock)
    ensures
        block_filtered(r, *b, recent, age, *config),
{
    match b {
        ContentBlock::ToolResult { tool_use_id, tool_name, output, is_error } => {
            let size = output.as_str().as_bytes().len();
            if !*is_error && size > config.toolresult_min_bytes && is_filter_tool_name(tool_name.as_str()) && (!recent
                || tool_result_expired(tool_name.as_str(), age, config)) {
                let summary = summarize_tool_result(tool_name.as_str(), output.as_str());
                ContentBlock::ToolResult {
                    tool_use_id: tool_use_id.clone(),
                    tool_name: tool_name.clone(),
                    output: summary,
                    is_error: *is_error,
                }
            } else {
                copy_block(b)
            }
        },
        _ => copy_block(b),
    }
}

fn filter_blocks(blocks: &Vec<ContentBlock>, recent: bool, age: u64, config: &CompressionConfig) -> (r: Vec<ContentBlock>)
    ensures
        r@.len() == blocks@.len(),
        forall|k: int| 0 <= k < blocks@.len() ==> block_filtered(#[trigger] r@[k], blocks@[k], recent, age, *config),
{
    let mut r: Vec<ContentBlock> = Vec::new();
    let mut k: usize = 0;
    while k < blocks.len()
        invariant
            k <= blocks.len(),
            r@.len() == k,
            forall|j: int| 0 <= j < k ==> block_filtered(#[trigger] r@[j], blocks@[j], recent, age, *config),
        decreases blocks.len() - k,
    {
        r.push(filter_block(&blocks[k], recent, age, config));
        k += 1;
    }
    r
}

fn any_non_thinking(blocks: &Vec<ContentBlock>) -> (r: bool)
    ensures
        r == has_non_thinking(blocks@),
{
    let mut k: usize = 0;
    while k < blocks.len()
        invariant
            k <= blocks.len(),
            forall|j: int| 0 <= j < k ==> #[trigger] blocks@[j] is Thinking,
        decreases blocks.len() - k,
    {
        match &blocks[k] {
            ContentBlock::Thinking { .. } => {},
            _ => {
                return true;
            },
        }
        k += 1;
    }
    false
}

proof fn lemma_filter_keeps_kinds(out: Seq<ContentBlock>, b: Seq<ContentBlock>, recent: bool, age: u64, c: CompressionConfig)
    requires
        out.len() == b.len(),
        forall|k: int| 0 <= k < b.len() ==> block_filtered(#[trigger] out[k], b[k], recent, age, c),
    ensures
        has_non_thinking(out) == has_non_thinking(b),
{
    if has_non_thinking(b) {
        let k = choose|k: int| 0 <= k < b.len() && !(#[trigger] b[k] is Thinking);
        assert(block_filtered(out[k], b[k], recent, age, c));
        assert(!(out[k] is Thinking));
    }
    if has_non_thinking(out) {
        let k = choose|k: int| 0 <= k < out.len() && !(#[trigger] out[k] is Thinking);
        assert(block_filtered(out[k], b[k], recent, age, c));
        assert(!(b[k] is Thinking));
    }
}

/// Filters messages for a model request with explicit thresholds.
/// Thinking blocks are kept verbatim; large results of compressible tools
/// are summarized when they are outside the recent window or expired; a
/// message left with only thinking blocks is dropped.
pub fn filter_for_api_with_config(messages: &[ConversationMessage], config: &CompressionConfig) -> (r: Vec<
    ConversationMessage,
>)
    ensures
        exists|ages: Seq<u64>| ages.len() == messages@.len() && #[trigger] filtered_for_api(r@, messages@, *config, ages),
{
    let n = messages.len();
    let from: usize = if n >= config.preserve_recent_messages {
        n - config.preserve_recent_messages
    } else {
        0
    };
    let mut out: Vec<ConversationMessage> = Vec::new();
    let ghost mut ages: Seq<u64> = seq![];
    let mut i: usize = 0;
    while i < n
        invariant
            i <= n,
            n == messages@.len(),
            from == preserve_from(n as nat, *config),
            ages.len() == i,
            out@.len() == kept_indices(messages@, i as int).len(),
            forall|j: int|
                0 <= j < out@.len() ==> message_filtered(
                    #[trigger] out@[j],
                    messages@[kept_indices(messages@, i as int)[j]],
                    kept_indices(messages@, i as int)[j] >= from,
                    ages[kept_indices(messages@, i as int)[j]],
                    *config,
                ),
            forall|j: int| 0 <= j < kept_indices(messages@, i as int).len() ==> 0 <= #[trigger] kept_indices(messages@, i as int)[j] < i,
        decreases n - i,
    {
        let msg = &messages[i];
        let recent = i >= from;
        let age = elapsed_secs(&msg.created_at);
        let blocks = filter_blocks(&msg.blocks, recent, age, config);
        proof {
            lemma_filter_keeps_kinds(blocks@, msg.blocks@, recent, age, *config);
            ages = ages.push(age);
        }
        if any_non_thinking(&blocks) {
            let m = ConversationMessage { role: msg.role, blocks, usage: msg.usage, created_at: msg.created_at };
            out.push(m);
        }
        i += 1;
    }
    assert(filtered_for_api(out@, messages@, *config, ages));
    out
}

/// A threshold read from the environment: the variable's value, trimmed,
/// as an unsigned integer no larger than `max`; `default` when the
/// variable is missing or its value is no such number.
pub open spec fn env_setting(env: Seq<(String, String)>, name: Seq<char>, max: nat, default: nat) -> nat {
    match crate::file_ops::env_lookup(env, name) {
        Some(v) => match crate::text::parse_unsigned(crate::text::trim(v), max) {
            Some(n) => n,
            None => default,
        },
        None => default,
    }
}

/// The thresholds the environment sets, each variable overriding its
/// default.
pub open spec fn compression_from_env(env: Seq<(String, String)>) -> CompressionConfig {
    let d = default_compression();
    let us = usize::MAX as nat;
    let ul = u64::MAX as nat;
    CompressionConfig {
        toolresult_min_bytes: env_setting(env, "CLAW_TOOLRESULT_MIN_BYTES"@, us, d.toolresult_min_bytes as nat) as usize,
        preserve_recent_messages: env_setting(env, "CLAW_CONTEXT_PRESERVE_MSGS"@, us, d.preserve_recent_messages as nat) as usize,
        websearch_ttl_secs: env_setting(env, "CLAW_WEBSEARCH_TTL_SECS"@, ul, d.websearch_ttl_secs as nat) as u64,
        webfetch_ttl_secs: env_setting(env, "CLAW_WEBFETCH_TTL_SECS"@, ul, d.webfetch_ttl_secs as nat) as u64,
        compact_preserve_recent_messages: env_setting(env, "CLAW_COMPACT_PRESERVE_MSGS"@, us, d.compact_preserve_recent_messages as nat) as usize,
        compact_preserve_recent_tokens: env_setting(env, "CLAW_COMPACT_PRESERVE_TOKENS"@, us, d.compact_preserve_recent_tokens as nat) as usize,
        compact_max_estimated_tokens: env_setting(env, "CLAW_COMPACT_MAX_TOKENS"@, us, d.compact_max_estimated_tokens as nat) as usize,
        compact_preserve_last_n_turns: env_setting(env, "CLAW_COMPACT_PRESERVE_TURNS"@, us, d.compact_preserve_last_n_turns as nat) as usize,
        summary_max_chars: env_setting(env, "CLAW_SUMMARY_MAX_CHARS"@, us, d.summary_max_chars as nat) as usize,
        summary_max_lines: env_setting(env, "CLAW_SUMMARY_MAX_LINES"@, us, d.summary_max_lines as nat) as usize,
        summary_max_line_chars: env_setting(env, "CLAW_SUMMARY_MAX_LINE_CHARS"@, us, d.summary_max_line_chars as nat) as usize,
    }
}

fn read_setting(env: &Vec<(String, String)>, name: &str, max: u64, default: u64) -> (r: u64)
    requires
        default <= max,
    ensures
        r as nat == env_setting(env@, name@, max as nat, default as nat),
        r <= max,
{
    let name_chars = chars_of(name);
    match crate::file_ops::lookup_env(env, &name_chars) {
        Some(v) => {
            let t = crate::text::trim_chars(&v);
            match crate::text::parse_unsigned_chars(&t, max) {
                Some(n) => {
                    proof {
                        assert(crate::text::parse_unsigned(t@, max as nat) == Some(n as nat));
                    }
                    n
                },
                None => default,
            }
        },
        None => default,
    }
}

impl CompressionConfig {
    /// The thresholds set by the environment's variables (`env` holds the
    /// variables that are defined), with the defaults for the rest.
    pub fn from_env(env: &Vec<(String, String)>) -> (r: Self)
        ensures
            r == compression_from_env(env@),
    {
        let us = usize::MAX as u64;
        let ul = u64::MAX;
        CompressionConfig {
            toolresult_min_bytes: read_setting(env, "CLAW_TOOLRESULT_MIN_BYTES", us, 500) as usize,
            preserve_recent_messages: read_setting(env, "CLAW_CONTEXT_PRESERVE_MSGS", us, 6) as usize,
            websearch_ttl_secs: read_setting(env, "CLAW_WEBSEARCH_TTL_SECS", ul, 15),
            webfetch_ttl_secs: read_setting(env, "CLAW_WEBFETCH_TTL_SECS", ul, 30),
            compact_preserve_recent_messages: read_setting(env, "CLAW_COMPACT_PRESERVE_MSGS", us, 4) as usize,
            compact_preserve_recent_tokens: read_setting(env, "CLAW_COMPACT_PRESERVE_TOKENS", us, 2000) as usize,
            compact_max_estimated_tokens: read_setting(env, "CLAW_COMPACT_MAX_TOKENS", us, 10_000) as usize,
            compact_preserve_last_n_turns: read_setting(env, "CLAW_COMPACT_PRESERVE_TURNS", us, 0) as usize,
            summary_max_chars: read_setting(env, "CLAW_SUMMARY_MAX_CHARS", us, 1_200) as usize,
            summary_max_lines: read_setting(env, "CLAW_SUMMARY_MAX_LINES", us, 24) as usize,
            summary_max_line_chars: read_setting(env, "CLAW_SUMMARY_MAX_LINE_CHARS", us, 160) as usize,
        }
    }
}

/// Filters messages for a model request with the thresholds the
/// environment sets (`env` holds the variables that are defined).
pub fn filter_for_api(messages: &[ConversationMessage], env: &Vec<(String, String)>) -> (r: Vec<ConversationMessage>)
    ensures
        exists|ages: Seq<u64>|
            ages.len() == messages@.len() && #[trigger] filtered_for_api(r@, messages@, compression_from_env(env@), ages),
{
    let config = CompressionConfig::from_env(env);
    filter_for_api_with_config(messages, &config)
}

/// Thinking blocks, error results and blocks other than tool results are
/// sent exactly as they are.
pub proof fn law_only_large_results_change(out: ContentBlock, b: ContentBlock, recent: bool, age: u64, c: CompressionConfig)
    requires
        block_filtered(out, b, recent, age, c),
        b is Thinking || b is Text || b is ToolUse || (b matches ContentBlock::ToolResult { is_error, .. } && is_error),
    ensures
        out == b,
{
}

/// A result in the recent window that has not expired is sent verbatim.
pub proof fn law_recent_fresh_results_verbatim(out: ContentBlock, b: ContentBlock, age: u64, c: CompressionConfig)
    requires
        block_filtered(out, b, true, age, c),
        b matches ContentBlock::ToolResult { tool_name, .. } && !is_expired(tool_name@, age, c),
    ensures
        out == b,
{
}

/// Every message sent has a block that is not a thinking block.
pub proof fn law_sent_messages_have_content(
    out: Seq<ConversationMessage>,
    msgs: Seq<ConversationMessage>,
    c: CompressionConfig,
    ages: Seq<u64>,
    j: int,
)
    requires
        filtered_for_api(out, msgs, c, ages),
        0 <= j < out.len(),
    ensures
        has_non_thinking(out[j].blocks@),
{
    lemma_kept_indices(msgs, msgs.len() as int);
    let kept = kept_indices(msgs, msgs.len() as int);
    let m = msgs[kept[j]];
    assert(message_filtered(out[j], m, kept[j] >= preserve_from(msgs.len(), c), ages[kept[j]], c));
    lemma_filter_keeps_kinds(out[j].blocks@, m.blocks@, kept[j] >= preserve_from(msgs.len(), c), ages[kept[j]], c);
}

proof fn lemma_kept_indices(msgs: Seq<ConversationMessage>, n: int)
    requires
        0 <= n <= msgs.len(),
    ensures
        forall|j: int|
            0 <= j < kept_indices(msgs, n).len() ==> 0 <= #[trigger] kept_indices(msgs, n)[j] < n && has_non_thinking(
                msgs[kept_indices(msgs, n)[j]].blocks@,
            ),
    decreases n,
{
    if n > 0 {
        lemma_kept_indices(msgs, n - 1);
    }
}

} // verus!
