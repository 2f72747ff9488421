//! The computing part of the file tools: what is reported of a read, a
//! write or an edit, content previews, patches and result windows. Reading
//! and writing the files themselves is done by the caller.
use vstd::prelude::*;

use crate::memory_store::{lines_of, text_lines};
use crate::text::{
    char_utf8_len, chars_of, contains_seq, first_occurrence, is_prefix, join, owned, push_all,
    push_str, replace_all, replace_chars, slice_to_vec, starts_with_at, string_from_chars,
    utf8_len, utf8_size, find, dec_string, occurs_at, split_chars, split_on,
};

verus! {

broadcast use vstd::utf8::char_is_scalar;

/// Largest content a write accepts, in bytes.
pub const MAX_WRITE_SIZE: usize = 10 * 1024 * 1024;

/// Largest file a read accepts, in bytes.
pub const MAX_READ_SIZE: u64 = 10 * 1024 * 1024;

/// Largest echoed content preview, in bytes.
pub const CONTENT_PREVIEW_MAX: usize = 2048;

/// Writes of more bytes than this carry no preview: the content is
/// already in the request that asked for the write.
pub const CONTENT_PREVIEW_SKIP_THRESHOLD: usize = 512;

// ---------------------------------------------------------------------------
// Result types.
// ---------------------------------------------------------------------------

/// Text payload returned by file-reading operations.
#[derive(Debug, Clone, PartialEq, Eq)]
pub struct TextFilePayload {
    pub file_path: String,
    pub content: Option<String>,
    pub checksum: String,
    pub bytes_read: usize,
    pub num_lines: usize,
    pub start_line: usize,
    pub total_lines: usize,
}

/// Output envelope for the `read_file` tool.
#[derive(Debug, Clone, PartialEq, Eq)]
pub struct ReadFileOutput {
    pub kind: String,
    pub file: TextFilePayload,
}

/// Structured patch hunk emitted by write and edit operations.
#[derive(Debug, Clone, PartialEq, Eq)]
pub struct StructuredPatchHunk {
    pub old_start: usize,
    pub old_lines: usize,
    pub new_start: usize,
    pub new_lines: usize,
    pub lines: Vec<String>,
}

/// Syntax validation result for write/edit operations: files of an
/// unknown type are `Skipped`; parse errors carry the message and line.
#[derive(Debug, Clone, PartialEq, Eq)]
pub enum SyntaxCheck {
    Valid,
    Invalid { message: String, line: Option<usize> },
    Skipped,
}

/// Output envelope for full-file write operations.
#[derive(Debug, Clone, PartialEq, Eq)]
pub struct WriteFileOutput {
    pub kind: String,
    pub file_path: String,
    pub checksum: String,
    pub bytes_written: usize,
    pub lines_written: usize,
    pub content_preview: Option<String>,
    pub syntax: Option<SyntaxCheck>,
}

/// Output envelope for targeted string-replacement edits.
#[derive(Debug, Clone, PartialEq, Eq)]
pub struct EditFileOutput {
    pub kind: String,
    pub file_path: String,
    pub old_string: String,
    pub new_string: String,
    pub new_checksum: String,
    pub bytes_changed: isize,
    pub lines_changed: usize,
    pub occurrences_matched: usize,
    pub diff_summary: String,
    pub content_preview: Option<String>,
    pub syntax: Option<SyntaxCheck>,
}

/// Result of a glob-based filename search.
#[derive(Debug, Clone, PartialEq, Eq)]
pub struct GlobSearchOutput {
    pub duration_ms: u128,
    pub num_files: usize,
    pub filenames: Vec<String>,
    pub truncated: bool,
}

/// Parameters accepted by the grep-style search tool.
#[derive(Debug, Clone, PartialEq, Eq)]
pub struct GrepSearchInput {
    pub pattern: String,
    pub path: Option<String>,
    pub glob: Option<String>,
    pub output_mode: Option<String>,
    pub before: Option<usize>,
    pub after: Option<usize>,
    pub context_short: Option<usize>,
    pub context: Option<usize>,
    pub line_numbers: Option<bool>,
    pub case_insensitive: Option<bool>,
    pub file_type: Option<String>,
    pub head_limit: Option<usize>,
    pub offset: Option<usize>,
    pub multiline: Option<bool>,
}

/// Result payload returned by the grep-style search tool.
#[derive(Debug, Clone, PartialEq, Eq)]
pub struct GrepSearchOutput {
    pub mode: Option<String>,
    pub num_files: usize,
    pub filenames: Vec<String>,
    pub content: Option<String>,
    pub num_lines: Option<usize>,
    pub num_matches: Option<usize>,
    pub applied_limit: Option<usize>,
    pub applied_offset: Option<usize>,
}

// ---------------------------------------------------------------------------
// Byte lengths.
// ---------------------------------------------------------------------------

proof fn lemma_utf8_size_first(s: Seq<char>)
    requires
        s.len() > 0,
    ensures
        utf8_size(s) == utf8_len(s[0]) + utf8_size(s.drop_first()),
    decreases s.len(),
{
    assert(utf8_size(s) == utf8_size(s.drop_last()) + utf8_len(s.last()));
    if s.len() > 1 {
        lemma_utf8_size_first(s.drop_last());
        assert(s.drop_last().drop_first() =~= s.drop_first().drop_last());
        assert(s.drop_last()[0] == s[0]);
        assert(s.drop_first().last() == s.last());
        assert(utf8_size(s.drop_first()) == utf8_size(s.drop_first().drop_last()) + utf8_len(
            s.drop_first().last(),
        ));
    } else {
        assert(s.drop_first().len() == 0);
        assert(s.drop_last().len() == 0);
        assert(utf8_size(s.drop_last()) == 0);
        assert(utf8_size(s.drop_first()) == 0);
        assert(s.last() == s[0]);
    }
}

/// The UTF-8 encoding of characters is as long as their UTF-8 size.
pub proof fn lemma_encoded_length(s: Seq<char>)
    ensures
        vstd::utf8::encode_utf8(s).len() == utf8_size(s),
    decreases s.len(),
{
    if s.len() > 0 {
        lemma_utf8_size_first(s);
        lemma_encoded_length(s.drop_first());
        let c = s[0];
        vstd::utf8::char_is_scalar(c);
        assert(vstd::utf8::encode_scalar(c as u32).len() == utf8_len(c));
    }
}

/// Length of a string in bytes.
pub fn byte_len(s: &str) -> (n: usize)
    ensures
        n == utf8_size(s@),
{
    let b = s.as_bytes();
    proof {
        lemma_encoded_length(s@);
    }
    b.len()
}

// ---------------------------------------------------------------------------
// Content previews.
// ---------------------------------------------------------------------------

/// The marker that ends a clipped preview.
pub open spec fn truncation_mark() -> Seq<char> {
    "\n\u{2026}[truncated, full content written to file]"@
}

/// Whether cutting `s` after `k` characters keeps the longest prefix that
/// fits in `limit` bytes.
pub open spec fn is_preview_cut(s: Seq<char>, limit: nat, k: int) -> bool {
    0 <= k < s.len() && utf8_size(s.take(k)) <= limit && utf8_size(s.take(k + 1)) > limit
}

/// The echoed preview of a content: none for empty content, the content
/// itself when it fits, else its longest fitting prefix and a marker.
pub open spec fn preview_of(s: Seq<char>) -> Option<Seq<char>> {
    if s.len() == 0 {
        None
    } else if utf8_size(s) <= CONTENT_PREVIEW_MAX {
        Some(s)
    } else {
        Some(s.take(choose|k: int| is_preview_cut(s, CONTENT_PREVIEW_MAX as nat, k)) + truncation_mark())
    }
}

proof fn lemma_preview_cut_unique(s: Seq<char>, limit: nat, k: int, j: int)
    requires
        is_preview_cut(s, limit, k),
        is_preview_cut(s, limit, j),
    ensures
        k == j,
{
    if k < j {
        lemma_size_monotone(s, k + 1, j);
    } else if j < k {
        lemma_size_monotone(s, j + 1, k);
    }
}

proof fn lemma_size_monotone(s: Seq<char>, a: int, b: int)
    requires
        0 <= a <= b <= s.len(),
    ensures
        utf8_size(s.take(a)) <= utf8_size(s.take(b)),
    decreases b - a,
{
    if a < b {
        lemma_size_monotone(s, a, b - 1);
        assert(s.take(b).drop_last() =~= s.take(b - 1));
    }
}

/// A truncated preview of content, or `None` when the content is empty.
pub fn preview_for(content: &str) -> (r: Option<String>)
    ensures
        r matches Some(p) ==> preview_of(content@) == Some(p@),
        r is None <==> preview_of(content@) is None,
{
    let c = chars_of(content);
    if c.len() == 0 {
        return None;
    }
    let mut total: usize = 0;
    let mut i: usize = 0;
    assert(c@.take(0) =~= Seq::<char>::empty());
    while i < c.len() && total + char_utf8_len(c[i]) <= CONTENT_PREVIEW_MAX
        invariant
            i <= c.len(),
            total == utf8_size(c@.take(i as int)),
            total <= CONTENT_PREVIEW_MAX,
        decreases c.len() - i,
    {
        let l = char_utf8_len(c[i]);
        assert(c@.take(i + 1).drop_last() =~= c@.take(i as int));
        total = total + l;
        i += 1;
    }
    if i == c.len() {
        assert(c@.take(i as int) =~= c@);
        return Some(string_from_chars(&c));
    }
    assert(c@.take(i + 1).drop_last() =~= c@.take(i as int));
    assert(is_preview_cut(content@, CONTENT_PREVIEW_MAX as nat, i as int));
    proof {
        lemma_size_monotone(c@, i + 1, c@.len() as int);
        assert(c@.take(c@.len() as int) =~= c@);
        let k = choose|k: int| is_preview_cut(content@, CONTENT_PREVIEW_MAX as nat, k);
        lemma_preview_cut_unique(content@, CONTENT_PREVIEW_MAX as nat, k, i as int);
    }
    let mut out = slice_to_vec(&c, 0, i);
    push_str(&mut out, "\n\u{2026}[truncated, full content written to file]");
    Some(string_from_chars(&out))
}

// ---------------------------------------------------------------------------
// File URLs and result windows.
// ---------------------------------------------------------------------------

pub open spec fn is_ascii_alpha(c: char) -> bool {
    ('a' <= c && c <= 'z') || ('A' <= c && c <= 'Z')
}

/// A path with a leading `file://` removed; a Windows drive path written
/// `file:///C:/...` keeps no slash before its drive letter.
pub open spec fn without_file_url(p: Seq<char>) -> Seq<char> {
    if !is_prefix("file://"@, p) {
        p
    } else {
        let rest = p.skip(7);
        if rest.len() == 0 || rest[0] != '/' {
            rest
        } else if rest.len() >= 3 && is_ascii_alpha(rest[1]) && rest[2] == ':' {
            rest.drop_first()
        } else {
            rest
        }
    }
}

/// Removes a `file://` scheme from a path.
pub fn strip_file_url(path: &str) -> (r: String)
    ensures
        r@ == without_file_url(path@),
{
    proof {
        reveal_strlit("file://");
    }
    let c = chars_of(path);
    let scheme = chars_of("file://");
    if !starts_with_at(&c, &scheme, 0) {
        assert(!is_prefix("file://"@, path@)) by {
            if is_prefix("file://"@, path@) {
                assert(c@.subrange(0, 7) =~= path@.take(7));
            }
        }
        return owned(path);
    }
    assert(is_prefix("file://"@, path@)) by {
        assert(c@.subrange(0, 7) =~= path@.take(7));
    }
    let rest = slice_to_vec(&c, 7, c.len());
    assert(rest@ =~= path@.skip(7));
    if rest.len() == 0 || rest[0] != '/' {
        return string_from_chars(&rest);
    }
    if rest.len() >= 3 && (('a' <= rest[1] && rest[1] <= 'z') || ('A' <= rest[1] && rest[1] <= 'Z'))
        && rest[2] == ':' {
        let tail = slice_to_vec(&rest, 1, rest.len());
        assert(tail@ =~= rest@.drop_first());
        return string_from_chars(&tail);
    }
    string_from_chars(&rest)
}

/// The page of items an `offset` and `limit` select, as a search reports
/// it: the items left after skipping `offset`, at most `limit` of them
/// (250 when none is given, no bound when it is 0), the limit when it cut
/// items off, and the offset when one was skipped.
pub open spec fn limited<T>(items: Seq<T>, limit: Option<usize>, offset: Option<usize>) -> (
    Seq<T>,
    Option<usize>,
    Option<usize>,
) {
    let off = match offset {
        Some(o) => o as int,
        None => 0,
    };
    let rest = if off <= items.len() {
        items.skip(off)
    } else {
        Seq::empty()
    };
    let lim = match limit {
        Some(l) => l as int,
        None => 250,
    };
    let shown_offset = if off > 0 {
        Some(off as usize)
    } else {
        None
    };
    if lim == 0 {
        (rest, None, shown_offset)
    } else if rest.len() > lim {
        (rest.take(lim), Some(lim as usize), shown_offset)
    } else {
        (rest, None, shown_offset)
    }
}

/// Applies an offset and a limit to search results.
pub fn apply_limit<T>(items: Vec<T>, limit: Option<usize>, offset: Option<usize>) -> (r: (
    Vec<T>,
    Option<usize>,
    Option<usize>,
))
    ensures
        (r.0@, r.1, r.2) == limited(items@, limit, offset),
{
    let offset_value: usize = match offset {
        Some(o) => o,
        None => 0,
    };
    let mut items = items;
    let ghost orig = items@;
    let skip: usize = if offset_value <= items.len() {
        offset_value
    } else {
        items.len()
    };
    let mut rest = items.split_off(skip);
    assert(rest@ =~= (if offset_value <= orig.len() { orig.skip(offset_value as int) } else { Seq::<T>::empty() }));
    let shown_offset: Option<usize> = if offset_value > 0 {
        Some(offset_value)
    } else {
        None
    };
    let explicit_limit: usize = match limit {
        Some(l) => l,
        None => 250,
    };
    if explicit_limit == 0 {
        return (rest, None, shown_offset);
    }
    let truncated = rest.len() > explicit_limit;
    if truncated {
        rest.truncate(explicit_limit);
        (rest, Some(explicit_limit), shown_offset)
    } else {
        (rest, None, shown_offset)
    }
}


// ---------------------------------------------------------------------------
// Patches.
// ---------------------------------------------------------------------------

/// Each line of `lines` behind the marker `m`.
pub open spec fn marked(lines: Seq<Seq<char>>, m: char) -> Seq<Seq<char>> {
    lines.map_values(|l: Seq<char>| seq![m] + l)
}

/// The single hunk that replaces every line of `original` by every line of
/// `updated`.
pub open spec fn patch_hunk_matches(h: StructuredPatchHunk, original: Seq<char>, updated: Seq<char>) -> bool {
    &&& h.old_start == 1
    &&& h.old_lines == text_lines(original).len()
    &&& h.new_start == 1
    &&& h.new_lines == text_lines(updated).len()
    &&& crate::text::string_views(h.lines@) == marked(text_lines(original), '-') + marked(
        text_lines(updated),
        '+',
    )
}

fn push_marked(out: &mut Vec<String>, lines: &Vec<Vec<char>>, m: char)
    ensures
        crate::text::string_views(final(out)@) == crate::text::string_views(old(out)@) + marked(
            lines@.map_values(|v: Vec<char>| v@),
            m,
        ),
{
    let ghost start = crate::text::string_views(out@);
    let ghost lv = lines@.map_values(|v: Vec<char>| v@);
    let mut i: usize = 0;
    while i < lines.len()
        invariant
            i <= lines@.len(),
            lv == lines@.map_values(|v: Vec<char>| v@),
            crate::text::string_views(out@) == start + marked(lv.take(i as int), m),
        decreases lines.len() - i,
    {
        let mut v: Vec<char> = Vec::new();
        v.push(m);
        push_all(&mut v, &lines[i]);
        let ghost before = out@;
        out.push(string_from_chars(&v));
        assert(marked(lv.take(i + 1), m) =~= marked(lv.take(i as int), m).push(seq![m] + lv[i as int]));
        assert(crate::text::string_views(out@) =~= crate::text::string_views(before).push(seq![m] + lv[i as int]));
        i += 1;
    }
    assert(lv.take(lines@.len() as int) =~= lv);
}

/// The patch between two versions of a file: one hunk removing every old
/// line and adding every new one.
pub fn make_patch(original: &str, updated: &str) -> (r: Vec<StructuredPatchHunk>)
    ensures
        r@.len() == 1,
        patch_hunk_matches(r@[0], original@, updated@),
{
    let old_lines = lines_of(&chars_of(original));
    let new_lines = lines_of(&chars_of(updated));
    let mut lines: Vec<String> = Vec::new();
    push_marked(&mut lines, &old_lines, '-');
    push_marked(&mut lines, &new_lines, '+');
    assert(crate::text::string_views(Seq::<String>::empty()) =~= Seq::<Seq<char>>::empty());
    let hunk = StructuredPatchHunk {
        old_start: 1,
        old_lines: old_lines.len(),
        new_start: 1,
        new_lines: new_lines.len(),
        lines,
    };
    let mut r: Vec<StructuredPatchHunk> = Vec::new();
    r.push(hunk);
    r
}

/// The lines of all the hunks of a patch.
pub open spec fn hunk_lines_total(patch: Seq<StructuredPatchHunk>) -> nat
    decreases patch.len(),
{
    if patch.len() == 0 {
        0
    } else {
        hunk_lines_total(patch.drop_last()) + patch.last().lines@.len()
    }
}

/// Number of changed lines a patch reports: the lines of all its hunks.
pub fn patch_line_count(patch: &Vec<StructuredPatchHunk>) -> (n: usize)
    requires
        hunk_lines_total(patch@) <= usize::MAX,
    ensures
        n == hunk_lines_total(patch@),
{
    let mut total: usize = 0;
    let mut i: usize = 0;
    while i < patch.len()
        invariant
            i <= patch@.len(),
            total == hunk_lines_total(patch@.take(i as int)),
            hunk_lines_total(patch@) <= usize::MAX,
        decreases patch.len() - i,
    {
        assert(patch@.take(i + 1).drop_last() =~= patch@.take(i as int));
        proof {
            lemma_hunk_total_prefix(patch@, i + 1);
        }
        total = total + patch[i].lines.len();
        i += 1;
    }
    assert(patch@.take(patch@.len() as int) =~= patch@);
    total
}

proof fn lemma_hunk_total_prefix(patch: Seq<StructuredPatchHunk>, k: int)
    requires
        0 <= k <= patch.len(),
    ensures
        hunk_lines_total(patch.take(k)) <= hunk_lines_total(patch),
    decreases patch.len() - k,
{
    if k < patch.len() {
        lemma_hunk_total_prefix(patch, k + 1);
        assert(patch.take(k + 1).drop_last() =~= patch.take(k));
    } else {
        assert(patch.take(k) =~= patch);
    }
}

// ---------------------------------------------------------------------------
// Checksums.
// ---------------------------------------------------------------------------

/// The 64-bit XXH3 hash, default seed, of a byte string.
pub uninterp spec fn xxh3_64_digest(bytes: Seq<u8>) -> u64;

/// Calls `xxhash_rust::xxh3::xxh3_64`. Trusted: the hash is a function of
/// the bytes alone; the contract names it and says nothing more.
#[verifier::external_body]
fn xxh3_64(bytes: &[u8]) -> (r: u64)
    ensures
        r == xxh3_64_digest(bytes@),
{
    xxhash_rust::xxh3::xxh3_64(bytes)
}

/// `n` in `width` lower-case hexadecimal digits, zero-padded, as
/// `format!("{:0width$x}")` writes a number below `16^width`.
pub open spec fn hex_padded(n: nat, width: nat) -> Seq<char>
    decreases width,
{
    if width == 0 {
        seq![]
    } else {
        hex_padded(n / 16, (width - 1) as nat).push(crate::text::hex_digit_char(n % 16))
    }
}

pub(crate) fn push_hex_padded(out: &mut Vec<char>, n: u64, width: usize)
    ensures
        final(out)@ == old(out)@ + hex_padded(n as nat, width as nat),
    decreases width,
{
    if width > 0 {
        push_hex_padded(out, n / 16, width - 1);
        let c = crate::text::hex_digit_to_char((n % 16) as u128);
        out.push(c);
    } else {
        assert(out@ =~= old(out)@ + hex_padded(n as nat, width as nat));
    }
}

/// The checksum a file tool reports for a content: the XXH3 hash of its
/// UTF-8 bytes in 16 hexadecimal digits.
pub open spec fn checksum_of(content: Seq<char>) -> Seq<char> {
    hex_padded(xxh3_64_digest(vstd::utf8::encode_utf8(content)) as nat, 16)
}

/// The checksum of a content.
pub fn content_checksum(content: &str) -> (r: String)
    ensures
        r@ == checksum_of(content@),
{
    let h = xxh3_64(content.as_bytes());
    let mut v: Vec<char> = Vec::new();
    push_hex_padded(&mut v, h, 16);
    assert(v@ =~= checksum_of(content@));
    string_from_chars(&v)
}

// ---------------------------------------------------------------------------
// Reads and writes.
// ---------------------------------------------------------------------------

/// First line of a read window: the offset, or the end when it is past it.
pub open spec fn window_start(total: nat, offset: Option<usize>) -> nat {
    let o: nat = match offset {
        Some(o) => o as nat,
        None => 0,
    };
    if o <= total {
        o
    } else {
        total
    }
}

/// End of a read window: `limit` lines after its start, or the end.
pub open spec fn window_end(total: nat, start: nat, limit: Option<usize>) -> nat {
    match limit {
        Some(l) => if start + l <= total {
            (start + l) as nat
        } else {
            total
        },
        None => total,
    }
}

/// The payload a read of `content` reports: the selected lines joined, how
/// many bytes and lines they are, where they start (1-based), and the
/// content's checksum. With `full == Some(false)` the text itself is left
/// out.
pub open spec fn payload_matches(
    p: TextFilePayload,
    file_path: Seq<char>,
    content: Seq<char>,
    offset: Option<usize>,
    limit: Option<usize>,
    full: Option<bool>,
) -> bool {
    let lines = text_lines(content);
    let start = window_start(lines.len(), offset);
    let end = window_end(lines.len(), start, limit);
    let selected = join(lines.subrange(start as int, end as int), "\n"@);
    &&& p.file_path@ == file_path
    &&& (if full == Some(false) {
        p.content is None
    } else {
        p.content matches Some(c) && c@ == selected
    })
    &&& p.checksum@ == checksum_of(content)
    &&& p.bytes_read == utf8_size(selected)
    &&& p.num_lines == end - start
    &&& p.start_line == (if start < usize::MAX {
        start + 1
    } else {
        start
    })
    &&& p.total_lines == lines.len()
}

fn join_range(lines: &Vec<Vec<char>>, start: usize, end: usize) -> (r: Vec<char>)
    requires
        start <= end <= lines@.len(),
    ensures
        r@ == join(lines@.map_values(|v: Vec<char>| v@).subrange(start as int, end as int), "\n"@),
{
    let ghost lv = lines@.map_values(|v: Vec<char>| v@);
    let mut r: Vec<char> = Vec::new();
    let mut i: usize = start;
    assert(lv.subrange(start as int, start as int) =~= Seq::<Seq<char>>::empty());
    while i < end
        invariant
            start <= i <= end <= lines@.len(),
            lv == lines@.map_values(|v: Vec<char>| v@),
            r@ == join(lv.subrange(start as int, i as int), "\n"@),
        decreases end - i,
    {
        assert(lv.subrange(start as int, i + 1).drop_last() =~= lv.subrange(start as int, i as int));
        assert(lv.subrange(start as int, i + 1).last() == lines@[i as int]@);
        if i > start {
            push_str(&mut r, "\n");
        }
        push_all(&mut r, &lines[i]);
        i += 1;
    }
    r
}

/// What a read of a file's content reports, given the file's displayed
/// path and the requested window.
pub fn text_file_payload(
    file_path: String,
    content: &str,
    offset: Option<usize>,
    limit: Option<usize>,
    full: Option<bool>,
) -> (r: TextFilePayload)
    ensures
        payload_matches(r, file_path@, content@, offset, limit, full),
{
    let lines = lines_of(&chars_of(content));
    let ghost lv = lines@.map_values(|v: Vec<char>| v@);
    let total = lines.len();
    let requested: usize = match offset {
        Some(o) => o,
        None => 0,
    };
    let start: usize = if requested <= total {
        requested
    } else {
        total
    };
    let end: usize = match limit {
        Some(l) => if l <= total - start {
            start + l
        } else {
            total
        },
        None => total,
    };
    let selected_chars = join_range(&lines, start, end);
    let selected = string_from_chars(&selected_chars);
    let bytes_read = byte_len(selected.as_str());
    let checksum = content_checksum(content);
    let start_line: usize = if start < usize::MAX {
        start + 1
    } else {
        start
    };
    let text: Option<String> = match full {
        Some(false) => None,
        _ => Some(selected),
    };
    TextFilePayload {
        file_path,
        content: text,
        checksum,
        bytes_read,
        num_lines: end - start,
        start_line,
        total_lines: total,
    }
}

/// The refusal of a write whose content is over the size limit.
pub open spec fn oversized_write_message(size: nat) -> Seq<char> {
    "content is too large ("@ + dec_string(size) + " bytes, max "@ + dec_string(MAX_WRITE_SIZE as nat)
        + " bytes)"@
}

/// Refuses content over the write limit, with the message the write tool
/// gives.
pub fn check_write_size(content: &str) -> (r: Result<(), String>)
    ensures
        utf8_size(content@) <= MAX_WRITE_SIZE ==> r is Ok,
        utf8_size(content@) > MAX_WRITE_SIZE ==> (r matches Err(m) && m@ == oversized_write_message(
            utf8_size(content@),
        )),
{
    let n = byte_len(content);
    if n > MAX_WRITE_SIZE {
        let mut v: Vec<char> = Vec::new();
        push_str(&mut v, "content is too large (");
        crate::text::push_decimal(&mut v, n as u64);
        push_str(&mut v, " bytes, max ");
        crate::text::push_decimal(&mut v, MAX_WRITE_SIZE as u64);
        push_str(&mut v, " bytes)");
        Err(string_from_chars(&v))
    } else {
        Ok(())
    }
}

/// What a write of `content` reports, given the displayed path, whether
/// the file existed before, and the syntax check of the content.
pub open spec fn write_output_matches(
    r: WriteFileOutput,
    file_path: Seq<char>,
    content: Seq<char>,
    is_existing: bool,
    syntax: SyntaxCheck,
) -> bool {
    &&& r.kind@ == (if is_existing {
        "overwrite"@
    } else {
        "create"@
    })
    &&& r.file_path@ == file_path
    &&& r.checksum@ == checksum_of(content)
    &&& r.bytes_written == utf8_size(content)
    &&& r.lines_written == (if content.len() == 0 {
        0
    } else {
        text_lines(content).len()
    })
    &&& (if utf8_size(content) <= CONTENT_PREVIEW_SKIP_THRESHOLD {
        match preview_of(content) {
            Some(p) => r.content_preview matches Some(q) && q@ == p,
            None => r.content_preview is None,
        }
    } else {
        r.content_preview is None
    })
    &&& r.syntax == Some(syntax)
}

/// The report of a completed write.
pub fn write_file_output(file_path: String, content: &str, is_existing: bool, syntax: SyntaxCheck) -> (r:
    WriteFileOutput)
    ensures
        write_output_matches(r, file_path@, content@, is_existing, syntax),
{
    let kind = if is_existing {
        owned("overwrite")
    } else {
        owned("create")
    };
    let bytes_written = byte_len(content);
    let c = chars_of(content);
    let lines_written = if c.len() == 0 {
        0
    } else {
        lines_of(&c).len()
    };
    let content_preview = if bytes_written <= CONTENT_PREVIEW_SKIP_THRESHOLD {
        preview_for(content)
    } else {
        None
    };
    WriteFileOutput {
        kind,
        file_path,
        checksum: content_checksum(content),
        bytes_written,
        lines_written,
        content_preview,
        syntax: Some(syntax),
    }
}


// ---------------------------------------------------------------------------
// Edits.
// ---------------------------------------------------------------------------

/// Number of matches `str::matches` finds: non-overlapping, left to right;
/// an empty pattern matches at every character boundary.
pub open spec fn match_count(s: Seq<char>, p: Seq<char>) -> nat
    decreases s.len(),
{
    if p.len() == 0 {
        s.len() + 1
    } else if s.len() == 0 {
        0
    } else if is_prefix(p, s) {
        1 + match_count(s.skip(p.len() as int), p)
    } else {
        match_count(s.drop_first(), p)
    }
}

/// `to` put before every character and at the end, as replacing the empty
/// pattern does.
pub open spec fn interleave(s: Seq<char>, to: Seq<char>) -> Seq<char>
    decreases s.len(),
{
    if s.len() == 0 {
        to
    } else {
        to + seq![s[0]] + interleave(s.drop_first(), to)
    }
}

/// `str::replace`: every match replaced.
pub open spec fn replace_every(s: Seq<char>, p: Seq<char>, to: Seq<char>) -> Seq<char> {
    if p.len() == 0 {
        interleave(s, to)
    } else {
        replace_all(s, p, to)
    }
}

/// `str::replacen(p, to, 1)`: the first match replaced.
pub open spec fn replace_first(s: Seq<char>, p: Seq<char>, to: Seq<char>) -> Seq<char> {
    if p.len() == 0 {
        to + s
    } else {
        match first_occurrence(s, p) {
            Some(i) => s.take(i) + to + s.skip(i + p.len()),
            None => s,
        }
    }
}

/// A file's content with CRLF line endings turned into LF.
pub open spec fn lf_normalized(raw: Seq<char>) -> Seq<char> {
    replace_all(raw, "\r\n"@, "\n"@)
}

/// The last five lines, or all when there are fewer.
pub open spec fn last_five(lines: Seq<Seq<char>>) -> Seq<Seq<char>> {
    if lines.len() > 5 {
        lines.skip(lines.len() - 5)
    } else {
        lines
    }
}

/// The refusal of an edit whose `old_string` is not in the file.
pub open spec fn not_found_message(content: Seq<char>) -> Seq<char> {
    let lines = text_lines(content);
    "old_string not found in file ("@ + dec_string(lines.len()) + " lines). The file may have been modified since you last read it. Last 5 lines of the file:\n---\n"@
        + join(last_five(lines), "\n"@) + "\n---\nPlease call read_file to see the current content before retrying."@
}

/// Why an edit was refused.
#[derive(Debug, Clone, PartialEq, Eq)]
pub enum EditRefusal {
    /// The file changed since the checksum the caller expected.
    ChecksumMismatch { message: String },
    /// `old_string` and `new_string` are the same.
    Unchanged,
    /// `old_string` does not occur in the file.
    NotFound { message: String },
}

/// A planned edit: the LF-normalized content before, the content after,
/// and how many times `old_string` matched.
#[derive(Debug, Clone, PartialEq, Eq)]
pub struct EditPlan {
    pub original: String,
    pub updated: String,
    pub occurrences: usize,
}

/// The outcome of planning an edit.
pub open spec fn edit_outcome_matches(
    r: Result<EditPlan, EditRefusal>,
    raw: Seq<char>,
    old_string: Seq<char>,
    new_string: Seq<char>,
    replace_all: bool,
    expected: Option<Seq<char>>,
) -> bool {
    let content = lf_normalized(raw);
    if expected is Some && expected->0 != checksum_of(raw) {
        r matches Err(EditRefusal::ChecksumMismatch { message }) && message@ == "expected checksum "@
            + expected->0 + " but current file checksum is "@ + checksum_of(raw)
    } else if old_string == new_string {
        r matches Err(EditRefusal::Unchanged)
    } else if old_string.len() > 0 && !contains_seq(content, old_string) {
        r matches Err(EditRefusal::NotFound { message }) && message@ == not_found_message(content)
    } else {
        r matches Ok(plan) && plan.original@ == content && plan.occurrences == match_count(content, old_string)
            && plan.updated@ == (if replace_all {
            replace_every(content, old_string, new_string)
        } else {
            replace_first(content, old_string, new_string)
        })
    }
}

fn count_matches(s: &[char], p: &[char]) -> (n: usize)
    requires
        s@.len() < usize::MAX,
    ensures
        n == match_count(s@, p@),
{
    if p.len() == 0 {
        return s.len() + 1;
    }
    let mut n: usize = 0;
    let mut i: usize = 0;
    assert(s@.skip(0) =~= s@);
    while i < s.len()
        invariant
            i <= s.len() < usize::MAX,
            p@.len() > 0,
            n <= i,
            n + match_count(s@.skip(i as int), p@) == match_count(s@, p@),
        decreases s.len() - i,
    {
        let ghost rest = s@.skip(i as int);
        if starts_with_at(s, p, i) {
            assert(is_prefix(p@, rest)) by {
                assert(rest.take(p@.len() as int) =~= s@.subrange(i as int, i + p@.len()));
            }
            assert(rest.skip(p@.len() as int) =~= s@.skip(i + p@.len()));
            n += 1;
            i += p.len();
        } else {
            assert(!is_prefix(p@, rest)) by {
                if is_prefix(p@, rest) {
                    assert(rest.take(p@.len() as int) =~= s@.subrange(i as int, i + p@.len()));
                }
            }
            assert(rest.drop_first() =~= s@.skip(i + 1));
            i += 1;
        }
    }
    assert(s@.skip(i as int).len() == 0);
    n
}

fn interleave_chars(s: &[char], to: &[char]) -> (r: Vec<char>)
    ensures
        r@ == interleave(s@, to@),
{
    let mut r: Vec<char> = Vec::new();
    let mut i: usize = 0;
    assert(s@.skip(0) =~= s@);
    while i < s.len()
        invariant
            i <= s.len(),
            r@ + interleave(s@.skip(i as int), to@) == interleave(s@, to@),
        decreases s.len() - i,
    {
        assert(s@.skip(i as int).drop_first() =~= s@.skip(i + 1));
        assert(s@.skip(i as int)[0] == s@[i as int]);
        push_all(&mut r, to);
        r.push(s[i]);
        i += 1;
        assert(r@ + interleave(s@.skip(i as int), to@) =~= interleave(s@, to@));
    }
    assert(s@.skip(i as int).len() == 0);
    push_all(&mut r, to);
    assert(r@ =~= interleave(s@, to@));
    r
}

proof fn lemma_replace_first_at(s: Seq<char>, p: Seq<char>, to: Seq<char>, i: int)
    requires
        p.len() > 0,
        first_occurrence(s, p) == Some(i),
    ensures
        replace_first(s, p, to) == s.take(i) + to + s.skip(i + p.len()),
{
}

fn splice(s: &[char], i: usize, n: usize, to: &[char]) -> (r: Vec<char>)
    requires
        i + n <= s@.len(),
    ensures
        r@ == s@.take(i as int) + to@ + s@.skip(i + n),
{
    assert(s@.len() == s.len());
    let mut r = slice_to_vec(s, 0, i);
    push_all(&mut r, to);
    let tail = slice_to_vec(s, i + n, s.len());
    push_all(&mut r, &tail);
    assert(r@ =~= s@.take(i as int) + to@ + s@.skip(i + n));
    r
}

fn replace_first_chars(s: &[char], p: &[char], to: &[char]) -> (r: Vec<char>)
    ensures
        r@ == replace_first(s@, p@, to@),
{
    if p.len() == 0 {
        let mut r: Vec<char> = Vec::new();
        push_all(&mut r, to);
        push_all(&mut r, s);
        return r;
    }
    let found = find(s, p);
    match found {
        Some(i) => {
            assert(i + p@.len() <= s@.len());
            proof {
                lemma_replace_first_at(s@, p@, to@, i as int);
            }
            splice(s, i, p.len(), to)
        },
        None => slice_to_vec(s, 0, s.len()),
    }
}

fn last_lines_joined(lines: &Vec<Vec<char>>) -> (r: Vec<char>)
    ensures
        r@ == join(last_five(lines@.map_values(|v: Vec<char>| v@)), "\n"@),
{
    let ghost lv = lines@.map_values(|v: Vec<char>| v@);
    let start: usize = if lines.len() > 5 {
        lines.len() - 5
    } else {
        0
    };
    let r = join_range(lines, start, lines.len());
    assert(lv.subrange(start as int, lines@.len() as int) =~= last_five(lv));
    r
}

/// Plans a string-replacement edit of a file's content: checks the
/// expected checksum, normalizes line endings, refuses an edit that
/// changes nothing or whose `old_string` is missing, and otherwise
/// replaces the first match, or every match when `replace_all` is set.
pub fn plan_edit(
    original_raw: &str,
    old_string: &str,
    new_string: &str,
    replace_all: bool,
    expected_checksum: Option<&str>,
) -> (r: Result<EditPlan, EditRefusal>)
    requires
        original_raw@.len() < usize::MAX,
    ensures
        edit_outcome_matches(
            r,
            original_raw@,
            old_string@,
            new_string@,
            replace_all,
            match expected_checksum {
                Some(e) => Some(e@),
                None => None,
            },
        ),
{
    proof {
        reveal_strlit("\r\n");
        reveal_strlit("\n");
    }
    if let Some(expected) = expected_checksum {
        let actual = content_checksum(original_raw);
        if !crate::text::str_eq(actual.as_str(), expected) {
            let mut v: Vec<char> = Vec::new();
            push_str(&mut v, "expected checksum ");
            push_str(&mut v, expected);
            push_str(&mut v, " but current file checksum is ");
            push_str(&mut v, actual.as_str());
            return Err(EditRefusal::ChecksumMismatch { message: string_from_chars(&v) });
        }
    }
    let raw = chars_of(original_raw);
    let crlf = chars_of("\r\n");
    let lf = chars_of("\n");
    let content = replace_chars(&raw, &crlf, &lf);
    proof {
        lemma_replace_all_not_longer(raw@, crlf@, lf@);
    }
    if crate::text::str_eq(old_string, new_string) {
        return Err(EditRefusal::Unchanged);
    }
    let old = chars_of(old_string);
    let new = chars_of(new_string);
    if old.len() > 0 && !crate::text::contains(&content, &old) {
        let lines = lines_of(&content);
        let mut v: Vec<char> = Vec::new();
        push_str(&mut v, "old_string not found in file (");
        crate::text::push_decimal(&mut v, lines.len() as u64);
        push_str(
            &mut v,
            " lines). The file may have been modified since you last read it. Last 5 lines of the file:\n---\n",
        );
        let tail = last_lines_joined(&lines);
        push_all(&mut v, &tail);
        push_str(&mut v, "\n---\nPlease call read_file to see the current content before retrying.");
        return Err(EditRefusal::NotFound { message: string_from_chars(&v) });
    }
    let occurrences = count_matches(&content, &old);
    let updated = if replace_all {
        if old.len() == 0 {
            interleave_chars(&content, &new)
        } else {
            replace_chars(&content, &old, &new)
        }
    } else {
        replace_first_chars(&content, &old, &new)
    };
    Ok(
        EditPlan {
            original: string_from_chars(&content),
            updated: string_from_chars(&updated),
            occurrences,
        },
    )
}

proof fn lemma_replace_all_not_longer(s: Seq<char>, from: Seq<char>, to: Seq<char>)
    requires
        to.len() <= from.len(),
    ensures
        replace_all(s, from, to).len() <= s.len(),
    decreases s.len(),
{
    if s.len() > 0 && from.len() > 0 {
        if is_prefix(from, s) {
            lemma_replace_all_not_longer(s.skip(from.len() as int), from, to);
        } else {
            lemma_replace_all_not_longer(s.drop_first(), from, to);
        }
    }
}

// ---------------------------------------------------------------------------
// Syntax checks.
// ---------------------------------------------------------------------------

/// The failure `serde_json` reports when a text is not one JSON value: its
/// message and line, or `None` when the text parses.
pub uninterp spec fn json_syntax_failure(text: Seq<char>) -> Option<(Seq<char>, usize)>;

/// Parses a text as a `serde_json::Value` with `serde_json::from_str` and
/// keeps the error's `to_string` and `line`. Trusted: the outcome depends
/// on the text alone; the contract names it and says nothing more.
#[verifier::external_body]
fn json_syntax_error(content: &str) -> (r: Option<(String, usize)>)
    ensures
        match r {
            None => json_syntax_failure(content@) is None,
            Some((m, l)) => json_syntax_failure(content@) == Some((m@, l)),
        },
{
    match serde_json::from_str::<serde_json::Value>(content) {
        Ok(_) => None,
        Err(e) => Some((e.to_string(), e.line())),
    }
}

/// The failure `toml` reports when a text is not a TOML document: its
/// message, or `None` when the text parses.
pub uninterp spec fn toml_syntax_failure(text: Seq<char>) -> Option<Seq<char>>;

/// Parses a text as a `toml::Value` with `toml::from_str` and keeps the
/// error's `to_string`. Trusted: the outcome depends on the text alone;
/// the contract names it and says nothing more.
#[verifier::external_body]
fn toml_syntax_error(content: &str) -> (r: Option<String>)
    ensures
        match r {
            None => toml_syntax_failure(content@) is None,
            Some(m) => toml_syntax_failure(content@) == Some(m@),
        },
{
    match toml::from_str::<toml::Value>(content) {
        Ok(_) => None,
        Err(e) => Some(e.to_string()),
    }
}

/// The syntax check for a JSON parse outcome.
pub fn syntax_from_json(failure: Option<(String, usize)>) -> (r: SyntaxCheck)
    ensures
        match failure {
            None => r == SyntaxCheck::Valid,
            Some((m, l)) => r matches SyntaxCheck::Invalid { message, line } && message@ == m@ && line
                == Some(l),
        },
{
    match failure {
        None => SyntaxCheck::Valid,
        Some((message, line)) => SyntaxCheck::Invalid { message, line: Some(line) },
    }
}

/// The syntax check for a TOML parse outcome; TOML errors carry no line.
pub fn syntax_from_toml(failure: Option<String>) -> (r: SyntaxCheck)
    ensures
        match failure {
            None => r == SyntaxCheck::Valid,
            Some(m) => r matches SyntaxCheck::Invalid { message, line } && message@ == m@ && line is None,
        },
{
    match failure {
        None => SyntaxCheck::Valid,
        Some(message) => SyntaxCheck::Invalid { message, line: None },
    }
}

/// Checks the syntax of a written file by its extension: `.json` files
/// with the JSON parser, `.toml` files with the TOML parser, others not at
/// all.
pub fn validate_syntax(path: &str, content: &str) -> (r: SyntaxCheck)
    ensures
        match crate::lsp_parse::path_extension_text(path@) {
            Some(e) => if e == "json"@ {
                match json_syntax_failure(content@) {
                    None => r == SyntaxCheck::Valid,
                    Some((m, l)) => r matches SyntaxCheck::Invalid { message, line } && message@ == m
                        && line == Some(l),
                }
            } else if e == "toml"@ {
                match toml_syntax_failure(content@) {
                    None => r == SyntaxCheck::Valid,
                    Some(m) => r matches SyntaxCheck::Invalid { message, line } && message@ == m
                        && line is None,
                }
            } else {
                r == SyntaxCheck::Skipped
            },
            None => r == SyntaxCheck::Skipped,
        },
{
    match crate::lsp_parse::extension_of(path) {
        Some(ext) => {
            if crate::text::str_eq(ext.as_str(), "json") {
                syntax_from_json(json_syntax_error(content))
            } else if crate::text::str_eq(ext.as_str(), "toml") {
                syntax_from_toml(toml_syntax_error(content))
            } else {
                SyntaxCheck::Skipped
            }
        },
        None => SyntaxCheck::Skipped,
    }
}


// ---------------------------------------------------------------------------
// Environment variables in paths.
// ---------------------------------------------------------------------------

/// Position of the first `c` in `s` at or after `i`.
pub open spec fn next_at(s: Seq<char>, c: char, i: int) -> Option<int>
    decreases s.len() - i,
{
    if i < 0 || i >= s.len() {
        None
    } else if s[i] == c {
        Some(i)
    } else {
        next_at(s, c, i + 1)
    }
}

proof fn lemma_next_at(s: Seq<char>, c: char, i: int)
    requires
        0 <= i,
    ensures
        next_at(s, c, i) matches Some(j) ==> i <= j < s.len() && s[j] == c,
    decreases s.len() - i,
{
    if i < s.len() && s[i] != c {
        lemma_next_at(s, c, i + 1);
    }
}

/// The value of the first definition of `name`.
pub open spec fn env_lookup(env: Seq<(String, String)>, name: Seq<char>) -> Option<Seq<char>>
    decreases env.len(),
{
    if env.len() == 0 {
        None
    } else if env[0].0@ == name {
        Some(env[0].1@)
    } else {
        env_lookup(env.drop_first(), name)
    }
}

/// `s` from position `i` on, with each closed `%NAME%` and `${NAME}`
/// replaced by the variable's value; a variable that is not defined is
/// left as written, and an unclosed one keeps the rest of the text as it
/// is.
pub open spec fn expand_from(s: Seq<char>, env: Seq<(String, String)>, i: int) -> Seq<char>
    decreases s.len() - i,
{
    if i < 0 || i >= s.len() {
        seq![]
    } else if s[i] == '%' {
        match next_at(s, '%', i + 1) {
            Some(j) => if i < j < s.len() {
                let name = s.subrange(i + 1, j);
                (match env_lookup(env, name) {
                    Some(v) => v,
                    None => seq!['%'] + name + seq!['%'],
                }) + expand_from(s, env, j + 1)
            } else {
                seq![]
            },
            None => seq!['%'] + s.subrange(i + 1, s.len() as int),
        }
    } else if s[i] == '$' && i + 1 < s.len() && s[i + 1] == '{' {
        match next_at(s, '}', i + 2) {
            Some(j) => if i < j < s.len() {
                let name = s.subrange(i + 2, j);
                (match env_lookup(env, name) {
                    Some(v) => v,
                    None => seq!['$', '{'] + name + seq!['}'],
                }) + expand_from(s, env, j + 1)
            } else {
                seq![]
            },
            None => seq!['$', '{'] + s.subrange(i + 2, s.len() as int),
        }
    } else {
        seq![s[i]] + expand_from(s, env, i + 1)
    }
}

fn next_char_at(s: &Vec<char>, c: char, from: usize) -> (r: Option<usize>)
    ensures
        match r {
            Some(j) => next_at(s@, c, from as int) == Some(j as int),
            None => next_at(s@, c, from as int) is None,
        },
{
    let mut i = from;
    while i < s.len()
        invariant
            from <= i,
            next_at(s@, c, from as int) == next_at(s@, c, i as int),
        decreases s.len() - i,
    {
        if s[i] == c {
            return Some(i);
        }
        i += 1;
    }
    None
}

pub(crate) fn lookup_env(env: &Vec<(String, String)>, name: &Vec<char>) -> (r: Option<Vec<char>>)
    ensures
        match r {
            Some(v) => env_lookup(env@, name@) == Some(v@),
            None => env_lookup(env@, name@) is None,
        },
{
    let mut k: usize = 0;
    assert(env@.skip(0) =~= env@);
    while k < env.len()
        invariant
            k <= env@.len(),
            env_lookup(env@, name@) == env_lookup(env@.skip(k as int), name@),
        decreases env.len() - k,
    {
        assert(env@.skip(k as int).drop_first() =~= env@.skip(k + 1));
        if crate::text::chars_eq_str(name, env[k].0.as_str()) {
            return Some(chars_of(env[k].1.as_str()));
        }
        k += 1;
    }
    None
}

/// A path with its environment variables expanded, `env` holding the
/// variables that are defined.
pub fn expand_env_vars(path: &str, env: &Vec<(String, String)>) -> (r: String)
    ensures
        r@ == expand_from(path@, env@, 0),
{
    let s = chars_of(path);
    let n = s.len();
    let mut out: Vec<char> = Vec::new();
    let mut i: usize = 0;
    while i < n
        invariant
            n == s@.len(),
            s@ == path@,
            i <= n,
            out@ + expand_from(s@, env@, i as int) == expand_from(s@, env@, 0),
        decreases n - i,
    {
        let c = s[i];
        let ghost before = out@;
        if c == '%' {
            proof {
                lemma_next_at(s@, '%', i + 1);
            }
            match next_char_at(&s, '%', i + 1) {
                Some(j) => {
                    let name = slice_to_vec(&s, i + 1, j);
                    match lookup_env(env, &name) {
                        Some(v) => push_all(&mut out, &v),
                        None => {
                            out.push('%');
                            push_all(&mut out, &name);
                            out.push('%');
                        },
                    }
                    assert(out@ + expand_from(s@, env@, j + 1) =~= before + expand_from(s@, env@, i as int));
                    i = j + 1;
                },
                None => {
                    out.push('%');
                    let rest = slice_to_vec(&s, i + 1, n);
                    push_all(&mut out, &rest);
                    assert(expand_from(s@, env@, n as int) =~= Seq::<char>::empty());
                    assert(out@ + expand_from(s@, env@, n as int) =~= before + expand_from(s@, env@, i as int));
                    i = n;
                },
            }
        } else if c == '$' && i + 1 < n && s[i + 1] == '{' {
            proof {
                lemma_next_at(s@, '}', i + 2);
            }
            match next_char_at(&s, '}', i + 2) {
                Some(j) => {
                    let name = slice_to_vec(&s, i + 2, j);
                    match lookup_env(env, &name) {
                        Some(v) => push_all(&mut out, &v),
                        None => {
                            out.push('$');
                            out.push('{');
                            push_all(&mut out, &name);
                            out.push('}');
                        },
                    }
                    assert(out@ + expand_from(s@, env@, j + 1) =~= before + expand_from(s@, env@, i as int));
                    i = j + 1;
                },
                None => {
                    out.push('$');
                    out.push('{');
                    let rest = slice_to_vec(&s, i + 2, n);
                    push_all(&mut out, &rest);
                    assert(expand_from(s@, env@, n as int) =~= Seq::<char>::empty());
                    assert(out@ + expand_from(s@, env@, n as int) =~= before + expand_from(s@, env@, i as int));
                    i = n;
                },
            }
        } else {
            out.push(c);
            assert(out@ + expand_from(s@, env@, i + 1) =~= before + expand_from(s@, env@, i as int));
            i += 1;
        }
    }
    assert(out@ =~= expand_from(s@, env@, 0));
    string_from_chars(&out)
}


// ---------------------------------------------------------------------------
// Brace alternatives in glob patterns.
// ---------------------------------------------------------------------------

/// The patterns a glob pattern stands for once its first `{a,b,...}` group
/// is replaced by each non-empty alternative in turn, each result expanded
/// again; a pattern without such a group (or whose group holds only empty
/// alternatives) stands for itself.
pub open spec fn brace_expansions(p: Seq<char>) -> Seq<Seq<char>>
    decreases p.len(), 1int, 0int,
{
    match next_at(p, '{', 0) {
        None => seq![p],
        Some(open) => match next_at(p, '}', open) {
            None => seq![p],
            Some(close) => if 0 <= open < close < p.len() {
                let choices = crate::text::split_on(p.subrange(open + 1, close), ',');
                if exists|k: int| 0 <= k < choices.len() && #[trigger] choices[k].len() > 0 {
                    expand_choices(p.subrange(0, open), choices, p.subrange(close + 1, p.len() as int), p.len())
                } else {
                    seq![p]
                }
            } else {
                seq![p]
            },
        },
    }
}

/// The expansions of `prefix + c + suffix` for each non-empty `c` of
/// `choices`, in order.
pub open spec fn expand_choices(prefix: Seq<char>, choices: Seq<Seq<char>>, suffix: Seq<char>, bound: nat) -> Seq<Seq<char>>
    decreases bound, 0int, choices.len(),
{
    if choices.len() == 0 {
        seq![]
    } else {
        let init = expand_choices(prefix, choices.drop_last(), suffix, bound);
        let c = choices.last();
        let child = prefix + c + suffix;
        if c.len() == 0 || child.len() >= bound {
            init
        } else {
            init + brace_expansions(child)
        }
    }
}

proof fn lemma_split_parts_short(s: Seq<char>, sep: char)
    ensures
        forall|k: int| 0 <= k < split_on(s, sep).len() ==> (#[trigger] split_on(s, sep)[k]).len() <= s.len(),
    decreases s.len(),
{
    if s.len() > 0 {
        lemma_split_parts_short(s.drop_last(), sep);
        crate::text::lemma_split_on_nonempty(s.drop_last(), sep);
    }
}

fn concat3(a: &Vec<char>, b: &Vec<char>, c: &Vec<char>) -> (r: Vec<char>)
    ensures
        r@ == a@ + b@ + c@,
{
    let mut r: Vec<char> = Vec::new();
    push_all(&mut r, a);
    push_all(&mut r, b);
    push_all(&mut r, c);
    r
}

pub open spec fn char_views(v: Seq<Vec<char>>) -> Seq<Seq<char>> {
    v.map_values(|x: Vec<char>| x@)
}

/// The patterns a glob pattern stands for, brace groups expanded.
pub fn expand_braces(p: &Vec<char>) -> (r: Vec<Vec<char>>)
    ensures
        char_views(r@) == brace_expansions(p@),
    decreases p@.len(),
{
    let single = |p: &Vec<char>| -> (r: Vec<Vec<char>>)
        ensures
            char_views(r@) == seq![p@],
        {
            let mut r: Vec<Vec<char>> = Vec::new();
            r.push(slice_to_vec(p, 0, p.len()));
            assert(p@.subrange(0, p@.len() as int) =~= p@);
            assert(char_views(r@) =~= seq![p@]);
            r
        };
    let n = p.len();
    let open = match next_char_at(p, '{', 0) {
        Some(o) => o,
        None => {
            return single(p);
        },
    };
    proof {
        lemma_next_at(p@, '{', 0);
    }
    let close = match next_char_at(p, '}', open) {
        Some(c) => c,
        None => {
            return single(p);
        },
    };
    proof {
        lemma_next_at(p@, '}', open as int);
    }
    assert(open < close < n);
    let prefix = slice_to_vec(p, 0, open);
    let body = slice_to_vec(p, open + 1, close);
    let suffix = slice_to_vec(p, close + 1, n);
    let parts = split_chars(&body, ',');
    let ghost choices = crate::text::split_on(body@, ',');
    proof {
        lemma_split_parts_short(body@, ',');
    }
    let mut any = false;
    let mut k: usize = 0;
    while k < parts.len()
        invariant
            k <= parts@.len(),
            char_views(parts@) == choices,
            any == exists|j: int| 0 <= j < k && #[trigger] choices[j].len() > 0,
        decreases parts.len() - k,
    {
        assert(choices[k as int] == parts@[k as int]@);
        if parts[k].len() > 0 {
            any = true;
        }
        k += 1;
    }
    if !any {
        return single(p);
    }
    let mut out: Vec<Vec<char>> = Vec::new();
    let mut k: usize = 0;
    while k < parts.len()
        invariant
            k <= parts@.len(),
            char_views(parts@) == choices,
            n == p@.len(),
            prefix@ == p@.subrange(0, open as int),
            suffix@ == p@.subrange(close + 1, n as int),
            body@ == p@.subrange(open + 1, close as int),
            open < close < n,
            forall|j: int| 0 <= j < choices.len() ==> (#[trigger] choices[j]).len() <= body@.len(),
            char_views(out@) == expand_choices(prefix@, choices.take(k as int), suffix@, n as nat),
        decreases parts.len() - k,
    {
        assert(choices.take(k + 1).drop_last() =~= choices.take(k as int));
        assert(choices.take(k + 1).last() == choices[k as int]);
        assert(choices[k as int] == parts@[k as int]@);
        if parts[k].len() > 0 {
            let child = concat3(&prefix, &parts[k], &suffix);
            assert(child@.len() < n);
            let mut more = expand_braces(&child);
            let ghost o0 = out@;
            let ghost m0 = more@;
            out.append(&mut more);
            assert(char_views(out@) =~= char_views(o0) + char_views(m0));
        }
        k += 1;
    }
    assert(choices.take(parts@.len() as int) =~= choices);
    out
}


// ---------------------------------------------------------------------------
// Glob matching.
// ---------------------------------------------------------------------------

#[verifier::external_type_specification]
#[verifier::external_body]
pub struct ExGlobPattern(glob::Pattern);

/// The error `glob::Pattern::new` reports for a pattern, rendered as text;
/// none when the pattern compiles.
pub uninterp spec fn glob_compile_error(pattern: Seq<char>) -> Option<Seq<char>>;

/// Whether `glob::Pattern::matches` accepts `text` for `pattern`, with
/// the default options.
pub uninterp spec fn glob_matches(pattern: Seq<char>, text: Seq<char>) -> bool;

/// `glob::Pattern::new`. Trusted: the outcome is named by
/// `glob_compile_error`, a function of the pattern's text; the pattern
/// syntax itself is not spelled out.
#[verifier::external_body]
fn compile_glob(pattern: &str) -> (r: Result<glob::Pattern, String>)
    ensures
        match r {
            Ok(_) => glob_compile_error(pattern@) is None,
            Err(m) => glob_compile_error(pattern@) == Some(m@),
        },
{
    glob::Pattern::new(pattern).map_err(|e| e.to_string())
}

/// A compiled glob pattern with the text it was compiled from.
pub struct GlobMatcher {
    text: String,
    pattern: glob::Pattern,
}

/// `glob::Pattern::matches`. Trusted: the matcher's pattern is the one
/// `GlobMatcher::new` compiled from its text, and the result is named by
/// `glob_matches` over that text and the candidate.
#[verifier::external_body]
fn matcher_accepts(m: &GlobMatcher, text: &str) -> (r: bool)
    ensures
        r == glob_matches(m.text@, text@),
{
    m.pattern.matches(text)
}

impl GlobMatcher {
    pub closed spec fn text(&self) -> Seq<char> {
        self.text@
    }

    /// Compiles a pattern, or gives the compiler's error text.
    pub fn new(pattern: &str) -> (r: Result<Self, String>)
        ensures
            match r {
                Ok(m) => glob_compile_error(pattern@) is None && m.text() == pattern@,
                Err(e) => glob_compile_error(pattern@) == Some(e@),
            },
    {
        match compile_glob(pattern) {
            Ok(compiled) => Ok(GlobMatcher { text: owned(pattern), pattern: compiled }),
            Err(e) => Err(e),
        }
    }

    /// Whether a text matches the pattern.
    pub fn matches(&self, text: &str) -> (r: bool)
        ensures
            r == glob_matches(self.text(), text@),
    {
        matcher_accepts(self, text)
    }
}

/// A text with each backslash turned into a forward slash.
pub open spec fn forward_slashes(s: Seq<char>) -> Seq<char> {
    s.map_values(|c: char| if c == '\\' { '/' } else { c })
}

fn to_forward_slashes(s: &[char]) -> (r: Vec<char>)
    ensures
        r@ == forward_slashes(s@),
{
    let mut r: Vec<char> = Vec::new();
    let mut i: usize = 0;
    while i < s.len()
        invariant
            i <= s@.len(),
            r@ == forward_slashes(s@.take(i as int)),
        decreases s.len() - i,
    {
        r.push(if s[i] == '\\' { '/' } else { s[i] });
        i += 1;
        assert(r@ =~= forward_slashes(s@.take(i as int)));
    }
    assert(s@.take(s@.len() as int) =~= s@);
    r
}

/// The first alternative that does not compile, with its error.
pub open spec fn first_glob_error(alts: Seq<Seq<char>>) -> Option<(Seq<char>, Seq<char>)>
    decreases alts.len(),
{
    if alts.len() == 0 {
        None
    } else {
        match glob_compile_error(alts[0]) {
            Some(e) => Some((alts[0], e)),
            None => first_glob_error(alts.drop_first()),
        }
    }
}

/// The message for a pattern that does not compile.
pub open spec fn invalid_glob_message(alt: Seq<char>, error: Seq<char>) -> Seq<char> {
    "invalid glob pattern: invalid glob pattern `"@ + alt + "`: "@ + error
}

/// The matchers of a search pattern: backslashes read as slashes, brace
/// groups expanded, each alternative compiled; the first alternative that
/// does not compile fails the whole pattern.
pub fn glob_matchers(pattern: &str) -> (r: Result<Vec<GlobMatcher>, String>)
    ensures
        ({
            let alts = brace_expansions(forward_slashes(pattern@));
            match first_glob_error(alts) {
                Some((alt, e)) => r matches Err(m) && m@ == invalid_glob_message(alt, e),
                None => r matches Ok(ms) && ms@.len() == alts.len() && forall|k: int|
                    0 <= k < alts.len() ==> (#[trigger] ms@[k]).text() == alts[k],
            }
        }),
{
    let slashed = to_forward_slashes(&chars_of(pattern));
    let alts = expand_braces(&slashed);
    let ghost av = char_views(alts@);
    let mut out: Vec<GlobMatcher> = Vec::new();
    let mut k: usize = 0;
    assert(av.skip(0) =~= av);
    while k < alts.len()
        invariant
            k <= alts@.len(),
            av == char_views(alts@),
            av == brace_expansions(forward_slashes(pattern@)),
            first_glob_error(av) == first_glob_error(av.skip(k as int)),
            out@.len() == k,
            forall|j: int| 0 <= j < k ==> (#[trigger] out@[j]).text() == av[j],
        decreases alts.len() - k,
    {
        assert(av.skip(k as int).drop_first() =~= av.skip(k + 1));
        assert(av.skip(k as int)[0] == av[k as int]);
        let text = string_from_chars(&alts[k]);
        match GlobMatcher::new(text.as_str()) {
            Ok(m) => {
                out.push(m);
            },
            Err(e) => {
                let mut v = chars_of("invalid glob pattern: invalid glob pattern `");
                push_all(&mut v, &alts[k]);
                push_str(&mut v, "`: ");
                push_str(&mut v, e.as_str());
                return Err(string_from_chars(&v));
            },
        }
        k += 1;
    }
    assert(av.skip(alts@.len() as int) =~= Seq::<Seq<char>>::empty());
    Ok(out)
}

/// Some matcher accepts the text.
pub open spec fn any_matches(matchers: Seq<GlobMatcher>, text: Seq<char>) -> bool {
    exists|k: int| 0 <= k < matchers.len() && glob_matches(#[trigger] matchers[k].text(), text)
}

/// The non-empty lines that some matcher accepts once their backslashes
/// are read as slashes, in order.
pub open spec fn glob_selected(lines: Seq<Seq<char>>, matchers: Seq<GlobMatcher>) -> Seq<Seq<char>>
    decreases lines.len(),
{
    if lines.len() == 0 {
        seq![]
    } else {
        let init = glob_selected(lines.drop_last(), matchers);
        let l = lines.last();
        if l.len() > 0 && any_matches(matchers, forward_slashes(l)) {
            init.push(l)
        } else {
            init
        }
    }
}

/// The lines of a file listing that match the search's pattern.
pub fn select_glob_matches(listing: &str, matchers: &Vec<GlobMatcher>) -> (r: Vec<String>)
    ensures
        crate::text::string_views(r@) == glob_selected(crate::memory_store::text_lines(listing@), matchers@),
{
    let lines = crate::memory_store::lines_of(&chars_of(listing));
    let ghost lv = char_views(lines@);
    let mut out: Vec<String> = Vec::new();
    let mut i: usize = 0;
    while i < lines.len()
        invariant
            i <= lines@.len(),
            lv == char_views(lines@),
            lv == crate::memory_store::text_lines(listing@),
            crate::text::string_views(out@) == glob_selected(lv.take(i as int), matchers@),
        decreases lines.len() - i,
    {
        assert(lv.take(i + 1).drop_last() =~= lv.take(i as int));
        assert(lv.take(i + 1).last() == lines@[i as int]@);
        if lines[i].len() > 0 {
            let rel = string_from_chars(&to_forward_slashes(&lines[i]));
            let mut hit = false;
            let mut k: usize = 0;
            while k < matchers.len()
                invariant
                    k <= matchers@.len(),
                    rel@ == forward_slashes(lines@[i as int]@),
                    hit == exists|j: int| 0 <= j < k && glob_matches(#[trigger] matchers@[j].text(), rel@),
                decreases matchers.len() - k,
            {
                if matchers[k].matches(rel.as_str()) {
                    hit = true;
                }
                k += 1;
            }
            if hit {
                let line = string_from_chars(&lines[i]);
                let ghost o0 = out@;
                out.push(line);
                assert(crate::text::string_views(out@) =~= crate::text::string_views(o0).push(line@));
            }
        }
        i += 1;
    }
    assert(lv.take(lines@.len() as int) =~= lv);
    out
}


// ---------------------------------------------------------------------------
// Most recently modified first.
// ---------------------------------------------------------------------------

/// A file whose modification time is `a` is listed before one whose time
/// is `b`: files whose time is unknown first, then the newest.
pub open spec fn modified_before(a: Option<i128>, b: Option<i128>) -> bool {
    match (a, b) {
        (None, Some(_)) => true,
        (Some(x), Some(y)) => x > y,
        _ => false,
    }
}

/// Entry `i` is listed before entry `j`: by modification time, and in
/// their original order when the times are equal.
pub open spec fn listed_first(times: Seq<Option<i128>>, i: int, j: int) -> bool {
    modified_before(times[i], times[j]) || (times[i] == times[j] && i < j)
}

proof fn lemma_listed_first_order(times: Seq<Option<i128>>, a: int, b: int, c: int)
    ensures
        listed_first(times, a, b) && listed_first(times, b, c) ==> listed_first(times, a, c),
        a != b ==> (listed_first(times, a, b) || listed_first(times, b, a)),
        !(listed_first(times, a, b) && listed_first(times, b, a)),
{
}

fn listed_first_exec(times: &Vec<Option<i128>>, i: usize, j: usize) -> (r: bool)
    requires
        i < times@.len(),
        j < times@.len(),
    ensures
        r == listed_first(times@, i as int, j as int),
{
    let before = match (times[i], times[j]) {
        (None, Some(_)) => true,
        (Some(x), Some(y)) => x > y,
        _ => false,
    };
    let same = match (times[i], times[j]) {
        (None, None) => true,
        (Some(x), Some(y)) => x == y,
        _ => false,
    };
    before || (same && i < j)
}

/// The order in which to list files with the given modification times:
/// a permutation of their positions, files whose time is unknown first,
/// then the most recently modified, ties kept in their original order.
pub fn newest_first_order(times: &Vec<Option<i128>>) -> (r: Vec<usize>)
    ensures
        r@.len() == times@.len(),
        forall|k: int| 0 <= k < r@.len() ==> #[trigger] r@[k] < times@.len(),
        forall|a: int, b: int| 0 <= a < b < r@.len() ==> listed_first(times@, #[trigger] r@[a] as int, #[trigger] r@[b] as int),
        forall|a: int, b: int| 0 <= a < b < r@.len() ==> #[trigger] r@[a] != #[trigger] r@[b],
{
    let n = times.len();
    let mut out: Vec<usize> = Vec::new();
    let mut x: usize = 0;
    while x < n
        invariant
            n == times@.len(),
            x <= n,
            out@.len() == x,
            forall|k: int| 0 <= k < out@.len() ==> #[trigger] out@[k] < x,
            forall|a: int, b: int| 0 <= a < b < out@.len() ==> listed_first(times@, #[trigger] out@[a] as int, #[trigger] out@[b] as int),
        decreases n - x,
    {
        let mut p: usize = 0;
        while p < out.len()
            invariant
                p <= out@.len(),
                x < n,
                n == times@.len(),
                forall|k: int| 0 <= k < out@.len() ==> #[trigger] out@[k] < x,
                forall|k: int| 0 <= k < p ==> listed_first(times@, #[trigger] out@[k] as int, x as int),
            ensures
                p <= out@.len(),
                forall|k: int| 0 <= k < p ==> listed_first(times@, #[trigger] out@[k] as int, x as int),
                p < out@.len() ==> listed_first(times@, x as int, out@[p as int] as int),
            decreases out.len() - p,
        {
            if listed_first_exec(times, x, out[p]) {
                break;
            }
            proof {
                lemma_listed_first_order(times@, out@[p as int] as int, x as int, x as int);
            }
            p += 1;
        }
        let ghost before = out@;
        out.insert(p, x);
        proof {
            assert(out@ == before.insert(p as int, x));
            assert forall|k: int| 0 <= k < out@.len() implies #[trigger] out@[k] < x + 1 by {
                if k < p {
                    assert(out@[k] == before[k]);
                } else if k > p {
                    assert(out@[k] == before[k - 1]);
                }
            }
            assert forall|a: int, b: int| 0 <= a < b < out@.len() implies listed_first(
                times@,
                #[trigger] out@[a] as int,
                #[trigger] out@[b] as int,
            ) by {
                let xi = x as int;
                if b < p {
                    assert(out@[a] == before[a] && out@[b] == before[b]);
                } else if b == p {
                    assert(out@[a] == before[a]);
                } else if a == p {
                    assert(out@[b] == before[b - 1]);
                    if b - 1 > p {
                        assert(listed_first(times@, before[p as int] as int, before[b - 1] as int));
                        lemma_listed_first_order(times@, xi, before[p as int] as int, before[b - 1] as int);
                    }
                } else if a < p {
                    assert(out@[a] == before[a] && out@[b] == before[b - 1]);
                    assert(listed_first(times@, before[a] as int, before[b - 1] as int));
                } else {
                    assert(out@[a] == before[a - 1] && out@[b] == before[b - 1]);
                    assert(listed_first(times@, before[a - 1] as int, before[b - 1] as int));
                }
            }
        }
        x += 1;
    }
    out
}


// ---------------------------------------------------------------------------
// Content search with ripgrep.
// ---------------------------------------------------------------------------

/// How a content search reports.
#[derive(Debug, Clone, Copy, PartialEq, Eq, Structural)]
pub enum GrepMode {
    /// Matches per file.
    Count,
    /// The matching lines.
    Content,
    /// The files with matches.
    FilesWithMatches,
}

/// The mode a search asks for: `count`, `content`, or else (and by
/// default) the files with matches.
pub open spec fn grep_mode_of(output_mode: Option<Seq<char>>) -> GrepMode {
    match output_mode {
        Some(m) => if m == "count"@ {
            GrepMode::Count
        } else if m == "content"@ {
            GrepMode::Content
        } else {
            GrepMode::FilesWithMatches
        },
        None => GrepMode::FilesWithMatches,
    }
}

pub open spec fn opt_text(o: Option<String>) -> Option<Seq<char>> {
    match o {
        Some(s) => Some(s@),
        None => None,
    }
}

pub fn grep_mode(input: &GrepSearchInput) -> (r: GrepMode)
    ensures
        r == grep_mode_of(opt_text(input.output_mode)),
{
    match &input.output_mode {
        Some(m) => if crate::text::str_eq(m.as_str(), "count") {
            GrepMode::Count
        } else if crate::text::str_eq(m.as_str(), "content") {
            GrepMode::Content
        } else {
            GrepMode::FilesWithMatches
        },
        None => GrepMode::FilesWithMatches,
    }
}

/// The arguments given to `rg` for a search, up to and including its
/// pattern: no headings or colour, line numbers and file names on every
/// line, the case and multiline switches, the mode's switches (context
/// lines for content, given before and after or by `context`), the glob
/// and file type filters, then `--` and the pattern.
pub open spec fn grep_args_of(input: GrepSearchInput) -> Seq<Seq<char>> {
    seq!["--no-heading"@, "--color"@, "never"@, "--line-number"@, "--with-filename"@] + switch_args(input)
        + mode_args(input) + filter_args(input) + seq!["--"@, input.pattern@]
}

/// The case and multiline switches.
pub open spec fn switch_args(input: GrepSearchInput) -> Seq<Seq<char>> {
    (if input.case_insensitive == Some(true) {
        seq!["--ignore-case"@]
    } else {
        seq![]
    }) + (if input.multiline == Some(true) {
        seq!["--multiline"@]
    } else {
        seq![]
    })
}

/// Lines of context around each match: `context`, else its short form,
/// else none.
pub open spec fn context_of(input: GrepSearchInput) -> usize {
    match input.context {
        Some(c) => c,
        None => match input.context_short {
            Some(c) => c,
            None => 0usize,
        },
    }
}

/// The switches of the search's mode.
pub open spec fn mode_args(input: GrepSearchInput) -> Seq<Seq<char>> {
    let before = match input.before {
        Some(b) => b,
        None => context_of(input),
    };
    let after = match input.after {
        Some(a) => a,
        None => context_of(input),
    };
    match grep_mode_of(opt_text(input.output_mode)) {
        GrepMode::Count => seq!["--count-matches"@],
        GrepMode::Content => if before > 0 || after > 0 {
            seq!["-B"@, dec_string(before as nat), "-A"@, dec_string(after as nat)]
        } else {
            seq![]
        },
        GrepMode::FilesWithMatches => seq!["--files-with-matches"@],
    }
}

/// The glob and file type filters.
pub open spec fn filter_args(input: GrepSearchInput) -> Seq<Seq<char>> {
    (match input.glob {
        Some(g) => seq!["--glob"@, g@],
        None => seq![],
    }) + (match input.file_type {
        Some(t) => seq!["--type"@, t@],
        None => seq![],
    })
}

fn push_arg(args: &mut Vec<String>, a: &str)
    ensures
        crate::text::string_views(final(args)@) == crate::text::string_views(old(args)@).push(a@),
{
    let s = owned(a);
    args.push(s);
    assert(crate::text::string_views(args@) =~= crate::text::string_views(old(args)@).push(a@));
}

fn push_switch_args(args: &mut Vec<String>, input: &GrepSearchInput)
    ensures
        crate::text::string_views(final(args)@) == crate::text::string_views(old(args)@) + switch_args(*input),
{
    if input.case_insensitive == Some(true) {
        push_arg(args, "--ignore-case");
    }
    let ghost mid = crate::text::string_views(args@);
    if input.multiline == Some(true) {
        push_arg(args, "--multiline");
    }
    assert(crate::text::string_views(args@) =~= crate::text::string_views(old(args)@) + switch_args(*input));
}

fn push_mode_args(args: &mut Vec<String>, input: &GrepSearchInput)
    ensures
        crate::text::string_views(final(args)@) == crate::text::string_views(old(args)@) + mode_args(*input),
{
    proof {
        reveal_strlit("count");
        reveal_strlit("content");
    }
    let context: usize = match input.context {
        Some(c) => c,
        None => match input.context_short {
            Some(c) => c,
            None => 0,
        },
    };
    match grep_mode(input) {
        GrepMode::Count => push_arg(args, "--count-matches"),
        GrepMode::Content => {
            let before = match input.before {
                Some(b) => b,
                None => context,
            };
            let after = match input.after {
                Some(a) => a,
                None => context,
            };
            if before > 0 || after > 0 {
                push_arg(args, "-B");
                let b = crate::text::decimal_string(before as u64);
                push_arg(args, b.as_str());
                push_arg(args, "-A");
                let a = crate::text::decimal_string(after as u64);
                push_arg(args, a.as_str());
            }
        },
        GrepMode::FilesWithMatches => push_arg(args, "--files-with-matches"),
    }
    assert(crate::text::string_views(args@) =~= crate::text::string_views(old(args)@) + mode_args(*input));
}

fn push_filter_args(args: &mut Vec<String>, input: &GrepSearchInput)
    ensures
        crate::text::string_views(final(args)@) == crate::text::string_views(old(args)@) + filter_args(*input),
{
    if let Some(g) = &input.glob {
        push_arg(args, "--glob");
        push_arg(args, g.as_str());
    }
    if let Some(t) = &input.file_type {
        push_arg(args, "--type");
        push_arg(args, t.as_str());
    }
    assert(crate::text::string_views(args@) =~= crate::text::string_views(old(args)@) + filter_args(*input));
}

/// The `rg` arguments of a search.
pub fn grep_args(input: &GrepSearchInput) -> (r: Vec<String>)
    ensures
        crate::text::string_views(r@) == grep_args_of(*input),
{
    let mut args: Vec<String> = Vec::new();
    push_arg(&mut args, "--no-heading");
    push_arg(&mut args, "--color");
    push_arg(&mut args, "never");
    push_arg(&mut args, "--line-number");
    push_arg(&mut args, "--with-filename");
    let ghost a0 = crate::text::string_views(args@);
    push_switch_args(&mut args, input);
    push_mode_args(&mut args, input);
    push_filter_args(&mut args, input);
    let ghost a3 = crate::text::string_views(args@);
    push_arg(&mut args, "--");
    push_arg(&mut args, input.pattern.as_str());
    assert(a0 =~= seq!["--no-heading"@, "--color"@, "never"@, "--line-number"@, "--with-filename"@]);
    assert(crate::text::string_views(args@) =~= grep_args_of(*input));
    args
}

/// Position of the last `c` in `s`.
pub open spec fn last_index_of(s: Seq<char>, c: char) -> Option<int>
    decreases s.len(),
{
    if s.len() == 0 {
        None
    } else if s.last() == c {
        Some(s.len() - 1)
    } else {
        last_index_of(s.drop_last(), c)
    }
}

/// A line of `rg --count-matches`: the path before its last `:` and the
/// count after it, when that count is a `usize`.
pub open spec fn count_line(l: Seq<char>) -> Option<(Seq<char>, nat)> {
    match last_index_of(l, ':') {
        Some(j) => match crate::lsp_transport::usize_parse(l.subrange(j + 1, l.len() as int)) {
            Ok(n) => Some((l.subrange(0, j), n)),
            Err(_) => None,
        },
        None => None,
    }
}

/// The paths of the count lines, in order.
pub open spec fn count_paths(lines: Seq<Seq<char>>) -> Seq<Seq<char>>
    decreases lines.len(),
{
    if lines.len() == 0 {
        seq![]
    } else {
        match count_line(lines.last()) {
            Some((p, _)) => count_paths(lines.drop_last()).push(p),
            None => count_paths(lines.drop_last()),
        }
    }
}

/// The sum of the counts.
pub open spec fn count_total(lines: Seq<Seq<char>>) -> nat
    decreases lines.len(),
{
    if lines.len() == 0 {
        0
    } else {
        match count_line(lines.last()) {
            Some((_, n)) => count_total(lines.drop_last()) + n,
            None => count_total(lines.drop_last()),
        }
    }
}

proof fn lemma_last_index_of(s: Seq<char>, c: char)
    ensures
        last_index_of(s, c) matches Some(j) ==> 0 <= j < s.len() && s[j] == c,
        last_index_of(s, c) is None ==> forall|k: int| 0 <= k < s.len() ==> s[k] != c,
    decreases s.len(),
{
    if s.len() > 0 && s.last() != c {
        lemma_last_index_of(s.drop_last(), c);
        assert forall|k: int| 0 <= k < s.len() - 1 implies s[k] == s.drop_last()[k] by {}
    }
}

fn last_char_index(s: &Vec<char>, c: char) -> (r: Option<usize>)
    ensures
        match r {
            Some(j) => last_index_of(s@, c) == Some(j as int),
            None => last_index_of(s@, c) is None,
        },
{
    let mut n = s.len();
    assert(s@.take(n as int) =~= s@);
    while n > 0
        invariant
            n <= s@.len(),
            last_index_of(s@, c) == last_index_of(s@.take(n as int), c),
        decreases n,
    {
        assert(s@.take(n as int).drop_last() =~= s@.take(n - 1));
        if s[n - 1] == c {
            return Some(n - 1);
        }
        n -= 1;
    }
    None
}

/// What `rg --count-matches` printed: the paths of its lines, in order,
/// and the total of their counts (`None` when the total overflows).
pub fn read_grep_counts(stdout: &str) -> (r: (Vec<String>, Option<usize>))
    ensures
        crate::text::string_views(r.0@) == count_paths(crate::memory_store::text_lines(stdout@)),
        match r.1 {
            Some(t) => t as nat == count_total(crate::memory_store::text_lines(stdout@)),
            None => count_total(crate::memory_store::text_lines(stdout@)) > usize::MAX,
        },
{
    let lines = crate::memory_store::lines_of(&chars_of(stdout));
    let ghost lv = char_views(lines@);
    let mut paths: Vec<String> = Vec::new();
    let mut total: Option<usize> = Some(0);
    let mut i: usize = 0;
    while i < lines.len()
        invariant
            i <= lines@.len(),
            lv == char_views(lines@),
            lv == crate::memory_store::text_lines(stdout@),
            crate::text::string_views(paths@) == count_paths(lv.take(i as int)),
            match total {
                Some(t) => t as nat == count_total(lv.take(i as int)),
                None => count_total(lv.take(i as int)) > usize::MAX,
            },
        decreases lines.len() - i,
    {
        assert(lv.take(i + 1).drop_last() =~= lv.take(i as int));
        assert(lv.take(i + 1).last() == lines@[i as int]@);
        let line = &lines[i];
        match last_char_index(line, ':') {
            Some(j) => {
                proof {
                    lemma_last_index_of(line@, ':');
                }
                let n = line.len();
                assert(j < n);
                let count_text = slice_to_vec(line, j + 1, n);
                match crate::lsp_transport::parse_usize(&count_text) {
                    Ok(count) => {
                        let path = string_from_chars(&slice_to_vec(line, 0, j));
                        let ghost p0 = paths@;
                        paths.push(path);
                        assert(crate::text::string_views(paths@) =~= crate::text::string_views(p0).push(path@));
                        total = match total {
                            Some(t) => t.checked_add(count),
                            None => None,
                        };
                    },
                    Err(_) => {},
                }
            },
            None => {},
        }
        i += 1;
    }
    assert(lv.take(lines@.len() as int) =~= lv);
    (paths, total)
}

/// The text before the first `:` of a line (all of it when it has none).
pub open spec fn before_colon(l: Seq<char>) -> Seq<char> {
    match crate::text::first_index_of(l, ':') {
        Some(j) => l.subrange(0, j),
        None => l,
    }
}

/// The non-empty lines of a text, in order.
pub open spec fn nonempty_lines(lines: Seq<Seq<char>>) -> Seq<Seq<char>>
    decreases lines.len(),
{
    if lines.len() == 0 {
        seq![]
    } else if lines.last().len() > 0 {
        nonempty_lines(lines.drop_last()).push(lines.last())
    } else {
        nonempty_lines(lines.drop_last())
    }
}

/// What `rg` printed in content mode, or in files mode: its non-empty
/// lines, and for each the path it starts with (the text before its first
/// `:`).
pub fn read_grep_lines(stdout: &str) -> (r: (Vec<String>, Vec<String>))
    ensures
        crate::text::string_views(r.0@) == nonempty_lines(crate::memory_store::text_lines(stdout@)),
        crate::text::string_views(r.1@) == nonempty_lines(crate::memory_store::text_lines(stdout@)).map_values(
            |l: Seq<char>| before_colon(l),
        ),
{
    let lines = crate::memory_store::lines_of(&chars_of(stdout));
    let ghost lv = char_views(lines@);
    let mut kept: Vec<String> = Vec::new();
    let mut paths: Vec<String> = Vec::new();
    let mut i: usize = 0;
    while i < lines.len()
        invariant
            i <= lines@.len(),
            lv == char_views(lines@),
            lv == crate::memory_store::text_lines(stdout@),
            crate::text::string_views(kept@) == nonempty_lines(lv.take(i as int)),
            crate::text::string_views(paths@) == nonempty_lines(lv.take(i as int)).map_values(
                |l: Seq<char>| before_colon(l),
            ),
        decreases lines.len() - i,
    {
        assert(lv.take(i + 1).drop_last() =~= lv.take(i as int));
        assert(lv.take(i + 1).last() == lines@[i as int]@);
        let line = &lines[i];
        if line.len() > 0 {
            let path = match find_char_in(line, ':') {
                Some(j) => string_from_chars(&slice_to_vec(line, 0, j)),
                None => string_from_chars(line),
            };
            let whole = string_from_chars(line);
            let ghost k0 = kept@;
            let ghost p0 = paths@;
            kept.push(whole);
            paths.push(path);
            assert(crate::text::string_views(kept@) =~= crate::text::string_views(k0).push(whole@));
            assert(crate::text::string_views(paths@) =~= crate::text::string_views(p0).push(path@));
            assert(nonempty_lines(lv.take(i + 1)) == nonempty_lines(lv.take(i as int)).push(line@));
            assert(nonempty_lines(lv.take(i + 1)).map_values(|l: Seq<char>| before_colon(l)) =~= nonempty_lines(
                lv.take(i as int),
            ).map_values(|l: Seq<char>| before_colon(l)).push(before_colon(line@)));
        }
        i += 1;
    }
    assert(lv.take(lines@.len() as int) =~= lv);
    (kept, paths)
}

fn find_char_in(s: &Vec<char>, c: char) -> (r: Option<usize>)
    ensures
        match r {
            Some(j) => crate::text::first_index_of(s@, c) == Some(j as int) && j < s@.len(),
            None => crate::text::first_index_of(s@, c) is None,
        },
{
    match crate::text::find_char(s.as_slice(), c) {
        Some(j) => Some(j),
        None => None,
    }
}


/// The distinct texts of a list, in ascending order, as sorting and then
/// removing repeats gives them.
pub fn sort_dedup(items: Vec<String>) -> (r: Vec<String>)
    ensures
        forall|a: int, b: int| 0 <= a < b < r@.len() ==> crate::text::seq_lt(#[trigger] r@[a]@, #[trigger] r@[b]@),
        forall|t: Seq<char>| crate::text::string_views(r@).contains(t) == crate::text::string_views(items@).contains(t),
{
    let mut out: Vec<String> = Vec::new();
    let mut i: usize = 0;
    while i < items.len()
        invariant
            i <= items@.len(),
            forall|a: int, b: int| 0 <= a < b < out@.len() ==> crate::text::seq_lt(#[trigger] out@[a]@, #[trigger] out@[b]@),
            forall|t: Seq<char>| crate::text::string_views(out@).contains(t) == crate::text::string_views(items@.take(i as int)).contains(t),
        decreases items.len() - i,
    {
        let x = &items[i];
        let xc = chars_of(x.as_str());
        let mut p: usize = 0;
        while p < out.len()
            invariant
                p <= out@.len(),
                xc@ == x@,
                forall|k: int| 0 <= k < p ==> crate::text::seq_lt(#[trigger] out@[k]@, x@),
            ensures
                p <= out@.len(),
                forall|k: int| 0 <= k < p ==> crate::text::seq_lt(#[trigger] out@[k]@, x@),
                p < out@.len() ==> !crate::text::seq_lt(out@[p as int]@, x@),
            decreases out.len() - p,
        {
            if !crate::text::chars_lt(&chars_of(out[p].as_str()), &xc) {
                break;
            }
            p += 1;
        }
        let ghost before = out@;
        let ghost bv = crate::text::string_views(before);
        proof {
            assert(items@.take(i + 1) =~= items@.take(i as int).push(items@[i as int]));
            assert(crate::text::string_views(items@.take(i + 1)) =~= crate::text::string_views(items@.take(i as int)).push(x@));
        }
        if p < out.len() && crate::text::str_eq(out[p].as_str(), x.as_str()) {
            proof {
                assert forall|t: Seq<char>| crate::text::string_views(out@).contains(t) == crate::text::string_views(
                    items@.take(i + 1),
                ).contains(t) by {
                    if t == x@ {
                        assert(bv[p as int] == t);
                    }
                    let iv = crate::text::string_views(items@.take(i as int));
                    if iv.push(x@).contains(t) && t != x@ {
                        let k = choose|k: int| 0 <= k < iv.push(x@).len() && iv.push(x@)[k] == t;
                        assert(iv[k] == t);
                    }
                    if iv.contains(t) {
                        let k = choose|k: int| 0 <= k < iv.len() && iv[k] == t;
                        assert(iv.push(x@)[k] == t);
                    }
                }
            }
        } else {
            let s = x.clone();
            out.insert(p, s);
            proof {
                assert(out@ == before.insert(p as int, s));
                if p < before.len() {
                    crate::text::lemma_seq_lt_total(x@, before[p as int]@);
                }
                assert forall|a: int, b: int| 0 <= a < b < out@.len() implies crate::text::seq_lt(
                    #[trigger] out@[a]@,
                    #[trigger] out@[b]@,
                ) by {
                    if b < p {
                        assert(out@[a] == before[a] && out@[b] == before[b]);
                    } else if b == p {
                        assert(out@[a] == before[a]);
                    } else if a == p {
                        assert(out@[b] == before[b - 1]);
                        if b - 1 > p {
                            assert(crate::text::seq_lt(before[p as int]@, before[b - 1]@));
                            crate::text::lemma_seq_lt_transitive(x@, before[p as int]@, before[b - 1]@);
                        }
                    } else if a < p {
                        assert(out@[a] == before[a] && out@[b] == before[b - 1]);
                        assert(crate::text::seq_lt(before[a]@, before[b - 1]@));
                    } else {
                        assert(out@[a] == before[a - 1] && out@[b] == before[b - 1]);
                        assert(crate::text::seq_lt(before[a - 1]@, before[b - 1]@));
                    }
                }
                let ov = crate::text::string_views(out@);
                assert(ov =~= bv.insert(p as int, x@));
                let iv = crate::text::string_views(items@.take(i as int));
                assert forall|t: Seq<char>| ov.contains(t) == iv.push(x@).contains(t) by {
                    if ov.contains(t) {
                        let k = choose|k: int| 0 <= k < ov.len() && ov[k] == t;
                        if k == p {
                            assert(iv.push(x@)[iv.len() as int] == t);
                        } else {
                            let m = if k < p { k } else { k - 1 };
                            assert(bv[m] == t);
                            assert(bv.contains(t));
                            assert(iv.contains(t));
                            let m2 = choose|m2: int| 0 <= m2 < iv.len() && iv[m2] == t;
                            assert(iv.push(x@)[m2] == t);
                        }
                    }
                    if iv.push(x@).contains(t) {
                        if t == x@ {
                            assert(ov[p as int] == t);
                        } else {
                            let k = choose|k: int| 0 <= k < iv.push(x@).len() && iv.push(x@)[k] == t;
                            assert(iv[k] == t);
                            assert(bv.contains(t));
                            let m = choose|m: int| 0 <= m < bv.len() && bv[m] == t;
                            if m < p {
                                assert(ov[m] == t);
                            } else {
                                assert(ov[m + 1] == t);
                            }
                        }
                    }
                }
            }
        }
        i += 1;
    }
    assert(items@.take(items@.len() as int) =~= items@);
    out
}


proof fn lemma_expand_plain_from(s: Seq<char>, env: Seq<(String, String)>, i: int)
    requires
        0 <= i <= s.len(),
        forall|k: int| 0 <= k < s.len() ==> #[trigger] s[k] != '%',
        forall|k: int| 0 <= k < s.len() - 1 ==> !(#[trigger] s[k] == '$' && s[k + 1] == '{'),
    ensures
        expand_from(s, env, i) == s.skip(i),
    decreases s.len() - i,
{
    if i < s.len() {
        lemma_expand_plain_from(s, env, i + 1);
        assert(s.skip(i) =~= seq![s[i]] + s.skip(i + 1));
    } else {
        assert(s.skip(i) =~= Seq::<char>::empty());
    }
}

/// A path that names no variable (no `%` and no `${`) is left as it is,
/// whatever the environment holds.
pub proof fn law_expand_leaves_plain_paths(s: Seq<char>, env: Seq<(String, String)>)
    requires
        forall|k: int| 0 <= k < s.len() ==> #[trigger] s[k] != '%',
        forall|k: int| 0 <= k < s.len() - 1 ==> !(#[trigger] s[k] == '$' && s[k + 1] == '{'),
    ensures
        expand_from(s, env, 0) == s,
{
    lemma_expand_plain_from(s, env, 0);
    assert(s.skip(0) =~= s);
}

/// A variable that is defined is replaced by its value wherever it is
/// written in full as `${NAME}` at the start of a path.
pub proof fn law_expand_defined_variable(name: Seq<char>, rest: Seq<char>, env: Seq<(String, String)>)
    requires
        forall|k: int| 0 <= k < name.len() ==> #[trigger] name[k] != '}',
        env_lookup(env, name) is Some,
    ensures
        expand_from(seq!['$', '{'] + name + seq!['}'] + rest, env, 0) == env_lookup(env, name)->0 + expand_from(
            seq!['$', '{'] + name + seq!['}'] + rest,
            env,
            name.len() + 3int,
        ),
{
    let s = seq!['$', '{'] + name + seq!['}'] + rest;
    let j: int = name.len() as int + 2;
    assert(s[j] == '}');
    assert forall|k: int| 2 <= k < j implies s[k] != '}' by {
        assert(s[k] == name[k - 2]);
    }
    lemma_next_at_first(s, '}', 2, j);
    assert(s.subrange(2, j) =~= name);
}

proof fn lemma_next_at_first(s: Seq<char>, c: char, i: int, j: int)
    requires
        0 <= i <= j < s.len(),
        s[j] == c,
        forall|k: int| i <= k < j ==> s[k] != c,
    ensures
        next_at(s, c, i) == Some(j),
    decreases j - i,
{
    if i < j {
        lemma_next_at_first(s, c, i + 1, j);
    }
}

} // verus!
