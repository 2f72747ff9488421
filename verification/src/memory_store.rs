//! Per-project memory: entries are markdown files with a YAML frontmatter
//! (name, description, type), listed in an index file that is loaded into
//! the conversation context.
use vstd::prelude::*;

use std::path::{Path, PathBuf};

use crate::paths::{join_text, path_joined};

use crate::text::{
    trim_start, ascii_lower_seq, ascii_lowercase, chars_eq_ignore_ascii_case, chars_eq_str, chars_of, dec_string,
    eq_ignore_ascii_case, is_prefix, join, push_all, push_decimal, push_str, slice_to_vec, split_chars, split_on,
    string_from_chars, trim, trim_chars, trim_str,
};

verus! {

/// Name of the index file.
pub const INDEX_FILENAME: &'static str = "MEMORY.md";

/// Lines of the index loaded into context.
pub const INDEX_MAX_LINES: usize = 200;

/// What kind of information a memory entry holds.
#[derive(Debug, Clone, Copy, PartialEq, Eq, Structural)]
pub enum MemoryType {
    /// The user's role, goals and preferences.
    User,
    /// Guidance on how to approach work.
    Feedback,
    /// Ongoing project context not derivable from code or history.
    Project,
    /// Pointers to where information lives elsewhere.
    Reference,
    /// An unrecognized or missing type.
    Unknown,
}

/// The type a frontmatter value names, read trimmed and case-insensitively.
pub open spec fn memory_type_of(s: Seq<char>) -> MemoryType {
    let l = ascii_lower_seq(trim(s));
    if l == "user"@ {
        MemoryType::User
    } else if l == "feedback"@ {
        MemoryType::Feedback
    } else if l == "project"@ {
        MemoryType::Project
    } else if l == "reference"@ {
        MemoryType::Reference
    } else {
        MemoryType::Unknown
    }
}

pub open spec fn memory_type_name(t: MemoryType) -> Seq<char> {
    match t {
        MemoryType::User => "user"@,
        MemoryType::Feedback => "feedback"@,
        MemoryType::Project => "project"@,
        MemoryType::Reference => "reference"@,
        MemoryType::Unknown => "unknown"@,
    }
}

impl MemoryType {
    /// Reads a frontmatter `type:` value.
    pub fn from_str(s: &str) -> (r: Self)
        ensures
            r == memory_type_of(s@),
    {
        let t = trim_str(s);
        let l = ascii_lowercase(&t);
        if chars_eq_str(&l, "user") {
            MemoryType::User
        } else if chars_eq_str(&l, "feedback") {
            MemoryType::Feedback
        } else if chars_eq_str(&l, "project") {
            MemoryType::Project
        } else if chars_eq_str(&l, "reference") {
            MemoryType::Reference
        } else {
            MemoryType::Unknown
        }
    }

    /// The name used in frontmatter.
    pub fn as_str(&self) -> (r: &'static str)
        ensures
            r@ == memory_type_name(*self),
    {
        match self {
            MemoryType::User => "user",
            MemoryType::Feedback => "feedback",
            MemoryType::Project => "project",
            MemoryType::Reference => "reference",
            MemoryType::Unknown => "unknown",
        }
    }
}

/// Metadata read from a memory file's frontmatter.
#[derive(Debug, PartialEq, Eq)]
pub struct MemoryEntry {
    pub name: String,
    pub description: String,
    pub memory_type: MemoryType,
    pub path: PathBuf,
}

// ---------------------------------------------------------------------------
// Lines.
// ---------------------------------------------------------------------------

/// A line without the `\r` of a `\r\n` ending.
pub open spec fn strip_cr(l: Seq<char>) -> Seq<char> {
    if l.len() > 0 && l.last() == '\r' {
        l.drop_last()
    } else {
        l
    }
}

/// The lines of a text as `str::lines` yields them: split at `\n`, a
/// `\r` before the `\n` dropped, and no empty line after a final `\n`.
pub open spec fn text_lines(s: Seq<char>) -> Seq<Seq<char>> {
    let p = split_on(s, '\n');
    let init = p.take(p.len() - 1).map_values(|l: Seq<char>| strip_cr(l));
    if p.last().len() == 0 {
        init
    } else {
        init.push(p.last())
    }
}

pub(crate) fn lines_of(content: &[char]) -> (r: Vec<Vec<char>>)
    ensures
        r@.map_values(|v: Vec<char>| v@) == text_lines(content@),
{
    let parts = split_chars(content, '\n');
    let ghost pv = parts@.map_values(|v: Vec<char>| v@);
    proof {
        crate::text::lemma_split_on_nonempty(content@, '\n');
    }
    let n = parts.len();
    let mut r: Vec<Vec<char>> = Vec::new();
    let mut i: usize = 0;
    while i + 1 < n
        invariant
            n == parts@.len(),
            n >= 1,
            i < n,
            pv == parts@.map_values(|v: Vec<char>| v@),
            pv == split_on(content@, '\n'),
            r@.map_values(|v: Vec<char>| v@) == pv.take(i as int).map_values(|l: Seq<char>| strip_cr(l)),
        decreases n - i,
    {
        let part = &parts[i];
        let line = if part.len() > 0 && part[part.len() - 1] == '\r' {
            slice_to_vec(part, 0, part.len() - 1)
        } else {
            slice_to_vec(part, 0, part.len())
        };
        proof {
            assert(part@.subrange(0, part@.len() as int) =~= part@);
            assert(part@.drop_last() =~= part@.subrange(0, part@.len() - 1));
            assert(pv[i as int] == part@);
        }
        let ghost before = r@.map_values(|v: Vec<char>| v@);
        r.push(line);
        assert(r@.map_values(|v: Vec<char>| v@) =~= before.push(strip_cr(pv[i as int])));
        assert(pv.take(i + 1).map_values(|l: Seq<char>| strip_cr(l)) =~= pv.take(i as int).map_values(
            |l: Seq<char>| strip_cr(l),
        ).push(strip_cr(pv[i as int])));
        i += 1;
    }
    assert(i == n - 1);
    let last = &parts[n - 1];
    assert(pv[n - 1] == last@);
    if last.len() > 0 {
        let ghost before = r@.map_values(|v: Vec<char>| v@);
        let l = slice_to_vec(last, 0, last.len());
        assert(l@ =~= last@);
        r.push(l);
        assert(r@.map_values(|v: Vec<char>| v@) =~= before.push(last@));
    }
    r
}

/// The text cut to at most `max` lines, with a notice of how many more
/// there were.
pub open spec fn truncated(content: Seq<char>, max: nat) -> Seq<char> {
    let lines = text_lines(content);
    if lines.len() <= max {
        content
    } else {
        join(lines.take(max as int), "\n"@) + "\n\n[... "@ + dec_string((lines.len() - max) as nat)
            + " more lines truncated]"@
    }
}

fn join_lines(lines: &Vec<Vec<char>>, count: usize) -> (r: Vec<char>)
    requires
        count <= lines@.len(),
    ensures
        r@ == join(lines@.map_values(|v: Vec<char>| v@).take(count as int), "\n"@),
{
    let ghost lv = lines@.map_values(|v: Vec<char>| v@);
    let mut r: Vec<char> = Vec::new();
    let mut i: usize = 0;
    while i < count
        invariant
            i <= count <= lines@.len(),
            lv == lines@.map_values(|v: Vec<char>| v@),
            r@ == join(lv.take(i as int), "\n"@),
        decreases count - i,
    {
        assert(lv.take(i + 1).drop_last() =~= lv.take(i as int));
        assert(lv.take(i + 1).last() == lines@[i as int]@);
        if i > 0 {
            push_str(&mut r, "\n");
        }
        push_all(&mut r, &lines[i]);
        i += 1;
    }
    r
}

/// Cuts content to at most `max_lines` lines, appending a notice when lines
/// were cut.
pub fn truncate_to_lines(content: &str, max_lines: usize) -> (r: String)
    ensures
        r@ == truncated(content@, max_lines as nat),
{
    let c = chars_of(content);
    let lines = lines_of(&c);
    if lines.len() <= max_lines {
        return string_from_chars(&c);
    }
    let mut out = join_lines(&lines, max_lines);
    push_str(&mut out, "\n\n[... ");
    push_decimal(&mut out, (lines.len() - max_lines) as u64);
    push_str(&mut out, " more lines truncated]");
    string_from_chars(&out)
}

/// The index as loaded into context: trimmed and cut to its line limit;
/// none when it is blank.
pub open spec fn index_text(content: Seq<char>) -> Option<Seq<char>> {
    if trim(content).len() == 0 {
        None
    } else {
        Some(truncated(trim(content), INDEX_MAX_LINES as nat))
    }
}

/// The index content to load from the text of the index file.
pub fn index_content_of(content: &str) -> (r: Option<String>)
    ensures
        match r {
            Some(s) => index_text(content@) == Some(s@),
            None => index_text(content@) is None,
        },
{
    let t = trim_str(content);
    if t.len() == 0 {
        return None;
    }
    let s = string_from_chars(&t);
    Some(truncate_to_lines(s.as_str(), INDEX_MAX_LINES))
}

// ---------------------------------------------------------------------------
// Frontmatter.
// ---------------------------------------------------------------------------

/// A value without one matching pair of outer quotes.
pub open spec fn unquoted(s: Seq<char>) -> Seq<char> {
    if s.len() >= 2 && ((s[0] == '"' && s.last() == '"') || (s[0] == '\'' && s.last() == '\'')) {
        s.subrange(1, s.len() - 1)
    } else {
        s
    }
}

/// The value of `key: value` on a trimmed line, unquoted.
pub open spec fn key_value(line: Seq<char>, key: Seq<char>) -> Option<Seq<char>> {
    if is_prefix(key, line) && line.len() > key.len() && line[key.len() as int] == ':' {
        Some(unquoted(trim(line.skip(key.len() as int + 1))))
    } else {
        None
    }
}

/// Strips one matching pair of outer quotes.
pub fn strip_outer_quotes(s: &[char]) -> (r: Vec<char>)
    ensures
        r@ == unquoted(s@),
{
    if s.len() >= 2 && ((s[0] == '"' && s[s.len() - 1] == '"') || (s[0] == '\'' && s[s.len() - 1] == '\'')) {
        slice_to_vec(s, 1, s.len() - 1)
    } else {
        let r = slice_to_vec(s, 0, s.len());
        assert(r@ =~= s@);
        r
    }
}

/// The value of a top-level `key:` on a trimmed line.
pub fn strip_frontmatter_key(line: &[char], key: &str) -> (r: Option<Vec<char>>)
    ensures
        match r {
            Some(v) => key_value(line@, key@) == Some(v@),
            None => key_value(line@, key@) is None,
        },
{
    let k = chars_of(key);
    if crate::text::starts_with(line, &k) && line.len() > k.len() && line[k.len()] == ':' {
        let rest = slice_to_vec(line, k.len() + 1, line.len());
        assert(rest@ =~= line@.skip(k@.len() as int + 1));
        let t = trim_chars(&rest);
        Some(strip_outer_quotes(&t))
    } else {
        None
    }
}

/// Name, description and type read so far.
pub struct Frontmatter {
    pub name: Option<Seq<char>>,
    pub description: Option<Seq<char>>,
    pub memory_type: MemoryType,
}

/// What one frontmatter line changes.
pub open spec fn read_line(f: Frontmatter, line: Seq<char>) -> Frontmatter {
    let t = trim(line);
    if line.len() > 0 && (line[0] == ' ' || line[0] == '\t') {
        f
    } else if key_value(t, "name"@) is Some {
        let v = key_value(t, "name"@)->0;
        if v.len() > 0 {
            Frontmatter { name: Some(v), ..f }
        } else {
            f
        }
    } else if key_value(t, "description"@) is Some {
        let v = key_value(t, "description"@)->0;
        if v.len() > 0 {
            Frontmatter { description: Some(v), ..f }
        } else {
            f
        }
    } else if key_value(t, "type"@) is Some {
        Frontmatter { memory_type: memory_type_of(key_value(t, "type"@)->0), ..f }
    } else {
        f
    }
}

/// Reads lines from `i` up to the closing `---`.
pub open spec fn read_frontmatter(lines: Seq<Seq<char>>, i: int, f: Frontmatter) -> Frontmatter
    decreases lines.len() - i,
{
    if i < 0 || i >= lines.len() || trim(lines[i]) == "---"@ {
        f
    } else {
        read_frontmatter(lines, i + 1, read_line(f, lines[i]))
    }
}

/// The entry a memory file's text describes: its frontmatter must open
/// with `---` and give a non-empty name.
pub open spec fn frontmatter_of(content: Seq<char>) -> Option<Frontmatter> {
    let lines = text_lines(content);
    if lines.len() == 0 || trim(lines[0]) != "---"@ {
        None
    } else {
        let f = read_frontmatter(
            lines,
            1,
            Frontmatter { name: None, description: None, memory_type: MemoryType::Unknown },
        );
        if f.name is Some {
            Some(f)
        } else {
            None
        }
    }
}

/// Parses the frontmatter of a memory file.
pub fn parse_memory_frontmatter(content: &str, path: PathBuf) -> (r: Option<MemoryEntry>)
    ensures
        match frontmatter_of(content@) {
            None => r is None,
            Some(f) => r matches Some(e) && Some(e.name@) == f.name && e.description@ == match f.description {
                Some(d) => d,
                None => Seq::<char>::empty(),
            } && e.memory_type == f.memory_type && e.path == path,
        },
{
    let c = chars_of(content);
    let lines = lines_of(&c);
    let ghost lv = lines@.map_values(|v: Vec<char>| v@);
    if lines.len() == 0 {
        return None;
    }
    let first = trim_chars(&lines[0]);
    assert(lv[0] == lines@[0]@);
    if !chars_eq_str(&first, "---") {
        return None;
    }
    let mut name: Option<Vec<char>> = None;
    let mut description: Option<Vec<char>> = None;
    let mut memory_type = MemoryType::Unknown;
    let mut i: usize = 1;
    while i < lines.len()
        invariant
            1 <= i <= lines@.len(),
            lv == lines@.map_values(|v: Vec<char>| v@),
            lv == text_lines(content@),
            read_frontmatter(lv, 1, Frontmatter { name: None, description: None, memory_type: MemoryType::Unknown })
                == read_frontmatter(
                lv,
                i as int,
                Frontmatter {
                    name: match name {
                        Some(v) => Some(v@),
                        None => None,
                    },
                    description: match description {
                        Some(v) => Some(v@),
                        None => None,
                    },
                    memory_type,
                },
            ),
        decreases lines.len() - i,
    {
        let line = &lines[i];
        assert(lv[i as int] == line@);
        let trimmed = trim_chars(line);
        if chars_eq_str(&trimmed, "---") {
            i = lines.len();
        } else {
            if !(line.len() > 0 && (line[0] == ' ' || line[0] == '\t')) {
                match strip_frontmatter_key(&trimmed, "name") {
                    Some(v) => {
                        if v.len() > 0 {
                            name = Some(v);
                        }
                    },
                    None => match strip_frontmatter_key(&trimmed, "description") {
                        Some(v) => {
                            if v.len() > 0 {
                                description = Some(v);
                            }
                        },
                        None => match strip_frontmatter_key(&trimmed, "type") {
                            Some(v) => {
                                let s = string_from_chars(&v);
                                memory_type = MemoryType::from_str(s.as_str());
                            },
                            None => {},
                        },
                    },
                }
            }
            i += 1;
        }
    }
    let name = match name {
        Some(n) => string_from_chars(&n),
        None => return None,
    };
    let description = match description {
        Some(d) => string_from_chars(&d),
        None => String::new(),
    };
    Some(MemoryEntry { name, description, memory_type, path })
}

/// Whether a file with this extension and name is a memory entry: a
/// `.md` file (any case) other than the index.
pub open spec fn memory_file_name(ext: Option<Seq<char>>, file_name: Option<Seq<char>>) -> bool {
    (ext matches Some(e) && eq_ignore_ascii_case(e, "md"@)) && (file_name matches Some(f) && !eq_ignore_ascii_case(
        f,
        "MEMORY.md"@,
    ))
}

pub open spec fn opt_view(o: Option<&str>) -> Option<Seq<char>> {
    match o {
        Some(s) => Some(s@),
        None => None,
    }
}

/// Whether a file's extension and name make it a memory entry.
pub fn is_memory_file_name(ext: Option<&str>, file_name: Option<&str>) -> (r: bool)
    ensures
        r == memory_file_name(opt_view(ext), opt_view(file_name)),
{
    let ext_ok = match ext {
        Some(e) => chars_eq_ignore_ascii_case(&chars_of(e), &chars_of("md")),
        None => false,
    };
    let not_index = match file_name {
        Some(f) => !chars_eq_ignore_ascii_case(&chars_of(f), &chars_of(INDEX_FILENAME)),
        None => false,
    };
    ext_ok && not_index
}

// ---------------------------------------------------------------------------
// The store.
// ---------------------------------------------------------------------------

/// The memory directory of one workspace.
#[derive(Debug, PartialEq, Eq)]
pub struct MemoryStore {
    memory_dir: String,
    workspace_root: String,
}

impl MemoryStore {
    /// The memory directory, as text.
    pub closed spec fn dir(&self) -> Seq<char> {
        self.memory_dir@
    }

    /// The workspace root, as text.
    pub closed spec fn root(&self) -> Seq<char> {
        self.workspace_root@
    }

    /// A store with an explicit memory directory.
    pub fn with_dir(memory_dir: String, workspace_root: String) -> (r: Self)
        ensures
            r.dir() == memory_dir@,
            r.root() == workspace_root@,
    {
        MemoryStore { memory_dir, workspace_root }
    }

    /// The memory directory.
    pub fn memory_dir(&self) -> (r: &str)
        ensures
            r@ == self.dir(),
    {
        self.memory_dir.as_str()
    }

    /// The workspace root the store is bound to.
    pub fn workspace_root(&self) -> (r: &str)
        ensures
            r@ == self.root(),
    {
        self.workspace_root.as_str()
    }

    /// Path of the index file in the memory directory.
    pub fn index_path(&self) -> (r: String)
        ensures
            r@ == path_joined(self.dir(), INDEX_FILENAME@),
    {
        join_text(self.memory_dir.as_str(), INDEX_FILENAME)
    }
}

proof fn lemma_plain_word(w: Seq<char>)
    requires
        w.len() > 0,
        forall|i: int| 0 <= i < w.len() ==> 'a' <= #[trigger] w[i] <= 'z',
    ensures
        trim(w) == w,
        ascii_lower_seq(w) == w,
{
    assert(!crate::text::is_white_space(w[0]));
    assert(trim_start(w) == w);
    assert(!crate::text::is_white_space(w.last()));
    assert(ascii_lower_seq(w) =~= w);
}

/// Reading back the name of a memory type gives the same type.
pub proof fn law_memory_type_round_trip(t: MemoryType)
    ensures
        memory_type_of(memory_type_name(t)) == t,
{
    reveal_strlit("user");
    reveal_strlit("feedback");
    reveal_strlit("project");
    reveal_strlit("reference");
    reveal_strlit("unknown");
    let w = memory_type_name(t);
    lemma_plain_word(w);
}

} // verus!
