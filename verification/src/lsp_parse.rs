//! Helpers for talking to language servers: names of protocol codes,
//! URIs and language identifiers.
use vstd::prelude::*;

use crate::text::{dec_string, owned, push_decimal, push_str, str_eq, string_from_chars};

verus! {

/// `Unknown(N)`
pub open spec fn unknown_kind_text(kind: u64) -> Seq<char> {
    "Unknown("@ + dec_string(kind as nat) + ")"@
}

/// The name of a kind in a table that starts at kind 1.
pub open spec fn kind_name(names: Seq<Seq<char>>, kind: u64) -> Seq<char> {
    if 1 <= kind <= names.len() {
        names[kind - 1]
    } else {
        unknown_kind_text(kind)
    }
}

fn unknown_kind(kind: u64) -> (r: String)
    ensures
        r@ == unknown_kind_text(kind),
{
    let mut v: Vec<char> = Vec::new();
    push_str(&mut v, "Unknown(");
    push_decimal(&mut v, kind);
    push_str(&mut v, ")");
    string_from_chars(&v)
}

/// Names of the symbol kinds, from kind 1 on.
pub open spec fn symbol_kinds() -> Seq<Seq<char>> {
    seq![
        "File"@,
        "Module"@,
        "Namespace"@,
        "Package"@,
        "Class"@,
        "Method"@,
        "Property"@,
        "Field"@,
        "Constructor"@,
        "Enum"@,
        "Interface"@,
        "Function"@,
        "Variable"@,
        "Constant"@,
        "String"@,
        "Number"@,
        "Boolean"@,
        "Array"@,
        "Object"@,
        "Key"@,
        "Null"@,
        "EnumMember"@,
        "Struct"@,
        "Event"@,
        "Operator"@,
        "TypeParameter"@,
    ]
}

/// Name of a document symbol kind.
pub fn symbol_kind_name(kind: u64) -> (r: String)
    ensures
        r@ == kind_name(symbol_kinds(), kind),
{
    let names: [&str; 26] = [
        "File",
        "Module",
        "Namespace",
        "Package",
        "Class",
        "Method",
        "Property",
        "Field",
        "Constructor",
        "Enum",
        "Interface",
        "Function",
        "Variable",
        "Constant",
        "String",
        "Number",
        "Boolean",
        "Array",
        "Object",
        "Key",
        "Null",
        "EnumMember",
        "Struct",
        "Event",
        "Operator",
        "TypeParameter",
    ];
    assert(names@.map_values(|s: &str| s@) =~= symbol_kinds());
    if 1 <= kind && kind <= 26 {
        let i = (kind - 1) as usize;
        assert(symbol_kinds()[i as int] == names@[i as int]@);
        owned(names[i])
    } else {
        unknown_kind(kind)
    }
}

/// Names of the completion item kinds, from kind 1 on.
pub open spec fn completion_kinds() -> Seq<Seq<char>> {
    seq![
        "Text"@,
        "Method"@,
        "Function"@,
        "Constructor"@,
        "Field"@,
        "Variable"@,
        "Class"@,
        "Interface"@,
        "Module"@,
        "Property"@,
        "Unit"@,
        "Value"@,
        "Enum"@,
        "Keyword"@,
        "Snippet"@,
        "Color"@,
        "File"@,
        "Reference"@,
        "Folder"@,
        "EnumMember"@,
        "Constant"@,
        "Struct"@,
        "Event"@,
        "Operator"@,
        "TypeParameter"@,
    ]
}

/// Name of a completion item kind.
pub fn completion_kind_name(kind: u64) -> (r: String)
    ensures
        r@ == kind_name(completion_kinds(), kind),
{
    let names: [&str; 25] = [
        "Text",
        "Method",
        "Function",
        "Constructor",
        "Field",
        "Variable",
        "Class",
        "Interface",
        "Module",
        "Property",
        "Unit",
        "Value",
        "Enum",
        "Keyword",
        "Snippet",
        "Color",
        "File",
        "Reference",
        "Folder",
        "EnumMember",
        "Constant",
        "Struct",
        "Event",
        "Operator",
        "TypeParameter",
    ];
    assert(names@.map_values(|s: &str| s@) =~= completion_kinds());
    if 1 <= kind && kind <= 25 {
        let i = (kind - 1) as usize;
        assert(completion_kinds()[i as int] == names@[i as int]@);
        owned(names[i])
    } else {
        unknown_kind(kind)
    }
}

/// Name of a diagnostic severity.
pub open spec fn severity_text(code: u64) -> Seq<char> {
    if code == 1 {
        "error"@
    } else if code == 2 {
        "warning"@
    } else if code == 3 {
        "info"@
    } else if code == 4 {
        "hint"@
    } else {
        "unknown("@ + dec_string(code as nat) + ")"@
    }
}

pub fn severity_name(code: u64) -> (r: String)
    ensures
        r@ == severity_text(code),
{
    if code == 1 {
        owned("error")
    } else if code == 2 {
        owned("warning")
    } else if code == 3 {
        owned("info")
    } else if code == 4 {
        owned("hint")
    } else {
        let mut v: Vec<char> = Vec::new();
        push_str(&mut v, "unknown(");
        push_decimal(&mut v, code);
        push_str(&mut v, ")");
        string_from_chars(&v)
    }
}

/// Whether `Path::is_absolute` holds of a path's text, by the path rules
/// of the platform the code is built for.
pub uninterp spec fn path_is_absolute(path: Seq<char>) -> bool;

/// `Path::new(path).is_absolute()`. Trusted: the result is named by
/// `path_is_absolute`; the platform's path rules are not spelled out.
#[verifier::external_body]
fn is_absolute_path(path: &str) -> (r: bool)
    ensures
        r == path_is_absolute(path@),
{
    std::path::Path::new(path).is_absolute()
}

/// The `file://` URI of a path that is already resolved.
pub fn file_uri(path: &str) -> (r: String)
    ensures
        r@ == "file://"@ + path@,
{
    let mut v = crate::text::chars_of("file://");
    push_str(&mut v, path);
    string_from_chars(&v)
}

/// The `file://` URI of an absolute path; `None` for a relative path, which
/// must first be resolved against the working directory and then given to
/// `file_uri`.
pub fn path_to_uri(path: &str) -> (r: Option<String>)
    ensures
        r is Some <==> path_is_absolute(path@),
        r matches Some(u) ==> u@ == "file://"@ + path@,
{
    if is_absolute_path(path) {
        Some(file_uri(path))
    } else {
        None
    }
}

/// A file URI without its `file://` scheme; other text unchanged.
pub open spec fn uri_path(uri: Seq<char>) -> Seq<char> {
    if crate::text::is_prefix("file://"@, uri) {
        uri.skip(7)
    } else {
        uri
    }
}

pub fn uri_to_path(uri: &str) -> (r: String)
    ensures
        r@ == uri_path(uri@),
{
    let u = crate::text::chars_of(uri);
    if crate::text::starts_with_str(&u, "file://") {
        proof {
            reveal_strlit("file://");
        }
        let rest = crate::text::slice_to_vec(&u, 7, u.len());
        assert(rest@ =~= u@.skip(7));
        string_from_chars(&rest)
    } else {
        owned(uri)
    }
}

/// The extension of a path, as `Path::extension` finds it, when it is
/// valid Unicode.
pub uninterp spec fn path_extension_text(path: Seq<char>) -> Option<Seq<char>>;

/// `Path::new(path).extension()` then `OsStr::to_str`.
/// Trusted: the result depends on the path's text alone; the rules by which
/// `Path` finds an extension are named, not spelled out.
#[verifier::external_body]
pub(crate) fn extension_of(path: &str) -> (r: Option<String>)
    ensures
        match r {
            Some(e) => path_extension_text(path@) == Some(e@),
            None => path_extension_text(path@) is None,
        },
{
    std::path::Path::new(path).extension().and_then(|e| e.to_str()).map(|e| e.to_string())
}

/// The language identifier for an extension (the extension itself when
/// it is not a known one).
pub open spec fn language_for_extension(ext: Seq<char>) -> Seq<char> {
    if ext == "rs"@ {
        "rust"@
    } else if ext == "ts"@ {
        "typescript"@
    } else if ext == "tsx"@ {
        "typescriptreact"@
    } else if ext == "js"@ {
        "javascript"@
    } else if ext == "jsx"@ {
        "javascriptreact"@
    } else if ext == "py"@ {
        "python"@
    } else if ext == "go"@ {
        "go"@
    } else if ext == "java"@ {
        "java"@
    } else if ext == "c"@ || ext == "h"@ {
        "c"@
    } else if ext == "cpp"@ || ext == "hpp"@ || ext == "cc"@ {
        "cpp"@
    } else if ext == "rb"@ {
        "ruby"@
    } else if ext == "lua"@ {
        "lua"@
    } else {
        ext
    }
}

fn language_for_ext(ext: &str) -> (r: String)
    ensures
        r@ == language_for_extension(ext@),
{
    if str_eq(ext, "rs") {
        owned("rust")
    } else if str_eq(ext, "ts") {
        owned("typescript")
    } else if str_eq(ext, "tsx") {
        owned("typescriptreact")
    } else if str_eq(ext, "js") {
        owned("javascript")
    } else if str_eq(ext, "jsx") {
        owned("javascriptreact")
    } else if str_eq(ext, "py") {
        owned("python")
    } else if str_eq(ext, "go") {
        owned("go")
    } else if str_eq(ext, "java") {
        owned("java")
    } else if str_eq(ext, "c") || str_eq(ext, "h") {
        owned("c")
    } else if str_eq(ext, "cpp") || str_eq(ext, "hpp") || str_eq(ext, "cc") {
        owned("cpp")
    } else if str_eq(ext, "rb") {
        owned("ruby")
    } else if str_eq(ext, "lua") {
        owned("lua")
    } else {
        owned(ext)
    }
}

/// The language identifier a server expects for a file.
pub fn language_id_for_path(path: &str) -> (r: String)
    ensures
        r@ == language_for_extension(
            match path_extension_text(path@) {
                Some(e) => e,
                None => Seq::<char>::empty(),
            },
        ),
{
    match extension_of(path) {
        Some(e) => language_for_ext(e.as_str()),
        None => {
            let empty = String::new();
            language_for_ext(empty.as_str())
        },
    }
}

} // verus!
