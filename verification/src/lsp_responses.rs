//! Reading language-server responses into the library's result types, and
//! building request parameters.
use vstd::prelude::*;

use crate::json_node::{
    get_opt, lemma_get_smaller, node_array, node_get, node_size, node_str, node_u64, opt_array,
    opt_get, opt_str, opt_u64, seq_size, JsonNode,
};
use crate::lsp_parse::{
    completion_kind_name, completion_kinds, kind_name, symbol_kind_name, symbol_kinds, uri_path,
    uri_to_path,
};
use crate::lsp_parse::{severity_name, severity_text};
use crate::lsp_transport::LspNotification;
use crate::lsp_types::{LspCompletionItem, LspDiagnostic, LspHoverResult, LspLocation, LspSymbol};
use crate::text::{join, owned, push_all, push_str, str_eq, string_from_chars, chars_of};

verus! {

broadcast use vstd::std_specs::vec::group_vec_axioms;

/// The string of a value, or `d` when it is missing or not a string.
pub open spec fn str_or(v: Option<JsonNode>, d: Seq<char>) -> Seq<char> {
    match opt_str(v) {
        Some(s) => s,
        None => d,
    }
}

// ---------------------------------------------------------------------------
// Hover.
// ---------------------------------------------------------------------------

pub open spec fn hover_view(h: LspHoverResult) -> (Seq<char>, Option<Seq<char>>) {
    (
        h.content@,
        match h.language {
            Some(l) => Some(l@),
            None => None,
        },
    )
}

/// The texts of the marked strings of an array: plain strings, and the
/// `value` of objects that have one.
pub open spec fn hover_parts(items: Seq<JsonNode>) -> Seq<Seq<char>>
    decreases items.len(),
{
    if items.len() == 0 {
        seq![]
    } else {
        let init = hover_parts(items.drop_last());
        match node_str(items.last()) {
            Some(s) => init.push(s),
            None => match opt_str(node_get(items.last(), "value"@)) {
                Some(s) => init.push(s),
                None => init,
            },
        }
    }
}

/// What a hover response shows: markup content with its kind (none for
/// plain text), a marked string with its language, a plain string, or the
/// joined texts of an array of marked strings.
pub open spec fn hover_of(value: JsonNode) -> Option<(Seq<char>, Option<Seq<char>>)> {
    match node_get(value, "contents"@) {
        None => None,
        Some(c) => if node_get(c, "kind"@) is Some && node_get(c, "value"@) is Some {
            let kind = node_get(c, "kind"@);
            Some(
                (
                    str_or(node_get(c, "value"@), ""@),
                    if opt_str(kind) == Some("plaintext"@) {
                        None
                    } else {
                        Some(str_or(kind, "markdown"@))
                    },
                ),
            )
        } else if node_get(c, "language"@) is Some && node_get(c, "value"@) is Some {
            Some((str_or(node_get(c, "value"@), ""@), Some(str_or(node_get(c, "language"@), ""@))))
        } else if node_str(c) is Some {
            Some((node_str(c)->0, None))
        } else if node_array(c) is Some {
            let parts = hover_parts(node_array(c)->0);
            if parts.len() == 0 {
                None
            } else {
                Some((join(parts, "\n"@), None))
            }
        } else {
            None
        },
    }
}

fn str_or_default(v: Option<&JsonNode>, d: &str) -> (r: String)
    ensures
        r@ == str_or(
            match v {
                Some(n) => Some(*n),
                None => None,
            },
            d@,
        ),
{
    match v {
        Some(n) => match n.as_str() {
            Some(s) => owned(s),
            None => owned(d),
        },
        None => owned(d),
    }
}

/// Reads a hover response.
pub fn parse_hover(value: &JsonNode) -> (r: Option<LspHoverResult>)
    ensures
        match r {
            Some(h) => hover_of(*value) == Some(hover_view(h)),
            None => hover_of(*value) is None,
        },
{
    let contents = match value.get("contents") {
        Some(c) => c,
        None => {
            return None;
        },
    };
    let kind = contents.get("kind");
    let val = contents.get("value");
    if kind.is_some() && val.is_some() {
        let language = match kind {
            Some(k) => match k.as_str() {
                Some(s) => if str_eq(s, "plaintext") {
                    None
                } else {
                    Some(owned(s))
                },
                None => Some(owned("markdown")),
            },
            None => None,
        };
        return Some(LspHoverResult { content: str_or_default(val, ""), language });
    }
    let lang = contents.get("language");
    if lang.is_some() && val.is_some() {
        return Some(
            LspHoverResult { content: str_or_default(val, ""), language: Some(str_or_default(lang, "")) },
        );
    }
    if let Some(s) = contents.as_str() {
        return Some(LspHoverResult { content: owned(s), language: None });
    }
    if let Some(items) = contents.as_array() {
        let mut parts: Vec<String> = Vec::new();
        let mut i: usize = 0;
        while i < items.len()
            invariant
                i <= items@.len(),
                crate::text::string_views(parts@) == hover_parts(items@.take(i as int)),
            decreases items.len() - i,
        {
            let item = &items[i];
            assert(items@.take(i + 1).drop_last() =~= items@.take(i as int));
            assert(items@.take(i + 1).last() == *item);
            let ghost before = parts@;
            match item.as_str() {
                Some(s) => {
                    parts.push(owned(s));
                },
                None => match get_opt(Some(item), "value") {
                    Some(v) => match v.as_str() {
                        Some(s) => {
                            parts.push(owned(s));
                        },
                        None => {},
                    },
                    None => {},
                },
            }
            assert(crate::text::string_views(parts@) =~= hover_parts(items@.take(i + 1)));
            i += 1;
        }
        assert(items@.take(items@.len() as int) =~= items@);
        if parts.len() == 0 {
            return None;
        }
        let joined = crate::text::join_strings(&parts, "\n");
        return Some(LspHoverResult { content: string_from_chars(&joined), language: None });
    }
    None
}

// ---------------------------------------------------------------------------
// Locations.
// ---------------------------------------------------------------------------

pub open spec fn location_view(l: LspLocation) -> (Seq<char>, u32, u32, Option<u32>, Option<u32>) {
    (l.path@, l.line, l.character, l.end_line, l.end_character)
}

pub open spec fn opt_u32(v: Option<u64>) -> Option<u32> {
    match v {
        Some(x) => Some(x as u32),
        None => None,
    }
}

/// A location entry: its URI as a path, its start (required) and end
/// (optional) positions, each read as `u64` and cut to `u32`; `None` when a
/// required part is missing.
pub open spec fn location_of(loc: JsonNode) -> Option<(Seq<char>, u32, u32, Option<u32>, Option<u32>)> {
    let uri = opt_str(node_get(loc, "uri"@));
    let range = node_get(loc, "range"@);
    let start = opt_get(range, "start"@);
    let end = opt_get(range, "end"@);
    let line = opt_u64(opt_get(start, "line"@));
    let character = opt_u64(opt_get(start, "character"@));
    if uri is Some && range is Some && start is Some && end is Some && line is Some && character is Some {
        Some(
            (
                uri_path(uri->0),
                line->0 as u32,
                character->0 as u32,
                opt_u32(opt_u64(opt_get(end, "line"@))),
                opt_u32(opt_u64(opt_get(end, "character"@))),
            ),
        )
    } else {
        None
    }
}

/// The readable locations of an array, in order.
pub open spec fn locations_in(items: Seq<JsonNode>) -> Seq<(Seq<char>, u32, u32, Option<u32>, Option<u32>)>
    decreases items.len(),
{
    if items.len() == 0 {
        seq![]
    } else {
        let init = locations_in(items.drop_last());
        match location_of(items.last()) {
            Some(l) => init.push(l),
            None => init,
        }
    }
}

fn opt_u64_to_u32(v: Option<u64>) -> (r: Option<u32>)
    ensures
        r == opt_u32(v),
{
    match v {
        Some(x) => Some(x as u32),
        None => None,
    }
}

fn read_location(loc: &JsonNode) -> (r: Option<LspLocation>)
    ensures
        match r {
            Some(l) => location_of(*loc) == Some(location_view(l)) && l.preview is None,
            None => location_of(*loc) is None,
        },
{
    let uri = match get_opt(Some(loc), "uri") {
        Some(u) => match u.as_str() {
            Some(s) => s,
            None => {
                return None;
            },
        },
        None => {
            return None;
        },
    };
    let range = match loc.get("range") {
        Some(r) => r,
        None => {
            return None;
        },
    };
    let start = match range.get("start") {
        Some(s) => s,
        None => {
            return None;
        },
    };
    let end = match range.get("end") {
        Some(e) => e,
        None => {
            return None;
        },
    };
    let line = match get_opt(Some(start), "line") {
        Some(v) => match v.as_u64() {
            Some(x) => x,
            None => {
                return None;
            },
        },
        None => {
            return None;
        },
    };
    let character = match get_opt(Some(start), "character") {
        Some(v) => match v.as_u64() {
            Some(x) => x,
            None => {
                return None;
            },
        },
        None => {
            return None;
        },
    };
    let end_line = match end.get("line") {
        Some(v) => opt_u64_to_u32(v.as_u64()),
        None => None,
    };
    let end_character = match end.get("character") {
        Some(v) => opt_u64_to_u32(v.as_u64()),
        None => None,
    };
    Some(
        LspLocation {
            path: uri_to_path(uri),
            line: line as u32,
            character: character as u32,
            end_line,
            end_character,
            preview: None,
        },
    )
}

/// Reads the locations of a definition or references response; entries
/// that lack a required part are skipped.
pub fn parse_locations(value: &JsonNode) -> (r: Vec<LspLocation>)
    ensures
        r@.map_values(|l: LspLocation| location_view(l)) == match node_array(*value) {
            Some(items) => locations_in(items),
            None => seq![],
        },
        forall|i: int| 0 <= i < r@.len() ==> (#[trigger] r@[i]).preview is None,
{
    let mut out: Vec<LspLocation> = Vec::new();
    let items = match value.as_array() {
        Some(items) => items,
        None => {
            assert(out@.map_values(|l: LspLocation| location_view(l)) =~= Seq::<(Seq<char>, u32, u32, Option<u32>, Option<u32>)>::empty());
            return out;
        },
    };
    let mut i: usize = 0;
    while i < items.len()
        invariant
            i <= items@.len(),
            out@.map_values(|l: LspLocation| location_view(l)) == locations_in(items@.take(i as int)),
            forall|j: int| 0 <= j < out@.len() ==> (#[trigger] out@[j]).preview is None,
        decreases items.len() - i,
    {
        assert(items@.take(i + 1).drop_last() =~= items@.take(i as int));
        assert(items@.take(i + 1).last() == items@[i as int]);
        let ghost before = out@;
        match read_location(&items[i]) {
            Some(l) => {
                out.push(l);
                assert(out@.map_values(|l: LspLocation| location_view(l)) =~= before.map_values(
                    |l: LspLocation| location_view(l),
                ).push(location_view(out@.last())));
            },
            None => {},
        }
        i += 1;
    }
    assert(items@.take(items@.len() as int) =~= items@);
    out
}

// ---------------------------------------------------------------------------
// Completions.
// ---------------------------------------------------------------------------

pub open spec fn opt_view(o: Option<String>) -> Option<Seq<char>> {
    match o {
        Some(s) => Some(s@),
        None => None,
    }
}

pub open spec fn completion_view(c: LspCompletionItem) -> (Seq<char>, Option<Seq<char>>, Option<Seq<char>>, Option<Seq<char>>) {
    (c.label@, opt_view(c.kind), opt_view(c.detail), opt_view(c.insert_text))
}

/// One completion item: its label (empty when missing), the name of its
/// kind, its detail and its insert text.
pub open spec fn completion_of(item: JsonNode) -> (Seq<char>, Option<Seq<char>>, Option<Seq<char>>, Option<Seq<char>>) {
    (
        str_or(node_get(item, "label"@), ""@),
        match opt_u64(node_get(item, "kind"@)) {
            Some(k) => Some(kind_name(completion_kinds(), k)),
            None => None,
        },
        opt_str(node_get(item, "detail"@)),
        opt_str(node_get(item, "insertText"@)),
    )
}

fn opt_string(v: Option<&JsonNode>) -> (r: Option<String>)
    ensures
        opt_view(r) == opt_str(
            match v {
                Some(n) => Some(*n),
                None => None,
            },
        ),
{
    match v {
        Some(n) => match n.as_str() {
            Some(s) => Some(owned(s)),
            None => None,
        },
        None => None,
    }
}

/// Reads the items of a completion response.
pub fn parse_completions(value: &JsonNode) -> (r: Vec<LspCompletionItem>)
    ensures
        r@.map_values(|c: LspCompletionItem| completion_view(c)) == match node_array(*value) {
            Some(items) => items.map_values(|i: JsonNode| completion_of(i)),
            None => seq![],
        },
{
    let mut out: Vec<LspCompletionItem> = Vec::new();
    let items = match value.as_array() {
        Some(items) => items,
        None => {
            assert(out@.map_values(|c: LspCompletionItem| completion_view(c)) =~= Seq::<
                (Seq<char>, Option<Seq<char>>, Option<Seq<char>>, Option<Seq<char>>),
            >::empty());
            return out;
        },
    };
    let mut i: usize = 0;
    while i < items.len()
        invariant
            i <= items@.len(),
            out@.map_values(|c: LspCompletionItem| completion_view(c)) == items@.take(i as int).map_values(
                |i: JsonNode| completion_of(i),
            ),
        decreases items.len() - i,
    {
        let item = &items[i];
        let kind = match item.get("kind") {
            Some(k) => match k.as_u64() {
                Some(n) => Some(completion_kind_name(n)),
                None => None,
            },
            None => None,
        };
        let c = LspCompletionItem {
            label: str_or_default(item.get("label"), ""),
            kind,
            detail: opt_string(item.get("detail")),
            insert_text: opt_string(item.get("insertText")),
        };
        let ghost before = out@;
        out.push(c);
        assert(out@.map_values(|c: LspCompletionItem| completion_view(c)) =~= before.map_values(
            |c: LspCompletionItem| completion_view(c),
        ).push(completion_view(c)));
        assert(items@.take(i + 1).map_values(|i: JsonNode| completion_of(i)) =~= items@.take(i as int).map_values(
            |i: JsonNode| completion_of(i),
        ).push(completion_of(items@[i as int])));
        i += 1;
    }
    assert(items@.take(items@.len() as int) =~= items@);
    out
}

// ---------------------------------------------------------------------------
// Document symbols.
// ---------------------------------------------------------------------------

pub open spec fn symbol_view(s: LspSymbol) -> (Seq<char>, Seq<char>, Seq<char>, u32, u32) {
    (s.name@, s.kind@, s.path@, s.line, s.character)
}

/// A position component: its `u64` value when it fits in `u32`, else 0.
pub open spec fn u32_or_zero(v: Option<u64>) -> u32 {
    match v {
        Some(x) => if x <= u32::MAX {
            x as u32
        } else {
            0
        },
        None => 0,
    }
}

/// One symbol entry: its name (empty when missing), the name of its kind
/// ("Unknown" when missing), the document path, and its range's start
/// (0, 0 when it has no range).
pub open spec fn symbol_of(item: JsonNode, path: Seq<char>) -> (Seq<char>, Seq<char>, Seq<char>, u32, u32) {
    let name = str_or(node_get(item, "name"@), ""@);
    let kind = match opt_u64(node_get(item, "kind"@)) {
        Some(k) => kind_name(symbol_kinds(), k),
        None => "Unknown"@,
    };
    match node_get(item, "range"@) {
        Some(range) => {
            let start = node_get(range, "start"@);
            (name, kind, path, u32_or_zero(opt_u64(opt_get(start, "line"@))), u32_or_zero(
                opt_u64(opt_get(start, "character"@)),
            ))
        },
        None => (name, kind, path, 0, 0),
    }
}

/// The symbols of a list of entries, each followed by its children's,
/// depth first.
pub open spec fn symbols_in(items: Seq<JsonNode>, path: Seq<char>) -> Seq<(Seq<char>, Seq<char>, Seq<char>, u32, u32)>
    decreases seq_size(items), 1nat,
{
    proof {
        if items.len() > 0 {
            crate::json_node::lemma_node_size_pos(items.last());
        }
    }
    if items.len() == 0 {
        seq![]
    } else {
        symbols_in(items.drop_last(), path) + symbol_tree(items.last(), path)
    }
}

/// An entry's symbol followed by those of its children.
pub open spec fn symbol_tree(item: JsonNode, path: Seq<char>) -> Seq<(Seq<char>, Seq<char>, Seq<char>, u32, u32)>
    decreases node_size(item), 0nat,
{
    proof {
        lemma_get_smaller(item, "children"@);
    }
    seq![symbol_of(item, path)] + match opt_array(node_get(item, "children"@)) {
        Some(children) => symbols_in(children, path),
        None => seq![],
    }
}

fn position_part(v: Option<&JsonNode>) -> (r: u32)
    ensures
        r == u32_or_zero(
            opt_u64(
                match v {
                    Some(n) => Some(*n),
                    None => None,
                },
            ),
        ),
{
    match v {
        Some(n) => match n.as_u64() {
            Some(x) => if x <= u32::MAX as u64 {
                x as u32
            } else {
                0
            },
            None => 0,
        },
        None => 0,
    }
}

fn read_symbol(item: &JsonNode, path: &str) -> (r: LspSymbol)
    ensures
        symbol_view(r) == symbol_of(*item, path@),
{
    let name = str_or_default(item.get("name"), "");
    let kind = match item.get("kind") {
        Some(k) => match k.as_u64() {
            Some(n) => symbol_kind_name(n),
            None => owned("Unknown"),
        },
        None => owned("Unknown"),
    };
    match item.get("range") {
        Some(range) => {
            let start = range.get("start");
            let line = position_part(get_opt(start, "line"));
            let character = position_part(get_opt(start, "character"));
            LspSymbol { name, kind, path: owned(path), line, character }
        },
        None => LspSymbol { name, kind, path: owned(path), line: 0, character: 0 },
    }
}

proof fn lemma_item_within(items: Seq<JsonNode>, i: int)
    requires
        0 <= i < items.len(),
    ensures
        node_size(items[i]) <= seq_size(items),
    decreases items.len(),
{
    if i < items.len() - 1 {
        lemma_item_within(items.drop_last(), i);
    }
}

fn extract_symbols(items: &Vec<JsonNode>, path: &str, out: &mut Vec<LspSymbol>)
    ensures
        final(out)@.map_values(|s: LspSymbol| symbol_view(s)) == old(out)@.map_values(
            |s: LspSymbol| symbol_view(s),
        ) + symbols_in(items@, path@),
    decreases seq_size(items@),
{
    let ghost start = out@.map_values(|s: LspSymbol| symbol_view(s));
    let mut i: usize = 0;
    while i < items.len()
        invariant
            i <= items@.len(),
            start == old(out)@.map_values(|s: LspSymbol| symbol_view(s)),
            out@.map_values(|s: LspSymbol| symbol_view(s)) == start + symbols_in(items@.take(i as int), path@),
        decreases items.len() - i,
    {
        let item = &items[i];
        assert(items@.take(i + 1).drop_last() =~= items@.take(i as int));
        assert(items@.take(i + 1).last() == *item);
        let ghost before = out@.map_values(|s: LspSymbol| symbol_view(s));
        let sym = read_symbol(item, path);
        out.push(sym);
        assert(out@.map_values(|s: LspSymbol| symbol_view(s)) =~= before.push(symbol_view(sym)));
        proof {
            lemma_get_smaller(*item, "children"@);
            lemma_item_within(items@, i as int);
        }
        let ghost mid = out@.map_values(|s: LspSymbol| symbol_view(s));
        match get_opt(Some(item), "children") {
            Some(ch) => match ch.as_array() {
                Some(children) => {
                    extract_symbols(children, path, out);
                },
                None => {},
            },
            None => {},
        }
        assert(symbol_tree(*item, path@) == seq![symbol_of(*item, path@)] + match opt_array(
            node_get(*item, "children"@),
        ) {
            Some(children) => symbols_in(children, path@),
            None => seq![],
        });
        assert(out@.map_values(|s: LspSymbol| symbol_view(s)) =~= start + symbols_in(
            items@.take(i + 1),
            path@,
        ));
        i += 1;
    }
    assert(items@.take(items@.len() as int) =~= items@);
}

/// Reads a document-symbol response, flattening nested symbols depth
/// first; each symbol is reported under `default_path`.
pub fn parse_symbols(value: &JsonNode, default_path: &str) -> (r: Vec<LspSymbol>)
    ensures
        r@.map_values(|s: LspSymbol| symbol_view(s)) == match node_array(*value) {
            Some(items) => symbols_in(items, default_path@),
            None => seq![],
        },
{
    let mut result: Vec<LspSymbol> = Vec::new();
    assert(result@.map_values(|s: LspSymbol| symbol_view(s)) =~= Seq::<(Seq<char>, Seq<char>, Seq<char>, u32, u32)>::empty());
    match value.as_array() {
        Some(items) => {
            extract_symbols(items, default_path, &mut result);
            assert(Seq::<(Seq<char>, Seq<char>, Seq<char>, u32, u32)>::empty() + symbols_in(
                items@,
                default_path@,
            ) =~= symbols_in(items@, default_path@));
        },
        None => {},
    }
    result
}

// ---------------------------------------------------------------------------
// Request parameters.
// ---------------------------------------------------------------------------

/// `{"textDocument": {"uri": uri}, "position": {"line": line, "character": character}}`.
pub open spec fn position_params_match(v: JsonNode, uri: Seq<char>, line: u32, character: u32) -> bool {
    &&& node_get(v, "textDocument"@) matches Some(td) && opt_str(node_get(td, "uri"@)) == Some(uri)
    &&& node_get(v, "position"@) matches Some(pos) && node_u64(node_get(pos, "line"@)->0) == Some(line as u64)
        && node_u64(node_get(pos, "character"@)->0) == Some(character as u64) && node_get(pos, "line"@)
        is Some && node_get(pos, "character"@) is Some
}

/// The parameters of a request about a position in a document.
pub fn text_document_position_params(uri: &str, line: u32, character: u32) -> (r: JsonNode)
    ensures
        position_params_match(r, uri@, line, character),
{
    proof {
        reveal_strlit("textDocument");
        reveal_strlit("uri");
        reveal_strlit("position");
        reveal_strlit("line");
        reveal_strlit("character");
    }
    let mut td: Vec<(String, JsonNode)> = Vec::new();
    td.push((owned("uri"), JsonNode::Str(owned(uri))));
    let mut pos: Vec<(String, JsonNode)> = Vec::new();
    pos.push((owned("line"), JsonNode::Number(Some(line as u64))));
    pos.push((owned("character"), JsonNode::Number(Some(character as u64))));
    let mut top: Vec<(String, JsonNode)> = Vec::new();
    top.push((owned("textDocument"), JsonNode::Object(td)));
    top.push((owned("position"), JsonNode::Object(pos)));
    let r = JsonNode::Object(top);
    proof {
        let tdv = top@[0].1;
        let posv = top@[1].1;
        assert(top@[0].0@ == "textDocument"@);
        assert(top@[1].0@ == "position"@);
        assert("textDocument"@ != "position"@) by {
            assert("textDocument"@.len() != "position"@.len());
        }
        assert(crate::json_node::entry_get(top@, "textDocument"@) == Some(tdv));
        assert(crate::json_node::entry_get(top@.drop_first(), "position"@) == Some(posv));
        assert(crate::json_node::entry_get(top@, "position"@) == Some(posv));
        assert(crate::json_node::entry_get(td@, "uri"@) == Some(td@[0].1));
        assert(pos@[0].0@ == "line"@);
        assert(pos@[1].0@ == "character"@);
        assert("line"@ != "character"@) by {
            assert("line"@.len() != "character"@.len());
        }
        assert(crate::json_node::entry_get(pos@, "line"@) == Some(pos@[0].1));
        assert(crate::json_node::entry_get(pos@.drop_first(), "character"@) == Some(pos@[1].1));
        assert(crate::json_node::entry_get(pos@, "character"@) == Some(pos@[1].1));
    }
    r
}


// ---------------------------------------------------------------------------
// Published diagnostics.
// ---------------------------------------------------------------------------

pub open spec fn diagnostic_view(d: LspDiagnostic) -> (Seq<char>, u32, u32, Seq<char>, Seq<char>, Option<Seq<char>>) {
    (d.path@, d.line, d.character, d.severity@, d.message@, opt_view(d.source))
}

/// A number as `u32`, keeping its low 32 bits; 0 when missing.
pub open spec fn low_u32_or_zero(v: Option<u64>) -> u32 {
    match v {
        Some(x) => x as u32,
        None => 0,
    }
}

/// One published diagnostic of the file at `path`: its start (0 where
/// missing), the name of its severity (`error` where missing), its message
/// (empty where missing) and its source.
pub open spec fn published_diagnostic(path: Seq<char>, d: JsonNode) -> (Seq<char>, u32, u32, Seq<char>, Seq<char>, Option<Seq<char>>) {
    let start = opt_get(node_get(d, "range"@), "start"@);
    (
        path,
        low_u32_or_zero(opt_u64(opt_get(start, "line"@))),
        low_u32_or_zero(opt_u64(opt_get(start, "character"@))),
        match opt_u64(node_get(d, "severity"@)) {
            Some(k) => severity_text(k),
            None => "error"@,
        },
        str_or(node_get(d, "message"@), ""@),
        opt_str(node_get(d, "source"@)),
    )
}

/// The diagnostics one notification publishes: those of a
/// `textDocument/publishDiagnostics` notification with a `uri` and a
/// `diagnostics` array; none for any other.
pub open spec fn notification_diagnostics(n: LspNotification) -> Seq<(Seq<char>, u32, u32, Seq<char>, Seq<char>, Option<Seq<char>>)> {
    if n.method@ == "textDocument/publishDiagnostics"@ {
        match n.params {
            Some(p) => match (opt_str(node_get(p, "uri"@)), opt_array(node_get(p, "diagnostics"@))) {
                (Some(uri), Some(ds)) => ds.map_values(|d: JsonNode| published_diagnostic(uri_path(uri), d)),
                _ => seq![],
            },
            None => seq![],
        }
    } else {
        seq![]
    }
}

/// The diagnostics of a run of notifications, in order.
pub open spec fn notifications_diagnostics(ns: Seq<LspNotification>) -> Seq<(Seq<char>, u32, u32, Seq<char>, Seq<char>, Option<Seq<char>>)>
    decreases ns.len(),
{
    if ns.len() == 0 {
        seq![]
    } else {
        notifications_diagnostics(ns.drop_last()) + notification_diagnostics(ns.last())
    }
}

fn low_u32(v: Option<&JsonNode>) -> (r: u32)
    ensures
        r == low_u32_or_zero(opt_u64(
            match v {
                Some(n) => Some(*n),
                None => None,
            },
        )),
{
    match v {
        Some(n) => match n.as_u64() {
            Some(x) => x as u32,
            None => 0,
        },
        None => 0,
    }
}

fn read_published(path: &str, d: &JsonNode) -> (r: LspDiagnostic)
    ensures
        diagnostic_view(r) == published_diagnostic(path@, *d),
{
    proof {
        reveal_strlit("range");
        reveal_strlit("start");
        reveal_strlit("line");
        reveal_strlit("character");
        reveal_strlit("severity");
        reveal_strlit("message");
        reveal_strlit("source");
    }
    let start = get_opt(d.get("range"), "start");
    let severity = match d.get("severity") {
        Some(v) => match v.as_u64() {
            Some(k) => severity_name(k),
            None => owned("error"),
        },
        None => owned("error"),
    };
    LspDiagnostic {
        path: owned(path),
        line: low_u32(get_opt(start, "line")),
        character: low_u32(get_opt(start, "character")),
        severity,
        message: str_or_default(d.get("message"), ""),
        source: opt_string(d.get("source")),
    }
}

/// The diagnostics that a run of server notifications publishes, in the
/// order they came; other notifications are passed over.
pub fn drain_diagnostics(notifications: &[LspNotification]) -> (r: Vec<LspDiagnostic>)
    ensures
        r@.map_values(|d: LspDiagnostic| diagnostic_view(d)) == notifications_diagnostics(notifications@),
{
    proof {
        reveal_strlit("uri");
        reveal_strlit("diagnostics");
    }
    let mut out: Vec<LspDiagnostic> = Vec::new();
    let mut i: usize = 0;
    while i < notifications.len()
        invariant
            i <= notifications@.len(),
            out@.map_values(|d: LspDiagnostic| diagnostic_view(d)) == notifications_diagnostics(
                notifications@.take(i as int),
            ),
        decreases notifications.len() - i,
    {
        assert(notifications@.take(i + 1).drop_last() =~= notifications@.take(i as int));
        assert(notifications@.take(i + 1).last() == notifications@[i as int]);
        let n = &notifications[i];
        let ghost before = out@.map_values(|d: LspDiagnostic| diagnostic_view(d));
        if str_eq(n.method.as_str(), "textDocument/publishDiagnostics") {
            if let Some(p) = &n.params {
                let uri = match p.get("uri") {
                    Some(u) => u.as_str(),
                    None => None,
                };
                let ds = match p.get("diagnostics") {
                    Some(v) => v.as_array(),
                    None => None,
                };
                if let (Some(uri), Some(ds)) = (uri, ds) {
                    let path = uri_to_path(uri);
                    let mut k: usize = 0;
                    while k < ds.len()
                        invariant
                            k <= ds@.len(),
                            out@.map_values(|d: LspDiagnostic| diagnostic_view(d)) == before + ds@.take(
                                k as int,
                            ).map_values(|d: JsonNode| published_diagnostic(path@, d)),
                        decreases ds.len() - k,
                    {
                        let item = read_published(path.as_str(), &ds[k]);
                        let ghost prev = out@;
                        out.push(item);
                        assert(out@ == prev.push(item));
                        assert(out@.map_values(|d: LspDiagnostic| diagnostic_view(d)) =~= prev.map_values(
                            |d: LspDiagnostic| diagnostic_view(d),
                        ).push(diagnostic_view(item)));
                        assert(ds@.take(k + 1) =~= ds@.take(k as int).push(ds@[k as int]));
                        k += 1;
                        assert(out@.map_values(|d: LspDiagnostic| diagnostic_view(d)) =~= before + ds@.take(
                            k as int,
                        ).map_values(|d: JsonNode| published_diagnostic(path@, d)));
                    }
                    assert(ds@.take(ds@.len() as int) =~= ds@);
                } else {
                    assert(notification_diagnostics(*n) =~= seq![]);
                    assert(out@.map_values(|d: LspDiagnostic| diagnostic_view(d)) =~= before + seq![]);
                }
            } else {
                assert(out@.map_values(|d: LspDiagnostic| diagnostic_view(d)) =~= before + seq![]);
            }
        } else {
            assert(out@.map_values(|d: LspDiagnostic| diagnostic_view(d)) =~= before + seq![]);
        }
        i += 1;
    }
    assert(notifications@.take(notifications@.len() as int) =~= notifications@);
    out
}

} // verus!
