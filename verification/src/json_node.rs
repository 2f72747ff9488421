//! A parsed JSON document as the protocol logic reads it: numbers are kept
//! by the one reading the logic makes of them, their value as a
//! non-negative integer when they are one.
use vstd::prelude::*;

use crate::text::str_eq;

verus! {

broadcast use vstd::std_specs::vec::group_vec_axioms;

/// A JSON value.
#[derive(Debug)]
pub enum JsonNode {
    Null,
    Bool(bool),
    /// A number: its value when it is an integer that fits in `u64`.
    Number(Option<u64>),
    Str(String),
    Array(Vec<JsonNode>),
    /// Members in document order; keys are distinct.
    Object(Vec<(String, JsonNode)>),
}

/// The value of the first member named `key`.
pub open spec fn entry_get(entries: Seq<(String, JsonNode)>, key: Seq<char>) -> Option<JsonNode>
    decreases entries.len(),
{
    if entries.len() == 0 {
        None
    } else if entries[0].0@ == key {
        Some(entries[0].1)
    } else {
        entry_get(entries.drop_first(), key)
    }
}

/// The member `key` of an object; nothing for other values.
pub open spec fn node_get(v: JsonNode, key: Seq<char>) -> Option<JsonNode> {
    match v {
        JsonNode::Object(entries) => entry_get(entries@, key),
        _ => None,
    }
}

pub open spec fn node_str(v: JsonNode) -> Option<Seq<char>> {
    match v {
        JsonNode::Str(s) => Some(s@),
        _ => None,
    }
}

pub open spec fn node_u64(v: JsonNode) -> Option<u64> {
    match v {
        JsonNode::Number(n) => n,
        _ => None,
    }
}

pub open spec fn node_bool(v: JsonNode) -> Option<bool> {
    match v {
        JsonNode::Bool(b) => Some(b),
        _ => None,
    }
}

pub open spec fn node_array(v: JsonNode) -> Option<Seq<JsonNode>> {
    match v {
        JsonNode::Array(items) => Some(items@),
        _ => None,
    }
}

/// `node_get` applied to an optional value.
pub open spec fn opt_get(v: Option<JsonNode>, key: Seq<char>) -> Option<JsonNode> {
    match v {
        Some(n) => node_get(n, key),
        None => None,
    }
}

pub open spec fn opt_str(v: Option<JsonNode>) -> Option<Seq<char>> {
    match v {
        Some(n) => node_str(n),
        None => None,
    }
}

pub open spec fn opt_u64(v: Option<JsonNode>) -> Option<u64> {
    match v {
        Some(n) => node_u64(n),
        None => None,
    }
}

pub open spec fn opt_bool(v: Option<JsonNode>) -> Option<bool> {
    match v {
        Some(n) => node_bool(n),
        None => None,
    }
}

pub open spec fn opt_array(v: Option<JsonNode>) -> Option<Seq<JsonNode>> {
    match v {
        Some(n) => node_array(n),
        None => None,
    }
}

/// Number of values in a document, counting every nested value.
pub open spec fn node_size(v: JsonNode) -> nat
    decreases v,
{
    match v {
        JsonNode::Array(items) => 1 + seq_size(items@),
        JsonNode::Object(entries) => 1 + entries_size(entries@),
        _ => 1,
    }
}

pub open spec fn seq_size(s: Seq<JsonNode>) -> nat
    decreases s,
{
    if s.len() == 0 {
        0
    } else {
        seq_size(s.drop_last()) + node_size(s.last())
    }
}

pub open spec fn entries_size(s: Seq<(String, JsonNode)>) -> nat
    decreases s,
{
    if s.len() == 0 {
        0
    } else {
        node_size(s[0].1) + entries_size(s.drop_first())
    }
}

pub proof fn lemma_node_size_pos(v: JsonNode)
    ensures
        node_size(v) >= 1,
{
}

/// A member of an object is smaller than the object.
pub proof fn lemma_entry_smaller(entries: Seq<(String, JsonNode)>, key: Seq<char>)
    ensures
        entry_get(entries, key) matches Some(x) ==> node_size(x) <= entries_size(entries),
    decreases entries.len(),
{
    if entries.len() > 0 && entries[0].0@ != key {
        lemma_entry_smaller(entries.drop_first(), key);
    }
}

pub proof fn lemma_get_smaller(v: JsonNode, key: Seq<char>)
    ensures
        node_get(v, key) matches Some(x) ==> node_size(x) < node_size(v),
        node_get(v, key) matches Some(x) ==> (node_array(x) matches Some(items) ==> seq_size(items)
            < node_size(v)),
{
    if let JsonNode::Object(entries) = v {
        lemma_entry_smaller(entries@, key);
    }
}

impl JsonNode {
    /// The member `key`, when this is an object that has one.
    pub fn get(&self, key: &str) -> (r: Option<&JsonNode>)
        ensures
            match r {
                Some(x) => node_get(*self, key@) == Some(*x),
                None => node_get(*self, key@) is None,
            },
    {
        match self {
            JsonNode::Object(entries) => {
                let mut i: usize = 0;
                assert(entries@.skip(0) =~= entries@);
                while i < entries.len()
                    invariant
                        i <= entries@.len(),
                        node_get(*self, key@) == entry_get(entries@, key@),
                        entry_get(entries@, key@) == entry_get(entries@.skip(i as int), key@),
                    decreases entries.len() - i,
                {
                    assert(entries@.skip(i as int).drop_first() =~= entries@.skip(i + 1));
                    assert(entries@.skip(i as int)[0] == entries@[i as int]);
                    if str_eq(entries[i].0.as_str(), key) {
                        assert(entry_get(entries@.skip(i as int), key@) == Some(entries@[i as int].1));
                        return Some(&entries[i].1);
                    }
                    i += 1;
                }
                None
            },
            _ => None,
        }
    }

    pub fn as_str(&self) -> (r: Option<&str>)
        ensures
            match r {
                Some(s) => node_str(*self) == Some(s@),
                None => node_str(*self) is None,
            },
    {
        match self {
            JsonNode::Str(s) => Some(s.as_str()),
            _ => None,
        }
    }

    pub fn as_u64(&self) -> (r: Option<u64>)
        ensures
            r == node_u64(*self),
    {
        match self {
            JsonNode::Number(n) => *n,
            _ => None,
        }
    }

    pub fn as_bool(&self) -> (r: Option<bool>)
        ensures
            r == node_bool(*self),
    {
        match self {
            JsonNode::Bool(b) => Some(*b),
            _ => None,
        }
    }

    pub fn as_array(&self) -> (r: Option<&Vec<JsonNode>>)
        ensures
            match r {
                Some(items) => node_array(*self) == Some(items@),
                None => node_array(*self) is None,
            },
    {
        match self {
            JsonNode::Array(items) => Some(items),
            _ => None,
        }
    }
}

/// `JsonNode::get` on an optional value.
pub fn get_opt<'a>(v: Option<&'a JsonNode>, key: &str) -> (r: Option<&'a JsonNode>)
    ensures
        match r {
            Some(x) => opt_get(
                match v {
                    Some(n) => Some(*n),
                    None => None,
                },
                key@,
            ) == Some(*x),
            None => opt_get(
                match v {
                    Some(n) => Some(*n),
                    None => None,
                },
                key@,
            ) is None,
        },
{
    match v {
        Some(n) => n.get(key),
        None => None,
    }
}

// ---------------------------------------------------------------------------
// JSON pointers.
// ---------------------------------------------------------------------------

/// A pointer token with `~1` read as `/` and then `~0` as `~`.
pub open spec fn unescape_token(t: Seq<char>) -> Seq<char> {
    crate::text::replace_all(crate::text::replace_all(t, "~1"@, "/"@), "~0"@, "~"@)
}

/// An array index as a pointer token writes it: decimal digits with no
/// sign and no leading zero.
pub open spec fn pointer_index(t: Seq<char>) -> Option<nat> {
    if t.len() > 0 && t[0] == '+' {
        None
    } else if t.len() > 1 && t[0] == '0' {
        None
    } else {
        crate::text::parse_unsigned(t, usize::MAX as nat)
    }
}

/// One step of a pointer: a member of an object or an element of an array.
pub open spec fn pointer_step(v: JsonNode, token: Seq<char>) -> Option<JsonNode> {
    let key = unescape_token(token);
    match v {
        JsonNode::Object(entries) => entry_get(entries@, key),
        JsonNode::Array(items) => match pointer_index(key) {
            Some(i) => if i < items@.len() {
                Some(items@[i as int])
            } else {
                None
            },
            None => None,
        },
        _ => None,
    }
}

/// The value the tokens of a pointer lead to.
pub open spec fn pointer_tokens(v: JsonNode, tokens: Seq<Seq<char>>) -> Option<JsonNode>
    decreases tokens.len(),
{
    if tokens.len() == 0 {
        Some(v)
    } else {
        match pointer_step(v, tokens[0]) {
            Some(next) => pointer_tokens(next, tokens.drop_first()),
            None => None,
        }
    }
}

/// `serde_json::Value::pointer`: the empty pointer is the value itself; a
/// pointer is `/` followed by tokens separated by `/`.
pub open spec fn pointer_of(v: JsonNode, p: Seq<char>) -> Option<JsonNode> {
    if p.len() == 0 {
        Some(v)
    } else if p[0] != '/' {
        None
    } else {
        pointer_tokens(v, crate::text::split_on(p.drop_first(), '/'))
    }
}

fn unescape_token_chars(t: &[char]) -> (r: Vec<char>)
    ensures
        r@ == unescape_token(t@),
{
    let a = crate::text::chars_of("~1");
    let b = crate::text::chars_of("/");
    let c = crate::text::chars_of("~0");
    let d = crate::text::chars_of("~");
    proof {
        reveal_strlit("~1");
        reveal_strlit("~0");
    }
    let once = crate::text::replace_chars(t, &a, &b);
    crate::text::replace_chars(&once, &c, &d)
}

fn pointer_index_of(t: &[char]) -> (r: Option<usize>)
    ensures
        match r {
            Some(i) => pointer_index(t@) == Some(i as nat),
            None => pointer_index(t@) is None,
        },
{
    if t.len() > 0 && t[0] == '+' {
        return None;
    }
    if t.len() > 1 && t[0] == '0' {
        return None;
    }
    match crate::text::parse_unsigned_chars(t, usize::MAX as u64) {
        Some(v) => Some(v as usize),
        None => None,
    }
}

fn pointer_step_exec<'a>(v: &'a JsonNode, token: &[char]) -> (r: Option<&'a JsonNode>)
    ensures
        match r {
            Some(x) => pointer_step(*v, token@) == Some(*x),
            None => pointer_step(*v, token@) is None,
        },
{
    let key = unescape_token_chars(token);
    match v {
        JsonNode::Object(entries) => {
            let mut i: usize = 0;
            assert(entries@.skip(0) =~= entries@);
            while i < entries.len()
                invariant
                    i <= entries@.len(),
                    pointer_step(*v, token@) == entry_get(entries@, key@),
                    entry_get(entries@, key@) == entry_get(entries@.skip(i as int), key@),
                decreases entries.len() - i,
            {
                assert(entries@.skip(i as int).drop_first() =~= entries@.skip(i + 1));
                assert(entries@.skip(i as int)[0] == entries@[i as int]);
                let name = crate::text::chars_of(entries[i].0.as_str());
                if crate::text::chars_eq(&name, &key) {
                    assert(entry_get(entries@.skip(i as int), key@) == Some(entries@[i as int].1));
                    return Some(&entries[i].1);
                }
                i += 1;
            }
            None
        },
        JsonNode::Array(items) => match pointer_index_of(&key) {
            Some(i) => if i < items.len() {
                Some(&items[i])
            } else {
                None
            },
            None => None,
        },
        _ => None,
    }
}

/// Follows the tokens of a pointer from `v`.
pub fn pointer_tokens_exec<'a>(v: &'a JsonNode, tokens: &[Vec<char>]) -> (r: Option<&'a JsonNode>)
    ensures
        match r {
            Some(x) => pointer_tokens(*v, tokens@.map_values(|t: Vec<char>| t@)) == Some(*x),
            None => pointer_tokens(*v, tokens@.map_values(|t: Vec<char>| t@)) is None,
        },
{
    let ghost tv = tokens@.map_values(|t: Vec<char>| t@);
    let mut cur: &JsonNode = v;
    let mut i: usize = 0;
    assert(tv.skip(0) =~= tv);
    while i < tokens.len()
        invariant
            i <= tokens@.len(),
            tv == tokens@.map_values(|t: Vec<char>| t@),
            pointer_tokens(*v, tv) == pointer_tokens(*cur, tv.skip(i as int)),
        decreases tokens.len() - i,
    {
        assert(tv.skip(i as int).drop_first() =~= tv.skip(i + 1));
        assert(tv.skip(i as int)[0] == tokens@[i as int]@);
        match pointer_step_exec(cur, &tokens[i]) {
            Some(next) => {
                cur = next;
            },
            None => {
                return None;
            },
        }
        i += 1;
    }
    assert(tv.skip(i as int).len() == 0);
    Some(cur)
}

/// `serde_json::Value::pointer` on a document.
pub fn pointer<'a>(v: &'a JsonNode, p: &str) -> (r: Option<&'a JsonNode>)
    ensures
        match r {
            Some(x) => pointer_of(*v, p@) == Some(*x),
            None => pointer_of(*v, p@) is None,
        },
{
    let c = crate::text::chars_of(p);
    if c.len() == 0 {
        return Some(v);
    }
    if c[0] != '/' {
        return None;
    }
    let rest = crate::text::slice_to_vec(&c, 1, c.len());
    assert(rest@ =~= p@.drop_first());
    let tokens = crate::text::split_chars(&rest, '/');
    pointer_tokens_exec(v, tokens.as_slice())
}

/// The vectors from position `i` on, copied.
pub fn skip_vecs(v: &Vec<Vec<char>>, i: usize) -> (r: Vec<Vec<char>>)
    requires
        i <= v@.len(),
    ensures
        r@.map_values(|t: Vec<char>| t@) == v@.map_values(|t: Vec<char>| t@).skip(i as int),
{
    let mut r: Vec<Vec<char>> = Vec::new();
    let mut k: usize = i;
    while k < v.len()
        invariant
            i <= k <= v@.len(),
            r@.map_values(|t: Vec<char>| t@) == v@.map_values(|t: Vec<char>| t@).subrange(i as int, k as int),
        decreases v.len() - k,
    {
        let c = crate::text::slice_to_vec(&v[k], 0, v[k].len());
        assert(c@ =~= v@[k as int]@);
        let ghost before = r@.map_values(|t: Vec<char>| t@);
        r.push(c);
        assert(r@.map_values(|t: Vec<char>| t@) =~= before.push(c@));
        assert(v@.map_values(|t: Vec<char>| t@).subrange(i as int, k + 1) =~= v@.map_values(
            |t: Vec<char>| t@,
        ).subrange(i as int, k as int).push(v@[k as int]@));
        k += 1;
    }
    assert(v@.map_values(|t: Vec<char>| t@).subrange(i as int, v@.len() as int) =~= v@.map_values(
        |t: Vec<char>| t@,
    ).skip(i as int));
    r
}


// ---------------------------------------------------------------------------
// Reading a document with serde_json.
// ---------------------------------------------------------------------------

#[verifier::external_type_specification]
#[verifier::external_body]
pub struct ExJsonValue(serde_json::Value);

/// The document `serde_json` reads from bytes, as a `JsonNode` (a number
/// kept by its `u64` reading), or the text of its error.
pub uninterp spec fn json_bytes_parse(bytes: Seq<u8>) -> Result<JsonNode, Seq<char>>;

/// The document `serde_json` reads from a text, as for bytes.
pub uninterp spec fn json_text_parse(text: Seq<char>) -> Result<JsonNode, Seq<char>>;

/// A `serde_json::Value` as the library's document, variant for variant,
/// numbers by `as_u64`. Trusted: a conversion only, with nothing stated;
/// the readers below name its result together with the parse.
#[verifier::external_body]
fn node_of(v: &serde_json::Value) -> (r: JsonNode) {
    match v {
        serde_json::Value::Null => JsonNode::Null,
        serde_json::Value::Bool(b) => JsonNode::Bool(*b),
        serde_json::Value::Number(n) => JsonNode::Number(n.as_u64()),
        serde_json::Value::String(s) => JsonNode::Str(s.clone()),
        serde_json::Value::Array(items) => JsonNode::Array(items.iter().map(node_of).collect()),
        serde_json::Value::Object(m) => JsonNode::Object(m.iter().map(|(k, x)| (k.clone(), node_of(x))).collect()),
    }
}

/// `serde_json::from_slice` into a `serde_json::Value`, the error by its
/// `to_string`. Trusted: the outcome is named by `json_bytes_parse`, a
/// function of the bytes alone.
#[verifier::external_body]
pub(crate) fn parse_json_bytes(bytes: &[u8]) -> (r: Result<JsonNode, String>)
    ensures
        match r {
            Ok(n) => json_bytes_parse(bytes@) == Ok::<JsonNode, Seq<char>>(n),
            Err(e) => json_bytes_parse(bytes@) == Err::<JsonNode, Seq<char>>(e@),
        },
{
    serde_json::from_slice::<serde_json::Value>(bytes).map(|v| node_of(&v)).map_err(|e| e.to_string())
}

/// `serde_json::from_str` into a `serde_json::Value`, the error by its
/// `to_string`. Trusted: the outcome is named by `json_text_parse`, a
/// function of the text alone.
#[verifier::external_body]
pub(crate) fn parse_json_text(text: &str) -> (r: Result<JsonNode, String>)
    ensures
        match r {
            Ok(n) => json_text_parse(text@) == Ok::<JsonNode, Seq<char>>(n),
            Err(e) => json_text_parse(text@) == Err::<JsonNode, Seq<char>>(e@),
        },
{
    serde_json::from_str::<serde_json::Value>(text).map(|v| node_of(&v)).map_err(|e| e.to_string())
}

} // verus!
