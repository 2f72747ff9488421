//! The grammar of the runtime's JSON reader: values, arrays, objects and
//! literals, with numbers kept as the text of their literal (what number
//! a literal stands for is left to the reader's caller).
use vstd::prelude::*;

use crate::json::{expect_message, number_literal_at, skip_ws_from, string_literal_at, JsonError, Parser};
use crate::text::{chars_of, push_str, string_from_chars};

verus! {

/// A parsed document; numbers are kept as their literal and whether it
/// has a fraction or an exponent.
#[derive(Debug)]
pub enum JsonDoc {
    Null,
    Bool(bool),
    Number(String, bool),
    Str(String),
    Array(Vec<JsonDoc>),
    /// Members in document order (a key may occur more than once).
    Object(Vec<(String, JsonDoc)>),
}

/// The mathematical form of a document.
pub enum DocView {
    Null,
    Bool(bool),
    Number(Seq<char>, bool),
    Str(Seq<char>),
    Array(Seq<DocView>),
    Object(Seq<(Seq<char>, DocView)>),
}

pub open spec fn doc_view(d: JsonDoc) -> DocView
    decreases d,
{
    match d {
        JsonDoc::Null => DocView::Null,
        JsonDoc::Bool(b) => DocView::Bool(b),
        JsonDoc::Number(s, f) => DocView::Number(s@, f),
        JsonDoc::Str(s) => DocView::Str(s@),
        JsonDoc::Array(items) => DocView::Array(docs_view(items@)),
        JsonDoc::Object(entries) => DocView::Object(entries_view(entries@)),
    }
}

pub open spec fn docs_view(s: Seq<JsonDoc>) -> Seq<DocView>
    decreases s,
{
    if s.len() == 0 {
        seq![]
    } else {
        docs_view(s.drop_last()).push(doc_view(s.last()))
    }
}

pub open spec fn entries_view(s: Seq<(String, JsonDoc)>) -> Seq<(Seq<char>, DocView)>
    decreases s,
{
    if s.len() == 0 {
        seq![]
    } else {
        entries_view(s.drop_last()).push((s.last().0@, doc_view(s.last().1)))
    }
}

/// The message of a literal that does not match.
pub open spec fn literal_message(lit: Seq<char>) -> Seq<char> {
    "invalid literal: expected "@ + lit
}

/// Reading the literal `lit` at `p`, from its `k`-th character on.
pub open spec fn literal_from(t: Seq<char>, p: nat, lit: Seq<char>, k: nat) -> (Result<(), Seq<char>>, nat)
    decreases lit.len() - k,
{
    if k >= lit.len() {
        (Ok(()), p + k)
    } else if p + k >= t.len() {
        (Err(literal_message(lit)), p + k)
    } else if t[(p + k) as int] != lit[k as int] {
        (Err(literal_message(lit)), p + k + 1)
    } else {
        literal_from(t, p, lit, k + 1)
    }
}

/// The value that starts at `p` (after any whitespace), and where
/// reading it stopped.
pub open spec fn value_at(t: Seq<char>, p: nat) -> (Result<DocView, Seq<char>>, nat)
    decreases t.len() - p, 2int,
{
    let q = skip_ws_from(t, p);
    if q >= t.len() {
        (Err("unexpected end of input"@), q)
    } else {
        let c = t[q as int];
        if c == 'n' {
            let (r, e) = literal_from(t, q, "null"@, 0);
            (match r {
                Ok(_) => Ok(DocView::Null),
                Err(m) => Err(m),
            }, e)
        } else if c == 't' {
            let (r, e) = literal_from(t, q, "true"@, 0);
            (match r {
                Ok(_) => Ok(DocView::Bool(true)),
                Err(m) => Err(m),
            }, e)
        } else if c == 'f' {
            let (r, e) = literal_from(t, q, "false"@, 0);
            (match r {
                Ok(_) => Ok(DocView::Bool(false)),
                Err(m) => Err(m),
            }, e)
        } else if c == '"' {
            let (r, e) = string_literal_at(t, q);
            (match r {
                Ok(s) => Ok(DocView::Str(s)),
                Err(m) => Err(m),
            }, e)
        } else if c == '[' {
            if q >= p {
                items_at(t, q + 1, seq![])
            } else {
                (Err(seq![]), q)
            }
        } else if c == '{' {
            if q >= p {
                members_at(t, q + 1, seq![])
            } else {
                (Err(seq![]), q)
            }
        } else if c == '-' || ('0' <= c && c <= '9') {
            let (r, e) = number_literal_at(t, q);
            (match r {
                Ok((s, f)) => Ok(DocView::Number(s, f)),
                Err(m) => Err(m),
            }, e)
        } else {
            (Err("unexpected character: "@ + seq![c]), q)
        }
    }
}

/// The rest of an array whose items so far are `acc`, from `p`.
pub open spec fn items_at(t: Seq<char>, p: nat, acc: Seq<DocView>) -> (Result<DocView, Seq<char>>, nat)
    decreases t.len() - p, 3int,
{
    let q = skip_ws_from(t, p);
    if q < t.len() && t[q as int] == ']' {
        (Ok(DocView::Array(acc)), q + 1)
    } else if q < p || p > t.len() || q > t.len() {
        (Err(seq![]), q)
    } else {
        let (v, q2) = value_at(t, q);
        match v {
            Err(m) => (Err(m), q2),
            Ok(x) => {
                let q3 = skip_ws_from(t, q2);
                if q3 < t.len() && t[q3 as int] == ']' {
                    (Ok(DocView::Array(acc.push(x))), q3 + 1)
                } else if q3 < t.len() && t[q3 as int] == ',' {
                    if q3 + 1 > p {
                        items_at(t, q3 + 1, acc.push(x))
                    } else {
                        (Err(seq![]), q3)
                    }
                } else if q3 < t.len() {
                    (Err(expect_message(',', Some(t[q3 as int]))), q3 + 1)
                } else {
                    (Err(expect_message(',', None)), q3)
                }
            },
        }
    }
}

/// The rest of an object whose members so far are `acc`, from `p`.
pub open spec fn members_at(t: Seq<char>, p: nat, acc: Seq<(Seq<char>, DocView)>) -> (Result<DocView, Seq<char>>, nat)
    decreases t.len() - p, 3int,
{
    let q = skip_ws_from(t, p);
    if q < t.len() && t[q as int] == '}' {
        (Ok(DocView::Object(acc)), q + 1)
    } else {
        let (k, q1) = string_literal_at(t, q);
        match k {
            Err(m) => (Err(m), q1),
            Ok(key) => {
                let q2 = skip_ws_from(t, q1);
                if !(q2 < t.len() && t[q2 as int] == ':') {
                    if q2 < t.len() {
                        (Err(expect_message(':', Some(t[q2 as int]))), q2 + 1)
                    } else {
                        (Err(expect_message(':', None)), q2)
                    }
                } else if q2 + 1 < p || p > t.len() {
                    (Err(seq![]), q2)
                } else {
                    let (v, q4) = value_at(t, q2 + 1);
                    match v {
                        Err(m) => (Err(m), q4),
                        Ok(x) => {
                            let q5 = skip_ws_from(t, q4);
                            if q5 < t.len() && t[q5 as int] == '}' {
                                (Ok(DocView::Object(acc.push((key, x)))), q5 + 1)
                            } else if q5 < t.len() && t[q5 as int] == ',' {
                                if q5 + 1 > p {
                                    members_at(t, q5 + 1, acc.push((key, x)))
                                } else {
                                    (Err(seq![]), q5)
                                }
                            } else if q5 < t.len() {
                                (Err(expect_message(',', Some(t[q5 as int]))), q5 + 1)
                            } else {
                                (Err(expect_message(',', None)), q5)
                            }
                        },
                    }
                }
            },
        }
    }
}

/// A whole text as one document: a value, then only whitespace.
pub open spec fn document_of(t: Seq<char>) -> Result<DocView, Seq<char>> {
    let (v, q) = value_at(t, 0);
    match v {
        Err(m) => Err(m),
        Ok(x) => if skip_ws_from(t, q) >= t.len() {
            Ok(x)
        } else {
            Err("unexpected trailing content"@)
        },
    }
}


proof fn lemma_skip_ws_bounds(t: Seq<char>, p: nat)
    ensures
        skip_ws_from(t, p) >= p,
        p <= t.len() ==> skip_ws_from(t, p) <= t.len(),
    decreases t.len() - p,
{
    if p < t.len() && crate::json::is_json_ws(t[p as int]) {
        lemma_skip_ws_bounds(t, p + 1);
    }
}

fn parse_literal(parser: &mut Parser, lit: &str) -> (r: Result<(), JsonError>)
    ensures
        final(parser).text() == old(parser).text(),
        old(parser).pos() <= final(parser).pos(),
        ({
            let (res, q) = literal_from(old(parser).text(), old(parser).pos(), lit@, 0);
            &&& final(parser).pos() == q
            &&& match res {
                Ok(_) => r is Ok,
                Err(m) => r matches Err(e) && e.message() == m,
            }
        }),
{
    let expected = chars_of(lit);
    let ghost t = parser.text();
    let ghost p = parser.pos();
    let mut k: usize = 0;
    while k < expected.len()
        invariant
            parser.text() == t,
            t == old(parser).text(),
            p == old(parser).pos(),
            expected@ == lit@,
            k <= expected@.len(),
            parser.pos() == p + k,
            literal_from(t, p, lit@, 0) == literal_from(t, p, lit@, k as nat),
        decreases expected.len() - k,
    {
        let c = parser.next();
        if c != Some(expected[k]) {
            let mut v = chars_of("invalid literal: expected ");
            push_str(&mut v, lit);
            return Err(JsonError::new(string_from_chars(&v).as_str()));
        }
        k += 1;
    }
    Ok(())
}

/// Reads one value (after any whitespace).
pub fn parse_value(parser: &mut Parser) -> (r: Result<JsonDoc, JsonError>)
    ensures
        final(parser).text() == old(parser).text(),
        old(parser).pos() <= final(parser).pos(),
        ({
            let (res, q) = value_at(old(parser).text(), old(parser).pos());
            &&& final(parser).pos() == q
            &&& match res {
                Ok(v) => r matches Ok(d) && doc_view(d) == v,
                Err(m) => r matches Err(e) && e.message() == m,
            }
        }),
    decreases old(parser).text().len() - old(parser).pos(), 2int,
{
    let ghost t = parser.text();
    let ghost p = parser.pos();
    parser.skip_whitespace();
    proof {
        lemma_skip_ws_bounds(t, p);
    }
    parser.pos_in_text();
    let q = parser.peek();
    match q {
        None => Err(JsonError::new("unexpected end of input")),
        Some(c) => {
            if c == 'n' {
                match parse_literal(parser, "null") {
                    Ok(()) => Ok(JsonDoc::Null),
                    Err(e) => Err(e),
                }
            } else if c == 't' {
                match parse_literal(parser, "true") {
                    Ok(()) => Ok(JsonDoc::Bool(true)),
                    Err(e) => Err(e),
                }
            } else if c == 'f' {
                match parse_literal(parser, "false") {
                    Ok(()) => Ok(JsonDoc::Bool(false)),
                    Err(e) => Err(e),
                }
            } else if c == '"' {
                match parser.parse_string() {
                    Ok(s) => Ok(JsonDoc::Str(s)),
                    Err(e) => Err(e),
                }
            } else if c == '[' {
                let _ = parser.next();
                parse_items(parser)
            } else if c == '{' {
                let _ = parser.next();
                parse_members(parser)
            } else if c == '-' || ('0' <= c && c <= '9') {
                match parser.scan_number() {
                    Ok((s, f)) => Ok(JsonDoc::Number(s, f)),
                    Err(e) => Err(e),
                }
            } else {
                let mut v = chars_of("unexpected character: ");
                v.push(c);
                Err(JsonError::new(string_from_chars(&v).as_str()))
            }
        },
    }
}

/// Reads the rest of an array, its `[` consumed.
fn parse_items(parser: &mut Parser) -> (r: Result<JsonDoc, JsonError>)
    requires
        old(parser).pos() <= old(parser).text().len(),
    ensures
        final(parser).text() == old(parser).text(),
        old(parser).pos() <= final(parser).pos(),
        ({
            let (res, q) = items_at(old(parser).text(), old(parser).pos(), seq![]);
            &&& final(parser).pos() == q
            &&& match res {
                Ok(v) => r matches Ok(d) && doc_view(d) == v,
                Err(m) => r matches Err(e) && e.message() == m,
            }
        }),
    decreases old(parser).text().len() - old(parser).pos(), 3int,
{
    let ghost t = parser.text();
    let ghost p0 = parser.pos();
    let mut items: Vec<JsonDoc> = Vec::new();
    loop
        invariant
            parser.text() == t,
            t == old(parser).text(),
            p0 == old(parser).pos(),
            p0 <= parser.pos() <= t.len(),
            items_at(t, p0, seq![]) == items_at(t, parser.pos(), docs_view(items@)),
        decreases t.len() - parser.pos(),
    {
        let ghost p = parser.pos();
        parser.skip_whitespace();
        proof {
            lemma_skip_ws_bounds(t, p);
        }
        if parser.try_consume(']') {
            return Ok(JsonDoc::Array(items));
        }
        let v = match parse_value(parser) {
            Ok(v) => v,
            Err(e) => {
                return Err(e);
            },
        };
        let ghost q2 = parser.pos();
        parser.skip_whitespace();
        proof {
            lemma_skip_ws_bounds(t, q2);
        }
        let ghost before = items@;
        items.push(v);
        proof {
            assert(items@.drop_last() =~= before);
        }
        if parser.try_consume(']') {
            return Ok(JsonDoc::Array(items));
        }
        match parser.expect(',') {
            Ok(()) => {},
            Err(e) => {
                return Err(e);
            },
        }
    }
}

/// Reads the rest of an object, its `{` consumed.
fn parse_members(parser: &mut Parser) -> (r: Result<JsonDoc, JsonError>)
    requires
        old(parser).pos() <= old(parser).text().len(),
    ensures
        final(parser).text() == old(parser).text(),
        old(parser).pos() <= final(parser).pos(),
        ({
            let (res, q) = members_at(old(parser).text(), old(parser).pos(), seq![]);
            &&& final(parser).pos() == q
            &&& match res {
                Ok(v) => r matches Ok(d) && doc_view(d) == v,
                Err(m) => r matches Err(e) && e.message() == m,
            }
        }),
    decreases old(parser).text().len() - old(parser).pos(), 3int,
{
    let ghost t = parser.text();
    let ghost p0 = parser.pos();
    let mut entries: Vec<(String, JsonDoc)> = Vec::new();
    loop
        invariant
            parser.text() == t,
            t == old(parser).text(),
            p0 == old(parser).pos(),
            p0 <= parser.pos() <= t.len(),
            members_at(t, p0, seq![]) == members_at(t, parser.pos(), entries_view(entries@)),
        decreases t.len() - parser.pos(),
    {
        let ghost p = parser.pos();
        parser.skip_whitespace();
        proof {
            lemma_skip_ws_bounds(t, p);
        }
        if parser.try_consume('}') {
            return Ok(JsonDoc::Object(entries));
        }
        let key = match parser.parse_string() {
            Ok(k) => k,
            Err(e) => {
                return Err(e);
            },
        };
        let ghost q1 = parser.pos();
        parser.skip_whitespace();
        proof {
            lemma_skip_ws_bounds(t, q1);
        }
        match parser.expect(':') {
            Ok(()) => {},
            Err(e) => {
                return Err(e);
            },
        }
        let v = match parse_value(parser) {
            Ok(v) => v,
            Err(e) => {
                return Err(e);
            },
        };
        let ghost q4 = parser.pos();
        parser.skip_whitespace();
        proof {
            lemma_skip_ws_bounds(t, q4);
        }
        let ghost before = entries@;
        let ghost kv = key@;
        let ghost vv = doc_view(v);
        entries.push((key, v));
        proof {
            assert(entries@.drop_last() =~= before);
        }
        if parser.try_consume('}') {
            return Ok(JsonDoc::Object(entries));
        }
        match parser.expect(',') {
            Ok(()) => {},
            Err(e) => {
                return Err(e);
            },
        }
    }
}

/// Reads a whole text as one document.
pub fn parse_document(source: &str) -> (r: Result<JsonDoc, JsonError>)
    ensures
        match document_of(source@) {
            Ok(v) => r matches Ok(d) && doc_view(d) == v,
            Err(m) => r matches Err(e) && e.message() == m,
        },
{
    let mut parser = Parser::new(source);
    let value = match parse_value(&mut parser) {
        Ok(v) => v,
        Err(e) => {
            return Err(e);
        },
    };
    parser.skip_whitespace();
    if parser.is_eof() {
        Ok(value)
    } else {
        Err(JsonError::new("unexpected trailing content"))
    }
}

} // verus!
