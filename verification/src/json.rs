//! JSON string rendering and the error type of the JSON helpers.
use vstd::prelude::*;

use crate::text::{chars_of, hex_digit_char, owned, push_str, string_from_chars};

verus! {

/// Error of the JSON helpers.
#[derive(Debug, Clone, PartialEq, Eq)]
pub struct JsonError {
    message: String,
}

impl JsonError {
    pub closed spec fn message(&self) -> Seq<char> {
        self.message@
    }

    pub fn new(message: &str) -> (r: Self)
        ensures
            r.message() == message@,
    {
        JsonError { message: owned(message) }
    }

    /// The error's message, as `Display` renders it.
    pub fn to_string(&self) -> (r: String)
        ensures
            r@ == self.message(),
    {
        self.message.clone()
    }
}

/// Control characters (general category Cc), as `char::is_control`.
pub open spec fn is_control(c: char) -> bool {
    (c as u32) <= 0x1f || (0x7f <= (c as u32) && (c as u32) <= 0x9f)
}

/// `\uXXXX` with four lower-case hexadecimal digits.
pub open spec fn unicode_escape(c: char) -> Seq<char> {
    let v = c as u32 as nat;
    seq![
        '\\',
        'u',
        hex_digit_char((v / 4096) % 16),
        hex_digit_char((v / 256) % 16),
        hex_digit_char((v / 16) % 16),
        hex_digit_char(v % 16),
    ]
}

/// How one character is written inside a JSON string.
pub open spec fn escape_json_char(c: char) -> Seq<char> {
    if c == '"' {
        seq!['\\', '"']
    } else if c == '\\' {
        seq!['\\', '\\']
    } else if c == '\n' {
        seq!['\\', 'n']
    } else if c == '\r' {
        seq!['\\', 'r']
    } else if c == '\t' {
        seq!['\\', 't']
    } else if c == '\u{08}' {
        seq!['\\', 'b']
    } else if c == '\u{0C}' {
        seq!['\\', 'f']
    } else if is_control(c) {
        unicode_escape(c)
    } else {
        seq![c]
    }
}

/// The escaped characters of a string, in order.
pub open spec fn escaped_json(s: Seq<char>) -> Seq<char>
    decreases s.len(),
{
    if s.len() == 0 {
        seq![]
    } else {
        escaped_json(s.drop_last()) + escape_json_char(s.last())
    }
}

fn push_unicode_escape(out: &mut Vec<char>, c: char)
    requires
        (c as u32) < 0x10000,
    ensures
        final(out)@ == old(out)@ + unicode_escape(c),
{
    let v = c as u32;
    out.push('\\');
    out.push('u');
    out.push(crate::text::hex_digit_to_char(((v / 4096) % 16) as u128));
    out.push(crate::text::hex_digit_to_char(((v / 256) % 16) as u128));
    out.push(crate::text::hex_digit_to_char(((v / 16) % 16) as u128));
    out.push(crate::text::hex_digit_to_char((v % 16) as u128));
    assert(final(out)@ =~= old(out)@ + unicode_escape(c));
}

/// Renders a string as a JSON string literal.
pub fn render_string(value: &str) -> (r: String)
    ensures
        r@ == seq!['"'] + escaped_json(value@) + seq!['"'],
{
    let s = chars_of(value);
    let mut out: Vec<char> = Vec::new();
    out.push('"');
    let mut i: usize = 0;
    while i < s.len()
        invariant
            i <= s.len(),
            out@ == seq!['"'] + escaped_json(s@.take(i as int)),
        decreases s.len() - i,
    {
        let c = s[i];
        assert(s@.take(i + 1).drop_last() =~= s@.take(i as int));
        let ghost before = out@;
        if c == '"' {
            out.push('\\');
            out.push('"');
        } else if c == '\\' {
            out.push('\\');
            out.push('\\');
        } else if c == '\n' {
            out.push('\\');
            out.push('n');
        } else if c == '\r' {
            out.push('\\');
            out.push('r');
        } else if c == '\t' {
            out.push('\\');
            out.push('t');
        } else if c == '\u{08}' {
            out.push('\\');
            out.push('b');
        } else if c == '\u{0C}' {
            out.push('\\');
            out.push('f');
        } else if (c as u32) <= 0x1f || (0x7f <= (c as u32) && (c as u32) <= 0x9f) {
            push_unicode_escape(&mut out, c);
        } else {
            out.push(c);
        }
        assert(out@ =~= before + escape_json_char(c));
        assert(out@ =~= seq!['"'] + escaped_json(s@.take(i + 1)));
        i += 1;
    }
    assert(s@.take(s.len() as int) =~= s@);
    out.push('"');
    string_from_chars(&out)
}


// ---------------------------------------------------------------------------
// Scanning JSON text.
// ---------------------------------------------------------------------------

/// JSON insignificant whitespace.
pub open spec fn is_json_ws(c: char) -> bool {
    c == ' ' || c == '\n' || c == '\r' || c == '\t'
}

/// The first position at or after `p` that is not whitespace.
pub open spec fn skip_ws_from(t: Seq<char>, p: nat) -> nat
    decreases t.len() - p,
{
    if p < t.len() && is_json_ws(t[p as int]) {
        skip_ws_from(t, p + 1)
    } else {
        p
    }
}

/// The message of a missing expected character.
pub open spec fn expect_message(expected: char, found: Option<char>) -> Seq<char> {
    match found {
        Some(a) => "expected '"@ + seq![expected] + "', found '"@ + seq![a] + "'"@,
        None => "expected '"@ + seq![expected] + "', found end of input"@,
    }
}

/// The character a one-letter escape stands for.
pub open spec fn simple_escape(c: char) -> Option<char> {
    if c == '"' {
        Some('"')
    } else if c == '\\' {
        Some('\\')
    } else if c == '/' {
        Some('/')
    } else if c == 'b' {
        Some('\u{08}')
    } else if c == 'f' {
        Some('\u{0C}')
    } else if c == 'n' {
        Some('\n')
    } else if c == 'r' {
        Some('\r')
    } else if c == 't' {
        Some('\t')
    } else {
        None
    }
}

/// The value of a hexadecimal digit, as `char::to_digit(16)`.
pub open spec fn hex_value(c: char) -> Option<nat> {
    if '0' <= c && c <= '9' {
        Some((c as nat - '0' as nat) as nat)
    } else if 'a' <= c && c <= 'f' {
        Some((c as nat - 'a' as nat + 10) as nat)
    } else if 'A' <= c && c <= 'F' {
        Some((c as nat - 'A' as nat + 10) as nat)
    } else {
        None
    }
}

/// Reading the hexadecimal digits of a `\u` escape from position `p`,
/// `k` of four read so far with value `acc`: the value and the position
/// after, or the error and the position where reading stopped.
pub open spec fn unicode_scan(t: Seq<char>, p: nat, k: nat, acc: nat) -> (Result<nat, Seq<char>>, nat)
    decreases 4 - k,
{
    if k >= 4 {
        (Ok(acc), p)
    } else if p >= t.len() {
        (Err("unexpected end of input in unicode escape"@), p)
    } else {
        match hex_value(t[p as int]) {
            Some(d) => unicode_scan(t, p + 1, k + 1, acc * 16 + d),
            None => (Err("invalid unicode escape"@), p + 1),
        }
    }
}

/// The character of the `\u` escape whose digits start at `p`.
pub open spec fn unicode_escape_at(t: Seq<char>, p: nat) -> (Result<char, Seq<char>>, nat) {
    let (r, q) = unicode_scan(t, p, 0, 0);
    match r {
        Ok(v) => if v < 0x10000 && vstd::utf8::is_scalar(v as u32) {
            (Ok((v as u32) as char), q)
        } else {
            (Err("invalid unicode scalar value"@), q)
        },
        Err(m) => (Err(m), q),
    }
}

/// The character of the escape whose letter is at `p` (after a backslash).
pub open spec fn escape_at(t: Seq<char>, p: nat) -> (Result<char, Seq<char>>, nat) {
    if p >= t.len() {
        (Err("unexpected end of input in escape sequence"@), p)
    } else if simple_escape(t[p as int]) is Some {
        (Ok(simple_escape(t[p as int])->0), p + 1)
    } else if t[p as int] == 'u' {
        unicode_escape_at(t, p + 1)
    } else {
        (Err("invalid escape sequence: "@ + seq![t[p as int]]), p + 1)
    }
}

/// The rest of a string literal from `p` (after its opening quote), with
/// `acc` decoded so far: the decoded string and the position after the
/// closing quote, or the error and where reading stopped.
pub open spec fn string_body(t: Seq<char>, p: nat, acc: Seq<char>) -> (Result<Seq<char>, Seq<char>>, nat)
    decreases t.len() - p,
{
    if p >= t.len() {
        (Err("unterminated string"@), p)
    } else if t[p as int] == '"' {
        (Ok(acc), p + 1)
    } else if t[p as int] == '\\' {
        let (r, q) = escape_at(t, p + 1);
        match r {
            Ok(c) => if p < q && q <= t.len() {
                string_body(t, q, acc.push(c))
            } else {
                (Err("unterminated string"@), q)
            },
            Err(m) => (Err(m), q),
        }
    } else {
        string_body(t, p + 1, acc.push(t[p as int]))
    }
}

/// A string literal at `p`: its decoded text and the position after it.
pub open spec fn string_literal_at(t: Seq<char>, p: nat) -> (Result<Seq<char>, Seq<char>>, nat) {
    if p >= t.len() {
        (Err(expect_message('"', None)), p)
    } else if t[p as int] != '"' {
        (Err(expect_message('"', Some(t[p as int]))), p + 1)
    } else {
        string_body(t, p + 1, seq![])
    }
}

/// The first position at or after `p` that is not an ASCII digit.
pub open spec fn digits_end(t: Seq<char>, p: nat) -> nat
    decreases t.len() - p,
{
    if p < t.len() && crate::text::is_ascii_digit(t[p as int]) {
        digits_end(t, p + 1)
    } else {
        p
    }
}

/// Where the parts of a number literal starting at `p` end: after the
/// sign, the integer digits, the fraction and the exponent.
pub open spec fn number_ends(t: Seq<char>, p: nat) -> (nat, nat, nat, nat) {
    let p1 = if p < t.len() && t[p as int] == '-' {
        p + 1
    } else {
        p
    };
    let p2 = digits_end(t, p1);
    let p3 = if p2 < t.len() && t[p2 as int] == '.' {
        digits_end(t, p2 + 1)
    } else {
        p2
    };
    let p4 = if p3 < t.len() && (t[p3 as int] == 'e' || t[p3 as int] == 'E') {
        let q = if p3 + 1 < t.len() && (t[p3 + 1 as int] == '+' || t[p3 + 1 as int] == '-') {
            p3 + 2
        } else {
            p3 + 1
        };
        digits_end(t, q)
    } else {
        p3
    };
    (p1, p2, p3, p4)
}

/// The number literal at `p`: its text, whether it has a fraction or an
/// exponent, and the position after it; an empty literal or a lone `-` is
/// an error.
pub open spec fn number_literal_at(t: Seq<char>, p: nat) -> (Result<(Seq<char>, bool), Seq<char>>, nat) {
    let (p1, p2, p3, p4) = number_ends(t, p);
    let token = t.subrange(p as int, p4 as int);
    let is_float = (p2 < t.len() && t[p2 as int] == '.') || (p3 < t.len() && (t[p3 as int] == 'e'
        || t[p3 as int] == 'E'));
    if token.len() == 0 || token == seq!['-'] {
        (Err("invalid number"@), p4)
    } else {
        (Ok((token, is_float)), p4)
    }
}

/// What `str::parse::<i64>` gives: an optional sign and one or more
/// digits, in range.
pub open spec fn parse_i64_spec(s: Seq<char>) -> Option<int> {
    if s.len() > 0 && s[0] == '-' {
        let b = s.drop_first();
        if b.len() > 0 && crate::text::all_digits(b) && crate::text::digits_value(b) <= 0x8000_0000_0000_0000 {
            Some(-(crate::text::digits_value(b) as int))
        } else {
            None
        }
    } else {
        match crate::text::parse_unsigned(s, 0x7fff_ffff_ffff_ffff) {
            Some(v) => Some(v as int),
            None => None,
        }
    }
}

/// Parses a decimal integer as `i64`.
pub fn parse_i64(token: &str) -> (r: Option<i64>)
    ensures
        match r {
            Some(v) => parse_i64_spec(token@) == Some(v as int),
            None => parse_i64_spec(token@) is None,
        },
{
    let c = chars_of(token);
    if c.len() > 0 && c[0] == '-' {
        let body = crate::text::slice_to_vec(&c, 1, c.len());
        assert(body@ =~= token@.drop_first());
        if body.len() == 0 || body[0] == '+' {
            proof {
                if body@.len() > 0 {
                    assert(!crate::text::is_ascii_digit(body@[0]));
                }
            }
            return None;
        }
        match crate::text::parse_unsigned_chars(&body, 0x8000_0000_0000_0000) {
            Some(v) => {
                if v == 0x8000_0000_0000_0000 {
                    Some(i64::MIN)
                } else {
                    Some(-(v as i64))
                }
            },
            None => None,
        }
    } else {
        match crate::text::parse_unsigned_chars(&c, 0x7fff_ffff_ffff_ffff) {
            Some(v) => Some(v as i64),
            None => None,
        }
    }
}

/// Calls `char::from_u32`. Trusted: std documents that it returns `None`
/// exactly for values that are not Unicode scalar values (surrogates and
/// values above 0x10FFFF), and otherwise the character with that code.
#[verifier::external_body]
fn char_from_u32(v: u32) -> (r: Option<char>)
    ensures
        r is Some <==> vstd::utf8::is_scalar(v),
        r matches Some(c) ==> c as u32 == v,
{
    char::from_u32(v)
}

/// A cursor over the characters of a JSON text.
pub struct Parser {
    chars: Vec<char>,
    index: usize,
}

impl Parser {
    #[verifier::type_invariant]
    spec fn inv(&self) -> bool {
        self.index <= self.chars@.len()
    }

    /// The text being read.
    pub closed spec fn text(&self) -> Seq<char> {
        self.chars@
    }

    /// The position of the next character to read.
    pub closed spec fn pos(&self) -> nat {
        self.index as nat
    }

    /// A cursor at the start of `source`.
    pub fn new(source: &str) -> (r: Self)
        ensures
            r.text() == source@,
            r.pos() == 0,
    {
        Parser { chars: chars_of(source), index: 0 }
    }

    /// The next character, without reading it.
    pub fn peek(&self) -> (r: Option<char>)
        ensures
            r == (if self.pos() < self.text().len() {
                Some(self.text()[self.pos() as int])
            } else {
                None
            }),
    {
        if self.index < self.chars.len() {
            Some(self.chars[self.index])
        } else {
            None
        }
    }

    /// Reads the next character.
    pub fn next(&mut self) -> (r: Option<char>)
        ensures
            final(self).text() == old(self).text(),
            r == (if old(self).pos() < old(self).text().len() {
                Some(old(self).text()[old(self).pos() as int])
            } else {
                None
            }),
            final(self).pos() == (if r is Some {
                old(self).pos() + 1
            } else {
                old(self).pos()
            }),
    {
        proof {
            use_type_invariant(&*self);
        }
        if self.index < self.chars.len() {
            let c = self.chars[self.index];
            self.index = self.index + 1;
            Some(c)
        } else {
            None
        }
    }

    /// Whether the whole text has been read.
    /// The position never passes the end of the text.
    pub(crate) fn pos_in_text(&self)
        ensures
            self.pos() <= self.text().len(),
    {
        proof {
            use_type_invariant(self);
        }
    }

    pub fn is_eof(&self) -> (r: bool)
        ensures
            r == (self.pos() >= self.text().len()),
    {
        self.index >= self.chars.len()
    }

    /// Reads the next character when it is `expected`.
    pub fn try_consume(&mut self, expected: char) -> (r: bool)
        ensures
            final(self).text() == old(self).text(),
            r == (old(self).pos() < old(self).text().len() && old(self).text()[old(self).pos() as int]
                == expected),
            final(self).pos() == (if r {
                old(self).pos() + 1
            } else {
                old(self).pos()
            }),
    {
        proof {
            use_type_invariant(&*self);
        }
        if self.index < self.chars.len() && self.chars[self.index] == expected {
            self.index = self.index + 1;
            true
        } else {
            false
        }
    }

    /// Skips spaces, tabs and line breaks.
    pub fn skip_whitespace(&mut self)
        ensures
            final(self).text() == old(self).text(),
            final(self).pos() == skip_ws_from(old(self).text(), old(self).pos()),
    {
        proof {
            use_type_invariant(&*self);
        }
        while self.index < self.chars.len() && (self.chars[self.index] == ' ' || self.chars[self.index]
            == '\n' || self.chars[self.index] == '\r' || self.chars[self.index] == '\t')
            invariant
                self.chars@ == old(self).text(),
                old(self).pos() <= self.index <= self.chars@.len(),
                skip_ws_from(self.chars@, self.index as nat) == skip_ws_from(old(self).text(), old(self).pos()),
            decreases self.chars@.len() - self.index,
        {
            self.index = self.index + 1;
        }
    }

    /// Reads the character `expected`, or fails naming what was found.
    pub fn expect(&mut self, expected: char) -> (r: Result<(), JsonError>)
        ensures
            final(self).text() == old(self).text(),
            ({
                let t = old(self).text();
                let p = old(self).pos();
                if p < t.len() && t[p as int] == expected {
                    r is Ok && final(self).pos() == p + 1
                } else if p < t.len() {
                    r matches Err(e) && e.message() == expect_message(expected, Some(t[p as int]))
                        && final(self).pos() == p + 1
                } else {
                    r matches Err(e) && e.message() == expect_message(expected, None) && final(self).pos() == p
                }
            }),
    {
        match self.next() {
            Some(actual) => {
                if actual == expected {
                    Ok(())
                } else {
                    let mut v: Vec<char> = Vec::new();
                    push_str(&mut v, "expected '");
                    v.push(expected);
                    push_str(&mut v, "', found '");
                    v.push(actual);
                    push_str(&mut v, "'");
                    Err(JsonError { message: string_from_chars(&v) })
                }
            },
            None => {
                let mut v: Vec<char> = Vec::new();
                push_str(&mut v, "expected '");
                v.push(expected);
                push_str(&mut v, "', found end of input");
                Err(JsonError { message: string_from_chars(&v) })
            },
        }
    }

    /// Reads the four hexadecimal digits of a `\u` escape.
    pub fn parse_unicode_escape(&mut self) -> (r: Result<char, JsonError>)
        ensures
            final(self).text() == old(self).text(),
            final(self).pos() >= old(self).pos(),
            ({
                let (res, q) = unicode_escape_at(old(self).text(), old(self).pos());
                &&& final(self).pos() == q
                &&& match res {
                    Ok(c) => r == Ok::<char, JsonError>(c),
                    Err(m) => r matches Err(e) && e.message() == m,
                }
            }),
    {
        let ghost t = self.text();
        let ghost p0 = self.pos();
        let mut value: u32 = 0;
        let mut k: usize = 0;
        proof {
            lemma_pow16_values();
        }
        while k < 4
            invariant
                self.text() == t,
                t == old(self).text(),
                p0 == old(self).pos(),
                k <= 4,
                self.pos() >= p0,
                (value as nat) < pow16(k as nat),
                pow16(0) == 1 && pow16(1) == 16 && pow16(2) == 256 && pow16(3) == 4096 && pow16(4) == 65536,
                unicode_scan(t, self.pos(), k as nat, value as nat) == unicode_scan(t, p0, 0, 0),
            decreases 4 - k,
        {
            match self.next() {
                None => {
                    return Err(JsonError::new("unexpected end of input in unicode escape"));
                },
                Some(ch) => {
                    let d: u32 = if '0' <= ch && ch <= '9' {
                        (ch as u32) - ('0' as u32)
                    } else if 'a' <= ch && ch <= 'f' {
                        (ch as u32) - ('a' as u32) + 10
                    } else if 'A' <= ch && ch <= 'F' {
                        (ch as u32) - ('A' as u32) + 10
                    } else {
                        return Err(JsonError::new("invalid unicode escape"));
                    };
                    assert(hex_value(ch) == Some(d as nat));
                    assert(pow16(k as nat + 1) == 16 * pow16(k as nat));
                    value = value * 16 + d;
                    k += 1;
                },
            }
        }
        assert(unicode_scan(t, self.pos(), 4, value as nat) == (Ok::<nat, Seq<char>>(value as nat), self.pos()));
        match char_from_u32(value) {
            Some(c) => {
                proof {
                    vstd::utf8::char_u32_cast(c, value);
                }
                assert(c == value as char);
                Ok(c)
            },
            None => Err(JsonError::new("invalid unicode scalar value")),
        }
    }
}

impl Parser {
    /// Reads the letter of an escape sequence (after its backslash).
    pub fn parse_escape(&mut self) -> (r: Result<char, JsonError>)
        ensures
            final(self).text() == old(self).text(),
            final(self).pos() >= old(self).pos(),
            ({
                let (res, q) = escape_at(old(self).text(), old(self).pos());
                &&& final(self).pos() == q
                &&& match res {
                    Ok(c) => r == Ok::<char, JsonError>(c),
                    Err(m) => r matches Err(e) && e.message() == m,
                }
            }),
    {
        match self.next() {
            Some(c) => {
                if c == '"' {
                    Ok('"')
                } else if c == '\\' {
                    Ok('\\')
                } else if c == '/' {
                    Ok('/')
                } else if c == 'b' {
                    Ok('\u{08}')
                } else if c == 'f' {
                    Ok('\u{0C}')
                } else if c == 'n' {
                    Ok('\n')
                } else if c == 'r' {
                    Ok('\r')
                } else if c == 't' {
                    Ok('\t')
                } else if c == 'u' {
                    self.parse_unicode_escape()
                } else {
                    let mut v: Vec<char> = Vec::new();
                    push_str(&mut v, "invalid escape sequence: ");
                    v.push(c);
                    Err(JsonError { message: string_from_chars(&v) })
                }
            },
            None => Err(JsonError::new("unexpected end of input in escape sequence")),
        }
    }

    /// Reads a string literal and decodes its escapes.
    pub fn parse_string(&mut self) -> (r: Result<String, JsonError>)
        ensures
            final(self).text() == old(self).text(),
            old(self).pos() <= final(self).pos() <= final(self).text().len(),
            ({
                let (res, q) = string_literal_at(old(self).text(), old(self).pos());
                &&& final(self).pos() == q
                &&& match res {
                    Ok(v) => r matches Ok(s) && s@ == v,
                    Err(m) => r matches Err(e) && e.message() == m,
                }
            }),
    {
        let ghost t = self.text();
        let ghost p0 = self.pos();
        match self.expect('"') {
            Ok(()) => {},
            Err(e) => {
                proof {
                    use_type_invariant(&*self);
                }
                return Err(e);
            },
        }
        assert(string_literal_at(t, p0) == string_body(t, p0 + 1, seq![]));
        let mut value: Vec<char> = Vec::new();
        assert(value@ =~= seq![]);
        loop
            invariant
                self.text() == t,
                t == old(self).text(),
                p0 == old(self).pos(),
                p0 < self.pos() <= t.len(),
                string_literal_at(t, p0) == string_body(t, p0 + 1, seq![]),
                string_body(t, self.pos(), value@) == string_body(t, p0 + 1, seq![]),
            decreases t.len() - self.pos(),
        {
            let ghost p = self.pos();
            match self.next() {
                None => {
                    assert(string_body(t, p, value@) == (
                    Err::<Seq<char>, Seq<char>>("unterminated string"@), p));
                    return Err(JsonError::new("unterminated string"));
                },
                Some(ch) => {
                    if ch == '"' {
                        assert(string_body(t, p, value@) == (Ok::<Seq<char>, Seq<char>>(value@), p + 1));
                        return Ok(string_from_chars(&value));
                    } else if ch == '\\' {
                        let ghost before = value@;
                        match self.parse_escape() {
                            Ok(c) => {
                                proof {
                                    use_type_invariant(&*self);
                                    let (res, q) = escape_at(t, p + 1);
                                    lemma_escape_advances(t, p + 1);
                                    assert(res == Ok::<char, Seq<char>>(c));
                                    assert(q == self.pos());
                                    assert(p < q <= t.len());
                                    assert(string_body(t, p, before) == string_body(t, q, before.push(c)));
                                }
                                value.push(c);
                            },
                            Err(e) => {
                                proof {
                                    use_type_invariant(&*self);
                                    let (res, q) = escape_at(t, p + 1);
                                    lemma_escape_advances(t, p + 1);
                                    assert(res is Err);
                                    assert(string_body(t, p, before) == (Err::<Seq<char>, Seq<char>>(
                                        res->Err_0,
                                    ), q));
                                }
                                return Err(e);
                            },
                        }
                    } else {
                        assert(string_body(t, p, value@) == string_body(t, p + 1, value@.push(ch)));
                        value.push(ch);
                    }
                },
            }
        }
    }

    proof fn lemma_digits_end_ge(t: Seq<char>, p: nat)
        ensures
            digits_end(t, p) >= p,
            p <= t.len() ==> digits_end(t, p) <= t.len(),
        decreases t.len() - p,
    {
        if p < t.len() && crate::text::is_ascii_digit(t[p as int]) {
            Self::lemma_digits_end_ge(t, p + 1);
        }
    }

    fn skip_digits(&mut self)
        ensures
            final(self).text() == old(self).text(),
            final(self).pos() == digits_end(old(self).text(), old(self).pos()),
            final(self).pos() >= old(self).pos(),
    {
        proof {
            use_type_invariant(&*self);
            Self::lemma_digits_end_ge(self.text(), self.pos());
        }
        while self.index < self.chars.len() && '0' <= self.chars[self.index] && self.chars[self.index] <= '9'
            invariant
                self.chars@ == old(self).text(),
                old(self).pos() <= self.index <= self.chars@.len(),
                digits_end(self.chars@, self.index as nat) == digits_end(old(self).text(), old(self).pos()),
            decreases self.chars@.len() - self.index,
        {
            self.index = self.index + 1;
        }
    }

    /// Reads a number literal: an optional minus, digits, an optional
    /// fraction and an optional exponent. Returns its text and whether it
    /// has a fraction or an exponent.
    pub fn scan_number(&mut self) -> (r: Result<(String, bool), JsonError>)
        ensures
            final(self).text() == old(self).text(),
            old(self).pos() <= final(self).pos() <= final(self).text().len(),
            ({
                let (res, q) = number_literal_at(old(self).text(), old(self).pos());
                &&& final(self).pos() == q
                &&& match res {
                    Ok((token, f)) => r matches Ok((s, b)) && s@ == token && b == f,
                    Err(m) => r matches Err(e) && e.message() == m,
                }
            }),
    {
        proof {
            use_type_invariant(&*self);
        }
        let ghost t = self.text();
        let start = self.index;
        self.try_consume('-');
        self.skip_digits();
        let mut is_float = false;
        if self.try_consume('.') {
            is_float = true;
            self.skip_digits();
        }
        let e = self.peek();
        if e == Some('e') || e == Some('E') {
            is_float = true;
            self.next();
            let sign = self.peek();
            if sign == Some('+') || sign == Some('-') {
                self.next();
            }
            self.skip_digits();
        }
        proof {
            use_type_invariant(&*self);
        }
        let token = crate::text::slice_to_vec(&self.chars, start, self.index);
        if token.len() == 0 || (token.len() == 1 && token[0] == '-') {
            proof {
                if token@.len() == 1 && token@[0] == '-' {
                    assert(token@ =~= seq!['-']);
                }
            }
            return Err(JsonError::new("invalid number"));
        }
        assert(token@ != seq!['-']) by {
            if token@ =~= seq!['-'] {
                assert(token@.len() == 1);
            }
        }
        Ok((string_from_chars(&token), is_float))
    }
}

proof fn lemma_unicode_scan_advances(t: Seq<char>, p: nat, k: nat, acc: nat)
    requires
        k <= 4,
    ensures
        unicode_scan(t, p, k, acc).1 >= p,
        unicode_scan(t, p, k, acc).0 is Ok ==> unicode_scan(t, p, k, acc).1 == p + (4 - k),
    decreases 4 - k,
{
    if k < 4 && p < t.len() {
        if let Some(d) = hex_value(t[p as int]) {
            lemma_unicode_scan_advances(t, p + 1, k + 1, acc * 16 + d);
        }
    }
}

proof fn lemma_escape_advances(t: Seq<char>, p: nat)
    ensures
        escape_at(t, p).0 is Ok ==> escape_at(t, p).1 > p,
{
    lemma_unicode_scan_advances(t, p + 1, 0, 0);
}

pub open spec fn pow16(n: nat) -> nat
    decreases n,
{
    if n == 0 {
        1
    } else {
        16 * pow16((n - 1) as nat)
    }
}

proof fn lemma_pow16_values()
    ensures
        pow16(0) == 1 && pow16(1) == 16 && pow16(2) == 256 && pow16(3) == 4096 && pow16(4) == 65536,
{
    reveal_with_fuel(pow16, 5);
}

// ---------------------------------------------------------------------------
// Reading back what was rendered.
// ---------------------------------------------------------------------------

/// The JSON string literal `render_string` writes for a text.
pub open spec fn rendered_string(s: Seq<char>) -> Seq<char> {
    seq!['"'] + escaped_json(s) + seq!['"']
}

proof fn lemma_hex_digit_read(d: nat)
    requires
        d < 16,
    ensures
        hex_value(hex_digit_char(d)) == Some(d),
{
    if d < 10 {
        assert(crate::text::digit_char(d) as nat == d + '0' as nat);
    }
}

proof fn lemma_escape_read(t: Seq<char>, k: nat, acc: Seq<char>, c: char)
    requires
        k + escape_json_char(c).len() <= t.len(),
        t.subrange(k as int, (k + escape_json_char(c).len()) as int) == escape_json_char(c),
    ensures
        string_body(t, k, acc) == string_body(t, k + escape_json_char(c).len(), acc.push(c)),
{
    let e = escape_json_char(c);
    assert(forall|j: int| 0 <= j < e.len() ==> t[k + j] == #[trigger] e[j]) by {
        assert forall|j: int| 0 <= j < e.len() implies t[k + j] == #[trigger] e[j] by {
            assert(t.subrange(k as int, (k + e.len()) as int)[j] == t[k + j]);
        }
    }
    if c == '"' || c == '\\' || c == '\n' || c == '\r' || c == '\t' || c == '\u{08}' || c == '\u{0C}' {
        assert(t[k as int] == '\\');
        assert(escape_at(t, k + 1) == (Ok::<char, Seq<char>>(c), k + 2));
    } else if is_control(c) {
        let v = c as u32 as nat;
        assert(v < 0xa0);
        let d3 = (v / 4096) % 16;
        let d2 = (v / 256) % 16;
        let d1 = (v / 16) % 16;
        let d0 = v % 16;
        lemma_hex_digit_read(d3);
        lemma_hex_digit_read(d2);
        lemma_hex_digit_read(d1);
        lemma_hex_digit_read(d0);
        assert(t[(k + 1) as int] == 'u');
        assert(t[(k + 2) as int] == hex_digit_char(d3));
        assert(t[(k + 3) as int] == hex_digit_char(d2));
        assert(t[(k + 4) as int] == hex_digit_char(d1));
        assert(t[(k + 5) as int] == hex_digit_char(d0));
        assert(((d3 * 16 + d2) * 16 + d1) * 16 + d0 == v);
        assert(unicode_scan(t, k + 6, 4, v) == (Ok::<nat, Seq<char>>(v), k + 6));
        assert(unicode_scan(t, k + 5, 3, (d3 * 16 + d2) * 16 + d1) == unicode_scan(t, k + 6, 4, v));
        assert(unicode_scan(t, k + 4, 2, d3 * 16 + d2) == unicode_scan(
            t,
            k + 5,
            3,
            (d3 * 16 + d2) * 16 + d1,
        ));
        assert(unicode_scan(t, k + 3, 1, d3) == unicode_scan(t, k + 4, 2, d3 * 16 + d2));
        assert(unicode_scan(t, k + 2, 0, 0) == unicode_scan(t, k + 3, 1, d3));
        vstd::utf8::char_is_scalar(c);
        vstd::utf8::char_u32_cast(c, c as u32);
        assert(unicode_escape_at(t, k + 2) == (Ok::<char, Seq<char>>(c), k + 6));
        assert(escape_at(t, k + 1) == (Ok::<char, Seq<char>>(c), k + 6));
    } else {
        assert(e[0] == c);
        assert(t[k as int + 0] == e[0]);
    }
}

proof fn lemma_escaped_read(t: Seq<char>, p: nat, acc: Seq<char>, s: Seq<char>)
    requires
        p + escaped_json(s).len() <= t.len(),
        t.subrange(p as int, (p + escaped_json(s).len()) as int) == escaped_json(s),
    ensures
        string_body(t, p, acc) == string_body(t, p + escaped_json(s).len(), acc + s),
    decreases s.len(),
{
    if s.len() == 0 {
        assert(acc + s =~= acc);
    } else {
        let init = s.drop_last();
        let c = s.last();
        let a = escaped_json(init);
        let e = escape_json_char(c);
        assert(escaped_json(s) == a + e);
        assert(t.subrange(p as int, (p + a.len()) as int) =~= a) by {
            assert(t.subrange(p as int, (p + a.len()) as int) =~= t.subrange(p as int, (p + escaped_json(s).len()) as int).subrange(
                0,
                a.len() as int,
            ));
        }
        lemma_escaped_read(t, p, acc, init);
        let k = p + a.len();
        assert(t.subrange(k as int, (k + e.len()) as int) =~= e) by {
            assert(t.subrange(k as int, (k + e.len()) as int) =~= t.subrange(p as int, (p + escaped_json(s).len()) as int).subrange(
                a.len() as int,
                (a.len() + e.len()) as int,
            ));
        }
        lemma_escape_read(t, k as nat, acc + init, c);
        assert((acc + init).push(c) =~= acc + s);
    }
}

/// Reading back a rendered string literal gives the original text and
/// stops right after the literal.
pub proof fn law_string_round_trip(s: Seq<char>)
    ensures
        string_literal_at(rendered_string(s), 0) == (Ok::<Seq<char>, Seq<char>>(s), rendered_string(s).len()),
{
    let t = rendered_string(s);
    let body = escaped_json(s);
    assert(t.subrange(1, (1 + body.len()) as int) =~= body);
    lemma_escaped_read(t, 1, seq![], s);
    assert(seq![] + s =~= s);
    assert(t[(1 + body.len()) as int] == '"');
    assert(string_body(t, 1 + body.len(), s) == (Ok::<Seq<char>, Seq<char>>(s), t.len()));
}

} // verus!
