//! The JSON-RPC layer between the runtime and a language server: how
//! messages are framed on the wire, how header lines are read back, and how
//! a reply is checked against the request it answers. Moving the bytes is
//! the caller's part.
use vstd::prelude::*;

use crate::json_node::{node_get, JsonNode};
use crate::lsp_types::LspId;
use crate::text::{
    digit_value, all_digits, chars_eq_ignore_ascii_case, chars_of, dec_string, digits_value, eq_ignore_ascii_case,
    find_char, is_ascii_digit, owned, parse_unsigned, parse_unsigned_chars, push_decimal, push_str,
    slice_to_vec, split_once_at, string_from_chars, trim, trim_chars,
};

verus! {

// ---------------------------------------------------------------------------
// Frames.
// ---------------------------------------------------------------------------

/// The header that precedes a payload of `len` bytes.
pub open spec fn frame_header_text(len: nat) -> Seq<char> {
    "Content-Length: "@ + dec_string(len) + "\r\n\r\n"@
}

/// The bytes of an ASCII text.
pub open spec fn ascii_bytes(s: Seq<char>) -> Seq<u8> {
    s.map_values(|c: char| (c as u32) as u8)
}

/// The header of a frame that carries `len` bytes.
pub fn frame_header(len: usize) -> (r: String)
    ensures
        r@ == frame_header_text(len as nat),
{
    let mut v = chars_of("Content-Length: ");
    push_decimal(&mut v, len as u64);
    push_str(&mut v, "\r\n\r\n");
    string_from_chars(&v)
}

/// A payload framed for the wire: its header, then the payload itself.
pub fn encode_frame(payload: &[u8]) -> (r: Vec<u8>)
    ensures
        r@ == ascii_bytes(frame_header_text(payload@.len())) + payload@,
{
    let header = frame_header(payload.len());
    let hv = chars_of(header.as_str());
    let mut out: Vec<u8> = Vec::new();
    let mut i: usize = 0;
    while i < hv.len()
        invariant
            i <= hv@.len(),
            out@ == ascii_bytes(hv@.take(i as int)),
        decreases hv.len() - i,
    {
        out.push((hv[i] as u32) as u8);
        i += 1;
        assert(out@ =~= ascii_bytes(hv@.take(i as int)));
    }
    assert(hv@.take(hv@.len() as int) =~= hv@);
    let mut j: usize = 0;
    let ghost head = out@;
    while j < payload.len()
        invariant
            j <= payload@.len(),
            out@ == head + payload@.take(j as int),
        decreases payload.len() - j,
    {
        out.push(payload[j]);
        j += 1;
        assert(out@ =~= head + payload@.take(j as int));
    }
    assert(payload@.take(payload@.len() as int) =~= payload@);
    out
}

// ---------------------------------------------------------------------------
// Reading a header back.
// ---------------------------------------------------------------------------

/// A line without its trailing carriage returns and line feeds.
pub open spec fn strip_line_end(s: Seq<char>) -> Seq<char>
    decreases s.len(),
{
    if s.len() > 0 && (s.last() == '\r' || s.last() == '\n') {
        strip_line_end(s.drop_last())
    } else {
        s
    }
}

/// The value a header line gives to `Content-Length` (its name compared
/// without regard to ASCII case), trimmed; none for other lines.
pub open spec fn content_length_value(line: Seq<char>) -> Option<Seq<char>> {
    match split_once_at(strip_line_end(line), ':') {
        Some((name, value)) => if eq_ignore_ascii_case(trim(name), "Content-Length"@) {
            Some(trim(value))
        } else {
            None
        },
        None => None,
    }
}

/// The digits after an optional leading `+`.
pub open spec fn unsigned_body(s: Seq<char>) -> Seq<char> {
    if s.len() > 0 && s[0] == '+' {
        s.drop_first()
    } else {
        s
    }
}

/// Some run of leading digits already exceeds `max`.
pub open spec fn overflows_prefix(body: Seq<char>, max: nat) -> bool {
    exists|k: int| 0 <= k <= body.len() && all_digits(body.take(k)) && #[trigger] digits_value(body.take(k)) > max
}

/// The text of the error that parsing `s` as an unsigned integer whose
/// largest value is `max` gives, when it fails.
pub open spec fn int_error_text(s: Seq<char>, max: nat) -> Seq<char> {
    if s.len() == 0 {
        "cannot parse integer from empty string"@
    } else if overflows_prefix(unsigned_body(s), max) {
        "number too large to fit in target type"@
    } else {
        "invalid digit found in string"@
    }
}

/// `s` parsed as a `usize`, or the text of the error.
pub open spec fn usize_parse(s: Seq<char>) -> Result<nat, Seq<char>> {
    match parse_unsigned(s, usize::MAX as nat) {
        Some(n) => Ok(n),
        None => Err(int_error_text(s, usize::MAX as nat)),
    }
}

fn overflows(s: &[char], max: u64) -> (r: bool)
    ensures
        r == overflows_prefix(unsigned_body(s@), max as nat),
{
    let start: usize = if s.len() > 0 && s[0] == '+' {
        1
    } else {
        0
    };
    let ghost body = unsigned_body(s@);
    assert(body =~= s@.skip(start as int));
    let mut value: u64 = 0;
    let mut i = start;
    while i < s.len()
        invariant
            start <= i <= s.len(),
            body == s@.skip(start as int),
            body == unsigned_body(s@),
            value <= max,
            all_digits(body.take(i - start)),
            value as nat == digits_value(body.take(i - start)),
        decreases s.len() - i,
    {
        let c = s[i];
        if !('0' <= c && c <= '9') {
            proof {
                assert forall|k: int| 0 <= k <= body.len() && all_digits(body.take(k)) implies !(
                #[trigger] digits_value(body.take(k)) > max) by {
                    if k > i - start {
                        assert(body.take(k)[i - start] == c);
                        assert(!is_ascii_digit(c));
                    } else {
                        crate::text::lemma_digits_value_monotone(body.take(i - start), k);
                        assert(body.take(i - start).take(k) =~= body.take(k));
                    }
                }
            }
            return false;
        }
        let d = (c as u32 - '0' as u32) as u64;
        assert(body.take(i + 1 - start).drop_last() =~= body.take(i - start));
        assert(body.take(i + 1 - start).last() == c);
        assert(all_digits(body.take(i + 1 - start)));
        if d > max || value > (max - d) / 10 {
            proof {
                assert(value * 10 + d > max) by (nonlinear_arith)
                    requires
                        d > max || value > (max - d) / 10,
                        d <= 9,
                ;
                assert(digits_value(body.take(i + 1 - start)) > max);
            }
            return true;
        }
        proof {
            assert(value * 10 + d <= max) by (nonlinear_arith)
                requires
                    value <= (max - d) / 10,
            ;
        }
        value = value * 10 + d;
        i += 1;
    }
    proof {
        assert(body.take(s.len() - start) =~= body);
        assert forall|k: int| 0 <= k <= body.len() && all_digits(body.take(k)) implies !(
        #[trigger] digits_value(body.take(k)) > max) by {
            crate::text::lemma_digits_value_monotone(body, k);
        }
    }
    false
}

/// Parses a `usize` as `str::parse` does, with the text of its error.
pub fn parse_usize(s: &[char]) -> (r: Result<usize, String>)
    ensures
        match usize_parse(s@) {
            Ok(n) => r matches Ok(v) && v as nat == n,
            Err(m) => r matches Err(e) && e@ == m,
        },
{
    match parse_unsigned_chars(s, usize::MAX as u64) {
        Some(v) => Ok(v as usize),
        None => {
            if s.len() == 0 {
                Err(owned("cannot parse integer from empty string"))
            } else if overflows(s, usize::MAX as u64) {
                Err(owned("number too large to fit in target type"))
            } else {
                Err(owned("invalid digit found in string"))
            }
        },
    }
}


// ---------------------------------------------------------------------------
// Errors.
// ---------------------------------------------------------------------------

/// An error object of a JSON-RPC reply.
#[derive(Debug)]
pub struct LspError {
    pub code: i64,
    pub message: String,
    pub data: Option<JsonNode>,
}

/// Why talking to a server failed.
#[derive(Debug)]
pub enum LspTransportError {
    /// Reading or writing failed; the text of the I/O error.
    Io(String),
    /// No reply came in time.
    Timeout { method: String, timeout_secs: u64 },
    /// The server answered with an error.
    JsonRpc(LspError),
    /// The reply could not be used.
    InvalidResponse { method: String, details: String },
    /// The server's output ended.
    ServerExited,
}

/// Decimal rendering of a signed integer.
pub open spec fn signed_dec_string(n: int) -> Seq<char> {
    if n < 0 {
        "-"@ + dec_string((-n) as nat)
    } else {
        dec_string(n as nat)
    }
}

/// The text of an error, as `Display` renders it.
pub open spec fn transport_error_text(e: LspTransportError) -> Seq<char> {
    match e {
        LspTransportError::Io(m) => m@,
        LspTransportError::Timeout { method, timeout_secs } => "LSP request `"@ + method@ + "` timed out after "@
            + dec_string(timeout_secs as nat) + "s"@,
        LspTransportError::JsonRpc(err) => "LSP JSON-RPC error: "@ + err.message@ + " ("@ + signed_dec_string(
            err.code as int,
        ) + ")"@,
        LspTransportError::InvalidResponse { method, details } => "LSP invalid response for `"@ + method@ + "`: "@
            + details@,
        LspTransportError::ServerExited => "LSP server process exited unexpectedly"@,
    }
}

fn push_signed(out: &mut Vec<char>, n: i64)
    ensures
        final(out)@ == old(out)@ + signed_dec_string(n as int),
{
    if n < 0 {
        out.push('-');
        let m: u64 = ((-(n + 1)) as u64) + 1;
        assert(m as int == -(n as int));
        proof {
            reveal_strlit("-");
        }
        let ghost mid = out@;
        assert(mid =~= old(out)@ + "-"@);
        push_decimal(out, m);
        assert(out@ =~= old(out)@ + signed_dec_string(n as int));
    } else {
        push_decimal(out, n as u64);
    }
}

impl LspTransportError {
    /// The text of the error.
    pub fn to_text(&self) -> (r: String)
        ensures
            r@ == transport_error_text(*self),
    {
        match self {
            LspTransportError::Io(m) => m.clone(),
            LspTransportError::Timeout { method, timeout_secs } => {
                let mut v = chars_of("LSP request `");
                push_str(&mut v, method.as_str());
                push_str(&mut v, "` timed out after ");
                push_decimal(&mut v, *timeout_secs);
                push_str(&mut v, "s");
                string_from_chars(&v)
            },
            LspTransportError::JsonRpc(err) => {
                let mut v = chars_of("LSP JSON-RPC error: ");
                push_str(&mut v, err.message.as_str());
                push_str(&mut v, " (");
                push_signed(&mut v, err.code);
                push_str(&mut v, ")");
                string_from_chars(&v)
            },
            LspTransportError::InvalidResponse { method, details } => {
                let mut v = chars_of("LSP invalid response for `");
                push_str(&mut v, method.as_str());
                push_str(&mut v, "`: ");
                push_str(&mut v, details.as_str());
                string_from_chars(&v)
            },
            LspTransportError::ServerExited => owned("LSP server process exited unexpectedly"),
        }
    }
}

fn invalid_response(method: &str, details: &str) -> (r: LspTransportError)
    ensures
        r matches LspTransportError::InvalidResponse { method: m, details: d } && m@ == method@ && d@ == details@,
{
    LspTransportError::InvalidResponse { method: owned(method), details: owned(details) }
}

// ---------------------------------------------------------------------------
// The header reader.
// ---------------------------------------------------------------------------

/// What the header lines read so far of a frame said of its length.
pub struct HeaderReader {
    content_length: Option<usize>,
}

impl HeaderReader {
    /// The length the last `Content-Length` line gave.
    pub closed spec fn length(&self) -> Option<usize> {
        self.content_length
    }

    pub fn new() -> (r: Self)
        ensures
            r.length() is None,
    {
        HeaderReader { content_length: None }
    }

    /// Reads one header line, line ending included. The blank line ends the
    /// header: the payload's length is then returned, or an error when no
    /// line gave it. A `Content-Length` line records its value, or fails
    /// when the value is no `usize`; other lines are passed over.
    pub fn feed_line(&mut self, line: &str) -> (r: Result<Option<usize>, LspTransportError>)
        ensures
            if line@ == "\r\n"@ {
                &&& final(self).length() == old(self).length()
                &&& match old(self).length() {
                    Some(n) => r matches Ok(Some(m)) && m == n,
                    None => r matches Err(LspTransportError::InvalidResponse { method, details }) && method@
                        == "unknown"@ && details@ == "missing Content-Length header"@,
                }
            } else {
                match content_length_value(line@) {
                    None => r matches Ok(None) && final(self).length() == old(self).length(),
                    Some(v) => match usize_parse(v) {
                        Ok(n) => r matches Ok(None) && final(self).length() matches Some(m) && m as nat == n,
                        Err(msg) => r matches Err(LspTransportError::Io(t)) && t@ == msg && final(self).length()
                            == old(self).length(),
                    },
                }
            },
    {
        let chars = chars_of(line);
        if crate::text::chars_eq_str(&chars, "\r\n") {
            return match self.content_length {
                Some(n) => Ok(Some(n)),
                None => Err(invalid_response("unknown", "missing Content-Length header")),
            };
        }
        let stripped = strip_end(&chars);
        let colon = match find_char(&stripped, ':') {
            Some(i) => i,
            None => {
                return Ok(None);
            },
        };
        let len = stripped.len();
        assert(colon < len);
        let name = slice_to_vec(&stripped, 0, colon);
        let value = slice_to_vec(&stripped, colon + 1, len);
        assert(name@ =~= stripped@.take(colon as int));
        assert(value@ =~= stripped@.skip(colon + 1));
        let tname = trim_chars(&name);
        if !chars_eq_ignore_ascii_case(&tname, &chars_of("Content-Length")) {
            return Ok(None);
        }
        let tvalue = trim_chars(&value);
        match parse_usize(&tvalue) {
            Ok(n) => {
                self.content_length = Some(n);
                Ok(None)
            },
            Err(m) => Err(LspTransportError::Io(m)),
        }
    }
}

fn strip_end(s: &Vec<char>) -> (r: Vec<char>)
    ensures
        r@ == strip_line_end(s@),
{
    let mut n = s.len();
    assert(s@.take(n as int) =~= s@);
    while n > 0 && (s[n - 1] == '\r' || s[n - 1] == '\n')
        invariant
            n <= s@.len(),
            strip_line_end(s@.take(n as int)) == strip_line_end(s@),
        decreases n,
    {
        assert(s@.take(n as int).drop_last() =~= s@.take(n - 1));
        n -= 1;
    }
    assert(strip_line_end(s@.take(n as int)) == s@.take(n as int));
    slice_to_vec(s, 0, n)
}


// ---------------------------------------------------------------------------
// Messages.
// ---------------------------------------------------------------------------

/// A request to a server.
#[derive(Debug)]
pub struct LspRequest {
    pub jsonrpc: String,
    pub id: LspId,
    pub method: String,
    pub params: Option<JsonNode>,
}

impl LspRequest {
    pub fn new(id: LspId, method: &str, params: Option<JsonNode>) -> (r: Self)
        ensures
            r.jsonrpc@ == "2.0"@,
            r.id == id,
            r.method@ == method@,
            r.params == params,
    {
        LspRequest { jsonrpc: owned("2.0"), id, method: owned(method), params }
    }
}

/// A notification, to or from a server: it carries no id.
#[derive(Debug)]
pub struct LspNotification {
    pub jsonrpc: String,
    pub method: String,
    pub params: Option<JsonNode>,
}

impl LspNotification {
    pub fn new(method: &str, params: Option<JsonNode>) -> (r: Self)
        ensures
            r.jsonrpc@ == "2.0"@,
            r.method@ == method@,
            r.params == params,
    {
        LspNotification { jsonrpc: owned("2.0"), method: owned(method), params }
    }
}

/// A server's reply to a request.
#[derive(Debug)]
pub struct LspResponse {
    pub jsonrpc: String,
    pub id: LspId,
    pub result: Option<JsonNode>,
    pub error: Option<LspError>,
}

impl LspResponse {
    pub fn is_error(&self) -> (r: bool)
        ensures
            r == self.error is Some,
    {
        self.error.is_some()
    }

    /// The reply's error, or else its result (null when it has none).
    pub fn into_result(self) -> (r: Result<JsonNode, LspError>)
        ensures
            match self.error {
                Some(e) => r == Err::<JsonNode, LspError>(e),
                None => match self.result {
                    Some(v) => r == Ok::<JsonNode, LspError>(v),
                    None => r matches Ok(JsonNode::Null),
                },
            },
    {
        match self.error {
            Some(e) => Err(e),
            None => match self.result {
                Some(v) => Ok(v),
                None => Ok(JsonNode::Null),
            },
        }
    }
}

/// What kind of message a server sent.
#[derive(Debug, Clone, Copy, PartialEq, Eq, Structural)]
pub enum MessageKind {
    Response,
    Notification,
}

/// A message with an `id` member is a reply; one with a `method` member
/// and no `id` is a notification; anything else is refused.
pub fn classify_message(value: &JsonNode) -> (r: Result<MessageKind, LspTransportError>)
    ensures
        if node_get(*value, "id"@) is Some {
            r == Ok::<MessageKind, LspTransportError>(MessageKind::Response)
        } else if node_get(*value, "method"@) is Some {
            r == Ok::<MessageKind, LspTransportError>(MessageKind::Notification)
        } else {
            r matches Err(LspTransportError::InvalidResponse { method, details }) && method@ == "unknown"@
                && details@ == "message has neither 'id' nor 'method'"@
        },
{
    proof {
        reveal_strlit("id");
        reveal_strlit("method");
    }
    if value.get("id").is_some() {
        Ok(MessageKind::Response)
    } else if value.get("method").is_some() {
        Ok(MessageKind::Notification)
    } else {
        Err(invalid_response("unknown", "message has neither 'id' nor 'method'"))
    }
}

/// `format!("{:?}", s)`: a string quoted and escaped as `Debug` shows it.
pub uninterp spec fn debug_quoted(s: Seq<char>) -> Seq<char>;

/// `Debug` of a `str`. Trusted: the result is the name above applied to
/// the text; the escaping rules are not spelled out.
#[verifier::external_body]
fn debug_str(s: &str) -> (r: String)
    ensures
        r@ == debug_quoted(s@),
{
    format!("{:?}", s)
}

/// An id as `Debug` shows it.
pub open spec fn id_debug_text(id: LspId) -> Seq<char> {
    match id {
        LspId::Number(n) => "Number("@ + dec_string(n as nat) + ")"@,
        LspId::String(s) => "String("@ + debug_quoted(s@) + ")"@,
        LspId::Null => "Null"@,
    }
}

/// Two ids are the same id.
pub open spec fn same_id(a: LspId, b: LspId) -> bool {
    match (a, b) {
        (LspId::Number(x), LspId::Number(y)) => x == y,
        (LspId::String(x), LspId::String(y)) => x@ == y@,
        (LspId::Null, LspId::Null) => true,
        _ => false,
    }
}

fn push_id_debug(out: &mut Vec<char>, id: &LspId)
    ensures
        final(out)@ == old(out)@ + id_debug_text(*id),
{
    match id {
        LspId::Number(n) => {
            push_str(out, "Number(");
            push_decimal(out, *n);
            push_str(out, ")");
        },
        LspId::String(s) => {
            push_str(out, "String(");
            let d = debug_str(s.as_str());
            push_str(out, d.as_str());
            push_str(out, ")");
        },
        LspId::Null => {
            push_str(out, "Null");
        },
    }
}

fn ids_equal(a: &LspId, b: &LspId) -> (r: bool)
    ensures
        r == same_id(*a, *b),
{
    match (a, b) {
        (LspId::Number(x), LspId::Number(y)) => *x == *y,
        (LspId::String(x), LspId::String(y)) => crate::text::str_eq(x.as_str(), y.as_str()),
        (LspId::Null, LspId::Null) => true,
        _ => false,
    }
}

/// Checks a reply to the request `method` sent with id `expected`: it
/// must speak JSON-RPC 2.0, carry the same id, and hold no error.
pub fn check_response(method: &str, expected: &LspId, response: LspResponse) -> (r: Result<
    LspResponse,
    LspTransportError,
>)
    ensures
        if response.jsonrpc@ != "2.0"@ {
            r matches Err(LspTransportError::InvalidResponse { method: m, details }) && m@ == method@ && details@
                == "unsupported jsonrpc version `"@ + response.jsonrpc@ + "`"@
        } else if !same_id(*expected, response.id) {
            r matches Err(LspTransportError::InvalidResponse { method: m, details }) && m@ == method@ && details@
                == "mismatched id: expected "@ + id_debug_text(*expected) + ", got "@ + id_debug_text(response.id)
        } else {
            match response.error {
                Some(e) => r == Err::<LspResponse, LspTransportError>(LspTransportError::JsonRpc(e)),
                None => r == Ok::<LspResponse, LspTransportError>(response),
            }
        },
{
    if !crate::text::str_eq(response.jsonrpc.as_str(), "2.0") {
        let mut v = chars_of("unsupported jsonrpc version `");
        push_str(&mut v, response.jsonrpc.as_str());
        push_str(&mut v, "`");
        return Err(LspTransportError::InvalidResponse { method: owned(method), details: string_from_chars(&v) });
    }
    if !ids_equal(expected, &response.id) {
        let mut v = chars_of("mismatched id: expected ");
        push_id_debug(&mut v, expected);
        push_str(&mut v, ", got ");
        push_id_debug(&mut v, &response.id);
        return Err(LspTransportError::InvalidResponse { method: owned(method), details: string_from_chars(&v) });
    }
    if response.error.is_some() {
        match response.error {
            Some(e) => Err(LspTransportError::JsonRpc(e)),
            None => Ok(response),
        }
    } else {
        Ok(response)
    }
}

// ---------------------------------------------------------------------------
// Request ids.
// ---------------------------------------------------------------------------

/// Hands out the ids of requests: 1, 2, 3, ...
pub struct RequestIds {
    next_id: u64,
}

impl RequestIds {
    /// The id the next request gets.
    pub closed spec fn next(&self) -> u64 {
        self.next_id
    }

    pub fn new() -> (r: Self)
        ensures
            r.next() == 1,
    {
        RequestIds { next_id: 1 }
    }

    pub fn allocate_id(&mut self) -> (r: LspId)
        requires
            old(self).next() < u64::MAX,
        ensures
            r == LspId::Number(old(self).next()),
            final(self).next() == old(self).next() + 1,
    {
        let id = self.next_id;
        self.next_id = self.next_id + 1;
        LspId::Number(id)
    }
}


// ---------------------------------------------------------------------------
// Reading back what was framed.
// ---------------------------------------------------------------------------

proof fn lemma_dec_string_digits(n: nat)
    ensures
        dec_string(n).len() >= 1,
        all_digits(dec_string(n)),
        digits_value(dec_string(n)) == n,
        dec_string(n)[0] != '+',
        !crate::text::is_white_space(dec_string(n)[0]),
        !crate::text::is_white_space(dec_string(n).last()),
    decreases n,
{
    let s = dec_string(n);
    let d = (n % 10) as nat;
    assert(digit_value(crate::text::digit_char(d)) == d);
    if n < 10 {
        assert(s.drop_last() =~= Seq::<char>::empty());
        assert(digits_value(s) == digits_value(s.drop_last()) * 10 + digit_value(s.last()));
    } else {
        lemma_dec_string_digits(n / 10);
        assert(s.drop_last() =~= dec_string(n / 10));
        assert(n == (n / 10) * 10 + n % 10) by (nonlinear_arith);
        assert(digits_value(s) == digits_value(s.drop_last()) * 10 + digit_value(s.last()));
        assert forall|i: int| 0 <= i < s.len() implies is_ascii_digit(#[trigger] s[i]) by {
            if i < s.len() - 1 {
                assert(s[i] == dec_string(n / 10)[i]);
            }
        }
        assert(s[0] == dec_string(n / 10)[0]);
    }
}

proof fn lemma_trim_digits(s: Seq<char>)
    requires
        s.len() >= 1,
        all_digits(s),
    ensures
        trim(seq![' '] + s) == s,
        trim(s) == s,
{
    let t = seq![' '] + s;
    assert(t.drop_first() =~= s);
    assert(is_ascii_digit(s[0]));
    assert(is_ascii_digit(s.last()));
    assert(crate::text::trim_start(s) == s);
    assert(crate::text::trim_start(t) == crate::text::trim_start(s));
    assert(crate::text::trim_end(s) == s);
}

proof fn lemma_strip_crlf(s: Seq<char>)
    requires
        s.len() >= 1,
        s.last() != '\r' && s.last() != '\n',
    ensures
        strip_line_end(s + "\r\n"@) == s,
{
    reveal_strlit("\r\n");
    let t = s + "\r\n"@;
    assert(t.drop_last() =~= s.push('\r'));
    assert(s.push('\r').drop_last() =~= s);
    assert(t.last() == '\n');
    assert(strip_line_end(t) == strip_line_end(t.drop_last()));
    assert(strip_line_end(s.push('\r')) == strip_line_end(s));
    assert(strip_line_end(s) == s);
}

/// What a frame's header says, read back line by line, is the length of
/// its payload: its first line gives `Content-Length` that length, and the
/// blank line after it ends the header.
pub proof fn law_frame_header_round_trip(len: usize)
    ensures
        frame_header_text(len as nat) == "Content-Length: "@ + dec_string(len as nat) + "\r\n"@ + "\r\n"@,
        content_length_value("Content-Length: "@ + dec_string(len as nat) + "\r\n"@) == Some(dec_string(len as nat)),
        usize_parse(dec_string(len as nat)) == Ok::<nat, Seq<char>>(len as nat),
{
    reveal_strlit("Content-Length: ");
    reveal_strlit("\r\n");
    reveal_strlit("\r\n\r\n");
    reveal_strlit("Content-Length");
    let d = dec_string(len as nat);
    lemma_dec_string_digits(len as nat);
    assert("\r\n\r\n"@ =~= "\r\n"@ + "\r\n"@);
    assert(frame_header_text(len as nat) =~= "Content-Length: "@ + d + "\r\n"@ + "\r\n"@);
    let head = "Content-Length: "@ + d;
    assert(is_ascii_digit(d.last()));
    assert(head.last() == d.last());
    lemma_strip_crlf(head);
    assert(head + "\r\n"@ =~= "Content-Length: "@ + d + "\r\n"@);
    // The first ':' is the one after the name.
    let name = "Content-Length"@;
    assert(head[14] == ':');
    assert forall|j: int| 0 <= j < 14 implies head[j] != ':' by {
        assert(head[j] == "Content-Length: "@[j]);
    }
    let w = choose|i: int| 0 <= i < head.len() && head[i] == ':' && forall|j: int| 0 <= j < i ==> head[j] != ':';
    assert(w == 14) by {
        if w < 14 {
            assert(head[w] != ':');
        } else if w > 14 {
            assert(head[14] != ':');
        }
    }
    assert(head.take(14) =~= name);
    assert(head.skip(15) =~= seq![' '] + d);
    lemma_trim_digits(d);
    assert(name.len() == 14);
    assert forall|i: int| 0 <= i < 14 implies !crate::text::is_white_space(#[trigger] name[i]) by {}
    assert(crate::text::trim_start(name) == name);
    assert(crate::text::trim_end(name) == name);
    // The value parses back to the length.
    assert(unsigned_body(d) == d);
    assert(d.len() > 0 && all_digits(d) && digits_value(d) <= usize::MAX as nat);
}


/// Reads a payload from a server: the message it holds and what kind it
/// is. A payload that is no JSON is refused with the parser's message; a
/// JSON value is then told apart as `classify_message` does.
pub fn parse_server_message(payload: &[u8]) -> (r: Result<(MessageKind, JsonNode), LspTransportError>)
    ensures
        match crate::json_node::json_bytes_parse(payload@) {
            Err(e) => r matches Err(LspTransportError::InvalidResponse { method, details }) && method@ == "unknown"@
                && details@ == e,
            Ok(v) => if node_get(v, "id"@) is Some {
                r matches Ok((k, n)) && k == MessageKind::Response && n == v
            } else if node_get(v, "method"@) is Some {
                r matches Ok((k, n)) && k == MessageKind::Notification && n == v
            } else {
                r matches Err(LspTransportError::InvalidResponse { method, details }) && method@ == "unknown"@
                    && details@ == "message has neither 'id' nor 'method'"@
            },
        },
{
    match crate::json_node::parse_json_bytes(payload) {
        Err(e) => Err(LspTransportError::InvalidResponse { method: owned("unknown"), details: e }),
        Ok(v) => match classify_message(&v) {
            Ok(k) => Ok((k, v)),
            Err(e) => Err(e),
        },
    }
}

} // verus!
