//! OAuth helpers: PKCE, authorization URLs, token request bodies and the
//! parsing of the local callback.
use vstd::prelude::*;

use vstd::utf8::{decode_utf8, encode_utf8, is_ascii_chars, valid_utf8};

use sha2::Digest;

use crate::text::{
    chars_eq_str, chars_lt, chars_of, clone_strings, contains_char, dec_string, digit_char, find_char, join,
    join_strings, lemma_seq_lt_irreflexive, lemma_seq_lt_total, lemma_seq_lt_transitive, owned, push_all,
    push_decimal, push_str, seq_lt, slice_to_vec, split_chars, split_on, split_once_at, string_from_chars,
    string_views,
};

verus! {

// ---------------------------------------------------------------------------
// Percent encoding.
// ---------------------------------------------------------------------------

/// Bytes that percent-encoding leaves as they are (RFC 3986 unreserved).
pub open spec fn is_unreserved(b: u8) -> bool {
    (0x41 <= b <= 0x5a) || (0x61 <= b <= 0x7a) || (0x30 <= b <= 0x39) || b == 0x2d || b == 0x5f || b == 0x2e
        || b == 0x7e
}

/// Upper-case hexadecimal digit.
pub open spec fn hex_upper_char(d: nat) -> char {
    if d < 10 {
        digit_char(d)
    } else {
        ((d - 10 + 0x41) as u32) as char
    }
}

/// The encoding of one byte: itself when unreserved, `%XY` otherwise.
pub open spec fn encode_byte(b: u8) -> Seq<char> {
    if is_unreserved(b) {
        seq![(b as u32) as char]
    } else {
        seq!['%', hex_upper_char((b / 16) as nat), hex_upper_char((b % 16) as nat)]
    }
}

/// Percent-encoding of a byte string.
pub open spec fn pct_encode(b: Seq<u8>) -> Seq<char>
    decreases b.len(),
{
    if b.len() == 0 {
        seq![]
    } else {
        encode_byte(b[0]) + pct_encode(b.drop_first())
    }
}

/// Percent-encoding of the UTF-8 bytes of a string.
pub open spec fn percent_encoded(s: Seq<char>) -> Seq<char> {
    pct_encode(encode_utf8(s))
}

proof fn lemma_pct_encode_push(b: Seq<u8>, x: u8)
    ensures
        pct_encode(b.push(x)) == pct_encode(b) + encode_byte(x),
    decreases b.len(),
{
    if b.len() == 0 {
        assert(b.push(x).drop_first() =~= Seq::<u8>::empty());
        assert(pct_encode(Seq::<u8>::empty()) =~= Seq::<char>::empty());
        assert(pct_encode(b.push(x)) =~= encode_byte(x) + Seq::<char>::empty());
        assert(pct_encode(b.push(x)) =~= pct_encode(b) + encode_byte(x));
    } else {
        lemma_pct_encode_push(b.drop_first(), x);
        assert(b.push(x).drop_first() =~= b.drop_first().push(x));
        assert(pct_encode(b.push(x)) =~= pct_encode(b) + encode_byte(x));
    }
}

fn hex_upper_digit(d: u8) -> (c: char)
    requires
        d < 16,
    ensures
        c == hex_upper_char(d as nat),
{
    if d < 10 {
        (d + 0x30) as char
    } else {
        (d - 10 + 0x41) as char
    }
}

/// Percent-encodes the UTF-8 bytes of `value`.
pub fn percent_encode(value: &str) -> (r: String)
    ensures
        r@ == percent_encoded(value@),
{
    let bytes = value.as_bytes();
    let mut out: Vec<char> = Vec::new();
    let mut i: usize = 0;
    while i < bytes.len()
        invariant
            i <= bytes.len(),
            bytes@ == encode_utf8(value@),
            out@ == pct_encode(bytes@.take(i as int)),
        decreases bytes.len() - i,
    {
        let b = bytes[i];
        proof {
            lemma_pct_encode_push(bytes@.take(i as int), b);
            assert(bytes@.take(i + 1) =~= bytes@.take(i as int).push(b));
        }
        if (0x41 <= b && b <= 0x5a) || (0x61 <= b && b <= 0x7a) || (0x30 <= b && b <= 0x39) || b == 0x2d || b
            == 0x5f || b == 0x2e || b == 0x7e {
            out.push(b as char);
        } else {
            out.push('%');
            out.push(hex_upper_digit(b / 16));
            out.push(hex_upper_digit(b % 16));
        }
        assert(out@ =~= pct_encode(bytes@.take(i + 1)));
        i += 1;
    }
    assert(bytes@.take(bytes.len() as int) =~= bytes@);
    string_from_chars(&out)
}

// ---------------------------------------------------------------------------
// Percent decoding.
// ---------------------------------------------------------------------------

/// Value of a hexadecimal digit byte.
pub open spec fn hex_value(b: u8) -> Option<u8> {
    if 0x30 <= b <= 0x39 {
        Some((b - 0x30) as u8)
    } else if 0x61 <= b <= 0x66 {
        Some((b - 0x61 + 10) as u8)
    } else if 0x41 <= b <= 0x46 {
        Some((b - 0x41 + 10) as u8)
    } else {
        None
    }
}

/// `x` in front of a decoded tail, or the tail's error.
pub open spec fn prepend(x: Seq<u8>, r: Result<Seq<u8>, u8>) -> Result<Seq<u8>, u8> {
    match r {
        Ok(t) => Ok(x + t),
        Err(e) => Err(e),
    }
}

/// Percent-decoding of bytes: `%XY` with two more bytes after the `%`
/// becomes the byte `0xXY`, `+` becomes a space, any other byte stays.
/// The error is the first byte after a `%` that is not a hexadecimal digit.
pub open spec fn pct_decode(b: Seq<u8>) -> Result<Seq<u8>, u8>
    decreases b.len(),
{
    if b.len() == 0 {
        Ok(seq![])
    } else if b[0] == 0x25 && 2 < b.len() {
        match hex_value(b[1]) {
            None => Err(b[1]),
            Some(hi) => match hex_value(b[2]) {
                None => Err(b[2]),
                Some(lo) => prepend(seq![(hi * 16 + lo) as u8], pct_decode(b.skip(3))),
            },
        }
    } else if b[0] == 0x2b {
        prepend(seq![0x20u8], pct_decode(b.skip(1)))
    } else {
        prepend(seq![b[0]], pct_decode(b.skip(1)))
    }
}

/// Text of the error `String::from_utf8` reports for invalid bytes.
pub uninterp spec fn utf8_error_text(bytes: Seq<u8>) -> Seq<char>;

/// `String::from_utf8`, with the error rendered by `to_string`.
/// Trusted: the conversion succeeds exactly on valid UTF-8 and then decodes
/// it; the error text is named, not spelled out.
#[verifier::external_body]
fn utf8_to_string(bytes: Vec<u8>) -> (r: Result<String, String>)
    ensures
        r is Ok <==> valid_utf8(bytes@),
        r matches Ok(s) ==> s@ == decode_utf8(bytes@),
        r matches Err(m) ==> m@ == utf8_error_text(bytes@),
{
    String::from_utf8(bytes).map_err(|error| error.to_string())
}

/// Message for a `%` followed by a byte that is not a hexadecimal digit.
pub open spec fn bad_percent_message(b: u8) -> Seq<char> {
    "invalid percent byte: "@ + dec_string(b as nat)
}

/// What decoding a percent-encoded string gives.
#[verifier::opaque]
pub open spec fn percent_decoded(value: Seq<char>) -> Result<Seq<char>, Seq<char>> {
    match pct_decode(encode_utf8(value)) {
        Err(b) => Err(bad_percent_message(b)),
        Ok(bytes) => if valid_utf8(bytes) {
            Ok(decode_utf8(bytes))
        } else {
            Err(utf8_error_text(bytes))
        },
    }
}

proof fn lemma_prepend_assoc(a: Seq<u8>, c: Seq<u8>, r: Result<Seq<u8>, u8>)
    ensures
        prepend(a, prepend(c, r)) == prepend(a + c, r),
        prepend(Seq::<u8>::empty(), r) == r,
{
    match r {
        Ok(t) => {
            assert(a + (c + t) =~= (a + c) + t);
            assert(Seq::<u8>::empty() + t =~= t);
        },
        Err(_) => {},
    }
}

fn decode_hex(byte: u8) -> (r: Option<u8>)
    ensures
        r == hex_value(byte),
{
    if 0x30 <= byte && byte <= 0x39 {
        Some(byte - 0x30)
    } else if 0x61 <= byte && byte <= 0x66 {
        Some(byte - 0x61 + 10)
    } else if 0x41 <= byte && byte <= 0x46 {
        Some(byte - 0x41 + 10)
    } else {
        None
    }
}

fn bad_percent(byte: u8) -> (r: String)
    ensures
        r@ == bad_percent_message(byte),
{
    let mut v: Vec<char> = Vec::new();
    push_str(&mut v, "invalid percent byte: ");
    push_decimal(&mut v, byte as u64);
    string_from_chars(&v)
}

/// Decodes a percent-encoded string.
pub fn percent_decode(value: &str) -> (r: Result<String, String>)
    ensures
        match r {
            Ok(s) => percent_decoded(value@) == Ok::<Seq<char>, Seq<char>>(s@),
            Err(m) => percent_decoded(value@) == Err::<Seq<char>, Seq<char>>(m@),
        },
{
    let bytes = value.as_bytes();
    let ghost b = bytes@;
    let mut decoded: Vec<u8> = Vec::new();
    let mut index: usize = 0;
    proof {
        assert(b.skip(0) =~= b);
        lemma_prepend_assoc(decoded@, decoded@, pct_decode(b));
    }
    while index < bytes.len()
        invariant
            index <= bytes.len(),
            b == bytes@,
            b == encode_utf8(value@),
            pct_decode(b) == prepend(decoded@, pct_decode(b.skip(index as int))),
        decreases bytes.len() - index,
    {
        let ghost rest = b.skip(index as int);
        let ghost before = decoded@;
        assert(rest.len() == bytes.len() - index);
        assert(rest[0] == b[index as int]);
        if bytes[index] == 0x25 && bytes.len() - index > 2 {
            assert(rest[1] == b[index + 1]);
            assert(rest[2] == b[index + 2]);
            assert(rest.skip(3) =~= b.skip(index + 3));
            let hi = match decode_hex(bytes[index + 1]) {
                Some(h) => h,
                None => {
                    reveal(percent_decoded);
                    return Err(bad_percent(bytes[index + 1]));
                },
            };
            let lo = match decode_hex(bytes[index + 2]) {
                Some(l) => l,
                None => {
                    reveal(percent_decoded);
                    return Err(bad_percent(bytes[index + 2]));
                },
            };
            let v = hi * 16 + lo;
            decoded.push(v);
            assert(decoded@ =~= before + seq![v]);
            proof {
                lemma_prepend_assoc(before, seq![v], pct_decode(rest.skip(3)));
            }
            index += 3;
        } else if bytes[index] == 0x2b {
            assert(rest.skip(1) =~= b.skip(index + 1));
            decoded.push(0x20);
            assert(decoded@ =~= before + seq![0x20u8]);
            proof {
                lemma_prepend_assoc(before, seq![0x20u8], pct_decode(rest.skip(1)));
            }
            index += 1;
        } else {
            assert(rest.skip(1) =~= b.skip(index + 1));
            decoded.push(bytes[index]);
            assert(decoded@ =~= before + seq![b[index as int]]);
            proof {
                lemma_prepend_assoc(before, seq![b[index as int]], pct_decode(rest.skip(1)));
            }
            index += 1;
        }
    }
    assert(b.skip(index as int) =~= Seq::<u8>::empty());
    assert(decoded@ + Seq::<u8>::empty() =~= decoded@);
    reveal(percent_decoded);
    utf8_to_string(decoded)
}

/// The bytes of an ASCII character sequence.
pub open spec fn ascii_bytes(e: Seq<char>) -> Seq<u8> {
    e.map_values(|c: char| c as u8)
}

proof fn lemma_hex_upper_char(d: nat)
    requires
        d < 16,
    ensures
        '\0' <= hex_upper_char(d) <= '\u{7f}',
        hex_value(hex_upper_char(d) as u8) == Some(d as u8),
        hex_upper_char(d) as u8 != 0x25,
{
    if d < 10 {
        assert(hex_upper_char(d) as u8 == d + 0x30);
    } else {
        assert(hex_upper_char(d) as u8 == d - 10 + 0x41);
    }
}

proof fn lemma_encode_byte(b: u8)
    ensures
        is_ascii_chars(encode_byte(b)),
        is_unreserved(b) ==> ascii_bytes(encode_byte(b)) == seq![b],
        !is_unreserved(b) ==> ascii_bytes(encode_byte(b)) == seq![
            0x25u8,
            hex_upper_char((b / 16) as nat) as u8,
            hex_upper_char((b % 16) as nat) as u8,
        ],
{
    lemma_hex_upper_char((b / 16) as nat);
    lemma_hex_upper_char((b % 16) as nat);
    if is_unreserved(b) {
        assert(((b as u32) as char) as u8 == b);
        assert(ascii_bytes(encode_byte(b)) =~= seq![b]);
    } else {
        assert(ascii_bytes(encode_byte(b)) =~= seq![
            0x25u8,
            hex_upper_char((b / 16) as nat) as u8,
            hex_upper_char((b % 16) as nat) as u8,
        ]);
    }
}

proof fn lemma_pct_encode_ascii(b: Seq<u8>)
    ensures
        is_ascii_chars(pct_encode(b)),
    decreases b.len(),
{
    if b.len() > 0 {
        lemma_encode_byte(b[0]);
        lemma_pct_encode_ascii(b.drop_first());
        let x = encode_byte(b[0]);
        let y = pct_encode(b.drop_first());
        assert forall|i: int| 0 <= i < (x + y).len() implies '\0' <= #[trigger] (x + y)[i] <= '\u{7f}' by {
            if i < x.len() {
                assert((x + y)[i] == x[i]);
            } else {
                assert((x + y)[i] == y[i - x.len()]);
            }
        }
    }
}

proof fn lemma_decode_of_encode(b: Seq<u8>)
    ensures
        pct_decode(ascii_bytes(pct_encode(b))) == Ok::<Seq<u8>, u8>(b),
    decreases b.len(),
{
    if b.len() == 0 {
        assert(ascii_bytes(pct_encode(b)) =~= Seq::<u8>::empty());
        assert(b =~= Seq::<u8>::empty());
    } else {
        let b0 = b[0];
        let rest = b.drop_first();
        lemma_decode_of_encode(rest);
        lemma_encode_byte(b0);
        let x = ascii_bytes(encode_byte(b0));
        let y = ascii_bytes(pct_encode(rest));
        let z = ascii_bytes(pct_encode(b));
        assert(z =~= x + y);
        if is_unreserved(b0) {
            assert(z[0] == b0);
            assert(z.skip(1) =~= y);
            assert(seq![b0] + rest =~= b);
            assert(pct_decode(z) == prepend(seq![z[0]], pct_decode(z.skip(1))));
            assert(pct_decode(z) == Ok::<Seq<u8>, u8>(b));
        } else {
            let hi = (b0 / 16) as nat;
            let lo = (b0 % 16) as nat;
            lemma_hex_upper_char(hi);
            lemma_hex_upper_char(lo);
            assert(z[0] == 0x25u8);
            assert(z[1] == hex_upper_char(hi) as u8);
            assert(z[2] == hex_upper_char(lo) as u8);
            assert(z.skip(3) =~= y);
            assert(((hi * 16 + lo) as u8) == b0);
            assert(seq![b0] + rest =~= b);
            assert(z.len() > 2);
            assert(hex_value(z[1]) == Some(hi as u8));
            assert(hex_value(z[2]) == Some(lo as u8));
            assert(pct_decode(z) == prepend(seq![((hi as u8) * 16 + (lo as u8)) as u8], pct_decode(z.skip(3))));
            assert(pct_decode(z) == Ok::<Seq<u8>, u8>(b));
        }
    }
}

/// Decoding what percent-encoding produced gives back the original text.
pub proof fn law_percent_round_trip(s: Seq<char>)
    ensures
        percent_decoded(percent_encoded(s)) == Ok::<Seq<char>, Seq<char>>(s),
{
    reveal(percent_decoded);
    let b = encode_utf8(s);
    let e = pct_encode(b);
    lemma_pct_encode_ascii(b);
    vstd::utf8::is_ascii_chars_encode_utf8(e);
    assert(encode_utf8(e) =~= ascii_bytes(e));
    lemma_decode_of_encode(b);
    vstd::utf8::encode_utf8_valid_utf8(s);
    vstd::utf8::encode_utf8_decode_utf8(s);
}

// ---------------------------------------------------------------------------
// Base64url without padding.
// ---------------------------------------------------------------------------

/// The URL-safe base64 alphabet.
pub open spec fn b64_char(v: nat) -> char {
    if v < 26 {
        ((v + 0x41) as u32) as char
    } else if v < 52 {
        ((v - 26 + 0x61) as u32) as char
    } else if v < 62 {
        ((v - 52 + 0x30) as u32) as char
    } else if v == 62 {
        '-'
    } else {
        '_'
    }
}

/// Base64url encoding without padding: each 3 bytes become 4 characters, a
/// trailing 1 or 2 bytes become 2 or 3.
pub open spec fn b64url(b: Seq<u8>) -> Seq<char>
    decreases b.len(),
{
    if b.len() >= 3 {
        let n = b[0] * 65536 + b[1] * 256 + b[2];
        seq![b64_char((n / 262144) as nat), b64_char((n / 4096 % 64) as nat), b64_char((n / 64 % 64) as nat), b64_char((n % 64) as nat)]
            + b64url(b.skip(3))
    } else if b.len() == 2 {
        let n = b[0] * 65536 + b[1] * 256;
        seq![b64_char((n / 262144) as nat), b64_char((n / 4096 % 64) as nat), b64_char((n / 64 % 64) as nat)]
    } else if b.len() == 1 {
        let n = b[0] * 65536;
        seq![b64_char((n / 262144) as nat), b64_char((n / 4096 % 64) as nat)]
    } else {
        seq![]
    }
}

fn b64_digit(v: u32) -> (c: char)
    requires
        v < 64,
    ensures
        c == b64_char(v as nat),
{
    if v < 26 {
        ((v + 0x41) as u8) as char
    } else if v < 52 {
        ((v - 26 + 0x61) as u8) as char
    } else if v < 62 {
        ((v - 52 + 0x30) as u8) as char
    } else if v == 62 {
        '-'
    } else {
        '_'
    }
}

/// Base64url-encodes bytes without padding.
pub fn base64url_encode(bytes: &[u8]) -> (r: String)
    ensures
        r@ == b64url(bytes@),
{
    let mut out: Vec<char> = Vec::new();
    let mut index: usize = 0;
    proof {
        assert(bytes@.skip(0) =~= bytes@);
    }
    while bytes.len() - index >= 3
        invariant
            index <= bytes.len(),
            b64url(bytes@) == out@ + b64url(bytes@.skip(index as int)),
        decreases bytes.len() - index,
    {
        let ghost rest = bytes@.skip(index as int);
        let ghost before = out@;
        let block: u32 = (bytes[index] as u32) * 65536 + (bytes[index + 1] as u32) * 256 + (bytes[index + 2] as u32);
        assert(rest[0] == bytes[index as int] && rest[1] == bytes[index + 1] && rest[2] == bytes[index + 2]);
        assert(rest.skip(3) =~= bytes@.skip(index + 3));
        out.push(b64_digit(block / 262144));
        out.push(b64_digit((block / 4096) % 64));
        out.push(b64_digit((block / 64) % 64));
        out.push(b64_digit(block % 64));
        assert(before + b64url(rest) =~= out@ + b64url(bytes@.skip(index + 3)));
        index += 3;
    }
    let ghost rest = bytes@.skip(index as int);
    let ghost before = out@;
    let remaining = bytes.len() - index;
    if remaining == 1 {
        let block: u32 = (bytes[index] as u32) * 65536;
        assert(rest[0] == bytes[index as int]);
        out.push(b64_digit(block / 262144));
        out.push(b64_digit((block / 4096) % 64));
        assert(before + b64url(rest) =~= out@);
    } else if remaining == 2 {
        let block: u32 = (bytes[index] as u32) * 65536 + (bytes[index + 1] as u32) * 256;
        assert(rest[0] == bytes[index as int] && rest[1] == bytes[index + 1]);
        out.push(b64_digit(block / 262144));
        out.push(b64_digit((block / 4096) % 64));
        out.push(b64_digit((block / 64) % 64));
        assert(before + b64url(rest) =~= out@);
    } else {
        assert(before + b64url(rest) =~= out@);
    }
    string_from_chars(&out)
}

/// Length of the unpadded base64url encoding of `n` bytes.
pub open spec fn b64url_len(n: nat) -> nat {
    4 * (n / 3) + if n % 3 == 0 {
        0nat
    } else if n % 3 == 1 {
        2nat
    } else {
        3nat
    }
}

/// Whether a character belongs to the URL-safe base64 alphabet.
pub open spec fn is_b64url_char(c: char) -> bool {
    ('A' <= c <= 'Z') || ('a' <= c <= 'z') || ('0' <= c <= '9') || c == '-' || c == '_'
}

/// Base64url output has the unpadded length for its input and uses only
/// the URL-safe alphabet.
pub proof fn law_base64url_shape(b: Seq<u8>)
    ensures
        b64url(b).len() == b64url_len(b.len()),
        forall|i: int| 0 <= i < b64url(b).len() ==> is_b64url_char(#[trigger] b64url(b)[i]),
    decreases b.len(),
{
    if b.len() >= 3 {
        law_base64url_shape(b.skip(3));
        let n = b[0] * 65536 + b[1] * 256 + b[2];
        let head = seq![b64_char((n / 262144) as nat), b64_char((n / 4096 % 64) as nat), b64_char((n / 64 % 64) as nat), b64_char((n % 64) as nat)];
        let tail = b64url(b.skip(3));
        assert(b64url(b) == head + tail);
        assert forall|i: int| 0 <= i < (head + tail).len() implies is_b64url_char(#[trigger] (head + tail)[i]) by {
            if i >= 4 {
                assert((head + tail)[i] == tail[i - 4]);
            }
        }
    }
}

// ---------------------------------------------------------------------------
// PKCE.
// ---------------------------------------------------------------------------

/// SHA-256 of a byte string.
pub uninterp spec fn sha256_digest(bytes: Seq<u8>) -> Seq<u8>;

/// `Sha256::digest` from the `sha2` crate.
/// Trusted: the result is the digest of exactly these bytes, 32 bytes long
/// (the hasher's output size); the hash itself is named, not spelled out.
#[verifier::external_body]
fn sha256(bytes: &[u8]) -> (r: Vec<u8>)
    ensures
        r@ == sha256_digest(bytes@),
        r@.len() == 32,
{
    sha2::Sha256::digest(bytes).to_vec()
}

/// The S256 code challenge of a verifier: base64url of its SHA-256.
pub open spec fn s256_challenge(verifier: Seq<char>) -> Seq<char> {
    b64url(sha256_digest(encode_utf8(verifier)))
}

pub fn code_challenge_s256(verifier: &str) -> (r: String)
    ensures
        r@ == s256_challenge(verifier@),
{
    let digest = sha256(verifier.as_bytes());
    base64url_encode(digest.as_slice())
}

/// Challenge algorithms supported by the PKCE helpers.
#[derive(Debug, Clone, Copy, PartialEq, Eq, Structural)]
pub enum PkceChallengeMethod {
    S256,
}

impl PkceChallengeMethod {
    pub fn as_str(self) -> (r: &'static str)
        ensures
            r@ == "S256"@,
    {
        match self {
            PkceChallengeMethod::S256 => "S256",
        }
    }
}

/// PKCE verifier/challenge pair for an authorization flow.
#[derive(Debug, Clone, PartialEq, Eq)]
pub struct PkceCodePair {
    pub verifier: String,
    pub challenge: String,
    pub challenge_method: PkceChallengeMethod,
}

/// The PKCE pair made from random bytes: the verifier is their base64url
/// text and the challenge its S256 challenge.
pub fn generate_pkce_pair(random: &[u8]) -> (r: PkceCodePair)
    ensures
        r.verifier@ == b64url(random@),
        r.challenge@ == s256_challenge(r.verifier@),
        r.challenge_method == PkceChallengeMethod::S256,
{
    let verifier = base64url_encode(random);
    let challenge = code_challenge_s256(verifier.as_str());
    PkceCodePair { verifier, challenge, challenge_method: PkceChallengeMethod::S256 }
}

/// The OAuth `state` value made from random bytes: their base64url text.
pub fn generate_state(random: &[u8]) -> (r: String)
    ensures
        r@ == b64url(random@),
{
    base64url_encode(random)
}

/// The loopback redirect URI for a callback port.
pub open spec fn loopback_uri(port: u16) -> Seq<char> {
    "http://localhost:"@ + dec_string(port as nat) + "/callback"@
}

pub fn loopback_redirect_uri(port: u16) -> (r: String)
    ensures
        r@ == loopback_uri(port),
{
    let mut v: Vec<char> = Vec::new();
    push_str(&mut v, "http://localhost:");
    push_decimal(&mut v, port as u64);
    push_str(&mut v, "/callback");
    string_from_chars(&v)
}

// ---------------------------------------------------------------------------
// HTML escaping.
// ---------------------------------------------------------------------------

pub open spec fn escape_html_char(c: char) -> Seq<char> {
    if c == '&' {
        "&amp;"@
    } else if c == '<' {
        "&lt;"@
    } else if c == '>' {
        "&gt;"@
    } else if c == '"' {
        "&quot;"@
    } else {
        seq![c]
    }
}

/// `&`, `<`, `>` and `"` replaced by their HTML entities.
pub open spec fn html_escaped(s: Seq<char>) -> Seq<char>
    decreases s.len(),
{
    if s.len() == 0 {
        seq![]
    } else {
        html_escaped(s.drop_last()) + escape_html_char(s.last())
    }
}

pub fn html_escape(input: &str) -> (r: String)
    ensures
        r@ == html_escaped(input@),
{
    let s = chars_of(input);
    let mut out: Vec<char> = Vec::new();
    let mut i: usize = 0;
    while i < s.len()
        invariant
            i <= s.len(),
            out@ == html_escaped(s@.take(i as int)),
        decreases s.len() - i,
    {
        let c = s[i];
        assert(s@.take(i + 1).drop_last() =~= s@.take(i as int));
        if c == '&' {
            push_str(&mut out, "&amp;");
        } else if c == '<' {
            push_str(&mut out, "&lt;");
        } else if c == '>' {
            push_str(&mut out, "&gt;");
        } else if c == '"' {
            push_str(&mut out, "&quot;");
        } else {
            out.push(c);
        }
        proof {
            reveal_strlit("&amp;");
            reveal_strlit("&lt;");
            reveal_strlit("&gt;");
            reveal_strlit("&quot;");
        }
        assert(out@ =~= html_escaped(s@.take(i + 1)));
        i += 1;
    }
    assert(s@.take(s.len() as int) =~= s@);
    string_from_chars(&out)
}

/// Escaped text holds no `<`, `>` or `"`, so it cannot open a tag or leave
/// an attribute.
pub proof fn law_html_escape_removes_markup(s: Seq<char>)
    ensures
        forall|i: int|
            0 <= i < html_escaped(s).len() ==> #[trigger] html_escaped(s)[i] != '<' && html_escaped(s)[i] != '>'
                && html_escaped(s)[i] != '"',
    decreases s.len(),
{
    reveal_strlit("&amp;");
    reveal_strlit("&lt;");
    reveal_strlit("&gt;");
    reveal_strlit("&quot;");
    if s.len() > 0 {
        law_html_escape_removes_markup(s.drop_last());
        let a = html_escaped(s.drop_last());
        let b = escape_html_char(s.last());
        assert forall|i: int| 0 <= i < (a + b).len() implies #[trigger] (a + b)[i] != '<' && (a + b)[i] != '>' && (
        a + b)[i] != '"' by {
            if i < a.len() {
                assert((a + b)[i] == a[i]);
            } else {
                assert((a + b)[i] == b[i - a.len()]);
            }
        }
    }
}

// ---------------------------------------------------------------------------
// Configuration, tokens and request bodies.
// ---------------------------------------------------------------------------

/// OAuth client configuration.
#[derive(Debug, Clone, PartialEq, Eq)]
pub struct OAuthConfig {
    pub client_id: String,
    pub authorize_url: String,
    pub token_url: String,
    pub callback_port: Option<u16>,
    pub manual_redirect_url: Option<String>,
    pub scopes: Vec<String>,
}

/// Persisted OAuth access token bundle.
#[derive(Debug, Clone, PartialEq, Eq)]
pub struct OAuthTokenSet {
    pub access_token: String,
    pub refresh_token: Option<String>,
    pub expires_at: Option<u64>,
    pub scopes: Vec<String>,
}

/// The views of key/value string pairs.
pub open spec fn pair_views(ps: Seq<(String, String)>) -> Seq<(Seq<char>, Seq<char>)> {
    ps.map_values(|p: (String, String)| (p.0@, p.1@))
}

/// Keys in strictly ascending order (the order a `BTreeMap` keeps).
pub open spec fn keys_ascending(ps: Seq<(Seq<char>, Seq<char>)>) -> bool {
    forall|i: int, j: int| 0 <= i < j < ps.len() ==> seq_lt(#[trigger] ps[i].0, #[trigger] ps[j].0)
}

/// Number of leading pairs whose key sorts below `k`.
pub open spec fn insert_point(ps: Seq<(Seq<char>, Seq<char>)>, k: Seq<char>) -> nat
    decreases ps.len(),
{
    if ps.len() == 0 {
        0
    } else if seq_lt(ps[0].0, k) {
        1 + insert_point(ps.drop_first(), k)
    } else {
        0
    }
}

/// `ps` with `k` set to `v`: an existing `k` at the insertion point is
/// replaced, otherwise the pair is inserted there.
pub open spec fn with_param(ps: Seq<(Seq<char>, Seq<char>)>, k: Seq<char>, v: Seq<char>) -> Seq<(Seq<char>, Seq<char>)> {
    let j = insert_point(ps, k) as int;
    ps.take(j) + seq![(k, v)] + if j < ps.len() && ps[j].0 == k {
        ps.skip(j + 1)
    } else {
        ps.skip(j)
    }
}

proof fn lemma_insert_point(ps: Seq<(Seq<char>, Seq<char>)>, k: Seq<char>)
    ensures
        insert_point(ps, k) <= ps.len(),
        forall|i: int| 0 <= i < insert_point(ps, k) ==> seq_lt(#[trigger] ps[i].0, k),
        insert_point(ps, k) < ps.len() ==> !seq_lt(ps[insert_point(ps, k) as int].0, k),
    decreases ps.len(),
{
    if ps.len() > 0 && seq_lt(ps[0].0, k) {
        lemma_insert_point(ps.drop_first(), k);
        assert forall|i: int| 0 <= i < insert_point(ps, k) implies seq_lt(#[trigger] ps[i].0, k) by {
            if i > 0 {
                assert(ps[i] == ps.drop_first()[i - 1]);
            }
        }
    }
}

/// Setting a parameter keeps the keys in ascending order.
pub proof fn law_extra_params_stay_sorted(ps: Seq<(Seq<char>, Seq<char>)>, k: Seq<char>, v: Seq<char>)
    requires
        keys_ascending(ps),
    ensures
        keys_ascending(with_param(ps, k, v)),
{
    lemma_insert_point(ps, k);
    let j = insert_point(ps, k) as int;
    let r = with_param(ps, k, v);
    let replaced = j < ps.len() && ps[j].0 == k;
    let tail = if replaced { ps.skip(j + 1) } else { ps.skip(j) };
    let t0 = if replaced { j + 1 } else { j };
    assert forall|a: int| 0 <= a < tail.len() implies seq_lt(k, #[trigger] tail[a].0) by {
        assert(tail[a] == ps[t0 + a]);
        if replaced {
            assert(seq_lt(ps[j].0, ps[t0 + a].0));
        } else {
            assert(ps[j].0 != k);
            lemma_seq_lt_total(ps[j].0, k);
            if a > 0 {
                assert(seq_lt(ps[j].0, ps[j + a].0));
                lemma_seq_lt_transitive(k, ps[j].0, ps[j + a].0);
            }
        }
    }
    assert forall|a: int, b: int| 0 <= a < b < r.len() implies seq_lt(#[trigger] r[a].0, #[trigger] r[b].0) by {
        if b < j {
            assert(r[a] == ps[a] && r[b] == ps[b]);
        } else if b == j {
            assert(r[a] == ps[a] && r[b].0 == k);
        } else if a < j {
            assert(r[a] == ps[a]);
            assert(r[b] == tail[b - j - 1]);
            assert(seq_lt(k, tail[b - j - 1].0));
            lemma_seq_lt_transitive(ps[a].0, k, r[b].0);
        } else if a == j {
            assert(r[b] == tail[b - j - 1]);
        } else {
            assert(r[a] == tail[a - j - 1] && r[b] == tail[b - j - 1]);
            assert(tail[a - j - 1] == ps[t0 + a - j - 1] && tail[b - j - 1] == ps[t0 + b - j - 1]);
        }
    }
}

/// Parameters needed to build an authorization URL for browser login.
#[derive(Debug, Clone, PartialEq, Eq)]
pub struct OAuthAuthorizationRequest {
    pub authorize_url: String,
    pub client_id: String,
    pub redirect_uri: String,
    pub scopes: Vec<String>,
    pub state: String,
    pub code_challenge: String,
    pub code_challenge_method: PkceChallengeMethod,
    /// Extra query parameters, kept in ascending key order.
    pub extra_params: Vec<(String, String)>,
}

/// The query parameters of an authorization URL, in order.
pub open spec fn authorization_params(r: OAuthAuthorizationRequest) -> Seq<(Seq<char>, Seq<char>)> {
    seq![
        ("response_type"@, "code"@),
        ("client_id"@, r.client_id@),
        ("redirect_uri"@, r.redirect_uri@),
        ("scope"@, join(string_views(r.scopes@), " "@)),
        ("state"@, r.state@),
        ("code_challenge"@, r.code_challenge@),
        ("code_challenge_method"@, "S256"@),
    ] + pair_views(r.extra_params@)
}

/// `key=value`, both percent-encoded.
pub open spec fn url_pair(p: (Seq<char>, Seq<char>)) -> Seq<char> {
    percent_encoded(p.0) + "="@ + percent_encoded(p.1)
}

/// The pairs joined into a query string.
pub open spec fn query_string(ps: Seq<(Seq<char>, Seq<char>)>) -> Seq<char> {
    join(ps.map_values(|p: (Seq<char>, Seq<char>)| url_pair(p)), "&"@)
}

/// The authorization URL: the endpoint, `?` (or `&` when it already has a
/// query), then the query string.
pub open spec fn authorization_url(r: OAuthAuthorizationRequest) -> Seq<char> {
    r.authorize_url@ + (if r.authorize_url@.contains('?') {
        "&"@
    } else {
        "?"@
    }) + query_string(authorization_params(r))
}

fn url_pair_string(key: &str, value: &str) -> (r: String)
    ensures
        r@ == url_pair((key@, value@)),
{
    let mut v: Vec<char> = Vec::new();
    let k = percent_encode(key);
    let e = percent_encode(value);
    push_str(&mut v, k.as_str());
    push_str(&mut v, "=");
    push_str(&mut v, e.as_str());
    string_from_chars(&v)
}

impl OAuthAuthorizationRequest {
    pub fn from_config(config: &OAuthConfig, redirect_uri: &str, state: &str, pkce: &PkceCodePair) -> (r: Self)
        ensures
            r.authorize_url == config.authorize_url,
            r.client_id == config.client_id,
            r.redirect_uri@ == redirect_uri@,
            r.scopes@ == config.scopes@,
            r.state@ == state@,
            r.code_challenge == pkce.challenge,
            r.code_challenge_method == pkce.challenge_method,
            r.extra_params@.len() == 0,
    {
        OAuthAuthorizationRequest {
            authorize_url: config.authorize_url.clone(),
            client_id: config.client_id.clone(),
            redirect_uri: owned(redirect_uri),
            scopes: clone_strings(&config.scopes),
            state: owned(state),
            code_challenge: pkce.challenge.clone(),
            code_challenge_method: pkce.challenge_method,
            extra_params: Vec::new(),
        }
    }

    /// Sets an extra query parameter, keeping the keys in ascending order.
    pub fn with_extra_param(self, key: &str, value: &str) -> (r: Self)
        ensures
            pair_views(r.extra_params@) == with_param(pair_views(self.extra_params@), key@, value@),
            r.authorize_url == self.authorize_url,
            r.client_id == self.client_id,
            r.redirect_uri == self.redirect_uri,
            r.scopes == self.scopes,
            r.state == self.state,
            r.code_challenge == self.code_challenge,
            r.code_challenge_method == self.code_challenge_method,
    {
        let mut s = self;
        let k = chars_of(key);
        let ghost ps = pair_views(s.extra_params@);
        let mut j: usize = 0;
        proof {
            assert(ps.skip(0) =~= ps);
        }
        while j < s.extra_params.len() && chars_lt(&chars_of(s.extra_params[j].0.as_str()), &k)
            invariant
                j <= s.extra_params.len(),
                ps == pair_views(s.extra_params@),
                k@ == key@,
                insert_point(ps, key@) == j + insert_point(ps.skip(j as int), key@),
            decreases s.extra_params.len() - j,
        {
            assert(ps.skip(j as int).drop_first() =~= ps.skip(j + 1));
            j += 1;
        }
        proof {
            if j < s.extra_params.len() {
                assert(ps.skip(j as int)[0] == ps[j as int]);
            }
        }
        let replace = j < s.extra_params.len() && chars_eq_str(&chars_of(s.extra_params[j].0.as_str()), key);
        if replace {
            s.extra_params.set(j, (owned(key), owned(value)));
            assert(pair_views(s.extra_params@) =~= with_param(ps, key@, value@));
        } else {
            s.extra_params.insert(j, (owned(key), owned(value)));
            assert(pair_views(s.extra_params@) =~= with_param(ps, key@, value@));
        }
        s
    }

    pub fn build_url(&self) -> (r: String)
        ensures
            r@ == authorization_url(*self),
    {
        let scope = join_strings(&self.scopes, " ");
        let scope_text = string_from_chars(&scope);
        let mut pairs: Vec<String> = Vec::new();
        pairs.push(url_pair_string("response_type", "code"));
        pairs.push(url_pair_string("client_id", self.client_id.as_str()));
        pairs.push(url_pair_string("redirect_uri", self.redirect_uri.as_str()));
        pairs.push(url_pair_string("scope", scope_text.as_str()));
        pairs.push(url_pair_string("state", self.state.as_str()));
        pairs.push(url_pair_string("code_challenge", self.code_challenge.as_str()));
        pairs.push(url_pair_string("code_challenge_method", self.code_challenge_method.as_str()));
        let ghost all = authorization_params(*self);
        let ghost encoded = all.map_values(|p: (Seq<char>, Seq<char>)| url_pair(p));
        assert(string_views(pairs@) =~= encoded.take(7));
        let mut i: usize = 0;
        while i < self.extra_params.len()
            invariant
                i <= self.extra_params.len(),
                all == authorization_params(*self),
                encoded == all.map_values(|p: (Seq<char>, Seq<char>)| url_pair(p)),
                string_views(pairs@) == encoded.take(7 + i),
            decreases self.extra_params.len() - i,
        {
            let item = url_pair_string(self.extra_params[i].0.as_str(), self.extra_params[i].1.as_str());
            assert(all[7 + i] == pair_views(self.extra_params@)[i as int]);
            assert(encoded[7 + i] == url_pair(all[7 + i]));
            assert(encoded.len() == 7 + self.extra_params@.len());
            let ghost before = string_views(pairs@);
            pairs.push(item);
            assert(string_views(pairs@) =~= before.push(item@));
            assert(string_views(pairs@) =~= encoded.take(7 + i + 1));
            i += 1;
        }
        assert(encoded.take(7 + i) =~= encoded);
        let query = join_strings(&pairs, "&");
        let base = chars_of(self.authorize_url.as_str());
        let mut url: Vec<char> = Vec::new();
        push_all(&mut url, &base);
        if contains_char(&base, '?') {
            push_str(&mut url, "&");
        } else {
            push_str(&mut url, "?");
        }
        push_all(&mut url, &query);
        string_from_chars(&url)
    }
}

/// Form fields of a token request, in ascending key order.
#[derive(Debug, Clone, PartialEq, Eq)]
pub struct FormParams {
    entries: Vec<(&'static str, String)>,
}

/// The first value stored under `key`.
pub open spec fn field_value(ps: Seq<(Seq<char>, Seq<char>)>, key: Seq<char>) -> Option<Seq<char>>
    decreases ps.len(),
{
    if ps.len() == 0 {
        None
    } else if ps[0].0 == key {
        Some(ps[0].1)
    } else {
        field_value(ps.drop_first(), key)
    }
}

impl FormParams {
    /// The fields as key/value text.
    pub closed spec fn fields(&self) -> Seq<(Seq<char>, Seq<char>)> {
        self.entries@.map_values(|p: (&'static str, String)| (p.0@, p.1@))
    }

    pub fn get(&self, key: &str) -> (r: Option<&String>)
        ensures
            match r {
                Some(v) => field_value(self.fields(), key@) == Some(v@),
                None => field_value(self.fields(), key@) is None,
            },
    {
        let ghost fs = self.fields();
        let mut i: usize = 0;
        proof {
            assert(fs.skip(0) =~= fs);
        }
        while i < self.entries.len()
            invariant
                i <= self.entries.len(),
                fs == self.fields(),
                field_value(fs, key@) == field_value(fs.skip(i as int), key@),
            decreases self.entries.len() - i,
        {
            assert(fs.skip(i as int)[0] == fs[i as int]);
            if str_eq_static(self.entries[i].0, key) {
                return Some(&self.entries[i].1);
            }
            assert(fs.skip(i as int).drop_first() =~= fs.skip(i + 1));
            i += 1;
        }
        None
    }

    pub fn len(&self) -> (r: usize)
        ensures
            r == self.fields().len(),
    {
        self.entries.len()
    }
}

fn str_eq_static(a: &'static str, b: &str) -> (r: bool)
    ensures
        r == (a@ == b@),
{
    crate::text::str_eq(a, b)
}

fn form_field(key: &'static str, value: String) -> (r: (&'static str, String))
    ensures
        r.0 == key,
        r.1 == value,
{
    (key, value)
}

/// Request body for exchanging an authorization code for tokens.
#[derive(Debug, Clone, PartialEq, Eq)]
pub struct OAuthTokenExchangeRequest {
    pub grant_type: &'static str,
    pub code: String,
    pub redirect_uri: String,
    pub client_id: String,
    pub code_verifier: String,
    pub state: String,
}

impl OAuthTokenExchangeRequest {
    pub fn from_config(config: &OAuthConfig, code: &str, state: &str, verifier: &str, redirect_uri: &str) -> (r:
        Self)
        ensures
            r.grant_type@ == "authorization_code"@,
            r.code@ == code@,
            r.redirect_uri@ == redirect_uri@,
            r.client_id == config.client_id,
            r.code_verifier@ == verifier@,
            r.state@ == state@,
    {
        OAuthTokenExchangeRequest {
            grant_type: "authorization_code",
            code: owned(code),
            redirect_uri: owned(redirect_uri),
            client_id: config.client_id.clone(),
            code_verifier: owned(verifier),
            state: owned(state),
        }
    }

    /// The form fields, in ascending key order.
    pub fn form_params(&self) -> (r: FormParams)
        ensures
            r.fields() == seq![
                ("client_id"@, self.client_id@),
                ("code"@, self.code@),
                ("code_verifier"@, self.code_verifier@),
                ("grant_type"@, self.grant_type@),
                ("redirect_uri"@, self.redirect_uri@),
                ("state"@, self.state@),
            ],
    {
        let mut entries: Vec<(&'static str, String)> = Vec::new();
        entries.push(form_field("client_id", self.client_id.clone()));
        entries.push(form_field("code", self.code.clone()));
        entries.push(form_field("code_verifier", self.code_verifier.clone()));
        entries.push(form_field("grant_type", owned(self.grant_type)));
        entries.push(form_field("redirect_uri", self.redirect_uri.clone()));
        entries.push(form_field("state", self.state.clone()));
        let r = FormParams { entries };
        assert(r.fields() =~= seq![
            ("client_id"@, self.client_id@),
            ("code"@, self.code@),
            ("code_verifier"@, self.code_verifier@),
            ("grant_type"@, self.grant_type@),
            ("redirect_uri"@, self.redirect_uri@),
            ("state"@, self.state@),
        ]);
        r
    }
}

/// Request body for refreshing a token set.
#[derive(Debug, Clone, PartialEq, Eq)]
pub struct OAuthRefreshRequest {
    pub grant_type: &'static str,
    pub refresh_token: String,
    pub client_id: String,
    pub scopes: Vec<String>,
}

impl OAuthRefreshRequest {
    /// A refresh request; without scopes of its own it asks for the
    /// configured ones.
    pub fn from_config(config: &OAuthConfig, refresh_token: &str, scopes: Option<Vec<String>>) -> (r: Self)
        ensures
            r.grant_type@ == "refresh_token"@,
            r.refresh_token@ == refresh_token@,
            r.client_id == config.client_id,
            r.scopes@ == match scopes {
                Some(s) => s@,
                None => config.scopes@,
            },
    {
        let scopes = match scopes {
            Some(s) => s,
            None => clone_strings(&config.scopes),
        };
        OAuthRefreshRequest {
            grant_type: "refresh_token",
            refresh_token: owned(refresh_token),
            client_id: config.client_id.clone(),
            scopes,
        }
    }

    /// The form fields, in ascending key order.
    pub fn form_params(&self) -> (r: FormParams)
        ensures
            r.fields() == seq![
                ("client_id"@, self.client_id@),
                ("grant_type"@, self.grant_type@),
                ("refresh_token"@, self.refresh_token@),
                ("scope"@, join(string_views(self.scopes@), " "@)),
            ],
    {
        let scope = join_strings(&self.scopes, " ");
        let mut entries: Vec<(&'static str, String)> = Vec::new();
        entries.push(form_field("client_id", self.client_id.clone()));
        entries.push(form_field("grant_type", owned(self.grant_type)));
        entries.push(form_field("refresh_token", self.refresh_token.clone()));
        entries.push(form_field("scope", string_from_chars(&scope)));
        let r = FormParams { entries };
        assert(r.fields() =~= seq![
            ("client_id"@, self.client_id@),
            ("grant_type"@, self.grant_type@),
            ("refresh_token"@, self.refresh_token@),
            ("scope"@, join(string_views(self.scopes@), " "@)),
        ]);
        r
    }
}

// ---------------------------------------------------------------------------
// The local callback.
// ---------------------------------------------------------------------------

/// Query parameters returned to the local callback endpoint.
#[derive(Debug, Clone, PartialEq, Eq)]
pub struct OAuthCallbackParams {
    pub code: Option<String>,
    pub state: Option<String>,
    pub error: Option<String>,
    pub error_description: Option<String>,
}

/// Result of a successful callback.
#[derive(Debug, Clone, PartialEq, Eq)]
pub struct OAuthCallbackResult {
    pub code: String,
    pub state: String,
}

/// Request body for starting a device authorization flow.
#[derive(Debug, Clone, PartialEq, Eq)]
pub struct DeviceAuthRequest {
    pub client_id: String,
    pub scope: String,
}

/// Response from a device authorization endpoint.
#[derive(Debug, Clone, PartialEq, Eq)]
pub struct DeviceAuthResponse {
    pub device_code: String,
    pub user_code: String,
    pub verification_uri: String,
    pub verification_uri_complete: Option<String>,
    pub expires_in: u64,
    pub interval: u64,
}

pub open spec fn opt_view(o: Option<String>) -> Option<Seq<char>> {
    match o {
        Some(s) => Some(s@),
        None => None,
    }
}

/// A query segment split at its first `=`; without one, all key.
pub open spec fn segment_pair(seg: Seq<char>) -> (Seq<char>, Seq<char>) {
    match split_once_at(seg, '=') {
        Some(p) => p,
        None => (seg, seq![]),
    }
}

/// The decoded key and value of one query segment, or the first decoding
/// error.
pub open spec fn decoded_segment(seg: Seq<char>) -> Result<(Seq<char>, Seq<char>), Seq<char>> {
    let (k, v) = segment_pair(seg);
    match percent_decoded(k) {
        Err(e) => Err(e),
        Ok(dk) => match percent_decoded(v) {
            Err(e) => Err(e),
            Ok(dv) => Ok((dk, dv)),
        },
    }
}

fn split_segment(seg: &Vec<char>) -> (r: (Vec<char>, Vec<char>))
    ensures
        segment_pair(seg@) == (r.0@, r.1@),
{
    let s = seg.as_slice();
    let (k, v) = match find_char(s, '=') {
        Some(j) => {
            assert(j < seg.len());
            (slice_to_vec(s, 0, j), slice_to_vec(s, j + 1, seg.len()))
        },
        None => (slice_to_vec(s, 0, seg.len()), Vec::new()),
    };
    proof {
        assert(s@.subrange(0, s@.len() as int) =~= s@);
        match split_once_at(s@, '=') {
            Some(p) => {
                assert(p.0 =~= k@);
                assert(p.1 =~= v@);
            },
            None => {
                assert(v@ =~= Seq::<char>::empty());
            },
        }
    }
    (k, v)
}

proof fn lemma_decoded_pairs_error(segs: Seq<Seq<char>>, n: int)
    requires
        0 <= n <= segs.len(),
        decoded_pairs(segs.take(n)) is Err,
    ensures
        decoded_pairs(segs) == decoded_pairs(segs.take(n)),
    decreases segs.len() - n,
{
    if n < segs.len() {
        assert(segs.take(n + 1).drop_last() =~= segs.take(n));
        lemma_decoded_pairs_error(segs, n + 1);
    } else {
        assert(segs.take(n) =~= segs);
    }
}

fn decode_segment(seg: &Vec<char>) -> (r: Result<(String, String), String>)
    ensures
        match r {
            Ok(p) => decoded_segment(seg@) == Ok::<(Seq<char>, Seq<char>), Seq<char>>((p.0@, p.1@)),
            Err(m) => decoded_segment(seg@) == Err::<(Seq<char>, Seq<char>), Seq<char>>(m@),
        },
{
    let (k, v) = split_segment(seg);
    let ks = string_from_chars(&k);
    let vs = string_from_chars(&v);
    let dk = match percent_decode(ks.as_str()) {
        Ok(d) => d,
        Err(e) => return Err(e),
    };
    let dv = match percent_decode(vs.as_str()) {
        Ok(d) => d,
        Err(e) => return Err(e),
    };
    Ok((dk, dv))
}

/// The decoded key/value pairs of the query segments, in order, skipping
/// empty segments; or the first decoding error.
pub open spec fn decoded_pairs(segs: Seq<Seq<char>>) -> Result<Seq<(Seq<char>, Seq<char>)>, Seq<char>>
    decreases segs.len(),
{
    if segs.len() == 0 {
        Ok(seq![])
    } else {
        match decoded_pairs(segs.drop_last()) {
            Err(e) => Err(e),
            Ok(ps) => if segs.last().len() == 0 {
                Ok(ps)
            } else {
                match decoded_segment(segs.last()) {
                    Err(e) => Err(e),
                    Ok(p) => Ok(ps.push(p)),
                }
            },
        }
    }
}

/// The value of the last pair with `key` (a later pair overrides an
/// earlier one).
pub open spec fn last_value(ps: Seq<(Seq<char>, Seq<char>)>, key: Seq<char>) -> Option<Seq<char>>
    decreases ps.len(),
{
    if ps.len() == 0 {
        None
    } else if ps.last().0 == key {
        Some(ps.last().1)
    } else {
        last_value(ps.drop_last(), key)
    }
}

/// The callback parameters a query carries: `code`, `state`, `error` and
/// `error_description`, or the first decoding error.
pub open spec fn callback_query(query: Seq<char>) -> Result<
    (Option<Seq<char>>, Option<Seq<char>>, Option<Seq<char>>, Option<Seq<char>>),
    Seq<char>,
> {
    match decoded_pairs(split_on(query, '&')) {
        Err(e) => Err(e),
        Ok(ps) => Ok(
            (
                last_value(ps, "code"@),
                last_value(ps, "state"@),
                last_value(ps, "error"@),
                last_value(ps, "error_description"@),
            ),
        ),
    }
}

/// Whether parsed parameters hold what a query carries.
pub open spec fn params_match(
    p: OAuthCallbackParams,
    v: (Option<Seq<char>>, Option<Seq<char>>, Option<Seq<char>>, Option<Seq<char>>),
) -> bool {
    opt_view(p.code) == v.0 && opt_view(p.state) == v.1 && opt_view(p.error) == v.2 && opt_view(
        p.error_description,
    ) == v.3
}

fn find_last_value(pairs: &Vec<(String, String)>, key: &str) -> (r: Option<String>)
    ensures
        opt_view(r) == last_value(pair_views(pairs@), key@),
{
    let ghost ps = pair_views(pairs@);
    let mut found: Option<String> = None;
    let mut i: usize = 0;
    while i < pairs.len()
        invariant
            i <= pairs.len(),
            ps == pair_views(pairs@),
            opt_view(found) == last_value(ps.take(i as int), key@),
        decreases pairs.len() - i,
    {
        assert(ps.take(i + 1).drop_last() =~= ps.take(i as int));
        if str_eq_key(pairs[i].0.as_str(), key) {
            found = Some(pairs[i].1.clone());
        }
        i += 1;
    }
    assert(ps.take(pairs.len() as int) =~= ps);
    found
}

fn str_eq_key(a: &str, b: &str) -> (r: bool)
    ensures
        r == (a@ == b@),
{
    crate::text::str_eq(a, b)
}

pub fn parse_oauth_callback_query(query: &str) -> (r: Result<OAuthCallbackParams, String>)
    ensures
        match r {
            Ok(p) => callback_query(query@) matches Ok(v) && params_match(p, v),
            Err(m) => callback_query(query@) == Err::<
                (Option<Seq<char>>, Option<Seq<char>>, Option<Seq<char>>, Option<Seq<char>>),
                Seq<char>,
            >(m@),
        },
{
    let q = chars_of(query);
    let segs = split_chars(&q, '&');
    let ghost sv = segs@.map_values(|v: Vec<char>| v@);
    let mut pairs: Vec<(String, String)> = Vec::new();
    let mut i: usize = 0;
    assert(sv.take(0) =~= Seq::<Seq<char>>::empty());
    assert(pair_views(pairs@) =~= Seq::<(Seq<char>, Seq<char>)>::empty());
    while i < segs.len()
        invariant
            i <= segs.len(),
            sv == segs@.map_values(|v: Vec<char>| v@),
            sv == split_on(query@, '&'),
            decoded_pairs(sv.take(i as int)) == Ok::<Seq<(Seq<char>, Seq<char>)>, Seq<char>>(pair_views(pairs@)),
        decreases segs.len() - i,
    {
        let seg = &segs[i];
        let ghost prefix = sv.take(i + 1);
        assert(prefix.drop_last() =~= sv.take(i as int));
        assert(prefix.last() == seg@);
        if seg.len() > 0 {
            let (dk, dv) = match decode_segment(seg) {
                Ok(p) => p,
                Err(e) => {
                    proof {
                        lemma_decoded_pairs_error(sv, i + 1);
                    }
                    return Err(e);
                },
            };
            let ghost before = pair_views(pairs@);
            pairs.push((dk, dv));
            assert(pair_views(pairs@) =~= before.push((dk@, dv@)));
        }
        i += 1;
    }
    assert(sv.take(segs.len() as int) =~= sv);
    let code = find_last_value(&pairs, "code");
    let state = find_last_value(&pairs, "state");
    let error = find_last_value(&pairs, "error");
    let error_description = find_last_value(&pairs, "error_description");
    Ok(OAuthCallbackParams { code, state, error, error_description })
}

/// What parsing a callback request target gives: the query's parameters
/// when the path is `/callback`, an error naming the path otherwise.
pub open spec fn callback_target(target: Seq<char>) -> Result<
    (Option<Seq<char>>, Option<Seq<char>>, Option<Seq<char>>, Option<Seq<char>>),
    Seq<char>,
> {
    let (path, query) = match split_once_at(target, '?') {
        Some(p) => p,
        None => (target, seq![]),
    };
    if path != "/callback"@ {
        Err("unexpected callback path: "@ + path)
    } else {
        callback_query(query)
    }
}

pub fn parse_oauth_callback_request_target(target: &str) -> (r: Result<OAuthCallbackParams, String>)
    ensures
        match r {
            Ok(p) => callback_target(target@) matches Ok(v) && params_match(p, v),
            Err(m) => callback_target(target@) == Err::<
                (Option<Seq<char>>, Option<Seq<char>>, Option<Seq<char>>, Option<Seq<char>>),
                Seq<char>,
            >(m@),
        },
{
    let t = chars_of(target);
    let n = t.len();
    let (path, query) = match find_char(t.as_slice(), '?') {
        Some(j) => {
            assert(j < n);
            (slice_to_vec(t.as_slice(), 0, j), slice_to_vec(t.as_slice(), j + 1, n))
        },
        None => (slice_to_vec(t.as_slice(), 0, t.len()), Vec::new()),
    };
    proof {
        assert(t@.subrange(0, t@.len() as int) =~= t@);
        match split_once_at(target@, '?') {
            Some(p) => {
                assert(p.0 =~= path@);
                assert(p.1 =~= query@);
            },
            None => {
                assert(query@ =~= Seq::<char>::empty());
            },
        }
    }
    if !chars_eq_str(&path, "/callback") {
        let mut m: Vec<char> = Vec::new();
        push_str(&mut m, "unexpected callback path: ");
        push_all(&mut m, &path);
        return Err(string_from_chars(&m));
    }
    let qs = string_from_chars(&query);
    parse_oauth_callback_query(qs.as_str())
}


// ---------------------------------------------------------------------------
// Polling for a device token.
// ---------------------------------------------------------------------------

/// The scopes of a token response: its `scope` text split at each space;
/// none when it has no such text.
pub open spec fn granted_scopes(token: crate::json_node::JsonNode) -> Seq<Seq<char>> {
    match crate::json_node::opt_str(crate::json_node::node_get(token, "scope"@)) {
        Some(s) => split_on(s, ' '),
        None => seq![],
    }
}

/// The token a successful device-token response grants, read at `now`
/// (seconds since the epoch); `None` when it carries no access token.
pub fn read_device_token(token: &crate::json_node::JsonNode, now_secs: u64) -> (r: Option<OAuthTokenSet>)
    requires
        crate::json_node::opt_u64(crate::json_node::node_get(*token, "expires_in"@)) matches Some(secs)
            ==> now_secs + secs <= u64::MAX,
    ensures
        match crate::json_node::opt_str(crate::json_node::node_get(*token, "access_token"@)) {
            None => r is None,
            Some(access) => r matches Some(t) && t.access_token@ == access && opt_view(t.refresh_token)
                == crate::json_node::opt_str(crate::json_node::node_get(*token, "refresh_token"@)) && t.expires_at
                == match crate::json_node::opt_u64(crate::json_node::node_get(*token, "expires_in"@)) {
                Some(secs) => Some((now_secs + secs) as u64),
                None => None,
            } && string_views(t.scopes@) == granted_scopes(*token),
        },
{
    proof {
        reveal_strlit("access_token");
        reveal_strlit("refresh_token");
        reveal_strlit("expires_in");
        reveal_strlit("scope");
    }
    let access_token = match token.get("access_token") {
        Some(v) => match v.as_str() {
            Some(a) => owned(a),
            None => {
                return None;
            },
        },
        None => {
            return None;
        },
    };
    let refresh_token = match token.get("refresh_token") {
        Some(v) => match v.as_str() {
            Some(a) => Some(owned(a)),
            None => None,
        },
        None => None,
    };
    let expires_at = match token.get("expires_in") {
        Some(v) => match v.as_u64() {
            Some(secs) => Some(now_secs + secs),
            None => None,
        },
        None => None,
    };
    let scope = match token.get("scope") {
        Some(v) => v.as_str(),
        None => None,
    };
    let mut scopes: Vec<String> = Vec::new();
    if let Some(text) = scope {
        let parts = split_chars(&chars_of(text), ' ');
        let mut i: usize = 0;
        while i < parts.len()
            invariant
                i <= parts@.len(),
                string_views(scopes@) == parts@.map_values(|v: Vec<char>| v@).take(i as int),
            decreases parts.len() - i,
        {
            let piece = string_from_chars(&parts[i]);
            let ghost prev = scopes@;
            scopes.push(piece);
            assert(scopes@ == prev.push(piece));
            assert(string_views(scopes@) =~= string_views(prev).push(piece@));
            assert(parts@.map_values(|v: Vec<char>| v@).take(i + 1) =~= parts@.map_values(|v: Vec<char>| v@).take(
                i as int,
            ).push(parts@[i as int]@));
            i += 1;
        }
        assert(parts@.map_values(|v: Vec<char>| v@).take(parts@.len() as int) =~= parts@.map_values(
            |v: Vec<char>| v@,
        ));
    } else {
        assert(string_views(scopes@) =~= Seq::<Seq<char>>::empty());
    }
    Some(OAuthTokenSet { access_token, refresh_token, expires_at, scopes })
}

/// What an unsuccessful device-token response means.
#[derive(Debug, Clone, PartialEq, Eq)]
pub enum DeviceTokenWait {
    /// The user has not approved yet: poll again.
    Pending,
    /// Poll again after waiting five seconds.
    SlowDown,
    /// The device code expired.
    Expired,
    /// The user refused.
    Denied,
    /// Any other error: its text.
    Failed(String),
}

/// The error code of a response body (`unknown` when it names none).
pub open spec fn device_error_code(error_body: crate::json_node::JsonNode) -> Seq<char> {
    match crate::json_node::opt_str(crate::json_node::node_get(error_body, "error"@)) {
        Some(e) => e,
        None => "unknown"@,
    }
}

impl DeviceTokenWait {
    /// The text of an error outcome, as it is reported.
    pub open spec fn text(self) -> Option<Seq<char>> {
        match self {
            DeviceTokenWait::Expired => Some("Device authorization expired. Please try again."@),
            DeviceTokenWait::Denied => Some("User denied authorization."@),
            DeviceTokenWait::Failed(m) => Some(m@),
            _ => None,
        }
    }
}

/// Reads an unsuccessful device-token response: `error_body` is its body
/// as parsed (null when it is no JSON), `body` its text.
pub fn device_token_error(error_body: &crate::json_node::JsonNode, body: &str) -> (r: DeviceTokenWait)
    ensures
        ({
            let code = device_error_code(*error_body);
            if code == "authorization_pending"@ {
                r == DeviceTokenWait::Pending
            } else if code == "slow_down"@ {
                r == DeviceTokenWait::SlowDown
            } else if code == "expired_token"@ {
                r == DeviceTokenWait::Expired
            } else if code == "access_denied"@ {
                r == DeviceTokenWait::Denied
            } else {
                r matches DeviceTokenWait::Failed(m) && m@ == "Device token error: "@ + code + ": "@ + body@
            }
        }),
{
    proof {
        reveal_strlit("error");
        reveal_strlit("unknown");
    }
    let code: &str = match error_body.get("error") {
        Some(v) => match v.as_str() {
            Some(e) => e,
            None => "unknown",
        },
        None => "unknown",
    };
    if crate::text::str_eq(code, "authorization_pending") {
        DeviceTokenWait::Pending
    } else if crate::text::str_eq(code, "slow_down") {
        DeviceTokenWait::SlowDown
    } else if crate::text::str_eq(code, "expired_token") {
        DeviceTokenWait::Expired
    } else if crate::text::str_eq(code, "access_denied") {
        DeviceTokenWait::Denied
    } else {
        let mut v = chars_of("Device token error: ");
        push_str(&mut v, code);
        push_str(&mut v, ": ");
        push_str(&mut v, body);
        DeviceTokenWait::Failed(string_from_chars(&v))
    }
}


// ---------------------------------------------------------------------------
// Answering the browser's callback.
// ---------------------------------------------------------------------------

/// The target of an HTTP request line: its second word (empty when it has
/// none).
pub open spec fn request_target_of(line: Seq<char>) -> Seq<char> {
    let ws = crate::compact_pipeline::words(line);
    if ws.len() > 1 {
        ws[1]
    } else {
        seq![]
    }
}

pub fn request_target(first_line: &str) -> (r: String)
    ensures
        r@ == request_target_of(first_line@),
{
    let ws = crate::compact_pipeline::words_of(&chars_of(first_line));
    let ghost wv = ws@.map_values(|w: Vec<char>| w@);
    if ws.len() > 1 {
        assert(wv[1] == ws@[1]@);
        string_from_chars(&ws[1])
    } else {
        proof {
            reveal_strlit("");
            assert(""@ =~= Seq::<char>::empty());
        }
        owned("")
    }
}

/// An HTML response with its status line and headers.
pub open spec fn http_response_text(status: Seq<char>, body: Seq<char>) -> Seq<char> {
    "HTTP/1.1 "@ + status + "\r\nContent-Type: text/html; charset=utf-8\r\nContent-Length: "@ + dec_string(
        crate::text::utf8_size(body) as nat,
    ) + "\r\nConnection: close\r\n\r\n"@ + body
}

fn http_response(status: &str, body: &str) -> (r: String)
    ensures
        r@ == http_response_text(status@, body@),
{
    let mut v = chars_of("HTTP/1.1 ");
    push_str(&mut v, status);
    push_str(&mut v, "\r\nContent-Type: text/html; charset=utf-8\r\nContent-Length: ");
    let n = crate::file_ops::byte_len(body);
    push_decimal(&mut v, n as u64);
    push_str(&mut v, "\r\nConnection: close\r\n\r\n");
    push_str(&mut v, body);
    string_from_chars(&v)
}

/// The page shown after a successful sign-in.
pub open spec fn success_page() -> Seq<char> {
    "<!DOCTYPE html>\n<html><head><title>Authentication Successful</title></head>\n<body style=\"font-family:sans-serif;text-align:center;padding:40px;\">\n<h1>\u{2705} Authentication Successful</h1>\n<p>You can close this tab and return to the terminal.</p>\n</body></html>"@
}

/// The page shown when the provider reported an error.
pub open spec fn failure_page(description: Seq<char>) -> Seq<char> {
    "<!DOCTYPE html>\n<html><head><title>Authentication Failed</title></head>\n<body style=\"font-family:sans-serif;text-align:center;padding:40px;\">\n<h1>\u{274c} Authentication Failed</h1>\n<p>"@
        + html_escaped(description)
        + "</p>\n<p>You can close this tab and return to the terminal.</p>\n</body></html>"@
}

/// The page shown for a request that is no callback.
pub open spec fn invalid_callback_page(error: Seq<char>) -> Seq<char> {
    "<!DOCTYPE html>\n<html><head><title>Authentication Failed</title></head>\n<body style=\"font-family:sans-serif;text-align:center;padding:40px;\">\n<h1>\u{274c} Invalid Callback</h1>\n<p>"@
        + html_escaped(error) + "</p>\n</body></html>"@
}

/// How a callback ends.
#[derive(Debug, Clone, PartialEq, Eq)]
pub enum CallbackOutcome {
    /// The provider sent a code and a state.
    Authorized(OAuthCallbackResult),
    /// The provider reported an error: the message to report.
    Refused(String),
    /// The callback carried neither a code and state nor an error.
    Incomplete,
    /// The request was no callback: why.
    Invalid(String),
}

/// What to answer the browser (nothing when `response` is `None`) and
/// how the sign-in ends.
#[derive(Debug, Clone, PartialEq, Eq)]
pub struct CallbackReply {
    pub response: Option<String>,
    pub outcome: CallbackOutcome,
}

/// The answer to the callback request whose target is `target`.
pub fn callback_reply(target: &str) -> (r: CallbackReply)
    ensures
        match callback_target(target@) {
            Err(e) => r.outcome == CallbackOutcome::Invalid(r.outcome->Invalid_0) && r.outcome->Invalid_0@ == e
                && opt_view(r.response) == Some(http_response_text("400 Bad Request"@, invalid_callback_page(e))),
            Ok((code, state, error, description)) => if code is Some && state is Some {
                r.outcome matches CallbackOutcome::Authorized(res) && res.code@ == code->0 && res.state@
                    == state->0 && opt_view(r.response) == Some(http_response_text("200 OK"@, success_page()))
            } else if error is Some {
                let desc = match description {
                    Some(d) => d,
                    None => error->0,
                };
                r.outcome matches CallbackOutcome::Refused(m) && m@ == "OAuth error: "@ + error->0 + " - "@ + desc
                    && opt_view(r.response) == Some(http_response_text("400 Bad Request"@, failure_page(desc)))
            } else {
                r.outcome == CallbackOutcome::Incomplete && r.response is None
            },
        },
{
    match parse_oauth_callback_request_target(target) {
        Err(e) => {
            let mut body = chars_of(
                "<!DOCTYPE html>\n<html><head><title>Authentication Failed</title></head>\n<body style=\"font-family:sans-serif;text-align:center;padding:40px;\">\n<h1>\u{274c} Invalid Callback</h1>\n<p>",
            );
            let escaped = html_escape(e.as_str());
            push_str(&mut body, escaped.as_str());
            push_str(&mut body, "</p>\n</body></html>");
            let page = string_from_chars(&body);
            let response = http_response("400 Bad Request", page.as_str());
            CallbackReply { response: Some(response), outcome: CallbackOutcome::Invalid(e) }
        },
        Ok(params) => {
            if let (Some(code), Some(state)) = (&params.code, &params.state) {
                let page = owned(
                    "<!DOCTYPE html>\n<html><head><title>Authentication Successful</title></head>\n<body style=\"font-family:sans-serif;text-align:center;padding:40px;\">\n<h1>\u{2705} Authentication Successful</h1>\n<p>You can close this tab and return to the terminal.</p>\n</body></html>",
                );
                let response = http_response("200 OK", page.as_str());
                return CallbackReply {
                    response: Some(response),
                    outcome: CallbackOutcome::Authorized(OAuthCallbackResult { code: code.clone(), state: state.clone() }),
                };
            }
            if let Some(error) = &params.error {
                let desc: &str = match &params.error_description {
                    Some(d) => d.as_str(),
                    None => error.as_str(),
                };
                let mut body = chars_of(
                    "<!DOCTYPE html>\n<html><head><title>Authentication Failed</title></head>\n<body style=\"font-family:sans-serif;text-align:center;padding:40px;\">\n<h1>\u{274c} Authentication Failed</h1>\n<p>",
                );
                let escaped = html_escape(desc);
                push_str(&mut body, escaped.as_str());
                push_str(&mut body, "</p>\n<p>You can close this tab and return to the terminal.</p>\n</body></html>");
                let page = string_from_chars(&body);
                let response = http_response("400 Bad Request", page.as_str());
                let mut m = chars_of("OAuth error: ");
                push_str(&mut m, error.as_str());
                push_str(&mut m, " - ");
                push_str(&mut m, desc);
                return CallbackReply {
                    response: Some(response),
                    outcome: CallbackOutcome::Refused(string_from_chars(&m)),
                };
            }
            CallbackReply { response: None, outcome: CallbackOutcome::Incomplete }
        },
    }
}


/// What a successful device-token reply's body gives.
#[derive(Debug, Clone, PartialEq, Eq)]
pub enum DeviceTokenBody {
    /// The token granted.
    Granted(OAuthTokenSet),
    /// The body is JSON without an access token.
    MissingAccessToken,
    /// The body is no JSON: the parser's message.
    Invalid(String),
    /// The expiry lies beyond what a `u64` of seconds holds.
    ExpiryOverflow,
}

/// Reads the body of a successful device-token reply, received at `now`.
pub fn read_device_token_body(body: &str, now_secs: u64) -> (r: DeviceTokenBody)
    ensures
        match crate::json_node::json_text_parse(body@) {
            Err(e) => r == DeviceTokenBody::Invalid(r->Invalid_0) && r->Invalid_0@ == e,
            Ok(t) => match crate::json_node::opt_u64(crate::json_node::node_get(t, "expires_in"@)) {
                Some(secs) if now_secs + secs > u64::MAX => r == DeviceTokenBody::ExpiryOverflow,
                _ => match crate::json_node::opt_str(crate::json_node::node_get(t, "access_token"@)) {
                    None => r == DeviceTokenBody::MissingAccessToken,
                    Some(access) => r matches DeviceTokenBody::Granted(g) && g.access_token@ == access
                        && opt_view(g.refresh_token) == crate::json_node::opt_str(
                        crate::json_node::node_get(t, "refresh_token"@),
                    ) && g.expires_at == match crate::json_node::opt_u64(
                        crate::json_node::node_get(t, "expires_in"@),
                    ) {
                        Some(secs) => Some((now_secs + secs) as u64),
                        None => None,
                    } && string_views(g.scopes@) == granted_scopes(t),
                },
            },
        },
{
    proof {
        reveal_strlit("expires_in");
    }
    match crate::json_node::parse_json_text(body) {
        Err(e) => DeviceTokenBody::Invalid(e),
        Ok(t) => {
            let expires = match t.get("expires_in") {
                Some(v) => v.as_u64(),
                None => None,
            };
            if let Some(secs) = expires {
                if secs > u64::MAX - now_secs {
                    return DeviceTokenBody::ExpiryOverflow;
                }
            }
            match read_device_token(&t, now_secs) {
                Some(g) => DeviceTokenBody::Granted(g),
                None => DeviceTokenBody::MissingAccessToken,
            }
        },
    }
}

/// Reads the body of an unsuccessful device-token reply: a body that is no
/// JSON counts as null, so its error is `unknown`.
pub fn read_device_token_error(body: &str) -> (r: DeviceTokenWait)
    ensures
        ({
            let parsed = match crate::json_node::json_text_parse(body@) {
                Ok(v) => v,
                Err(_) => crate::json_node::JsonNode::Null,
            };
            let code = device_error_code(parsed);
            if code == "authorization_pending"@ {
                r == DeviceTokenWait::Pending
            } else if code == "slow_down"@ {
                r == DeviceTokenWait::SlowDown
            } else if code == "expired_token"@ {
                r == DeviceTokenWait::Expired
            } else if code == "access_denied"@ {
                r == DeviceTokenWait::Denied
            } else {
                r matches DeviceTokenWait::Failed(m) && m@ == "Device token error: "@ + code + ": "@ + body@
            }
        }),
{
    let parsed = match crate::json_node::parse_json_text(body) {
        Ok(v) => v,
        Err(_) => crate::json_node::JsonNode::Null,
    };
    device_token_error(&parsed, body)
}


/// The authorization URL carries the request's own values: its state, its
/// PKCE challenge and method, its client and its redirect address, each
/// under its own parameter name.
pub proof fn law_authorization_carries_request(r: OAuthAuthorizationRequest)
    ensures
        authorization_params(r).contains(("state"@, r.state@)),
        authorization_params(r).contains(("code_challenge"@, r.code_challenge@)),
        authorization_params(r).contains(("code_challenge_method"@, "S256"@)),
        authorization_params(r).contains(("client_id"@, r.client_id@)),
        authorization_params(r).contains(("redirect_uri"@, r.redirect_uri@)),
        authorization_params(r).contains(("response_type"@, "code"@)),
{
    let ps = authorization_params(r);
    assert(ps[0] == ("response_type"@, "code"@));
    assert(ps[1] == ("client_id"@, r.client_id@));
    assert(ps[2] == ("redirect_uri"@, r.redirect_uri@));
    assert(ps[4] == ("state"@, r.state@));
    assert(ps[5] == ("code_challenge"@, r.code_challenge@));
    assert(ps[6] == ("code_challenge_method"@, "S256"@));
}

} // verus!
