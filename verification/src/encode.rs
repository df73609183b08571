//! Calls into the outside encoding crates (html-escape, urlencoding, slug,
//! serde_json, sha2), each behind one trusted wrapper whose contract states
//! what that crate's source does.
use vstd::prelude::*;
use vstd::utf8::encode_utf8;
use crate::text::{ascii_lower, hex_digit};
use sha2::Digest;

verus! {

// ---------------------------------------------------------------------------
// HTML escaping (html-escape)
// ---------------------------------------------------------------------------

/// Escape of one character in HTML text: `&`, `<` and `>` become entities.
pub open spec fn escape_text_char(c: char) -> Seq<char> {
    if c == '&' {
        seq!['&', 'a', 'm', 'p', ';']
    } else if c == '<' {
        seq!['&', 'l', 't', ';']
    } else if c == '>' {
        seq!['&', 'g', 't', ';']
    } else {
        seq![c]
    }
}

/// HTML text escape of a whole sequence.
pub open spec fn escape_text(s: Seq<char>) -> Seq<char>
    decreases s.len(),
{
    if s.len() == 0 {
        Seq::empty()
    } else {
        escape_text(s.drop_last()) + escape_text_char(s.last())
    }
}

/// Escape of one character in a double-quoted attribute: as in text, and `"` too.
pub open spec fn escape_attr_char(c: char) -> Seq<char> {
    if c == '"' {
        seq!['&', 'q', 'u', 'o', 't', ';']
    } else {
        escape_text_char(c)
    }
}

pub open spec fn escape_attr(s: Seq<char>) -> Seq<char>
    decreases s.len(),
{
    if s.len() == 0 {
        Seq::empty()
    } else {
        escape_attr(s.drop_last()) + escape_attr_char(s.last())
    }
}

/// `html_escape::encode_text`: replaces `&`, `<`, `>` by `&amp;`, `&lt;`, `&gt;`
/// and keeps every other character.
#[verifier::external_body]
pub fn encode_text(s: &str) -> (r: String)
    ensures
        r@ == escape_text(s@),
{
    html_escape::encode_text(s).into_owned()
}

/// `html_escape::encode_double_quoted_attribute`: as `encode_text`, and `"`
/// becomes `&quot;`.
#[verifier::external_body]
pub fn encode_double_quoted_attribute(s: &str) -> (r: String)
    ensures
        r@ == escape_attr(s@),
{
    html_escape::encode_double_quoted_attribute(s).into_owned()
}

/// What `html_escape::decode_html_entities` gives: named and numeric character
/// references ending with `;` replaced by what they stand for (the crate's
/// entity table).
pub uninterp spec fn decoded_entities(s: Seq<char>) -> Seq<char>;

/// `html_escape::decode_html_entities`.  The crate only starts decoding at an
/// `&`, so a text without one comes back unchanged; what a reference decodes
/// to is left to the crate's table and is not stated.
#[verifier::external_body]
pub fn decode_html_entities(s: &str) -> (r: String)
    ensures
        r@ == decoded_entities(s@),
        !s@.contains('&') ==> r@ == s@,
{
    html_escape::decode_html_entities(s).into_owned()
}

// ---------------------------------------------------------------------------
// Percent-encoding (urlencoding)
// ---------------------------------------------------------------------------

/// Bytes that `urlencoding::encode` keeps: ASCII letters, digits, `-`, `.`, `_`, `~`.
pub open spec fn url_safe(b: u8) -> bool {
    (48 <= b <= 57) || (65 <= b <= 90) || (97 <= b <= 122) || b == 45 || b == 46 || b == 95
        || b == 126
}

/// Uppercase hexadecimal digit.
pub open spec fn hex_upper_digit(d: u8) -> char {
    if d < 10 {
        (d + 48) as char
    } else {
        (d - 10 + 65) as char
    }
}

pub open spec fn url_encode_byte(b: u8) -> Seq<char> {
    if url_safe(b) {
        seq![b as char]
    } else {
        seq!['%', hex_upper_digit(b / 16), hex_upper_digit(b % 16)]
    }
}

/// Percent-encoding of a byte sequence.
pub open spec fn url_encode_bytes(b: Seq<u8>) -> Seq<char>
    decreases b.len(),
{
    if b.len() == 0 {
        Seq::empty()
    } else {
        url_encode_bytes(b.drop_last()) + url_encode_byte(b.last())
    }
}

/// Percent-encoding of the UTF-8 encoding of a text.
pub open spec fn url_encode(s: Seq<char>) -> Seq<char> {
    url_encode_bytes(encode_utf8(s))
}

/// `urlencoding::encode`: every byte of the UTF-8 encoding that is not an
/// ASCII letter, digit, `-`, `.`, `_` or `~` becomes `%XX` (uppercase hex).
#[verifier::external_body]
pub fn url_encode_str(s: &str) -> (r: String)
    ensures
        r@ == url_encode(s@),
{
    urlencoding::encode(s).into_owned()
}

// ---------------------------------------------------------------------------
// Slugs (slug)
// ---------------------------------------------------------------------------

/// What `slug::slugify` gives for a text (transliteration by the `deunicode`
/// tables, then the ASCII rules below).
pub uninterp spec fn slugified(s: Seq<char>) -> Seq<char>;

/// A character that may stand in a slug.
pub open spec fn slug_char(c: char) -> bool {
    ('a' <= c <= 'z') || ('0' <= c <= '9') || c == '-'
}

/// The shape that `slug::slugify` promises: only `a-z`, `0-9` and `-`, no two
/// `-` in a row, and no `-` at either end.
pub open spec fn is_slug(s: Seq<char>) -> bool {
    &&& forall|i: int| 0 <= i < s.len() ==> slug_char(#[trigger] s[i])
    &&& forall|i: int| 0 <= i < s.len() - 1 ==> !(#[trigger] s[i] == '-' && s[i + 1] == '-')
    &&& s.len() > 0 ==> s[0] != '-' && s.last() != '-'
}

/// One step of slugify on an ASCII character: letters and digits are kept
/// (lowercased), any other character becomes a single `-` unless one was just
/// written (or nothing was written yet).
pub open spec fn slug_step(acc: (Seq<char>, bool), c: char) -> (Seq<char>, bool) {
    if ('a' <= c <= 'z') || ('0' <= c <= '9') {
        (acc.0.push(c), false)
    } else if 'A' <= c <= 'Z' {
        (acc.0.push(ascii_lower(c)), false)
    } else if !acc.1 {
        (acc.0.push('-'), true)
    } else {
        acc
    }
}

pub open spec fn slug_fold(s: Seq<char>) -> (Seq<char>, bool)
    decreases s.len(),
{
    if s.len() == 0 {
        (Seq::empty(), true)
    } else {
        slug_step(slug_fold(s.drop_last()), s.last())
    }
}

/// Slugify of an ASCII text: the fold above, with a trailing `-` dropped.
pub open spec fn slug_ascii(s: Seq<char>) -> Seq<char> {
    let r = slug_fold(s).0;
    if r.len() > 0 && r.last() == '-' {
        r.drop_last()
    } else {
        r
    }
}

pub open spec fn all_ascii(s: Seq<char>) -> bool {
    forall|i: int| 0 <= i < s.len() ==> (#[trigger] s[i] as u32) < 128
}

/// `slug::slugify`.  Its result has the shape its documentation promises, and
/// on ASCII text it is what the crate's per-byte rules give; how non-ASCII
/// characters are transliterated is left to the crate's tables.
#[verifier::external_body]
pub fn slugify(s: &str) -> (r: String)
    ensures
        r@ == slugified(s@),
        is_slug(r@),
        all_ascii(s@) ==> r@ == slug_ascii(s@),
{
    slug::slugify(s)
}

// ---------------------------------------------------------------------------
// JSON strings (serde_json)
// ---------------------------------------------------------------------------

#[verifier::external_type_specification]
#[verifier::external_body]
pub struct ExJsonError(serde_json::Error);

/// JSON escape of one character as serde_json writes it: `"` and `\` are
/// backslash-escaped, the C0 controls with a short form use it, the other C0
/// controls become `\u00xx` (lowercase hex), and everything else is kept.
pub open spec fn json_escape_char(c: char) -> Seq<char> {
    let u = c as u32;
    if c == '"' {
        seq!['\\', '"']
    } else if c == '\\' {
        seq!['\\', '\\']
    } else if u == 8 {
        seq!['\\', 'b']
    } else if u == 9 {
        seq!['\\', 't']
    } else if u == 10 {
        seq!['\\', 'n']
    } else if u == 12 {
        seq!['\\', 'f']
    } else if u == 13 {
        seq!['\\', 'r']
    } else if u < 32 {
        seq!['\\', 'u', '0', '0', hex_digit((u / 16) as nat), hex_digit((u % 16) as nat)]
    } else {
        seq![c]
    }
}

pub open spec fn json_escape(s: Seq<char>) -> Seq<char>
    decreases s.len(),
{
    if s.len() == 0 {
        Seq::empty()
    } else {
        json_escape(s.drop_last()) + json_escape_char(s.last())
    }
}

/// A JSON string literal: the escaped text between double quotes.
pub open spec fn json_quote(s: Seq<char>) -> Seq<char> {
    seq!['"'] + json_escape(s) + seq!['"']
}

/// `serde_json::to_string` on a string slice.  Serializing a `str` into the
/// in-memory buffer cannot fail, so the result is always `Ok`.
#[verifier::external_body]
pub fn json_string(s: &str) -> (r: Result<String, serde_json::Error>)
    ensures
        r is Ok,
        r matches Ok(j) ==> j@ == json_quote(s@),
{
    serde_json::to_string(s)
}

// ---------------------------------------------------------------------------
// SHA-256 (sha2)
// ---------------------------------------------------------------------------

/// The SHA-256 digest of a byte sequence.
pub uninterp spec fn sha256(data: Seq<u8>) -> Seq<u8>;

/// `sha2::Sha256::digest`: the 32-byte SHA-256 digest.
#[verifier::external_body]
pub fn sha256_digest(data: &[u8]) -> (r: Vec<u8>)
    ensures
        r@ == sha256(data@),
        r@.len() == 32,
{
    sha2::Sha256::digest(data).to_vec()
}

} // verus!
