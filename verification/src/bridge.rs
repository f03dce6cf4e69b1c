//! Calls into `std` and the `http` crate whose results the library relies on.
//! Every item here is trusted: Verus believes its contract without proof.

use vstd::prelude::*;
use vstd::utf8::{valid_utf8, decode_utf8, encode_utf8};
use crate::text::{is_ascii_text, ascii_upper, ascii_lower};

verus! {

/// Decodes `bytes` with `std::str::from_utf8` and hands out its characters.
/// Claimed: `from_utf8` succeeds exactly on valid UTF-8 input, and the
/// characters are the ones that the bytes encode.
#[verifier::external_body]
pub(crate) fn utf8_chars(bytes: &[u8]) -> (r: Option<Vec<char>>)
    ensures
        r is Some <==> valid_utf8(bytes@),
        r matches Some(v) ==> v@ == decode_utf8(bytes@),
{
    std::str::from_utf8(bytes).ok().map(|s| s.chars().collect())
}

/// The message of the error that `String::from_utf8` gives for `b`.
pub uninterp spec fn utf8_error_text(b: Seq<u8>) -> Seq<char>;

/// Decodes `bytes` with `String::from_utf8`, handing out the characters or
/// the error's message.
/// Claimed: it succeeds exactly on valid UTF-8, with the characters that the
/// bytes encode; the message is `utf8_error_text(bytes)`, a function of the
/// bytes alone.
#[verifier::external_body]
pub(crate) fn utf8_string(bytes: &[u8]) -> (r: Result<Vec<char>, String>)
    ensures
        r is Ok <==> valid_utf8(bytes@),
        r matches Ok(v) ==> v@ == decode_utf8(bytes@),
        r matches Err(m) ==> m@ == utf8_error_text(bytes@),
{
    match String::from_utf8(bytes.to_vec()) {
        Ok(s) => Ok(s.chars().collect()),
        Err(e) => Err(e.to_string()),
    }
}

/// Encodes characters as UTF-8 by collecting them into a `String` and taking its bytes.
/// Claimed: the bytes are the UTF-8 encoding of the characters.
#[verifier::external_body]
pub(crate) fn chars_utf8(chars: &[char]) -> (r: Vec<u8>)
    ensures
        r@ == encode_utf8(chars@),
{
    chars.iter().collect::<String>().into_bytes()
}


/// Collects characters into a `String` (`String: FromIterator<char>`).
/// Claimed: the string holds exactly those characters, in order.
#[verifier::external_body]
pub(crate) fn chars_string(chars: &[char]) -> (r: String)
    ensures
        r@ == chars@,
{
    chars.iter().collect::<String>()
}


/// What `str::to_uppercase` gives for `s` (Unicode upper case mapping).
pub uninterp spec fn unicode_upper(s: Seq<char>) -> Seq<char>;

/// Upper-cases `s` with `str::to_uppercase`.
/// Claimed: the result is `unicode_upper(s)`, a function of `s` alone; on
/// ASCII text it maps `a`..`z` to `A`..`Z` and keeps every other character,
/// as the Unicode case tables do for ASCII.
#[verifier::external_body]
pub(crate) fn to_uppercase(s: &str) -> (r: String)
    ensures
        r@ == unicode_upper(s@),
        is_ascii_text(s@) ==> r@ == ascii_upper(s@),
{
    s.to_uppercase()
}

/// The reason phrase that `http::StatusCode::canonical_reason` gives for a
/// code (none for a number that is no status code, or has no phrase).
pub uninterp spec fn canonical_reason(code: u16) -> Option<Seq<char>>;

/// Looks up the reason phrase of `code` in the `http` crate's table.
/// Claimed: the result is `canonical_reason(code)`, a function of the code alone.
#[verifier::external_body]
pub(crate) fn canonical_reason_of(code: u16) -> (r: Option<&'static str>)
    ensures
        match canonical_reason(code) {
            Some(t) => r matches Some(s) && s@ == t,
            None => r is None,
        },
{
    http::StatusCode::from_u16(code).ok().and_then(|s| s.canonical_reason())
}


/// A character that `http::HeaderName` accepts in a field name (a `tchar`
/// of RFC 9110).
pub open spec fn is_token_char(c: char) -> bool {
    ||| ('a' <= c && c <= 'z') || ('A' <= c && c <= 'Z') || ('0' <= c && c <= '9')
    ||| c == '!' || c == '#' || c == '$' || c == '%' || c == '&' || c == '\'' || c == '*'
    ||| c == '+' || c == '-' || c == '.' || c == '^' || c == '_' || c == '`' || c == '|' || c == '~'
}

/// Text that `http::HeaderName` takes as a field name: 1 to 65535 token characters.
pub open spec fn is_field_name(s: Seq<char>) -> bool {
    &&& 1 <= s.len() <= 65535
    &&& forall|i: int| 0 <= i < s.len() ==> #[trigger] is_token_char(s[i])
}

/// Text that `http::HeaderValue` takes as a field value: tab, or any
/// character from space up but DEL.
pub open spec fn is_field_value(s: Seq<char>) -> bool {
    forall|i: int| 0 <= i < s.len() ==> (#[trigger] s[i] == '\t' || (' ' <= s[i] && s[i] != '\x7f'))
}

/// Reads `s` as a field name with `http::HeaderName::from_bytes`.
/// Claimed: it succeeds exactly on 1 to 65535 token characters (its table maps
/// every other byte, and every byte of a non-ASCII character, to 0) and
/// gives the name in ASCII lower case.
#[verifier::external_body]
pub(crate) fn field_name_lower(s: &str) -> (r: Option<String>)
    ensures
        r is Some <==> is_field_name(s@),
        r matches Some(n) ==> n@ == ascii_lower(s@),
{
    http::HeaderName::from_bytes(s.as_bytes()).ok().map(|n| n.as_str().to_string())
}

/// Checks `s` with `http::HeaderValue::from_str`.
/// Claimed: it succeeds exactly when every byte is a tab or at least 32 and
/// not 127; a non-ASCII character has only bytes of 128 and up, so that is
/// `is_field_value` of the characters.
#[verifier::external_body]
pub(crate) fn field_value_ok(s: &str) -> (r: bool)
    ensures
        r == is_field_value(s@),
{
    http::HeaderValue::from_str(s).is_ok()
}

/// What parsing a text as `http::Uri` and writing it back gives, if it parses.
pub uninterp spec fn uri_normal_form(s: Seq<char>) -> Option<Seq<char>>;

/// Parses `s` as an `http::Uri` and writes it back with `Display`.
/// Claimed: the result is `uri_normal_form(s)`, a function of the text alone.
#[verifier::external_body]
pub(crate) fn parse_uri(s: &str) -> (r: Option<String>)
    ensures
        match uri_normal_form(s@) {
            Some(u) => r matches Some(t) && t@ == u,
            None => r is None,
        },
{
    s.parse::<http::Uri>().ok().map(|u| u.to_string())
}


/// The path of the `http::Uri` that a text parses as, if it parses.
pub uninterp spec fn uri_path_of(s: Seq<char>) -> Option<Seq<char>>;

/// Parses `s` as an `http::Uri` and takes its path (`Uri::path`).
/// Claimed: the result is `uri_path_of(s)`, a function of the text alone.
#[verifier::external_body]
pub(crate) fn uri_path(s: &str) -> (r: Option<String>)
    ensures
        match uri_path_of(s@) {
            Some(p) => r matches Some(t) && t@ == p,
            None => r is None,
        },
{
    s.parse::<http::Uri>().ok().map(|u| u.path().to_string())
}

/// What `str::to_lowercase` gives for `s` (Unicode lower case mapping).
pub uninterp spec fn unicode_lower(s: Seq<char>) -> Seq<char>;

/// Lower-cases `s` with `str::to_lowercase`.
/// Claimed: the result is `unicode_lower(s)`, a function of `s` alone; on
/// ASCII text it maps `A`..`Z` to `a`..`z` and keeps every other character.
#[verifier::external_body]
pub(crate) fn to_lowercase(s: &str) -> (r: String)
    ensures
        r@ == unicode_lower(s@),
        is_ascii_text(s@) ==> r@ == ascii_lower(s@),
{
    s.to_lowercase()
}

/// What `String::from_utf8_lossy` gives for `b`.
pub uninterp spec fn lossy_text(b: Seq<u8>) -> Seq<char>;

/// Decodes `b` with `String::from_utf8_lossy`.
/// Claimed: the result is `lossy_text(b)`, a function of the bytes alone,
/// and on valid UTF-8 it is the decoded text.
#[verifier::external_body]
pub(crate) fn utf8_lossy(b: &[u8]) -> (r: String)
    ensures
        r@ == lossy_text(b@),
        valid_utf8(b@) ==> r@ == decode_utf8(b@),
{
    String::from_utf8_lossy(b).into_owned()
}

} // verus!
