//! Parsing of ICAP messages: the request and status lines, header fields,
//! the Encapsulated header and the HTTP sections it locates.

use vstd::prelude::*;
use vstd::utf8::{valid_utf8, decode_utf8, encode_utf8};
use crate::protocol::fields::{HeaderMap, FieldView, map_insert, map_get};
use crate::protocol::common::{
    IcapMethod, HttpVersion, IcapRequest, IcapResponse, EncapsulatedData, is_visible_text,
};
use crate::protocol::chunked::{
    ChunkedParser, ChunkState, ChunkModel, SizeLineFault, chunk_run, initial_model,
    chunk_error_message, fault_message,
};
use crate::text::{
    trim_spaces, trim_bounds, ascii_lower, str_chars, str_eq, first_crlf, find_crlf_in,
    lemma_first_crlf_from, extend_bytes,
};
use crate::bridge::{
    chars_string, is_field_name, is_field_value, field_name_lower, field_value_ok, utf8_chars,
    uri_normal_form, parse_uri, uri_path, uri_path_of,
};
use crate::error::IcapError;

verus! {

/// The first index at or after `i` where `s` holds `c`.
pub open spec fn first_char_from(s: Seq<char>, c: char, i: int) -> Option<int>
    decreases s.len() - i,
{
    if i < 0 || i >= s.len() {
        None
    } else if s[i] == c {
        Some(i)
    } else {
        first_char_from(s, c, i + 1)
    }
}

/// The first index at or after `i` where `s` holds CR LF.
pub open spec fn first_crlf_chars(s: Seq<char>, i: int) -> Option<int>
    decreases s.len() - i,
{
    if i < 0 || i + 1 >= s.len() {
        None
    } else if s[i] == '\r' && s[i + 1] == '\n' {
        Some(i)
    } else {
        first_crlf_chars(s, i + 1)
    }
}

/// Space, tab, CR or LF.
pub open spec fn is_multispace(c: char) -> bool {
    c == ' ' || c == '\t' || c == '\r' || c == '\n'
}

/// Space or tab.
pub open spec fn is_blank(c: char) -> bool {
    c == ' ' || c == '\t'
}

/// The first index at or after `i` that is not space, tab, CR or LF.
pub open spec fn skip_multispace(s: Seq<char>, i: int) -> int
    decreases s.len() - i,
{
    if 0 <= i < s.len() && is_multispace(s[i]) {
        skip_multispace(s, i + 1)
    } else {
        i
    }
}

/// The first index at or after `i` that is not space or tab.
pub open spec fn skip_blanks(s: Seq<char>, i: int) -> int
    decreases s.len() - i,
{
    if 0 <= i < s.len() && is_blank(s[i]) {
        skip_blanks(s, i + 1)
    } else {
        i
    }
}

pub proof fn lemma_first_char_from(s: Seq<char>, c: char, i: int)
    requires
        0 <= i,
    ensures
        first_char_from(s, c, i) matches Some(k) ==> i <= k < s.len() && s[k] == c,
    decreases s.len() - i,
{
    if i < s.len() && s[i] != c {
        lemma_first_char_from(s, c, i + 1);
    }
}

pub proof fn lemma_first_crlf_chars(s: Seq<char>, i: int)
    requires
        0 <= i,
    ensures
        first_crlf_chars(s, i) matches Some(k) ==> i <= k && k + 1 < s.len(),
    decreases s.len() - i,
{
    if i + 1 < s.len() && !(s[i] == '\r' && s[i + 1] == '\n') {
        lemma_first_crlf_chars(s, i + 1);
    }
}

pub proof fn lemma_skip_multispace(s: Seq<char>, i: int)
    requires
        0 <= i <= s.len(),
    ensures
        i <= skip_multispace(s, i) <= s.len(),
    decreases s.len() - i,
{
    if i < s.len() && is_multispace(s[i]) {
        lemma_skip_multispace(s, i + 1);
    }
}

pub proof fn lemma_skip_blanks(s: Seq<char>, i: int)
    requires
        0 <= i <= s.len(),
    ensures
        i <= skip_blanks(s, i) <= s.len(),
    decreases s.len() - i,
{
    if i < s.len() && is_blank(s[i]) {
        lemma_skip_blanks(s, i + 1);
    }
}

pub fn find_char(s: &[char], c: char, start: usize) -> (r: Option<usize>)
    requires
        start <= s@.len(),
    ensures
        match r {
            Some(k) => first_char_from(s@, c, start as int) == Some(k as int) && k < s@.len(),
            None => first_char_from(s@, c, start as int) is None,
        },
{
    let mut i = start;
    while i < s.len()
        invariant
            start <= i <= s@.len(),
            first_char_from(s@, c, start as int) == first_char_from(s@, c, i as int),
        decreases s@.len() - i,
    {
        if s[i] == c {
            return Some(i);
        }
        i = i + 1;
    }
    None
}

pub fn find_crlf_chars(s: &[char], start: usize) -> (r: Option<usize>)
    requires
        start <= s@.len(),
    ensures
        match r {
            Some(k) => first_crlf_chars(s@, start as int) == Some(k as int) && k + 1 < s@.len(),
            None => first_crlf_chars(s@, start as int) is None,
        },
{
    let mut i = start;
    while i < s.len() && s.len() - i >= 2
        invariant
            start <= i <= s@.len(),
            first_crlf_chars(s@, start as int) == first_crlf_chars(s@, i as int),
        decreases s@.len() - i,
    {
        if s[i] == '\r' && s[i + 1] == '\n' {
            return Some(i);
        }
        i = i + 1;
    }
    None
}

pub fn skip_multispace_exec(s: &[char], start: usize) -> (r: usize)
    requires
        start <= s@.len(),
    ensures
        r == skip_multispace(s@, start as int),
        start <= r <= s@.len(),
{
    let mut i = start;
    while i < s.len() && (s[i] == ' ' || s[i] == '\t' || s[i] == '\r' || s[i] == '\n')
        invariant
            start <= i <= s@.len(),
            skip_multispace(s@, start as int) == skip_multispace(s@, i as int),
        decreases s@.len() - i,
    {
        i = i + 1;
    }
    i
}

pub fn skip_blanks_exec(s: &[char], start: usize) -> (r: usize)
    requires
        start <= s@.len(),
    ensures
        r == skip_blanks(s@, start as int),
        start <= r <= s@.len(),
{
    let mut i = start;
    while i < s.len() && (s[i] == ' ' || s[i] == '\t')
        invariant
            start <= i <= s@.len(),
            skip_blanks(s@, start as int) == skip_blanks(s@, i as int),
        decreases s@.len() - i,
    {
        i = i + 1;
    }
    i
}

/// One `name: value CR LF` line at `i`: the text up to the first colon is
/// the name, then white space (line breaks too) is skipped, and the text up
/// to the next CR LF is the value; both are trimmed. Gives the name, the
/// value and where the next line starts.
pub open spec fn header_line_at(s: Seq<char>, i: int) -> Option<(Seq<char>, Seq<char>, int)> {
    match first_char_from(s, ':', i) {
        None => None,
        Some(k) => {
            let j = skip_multispace(s, k + 1);
            match first_crlf_chars(s, j) {
                None => None,
                Some(e) => Some((trim_spaces(s.subrange(i, k)), trim_spaces(s.subrange(j, e)), e + 2)),
            }
        },
    }
}

pub proof fn lemma_header_line_at(s: Seq<char>, i: int)
    requires
        0 <= i <= s.len(),
    ensures
        header_line_at(s, i) matches Some((k, v, n)) ==> i < n <= s.len(),
{
    lemma_first_char_from(s, ':', i);
    if let Some(k) = first_char_from(s, ':', i) {
        lemma_skip_multispace(s, k + 1);
        lemma_first_crlf_chars(s, skip_multispace(s, k + 1));
    }
}

/// The name and value of each header line from `i` on, up to the first
/// line that is no header line.
pub open spec fn header_pairs(s: Seq<char>, i: int) -> Seq<(Seq<char>, Seq<char>)>
    decreases s.len() - i,
{
    if i < 0 || i > s.len() {
        Seq::empty()
    } else {
        match header_line_at(s, i) {
            None => Seq::empty(),
            Some((k, v, n)) => {
                proof {
                    lemma_header_line_at(s, i);
                }
                seq![(k, v)] + header_pairs(s, n)
            },
        }
    }
}

/// The fields that the pairs set, in order: a pair whose name or value
/// `http` refuses is left out; a later pair of the same name replaces the
/// value of an earlier one.
pub open spec fn fields_from(p: Seq<(Seq<char>, Seq<char>)>) -> Seq<FieldView>
    decreases p.len(),
{
    if p.len() == 0 {
        Seq::empty()
    } else {
        let acc = fields_from(p.drop_last());
        let (k, v) = p.last();
        if is_field_name(k) && is_field_value(v) {
            map_insert(acc, ascii_lower(k), v)
        } else {
            acc
        }
    }
}

/// The header fields of a header section.
pub open spec fn header_fields(s: Seq<char>) -> Seq<FieldView> {
    fields_from(header_pairs(s, 0))
}

/// The characters `s[a..b]` as a `String`.
pub fn sub_string(s: &[char], a: usize, b: usize) -> (r: String)
    requires
        a <= b <= s@.len(),
    ensures
        r@ == s@.subrange(a as int, b as int),
{
    chars_string(&s[a..b])
}

/// The characters `s[a..b]` trimmed of white space.
fn trimmed(s: &[char], a: usize, b: usize) -> (r: String)
    requires
        a <= b <= s@.len(),
    ensures
        r@ == trim_spaces(s@.subrange(a as int, b as int)),
{
    let piece = &s[a..b];
    let (x, y) = trim_bounds(piece);
    chars_string(&piece[x..y])
}

fn header_line_exec(s: &[char], i: usize) -> (r: Option<(String, String, usize)>)
    requires
        i <= s@.len(),
    ensures
        match header_line_at(s@, i as int) {
            Some((k, v, n)) => r matches Some((rk, rv, rn)) && rk@ == k && rv@ == v && rn == n,
            None => r is None,
        },
{
    let len = s.len();
    match find_char(s, ':', i) {
        None => None,
        Some(k) => {
            proof {
                lemma_first_char_from(s@, ':', i as int);
            }
            let j = skip_multispace_exec(s, k + 1);
            match find_crlf_chars(s, j) {
                None => None,
                Some(e) => {
                    proof {
                        lemma_first_crlf_chars(s@, j as int);
                    }
                    let name = trimmed(s, i, k);
                    let value = trimmed(s, j, e);
                    Some((name, value, e + 2))
                },
            }
        },
    }
}

/// Sets the fields of the header lines of `s` from `i` on in `map`.
fn add_header_lines(s: &[char], map: &mut HeaderMap)
    ensures
        final(map)@ == fields_from_onto(old(map)@, header_pairs(s@, 0)),
{
    let mut i: usize = 0;
    let ghost start = map@;
    proof {
        assert(header_pairs(s@, 0) =~= Seq::<(Seq<char>, Seq<char>)>::empty() + header_pairs(s@, 0));
        assert(fields_from_onto(start, Seq::empty()) == start);
    }
    let ghost mut done: Seq<(Seq<char>, Seq<char>)> = Seq::empty();
    loop
        invariant
            i <= s@.len(),
            start == old(map)@,
            header_pairs(s@, 0) == done + header_pairs(s@, i as int),
            map@ == fields_from_onto(start, done),
        ensures
            map@ == fields_from_onto(start, header_pairs(s@, 0)),
        decreases s@.len() - i,
    {
        match header_line_exec(s, i) {
            None => {
                proof {
                    assert(header_pairs(s@, i as int) =~= Seq::<(Seq<char>, Seq<char>)>::empty());
                    assert(done + header_pairs(s@, i as int) =~= done);
                }
                break;
            },
            Some((name, value, n)) => {
                proof {
                    lemma_header_line_at(s@, i as int);
                }
                let ok = match field_name_lower(name.as_str()) {
                    Some(_) => field_value_ok(value.as_str()),
                    None => false,
                };
                if ok {
                    map.insert(name.as_str(), value.as_str());
                }
                proof {
                    let d2 = done.push((name@, value@));
                    assert(d2.drop_last() =~= done);
                    assert(header_pairs(s@, i as int) =~= seq![(name@, value@)] + header_pairs(s@, n as int));
                    assert(done + header_pairs(s@, i as int) =~= d2 + header_pairs(s@, n as int));
                    done = d2;
                }
                i = n;
            },
        }
    }
}

/// `fields_from` started on the fields `acc` instead of none.
pub open spec fn fields_from_onto(acc: Seq<FieldView>, p: Seq<(Seq<char>, Seq<char>)>) -> Seq<
    FieldView,
>
    decreases p.len(),
{
    if p.len() == 0 {
        acc
    } else {
        let a = fields_from_onto(acc, p.drop_last());
        let (k, v) = p.last();
        if is_field_name(k) && is_field_value(v) {
            map_insert(a, ascii_lower(k), v)
        } else {
            a
        }
    }
}

proof fn lemma_fields_from_onto_empty(p: Seq<(Seq<char>, Seq<char>)>)
    ensures
        fields_from_onto(Seq::empty(), p) == fields_from(p),
    decreases p.len(),
{
    if p.len() > 0 {
        lemma_fields_from_onto_empty(p.drop_last());
    }
}

/// The header fields of the header section `s`.
pub fn parse_header_fields(s: &[char]) -> (r: HeaderMap)
    ensures
        r@ == header_fields(s@),
{
    let mut map = HeaderMap::new();
    add_header_lines(s, &mut map);
    proof {
        lemma_fields_from_onto_empty(header_pairs(s@, 0));
    }
    map
}


/// `s` holds `t` at `i`.
pub open spec fn starts_with_at(s: Seq<char>, i: int, t: Seq<char>) -> bool {
    0 <= i && i + t.len() <= s.len() && s.subrange(i, i + t.len()) == t
}

pub fn starts_with_exec(s: &[char], i: usize, t: &str) -> (r: bool)
    requires
        i <= s@.len(),
    ensures
        r == starts_with_at(s@, i as int, t@),
{
    let tc = str_chars(t);
    let sl = s.len();
    if tc.len() > sl - i {
        return false;
    }
    let mut j: usize = 0;
    while j < tc.len()
        invariant
            sl == s@.len(),
            j <= tc@.len(),
            tc@ == t@,
            i + tc@.len() <= s@.len(),
            forall|x: int| 0 <= x < j ==> s@[i + x] == tc@[x],
        decreases tc@.len() - j,
    {
        if s[i + j] != tc[j] {
            proof {
                assert(s@.subrange(i as int, i + tc@.len())[j as int] != t@[j as int]);
            }
            return false;
        }
        j = j + 1;
    }
    proof {
        assert(s@.subrange(i as int, i + tc@.len()) =~= t@);
    }
    true
}

/// The method at the start of a request line, and where it ends.
pub open spec fn method_prefix(s: Seq<char>) -> Option<(IcapMethod, int)> {
    if starts_with_at(s, 0, "REQMOD"@) {
        Some((IcapMethod::Reqmod, "REQMOD"@.len() as int))
    } else if starts_with_at(s, 0, "RESPMOD"@) {
        Some((IcapMethod::Respmod, "RESPMOD"@.len() as int))
    } else if starts_with_at(s, 0, "OPTIONS"@) {
        Some((IcapMethod::Options, "OPTIONS"@.len() as int))
    } else {
        None
    }
}

/// A request line: the method, blanks, the URI up to the next space,
/// blanks, the version up to CR LF. Gives the method, URI, version and
/// where the header section starts.
pub open spec fn request_line(s: Seq<char>) -> Option<(IcapMethod, Seq<char>, Seq<char>, int)> {
    match method_prefix(s) {
        None => None,
        Some((m, p)) => {
            let q = skip_blanks(s, p);
            if q == p {
                None
            } else {
                match first_char_from(s, ' ', q) {
                    None => None,
                    Some(u) => {
                        let r = skip_blanks(s, u);
                        match first_crlf_chars(s, r) {
                            None => None,
                            Some(v) => Some((m, s.subrange(q, u), s.subrange(r, v), v + 2)),
                        }
                    },
                }
            }
        },
    }
}

/// The version that a version text names (ICAP/1.0 is held as HTTP/1.1).
pub open spec fn version_from_text(t: Seq<char>) -> Option<HttpVersion> {
    if t == "HTTP/1.0"@ {
        Some(HttpVersion::Http10)
    } else if t == "HTTP/1.1"@ {
        Some(HttpVersion::Http11)
    } else if t == "HTTP/2.0"@ {
        Some(HttpVersion::Http2)
    } else if t == "HTTP/3.0"@ {
        Some(HttpVersion::Http3)
    } else if t == "ICAP/1.0"@ {
        Some(HttpVersion::Http11)
    } else {
        None
    }
}

pub fn version_from_exec(t: &str) -> (r: Option<HttpVersion>)
    ensures
        r == version_from_text(t@),
{
    if str_eq(t, "HTTP/1.0") {
        Some(HttpVersion::Http10)
    } else if str_eq(t, "HTTP/1.1") {
        Some(HttpVersion::Http11)
    } else if str_eq(t, "HTTP/2.0") {
        Some(HttpVersion::Http2)
    } else if str_eq(t, "HTTP/3.0") {
        Some(HttpVersion::Http3)
    } else if str_eq(t, "ICAP/1.0") {
        Some(HttpVersion::Http11)
    } else {
        None
    }
}

fn request_line_exec(s: &[char]) -> (r: Option<(IcapMethod, String, String, usize)>)
    ensures
        match request_line(s@) {
            Some((m, u, v, p)) => r matches Some((rm, ru, rv, rp)) && rm == m && ru@ == u && rv@ == v
                && rp == p && 2 <= p <= s@.len(),
            None => r is None,
        },
{
    let len = s.len();
    let mp: Option<(IcapMethod, usize)> = if starts_with_exec(s, 0, "REQMOD") {
        Some((IcapMethod::Reqmod, 6))
    } else if starts_with_exec(s, 0, "RESPMOD") {
        Some((IcapMethod::Respmod, 7))
    } else if starts_with_exec(s, 0, "OPTIONS") {
        Some((IcapMethod::Options, 7))
    } else {
        None
    };
    proof {
        reveal_strlit("REQMOD");
        reveal_strlit("RESPMOD");
        reveal_strlit("OPTIONS");
    }
    match mp {
        None => None,
        Some((m, p)) => {
            let q = skip_blanks_exec(s, p);
            if q == p {
                return None;
            }
            match find_char(s, ' ', q) {
                None => None,
                Some(u) => {
                    proof {
                        lemma_first_char_from(s@, ' ', q as int);
                    }
                    let r = skip_blanks_exec(s, u);
                    match find_crlf_chars(s, r) {
                        None => None,
                        Some(v) => {
                            proof {
                                lemma_first_crlf_chars(s@, r as int);
                            }
                            Some((m, sub_string(s, q, u), sub_string(s, r, v), v + 2))
                        },
                    }
                },
            }
        },
    }
}

/// An ASCII digit.
pub open spec fn is_digit(c: char) -> bool {
    '0' <= c && c <= '9'
}

/// The first index at or after `i` that is not an ASCII digit.
pub open spec fn skip_digits(s: Seq<char>, i: int) -> int
    decreases s.len() - i,
{
    if 0 <= i < s.len() && is_digit(s[i]) {
        skip_digits(s, i + 1)
    } else {
        i
    }
}

/// The number that the decimal digits `s` denote.
pub open spec fn dec_value(s: Seq<char>) -> int
    decreases s.len(),
{
    if s.len() == 0 {
        0
    } else {
        dec_value(s.drop_last()) * 10 + (s.last() as int - '0' as int)
    }
}

pub proof fn lemma_skip_digits(s: Seq<char>, i: int)
    requires
        0 <= i <= s.len(),
    ensures
        i <= skip_digits(s, i) <= s.len(),
        forall|j: int| i <= j < skip_digits(s, i) ==> is_digit(#[trigger] s[j]),
    decreases s.len() - i,
{
    if i < s.len() && is_digit(s[i]) {
        lemma_skip_digits(s, i + 1);
    }
}

pub proof fn lemma_dec_value_mono(s: Seq<char>, i: int)
    requires
        0 <= i <= s.len(),
        forall|j: int| 0 <= j < s.len() ==> is_digit(#[trigger] s[j]),
    ensures
        0 <= dec_value(s.subrange(0, i)) <= dec_value(s),
    decreases s.len() - i,
{
    lemma_dec_value_nonneg(s.subrange(0, i));
    if i < s.len() {
        lemma_dec_value_mono(s, i + 1);
        assert(s.subrange(0, i + 1).drop_last() =~= s.subrange(0, i));
    } else {
        assert(s.subrange(0, i) =~= s);
    }
}

pub proof fn lemma_dec_value_nonneg(s: Seq<char>)
    requires
        forall|j: int| 0 <= j < s.len() ==> is_digit(#[trigger] s[j]),
    ensures
        0 <= dec_value(s),
    decreases s.len(),
{
    if s.len() > 0 {
        lemma_dec_value_nonneg(s.drop_last());
    }
}

pub fn skip_digits_exec(s: &[char], start: usize) -> (r: usize)
    requires
        start <= s@.len(),
    ensures
        r == skip_digits(s@, start as int),
{
    let mut i = start;
    while i < s.len() && ('0' <= s[i] && s[i] <= '9')
        invariant
            start <= i <= s@.len(),
            skip_digits(s@, start as int) == skip_digits(s@, i as int),
        decreases s@.len() - i,
    {
        i = i + 1;
    }
    i
}

/// The value of the digits `s[a..b]` if it is at most `max`.
pub fn digits_value(s: &[char], a: usize, b: usize, max: usize) -> (r: Option<usize>)
    requires
        a <= b <= s@.len(),
        forall|j: int| a <= j < b ==> is_digit(#[trigger] s@[j]),
    ensures
        match r {
            Some(v) => v == dec_value(s@.subrange(a as int, b as int)) && v <= max,
            None => dec_value(s@.subrange(a as int, b as int)) > max,
        },
{
    let ghost t = s@.subrange(a as int, b as int);
    assert(forall|j: int| 0 <= j < t.len() ==> is_digit(#[trigger] t[j])) by {
        assert forall|j: int| 0 <= j < t.len() implies is_digit(#[trigger] t[j]) by {
            assert(t[j] == s@[a + j]);
        }
    }
    let mut acc: usize = 0;
    let mut k = a;
    while k < b
        invariant
            a <= k <= b <= s@.len(),
            t == s@.subrange(a as int, b as int),
            forall|j: int| 0 <= j < t.len() ==> is_digit(#[trigger] t[j]),
            acc as int == dec_value(t.subrange(0, k - a)),
            acc <= max,
        decreases b - k,
    {
        let ghost pre = t.subrange(0, k - a);
        let ghost nxt = t.subrange(0, k + 1 - a);
        proof {
            assert(nxt.drop_last() =~= pre);
            assert(nxt.last() == s@[k as int]);
            assert(is_digit(t[k - a]));
        }
        let d = (s[k] as u32 - '0' as u32) as usize;
        proof {
            assert(dec_value(nxt) == dec_value(pre) * 10 + d);
        }
        if d > max || acc > (max - d) / 10 {
            proof {
                if d <= max {
                assert(dec_value(nxt) > max) by (nonlinear_arith)
                    requires
                        dec_value(nxt) == acc * 10 + d,
                        acc > (max - d) / 10,
                        0 <= d < 10,
                        d <= max,
                ;
                }
                lemma_dec_value_mono(t, k + 1 - a);
            }
            return None;
        }
        proof {
            assert(acc * 10 + d <= max) by (nonlinear_arith)
                requires
                    acc <= (max - d) / 10,
                    0 <= d < 10,
                    d <= max,
            ;
        }
        acc = acc * 10 + d;
        k = k + 1;
    }
    proof {
        assert(t.subrange(0, b - a) =~= t);
    }
    Some(acc)
}



/// A status line: the version up to the first space, blanks, digits that
/// fit a `u16`, blanks, the reason up to CR LF. Gives the version, the
/// code and where the header section starts.
pub open spec fn status_line(s: Seq<char>) -> Option<(Seq<char>, int, int)> {
    match first_char_from(s, ' ', 0) {
        None => None,
        Some(a) => {
            let b = skip_blanks(s, a);
            let d = skip_digits(s, b);
            if d == b || dec_value(s.subrange(b, d)) > 65535 {
                None
            } else {
                let e = skip_blanks(s, d);
                if e == d {
                    None
                } else {
                    match first_crlf_chars(s, e) {
                        None => None,
                        Some(f) => Some((s.subrange(0, a), dec_value(s.subrange(b, d)), f + 2)),
                    }
                }
            }
        },
    }
}

fn status_line_exec(s: &[char]) -> (r: Option<(String, u16, usize)>)
    ensures
        match status_line(s@) {
            Some((v, c, p)) => r matches Some((rv, rc, rp)) && rv@ == v && rc == c && rp == p && 2
                <= p <= s@.len(),
            None => r is None,
        },
{
    let len = s.len();
    match find_char(s, ' ', 0) {
        None => None,
        Some(a) => {
            let b = skip_blanks_exec(s, a);
            let d = skip_digits_exec(s, b);
            proof {
                lemma_skip_digits(s@, b as int);
            }
            if d == b {
                return None;
            }
            match digits_value(s, b, d, 65535) {
                None => None,
                Some(code) => {
                    let e = skip_blanks_exec(s, d);
                    if e == d {
                        return None;
                    }
                    match find_crlf_chars(s, e) {
                        None => None,
                        Some(f) => {
                            proof {
                                lemma_first_crlf_chars(s@, e as int);
                            }
                            Some((sub_string(s, 0, a), code as u16, f + 2))
                        },
                    }
                },
            }
        },
    }
}

/// The first index at or after `i` where CR LF CR LF starts in `s`.
pub open spec fn first_dcrlf_chars(s: Seq<char>, i: int) -> Option<int>
    decreases s.len() - i,
{
    if i < 0 || i + 3 >= s.len() {
        None
    } else if s[i] == '\r' && s[i + 1] == '\n' && s[i + 2] == '\r' && s[i + 3] == '\n' {
        Some(i)
    } else {
        first_dcrlf_chars(s, i + 1)
    }
}

proof fn lemma_first_dcrlf_chars(s: Seq<char>, i: int)
    requires
        0 <= i,
    ensures
        first_dcrlf_chars(s, i) matches Some(k) ==> i <= k && k + 3 < s.len(),
    decreases s.len() - i,
{
    if i + 3 < s.len() && !(s[i] == '\r' && s[i + 1] == '\n' && s[i + 2] == '\r' && s[i + 3] == '\n') {
        lemma_first_dcrlf_chars(s, i + 1);
    }
}

fn find_dcrlf_chars(s: &[char], start: usize) -> (r: Option<usize>)
    requires
        start <= s@.len(),
    ensures
        match r {
            Some(k) => first_dcrlf_chars(s@, start as int) == Some(k as int) && k + 3 < s@.len(),
            None => first_dcrlf_chars(s@, start as int) is None,
        },
{
    let mut i = start;
    while i < s.len() && s.len() - i >= 4
        invariant
            start <= i <= s@.len(),
            first_dcrlf_chars(s@, start as int) == first_dcrlf_chars(s@, i as int),
        decreases s@.len() - i,
    {
        if s[i] == '\r' && s[i + 1] == '\n' && s[i + 2] == '\r' && s[i + 3] == '\n' {
            return Some(i);
        }
        i = i + 1;
    }
    None
}

/// One `name=digits` section of an Encapsulated value at `i`: the trimmed
/// text up to the first `=`, and the digits after it read as a `usize`.
/// Gives the name, the offset and where the section ends.
pub open spec fn section_at(s: Seq<char>, i: int) -> Option<(Seq<char>, int, int)> {
    match first_char_from(s, '=', i) {
        None => None,
        Some(k) => {
            let d = skip_digits(s, k + 1);
            if d == k + 1 || dec_value(s.subrange(k + 1, d)) > usize::MAX {
                None
            } else {
                Some((trim_spaces(s.subrange(i, k)), dec_value(s.subrange(k + 1, d)), d))
            }
        },
    }
}

pub proof fn lemma_section_at(s: Seq<char>, i: int)
    requires
        0 <= i <= s.len(),
    ensures
        section_at(s, i) matches Some((n, o, d)) ==> i < d <= s.len() && 0 <= o <= usize::MAX,
{
    lemma_first_char_from(s, '=', i);
    if let Some(k) = first_char_from(s, '=', i) {
        lemma_skip_digits(s, k + 1);
        let d = skip_digits(s, k + 1);
        assert(forall|j: int| 0 <= j < s.subrange(k + 1, d).len() ==> is_digit(
            #[trigger] s.subrange(k + 1, d)[j],
        )) by {
            assert forall|j: int| 0 <= j < s.subrange(k + 1, d).len() implies is_digit(
                #[trigger] s.subrange(k + 1, d)[j],
            ) by {
                assert(s.subrange(k + 1, d)[j] == s[k + 1 + j]);
            }
        }
        lemma_dec_value_nonneg(s.subrange(k + 1, d));
    }
}

/// The sections after the one that ends at `i`: each follows `, `; the list
/// ends at the first place where no `, ` and section follow.
pub open spec fn sections_after(s: Seq<char>, i: int) -> Seq<(Seq<char>, int)>
    decreases s.len() - i,
{
    if i < 0 || i > s.len() || !starts_with_at(s, i, ", "@) {
        Seq::empty()
    } else {
        match section_at(s, i + 2) {
            None => Seq::empty(),
            Some((n, o, d)) => {
                proof {
                    lemma_section_at(s, i + 2);
                }
                seq![(n, o)] + sections_after(s, d)
            },
        }
    }
}

/// The sections of an Encapsulated value: at least one, separated by `, `.
pub open spec fn encapsulated_sections(s: Seq<char>) -> Option<Seq<(Seq<char>, int)>> {
    match section_at(s, 0) {
        None => None,
        Some((n, o, d)) => Some(seq![(n, o)] + sections_after(s, d)),
    }
}

fn section_exec(s: &[char], i: usize) -> (r: Option<(String, usize, usize)>)
    requires
        i <= s@.len(),
    ensures
        match section_at(s@, i as int) {
            Some((n, o, d)) => r matches Some((rn, ro, rd)) && rn@ == n && ro == o && rd == d,
            None => r is None,
        },
{
    let len = s.len();
    match find_char(s, '=', i) {
        None => None,
        Some(k) => {
            proof {
                lemma_first_char_from(s@, '=', i as int);
            }
            let d = skip_digits_exec(s, k + 1);
            proof {
                lemma_skip_digits(s@, k + 1);
            }
            if d == k + 1 {
                return None;
            }
            match digits_value(s, k + 1, d, usize::MAX) {
                None => None,
                Some(o) => Some((trimmed(s, i, k), o, d)),
            }
        },
    }
}

fn sections_exec(s: &[char]) -> (r: Option<Vec<(String, usize)>>)
    ensures
        match encapsulated_sections(s@) {
            Some(secs) => r matches Some(v) && sections_view(v@) == secs,
            None => r is None,
        },
{
    let first = section_exec(s, 0);
    if first.is_none() {
        return None;
    }
    let (n0, o0, d0) = first.unwrap();
    proof {
        lemma_section_at(s@, 0);
    }
    let mut out: Vec<(String, usize)> = Vec::new();
    out.push((n0, o0));
    let mut i = d0;
    let len = s.len();
    proof {
        assert(sections_view(out@) =~= seq![(n0@, o0 as int)]);
    }
    loop
        invariant
            len == s@.len(),
            i <= s@.len(),
            encapsulated_sections(s@) == Some(sections_view(out@) + sections_after(s@, i as int)),
        ensures
            encapsulated_sections(s@) == Some(sections_view(out@)),
        decreases s@.len() - i,
    {
        if !starts_with_exec(s, i, ", ") {
            proof {
                assert(sections_view(out@) + sections_after(s@, i as int) =~= sections_view(out@));
            }
            break;
        }
        proof {
            reveal_strlit(", ");
        }
        match section_exec(s, i + 2) {
            None => {
                proof {
                    assert(sections_view(out@) + sections_after(s@, i as int) =~= sections_view(out@));
                }
                break;
            },
            Some((n, o, d)) => {
                proof {
                    lemma_section_at(s@, i + 2);
                }
                let ghost before = sections_view(out@);
                out.push((n, o));
                proof {
                    assert(sections_view(out@) =~= before.push((n@, o as int)));
                    assert(sections_after(s@, i as int) =~= seq![(n@, o as int)] + sections_after(s@, d as int));
                    assert(before + sections_after(s@, i as int) =~= sections_view(out@) + sections_after(s@, d as int));
                }
                i = d;
            },
        }
    }
    Some(out)
}

pub open spec fn sections_view(v: Seq<(String, usize)>) -> Seq<(Seq<char>, int)> {
    Seq::new(v.len(), |i: int| (v[i].0@, v[i].1 as int))
}



/// The HTTP sections that an Encapsulated header locates, as read.
pub ghost struct EncModel {
    pub req_hdr: Option<Seq<FieldView>>,
    pub req_body: Option<Seq<u8>>,
    pub res_hdr: Option<Seq<FieldView>>,
    pub res_body: Option<Seq<u8>>,
    pub null_body: bool,
}

pub open spec fn fields_opt(h: Option<HeaderMap>) -> Option<Seq<FieldView>> {
    match h {
        Some(m) => Some(m@),
        None => None,
    }
}

pub open spec fn bytes_opt(b: Option<Vec<u8>>) -> Option<Seq<u8>> {
    match b {
        Some(v) => Some(v@),
        None => None,
    }
}

/// The model of encapsulated data.
pub open spec fn enc_view(e: EncapsulatedData) -> EncModel {
    EncModel {
        req_hdr: fields_opt(e.req_hdr),
        req_body: bytes_opt(e.req_body),
        res_hdr: fields_opt(e.res_hdr),
        res_body: bytes_opt(e.res_body),
        null_body: e.null_body,
    }
}

fn copy_body(b: &Option<Vec<u8>>) -> (r: Option<Vec<u8>>)
    ensures
        bytes_opt(r) == bytes_opt(*b),
{
    match b {
        Some(v) => {
            let mut c: Vec<u8> = Vec::new();
            extend_bytes(&mut c, v.as_slice());
            Some(c)
        },
        None => None,
    }
}

fn copy_fields(h: &Option<HeaderMap>) -> (r: Option<HeaderMap>)
    ensures
        fields_opt(r) == fields_opt(*h),
{
    match h {
        Some(m) => Some(m.copy()),
        None => None,
    }
}

/// A copy of encapsulated data.
pub fn copy_encapsulated(e: &EncapsulatedData) -> (r: EncapsulatedData)
    ensures
        enc_view(r) == enc_view(*e),
{
    EncapsulatedData {
        req_hdr: copy_fields(&e.req_hdr),
        req_body: copy_body(&e.req_body),
        res_hdr: copy_fields(&e.res_hdr),
        res_body: copy_body(&e.res_body),
        null_body: e.null_body,
    }
}

pub open spec fn empty_enc() -> EncModel {
    EncModel { req_hdr: None, req_body: None, res_hdr: None, res_body: None, null_body: false }
}

/// The least offset of the sections that is above `off`, if any is.
pub open spec fn min_above(secs: Seq<(Seq<char>, int)>, off: int) -> Option<int>
    decreases secs.len(),
{
    if secs.len() == 0 {
        None
    } else {
        let r = min_above(secs.drop_last(), off);
        let o = secs.last().1;
        if o > off {
            match r {
                Some(x) => Some(if o < x { o } else { x }),
                None => Some(o),
            }
        } else {
            r
        }
    }
}

/// Where the section at `off` ends: at the next offset above it, or at the
/// end of the body.
pub open spec fn next_offset(secs: Seq<(Seq<char>, int)>, off: int, len: int) -> int {
    match min_above(secs, off) {
        Some(x) => x,
        None => len,
    }
}

/// What `min_above` picks: an offset of `secs` above `off`, no larger than
/// any other offset above `off`; none when no offset lies above `off`.
proof fn lemma_min_above(secs: Seq<(Seq<char>, int)>, off: int)
    ensures
        match min_above(secs, off) {
            Some(x) => {
                &&& x > off
                &&& exists|i: int| 0 <= i < secs.len() && (#[trigger] secs[i]).1 == x
                &&& forall|i: int| 0 <= i < secs.len() && (#[trigger] secs[i]).1 > off ==> x <= secs[i].1
            },
            None => forall|i: int| 0 <= i < secs.len() ==> (#[trigger] secs[i]).1 <= off,
        },
    decreases secs.len(),
{
    if secs.len() > 0 {
        let t = secs.drop_last();
        let n = secs.len() - 1;
        lemma_min_above(t, off);
        assert forall|i: int| 0 <= i < n implies #[trigger] t[i] == secs[i] by {}
        assert(secs[n] == secs.last());
        match min_above(t, off) {
            Some(x) => {
                let j = choose|j: int| 0 <= j < t.len() && (#[trigger] t[j]).1 == x;
                assert(secs[j].1 == x);
            },
            None => {},
        }
        match min_above(secs, off) {
            Some(y) => {
                assert forall|i: int| 0 <= i < secs.len() && (#[trigger] secs[i]).1 > off implies y <= secs[i].1 by {
                    if i < n {
                        assert(t[i] == secs[i]);
                    }
                }
            },
            None => {
                assert forall|i: int| 0 <= i < secs.len() implies (#[trigger] secs[i]).1 <= off by {
                    if i < n {
                        assert(t[i] == secs[i]);
                    }
                }
            },
        }
    }
}

/// A section of the Encapsulated header ends at the least offset the header
/// names above the section's own offset, or at the end of the data when no
/// offset lies above it: the end is no larger than any offset above the
/// section's, and is one of them unless none lies above.
pub proof fn lemma_section_end_is_least_offset_above(secs: Seq<(Seq<char>, int)>, off: int, len: int)
    ensures
        forall|i: int| 0 <= i < secs.len() && (#[trigger] secs[i]).1 > off ==> next_offset(secs, off, len) <= secs[i].1,
        (exists|i: int| 0 <= i < secs.len() && (#[trigger] secs[i]).1 > off) ==> exists|j: int|
            0 <= j < secs.len() && (#[trigger] secs[j]).1 > off && secs[j].1 == next_offset(secs, off, len),
        (forall|i: int| 0 <= i < secs.len() ==> (#[trigger] secs[i]).1 <= off) ==> next_offset(secs, off, len) == len,
{
    lemma_min_above(secs, off);
}

/// The header fields of an HTTP header section given as bytes.
pub open spec fn http_fields_parse(b: Seq<u8>) -> Result<Seq<FieldView>, Seq<char>> {
    if b.len() == 0 {
        Ok(Seq::empty())
    } else if !valid_utf8(b) {
        Err("PARSER: Invalid UTF-8 in headers"@)
    } else {
        Ok(header_fields(decode_utf8(b)))
    }
}

pub open spec fn is_hex_byte(b: u8) -> bool {
    (48 <= b <= 57) || (65 <= b <= 70) || (97 <= b <= 102)
}

/// The body looks chunked: its first line, before the first CR LF, holds 1
/// to 19 hexadecimal digits and nothing else.
pub open spec fn is_chunked_bytes(b: Seq<u8>) -> bool {
    match first_crlf(b) {
        Some(p) => 0 < p < 20 && forall|i: int| 0 <= i < p ==> #[trigger] is_hex_byte(b[i]),
        None => false,
    }
}

/// A section body: decoded when it looks chunked (it must then be complete),
/// taken as it is otherwise.
pub open spec fn body_parse(b: Seq<u8>) -> Result<Seq<u8>, Seq<char>> {
    if b.len() == 0 {
        Ok(Seq::empty())
    } else if is_chunked_bytes(b) {
        match chunk_run(initial_model(), b, 0) {
            Ok((m, out, p)) => if m.state == ChunkState::Complete {
                Ok(out)
            } else {
                Err("CHUNKED: Incomplete chunked data"@)
            },
            Err((m, f)) => Err("CHUNKED: "@ + fault_message(f)),
        }
    } else {
        Ok(b)
    }
}

/// What one section of the Encapsulated header sets. A section that the
/// header names is present: its bytes run from its offset to the next
/// offset above it (for `res-body`, to the end), cut at the end of the data,
/// and are empty when the offset lies at or past the end. The one exception
/// is a `res-hdr` section that starts inside the data while the next offset
/// lies past its end: it is passed over.
pub open spec fn enc_step(
    secs: Seq<(Seq<char>, int)>,
    body: Seq<u8>,
    acc: EncModel,
    sec: (Seq<char>, int),
) -> Result<EncModel, Seq<char>> {
    let (n, o) = sec;
    let len = body.len() as int;
    let e = next_offset(secs, o, len);
    let end = if e < len { e } else { len };
    if n == "res-hdr"@ && o < len && e > len {
        Ok(acc)
    } else if n == "req-hdr"@ || n == "res-hdr"@ {
        let f = if o < len { http_fields_parse(body.subrange(o, end)) } else { Ok(Seq::empty()) };
        match f {
            Ok(f) => if n == "req-hdr"@ {
                Ok(EncModel { req_hdr: Some(f), ..acc })
            } else {
                Ok(EncModel { res_hdr: Some(f), ..acc })
            },
            Err(x) => Err(x),
        }
    } else if n == "req-body"@ || n == "res-body"@ {
        let stop = if n == "req-body"@ { end } else { len };
        let b = if o < len { body_parse(body.subrange(o, stop)) } else { Ok(Seq::empty()) };
        match b {
            Ok(b) => if n == "req-body"@ {
                Ok(EncModel { req_body: Some(b), ..acc })
            } else {
                Ok(EncModel { res_body: Some(b), ..acc })
            },
            Err(x) => Err(x),
        }
    } else if n == "null-body"@ {
        Ok(EncModel { null_body: true, ..acc })
    } else {
        Ok(acc)
    }
}

/// The first `k` sections applied in order, stopping at the first error.
pub open spec fn enc_fold(secs: Seq<(Seq<char>, int)>, body: Seq<u8>, k: nat) -> Result<
    EncModel,
    Seq<char>,
>
    decreases k,
{
    if k == 0 {
        Ok(empty_enc())
    } else {
        match enc_fold(secs, body, (k - 1) as nat) {
            Err(x) => Err(x),
            Ok(acc) => enc_step(secs, body, acc, secs[k - 1]),
        }
    }
}

/// The HTTP sections that the Encapsulated value `v` locates in `body`.
pub open spec fn encapsulated_parse(v: Seq<char>, body: Seq<u8>) -> Result<EncModel, Seq<char>> {
    if !is_visible_text(v) {
        Err("PARSER: Invalid encapsulated header"@)
    } else {
        match encapsulated_sections(v) {
            None => Err("PARSER: Failed to parse encapsulated header"@),
            Some(secs) => enc_fold(secs, body, secs.len()),
        }
    }
}

fn min_above_exec(secs: &Vec<(String, usize)>, off: usize) -> (r: Option<usize>)
    ensures
        match min_above(sections_view(secs@), off as int) {
            Some(x) => r == Some(x as usize) && off < x <= usize::MAX,
            None => r is None,
        },
{
    let mut best: Option<usize> = None;
    let mut i: usize = 0;
    while i < secs.len()
        invariant
            i <= secs@.len(),
            match min_above(sections_view(secs@).subrange(0, i as int), off as int) {
                Some(x) => best == Some(x as usize) && off < x <= usize::MAX,
                None => best is None,
            },
        decreases secs@.len() - i,
    {
        let o = secs[i].1;
        proof {
            let t = sections_view(secs@).subrange(0, i + 1);
            assert(t.drop_last() =~= sections_view(secs@).subrange(0, i as int));
            assert(t.last().1 == o);
        }
        if o > off {
            best = match best {
                Some(x) => Some(if o < x { o } else { x }),
                None => Some(o),
            };
        }
        i = i + 1;
    }
    proof {
        assert(sections_view(secs@).subrange(0, secs@.len() as int) =~= sections_view(secs@));
    }
    best
}

/// The header fields of an HTTP header section given as bytes.
fn parse_http_fields(b: &[u8]) -> (r: Result<HeaderMap, String>)
    ensures
        match http_fields_parse(b@) {
            Ok(f) => r matches Ok(m) && m@ == f,
            Err(x) => r matches Err(e) && e@ == x,
        },
{
    if b.len() == 0 {
        return Ok(HeaderMap::new());
    }
    match utf8_chars(b) {
        None => Err(String::from_str("PARSER: Invalid UTF-8 in headers")),
        Some(cs) => Ok(parse_header_fields(cs.as_slice())),
    }
}

fn is_chunked_exec(b: &[u8]) -> (r: bool)
    ensures
        r == is_chunked_bytes(b@),
{
    match find_crlf_in(b, 0) {
        None => false,
        Some(p) => {
            proof {
                lemma_first_crlf_from(b@, 0);
            }
            if p == 0 || p >= 20 {
                return false;
            }
            let mut i: usize = 0;
            while i < p
                invariant
                    i <= p,
                    p < b@.len(),
                    first_crlf(b@) == Some(p as int),
                    forall|j: int| 0 <= j < i ==> #[trigger] is_hex_byte(b@[j]),
                decreases p - i,
            {
                let c = b[i];
                if !((48 <= c && c <= 57) || (65 <= c && c <= 70) || (97 <= c && c <= 102)) {
                    proof {
                        assert(!is_hex_byte(b@[i as int]));
                        assert(first_crlf(b@) == Some(p as int));
                        assert(!(forall|j: int| 0 <= j < p ==> #[trigger] is_hex_byte(b@[j])));
                    }
                    return false;
                }
                i = i + 1;
            }
            true
        },
    }
}

/// A section body, decoded when it looks chunked.
fn parse_body(b: &[u8]) -> (r: Result<Vec<u8>, String>)
    ensures
        match body_parse(b@) {
            Ok(x) => r matches Ok(v) && v@ == x,
            Err(x) => r matches Err(e) && e@ == x,
        },
{
    if b.len() == 0 {
        return Ok(Vec::new());
    }
    if is_chunked_exec(b) {
        let mut parser = ChunkedParser::new();
        match parser.parse_chunk(b) {
            Ok((out, _)) => {
                if parser.is_complete() {
                    Ok(out)
                } else {
                    Err(String::from_str("CHUNKED: Incomplete chunked data"))
                }
            },
            Err(e) => {
                proof {
                    if let Err((m, f)) = chunk_run(initial_model(), b@, 0) {
                        crate::protocol::chunked::lemma_fault_message(e, f);
                    }
                }
                let mut msg = String::from_str("CHUNKED: ");
                let t = e.to_string();
                msg.append(t.as_str());
                Err(msg)
            },
        }
    } else {
        let mut v: Vec<u8> = Vec::new();
        extend_bytes(&mut v, b);
        Ok(v)
    }
}



fn enc_step_exec(
    secs: &Vec<(String, usize)>,
    body: &[u8],
    acc: EncapsulatedData,
    i: usize,
) -> (r: Result<EncapsulatedData, String>)
    requires
        i < secs@.len(),
    ensures
        match enc_step(sections_view(secs@), body@, enc_view(acc), sections_view(secs@)[i as int]) {
            Ok(m) => r matches Ok(e) && enc_view(e) == m,
            Err(x) => r matches Err(e) && e@ == x,
        },
{
    let n = &secs[i].0;
    let o = secs[i].1;
    let len = body.len();
    let e = match min_above_exec(secs, o) {
        Some(x) => x,
        None => len,
    };
    proof {
        assert(sections_view(secs@)[i as int] == (n@, o as int));
        assert(next_offset(sections_view(secs@), o as int, len as int) == e);
    }
    let end = if e < len { e } else { len };
    let mut acc = acc;
    let is_req_hdr = str_eq(n.as_str(), "req-hdr");
    let is_res_hdr = str_eq(n.as_str(), "res-hdr");
    let is_req_body = str_eq(n.as_str(), "req-body");
    let is_res_body = str_eq(n.as_str(), "res-body");
    if is_res_hdr && o < len && e > len {
        return Ok(acc);
    }
    if is_req_hdr || is_res_hdr {
        let f = if o < len {
            parse_http_fields(&body[o..end])
        } else {
            Ok(HeaderMap::new())
        };
        match f {
            Ok(f) => {
                if is_req_hdr {
                    acc.req_hdr = Some(f);
                } else {
                    acc.res_hdr = Some(f);
                }
                Ok(acc)
            },
            Err(x) => Err(x),
        }
    } else if is_req_body || is_res_body {
        let stop = if is_req_body { end } else { len };
        let b = if o < len {
            parse_body(&body[o..stop])
        } else {
            Ok(Vec::new())
        };
        match b {
            Ok(b) => {
                if is_req_body {
                    acc.req_body = Some(b);
                } else {
                    acc.res_body = Some(b);
                }
                Ok(acc)
            },
            Err(x) => Err(x),
        }
    } else if str_eq(n.as_str(), "null-body") {
        acc.null_body = true;
        Ok(acc)
    } else {
        Ok(acc)
    }
}

/// The HTTP sections that the Encapsulated value `v` locates in `body`.
pub fn parse_encapsulated(v: &str, body: &[u8]) -> (r: Result<EncapsulatedData, String>)
    ensures
        match encapsulated_parse(v@, body@) {
            Ok(m) => r matches Ok(e) && enc_view(e) == m,
            Err(x) => r matches Err(e) && e@ == x,
        },
{
    let cs = str_chars(v);
    let mut i: usize = 0;
    let mut visible = true;
    while i < cs.len()
        invariant
            i <= cs@.len(),
            cs@ == v@,
            visible == forall|j: int| 0 <= j < i ==> (#[trigger] cs@[j] == '\t' || (' ' <= cs@[j]
                && cs@[j] <= '~')),
        decreases cs@.len() - i,
    {
        let c = cs[i];
        if !(c == '\t' || (' ' <= c && c <= '~')) {
            visible = false;
        }
        i = i + 1;
    }
    if !visible {
        return Err(String::from_str("PARSER: Invalid encapsulated header"));
    }
    proof {
        assert(is_visible_text(v@));
    }
    let secs = match sections_exec(cs.as_slice()) {
        None => {
            return Err(String::from_str("PARSER: Failed to parse encapsulated header"));
        },
        Some(x) => x,
    };
    let ghost sv = sections_view(secs@);
    let mut acc = EncapsulatedData {
        req_hdr: None,
        req_body: None,
        res_hdr: None,
        res_body: None,
        null_body: false,
    };
    let mut k: usize = 0;
    while k < secs.len()
        invariant
            k <= secs@.len(),
            sv == sections_view(secs@),
            is_visible_text(v@),
            encapsulated_sections(v@) == Some(sv),
            enc_fold(sv, body@, k as nat) == Ok::<EncModel, Seq<char>>(enc_view(acc)),
        decreases secs@.len() - k,
    {
        match enc_step_exec(&secs, body, acc, k) {
            Err(x) => {
                proof {
                    assert(enc_fold(sv, body@, (k + 1) as nat) == enc_step(sv, body@, enc_view(acc), sv[k as int]));
                    lemma_enc_fold_err(sv, body@, (k + 1) as nat, secs@.len() as nat);
                    assert(is_visible_text(v@));
                    assert(sv.len() == secs@.len());
                    assert(encapsulated_parse(v@, body@) == enc_fold(sv, body@, sv.len()));
                }
                return Err(x);
            },
            Ok(a) => {
                acc = a;
            },
        }
        k = k + 1;
    }
    Ok(acc)
}

/// Once the fold has failed it stays failed, with the same error.
proof fn lemma_enc_fold_err(secs: Seq<(Seq<char>, int)>, body: Seq<u8>, k: nat, n: nat)
    requires
        k <= n,
        enc_fold(secs, body, k) is Err,
    ensures
        enc_fold(secs, body, n) == enc_fold(secs, body, k),
    decreases n - k,
{
    if k < n {
        lemma_enc_fold_err(secs, body, k, (n - 1) as nat);
    }
}

/// A parsed request, as plain values.
pub ghost struct RequestModel {
    pub method: IcapMethod,
    pub uri: Seq<char>,
    pub version: HttpVersion,
    pub fields: Seq<FieldView>,
    pub body: Seq<u8>,
    pub enc: Option<EncModel>,
}

pub open spec fn request_view(r: IcapRequest) -> RequestModel {
    RequestModel {
        method: r.method,
        uri: r.uri@,
        version: r.version,
        fields: r.headers@,
        body: r.body@,
        enc: match r.encapsulated {
            Some(e) => Some(enc_view(e)),
            None => None,
        },
    }
}

/// A request URI in absolute form or a path: `http::Uri` gives it a
/// non-empty path (an authority alone has none).
pub open spec fn uri_has_path(u: Seq<char>) -> bool {
    uri_path_of(u) matches Some(p) && p.len() > 0
}

/// Where the header section that starts at `p` ends: after the first empty
/// line (the line break before `p` counts), or at the end of the text when
/// there is none.
pub open spec fn head_end(s: Seq<char>, p: int) -> int {
    match first_dcrlf_chars(s, p - 2) {
        Some(h) => h + 4,
        None => s.len() as int,
    }
}

/// The request that the text `s` holds, or the message of the error that
/// refuses it: request line, URI, version, the header section up to the
/// first empty line or, without one, to the end (the line break that ends
/// the request line counts, so a request without fields has an empty
/// section), the header fields, the body after the empty line and the
/// sections that an Encapsulated field locates in the body.
pub open spec fn request_parse(s: Seq<char>) -> Result<RequestModel, Seq<char>> {
    match request_line(s) {
        None => Err("PARSER: Failed to parse request line"@),
        Some((m, u, v, p)) => match uri_normal_form(u) {
            None => Err("PARSER: Invalid URI"@),
            Some(un) => if !uri_has_path(u) {
                Err("PARSER: Invalid URI: neither absolute nor a path"@)
            } else { match version_from_text(v) {
                None => Err("PARSER: Unsupported version: "@ + v),
                Some(ver) => {
                    let e = head_end(s, p);
                    let fields = header_fields(s.subrange(p, e));
                    let body = encode_utf8(s.subrange(e, s.len() as int));
                    match map_get(fields, "encapsulated"@) {
                        None => Ok(
                            RequestModel {
                                method: m,
                                uri: un,
                                version: ver,
                                fields,
                                body,
                                enc: None,
                            },
                        ),
                        Some(ev) => match encapsulated_parse(ev, body) {
                            Err(x) => Err(x),
                            Ok(em) => Ok(
                                RequestModel {
                                    method: m,
                                    uri: un,
                                    version: ver,
                                    fields,
                                    body,
                                    enc: Some(em),
                                },
                            ),
                        },
                    }
                },
            } },
        },
    }
}

/// The bytes of `s[a..]` in UTF-8.
fn tail_bytes(s: &[char], a: usize) -> (r: Vec<u8>)
    requires
        a <= s@.len(),
    ensures
        r@ == encode_utf8(s@.subrange(a as int, s@.len() as int)),
{
    let t = chars_string(&s[a..s.len()]);
    let mut v: Vec<u8> = Vec::new();
    extend_bytes(&mut v, t.as_str().as_bytes());
    v
}

/// The header fields and body after the start line, and the sections that
/// an Encapsulated field locates.
fn parse_head_rest(s: &[char], p: usize) -> (r: Result<(HeaderMap, Vec<u8>, Option<EncapsulatedData>), String>)
    requires
        2 <= p <= s@.len(),
    ensures
        ({
            let h = head_end(s@, p as int);
            let fields = header_fields(s@.subrange(p as int, h));
            let body = encode_utf8(s@.subrange(h, s@.len() as int));
            match map_get(fields, "encapsulated"@) {
                None => r matches Ok((f, b, e)) && f@ == fields && b@ == body && e is None,
                Some(ev) => match encapsulated_parse(ev, body) {
                    Err(x) => r matches Err(e) && e@ == x,
                    Ok(em) => r matches Ok((f, b, Some(d))) && f@ == fields && b@ == body
                        && enc_view(d) == em,
                },
            }
        }),
{
    let len = s.len();
    proof {
        lemma_first_dcrlf_chars(s@, p - 2);
    }
    let h = match find_dcrlf_chars(s, p - 2) {
        None => len,
        Some(h) => h + 4,
    };
    let fields = parse_header_fields(&s[p..h]);
    let body = tail_bytes(s, h);
    proof {
        reveal_strlit("encapsulated");
        assert(ascii_lower("encapsulated"@) =~= "encapsulated"@);
    }
    match fields.get("encapsulated") {
        None => Ok((fields, body, None)),
        Some(ev) => {
            let ev2 = ev.clone();
            match parse_encapsulated(ev2.as_str(), body.as_slice()) {
                Err(x) => Err(x),
                Ok(d) => Ok((fields, body, Some(d))),
            }
        },
    }
}

/// Parses an ICAP request from text.
pub fn parse_icap_request_chars(s: &[char]) -> (r: Result<IcapRequest, IcapError>)
    ensures
        match request_parse(s@) {
            Ok(m) => r matches Ok(q) && request_view(q) == m,
            Err(x) => r matches Err(IcapError::Protocol(e)) && e@ == x,
        },
{
    let (method, u, v, p) = match request_line_exec(s) {
        None => {
            return Err(IcapError::Protocol(String::from_str("PARSER: Failed to parse request line")));
        },
        Some(x) => x,
    };
    let uri = match parse_uri(u.as_str()) {
        None => {
            return Err(IcapError::Protocol(String::from_str("PARSER: Invalid URI")));
        },
        Some(x) => x,
    };
    let has_path = match uri_path(u.as_str()) {
        Some(path) => path.as_str().unicode_len() > 0,
        None => false,
    };
    if !has_path {
        return Err(IcapError::Protocol(String::from_str("PARSER: Invalid URI: neither absolute nor a path")));
    }
    let version = match version_from_exec(v.as_str()) {
        None => {
            let mut m = String::from_str("PARSER: Unsupported version: ");
            m.append(v.as_str());
            return Err(IcapError::Protocol(m));
        },
        Some(x) => x,
    };
    match parse_head_rest(s, p) {
        Err(x) => Err(IcapError::Protocol(x)),
        Ok((headers, body, encapsulated)) => Ok(
            IcapRequest { method, uri, version, headers, body, encapsulated },
        ),
    }
}



/// A parsed response, as plain values.
pub ghost struct ResponseModel {
    pub status: u16,
    pub version: HttpVersion,
    pub fields: Seq<FieldView>,
    pub body: Seq<u8>,
    pub enc: Option<EncModel>,
}

pub open spec fn response_view(r: IcapResponse) -> ResponseModel {
    ResponseModel {
        status: r.status,
        version: r.version,
        fields: r.headers@,
        body: r.body@,
        enc: match r.encapsulated {
            Some(e) => Some(enc_view(e)),
            None => None,
        },
    }
}

/// The response that the text `s` holds, or the message of the error that
/// refuses it: status line, version, a status from 100 to 999, then as for
/// a request.
pub open spec fn response_parse(s: Seq<char>) -> Result<ResponseModel, Seq<char>> {
    match status_line(s) {
        None => Err("PARSER: Failed to parse status line"@),
        Some((v, c, p)) => match version_from_text(v) {
            None => Err("PARSER: Unsupported version: "@ + v),
            Some(ver) => if !(100 <= c <= 999) {
                Err("PARSER: Invalid status code: invalid status code"@)
            } else {
                let e = head_end(s, p);
                let fields = header_fields(s.subrange(p, e));
                let body = encode_utf8(s.subrange(e, s.len() as int));
                match map_get(fields, "encapsulated"@) {
                    None => Ok(
                        ResponseModel {
                            status: c as u16,
                            version: ver,
                            fields,
                            body,
                            enc: None,
                        },
                    ),
                    Some(ev) => match encapsulated_parse(ev, body) {
                        Err(x) => Err(x),
                        Ok(em) => Ok(
                            ResponseModel {
                                status: c as u16,
                                version: ver,
                                fields,
                                body,
                                enc: Some(em),
                            },
                        ),
                    },
                }
            },
        },
    }
}

/// Parses an ICAP response from text.
pub fn parse_icap_response_chars(s: &[char]) -> (r: Result<IcapResponse, IcapError>)
    ensures
        match response_parse(s@) {
            Ok(m) => r matches Ok(q) && response_view(q) == m,
            Err(x) => r matches Err(IcapError::Protocol(e)) && e@ == x,
        },
{
    let (v, code, p) = match status_line_exec(s) {
        None => {
            return Err(IcapError::Protocol(String::from_str("PARSER: Failed to parse status line")));
        },
        Some(x) => x,
    };
    let version = match version_from_exec(v.as_str()) {
        None => {
            let mut m = String::from_str("PARSER: Unsupported version: ");
            m.append(v.as_str());
            return Err(IcapError::Protocol(m));
        },
        Some(x) => x,
    };
    if !(100 <= code && code <= 999) {
        return Err(
            IcapError::Protocol(String::from_str("PARSER: Invalid status code: invalid status code")),
        );
    }
    match parse_head_rest(s, p) {
        Err(x) => Err(IcapError::Protocol(x)),
        Ok((headers, body, encapsulated)) => Ok(
            IcapResponse { status: code, version, headers, body, encapsulated },
        ),
    }
}

/// Parses an ICAP request.
pub fn parse_icap_request(input: &str) -> (r: Result<IcapRequest, IcapError>)
    ensures
        match request_parse(input@) {
            Ok(m) => r matches Ok(q) && request_view(q) == m,
            Err(x) => r matches Err(IcapError::Protocol(e)) && e@ == x,
        },
{
    let cs = str_chars(input);
    parse_icap_request_chars(cs.as_slice())
}

/// Parses an ICAP response.
pub fn parse_icap_response(input: &str) -> (r: Result<IcapResponse, IcapError>)
    ensures
        match response_parse(input@) {
            Ok(m) => r matches Ok(q) && response_view(q) == m,
            Err(x) => r matches Err(IcapError::Protocol(e)) && e@ == x,
        },
{
    let cs = str_chars(input);
    parse_icap_response_chars(cs.as_slice())
}

/// Where the sections read by `encapsulated_sections` end.
pub open spec fn sections_end_after(s: Seq<char>, i: int) -> int
    decreases s.len() - i,
{
    if i < 0 || i > s.len() || !starts_with_at(s, i, ", "@) {
        i
    } else {
        match section_at(s, i + 2) {
            None => i,
            Some((n, o, d)) => {
                proof {
                    lemma_section_at(s, i + 2);
                }
                sections_end_after(s, d)
            },
        }
    }
}

/// Reads the sections of an Encapsulated value; gives the text after them
/// and the sections, or nothing when not even one section is there.
pub fn parse_encapsulated_header(input: &str) -> (r: Option<(String, Vec<(String, usize)>)>)
    ensures
        match encapsulated_sections(input@) {
            Some(secs) => r matches Some((rest, v)) && sections_view(v@) == secs && rest@
                == input@.subrange(
                sections_end_after(input@, section_at(input@, 0)->Some_0.2),
                input@.len() as int,
            ),
            None => r is None,
        },
{
    let cs = str_chars(input);
    let s = cs.as_slice();
    let first = section_exec(s, 0);
    if first.is_none() {
        return None;
    }
    let (n0, o0, d0) = first.unwrap();
    proof {
        lemma_section_at(s@, 0);
    }
    let mut out: Vec<(String, usize)> = Vec::new();
    out.push((n0, o0));
    let mut i = d0;
    let len = s.len();
    proof {
        assert(sections_view(out@) =~= seq![(n0@, o0 as int)]);
    }
    loop
        invariant
            len == s@.len(),
            i <= s@.len(),
            s@ == input@,
            encapsulated_sections(s@) == Some(sections_view(out@) + sections_after(s@, i as int)),
            sections_end_after(s@, d0 as int) == sections_end_after(s@, i as int),
            section_at(s@, 0)->Some_0.2 == d0,
        ensures
            encapsulated_sections(s@) == Some(sections_view(out@)),
            sections_end_after(s@, d0 as int) == i,
        decreases s@.len() - i,
    {
        if !starts_with_exec(s, i, ", ") {
            proof {
                assert(sections_view(out@) + sections_after(s@, i as int) =~= sections_view(out@));
            }
            break;
        }
        proof {
            reveal_strlit(", ");
        }
        match section_exec(s, i + 2) {
            None => {
                proof {
                    assert(sections_view(out@) + sections_after(s@, i as int) =~= sections_view(out@));
                }
                break;
            },
            Some((n, o, d)) => {
                proof {
                    lemma_section_at(s@, i + 2);
                }
                let ghost before = sections_view(out@);
                out.push((n, o));
                proof {
                    assert(sections_view(out@) =~= before.push((n@, o as int)));
                    assert(sections_after(s@, i as int) =~= seq![(n@, o as int)] + sections_after(s@, d as int));
                    assert(before + sections_after(s@, i as int) =~= sections_view(out@) + sections_after(s@, d as int));
                }
                i = d;
            },
        }
    }
    Some((sub_string(s, i, len), out))
}


} // verus!
