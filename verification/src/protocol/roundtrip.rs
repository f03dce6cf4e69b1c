//! What the parser reads back of what the serializer writes.

use vstd::prelude::*;
use vstd::utf8::{valid_utf8, decode_utf8, encode_utf8, encode_utf8_valid_utf8, encode_utf8_decode_utf8, decode_utf8_encode_utf8};
use crate::protocol::common::{
    EncapsulatedData, encapsulated_parts, opt_fields_len, opt_body_len, fields_byte_len,
    IcapMethod, IcapRequest, IcapResponse, HttpVersion, method_name, version_text, request_head, response_head,
    status_reason, response_body,
};
use crate::protocol::fields::{HeaderMap, map_get, FieldView, set_field, lemma_name_index_none, lemma_name_index_at};
use crate::protocol::workflows::{
    header_block, header_lines_bytes, headers_from_bytes, lines_fields, line_field, strip_cr, fields_onto,
    same_fields, reqmod_answer, respmod_answer, unchanged_answer, reqmod_block_reason, respmod_block_reason,
    HttpReqModel, HttpResModel,
};
use crate::protocol::parser::{
    first_char_from, first_crlf_chars, skip_blanks, is_blank, method_prefix, starts_with_at, request_line,
    version_from_text, request_parse, uri_has_path, header_fields, head_end, is_digit, dec_value, skip_digits, status_line,
    response_parse,
};
use crate::text::{dec_chars, digit_char, ascii_chars, lemma_encode_ascii, trim_spaces, lead_space, trail_space, is_unicode_space, ascii_lower};
use crate::bridge::{uri_normal_form, is_field_name, is_field_value, is_token_char};

verus! {

proof fn lemma_first_char_at(s: Seq<char>, c: char, i: int, k: int)
    requires
        0 <= i <= k < s.len(),
        s[k] == c,
        forall|j: int| i <= j < k ==> s[j] != c,
    ensures
        first_char_from(s, c, i) == Some(k),
    decreases k - i,
{
    if i < k {
        lemma_first_char_at(s, c, i + 1, k);
    }
}

proof fn lemma_first_crlf_at(s: Seq<char>, i: int, k: int)
    requires
        0 <= i <= k,
        k + 1 < s.len(),
        s[k] == '\r',
        s[k + 1] == '\n',
        forall|j: int| i <= j < k ==> s[j] != '\r',
    ensures
        first_crlf_chars(s, i) == Some(k),
    decreases k - i,
{
    if i < k {
        lemma_first_crlf_at(s, i + 1, k);
    }
}

/// A URI that a request line carries as it is: not empty, without spaces,
/// and not starting with a tab.
pub open spec fn plain_uri(u: Seq<char>) -> bool {
    &&& u.len() > 0
    &&& u[0] != '\t'
    &&& forall|i: int| 0 <= i < u.len() ==> u[i] != ' '
}

/// Where the header section of a written request starts: after its
/// request line.
pub open spec fn request_line_len(r: IcapRequest) -> int {
    method_name(r.method).len() + 1 + r.uri@.len() + 1 + version_text(r.version).len() + 2int
}

proof fn lemma_method_prefix(m: IcapMethod, s: Seq<char>)
    requires
        starts_with_at(s, 0, method_name(m)),
    ensures
        method_prefix(s) == Some((m, method_name(m).len() as int)),
{
    reveal_strlit("REQMOD");
    reveal_strlit("RESPMOD");
    reveal_strlit("OPTIONS");
    let n = method_name(m);
    assert(s.subrange(0, n.len() as int) == n);
    match m {
        IcapMethod::Reqmod => {},
        IcapMethod::Respmod => {
            assert(s[2] == s.subrange(0, n.len() as int)[2]);
            assert(s[2] == 'S');
            assert(!starts_with_at(s, 0, "REQMOD"@)) by {
                if starts_with_at(s, 0, "REQMOD"@) {
                    assert(s.subrange(0, 6)[2] == "REQMOD"@[2]);
                }
            }
        },
        IcapMethod::Options => {
            assert(s[0] == s.subrange(0, n.len() as int)[0]);
            assert(s[0] == 'O');
            assert(!starts_with_at(s, 0, "REQMOD"@)) by {
                if starts_with_at(s, 0, "REQMOD"@) {
                    assert(s.subrange(0, 6)[0] == "REQMOD"@[0]);
                }
            }
            assert(!starts_with_at(s, 0, "RESPMOD"@)) by {
                if starts_with_at(s, 0, "RESPMOD"@) {
                    assert(s.subrange(0, 7)[0] == "RESPMOD"@[0]);
                }
            }
        },
    }
}

proof fn lemma_version_text(v: HttpVersion)
    requires
        v != HttpVersion::Http09,
    ensures
        version_from_text(version_text(v)) == Some(v),
        version_text(v).len() == 8,
        version_text(v)[0] != ' ' && version_text(v)[0] != '\t',
        forall|i: int| 0 <= i < version_text(v).len() ==> version_text(v)[i] != '\r',
{
    reveal_strlit("HTTP/1.0");
    reveal_strlit("HTTP/1.1");
    reveal_strlit("HTTP/2.0");
    reveal_strlit("HTTP/3.0");
    reveal_strlit("ICAP/1.0");
    assert("HTTP/1.0"@ != "HTTP/1.1"@) by {
        assert("HTTP/1.0"@[7] != "HTTP/1.1"@[7]);
    }
    assert("HTTP/2.0"@ != "HTTP/1.0"@) by {
        assert("HTTP/2.0"@[5] != "HTTP/1.0"@[5]);
    }
    assert("HTTP/2.0"@ != "HTTP/1.1"@) by {
        assert("HTTP/2.0"@[5] != "HTTP/1.1"@[5]);
    }
    assert("HTTP/3.0"@ != "HTTP/1.0"@) by {
        assert("HTTP/3.0"@[5] != "HTTP/1.0"@[5]);
    }
    assert("HTTP/3.0"@ != "HTTP/1.1"@) by {
        assert("HTTP/3.0"@[5] != "HTTP/1.1"@[5]);
    }
    assert("HTTP/3.0"@ != "HTTP/2.0"@) by {
        assert("HTTP/3.0"@[5] != "HTTP/2.0"@[5]);
    }
    assert("ICAP/1.0"@ != "HTTP/1.0"@) by {
        assert("ICAP/1.0"@[0] != "HTTP/1.0"@[0]);
    }
    assert("ICAP/1.0"@ != "HTTP/1.1"@) by {
        assert("ICAP/1.0"@[0] != "HTTP/1.1"@[0]);
    }
    assert("ICAP/1.0"@ != "HTTP/2.0"@) by {
        assert("ICAP/1.0"@[0] != "HTTP/2.0"@[0]);
    }
    assert("ICAP/1.0"@ != "HTTP/3.0"@) by {
        assert("ICAP/1.0"@[0] != "HTTP/3.0"@[0]);
    }
}

/// The request line that the serializer writes reads back as the request's
/// method, URI and version text, with the header section right after it.
pub proof fn lemma_request_line_read_back(r: IcapRequest, t: Seq<char>)
    requires
        plain_uri(r.uri@),
        r.version != HttpVersion::Http09,
    ensures
        request_line(request_head(r) + t) == Some::<(IcapMethod, Seq<char>, Seq<char>, int)>(
            (r.method, r.uri@, version_text(r.version), request_line_len(r)),
        ),
{
    let s = request_head(r) + t;
    let mn = method_name(r.method);
    let u = r.uri@;
    let vt = version_text(r.version);
    let line = mn + " "@ + u + " "@ + vt + "\r\n"@;
    reveal_strlit(" ");
    reveal_strlit("\r\n");
    reveal_strlit("REQMOD");
    reveal_strlit("RESPMOD");
    reveal_strlit("OPTIONS");
    lemma_version_text(r.version);
    let rest = request_head(r).subrange(line.len() as int, request_head(r).len() as int) + t;
    assert(request_head(r) =~= line + request_head(r).subrange(line.len() as int, request_head(r).len() as int));
    assert(s =~= line + rest);
    let a = mn.len() as int;
    let b = a + 1 + u.len();
    let c = b + 1;
    let d = c + vt.len();
    assert(line.len() == d + 2);
    assert forall|k: int| 0 <= k < line.len() implies #[trigger] s[k] == line[k] by {}
    assert(s.subrange(0, a) =~= mn);
    lemma_method_prefix(r.method, s);
    assert(s[a] == ' ');
    assert(s[a + 1] == u[0]);
    assert(skip_blanks(s, a + 1) == a + 1);
    assert(skip_blanks(s, a) == a + 1);
    assert forall|j: int| a + 1 <= j < b implies s[j] != ' ' by {
        assert(s[j] == u[j - a - 1]);
    }
    assert(s[b] == ' ');
    lemma_first_char_at(s, ' ', a + 1, b);
    assert(s[c] == vt[0]);
    assert(skip_blanks(s, c) == c);
    assert(skip_blanks(s, b) == c);
    assert forall|j: int| c <= j < d implies s[j] != '\r' by {
        assert(s[j] == vt[j - c]);
    }
    assert(s[d] == '\r' && s[d + 1] == '\n');
    lemma_first_crlf_at(s, c, d);
    assert(s.subrange(a + 1, b) =~= u);
    assert(s.subrange(c, d) =~= vt);
}

/// Parsing a written request gives back its method, URI and version,
/// unless an Encapsulated field in the header section fails to parse;
/// this for a URI that is plain, in absolute form or a path, and that
/// `http` writes back as it is, and a
/// version other than HTTP/0.9 (which is written as ICAP/1.0).
pub proof fn lemma_request_read_back(r: IcapRequest, t: Seq<char>)
    requires
        plain_uri(r.uri@),
        uri_normal_form(r.uri@) == Some(r.uri@),
        uri_has_path(r.uri@),
        r.version != HttpVersion::Http09,
    ensures
        match request_parse(request_head(r) + t) {
            Ok(m) => m.method == r.method && m.uri == r.uri@ && m.version == r.version,
            Err(_) => {
                let s = request_head(r) + t;
                let p = request_line_len(r);
                map_get(header_fields(s.subrange(p, head_end(s, p))), "encapsulated"@) is Some
            },
        },
{
    lemma_request_line_read_back(r, t);
    lemma_version_text(r.version);
}

proof fn lemma_encode_concat(a: Seq<char>, b: Seq<char>)
    ensures
        encode_utf8(a + b) == encode_utf8(a) + encode_utf8(b),
    decreases a.len(),
{
    if a.len() > 0 {
        lemma_encode_concat(a.drop_first(), b);
        assert((a + b).drop_first() =~= a.drop_first() + b);
        assert(encode_utf8(a + b) =~= encode_utf8(a) + encode_utf8(b));
    } else {
        assert(a + b =~= b);
        assert(encode_utf8(a) + encode_utf8(b) =~= encode_utf8(b));
    }
}

/// Text written in UTF-8 and followed by valid UTF-8 bytes decodes to the
/// text followed by what the bytes decode to.
pub proof fn lemma_text_then_bytes(text: Seq<char>, b: Seq<u8>)
    requires
        valid_utf8(b),
    ensures
        valid_utf8(encode_utf8(text) + b),
        decode_utf8(encode_utf8(text) + b) == text + decode_utf8(b),
{
    decode_utf8_encode_utf8(b);
    lemma_encode_concat(text, decode_utf8(b));
    encode_utf8_valid_utf8(text + decode_utf8(b));
    encode_utf8_decode_utf8(text + decode_utf8(b));
}

/// What `IcapParser::parse_request` reads of the bytes that
/// `IcapSerializer::serialize_request` writes for `r`, when its body is
/// UTF-8: the bytes are valid UTF-8 and read as the request's head followed
/// by its body, so `lemma_request_read_back` applies with the body's text.
pub proof fn lemma_serialized_request_text(r: IcapRequest)
    requires
        valid_utf8(r.body@),
    ensures
        valid_utf8(encode_utf8(request_head(r)) + r.body@),
        decode_utf8(encode_utf8(request_head(r)) + r.body@) == request_head(r) + decode_utf8(r.body@),
{
    lemma_text_then_bytes(request_head(r), r.body@);
}

/// Parsing the bytes that serializing `r` writes gives back its method, URI
/// and version, unless an Encapsulated field fails to parse; this for a body
/// in UTF-8, a URI that is plain, in absolute form or a path, and that
/// `http` writes back as it is, and a
/// version other than HTTP/0.9.
pub proof fn lemma_serialize_then_parse_request(r: IcapRequest)
    requires
        plain_uri(r.uri@),
        uri_normal_form(r.uri@) == Some(r.uri@),
        uri_has_path(r.uri@),
        r.version != HttpVersion::Http09,
        valid_utf8(r.body@),
    ensures
        valid_utf8(encode_utf8(request_head(r)) + r.body@),
        match request_parse(decode_utf8(encode_utf8(request_head(r)) + r.body@)) {
            Ok(m) => m.method == r.method && m.uri == r.uri@ && m.version == r.version,
            Err(_) => {
                let s = request_head(r) + decode_utf8(r.body@);
                let p = request_line_len(r);
                map_get(header_fields(s.subrange(p, head_end(s, p))), "encapsulated"@) is Some
            },
        },
{
    lemma_serialized_request_text(r);
    lemma_request_read_back(r, decode_utf8(r.body@));
}

/// The decimal text of a number reads back as the number.
pub proof fn lemma_dec_chars_read_back(n: nat)
    ensures
        dec_chars(n).len() >= 1,
        forall|i: int| 0 <= i < dec_chars(n).len() ==> #[trigger] is_digit(dec_chars(n)[i]),
        dec_value(dec_chars(n)) == n,
    decreases n,
{
    let d = (n % 10) as int;
    let u = (48 + d) as u8;
    assert(u as int == 48 + d);
    assert((u as char) as int == u as int);
    assert(digit_char(d) as int - '0' as int == d);
    if n < 10 {
        assert(d == n);
        assert(dec_chars(n).drop_last() =~= Seq::<char>::empty());
        assert(dec_chars(n).last() == digit_char(d));
        assert(dec_value(Seq::<char>::empty()) == 0);
        assert(dec_value(dec_chars(n)) == 0 * 10 + (digit_char(d) as int - '0' as int));
    } else {
        lemma_dec_chars_read_back(n / 10);
        let x = dec_chars(n / 10);
        assert(dec_chars(n).drop_last() =~= x);
        assert(dec_chars(n).last() == digit_char(d));
        assert(dec_value(dec_chars(n)) == dec_value(x) * 10 + (digit_char(d) as int - '0' as int));
        assert(n == (n / 10) * 10 + n % 10);
    }
}

proof fn lemma_skip_digits_at(s: Seq<char>, i: int, k: int)
    requires
        0 <= i <= k < s.len(),
        !is_digit(s[k]),
        forall|j: int| i <= j < k ==> is_digit(s[j]),
    ensures
        skip_digits(s, i) == k,
    decreases k - i,
{
    if i < k {
        lemma_skip_digits_at(s, i + 1, k);
    }
}

proof fn lemma_skip_blanks_below(s: Seq<char>, i: int, k: int)
    requires
        0 <= i <= k < s.len(),
        !is_blank(s[k]),
    ensures
        i <= skip_blanks(s, i) <= k,
    decreases k - i,
{
    if i < k && is_blank(s[i]) {
        lemma_skip_blanks_below(s, i + 1, k);
    }
}

proof fn lemma_first_crlf_found(s: Seq<char>, i: int, k: int)
    requires
        0 <= i <= k,
        k + 1 < s.len(),
        s[k] == '\r',
        s[k + 1] == '\n',
    ensures
        first_crlf_chars(s, i) matches Some(f) && i <= f <= k,
    decreases k - i,
{
    if i < k && !(s[i] == '\r' && s[i + 1] == '\n') {
        lemma_first_crlf_found(s, i + 1, k);
    }
}

/// Parsing a written response gives back its status, with the version
/// ICAP/1.0 read as HTTP/1.1, unless an Encapsulated field in the header
/// section fails to parse; this for a status from 100 to 999.
pub proof fn lemma_response_read_back(r: IcapResponse, t: Seq<char>)
    requires
        100 <= r.status <= 999,
    ensures
        match response_parse(response_head(r) + t) {
            Ok(m) => m.status == r.status && m.version == HttpVersion::Http11,
            Err(_) => {
                let s = response_head(r) + t;
                status_line(s) matches Some((v, c, p)) && map_get(
                    header_fields(s.subrange(p, head_end(s, p))),
                    "encapsulated"@,
                ) is Some
            },
        },
{
    let s = response_head(r) + t;
    let dc = dec_chars(r.status as nat);
    let reason = status_reason(r.status);
    let line = "ICAP/1.0 "@ + dc + " "@ + reason + "\r\n"@;
    reveal_strlit("ICAP/1.0 ");
    reveal_strlit("ICAP/1.0");
    reveal_strlit(" ");
    reveal_strlit("\r\n");
    lemma_version_text(HttpVersion::Http11);
    lemma_dec_chars_read_back(r.status as nat);
    let h = response_head(r);
    assert(h =~= line + h.subrange(line.len() as int, h.len() as int));
    assert(s =~= line + (h.subrange(line.len() as int, h.len() as int) + t));
    assert forall|k: int| 0 <= k < line.len() implies #[trigger] s[k] == line[k] by {}
    let b = 9int;
    let d = b + dc.len();
    let k = d + 1 + reason.len();
    assert(line.len() == k + 2);
    assert forall|j: int| 0 <= j < 8 implies s[j] != ' ' by {
        assert(s[j] == "ICAP/1.0 "@[j]);
    }
    assert(s[8] == ' ');
    lemma_first_char_at(s, ' ', 0, 8);
    assert(s[b] == dc[0]);
    assert(is_digit(dc[0]));
    assert(skip_blanks(s, b) == b);
    assert(skip_blanks(s, 8) == b);
    assert forall|j: int| b <= j < d implies is_digit(s[j]) by {
        assert(s[j] == dc[j - b]);
    }
    assert(s[d] == ' ');
    lemma_skip_digits_at(s, b, d);
    assert(s.subrange(b, d) =~= dc);
    assert(s[k] == '\r' && s[k + 1] == '\n');
    lemma_skip_blanks_below(s, d + 1, k);
    let e = skip_blanks(s, d);
    assert(e == skip_blanks(s, d + 1));
    lemma_first_crlf_found(s, e, k);
    assert(s.subrange(0, 8) =~= "ICAP/1.0"@);
}

/// Parsing the bytes that serializing `r` writes gives back its status,
/// with HTTP/1.1 for the ICAP/1.0 version, unless an Encapsulated field
/// fails to parse; this for a body in UTF-8 and a status from 100 to 999.
pub proof fn lemma_serialize_then_parse_response(r: IcapResponse)
    requires
        100 <= r.status <= 999,
        valid_utf8(response_body(r)),
    ensures
        valid_utf8(encode_utf8(response_head(r)) + response_body(r)),
        match response_parse(decode_utf8(encode_utf8(response_head(r)) + response_body(r))) {
            Ok(m) => m.status == r.status && m.version == HttpVersion::Http11,
            Err(_) => {
                let s = response_head(r) + decode_utf8(response_body(r));
                status_line(s) matches Some((v, c, p)) && map_get(
                    header_fields(s.subrange(p, head_end(s, p))),
                    "encapsulated"@,
                ) is Some
            },
        },
{
    lemma_text_then_bytes(response_head(r), response_body(r));
    lemma_response_read_back(r, decode_utf8(response_body(r)));
}


/// The text of the lines of a header section: `name: value` and CR LF for
/// each field.
pub open spec fn header_lines_text(f: Seq<FieldView>) -> Seq<char>
    decreases f.len(),
{
    if f.len() == 0 {
        Seq::empty()
    } else {
        header_lines_text(f.drop_last()) + f.last().0 + seq![':', ' '] + f.last().1 + seq!['\r', '\n']
    }
}

/// A field that reads back as it is written: a lower-case field name, and a
/// field value without white space at either end.
pub open spec fn plain_field(f: FieldView) -> bool {
    &&& is_field_name(f.0)
    &&& ascii_lower(f.0) == f.0
    &&& is_field_value(f.1)
    &&& f.1.len() > 0 ==> !is_unicode_space(f.1[0]) && !is_unicode_space(f.1.last())
}

/// Fields that read back as they are written: each plain, no name twice.
pub open spec fn plain_fields(f: Seq<FieldView>) -> bool {
    &&& forall|i: int| 0 <= i < f.len() ==> plain_field(#[trigger] f[i])
    &&& forall|i: int, j: int| 0 <= i < j < f.len() ==> #[trigger] f[i].0 != #[trigger] f[j].0
}

proof fn lemma_encode_separators()
    ensures
        encode_utf8(seq![':', ' ']) == seq![58u8, 32u8],
        encode_utf8(seq!['\r', '\n']) == seq![13u8, 10u8],
{
    let a = seq![58u8, 32u8];
    let b = seq![13u8, 10u8];
    lemma_encode_ascii(a);
    lemma_encode_ascii(b);
    assert(ascii_chars(a) =~= seq![':', ' ']);
    assert(ascii_chars(b) =~= seq!['\r', '\n']);
}

proof fn lemma_header_lines_encoding(f: Seq<FieldView>)
    ensures
        header_lines_bytes(f) == encode_utf8(header_lines_text(f)),
    decreases f.len(),
{
    if f.len() > 0 {
        lemma_header_lines_encoding(f.drop_last());
        let t = header_lines_text(f.drop_last());
        let n = f.last().0;
        let v = f.last().1;
        let cs = seq![':', ' '];
        let crlf = seq!['\r', '\n'];
        lemma_encode_concat(t, n);
        lemma_encode_concat(t + n, cs);
        lemma_encode_concat(t + n + cs, v);
        lemma_encode_concat(t + n + cs + v, crlf);
        lemma_encode_separators();
    }
}

proof fn lemma_no_space_ends(s: Seq<char>)
    requires
        s.len() > 0,
        !is_unicode_space(s[0]),
        !is_unicode_space(s.last()),
    ensures
        trim_spaces(s) == s,
{
    assert(lead_space(s) == 0);
    assert(trail_space(s) == 0);
    assert(s.subrange(0, s.len() as int) =~= s);
}

proof fn lemma_trim_spaced_value(v: Seq<char>)
    requires
        v.len() > 0 ==> !is_unicode_space(v[0]) && !is_unicode_space(v.last()),
    ensures
        trim_spaces(seq![' '] + v) == v,
{
    let t = seq![' '] + v;
    assert(t.drop_first() =~= v);
    if v.len() == 0 {
        assert(lead_space(v) == 0);
        assert(lead_space(t) == 1);
    } else {
        assert(lead_space(v) == 0);
        assert(lead_space(t) == 1);
        assert(t.last() == v.last());
        assert(trail_space(t) == 0);
        assert(t.subrange(1, t.len() as int) =~= v);
    }
}

proof fn lemma_line_read(acc: Seq<FieldView>, s: Seq<char>, i: int, n: Seq<char>, v: Seq<char>)
    requires
        plain_field((n, v)),
        0 <= i,
        i + n.len() + v.len() + 4 <= s.len(),
        s.subrange(i, i + n.len() + v.len() + 4) == n + seq![':', ' '] + v + seq!['\r', '\n'],
    ensures
        lines_fields(acc, s, i) == lines_fields(set_field(acc, n, v), s, i + n.len() + v.len() + 4),
{
    let line_all = n + seq![':', ' '] + v + seq!['\r', '\n'];
    let a = n.len() as int;
    let k = i + a + v.len() + 3;
    assert forall|j: int| i <= j < k implies s[j] != '\n' by {
        assert(s[j] == line_all[j - i]);
        if j - i < a {
            assert(is_token_char(n[j - i]));
        } else if j - i >= a + 2 && j - i < a + 2 + v.len() {
            assert(v[j - i - a - 2] == line_all[j - i]);
        }
    }
    assert(s[k] == line_all[k - i]);
    lemma_first_char_at(s, '\n', i, k);
    let line = n + seq![':', ' '] + v;
    assert(strip_cr(s.subrange(i, k)) =~= line);
    assert forall|j: int| 0 <= j < a implies line[j] != ':' by {
        assert(is_token_char(n[j]));
    }
    lemma_first_char_at(line, ':', 0, a);
    assert(line.subrange(0, a) =~= n);
    assert(line.subrange(a + 1, line.len() as int) =~= seq![' '] + v);
    assert(!is_unicode_space(n[0])) by {
        assert(is_token_char(n[0]));
    }
    assert(!is_unicode_space(n.last())) by {
        assert(is_token_char(n[n.len() - 1]));
    }
    lemma_no_space_ends(n);
    lemma_trim_spaced_value(v);
}

proof fn lemma_lines_read(acc: Seq<FieldView>, s: Seq<char>, i: int, f: Seq<FieldView>)
    requires
        forall|j: int| 0 <= j < f.len() ==> plain_field(#[trigger] f[j]),
        0 <= i,
        i + header_lines_text(f).len() <= s.len(),
        s.subrange(i, i + header_lines_text(f).len()) == header_lines_text(f),
    ensures
        lines_fields(acc, s, i) == lines_fields(fields_onto(acc, f), s, i + header_lines_text(f).len()),
    decreases f.len(),
{
    if f.len() > 0 {
        let f2 = f.drop_last();
        let t2 = header_lines_text(f2);
        let n = f.last().0;
        let v = f.last().1;
        let line_all = n + seq![':', ' '] + v + seq!['\r', '\n'];
        assert(header_lines_text(f) == t2 + line_all);
        assert(s.subrange(i, i + t2.len()) =~= t2) by {
            assert forall|j: int| 0 <= j < t2.len() implies s.subrange(i, i + t2.len())[j] == t2[j] by {
                assert(s.subrange(i, i + header_lines_text(f).len())[j] == header_lines_text(f)[j]);
            }
        }
        assert forall|j: int| 0 <= j < f2.len() implies plain_field(#[trigger] f2[j]) by {
            assert(f2[j] == f[j]);
        }
        lemma_lines_read(acc, s, i, f2);
        let p = i + t2.len();
        assert(s.subrange(p, p + line_all.len()) =~= line_all) by {
            assert forall|j: int| 0 <= j < line_all.len() implies s.subrange(p, p + line_all.len())[j] == line_all[j] by {
                assert(s.subrange(i, i + header_lines_text(f).len())[t2.len() + j] == header_lines_text(f)[t2.len() + j]);
            }
        }
        assert(plain_field(f[f.len() - 1]));
        lemma_line_read(fields_onto(acc, f2), s, p, n, v);
    }
}

proof fn lemma_fields_onto_plain(f: Seq<FieldView>)
    requires
        plain_fields(f),
    ensures
        fields_onto(Seq::empty(), f) == f,
    decreases f.len(),
{
    if f.len() > 0 {
        let f2 = f.drop_last();
        assert forall|i: int| 0 <= i < f2.len() implies plain_field(#[trigger] f2[i]) by {
            assert(f2[i] == f[i]);
        }
        assert forall|i: int, j: int| 0 <= i < j < f2.len() implies #[trigger] f2[i].0 != #[trigger] f2[j].0 by {
            assert(f2[i] == f[i] && f2[j] == f[j]);
        }
        lemma_fields_onto_plain(f2);
        let n = f.last().0;
        assert(plain_field(f[f.len() - 1]));
        assert forall|j: int| 0 <= j < f2.len() implies #[trigger] f2[j].0 != n by {
            assert(f2[j] == f[j]);
        }
        lemma_name_index_none(f2, n, 0);
        assert(f2.push((n, f.last().1)) =~= f);
    }
}

/// A header section that the workflows write out for their filters reads
/// back as the fields it was written from, when each field has a lower-case
/// name and a value without white space at either end, and no name occurs
/// twice. So a filter that hands back what it is given changes no field.
pub proof fn lemma_header_block_read_back(f: Seq<FieldView>)
    requires
        plain_fields(f),
    ensures
        headers_from_bytes(header_block(f)) == Ok::<Seq<FieldView>, Seq<char>>(f),
{
    let lt = header_lines_text(f);
    let t = lt + seq!['\r', '\n'];
    lemma_header_lines_encoding(f);
    lemma_encode_concat(lt, seq!['\r', '\n']);
    lemma_encode_separators();
    assert(header_block(f) == encode_utf8(t));
    encode_utf8_valid_utf8(t);
    encode_utf8_decode_utf8(t);
    assert(t.subrange(0, lt.len() as int) =~= lt);
    lemma_lines_read(Seq::empty(), t, 0, f);
    let p = lt.len() as int;
    assert(t[p] == '\r' && t[p + 1] == '\n');
    lemma_first_char_at(t, '\n', p, p + 1);
    assert(strip_cr(t.subrange(p, p + 1)) =~= Seq::<char>::empty());
    let x = fields_onto(Seq::empty(), f);
    assert(line_field(x, Seq::<char>::empty()) == x);
    assert(lines_fields(x, t, p + 2) == x);
    lemma_fields_onto_plain(f);
}

proof fn lemma_same_fields_self(f: Seq<FieldView>)
    requires
        plain_fields(f),
    ensures
        same_fields(f, f),
{
    assert forall|i: int| 0 <= i < f.len() implies map_get(f, ascii_lower(#[trigger] f[i].0)) == Some(f[i].1) by {
        assert(plain_field(f[i]));
        assert forall|j: int| 0 <= j < i implies #[trigger] f[j].0 != f[i].0 by {}
        lemma_name_index_at(f, f[i].0, 0, i);
    }
}

/// A REQMOD request whose HTTP request comes out of the filters as it went
/// in (its header section read back from what a pass-through filter hands
/// back) is answered with no change, unless it is to be blocked.
pub proof fn lemma_pass_through_request(r: IcapRequest, orig: HttpReqModel)
    requires
        plain_fields(orig.fields),
        reqmod_block_reason(orig) is None,
    ensures
        headers_from_bytes(header_block(orig.fields)) == Ok::<Seq<FieldView>, Seq<char>>(orig.fields),
        reqmod_answer(r, orig, orig) == unchanged_answer(r.version),
{
    lemma_header_block_read_back(orig.fields);
    lemma_same_fields_self(orig.fields);
}

/// A RESPMOD request whose HTTP response comes out of the filters as it went
/// in is answered with no change, unless it is to be blocked.
pub proof fn lemma_pass_through_response(r: IcapRequest, req: HttpReqModel, orig: HttpResModel)
    requires
        plain_fields(orig.fields),
        respmod_block_reason(orig) is None,
    ensures
        headers_from_bytes(header_block(orig.fields)) == Ok::<Seq<FieldView>, Seq<char>>(orig.fields),
        respmod_answer(r, req, orig, orig) == unchanged_answer(r.version),
{
    lemma_header_block_read_back(orig.fields);
    lemma_same_fields_self(orig.fields);
}

/// The bytes of a header section as the sections of a message carry it: its
/// lines, then the empty line; nothing when the section is absent.
pub open spec fn section_block_bytes(h: Option<HeaderMap>) -> Seq<u8> {
    match h {
        Some(m) => header_block(m@),
        None => Seq::empty(),
    }
}

/// The bytes of a body section; nothing when the section is absent.
pub open spec fn section_body_bytes(b: Option<Vec<u8>>) -> Seq<u8> {
    match b {
        Some(v) => v@,
        None => Seq::empty(),
    }
}

proof fn lemma_header_lines_len(f: Seq<FieldView>)
    ensures
        header_lines_bytes(f).len() == fields_byte_len(f),
    decreases f.len(),
{
    if f.len() > 0 {
        lemma_header_lines_len(f.drop_last());
    }
}

/// The offsets that the Encapsulated header names: each section starts
/// after the bytes of the sections written before it, in the order req-hdr,
/// res-hdr, req-body, res-body; the first starts at 0.
pub proof fn lemma_encapsulated_offsets(e: EncapsulatedData)
    ensures
        e.req_hdr is Some ==> encapsulated_parts(e).contains("req-hdr="@ + dec_chars(0)),
        e.res_hdr is Some ==> encapsulated_parts(e).contains(
            "res-hdr="@ + dec_chars(section_block_bytes(e.req_hdr).len()),
        ),
        e.req_body is Some ==> encapsulated_parts(e).contains(
            "req-body="@ + dec_chars((section_block_bytes(e.req_hdr) + section_block_bytes(e.res_hdr)).len()),
        ),
        e.res_body is Some ==> encapsulated_parts(e).contains(
            "res-body="@ + dec_chars(
                (section_block_bytes(e.req_hdr) + section_block_bytes(e.res_hdr) + section_body_bytes(e.req_body)).len(),
            ),
        ),
{
    if let Some(h) = e.req_hdr {
        lemma_header_lines_len(h@);
    }
    if let Some(h) = e.res_hdr {
        lemma_header_lines_len(h@);
    }
    let o1 = opt_fields_len(e.req_hdr);
    let o2 = o1 + opt_fields_len(e.res_hdr);
    let o3 = o2 + opt_body_len(e.req_body);
    assert(section_block_bytes(e.req_hdr).len() == o1);
    assert((section_block_bytes(e.req_hdr) + section_block_bytes(e.res_hdr)).len() == o2);
    assert((section_block_bytes(e.req_hdr) + section_block_bytes(e.res_hdr) + section_body_bytes(e.req_body)).len() == o3);
    let p0 = Seq::<Seq<char>>::empty();
    let p1 = if e.req_hdr is Some { p0.push("req-hdr="@ + dec_chars(0)) } else { p0 };
    let p2 = if e.res_hdr is Some { p1.push("res-hdr="@ + dec_chars(o1)) } else { p1 };
    let p3 = if e.req_body is Some { p2.push("req-body="@ + dec_chars(o2)) } else { p2 };
    let p4 = if e.res_body is Some { p3.push("res-body="@ + dec_chars(o3)) } else { p3 };
    let p = encapsulated_parts(e);
    assert(p4.len() <= p.len());
    assert forall|i: int| 0 <= i < p4.len() implies p[i] == p4[i] by {}
    if e.req_hdr is Some {
        assert(p1[0] == p4[0]);
        assert(p[0] == "req-hdr="@ + dec_chars(0));
    }
    if e.res_hdr is Some {
        let k = p1.len() as int;
        assert(p2[k] == p4[k]);
        assert(p[k] == "res-hdr="@ + dec_chars(o1));
    }
    if e.req_body is Some {
        let k = p2.len() as int;
        assert(p3[k] == p4[k]);
        assert(p[k] == "req-body="@ + dec_chars(o2));
    }
    if e.res_body is Some {
        let k = p3.len() as int;
        assert(p[k] == "res-body="@ + dec_chars(o3));
    }
}

} // verus!
