//! Byte and character helpers shared by the parsers and serializers.

use vstd::prelude::*;
use crate::bridge::chars_string;
use vstd::utf8::{valid_utf8, decode_utf8, encode_utf8, encode_scalar, encode_utf8_valid_utf8, encode_utf8_decode_utf8};

verus! {

/// True when `d` holds CR LF at index `i`.
pub open spec fn is_crlf_at(d: Seq<u8>, i: int) -> bool {
    0 <= i && i + 1 < d.len() && d[i] == 13u8 && d[i + 1] == 10u8
}

/// The first index at or after `i` where CR LF starts in `d`.
pub open spec fn first_crlf_from(d: Seq<u8>, i: int) -> Option<int>
    decreases d.len() - i,
{
    if i < 0 || i + 1 >= d.len() {
        None
    } else if is_crlf_at(d, i) {
        Some(i)
    } else {
        first_crlf_from(d, i + 1)
    }
}

/// The index of the first CR LF in `d`.
pub open spec fn first_crlf(d: Seq<u8>) -> Option<int> {
    first_crlf_from(d, 0)
}

pub proof fn lemma_first_crlf_from(d: Seq<u8>, i: int)
    requires
        0 <= i,
    ensures
        first_crlf_from(d, i) matches Some(k) ==> i <= k && is_crlf_at(d, k) && forall|j: int|
            i <= j < k ==> !is_crlf_at(d, j),
        first_crlf_from(d, i) is None ==> forall|j: int| i <= j ==> !is_crlf_at(d, j),
    decreases d.len() - i,
{
    if i + 1 >= d.len() {
    } else if is_crlf_at(d, i) {
    } else {
        lemma_first_crlf_from(d, i + 1);
    }
}

/// Finds the first CR LF at or after `start` in `data[..end]`.
pub fn find_crlf_in(data: &[u8], start: usize) -> (r: Option<usize>)
    requires
        start <= data@.len(),
    ensures
        r matches Some(k) ==> first_crlf_from(data@, start as int) == Some(k as int),
        r is None ==> first_crlf_from(data@, start as int) is None,
{
    let mut i = start;
    proof { lemma_first_crlf_from(data@, start as int); }
    while i < data.len() && data.len() - i >= 2
        invariant
            start <= i <= data@.len(),
            first_crlf_from(data@, start as int) == first_crlf_from(data@, i as int),
        decreases data@.len() - i,
    {
        if data[i] == 13u8 && data[i + 1] == 10u8 {
            return Some(i);
        }
        i = i + 1;
    }
    None
}


/// The characters that `char::is_whitespace` accepts (Unicode `White_Space`).
pub open spec fn is_unicode_space(c: char) -> bool {
    ||| c == '\t' || c == '\n' || c == '\x0B' || c == '\x0C' || c == '\r' || c == ' '
    ||| c == '\u{85}' || c == '\u{A0}' || c == '\u{1680}'
    ||| ('\u{2000}' <= c && c <= '\u{200A}')
    ||| c == '\u{2028}' || c == '\u{2029}' || c == '\u{202F}' || c == '\u{205F}' || c == '\u{3000}'
}

pub fn is_unicode_space_exec(c: char) -> (r: bool)
    ensures
        r == is_unicode_space(c),
{
    c == '\t' || c == '\n' || c == '\x0B' || c == '\x0C' || c == '\r' || c == ' ' || c == '\u{85}'
        || c == '\u{A0}' || c == '\u{1680}' || ('\u{2000}' <= c && c <= '\u{200A}') || c == '\u{2028}'
        || c == '\u{2029}' || c == '\u{202F}' || c == '\u{205F}' || c == '\u{3000}'
}

/// Number of leading white-space characters of `s`.
pub open spec fn lead_space(s: Seq<char>) -> int
    decreases s.len(),
{
    if s.len() > 0 && is_unicode_space(s[0]) {
        1 + lead_space(s.drop_first())
    } else {
        0
    }
}

/// Number of trailing white-space characters of `s`.
pub open spec fn trail_space(s: Seq<char>) -> int
    decreases s.len(),
{
    if s.len() > 0 && is_unicode_space(s.last()) {
        1 + trail_space(s.drop_last())
    } else {
        0
    }
}

/// `s` without leading and trailing white space (what `str::trim` gives).
pub open spec fn trim_spaces(s: Seq<char>) -> Seq<char> {
    let a = lead_space(s);
    if a == s.len() {
        Seq::empty()
    } else {
        s.subrange(a, s.len() - trail_space(s))
    }
}

proof fn lemma_lead_space(s: Seq<char>, i: int)
    requires
        0 <= i <= s.len(),
        forall|j: int| 0 <= j < i ==> is_unicode_space(#[trigger] s[j]),
    ensures
        lead_space(s) == i + lead_space(s.subrange(i, s.len() as int)),
        0 <= lead_space(s) <= s.len(),
    decreases i,
{
    if i > 0 {
        let t = s.drop_first();
        assert forall|j: int| 0 <= j < i - 1 implies is_unicode_space(#[trigger] t[j]) by {
            assert(t[j] == s[j + 1]);
        }
        lemma_lead_space(t, i - 1);
        assert(t.subrange(i - 1, t.len() as int) =~= s.subrange(i, s.len() as int));
    } else {
        assert(s.subrange(0, s.len() as int) =~= s);
        lemma_lead_space_bound(s);
    }
}

proof fn lemma_lead_space_bound(s: Seq<char>)
    ensures
        0 <= lead_space(s) <= s.len(),
        lead_space(s) < s.len() ==> !is_unicode_space(s[lead_space(s)]),
        forall|j: int| 0 <= j < lead_space(s) ==> is_unicode_space(#[trigger] s[j]),
    decreases s.len(),
{
    if s.len() > 0 && is_unicode_space(s[0]) {
        let t = s.drop_first();
        lemma_lead_space_bound(t);
        assert forall|j: int| 0 <= j < lead_space(s) implies is_unicode_space(#[trigger] s[j]) by {
            if j > 0 {
                assert(s[j] == t[j - 1]);
            }
        }
    }
}

proof fn lemma_trail_space_bound(s: Seq<char>)
    ensures
        0 <= trail_space(s) <= s.len(),
        trail_space(s) < s.len() ==> !is_unicode_space(s[s.len() - 1 - trail_space(s)]),
        forall|j: int| s.len() - trail_space(s) <= j < s.len() ==> is_unicode_space(#[trigger] s[j]),
    decreases s.len(),
{
    if s.len() > 0 && is_unicode_space(s.last()) {
        let t = s.drop_last();
        lemma_trail_space_bound(t);
        assert forall|j: int| s.len() - trail_space(s) <= j < s.len() implies is_unicode_space(#[trigger] s[j]) by {
            if j < s.len() - 1 {
                assert(s[j] == t[j]);
            }
        }
    }
}

proof fn lemma_lead_space_exact(s: Seq<char>, i: int)
    requires
        0 <= i <= s.len(),
        forall|j: int| 0 <= j < i ==> is_unicode_space(#[trigger] s[j]),
        i < s.len() ==> !is_unicode_space(s[i]),
    ensures
        lead_space(s) == i,
    decreases i,
{
    if i > 0 {
        let t = s.drop_first();
        assert forall|j: int| 0 <= j < i - 1 implies is_unicode_space(#[trigger] t[j]) by {
            assert(t[j] == s[j + 1]);
        }
        if i < s.len() {
            assert(t[i - 1] == s[i]);
        }
        lemma_lead_space_exact(t, i - 1);
    }
}

proof fn lemma_trail_space_exact(s: Seq<char>, k: int)
    requires
        0 <= k <= s.len(),
        forall|j: int| s.len() - k <= j < s.len() ==> is_unicode_space(#[trigger] s[j]),
        k < s.len() ==> !is_unicode_space(s[s.len() - 1 - k]),
    ensures
        trail_space(s) == k,
    decreases k,
{
    if k > 0 {
        let t = s.drop_last();
        assert forall|j: int| t.len() - (k - 1) <= j < t.len() implies is_unicode_space(#[trigger] t[j]) by {
            assert(t[j] == s[j]);
        }
        if k < s.len() {
            assert(t[t.len() - 1 - (k - 1)] == s[s.len() - 1 - k]);
        }
        lemma_trail_space_exact(t, k - 1);
    }
}

/// Returns the bounds `(a, b)` of `s` without its surrounding white space.
pub fn trim_bounds(s: &[char]) -> (r: (usize, usize))
    ensures
        r.0 <= r.1 <= s@.len(),
        s@.subrange(r.0 as int, r.1 as int) == trim_spaces(s@),
{
    let mut a: usize = 0;
    while a < s.len() && is_unicode_space_exec(s[a])
        invariant
            a <= s@.len(),
            forall|j: int| 0 <= j < a ==> is_unicode_space(#[trigger] s@[j]),
        decreases s@.len() - a,
    {
        a = a + 1;
    }
    proof { lemma_lead_space_exact(s@, a as int); }
    if a == s.len() {
        return (a, a);
    }
    let mut b: usize = s.len();
    while b > a && is_unicode_space_exec(s[b - 1])
        invariant
            a < s@.len(),
            a <= b <= s@.len(),
            !is_unicode_space(s@[a as int]),
            forall|j: int| b <= j < s@.len() ==> is_unicode_space(#[trigger] s@[j]),
        decreases b,
    {
        b = b - 1;
    }
    proof {
        lemma_trail_space_exact(s@, s@.len() - b);
    }
    (a, b)
}

/// Value of a hexadecimal digit, if `c` is one.
pub open spec fn hex_digit_value(c: char) -> Option<int> {
    if '0' <= c && c <= '9' {
        Some(c as int - '0' as int)
    } else if 'a' <= c && c <= 'f' {
        Some(c as int - 'a' as int + 10)
    } else if 'A' <= c && c <= 'F' {
        Some(c as int - 'A' as int + 10)
    } else {
        None
    }
}

pub open spec fn all_hex_digits(s: Seq<char>) -> bool {
    forall|i: int| 0 <= i < s.len() ==> (#[trigger] hex_digit_value(s[i])) is Some
}

/// The number that the hexadecimal digits `s` denote.
pub open spec fn hex_value(s: Seq<char>) -> int
    decreases s.len(),
{
    if s.len() == 0 {
        0
    } else {
        hex_value(s.drop_last()) * 16 + hex_digit_value(s.last()).unwrap_or(0)
    }
}

/// Why a text is not an integer, as `std::num::IntErrorKind` tells it.
#[derive(PartialEq, Eq, Structural, Clone, Copy, Debug)]
pub enum IntErrorKind {
    Empty,
    InvalidDigit,
    PosOverflow,
}

/// The message that `ParseIntError` displays for each kind.
pub open spec fn int_error_message(k: IntErrorKind) -> Seq<char> {
    match k {
        IntErrorKind::Empty => "cannot parse integer from empty string"@,
        IntErrorKind::InvalidDigit => "invalid digit found in string"@,
        IntErrorKind::PosOverflow => "number too large to fit in target type"@,
    }
}

pub fn int_error_text(k: IntErrorKind) -> (r: String)
    ensures
        r@ == int_error_message(k),
{
    match k {
        IntErrorKind::Empty => String::from_str("cannot parse integer from empty string"),
        IntErrorKind::InvalidDigit => String::from_str("invalid digit found in string"),
        IntErrorKind::PosOverflow => String::from_str("number too large to fit in target type"),
    }
}

/// Unsigned parse in base 16 of `s` into a `usize`, with the grammar of
/// `usize::from_str_radix(s, 16)`: an optional `+` followed by one or more digits.
pub open spec fn parse_hex_usize(s: Seq<char>) -> Result<int, IntErrorKind> {
    if s.len() == 0 {
        Err(IntErrorKind::Empty)
    } else {
        let digits = if s[0] == '+' { s.drop_first() } else { s };
        if digits.len() == 0 || !all_hex_digits(digits) {
            Err(IntErrorKind::InvalidDigit)
        } else if hex_value(digits) > usize::MAX {
            Err(IntErrorKind::PosOverflow)
        } else {
            Ok(hex_value(digits))
        }
    }
}

pub fn hex_digit_value_exec(c: char) -> (r: Option<u8>)
    ensures
        r matches Some(v) ==> hex_digit_value(c) == Some(v as int),
        r is None ==> hex_digit_value(c) is None,
{
    if '0' <= c && c <= '9' {
        Some(((c as u32) - ('0' as u32)) as u8)
    } else if 'a' <= c && c <= 'f' {
        Some(((c as u32) - ('a' as u32) + 10) as u8)
    } else if 'A' <= c && c <= 'F' {
        Some(((c as u32) - ('A' as u32) + 10) as u8)
    } else {
        None
    }
}

proof fn lemma_hex_value_mono(s: Seq<char>, i: int)
    requires
        0 <= i <= s.len(),
        all_hex_digits(s),
    ensures
        hex_value(s.subrange(0, i)) <= hex_value(s),
        0 <= hex_value(s.subrange(0, i)),
    decreases s.len() - i,
{
    lemma_hex_value_nonneg(s.subrange(0, i));
    if i < s.len() {
        lemma_hex_value_mono(s, i + 1);
        let t = s.subrange(0, i + 1);
        assert(t.drop_last() =~= s.subrange(0, i));
        assert(hex_digit_value(s[i]) is Some);
    } else {
        assert(s.subrange(0, i) =~= s);
    }
}

proof fn lemma_hex_value_nonneg(s: Seq<char>)
    ensures
        0 <= hex_value(s),
    decreases s.len(),
{
    if s.len() > 0 {
        lemma_hex_value_nonneg(s.drop_last());
    }
}

/// Parses `s[a..b]` as `usize::from_str_radix(.., 16)` does.
pub fn parse_hex_usize_exec(s: &[char], a: usize, b: usize) -> (r: Result<usize, IntErrorKind>)
    requires
        a <= b <= s@.len(),
    ensures
        match r {
            Ok(v) => parse_hex_usize(s@.subrange(a as int, b as int)) == Ok::<int, IntErrorKind>(v as int),
            Err(k) => parse_hex_usize(s@.subrange(a as int, b as int)) == Err::<int, IntErrorKind>(k),
        },
{
    let ghost t = s@.subrange(a as int, b as int);
    if a == b {
        return Err(IntErrorKind::Empty);
    }
    let mut start = a;
    if s[a] == '+' {
        start = a + 1;
    }
    let ghost digits = s@.subrange(start as int, b as int);
    proof {
        assert(t[0] == s@[a as int]);
        assert(t.len() > 0);
        if s@[a as int] == '+' {
            assert(t.drop_first() =~= digits);
        } else {
            assert(t =~= digits);
        }
        assert(digits == (if t[0] == '+' { t.drop_first() } else { t }));
    }
    if start == b {
        return Err(IntErrorKind::InvalidDigit);
    }
    let mut i = start;
    while i < b
        invariant
            start <= i <= b <= s@.len(),
            digits == s@.subrange(start as int, b as int),
            t == s@.subrange(a as int, b as int),
            t.len() > 0,
            digits.len() > 0,
            digits == (if t[0] == '+' { t.drop_first() } else { t }),
            forall|j: int| start <= j < i ==> (#[trigger] hex_digit_value(s@[j])) is Some,
        decreases b - i,
    {
        if hex_digit_value_exec(s[i]).is_none() {
            proof {
                assert(digits[i - start] == s@[i as int]);
                assert(hex_digit_value(digits[i - start]) is None);
                assert(!all_hex_digits(digits));
            }
            return Err(IntErrorKind::InvalidDigit);
        }
        i = i + 1;
    }
    assert(all_hex_digits(digits)) by {
        assert forall|j: int| 0 <= j < digits.len() implies (#[trigger] hex_digit_value(digits[j])) is Some by {
            assert(digits[j] == s@[start + j]);
        }
    }
    let mut acc: usize = 0;
    let mut k = start;
    while k < b
        invariant
            start <= k <= b <= s@.len(),
            digits == s@.subrange(start as int, b as int),
            t == s@.subrange(a as int, b as int),
            t.len() > 0,
            digits.len() > 0,
            digits == (if t[0] == '+' { t.drop_first() } else { t }),
            all_hex_digits(digits),
            acc as int == hex_value(digits.subrange(0, k - start)),
        decreases b - k,
    {
        proof {
            assert(digits[k - start] == s@[k as int]);
            assert(hex_digit_value(digits[k - start]) is Some);
        }
        let d = hex_digit_value_exec(s[k]).unwrap();
        let ghost pre = digits.subrange(0, k - start);
        let ghost nxt = digits.subrange(0, k + 1 - start);
        proof {
            assert(nxt.drop_last() =~= pre);
            assert(nxt.last() == s@[k as int]);
            assert(hex_value(nxt) == hex_value(pre) * 16 + d);
        }
        if acc > (usize::MAX - (d as usize)) / 16 {
            proof {
                assert(hex_value(nxt) > usize::MAX) by (nonlinear_arith)
                    requires
                        hex_value(nxt) == acc * 16 + d,
                        acc > (usize::MAX - d) / 16,
                        0 <= d < 16,
                ;
                lemma_hex_value_mono(digits, k + 1 - start);
                assert(hex_value(digits) > usize::MAX);
            }
            return Err(IntErrorKind::PosOverflow);
        }
        proof {
            assert(acc * 16 + d <= usize::MAX) by (nonlinear_arith)
                requires
                    acc <= (usize::MAX - d) / 16,
                    0 <= d < 16,
            ;
        }
        acc = acc * 16 + (d as usize);
        k = k + 1;
    }
    proof {
        assert(digits.subrange(0, b - start) =~= digits);
    }
    Ok(acc)
}


/// Every byte of `b` is ASCII.
pub open spec fn is_ascii_bytes(b: Seq<u8>) -> bool {
    forall|i: int| 0 <= i < b.len() ==> #[trigger] b[i] < 128
}

/// The characters of ASCII bytes, one for one.
pub open spec fn ascii_chars(b: Seq<u8>) -> Seq<char> {
    Seq::new(b.len(), |i: int| b[i] as char)
}

pub proof fn lemma_encode_ascii(b: Seq<u8>)
    requires
        is_ascii_bytes(b),
    ensures
        encode_utf8(ascii_chars(b)) == b,
    decreases b.len(),
{
    if b.len() > 0 {
        let cs = ascii_chars(b);
        assert(cs.drop_first() =~= ascii_chars(b.drop_first()));
        lemma_encode_ascii(b.drop_first());
        let v = cs[0] as u32;
        assert(v == b[0] as u32);
        assert(((v & 0x7F) as u8) as u32 == v) by (bit_vector)
            requires
                v <= 0x7f,
        ;
        assert(encode_scalar(v) =~= seq![b[0]]);
        assert(b =~= seq![b[0]] + b.drop_first());
    }
}

/// ASCII bytes are valid UTF-8 and decode to the same characters.
pub proof fn lemma_ascii_utf8(b: Seq<u8>)
    requires
        is_ascii_bytes(b),
    ensures
        valid_utf8(b),
        decode_utf8(b) == ascii_chars(b),
{
    lemma_encode_ascii(b);
    encode_utf8_valid_utf8(ascii_chars(b));
    encode_utf8_decode_utf8(ascii_chars(b));
}

/// The lowercase hexadecimal digit for `d` (below 16), as an ASCII byte.
pub open spec fn hex_digit_byte(d: int) -> u8 {
    if d < 10 {
        (48 + d) as u8
    } else {
        (87 + d) as u8
    }
}

/// `n` in lowercase hexadecimal without leading zeros, as `format!("{:x}", n)` writes it.
pub open spec fn hex_bytes(n: nat) -> Seq<u8>
    decreases n,
{
    if n < 16 {
        seq![hex_digit_byte(n as int)]
    } else {
        hex_bytes(n / 16).push(hex_digit_byte((n % 16) as int))
    }
}

/// Writes `n` in lowercase hexadecimal.
pub fn format_hex(n: usize) -> (r: Vec<u8>)
    ensures
        r@ == hex_bytes(n as nat),
    decreases n,
{
    let d = n % 16;
    let b: u8 = if d < 10 {
        48 + d as u8
    } else {
        87 + d as u8
    };
    if n < 16 {
        vec![b]
    } else {
        let mut v = format_hex(n / 16);
        v.push(b);
        v
    }
}

/// What the hexadecimal text of `n` holds: ASCII digits, of which none is
/// white space, a sign or CR, and which read back as `n`.
pub proof fn lemma_hex_bytes(n: nat)
    ensures
        is_ascii_bytes(hex_bytes(n)),
        hex_bytes(n).len() >= 1,
        forall|i: int| 0 <= i < hex_bytes(n).len() ==> #[trigger] hex_bytes(n)[i] != 13u8,
        all_hex_digits(ascii_chars(hex_bytes(n))),
        hex_value(ascii_chars(hex_bytes(n))) == n,
        !is_unicode_space(ascii_chars(hex_bytes(n))[0]),
        !is_unicode_space(ascii_chars(hex_bytes(n)).last()),
        ascii_chars(hex_bytes(n))[0] != '+',
    decreases n,
{
    let h = hex_bytes(n);
    let cs = ascii_chars(h);
    if n < 16 {
        assert(cs.drop_last() =~= Seq::<char>::empty());
        assert(hex_value(cs.drop_last()) == 0);
        assert(hex_digit_value(cs.last()) == Some(n as int));
    } else {
        lemma_hex_bytes(n / 16);
        let p = hex_bytes(n / 16);
        assert(cs.drop_last() =~= ascii_chars(p));
        assert(hex_digit_value(cs.last()) == Some((n % 16) as int));
        assert(hex_value(cs) == hex_value(ascii_chars(p)) * 16 + (n % 16) as int);
        assert((n / 16) * 16 + n % 16 == n) by (nonlinear_arith);
        assert(cs[0] == ascii_chars(p)[0]);
        assert forall|i: int| 0 <= i < cs.len() implies (#[trigger] hex_digit_value(cs[i])) is Some by {
            if i < cs.len() - 1 {
                assert(cs[i] == ascii_chars(p)[i]);
            }
        }
        assert forall|i: int| 0 <= i < h.len() implies #[trigger] h[i] != 13u8 by {
            if i < h.len() - 1 {
                assert(h[i] == p[i]);
            }
        }
    }
}

/// The text of `n` trims to itself and reads back as `n`.
pub proof fn lemma_hex_parse(n: nat)
    requires
        n <= usize::MAX,
    ensures
        valid_utf8(hex_bytes(n)),
        parse_hex_usize(trim_spaces(decode_utf8(hex_bytes(n)))) == Ok::<int, IntErrorKind>(n as int),
{
    lemma_hex_bytes(n);
    lemma_ascii_utf8(hex_bytes(n));
    let cs = ascii_chars(hex_bytes(n));
    assert(lead_space(cs) == 0);
    assert(trail_space(cs) == 0);
    assert(trim_spaces(cs) =~= cs);
}


/// `k` is the first CR LF at or after `i` when there is one at `k` and none before it.
pub proof fn lemma_first_crlf_at(d: Seq<u8>, i: int, k: int)
    requires
        0 <= i <= k,
        is_crlf_at(d, k),
        forall|j: int| i <= j < k ==> !#[trigger] is_crlf_at(d, j),
    ensures
        first_crlf_from(d, i) == Some(k),
    decreases k - i,
{
    if i < k {
        lemma_first_crlf_at(d, i + 1, k);
    }
}

/// Appends the bytes of `src` to `dst`.
pub fn extend_bytes(dst: &mut Vec<u8>, src: &[u8])
    ensures
        final(dst)@ == old(dst)@ + src@,
{
    let ghost start = dst@;
    let mut i: usize = 0;
    while i < src.len()
        invariant
            i <= src@.len(),
            dst@ == start + src@.subrange(0, i as int),
            start == old(dst)@,
        decreases src@.len() - i,
    {
        dst.push(src[i]);
        proof {
            assert(src@.subrange(0, i + 1) =~= src@.subrange(0, i as int).push(src@[i as int]));
        }
        i = i + 1;
    }
    proof {
        assert(src@.subrange(0, src@.len() as int) =~= src@);
    }
}


/// The characters of `s`, in order.
pub fn str_chars(s: &str) -> (r: Vec<char>)
    ensures
        r@ == s@,
{
    let mut v: Vec<char> = Vec::new();
    for c in it: s.chars()
        invariant
            v@ == it.seq().subrange(0, it.index() as int),
            it.seq() == s@,
    {
        proof {
            assert(it.seq().subrange(0, it.index() + 1) =~= v@.push(c));
        }
        v.push(c);
    }
    proof {
        assert(v@ =~= s@);
    }
    v
}


/// `c` with ASCII upper case letters mapped to lower case.
pub open spec fn ascii_lower_char(c: char) -> char {
    if 'A' <= c && c <= 'Z' {
        ((c as u8) + 32) as char
    } else {
        c
    }
}

/// `s` with ASCII upper case letters mapped to lower case.
pub open spec fn ascii_lower(s: Seq<char>) -> Seq<char> {
    Seq::new(s.len(), |i: int| ascii_lower_char(s[i]))
}

/// The digit values of hexadecimal: `0`-`9` are 0 to 9, `a`-`f` and `A`-`F`
/// are 10 to 15, nothing else is a digit; a letter's case does not change
/// its value.
pub proof fn lemma_hex_digit_values(c: char)
    ensures
        '0' <= c <= '9' ==> hex_digit_value(c) == Some(c as int - 48),
        'a' <= c <= 'f' ==> hex_digit_value(c) == Some(c as int - 87),
        'A' <= c <= 'F' ==> hex_digit_value(c) == Some(c as int - 55),
        !('0' <= c <= '9' || 'a' <= c <= 'f' || 'A' <= c <= 'F') ==> hex_digit_value(c) is None,
        hex_digit_value(ascii_lower_char(c)) == hex_digit_value(c),
{
    if 'A' <= c && c <= 'Z' {
        assert((c as u8) as int == c as int);
        assert(ascii_lower_char(c) as int == c as int + 32);
    }
}

proof fn lemma_hex_value_lower(s: Seq<char>)
    ensures
        hex_value(ascii_lower(s)) == hex_value(s),
        all_hex_digits(ascii_lower(s)) == all_hex_digits(s),
    decreases s.len(),
{
    let l = ascii_lower(s);
    assert forall|i: int| 0 <= i < s.len() implies hex_digit_value(#[trigger] l[i]) == hex_digit_value(s[i]) by {
        lemma_hex_digit_values(s[i]);
    }
    if s.len() > 0 {
        assert(l.drop_last() =~= ascii_lower(s.drop_last()));
        lemma_hex_value_lower(s.drop_last());
        assert(l.last() == l[s.len() - 1]);
    }
    if all_hex_digits(s) {
        assert forall|i: int| 0 <= i < l.len() implies (#[trigger] hex_digit_value(l[i])) is Some by {
            assert(hex_digit_value(s[i]) is Some);
        }
    }
    if all_hex_digits(l) {
        assert forall|i: int| 0 <= i < s.len() implies (#[trigger] hex_digit_value(s[i])) is Some by {
            assert(hex_digit_value(l[i]) is Some);
        }
    }
}

/// Reading a hexadecimal number ignores the case of its letters: a text
/// reads as its ASCII lower-case form does, so `A` to `F` count as `a` to
/// `f`.
pub proof fn lemma_parse_hex_case_insensitive(s: Seq<char>)
    ensures
        parse_hex_usize(ascii_lower(s)) == parse_hex_usize(s),
{
    let l = ascii_lower(s);
    if s.len() > 0 {
        assert(l[0] == ascii_lower_char(s[0]));
        if s[0] == '+' {
            assert(l.drop_first() =~= ascii_lower(s.drop_first()));
            lemma_hex_value_lower(s.drop_first());
        } else {
            assert(l[0] != '+') by {
                if 'A' <= s[0] && s[0] <= 'Z' {
                    assert((s[0] as u8) as int == s[0] as int);
                }
            }
            lemma_hex_value_lower(s);
        }
    }
}

pub fn ascii_lower_char_exec(c: char) -> (r: char)
    ensures
        r == ascii_lower_char(c),
{
    if 'A' <= c && c <= 'Z' {
        ((c as u8) + 32) as char
    } else {
        c
    }
}

/// `s` with ASCII letters in lower case (what `str::to_ascii_lowercase` gives).
pub fn ascii_lowercase(s: &str) -> (r: String)
    ensures
        r@ == ascii_lower(s@),
{
    let cs = str_chars(s);
    let mut out: Vec<char> = Vec::new();
    let mut i: usize = 0;
    while i < cs.len()
        invariant
            i <= cs@.len(),
            cs@ == s@,
            out@ == ascii_lower(cs@.subrange(0, i as int)),
        decreases cs@.len() - i,
    {
        out.push(ascii_lower_char_exec(cs[i]));
        proof {
            assert(ascii_lower(cs@.subrange(0, i + 1)) =~= ascii_lower(cs@.subrange(0, i as int)).push(
                ascii_lower_char(cs@[i as int]),
            ));
        }
        i = i + 1;
    }
    proof {
        assert(cs@.subrange(0, cs@.len() as int) =~= cs@);
    }
    chars_string(out.as_slice())
}

/// The decimal digit character for `d` (below 10).
pub open spec fn digit_char(d: int) -> char {
    ((48 + d) as u8) as char
}

/// `n` in decimal without leading zeros, as `format!("{}", n)` writes it.
pub open spec fn dec_chars(n: nat) -> Seq<char>
    decreases n,
{
    if n < 10 {
        seq![digit_char(n as int)]
    } else {
        dec_chars(n / 10).push(digit_char((n % 10) as int))
    }
}

fn dec_digits(n: u64) -> (r: Vec<char>)
    ensures
        r@ == dec_chars(n as nat),
    decreases n,
{
    let c: char = ((48 + n % 10) as u8) as char;
    if n < 10 {
        vec![c]
    } else {
        let mut v = dec_digits(n / 10);
        v.push(c);
        v
    }
}

/// Writes `n` in decimal.
pub fn decimal_string(n: u64) -> (r: String)
    ensures
        r@ == dec_chars(n as nat),
{
    let v = dec_digits(n);
    chars_string(v.as_slice())
}


/// Every character of `s` is ASCII.
pub open spec fn is_ascii_text(s: Seq<char>) -> bool {
    forall|i: int| 0 <= i < s.len() ==> (#[trigger] s[i] as u32) < 128
}

/// `c` with ASCII lower case letters mapped to upper case.
pub open spec fn ascii_upper_char(c: char) -> char {
    if 'a' <= c && c <= 'z' {
        ((c as u8) - 32) as char
    } else {
        c
    }
}

/// `s` with ASCII lower case letters mapped to upper case.
pub open spec fn ascii_upper(s: Seq<char>) -> Seq<char> {
    Seq::new(s.len(), |i: int| ascii_upper_char(s[i]))
}

pub fn ascii_upper_char_exec(c: char) -> (r: char)
    ensures
        r == ascii_upper_char(c),
{
    if 'a' <= c && c <= 'z' {
        ((c as u8) - 32) as char
    } else {
        c
    }
}

/// True when `a` and `b` hold the same characters.
pub fn str_eq(a: &str, b: &str) -> (r: bool)
    ensures
        r == (a@ == b@),
{
    let x = str_chars(a);
    let y = str_chars(b);
    if x.len() != y.len() {
        return false;
    }
    let mut i: usize = 0;
    while i < x.len()
        invariant
            i <= x@.len(),
            x@.len() == y@.len(),
            x@ == a@,
            y@ == b@,
            forall|j: int| 0 <= j < i ==> x@[j] == y@[j],
        decreases x@.len() - i,
    {
        if x[i] != y[i] {
            return false;
        }
        i = i + 1;
    }
    proof {
        assert(x@ =~= y@);
    }
    true
}


/// `needle` occurs in `hay`.
pub open spec fn contains_seq<T>(hay: Seq<T>, needle: Seq<T>) -> bool {
    exists|i: int| 0 <= i && i + needle.len() <= hay.len() && #[trigger] hay.subrange(i, i + needle.len()) == needle
}

/// `hay` starts with `needle`.
pub open spec fn starts_with_seq<T>(hay: Seq<T>, needle: Seq<T>) -> bool {
    needle.len() <= hay.len() && hay.subrange(0, needle.len() as int) == needle
}

/// The byte with ASCII upper case letters mapped to lower case.
pub open spec fn lower_byte(b: u8) -> u8 {
    if 65 <= b <= 90 { (b + 32) as u8 } else { b }
}

/// `needle` occurs in `hay` when ASCII case is ignored.
pub open spec fn contains_seq_nocase(hay: Seq<u8>, needle: Seq<u8>) -> bool {
    exists|i: int| 0 <= i && i + needle.len() <= hay.len() && #[trigger] same_nocase(hay.subrange(i, i + needle.len()), needle)
}

pub open spec fn same_nocase(a: Seq<u8>, b: Seq<u8>) -> bool {
    a.len() == b.len() && forall|j: int| 0 <= j < a.len() ==> lower_byte(#[trigger] a[j]) == lower_byte(b[j])
}

/// True when `needle` occurs in `hay`.
pub fn contains_bytes(hay: &[u8], needle: &[u8]) -> (r: bool)
    ensures
        r == contains_seq(hay@, needle@),
{
    let hl = hay.len();
    let nl = needle.len();
    if nl > hl {
        return false;
    }
    if nl == 0 {
        proof {
            let w: int = 0;
            assert(hay@.subrange(w, w + needle@.len()) =~= needle@);
        }
        return true;
    }
    let mut i: usize = 0;
    while i <= hl - nl
        invariant
            hl == hay@.len(),
            nl == needle@.len(),
            1 <= nl <= hl,
            i <= hl - nl + 1,
            forall|k: int| 0 <= k < i ==> #[trigger] hay@.subrange(k, k + nl) != needle@,
        decreases hl - nl + 1 - i,
    {
        if eq_bytes_at(hay, i, needle) {
            return true;
        }
        i = i + 1;
    }
    false
}

fn eq_bytes_at(hay: &[u8], i: usize, needle: &[u8]) -> (r: bool)
    requires
        i + needle@.len() <= hay@.len(),
    ensures
        r == (hay@.subrange(i as int, i + needle@.len()) == needle@),
{
    let hl = hay.len();
    let mut j: usize = 0;
    while j < needle.len()
        invariant
            hl == hay@.len(),
            j <= needle@.len(),
            i + needle@.len() <= hay@.len(),
            forall|k: int| 0 <= k < j ==> hay@[i + k] == needle@[k],
        decreases needle@.len() - j,
    {
        if hay[i + j] != needle[j] {
            proof {
                assert(hay@.subrange(i as int, i + needle@.len())[j as int] != needle@[j as int]);
            }
            return false;
        }
        j = j + 1;
    }
    proof {
        assert(hay@.subrange(i as int, i + needle@.len()) =~= needle@);
    }
    true
}

/// True when `hay` starts with `needle`.
pub fn starts_with_bytes(hay: &[u8], needle: &[u8]) -> (r: bool)
    ensures
        r == starts_with_seq(hay@, needle@),
{
    if needle.len() > hay.len() {
        return false;
    }
    eq_bytes_at(hay, 0, needle)
}

fn lower_byte_exec(b: u8) -> (r: u8)
    ensures
        r == lower_byte(b),
{
    if 65 <= b && b <= 90 { b + 32 } else { b }
}

fn eq_nocase_at(hay: &[u8], i: usize, needle: &[u8]) -> (r: bool)
    requires
        i + needle@.len() <= hay@.len(),
    ensures
        r == same_nocase(hay@.subrange(i as int, i + needle@.len()), needle@),
{
    let ghost w = hay@.subrange(i as int, i + needle@.len());
    let hl = hay.len();
    let mut j: usize = 0;
    while j < needle.len()
        invariant
            hl == hay@.len(),
            j <= needle@.len(),
            i + needle@.len() <= hay@.len(),
            w == hay@.subrange(i as int, i + needle@.len()),
            forall|k: int| 0 <= k < j ==> lower_byte(#[trigger] w[k]) == lower_byte(needle@[k]),
        decreases needle@.len() - j,
    {
        if lower_byte_exec(hay[i + j]) != lower_byte_exec(needle[j]) {
            proof {
                assert(w[j as int] == hay@[i + j]);
            }
            return false;
        }
        proof {
            assert(w[j as int] == hay@[i + j]);
        }
        j = j + 1;
    }
    true
}

/// True when `needle` occurs in `hay`, ASCII case ignored.
pub fn contains_bytes_nocase(hay: &[u8], needle: &[u8]) -> (r: bool)
    ensures
        r == contains_seq_nocase(hay@, needle@),
{
    let hl = hay.len();
    let nl = needle.len();
    if nl > hl {
        return false;
    }
    if nl == 0 {
        proof {
            let w: int = 0;
            assert(same_nocase(hay@.subrange(w, w + needle@.len()), needle@));
        }
        return true;
    }
    let mut i: usize = 0;
    while i <= hl - nl
        invariant
            hl == hay@.len(),
            nl == needle@.len(),
            1 <= nl <= hl,
            i <= hl - nl + 1,
            forall|k: int| 0 <= k < i ==> !#[trigger] same_nocase(hay@.subrange(k, k + nl), needle@),
        decreases hl - nl + 1 - i,
    {
        if eq_nocase_at(hay, i, needle) {
            return true;
        }
        i = i + 1;
    }
    false
}

/// True when `needle` occurs in `hay`.
pub fn contains_str(hay: &str, needle: &str) -> (r: bool)
    ensures
        r == contains_seq(hay@, needle@),
{
    let h = str_chars(hay);
    let n = str_chars(needle);
    let hl = h.len();
    let nl = n.len();
    if nl > hl {
        return false;
    }
    if nl == 0 {
        proof {
            let w: int = 0;
            assert(hay@.subrange(w, w + needle@.len()) =~= needle@);
        }
        return true;
    }
    let mut i: usize = 0;
    while i <= hl - nl
        invariant
            hl == h@.len(),
            nl == n@.len(),
            h@ == hay@,
            n@ == needle@,
            1 <= nl <= hl,
            i <= hl - nl + 1,
            forall|k: int| 0 <= k < i ==> #[trigger] h@.subrange(k, k + nl) != n@,
        decreases hl - nl + 1 - i,
    {
        let mut j: usize = 0;
        let mut same = true;
        while j < nl
            invariant
                j <= nl,
                hl == h@.len(),
                nl == n@.len(),
                i + nl <= h@.len(),
                same == forall|k: int| 0 <= k < j ==> h@[i + k] == n@[k],
            decreases nl - j,
        {
            if h[i + j] != n[j] {
                same = false;
            }
            j = j + 1;
        }
        if same {
            proof {
                assert(h@.subrange(i as int, i + nl) =~= n@);
            }
            return true;
        }
        proof {
            assert(h@.subrange(i as int, i + nl) != n@) by {
                let k = choose|k: int| 0 <= k < nl && h@[i + k] != n@[k];
                assert(h@.subrange(i as int, i + nl)[k] != n@[k]);
            }
        }
        i = i + 1;
    }
    false
}

} // verus!
