//! What reading an IP address back from its text gives.

use vstd::prelude::*;
use crate::protocol::ip::{
    IpAddr, digit_in, read_digits, read_number, after_sep, read_octets, read_ipv4, read_groups, read_ipv6, ip_parse,
    ipv4_text, ip_text, hex_text, join_hex, zero_spans, ipv6_text,
};
use crate::protocol::parser::{dec_value, is_digit};
use crate::protocol::roundtrip::lemma_dec_chars_read_back;
use crate::protocol::common::is_visible_text;
use crate::text::{dec_chars, digit_char, hex_bytes, hex_value, hex_digit_value, all_hex_digits, ascii_chars, lemma_hex_bytes};

verus! {

/// The value of a run of digits in `radix`, the last one counting least.
pub open spec fn radix_value(s: Seq<char>, radix: int) -> int
    decreases s.len(),
{
    if s.len() == 0 {
        0
    } else {
        radix_value(s.drop_last(), radix) * radix + digit_in(s.last(), radix).unwrap_or(0)
    }
}

/// The characters of `s` from `i` on for `m` are digits in `radix`, and the
/// one after them (if any) is not.
pub open spec fn digit_run(s: Seq<char>, i: int, m: int, radix: int) -> bool {
    &&& 0 <= i
    &&& 0 <= m
    &&& i + m <= s.len()
    &&& forall|j: int| i <= j < i + m ==> (#[trigger] digit_in(s[j], radix)) is Some
    &&& (i + m == s.len() || digit_in(s[i + m], radix) is None)
}

proof fn lemma_digits_value_mono(s: Seq<char>, radix: int, k: int)
    requires
        radix == 10 || radix == 16,
        0 <= k <= s.len(),
        forall|j: int| 0 <= j < s.len() ==> (#[trigger] digit_in(s[j], radix)) is Some,
    ensures
        0 <= radix_value(s.subrange(0, k), radix) <= radix_value(s, radix),
    decreases s.len() - k,
{
    lemma_digit_in_range(radix);
    if k < s.len() {
        lemma_digits_value_mono(s, radix, k + 1);
        let p = s.subrange(0, k + 1);
        assert(p.drop_last() =~= s.subrange(0, k));
        assert(digit_in(p.last(), radix) is Some);
    } else {
        assert(s.subrange(0, k) =~= s);
        lemma_digits_value_nonneg(s, radix);
    }
}

proof fn lemma_digit_in_range(radix: int)
    requires
        radix == 10 || radix == 16,
    ensures
        forall|c: char| (#[trigger] digit_in(c, radix)) matches Some(d) ==> 0 <= d < radix,
{
}

proof fn lemma_digits_value_nonneg(s: Seq<char>, radix: int)
    requires
        radix == 10 || radix == 16,
    ensures
        radix_value(s, radix) >= 0,
    decreases s.len(),
{
    lemma_digit_in_range(radix);
    if s.len() > 0 {
        lemma_digits_value_nonneg(s.drop_last(), radix);
    }
}

proof fn lemma_read_run_prefix(s: Seq<char>, i: int, m: int, radix: int, max: int, limit: int, k: int)
    requires
        radix == 10 || radix == 16,
        digit_run(s, i, m, radix),
        0 <= k <= m,
        m <= max,
        radix_value(s.subrange(i, i + m), radix) <= limit,
    ensures
        read_digits(s, i, radix, max, limit, 0, 0) == read_digits(
            s,
            i + k,
            radix,
            max,
            limit,
            k,
            radix_value(s.subrange(i, i + k), radix),
        ),
    decreases k,
{
    if k > 0 {
        lemma_read_run_prefix(s, i, m, radix, max, limit, k - 1);
        let full = s.subrange(i, i + m);
        let p = s.subrange(i, i + k);
        assert(p.drop_last() =~= s.subrange(i, i + k - 1));
        assert(p.last() == s[i + k - 1]);
        assert(digit_in(s[i + k - 1], radix) is Some);
        assert forall|j: int| 0 <= j < full.len() implies (#[trigger] digit_in(full[j], radix)) is Some by {
            assert(full[j] == s[i + j]);
        }
        lemma_digits_value_mono(full, radix, k);
        assert(full.subrange(0, k) =~= p);
    } else {
        assert(s.subrange(i, i) =~= Seq::<char>::empty());
    }
}

/// A run of digits reads as its value, up to where it ends.
proof fn lemma_read_run(s: Seq<char>, i: int, m: int, radix: int, max: int, limit: int)
    requires
        radix == 10 || radix == 16,
        digit_run(s, i, m, radix),
        m <= max,
        radix_value(s.subrange(i, i + m), radix) <= limit,
    ensures
        read_digits(s, i, radix, max, limit, 0, 0) == Some((radix_value(s.subrange(i, i + m), radix), i + m, m)),
{
    lemma_read_run_prefix(s, i, m, radix, max, limit, m);
}

proof fn lemma_dec_digits_value(s: Seq<char>)
    requires
        forall|j: int| 0 <= j < s.len() ==> #[trigger] is_digit(s[j]),
    ensures
        radix_value(s, 10) == dec_value(s),
        forall|j: int| 0 <= j < s.len() ==> (#[trigger] digit_in(s[j], 10)) is Some,
    decreases s.len(),
{
    if s.len() > 0 {
        lemma_dec_digits_value(s.drop_last());
        assert(is_digit(s[s.len() - 1]));
    }
    assert forall|j: int| 0 <= j < s.len() implies (#[trigger] digit_in(s[j], 10)) is Some by {
        assert(is_digit(s[j]));
    }
}

proof fn lemma_dec_chars_shape(n: nat)
    ensures
        n < 10 ==> dec_chars(n).len() == 1,
        10 <= n < 100 ==> dec_chars(n).len() == 2,
        100 <= n < 1000 ==> dec_chars(n).len() == 3,
        n >= 10 ==> dec_chars(n)[0] != '0',
    decreases n,
{
    if n >= 10 {
        lemma_dec_chars_shape(n / 10);
        assert(dec_chars(n)[0] == dec_chars(n / 10)[0]);
        if n / 10 < 10 {
            let d = (n / 10) as int;
            let u = (48 + d) as u8;
            assert(u as int == 48 + d);
            assert((u as char) as int == u as int);
            assert(dec_chars(n / 10)[0] == digit_char(d));
        }
    }
}

/// An octet's decimal text, followed by anything but a digit, reads back as
/// the octet.
proof fn lemma_read_octet_text(s: Seq<char>, i: int, a: u8)
    requires
        0 <= i,
        i + dec_chars(a as nat).len() <= s.len(),
        s.subrange(i, i + dec_chars(a as nat).len()) == dec_chars(a as nat),
        i + dec_chars(a as nat).len() == s.len() || !is_digit(s[i + dec_chars(a as nat).len()]),
    ensures
        read_number(s, i, 10, 3, 255, false) == Some((a as int, i + dec_chars(a as nat).len())),
{
    let t = dec_chars(a as nat);
    let m = t.len() as int;
    lemma_dec_chars_read_back(a as nat);
    lemma_dec_chars_shape(a as nat);
    lemma_dec_digits_value(t);
    assert forall|j: int| i <= j < i + m implies (#[trigger] digit_in(s[j], 10)) is Some by {
        assert(s[j] == t[j - i]);
        assert(is_digit(t[j - i]));
    }
    lemma_read_run(s, i, m, 10, 3, 255);
    if m > 1 {
        assert(s[i] == t[0]);
    }
}

/// The dotted text of an IPv4 address at `i`, followed by anything but a
/// digit, reads as its four octets.
proof fn lemma_read_ipv4_text(s: Seq<char>, i: int, a: u8, b: u8, c: u8, d: u8)
    requires
        0 <= i,
        i + ipv4_text(a as int, b as int, c as int, d as int).len() <= s.len(),
        s.subrange(i, i + ipv4_text(a as int, b as int, c as int, d as int).len()) == ipv4_text(
            a as int,
            b as int,
            c as int,
            d as int,
        ),
        i + ipv4_text(a as int, b as int, c as int, d as int).len() == s.len() || !is_digit(
            s[i + ipv4_text(a as int, b as int, c as int, d as int).len()],
        ),
    ensures
        read_ipv4(s, i) == Some((seq![a as u32, b as u32, c as u32, d as u32], i + ipv4_text(a as int, b as int, c as int, d as int).len())),
{
    reveal_strlit(".");
    let ta = dec_chars(a as nat);
    let tb = dec_chars(b as nat);
    let tc = dec_chars(c as nat);
    let td = dec_chars(d as nat);
    let t = ipv4_text(a as int, b as int, c as int, d as int);
    let dot = seq!['.'];
    assert(t =~= ta + dot + tb + dot + tc + dot + td);
    let pa: int = i;
    let pb: int = i + ta.len() as int + 1;
    let pc: int = pb + tb.len() + 1;
    let pd: int = pc + tc.len() + 1;
    let end: int = pd + td.len();
    assert(end == i + t.len());
    assert forall|j: int| 0 <= j < t.len() implies s[i + j] == #[trigger] t[j] by {
        assert(s.subrange(i, i + t.len())[j] == t[j]);
    }
    assert(s.subrange(pa, pa + ta.len() as int) =~= ta) by {
        assert forall|j: int| 0 <= j < ta.len() implies s.subrange(pa, pa + ta.len() as int)[j] == ta[j] by {
            assert(t[j] == ta[j]);
        }
    }
    assert(s.subrange(pb, pb + tb.len() as int) =~= tb) by {
        assert forall|j: int| 0 <= j < tb.len() implies s.subrange(pb, pb + tb.len() as int)[j] == tb[j] by {
            assert(t[pb - i + j] == tb[j]);
        }
    }
    assert(s.subrange(pc, pc + tc.len() as int) =~= tc) by {
        assert forall|j: int| 0 <= j < tc.len() implies s.subrange(pc, pc + tc.len() as int)[j] == tc[j] by {
            assert(t[pc - i + j] == tc[j]);
        }
    }
    assert(s.subrange(pd, pd + td.len() as int) =~= td) by {
        assert forall|j: int| 0 <= j < td.len() implies s.subrange(pd, pd + td.len() as int)[j] == td[j] by {
            assert(t[pd - i + j] == td[j]);
        }
    }
    assert(t[pb - 1 - i] == '.' && t[pc - 1 - i] == '.' && t[pd - 1 - i] == '.');
    assert(s[pb - 1] == '.' && s[pc - 1] == '.' && s[pd - 1] == '.');
    lemma_read_octet_text(s, pa, a);
    lemma_read_octet_text(s, pb, b);
    lemma_read_octet_text(s, pc, c);
    lemma_read_octet_text(s, pd, d);
    let o = seq![a as u32, b as u32, c as u32, d as u32];
    assert(read_octets(s, end, 4) == Some((Seq::<u32>::empty(), end)));
    assert(read_octets(s, pd - 1, 3) == Some((seq![d as u32], end))) by {
        assert(seq![d as u32] + Seq::<u32>::empty() =~= seq![d as u32]);
    }
    assert(read_octets(s, pc - 1, 2) == Some((seq![c as u32, d as u32], end))) by {
        assert(seq![c as u32] + seq![d as u32] =~= seq![c as u32, d as u32]);
    }
    assert(read_octets(s, pb - 1, 1) == Some((seq![b as u32, c as u32, d as u32], end))) by {
        assert(seq![b as u32] + seq![c as u32, d as u32] =~= seq![b as u32, c as u32, d as u32]);
    }
    assert(read_octets(s, i, 0) == Some((o, end))) by {
        assert(seq![a as u32] + seq![b as u32, c as u32, d as u32] =~= o);
    }
}

/// The dotted text of an IPv4 address reads back as the address.
pub proof fn lemma_ipv4_read_back(a: u8, b: u8, c: u8, d: u8)
    ensures
        ip_parse(ipv4_text(a as int, b as int, c as int, d as int)) == Some(IpAddr::V4(a, b, c, d)),
{
    let t = ipv4_text(a as int, b as int, c as int, d as int);
    assert(t.subrange(0, t.len() as int) =~= t);
    lemma_read_ipv4_text(t, 0, a, b, c, d);
}

/// What `read_digits` gives ends where the run of digits ends.
proof fn lemma_read_digits_end(s: Seq<char>, i: int, radix: int, max: int, limit: int, count: int, acc: int)
    requires
        0 <= i <= s.len(),
    ensures
        read_digits(s, i, radix, max, limit, count, acc) matches Some((v, e, n)) ==> i <= e <= s.len() && (forall|
            j: int,
        | i <= j < e ==> (#[trigger] digit_in(s[j], radix)) is Some) && (e == s.len() || digit_in(s[e], radix) is None),
    decreases s.len() - i,
{
    if i < s.len() && digit_in(s[i], radix) is Some {
        let v = acc * radix + digit_in(s[i], radix)->Some_0;
        if !(v > limit || count + 1 > max) {
            lemma_read_digits_end(s, i + 1, radix, max, limit, count + 1, v);
        }
    }
}

proof fn lemma_hex_len(n: nat)
    ensures
        n < 16 ==> hex_bytes(n).len() == 1,
        n < 256 ==> hex_bytes(n).len() <= 2,
        n < 4096 ==> hex_bytes(n).len() <= 3,
        n < 65536 ==> hex_bytes(n).len() <= 4,
    decreases n,
{
    if n >= 16 {
        lemma_hex_len(n / 16);
    }
}

proof fn lemma_hex_digits_value(t: Seq<char>)
    ensures
        radix_value(t, 16) == hex_value(t),
    decreases t.len(),
{
    if t.len() > 0 {
        lemma_hex_digits_value(t.drop_last());
    }
}

/// The text of a group: one to four hexadecimal digits whose value is the
/// group.
proof fn lemma_hex_text(x: u16)
    ensures
        1 <= hex_text(x).len() <= 4,
        forall|j: int| 0 <= j < hex_text(x).len() ==> (#[trigger] hex_digit_value(hex_text(x)[j])) is Some,
        radix_value(hex_text(x), 16) == x,
{
    lemma_hex_bytes(x as nat);
    lemma_hex_len(x as nat);
    lemma_hex_digits_value(hex_text(x));
    assert forall|j: int| 0 <= j < hex_text(x).len() implies (#[trigger] hex_digit_value(hex_text(x)[j])) is Some by {
        assert(all_hex_digits(ascii_chars(hex_bytes(x as nat))));
    }
}

/// A group's text at `q`, followed by `:` or the end, reads as the group,
/// and not as an IPv4 address.
proof fn lemma_group_at(s: Seq<char>, q: int, x: u16)
    requires
        0 <= q,
        q + hex_text(x).len() <= s.len(),
        s.subrange(q, q + hex_text(x).len()) == hex_text(x),
        q + hex_text(x).len() == s.len() || s[q + hex_text(x).len()] == ':',
    ensures
        read_number(s, q, 16, 4, 65535, true) == Some((x as int, q + hex_text(x).len())),
        read_ipv4(s, q) is None,
{
    let t = hex_text(x);
    let m = t.len() as int;
    lemma_hex_text(x);
    assert forall|j: int| q <= j < q + m implies (#[trigger] digit_in(s[j], 16)) is Some by {
        assert(s[j] == t[j - q]);
        assert(hex_digit_value(t[j - q]) is Some);
    }
    assert(s.subrange(q, q + m) == t);
    lemma_read_run(s, q, m, 16, 4, 65535);
    lemma_read_digits_end(s, q, 10, 3, 255, 0, 0);
    match read_digits(s, q, 10, 3, 255, 0, 0) {
        Some((v, e, n)) => {
            if e > q + m {
                assert(digit_in(s[q + m], 10) is Some);
            }
            if e < s.len() {
                if e < q + m {
                    assert(s[e] == t[e - q]);
                    assert(hex_digit_value(t[e - q]) is Some);
                }
                assert(s[e] != '.');
            }
            assert(after_sep(s, e, 1, '.') is None);
            assert(read_octets(s, e, 1) is None);
        },
        None => {},
    }
    assert(read_octets(s, q, 0) is None);
}

/// Groups written with `:` before each.
pub open spec fn colon_groups(h: Seq<u16>) -> Seq<char>
    decreases h.len(),
{
    if h.len() == 0 {
        Seq::empty()
    } else {
        colon_groups(h.drop_last()) + seq![':'] + hex_text(h.last())
    }
}

proof fn lemma_join_hex_split(h: Seq<u16>)
    requires
        h.len() >= 1,
    ensures
        join_hex(h) == hex_text(h[0]) + colon_groups(h.subrange(1, h.len() as int)),
    decreases h.len(),
{
    reveal_strlit(":");
    if h.len() == 1 {
        assert(h.subrange(1, 1) =~= Seq::<u16>::empty());
        assert(hex_text(h[0]) + Seq::<char>::empty() =~= hex_text(h[0]));
    } else {
        lemma_join_hex_split(h.drop_last());
        let u = h.subrange(1, h.len() as int);
        assert(u.drop_last() =~= h.drop_last().subrange(1, h.len() - 1));
        assert(u.last() == h.last());
        assert(h.drop_last()[0] == h[0]);
        assert(":"@ =~= seq![':']);
    }
}

proof fn lemma_colon_groups_front(h: Seq<u16>)
    requires
        h.len() >= 1,
    ensures
        colon_groups(h) == seq![':'] + hex_text(h[0]) + colon_groups(h.drop_first()),
    decreases h.len(),
{
    if h.len() == 1 {
        assert(h.drop_first() =~= Seq::<u16>::empty());
        assert(h.drop_last() =~= Seq::<u16>::empty());
    } else {
        lemma_colon_groups_front(h.drop_last());
        assert(h.drop_first().drop_last() =~= h.drop_last().drop_first());
        assert(h.drop_first().last() == h.last());
        assert(h.drop_last()[0] == h[0]);
    }
}

/// The groups as the parser gives them.
pub open spec fn groups32(h: Seq<u16>) -> Seq<u32> {
    h.map_values(|x: u16| x as u32)
}

/// Where reading groups stops after text that ends at `e`, at slot `k`.
pub open spec fn groups_stop(s: Seq<char>, e: int, k: int, limit: int) -> bool {
    ||| e == s.len()
    ||| (0 <= e < s.len() && s[e] == ':' && (k == limit || (e + 1 < s.len() && s[e + 1] == ':')))
}

proof fn lemma_colon_groups_read(s: Seq<char>, i: int, k: int, limit: int, h: Seq<u16>)
    requires
        1 <= k,
        k + h.len() <= limit,
        0 <= i,
        i + colon_groups(h).len() <= s.len(),
        s.subrange(i, i + colon_groups(h).len()) == colon_groups(h),
        groups_stop(s, i + colon_groups(h).len(), k + h.len(), limit),
    ensures
        read_groups(s, i, k, limit) == (groups32(h), i + colon_groups(h).len(), false),
    decreases h.len(),
{
    let c = colon_groups(h);
    let e = i + c.len();
    if h.len() == 0 {
        assert(groups32(h) =~= Seq::<u32>::empty());
        if k < limit && e < s.len() {
            let p = e + 1;
            assert(s[p] == ':');
            lemma_read_digits_end(s, p, 10, 3, 255, 0, 0);
            lemma_read_digits_end(s, p, 16, 4, 65535, 0, 0);
            assert(read_digits(s, p, 10, 3, 255, 0, 0) == Some((0int, p, 0int)));
            assert(read_digits(s, p, 16, 4, 65535, 0, 0) == Some((0int, p, 0int)));
        }
    } else {
        lemma_colon_groups_front(h);
        let x = h[0];
        let t = hex_text(x);
        let rest = h.drop_first();
        let rc = colon_groups(rest);
        assert(c == seq![':'] + t + rc);
        let q = i + 1;
        let f = q + t.len();
        assert(s[i] == c[0]);
        assert(s.subrange(q, q + t.len() as int) =~= t) by {
            assert forall|j: int| 0 <= j < t.len() implies s.subrange(q, q + t.len() as int)[j] == t[j] by {
                assert(s.subrange(i, e)[1 + j] == c[1 + j]);
            }
        }
        assert(s.subrange(f, f + rc.len() as int) =~= rc) by {
            assert forall|j: int| 0 <= j < rc.len() implies s.subrange(f, f + rc.len() as int)[j] == rc[j] by {
                assert(s.subrange(i, e)[1 + t.len() + j] == c[1 + t.len() + j]);
            }
        }
        if rest.len() > 0 {
            lemma_colon_groups_front(rest);
            assert(s[f] == rc[0]);
        }
        lemma_group_at(s, q, x);
        lemma_colon_groups_read(s, f, k + 1, limit, rest);
        assert(groups32(h) =~= seq![x as u32] + groups32(rest));
    }
}

/// The text of groups, joined with `:`, reads back as the groups from slot 0.
proof fn lemma_join_hex_read(s: Seq<char>, i: int, limit: int, h: Seq<u16>)
    requires
        1 <= h.len() <= limit,
        0 <= i,
        i + join_hex(h).len() <= s.len(),
        s.subrange(i, i + join_hex(h).len()) == join_hex(h),
        groups_stop(s, i + join_hex(h).len(), h.len() as int, limit),
    ensures
        read_groups(s, i, 0, limit) == (groups32(h), i + join_hex(h).len(), false),
        read_ipv4(s, i) is None,
{
    lemma_join_hex_split(h);
    let x = h[0];
    let t = hex_text(x);
    let rest = h.subrange(1, h.len() as int);
    let rc = colon_groups(rest);
    let j = join_hex(h);
    assert(j == t + rc);
    let f = i + t.len();
    assert(s.subrange(i, f) =~= t) by {
        assert forall|a: int| 0 <= a < t.len() implies s.subrange(i, f)[a] == t[a] by {
            assert(s.subrange(i, i + j.len())[a] == j[a]);
        }
    }
    assert(s.subrange(f, f + rc.len() as int) =~= rc) by {
        assert forall|a: int| 0 <= a < rc.len() implies s.subrange(f, f + rc.len() as int)[a] == rc[a] by {
            assert(s.subrange(i, i + j.len())[t.len() + a] == j[t.len() + a]);
        }
    }
    if rest.len() > 0 {
        lemma_colon_groups_front(rest);
        assert(s[f] == rc[0]);
    }
    lemma_group_at(s, i, x);
    lemma_colon_groups_read(s, f, 1, limit, rest);
    assert(groups32(h) =~= seq![x as u32] + groups32(rest));
}

proof fn lemma_zero_spans(s: Seq<u16>, k: int)
    requires
        0 <= k <= s.len(),
    ensures
        ({
            let (bs, bl, cs, cl) = zero_spans(s, k);
            &&& 0 <= bs && 0 <= bl && bs + bl <= k
            &&& forall|j: int| bs <= j < bs + bl ==> s[j] == 0
            &&& 0 <= cl
            &&& cl > 0 ==> 0 <= cs && cs + cl == k && forall|j: int| cs <= j < k ==> s[j] == 0
        }),
    decreases k,
{
    if k > 0 {
        lemma_zero_spans(s, k - 1);
    }
}

/// Reading at `p`, where nothing that can start a number stands, gives no
/// groups.
proof fn lemma_no_group_at(s: Seq<char>, p: int, limit: int)
    requires
        0 <= p <= s.len(),
        p == s.len() || s[p] == ':',
        limit >= 1,
    ensures
        read_groups(s, p, 0, limit) == (Seq::<u32>::empty(), p, false),
        read_ipv4(s, p) is None,
{
    assert(read_digits(s, p, 10, 3, 255, 0, 0) == Some((0int, p, 0int)));
    assert(read_digits(s, p, 16, 4, 65535, 0, 0) == Some((0int, p, 0int)));
    assert(read_octets(s, p, 0) is None);
}

/// The groups of a mapped IPv4 address.
pub open spec fn is_mapped(g: Seq<u16>) -> bool {
    g[0] == 0 && g[1] == 0 && g[2] == 0 && g[3] == 0 && g[4] == 0 && g[5] == 0xffff
}

proof fn lemma_ipv6_mapped_read(g: Seq<u16>)
    requires
        g.len() == 8,
        is_mapped(g),
    ensures
        read_ipv4(ipv6_text(g), 0) is None,
        read_ipv6(ipv6_text(g), 0) == Some((groups32(g), ipv6_text(g).len() as int)),
{
    reveal_strlit("::ffff:");
    let s = ipv6_text(g);
    let a = (g[6] / 256) as u8;
    let b = (g[6] % 256) as u8;
    let c = (g[7] / 256) as u8;
    let d = (g[7] % 256) as u8;
    let v4 = ipv4_text(a as int, b as int, c as int, d as int);
    assert(s =~= seq![':', ':', 'f', 'f', 'f', 'f', ':'] + v4);
    lemma_no_group_at(s, 0, 8);
    assert(s.subrange(7, 7 + v4.len() as int) =~= v4);
    lemma_read_ipv4_text(s, 7, a, b, c, d);
    let ffff = seq!['f', 'f', 'f', 'f'];
    assert(s.subrange(2, 6) =~= ffff);
    assert(radix_value(ffff, 16) == 65535) by {
        reveal_with_fuel(radix_value, 5);
        assert(ffff.drop_last() =~= seq!['f', 'f', 'f']);
        assert(ffff.drop_last().drop_last() =~= seq!['f', 'f']);
        assert(ffff.drop_last().drop_last().drop_last() =~= seq!['f']);
        assert(ffff.drop_last().drop_last().drop_last().drop_last() =~= Seq::<char>::empty());
    }
    lemma_read_run(s, 2, 4, 16, 4, 65535);
    assert(read_digits(s, 2, 10, 3, 255, 0, 0) == Some((0int, 2int, 0int)));
    assert(read_ipv4(s, 2) is None);
    let o = seq![a as u32, b as u32, c as u32, d as u32];
    assert(a as int * 256 + b as int == g[6]);
    assert(c as int * 256 + d as int == g[7]);
    assert(read_groups(s, 6, 1, 7) == (seq![g[6] as u32, g[7] as u32], s.len() as int, true));
    assert(read_groups(s, 2, 0, 7).0 =~= seq![65535u32, g[6] as u32, g[7] as u32]);
    assert(Seq::<u32>::empty() + Seq::new(5, |j: int| 0u32) + seq![65535u32, g[6] as u32, g[7] as u32] =~= groups32(g));
}

proof fn lemma_ipv6_compressed_read(g: Seq<u16>)
    requires
        g.len() == 8,
        !is_mapped(g),
        zero_spans(g, 8).1 > 1,
    ensures
        read_ipv4(ipv6_text(g), 0) is None,
        read_ipv6(ipv6_text(g), 0) == Some((groups32(g), ipv6_text(g).len() as int)),
{
    reveal_strlit("::");
    let s = ipv6_text(g);
    let (st, ln, cs, cl) = zero_spans(g, 8);
    lemma_zero_spans(g, 8);
    let head = g.subrange(0, st);
    let tail = g.subrange(st + ln, 8);
    let hj = join_hex(head);
    let tj = join_hex(tail);
    let cc = seq![':', ':'];
    assert(s =~= hj + cc + tj);
    let p = hj.len() as int;
    assert(s[p] == ':' && s[p + 1] == ':');
    assert(s.subrange(0, p) =~= hj);
    if head.len() > 0 {
        lemma_join_hex_read(s, 0, 8, head);
    } else {
        lemma_no_group_at(s, 0, 8);
    }
    let limit = 8 - (head.len() + 1);
    assert(s.subrange(p + 2, p + 2 + tj.len() as int) =~= tj);
    if tail.len() > 0 {
        lemma_join_hex_read(s, p + 2, limit, tail);
    } else {
        lemma_no_group_at(s, p + 2, limit);
    }
    let mid = Seq::new((8 - head.len() - tail.len()) as nat, |j: int| 0u32);
    assert(groups32(head) + mid + groups32(tail) =~= groups32(g));
}

proof fn lemma_ipv6_plain_read(g: Seq<u16>)
    requires
        g.len() == 8,
        !is_mapped(g),
        zero_spans(g, 8).1 <= 1,
    ensures
        read_ipv4(ipv6_text(g), 0) is None,
        read_ipv6(ipv6_text(g), 0) == Some((groups32(g), ipv6_text(g).len() as int)),
{
    let s = ipv6_text(g);
    assert(s == join_hex(g));
    assert(s.subrange(0, s.len() as int) =~= s);
    lemma_join_hex_read(s, 0, 8, g);
}

/// The text of an IPv6 address reads back as the address.
pub proof fn lemma_ipv6_read_back(g: Seq<u16>)
    requires
        g.len() == 8,
    ensures
        ip_parse(ipv6_text(g)) == Some(IpAddr::V6(g[0], g[1], g[2], g[3], g[4], g[5], g[6], g[7])),
{
    if is_mapped(g) {
        lemma_ipv6_mapped_read(g);
    } else if zero_spans(g, 8).1 > 1 {
        lemma_ipv6_compressed_read(g);
    } else {
        lemma_ipv6_plain_read(g);
    }
    let h = groups32(g);
    assert(h[0] as u16 == g[0] && h[1] as u16 == g[1] && h[2] as u16 == g[2] && h[3] as u16 == g[3]);
    assert(h[4] as u16 == g[4] && h[5] as u16 == g[5] && h[6] as u16 == g[6] && h[7] as u16 == g[7]);
}

/// The text of an IP address reads back as the address.
pub proof fn lemma_ip_read_back(a: IpAddr)
    ensures
        ip_parse(ip_text(a)) == Some(a),
{
    match a {
        IpAddr::V4(x, y, z, w) => lemma_ipv4_read_back(x, y, z, w),
        IpAddr::V6(g0, g1, g2, g3, g4, g5, g6, g7) => lemma_ipv6_read_back(seq![g0, g1, g2, g3, g4, g5, g6, g7]),
    }
}

proof fn lemma_dec_visible(n: nat)
    ensures
        is_visible_text(dec_chars(n)),
{
    lemma_dec_chars_read_back(n);
    assert forall|i: int| 0 <= i < dec_chars(n).len() implies #[trigger] dec_chars(n)[i] == '\t' || (' ' <= dec_chars(n)[i]
        && dec_chars(n)[i] <= '~') by {
        assert(is_digit(dec_chars(n)[i]));
    }
}

proof fn lemma_ipv4_visible(a: int, b: int, c: int, d: int)
    requires
        0 <= a && 0 <= b && 0 <= c && 0 <= d,
    ensures
        is_visible_text(ipv4_text(a, b, c, d)),
{
    reveal_strlit(".");
    lemma_dec_visible(a as nat);
    lemma_dec_visible(b as nat);
    lemma_dec_visible(c as nat);
    lemma_dec_visible(d as nat);
    let dot = "."@;
    assert(is_visible_text(dot));
    lemma_visible_concat(dec_chars(a as nat), dot);
    lemma_visible_concat(dec_chars(a as nat) + dot, dec_chars(b as nat));
    lemma_visible_concat(dec_chars(a as nat) + dot + dec_chars(b as nat), dot);
    lemma_visible_concat(dec_chars(a as nat) + dot + dec_chars(b as nat) + dot, dec_chars(c as nat));
    lemma_visible_concat(dec_chars(a as nat) + dot + dec_chars(b as nat) + dot + dec_chars(c as nat), dot);
    lemma_visible_concat(dec_chars(a as nat) + dot + dec_chars(b as nat) + dot + dec_chars(c as nat) + dot, dec_chars(d as nat));
}

proof fn lemma_visible_concat(a: Seq<char>, b: Seq<char>)
    requires
        is_visible_text(a),
        is_visible_text(b),
    ensures
        is_visible_text(a + b),
{
    assert forall|i: int| 0 <= i < (a + b).len() implies #[trigger] (a + b)[i] == '\t' || (' ' <= (a + b)[i] && (a
        + b)[i] <= '~') by {
        if i < a.len() {
            assert((a + b)[i] == a[i]);
        } else {
            assert((a + b)[i] == b[i - a.len()]);
        }
    }
}

proof fn lemma_hex_visible(x: u16)
    ensures
        is_visible_text(hex_text(x)),
{
    lemma_hex_text(x);
    let t = hex_text(x);
    assert forall|i: int| 0 <= i < t.len() implies #[trigger] t[i] == '\t' || (' ' <= t[i] && t[i] <= '~') by {
        assert(hex_digit_value(t[i]) is Some);
    }
}

proof fn lemma_join_hex_visible(h: Seq<u16>)
    ensures
        is_visible_text(join_hex(h)),
    decreases h.len(),
{
    reveal_strlit(":");
    if h.len() == 1 {
        lemma_hex_visible(h[0]);
    } else if h.len() > 1 {
        lemma_join_hex_visible(h.drop_last());
        lemma_hex_visible(h.last());
        assert(is_visible_text(":"@));
        lemma_visible_concat(join_hex(h.drop_last()), ":"@);
        lemma_visible_concat(join_hex(h.drop_last()) + ":"@, hex_text(h.last()));
    }
}

/// The text of an IP address is visible text.
pub proof fn lemma_ip_text_visible(a: IpAddr)
    ensures
        is_visible_text(ip_text(a)),
{
    reveal_strlit("::");
    reveal_strlit("::ffff:");
    match a {
        IpAddr::V4(x, y, z, w) => lemma_ipv4_visible(x as int, y as int, z as int, w as int),
        IpAddr::V6(g0, g1, g2, g3, g4, g5, g6, g7) => {
            let g = seq![g0, g1, g2, g3, g4, g5, g6, g7];
            if is_mapped(g) {
                lemma_ipv4_visible((g[6] / 256) as int, (g[6] % 256) as int, (g[7] / 256) as int, (g[7] % 256) as int);
                assert(is_visible_text("::ffff:"@));
                lemma_visible_concat("::ffff:"@, ipv4_text((g[6] / 256) as int, (g[6] % 256) as int, (g[7] / 256) as int, (g[7] % 256) as int));
            } else {
                let (st, ln, cs, cl) = zero_spans(g, 8);
                lemma_zero_spans(g, 8);
                lemma_join_hex_visible(g);
                lemma_join_hex_visible(g.subrange(0, st));
                lemma_join_hex_visible(g.subrange(st + ln, 8));
                assert(is_visible_text("::"@));
                lemma_visible_concat(join_hex(g.subrange(0, st)), "::"@);
                lemma_visible_concat(join_hex(g.subrange(0, st)) + "::"@, join_hex(g.subrange(st + ln, 8)));
            }
        },
    }
}

} // verus!
