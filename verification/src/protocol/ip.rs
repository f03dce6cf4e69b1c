//! IP addresses as ICAP header fields carry them, with the grammar and the
//! text form of Rust's `IpAddr`.

use vstd::prelude::*;
use crate::text::{hex_digit_value, hex_digit_value_exec, hex_bytes, format_hex, ascii_chars, dec_chars, decimal_string, str_chars};
use crate::bridge::chars_string;

verus! {

/// An IPv4 or IPv6 address.
#[derive(PartialEq, Eq, Structural, Clone, Copy, Debug)]
pub enum IpAddr {
    V4(u8, u8, u8, u8),
    V6(u16, u16, u16, u16, u16, u16, u16, u16),
}

/// The value of a digit in base 10 or 16.
pub open spec fn digit_in(c: char, radix: int) -> Option<int> {
    if radix == 10 {
        if '0' <= c && c <= '9' { Some(c as int - '0' as int) } else { None }
    } else {
        hex_digit_value(c)
    }
}

/// Reads digits from `i` on: their value, where they end and how many there
/// were; none when the value passes `limit` or there are more than `max`.
pub open spec fn read_digits(s: Seq<char>, i: int, radix: int, max: int, limit: int, count: int, acc: int) -> Option<(int, int, int)>
    decreases s.len() - i,
{
    if 0 <= i < s.len() && digit_in(s[i], radix) is Some {
        let v = acc * radix + digit_in(s[i], radix)->Some_0;
        if v > limit || count + 1 > max {
            None
        } else {
            read_digits(s, i + 1, radix, max, limit, count + 1, v)
        }
    } else {
        Some((acc, i, count))
    }
}

/// A number at `i`: one to `max` digits, at most `limit`, without a leading
/// zero unless `zero_ok`; gives the value and where it ends.
pub open spec fn read_number(s: Seq<char>, i: int, radix: int, max: int, limit: int, zero_ok: bool) -> Option<(int, int)> {
    let lead_zero = 0 <= i < s.len() && s[i] == '0';
    match read_digits(s, i, radix, max, limit, 0, 0) {
        None => None,
        Some((v, j, n)) => if n == 0 || (!zero_ok && lead_zero && n > 1) {
            None
        } else {
            Some((v, j))
        },
    }
}

/// The part number `k` of a dotted or colon-separated address at `i`: a
/// separator first unless `k` is 0.
pub open spec fn after_sep(s: Seq<char>, i: int, k: int, sep: char) -> Option<int> {
    if k == 0 {
        Some(i)
    } else if 0 <= i < s.len() && s[i] == sep {
        Some(i + 1)
    } else {
        None
    }
}

/// Octets `k..4` of a dotted IPv4 address at `i`.
pub open spec fn read_octets(s: Seq<char>, i: int, k: int) -> Option<(Seq<u32>, int)>
    decreases 4 - k,
{
    if k >= 4 {
        Some((Seq::empty(), i))
    } else {
        match after_sep(s, i, k, '.') {
            None => None,
            Some(p) => match read_number(s, p, 10, 3, 255, false) {
                None => None,
                Some((v, e)) => match read_octets(s, e, k + 1) {
                    None => None,
                    Some((rest, f)) => Some((seq![v as u32] + rest, f)),
                },
            },
        }
    }
}

/// A dotted IPv4 address at `i`: its four octets and where it ends.
pub open spec fn read_ipv4(s: Seq<char>, i: int) -> Option<(Seq<u32>, int)> {
    read_octets(s, i, 0)
}

/// IPv6 groups from slot `k` of `limit` on, at `i`: a slot before the last
/// may hold an embedded IPv4 address, which ends the groups; gives the
/// groups, where they end and whether an IPv4 address ended them.
pub open spec fn read_groups(s: Seq<char>, i: int, k: int, limit: int) -> (Seq<u32>, int, bool)
    decreases limit - k,
{
    if k >= limit {
        (Seq::empty(), i, false)
    } else {
        let v4 = if k < limit - 1 {
            match after_sep(s, i, k, ':') {
                Some(p) => read_ipv4(s, p),
                None => None,
            }
        } else {
            None
        };
        match v4 {
            Some((o, e)) => (seq![(o[0] * 256 + o[1]) as u32, (o[2] * 256 + o[3]) as u32], e, true),
            None => match after_sep(s, i, k, ':') {
                None => (Seq::empty(), i, false),
                Some(p) => match read_number(s, p, 16, 4, 65535, true) {
                    None => (Seq::empty(), i, false),
                    Some((g, e)) => {
                        let (rest, f, b) = read_groups(s, e, k + 1, limit);
                        (seq![g as u32] + rest, f, b)
                    },
                },
            },
        }
    }
}

/// An IPv6 address at `i`: up to eight groups, with one `::` standing for
/// at least one group of zeros; gives its eight groups and where it ends.
pub open spec fn read_ipv6(s: Seq<char>, i: int) -> Option<(Seq<u32>, int)> {
    let (head, p, h4) = read_groups(s, i, 0, 8);
    if head.len() == 8 {
        Some((head, p))
    } else if h4 {
        None
    } else if !(0 <= p && p + 1 < s.len() && s[p] == ':' && s[p + 1] == ':') {
        None
    } else {
        let (tail, q, t4) = read_groups(s, p + 2, 0, 8 - (head.len() + 1));
        Some((head + Seq::new((8 - head.len() - tail.len()) as nat, |j: int| 0u32) + tail, q))
    }
}

/// The address that the whole text `s` spells, as `IpAddr::from_str` reads it.
pub open spec fn ip_parse(s: Seq<char>) -> Option<IpAddr> {
    match read_ipv4(s, 0) {
        Some((o, e)) => if e == s.len() {
            Some(IpAddr::V4(o[0] as u8, o[1] as u8, o[2] as u8, o[3] as u8))
        } else {
            None
        },
        None => match read_ipv6(s, 0) {
            Some((g, e)) => if e == s.len() {
                Some(IpAddr::V6(g[0] as u16, g[1] as u16, g[2] as u16, g[3] as u16, g[4] as u16, g[5] as u16, g[6] as u16, g[7] as u16))
            } else {
                None
            },
            None => None,
        },
    }
}


fn digit_in_exec(c: char, radix: u32) -> (r: Option<u32>)
    requires
        radix == 10 || radix == 16,
    ensures
        match digit_in(c, radix as int) {
            Some(d) => r == Some(d as u32) && 0 <= d < radix,
            None => r is None,
        },
{
    if radix == 10 {
        if '0' <= c && c <= '9' {
            Some((c as u32) - ('0' as u32))
        } else {
            None
        }
    } else {
        match hex_digit_value_exec(c) {
            Some(v) => Some(v as u32),
            None => None,
        }
    }
}

fn read_digits_exec(s: &[char], i: usize, radix: u32, max: usize, limit: u32, count: usize, acc: u32) -> (r: Option<(u32, usize, usize)>)
    requires
        i <= s@.len(),
        radix == 10 || radix == 16,
        acc <= limit <= 65535,
        count <= max <= 4,
    ensures
        match r {
            Some((v, j, n)) => read_digits(s@, i as int, radix as int, max as int, limit as int, count as int, acc as int)
                == Some((v as int, j as int, n as int)) && i <= j <= s@.len() && v <= limit && n <= max,
            None => read_digits(s@, i as int, radix as int, max as int, limit as int, count as int, acc as int) is None,
        },
    decreases s@.len() - i,
{
    if i < s.len() {
        match digit_in_exec(s[i], radix) {
            Some(d) => {
                if d > limit {
                    return None;
                }
                let q = (limit - d) / radix;
                if acc > q {
                    proof {
                        assert(acc * radix + d > limit) by (nonlinear_arith)
                            requires acc > q, q == (limit - d) / (radix as int), radix > 0, d <= limit, 0 <= d;
                    }
                    return None;
                }
                proof {
                    assert(acc * radix + d <= limit) by (nonlinear_arith)
                        requires acc <= q, q == (limit - d) / (radix as int), radix > 0, d <= limit, 0 <= d;
                }
                if count + 1 > max {
                    return None;
                }
                read_digits_exec(s, i + 1, radix, max, limit, count + 1, acc * radix + d)
            },
            None => Some((acc, i, count)),
        }
    } else {
        Some((acc, i, count))
    }
}

fn read_number_exec(s: &[char], i: usize, radix: u32, max: usize, limit: u32, zero_ok: bool) -> (r: Option<(u32, usize)>)
    requires
        i <= s@.len(),
        radix == 10 || radix == 16,
        limit <= 65535,
        max <= 4,
    ensures
        match r {
            Some((v, j)) => read_number(s@, i as int, radix as int, max as int, limit as int, zero_ok) == Some(
                (v as int, j as int),
            ) && i <= j <= s@.len() && v <= limit,
            None => read_number(s@, i as int, radix as int, max as int, limit as int, zero_ok) is None,
        },
{
    let lead_zero = i < s.len() && s[i] == '0';
    match read_digits_exec(s, i, radix, max, limit, 0, 0) {
        None => None,
        Some((v, j, n)) => {
            if n == 0 || (!zero_ok && lead_zero && n > 1) {
                None
            } else {
                Some((v, j))
            }
        },
    }
}

fn after_sep_exec(s: &[char], i: usize, k: usize, sep: char) -> (r: Option<usize>)
    requires
        i <= s@.len(),
    ensures
        match r {
            Some(p) => after_sep(s@, i as int, k as int, sep) == Some(p as int) && i <= p <= s@.len(),
            None => after_sep(s@, i as int, k as int, sep) is None,
        },
{
    if k == 0 {
        Some(i)
    } else if i < s.len() && s[i] == sep {
        Some(i + 1)
    } else {
        None
    }
}

fn read_octets_exec(s: &[char], i: usize, k: usize) -> (r: Option<(Vec<u32>, usize)>)
    requires
        i <= s@.len(),
        k <= 4,
    ensures
        match r {
            Some((v, e)) => read_octets(s@, i as int, k as int) == Some((v@, e as int)) && i <= e <= s@.len()
                && v@.len() == 4 - k && forall|j: int| 0 <= j < v@.len() ==> #[trigger] v@[j] <= 255,
            None => read_octets(s@, i as int, k as int) is None,
        },
    decreases 4 - k,
{
    if k >= 4 {
        return Some((Vec::new(), i));
    }
    let p = match after_sep_exec(s, i, k, '.') {
        None => {
            return None;
        },
        Some(p) => p,
    };
    let (v, e) = match read_number_exec(s, p, 10, 3, 255, false) {
        None => {
            return None;
        },
        Some(x) => x,
    };
    match read_octets_exec(s, e, k + 1) {
        None => None,
        Some((rest, f)) => {
            let mut out: Vec<u32> = Vec::new();
            out.push(v);
            let mut rest = rest;
            out.append(&mut rest);
            Some((out, f))
        },
    }
}

fn read_groups_exec(s: &[char], i: usize, k: usize, limit: usize) -> (r: (Vec<u32>, usize, bool))
    requires
        i <= s@.len(),
        k <= limit <= 8,
    ensures
        ({
            let (g, e, b) = read_groups(s@, i as int, k as int, limit as int);
            &&& r.0@ == g
            &&& r.1 == e
            &&& r.2 == b
            &&& i <= e <= s@.len()
            &&& g.len() <= limit - k
        }),
    decreases limit - k,
{
    if k >= limit {
        return (Vec::new(), i, false);
    }
    if k < limit - 1 {
        if let Some(p) = after_sep_exec(s, i, k, ':') {
            if let Some((o, e)) = read_octets_exec(s, p, 0) {
                let hi = o[0] * 256 + o[1];
                let lo = o[2] * 256 + o[3];
                let mut out: Vec<u32> = Vec::new();
                out.push(hi);
                out.push(lo);
                proof {
                    assert(out@ =~= seq![(o@[0] * 256 + o@[1]) as u32, (o@[2] * 256 + o@[3]) as u32]);
                }
                return (out, e, true);
            }
        }
    }
    let p = match after_sep_exec(s, i, k, ':') {
        None => {
            return (Vec::new(), i, false);
        },
        Some(p) => p,
    };
    let (g, e) = match read_number_exec(s, p, 16, 4, 65535, true) {
        None => {
            return (Vec::new(), i, false);
        },
        Some(x) => x,
    };
    let (rest, f, b) = read_groups_exec(s, e, k + 1, limit);
    let mut out: Vec<u32> = Vec::new();
    out.push(g);
    let mut rest = rest;
    out.append(&mut rest);
    (out, f, b)
}

fn read_ipv6_exec(s: &[char]) -> (r: Option<(Vec<u32>, usize)>)
    ensures
        match r {
            Some((v, e)) => read_ipv6(s@, 0) == Some((v@, e as int)) && v@.len() == 8,
            None => read_ipv6(s@, 0) is None,
        },
{
    let len = s.len();
    let (head, p, h4) = read_groups_exec(s, 0, 0, 8);
    if head.len() == 8 {
        return Some((head, p));
    }
    if h4 {
        return None;
    }
    if !(p < len && len - p > 1 && s[p] == ':' && s[p + 1] == ':') {
        return None;
    }
    let lim = 8 - (head.len() + 1);
    let (tail, q, _) = read_groups_exec(s, p + 2, 0, lim);
    let gap = 8 - head.len() - tail.len();
    let mut out = head;
    let ghost h = out@;
    let mut j: usize = 0;
    while j < gap
        invariant
            j <= gap,
            out@ == h + Seq::new(j as nat, |x: int| 0u32),
        decreases gap - j,
    {
        out.push(0);
        proof {
            assert(out@ =~= h + Seq::new((j + 1) as nat, |x: int| 0u32));
        }
        j = j + 1;
    }
    let mut tail = tail;
    out.append(&mut tail);
    Some((out, q))
}

/// Reads the whole text as an IP address, as `IpAddr::from_str` does.
pub fn parse_ip(text: &str) -> (r: Option<IpAddr>)
    ensures
        r == ip_parse(text@),
{
    let cs = str_chars(text);
    let s = cs.as_slice();
    let len = s.len();
    match read_octets_exec(s, 0, 0) {
        Some((o, e)) => {
            proof {
            }
            if e == len {
                Some(IpAddr::V4(o[0] as u8, o[1] as u8, o[2] as u8, o[3] as u8))
            } else {
                None
            }
        },
        None => match read_ipv6_exec(s) {
            Some((g, e)) => {
                if e == len {
                    Some(IpAddr::V6(g[0] as u16, g[1] as u16, g[2] as u16, g[3] as u16, g[4] as u16, g[5] as u16, g[6] as u16, g[7] as u16))
                } else {
                    None
                }
            },
            None => None,
        },
    }
}


/// A dotted IPv4 address.
pub open spec fn ipv4_text(a: int, b: int, c: int, d: int) -> Seq<char> {
    dec_chars(a as nat) + "."@ + dec_chars(b as nat) + "."@ + dec_chars(c as nat) + "."@ + dec_chars(d as nat)
}

/// A group in lowercase hexadecimal.
pub open spec fn hex_text(g: u16) -> Seq<char> {
    ascii_chars(hex_bytes(g as nat))
}

/// Groups in hexadecimal, joined with `:`.
pub open spec fn join_hex(s: Seq<u16>) -> Seq<char>
    decreases s.len(),
{
    if s.len() == 0 {
        Seq::empty()
    } else if s.len() == 1 {
        hex_text(s[0])
    } else {
        join_hex(s.drop_last()) + ":"@ + hex_text(s.last())
    }
}

/// The first longest run of zero groups among the first `k`: its start and
/// length, and the start and length of the run that ends at `k`.
pub open spec fn zero_spans(s: Seq<u16>, k: int) -> (int, int, int, int)
    decreases k,
{
    if k <= 0 {
        (0, 0, 0, 0)
    } else {
        let (bs, bl, cs, cl) = zero_spans(s, k - 1);
        if s[k - 1] == 0 {
            let cs2 = if cl == 0 { k - 1 } else { cs };
            let cl2 = cl + 1;
            if cl2 > bl { (cs2, cl2, cs2, cl2) } else { (bs, bl, cs2, cl2) }
        } else {
            (bs, bl, 0, 0)
        }
    }
}

/// An IPv6 address as RFC 5952 writes it (and `Display` does): the IPv4
/// form after `::ffff:` for a mapped address, else the groups with the
/// first longest run of two or more zero groups written as `::`.
pub open spec fn ipv6_text(g: Seq<u16>) -> Seq<char> {
    if g[0] == 0 && g[1] == 0 && g[2] == 0 && g[3] == 0 && g[4] == 0 && g[5] == 0xffff {
        "::ffff:"@ + ipv4_text((g[6] / 256) as int, (g[6] % 256) as int, (g[7] / 256) as int, (g[7] % 256) as int)
    } else {
        let (st, ln, cs, cl) = zero_spans(g, 8);
        if ln > 1 {
            join_hex(g.subrange(0, st)) + "::"@ + join_hex(g.subrange(st + ln, 8))
        } else {
            join_hex(g)
        }
    }
}

pub open spec fn ip_text(a: IpAddr) -> Seq<char> {
    match a {
        IpAddr::V4(x, y, z, w) => ipv4_text(x as int, y as int, z as int, w as int),
        IpAddr::V6(g0, g1, g2, g3, g4, g5, g6, g7) => ipv6_text(seq![g0, g1, g2, g3, g4, g5, g6, g7]),
    }
}

fn hex_string(g: u16) -> (r: String)
    ensures
        r@ == hex_text(g),
{
    let b = format_hex(g as usize);
    let mut cs: Vec<char> = Vec::new();
    let mut i: usize = 0;
    while i < b.len()
        invariant
            i <= b@.len(),
            b@ == hex_bytes(g as nat),
            cs@ == ascii_chars(b@).subrange(0, i as int),
        decreases b@.len() - i,
    {
        cs.push(b[i] as char);
        proof {
            assert(ascii_chars(b@).subrange(0, i + 1) =~= ascii_chars(b@).subrange(0, i as int).push(b@[i as int] as char));
        }
        i = i + 1;
    }
    proof {
        assert(ascii_chars(b@).subrange(0, b@.len() as int) =~= ascii_chars(b@));
    }
    chars_string(cs.as_slice())
}

fn join_hex_exec(s: &[u16]) -> (r: String)
    ensures
        r@ == join_hex(s@),
{
    let mut out = String::new();
    let mut i: usize = 0;
    while i < s.len()
        invariant
            i <= s@.len(),
            out@ == join_hex(s@.subrange(0, i as int)),
        decreases s@.len() - i,
    {
        if i > 0 {
            out.append(":");
        }
        let h = hex_string(s[i]);
        out.append(h.as_str());
        proof {
            let t = s@.subrange(0, i + 1);
            assert(t.drop_last() =~= s@.subrange(0, i as int));
            if i == 0 {
                assert(out@ =~= hex_text(t[0]));
            }
        }
        i = i + 1;
    }
    proof {
        assert(s@.subrange(0, s@.len() as int) =~= s@);
    }
    out
}

fn ipv4_string(a: u8, b: u8, c: u8, d: u8) -> (r: String)
    ensures
        r@ == ipv4_text(a as int, b as int, c as int, d as int),
{
    let mut s = decimal_string(a as u64);
    s.append(".");
    s.append(decimal_string(b as u64).as_str());
    s.append(".");
    s.append(decimal_string(c as u64).as_str());
    s.append(".");
    s.append(decimal_string(d as u64).as_str());
    s
}

impl IpAddr {
    /// The address as text, as `Display` writes it.
    pub fn to_string(&self) -> (r: String)
        ensures
            r@ == ip_text(*self),
    {
        match *self {
            IpAddr::V4(a, b, c, d) => ipv4_string(a, b, c, d),
            IpAddr::V6(g0, g1, g2, g3, g4, g5, g6, g7) => {
                let g = [g0, g1, g2, g3, g4, g5, g6, g7];
                proof {
                    assert(g@ =~= seq![g0, g1, g2, g3, g4, g5, g6, g7]);
                }
                if g0 == 0 && g1 == 0 && g2 == 0 && g3 == 0 && g4 == 0 && g5 == 0xffff {
                    let mut s = String::from_str("::ffff:");
                    let v4 = ipv4_string((g6 / 256) as u8, (g6 % 256) as u8, (g7 / 256) as u8, (g7 % 256) as u8);
                    s.append(v4.as_str());
                    return s;
                }
                let mut bs: usize = 0;
                let mut bl: usize = 0;
                let mut cs: usize = 0;
                let mut cl: usize = 0;
                let mut k: usize = 0;
                while k < 8
                    invariant
                        k <= 8,
                        g@ == seq![g0, g1, g2, g3, g4, g5, g6, g7],
                        zero_spans(g@, k as int) == (bs as int, bl as int, cs as int, cl as int),
                        bs + bl <= k,
                        cs + cl <= k,
                    decreases 8 - k,
                {
                    if g[k] == 0 {
                        if cl == 0 {
                            cs = k;
                        }
                        cl = cl + 1;
                        if cl > bl {
                            bs = cs;
                            bl = cl;
                        }
                    } else {
                        cs = 0;
                        cl = 0;
                    }
                    k = k + 1;
                }
                if bl > 1 {
                    let mut s = join_hex_exec(&g[0..bs]);
                    s.append("::");
                    let t = join_hex_exec(&g[bs + bl..8]);
                    s.append(t.as_str());
                    s
                } else {
                    join_hex_exec(&g)
                }
            },
        }
    }
}

} // verus!
