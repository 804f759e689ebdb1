//! IP and socket addresses as plain values, with their text forms.
use vstd::prelude::*;

use crate::text::{
    all_digits, decimal, decimal_chars, digits_value, extend_chars, extend_str, find_exec,
    find_from, split, split_chars, string_of, sub_chars,
};

verus! {

/// An IPv4 address (four octets) or an IPv6 address (eight segments).
#[derive(Clone, Copy, Debug, PartialEq, Eq, Structural)]
pub enum IpAddress {
    V4(u8, u8, u8, u8),
    V6(u16, u16, u16, u16, u16, u16, u16, u16),
}

/// An IP address with a port.
#[derive(Clone, Copy, Debug, PartialEq, Eq, Structural)]
pub struct SocketAddress {
    pub ip: IpAddress,
    pub port: u16,
}

// ---------------------------------------------------------------------------
// IPv4
// ---------------------------------------------------------------------------
/// A dotted-quad component: one to three digits, no leading zero except for
/// `0` itself, at most 255.
pub open spec fn spec_octet(p: Seq<char>) -> Option<u8> {
    if 1 <= p.len() <= 3 && all_digits(p) && !(p.len() > 1 && p[0] == '0') && digits_value(p)
        <= 255 {
        Some(digits_value(p) as u8)
    } else {
        None
    }
}

/// The IPv4 address written `a.b.c.d`.
pub open spec fn spec_parse_v4(s: Seq<char>) -> Option<IpAddress> {
    let parts = split(s, '.');
    if parts.len() == 4 && spec_octet(parts[0]) is Some && spec_octet(parts[1]) is Some
        && spec_octet(parts[2]) is Some && spec_octet(parts[3]) is Some {
        Some(
            IpAddress::V4(
                spec_octet(parts[0])->0,
                spec_octet(parts[1])->0,
                spec_octet(parts[2])->0,
                spec_octet(parts[3])->0,
            ),
        )
    } else {
        None
    }
}

fn octet(p: &[char]) -> (r: Option<u8>)
    ensures
        r == spec_octet(p@),
{
    if p.len() < 1 || p.len() > 3 || (p.len() > 1 && p[0] == '0') {
        return None;
    }
    match crate::text::parse_unsigned_chars(p, 255) {
        Some(v) => {
            proof {
                if p@.len() > 0 && p@[0] == '+' {
                    // a leading `+` is not a digit
                }
            }
            if p[0] == '+' {
                return None;
            }
            Some(v as u8)
        },
        None => {
            if p[0] == '+' {
                assert(!all_digits(p@)) by {
                    assert(!crate::text::is_digit(p@[0]));
                }
            }
            None
        },
    }
}

fn parse_v4_chars(s: &[char]) -> (r: Option<IpAddress>)
    ensures
        r == spec_parse_v4(s@),
{
    let parts = split_chars(s, '.');
    if parts.len() != 4 {
        return None;
    }
    let a = octet(parts[0].as_slice());
    let b = octet(parts[1].as_slice());
    let c = octet(parts[2].as_slice());
    let d = octet(parts[3].as_slice());
    match (a, b, c, d) {
        (Some(a), Some(b), Some(c), Some(d)) => Some(IpAddress::V4(a, b, c, d)),
        _ => None,
    }
}

// ---------------------------------------------------------------------------
// IPv6
// ---------------------------------------------------------------------------
/// Whether `c` is a hexadecimal digit.
pub open spec fn is_hex(c: char) -> bool {
    ('0' <= c && c <= '9') || ('a' <= c && c <= 'f') || ('A' <= c && c <= 'F')
}

/// The value of a hexadecimal digit.
pub open spec fn hex_value(c: char) -> nat {
    if '0' <= c && c <= '9' {
        (c as int - '0' as int) as nat
    } else if 'a' <= c && c <= 'f' {
        (c as int - 'a' as int + 10) as nat
    } else {
        (c as int - 'A' as int + 10) as nat
    }
}

/// The number a sequence of hexadecimal digits denotes.
pub open spec fn hex_digits_value(s: Seq<char>) -> nat
    decreases s.len(),
{
    if s.len() == 0 {
        0
    } else {
        hex_digits_value(s.drop_last()) * 16 + hex_value(s.last())
    }
}

/// An IPv6 group: one to four hexadecimal digits.
pub open spec fn spec_group(p: Seq<char>) -> Option<u16> {
    if 1 <= p.len() <= 4 && (forall|i: int| 0 <= i < p.len() ==> is_hex(#[trigger] p[i])) {
        Some(hex_digits_value(p) as u16)
    } else {
        None
    }
}

/// The groups of a `:`-separated run (empty text has none).
pub open spec fn spec_groups(s: Seq<char>) -> Option<Seq<u16>> {
    if s.len() == 0 {
        Some(Seq::empty())
    } else {
        let parts = split(s, ':');
        if forall|i: int| 0 <= i < parts.len() ==> spec_group(#[trigger] parts[i]) is Some {
            Some(parts.map_values(|p: Seq<char>| spec_group(p)->0))
        } else {
            None
        }
    }
}

/// Eight segments as an address.
pub open spec fn v6_of(g: Seq<u16>) -> IpAddress
    recommends
        g.len() == 8,
{
    IpAddress::V6(g[0], g[1], g[2], g[3], g[4], g[5], g[6], g[7])
}

/// An IPv6 address in hexadecimal groups: eight groups, or fewer with a
/// single `::` standing for the zero groups left out.
pub open spec fn spec_parse_v6(s: Seq<char>) -> Option<IpAddress> {
    match find_from(s, "::"@, 0) {
        None => match spec_groups(s) {
            Some(g) => if g.len() == 8 {
                Some(v6_of(g))
            } else {
                None
            },
            None => None,
        },
        Some(i) => match (spec_groups(s.take(i)), spec_groups(s.skip(i + 2))) {
            (Some(l), Some(r)) => if l.len() <= 7 && r.len() <= 7 - l.len() {
                Some(v6_of(l + Seq::new((8 - l.len() - r.len()) as nat, |k: int| 0u16) + r))
            } else {
                None
            },
            _ => None,
        },
    }
}

/// The address an IP text denotes: dotted-quad IPv4 or hexadecimal IPv6.
pub open spec fn spec_parse_ip(s: Seq<char>) -> Option<IpAddress> {
    match spec_parse_v4(s) {
        Some(a) => Some(a),
        None => spec_parse_v6(s),
    }
}

fn hex_val(c: char) -> (r: Option<u64>)
    ensures
        is_hex(c) ==> r == Some(hex_value(c) as u64),
        !is_hex(c) ==> r is None,
{
    if '0' <= c && c <= '9' {
        Some((c as u32 - '0' as u32) as u64)
    } else if 'a' <= c && c <= 'f' {
        Some((c as u32 - 'a' as u32 + 10) as u64)
    } else if 'A' <= c && c <= 'F' {
        Some((c as u32 - 'A' as u32 + 10) as u64)
    } else {
        None
    }
}

proof fn lemma_hex_bound(s: Seq<char>)
    requires
        forall|i: int| 0 <= i < s.len() ==> is_hex(#[trigger] s[i]),
    ensures
        hex_digits_value(s) < pow16(s.len()),
    decreases s.len(),
{
    if s.len() > 0 {
        lemma_hex_bound(s.drop_last());
        assert(is_hex(s[s.len() - 1]));
        assert(hex_digits_value(s.drop_last()) * 16 + hex_value(s.last()) < pow16(s.len()))
            by (nonlinear_arith)
            requires
                hex_digits_value(s.drop_last()) < pow16((s.len() - 1) as nat),
                hex_value(s.last()) < 16,
                pow16(s.len()) == pow16((s.len() - 1) as nat) * 16,
        ;
    }
}

/// Sixteen to the given power.
pub open spec fn pow16(n: nat) -> nat
    decreases n,
{
    if n == 0 {
        1
    } else {
        pow16((n - 1) as nat) * 16
    }
}

fn group(p: &[char]) -> (r: Option<u16>)
    ensures
        r == spec_group(p@),
{
    if p.len() < 1 || p.len() > 4 {
        return None;
    }
    let mut v: u64 = 0;
    let mut i: usize = 0;
    while i < p.len()
        invariant
            i <= p.len() <= 4,
            forall|k: int| 0 <= k < i ==> is_hex(#[trigger] p@[k]),
            v == hex_digits_value(p@.take(i as int)),
            v < pow16(i as nat),
        decreases p.len() - i,
    {
        match hex_val(p[i]) {
            Some(d) => {
                assert(p@.take(i + 1).drop_last() =~= p@.take(i as int));
                proof {
                    assert(pow16(i as nat) <= 4096) by {
                        assert(pow16(0) == 1);
                        assert(pow16(1) == 16);
                        assert(pow16(2) == 256);
                        assert(pow16(3) == 4096);
                    }
                    assert(v * 16 + d < pow16((i + 1) as nat)) by (nonlinear_arith)
                        requires
                            v < pow16(i as nat),
                            d < 16,
                            pow16((i + 1) as nat) == pow16(i as nat) * 16,
                    ;
                }
                v = v * 16 + d;
            },
            None => {
                assert(!is_hex(p@[i as int]));
                return None;
            },
        }
        i += 1;
    }
    assert(p@.take(p.len() as int) =~= p@);
    assert(pow16(4) == 65536) by {
        assert(pow16(1) == 16);
        assert(pow16(2) == 256);
        assert(pow16(3) == 4096);
    }
    assert(pow16(p@.len()) <= 65536) by {
        assert(pow16(1) == 16);
        assert(pow16(2) == 256);
        assert(pow16(3) == 4096);
    }
    Some(v as u16)
}

fn groups(s: &[char]) -> (r: Option<Vec<u16>>)
    ensures
        match spec_groups(s@) {
            Some(g) => r matches Some(v) && v@ == g,
            None => r is None,
        },
{
    if s.len() == 0 {
        return Some(Vec::new());
    }
    let parts = split_chars(s, ':');
    let ghost ps = split(s@, ':');
    let mut out: Vec<u16> = Vec::new();
    let mut i: usize = 0;
    while i < parts.len()
        invariant
            i <= parts.len(),
            ps == split(s@, ':'),
            s@.len() > 0,
            parts@.len() == ps.len(),
            forall|k: int| 0 <= k < parts@.len() ==> #[trigger] parts@[k]@ == ps[k],
            out@.len() == i,
            forall|k: int| 0 <= k < i ==> spec_group(#[trigger] ps[k]) == Some(out@[k]),
        decreases parts.len() - i,
    {
        match group(parts[i].as_slice()) {
            Some(g) => out.push(g),
            None => {
                assert(spec_group(ps[i as int]) is None);
                return None;
            },
        }
        i += 1;
    }
    assert(out@ =~= ps.map_values(|p: Seq<char>| spec_group(p)->0));
    Some(out)
}

fn parse_v6_chars(s: &[char]) -> (r: Option<IpAddress>)
    ensures
        r == spec_parse_v6(s@),
{
    let dc = crate::text::chars_of("::");
    let found = find_exec(s, dc.as_slice(), 0);
    match found {
        None => match groups(s) {
            Some(g) => {
                if g.len() == 8 {
                    Some(IpAddress::V6(g[0], g[1], g[2], g[3], g[4], g[5], g[6], g[7]))
                } else {
                    None
                }
            },
            None => None,
        },
        Some(i) => {
            let n = s.len();
            let w = dc.len();
            assert(i + w <= n);
            proof {
                reveal_strlit("::");
                crate::text::lemma_find_from_bounds(s@, "::"@, 0);
            }
            let left = sub_chars(s, 0, i);
            let right = sub_chars(s, i + w, n);
            assert(dc@.len() == 2);
            assert(left@ =~= s@.take(i as int));
            assert(right@ =~= s@.skip(i + 2));
            match (groups(left.as_slice()), groups(right.as_slice())) {
                (Some(l), Some(r)) => {
                    if l.len() <= 7 && r.len() <= 7 - l.len() {
                        let mut all: Vec<u16> = Vec::new();
                        let mut k: usize = 0;
                        while k < l.len()
                            invariant
                                k <= l.len(),
                                all@ == l@.take(k as int),
                            decreases l.len() - k,
                        {
                            all.push(l[k]);
                            assert(l@.take(k + 1) =~= l@.take(k as int).push(l@[k as int]));
                            k += 1;
                        }
                        let zeros = 8 - l.len() - r.len();
                        let mut z: usize = 0;
                        while z < zeros
                            invariant
                                z <= zeros,
                                zeros == 8 - l.len() - r.len(),
                                all@ == l@ + Seq::new(z as nat, |q: int| 0u16),
                            decreases zeros - z,
                        {
                            all.push(0);
                            assert(l@ + Seq::new((z + 1) as nat, |q: int| 0u16) =~= (l@ + Seq::new(
                                z as nat,
                                |q: int| 0u16,
                            )).push(0));
                            z += 1;
                        }
                        let ghost mid = all@;
                        let mut k: usize = 0;
                        while k < r.len()
                            invariant
                                k <= r.len(),
                                all@ == mid + r@.take(k as int),
                            decreases r.len() - k,
                        {
                            all.push(r[k]);
                            assert(mid + r@.take(k + 1) =~= (mid + r@.take(k as int)).push(
                                r@[k as int],
                            ));
                            k += 1;
                        }
                        assert(r@.take(r.len() as int) =~= r@);
                        assert(l@.take(l.len() as int) =~= l@);
                        Some(
                            IpAddress::V6(
                                all[0],
                                all[1],
                                all[2],
                                all[3],
                                all[4],
                                all[5],
                                all[6],
                                all[7],
                            ),
                        )
                    } else {
                        None
                    }
                },
                _ => None,
            }
        },
    }
}

/// Parses an IPv4 or IPv6 address.
pub fn parse_ip_chars(s: &[char]) -> (r: Option<IpAddress>)
    ensures
        r == spec_parse_ip(s@),
{
    match parse_v4_chars(s) {
        Some(a) => Some(a),
        None => parse_v6_chars(s),
    }
}

/// Parses an IPv4 or IPv6 address.
pub fn parse_ip(s: &str) -> (r: Option<IpAddress>)
    ensures
        r == spec_parse_ip(s@),
{
    let c = crate::text::chars_of(s);
    parse_ip_chars(c.as_slice())
}

// ---------------------------------------------------------------------------
// Socket addresses
// ---------------------------------------------------------------------------
/// A port: one or more decimal digits, at most 65535.
pub open spec fn spec_port(p: Seq<char>) -> Option<u16> {
    if p.len() > 0 && all_digits(p) && digits_value(p) <= 65535 {
        Some(digits_value(p) as u16)
    } else {
        None
    }
}

/// The last index of `c` in `s`.
pub open spec fn last_index(s: Seq<char>, c: char) -> Option<int>
    decreases s.len(),
{
    if s.len() == 0 {
        None
    } else if s.last() == c {
        Some(s.len() - 1)
    } else {
        last_index(s.drop_last(), c)
    }
}

/// `a.b.c.d:port` or `[v6]:port`.
pub open spec fn spec_parse_socket(s: Seq<char>) -> Option<SocketAddress> {
    match last_index(s, ':') {
        None => None,
        Some(i) => {
            let host = s.take(i);
            match spec_port(s.skip(i + 1)) {
                None => None,
                Some(port) => if host.len() >= 2 && host[0] == '[' && host.last() == ']' {
                    match spec_parse_v6(host.subrange(1, host.len() - 1)) {
                        Some(ip) => Some(SocketAddress { ip, port }),
                        None => None,
                    }
                } else {
                    match spec_parse_v4(host) {
                        Some(ip) => Some(SocketAddress { ip, port }),
                        None => None,
                    }
                },
            }
        },
    }
}

fn last_index_exec(s: &[char], c: char) -> (r: Option<usize>)
    ensures
        match last_index(s@, c) {
            Some(i) => r == Some(i as usize) && 0 <= i < s@.len(),
            None => r is None,
        },
{
    let mut i: usize = s.len();
    assert(s@.take(i as int) =~= s@);
    while i > 0
        invariant
            i <= s.len(),
            last_index(s@, c) == last_index(s@.take(i as int), c),
        decreases i,
    {
        assert(s@.take(i as int).drop_last() =~= s@.take(i - 1));
        if s[i - 1] == c {
            return Some(i - 1);
        }
        i -= 1;
    }
    None
}

fn port(p: &[char]) -> (r: Option<u16>)
    ensures
        r == spec_port(p@),
{
    if p.len() == 0 || p[0] == '+' {
        if p.len() > 0 {
            assert(!crate::text::is_digit(p@[0]));
        }
        return None;
    }
    match crate::text::parse_unsigned_chars(p, 65535) {
        Some(v) => Some(v as u16),
        None => None,
    }
}

/// Parses `a.b.c.d:port` or `[v6]:port`.
pub fn parse_socket(s: &str) -> (r: Option<SocketAddress>)
    ensures
        r == spec_parse_socket(s@),
{
    let s = crate::text::chars_of(s);
    let s = s.as_slice();
    match last_index_exec(s, ':') {
        None => None,
        Some(i) => {
            let host = sub_chars(s, 0, i);
            let tail = sub_chars(s, i + 1, s.len());
            assert(host@ =~= s@.take(i as int));
            assert(tail@ =~= s@.skip(i + 1));
            match port(tail.as_slice()) {
                None => None,
                Some(p) => {
                    let n = host.len();
                    if n >= 2 && host[0] == '[' && host[n - 1] == ']' {
                        let inner = sub_chars(host.as_slice(), 1, n - 1);
                        match parse_v6_chars(inner.as_slice()) {
                            Some(ip) => Some(SocketAddress { ip, port: p }),
                            None => None,
                        }
                    } else {
                        match parse_v4_chars(host.as_slice()) {
                            Some(ip) => Some(SocketAddress { ip, port: p }),
                            None => None,
                        }
                    }
                },
            }
        },
    }
}

// ---------------------------------------------------------------------------
// Rendering
// ---------------------------------------------------------------------------
/// The text of an IPv4 address: `a.b.c.d`.
pub open spec fn v4_text(a: u8, b: u8, c: u8, d: u8) -> Seq<char> {
    decimal(a as nat) + "."@ + decimal(b as nat) + "."@ + decimal(c as nat) + "."@ + decimal(
        d as nat,
    )
}

/// The lowercase hexadecimal digit for a value below sixteen.
pub open spec fn hex_char(d: nat) -> char {
    if d < 10 {
        (('0' as nat) + d) as char
    } else {
        (('a' as nat) + d - 10) as char
    }
}

/// The shortest lowercase hexadecimal rendering of `n`.
pub open spec fn hex_text(n: nat) -> Seq<char>
    decreases n,
{
    if n < 16 {
        seq![hex_char(n)]
    } else {
        hex_text(n / 16).push(hex_char(n % 16))
    }
}

/// The groups of `g` in hexadecimal, separated by `:`.
pub open spec fn groups_text(g: Seq<u16>) -> Seq<char>
    decreases g.len(),
{
    if g.len() == 0 {
        Seq::empty()
    } else if g.len() == 1 {
        hex_text(g[0] as nat)
    } else {
        groups_text(g.drop_last()) + ":"@ + hex_text(g.last() as nat)
    }
}

/// The length of the run of zero segments starting at `i`.
pub open spec fn zero_run(g: Seq<u16>, i: int) -> nat
    decreases g.len() - i,
{
    if 0 <= i < g.len() && g[i] == 0 {
        1 + zero_run(g, i + 1)
    } else {
        0
    }
}

/// The start and length of the first longest run of zero segments among
/// positions `i..`, given the best run `(bs, bl)` found before `i`.
pub open spec fn best_run(g: Seq<u16>, i: int, bs: int, bl: nat) -> (int, nat)
    decreases g.len() - i,
{
    if i >= g.len() || i < 0 {
        (bs, bl)
    } else {
        let l = zero_run(g, i);
        if l > bl {
            best_run(g, i + 1, i, l)
        } else {
            best_run(g, i + 1, bs, bl)
        }
    }
}

/// The text of an IPv6 address: an IPv4-mapped address as `::ffff:a.b.c.d`,
/// otherwise lowercase hexadecimal groups with the first longest run of two
/// or more zero groups written `::`.
pub open spec fn v6_text(g: Seq<u16>) -> Seq<char> {
    if g.len() == 8 && g[0] == 0 && g[1] == 0 && g[2] == 0 && g[3] == 0 && g[4] == 0 && g[5]
        == 0xffff {
        "::ffff:"@ + v4_text(
            (g[6] / 256) as u8,
            (g[6] % 256) as u8,
            (g[7] / 256) as u8,
            (g[7] % 256) as u8,
        )
    } else {
        let (s, l) = best_run(g, 0, 0, 0);
        if l >= 2 {
            groups_text(g.take(s)) + "::"@ + groups_text(g.skip(s + l))
        } else {
            groups_text(g)
        }
    }
}

/// The text of an address.
pub open spec fn spec_ip_text(ip: IpAddress) -> Seq<char> {
    match ip {
        IpAddress::V4(a, b, c, d) => v4_text(a, b, c, d),
        IpAddress::V6(a, b, c, d, e, f, g, h) => v6_text(seq![a, b, c, d, e, f, g, h]),
    }
}

fn hex_digit(d: u64) -> (c: char)
    requires
        d < 16,
    ensures
        c == hex_char(d as nat),
{
    if d < 10 {
        ((d as u8) + 48) as char
    } else {
        ((d as u8) + 87) as char
    }
}

fn hex_chars(n: u64) -> (r: Vec<char>)
    ensures
        r@ == hex_text(n as nat),
    decreases n,
{
    if n < 16 {
        let mut v: Vec<char> = Vec::new();
        v.push(hex_digit(n));
        v
    } else {
        let mut v = hex_chars(n / 16);
        v.push(hex_digit(n % 16));
        v
    }
}

fn groups_chars(g: &[u16], from: usize, to: usize) -> (r: Vec<char>)
    requires
        from <= to <= g.len(),
    ensures
        r@ == groups_text(g@.subrange(from as int, to as int)),
{
    let mut r: Vec<char> = Vec::new();
    let mut i: usize = from;
    while i < to
        invariant
            from <= i <= to <= g.len(),
            r@ == groups_text(g@.subrange(from as int, i as int)),
        decreases to - i,
    {
        let ghost prev = g@.subrange(from as int, i as int);
        assert(g@.subrange(from as int, i + 1).drop_last() =~= prev);
        if i > from {
            extend_str(&mut r, ":");
        }
        let h = hex_chars(g[i] as u64);
        extend_chars(&mut r, h.as_slice());
        if i == from {
            assert(g@.subrange(from as int, i + 1).len() == 1);
        }
        i += 1;
    }
    r
}

fn zero_run_exec(g: &[u16], i: usize) -> (r: usize)
    requires
        i <= g.len(),
    ensures
        r == zero_run(g@, i as int),
        i + r <= g.len(),
{
    let mut j: usize = i;
    while j < g.len() && g[j] == 0
        invariant
            i <= j <= g.len(),
            zero_run(g@, i as int) == (j - i) + zero_run(g@, j as int),
        decreases g.len() - j,
    {
        j += 1;
    }
    proof {
        lemma_zero_run_bound(g@, j as int);
    }
    j - i
}

proof fn lemma_zero_run_bound(g: Seq<u16>, i: int)
    requires
        0 <= i <= g.len(),
    ensures
        i + zero_run(g, i) <= g.len(),
    decreases g.len() - i,
{
    if i < g.len() {
        lemma_zero_run_bound(g, i + 1);
    }
}

proof fn lemma_best_run_bounds(g: Seq<u16>, i: int, bs: int, bl: nat)
    requires
        0 <= i <= g.len(),
        0 <= bs,
        bs + bl <= g.len(),
    ensures
        ({
            let (s, l) = best_run(g, i, bs, bl);
            0 <= s && s + l <= g.len()
        }),
    decreases g.len() - i,
{
    if i < g.len() {
        lemma_zero_run_bound(g, i);
        let l = zero_run(g, i);
        if l > bl {
            lemma_best_run_bounds(g, i + 1, i, l);
        } else {
            lemma_best_run_bounds(g, i + 1, bs, bl);
        }
    }
}

/// Renders an address as text.
pub fn ip_to_string(ip: IpAddress) -> (r: String)
    ensures
        r@ == spec_ip_text(ip),
{
    let mut out: Vec<char> = Vec::new();
    match ip {
        IpAddress::V4(a, b, c, d) => {
            append_v4(&mut out, a, b, c, d);
        },
        IpAddress::V6(a, b, c, d, e, f, g7, h) => {
            let g: Vec<u16> = vec![a, b, c, d, e, f, g7, h];
            assert(g@ =~= seq![a, b, c, d, e, f, g7, h]);
            if a == 0 && b == 0 && c == 0 && d == 0 && e == 0 && f == 0xffff {
                extend_str(&mut out, "::ffff:");
                append_v4(
                    &mut out,
                    (g7 / 256) as u8,
                    (g7 % 256) as u8,
                    (h / 256) as u8,
                    (h % 256) as u8,
                );
            } else {
                let mut bs: usize = 0;
                let mut bl: usize = 0;
                let mut i: usize = 0;
                while i < 8
                    invariant
                        i <= 8,
                        g@.len() == 8,
                        bs + bl <= 8,
                        best_run(g@, 0, 0, 0) == best_run(g@, i as int, bs as int, bl as nat),
                    decreases 8 - i,
                {
                    let l = zero_run_exec(g.as_slice(), i);
                    if l > bl {
                        bs = i;
                        bl = l;
                    }
                    i += 1;
                }
                if bl >= 2 {
                    let left = groups_chars(g.as_slice(), 0, bs);
                    let right = groups_chars(g.as_slice(), bs + bl, 8);
                    assert(g@.subrange(0, bs as int) =~= g@.take(bs as int));
                    assert(g@.subrange(bs + bl, 8) =~= g@.skip(bs + bl));
                    extend_chars(&mut out, left.as_slice());
                    extend_str(&mut out, "::");
                    extend_chars(&mut out, right.as_slice());
                } else {
                    let all = groups_chars(g.as_slice(), 0, 8);
                    assert(g@.subrange(0, 8) =~= g@);
                    extend_chars(&mut out, all.as_slice());
                }
            }
        },
    }
    string_of(out.as_slice())
}

fn append_v4(out: &mut Vec<char>, a: u8, b: u8, c: u8, d: u8)
    ensures
        final(out)@ == old(out)@ + v4_text(a, b, c, d),
{
    let x = decimal_chars(a as u64);
    extend_chars(out, x.as_slice());
    extend_str(out, ".");
    let x = decimal_chars(b as u64);
    extend_chars(out, x.as_slice());
    extend_str(out, ".");
    let x = decimal_chars(c as u64);
    extend_chars(out, x.as_slice());
    extend_str(out, ".");
    let x = decimal_chars(d as u64);
    extend_chars(out, x.as_slice());
}

/// Whether `ip` is among `list`.
pub fn contains_ip(list: &[IpAddress], ip: IpAddress) -> (r: bool)
    ensures
        r == list@.contains(ip),
{
    let mut i: usize = 0;
    while i < list.len()
        invariant
            i <= list.len(),
            forall|k: int| 0 <= k < i ==> list@[k] != ip,
        decreases list.len() - i,
    {
        if list[i] == ip {
            assert(list@[i as int] == ip);
            return true;
        }
        i += 1;
    }
    false
}

} // verus!
