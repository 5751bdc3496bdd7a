//! Network addresses as plain values, with their text forms.
//!
//! An address is its octets or groups; parsing accepts the usual notations
//! (dotted quads, IPv6 groups with one `::` and an optional dotted tail,
//! `ip:port` and `[ip]:port`), rendering produces the canonical one.

use crate::text::{
    all_digits, chars_of, dec, dec_text, dec_value, digit, digit_char, digit_value, find_char, first_at, is_digit, join,
    lemma_dec_reads_back, lemma_first_at, lemma_first_at_bounds, lemma_join_split, lemma_lower_split, lemma_split_join,
    lower, parse_unsigned, push_dec, rows, slice_of, split, split_chars,
};
use vstd::prelude::*;

verus! {

/// An IPv4 address `a.b.c.d`.
#[derive(Debug, Clone, Copy, PartialEq, Eq, Hash, Structural)]
pub struct Ipv4Addr {
    pub a: u8,
    pub b: u8,
    pub c: u8,
    pub d: u8,
}

/// An IPv6 address of eight 16-bit groups.
#[derive(Debug, Clone, Copy, PartialEq, Eq, Hash, Structural)]
pub struct Ipv6Addr {
    pub g0: u16,
    pub g1: u16,
    pub g2: u16,
    pub g3: u16,
    pub g4: u16,
    pub g5: u16,
    pub g6: u16,
    pub g7: u16,
}

/// An IP address of either family.
#[derive(Debug, Clone, Copy, PartialEq, Eq, Hash, Structural)]
pub enum IpAddr {
    V4(Ipv4Addr),
    V6(Ipv6Addr),
}

/// An IP address with a port; `scope_id` is `0` except for a scoped IPv6
/// address.
#[derive(Debug, Clone, Copy, PartialEq, Eq, Hash, Structural)]
pub struct SocketAddr {
    pub ip: IpAddr,
    pub port: u16,
    pub scope_id: u32,
}

impl Ipv6Addr {
    /// The eight groups, most significant first.
    pub open spec fn groups(self) -> Seq<u16> {
        seq![self.g0, self.g1, self.g2, self.g3, self.g4, self.g5, self.g6, self.g7]
    }

    /// The eight groups, most significant first.
    pub fn segments(&self) -> (out: Vec<u16>)
        ensures
            out@ == self.groups(),
    {
        let out = vec![self.g0, self.g1, self.g2, self.g3, self.g4, self.g5, self.g6, self.g7];
        assert(out@ =~= self.groups());
        out
    }

    /// The address of eight groups.
    pub fn from_segments(g: &[u16]) -> (ip: Ipv6Addr)
        requires
            g@.len() == 8,
        ensures
            ip.groups() == g@,
    {
        let ip = Ipv6Addr { g0: g[0], g1: g[1], g2: g[2], g3: g[3], g4: g[4], g5: g[5], g6: g[6], g7: g[7] };
        assert(ip.groups() =~= g@);
        ip
    }
}

/// Two addresses with the same groups are the same address.
pub proof fn lemma_groups_injective(x: Ipv6Addr, y: Ipv6Addr)
    requires
        x.groups() == y.groups(),
    ensures
        x == y,
{
    let (a, b) = (x.groups(), y.groups());
    assert(a[0] == b[0] && a[1] == b[1] && a[2] == b[2] && a[3] == b[3]);
    assert(a[4] == b[4] && a[5] == b[5] && a[6] == b[6] && a[7] == b[7]);
}

impl IpAddr {
    /// Whether this is an IPv4 address.
    pub fn is_ipv4(&self) -> (r: bool)
        ensures
            r == (self is V4),
    {
        matches!(self, IpAddr::V4(_))
    }

    /// Whether this is an IPv6 address.
    pub fn is_ipv6(&self) -> (r: bool)
        ensures
            r == (self is V6),
    {
        matches!(self, IpAddr::V6(_))
    }

    /// The canonical text of the address.
    pub open spec fn text(self) -> Seq<char> {
        match self {
            IpAddr::V4(ip) => ipv4_text(ip),
            IpAddr::V6(ip) => ipv6_text(ip),
        }
    }

    /// The canonical text of the address.
    pub fn to_text(&self) -> (out: String)
        ensures
            out@ == self.text(),
    {
        match self {
            IpAddr::V4(ip) => ip.to_text(),
            IpAddr::V6(ip) => ip.to_text(),
        }
    }

    /// Parse an address of either family.
    pub fn parse(s: &str) -> (r: Option<IpAddr>)
        ensures
            r == parse_ip(s@),
    {
        let chars = chars_of(s);
        parse_ip_chars(chars.as_slice())
    }
}

impl SocketAddr {
    /// The address `ip` at `port`, without a scope.
    pub fn new(ip: IpAddr, port: u16) -> (r: SocketAddr)
        ensures
            r == (SocketAddr { ip, port, scope_id: 0 }),
    {
        SocketAddr { ip, port, scope_id: 0 }
    }

    /// The text `ip:port`, with brackets around an IPv6 address.
    pub open spec fn text(self) -> Seq<char> {
        match self.ip {
            IpAddr::V4(ip) => ipv4_text(ip) + ":"@ + dec(self.port as nat),
            IpAddr::V6(ip) => if self.scope_id == 0 {
                "["@ + ipv6_text(ip) + "]:"@ + dec(self.port as nat)
            } else {
                "["@ + ipv6_text(ip) + "%"@ + dec(self.scope_id as nat) + "]:"@ + dec(self.port as nat)
            },
        }
    }

    /// The text `ip:port`, with brackets around an IPv6 address.
    pub fn to_text(&self) -> (out: String)
        ensures
            out@ == self.text(),
    {
        match self.ip {
            IpAddr::V4(ip) => {
                let mut out = ip.to_text();
                out.append(":");
                push_dec(&mut out, self.port as u64);
                out
            },
            IpAddr::V6(ip) => {
                let mut out = "[".to_owned();
                out.append(ip.to_text().as_str());
                if self.scope_id != 0 {
                    out.append("%");
                    push_dec(&mut out, self.scope_id as u64);
                }
                out.append("]:");
                push_dec(&mut out, self.port as u64);
                out
            },
        }
    }

    /// Parse `ip:port` or `[ip]:port`.
    pub fn parse(s: &str) -> (r: Option<SocketAddr>)
        ensures
            r == parse_socket(s@),
    {
        let chars = chars_of(s);
        let s = chars.as_slice();
        match parse_socket_v4(s) {
            Some(addr) => Some(addr),
            None => parse_socket_v6(s),
        }
    }
}

// --- rendering --------------------------------------------------------------------

/// `a.b.c.d`
pub open spec fn ipv4_text(ip: Ipv4Addr) -> Seq<char> {
    dec(ip.a as nat) + "."@ + dec(ip.b as nat) + "."@ + dec(ip.c as nat) + "."@ + dec(ip.d as nat)
}

impl Ipv4Addr {
    /// The address `a.b.c.d`.
    pub fn new(a: u8, b: u8, c: u8, d: u8) -> (r: Ipv4Addr)
        ensures
            r == (Ipv4Addr { a, b, c, d }),
    {
        Ipv4Addr { a, b, c, d }
    }

    /// The dotted quad of the address.
    pub fn to_text(&self) -> (out: String)
        ensures
            out@ == ipv4_text(*self),
    {
        let mut out = dec_text(self.a as u64);
        out.append(".");
        push_dec(&mut out, self.b as u64);
        out.append(".");
        push_dec(&mut out, self.c as u64);
        out.append(".");
        push_dec(&mut out, self.d as u64);
        out
    }
}

/// The character of one hexadecimal digit, in lower case.
pub open spec fn hex_char(d: nat) -> char {
    if d < 10 {
        digit_char(d)
    } else {
        ('a' as int + d - 10) as char
    }
}

/// The hexadecimal numeral of `n`, in lower case and without leading zeros.
pub open spec fn hex(n: nat) -> Seq<char>
    decreases n,
{
    if n < 16 {
        seq![hex_char(n)]
    } else {
        hex(n / 16).push(hex_char(n % 16))
    }
}

/// The character of one hexadecimal digit, in lower case.
pub fn hex_digit(d: u64) -> (c: char)
    requires
        d < 16,
    ensures
        c == hex_char(d as nat),
{
    if d < 10 {
        digit(d)
    } else {
        (97u8 + (d - 10) as u8) as char
    }
}

/// Append the hexadecimal numeral of `n`.
pub fn push_hex(out: &mut String, n: u64)
    ensures
        final(out)@ == old(out)@ + hex(n as nat),
    decreases n,
{
    if n >= 16 {
        push_hex(out, n / 16);
    }
    out.push(hex_digit(n % 16));
    assert(out@ =~= old(out)@ + hex(n as nat));
}

/// Hexadecimal groups separated by colons.
pub open spec fn groups_text(g: Seq<u16>) -> Seq<char>
    decreases g.len(),
{
    if g.len() == 0 {
        Seq::empty()
    } else if g.len() == 1 {
        hex(g[0] as nat)
    } else {
        groups_text(g.drop_last()) + ":"@ + hex(g.last() as nat)
    }
}

/// The number of zero groups in a row from position `i` on.
pub open spec fn run_len(g: Seq<u16>, i: int) -> nat
    decreases g.len() - i,
{
    if 0 <= i < g.len() && g[i] == 0 {
        1 + run_len(g, i + 1)
    } else {
        0
    }
}

/// Among the first `n` positions, the first at which the longest run of zero
/// groups starts.
pub open spec fn longest_run(g: Seq<u16>, n: int) -> int
    decreases n,
{
    if n <= 1 {
        0
    } else {
        let best = longest_run(g, n - 1);
        if run_len(g, n - 1) > run_len(g, best) {
            n - 1
        } else {
            best
        }
    }
}

/// Whether an address stands for an IPv4 address (`::ffff:a.b.c.d`).
pub open spec fn is_mapped(ip: Ipv6Addr) -> bool {
    ip.g0 == 0 && ip.g1 == 0 && ip.g2 == 0 && ip.g3 == 0 && ip.g4 == 0 && ip.g5 == 0xffff
}

/// The canonical text of an IPv6 address: the first longest run of at least
/// two zero groups is written `::`, and a mapped IPv4 address keeps its dots.
pub open spec fn ipv6_text(ip: Ipv6Addr) -> Seq<char> {
    let g = ip.groups();
    let start = longest_run(g, 8);
    let len = run_len(g, start);
    if is_mapped(ip) {
        "::ffff:"@ + ipv4_text(
            Ipv4Addr {
                a: (ip.g6 / 256) as u8,
                b: (ip.g6 % 256) as u8,
                c: (ip.g7 / 256) as u8,
                d: (ip.g7 % 256) as u8,
            },
        )
    } else if len > 1 {
        groups_text(g.take(start)) + "::"@ + groups_text(g.skip(start + len))
    } else {
        groups_text(g)
    }
}

/// A run stays within the groups.
proof fn lemma_run_len(g: Seq<u16>, i: int)
    requires
        0 <= i <= g.len(),
    ensures
        i + run_len(g, i) <= g.len(),
    decreases g.len() - i,
{
    if i < g.len() && g[i] == 0 {
        lemma_run_len(g, i + 1);
    }
}

/// The longest run starts within the positions looked at.
proof fn lemma_longest_run(g: Seq<u16>, n: int)
    requires
        1 <= n,
    ensures
        0 <= longest_run(g, n) < n,
    decreases n,
{
    if n > 1 {
        lemma_longest_run(g, n - 1);
    }
}

/// Append hexadecimal groups separated by colons.
fn push_groups(out: &mut String, g: &[u16], from: usize, to: usize)
    requires
        from <= to <= g@.len(),
    ensures
        final(out)@ == old(out)@ + groups_text(g@.subrange(from as int, to as int)),
{
    let ghost start = out@;
    let mut i: usize = from;
    assert(g@.subrange(from as int, from as int) =~= Seq::empty());
    assert(out@ =~= start + groups_text(g@.subrange(from as int, from as int)));
    while i < to
        invariant
            from <= i <= to <= g@.len(),
            out@ == start + groups_text(g@.subrange(from as int, i as int)),
        decreases to - i,
    {
        let ghost done = g@.subrange(from as int, i as int);
        if i > from {
            out.append(":");
        }
        push_hex(out, g[i] as u64);
        proof {
            let next = g@.subrange(from as int, i as int + 1);
            assert(next.drop_last() =~= done);
            assert(next.last() == g@[i as int]);
            if i == from {
                assert(done =~= Seq::empty());
            }
            assert(out@ =~= start + groups_text(next));
        }
        i = i + 1;
    }
}

/// The number of zero groups in a row from position `i` on.
fn zero_run(g: &[u16], i: usize) -> (n: usize)
    requires
        i <= g@.len(),
    ensures
        n == run_len(g@, i as int),
    decreases g@.len() - i,
{
    if i < g.len() && g[i] == 0 {
        proof {
            lemma_run_len(g@, i as int);
        }
        1 + zero_run(g, i + 1)
    } else {
        0
    }
}

impl Ipv6Addr {
    /// The canonical text of the address.
    pub fn to_text(&self) -> (out: String)
        ensures
            out@ == ipv6_text(*self),
    {
        if self.g0 == 0 && self.g1 == 0 && self.g2 == 0 && self.g3 == 0 && self.g4 == 0 && self.g5 == 0xffff {
            let v4 = Ipv4Addr {
                a: (self.g6 / 256) as u8,
                b: (self.g6 % 256) as u8,
                c: (self.g7 / 256) as u8,
                d: (self.g7 % 256) as u8,
            };
            let mut out = "::ffff:".to_owned();
            out.append(v4.to_text().as_str());
            return out;
        }
        let segments = self.segments();
        let g = segments.as_slice();
        let mut start: usize = 0;
        let mut len: usize = zero_run(g, 0);
        let mut i: usize = 1;
        while i < 8
            invariant
                1 <= i <= 8,
                g@ == self.groups(),
                g@.len() == 8,
                start == longest_run(g@, i as int),
                len == run_len(g@, start as int),
            decreases 8 - i,
        {
            let n = zero_run(g, i);
            if n > len {
                start = i;
                len = n;
            }
            i = i + 1;
        }
        proof {
            lemma_longest_run(g@, 8);
            lemma_run_len(g@, start as int);
        }
        let mut out = String::new();
        if len > 1 {
            push_groups(&mut out, g, 0, start);
            assert(g@.subrange(0, start as int) =~= g@.take(start as int));
            assert(out@ =~= groups_text(g@.take(start as int)));
            out.append("::");
            push_groups(&mut out, g, start + len, 8);
            assert(g@.subrange(start + len, 8) =~= g@.skip(start + len));
        } else {
            push_groups(&mut out, g, 0, 8);
            assert(g@.subrange(0, 8) =~= g@);
            assert(out@ =~= groups_text(g@));
        }
        out
    }
}

// --- parsing ------------------------------------------------------------------------

/// One octet of a dotted quad: one to three digits without a leading zero.
pub open spec fn octet(p: Seq<char>) -> Option<u8> {
    if 1 <= p.len() <= 3 && all_digits(p) && (p.len() == 1 || p[0] != '0') && dec_value(p) <= 255 {
        Some(dec_value(p) as u8)
    } else {
        None
    }
}

/// The address of a dotted quad.
pub open spec fn parse_ipv4(s: Seq<char>) -> Option<Ipv4Addr> {
    let p = split(s, '.');
    if p.len() == 4 && octet(p[0]) is Some && octet(p[1]) is Some && octet(p[2]) is Some && octet(p[3]) is Some {
        Some(
            Ipv4Addr {
                a: octet(p[0])->0,
                b: octet(p[1])->0,
                c: octet(p[2])->0,
                d: octet(p[3])->0,
            },
        )
    } else {
        None
    }
}

/// Whether `c` is a hexadecimal digit of either case.
pub open spec fn is_hex(c: char) -> bool {
    is_digit(c) || ('a' <= c && c <= 'f') || ('A' <= c && c <= 'F')
}

/// The value of a hexadecimal digit.
pub open spec fn hex_digit_value(c: char) -> nat {
    if is_digit(c) {
        digit_value(c)
    } else if 'a' <= c && c <= 'f' {
        (c as int - 'a' as int + 10) as nat
    } else {
        (c as int - 'A' as int + 10) as nat
    }
}

/// The value of a sequence of hexadecimal digits, most significant first.
pub open spec fn hex_value(s: Seq<char>) -> nat
    decreases s.len(),
{
    if s.len() == 0 {
        0
    } else {
        hex_value(s.drop_last()) * 16 + hex_digit_value(s.last())
    }
}

/// One IPv6 group: one to four hexadecimal digits.
pub open spec fn group(p: Seq<char>) -> Option<u16> {
    if 1 <= p.len() <= 4 && forall|i: int| 0 <= i < p.len() ==> is_hex(#[trigger] p[i]) {
        Some(hex_value(p) as u16)
    } else {
        None
    }
}

/// The groups of pieces that are each one group.
pub open spec fn plain_groups(p: Seq<Seq<char>>) -> Option<Seq<u16>>
    decreases p.len(),
{
    if p.len() == 0 {
        Some(Seq::empty())
    } else {
        match (plain_groups(p.drop_last()), group(p.last())) {
            (Some(front), Some(g)) => Some(front.push(g)),
            _ => None,
        }
    }
}

/// The groups written on one side of a `::` (or in a whole address without
/// one): none for an empty side, else the pieces between colons. Where
/// `dotted` holds, the last piece may be a dotted quad, which is two groups.
pub open spec fn side_groups(s: Seq<char>, dotted: bool) -> Option<Seq<u16>> {
    let p = split(s, ':');
    if s.len() == 0 {
        Some(Seq::empty())
    } else if dotted && parse_ipv4(p.last()) is Some {
        let v4 = parse_ipv4(p.last())->0;
        match plain_groups(p.drop_last()) {
            Some(front) => Some(
                front + seq![(v4.a as int * 256 + v4.b as int) as u16, (v4.c as int * 256 + v4.d as int) as u16],
            ),
            None => None,
        }
    } else {
        plain_groups(p)
    }
}

/// The position of the first `::`, or the length of the text.
pub open spec fn gap_at(s: Seq<char>) -> int
    decreases s.len(),
{
    if s.len() < 2 {
        s.len() as int
    } else if s[0] == ':' && s[1] == ':' {
        0
    } else {
        1 + gap_at(s.skip(1))
    }
}

/// The groups of an IPv6 address: eight written out, or at most seven around
/// one `::` that stands for the missing zero groups.
pub open spec fn ipv6_groups(s: Seq<char>) -> Option<Seq<u16>> {
    let i = gap_at(s);
    if i >= s.len() {
        match side_groups(s, true) {
            Some(g) => if g.len() == 8 {
                Some(g)
            } else {
                None
            },
            None => None,
        }
    } else {
        match (side_groups(s.take(i), false), side_groups(s.skip(i + 2), true)) {
            (Some(head), Some(tail)) => if head.len() + tail.len() <= 7 {
                Some(head + Seq::new((8 - head.len() - tail.len()) as nat, |k: int| 0u16) + tail)
            } else {
                None
            },
            _ => None,
        }
    }
}

/// The address of eight groups.
pub open spec fn ipv6_of(g: Seq<u16>) -> Ipv6Addr {
    Ipv6Addr { g0: g[0], g1: g[1], g2: g[2], g3: g[3], g4: g[4], g5: g[5], g6: g[6], g7: g[7] }
}

/// The address of an IPv6 text.
pub open spec fn parse_ipv6(s: Seq<char>) -> Option<Ipv6Addr> {
    match ipv6_groups(s) {
        Some(g) => Some(ipv6_of(g)),
        None => None,
    }
}

/// The address of a text of either family.
pub open spec fn parse_ip(s: Seq<char>) -> Option<IpAddr> {
    match parse_ipv4(s) {
        Some(ip) => Some(IpAddr::V4(ip)),
        None => match parse_ipv6(s) {
            Some(ip) => Some(IpAddr::V6(ip)),
            None => None,
        },
    }
}

/// An octet has no letters to fold.
proof fn lemma_octet_ignores_case(p: Seq<char>)
    ensures
        octet(lower(p)) == octet(p),
{
    if all_digits(p) {
        assert(lower(p) =~= p);
    } else {
        let i = choose|i: int| 0 <= i < p.len() && !is_digit(#[trigger] p[i]);
        assert(!is_digit(lower(p)[i]));
    }
}

/// A dotted quad has no letters to fold.
proof fn lemma_ipv4_ignores_case(s: Seq<char>)
    ensures
        parse_ipv4(lower(s)) == parse_ipv4(s),
{
    lemma_lower_split(s, '.');
    let p = split(s, '.');
    if p.len() == 4 {
        lemma_octet_ignores_case(p[0]);
        lemma_octet_ignores_case(p[1]);
        lemma_octet_ignores_case(p[2]);
        lemma_octet_ignores_case(p[3]);
    }
}

/// The value of hexadecimal digits does not depend on their case.
proof fn lemma_hex_ignores_case(p: Seq<char>)
    requires
        forall|i: int| 0 <= i < p.len() ==> is_hex(#[trigger] p[i]),
    ensures
        hex_value(lower(p)) == hex_value(p),
    decreases p.len(),
{
    if p.len() > 0 {
        lemma_hex_ignores_case(p.drop_last());
        assert(lower(p).drop_last() =~= lower(p.drop_last()));
        assert(is_hex(p[p.len() - 1]));
    }
}

/// A group does not depend on the case of its digits.
proof fn lemma_group_ignores_case(p: Seq<char>)
    ensures
        group(lower(p)) == group(p),
{
    if forall|i: int| 0 <= i < p.len() ==> is_hex(#[trigger] p[i]) {
        lemma_hex_ignores_case(p);
        assert forall|i: int| 0 <= i < lower(p).len() implies is_hex(#[trigger] lower(p)[i]) by {
            assert(is_hex(p[i]));
        }
    } else {
        let i = choose|i: int| 0 <= i < p.len() && !is_hex(#[trigger] p[i]);
        assert(!is_hex(lower(p)[i]));
    }
}

/// Groups do not depend on the case of their digits.
proof fn lemma_plain_groups_ignore_case(p: Seq<Seq<char>>)
    ensures
        plain_groups(p.map_values(|x: Seq<char>| lower(x))) == plain_groups(p),
    decreases p.len(),
{
    let folded = p.map_values(|x: Seq<char>| lower(x));
    if p.len() > 0 {
        lemma_plain_groups_ignore_case(p.drop_last());
        lemma_group_ignores_case(p.last());
        assert(folded.drop_last() =~= p.drop_last().map_values(|x: Seq<char>| lower(x)));
    }
}

/// One side of an address does not depend on the case of its digits.
proof fn lemma_side_ignores_case(s: Seq<char>, dotted: bool)
    ensures
        side_groups(lower(s), dotted) == side_groups(s, dotted),
{
    lemma_lower_split(s, ':');
    lemma_join_split(s, ':');
    let p = split(s, ':');
    let folded = split(lower(s), ':');
    lemma_ipv4_ignores_case(p.last());
    lemma_plain_groups_ignore_case(p);
    lemma_plain_groups_ignore_case(p.drop_last());
    assert(folded.drop_last() =~= p.drop_last().map_values(|x: Seq<char>| lower(x)));
    assert(folded.last() == lower(p.last()));
}

/// Folding keeps where the first `::` stands.
proof fn lemma_gap_ignores_case(s: Seq<char>)
    ensures
        gap_at(lower(s)) == gap_at(s),
    decreases s.len(),
{
    if s.len() >= 2 {
        lemma_gap_ignores_case(s.skip(1));
        assert(lower(s).skip(1) =~= lower(s.skip(1)));
    }
}

/// The first `::` stands within the text or at its end.
proof fn lemma_gap_bounds(s: Seq<char>)
    ensures
        0 <= gap_at(s) <= s.len(),
        gap_at(s) < s.len() ==> gap_at(s) + 2 <= s.len(),
    decreases s.len(),
{
    if s.len() >= 2 && !(s[0] == ':' && s[1] == ':') {
        lemma_gap_bounds(s.skip(1));
    }
}

/// An address is read the same in either letter case.
pub proof fn lemma_address_ignores_case(s: Seq<char>)
    ensures
        parse_ip(lower(s)) == parse_ip(s),
{
    lemma_ipv4_ignores_case(s);
    lemma_gap_ignores_case(s);
    lemma_gap_bounds(s);
    let i = gap_at(s);
    if i >= s.len() {
        lemma_side_ignores_case(s, true);
    } else {
        lemma_side_ignores_case(s.take(i), false);
        lemma_side_ignores_case(s.skip(i + 2), true);
        assert(lower(s).take(i) =~= lower(s.take(i)));
        assert(lower(s).skip(i + 2) =~= lower(s.skip(i + 2)));
    }
}

/// A number written with digits only, of at most `max`.
pub open spec fn parse_digits(s: Seq<char>, max: nat) -> Option<nat> {
    if s.len() > 0 && all_digits(s) && dec_value(s) <= max {
        Some(dec_value(s))
    } else {
        None
    }
}

/// `a.b.c.d:port`
pub open spec fn parse_v4_socket(s: Seq<char>) -> Option<SocketAddr> {
    let i = first_at(s, ':');
    if i >= s.len() {
        None
    } else {
        match (parse_ipv4(s.take(i)), parse_digits(s.skip(i + 1), 0xFFFF)) {
            (Some(ip), Some(port)) => Some(SocketAddr { ip: IpAddr::V4(ip), port: port as u16, scope_id: 0 }),
            _ => None,
        }
    }
}

/// An IPv6 address with an optional numeric scope, `addr` or `addr%scope`.
pub open spec fn parse_scoped(s: Seq<char>) -> Option<(Ipv6Addr, u32)> {
    let i = first_at(s, '%');
    if i >= s.len() {
        match parse_ipv6(s) {
            Some(ip) => Some((ip, 0u32)),
            None => None,
        }
    } else {
        match (parse_ipv6(s.take(i)), parse_digits(s.skip(i + 1), 0xFFFF_FFFF)) {
            (Some(ip), Some(scope)) => Some((ip, scope as u32)),
            _ => None,
        }
    }
}

/// `[addr]:port` or `[addr%scope]:port`
pub open spec fn parse_v6_socket(s: Seq<char>) -> Option<SocketAddr> {
    let i = first_at(s, ']');
    if s.len() == 0 || s[0] != '[' || i + 1 >= s.len() || s[i + 1] != ':' {
        None
    } else {
        match (parse_scoped(s.subrange(1, i)), parse_digits(s.skip(i + 2), 0xFFFF)) {
            (Some((ip, scope)), Some(port)) => Some(
                SocketAddr { ip: IpAddr::V6(ip), port: port as u16, scope_id: scope },
            ),
            _ => None,
        }
    }
}

/// The address of a text `ip:port` or `[ip]:port`.
pub open spec fn parse_socket(s: Seq<char>) -> Option<SocketAddr> {
    match parse_v4_socket(s) {
        Some(addr) => Some(addr),
        None => parse_v6_socket(s),
    }
}

/// Parse a number written with digits only, of at most `max`.
fn digits_value(s: &[char], max: u64) -> (r: Option<u64>)
    requires
        max <= 0xFFFF_FFFF,
    ensures
        r is Some <==> parse_digits(s@, max as nat) is Some,
        r matches Some(v) ==> parse_digits(s@, max as nat) == Some(v as nat) && v <= max,
{
    if s.len() > 0 && s[0] == '+' {
        assert(!is_digit(s@[0]));
        return None;
    }
    parse_unsigned(s, max)
}

/// Parse one octet of a dotted quad.
fn parse_octet(p: &[char]) -> (r: Option<u8>)
    ensures
        r == octet(p@),
{
    if p.len() == 0 || p.len() > 3 || (p.len() > 1 && p[0] == '0') {
        return None;
    }
    match digits_value(p, 255) {
        Some(v) => Some(v as u8),
        None => None,
    }
}

/// Parse a dotted quad.
fn parse_ipv4_chars(s: &[char]) -> (r: Option<Ipv4Addr>)
    ensures
        r == parse_ipv4(s@),
{
    let pieces = split_chars(s, '.');
    assert(forall|i: int| 0 <= i < pieces@.len() ==> rows(pieces@)[i] == #[trigger] pieces@[i]@);
    if pieces.len() != 4 {
        return None;
    }
    let a = parse_octet(pieces[0].as_slice());
    let b = parse_octet(pieces[1].as_slice());
    let c = parse_octet(pieces[2].as_slice());
    let d = parse_octet(pieces[3].as_slice());
    match (a, b, c, d) {
        (Some(a), Some(b), Some(c), Some(d)) => Some(Ipv4Addr { a, b, c, d }),
        _ => None,
    }
}

/// The value of at most four hexadecimal digits fits in 16 bits.
proof fn lemma_hex_value_bound(s: Seq<char>)
    requires
        forall|i: int| 0 <= i < s.len() ==> is_hex(#[trigger] s[i]),
        s.len() <= 4,
    ensures
        s.len() == 0 ==> hex_value(s) == 0,
        s.len() == 1 ==> hex_value(s) < 16,
        s.len() == 2 ==> hex_value(s) < 256,
        s.len() == 3 ==> hex_value(s) < 4096,
        s.len() == 4 ==> hex_value(s) < 65536,
    decreases s.len(),
{
    if s.len() > 0 {
        assert(is_hex(s[s.len() - 1]));
        lemma_hex_value_bound(s.drop_last());
    }
}

/// Parse one IPv6 group.
fn parse_group(p: &[char]) -> (r: Option<u16>)
    ensures
        r == group(p@),
{
    if p.len() == 0 || p.len() > 4 {
        return None;
    }
    let mut value: u32 = 0;
    let mut i: usize = 0;
    while i < p.len()
        invariant
            i <= p@.len() <= 4,
            value == hex_value(p@.take(i as int)),
            value <= 0xFFFF,
            forall|j: int| 0 <= j < i ==> is_hex(#[trigger] p@[j]),
        decreases p.len() - i,
    {
        let c = p[i];
        let d: u32 = if '0' <= c && c <= '9' {
            c as u32 - '0' as u32
        } else if 'a' <= c && c <= 'f' {
            c as u32 - 'a' as u32 + 10
        } else if 'A' <= c && c <= 'F' {
            c as u32 - 'A' as u32 + 10
        } else {
            assert(!is_hex(p@[i as int]));
            return None;
        };
        assert(p@.take(i as int + 1).drop_last() =~= p@.take(i as int));
        value = value * 16 + d;
        proof {
            lemma_hex_value_bound(p@.take(i as int + 1));
        }
        i = i + 1;
    }
    assert(p@.take(i as int) =~= p@);
    Some(value as u16)
}

/// Whether the first `n` pieces being groups fails as soon as one is not.
proof fn lemma_plain_groups_prefix(p: Seq<Seq<char>>, n: int)
    requires
        0 <= n <= p.len(),
        plain_groups(p.take(n)) is None,
    ensures
        plain_groups(p) is None,
    decreases p.len() - n,
{
    if n == p.len() {
        assert(p.take(n) =~= p);
    } else {
        assert(p.take(n + 1).drop_last() =~= p.take(n));
        lemma_plain_groups_prefix(p, n + 1);
    }
}

/// Parse the first `n` pieces as groups.
fn parse_groups(pieces: &[Vec<char>], n: usize) -> (r: Option<Vec<u16>>)
    requires
        n <= pieces@.len(),
    ensures
        r is Some <==> plain_groups(rows(pieces@).take(n as int)) is Some,
        r matches Some(g) ==> plain_groups(rows(pieces@).take(n as int)) == Some(g@) && g@.len() == n,
{
    let mut out: Vec<u16> = Vec::new();
    let ghost p = rows(pieces@).take(n as int);
    let mut i: usize = 0;
    assert(p.take(0) =~= Seq::empty());
    while i < n
        invariant
            i <= n <= pieces@.len(),
            p == rows(pieces@).take(n as int),
            plain_groups(p.take(i as int)) == Some(out@),
            out@.len() == i,
        decreases n - i,
    {
        assert(p.take(i as int + 1).drop_last() =~= p.take(i as int));
        assert(p.take(i as int + 1).last() == pieces@[i as int]@);
        match parse_group(pieces[i].as_slice()) {
            Some(g) => {
                out.push(g);
            },
            None => {
                proof {
                    lemma_plain_groups_prefix(p, i as int + 1);
                }
                return None;
            },
        }
        i = i + 1;
    }
    assert(p.take(i as int) =~= p);
    Some(out)
}

/// Parse the groups on one side of a `::`.
fn parse_side(s: &[char], dotted: bool) -> (r: Option<Vec<u16>>)
    ensures
        r is Some <==> side_groups(s@, dotted) is Some,
        r matches Some(g) ==> side_groups(s@, dotted) == Some(g@),
{
    if s.len() == 0 {
        let out: Vec<u16> = Vec::new();
        assert(out@ =~= Seq::empty());
        return Some(out);
    }
    let pieces = split_chars(s, ':');
    let n = pieces.len();
    let ghost p = split(s@, ':');
    assert(rows(pieces@) == p);
    assert(p.last() == pieces@[n - 1]@);
    if dotted {
        match parse_ipv4_chars(pieces[n - 1].as_slice()) {
            Some(v4) => {
                assert(p.take(n - 1) =~= p.drop_last());
                return match parse_groups(pieces.as_slice(), n - 1) {
                    Some(mut g) => {
                        let ghost front = g@;
                        g.push(v4.a as u16 * 256 + v4.b as u16);
                        g.push(v4.c as u16 * 256 + v4.d as u16);
                        assert(g@ =~= front + seq![
                            (v4.a as int * 256 + v4.b as int) as u16,
                            (v4.c as int * 256 + v4.d as int) as u16,
                        ]);
                        Some(g)
                    },
                    None => None,
                };
            },
            None => {},
        }
    }
    assert(p.take(n as int) =~= p);
    parse_groups(pieces.as_slice(), n)
}

/// The first `::` is characterised by what stands at and before it.
proof fn lemma_gap_at(s: Seq<char>, i: int)
    requires
        0 <= i <= s.len(),
        forall|j: int| 0 <= j < i && j + 1 < s.len() ==> !(s[j] == ':' && #[trigger] s[j + 1] == ':'),
        i < s.len() ==> i + 1 < s.len() && s[i] == ':' && s[i + 1] == ':',
    ensures
        gap_at(s) == i,
    decreases s.len(),
{
    if s.len() >= 2 {
        if i > 0 {
            assert(!(s[0] == ':' && s[0int + 1] == ':'));
            let t = s.skip(1);
            assert forall|j: int| 0 <= j < i - 1 && j + 1 < t.len() implies !(t[j] == ':' && #[trigger] t[j + 1] == ':') by {
                assert(!(s[j + 1] == ':' && s[(j + 1) + 1] == ':'));
            }
            lemma_gap_at(t, i - 1);
        }
    }
}

/// The position of the first `::`, or the length of the text.
fn find_gap(s: &[char]) -> (r: usize)
    ensures
        r == gap_at(s@),
        r <= s@.len(),
        r < s@.len() ==> r + 1 < s@.len(),
{
    let mut i: usize = 0;
    while i < s.len() && i + 1 < s.len()
        invariant
            i <= s.len(),
            forall|j: int| 0 <= j < i && j + 1 < s@.len() ==> !(s@[j] == ':' && #[trigger] s@[j + 1] == ':'),
        decreases s.len() - i,
    {
        if s[i] == ':' && s[i + 1] == ':' {
            proof {
                lemma_gap_at(s@, i as int);
            }
            return i;
        }
        i = i + 1;
    }
    proof {
        lemma_gap_at(s@, s@.len() as int);
    }
    s.len()
}

/// Parse an IPv6 address.
fn parse_ipv6_chars(s: &[char]) -> (r: Option<Ipv6Addr>)
    ensures
        r == parse_ipv6(s@),
{
    let i = find_gap(s);
    if i >= s.len() {
        return match parse_side(s, true) {
            Some(g) => if g.len() == 8 {
                let ip = Ipv6Addr::from_segments(g.as_slice());
                proof {
                    assert(ipv6_of(g@).groups() =~= g@);
                    lemma_groups_injective(ip, ipv6_of(g@));
                }
                Some(ip)
            } else {
                None
            },
            None => None,
        };
    }
    let head_text = slice_of(s, 0, i);
    let tail_text = slice_of(s, i + 2, s.len());
    assert(head_text@ =~= s@.take(i as int));
    assert(tail_text@ =~= s@.skip(i as int + 2));
    let head = parse_side(head_text.as_slice(), false);
    let tail = parse_side(tail_text.as_slice(), true);
    match (head, tail) {
        (Some(head), Some(tail)) => {
            if head.len() > 7 || tail.len() > 7 - head.len() {
                return None;
            }
            let zeros: usize = 8 - head.len() - tail.len();
            let mut all = head;
            let mut k: usize = 0;
            while k < zeros
                invariant
                    k <= zeros,
                    all@ == head@ + Seq::new(k as nat, |j: int| 0u16),
                decreases zeros - k,
            {
                all.push(0);
                assert(all@ =~= head@ + Seq::new((k + 1) as nat, |j: int| 0u16));
                k = k + 1;
            }
            let mut k: usize = 0;
            let ghost front = all@;
            while k < tail.len()
                invariant
                    k <= tail@.len(),
                    all@ == front + tail@.take(k as int),
                decreases tail.len() - k,
            {
                all.push(tail[k]);
                assert(all@ =~= front + tail@.take(k as int + 1));
                k = k + 1;
            }
            assert(all@ =~= front + tail@);
            let ip = Ipv6Addr::from_segments(all.as_slice());
            proof {
                assert(ipv6_of(all@).groups() =~= all@);
                lemma_groups_injective(ip, ipv6_of(all@));
            }
            Some(ip)
        },
        _ => None,
    }
}

/// Parse an address of either family.
pub fn parse_ip_chars(s: &[char]) -> (r: Option<IpAddr>)
    ensures
        r == parse_ip(s@),
{
    match parse_ipv4_chars(s) {
        Some(ip) => Some(IpAddr::V4(ip)),
        None => match parse_ipv6_chars(s) {
            Some(ip) => Some(IpAddr::V6(ip)),
            None => None,
        },
    }
}

/// Parse `a.b.c.d:port`.
fn parse_socket_v4(s: &[char]) -> (r: Option<SocketAddr>)
    ensures
        r == parse_v4_socket(s@),
{
    match find_char(s, ':') {
        Some(i) => {
            let host = slice_of(s, 0, i);
            let port = slice_of(s, i + 1, s.len());
            assert(host@ =~= s@.take(i as int));
            assert(port@ =~= s@.skip(i as int + 1));
            match (parse_ipv4_chars(host.as_slice()), digits_value(port.as_slice(), 0xFFFF)) {
                (Some(ip), Some(port)) => Some(SocketAddr { ip: IpAddr::V4(ip), port: port as u16, scope_id: 0 }),
                _ => None,
            }
        },
        None => None,
    }
}

/// Parse `addr` or `addr%scope`.
fn parse_scoped_chars(s: &[char]) -> (r: Option<(Ipv6Addr, u32)>)
    ensures
        r == parse_scoped(s@),
{
    match find_char(s, '%') {
        Some(i) => {
            let host = slice_of(s, 0, i);
            let scope = slice_of(s, i + 1, s.len());
            assert(host@ =~= s@.take(i as int));
            assert(scope@ =~= s@.skip(i as int + 1));
            match (parse_ipv6_chars(host.as_slice()), digits_value(scope.as_slice(), 0xFFFF_FFFF)) {
                (Some(ip), Some(scope)) => Some((ip, scope as u32)),
                _ => None,
            }
        },
        None => match parse_ipv6_chars(s) {
            Some(ip) => Some((ip, 0)),
            None => None,
        },
    }
}

/// Parse `[addr]:port` or `[addr%scope]:port`.
fn parse_socket_v6(s: &[char]) -> (r: Option<SocketAddr>)
    ensures
        r == parse_v6_socket(s@),
{
    if s.len() == 0 || s[0] != '[' {
        return None;
    }
    match find_char(s, ']') {
        Some(i) => {
            if i + 1 >= s.len() || s[i + 1] != ':' {
                return None;
            }
            proof {
                lemma_first_at_bounds(s@, ']');
            }
            let host = slice_of(s, 1, i);
            let port = slice_of(s, i + 2, s.len());
            assert(port@ =~= s@.skip(i as int + 2));
            match (parse_scoped_chars(host.as_slice()), digits_value(port.as_slice(), 0xFFFF)) {
                (Some((ip, scope)), Some(port)) => Some(
                    SocketAddr { ip: IpAddr::V6(ip), port: port as u16, scope_id: scope },
                ),
                _ => None,
            }
        },
        None => None,
    }
}

// --- laws ---------------------------------------------------------------------------

/// An octet is read back from its numeral.
proof fn lemma_octet_reads_back(n: u8)
    ensures
        octet(dec(n as nat)) == Some(n),
        !dec(n as nat).contains('.'),
        !dec(n as nat).contains(':'),
{
    lemma_dec_reads_back(n as nat);
    reveal_with_fuel(dec, 4);
    assert(dec(n as nat).len() <= 3);
}

/// A dotted quad is read back as the address it was written for.
pub proof fn lemma_ipv4_reads_back(ip: Ipv4Addr)
    ensures
        parse_ipv4(ipv4_text(ip)) == Some(ip),
        parse_ip(ipv4_text(ip)) == Some(IpAddr::V4(ip)),
        !ipv4_text(ip).contains(':'),
{
    lemma_octet_reads_back(ip.a);
    lemma_octet_reads_back(ip.b);
    lemma_octet_reads_back(ip.c);
    lemma_octet_reads_back(ip.d);
    let parts = seq![dec(ip.a as nat), dec(ip.b as nat), dec(ip.c as nat), dec(ip.d as nat)];
    reveal_strlit(".");
    assert("."@ =~= seq!['.']);
    let p3 = parts.drop_last();
    let p2 = p3.drop_last();
    let p1 = p2.drop_last();
    assert(join(p1, seq!['.']) == dec(ip.a as nat));
    assert(join(p2, seq!['.']) == dec(ip.a as nat) + seq!['.'] + dec(ip.b as nat));
    assert(join(p3, seq!['.']) == dec(ip.a as nat) + seq!['.'] + dec(ip.b as nat) + seq!['.'] + dec(ip.c as nat));
    assert(join(parts, seq!['.']) == ipv4_text(ip));
    lemma_split_join(parts, '.');
    let t = ipv4_text(ip);
    assert forall|i: int| 0 <= i < t.len() implies t[i] != ':' by {
        let (a, b, c, d) = (dec(ip.a as nat), dec(ip.b as nat), dec(ip.c as nat), dec(ip.d as nat));
        lemma_dec_reads_back(ip.a as nat);
        lemma_dec_reads_back(ip.b as nat);
        lemma_dec_reads_back(ip.c as nat);
        lemma_dec_reads_back(ip.d as nat);
        if i < a.len() {
            assert(t[i] == a[i]);
        } else if i == a.len() {
        } else if i < a.len() + 1 + b.len() {
            assert(t[i] == b[i - a.len() - 1]);
        } else if i == a.len() + 1 + b.len() {
        } else if i < a.len() + b.len() + 2 + c.len() {
            assert(t[i] == c[i - a.len() - b.len() - 2]);
        } else if i == a.len() + b.len() + 2 + c.len() {
        } else {
            assert(t[i] == d[i - a.len() - b.len() - c.len() - 3]);
        }
    }
}

/// A group is read back from its hexadecimal numeral.
proof fn lemma_hex_reads_back(n: nat)
    ensures
        hex_value(hex(n)) == n,
        hex(n).len() > 0,
        forall|i: int| 0 <= i < hex(n).len() ==> is_hex(#[trigger] hex(n)[i]) && hex(n)[i] != ':' && hex(n)[i] != '.'
            && hex(n)[i] != '%' && hex(n)[i] != ']',
    decreases n,
{
    if n < 16 {
        assert(hex(n).drop_last() =~= Seq::empty());
        assert(hex_value(hex(n).drop_last()) == 0);
        assert(hex(n).last() == hex_char(n));
    } else {
        lemma_hex_reads_back(n / 16);
        assert(hex(n).last() == hex_char(n % 16));
        assert(hex(n).drop_last() =~= hex(n / 16));
        assert forall|i: int| 0 <= i < hex(n).len() implies is_hex(#[trigger] hex(n)[i]) && hex(n)[i] != ':' && hex(
            n,
        )[i] != '.' && hex(n)[i] != '%' && hex(n)[i] != ']' by {
            if i < hex(n / 16).len() {
                assert(hex(n)[i] == hex(n / 16)[i]);
            }
        }
    }
}

/// A group is read back from its hexadecimal numeral.
proof fn lemma_group_reads_back(n: u16)
    ensures
        group(hex(n as nat)) == Some(n),
{
    lemma_hex_reads_back(n as nat);
    reveal_with_fuel(hex, 5);
    assert(hex(n as nat).len() <= 4);
}

/// The numerals of groups.
spec fn numerals(g: Seq<u16>) -> Seq<Seq<char>> {
    g.map_values(|n: u16| hex(n as nat))
}

/// Groups with colons between them are their numerals joined.
proof fn lemma_groups_text_is_joined(g: Seq<u16>)
    ensures
        groups_text(g) == join(numerals(g), seq![':']),
    decreases g.len(),
{
    reveal_strlit(":");
    assert(":"@ =~= seq![':']);
    if g.len() > 1 {
        lemma_groups_text_is_joined(g.drop_last());
        assert(numerals(g).drop_last() =~= numerals(g.drop_last()));
    }
}

/// Groups are read back from their numerals.
proof fn lemma_plain_groups_read_back(g: Seq<u16>)
    ensures
        plain_groups(numerals(g)) == Some(g),
    decreases g.len(),
{
    if g.len() > 0 {
        lemma_plain_groups_read_back(g.drop_last());
        lemma_group_reads_back(g.last());
        assert(numerals(g).drop_last() =~= numerals(g.drop_last()));
        assert(numerals(g).last() == hex(g.last() as nat));
        assert(g.drop_last().push(g.last()) =~= g);
    } else {
        assert(g =~= Seq::empty());
    }
}

/// What groups with colons between them look like: no dot, no two colons in a
/// row, and no colon at either end.
proof fn lemma_groups_text_shape(g: Seq<u16>)
    ensures
        g.len() > 0 <==> groups_text(g).len() > 0,
        forall|i: int|
            0 <= i < groups_text(g).len() ==> #[trigger] groups_text(g)[i] != '.' && groups_text(g)[i] != '%'
                && groups_text(g)[i] != ']',
        forall|i: int|
            0 <= i && i + 1 < groups_text(g).len() ==> !(groups_text(g)[i] == ':' && #[trigger] groups_text(g)[i + 1]
                == ':'),
        g.len() > 0 ==> groups_text(g)[0] != ':' && groups_text(g).last() != ':',
    decreases g.len(),
{
    reveal_strlit(":");
    assert(":"@ =~= seq![':']);
    if g.len() == 1 {
        lemma_hex_reads_back(g[0] as nat);
    } else if g.len() > 1 {
        let front = groups_text(g.drop_last());
        let back = hex(g.last() as nat);
        lemma_groups_text_shape(g.drop_last());
        lemma_hex_reads_back(g.last() as nat);
        let t = groups_text(g);
        assert(t == front + seq![':'] + back);
        assert(t[0] == front[0]);
        assert(t.last() == back.last());
        assert forall|i: int| 0 <= i < t.len() implies #[trigger] t[i] != '.' && t[i] != '%' && t[i] != ']' by {
            if i < front.len() {
                assert(t[i] == front[i]);
            } else if i > front.len() {
                assert(t[i] == back[i - front.len() - 1]);
            }
        }
        assert forall|i: int| 0 <= i && i + 1 < t.len() implies !(t[i] == ':' && #[trigger] t[i + 1] == ':') by {
            if i + 1 < front.len() {
                assert(t[i] == front[i] && t[i + 1] == front[i + 1]);
            } else if i + 1 == front.len() {
                assert(t[i] == front.last());
            } else {
                assert(t[i + 1] == back[i - front.len()]);
            }
        }
    }
}

/// A text without a dot is no dotted quad.
proof fn lemma_no_dot_no_quad(s: Seq<char>)
    requires
        forall|i: int| 0 <= i < s.len() ==> #[trigger] s[i] != '.',
    ensures
        parse_ipv4(s) is None,
{
    lemma_first_at(s, '.', s.len() as int);
}

/// Groups on one side are read back.
proof fn lemma_side_reads_back(g: Seq<u16>, dotted: bool)
    ensures
        side_groups(groups_text(g), dotted) == Some(g),
{
    let s = groups_text(g);
    lemma_groups_text_shape(g);
    if g.len() == 0 {
        assert(g =~= Seq::empty());
    } else {
        let n = numerals(g);
        lemma_groups_text_is_joined(g);
        assert forall|i: int| 0 <= i < n.len() implies !(#[trigger] n[i]).contains(':') by {
            lemma_hex_reads_back(g[i] as nat);
        }
        lemma_split_join(n, ':');
        lemma_plain_groups_read_back(g);
        lemma_hex_reads_back(g.last() as nat);
        assert(n.last() == hex(g.last() as nat));
        lemma_no_dot_no_quad(n.last());
    }
}

/// A run is of zeros.
proof fn lemma_run_is_zero(g: Seq<u16>, i: int)
    requires
        0 <= i <= g.len(),
    ensures
        forall|j: int| i <= j < i + run_len(g, i) ==> #[trigger] g[j] == 0,
    decreases g.len() - i,
{
    if i < g.len() && g[i] == 0 {
        lemma_run_is_zero(g, i + 1);
    }
}

/// An IPv6 address that is not an IPv4-mapped one is read back from its text.
proof fn lemma_ipv6_groups_read_back(ip: Ipv6Addr)
    requires
        !is_mapped(ip),
    ensures
        ipv6_groups(ipv6_text(ip)) == Some(ip.groups()),
        forall|i: int|
            0 <= i < ipv6_text(ip).len() ==> #[trigger] ipv6_text(ip)[i] != '.' && ipv6_text(ip)[i] != '%'
                && ipv6_text(ip)[i] != ']',
{
    let g = ip.groups();
    let start = longest_run(g, 8);
    let len = run_len(g, start);
    let s = ipv6_text(ip);
    lemma_longest_run(g, 8);
    lemma_run_len(g, start);
    lemma_run_is_zero(g, start);
    reveal_strlit("::");
    if len > 1 {
        let head = g.take(start);
        let tail = g.skip(start + len);
        let a = groups_text(head);
        let b = groups_text(tail);
        lemma_groups_text_shape(head);
        lemma_groups_text_shape(tail);
        assert("::"@ =~= seq![':', ':']);
        assert(s == a + seq![':', ':'] + b);
        assert forall|j: int| 0 <= j < a.len() && j + 1 < s.len() implies !(s[j] == ':' && #[trigger] s[j + 1] == ':') by {
            if j + 1 < a.len() {
                assert(s[j] == a[j] && s[j + 1] == a[j + 1]);
            } else {
                assert(s[j] == a.last());
            }
        }
        lemma_gap_at(s, a.len() as int);
        assert(s.take(a.len() as int) =~= a);
        assert(s.skip(a.len() as int + 2) =~= b);
        lemma_side_reads_back(head, false);
        lemma_side_reads_back(tail, true);
        let zeros = Seq::new((8 - head.len() - tail.len()) as nat, |k: int| 0u16);
        assert(head + zeros + tail =~= g);
        assert forall|i: int| 0 <= i < s.len() implies #[trigger] s[i] != '.' && s[i] != '%' && s[i] != ']' by {
            if i < a.len() {
                assert(s[i] == a[i]);
            } else if i >= a.len() + 2 {
                assert(s[i] == b[i - a.len() - 2]);
            }
        }
    } else {
        lemma_groups_text_shape(g);
        lemma_gap_at(s, s.len() as int);
        lemma_side_reads_back(g, true);
    }
}

/// A text that starts with a colon is no dotted quad.
proof fn lemma_colon_first_no_quad(s: Seq<char>)
    requires
        s.len() > 0,
        s[0] == ':',
    ensures
        parse_ipv4(s) is None,
{
    lemma_first_at_bounds(s, '.');
    let i = first_at(s, '.');
    let p = split(s, '.');
    if i < s.len() {
        assert(i > 0);
        assert(p[0] == s.take(i));
        assert(p[0][0] == ':');
        assert(!is_digit(p[0][0]));
    }
}

/// An IPv4-mapped address is read back from its text.
proof fn lemma_mapped_reads_back(ip: Ipv6Addr)
    requires
        is_mapped(ip),
    ensures
        ipv6_groups(ipv6_text(ip)) == Some(ip.groups()),
        parse_ipv4(ipv6_text(ip)) is None,
        forall|i: int| 0 <= i < ipv6_text(ip).len() ==> #[trigger] ipv6_text(ip)[i] != '%' && ipv6_text(ip)[i] != ']',
{
    let v4 = Ipv4Addr {
        a: (ip.g6 / 256) as u8,
        b: (ip.g6 % 256) as u8,
        c: (ip.g7 / 256) as u8,
        d: (ip.g7 % 256) as u8,
    };
    let v = ipv4_text(v4);
    let s = ipv6_text(ip);
    lemma_ipv4_reads_back(v4);
    reveal_strlit("::ffff:");
    assert("::ffff:"@ =~= seq![':', ':', 'f', 'f', 'f', 'f', ':']);
    assert(s[0] == ':' && s[1] == ':');
    lemma_gap_at(s, 0);
    lemma_colon_first_no_quad(s);
    let f = hex(0xffff);
    assert(f =~= seq!['f', 'f', 'f', 'f']) by {
        reveal_with_fuel(hex, 5);
    }
    let u = s.skip(2);
    assert(s.take(0) =~= Seq::empty());
    let parts = seq![f, v];
    lemma_hex_reads_back(0xffff);
    assert(parts.drop_last() =~= seq![f]);
    assert(join(seq![f], seq![':']) == f);
    assert(u =~= f + seq![':'] + v);
    assert(join(parts, seq![':']) == u);
    assert(!f.contains(':'));
    lemma_split_join(parts, ':');
    assert(numerals(seq![0xffffu16]) =~= seq![f]);
    lemma_plain_groups_read_back(seq![0xffffu16]);
    let tail = side_groups(u, true)->0;
    assert(tail == seq![0xffffu16] + seq![ip.g6, ip.g7]);
    let zeros = Seq::new(5, |k: int| 0u16);
    assert(ipv6_groups(s)->0 =~= ip.groups());
    assert forall|i: int| 0 <= i < s.len() implies #[trigger] s[i] != '%' && s[i] != ']' by {
        if i >= 7 {
            assert(s[i] == v[i - 7]);
            lemma_quad_characters(v4, i - 7);
        }
    }
}

/// A dotted quad is of digits and dots.
proof fn lemma_quad_characters(ip: Ipv4Addr, i: int)
    requires
        0 <= i < ipv4_text(ip).len(),
    ensures
        is_digit(ipv4_text(ip)[i]) || ipv4_text(ip)[i] == '.',
{
    reveal_strlit(".");
    lemma_dec_reads_back(ip.a as nat);
    lemma_dec_reads_back(ip.b as nat);
    lemma_dec_reads_back(ip.c as nat);
    lemma_dec_reads_back(ip.d as nat);
    let t = ipv4_text(ip);
    let (a, b, c, d) = (dec(ip.a as nat), dec(ip.b as nat), dec(ip.c as nat), dec(ip.d as nat));
    if i < a.len() {
        assert(t[i] == a[i]);
    } else if i == a.len() {
    } else if i < a.len() + 1 + b.len() {
        assert(t[i] == b[i - a.len() - 1]);
    } else if i == a.len() + 1 + b.len() {
    } else if i < a.len() + b.len() + 2 + c.len() {
        assert(t[i] == c[i - a.len() - b.len() - 2]);
    } else if i == a.len() + b.len() + 2 + c.len() {
    } else {
        assert(t[i] == d[i - a.len() - b.len() - c.len() - 3]);
    }
}

/// The text of an address names that address: it is read back from it, in either
/// family.
pub proof fn lemma_address_reads_back(ip: IpAddr)
    ensures
        parse_ip(ip.text()) == Some(ip),
{
    match ip {
        IpAddr::V4(v4) => lemma_ipv4_reads_back(v4),
        IpAddr::V6(v6) => {
            if is_mapped(v6) {
                lemma_mapped_reads_back(v6);
            } else {
                lemma_ipv6_groups_read_back(v6);
                lemma_no_dot_no_quad(ipv6_text(v6));
            }
            lemma_groups_injective(v6, ipv6_of(v6.groups()));
        },
    }
}

/// What stands between the brackets of a destination.
spec fn scoped_text(ip: Ipv6Addr, scope_id: u32) -> Seq<char> {
    if scope_id == 0 {
        ipv6_text(ip)
    } else {
        ipv6_text(ip) + seq!['%'] + dec(scope_id as nat)
    }
}

/// An address with a scope is read back.
proof fn lemma_scoped_reads_back(ip: Ipv6Addr, scope_id: u32)
    ensures
        parse_scoped(scoped_text(ip, scope_id)) == Some((ip, scope_id)),
        forall|j: int| 0 <= j < scoped_text(ip, scope_id).len() ==> #[trigger] scoped_text(ip, scope_id)[j] != ']',
{
    let a = ipv6_text(ip);
    let scope = dec(scope_id as nat);
    let inner = scoped_text(ip, scope_id);
    lemma_dec_reads_back(scope_id as nat);
    if is_mapped(ip) {
        lemma_mapped_reads_back(ip);
    } else {
        lemma_ipv6_groups_read_back(ip);
    }
    lemma_groups_injective(ip, ipv6_of(ip.groups()));
    assert(parse_ipv6(a) == Some(ip));
    assert forall|j: int| 0 <= j < inner.len() implies #[trigger] inner[j] != ']' by {
        if j < a.len() {
            assert(inner[j] == a[j]);
        } else if j > a.len() {
            assert(inner[j] == scope[j - a.len() - 1]);
        }
    }
    if scope_id == 0 {
        lemma_first_at(inner, '%', inner.len() as int);
    } else {
        assert forall|j: int| 0 <= j < a.len() implies inner[j] != '%' by {
            assert(inner[j] == a[j]);
        }
        lemma_first_at(inner, '%', a.len() as int);
        assert(inner.take(a.len() as int) =~= a);
        assert(inner.skip(a.len() as int + 1) =~= scope);
    }
}

/// An IPv4 destination is read back.
proof fn lemma_v4_destination_reads_back(v4: Ipv4Addr, port: u16)
    ensures
        parse_v4_socket(ipv4_text(v4) + seq![':'] + dec(port as nat)) == Some(
            SocketAddr { ip: IpAddr::V4(v4), port, scope_id: 0 },
        ),
{
    let a = ipv4_text(v4);
    let digits = dec(port as nat);
    let s = a + seq![':'] + digits;
    lemma_dec_reads_back(port as nat);
    lemma_ipv4_reads_back(v4);
    assert forall|j: int| 0 <= j < a.len() implies s[j] != ':' by {
        if a[j] == ':' {
            assert(a.contains(':'));
        }
    }
    lemma_first_at(s, ':', a.len() as int);
    assert(s.take(a.len() as int) =~= a);
    assert(s.skip(a.len() as int + 1) =~= digits);
}

/// An IPv6 destination is read back.
proof fn lemma_v6_destination_reads_back(ip: Ipv6Addr, port: u16, scope_id: u32)
    ensures
        parse_socket(seq!['['] + scoped_text(ip, scope_id) + seq![']', ':'] + dec(port as nat)) == Some(
            SocketAddr { ip: IpAddr::V6(ip), port, scope_id },
        ),
{
    let inner = scoped_text(ip, scope_id);
    let digits = dec(port as nat);
    let s = seq!['['] + inner + seq![']', ':'] + digits;
    lemma_dec_reads_back(port as nat);
    lemma_scoped_reads_back(ip, scope_id);
    assert forall|j: int| 0 <= j < inner.len() + 1 implies s[j] != ']' by {
        if j > 0 {
            assert(s[j] == inner[j - 1]);
        }
    }
    lemma_first_at(s, ']', inner.len() as int + 1);
    assert(s.subrange(1, inner.len() as int + 1) =~= inner);
    assert(s.skip(inner.len() as int + 3) =~= digits);
    assert(parse_v6_socket(s) == Some(SocketAddr { ip: IpAddr::V6(ip), port, scope_id }));
    lemma_first_at_bounds(s, ':');
    let i = first_at(s, ':');
    assert(s[0] == '[');
    if i < s.len() {
        assert(i > 0);
        assert(s.take(i)[0] == '[');
        lemma_bracket_first_no_quad(s.take(i));
    }
    assert(parse_v4_socket(s) is None);
}

/// The text of a destination names that destination: address, scope and port are
/// read back from it.
pub proof fn lemma_destination_reads_back(d: SocketAddr)
    requires
        d.ip is V4 ==> d.scope_id == 0,
    ensures
        parse_socket(d.text()) == Some(d),
{
    let digits = dec(d.port as nat);
    reveal_strlit(":");
    reveal_strlit("[");
    reveal_strlit("]:");
    reveal_strlit("%");
    match d.ip {
        IpAddr::V4(v4) => {
            lemma_v4_destination_reads_back(v4, d.port);
            assert(d.text() =~= ipv4_text(v4) + seq![':'] + digits);
        },
        IpAddr::V6(v6) => {
            lemma_v6_destination_reads_back(v6, d.port, d.scope_id);
            assert(d.text() =~= seq!['['] + scoped_text(v6, d.scope_id) + seq![']', ':'] + digits);
        },
    }
}

/// A text that starts with a bracket is no dotted quad.
proof fn lemma_bracket_first_no_quad(s: Seq<char>)
    requires
        s.len() > 0,
        s[0] == '[',
    ensures
        parse_ipv4(s) is None,
{
    lemma_first_at_bounds(s, '.');
    let i = first_at(s, '.');
    let p = split(s, '.');
    if i < s.len() {
        assert(i > 0);
        assert(p[0] == s.take(i));
        assert(p[0][0] == '[');
        assert(!is_digit(p[0][0]));
    }
}

// --- canonical text ----------------------------------------------------------------------

/// A run of zero groups: it holds zeros only, and goes on as far as there are any.
proof fn lemma_run(g: Seq<u16>, i: int, b: int)
    requires
        0 <= i <= b <= g.len(),
    ensures
        i + run_len(g, i) <= g.len(),
        forall|k: int| i <= k < i + run_len(g, i) ==> g[k] == 0,
        (forall|k: int| i <= k < b ==> g[k] == 0) ==> run_len(g, i) >= b - i,
    decreases g.len() - i,
{
    if i < g.len() && g[i] == 0 {
        lemma_run(
            g,
            i + 1,
            if b > i {
                b
            } else {
                i + 1
            },
        );
    } else if i < b {
        assert(g[i] != 0);
    }
}

/// Among the first positions, none starts a longer run, and none before it starts
/// one as long.
proof fn lemma_first_longest_run(g: Seq<u16>, n: int)
    requires
        1 <= n <= g.len(),
    ensures
        0 <= longest_run(g, n) < n,
        forall|i: int| 0 <= i < n ==> #[trigger] run_len(g, i) <= run_len(g, longest_run(g, n)),
        forall|i: int| 0 <= i < longest_run(g, n) ==> #[trigger] run_len(g, i) < run_len(g, longest_run(g, n)),
    decreases n,
{
    if n > 1 {
        lemma_first_longest_run(g, n - 1);
    }
}

/// The text of an IPv6 address leaves out the longest row of zero groups, the first
/// of them where several are as long, and only where it has two groups or more.
pub proof fn lemma_longest_row_of_zeros_is_left_out(ip: Ipv6Addr)
    requires
        !(ip.g0 == 0 && ip.g1 == 0 && ip.g2 == 0 && ip.g3 == 0 && ip.g4 == 0 && ip.g5 == 0xffff),
    ensures
        exists|from: int, to: int|
            0 <= from <= to <= 8 && (forall|k: int| from <= k < to ==> ip.groups()[k] == 0) && (forall|a: int, b: int|
                0 <= a < b <= 8 && #[trigger] all_zero(ip.groups(), a, b) ==> b - a <= to - from && (b - a == to - from
                    ==> from <= a)) && ipv6_text(ip) == (if to - from >= 2 {
                #[trigger] groups_text(ip.groups().take(from)) + "::"@ + #[trigger] groups_text(ip.groups().skip(to))
            } else {
                groups_text(ip.groups())
            }),
{
    let g = ip.groups();
    assert(g.len() == 8);
    let from = longest_run(g, 8);
    let to = from + run_len(g, from);
    lemma_first_longest_run(g, 8);
    lemma_run(g, from, from);
    assert forall|a: int, b: int| 0 <= a < b <= 8 && #[trigger] all_zero(g, a, b) implies b - a <= to - from && (b - a
        == to - from ==> from <= a) by {
        lemma_run(g, a, b);
        assert(run_len(g, a) <= run_len(g, from));
    }
    let left = groups_text(g.take(from));
    let right = groups_text(g.skip(to));
    assert(!is_mapped(ip));
}

/// Whether the groups from one position to another are zero.
pub open spec fn all_zero(g: Seq<u16>, from: int, to: int) -> bool {
    forall|k: int| from <= k < to ==> g[k] == 0
}

/// Whether a text holds no capital letter.
pub open spec fn no_capitals(s: Seq<char>) -> bool {
    forall|i: int| 0 <= i < s.len() ==> !('A' <= #[trigger] s[i] && s[i] <= 'Z')
}

/// A hexadecimal numeral is in lower case and has no leading zero.
pub proof fn lemma_hex_is_lower_case(n: nat)
    ensures
        no_capitals(hex(n)),
        hex(n).len() > 0,
        hex(n)[0] == '0' ==> n == 0,
    decreases n,
{
    if n >= 16 {
        lemma_hex_is_lower_case(n / 16);
    }
}

/// Groups are written in lower case.
proof fn lemma_groups_are_lower_case(g: Seq<u16>)
    ensures
        no_capitals(groups_text(g)),
    decreases g.len(),
{
    reveal_strlit(":");
    if g.len() == 1 {
        lemma_hex_is_lower_case(g[0] as nat);
    } else if g.len() > 1 {
        lemma_groups_are_lower_case(g.drop_last());
        lemma_hex_is_lower_case(g.last() as nat);
    }
}

/// Addresses are written in lower case.
pub proof fn lemma_address_is_lower_case(ip: IpAddr)
    ensures
        no_capitals(ip.text()),
{
    reveal_strlit("::ffff:");
    reveal_strlit("::");
    reveal_strlit(".");
    match ip {
        IpAddr::V4(v4) => lemma_octets_are_lower_case(v4),
        IpAddr::V6(v6) => {
            let g = v6.groups();
            let from = longest_run(g, 8);
            lemma_groups_are_lower_case(g);
            lemma_groups_are_lower_case(g.take(from));
            lemma_groups_are_lower_case(g.skip((from + run_len(g, from)) as int));
            lemma_octets_are_lower_case(
                Ipv4Addr {
                    a: (v6.g6 / 256) as u8,
                    b: (v6.g6 % 256) as u8,
                    c: (v6.g7 / 256) as u8,
                    d: (v6.g7 % 256) as u8,
                },
            );
        },
    }
}

/// Octets are written in digits and dots.
proof fn lemma_octets_are_lower_case(ip: Ipv4Addr)
    ensures
        no_capitals(ipv4_text(ip)),
{
    reveal_strlit(".");
    lemma_dec_reads_back(ip.a as nat);
    lemma_dec_reads_back(ip.b as nat);
    lemma_dec_reads_back(ip.c as nat);
    lemma_dec_reads_back(ip.d as nat);
}

} // verus!
