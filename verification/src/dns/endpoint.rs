//! Encrypted-DNS endpoints: DNS-over-HTTPS (RFC 8484) URLs and DNS-over-TLS
//! (RFC 7858) authorities, and the base64url encoding of a query.

use crate::net::{parse_ip, IpAddr};
use crate::text::{
    chars_of, debug_text, dec, find_char, first_at, has_prefix, last_at, lemma_dec_reads_back, lemma_first_at,
    lemma_first_at_bounds, lemma_last_at, lemma_last_at_bounds, lemma_numeral_parses, parse_number, parse_unsigned,
    quoted, rfind_char, slice_of, starts_with, string_of,
};
use vstd::prelude::*;

verus! {

/// The name of a response code (RFC 1035 §4.1.1).
pub open spec fn rcode_text(rcode: u8) -> Seq<char> {
    match rcode {
        0 => "NoError"@,
        1 => "FormErr"@,
        2 => "ServFail"@,
        3 => "NXDomain"@,
        4 => "NotImp"@,
        5 => "Refused"@,
        9 => "NotAuth"@,
        _ => "UnknownError"@,
    }
}

/// Human-readable name for a common DNS response code (RFC 1035 §4.1.1).
pub fn rcode_name(rcode: u8) -> (out: &'static str)
    ensures
        out@ == rcode_text(rcode),
{
    match rcode {
        0 => "NoError",
        1 => "FormErr",
        2 => "ServFail",
        3 => "NXDomain",
        4 => "NotImp",
        5 => "Refused",
        9 => "NotAuth",
        _ => "UnknownError",
    }
}

/// The port a text denotes.
pub open spec fn port_of(s: Seq<char>) -> Option<u16> {
    match parse_number(s, 0xFFFF) {
        Some(n) => Some(n as u16),
        None => None,
    }
}

/// Parse a port.
pub fn parse_port_chars(s: &[char]) -> (r: Option<u16>)
    ensures
        r == port_of(s@),
{
    match parse_unsigned(s, 0xFFFF) {
        Some(n) => Some(n as u16),
        None => None,
    }
}

/// The host and port of the text behind a `[`: the address up to `]`, and a
/// port behind a colon or `default`. The error says what is wrong.
pub open spec fn bracketed(rest: Seq<char>, default: u16) -> Result<(Seq<char>, u16), Seq<char>> {
    let i = first_at(rest, ']');
    let tail = rest.skip(i + 1);
    if i >= rest.len() {
        Err(" has an unterminated '['"@)
    } else if tail.len() == 0 {
        Ok((rest.take(i), default))
    } else if tail[0] != ':' {
        Err(" has a malformed bracket authority"@)
    } else {
        match port_of(tail.skip(1)) {
            Some(port) => Ok((rest.take(i), port)),
            None => Err(" has a non-numeric port"@),
        }
    }
}

/// The host and port of an authority: `[addr]`, `[addr]:port`, `host:port` or
/// `host`. The error says what is wrong.
pub open spec fn authority(s: Seq<char>, default: u16) -> Result<(Seq<char>, u16), Seq<char>> {
    let i = last_at(s, ':');
    let split = if s.len() > 0 && s[0] == '[' {
        bracketed(s.skip(1), default)
    } else if first_at(s, ':') < i {
        Err(" has an unbracketed IPv6 authority (use [addr]:port)"@)
    } else if i >= 0 {
        match port_of(s.skip(i + 1)) {
            Some(port) => Ok((s.take(i), port)),
            None => Err(" has a non-numeric port"@),
        }
    } else {
        Ok((s, default))
    };
    match split {
        Ok((host, port)) => if host.len() == 0 {
            Err(" has an empty host"@)
        } else {
            Ok((host, port))
        },
        Err(e) => Err(e),
    }
}

/// A complaint about an endpoint: which kind, the endpoint, what is wrong.
pub open spec fn complaint(kind: Seq<char>, endpoint: Seq<char>, what: Seq<char>) -> Seq<char> {
    kind + " endpoint "@ + quoted(endpoint) + what
}

/// A complaint about an endpoint.
fn complain(kind: &str, endpoint: &str, what: &str) -> (out: String)
    ensures
        out@ == complaint(kind@, endpoint@, what@),
{
    let mut out = kind.to_owned();
    out.append(" endpoint ");
    out.append(debug_text(endpoint).as_str());
    out.append(what);
    out
}

/// Split the text behind a `[`.
fn split_bracketed(rest: &[char], default: u16) -> (r: Result<(Vec<char>, u16), &'static str>)
    ensures
        r matches Ok((host, port)) ==> bracketed(rest@, default) == Ok::<(Seq<char>, u16), Seq<char>>((host@, port)),
        r matches Err(e) ==> bracketed(rest@, default) == Err::<(Seq<char>, u16), Seq<char>>(e@),
{
    match find_char(rest, ']') {
        None => Err(" has an unterminated '['"),
        Some(i) => {
            let host = slice_of(rest, 0, i);
            assert(host@ =~= rest@.take(i as int));
            let tail = slice_of(rest, i + 1, rest.len());
            assert(tail@ =~= rest@.skip(i as int + 1));
            if tail.len() == 0 {
                return Ok((host, default));
            }
            if tail[0] != ':' {
                return Err(" has a malformed bracket authority");
            }
            let digits = slice_of(tail.as_slice(), 1, tail.len());
            assert(digits@ =~= tail@.skip(1));
            match parse_port_chars(digits.as_slice()) {
                Some(port) => Ok((host, port)),
                None => Err(" has a non-numeric port"),
            }
        },
    }
}

/// Split an authority into host and port.
fn split_authority(s: &[char], default: u16) -> (r: Result<(String, u16), &'static str>)
    ensures
        r matches Ok((host, port)) ==> authority(s@, default) == Ok::<(Seq<char>, u16), Seq<char>>((host@, port)),
        r matches Err(e) ==> authority(s@, default) == Err::<(Seq<char>, u16), Seq<char>>(e@),
{
    proof {
        lemma_first_at_bounds(s@, ':');
        lemma_last_at_bounds(s@, ':');
    }
    let (host, port) = if s.len() > 0 && s[0] == '[' {
        let rest = slice_of(s, 1, s.len());
        assert(rest@ =~= s@.skip(1));
        match split_bracketed(rest.as_slice(), default) {
            Ok(pair) => pair,
            Err(e) => return Err(e),
        }
    } else {
        match (find_char(s, ':'), rfind_char(s, ':')) {
            (Some(first), Some(last)) => {
                if first < last {
                    return Err(" has an unbracketed IPv6 authority (use [addr]:port)");
                }
                let host = slice_of(s, 0, last);
                let digits = slice_of(s, last + 1, s.len());
                assert(host@ =~= s@.take(last as int));
                assert(digits@ =~= s@.skip(last as int + 1));
                match parse_port_chars(digits.as_slice()) {
                    Some(port) => (host, port),
                    None => return Err(" has a non-numeric port"),
                }
            },
            _ => {
                let host = slice_of(s, 0, s.len());
                assert(host@ =~= s@);
                (host, default)
            },
        }
    };
    if host.len() == 0 {
        return Err(" has an empty host");
    }
    Ok((string_of(host.as_slice()), port))
}

/// Where a path ends: at the first `?` or `#`, else at its end.
pub open spec fn path_end(path: Seq<char>) -> int {
    let q = first_at(path, '?');
    let h = first_at(path, '#');
    if q < h {
        q
    } else {
        h
    }
}

/// The host, port and path of a DNS-over-HTTPS endpoint.
pub open spec fn doh_endpoint(url: Seq<char>) -> Result<(Seq<char>, u16, Seq<char>), Seq<char>> {
    if !has_prefix(url, "https://"@) {
        Err(complaint("DoH"@, url, " must be an https:// URL"@))
    } else {
        let rest = url.skip("https://"@.len() as int);
        let i = first_at(rest, '/');
        let path = if i < rest.len() {
            rest.skip(i)
        } else {
            "/dns-query"@
        };
        if i == 0 {
            Err(complaint("DoH"@, url, " has an empty authority"@))
        } else {
            match authority(rest.take(i), 443) {
                Ok((host, port)) => Ok((host, port, path.take(path_end(path)))),
                Err(what) => Err(complaint("DoH"@, url, what)),
            }
        }
    }
}

/// Split an `https://host[:port]/path` endpoint URL into its components (port
/// defaults to 443, path to `/dns-query`). A query string or fragment is not
/// part of the path.
pub fn parse_doh_url(url: &str) -> (r: Result<(String, u16, String), String>)
    ensures
        r matches Ok((host, port, path)) ==> doh_endpoint(url@) == Ok::<(Seq<char>, u16, Seq<char>), Seq<char>>(
            (host@, port, path@),
        ),
        r matches Err(e) ==> doh_endpoint(url@) == Err::<(Seq<char>, u16, Seq<char>), Seq<char>>(e@),
{
    let chars = chars_of(url);
    if !starts_with(chars.as_slice(), "https://") {
        return Err(complain("DoH", url, " must be an https:// URL"));
    }
    let scheme_len = "https://".unicode_len();
    let rest = slice_of(chars.as_slice(), scheme_len, chars.len());
    let ghost all = url@.skip("https://"@.len() as int);
    assert(rest@ =~= all);
    proof {
        lemma_first_at_bounds(all, '/');
    }
    let (end, path) = match find_char(rest.as_slice(), '/') {
        Some(i) => {
            let path = slice_of(rest.as_slice(), i, rest.len());
            assert(path@ =~= all.skip(i as int));
            (i, path)
        },
        None => (rest.len(), chars_of("/dns-query")),
    };
    if end == 0 {
        return Err(complain("DoH", url, " has an empty authority"));
    }
    let host_port = slice_of(rest.as_slice(), 0, end);
    assert(host_port@ =~= all.take(first_at(all, '/')));
    let (host, port) = match split_authority(host_port.as_slice(), 443) {
        Ok(pair) => pair,
        Err(what) => return Err(complain("DoH", url, what)),
    };
    proof {
        lemma_first_at_bounds(path@, '?');
        lemma_first_at_bounds(path@, '#');
    }
    let query: usize = match find_char(path.as_slice(), '?') {
        Some(i) => i,
        None => path.len(),
    };
    let fragment: usize = match find_char(path.as_slice(), '#') {
        Some(i) => i,
        None => path.len(),
    };
    let stop: usize = if query < fragment {
        query
    } else {
        fragment
    };
    let base = slice_of(path.as_slice(), 0, stop);
    assert(base@ =~= path@.take(path_end(path@)));
    Ok((host, port, string_of(base.as_slice())))
}

/// The host and port of a DNS-over-TLS endpoint.
pub open spec fn dot_endpoint(endpoint: Seq<char>) -> Result<(Seq<char>, u16), Seq<char>> {
    if endpoint.len() == 0 {
        Err("DoT endpoint must not be empty"@)
    } else {
        match authority(endpoint, 853) {
            Ok(pair) => Ok(pair),
            Err(what) => Err(complaint("DoT"@, endpoint, what)),
        }
    }
}

/// Split a `host[:port]` `DoT` endpoint into (host, port), defaulting the port
/// to 853 (RFC 7858). Bracketed IPv6 and host:port forms are accepted.
pub fn parse_dot_endpoint(endpoint: &str) -> (r: Result<(String, u16), String>)
    ensures
        r matches Ok((host, port)) ==> dot_endpoint(endpoint@) == Ok::<(Seq<char>, u16), Seq<char>>((host@, port)),
        r matches Err(e) ==> dot_endpoint(endpoint@) == Err::<(Seq<char>, u16), Seq<char>>(e@),
{
    let chars = chars_of(endpoint);
    if chars.len() == 0 {
        return Err("DoT endpoint must not be empty".to_owned());
    }
    match split_authority(chars.as_slice(), 853) {
        Ok(pair) => Ok(pair),
        Err(what) => Err(complain("DoT", endpoint, what)),
    }
}

/// The address to connect to for an endpoint host: the host itself when it is
/// an address, else the first IPv4 answer, else the first IPv6 answer.
pub open spec fn endpoint_target(host: Seq<char>, v4: Seq<IpAddr>, v6: Seq<IpAddr>) -> Option<IpAddr> {
    if parse_ip(host) is Some {
        parse_ip(host)
    } else if v4.len() > 0 {
        Some(v4[0])
    } else if v6.len() > 0 {
        Some(v6[0])
    } else {
        None
    }
}

/// Choose the address to connect to for an encrypted-DNS endpoint's hostname
/// among the addresses that its IPv4 and IPv6 lookups answered (IPv4 first).
/// An address literal passes through unchanged.
pub fn endpoint_address(host: &str, v4: &[IpAddr], v6: &[IpAddr]) -> (r: Result<IpAddr, String>)
    ensures
        r matches Ok(ip) ==> endpoint_target(host@, v4@, v6@) == Some(ip),
        r matches Err(e) ==> endpoint_target(host@, v4@, v6@) is None && e@ == "could not resolve DNS endpoint host "@
            + quoted(host@) + " via the system resolver"@,
{
    match IpAddr::parse(host) {
        Some(ip) => return Ok(ip),
        None => {},
    }
    if v4.len() > 0 {
        return Ok(v4[0]);
    }
    if v6.len() > 0 {
        return Ok(v6[0]);
    }
    let mut e = "could not resolve DNS endpoint host ".to_owned();
    e.append(debug_text(host).as_str());
    e.append(" via the system resolver");
    Err(e)
}

// --- base64url ----------------------------------------------------------------------

/// The character of a 6-bit value in the URL-safe alphabet.
pub open spec fn base64_char(v: int) -> char {
    if v < 26 {
        ('A' as int + v) as char
    } else if v < 52 {
        ('a' as int + v - 26) as char
    } else if v < 62 {
        ('0' as int + v - 52) as char
    } else if v == 62 {
        '-'
    } else {
        '_'
    }
}

/// The unpadded base64url text of bytes: four characters for every three
/// bytes, two or three for a last group of one or two.
pub open spec fn base64_text(b: Seq<u8>) -> Seq<char>
    decreases b.len(),
{
    if b.len() == 0 {
        Seq::empty()
    } else if b.len() == 1 {
        seq![base64_char(b[0] as int / 4), base64_char((b[0] as int % 4) * 16)]
    } else if b.len() == 2 {
        seq![
            base64_char(b[0] as int / 4),
            base64_char((b[0] as int % 4) * 16 + b[1] as int / 16),
            base64_char((b[1] as int % 16) * 4),
        ]
    } else {
        seq![
            base64_char(b[0] as int / 4),
            base64_char((b[0] as int % 4) * 16 + b[1] as int / 16),
            base64_char((b[1] as int % 16) * 4 + b[2] as int / 64),
            base64_char(b[2] as int % 64),
        ] + base64_text(b.skip(3))
    }
}

/// The character of a 6-bit value in the URL-safe alphabet.
fn sextet(v: u8) -> (c: char)
    requires
        v < 64,
    ensures
        c == base64_char(v as int),
{
    if v < 26 {
        (65 + v) as char
    } else if v < 52 {
        (97 + (v - 26)) as char
    } else if v < 62 {
        (48 + (v - 52)) as char
    } else if v == 62 {
        '-'
    } else {
        '_'
    }
}

/// RFC 4648 §5 base64url encoding without padding (as required by RFC 8484).
pub fn base64url(bytes: &[u8]) -> (out: String)
    ensures
        out@ == base64_text(bytes@),
{
    let mut out = String::new();
    let mut i: usize = 0;
    assert(bytes@.skip(0) =~= bytes@);
    assert(out@ + base64_text(bytes@) =~= base64_text(bytes@));
    while bytes.len() - i >= 3
        invariant
            i <= bytes.len(),
            out@ + base64_text(bytes@.skip(i as int)) == base64_text(bytes@),
        decreases bytes.len() - i,
    {
        let (b0, b1, b2) = (bytes[i], bytes[i + 1], bytes[i + 2]);
        let ghost rest = bytes@.skip(i as int);
        let ghost before = out@;
        out.push(sextet(b0 / 4));
        out.push(sextet((b0 % 4) * 16 + b1 / 16));
        out.push(sextet((b1 % 16) * 4 + b2 / 64));
        out.push(sextet(b2 % 64));
        assert(rest.skip(3) =~= bytes@.skip(i as int + 3));
        assert(before + base64_text(rest) =~= out@ + base64_text(rest.skip(3)));
        i = i + 3;
    }
    let left: usize = bytes.len() - i;
    let ghost before = out@;
    let ghost rest = bytes@.skip(i as int);
    if left == 1 {
        let b0: u8 = bytes[i];
        out.push(sextet(b0 / 4));
        out.push(sextet((b0 % 4) * 16));
    } else if left == 2 {
        let (b0, b1) = (bytes[i], bytes[i + 1]);
        out.push(sextet(b0 / 4));
        out.push(sextet((b0 % 4) * 16 + b1 / 16));
        out.push(sextet((b1 % 16) * 4));
    }
    assert(out@ =~= before + base64_text(rest));
    out
}

/// Whether `c` belongs to the URL-safe alphabet.
pub open spec fn in_base64_alphabet(c: char) -> bool {
    ('A' <= c && c <= 'Z') || ('a' <= c && c <= 'z') || ('0' <= c && c <= '9') || c == '-' || c == '_'
}

/// The encoding has no padding: `n` bytes give `ceil(4n/3)` characters, all of
/// the URL-safe alphabet.
pub proof fn lemma_base64_shape(b: Seq<u8>)
    ensures
        base64_text(b).len() == (4 * b.len() + 2) / 3,
        forall|i: int| 0 <= i < base64_text(b).len() ==> in_base64_alphabet(#[trigger] base64_text(b)[i]),
    decreases b.len(),
{
    if b.len() >= 3 {
        let rest = b.skip(3);
        lemma_base64_shape(rest);
        assert forall|i: int| 0 <= i < base64_text(b).len() implies in_base64_alphabet(#[trigger] base64_text(b)[i]) by {
            if i >= 4 {
                assert(base64_text(b)[i] == base64_text(rest)[i - 4]);
            }
        }
    }
}

/// Different 6-bit values have different characters.
proof fn lemma_base64_char_injective(v: int, w: int)
    requires
        0 <= v < 64,
        0 <= w < 64,
        base64_char(v) == base64_char(w),
    ensures
        v == w,
{
}

/// The encoding loses nothing: two byte strings with the same text are the
/// same.
pub proof fn lemma_base64_injective(a: Seq<u8>, b: Seq<u8>)
    requires
        base64_text(a) == base64_text(b),
    ensures
        a == b,
    decreases a.len(),
{
    lemma_base64_shape(a);
    lemma_base64_shape(b);
    assert(a.len() == b.len());
    let (s, t) = (base64_text(a), base64_text(b));
    if a.len() == 0 {
        assert(a =~= b);
    } else {
        assert(s[0] == t[0] && s[1] == t[1]);
        lemma_base64_char_injective(a[0] as int / 4, b[0] as int / 4);
        if a.len() == 1 {
            lemma_base64_char_injective((a[0] as int % 4) * 16, (b[0] as int % 4) * 16);
            assert(a =~= b);
        } else {
            assert(s[2] == t[2]);
            lemma_base64_char_injective(
                (a[0] as int % 4) * 16 + a[1] as int / 16,
                (b[0] as int % 4) * 16 + b[1] as int / 16,
            );
            if a.len() == 2 {
                lemma_base64_char_injective((a[1] as int % 16) * 4, (b[1] as int % 16) * 4);
                assert(a =~= b);
            } else {
                assert(s[3] == t[3]);
                lemma_base64_char_injective(
                    (a[1] as int % 16) * 4 + a[2] as int / 64,
                    (b[1] as int % 16) * 4 + b[2] as int / 64,
                );
                lemma_base64_char_injective(a[2] as int % 64, b[2] as int % 64);
                assert(s.skip(4) =~= base64_text(a.skip(3)));
                assert(t.skip(4) =~= base64_text(b.skip(3)));
                lemma_base64_injective(a.skip(3), b.skip(3));
                assert(a =~= a.take(3) + a.skip(3));
                assert(b =~= b.take(3) + b.skip(3));
                assert(a.take(3) =~= b.take(3));
            }
        }
    }
}

/// The value of a character of the URL-safe base64 alphabet: capitals, small
/// letters, digits, then the hyphen and the underscore.
pub open spec fn base64_value(c: char) -> int {
    let u = c as int;
    if 65 <= u <= 90 {
        u - 65
    } else if 97 <= u <= 122 {
        u - 97 + 26
    } else if 48 <= u <= 57 {
        u - 48 + 52
    } else if u == 45 {
        62
    } else {
        63
    }
}

/// Each character has the value it is written for.
proof fn lemma_base64_value(v: int)
    requires
        0 <= v < 64,
    ensures
        base64_value(base64_char(v)) == v,
{
}

/// The first bytes are read back.
proof fn lemma_base64_first(b: Seq<u8>)
    requires
        b.len() > 0,
    ensures
        ({
            let t = base64_text(b);
            &&& b.len() >= 3 ==> base64_value(t[0]) * 262144 + base64_value(t[1]) * 4096 + base64_value(t[2]) * 64
                + base64_value(t[3]) == b[0] * 65536 + b[1] * 256 + b[2]
            &&& b.len() == 2 ==> t.len() == 3 && base64_value(t[0]) * 4096 + base64_value(t[1]) * 64 + base64_value(
                t[2],
            ) == (b[0] * 256 + b[1]) * 4
            &&& b.len() == 1 ==> t.len() == 2 && base64_value(t[0]) * 64 + base64_value(t[1]) == b[0] * 16
        }),
{
    let x = b[0] as int;
    lemma_base64_value(x / 4);
    if b.len() == 1 {
        lemma_base64_value((x % 4) * 16);
    } else {
        let y = b[1] as int;
        lemma_base64_value((x % 4) * 16 + y / 16);
        if b.len() == 2 {
            lemma_base64_value((y % 16) * 4);
        } else {
            let z = b[2] as int;
            lemma_base64_value((y % 16) * 4 + z / 64);
            lemma_base64_value(z % 64);
        }
    }
}

/// Encoded bytes are read back: four characters hold the 24 bits of three bytes,
/// three characters those of two bytes and two zero bits, two characters those
/// of one byte and four zero bits.
pub proof fn lemma_base64_reads_back(b: Seq<u8>, k: int)
    requires
        0 <= k,
        3 * k < b.len(),
    ensures
        ({
            let t = base64_text(b);
            let left = b.len() - 3 * k;
            &&& left >= 3 ==> base64_value(t[4 * k]) * 262144 + base64_value(t[4 * k + 1]) * 4096 + base64_value(
                t[4 * k + 2],
            ) * 64 + base64_value(t[4 * k + 3]) == b[3 * k] * 65536 + b[3 * k + 1] * 256 + b[3 * k + 2]
            &&& left == 2 ==> t.len() == 4 * k + 3 && base64_value(t[4 * k]) * 4096 + base64_value(t[4 * k + 1]) * 64
                + base64_value(t[4 * k + 2]) == (b[3 * k] * 256 + b[3 * k + 1]) * 4
            &&& left == 1 ==> t.len() == 4 * k + 2 && base64_value(t[4 * k]) * 64 + base64_value(t[4 * k + 1]) == b[3
                * k] * 16
        }),
    decreases k,
{
    if k == 0 {
        lemma_base64_first(b);
    } else {
        let rest = b.skip(3);
        lemma_base64_reads_back(rest, k - 1);
        lemma_base64_shape(rest);
        let t = base64_text(b);
        let r = base64_text(rest);
        assert(t.skip(4) =~= r);
        assert forall|i: int| 0 <= i < r.len() implies t[i + 4] == #[trigger] r[i] by {}
        assert(rest[3 * (k - 1)] == b[3 * k]);
        if b.len() - 3 * k >= 2 {
            assert(rest[3 * (k - 1) + 1] == b[3 * k + 1]);
        }
        if b.len() - 3 * k >= 3 {
            assert(rest[3 * (k - 1) + 2] == b[3 * k + 2]);
        }
        assert(r[4 * (k - 1)] == t[4 * k]);
        assert(r[4 * (k - 1) + 1] == t[4 * k + 1]);
        if b.len() - 3 * k >= 2 {
            assert(r[4 * (k - 1) + 2] == t[4 * k + 2]);
        }
        if b.len() - 3 * k >= 3 {
            assert(r[4 * (k - 1) + 3] == t[4 * k + 3]);
        }
    }
}

/// Whether a text can stand as a plain host: not empty, and without a bracket, a
/// colon or a slash.
pub open spec fn plain_host(host: Seq<char>) -> bool {
    &&& host.len() > 0
    &&& forall|i: int| 0 <= i < host.len() ==> #[trigger] host[i] != ':' && host[i] != '[' && host[i] != '/'
}

/// Text without a character has no position of it.
proof fn lemma_absent(s: Seq<char>, c: char)
    requires
        forall|i: int| 0 <= i < s.len() ==> #[trigger] s[i] != c,
    ensures
        first_at(s, c) == s.len(),
        last_at(s, c) == -1,
{
    lemma_first_at(s, c, s.len() as int);
    lemma_last_at(s, c, -1);
}

/// An authority is read as written: a host alone has the default port, a host
/// and a port separated by a colon are that host and that port, and so are an
/// address in brackets and a port.
pub proof fn lemma_authority_reads_back(host: Seq<char>, port: u16, default: u16)
    ensures
        plain_host(host) ==> authority(host, default) == Ok::<(Seq<char>, u16), Seq<char>>((host, default)),
        plain_host(host) ==> authority(host + seq![':'] + dec(port as nat), default) == Ok::<
            (Seq<char>, u16),
            Seq<char>,
        >((host, port)),
        host.len() > 0 && !host.contains(']') ==> authority(seq!['['] + host + seq![']'], default) == Ok::<
            (Seq<char>, u16),
            Seq<char>,
        >((host, default)),
        host.len() > 0 && !host.contains(']') ==> authority(
            seq!['['] + host + seq![']', ':'] + dec(port as nat),
            default,
        ) == Ok::<(Seq<char>, u16), Seq<char>>((host, port)),
{
    let digits = dec(port as nat);
    lemma_dec_reads_back(port as nat);
    lemma_numeral_parses(port as nat, 0xFFFF);
    if plain_host(host) {
        lemma_absent(host, ':');
        let s = host + seq![':'] + digits;
        assert forall|j: int| host.len() < j < s.len() implies s[j] != ':' by {
            assert(s[j] == digits[j - host.len() - 1]);
        }
        lemma_first_at(s, ':', host.len() as int);
        lemma_last_at(s, ':', host.len() as int);
        assert(s.take(host.len() as int) =~= host);
        assert(s.skip(host.len() as int + 1) =~= digits);
        assert(s[0] == host[0]);
    }
    if host.len() > 0 && !host.contains(']') {
        assert forall|j: int| 0 <= j < host.len() implies host[j] != ']' by {
            if host[j] == ']' {
                assert(host.contains(']'));
            }
        }
        let a = seq!['['] + host + seq![']'];
        let ra = a.skip(1);
        assert(ra =~= host + seq![']']);
        lemma_first_at(ra, ']', host.len() as int);
        assert(ra.take(host.len() as int) =~= host);
        assert(ra.skip(host.len() as int + 1).len() == 0);
        let b = seq!['['] + host + seq![']', ':'] + digits;
        let rb = b.skip(1);
        assert(rb =~= host + seq![']', ':'] + digits);
        lemma_first_at(rb, ']', host.len() as int);
        assert(rb.take(host.len() as int) =~= host);
        let tail = rb.skip(host.len() as int + 1);
        assert(tail =~= seq![':'] + digits);
        assert(tail.skip(1) =~= digits);
    }
}

/// A resolver URL is read as written: the host, the port, and the path up to a
/// query or a fragment; without a port it is 443, and without a path it is the
/// standard one.
pub proof fn lemma_doh_url_reads_back(host: Seq<char>, port: u16, path: Seq<char>)
    requires
        plain_host(host),
        path.len() > 0,
        path[0] == '/',
        !path.contains('?'),
        !path.contains('#'),
    ensures
        doh_endpoint("https://"@ + host + seq![':'] + dec(port as nat) + path) == Ok::<
            (Seq<char>, u16, Seq<char>),
            Seq<char>,
        >((host, port, path)),
        doh_endpoint("https://"@ + host + path) == Ok::<(Seq<char>, u16, Seq<char>), Seq<char>>((host, 443, path)),
        doh_endpoint("https://"@ + host) == Ok::<(Seq<char>, u16, Seq<char>), Seq<char>>(
            (host, 443, "/dns-query"@),
        ),
{
    let scheme = "https://"@;
    reveal_strlit("/dns-query");
    lemma_dec_reads_back(port as nat);
    lemma_authority_reads_back(host, port, 443);
    assert forall|j: int| 0 <= j < path.len() implies path[j] != '?' && path[j] != '#' by {
        if path[j] == '?' {
            assert(path.contains('?'));
        }
        if path[j] == '#' {
            assert(path.contains('#'));
        }
    }
    lemma_absent(path, '?');
    lemma_absent(path, '#');
    assert(path.take(path.len() as int) =~= path);
    let full = host + seq![':'] + dec(port as nat);
    let a = scheme + host + seq![':'] + dec(port as nat) + path;
    assert(a =~= scheme + (full + path));
    assert(a.take(scheme.len() as int) =~= scheme);
    let ra = a.skip(scheme.len() as int);
    assert(ra =~= full + path);
    assert forall|j: int| 0 <= j < full.len() implies ra[j] != '/' by {
        if j > host.len() {
            assert(ra[j] == dec(port as nat)[j - host.len() - 1]);
        }
    }
    lemma_first_at(ra, '/', full.len() as int);
    assert(ra.take(full.len() as int) =~= full);
    assert(ra.skip(full.len() as int) =~= path);
    let b = scheme + host + path;
    assert(b =~= scheme + (host + path));
    assert(b.take(scheme.len() as int) =~= scheme);
    let rb = b.skip(scheme.len() as int);
    assert(rb =~= host + path);
    lemma_first_at(rb, '/', host.len() as int);
    assert(rb.take(host.len() as int) =~= host);
    assert(rb.skip(host.len() as int) =~= path);
    let c = scheme + host;
    assert(c.take(scheme.len() as int) =~= scheme);
    let rc = c.skip(scheme.len() as int);
    assert(rc =~= host);
    lemma_absent(rc, '/');
    assert(rc.take(rc.len() as int) =~= rc);
    let standard = "/dns-query"@;
    lemma_absent(standard, '?');
    lemma_absent(standard, '#');
    assert(standard.take(standard.len() as int) =~= standard);
}

/// A resolver authority without a port is reached on 853, one with a port on
/// that port.
pub proof fn lemma_dot_endpoint_reads_back(host: Seq<char>, port: u16)
    requires
        plain_host(host),
    ensures
        dot_endpoint(host) == Ok::<(Seq<char>, u16), Seq<char>>((host, 853)),
        dot_endpoint(host + seq![':'] + dec(port as nat)) == Ok::<(Seq<char>, u16), Seq<char>>((host, port)),
{
    lemma_authority_reads_back(host, port, 853);
}

/// A resolver given by address is reached at that address; one given by name at
/// its first IPv4 address, or where it has none at its first IPv6 address.
pub proof fn lemma_endpoint_prefers_ipv4(host: Seq<char>, v4: Seq<IpAddr>, v6: Seq<IpAddr>)
    ensures
        endpoint_target(host, v4, v6) is None <==> parse_ip(host) is None && v4.len() == 0 && v6.len() == 0,
        parse_ip(host) matches Some(ip) ==> endpoint_target(host, v4, v6) == Some(ip),
        parse_ip(host) is None && v4.len() > 0 ==> endpoint_target(host, v4, v6) == Some(v4[0]),
        parse_ip(host) is None && v4.len() == 0 && v6.len() > 0 ==> endpoint_target(host, v4, v6) == Some(v6[0]),
{
}

/// No two response codes that have a name share it, and a code without one is
/// called unknown.
pub proof fn lemma_response_codes_are_told_apart(a: u8, b: u8)
    requires
        a <= 5 || a == 9,
    ensures
        rcode_text(a) == rcode_text(b) <==> a == b,
        rcode_text(a) != "UnknownError"@,
        b > 9 || 5 < b < 9 ==> rcode_text(b) == "UnknownError"@,
{
    reveal_strlit("NoError");
    reveal_strlit("FormErr");
    reveal_strlit("ServFail");
    reveal_strlit("NXDomain");
    reveal_strlit("NotImp");
    reveal_strlit("Refused");
    reveal_strlit("NotAuth");
    reveal_strlit("UnknownError");
    if a != b {
        assert(rcode_text(a).len() != rcode_text(b).len() || rcode_text(a)[2] != rcode_text(b)[2]);
    }
    assert(rcode_text(a).len() != "UnknownError"@.len());
}

} // verus!
