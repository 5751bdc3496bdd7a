//! Parsing of command-line values.

use crate::model::dns::{DnsObservationModel, DnsRecordModel, ResolverModel};
use crate::model::{DnsObservation, DnsRecord, DnsRecordType, ResolverKind, TlsProtocol};
use crate::net::{
    hex_char, hex_digit, hex_digit_value, ipv4_text, lemma_address_reads_back, lemma_destination_reads_back, parse_ip,
    parse_socket, IpAddr, Ipv4Addr, Ipv6Addr, SocketAddr,
};
use crate::target::{target_of, Target};
use crate::text::{
    chars_of, debug_text, dec, find_char, first_at, glue, glue3, is_white, lemma_first_at, lower, quoted, rows,
    same_ignoring_case, same_text, slice_of, split, split_chars, string_of, trim, trim_front, trimmed,
};
use vstd::prelude::*;

verus! {

/// The port of a target that names none.
pub const DEFAULT_PORT: u16 = 443;

/// The port of a DNS server that names none.
pub const DNS_PORT: u16 = 53;

// --- sources -----------------------------------------------------------------------------

/// Where the content of a value comes from.
pub enum Source {
    /// Standard input (`-`).
    Stdin,
    /// A file (`@path`).
    File(String),
    /// A file without a path (`@`).
    MissingPath,
    /// The value itself.
    Inline,
}

/// Whether a source is the one a value names.
pub open spec fn names_source(raw: Seq<char>, source: Source) -> bool {
    if raw == "-"@ {
        source is Stdin
    } else if raw.len() > 0 && raw[0] == '@' {
        if raw.len() == 1 {
            source is MissingPath
        } else {
            source matches Source::File(path) && path@ == raw.skip(1)
        }
    } else {
        source is Inline
    }
}

/// Where the content of a value comes from: `-` is standard input and a
/// leading `@` names a file.
pub fn source_of(raw: &str) -> (source: Source)
    ensures
        names_source(raw@, source),
{
    if same_text(raw, "-") {
        return Source::Stdin;
    }
    let chars = chars_of(raw);
    if chars.len() > 0 && chars[0] == '@' {
        if chars.len() == 1 {
            Source::MissingPath
        } else {
            let path = slice_of(chars.as_slice(), 1, chars.len());
            assert(path@ =~= raw@.skip(1));
            Source::File(string_of(path.as_slice()))
        }
    } else {
        Source::Inline
    }
}

/// The complaint about a file without a path.
pub fn missing_path(what: &str) -> (out: String)
    ensures
        out@ == what@ + " @<file> requires a file path after '@'"@,
{
    glue(what, " @<file> requires a file path after '@'")
}

// --- headers -----------------------------------------------------------------------------

/// What a header line stands for: a name and a value around the first colon,
/// or the complaint about it.
pub open spec fn header_of(line: Seq<char>) -> Result<(Seq<char>, Seq<char>), Seq<char>> {
    let i = first_at(line, ':');
    if i >= line.len() {
        Err("invalid header "@ + quoted(line) + "; expected NAME:VALUE, e.g. --header 'authorization: Bearer abc'"@)
    } else {
        let name = trim(line.take(i));
        let value = trim(line.skip(i + 1));
        if name.len() == 0 {
            Err("invalid header "@ + quoted(line) + "; the name must not be empty"@)
        } else {
            Ok((name, value))
        }
    }
}

/// Parse one `NAME:VALUE` header line into a name and a value.
pub fn parse_header_line(line: &str) -> (r: Result<(String, String), String>)
    ensures
        r matches Ok(h) ==> header_of(line@) == Ok::<(Seq<char>, Seq<char>), Seq<char>>((h.0@, h.1@)),
        r matches Err(e) ==> header_of(line@) == Err::<(Seq<char>, Seq<char>), Seq<char>>(e@),
{
    let chars = chars_of(line);
    let c = chars.as_slice();
    match find_char(c, ':') {
        None => {
            let mut out = glue("invalid header ", debug_text(line).as_str());
            out.append("; expected NAME:VALUE, e.g. --header 'authorization: Bearer abc'");
            Err(out)
        },
        Some(i) => {
            let front = slice_of(c, 0, i);
            let back = slice_of(c, i + 1, c.len());
            assert(front@ =~= line@.take(i as int));
            assert(back@ =~= line@.skip(i as int + 1));
            let name = trimmed(front.as_slice());
            let value = trimmed(back.as_slice());
            if name.len() == 0 {
                let mut out = glue("invalid header ", debug_text(line).as_str());
                out.append("; the name must not be empty");
                Err(out)
            } else {
                Ok((string_of(name.as_slice()), string_of(value.as_slice())))
            }
        },
    }
}

/// The texts of headers.
pub open spec fn pairs(v: Seq<(String, String)>) -> Seq<(Seq<char>, Seq<char>)> {
    v.map_values(|h: (String, String)| (h.0@, h.1@))
}

/// What lines of headers hold: the headers up to the first malformed line, and
/// the complaint about that line. Blank lines are skipped.
pub open spec fn headers_in(lines: Seq<Seq<char>>) -> (Seq<(Seq<char>, Seq<char>)>, Option<Seq<char>>)
    decreases lines.len(),
{
    if lines.len() == 0 {
        (Seq::empty(), None)
    } else {
        let (found, bad) = headers_in(lines.drop_last());
        let line = trim(lines.last());
        if bad is Some || line.len() == 0 {
            (found, bad)
        } else {
            match header_of(line) {
                Ok(h) => (found.push(h), None),
                Err(e) => (found, Some(e)),
            }
        }
    }
}

/// After a malformed line nothing changes.
proof fn lemma_headers_stop(lines: Seq<Seq<char>>, n: int)
    requires
        0 <= n <= lines.len(),
        headers_in(lines.take(n)).1 is Some,
    ensures
        headers_in(lines) == headers_in(lines.take(n)),
    decreases lines.len(),
{
    if n == lines.len() {
        assert(lines.take(n) =~= lines);
    } else {
        assert(lines.drop_last().take(n) =~= lines.take(n));
        lemma_headers_stop(lines.drop_last(), n);
    }
}

/// Append every non-blank header line of `text` (from a file or standard
/// input) to `headers`, failing on the first malformed line.
pub fn push_header_lines(headers: &mut Vec<(String, String)>, text: &str, source: &str) -> (r: Result<(), String>)
    ensures
        pairs(final(headers)@) == pairs(old(headers)@) + headers_in(split(text@, '\n')).0,
        r is Ok == (headers_in(split(text@, '\n')).1 is None),
        r matches Err(e) ==> e@ == headers_in(split(text@, '\n')).1->0 + " (from "@ + source@ + ")"@,
{
    let ghost before = pairs(headers@);
    let chars = chars_of(text);
    let lines = split_chars(chars.as_slice(), '\n');
    let ghost all = rows(lines@);
    assert(before + headers_in(all.take(0)).0 =~= before);
    for i in 0..lines.len()
        invariant
            all == rows(lines@),
            all == split(text@, '\n'),
            pairs(headers@) == before + headers_in(all.take(i as int)).0,
            headers_in(all.take(i as int)).1 is None,
            before == pairs(old(headers)@),
    {
        let ghost found = headers_in(all.take(i as int)).0;
        assert(all.take(i as int + 1).drop_last() =~= all.take(i as int));
        assert(all[i as int] == lines@[i as int]@);
        let line = trimmed(lines[i].as_slice());
        if line.len() > 0 {
            let line = string_of(line.as_slice());
            match parse_header_line(line.as_str()) {
                Ok(h) => {
                    let ghost mid = headers@;
                    headers.push(h);
                    assert(pairs(headers@) =~= pairs(mid).push((h.0@, h.1@)));
                    assert(pairs(headers@) =~= before + found.push((h.0@, h.1@)));
                },
                Err(e) => {
                    proof {
                        lemma_headers_stop(all, i as int + 1);
                    }
                    let mut out = glue3(e.as_str(), " (from ", source);
                    out.append(")");
                    return Err(out);
                },
            }
        }
    }
    assert(all.take(all.len() as int) =~= all);
    Ok(())
}

// --- targets -----------------------------------------------------------------------------

/// What a line of a target list stands for: nothing for a blank line or a
/// comment, else a target or the complaint about it.
pub open spec fn target_line(raw: Seq<char>) -> Result<Option<(Seq<char>, u16)>, Seq<char>> {
    let line = trim(raw);
    if line.len() == 0 || line[0] == '#' {
        Ok(None)
    } else {
        match target_of(line, DEFAULT_PORT) {
            Ok(t) => Ok(Some(t)),
            Err(reason) => Err("invalid target "@ + quoted(line) + ": "@ + reason),
        }
    }
}

/// Parse a line of a target list.
pub fn parse_target_line(raw: &str) -> (r: Result<Option<Target>, String>)
    ensures
        r matches Ok(None) ==> target_line(raw@) == Ok::<Option<(Seq<char>, u16)>, Seq<char>>(None),
        r matches Ok(Some(t)) ==> target_line(raw@) == Ok::<Option<(Seq<char>, u16)>, Seq<char>>(
            Some((t.host@, t.port)),
        ),
        r matches Err(e) ==> target_line(raw@) == Err::<Option<(Seq<char>, u16)>, Seq<char>>(e@),
{
    let chars = chars_of(raw);
    let line = trimmed(chars.as_slice());
    if line.len() == 0 || line[0] == '#' {
        return Ok(None);
    }
    let line = string_of(line.as_slice());
    match Target::parse(line.as_str(), DEFAULT_PORT) {
        Ok(t) => Ok(Some(t)),
        Err(e) => Err(e.to_text()),
    }
}

/// The models of targets.
pub open spec fn target_models(v: Seq<Target>) -> Seq<(Seq<char>, u16)> {
    v.map_values(|t: Target| (t.host@, t.port))
}

/// What lines of targets hold: the targets up to the first malformed line, and
/// the complaint about that line.
pub open spec fn targets_in(lines: Seq<Seq<char>>) -> (Seq<(Seq<char>, u16)>, Option<Seq<char>>)
    decreases lines.len(),
{
    if lines.len() == 0 {
        (Seq::empty(), None)
    } else {
        let (found, bad) = targets_in(lines.drop_last());
        if bad is Some {
            (found, bad)
        } else {
            match target_line(lines.last()) {
                Ok(Some(t)) => (found.push(t), None),
                Ok(None) => (found, None),
                Err(e) => (found, Some(e)),
            }
        }
    }
}

/// After a malformed line nothing changes.
proof fn lemma_targets_stop(lines: Seq<Seq<char>>, n: int)
    requires
        0 <= n <= lines.len(),
        targets_in(lines.take(n)).1 is Some,
    ensures
        targets_in(lines) == targets_in(lines.take(n)),
    decreases lines.len(),
{
    if n == lines.len() {
        assert(lines.take(n) =~= lines);
    } else {
        assert(lines.drop_last().take(n) =~= lines.take(n));
        lemma_targets_stop(lines.drop_last(), n);
    }
}

/// Append the targets of a list, one per line; blank lines and `#` comments are
/// skipped, and the first malformed line fails.
pub fn push_target_lines(targets: &mut Vec<Target>, text: &str) -> (r: Result<(), String>)
    ensures
        target_models(final(targets)@) == target_models(old(targets)@) + targets_in(split(text@, '\n')).0,
        r is Ok == (targets_in(split(text@, '\n')).1 is None),
        r matches Err(e) ==> targets_in(split(text@, '\n')).1 == Some(e@),
{
    let ghost before = target_models(targets@);
    let chars = chars_of(text);
    let lines = split_chars(chars.as_slice(), '\n');
    let ghost all = rows(lines@);
    assert(before + targets_in(all.take(0)).0 =~= before);
    for i in 0..lines.len()
        invariant
            all == rows(lines@),
            all == split(text@, '\n'),
            target_models(targets@) == before + targets_in(all.take(i as int)).0,
            targets_in(all.take(i as int)).1 is None,
            before == target_models(old(targets)@),
    {
        let ghost found = targets_in(all.take(i as int)).0;
        assert(all.take(i as int + 1).drop_last() =~= all.take(i as int));
        assert(all[i as int] == lines@[i as int]@);
        let line = string_of(lines[i].as_slice());
        match parse_target_line(line.as_str()) {
            Ok(Some(t)) => {
                let ghost mid = targets@;
                targets.push(t);
                assert(target_models(targets@) =~= target_models(mid).push((t.host@, t.port)));
                assert(target_models(targets@) =~= before + found.push((t.host@, t.port)));
            },
            Ok(None) => {},
            Err(e) => {
                proof {
                    lemma_targets_stop(all, i as int + 1);
                }
                return Err(e);
            },
        }
    }
    assert(all.take(all.len() as int) =~= all);
    Ok(())
}

// --- DNS servers -------------------------------------------------------------------------

/// The server a value names: an address with a port, or one at port 53.
pub open spec fn server_of(raw: Seq<char>) -> Option<SocketAddr> {
    match parse_socket(raw) {
        Some(addr) => Some(addr),
        None => match parse_ip(raw) {
            Some(ip) => Some(SocketAddr { ip, port: DNS_PORT, scope_id: 0 }),
            None => None,
        },
    }
}

/// The position of the first value that names no server.
pub open spec fn first_bad_server(values: Seq<String>, i: int) -> bool {
    &&& 0 <= i < values.len()
    &&& server_of(values[i]@) is None
    &&& forall|j: int| 0 <= j < i ==> server_of((#[trigger] values[j])@) is Some
}

/// Parse repeatable `--server` values as DNS server socket addresses.
pub fn parse_custom_servers(values: &[String]) -> (r: Result<Vec<SocketAddr>, String>)
    ensures
        r matches Ok(v) ==> v@.len() == values@.len() && forall|i: int|
            0 <= i < v@.len() ==> server_of((#[trigger] values@[i])@) == Some(v@[i]),
        r matches Err(e) ==> exists|i: int| #[trigger]
            first_bad_server(values@, i) && e@ == "invalid DNS server "@ + quoted(values@[i]@)
                + "; expected IP or IP:port"@,
{
    let mut servers: Vec<SocketAddr> = Vec::new();
    for i in 0..values.len()
        invariant
            servers@.len() == i,
            forall|j: int| 0 <= j < i ==> server_of((#[trigger] values@[j])@) == Some(servers@[j]),
    {
        let raw = values[i].as_str();
        match SocketAddr::parse(raw) {
            Some(addr) => servers.push(addr),
            None => match IpAddr::parse(raw) {
                Some(ip) => servers.push(SocketAddr::new(ip, DNS_PORT)),
                None => {
                    assert(first_bad_server(values@, i as int));
                    let mut out = glue("invalid DNS server ", debug_text(raw).as_str());
                    out.append("; expected IP or IP:port");
                    return Err(out);
                },
            },
        }
    }
    Ok(servers)
}

// --- protocol and record types -----------------------------------------------------------

/// Map the `--tls-version` value to the offered versions.
pub fn parse_tls_protocol(value: Option<&str>) -> (r: TlsProtocol)
    ensures
        r == (if value matches Some(v) && v@ == "1.2"@ {
            TlsProtocol::Tls12
        } else if value matches Some(v) && v@ == "1.3"@ {
            TlsProtocol::Tls13
        } else {
            TlsProtocol::Auto
        }),
{
    match value {
        Some(v) => {
            if same_text(v, "1.2") {
                TlsProtocol::Tls12
            } else if same_text(v, "1.3") {
                TlsProtocol::Tls13
            } else {
                TlsProtocol::Auto
            }
        },
        None => TlsProtocol::Auto,
    }
}

/// The record type a text names, in any case.
pub open spec fn type_named(s: Seq<char>) -> Option<DnsRecordType> {
    if lower(s) == lower("A"@) {
        Some(DnsRecordType::A)
    } else if lower(s) == lower("AAAA"@) {
        Some(DnsRecordType::Aaaa)
    } else if lower(s) == lower("CNAME"@) {
        Some(DnsRecordType::Cname)
    } else if lower(s) == lower("MX"@) {
        Some(DnsRecordType::Mx)
    } else if lower(s) == lower("TXT"@) {
        Some(DnsRecordType::Txt)
    } else if lower(s) == lower("NS"@) {
        Some(DnsRecordType::Ns)
    } else if lower(s) == lower("SOA"@) {
        Some(DnsRecordType::Soa)
    } else if lower(s) == lower("CAA"@) {
        Some(DnsRecordType::Caa)
    } else if lower(s) == lower("SRV"@) {
        Some(DnsRecordType::Srv)
    } else if lower(s) == lower("PTR"@) {
        Some(DnsRecordType::Ptr)
    } else {
        None
    }
}

/// Parse a `--record-type` argument.
pub fn parse_record_type(s: &str) -> (r: Option<DnsRecordType>)
    ensures
        r == type_named(s@),
{
    if same_ignoring_case(s, "A") {
        Some(DnsRecordType::A)
    } else if same_ignoring_case(s, "AAAA") {
        Some(DnsRecordType::Aaaa)
    } else if same_ignoring_case(s, "CNAME") {
        Some(DnsRecordType::Cname)
    } else if same_ignoring_case(s, "MX") {
        Some(DnsRecordType::Mx)
    } else if same_ignoring_case(s, "TXT") {
        Some(DnsRecordType::Txt)
    } else if same_ignoring_case(s, "NS") {
        Some(DnsRecordType::Ns)
    } else if same_ignoring_case(s, "SOA") {
        Some(DnsRecordType::Soa)
    } else if same_ignoring_case(s, "CAA") {
        Some(DnsRecordType::Caa)
    } else if same_ignoring_case(s, "SRV") {
        Some(DnsRecordType::Srv)
    } else if same_ignoring_case(s, "PTR") {
        Some(DnsRecordType::Ptr)
    } else {
        None
    }
}

/// Every record type is read back from its own name.
pub proof fn lemma_record_type_reads_back(t: DnsRecordType)
    ensures
        type_named(t.text()) == Some(t),
{
    reveal_strlit("A");
    reveal_strlit("AAAA");
    reveal_strlit("CNAME");
    reveal_strlit("MX");
    reveal_strlit("TXT");
    reveal_strlit("NS");
    reveal_strlit("SOA");
    reveal_strlit("CAA");
    reveal_strlit("SRV");
    reveal_strlit("PTR");
    let s = lower(t.text());
    match t {
        DnsRecordType::A => {},
        DnsRecordType::Aaaa => {
            assert(s.len() != lower("A"@).len());
        },
        DnsRecordType::Cname => {
            assert(s.len() != lower("A"@).len());
            assert(s.len() != lower("AAAA"@).len());
        },
        DnsRecordType::Mx => {
            assert(s.len() != lower("A"@).len());
            assert(s.len() != lower("AAAA"@).len());
            assert(s.len() != lower("CNAME"@).len());
        },
        DnsRecordType::Txt => {
            assert(s.len() != lower("A"@).len());
            assert(s.len() != lower("AAAA"@).len());
            assert(s.len() != lower("CNAME"@).len());
            assert(s.len() != lower("MX"@).len());
        },
        DnsRecordType::Ns => {
            assert(s.len() != lower("A"@).len());
            assert(s.len() != lower("AAAA"@).len());
            assert(s.len() != lower("CNAME"@).len());
            assert(s[0] != lower("MX"@)[0]);
            assert(s.len() != lower("TXT"@).len());
        },
        DnsRecordType::Soa => {
            assert(s.len() != lower("A"@).len());
            assert(s.len() != lower("AAAA"@).len());
            assert(s.len() != lower("CNAME"@).len());
            assert(s.len() != lower("MX"@).len());
            assert(s[0] != lower("TXT"@)[0]);
            assert(s.len() != lower("NS"@).len());
        },
        DnsRecordType::Caa => {
            assert(s.len() != lower("A"@).len());
            assert(s.len() != lower("AAAA"@).len());
            assert(s.len() != lower("CNAME"@).len());
            assert(s.len() != lower("MX"@).len());
            assert(s[0] != lower("TXT"@)[0]);
            assert(s.len() != lower("NS"@).len());
            assert(s[0] != lower("SOA"@)[0]);
        },
        DnsRecordType::Srv => {
            assert(s.len() != lower("A"@).len());
            assert(s.len() != lower("AAAA"@).len());
            assert(s.len() != lower("CNAME"@).len());
            assert(s.len() != lower("MX"@).len());
            assert(s[0] != lower("TXT"@)[0]);
            assert(s.len() != lower("NS"@).len());
            assert(s[1] != lower("SOA"@)[1]);
            assert(s[0] != lower("CAA"@)[0]);
        },
        DnsRecordType::Ptr => {
            assert(s.len() != lower("A"@).len());
            assert(s.len() != lower("AAAA"@).len());
            assert(s.len() != lower("CNAME"@).len());
            assert(s.len() != lower("MX"@).len());
            assert(s[0] != lower("TXT"@)[0]);
            assert(s.len() != lower("NS"@).len());
            assert(s[0] != lower("SOA"@)[0]);
            assert(s[0] != lower("CAA"@)[0]);
            assert(s[0] != lower("SRV"@)[0]);
        },
    }
}

/// The record types to query: the one asked for, A or AAAA alone, or both.
pub open spec fn wanted_types(
    record_type: Option<&str>,
    only_v4: bool,
    only_v6: bool,
) -> Result<Seq<DnsRecordType>, Seq<char>> {
    match record_type {
        Some(name) => match type_named(name@) {
            Some(t) => Ok(seq![t]),
            None => Err(
                "unsupported record type "@ + quoted(name@)
                    + " (try A, AAAA, CNAME, MX, TXT, NS, SOA, CAA, SRV or PTR)"@,
            ),
        },
        None => if only_v4 {
            Ok(seq![DnsRecordType::A])
        } else if only_v6 {
            Ok(seq![DnsRecordType::Aaaa])
        } else {
            Ok(seq![DnsRecordType::A, DnsRecordType::Aaaa])
        },
    }
}

/// The record types to query.
pub fn select_record_types(record_type: Option<&str>, only_v4: bool, only_v6: bool) -> (r: Result<
    Vec<DnsRecordType>,
    String,
>)
    ensures
        r matches Ok(v) ==> wanted_types(record_type, only_v4, only_v6) == Ok::<Seq<DnsRecordType>, Seq<char>>(v@),
        r matches Err(e) ==> wanted_types(record_type, only_v4, only_v6) == Err::<Seq<DnsRecordType>, Seq<char>>(e@),
{
    let mut types: Vec<DnsRecordType> = Vec::new();
    match record_type {
        Some(name) => match parse_record_type(name) {
            Some(t) => {
                types.push(t);
                assert(types@ =~= seq![t]);
            },
            None => {
                let mut out = glue("unsupported record type ", debug_text(name).as_str());
                out.append(" (try A, AAAA, CNAME, MX, TXT, NS, SOA, CAA, SRV or PTR)");
                return Err(out);
            },
        },
        None => {
            if only_v4 {
                types.push(DnsRecordType::A);
                assert(types@ =~= seq![DnsRecordType::A]);
            } else if only_v6 {
                types.push(DnsRecordType::Aaaa);
                assert(types@ =~= seq![DnsRecordType::Aaaa]);
            } else {
                types.push(DnsRecordType::A);
                types.push(DnsRecordType::Aaaa);
                assert(types@ =~= seq![DnsRecordType::A, DnsRecordType::Aaaa]);
            }
        },
    }
    Ok(types)
}

// --- IP literals -------------------------------------------------------------------------

/// The nibbles of a group from the lowest on, each followed by a dot.
pub open spec fn nibbles(g: u16) -> Seq<char> {
    seq![
        hex_char((g % 16) as nat),
        '.',
        hex_char((g / 16 % 16) as nat),
        '.',
        hex_char((g / 256 % 16) as nat),
        '.',
        hex_char((g / 4096) as nat),
        '.',
    ]
}

/// The reverse-zone name of an address: the octets reversed under
/// `in-addr.arpa`, or the hex nibbles reversed under `ip6.arpa`.
pub open spec fn reverse_name(ip: IpAddr) -> Seq<char> {
    match ip {
        IpAddr::V4(v4) => ipv4_text(Ipv4Addr { a: v4.d, b: v4.c, c: v4.b, d: v4.a }) + ".in-addr.arpa"@,
        IpAddr::V6(v6) => nibbles(v6.g7) + nibbles(v6.g6) + nibbles(v6.g5) + nibbles(v6.g4) + nibbles(v6.g3) + nibbles(
            v6.g2,
        ) + nibbles(v6.g1) + nibbles(v6.g0) + "ip6.arpa"@,
    }
}

/// Append the nibbles of a group.
fn push_nibbles(out: &mut String, g: u16)
    ensures
        final(out)@ == old(out)@ + nibbles(g),
{
    let ghost before = out@;
    out.push(hex_digit((g % 16) as u64));
    out.push('.');
    out.push(hex_digit((g / 16 % 16) as u64));
    out.push('.');
    out.push(hex_digit((g / 256 % 16) as u64));
    out.push('.');
    out.push(hex_digit((g / 4096) as u64));
    out.push('.');
    assert(out@ =~= before + nibbles(g));
}

/// Build the reverse-zone name for an address (RFC 1035 `in-addr.arpa`, RFC
/// 3596 `ip6.arpa`), so a reverse lookup can be issued for a literal target.
pub fn reverse_zone(ip: IpAddr) -> (out: String)
    ensures
        out@ == reverse_name(ip),
{
    match ip {
        IpAddr::V4(v4) => {
            let reversed = Ipv4Addr::new(v4.d, v4.c, v4.b, v4.a);
            glue(reversed.to_text().as_str(), ".in-addr.arpa")
        },
        IpAddr::V6(v6) => {
            let mut out = String::new();
            push_nibbles(&mut out, v6.g7);
            assert(out@ =~= nibbles(v6.g7));
            push_nibbles(&mut out, v6.g6);
            push_nibbles(&mut out, v6.g5);
            push_nibbles(&mut out, v6.g4);
            push_nibbles(&mut out, v6.g3);
            push_nibbles(&mut out, v6.g2);
            push_nibbles(&mut out, v6.g1);
            push_nibbles(&mut out, v6.g0);
            out.append("ip6.arpa");
            out
        },
    }
}

/// The answer for a literal: its own record for the matching family, no
/// records for any other type, never an error.
pub open spec fn literal_answer(host: Seq<char>, literal: IpAddr, t: DnsRecordType) -> DnsObservationModel {
    DnsObservationModel {
        hostname: host,
        resolver: ResolverModel::System,
        record_type: t,
        records: match (t, literal) {
            (DnsRecordType::A, IpAddr::V4(v4)) => seq![DnsRecordModel::A(v4)],
            (DnsRecordType::Aaaa, IpAddr::V6(v6)) => seq![DnsRecordModel::Aaaa(v6)],
            _ => Seq::empty(),
        },
        ttl: None,
        latency_ms: Some(0),
        error: None,
    }
}

/// The answers for a literal.
pub open spec fn literal_answers(host: Seq<char>, literal: IpAddr, types: Seq<DnsRecordType>) -> Seq<
    DnsObservationModel,
> {
    types.map_values(|t: DnsRecordType| literal_answer(host, literal, t))
}

/// Observations for an IP-literal target: the literal is its own record for
/// the matching address family and an empty observation for any other type. No
/// resolver is consulted.
pub fn literal_observations(host: &str, literal: IpAddr, record_types: &[DnsRecordType]) -> (out: Vec<DnsObservation>)
    ensures
        out.deep_view() == literal_answers(host@, literal, record_types@),
{
    let mut out: Vec<DnsObservation> = Vec::new();
    assert(out.deep_view() =~= literal_answers(host@, literal, record_types@.take(0)));
    for i in 0..record_types.len()
        invariant
            out.deep_view() == literal_answers(host@, literal, record_types@.take(i as int)),
    {
        let t = record_types[i];
        let mut records: Vec<DnsRecord> = Vec::new();
        match (t, literal) {
            (DnsRecordType::A, IpAddr::V4(v4)) => {
                records.push(DnsRecord::A(v4));
            },
            (DnsRecordType::Aaaa, IpAddr::V6(v6)) => {
                records.push(DnsRecord::Aaaa(v6));
            },
            _ => {},
        }
        let ghost before = out.deep_view();
        let o = DnsObservation {
            hostname: host.to_owned(),
            resolver: ResolverKind::System,
            record_type: t,
            records,
            ttl: None,
            latency_ms: Some(0),
            error: None,
        };
        assert(o.records.deep_view() =~= literal_answer(host@, literal, t).records);
        assert(o.deep_view() =~= literal_answer(host@, literal, t));
        out.push(o);
        assert(out.deep_view() =~= before.push(o.deep_view()));
        assert(literal_answers(host@, literal, record_types@.take(i as int + 1)) =~= literal_answers(
            host@,
            literal,
            record_types@.take(i as int),
        ).push(literal_answer(host@, literal, t)));
    }
    assert(record_types@.take(record_types@.len() as int) =~= record_types@);
    out
}

// --- laws --------------------------------------------------------------------------------

/// The reverse name of an IPv4 address has its octets in reverse order before the
/// reverse zone.
pub proof fn lemma_ipv4_reverse_name(ip: Ipv4Addr)
    ensures
        reverse_name(IpAddr::V4(ip)) == dec(ip.d as nat) + "."@ + dec(ip.c as nat) + "."@ + dec(ip.b as nat) + "."@ + dec(
            ip.a as nat,
        ) + ".in-addr.arpa"@,
{
}

/// Whether a text spells out a group: its four hexadecimal digits from the last
/// to the first, each followed by a dot.
pub open spec fn spells_backwards(t: Seq<char>, g: u16) -> bool {
    &&& t.len() == 8
    &&& t[1] == '.' && t[3] == '.' && t[5] == '.' && t[7] == '.'
    &&& hex_digit_value(t[0]) + 16 * hex_digit_value(t[2]) + 256 * hex_digit_value(t[4]) + 4096 * hex_digit_value(t[6])
        == g
}

/// The reverse name of an IPv6 address spells out its groups from the last to the
/// first, before the reverse zone.
pub proof fn lemma_ipv6_reverse_name(ip: Ipv6Addr)
    ensures
        ({
            let s = reverse_name(IpAddr::V6(ip));
            &&& s.len() == 64 + "ip6.arpa"@.len()
            &&& s.skip(64) == "ip6.arpa"@
            &&& spells_backwards(s.subrange(0, 8), ip.g7)
            &&& spells_backwards(s.subrange(8, 16), ip.g6)
            &&& spells_backwards(s.subrange(16, 24), ip.g5)
            &&& spells_backwards(s.subrange(24, 32), ip.g4)
            &&& spells_backwards(s.subrange(32, 40), ip.g3)
            &&& spells_backwards(s.subrange(40, 48), ip.g2)
            &&& spells_backwards(s.subrange(48, 56), ip.g1)
            &&& spells_backwards(s.subrange(56, 64), ip.g0)
        }),
{
    let s = reverse_name(IpAddr::V6(ip));
    lemma_nibbles(ip.g0);
    lemma_nibbles(ip.g1);
    lemma_nibbles(ip.g2);
    lemma_nibbles(ip.g3);
    lemma_nibbles(ip.g4);
    lemma_nibbles(ip.g5);
    lemma_nibbles(ip.g6);
    lemma_nibbles(ip.g7);
    lemma_eight_parts(
        nibbles(ip.g7),
        nibbles(ip.g6),
        nibbles(ip.g5),
        nibbles(ip.g4),
        nibbles(ip.g3),
        nibbles(ip.g2),
        nibbles(ip.g1),
        nibbles(ip.g0),
        "ip6.arpa"@,
    );
}

/// Eight parts of eight characters each, taken apart.
proof fn lemma_eight_parts(
    a: Seq<char>,
    b: Seq<char>,
    c: Seq<char>,
    d: Seq<char>,
    e: Seq<char>,
    f: Seq<char>,
    g: Seq<char>,
    h: Seq<char>,
    z: Seq<char>,
)
    requires
        a.len() == 8 && b.len() == 8 && c.len() == 8 && d.len() == 8,
        e.len() == 8 && f.len() == 8 && g.len() == 8 && h.len() == 8,
    ensures
        ({
            let s = a + b + c + d + e + f + g + h + z;
            &&& s.len() == 64 + z.len()
            &&& s.subrange(0, 8) == a && s.subrange(8, 16) == b && s.subrange(16, 24) == c && s.subrange(24, 32) == d
            &&& s.subrange(32, 40) == e && s.subrange(40, 48) == f && s.subrange(48, 56) == g && s.subrange(56, 64) == h
            &&& s.skip(64) == z
        }),
{
    let s = a + b + c + d + e + f + g + h + z;
    assert(s.subrange(0, 8) =~= a);
    assert(s.subrange(8, 16) =~= b);
    assert(s.subrange(16, 24) =~= c);
    assert(s.subrange(24, 32) =~= d);
    assert(s.subrange(32, 40) =~= e);
    assert(s.subrange(40, 48) =~= f);
    assert(s.subrange(48, 56) =~= g);
    assert(s.subrange(56, 64) =~= h);
    assert(s.skip(64) =~= z);
}

/// A hexadecimal digit has the value it is written for.
proof fn lemma_hex_digit(d: nat)
    requires
        d < 16,
    ensures
        hex_digit_value(hex_char(d)) == d,
{
}

/// The digits of a group, last first.
proof fn lemma_nibbles(g: u16)
    ensures
        spells_backwards(nibbles(g), g),
{
    lemma_hex_digit((g % 16) as nat);
    lemma_hex_digit((g / 16 % 16) as nat);
    lemma_hex_digit((g / 256 % 16) as nat);
    lemma_hex_digit((g / 4096) as nat);
    let (w, x, y, z) = ((g % 16) as int, (g / 16 % 16) as int, (g / 256 % 16) as int, (g / 4096) as int);
    assert(w + 16 * x + 256 * y + 4096 * z == g) by (nonlinear_arith)
        requires
            w == g as int % 16,
            x == g as int / 16 % 16,
            y == g as int / 256 % 16,
            z == g as int / 4096,
            0 <= g as int <= 65535,
    ;
}

/// An address given as a target is reported as it stands: each wanted type gets
/// an observation without an error, with the address as its one record exactly
/// where the type is that of its family.
pub proof fn lemma_literal_is_reported(host: Seq<char>, literal: IpAddr, types: Seq<DnsRecordType>, i: int)
    requires
        0 <= i < types.len(),
    ensures
        literal_answers(host, literal, types).len() == types.len(),
        ({
            let o = literal_answers(host, literal, types)[i];
            &&& o.hostname == host && o.record_type == types[i] && o.error is None && o.ttl is None
            &&& literal is V4 && types[i] == DnsRecordType::A ==> o.records == seq![
                DnsRecordModel::A(literal->V4_0),
            ]
            &&& literal is V6 && types[i] == DnsRecordType::Aaaa ==> o.records == seq![
                DnsRecordModel::Aaaa(literal->V6_0),
            ]
            &&& !(literal is V4 && types[i] == DnsRecordType::A) && !(literal is V6 && types[i] == DnsRecordType::Aaaa)
                ==> o.records.len() == 0
        }),
{
}

/// Without a named type both address types are looked up, or only that of the one
/// family asked for; a named type is looked up alone.
pub proof fn lemma_looked_up_types(record_type: Option<&str>, only_v4: bool, only_v6: bool)
    ensures
        record_type is None && only_v4 ==> wanted_types(record_type, only_v4, only_v6) == Ok::<
            Seq<DnsRecordType>,
            Seq<char>,
        >(seq![DnsRecordType::A]),
        record_type is None && !only_v4 && only_v6 ==> wanted_types(record_type, only_v4, only_v6) == Ok::<
            Seq<DnsRecordType>,
            Seq<char>,
        >(seq![DnsRecordType::Aaaa]),
        record_type is None && !only_v4 && !only_v6 ==> wanted_types(record_type, only_v4, only_v6) == Ok::<
            Seq<DnsRecordType>,
            Seq<char>,
        >(seq![DnsRecordType::A, DnsRecordType::Aaaa]),
        record_type matches Some(name) ==> (wanted_types(record_type, only_v4, only_v6) is Ok <==> type_named(
            name@,
        ) is Some) && (wanted_types(record_type, only_v4, only_v6) matches Ok(s) ==> s.len() == 1 && s[0]
            == type_named(name@)->0),
{
}

/// A DNS server is an address with its port, or an address alone on port 53.
#[verifier::rlimit(60)]
pub proof fn lemma_server_reads_back(d: SocketAddr)
    requires
        d.ip is V4 ==> d.scope_id == 0,
    ensures
        server_of(d.text()) == Some(d),
        parse_socket(d.ip.text()) is None ==> server_of(d.ip.text()) == Some(
            SocketAddr { ip: d.ip, port: 53, scope_id: 0 },
        ),
{
    lemma_destination_reads_back(d);
    lemma_address_reads_back(d.ip);
}

/// A header line is a name and a value around its first colon, each without the
/// white space around it.
pub proof fn lemma_header_reads_back(name: Seq<char>, value: Seq<char>)
    requires
        name.len() > 0,
        !name.contains(':'),
        !is_white(name[0]) && !is_white(name.last()),
        value.len() > 0 ==> !is_white(value[0]) && !is_white(value.last()),
    ensures
        header_of(name + seq![':'] + value) == Ok::<(Seq<char>, Seq<char>), Seq<char>>((name, value)),
        header_of(name + seq![':', ' '] + value) == Ok::<(Seq<char>, Seq<char>), Seq<char>>((name, value)),
{
    assert forall|j: int| 0 <= j < name.len() implies name[j] != ':' by {
        if name[j] == ':' {
            assert(name.contains(':'));
        }
    }
    let a = name + seq![':'] + value;
    let b = name + seq![':', ' '] + value;
    lemma_first_at(a, ':', name.len() as int);
    lemma_first_at(b, ':', name.len() as int);
    assert(a.take(name.len() as int) =~= name);
    assert(b.take(name.len() as int) =~= name);
    assert(a.skip(name.len() as int + 1) =~= value);
    let spaced = b.skip(name.len() as int + 1);
    assert(spaced =~= seq![' '] + value);
    assert(spaced.skip(1) =~= value);
    reveal_with_fuel(trim_front, 2);
    assert(trim_front(spaced) == trim_front(value));
    assert(trim(name) == name);
    assert(trim(value) == value);
}

/// A target line that is blank or starts with a hash is no target.
pub proof fn lemma_blank_and_comment_lines(raw: Seq<char>)
    ensures
        target_line(raw) == Ok::<Option<(Seq<char>, u16)>, Seq<char>>(None) <==> trim(raw).len() == 0 || trim(raw)[0]
            == '#',
        target_line(raw) matches Ok(Some(t)) ==> target_of(trim(raw), 443) == Ok::<(Seq<char>, u16), Seq<char>>(t),
{
}

/// The header lines of a file: they are refused exactly when a line that is not
/// blank is no header, and else give the headers of those lines, in order.
pub proof fn lemma_header_lines_of_a_file(lines: Seq<Seq<char>>)
    ensures
        headers_in(lines).1 is None <==> forall|i: int|
            0 <= i < lines.len() && trim(#[trigger] lines[i]).len() > 0 ==> header_of(trim(lines[i])) is Ok,
        headers_in(lines).1 is None ==> headers_in(lines).0 == lines.map_values(|l: Seq<char>| trim(l)).filter(
            |l: Seq<char>| l.len() > 0,
        ).map_values(|l: Seq<char>| header_of(l)->Ok_0),
    decreases lines.len(),
{
    reveal(Seq::filter);
    let t = |l: Seq<char>| trim(l);
    let f = |l: Seq<char>| l.len() > 0;
    let h = |l: Seq<char>| header_of(l)->Ok_0;
    if lines.len() > 0 {
        let front = lines.drop_last();
        lemma_header_lines_of_a_file(front);
        assert(lines.map_values(t).drop_last() =~= front.map_values(t));
        assert(lines.map_values(t).last() == trim(lines.last()));
        if headers_in(front).1 is None {
            assert forall|i: int| 0 <= i < lines.len() - 1 && trim(#[trigger] lines[i]).len() > 0 implies header_of(
                trim(lines[i]),
            ) is Ok by {
                assert(front[i] == lines[i]);
            }
        } else {
            let i = choose|i: int|
                0 <= i < front.len() && trim(#[trigger] front[i]).len() > 0 && header_of(trim(front[i])) is Err;
            assert(lines[i] == front[i]);
        }
        let last = lines.len() - 1;
        assert(lines[last] == lines.last());
    }
    if headers_in(lines).1 is None {
        assert(headers_in(lines).0 =~= lines.map_values(t).filter(f).map_values(h));
    }
}

/// The lines of a target list: the list is refused exactly when a line is, and
/// else gives the targets of the lines that name one, in order.
pub proof fn lemma_lines_of_a_target_list(lines: Seq<Seq<char>>)
    ensures
        targets_in(lines).1 is None <==> forall|i: int| 0 <= i < lines.len() ==> target_line(#[trigger] lines[i]) is Ok,
        targets_in(lines).1 is None ==> targets_in(lines).0 == lines.filter(
            |l: Seq<char>| target_line(l)->Ok_0 is Some,
        ).map_values(|l: Seq<char>| target_line(l)->Ok_0->0),
    decreases lines.len(),
{
    reveal(Seq::filter);
    let f = |l: Seq<char>| target_line(l)->Ok_0 is Some;
    let h = |l: Seq<char>| target_line(l)->Ok_0->0;
    if lines.len() > 0 {
        let front = lines.drop_last();
        lemma_lines_of_a_target_list(front);
        if targets_in(front).1 is None {
            assert forall|i: int| 0 <= i < lines.len() - 1 implies target_line(#[trigger] lines[i]) is Ok by {
                assert(front[i] == lines[i]);
            }
        } else {
            let i = choose|i: int| 0 <= i < front.len() && target_line(#[trigger] front[i]) is Err;
            assert(lines[i] == front[i]);
        }
        let last = lines.len() - 1;
        assert(lines[last] == lines.last());
    }
    if targets_in(lines).1 is None {
        assert(targets_in(lines).0 =~= lines.filter(f).map_values(h));
    }
}

/// Where a value comes from: a lone dash is the standard input, an at sign names
/// the file behind it, anything else is the value itself.
pub proof fn lemma_source_of_a_value(raw: Seq<char>, source: Source)
    requires
        names_source(raw, source),
    ensures
        source is Stdin <==> raw == seq!['-'],
        source matches Source::File(path) ==> raw == seq!['@'] + path@ && path@.len() > 0,
        source is MissingPath <==> raw == seq!['@'],
        source is Inline <==> raw != seq!['-'] && (raw.len() == 0 || raw[0] != '@'),
{
    reveal_strlit("-");
    assert("-"@ =~= seq!['-']);
    if raw.len() > 0 && raw[0] == '@' {
        assert(raw =~= seq!['@'] + raw.skip(1));
        if raw.len() == 1 {
            assert(raw =~= seq!['@']);
        }
    }
}

} // verus!
