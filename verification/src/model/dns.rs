//! DNS observation types.

use super::latency::LatencySummary;
use super::probe::FailureCount;
use super::rate::Rate;
use super::{ProbeError, ProbeErrorModel};
use crate::net::{
    groups_text, hex, ipv4_text, ipv6_text, lemma_address_reads_back, longest_run, parse_ip, run_len, IpAddr, Ipv4Addr,
    Ipv6Addr, SocketAddr,
};
use crate::text::{
    chars_of, debug_text, dec, dec_text, dec_value, digit, digit_char, join, lemma_dec_reads_back, lemma_split_join,
    push_dec, quoted, same_text, split,
};
use vstd::prelude::*;

verus! {

/// Which resolver produced a DNS observation.
#[derive(Debug, PartialEq, Eq)]
pub enum ResolverKind {
    /// The operating system's configured resolver.
    System,
    /// An explicitly configured DNS server.
    Custom(SocketAddr),
    /// A DNS-over-HTTPS (RFC 8484) endpoint, e.g. `https://1.1.1.1/dns-query`.
    Doh(String),
    /// A DNS-over-TLS (RFC 7858) endpoint, e.g. `1.1.1.1` (port 853).
    Dot(String),
}

/// The model of a [`ResolverKind`].
#[verifier::ext_equal]
pub enum ResolverModel {
    System,
    Custom(SocketAddr),
    Doh(Seq<char>),
    Dot(Seq<char>),
}

impl DeepView for ResolverKind {
    type V = ResolverModel;

    open spec fn deep_view(&self) -> ResolverModel {
        match self {
            ResolverKind::System => ResolverModel::System,
            ResolverKind::Custom(addr) => ResolverModel::Custom(*addr),
            ResolverKind::Doh(endpoint) => ResolverModel::Doh(endpoint@),
            ResolverKind::Dot(endpoint) => ResolverModel::Dot(endpoint@),
        }
    }
}

impl Clone for ResolverKind {
    fn clone(&self) -> (r: Self)
        ensures
            r == *self,
    {
        match self {
            ResolverKind::System => ResolverKind::System,
            ResolverKind::Custom(addr) => ResolverKind::Custom(*addr),
            ResolverKind::Doh(endpoint) => ResolverKind::Doh(endpoint.clone()),
            ResolverKind::Dot(endpoint) => ResolverKind::Dot(endpoint.clone()),
        }
    }
}

/// The label of a resolver: `system`, a socket address, a `DoH` endpoint, or a
/// `host (DoT)` label.
pub open spec fn resolver_text(r: ResolverModel) -> Seq<char> {
    match r {
        ResolverModel::System => "system"@,
        ResolverModel::Custom(addr) => addr.text(),
        ResolverModel::Doh(endpoint) => endpoint,
        ResolverModel::Dot(endpoint) => endpoint + " (DoT)"@,
    }
}

impl ResolverKind {
    /// The single spelling of a resolver in human, JSON and CSV output.
    pub fn label(&self) -> (out: String)
        ensures
            out@ == resolver_text(self.deep_view()),
    {
        match self {
            ResolverKind::System => "system".to_owned(),
            ResolverKind::Custom(addr) => addr.to_text(),
            ResolverKind::Doh(endpoint) => endpoint.clone(),
            ResolverKind::Dot(endpoint) => {
                let mut out = endpoint.clone();
                out.append(" (DoT)");
                out
            },
        }
    }
}

/// Whether two resolvers are the same.
pub fn same_resolver(a: &ResolverKind, b: &ResolverKind) -> (r: bool)
    ensures
        r == (a.deep_view() == b.deep_view()),
{
    match (a, b) {
        (ResolverKind::System, ResolverKind::System) => true,
        (ResolverKind::Custom(x), ResolverKind::Custom(y)) => *x == *y,
        (ResolverKind::Doh(x), ResolverKind::Doh(y)) => same_text(x.as_str(), y.as_str()),
        (ResolverKind::Dot(x), ResolverKind::Dot(y)) => same_text(x.as_str(), y.as_str()),
        _ => false,
    }
}

/// A DNS record type/query family.
#[derive(Debug, Clone, Copy, PartialEq, Eq, Structural)]
pub enum DnsRecordType {
    /// IPv4 address record.
    A,
    /// IPv6 address record.
    Aaaa,
    /// Canonical name (alias) record.
    Cname,
    /// Mail exchange record.
    Mx,
    /// Text record (SPF, DKIM, etc.).
    Txt,
    /// Authoritative name-server record.
    Ns,
    /// Start-of-authority record.
    Soa,
    /// Certification Authority Authorization record.
    Caa,
    /// Service (SRV) record.
    Srv,
    /// Reverse-lookup (PTR) pointer record.
    Ptr,
}

impl DnsRecordType {
    /// The name of the record type.
    pub open spec fn text(self) -> Seq<char> {
        match self {
            DnsRecordType::A => "A"@,
            DnsRecordType::Aaaa => "AAAA"@,
            DnsRecordType::Cname => "CNAME"@,
            DnsRecordType::Mx => "MX"@,
            DnsRecordType::Txt => "TXT"@,
            DnsRecordType::Ns => "NS"@,
            DnsRecordType::Soa => "SOA"@,
            DnsRecordType::Caa => "CAA"@,
            DnsRecordType::Srv => "SRV"@,
            DnsRecordType::Ptr => "PTR"@,
        }
    }

    /// The name of the record type.
    pub fn to_text(&self) -> (out: &'static str)
        ensures
            out@ == self.text(),
    {
        match self {
            DnsRecordType::A => "A",
            DnsRecordType::Aaaa => "AAAA",
            DnsRecordType::Cname => "CNAME",
            DnsRecordType::Mx => "MX",
            DnsRecordType::Txt => "TXT",
            DnsRecordType::Ns => "NS",
            DnsRecordType::Soa => "SOA",
            DnsRecordType::Caa => "CAA",
            DnsRecordType::Srv => "SRV",
            DnsRecordType::Ptr => "PTR",
        }
    }
}

/// A typed DNS record value returned for a queried record type.
#[derive(Debug, Clone, PartialEq, Eq)]
pub enum DnsRecord {
    /// IPv4 address (A).
    A(Ipv4Addr),
    /// IPv6 address (AAAA).
    Aaaa(Ipv6Addr),
    /// Canonical-name target (CNAME).
    Cname(String),
    /// Mail exchange: priority plus the exchange hostname (MX).
    Mx { preference: u16, exchange: String },
    /// Text blob (TXT); a single TXT record's character-strings are joined.
    Txt(String),
    /// Authoritative name server (NS).
    Ns(String),
    /// Start-of-authority fields, space-joined (SOA).
    Soa(String),
    /// Certification Authority Authorization: flags, tag and value (CAA).
    Caa { flags: u8, tag: String, value: String },
    /// Service endpoint: priority, weight, port and target hostname (SRV).
    Srv { priority: u16, weight: u16, port: u16, target: String },
    /// Reverse-lookup pointer (PTR): the hostname mapped to the queried
    /// address.
    Ptr(String),
}

/// The model of a [`DnsRecord`].
#[verifier::ext_equal]
pub enum DnsRecordModel {
    A(Ipv4Addr),
    Aaaa(Ipv6Addr),
    Cname(Seq<char>),
    Mx { preference: u16, exchange: Seq<char> },
    Txt(Seq<char>),
    Ns(Seq<char>),
    Soa(Seq<char>),
    Caa { flags: u8, tag: Seq<char>, value: Seq<char> },
    Srv { priority: u16, weight: u16, port: u16, target: Seq<char> },
    Ptr(Seq<char>),
}

impl DeepView for DnsRecord {
    type V = DnsRecordModel;

    open spec fn deep_view(&self) -> DnsRecordModel {
        match self {
            DnsRecord::A(ip) => DnsRecordModel::A(*ip),
            DnsRecord::Aaaa(ip) => DnsRecordModel::Aaaa(*ip),
            DnsRecord::Cname(name) => DnsRecordModel::Cname(name@),
            DnsRecord::Mx { preference, exchange } => DnsRecordModel::Mx {
                preference: *preference,
                exchange: exchange@,
            },
            DnsRecord::Txt(text) => DnsRecordModel::Txt(text@),
            DnsRecord::Ns(name) => DnsRecordModel::Ns(name@),
            DnsRecord::Soa(text) => DnsRecordModel::Soa(text@),
            DnsRecord::Caa { flags, tag, value } => DnsRecordModel::Caa {
                flags: *flags,
                tag: tag@,
                value: value@,
            },
            DnsRecord::Srv { priority, weight, port, target } => DnsRecordModel::Srv {
                priority: *priority,
                weight: *weight,
                port: *port,
                target: target@,
            },
            DnsRecord::Ptr(name) => DnsRecordModel::Ptr(name@),
        }
    }
}

/// The address of an address record.
pub open spec fn record_address(r: DnsRecordModel) -> Option<IpAddr> {
    match r {
        DnsRecordModel::A(ip) => Some(IpAddr::V4(ip)),
        DnsRecordModel::Aaaa(ip) => Some(IpAddr::V6(ip)),
        _ => None,
    }
}

/// Whether `c` is a control character (C0, DEL or C1).
pub open spec fn is_control(c: char) -> bool {
    c as u32 <= 0x1F || 0x7F <= c as u32 <= 0x9F
}

/// Whether `c` is a control character (C0, DEL or C1).
pub fn control(c: char) -> (r: bool)
    ensures
        r == is_control(c),
{
    let u: u32 = c as u32;
    u <= 0x1F || (0x7F <= u && u <= 0x9F)
}

/// A character as presented: verbatim, or a backslash and the three octal
/// digits of a control character.
pub open spec fn present_char(c: char) -> Seq<char> {
    if is_control(c) {
        let u = c as u32 as nat;
        seq!['\\', digit_char((u / 64) % 8), digit_char((u / 8) % 8), digit_char(u % 8)]
    } else {
        seq![c]
    }
}

/// A text as presented: control characters escaped, everything else verbatim.
pub open spec fn present(s: Seq<char>) -> Seq<char>
    decreases s.len(),
{
    if s.len() == 0 {
        Seq::empty()
    } else {
        present(s.drop_last()) + present_char(s.last())
    }
}

/// Present a name-bearing record value for terminal/CSV safety: printable
/// characters verbatim, every control character as a `\NNN` octal escape.
pub fn esc_present(s: &str) -> (out: String)
    ensures
        out@ == present(s@),
{
    let chars = chars_of(s);
    let mut out = String::new();
    for i in 0..chars.len()
        invariant
            chars@ == s@,
            out@ == present(s@.take(i as int)),
    {
        let c = chars[i];
        assert(s@.take(i as int + 1).drop_last() =~= s@.take(i as int));
        if control(c) {
            let u: u64 = c as u32 as u64;
            out.push('\\');
            out.push(digit((u / 64) % 8));
            out.push(digit((u / 8) % 8));
            out.push(digit(u % 8));
        } else {
            out.push(c);
        }
        assert(out@ =~= present(s@.take(i as int)) + present_char(c));
    }
    assert(s@.take(s@.len() as int) =~= s@);
    out
}

/// No presented text holds a control character, whatever the answer carried.
pub proof fn lemma_present_is_printable(s: Seq<char>)
    ensures
        forall|i: int| 0 <= i < present(s).len() ==> !is_control(#[trigger] present(s)[i]),
    decreases s.len(),
{
    if s.len() > 0 {
        lemma_present_is_printable(s.drop_last());
        let front = present(s.drop_last());
        let tail = present_char(s.last());
        assert forall|i: int| 0 <= i < present(s).len() implies !is_control(#[trigger] present(s)[i]) by {
            if i < front.len() {
                assert(!is_control(front[i]));
            } else {
                assert(present(s)[i] == tail[i - front.len()]);
            }
        }
    }
}

/// Presenting a text without control characters changes nothing.
pub proof fn lemma_present_keeps_printable(s: Seq<char>)
    requires
        forall|i: int| 0 <= i < s.len() ==> !is_control(#[trigger] s[i]),
    ensures
        present(s) == s,
    decreases s.len(),
{
    if s.len() > 0 {
        assert(!is_control(s[s.len() - 1]));
        lemma_present_keeps_printable(s.drop_last());
        assert(present(s) =~= s);
    }
}

/// The human-readable form of a record. Every text that an answer carried is
/// presented, the quoted one too, whatever quoting already escapes.
pub open spec fn record_text(r: DnsRecordModel) -> Seq<char> {
    match r {
        DnsRecordModel::A(ip) => ipv4_text(ip),
        DnsRecordModel::Aaaa(ip) => ipv6_text(ip),
        DnsRecordModel::Cname(name) => present(name),
        DnsRecordModel::Ns(name) => present(name),
        DnsRecordModel::Ptr(name) => present(name),
        DnsRecordModel::Mx { preference, exchange } => dec(preference as nat) + " "@ + present(exchange),
        DnsRecordModel::Txt(text) => present(quoted(text)),
        DnsRecordModel::Soa(text) => present(text),
        DnsRecordModel::Caa { flags, tag, value } => dec(flags as nat) + " "@ + present(tag) + " "@ + present(
            value,
        ),
        DnsRecordModel::Srv { priority, weight, port, target } => dec(priority as nat) + " "@ + dec(weight as nat)
            + " "@ + dec(port as nat) + " "@ + present(target),
    }
}

/// Whether a text holds no control character.
pub open spec fn is_printable(s: Seq<char>) -> bool {
    forall|i: int| 0 <= i < s.len() ==> !is_control(#[trigger] s[i])
}

/// Printable texts in a row are printable.
broadcast proof fn lemma_printable_add(a: Seq<char>, b: Seq<char>)
    requires
        is_printable(a),
        is_printable(b),
    ensures
        is_printable(#[trigger] (a + b)),
{
    assert forall|i: int| 0 <= i < (a + b).len() implies !is_control(#[trigger] (a + b)[i]) by {
        if i < a.len() {
            assert(!is_control(a[i]));
        } else {
            assert(!is_control(b[i - a.len()]));
        }
    }
}

/// A decimal numeral is printable.
broadcast proof fn lemma_dec_printable(n: nat)
    ensures
        is_printable(#[trigger] dec(n)),
    decreases n,
{
    if n >= 10 {
        lemma_dec_printable(n / 10);
    }
}

/// A hexadecimal numeral is printable.
broadcast proof fn lemma_hex_printable(n: nat)
    ensures
        is_printable(#[trigger] hex(n)),
    decreases n,
{
    if n >= 16 {
        lemma_hex_printable(n / 16);
    }
}

/// A presented text is printable.
broadcast proof fn lemma_present_printable(s: Seq<char>)
    ensures
        is_printable(#[trigger] present(s)),
{
    lemma_present_is_printable(s);
}

/// Groups of an address are printable.
proof fn lemma_groups_printable(g: Seq<u16>)
    ensures
        is_printable(groups_text(g)),
    decreases g.len(),
{
    broadcast use {lemma_printable_add, lemma_hex_printable};

    reveal_strlit(":");
    if g.len() > 1 {
        lemma_groups_printable(g.drop_last());
    }
}

/// The text of an address is printable.
proof fn lemma_ipv6_printable(ip: Ipv6Addr)
    ensures
        is_printable(ipv6_text(ip)),
{
    broadcast use {lemma_printable_add, lemma_dec_printable};

    reveal_strlit(".");
    reveal_strlit("::");
    reveal_strlit("::ffff:");
    let g = ip.groups();
    let start = longest_run(g, 8);
    lemma_groups_printable(g);
    lemma_groups_printable(g.take(start));
    lemma_groups_printable(g.skip(start + run_len(g, start)));
}

/// No record is shown with a control character, whatever its data holds and
/// however it was resolved.
pub proof fn lemma_record_text_is_printable(r: DnsRecordModel)
    ensures
        is_printable(record_text(r)),
{
    broadcast use {lemma_printable_add, lemma_dec_printable, lemma_present_printable};

    reveal_strlit(".");
    reveal_strlit(" ");
    match r {
        DnsRecordModel::Aaaa(ip) => lemma_ipv6_printable(ip),
        _ => {},
    }
}

impl DnsRecord {
    /// The resolved address for A/AAAA records.
    pub fn address(&self) -> (r: Option<IpAddr>)
        ensures
            r == record_address(self.deep_view()),
    {
        match self {
            DnsRecord::A(ip) => Some(IpAddr::V4(*ip)),
            DnsRecord::Aaaa(ip) => Some(IpAddr::V6(*ip)),
            _ => None,
        }
    }

    /// The human-readable form of the record.
    pub fn to_text(&self) -> (out: String)
        ensures
            out@ == record_text(self.deep_view()),
    {
        match self {
            DnsRecord::A(ip) => ip.to_text(),
            DnsRecord::Aaaa(ip) => ip.to_text(),
            DnsRecord::Cname(name) => esc_present(name.as_str()),
            DnsRecord::Ns(name) => esc_present(name.as_str()),
            DnsRecord::Ptr(name) => esc_present(name.as_str()),
            DnsRecord::Mx { preference, exchange } => {
                let mut out = dec_text(*preference as u64);
                out.append(" ");
                out.append(esc_present(exchange.as_str()).as_str());
                out
            },
            DnsRecord::Txt(text) => esc_present(debug_text(text.as_str()).as_str()),
            DnsRecord::Soa(text) => esc_present(text.as_str()),
            DnsRecord::Caa { flags, tag, value } => {
                let mut out = dec_text(*flags as u64);
                out.append(" ");
                out.append(esc_present(tag.as_str()).as_str());
                out.append(" ");
                out.append(esc_present(value.as_str()).as_str());
                out
            },
            DnsRecord::Srv { priority, weight, port, target } => {
                let mut out = dec_text(*priority as u64);
                out.append(" ");
                push_dec(&mut out, *weight as u64);
                out.append(" ");
                push_dec(&mut out, *port as u64);
                out.append(" ");
                out.append(esc_present(target.as_str()).as_str());
                out
            },
        }
    }
}

/// A single DNS query result for one record type via one resolver.
///
/// `latency_ms` and `error` are exclusive: a successful query has a latency
/// and an empty `error`; a failed query has an error and no latency.
#[derive(Debug, Clone, PartialEq, Eq)]
pub struct DnsObservation {
    /// Hostname that was queried.
    pub hostname: String,
    /// Resolver that answered (or failed).
    pub resolver: ResolverKind,
    /// Record type queried.
    pub record_type: DnsRecordType,
    /// Records returned (empty on failure).
    pub records: Vec<DnsRecord>,
    /// Time-to-live in seconds of the first answering record, when the query
    /// succeeded (`None` on failure or a literal short-circuit).
    pub ttl: Option<u32>,
    /// Query latency in milliseconds, when the query succeeded.
    pub latency_ms: Option<u64>,
    /// Failure detail, when the query failed.
    pub error: Option<ProbeError>,
}

/// The model of a [`DnsObservation`].
#[verifier::ext_equal]
pub struct DnsObservationModel {
    pub hostname: Seq<char>,
    pub resolver: ResolverModel,
    pub record_type: DnsRecordType,
    pub records: Seq<DnsRecordModel>,
    pub ttl: Option<u32>,
    pub latency_ms: Option<u64>,
    pub error: Option<ProbeErrorModel>,
}

impl DeepView for DnsObservation {
    type V = DnsObservationModel;

    open spec fn deep_view(&self) -> DnsObservationModel {
        DnsObservationModel {
            hostname: self.hostname@,
            resolver: self.resolver.deep_view(),
            record_type: self.record_type,
            records: self.records.deep_view(),
            ttl: self.ttl,
            latency_ms: self.latency_ms,
            error: self.error.deep_view(),
        }
    }
}

/// Aggregated result of repeatedly resolving one hostname, keyed by resolver
/// and record type.
#[derive(Debug, Clone)]
pub struct DnsRepeatResult {
    /// Resolver that answered (or failed).
    pub resolver: ResolverKind,
    /// Record type queried.
    pub record_type: DnsRecordType,
    /// Total query attempts.
    pub attempts: usize,
    /// Queries that answered.
    pub successes: usize,
    /// Queries that failed.
    pub failures: usize,
    /// Success rate, between zero and one.
    pub success_rate: Rate,
    /// Latency statistics over the successful queries.
    pub latency: LatencySummary,
    /// Failure distribution (count per failure kind).
    pub failure_counts: Vec<FailureCount>,
    /// Minimum record time-to-live (seconds) observed across the successful
    /// answers. `None` when no attempt returned a TTL.
    pub ttl: Option<u32>,
}

impl DnsRepeatResult {
    /// Success rate, between zero and one.
    pub fn success_rate(&self) -> (r: Rate)
        ensures
            r == self.success_rate,
    {
        self.success_rate
    }
}

// --- reading records back ----------------------------------------------------------------

/// An escaped control character is read back: a backslash and the three octal
/// digits of its code.
pub proof fn lemma_escape_reads_back(c: char)
    ensures
        !is_control(c) ==> present_char(c) == seq![c],
        is_control(c) ==> {
            let e = present_char(c);
            &&& e.len() == 4
            &&& e[0] == '\\'
            &&& forall|i: int| 1 <= i < 4 ==> '0' <= #[trigger] e[i] && e[i] <= '7'
            &&& (e[1] as int - '0' as int) * 64 + (e[2] as int - '0' as int) * 8 + (e[3] as int - '0' as int) == c as int
        },
{
    if is_control(c) {
        let u = c as u32 as nat;
        assert(u < 256);
        assert((u / 64) % 8 == u / 64);
        assert(u == (u / 64) * 64 + ((u / 8) % 8) * 8 + u % 8);
        let e = present_char(c);
        assert(e[1] as int == '0' as int + (u / 64) % 8);
        assert(e[2] as int == '0' as int + (u / 8) % 8);
        assert(e[3] as int == '0' as int + u % 8);
    }
}

/// A decimal numeral holds no blank.
proof fn lemma_numeral_has_no_blank(n: nat)
    ensures
        !dec(n).contains(' '),
{
    lemma_dec_reads_back(n);
    assert forall|i: int| 0 <= i < dec(n).len() implies dec(n)[i] != ' ' by {
        assert('0' <= dec(n)[i]);
    }
}

/// The fields of a mail exchange, a service or an authorization record are read
/// back from its text, split at the blanks, where no field holds one.
pub proof fn lemma_record_fields_read_back(r: DnsRecordModel)
    ensures
        r matches DnsRecordModel::Mx { preference, exchange } ==> (!present(exchange).contains(' ') ==> {
            let p = split(record_text(r), ' ');
            p.len() == 2 && dec_value(p[0]) == preference && p[1] == present(exchange)
        }),
        r matches DnsRecordModel::Caa { flags, tag, value } ==> (!present(tag).contains(' ') && !present(
            value,
        ).contains(' ') ==> {
            let p = split(record_text(r), ' ');
            p.len() == 3 && dec_value(p[0]) == flags && p[1] == present(tag) && p[2] == present(value)
        }),
        r matches DnsRecordModel::Srv { priority, weight, port, target } ==> (!present(target).contains(' ') ==> {
            let p = split(record_text(r), ' ');
            p.len() == 4 && dec_value(p[0]) == priority && dec_value(p[1]) == weight && dec_value(p[2]) == port
                && p[3] == present(target)
        }),
{
    reveal_strlit(" ");
    assert(" "@ =~= seq![' ']);
    reveal_with_fuel(join, 5);
    match r {
        DnsRecordModel::Mx { preference, exchange } => {
            lemma_numeral_has_no_blank(preference as nat);
            lemma_dec_reads_back(preference as nat);
            if !present(exchange).contains(' ') {
                let p = seq![dec(preference as nat), present(exchange)];
                assert(p.drop_last() =~= seq![dec(preference as nat)]);
                assert(record_text(r) =~= join(p, seq![' ']));
                lemma_split_join(p, ' ');
            }
        },
        DnsRecordModel::Caa { flags, tag, value } => {
            lemma_numeral_has_no_blank(flags as nat);
            lemma_dec_reads_back(flags as nat);
            if !present(tag).contains(' ') && !present(value).contains(' ') {
                let p = seq![dec(flags as nat), present(tag), present(value)];
                assert(p.drop_last() =~= seq![dec(flags as nat), present(tag)]);
                assert(p.drop_last().drop_last() =~= seq![dec(flags as nat)]);
                assert(record_text(r) =~= join(p, seq![' ']));
                lemma_split_join(p, ' ');
            }
        },
        DnsRecordModel::Srv { priority, weight, port, target } => {
            let (a, b, c) = (dec(priority as nat), dec(weight as nat), dec(port as nat));
            lemma_numeral_has_no_blank(priority as nat);
            lemma_numeral_has_no_blank(weight as nat);
            lemma_numeral_has_no_blank(port as nat);
            lemma_dec_reads_back(priority as nat);
            lemma_dec_reads_back(weight as nat);
            lemma_dec_reads_back(port as nat);
            if !present(target).contains(' ') {
                let p = seq![a, b, c, present(target)];
                assert(p.drop_last() =~= seq![a, b, c]);
                assert(p.drop_last().drop_last() =~= seq![a, b]);
                assert(p.drop_last().drop_last().drop_last() =~= seq![a]);
                assert(record_text(r) =~= join(p, seq![' ']));
                lemma_split_join(p, ' ');
            }
        },
        _ => {},
    }
}

/// An address record is read back from its text.
pub proof fn lemma_address_record_reads_back(r: DnsRecordModel)
    ensures
        r matches DnsRecordModel::A(ip) ==> parse_ip(record_text(r)) == Some(IpAddr::V4(ip)),
        r matches DnsRecordModel::Aaaa(ip) ==> parse_ip(record_text(r)) == Some(IpAddr::V6(ip)),
        record_address(r) is Some <==> r is A || r is Aaaa,
        record_address(r) matches Some(ip) ==> ip.text() == record_text(r),
{
    match r {
        DnsRecordModel::A(ip) => lemma_address_reads_back(IpAddr::V4(ip)),
        DnsRecordModel::Aaaa(ip) => lemma_address_reads_back(IpAddr::V6(ip)),
        _ => {},
    }
}

} // verus!
