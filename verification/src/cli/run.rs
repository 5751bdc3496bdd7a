//! How a run is planned, guarded and ended.

use super::args::{literal_answers, literal_observations, reverse_name, reverse_zone, DEFAULT_PORT};
use super::flow::literal_address;
use super::tables::TargetDns;
use crate::http_common::bare_host;
use crate::model::dns::DnsObservationModel;
use crate::model::{
    DnsObservation, DnsRecordType, DnsRepeatResult, HttpObservation, ProbeResult, TcpObservation, TlsObservation,
};
use crate::net::{parse_ip, IpAddr};
use crate::route::{RouteHop, RouteHopStats, RouteRepeat};
use crate::target::Target;
use crate::text::{dec, dec_text, glue, glue3, push_dec, push_text, same_text, texts};
use vstd::prelude::*;

verus! {

/// Hard upper bound on concurrency to avoid resource exhaustion.
pub const MAX_CONCURRENCY: usize = 256;

/// The number of probes that run at once: at least one, at most
/// [`MAX_CONCURRENCY`].
pub fn bounded_concurrency(n: usize) -> (r: usize)
    ensures
        r == (if n < 1 {
            1
        } else if n > MAX_CONCURRENCY {
            MAX_CONCURRENCY
        } else {
            n
        }),
        1 <= r <= 256,
        1 <= n <= 256 ==> r == n,
{
    if n < 1 {
        1
    } else if n > MAX_CONCURRENCY {
        MAX_CONCURRENCY
    } else {
        n
    }
}

/// How results are printed.
#[derive(Debug, Clone, Copy, PartialEq, Eq, Structural)]
pub enum Output {
    Csv,
    Json,
    Human,
}

/// How results are printed: `--csv` wins over `--json`, and neither is human
/// text.
pub fn output_format(csv: bool, json: bool) -> (r: Output)
    ensures
        r == (if csv {
            Output::Csv
        } else if json {
            Output::Json
        } else {
            Output::Human
        }),
{
    if csv {
        Output::Csv
    } else if json {
        Output::Json
    } else {
        Output::Human
    }
}

// --- sweeps ------------------------------------------------------------------------------

/// The human text of a sweep: the blocks in order, each under its host unless
/// there is a single target.
pub open spec fn sweep(blocks: Seq<(String, String)>, single: bool) -> Seq<char>
    decreases blocks.len(),
{
    if blocks.len() == 0 {
        Seq::empty()
    } else {
        let (host, text) = blocks.last();
        sweep(blocks.drop_last(), single) + (if single {
            text@
        } else {
            host@ + ":\n"@ + text@
        })
    }
}

/// The human text of a sweep.
pub fn sweep_text(blocks: &[(String, String)], single: bool) -> (out: String)
    ensures
        out@ == sweep(blocks@, single),
{
    let mut out = String::new();
    assert(out@ =~= Seq::empty());
    for i in 0..blocks.len()
        invariant
            out@ == sweep(blocks@.take(i as int), single),
    {
        assert(blocks@.take(i as int + 1).drop_last() =~= blocks@.take(i as int));
        let host = blocks[i].0.as_str();
        let text = blocks[i].1.as_str();
        if single {
            out.append(text);
        } else {
            out.append(glue3(host, ":\n", text).as_str());
        }
    }
    assert(blocks@.take(blocks@.len() as int) =~= blocks@);
    out
}

/// A number before a text.
fn counted(n: usize, text: &str) -> (out: String)
    ensures
        out@ == dec(n as nat) + text@,
{
    let mut out = dec_text(n as u64);
    out.append(text);
    out
}

/// Why a sweep ends in failure, where it does: a target that did not resolve,
/// or, with `--strict`, a probe that failed.
pub open spec fn sweep_failure(unresolved: nat, failed: nat, strict: bool) -> Option<Seq<char>> {
    if unresolved > 0 {
        Some(dec(unresolved) + " target(s) did not resolve to any address"@)
    } else if strict && failed > 0 {
        Some(dec(failed) + " probe(s) failed to complete (--strict)"@)
    } else {
        None
    }
}

/// Why a sweep ends in failure, where it does.
pub fn sweep_error(unresolved: usize, failed: usize, strict: bool) -> (r: Option<String>)
    ensures
        r is Some == (sweep_failure(unresolved as nat, failed as nat, strict) is Some),
        r matches Some(e) ==> sweep_failure(unresolved as nat, failed as nat, strict) == Some(e@),
{
    if unresolved > 0 {
        Some(counted(unresolved, " target(s) did not resolve to any address"))
    } else if strict && failed > 0 {
        Some(counted(failed, " probe(s) failed to complete (--strict)"))
    } else {
        None
    }
}

/// Why a DNS sweep ends in failure, where it does.
pub fn dns_error(failed: usize, strict: bool) -> (r: Option<String>)
    ensures
        r is Some == (strict && failed > 0),
        r matches Some(e) ==> e@ == dec(failed as nat) + " DNS lookup(s) failed (--strict)"@,
{
    if strict && failed > 0 {
        Some(counted(failed, " DNS lookup(s) failed (--strict)"))
    } else {
        None
    }
}

/// Why a diagnosis run ends in failure, where it does: a host that did not
/// resolve, or, with `--strict`, an anomaly.
pub open spec fn diagnose_failure(unresolved: nat, anomalies: nat, strict: bool) -> Option<Seq<char>> {
    if unresolved > 0 {
        Some(dec(unresolved) + " host(s) did not resolve to any address"@)
    } else if strict && anomalies > 0 {
        Some(dec(anomalies) + " anomaly diagnosis(es) raised (--strict)"@)
    } else {
        None
    }
}

/// Why a diagnosis run ends in failure, where it does.
pub fn diagnose_error(unresolved: usize, anomalies: usize, strict: bool) -> (r: Option<String>)
    ensures
        r is Some == (diagnose_failure(unresolved as nat, anomalies as nat, strict) is Some),
        r matches Some(e) ==> diagnose_failure(unresolved as nat, anomalies as nat, strict) == Some(e@),
{
    if unresolved > 0 {
        Some(counted(unresolved, " host(s) did not resolve to any address"))
    } else if strict && anomalies > 0 {
        Some(counted(anomalies, " anomaly diagnosis(es) raised (--strict)"))
    } else {
        None
    }
}

/// The complaint about a host that no resolver of a diagnosis run knows.
pub fn unresolved_host(host: &str) -> (out: String)
    ensures
        out@ == "hostname "@ + host@
            + " did not resolve to any address via the system resolver, --server, --doh, or --dot resolvers"@,
{
    glue3(
        "hostname ",
        host,
        " did not resolve to any address via the system resolver, --server, --doh, or --dot resolvers",
    )
}

// --- what counts as failed ---------------------------------------------------------------

/// The number of true values.
pub open spec fn true_count(flags: Seq<bool>) -> nat
    decreases flags.len(),
{
    if flags.len() == 0 {
        0
    } else {
        true_count(flags.drop_last()) + if flags.last() {
            1nat
        } else {
            0nat
        }
    }
}

/// The failed connection attempts.
pub fn failed_tcp(s: &[TcpObservation]) -> (n: usize)
    ensures
        n == true_count(s@.map_values(|o: TcpObservation| !o.success)),
        n <= s@.len(),
{
    let ghost flags = s@.map_values(|o: TcpObservation| !o.success);
    let mut n: usize = 0;
    for i in 0..s.len()
        invariant
            flags == s@.map_values(|o: TcpObservation| !o.success),
            n == true_count(flags.take(i as int)),
            n <= i,
    {
        assert(flags.take(i as int + 1).drop_last() =~= flags.take(i as int));
        if !s[i].success {
            n = n + 1;
        }
    }
    assert(flags.take(flags.len() as int) =~= flags);
    n
}

/// The failed handshakes.
pub fn failed_tls(s: &[TlsObservation]) -> (n: usize)
    ensures
        n == true_count(s@.map_values(|o: TlsObservation| !o.success)),
        n <= s@.len(),
{
    let ghost flags = s@.map_values(|o: TlsObservation| !o.success);
    let mut n: usize = 0;
    for i in 0..s.len()
        invariant
            flags == s@.map_values(|o: TlsObservation| !o.success),
            n == true_count(flags.take(i as int)),
            n <= i,
    {
        assert(flags.take(i as int + 1).drop_last() =~= flags.take(i as int));
        if !s[i].success {
            n = n + 1;
        }
    }
    assert(flags.take(flags.len() as int) =~= flags);
    n
}

/// The failed requests.
pub fn failed_http(s: &[HttpObservation]) -> (n: usize)
    ensures
        n == true_count(s@.map_values(|o: HttpObservation| o.failure is Some)),
        n <= s@.len(),
{
    let ghost flags = s@.map_values(|o: HttpObservation| o.failure is Some);
    let mut n: usize = 0;
    for i in 0..s.len()
        invariant
            flags == s@.map_values(|o: HttpObservation| o.failure is Some),
            n == true_count(flags.take(i as int)),
            n <= i,
    {
        assert(flags.take(i as int + 1).drop_last() =~= flags.take(i as int));
        if s[i].failure.is_some() {
            n = n + 1;
        }
    }
    assert(flags.take(flags.len() as int) =~= flags);
    n
}

/// The repeated probes with any failure.
pub fn failed_probes(s: &[ProbeResult]) -> (n: usize)
    ensures
        n == true_count(s@.map_values(|o: ProbeResult| o.failures > 0)),
        n <= s@.len(),
{
    let ghost flags = s@.map_values(|o: ProbeResult| o.failures > 0);
    let mut n: usize = 0;
    for i in 0..s.len()
        invariant
            flags == s@.map_values(|o: ProbeResult| o.failures > 0),
            n == true_count(flags.take(i as int)),
            n <= i,
    {
        assert(flags.take(i as int + 1).drop_last() =~= flags.take(i as int));
        if s[i].failures > 0 {
            n = n + 1;
        }
    }
    assert(flags.take(flags.len() as int) =~= flags);
    n
}

/// The failed lookups of a target.
pub open spec fn lookup_failures(o: TargetDns) -> nat {
    if o.repeat {
        true_count(o.results@.map_values(|r: DnsRepeatResult| r.failures > 0))
    } else {
        true_count(o.observations@.map_values(|x: DnsObservation| x.error is Some))
    }
}

/// The failed lookups of a target: repeat rows with any failure, or
/// observations with an error.
pub fn failed_lookups(o: &TargetDns) -> (n: usize)
    ensures
        n == lookup_failures(*o),
{
    let mut n: usize = 0;
    if o.repeat {
        let ghost flags = o.results@.map_values(|r: DnsRepeatResult| r.failures > 0);
        for i in 0..o.results.len()
            invariant
                flags == o.results@.map_values(|r: DnsRepeatResult| r.failures > 0),
                n == true_count(flags.take(i as int)),
                n <= i,
        {
            assert(flags.take(i as int + 1).drop_last() =~= flags.take(i as int));
            if o.results[i].failures > 0 {
                n = n + 1;
            }
        }
        assert(flags.take(flags.len() as int) =~= flags);
    } else {
        let ghost flags = o.observations@.map_values(|x: DnsObservation| x.error is Some);
        for i in 0..o.observations.len()
            invariant
                flags == o.observations@.map_values(|x: DnsObservation| x.error is Some),
                n == true_count(flags.take(i as int)),
                n <= i,
        {
            assert(flags.take(i as int + 1).drop_last() =~= flags.take(i as int));
            if o.observations[i].error.is_some() {
                n = n + 1;
            }
        }
        assert(flags.take(flags.len() as int) =~= flags);
    }
    n
}

// --- DNS plans ---------------------------------------------------------------------------

/// The note on a target's port, which a DNS lookup does not use.
pub fn port_note(target: &Target) -> (r: Option<String>)
    ensures
        r is Some == (target.port != DEFAULT_PORT),
        r matches Some(t) ==> t@ == "Note: ignoring the :"@ + dec(target.port as nat) + " port of "@ + target.host@
            + " (DNS queries a resolver, not the target's port)"@,
{
    if target.port == DEFAULT_PORT {
        return None;
    }
    let mut out = "Note: ignoring the :".to_owned();
    push_dec(&mut out, target.port as u64);
    out.append(" port of ");
    out.append(target.host.as_str());
    out.append(" (DNS queries a resolver, not the target's port)");
    Some(out)
}

/// How a target is looked up.
pub enum DnsPlan {
    /// Nothing is queried: the literal is its own answer.
    Literal { observations: Vec<DnsObservation>, notes: Vec<String> },
    /// A reverse lookup of a literal under this name.
    Reverse { query: String, repeat: bool },
    /// A lookup of the host itself.
    Forward { repeat: bool },
}

/// The model of a [`DnsPlan`].
pub enum PlanModel {
    Literal { observations: Seq<DnsObservationModel>, notes: Seq<Seq<char>> },
    Reverse { query: Seq<char>, repeat: bool },
    Forward { repeat: bool },
}

impl DeepView for DnsPlan {
    type V = PlanModel;

    open spec fn deep_view(&self) -> PlanModel {
        match self {
            DnsPlan::Literal { observations, notes } => PlanModel::Literal {
                observations: observations.deep_view(),
                notes: texts(notes@),
            },
            DnsPlan::Reverse { query, repeat } => PlanModel::Reverse { query: query@, repeat: *repeat },
            DnsPlan::Forward { repeat } => PlanModel::Forward { repeat: *repeat },
        }
    }
}

/// The notes on a literal: what of the arguments it leaves unused.
pub open spec fn literal_notes(count: nat, resolvers: bool) -> Seq<Seq<char>> {
    (if resolvers {
        seq![
            "Note: --server/--doh/--dot are ignored for an IP-literal forward lookup (the address is reported directly, nothing is resolved); use --record-type PTR <ip> to query a resolver for the reverse zone"@,
        ]
    } else {
        Seq::empty()
    }) + (if count > 1 {
        seq![
            "Note: --count "@ + dec(count)
                + " is ignored for an IP-literal target (no repeat aggregation applies); use --record-type PTR <ip> to repeat a reverse lookup"@,
        ]
    } else {
        Seq::empty()
    })
}

/// How a target is looked up: a literal asked for its PTR record alone goes to
/// the resolvers under its reverse zone, any other literal answers itself, and
/// a name is looked up, repeatedly where more than one attempt is asked for.
pub open spec fn plan_of(host: Seq<char>, types: Seq<DnsRecordType>, count: nat, resolvers: bool) -> PlanModel {
    match parse_ip(bare_host(host)) {
        Some(literal) => if types.len() == 1 && types[0] == DnsRecordType::Ptr {
            PlanModel::Reverse { query: reverse_name(literal), repeat: count > 1 }
        } else {
            PlanModel::Literal {
                observations: literal_answers(host, literal, types),
                notes: literal_notes(count, resolvers),
            }
        },
        None => PlanModel::Forward { repeat: count > 1 },
    }
}

/// Decide how a target is looked up; `resolvers` tells whether any resolver
/// was configured.
pub fn dns_plan(host: &str, types: &[DnsRecordType], count: usize, resolvers: bool) -> (r: DnsPlan)
    ensures
        r.deep_view() == plan_of(host@, types@, count as nat, resolvers),
{
    match literal_address(host) {
        Some(literal) => {
            if types.len() == 1 && types[0] == DnsRecordType::Ptr {
                return DnsPlan::Reverse { query: reverse_zone(literal), repeat: count > 1 };
            }
            let mut notes: Vec<String> = Vec::new();
            assert(texts(notes@) =~= Seq::empty());
            if resolvers {
                push_text(
                    &mut notes,
                    "Note: --server/--doh/--dot are ignored for an IP-literal forward lookup (the address is reported directly, nothing is resolved); use --record-type PTR <ip> to query a resolver for the reverse zone".to_owned(),
                );
            }
            if count > 1 {
                let mut note = glue("Note: --count ", dec_text(count as u64).as_str());
                note.append(
                    " is ignored for an IP-literal target (no repeat aggregation applies); use --record-type PTR <ip> to repeat a reverse lookup",
                );
                push_text(&mut notes, note);
            }
            assert(texts(notes@) =~= literal_notes(count as nat, resolvers));
            DnsPlan::Literal { observations: literal_observations(host, literal, types), notes }
        },
        None => DnsPlan::Forward { repeat: count > 1 },
    }
}

/// Label observations with the target they were made for.
pub fn relabel(observations: &mut Vec<DnsObservation>, host: &str)
    ensures
        final(observations)@.len() == old(observations)@.len(),
        forall|i: int|
            0 <= i < final(observations)@.len() ==> (#[trigger] final(observations)@[i]).deep_view() == (
            DnsObservationModel { hostname: host@, ..old(observations)@[i].deep_view() }),
{
    let ghost before = observations@;
    let n = observations.len();
    for i in 0..n
        invariant
            n == before.len(),
            observations@.len() == before.len(),
            before == old(observations)@,
            forall|j: int|
                0 <= j < i ==> (#[trigger] observations@[j]).deep_view() == (DnsObservationModel {
                    hostname: host@,
                    ..before[j].deep_view()
                }),
            forall|j: int| i <= j < before.len() ==> #[trigger] observations@[j] == before[j],
    {
        observations[i].hostname = host.to_owned();
    }
}

// --- routes ------------------------------------------------------------------------------

/// The complaint about a number of repeated traces, where there is one: the
/// per-hop aggregate is 16-bit.
pub fn route_count_error(count: usize) -> (r: Option<String>)
    ensures
        r is Some == (count > 0xFFFF),
        r matches Some(e) ==> e@ == "--count is at most 65535 for route (the per-hop aggregate is 16-bit)"@,
{
    if count > 0xFFFF {
        Some("--count is at most 65535 for route (the per-hop aggregate is 16-bit)".to_owned())
    } else {
        None
    }
}

/// Whether an address is the first IPv4 address of a list.
pub open spec fn first_ipv4(addrs: Seq<IpAddr>, ip: IpAddr) -> bool {
    exists|i: int|
        0 <= i < addrs.len() && #[trigger] addrs[i] == ip && ip is V4 && forall|j: int|
            0 <= j < i ==> #[trigger] addrs[j] is V6
}

/// The address to trace: the first IPv4 address.
pub fn route_target(addrs: &[IpAddr], host: &str) -> (r: Result<IpAddr, String>)
    ensures
        r matches Ok(ip) ==> first_ipv4(addrs@, ip),
        r matches Err(e) ==> (forall|i: int| 0 <= i < addrs@.len() ==> #[trigger] addrs@[i] is V6) && e@
            == "route diagnostics need an IPv4 address for "@ + host@,
{
    for i in 0..addrs.len()
        invariant
            forall|j: int| 0 <= j < i ==> #[trigger] addrs@[j] is V6,
    {
        if addrs[i].is_ipv4() {
            assert(addrs@[i as int] == addrs@[i as int]);
            return Ok(addrs[i]);
        }
    }
    Err(glue("route diagnostics need an IPv4 address for ", host))
}

/// The lost hops of a trace.
pub fn lost_hops(hops: &[RouteHop]) -> (n: usize)
    ensures
        n == true_count(hops@.map_values(|h: RouteHop| h.lost)),
{
    let ghost flags = hops@.map_values(|h: RouteHop| h.lost);
    let mut n: usize = 0;
    for i in 0..hops.len()
        invariant
            flags == hops@.map_values(|h: RouteHop| h.lost),
            n == true_count(flags.take(i as int)),
            n <= i,
    {
        assert(flags.take(i as int + 1).drop_last() =~= flags.take(i as int));
        if hops[i].lost {
            n = n + 1;
        }
    }
    assert(flags.take(flags.len() as int) =~= flags);
    n
}

/// The hops that never answered over repeated traces.
pub fn lost_everywhere(repeat: &RouteRepeat) -> (n: usize)
    ensures
        n == true_count(repeat.hops@.map_values(|h: RouteHopStats| h.answered == 0)),
{
    let ghost flags = repeat.hops@.map_values(|h: RouteHopStats| h.answered == 0);
    let mut n: usize = 0;
    for i in 0..repeat.hops.len()
        invariant
            flags == repeat.hops@.map_values(|h: RouteHopStats| h.answered == 0),
            n == true_count(flags.take(i as int)),
            n <= i,
    {
        assert(flags.take(i as int + 1).drop_last() =~= flags.take(i as int));
        if repeat.hops[i].answered == 0 {
            n = n + 1;
        }
    }
    assert(flags.take(flags.len() as int) =~= flags);
    n
}

/// Why a trace ends in failure, where it does.
pub fn route_error(lost: usize, strict: bool) -> (r: Option<String>)
    ensures
        r is Some == (strict && lost > 0),
        r matches Some(e) ==> e@ == dec(lost as nat) + " route hop(s) lost (--strict)"@,
{
    if strict && lost > 0 {
        Some(counted(lost, " route hop(s) lost (--strict)"))
    } else {
        None
    }
}

/// Why repeated traces end in failure, where they do.
pub fn route_repeat_error(lost: usize, count: usize, strict: bool) -> (r: Option<String>)
    ensures
        r is Some == (strict && lost > 0),
        r matches Some(e) ==> e@ == dec(lost as nat) + " route hop(s) entirely lost across "@ + dec(count as nat)
            + " runs (--strict)"@,
{
    if strict && lost > 0 {
        let mut out = counted(lost, " route hop(s) entirely lost across ");
        push_dec(&mut out, count as u64);
        out.append(" runs (--strict)");
        Some(out)
    } else {
        None
    }
}

// --- repeated probes ---------------------------------------------------------------------

/// What a repeated probe repeats.
#[derive(Debug, Clone, Copy, PartialEq, Eq, Structural)]
pub enum ProbeProtocol {
    Tcp,
    Tls,
    Http,
    Http2,
    Http3,
}

impl ProbeProtocol {
    /// The name of the protocol.
    pub open spec fn text(self) -> Seq<char> {
        match self {
            ProbeProtocol::Tcp => "tcp"@,
            ProbeProtocol::Tls => "tls"@,
            ProbeProtocol::Http => "http"@,
            ProbeProtocol::Http2 => "http2"@,
            ProbeProtocol::Http3 => "http3"@,
        }
    }

    /// The name of the protocol.
    pub fn to_text(&self) -> (out: &'static str)
        ensures
            out@ == self.text(),
    {
        match self {
            ProbeProtocol::Tcp => "tcp",
            ProbeProtocol::Tls => "tls",
            ProbeProtocol::Http => "http",
            ProbeProtocol::Http2 => "http2",
            ProbeProtocol::Http3 => "http3",
        }
    }

    /// The protocol a name stands for; TCP for any other.
    pub open spec fn named(s: Seq<char>) -> ProbeProtocol {
        if s == "tls"@ {
            ProbeProtocol::Tls
        } else if s == "http"@ {
            ProbeProtocol::Http
        } else if s == "http2"@ {
            ProbeProtocol::Http2
        } else if s == "http3"@ {
            ProbeProtocol::Http3
        } else {
            ProbeProtocol::Tcp
        }
    }

    /// Parse the `--protocol` value.
    pub fn parse(s: &str) -> (r: ProbeProtocol)
        ensures
            r == ProbeProtocol::named(s@),
    {
        if same_text(s, "tls") {
            ProbeProtocol::Tls
        } else if same_text(s, "http") {
            ProbeProtocol::Http
        } else if same_text(s, "http2") {
            ProbeProtocol::Http2
        } else if same_text(s, "http3") {
            ProbeProtocol::Http3
        } else {
            ProbeProtocol::Tcp
        }
    }

    /// Whether the protocol sends an HTTP request.
    pub open spec fn http_family(self) -> bool {
        self == ProbeProtocol::Http || self == ProbeProtocol::Http2 || self == ProbeProtocol::Http3
    }

    /// Whether the protocol sends an HTTP request.
    pub fn is_http(&self) -> (r: bool)
        ensures
            r == self.http_family(),
    {
        matches!(self, ProbeProtocol::Http | ProbeProtocol::Http2 | ProbeProtocol::Http3)
    }
}

/// The arguments of a repeated probe: which of the options the operator typed,
/// a default not counting.
#[derive(Debug, Clone, Copy)]
pub struct ProbeFlags {
    pub count: usize,
    pub protocol: ProbeProtocol,
    pub plain: bool,
    pub request_given: bool,
    pub tls_version_given: bool,
}

/// The complaint about the arguments of a repeated probe, where there is one:
/// no attempts, or an option its protocol has no use for.
pub open spec fn flags_error(f: ProbeFlags) -> Option<Seq<char>> {
    if f.count == 0 {
        Some("--count must be at least 1"@)
    } else if f.plain && f.protocol != ProbeProtocol::Http {
        Some("--plain only applies to --protocol http (cleartext HTTP/1.1)"@)
    } else if !f.protocol.http_family() && f.request_given {
        Some(
            "--method/--path/--header/--body only apply to --protocol http|http2|http3 (the "@ + f.protocol.text()
                + " repeat sends no HTTP request)"@,
        )
    } else if f.protocol == ProbeProtocol::Tcp && f.tls_version_given {
        Some("--tls-version only applies to --protocol tls|http|http2|http3 (a tcp repeat has no TLS handshake)"@)
    } else if f.protocol == ProbeProtocol::Http3 && f.tls_version_given {
        Some("--tls-version does not apply to --protocol http3 (QUIC is always TLS 1.3)"@)
    } else {
        None
    }
}

/// The complaint about the arguments of a repeated probe, where there is one.
pub fn check_probe_flags(f: &ProbeFlags) -> (r: Option<String>)
    ensures
        r is Some == (flags_error(*f) is Some),
        r matches Some(e) ==> flags_error(*f) == Some(e@),
{
    if f.count == 0 {
        Some("--count must be at least 1".to_owned())
    } else if f.plain && f.protocol != ProbeProtocol::Http {
        Some("--plain only applies to --protocol http (cleartext HTTP/1.1)".to_owned())
    } else if !f.protocol.is_http() && f.request_given {
        Some(
            glue3(
                "--method/--path/--header/--body only apply to --protocol http|http2|http3 (the ",
                f.protocol.to_text(),
                " repeat sends no HTTP request)",
            ),
        )
    } else if f.protocol == ProbeProtocol::Tcp && f.tls_version_given {
        Some(
            "--tls-version only applies to --protocol tls|http|http2|http3 (a tcp repeat has no TLS handshake)".to_owned(),
        )
    } else if f.protocol == ProbeProtocol::Http3 && f.tls_version_given {
        Some("--tls-version does not apply to --protocol http3 (QUIC is always TLS 1.3)".to_owned())
    } else {
        None
    }
}

// --- laws --------------------------------------------------------------------------------

/// Counting flags counts those that are set.
pub proof fn lemma_true_count(flags: Seq<bool>)
    ensures
        true_count(flags) == flags.filter(|b: bool| b).len(),
        true_count(flags) == 0 <==> !flags.contains(true),
    decreases flags.len(),
{
    reveal(Seq::filter);
    if flags.len() > 0 {
        let front = flags.drop_last();
        lemma_true_count(front);
        if flags.last() {
            assert(flags[flags.len() - 1]);
        }
        if front.contains(true) {
            let i = choose|i: int| 0 <= i < front.len() && front[i] == true;
            assert(flags[i]);
        }
        if flags.contains(true) && !flags.last() {
            let i = choose|i: int| 0 <= i < flags.len() && flags[i] == true;
            assert(front[i]);
        }
    }
}

/// A sweep fails exactly when a target did not resolve or, where that is asked
/// for, a probe failed; a diagnosis fails exactly when a host did not resolve or,
/// where that is asked for, an anomaly was found. What did not resolve is
/// reported first.
pub proof fn lemma_when_a_run_fails(unresolved: nat, found: nat, strict: bool)
    ensures
        sweep_failure(unresolved, found, strict) is Some <==> unresolved > 0 || (strict && found > 0),
        diagnose_failure(unresolved, found, strict) is Some <==> unresolved > 0 || (strict && found > 0),
        unresolved > 0 ==> sweep_failure(unresolved, found, strict)->0 == dec(unresolved)
            + " target(s) did not resolve to any address"@,
        unresolved > 0 ==> diagnose_failure(unresolved, found, strict)->0 == dec(unresolved)
            + " host(s) did not resolve to any address"@,
        unresolved == 0 && strict && found > 0 ==> sweep_failure(unresolved, found, strict)->0 == dec(found)
            + " probe(s) failed to complete (--strict)"@,
        unresolved == 0 && strict && found > 0 ==> diagnose_failure(unresolved, found, strict)->0 == dec(found)
            + " anomaly diagnosis(es) raised (--strict)"@,
{
}

/// A host that is an address is never looked up forward: it is reported as it
/// stands, or looked up in reverse where the reverse type alone is asked for.
/// Every other host is looked up, repeatedly exactly when more than one attempt
/// is asked for.
pub proof fn lemma_lookup_plan(host: Seq<char>, types: Seq<DnsRecordType>, count: nat, resolvers: bool)
    ensures
        plan_of(host, types, count, resolvers) is Forward <==> parse_ip(bare_host(host)) is None,
        plan_of(host, types, count, resolvers) matches PlanModel::Forward { repeat } ==> repeat == (count > 1),
        plan_of(host, types, count, resolvers) is Reverse <==> parse_ip(bare_host(host)) is Some && types
            =~= seq![DnsRecordType::Ptr],
        plan_of(host, types, count, resolvers) matches PlanModel::Reverse { query, repeat } ==> repeat == (count > 1)
            && query == reverse_name(parse_ip(bare_host(host))->0),
        plan_of(host, types, count, resolvers) matches PlanModel::Literal { observations, notes } ==> notes.len() == (
        if resolvers {
            1int
        } else {
            0
        }) + (if count > 1 {
            1int
        } else {
            0
        }),
{
}

/// The protocol of a repeated probe is read back from its name.
pub proof fn lemma_protocol_reads_back(p: ProbeProtocol)
    ensures
        ProbeProtocol::named(p.text()) == p,
{
    reveal_strlit("tcp");
    reveal_strlit("tls");
    reveal_strlit("http");
    reveal_strlit("http2");
    reveal_strlit("http3");
    assert("tcp"@.len() == 3 && "tls"@.len() == 3 && "http"@.len() == 4 && "http2"@.len() == 5 && "http3"@.len() == 5);
    assert("tcp"@[1] == 'c' && "tls"@[1] == 'l');
    assert("http2"@[4] == '2' && "http3"@[4] == '3');
}

/// The arguments of a repeated probe are accepted exactly when there is an attempt
/// to make, cleartext is asked of HTTP/1.1 only, a request is given to an HTTP
/// protocol only, and a TLS version to one that negotiates TLS over TCP only.
pub proof fn lemma_accepted_flags(f: ProbeFlags)
    ensures
        flags_error(f) is None <==> {
            &&& f.count > 0
            &&& f.plain ==> f.protocol == ProbeProtocol::Http
            &&& f.request_given ==> f.protocol == ProbeProtocol::Http || f.protocol == ProbeProtocol::Http2
                || f.protocol == ProbeProtocol::Http3
            &&& f.tls_version_given ==> f.protocol == ProbeProtocol::Tls || f.protocol == ProbeProtocol::Http
                || f.protocol == ProbeProtocol::Http2
        },
{
}

/// The output of a sweep is that of its targets in order: of a single one as it
/// is, of several each under its host.
pub proof fn lemma_sweep_is_its_blocks(blocks: Seq<(String, String)>)
    ensures
        sweep(blocks, true) == blocks.map_values(|b: (String, String)| b.1@).flatten(),
        sweep(blocks, false) == blocks.map_values(|b: (String, String)| b.0@ + ":\n"@ + b.1@).flatten(),
    decreases blocks.len(),
{
    let f = |b: (String, String)| b.1@;
    let g = |b: (String, String)| b.0@ + ":\n"@ + b.1@;
    if blocks.len() > 0 {
        lemma_sweep_is_its_blocks(blocks.drop_last());
        let a = blocks.drop_last().map_values(f);
        let b = blocks.drop_last().map_values(g);
        assert(blocks.map_values(f) =~= a.push(f(blocks.last())));
        assert(blocks.map_values(g) =~= b.push(g(blocks.last())));
        a.lemma_flatten_push(f(blocks.last()));
        b.lemma_flatten_push(g(blocks.last()));
    } else {
        assert(blocks.map_values(f) =~= Seq::empty());
        assert(blocks.map_values(g) =~= Seq::empty());
    }
}

/// The first IPv4 address is the one at the front where that is IPv4, else the
/// first of the rest.
pub proof fn lemma_first_ipv4_from_the_front(front: IpAddr, rest: Seq<IpAddr>, ip: IpAddr)
    ensures
        first_ipv4(seq![front] + rest, ip) <==> if front is V4 {
            ip == front
        } else {
            first_ipv4(rest, ip)
        },
        !first_ipv4(Seq::empty(), ip),
{
    let all = seq![front] + rest;
    if first_ipv4(all, ip) {
        let i = choose|i: int|
            0 <= i < all.len() && #[trigger] all[i] == ip && ip is V4 && forall|j: int|
                0 <= j < i ==> #[trigger] all[j] is V6;
        if i > 0 {
            assert(all[0] is V6);
            assert(rest[i - 1] == ip);
            assert forall|j: int| 0 <= j < i - 1 implies #[trigger] rest[j] is V6 by {
                assert(all[j + 1] is V6);
            }
        }
    }
    if front is V4 && ip == front {
        assert(all[0] == ip);
    }
    if front is V6 && first_ipv4(rest, ip) {
        let i = choose|i: int|
            0 <= i < rest.len() && #[trigger] rest[i] == ip && ip is V4 && forall|j: int|
                0 <= j < i ==> #[trigger] rest[j] is V6;
        assert(all[i + 1] == ip);
        assert forall|j: int| 0 <= j < i + 1 implies #[trigger] all[j] is V6 by {
            if j > 0 {
                assert(rest[j - 1] is V6);
            }
        }
    }
}

} // verus!
