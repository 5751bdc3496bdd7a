//! The outcomes of resolution attempts: what a lookup, a DNS-over-HTTPS or a
//! DNS-over-TLS exchange amounts to, and the statistics of repeated attempts.

use super::endpoint::{base64_text, base64url, rcode_name, rcode_text};
use super::wire::{lemma_authority_text, parse_dns_response, response, soa_line, soa_text, ResponseModel};
use crate::http_common::{wire_authority, wire_authority_text, RequestHead};
use crate::model::dns::{DnsObservationModel, DnsRecordModel, ResolverModel};
use crate::model::latency::summarizes;
use crate::model::{
    DnsObservation, DnsRecord, DnsRecordType, DnsRepeatResult, FailureKind, LatencyStats, ProbeError, ProbeErrorModel,
    Rate, ResolverKind,
};
use crate::net::{Ipv4Addr, Ipv6Addr};
use crate::probe::{count_failures, counts_failures};
use crate::text::{
    contains_text, dec, group_occurrence, has_prefix, has_text, lossy, lossy_text, millis, millis_text, push_dec, signed,
};
use vstd::prelude::*;

verus! {

// --- resolver answers -----------------------------------------------------------------

/// The data of one answer as a resolver hands it out.
#[derive(Debug, PartialEq, Eq)]
pub enum RData {
    A(Ipv4Addr),
    Aaaa(Ipv6Addr),
    Cname(String),
    Mx { preference: u16, exchange: String },
    /// The character-strings of a text record.
    Txt(Vec<Vec<u8>>),
    Ns(String),
    Soa { mname: String, rname: String, serial: u32, refresh: i32, retry: i32, expire: i32, minimum: u32 },
    Caa { issuer_critical: bool, reserved_flags: u8, tag: String, value: Vec<u8> },
    Ptr(String),
    Srv { priority: u16, weight: u16, port: u16, target: String },
    /// Any other record type.
    Other,
}

/// The texts of character-strings, joined.
pub open spec fn joined_text(parts: Seq<Vec<u8>>) -> Seq<char>
    decreases parts.len(),
{
    if parts.len() == 0 {
        Seq::empty()
    } else {
        joined_text(parts.drop_last()) + lossy_text(parts.last()@)
    }
}

/// The flags byte of a CAA record: the critical bit above the reserved flags.
pub open spec fn caa_flags(critical: bool, reserved: u8) -> u8 {
    if critical {
        0x80u8 | reserved
    } else {
        reserved
    }
}

/// The record an answer stands for, when it is of the requested type.
pub open spec fn rdata_record(t: DnsRecordType, r: RData) -> Option<DnsRecordModel> {
    match (t, r) {
        (DnsRecordType::A, RData::A(ip)) => Some(DnsRecordModel::A(ip)),
        (DnsRecordType::Aaaa, RData::Aaaa(ip)) => Some(DnsRecordModel::Aaaa(ip)),
        (DnsRecordType::Cname, RData::Cname(name)) => Some(DnsRecordModel::Cname(name@)),
        (DnsRecordType::Mx, RData::Mx { preference, exchange }) => Some(
            DnsRecordModel::Mx { preference, exchange: exchange@ },
        ),
        (DnsRecordType::Txt, RData::Txt(parts)) => Some(DnsRecordModel::Txt(joined_text(parts@))),
        (DnsRecordType::Ns, RData::Ns(name)) => Some(DnsRecordModel::Ns(name@)),
        (DnsRecordType::Soa, RData::Soa { mname, rname, serial, refresh, retry, expire, minimum }) => Some(
            DnsRecordModel::Soa(
                soa_text(
                    mname@,
                    rname@,
                    seq![serial as int, refresh as int, retry as int, expire as int, minimum as int],
                ),
            ),
        ),
        (DnsRecordType::Caa, RData::Caa { issuer_critical, reserved_flags, tag, value }) => Some(
            DnsRecordModel::Caa {
                flags: caa_flags(issuer_critical, reserved_flags),
                tag: tag@,
                value: lossy_text(value@),
            },
        ),
        (DnsRecordType::Ptr, RData::Ptr(name)) => Some(DnsRecordModel::Ptr(name@)),
        (DnsRecordType::Srv, RData::Srv { priority, weight, port, target }) => Some(
            DnsRecordModel::Srv { priority, weight, port, target: target@ },
        ),
        _ => None,
    }
}

/// Join the texts of character-strings.
fn join_strings(parts: &[Vec<u8>]) -> (out: String)
    ensures
        out@ == joined_text(parts@),
{
    let mut out = String::new();
    for i in 0..parts.len()
        invariant
            out@ == joined_text(parts@.take(i as int)),
    {
        assert(parts@.take(i as int + 1).drop_last() =~= parts@.take(i as int));
        out.append(lossy(parts[i].as_slice()).as_str());
    }
    assert(parts@.take(parts@.len() as int) =~= parts@);
    out
}

/// Convert an answer into the requested record type's [`DnsRecord`]; entries
/// of other types (e.g. an A answer in a CNAME-chain lookup) are ignored to
/// keep each observation type-consistent.
pub fn record_from_rdata(record_type: DnsRecordType, rdata: &RData) -> (r: Option<DnsRecord>)
    ensures
        r.deep_view() == rdata_record(record_type, *rdata),
{
    match (record_type, rdata) {
        (DnsRecordType::A, RData::A(ip)) => Some(DnsRecord::A(*ip)),
        (DnsRecordType::Aaaa, RData::Aaaa(ip)) => Some(DnsRecord::Aaaa(*ip)),
        (DnsRecordType::Cname, RData::Cname(name)) => Some(DnsRecord::Cname(name.clone())),
        (DnsRecordType::Mx, RData::Mx { preference, exchange }) => Some(
            DnsRecord::Mx { preference: *preference, exchange: exchange.clone() },
        ),
        (DnsRecordType::Txt, RData::Txt(parts)) => Some(DnsRecord::Txt(join_strings(parts.as_slice()))),
        (DnsRecordType::Ns, RData::Ns(name)) => Some(DnsRecord::Ns(name.clone())),
        (DnsRecordType::Soa, RData::Soa { mname, rname, serial, refresh, retry, expire, minimum }) => Some(
            DnsRecord::Soa(
                soa_line(
                    mname.as_str(),
                    rname.as_str(),
                    *serial,
                    *refresh as i64,
                    *retry as i64,
                    *expire as i64,
                    *minimum,
                ),
            ),
        ),
        (DnsRecordType::Caa, RData::Caa { issuer_critical, reserved_flags, tag, value }) => Some(
            DnsRecord::Caa {
                flags: if *issuer_critical {
                    0x80u8 | *reserved_flags
                } else {
                    *reserved_flags
                },
                tag: tag.clone(),
                value: lossy(value.as_slice()),
            },
        ),
        (DnsRecordType::Ptr, RData::Ptr(name)) => Some(DnsRecord::Ptr(name.clone())),
        (DnsRecordType::Srv, RData::Srv { priority, weight, port, target }) => Some(
            DnsRecord::Srv { priority: *priority, weight: *weight, port: *port, target: target.clone() },
        ),
        _ => None,
    }
}

/// One answer of a resolver: its time-to-live and its data.
#[derive(Debug, PartialEq, Eq)]
pub struct Answer {
    pub ttl: u32,
    pub data: RData,
}

/// The records of the requested type among answers.
pub open spec fn typed_records(t: DnsRecordType, a: Seq<Answer>) -> Seq<DnsRecordModel>
    decreases a.len(),
{
    if a.len() == 0 {
        Seq::empty()
    } else {
        match rdata_record(t, a.last().data) {
            Some(record) => typed_records(t, a.drop_last()).push(record),
            None => typed_records(t, a.drop_last()),
        }
    }
}

/// The time-to-live of the first answer of the requested type.
pub open spec fn typed_ttl(t: DnsRecordType, a: Seq<Answer>) -> Option<u32>
    decreases a.len(),
{
    if a.len() == 0 {
        None
    } else if typed_ttl(t, a.drop_last()) is Some {
        typed_ttl(t, a.drop_last())
    } else if rdata_record(t, a.last().data) is Some {
        Some(a.last().ttl)
    } else {
        None
    }
}

/// The requested record type's entries among a lookup's answers, with the
/// time-to-live of the first of them.
pub fn typed_answers(record_type: DnsRecordType, answers: &[Answer]) -> (r: (Vec<DnsRecord>, Option<u32>))
    ensures
        r.0.deep_view() == typed_records(record_type, answers@),
        r.1 == typed_ttl(record_type, answers@),
{
    let mut records: Vec<DnsRecord> = Vec::new();
    let mut ttl: Option<u32> = None;
    assert(records.deep_view() =~= Seq::empty());
    for i in 0..answers.len()
        invariant
            records.deep_view() == typed_records(record_type, answers@.take(i as int)),
            ttl == typed_ttl(record_type, answers@.take(i as int)),
    {
        assert(answers@.take(i as int + 1).drop_last() =~= answers@.take(i as int));
        match record_from_rdata(record_type, &answers[i].data) {
            Some(record) => {
                if ttl.is_none() {
                    ttl = Some(answers[i].ttl);
                }
                let ghost before = records.deep_view();
                records.push(record);
                assert(records.deep_view() =~= before.push(record.deep_view()));
            },
            None => {},
        }
    }
    assert(answers@.take(answers@.len() as int) =~= answers@);
    (records, ttl)
}

/// How a lookup against one resolver ended.
#[derive(Debug)]
pub enum LookupOutcome {
    /// It answered after so many milliseconds.
    Answered { answers: Vec<Answer>, latency_ms: u64 },
    /// The name does not exist.
    NxDomain,
    /// The name has no records of the requested type.
    NoRecords,
    /// It failed otherwise, with this message.
    Failed(String),
    /// It did not finish within so many milliseconds.
    TimedOut(u64),
}

/// The reason given for a failed lookup.
pub open spec fn lookup_reason(host: Seq<char>, t: DnsRecordType, nx_domain: bool, no_records: bool, other: Seq<char>) -> Seq<
    char,
> {
    if nx_domain {
        host + " does not exist (NXDOMAIN)"@
    } else if no_records {
        "no "@ + t.text() + " records found for "@ + host
    } else {
        other
    }
}

/// The reason for a failed lookup: a name that does not exist at all, a name
/// that has none of the requested record type, or the resolver's own message.
pub fn failure_reason(host: &str, record_type: DnsRecordType, nx_domain: bool, no_records: bool, other: &str) -> (out:
    String)
    ensures
        out@ == lookup_reason(host@, record_type, nx_domain, no_records, other@),
{
    if nx_domain {
        let mut out = host.to_owned();
        out.append(" does not exist (NXDOMAIN)");
        out
    } else if no_records {
        no_records_message(host, record_type)
    } else {
        other.to_owned()
    }
}

/// The resolver's error.
#[verifier::external_type_specification]
#[verifier::external_body]
pub struct ExNetError(hickory_resolver::net::NetError);

/// What `NetError::is_nx_domain` says of a resolver's error.
pub uninterp spec fn says_nx_domain(e: hickory_resolver::net::NetError) -> bool;

/// What `NetError::is_no_records_found` says of a resolver's error.
pub uninterp spec fn says_no_records(e: hickory_resolver::net::NetError) -> bool;

/// `NetError::is_nx_domain`: whether the error stands for a name that does not
/// exist. It depends on the error alone.
pub assume_specification[ hickory_resolver::net::NetError::is_nx_domain ](e: &hickory_resolver::net::NetError) -> (r: bool)
    ensures
        r == says_nx_domain(*e),
;

/// `NetError::is_no_records_found`: whether the error stands for an answer
/// without records. It depends on the error alone.
pub assume_specification[ hickory_resolver::net::NetError::is_no_records_found ](
    e: &hickory_resolver::net::NetError,
) -> (r: bool)
    ensures
        r == says_no_records(*e),
;

/// A human-readable reason for a failed lookup. The two common empty answers
/// are put in plain words; anything else keeps the resolver's own message,
/// which is `message`.
pub fn lookup_error_message(
    host: &str,
    record_type: DnsRecordType,
    err: &hickory_resolver::net::NetError,
    message: &str,
) -> (out: String)
    ensures
        out@ == lookup_reason(host@, record_type, says_nx_domain(*err), says_no_records(*err), message@),
{
    failure_reason(host, record_type, err.is_nx_domain(), err.is_no_records_found(), message)
}

/// How a lookup ended that failed with a resolver's error and its message.
pub fn failed_lookup(err: &hickory_resolver::net::NetError, message: String) -> (r: LookupOutcome)
    ensures
        match r {
            LookupOutcome::NxDomain => says_nx_domain(*err),
            LookupOutcome::NoRecords => !says_nx_domain(*err) && says_no_records(*err),
            LookupOutcome::Failed(m) => !says_nx_domain(*err) && !says_no_records(*err) && m@ == message@,
            _ => false,
        },
{
    if err.is_nx_domain() {
        LookupOutcome::NxDomain
    } else if err.is_no_records_found() {
        LookupOutcome::NoRecords
    } else {
        LookupOutcome::Failed(message)
    }
}

/// However the failure of a lookup is taken in, the reason reported is the
/// same.
pub proof fn lemma_failed_lookup_keeps_the_reason(
    host: Seq<char>,
    resolver: ResolverModel,
    t: DnsRecordType,
    nx_domain: bool,
    no_records: bool,
    message: String,
    outcome: LookupOutcome,
)
    requires
        match outcome {
            LookupOutcome::NxDomain => nx_domain,
            LookupOutcome::NoRecords => !nx_domain && no_records,
            LookupOutcome::Failed(m) => !nx_domain && !no_records && m@ == message@,
            _ => false,
        },
    ensures
        lookup_result(host, resolver, t, outcome) == failed(
            host,
            resolver,
            t,
            FailureKind::Dns,
            lookup_reason(host, t, nx_domain, no_records, message@),
        ),
{
}

/// The message for a name without records of a type.
fn no_records_message(host: &str, record_type: DnsRecordType) -> (out: String)
    ensures
        out@ == "no "@ + record_type.text() + " records found for "@ + host@,
{
    let mut out = "no ".to_owned();
    out.append(record_type.to_text());
    out.append(" records found for ");
    out.append(host);
    out
}

/// An observation without records that failed.
pub open spec fn failed(host: Seq<char>, resolver: ResolverModel, t: DnsRecordType, kind: FailureKind, message: Seq<
    char,
>) -> DnsObservationModel {
    DnsObservationModel {
        hostname: host,
        resolver,
        record_type: t,
        records: Seq::empty(),
        ttl: None,
        latency_ms: None,
        error: Some(ProbeErrorModel { kind, message }),
    }
}

/// What a lookup's end amounts to.
pub open spec fn lookup_result(host: Seq<char>, resolver: ResolverModel, t: DnsRecordType, outcome: LookupOutcome) -> DnsObservationModel {
    match outcome {
        LookupOutcome::Answered { answers, latency_ms } => DnsObservationModel {
            hostname: host,
            resolver,
            record_type: t,
            records: typed_records(t, answers@),
            ttl: typed_ttl(t, answers@),
            latency_ms: Some(latency_ms),
            error: None,
        },
        LookupOutcome::NxDomain => failed(
            host,
            resolver,
            t,
            FailureKind::Dns,
            lookup_reason(host, t, true, false, Seq::empty()),
        ),
        LookupOutcome::NoRecords => failed(
            host,
            resolver,
            t,
            FailureKind::Dns,
            lookup_reason(host, t, false, true, Seq::empty()),
        ),
        LookupOutcome::Failed(message) => failed(
            host,
            resolver,
            t,
            FailureKind::Dns,
            lookup_reason(host, t, false, false, message@),
        ),
        LookupOutcome::TimedOut(ms) => failed(
            host,
            resolver,
            t,
            FailureKind::Timeout,
            "dns lookup of "@ + host + " ("@ + t.text() + ") timed out after "@ + millis(ms),
        ),
    }
}

/// An observation that failed.
fn failure_observation(host: &str, resolver: &ResolverKind, record_type: DnsRecordType, kind: FailureKind, message: String) -> (r:
    DnsObservation)
    ensures
        r.deep_view() == failed(host@, resolver.deep_view(), record_type, kind, message@),
{
    let r = DnsObservation {
        hostname: host.to_owned(),
        resolver: resolver.clone(),
        record_type,
        records: Vec::new(),
        ttl: None,
        latency_ms: None,
        error: Some(ProbeError { kind, message }),
    };
    assert(r.records.deep_view() =~= Seq::empty());
    r
}

/// Build the observation of one lookup from how it ended.
pub fn lookup_observation(host: &str, resolver: &ResolverKind, record_type: DnsRecordType, outcome: LookupOutcome) -> (r:
    DnsObservation)
    ensures
        r.deep_view() == lookup_result(host@, resolver.deep_view(), record_type, outcome),
{
    match outcome {
        LookupOutcome::Answered { answers, latency_ms } => {
            let (records, ttl) = typed_answers(record_type, answers.as_slice());
            DnsObservation {
                hostname: host.to_owned(),
                resolver: resolver.clone(),
                record_type,
                records,
                ttl,
                latency_ms: Some(latency_ms),
                error: None,
            }
        },
        LookupOutcome::NxDomain => failure_observation(
            host,
            resolver,
            record_type,
            FailureKind::Dns,
            failure_reason(host, record_type, true, false, ""),
        ),
        LookupOutcome::NoRecords => failure_observation(
            host,
            resolver,
            record_type,
            FailureKind::Dns,
            failure_reason(host, record_type, false, true, ""),
        ),
        LookupOutcome::Failed(message) => failure_observation(
            host,
            resolver,
            record_type,
            FailureKind::Dns,
            failure_reason(host, record_type, false, false, message.as_str()),
        ),
        LookupOutcome::TimedOut(ms) => {
            let mut message = "dns lookup of ".to_owned();
            message.append(host);
            message.append(" (");
            message.append(record_type.to_text());
            message.append(") timed out after ");
            message.append(millis_text(ms).as_str());
            failure_observation(host, resolver, record_type, FailureKind::Timeout, message)
        },
    }
}

/// A lookup has a latency exactly if it has no error.
pub proof fn lemma_lookup_latency_excludes_error(
    host: Seq<char>,
    resolver: ResolverModel,
    t: DnsRecordType,
    outcome: LookupOutcome,
)
    ensures
        lookup_result(host, resolver, t, outcome).latency_ms is Some <==> lookup_result(
            host,
            resolver,
            t,
            outcome,
        ).error is None,
{
}

// --- encrypted exchanges ----------------------------------------------------------------

/// The largest response body a `DoH` endpoint may return.
pub const DOH_MAX_BODY: usize = 65536;

/// A step of an encrypted exchange that can go wrong.
#[derive(Debug, Clone, Copy, PartialEq, Eq, Structural)]
pub enum ExchangeStep {
    /// The HTTP/1.1 handshake with a `DoH` endpoint.
    DohHandshake,
    /// Building the `DoH` request.
    DohBuild,
    /// Sending the `DoH` request and receiving the response head.
    DohRequest,
    /// Reading the `DoH` response body.
    DohBody,
    /// Writing the framed query to a `DoT` endpoint.
    DotWrite,
    /// Reading the length prefix of the `DoT` response.
    DotPrefix,
    /// Reading the `DoT` response.
    DotBody,
}

/// How a step went wrong.
#[derive(Debug)]
pub enum StepFailure {
    /// It failed with this message.
    Failed(String),
    /// It did not finish within so many milliseconds.
    TimedOut(u64),
}

/// The failure mode a failed step is reported as.
pub open spec fn step_kind(step: ExchangeStep, why: StepFailure) -> FailureKind {
    if why is TimedOut {
        FailureKind::Timeout
    } else if step == ExchangeStep::DohBuild {
        FailureKind::Protocol
    } else {
        FailureKind::Dns
    }
}

/// What a failed step is reported as.
pub open spec fn step_message(step: ExchangeStep, endpoint: Seq<char>, why: StepFailure) -> Seq<char> {
    match why {
        StepFailure::Failed(e) => match step {
            ExchangeStep::DohHandshake => "http/1.1 handshake with DoH endpoint failed: "@ + e@,
            ExchangeStep::DohBuild => "could not build DoH request: "@ + e@,
            ExchangeStep::DohRequest => "DoH request failed: "@ + e@,
            ExchangeStep::DohBody => if has_text(e@, "length limit exceeded"@) {
                "the DoH response exceeded the 64 KiB wire-response cap (65536 bytes)"@
            } else {
                "DoH body read failed: "@ + e@
            },
            ExchangeStep::DotWrite => "DoT write to "@ + endpoint + " failed: "@ + e@,
            ExchangeStep::DotPrefix => "DoT read from "@ + endpoint + " failed: "@ + e@,
            ExchangeStep::DotBody => "DoT response read from "@ + endpoint + " failed: "@ + e@,
        },
        StepFailure::TimedOut(ms) => match step {
            ExchangeStep::DohHandshake => "DoH handshake to "@ + endpoint + " timed out after "@ + millis(ms),
            ExchangeStep::DohBuild => "DoH request to "@ + endpoint + " timed out after "@ + millis(ms),
            ExchangeStep::DohRequest => "DoH request to "@ + endpoint + " timed out after "@ + millis(ms),
            ExchangeStep::DohBody => "DoH body from "@ + endpoint + " timed out after "@ + millis(ms),
            ExchangeStep::DotWrite => "DoT write to "@ + endpoint + " timed out after "@ + millis(ms),
            ExchangeStep::DotPrefix => "DoT read from "@ + endpoint + " timed out after "@ + millis(ms),
            ExchangeStep::DotBody => "DoT response from "@ + endpoint + " timed out after "@ + millis(ms),
        },
    }
}

/// `prefix`, `middle` and `suffix` in a row.
fn three(prefix: &str, middle: &str, suffix: &str) -> (out: String)
    ensures
        out@ == prefix@ + middle@ + suffix@,
{
    let mut out = prefix.to_owned();
    out.append(middle);
    out.append(suffix);
    out
}

/// The error that reports a failed step of an encrypted exchange.
pub fn step_error(step: ExchangeStep, endpoint: &str, why: StepFailure) -> (r: ProbeError)
    ensures
        r.kind == step_kind(step, why),
        r.message@ == step_message(step, endpoint@, why),
{
    match why {
        StepFailure::Failed(e) => {
            let e = e.as_str();
            let kind = if matches!(step, ExchangeStep::DohBuild) {
                FailureKind::Protocol
            } else {
                FailureKind::Dns
            };
            let message = match step {
                ExchangeStep::DohHandshake => {
                    let mut out = "http/1.1 handshake with DoH endpoint failed: ".to_owned();
                    out.append(e);
                    out
                },
                ExchangeStep::DohBuild => {
                    let mut out = "could not build DoH request: ".to_owned();
                    out.append(e);
                    out
                },
                ExchangeStep::DohRequest => {
                    let mut out = "DoH request failed: ".to_owned();
                    out.append(e);
                    out
                },
                ExchangeStep::DohBody => if contains_text(e, "length limit exceeded") {
                    "the DoH response exceeded the 64 KiB wire-response cap (65536 bytes)".to_owned()
                } else {
                    let mut out = "DoH body read failed: ".to_owned();
                    out.append(e);
                    out
                },
                ExchangeStep::DotWrite => {
                    let mut out = three("DoT write to ", endpoint, " failed: ");
                    out.append(e);
                    out
                },
                ExchangeStep::DotPrefix => {
                    let mut out = three("DoT read from ", endpoint, " failed: ");
                    out.append(e);
                    out
                },
                ExchangeStep::DotBody => {
                    let mut out = three("DoT response read from ", endpoint, " failed: ");
                    out.append(e);
                    out
                },
            };
            ProbeError { kind, message }
        },
        StepFailure::TimedOut(ms) => {
            let prefix = match step {
                ExchangeStep::DohHandshake => "DoH handshake to ",
                ExchangeStep::DohBuild => "DoH request to ",
                ExchangeStep::DohRequest => "DoH request to ",
                ExchangeStep::DohBody => "DoH body from ",
                ExchangeStep::DotWrite => "DoT write to ",
                ExchangeStep::DotPrefix => "DoT read from ",
                ExchangeStep::DotBody => "DoT response from ",
            };
            let mut message = three(prefix, endpoint, " timed out after ");
            message.append(millis_text(ms).as_str());
            ProbeError { kind: FailureKind::Timeout, message }
        },
    }
}

/// The observation of an encrypted exchange that ended with an error.
pub fn exchange_failure(host: &str, resolver: &ResolverKind, record_type: DnsRecordType, error: ProbeError) -> (r:
    DnsObservation)
    ensures
        r.deep_view() == failed(host@, resolver.deep_view(), record_type, error.kind, error.message@),
{
    failure_observation(host, resolver, record_type, error.kind, error.message)
}

/// The request a `DoH` query is sent as.
pub fn doh_request(host: &str, port: u16, path: &str, query: &[u8]) -> (r: RequestHead)
    ensures
        r.method@ == "GET"@,
        r.uri@ == path@ + "?dns="@ + base64_text(query@),
        r.headers.deep_view() == seq![
            ("host"@, wire_authority_text(host@, port, true)),
            ("accept"@, "application/dns-message"@),
            ("user-agent"@, "ip-tools"@),
        ],
{
    let uri = three(path, "?dns=", base64url(query).as_str());
    let mut headers: Vec<(String, String)> = Vec::new();
    headers.push(("host".to_owned(), wire_authority(host, port, true)));
    headers.push(("accept".to_owned(), "application/dns-message".to_owned()));
    headers.push(("user-agent".to_owned(), "ip-tools".to_owned()));
    assert(headers.deep_view() =~= seq![
        ("host"@, wire_authority_text(host@, port, true)),
        ("accept"@, "application/dns-message"@),
        ("user-agent"@, "ip-tools"@),
    ]);
    RequestHead { method: "GET".to_owned(), uri, headers }
}

/// A query behind its two-byte length (RFC 7858).
pub open spec fn framed(query: Seq<u8>) -> Option<Seq<u8>> {
    if query.len() <= 0xFFFF {
        Some(seq![(query.len() / 256) as u8, (query.len() % 256) as u8] + query)
    } else {
        None
    }
}

/// Frame a query for a `DoT` stream: a two-byte length, then the message.
pub fn dot_frame(query: &[u8]) -> (r: Result<Vec<u8>, ProbeError>)
    ensures
        r matches Ok(wire) ==> framed(query@) == Some(wire@),
        r matches Err(e) ==> framed(query@) is None && e.kind == FailureKind::Protocol && e.message@
            == "DoT query is too large ("@ + dec(query@.len()) + " bytes) for a 2-byte length prefix"@,
{
    let n = query.len();
    if n > 0xFFFF {
        let mut message = "DoT query is too large (".to_owned();
        push_dec(&mut message, n as u64);
        message.append(" bytes) for a 2-byte length prefix");
        return Err(ProbeError { kind: FailureKind::Protocol, message });
    }
    let mut wire: Vec<u8> = Vec::new();
    wire.push((n / 256) as u8);
    wire.push((n % 256) as u8);
    for i in 0..n
        invariant
            n == query@.len(),
            wire@ == seq![(n / 256) as u8, (n % 256) as u8] + query@.take(i as int),
    {
        wire.push(query[i]);
        assert(wire@ =~= seq![(n / 256) as u8, (n % 256) as u8] + query@.take(i as int + 1));
    }
    assert(query@.take(n as int) =~= query@);
    Ok(wire)
}

/// The length that a two-byte prefix announces.
pub fn dot_length(first: u8, second: u8) -> (n: usize)
    ensures
        n == first * 256 + second,
        n <= 0xFFFF,
{
    first as usize * 256 + second as usize
}

/// A framed query announces its own length.
pub proof fn lemma_frame_announces_length(query: Seq<u8>)
    requires
        framed(query) is Some,
    ensures
        framed(query)->0[0] * 256 + framed(query)->0[1] == query.len(),
        framed(query)->0.skip(2) == query,
{
    assert(framed(query)->0.skip(2) =~= query);
}

/// What a received response message amounts to.
pub open spec fn answered(
    host: Seq<char>,
    resolver: ResolverModel,
    t: DnsRecordType,
    endpoint: Seq<char>,
    parsed: ResponseModel,
    latency_ms: u64,
) -> DnsObservationModel {
    if parsed.rcode == 0 && parsed.records.len() == 0 {
        failed(host, resolver, t, FailureKind::Dns, "no "@ + t.text() + " records found for "@ + host)
    } else if parsed.rcode != 0 {
        failed(host, resolver, t, FailureKind::Dns, endpoint + " answered "@ + rcode_text(parsed.rcode))
    } else {
        DnsObservationModel {
            hostname: host,
            resolver,
            record_type: t,
            records: parsed.records,
            ttl: parsed.ttl,
            latency_ms: Some(latency_ms),
            error: None,
        }
    }
}

/// What the body of an encrypted exchange amounts to; `label` names the
/// endpoint.
pub open spec fn exchanged(
    host: Seq<char>,
    resolver: ResolverModel,
    t: DnsRecordType,
    label: Seq<char>,
    body: Seq<u8>,
    latency_ms: u64,
) -> DnsObservationModel {
    match response(body, t) {
        Err(why) => failed(
            host,
            resolver,
            t,
            FailureKind::Dns,
            label + " returned an invalid response: "@ + why,
        ),
        Ok(parsed) => answered(host, resolver, t, label, parsed, latency_ms),
    }
}

/// Interpret the body of an encrypted exchange.
fn exchange_observation(
    host: &str,
    resolver: &ResolverKind,
    record_type: DnsRecordType,
    label: &str,
    body: &[u8],
    latency_ms: u64,
) -> (r: DnsObservation)
    requires
        body@.len() <= isize::MAX,
    ensures
        r.deep_view() == exchanged(host@, resolver.deep_view(), record_type, label@, body@, latency_ms),
{
    let parsed = match parse_dns_response(body, record_type) {
        Ok(parsed) => parsed,
        Err(why) => {
            let message = three(label, " returned an invalid response: ", why.as_str());
            return failure_observation(host, resolver, record_type, FailureKind::Dns, message);
        },
    };
    if parsed.rcode == 0 && parsed.records.len() == 0 {
        return failure_observation(
            host,
            resolver,
            record_type,
            FailureKind::Dns,
            no_records_message(host, record_type),
        );
    }
    if parsed.rcode != 0 {
        let message = three(label, " answered ", rcode_name(parsed.rcode));
        return failure_observation(host, resolver, record_type, FailureKind::Dns, message);
    }
    DnsObservation {
        hostname: host.to_owned(),
        resolver: resolver.clone(),
        record_type,
        records: parsed.records,
        ttl: parsed.ttl,
        latency_ms: Some(latency_ms),
        error: None,
    }
}

/// What a completed `DoH` exchange amounts to.
pub open spec fn doh_result(
    endpoint: Seq<char>,
    host: Seq<char>,
    t: DnsRecordType,
    status: u16,
    body: Seq<u8>,
    latency_ms: u64,
) -> DnsObservationModel {
    let resolver = ResolverModel::Doh(endpoint);
    if status != 200 {
        failed(
            host,
            resolver,
            t,
            FailureKind::Dns,
            "DoH endpoint "@ + endpoint + " responded HTTP "@ + dec(status as nat),
        )
    } else {
        exchanged(host, resolver, t, "DoH endpoint "@ + endpoint, body, latency_ms)
    }
}

/// Build the observation of a completed DNS-over-HTTPS exchange from its
/// status and body. A response without records of the wanted type, or with a
/// response code other than `NOERROR`, is a failed lookup.
pub fn doh_observation(
    endpoint: &str,
    host: &str,
    record_type: DnsRecordType,
    status: u16,
    body: &[u8],
    latency_ms: u64,
) -> (r: DnsObservation)
    requires
        body@.len() <= isize::MAX,
    ensures
        r.deep_view() == doh_result(endpoint@, host@, record_type, status, body@, latency_ms),
{
    let resolver = ResolverKind::Doh(endpoint.to_owned());
    if status != 200 {
        let mut message = three("DoH endpoint ", endpoint, " responded HTTP ");
        push_dec(&mut message, status as u64);
        return failure_observation(host, &resolver, record_type, FailureKind::Dns, message);
    }
    let mut label = "DoH endpoint ".to_owned();
    label.append(endpoint);
    exchange_observation(host, &resolver, record_type, label.as_str(), body, latency_ms)
}

/// Build the observation of a completed DNS-over-TLS exchange from its body.
pub fn dot_observation(endpoint: &str, host: &str, record_type: DnsRecordType, body: &[u8], latency_ms: u64) -> (r:
    DnsObservation)
    requires
        body@.len() <= isize::MAX,
    ensures
        r.deep_view() == exchanged(
            host@,
            ResolverModel::Dot(endpoint@),
            record_type,
            "DoT endpoint "@ + endpoint@,
            body@,
            latency_ms,
        ),
{
    let resolver = ResolverKind::Dot(endpoint.to_owned());
    let mut label = "DoT endpoint ".to_owned();
    label.append(endpoint);
    exchange_observation(host, &resolver, record_type, label.as_str(), body, latency_ms)
}

// --- repeated lookups --------------------------------------------------------------------

/// The latencies of the lookups that answered.
pub open spec fn answer_latencies(b: Seq<DnsObservation>) -> Seq<u64>
    decreases b.len(),
{
    if b.len() == 0 {
        Seq::empty()
    } else {
        match b.last().latency_ms {
            Some(ms) => answer_latencies(b.drop_last()).push(ms),
            None => answer_latencies(b.drop_last()),
        }
    }
}

/// The failure modes of the lookups that did not answer.
pub open spec fn lookup_failures(b: Seq<DnsObservation>) -> Seq<FailureKind>
    decreases b.len(),
{
    if b.len() == 0 {
        Seq::empty()
    } else {
        match (b.last().latency_ms, b.last().error) {
            (None, Some(e)) => lookup_failures(b.drop_last()).push(e.kind),
            _ => lookup_failures(b.drop_last()),
        }
    }
}

/// The smallest time-to-live among lookups.
pub open spec fn smallest_ttl(b: Seq<DnsObservation>) -> Option<u32>
    decreases b.len(),
{
    if b.len() == 0 {
        None
    } else {
        match (smallest_ttl(b.drop_last()), b.last().ttl) {
            (Some(m), Some(t)) => Some(
                if t < m {
                    t
                } else {
                    m
                },
            ),
            (None, ttl) => ttl,
            (m, None) => m,
        }
    }
}

/// The resolver the lookups went to.
pub open spec fn bucket_resolver(b: Seq<DnsObservation>) -> ResolverModel {
    if b.len() == 0 {
        ResolverModel::System
    } else {
        b[0].resolver.deep_view()
    }
}

/// No more lookups answered than were made.
proof fn lemma_answer_latencies_len(b: Seq<DnsObservation>)
    ensures
        answer_latencies(b).len() <= b.len(),
    decreases b.len(),
{
    if b.len() > 0 {
        lemma_answer_latencies_len(b.drop_last());
    }
}

/// Whether a result sums up repeated lookups: successes feed the latency,
/// failures are counted by kind, and the smallest time-to-live is kept.
pub open spec fn aggregates(
    bucket: Seq<DnsObservation>,
    record_type: DnsRecordType,
    attempts: usize,
    r: DnsRepeatResult,
) -> bool {
    let successes = answer_latencies(bucket).len();
    &&& r.resolver.deep_view() == bucket_resolver(bucket)
    &&& r.record_type == record_type
    &&& r.attempts == attempts
    &&& r.successes == successes
    &&& r.failures == (if attempts >= successes {
        attempts - successes
    } else {
        0
    })
    &&& r.success_rate == Rate::of(successes, attempts as nat)
    &&& r.success_rate.wf()
    &&& summarizes(r.latency, answer_latencies(bucket))
    &&& counts_failures(r.failure_counts@, lookup_failures(bucket))
    &&& r.ttl == smallest_ttl(bucket)
}

/// Aggregate one resolver's repeated DNS observations: successes feed latency,
/// failures are counted by kind, and the smallest time-to-live is kept.
pub fn aggregate_repeat(bucket: &[DnsObservation], record_type: DnsRecordType, attempts: usize) -> (r: DnsRepeatResult)
    ensures
        aggregates(bucket@, record_type, attempts, r),
{
    let mut latency = LatencyStats::default();
    let mut kinds: Vec<FailureKind> = Vec::new();
    let mut ttl: Option<u32> = None;
    for i in 0..bucket.len()
        invariant
            latency@ == answer_latencies(bucket@.take(i as int)),
            kinds@ == lookup_failures(bucket@.take(i as int)),
            ttl == smallest_ttl(bucket@.take(i as int)),
    {
        assert(bucket@.take(i as int + 1).drop_last() =~= bucket@.take(i as int));
        let obs = &bucket[i];
        match (ttl, obs.ttl) {
            (Some(m), Some(t)) => if t < m {
                ttl = Some(t);
            },
            (None, t) => {
                ttl = t;
            },
            _ => {},
        }
        match obs.latency_ms {
            Some(ms) => latency.push(ms),
            None => match &obs.error {
                Some(e) => kinds.push(e.kind),
                None => {},
            },
        }
    }
    assert(bucket@.take(bucket@.len() as int) =~= bucket@);
    proof {
        lemma_answer_latencies_len(bucket@);
    }
    let successes = latency.count();
    let resolver = if bucket.len() == 0 {
        ResolverKind::System
    } else {
        bucket[0].resolver.clone()
    };
    DnsRepeatResult {
        resolver,
        record_type,
        attempts,
        successes,
        failures: if attempts >= successes {
            attempts - successes
        } else {
            0
        },
        success_rate: Rate::from_counts(successes, attempts),
        latency: latency.summarize(),
        failure_counts: count_failures(kinds.as_slice()),
        ttl,
    }
}

// --- laws --------------------------------------------------------------------------------

/// A record taken from an answer keeps the answer's data, and an answer of
/// another type than the wanted one gives none.
pub proof fn lemma_record_keeps_the_data(t: DnsRecordType, r: RData)
    ensures
        r matches RData::A(ip) ==> rdata_record(t, r) == (if t == DnsRecordType::A {
            Some(DnsRecordModel::A(ip))
        } else {
            None
        }),
        r matches RData::Aaaa(ip) ==> rdata_record(t, r) == (if t == DnsRecordType::Aaaa {
            Some(DnsRecordModel::Aaaa(ip))
        } else {
            None
        }),
        r matches RData::Cname(n) ==> (rdata_record(t, r) is Some <==> t == DnsRecordType::Cname) && (rdata_record(
            t,
            r,
        ) is Some ==> rdata_record(t, r)->0 == DnsRecordModel::Cname(n@)),
        r matches RData::Ns(n) ==> (rdata_record(t, r) is Some <==> t == DnsRecordType::Ns) && (rdata_record(t, r) is Some
            ==> rdata_record(t, r)->0 == DnsRecordModel::Ns(n@)),
        r matches RData::Ptr(n) ==> (rdata_record(t, r) is Some <==> t == DnsRecordType::Ptr) && (rdata_record(
            t,
            r,
        ) is Some ==> rdata_record(t, r)->0 == DnsRecordModel::Ptr(n@)),
        r matches RData::Mx { preference: p, exchange: x } ==> (rdata_record(t, r) is Some <==> t == DnsRecordType::Mx)
            && (rdata_record(t, r) matches Some(m) ==> m matches DnsRecordModel::Mx { preference, exchange }
            && preference == p && exchange == x@),
        r matches RData::Srv { priority: a, weight: b, port: c, target: d } ==> (rdata_record(t, r) is Some <==> t
            == DnsRecordType::Srv) && (rdata_record(t, r) matches Some(m) ==> m matches DnsRecordModel::Srv {
            priority,
            weight,
            port,
            target,
        } && priority == a && weight == b && port == c && target == d@),
        r matches RData::Caa { issuer_critical, reserved_flags, tag: g, value: v } ==> (rdata_record(t, r) is Some <==> t
            == DnsRecordType::Caa) && (rdata_record(t, r) matches Some(m) ==> m matches DnsRecordModel::Caa {
            flags,
            tag,
            value,
        } && tag == g@ && value == lossy_text(v@) && (issuer_critical && reserved_flags < 128 ==> flags == 128
            + reserved_flags) && (!issuer_critical ==> flags == reserved_flags)),
        r is Other ==> rdata_record(t, r) is None,
{
    if r is Caa {
        let f = r->reserved_flags;
        assert(f < 128 ==> 0x80u8 | f == 128 + f) by (bit_vector);
    }
}

/// Answers that all hold an address of the wanted family are kept in their order
/// with the time-to-live of the first; the text parts of a text record are
/// joined in their order.
pub proof fn lemma_address_answers_are_kept(a: Seq<Answer>)
    ensures
        (forall|i: int| 0 <= i < a.len() ==> (#[trigger] a[i]).data is A) ==> typed_records(DnsRecordType::A, a).len()
            == a.len() && (forall|i: int|
            0 <= i < a.len() ==> #[trigger] typed_records(DnsRecordType::A, a)[i] == DnsRecordModel::A(a[i].data->A_0))
            && (a.len() > 0 ==> typed_ttl(DnsRecordType::A, a) == Some(a[0].ttl)),
        (forall|i: int| 0 <= i < a.len() ==> (#[trigger] a[i]).data is Aaaa) ==> typed_records(
            DnsRecordType::Aaaa,
            a,
        ).len() == a.len() && (forall|i: int|
            0 <= i < a.len() ==> #[trigger] typed_records(DnsRecordType::Aaaa, a)[i] == DnsRecordModel::Aaaa(
                a[i].data->Aaaa_0,
            )) && (a.len() > 0 ==> typed_ttl(DnsRecordType::Aaaa, a) == Some(a[0].ttl)),
    decreases a.len(),
{
    if a.len() > 0 {
        let front = a.drop_last();
        lemma_address_answers_are_kept(front);
        assert forall|i: int| 0 <= i < front.len() implies front[i] == #[trigger] a[i] by {}
        assert(a[a.len() - 1] == a.last());
        if a.len() > 1 {
            assert(front[0] == a[0]);
        }
    }
}

/// An observation is of the host, the resolver and the record type that were
/// asked for. It has a latency exactly when it has no error, then the measured
/// one; and with an error it has no records and no time-to-live.
pub proof fn lemma_lookup_is_of_what_was_asked(
    host: Seq<char>,
    resolver: ResolverModel,
    t: DnsRecordType,
    outcome: LookupOutcome,
)
    ensures
        ({
            let o = lookup_result(host, resolver, t, outcome);
            &&& o.hostname == host && o.resolver == resolver && o.record_type == t
            &&& o.error is None <==> outcome is Answered
            &&& outcome matches LookupOutcome::Answered { answers, latency_ms: ms } ==> o.latency_ms == Some(ms)
            &&& o.error is Some ==> o.records.len() == 0 && o.ttl is None && o.latency_ms is None
            &&& o.error matches Some(e) ==> (e.kind == FailureKind::Timeout <==> outcome is TimedOut) && (e.kind
                == FailureKind::Timeout || e.kind == FailureKind::Dns)
        }),
{
}

/// A reply over an encrypted transport is an answer exactly when the message
/// decodes, its response code is zero and it holds a record of the wanted type;
/// then the observation has those records, that time-to-live and the measured
/// latency. Anything else is a DNS failure without records.
pub proof fn lemma_encrypted_reply(
    host: Seq<char>,
    resolver: ResolverModel,
    t: DnsRecordType,
    label: Seq<char>,
    body: Seq<u8>,
    latency_ms: u64,
)
    ensures
        ({
            let o = exchanged(host, resolver, t, label, body, latency_ms);
            &&& o.hostname == host && o.resolver == resolver && o.record_type == t
            &&& o.error is None <==> (response(body, t) matches Ok(r) && r.rcode == 0 && r.records.len() > 0)
            &&& o.error is None ==> o.records == response(body, t)->Ok_0.records && o.ttl == response(
                body,
                t,
            )->Ok_0.ttl && o.latency_ms == Some(latency_ms)
            &&& o.error matches Some(e) ==> e.kind == FailureKind::Dns && o.records.len() == 0 && o.ttl is None
                && o.latency_ms is None
        }),
{
}

/// A DNS-over-HTTPS reply counts only with status 200.
pub proof fn lemma_doh_needs_success(
    endpoint: Seq<char>,
    host: Seq<char>,
    t: DnsRecordType,
    status: u16,
    body: Seq<u8>,
    latency_ms: u64,
)
    ensures
        doh_result(endpoint, host, t, status, body, latency_ms).error is None ==> status == 200,
        doh_result(endpoint, host, t, status, body, latency_ms).resolver == ResolverModel::Doh(endpoint),
        status == 200 ==> doh_result(endpoint, host, t, status, body, latency_ms).error is None == exchanged(
            host,
            ResolverModel::Doh(endpoint),
            t,
            endpoint,
            body,
            latency_ms,
        ).error is None && doh_result(endpoint, host, t, status, body, latency_ms).records == exchanged(
            host,
            ResolverModel::Doh(endpoint),
            t,
            endpoint,
            body,
            latency_ms,
        ).records,
{
}

/// A step that ran out of time is a timeout whatever the step; otherwise only a
/// request that could not be built is a protocol error.
pub proof fn lemma_step_failures(step: ExchangeStep, why: StepFailure)
    ensures
        step_kind(step, why) == FailureKind::Timeout <==> why is TimedOut,
        step_kind(step, why) == FailureKind::Protocol <==> why is Failed && step == ExchangeStep::DohBuild,
        step_kind(step, why) == FailureKind::Dns <==> why is Failed && step != ExchangeStep::DohBuild,
{
}

/// Repeated lookups are aggregated from what was seen: the latencies are those
/// of the lookups that have one, in their order; the failure modes are those of
/// the lookups that have none, in their order.
pub proof fn lemma_repeat_keeps_the_measurements(b: Seq<DnsObservation>)
    ensures
        answer_latencies(b) == b.filter(|o: DnsObservation| o.latency_ms is Some).map_values(
            |o: DnsObservation| o.latency_ms->0,
        ),
        lookup_failures(b) == b.filter(|o: DnsObservation| o.latency_ms is None && o.error is Some).map_values(
            |o: DnsObservation| o.error->0.kind,
        ),
    decreases b.len(),
{
    reveal(Seq::filter);
    if b.len() > 0 {
        lemma_repeat_keeps_the_measurements(b.drop_last());
    }
    assert(answer_latencies(b) =~= b.filter(|o: DnsObservation| o.latency_ms is Some).map_values(
        |o: DnsObservation| o.latency_ms->0,
    ));
    assert(lookup_failures(b) =~= b.filter(|o: DnsObservation| o.latency_ms is None && o.error is Some).map_values(
        |o: DnsObservation| o.error->0.kind,
    ));
}

/// The time-to-live of repeated lookups is one that a lookup had and that none
/// fell below; there is none only where no lookup had one.
pub proof fn lemma_repeat_ttl_is_the_smallest(b: Seq<DnsObservation>)
    ensures
        smallest_ttl(b) is None <==> forall|i: int| 0 <= i < b.len() ==> (#[trigger] b[i]).ttl is None,
        smallest_ttl(b) matches Some(m) ==> (exists|i: int| 0 <= i < b.len() && (#[trigger] b[i]).ttl == Some(m)) && (
        forall|i: int| 0 <= i < b.len() && (#[trigger] b[i]).ttl is Some ==> m <= b[i].ttl->0),
    decreases b.len(),
{
    if b.len() > 0 {
        let front = b.drop_last();
        let last = b.len() - 1;
        lemma_repeat_ttl_is_the_smallest(front);
        assert forall|i: int| 0 <= i < last implies front[i] == #[trigger] b[i] by {}
        if smallest_ttl(front) is None {
            assert forall|i: int| 0 <= i < last implies (#[trigger] b[i]).ttl is None by {
                assert(front[i].ttl is None);
            }
            if b[last].ttl is Some {
                assert(b[last].ttl == smallest_ttl(b));
            }
        } else {
            let m = smallest_ttl(front)->0;
            let k = choose|k: int| 0 <= k < front.len() && (#[trigger] front[k]).ttl == Some(m);
            assert(b[k].ttl == Some(m));
            assert forall|i: int| 0 <= i < last && (#[trigger] b[i]).ttl is Some implies m <= b[i].ttl->0 by {
                assert(front[i].ttl is Some);
            }
        }
    }
}

/// The counts of repeated lookups: successes are the lookups with a latency,
/// failures are the other attempts, and the rate is of these counts.
pub proof fn lemma_repeat_counts(b: Seq<DnsObservation>, t: DnsRecordType, attempts: usize, r: DnsRepeatResult)
    requires
        aggregates(b, t, attempts, r),
        answer_latencies(b).len() <= attempts,
    ensures
        r.attempts == attempts,
        r.record_type == t,
        r.successes + r.failures == attempts,
        r.latency.samples@ == answer_latencies(b),
        r.successes == r.latency.samples@.len(),
        attempts > 0 ==> r.success_rate.part * attempts == r.successes * r.success_rate.whole,
        b.len() > 0 ==> r.resolver.deep_view() == b[0].resolver.deep_view(),
{
}

/// What is said of a failed step keeps the cause, or the endpoint and how long it
/// was waited for; only a response over the size limit is put in other words.
pub proof fn lemma_step_message_keeps_the_cause(step: ExchangeStep, endpoint: Seq<char>, why: StepFailure)
    ensures
        why matches StepFailure::Failed(e) ==> (step == ExchangeStep::DohBody && has_text(
            e@,
            "length limit exceeded"@,
        )) || has_text(step_message(step, endpoint, why), e@),
        why matches StepFailure::TimedOut(ms) ==> has_text(
            step_message(step, endpoint, why),
            endpoint + " timed out after "@ + millis(ms),
        ),
{
    broadcast use group_occurrence;

    match why {
        StepFailure::TimedOut(ms) => {
            let front = match step {
                ExchangeStep::DohHandshake => "DoH handshake to "@,
                ExchangeStep::DohBuild => "DoH request to "@,
                ExchangeStep::DohRequest => "DoH request to "@,
                ExchangeStep::DohBody => "DoH body from "@,
                ExchangeStep::DotWrite => "DoT write to "@,
                ExchangeStep::DotPrefix => "DoT read from "@,
                ExchangeStep::DotBody => "DoT response from "@,
            };
            let p = endpoint + " timed out after "@ + millis(ms);
            assert(step_message(step, endpoint, why) =~= front + p);
        },
        _ => {},
    }
}

/// A start of authority keeps its names and numbers, and a text record the texts of
/// its parts, in their order.
pub proof fn lemma_authority_and_text_keep_the_data(t: DnsRecordType, r: RData)
    ensures
        r matches RData::Soa { mname, rname, serial, refresh, retry, expire, minimum } ==> (rdata_record(t, r) is Some
            <==> t == DnsRecordType::Soa) && (rdata_record(t, r) matches Some(m) ==> m matches DnsRecordModel::Soa(s)
            && has_text(s, mname@ + " "@ + rname@ + " serial "@ + signed(serial as int) + " refresh "@) && has_text(
            s,
            " refresh "@ + signed(refresh as int) + " retry "@,
        ) && has_text(s, " retry "@ + signed(retry as int) + " expire "@) && has_text(
            s,
            " expire "@ + signed(expire as int) + " minimum "@,
        ) && has_text(s, " minimum "@ + signed(minimum as int))),
        r matches RData::Txt(parts) ==> (rdata_record(t, r) is Some <==> t == DnsRecordType::Txt) && (rdata_record(
            t,
            r,
        ) matches Some(m) ==> m matches DnsRecordModel::Txt(s) && s == parts@.map_values(
            |p: Vec<u8>| lossy_text(p@),
        ).flatten()),
{
    match r {
        RData::Soa { mname, rname, serial, refresh, retry, expire, minimum } => {
            lemma_authority_text(
                mname@,
                rname@,
                seq![serial as int, refresh as int, retry as int, expire as int, minimum as int],
            );
        },
        RData::Txt(parts) => lemma_joined_text(parts@),
        _ => {},
    }
}

/// The texts of the parts one behind the other.
proof fn lemma_joined_text(parts: Seq<Vec<u8>>)
    ensures
        joined_text(parts) == parts.map_values(|p: Vec<u8>| lossy_text(p@)).flatten(),
    decreases parts.len(),
{
    let f = |p: Vec<u8>| lossy_text(p@);
    if parts.len() > 0 {
        lemma_joined_text(parts.drop_last());
        let front = parts.drop_last().map_values(f);
        assert(parts.map_values(f) =~= front.push(f(parts.last())));
        front.lemma_flatten_push(f(parts.last()));
    } else {
        assert(parts.map_values(f) =~= Seq::empty());
    }
}

/// The records of a lookup are those of the wanted type among the answers, in
/// their order.
pub proof fn lemma_wanted_answers_are_kept(t: DnsRecordType, a: Seq<Answer>)
    ensures
        typed_records(t, a) == a.filter(|x: Answer| rdata_record(t, x.data) is Some).map_values(
            |x: Answer| rdata_record(t, x.data)->0,
        ),
        typed_ttl(t, a) is Some <==> typed_records(t, a).len() > 0,
    decreases a.len(),
{
    reveal(Seq::filter);
    if a.len() > 0 {
        lemma_wanted_answers_are_kept(t, a.drop_last());
    }
    assert(typed_records(t, a) =~= a.filter(|x: Answer| rdata_record(t, x.data) is Some).map_values(
        |x: Answer| rdata_record(t, x.data)->0,
    ));
}

/// What is said of a failed lookup: of a name that does not exist and of one
/// without records the name, of one that ran out of time also the type and how
/// long was waited; any other failure keeps its own words.
pub proof fn lemma_lookup_failures_name_what_was_asked(
    host: Seq<char>,
    resolver: ResolverModel,
    t: DnsRecordType,
    outcome: LookupOutcome,
)
    requires
        !(outcome is Answered),
    ensures
        ({
            let o = lookup_result(host, resolver, t, outcome);
            &&& o.error matches Some(e) && {
                &&& outcome is NxDomain ==> has_text(e.message, host) && has_text(e.message, "NXDOMAIN"@)
                &&& outcome is NoRecords ==> has_text(e.message, t.text() + " records found for "@ + host)
                &&& outcome matches LookupOutcome::Failed(message) ==> e.message == message@
                &&& outcome matches LookupOutcome::TimedOut(ms) ==> has_text(e.message, host) && has_text(
                    e.message,
                    t.text(),
                ) && has_text(e.message, millis(ms))
                &&& e.kind == if outcome is TimedOut {
                    FailureKind::Timeout
                } else {
                    FailureKind::Dns
                }
            }
        }),
{
    broadcast use group_occurrence;

    reveal_strlit(" does not exist (NXDOMAIN)");
    reveal_strlit("NXDOMAIN");
    let s = " does not exist (NXDOMAIN)"@;
    assert(s.skip(17).take(8) =~= "NXDOMAIN"@);
    assert(has_prefix(s.skip(17), "NXDOMAIN"@));
    assert("no "@ + t.text() + " records found for "@ + host =~= "no "@ + (t.text() + " records found for "@ + host));
}

} // verus!
