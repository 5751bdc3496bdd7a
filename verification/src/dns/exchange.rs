//! The course of an encrypted lookup: a DNS-over-HTTPS or DNS-over-TLS
//! exchange with one endpoint, step by step.

use super::endpoint::{base64_text, doh_endpoint, dot_endpoint, parse_doh_url, parse_dot_endpoint};
use super::outcome::{
    doh_observation, doh_request, doh_result, dot_frame, dot_length, dot_observation, exchange_failure, exchanged, failed,
    framed, lemma_step_failures, lemma_step_message_keeps_the_cause, step_error, step_kind, step_message, ExchangeStep,
    StepFailure,
};
use super::wire::{build_query, query};
use crate::http::{build_request, built_request};
use crate::http_common::wire_authority_text;
use crate::model::dns::{DnsObservationModel, ResolverModel};
use crate::model::{DnsObservation, DnsRecordType, FailureKind, ProbeError, ResolverKind};
use crate::net::{IpAddr, SocketAddr};
use crate::text::{dec, has_text, millis};
use vstd::prelude::*;

verus! {

/// The protocol of an encrypted lookup.
#[derive(Debug, Clone, Copy, PartialEq, Eq, Structural)]
pub enum Encrypted {
    /// DNS over HTTPS.
    Doh,
    /// DNS over TLS.
    Dot,
}

/// The resolver an encrypted lookup goes to.
pub open spec fn encrypted_resolver(protocol: Encrypted, endpoint: Seq<char>) -> ResolverModel {
    match protocol {
        Encrypted::Doh => ResolverModel::Doh(endpoint),
        Encrypted::Dot => ResolverModel::Dot(endpoint),
    }
}

/// Where an endpoint is and which path it serves, or what is wrong with it;
/// a DNS-over-TLS endpoint has no path.
pub open spec fn located(protocol: Encrypted, endpoint: Seq<char>) -> Result<(Seq<char>, u16, Seq<char>), Seq<char>> {
    match protocol {
        Encrypted::Doh => doh_endpoint(endpoint),
        Encrypted::Dot => match dot_endpoint(endpoint) {
            Ok((host, port)) => Ok((host, port, ""@)),
            Err(e) => Err(e),
        },
    }
}

/// What an encrypted lookup does next.
#[derive(Debug, Clone, Copy, PartialEq, Eq, Structural)]
pub enum ExchangeStage {
    /// Find the address of the endpoint's host.
    Resolve,
    /// Connect to this address and negotiate TLS.
    Connect(SocketAddr),
    /// Negotiate HTTP/1.1.
    Handshake,
    /// Build the request.
    Build,
    /// Send the request and await the response head.
    Request,
    /// Read the response body that follows a head with this status.
    Body(u16),
    /// Frame the query.
    Frame,
    /// Write the framed query.
    Write,
    /// Read the two-byte length of the response.
    Prefix,
    /// Read the response of this length.
    Message(usize),
}

/// An encrypted lookup under way.
pub struct Exchange {
    protocol: Encrypted,
    endpoint: String,
    host: String,
    record_type: DnsRecordType,
    timeout_ms: u64,
    endpoint_host: String,
    endpoint_port: u16,
    path: String,
    message: Vec<u8>,
    stage: ExchangeStage,
}

/// What is known in the course of an encrypted lookup.
#[verifier::ext_equal]
pub struct ExchangeState {
    pub protocol: Encrypted,
    pub endpoint: Seq<char>,
    pub host: Seq<char>,
    pub record_type: DnsRecordType,
    pub timeout_ms: u64,
    /// The query, once the endpoint's address is known.
    pub message: Seq<u8>,
    pub stage: ExchangeStage,
}

impl ExchangeState {
    /// The observation of a lookup that failed.
    pub open spec fn fails(self, kind: FailureKind, message: Seq<char>) -> DnsObservationModel {
        failed(self.host, encrypted_resolver(self.protocol, self.endpoint), self.record_type, kind, message)
    }

    /// The observation of a lookup one step of which went wrong.
    pub open spec fn fails_at(self, step: ExchangeStep, why: StepFailure) -> DnsObservationModel {
        self.fails(step_kind(step, why), step_message(step, self.endpoint, why))
    }

    /// The same lookup at another stage.
    pub open spec fn at(self, stage: ExchangeStage) -> ExchangeState {
        ExchangeState { stage, ..self }
    }
}

/// The step whose failure is reported when a stage goes wrong.
pub open spec fn stage_step(stage: ExchangeStage) -> ExchangeStep {
    match stage {
        ExchangeStage::Handshake => ExchangeStep::DohHandshake,
        ExchangeStage::Build => ExchangeStep::DohBuild,
        ExchangeStage::Request => ExchangeStep::DohRequest,
        ExchangeStage::Body(_) => ExchangeStep::DohBody,
        ExchangeStage::Write => ExchangeStep::DotWrite,
        ExchangeStage::Prefix => ExchangeStep::DotPrefix,
        _ => ExchangeStep::DotBody,
    }
}

/// Whether a stage talks to the endpoint over an established connection.
pub open spec fn talks(stage: ExchangeStage) -> bool {
    match stage {
        ExchangeStage::Handshake => true,
        ExchangeStage::Request => true,
        ExchangeStage::Body(_) => true,
        ExchangeStage::Write => true,
        ExchangeStage::Prefix => true,
        ExchangeStage::Message(_) => true,
        _ => false,
    }
}

impl View for Exchange {
    type V = ExchangeState;

    closed spec fn view(&self) -> ExchangeState {
        ExchangeState {
            protocol: self.protocol,
            endpoint: self.endpoint@,
            host: self.host@,
            record_type: self.record_type,
            timeout_ms: self.timeout_ms,
            message: self.message@,
            stage: self.stage,
        }
    }
}

impl Exchange {
    /// The invariant of a lookup: its endpoint is a proper one.
    pub closed spec fn wf(self) -> bool {
        located(self.protocol, self.endpoint@) == Ok::<(Seq<char>, u16, Seq<char>), Seq<char>>(
            (self.endpoint_host@, self.endpoint_port, self.path@),
        )
    }

    /// Begin a lookup, or report what is wrong with its endpoint.
    pub fn start(protocol: Encrypted, endpoint: &str, host: &str, record_type: DnsRecordType, timeout_ms: u64) -> (r: Result<
        Exchange,
        DnsObservation,
    >)
        ensures
            r matches Ok(x) ==> x.wf() && located(protocol, endpoint@) is Ok && x@ == (ExchangeState {
                protocol,
                endpoint: endpoint@,
                host: host@,
                record_type,
                timeout_ms,
                message: Seq::empty(),
                stage: ExchangeStage::Resolve,
            }),
            r matches Err(o) ==> located(protocol, endpoint@) matches Err(e) && o.deep_view() == failed(
                host@,
                encrypted_resolver(protocol, endpoint@),
                record_type,
                FailureKind::Other,
                e,
            ),
    {
        let place = match protocol {
            Encrypted::Doh => parse_doh_url(endpoint),
            Encrypted::Dot => match parse_dot_endpoint(endpoint) {
                Ok((host, port)) => Ok((host, port, "".to_owned())),
                Err(e) => Err(e),
            },
        };
        match place {
            Ok((endpoint_host, endpoint_port, path)) => Ok(
                Exchange {
                    protocol,
                    endpoint: endpoint.to_owned(),
                    host: host.to_owned(),
                    record_type,
                    timeout_ms,
                    endpoint_host,
                    endpoint_port,
                    path,
                    message: Vec::new(),
                    stage: ExchangeStage::Resolve,
                },
            ),
            Err(message) => {
                let resolver = match protocol {
                    Encrypted::Doh => ResolverKind::Doh(endpoint.to_owned()),
                    Encrypted::Dot => ResolverKind::Dot(endpoint.to_owned()),
                };
                Err(exchange_failure(host, &resolver, record_type, ProbeError { kind: FailureKind::Other, message }))
            },
        }
    }

    /// What to do next.
    pub fn stage(&self) -> (r: ExchangeStage)
        ensures
            r == self@.stage,
    {
        self.stage
    }

    /// The host of the endpoint: the name to resolve, and the server name of
    /// the TLS handshake.
    pub fn server(&self) -> (r: &str)
        requires
            self.wf(),
        ensures
            located(self@.protocol, self@.endpoint) matches Ok((host, port, path)) && r@ == host,
    {
        self.endpoint_host.as_str()
    }

    /// The observation of a lookup that ended with an error.
    fn failure(&self, error: ProbeError) -> (o: DnsObservation)
        ensures
            o.deep_view() == self@.fails(error.kind, error.message@),
    {
        let resolver = match self.protocol {
            Encrypted::Doh => ResolverKind::Doh(self.endpoint.clone()),
            Encrypted::Dot => ResolverKind::Dot(self.endpoint.clone()),
        };
        exchange_failure(self.host.as_str(), &resolver, self.record_type, error)
    }

    /// Go on with the address found for the endpoint's host, or end with the
    /// reason why there is none or why the query cannot be built.
    pub fn resolved(&mut self, found: Result<IpAddr, String>) -> (r: Option<DnsObservation>)
        requires
            old(self).wf(),
            old(self)@.stage == ExchangeStage::Resolve,
        ensures
            final(self).wf(),
            match found {
                Err(e) => r matches Some(o) && o.deep_view() == old(self)@.fails(FailureKind::Dns, e@) && final(self)@
                    == old(self)@,
                Ok(ip) => match query(old(self)@.host, old(self)@.record_type) {
                    Err(e) => r matches Some(o) && o.deep_view() == old(self)@.fails(FailureKind::Protocol, e)
                        && final(self)@ == old(self)@,
                    Ok(message) => {
                        &&& r is None
                        &&& located(old(self)@.protocol, old(self)@.endpoint) matches Ok((host, port, path))
                            && final(self)@ == (ExchangeState {
                            message,
                            stage: ExchangeStage::Connect(SocketAddr { ip, port, scope_id: 0 }),
                            ..old(self)@
                        })
                    },
                },
            },
    {
        match found {
            Err(message) => Some(self.failure(ProbeError { kind: FailureKind::Dns, message })),
            Ok(ip) => match build_query(self.host.as_str(), self.record_type) {
                Err(message) => Some(self.failure(ProbeError { kind: FailureKind::Protocol, message })),
                Ok(message) => {
                    self.message = message;
                    self.stage = ExchangeStage::Connect(SocketAddr { ip, port: self.endpoint_port, scope_id: 0 });
                    None
                },
            },
        }
    }

    /// Go on once TLS is negotiated, or end with the error of the handshake.
    pub fn connected(&mut self, outcome: Result<(), ProbeError>) -> (r: Option<DnsObservation>)
        requires
            old(self).wf(),
            old(self)@.stage is Connect,
        ensures
            final(self).wf(),
            match outcome {
                Err(e) => r matches Some(o) && o.deep_view() == old(self)@.fails(e.kind, e.message@) && final(self)@
                    == old(self)@,
                Ok(()) => r is None && final(self)@ == old(self)@.at(
                    match old(self)@.protocol {
                        Encrypted::Doh => ExchangeStage::Handshake,
                        Encrypted::Dot => ExchangeStage::Frame,
                    },
                ),
            },
    {
        match outcome {
            Err(error) => Some(self.failure(error)),
            Ok(()) => {
                self.stage = match self.protocol {
                    Encrypted::Doh => ExchangeStage::Handshake,
                    Encrypted::Dot => ExchangeStage::Frame,
                };
                None
            },
        }
    }

    /// Go on from a negotiation of HTTP/1.1.
    pub fn negotiated(&mut self)
        requires
            old(self).wf(),
            old(self)@.stage == ExchangeStage::Handshake,
        ensures
            final(self).wf(),
            final(self)@ == old(self)@.at(ExchangeStage::Build),
    {
        self.stage = ExchangeStage::Build;
    }

    /// End with the failure of a stage that talks to the endpoint.
    pub fn broken(&self, e: String) -> (o: DnsObservation)
        requires
            talks(self@.stage),
        ensures
            o.deep_view() == self@.fails_at(stage_step(self@.stage), StepFailure::Failed(e)),
    {
        self.gone_wrong(StepFailure::Failed(e))
    }

    /// End with the timeout of a stage that talks to the endpoint.
    pub fn timed_out(&self) -> (o: DnsObservation)
        requires
            talks(self@.stage),
        ensures
            o.deep_view() == self@.fails_at(stage_step(self@.stage), StepFailure::TimedOut(self@.timeout_ms)),
    {
        self.gone_wrong(StepFailure::TimedOut(self.timeout_ms))
    }

    /// End with what went wrong at a stage.
    fn gone_wrong(&self, why: StepFailure) -> (o: DnsObservation)
        ensures
            o.deep_view() == self@.fails_at(stage_step(self@.stage), why),
    {
        let step = match self.stage {
            ExchangeStage::Handshake => ExchangeStep::DohHandshake,
            ExchangeStage::Build => ExchangeStep::DohBuild,
            ExchangeStage::Request => ExchangeStep::DohRequest,
            ExchangeStage::Body(_) => ExchangeStep::DohBody,
            ExchangeStage::Write => ExchangeStep::DotWrite,
            ExchangeStage::Prefix => ExchangeStep::DotPrefix,
            _ => ExchangeStep::DotBody,
        };
        self.failure(step_error(step, self.endpoint.as_str(), why))
    }

    /// Build the request of a DNS-over-HTTPS lookup, or end with the error that
    /// says why it cannot be built.
    pub fn request(&mut self) -> (r: Result<hyper::Request<()>, DnsObservation>)
        requires
            old(self).wf(),
            old(self)@.protocol == Encrypted::Doh,
            old(self)@.stage == ExchangeStage::Build,
        ensures
            final(self).wf(),
            located(old(self)@.protocol, old(self)@.endpoint) matches Ok((host, port, path)) && match built_request(
                "GET"@,
                path + "?dns="@ + base64_text(old(self)@.message),
                seq![
                    ("host"@, wire_authority_text(host, port, true)),
                    ("accept"@, "application/dns-message"@),
                    ("user-agent"@, "ip-tools"@),
                ],
            ) {
                Ok(request) => {
                    &&& r == Ok::<hyper::Request<()>, DnsObservation>(request)
                    &&& final(self)@ == old(self)@.at(ExchangeStage::Request)
                },
                Err(e) => {
                    &&& r matches Err(o) && o.deep_view() == old(self)@.fails(
                        FailureKind::Protocol,
                        "could not build DoH request: "@ + e,
                    )
                    &&& final(self)@ == old(self)@
                },
            },
    {
        let head = doh_request(
            self.endpoint_host.as_str(),
            self.endpoint_port,
            self.path.as_str(),
            self.message.as_slice(),
        );
        self.built(build_request(&head))
    }

    /// What becomes of a built or rejected request.
    pub fn built(&mut self, built: Result<hyper::Request<()>, String>) -> (r: Result<
        hyper::Request<()>,
        DnsObservation,
    >)
        requires
            old(self).wf(),
            old(self)@.stage == ExchangeStage::Build,
        ensures
            final(self).wf(),
            match built {
                Ok(request) => {
                    &&& r == Ok::<hyper::Request<()>, DnsObservation>(request)
                    &&& final(self)@ == old(self)@.at(ExchangeStage::Request)
                },
                Err(e) => {
                    &&& r matches Err(o) && o.deep_view() == old(self)@.fails(
                        FailureKind::Protocol,
                        "could not build DoH request: "@ + e@,
                    )
                    &&& final(self)@ == old(self)@
                },
            },
    {
        match built {
            Ok(request) => {
                self.stage = ExchangeStage::Request;
                Ok(request)
            },
            Err(e) => Err(self.gone_wrong(StepFailure::Failed(e))),
        }
    }

    /// Go on from a response head.
    pub fn answered(&mut self, status: u16)
        requires
            old(self).wf(),
            old(self)@.stage == ExchangeStage::Request,
        ensures
            final(self).wf(),
            final(self)@ == old(self)@.at(ExchangeStage::Body(status)),
    {
        self.stage = ExchangeStage::Body(status);
    }

    /// Frame the query of a DNS-over-TLS lookup, or end with the error that
    /// says why it cannot be framed.
    pub fn frame(&mut self) -> (r: Result<Vec<u8>, DnsObservation>)
        requires
            old(self).wf(),
            old(self)@.stage == ExchangeStage::Frame,
        ensures
            final(self).wf(),
            match framed(old(self)@.message) {
                Some(wire) => {
                    &&& r matches Ok(bytes) && bytes@ == wire
                    &&& final(self)@ == old(self)@.at(ExchangeStage::Write)
                },
                None => {
                    &&& r matches Err(o) && o.deep_view() == old(self)@.fails(
                        FailureKind::Protocol,
                        "DoT query is too large ("@ + dec(old(self)@.message.len())
                            + " bytes) for a 2-byte length prefix"@,
                    )
                    &&& final(self)@ == old(self)@
                },
            },
    {
        match dot_frame(self.message.as_slice()) {
            Ok(wire) => {
                self.stage = ExchangeStage::Write;
                Ok(wire)
            },
            Err(error) => Err(self.failure(error)),
        }
    }

    /// Go on once the query is written.
    pub fn written(&mut self)
        requires
            old(self).wf(),
            old(self)@.stage == ExchangeStage::Write,
        ensures
            final(self).wf(),
            final(self)@ == old(self)@.at(ExchangeStage::Prefix),
    {
        self.stage = ExchangeStage::Prefix;
    }

    /// Go on with the announced length of the response.
    pub fn announced(&mut self, first: u8, second: u8)
        requires
            old(self).wf(),
            old(self)@.stage == ExchangeStage::Prefix,
        ensures
            final(self).wf(),
            final(self)@ == old(self)@.at(ExchangeStage::Message((first * 256 + second) as usize)),
    {
        self.stage = ExchangeStage::Message(dot_length(first, second));
    }

    /// End with the body of the response, `latency_ms` milliseconds after the
    /// lookup began.
    pub fn received(&self, body: &[u8], latency_ms: u64) -> (o: DnsObservation)
        requires
            self@.stage is Body || self@.stage is Message,
            body@.len() <= isize::MAX,
        ensures
            o.deep_view() == (match self@.stage {
                ExchangeStage::Body(status) => doh_result(
                    self@.endpoint,
                    self@.host,
                    self@.record_type,
                    status,
                    body@,
                    latency_ms,
                ),
                _ => exchanged(
                    self@.host,
                    ResolverModel::Dot(self@.endpoint),
                    self@.record_type,
                    "DoT endpoint "@ + self@.endpoint,
                    body@,
                    latency_ms,
                ),
            }),
    {
        match self.stage {
            ExchangeStage::Body(status) => doh_observation(
                self.endpoint.as_str(),
                self.host.as_str(),
                self.record_type,
                status,
                body,
                latency_ms,
            ),
            _ => dot_observation(self.endpoint.as_str(), self.host.as_str(), self.record_type, body, latency_ms),
        }
    }
}

/// A lookup that went wrong is reported as one of what was asked, of the endpoint
/// it was asked, without an answer; a stage that ran out of time as a timeout that
/// says how long was waited, any other with its cause.
pub proof fn lemma_failed_exchange(x: ExchangeState, why: StepFailure)
    ensures
        ({
            let o = x.fails_at(stage_step(x.stage), why);
            &&& o.hostname == x.host && o.record_type == x.record_type
            &&& o.resolver == match x.protocol {
                Encrypted::Doh => ResolverModel::Doh(x.endpoint),
                Encrypted::Dot => ResolverModel::Dot(x.endpoint),
            }
            &&& o.records.len() == 0 && o.ttl is None && o.latency_ms is None
            &&& o.error matches Some(e) && {
                &&& why is TimedOut <==> e.kind == FailureKind::Timeout
                &&& why matches StepFailure::TimedOut(ms) ==> has_text(
                    e.message,
                    x.endpoint + " timed out after "@ + millis(ms),
                )
                &&& why matches StepFailure::Failed(cause) ==> (x.stage is Body && has_text(
                    cause@,
                    "length limit exceeded"@,
                )) || has_text(e.message, cause@)
            }
        }),
{
    lemma_step_failures(stage_step(x.stage), why);
    lemma_step_message_keeps_the_cause(stage_step(x.stage), x.endpoint, why);
}

} // verus!
