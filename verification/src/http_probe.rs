//! The course of an HTTP probe: which step follows which, what each event
//! leads to, and the observation the probe ends in.

use crate::http::{
    build_request, built_request, connect_failed, connect_timed_out, failed_kind, failed_text, first_headers,
    first_location, header_texts, recordable, request_head, request_headers, request_uri, step_failed,
    step_timed_out, timeout_text, BodyCapture, BodyEvent, HttpStep, HttpVersion, RawHeader,
};
use crate::http_common::{first_bytes_of, snippet_text};
use crate::model::{FailureKind, HttpObservation, ProbeError, TlsObservation};
use crate::net::SocketAddr;
use crate::text::millis;
use vstd::prelude::*;
use vstd::utf8::{decode_utf8, valid_utf8};

verus! {

/// What a probe is to do.
pub struct HttpPlan {
    pub version: HttpVersion,
    /// Whether HTTP/1.1 runs over TLS; later versions always do.
    pub tls: bool,
    pub destination: SocketAddr,
    pub host: String,
    pub method: String,
    pub path: String,
    pub headers: Vec<(String, String)>,
    /// The length of the request body, if there is one.
    pub body: Option<usize>,
    /// The time each step may take, in milliseconds.
    pub timeout_ms: u64,
    pub max_body_bytes: u64,
    /// Whether a copy of the response body is kept.
    pub keep_body: bool,
}

/// What every probe of a run asks for, wherever it goes.
pub struct RequestOptions {
    /// The name presented as server name and `Host`.
    pub host: String,
    pub method: String,
    pub path: String,
    pub headers: Vec<(String, String)>,
    /// The length of the request body, if there is one.
    pub body: Option<usize>,
    /// The time each step may take, in milliseconds.
    pub timeout_ms: u64,
    pub max_body_bytes: u64,
    /// Whether a copy of the response body is kept.
    pub keep_body: bool,
}

/// Whether a plan asks a destination, over a protocol version, for what the
/// options say.
pub open spec fn plans(
    plan: HttpPlan,
    options: RequestOptions,
    version: HttpVersion,
    tls: bool,
    destination: SocketAddr,
) -> bool {
    &&& plan.version == version
    &&& plan.tls == tls
    &&& plan.destination == destination
    &&& plan.host@ == options.host@
    &&& plan.method@ == options.method@
    &&& plan.path@ == options.path@
    &&& header_texts(plan.headers@) == header_texts(options.headers@)
    &&& plan.body == options.body
    &&& plan.timeout_ms == options.timeout_ms
    &&& plan.max_body_bytes == options.max_body_bytes
    &&& plan.keep_body == options.keep_body
}

impl RequestOptions {
    /// The plan to ask a destination over a protocol version.
    pub fn plan(&self, version: HttpVersion, tls: bool, destination: SocketAddr) -> (r: HttpPlan)
        ensures
            plans(r, *self, version, tls, destination),
    {
        let mut headers: Vec<(String, String)> = Vec::new();
        let ghost all = header_texts(self.headers@);
        assert(header_texts(headers@) =~= all.take(0));
        for i in 0..self.headers.len()
            invariant
                all == header_texts(self.headers@),
                header_texts(headers@) == all.take(i as int),
        {
            let ghost before = headers@;
            headers.push((self.headers[i].0.clone(), self.headers[i].1.clone()));
            assert(all[i as int] == (self.headers@[i as int].0@, self.headers@[i as int].1@));
            assert(header_texts(headers@) =~= header_texts(before).push(all[i as int]));
            assert(header_texts(headers@) =~= all.take(i as int + 1));
        }
        assert(all.take(all.len() as int) =~= all);
        HttpPlan {
            version,
            tls,
            destination,
            host: self.host.clone(),
            method: self.method.clone(),
            path: self.path.clone(),
            headers,
            body: self.body,
            timeout_ms: self.timeout_ms,
            max_body_bytes: self.max_body_bytes,
            keep_body: self.keep_body,
        }
    }

    /// Add the plans to ask each of some destinations over a protocol version.
    fn push_plans(&self, out: &mut Vec<HttpPlan>, version: HttpVersion, tls: bool, destinations: &[SocketAddr])
        ensures
            final(out)@.len() == old(out)@.len() + destinations@.len(),
            final(out)@.take(old(out)@.len() as int) == old(out)@,
            forall|j: int|
                0 <= j < destinations@.len() ==> plans(
                    final(out)@[old(out)@.len() + j],
                    *self,
                    version,
                    tls,
                    #[trigger] destinations@[j],
                ),
    {
        let ghost before = out@;
        for i in 0..destinations.len()
            invariant
                before == old(out)@,
                out@.len() == before.len() + i,
                out@.take(before.len() as int) == before,
                forall|j: int|
                    0 <= j < i ==> plans(out@[before.len() + j], *self, version, tls, #[trigger] destinations@[j]),
        {
            let ghost was = out@;
            out.push(self.plan(version, tls, destinations[i]));
            assert(out@.take(before.len() as int) =~= was.take(before.len() as int));
            assert forall|j: int| 0 <= j < i + 1 implies plans(
                out@[before.len() + j],
                *self,
                version,
                tls,
                #[trigger] destinations@[j],
            ) by {
                if j < i {
                    assert(out@[before.len() + j] == was[before.len() + j]);
                }
            }
        }
    }

    /// The plans of a full diagnosis: HTTP/1.1, HTTP/2 and HTTP/3 for every
    /// destination, in this order, or HTTP/1.1 alone in cleartext.
    pub fn all_plans(&self, destinations: &[SocketAddr], plain: bool) -> (out: Vec<HttpPlan>)
        ensures
            out@.len() == (if plain {
                destinations@.len()
            } else {
                destinations@.len() * 3
            }),
            forall|j: int|
                0 <= j < destinations@.len() ==> plans(
                    out@[j],
                    *self,
                    HttpVersion::Http1,
                    !plain,
                    #[trigger] destinations@[j],
                ),
            !plain ==> forall|j: int|
                0 <= j < destinations@.len() ==> plans(
                    out@[destinations@.len() + j],
                    *self,
                    HttpVersion::Http2,
                    true,
                    #[trigger] destinations@[j],
                ) && plans(
                    out@[destinations@.len() * 2 + j],
                    *self,
                    HttpVersion::Http3,
                    true,
                    destinations@[j],
                ),
    {
        let mut out: Vec<HttpPlan> = Vec::new();
        self.push_plans(&mut out, HttpVersion::Http1, !plain, destinations);
        if !plain {
            let ghost first = out@;
            self.push_plans(&mut out, HttpVersion::Http2, true, destinations);
            let ghost second = out@;
            self.push_plans(&mut out, HttpVersion::Http3, true, destinations);
            proof {
                let n = destinations@.len() as int;
                assert forall|j: int| 0 <= j < n implies plans(
                    out@[j],
                    *self,
                    HttpVersion::Http1,
                    !plain,
                    #[trigger] destinations@[j],
                ) by {
                    assert(out@.take(second.len() as int)[j] == second[j]);
                    assert(second.take(first.len() as int)[j] == first[j]);
                    assert(plans(first[0 + j], *self, HttpVersion::Http1, !plain, destinations@[j]));
                }
                assert forall|j: int| 0 <= j < n implies plans(
                    out@[n + j],
                    *self,
                    HttpVersion::Http2,
                    true,
                    #[trigger] destinations@[j],
                ) && plans(out@[n * 2 + j], *self, HttpVersion::Http3, true, destinations@[j]) by {
                    assert(out@.take(second.len() as int)[n + j] == second[n + j]);
                    assert(plans(second[first.len() + j], *self, HttpVersion::Http2, true, destinations@[j]));
                    assert(plans(out@[second.len() + j], *self, HttpVersion::Http3, true, destinations@[j]));
                }
            }
        }
        out
    }
}

/// A step of a probe.
#[derive(Debug, Clone, Copy, PartialEq, Eq, Structural)]
pub enum ProbeStep {
    /// Connect in cleartext.
    Plain,
    /// Connect and negotiate TLS.
    Tls,
    /// A step of the protocol.
    Http(HttpStep),
}

/// The head of a response.
#[derive(Debug)]
pub struct ResponseHead {
    pub status: u16,
    /// The protocol version the response names.
    pub version: String,
    pub headers: Vec<RawHeader>,
    /// The time from the request to this head, in milliseconds.
    pub ttfb_ms: u64,
}

/// What a step led to.
#[derive(Debug)]
pub enum ProbeEvent {
    /// The step is done.
    Done,
    /// The connection is up and secure.
    Secured(TlsObservation),
    /// The response head arrived.
    Head(ResponseHead),
    /// A part of the response body arrived.
    Chunk(Vec<u8>),
    /// The response body is complete.
    End,
    /// The step failed with this message.
    Failed(String),
    /// The cleartext connect failed in this mode, with this message.
    Unconnected(FailureKind, String),
    /// The TLS connect failed with this error.
    Unsecured(ProbeError),
    /// The step did not finish in time.
    TimedOut,
}

/// The name of a protocol version, by which a probe is known from the start,
/// so that a failed one keeps its identity.
pub open spec fn version_name(version: HttpVersion) -> Seq<char> {
    match version {
        HttpVersion::Http1 => "HTTP/1.1"@,
        HttpVersion::Http2 => "HTTP/2"@,
        HttpVersion::Http3 => "HTTP/3"@,
    }
}

/// The step a probe begins with.
pub open spec fn first_step(version: HttpVersion, tls: bool) -> ProbeStep {
    match version {
        HttpVersion::Http1 => if tls {
            ProbeStep::Tls
        } else {
            ProbeStep::Plain
        },
        HttpVersion::Http2 => ProbeStep::Tls,
        HttpVersion::Http3 => ProbeStep::Http(HttpStep::Endpoint3),
    }
}

/// The step that follows a completed one; reading the body is the last.
pub open spec fn step_after(version: HttpVersion, step: ProbeStep, body: bool) -> ProbeStep {
    match step {
        ProbeStep::Plain => ProbeStep::Http(HttpStep::Handshake1),
        ProbeStep::Tls => ProbeStep::Http(
            if version == HttpVersion::Http2 {
                HttpStep::Handshake2
            } else {
                HttpStep::Handshake1
            },
        ),
        ProbeStep::Http(s) => ProbeStep::Http(
            match s {
                HttpStep::Handshake1 => HttpStep::Build1,
                HttpStep::Build1 => HttpStep::Request1,
                HttpStep::Request1 => HttpStep::Body1,
                HttpStep::Body1 => HttpStep::Body1,
                HttpStep::Handshake2 => HttpStep::Build2,
                HttpStep::Build2 => HttpStep::Request2,
                HttpStep::Request2 => if body {
                    HttpStep::BodySend2
                } else {
                    HttpStep::Response2
                },
                HttpStep::BodySend2 => HttpStep::BodyFinish2,
                HttpStep::BodyFinish2 => HttpStep::Response2,
                HttpStep::Response2 => HttpStep::Body2,
                HttpStep::Body2 => HttpStep::Body2,
                HttpStep::Endpoint3 => HttpStep::Connect3,
                HttpStep::Connect3 => HttpStep::Handshake3,
                HttpStep::Handshake3 => HttpStep::Setup3,
                HttpStep::Setup3 => HttpStep::Build3,
                HttpStep::Build3 => HttpStep::Request3,
                HttpStep::Request3 => if body {
                    HttpStep::BodySend3
                } else {
                    HttpStep::Finish3
                },
                HttpStep::BodySend3 => HttpStep::Finish3,
                HttpStep::Finish3 => HttpStep::Response3,
                HttpStep::Response3 => HttpStep::Body3,
                HttpStep::Body3 => HttpStep::Body3,
            },
        ),
    }
}

/// Whether a step builds the request.
pub open spec fn builds(step: ProbeStep) -> bool {
    step == ProbeStep::Http(HttpStep::Build1) || step == ProbeStep::Http(HttpStep::Build2) || step == ProbeStep::Http(
        HttpStep::Build3,
    )
}

/// Whether a step ends with the response head.
pub open spec fn awaits_head(step: ProbeStep) -> bool {
    step == ProbeStep::Http(HttpStep::Request1) || step == ProbeStep::Http(HttpStep::Response2) || step
        == ProbeStep::Http(HttpStep::Response3)
}

/// Whether a step reads the response body.
pub open spec fn reads_body(step: ProbeStep) -> bool {
    step == ProbeStep::Http(HttpStep::Body1) || step == ProbeStep::Http(HttpStep::Body2) || step == ProbeStep::Http(
        HttpStep::Body3,
    )
}

/// Whether a step ends with a secure connection.
pub open spec fn secures(step: ProbeStep) -> bool {
    step == ProbeStep::Tls || step == ProbeStep::Http(HttpStep::Handshake3)
}

/// Whether a step is given a limited time.
pub open spec fn is_timed(step: ProbeStep) -> bool {
    match step {
        ProbeStep::Plain => true,
        ProbeStep::Tls => false,
        ProbeStep::Http(s) => match s {
            HttpStep::Build1 => false,
            HttpStep::Build2 => false,
            HttpStep::Build3 => false,
            HttpStep::Request2 => false,
            HttpStep::BodySend2 => false,
            HttpStep::BodyFinish2 => false,
            HttpStep::Endpoint3 => false,
            HttpStep::Connect3 => false,
            _ => true,
        },
    }
}

/// Whether an event can come of a step.
pub open spec fn fits(step: ProbeStep, event: ProbeEvent) -> bool {
    match event {
        ProbeEvent::Done => !builds(step) && !awaits_head(step) && !reads_body(step) && !secures(step),
        ProbeEvent::Secured(_) => secures(step),
        ProbeEvent::Head(_) => awaits_head(step),
        ProbeEvent::Chunk(_) => reads_body(step),
        ProbeEvent::End => reads_body(step),
        ProbeEvent::Failed(_) => step is Http && !builds(step),
        ProbeEvent::Unconnected(_, _) => step == ProbeStep::Plain,
        ProbeEvent::Unsecured(_) => step == ProbeStep::Tls,
        ProbeEvent::TimedOut => is_timed(step),
    }
}

/// What is known in the course of a probe.
#[verifier::ext_equal]
pub struct ProbeState {
    /// The step to perform.
    pub step: ProbeStep,
    /// The secure connection, once it is up.
    pub tls: Option<TlsObservation>,
    /// The response head, once it arrived.
    pub head: Option<ResponseHead>,
    /// The part of the response body that arrived.
    pub arrived: Seq<u8>,
}

/// Whether an observation reports that a probe failed in a mode, with a
/// message: it names the protocol and nothing of a response.
pub open spec fn reports_failure(plan: HttpPlan, kind: FailureKind, message: Seq<char>, o: HttpObservation) -> bool {
    &&& o.destination == plan.destination
    &&& o.host@ == plan.host@
    &&& o.method@ == plan.method@
    &&& o.path@ == plan.path@
    &&& o.protocol.deep_view() == Some(version_name(plan.version))
    &&& o.tls is None && o.status is None && o.location is None && o.headers@.len() == 0
    &&& o.body_bytes is None && !o.body_capped && o.body_snippet is None
    &&& o.latency_ms is None && o.ttfb_ms is None
    &&& o.failure matches Some(f) && f.kind == kind && f.message@ == message
}

/// Whether an observation reports the response of a probe: its head, and as
/// much of the body as counts. A body that did not end leaves its length out.
pub open spec fn reports_response(
    plan: HttpPlan,
    state: ProbeState,
    ended: bool,
    capped: bool,
    elapsed_ms: u64,
    o: HttpObservation,
) -> bool {
    let kept = first_bytes_of(state.arrived, plan.max_body_bytes as int);
    &&& state.head matches Some(head) && {
        &&& o.destination == plan.destination
        &&& o.host@ == plan.host@
        &&& o.method@ == plan.method@
        &&& o.path@ == plan.path@
        &&& o.protocol.deep_view() == Some(
            if plan.version == HttpVersion::Http1 {
                head.version@
            } else {
                version_name(plan.version)
            },
        )
        &&& o.tls == state.tls
        &&& o.status == Some(head.status)
        &&& o.location.deep_view() == (match first_location(head.headers@) {
            Some(value) => if valid_utf8(value) {
                Some(decode_utf8(value))
            } else {
                None
            },
            None => None,
        })
        &&& o.headers.deep_view() == first_headers(recordable(head.headers@))
        &&& o.body_bytes == (if ended {
            Some(kept.len() as u64)
        } else {
            None
        })
        &&& o.body_capped == capped
        &&& o.body_snippet.deep_view() == snippet_text(first_bytes_of(kept, 1024), kept.len() > 1024)
        &&& o.latency_ms == Some(elapsed_ms)
        &&& o.ttfb_ms == Some(head.ttfb_ms)
        &&& o.failure is None
    }
}

/// A probe under way.
pub struct HttpProbe {
    plan: HttpPlan,
    step: ProbeStep,
    tls: Option<TlsObservation>,
    head: Option<ResponseHead>,
    capture: BodyCapture,
}

impl View for HttpProbe {
    type V = ProbeState;

    closed spec fn view(&self) -> ProbeState {
        ProbeState { step: self.step, tls: self.tls, head: self.head, arrived: self.capture@ }
    }
}

impl HttpProbe {
    /// What the probe is to do.
    pub closed spec fn plan(self) -> HttpPlan {
        self.plan
    }

    /// The invariant of a probe: the body is read once its head arrived.
    pub closed spec fn wf(self) -> bool {
        &&& self.capture.wf()
        &&& self.capture.cap() == self.plan.max_body_bytes
        &&& self.capture.keeps() == self.plan.keep_body
        &&& reads_body(self.step) ==> self.head is Some
    }

    /// Whether the probe has not ended yet.
    pub closed spec fn under_way(self) -> bool {
        !self.capture.has_ended() && !self.capture.is_capped()
    }

    /// Begin a probe.
    pub fn start(plan: HttpPlan) -> (r: HttpProbe)
        ensures
            r.wf(),
            r.under_way(),
            r.plan() == plan,
            r@ == (ProbeState {
                step: first_step(plan.version, plan.tls),
                tls: None,
                head: None,
                arrived: Seq::empty(),
            }),
    {
        let step = match plan.version {
            HttpVersion::Http1 => if plan.tls {
                ProbeStep::Tls
            } else {
                ProbeStep::Plain
            },
            HttpVersion::Http2 => ProbeStep::Tls,
            HttpVersion::Http3 => ProbeStep::Http(HttpStep::Endpoint3),
        };
        let capture = BodyCapture::new(plan.max_body_bytes, plan.keep_body);
        HttpProbe { plan, step, tls: None, head: None, capture }
    }

    /// The step to perform.
    pub fn step(&self) -> (r: ProbeStep)
        ensures
            r == self@.step,
    {
        self.step
    }

    /// What the probe is to do.
    pub fn planned(&self) -> (r: &HttpPlan)
        ensures
            *r == self.plan(),
    {
        &self.plan
    }

    /// The kept copy of the response body.
    pub fn body(&self) -> (r: &[u8])
        requires
            self.wf(),
        ensures
            r@ == (if self.plan().keep_body {
                first_bytes_of(self@.arrived, self.plan().max_body_bytes as int)
            } else {
                Seq::empty()
            }),
    {
        self.capture.full_body()
    }

    /// Go on to the step that follows.
    fn advance(&mut self)
        requires
            old(self).wf(),
            !awaits_head(old(self).step) || old(self).head is Some,
        ensures
            final(self).wf(),
            *final(self) == (HttpProbe {
                step: step_after(old(self).plan.version, old(self).step, old(self).plan.body is Some),
                ..*old(self)
            }),
    {
        let body = self.plan.body.is_some();
        self.step = match self.step {
            ProbeStep::Plain => ProbeStep::Http(HttpStep::Handshake1),
            ProbeStep::Tls => match self.plan.version {
                HttpVersion::Http2 => ProbeStep::Http(HttpStep::Handshake2),
                _ => ProbeStep::Http(HttpStep::Handshake1),
            },
            ProbeStep::Http(s) => ProbeStep::Http(
                match s {
                    HttpStep::Handshake1 => HttpStep::Build1,
                    HttpStep::Build1 => HttpStep::Request1,
                    HttpStep::Request1 => HttpStep::Body1,
                    HttpStep::Body1 => HttpStep::Body1,
                    HttpStep::Handshake2 => HttpStep::Build2,
                    HttpStep::Build2 => HttpStep::Request2,
                    HttpStep::Request2 => if body {
                        HttpStep::BodySend2
                    } else {
                        HttpStep::Response2
                    },
                    HttpStep::BodySend2 => HttpStep::BodyFinish2,
                    HttpStep::BodyFinish2 => HttpStep::Response2,
                    HttpStep::Response2 => HttpStep::Body2,
                    HttpStep::Body2 => HttpStep::Body2,
                    HttpStep::Endpoint3 => HttpStep::Connect3,
                    HttpStep::Connect3 => HttpStep::Handshake3,
                    HttpStep::Handshake3 => HttpStep::Setup3,
                    HttpStep::Setup3 => HttpStep::Build3,
                    HttpStep::Build3 => HttpStep::Request3,
                    HttpStep::Request3 => if body {
                        HttpStep::BodySend3
                    } else {
                        HttpStep::Finish3
                    },
                    HttpStep::BodySend3 => HttpStep::Finish3,
                    HttpStep::Finish3 => HttpStep::Response3,
                    HttpStep::Response3 => HttpStep::Body3,
                    HttpStep::Body3 => HttpStep::Body3,
                },
            ),
        };
    }

    /// The observation of a probe of which nothing is known yet.
    fn base(&self) -> (o: HttpObservation)
        ensures
            o.destination == self.plan.destination,
            o.host@ == self.plan.host@ && o.method@ == self.plan.method@ && o.path@ == self.plan.path@,
            o.protocol.deep_view() == Some(version_name(self.plan.version)),
            o.tls is None && o.status is None && o.location is None && o.headers@.len() == 0,
            o.body_bytes is None && !o.body_capped && o.body_snippet is None,
            o.latency_ms is None && o.ttfb_ms is None && o.failure is None,
    {
        let name = match self.plan.version {
            HttpVersion::Http1 => "HTTP/1.1",
            HttpVersion::Http2 => "HTTP/2",
            HttpVersion::Http3 => "HTTP/3",
        };
        HttpObservation::base(
            self.plan.destination,
            self.plan.host.as_str(),
            self.plan.method.as_str(),
            self.plan.path.as_str(),
            name,
        )
    }

    /// The observation of a probe that failed.
    fn failed(&self, failure: ProbeError) -> (o: HttpObservation)
        ensures
            reports_failure(self.plan, failure.kind, failure.message@, o),
    {
        self.base().with_failure(failure)
    }

    /// The observation of a probe whose response was read.
    fn responded(&mut self, elapsed_ms: u64) -> (o: HttpObservation)
        requires
            old(self).wf(),
            old(self).head is Some,
        ensures
            final(self).wf(),
            final(self).plan == old(self).plan,
            final(self).step == old(self).step,
            final(self).head == old(self).head,
            final(self).capture == old(self).capture,
            reports_response(
                old(self).plan,
                old(self)@,
                old(self).capture.has_ended(),
                old(self).capture.is_capped(),
                elapsed_ms,
                o,
            ),
    {
        let base = self.base();
        let tls = self.tls.take();
        let head = self.head.as_ref().unwrap();
        let protocol = match self.plan.version {
            HttpVersion::Http1 => head.version.clone(),
            HttpVersion::Http2 => "HTTP/2".to_owned(),
            HttpVersion::Http3 => "HTTP/3".to_owned(),
        };
        base.completed(
            tls,
            protocol,
            head.status,
            head.headers.as_slice(),
            &self.capture,
            elapsed_ms,
            head.ttfb_ms,
        )
    }

    /// Build the request once its turn has come and go on to send it, or end
    /// with the error that says why it cannot be built.
    pub fn request(&mut self) -> (r: Result<hyper::Request<()>, HttpObservation>)
        requires
            old(self).wf(),
            old(self).under_way(),
            builds(old(self)@.step),
        ensures
            final(self).wf(),
            final(self).under_way(),
            final(self).plan() == old(self).plan(),
            match built_request(
                old(self).plan().method@,
                request_uri(
                    old(self).plan().version,
                    old(self).plan().host@,
                    old(self).plan().destination.port,
                    old(self).plan().path@,
                    header_texts(old(self).plan().headers@),
                ),
                request_headers(
                    old(self).plan().version,
                    old(self).plan().tls,
                    old(self).plan().host@,
                    old(self).plan().destination.port,
                    header_texts(old(self).plan().headers@),
                    old(self).plan().body,
                ),
            ) {
                Ok(request) => {
                    &&& r == Ok::<hyper::Request<()>, HttpObservation>(request)
                    &&& final(self)@ == (ProbeState {
                        step: step_after(
                            old(self).plan().version,
                            old(self)@.step,
                            old(self).plan().body is Some,
                        ),
                        ..old(self)@
                    })
                },
                Err(e) => {
                    &&& r matches Err(o) && reports_failure(
                        old(self).plan(),
                        FailureKind::Protocol,
                        failed_text(old(self)@.step->0) + e,
                        o,
                    )
                    &&& final(self)@ == old(self)@
                },
            },
    {
        let head = request_head(
            self.plan.version,
            self.plan.tls,
            self.plan.host.as_str(),
            self.plan.destination.port,
            self.plan.method.as_str(),
            self.plan.path.as_str(),
            self.plan.headers.as_slice(),
            self.plan.body,
        );
        self.built(build_request(&head))
    }

    /// What becomes of a built or rejected request.
    pub fn built(&mut self, built: Result<hyper::Request<()>, String>) -> (r: Result<
        hyper::Request<()>,
        HttpObservation,
    >)
        requires
            old(self).wf(),
            old(self).under_way(),
            builds(old(self)@.step),
        ensures
            final(self).wf(),
            final(self).under_way(),
            final(self).plan() == old(self).plan(),
            match built {
                Ok(request) => {
                    &&& r == Ok::<hyper::Request<()>, HttpObservation>(request)
                    &&& final(self)@ == (ProbeState {
                        step: step_after(
                            old(self).plan().version,
                            old(self)@.step,
                            old(self).plan().body is Some,
                        ),
                        ..old(self)@
                    })
                },
                Err(e) => {
                    &&& r matches Err(o) && reports_failure(
                        old(self).plan(),
                        FailureKind::Protocol,
                        failed_text(old(self)@.step->0) + e@,
                        o,
                    )
                    &&& final(self)@ == old(self)@
                },
            },
    {
        match built {
            Ok(request) => {
                self.advance();
                Ok(request)
            },
            Err(e) => {
                let step = match self.step {
                    ProbeStep::Http(s) => s,
                    _ => HttpStep::Build1,
                };
                Err(self.failed(step_failed(step, e.as_str())))
            },
        }
    }

    /// Take in what a step led to; the observation once the probe has ended,
    /// `elapsed_ms` milliseconds after it began.
    pub fn on(&mut self, event: ProbeEvent, elapsed_ms: u64) -> (r: Option<HttpObservation>)
        requires
            old(self).wf(),
            old(self).under_way(),
            fits(old(self)@.step, event),
        ensures
            final(self).wf(),
            final(self).plan() == old(self).plan(),
            r is None ==> final(self).under_way(),
            match event {
                ProbeEvent::Done => r is None && final(self)@ == (ProbeState {
                    step: step_after(old(self).plan().version, old(self)@.step, old(self).plan().body is Some),
                    ..old(self)@
                }),
                ProbeEvent::Secured(tls) => r is None && final(self)@ == (ProbeState {
                    step: step_after(old(self).plan().version, old(self)@.step, old(self).plan().body is Some),
                    tls: Some(tls),
                    ..old(self)@
                }),
                ProbeEvent::Head(head) => r is None && final(self)@ == (ProbeState {
                    step: step_after(old(self).plan().version, old(self)@.step, old(self).plan().body is Some),
                    head: Some(head),
                    ..old(self)@
                }),
                ProbeEvent::Chunk(data) => {
                    let after = ProbeState { arrived: old(self)@.arrived + data@, ..old(self)@ };
                    &&& final(self)@.arrived == after.arrived
                    &&& if after.arrived.len() >= old(self).plan().max_body_bytes {
                        r matches Some(o) && reports_response(old(self).plan(), after, true, true, elapsed_ms, o)
                    } else {
                        r is None && final(self)@ == after
                    }
                },
                ProbeEvent::End => {
                    &&& final(self)@.arrived == old(self)@.arrived
                    &&& r matches Some(o) && reports_response(
                        old(self).plan(),
                        old(self)@,
                        true,
                        false,
                        elapsed_ms,
                        o,
                    )
                },
                ProbeEvent::TimedOut => {
                    &&& final(self)@.arrived == old(self)@.arrived
                    &&& r matches Some(o) && match old(self)@.step {
                        ProbeStep::Http(s) => if reads_body(old(self)@.step) {
                            reports_response(old(self).plan(), old(self)@, false, false, elapsed_ms, o)
                        } else {
                            reports_failure(
                                old(self).plan(),
                                FailureKind::Timeout,
                                timeout_text(s) + old(self).plan().destination.text() + " timed out after "@ + millis(
                                    old(self).plan().timeout_ms,
                                ),
                                o,
                            )
                        },
                        _ => reports_failure(
                            old(self).plan(),
                            FailureKind::Timeout,
                            "tcp connect to "@ + old(self).plan().destination.text() + " timed out after "@ + millis(
                                old(self).plan().timeout_ms,
                            ),
                            o,
                        ),
                    }
                },
                ProbeEvent::Failed(e) => {
                    &&& final(self)@.arrived == old(self)@.arrived
                    &&& r matches Some(o) && reports_failure(
                        old(self).plan(),
                        failed_kind(old(self)@.step->0),
                        failed_text(old(self)@.step->0) + e@,
                        o,
                    )
                },
                ProbeEvent::Unconnected(kind, e) => {
                    &&& final(self)@.arrived == old(self)@.arrived
                    &&& r matches Some(o) && reports_failure(
                        old(self).plan(),
                        kind,
                        "tcp connect to "@ + old(self).plan().destination.text() + " failed: "@ + e@,
                        o,
                    )
                },
                ProbeEvent::Unsecured(error) => {
                    &&& final(self)@.arrived == old(self)@.arrived
                    &&& r matches Some(o) && reports_failure(old(self).plan(), error.kind, error.message@, o)
                },
            },
    {
        match event {
            ProbeEvent::Done => {
                self.advance();
                None
            },
            ProbeEvent::Secured(tls) => {
                self.tls = Some(tls);
                self.advance();
                None
            },
            ProbeEvent::Head(head) => {
                self.head = Some(head);
                self.advance();
                None
            },
            ProbeEvent::Chunk(data) => {
                if self.capture.on(BodyEvent::Chunk(data)) {
                    Some(self.responded(elapsed_ms))
                } else {
                    None
                }
            },
            ProbeEvent::End => {
                self.capture.on(BodyEvent::End);
                Some(self.responded(elapsed_ms))
            },
            ProbeEvent::TimedOut => match self.step {
                ProbeStep::Http(s) => match s {
                    HttpStep::Body1 => Some(self.responded(elapsed_ms)),
                    HttpStep::Body2 => Some(self.responded(elapsed_ms)),
                    HttpStep::Body3 => Some(self.responded(elapsed_ms)),
                    _ => Some(self.failed(step_timed_out(s, self.plan.destination, self.plan.timeout_ms))),
                },
                _ => Some(self.failed(connect_timed_out(self.plan.destination, self.plan.timeout_ms))),
            },
            ProbeEvent::Failed(e) => match self.step {
                ProbeStep::Http(s) => Some(self.failed(step_failed(s, e.as_str()))),
                _ => None,
            },
            ProbeEvent::Unconnected(kind, e) => Some(
                self.failed(connect_failed(self.plan.destination, kind, e.as_str())),
            ),
            ProbeEvent::Unsecured(error) => Some(self.failed(error)),
        }
    }
}

/// A bound on the steps left before the body is read.
pub open spec fn steps_left(step: ProbeStep) -> nat {
    match step {
        ProbeStep::Plain => 9,
        ProbeStep::Tls => 9,
        ProbeStep::Http(s) => match s {
            HttpStep::Endpoint3 => 9,
            HttpStep::Connect3 => 8,
            HttpStep::Handshake3 => 7,
            HttpStep::Setup3 => 6,
            HttpStep::Handshake1 => 6,
            HttpStep::Handshake2 => 6,
            HttpStep::Build1 => 5,
            HttpStep::Build2 => 5,
            HttpStep::Build3 => 5,
            HttpStep::Request2 => 4,
            HttpStep::Request3 => 4,
            HttpStep::BodySend2 => 3,
            HttpStep::BodySend3 => 3,
            HttpStep::BodyFinish2 => 2,
            HttpStep::Finish3 => 2,
            HttpStep::Request1 => 1,
            HttpStep::Response2 => 1,
            HttpStep::Response3 => 1,
            HttpStep::Body1 => 0,
            HttpStep::Body2 => 0,
            HttpStep::Body3 => 0,
        },
    }
}

/// Every completed step brings a probe nearer to its response: it never goes
/// back, and only reading the body repeats.
pub proof fn lemma_probe_makes_progress(version: HttpVersion, step: ProbeStep, body: bool)
    ensures
        !reads_body(step) ==> steps_left(step_after(version, step, body)) < steps_left(step),
        reads_body(step) <==> steps_left(step) == 0,
        reads_body(step) ==> step_after(version, step, body) == step,
{
}

/// What an observation of a response says is what was measured: the status of
/// the head, the time to its first byte, the time the whole took, and as many
/// bytes as arrived up to the limit, where the body ended.
pub proof fn lemma_response_is_reported(
    plan: HttpPlan,
    state: ProbeState,
    ended: bool,
    capped: bool,
    elapsed_ms: u64,
    o: HttpObservation,
)
    requires
        reports_response(plan, state, ended, capped, elapsed_ms, o),
    ensures
        state.head is Some,
        o.destination == plan.destination && o.host@ == plan.host@ && o.method@ == plan.method@ && o.path@
            == plan.path@,
        o.failure is None,
        o.status == Some(state.head->0.status),
        o.ttfb_ms == Some(state.head->0.ttfb_ms),
        o.latency_ms == Some(elapsed_ms),
        o.tls == state.tls,
        o.body_bytes is Some <==> ended,
        ended ==> o.body_bytes->0 == (if state.arrived.len() < plan.max_body_bytes {
            state.arrived.len() as int
        } else {
            plan.max_body_bytes as int
        }),
        o.body_capped == capped,
        plan.version == HttpVersion::Http2 ==> o.protocol.deep_view() == Some("HTTP/2"@),
        plan.version == HttpVersion::Http3 ==> o.protocol.deep_view() == Some("HTTP/3"@),
        plan.version == HttpVersion::Http1 ==> o.protocol.deep_view() == Some(state.head->0.version@),
{
}

/// An observation of a failure keeps what was asked for and says nothing of a
/// response.
pub proof fn lemma_failure_is_reported(plan: HttpPlan, kind: FailureKind, message: Seq<char>, o: HttpObservation)
    requires
        reports_failure(plan, kind, message, o),
    ensures
        o.destination == plan.destination && o.host@ == plan.host@ && o.method@ == plan.method@ && o.path@
            == plan.path@,
        o.failure is Some && o.failure->0.kind == kind && o.failure->0.message@ == message,
        o.status is None && o.location is None && o.latency_ms is None && o.ttfb_ms is None && o.body_bytes is None,
        plan.version == HttpVersion::Http1 ==> o.protocol.deep_view() == Some("HTTP/1.1"@),
        plan.version == HttpVersion::Http2 ==> o.protocol.deep_view() == Some("HTTP/2"@),
        plan.version == HttpVersion::Http3 ==> o.protocol.deep_view() == Some("HTTP/3"@),
{
}

/// A plan asks for what the options say, at the destination and in the version
/// given.
pub proof fn lemma_plan_is_what_was_asked(
    plan: HttpPlan,
    options: RequestOptions,
    version: HttpVersion,
    tls: bool,
    destination: SocketAddr,
)
    requires
        plans(plan, options, version, tls, destination),
    ensures
        plan.version == version && plan.tls == tls && plan.destination == destination,
        plan.host@ == options.host@ && plan.method@ == options.method@ && plan.path@ == options.path@,
        plan.body == options.body && plan.timeout_ms == options.timeout_ms && plan.max_body_bytes
            == options.max_body_bytes && plan.keep_body == options.keep_body,
        plan.headers@.len() == options.headers@.len(),
        forall|i: int|
            0 <= i < plan.headers@.len() ==> (#[trigger] plan.headers@[i]).0@ == options.headers@[i].0@
                && plan.headers@[i].1@ == options.headers@[i].1@,
{
    let a = header_texts(plan.headers@);
    let b = header_texts(options.headers@);
    assert(a.len() == b.len());
    assert forall|i: int| 0 <= i < plan.headers@.len() implies (#[trigger] plan.headers@[i]).0@
        == options.headers@[i].0@ && plan.headers@[i].1@ == options.headers@[i].1@ by {
        assert(a[i] == b[i]);
    }
}

/// A probe is secured before anything is sent over it exactly where it has to
/// be: HTTP/2 always, HTTP/1.1 where asked for, and HTTP/3 by its own handshake.
/// The request is built before it is sent, and the head awaited before the body.
pub proof fn lemma_order_of_steps(version: HttpVersion, tls: bool, body: bool)
    ensures
        first_step(version, tls) == ProbeStep::Tls <==> version == HttpVersion::Http2 || (version == HttpVersion::Http1
            && tls),
        first_step(version, tls) == ProbeStep::Plain <==> version == HttpVersion::Http1 && !tls,
        builds(
            step_after(version, ProbeStep::Http(HttpStep::Handshake1), body),
        ) && builds(step_after(version, ProbeStep::Http(HttpStep::Handshake2), body)) && builds(
            step_after(version, ProbeStep::Http(HttpStep::Setup3), body),
        ),
        forall|s: ProbeStep| #[trigger] awaits_head(s) ==> reads_body(step_after(version, s, body)),
        forall|s: ProbeStep| #[trigger] reads_body(s) ==> step_after(version, s, body) == s,
        body ==> step_after(version, ProbeStep::Http(HttpStep::Request2), body) == ProbeStep::Http(HttpStep::BodySend2)
            && step_after(version, ProbeStep::Http(HttpStep::Request3), body) == ProbeStep::Http(HttpStep::BodySend3),
        !body ==> step_after(version, ProbeStep::Http(HttpStep::Request2), body) == ProbeStep::Http(
            HttpStep::Response2,
        ) && step_after(version, ProbeStep::Http(HttpStep::Request3), body) == ProbeStep::Http(HttpStep::Finish3),
{
}

} // verus!
