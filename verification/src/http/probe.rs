//! The HTTP probe on TCP port 80: a few well-known endpoints are requested
//! over one connection for as long as the device keeps it open.
use vstd::prelude::*;

use crate::http::classify::{
    antminer_challenge_detection, classify_antminer_auth_challenge, classify_http_payload,
    http_payload_detection, opt_str,
};
use crate::http::fetch::{fetch_next, BodyView, FetchStep, FetchView, HttpBody, HttpFetch, PhaseView, StepView};
use crate::miner::{miner_view, DiscoveredMiner, IpAddress, MinerView, SocketAddress, MAX_CONFIDENCE};
use crate::probe::{ActionView, EventView, ProbeAction, ProbeEvent, READ_CHUNK_BYTES};
use crate::text::{chars_of, concat, string_from};

verus! {

/// The port of the HTTP probe.
pub const HTTP_PORT: u16 = 80;

/// How many endpoints the probe tries.
pub const ENDPOINT_COUNT: usize = 4;

/// The endpoints, in the order in which they are tried.
pub open spec fn probe_endpoint(i: int) -> &'static str {
    if i == 0 {
        "/api/system/info"
    } else if i == 1 {
        "/cgi-bin/get_system_info.cgi"
    } else if i == 2 {
        "/api/v1/info"
    } else {
        "/"
    }
}

/// The endpoint tried in position `i`.
pub fn endpoint_at(i: usize) -> (r: &'static str)
    ensures
        r == probe_endpoint(i as int),
{
    if i == 0 {
        "/api/system/info"
    } else if i == 1 {
        "/cgi-bin/get_system_info.cgi"
    } else if i == 2 {
        "/api/v1/info"
    } else {
        "/"
    }
}

/// The request for an endpoint: a keep-alive GET addressed to `host`.
pub open spec fn request_text(endpoint: Seq<char>, host: Seq<char>) -> Seq<char> {
    "GET "@ + endpoint + " HTTP/1.1\r\nHost: "@ + host + "\r\nConnection: keep-alive\r\n\r\n"@
}

/// The request for `endpoint` on the host whose address reads `host`.
pub fn http_request(endpoint: &str, host: &str) -> (r: String)
    ensures
        r@ == request_text(endpoint@, host@),
{
    let a = concat(&chars_of("GET "), &chars_of(endpoint));
    let b = concat(&a, &chars_of(" HTTP/1.1\r\nHost: "));
    let c = concat(&b, &chars_of(host));
    let d = concat(&c, &chars_of("\r\nConnection: keep-alive\r\n\r\n"));
    string_from(&d)
}

/// Where the HTTP probe stands.
#[derive(Debug, Clone, Copy, PartialEq, Eq, Structural)]
pub enum HttpStage {
    Connecting,
    Sending,
    Fetching,
    Finished,
}

/// The HTTP probe of one host.
#[derive(Debug)]
pub struct HttpProbe {
    addr: SocketAddress,
    host: String,
    stage: HttpStage,
    endpoint: usize,
    fetch: HttpFetch,
}

/// The HTTP probe seen as plain values.
pub struct HttpProbeView {
    pub addr: SocketAddress,
    pub host: Seq<char>,
    pub stage: HttpStage,
    /// The position of the endpoint being tried.
    pub endpoint: usize,
    pub fetch: FetchView,
}

impl View for HttpProbe {
    type V = HttpProbeView;

    closed spec fn view(&self) -> HttpProbeView {
        HttpProbeView {
            addr: self.addr,
            host: self.host@,
            stage: self.stage,
            endpoint: self.endpoint,
            fetch: self.fetch@,
        }
    }
}

/// The probe is over with this detection.
pub open spec fn http_finish(s: HttpProbeView, result: Option<MinerView>) -> (HttpProbeView, ActionView) {
    (
        HttpProbeView { stage: HttpStage::Finished, ..s },
        ActionView::Finish(result),
    )
}

/// Requests the endpoint in position `i`, or gives up when none is left.
pub open spec fn http_request_endpoint(s: HttpProbeView, i: int) -> (HttpProbeView, ActionView) {
    if i >= ENDPOINT_COUNT {
        http_finish(HttpProbeView { endpoint: ENDPOINT_COUNT, ..s }, None)
    } else {
        (
            HttpProbeView { stage: HttpStage::Sending, endpoint: i as usize, ..s },
            ActionView::Send(request_text(probe_endpoint(i)@, s.host)),
        )
    }
}

/// The decision on a complete response: an Antminer challenge, then the
/// detection rules on the body; with neither, the next endpoint if the
/// connection stays open.
pub open spec fn http_response(s: HttpProbeView, body: BodyView) -> (HttpProbeView, ActionView) {
    let endpoint = probe_endpoint(s.endpoint as int);
    match antminer_challenge_detection(s.addr, endpoint@, body.status_code, body.www_authenticate) {
        Some(d) => http_finish(s, Some(d)),
        None => match http_payload_detection(s.addr, endpoint, body.body) {
            Some(d) => http_finish(s, Some(d)),
            None => if !body.keep_alive {
                http_finish(s, None)
            } else {
                http_request_endpoint(s, s.endpoint + 1)
            },
        },
    }
}

/// The HTTP probe's answer to an event. A failed connection ends the probe;
/// a failed request or response moves on to the next endpoint; any event
/// out of turn ends the probe with no detection.
pub open spec fn http_next(s: HttpProbeView, e: EventView) -> (HttpProbeView, ActionView) {
    match s.stage {
        HttpStage::Connecting => match e {
            EventView::Connected => http_request_endpoint(s, 0),
            _ => http_finish(s, None),
        },
        HttpStage::Sending => match e {
            EventView::Sent => (
                HttpProbeView {
                    stage: HttpStage::Fetching,
                    fetch: FetchView { phase: PhaseView::Head, buffer: Seq::empty() },
                    ..s
                },
                ActionView::Read(READ_CHUNK_BYTES),
            ),
            _ => http_request_endpoint(s, s.endpoint + 1),
        },
        HttpStage::Fetching => {
            let read = match e {
                EventView::Received(data) => Some(Some(data)),
                EventView::ReadFailed => Some(None),
                _ => None,
            };
            match read {
                None => http_finish(s, None),
                Some(r) => {
                    let (fetch, step) = fetch_next(s.fetch, r);
                    let s2 = HttpProbeView { fetch, ..s };
                    match step {
                        StepView::ReadMore => (s2, ActionView::Read(READ_CHUNK_BYTES)),
                        StepView::Failed => http_request_endpoint(s2, s.endpoint + 1),
                        StepView::Done(body) => http_response(s2, body),
                    }
                },
            }
        },
        HttpStage::Finished => http_finish(s, None),
    }
}

impl HttpProbe {
    /// A probe of port 80 of `ip`, whose address reads `host`, and its first
    /// action: connecting.
    pub fn new(ip: IpAddress, host: String) -> (r: (Self, ProbeAction))
        ensures
            r.0@.addr == (SocketAddress { ip, port: HTTP_PORT }),
            r.0@.host == host@,
            r.0@.stage == HttpStage::Connecting,
            r.0@.endpoint == 0,
            r.0@.fetch == (FetchView { phase: PhaseView::Head, buffer: Seq::<u8>::empty() }),
            http_wf(r.0@),
            r.1@ == ActionView::Connect(SocketAddress { ip, port: HTTP_PORT }),
    {
        let addr = SocketAddress { ip, port: HTTP_PORT };
        (
            HttpProbe { addr, host, stage: HttpStage::Connecting, endpoint: 0, fetch: HttpFetch::new() },
            ProbeAction::Connect(addr),
        )
    }

    /// The probe is over.
    pub fn is_finished(&self) -> (r: bool)
        ensures
            r == (self@.stage == HttpStage::Finished),
    {
        self.stage == HttpStage::Finished
    }

    fn finish_with(&mut self, result: Option<DiscoveredMiner>) -> (r: ProbeAction)
        ensures
            (final(self)@, r@) == http_finish(old(self)@, miner_view(result)),
    {
        self.stage = HttpStage::Finished;
        ProbeAction::Finish(result)
    }

    fn request_endpoint(&mut self, i: usize) -> (r: ProbeAction)
        ensures
            (final(self)@, r@) == http_request_endpoint(old(self)@, i as int),
    {
        if i >= ENDPOINT_COUNT {
            self.endpoint = ENDPOINT_COUNT;
            self.finish_with(None)
        } else {
            self.stage = HttpStage::Sending;
            self.endpoint = i;
            let request = http_request(endpoint_at(i), self.host.as_str());
            ProbeAction::Send(request)
        }
    }

    fn next_endpoint(&mut self) -> (r: ProbeAction)
        ensures
            (final(self)@, r@) == http_request_endpoint(old(self)@, old(self)@.endpoint + 1),
    {
        if self.endpoint >= ENDPOINT_COUNT {
            self.request_endpoint(ENDPOINT_COUNT)
        } else {
            let i = self.endpoint + 1;
            self.request_endpoint(i)
        }
    }

    fn response(&mut self, body: HttpBody) -> (r: ProbeAction)
        ensures
            (final(self)@, r@) == http_response(old(self)@, body@),
    {
        let endpoint = endpoint_at(self.endpoint);
        let challenge = match &body.www_authenticate {
            Some(s) => Some(s.as_str()),
            None => None,
        };
        proof {
            assert(opt_str(challenge) == body@.www_authenticate);
        }
        match classify_antminer_auth_challenge(self.addr, endpoint, body.status_code, challenge) {
            Some(d) => return self.finish_with(Some(d)),
            None => {},
        }
        let keep_alive = body.keep_alive;
        match classify_http_payload(self.addr, endpoint, body.body) {
            Some(d) => self.finish_with(Some(d)),
            None => {
                if !keep_alive {
                    self.finish_with(None)
                } else {
                    self.next_endpoint()
                }
            },
        }
    }

    /// Advances the probe with the outcome of its last action.
    pub fn step(&mut self, event: ProbeEvent) -> (r: ProbeAction)
        ensures
            (final(self)@, r@) == http_next(old(self)@, event@),
    {
        match self.stage {
            HttpStage::Connecting => match event {
                ProbeEvent::Connected => self.request_endpoint(0),
                _ => self.finish_with(None),
            },
            HttpStage::Sending => match event {
                ProbeEvent::Sent => {
                    self.stage = HttpStage::Fetching;
                    self.fetch = HttpFetch::new();
                    ProbeAction::Read(READ_CHUNK_BYTES)
                },
                _ => self.next_endpoint(),
            },
            HttpStage::Fetching => {
                let step = match event {
                    ProbeEvent::Received(data) => self.fetch.step(Some(data.as_slice())),
                    ProbeEvent::ReadFailed => self.fetch.step(None),
                    _ => return self.finish_with(None),
                };
                match step {
                    FetchStep::ReadMore => ProbeAction::Read(READ_CHUNK_BYTES),
                    FetchStep::Failed => self.next_endpoint(),
                    FetchStep::Done(body) => self.response(body),
                }
            },
            HttpStage::Finished => self.finish_with(None),
        }
    }
}

// ---------------------------------------------------------------------------
// Laws
// ---------------------------------------------------------------------------

/// The probe is still connecting only before its first request, and its
/// position is within the list of endpoints (or just past it).
pub open spec fn http_wf(s: HttpProbeView) -> bool {
    &&& s.endpoint <= ENDPOINT_COUNT
    &&& s.stage == HttpStage::Connecting ==> s.endpoint == 0
}

/// The HTTP probe tries the endpoints in order, each at most once: the
/// position never goes back nor past the last, and every request is the one
/// for the endpoint at the new position. A failed connection ends the probe
/// with no detection, and so does a response that closes the connection
/// without a detection. A detection it reports has a confidence in the
/// `0..=100` range.
pub proof fn lemma_http_endpoints_in_order(s: HttpProbeView, e: EventView)
    requires
        http_wf(s),
    ensures
        ({
            let (t, action) = http_next(s, e);
            &&& http_wf(t)
            &&& s.endpoint <= t.endpoint <= ENDPOINT_COUNT
            &&& action matches ActionView::Send(request) ==> {
                &&& t.endpoint < ENDPOINT_COUNT
                &&& request == request_text(probe_endpoint(t.endpoint as int)@, s.host)
            }
            &&& (s.stage == HttpStage::Connecting && e is ConnectFailed) ==> action
                == ActionView::Finish(None)
            &&& t.addr == s.addr
            &&& action matches ActionView::Finish(Some(m)) ==> m.confidence <= MAX_CONFIDENCE
        }),
{
}

/// After a response that closes the connection, the probe sends nothing more.
pub proof fn lemma_http_closed_connection_ends(s: HttpProbeView, body: BodyView)
    requires
        !body.keep_alive,
    ensures
        http_response(s, body).1 is Finish,
        http_response(s, body).0.stage == HttpStage::Finished,
{
}

/// A request or a response that fails (a failed send, a failed read, or a
/// response that is malformed, too large or cut short) does not end the probe
/// while endpoints remain: it moves on to the request for the next endpoint.
/// Only once the last endpoint has been tried does it end with no detection.
pub proof fn lemma_http_failure_tries_next(s: HttpProbeView, e: EventView)
    requires
        s.endpoint < ENDPOINT_COUNT,
        (s.stage == HttpStage::Sending && e is SendFailed) || (s.stage == HttpStage::Fetching && (
        e is ReadFailed || (e matches EventView::Received(data) && fetch_next(
            s.fetch,
            Some(data),
        ).1 is Failed))),
    ensures
        ({
            let (t, action) = http_next(s, e);
            &&& s.endpoint + 1 < ENDPOINT_COUNT ==> {
                &&& action == ActionView::Send(
                    request_text(probe_endpoint(s.endpoint + 1)@, s.host),
                )
                &&& t.endpoint == s.endpoint + 1
                &&& t.stage == HttpStage::Sending
            }
            &&& s.endpoint + 1 >= ENDPOINT_COUNT ==> action == ActionView::Finish(None)
            &&& t.addr == s.addr
        }),
{
}

} // verus!
