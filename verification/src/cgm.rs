//! The CGMiner API probe on TCP port 4028.
use vstd::prelude::*;

use crate::bytes::bytes_append;
use crate::detection::{detect, detection, DetectionSource};
use crate::miner::{
    capped, DiscoveredMiner, IpAddress, MinerFamily, MinerView, SocketAddress, MAX_CONFIDENCE,
};
use crate::probe::{ActionView, EventView, ProbeAction, ProbeEvent, READ_CHUNK_BYTES};
use crate::text::{chars_of, is_ascii_graphic, string_from};
use crate::util::{truncate, truncated};

verus! {

/// The port of the CGMiner API.
pub const CGM_PORT: u16 = 4028;

/// How many reads the probe makes at most.
pub const CGM_MAX_READS: usize = 2;

/// How many characters of a reply the evidence keeps.
pub const CGM_EVIDENCE_CHARS: usize = 220;

/// The request the probe sends.
pub open spec fn version_command() -> Seq<char> {
    "{\"command\":\"version\"}"@
}

/// The least confidence a reply on the API port earns for each family.
pub open spec fn api_confidence_floor(family: MinerFamily) -> u8 {
    match family {
        MinerFamily::Antminer | MinerFamily::Whatsminer | MinerFamily::Avalon => 80,
        MinerFamily::Bitaxe => 68,
        MinerFamily::CGMinerCompatible => 54,
    }
}

/// The confidence of a detection on the API port: at least the floor for its
/// family, and at most `MAX_CONFIDENCE`.
pub open spec fn api_confidence(family: MinerFamily, detected_confidence: u8) -> u8 {
    capped(
        if detected_confidence > api_confidence_floor(family) {
            detected_confidence
        } else {
            api_confidence_floor(family)
        },
    )
}

/// A detection on the API port is at least as confident as the floor for its
/// family; the score is held to the `0..=100` range.
pub fn confidence_for_4028(category: MinerFamily, detected_confidence: u8) -> (r: u8)
    ensures
        r == api_confidence(category, detected_confidence),
        r <= MAX_CONFIDENCE,
{
    let floor: u8 = match category {
        MinerFamily::Antminer | MinerFamily::Whatsminer | MinerFamily::Avalon => 80,
        MinerFamily::Bitaxe => 68,
        MinerFamily::CGMinerCompatible => 54,
    };
    let raised: u8 = if detected_confidence > floor {
        detected_confidence
    } else {
        floor
    };
    if raised > MAX_CONFIDENCE {
        MAX_CONFIDENCE
    } else {
        raised
    }
}

/// A reply byte as text: printable ASCII and space stay, all else is a space.
pub open spec fn sanitized_char(b: u8) -> char {
    let c = b as char;
    if is_ascii_graphic(c) || c == ' ' {
        c
    } else {
        ' '
    }
}

/// The text of a reply, byte by byte.
pub open spec fn sanitized(bytes: Seq<u8>) -> Seq<char> {
    Seq::new(bytes.len(), |i: int| sanitized_char(bytes[i]))
}

/// Turns a raw reply into printable ASCII text, one character per byte.
pub fn sanitize(bytes: &[u8]) -> (r: String)
    ensures
        r@ == sanitized(bytes@),
{
    let mut cs: Vec<char> = Vec::new();
    let mut i: usize = 0;
    while i < bytes.len()
        invariant
            i <= bytes@.len(),
            cs@.len() == i,
            forall|k: int| 0 <= k < i ==> cs@[k] == sanitized_char(bytes@[k]),
        decreases bytes.len() - i,
    {
        let c: char = bytes[i] as char;
        let s: char = if ('!' <= c && c <= '~') || c == ' ' {
            c
        } else {
            ' '
        };
        cs.push(s);
        i = i + 1;
    }
    proof {
        assert(cs@ =~= sanitized(bytes@));
    }
    string_from(&cs)
}

/// The detection that the rules give for a reply on the API port.
pub open spec fn api_payload_detection(addr: SocketAddress, body: Seq<char>) -> Option<MinerView> {
    match detection(DetectionSource::CGMinerApi, body) {
        None => None,
        Some(m) => Some(
            MinerView {
                addr,
                family: m.family,
                confidence: api_confidence(m.family, m.confidence),
                evidence: seq!["source=tcp:4028"@] + m.evidence + seq![
                    truncated(body, CGM_EVIDENCE_CHARS as nat),
                ],
            },
        ),
    }
}

/// Classifies a (sanitized) reply on the API port.
pub fn classify_4028_payload(addr: SocketAddress, body: String) -> (r: Option<DiscoveredMiner>)
    ensures
        r matches Some(m) ==> api_payload_detection(addr, body@) == Some(m@),
        r is None ==> api_payload_detection(addr, body@) is None,
        r matches Some(m) ==> m.confidence <= MAX_CONFIDENCE,
{
    let detected = match detect(DetectionSource::CGMinerApi, body.as_str()) {
        Some(d) => d,
        None => return None,
    };
    let ghost body0 = body@;
    let mut evidence: Vec<String> = Vec::new();
    evidence.push(string_from(&chars_of("source=tcp:4028")));
    let mut i: usize = 0;
    while i < detected.evidence.len()
        invariant
            i <= detected.evidence.len(),
            evidence.deep_view() == seq!["source=tcp:4028"@] + detected.evidence.deep_view().take(
                i as int,
            ),
        decreases detected.evidence.len() - i,
    {
        let ghost before = evidence.deep_view();
        evidence.push(detected.evidence[i].clone());
        proof {
            assert(detected.evidence.deep_view().take(i + 1) =~= detected.evidence.deep_view().take(
                i as int,
            ).push(detected.evidence@[i as int]@));
            assert(evidence.deep_view() =~= before.push(detected.evidence@[i as int]@));
        }
        i = i + 1;
    }
    let ghost before = evidence.deep_view();
    evidence.push(truncate(body, CGM_EVIDENCE_CHARS));
    proof {
        assert(detected.evidence.deep_view().take(detected.evidence.len() as int)
            =~= detected.evidence.deep_view());
        assert(evidence.deep_view() =~= seq!["source=tcp:4028"@] + detected@.evidence + seq![
            truncated(body0, CGM_EVIDENCE_CHARS as nat),
        ]);
    }
    let m = DiscoveredMiner {
        addr,
        family: detected.family,
        confidence: confidence_for_4028(detected.family, detected.confidence),
        evidence,
    };
    proof {
        assert(m@ == api_payload_detection(addr, body0).unwrap());
    }
    Some(m)
}

/// The detection for everything the API port replied: none for an empty
/// reply.
pub open spec fn api_reply_detection(addr: SocketAddress, reply: Seq<u8>) -> Option<MinerView> {
    if reply.len() == 0 {
        None
    } else {
        api_payload_detection(addr, sanitized(reply))
    }
}

/// Where the API probe stands.
#[derive(Debug, Clone, Copy, PartialEq, Eq, Structural)]
pub enum CgmStage {
    Connecting,
    Sending,
    /// Reading, after this many reads.
    Reading(usize),
    Finished,
}

/// The API probe of one host.
pub struct CgmProbe {
    addr: SocketAddress,
    stage: CgmStage,
    reply: Vec<u8>,
}

/// The API probe seen as plain values.
pub struct CgmView {
    pub addr: SocketAddress,
    pub stage: CgmStage,
    pub reply: Seq<u8>,
}

impl View for CgmProbe {
    type V = CgmView;

    closed spec fn view(&self) -> CgmView {
        CgmView { addr: self.addr, stage: self.stage, reply: self.reply@ }
    }
}

/// The probe is over with this detection.
pub open spec fn cgm_finish(s: CgmView, result: Option<MinerView>) -> (CgmView, ActionView) {
    (CgmView { addr: s.addr, stage: CgmStage::Finished, reply: s.reply }, ActionView::Finish(result))
}

/// The API probe's answer to an event: connect, send the version command,
/// read up to two chunks (stopping at a short or empty read), then classify
/// the reply. Any failure, and any event out of turn, ends the probe with
/// no detection.
pub open spec fn cgm_next(s: CgmView, e: EventView) -> (CgmView, ActionView) {
    match s.stage {
        CgmStage::Connecting => match e {
            EventView::Connected => (
                CgmView { addr: s.addr, stage: CgmStage::Sending, reply: s.reply },
                ActionView::Send(version_command()),
            ),
            _ => cgm_finish(s, None),
        },
        CgmStage::Sending => match e {
            EventView::Sent => (
                CgmView { addr: s.addr, stage: CgmStage::Reading(0), reply: s.reply },
                ActionView::Read(READ_CHUNK_BYTES),
            ),
            _ => cgm_finish(s, None),
        },
        CgmStage::Reading(reads) => match e {
            EventView::Received(data) => {
                if data.len() == 0 {
                    cgm_finish(s, api_reply_detection(s.addr, s.reply))
                } else {
                    let reply = s.reply + data;
                    if data.len() < READ_CHUNK_BYTES || reads + 1 >= CGM_MAX_READS {
                        (
                            CgmView { addr: s.addr, stage: CgmStage::Finished, reply },
                            ActionView::Finish(api_reply_detection(s.addr, reply)),
                        )
                    } else {
                        (
                            CgmView { addr: s.addr, stage: CgmStage::Reading((reads + 1) as usize), reply },
                            ActionView::Read(READ_CHUNK_BYTES),
                        )
                    }
                }
            },
            _ => cgm_finish(s, None),
        },
        CgmStage::Finished => cgm_finish(s, None),
    }
}

impl CgmProbe {
    /// A probe of the API port of `ip`, and its first action: connecting.
    pub fn new(ip: IpAddress) -> (r: (Self, ProbeAction))
        ensures
            r.0@ == (CgmView {
                addr: SocketAddress { ip, port: CGM_PORT },
                stage: CgmStage::Connecting,
                reply: Seq::empty(),
            }),
            r.1@ == ActionView::Connect(SocketAddress { ip, port: CGM_PORT }),
    {
        let addr = SocketAddress { ip, port: CGM_PORT };
        (CgmProbe { addr, stage: CgmStage::Connecting, reply: Vec::new() }, ProbeAction::Connect(addr))
    }

    /// The probe is over.
    pub fn is_finished(&self) -> (r: bool)
        ensures
            r == (self@.stage == CgmStage::Finished),
    {
        self.stage == CgmStage::Finished
    }

    fn finish_with(&mut self, result: Option<DiscoveredMiner>) -> (r: ProbeAction)
        ensures
            final(self)@ == (CgmView {
                addr: old(self)@.addr,
                stage: CgmStage::Finished,
                reply: old(self)@.reply,
            }),
            r@ == ActionView::Finish(crate::miner::miner_view(result)),
    {
        self.stage = CgmStage::Finished;
        ProbeAction::Finish(result)
    }

    fn reply_detection(&self) -> (r: Option<DiscoveredMiner>)
        ensures
            crate::miner::miner_view(r) == api_reply_detection(self@.addr, self@.reply),
    {
        if self.reply.len() == 0 {
            None
        } else {
            classify_4028_payload(self.addr, sanitize(self.reply.as_slice()))
        }
    }

    /// Advances the probe with the outcome of its last action.
    pub fn step(&mut self, event: ProbeEvent) -> (r: ProbeAction)
        ensures
            (final(self)@, r@) == cgm_next(old(self)@, event@),
    {
        match self.stage {
            CgmStage::Connecting => match event {
                ProbeEvent::Connected => {
                    self.stage = CgmStage::Sending;
                    let cmd = string_from(&chars_of("{\"command\":\"version\"}"));
                    ProbeAction::Send(cmd)
                },
                _ => self.finish_with(None),
            },
            CgmStage::Sending => match event {
                ProbeEvent::Sent => {
                    self.stage = CgmStage::Reading(0);
                    ProbeAction::Read(READ_CHUNK_BYTES)
                },
                _ => self.finish_with(None),
            },
            CgmStage::Reading(reads) => match event {
                ProbeEvent::Received(data) => {
                    if data.len() == 0 {
                        let result = self.reply_detection();
                        self.finish_with(result)
                    } else {
                        bytes_append(&mut self.reply, data.as_slice());
                        if data.len() < READ_CHUNK_BYTES || reads >= CGM_MAX_READS - 1 {
                            let result = self.reply_detection();
                            self.finish_with(result)
                        } else {
                            self.stage = CgmStage::Reading(reads + 1);
                            ProbeAction::Read(READ_CHUNK_BYTES)
                        }
                    }
                },
                _ => self.finish_with(None),
            },
            CgmStage::Finished => self.finish_with(None),
        }
    }
}

// ---------------------------------------------------------------------------
// Laws
// ---------------------------------------------------------------------------

/// The probe has made fewer reads than allowed while it still reads.
pub open spec fn cgm_wf(s: CgmView) -> bool {
    s.stage matches CgmStage::Reading(reads) ==> reads < CGM_MAX_READS
}

/// The API probe reads at most `CGM_MAX_READS` chunks; any failure ends it
/// with no detection; once finished it stays finished; and a detection it
/// reports has a confidence in the `0..=100` range.
pub proof fn lemma_cgm_bounded(s: CgmView, e: EventView)
    requires
        cgm_wf(s),
    ensures
        ({
            let (t, action) = cgm_next(s, e);
            &&& cgm_wf(t)
            &&& action is Read ==> t.stage is Reading
            &&& (e is ConnectFailed || e is SendFailed || e is ReadFailed) ==> action
                == ActionView::Finish(None)
            &&& s.stage == CgmStage::Finished ==> t.stage == CgmStage::Finished && action
                == ActionView::Finish(None)
            &&& t.addr == s.addr
            &&& action matches ActionView::Finish(Some(m)) ==> m.confidence <= MAX_CONFIDENCE
        }),
{
}

/// A reply on the API port is classified at least as confidently as the
/// floor of its family and at most `MAX_CONFIDENCE`, and names the API port as
/// its source.
pub proof fn lemma_api_confidence_floor(addr: SocketAddress, body: Seq<char>)
    ensures
        api_payload_detection(addr, body) matches Some(m) ==> {
            &&& m.confidence >= api_confidence_floor(m.family)
            &&& m.confidence <= MAX_CONFIDENCE
            &&& m.evidence[0] == "source=tcp:4028"@
            &&& m.addr == addr
        },
{
}

/// A sanitized reply has one character per byte, each printable ASCII or a
/// space.
pub proof fn lemma_sanitized_printable(bytes: Seq<u8>)
    ensures
        sanitized(bytes).len() == bytes.len(),
        forall|i: int|
            0 <= i < bytes.len() ==> is_ascii_graphic(#[trigger] sanitized(bytes)[i])
                || sanitized(bytes)[i] == ' ',
{
}

/// Sanitizing keeps every printable ASCII byte (`0x20` to `0x7e`, the space
/// included) as the same character, and turns each other byte into a space.
pub proof fn lemma_sanitize_keeps_printable(bytes: Seq<u8>)
    ensures
        sanitized(bytes).len() == bytes.len(),
        forall|i: int|
            0 <= i < bytes.len() && 0x20 <= bytes[i] <= 0x7e ==> #[trigger] sanitized(bytes)[i]
                == bytes[i] as char,
        forall|i: int|
            0 <= i < bytes.len() && !(0x20 <= bytes[i] <= 0x7e) ==> #[trigger] sanitized(bytes)[i]
                == ' ',
{
}

} // verus!
