//! Miner families, network addresses and the detections that the scanner
//! reports.
use vstd::prelude::*;

use crate::text::{chars_of, concat, decimal, decimal_chars, string_from};

verus! {

/// Broad miner family inferred from network responses.
///
/// Classification is heuristic. It is intended to help downstream code pick
/// the right integration path, not to provide a strict hardware guarantee.
#[derive(Debug, Clone, Copy, PartialEq, Eq, Structural, PartialOrd, Ord, Hash)]
pub enum MinerFamily {
    /// Bitaxe devices and compatible firmware responses.
    Bitaxe,
    /// Bitmain Antminer devices.
    Antminer,
    /// MicroBT Whatsminer devices.
    Whatsminer,
    /// Canaan Avalon devices.
    Avalon,
    /// Generic CGMiner-style devices that do not match a more specific family.
    CGMinerCompatible,
}

/// The display name of a family.
pub open spec fn family_name(family: MinerFamily) -> Seq<char> {
    match family {
        MinerFamily::Bitaxe => "Bitaxe"@,
        MinerFamily::Antminer => "Antminer"@,
        MinerFamily::Whatsminer => "Whatsminer"@,
        MinerFamily::Avalon => "Avalon"@,
        MinerFamily::CGMinerCompatible => "CGMiner-compatible"@,
    }
}

impl MinerFamily {
    /// The display name of the family.
    pub fn as_str(&self) -> (r: &'static str)
        ensures
            r@ == family_name(*self),
    {
        match self {
            MinerFamily::Bitaxe => "Bitaxe",
            MinerFamily::Antminer => "Antminer",
            MinerFamily::Whatsminer => "Whatsminer",
            MinerFamily::Avalon => "Avalon",
            MinerFamily::CGMinerCompatible => "CGMiner-compatible",
        }
    }
}

/// An IP address: four octets, or eight 16-bit groups.
#[derive(Debug, Clone, Copy, PartialEq, Eq, Hash)]
pub enum IpAddress {
    V4([u8; 4]),
    V6([u16; 8]),
}

/// An IP address and a TCP port.
#[derive(Debug, Clone, Copy, PartialEq, Eq, Hash)]
pub struct SocketAddress {
    pub ip: IpAddress,
    pub port: u16,
}

impl SocketAddress {
    /// The address `ip:port`.
    pub fn new(ip: IpAddress, port: u16) -> (r: Self)
        ensures
            r.ip == ip,
            r.port == port,
    {
        SocketAddress { ip, port }
    }
}

/// The highest confidence score a detection carries.
pub const MAX_CONFIDENCE: u8 = 100;

/// A score held to the `0..=100` range of a detection's confidence.
pub open spec fn capped(score: u8) -> u8 {
    if score > MAX_CONFIDENCE {
        MAX_CONFIDENCE
    } else {
        score
    }
}

/// A miner candidate discovered during a network scan.
///
/// This type keeps the classification intentionally small: the socket address,
/// the inferred family, a heuristic confidence score, and a short list of
/// evidence strings collected from the probes.
#[derive(Debug, Clone)]
pub struct DiscoveredMiner {
    /// Address that answered the probe.
    ///
    /// The port reflects the probe that produced the strongest match.
    pub addr: SocketAddress,
    /// Inferred miner family.
    pub family: MinerFamily,
    /// Heuristic confidence score in the `0..=100` range.
    ///
    /// This is useful for ranking detections relative to each other. It should
    /// not be interpreted as a statistical probability.
    pub confidence: u8,
    /// Human-readable hints collected during classification.
    ///
    /// These strings are primarily meant for debugging and inspection. Their
    /// exact format is not intended to be a stable parsing surface.
    pub evidence: Vec<String>,
}

/// A detection seen as plain values.
pub struct MinerView {
    pub addr: SocketAddress,
    pub family: MinerFamily,
    pub confidence: u8,
    pub evidence: Seq<Seq<char>>,
}

impl View for DiscoveredMiner {
    type V = MinerView;

    open spec fn view(&self) -> MinerView {
        MinerView {
            addr: self.addr,
            family: self.family,
            confidence: self.confidence,
            evidence: self.evidence.deep_view(),
        }
    }
}

/// The detections seen as plain values.
pub open spec fn miner_view(m: Option<DiscoveredMiner>) -> Option<MinerView> {
    match m {
        Some(d) => Some(d@),
        None => None,
    }
}

/// `evidence` followed by the items of `items` that it does not hold yet,
/// each taken once, in order.
pub open spec fn absorb(evidence: Seq<Seq<char>>, items: Seq<Seq<char>>) -> Seq<Seq<char>>
    decreases items.len(),
{
    if items.len() == 0 {
        evidence
    } else {
        let acc = absorb(evidence, items.drop_last());
        if acc.contains(items.last()) {
            acc
        } else {
            acc.push(items.last())
        }
    }
}

/// The evidence line that names the port of the weaker detection.
pub open spec fn secondary_port_line(port: u16) -> Seq<char> {
    "secondary_port="@ + decimal(port as nat)
}

/// The evidence line that names the family of the weaker detection.
pub open spec fn secondary_family_line(family: MinerFamily) -> Seq<char> {
    "secondary_family="@ + family_name(family)
}

/// Two detections of one host combined: the classification with the higher
/// confidence wins (the first on a tie), and the evidence of both is kept.
pub open spec fn combined(a: MinerView, b: MinerView) -> MinerView {
    let take_second = b.confidence > a.confidence;
    let port = if take_second {
        b.addr.port
    } else {
        a.addr.port
    };
    let family = if take_second {
        b.family
    } else {
        a.family
    };
    let confidence = if take_second {
        b.confidence
    } else {
        a.confidence
    };
    let ev = absorb(a.evidence, b.evidence);
    let ev = if port != b.addr.port {
        ev.push(secondary_port_line(b.addr.port))
    } else {
        ev
    };
    let ev = if family != b.family {
        ev.push(secondary_family_line(b.family))
    } else {
        ev
    };
    MinerView {
        addr: SocketAddress { ip: a.addr.ip, port },
        family,
        confidence,
        evidence: ev,
    }
}

/// The merge of two optional detections of one host.
pub open spec fn merged(first: Option<MinerView>, second: Option<MinerView>) -> Option<MinerView> {
    match (first, second) {
        (Some(a), Some(b)) => Some(combined(a, b)),
        (Some(a), None) => Some(a),
        (None, Some(b)) => Some(b),
        (None, None) => None,
    }
}

/// Whether `evidence` holds `item`.
fn holds(evidence: &Vec<String>, item: &String) -> (r: bool)
    ensures
        r == evidence.deep_view().contains(item@),
{
    let mut k: usize = 0;
    while k < evidence.len()
        invariant
            k <= evidence.len(),
            forall|m: int| 0 <= m < k ==> evidence@[m]@ != item@,
        decreases evidence.len() - k,
    {
        if evidence[k] == *item {
            proof {
                assert(evidence.deep_view()[k as int] == item@);
            }
            return true;
        }
        k = k + 1;
    }
    proof {
        if evidence.deep_view().contains(item@) {
            let m = choose|m: int|
                0 <= m < evidence.deep_view().len() && evidence.deep_view()[m] == item@;
            assert(evidence@[m]@ == item@);
        }
    }
    false
}

impl DiscoveredMiner {
    /// Merges the detections of the HTTP and CGMiner probes of one host.
    pub fn merge_detections(first: Option<Self>, second: Option<Self>) -> (r: Option<Self>)
        ensures
            miner_view(r) == merged(miner_view(first), miner_view(second)),
    {
        match (first, second) {
            (Some(mut a), Some(b)) => {
                let ghost a0 = a@;
                let ghost b0 = b@;
                // Keep the strongest classification, but preserve supporting
                // evidence from both probe families.
                if b.confidence > a.confidence {
                    a.addr.port = b.addr.port;
                    a.family = b.family;
                    a.confidence = b.confidence;
                }
                let ghost c = combined(a0, b0);
                assert(a.addr == c.addr && a.family == c.family && a.confidence == c.confidence);
                let mut i: usize = 0;
                while i < b.evidence.len()
                    invariant
                        i <= b.evidence.len(),
                        b@ == b0,
                        c == combined(a0, b0),
                        a.addr == c.addr,
                        a.family == c.family,
                        a.confidence == c.confidence,
                        a.evidence.deep_view() == absorb(
                            a0.evidence,
                            b0.evidence.take(i as int),
                        ),
                    decreases b.evidence.len() - i,
                {
                    let ghost before = a.evidence.deep_view();
                    proof {
                        assert(b0.evidence.take(i + 1).drop_last() =~= b0.evidence.take(i as int));
                        assert(b0.evidence.take(i + 1).last() == b.evidence@[i as int]@);
                    }
                    if !holds(&a.evidence, &b.evidence[i]) {
                        a.evidence.push(b.evidence[i].clone());
                        proof {
                            assert(a.evidence.deep_view() =~= before.push(b.evidence@[i as int]@));
                        }
                    }
                    i = i + 1;
                }
                proof {
                    assert(b0.evidence.take(b0.evidence.len() as int) =~= b0.evidence);
                }
                if a.addr.port != b.addr.port {
                    let line = concat(
                        &chars_of("secondary_port="),
                        &decimal_chars(b.addr.port as u64),
                    );
                    let ghost before = a.evidence.deep_view();
                    a.evidence.push(string_from(&line));
                    proof {
                        assert(a.evidence.deep_view() =~= before.push(
                            secondary_port_line(b0.addr.port),
                        ));
                    }
                }
                if a.family != b.family {
                    let line = concat(&chars_of("secondary_family="), &chars_of(b.family.as_str()));
                    let ghost before = a.evidence.deep_view();
                    a.evidence.push(string_from(&line));
                    proof {
                        assert(a.evidence.deep_view() =~= before.push(
                            secondary_family_line(b0.family),
                        ));
                    }
                }
                proof {
                    assert(a@ == combined(a0, b0));
                }
                Some(a)
            },
            (Some(item), None) => Some(item),
            (None, Some(item)) => Some(item),
            (None, None) => None,
        }
    }
}

// ---------------------------------------------------------------------------
// Laws
// ---------------------------------------------------------------------------

proof fn lemma_absorb(evidence: Seq<Seq<char>>, items: Seq<Seq<char>>)
    ensures
        evidence.len() <= absorb(evidence, items).len(),
        absorb(evidence, items).take(evidence.len() as int) == evidence,
        forall|x: Seq<char>|
            evidence.contains(x) || items.contains(x) ==> #[trigger] absorb(
                evidence,
                items,
            ).contains(x),
        forall|x: Seq<char>|
            #[trigger] absorb(evidence, items).contains(x) ==> evidence.contains(x)
                || items.contains(x),
        evidence.no_duplicates() ==> absorb(evidence, items).no_duplicates(),
    decreases items.len(),
{
    if items.len() == 0 {
        assert(evidence.take(evidence.len() as int) =~= evidence);
    } else {
        let rest = items.drop_last();
        let x = items.last();
        lemma_absorb(evidence, rest);
        let acc = absorb(evidence, rest);
        assert forall|y: Seq<char>| rest.contains(y) implies items.contains(y) by {
            let i = choose|i: int| 0 <= i < rest.len() && rest[i] == y;
            assert(items[i] == y);
        }
        assert(items.contains(x)) by {
            assert(items[items.len() - 1] == x);
        }
        assert forall|y: Seq<char>| items.contains(y) implies rest.contains(y) || y == x by {
            let i = choose|i: int| 0 <= i < items.len() && items[i] == y;
            if i < items.len() - 1 {
                assert(rest[i] == y);
            }
        }
        if !acc.contains(x) {
            let r = acc.push(x);
            assert(r.take(evidence.len() as int) =~= acc.take(evidence.len() as int));
            assert(r.contains(x)) by {
                assert(r[acc.len() as int] == x);
            }
            assert forall|y: Seq<char>| acc.contains(y) implies r.contains(y) by {
                let i = choose|i: int| 0 <= i < acc.len() && acc[i] == y;
                assert(r[i] == y);
            }
            assert forall|y: Seq<char>| r.contains(y) implies acc.contains(y) || y == x by {
                let i = choose|i: int| 0 <= i < r.len() && r[i] == y;
                if i < acc.len() {
                    assert(acc[i] == y);
                }
            }
        }
    }
}

/// Merging keeps the strongest classification: the merged confidence is the
/// higher one, and the family and the port are those of the detection that
/// has it (the first on a tie); the IP address is that of the first.
pub proof fn lemma_merge_keeps_strongest(a: MinerView, b: MinerView)
    ensures
        combined(a, b).confidence >= a.confidence,
        combined(a, b).confidence >= b.confidence,
        combined(a, b).confidence == a.confidence || combined(a, b).confidence == b.confidence,
        b.confidence > a.confidence ==> combined(a, b).family == b.family && combined(
            a,
            b,
        ).addr.port == b.addr.port,
        b.confidence <= a.confidence ==> combined(a, b).family == a.family && combined(
            a,
            b,
        ).addr.port == a.addr.port,
        combined(a, b).addr.ip == a.addr.ip,
{
}

/// Merging keeps the confidence in its range: when each detection's score is
/// at most `MAX_CONFIDENCE`, so is the merged one.
pub proof fn lemma_merged_confidence_in_range(first: Option<MinerView>, second: Option<MinerView>)
    requires
        first matches Some(a) ==> a.confidence <= MAX_CONFIDENCE,
        second matches Some(b) ==> b.confidence <= MAX_CONFIDENCE,
    ensures
        merged(first, second) matches Some(m) ==> m.confidence <= MAX_CONFIDENCE,
{
}

/// Merging preserves the supporting evidence of both detections: the first
/// detection's evidence comes first and unchanged, every line of either is
/// kept, and lines taken from the second are not repeated.
pub proof fn lemma_merge_keeps_evidence(a: MinerView, b: MinerView)
    ensures
        a.evidence.len() <= combined(a, b).evidence.len(),
        combined(a, b).evidence.take(a.evidence.len() as int) == a.evidence,
        forall|x: Seq<char>|
            a.evidence.contains(x) || b.evidence.contains(x) ==> #[trigger] combined(
                a,
                b,
            ).evidence.contains(x),
        a.evidence.no_duplicates() ==> absorb(a.evidence, b.evidence).no_duplicates(),
        combined(a, b).evidence.take(absorb(a.evidence, b.evidence).len() as int) == absorb(
            a.evidence,
            b.evidence,
        ),
{
    lemma_absorb(a.evidence, b.evidence);
    let ab = absorb(a.evidence, b.evidence);
    let c = combined(a, b);
    assert(c.evidence.take(ab.len() as int) =~= ab);
    assert(c.evidence.take(a.evidence.len() as int) =~= ab.take(a.evidence.len() as int));
    assert forall|x: Seq<char>| a.evidence.contains(x) || b.evidence.contains(x) implies #[trigger] c.evidence.contains(x) by {
        assert(ab.contains(x));
        let i = choose|i: int| 0 <= i < ab.len() && ab[i] == x;
        assert(c.evidence[i] == ab[i]);
    }
}

/// A detection merged with nothing is unchanged.
pub proof fn lemma_merge_with_nothing(m: MinerView)
    ensures
        merged(Some(m), None) == Some(m),
        merged(None, Some(m)) == Some(m),
        merged(None, None) is None,
{
}

} // verus!
