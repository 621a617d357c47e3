use miner_scanner::cgm::{CgmProbe, classify_4028_payload};
use miner_scanner::probe::{ProbeAction, ProbeEvent};
use miner_scanner::{DiscoveredMiner, IpAddress, MinerFamily, ScanOptions, SocketAddress};
use std::time::Duration;

fn miner(port: u16, family: MinerFamily, confidence: u8, evidence: &[&str]) -> DiscoveredMiner {
    DiscoveredMiner {
        addr: SocketAddress::new(IpAddress::V4([10, 0, 0, 2]), port),
        family,
        confidence,
        evidence: evidence.iter().map(|s| s.to_string()).collect(),
    }
}

#[test]
fn default_scan_options() {
    let o = ScanOptions::default();
    assert_eq!(o.concurrency, 256);
    assert_eq!(o.connect_timeout, Duration::from_millis(500));
    assert_eq!(o.io_timeout, Duration::from_millis(500));
}

#[test]
fn merge_adds_secondary_lines_and_dedupes() {
    let a = miner(80, MinerFamily::CGMinerCompatible, 80, &["x", "y"]);
    let b = miner(4028, MinerFamily::Antminer, 90, &["y", "z", "z"]);
    let m = DiscoveredMiner::merge_detections(Some(a), Some(b)).unwrap();
    assert_eq!(m.addr.port, 4028);
    assert_eq!(m.family, MinerFamily::Antminer);
    assert_eq!(m.confidence, 90);
    assert_eq!(m.evidence, vec!["x", "y", "z"]);

    let a = miner(80, MinerFamily::Bitaxe, 90, &["x"]);
    let b = miner(4028, MinerFamily::CGMinerCompatible, 90, &["w"]);
    let m = DiscoveredMiner::merge_detections(Some(a), Some(b)).unwrap();
    assert_eq!(m.addr.port, 80);
    assert_eq!(m.family, MinerFamily::Bitaxe);
    assert_eq!(
        m.evidence,
        vec!["x", "w", "secondary_port=4028", "secondary_family=CGMiner-compatible"]
    );
}

#[test]
fn merge_with_nothing() {
    let a = miner(80, MinerFamily::Avalon, 70, &["x"]);
    let m = DiscoveredMiner::merge_detections(Some(a.clone()), None).unwrap();
    assert_eq!(m.evidence, a.evidence);
    let m = DiscoveredMiner::merge_detections(None, Some(a)).unwrap();
    assert_eq!(m.family, MinerFamily::Avalon);
    assert!(DiscoveredMiner::merge_detections(None, None).is_none());
}

#[test]
fn api_payload_evidence() {
    let m = classify_4028_payload(
        SocketAddress::new(IpAddress::V4([10, 0, 0, 3]), 4028),
        "STATUS=S|VERSION=cgminer 4.9".to_string(),
    )
    .unwrap();
    assert_eq!(m.family, MinerFamily::CGMinerCompatible);
    assert_eq!(m.confidence, 54);
    assert_eq!(
        m.evidence,
        vec![
            "source=tcp:4028",
            "match=cgminer",
            "match=cgm-api-shape",
            "STATUS=S|VERSION=cgminer 4.9"
        ]
    );
}

#[test]
fn cgm_probe_reads_twice_at_most() {
    let (mut p, first) = CgmProbe::new(IpAddress::V4([10, 0, 0, 4]));
    assert!(matches!(first, ProbeAction::Connect(a) if a.port == 4028));
    match p.step(ProbeEvent::Connected) {
        ProbeAction::Send(c) => assert_eq!(c, r#"{"command":"version"}"#),
        _ => panic!("expected the command"),
    }
    assert!(matches!(p.step(ProbeEvent::Sent), ProbeAction::Read(1024)));
    let mut full = vec![b' '; 1024];
    full[..13].copy_from_slice(b"PROD=Avalon\x00\x01");
    assert!(matches!(p.step(ProbeEvent::Received(full.clone())), ProbeAction::Read(1024)));
    match p.step(ProbeEvent::Received(full)) {
        ProbeAction::Finish(Some(m)) => {
            assert_eq!(m.family, MinerFamily::Avalon);
            assert_eq!(m.confidence, 80);
            assert_eq!(m.addr.port, 4028);
        },
        _ => panic!("expected a detection"),
    }
    assert!(p.is_finished());
}

#[test]
fn cgm_probe_failures_and_empty_reply() {
    let (mut p, _) = CgmProbe::new(IpAddress::V4([10, 0, 0, 4]));
    p.step(ProbeEvent::Connected);
    p.step(ProbeEvent::Sent);
    assert!(matches!(p.step(ProbeEvent::Received(Vec::new())), ProbeAction::Finish(None)));
    let (mut p, _) = CgmProbe::new(IpAddress::V4([10, 0, 0, 4]));
    assert!(matches!(p.step(ProbeEvent::ConnectFailed), ProbeAction::Finish(None)));
    let (mut p, _) = CgmProbe::new(IpAddress::V4([10, 0, 0, 4]));
    p.step(ProbeEvent::Connected);
    p.step(ProbeEvent::Sent);
    assert!(matches!(p.step(ProbeEvent::ReadFailed), ProbeAction::Finish(None)));
}

#[test]
fn cgm_probe_short_read_finishes() {
    let (mut p, _) = CgmProbe::new(IpAddress::V4([10, 0, 0, 4]));
    p.step(ProbeEvent::Connected);
    p.step(ProbeEvent::Sent);
    match p.step(ProbeEvent::Received(b"STATUS=S|VERSION=CGMiner".to_vec())) {
        ProbeAction::Finish(Some(m)) => assert_eq!(m.family, MinerFamily::CGMinerCompatible),
        _ => panic!("expected a detection"),
    }
}
