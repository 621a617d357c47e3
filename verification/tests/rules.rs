use miner_scanner::cgm::{classify_4028_payload, confidence_for_4028, sanitize};
use miner_scanner::http::classify::classify_http_payload;
use miner_scanner::detection::{adjust_confidence, detect, DetectionSource, FamilyScore};
use miner_scanner::text::chars_of;
use miner_scanner::util::truncate;
use miner_scanner::{IpAddress, MinerFamily, SocketAddress};

#[test]
fn detection_ignores_letter_case() {
    let a = detect(DetectionSource::CGMinerApi, "PROD=WHATSMINER, MicroBT").unwrap();
    let b = detect(DetectionSource::CGMinerApi, "prod=whatsminer, microbt").unwrap();
    assert_eq!(a.family, MinerFamily::Whatsminer);
    assert_eq!(a.family, b.family);
    assert_eq!(a.confidence, b.confidence);
    assert_eq!(a.evidence, b.evidence);
}

#[test]
fn detection_needs_minimum_score() {
    // "bmminer" alone gives Antminer 15 points, under the minimum of 40.
    assert!(detect(DetectionSource::CGMinerApi, "bmminer").is_none());
    // "cgminer" gives 42 points.
    let m = detect(DetectionSource::Http { endpoint: "/api/v1/info" }, "cgminer").unwrap();
    assert_eq!(m.family, MinerFamily::CGMinerCompatible);
    assert_eq!(m.confidence, 42);
    assert_eq!(m.evidence, vec!["match=cgminer".to_string()]);
}

#[test]
fn detection_needs_margin_over_runner_up() {
    // Avalon 70 + canaan 34 = 104 against Antminer 70 + bmminer 15 = 85: lead 19.
    let m = detect(DetectionSource::Http { endpoint: "/api/v1/info" }, "avalon canaan antminer bmminer").unwrap();
    assert_eq!(m.family, MinerFamily::Avalon);
    assert_eq!(m.confidence, 104);
    // Avalon 70 against Antminer 70 + bmminer 15 = 85 minus ... Antminer 85 leads Avalon 70 by 15.
    let m = detect(DetectionSource::Http { endpoint: "/api/v1/info" }, "avalon antminer bmminer").unwrap();
    assert_eq!(m.family, MinerFamily::Antminer);
    // Whatsminer 70 + microbt 34 = 104 against Avalon 70 + canaan 34 = 104: a tie is ambiguous.
    assert!(detect(DetectionSource::Http { endpoint: "/api/v1/info" }, "whatsminer microbt avalon canaan").is_none());
    // Antminer 70 + xilinx bm 24 = 94 against Avalon 70 + avalonminer 18 = 88: a lead of 6 is too small.
    assert!(detect(DetectionSource::Http { endpoint: "/api/v1/info" }, "antminer xilinx bm avalonminer").is_none());
}

#[test]
fn root_page_costs_eight_points() {
    let m = detect(DetectionSource::Http { endpoint: "/" }, "avalon").unwrap();
    assert_eq!(m.confidence, 62);
    assert_eq!(adjust_confidence(DetectionSource::Http { endpoint: "/" }, 5), 0);
    assert_eq!(adjust_confidence(DetectionSource::Http { endpoint: "/" }, 50), 42);
    assert_eq!(adjust_confidence(DetectionSource::Http { endpoint: "/x" }, 50), 50);
    assert_eq!(adjust_confidence(DetectionSource::CGMinerApi, 50), 50);
}

#[test]
fn scores_saturate_and_detections_cap_confidence() {
    let text = r#"bitaxe axeos esp-miner "asicmodel" "asic_model" bm1366 bm1368 bm1370 bm1397"#;
    // The rule score saturates at the top of its type.
    let m = detect(DetectionSource::Http { endpoint: "/api/system/info" }, text).unwrap();
    assert_eq!(m.family, MinerFamily::Bitaxe);
    assert_eq!(m.confidence, 255);
    assert_eq!(m.evidence.len(), 11);
    assert_eq!(m.evidence[10], "match=bitaxe-asic-model");
    // A detection reports it in the 0..=100 range.
    let addr = SocketAddress::new(IpAddress::V4([192, 168, 1, 100]), 80);
    let d = classify_http_payload(addr, "/api/system/info", text.to_string()).unwrap();
    assert_eq!(d.family, MinerFamily::Bitaxe);
    assert_eq!(d.confidence, 100);
    assert_eq!(d.evidence.len(), 13);
    let m = detect(DetectionSource::CGMinerApi, "bitaxe axeos esp-miner").unwrap();
    assert_eq!(m.confidence, 116);
    let addr = SocketAddress::new(IpAddress::V4([192, 168, 1, 100]), 4028);
    let d = classify_4028_payload(addr, "bitaxe axeos esp-miner".to_string()).unwrap();
    assert_eq!(d.family, MinerFamily::Bitaxe);
    assert_eq!(d.confidence, 100);
}

#[test]
fn bitaxe_system_info_confidence_in_range() {
    let addr = SocketAddress::new(IpAddress::V4([192, 168, 1, 100]), 80);
    let body = r#"{"hostname":"bitaxe","asicModel":"Bitaxe Supra","version":"esp-miner 2.5"}"#;
    let d = classify_http_payload(addr, "/api/system/info", body.to_string()).unwrap();
    assert_eq!(d.family, MinerFamily::Bitaxe);
    assert!(d.confidence <= 100);
    assert_eq!(d.confidence, 100);
}

#[test]
fn endpoint_shapes_add_points() {
    let cgi = detect(
        DetectionSource::Http { endpoint: "/cgi-bin/get_system_info.cgi" },
        r#"{"minertype":"S9"} bmminer"#,
    );
    // 18 + 15 + 10 = 43 on the CGI endpoint.
    assert_eq!(cgi.unwrap().confidence, 43);
    // 18 + 15 = 33 elsewhere: below the minimum.
    assert!(detect(DetectionSource::Http { endpoint: "/api/v1/info" }, r#"{"minertype":"S9"} bmminer"#).is_none());
    // The CGMiner API shape: 42 + 12.
    let m = detect(DetectionSource::CGMinerApi, "STATUS=S|VERSION=cgminer").unwrap();
    assert_eq!(m.confidence, 54);
    assert_eq!(m.evidence, vec!["match=cgminer".to_string(), "match=cgm-api-shape".to_string()]);
}

#[test]
fn family_score_saturates() {
    let mut s = FamilyScore::new(MinerFamily::Avalon);
    s.add(200, "a");
    s.add(100, "b");
    assert_eq!(s.points, 255);
    assert_eq!(s.reasons, vec!["a", "b"]);
    s.add_if_contains("hello avalon", "nothing", 5, "c");
    assert_eq!(s.reasons.len(), 2);
    s.add_if_contains("hello avalon", "avalon", 5, "d");
    assert_eq!(s.reasons, vec!["a", "b", "d"]);
    assert_eq!(chars_of("hé"), vec!['h', 'é']);
}

#[test]
fn api_port_confidence_floors() {
    assert_eq!(confidence_for_4028(MinerFamily::Antminer, 70), 80);
    assert_eq!(confidence_for_4028(MinerFamily::Whatsminer, 95), 95);
    assert_eq!(confidence_for_4028(MinerFamily::Avalon, 0), 80);
    assert_eq!(confidence_for_4028(MinerFamily::Bitaxe, 40), 68);
    assert_eq!(confidence_for_4028(MinerFamily::CGMinerCompatible, 54), 54);
    assert_eq!(confidence_for_4028(MinerFamily::CGMinerCompatible, 42), 54);
    assert_eq!(confidence_for_4028(MinerFamily::Antminer, 100), 100);
    assert_eq!(confidence_for_4028(MinerFamily::Antminer, 101), 100);
    assert_eq!(confidence_for_4028(MinerFamily::Bitaxe, 255), 100);
}

#[test]
fn sanitize_replaces_unprintable_bytes() {
    assert_eq!(sanitize(b"STATUS=S|\x00ok\r\n"), "STATUS=S| ok  ");
    assert_eq!(sanitize(&[0xC3, 0xA9, b'~', b' ', 0x7F]), "  ~  ");
    assert_eq!(sanitize(b""), "");
}

#[test]
fn truncate_counts_characters() {
    assert_eq!(truncate("héllo".to_string(), 2), "hé");
    assert_eq!(truncate("abc".to_string(), 3), "abc");
    assert_eq!(truncate("abc".to_string(), 10), "abc");
    assert_eq!(truncate("abc".to_string(), 0), "");
}

#[test]
fn family_names() {
    assert_eq!(MinerFamily::Bitaxe.as_str(), "Bitaxe");
    assert_eq!(MinerFamily::Antminer.as_str(), "Antminer");
    assert_eq!(MinerFamily::Whatsminer.as_str(), "Whatsminer");
    assert_eq!(MinerFamily::Avalon.as_str(), "Avalon");
    assert_eq!(MinerFamily::CGMinerCompatible.as_str(), "CGMiner-compatible");
}
