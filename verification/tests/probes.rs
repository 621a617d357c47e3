use miner_scanner::cgm::classify_4028_payload;
use miner_scanner::http::classify::{classify_antminer_auth_challenge, classify_http_payload};
use miner_scanner::http::head::HttpResponseHead;
use miner_scanner::http::message::{split_http_message, ChunkedBody};
use miner_scanner::{DiscoveredMiner, IpAddress, MinerFamily, SocketAddress};

fn v4(a: u8, b: u8, c: u8, d: u8, port: u16) -> SocketAddress {
    SocketAddress::new(IpAddress::V4([a, b, c, d]), port)
}

#[test]
fn classify_whatsminer_4028_payload() {
    let body = r#"STATUS=S,When=1711111111,Code=11,Msg=Summary|VERSION=BMMiner/2.0.0,PROD=WhatsMiner M30S++"#;
    let detected = classify_4028_payload(v4(192, 168, 1, 102, 4028), body.to_string())
        .expect("expected 4028 detection");

    assert_eq!(detected.family, MinerFamily::Whatsminer);
}

#[test]
fn classify_bitaxe_http_payload() {
    let body = r#"{"hostname":"bitaxe","asicModel":"Bitaxe Supra","version":"esp-miner 2.5"}"#;
    let detected = classify_http_payload(
        v4(192, 168, 1, 100, 80),
        "/api/system/info",
        body.to_string(),
    )
    .expect("expected bitaxe detection");

    assert_eq!(detected.family, MinerFamily::Bitaxe);
}

#[test]
fn classify_antminer_http_payload() {
    let body = r#"{"minertype":"Antminer S19j Pro","hostname":"miner-s19"}"#;
    let detected = classify_http_payload(
        v4(192, 168, 1, 101, 80),
        "/cgi-bin/get_system_info.cgi",
        body.to_string(),
    )
    .expect("expected antminer detection");

    assert_eq!(detected.family, MinerFamily::Antminer);
}

#[test]
fn split_http_message_extracts_payload() {
    let response = b"HTTP/1.1 200 OK\r\nContent-Length: 4\r\n\r\nbody";
    let (_, body) = split_http_message(response).expect("expected HTTP body");

    assert_eq!(body, b"body");
}

#[test]
fn parse_http_response_head_detects_keep_alive() {
    let headers = b"HTTP/1.1 200 OK\r\nContent-Length: 4\r\n\r\n";
    let head = HttpResponseHead::parse(headers).expect("expected HTTP head");

    assert_eq!(head.content_length, Some(4));
    assert!(!head.chunked);
    assert!(head.keep_alive);
    assert_eq!(head.status_code, 200);
    assert_eq!(head.www_authenticate, None);
}

#[test]
fn parse_http_response_head_extracts_auth_challenge() {
    let headers = b"HTTP/1.1 401 Unauthorized\r\nContent-Length: 0\r\nWWW-Authenticate: Digest realm=\"antMiner Configuration\", nonce=\"abc\"\r\n\r\n";
    let head = HttpResponseHead::parse(headers).expect("expected HTTP head");

    assert_eq!(head.status_code, 401);
    assert_eq!(
        head.www_authenticate.as_deref(),
        Some("Digest realm=\"antMiner Configuration\", nonce=\"abc\"")
    );
}

#[test]
fn classify_antminer_auth_realm() {
    let detected = classify_antminer_auth_challenge(
        v4(192, 168, 1, 102, 80),
        "/",
        401,
        Some("Digest realm=\"antMiner Configuration\", nonce=\"abc\""),
    )
    .expect("expected antminer detection");

    assert_eq!(detected.family, MinerFamily::Antminer);
    assert_eq!(detected.confidence, 90);
    assert!(
        detected
            .evidence
            .iter()
            .any(|item| item == "auth-realm=antMiner Configuration")
    );
}

#[test]
fn reject_generic_auth_realm() {
    let detected = classify_antminer_auth_challenge(
        v4(192, 168, 1, 103, 80),
        "/",
        401,
        Some("Basic realm=\"Administration\""),
    );

    assert!(detected.is_none());
}

#[test]
fn reject_antminer_realm_without_auth_challenge() {
    let detected = classify_antminer_auth_challenge(
        v4(192, 168, 1, 104, 80),
        "/",
        200,
        Some("Digest realm=\"antMiner Configuration\""),
    );

    assert!(detected.is_none());
}

#[test]
fn decode_chunked_body_extracts_payload() {
    let encoded = b"4\r\nWiki\r\n5\r\npedia\r\n0\r\n\r\n";
    let body = ChunkedBody::decode(encoded).expect("expected chunked body");

    match body {
        ChunkedBody::Complete(body) => assert_eq!(body, b"Wikipedia"),
        ChunkedBody::Incomplete => panic!("expected complete chunked body"),
    }
}

#[test]
fn merge_keeps_best_and_enriches_evidence() {
    let first = DiscoveredMiner {
        addr: v4(10, 0, 0, 2, 80),
        family: MinerFamily::CGMinerCompatible,
        confidence: 80,
        evidence: vec!["source=http/".to_string()],
    };
    let second = DiscoveredMiner {
        addr: v4(10, 0, 0, 2, 4028),
        family: MinerFamily::Antminer,
        confidence: 90,
        evidence: vec!["source=tcp:4028".to_string()],
    };

    let merged = DiscoveredMiner::merge_detections(Some(first), Some(second))
        .expect("expected merged miner");
    assert_eq!(merged.family, MinerFamily::Antminer);
    assert!(merged.evidence.iter().any(|e| e == "source=http/"));
    assert!(merged.evidence.iter().any(|e| e == "source=tcp:4028"));
}
