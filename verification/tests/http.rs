use miner_scanner::http::classify::{auth_realm, classify_antminer_auth_challenge, classify_http_payload};
use miner_scanner::http::fetch::{FetchStep, HttpFetch};
use miner_scanner::http::head::HttpResponseHead;
use miner_scanner::http::message::{find_crlf, find_trailer_end, split_http_message, ChunkedBody};
use miner_scanner::http::probe::{endpoint_at, http_request, HttpProbe};
use miner_scanner::probe::{ProbeAction, ProbeEvent};
use miner_scanner::{IpAddress, MinerFamily, SocketAddress};

fn addr(port: u16) -> SocketAddress {
    SocketAddress::new(IpAddress::V4([192, 168, 1, 50]), port)
}

#[test]
fn split_needs_blank_line() {
    assert!(split_http_message(b"HTTP/1.1 200 OK\r\nA: b\r\n").is_none());
    let (head, body) = split_http_message(b"H\r\n\r\n\r\n\r\nx").unwrap();
    assert_eq!(head, b"H");
    assert_eq!(body, b"\r\n\r\nx");
}

#[test]
fn crlf_and_trailer_positions() {
    assert_eq!(find_crlf(b"ab\r\ncd\r\n", 0), Some(2));
    assert_eq!(find_crlf(b"ab\r\ncd\r\n", 3), Some(6));
    assert_eq!(find_crlf(b"ab\r\ncd", 3), None);
    assert_eq!(find_trailer_end(b"0\r\n\r\n", 3), Some(5));
    assert_eq!(find_trailer_end(b"X: y\r\n\r\n", 0), Some(8));
    assert_eq!(find_trailer_end(b"X: y\r\n", 0), None);
}

#[test]
fn head_http10_closes_unless_kept_alive() {
    let h = HttpResponseHead::parse(b"HTTP/1.0 200 OK").unwrap();
    assert!(!h.keep_alive);
    let h = HttpResponseHead::parse(b"HTTP/1.0 200 OK\r\nConnection: Keep-Alive").unwrap();
    assert!(h.keep_alive);
    let h = HttpResponseHead::parse(b"HTTP/1.0 200 OK\r\nConnection: keep-alive, close").unwrap();
    assert!(!h.keep_alive);
    let h = HttpResponseHead::parse(b"HTTP/1.1 200 OK\r\nconnection:  CLOSE ").unwrap();
    assert!(!h.keep_alive);
}

#[test]
fn head_rejects_other_protocols_and_bad_status() {
    assert!(HttpResponseHead::parse(b"HTTP/2 200 OK").is_none());
    assert!(HttpResponseHead::parse(b"HTTP/1.1").is_none());
    assert!(HttpResponseHead::parse(b"HTTP/1.1 abc OK").is_none());
    assert!(HttpResponseHead::parse(b"HTTP/1.1 70000 OK").is_none());
    assert!(HttpResponseHead::parse(b"HTTP/1.1 200 OK\r\nX: \xff").is_none());
    assert_eq!(HttpResponseHead::parse(b"HTTP/1.1   +204").unwrap().status_code, 204);
}

#[test]
fn head_fields_follow_last_header() {
    let h = HttpResponseHead::parse(
        b"HTTP/1.1 200 OK\r\nContent-Length: 10\r\ncontent-length: nope\r\nTransfer-Encoding: gzip,  Chunked\r\nno colon here",
    )
    .unwrap();
    assert_eq!(h.content_length, None);
    assert!(h.chunked);
    let h = HttpResponseHead::parse(b"HTTP/1.1 200 OK\r\nContent-Length: nope\r\nContent-Length: 7").unwrap();
    assert_eq!(h.content_length, Some(7));
}

#[test]
fn head_joins_authentication_challenges() {
    let h = HttpResponseHead::parse(
        b"HTTP/1.1 401 Unauthorized\r\nWWW-Authenticate: Basic realm=\"a\"\r\nwww-authenticate:  Digest realm=\"b\"  ",
    )
    .unwrap();
    assert_eq!(h.www_authenticate.as_deref(), Some("Basic realm=\"a\", Digest realm=\"b\""));
}

#[test]
fn chunked_incomplete_and_malformed() {
    assert!(matches!(ChunkedBody::decode(b"4\r\nWi"), Some(ChunkedBody::Incomplete)));
    assert!(matches!(ChunkedBody::decode(b"4\r\nWiki\r\n"), Some(ChunkedBody::Incomplete)));
    assert!(matches!(ChunkedBody::decode(b"4\r\nWiki\r\n0\r\n\r"), Some(ChunkedBody::Incomplete)));
    assert!(ChunkedBody::decode(b"4\r\nWikiXX").is_none());
    assert!(ChunkedBody::decode(b"zz\r\n").is_none());
    assert!(ChunkedBody::decode(b"\r\n").is_none());
}

#[test]
fn chunked_extensions_trailers_and_hex() {
    // The last chunk's own CR LF comes first; what follows it up to a blank
    // line is the trailer section.
    assert!(ChunkedBody::decode(b"0\r\nX-Trailer: 1\r\n\r\n").is_none());
    match ChunkedBody::decode(b"A;name=x\r\n0123456789\r\n +1 \r\n!\r\n0\r\n\r\nX-Trailer: 1\r\n\r\n") {
        Some(ChunkedBody::Complete(b)) => assert_eq!(b, b"0123456789!"),
        _ => panic!("expected a complete body"),
    }
    match ChunkedBody::decode(b"0\r\n\r\n") {
        Some(ChunkedBody::Complete(b)) => assert!(b.is_empty()),
        _ => panic!("expected an empty body"),
    }
}

#[test]
fn chunked_body_is_bounded() {
    let mut encoded = b"10001\r\n".to_vec();
    encoded.extend(std::iter::repeat(b'a').take(0x10001));
    encoded.extend_from_slice(b"\r\n0\r\n\r\n");
    assert!(ChunkedBody::decode(&encoded).is_none());
    let mut encoded = b"10000\r\n".to_vec();
    encoded.extend(std::iter::repeat(b'a').take(0x10000));
    encoded.extend_from_slice(b"\r\n0\r\n\r\n");
    match ChunkedBody::decode(&encoded) {
        Some(ChunkedBody::Complete(b)) => assert_eq!(b.len(), 65536),
        _ => panic!("expected a complete body"),
    }
}

#[test]
fn realm_forms() {
    assert_eq!(auth_realm("Basic realm=admin").as_deref(), Some("admin"));
    assert_eq!(auth_realm("Basic REALM = \"My Box\" , x").as_deref(), Some("My Box"));
    assert_eq!(auth_realm("Digest nonce=1, realm=\"b\"").as_deref(), Some("b"));
    assert_eq!(auth_realm("Digest xrealm=\"a\", realm=\"b\"").as_deref(), Some("b"));
    assert_eq!(auth_realm("Basic realm \"a\""), None);
    assert_eq!(auth_realm("Basic realm=\"open"), None);
    assert_eq!(auth_realm("Basic realm=   "), None);
}

#[test]
fn antminer_realm_must_match_exactly_or_as_prefix() {
    let ok = classify_antminer_auth_challenge(addr(80), "/", 401, Some("Basic realm=\"ANTMINER\""));
    let m = ok.unwrap();
    assert_eq!(
        m.evidence,
        vec![
            "source=http/".to_string(),
            "status=401".to_string(),
            "match=antminer-auth-realm".to_string(),
            "auth-realm=ANTMINER".to_string(),
        ]
    );
    assert!(classify_antminer_auth_challenge(addr(80), "/", 401, Some("Basic realm=\"antminerx\"")).is_none());
    assert!(classify_antminer_auth_challenge(addr(80), "/", 401, None).is_none());
}

#[test]
fn payload_evidence_layout() {
    let body = "x".repeat(300) + " avalon";
    let m = classify_http_payload(addr(80), "/api/v1/info", body).unwrap();
    assert_eq!(m.family, MinerFamily::Avalon);
    assert_eq!(m.evidence.len(), 3);
    assert_eq!(m.evidence[0], "source=http/api/v1/info");
    assert_eq!(m.evidence[1], "match=avalon");
    assert_eq!(m.evidence[2], "x".repeat(220));
    assert!(classify_http_payload(addr(80), "/", "hello".to_string()).is_none());
}

fn read_all(fetch: &mut HttpFetch, parts: &[&[u8]]) -> FetchStep {
    let mut last = FetchStep::ReadMore;
    for p in parts {
        last = fetch.step(Some(p));
        if !matches!(last, FetchStep::ReadMore) {
            return last;
        }
    }
    last
}

#[test]
fn fetch_with_content_length() {
    let mut f = HttpFetch::new();
    let step = read_all(&mut f, &[b"HTTP/1.1 200 OK\r\nContent-", b"Length: 5\r\n\r\nhel", b"loEXTRA"]);
    match step {
        FetchStep::Done(b) => {
            assert_eq!(b.body, "hello");
            assert!(b.keep_alive);
            assert_eq!(b.status_code, 200);
        },
        _ => panic!("expected a response"),
    }
}

#[test]
fn fetch_chunked_and_lossy_text() {
    let mut f = HttpFetch::new();
    let step = read_all(&mut f, &[b"HTTP/1.1 200 OK\r\nTransfer-Encoding: chunked\r\n\r\n3\r\na\xffb\r\n", b"0\r\n\r\n"]);
    match step {
        FetchStep::Done(b) => assert_eq!(b.body, "a\u{FFFD}b"),
        _ => panic!("expected a response"),
    }
}

#[test]
fn fetch_until_close_is_not_reusable() {
    let mut f = HttpFetch::new();
    assert!(matches!(f.step(Some(b"HTTP/1.1 200 OK\r\n\r\nabc")), FetchStep::ReadMore));
    assert!(matches!(f.step(Some(b"def")), FetchStep::ReadMore));
    match f.step(Some(b"")) {
        FetchStep::Done(b) => {
            assert_eq!(b.body, "abcdef");
            assert!(!b.keep_alive);
        },
        _ => panic!("expected a response"),
    }
}

#[test]
fn fetch_failures() {
    let mut f = HttpFetch::new();
    assert!(matches!(f.step(None), FetchStep::Failed));
    let mut f = HttpFetch::new();
    assert!(matches!(f.step(Some(b"HTTP/1.1 200")), FetchStep::ReadMore));
    assert!(matches!(f.step(Some(b"")), FetchStep::Failed));
    let mut f = HttpFetch::new();
    assert!(matches!(f.step(Some(b"SSH-2.0\r\n\r\n")), FetchStep::Failed));
    let mut f = HttpFetch::new();
    assert!(matches!(f.step(Some(b"HTTP/1.1 200 OK\r\nContent-Length: 70000\r\n\r\n")), FetchStep::Failed));
    let mut f = HttpFetch::new();
    let big = vec![b'a'; 16384];
    assert!(matches!(f.step(Some(&big)), FetchStep::Failed));
}

#[test]
fn request_text() {
    assert_eq!(
        http_request(endpoint_at(0), "10.0.0.1"),
        "GET /api/system/info HTTP/1.1\r\nHost: 10.0.0.1\r\nConnection: keep-alive\r\n\r\n"
    );
    assert_eq!(endpoint_at(1), "/cgi-bin/get_system_info.cgi");
    assert_eq!(endpoint_at(2), "/api/v1/info");
    assert_eq!(endpoint_at(3), "/");
}

#[test]
fn http_probe_moves_on_while_kept_alive() {
    let (mut p, first) = HttpProbe::new(IpAddress::V4([10, 0, 0, 9]), "10.0.0.9".to_string());
    assert!(matches!(first, ProbeAction::Connect(a) if a.port == 80));
    match p.step(ProbeEvent::Connected) {
        ProbeAction::Send(r) => assert!(r.starts_with("GET /api/system/info ")),
        _ => panic!("expected a request"),
    }
    assert!(matches!(p.step(ProbeEvent::Sent), ProbeAction::Read(1024)));
    match p.step(ProbeEvent::Received(b"HTTP/1.1 404 Not Found\r\nContent-Length: 0\r\n\r\n".to_vec())) {
        ProbeAction::Send(r) => assert!(r.starts_with("GET /cgi-bin/get_system_info.cgi ")),
        _ => panic!("expected the next request"),
    }
    // A failed request moves on too.
    match p.step(ProbeEvent::SendFailed) {
        ProbeAction::Send(r) => assert!(r.starts_with("GET /api/v1/info ")),
        _ => panic!("expected the next request"),
    }
    assert!(matches!(p.step(ProbeEvent::Sent), ProbeAction::Read(_)));
    match p.step(ProbeEvent::Received(
        b"HTTP/1.1 200 OK\r\nContent-Length: 6\r\n\r\navalon".to_vec(),
    )) {
        ProbeAction::Finish(Some(m)) => {
            assert_eq!(m.family, MinerFamily::Avalon);
            assert_eq!(m.addr.port, 80);
            assert_eq!(m.evidence[0], "source=http/api/v1/info");
        },
        _ => panic!("expected a detection"),
    }
    assert!(p.is_finished());
}

#[test]
fn http_probe_stops_on_closed_connection() {
    let (mut p, _) = HttpProbe::new(IpAddress::V4([10, 0, 0, 9]), "10.0.0.9".to_string());
    p.step(ProbeEvent::Connected);
    p.step(ProbeEvent::Sent);
    let a = p.step(ProbeEvent::Received(b"HTTP/1.0 200 OK\r\nContent-Length: 2\r\n\r\nhi".to_vec()));
    assert!(matches!(a, ProbeAction::Finish(None)));
    let (mut p, _) = HttpProbe::new(IpAddress::V4([10, 0, 0, 9]), "10.0.0.9".to_string());
    assert!(matches!(p.step(ProbeEvent::ConnectFailed), ProbeAction::Finish(None)));
}

#[test]
fn http_probe_reports_antminer_challenge() {
    let (mut p, _) = HttpProbe::new(IpAddress::V4([10, 0, 0, 9]), "10.0.0.9".to_string());
    p.step(ProbeEvent::Connected);
    p.step(ProbeEvent::Sent);
    let a = p.step(ProbeEvent::Received(
        b"HTTP/1.1 401 Unauthorized\r\nWWW-Authenticate: Digest realm=\"antMiner Configuration\"\r\nContent-Length: 0\r\n\r\n".to_vec(),
    ));
    match a {
        ProbeAction::Finish(Some(m)) => {
            assert_eq!(m.family, MinerFamily::Antminer);
            assert_eq!(m.confidence, 90);
            assert_eq!(m.evidence[0], "source=http/api/system/info");
        },
        _ => panic!("expected a detection"),
    }
}

#[test]
fn one_chunk_round_trips_and_prefixes_are_incomplete() {
    let chunk: Vec<u8> = (0..300u32).map(|i| (i % 251) as u8).collect();
    let mut encoded = format!("{:x}\r\n", chunk.len()).into_bytes();
    encoded.extend_from_slice(&chunk);
    encoded.extend_from_slice(b"\r\n0\r\n\r\n");
    match ChunkedBody::decode(&encoded) {
        Some(ChunkedBody::Complete(body)) => assert_eq!(body, chunk),
        _ => panic!("expected a complete body"),
    }
    for n in 0..encoded.len() {
        assert!(matches!(ChunkedBody::decode(&encoded[..n]), Some(ChunkedBody::Incomplete)));
    }
}
