use miner_scanner::detection::{detect, DetectionSource};
use miner_scanner::MinerFamily;

#[test]
fn detect_bitaxe_from_http_api_payload() {
    let detected = detect(
        DetectionSource::Http {
            endpoint: "/api/system/info",
        },
        r#"{"hostname":"bitaxe","asicModel":"Bitaxe Supra","version":"esp-miner 2.5"}"#,
    )
    .expect("expected bitaxe detection");

    assert_eq!(detected.family, MinerFamily::Bitaxe);
    assert!(detected.confidence >= 90);
}

#[test]
fn detect_whatsminer_over_bmminer_hint() {
    let detected = detect(
        DetectionSource::CGMinerApi,
        r#"STATUS=S,Code=11|VERSION=BMMiner/2.0.0,PROD=WhatsMiner M30S++"#,
    )
    .expect("expected whatsminer detection");

    assert_eq!(detected.family, MinerFamily::Whatsminer);
}

#[test]
fn detect_generic_cgminer_from_4028_shape() {
    let detected = detect(
        DetectionSource::CGMinerApi,
        r#"STATUS=S,When=1711111111,Code=11,Msg=Summary|VERSION=CGMiner 4.12.0"#,
    )
    .expect("expected cgminer detection");

    assert_eq!(detected.family, MinerFamily::CGMinerCompatible);
}

#[test]
fn detect_bitaxe_from_asic_model_only() {
    let detected = detect(
        DetectionSource::Http {
            endpoint: "/api/system/info",
        },
        r#"{"asicModel":"BM1368","hostname":"miner"}"#,
    )
    .expect("expected bitaxe detection");

    assert_eq!(detected.family, MinerFamily::Bitaxe);
}

#[test]
fn bm1397_needs_bitaxe_context() {
    let detected = detect(
        DetectionSource::Http {
            endpoint: "/api/system/info",
        },
        r#"{"asicModel":"BM1397"}"#,
    )
    .expect("expected bitaxe detection");

    assert_eq!(detected.family, MinerFamily::Bitaxe);
}

#[test]
fn reject_ambiguous_payload() {
    let detected = detect(
        DetectionSource::Http { endpoint: "/" },
        "antminer whatsminer",
    );

    assert!(detected.is_none());
}
