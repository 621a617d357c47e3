//! Clues for Bitaxe devices (AxeOS / ESP-Miner firmware).
use vstd::prelude::*;

use crate::detection::{
    award_if, is_http_endpoint, no_score, source_is_endpoint, DetectionSource, FamilyScore,
    ScoreView,
};
use crate::miner::MinerFamily;
use crate::text::{chars_of, contains, contains_chars};

verus! {

/// The response mentions one of the ASIC chips that Bitaxe boards carry.
pub open spec fn mentions_bitaxe_asic(text: Seq<char>) -> bool {
    contains(text, "bm1366"@) || contains(text, "bm1368"@) || contains(text, "bm1370"@)
        || contains(text, "bm1397"@)
}

/// The Bitaxe score of a lower-cased response text.
pub open spec fn bitaxe_score(source: DetectionSource, text: Seq<char>) -> ScoreView {
    let api = is_http_endpoint(source, "/api/system/info"@);
    let s = no_score(MinerFamily::Bitaxe);
    let s = award_if(s, contains(text, "bitaxe"@), 70, "bitaxe"@);
    let s = award_if(s, contains(text, "axeos"@), 18, "axeos"@);
    let s = award_if(s, contains(text, "esp-miner"@), 28, "esp-miner"@);
    let s = award_if(s, contains(text, "\"asicmodel\""@), 18, "asicmodel"@);
    let s = award_if(s, contains(text, "\"asic_model\""@), 18, "asic_model"@);
    let s = award_if(s, contains(text, "bm1366"@), 32, "bm1366"@);
    let s = award_if(s, contains(text, "bm1368"@), 32, "bm1368"@);
    let s = award_if(s, contains(text, "bm1370"@), 32, "bm1370"@);
    let s = award_if(s, contains(text, "bm1397"@), 16, "bm1397"@);
    let s = award_if(
        s,
        api && (contains(text, "\"asicmodel\""@) || contains(text, "\"asic_model\""@)),
        12,
        "bitaxe-api-shape"@,
    );
    award_if(s, api && mentions_bitaxe_asic(text), 10, "bitaxe-asic-model"@)
}

/// Scores a lower-cased response text for the Bitaxe family.
pub fn score(source: DetectionSource, text: &str) -> (r: FamilyScore)
    ensures
        r@ == bitaxe_score(source, text@),
{
    let chars = chars_of(text);
    let mut score: FamilyScore = FamilyScore::new(MinerFamily::Bitaxe);
    score.add_if_contains(text, "bitaxe", 70, "bitaxe");
    score.add_if_contains(text, "axeos", 18, "axeos");
    score.add_if_contains(text, "esp-miner", 28, "esp-miner");
    score.add_if_contains(text, "\"asicmodel\"", 18, "asicmodel");
    score.add_if_contains(text, "\"asic_model\"", 18, "asic_model");
    score.add_if_contains(text, "bm1366", 32, "bm1366");
    score.add_if_contains(text, "bm1368", 32, "bm1368");
    score.add_if_contains(text, "bm1370", 32, "bm1370");
    score.add_if_contains(text, "bm1397", 16, "bm1397");
    let api = source_is_endpoint(source, "/api/system/info");
    if api && (contains_chars(&chars, &chars_of("\"asicmodel\"")) || contains_chars(
        &chars,
        &chars_of("\"asic_model\""),
    )) {
        score.add(12, "bitaxe-api-shape");
    }
    if api && (contains_chars(&chars, &chars_of("bm1366")) || contains_chars(
        &chars,
        &chars_of("bm1368"),
    ) || contains_chars(&chars, &chars_of("bm1370")) || contains_chars(
        &chars,
        &chars_of("bm1397"),
    )) {
        score.add(10, "bitaxe-asic-model");
    }
    score
}

/// From any source, a text that names "bitaxe" earns the Bitaxe family at
/// least 70 points and lists that clue. Outside the `/api/system/info`
/// endpoint, where the source is does not change the score.
pub proof fn lemma_bitaxe_clues(source: DetectionSource, other: DetectionSource, text: Seq<char>)
    ensures
        contains(text, "bitaxe"@) ==> bitaxe_score(source, text).points >= 70
            && bitaxe_score(source, text).reasons.contains("bitaxe"@),
        !is_http_endpoint(source, "/api/system/info"@) && !is_http_endpoint(
            other,
            "/api/system/info"@,
        ) ==> bitaxe_score(source, text) == bitaxe_score(other, text),
{
    if contains(text, "bitaxe"@) {
        assert(bitaxe_score(source, text).reasons[0] == "bitaxe"@);
    }
}

} // verus!
