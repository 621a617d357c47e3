//! Clues for Bitmain Antminer devices.
use vstd::prelude::*;

use crate::detection::{
    award_if, is_http_endpoint, no_score, source_is_endpoint, DetectionSource, FamilyScore,
    ScoreView,
};
use crate::miner::MinerFamily;
use crate::text::{chars_of, contains, contains_chars};

verus! {

/// The Antminer score of a lower-cased response text.
pub open spec fn antminer_score(source: DetectionSource, text: Seq<char>) -> ScoreView {
    let s = no_score(MinerFamily::Antminer);
    let s = award_if(s, contains(text, "antminer"@), 70, "antminer"@);
    let s = award_if(s, contains(text, "bmminer"@), 15, "bmminer"@);
    let s = award_if(s, contains(text, "xilinx bm"@), 24, "xilinx-bm"@);
    let s = award_if(s, contains(text, "\"minertype\""@), 18, "minertype"@);
    award_if(
        s,
        is_http_endpoint(source, "/cgi-bin/get_system_info.cgi"@) && contains(
            text,
            "\"minertype\""@,
        ),
        10,
        "antminer-cgi-shape"@,
    )
}

/// Scores a lower-cased response text for the Antminer family.
pub fn score(source: DetectionSource, text: &str) -> (r: FamilyScore)
    ensures
        r@ == antminer_score(source, text@),
{
    let chars = chars_of(text);
    let mut score: FamilyScore = FamilyScore::new(MinerFamily::Antminer);
    score.add_if_contains(text, "antminer", 70, "antminer");
    score.add_if_contains(text, "bmminer", 15, "bmminer");
    score.add_if_contains(text, "xilinx bm", 24, "xilinx-bm");
    score.add_if_contains(text, "\"minertype\"", 18, "minertype");
    if source_is_endpoint(source, "/cgi-bin/get_system_info.cgi") && contains_chars(
        &chars,
        &chars_of("\"minertype\""),
    ) {
        score.add(10, "antminer-cgi-shape");
    }
    score
}

/// From any source, a text that names "antminer" earns the Antminer family at
/// least 70 points and lists that clue, and one that also names "bmminer" at
/// least 85. Outside the Antminer CGI endpoint, where the source is does not
/// change the score.
pub proof fn lemma_antminer_clues(source: DetectionSource, other: DetectionSource, text: Seq<char>)
    ensures
        contains(text, "antminer"@) ==> antminer_score(source, text).points >= 70
            && antminer_score(source, text).reasons.contains("antminer"@),
        contains(text, "antminer"@) && contains(text, "bmminer"@) ==> antminer_score(
            source,
            text,
        ).points >= 85,
        !is_http_endpoint(source, "/cgi-bin/get_system_info.cgi"@) && !is_http_endpoint(
            other,
            "/cgi-bin/get_system_info.cgi"@,
        ) ==> antminer_score(source, text) == antminer_score(other, text),
{
    if contains(text, "antminer"@) {
        assert(antminer_score(source, text).reasons[0] == "antminer"@);
    }
}

} // verus!
