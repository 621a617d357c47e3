//! Clues for generic CGMiner-compatible devices.
use vstd::prelude::*;

use crate::detection::{award_if, no_score, DetectionSource, FamilyScore, ScoreView};
use crate::miner::MinerFamily;
use crate::text::{chars_of, contains, contains_chars};

verus! {

/// The CGMiner-compatible score of a lower-cased response text.
pub open spec fn cgminer_score(source: DetectionSource, text: Seq<char>) -> ScoreView {
    let s = no_score(MinerFamily::CGMinerCompatible);
    let s = award_if(s, contains(text, "cgminer"@), 42, "cgminer"@);
    award_if(
        s,
        source is CGMinerApi && contains(text, "status="@) && contains(text, "version="@),
        12,
        "cgm-api-shape"@,
    )
}

/// Scores a lower-cased response text for the CGMiner-compatible family.
pub fn score(source: DetectionSource, text: &str) -> (r: FamilyScore)
    ensures
        r@ == cgminer_score(source, text@),
{
    let chars = chars_of(text);
    let mut score: FamilyScore = FamilyScore::new(MinerFamily::CGMinerCompatible);
    score.add_if_contains(text, "cgminer", 42, "cgminer");
    let api = match source {
        DetectionSource::CGMinerApi => true,
        DetectionSource::Http { .. } => false,
    };
    if api && contains_chars(&chars, &chars_of("status=")) && contains_chars(
        &chars,
        &chars_of("version="),
    ) {
        score.add(12, "cgm-api-shape");
    }
    score
}

/// From any source, a text that names "cgminer" earns the CGMiner-compatible
/// family at least 42 points and lists that clue. Every HTTP response is
/// scored alike.
pub proof fn lemma_cgminer_clues(source: DetectionSource, other: DetectionSource, text: Seq<char>)
    ensures
        contains(text, "cgminer"@) ==> cgminer_score(source, text).points >= 42
            && cgminer_score(source, text).reasons.contains("cgminer"@),
        source is Http && other is Http ==> cgminer_score(source, text) == cgminer_score(
            other,
            text,
        ),
{
    if contains(text, "cgminer"@) {
        assert(cgminer_score(source, text).reasons[0] == "cgminer"@);
    }
}

} // verus!
