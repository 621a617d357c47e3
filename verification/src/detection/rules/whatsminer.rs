//! Clues for MicroBT Whatsminer devices.
use vstd::prelude::*;

use crate::detection::{award_if, no_score, DetectionSource, FamilyScore, ScoreView};
use crate::miner::MinerFamily;
use crate::text::{chars_of, contains, contains_chars};

verus! {

/// The Whatsminer score of a lower-cased response text.
pub open spec fn whatsminer_score(source: DetectionSource, text: Seq<char>) -> ScoreView {
    let s = no_score(MinerFamily::Whatsminer);
    let s = award_if(s, contains(text, "whatsminer"@), 70, "whatsminer"@);
    let s = award_if(s, contains(text, "microbt"@), 34, "microbt"@);
    let s = award_if(s, contains(text, "prod=whatsminer"@), 18, "prod-whatsminer"@);
    award_if(
        s,
        source is CGMinerApi && contains(text, "prod=whatsminer"@),
        8,
        "whatsminer-cgm-shape"@,
    )
}

/// Scores a lower-cased response text for the Whatsminer family.
pub fn score(source: DetectionSource, text: &str) -> (r: FamilyScore)
    ensures
        r@ == whatsminer_score(source, text@),
{
    let chars = chars_of(text);
    let mut score: FamilyScore = FamilyScore::new(MinerFamily::Whatsminer);
    score.add_if_contains(text, "whatsminer", 70, "whatsminer");
    score.add_if_contains(text, "microbt", 34, "microbt");
    score.add_if_contains(text, "prod=whatsminer", 18, "prod-whatsminer");
    let api = match source {
        DetectionSource::CGMinerApi => true,
        DetectionSource::Http { .. } => false,
    };
    if api && contains_chars(&chars, &chars_of("prod=whatsminer")) {
        score.add(8, "whatsminer-cgm-shape");
    }
    score
}

/// From any source, a text that names "whatsminer" earns the Whatsminer
/// family at least 70 points and lists that clue, and one that also names
/// "microbt" at least 104. Every HTTP response is scored alike.
pub proof fn lemma_whatsminer_clues(source: DetectionSource, other: DetectionSource, text: Seq<char>)
    ensures
        contains(text, "whatsminer"@) ==> whatsminer_score(source, text).points >= 70
            && whatsminer_score(source, text).reasons.contains("whatsminer"@),
        contains(text, "whatsminer"@) && contains(text, "microbt"@) ==> whatsminer_score(
            source,
            text,
        ).points >= 104,
        source is Http && other is Http ==> whatsminer_score(source, text) == whatsminer_score(
            other,
            text,
        ),
{
    if contains(text, "whatsminer"@) {
        assert(whatsminer_score(source, text).reasons[0] == "whatsminer"@);
    }
}

} // verus!
