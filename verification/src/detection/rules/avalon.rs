//! Clues for Canaan Avalon devices.
use vstd::prelude::*;

use crate::detection::{award_if, no_score, DetectionSource, FamilyScore, ScoreView};
use crate::miner::MinerFamily;
use crate::text::contains;

verus! {

/// The Avalon score of a lower-cased response text; the source plays no part.
pub open spec fn avalon_score(source: DetectionSource, text: Seq<char>) -> ScoreView {
    let s = no_score(MinerFamily::Avalon);
    let s = award_if(s, contains(text, "avalon"@), 70, "avalon"@);
    let s = award_if(s, contains(text, "canaan"@), 34, "canaan"@);
    award_if(s, contains(text, "avalonminer"@), 18, "avalonminer"@)
}

/// Scores a lower-cased response text for the Avalon family.
pub fn score(source: DetectionSource, text: &str) -> (r: FamilyScore)
    ensures
        r@ == avalon_score(source, text@),
{
    let mut score: FamilyScore = FamilyScore::new(MinerFamily::Avalon);
    score.add_if_contains(text, "avalon", 70, "avalon");
    score.add_if_contains(text, "canaan", 34, "canaan");
    score.add_if_contains(text, "avalonminer", 18, "avalonminer");
    score
}

/// A text that names "avalon" earns the Avalon family at least 70 points and
/// lists that clue, and one that also names "canaan" at least 104; the score
/// does not depend on the source.
pub proof fn lemma_avalon_clues(source: DetectionSource, other: DetectionSource, text: Seq<char>)
    ensures
        contains(text, "avalon"@) ==> avalon_score(source, text).points >= 70
            && avalon_score(source, text).reasons.contains("avalon"@),
        contains(text, "avalon"@) && contains(text, "canaan"@) ==> avalon_score(
            source,
            text,
        ).points >= 104,
        avalon_score(source, text) == avalon_score(other, text),
{
    if contains(text, "avalon"@) {
        assert(avalon_score(source, text).reasons[0] == "avalon"@);
    }
}

} // verus!
