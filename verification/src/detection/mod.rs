//! Classification of a response text into a miner family.
//!
//! Each family has a rule (under `rules/`) that awards points for clues found
//! in the ASCII-lower-cased text. The family with the most points wins when it
//! reaches the minimum score and leads every other family by the ambiguity
//! margin.
use vstd::prelude::*;

pub mod rules;

use crate::miner::MinerFamily;
use crate::text::{
    ascii_lowercase, chars_equal, chars_of, concat, contains, contains_chars, lowercase_chars,
    string_from,
};

verus! {

/// The least number of points a family needs to be reported.
pub const MIN_DETECTION_SCORE: u8 = 40;

/// The least lead the winning family needs over the runner-up.
pub const AMBIGUITY_MARGIN: u8 = 10;

/// Where a response text came from.
#[derive(Debug, Clone, Copy)]
pub enum DetectionSource<'a> {
    /// An HTTP response to a request for `endpoint`.
    Http { endpoint: &'a str },
    /// A reply on the CGMiner API port.
    CGMinerApi,
}

/// The source is an HTTP response for exactly this endpoint.
pub open spec fn is_http_endpoint(source: DetectionSource, endpoint: Seq<char>) -> bool {
    match source {
        DetectionSource::Http { endpoint: e } => e@ == endpoint,
        DetectionSource::CGMinerApi => false,
    }
}

/// Whether the source is an HTTP response for exactly this endpoint.
pub fn source_is_endpoint(source: DetectionSource, endpoint: &str) -> (r: bool)
    ensures
        r == is_http_endpoint(source, endpoint@),
{
    match source {
        DetectionSource::Http { endpoint: e } => {
            let a = chars_of(e);
            let b = chars_of(endpoint);
            chars_equal(&a, &b)
        },
        DetectionSource::CGMinerApi => false,
    }
}

/// A classification: the family, its confidence and the reasons for it.
#[derive(Debug, Clone)]
pub struct MinerMatch {
    pub family: MinerFamily,
    pub confidence: u8,
    pub evidence: Vec<String>,
}

/// The points a family has collected and the names of the clues found.
pub struct ScoreView {
    pub family: MinerFamily,
    pub points: u8,
    pub reasons: Seq<Seq<char>>,
}

/// `a + b`, or 255 where that does not fit in a `u8`.
pub open spec fn sat_add(a: u8, b: u8) -> u8 {
    if a + b > 255 {
        255
    } else {
        (a + b) as u8
    }
}

/// `a - b`, or 0 where that is negative.
pub open spec fn sat_sub(a: u8, b: u8) -> u8 {
    if a < b {
        0
    } else {
        (a - b) as u8
    }
}

/// No points and no clues yet.
pub open spec fn no_score(family: MinerFamily) -> ScoreView {
    ScoreView { family, points: 0, reasons: Seq::empty() }
}

/// Awards `points` for the clue `reason`.
pub open spec fn award(s: ScoreView, points: u8, reason: Seq<char>) -> ScoreView {
    ScoreView { family: s.family, points: sat_add(s.points, points), reasons: s.reasons.push(reason) }
}

/// Awards `points` for the clue `reason` when `found` holds.
pub open spec fn award_if(s: ScoreView, found: bool, points: u8, reason: Seq<char>) -> ScoreView {
    if found {
        award(s, points, reason)
    } else {
        s
    }
}

/// The running score of one family.
#[derive(Debug, Clone)]
pub struct FamilyScore {
    pub family: MinerFamily,
    pub points: u8,
    pub reasons: Vec<&'static str>,
}

impl View for FamilyScore {
    type V = ScoreView;

    open spec fn view(&self) -> ScoreView {
        ScoreView {
            family: self.family,
            points: self.points,
            reasons: self.reasons@.map_values(|r: &'static str| r@),
        }
    }
}

impl FamilyScore {
    pub fn new(family: MinerFamily) -> (r: Self)
        ensures
            r@ == no_score(family),
    {
        let r = FamilyScore { family, points: 0, reasons: Vec::new() };
        proof {
            assert(r@.reasons =~= Seq::<Seq<char>>::empty());
        }
        r
    }

    pub fn add(&mut self, points: u8, reason: &'static str)
        ensures
            final(self)@ == award(old(self)@, points, reason@),
    {
        self.points = if self.points as u16 + points as u16 > 255 {
            255
        } else {
            self.points + points
        };
        let ghost before = self.reasons@;
        self.reasons.push(reason);
        proof {
            assert(self.reasons@.map_values(|r: &'static str| r@) =~= before.map_values(
                |r: &'static str| r@,
            ).push(reason@));
        }
    }

    pub fn add_if_contains(
        &mut self,
        haystack: &str,
        needle: &str,
        points: u8,
        reason: &'static str,
    )
        ensures
            final(self)@ == award_if(old(self)@, contains(haystack@, needle@), points, reason@),
    {
        let h = chars_of(haystack);
        let n = chars_of(needle);
        if contains_chars(&h, &n) {
            self.add(points, reason);
        }
    }
}

/// The scores of the families, in the order in which ties are broken.
pub open spec fn family_scores(source: DetectionSource, lower: Seq<char>) -> Seq<ScoreView> {
    seq![
        rules::bitaxe::bitaxe_score(source, lower),
        rules::antminer::antminer_score(source, lower),
        rules::whatsminer::whatsminer_score(source, lower),
        rules::avalon::avalon_score(source, lower),
        rules::cgminer::cgminer_score(source, lower),
    ]
}

/// The position of the first of the highest scores among the first `n`.
pub open spec fn leader_upto(s: Seq<ScoreView>, n: int) -> int
    decreases n,
{
    if n <= 1 {
        0
    } else {
        let k = leader_upto(s, n - 1);
        if s[n - 1].points > s[k].points {
            n - 1
        } else {
            k
        }
    }
}

/// The position of the leading score: the highest, and the first such.
pub open spec fn leader(s: Seq<ScoreView>) -> int {
    leader_upto(s, s.len() as int)
}

/// The highest points among the first `n` scores other than the one at `skip`.
pub open spec fn best_other_upto(s: Seq<ScoreView>, skip: int, n: int) -> u8
    decreases n,
{
    if n <= 0 {
        0
    } else {
        let m = best_other_upto(s, skip, n - 1);
        if n - 1 != skip && s[n - 1].points > m {
            s[n - 1].points
        } else {
            m
        }
    }
}

/// The points of the runner-up: the highest among all but the leader.
pub open spec fn runner_up_points(s: Seq<ScoreView>) -> u8 {
    best_other_upto(s, leader(s), s.len() as int)
}

/// The confidence reported for a score: the points, less 8 for a response to
/// the generic root page.
pub open spec fn adjusted_confidence(source: DetectionSource, score: u8) -> u8 {
    if is_http_endpoint(source, "/"@) {
        sat_sub(score, 8)
    } else {
        score
    }
}

/// A classification seen as plain values.
pub struct MatchView {
    pub family: MinerFamily,
    pub confidence: u8,
    pub evidence: Seq<Seq<char>>,
}

impl View for MinerMatch {
    type V = MatchView;

    open spec fn view(&self) -> MatchView {
        MatchView { family: self.family, confidence: self.confidence, evidence: self.evidence.deep_view() }
    }
}

/// The evidence line for one clue.
pub open spec fn match_line(reason: Seq<char>) -> Seq<char> {
    "match="@ + reason
}

/// What `detect` reports for a response text.
pub open spec fn detection(source: DetectionSource, text: Seq<char>) -> Option<MatchView> {
    let scores = family_scores(source, ascii_lowercase(text));
    let best = scores[leader(scores)];
    let runner_up = runner_up_points(scores);
    if best.points < MIN_DETECTION_SCORE {
        None
    } else if best.points < sat_add(runner_up, AMBIGUITY_MARGIN) {
        None
    } else {
        Some(
            MatchView {
                family: best.family,
                confidence: adjusted_confidence(source, best.points),
                evidence: best.reasons.map_values(|r: Seq<char>| match_line(r)),
            },
        )
    }
}

/// The confidence for a score from this source.
pub fn adjust_confidence(source: DetectionSource, score: u8) -> (r: u8)
    ensures
        r == adjusted_confidence(source, score),
{
    if source_is_endpoint(source, "/") {
        if score < 8 {
            0
        } else {
            score - 8
        }
    } else {
        score
    }
}

/// The evidence lines for the clues of a score.
fn evidence_lines(reasons: &Vec<&'static str>) -> (out: Vec<String>)
    ensures
        out.deep_view() == reasons@.map_values(|r: &'static str| r@).map_values(
            |r: Seq<char>| match_line(r),
        ),
{
    let prefix = chars_of("match=");
    let mut out: Vec<String> = Vec::new();
    let mut i: usize = 0;
    while i < reasons.len()
        invariant
            i <= reasons.len(),
            prefix@ == "match="@,
            out@.len() == i,
            forall|k: int| 0 <= k < i ==> #[trigger] out@[k]@ == match_line(reasons@[k]@),
        decreases reasons.len() - i,
    {
        let r = chars_of(reasons[i]);
        let line = concat(&prefix, &r);
        out.push(string_from(&line));
        i = i + 1;
    }
    proof {
        assert(out.deep_view() =~= reasons@.map_values(|r: &'static str| r@).map_values(
            |r: Seq<char>| match_line(r),
        ));
    }
    out
}

/// Classifies a response text, or returns `None` when no family reaches the
/// minimum score or the leader is not far enough ahead of the runner-up.
pub fn detect(source: DetectionSource, text: &str) -> (r: Option<MinerMatch>)
    ensures
        r matches Some(m) ==> detection(source, text@) == Some(m@),
        r is None ==> detection(source, text@) is None,
{
    let lower = string_from(&lowercase_chars(&chars_of(text)));
    let lower = lower.as_str();
    let mut scores: Vec<FamilyScore> = Vec::new();
    scores.push(rules::bitaxe::score(source, lower));
    scores.push(rules::antminer::score(source, lower));
    scores.push(rules::whatsminer::score(source, lower));
    scores.push(rules::avalon::score(source, lower));
    scores.push(rules::cgminer::score(source, lower));
    let ghost model = family_scores(source, lower@);
    proof {
        assert(scores@.map_values(|s: FamilyScore| s@) =~= model);
    }
    // The leader: the first of the highest scores.
    let mut best: usize = 0;
    let mut i: usize = 1;
    while i < scores.len()
        invariant
            1 <= i <= scores.len() == 5,
            scores@.map_values(|s: FamilyScore| s@) == model,
            best as int == leader_upto(model, i as int),
            best < i,
        decreases scores.len() - i,
    {
        assert(model[i as int] == scores@[i as int]@);
        assert(model[best as int] == scores@[best as int]@);
        if scores[i].points > scores[best].points {
            best = i;
        }
        i = i + 1;
    }
    // The runner-up: the highest score other than the leader.
    let mut runner_up: u8 = 0;
    let mut j: usize = 0;
    while j < scores.len()
        invariant
            j <= scores.len() == 5,
            scores@.map_values(|s: FamilyScore| s@) == model,
            best as int == leader(model),
            runner_up == best_other_upto(model, best as int, j as int),
        decreases scores.len() - j,
    {
        assert(model[j as int] == scores@[j as int]@);
        if j != best && scores[j].points > runner_up {
            runner_up = scores[j].points;
        }
        j = j + 1;
    }
    assert(model[best as int] == scores@[best as int]@);
    let leading = &scores[best];
    if leading.points < MIN_DETECTION_SCORE {
        return None;
    }
    let margin: u8 = if runner_up as u16 + AMBIGUITY_MARGIN as u16 > 255 {
        255
    } else {
        runner_up + AMBIGUITY_MARGIN
    };
    if leading.points < margin {
        return None;
    }
    let evidence = evidence_lines(&leading.reasons);
    let m = MinerMatch {
        family: leading.family,
        confidence: adjust_confidence(source, leading.points),
        evidence,
    };
    proof {
        assert(m@ == detection(source, text@).unwrap());
    }
    Some(m)
}

// ---------------------------------------------------------------------------
// Laws
// ---------------------------------------------------------------------------

proof fn lemma_leader_upto(s: Seq<ScoreView>, n: int)
    requires
        1 <= n <= s.len(),
    ensures
        0 <= leader_upto(s, n) < n,
        forall|j: int| 0 <= j < n ==> (#[trigger] s[j]).points <= s[leader_upto(s, n)].points,
        forall|j: int| 0 <= j < leader_upto(s, n) ==> (#[trigger] s[j]).points < s[leader_upto(s, n)].points,
    decreases n,
{
    if n > 1 {
        lemma_leader_upto(s, n - 1);
    }
}

proof fn lemma_best_other_upto(s: Seq<ScoreView>, skip: int, n: int)
    requires
        0 <= n <= s.len(),
    ensures
        forall|j: int| 0 <= j < n && j != skip ==> (#[trigger] s[j]).points <= best_other_upto(s, skip, n),
    decreases n,
{
    if n > 0 {
        lemma_best_other_upto(s, skip, n - 1);
    }
}

/// Detection looks at letters without their case: texts that agree once
/// ASCII letters are lower-cased are classified alike.
pub proof fn lemma_detection_ignores_case(source: DetectionSource, a: Seq<char>, b: Seq<char>)
    requires
        ascii_lowercase(a) == ascii_lowercase(b),
    ensures
        detection(source, a) == detection(source, b),
{
}

/// A reported family is the leader of the scores: it has at least the
/// minimum score, at least as many points as every family, more than every
/// family before it in the tie-breaking order, and (up to the `u8` ceiling)
/// a lead of the ambiguity margin over every other family. Its confidence
/// never exceeds its points.
pub proof fn lemma_detection_leads(source: DetectionSource, text: Seq<char>)
    ensures
        detection(source, text) matches Some(m) ==> {
            let scores = family_scores(source, ascii_lowercase(text));
            let k = leader(scores);
            &&& 0 <= k < scores.len()
            &&& m.family == scores[k].family
            &&& scores[k].points >= MIN_DETECTION_SCORE
            &&& m.confidence <= scores[k].points
            &&& forall|j: int| 0 <= j < scores.len() ==> (#[trigger] scores[j]).points <= scores[k].points
            &&& forall|j: int| 0 <= j < k ==> (#[trigger] scores[j]).points < scores[k].points
            &&& forall|j: int|
                0 <= j < scores.len() && j != k ==> scores[k].points >= sat_add(
                    (#[trigger] scores[j]).points,
                    AMBIGUITY_MARGIN,
                )
        },
{
    let scores = family_scores(source, ascii_lowercase(text));
    lemma_leader_upto(scores, 5);
    lemma_best_other_upto(scores, leader(scores), 5);
}

/// The scores come in a fixed order of families, which is the order in
/// which ties are broken.
pub proof fn lemma_family_order(source: DetectionSource, lower: Seq<char>)
    ensures
        family_scores(source, lower).len() == 5,
        family_scores(source, lower)[0].family == MinerFamily::Bitaxe,
        family_scores(source, lower)[1].family == MinerFamily::Antminer,
        family_scores(source, lower)[2].family == MinerFamily::Whatsminer,
        family_scores(source, lower)[3].family == MinerFamily::Avalon,
        family_scores(source, lower)[4].family == MinerFamily::CGMinerCompatible,
{
}

} // verus!
