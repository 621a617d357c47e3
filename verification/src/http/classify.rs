//! Classification of HTTP responses: the Antminer authentication challenge
//! and the detection rules applied to a response body.
use vstd::prelude::*;

use crate::detection::{detect, detection, DetectionSource};
use crate::miner::{capped, DiscoveredMiner, MinerFamily, MinerView, SocketAddress, MAX_CONFIDENCE};
use crate::text::{
    ascii_lowercase, ascii_space, ascii_words, chars_equal, chars_of, concat, find, find_chars,
    first_word_range, is_ascii_space, leading_ws_end, lemma_find, lowercase_chars, matches_at,
    split, split_once, starts_with, starts_with_chars, string_from, sub_chars, trim_start,
};
use crate::util::{truncate, truncated};

verus! {

/// How many characters of a response body the evidence keeps.
pub const EVIDENCE_BODY_CHARS: usize = 220;

/// The realm that one comma-separated parameter of a challenge names, if it
/// names one: the first `realm` (in any case) that starts the parameter or
/// follows ASCII whitespace, then `=`, then a quoted string or a bare word.
pub open spec fn parameter_realm(p: Seq<char>) -> Option<Seq<char>> {
    let lower = ascii_lowercase(p);
    match find(lower, "realm"@) {
        None => None,
        Some(i) => if i > 0 && !is_ascii_space(lower[i - 1]) {
            None
        } else {
            let after = trim_start(p.skip(i + 5));
            if after.len() == 0 || after[0] != '=' {
                None
            } else {
                let value = trim_start(after.drop_first());
                if value.len() > 0 && value[0] == '"' {
                    match split_once(value.drop_first(), "\""@) {
                        Some((realm, _)) => Some(realm),
                        None => None,
                    }
                } else {
                    let words = ascii_words(value);
                    if words.len() > 0 {
                        Some(words[0])
                    } else {
                        None
                    }
                }
            }
        },
    }
}

/// The realm of the first parameter that names one.
pub open spec fn first_realm(params: Seq<Seq<char>>) -> Option<Seq<char>>
    decreases params.len(),
{
    if params.len() == 0 {
        None
    } else {
        match parameter_realm(params[0]) {
            Some(r) => Some(r),
            None => first_realm(params.drop_first()),
        }
    }
}

/// The realm that a `WWW-Authenticate` challenge names.
pub open spec fn challenge_realm(challenge: Seq<char>) -> Option<Seq<char>> {
    first_realm(split(challenge, ","@))
}

/// Where, within the parameter, the realm that it names lies.
fn parameter_realm_range(p: &Vec<char>) -> (r: Option<(usize, usize)>)
    ensures
        r matches Some((a, b)) ==> a <= b <= p.len() && parameter_realm(p@) == Some(
            p@.subrange(a as int, b as int),
        ),
        r is None ==> parameter_realm(p@) is None,
{
    let lower = lowercase_chars(p);
    let word = chars_of("realm");
    proof {
        reveal_strlit("realm");
    }
    let i = match find_chars(&lower, &word) {
        Some(i) => i,
        None => return None,
    };
    proof {
        lemma_find(lower@, word@);
        assert(matches_at(lower@, word@, i as int));
    }
    if i > 0 && !ascii_space(lower[i - 1]) {
        return None;
    }
    let k0: usize = i + 5;
    let rest = sub_chars(p, k0, p.len());
    let w1 = leading_ws_end(&rest);
    let k1: usize = k0 + w1;
    proof {
        assert(trim_start(p@.skip(k0 as int)) =~= p@.skip(k1 as int));
    }
    if k1 >= p.len() || p[k1] != '=' {
        return None;
    }
    let k2: usize = k1 + 1;
    let tail = sub_chars(p, k2, p.len());
    let w2 = leading_ws_end(&tail);
    let k3: usize = k2 + w2;
    proof {
        assert(p@.skip(k1 as int).drop_first() =~= p@.skip(k2 as int));
        assert(trim_start(p@.skip(k2 as int)) =~= p@.skip(k3 as int));
    }
    if k3 < p.len() && p[k3] == '"' {
        let k4: usize = k3 + 1;
        let quoted = sub_chars(p, k4, p.len());
        proof {
            assert(p@.skip(k3 as int).drop_first() =~= p@.skip(k4 as int));
        }
        let quote = chars_of("\"");
        let found = find_chars(&quoted, &quote);
        proof {
            lemma_find(quoted@, quote@);
        }
        match found {
            Some(f) => {
                proof {
                    assert(matches_at(quoted@, quote@, f as int));
                    assert(quoted@.take(f as int) =~= p@.subrange(k4 as int, k4 + f));
                }
                Some((k4, k4 + f))
            },
            None => None,
        }
    } else {
        let value = sub_chars(p, k3, p.len());
        match first_word_range(&value) {
            Some((a, b)) => {
                proof {
                    assert(value@.subrange(a as int, b as int) =~= p@.subrange(k3 + a, k3 + b));
                }
                Some((k3 + a, k3 + b))
            },
            None => None,
        }
    }
}

/// The realm that a `WWW-Authenticate` challenge names, if any: a part of
/// the challenge.
pub fn auth_realm(challenge: &str) -> (r: Option<&str>)
    ensures
        r matches Some(s) ==> challenge_realm(challenge@) == Some(s@),
        r is None ==> challenge_realm(challenge@) is None,
{
    let cs = chars_of(challenge);
    let comma = chars_of(",");
    proof {
        reveal_strlit(",");
    }
    let mut rest = cs.clone();
    let mut c: usize = 0;
    loop
        invariant
            c <= cs.len(),
            cs@ == challenge@,
            comma@ == ","@,
            rest@ == cs@.skip(c as int),
            first_realm(split(cs@, ","@)) == first_realm(split(rest@, ","@)),
        decreases rest.len(),
    {
        let found = find_chars(&rest, &comma);
        proof {
            reveal_strlit(",");
            lemma_find(rest@, comma@);
        }
        let (piece_len, last) = match found {
            Some(j) => (j, false),
            None => (rest.len(), true),
        };
        proof {
            if !last {
                assert(matches_at(rest@, comma@, piece_len as int));
            }
        }
        let piece = sub_chars(&rest, 0, piece_len);
        let ghost tail_params: Seq<Seq<char>> = if last {
            Seq::empty()
        } else {
            split(rest@.skip(piece_len + 1), ","@)
        };
        proof {
            assert(piece@ =~= rest@.take(piece_len as int));
            if last {
                assert(split(rest@, ","@) == seq![rest@]);
                assert(piece@ =~= rest@);
            }
            assert(split(rest@, ","@) =~= seq![piece@] + tail_params);
            assert((seq![piece@] + tail_params)[0] == piece@);
            assert((seq![piece@] + tail_params).drop_first() =~= tail_params);
        }
        match parameter_realm_range(&piece) {
            Some((a, b)) => {
                proof {
                    assert(piece@.subrange(a as int, b as int) =~= challenge@.subrange(
                        c + a,
                        c + b,
                    ));
                }
                return Some(challenge.substring_char(c + a, c + b));
            },
            None => {},
        }
        if last {
            proof {
                assert(first_realm(tail_params) is None);
            }
            return None;
        }
        let next = sub_chars(&rest, piece_len + 1, rest.len());
        proof {
            assert(next@ =~= cs@.skip(c + piece_len + 1));
            assert(next@ =~= rest@.skip(piece_len + 1));
        }
        c = c + piece_len + 1;
        rest = next;
    }
}

/// The evidence line naming the HTTP endpoint that answered.
pub open spec fn http_source_line(endpoint: Seq<char>) -> Seq<char> {
    "source=http"@ + endpoint
}

/// The detection that a 401 answer with an Antminer realm gives.
pub open spec fn antminer_challenge_detection(
    addr: SocketAddress,
    endpoint: Seq<char>,
    status_code: u16,
    challenge: Option<Seq<char>>,
) -> Option<MinerView> {
    if status_code != 401 {
        None
    } else {
        match challenge {
            None => None,
            Some(c) => match challenge_realm(c) {
                None => None,
                Some(realm) => {
                    let normalized = ascii_lowercase(realm);
                    if normalized != "antminer"@ && !starts_with(normalized, "antminer "@) {
                        None
                    } else {
                        Some(
                            MinerView {
                                addr,
                                family: MinerFamily::Antminer,
                                confidence: 90,
                                evidence: seq![
                                    http_source_line(endpoint),
                                    "status=401"@,
                                    "match=antminer-auth-realm"@,
                                    "auth-realm="@ + realm,
                                ],
                            },
                        )
                    }
                },
            },
        }
    }
}

/// The content of an optional string slice.
pub open spec fn opt_str(s: Option<&str>) -> Option<Seq<char>> {
    match s {
        Some(t) => Some(t@),
        None => None,
    }
}

/// Classifies an `401 Unauthorized` answer whose challenge names an Antminer
/// realm (`antminer`, or `antminer ` followed by more, in any case).
pub fn classify_antminer_auth_challenge(
    addr: SocketAddress,
    endpoint: &str,
    status_code: u16,
    www_authenticate: Option<&str>,
) -> (r: Option<DiscoveredMiner>)
    ensures
        r matches Some(m) ==> antminer_challenge_detection(
            addr,
            endpoint@,
            status_code,
            opt_str(www_authenticate),
        ) == Some(m@),
        r is None ==> antminer_challenge_detection(
            addr,
            endpoint@,
            status_code,
            opt_str(www_authenticate),
        ) is None,
        r matches Some(m) ==> m.confidence <= MAX_CONFIDENCE,
{
    if status_code != 401 {
        return None;
    }
    let challenge = match www_authenticate {
        Some(c) => c,
        None => return None,
    };
    let realm = match auth_realm(challenge) {
        Some(r) => r,
        None => return None,
    };
    let realm_chars = chars_of(realm);
    let normalized = lowercase_chars(&realm_chars);
    if !chars_equal(&normalized, &chars_of("antminer")) && !starts_with_chars(
        &normalized,
        &chars_of("antminer "),
    ) {
        return None;
    }
    let mut evidence: Vec<String> = Vec::new();
    evidence.push(string_from(&concat(&chars_of("source=http"), &chars_of(endpoint))));
    evidence.push(string_from(&chars_of("status=401")));
    evidence.push(string_from(&chars_of("match=antminer-auth-realm")));
    evidence.push(string_from(&concat(&chars_of("auth-realm="), &realm_chars)));
    let m = DiscoveredMiner { addr, family: MinerFamily::Antminer, confidence: 90, evidence };
    proof {
        assert(m@.evidence =~= seq![
            http_source_line(endpoint@),
            "status=401"@,
            "match=antminer-auth-realm"@,
            "auth-realm="@ + realm@,
        ]);
    }
    Some(m)
}

/// The detection that the rules give for an HTTP response body.
pub open spec fn http_payload_detection(
    addr: SocketAddress,
    endpoint: &str,
    body: Seq<char>,
) -> Option<MinerView> {
    match detection(DetectionSource::Http { endpoint }, body) {
        None => None,
        Some(m) => Some(
            MinerView {
                addr,
                family: m.family,
                confidence: capped(m.confidence),
                evidence: seq![http_source_line(endpoint@)] + m.evidence + seq![
                    truncated(body, EVIDENCE_BODY_CHARS as nat),
                ],
            },
        ),
    }
}

/// Classifies an HTTP response body with the detection rules; the score is
/// held to the `0..=100` range.
pub fn classify_http_payload(addr: SocketAddress, endpoint: &str, body: String) -> (r: Option<
    DiscoveredMiner,
>)
    ensures
        r matches Some(m) ==> http_payload_detection(addr, endpoint, body@) == Some(m@),
        r is None ==> http_payload_detection(addr, endpoint, body@) is None,
        r matches Some(m) ==> m.confidence <= MAX_CONFIDENCE,
{
    let detected = match detect(DetectionSource::Http { endpoint }, body.as_str()) {
        Some(d) => d,
        None => return None,
    };
    let ghost body0 = body@;
    let mut evidence: Vec<String> = Vec::new();
    evidence.push(string_from(&concat(&chars_of("source=http"), &chars_of(endpoint))));
    let mut i: usize = 0;
    while i < detected.evidence.len()
        invariant
            i <= detected.evidence.len(),
            evidence.deep_view() == seq![http_source_line(endpoint@)]
                + detected.evidence.deep_view().take(i as int),
        decreases detected.evidence.len() - i,
    {
        let ghost before = evidence.deep_view();
        evidence.push(detected.evidence[i].clone());
        proof {
            assert(detected.evidence.deep_view().take(i + 1) =~= detected.evidence.deep_view().take(
                i as int,
            ).push(detected.evidence@[i as int]@));
            assert(evidence.deep_view() =~= before.push(detected.evidence@[i as int]@));
        }
        i = i + 1;
    }
    let ghost before = evidence.deep_view();
    evidence.push(truncate(body, EVIDENCE_BODY_CHARS));
    proof {
        assert(detected.evidence.deep_view().take(detected.evidence.len() as int)
            =~= detected.evidence.deep_view());
        assert(evidence.deep_view() =~= before.push(truncated(body0, EVIDENCE_BODY_CHARS as nat)));
        assert(evidence.deep_view() =~= seq![http_source_line(endpoint@)] + detected@.evidence
            + seq![truncated(body0, EVIDENCE_BODY_CHARS as nat)]);
    }
    let confidence: u8 = if detected.confidence > MAX_CONFIDENCE {
        MAX_CONFIDENCE
    } else {
        detected.confidence
    };
    let m = DiscoveredMiner { addr, family: detected.family, confidence, evidence };
    proof {
        assert(m@ == http_payload_detection(addr, endpoint, body0).unwrap());
    }
    Some(m)
}

} // verus!
