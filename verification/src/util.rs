//! Small helpers shared by the probes.
use vstd::prelude::*;

use crate::text::{chars_of, string_from, sub_chars};

verus! {

/// At most the first `max` characters of `s`.
pub open spec fn truncated(s: Seq<char>, max: nat) -> Seq<char> {
    if s.len() <= max {
        s
    } else {
        s.take(max as int)
    }
}

/// Cuts `s` down to its first `max` characters (not bytes).
pub fn truncate(s: String, max: usize) -> (r: String)
    ensures
        r@ == truncated(s@, max as nat),
{
    let cs = chars_of(s.as_str());
    if cs.len() <= max {
        s
    } else {
        let head = sub_chars(&cs, 0, max);
        proof {
            assert(head@ =~= s@.take(max as int));
        }
        string_from(&head)
    }
}

/// A truncated text is a prefix of the text, of length at most `max`, and
/// is the whole text when that is short enough.
pub proof fn lemma_truncated_prefix(s: Seq<char>, max: nat)
    ensures
        truncated(s, max).len() == if s.len() <= max {
            s.len()
        } else {
            max
        },
        truncated(s, max) == s.take(truncated(s, max).len() as int),
{
    if s.len() <= max {
        assert(s.take(s.len() as int) =~= s);
    }
}

} // verus!
