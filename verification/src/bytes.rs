//! Byte-level searching and the UTF-8 conversions of the standard library.
use vstd::prelude::*;

use vstd::utf8::{decode_utf8, valid_utf8};

verus! {

/// `needle` occurs in `hay` at position `i`.
pub open spec fn bytes_match_at(hay: Seq<u8>, needle: Seq<u8>, i: int) -> bool {
    &&& 0 <= i
    &&& i + needle.len() <= hay.len()
    &&& hay.subrange(i, i + needle.len()) == needle
}

/// The first position at or after `i` where `needle` occurs in `hay`.
pub open spec fn bytes_find_from(hay: Seq<u8>, needle: Seq<u8>, i: int) -> Option<int>
    decreases hay.len() + 1 - i,
{
    if i < 0 || i + needle.len() > hay.len() {
        None
    } else if bytes_match_at(hay, needle, i) {
        Some(i)
    } else {
        bytes_find_from(hay, needle, i + 1)
    }
}

pub proof fn lemma_bytes_find_from(hay: Seq<u8>, needle: Seq<u8>, i: int)
    requires
        0 <= i,
    ensures
        bytes_find_from(hay, needle, i) matches Some(j) ==> {
            &&& i <= j
            &&& bytes_match_at(hay, needle, j)
            &&& forall|k: int| i <= k < j ==> !bytes_match_at(hay, needle, k)
        },
        bytes_find_from(hay, needle, i) is None ==> forall|k: int|
            i <= k ==> !bytes_match_at(hay, needle, k),
    decreases hay.len() + 1 - i,
{
    if i < 0 || i + needle.len() > hay.len() {
    } else if bytes_match_at(hay, needle, i) {
    } else {
        lemma_bytes_find_from(hay, needle, i + 1);
    }
}

/// Whether `needle` occurs in `hay` at position `i`.
pub fn bytes_match(hay: &[u8], needle: &[u8], i: usize) -> (r: bool)
    ensures
        r == bytes_match_at(hay@, needle@, i as int),
{
    if i > hay.len() || needle.len() > hay.len() - i {
        return false;
    }
    let mut k: usize = 0;
    while k < needle.len()
        invariant
            i + needle@.len() <= hay@.len(),
            hay@.len() == hay.len(),
            needle@.len() == needle.len(),
            k <= needle@.len(),
            forall|m: int| 0 <= m < k ==> hay@[i + m] == needle@[m],
        decreases needle.len() - k,
    {
        if hay[i + k] != needle[k] {
            proof {
                assert(hay@.subrange(i as int, i + needle@.len())[k as int] != needle@[k as int]);
            }
            return false;
        }
        k = k + 1;
    }
    proof {
        assert(hay@.subrange(i as int, i + needle@.len()) =~= needle@);
    }
    true
}

/// The first position at or after `start` where `needle` occurs.
pub fn bytes_find(hay: &[u8], needle: &[u8], start: usize) -> (r: Option<usize>)
    ensures
        r matches Some(j) ==> bytes_find_from(hay@, needle@, start as int) == Some(j as int),
        r is None ==> bytes_find_from(hay@, needle@, start as int) is None,
{
    if needle.len() > hay.len() || start > hay.len() - needle.len() {
        return None;
    }
    let last = hay.len() - needle.len();
    let mut i: usize = start;
    loop
        invariant
            needle@.len() <= hay@.len(),
            last == hay@.len() - needle@.len(),
            start <= i <= last,
            bytes_find_from(hay@, needle@, start as int) == bytes_find_from(
                hay@,
                needle@,
                i as int,
            ),
        decreases last - i,
    {
        if bytes_match(hay, needle, i) {
            return Some(i);
        }
        if i == last {
            proof {
                assert(bytes_find_from(hay@, needle@, i + 1) is None);
            }
            return None;
        }
        i = i + 1;
    }
}

/// Equality of two byte slices.
pub fn bytes_equal(a: &[u8], b: &[u8]) -> (r: bool)
    ensures
        r == (a@ == b@),
{
    if a.len() != b.len() {
        return false;
    }
    let r = bytes_match(a, b, 0);
    proof {
        assert(a@.subrange(0, b@.len() as int) =~= a@);
    }
    r
}

/// The bytes `s[lo..hi]` as a vector.
pub fn bytes_sub(s: &[u8], lo: usize, hi: usize) -> (out: Vec<u8>)
    requires
        lo <= hi <= s@.len(),
    ensures
        out@ == s@.subrange(lo as int, hi as int),
{
    let mut out: Vec<u8> = Vec::new();
    let mut i: usize = lo;
    while i < hi
        invariant
            lo <= i <= hi <= s@.len(),
            out@ == s@.subrange(lo as int, i as int),
        decreases hi - i,
    {
        out.push(s[i]);
        proof {
            assert(s@.subrange(lo as int, i + 1) == s@.subrange(lo as int, i as int).push(
                s@[i as int],
            ));
        }
        i = i + 1;
    }
    out
}

/// `s` followed by `t`.
pub fn bytes_append(s: &mut Vec<u8>, t: &[u8])
    ensures
        final(s)@ == old(s)@ + t@,
{
    let ghost s0 = s@;
    let mut i: usize = 0;
    while i < t.len()
        invariant
            i <= t@.len(),
            s@ == s0 + t@.take(i as int),
        decreases t.len() - i,
    {
        s.push(t[i]);
        proof {
            assert(t@.take(i + 1) == t@.take(i as int).push(t@[i as int]));
        }
        i = i + 1;
    }
    proof {
        assert(t@.take(t@.len() as int) == t@);
    }
}

/// The text that `String::from_utf8_lossy` makes of a byte sequence: invalid
/// sequences become U+FFFD.
pub uninterp spec fn lossy_utf8(bytes: Seq<u8>) -> Seq<char>;

/// `std::str::from_utf8`: the text that the bytes encode, when they are valid UTF-8.
#[verifier::external_body]
pub fn utf8_text(bytes: &[u8]) -> (r: Option<&str>)
    ensures
        r is Some <==> valid_utf8(bytes@),
        r matches Some(s) ==> s@ == decode_utf8(bytes@),
{
    std::str::from_utf8(bytes).ok()
}

/// `String::from_utf8_lossy`: the text of the bytes, with each invalid
/// sequence replaced by U+FFFD. Valid UTF-8 is decoded unchanged.
#[verifier::external_body]
pub fn utf8_lossy_string(bytes: &[u8]) -> (r: String)
    ensures
        r@ == lossy_utf8(bytes@),
        valid_utf8(bytes@) ==> r@ == decode_utf8(bytes@),
{
    String::from_utf8_lossy(bytes).into_owned()
}

} // verus!
