//! Character-level text primitives used by the protocol parsers and the
//! detection rules. Every operation works on sequences of `char` and is
//! specified by a spec function over `Seq<char>`.
use vstd::prelude::*;

verus! {

// ---------------------------------------------------------------------------
// Character classes
// ---------------------------------------------------------------------------

/// ASCII-only lower-casing of one character.
pub open spec fn lower_char(c: char) -> char {
    if 'A' <= c && c <= 'Z' {
        ((c as u32) + 32) as char
    } else {
        c
    }
}

/// ASCII-only lower-casing of a whole text; other characters are unchanged.
pub open spec fn ascii_lowercase(s: Seq<char>) -> Seq<char> {
    Seq::new(s.len(), |i: int| lower_char(s[i]))
}

/// Two texts are equal when ASCII letters are compared without case.
pub open spec fn eq_ignore_ascii_case(a: Seq<char>, b: Seq<char>) -> bool {
    ascii_lowercase(a) == ascii_lowercase(b)
}

/// The Unicode `White_Space` property, the set that `trim` removes.
pub open spec fn is_white_space(c: char) -> bool {
    ||| ('\u{9}' <= c && c <= '\u{d}')
    ||| c == ' '
    ||| c == '\u{85}'
    ||| c == '\u{a0}'
    ||| c == '\u{1680}'
    ||| ('\u{2000}' <= c && c <= '\u{200a}')
    ||| c == '\u{2028}'
    ||| c == '\u{2029}'
    ||| c == '\u{202f}'
    ||| c == '\u{205f}'
    ||| c == '\u{3000}'
}

/// ASCII whitespace: space, tab, line feed, form feed and carriage return.
pub open spec fn is_ascii_space(c: char) -> bool {
    c == ' ' || c == '\t' || c == '\n' || c == '\u{c}' || c == '\r'
}

/// Printable ASCII other than space (`!` through `~`).
pub open spec fn is_ascii_graphic(c: char) -> bool {
    '!' <= c && c <= '~'
}

pub fn to_lower_char(c: char) -> (r: char)
    ensures
        r == lower_char(c),
{
    if 'A' <= c && c <= 'Z' {
        let b: u8 = c as u8;
        (b + 32) as char
    } else {
        c
    }
}

pub fn white_space(c: char) -> (r: bool)
    ensures
        r == is_white_space(c),
{
    ('\u{9}' <= c && c <= '\u{d}') || c == ' ' || c == '\u{85}' || c == '\u{a0}' || c == '\u{1680}'
        || ('\u{2000}' <= c && c <= '\u{200a}') || c == '\u{2028}' || c == '\u{2029}' || c
        == '\u{202f}' || c == '\u{205f}' || c == '\u{3000}'
}

pub fn ascii_space(c: char) -> (r: bool)
    ensures
        r == is_ascii_space(c),
{
    c == ' ' || c == '\t' || c == '\n' || c == '\u{c}' || c == '\r'
}

// ---------------------------------------------------------------------------
// Conversions between `str`, `String` and `Vec<char>`
// ---------------------------------------------------------------------------

/// `String::push`: appends one character.
#[verifier::external_body]
fn push_char(s: &mut String, c: char)
    ensures
        final(s)@ == old(s)@.push(c),
{
    s.push(c);
}

/// The characters of a string slice.
pub fn chars_of(s: &str) -> (out: Vec<char>)
    ensures
        out@ == s@,
{
    let mut out: Vec<char> = Vec::new();
    for c in it: s.chars()
        invariant
            out@ == it.seq().take(it.index() as int),
    {
        out.push(c);
    }
    out
}

/// A `String` holding exactly the given characters.
pub fn string_from(cs: &Vec<char>) -> (out: String)
    ensures
        out@ == cs@,
{
    let mut out = String::new();
    let mut i: usize = 0;
    while i < cs.len()
        invariant
            i <= cs.len(),
            out@ == cs@.take(i as int),
        decreases cs.len() - i,
    {
        push_char(&mut out, cs[i]);
        proof {
            assert(cs@.take(i + 1) == cs@.take(i as int).push(cs@[i as int]));
        }
        i = i + 1;
    }
    proof {
        assert(cs@.take(cs@.len() as int) == cs@);
    }
    out
}

/// The concatenation of two character sequences.
pub fn concat(a: &Vec<char>, b: &Vec<char>) -> (out: Vec<char>)
    ensures
        out@ == a@ + b@,
{
    let mut out = a.clone();
    let mut i: usize = 0;
    while i < b.len()
        invariant
            i <= b.len(),
            out@ == a@ + b@.take(i as int),
        decreases b.len() - i,
    {
        out.push(b[i]);
        proof {
            assert(b@.take(i + 1) == b@.take(i as int).push(b@[i as int]));
        }
        i = i + 1;
    }
    proof {
        assert(b@.take(b@.len() as int) == b@);
    }
    out
}

/// The characters `s[lo..hi]`.
pub fn sub_chars(s: &Vec<char>, lo: usize, hi: usize) -> (out: Vec<char>)
    requires
        lo <= hi <= s.len(),
    ensures
        out@ == s@.subrange(lo as int, hi as int),
{
    let mut out: Vec<char> = Vec::new();
    let mut i: usize = lo;
    while i < hi
        invariant
            lo <= i <= hi <= s.len(),
            out@ == s@.subrange(lo as int, i as int),
        decreases hi - i,
    {
        out.push(s[i]);
        proof {
            assert(s@.subrange(lo as int, i + 1) == s@.subrange(lo as int, i as int).push(
                s@[i as int],
            ));
        }
        i = i + 1;
    }
    out
}

/// ASCII lower-casing of a character sequence.
pub fn lowercase_chars(s: &Vec<char>) -> (out: Vec<char>)
    ensures
        out@ == ascii_lowercase(s@),
{
    let mut out: Vec<char> = Vec::new();
    let mut i: usize = 0;
    while i < s.len()
        invariant
            i <= s.len(),
            out@.len() == i,
            forall|k: int| 0 <= k < i ==> out@[k] == lower_char(s@[k]),
        decreases s.len() - i,
    {
        let c = to_lower_char(s[i]);
        out.push(c);
        i = i + 1;
    }
    proof {
        assert(out@ =~= ascii_lowercase(s@));
    }
    out
}

/// Equality of two character sequences.
pub fn chars_equal(a: &Vec<char>, b: &Vec<char>) -> (r: bool)
    ensures
        r == (a@ == b@),
{
    if a.len() != b.len() {
        return false;
    }
    let mut i: usize = 0;
    while i < a.len()
        invariant
            i <= a.len(),
            a.len() == b.len(),
            forall|k: int| 0 <= k < i ==> a@[k] == b@[k],
        decreases a.len() - i,
    {
        if a[i] != b[i] {
            return false;
        }
        i = i + 1;
    }
    proof {
        assert(a@ =~= b@);
    }
    true
}

/// Case-insensitive comparison of ASCII letters, like `str::eq_ignore_ascii_case`.
pub fn chars_eq_ignore_ascii_case(a: &Vec<char>, b: &Vec<char>) -> (r: bool)
    ensures
        r == eq_ignore_ascii_case(a@, b@),
{
    let la = lowercase_chars(a);
    let lb = lowercase_chars(b);
    chars_equal(&la, &lb)
}

// ---------------------------------------------------------------------------
// Searching
// ---------------------------------------------------------------------------

/// `needle` occurs in `hay` at position `i`.
pub open spec fn matches_at(hay: Seq<char>, needle: Seq<char>, i: int) -> bool {
    &&& 0 <= i
    &&& i + needle.len() <= hay.len()
    &&& hay.subrange(i, i + needle.len()) == needle
}

/// The first position at or after `i` where `needle` occurs in `hay`.
pub open spec fn find_from(hay: Seq<char>, needle: Seq<char>, i: int) -> Option<int>
    decreases hay.len() + 1 - i,
{
    if i < 0 || i + needle.len() > hay.len() {
        None
    } else if matches_at(hay, needle, i) {
        Some(i)
    } else {
        find_from(hay, needle, i + 1)
    }
}

/// The first position where `needle` occurs in `hay`, like `str::find`.
pub open spec fn find(hay: Seq<char>, needle: Seq<char>) -> Option<int> {
    find_from(hay, needle, 0)
}

/// `needle` occurs somewhere in `hay`, like `str::contains`.
pub open spec fn contains(hay: Seq<char>, needle: Seq<char>) -> bool {
    find(hay, needle) is Some
}

/// `s` begins with `p`.
pub open spec fn starts_with(s: Seq<char>, p: Seq<char>) -> bool {
    p.len() <= s.len() && s.take(p.len() as int) == p
}

pub proof fn lemma_find_from_bounds(hay: Seq<char>, needle: Seq<char>, i: int)
    requires
        0 <= i,
    ensures
        find_from(hay, needle, i) matches Some(j) ==> {
            &&& i <= j
            &&& matches_at(hay, needle, j)
            &&& forall|k: int| i <= k < j ==> !matches_at(hay, needle, k)
        },
        find_from(hay, needle, i) is None ==> forall|k: int|
            i <= k ==> !matches_at(hay, needle, k),
    decreases hay.len() + 1 - i,
{
    if i < 0 || i + needle.len() > hay.len() {
    } else if matches_at(hay, needle, i) {
    } else {
        lemma_find_from_bounds(hay, needle, i + 1);
    }
}

/// `find` gives the leftmost occurrence, and `None` exactly when there is none.
pub proof fn lemma_find(hay: Seq<char>, needle: Seq<char>)
    ensures
        find(hay, needle) matches Some(j) ==> {
            &&& matches_at(hay, needle, j)
            &&& forall|k: int| 0 <= k < j ==> !matches_at(hay, needle, k)
        },
        find(hay, needle) is None ==> forall|k: int| !matches_at(hay, needle, k),
{
    lemma_find_from_bounds(hay, needle, 0);
}

/// Whether `needle` occurs in `hay` at position `i`.
pub fn match_at(hay: &Vec<char>, needle: &Vec<char>, i: usize) -> (r: bool)
    ensures
        r == matches_at(hay@, needle@, i as int),
{
    if i > hay.len() || needle.len() > hay.len() - i {
        return false;
    }
    let mut k: usize = 0;
    while k < needle.len()
        invariant
            i + needle.len() <= hay.len(),
            k <= needle.len(),
            forall|m: int| 0 <= m < k ==> hay@[i + m] == needle@[m],
        decreases needle.len() - k,
    {
        if hay[i + k] != needle[k] {
            proof {
                assert(hay@.subrange(i as int, i + needle.len())[k as int] != needle@[k as int]);
            }
            return false;
        }
        k = k + 1;
    }
    proof {
        assert(hay@.subrange(i as int, i + needle.len()) =~= needle@);
    }
    true
}

/// The first position at or after `start` where `needle` occurs.
pub fn find_chars_from(hay: &Vec<char>, needle: &Vec<char>, start: usize) -> (r: Option<usize>)
    ensures
        r matches Some(j) ==> find_from(hay@, needle@, start as int) == Some(j as int),
        r is None ==> find_from(hay@, needle@, start as int) is None,
{
    if needle.len() > hay.len() || start > hay.len() - needle.len() {
        return None;
    }
    let last = hay.len() - needle.len();
    let mut i: usize = start;
    loop
        invariant
            needle.len() <= hay.len(),
            last == hay.len() - needle.len(),
            start <= i <= last,
            find_from(hay@, needle@, start as int) == find_from(hay@, needle@, i as int),
        decreases last - i,
    {
        if match_at(hay, needle, i) {
            return Some(i);
        }
        if i == last {
            proof {
                assert(find_from(hay@, needle@, i + 1) is None);
            }
            return None;
        }
        i = i + 1;
    }
}

/// The first position where `needle` occurs, like `str::find`.
pub fn find_chars(hay: &Vec<char>, needle: &Vec<char>) -> (r: Option<usize>)
    ensures
        r matches Some(j) ==> find(hay@, needle@) == Some(j as int),
        r is None ==> find(hay@, needle@) is None,
{
    find_chars_from(hay, needle, 0)
}

/// Whether `needle` occurs in `hay`, like `str::contains`.
pub fn contains_chars(hay: &Vec<char>, needle: &Vec<char>) -> (r: bool)
    ensures
        r == contains(hay@, needle@),
{
    find_chars(hay, needle).is_some()
}

/// Whether `s` begins with `p`, like `str::starts_with`.
pub fn starts_with_chars(s: &Vec<char>, p: &Vec<char>) -> (r: bool)
    ensures
        r == starts_with(s@, p@),
{
    let r = match_at(s, p, 0);
    proof {
        if r {
            assert(s@.take(p@.len() as int) =~= s@.subrange(0, p@.len() as int));
        } else if p@.len() <= s@.len() {
            assert(s@.take(p@.len() as int) =~= s@.subrange(0, p@.len() as int));
        }
    }
    r
}

// ---------------------------------------------------------------------------
// Trimming
// ---------------------------------------------------------------------------

/// The end of the run of whitespace that starts at `i`.
pub open spec fn ws_prefix_end(s: Seq<char>, i: int) -> int
    decreases s.len() - i,
{
    if 0 <= i < s.len() && is_white_space(s[i]) {
        ws_prefix_end(s, i + 1)
    } else {
        i
    }
}

/// The start of the run of whitespace that ends at `j`, not going below `lo`.
pub open spec fn ws_suffix_start(s: Seq<char>, lo: int, j: int) -> int
    decreases j - lo,
{
    if lo < j && j <= s.len() && is_white_space(s[j - 1]) {
        ws_suffix_start(s, lo, j - 1)
    } else {
        j
    }
}

/// `s` without its leading whitespace, like `str::trim_start`.
pub open spec fn trim_start(s: Seq<char>) -> Seq<char> {
    s.skip(ws_prefix_end(s, 0))
}

/// `s` without leading and trailing whitespace, like `str::trim`.
pub open spec fn trim(s: Seq<char>) -> Seq<char> {
    let a = ws_prefix_end(s, 0);
    s.subrange(a, ws_suffix_start(s, a, s.len() as int))
}

pub proof fn lemma_ws_prefix_end(s: Seq<char>, i: int)
    requires
        0 <= i <= s.len(),
    ensures
        i <= ws_prefix_end(s, i) <= s.len(),
        forall|k: int| i <= k < ws_prefix_end(s, i) ==> is_white_space(s[k]),
        ws_prefix_end(s, i) < s.len() ==> !is_white_space(s[ws_prefix_end(s, i)]),
    decreases s.len() - i,
{
    if i < s.len() && is_white_space(s[i]) {
        lemma_ws_prefix_end(s, i + 1);
    }
}

pub proof fn lemma_ws_suffix_start(s: Seq<char>, lo: int, j: int)
    requires
        0 <= lo <= j <= s.len(),
    ensures
        lo <= ws_suffix_start(s, lo, j) <= j,
    decreases j - lo,
{
    if lo < j && is_white_space(s[j - 1]) {
        lemma_ws_suffix_start(s, lo, j - 1);
    }
}

/// The length of the leading whitespace of `s`.
pub fn leading_ws_end(s: &Vec<char>) -> (r: usize)
    ensures
        r as int == ws_prefix_end(s@, 0),
        r <= s.len(),
{
    let mut i: usize = 0;
    while i < s.len() && white_space(s[i])
        invariant
            i <= s.len(),
            ws_prefix_end(s@, 0) == ws_prefix_end(s@, i as int),
        decreases s.len() - i,
    {
        i = i + 1;
    }
    i
}

/// `str::trim` on a character sequence.
pub fn trim_chars(s: &Vec<char>) -> (out: Vec<char>)
    ensures
        out@ == trim(s@),
{
    let a = leading_ws_end(s);
    let mut j: usize = s.len();
    while a < j && white_space(s[j - 1])
        invariant
            a <= j <= s.len(),
            ws_suffix_start(s@, a as int, s@.len() as int) == ws_suffix_start(
                s@,
                a as int,
                j as int,
            ),
        decreases j,
    {
        j = j - 1;
    }
    sub_chars(s, a, j)
}

// ---------------------------------------------------------------------------
// Splitting
// ---------------------------------------------------------------------------

/// The contents of a list of character vectors.
pub open spec fn views(v: Seq<Vec<char>>) -> Seq<Seq<char>> {
    v.map_values(|x: Vec<char>| x@)
}

/// The pieces of `s` between the non-overlapping occurrences of `sep`, found
/// from left to right, like `str::split` with a non-empty pattern.
pub open spec fn split(s: Seq<char>, sep: Seq<char>) -> Seq<Seq<char>>
    decreases s.len(),
{
    if sep.len() == 0 {
        seq![s]
    } else {
        match find(s, sep) {
            Some(i) => {
                proof {
                    lemma_find(s, sep);
                }
                seq![s.take(i)] + split(s.skip(i + sep.len()), sep)
            },
            None => seq![s],
        }
    }
}

/// The text before and after the first occurrence of `sep`, like `str::split_once`.
pub open spec fn split_once(s: Seq<char>, sep: Seq<char>) -> Option<(Seq<char>, Seq<char>)> {
    match find(s, sep) {
        Some(i) => Some((s.take(i), s.skip(i + sep.len()))),
        None => None,
    }
}

/// `str::split` on a character sequence with a non-empty separator.
pub fn split_chars(s: &Vec<char>, sep: &Vec<char>) -> (out: Vec<Vec<char>>)
    requires
        sep.len() > 0,
    ensures
        views(out@) == split(s@, sep@),
        out.len() > 0,
{
    let mut out: Vec<Vec<char>> = Vec::new();
    let mut rest: Vec<char> = s.clone();
    loop
        invariant
            sep.len() > 0,
            split(s@, sep@) == views(out@) + split(rest@, sep@),
        decreases rest.len(),
    {
        let found = find_chars(&rest, sep);
        proof {
            lemma_find(rest@, sep@);
        }
        match found {
            Some(i) => {
                let piece = sub_chars(&rest, 0, i);
                let next = sub_chars(&rest, i + sep.len(), rest.len());
                proof {
                    assert(piece@ == rest@.take(i as int));
                    assert(next@ == rest@.skip(i + sep@.len()));
                    assert(views(out@.push(piece)) =~= views(out@).push(piece@));
                    assert(split(rest@, sep@) == seq![piece@] + split(next@, sep@));
                    assert(views(out@) + split(rest@, sep@) =~= views(out@.push(piece)) + split(
                        next@,
                        sep@,
                    ));
                }
                out.push(piece);
                rest = next;
            },
            None => {
                proof {
                    assert(views(out@.push(rest)) =~= views(out@).push(rest@));
                    assert(split(rest@, sep@) == seq![rest@]);
                    assert(views(out@) + seq![rest@] =~= views(out@.push(rest)));
                }
                out.push(rest);
                return out;
            },
        }
    }
}

/// `str::split_once` on a character sequence.
pub fn split_once_chars(s: &Vec<char>, sep: &Vec<char>) -> (out: Option<(Vec<char>, Vec<char>)>)
    ensures
        out matches Some(p) ==> split_once(s@, sep@) == Some((p.0@, p.1@)),
        out is None ==> split_once(s@, sep@) is None,
{
    let found = find_chars(s, sep);
    proof {
        lemma_find(s@, sep@);
    }
    match found {
        Some(i) => {
            proof {
                assert(matches_at(s@, sep@, i as int));
            }
            let a = sub_chars(s, 0, i);
            assert(i + sep.len() <= s.len());
            let b = sub_chars(s, i + sep.len(), s.len());
            Some((a, b))
        },
        None => None,
    }
}

/// The end of the run of non-space characters that starts at `i`.
pub open spec fn word_end(s: Seq<char>, i: int) -> int
    decreases s.len() - i,
{
    if 0 <= i < s.len() && !is_ascii_space(s[i]) {
        word_end(s, i + 1)
    } else {
        i
    }
}

/// The end of the run of ASCII whitespace that starts at `i`.
pub open spec fn space_end(s: Seq<char>, i: int) -> int
    decreases s.len() - i,
{
    if 0 <= i < s.len() && is_ascii_space(s[i]) {
        space_end(s, i + 1)
    } else {
        i
    }
}

pub proof fn lemma_word_end(s: Seq<char>, i: int)
    requires
        0 <= i <= s.len(),
    ensures
        i <= word_end(s, i) <= s.len(),
        i < s.len() && !is_ascii_space(s[i]) ==> i < word_end(s, i),
    decreases s.len() - i,
{
    if i < s.len() && !is_ascii_space(s[i]) {
        lemma_word_end(s, i + 1);
    }
}

pub proof fn lemma_space_end(s: Seq<char>, i: int)
    requires
        0 <= i <= s.len(),
    ensures
        i <= space_end(s, i) <= s.len(),
        space_end(s, i) < s.len() ==> !is_ascii_space(s[space_end(s, i)]),
    decreases s.len() - i,
{
    if i < s.len() && is_ascii_space(s[i]) {
        lemma_space_end(s, i + 1);
    }
}

/// The words of `s` from position `i` on, separated by any amount of ASCII
/// whitespace, like `str::split_ascii_whitespace`.
pub open spec fn words_from(s: Seq<char>, i: int) -> Seq<Seq<char>>
    decreases s.len() - i,
{
    if i < 0 || i >= s.len() {
        seq![]
    } else {
        let a = space_end(s, i);
        if a >= s.len() {
            seq![]
        } else {
            proof {
                lemma_space_end(s, i);
                lemma_word_end(s, a);
            }
            let b = word_end(s, a);
            seq![s.subrange(a, b)] + words_from(s, b)
        }
    }
}

/// The words of `s` separated by ASCII whitespace.
pub open spec fn ascii_words(s: Seq<char>) -> Seq<Seq<char>> {
    words_from(s, 0)
}

/// `str::split_ascii_whitespace` on a character sequence, collected.
pub fn ascii_words_chars(s: &Vec<char>) -> (out: Vec<Vec<char>>)
    ensures
        views(out@) == ascii_words(s@),
{
    let mut out: Vec<Vec<char>> = Vec::new();
    let mut i: usize = 0;
    loop
        invariant
            i <= s.len(),
            ascii_words(s@) == views(out@) + words_from(s@, i as int),
        decreases s.len() - i,
    {
        let ghost i0 = i as int;
        let mut a: usize = i;
        while a < s.len() && ascii_space(s[a])
            invariant
                i <= a <= s.len(),
                space_end(s@, i0) == space_end(s@, a as int),
            decreases s.len() - a,
        {
            a = a + 1;
        }
        if a >= s.len() {
            proof {
                assert(words_from(s@, i0) =~= Seq::<Seq<char>>::empty());
                assert(views(out@) + words_from(s@, i0) =~= views(out@));
            }
            return out;
        }
        let mut b: usize = a;
        while b < s.len() && !ascii_space(s[b])
            invariant
                a <= b <= s.len(),
                word_end(s@, a as int) == word_end(s@, b as int),
            decreases s.len() - b,
        {
            b = b + 1;
        }
        let w = sub_chars(s, a, b);
        proof {
            lemma_space_end(s@, i0);
            lemma_word_end(s@, a as int);
            assert(words_from(s@, i0) == seq![w@] + words_from(s@, b as int));
            assert(views(out@.push(w)) =~= views(out@).push(w@));
            assert(views(out@) + words_from(s@, i0) =~= views(out@.push(w)) + words_from(
                s@,
                b as int,
            ));
        }
        out.push(w);
        i = b;
    }
}

// ---------------------------------------------------------------------------
// Numbers
// ---------------------------------------------------------------------------

/// The value of one digit in the given radix (at most 36), if it is one.
pub open spec fn digit_value(c: char, radix: nat) -> Option<nat> {
    let v: int = if '0' <= c && c <= '9' {
        c as int - '0' as int
    } else if 'a' <= c && c <= 'z' {
        c as int - 'a' as int + 10
    } else if 'A' <= c && c <= 'Z' {
        c as int - 'A' as int + 10
    } else {
        radix as int
    };
    if 0 <= v < radix {
        Some(v as nat)
    } else {
        None
    }
}

/// Every character of `s` is a digit in the radix.
pub open spec fn all_digits(s: Seq<char>, radix: nat) -> bool {
    forall|i: int| 0 <= i < s.len() ==> #[trigger] digit_value(s[i], radix) is Some
}

/// The number that a sequence of digits denotes.
pub open spec fn digits_value(s: Seq<char>, radix: nat) -> nat
    decreases s.len(),
{
    if s.len() == 0 {
        0
    } else {
        digits_value(s.drop_last(), radix) * radix + digit_value(s.last(), radix).unwrap()
    }
}

/// An unsigned integer written in the radix with an optional leading `+`,
/// when it is at most `max`: the grammar of `from_str_radix` (and of
/// `parse`, in radix 10) for unsigned integer types.
pub open spec fn parse_unsigned(s: Seq<char>, radix: nat, max: nat) -> Option<nat> {
    let d = if s.len() > 0 && s[0] == '+' {
        s.drop_first()
    } else {
        s
    };
    if d.len() == 0 || !all_digits(d, radix) {
        None
    } else if digits_value(d, radix) > max {
        None
    } else {
        Some(digits_value(d, radix))
    }
}

proof fn lemma_digits_value_grows(s: Seq<char>, radix: nat, k: int)
    requires
        radix >= 1,
        0 <= k <= s.len(),
        all_digits(s, radix),
    ensures
        digits_value(s.take(k), radix) <= digits_value(s, radix),
    decreases s.len() - k,
{
    if k < s.len() {
        let t = s.take(k + 1);
        assert(t.drop_last() =~= s.take(k));
        assert(digit_value(s[k], radix) is Some);
        let v = digits_value(s.take(k), radix);
        assert(v * radix >= v) by (nonlinear_arith)
            requires
                radix >= 1,
        ;
        lemma_digits_value_grows(s, radix, k + 1);
    } else {
        assert(s.take(k) =~= s);
    }
}

fn digit_of(c: char, radix: u32) -> (r: Option<u32>)
    requires
        2 <= radix <= 36,
    ensures
        r matches Some(v) ==> digit_value(c, radix as nat) == Some(v as nat),
        r is None ==> digit_value(c, radix as nat) is None,
{
    let v: u32 = if '0' <= c && c <= '9' {
        (c as u32) - ('0' as u32)
    } else if 'a' <= c && c <= 'z' {
        (c as u32) - ('a' as u32) + 10
    } else if 'A' <= c && c <= 'Z' {
        (c as u32) - ('A' as u32) + 10
    } else {
        radix
    };
    if v < radix {
        Some(v)
    } else {
        None
    }
}

/// `from_str_radix` for an unsigned type whose largest value is `max`.
pub fn parse_unsigned_chars(s: &Vec<char>, radix: u32, max: usize) -> (r: Option<usize>)
    requires
        2 <= radix <= 36,
    ensures
        r matches Some(v) ==> parse_unsigned(s@, radix as nat, max as nat) == Some(v as nat),
        r is None ==> parse_unsigned(s@, radix as nat, max as nat) is None,
{
    let start: usize = if s.len() > 0 && s[0] == '+' {
        1
    } else {
        0
    };
    let ghost d = if s@.len() > 0 && s@[0] == '+' {
        s@.drop_first()
    } else {
        s@
    };
    proof {
        assert(d =~= s@.skip(start as int));
    }
    if start >= s.len() {
        return None;
    }
    let mut acc: usize = 0;
    let mut i: usize = start;
    while i < s.len()
        invariant
            start <= i <= s.len(),
            d =~= s@.skip(start as int),
            d == (if s@.len() > 0 && s@[0] == '+' {
                s@.drop_first()
            } else {
                s@
            }),
            d.len() > 0,
            2 <= radix <= 36,
            all_digits(d.take(i - start), radix as nat),
            acc as nat == digits_value(d.take(i - start), radix as nat),
            acc <= max,
        decreases s.len() - i,
    {
        let ghost k: int = i - start;
        let dv = digit_of(s[i], radix);
        match dv {
            None => {
                proof {
                    assert(d[k] == s@[i as int]);
                    assert(digit_value(d[k], radix as nat) is None);
                    assert(!all_digits(d, radix as nat));
                }
                return None;
            },
            Some(v) => {
                proof {
                    assert(d[k] == s@[i as int]);
                    assert(d.take(k + 1).drop_last() =~= d.take(k));
                    assert(all_digits(d.take(k + 1), radix as nat)) by {
                        assert forall|m: int| 0 <= m < k + 1 implies #[trigger] digit_value(
                            d.take(k + 1)[m],
                            radix as nat,
                        ) is Some by {
                            if m < k {
                                assert(d.take(k + 1)[m] == d.take(k)[m]);
                            }
                        }
                    }
                }
                let too_big: bool = if (v as usize) > max {
                    true
                } else {
                    acc > (max - (v as usize)) / (radix as usize)
                };
                if too_big {
                    proof {
                        let r = radix as int;
                        let a = acc as int;
                        let vv = v as int;
                        let m = max as int;
                        assert(a * r + vv > m) by (nonlinear_arith)
                            requires
                                r >= 2,
                                vv > m || a > (m - vv) / r,
                                a >= 0,
                                vv >= 0,
                                m >= 0,
                        ;
                        assert(digits_value(d.take(k + 1), radix as nat) == a * r + vv);
                        if all_digits(d, radix as nat) {
                            lemma_digits_value_grows(d, radix as nat, k + 1);
                        }
                    }
                    return None;
                }
                proof {
                    let r = radix as int;
                    let a = acc as int;
                    let vv = v as int;
                    let m = max as int;
                    assert(a * r + vv <= m) by (nonlinear_arith)
                        requires
                            r >= 2,
                            vv <= m,
                            a <= (m - vv) / r,
                            a >= 0,
                            vv >= 0,
                    ;
                }
                acc = acc * (radix as usize) + (v as usize);
                i = i + 1;
            },
        }
    }
    proof {
        assert(d.take(i - start) =~= d);
    }
    Some(acc)
}

/// The character of a decimal digit.
pub open spec fn digit_char(d: nat) -> char {
    (('0' as u32) + d) as char
}

/// The decimal representation of a number, without leading zeros.
pub open spec fn decimal(n: nat) -> Seq<char>
    decreases n,
{
    if n < 10 {
        seq![digit_char(n)]
    } else {
        decimal(n / 10).push(digit_char(n % 10))
    }
}

/// The decimal representation of `n`, like its `Display` output.
pub fn decimal_chars(n: u64) -> (out: Vec<char>)
    ensures
        out@ == decimal(n as nat),
    decreases n,
{
    let mut out = if n >= 10 {
        decimal_chars(n / 10)
    } else {
        Vec::new()
    };
    let d: u8 = (n % 10) as u8;
    let c: char = (48u8 + d) as char;
    proof {
        assert(c == digit_char((n % 10) as nat));
    }
    out.push(c);
    proof {
        if n < 10 {
            assert(out@ =~= seq![digit_char(n as nat)]);
        }
    }
    out
}

/// Where the first ASCII-whitespace-separated word of `s` lies, if it has one.
pub fn first_word_range(s: &Vec<char>) -> (r: Option<(usize, usize)>)
    ensures
        r matches Some((a, b)) ==> a <= b <= s.len() && ascii_words(s@).len() > 0
            && ascii_words(s@)[0] == s@.subrange(a as int, b as int),
        r is None ==> ascii_words(s@).len() == 0,
{
    let mut a: usize = 0;
    while a < s.len() && ascii_space(s[a])
        invariant
            a <= s.len(),
            space_end(s@, 0) == space_end(s@, a as int),
        decreases s.len() - a,
    {
        a = a + 1;
    }
    if a >= s.len() {
        proof {
            if s@.len() > 0 {
                assert(ascii_words(s@) =~= Seq::<Seq<char>>::empty());
            }
        }
        return None;
    }
    let mut b: usize = a;
    while b < s.len() && !ascii_space(s[b])
        invariant
            a <= b <= s.len(),
            word_end(s@, a as int) == word_end(s@, b as int),
        decreases s.len() - b,
    {
        b = b + 1;
    }
    proof {
        lemma_space_end(s@, 0);
        lemma_word_end(s@, a as int);
        assert(ascii_words(s@) == seq![s@.subrange(a as int, b as int)] + words_from(s@, b as int));
    }
    Some((a, b))
}

} // verus!
