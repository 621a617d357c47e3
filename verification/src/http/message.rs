//! Framing of HTTP/1.x responses: the end of the header block and the
//! chunked transfer coding.
use vstd::prelude::*;

use vstd::slice::slice_subrange;
use vstd::utf8::{decode_utf8, encode_utf8, valid_utf8};

use crate::bytes::{
    bytes_equal, bytes_find, bytes_find_from, bytes_match_at, bytes_sub, lemma_bytes_find_from,
    utf8_text,
};
use crate::text::{all_digits, chars_of, digit_value, digits_value, parse_unsigned, parse_unsigned_chars, split, split_chars, trim, trim_chars};

verus! {

/// The most decoded body bytes that a chunked response may carry.
pub const MAX_BODY_BYTES: usize = 65536;

/// CR LF.
pub open spec fn crlf() -> Seq<u8> {
    seq![13u8, 10u8]
}

/// CR LF CR LF, the end of a header block.
pub open spec fn blank_line() -> Seq<u8> {
    seq![13u8, 10u8, 13u8, 10u8]
}

/// The header block and the bytes after the blank line that ends it.
pub open spec fn message_parts(response: Seq<u8>) -> Option<(Seq<u8>, Seq<u8>)> {
    match bytes_find_from(response, blank_line(), 0) {
        Some(i) => Some((response.take(i), response.skip(i + 4))),
        None => None,
    }
}

/// Splits a response at the first blank line into the header block and the
/// bytes that follow it; `None` while no blank line has arrived.
pub fn split_http_message(response: &[u8]) -> (r: Option<(&[u8], &[u8])>)
    ensures
        r matches Some(p) ==> message_parts(response@) == Some((p.0@, p.1@)),
        r is None ==> message_parts(response@) is None,
{
    let blank: Vec<u8> = vec![13u8, 10u8, 13u8, 10u8];
    proof {
        assert(blank@ =~= blank_line());
    }
    match bytes_find(response, blank.as_slice(), 0) {
        Some(i) => {
            proof {
                lemma_bytes_find_from(response@, blank_line(), 0);
                assert(bytes_match_at(response@, blank_line(), i as int));
                assert(i + 4 <= response@.len());
            }
            let head = slice_subrange(response, 0, i);
            let n = response.len();
            let body = slice_subrange(response, i + 4, n);
            proof {
                assert(head@ =~= response@.take(i as int));
                assert(body@ =~= response@.skip(i + 4));
            }
            Some((head, body))
        },
        None => None,
    }
}

/// The position of the first CR LF at or after `start`.
pub fn find_crlf(bytes: &[u8], start: usize) -> (r: Option<usize>)
    requires
        start <= bytes@.len(),
    ensures
        r matches Some(j) ==> bytes_find_from(bytes@, crlf(), start as int) == Some(j as int),
        r is None ==> bytes_find_from(bytes@, crlf(), start as int) is None,
{
    let pair: Vec<u8> = vec![13u8, 10u8];
    proof {
        assert(pair@ =~= crlf());
    }
    bytes_find(bytes, pair.as_slice(), start)
}

/// Where the trailer section that starts at `start` ends: right after an
/// empty line there, or after the first blank line that follows.
pub open spec fn trailer_end(bytes: Seq<u8>, start: int) -> Option<int> {
    if bytes_match_at(bytes, crlf(), start) {
        Some(start + 2)
    } else {
        match bytes_find_from(bytes, blank_line(), start) {
            Some(i) => Some(i + 4),
            None => None,
        }
    }
}

/// The end of the trailer section that starts at `start`, once it is complete.
pub fn find_trailer_end(bytes: &[u8], start: usize) -> (r: Option<usize>)
    requires
        start <= bytes@.len(),
    ensures
        r matches Some(j) ==> trailer_end(bytes@, start as int) == Some(j as int),
        r is None ==> trailer_end(bytes@, start as int) is None,
{
    let pair: Vec<u8> = vec![13u8, 10u8];
    let blank: Vec<u8> = vec![13u8, 10u8, 13u8, 10u8];
    proof {
        assert(pair@ =~= crlf());
        assert(blank@ =~= blank_line());
    }
    if bytes.len() - start >= 2 {
        let two = slice_subrange(bytes, start, start + 2);
        if bytes_equal(two, pair.as_slice()) {
            return Some(start + 2);
        }
    }
    match bytes_find(bytes, blank.as_slice(), start) {
        Some(i) => {
            proof {
                lemma_bytes_find_from(bytes@, blank_line(), start as int);
            }
            Some(i + 4)
        },
        None => None,
    }
}

/// The outcome of decoding a chunked body.
#[derive(Debug)]
pub enum ChunkedBody {
    /// The last chunk and the trailer section have arrived: the decoded body.
    Complete(Vec<u8>),
    /// More bytes are needed.
    Incomplete,
}

/// A chunked decoding outcome seen as plain values.
pub enum ChunkedView {
    Complete(Seq<u8>),
    Incomplete,
}

impl View for ChunkedBody {
    type V = ChunkedView;

    open spec fn view(&self) -> ChunkedView {
        match self {
            ChunkedBody::Complete(b) => ChunkedView::Complete(b@),
            ChunkedBody::Incomplete => ChunkedView::Incomplete,
        }
    }
}

/// The size field of a chunk-size line: the text before any `;` extension,
/// trimmed; `None` when the line is not UTF-8.
pub open spec fn size_token(line: Seq<u8>) -> Option<Seq<char>> {
    if valid_utf8(line) {
        Some(trim(split(decode_utf8(line), ";"@)[0]))
    } else {
        None
    }
}

/// Decoding of the chunks that start at `cursor`, after `decoded` has been
/// collected from the earlier ones. `None` is a malformed or oversized body.
pub open spec fn decode_chunks(e: Seq<u8>, cursor: int, decoded: Seq<u8>) -> Option<ChunkedView>
    decreases e.len() - cursor,
{
    if cursor < 0 || cursor > e.len() {
        None
    } else {
        match bytes_find_from(e, crlf(), cursor) {
            None => Some(ChunkedView::Incomplete),
            Some(line_end) => match size_token(e.subrange(cursor, line_end)) {
                None => None,
                Some(token) => match parse_unsigned(token, 16, usize::MAX as nat) {
                    None => None,
                    Some(size) => {
                        let chunk_start = line_end + 2;
                        let chunk_end = chunk_start + size;
                        let end = chunk_end + 2;
                        if chunk_end > usize::MAX || end > usize::MAX {
                            None
                        } else if end > e.len() {
                            Some(ChunkedView::Incomplete)
                        } else if e.subrange(chunk_end, end) != crlf() {
                            None
                        } else if decoded.len() + size > MAX_BODY_BYTES {
                            None
                        } else {
                            let body = decoded + e.subrange(chunk_start, chunk_end);
                            if size == 0 {
                                if end == e.len() || trailer_end(e, end) is Some {
                                    Some(ChunkedView::Complete(body))
                                } else {
                                    Some(ChunkedView::Incomplete)
                                }
                            } else {
                                proof {
                                    lemma_bytes_find_from(e, crlf(), cursor);
                                }
                                decode_chunks(e, end, body)
                            }
                        }
                    },
                },
            },
        }
    }
}

/// What a chunked body decodes to so far.
pub open spec fn chunked_outcome(encoded: Seq<u8>) -> Option<ChunkedView> {
    decode_chunks(encoded, 0, Seq::empty())
}

/// The size of the chunk whose size line is `line`, per the chunk grammar.
fn chunk_size(line: &[u8]) -> (r: Option<usize>)
    ensures
        r matches Some(v) ==> size_token(line@) matches Some(t) && parse_unsigned(
            t,
            16,
            usize::MAX as nat,
        ) == Some(v as nat),
        r is None ==> size_token(line@) is None || parse_unsigned(
            size_token(line@)->0,
            16,
            usize::MAX as nat,
        ) is None,
{
    let text = match utf8_text(line) {
        Some(t) => t,
        None => return None,
    };
    let cs = chars_of(text);
    let semi = chars_of(";");
    proof {
        reveal_strlit(";");
    }
    let pieces = split_chars(&cs, &semi);
    proof {
        assert(pieces@[0]@ == split(cs@, semi@)[0]);
    }
    let token = trim_chars(&pieces[0]);
    parse_unsigned_chars(&token, 16, usize::MAX)
}

impl ChunkedBody {
    /// Decodes a body sent with the chunked transfer coding, as far as it has
    /// arrived. `None` is a malformed body or one that decodes to more than
    /// `MAX_BODY_BYTES` bytes.
    pub fn decode(encoded: &[u8]) -> (r: Option<Self>)
        ensures
            r matches Some(b) ==> chunked_outcome(encoded@) == Some(b@),
            r is None ==> chunked_outcome(encoded@) is None,
    {
        let mut cursor: usize = 0;
        let mut decoded: Vec<u8> = Vec::new();
        loop
            invariant
                cursor <= encoded@.len(),
                chunked_outcome(encoded@) == decode_chunks(encoded@, cursor as int, decoded@),
            decreases encoded@.len() - cursor,
        {
            let line_end = match find_crlf(encoded, cursor) {
                Some(i) => i,
                None => return Some(ChunkedBody::Incomplete),
            };
            proof {
                lemma_bytes_find_from(encoded@, crlf(), cursor as int);
                assert(bytes_match_at(encoded@, crlf(), line_end as int));
                assert(line_end + 2 <= encoded@.len());
            }
            let line = slice_subrange(encoded, cursor, line_end);
            let size = match chunk_size(line) {
                Some(s) => s,
                None => return None,
            };
            let n = encoded.len();
            assert(line_end + 2 <= n);
            let chunk_start: usize = line_end + 2;
            if size > usize::MAX - chunk_start {
                return None;
            }
            let chunk_end: usize = chunk_start + size;
            if chunk_end > usize::MAX - 2 {
                return None;
            }
            let end: usize = chunk_end + 2;
            if end > encoded.len() {
                return Some(ChunkedBody::Incomplete);
            }
            let pair: Vec<u8> = vec![13u8, 10u8];
            proof {
                assert(pair@ =~= crlf());
            }
            let tail = slice_subrange(encoded, chunk_end, end);
            if !bytes_equal(tail, pair.as_slice()) {
                return None;
            }
            if size > MAX_BODY_BYTES || decoded.len() > MAX_BODY_BYTES - size {
                return None;
            }
            let chunk = bytes_sub(encoded, chunk_start, chunk_end);
            let ghost before = decoded@;
            let mut k: usize = 0;
            while k < chunk.len()
                invariant
                    k <= chunk@.len(),
                    decoded@ == before + chunk@.take(k as int),
                decreases chunk.len() - k,
            {
                decoded.push(chunk[k]);
                proof {
                    assert(chunk@.take(k + 1) == chunk@.take(k as int).push(chunk@[k as int]));
                }
                k = k + 1;
            }
            proof {
                assert(chunk@.take(chunk@.len() as int) == chunk@);
            }
            cursor = end;
            if size == 0 {
                if cursor == encoded.len() {
                    return Some(ChunkedBody::Complete(decoded));
                }
                return match find_trailer_end(encoded, cursor) {
                    Some(_) => Some(ChunkedBody::Complete(decoded)),
                    None => Some(ChunkedBody::Incomplete),
                };
            }
        }
    }
}

// ---------------------------------------------------------------------------
// Laws
// ---------------------------------------------------------------------------

/// The header block, the blank line and the rest make up the response, and
/// the blank line is the first one in it.
pub proof fn lemma_message_parts_rejoin(response: Seq<u8>)
    ensures
        message_parts(response) matches Some((head, rest)) ==> {
            &&& head + blank_line() + rest == response
            &&& forall|k: int| 0 <= k < head.len() ==> !bytes_match_at(response, blank_line(), k)
        },
{
    lemma_bytes_find_from(response, blank_line(), 0);
    if let Some(i) = bytes_find_from(response, blank_line(), 0) {
        assert(response.take(i) + blank_line() + response.skip(i + 4) =~= response);
    }
}

proof fn lemma_decode_chunks_bounded(e: Seq<u8>, cursor: int, decoded: Seq<u8>)
    requires
        decoded.len() <= MAX_BODY_BYTES,
    ensures
        decode_chunks(e, cursor, decoded) matches Some(ChunkedView::Complete(body)) ==> body.len()
            <= MAX_BODY_BYTES,
    decreases e.len() - cursor,
{
    if 0 <= cursor <= e.len() {
        lemma_bytes_find_from(e, crlf(), cursor);
        if let Some(line_end) = bytes_find_from(e, crlf(), cursor) {
            if let Some(token) = size_token(e.subrange(cursor, line_end)) {
                if let Some(size) = parse_unsigned(token, 16, usize::MAX as nat) {
                    let chunk_start = line_end + 2;
                    let chunk_end = chunk_start + size;
                    let end = chunk_end + 2;
                    if chunk_end <= usize::MAX && end <= usize::MAX && end <= e.len()
                        && decoded.len() + size <= MAX_BODY_BYTES {
                        let body = decoded + e.subrange(chunk_start, chunk_end);
                        if size != 0 {
                            lemma_decode_chunks_bounded(e, end, body);
                        }
                    }
                }
            }
        }
    }
}

/// A decoded chunked body never holds more than `MAX_BODY_BYTES` bytes.
pub proof fn lemma_chunked_body_bounded(encoded: Seq<u8>)
    ensures
        chunked_outcome(encoded) matches Some(ChunkedView::Complete(body)) ==> body.len()
            <= MAX_BODY_BYTES,
{
    lemma_decode_chunks_bounded(encoded, 0, Seq::empty());
}


// ---------------------------------------------------------------------------
// The chunked coding written out
// ---------------------------------------------------------------------------

/// The lower-case hexadecimal digit for `d` (below 16).
pub open spec fn hex_char(d: nat) -> char {
    if d == 0 { '0' } else if d == 1 { '1' } else if d == 2 { '2' } else if d == 3 { '3' }
    else if d == 4 { '4' } else if d == 5 { '5' } else if d == 6 { '6' } else if d == 7 { '7' }
    else if d == 8 { '8' } else if d == 9 { '9' } else if d == 10 { 'a' } else if d == 11 { 'b' }
    else if d == 12 { 'c' } else if d == 13 { 'd' } else if d == 14 { 'e' } else { 'f' }
}

/// `n` in lower-case hexadecimal without leading zeros, as `{:x}` writes it.
pub open spec fn hex_digits(n: nat) -> Seq<char>
    decreases n,
{
    if n < 16 {
        seq![hex_char(n)]
    } else {
        hex_digits(n / 16).push(hex_char(n % 16))
    }
}

/// A hexadecimal digit character.
pub open spec fn is_hex_char(c: char) -> bool {
    ('0' <= c && c <= '9') || ('a' <= c && c <= 'f')
}

/// The size line of a chunk of `n` bytes.
pub open spec fn size_line(n: nat) -> Seq<u8> {
    encode_utf8(hex_digits(n)) + crlf()
}

/// One chunk in the chunked coding: its size line, its bytes, CR LF.
pub open spec fn chunk_encoding(chunk: Seq<u8>) -> Seq<u8> {
    size_line(chunk.len()) + chunk + crlf()
}

/// A body in the chunked coding: each chunk in turn, then the last chunk
/// (`0`) and an empty trailer section.
pub open spec fn chunked_encoding(chunks: Seq<Seq<u8>>) -> Seq<u8>
    decreases chunks.len(),
{
    if chunks.len() == 0 {
        size_line(0) + crlf()
    } else {
        chunk_encoding(chunks[0]) + chunked_encoding(chunks.drop_first())
    }
}

/// The chunks one after the other.
pub open spec fn concat_chunks(chunks: Seq<Seq<u8>>) -> Seq<u8>
    decreases chunks.len(),
{
    if chunks.len() == 0 {
        Seq::empty()
    } else {
        chunks[0] + concat_chunks(chunks.drop_first())
    }
}

proof fn lemma_hex_digits(n: nat)
    ensures
        1 <= hex_digits(n).len() <= n + 1,
        forall|i: int| 0 <= i < hex_digits(n).len() ==> is_hex_char(#[trigger] hex_digits(n)[i]),
        all_digits(hex_digits(n), 16),
        digits_value(hex_digits(n), 16) == n,
    decreases n,
{
    if n < 16 {
        let s = hex_digits(n);
        assert(s.drop_last() =~= Seq::<char>::empty());
        assert(digit_value(hex_char(n), 16) == Some(n));
        assert(digits_value(Seq::<char>::empty(), 16) == 0);
        assert(digits_value(s, 16) == digits_value(s.drop_last(), 16) * 16 + n);
    } else {
        lemma_hex_digits(n / 16);
        let s = hex_digits(n);
        let d = (n % 16) as nat;
        assert(s.drop_last() =~= hex_digits(n / 16));
        assert(digit_value(hex_char(d), 16) == Some(d));
        assert forall|i: int| 0 <= i < s.len() implies is_hex_char(#[trigger] s[i]) by {
            if i < s.len() - 1 {
                assert(s[i] == hex_digits(n / 16)[i]);
            }
        }
        assert forall|i: int| 0 <= i < s.len() implies #[trigger] digit_value(s[i], 16) is Some by {
            if i < s.len() - 1 {
                assert(s[i] == hex_digits(n / 16)[i]);
            }
        }
        assert(digits_value(s, 16) == digits_value(s.drop_last(), 16) * 16 + d);
        assert((n / 16) * 16 + n % 16 == n);
    }
}


proof fn lemma_hex_bytes(n: nat)
    ensures
        encode_utf8(hex_digits(n)).len() == hex_digits(n).len(),
        valid_utf8(encode_utf8(hex_digits(n))),
        decode_utf8(encode_utf8(hex_digits(n))) == hex_digits(n),
        forall|i: int|
            0 <= i < hex_digits(n).len() ==> #[trigger] encode_utf8(hex_digits(n))[i] != 13u8,
{
    lemma_hex_digits(n);
    let s = hex_digits(n);
    assert(vstd::utf8::is_ascii_chars(s)) by {
        assert forall|i: int| 0 <= i < s.len() implies '\0' <= #[trigger] s[i] <= '\u{7f}' by {
            assert(is_hex_char(s[i]));
        }
    }
    vstd::utf8::is_ascii_chars_encode_utf8(s);
    vstd::utf8::encode_utf8_valid_utf8(s);
    vstd::utf8::encode_utf8_decode_utf8(s);
    assert forall|i: int| 0 <= i < s.len() implies #[trigger] encode_utf8(s)[i] != 13u8 by {
        let c = s[i];
        assert(is_hex_char(c));
        assert(c as u8 == encode_utf8(s)[i]);
        assert(c as u8 != 13u8);
    }
}

/// What the decoder finds in a size line for `v` that starts at `cursor`,
/// whether the line has fully arrived (then its size is `v`) or not (then no
/// line end is found).
proof fn lemma_size_line(e: Seq<u8>, cursor: int, v: nat)
    requires
        0 <= cursor <= e.len(),
        v <= usize::MAX,
        forall|k: int|
            cursor <= k < e.len() && k < cursor + hex_digits(v).len() ==> e[k] == encode_utf8(
                hex_digits(v),
            )[k - cursor],
        e.len() >= cursor + hex_digits(v).len() + 2 ==> e.subrange(
            cursor + hex_digits(v).len(),
            cursor + hex_digits(v).len() + 2,
        ) == crlf(),
    ensures
        e.len() < cursor + hex_digits(v).len() + 2 ==> bytes_find_from(e, crlf(), cursor) is None,
        e.len() >= cursor + hex_digits(v).len() + 2 ==> {
            &&& bytes_find_from(e, crlf(), cursor) == Some(cursor + hex_digits(v).len())
            &&& size_token(e.subrange(cursor, cursor + hex_digits(v).len())) == Some(hex_digits(v))
            &&& parse_unsigned(hex_digits(v), 16, usize::MAX as nat) == Some(v)
        },
{
    let hd = hex_digits(v);
    let h = encode_utf8(hd);
    let m = cursor + hd.len();
    lemma_hex_digits(v);
    lemma_hex_bytes(v);
    lemma_bytes_find_from(e, crlf(), cursor);
    assert forall|k: int| cursor <= k < e.len() && k < m implies !bytes_match_at(e, crlf(), k) by {
        if bytes_match_at(e, crlf(), k) {
            assert(e.subrange(k, k + 2)[0] == e[k]);
            assert(e[k] == h[k - cursor]);
        }
    }
    if e.len() < m + 2 {
        if let Some(j) = bytes_find_from(e, crlf(), cursor) {
            assert(bytes_match_at(e, crlf(), j));
        }
    } else {
        assert(bytes_match_at(e, crlf(), m));
        if let Some(j) = bytes_find_from(e, crlf(), cursor) {
            assert(bytes_match_at(e, crlf(), j));
        }
        assert(e.subrange(cursor, m) =~= h);
        // The size token is the whole line.
        let semi = ";"@;
        reveal_strlit(";");
        crate::text::lemma_find(hd, semi);
        if let Some(j) = crate::text::find(hd, semi) {
            assert(hd.subrange(j, j + 1)[0] == hd[j]);
            assert(is_hex_char(hd[j]));
        }
        assert(split(hd, semi) == seq![hd]);
        assert(!crate::text::is_white_space(hd[0]));
        assert(!crate::text::is_white_space(hd[hd.len() - 1]));
        assert(crate::text::ws_prefix_end(hd, 0) == 0);
        assert(crate::text::ws_suffix_start(hd, 0, hd.len() as int) == hd.len());
        assert(trim(hd) =~= hd);
        assert(hd[0] != '+');
    }
}


/// Decoding, from `cursor` on, a well-formed chunked body that has arrived
/// up to `n`: complete when all of it is there, else incomplete.
proof fn lemma_decode_well_formed(
    full: Seq<u8>,
    cursor: int,
    decoded: Seq<u8>,
    chunks: Seq<Seq<u8>>,
    n: int,
)
    requires
        0 <= cursor <= n <= full.len(),
        full.len() <= usize::MAX,
        full.skip(cursor) == chunked_encoding(chunks),
        forall|i: int| 0 <= i < chunks.len() ==> (#[trigger] chunks[i]).len() > 0,
        decoded.len() + concat_chunks(chunks).len() <= MAX_BODY_BYTES,
    ensures
        decode_chunks(full.take(n), cursor, decoded) == if n == full.len() {
            Some(ChunkedView::Complete(decoded + concat_chunks(chunks)))
        } else {
            Some(ChunkedView::Incomplete)
        },
    decreases chunks.len(),
{
    let e = full.take(n);
    let chunk: Seq<u8> = if chunks.len() == 0 {
        Seq::empty()
    } else {
        chunks[0]
    };
    let rest: Seq<u8> = if chunks.len() == 0 {
        Seq::empty()
    } else {
        chunked_encoding(chunks.drop_first())
    };
    let v = chunk.len();
    let hd = hex_digits(v);
    let h = encode_utf8(hd);
    lemma_hex_bytes(v);
    let enc = chunked_encoding(chunks);
    assert(enc =~= h + crlf() + chunk + crlf() + rest);
    let m = cursor + hd.len();
    assert(full.len() == cursor + enc.len());
    assert forall|k: int| cursor <= k < e.len() && k < m implies e[k] == h[k - cursor] by {
        assert(e[k] == full[k]);
        assert(full[k] == full.skip(cursor)[k - cursor]);
        assert(enc[k - cursor] == h[k - cursor]);
    }
    if e.len() >= m + 2 {
        assert(e.subrange(m, m + 2) =~= crlf()) by {
            assert(e.subrange(m, m + 2) =~= full.skip(cursor).subrange(hd.len() as int, hd.len() as int + 2));
            assert(enc.subrange(hd.len() as int, hd.len() as int + 2) =~= crlf());
        }
    }
    lemma_size_line(e, cursor, v);
    if e.len() < m + 2 {
        assert(n < full.len());
    } else {
        let chunk_start = m + 2;
        let chunk_end = chunk_start + v;
        let end = chunk_end + 2;
        assert(end <= full.len());
        if end > e.len() {
            assert(n < full.len());
        } else {
            assert(e.subrange(chunk_end, end) =~= crlf()) by {
                assert(e.subrange(chunk_end, end) =~= full.skip(cursor).subrange(
                    chunk_end - cursor,
                    end - cursor,
                ));
                assert(enc.subrange(chunk_end - cursor, end - cursor) =~= crlf());
            }
            assert(e.subrange(chunk_start, chunk_end) =~= chunk) by {
                assert(e.subrange(chunk_start, chunk_end) =~= full.skip(cursor).subrange(
                    chunk_start - cursor,
                    chunk_end - cursor,
                ));
                assert(enc.subrange(chunk_start - cursor, chunk_end - cursor) =~= chunk);
            }
            let body = decoded + chunk;
            if chunks.len() == 0 {
                assert(enc.len() == hd.len() + 4);
                assert(end == full.len());
                assert(n == full.len());
                assert(concat_chunks(chunks) =~= Seq::<u8>::empty());
                assert(body =~= decoded + concat_chunks(chunks));
            } else {
                assert(chunks[0].len() > 0);
                let tail = chunks.drop_first();
                assert(full.skip(end) =~= chunked_encoding(tail)) by {
                    assert(full.skip(end) =~= full.skip(cursor).skip(end - cursor));
                    assert(enc.skip(end - cursor) =~= rest);
                }
                assert(concat_chunks(chunks) == chunk + concat_chunks(tail));
                assert forall|i: int| 0 <= i < tail.len() implies (#[trigger] tail[i]).len() > 0 by {
                    assert(tail[i] == chunks[i + 1]);
                }
                lemma_decode_well_formed(full, end, body, tail, n);
                assert(body + concat_chunks(tail) =~= decoded + concat_chunks(chunks));
            }
        }
    }
}

/// A well-formed chunked body, made of non-empty chunks that together hold at
/// most `MAX_BODY_BYTES` bytes, decodes to its chunks one after the other;
/// and every proper prefix of it decodes as incomplete: a body cut short
/// asks for more and neither fails nor completes early.
pub proof fn lemma_chunked_well_formed(chunks: Seq<Seq<u8>>)
    requires
        forall|i: int| 0 <= i < chunks.len() ==> (#[trigger] chunks[i]).len() > 0,
        concat_chunks(chunks).len() <= MAX_BODY_BYTES,
        chunked_encoding(chunks).len() <= usize::MAX,
    ensures
        chunked_outcome(chunked_encoding(chunks)) == Some(
            ChunkedView::Complete(concat_chunks(chunks)),
        ),
        forall|n: int|
            0 <= n < chunked_encoding(chunks).len() ==> #[trigger] chunked_outcome(
                chunked_encoding(chunks).take(n),
            ) == Some(ChunkedView::Incomplete),
{
    let full = chunked_encoding(chunks);
    assert(full.skip(0) =~= full);
    assert(Seq::<u8>::empty() + concat_chunks(chunks) =~= concat_chunks(chunks));
    assert(full.take(full.len() as int) =~= full);
    lemma_decode_well_formed(full, 0, Seq::empty(), chunks, full.len() as int);
    assert forall|n: int| 0 <= n < full.len() implies #[trigger] chunked_outcome(full.take(n))
        == Some(ChunkedView::Incomplete) by {
        lemma_decode_well_formed(full, 0, Seq::empty(), chunks, n);
    }
}

/// One chunk of 1 to `MAX_BODY_BYTES` bytes, followed by the last chunk,
/// decodes back to itself.
pub proof fn lemma_one_chunk_round_trip(chunk: Seq<u8>)
    requires
        0 < chunk.len() <= MAX_BODY_BYTES,
    ensures
        chunked_outcome(chunk_encoding(chunk) + size_line(0) + crlf()) == Some(
            ChunkedView::Complete(chunk),
        ),
{
    let chunks = seq![chunk];
    assert(chunks.drop_first() =~= Seq::<Seq<u8>>::empty());
    assert(chunked_encoding(chunks.drop_first()) == size_line(0) + crlf());
    assert(chunked_encoding(chunks) =~= chunk_encoding(chunk) + size_line(0) + crlf());
    assert(concat_chunks(chunks.drop_first()) =~= Seq::<u8>::empty());
    assert(concat_chunks(chunks) =~= chunk);
    lemma_hex_digits(chunk.len());
    lemma_hex_bytes(chunk.len());
    lemma_hex_digits(0);
    lemma_hex_bytes(0);
    lemma_chunked_well_formed(chunks);
}

} // verus!
