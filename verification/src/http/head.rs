//! The status line and the headers of an HTTP/1.x response that the probe
//! needs: body framing, connection reuse and authentication challenges.
use vstd::prelude::*;

use vstd::utf8::{decode_utf8, valid_utf8};

use crate::bytes::utf8_text;
use crate::text::{
    ascii_lowercase, ascii_words, ascii_words_chars, chars_eq_ignore_ascii_case, chars_of, concat,
    eq_ignore_ascii_case, parse_unsigned, parse_unsigned_chars, split, split_chars, split_once,
    split_once_chars, starts_with, starts_with_chars, string_from, trim, trim_chars, views,
};

verus! {

/// What the parser keeps of a response head.
#[derive(Debug, Clone)]
pub struct HttpResponseHead {
    /// The last `Content-Length` value, when it is a number.
    pub content_length: Option<usize>,
    /// The last `Transfer-Encoding` header lists `chunked`.
    pub chunked: bool,
    /// The connection may carry another request.
    pub keep_alive: bool,
    pub status_code: u16,
    /// All `WWW-Authenticate` values, joined with `", "`.
    pub www_authenticate: Option<String>,
}

/// A response head seen as plain values.
pub struct HeadView {
    pub content_length: Option<usize>,
    pub chunked: bool,
    pub keep_alive: bool,
    pub status_code: u16,
    pub www_authenticate: Option<Seq<char>>,
}

impl View for HttpResponseHead {
    type V = HeadView;

    open spec fn view(&self) -> HeadView {
        HeadView {
            content_length: self.content_length,
            chunked: self.chunked,
            keep_alive: self.keep_alive,
            status_code: self.status_code,
            www_authenticate: match self.www_authenticate {
                Some(s) => Some(s@),
                None => None,
            },
        }
    }
}

/// What the header lines have said so far.
pub struct HeaderFields {
    pub content_length: Option<usize>,
    pub chunked: bool,
    pub close: bool,
    pub keep_alive: bool,
    pub www_authenticate: Option<Seq<char>>,
}

/// A comma-separated header value lists `token`, ignoring case and whitespace.
pub open spec fn lists_token(value: Seq<char>, token: Seq<char>) -> bool {
    exists|i: int|
        0 <= i < split(value, ","@).len() && eq_ignore_ascii_case(
            trim(#[trigger] split(value, ","@)[i]),
            token,
        )
}

/// A decimal `Content-Length` value that fits in a `usize`.
pub open spec fn length_value(value: Seq<char>) -> Option<usize> {
    match parse_unsigned(value, 10, usize::MAX as nat) {
        Some(n) => Some(n as usize),
        None => None,
    }
}

/// The effect of one header line. Lines without a colon are ignored; names
/// are compared without case and values are trimmed.
pub open spec fn header_step(f: HeaderFields, line: Seq<char>) -> HeaderFields {
    match split_once(line, ":"@) {
        None => f,
        Some((name, raw)) => {
            let value = trim(raw);
            if eq_ignore_ascii_case(name, "Content-Length"@) {
                HeaderFields {
                    content_length: length_value(value),
                    chunked: f.chunked,
                    close: f.close,
                    keep_alive: f.keep_alive,
                    www_authenticate: f.www_authenticate,
                }
            } else if eq_ignore_ascii_case(name, "Transfer-Encoding"@) {
                HeaderFields {
                    content_length: f.content_length,
                    chunked: lists_token(value, "chunked"@),
                    close: f.close,
                    keep_alive: f.keep_alive,
                    www_authenticate: f.www_authenticate,
                }
            } else if eq_ignore_ascii_case(name, "Connection"@) {
                HeaderFields {
                    content_length: f.content_length,
                    chunked: f.chunked,
                    close: lists_token(value, "close"@),
                    keep_alive: lists_token(value, "keep-alive"@),
                    www_authenticate: f.www_authenticate,
                }
            } else if eq_ignore_ascii_case(name, "WWW-Authenticate"@) {
                HeaderFields {
                    content_length: f.content_length,
                    chunked: f.chunked,
                    close: f.close,
                    keep_alive: f.keep_alive,
                    www_authenticate: match f.www_authenticate {
                        Some(e) => Some(e + ", "@ + value),
                        None => Some(value),
                    },
                }
            } else {
                f
            }
        },
    }
}

/// The header lines applied in order.
pub open spec fn fold_headers(lines: Seq<Seq<char>>, init: HeaderFields) -> HeaderFields
    decreases lines.len(),
{
    if lines.len() == 0 {
        init
    } else {
        header_step(fold_headers(lines.drop_last(), init), lines.last())
    }
}

/// The fields before any header line: an HTTP/1.0 connection closes unless
/// told otherwise.
pub open spec fn initial_fields(http10: bool) -> HeaderFields {
    HeaderFields {
        content_length: None,
        chunked: false,
        close: http10,
        keep_alive: false,
        www_authenticate: None,
    }
}

/// The response head that a header block (without its final blank line)
/// describes, or `None` when it is not UTF-8, not HTTP/1.0 or HTTP/1.1, or
/// has no numeric status code.
pub open spec fn response_head(headers: Seq<u8>) -> Option<HeadView> {
    if !valid_utf8(headers) {
        None
    } else {
        let lines = split(decode_utf8(headers), "\r\n"@);
        let status_line = lines[0];
        let http11 = starts_with(status_line, "HTTP/1.1"@);
        let http10 = starts_with(status_line, "HTTP/1.0"@);
        let words = ascii_words(status_line);
        if !http11 && !http10 {
            None
        } else if words.len() < 2 {
            None
        } else {
            match parse_unsigned(words[1], 10, 65535) {
                None => None,
                Some(code) => {
                    let f = fold_headers(lines.skip(1), initial_fields(http10));
                    Some(
                        HeadView {
                            content_length: f.content_length,
                            chunked: f.chunked,
                            keep_alive: if http11 {
                                !f.close
                            } else {
                                f.keep_alive && !f.close
                            },
                            status_code: code as u16,
                            www_authenticate: f.www_authenticate,
                        },
                    )
                },
            }
        }
    }
}

/// Header fields as the parser holds them.
struct FieldState {
    content_length: Option<usize>,
    chunked: bool,
    close: bool,
    keep_alive: bool,
    www_authenticate: Option<Vec<char>>,
}

impl View for FieldState {
    type V = HeaderFields;

    closed spec fn view(&self) -> HeaderFields {
        HeaderFields {
            content_length: self.content_length,
            chunked: self.chunked,
            close: self.close,
            keep_alive: self.keep_alive,
            www_authenticate: match self.www_authenticate {
                Some(s) => Some(s@),
                None => None,
            },
        }
    }
}

/// Whether a comma-separated value lists `token`.
fn value_lists(value: &Vec<char>, token: &str) -> (r: bool)
    ensures
        r == lists_token(value@, token@),
{
    let comma = chars_of(",");
    proof {
        reveal_strlit(",");
    }
    let t = chars_of(token);
    let parts = split_chars(value, &comma);
    let mut i: usize = 0;
    while i < parts.len()
        invariant
            i <= parts.len(),
            t@ == token@,
            comma@ == ","@,
            views(parts@) == split(value@, ","@),
            forall|k: int|
                0 <= k < i ==> !eq_ignore_ascii_case(trim(#[trigger] split(value@, ","@)[k]), t@),
        decreases parts.len() - i,
    {
        let p = trim_chars(&parts[i]);
        assert(split(value@, ","@)[i as int] == parts@[i as int]@);
        if chars_eq_ignore_ascii_case(&p, &t) {
            return true;
        }
        i = i + 1;
    }
    false
}

/// Applies one header line.
fn apply_header(f: &mut FieldState, line: &Vec<char>)
    ensures
        final(f)@ == header_step(old(f)@, line@),
{
    let colon = chars_of(":");
    let (name, raw) = match split_once_chars(line, &colon) {
        Some(p) => p,
        None => return ,
    };
    let value = trim_chars(&raw);
    if chars_eq_ignore_ascii_case(&name, &chars_of("Content-Length")) {
        f.content_length = parse_unsigned_chars(&value, 10, usize::MAX);
    } else if chars_eq_ignore_ascii_case(&name, &chars_of("Transfer-Encoding")) {
        f.chunked = value_lists(&value, "chunked");
    } else if chars_eq_ignore_ascii_case(&name, &chars_of("Connection")) {
        f.close = value_lists(&value, "close");
        f.keep_alive = value_lists(&value, "keep-alive");
    } else if chars_eq_ignore_ascii_case(&name, &chars_of("WWW-Authenticate")) {
        let joined = match &f.www_authenticate {
            Some(existing) => {
                let with_sep = concat(existing, &chars_of(", "));
                concat(&with_sep, &value)
            },
            None => value,
        };
        f.www_authenticate = Some(joined);
    }
}

impl HttpResponseHead {
    /// Parses a header block (without its final blank line); `None` when it is
    /// not UTF-8, not HTTP/1.0 or HTTP/1.1, or has no numeric status code.
    pub fn parse(headers: &[u8]) -> (r: Option<Self>)
        ensures
            r matches Some(h) ==> response_head(headers@) == Some(h@),
            r is None ==> response_head(headers@) is None,
    {
        let text = match utf8_text(headers) {
            Some(t) => t,
            None => return None,
        };
        let cs = chars_of(text);
        let sep = chars_of("\r\n");
        proof {
            reveal_strlit("\r\n");
        }
        let lines = split_chars(&cs, &sep);
        let ghost ls = split(decode_utf8(headers@), "\r\n"@);
        assert(views(lines@) == ls);
        assert(lines@[0]@ == ls[0]);
        let status_line = &lines[0];
        let http11 = starts_with_chars(status_line, &chars_of("HTTP/1.1"));
        let http10 = starts_with_chars(status_line, &chars_of("HTTP/1.0"));
        if !http11 && !http10 {
            return None;
        }
        let words = ascii_words_chars(status_line);
        if words.len() < 2 {
            return None;
        }
        assert(words@[1]@ == ascii_words(ls[0])[1]);
        let code = match parse_unsigned_chars(&words[1], 10, 65535) {
            Some(c) => c as u16,
            None => return None,
        };
        let mut f = FieldState {
            content_length: None,
            chunked: false,
            close: http10,
            keep_alive: false,
            www_authenticate: None,
        };
        let mut i: usize = 1;
        while i < lines.len()
            invariant
                1 <= i <= lines.len(),
                views(lines@) == ls,
                f@ == fold_headers(ls.subrange(1, i as int), initial_fields(http10)),
            decreases lines.len() - i,
        {
            proof {
                assert(ls.subrange(1, i + 1).drop_last() =~= ls.subrange(1, i as int));
                assert(ls.subrange(1, i + 1).last() == lines@[i as int]@);
            }
            apply_header(&mut f, &lines[i]);
            i = i + 1;
        }
        proof {
            assert(ls.subrange(1, lines@.len() as int) =~= ls.skip(1));
        }
        let keep_alive = if http11 {
            !f.close
        } else {
            f.keep_alive && !f.close
        };
        let www_authenticate = match f.www_authenticate {
            Some(v) => Some(string_from(&v)),
            None => None,
        };
        Some(
            HttpResponseHead {
                content_length: f.content_length,
                chunked: f.chunked,
                keep_alive,
                status_code: code,
                www_authenticate,
            },
        )
    }
}

// ---------------------------------------------------------------------------
// Laws
// ---------------------------------------------------------------------------

/// The trimmed value of a `Connection` header line (its name in any case).
pub open spec fn connection_value(line: Seq<char>) -> Option<Seq<char>> {
    match split_once(line, ":"@) {
        Some((name, raw)) => if eq_ignore_ascii_case(name, "Connection"@) {
            Some(trim(raw))
        } else {
            None
        },
        None => None,
    }
}

/// The value of the last `Connection` header among `lines`, if any.
pub open spec fn last_connection_value(lines: Seq<Seq<char>>) -> Option<Seq<char>>
    decreases lines.len(),
{
    if lines.len() == 0 {
        None
    } else {
        match connection_value(lines.last()) {
            Some(v) => Some(v),
            None => last_connection_value(lines.drop_last()),
        }
    }
}

proof fn lemma_connection_fields(lines: Seq<Seq<char>>, init: HeaderFields)
    ensures
        fold_headers(lines, init).close == match last_connection_value(lines) {
            Some(v) => lists_token(v, "close"@),
            None => init.close,
        },
        fold_headers(lines, init).keep_alive == match last_connection_value(lines) {
            Some(v) => lists_token(v, "keep-alive"@),
            None => init.keep_alive,
        },
    decreases lines.len(),
{
    if lines.len() > 0 {
        lemma_connection_fields(lines.drop_last(), init);
        reveal_strlit("Connection");
        reveal_strlit("Content-Length");
        reveal_strlit("Transfer-Encoding");
        let line = lines.last();
        match split_once(line, ":"@) {
            Some((name, raw)) => {
                if eq_ignore_ascii_case(name, "Connection"@) {
                    assert(ascii_lowercase(name).len() == 10);
                    assert(!eq_ignore_ascii_case(name, "Content-Length"@));
                    assert(!eq_ignore_ascii_case(name, "Transfer-Encoding"@));
                }
            },
            None => {},
        }
    }
}

/// Whether the connection stays open after a response: on HTTP/1.1 exactly
/// when the last `Connection` header (if any) does not list `close`; on
/// HTTP/1.0 only when that header lists `keep-alive` and not `close`. A
/// `keep-alive` token never closes an HTTP/1.1 connection.
pub proof fn lemma_head_keep_alive(headers: Seq<u8>)
    ensures
        response_head(headers) matches Some(h) ==> {
            let lines = split(decode_utf8(headers), "\r\n"@);
            let conn = last_connection_value(lines.skip(1));
            let close = conn is Some && lists_token(conn->0, "close"@);
            let keep = conn is Some && lists_token(conn->0, "keep-alive"@);
            &&& starts_with(lines[0], "HTTP/1.1"@) ==> h.keep_alive == !close
            &&& !starts_with(lines[0], "HTTP/1.1"@) ==> h.keep_alive == (keep && !close)
        },
{
    if response_head(headers) is Some {
        let lines = split(decode_utf8(headers), "\r\n"@);
        let http10 = starts_with(lines[0], "HTTP/1.0"@);
        lemma_connection_fields(lines.skip(1), initial_fields(http10));
        reveal_strlit("HTTP/1.1");
        reveal_strlit("HTTP/1.0");
        if starts_with(lines[0], "HTTP/1.1"@) && http10 {
            assert(lines[0][7] == "HTTP/1.1"@[7]);
            assert(lines[0][7] == "HTTP/1.0"@[7]);
        }
    }
}

} // verus!
