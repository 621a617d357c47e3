//! Reading one HTTP response: the header block, then a body delimited by
//! `Content-Length`, by the chunked coding, or by the end of the connection.
use vstd::prelude::*;

use vstd::slice::slice_subrange;

use crate::bytes::{bytes_append, bytes_sub, lossy_utf8, utf8_lossy_string};
use crate::http::head::{response_head, HeadView, HttpResponseHead};
use crate::http::message::{
    chunked_outcome, message_parts, split_http_message, ChunkedBody, ChunkedView, MAX_BODY_BYTES,
};

verus! {

/// The most header bytes that are read while no blank line has arrived.
pub const MAX_HEAD_BYTES: usize = 16384;

/// A response as the HTTP probe uses it.
#[derive(Debug)]
pub struct HttpBody {
    /// The body decoded as UTF-8, invalid sequences replaced.
    pub body: String,
    /// The connection may carry another request.
    pub keep_alive: bool,
    pub status_code: u16,
    pub www_authenticate: Option<String>,
}

/// A response seen as plain values.
pub struct BodyView {
    pub body: Seq<char>,
    pub keep_alive: bool,
    pub status_code: u16,
    pub www_authenticate: Option<Seq<char>>,
}

impl View for HttpBody {
    type V = BodyView;

    open spec fn view(&self) -> BodyView {
        BodyView {
            body: self.body@,
            keep_alive: self.keep_alive,
            status_code: self.status_code,
            www_authenticate: match self.www_authenticate {
                Some(s) => Some(s@),
                None => None,
            },
        }
    }
}

/// The response made of a head and the bytes of its body.
pub open spec fn response_of(head: HeadView, body: Seq<u8>, keep_alive: bool) -> BodyView {
    BodyView {
        body: lossy_utf8(body),
        keep_alive,
        status_code: head.status_code,
        www_authenticate: head.www_authenticate,
    }
}

/// What the reader does next.
#[derive(Debug)]
pub enum FetchStep {
    /// Read more bytes from the connection.
    ReadMore,
    /// The response is complete.
    Done(HttpBody),
    /// The response cannot be read: malformed, too large, or cut short.
    Failed,
}

/// A reader decision seen as plain values.
pub enum StepView {
    ReadMore,
    Done(BodyView),
    Failed,
}

impl View for FetchStep {
    type V = StepView;

    open spec fn view(&self) -> StepView {
        match self {
            FetchStep::ReadMore => StepView::ReadMore,
            FetchStep::Done(b) => StepView::Done(b@),
            FetchStep::Failed => StepView::Failed,
        }
    }
}

/// Which part of the response is being read.
#[derive(Debug)]
pub enum FetchPhase {
    /// The header block; the buffer holds what has arrived of it.
    Head,
    /// A body of exactly this many bytes.
    Fixed(HttpResponseHead, usize),
    /// A body in the chunked coding; the buffer holds its encoded bytes.
    Chunked(HttpResponseHead),
    /// A body that lasts until the peer closes the connection.
    UntilClose(HttpResponseHead),
    /// The response has been read or given up.
    Over,
}

/// A phase seen as plain values.
pub enum PhaseView {
    Head,
    Fixed(HeadView, usize),
    Chunked(HeadView),
    UntilClose(HeadView),
    Over,
}

/// The reader of one response.
#[derive(Debug)]
pub struct HttpFetch {
    phase: FetchPhase,
    buffer: Vec<u8>,
}

/// A reader seen as plain values.
pub struct FetchView {
    pub phase: PhaseView,
    pub buffer: Seq<u8>,
}

impl View for HttpFetch {
    type V = FetchView;

    closed spec fn view(&self) -> FetchView {
        FetchView {
            phase: match self.phase {
                FetchPhase::Head => PhaseView::Head,
                FetchPhase::Fixed(h, n) => PhaseView::Fixed(h@, n),
                FetchPhase::Chunked(h) => PhaseView::Chunked(h@),
                FetchPhase::UntilClose(h) => PhaseView::UntilClose(h@),
                FetchPhase::Over => PhaseView::Over,
            },
            buffer: self.buffer@,
        }
    }
}

/// The reader stops with this decision.
pub open spec fn stop(buffer: Seq<u8>, step: StepView) -> (FetchView, StepView) {
    (FetchView { phase: PhaseView::Over, buffer }, step)
}

/// A body of `length` bytes, of which `body` has arrived: complete once that
/// many are there (anything after them is dropped).
pub open spec fn fixed_progress(head: HeadView, length: usize, body: Seq<u8>) -> (FetchView, StepView) {
    if body.len() >= length {
        stop(body, StepView::Done(response_of(head, body.take(length as int), head.keep_alive)))
    } else {
        (FetchView { phase: PhaseView::Fixed(head, length), buffer: body }, StepView::ReadMore)
    }
}

/// A chunked body of which `encoded` has arrived.
pub open spec fn chunked_progress(head: HeadView, encoded: Seq<u8>) -> (FetchView, StepView) {
    match chunked_outcome(encoded) {
        None => stop(encoded, StepView::Failed),
        Some(ChunkedView::Complete(body)) => stop(
            encoded,
            StepView::Done(response_of(head, body, head.keep_alive)),
        ),
        Some(ChunkedView::Incomplete) => if encoded.len() >= MAX_BODY_BYTES {
            stop(encoded, StepView::Failed)
        } else {
            (FetchView { phase: PhaseView::Chunked(head), buffer: encoded }, StepView::ReadMore)
        },
    }
}

/// The start of the body once the head is known: a declared length (at most
/// `MAX_BODY_BYTES`) wins over the chunked coding, and without either the
/// body lasts until the connection closes.
pub open spec fn body_start(head: HeadView, rest: Seq<u8>) -> (FetchView, StepView) {
    match head.content_length {
        Some(length) => if length > MAX_BODY_BYTES {
            stop(rest, StepView::Failed)
        } else {
            fixed_progress(head, length, rest)
        },
        None => if head.chunked {
            chunked_progress(head, rest)
        } else {
            (FetchView { phase: PhaseView::UntilClose(head), buffer: rest }, StepView::ReadMore)
        },
    }
}

/// The header block of which `buffer` has arrived.
pub open spec fn head_progress(buffer: Seq<u8>) -> (FetchView, StepView) {
    match message_parts(buffer) {
        None => if buffer.len() >= MAX_HEAD_BYTES {
            stop(buffer, StepView::Failed)
        } else {
            (FetchView { phase: PhaseView::Head, buffer }, StepView::ReadMore)
        },
        Some((header_block, rest)) => match response_head(header_block) {
            None => stop(buffer, StepView::Failed),
            Some(head) => body_start(head, rest),
        },
    }
}

/// The reader's answer to the outcome of a read: `None` is a failed read and
/// an empty one is the end of the connection, which completes only a body
/// that lasts until then (and that connection cannot be reused).
pub open spec fn fetch_next(s: FetchView, read: Option<Seq<u8>>) -> (FetchView, StepView) {
    match read {
        None => stop(s.buffer, StepView::Failed),
        Some(data) => if data.len() == 0 {
            match s.phase {
                PhaseView::UntilClose(head) => stop(
                    s.buffer,
                    StepView::Done(response_of(head, s.buffer, false)),
                ),
                _ => stop(s.buffer, StepView::Failed),
            }
        } else {
            let buffer = s.buffer + data;
            match s.phase {
                PhaseView::Head => head_progress(buffer),
                PhaseView::Fixed(head, length) => fixed_progress(head, length, buffer),
                PhaseView::Chunked(head) => chunked_progress(head, buffer),
                PhaseView::UntilClose(head) => (
                    FetchView { phase: PhaseView::UntilClose(head), buffer },
                    StepView::ReadMore,
                ),
                PhaseView::Over => stop(buffer, StepView::Failed),
            }
        },
    }
}

/// The content of an optional byte slice.
pub open spec fn opt_bytes(read: Option<&[u8]>) -> Option<Seq<u8>> {
    match read {
        Some(b) => Some(b@),
        None => None,
    }
}

impl HttpFetch {
    /// A reader that has not received anything; its first need is a read.
    pub fn new() -> (r: Self)
        ensures
            r@.phase == PhaseView::Head,
            r@.buffer == Seq::<u8>::empty(),
    {
        HttpFetch { phase: FetchPhase::Head, buffer: Vec::new() }
    }

    fn stop_with(&mut self, step: FetchStep) -> (r: FetchStep)
        ensures
            (final(self)@, r@) == stop(old(self)@.buffer, step@),
    {
        self.phase = FetchPhase::Over;
        step
    }

    fn fixed(&mut self, head: HttpResponseHead, length: usize) -> (r: FetchStep)
        ensures
            (final(self)@, r@) == fixed_progress(head@, length, old(self)@.buffer),
    {
        if self.buffer.len() >= length {
            let body = bytes_sub(self.buffer.as_slice(), 0, length);
            let text = utf8_lossy_string(body.as_slice());
            let keep_alive = head.keep_alive;
            let status_code = head.status_code;
            let www_authenticate = head.www_authenticate;
            proof {
                assert(body@ =~= old(self)@.buffer.take(length as int));
            }
            self.stop_with(FetchStep::Done(HttpBody { body: text, keep_alive, status_code, www_authenticate }))
        } else {
            self.phase = FetchPhase::Fixed(head, length);
            FetchStep::ReadMore
        }
    }

    fn chunked(&mut self, head: HttpResponseHead) -> (r: FetchStep)
        ensures
            (final(self)@, r@) == chunked_progress(head@, old(self)@.buffer),
    {
        match ChunkedBody::decode(self.buffer.as_slice()) {
            None => self.stop_with(FetchStep::Failed),
            Some(ChunkedBody::Complete(body)) => {
                let text = utf8_lossy_string(body.as_slice());
                let keep_alive = head.keep_alive;
                let status_code = head.status_code;
                let www_authenticate = head.www_authenticate;
                self.stop_with(FetchStep::Done(HttpBody { body: text, keep_alive, status_code, www_authenticate }))
            },
            Some(ChunkedBody::Incomplete) => {
                if self.buffer.len() >= MAX_BODY_BYTES {
                    self.stop_with(FetchStep::Failed)
                } else {
                    self.phase = FetchPhase::Chunked(head);
                    FetchStep::ReadMore
                }
            },
        }
    }

    fn head(&mut self) -> (r: FetchStep)
        ensures
            (final(self)@, r@) == head_progress(old(self)@.buffer),
    {
        let parts = split_http_message(self.buffer.as_slice());
        match parts {
            None => {
                if self.buffer.len() >= MAX_HEAD_BYTES {
                    self.stop_with(FetchStep::Failed)
                } else {
                    self.phase = FetchPhase::Head;
                    FetchStep::ReadMore
                }
            },
            Some((header_block, rest)) => {
                let parsed = HttpResponseHead::parse(header_block);
                let rest_bytes = bytes_sub(rest, 0, rest.len());
                proof {
                    assert(rest_bytes@ =~= rest@);
                }
                match parsed {
                    None => self.stop_with(FetchStep::Failed),
                    Some(head) => {
                        self.buffer = rest_bytes;
                        match head.content_length {
                            Some(length) => {
                                if length > MAX_BODY_BYTES {
                                    self.stop_with(FetchStep::Failed)
                                } else {
                                    self.fixed(head, length)
                                }
                            },
                            None => {
                                if head.chunked {
                                    self.chunked(head)
                                } else {
                                    self.phase = FetchPhase::UntilClose(head);
                                    FetchStep::ReadMore
                                }
                            },
                        }
                    },
                }
            },
        }
    }

    /// Takes in the outcome of a read: `None` for a failed read, empty bytes
    /// for a closed connection, else the bytes that arrived.
    pub fn step(&mut self, read: Option<&[u8]>) -> (r: FetchStep)
        ensures
            (final(self)@, r@) == fetch_next(old(self)@, opt_bytes(read)),
    {
        let data = match read {
            None => return self.stop_with(FetchStep::Failed),
            Some(d) => d,
        };
        let mut phase = FetchPhase::Over;
        std::mem::swap(&mut phase, &mut self.phase);
        if data.len() == 0 {
            return match phase {
                FetchPhase::UntilClose(head) => {
                    let text = utf8_lossy_string(self.buffer.as_slice());
                    let status_code = head.status_code;
                    let www_authenticate = head.www_authenticate;
                    FetchStep::Done(HttpBody { body: text, keep_alive: false, status_code, www_authenticate })
                },
                _ => FetchStep::Failed,
            };
        }
        bytes_append(&mut self.buffer, data);
        match phase {
            FetchPhase::Head => self.head(),
            FetchPhase::Fixed(head, length) => self.fixed(head, length),
            FetchPhase::Chunked(head) => self.chunked(head),
            FetchPhase::UntilClose(head) => {
                self.phase = FetchPhase::UntilClose(head);
                FetchStep::ReadMore
            },
            FetchPhase::Over => FetchStep::Failed,
        }
    }
}

// ---------------------------------------------------------------------------
// Laws
// ---------------------------------------------------------------------------

/// A body of declared length is never longer than `MAX_BODY_BYTES`.
pub open spec fn fetch_wf(s: FetchView) -> bool {
    s.phase matches PhaseView::Fixed(_, length) ==> length <= MAX_BODY_BYTES
}

/// The reader stays within its limits: it asks for more only while the
/// header block is under `MAX_HEAD_BYTES`, a chunked body under
/// `MAX_BODY_BYTES` and a body of declared length short of that length; it
/// stops for good once it has an answer; and a response that lasted until
/// the connection closed is never taken as reusable.
pub proof fn lemma_fetch_bounded(s: FetchView, read: Option<Seq<u8>>)
    requires
        fetch_wf(s),
    ensures
        ({
            let (t, step) = fetch_next(s, read);
            &&& fetch_wf(t)
            &&& step is ReadMore ==> match t.phase {
                PhaseView::Head => t.buffer.len() < MAX_HEAD_BYTES,
                PhaseView::Fixed(_, length) => t.buffer.len() < length,
                PhaseView::Chunked(_) => t.buffer.len() < MAX_BODY_BYTES,
                PhaseView::UntilClose(_) => true,
                PhaseView::Over => false,
            }
            &&& !(step is ReadMore) ==> t.phase is Over
            &&& (s.phase is UntilClose && step is Done) ==> !step->Done_0.keep_alive
        }),
{
}

/// A response completed by its declared length or by the chunked coding
/// carries the connection reuse, status and challenge of its parsed head; only
/// a body that lasted until the connection closed is taken as not reusable.
/// A chunked body is the decoding of what arrived.
pub proof fn lemma_fetch_keeps_head(s: FetchView, read: Option<Seq<u8>>)
    ensures
        ({
            let (t, step) = fetch_next(s, read);
            step matches StepView::Done(b) ==> match s.phase {
                PhaseView::Head => {
                    &&& read is Some
                    &&& message_parts(s.buffer + read->0) matches Some((header_block, rest)) && (
                    response_head(header_block) matches Some(h) && {
                        &&& b.keep_alive == h.keep_alive
                        &&& b.status_code == h.status_code
                        &&& b.www_authenticate == h.www_authenticate
                    })
                },
                PhaseView::Fixed(h, _) => {
                    &&& b.keep_alive == h.keep_alive
                    &&& b.status_code == h.status_code
                    &&& b.www_authenticate == h.www_authenticate
                },
                PhaseView::Chunked(h) => {
                    &&& b.keep_alive == h.keep_alive
                    &&& b.status_code == h.status_code
                    &&& b.www_authenticate == h.www_authenticate
                    &&& read is Some && chunked_outcome(s.buffer + read->0) is Some
                    &&& chunked_outcome(s.buffer + read->0)->0 matches ChunkedView::Complete(body)
                        && b.body == lossy_utf8(body)
                },
                PhaseView::UntilClose(h) => {
                    &&& !b.keep_alive
                    &&& b.status_code == h.status_code
                    &&& b.www_authenticate == h.www_authenticate
                },
                PhaseView::Over => false,
            }
        }),
{
}

} // verus!
