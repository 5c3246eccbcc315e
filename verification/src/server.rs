//! The server-side incremental HTTP request parser, as a state machine fed
//! one received chunk at a time: bytes accumulate until the head parser
//! reports a complete head, then the declared `Content-Length` drives body
//! accumulation until the request is complete. The loop that reads from a
//! socket hands each chunk to `RequestParser::feed`; a zero-length chunk
//! stands for the peer closing early and is fatal for the request.

use vstd::prelude::*;
use vstd::utf8::{decode_utf8, valid_utf8};
use crate::head::{
    parse_request_head, raw_headers_view, req_head_parse, req_head_parse_facts, RawHeader,
    ReqHeadView, ReqParse, ReqParseView,
};
use crate::req::{HttpServerHeader, HttpServerRequest, RequestView};
use crate::stack::{TcpError, TcpSocket};
use crate::text::parse_usize_model;

verus! {

/// The server-side error kind: a parse failure (or closed peer) aborts the
/// current connection as `Unknown`; transport failures are carried through.
#[derive(Debug, Copy, Clone, PartialEq, Eq, Structural)]
pub enum HttpServerError {
    Unknown,
    TcpError(TcpError),
}

impl From<TcpError> for HttpServerError {
    fn from(v: TcpError) -> (r: Self)
        ensures
            r == HttpServerError::TcpError(v),
    {
        HttpServerError::TcpError(v)
    }
}

impl vstd::std_specs::convert::FromSpecImpl<TcpError> for HttpServerError {
    open spec fn obeys_from_spec() -> bool {
        true
    }

    open spec fn from_spec(t: TcpError) -> Self {
        HttpServerError::TcpError(t)
    }
}

/// The `Content-Length` value a single header contributes: its value read as
/// a decimal number, provided the header bears that exact name and its value
/// bytes decode as text.
pub open spec fn header_cl_value(h: (Seq<char>, Seq<u8>)) -> Option<int> {
    if h.0 == "Content-Length"@ && valid_utf8(h.1) {
        parse_usize_model(decode_utf8(h.1))
    } else {
        None
    }
}

/// The declared body length: the first header named `Content-Length` whose
/// value reads as a decimal number; absent means no declared body.
pub open spec fn content_length_of(hs: Seq<(Seq<char>, Seq<u8>)>) -> Option<int>
    decreases hs.len(),
{
    if hs.len() == 0 {
        None
    } else if header_cl_value(hs.first()) is Some {
        header_cl_value(hs.first())
    } else {
        content_length_of(hs.drop_first())
    }
}

/// Reads the declared body length out of a header sequence, as
/// `content_length_of` states it.
pub fn content_length(headers: &Vec<RawHeader>) -> (r: Option<usize>)
    ensures
        match r {
            Some(v) => content_length_of(raw_headers_view(headers@)) == Some(v as int),
            None => content_length_of(raw_headers_view(headers@)) is None,
        },
{
    let ghost hv = raw_headers_view(headers@);
    let n = headers.len();
    proof {
        assert(hv.skip(0) =~= hv);
    }
    let mut i: usize = 0;
    while i < n
        invariant
            0 <= i <= n,
            n == headers@.len(),
            hv == raw_headers_view(headers@),
            hv.len() == n,
            content_length_of(hv) == content_length_of(hv.skip(i as int)),
        decreases n - i,
    {
        let h = &headers[i];
        proof {
            assert(hv[i as int] == (h.name@, h.value@));
            assert(hv.skip(i as int).first() == hv[i as int]);
            assert(hv.skip(i as int).drop_first() =~= hv.skip(i as int + 1));
        }
        if crate::text::str_eq(h.name.as_str(), "Content-Length") {
            if let Some(text) = crate::text::bytes_to_string(h.value.as_slice()) {
                if let Some(v) = crate::text::parse_usize(text.as_str()) {
                    assert(header_cl_value(hv.skip(i as int).first()) == Some(v as int));
                    return Some(v);
                }
            }
        }
        assert(header_cl_value(hv.skip(i as int).first()) is None);
        i = i + 1;
    }
    assert(hv.skip(n as int) =~= Seq::<(Seq<char>, Seq<u8>)>::empty());
    None
}

/// The headers that survive conversion to text: every header whose value
/// bytes decode as text, in order, with the value decoded.
pub open spec fn kept_headers(hs: Seq<(Seq<char>, Seq<u8>)>) -> Seq<(Seq<char>, Seq<char>)>
    decreases hs.len(),
{
    if hs.len() == 0 {
        Seq::empty()
    } else {
        let rest = kept_headers(hs.drop_first());
        if valid_utf8(hs.first().1) {
            seq![(hs.first().0, decode_utf8(hs.first().1))] + rest
        } else {
            rest
        }
    }
}

/// Converts raw headers into owned text pairs, dropping the ones whose value
/// is not text, as `kept_headers` states it.
pub fn convert_headers(headers: &Vec<RawHeader>) -> (r: Vec<HttpServerHeader>)
    ensures
        r@.map_values(|h: HttpServerHeader| h@) == kept_headers(raw_headers_view(headers@)),
{
    let ghost hv = raw_headers_view(headers@);
    let n = headers.len();
    let mut out: Vec<HttpServerHeader> = Vec::new();
    proof {
        assert(hv.skip(0) =~= hv);
        assert(out@.map_values(|h: HttpServerHeader| h@) =~= Seq::<(Seq<char>, Seq<char>)>::empty());
        assert(out@.map_values(|h: HttpServerHeader| h@) + kept_headers(hv) =~= kept_headers(hv));
    }
    let mut i: usize = 0;
    while i < n
        invariant
            0 <= i <= n,
            n == headers@.len(),
            hv == raw_headers_view(headers@),
            hv.len() == n,
            kept_headers(hv) == out@.map_values(|h: HttpServerHeader| h@) + kept_headers(
                hv.skip(i as int),
            ),
        decreases n - i,
    {
        let h = &headers[i];
        proof {
            assert(hv[i as int] == (h.name@, h.value@));
            assert(hv.skip(i as int).first() == hv[i as int]);
            assert(hv.skip(i as int).drop_first() =~= hv.skip(i as int + 1));
        }
        let ghost prev = out@;
        if let Some(text) = crate::text::bytes_to_string(h.value.as_slice()) {
            out.push(HttpServerHeader { name: h.name.clone(), value: text });
            proof {
                assert(out@.map_values(|h: HttpServerHeader| h@) =~= prev.map_values(
                    |h: HttpServerHeader| h@,
                ) + seq![(hv[i as int].0, decode_utf8(hv[i as int].1))]);
                assert(prev.map_values(|h: HttpServerHeader| h@) + (seq![
                    (hv[i as int].0, decode_utf8(hv[i as int].1)),
                ] + kept_headers(hv.skip(i as int + 1))) =~= out@.map_values(
                    |h: HttpServerHeader| h@,
                ) + kept_headers(hv.skip(i as int + 1)));
            }
        }
        i = i + 1;
    }
    proof {
        assert(hv.skip(n as int) =~= Seq::<(Seq<char>, Seq<u8>)>::empty());
        assert(kept_headers(hv) =~= out@.map_values(|h: HttpServerHeader| h@));
    }
    out
}

/// The parser's abstract state: accumulating head bytes, accumulating body
/// bytes under a declared length, done with a complete request, or failed.
pub enum ParserModel {
    Headers { acc: Seq<u8> },
    Body {
        method: Option<Seq<char>>,
        path: Option<Seq<char>>,
        headers: Seq<(Seq<char>, Seq<char>)>,
        declared: int,
        body: Seq<u8>,
    },
    Done { req: RequestView },
    Failed,
}

/// The state a fresh parser starts in: no bytes accumulated.
pub open spec fn init_model() -> ParserModel {
    ParserModel::Headers { acc: Seq::empty() }
}

/// The request a complete head and a body yield.
pub open spec fn complete_request(h: ReqHeadView, body: Seq<u8>) -> RequestView {
    RequestView { method: h.method, path: h.path, headers: kept_headers(h.headers), body }
}

/// How many bytes the next read should be bounded by, in each parser phase.
pub open spec fn next_read_model(m: ParserModel) -> int {
    match m {
        ParserModel::Headers { .. } => 64,
        ParserModel::Body { declared, body, .. } => {
            let rem = declared - body.len();
            if rem <= 0 {
                0
            } else if rem < 64 {
                rem
            } else {
                64
            }
        },
        _ => 0,
    }
}

/// One step of the parser on one received chunk. An empty chunk (the peer
/// closed) fails the request. In the head phase the whole accumulated buffer
/// is offered to the head parser after every chunk; once the head is
/// complete, the bytes past it begin the body, and the request is complete
/// as soon as the body reaches the declared length (immediately, when no
/// length is declared). Extra bytes already received stay in the body.
pub open spec fn feed_model(m: ParserModel, chunk: Seq<u8>) -> ParserModel {
    match m {
        ParserModel::Headers { acc } => {
            if chunk.len() == 0 {
                ParserModel::Failed
            } else {
                let acc2 = acc + chunk;
                match req_head_parse(acc2) {
                    ReqParseView::Partial => ParserModel::Headers { acc: acc2 },
                    ReqParseView::Malformed => ParserModel::Failed,
                    ReqParseView::Complete(h) => {
                        let body0 = acc2.skip(h.consumed);
                        match content_length_of(h.headers) {
                            None => ParserModel::Done { req: complete_request(h, body0) },
                            Some(d) => {
                                if body0.len() >= d {
                                    ParserModel::Done { req: complete_request(h, body0) }
                                } else {
                                    ParserModel::Body {
                                        method: h.method,
                                        path: h.path,
                                        headers: kept_headers(h.headers),
                                        declared: d,
                                        body: body0,
                                    }
                                }
                            },
                        }
                    },
                }
            }
        },
        ParserModel::Body { method, path, headers, declared, body } => {
            if chunk.len() == 0 {
                ParserModel::Failed
            } else {
                let body2 = body + chunk;
                if body2.len() >= declared {
                    ParserModel::Done {
                        req: RequestView { method, path, headers, body: body2 },
                    }
                } else {
                    ParserModel::Body { method, path, headers, declared, body: body2 }
                }
            }
        },
        ParserModel::Done { req } => ParserModel::Done { req },
        ParserModel::Failed => ParserModel::Failed,
    }
}

enum ParserState {
    Headers { acc: Vec<u8> },
    Body {
        method: Option<String>,
        path: Option<String>,
        headers: Vec<HttpServerHeader>,
        declared: usize,
        body: Vec<u8>,
    },
    Done { request: HttpServerRequest },
    Failed,
}

/// The incremental request parser. Feed it each received chunk; it reports
/// whether more bytes are needed, the request is complete, or the bytes were
/// malformed.
pub struct RequestParser {
    state: ParserState,
}

/// What one call of `feed` reports.
#[derive(Debug, Copy, Clone, PartialEq, Eq, Structural)]
pub enum FeedResult {
    NeedMore,
    Complete,
    Error,
}

impl View for RequestParser {
    type V = ParserModel;

    closed spec fn view(&self) -> ParserModel {
        match self.state {
            ParserState::Headers { ref acc } => ParserModel::Headers { acc: acc@ },
            ParserState::Body { ref method, ref path, ref headers, declared, ref body } => {
                ParserModel::Body {
                    method: match method {
                        Some(m) => Some(m@),
                        None => None,
                    },
                    path: match path {
                        Some(p) => Some(p@),
                        None => None,
                    },
                    headers: headers@.map_values(|h: HttpServerHeader| h@),
                    declared: declared as int,
                    body: body@,
                }
            },
            ParserState::Done { ref request } => ParserModel::Done { req: request@ },
            ParserState::Failed => ParserModel::Failed,
        }
    }
}

impl RequestParser {
    /// A fresh parser, ready for the first chunk.
    pub fn new() -> (r: RequestParser)
        ensures
            r@ == init_model(),
    {
        let p = RequestParser { state: ParserState::Headers { acc: Vec::new() } };
        proof {
            assert(p@->Headers_acc =~= Seq::<u8>::empty());
        }
        p
    }

    /// Offers one received chunk to the parser; an empty chunk means the
    /// peer closed. The parser moves exactly as `feed_model` states, and the
    /// report names the phase it lands in.
    pub fn feed(&mut self, chunk: &[u8]) -> (r: FeedResult)
        requires
            old(self)@ is Headers || old(self)@ is Body,
        ensures
            final(self)@ == feed_model(old(self)@, chunk@),
            r is Complete <==> final(self)@ is Done,
            r is Error <==> final(self)@ is Failed,
            (old(self)@ is Headers && chunk@.len() > 0) ==> req_head_parse_facts(),
    {
        let mut st = ParserState::Failed;
        core::mem::swap(&mut st, &mut self.state);
        match st {
            ParserState::Headers { mut acc } => {
                if chunk.len() == 0 {
                    self.state = ParserState::Failed;
                    return FeedResult::Error;
                }
                acc.extend_from_slice(chunk);
                proof {
                    assert(acc@ == old(self)@->Headers_acc + chunk@);
                }
                match parse_request_head(acc.as_slice()) {
                    ReqParse::Partial => {
                        self.state = ParserState::Headers { acc };
                        FeedResult::NeedMore
                    },
                    ReqParse::Malformed => {
                        self.state = ParserState::Failed;
                        FeedResult::Error
                    },
                    ReqParse::Complete(h) => {
                        let ghost hm = crate::head::req_head_view(h);
                        let acc_len = acc.len();
                        let body0 = vstd::slice::slice_to_vec(
                            vstd::slice::slice_subrange(acc.as_slice(), h.consumed, acc_len),
                        );
                        proof {
                            assert(body0@ =~= acc@.skip(hm.consumed));
                        }
                        let cl = content_length(&h.headers);
                        let converted = convert_headers(&h.headers);
                        match cl {
                            Some(d) if body0.len() < d => {
                                self.state = ParserState::Body {
                                    method: h.method,
                                    path: h.path,
                                    headers: converted,
                                    declared: d,
                                    body: body0,
                                };
                                FeedResult::NeedMore
                            },
                            _ => {
                                let request = HttpServerRequest {
                                    method: h.method,
                                    path: h.path,
                                    body: body0,
                                    headers: converted,
                                };
                                proof {
                                    assert(request@ == complete_request(hm, request.body@));
                                }
                                self.state = ParserState::Done { request };
                                FeedResult::Complete
                            },
                        }
                    },
                }
            },
            ParserState::Body { method, path, headers, declared, mut body } => {
                if chunk.len() == 0 {
                    self.state = ParserState::Failed;
                    return FeedResult::Error;
                }
                body.extend_from_slice(chunk);
                proof {
                    assert(old(self)@ is Body);
                    assert(body@ == old(self)@->Body_body + chunk@);
                    assert(declared as int == old(self)@->Body_declared);
                    assert(headers@.map_values(|h: HttpServerHeader| h@) == old(
                        self,
                    )@->Body_headers);
                }
                if body.len() >= declared {
                    let request = HttpServerRequest { method, path, body, headers };
                    self.state = ParserState::Done { request };
                    FeedResult::Complete
                } else {
                    self.state = ParserState::Body { method, path, headers, declared, body };
                    FeedResult::NeedMore
                }
            },
            ParserState::Done { request } => {
                // Unreachable under the precondition; the request is kept.
                self.state = ParserState::Done { request };
                FeedResult::Complete
            },
            ParserState::Failed => {
                self.state = ParserState::Failed;
                FeedResult::Error
            },
        }
    }

    /// How many bytes the next read should be bounded by: the fixed receive
    /// buffer size in the head phase, and no more than what the declared
    /// body length still misses afterwards.
    pub fn next_read_len(&self) -> (r: usize)
        ensures
            r == next_read_model(self@),
    {
        match &self.state {
            ParserState::Headers { .. } => 64,
            ParserState::Body { declared, body, .. } => {
                if *declared <= body.len() {
                    0
                } else {
                    let remaining = *declared - body.len();
                    if remaining < 64 {
                        remaining
                    } else {
                        64
                    }
                }
            },
            _ => 0,
        }
    }

    /// Hands out the completed request.
    pub fn into_request(self) -> (r: HttpServerRequest)
        requires
            self@ is Done,
        ensures
            r@ == self@->Done_req,
    {
        match self.state {
            ParserState::Done { request } => request,
            _ => {
                proof {
                    assert(false);
                }
                HttpServerRequest {
                    method: None,
                    path: None,
                    body: Vec::new(),
                    headers: Vec::new(),
                }
            },
        }
    }
}

/// The concatenation of a sequence of chunks.
pub open spec fn concat_chunks(parts: Seq<Seq<u8>>) -> Seq<u8>
    decreases parts.len(),
{
    if parts.len() == 0 {
        Seq::empty()
    } else {
        parts.first() + concat_chunks(parts.drop_first())
    }
}

/// The parser's state after feeding a sequence of chunks in order.
pub open spec fn feed_all_model(m: ParserModel, parts: Seq<Seq<u8>>) -> ParserModel
    decreases parts.len(),
{
    if parts.len() == 0 {
        m
    } else {
        feed_all_model(feed_model(m, parts.first()), parts.drop_first())
    }
}

/// Whether a buffer holds exactly one complete request: a complete head,
/// followed by exactly as many body bytes as the head declares (none, when
/// no length is declared).
pub open spec fn exact_request(b: Seq<u8>) -> bool {
    match req_head_parse(b) {
        ReqParseView::Complete(h) => b.len() == h.consumed + (
        match content_length_of(h.headers) {
            Some(d) => d,
            None => 0,
        }),
        _ => false,
    }
}

/// A declared body length is never negative.
pub proof fn lemma_content_length_nonneg(hs: Seq<(Seq<char>, Seq<u8>)>, d: int)
    requires
        content_length_of(hs) == Some(d),
    ensures
        d >= 0,
    decreases hs.len(),
{
    if hs.len() != 0 {
        if header_cl_value(hs.first()) is Some {
            let t = decode_utf8(hs.first().1);
            let u = if t.len() > 0 && t[0] == '+' {
                t.skip(1)
            } else {
                t
            };
            crate::text::lemma_dec_value_nonneg(u);
        } else {
            lemma_content_length_nonneg(hs.drop_first(), d);
        }
    }
}

/// The state the parser must be in after being fed the first `i` bytes of a
/// buffer that holds exactly one complete request, however those bytes were
/// chunked.
pub open spec fn expected_state(c: Seq<u8>) -> ParserModel {
    if c.len() == 0 {
        init_model()
    } else {
        feed_model(init_model(), c)
    }
}

/// Feeding the bytes from position `i` to `j` of an exact request buffer
/// moves the parser from the state expected at `i` to the state expected at
/// `j`.
proof fn lemma_expected_step(b: Seq<u8>, i: int, j: int)
    requires
        req_head_parse_facts(),
        exact_request(b),
        0 <= i < j <= b.len(),
    ensures
        feed_model(expected_state(b.take(i)), b.subrange(i, j)) == expected_state(b.take(j)),
{
    let pi = b.take(i);
    let pj = b.take(j);
    let x = b.subrange(i, j);
    let hb = req_head_parse(b)->Complete_0;
    assert(pi + x =~= pj);
    assert(pj + b.skip(j) =~= b);
    assert(pi + b.skip(i) =~= b);
    // The head parse of any prefix is partial, or agrees with the whole
    // buffer's: a malformed or differently-completed prefix would force the
    // whole buffer to parse the same way.
    if req_head_parse(pj) is Malformed {
        assert(req_head_parse(pj + b.skip(j)) is Malformed);
        assert(false);
    }
    if req_head_parse(pj) is Complete {
        assert(req_head_parse(pj + b.skip(j)) == req_head_parse(pj));
    }
    if req_head_parse(pi) is Malformed {
        assert(req_head_parse(pi + b.skip(i)) is Malformed);
        assert(false);
    }
    if req_head_parse(pi) is Complete {
        assert(req_head_parse(pi + b.skip(i)) == req_head_parse(pi));
    }
    if pi.len() == 0 || req_head_parse(pi) is Partial {
        // Still accumulating head bytes: the parser holds exactly the bytes
        // fed so far, and feeding x makes the accumulation pj.
        assert(expected_state(pi) == ParserModel::Headers { acc: pi });
        assert(feed_model(expected_state(pi), x) == expected_state(pj));
    } else {
        let h = req_head_parse(pi)->Complete_0;
        assert(h == hb);
        assert(0 <= h.consumed <= pi.len());
        match content_length_of(h.headers) {
            None => {
                // No declared body: the buffer ends exactly at the head, so a
                // complete parse at a proper prefix is impossible.
                assert(b.len() == h.consumed);
                assert(false);
            },
            Some(d) => {
                lemma_content_length_nonneg(h.headers, d);
                assert(b.len() == h.consumed + d);
                let body0 = pi.skip(h.consumed);
                assert(body0.len() == i - h.consumed);
                if body0.len() >= d {
                    assert(i >= h.consumed + d == b.len());
                    assert(false);
                }
                assert(expected_state(pi) == ParserModel::Body {
                    method: h.method,
                    path: h.path,
                    headers: kept_headers(h.headers),
                    declared: d,
                    body: body0,
                });
                assert(body0 + x =~= pj.skip(h.consumed));
                assert(feed_model(expected_state(pi), x) == expected_state(pj));
            },
        }
    }
}

/// Feeding chunks that spell out the rest of an exact request buffer, from
/// the state expected at position `i`, ends in the one-shot outcome.
proof fn lemma_feed_all_from(b: Seq<u8>, parts: Seq<Seq<u8>>, i: int)
    requires
        req_head_parse_facts(),
        exact_request(b),
        b.len() > 0,
        0 <= i <= b.len(),
        concat_chunks(parts) == b.skip(i),
        forall|k: int| 0 <= k < parts.len() ==> #[trigger] parts[k].len() > 0,
    ensures
        feed_all_model(expected_state(b.take(i)), parts) == feed_model(init_model(), b),
    decreases parts.len(),
{
    if parts.len() == 0 {
        assert(b.skip(i).len() == 0);
        assert(i == b.len());
        assert(b.take(i) =~= b);
    } else {
        let x = parts.first();
        let rest = parts.drop_first();
        assert(x + concat_chunks(rest) == b.skip(i));
        assert(x.len() <= b.skip(i).len());
        let j = i + x.len();
        assert(x =~= b.subrange(i, j)) by {
            assert(forall|k: int|
                0 <= k < x.len() ==> x[k] == #[trigger] b.skip(i)[k] && b.skip(i)[k] == b[i + k]);
        }
        assert(concat_chunks(rest) =~= b.skip(j)) by {
            assert(forall|k: int|
                0 <= k < concat_chunks(rest).len() ==> #[trigger] concat_chunks(rest)[k] == b.skip(
                    i,
                )[x.len() + k]);
        }
        lemma_expected_step(b, i, j);
        lemma_feed_all_from(b, rest, j);
    }
}

/// Law: a buffer holding exactly one complete request parses to the same
/// request however it is split into nonempty chunks; in particular, feeding
/// it chunk by chunk ends complete, with the same method, path, headers and
/// body as feeding it whole, which ends complete as well.
pub proof fn lemma_parse_chunking_irrelevant(b: Seq<u8>, parts: Seq<Seq<u8>>)
    requires
        req_head_parse_facts(),
        exact_request(b),
        b.len() > 0,
        concat_chunks(parts) == b,
        forall|k: int| 0 <= k < parts.len() ==> #[trigger] parts[k].len() > 0,
    ensures
        feed_all_model(init_model(), parts) == feed_model(init_model(), b),
        feed_model(init_model(), b) is Done,
{
    assert(b.skip(0) =~= b);
    assert(b.take(0).len() == 0);
    lemma_feed_all_from(b, parts, 0);
    let h = req_head_parse(b)->Complete_0;
    match content_length_of(h.headers) {
        None => {},
        Some(d) => {
            assert(b.skip(h.consumed).len() >= d);
        },
    }
}

/// Law: a request declaring a body length, arriving as exactly the head and
/// that many body bytes, completes with a body of exactly the declared
/// length.
pub proof fn lemma_content_length_boundary(b: Seq<u8>, h: ReqHeadView, d: int)
    requires
        req_head_parse_facts(),
        req_head_parse(b) == ReqParseView::Complete(h),
        content_length_of(h.headers) == Some(d),
        b.len() == h.consumed + d,
        b.len() > 0,
    ensures
        feed_model(init_model(), b) == (ParserModel::Done {
            req: complete_request(h, b.skip(h.consumed)),
        }),
        complete_request(h, b.skip(h.consumed)).body.len() == d,
{
    lemma_content_length_nonneg(h.headers, d);
    assert(b.skip(h.consumed).len() == d);
}

/// Law: the peer closing (an empty chunk) before the request is complete is
/// fatal for the request.
pub proof fn lemma_early_close_fails(m: ParserModel)
    requires
        m is Headers || m is Body,
    ensures
        feed_model(m, Seq::empty()) is Failed,
{
}

/// One accepted connection, bundling the parsed request with the connection's
/// socket so a handler can read the one and reply on the other.
pub struct HttpContext<S> where S: TcpSocket {
    pub request: HttpServerRequest,
    pub socket: S,
}

impl<S> crate::resp::HttpResponseWriter for HttpContext<S> where S: TcpSocket {
    /// Writes response bytes to the connection's socket, discarding the byte
    /// count as the transport's send reports it.
    fn write(&mut self, data: &[u8]) -> (r: Result<(), TcpError>) {
        match self.socket.send(data) {
            Ok(_) => Ok(()),
            Err(e) => Err(e),
        }
    }
}

} // verus!
