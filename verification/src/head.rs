//! The boundary around the conventional HTTP head parser (the `httparse`
//! crate): given a byte buffer it reports either a complete request or
//! response head with the number of bytes it occupies, or that more bytes are
//! needed, or that the bytes are malformed. The outcome is modelled as an
//! uninterpreted function of the bytes; the facts stated beside it are what
//! the crate's source shows: the head occupies at most the whole buffer, and
//! bytes past a complete (or malformed) head never change the outcome.

use vstd::prelude::*;

verus! {

/// One header as the head parser reports it: the name is always a string,
/// the value stays raw bytes.
pub struct RawHeader {
    pub name: String,
    pub value: Vec<u8>,
}

/// The mathematical content of a raw header sequence.
pub open spec fn raw_headers_view(hs: Seq<RawHeader>) -> Seq<(Seq<char>, Seq<u8>)> {
    hs.map_values(|h: RawHeader| (h.name@, h.value@))
}

/// A complete request head: how many bytes of the buffer it occupies, the
/// method and path if present, and the headers in order.
pub struct ReqHead {
    pub consumed: usize,
    pub method: Option<String>,
    pub path: Option<String>,
    pub headers: Vec<RawHeader>,
}

/// The outcome of one attempt at parsing a request head.
pub enum ReqParse {
    Partial,
    Malformed,
    Complete(ReqHead),
}

/// The mathematical content of a complete request head.
pub struct ReqHeadView {
    pub consumed: int,
    pub method: Option<Seq<char>>,
    pub path: Option<Seq<char>>,
    pub headers: Seq<(Seq<char>, Seq<u8>)>,
}

/// The mathematical content of a request-head parse outcome.
pub enum ReqParseView {
    Partial,
    Malformed,
    Complete(ReqHeadView),
}

/// The mathematical content of a `ReqHead`.
pub open spec fn req_head_view(h: ReqHead) -> ReqHeadView {
    ReqHeadView {
        consumed: h.consumed as int,
        method: match h.method {
            Some(m) => Some(m@),
            None => None,
        },
        path: match h.path {
            Some(p) => Some(p@),
            None => None,
        },
        headers: raw_headers_view(h.headers@),
    }
}

/// The mathematical content of a `ReqParse`.
pub open spec fn req_parse_view(r: ReqParse) -> ReqParseView {
    match r {
        ReqParse::Partial => ReqParseView::Partial,
        ReqParse::Malformed => ReqParseView::Malformed,
        ReqParse::Complete(h) => ReqParseView::Complete(req_head_view(h)),
    }
}

/// What the outside request-head parser returns on a given buffer, with room
/// for sixty headers.
pub uninterp spec fn req_head_parse(b: Seq<u8>) -> ReqParseView;

/// The facts about `req_head_parse` that the parser's source shows: it
/// consumes at most the buffer; it decides on the bytes of the head alone, so
/// extending a buffer whose head is already complete, or already malformed,
/// changes nothing.
pub open spec fn req_head_parse_facts() -> bool {
    &&& forall|b: Seq<u8>|
        (#[trigger] req_head_parse(b)) matches ReqParseView::Complete(h)
            ==> 0 <= h.consumed <= b.len()
    &&& forall|b: Seq<u8>, ext: Seq<u8>|
        req_head_parse(b) is Complete ==> #[trigger] req_head_parse(b + ext) == req_head_parse(b)
    &&& forall|b: Seq<u8>, ext: Seq<u8>|
        req_head_parse(b) is Malformed ==> #[trigger] req_head_parse(b + ext) is Malformed
}

/// What a request-head parse attempt returns: the outcome named by
/// `req_head_parse`, under the facts of `req_head_parse_facts`.
pub open spec fn req_parse_post(r: ReqParse, b: Seq<u8>) -> bool {
    req_parse_view(r) == req_head_parse(b) && req_head_parse_facts()
}

/// Relies on `httparse::Request::parse` with room for sixty headers: the
/// outcome is a function of the buffer bytes alone; `Complete(n)` reports the
/// head's length within the buffer; on completion the method, path and header
/// slice are filled from the head's bytes. Parsing never reads past the head
/// it reports, which gives the extension facts.
#[verifier::external_body]
pub fn parse_request_head(buf: &[u8]) -> (r: ReqParse)
    ensures
        req_parse_view(r) == req_head_parse(buf@),
        req_parse_post(r, buf@),
{
    let mut headers = [httparse::EMPTY_HEADER; 60];
    let mut req = httparse::Request::new(&mut headers);
    match req.parse(buf) {
        Ok(httparse::Status::Complete(n)) => {
            let hs = req.headers.iter().map(|h| RawHeader { name: h.name.to_string(), value: h.value.to_vec() }).collect();
            let method = req.method.map(|m| m.to_string());
            let path = req.path.map(|p| p.to_string());
            ReqParse::Complete(ReqHead { consumed: n, method, path, headers: hs })
        },
        Ok(httparse::Status::Partial) => ReqParse::Partial,
        Err(_) => ReqParse::Malformed,
    }
}

/// A complete response head: how many bytes of the buffer it occupies, the
/// status code if present, and the headers in order.
pub struct RespHead {
    pub consumed: usize,
    pub code: Option<u16>,
    pub headers: Vec<RawHeader>,
}

/// The outcome of one attempt at parsing a response head.
pub enum RespParse {
    Partial,
    Malformed,
    Complete(RespHead),
}

/// The mathematical content of a complete response head.
pub struct RespHeadView {
    pub consumed: int,
    pub code: Option<u16>,
    pub headers: Seq<(Seq<char>, Seq<u8>)>,
}

/// The mathematical content of a response-head parse outcome.
pub enum RespParseView {
    Partial,
    Malformed,
    Complete(RespHeadView),
}

/// The mathematical content of a `RespParse`.
pub open spec fn resp_parse_view(r: RespParse) -> RespParseView {
    match r {
        RespParse::Partial => RespParseView::Partial,
        RespParse::Malformed => RespParseView::Malformed,
        RespParse::Complete(h) => RespParseView::Complete(
            RespHeadView {
                consumed: h.consumed as int,
                code: h.code,
                headers: raw_headers_view(h.headers@),
            },
        ),
    }
}

/// What the outside response-head parser returns on a given buffer, with
/// room for sixty headers.
pub uninterp spec fn resp_head_parse(b: Seq<u8>) -> RespParseView;

/// The fact about `resp_head_parse` that the parser's source shows: a
/// complete head occupies at most the whole buffer.
pub open spec fn resp_head_parse_facts() -> bool {
    forall|b: Seq<u8>|
        (#[trigger] resp_head_parse(b)) matches RespParseView::Complete(h)
            ==> 0 <= h.consumed <= b.len()
}

/// What a response-head parse attempt returns: the outcome named by
/// `resp_head_parse`, under the fact of `resp_head_parse_facts`.
pub open spec fn resp_parse_post(r: RespParse, b: Seq<u8>) -> bool {
    resp_parse_view(r) == resp_head_parse(b) && resp_head_parse_facts()
}

/// Relies on `httparse::Response::parse` with room for sixty headers: the
/// outcome is a function of the buffer bytes alone; `Complete(n)` reports the
/// head's length within the buffer; on completion the status code and header
/// slice are filled from the head's bytes.
#[verifier::external_body]
pub fn parse_response_head(buf: &[u8]) -> (r: RespParse)
    ensures
        resp_parse_view(r) == resp_head_parse(buf@),
        resp_parse_post(r, buf@),
{
    let mut headers = [httparse::EMPTY_HEADER; 60];
    let mut resp = httparse::Response::new(&mut headers);
    match resp.parse(buf) {
        Ok(httparse::Status::Complete(n)) => {
            let hs = resp.headers.iter().map(|h| RawHeader { name: h.name.to_string(), value: h.value.to_vec() }).collect();
            RespParse::Complete(RespHead { consumed: n, code: resp.code, headers: hs })
        },
        Ok(httparse::Status::Partial) => RespParse::Partial,
        Err(_) => RespParse::Malformed,
    }
}

} // verus!
