//! The HTTP client request cycle: parse the URL, pick the port, resolve the
//! authority, connect, send one GET request, read until the peer closes, and
//! classify the response. Only a status in the 200 range counts as success;
//! every other valid status is a hard failure that carries no body.

use vstd::prelude::*;
use crate::head::{parse_response_head, resp_head_parse, RespParse, RespParseView};
use crate::server::{convert_headers, kept_headers};
use crate::stack::{SocketAddr, TcpError, TcpSocket, TcpStack};
use crate::text::push_decimal;
use crate::url::{url_of, Authority, Url};

verus! {

/// The client-side error kind: transport failures, response-head parse
/// failures, an incomplete or statusless response, a non-success status, and
/// the URL errors.
#[derive(Debug, Clone)]
pub enum HttpClientError {
    TcpError(TcpError),
    HttpParseError,
    IncompleteResponse,
    MissingReponseCode,
    FailedStatusCode(u16),
    UrlParseError,
    UrlPortParseError,
    UnsupportedUrlScheme(String),
}

impl From<TcpError> for HttpClientError {
    fn from(e: TcpError) -> (r: Self)
        ensures
            r == HttpClientError::TcpError(e),
    {
        HttpClientError::TcpError(e)
    }
}

impl vstd::std_specs::convert::FromSpecImpl<TcpError> for HttpClientError {
    open spec fn obeys_from_spec() -> bool {
        true
    }

    open spec fn from_spec(e: TcpError) -> Self {
        HttpClientError::TcpError(e)
    }
}

/// A successful response: the headers whose values are text, in order, and
/// the raw body bytes. The status code was checked and discarded.
#[derive(Debug)]
pub struct Response {
    pub headers: Vec<(String, String)>,
    pub body: Vec<u8>,
}

/// The mathematical content of a response.
pub struct ResponseView {
    pub headers: Seq<(Seq<char>, Seq<char>)>,
    pub body: Seq<u8>,
}

/// The mathematical content of a sequence of header pairs.
pub open spec fn pairs_view(s: Seq<(String, String)>) -> Seq<(Seq<char>, Seq<char>)> {
    s.map_values(|p: (String, String)| (p.0@, p.1@))
}

impl View for Response {
    type V = ResponseView;

    open spec fn view(&self) -> ResponseView {
        ResponseView { headers: pairs_view(self.headers@), body: self.body@ }
    }
}

/// What turning a response body into a value can report.
#[derive(Debug, Copy, Clone, PartialEq, Eq, Structural)]
pub enum ResponseError {
    DeserializeError,
}

/// How a raw response buffer is classified, on each head-parse outcome: an
/// incomplete head, a malformed head, a head without a status code, a status
/// outside the 200 range, or success with the headers kept as text and the
/// bytes past the head as the body.
pub open spec fn response_outcome(b: Seq<u8>, r: Result<Response, HttpClientError>) -> bool {
    match resp_head_parse(b) {
        RespParseView::Partial => r == Result::<Response, HttpClientError>::Err(
            HttpClientError::IncompleteResponse,
        ),
        RespParseView::Malformed => r == Result::<Response, HttpClientError>::Err(
            HttpClientError::HttpParseError,
        ),
        RespParseView::Complete(h) => match h.code {
            None => r == Result::<Response, HttpClientError>::Err(
                HttpClientError::MissingReponseCode,
            ),
            Some(c) => {
                if 200 <= c <= 299 {
                    match r {
                        Ok(resp) => resp@.headers == kept_headers(h.headers) && resp@.body
                            == b.skip(h.consumed),
                        Err(_) => false,
                    }
                } else {
                    r == Result::<Response, HttpClientError>::Err(
                        HttpClientError::FailedStatusCode(c),
                    )
                }
            },
        },
    }
}

/// Classifies a raw response buffer, as `response_outcome` states it: success
/// exactly for a complete head bearing a status in the 200 range.
pub fn parse_response(buf: &[u8]) -> (r: Result<Response, HttpClientError>)
    ensures
        response_outcome(buf@, r),
{
    match parse_response_head(buf) {
        RespParse::Partial => Err(HttpClientError::IncompleteResponse),
        RespParse::Malformed => Err(HttpClientError::HttpParseError),
        RespParse::Complete(h) => {
            let code = match h.code {
                Some(c) => c,
                None => {
                    return Err(HttpClientError::MissingReponseCode);
                },
            };
            if !(200 <= code && code <= 299) {
                return Err(HttpClientError::FailedStatusCode(code));
            }
            let buf_len = buf.len();
            let body = vstd::slice::slice_to_vec(
                vstd::slice::slice_subrange(buf, h.consumed, buf_len),
            );
            proof {
                assert(body@ =~= buf@.skip(h.consumed as int));
            }
            let kept = convert_headers(&h.headers);
            let ghost km = crate::req::headers_seq_view(kept@);
            proof {
                assert(km =~= kept_headers(crate::head::raw_headers_view(h.headers@)));
            }
            let mut headers: Vec<(String, String)> = Vec::new();
            let n = kept.len();
            let mut i: usize = 0;
            while i < n
                invariant
                    0 <= i <= n,
                    n == kept@.len(),
                    km == crate::req::headers_seq_view(kept@),
                    pairs_view(headers@) == km.take(i as int),
                decreases n - i,
            {
                let hh = &kept[i];
                let ghost prev = headers@;
                let name_c = hh.name.clone();
                let value_c = hh.value.clone();
                let ghost nv = name_c@;
                let ghost vv = value_c@;
                headers.push((name_c, value_c));
                proof {
                    assert(km[i as int] == (hh.name@, hh.value@));
                    assert(pairs_view(prev).len() == prev.len());
                    assert(km.take(i as int).len() == i);
                    assert(prev.len() == i);
                    assert(headers@.len() == prev.len() + 1);
                    assert(pairs_view(headers@)[i as int] == (nv, vv));
                    assert forall|j: int| 0 <= j < i + 1 implies #[trigger] pairs_view(headers@)[j]
                        == km.take(i + 1)[j] by {
                        if j < i {
                            assert(headers@[j] == prev[j]);
                            assert(pairs_view(prev)[j] == km.take(i as int)[j]);
                        } else {
                            assert(pairs_view(headers@)[j] == (nv, vv));
                            assert(nv == hh.name@ && vv == hh.value@);
                        }
                    }
                    assert(pairs_view(headers@) =~= km.take(i + 1));
                }
                i = i + 1;
            }
            proof {
                assert(km.take(n as int) =~= km);
            }
            Ok(Response { headers, body })
        },
    }
}

/// Law: a complete response head bearing a status code is classified by the
/// code alone — a code in the 200 range succeeds, and every other code is
/// reported as `FailedStatusCode` carrying exactly that code.
pub proof fn lemma_status_classification(
    b: Seq<u8>,
    r: Result<Response, HttpClientError>,
    h: crate::head::RespHeadView,
    c: u16,
)
    requires
        response_outcome(b, r),
        resp_head_parse(b) == RespParseView::Complete(h),
        h.code == Some(c),
    ensures
        200 <= c <= 299 ==> r is Ok,
        !(200 <= c <= 299) ==> r == Result::<Response, HttpClientError>::Err(
            HttpClientError::FailedStatusCode(c),
        ),
{
}

/// The exact characters of the one request this client sends: a GET for the
/// path, a `Host` header, and `Connection: close`.
pub open spec fn request_chars(path: Seq<char>, host: Seq<char>) -> Seq<char> {
    "GET "@ + path + " HTTP/1.1\r\nHost: "@ + host + "\r\nConnection: close\r\n\r\n"@
}

/// Renders the request this client sends, as `request_chars` states it.
pub fn render_request(path: &str, host: &str) -> (r: String)
    ensures
        r@ == request_chars(path@, host@),
{
    let mut out = String::new();
    out.append("GET ");
    out.append(path);
    out.append(" HTTP/1.1\r\nHost: ");
    out.append(host);
    out.append("\r\nConnection: close\r\n\r\n");
    assert(out@ =~= request_chars(path@, host@));
    out
}

/// The port a parsed URL asks for: an explicit port wins; otherwise the
/// `http` scheme means its well-known port, and any other scheme is refused.
pub open spec fn port_decision(u: crate::url::UrlView) -> Option<u16> {
    match u.port {
        Some(p) => Some(p),
        None => if u.scheme == "http"@ {
            Some(80u16)
        } else {
            None
        },
    }
}

/// Issues one GET request for a URL over the given stack and classifies the
/// reply. The URL errors are decided by the URL alone: a string that does not
/// match the grammar is `UrlParseError`, and a portless URL of a scheme other
/// than `http` is `UnsupportedUrlScheme`. Whatever else comes back, it is the
/// classification of some raw reply, or a transport error.
pub fn http_get<S: TcpStack>(stack: &mut S, url: &str) -> (r: Result<Response, HttpClientError>)
    ensures
        (r matches Err(e) && e == HttpClientError::UrlParseError) <==> url_of(url@) is None,
        match url_of(url@) {
            None => true,
            Some(u) => match port_decision(u) {
                None => (r matches Err(e) && (e matches HttpClientError::UnsupportedUrlScheme(
                    sch,
                ) && sch@ == u.scheme)),
                Some(_) => match r {
                    Ok(resp) => exists|raw: Seq<u8>|
                        #[trigger] response_outcome(raw, Ok(Response { headers: resp.headers, body: resp.body })),
                    Err(e) => !(e matches HttpClientError::UrlParseError) && !(
                    e matches HttpClientError::UnsupportedUrlScheme(_)),
                },
            },
        },
{
    let url_parsed = match Url::parse(url) {
        Some(u) => u,
        None => {
            return Err(HttpClientError::UrlParseError);
        },
    };
    let port: u16 = match url_parsed.port {
        Some(p) => p,
        None => {
            if crate::text::str_eq(url_parsed.scheme.as_str(), "http") {
                80
            } else {
                return Err(HttpClientError::UnsupportedUrlScheme(url_parsed.scheme.clone()));
            }
        },
    };
    let socket_addr = match &url_parsed.authority {
        Authority::Hostname(h) => {
            let mut host_and_port = h.clone();
            host_and_port.append(":");
            push_decimal(port as usize, &mut host_and_port);
            match stack.get_socket_address(host_and_port.as_str()) {
                Ok(a) => a,
                Err(e) => {
                    return Err(HttpClientError::TcpError(e));
                },
            }
        },
        Authority::Ip(a, b, c, d) => SocketAddr::new(*a, *b, *c, *d, port),
    };
    let mut socket = match stack.create_socket_connected(socket_addr) {
        Ok(s) => s,
        Err(e) => {
            return Err(HttpClientError::TcpError(e));
        },
    };
    let host = url_parsed.authority.to_url_string();
    let path = match &url_parsed.path {
        Some(p) => p.clone(),
        None => "/".to_owned(),
    };
    let request = render_request(path.as_str(), host.as_str());
    match socket.send(request.as_str().as_bytes()) {
        Ok(_) => (),
        Err(e) => {
            return Err(HttpClientError::TcpError(e));
        },
    }
    let buf = match socket.read_to_end() {
        Ok(b) => b,
        Err(e) => {
            return Err(HttpClientError::TcpError(e));
        },
    };
    let r = parse_response(buf.as_slice());
    proof {
        if r is Ok {
            let resp = r->Ok_0;
            assert(response_outcome(
                buf@,
                Ok(Response { headers: resp.headers, body: resp.body }),
            ));
        }
    }
    r
}

} // verus!
