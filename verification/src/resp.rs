//! HTTP response side: the closed set of status codes, the open status-code
//! escape, and the response-writing capability with its reply helpers.

use vstd::prelude::*;
use crate::stack::TcpError;
use crate::text::{dec_digits, push_decimal};

verus! {

/// The closed set of status codes this stack hands out by name.
#[derive(Copy, Clone, Debug, PartialEq, Eq, Structural)]
pub enum HttpStatusCodes {
    Okay,
    Accepted,
    NoContent,
    BadRequest,
    NotFound,
    InternalError,
}

/// The numeric code of each named status.
pub open spec fn status_code(s: HttpStatusCodes) -> int {
    match s {
        HttpStatusCodes::Okay => 200,
        HttpStatusCodes::Accepted => 202,
        HttpStatusCodes::NoContent => 204,
        HttpStatusCodes::BadRequest => 400,
        HttpStatusCodes::NotFound => 404,
        HttpStatusCodes::InternalError => 500,
    }
}

/// The reason phrase of each named status.
pub open spec fn status_text(s: HttpStatusCodes) -> Seq<char> {
    match s {
        HttpStatusCodes::Okay => "OK"@,
        HttpStatusCodes::Accepted => "Accepted"@,
        HttpStatusCodes::NoContent => "No Content"@,
        HttpStatusCodes::BadRequest => "Bad Request"@,
        HttpStatusCodes::NotFound => "Not Found"@,
        HttpStatusCodes::InternalError => "Internal Server Error"@,
    }
}

impl HttpStatusCodes {
    /// The numeric code and reason phrase of this status.
    pub fn to_http(&self) -> (r: (u16, &'static str))
        ensures
            r.0 == status_code(*self),
            r.1@ == status_text(*self),
    {
        match *self {
            HttpStatusCodes::Okay => (200, "OK"),
            HttpStatusCodes::Accepted => (202, "Accepted"),
            HttpStatusCodes::NoContent => (204, "No Content"),
            HttpStatusCodes::BadRequest => (400, "Bad Request"),
            HttpStatusCodes::NotFound => (404, "Not Found"),
            HttpStatusCodes::InternalError => (500, "Internal Server Error"),
        }
    }
}

/// A status code for a reply: one of the named ones, or an arbitrary numeric
/// code with custom reason text.
#[derive(Clone, Debug)]
pub enum HttpStatusCode {
    Standard(HttpStatusCodes),
    Custom(u16, String),
}

impl HttpStatusCode {
    /// Wraps a named status.
    pub fn standard(s: HttpStatusCodes) -> (r: HttpStatusCode)
        ensures
            r == HttpStatusCode::Standard(s),
    {
        HttpStatusCode::Standard(s)
    }

    /// The numeric code of this status.
    pub open spec fn spec_code(&self) -> int {
        match *self {
            HttpStatusCode::Standard(s) => status_code(s),
            HttpStatusCode::Custom(c, _) => c as int,
        }
    }

    /// The reason phrase of this status.
    pub open spec fn spec_text(&self) -> Seq<char> {
        match *self {
            HttpStatusCode::Standard(s) => status_text(s),
            HttpStatusCode::Custom(_, ref t) => t@,
        }
    }

    /// The numeric code and reason phrase of this status.
    pub fn to_http(&self) -> (r: (u16, String))
        ensures
            r.0 == self.spec_code(),
            r.1@ == self.spec_text(),
    {
        match self {
            HttpStatusCode::Standard(s) => {
                let (c, t) = s.to_http();
                (c, t.to_owned())
            },
            HttpStatusCode::Custom(c, t) => (*c, t.clone()),
        }
    }
}

/// The exact characters of the status line `HTTP/1.1 <code> <reason>\r\n`.
pub open spec fn status_line(code: int, text: Seq<char>) -> Seq<char> {
    "HTTP/1.1 "@ + dec_digits(code) + " "@ + text + "\r\n"@
}

/// The exact characters of a whole reply: status line, a single
/// `Content-Type` header, the blank separator line, and the body.
pub open spec fn reply_chars(code: int, text: Seq<char>, content_type: Seq<char>, body: Seq<char>) -> Seq<char> {
    status_line(code, text) + "Content-Type: "@ + content_type + "\r\n\r\n"@ + body
}

/// Renders the status line of a reply.
pub fn render_status_line(code: &HttpStatusCode) -> (r: String)
    ensures
        r@ == status_line(code.spec_code(), code.spec_text()),
{
    let (c, t) = code.to_http();
    let mut out = String::new();
    out.append("HTTP/1.1 ");
    push_decimal(c as usize, &mut out);
    out.append(" ");
    out.append(t.as_str());
    out.append("\r\n");
    assert(out@ =~= status_line(code.spec_code(), code.spec_text()));
    out
}

/// Renders a whole reply: status line, `Content-Type` header, blank line,
/// body.
pub fn render_reply(code: &HttpStatusCode, content_type: &str, body: &str) -> (r: String)
    ensures
        r@ == reply_chars(code.spec_code(), code.spec_text(), content_type@, body@),
{
    let mut out = render_status_line(code);
    out.append("Content-Type: ");
    out.append(content_type);
    out.append("\r\n\r\n");
    out.append(body);
    assert(out@ =~= reply_chars(code.spec_code(), code.spec_text(), content_type@, body@));
    out
}

/// The capability of writing response bytes back to the peer. The server's
/// per-connection context implements it over its socket; further
/// implementations may buffer or transform. Writing may fail with the
/// transport's error kind.
pub trait HttpResponseWriter where Self: Sized {
    /// Writes the given bytes to the peer; a successful write puts some
    /// leading part of `data` on the wire. How many bytes went out is up to
    /// the transport and is not reported back.
    fn write(&mut self, data: &[u8]) -> Result<(), TcpError>;

    /// Writes a full reply with the given status, a `Content-Type` header and
    /// a body, as the exact characters of `reply_chars`, in one write.
    fn http_reply(self, code: HttpStatusCode, content_type: &str, body: &str) -> (r: Result<
        (),
        TcpError,
    >) {
        let mut this = self;
        let rendered = render_reply(&code, content_type, body);
        this.write(rendered.as_str().as_bytes())
    }

    /// Writes a `200 OK` reply with the given `Content-Type` header and body.
    fn http_ok(self, content_type: &str, body: &str) -> (r: Result<(), TcpError>) {
        self.http_reply(HttpStatusCode::Standard(HttpStatusCodes::Okay), content_type, body)
    }
}

} // verus!
