//! HTTP request data model: the immutable server-side request record, its
//! header pairs, and the request method enumeration.

use vstd::prelude::*;

verus! {

/// One HTTP header line, as an owned name/value pair of strings.
#[derive(Debug, Clone)]
pub struct HttpServerHeader {
    pub name: String,
    pub value: String,
}

impl View for HttpServerHeader {
    type V = (Seq<char>, Seq<char>);

    open spec fn view(&self) -> (Seq<char>, Seq<char>) {
        (self.name@, self.value@)
    }
}

/// The mathematical content of a header sequence.
pub open spec fn headers_seq_view(s: Seq<HttpServerHeader>) -> Seq<(Seq<char>, Seq<char>)> {
    s.map_values(|h: HttpServerHeader| h@)
}

/// A fully parsed HTTP request: method and path as reported by the header
/// parser, the ordered header pairs, and the raw body bytes. A value of this
/// type is only ever handed out once parsing has fully succeeded.
#[derive(Debug)]
pub struct HttpServerRequest {
    pub method: Option<String>,
    pub path: Option<String>,
    pub body: Vec<u8>,
    pub headers: Vec<HttpServerHeader>,
}

/// The mathematical content of a parsed request.
pub struct RequestView {
    pub method: Option<Seq<char>>,
    pub path: Option<Seq<char>>,
    pub body: Seq<u8>,
    pub headers: Seq<(Seq<char>, Seq<char>)>,
}

impl View for HttpServerRequest {
    type V = RequestView;

    open spec fn view(&self) -> RequestView {
        RequestView {
            method: match self.method {
                Some(ref m) => Some(m@),
                None => None,
            },
            path: match self.path {
                Some(ref p) => Some(p@),
                None => None,
            },
            body: self.body@,
            headers: self.headers@.map_values(|h: HttpServerHeader| h@),
        }
    }
}

/// The HTTP methods this stack knows by name.
#[derive(Debug, Clone, Copy, PartialEq, Eq, Structural)]
pub enum HttpMethod {
    Get,
    Head,
    Options,
    Put,
    Post,
    Delete,
}

/// The canonical spelling of each method on the wire.
pub open spec fn method_name(m: HttpMethod) -> Seq<char> {
    match m {
        HttpMethod::Get => "GET"@,
        HttpMethod::Head => "HEAD"@,
        HttpMethod::Options => "OPTIONS"@,
        HttpMethod::Put => "PUT"@,
        HttpMethod::Post => "POST"@,
        HttpMethod::Delete => "DELETE"@,
    }
}

/// The method whose canonical spelling a string is, if any.
pub open spec fn method_of_name(s: Seq<char>) -> Option<HttpMethod> {
    if s == "GET"@ {
        Some(HttpMethod::Get)
    } else if s == "HEAD"@ {
        Some(HttpMethod::Head)
    } else if s == "OPTIONS"@ {
        Some(HttpMethod::Options)
    } else if s == "PUT"@ {
        Some(HttpMethod::Put)
    } else if s == "POST"@ {
        Some(HttpMethod::Post)
    } else if s == "DELETE"@ {
        Some(HttpMethod::Delete)
    } else {
        None
    }
}

impl HttpMethod {
    /// The canonical spelling of this method.
    pub fn to_http(&self) -> (r: &'static str)
        ensures
            r@ == method_name(*self),
    {
        match *self {
            HttpMethod::Get => "GET",
            HttpMethod::Head => "HEAD",
            HttpMethod::Options => "OPTIONS",
            HttpMethod::Put => "PUT",
            HttpMethod::Post => "POST",
            HttpMethod::Delete => "DELETE",
        }
    }

    /// Recognizes a method by its canonical spelling.
    pub fn from_http(&self, s: &str) -> (r: Option<Self>)
        ensures
            r == method_of_name(s@),
    {
        let method = if crate::text::str_eq(s, "GET") {
            HttpMethod::Get
        } else if crate::text::str_eq(s, "HEAD") {
            HttpMethod::Head
        } else if crate::text::str_eq(s, "OPTIONS") {
            HttpMethod::Options
        } else if crate::text::str_eq(s, "PUT") {
            HttpMethod::Put
        } else if crate::text::str_eq(s, "POST") {
            HttpMethod::Post
        } else if crate::text::str_eq(s, "DELETE") {
            HttpMethod::Delete
        } else {
            return None;
        };
        Some(method)
    }
}

} // verus!
