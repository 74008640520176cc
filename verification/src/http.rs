//! Plain values for what travels through the router: methods, requests and
//! responses.

use crate::search::lemma_first_is_position;
use crate::search::lemma_none_is_position;
use crate::search::position;
use crate::text::same_str;
use vstd::prelude::*;
use vstd::string::*;
use vstd::utf8::encode_utf8;

verus! {

/// The status of a response that a handler built without choosing one.
pub const STATUS_OK: u16 = 200;

/// The status of the response to a request that no route matches.
pub const STATUS_NOT_FOUND: u16 = 404;

/// The status of the response to a request whose method a route refuses.
pub const STATUS_METHOD_NOT_ALLOWED: u16 = 405;

/// The standard request methods.
#[derive(Clone, Copy, Debug, PartialEq, Eq, Structural)]
pub enum Method {
    Get,
    Post,
    Put,
    Delete,
    Head,
    Options,
    Patch,
    Connect,
    Trace,
}

impl Method {
    /// The token that stands for the method on the wire.
    pub open spec fn token(self) -> Seq<char> {
        match self {
            Method::Get => "GET"@,
            Method::Post => "POST"@,
            Method::Put => "PUT"@,
            Method::Delete => "DELETE"@,
            Method::Head => "HEAD"@,
            Method::Options => "OPTIONS"@,
            Method::Patch => "PATCH"@,
            Method::Connect => "CONNECT"@,
            Method::Trace => "TRACE"@,
        }
    }

    /// The method's token as text.
    pub fn as_str(&self) -> (out: &'static str)
        ensures
            out@ == self.token(),
    {
        match self {
            Method::Get => "GET",
            Method::Post => "POST",
            Method::Put => "PUT",
            Method::Delete => "DELETE",
            Method::Head => "HEAD",
            Method::Options => "OPTIONS",
            Method::Patch => "PATCH",
            Method::Connect => "CONNECT",
            Method::Trace => "TRACE",
        }
    }
}

/// A header: its name and its value.
pub type Header = (String, String);

/// The mathematical content of a list of headers.
pub open spec fn header_views(headers: Seq<Header>) -> Seq<(Seq<char>, Seq<char>)> {
    Seq::new(headers.len(), |i: int| (headers[i].0@, headers[i].1@))
}

/// The value of the first header of `headers` named exactly `name`, if there
/// is one.
pub open spec fn header_value(headers: Seq<(Seq<char>, Seq<char>)>, name: Seq<char>) -> Option<
    Seq<char>,
> {
    match position(headers, |h: (Seq<char>, Seq<char>)| h.0 == name) {
        Some(i) => Some(headers[i].1),
        None => None,
    }
}

/// An incoming request. The router reads its method and its path; headers and
/// body only travel through to the handler.
#[derive(Clone, Debug, PartialEq, Eq)]
pub struct Request {
    pub method: String,
    pub path: String,
    pub headers: Vec<Header>,
    pub body: Vec<u8>,
}

impl Request {
    /// A request of the given method for the given path, without headers and
    /// with an empty body.
    pub fn new(method: &str, path: &str) -> (out: Self)
        ensures
            out.method@ == method@,
            out.path@ == path@,
            out.headers@.len() == 0,
            out.body@.len() == 0,
    {
        Request {
            method: String::from_str(method),
            path: String::from_str(path),
            headers: Vec::new(),
            body: Vec::new(),
        }
    }
}

/// A response: its status code, its headers in order, and its body.
#[derive(Clone, Debug, PartialEq, Eq)]
pub struct Response {
    pub status: u16,
    pub headers: Vec<Header>,
    pub body: Vec<u8>,
}

/// The mathematical content of a response.
pub struct ResponseSpec {
    pub status: u16,
    pub headers: Seq<(Seq<char>, Seq<char>)>,
    pub body: Seq<u8>,
}

impl View for Response {
    type V = ResponseSpec;

    open spec fn view(&self) -> ResponseSpec {
        ResponseSpec {
            status: self.status,
            headers: header_views(self.headers@),
            body: self.body@,
        }
    }
}

/// The response with the given status and the given text as its body, encoded
/// in UTF-8, and no headers.
pub open spec fn plain(status: u16, body: Seq<char>) -> ResponseSpec {
    ResponseSpec { status: status, headers: Seq::empty(), body: encode_utf8(body) }
}

/// The response `before` with one more header after its others.
pub open spec fn with_header(before: ResponseSpec, name: Seq<char>, value: Seq<char>)
    -> ResponseSpec {
    ResponseSpec {
        status: before.status,
        headers: before.headers.push((name, value)),
        body: before.body,
    }
}

/// The response to a request that no route matches.
pub open spec fn not_found() -> ResponseSpec {
    plain(STATUS_NOT_FOUND, "Not Found"@)
}

/// The response to a request whose method the matching route refuses.
pub open spec fn method_not_allowed() -> ResponseSpec {
    plain(STATUS_METHOD_NOT_ALLOWED, "Method not allowed"@)
}

/// The successful response that carries `content` as plain text.
pub open spec fn text_of(content: Seq<char>) -> ResponseSpec {
    with_header(plain(STATUS_OK, content), "Content-Type"@, "text/plain; charset=utf-8"@)
}

/// The successful response that carries the JSON text `json`.
pub open spec fn json_of(json: Seq<char>) -> ResponseSpec {
    with_header(plain(STATUS_OK, json), "Content-Type"@, "application/json; charset=utf-8"@)
}

impl Response {
    /// A response with the given status and the given text as its body, and no
    /// headers.
    pub fn new(status: u16, body: &str) -> (out: Self)
        ensures
            out@ == plain(status, body@),
    {
        let out = Response { status: status, headers: Vec::new(), body: body.as_bytes_vec() };
        assert(out@.headers =~= Seq::empty());
        out
    }

    /// This response with one more header after its others.
    pub fn header(self, name: &str, value: &str) -> (out: Self)
        ensures
            out@ == with_header(self@, name@, value@),
    {
        let mut headers = self.headers;
        let ghost before = headers@;
        headers.push((String::from_str(name), String::from_str(value)));
        let out = Response { status: self.status, headers: headers, body: self.body };
        assert(out@.headers =~= header_views(before).push((name@, value@)));
        out
    }

    /// The value of the first header named exactly `name`, if there is one.
    pub fn header_named(&self, name: &str) -> (out: Option<&str>)
        ensures
            match header_value(self@.headers, name@) {
                Some(value) => out matches Some(text) && text@ == value,
                None => out is None,
            },
    {
        let ghost all = self@.headers;
        let ghost wanted = |h: (Seq<char>, Seq<char>)| h.0 == name@;
        let mut i: usize = 0;
        while i < self.headers.len()
            invariant
                i <= self.headers@.len(),
                all == header_views(self.headers@),
                wanted == (|h: (Seq<char>, Seq<char>)| h.0 == name@),
                forall|j: int| 0 <= j < i ==> !wanted(#[trigger] all[j]),
            decreases self.headers@.len() - i,
        {
            if same_str(self.headers[i].0.as_str(), name) {
                proof {
                    assert(wanted(all[i as int]));
                    lemma_first_is_position(all, wanted, i as int);
                }
                return Some(self.headers[i].1.as_str());
            }
            i = i + 1;
        }
        proof {
            lemma_none_is_position(all, wanted);
        }
        None
    }

    /// The response to a request that no route matches.
    pub fn not_found() -> (out: Self)
        ensures
            out@ == not_found(),
    {
        Response::new(STATUS_NOT_FOUND, "Not Found")
    }

    /// The response to a request whose method the matching route refuses.
    pub fn method_not_allowed() -> (out: Self)
        ensures
            out@ == method_not_allowed(),
    {
        Response::new(STATUS_METHOD_NOT_ALLOWED, "Method not allowed")
    }
}

/// A successful response that carries `content` as plain text in UTF-8.
pub fn text_response(content: &str) -> (out: Response)
    ensures
        out@ == text_of(content@),
{
    Response::new(STATUS_OK, content).header("Content-Type", "text/plain; charset=utf-8")
}

/// A successful response that carries `json`, a JSON text, as its body.
pub fn json_response(json: &str) -> (out: Response)
    ensures
        out@ == json_of(json@),
{
    Response::new(STATUS_OK, json).header("Content-Type", "application/json; charset=utf-8")
}

} // verus!
