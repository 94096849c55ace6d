//! In-process models of the request and response data that routing reads and
//! writes: the request line's method, scheme, host and port, the decoded
//! path, and a response carrying a status code, headers and a body.

use vstd::prelude::*;

use crate::depot::Depot;

verus! {

/// An HTTP request method.
#[allow(non_camel_case_types)]
#[derive(Clone, Copy, PartialEq, Eq, Structural, Debug)]
pub enum Method {
    GET,
    HEAD,
    OPTIONS,
    POST,
    PATCH,
    PUT,
    DELETE,
    CONNECT,
    TRACE,
}

/// Parameters captured from the request path while matching, keyed by the
/// capture's name.
pub type PathParams = Depot<String>;

/// The parts of an incoming request that routing looks at.  `params` is
/// filled from the path cursor after a successful match.
pub struct Request {
    /// The request method.
    pub method: Method,
    /// The URI's scheme, when one was given.
    pub scheme: Option<String>,
    /// The URI's host, when one was given.
    pub host: Option<String>,
    /// The URI's port, when one was given.
    pub port: Option<u16>,
    /// The request path, percent-encoded as it arrived.
    pub path: String,
    /// Parameters captured by the matched route.
    pub params: PathParams,
}

impl Request {
    /// A `GET` request for `path` with nothing else set.
    pub fn new(path: String) -> (r: Request)
        ensures
            r.method == Method::GET,
            r.scheme is None,
            r.host is None,
            r.port is None,
            r.path == path,
            r.params@ == Map::<Seq<char>, String>::empty(),
            r.params.well_formed(),
    {
        Request {
            method: Method::GET,
            scheme: None,
            host: None,
            port: None,
            path,
            params: Depot::new(),
        }
    }

    /// The request's method.
    pub fn method(&self) -> (m: Method)
        ensures
            m == self.method,
    {
        self.method
    }
}

/// A response body: nothing yet, one piece of text, or several pieces that
/// are sent one after another.
pub enum ResBody {
    Empty,
    Once(String),
    Chunks(Vec<String>),
}

/// The text a body carries, every piece in order.
pub open spec fn body_chars(b: &ResBody) -> Seq<char> {
    match b {
        ResBody::Empty => Seq::empty(),
        ResBody::Once(s) => s@,
        ResBody::Chunks(cs) => concat_chunks(cs@),
    }
}

/// The concatenation of a sequence of strings.
pub open spec fn concat_chunks(cs: Seq<String>) -> Seq<char>
    decreases cs.len(),
{
    if cs.len() == 0 {
        Seq::empty()
    } else {
        concat_chunks(cs.drop_last()) + cs.last()@
    }
}

impl ResBody {
    /// Whether no body has been written yet.
    pub fn is_none(&self) -> (r: bool)
        ensures
            r == (self is Empty),
    {
        match self {
            ResBody::Empty => true,
            _ => false,
        }
    }

    /// Whether the body is a single piece of text.
    pub fn is_once(&self) -> (r: bool)
        ensures
            r == (self is Once),
    {
        match self {
            ResBody::Once(_) => true,
            _ => false,
        }
    }

    /// Whether the body is a list of pieces.
    pub fn is_chunks(&self) -> (r: bool)
        ensures
            r == (self is Chunks),
    {
        match self {
            ResBody::Chunks(_) => true,
            _ => false,
        }
    }
}

/// Whether a status code is a redirection or reports a client or server
/// error: such a response is final ("stamped") and no further handler should
/// touch it.
pub open spec fn code_is_stamped(c: u16) -> bool {
    300 <= c < 600
}

/// The response under construction for one request.
pub struct Response {
    status_code: Option<u16>,
    headers: Vec<(String, String)>,
    body: ResBody,
}

impl Response {
    /// The response's status code, when one has been set.
    pub closed spec fn spec_status_code(&self) -> Option<u16> {
        self.status_code
    }

    /// The response's headers: name and value, in the order set.
    pub closed spec fn spec_headers(&self) -> Seq<(Seq<char>, Seq<char>)> {
        self.headers@.map_values(|h: (String, String)| (h.0@, h.1@))
    }

    /// The response's body.
    pub closed spec fn spec_body(&self) -> &ResBody {
        &self.body
    }

    /// Whether the response already carries a final status.
    pub open spec fn stamped(&self) -> bool {
        match self.spec_status_code() {
            Some(c) => code_is_stamped(c),
            None => false,
        }
    }

    /// An empty response: no status, no headers, no body.
    pub fn new() -> (r: Response)
        ensures
            r.spec_status_code() is None,
            r.spec_headers() == Seq::<(Seq<char>, Seq<char>)>::empty(),
            r.spec_body() is Empty,
    {
        Response { status_code: None, headers: Vec::new(), body: ResBody::Empty }
    }

    /// The status code, when one has been set.
    pub fn status_code(&self) -> (c: Option<u16>)
        ensures
            c == self.spec_status_code(),
    {
        self.status_code
    }

    /// Sets the status code.
    pub fn set_status_code(&mut self, code: u16)
        ensures
            final(self).spec_status_code() == Some(code),
            final(self).spec_headers() == old(self).spec_headers(),
            final(self).spec_body() == old(self).spec_body(),
    {
        self.status_code = Some(code);
    }

    /// Whether the response already carries a redirection, client-error or
    /// server-error status.
    pub fn is_stamped(&self) -> (r: bool)
        ensures
            r == self.stamped(),
    {
        match self.status_code {
            Some(c) => 300 <= c && c < 600,
            None => false,
        }
    }

    /// Appends a header without touching existing ones of the same name.
    pub fn add_header(&mut self, name: &str, value: &str)
        ensures
            final(self).spec_headers() == old(self).spec_headers().push((name@, value@)),
            final(self).spec_status_code() == old(self).spec_status_code(),
            final(self).spec_body() == old(self).spec_body(),
    {
        self.headers.push((name.to_owned(), value.to_owned()));
        proof {
            assert(final(self).spec_headers() =~= old(self).spec_headers().push(
                (name@, value@),
            ));
        }
    }

    /// The most recently added value of the header called `name`, if any.
    pub fn header(&self, name: &str) -> (r: Option<&String>)
        ensures
            match r {
                Some(v) => exists|i: int|
                    0 <= i < self.spec_headers().len() && self.spec_headers()[i] == (name@, v@)
                        && (forall|j: int|
                        i < j < self.spec_headers().len() ==> (#[trigger] self.spec_headers()[j]).0
                            != name@),
                None => forall|i: int|
                    0 <= i < self.spec_headers().len() ==> (#[trigger] self.spec_headers()[i]).0
                        != name@,
            },
    {
        let n = self.headers.len();
        let mut i: usize = n;
        while i > 0
            invariant
                0 <= i <= n,
                n == self.headers@.len(),
                forall|j: int|
                    i <= j < n ==> (#[trigger] self.spec_headers()[j]).0 != name@,
            decreases i,
        {
            i = i - 1;
            if crate::text::str_eq(self.headers[i].0.as_str(), name) {
                proof {
                    assert(self.spec_headers()[i as int] == (name@, self.headers@[i as int].1@));
                }
                return Some(&self.headers[i].1);
            }
        }
        None
    }

    /// A reference to the body.
    pub fn body(&self) -> (b: &ResBody)
        ensures
            b == self.spec_body(),
    {
        &self.body
    }

    /// Writes a piece of text: it becomes the whole body if none was there,
    /// and is appended after the existing pieces otherwise.
    pub fn write_body(&mut self, data: &str)
        ensures
            final(self).spec_status_code() == old(self).spec_status_code(),
            final(self).spec_headers() == old(self).spec_headers(),
            body_chars(final(self).spec_body()) == body_chars(old(self).spec_body()) + data@,
    {
        let mut body = ResBody::Empty;
        core::mem::swap(&mut body, &mut self.body);
        match body {
            ResBody::Empty => {
                self.body = ResBody::Once(data.to_owned());
            },
            ResBody::Once(text) => {
                let ghost t = text@;
                let mut chunks: Vec<String> = Vec::new();
                chunks.push(text);
                chunks.push(data.to_owned());
                proof {
                    let c2 = chunks@;
                    assert(c2.drop_last().drop_last() =~= Seq::<String>::empty());
                    assert(concat_chunks(c2.drop_last().drop_last()) == Seq::<char>::empty());
                    assert(c2.drop_last().last()@ == t);
                    assert(concat_chunks(c2.drop_last()) =~= t);
                    assert(concat_chunks(c2) =~= t + data@);
                }
                self.body = ResBody::Chunks(chunks);
            },
            ResBody::Chunks(mut chunks) => {
                let ghost cs = chunks@;
                chunks.push(data.to_owned());
                proof {
                    assert(chunks@.drop_last() =~= cs);
                }
                self.body = ResBody::Chunks(chunks);
            },
        }
    }

    /// The body's text, every piece in order, as one string.
    pub fn body_text(&self) -> (r: String)
        ensures
            r@ == body_chars(self.spec_body()),
    {
        match &self.body {
            ResBody::Empty => String::new(),
            ResBody::Once(s) => s.clone(),
            ResBody::Chunks(cs) => {
                let mut out = String::new();
                let n = cs.len();
                let mut i: usize = 0;
                while i < n
                    invariant
                        0 <= i <= n,
                        n == cs@.len(),
                        out@ == concat_chunks(cs@.subrange(0, i as int)),
                    decreases n - i,
                {
                    out.append(cs[i].as_str());
                    proof {
                        assert(cs@.subrange(0, i as int + 1).drop_last() =~= cs@.subrange(
                            0,
                            i as int,
                        ));
                    }
                    i = i + 1;
                }
                proof {
                    assert(cs@.subrange(0, n as int) =~= cs@);
                }
                out
            },
        }
    }
}

} // verus!
