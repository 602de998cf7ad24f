//! Requests, responses and the errors that travel through the chain.
use vstd::prelude::*;
use crate::headers::{no_headers, Headers, HeadersView};

verus! {

/// The HTTP verbs that the client builds requests for.
#[derive(Clone, Copy, PartialEq, Eq, Structural, Debug)]
pub enum Method {
    Get,
    Head,
    Post,
    Put,
    Delete,
    Connect,
    Options,
    Trace,
    Patch,
}

/// A failure that ends a traversal of the chain, or a misuse of the client.
#[derive(Clone, Copy, PartialEq, Eq, Structural, Debug)]
pub enum Error {
    /// The target given to a verb method is not a valid URL.
    InvalidUri,
    /// Middleware was registered on a stack that is already shared or in use.
    Frozen,
    /// The transport had no answer left to give.
    Unavailable,
    /// The transport failed with the given code.
    Transport(u64),
    /// A middleware refused the request with the given code.
    Rejected(u64),
    /// A header name or value was refused, or a message held too many names.
    InvalidHeader,
    /// The response came back but its body is not UTF-8; the bytes before this
    /// index are valid.
    Decode(usize),
}

/// A request as it travels down the chain.
#[derive(Debug)]
pub struct Request {
    pub method: Method,
    pub url: String,
    pub headers: Headers,
    pub body: Vec<u8>,
}

/// What a request holds, as plain values.
pub ghost struct RequestView {
    pub method: Method,
    pub url: Seq<char>,
    pub headers: HeadersView,
    pub body: Seq<u8>,
}

impl View for Request {
    type V = RequestView;

    open spec fn view(&self) -> RequestView {
        RequestView { method: self.method, url: self.url@, headers: self.headers@, body: self.body@ }
    }
}

/// A response as it travels back up the chain.
#[derive(Debug)]
pub struct Response {
    pub status: u16,
    pub headers: Headers,
    pub body: Vec<u8>,
}

/// What a response holds, as plain values.
pub ghost struct ResponseView {
    pub status: u16,
    pub headers: HeadersView,
    pub body: Seq<u8>,
}

/// The result of one traversal, or of one transport call, as plain values.
pub type Outcome = Result<ResponseView, Error>;

impl View for Response {
    type V = ResponseView;

    open spec fn view(&self) -> ResponseView {
        ResponseView { status: self.status, headers: self.headers@, body: self.body@ }
    }
}

pub open spec fn outcome_view(r: Result<Response, Error>) -> Outcome {
    match r {
        Ok(resp) => Ok(resp@),
        Err(e) => Err(e),
    }
}

/// The status that an observer of an outcome records: none for a failure.
pub open spec fn status_of(o: Outcome) -> Option<u16> {
    match o {
        Ok(v) => Some(v.status),
        Err(_) => None,
    }
}

pub fn observed_status(r: &Result<Response, Error>) -> (s: Option<u16>)
    ensures
        s == status_of(outcome_view(*r)),
{
    match r {
        Ok(resp) => Some(resp.status),
        Err(_) => None,
    }
}

impl Request {
    pub fn new(method: Method, url: String) -> (r: Request)
        ensures
            r.method == method,
            r.url == url,
            r.headers@ == no_headers(),
            r.body@ == Seq::<u8>::empty(),
    {
        Request { method, url, headers: Headers::new(), body: Vec::new() }
    }

    /// A second request holding the same values, for a middleware that advances more than once.
    pub fn duplicate(&self) -> (r: Request)
        ensures
            r@ == self@,
    {
        let headers = self.headers.duplicate();
        let mut body: Vec<u8> = Vec::new();
        let mut j: usize = 0;
        while j < self.body.len()
            invariant
                j <= self.body@.len(),
                body@ == self.body@.subrange(0, j as int),
            decreases self.body@.len() - j,
        {
            body.push(self.body[j]);
            proof {
                assert(body@ =~= self.body@.subrange(0, j + 1));
            }
            j = j + 1;
        }
        proof {
            assert(body@ =~= self.body@);
        }
        Request { method: self.method, url: self.url.clone(), headers, body }
    }
}

impl Response {
    pub fn new(status: u16) -> (r: Response)
        ensures
            r@ == (ResponseView { status, headers: no_headers(), body: Seq::empty() }),
    {
        Response { status, headers: Headers::new(), body: Vec::new() }
    }

    /// A response with the given status and body and no headers.
    pub fn with_body(status: u16, body: Vec<u8>) -> (r: Response)
        ensures
            r@ == (ResponseView { status, headers: no_headers(), body: body@ }),
    {
        Response { status, headers: Headers::new(), body }
    }

    /// The value of the header `name`, matched without regard to case.
    pub fn header(&self, name: &str) -> (r: Option<String>)
        ensures
            r matches Some(v) ==> crate::headers::header_key(name@) matches Some(k)
                && self@.headers.entries.contains_key(k) && self@.headers.entries[k] == v@,
            r is None ==> (crate::headers::header_key(name@) matches Some(k)
                ==> !self@.headers.entries.contains_key(k)),
    {
        self.headers.get(name)
    }
}

} // verus!
