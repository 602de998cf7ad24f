//! The client: an ordered middleware stack that freezes once it is shared or used.
use vstd::prelude::*;
use crate::headers::{inserted, no_headers};
use crate::message::{outcome_view, Error, Method, Request, Response};
use crate::middleware::{run_from, Event, Middleware, Next, Transport};

verus! {

/// The text of the URL that `s` parses to, or none where it does not parse.
pub uninterp spec fn parsed_url(s: Seq<char>) -> Option<Seq<char>>;

/// Relies on `http_types::Url::parse` (the `url` crate's parser): whether and to
/// what a text parses depends on the text alone; a parsed URL is kept as its
/// serialization (`Url::as_str`).
#[verifier::external_body]
fn parse_url(s: &str) -> (r: Option<String>)
    ensures
        match r {
            Some(u) => parsed_url(s@) == Some(u@),
            None => parsed_url(s@) is None,
        },
{
    match http_types::Url::parse(s) {
        Ok(u) => Some(String::from(u.as_str())),
        Err(_) => None,
    }
}

/// The text that the bytes `b` decode to as UTF-8, or, where they are not
/// UTF-8, the length of their longest valid prefix.
pub uninterp spec fn utf8_decoded(b: Seq<u8>) -> Result<Seq<char>, nat>;

/// Relies on `String::from_utf8`, and on `Utf8Error::valid_up_to` for its error:
/// both depend on the bytes alone.
#[verifier::external_body]
fn decode_utf8(b: Vec<u8>) -> (r: Result<String, usize>)
    ensures
        match r {
            Ok(t) => utf8_decoded(b@) == Ok::<Seq<char>, nat>(t@),
            Err(n) => utf8_decoded(b@) == Err::<Seq<char>, nat>(n as nat),
        },
{
    match String::from_utf8(b) {
        Ok(t) => Ok(t),
        Err(e) => Err(e.utf8_error().valid_up_to()),
    }
}

/// A client: its middleware stack, in registration order, and whether that stack is frozen.
#[derive(Debug)]
pub struct Client {
    middleware: Vec<Middleware>,
    frozen: bool,
}

/// What a client holds, as plain values.
pub ghost struct ClientModel {
    pub stack: Seq<Middleware>,
    pub frozen: bool,
}

impl View for Client {
    type V = ClientModel;

    closed spec fn view(&self) -> ClientModel {
        ClientModel { stack: self.middleware@, frozen: self.frozen }
    }
}

/// Registering `m` on a client: refused once its stack is frozen.
pub open spec fn registered(c: ClientModel, m: Middleware) -> Option<ClientModel> {
    if c.frozen {
        None
    } else {
        Some(ClientModel { stack: c.stack.push(m), frozen: false })
    }
}

/// A client whose stack has been shared or used: same stack, frozen.
pub open spec fn frozen(c: ClientModel) -> ClientModel {
    ClientModel { stack: c.stack, frozen: true }
}

/// A duplicate of a client: a stack of its own with the same middleware, open to registration.
pub open spec fn duplicated(c: ClientModel) -> ClientModel {
    ClientModel { stack: c.stack, frozen: false }
}

/// A request bound to the client that will send it.
#[derive(Debug)]
pub struct RequestBuilder {
    pub request: Request,
    pub client: Client,
}

impl Default for Client {
    fn default() -> (r: Client)
        ensures
            r@ == (ClientModel { stack: seq![], frozen: false }),
    {
        Client::new()
    }
}

impl Client {
    /// A client with no middleware.
    pub fn new() -> (r: Client)
        ensures
            r@ == (ClientModel { stack: seq![], frozen: false }),
    {
        Client { middleware: Vec::new(), frozen: false }
    }

    /// Registers `middleware` at the end of the stack; fails with `Frozen` once
    /// the stack has been shared or used.
    pub fn with(self, middleware: Middleware) -> (r: Result<Client, Error>)
        ensures
            match r {
                Ok(c) => registered(self@, middleware) == Some(c@),
                Err(e) => registered(self@, middleware) is None && e == Error::Frozen,
            },
    {
        if self.frozen {
            Err(Error::Frozen)
        } else {
            let mut c = self;
            c.middleware.push(middleware);
            Ok(c)
        }
    }

    /// The number of middleware registered.
    pub fn middleware_count(&self) -> (r: usize)
        ensures
            r == self@.stack.len(),
    {
        self.middleware.len()
    }

    /// Whether registering middleware is still possible.
    pub fn is_frozen(&self) -> (r: bool)
        ensures
            r == self@.frozen,
    {
        self.frozen
    }

    /// A new client with a stack of its own holding the same middleware; this
    /// client's stack is shared from now on and freezes.
    pub fn duplicate(&mut self) -> (r: Client)
        ensures
            r@ == duplicated(old(self)@),
            final(self)@ == frozen(old(self)@),
    {
        let mut stack: Vec<Middleware> = Vec::new();
        let mut i: usize = 0;
        while i < self.middleware.len()
            invariant
                i <= self.middleware@.len(),
                stack@ == self.middleware@.subrange(0, i as int),
            decreases self.middleware@.len() - i,
        {
            stack.push(self.middleware[i].duplicate());
            proof {
                assert(stack@ =~= self.middleware@.subrange(0, i + 1));
            }
            i = i + 1;
        }
        proof {
            assert(stack@ =~= self.middleware@);
        }
        self.frozen = true;
        Client { middleware: stack, frozen: false }
    }

    /// Sends `req` through the whole chain and then `transport`. The stack is
    /// frozen from now on.
    pub fn send<T: Transport>(&mut self, req: Request, transport: &mut T, trace: &mut Vec<Event>) -> (r: Result<Response, Error>)
        ensures
            final(self)@ == frozen(old(self)@),
            T::modelled() ==> outcome_view(r) == run_from::<T>(old(self)@.stack, 0, req@, old(transport).state()).outcome,
            T::modelled() ==> final(transport).state() == run_from::<T>(old(self)@.stack, 0, req@, old(transport).state()).transport,
            T::modelled() ==> final(trace)@ == old(trace)@ + run_from::<T>(old(self)@.stack, 0, req@, old(transport).state()).trace,
    {
        self.frozen = true;
        let next = Next::new(&self.middleware);
        next.run(req, transport, trace)
    }

    /// Sends `req` and hands back the body of the response.
    pub fn recv_bytes<T: Transport>(&mut self, req: Request, transport: &mut T, trace: &mut Vec<Event>) -> (r: Result<Vec<u8>, Error>)
        ensures
            final(self)@ == frozen(old(self)@),
            T::modelled() ==> match run_from::<T>(old(self)@.stack, 0, req@, old(transport).state()).outcome {
                Ok(v) => r matches Ok(b) && b@ == v.body,
                Err(e) => r == Err::<Vec<u8>, Error>(e),
            },
            T::modelled() ==> final(transport).state() == run_from::<T>(old(self)@.stack, 0, req@, old(transport).state()).transport,
            T::modelled() ==> final(trace)@ == old(trace)@ + run_from::<T>(old(self)@.stack, 0, req@, old(transport).state()).trace,
    {
        match self.send(req, transport, trace) {
            Ok(resp) => Ok(resp.body),
            Err(e) => Err(e),
        }
    }

    /// Sends `req` and hands back the body of the response as UTF-8 text; a
    /// body that is not UTF-8 fails with `Decode`, which keeps where the valid text ends.
    pub fn recv_string<T: Transport>(&mut self, req: Request, transport: &mut T, trace: &mut Vec<Event>) -> (r: Result<String, Error>)
        ensures
            final(self)@ == frozen(old(self)@),
            T::modelled() ==> match run_from::<T>(old(self)@.stack, 0, req@, old(transport).state()).outcome {
                Ok(v) => match utf8_decoded(v.body) {
                    Ok(t) => r matches Ok(s) && s@ == t,
                    Err(n) => r == Err::<String, Error>(Error::Decode(n as usize)),
                },
                Err(e) => r == Err::<String, Error>(e),
            },
            T::modelled() ==> final(transport).state() == run_from::<T>(old(self)@.stack, 0, req@, old(transport).state()).transport,
            T::modelled() ==> final(trace)@ == old(trace)@ + run_from::<T>(old(self)@.stack, 0, req@, old(transport).state()).trace,
    {
        match self.recv_bytes(req, transport, trace) {
            Ok(body) => match decode_utf8(body) {
                Ok(t) => Ok(t),
                Err(n) => Err(Error::Decode(n)),
            },
            Err(e) => Err(e),
        }
    }

    /// A request of `method` to `uri`, bound to a duplicate of this client; fails
    /// with `InvalidUri` where `uri` is not a URL, and then leaves the client as it was.
    fn bind(&mut self, method: Method, uri: &str) -> (r: Result<RequestBuilder, Error>)
        ensures
            bound(old(self)@, *final(self), method, uri@, r),
    {
        match parse_url(uri) {
            Some(url) => {
                let client = self.duplicate();
                Ok(RequestBuilder { request: Request::new(method, url), client })
            },
            None => Err(Error::InvalidUri),
        }
    }

    pub fn get(&mut self, uri: &str) -> (r: Result<RequestBuilder, Error>)
        ensures
            bound(old(self)@, *final(self), Method::Get, uri@, r),
    {
        self.bind(Method::Get, uri)
    }

    pub fn head(&mut self, uri: &str) -> (r: Result<RequestBuilder, Error>)
        ensures
            bound(old(self)@, *final(self), Method::Head, uri@, r),
    {
        self.bind(Method::Head, uri)
    }

    pub fn post(&mut self, uri: &str) -> (r: Result<RequestBuilder, Error>)
        ensures
            bound(old(self)@, *final(self), Method::Post, uri@, r),
    {
        self.bind(Method::Post, uri)
    }

    pub fn put(&mut self, uri: &str) -> (r: Result<RequestBuilder, Error>)
        ensures
            bound(old(self)@, *final(self), Method::Put, uri@, r),
    {
        self.bind(Method::Put, uri)
    }

    pub fn delete(&mut self, uri: &str) -> (r: Result<RequestBuilder, Error>)
        ensures
            bound(old(self)@, *final(self), Method::Delete, uri@, r),
    {
        self.bind(Method::Delete, uri)
    }

    pub fn connect(&mut self, uri: &str) -> (r: Result<RequestBuilder, Error>)
        ensures
            bound(old(self)@, *final(self), Method::Connect, uri@, r),
    {
        self.bind(Method::Connect, uri)
    }

    pub fn options(&mut self, uri: &str) -> (r: Result<RequestBuilder, Error>)
        ensures
            bound(old(self)@, *final(self), Method::Options, uri@, r),
    {
        self.bind(Method::Options, uri)
    }

    pub fn trace(&mut self, uri: &str) -> (r: Result<RequestBuilder, Error>)
        ensures
            bound(old(self)@, *final(self), Method::Trace, uri@, r),
    {
        self.bind(Method::Trace, uri)
    }

    pub fn patch(&mut self, uri: &str) -> (r: Result<RequestBuilder, Error>)
        ensures
            bound(old(self)@, *final(self), Method::Patch, uri@, r),
    {
        self.bind(Method::Patch, uri)
    }
}

/// What a verb method owes: where `uri` parses, a request of `method` to that URL
/// with no headers and no body, bound to a duplicate of the client, which freezes;
/// otherwise `InvalidUri` and the client unchanged.
pub open spec fn bound(
    before: ClientModel,
    after: Client,
    method: Method,
    uri: Seq<char>,
    r: Result<RequestBuilder, Error>,
) -> bool {
    match r {
        Ok(b) => parsed_url(uri) == Some(b.request.url@) && b.request.method == method
            && b.request.headers@ == no_headers() && b.request.body@ == Seq::<u8>::empty()
            && b.client@ == duplicated(before) && after@ == frozen(before),
        Err(e) => parsed_url(uri) is None && e == Error::InvalidUri && after@ == before,
    }
}

impl RequestBuilder {
    /// Sets header `name` to `value` on the request; a refused header fails
    /// with `InvalidHeader`.
    pub fn header(self, name: &str, value: &str) -> (r: Result<RequestBuilder, Error>)
        ensures
            match inserted(self.request.headers@, name@, value@) {
                Some(h) => r matches Ok(b) && b.request.headers@ == h && b.request.method == self.request.method
                    && b.request.url == self.request.url && b.request.body == self.request.body
                    && b.client == self.client,
                None => r matches Err(e) && e == Error::InvalidHeader,
            },
    {
        let mut b = self;
        match b.request.headers.insert(name, value) {
            Some(_) => Ok(b),
            None => Err(Error::InvalidHeader),
        }
    }

    /// Replaces the body of the request.
    pub fn body(self, body: Vec<u8>) -> (r: RequestBuilder)
        ensures
            r.request.body == body,
            r.request.headers == self.request.headers,
            r.request.method == self.request.method,
            r.request.url == self.request.url,
            r.client == self.client,
    {
        let mut b = self;
        b.request.body = body;
        b
    }

    /// Sends the request through the bound client's chain.
    pub fn send<T: Transport>(self, transport: &mut T, trace: &mut Vec<Event>) -> (r: Result<Response, Error>)
        ensures
            T::modelled() ==> outcome_view(r) == run_from::<T>(self.client@.stack, 0, self.request@, old(transport).state()).outcome,
            T::modelled() ==> final(transport).state() == run_from::<T>(self.client@.stack, 0, self.request@, old(transport).state()).transport,
            T::modelled() ==> final(trace)@ == old(trace)@ + run_from::<T>(self.client@.stack, 0, self.request@, old(transport).state()).trace,
    {
        let mut client = self.client;
        client.send(self.request, transport, trace)
    }
}

} // verus!
