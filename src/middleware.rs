//! The middleware chain: what each middleware does, the transport at its end,
//! and the `Next` continuation that walks it.
use vstd::prelude::*;
use crate::headers::{inserted, no_headers};
use crate::message::{
    observed_status, outcome_view, status_of, Error, Outcome, Request, RequestView, Response, ResponseView,
};

verus! {

/// A unit of interception in the chain.
#[derive(Debug)]
pub enum Middleware {
    /// Advances once and hands the result back untouched.
    Pass,
    /// Advances once and records the outcome it sees.
    Logger,
    /// Sets a header on the request, then advances once (a refused header fails with `InvalidHeader`).
    SetRequestHeader { name: String, value: String },
    /// Advances once and sets a header on a successful response (a refused header fails with `InvalidHeader`).
    SetResponseHeader { name: String, value: String },
    /// Answers with the given status without advancing.
    Respond { status: u16 },
    /// Fails with the given code without advancing.
    Reject { code: u64 },
    /// Advances until a response comes back, at most `attempts` times (at least once).
    Retry { attempts: u64 },
    /// Advances twice, records both outcomes and returns the second.
    Twice,
}

impl Middleware {
    pub fn duplicate(&self) -> (r: Middleware)
        ensures
            r == *self,
    {
        match self {
            Middleware::Pass => Middleware::Pass,
            Middleware::Logger => Middleware::Logger,
            Middleware::SetRequestHeader { name, value } => Middleware::SetRequestHeader {
                name: name.clone(),
                value: value.clone(),
            },
            Middleware::SetResponseHeader { name, value } => Middleware::SetResponseHeader {
                name: name.clone(),
                value: value.clone(),
            },
            Middleware::Respond { status } => Middleware::Respond { status: *status },
            Middleware::Reject { code } => Middleware::Reject { code: *code },
            Middleware::Retry { attempts } => Middleware::Retry { attempts: *attempts },
            Middleware::Twice => Middleware::Twice,
        }
    }
}

/// What a traversal records, in the order it happens.
#[derive(Clone, Copy, PartialEq, Eq, Structural, Debug)]
pub enum Event {
    /// The middleware at this position was invoked.
    Enter(usize),
    /// The middleware at this position returned.
    Leave(usize),
    /// The terminal handler called the transport.
    Dispatch,
    /// The middleware at this position saw a downstream outcome (its status, none for a failure).
    Observed(usize, Option<u16>),
}

/// The terminal handler's transport: what the chain hands each request to once
/// every middleware has advanced. Its view is what its answers depend on.
pub trait Transport: Sized {
    /// What the transport's answers depend on.
    type State;

    spec fn state(&self) -> Self::State;

    /// What a call with `req` answers, and the state of the transport afterwards.
    spec fn answer(t: Self::State, req: RequestView) -> (Outcome, Self::State);

    /// Whether `answer` describes this transport's calls. A transport whose
    /// answers come from outside the program (a network) says `false`, and
    /// then nothing is claimed of what it answers.
    spec fn modelled() -> bool;

    /// Hands `req` over and returns the answer.
    fn dispatch(&mut self, req: Request) -> (r: Result<Response, Error>)
        ensures
            Self::modelled() ==> (outcome_view(r), final(self).state()) == Self::answer(old(self).state(), req@),
    ;
}

/// A transport that answers each call with the next outcome of a script, and
/// keeps the requests it was handed.
#[derive(Debug)]
pub struct ScriptTransport {
    script: Vec<Result<Response, Error>>,
    received: Vec<Request>,
}

/// What a transport holds, as plain values: the answers still to come, and the requests received so far.
pub ghost struct TransportView {
    pub pending: Seq<Outcome>,
    pub received: Seq<RequestView>,
}

impl View for ScriptTransport {
    type V = TransportView;

    closed spec fn view(&self) -> TransportView {
        TransportView {
            pending: self.script@.map_values(|o: Result<Response, Error>| outcome_view(o)),
            received: self.received@.map_values(|q: Request| q@),
        }
    }
}

/// One call of the transport with `req`: the answer, and the transport afterwards.
pub open spec fn dispatched(t: TransportView, req: RequestView) -> (Outcome, TransportView) {
    let received = t.received.push(req);
    if t.pending.len() > 0 {
        (t.pending[0], TransportView { pending: t.pending.drop_first(), received })
    } else {
        (Err(Error::Unavailable), TransportView { pending: t.pending, received })
    }
}

impl ScriptTransport {
    pub fn new(script: Vec<Result<Response, Error>>) -> (r: ScriptTransport)
        ensures
            r@.pending == script@.map_values(|o: Result<Response, Error>| outcome_view(o)),
            r@.received == Seq::<RequestView>::empty(),
    {
        let r = ScriptTransport { script, received: Vec::new() };
        proof {
            assert(r@.received =~= Seq::<RequestView>::empty());
        }
        r
    }

    /// The number of answers still to come.
    pub fn remaining(&self) -> (r: usize)
        ensures
            r == self@.pending.len(),
    {
        self.script.len()
    }

    /// The requests received so far, oldest first.
    pub fn received(&self) -> (r: &Vec<Request>)
        ensures
            r@.map_values(|q: Request| q@) == self@.received,
    {
        &self.received
    }
}

impl Transport for ScriptTransport {
    type State = TransportView;

    open spec fn state(&self) -> TransportView {
        self@
    }

    open spec fn answer(t: TransportView, req: RequestView) -> (Outcome, TransportView) {
        dispatched(t, req)
    }

    open spec fn modelled() -> bool {
        true
    }

    fn dispatch(&mut self, req: Request) -> (r: Result<Response, Error>) {
        self.received.push(req);
        proof {
            assert(self@.received =~= old(self)@.received.push(req@));
        }
        if self.script.len() > 0 {
            let r = self.script.remove(0);
            proof {
                assert(self@.pending =~= old(self)@.pending.drop_first());
            }
            r
        } else {
            Err(Error::Unavailable)
        }
    }
}

/// The result of a traversal: its outcome, the transport afterwards, and the events recorded.
pub ghost struct Run<S> {
    pub outcome: Outcome,
    pub transport: S,
    pub trace: Seq<Event>,
}

/// Running the chain on `req` from position `pos` of `stack`, against transport `t`.
pub open spec fn run_from<T: Transport>(stack: Seq<Middleware>, pos: nat, req: RequestView, t: T::State) -> Run<T::State>
    decreases stack.len() - pos, 2int, 0int,
{
    if pos >= stack.len() {
        let (o, after) = T::answer(t, req);
        Run { outcome: o, transport: after, trace: seq![Event::Dispatch] }
    } else {
        let inner = step::<T>(stack, pos, req, t);
        Run {
            outcome: inner.outcome,
            transport: inner.transport,
            trace: seq![Event::Enter(pos as usize)] + inner.trace + seq![Event::Leave(pos as usize)],
        }
    }
}

/// What the middleware at `pos` does, between its `Enter` and its `Leave`.
pub open spec fn step<T: Transport>(stack: Seq<Middleware>, pos: nat, req: RequestView, t: T::State) -> Run<T::State>
    decreases stack.len() - pos, 1int, 0int,
{
    if pos >= stack.len() {
        Run { outcome: Err(Error::Unavailable), transport: t, trace: seq![] }
    } else {
        match stack[pos as int] {
            Middleware::Pass => run_from::<T>(stack, pos + 1, req, t),
            Middleware::Logger => {
                let r = run_from::<T>(stack, pos + 1, req, t);
                Run {
                    outcome: r.outcome,
                    transport: r.transport,
                    trace: r.trace.push(Event::Observed(pos as usize, status_of(r.outcome))),
                }
            },
            Middleware::SetRequestHeader { name, value } => match inserted(req.headers, name@, value@) {
                Some(h) => run_from::<T>(stack, pos + 1, RequestView { headers: h, ..req }, t),
                None => Run { outcome: Err(Error::InvalidHeader), transport: t, trace: seq![] },
            },
            Middleware::SetResponseHeader { name, value } => {
                let r = run_from::<T>(stack, pos + 1, req, t);
                Run {
                    outcome: with_header(r.outcome, name@, value@),
                    transport: r.transport,
                    trace: r.trace,
                }
            },
            Middleware::Respond { status } => Run {
                outcome: Ok(ResponseView { status, headers: no_headers(), body: seq![] }),
                transport: t,
                trace: seq![],
            },
            Middleware::Reject { code } => Run {
                outcome: Err(Error::Rejected(code)),
                transport: t,
                trace: seq![],
            },
            Middleware::Retry { attempts } => retry_from::<T>(stack, pos, req, t, attempts as nat),
            Middleware::Twice => {
                let first = run_from::<T>(stack, pos + 1, req, t);
                let second = run_from::<T>(stack, pos + 1, req, first.transport);
                Run {
                    outcome: second.outcome,
                    transport: second.transport,
                    trace: first.trace.push(Event::Observed(pos as usize, status_of(first.outcome)))
                        + second.trace.push(Event::Observed(pos as usize, status_of(second.outcome))),
                }
            },
        }
    }
}

/// Advancing `req` from `pos` until a response comes back, with `left` attempts
/// allowed (at least one is made).
pub open spec fn retry_from<T: Transport>(stack: Seq<Middleware>, pos: nat, req: RequestView, t: T::State, left: nat) -> Run<T::State>
    decreases stack.len() - pos, 0int, left,
{
    if pos >= stack.len() {
        Run { outcome: Err(Error::Unavailable), transport: t, trace: seq![] }
    } else {
        let first = run_from::<T>(stack, pos + 1, req, t);
        let seen = first.trace.push(Event::Observed(pos as usize, status_of(first.outcome)));
        if first.outcome is Ok || left <= 1 {
            Run { outcome: first.outcome, transport: first.transport, trace: seen }
        } else {
            let again = retry_from::<T>(stack, pos, req, first.transport, (left - 1) as nat);
            Run { outcome: again.outcome, transport: again.transport, trace: seen + again.trace }
        }
    }
}

/// A successful response with header `name` set to `value` (a refused header
/// fails with `InvalidHeader`); a failure unchanged.
pub open spec fn with_header(o: Outcome, name: Seq<char>, value: Seq<char>) -> Outcome {
    match o {
        Ok(v) => match inserted(v.headers, name, value) {
            Some(h) => Ok(ResponseView { headers: h, ..v }),
            None => Err(Error::InvalidHeader),
        },
        Err(e) => Err(e),
    }
}

/// The rest of the chain: the middleware from `pos` on, then the transport.
pub struct Next<'a> {
    pub stack: &'a Vec<Middleware>,
    pub pos: usize,
}

impl<'a> Next<'a> {
    /// The whole chain of `stack`.
    pub fn new(stack: &'a Vec<Middleware>) -> (r: Next<'a>)
        ensures
            r.stack == stack,
            r.pos == 0,
    {
        Next { stack, pos: 0 }
    }

    /// Sends `req` through the rest of the chain.
    pub fn run<T: Transport>(&self, req: Request, transport: &mut T, trace: &mut Vec<Event>) -> (r: Result<Response, Error>)
        requires
            self.pos <= self.stack@.len(),
        ensures
            T::modelled() ==> outcome_view(r) == run_from::<T>(self.stack@, self.pos as nat, req@, old(transport).state()).outcome,
            T::modelled() ==> final(transport).state() == run_from::<T>(self.stack@, self.pos as nat, req@, old(transport).state()).transport,
            T::modelled() ==> final(trace)@ == old(trace)@ + run_from::<T>(self.stack@, self.pos as nat, req@, old(transport).state()).trace,
        decreases self.stack@.len() - self.pos, 2int, 0int,
    {
        if self.pos >= self.stack.len() {
            trace.push(Event::Dispatch);
            let r = transport.dispatch(req);
            proof {
                assert(T::modelled() ==> final(trace)@ =~= old(trace)@ + seq![Event::Dispatch]);
            }
            r
        } else {
            trace.push(Event::Enter(self.pos));
            let ghost q = req@;
            let r = self.step(req, transport, trace);
            let ghost inner = step::<T>(self.stack@, self.pos as nat, q, old(transport).state());
            trace.push(Event::Leave(self.pos));
            proof {
                assert(T::modelled() ==> final(trace)@ =~= old(trace)@ + (seq![Event::Enter(self.pos)] + inner.trace
                    + seq![Event::Leave(self.pos)]));
            }
            r
        }
    }

    fn step<T: Transport>(&self, req: Request, transport: &mut T, trace: &mut Vec<Event>) -> (r: Result<Response, Error>)
        requires
            self.pos < self.stack@.len() <= usize::MAX,
        ensures
            T::modelled() ==> outcome_view(r) == step::<T>(self.stack@, self.pos as nat, req@, old(transport).state()).outcome,
            T::modelled() ==> final(transport).state() == step::<T>(self.stack@, self.pos as nat, req@, old(transport).state()).transport,
            T::modelled() ==> final(trace)@ == old(trace)@ + step::<T>(self.stack@, self.pos as nat, req@, old(transport).state()).trace,
        decreases self.stack@.len() - self.pos, 1int, 0int,
    {
        let next = Next { stack: self.stack, pos: self.pos + 1 };
        let ghost q = req@;
        match &self.stack[self.pos] {
            Middleware::Pass => next.run(req, transport, trace),
            Middleware::Logger => {
                let r = next.run(req, transport, trace);
                trace.push(Event::Observed(self.pos, observed_status(&r)));
                proof {
                    assert(T::modelled() ==> final(trace)@ =~= old(trace)@ + step::<T>(self.stack@, self.pos as nat, q, old(transport).state()).trace);
                }
                r
            },
            Middleware::SetRequestHeader { name, value } => {
                let mut req = req;
                match req.headers.insert(name.as_str(), value.as_str()) {
                    Some(_) => next.run(req, transport, trace),
                    None => {
                        proof {
                            assert(T::modelled() ==> final(trace)@ =~= old(trace)@ + Seq::<Event>::empty());
                        }
                        Err(Error::InvalidHeader)
                    },
                }
            },
            Middleware::SetResponseHeader { name, value } => {
                let r = next.run(req, transport, trace);
                match r {
                    Ok(mut resp) => match resp.headers.insert(name.as_str(), value.as_str()) {
                        Some(_) => Ok(resp),
                        None => Err(Error::InvalidHeader),
                    },
                    Err(e) => Err(e),
                }
            },
            Middleware::Respond { status } => {
                proof {
                    assert(T::modelled() ==> final(trace)@ =~= old(trace)@ + Seq::<Event>::empty());
                }
                Ok(Response::new(*status))
            },
            Middleware::Reject { code } => {
                proof {
                    assert(T::modelled() ==> final(trace)@ =~= old(trace)@ + Seq::<Event>::empty());
                }
                Err(Error::Rejected(*code))
            },
            Middleware::Retry { attempts } => self.retry(&req, *attempts, transport, trace),
            Middleware::Twice => {
                let first = next.run(req.duplicate(), transport, trace);
                trace.push(Event::Observed(self.pos, observed_status(&first)));
                let second = next.run(req, transport, trace);
                trace.push(Event::Observed(self.pos, observed_status(&second)));
                proof {
                    assert(T::modelled() ==> final(trace)@ =~= old(trace)@ + step::<T>(self.stack@, self.pos as nat, q, old(transport).state()).trace);
                }
                second
            },
        }
    }

    fn retry<T: Transport>(&self, req: &Request, left: u64, transport: &mut T, trace: &mut Vec<Event>) -> (r: Result<Response, Error>)
        requires
            self.pos < self.stack@.len() <= usize::MAX,
        ensures
            T::modelled() ==> outcome_view(r) == retry_from::<T>(self.stack@, self.pos as nat, req@, old(transport).state(), left as nat).outcome,
            T::modelled() ==> final(transport).state() == retry_from::<T>(self.stack@, self.pos as nat, req@, old(transport).state(), left as nat).transport,
            T::modelled() ==> final(trace)@ == old(trace)@ + retry_from::<T>(self.stack@, self.pos as nat, req@, old(transport).state(), left as nat).trace,
        decreases self.stack@.len() - self.pos, 0int, left,
    {
        let next = Next { stack: self.stack, pos: self.pos + 1 };
        let r = next.run(req.duplicate(), transport, trace);
        trace.push(Event::Observed(self.pos, observed_status(&r)));
        if r.is_ok() || left <= 1 {
            proof {
                assert(T::modelled() ==> final(trace)@ =~= old(trace)@ + retry_from::<T>(self.stack@, self.pos as nat, req@, old(transport).state(), left as nat).trace);
            }
            r
        } else {
            let again = self.retry(req, left - 1, transport, trace);
            proof {
                assert(T::modelled() ==> final(trace)@ =~= old(trace)@ + retry_from::<T>(self.stack@, self.pos as nat, req@, old(transport).state(), left as nat).trace);
            }
            again
        }
    }
}

} // verus!
