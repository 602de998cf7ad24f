//! Properties of the chain that hold for every stack and every transport script.
use vstd::prelude::*;
use crate::client::{duplicated, frozen, registered, ClientModel};
use crate::headers::{ascii_lower, header_key};
use crate::message::RequestView;
use crate::middleware::{retry_from, run_from, step, Event, Middleware, ScriptTransport, Transport, TransportView};

verus! {

/// A middleware that advances exactly once, whatever comes back.
pub open spec fn advances_once(m: Middleware) -> bool {
    m is Pass || m is Logger || m is SetResponseHeader
}

/// Whether every middleware from `pos` on advances exactly once.
pub open spec fn all_advance_once(stack: Seq<Middleware>, pos: nat) -> bool {
    forall|i: int| pos <= i < stack.len() ==> advances_once(#[trigger] stack[i])
}

/// The number of transport calls recorded in a trace.
pub open spec fn dispatches(t: Seq<Event>) -> nat
    decreases t.len(),
{
    if t.len() == 0 {
        0
    } else {
        dispatches(t.drop_last()) + if t.last() == Event::Dispatch { 1nat } else { 0nat }
    }
}

/// A trace without its observations: the invocations, returns and transport calls alone.
pub open spec fn frames(t: Seq<Event>) -> Seq<Event>
    decreases t.len(),
{
    if t.len() == 0 {
        t
    } else if t.last() is Observed {
        frames(t.drop_last())
    } else {
        frames(t.drop_last()).push(t.last())
    }
}

/// Onion order from `pos` on in a stack of `n`: each middleware enters in
/// registration order, the transport is called once, and they return in reverse.
pub open spec fn onion(n: nat, pos: nat) -> Seq<Event>
    decreases n - pos,
{
    if pos >= n {
        seq![Event::Dispatch]
    } else {
        seq![Event::Enter(pos as usize)] + onion(n, pos + 1) + seq![Event::Leave(pos as usize)]
    }
}

proof fn lemma_dispatches_add(a: Seq<Event>, b: Seq<Event>)
    ensures
        dispatches(a + b) == dispatches(a) + dispatches(b),
    decreases b.len(),
{
    if b.len() == 0 {
        assert(a + b =~= a);
    } else {
        assert((a + b).drop_last() =~= a + b.drop_last());
        lemma_dispatches_add(a, b.drop_last());
    }
}

proof fn lemma_frames_add(a: Seq<Event>, b: Seq<Event>)
    ensures
        frames(a + b) == frames(a) + frames(b),
    decreases b.len(),
{
    if b.len() == 0 {
        assert(a + b =~= a);
        assert(frames(b) =~= Seq::<Event>::empty());
        assert(frames(a) + frames(b) =~= frames(a));
    } else {
        assert((a + b).drop_last() =~= a + b.drop_last());
        lemma_frames_add(a, b.drop_last());
        if !(b.last() is Observed) {
            assert(frames(a) + frames(b.drop_last()).push(b.last()) =~= (frames(a) + frames(
                b.drop_last()
            )).push(b.last()));
        }
    }
}

proof fn lemma_single(e: Event)
    ensures
        dispatches(seq![e]) == if e == Event::Dispatch { 1nat } else { 0nat },
        frames(seq![e]) == if e is Observed { Seq::<Event>::empty() } else { seq![e] },
{
    let one = seq![e];
    assert(one.drop_last() =~= Seq::<Event>::empty());
    assert(one.last() == e);
    assert(dispatches(Seq::<Event>::empty()) == 0);
    assert(frames(Seq::<Event>::empty()) == Seq::<Event>::empty());
    assert(Seq::<Event>::empty().push(e) =~= one);
}

/// With middleware that each advance once, a request enters the middleware in
/// registration order, reaches the transport once, and comes back out through
/// them in reverse order.
pub proof fn onion_order<T: Transport>(stack: Seq<Middleware>, pos: nat, req: RequestView, t: T::State)
    requires
        pos <= stack.len(),
        all_advance_once(stack, pos),
    ensures
        frames(run_from::<T>(stack, pos, req, t).trace) == onion(stack.len(), pos),
        dispatches(run_from::<T>(stack, pos, req, t).trace) == 1,
    decreases stack.len() - pos,
{
    if pos >= stack.len() {
        lemma_single(Event::Dispatch);
    } else {
        let r = run_from::<T>(stack, pos + 1, req, t);
        onion_order::<T>(stack, pos + 1, req, t);
        let enter = seq![Event::Enter(pos as usize)];
        let leave = seq![Event::Leave(pos as usize)];
        lemma_single(Event::Enter(pos as usize));
        lemma_single(Event::Leave(pos as usize));
        let inner = step::<T>(stack, pos, req, t).trace;
        if stack[pos as int] is Logger {
            let seen = seq![Event::Observed(pos as usize, crate::message::status_of(r.outcome))];
            lemma_single(seen[0]);
            assert(inner =~= r.trace + seen);
            lemma_frames_add(r.trace, seen);
            lemma_dispatches_add(r.trace, seen);
            assert(frames(inner) =~= frames(r.trace));
        } else {
            assert(inner == r.trace);
        }
        lemma_frames_add(enter, inner);
        lemma_frames_add(enter + inner, leave);
        lemma_dispatches_add(enter, inner);
        lemma_dispatches_add(enter + inner, leave);
    }
}

/// A middleware that does not advance answers by itself: the transport is not
/// called and nothing below it runs.
pub proof fn short_circuit_skips_transport<T: Transport>(stack: Seq<Middleware>, pos: nat, req: RequestView, t: T::State)
    requires
        pos < stack.len(),
        stack[pos as int] is Respond || stack[pos as int] is Reject,
    ensures
        run_from::<T>(stack, pos, req, t).transport == t,
        run_from::<T>(stack, pos, req, t).trace == seq![Event::Enter(pos as usize), Event::Leave(pos as usize)],
        dispatches(run_from::<T>(stack, pos, req, t).trace) == 0,
{
    let tr = run_from::<T>(stack, pos, req, t).trace;
    assert(tr =~= seq![Event::Enter(pos as usize), Event::Leave(pos as usize)]);
    assert(tr.drop_last() =~= seq![Event::Enter(pos as usize)]);
    lemma_single(Event::Enter(pos as usize));
}

/// A middleware that does not advance, below middleware that each advance
/// once, ends the traversal there: the transport is not called and no
/// middleware below it is invoked.
pub proof fn short_circuit_below_advancing<T: Transport>(
    stack: Seq<Middleware>,
    pos: nat,
    k: nat,
    req: RequestView,
    t: T::State,
)
    requires
        pos <= k < stack.len(),
        stack[k as int] is Respond || stack[k as int] is Reject,
        forall|i: int| pos <= i < k ==> advances_once(#[trigger] stack[i]),
    ensures
        run_from::<T>(stack, pos, req, t).transport == t,
        dispatches(run_from::<T>(stack, pos, req, t).trace) == 0,
        forall|i: int|
            0 <= i < run_from::<T>(stack, pos, req, t).trace.len() ==> !(#[trigger] run_from::<T>(stack, pos, req, t).trace[i] matches Event::Enter(
                j,
            ) && j as int > k),
    decreases k - pos,
{
    let tr = run_from::<T>(stack, pos, req, t).trace;
    if pos == k {
        short_circuit_skips_transport::<T>(stack, pos, req, t);
    } else {
        let r = run_from::<T>(stack, pos + 1, req, t);
        short_circuit_below_advancing::<T>(stack, pos + 1, k, req, t);
        let inner = step::<T>(stack, pos, req, t).trace;
        let enter = seq![Event::Enter(pos as usize)];
        let leave = seq![Event::Leave(pos as usize)];
        lemma_single(Event::Enter(pos as usize));
        lemma_single(Event::Leave(pos as usize));
        assert(advances_once(stack[pos as int]));
        if stack[pos as int] is Logger {
            let seen = seq![Event::Observed(pos as usize, crate::message::status_of(r.outcome))];
            lemma_single(seen[0]);
            assert(inner =~= r.trace + seen);
            lemma_dispatches_add(r.trace, seen);
        } else {
            assert(inner == r.trace);
        }
        lemma_dispatches_add(enter, inner);
        lemma_dispatches_add(enter + inner, leave);
        assert(tr == enter + inner + leave);
        assert forall|i: int| 0 <= i < tr.len() implies !(#[trigger] tr[i] matches Event::Enter(j) && j as int > k) by {
            if 1 <= i < 1 + r.trace.len() {
                assert(tr[i] == r.trace[i - 1]);
            }
        }
    }
}

/// A middleware that advances twice over middleware that each advance once
/// calls the transport twice in one traversal, sees both downstream outcomes,
/// and returns the second.
pub proof fn twice_dispatches_twice<T: Transport>(stack: Seq<Middleware>, pos: nat, req: RequestView, t: T::State)
    requires
        pos < stack.len(),
        stack[pos as int] is Twice,
        all_advance_once(stack, pos + 1),
    ensures
        ({
            let first = run_from::<T>(stack, pos + 1, req, t);
            let second = run_from::<T>(stack, pos + 1, req, first.transport);
            let run = run_from::<T>(stack, pos, req, t);
            &&& dispatches(run.trace) == 2
            &&& run.outcome == second.outcome
            &&& run.transport == second.transport
            &&& run.trace.contains(Event::Observed(pos as usize, crate::message::status_of(first.outcome)))
            &&& run.trace.contains(Event::Observed(pos as usize, crate::message::status_of(second.outcome)))
        }),
{
    let first = run_from::<T>(stack, pos + 1, req, t);
    let second = run_from::<T>(stack, pos + 1, req, first.transport);
    onion_order::<T>(stack, pos + 1, req, t);
    onion_order::<T>(stack, pos + 1, req, first.transport);
    let o1 = Event::Observed(pos as usize, crate::message::status_of(first.outcome));
    let o2 = Event::Observed(pos as usize, crate::message::status_of(second.outcome));
    let enter = seq![Event::Enter(pos as usize)];
    let leave = seq![Event::Leave(pos as usize)];
    let inner = first.trace.push(o1) + second.trace.push(o2);
    lemma_single(o1);
    lemma_single(o2);
    lemma_single(Event::Enter(pos as usize));
    lemma_single(Event::Leave(pos as usize));
    assert(first.trace.push(o1) =~= first.trace + seq![o1]);
    assert(second.trace.push(o2) =~= second.trace + seq![o2]);
    lemma_dispatches_add(first.trace, seq![o1]);
    lemma_dispatches_add(second.trace, seq![o2]);
    lemma_dispatches_add(first.trace.push(o1), second.trace.push(o2));
    lemma_dispatches_add(enter, inner);
    lemma_dispatches_add(enter + inner, leave);
    let tr = run_from::<T>(stack, pos, req, t).trace;
    assert(tr == enter + inner + leave);
    let i1 = 1 + first.trace.len();
    let i2 = 1 + first.trace.len() + 1 + second.trace.len();
    assert(tr[i1 as int] == o1);
    assert(tr[i2 as int] == o2);
}


/// A retrying middleware directly above the transport, allowed more attempts
/// than the failures the transport answers with before its first response,
/// calls the transport once per failure and once more, each time with the same
/// request, and returns that response.
pub proof fn retry_until_success(stack: Seq<Middleware>, pos: nat, req: RequestView, t: TransportView, failures: nat)
    requires
        pos + 1 == stack.len(),
        stack[pos as int] matches Middleware::Retry { attempts } && failures < attempts,
        failures < t.pending.len(),
        forall|i: int| 0 <= i < failures ==> t.pending[i] is Err,
        t.pending[failures as int] is Ok,
    ensures
        run_from::<ScriptTransport>(stack, pos, req, t).outcome == t.pending[failures as int],
        run_from::<ScriptTransport>(stack, pos, req, t).transport.pending == t.pending.subrange(failures + 1int, t.pending.len() as int),
        run_from::<ScriptTransport>(stack, pos, req, t).transport.received == t.received + Seq::new(failures + 1, |i: int| req),
        dispatches(run_from::<ScriptTransport>(stack, pos, req, t).trace) == failures + 1,
{
    let attempts = stack[pos as int]->Retry_attempts;
    lemma_retry(stack, pos, req, t, attempts as nat, failures);
    let inner = retry_from::<ScriptTransport>(stack, pos, req, t, attempts as nat);
    lemma_single(Event::Enter(pos as usize));
    lemma_single(Event::Leave(pos as usize));
    lemma_dispatches_add(seq![Event::Enter(pos as usize)], inner.trace);
    lemma_dispatches_add(seq![Event::Enter(pos as usize)] + inner.trace, seq![Event::Leave(pos as usize)]);
}

proof fn lemma_retry(stack: Seq<Middleware>, pos: nat, req: RequestView, t: TransportView, left: nat, failures: nat)
    requires
        pos + 1 == stack.len(),
        failures < left,
        failures < t.pending.len(),
        forall|i: int| 0 <= i < failures ==> t.pending[i] is Err,
        t.pending[failures as int] is Ok,
    ensures
        retry_from::<ScriptTransport>(stack, pos, req, t, left).outcome == t.pending[failures as int],
        retry_from::<ScriptTransport>(stack, pos, req, t, left).transport.pending == t.pending.subrange(failures + 1int, t.pending.len() as int),
        retry_from::<ScriptTransport>(stack, pos, req, t, left).transport.received == t.received + Seq::new(failures + 1, |i: int| req),
        dispatches(retry_from::<ScriptTransport>(stack, pos, req, t, left).trace) == failures + 1,
    decreases failures,
{
    let first = run_from::<ScriptTransport>(stack, pos + 1, req, t);
    let o = Event::Observed(pos as usize, crate::message::status_of(first.outcome));
    lemma_single(Event::Dispatch);
    lemma_single(o);
    assert(first.trace.push(o) =~= first.trace + seq![o]);
    lemma_dispatches_add(first.trace, seq![o]);
    if failures == 0 {
        assert(t.pending.drop_first() =~= t.pending.subrange(1, t.pending.len() as int));
        assert(t.received.push(req) =~= t.received + Seq::new(1, |i: int| req));
    } else {
        let rest = first.transport;
        assert forall|i: int| 0 <= i < failures - 1 implies rest.pending[i] is Err by {
            assert(rest.pending[i] == t.pending[i + 1]);
        }
        lemma_retry(stack, pos, req, rest, (left - 1) as nat, (failures - 1) as nat);
        assert(rest.pending.subrange(failures as int, rest.pending.len() as int) =~= t.pending.subrange(
            failures + 1int,
            t.pending.len() as int,
        ));
        assert(t.received.push(req) + Seq::new(failures as nat, |i: int| req) =~= t.received + Seq::new(
            failures + 1,
            |i: int| req,
        ));
        let again = retry_from::<ScriptTransport>(stack, pos, req, rest, (left - 1) as nat);
        lemma_dispatches_add(first.trace.push(o), again.trace);
    }
}

/// Duplicating a client and registering more middleware on the duplicate leaves
/// the original's stack, and so every traversal of it, as it was; the
/// duplicate's stack holds the shared middleware followed by the new one.
pub proof fn duplicate_isolates<T: Transport>(c: ClientModel, m: Middleware, req: RequestView, t: T::State)
    ensures
        frozen(c).stack == c.stack,
        run_from::<T>(frozen(c).stack, 0, req, t) == run_from::<T>(c.stack, 0, req, t),
        registered(duplicated(c), m) matches Some(d) && d.stack.len() == c.stack.len() + 1
            && d.stack.subrange(0, c.stack.len() as int) == c.stack && d.stack.last() == m,
{
    let d = registered(duplicated(c), m)->Some_0;
    assert(d.stack.subrange(0, c.stack.len() as int) =~= c.stack);
}

/// Header names that differ only in the case of ASCII letters are the same
/// name to a header collection.
pub proof fn names_match_without_case(a: Seq<char>, b: Seq<char>)
    requires
        a.len() == b.len(),
        forall|i: int| 0 <= i < a.len() ==> ascii_lower(#[trigger] a[i]) == ascii_lower(b[i]),
    ensures
        header_key(a) == header_key(b),
{
    assert forall|i: int| 0 <= i < a.len() implies (crate::headers::name_char(#[trigger] a[i])
        <==> crate::headers::name_char(b[i])) by {
        assert(ascii_lower(a[i]) == ascii_lower(b[i]));
    }
    assert(a.map_values(|c: char| ascii_lower(c)) =~= b.map_values(|c: char| ascii_lower(c)));
    if forall|i: int| 0 <= i < a.len() ==> crate::headers::name_char(#[trigger] a[i]) {
        assert forall|i: int| 0 <= i < b.len() implies crate::headers::name_char(#[trigger] b[i]) by {
            assert(crate::headers::name_char(a[i]));
        }
    }
    if forall|i: int| 0 <= i < b.len() ==> crate::headers::name_char(#[trigger] b[i]) {
        assert forall|i: int| 0 <= i < a.len() implies crate::headers::name_char(#[trigger] a[i]) by {
            assert(crate::headers::name_char(b[i]));
        }
    }
}

/// Once a client's stack is shared (by a duplicate, a bound request or a send),
/// registering more middleware on it is refused.
pub proof fn frozen_refuses(c: ClientModel, m: Middleware)
    ensures
        registered(frozen(c), m) is None,
{
}

} // verus!
