use surf_core::client::Client;
use surf_core::headers::Headers;
use surf_core::message::{Error, Method, Request, Response};
use surf_core::middleware::{Event, Middleware, Next, ScriptTransport};

fn ok(status: u16) -> Result<Response, Error> {
    Ok(Response::new(status))
}

fn request() -> Request {
    Request::new(Method::Get, "http://example.com/".to_string())
}

fn client_of(stack: Vec<Middleware>) -> Client {
    let mut c = Client::new();
    for m in stack {
        c = c.with(m).unwrap();
    }
    c
}

fn dispatches(trace: &[Event]) -> usize {
    trace.iter().filter(|e| **e == Event::Dispatch).count()
}

#[test]
fn onion_order_of_three() {
    let mut c = client_of(vec![
        Middleware::Pass,
        Middleware::Logger,
        Middleware::SetResponseHeader { name: "x-a".to_string(), value: "1".to_string() },
    ]);
    let mut t = ScriptTransport::new(vec![ok(200)]);
    let mut trace = Vec::new();
    let r = c.send(request(), &mut t, &mut trace).unwrap();
    assert_eq!(r.status, 200);
    assert_eq!(
        trace,
        vec![
            Event::Enter(0),
            Event::Enter(1),
            Event::Enter(2),
            Event::Dispatch,
            Event::Leave(2),
            Event::Observed(1, Some(200)),
            Event::Leave(1),
            Event::Leave(0),
        ]
    );
}

#[test]
fn onion_order_kept_on_failure() {
    let mut c = client_of(vec![Middleware::Pass, Middleware::Pass]);
    let mut t = ScriptTransport::new(vec![Err(Error::Transport(9))]);
    let mut trace = Vec::new();
    let r = c.send(request(), &mut t, &mut trace);
    assert!(matches!(r, Err(Error::Transport(9))));
    assert_eq!(
        trace,
        vec![Event::Enter(0), Event::Enter(1), Event::Dispatch, Event::Leave(1), Event::Leave(0)]
    );
}

#[test]
fn empty_chain_goes_straight_to_transport() {
    let mut c = Client::new();
    let mut t = ScriptTransport::new(vec![ok(204)]);
    let mut trace = Vec::new();
    let r = c.send(request(), &mut t, &mut trace).unwrap();
    assert_eq!(r.status, 204);
    assert_eq!(trace, vec![Event::Dispatch]);
    assert_eq!(t.remaining(), 0);
}

#[test]
fn exhausted_transport_is_unavailable() {
    let mut c = client_of(vec![Middleware::Pass]);
    let mut t = ScriptTransport::new(vec![]);
    let mut trace = Vec::new();
    assert!(matches!(c.send(request(), &mut t, &mut trace), Err(Error::Unavailable)));
}

#[test]
fn short_circuit_never_reaches_transport() {
    let mut c = client_of(vec![Middleware::Respond { status: 304 }, Middleware::Pass]);
    let mut t = ScriptTransport::new(vec![ok(200)]);
    let mut trace = Vec::new();
    let r = c.send(request(), &mut t, &mut trace).unwrap();
    assert_eq!(r.status, 304);
    assert_eq!(t.remaining(), 1);
    assert_eq!(dispatches(&trace), 0);
    assert_eq!(trace, vec![Event::Enter(0), Event::Leave(0)]);
}

#[test]
fn rejection_propagates_unchanged() {
    let mut c = client_of(vec![Middleware::Logger, Middleware::Reject { code: 7 }]);
    let mut t = ScriptTransport::new(vec![ok(200)]);
    let mut trace = Vec::new();
    let r = c.send(request(), &mut t, &mut trace);
    assert!(matches!(r, Err(Error::Rejected(7))));
    assert_eq!(t.remaining(), 1);
    assert!(trace.contains(&Event::Observed(0, None)));
}

#[test]
fn twice_dispatches_twice() {
    let mut c = client_of(vec![Middleware::Twice, Middleware::Pass]);
    let mut t = ScriptTransport::new(vec![ok(500), ok(201)]);
    let mut trace = Vec::new();
    let r = c.send(request(), &mut t, &mut trace).unwrap();
    assert_eq!(r.status, 201);
    assert_eq!(dispatches(&trace), 2);
    assert!(trace.contains(&Event::Observed(0, Some(500))));
    assert!(trace.contains(&Event::Observed(0, Some(201))));
    assert_eq!(t.remaining(), 0);
}

#[test]
fn retry_until_success() {
    let mut c = client_of(vec![Middleware::Retry { attempts: 5 }]);
    let mut t = ScriptTransport::new(vec![Err(Error::Transport(1)), Err(Error::Transport(2)), ok(200), ok(404)]);
    let mut trace = Vec::new();
    let r = c.send(request(), &mut t, &mut trace).unwrap();
    assert_eq!(r.status, 200);
    assert_eq!(dispatches(&trace), 3);
    assert_eq!(t.remaining(), 1);
}

#[test]
fn retry_budget_exhausted() {
    let mut c = client_of(vec![Middleware::Retry { attempts: 2 }]);
    let mut t = ScriptTransport::new(vec![Err(Error::Transport(1)), Err(Error::Transport(2)), ok(200)]);
    let mut trace = Vec::new();
    let r = c.send(request(), &mut t, &mut trace);
    assert!(matches!(r, Err(Error::Transport(2))));
    assert_eq!(dispatches(&trace), 2);
    assert_eq!(t.remaining(), 1);
}

#[test]
fn retry_with_zero_attempts_tries_once() {
    let mut c = client_of(vec![Middleware::Retry { attempts: 0 }]);
    let mut t = ScriptTransport::new(vec![Err(Error::Transport(3)), ok(200)]);
    let mut trace = Vec::new();
    assert!(matches!(c.send(request(), &mut t, &mut trace), Err(Error::Transport(3))));
    assert_eq!(dispatches(&trace), 1);
}

#[test]
fn set_header_only_on_success() {
    let mut c = client_of(vec![Middleware::SetResponseHeader { name: "x-a".to_string(), value: "1".to_string() }]);
    let mut t = ScriptTransport::new(vec![Err(Error::Transport(4)), ok(200)]);
    let mut trace = Vec::new();
    assert!(matches!(c.send(request(), &mut t, &mut trace), Err(Error::Transport(4))));
    let r = c.send(request(), &mut t, &mut trace).unwrap();
    assert_eq!(r.header("x-a"), Some("1".to_string()));
    assert_eq!(r.header("x-b"), None);
}

#[test]
fn duplicate_isolates_stacks() {
    let c = client_of(vec![Middleware::Pass]);
    let mut c = c;
    let d = c.duplicate();
    assert!(c.is_frozen());
    assert!(!d.is_frozen());
    let mut d = d.with(Middleware::Logger).unwrap();
    assert_eq!(c.middleware_count(), 1);
    assert_eq!(d.middleware_count(), 2);
    let mut t = ScriptTransport::new(vec![ok(200), ok(200)]);
    let mut trace = Vec::new();
    c.send(request(), &mut t, &mut trace).unwrap();
    assert_eq!(trace, vec![Event::Enter(0), Event::Dispatch, Event::Leave(0)]);
    let mut trace2 = Vec::new();
    d.send(request(), &mut t, &mut trace2).unwrap();
    assert_eq!(trace2.len(), 6);
    assert!(trace2.contains(&Event::Observed(1, Some(200))));
}

#[test]
fn registering_after_duplicate_fails() {
    let mut c = client_of(vec![Middleware::Pass]);
    let _d = c.duplicate();
    assert!(matches!(c.with(Middleware::Logger), Err(Error::Frozen)));
}

#[test]
fn registering_after_send_fails() {
    let mut c = client_of(vec![Middleware::Pass]);
    let mut t = ScriptTransport::new(vec![ok(200)]);
    let mut trace = Vec::new();
    c.send(request(), &mut t, &mut trace).unwrap();
    assert!(c.is_frozen());
    assert!(matches!(c.with(Middleware::Logger), Err(Error::Frozen)));
}

#[test]
fn get_through_header_injector_and_logger() {
    let mut c = client_of(vec![
        Middleware::SetResponseHeader { name: "x-injected".to_string(), value: "yes".to_string() },
        Middleware::Logger,
    ]);
    let b = c.get("http://example.com/path").unwrap();
    assert_eq!(b.request.method, Method::Get);
    let mut t = ScriptTransport::new(vec![Ok(Response::with_body(200, b"ok".to_vec()))]);
    let mut trace = Vec::new();
    let r = b.send(&mut t, &mut trace).unwrap();
    assert_eq!(r.status, 200);
    assert_eq!(r.body, b"ok".to_vec());
    assert_eq!(r.header("X-Injected"), Some("yes".to_string()));
    let requests = trace.iter().filter(|e| **e == Event::Enter(1)).count();
    let responses = trace.iter().filter(|e| matches!(e, Event::Observed(1, _))).count();
    assert_eq!(requests, 1);
    assert_eq!(responses, 1);
    assert!(trace.contains(&Event::Observed(1, Some(200))));
}

#[test]
fn verb_methods_set_method_and_normalise_url() {
    let mut c = Client::new();
    assert_eq!(c.get("http://example.com").unwrap().request.method, Method::Get);
    assert_eq!(c.head("http://example.com").unwrap().request.method, Method::Head);
    assert_eq!(c.post("http://example.com").unwrap().request.method, Method::Post);
    assert_eq!(c.put("http://example.com").unwrap().request.method, Method::Put);
    assert_eq!(c.delete("http://example.com").unwrap().request.method, Method::Delete);
    assert_eq!(c.connect("http://example.com").unwrap().request.method, Method::Connect);
    assert_eq!(c.options("http://example.com").unwrap().request.method, Method::Options);
    assert_eq!(c.trace("http://example.com").unwrap().request.method, Method::Trace);
    let b = c.patch("HTTP://Example.COM").unwrap();
    assert_eq!(b.request.method, Method::Patch);
    assert_eq!(b.request.url, "http://example.com/");
    assert_eq!(b.request.headers.len(), 0);
    assert!(b.request.body.is_empty());
}

#[test]
fn invalid_uri_is_an_error_and_leaves_client_open() {
    let mut c = Client::new();
    assert!(matches!(c.get("not a url"), Err(Error::InvalidUri)));
    assert!(!c.is_frozen());
    assert!(c.with(Middleware::Pass).is_ok());
}

#[test]
fn builder_sets_headers_and_body() {
    let mut c = Client::new();
    let b = c.post("http://example.com/").unwrap().header("X-A", "1").unwrap().body(vec![1, 2, 3]);
    assert_eq!(b.request.headers.len(), 1);
    assert_eq!(b.request.headers.get("x-a"), Some("1".to_string()));
    assert_eq!(b.request.body, vec![1, 2, 3]);
}

#[test]
fn recv_bytes_returns_body() {
    let mut c = Client::new();
    let mut t = ScriptTransport::new(vec![Ok(Response::with_body(200, vec![9, 8])), Err(Error::Transport(5))]);
    let mut trace = Vec::new();
    assert_eq!(c.recv_bytes(request(), &mut t, &mut trace).unwrap(), vec![9, 8]);
    assert!(matches!(c.recv_bytes(request(), &mut t, &mut trace), Err(Error::Transport(5))));
}

#[test]
fn next_runs_from_its_position() {
    let stack = vec![Middleware::Respond { status: 418 }, Middleware::Pass];
    let next = Next { stack: &stack, pos: 1 };
    let mut t = ScriptTransport::new(vec![ok(200)]);
    let mut trace = Vec::new();
    assert_eq!(next.run(request(), &mut t, &mut trace).unwrap().status, 200);
    assert_eq!(trace, vec![Event::Enter(1), Event::Dispatch, Event::Leave(1)]);
    let whole = Next::new(&stack);
    assert_eq!(whole.run(request(), &mut t, &mut trace).unwrap().status, 418);
}

#[test]
fn recv_string_decodes_utf8() {
    let mut c = Client::default();
    let mut t = ScriptTransport::new(vec![
        Ok(Response::with_body(200, "héllo".as_bytes().to_vec())),
        Ok(Response::with_body(200, vec![0xff, 0xfe])),
        Err(Error::Transport(6)),
    ]);
    let mut trace = Vec::new();
    assert_eq!(c.recv_string(request(), &mut t, &mut trace).unwrap(), "héllo");
    assert!(matches!(c.recv_string(request(), &mut t, &mut trace), Err(Error::Decode(0))));
    assert!(matches!(c.recv_string(request(), &mut t, &mut trace), Err(Error::Transport(6))));
    assert_eq!(dispatches(&trace), 3);
}

#[test]
fn default_client_is_empty_and_open() {
    let c = Client::default();
    assert_eq!(c.middleware_count(), 0);
    assert!(!c.is_frozen());
}

#[test]
fn request_header_reaches_transport() {
    let mut c = client_of(vec![
        Middleware::SetRequestHeader { name: "authorization".to_string(), value: "token".to_string() },
        Middleware::Retry { attempts: 3 },
    ]);
    let mut t = ScriptTransport::new(vec![Err(Error::Transport(1)), Err(Error::Transport(1)), ok(200)]);
    let mut trace = Vec::new();
    let r = c.send(request(), &mut t, &mut trace).unwrap();
    assert_eq!(r.status, 200);
    let got = t.received();
    assert_eq!(got.len(), 3);
    for q in got {
        assert_eq!(q.url, "http://example.com/");
        assert_eq!(q.headers.len(), 1);
        assert_eq!(q.headers.get("Authorization"), Some("token".to_string()));
    }
}

#[test]
fn request_duplicate_keeps_values() {
    let mut q = request();
    assert_eq!(q.headers.insert("a", "b"), Some(None));
    q.body = vec![1, 2];
    let d = q.duplicate();
    assert_eq!(d.method, Method::Get);
    assert_eq!(d.url, q.url);
    assert_eq!(d.headers.len(), 1);
    assert_eq!(d.headers.get("a"), Some("b".to_string()));
    assert_eq!(d.body, vec![1, 2]);
}

#[test]
fn headers_match_names_without_case() {
    let mut h = Headers::new();
    assert_eq!(h.insert("Content-Type", "text/plain"), Some(None));
    assert_eq!(h.get("content-type"), Some("text/plain".to_string()));
    assert_eq!(h.get("CONTENT-TYPE"), Some("text/plain".to_string()));
    assert_eq!(h.insert("content-TYPE", "text/html"), Some(Some("text/plain".to_string())));
    assert_eq!(h.len(), 1);
    assert_eq!(h.get("Content-Type"), Some("text/html".to_string()));
    assert_eq!(h.get("accept"), None);
}

#[test]
fn headers_refuse_invalid_names_and_values() {
    let mut h = Headers::new();
    assert_eq!(h.insert("bad name", "x"), None);
    assert_eq!(h.insert("x-a", "line\nbreak"), None);
    assert_eq!(h.len(), 0);
    let d = h.duplicate();
    assert_eq!(d.len(), 0);
}

#[test]
fn invalid_response_header_fails_the_send() {
    let mut c = client_of(vec![Middleware::SetResponseHeader { name: "bad name".to_string(), value: "1".to_string() }]);
    let mut t = ScriptTransport::new(vec![ok(200)]);
    let mut trace = Vec::new();
    assert!(matches!(c.send(request(), &mut t, &mut trace), Err(Error::InvalidHeader)));
}

#[test]
fn invalid_request_header_stops_before_transport() {
    let mut c = client_of(vec![Middleware::SetRequestHeader { name: "x-a".to_string(), value: "a\nb".to_string() }]);
    let mut t = ScriptTransport::new(vec![ok(200)]);
    let mut trace = Vec::new();
    assert!(matches!(c.send(request(), &mut t, &mut trace), Err(Error::InvalidHeader)));
    assert_eq!(t.remaining(), 1);
    assert_eq!(dispatches(&trace), 0);
}

#[test]
fn decode_error_keeps_valid_prefix_length() {
    let mut c = Client::new();
    let mut t = ScriptTransport::new(vec![Ok(Response::with_body(200, vec![b'o', b'k', 0xff]))]);
    let mut trace = Vec::new();
    assert!(matches!(c.recv_string(request(), &mut t, &mut trace), Err(Error::Decode(2))));
}

#[test]
fn header_pairs_keep_first_set_order() {
    let mut h = Headers::new();
    assert_eq!(h.insert("B-Name", "1"), Some(None));
    assert_eq!(h.insert("a-name", "2"), Some(None));
    assert_eq!(h.insert("b-name", "3"), Some(Some("1".to_string())));
    assert_eq!(
        h.pairs(),
        vec![("b-name".to_string(), "3".to_string()), ("a-name".to_string(), "2".to_string())]
    );
    assert_eq!(Headers::new().pairs(), vec![]);
}

#[test]
fn header_values_beyond_ascii_are_accepted() {
    let mut h = Headers::new();
    assert_eq!(h.insert("x-name", "caf\u{e9}\tok"), Some(None));
    assert_eq!(h.get("X-NAME"), Some("caf\u{e9}\tok".to_string()));
    assert_eq!(h.insert("x-del", "a\u{7f}"), None);
}
