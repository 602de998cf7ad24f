//! An HTTP client surface built around an ordered middleware chain.
//!
//! A [`client::Client`] holds an ordered stack of middleware. Sending a request
//! threads it through that stack with a [`middleware::Next`] continuation and
//! finally hands it to a [`middleware::Transport`].
//!
//! The middleware a stack can hold are a fixed set of behaviours
//! ([`middleware::Middleware`]): pass-through, logging, setting a request or
//! response header, answering or refusing without advancing, retrying, and
//! advancing twice. Callers compose these; they cannot plug in middleware of
//! their own, because the chain's contracts are stated over exactly these
//! behaviours. The transport, by contrast, is open: any type implementing
//! [`middleware::Transport`] can stand at the end of the chain.
pub mod client;
pub mod headers;
pub mod laws;
pub mod message;
pub mod middleware;
