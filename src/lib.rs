//! A remote-procedure-call layer over a message channel: a wire format for
//! typed arguments, requests and responses, a bounds-checked argument
//! decoder, a table of registered functions and the per-connection steps
//! that turn a request into a response.
pub mod context;
pub mod pattern;
pub mod server;
pub mod value;
pub mod wire;
