//! An HTTP/1.1 origin server and forward proxy kernel, verified with Verus.
//!
//! The heart of the crate is an incremental message parser: bytes arrive
//! in arbitrary chunks, a state machine consumes them, and a pure model
//! of the same machine (`message::spec_parse`) is proved to describe every
//! outcome — so a parse that completes yields the same message whatever
//! the chunking. Around the parser sit the header mapping with its
//! combining and case rules, the chunked-body codec, a per-method routing
//! table over radix trees, raw extractors, a step-typed response writer,
//! and a proxy variant of the parser that forwards bytes as it parses.
//! Sockets, threads and serde decoding stay outside the library.
pub mod body;
pub mod bytes;
pub mod extractor;
pub mod first_line;
pub mod headers;
pub mod message;
pub mod mock;
pub mod proxy;
pub mod response;
pub mod routing;
pub mod scan;
pub mod writer;
