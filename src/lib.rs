//! A stateful web crawler over hand-built HTTP/1.1 framing: request encoding,
//! response decoding with chunked bodies, a cookie session, queries over a
//! parsed document tree and a breadth-first crawl engine.

pub mod text;
pub mod fields;
pub mod words;
pub mod codec;
pub mod session;
pub mod html;
pub mod engine;
