//! Adapter between a local key agent and a remote signing service spoken to
//! over HTTP/JSON: it turns domain sign requests into the wire request body,
//! and drained HTTP response bodies into identity lists or signatures, with a
//! typed error for transport and decode failures.

pub mod codec;
pub mod parse;
pub mod pipeline;
pub mod wire;
