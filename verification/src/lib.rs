//! Client-side core of an SDK for a custodial wallet service.
//!
//! The library holds the pure logic of the client: hex decoding of the
//! entity secret, the encryption pipeline for mutating calls, the exact
//! wire encoding of request envelopes, and the parsing and classification
//! of responses. The HTTP transport itself lives outside the library and
//! hands in plain status codes and body bytes.

pub mod client;
pub mod codec;
pub mod crypto;
pub mod error;
pub mod hexcode;
pub mod ids;
pub mod models;
pub mod timestamp;
pub mod wire;
