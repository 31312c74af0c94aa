//! Prism: a layer-4 reverse proxy core whose routing key lives in a short
//! plaintext prelude (Minecraft handshake hostname, TLS SNI and similar).
//!
//! This crate holds the verified core: the prelude codec, the router with
//! wildcard patterns and capture substitution, the middleware sandbox host,
//! the tunnel wire protocol, the client/service registry with primary
//! election, the auto-listener reconciliation, and the pure parts of the
//! TCP/UDP dataplanes. Listeners, sockets and the async runtime live in the
//! surrounding application, which hands this crate plain values.

pub mod autolisten;
pub mod client;
pub mod codec;
pub mod paths;
pub mod dataplane;
pub mod net;
pub mod telemetry;
pub mod transport;
pub mod config;
pub mod manager;
pub mod pattern;
pub mod router;
pub mod sandbox;
pub mod text;
pub mod wire;

use vstd::prelude::*;

verus! {

} // verus!
