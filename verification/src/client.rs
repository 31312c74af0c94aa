//! Tunnel client decisions: option normalization, the local service map,
//! and the reconnect backoff. The connect loop, the register stream and
//! the per-stream proxying live in the application.

use vstd::prelude::*;

use crate::text;
use crate::wire::RegisteredService;

verus! {

#[derive(Debug, Clone, PartialEq, Eq)]
pub struct QuicClientOptions {
    pub server_name: String,
    pub insecure_skip_verify: bool,
}

#[derive(Debug, Clone, PartialEq, Eq)]
pub struct ClientOptions {
    pub server_addr: String,
    pub transport: String,
    pub auth_token: String,
    pub services: Vec<RegisteredService>,
    pub dial_timeout_ms: u64,
    pub quic: QuicClientOptions,
}

/// A tunnel client's decision state: its options with normalized services
/// (those without a local address dropped) and the dial timeout defaulted.
pub struct Client {
    pub opts: ClientOptions,
}

impl Client {
    /// Prepares a client: services are normalized, services without a
    /// local address are dropped, and a zero dial timeout becomes five
    /// seconds.
    pub fn new(opts: ClientOptions) -> (r: Client)
        ensures
            r.opts.dial_timeout_ms == (if opts.dial_timeout_ms == 0 {
                5000int
            } else {
                opts.dial_timeout_ms as int
            }),
            forall|k: int|
                0 <= k < r.opts.services@.len() ==> (
                #[trigger] r.opts.services@[k]).local_addr@.len() > 0,
            r.opts.server_addr == opts.server_addr,
            r.opts.transport == opts.transport,
            r.opts.auth_token == opts.auth_token,
            r.opts.quic == opts.quic,
    {
        let ClientOptions { server_addr, transport, auth_token, services, dial_timeout_ms, quic } =
            opts;
        let normalized = crate::wire::normalize_services(services);
        let mut kept: Vec<RegisteredService> = Vec::new();
        let mut rest = normalized;
        while rest.len() != 0
            invariant
                forall|k: int|
                    0 <= k < kept@.len() ==> (#[trigger] kept@[k]).local_addr@.len() > 0,
            decreases rest@.len(),
        {
            let s = rest.remove(0);
            if s.local_addr.as_str().unicode_len() > 0 {
                kept.push(s);
            }
        }
        let dial_timeout_ms = if dial_timeout_ms == 0 {
            5000
        } else {
            dial_timeout_ms
        };
        Client {
            opts: ClientOptions {
                server_addr,
                transport,
                auth_token,
                services: kept,
                dial_timeout_ms,
                quic,
            },
        }
    }

    /// The local service a proxy stream header names, when the client
    /// advertises it.
    pub fn find_local_service(&self, name: &str) -> (r: Option<usize>)
        ensures
            match r {
                Some(i) => i < self.opts.services@.len() && self.opts.services@[i as int].name@
                    == name@,
                None => forall|k: int|
                    0 <= k < self.opts.services@.len() ==> (
                    #[trigger] self.opts.services@[k]).name@ != name@,
            },
    {
        let n = self.opts.services.len();
        let mut i: usize = 0;
        while i < n
            invariant
                i <= n == self.opts.services@.len(),
                forall|k: int|
                    0 <= k < i ==> (#[trigger] self.opts.services@[k]).name@ != name@,
            decreases n - i,
        {
            if text::str_eq(self.opts.services[i].name.as_str(), name) {
                return Some(i);
            }
            i = i + 1;
        }
        None
    }
}

/// The reconnect backoff: doubled after each failure, capped at ten
/// seconds.
pub fn next_backoff_ms(cur: u64) -> (r: u64)
    requires
        cur <= 10000,
    ensures
        r == (if cur * 2 > 10000 {
            10000int
        } else {
            (cur * 2) as int
        }),
{
    if cur > 5000 {
        10000
    } else {
        cur * 2
    }
}

} // verus!
