//! Pure parts of the TCP dataplane: upstream address handling, the dial
//! plan for `tunnel:` upstreams, the rewrite-phase upstream label, the
//! PROXY protocol v2 preamble, and the Minecraft status cache. Sockets,
//! splicing and timeouts live in the application.

use vstd::prelude::*;

use crate::router;
use crate::text;
use crate::wire;

verus! {

/// The effective prelude cap: 64 KiB when unset.
pub fn effective_max_header(configured: usize) -> (r: usize)
    ensures
        r == (if configured == 0 {
            65536int
        } else {
            configured as int
        }),
{
    if configured == 0 {
        65536
    } else {
        configured
    }
}

/// Whether the character sequence holds `c` at or after `from`.
pub open spec fn has_char_from(s: Seq<char>, c: char, from: int) -> bool {
    exists|i: int| from <= i < s.len() && s[i] == c
}

/// One past the last `]`, or 0 when there is none.
pub open spec fn spec_after_bracket(s: Seq<char>) -> int {
    if has_char_from(s, ']', 0) {
        (choose|i: int| 0 <= i < s.len() && s[i] == ']' && !has_char_from(s, ']', i + 1)) + 1
    } else {
        0
    }
}

/// Whether a trimmed upstream address is missing its port: no `:` after
/// the last `]` (so bracketed IPv6 literals keep their inner colons).
pub open spec fn spec_needs_port(s: Seq<char>) -> bool {
    let t = text::spec_trim(s);
    t.len() > 0 && !has_char_from(t, ':', spec_after_bracket(t))
}

fn last_bracket(chars: &Vec<char>) -> (r: Option<usize>)
    ensures
        match r {
            Some(i) => i < chars@.len() && chars@[i as int] == ']' && !has_char_from(
                chars@,
                ']',
                i as int + 1,
            ),
            None => !has_char_from(chars@, ']', 0),
        },
{
    let n = chars.len();
    let mut i: usize = n;
    while i > 0
        invariant
            i <= n == chars@.len(),
            !has_char_from(chars@, ']', i as int),
        decreases i,
    {
        i = i - 1;
        if chars[i] == ']' {
            return Some(i);
        }
    }
    None
}

fn has_char_at_or_after(chars: &Vec<char>, c: char, from: usize) -> (r: bool)
    ensures
        r == has_char_from(chars@, c, from as int),
{
    let n = chars.len();
    let mut i: usize = from;
    if i > n {
        return false;
    }
    while i < n
        invariant
            from <= i <= n == chars@.len(),
            !has_char_from(chars@, c, from as int) || has_char_from(chars@, c, i as int),
            forall|k: int| from <= k < i ==> chars@[k] != c,
        decreases n - i,
    {
        if chars[i] == c {
            return true;
        }
        i = i + 1;
    }
    false
}

/// Whether this upstream address needs the default port appended.
pub fn upstream_needs_port(addr: &str) -> (r: bool)
    ensures
        r == spec_needs_port(addr@),
{
    let t = text::trim_str(addr);
    let chars = crate::pattern::str_to_chars(t.as_str());
    if chars.len() == 0 {
        return false;
    }
    let start: usize = match last_bracket(&chars) {
        Some(i) => i + 1,
        None => 0,
    };
    proof {
        assert(start as int == spec_after_bracket(chars@)) by {
            if has_char_from(chars@, ']', 0) {
                let w = choose|i: int|
                    0 <= i < chars@.len() && chars@[i] == ']' && !has_char_from(
                        chars@,
                        ']',
                        i + 1,
                    );
            }
        }
    }
    !has_char_at_or_after(&chars, ':', start)
}

/// Appends `":<port>"` to an address.
pub fn with_port(addr: &str, port: u16) -> (r: String)
    ensures
        r@ == addr@ + seq![':'] + text::spec_dec_digits(port as nat),
{
    let mut out = String::new();
    out.append(addr);
    text::push_char(&mut out, ':');
    text::append_decimal(&mut out, port as u64);
    proof {
        assert(out@ =~= addr@ + seq![':'] + text::spec_dec_digits(port as nat));
    }
    out
}

/// Where one upstream candidate leads.
pub enum DialPlan {
    /// Dial this service through the tunnel manager.
    Tunnel(String),
    /// Open a TCP connection to this address (port already filled in).
    Direct(String),
}

/// The `tunnel:` prefix, as characters.
pub open spec fn tunnel_prefix() -> Seq<char> {
    seq!['t', 'u', 'n', 'n', 'e', 'l', ':']
}

/// The service name of a `tunnel:<svc>` upstream, when it is one.
pub open spec fn spec_tunnel_service(s: Seq<char>) -> Option<Seq<char>> {
    let t = text::spec_trim(s);
    if t.len() >= 7 && t.subrange(0, 7) == tunnel_prefix() {
        Some(text::spec_trim(t.skip(7)))
    } else {
        None
    }
}

/// Plans the dial of one upstream candidate: `tunnel:<svc>` goes through
/// the manager; anything else is a TCP address, with the default port
/// appended when the address has none. Empty addresses and empty tunnel
/// service names are errors.
pub fn plan_dial(upstream: &str, default_port: Option<u16>) -> (r: Result<DialPlan, String>)
    ensures
        ({
            let t = text::spec_trim(upstream@);
            &&& t.len() == 0 ==> r is Err
            &&& (match spec_tunnel_service(upstream@) {
                Some(svc) => if svc.len() == 0 {
                    r is Err
                } else {
                    r matches Ok(p) && p matches DialPlan::Tunnel(s) && s@ == svc
                },
                None => t.len() > 0 ==> (r matches Ok(p) && p matches DialPlan::Direct(a) && a@
                    == (if spec_needs_port(t) && default_port is Some {
                    t + seq![':'] + text::spec_dec_digits(default_port->Some_0 as nat)
                } else {
                    t
                })),
            })
        }),
{
    let t = text::trim_str(upstream);
    if t.as_str().unicode_len() == 0 {
        return Err(String::from_str("empty upstream"));
    }
    let chars = crate::pattern::str_to_chars(t.as_str());
    let is_tunnel = chars.len() >= 7 && chars[0] == 't' && chars[1] == 'u' && chars[2] == 'n'
        && chars[3] == 'n' && chars[4] == 'e' && chars[5] == 'l' && chars[6] == ':';
    proof {
        if is_tunnel {
            assert(chars@.subrange(0, 7) =~= tunnel_prefix());
        } else {
            if chars@.len() >= 7 && chars@.subrange(0, 7) == tunnel_prefix() {
                assert(chars@[0] == 't' && chars@[1] == 'u' && chars@[2] == 'n' && chars@[3]
                    == 'n' && chars@[4] == 'e' && chars@[5] == 'l' && chars@[6] == ':') by {
                    assert(forall|k: int|
                        0 <= k < 7 ==> chars@[k] == #[trigger] chars@.subrange(0, 7)[k]);
                }
            }
        }
    }
    if is_tunnel {
        let rest = t.as_str().substring_char(7, t.as_str().unicode_len());
        let svc = text::trim_str(rest);
        proof {
            assert(chars@.skip(7) =~= t@.subrange(7, t@.len() as int));
        }
        if svc.as_str().unicode_len() == 0 {
            return Err(String::from_str("tunnel upstream missing service name"));
        }
        return Ok(DialPlan::Tunnel(svc));
    }
    let needs = upstream_needs_port(t.as_str());
    proof {
        text::lemma_trim_idempotent(upstream@);
    }
    match default_port {
        Some(p) if needs => Ok(DialPlan::Direct(with_port(t.as_str(), p))),
        _ => Ok(DialPlan::Direct(t)),
    }
}

/// The upstream label handed to rewrite middlewares: a tunneled upstream
/// presents its masquerade host with the route captures substituted (when
/// the service has one), anything else its own label.
pub fn rewrite_label(
    tunnel: bool,
    masquerade_host: &str,
    captures: &Vec<String>,
    upstream_label: &str,
) -> (r: String)
    ensures
        tunnel && text::spec_trim(masquerade_host@).len() > 0 ==> r@ == router::spec_substitute(
            text::spec_trim(masquerade_host@),
            captures@.map_values(|g: String| g@),
        ),
        !(tunnel && text::spec_trim(masquerade_host@).len() > 0) ==> r@ == upstream_label@,
{
    let m = text::trim_str(masquerade_host);
    if tunnel && m.as_str().unicode_len() > 0 {
        router::substitute_params(m.as_str(), captures)
    } else {
        let mut out = String::new();
        out.append(upstream_label);
        out
    }
}

// ---------------------------------------------------------------------------
// PROXY protocol v2 preamble.
// ---------------------------------------------------------------------------

/// The client/listener address pair, as plain values.
pub enum AddrPair {
    V4 { src: (u8, u8, u8, u8), src_port: u16, dst: (u8, u8, u8, u8), dst_port: u16 },
    V6 { src: Vec<u8>, src_port: u16, dst: Vec<u8>, dst_port: u16 },
    /// Families mixed or unknown: encoded as UNSPEC with zero length.
    Unspec,
}

pub open spec fn spec_u16_be(n: u16) -> Seq<u8> {
    seq![(n / 0x100) as u8, (n % 0x100) as u8]
}

/// The 12-byte PROXY v2 signature.
pub open spec fn spec_pp2_signature() -> Seq<u8> {
    seq![13u8, 10u8, 13u8, 10u8, 0u8, 13u8, 10u8, 81u8, 85u8, 73u8, 84u8, 10u8]
}

/// The exact preamble for an address pair: signature, version/command
/// `0x21`, family byte (`0x11` IPv4+STREAM, `0x21` IPv6+STREAM, `0x00`
/// UNSPEC), big-endian address length, then addresses and ports.
pub open spec fn spec_pp2_bytes(pair: AddrPair) -> Seq<u8> {
    spec_pp2_signature() + seq![0x21u8] + (match pair {
        AddrPair::V4 { src, src_port, dst, dst_port } => seq![0x11u8] + spec_u16_be(12) + seq![
            src.0,
            src.1,
            src.2,
            src.3,
            dst.0,
            dst.1,
            dst.2,
            dst.3,
        ] + spec_u16_be(src_port) + spec_u16_be(dst_port),
        AddrPair::V6 { src, src_port, dst, dst_port } => seq![0x21u8] + spec_u16_be(36) + src@
            + dst@ + spec_u16_be(src_port) + spec_u16_be(dst_port),
        AddrPair::Unspec => seq![0x00u8] + spec_u16_be(0),
    })
}

fn push_u16_be(out: &mut Vec<u8>, n: u16)
    ensures
        final(out)@ == old(out)@ + spec_u16_be(n),
{
    out.push((n / 0x100) as u8);
    out.push((n % 0x100) as u8);
    proof {
        assert(out@ =~= old(out)@ + spec_u16_be(n));
    }
}

/// Builds the PROXY protocol v2 preamble for this connection.
pub fn proxy_protocol_v2_bytes(pair: &AddrPair) -> (r: Vec<u8>)
    requires
        pair matches AddrPair::V6 { src, dst, .. } ==> src@.len() == 16 && dst@.len() == 16,
    ensures
        r@ == spec_pp2_bytes(*pair),
{
    let mut out: Vec<u8> = Vec::new();
    out.push(13);
    out.push(10);
    out.push(13);
    out.push(10);
    out.push(0);
    out.push(13);
    out.push(10);
    out.push(81);
    out.push(85);
    out.push(73);
    out.push(84);
    out.push(10);
    out.push(0x21);
    match pair {
        AddrPair::V4 { src, src_port, dst, dst_port } => {
            out.push(0x11);
            push_u16_be(&mut out, 12);
            out.push(src.0);
            out.push(src.1);
            out.push(src.2);
            out.push(src.3);
            out.push(dst.0);
            out.push(dst.1);
            out.push(dst.2);
            out.push(dst.3);
            push_u16_be(&mut out, *src_port);
            push_u16_be(&mut out, *dst_port);
        },
        AddrPair::V6 { src, src_port, dst, dst_port } => {
            out.push(0x21);
            push_u16_be(&mut out, 36);
            let ghost mid = out@;
            let mut i: usize = 0;
            while i < src.len()
                invariant
                    i <= src@.len(),
                    out@ == mid + src@.subrange(0, i as int),
                decreases src@.len() - i,
            {
                out.push(src[i]);
                proof {
                    assert(out@ =~= mid + src@.subrange(0, i as int + 1));
                }
                i = i + 1;
            }
            proof {
                assert(src@.subrange(0, src@.len() as int) =~= src@);
            }
            let ghost mid2 = out@;
            let mut j: usize = 0;
            while j < dst.len()
                invariant
                    j <= dst@.len(),
                    out@ == mid2 + dst@.subrange(0, j as int),
                decreases dst@.len() - j,
            {
                out.push(dst[j]);
                proof {
                    assert(out@ =~= mid2 + dst@.subrange(0, j as int + 1));
                }
                j = j + 1;
            }
            proof {
                assert(dst@.subrange(0, dst@.len() as int) =~= dst@);
            }
            push_u16_be(&mut out, *src_port);
            push_u16_be(&mut out, *dst_port);
        },
        AddrPair::Unspec => {
            out.push(0x00);
            push_u16_be(&mut out, 0);
        },
    }
    proof {
        assert(out@ =~= spec_pp2_bytes(*pair));
    }
    out
}

// ---------------------------------------------------------------------------
// Minecraft status cache (the single-flight wrapper lives in the
// application; expiry here is lazy and driven by the caller's clock).
// ---------------------------------------------------------------------------

/// One cached status response frame.
pub struct StatusCacheEntry {
    pub upstream: String,
    pub protocol_version: u32,
    pub expires_at_ms: u64,
    pub data: Vec<u8>,
}

/// Cache of raw status response frames keyed by upstream and protocol
/// version.
pub struct StatusCache {
    pub items: Vec<StatusCacheEntry>,
}

pub open spec fn cache_has_key(
    items: Seq<StatusCacheEntry>,
    upstream: Seq<char>,
    pv: u32,
) -> bool {
    exists|i: int|
        0 <= i < items.len() && (#[trigger] items[i]).upstream@ == upstream && items[i]
            .protocol_version == pv
}

/// At most one entry per `(upstream, protocol_version)` key.
pub open spec fn cache_wf(items: Seq<StatusCacheEntry>) -> bool {
    forall|i: int, j: int|
        0 <= i < j < items.len() ==> !((#[trigger] items[i]).upstream@ == (
        #[trigger] items[j]).upstream@ && items[i].protocol_version == items[j].protocol_version)
}

fn find_entry(items: &Vec<StatusCacheEntry>, upstream: &str, pv: u32) -> (r: Option<usize>)
    ensures
        match r {
            Some(i) => i < items@.len() && items@[i as int].upstream@ == upstream@
                && items@[i as int].protocol_version == pv,
            None => !cache_has_key(items@, upstream@, pv),
        },
{
    let n = items.len();
    let mut i: usize = 0;
    while i < n
        invariant
            i <= n == items@.len(),
            forall|k: int|
                0 <= k < i ==> !((#[trigger] items@[k]).upstream@ == upstream@ && items@[k]
                    .protocol_version == pv),
        decreases n - i,
    {
        if text::str_eq(items[i].upstream.as_str(), upstream) && items[i].protocol_version == pv {
            return Some(i);
        }
        i = i + 1;
    }
    None
}

impl StatusCache {
    /// An empty cache.
    pub fn new() -> (r: StatusCache)
        ensures
            r.items@.len() == 0,
            cache_wf(r.items@),
    {
        StatusCache { items: Vec::new() }
    }

    /// Looks the key up at time `now`: a fresh, non-empty entry is a hit
    /// and returns the stored frame unchanged; an expired or empty entry
    /// is removed and misses; a missing key misses and changes nothing.
    pub fn get(&mut self, upstream: &str, protocol_version: u32, now: u64) -> (r: Option<Vec<u8>>)
        requires
            cache_wf(old(self).items@),
        ensures
            cache_wf(final(self).items@),
            !cache_has_key(old(self).items@, upstream@, protocol_version)
                ==> r is None && *final(self) == *old(self),
            ({
                let oi = old(self).items@;
                let fi = final(self).items@;
                forall|i: int|
                    0 <= i < oi.len() && (#[trigger] oi[i]).upstream@ == upstream@ && oi[i]
                        .protocol_version == protocol_version ==> (if now < oi[i].expires_at_ms
                        && oi[i].data@.len() > 0 {
                        (r matches Some(v) && v@ == oi[i].data@) && *final(self) == *old(self)
                    } else {
                        r is None && fi == oi.remove(i)
                    })
            }),
    {
        match find_entry(&self.items, upstream, protocol_version) {
            Some(j) => {
                proof {
                    assert forall|i: int|
                        0 <= i < old(self).items@.len() && (#[trigger] old(
                            self,
                        ).items@[i]).upstream@ == upstream@ && old(self).items@[i]
                            .protocol_version == protocol_version implies i == j as int by {
                        if i != j as int {
                            assert(!(old(self).items@[i].upstream@ == old(self).items@[
                            j as int].upstream@ && old(self).items@[i].protocol_version == old(
                                self,
                            ).items@[j as int].protocol_version));
                        }
                    }
                }
                if now >= self.items[j].expires_at_ms || self.items[j].data.len() == 0 {
                    let ghost items_pre = self.items@;
                    self.items.remove(j);
                    proof {
                        assert(self.items@ =~= items_pre.remove(j as int));
                        assert(forall|a: int|
                            0 <= a < self.items@.len() ==> #[trigger] self.items@[a] == (if a
                                < j as int {
                                items_pre[a]
                            } else {
                                items_pre[a + 1]
                            }));
                    }
                    None
                } else {
                    let e = &self.items[j];
                    let data = crate::wire::copy_bytes(&e.data, 0, e.data.len());
                    proof {
                        assert(data@ =~= old(self).items@[j as int].data@);
                    }
                    Some(data)
                }
            },
            None => None,
        }
    }

    /// Stores a frame under the key, expiring `ttl_ms` after `now`
    /// (saturating); zero TTLs and empty frames are not stored. An
    /// existing entry for the key is replaced; every other entry stays.
    pub fn set(&mut self, upstream: &str, protocol_version: u32, data: Vec<u8>, ttl_ms: u64, now: u64)
        requires
            cache_wf(old(self).items@),
        ensures
            cache_wf(final(self).items@),
            ttl_ms == 0 || data@.len() == 0 ==> *final(self) == *old(self),
            ttl_ms > 0 && data@.len() > 0 ==> ({
                let oi = old(self).items@;
                let fi = final(self).items@;
                &&& cache_has_key(fi, upstream@, protocol_version)
                &&& forall|i: int|
                    0 <= i < fi.len() && (#[trigger] fi[i]).upstream@ == upstream@ && fi[i]
                        .protocol_version == protocol_version ==> fi[i].data@ == data@ && fi[i]
                        .expires_at_ms == now.saturating_add(ttl_ms)
                &&& (fi.len() == oi.len() && (forall|k: int|
                    0 <= k < oi.len() && !((#[trigger] oi[k]).upstream@ == upstream@ && oi[k]
                        .protocol_version == protocol_version) ==> fi[k] == oi[k])) || (fi.len()
                    == oi.len() + 1 && (forall|k: int| 0 <= k < oi.len() ==> #[trigger] fi[k]
                        == oi[k]))
            }),
    {
        if ttl_ms == 0 || data.len() == 0 {
            return;
        }
        let expires_at_ms = now.saturating_add(ttl_ms);
        let mut up = String::new();
        up.append(upstream);
        let entry = StatusCacheEntry { upstream: up, protocol_version, expires_at_ms, data };
        match find_entry(&self.items, upstream, protocol_version) {
            Some(j) => {
                let ghost items_pre = self.items@;
                let slot = vstd::std_specs::vec::vec_index_mut(&mut self.items, j);
                *slot = entry;
                proof {
                    assert(self.items@ =~= items_pre.update(j as int, self.items@[j as int]));
                    assert(self.items@[j as int].upstream@ == upstream@);
                    assert forall|i: int|
                        0 <= i < self.items@.len() && (#[trigger] self.items@[i]).upstream@
                            == upstream@ && self.items@[i].protocol_version == protocol_version
                            implies i == j as int by {
                        if i != j as int {
                            assert(self.items@[i] == items_pre[i]);
                            assert(!(items_pre[i].upstream@ == items_pre[j as int].upstream@
                                && items_pre[i].protocol_version == items_pre[
                            j as int].protocol_version));
                        }
                    }
                }
            },
            None => {
                self.items.push(entry);
                proof {
                    assert(self.items@[self.items@.len() - 1].upstream@ == upstream@);
                }
            },
        }
    }
}

/// The status-cache key for one upstream candidate: tunneled upstreams and
/// addresses that already carry a port are used as they are; otherwise the
/// handshake's own port is used when its host is the routed host, else the
/// default port.
pub fn normalize_status_cache_upstream(
    upstream: &str,
    default_port: u16,
    routed_host: &str,
    md_host: &str,
    md_port: u16,
) -> (r: String)
    ensures
        ({
            let t = text::spec_trim(upstream@);
            &&& t.len() == 0 ==> r@ == Seq::<char>::empty()
            &&& t.len() > 0 && spec_tunnel_service(upstream@) is Some ==> r@ == t
            &&& t.len() > 0 && spec_tunnel_service(upstream@) is None && !spec_needs_port(t) ==> r@
                == t
            &&& t.len() > 0 && spec_tunnel_service(upstream@) is None && spec_needs_port(t) ==> r@
                == t + seq![':'] + text::spec_dec_digits(
                (if md_host@.len() > 0 && md_host@ == routed_host@ {
                    md_port
                } else {
                    default_port
                }) as nat,
            )
        }),
{
    let t = text::trim_str(upstream);
    if t.as_str().unicode_len() == 0 {
        return String::new();
    }
    let chars = crate::pattern::str_to_chars(t.as_str());
    let is_tunnel = chars.len() >= 7 && chars[0] == 't' && chars[1] == 'u' && chars[2] == 'n'
        && chars[3] == 'n' && chars[4] == 'e' && chars[5] == 'l' && chars[6] == ':';
    proof {
        if is_tunnel {
            assert(chars@.subrange(0, 7) =~= tunnel_prefix());
        } else {
            if chars@.len() >= 7 && chars@.subrange(0, 7) == tunnel_prefix() {
                assert(chars@[0] == 't' && chars@[1] == 'u' && chars@[2] == 'n' && chars@[3]
                    == 'n' && chars@[4] == 'e' && chars@[5] == 'l' && chars@[6] == ':') by {
                    assert(forall|k: int|
                        0 <= k < 7 ==> chars@[k] == #[trigger] chars@.subrange(0, 7)[k]);
                }
            }
        }
    }
    if is_tunnel {
        return t;
    }
    let needs = upstream_needs_port(t.as_str());
    proof {
        text::lemma_trim_idempotent(upstream@);
    }
    if !needs {
        return t;
    }
    let port: u16 = if md_host.unicode_len() > 0 && text::str_eq(md_host, routed_host) {
        md_port
    } else {
        default_port
    };
    with_port(t.as_str(), port)
}

// ---------------------------------------------------------------------------
// Per-peer UDP session table: the dataplane's state machine. A peer is
// created on its first datagram, delivered to while its queue accepts,
// recreated when the queue is full, and evicted when idle. The
// application owns the sockets, queues and tasks, and acts on the
// decisions taken here.
// ---------------------------------------------------------------------------

/// What the acceptor should do with a datagram from a peer.
#[derive(Debug, Clone, Copy, PartialEq, Eq, Structural)]
pub enum UdpAction {
    /// The peer has a live session; hand the datagram to its queue.
    Deliver,
    /// First datagram from this peer; start a session.
    Create,
    /// The peer's queue is full; replace the session and re-enqueue.
    Recreate,
}

/// Whether the table holds this peer key.
pub open spec fn has_peer(s: Seq<(Vec<u8>, u64)>, key: Seq<u8>) -> bool {
    exists|i: int| 0 <= i < s.len() && (#[trigger] s[i]).0@ == key
}

/// At most one entry per peer.
pub open spec fn peers_wf(s: Seq<(Vec<u8>, u64)>) -> bool {
    forall|i: int, j: int| 0 <= i < j < s.len() ==> (#[trigger] s[i]).0@ != (#[trigger] s[j]).0@
}

/// Whether an entry is still live at `now_ms` under this idle bound.
pub open spec fn peer_live(e: (Vec<u8>, u64), now_ms: u64, idle_ms: u64) -> bool {
    if e.1 >= now_ms {
        true
    } else {
        now_ms - e.1 <= idle_ms
    }
}

/// The entries still live at `now_ms`, in order.
pub open spec fn spec_keep_live(
    s: Seq<(Vec<u8>, u64)>,
    now_ms: u64,
    idle_ms: u64,
) -> Seq<(Vec<u8>, u64)>
    decreases s.len(),
{
    if s.len() == 0 {
        Seq::empty()
    } else {
        let rest = spec_keep_live(s.drop_first(), now_ms, idle_ms);
        if peer_live(s.first(), now_ms, idle_ms) {
            seq![s.first()] + rest
        } else {
            rest
        }
    }
}

fn bytes_eq(a: &Vec<u8>, b: &Vec<u8>) -> (r: bool)
    ensures
        r == (a@ == b@),
{
    if a.len() != b.len() {
        return false;
    }
    let n = a.len();
    let mut i: usize = 0;
    while i < n
        invariant
            i <= n == a@.len() && n == b@.len(),
            forall|k: int| 0 <= k < i ==> a@[k] == b@[k],
        decreases n - i,
    {
        if a[i] != b[i] {
            return false;
        }
        i = i + 1;
    }
    proof {
        assert(a@ =~= b@);
    }
    true
}

/// Per-peer UDP sessions, keyed by the peer's address bytes, each with
/// its last-seen timestamp.
pub struct UdpSessions {
    pub peers: Vec<(Vec<u8>, u64)>,
}

impl UdpSessions {
    /// An empty table.
    pub fn new() -> (r: UdpSessions)
        ensures
            r.peers@.len() == 0,
            peers_wf(r.peers@),
    {
        UdpSessions { peers: Vec::new() }
    }

    /// Whether this peer has a session.
    pub fn contains_peer(&self, peer: &Vec<u8>) -> (r: bool)
        ensures
            r == has_peer(self.peers@, peer@),
    {
        let n = self.peers.len();
        let mut i: usize = 0;
        while i < n
            invariant
                i <= n == self.peers@.len(),
                forall|k: int| 0 <= k < i ==> (#[trigger] self.peers@[k]).0@ != peer@,
            decreases n - i,
        {
            if bytes_eq(&self.peers[i].0, peer) {
                return true;
            }
            i = i + 1;
        }
        false
    }

    /// Takes the decision for one datagram: `Create` exactly when the peer
    /// is absent, `Recreate` exactly when present with a full queue, and
    /// `Deliver` otherwise. The peer's last-seen time becomes `now_ms`;
    /// no other entry changes.
    pub fn on_datagram(&mut self, peer: &Vec<u8>, now_ms: u64, queue_full: bool) -> (r: UdpAction)
        requires
            peers_wf(old(self).peers@),
        ensures
            peers_wf(final(self).peers@),
            (r is Create) == !has_peer(old(self).peers@, peer@),
            (r is Recreate) == (has_peer(old(self).peers@, peer@) && queue_full),
            (r is Deliver) == (has_peer(old(self).peers@, peer@) && !queue_full),
            has_peer(final(self).peers@, peer@),
            forall|i: int|
                0 <= i < final(self).peers@.len() ==> ((#[trigger] final(self).peers@[i]).0@
                    == peer@ ==> final(self).peers@[i].1 == now_ms),
            forall|i: int|
                0 <= i < old(self).peers@.len() && (#[trigger] old(self).peers@[i]).0@ != peer@
                    ==> final(self).peers@[i] == old(self).peers@[i],
            final(self).peers@.len() == (if has_peer(old(self).peers@, peer@) {
                old(self).peers@.len() as int
            } else {
                old(self).peers@.len() + 1int
            }),
    {
        let n = self.peers.len();
        let mut i: usize = 0;
        while i < n
            invariant
                i <= n == self.peers@.len(),
                *self == *old(self),
                peers_wf(old(self).peers@),
                forall|k: int| 0 <= k < i ==> (#[trigger] self.peers@[k]).0@ != peer@,
            decreases n - i,
        {
            if bytes_eq(&self.peers[i].0, peer) {
                let ghost pre = self.peers@;
                let key = wire::copy_bytes(peer, 0, peer.len());
                proof {
                    assert(key@ =~= peer@);
                }
                let slot = vstd::std_specs::vec::vec_index_mut(&mut self.peers, i);
                *slot = (key, now_ms);
                proof {
                    assert(pre == old(self).peers@);
                    assert(peers_wf(pre));
                    assert(self.peers@ =~= pre.update(i as int, self.peers@[i as int]));
                    assert(pre[i as int].0@ == peer@);
                    assert(has_peer(pre, peer@));
                    assert forall|q: int|
                        0 <= q < self.peers@.len() && (#[trigger] self.peers@[q]).0@ == peer@
                            implies self.peers@[q].1 == now_ms by {
                        if q != i as int {
                            assert(self.peers@[q] == pre[q]);
                            assert((pre[q]).0@ == peer@ && (pre[i as int]).0@ == peer@);
                            assert(false);
                        }
                    }
                }
                return if queue_full {
                    UdpAction::Recreate
                } else {
                    UdpAction::Deliver
                };
            }
            i = i + 1;
        }
        let key = wire::copy_bytes(peer, 0, peer.len());
        proof {
            assert(key@ =~= peer@);
        }
        self.peers.push((key, now_ms));
        proof {
            assert(self.peers@[self.peers@.len() - 1].0@ == peer@);
        }
        UdpAction::Create
    }

    /// Evicts every session idle longer than `idle_ms` at `now_ms`,
    /// keeping exactly the live entries in order.
    pub fn evict_idle(&mut self, now_ms: u64, idle_ms: u64)
        requires
            peers_wf(old(self).peers@),
        ensures
            peers_wf(final(self).peers@),
            final(self).peers@ == spec_keep_live(old(self).peers@, now_ms, idle_ms),
    {
        let mut kept: Vec<(Vec<u8>, u64)> = Vec::new();
        let ghost all = self.peers@;
        proof {
            assert(kept@ + spec_keep_live(self.peers@, now_ms, idle_ms) =~= spec_keep_live(
                all,
                now_ms,
                idle_ms,
            ));
        }
        while self.peers.len() != 0
            invariant
                kept@ + spec_keep_live(self.peers@, now_ms, idle_ms) == spec_keep_live(
                    all,
                    now_ms,
                    idle_ms,
                ),
            decreases self.peers@.len(),
        {
            let ghost pre = self.peers@;
            let e = self.peers.remove(0);
            proof {
                assert(pre.first() == e);
                assert(pre.drop_first() =~= self.peers@);
            }
            let ghost kept_pre = kept@;
            let live = e.1 >= now_ms || now_ms - e.1 <= idle_ms;
            if live {
                kept.push(e);
                proof {
                    assert(kept@ =~= kept_pre.push(pre.first()));
                    assert(kept_pre + (seq![pre.first()] + spec_keep_live(
                        pre.drop_first(),
                        now_ms,
                        idle_ms,
                    )) =~= kept@ + spec_keep_live(pre.drop_first(), now_ms, idle_ms));
                }
            }
        }
        proof {
            assert(kept@ + spec_keep_live(self.peers@, now_ms, idle_ms) =~= kept@);
            lemma_keep_live_wf(all, now_ms, idle_ms);
        }
        self.peers = kept;
    }
}

/// Filtering keeps uniqueness: every kept entry is one of the originals.
proof fn lemma_keep_live_wf(s: Seq<(Vec<u8>, u64)>, now_ms: u64, idle_ms: u64)
    requires
        peers_wf(s),
    ensures
        peers_wf(spec_keep_live(s, now_ms, idle_ms)),
        forall|i: int|
            0 <= i < spec_keep_live(s, now_ms, idle_ms).len() ==> exists|j: int|
                0 <= j < s.len() && #[trigger] spec_keep_live(s, now_ms, idle_ms)[i] == s[j],
    decreases s.len(),
{
    if s.len() > 0 {
        let rest = s.drop_first();
        assert(peers_wf(rest)) by {
            assert(forall|i: int, j: int|
                0 <= i < j < rest.len() ==> (#[trigger] rest[i]).0@ == s[i + 1].0@ && (
                #[trigger] rest[j]).0@ == s[j + 1].0@);
        }
        lemma_keep_live_wf(rest, now_ms, idle_ms);
        let kept_rest = spec_keep_live(rest, now_ms, idle_ms);
        if peer_live(s.first(), now_ms, idle_ms) {
            let whole = seq![s.first()] + kept_rest;
            assert forall|i: int, j: int|
                0 <= i < j < whole.len() implies (#[trigger] whole[i]).0@ != (
            #[trigger] whole[j]).0@ by {
                if i == 0 {
                    let j2 = choose|q: int| 0 <= q < rest.len() && whole[j] == rest[q];
                    assert(s[0].0@ != rest[j2].0@);
                } else {
                    assert(whole[i] == kept_rest[i - 1] && whole[j] == kept_rest[j - 1]);
                }
            }
            assert forall|i: int|
                0 <= i < whole.len() implies exists|j: int|
                    0 <= j < s.len() && #[trigger] whole[i] == s[j] by {
                if i == 0 {
                    assert(whole[0] == s[0]);
                } else {
                    let j2 = choose|q: int|
                        0 <= q < rest.len() && #[trigger] kept_rest[i - 1] == rest[q];
                    assert(whole[i] == s[j2 + 1]);
                }
            }
        } else {
            assert forall|i: int|
                0 <= i < kept_rest.len() implies exists|j: int|
                    0 <= j < s.len() && #[trigger] kept_rest[i] == s[j] by {
                let j2 = choose|q: int|
                    0 <= q < rest.len() && #[trigger] kept_rest[i] == rest[q];
                assert(kept_rest[i] == s[j2 + 1]);
            }
        }
    }
}

} // verus!
