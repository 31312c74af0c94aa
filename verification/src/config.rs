//! Configuration values the core consumes, already parsed into plain data.
//! File reading and deserialization live in the surrounding application;
//! the defaulting and validation logic is here.

use vstd::prelude::*;

verus! {

/// One routing rule: host patterns, upstream templates, a middleware chain
/// and a selection strategy.
#[derive(Debug, Clone, PartialEq, Eq)]
pub struct RouteConfig {
    pub host: Vec<String>,
    pub upstreams: Vec<String>,
    /// Names of the middlewares whose chain parses and rewrites preludes.
    pub middlewares: Vec<String>,
    /// `sequential`, `random` or `round-robin`.
    pub strategy: String,
    /// Minecraft status-cache TTL in milliseconds; `None` disables it.
    pub cache_ping_ttl_ms: Option<u64>,
}

/// Timeouts of the TCP and UDP dataplanes, in milliseconds.
#[derive(Debug, Clone, Copy, PartialEq, Eq, Structural)]
pub struct Timeouts {
    pub handshake_timeout_ms: u64,
    pub idle_timeout_ms: u64,
}

#[derive(Debug, Clone, PartialEq, Eq)]
pub struct ProxyListenerConfig {
    pub listen_addr: String,
    /// `tcp` or `udp`.
    pub protocol: String,
    /// Empty selects the routing handler; otherwise a fixed forward.
    pub upstream: String,
}

#[derive(Debug, Clone, Copy, PartialEq, Eq, Structural)]
pub struct ReloadConfig {
    pub enabled: bool,
    pub poll_interval_ms: u64,
}

#[derive(Debug, Clone, PartialEq, Eq)]
pub struct QuicServerConfig {
    pub cert_file: String,
    pub key_file: String,
}

#[derive(Debug, Clone, PartialEq, Eq)]
pub struct QuicClientConfig {
    pub server_name: String,
    pub insecure_skip_verify: bool,
}

#[derive(Debug, Clone, PartialEq, Eq)]
pub struct TunnelEndpointConfig {
    pub listen_addr: String,
    pub transport: String,
    pub quic: QuicServerConfig,
}

#[derive(Debug, Clone, PartialEq, Eq)]
pub struct TunnelClientConfig {
    pub server_addr: String,
    pub transport: String,
    pub dial_timeout_ms: u64,
    pub quic: QuicClientConfig,
}

#[derive(Debug, Clone, PartialEq, Eq)]
pub struct TunnelServiceConfig {
    pub name: String,
    pub proto: String,
    pub local_addr: String,
    pub route_only: bool,
    pub remote_addr: String,
    pub masquerade_host: String,
}

#[derive(Debug, Clone, PartialEq, Eq)]
pub struct TunnelConfig {
    pub auth_token: String,
    pub auto_listen_services: bool,
    pub endpoints: Vec<TunnelEndpointConfig>,
    pub client: Option<TunnelClientConfig>,
    pub services: Vec<TunnelServiceConfig>,
}

/// The validated configuration the core consumes.
#[derive(Debug, Clone, PartialEq, Eq)]
pub struct Config {
    pub listeners: Vec<ProxyListenerConfig>,
    pub admin_addr: String,
    pub routes: Vec<RouteConfig>,
    pub max_header_bytes: usize,
    pub reload: ReloadConfig,
    pub proxy_protocol_v2: bool,
    pub buffer_size: usize,
    pub upstream_dial_timeout_ms: u64,
    pub timeouts: Timeouts,
    pub tunnel: TunnelConfig,
}

/// What `humantime::parse_duration` yields on a string, in nanoseconds.
pub uninterp spec fn human_duration_nanos(s: Seq<char>) -> Option<u128>;

/// Relies on `humantime::parse_duration`: the result depends on the
/// string alone.
#[verifier::external_body]
fn parse_human_duration(s: &str) -> (r: Option<u128>)
    ensures
        r == human_duration_nanos(s@),
{
    humantime::parse_duration(s).ok().map(|d| d.as_nanos())
}

/// The status-cache TTL: the default is ten seconds; `"-1"` disables the
/// cache; an explicit duration wins over the millisecond field, and a
/// positive one below a millisecond is kept at one millisecond; negative
/// millisecond values disable it.
pub open spec fn spec_cache_ttl(
    ttl_str: Option<Seq<char>>,
    ttl_ms: Option<i64>,
) -> Option<Option<u64>> {
    match ttl_str {
        Some(s) => {
            let t = crate::text::spec_trim(s);
            if t.len() == 0 {
                Some(Some(10000))
            } else if t == seq!['-', '1'] {
                Some(None)
            } else {
                match human_duration_nanos(t) {
                    None => None,
                    Some(n) => Some(
                        Some(
                            if n > 0 && n / 1000000 == 0 {
                                1u64
                            } else {
                                ((n / 1000000) % 0x1_0000_0000_0000_0000) as u64
                            },
                        ),
                    ),
                }
            }
        },
        None => match ttl_ms {
            Some(ms) => if ms < 0 {
                Some(None)
            } else {
                Some(Some(ms as u64))
            },
            None => Some(Some(10000)),
        },
    }
}

/// Parses the per-route status-cache TTL. The outer `Err` is a rejected
/// duration string; the inner `None` disables the cache.
pub fn parse_cache_ttl(ttl_str: Option<&str>, ttl_ms: Option<i64>) -> (r: Result<
    Option<u64>,
    String,
>)
    ensures
        match spec_cache_ttl(
            match ttl_str {
                Some(s) => Some(s@),
                None => None,
            },
            ttl_ms,
        ) {
            Some(v) => r matches Ok(got) && got == v,
            None => r is Err,
        },
{
    match ttl_str {
        Some(s) => {
            let t = crate::text::trim_str(s);
            if t.as_str().unicode_len() == 0 {
                return Ok(Some(10000));
            }
            let minus_one = t.as_str().unicode_len() == 2 && t.as_str().get_char(0) == '-'
                && t.as_str().get_char(1) == '1';
            proof {
                if minus_one {
                    assert(t@ =~= seq!['-', '1']);
                } else {
                    if t@ == seq!['-', '1'] {
                        assert(t@.len() == 2 && t@[0] == '-' && t@[1] == '1');
                    }
                }
            }
            if minus_one {
                return Ok(None);
            }
            match parse_human_duration(t.as_str()) {
                None => Err(String::from_str("config: invalid cache_ping_ttl")),
                Some(n) => {
                    // a positive duration below one millisecond keeps a
                    // positive TTL instead of silently disabling the cache
                    let ms_wide: u128 = n / 1000000;
                    if n > 0 && ms_wide == 0 {
                        Ok(Some(1))
                    } else {
                        let ms: u64 = (ms_wide % 0x1_0000_0000_0000_0000u128) as u64;
                        Ok(Some(ms))
                    }
                },
            }
        },
        None => match ttl_ms {
            Some(ms) => if ms < 0 {
                Ok(None)
            } else {
                Ok(Some(ms as u64))
            },
            None => Ok(Some(10000)),
        },
    }
}

/// Whether two listener lists are the same topology (trimmed fields
/// compared pairwise).
pub fn listeners_equal(a: &Vec<ProxyListenerConfig>, b: &Vec<ProxyListenerConfig>) -> (r: bool)
    ensures
        r ==> a@.len() == b@.len(),
        r == (a@.len() == b@.len() && forall|k: int|
            0 <= k < a@.len() ==> crate::text::spec_trim((#[trigger] a@[k]).listen_addr@)
                == crate::text::spec_trim(b@[k].listen_addr@) && crate::text::spec_trim(
                a@[k].protocol@,
            ) == crate::text::spec_trim(b@[k].protocol@) && crate::text::spec_trim(
                a@[k].upstream@,
            ) == crate::text::spec_trim(b@[k].upstream@)),
{
    if a.len() != b.len() {
        return false;
    }
    let n = a.len();
    let mut i: usize = 0;
    while i < n
        invariant
            i <= n == a@.len() && n == b@.len(),
            forall|k: int|
                0 <= k < i ==> crate::text::spec_trim((#[trigger] a@[k]).listen_addr@)
                    == crate::text::spec_trim(b@[k].listen_addr@) && crate::text::spec_trim(
                    a@[k].protocol@,
                ) == crate::text::spec_trim(b@[k].protocol@) && crate::text::spec_trim(
                    a@[k].upstream@,
                ) == crate::text::spec_trim(b@[k].upstream@),
        decreases n - i,
    {
        let la = crate::text::trim_str(a[i].listen_addr.as_str());
        let lb = crate::text::trim_str(b[i].listen_addr.as_str());
        if !crate::text::str_eq(la.as_str(), lb.as_str()) {
            return false;
        }
        let pa = crate::text::trim_str(a[i].protocol.as_str());
        let pb = crate::text::trim_str(b[i].protocol.as_str());
        if !crate::text::str_eq(pa.as_str(), pb.as_str()) {
            return false;
        }
        let ua = crate::text::trim_str(a[i].upstream.as_str());
        let ub = crate::text::trim_str(b[i].upstream.as_str());
        if !crate::text::str_eq(ua.as_str(), ub.as_str()) {
            return false;
        }
        i = i + 1;
    }
    true
}

// ---------------------------------------------------------------------------
// The raw file shape and its conversion into a validated Config.
// ---------------------------------------------------------------------------

/// The raw file shape, after deserialization, before validation. The
/// application parses TOML or YAML into this; string-or-list fields arrive
/// already flattened to lists.
#[derive(Debug, Clone, PartialEq, Eq)]
pub struct FileConfig {
    pub listeners: Vec<FileProxyListener>,
    pub admin_addr: String,
    pub routes: Vec<FileRoute>,
    pub max_header_bytes: i64,
    pub reload: Option<FileReload>,
    pub proxy_protocol_v2: bool,
    pub buffer_size: i64,
    pub upstream_dial_timeout_ms: i64,
    pub timeouts: Option<FileTimeouts>,
    pub tunnel: Option<FileTunnel>,
}

#[derive(Debug, Clone, PartialEq, Eq)]
pub struct FileProxyListener {
    pub listen_addr: String,
    pub protocol: String,
    pub upstream: String,
}

#[derive(Debug, Clone, PartialEq, Eq)]
pub struct FileRoute {
    pub host: Vec<String>,
    pub hosts: Vec<String>,
    pub upstream: Vec<String>,
    pub upstreams: Vec<String>,
    pub backend: Vec<String>,
    pub backends: Vec<String>,
    pub middlewares: Vec<String>,
    pub strategy: Option<String>,
    pub cache_ping_ttl: Option<String>,
    pub cache_ping_ttl_ms: Option<i64>,
}

#[derive(Debug, Clone, PartialEq, Eq)]
pub struct FileReload {
    pub enabled: bool,
    pub poll_interval_ms: Option<i64>,
}

#[derive(Debug, Clone, Copy, PartialEq, Eq, Structural)]
pub struct FileTimeouts {
    pub handshake_timeout_ms: Option<i64>,
    pub idle_timeout_ms: Option<i64>,
}

#[derive(Debug, Clone, PartialEq, Eq)]
pub struct FileTunnel {
    pub auth_token: Option<String>,
    pub auto_listen_services: Option<bool>,
    pub endpoints: Vec<FileTunnelEndpoint>,
    pub client: Option<FileTunnelClient>,
    pub services: Vec<FileTunnelService>,
}

#[derive(Debug, Clone, PartialEq, Eq)]
pub struct FileTunnelEndpoint {
    pub listen_addr: String,
    pub transport: Option<String>,
    pub cert_file: Option<String>,
    pub key_file: Option<String>,
}

#[derive(Debug, Clone, PartialEq, Eq)]
pub struct FileTunnelClient {
    pub server_addr: String,
    pub transport: Option<String>,
    pub dial_timeout_ms: Option<i64>,
    pub server_name: Option<String>,
    pub insecure_skip_verify: bool,
}

#[derive(Debug, Clone, PartialEq, Eq)]
pub struct FileTunnelService {
    pub name: String,
    pub proto: Option<String>,
    pub local_addr: String,
    pub route_only: bool,
    pub remote_addr: Option<String>,
    pub masquerade_host: Option<String>,
}

/// Trimmed-and-lowercased list entries, empty ones dropped.
pub open spec fn spec_clean_lower_list(xs: Seq<Seq<char>>) -> Seq<Seq<char>>
    decreases xs.len(),
{
    if xs.len() == 0 {
        Seq::empty()
    } else {
        let h = crate::text::spec_trim_lower(xs.first());
        if h.len() == 0 {
            spec_clean_lower_list(xs.drop_first())
        } else {
            seq![h] + spec_clean_lower_list(xs.drop_first())
        }
    }
}

fn clean_lower_list(xs: &Vec<String>) -> (r: Vec<String>)
    ensures
        r@.map_values(|x: String| x@) == spec_clean_lower_list(xs@.map_values(|x: String| x@)),
{
    let ghost xv = xs@.map_values(|x: String| x@);
    let mut out: Vec<String> = Vec::new();
    let n = xs.len();
    let mut i: usize = 0;
    proof {
        assert(xv.skip(0) =~= xv);
        assert(out@.map_values(|x: String| x@) + spec_clean_lower_list(xv)
            =~= spec_clean_lower_list(xv));
    }
    while i < n
        invariant
            i <= n == xs@.len(),
            xv == xs@.map_values(|x: String| x@),
            spec_clean_lower_list(xv) == out@.map_values(|x: String| x@)
                + spec_clean_lower_list(xv.skip(i as int)),
        decreases n - i,
    {
        let ghost tail = xv.skip(i as int);
        proof {
            assert(tail.first() == xv[i as int]);
            assert(tail.drop_first() =~= xv.skip(i as int + 1));
            assert(xv[i as int] == xs@[i as int]@);
        }
        let h = crate::text::trim_lower_str(xs[i].as_str());
        if h.as_str().unicode_len() > 0 {
            out.push(h);
            proof {
                assert(out@.map_values(|x: String| x@).drop_last() + (seq![
                    crate::text::spec_trim_lower(tail.first()),
                ] + spec_clean_lower_list(tail.drop_first())) =~= out@.map_values(
                    |x: String| x@,
                ) + spec_clean_lower_list(tail.drop_first()));
            }
        }
        i = i + 1;
    }
    proof {
        assert(xv.skip(n as int) =~= Seq::<Seq<char>>::empty());
        assert(out@.map_values(|x: String| x@) + Seq::<Seq<char>>::empty() =~= out@.map_values(
            |x: String| x@,
        ));
    }
    out
}

fn clean_trim_list(xs: &Vec<String>) -> (r: Vec<String>)
    ensures
        r@.map_values(|x: String| x@) == crate::router::spec_clean_list(
            xs@.map_values(|x: String| x@),
        ),
{
    let ghost xv = xs@.map_values(|x: String| x@);
    let mut out: Vec<String> = Vec::new();
    let n = xs.len();
    let mut i: usize = 0;
    proof {
        assert(xv.skip(0) =~= xv);
        assert(out@.map_values(|x: String| x@) + crate::router::spec_clean_list(xv)
            =~= crate::router::spec_clean_list(xv));
    }
    while i < n
        invariant
            i <= n == xs@.len(),
            xv == xs@.map_values(|x: String| x@),
            crate::router::spec_clean_list(xv) == out@.map_values(|x: String| x@)
                + crate::router::spec_clean_list(xv.skip(i as int)),
        decreases n - i,
    {
        let ghost tail = xv.skip(i as int);
        proof {
            assert(tail.first() == xv[i as int]);
            assert(tail.drop_first() =~= xv.skip(i as int + 1));
            assert(xv[i as int] == xs@[i as int]@);
        }
        let h = crate::text::trim_str(xs[i].as_str());
        if h.as_str().unicode_len() > 0 {
            out.push(h);
            proof {
                assert(out@.map_values(|x: String| x@).drop_last() + (seq![
                    crate::text::spec_trim(tail.first()),
                ] + crate::router::spec_clean_list(tail.drop_first())) =~= out@.map_values(
                    |x: String| x@,
                ) + crate::router::spec_clean_list(tail.drop_first()));
            }
        }
        i = i + 1;
    }
    proof {
        assert(xv.skip(n as int) =~= Seq::<Seq<char>>::empty());
        assert(out@.map_values(|x: String| x@) + Seq::<Seq<char>>::empty() =~= out@.map_values(
            |x: String| x@,
        ));
    }
    out
}

/// The host list a route declares: `host` when non-empty, else `hosts`.
pub open spec fn spec_route_hosts(r: FileRoute) -> Seq<Seq<char>> {
    if r.host@.len() > 0 {
        r.host@.map_values(|x: String| x@)
    } else {
        r.hosts@.map_values(|x: String| x@)
    }
}

/// Whether one raw route survives validation: a host pattern and an
/// upstream remain after cleaning, and its TTL parses.
pub open spec fn spec_route_ok(r: FileRoute) -> bool {
    &&& spec_clean_lower_list(spec_route_hosts(r)).len() > 0
    &&& crate::router::spec_clean_list(spec_route_upstreams(r)).len() > 0
    &&& spec_cache_ttl(
        match r.cache_ping_ttl {
            Some(s) => Some(s@),
            None => None,
        },
        r.cache_ping_ttl_ms,
    ) is Some
}

/// The upstream list a route declares: the first non-empty of `upstreams`,
/// `upstream`, `backends`, `backend`.
pub open spec fn spec_route_upstreams(r: FileRoute) -> Seq<Seq<char>> {
    if r.upstreams@.len() > 0 {
        r.upstreams@.map_values(|x: String| x@)
    } else if r.upstream@.len() > 0 {
        r.upstream@.map_values(|x: String| x@)
    } else if r.backends@.len() > 0 {
        r.backends@.map_values(|x: String| x@)
    } else {
        r.backend@.map_values(|x: String| x@)
    }
}

impl Config {
    /// Validates and defaults a raw configuration. Scalar defaults: 64 KiB
    /// header cap, 32 KiB buffers, five-second dials, three-second
    /// handshakes, no idle timeout, reload on with a one-second poll.
    /// Every route must keep at least one host pattern and one upstream
    /// after trimming; a route without middlewares gets the two built-in
    /// prelude parsers. A rejected route or TTL rejects the whole
    /// configuration.
    pub fn from_file_config(fc: &FileConfig) -> (r: Result<Config, String>)
    ensures
        (r is Err) == (fc.max_header_bytes > 0x7FFF_FFFF || fc.buffer_size > 0x7FFF_FFFF
            || exists|k: int|
            0 <= k < fc.routes@.len() && !spec_route_ok(#[trigger] fc.routes@[k])),
        r matches Ok(c) ==> {
            &&& c.admin_addr@ == crate::text::spec_trim(fc.admin_addr@)
            &&& c.max_header_bytes as int == (if fc.max_header_bytes <= 0 {
                65536int
            } else {
                fc.max_header_bytes as int
            })
            &&& c.buffer_size as int == (if fc.buffer_size <= 0 {
                32768int
            } else {
                fc.buffer_size as int
            })
            &&& c.upstream_dial_timeout_ms as int == (if fc.upstream_dial_timeout_ms <= 0 {
                5000int
            } else {
                fc.upstream_dial_timeout_ms as int
            })
            &&& c.proxy_protocol_v2 == fc.proxy_protocol_v2
            &&& c.reload.enabled == (match fc.reload {
                Some(rl) => rl.enabled,
                None => true,
            })
            &&& c.reload.poll_interval_ms as int == (match fc.reload {
                Some(rl) => match rl.poll_interval_ms {
                    Some(ms) => if ms < 0 {
                        0int
                    } else {
                        ms as int
                    },
                    None => 1000int,
                },
                None => 1000int,
            })
            &&& c.timeouts.handshake_timeout_ms as int == (match fc.timeouts {
                Some(t) => match t.handshake_timeout_ms {
                    Some(ms) => if ms < 0 {
                        0int
                    } else {
                        ms as int
                    },
                    None => 3000int,
                },
                None => 3000int,
            })
            &&& c.timeouts.idle_timeout_ms as int == (match fc.timeouts {
                Some(t) => match t.idle_timeout_ms {
                    Some(ms) => if ms < 0 {
                        0int
                    } else {
                        ms as int
                    },
                    None => 0int,
                },
                None => 0int,
            })
            &&& c.listeners@.len() == fc.listeners@.len()
            &&& forall|k: int|
                0 <= k < c.listeners@.len() ==> {
                    let lv = #[trigger] c.listeners@[k];
                    &&& lv.listen_addr@ == crate::text::spec_trim(fc.listeners@[k].listen_addr@)
                    &&& lv.protocol@ == (if crate::text::spec_trim_lower(
                        fc.listeners@[k].protocol@,
                    ).len() == 0 {
                        "tcp"@
                    } else {
                        crate::text::spec_trim_lower(fc.listeners@[k].protocol@)
                    })
                    &&& lv.upstream@ == crate::text::spec_trim(fc.listeners@[k].upstream@)
                }
            &&& c.tunnel.auth_token@ == (match fc.tunnel {
                Some(t) => match t.auth_token {
                    Some(a) => crate::text::spec_trim(a@),
                    None => Seq::<char>::empty(),
                },
                None => Seq::<char>::empty(),
            })
            &&& c.tunnel.auto_listen_services == (match fc.tunnel {
                Some(t) => match t.auto_listen_services {
                    Some(b) => b,
                    None => true,
                },
                None => true,
            })
            &&& c.tunnel.endpoints@.len() as int == (match fc.tunnel {
                Some(t) => t.endpoints@.len() as int,
                None => 0int,
            })
            &&& c.tunnel.services@.len() as int == (match fc.tunnel {
                Some(t) => t.services@.len() as int,
                None => 0int,
            })
            &&& (c.tunnel.client is Some) == (match fc.tunnel {
                Some(t) => t.client is Some,
                None => false,
            })
            &&& (match fc.tunnel {
                Some(t) => forall|k: int|
                    0 <= k < c.tunnel.services@.len() ==> {
                        let sv = #[trigger] c.tunnel.services@[k];
                        &&& sv.name@ == crate::text::spec_trim(t.services@[k].name@)
                        &&& sv.local_addr@ == crate::text::spec_trim(t.services@[k].local_addr@)
                        &&& sv.route_only == t.services@[k].route_only
                        &&& sv.masquerade_host@ == (match t.services@[k].masquerade_host {
                            Some(m) => crate::text::spec_trim_lower(m@),
                            None => Seq::<char>::empty(),
                        })
                    },
                None => true,
            })
            &&& c.routes@.len() == fc.routes@.len()
            &&& forall|k: int|
                0 <= k < c.routes@.len() ==> {
                    let rv = #[trigger] c.routes@[k];
                    &&& rv.host@.map_values(|x: String| x@) == spec_clean_lower_list(
                        spec_route_hosts(fc.routes@[k]),
                    )
                    &&& rv.host@.len() > 0
                    &&& rv.upstreams@.map_values(|x: String| x@) == crate::router::spec_clean_list(
                        spec_route_upstreams(fc.routes@[k]),
                    )
                    &&& rv.upstreams@.len() > 0
                }
        },
{
    if fc.max_header_bytes > 0x7FFF_FFFF {
        return Err(String::from_str("config: max_header_bytes out of range"));
    }
    if fc.buffer_size > 0x7FFF_FFFF {
        return Err(String::from_str("config: buffer_size out of range"));
    }
    // listeners: trimmed, proto defaulting to tcp
    let mut listeners: Vec<ProxyListenerConfig> = Vec::new();
    let nl = fc.listeners.len();
    let mut li: usize = 0;
    while li < nl
        invariant
            li <= nl == fc.listeners@.len(),
            listeners@.len() == li,
            forall|k: int|
                0 <= k < li ==> {
                    let lv = #[trigger] listeners@[k];
                    &&& lv.listen_addr@ == crate::text::spec_trim(fc.listeners@[k].listen_addr@)
                    &&& lv.protocol@ == (if crate::text::spec_trim_lower(
                        fc.listeners@[k].protocol@,
                    ).len() == 0 {
                        "tcp"@
                    } else {
                        crate::text::spec_trim_lower(fc.listeners@[k].protocol@)
                    })
                    &&& lv.upstream@ == crate::text::spec_trim(fc.listeners@[k].upstream@)
                },
        decreases nl - li,
    {
        let l = &fc.listeners[li];
        proof {
            assert(*l == fc.listeners@[li as int]);
        }
        let mut proto = crate::text::trim_lower_str(l.protocol.as_str());
        if proto.as_str().unicode_len() == 0 {
            proto = String::from_str("tcp");
        }
        listeners.push(
            ProxyListenerConfig {
                listen_addr: crate::text::trim_str(l.listen_addr.as_str()),
                protocol: proto,
                upstream: crate::text::trim_str(l.upstream.as_str()),
            },
        );
        li = li + 1;
    }
    // routes
    let mut routes: Vec<RouteConfig> = Vec::new();
    let nr = fc.routes.len();
    let mut ri: usize = 0;
    while ri < nr
        invariant
            ri <= nr == fc.routes@.len(),
            routes@.len() == ri,
            forall|k: int|
                0 <= k < ri ==> {
                    let rv = #[trigger] routes@[k];
                    &&& rv.host@.map_values(|x: String| x@) == spec_clean_lower_list(
                        spec_route_hosts(fc.routes@[k]),
                    )
                    &&& rv.host@.len() > 0
                    &&& rv.upstreams@.map_values(|x: String| x@) == crate::router::spec_clean_list(
                        spec_route_upstreams(fc.routes@[k]),
                    )
                    &&& rv.upstreams@.len() > 0
                },
            forall|k: int| 0 <= k < ri ==> spec_route_ok(#[trigger] fc.routes@[k]),
        decreases nr - ri,
    {
        let route = &fc.routes[ri];
        proof {
            assert(*route == fc.routes@[ri as int]);
        }
        let raw_hosts = if route.host.len() > 0 {
            &route.host
        } else {
            &route.hosts
        };
        let hosts = clean_lower_list(raw_hosts);
        proof {
            assert(raw_hosts@.map_values(|x: String| x@) == spec_route_hosts(
                fc.routes@[ri as int],
            ));
        }
        if hosts.len() == 0 {
            proof {
                assert(!spec_route_ok(fc.routes@[ri as int]));
            }
            return Err(String::from_str("config: route missing host"));
        }
        let raw_ups = if route.upstreams.len() > 0 {
            &route.upstreams
        } else if route.upstream.len() > 0 {
            &route.upstream
        } else if route.backends.len() > 0 {
            &route.backends
        } else {
            &route.backend
        };
        let upstreams = clean_trim_list(raw_ups);
        proof {
            assert(raw_ups@.map_values(|x: String| x@) == spec_route_upstreams(
                fc.routes@[ri as int],
            ));
        }
        if upstreams.len() == 0 {
            proof {
                assert(!spec_route_ok(fc.routes@[ri as int]));
            }
            return Err(String::from_str("config: route missing upstreams"));
        }
        let strategy = match &route.strategy {
            Some(st) => crate::text::trim_lower_str(st.as_str()),
            None => String::from_str("sequential"),
        };
        let ttl = match parse_cache_ttl(
            match &route.cache_ping_ttl {
                Some(t) => Some(t.as_str()),
                None => None,
            },
            route.cache_ping_ttl_ms,
        ) {
            Ok(v) => v,
            Err(e) => {
                proof {
                    assert(!spec_route_ok(fc.routes@[ri as int]));
                }
                return Err(e);
            },
        };
        proof {
            assert(spec_route_ok(fc.routes@[ri as int])) by {
                if spec_cache_ttl(
                    match fc.routes@[ri as int].cache_ping_ttl {
                        Some(ss) => Some(ss@),
                        None => None,
                    },
                    fc.routes@[ri as int].cache_ping_ttl_ms,
                ) is None {
                    assert(false);
                }
            }
        }
        let mut middlewares = clean_lower_list(&route.middlewares);
        if middlewares.len() == 0 {
            middlewares.push(String::from_str("minecraft_handshake"));
            middlewares.push(String::from_str("tls_sni"));
        }
        let cache_ping_ttl_ms = match ttl {
            Some(ms) => if ms == 0 {
                None
            } else {
                Some(ms)
            },
            None => None,
        };
        let ghost hosts_v = hosts@.map_values(|x: String| x@);
        let ghost ups_v = upstreams@.map_values(|x: String| x@);
        routes.push(
            RouteConfig { host: hosts, upstreams, middlewares, strategy, cache_ping_ttl_ms },
        );
        proof {
            assert(routes@.last().host@.map_values(|x: String| x@) == hosts_v);
            assert(routes@.last().upstreams@.map_values(|x: String| x@) == ups_v);
        }
        ri = ri + 1;
    }
    // tunnel
    let mut tunnel = TunnelConfig {
        auth_token: String::new(),
        auto_listen_services: true,
        endpoints: Vec::new(),
        client: None,
        services: Vec::new(),
    };
    match &fc.tunnel {
        Some(t) => {
            tunnel.auth_token = match &t.auth_token {
                Some(a) => crate::text::trim_str(a.as_str()),
                None => String::new(),
            };
            tunnel.auto_listen_services = match t.auto_listen_services {
                Some(b) => b,
                None => true,
            };
            let ghost auth_v = tunnel.auth_token@;
            let ghost auto_v = tunnel.auto_listen_services;
            let ne = t.endpoints.len();
            let mut ei: usize = 0;
            while ei < ne
                invariant
                    ei <= ne == t.endpoints@.len(),
                    tunnel.endpoints@.len() == ei,
                    tunnel.auth_token@ == auth_v,
                    tunnel.auto_listen_services == auto_v,
                    tunnel.client is None,
                    tunnel.services@.len() == 0,
                decreases ne - ei,
            {
                let ep = &t.endpoints[ei];
                let tr = match &ep.transport {
                    Some(x) => crate::text::trim_lower_str(x.as_str()),
                    None => String::from_str("tcp"),
                };
                let tr = if tr.as_str().unicode_len() == 0 {
                    String::from_str("tcp")
                } else {
                    tr
                };
                tunnel.endpoints.push(
                    TunnelEndpointConfig {
                        listen_addr: crate::text::trim_str(ep.listen_addr.as_str()),
                        transport: tr,
                        quic: QuicServerConfig {
                            cert_file: match &ep.cert_file {
                                Some(x) => crate::text::trim_str(x.as_str()),
                                None => String::new(),
                            },
                            key_file: match &ep.key_file {
                                Some(x) => crate::text::trim_str(x.as_str()),
                                None => String::new(),
                            },
                        },
                    },
                );
                ei = ei + 1;
            }
            match &t.client {
                Some(cc) => {
                    let tr = match &cc.transport {
                        Some(x) => crate::text::trim_lower_str(x.as_str()),
                        None => String::from_str("tcp"),
                    };
                    let tr = if tr.as_str().unicode_len() == 0 {
                        String::from_str("tcp")
                    } else {
                        tr
                    };
                    tunnel.client = Some(
                        TunnelClientConfig {
                            server_addr: crate::text::trim_str(cc.server_addr.as_str()),
                            transport: tr,
                            dial_timeout_ms: match cc.dial_timeout_ms {
                                Some(ms) => if ms <= 0 {
                                    5000
                                } else {
                                    ms as u64
                                },
                                None => 5000,
                            },
                            quic: QuicClientConfig {
                                server_name: match &cc.server_name {
                                    Some(x) => crate::text::trim_str(x.as_str()),
                                    None => String::new(),
                                },
                                insecure_skip_verify: cc.insecure_skip_verify,
                            },
                        },
                    );
                },
                None => {},
            }
            let ghost endpoints_n = tunnel.endpoints@.len();
            let ghost client_some = tunnel.client is Some;
            let ns = t.services.len();
            let mut si: usize = 0;
            while si < ns
                invariant
                    si <= ns == t.services@.len(),
                    tunnel.services@.len() == si,
                    tunnel.auth_token@ == auth_v,
                    tunnel.auto_listen_services == auto_v,
                    tunnel.endpoints@.len() == endpoints_n,
                    (tunnel.client is Some) == client_some,
                    forall|k: int|
                        0 <= k < si ==> {
                            let sv2 = #[trigger] tunnel.services@[k];
                            &&& sv2.name@ == crate::text::spec_trim(t.services@[k].name@)
                            &&& sv2.local_addr@ == crate::text::spec_trim(
                                t.services@[k].local_addr@,
                            )
                            &&& sv2.route_only == t.services@[k].route_only
                            &&& sv2.masquerade_host@ == (match t.services@[k].masquerade_host {
                                Some(m) => crate::text::spec_trim_lower(m@),
                                None => Seq::<char>::empty(),
                            })
                        },
                decreases ns - si,
            {
                let sv = &t.services[si];
                proof {
                    assert(*sv == t.services@[si as int]);
                }
                let mut proto = match &sv.proto {
                    Some(x) => crate::text::trim_lower_str(x.as_str()),
                    None => String::from_str("tcp"),
                };
                if proto.as_str().unicode_len() == 0 {
                    proto = String::from_str("tcp");
                }
                tunnel.services.push(
                    TunnelServiceConfig {
                        name: crate::text::trim_str(sv.name.as_str()),
                        proto,
                        local_addr: crate::text::trim_str(sv.local_addr.as_str()),
                        route_only: sv.route_only,
                        remote_addr: match &sv.remote_addr {
                            Some(x) => crate::text::trim_str(x.as_str()),
                            None => String::new(),
                        },
                        masquerade_host: match &sv.masquerade_host {
                            Some(x) => crate::text::trim_lower_str(x.as_str()),
                            None => String::new(),
                        },
                    },
                );
                si = si + 1;
            }
        },
        None => {},
    }
    Ok(
        Config {
            listeners,
            admin_addr: crate::text::trim_str(fc.admin_addr.as_str()),
            routes,
            max_header_bytes: if fc.max_header_bytes <= 0 {
                65536
            } else {
                fc.max_header_bytes as usize
            },
            reload: ReloadConfig {
                enabled: match &fc.reload {
                    Some(rl) => rl.enabled,
                    None => true,
                },
                poll_interval_ms: match &fc.reload {
                    Some(rl) => match rl.poll_interval_ms {
                        Some(ms) => if ms < 0 {
                            0
                        } else {
                            ms as u64
                        },
                        None => 1000,
                    },
                    None => 1000,
                },
            },
            proxy_protocol_v2: fc.proxy_protocol_v2,
            buffer_size: if fc.buffer_size <= 0 {
                32768
            } else {
                fc.buffer_size as usize
            },
            upstream_dial_timeout_ms: if fc.upstream_dial_timeout_ms <= 0 {
                5000
            } else {
                fc.upstream_dial_timeout_ms as u64
            },
            timeouts: Timeouts {
                handshake_timeout_ms: match &fc.timeouts {
                    Some(t) => match t.handshake_timeout_ms {
                        Some(ms) => if ms < 0 {
                            0
                        } else {
                            ms as u64
                        },
                        None => 3000,
                    },
                    None => 3000,
                },
                idle_timeout_ms: match &fc.timeouts {
                    Some(t) => match t.idle_timeout_ms {
                        Some(ms) => if ms < 0 {
                            0
                        } else {
                            ms as u64
                        },
                        None => 0,
                    },
                    None => 0,
                },
            },
            tunnel,
        },
    )
}
}

} // verus!
