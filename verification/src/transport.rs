//! Tunnel transport selection: the names of the three carriers and the
//! options their dial and listen sides take. The sessions themselves
//! (yamux over TCP or KCP, native QUIC streams) live in the application.

use vstd::prelude::*;

use crate::text;

verus! {

#[derive(Debug, Clone, PartialEq, Eq)]
pub struct QuicListenOptions {
    pub cert_file: String,
    pub key_file: String,
    pub next_protos: Vec<Vec<u8>>,
}

#[derive(Debug, Clone, PartialEq, Eq)]
pub struct QuicDialOptions {
    pub server_name: String,
    pub insecure_skip_verify: bool,
    pub next_protos: Vec<Vec<u8>>,
}

#[derive(Debug, Clone, PartialEq, Eq)]
pub struct TransportListenOptions {
    pub quic: QuicListenOptions,
}

#[derive(Debug, Clone, PartialEq, Eq)]
pub struct TransportDialOptions {
    pub quic: QuicDialOptions,
}

/// The accepted transport names in normal form.
pub open spec fn spec_transport_of(s: Seq<char>) -> Option<Seq<char>> {
    let n = text::spec_trim_lower(s);
    if n.len() == 0 {
        Some("tcp"@)
    } else if n == "tcp"@ || n == "udp"@ || n == "quic"@ {
        Some(n)
    } else {
        None
    }
}

/// Parses a transport name: `tcp`, `udp` or `quic`, defaulting to `tcp`
/// when empty; anything else is an error.
pub fn parse_transport(name: &str) -> (r: Result<String, String>)
    ensures
        match spec_transport_of(name@) {
            Some(t) => r matches Ok(v) && v@ == t,
            None => r is Err,
        },
{
    let n = text::trim_lower_str(name);
    if n.as_str().unicode_len() == 0 {
        return Ok(String::from_str("tcp"));
    }
    if text::str_eq(n.as_str(), "tcp") || text::str_eq(n.as_str(), "udp") || text::str_eq(
        n.as_str(),
        "quic",
    ) {
        Ok(n)
    } else {
        Err(String::from_str("tunnel: unknown transport (expected tcp|udp|quic)"))
    }
}

/// The ALPN protocol list: the caller's own, or `prism-tunnel` when none
/// is given.
pub fn default_alpn(next: &Vec<Vec<u8>>) -> (r: Vec<Vec<u8>>)
    ensures
        next@.len() > 0 ==> r@.map_values(|v: Vec<u8>| v@) == next@.map_values(|v: Vec<u8>| v@),
        next@.len() == 0 ==> r@.len() == 1 && r@[0]@ == "prism-tunnel"@.map_values(
            |c: char| c as u8,
        ),
{
    if next.len() > 0 {
        let mut out: Vec<Vec<u8>> = Vec::new();
        let n = next.len();
        let mut i: usize = 0;
        while i < n
            invariant
                i <= n == next@.len(),
                out@.len() == i,
                forall|k: int| 0 <= k < i ==> #[trigger] out@[k]@ == next@[k]@,
            decreases n - i,
        {
            out.push(crate::wire::copy_bytes(&next[i], 0, next[i].len()));
            proof {
                assert(next@[i as int]@.subrange(0, next@[i as int]@.len() as int)
                    =~= next@[i as int]@);
            }
            i = i + 1;
        }
        proof {
            assert(out@.map_values(|v: Vec<u8>| v@) =~= next@.map_values(|v: Vec<u8>| v@));
        }
        out
    } else {
        let mut proto: Vec<u8> = Vec::new();
        proto.push(112);
        proto.push(114);
        proto.push(105);
        proto.push(115);
        proto.push(109);
        proto.push(45);
        proto.push(116);
        proto.push(117);
        proto.push(110);
        proto.push(110);
        proto.push(101);
        proto.push(108);
        proof {
            reveal_strlit("prism-tunnel");
            assert(proto@ =~= "prism-tunnel"@.map_values(|c: char| c as u8));
        }
        let mut out: Vec<Vec<u8>> = Vec::new();
        out.push(proto);
        out
    }
}

} // verus!
