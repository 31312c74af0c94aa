//! Prelude codec: Minecraft VarInt decoding and encoding, with the
//! round-trip law, plus the handshake-metadata parser built on top of it.
//!
//! A VarInt stores a 32-bit value in little-endian groups of seven bits; the
//! high bit of each byte marks continuation and at most five bytes are read.
//! Every decoder reports a tri-state: complete, need-more-data, or malformed.

use vstd::prelude::*;

verus! {

/// Outcome of decoding one VarInt from a buffer.
#[derive(Debug, Clone, Copy, PartialEq, Eq, Structural)]
pub enum VarIntResult {
    /// Decoded value (as the raw 32-bit pattern) and the byte length read.
    Complete(u32, usize),
    /// The buffer ended inside the VarInt.
    NeedMoreData,
    /// A sixth byte would be required.
    Malformed,
}

pub open spec fn pow128(k: nat) -> nat
    decreases k,
{
    if k == 0 {
        1
    } else {
        128 * pow128((k - 1) as nat)
    }
}

/// Decoding state after `k` bytes with partial sum `acc`. Five
/// continuation bytes already decide: the VarInt is malformed whether or
/// not a sixth byte has arrived.
pub open spec fn spec_read_varint_rec(s: Seq<u8>, i: int, k: nat, acc: nat) -> VarIntResult
    decreases 5 - k,
{
    if k >= 5 {
        VarIntResult::Malformed
    } else if i + k >= s.len() || i < 0 {
        VarIntResult::NeedMoreData
    } else {
        let b = s[i + k];
        let acc2 = acc + ((b % 128) as nat) * pow128(k);
        if b < 128 {
            VarIntResult::Complete((acc2 % 0x1_0000_0000) as u32, (k + 1) as usize)
        } else {
            spec_read_varint_rec(s, i, (k + 1) as nat, acc2)
        }
    }
}

/// The VarInt starting at index `i` of `s`.
pub open spec fn spec_read_varint(s: Seq<u8>, i: int) -> VarIntResult {
    spec_read_varint_rec(s, i, 0, 0)
}

/// The encoding of `v`: low seven-bit groups first, high bit on all but the
/// last byte.
pub open spec fn spec_varint_bytes(v: u32) -> Seq<u8>
    decreases v,
{
    if v < 128 {
        seq![v as u8]
    } else {
        seq![(v % 128 + 128) as u8] + spec_varint_bytes(v / 128)
    }
}

fn pow128_exec(k: usize) -> (r: u64)
    requires
        k < 5,
    ensures
        r as nat == pow128(k as nat),
{
    proof {
        reveal_with_fuel(pow128, 6);
    }
    if k == 0 { 1 } else if k == 1 { 128 } else if k == 2 { 16384 }
    else if k == 3 { 2097152 } else { 268435456 }
}

fn read_varint_rec(buf: &Vec<u8>, i: usize, k: usize, acc: u64) -> (r: VarIntResult)
    requires
        k <= 5,
        (acc as nat) < pow128(k as nat),
    ensures
        r == spec_read_varint_rec(buf@, i as int, k as nat, acc as nat),
    decreases 5 - k,
{
    if k >= 5 {
        return VarIntResult::Malformed;
    }
    if i >= buf.len() || buf.len() - i <= k {
        return VarIntResult::NeedMoreData;
    }
    let b = buf[i + k];
    let p = pow128_exec(k);
    proof {
        lemma_pow128_le(k as nat, 4nat);
        reveal_with_fuel(pow128, 6);
        assert(pow128(4nat) == 268435456);
        assert((((b % 128) as u64) as nat) * (p as nat) <= 127 * 268435456) by (nonlinear_arith)
            requires
                (b % 128) as u64 <= 127,
                (p as nat) <= 268435456,
        ;
        assert(128 * pow128(k as nat) == pow128((k + 1) as nat));
    }
    let acc2: u64 = acc + (b % 128) as u64 * p;
    proof {
        assert((acc2 as nat) == (acc as nat) + ((b % 128) as nat) * pow128(k as nat));
        assert((acc2 as nat) < pow128((k + 1) as nat)) by (nonlinear_arith)
            requires
                (acc as nat) < pow128(k as nat),
                (acc2 as nat) == (acc as nat) + ((b % 128) as nat) * pow128(k as nat),
                ((b % 128) as nat) <= 127,
                pow128((k + 1) as nat) == 128 * pow128(k as nat),
                pow128(k as nat) >= 0,
        ;
    }
    if b < 128 {
        let v: u32 = (acc2 % 0x1_0000_0000) as u32;
        VarIntResult::Complete(v, k + 1)
    } else {
        read_varint_rec(buf, i, k + 1, acc2)
    }
}

proof fn lemma_pow128_le(a: nat, b: nat)
    requires
        a <= b,
    ensures
        pow128(a) <= pow128(b),
    decreases b,
{
    if a < b {
        lemma_pow128_le(a, (b - 1) as nat);
        assert(pow128(b) == 128 * pow128((b - 1) as nat));
        assert(pow128((b - 1) as nat) <= 128 * pow128((b - 1) as nat)) by (nonlinear_arith)
            requires pow128((b - 1) as nat) >= 0;
    }
}

proof fn lemma_varint_complete_len_rec(s: Seq<u8>, i: int, k: nat, acc: nat, v: u32, n: usize)
    requires
        spec_read_varint_rec(s, i, k, acc) == VarIntResult::Complete(v, n),
        k <= 5,
    ensures
        k < n <= 5,
        i + n <= s.len(),
        i >= 0,
    decreases 5 - k,
{
    if i + k < s.len() && i >= 0 && k < 5 {
        let b = s[i + k];
        if b >= 128 {
            lemma_varint_complete_len_rec(
                s,
                i,
                (k + 1) as nat,
                acc + ((b % 128) as nat) * pow128(k),
                v,
                n,
            );
        }
    }
}

/// A completed VarInt read spans one to five bytes, all inside the buffer.
pub proof fn lemma_varint_complete_len(s: Seq<u8>, i: int, v: u32, n: usize)
    requires
        spec_read_varint(s, i) == VarIntResult::Complete(v, n),
    ensures
        1 <= n <= 5,
        i + n <= s.len(),
        i >= 0,
{
    lemma_varint_complete_len_rec(s, i, 0, 0, v, n);
}

/// Reads one VarInt starting at byte `i`.
pub fn read_varint(buf: &Vec<u8>, i: usize) -> (r: VarIntResult)
    ensures
        r == spec_read_varint(buf@, i as int),
{
    proof {
        reveal_with_fuel(pow128, 2);
    }
    read_varint_rec(buf, i, 0, 0)
}

/// Reads a VarInt at the start of the buffer: `Ok(Some)` with the value
/// and length once a terminating byte is in reach, `Ok(None)` while the
/// buffer is still too short to decide, and `Err` on a malformed VarInt
/// (one that does not terminate within five bytes), so a reader rejects
/// it instead of waiting for more input.
pub fn decode_varint_prefix(buf: &Vec<u8>) -> (r: Result<Option<(u32, usize)>, String>)
    ensures
        match spec_read_varint(buf@, 0) {
            VarIntResult::Complete(v, n) => r == Result::<Option<(u32, usize)>, String>::Ok(
                Some((v, n)),
            ),
            VarIntResult::NeedMoreData => r == Result::<Option<(u32, usize)>, String>::Ok(None),
            VarIntResult::Malformed => r is Err,
        },
{
    match read_varint(buf, 0) {
        VarIntResult::Complete(v, n) => Ok(Some((v, n))),
        VarIntResult::NeedMoreData => Ok(None),
        VarIntResult::Malformed => Err(String::from_str("protocol: varint too long")),
    }
}

/// Appends the VarInt encoding of `v`.
pub fn write_varint(out: &mut Vec<u8>, v: u32)
    ensures
        final(out)@ == old(out)@ + spec_varint_bytes(v),
    decreases v,
{
    if v < 128 {
        out.push(v as u8);
        proof {
            assert(out@ =~= old(out)@ + spec_varint_bytes(v));
        }
    } else {
        out.push((v % 128 + 128) as u8);
        let g = v / 128;
        write_varint(out, g);
        proof {
            assert(out@ =~= old(out)@ + spec_varint_bytes(v));
        }
    }
}

proof fn lemma_varint_rt_rec(s: Seq<u8>, i: int, k: nat, acc: nat, v: u32)
    requires
        0 <= i,
        i + k + spec_varint_bytes(v).len() <= s.len(),
        k + spec_varint_bytes(v).len() <= 5,
        acc < pow128(k),
        acc + (v as nat) * pow128(k) < 0x1_0000_0000,
        s.subrange(i + k, i + k + spec_varint_bytes(v).len() as int) == spec_varint_bytes(v),
    ensures
        spec_read_varint_rec(s, i, k, acc) == VarIntResult::Complete(
            (acc + (v as nat) * pow128(k)) as u32,
            (k + spec_varint_bytes(v).len()) as usize,
        ),
    decreases v,
{
    let enc = spec_varint_bytes(v);
    let b = s[i + k];
    assert(b == enc[0]);
    if v < 128 {
        assert(b == v as u8);
        assert((b % 128) as nat == v as nat);
        let acc2 = acc + (b % 128) as nat * pow128(k);
        assert(acc2 % 0x1_0000_0000 == acc2);
    } else {
        assert(b == (v % 128 + 128) as u8);
        assert(b >= 128);
        let g = (v % 128) as nat;
        assert((b % 128) as nat == g);
        let acc2 = acc + g * pow128(k);
        let v2 = v / 128;
        let enc2 = spec_varint_bytes(v2);
        assert(enc == seq![b] + enc2);
        assert(enc.len() == 1 + enc2.len());
        // the tail of the encoding sits right after byte k
        assert(s.subrange(i + (k + 1), i + (k + 1) + enc2.len() as int) =~= enc2) by {
            assert(forall|j: int|
                0 <= j < enc2.len() ==> s.subrange(
                    i + (k + 1),
                    i + (k + 1) + enc2.len() as int,
                )[j] == s[i + k + 1 + j] && enc[j + 1] == enc2[j]);
        }
        assert(acc2 < pow128((k + 1) as nat)) by (nonlinear_arith)
            requires
                acc2 == acc + g * pow128(k),
                acc < pow128(k),
                g <= 127,
                pow128((k + 1) as nat) == 128 * pow128(k),
                pow128(k) >= 0,
        ;
        assert(acc2 + (v2 as nat) * pow128((k + 1) as nat) == acc + (v as nat) * pow128(k))
            by (nonlinear_arith)
            requires
                acc2 == acc + g * pow128(k),
                g == (v as nat) % 128,
                v2 == v / 128,
                pow128((k + 1) as nat) == 128 * pow128(k),
        ;
        lemma_varint_rt_rec(s, i, (k + 1) as nat, acc2, v2);
    }
}

/// Round trip: decoding an encoded value yields the value back, whatever
/// follows it in the buffer, and the encoding is at most five bytes long.
pub proof fn lemma_varint_roundtrip(v: u32, tail: Seq<u8>)
    ensures
        spec_varint_bytes(v).len() <= 5,
        spec_read_varint(spec_varint_bytes(v) + tail, 0) == VarIntResult::Complete(
            v,
            spec_varint_bytes(v).len() as usize,
        ),
{
    reveal_with_fuel(pow128, 6);
    assert(pow128(5nat) == 34359738368);
    lemma_varint_len_bound(v, 5);
    let s = spec_varint_bytes(v) + tail;
    assert(s.subrange(0, spec_varint_bytes(v).len() as int) =~= spec_varint_bytes(v));
    assert((v as nat) * pow128(0) == v as nat) by (nonlinear_arith)
        requires pow128(0nat) == 1;
    lemma_varint_rt_rec(s, 0, 0, 0, v);
}

proof fn lemma_varint_len_bound(v: u32, n: nat)
    requires
        n >= 1,
        (v as nat) < pow128(n),
    ensures
        spec_varint_bytes(v).len() <= n,
    decreases n,
{
    if v >= 128 {
        assert(n >= 2) by {
            reveal_with_fuel(pow128, 2);
        }
        assert(((v / 128) as nat) < pow128((n - 1) as nat)) by (nonlinear_arith)
            requires
                (v as nat) < pow128(n),
                pow128(n) == 128 * pow128((n - 1) as nat),
        ;
        lemma_varint_len_bound(v / 128, (n - 1) as nat);
    }
}

/// Parsed Minecraft handshake header. Values are read without consuming
/// the buffer; `frame_len` is the whole packet including its length prefix.
pub struct HandshakeMeta {
    /// Raw 32-bit protocol version as sent.
    pub protocol_version: u32,
    /// Routing host, trimmed and lowercased.
    pub host: String,
    pub port: u16,
    pub next_state: u32,
    pub frame_len: usize,
}

/// The plain-value shadow of a parsed handshake.
pub ghost struct HandshakeView {
    pub protocol_version: u32,
    pub host: Seq<char>,
    pub port: u16,
    pub next_state: u32,
    pub frame_len: int,
}

/// Outcome of parsing a handshake from a buffer.
pub enum HandshakeParse {
    Complete(HandshakeMeta),
    NeedMoreData,
    Malformed,
}

/// The spec-level outcome.
pub ghost enum HandshakeParseView {
    Complete(HandshakeView),
    NeedMoreData,
    Malformed,
}

impl HandshakeParse {
    pub open spec fn view_spec(&self) -> HandshakeParseView {
        match self {
            HandshakeParse::Complete(m) => HandshakeParseView::Complete(
                HandshakeView {
                    protocol_version: m.protocol_version,
                    host: m.host@,
                    port: m.port,
                    next_state: m.next_state,
                    frame_len: m.frame_len as int,
                },
            ),
            HandshakeParse::NeedMoreData => HandshakeParseView::NeedMoreData,
            HandshakeParse::Malformed => HandshakeParseView::Malformed,
        }
    }
}

pub open spec fn spec_be_u16(b0: u8, b1: u8) -> u16 {
    ((b0 as nat) * 0x100 + (b1 as nat)) as u16
}

/// Ground truth for handshake parsing: packet length VarInt (bounded by
/// `max_frame`), packet id 0, protocol version, length-prefixed host
/// string, big-endian port, next-state VarInt. The host is trimmed and
/// lowercased from a lossy UTF-8 decode. A value that cannot fit its frame
/// or violates the format is malformed; a short buffer needs more data.
pub open spec fn spec_parse_handshake(s: Seq<u8>, max_frame: int) -> HandshakeParseView {
    match spec_read_varint(s, 0) {
        VarIntResult::NeedMoreData => HandshakeParseView::NeedMoreData,
        VarIntResult::Malformed => HandshakeParseView::Malformed,
        VarIntResult::Complete(len_v, len_n) => {
            if len_v >= 0x8000_0000 || len_v > max_frame {
                HandshakeParseView::Malformed
            } else if len_n + len_v > s.len() {
                HandshakeParseView::NeedMoreData
            } else {
                let frame_end = len_n + len_v;
                match spec_read_varint(s, len_n as int) {
                    VarIntResult::NeedMoreData => HandshakeParseView::NeedMoreData,
                    VarIntResult::Malformed => HandshakeParseView::Malformed,
                    VarIntResult::Complete(pid, n1) => {
                        if pid != 0 {
                            HandshakeParseView::Malformed
                        } else {
                            let i1 = len_n + n1;
                            match spec_read_varint(s, i1 as int) {
                                VarIntResult::NeedMoreData => HandshakeParseView::NeedMoreData,
                                VarIntResult::Malformed => HandshakeParseView::Malformed,
                                VarIntResult::Complete(pv, n2) => {
                                    let i2 = i1 + n2;
                                    match spec_read_varint(s, i2 as int) {
                                        VarIntResult::NeedMoreData
                                            => HandshakeParseView::NeedMoreData,
                                        VarIntResult::Malformed => HandshakeParseView::Malformed,
                                        VarIntResult::Complete(alen, n3) => {
                                            if alen >= 0x8000_0000 {
                                                HandshakeParseView::Malformed
                                            } else {
                                                let i3 = i2 + n3;
                                                if i3 + alen + 2 > frame_end {
                                                    HandshakeParseView::Malformed
                                                } else {
                                                    let hbytes = s.subrange(
                                                        i3 as int,
                                                        i3 + alen as int,
                                                    );
                                                    let i4 = i3 + alen;
                                                    match spec_read_varint(s, i4 + 2) {
                                                        VarIntResult::NeedMoreData
                                                            => HandshakeParseView::NeedMoreData,
                                                        VarIntResult::Malformed
                                                            => HandshakeParseView::Malformed,
                                                        VarIntResult::Complete(ns, _n4)
                                                            => HandshakeParseView::Complete(
                                                            HandshakeView {
                                                                protocol_version: pv,
                                                                host: crate::text::spec_trim_lower(
                                                                    crate::text::lossy_chars(
                                                                        hbytes,
                                                                    ),
                                                                ),
                                                                port: spec_be_u16(
                                                                    s[i4 as int],
                                                                    s[i4 + 1],
                                                                ),
                                                                next_state: ns,
                                                                frame_len: len_n + len_v,
                                                            },
                                                        ),
                                                    }
                                                }
                                            }
                                        },
                                    }
                                },
                            }
                        }
                    },
                }
            }
        },
    }
}

/// Parses a Minecraft handshake from the front of the buffer, without
/// consuming it.
pub fn parse_handshake(buf: &Vec<u8>, max_frame: usize) -> (r: HandshakeParse)
    requires
        max_frame <= 0x1000_0000,
    ensures
        r.view_spec() == spec_parse_handshake(buf@, max_frame as int),
{
    let len_read = read_varint(buf, 0);
    let (len_v, len_n) = match len_read {
        VarIntResult::NeedMoreData => {
            return HandshakeParse::NeedMoreData;
        },
        VarIntResult::Malformed => {
            return HandshakeParse::Malformed;
        },
        VarIntResult::Complete(v, n) => (v, n),
    };
    if len_v >= 0x8000_0000 || len_v as usize > max_frame {
        return HandshakeParse::Malformed;
    }
    proof {
        lemma_varint_complete_len(buf@, 0, len_v, len_n);
    }
    if len_v as usize > buf.len() || len_n > buf.len() - len_v as usize {
        return HandshakeParse::NeedMoreData;
    }
    let frame_end: usize = len_n + len_v as usize;
    let (pid, n1) = match read_varint(buf, len_n) {
        VarIntResult::NeedMoreData => {
            return HandshakeParse::NeedMoreData;
        },
        VarIntResult::Malformed => {
            return HandshakeParse::Malformed;
        },
        VarIntResult::Complete(v, n) => (v, n),
    };
    if pid != 0 {
        return HandshakeParse::Malformed;
    }
    proof {
        lemma_varint_complete_len(buf@, len_n as int, pid, n1);
    }
    let i1: usize = len_n + n1;
    let (pv, n2) = match read_varint(buf, i1) {
        VarIntResult::NeedMoreData => {
            return HandshakeParse::NeedMoreData;
        },
        VarIntResult::Malformed => {
            return HandshakeParse::Malformed;
        },
        VarIntResult::Complete(v, n) => (v, n),
    };
    proof {
        lemma_varint_complete_len(buf@, i1 as int, pv, n2);
    }
    let i2: usize = i1 + n2;
    let (alen, n3) = match read_varint(buf, i2) {
        VarIntResult::NeedMoreData => {
            return HandshakeParse::NeedMoreData;
        },
        VarIntResult::Malformed => {
            return HandshakeParse::Malformed;
        },
        VarIntResult::Complete(v, n) => (v, n),
    };
    if alen >= 0x8000_0000 {
        return HandshakeParse::Malformed;
    }
    proof {
        lemma_varint_complete_len(buf@, i2 as int, alen, n3);
    }
    let i3: usize = i2 + n3;
    if alen as usize > frame_end || i3 + 2 > frame_end - alen as usize {
        proof {
            assert(i3 + alen + 2 > frame_end);
        }
        return HandshakeParse::Malformed;
    }
    proof {
        assert(i3 + alen + 2 <= frame_end);
        assert(frame_end <= buf@.len());
    }
    let hbytes = crate::wire::copy_bytes(buf, i3, i3 + alen as usize);
    let i4: usize = i3 + alen as usize;
    let (ns, _n4) = match read_varint(buf, i4 + 2) {
        VarIntResult::NeedMoreData => {
            return HandshakeParse::NeedMoreData;
        },
        VarIntResult::Malformed => {
            return HandshakeParse::Malformed;
        },
        VarIntResult::Complete(v, n) => (v, n),
    };
    let raw_host = crate::text::bytes_to_string_lossy(&hbytes);
    let host = crate::text::trim_lower_str(raw_host.as_str());
    let b0 = buf[i4];
    let b1 = buf[i4 + 1];
    let port: u16 = (b0 as u16) * 0x100 + (b1 as u16);
    HandshakeParse::Complete(
        HandshakeMeta {
            protocol_version: pv,
            host,
            port,
            next_state: ns,
            frame_len: frame_end,
        },
    )
}

/// The port field of a handshake at the front of the buffer, when the
/// buffer reaches that far; used to derive a default upstream port.
pub fn mc_handshake_port(buf: &Vec<u8>, max_frame: usize) -> (r: Option<u16>)
    requires
        max_frame <= 0x1000_0000,
    ensures
        match spec_parse_handshake(buf@, max_frame as int) {
            HandshakeParseView::Complete(m) => r == Some(m.port),
            _ => r is None,
        },
{
    match parse_handshake(buf, max_frame) {
        HandshakeParse::Complete(m) => Some(m.port),
        _ => None,
    }
}

} // verus!
