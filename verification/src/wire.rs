//! Tunnel wire protocol: the register frame, the per-stream proxy header,
//! and the length-prefixed datagram framing used for UDP over a stream.
//!
//! All integers are big-endian, strings are UTF-8, and both length fields
//! are bounded by 1 MiB. Encoders and decoders here work on in-memory byte
//! buffers; the application reads and writes the actual streams.

use vstd::prelude::*;

use crate::codec;
use crate::text;

verus! {

use vstd::string::*;

pub const MAX_REGISTER_JSON_BYTES: u32 = 1048576;

pub const MAX_DATAGRAM_BYTES: u32 = 1048576;

/// Protocol-level failures; transport I/O errors stay with the caller.
#[derive(Debug, Clone, Copy, PartialEq, Eq, Structural)]
pub enum ProtocolError {
    BadMagic,
    BadVersion,
    PayloadTooLarge(u32),
    EmptyService,
}

/// `"PRRG"`: register request.
pub open spec fn magic_register() -> Seq<u8> {
    seq![80u8, 82u8, 82u8, 71u8]
}

/// `"PRPX"`: proxy stream carrying TCP.
pub open spec fn magic_proxy_tcp() -> Seq<u8> {
    seq![80u8, 82u8, 80u8, 88u8]
}

/// `"PRPU"`: proxy stream carrying framed UDP datagrams.
pub open spec fn magic_proxy_udp() -> Seq<u8> {
    seq![80u8, 82u8, 80u8, 85u8]
}

pub open spec fn spec_u32_be(n: u32) -> Seq<u8> {
    seq![
        (n / 0x100_0000) as u8,
        ((n / 0x1_0000) % 0x100) as u8,
        ((n / 0x100) % 0x100) as u8,
        (n % 0x100) as u8,
    ]
}

pub open spec fn spec_be_u32(b0: u8, b1: u8, b2: u8, b3: u8) -> u32 {
    ((b0 as nat) * 0x100_0000 + (b1 as nat) * 0x1_0000 + (b2 as nat) * 0x100 + (
    b3 as nat)) as u32
}

pub proof fn lemma_u32_be_roundtrip(n: u32)
    ensures
        spec_be_u32(
            spec_u32_be(n)[0],
            spec_u32_be(n)[1],
            spec_u32_be(n)[2],
            spec_u32_be(n)[3],
        ) == n,
{
    let b = spec_u32_be(n);
    assert(((b[0] as nat) * 0x100_0000 + (b[1] as nat) * 0x1_0000 + (b[2] as nat) * 0x100 + (
    b[3] as nat)) == n as nat) by (nonlinear_arith)
        requires
            b[0] as nat == (n as nat) / 0x100_0000,
            b[1] as nat == ((n as nat) / 0x1_0000) % 0x100,
            b[2] as nat == ((n as nat) / 0x100) % 0x100,
            b[3] as nat == (n as nat) % 0x100,
            n < 0x1_0000_0000,
    ;
}

/// Appends the four big-endian bytes of `n`.
pub fn write_u32_be(out: &mut Vec<u8>, n: u32)
    ensures
        final(out)@ == old(out)@ + spec_u32_be(n),
{
    out.push((n / 0x100_0000) as u8);
    out.push(((n / 0x1_0000) % 0x100) as u8);
    out.push(((n / 0x100) % 0x100) as u8);
    out.push((n % 0x100) as u8);
    proof {
        assert(out@ =~= old(out)@ + spec_u32_be(n));
    }
}

/// Reads the four big-endian bytes starting at `i`.
pub fn read_u32_be(buf: &Vec<u8>, i: usize) -> (n: u32)
    requires
        i + 4 <= buf@.len(),
    ensures
        n == spec_be_u32(buf@[i as int], buf@[i as int + 1], buf@[i as int + 2], buf@[i as int + 3]),
{
    let _len: usize = buf.len();
    let b0 = buf[i] as u32;
    let b1 = buf[i + 1] as u32;
    let b2 = buf[i + 2] as u32;
    let b3 = buf[i + 3] as u32;
    b0 * 0x100_0000 + b1 * 0x1_0000 + b2 * 0x100 + b3
}

/// Copies `buf[from..to]`.
pub fn copy_bytes(buf: &Vec<u8>, from: usize, to: usize) -> (r: Vec<u8>)
    requires
        from <= to <= buf@.len(),
    ensures
        r@ == buf@.subrange(from as int, to as int),
{
    let mut r: Vec<u8> = Vec::new();
    let mut i: usize = from;
    while i < to
        invariant
            from <= i <= to <= buf@.len(),
            r@ == buf@.subrange(from as int, i as int),
        decreases to - i,
    {
        r.push(buf[i]);
        proof {
            assert(r@ =~= buf@.subrange(from as int, i as int + 1));
        }
        i = i + 1;
    }
    r
}

// ---------------------------------------------------------------------------
// Register frame: magic(4) | ver(1) | len(u32 BE) | json(len), len <= 1 MiB.
// ---------------------------------------------------------------------------

/// What a register frame decode yields, at the specification level.
pub enum RegisterFrameSpec {
    Complete(Seq<u8>, int),
    NeedMoreData,
    Failed(ProtocolError),
}

/// Outcome of decoding a register frame from a byte buffer.
pub enum RegisterFrameRead {
    /// The JSON payload and the total bytes consumed.
    Complete(Vec<u8>, usize),
    NeedMoreData,
    Failed(ProtocolError),
}

impl RegisterFrameRead {
    pub open spec fn view_spec(&self) -> RegisterFrameSpec {
        match self {
            RegisterFrameRead::Complete(json, consumed) => RegisterFrameSpec::Complete(
                json@,
                *consumed as int,
            ),
            RegisterFrameRead::NeedMoreData => RegisterFrameSpec::NeedMoreData,
            RegisterFrameRead::Failed(e) => RegisterFrameSpec::Failed(*e),
        }
    }
}

/// Ground truth for register-frame decoding.
pub open spec fn spec_decode_register_frame(buf: Seq<u8>) -> RegisterFrameSpec {
    if buf.len() < 4 {
        RegisterFrameSpec::NeedMoreData
    } else if buf.subrange(0, 4) != magic_register() {
        RegisterFrameSpec::Failed(ProtocolError::BadMagic)
    } else if buf.len() < 5 {
        RegisterFrameSpec::NeedMoreData
    } else if buf[4] != 1u8 {
        RegisterFrameSpec::Failed(ProtocolError::BadVersion)
    } else if buf.len() < 9 {
        RegisterFrameSpec::NeedMoreData
    } else {
        let n = spec_be_u32(buf[5], buf[6], buf[7], buf[8]);
        if n > MAX_REGISTER_JSON_BYTES {
            RegisterFrameSpec::Failed(ProtocolError::PayloadTooLarge(n))
        } else if buf.len() < 9 + n {
            RegisterFrameSpec::NeedMoreData
        } else {
            RegisterFrameSpec::Complete(buf.subrange(9, 9 + n as int), 9 + n as int)
        }
    }
}

/// Frames a register payload: the length field is checked against the 1 MiB
/// bound, so a well-formed frame is always written whole.
pub fn encode_register_frame(json: &Vec<u8>) -> (r: Result<Vec<u8>, ProtocolError>)
    ensures
        json@.len() <= MAX_REGISTER_JSON_BYTES ==> (r matches Ok(v) && v@ == magic_register()
            + seq![1u8] + spec_u32_be(json@.len() as u32) + json@),
        json@.len() > MAX_REGISTER_JSON_BYTES ==> r is Err,
{
    if json.len() > MAX_REGISTER_JSON_BYTES as usize {
        let n: u32 = if json.len() >= 0xFFFF_FFFFusize {
            0xFFFF_FFFFu32
        } else {
            json.len() as u32
        };
        return Err(ProtocolError::PayloadTooLarge(n));
    }
    let mut out: Vec<u8> = Vec::new();
    out.push(80);
    out.push(82);
    out.push(82);
    out.push(71);
    out.push(1);
    write_u32_be(&mut out, json.len() as u32);
    let mut i: usize = 0;
    while i < json.len()
        invariant
            i <= json@.len(),
            json@.len() <= MAX_REGISTER_JSON_BYTES,
            out@ == magic_register() + seq![1u8] + spec_u32_be(json@.len() as u32)
                + json@.subrange(0, i as int),
        decreases json@.len() - i,
    {
        out.push(json[i]);
        proof {
            assert(out@ =~= magic_register() + seq![1u8] + spec_u32_be(json@.len() as u32)
                + json@.subrange(0, i as int + 1));
        }
        i = i + 1;
    }
    proof {
        assert(json@.subrange(0, json@.len() as int) =~= json@);
        assert(magic_register() + seq![1u8] + spec_u32_be(json@.len() as u32) =~= seq![
            80u8,
            82u8,
            82u8,
            71u8,
            1u8,
        ] + spec_u32_be(json@.len() as u32));
    }
    Ok(out)
}

/// Decodes a register frame from the front of `buf`.
///
/// An oversize length field fails before the payload is ever required, so a
/// reader can reject it without draining the declared bytes.
pub fn decode_register_frame(buf: &Vec<u8>) -> (r: RegisterFrameRead)
    ensures
        r.view_spec() == spec_decode_register_frame(buf@),
{
    if buf.len() < 4 {
        return RegisterFrameRead::NeedMoreData;
    }
    if !(buf[0] == 80 && buf[1] == 82 && buf[2] == 82 && buf[3] == 71) {
        proof {
            assert(buf@.subrange(0, 4) =~= magic_register() ==> (buf@[0] == 80 && buf@[1] == 82
                && buf@[2] == 82 && buf@[3] == 71));
        }
        return RegisterFrameRead::Failed(ProtocolError::BadMagic);
    }
    proof {
        assert(buf@.subrange(0, 4) =~= magic_register());
    }
    if buf.len() < 5 {
        return RegisterFrameRead::NeedMoreData;
    }
    if buf[4] != 1 {
        return RegisterFrameRead::Failed(ProtocolError::BadVersion);
    }
    if buf.len() < 9 {
        return RegisterFrameRead::NeedMoreData;
    }
    let n = read_u32_be(buf, 5);
    if n > MAX_REGISTER_JSON_BYTES {
        return RegisterFrameRead::Failed(ProtocolError::PayloadTooLarge(n));
    }
    if buf.len() < 9 + n as usize {
        return RegisterFrameRead::NeedMoreData;
    }
    let json = copy_bytes(buf, 9, 9 + n as usize);
    RegisterFrameRead::Complete(json, 9 + n as usize)
}

// ---------------------------------------------------------------------------
// Proxy stream header: magic(4) | ver(1) | varint_len | service_name.
// ---------------------------------------------------------------------------

#[derive(Debug, Clone, Copy, PartialEq, Eq, Structural)]
pub enum ProxyStreamKind {
    Tcp,
    Udp,
}

pub open spec fn magic_for_kind(kind: ProxyStreamKind) -> Seq<u8> {
    match kind {
        ProxyStreamKind::Tcp => magic_proxy_tcp(),
        ProxyStreamKind::Udp => magic_proxy_udp(),
    }
}

/// What a proxy-header decode yields, at the specification level.
pub enum HeaderReadSpec {
    Complete(ProxyStreamKind, Seq<char>, int),
    NeedMoreData,
    Failed(ProtocolError),
}

/// Outcome of decoding a proxy stream header from a byte buffer.
pub enum HeaderRead {
    /// Carrier kind, trimmed service name, and total bytes consumed.
    Complete(ProxyStreamKind, String, usize),
    NeedMoreData,
    Failed(ProtocolError),
}

impl HeaderRead {
    pub open spec fn view_spec(&self) -> HeaderReadSpec {
        match self {
            HeaderRead::Complete(kind, service, consumed) => HeaderReadSpec::Complete(
                *kind,
                service@,
                *consumed as int,
            ),
            HeaderRead::NeedMoreData => HeaderReadSpec::NeedMoreData,
            HeaderRead::Failed(e) => HeaderReadSpec::Failed(*e),
        }
    }
}

/// Ground truth for proxy-header decoding. The name length is a VarInt; a
/// negative length (high bit of the 32-bit value) is rejected as the stream
/// reader does.
pub open spec fn spec_decode_proxy_header(buf: Seq<u8>) -> HeaderReadSpec {
    if buf.len() < 4 {
        HeaderReadSpec::NeedMoreData
    } else if buf.subrange(0, 4) != magic_proxy_tcp() && buf.subrange(0, 4) != magic_proxy_udp() {
        HeaderReadSpec::Failed(ProtocolError::BadMagic)
    } else {
        let kind = if buf.subrange(0, 4) == magic_proxy_tcp() {
            ProxyStreamKind::Tcp
        } else {
            ProxyStreamKind::Udp
        };
        if buf.len() < 5 {
            HeaderReadSpec::NeedMoreData
        } else if buf[4] != 1u8 {
            HeaderReadSpec::Failed(ProtocolError::BadVersion)
        } else {
            match codec::spec_read_varint(buf, 5) {
                codec::VarIntResult::NeedMoreData => HeaderReadSpec::NeedMoreData,
                codec::VarIntResult::Malformed => HeaderReadSpec::Failed(ProtocolError::BadMagic),
                codec::VarIntResult::Complete(v, nlen) => {
                    if v >= 0x8000_0000 {
                        // the stream reader folds a negative length into BadMagic
                        HeaderReadSpec::Failed(ProtocolError::BadMagic)
                    } else if buf.len() < 5 + nlen + v {
                        HeaderReadSpec::NeedMoreData
                    } else {
                        let name = text::lossy_chars(
                            buf.subrange(5 + nlen, 5 + nlen + v as int),
                        );
                        let trimmed = text::spec_trim(name);
                        if trimmed.len() == 0 {
                            HeaderReadSpec::Failed(ProtocolError::EmptyService)
                        } else {
                            HeaderReadSpec::Complete(kind, trimmed, 5 + nlen + v as int)
                        }
                    }
                },
            }
        }
    }
}

/// Frames a proxy stream header for `service` (trimmed before encoding).
pub fn encode_proxy_stream_header(kind: ProxyStreamKind, service: &str) -> (r: Result<
    Vec<u8>,
    ProtocolError,
>)
    ensures
        ({
            let b = vstd::utf8::encode_utf8(text::spec_trim(service@));
            &&& text::spec_trim(service@).len() == 0 ==> r == Result::<Vec<u8>, ProtocolError>::Err(
                ProtocolError::EmptyService,
            )
            &&& text::spec_trim(service@).len() > 0 && b.len() <= 0x7FFF_FFFF ==> (r matches Ok(
            v) && v@ == magic_for_kind(kind) + seq![1u8] + codec::spec_varint_bytes(b.len() as u32)
                + b)
            &&& b.len() > 0x7FFF_FFFF ==> r is Err
        }),
{
    let trimmed = text::trim_str(service);
    if trimmed.as_str().unicode_len() == 0 {
        proof {
            assert(text::spec_trim(service@).len() == 0);
        }
        return Err(ProtocolError::EmptyService);
    }
    let bytes = trimmed.as_str().as_bytes_vec();
    if bytes.len() > 0x7FFF_FFFFusize {
        return Err(ProtocolError::PayloadTooLarge(0x7FFF_FFFFu32));
    }
    let mut out: Vec<u8> = Vec::new();
    match kind {
        ProxyStreamKind::Tcp => {
            out.push(80);
            out.push(82);
            out.push(80);
            out.push(88);
        },
        ProxyStreamKind::Udp => {
            out.push(80);
            out.push(82);
            out.push(80);
            out.push(85);
        },
    }
    out.push(1);
    codec::write_varint(&mut out, bytes.len() as u32);
    let ghost mid = out@;
    let mut i: usize = 0;
    while i < bytes.len()
        invariant
            i <= bytes@.len(),
            out@ == mid + bytes@.subrange(0, i as int),
        decreases bytes@.len() - i,
    {
        out.push(bytes[i]);
        proof {
            assert(out@ =~= mid + bytes@.subrange(0, i as int + 1));
        }
        i = i + 1;
    }
    proof {
        assert(bytes@.subrange(0, bytes@.len() as int) =~= bytes@);
        assert(out@ =~= magic_for_kind(kind) + seq![1u8] + codec::spec_varint_bytes(
            bytes@.len() as u32,
        ) + bytes@);
    }
    Ok(out)
}

/// Decodes a proxy stream header from the front of `buf`. The service name
/// is trimmed; an all-whitespace name is rejected.
pub fn decode_proxy_stream_header(buf: &Vec<u8>) -> (r: HeaderRead)
    ensures
        r.view_spec() == spec_decode_proxy_header(buf@),
{
    if buf.len() < 4 {
        return HeaderRead::NeedMoreData;
    }
    let is_tcp = buf[0] == 80 && buf[1] == 82 && buf[2] == 80 && buf[3] == 88;
    let is_udp = buf[0] == 80 && buf[1] == 82 && buf[2] == 80 && buf[3] == 85;
    proof {
        assert(is_tcp ==> buf@.subrange(0, 4) =~= magic_proxy_tcp());
        assert(is_udp ==> buf@.subrange(0, 4) =~= magic_proxy_udp());
        assert(buf@.subrange(0, 4) =~= magic_proxy_tcp() ==> is_tcp);
        assert(buf@.subrange(0, 4) =~= magic_proxy_udp() ==> is_udp);
    }
    if !is_tcp && !is_udp {
        return HeaderRead::Failed(ProtocolError::BadMagic);
    }
    let kind = if is_tcp {
        ProxyStreamKind::Tcp
    } else {
        ProxyStreamKind::Udp
    };
    if buf.len() < 5 {
        return HeaderRead::NeedMoreData;
    }
    if buf[4] != 1 {
        return HeaderRead::Failed(ProtocolError::BadVersion);
    }
    match codec::read_varint(buf, 5) {
        codec::VarIntResult::NeedMoreData => HeaderRead::NeedMoreData,
        codec::VarIntResult::Malformed => HeaderRead::Failed(ProtocolError::BadMagic),
        codec::VarIntResult::Complete(v, nlen) => {
            if v >= 0x8000_0000 {
                return HeaderRead::Failed(ProtocolError::BadMagic);
            }
            // nlen <= 5 and v < 2^31, so the additions below cannot overflow
            proof {
                codec::lemma_varint_complete_len(buf@, 5, v, nlen);
            }
            if buf.len() - 5 < nlen || buf.len() - 5 - nlen < v as usize {
                return HeaderRead::NeedMoreData;
            }
            let name_bytes = copy_bytes(buf, 5 + nlen, 5 + nlen + v as usize);
            let name = text::bytes_to_string_lossy(&name_bytes);
            let trimmed = text::trim_str(name.as_str());
            if trimmed.as_str().unicode_len() == 0 {
                return HeaderRead::Failed(ProtocolError::EmptyService);
            }
            HeaderRead::Complete(kind, trimmed, 5 + nlen + v as usize)
        },
    }
}

// ---------------------------------------------------------------------------
// Datagram framing: len(u32 BE) | payload(len), len <= 1 MiB.
// ---------------------------------------------------------------------------

/// What a datagram decode yields, at the specification level.
pub enum DatagramReadSpec {
    Complete(Seq<u8>, int),
    NeedMoreData,
    /// The frame exceeded the reader's buffer; the whole frame is consumed
    /// (drained) so the stream stays aligned.
    ShortBuffer(int),
    Failed(ProtocolError),
}

/// Outcome of decoding one framed datagram from a byte buffer.
pub enum DatagramRead {
    Complete(Vec<u8>, usize),
    NeedMoreData,
    ShortBuffer(usize),
    Failed(ProtocolError),
}

impl DatagramRead {
    pub open spec fn view_spec(&self) -> DatagramReadSpec {
        match self {
            DatagramRead::Complete(p, consumed) => DatagramReadSpec::Complete(
                p@,
                *consumed as int,
            ),
            DatagramRead::NeedMoreData => DatagramReadSpec::NeedMoreData,
            DatagramRead::ShortBuffer(consumed) => DatagramReadSpec::ShortBuffer(*consumed as int),
            DatagramRead::Failed(e) => DatagramReadSpec::Failed(*e),
        }
    }
}

pub open spec fn spec_datagram_bytes(payload: Seq<u8>) -> Seq<u8> {
    spec_u32_be(payload.len() as u32) + payload
}

/// Ground truth for datagram decoding against a reader buffer of `cap` bytes.
pub open spec fn spec_decode_datagram(buf: Seq<u8>, cap: int) -> DatagramReadSpec {
    if buf.len() < 4 {
        DatagramReadSpec::NeedMoreData
    } else {
        let n = spec_be_u32(buf[0], buf[1], buf[2], buf[3]);
        if n > MAX_DATAGRAM_BYTES {
            DatagramReadSpec::Failed(ProtocolError::PayloadTooLarge(n))
        } else if buf.len() < 4 + n {
            DatagramReadSpec::NeedMoreData
        } else if n > cap {
            DatagramReadSpec::ShortBuffer(4 + n as int)
        } else {
            DatagramReadSpec::Complete(buf.subrange(4, 4 + n as int), 4 + n as int)
        }
    }
}

/// Frames one datagram; payloads above 1 MiB are refused, so a writer can
/// only ever emit complete, in-bound frames.
pub fn encode_datagram(payload: &Vec<u8>) -> (r: Result<Vec<u8>, ProtocolError>)
    ensures
        payload@.len() <= MAX_DATAGRAM_BYTES ==> (r matches Ok(v) && v@ == spec_datagram_bytes(
            payload@,
        )),
        payload@.len() > MAX_DATAGRAM_BYTES ==> r is Err,
{
    if payload.len() > MAX_DATAGRAM_BYTES as usize {
        let n: u32 = if payload.len() >= 0xFFFF_FFFFusize {
            0xFFFF_FFFFu32
        } else {
            payload.len() as u32
        };
        return Err(ProtocolError::PayloadTooLarge(n));
    }
    let mut out: Vec<u8> = Vec::new();
    write_u32_be(&mut out, payload.len() as u32);
    let ghost mid = out@;
    let mut i: usize = 0;
    while i < payload.len()
        invariant
            i <= payload@.len(),
            out@ == mid + payload@.subrange(0, i as int),
        decreases payload@.len() - i,
    {
        out.push(payload[i]);
        proof {
            assert(out@ =~= mid + payload@.subrange(0, i as int + 1));
        }
        i = i + 1;
    }
    proof {
        assert(payload@.subrange(0, payload@.len() as int) =~= payload@);
        assert(out@ =~= spec_datagram_bytes(payload@));
    }
    Ok(out)
}

/// Decodes one framed datagram from the front of `buf`, for a reader whose
/// own buffer holds `cap` bytes.
pub fn decode_datagram(buf: &Vec<u8>, cap: usize) -> (r: DatagramRead)
    ensures
        r.view_spec() == spec_decode_datagram(buf@, cap as int),
{
    if buf.len() < 4 {
        return DatagramRead::NeedMoreData;
    }
    let n = read_u32_be(buf, 0);
    if n > MAX_DATAGRAM_BYTES {
        return DatagramRead::Failed(ProtocolError::PayloadTooLarge(n));
    }
    if buf.len() - 4 < n as usize {
        return DatagramRead::NeedMoreData;
    }
    if n as usize > cap {
        return DatagramRead::ShortBuffer(4 + n as usize);
    }
    let payload = copy_bytes(buf, 4, 4 + n as usize);
    DatagramRead::Complete(payload, 4 + n as usize)
}

// ---------------------------------------------------------------------------
// Registered services and the register request payload.
// ---------------------------------------------------------------------------

/// A reverse-tunneled service advertised by a client.
#[derive(Debug, Clone, PartialEq, Eq)]
pub struct RegisteredService {
    pub name: String,
    /// `tcp` or `udp`.
    pub proto: String,
    /// Address the owning client dials locally.
    pub local_addr: String,
    /// Reachable only as a `tunnel:<name>` upstream, never auto-exposed.
    pub route_only: bool,
    /// Bind expression for the auto-listener; empty to skip.
    pub remote_addr: String,
    /// Host label template for rewrite middlewares (`$1..$n` allowed).
    pub masquerade_host: String,
}

/// The plain-value shadow of a `RegisteredService`, used in specifications.
pub ghost struct SvcView {
    pub name: Seq<char>,
    pub proto: Seq<char>,
    pub local_addr: Seq<char>,
    pub route_only: bool,
    pub remote_addr: Seq<char>,
    pub masquerade_host: Seq<char>,
}

impl View for RegisteredService {
    type V = SvcView;

    open spec fn view(&self) -> SvcView {
        SvcView {
            name: self.name@,
            proto: self.proto@,
            local_addr: self.local_addr@,
            route_only: self.route_only,
            remote_addr: self.remote_addr@,
            masquerade_host: self.masquerade_host@,
        }
    }
}

/// The normal form of one service: trimmed fields, lowercased proto
/// (defaulting to `tcp`), lowercased masquerade host, and `remote_addr`
/// cleared for route-only services.
pub open spec fn spec_normalize_svc(v: SvcView) -> SvcView {
    SvcView {
        name: text::spec_trim(v.name),
        proto: if text::spec_trim_lower(v.proto).len() == 0 {
            "tcp"@
        } else {
            text::spec_trim_lower(v.proto)
        },
        local_addr: text::spec_trim(v.local_addr),
        route_only: v.route_only,
        remote_addr: if v.route_only {
            Seq::<char>::empty()
        } else {
            text::spec_trim(v.remote_addr)
        },
        masquerade_host: text::spec_trim_lower(v.masquerade_host),
    }
}

impl RegisteredService {
    /// Normalizes one service; `None` exactly when the name trims empty.
    pub fn normalize(self) -> (r: Option<RegisteredService>)
        ensures
            (r is None) == (text::spec_trim(self.name@).len() == 0),
            r matches Some(ns) ==> ns@ == spec_normalize_svc(self@),
    {
        let name = text::trim_str(self.name.as_str());
        if name.as_str().unicode_len() == 0 {
            return None;
        }
        let mut proto = text::trim_lower_str(self.proto.as_str());
        if proto.as_str().unicode_len() == 0 {
            proto = String::from_str("tcp");
        }
        let local_addr = text::trim_str(self.local_addr.as_str());
        let remote_addr = if self.route_only {
            String::new()
        } else {
            text::trim_str(self.remote_addr.as_str())
        };
        let masquerade_host = text::trim_lower_str(self.masquerade_host.as_str());
        Some(
            RegisteredService {
                name,
                proto,
                local_addr,
                route_only: self.route_only,
                remote_addr,
                masquerade_host,
            },
        )
    }
}

/// The JSON payload of a register frame, already parsed into plain values.
#[derive(Debug, Clone, PartialEq, Eq)]
pub struct RegisterRequest {
    /// Compared verbatim against the server's token; never normalized.
    pub token: String,
    pub services: Vec<RegisteredService>,
}

/// The normalized sequence: each service in order, normalized, with the
/// dropped ones (empty trimmed names) removed.
pub open spec fn spec_normalize_services(s: Seq<SvcView>) -> Seq<SvcView>
    decreases s.len(),
{
    if s.len() == 0 {
        Seq::empty()
    } else {
        let rest = spec_normalize_services(s.drop_first());
        if text::spec_trim(s.first().name).len() == 0 {
            rest
        } else {
            seq![spec_normalize_svc(s.first())] + rest
        }
    }
}

/// Normalizes every service of a register request in order, dropping the
/// ones whose names trim empty.
pub fn normalize_services(services: Vec<RegisteredService>) -> (r: Vec<RegisteredService>)
    ensures
        r@.map_values(|x: RegisteredService| x@) == spec_normalize_services(
            services@.map_values(|x: RegisteredService| x@),
        ),
{
    let mut out: Vec<RegisteredService> = Vec::new();
    let mut rest = services;
    let ghost all = rest@.map_values(|x: RegisteredService| x@);
    proof {
        assert(out@.map_values(|x: RegisteredService| x@) + spec_normalize_services(
            rest@.map_values(|x: RegisteredService| x@),
        ) =~= spec_normalize_services(all));
    }
    while rest.len() != 0
        invariant
            out@.map_values(|x: RegisteredService| x@) + spec_normalize_services(
                rest@.map_values(|x: RegisteredService| x@),
            ) == spec_normalize_services(all),
        decreases rest@.len(),
    {
        let ghost pre = rest@.map_values(|x: RegisteredService| x@);
        let s = rest.remove(0);
        proof {
            assert(pre.drop_first() =~= rest@.map_values(|x: RegisteredService| x@));
            assert(pre.first() == s@);
        }
        let ghost out_pre = out@.map_values(|x: RegisteredService| x@);
        match s.normalize() {
            Some(ns) => {
                out.push(ns);
                proof {
                    assert(out@.map_values(|x: RegisteredService| x@) =~= out_pre + seq![ns@]);
                    assert(out_pre + seq![spec_normalize_svc(pre.first())] + spec_normalize_services(
                        pre.drop_first(),
                    ) =~= out_pre + (seq![spec_normalize_svc(pre.first())] + spec_normalize_services(
                        pre.drop_first(),
                    )));
                }
            },
            None => {},
        }
    }
    proof {
        assert(out@.map_values(|x: RegisteredService| x@) + spec_normalize_services(
            rest@.map_values(|x: RegisteredService| x@),
        ) =~= out@.map_values(|x: RegisteredService| x@));
    }
    out
}

/// Whether a presented token is accepted: an empty (after trim) configured
/// token disables the check, otherwise the tokens must match exactly.
pub fn token_accepted(auth_token: &str, presented: &str) -> (r: bool)
    ensures
        r == (text::spec_trim(auth_token@).len() == 0 || auth_token@ == presented@),
{
    let t = text::trim_str(auth_token);
    if t.as_str().unicode_len() == 0 {
        true
    } else {
        text::str_eq(auth_token, presented)
    }
}

/// Datagram round trip: a frame written for `payload` reads back as exactly
/// `payload` when the reader's buffer is large enough, and as a short-buffer
/// report that still consumes the whole frame when it is not.
pub proof fn lemma_datagram_roundtrip(payload: Seq<u8>, tail: Seq<u8>, cap: int)
    requires
        payload.len() <= MAX_DATAGRAM_BYTES,
    ensures
        cap >= payload.len() ==> spec_decode_datagram(spec_datagram_bytes(payload) + tail, cap)
            == DatagramReadSpec::Complete(payload, 4 + payload.len() as int),
        cap < payload.len() ==> spec_decode_datagram(spec_datagram_bytes(payload) + tail, cap)
            == DatagramReadSpec::ShortBuffer(4 + payload.len() as int),
{
    let n = payload.len() as u32;
    let s = spec_datagram_bytes(payload) + tail;
    lemma_u32_be_roundtrip(n);
    assert(s[0] == spec_u32_be(n)[0]);
    assert(s[1] == spec_u32_be(n)[1]);
    assert(s[2] == spec_u32_be(n)[2]);
    assert(s[3] == spec_u32_be(n)[3]);
    assert(spec_be_u32(s[0], s[1], s[2], s[3]) == n);
    assert(s.subrange(4, 4 + n as int) =~= payload);
}

/// Wraps a tunnel stream that carries length-prefixed datagrams. The
/// framing itself is `encode_datagram` / `decode_datagram`; the stream I/O
/// belongs to the caller, who takes the carrier back with `into_inner`.
pub struct DatagramConn<RW> {
    pub inner: RW,
}

impl<RW> DatagramConn<RW> {
    /// Wraps a carrier stream.
    pub fn new(inner: RW) -> (r: DatagramConn<RW>)
        ensures
            r.inner == inner,
    {
        DatagramConn { inner }
    }

    /// Hands the carrier stream back.
    pub fn into_inner(self) -> (r: RW)
        ensures
            r == self.inner,
    {
        self.inner
    }
}

} // verus!
