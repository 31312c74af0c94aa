use prism::codec::{self, HandshakeParse, VarIntResult};
use prism::net::normalize_bind_addr;
use prism::wire::{
    self, DatagramRead, HeaderRead, ProxyStreamKind, RegisterFrameRead, RegisteredService,
};

fn build_handshake(host: &str, port: u16, proto_ver: u32, next_state: u32) -> Vec<u8> {
    let mut inner = Vec::new();
    codec::write_varint(&mut inner, 0); // packet id
    codec::write_varint(&mut inner, proto_ver);
    codec::write_varint(&mut inner, host.len() as u32);
    inner.extend_from_slice(host.as_bytes());
    inner.extend_from_slice(&port.to_be_bytes());
    codec::write_varint(&mut inner, next_state);

    let mut out = Vec::new();
    codec::write_varint(&mut out, inner.len() as u32);
    out.extend_from_slice(&inner);
    out
}

#[test]
fn normalize_bind_addr_port_only() {
    assert_eq!(normalize_bind_addr(":8080").as_str(), "0.0.0.0:8080");
    assert_eq!(normalize_bind_addr(" :7000 ").as_str(), "0.0.0.0:7000");
}

#[test]
fn normalize_bind_addr_passthrough() {
    assert_eq!(normalize_bind_addr("127.0.0.1:8080").as_str(), "127.0.0.1:8080");
    assert_eq!(normalize_bind_addr("[::]:8080").as_str(), "[::]:8080");
}

#[test]
fn varint_roundtrip_small_and_large() {
    for v in [0u32, 1, 127, 128, 300, 25565, 0x7FFF_FFFF] {
        let mut buf = Vec::new();
        codec::write_varint(&mut buf, v);
        assert!(buf.len() <= 5);
        match codec::read_varint(&buf, 0) {
            VarIntResult::Complete(got, n) => {
                assert_eq!(got, v);
                assert_eq!(n, buf.len());
            }
            other => panic!("expected complete varint, got {:?}", other),
        }
    }
}

#[test]
fn varint_reports_need_more_and_malformed() {
    let partial = vec![0x80u8];
    assert!(matches!(codec::read_varint(&partial, 0), VarIntResult::NeedMoreData));
    // five continuation bytes already decide, with or without a sixth byte
    let five_cont = vec![0x80u8; 5];
    assert!(matches!(codec::read_varint(&five_cont, 0), VarIntResult::Malformed));
    let six = vec![0x80u8; 6];
    assert!(matches!(codec::read_varint(&six, 0), VarIntResult::Malformed));
    assert_eq!(codec::decode_varint_prefix(&partial), Ok(None));
    assert!(codec::decode_varint_prefix(&five_cont).is_err());
    assert_eq!(codec::decode_varint_prefix(&vec![5u8]), Ok(Some((5, 1))));
}

#[test]
fn handshake_parses_and_normalizes_host() {
    let data = build_handshake("Play.Example.Com", 25565, 763, 1);
    match codec::parse_handshake(&data, 262144) {
        HandshakeParse::Complete(m) => {
            assert_eq!(m.host.as_str(), "play.example.com");
            assert_eq!(m.port, 25565);
            assert_eq!(m.protocol_version, 763);
            assert_eq!(m.next_state, 1);
            assert_eq!(m.frame_len, data.len());
        }
        other => panic!("expected complete parse, got need-more={:?}", matches!(other, HandshakeParse::NeedMoreData)),
    }
}

#[test]
fn handshake_needs_more_data_on_every_prefix() {
    let data = build_handshake("play.example.com", 25565, 763, 1);
    for i in 0..data.len() {
        let prefix = data[..i].to_vec();
        assert!(
            matches!(codec::parse_handshake(&prefix, 262144), HandshakeParse::NeedMoreData),
            "prefix of {} bytes should need more data",
            i
        );
    }
}

#[test]
fn mc_handshake_port_reads_port_field() {
    let data = build_handshake("play.example.com", 19132, 763, 2);
    assert_eq!(codec::mc_handshake_port(&data, 262144), Some(19132));
    assert_eq!(codec::mc_handshake_port(&Vec::new(), 262144), None);
}

#[test]
fn datagram_roundtrip_exact_payload() {
    let payload = b"HELLO".to_vec();
    let frame = wire::encode_datagram(&payload).expect("frame");
    assert_eq!(&frame[..4], &(5u32.to_be_bytes()));
    match wire::decode_datagram(&frame, 65536) {
        DatagramRead::Complete(got, consumed) => {
            assert_eq!(got, payload);
            assert_eq!(consumed, frame.len());
        }
        _ => panic!("expected complete datagram"),
    }
}

#[test]
fn datagram_short_buffer_drains_whole_frame() {
    let payload = vec![7u8; 100];
    let frame = wire::encode_datagram(&payload).expect("frame");
    match wire::decode_datagram(&frame, 10) {
        DatagramRead::ShortBuffer(consumed) => assert_eq!(consumed, frame.len()),
        _ => panic!("expected short-buffer report"),
    }
}

#[test]
fn datagram_rejects_oversize_payload() {
    let payload = vec![0u8; (wire::MAX_DATAGRAM_BYTES as usize) + 1];
    assert!(wire::encode_datagram(&payload).is_err());
}

#[test]
fn register_frame_roundtrip() {
    let json = br#"{"token":"t","services":[]}"#.to_vec();
    let frame = wire::encode_register_frame(&json).expect("frame");
    match wire::decode_register_frame(&frame) {
        RegisterFrameRead::Complete(got, consumed) => {
            assert_eq!(got, json);
            assert_eq!(consumed, frame.len());
        }
        _ => panic!("expected complete register frame"),
    }
}

#[test]
fn register_rejects_too_large_length_without_reading_payload() {
    let mut frame = Vec::new();
    frame.extend_from_slice(b"PRRG");
    frame.push(1);
    frame.extend_from_slice(&(wire::MAX_REGISTER_JSON_BYTES + 1).to_be_bytes());
    // no payload present at all
    match wire::decode_register_frame(&frame) {
        RegisterFrameRead::Failed(wire::ProtocolError::PayloadTooLarge(n)) => {
            assert!(n > wire::MAX_REGISTER_JSON_BYTES);
        }
        other => panic!(
            "unexpected outcome: failed={:?}",
            matches!(other, RegisterFrameRead::Failed(_))
        ),
    }
}

#[test]
fn register_frame_rejects_bad_magic_and_version() {
    let mut frame = Vec::new();
    frame.extend_from_slice(b"XXXX");
    frame.push(1);
    frame.extend_from_slice(&0u32.to_be_bytes());
    assert!(matches!(
        wire::decode_register_frame(&frame),
        RegisterFrameRead::Failed(wire::ProtocolError::BadMagic)
    ));
    let mut frame2 = Vec::new();
    frame2.extend_from_slice(b"PRRG");
    frame2.push(9);
    frame2.extend_from_slice(&0u32.to_be_bytes());
    assert!(matches!(
        wire::decode_register_frame(&frame2),
        RegisterFrameRead::Failed(wire::ProtocolError::BadVersion)
    ));
}

#[test]
fn proxy_header_roundtrip_trims_service() {
    let frame = wire::encode_proxy_stream_header(ProxyStreamKind::Tcp, "  svc  ").expect("header");
    match wire::decode_proxy_stream_header(&frame) {
        HeaderRead::Complete(kind, svc, consumed) => {
            assert_eq!(kind, ProxyStreamKind::Tcp);
            assert_eq!(svc.as_str(), "svc");
            assert_eq!(consumed, frame.len());
        }
        _ => panic!("expected complete header"),
    }
}

#[test]
fn proxy_header_rejects_empty_service() {
    assert!(matches!(
        wire::encode_proxy_stream_header(ProxyStreamKind::Udp, "   "),
        Err(wire::ProtocolError::EmptyService)
    ));
}

#[test]
fn register_roundtrip_normalizes_services() {
    let services = vec![
        RegisteredService {
            name: "  svc1 ".to_string(),
            proto: "".to_string(),
            local_addr: " 127.0.0.1:25565 ".to_string(),
            route_only: false,
            remote_addr: " 127.0.0.1:0 ".to_string(),
            masquerade_host: "  $1.edge.internal  ".to_string(),
        },
        RegisteredService {
            name: "   ".to_string(),
            proto: "tcp".to_string(),
            local_addr: "x".to_string(),
            route_only: false,
            remote_addr: "".to_string(),
            masquerade_host: "".to_string(),
        },
        RegisteredService {
            name: "svc2".to_string(),
            proto: "UDP".to_string(),
            local_addr: " 127.0.0.1:19132 ".to_string(),
            route_only: true,
            remote_addr: "127.0.0.1:9999".to_string(),
            masquerade_host: "svc2.internal".to_string(),
        },
    ];

    let got = wire::normalize_services(services);

    assert_eq!(got.len(), 2);
    assert_eq!(got[0].name, "svc1");
    assert_eq!(got[0].proto, "tcp");
    assert_eq!(got[0].local_addr, "127.0.0.1:25565");
    assert_eq!(got[0].remote_addr, "127.0.0.1:0");
    assert_eq!(got[0].masquerade_host, "$1.edge.internal");

    assert_eq!(got[1].name, "svc2");
    assert_eq!(got[1].proto, "udp");
    assert!(got[1].route_only);
    // route_only clears remote_addr
    assert_eq!(got[1].remote_addr, "");
    assert_eq!(got[1].masquerade_host, "svc2.internal");
}

#[test]
fn token_check_disabled_when_configured_token_empty() {
    assert!(wire::token_accepted("  ", "anything"));
    assert!(wire::token_accepted("secret", "secret"));
    assert!(!wire::token_accepted("secret", "wrong"));
}

#[test]
fn handshake_rejects_wrong_packet_id() {
    let mut inner = Vec::new();
    codec::write_varint(&mut inner, 9); // not the handshake packet id
    codec::write_varint(&mut inner, 763);
    let mut data = Vec::new();
    codec::write_varint(&mut data, inner.len() as u32);
    data.extend_from_slice(&inner);
    assert!(matches!(
        codec::parse_handshake(&data, 262144),
        HandshakeParse::Malformed
    ));
}

#[test]
fn varint_malformed_without_sixth_byte() {
    // five continuation bytes decide on their own: frames carrying such a
    // prefix are rejected rather than waited on
    let mut frame = Vec::new();
    frame.extend_from_slice(b"PRPX");
    frame.push(1);
    frame.extend_from_slice(&[0x80; 5]);
    assert!(matches!(
        wire::decode_proxy_stream_header(&frame),
        HeaderRead::Failed(wire::ProtocolError::BadMagic)
    ));
}
