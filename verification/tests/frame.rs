use airgap_xfer::error::Error;
use airgap_xfer::frame::{
    data_chunk_size, decode, encode, qr_byte_capacity, Kind, Payload, ENVELOPE_OVERHEAD, FAIL_HASH,
    ROLE_RECV,
};

fn roundtrip(p: Payload) {
    let b = encode(&p).unwrap();
    assert_eq!(decode(&b).unwrap(), p);
}

fn with_crc(mut head: Vec<u8>) -> Vec<u8> {
    let crc = crc32fast::hash(&head);
    head.extend_from_slice(&crc.to_be_bytes());
    head
}

#[test]
fn hello_probe_link_go_data_ack_fin_ok_fail_roundtrip() {
    roundtrip(Payload::Hello {
        protocol_ver: 1,
        role: ROLE_RECV,
    });
    roundtrip(Payload::Probe {
        id: 5,
        qr_version: 40,
        dwell_ms: 150,
        last: true,
    });
    roundtrip(Payload::Link {
        qr_version: 25,
        dwell_ms: 200,
        probe_loss: 33,
    });
    roundtrip(Payload::Go {
        basename: "project".into(),
        uncompressed_hint: 1000,
        compressed_size: 400,
        chunk_count: 3,
        sha256: [7u8; 32],
    });
    roundtrip(Payload::Data {
        seq: 99,
        chunk: vec![0, 1, 2, 255],
    });
    roundtrip(Payload::Ack {
        window_base: 32,
        bitmap: 0x8000_0001,
    });
    roundtrip(Payload::Fin { sha256: [9u8; 32] });
    roundtrip(Payload::Okay);
    roundtrip(Payload::Fail { reason: FAIL_HASH });
}

#[test]
fn drops_truncated_bad_magic_bad_crc_unknown_kind() {
    assert!(decode(&[]).is_err());
    assert!(decode(b"NO").is_err());
    let mut good = encode(&Payload::Okay).unwrap();
    let last = good.len() - 1;
    good[last] ^= 0xff;
    assert!(matches!(decode(&good), Err(Error::BadFrame)));
    good = encode(&Payload::Okay).unwrap();
    good[3] = 99; // kind
    assert!(decode(&good).is_err());
}

#[test]
fn chunk_size_is_capacity_minus_fourteen() {
    assert_eq!(qr_byte_capacity(10), 143);
    assert_eq!(qr_byte_capacity(15), 284);
    assert_eq!(qr_byte_capacity(20), 474);
    assert_eq!(qr_byte_capacity(25), 707);
    assert_eq!(qr_byte_capacity(30), 974);
    assert_eq!(qr_byte_capacity(40), 1655);
    assert_eq!(data_chunk_size(10), 143 - 14);
    assert_eq!(data_chunk_size(40), 1655 - 14);
}

#[test]
fn unsupported_versions_have_no_capacity() {
    for version in [0u8, 1, 9, 11, 39, 41, 255] {
        assert_eq!(qr_byte_capacity(version), 0);
        assert_eq!(data_chunk_size(version), 0);
    }
}

#[test]
fn an_ok_frame_has_exactly_these_bytes() {
    let head = vec![0x41, 0x58, 1, 8, 0, 0];
    let bytes = encode(&Payload::Okay).unwrap();
    assert_eq!(bytes.len(), ENVELOPE_OVERHEAD);
    assert_eq!(bytes, with_crc(head));
}

#[test]
fn an_ack_frame_is_big_endian() {
    let bytes = encode(&Payload::Ack {
        window_base: 0x0102_0304,
        bitmap: 0xa0b0_c0d0,
    })
    .unwrap();
    let head = vec![
        0x41, 0x58, 1, 6, 0, 8, 1, 2, 3, 4, 0xa0, 0xb0, 0xc0, 0xd0,
    ];
    assert_eq!(bytes, with_crc(head));
}

#[test]
fn a_go_frame_carries_a_length_prefixed_name() {
    let bytes = encode(&Payload::Go {
        basename: "é".into(),
        uncompressed_hint: 1,
        compressed_size: 2,
        chunk_count: 3,
        sha256: [4u8; 32],
    })
    .unwrap();
    let mut head = vec![0x41, 0x58, 1, 4, 0, 56, 0, 2, 0xc3, 0xa9];
    head.extend_from_slice(&1u64.to_be_bytes());
    head.extend_from_slice(&2u64.to_be_bytes());
    head.extend_from_slice(&3u32.to_be_bytes());
    head.extend_from_slice(&[4u8; 32]);
    assert_eq!(bytes, with_crc(head));
}

#[test]
fn a_go_frame_with_a_broken_name_is_dropped() {
    let mut head = vec![0x41, 0x58, 1, 4, 0, 55, 0, 1, 0xff];
    head.extend_from_slice(&[0u8; 52]);
    assert!(matches!(decode(&with_crc(head)), Err(Error::BadFrame)));
}

#[test]
fn a_go_frame_whose_name_length_lies_is_dropped() {
    let mut head = vec![0x41, 0x58, 1, 4, 0, 55, 0, 2, b'a'];
    head.extend_from_slice(&[0u8; 52]);
    assert!(matches!(decode(&with_crc(head)), Err(Error::BadFrame)));
}

#[test]
fn the_wrong_protocol_version_is_dropped() {
    let head = vec![0x41, 0x58, 2, 8, 0, 0];
    assert!(matches!(decode(&with_crc(head)), Err(Error::BadFrame)));
}

#[test]
fn an_unknown_kind_is_dropped_even_with_a_good_checksum() {
    let head = vec![0x41, 0x58, 1, 99, 0, 0];
    assert!(matches!(decode(&with_crc(head)), Err(Error::BadFrame)));
}

#[test]
fn a_probe_whose_last_byte_is_odd_reads_as_not_last() {
    let head = vec![0x41, 0x58, 1, 2, 0, 5, 3, 25, 0, 200, 7];
    assert_eq!(
        decode(&with_crc(head)).unwrap(),
        Payload::Probe {
            id: 3,
            qr_version: 25,
            dwell_ms: 200,
            last: false
        }
    );
}

#[test]
fn an_oversized_payload_is_refused() {
    let chunk = vec![0u8; 0x10000 - 4];
    assert!(matches!(
        encode(&Payload::Data { seq: 0, chunk }),
        Err(Error::BadFrame)
    ));
    let chunk = vec![0u8; 0xffff - 4];
    roundtrip(Payload::Data { seq: 0, chunk });
}

#[test]
fn different_payloads_are_framed_differently() {
    let a = encode(&Payload::Data { seq: 1, chunk: vec![0, 0, 0, 2] }).unwrap();
    let b = encode(&Payload::Ack { window_base: 1, bitmap: 2 }).unwrap();
    assert_ne!(a, b);
    assert_ne!(Payload::Okay, Payload::Fail { reason: 0 });
}

#[test]
fn kinds_and_their_codes() {
    for code in 1u8..=9 {
        assert_eq!(Kind::from_u8(code).unwrap().as_u8(), code);
    }
    assert!(Kind::from_u8(0).is_none());
    assert!(Kind::from_u8(10).is_none());
    assert_eq!(Kind::Okay.as_u8(), 8);
}

#[test]
fn error_lines() {
    assert_eq!(
        Error::Stalled(vec![3, 17]).message(),
        "stalled: missing seqs [3, 17]"
    );
    assert_eq!(
        Error::DestExists("out/x".into()).message(),
        "destination exists: out/x (use --force)"
    );
    assert_eq!(
        Error::HandshakeTimeout.message(),
        "point the other webcam at this terminal"
    );
    assert_eq!(Error::HandshakeFailed.message(), "handshake failed");
    assert_eq!(
        Error::NoUsableProbe.message(),
        "no usable QR version (lighting, distance, or font)"
    );
    assert_eq!(Error::Camera("x".into()).message(), "camera: x");
    assert_eq!(Error::EmptyArchive.message(), "empty archive");
    assert_eq!(Error::HashMismatch.message(), "hash mismatch");
    assert_eq!(Error::BadFrame.message(), "bad frame");
    assert_eq!(Error::Message("boom".into()).message(), "boom");
    assert_eq!(
        Error::Io {
            disk_full: false,
            text: "nope".into()
        }
        .message(),
        "I/O: nope"
    );
}
