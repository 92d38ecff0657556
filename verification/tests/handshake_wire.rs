//! Wire-level tests of the handshake codec across the three generations,
//! against conserved historical byte sequences.

use net_handshake::addr::NetAddr;
use net_handshake::codec::{
    decode_message, decode_message_legacy, encode_handshake, encode_handshake_legacy,
    encode_payload_frame, DecodedMessage, Handshake, LegacyHandshake,
};
use net_handshake::cert::{ConnectionId, ConsensusCertificate, ConsensusKeyPair};
use net_handshake::hex::hex_decode;
use net_handshake::version::ProtocolVersion;

use std::sync::Arc;

/// A "conserved" first-generation handshake, based on mainnet data.
fn v1_0_0_handshake() -> Vec<u8> {
    vec![
        129, 0, 146, 178, 115, 101, 114, 105, 97, 108, 105, 122, 97, 116, 105, 111, 110, 45, 116,
        101, 115, 116, 177, 49, 50, 46, 51, 52, 46, 53, 54, 46, 55, 56, 58, 49, 50, 51, 52, 54,
    ]
}

/// A "conserved" 1.4.2-generation handshake, based on testnet data; its
/// certificate hex uses the checksummed mixed-case scheme.
fn v1_4_2_handshake() -> Vec<u8> {
    vec![
        129, 0, 148, 177, 101, 120, 97, 109, 112, 108, 101, 45, 104, 97, 110, 100, 115, 104, 97,
        107, 101, 177, 49, 50, 46, 51, 52, 46, 53, 54, 46, 55, 56, 58, 49, 50, 51, 52, 54, 165, 49,
        46, 52, 46, 50, 146, 217, 68, 48, 50, 48, 50, 56, 51, 99, 48, 68, 54, 56, 55, 57, 51, 51,
        69, 98, 50, 48, 97, 53, 52, 49, 67, 56, 53, 52, 48, 52, 55, 56, 56, 55, 55, 56, 54, 49,
        101, 100, 69, 52, 65, 70, 102, 65, 102, 48, 52, 97, 54, 56, 101, 97, 49, 57, 52, 66, 55,
        65, 52, 48, 48, 52, 54, 52, 50, 52, 101, 217, 130, 48, 50, 99, 68, 70, 65, 51, 51, 51, 99,
        49, 56, 56, 57, 51, 100, 57, 102, 51, 54, 48, 51, 53, 97, 51, 98, 55, 55, 48, 50, 51, 52,
        56, 97, 67, 102, 70, 48, 70, 68, 53, 65, 50, 65, 69, 57, 99, 66, 67, 48, 69, 52, 56, 69,
        53, 57, 100, 100, 48, 56, 53, 53, 56, 49, 97, 54, 48, 49, 53, 57, 66, 55, 102, 99, 67, 99,
        53, 52, 68, 68, 48, 70, 65, 57, 52, 52, 51, 100, 50, 69, 51, 53, 55, 51, 51, 55, 56, 68,
        54, 49, 69, 97, 49, 54, 101, 54, 53, 57, 68, 49, 54, 100, 48, 48, 48, 57, 65, 52, 48, 66,
        55, 55, 53, 48, 66, 67, 67, 69, 65, 69,
    ]
}

/// A pseudo-first-generation handshake whose address was written in the
/// compact form instead of text; it must not match the real one.
fn broken_v1_0_0_handshake() -> Vec<u8> {
    vec![
        129, 0, 146, 178, 115, 101, 114, 105, 97, 108, 105, 122, 97, 116, 105, 111, 110, 45, 116,
        101, 115, 116, 129, 0, 146, 148, 12, 34, 56, 78, 205, 48, 58,
    ]
}

fn test_addr() -> NetAddr {
    NetAddr { oct0: 12, oct1: 34, oct2: 56, oct3: 78, port: 12346 }
}

fn test_key_pair(seed: u8) -> ConsensusKeyPair {
    let secret = casper_types::SecretKey::ed25519_from_bytes([seed; 32]).unwrap();
    ConsensusKeyPair::new(Arc::new(secret)).unwrap()
}

fn test_certificate(seed: u8, conn: &[u8]) -> ConsensusCertificate {
    let key_pair = test_key_pair(seed);
    let connection_id = ConnectionId::new(conn.to_vec());
    ConsensusCertificate::create(&connection_id, &key_pair)
}

#[test]
fn v1_0_0_handshake_is_as_expected() {
    let handshake = LegacyHandshake {
        network_name: "serialization-test".as_bytes().to_vec(),
        public_addr: test_addr(),
    };

    let serialized = encode_handshake_legacy(&handshake);

    assert_eq!(&serialized, &v1_0_0_handshake());
    assert_ne!(&serialized, &broken_v1_0_0_handshake());

    let deserialized = decode_message_legacy(&serialized).unwrap();

    match deserialized {
        Some(legacy) => {
            assert_eq!(legacy.network_name, "serialization-test".as_bytes().to_vec());
            assert_eq!(legacy.public_addr, test_addr());
        }
        other => {
            panic!("did not expect {:?} as the deserialized product", other);
        }
    }
}

#[test]
fn v1_0_0_can_decode_current_handshake() {
    let modern_handshake = Handshake {
        network_name: "example-handshake".as_bytes().to_vec(),
        public_addr: test_addr(),
        protocol_version: ProtocolVersion::from_parts(5, 6, 7),
        consensus_certificate: Some(test_certificate(7, b"conn-one")),
    };

    let serialized = encode_handshake(&modern_handshake);
    let legacy_handshake = decode_message_legacy(&serialized).unwrap();

    match legacy_handshake {
        Some(legacy) => {
            assert_eq!(legacy.network_name, "example-handshake".as_bytes().to_vec());
            assert_eq!(legacy.public_addr, test_addr());
        }
        None => {
            panic!("did not expect legacy handshake to deserialize to payload")
        }
    }
}

#[test]
fn current_handshake_decodes_from_v1_0_0() {
    let legacy_handshake = LegacyHandshake {
        network_name: "example-handshake".as_bytes().to_vec(),
        public_addr: test_addr(),
    };

    let serialized = encode_handshake_legacy(&legacy_handshake);
    let modern_handshake = decode_message(&serialized).unwrap();

    match modern_handshake {
        DecodedMessage::Handshake(h) => {
            assert_eq!(h.network_name, "example-handshake".as_bytes().to_vec());
            assert_eq!(h.public_addr, test_addr());
            assert_eq!(h.protocol_version, ProtocolVersion::v1_0_0());
            assert!(h.consensus_certificate.is_none());
        }
        DecodedMessage::Payload(_) => {
            panic!("did not expect modern handshake to deserialize to payload")
        }
    }
}

#[test]
fn current_handshake_decodes_from_historic_v1_0_0() {
    let modern_handshake = decode_message(&v1_0_0_handshake()).unwrap();

    match modern_handshake {
        DecodedMessage::Handshake(h) => {
            assert_eq!(h.network_name, "serialization-test".as_bytes().to_vec());
            assert_eq!(h.public_addr, test_addr());
            assert_eq!(h.protocol_version, ProtocolVersion::v1_0_0());
            assert!(h.consensus_certificate.is_none());
        }
        DecodedMessage::Payload(_) => {
            panic!("did not expect modern handshake to deserialize to payload")
        }
    }
}

#[test]
fn current_handshake_decodes_from_historic_v1_4_2() {
    let modern_handshake = decode_message(&v1_4_2_handshake()).unwrap();

    match modern_handshake {
        DecodedMessage::Handshake(h) => {
            assert_eq!(h.network_name, "example-handshake".as_bytes().to_vec());
            assert_eq!(h.public_addr, test_addr());
            assert_eq!(h.protocol_version, ProtocolVersion::from_parts(1, 4, 2));
            let cert = h.consensus_certificate.unwrap();

            let expected_public_key = hex_decode(
                &"020283c0d687933eb20a541c8540478877861ede4affaf04a68ea194b7a40046424e"
                    .as_bytes()
                    .to_vec(),
            )
            .unwrap();
            assert_eq!(cert.public_key, expected_public_key);

            let expected_signature = hex_decode(
                &"02cdfa333c18893d9f36035a3b7702348acff0fd5a2ae9cbc0e48e59dd085581a60159b7fccc54dd0fa9443d2e3573378d61ea16e659d16d0009a40b7750bcceae"
                    .as_bytes()
                    .to_vec(),
            )
            .unwrap();
            assert_eq!(cert.signature, expected_signature);
        }
        DecodedMessage::Payload(_) => {
            panic!("did not expect modern handshake to deserialize to payload")
        }
    }
}

#[test]
fn full_handshake_round_trip() {
    let modern_handshake = Handshake {
        network_name: "round-trip-net".as_bytes().to_vec(),
        public_addr: NetAddr { oct0: 203, oct1: 0, oct2: 113, oct3: 5, port: 65535 },
        protocol_version: ProtocolVersion::from_parts(2, 0, 0),
        consensus_certificate: Some(test_certificate(9, b"conn-two")),
    };

    let serialized = encode_handshake(&modern_handshake);
    let decoded = decode_message(&serialized).unwrap();

    match decoded {
        DecodedMessage::Handshake(h) => assert_eq!(h, modern_handshake),
        DecodedMessage::Payload(_) => panic!("round trip must stay a handshake"),
    }
}

#[test]
fn payload_frame_round_trips() {
    let payload_bytes = vec![0x93u8, 1, 2, 3];
    let framed = encode_payload_frame(&payload_bytes);
    match decode_message(&framed).unwrap() {
        DecodedMessage::Payload(p) => assert_eq!(p, payload_bytes),
        DecodedMessage::Handshake(_) => panic!("a payload frame must decode to a payload"),
    }
}

#[test]
fn bytes_after_the_known_fields_are_ignored() {
    // A future generation may append fields; today's reader must not choke
    // on what follows the ones it knows.
    let modern_handshake = Handshake {
        network_name: "future-net".as_bytes().to_vec(),
        public_addr: test_addr(),
        protocol_version: ProtocolVersion::from_parts(3, 1, 4),
        consensus_certificate: None,
    };
    let mut bytes = encode_handshake(&modern_handshake);
    bytes[2] = 0x95;
    bytes.push(0xa1);
    bytes.push(0x7a);
    match decode_message(&bytes).unwrap() {
        DecodedMessage::Handshake(h) => assert_eq!(h, modern_handshake),
        DecodedMessage::Payload(_) => panic!("expected a handshake"),
    }
}

#[test]
fn empty_payload_frame_decodes() {
    match decode_message(&vec![0x81, 0x01]).unwrap() {
        DecodedMessage::Payload(p) => assert!(p.is_empty()),
        DecodedMessage::Handshake(_) => panic!("expected a payload"),
    }
}

#[test]
fn certificate_hex_that_is_no_key_is_rejected_on_the_wire() {
    // The hex decodes, but its bytes spell no real key: the handshake is a
    // decode error, not an accepted value carrying a garbage certificate.
    let handshake = Handshake {
        network_name: "garbage-cert-net".as_bytes().to_vec(),
        public_addr: test_addr(),
        protocol_version: ProtocolVersion::from_parts(2, 0, 0),
        consensus_certificate: Some(ConsensusCertificate {
            public_key: vec![0xab, 0xcd],
            signature: vec![0xab, 0xcd],
        }),
    };
    let bytes = encode_handshake(&handshake);
    assert!(decode_message(&bytes).is_err());
}

#[test]
fn malformed_wire_shapes_are_rejected() {
    // Empty input, a wrong map header, an unknown variant, a short array.
    assert!(decode_message(&vec![]).is_err());
    assert!(decode_message(&vec![0x82, 0x00]).is_err());
    assert!(decode_message(&vec![0x81, 0x02]).is_err());
    assert!(decode_message(&vec![0x81, 0x00, 0x91, 0xa1, 0x61]).is_err());
    // A truncated text field.
    assert!(decode_message(&vec![0x81, 0x00, 0x92, 0xa5, 0x61]).is_err());
    // Address text that is not four dotted octets and a port.
    assert!(
        decode_message(&vec![0x81, 0x00, 0x92, 0xa1, 0x6e, 0xa3, 0x62, 0x61, 0x64]).is_err()
    );
    // A version field that is not three dot-separated numbers.
    let legacy = LegacyHandshake {
        network_name: "n".as_bytes().to_vec(),
        public_addr: test_addr(),
    };
    let mut bytes = encode_handshake_legacy(&legacy);
    bytes[2] = 0x93;
    bytes.push(0xa1);
    bytes.push(0x78);
    assert!(decode_message(&bytes).is_err());
}

#[test]
fn version_and_certificate_default_when_three_fields() {
    // Three fields: name, address, version; no certificate on the wire.
    let legacy = LegacyHandshake {
        network_name: "three-fields".as_bytes().to_vec(),
        public_addr: test_addr(),
    };
    let mut bytes = encode_handshake_legacy(&legacy);
    bytes[2] = 0x93;
    bytes.push(0xa5);
    bytes.extend_from_slice("9.8.7".as_bytes());
    match decode_message(&bytes).unwrap() {
        DecodedMessage::Handshake(h) => {
            assert_eq!(h.protocol_version, ProtocolVersion::from_parts(9, 8, 7));
            assert!(h.consensus_certificate.is_none());
        }
        DecodedMessage::Payload(_) => panic!("expected a handshake"),
    }
}
