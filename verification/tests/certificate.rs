//! Certificate tests: round trips through both wire forms, hex-case
//! tolerance, and the anti-replay binding to one connection.

use net_handshake::cert::{
    ConnectionId, ConsensusCertificate, ConsensusKeyPair, HumanReadableCertificate,
};
use net_handshake::hex::{hex_decode, hex_encode};

use std::sync::Arc;

fn test_key_pair(seed: u8) -> ConsensusKeyPair {
    let secret = casper_types::SecretKey::ed25519_from_bytes([seed; 32]).unwrap();
    ConsensusKeyPair::new(Arc::new(secret)).unwrap()
}

fn test_certificate(seed: u8, conn: &[u8]) -> ConsensusCertificate {
    let key_pair = test_key_pair(seed);
    let connection_id = ConnectionId::new(conn.to_vec());
    ConsensusCertificate::create(&connection_id, &key_pair)
}

#[test]
fn serde_json_roundtrip_certificate() {
    let certificate = test_certificate(42, b"roundtrip-conn");
    let human_readable = certificate.to_human_readable();
    let deserialized = ConsensusCertificate::from_human_readable(&human_readable).unwrap();
    assert_eq!(certificate, deserialized);
}

#[test]
fn bincode_roundtrip_certificate() {
    let certificate = test_certificate(43, b"roundtrip-conn");
    let serialized = certificate.to_binary();
    let deserialized = ConsensusCertificate::from_binary(&serialized).unwrap();
    assert_eq!(certificate, deserialized);
}

#[test]
fn human_readable_form_is_lowercase_hex() {
    let certificate = test_certificate(44, b"hex-conn");
    let human_readable = certificate.to_human_readable();
    for b in human_readable.public_key.iter().chain(human_readable.signature.iter()) {
        assert!(b.is_ascii_digit() || (b'a'..=b'f').contains(b));
    }
    assert_eq!(
        human_readable.public_key,
        hex_encode(&certificate.public_key)
    );
}

#[test]
fn checksummed_mixed_case_hex_decodes_like_lowercase() {
    // The same certificate written with checksummed mixed-case hex and with
    // plain lowercase hex must decode to the same logical value.
    let mixed = HumanReadableCertificate {
        public_key: "020283c0D687933Eb20a541C8540478877861edE4AFfAf04a68ea194B7A40046424e"
            .as_bytes()
            .to_vec(),
        signature: "02cDFA333c18893d9f36035a3b7702348aCfF0FD5A2AE9cBC0E48E59dd085581a60159B7fcCc54DD0FA9443d2E3573378D61Ea16e659D16d0009A40B7750BCCEAE"
            .as_bytes()
            .to_vec(),
    };
    let lower = HumanReadableCertificate {
        public_key: mixed.public_key.to_ascii_lowercase(),
        signature: mixed.signature.to_ascii_lowercase(),
    };
    let from_mixed = ConsensusCertificate::from_human_readable(&mixed).unwrap();
    let from_lower = ConsensusCertificate::from_human_readable(&lower).unwrap();
    assert_eq!(from_mixed, from_lower);
}

#[test]
fn malformed_hex_is_rejected() {
    // An odd length and a byte that is no hex digit.
    let odd = HumanReadableCertificate {
        public_key: "abc".as_bytes().to_vec(),
        signature: "ab".as_bytes().to_vec(),
    };
    assert!(ConsensusCertificate::from_human_readable(&odd).is_err());
    let bad_digit = HumanReadableCertificate {
        public_key: "ab".as_bytes().to_vec(),
        signature: "zz".as_bytes().to_vec(),
    };
    assert!(ConsensusCertificate::from_human_readable(&bad_digit).is_err());
}

#[test]
fn hex_that_is_no_key_is_rejected() {
    // Valid hex, but the bytes spell no real key or signature: a decode
    // error, never an accepted certificate.
    let hr = HumanReadableCertificate {
        public_key: "abcd".as_bytes().to_vec(),
        signature: "abcd".as_bytes().to_vec(),
    };
    assert!(ConsensusCertificate::from_human_readable(&hr).is_err());
}

#[test]
fn binary_that_is_no_key_is_rejected() {
    let garbage = ConsensusCertificate {
        public_key: vec![0xab, 0xcd],
        signature: vec![0xab, 0xcd],
    };
    assert!(ConsensusCertificate::from_binary(&garbage.to_binary()).is_err());
}

#[test]
fn key_bytes_with_a_trailing_byte_fail_validation() {
    let key_pair = test_key_pair(50);
    let connection_id = ConnectionId::new(b"trailing-conn".to_vec());
    let mut certificate = ConsensusCertificate::create(&connection_id, &key_pair);
    certificate.public_key.push(0);
    assert!(certificate.validate(&connection_id).is_err());
}

#[test]
fn malformed_binary_is_rejected() {
    // Too short, and a length prefix pointing past the end.
    assert!(ConsensusCertificate::from_binary(&vec![1, 2, 3]).is_err());
    let mut bytes = vec![0u8; 16];
    bytes[0] = 200;
    assert!(ConsensusCertificate::from_binary(&bytes).is_err());
    // Trailing garbage after the two fields.
    let good = test_certificate(45, b"bin-conn");
    let mut serialized = good.to_binary();
    serialized.push(0);
    assert!(ConsensusCertificate::from_binary(&serialized).is_err());
}

#[test]
fn certificate_validates_for_its_own_connection() {
    let key_pair = test_key_pair(46);
    let connection_id = ConnectionId::new(b"the-one-connection".to_vec());
    let certificate = ConsensusCertificate::create(&connection_id, &key_pair);
    let public_key = certificate.validate(&connection_id).unwrap();
    assert_eq!(&public_key, key_pair.public_key_bytes());
}

#[test]
fn certificate_fails_for_another_connection() {
    // The anti-replay property: a certificate created for connection A is
    // cryptographically unusable on connection B.
    let key_pair = test_key_pair(47);
    let conn_a = ConnectionId::new(b"connection-a".to_vec());
    let conn_b = ConnectionId::new(b"connection-b".to_vec());
    let certificate = ConsensusCertificate::create(&conn_a, &key_pair);
    assert!(certificate.validate(&conn_b).is_err());
}

#[test]
fn tampered_certificate_fails_validation() {
    let key_pair = test_key_pair(48);
    let connection_id = ConnectionId::new(b"tamper-conn".to_vec());
    let mut certificate = ConsensusCertificate::create(&connection_id, &key_pair);
    let last = certificate.signature.len() - 1;
    certificate.signature[last] ^= 0x01;
    assert!(certificate.validate(&connection_id).is_err());
}

#[test]
fn key_pair_exposes_tagged_public_key_bytes() {
    let secret = casper_types::SecretKey::ed25519_from_bytes([49u8; 32]).unwrap();
    let public = casper_types::PublicKey::from(&secret);
    let expected = casper_types::bytesrepr::ToBytes::to_bytes(&public).unwrap();
    let key_pair = ConsensusKeyPair::new(Arc::new(secret)).unwrap();
    assert_eq!(key_pair.public_key_bytes(), &expected);
}

#[test]
fn system_key_yields_no_key_pair() {
    assert!(ConsensusKeyPair::new(Arc::new(casper_types::SecretKey::System)).is_none());
}

#[test]
fn hex_codec_exact_values() {
    let bytes = vec![0x00u8, 0x0f, 0xa5, 0xff];
    let text = hex_encode(&bytes);
    assert_eq!(text, "000fa5ff".as_bytes().to_vec());
    assert_eq!(hex_decode(&text).unwrap(), bytes);
    assert_eq!(hex_decode(&"000FA5FF".as_bytes().to_vec()).unwrap(), bytes);
    assert!(hex_decode(&"0g".as_bytes().to_vec()).is_none());
    assert!(hex_decode(&"0".as_bytes().to_vec()).is_none());
}
