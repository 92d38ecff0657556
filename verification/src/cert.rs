//! Consensus certificates: a signature over a connection identifier,
//! proving that the signer controls a validator key on this one connection.
//!
//! Keys and signatures are carried as their tagged byte form (one algorithm
//! tag byte, then the key or signature bytes). On a self-describing wire a
//! certificate travels as two lowercase hex strings; on a compact wire as
//! two length-prefixed byte strings.

use vstd::prelude::*;

use std::sync::Arc;

use crate::{append_bytes, copy_range};
use crate::hex::{
    hex_decode, hex_encode, lemma_hex_decode_case_insensitive, lemma_hex_round_trip, lower_bytes,
    spec_hex_decode, spec_hex_encode,
};
use crate::{DecodeError, VerificationError};

verus! {

#[verifier::external_type_specification]
#[verifier::external_body]
pub struct ExSecretKey(casper_types::SecretKey);

#[verifier::external_type_specification]
#[verifier::external_body]
pub struct ExPublicKey(casper_types::PublicKey);

/// The tagged-byte signature that the holder of the key with the given
/// tagged public-key bytes produces over a message. Signing here is
/// deterministic (Ed25519, and RFC 6979 for secp256k1), so the bytes are a
/// function of key and message alone.
pub uninterp spec fn signature_of(public_key: Seq<u8>, message: Seq<u8>) -> Seq<u8>;

/// Whether signature verification accepts the given message, tagged
/// signature bytes and tagged public-key bytes. Verification is a pure
/// function of the three byte strings, and accepts only well-formed keys
/// and signatures, read with nothing left over.
pub uninterp spec fn verify_accepts(message: Seq<u8>, signature: Seq<u8>, public_key: Seq<u8>) -> bool;

/// Whether the bytes are exactly the tagged form of a public key: a known
/// algorithm tag, a key of that algorithm's length and shape, and nothing
/// after it.
pub uninterp spec fn pk_wellformed(bytes: Seq<u8>) -> bool;

/// Whether the bytes are exactly the tagged form of a signature: a known
/// algorithm tag, a signature of that algorithm's length, and nothing
/// after it.
pub uninterp spec fn sig_wellformed(bytes: Seq<u8>) -> bool;

/// Whether a certificate's two byte fields are well-formed key and
/// signature bytes. Decoding demands this; a wire certificate whose hex
/// spells no real key is a decode error, never an accepted value.
pub open spec fn cert_fields_wellformed(c: Option<(Seq<u8>, Seq<u8>)>) -> bool {
    match c {
        None => true,
        Some((pk, sig)) => pk_wellformed(pk) && sig_wellformed(sig),
    }
}

/// An opaque value minted by the transport, unique to one connection
/// attempt. Certificates sign it, which binds them to that connection.
#[derive(Clone, Debug, PartialEq, Eq)]
pub struct ConnectionId {
    bytes: Vec<u8>,
}

impl View for ConnectionId {
    type V = Seq<u8>;

    closed spec fn view(&self) -> Seq<u8> {
        self.bytes@
    }
}

impl ConnectionId {
    /// Wraps the transport-minted bytes of one connection attempt.
    pub fn new(bytes: Vec<u8>) -> (r: Self)
        ensures
            r@ == bytes@,
    {
        ConnectionId { bytes }
    }

    /// The identifier's bytes: the message certificates sign.
    pub fn as_bytes(&self) -> (r: &Vec<u8>)
        ensures
            r@ == self@,
    {
        &self.bytes
    }
}

/// A node's consensus signing key with its public identity, constructed
/// once at startup and shared by reference across all concurrent
/// handshakes; the secret key is never mutated.
pub struct ConsensusKeyPair {
    secret_key: Arc<casper_types::SecretKey>,
    public_key: casper_types::PublicKey,
    public_key_bytes: Vec<u8>,
}

impl ConsensusKeyPair {
    /// The tagged bytes of the pair's public key.
    pub closed spec fn pk_bytes(&self) -> Seq<u8> {
        self.public_key_bytes@
    }

    /// Builds a key pair for consensus signing from a secret key, deriving
    /// the public key from it. `None` for the system key, which cannot
    /// sign.
    ///
    /// Relies on `casper_types::PublicKey::from(&SecretKey)` and on
    /// `casper_types::bytesrepr::ToBytes` for the public key's tagged
    /// bytes, whose `FromBytes` counterpart reads them back in full.
    #[verifier::external_body]
    pub fn new(secret_key: Arc<casper_types::SecretKey>) -> (r: Option<ConsensusKeyPair>)
        ensures
            match r {
                Some(kp) => pk_wellformed(kp.pk_bytes()),
                None => true,
            },
    {
        match &*secret_key {
            casper_types::SecretKey::System => None,
            _ => {
                let public_key = casper_types::PublicKey::from(&*secret_key);
                let public_key_bytes = casper_types::bytesrepr::ToBytes::to_bytes(&public_key)
                    .unwrap_or_default();
                Some(ConsensusKeyPair { secret_key, public_key, public_key_bytes })
            },
        }
    }

    /// The tagged bytes of the pair's public key.
    pub fn public_key_bytes(&self) -> (r: &Vec<u8>)
        ensures
            r@ == self.pk_bytes(),
    {
        &self.public_key_bytes
    }
}

/// Signs a message with the pair's secret key, returning the signature's
/// tagged bytes.
///
/// Relies on `casper_types::crypto::sign`, which signs deterministically
/// (Ed25519, RFC 6979 secp256k1) and panics only on the system key, which
/// `ConsensusKeyPair::new` rules out; on `casper_types::crypto::verify`
/// accepting an honestly produced signature over the same message and key;
/// and on `casper_types::bytesrepr::ToBytes` for the signature's tagged
/// bytes, whose `FromBytes` counterpart reads them back in full.
#[verifier::external_body]
fn sign_bytes(key_pair: &ConsensusKeyPair, message: &Vec<u8>) -> (sig: Vec<u8>)
    ensures
        sig@ == signature_of(key_pair.pk_bytes(), message@),
        sig_wellformed(sig@),
        verify_accepts(message@, sig@, key_pair.pk_bytes()),
{
    let signature = casper_types::crypto::sign(
        message.as_slice(),
        &key_pair.secret_key,
        &key_pair.public_key,
    );
    casper_types::bytesrepr::ToBytes::to_bytes(&signature).unwrap_or_default()
}

/// Verifies a signature over a message against a public key, all three as
/// bytes; `false` where the key or signature bytes are malformed or carry
/// anything beyond the key or signature itself.
///
/// Relies on `casper_types::crypto::verify` and on
/// `casper_types::bytesrepr::FromBytes` to read the tagged byte forms in
/// full; all are deterministic in their inputs.
#[verifier::external_body]
fn verify_bytes(message: &Vec<u8>, signature: &Vec<u8>, public_key: &Vec<u8>) -> (r: bool)
    ensures
        r == verify_accepts(message@, signature@, public_key@),
{
    let pk_parsed: Result<(casper_types::PublicKey, &[u8]), casper_types::bytesrepr::Error> =
        casper_types::bytesrepr::FromBytes::from_bytes(public_key.as_slice());
    let sig_parsed: Result<(casper_types::Signature, &[u8]), casper_types::bytesrepr::Error> =
        casper_types::bytesrepr::FromBytes::from_bytes(signature.as_slice());
    match (pk_parsed, sig_parsed) {
        (Ok((pk, pk_rest)), Ok((sig, sig_rest))) => pk_rest.is_empty() && sig_rest.is_empty()
            && casper_types::crypto::verify(message.as_slice(), &sig, &pk).is_ok(),
        _ => false,
    }
}

/// Whether the bytes are exactly the tagged form of a public key.
///
/// Relies on `casper_types::bytesrepr::FromBytes` for `PublicKey`: the
/// parse succeeds and leaves nothing over, both deterministic in the
/// bytes.
#[verifier::external_body]
fn check_public_key(bytes: &Vec<u8>) -> (r: bool)
    ensures
        r == pk_wellformed(bytes@),
{
    let parsed: Result<(casper_types::PublicKey, &[u8]), casper_types::bytesrepr::Error> =
        casper_types::bytesrepr::FromBytes::from_bytes(bytes.as_slice());
    match parsed {
        Ok((_, remainder)) => remainder.is_empty(),
        Err(_) => false,
    }
}

/// Whether the bytes are exactly the tagged form of a signature.
///
/// Relies on `casper_types::bytesrepr::FromBytes` for `Signature`: the
/// parse succeeds and leaves nothing over, both deterministic in the
/// bytes.
#[verifier::external_body]
fn check_signature(bytes: &Vec<u8>) -> (r: bool)
    ensures
        r == sig_wellformed(bytes@),
{
    let parsed: Result<(casper_types::Signature, &[u8]), casper_types::bytesrepr::Error> =
        casper_types::bytesrepr::FromBytes::from_bytes(bytes.as_slice());
    match parsed {
        Ok((_, remainder)) => remainder.is_empty(),
        Err(_) => false,
    }
}

/// A certificate naming a validator public key, with a signature over one
/// connection's identifier. Both fields hold tagged bytes.
#[derive(Clone, Debug, PartialEq, Eq)]
pub struct ConsensusCertificate {
    pub public_key: Vec<u8>,
    pub signature: Vec<u8>,
}

/// A certificate's mirror for self-describing wires: both fields as hex
/// text. Current senders emit lowercase; digits of either case are read.
#[derive(Clone, Debug, PartialEq, Eq)]
pub struct HumanReadableCertificate {
    pub public_key: Vec<u8>,
    pub signature: Vec<u8>,
}

/// Reads a certificate out of its two hex text fields, valuing digits
/// without regard to case; nothing unless the decoded bytes are a
/// well-formed key and signature.
pub open spec fn spec_cert_from_hex(pk_hex: Seq<u8>, sig_hex: Seq<u8>) -> Option<(Seq<u8>, Seq<u8>)> {
    match (spec_hex_decode(pk_hex), spec_hex_decode(sig_hex)) {
        (Some(pk), Some(sig)) => if pk_wellformed(pk) && sig_wellformed(sig) {
            Some((pk, sig))
        } else {
            None
        },
        _ => None,
    }
}

/// The compact binary form of a certificate: each field as its length in
/// eight little-endian bytes, then its bytes.
pub open spec fn spec_cert_binary(pk: Seq<u8>, sig: Seq<u8>) -> Seq<u8> {
    spec_le8(pk.len() as nat) + pk + spec_le8(sig.len() as nat) + sig
}

/// Reads a certificate out of its compact binary form; the input must be
/// consumed exactly.
pub open spec fn spec_cert_from_binary(s: Seq<u8>) -> Option<(Seq<u8>, Seq<u8>)> {
    if s.len() < 8 {
        None
    } else {
        let n1 = spec_read_le8(s, 0);
        if 8 + n1 + 8 > s.len() {
            None
        } else {
            let pk = s.subrange(8, 8 + n1 as int);
            let o = 8 + n1 as int;
            let n2 = spec_read_le8(s, o);
            if o + 8 + n2 != s.len() {
                None
            } else {
                let sig = s.subrange(o + 8, o + 8 + n2 as int);
                if pk_wellformed(pk) && sig_wellformed(sig) {
                    Some((pk, sig))
                } else {
                    None
                }
            }
        }
    }
}

/// A number below 2^64 as eight little-endian bytes.
pub open spec fn spec_le8(n: nat) -> Seq<u8> {
    seq![
        (n % 256) as u8,
        ((n / 256) % 256) as u8,
        ((n / 65536) % 256) as u8,
        ((n / 16777216) % 256) as u8,
        ((n / 4294967296) % 256) as u8,
        ((n / 1099511627776) % 256) as u8,
        ((n / 281474976710656) % 256) as u8,
        ((n / 72057594037927936) % 256) as u8,
    ]
}

/// The number spelled by eight little-endian bytes at `i`.
pub open spec fn spec_read_le8(s: Seq<u8>, i: int) -> nat {
    (s[i] + s[i + 1] * 256 + s[i + 2] * 65536 + s[i + 3] * 16777216 + s[i + 4] * 4294967296 + s[i
        + 5] * 1099511627776 + s[i + 6] * 281474976710656 + s[i + 7] * 72057594037927936) as nat
}

/// Eight little-endian bytes read back to the number they spell.
pub proof fn lemma_le8_round_trip(n: nat)
    requires
        n < 0x1_0000_0000_0000_0000,
    ensures
        spec_le8(n).len() == 8,
        spec_read_le8(spec_le8(n), 0) == n,
{
    let q1 = n / 256;
    let q2 = q1 / 256;
    let q3 = q2 / 256;
    let q4 = q3 / 256;
    let q5 = q4 / 256;
    let q6 = q5 / 256;
    let q7 = q6 / 256;
    assert(n == q1 * 256 + n % 256);
    assert(q1 == q2 * 256 + q1 % 256);
    assert(q2 == q3 * 256 + q2 % 256);
    assert(q3 == q4 * 256 + q3 % 256);
    assert(q4 == q5 * 256 + q4 % 256);
    assert(q5 == q6 * 256 + q5 % 256);
    assert(q6 == q7 * 256 + q6 % 256);
    assert(q7 < 256);
    assert(n / 65536 == q2) by {
        assert(n / 65536 == (n / 256) / 256);
    }
    assert(n / 16777216 == q3) by {
        assert(n / 16777216 == (n / 65536) / 256);
    }
    assert(n / 4294967296 == q4) by {
        assert(n / 4294967296 == (n / 16777216) / 256);
    }
    assert(n / 1099511627776 == q5) by {
        assert(n / 1099511627776 == (n / 4294967296) / 256);
    }
    assert(n / 281474976710656 == q6) by {
        assert(n / 281474976710656 == (n / 1099511627776) / 256);
    }
    assert(n / 72057594037927936 == q7) by {
        assert(n / 72057594037927936 == (n / 281474976710656) / 256);
    }
}

impl ConsensusCertificate {
    /// Creates a certificate for one connection: the key pair's public key
    /// and its signature over the connection's identifier. The fresh
    /// certificate verifies against that same identifier, so validating it
    /// there yields the signer's key.
    pub fn create(connection_id: &ConnectionId, key_pair: &ConsensusKeyPair) -> (r:
        ConsensusCertificate)
        ensures
            r.public_key@ == key_pair.pk_bytes(),
            r.signature@ == signature_of(key_pair.pk_bytes(), connection_id@),
            sig_wellformed(r.signature@),
            verify_accepts(connection_id@, r.signature@, r.public_key@),
    {
        let signature = sign_bytes(key_pair, &connection_id.bytes);
        ConsensusCertificate { public_key: key_pair.public_key_bytes.clone(), signature }
    }

    /// Validates the certificate against a connection identifier: the
    /// embedded public key on success, an error where the signature does
    /// not verify over that identifier. A certificate made for another
    /// connection signs different bytes, so it fails here.
    pub fn validate(self, connection_id: &ConnectionId) -> (r: Result<Vec<u8>, VerificationError>)
        ensures
            r is Ok <==> verify_accepts(connection_id@, self.signature@, self.public_key@),
            r is Ok ==> r->Ok_0@ == self.public_key@,
    {
        if verify_bytes(&connection_id.bytes, &self.signature, &self.public_key) {
            Ok(self.public_key)
        } else {
            Err(VerificationError)
        }
    }

    /// The certificate's mirror for self-describing wires: both fields as
    /// lowercase hex text.
    pub fn to_human_readable(&self) -> (r: HumanReadableCertificate)
        ensures
            r.public_key@ == spec_hex_encode(self.public_key@),
            r.signature@ == spec_hex_encode(self.signature@),
    {
        HumanReadableCertificate {
            public_key: hex_encode(&self.public_key),
            signature: hex_encode(&self.signature),
        }
    }

    /// Reads a certificate from its self-describing mirror, accepting hex
    /// digits of either case; an error where a field is not hex text or
    /// its bytes are not a well-formed key or signature.
    pub fn from_human_readable(hr: &HumanReadableCertificate) -> (r: Result<
        ConsensusCertificate,
        DecodeError,
    >)
        ensures
            match spec_cert_from_hex(hr.public_key@, hr.signature@) {
                Some((pk, sig)) => r is Ok && r->Ok_0.public_key@ == pk && r->Ok_0.signature@
                    == sig,
                None => r is Err,
            },
    {
        let public_key = match hex_decode(&hr.public_key) {
            Some(v) => v,
            None => {
                return Err(DecodeError);
            },
        };
        let signature = match hex_decode(&hr.signature) {
            Some(v) => v,
            None => {
                return Err(DecodeError);
            },
        };
        if !check_public_key(&public_key) || !check_signature(&signature) {
            return Err(DecodeError);
        }
        Ok(ConsensusCertificate { public_key, signature })
    }

    /// The certificate's compact binary form: each field length-prefixed.
    pub fn to_binary(&self) -> (r: Vec<u8>)
        ensures
            r@ == spec_cert_binary(self.public_key@, self.signature@),
    {
        let mut out: Vec<u8> = Vec::new();
        push_le8(&mut out, self.public_key.len());
        append_bytes(&mut out, &self.public_key);
        push_le8(&mut out, self.signature.len());
        append_bytes(&mut out, &self.signature);
        assert(out@ =~= spec_cert_binary(self.public_key@, self.signature@));
        out
    }

    /// Reads a certificate from its compact binary form; an error where
    /// the bytes are not exactly two length-prefixed fields holding a
    /// well-formed key and signature.
    pub fn from_binary(bytes: &Vec<u8>) -> (r: Result<ConsensusCertificate, DecodeError>)
        ensures
            match spec_cert_from_binary(bytes@) {
                Some((pk, sig)) => r is Ok && r->Ok_0.public_key@ == pk && r->Ok_0.signature@
                    == sig,
                None => r is Err,
            },
    {
        let len = bytes.len();
        if len < 16 {
            return Err(DecodeError);
        }
        let n1 = read_le8(bytes, 0);
        if n1 > (len - 16) as u64 {
            return Err(DecodeError);
        }
        let n1 = n1 as usize;
        let public_key = copy_range(bytes, 8, 8 + n1);
        let o = 8 + n1;
        let n2 = read_le8(bytes, o);
        if n2 != (bytes.len() - o - 8) as u64 {
            return Err(DecodeError);
        }
        let n2 = n2 as usize;
        let signature = copy_range(bytes, o + 8, o + 8 + n2);
        if !check_public_key(&public_key) || !check_signature(&signature) {
            return Err(DecodeError);
        }
        Ok(ConsensusCertificate { public_key, signature })
    }
}

/// Appends a number below 2^64 as eight little-endian bytes.
fn push_le8(out: &mut Vec<u8>, n: usize)
    ensures
        final(out)@ == old(out)@ + spec_le8(n as nat),
{
    let n = n as u64;
    out.push((n % 256) as u8);
    out.push(((n / 256) % 256) as u8);
    out.push(((n / 65536) % 256) as u8);
    out.push(((n / 16777216) % 256) as u8);
    out.push(((n / 4294967296) % 256) as u8);
    out.push(((n / 1099511627776) % 256) as u8);
    out.push(((n / 281474976710656) % 256) as u8);
    out.push((n / 72057594037927936) as u8);
    assert(out@ =~= old(out)@ + spec_le8(n as nat));
}

/// Reads the eight little-endian bytes at `i`.
fn read_le8(s: &Vec<u8>, i: usize) -> (r: u64)
    requires
        i + 8 <= s@.len(),
    ensures
        r as nat == spec_read_le8(s@, i as int),
{
    let n = s.len();
    assert(i + 8 <= n);
    s[i] as u64 + s[i + 1] as u64 * 256 + s[i + 2] as u64 * 65536 + s[i + 3] as u64 * 16777216 + s[i
        + 4] as u64 * 4294967296 + s[i + 5] as u64 * 1099511627776 + s[i + 6] as u64
        * 281474976710656 + s[i + 7] as u64 * 72057594037927936
}

/// A certificate survives its self-describing form: encoding both fields
/// as lowercase hex and reading them back yields the same certificate.
/// Holds for certificates whose fields are well-formed key and signature
/// bytes — the only ones the decoder accepts.
pub proof fn lemma_round_trip_human_readable(pk: Seq<u8>, sig: Seq<u8>)
    requires
        pk_wellformed(pk),
        sig_wellformed(sig),
    ensures
        spec_cert_from_hex(spec_hex_encode(pk), spec_hex_encode(sig)) == Some((pk, sig)),
{
    lemma_hex_round_trip(pk);
    lemma_hex_round_trip(sig);
}

/// A certificate survives its compact binary form: length-prefixing both
/// fields and reading them back yields the same certificate. Holds for
/// certificates whose fields are well-formed key and signature bytes — the
/// only ones the decoder accepts.
pub proof fn lemma_round_trip_binary(pk: Seq<u8>, sig: Seq<u8>)
    requires
        pk_wellformed(pk),
        sig_wellformed(sig),
        pk.len() < 0x1_0000_0000_0000_0000,
        sig.len() < 0x1_0000_0000_0000_0000,
    ensures
        spec_cert_from_binary(spec_cert_binary(pk, sig)) == Some((pk, sig)),
{
    let s = spec_cert_binary(pk, sig);
    let l1 = spec_le8(pk.len() as nat);
    let l2 = spec_le8(sig.len() as nat);
    lemma_le8_round_trip(pk.len() as nat);
    lemma_le8_round_trip(sig.len() as nat);
    let o = 8 + pk.len() as int;
    assert(s.len() == 16 + pk.len() + sig.len());
    assert(s.subrange(0, 8) =~= l1);
    assert(spec_read_le8(s, 0) == spec_read_le8(l1, 0)) by {
        assert(s[0] == l1[0] && s[1] == l1[1] && s[2] == l1[2] && s[3] == l1[3] && s[4] == l1[4]
            && s[5] == l1[5] && s[6] == l1[6] && s[7] == l1[7]);
    }
    assert(s.subrange(8, 8 + pk.len() as int) =~= pk);
    assert(spec_read_le8(s, o) == spec_read_le8(l2, 0)) by {
        assert(s[o] == l2[0] && s[o + 1] == l2[1] && s[o + 2] == l2[2] && s[o + 3] == l2[3] && s[o
            + 4] == l2[4] && s[o + 5] == l2[5] && s[o + 6] == l2[6] && s[o + 7] == l2[7]);
    }
    assert(s.subrange(o + 8, o + 8 + sig.len() as int) =~= sig);
}

/// Hex case never changes what a certificate's self-describing form means:
/// folding both fields to lowercase first decodes to the same value.
pub proof fn lemma_from_hex_case_insensitive(pk_hex: Seq<u8>, sig_hex: Seq<u8>)
    ensures
        spec_cert_from_hex(lower_bytes(pk_hex), lower_bytes(sig_hex)) == spec_cert_from_hex(
            pk_hex,
            sig_hex,
        ),
{
    lemma_hex_decode_case_insensitive(pk_hex);
    lemma_hex_decode_case_insensitive(sig_hex);
}

} // verus!
