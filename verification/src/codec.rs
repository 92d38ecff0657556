//! The versioned wire codec for handshakes.
//!
//! A message travels as a one-entry map from a variant index to the
//! variant's content: index 0 is a handshake, index 1 an opaque payload.
//! A handshake's content is an array of text fields — network name, address,
//! protocol version, and an optional certificate as a pair of hex strings
//! or a nil. Three generations share this shape:
//!
//! - the first carries only name and address;
//! - the second adds version and certificate, with checksummed mixed-case
//!   certificate hex;
//! - the current one is shaped like the second but emits plain lowercase
//!   certificate hex.
//!
//! The decoder here reads all three: missing fields fall back to version
//! 1.0.0 and "no certificate", certificate hex is read without regard to
//! case, and fields beyond the known ones are ignored, so readers of the
//! oldest shape and of the current one understand each other.

use vstd::prelude::*;

use crate::addr::{
    format_addr, lemma_addr_bytes_len, lemma_addr_round_trip, parse_addr, spec_addr_bytes,
    spec_parse_addr, NetAddr,
};
use crate::cert::{
    cert_fields_wellformed, spec_cert_from_hex, ConsensusCertificate, HumanReadableCertificate,
};
use crate::hex::{hex_encode, lemma_hex_round_trip, spec_hex_encode};
use crate::version::{
    format_version, lemma_version_bytes_len, lemma_version_round_trip, parse_version,
    spec_parse_version, spec_version_bytes, ProtocolVersion,
};
use crate::{append_bytes, copy_range, DecodeError};

verus! {

/// The first envelope exchanged on a new connection, in its current
/// in-memory shape.
#[derive(Clone, Debug, PartialEq, Eq)]
pub struct Handshake {
    /// Name of the network the node wants to join, as its text bytes.
    pub network_name: Vec<u8>,
    /// The public address the connecting node announces.
    pub public_addr: NetAddr,
    /// Protocol version the node is speaking.
    pub protocol_version: ProtocolVersion,
    /// A certificate indicating validator status, if the node claims one.
    pub consensus_certificate: Option<ConsensusCertificate>,
}

/// A handshake as the oldest wire generation knows it: name and address
/// only.
#[derive(Clone, Debug, PartialEq, Eq)]
pub struct LegacyHandshake {
    pub network_name: Vec<u8>,
    pub public_addr: NetAddr,
}

/// What decoding a wire message yields: a handshake, or an opaque payload's
/// own encoding, left to the application.
#[derive(Clone, Debug, PartialEq, Eq)]
pub enum DecodedMessage {
    Handshake(Handshake),
    Payload(Vec<u8>),
}

/// A handshake's mathematical shape: the certificate as its two byte
/// strings.
pub struct SpecHandshake {
    pub network_name: Seq<u8>,
    pub public_addr: NetAddr,
    pub protocol_version: ProtocolVersion,
    pub consensus_certificate: Option<(Seq<u8>, Seq<u8>)>,
}

/// A decoded message's mathematical shape.
pub enum SpecDecoded {
    Handshake(SpecHandshake),
    Payload(Seq<u8>),
}

/// A certificate option as its two byte strings.
pub open spec fn spec_cert_view(c: Option<ConsensusCertificate>) -> Option<(Seq<u8>, Seq<u8>)> {
    match c {
        None => None,
        Some(c) => Some((c.public_key@, c.signature@)),
    }
}

impl View for Handshake {
    type V = SpecHandshake;

    open spec fn view(&self) -> SpecHandshake {
        SpecHandshake {
            network_name: self.network_name@,
            public_addr: self.public_addr,
            protocol_version: self.protocol_version,
            consensus_certificate: spec_cert_view(self.consensus_certificate),
        }
    }
}

impl View for LegacyHandshake {
    type V = SpecHandshake;

    /// A legacy handshake reads as a current one with the fallback fields.
    open spec fn view(&self) -> SpecHandshake {
        SpecHandshake {
            network_name: self.network_name@,
            public_addr: self.public_addr,
            protocol_version: ProtocolVersion { major: 1u32, minor: 0u32, patch: 0u32 },
            consensus_certificate: None,
        }
    }
}

impl View for DecodedMessage {
    type V = SpecDecoded;

    open spec fn view(&self) -> SpecDecoded {
        match self {
            DecodedMessage::Handshake(h) => SpecDecoded::Handshake(h@),
            DecodedMessage::Payload(p) => SpecDecoded::Payload(p@),
        }
    }
}

/// A text field's wire form: a length header, then the bytes. The header
/// has four widths; text longer than the widest header can say is not
/// encodable.
pub open spec fn spec_msg_str(s: Seq<u8>) -> Seq<u8> {
    if s.len() <= 31 {
        seq![(0xa0 + s.len()) as u8] + s
    } else if s.len() <= 255 {
        seq![0xd9u8, s.len() as u8] + s
    } else if s.len() <= 65535 {
        seq![0xdau8, (s.len() / 256) as u8, (s.len() % 256) as u8] + s
    } else {
        seq![
            0xdbu8,
            ((s.len() / 16777216) % 256) as u8,
            ((s.len() / 65536) % 256) as u8,
            ((s.len() / 256) % 256) as u8,
            (s.len() % 256) as u8,
        ] + s
    }
}

/// Whether text fits the widest length header.
pub open spec fn str_encodable(s: Seq<u8>) -> bool {
    s.len() <= 0xffffffff
}

/// The certificate field's wire form: a nil byte for "no certificate", else
/// a two-element array of the certificate's lowercase hex fields.
pub open spec fn spec_cert_field(c: Option<(Seq<u8>, Seq<u8>)>) -> Seq<u8> {
    match c {
        None => seq![0xc0u8],
        Some((pk, sig)) => seq![0x92u8] + spec_msg_str(spec_hex_encode(pk)) + spec_msg_str(
            spec_hex_encode(sig),
        ),
    }
}

/// Whether a handshake's fields fit their wire headers.
pub open spec fn handshake_encodable(h: SpecHandshake) -> bool {
    &&& str_encodable(h.network_name)
    &&& match h.consensus_certificate {
        None => true,
        Some((pk, sig)) => pk.len() <= 0x7fffffff && sig.len() <= 0x7fffffff,
    }
}

/// The current wire form of a handshake: map entry 0, then an array of
/// name, address text, version text, and the certificate field.
pub open spec fn spec_encode_handshake(h: SpecHandshake) -> Seq<u8> {
    seq![0x81u8, 0x00u8, 0x94u8] + spec_msg_str(h.network_name) + spec_msg_str(
        spec_addr_bytes(h.public_addr),
    ) + spec_msg_str(spec_version_bytes(h.protocol_version)) + spec_cert_field(
        h.consensus_certificate,
    )
}

/// The oldest wire form of a handshake: map entry 0, then an array of name
/// and address text only.
pub open spec fn spec_encode_handshake_legacy(name: Seq<u8>, a: NetAddr) -> Seq<u8> {
    seq![0x81u8, 0x00u8, 0x92u8] + spec_msg_str(name) + spec_msg_str(spec_addr_bytes(a))
}

/// The wire form of a payload envelope: map entry 1, then the payload's own
/// encoding.
pub open spec fn spec_encode_payload_frame(p: Seq<u8>) -> Seq<u8> {
    seq![0x81u8, 0x01u8] + p
}

/// Reads one text field at `i`: its bytes and the index just past them.
pub open spec fn spec_parse_str(s: Seq<u8>, i: int) -> Option<(Seq<u8>, int)> {
    if i < 0 || i >= s.len() {
        None
    } else {
        let b = s[i];
        if 0xa0 <= b <= 0xbf {
            let n = b - 0xa0;
            if i + 1 + n <= s.len() {
                Some((s.subrange(i + 1, i + 1 + n), i + 1 + n))
            } else {
                None
            }
        } else if b == 0xd9 {
            if i + 2 <= s.len() {
                let n = s[i + 1] as int;
                if i + 2 + n <= s.len() {
                    Some((s.subrange(i + 2, i + 2 + n), i + 2 + n))
                } else {
                    None
                }
            } else {
                None
            }
        } else if b == 0xda {
            if i + 3 <= s.len() {
                let n = s[i + 1] * 256 + s[i + 2];
                if i + 3 + n <= s.len() {
                    Some((s.subrange(i + 3, i + 3 + n), i + 3 + n))
                } else {
                    None
                }
            } else {
                None
            }
        } else if b == 0xdb {
            if i + 5 <= s.len() {
                let n = s[i + 1] * 16777216 + s[i + 2] * 65536 + s[i + 3] * 256 + s[i + 4];
                if i + 5 + n <= s.len() {
                    Some((s.subrange(i + 5, i + 5 + n), i + 5 + n))
                } else {
                    None
                }
            } else {
                None
            }
        } else {
            None
        }
    }
}

/// Reads the certificate field at `i`: the decoded certificate (or "none")
/// and the index just past the field. Certificate hex is read without
/// regard to case.
pub open spec fn spec_parse_cert(s: Seq<u8>, i: int) -> Option<
    (Option<(Seq<u8>, Seq<u8>)>, int),
> {
    if i < 0 || i >= s.len() {
        None
    } else if s[i] == 0xc0 {
        Some((None, i + 1))
    } else if s[i] == 0x92 {
        match spec_parse_str(s, i + 1) {
            None => None,
            Some((pk_hex, j)) => match spec_parse_str(s, j) {
                None => None,
                Some((sig_hex, k)) => match spec_cert_from_hex(pk_hex, sig_hex) {
                    None => None,
                    Some((pk, sig)) => Some((Some((pk, sig)), k)),
                },
            },
        }
    } else {
        None
    }
}

/// Reads a whole wire message as the current generation does: either
/// variant works, missing handshake fields fall back, spare fields are
/// ignored.
pub open spec fn spec_decode_message(s: Seq<u8>) -> Option<SpecDecoded> {
    if s.len() < 2 || s[0] != 0x81 {
        None
    } else if s[1] == 0x01 {
        Some(SpecDecoded::Payload(s.skip(2)))
    } else if s[1] != 0x00 {
        None
    } else if s.len() < 3 || !(0x90 <= s[2] <= 0x9f) || s[2] - 0x90 < 2 {
        None
    } else {
        let n = s[2] - 0x90;
        match spec_parse_str(s, 3) {
            None => None,
            Some((name, i1)) => match spec_parse_str(s, i1) {
                None => None,
                Some((ab, i2)) => match spec_parse_addr(ab) {
                    None => None,
                    Some(addr) => if n == 2 {
                        Some(
                            SpecDecoded::Handshake(
                                SpecHandshake {
                                    network_name: name,
                                    public_addr: addr,
                                    protocol_version: ProtocolVersion {
                                        major: 1u32,
                                        minor: 0u32,
                                        patch: 0u32,
                                    },
                                    consensus_certificate: None,
                                },
                            ),
                        )
                    } else {
                        match spec_parse_str(s, i2) {
                            None => None,
                            Some((vb, i3)) => match spec_parse_version(vb) {
                                None => None,
                                Some(v) => if n == 3 {
                                    Some(
                                        SpecDecoded::Handshake(
                                            SpecHandshake {
                                                network_name: name,
                                                public_addr: addr,
                                                protocol_version: v,
                                                consensus_certificate: None,
                                            },
                                        ),
                                    )
                                } else {
                                    match spec_parse_cert(s, i3) {
                                        None => None,
                                        Some((c, _i4)) => Some(
                                            SpecDecoded::Handshake(
                                                SpecHandshake {
                                                    network_name: name,
                                                    public_addr: addr,
                                                    protocol_version: v,
                                                    consensus_certificate: c,
                                                },
                                            ),
                                        ),
                                    }
                                },
                            },
                        }
                    },
                },
            },
        }
    }
}

/// Reads a wire message as the oldest generation does: name and address of
/// a handshake, everything after them ignored.
pub open spec fn spec_decode_message_legacy(s: Seq<u8>) -> Option<Option<(Seq<u8>, NetAddr)>> {
    if s.len() < 2 || s[0] != 0x81 {
        None
    } else if s[1] == 0x01 {
        Some(None)
    } else if s[1] != 0x00 {
        None
    } else if s.len() < 3 || !(0x90 <= s[2] <= 0x9f) || s[2] - 0x90 < 2 {
        None
    } else {
        match spec_parse_str(s, 3) {
            None => None,
            Some((name, i1)) => match spec_parse_str(s, i1) {
                None => None,
                Some((ab, _i2)) => match spec_parse_addr(ab) {
                    None => None,
                    Some(addr) => Some(Some((name, addr))),
                },
            },
        }
    }
}

/// Appends a text field: its length header, then its bytes.
pub fn push_msg_str(out: &mut Vec<u8>, s: &Vec<u8>)
    requires
        str_encodable(s@),
    ensures
        final(out)@ == old(out)@ + spec_msg_str(s@),
{
    let n = s.len();
    if n <= 31 {
        out.push(0xa0 + n as u8);
    } else if n <= 255 {
        out.push(0xd9);
        out.push(n as u8);
    } else if n <= 65535 {
        out.push(0xda);
        out.push((n / 256) as u8);
        out.push((n % 256) as u8);
    } else {
        out.push(0xdb);
        out.push(((n / 16777216) % 256) as u8);
        out.push(((n / 65536) % 256) as u8);
        out.push(((n / 256) % 256) as u8);
        out.push((n % 256) as u8);
    }
    append_bytes(out, s);
    assert(out@ =~= old(out)@ + spec_msg_str(s@));
}

/// Encodes a handshake in the current wire form. Certificate fields are
/// emitted as lowercase hex, never the checksummed mixed-case variant.
pub fn encode_handshake(h: &Handshake) -> (r: Vec<u8>)
    requires
        handshake_encodable(h@),
    ensures
        r@ == spec_encode_handshake(h@),
{
    let mut out: Vec<u8> = Vec::new();
    out.push(0x81);
    out.push(0x00);
    out.push(0x94);
    push_msg_str(&mut out, &h.network_name);
    let ab = format_addr(&h.public_addr);
    proof {
        lemma_addr_bytes_len(h.public_addr);
    }
    push_msg_str(&mut out, &ab);
    let vb = format_version(&h.protocol_version);
    proof {
        lemma_version_bytes_len(h.protocol_version);
    }
    push_msg_str(&mut out, &vb);
    match &h.consensus_certificate {
        None => {
            out.push(0xc0);
        },
        Some(c) => {
            out.push(0x92);
            let pk_hex = hex_encode(&c.public_key);
            push_msg_str(&mut out, &pk_hex);
            let sig_hex = hex_encode(&c.signature);
            push_msg_str(&mut out, &sig_hex);
        },
    }
    assert(out@ =~= spec_encode_handshake(h@));
    out
}

/// Encodes a handshake in the oldest wire form: name and address only.
pub fn encode_handshake_legacy(h: &LegacyHandshake) -> (r: Vec<u8>)
    requires
        str_encodable(h.network_name@),
    ensures
        r@ == spec_encode_handshake_legacy(h.network_name@, h.public_addr),
{
    let mut out: Vec<u8> = Vec::new();
    out.push(0x81);
    out.push(0x00);
    out.push(0x92);
    push_msg_str(&mut out, &h.network_name);
    let ab = format_addr(&h.public_addr);
    proof {
        lemma_addr_bytes_len(h.public_addr);
    }
    push_msg_str(&mut out, &ab);
    assert(out@ =~= spec_encode_handshake_legacy(h.network_name@, h.public_addr));
    out
}

/// Frames an application payload's own encoding as a wire message.
pub fn encode_payload_frame(p: &Vec<u8>) -> (r: Vec<u8>)
    ensures
        r@ == spec_encode_payload_frame(p@),
{
    let mut out: Vec<u8> = Vec::new();
    out.push(0x81);
    out.push(0x01);
    append_bytes(&mut out, p);
    assert(out@ =~= spec_encode_payload_frame(p@));
    out
}

/// Reads one text field at `i`.
fn parse_str(s: &Vec<u8>, i: usize) -> (r: Option<(Vec<u8>, usize)>)
    ensures
        match r {
            Some((t, e)) => spec_parse_str(s@, i as int) == Some((t@, e as int)) && e <= s@.len(),
            None => spec_parse_str(s@, i as int) is None,
        },
{
    let len = s.len();
    if i >= len {
        return None;
    }
    let b = s[i];
    if 0xa0 <= b && b <= 0xbf {
        let n = (b - 0xa0) as usize;
        if n <= len - (i + 1) {
            Some((copy_range(s, i + 1, i + 1 + n), i + 1 + n))
        } else {
            None
        }
    } else if b == 0xd9 {
        if len - i >= 2 {
            let n = s[i + 1] as usize;
            if n <= len - (i + 2) {
                Some((copy_range(s, i + 2, i + 2 + n), i + 2 + n))
            } else {
                None
            }
        } else {
            None
        }
    } else if b == 0xda {
        if len - i >= 3 {
            let n = s[i + 1] as usize * 256 + s[i + 2] as usize;
            if n <= len - (i + 3) {
                Some((copy_range(s, i + 3, i + 3 + n), i + 3 + n))
            } else {
                None
            }
        } else {
            None
        }
    } else if b == 0xdb {
        if len - i >= 5 {
            let n: u64 = s[i + 1] as u64 * 16777216 + s[i + 2] as u64 * 65536 + s[i + 3] as u64
                * 256 + s[i + 4] as u64;
            if n <= (len - (i + 5)) as u64 {
                let n = n as usize;
                Some((copy_range(s, i + 5, i + 5 + n), i + 5 + n))
            } else {
                None
            }
        } else {
            None
        }
    } else {
        None
    }
}

/// Reads the certificate field at `i`; nothing where a field's hex spells
/// no well-formed key or signature.
fn parse_cert(s: &Vec<u8>, i: usize) -> (r: Option<(Option<ConsensusCertificate>, usize)>)
    ensures
        match r {
            Some((c, e)) => spec_parse_cert(s@, i as int) == Some((spec_cert_view(c), e as int)),
            None => spec_parse_cert(s@, i as int) is None,
        },
{
    if i >= s.len() {
        return None;
    }
    let b = s[i];
    if b == 0xc0 {
        return Some((None, i + 1));
    }
    if b != 0x92 {
        return None;
    }
    let (pk_hex, j) = match parse_str(s, i + 1) {
        None => {
            return None;
        },
        Some(x) => x,
    };
    let (sig_hex, k) = match parse_str(s, j) {
        None => {
            return None;
        },
        Some(x) => x,
    };
    let hr = HumanReadableCertificate { public_key: pk_hex, signature: sig_hex };
    match ConsensusCertificate::from_human_readable(&hr) {
        Ok(c) => Some((Some(c), k)),
        Err(_) => None,
    }
}

/// Decodes a wire message as the current generation reads it: either a
/// handshake — missing version read as 1.0.0, missing certificate as none,
/// spare fields ignored — or an opaque payload's own encoding.
pub fn decode_message(bytes: &Vec<u8>) -> (r: Result<DecodedMessage, DecodeError>)
    ensures
        match spec_decode_message(bytes@) {
            Some(d) => r is Ok && r->Ok_0@ == d,
            None => r is Err,
        },
{
    let len = bytes.len();
    if len < 2 || bytes[0] != 0x81 {
        return Err(DecodeError);
    }
    if bytes[1] == 0x01 {
        let p = copy_range(bytes, 2, len);
        assert(p@ =~= bytes@.skip(2));
        return Ok(DecodedMessage::Payload(p));
    }
    if bytes[1] != 0x00 {
        return Err(DecodeError);
    }
    if len < 3 {
        return Err(DecodeError);
    }
    let hdr = bytes[2];
    if hdr < 0x90 || hdr > 0x9f || hdr - 0x90 < 2 {
        return Err(DecodeError);
    }
    let n = hdr - 0x90;
    let (name, i1) = match parse_str(bytes, 3) {
        None => {
            return Err(DecodeError);
        },
        Some(x) => x,
    };
    let (ab, i2) = match parse_str(bytes, i1) {
        None => {
            return Err(DecodeError);
        },
        Some(x) => x,
    };
    let addr = match parse_addr(&ab) {
        None => {
            return Err(DecodeError);
        },
        Some(a) => a,
    };
    if n == 2 {
        return Ok(
            DecodedMessage::Handshake(
                Handshake {
                    network_name: name,
                    public_addr: addr,
                    protocol_version: ProtocolVersion::v1_0_0(),
                    consensus_certificate: None,
                },
            ),
        );
    }
    let (vb, i3) = match parse_str(bytes, i2) {
        None => {
            return Err(DecodeError);
        },
        Some(x) => x,
    };
    let v = match parse_version(&vb) {
        None => {
            return Err(DecodeError);
        },
        Some(v) => v,
    };
    if n == 3 {
        return Ok(
            DecodedMessage::Handshake(
                Handshake {
                    network_name: name,
                    public_addr: addr,
                    protocol_version: v,
                    consensus_certificate: None,
                },
            ),
        );
    }
    let (c, _i4) = match parse_cert(bytes, i3) {
        None => {
            return Err(DecodeError);
        },
        Some(x) => x,
    };
    Ok(
        DecodedMessage::Handshake(
            Handshake {
                network_name: name,
                public_addr: addr,
                protocol_version: v,
                consensus_certificate: c,
            },
        ),
    )
}

/// Decodes a wire message as the oldest generation reads it: a handshake's
/// name and address, everything after them ignored; `Ok(None)` for a
/// payload message.
pub fn decode_message_legacy(bytes: &Vec<u8>) -> (r: Result<Option<LegacyHandshake>, DecodeError>)
    ensures
        match spec_decode_message_legacy(bytes@) {
            Some(d) => r is Ok && (match (r->Ok_0, d) {
                (Some(h), Some((name, addr))) => h.network_name@ == name && h.public_addr == addr,
                (None, None) => true,
                _ => false,
            }),
            None => r is Err,
        },
{
    let len = bytes.len();
    if len < 2 || bytes[0] != 0x81 {
        return Err(DecodeError);
    }
    if bytes[1] == 0x01 {
        return Ok(None);
    }
    if bytes[1] != 0x00 {
        return Err(DecodeError);
    }
    if len < 3 {
        return Err(DecodeError);
    }
    let hdr = bytes[2];
    if hdr < 0x90 || hdr > 0x9f || hdr - 0x90 < 2 {
        return Err(DecodeError);
    }
    let (name, i1) = match parse_str(bytes, 3) {
        None => {
            return Err(DecodeError);
        },
        Some(x) => x,
    };
    let (ab, _i2) = match parse_str(bytes, i1) {
        None => {
            return Err(DecodeError);
        },
        Some(x) => x,
    };
    let addr = match parse_addr(&ab) {
        None => {
            return Err(DecodeError);
        },
        Some(a) => a,
    };
    Ok(Some(LegacyHandshake { network_name: name, public_addr: addr }))
}

/// Recomposing a four-byte big-endian header gives the length back.
proof fn lemma_be4(n: nat)
    requires
        n < 0x100000000,
    ensures
        ((n / 16777216) % 256) * 16777216 + ((n / 65536) % 256) * 65536 + ((n / 256) % 256) * 256
            + n % 256 == n,
{
    let q1 = n / 256;
    let q2 = n / 65536;
    let q3 = n / 16777216;
    assert(n / 65536 == (n / 256) / 256);
    assert(n / 16777216 == (n / 65536) / 256);
    assert(n == q1 * 256 + n % 256);
    assert(q1 == q2 * 256 + q1 % 256);
    assert(q2 == q3 * 256 + q2 % 256);
    assert(q3 < 256);
    assert((q2 * 256) * 65536 == q2 * 16777216) by (nonlinear_arith);
    assert((q1 * 256) * 256 == q1 * 65536) by (nonlinear_arith);
    assert((q3 * 256) * 65536 == q3 * 16777216) by (nonlinear_arith);
    assert(q1 * 256 == q2 * 65536 + (q1 % 256) * 256) by (nonlinear_arith)
        requires q1 == q2 * 256 + q1 % 256,
    ;
    assert(q2 * 65536 == q3 * 16777216 + (q2 % 256) * 65536) by (nonlinear_arith)
        requires q2 == q3 * 256 + q2 % 256,
    ;
}

/// A text field written at `i` reads back as exactly its bytes, ending
/// just past them.
pub proof fn lemma_parse_msg_str(s: Seq<u8>, i: int, t: Seq<u8>)
    requires
        0 <= i,
        t.len() <= 0xffffffff,
        i + spec_msg_str(t).len() <= s.len(),
        s.subrange(i, i + spec_msg_str(t).len() as int) == spec_msg_str(t),
    ensures
        spec_parse_str(s, i) == Some((t, i + spec_msg_str(t).len() as int)),
{
    let m = spec_msg_str(t);
    let e = i + m.len() as int;
    assert forall|k: int| 0 <= k < m.len() implies s[i + k] == m[k] by {
        assert(s.subrange(i, e)[k] == s[i + k]);
        assert(s.subrange(i, e)[k] == m[k]);
    }
    let hl: int = if t.len() <= 31 {
        1
    } else if t.len() <= 255 {
        2
    } else if t.len() <= 65535 {
        3
    } else {
        5
    };
    assert(s.subrange(i + hl, e) =~= t) by {
        assert forall|k: int| 0 <= k < t.len() implies s.subrange(i + hl, e)[k] == t[k] by {
            assert(s.subrange(i + hl, e)[k] == s[i + hl + k]);
            assert(s[i + (hl + k)] == m[hl + k]);
            assert(m[hl + k] == t[k]);
        }
    }
    if t.len() <= 31 {
        assert(s[i + 0] == m[0]);
        assert(s[i] == (0xa0 + t.len()) as u8);
        assert(s[i] - 0xa0 == t.len());
    } else if t.len() <= 255 {
        assert(s[i + 0] == m[0] && s[i + 1] == m[1]);
        assert(s[i] == 0xd9);
        assert(s[i + 1] as int == t.len());
    } else if t.len() <= 65535 {
        assert(s[i + 0] == m[0] && s[i + 1] == m[1] && s[i + 2] == m[2]);
        assert(s[i] == 0xda);
        assert(s[i + 1] == (t.len() / 256) as u8);
        assert(s[i + 2] == (t.len() % 256) as u8);
        assert(s[i + 1] * 256 + s[i + 2] == t.len());
    } else {
        assert(s[i + 0] == m[0] && s[i + 1] == m[1] && s[i + 2] == m[2] && s[i + 3] == m[3] && s[i
            + 4] == m[4]);
        assert(s[i] == 0xdb);
        lemma_be4(t.len());
        assert(s[i + 1] * 16777216 + s[i + 2] * 65536 + s[i + 3] * 256 + s[i + 4] == t.len());
    }
}

/// A certificate field written at `i` reads back as the same certificate,
/// ending just past the field.
pub proof fn lemma_parse_cert_at(s: Seq<u8>, i: int, c: Option<(Seq<u8>, Seq<u8>)>)
    requires
        0 <= i,
        cert_fields_wellformed(c),
        match c {
            None => true,
            Some((pk, sig)) => pk.len() <= 0x7fffffff && sig.len() <= 0x7fffffff,
        },
        i + spec_cert_field(c).len() <= s.len(),
        s.subrange(i, i + spec_cert_field(c).len() as int) == spec_cert_field(c),
    ensures
        spec_parse_cert(s, i) == Some((c, i + spec_cert_field(c).len() as int)),
{
    let f = spec_cert_field(c);
    let e = i + f.len() as int;
    assert forall|k: int| 0 <= k < f.len() implies s[i + k] == f[k] by {
        assert(s.subrange(i, e)[k] == s[i + k]);
        assert(s.subrange(i, e)[k] == f[k]);
    }
    match c {
        None => {
            assert(s[i + 0] == f[0]);
            assert(s[i] == 0xc0);
        },
        Some((pk, sig)) => {
            let a = spec_msg_str(spec_hex_encode(pk));
            let b = spec_msg_str(spec_hex_encode(sig));
            assert(s[i + 0] == f[0]);
            assert(s[i] == 0x92);
            let j = i + 1 + a.len() as int;
            assert(s.subrange(i + 1, j) =~= a) by {
                assert forall|k: int| 0 <= k < a.len() implies s.subrange(i + 1, j)[k] == a[k] by {
                    assert(s.subrange(i + 1, j)[k] == s[i + 1 + k]);
                    assert(s[i + (1 + k)] == f[1 + k]);
                    assert(f[1 + k] == a[k]);
                }
            }
            lemma_parse_msg_str(s, i + 1, spec_hex_encode(pk));
            assert(s.subrange(j, e) =~= b) by {
                assert forall|k: int| 0 <= k < b.len() implies s.subrange(j, e)[k] == b[k] by {
                    assert(s.subrange(j, e)[k] == s[j + k]);
                    assert(s[i + (1 + a.len() + k)] == f[1 + a.len() + k]);
                    assert(f[1 + a.len() + k] == b[k]);
                    assert(j + k == i + (1 + a.len() + k));
                }
            }
            lemma_parse_msg_str(s, j, spec_hex_encode(sig));
            lemma_hex_round_trip(pk);
            lemma_hex_round_trip(sig);
        },
    }
}

/// A handshake survives the wire: encoding it in the current form and
/// decoding it as the current generation does yields it unchanged —
/// network name, address, version and certificate all preserved. Holds
/// for handshakes whose certificate fields, if any, are well-formed key
/// and signature bytes — the only ones the decoder accepts.
#[verifier::rlimit(50)]
pub proof fn lemma_handshake_round_trip(h: SpecHandshake)
    requires
        handshake_encodable(h),
        cert_fields_wellformed(h.consensus_certificate),
    ensures
        spec_decode_message(spec_encode_handshake(h)) == Some(SpecDecoded::Handshake(h)),
{
    let s = spec_encode_handshake(h);
    let p = seq![0x81u8, 0x00u8, 0x94u8];
    let a = spec_msg_str(h.network_name);
    let ab = spec_msg_str(spec_addr_bytes(h.public_addr));
    let vb = spec_msg_str(spec_version_bytes(h.protocol_version));
    let cf = spec_cert_field(h.consensus_certificate);
    let s1 = p + a;
    let s2 = s1 + ab;
    let s3 = s2 + vb;
    assert(s == s3 + cf);
    lemma_addr_bytes_len(h.public_addr);
    lemma_version_bytes_len(h.protocol_version);
    assert(s.len() == 3 + a.len() + ab.len() + vb.len() + cf.len());
    assert(s[0] == 0x81 && s[1] == 0x00 && s[2] == 0x94) by {
        assert(s[0] == s3[0] && s[1] == s3[1] && s[2] == s3[2]);
        assert(s3[0] == s2[0] && s3[1] == s2[1] && s3[2] == s2[2]);
        assert(s2[0] == s1[0] && s2[1] == s1[1] && s2[2] == s1[2]);
        assert(s1[0] == p[0] && s1[1] == p[1] && s1[2] == p[2]);
    }
    let i1 = 3 + a.len() as int;
    let i2 = i1 + ab.len() as int;
    let i3 = i2 + vb.len() as int;
    assert(s.subrange(3, i1) =~= a) by {
        assert forall|k: int| 0 <= k < a.len() implies s.subrange(3, i1)[k] == a[k] by {
            assert(s.subrange(3, i1)[k] == s[3 + k]);
            assert(s[3 + k] == s3[3 + k]);
            assert(s3[3 + k] == s2[3 + k]);
            assert(s2[3 + k] == s1[3 + k]);
            assert(s1[3 + k] == a[k]);
        }
    }
    lemma_parse_msg_str(s, 3, h.network_name);
    assert(s.subrange(i1, i2) =~= ab) by {
        assert forall|k: int| 0 <= k < ab.len() implies s.subrange(i1, i2)[k] == ab[k] by {
            assert(s.subrange(i1, i2)[k] == s[i1 + k]);
            assert(s[i1 + k] == s3[i1 + k]);
            assert(s3[i1 + k] == s2[i1 + k]);
            assert(s2[i1 + k] == ab[k]);
        }
    }
    lemma_parse_msg_str(s, i1, spec_addr_bytes(h.public_addr));
    lemma_addr_round_trip(h.public_addr);
    assert(s.subrange(i2, i3) =~= vb) by {
        assert forall|k: int| 0 <= k < vb.len() implies s.subrange(i2, i3)[k] == vb[k] by {
            assert(s.subrange(i2, i3)[k] == s[i2 + k]);
            assert(s[i2 + k] == s3[i2 + k]);
            assert(s3[i2 + k] == vb[k]);
        }
    }
    lemma_parse_msg_str(s, i2, spec_version_bytes(h.protocol_version));
    lemma_version_round_trip(h.protocol_version);
    assert(s.subrange(i3, i3 + cf.len() as int) =~= cf) by {
        assert forall|k: int| 0 <= k < cf.len() implies s.subrange(i3, i3 + cf.len() as int)[k]
            == cf[k] by {
            assert(s.subrange(i3, i3 + cf.len() as int)[k] == s[i3 + k]);
            assert(s[i3 + k] == cf[k]);
        }
    }
    lemma_parse_cert_at(s, i3, h.consensus_certificate);
}

/// Forward compatibility: a reader of the oldest generation, handed the
/// current wire form, still sees the network name and address exactly,
/// silently dropping version and certificate.
#[verifier::rlimit(50)]
pub proof fn lemma_legacy_reads_current(h: SpecHandshake)
    requires
        handshake_encodable(h),
    ensures
        spec_decode_message_legacy(spec_encode_handshake(h)) == Some(
            Some((h.network_name, h.public_addr)),
        ),
{
    let s = spec_encode_handshake(h);
    let p = seq![0x81u8, 0x00u8, 0x94u8];
    let a = spec_msg_str(h.network_name);
    let ab = spec_msg_str(spec_addr_bytes(h.public_addr));
    let vb = spec_msg_str(spec_version_bytes(h.protocol_version));
    let cf = spec_cert_field(h.consensus_certificate);
    let s1 = p + a;
    let s2 = s1 + ab;
    let s3 = s2 + vb;
    assert(s == s3 + cf);
    lemma_addr_bytes_len(h.public_addr);
    assert(s[0] == 0x81 && s[1] == 0x00 && s[2] == 0x94) by {
        assert(s[0] == s3[0] && s[1] == s3[1] && s[2] == s3[2]);
        assert(s3[0] == s2[0] && s3[1] == s2[1] && s3[2] == s2[2]);
        assert(s2[0] == s1[0] && s2[1] == s1[1] && s2[2] == s1[2]);
        assert(s1[0] == p[0] && s1[1] == p[1] && s1[2] == p[2]);
    }
    let i1 = 3 + a.len() as int;
    let i2 = i1 + ab.len() as int;
    assert(s.subrange(3, i1) =~= a) by {
        assert forall|k: int| 0 <= k < a.len() implies s.subrange(3, i1)[k] == a[k] by {
            assert(s.subrange(3, i1)[k] == s[3 + k]);
            assert(s[3 + k] == s3[3 + k]);
            assert(s3[3 + k] == s2[3 + k]);
            assert(s2[3 + k] == s1[3 + k]);
            assert(s1[3 + k] == a[k]);
        }
    }
    lemma_parse_msg_str(s, 3, h.network_name);
    assert(s.subrange(i1, i2) =~= ab) by {
        assert forall|k: int| 0 <= k < ab.len() implies s.subrange(i1, i2)[k] == ab[k] by {
            assert(s.subrange(i1, i2)[k] == s[i1 + k]);
            assert(s[i1 + k] == s3[i1 + k]);
            assert(s3[i1 + k] == s2[i1 + k]);
            assert(s2[i1 + k] == ab[k]);
        }
    }
    lemma_parse_msg_str(s, i1, spec_addr_bytes(h.public_addr));
    lemma_addr_round_trip(h.public_addr);
}

/// Backward compatibility: the current reader, handed the oldest wire
/// form, sees the name and address and falls back to version 1.0.0 and no
/// certificate.
#[verifier::rlimit(50)]
pub proof fn lemma_current_reads_legacy(name: Seq<u8>, addr: NetAddr)
    requires
        str_encodable(name),
    ensures
        spec_decode_message(spec_encode_handshake_legacy(name, addr)) == Some(
            SpecDecoded::Handshake(
                SpecHandshake {
                    network_name: name,
                    public_addr: addr,
                    protocol_version: ProtocolVersion { major: 1u32, minor: 0u32, patch: 0u32 },
                    consensus_certificate: None,
                },
            ),
        ),
{
    let s = spec_encode_handshake_legacy(name, addr);
    let p = seq![0x81u8, 0x00u8, 0x92u8];
    let a = spec_msg_str(name);
    let ab = spec_msg_str(spec_addr_bytes(addr));
    let s1 = p + a;
    assert(s == s1 + ab);
    lemma_addr_bytes_len(addr);
    assert(s[0] == 0x81 && s[1] == 0x00 && s[2] == 0x92) by {
        assert(s[0] == s1[0] && s[1] == s1[1] && s[2] == s1[2]);
        assert(s1[0] == p[0] && s1[1] == p[1] && s1[2] == p[2]);
    }
    let i1 = 3 + a.len() as int;
    let i2 = i1 + ab.len() as int;
    assert(s.subrange(3, i1) =~= a) by {
        assert forall|k: int| 0 <= k < a.len() implies s.subrange(3, i1)[k] == a[k] by {
            assert(s.subrange(3, i1)[k] == s[3 + k]);
            assert(s[3 + k] == s1[3 + k]);
            assert(s1[3 + k] == a[k]);
        }
    }
    lemma_parse_msg_str(s, 3, name);
    assert(s.subrange(i1, i2) =~= ab) by {
        assert forall|k: int| 0 <= k < ab.len() implies s.subrange(i1, i2)[k] == ab[k] by {
            assert(s.subrange(i1, i2)[k] == s[i1 + k]);
            assert(s[i1 + k] == ab[k]);
        }
    }
    lemma_parse_msg_str(s, i1, spec_addr_bytes(addr));
    lemma_addr_round_trip(addr);
}

/// A framed payload survives the wire: decoding its frame yields the
/// payload's own encoding unchanged.
pub proof fn lemma_payload_frame_round_trip(p: Seq<u8>)
    ensures
        spec_decode_message(spec_encode_payload_frame(p)) == Some(SpecDecoded::Payload(p)),
{
    let s = spec_encode_payload_frame(p);
    assert(s[0] == 0x81 && s[1] == 0x01);
    assert(s.skip(2) =~= p);
}

} // verus!
