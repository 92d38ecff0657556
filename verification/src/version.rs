//! The protocol version a node speaks: a semantic version, carried on
//! self-describing wires as text of the shape `1.4.2`. A handshake that
//! names no version is read as version 1.0.0.

use vstd::prelude::*;

use crate::decimal::{lemma_parse_number_at, parse_u32_at, push_dec, spec_dec, spec_parse_number};

verus! {

/// A semantic protocol version.
#[derive(Clone, Copy, Debug, PartialEq, Eq, Structural, PartialOrd, Ord)]
pub struct ProtocolVersion {
    pub major: u32,
    pub minor: u32,
    pub patch: u32,
}

impl ProtocolVersion {
    /// Builds a version from its three parts.
    pub fn from_parts(major: u32, minor: u32, patch: u32) -> (r: Self)
        ensures
            r == (ProtocolVersion { major, minor, patch }),
    {
        ProtocolVersion { major, minor, patch }
    }

    /// The version assumed where a handshake names none.
    pub fn v1_0_0() -> (r: Self)
        ensures
            r == (ProtocolVersion { major: 1u32, minor: 0u32, patch: 0u32 }),
    {
        ProtocolVersion { major: 1, minor: 0, patch: 0 }
    }
}

impl Default for ProtocolVersion {
    /// Absence of a version on the wire means version 1.0.0.
    fn default() -> (r: Self)
        ensures
            r == (ProtocolVersion { major: 1u32, minor: 0u32, patch: 0u32 }),
    {
        ProtocolVersion { major: 1, minor: 0, patch: 0 }
    }
}

/// The version's wire text: three dot-separated numbers.
pub open spec fn spec_version_bytes(v: ProtocolVersion) -> Seq<u8> {
    spec_dec(v.major as nat) + seq![0x2eu8] + spec_dec(v.minor as nat) + seq![0x2eu8] + spec_dec(
        v.patch as nat,
    )
}

/// Reads version text in full: three dot-separated numbers, each fitting a
/// `u32`, and nothing after them.
pub open spec fn spec_parse_version(s: Seq<u8>) -> Option<ProtocolVersion> {
    match spec_parse_number(s, 0) {
        None => None,
        Some((major, i1)) => if major <= u32::MAX && i1 < s.len() && s[i1] == 0x2e {
            match spec_parse_number(s, i1 + 1) {
                None => None,
                Some((minor, i2)) => if minor <= u32::MAX && i2 < s.len() && s[i2] == 0x2e {
                    match spec_parse_number(s, i2 + 1) {
                        None => None,
                        Some((patch, i3)) => if patch <= u32::MAX && i3 == s.len() {
                            Some(
                                ProtocolVersion {
                                    major: major as u32,
                                    minor: minor as u32,
                                    patch: patch as u32,
                                },
                            )
                        } else {
                            None
                        },
                    }
                } else {
                    None
                },
            }
        } else {
            None
        },
    }
}

/// Version text is short: at most thirty-two bytes.
pub proof fn lemma_version_bytes_len(v: ProtocolVersion)
    ensures
        spec_version_bytes(v).len() <= 32,
{
    crate::decimal::lemma_dec_len(v.major as nat);
    crate::decimal::lemma_dec_len(v.minor as nat);
    crate::decimal::lemma_dec_len(v.patch as nat);
}

/// Formats a version as its wire text.
pub fn format_version(v: &ProtocolVersion) -> (r: Vec<u8>)
    ensures
        r@ == spec_version_bytes(*v),
{
    let mut out: Vec<u8> = Vec::new();
    push_dec(&mut out, v.major);
    out.push(0x2e);
    push_dec(&mut out, v.minor);
    out.push(0x2e);
    push_dec(&mut out, v.patch);
    assert(out@ =~= spec_version_bytes(*v));
    out
}

/// Reads version text; `None` where the text is not exactly three
/// dot-separated numbers that fit a `u32` each.
pub fn parse_version(s: &Vec<u8>) -> (r: Option<ProtocolVersion>)
    ensures
        r == spec_parse_version(s@),
{
    match parse_u32_at(s, 0) {
        None => None,
        Some((major, i1)) => {
            if i1 < s.len() && s[i1] == 0x2e {
                match parse_u32_at(s, i1 + 1) {
                    None => None,
                    Some((minor, i2)) => {
                        if i2 < s.len() && s[i2] == 0x2e {
                            match parse_u32_at(s, i2 + 1) {
                                None => None,
                                Some((patch, i3)) => {
                                    if i3 == s.len() {
                                        Some(ProtocolVersion { major, minor, patch })
                                    } else {
                                        None
                                    }
                                },
                            }
                        } else {
                            None
                        }
                    },
                }
            } else {
                None
            }
        },
    }
}

/// Formatted version text reads back to the same version.
pub proof fn lemma_version_round_trip(v: ProtocolVersion)
    ensures
        spec_parse_version(spec_version_bytes(v)) == Some(v),
{
    let s = spec_version_bytes(v);
    let d0 = spec_dec(v.major as nat);
    let d1 = spec_dec(v.minor as nat);
    let d2 = spec_dec(v.patch as nat);
    let i1 = d0.len() as int;
    let i2 = i1 + 1 + d1.len();
    let i3 = i2 + 1 + d2.len();
    assert(s.len() == i3);
    assert(s.subrange(0, i1) =~= d0);
    assert(s[i1] == 0x2e);
    assert(s.subrange(i1 + 1, i2) =~= d1);
    assert(s[i2] == 0x2e);
    assert(s.subrange(i2 + 1, i3) =~= d2);
    lemma_parse_number_at(s, 0, v.major as nat);
    lemma_parse_number_at(s, i1 + 1, v.minor as nat);
    lemma_parse_number_at(s, i2 + 1, v.patch as nat);
}

} // verus!
