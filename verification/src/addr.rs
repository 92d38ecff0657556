//! The public address a connecting node announces: four octets and a port,
//! carried on the wire as text of the shape `12.34.56.78:12346`.

use vstd::prelude::*;

use crate::decimal::{
    lemma_parse_number_at, parse_u32_at, push_dec, spec_dec, spec_parse_number,
};

verus! {

/// A node's announced address: four octets and a port.
#[derive(Clone, Copy, Debug, PartialEq, Eq, Structural)]
pub struct NetAddr {
    pub oct0: u8,
    pub oct1: u8,
    pub oct2: u8,
    pub oct3: u8,
    pub port: u16,
}

/// The address's wire text: dotted octets, a colon, the port.
pub open spec fn spec_addr_bytes(a: NetAddr) -> Seq<u8> {
    spec_dec(a.oct0 as nat) + seq![0x2eu8] + spec_dec(a.oct1 as nat) + seq![0x2eu8]
        + spec_dec(a.oct2 as nat) + seq![0x2eu8] + spec_dec(a.oct3 as nat) + seq![0x3au8]
        + spec_dec(a.port as nat)
}

/// Reads one octet at `i` followed by the separator `sep`; yields the octet
/// and the index just past the separator.
pub open spec fn spec_parse_octet_sep(s: Seq<u8>, i: int, sep: u8) -> Option<(u8, int)> {
    match spec_parse_number(s, i) {
        Some((v, e)) => if v <= 255 && e < s.len() && s[e] == sep {
            Some((v as u8, e + 1))
        } else {
            None
        },
        None => None,
    }
}

/// Reads address text in full: four dotted octets, a colon, a port, and
/// nothing after it.
pub open spec fn spec_parse_addr(s: Seq<u8>) -> Option<NetAddr> {
    match spec_parse_octet_sep(s, 0, 0x2e) {
        None => None,
        Some((o0, i1)) => match spec_parse_octet_sep(s, i1, 0x2e) {
            None => None,
            Some((o1, i2)) => match spec_parse_octet_sep(s, i2, 0x2e) {
                None => None,
                Some((o2, i3)) => match spec_parse_number(s, i3) {
                    None => None,
                    Some((o3, i4)) => if o3 <= 255 && i4 < s.len() && s[i4] == 0x3a {
                        match spec_parse_number(s, i4 + 1) {
                            None => None,
                            Some((p, i5)) => if p <= 65535 && i5 == s.len() {
                                Some(
                                    NetAddr {
                                        oct0: o0,
                                        oct1: o1,
                                        oct2: o2 as u8,
                                        oct3: o3 as u8,
                                        port: p as u16,
                                    },
                                )
                            } else {
                                None
                            },
                        }
                    } else {
                        None
                    },
                },
            },
        },
    }
}

/// Address text is short: at most twenty-one bytes.
pub proof fn lemma_addr_bytes_len(a: NetAddr)
    ensures
        spec_addr_bytes(a).len() <= 21,
{
    crate::decimal::lemma_dec_len(a.oct0 as nat);
    crate::decimal::lemma_dec_len(a.oct1 as nat);
    crate::decimal::lemma_dec_len(a.oct2 as nat);
    crate::decimal::lemma_dec_len(a.oct3 as nat);
    crate::decimal::lemma_dec_len(a.port as nat);
}

/// Formats an address as its wire text.
pub fn format_addr(a: &NetAddr) -> (r: Vec<u8>)
    ensures
        r@ == spec_addr_bytes(*a),
{
    let mut out: Vec<u8> = Vec::new();
    push_dec(&mut out, a.oct0 as u32);
    out.push(0x2e);
    push_dec(&mut out, a.oct1 as u32);
    out.push(0x2e);
    push_dec(&mut out, a.oct2 as u32);
    out.push(0x2e);
    push_dec(&mut out, a.oct3 as u32);
    out.push(0x3a);
    push_dec(&mut out, a.port as u32);
    assert(out@ =~= spec_addr_bytes(*a));
    out
}

/// Reads address text; `None` where the text is not exactly four dotted
/// octets, a colon and a port.
pub fn parse_addr(s: &Vec<u8>) -> (r: Option<NetAddr>)
    ensures
        r == spec_parse_addr(s@),
{
    let o0 = match parse_octet_sep(s, 0, 0x2e) {
        None => {
            return None;
        },
        Some(x) => x,
    };
    let o1 = match parse_octet_sep(s, o0.1, 0x2e) {
        None => {
            return None;
        },
        Some(x) => x,
    };
    let o2 = match parse_octet_sep(s, o1.1, 0x2e) {
        None => {
            return None;
        },
        Some(x) => x,
    };
    match parse_u32_at(s, o2.1) {
        None => None,
        Some((o3, i4)) => {
            if o3 <= 255 && i4 < s.len() && s[i4] == 0x3a {
                match parse_u32_at(s, i4 + 1) {
                    None => None,
                    Some((p, i5)) => {
                        if p <= 65535 && i5 == s.len() {
                            Some(
                                NetAddr {
                                    oct0: o0.0,
                                    oct1: o1.0,
                                    oct2: o2.0,
                                    oct3: o3 as u8,
                                    port: p as u16,
                                },
                            )
                        } else {
                            None
                        }
                    },
                }
            } else {
                None
            }
        },
    }
}

/// Reads one octet at `i` followed by the separator `sep`.
fn parse_octet_sep(s: &Vec<u8>, i: usize, sep: u8) -> (r: Option<(u8, usize)>)
    ensures
        match r {
            Some((v, e)) => spec_parse_octet_sep(s@, i as int, sep) == Some((v, e as int)),
            None => spec_parse_octet_sep(s@, i as int, sep) is None,
        },
{
    match parse_u32_at(s, i) {
        None => None,
        Some((v, e)) => {
            if v <= 255 && e < s.len() && s[e] == sep {
                Some((v as u8, e + 1))
            } else {
                None
            }
        },
    }
}

/// Formatted address text reads back to the same address.
pub proof fn lemma_addr_round_trip(a: NetAddr)
    ensures
        spec_parse_addr(spec_addr_bytes(a)) == Some(a),
{
    let s = spec_addr_bytes(a);
    let d0 = spec_dec(a.oct0 as nat);
    let d1 = spec_dec(a.oct1 as nat);
    let d2 = spec_dec(a.oct2 as nat);
    let d3 = spec_dec(a.oct3 as nat);
    let dp = spec_dec(a.port as nat);
    let i1 = d0.len() as int;
    let i2 = i1 + 1 + d1.len();
    let i3 = i2 + 1 + d2.len();
    let i4 = i3 + 1 + d3.len();
    let i5 = i4 + 1 + dp.len();
    assert(s.len() == i5);
    assert(s.subrange(0, i1) =~= d0);
    assert(s[i1] == 0x2e);
    assert(s.subrange(i1 + 1, i2) =~= d1);
    assert(s[i2] == 0x2e);
    assert(s.subrange(i2 + 1, i3) =~= d2);
    assert(s[i3] == 0x2e);
    assert(s.subrange(i3 + 1, i4) =~= d3);
    assert(s[i4] == 0x3a);
    assert(s.subrange(i4 + 1, i5) =~= dp);
    lemma_parse_number_at(s, 0, a.oct0 as nat);
    lemma_parse_number_at(s, i1 + 1, a.oct1 as nat);
    lemma_parse_number_at(s, i2 + 1, a.oct2 as nat);
    lemma_parse_number_at(s, i3 + 1, a.oct3 as nat);
    lemma_parse_number_at(s, i4 + 1, a.port as nat);
}

} // verus!
