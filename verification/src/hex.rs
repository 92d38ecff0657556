//! Lowercase hex encoding and case-insensitive hex decoding of byte strings.
//!
//! Certificates are carried on self-describing wires as hex text. Historical
//! senders emitted a checksummed mixed-case form, current senders emit plain
//! lowercase; the decoder therefore values digits without regard to case.

use vstd::prelude::*;

verus! {

/// Value of one hex digit byte, read without regard to case; 16 marks a
/// byte that is no hex digit.
pub open spec fn hex_val(b: u8) -> int {
    if 0x30 <= b <= 0x39 {
        b - 0x30
    } else if 0x61 <= b <= 0x66 {
        b - 0x61 + 10
    } else if 0x41 <= b <= 0x46 {
        b - 0x41 + 10
    } else {
        16
    }
}

/// Whether a byte is an ASCII hex digit of either case.
pub open spec fn is_hex_digit(b: u8) -> bool {
    hex_val(b) < 16
}

/// The lowercase ASCII hex digit for a value below sixteen.
pub open spec fn hex_digit_lower(n: int) -> u8 {
    if n < 10 {
        (0x30 + n) as u8
    } else {
        (0x57 + n) as u8
    }
}

/// ASCII lowercasing of one byte.
pub open spec fn lower_byte(b: u8) -> u8 {
    if 0x41 <= b <= 0x5a {
        (b + 0x20) as u8
    } else {
        b
    }
}

/// ASCII lowercasing of a byte string.
pub open spec fn lower_bytes(s: Seq<u8>) -> Seq<u8> {
    s.map_values(|b: u8| lower_byte(b))
}

/// Lowercase hex encoding: two digits per byte, high nibble first.
pub open spec fn spec_hex_encode(s: Seq<u8>) -> Seq<u8> {
    Seq::new(
        s.len() * 2,
        |i: int|
            if i % 2 == 0 {
                hex_digit_lower(s[i / 2] as int / 16)
            } else {
                hex_digit_lower(s[i / 2] as int % 16)
            },
    )
}

/// Hex decoding, accepting digits of either case; `None` on odd length or on
/// a byte that is no hex digit.
pub open spec fn spec_hex_decode(h: Seq<u8>) -> Option<Seq<u8>> {
    if h.len() % 2 == 0 && (forall|i: int| 0 <= i < h.len() ==> is_hex_digit(h[i])) {
        Some(Seq::new(h.len() / 2, |i: int| (hex_val(h[2 * i]) * 16 + hex_val(h[2 * i + 1])) as u8))
    } else {
        None
    }
}

/// Valuing a digit ignores its case.
pub proof fn lemma_hex_val_case(b: u8)
    ensures
        hex_val(lower_byte(b)) == hex_val(b),
{
}

/// Decoding hex text ignores the case of its digits: folding the text to
/// lowercase first changes nothing.
pub proof fn lemma_hex_decode_case_insensitive(h: Seq<u8>)
    ensures
        spec_hex_decode(lower_bytes(h)) == spec_hex_decode(h),
{
    let l = lower_bytes(h);
    assert(l.len() == h.len());
    assert forall|i: int| 0 <= i < h.len() implies hex_val(l[i]) == hex_val(h[i]) by {
        lemma_hex_val_case(h[i]);
    }
    if h.len() % 2 == 0 && (forall|i: int| 0 <= i < h.len() ==> is_hex_digit(h[i])) {
        assert forall|i: int| 0 <= i < l.len() implies is_hex_digit(l[i]) by {}
        let dh = Seq::new(
            h.len() / 2,
            |i: int| (hex_val(h[2 * i]) * 16 + hex_val(h[2 * i + 1])) as u8,
        );
        let dl = Seq::new(
            l.len() / 2,
            |i: int| (hex_val(l[2 * i]) * 16 + hex_val(l[2 * i + 1])) as u8,
        );
        assert(dh =~= dl);
    } else {
        if !(forall|i: int| 0 <= i < l.len() ==> is_hex_digit(l[i])) {
        } else {
            assert(forall|i: int| 0 <= i < h.len() ==> is_hex_digit(h[i]));
        }
    }
}

/// Encoding then decoding gives the bytes back: decoding is a left inverse
/// of lowercase hex encoding.
pub proof fn lemma_hex_round_trip(s: Seq<u8>)
    ensures
        spec_hex_decode(spec_hex_encode(s)) == Some(s),
{
    let e = spec_hex_encode(s);
    assert(e.len() == s.len() * 2);
    assert(e.len() % 2 == 0);
    assert forall|i: int| 0 <= i < e.len() implies is_hex_digit(e[i]) by {
        if i % 2 == 0 {
            assert(e[i] == hex_digit_lower(s[i / 2] as int / 16));
        } else {
            assert(e[i] == hex_digit_lower(s[i / 2] as int % 16));
        }
    }
    let d = Seq::new(e.len() / 2, |i: int| (hex_val(e[2 * i]) * 16 + hex_val(e[2 * i + 1])) as u8);
    assert forall|i: int| 0 <= i < s.len() implies d[i] == s[i] by {
        assert(e[2 * i] == hex_digit_lower(s[i] as int / 16));
        assert(e[2 * i + 1] == hex_digit_lower(s[i] as int % 16));
        assert(hex_val(e[2 * i]) == s[i] as int / 16);
        assert(hex_val(e[2 * i + 1]) == s[i] as int % 16);
    }
    assert(d =~= s);
}

/// Encodes bytes as lowercase hex text.
pub fn hex_encode(v: &Vec<u8>) -> (r: Vec<u8>)
    ensures
        r@ == spec_hex_encode(v@),
{
    let mut out: Vec<u8> = Vec::new();
    let mut i: usize = 0;
    while i < v.len()
        invariant
            0 <= i <= v.len(),
            out@ =~= spec_hex_encode(v@).take(2 * i as int),
        decreases v.len() - i,
    {
        let b = v[i];
        let hi = b / 16;
        let lo = b % 16;
        let hid: u8 = if hi < 10 {
            0x30 + hi
        } else {
            0x57 + hi
        };
        let lod: u8 = if lo < 10 {
            0x30 + lo
        } else {
            0x57 + lo
        };
        out.push(hid);
        out.push(lod);
        assert(out@ =~= spec_hex_encode(v@).take(2 * (i + 1) as int));
        i = i + 1;
    }
    assert(out@ =~= spec_hex_encode(v@));
    out
}

/// Decodes hex text to bytes, accepting digits of either case; `None` on
/// odd length or on a byte that is no hex digit.
pub fn hex_decode(h: &Vec<u8>) -> (r: Option<Vec<u8>>)
    ensures
        match r {
            Some(v) => spec_hex_decode(h@) == Some(v@),
            None => spec_hex_decode(h@) is None,
        },
{
    if h.len() % 2 != 0 {
        return None;
    }
    let mut out: Vec<u8> = Vec::new();
    let mut i: usize = 0;
    while i < h.len()
        invariant
            0 <= i <= h.len(),
            i % 2 == 0,
            h@.len() % 2 == 0,
            forall|j: int| 0 <= j < i ==> is_hex_digit(h@[j]),
            out@.len() == i / 2,
            forall|j: int|
                0 <= j < out@.len() ==> out@[j] == (hex_val(h@[2 * j]) * 16 + hex_val(
                    h@[2 * j + 1],
                )) as u8,
        decreases h.len() - i,
    {
        let hi = hex_val_exec(h[i]);
        let lo = hex_val_exec(h[i + 1]);
        if hi == 16 || lo == 16 {
            assert(!is_hex_digit(h@[i as int]) || !is_hex_digit(h@[i as int + 1]));
            return None;
        }
        out.push(hi * 16 + lo);
        i = i + 2;
    }
    let ghost d = Seq::new(
        h@.len() / 2,
        |j: int| (hex_val(h@[2 * j]) * 16 + hex_val(h@[2 * j + 1])) as u8,
    );
    assert(out@ =~= d);
    Some(out)
}

/// Value of one hex digit byte of either case; 16 for a byte that is none.
fn hex_val_exec(b: u8) -> (r: u8)
    ensures
        r == hex_val(b),
{
    if 0x30 <= b && b <= 0x39 {
        b - 0x30
    } else if 0x61 <= b && b <= 0x66 {
        b - 0x61 + 10
    } else if 0x41 <= b && b <= 0x46 {
        b - 0x41 + 10
    } else {
        16
    }
}

} // verus!
