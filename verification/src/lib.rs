//! Peer-handshake and message-envelope core of a peer-to-peer node.
//!
//! A message on the wire is either a handshake — network name, public
//! address, protocol version, and an optional consensus certificate proving
//! control of a validator key for this one connection — or an opaque
//! application payload. The handshake must stay byte-exact interoperable
//! across three historical wire generations; the codec here encodes the
//! current generation and decodes all three.

use vstd::prelude::*;

pub mod addr;
pub mod cert;
pub mod codec;
pub mod decimal;
pub mod hex;
pub mod message;
pub mod version;

verus! {

/// Malformed wire input: bad shape, bad hex, bad address or version text.
/// The handshake that carried it is aborted by the caller.
#[derive(Clone, Copy, Debug, PartialEq, Eq, Structural)]
pub struct DecodeError;

/// A certificate's signature does not validate against its public key and
/// the given connection identifier.
#[derive(Clone, Copy, Debug, PartialEq, Eq, Structural)]
pub struct VerificationError;

/// Copies the bytes of `v` from `start` (inclusive) to `end` (exclusive)
/// into a fresh vector.
pub fn copy_range(v: &Vec<u8>, start: usize, end: usize) -> (r: Vec<u8>)
    requires
        start <= end <= v@.len(),
    ensures
        r@ == v@.subrange(start as int, end as int),
{
    let mut out: Vec<u8> = Vec::new();
    let mut i: usize = start;
    while i < end
        invariant
            start <= i <= end <= v@.len(),
            out@ =~= v@.subrange(start as int, i as int),
        decreases end - i,
    {
        out.push(v[i]);
        assert(out@ =~= v@.subrange(start as int, i as int + 1));
        i = i + 1;
    }
    out
}

/// Appends all bytes of `v` to `out`.
pub fn append_bytes(out: &mut Vec<u8>, v: &Vec<u8>)
    ensures
        final(out)@ == old(out)@ + v@,
{
    let mut i: usize = 0;
    while i < v.len()
        invariant
            0 <= i <= v@.len(),
            out@ =~= old(out)@ + v@.take(i as int),
        decreases v@.len() - i,
    {
        out.push(v[i]);
        assert(out@ =~= old(out)@ + v@.take(i as int + 1));
        i = i + 1;
    }
    assert(out@ =~= old(out)@ + v@);
}

} // verus!
