//! Little-endian integer encodings and small byte-vector helpers used by the
//! wire format: the `u16` packet length prefix and the `u64` sequence number
//! that serves as additional authenticated data.
use vstd::prelude::*;

verus! {

/// The number a two-byte little-endian encoding stands for.
pub open spec fn u16_from_le_spec(lo: u8, hi: u8) -> nat {
    lo as nat + 256 * (hi as nat)
}

/// Two-byte little-endian encoding of `n`.
pub open spec fn u16_le_spec(n: u16) -> Seq<u8> {
    seq![(n as nat % 256) as u8, (n as nat / 256) as u8]
}

/// Eight-byte little-endian encoding of `n`.
pub open spec fn u64_le_spec(n: u64) -> Seq<u8> {
    seq![
        (n as nat % 256) as u8,
        (n as nat / 0x100 % 256) as u8,
        (n as nat / 0x10000 % 256) as u8,
        (n as nat / 0x1000000 % 256) as u8,
        (n as nat / 0x100000000 % 256) as u8,
        (n as nat / 0x10000000000 % 256) as u8,
        (n as nat / 0x1000000000000 % 256) as u8,
        (n as nat / 0x100000000000000 % 256) as u8,
    ]
}

/// Encoding then decoding a `u16` gives the number back.
pub proof fn lemma_u16_le_roundtrip(n: u16)
    ensures
        u16_from_le_spec(u16_le_spec(n)[0], u16_le_spec(n)[1]) == n,
{
    assert(n as nat % 256 + 256 * (n as nat / 256) == n as nat) by (nonlinear_arith);
}

/// Reads a `u16` from two bytes, least-significant first.
pub fn u16_from_le(lo: u8, hi: u8) -> (r: u16)
    ensures
        r == u16_from_le_spec(lo, hi),
{
    lo as u16 + 256 * (hi as u16)
}

/// Writes the two-byte little-endian encoding of `n`.
pub fn u16_le(n: u16) -> (r: Vec<u8>)
    ensures
        r@ == u16_le_spec(n),
{
    let mut r: Vec<u8> = Vec::new();
    r.push((n % 256) as u8);
    r.push((n / 256) as u8);
    proof {
        assert(r@ =~= u16_le_spec(n));
    }
    r
}

/// Writes the eight-byte little-endian encoding of `n`.
pub fn u64_le(n: u64) -> (r: Vec<u8>)
    ensures
        r@ == u64_le_spec(n),
{
    let mut r: Vec<u8> = Vec::new();
    r.push((n % 256) as u8);
    r.push((n / 0x100 % 256) as u8);
    r.push((n / 0x10000 % 256) as u8);
    r.push((n / 0x1000000 % 256) as u8);
    r.push((n / 0x100000000 % 256) as u8);
    r.push((n / 0x10000000000 % 256) as u8);
    r.push((n / 0x1000000000000 % 256) as u8);
    r.push((n / 0x100000000000000 % 256) as u8);
    proof {
        assert(r@ =~= u64_le_spec(n));
    }
    r
}

/// Appends every byte of `src` to `dst`.
pub fn append_bytes(dst: &mut Vec<u8>, src: &Vec<u8>)
    ensures
        final(dst)@ == old(dst)@ + src@,
{
    let mut i: usize = 0;
    while i < src.len()
        invariant
            i <= src.len(),
            dst@ == old(dst)@ + src@.take(i as int),
        decreases src.len() - i,
    {
        dst.push(src[i]);
        proof {
            assert(old(dst)@ + src@.take(i as int) + seq![src@[i as int]]
                =~= old(dst)@ + src@.take(i + 1));
        }
        i = i + 1;
    }
    proof {
        assert(src@.take(src@.len() as int) =~= src@);
    }
}

/// A fresh copy of the bytes of `src` from `start` on, `n` of them.
pub fn copy_range(src: &Vec<u8>, start: usize, n: usize) -> (r: Vec<u8>)
    requires
        start + n <= src@.len(),
    ensures
        r@ == src@.subrange(start as int, start + n),
{
    let mut r: Vec<u8> = Vec::new();
    let srclen: usize = src.len();
    let mut i: usize = 0;
    while i < n
        invariant
            i <= n,
            start + n <= src@.len(),
            src@.len() == srclen,
            r@ == src@.subrange(start as int, start + i),
        decreases n - i,
    {
        r.push(src[start + i]);
        proof {
            assert(src@.subrange(start as int, start + i) + seq![src@[start + i]]
                =~= src@.subrange(start as int, start + i + 1));
        }
        i = i + 1;
    }
    r
}

} // verus!
