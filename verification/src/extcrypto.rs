//! The cryptographic primitives the session layer composes: Blake2b for key
//! derivation, curve25519 for the ephemeral key agreement, ChaCha20-Poly1305
//! for the per-packet authenticated encryption, and the operating system's
//! random number generator for the ephemeral secret. Each primitive is called
//! through one wrapper here; everything around the calls is verified against
//! the contracts below.
use vstd::prelude::*;

use crypto::aead::{AeadDecryptor, AeadEncryptor};
use crypto::blake2b::Blake2b;
use crypto::chacha20poly1305::ChaCha20Poly1305;
use crypto::curve25519::{curve25519, curve25519_base};
use rand::RngCore;

verus! {

/// The Blake2b digest of `data`, `outlen` bytes long, keyed with `key`.
pub uninterp spec fn blake2b_of(outlen: nat, key: Seq<u8>, data: Seq<u8>) -> Seq<u8>;

/// The curve25519 scalar multiplication of `point` by (the clamping of) `secret`.
pub uninterp spec fn curve25519_of(secret: Seq<u8>, point: Seq<u8>) -> Seq<u8>;

/// The curve25519 multiplication of the base point by (the clamping of) `secret`.
pub uninterp spec fn curve25519_base_of(secret: Seq<u8>) -> Seq<u8>;

/// Ciphertext followed by the 16-byte tag, as ChaCha20-Poly1305 seals `pt`
/// under `key`, `nonce` and the additional authenticated data `aad`.
pub uninterp spec fn aead_cipher_of(key: Seq<u8>, nonce: Seq<u8>, aad: Seq<u8>, pt: Seq<u8>) -> Seq<u8>;

/// What ChaCha20-Poly1305 makes of `ct` and `tag` under `key`, `nonce` and
/// `aad`: the recovered plaintext, or `None` when the tag does not verify.
pub uninterp spec fn aead_open_of(key: Seq<u8>, nonce: Seq<u8>, aad: Seq<u8>, ct: Seq<u8>, tag: Seq<u8>) -> Option<Seq<u8>>;

/// Relies on crypto::blake2b::Blake2b::blake2b: the digest is `outlen` bytes
/// long and a function of `(outlen, key, data)` alone; with an empty `key` it
/// is the unkeyed digest. Its asserts admit `1 <= outlen <= 64` and
/// `key.len() <= 64`.
#[verifier::external_body]
pub(crate) fn blake2b_hash(outlen: usize, key: &Vec<u8>, data: &Vec<u8>) -> (r: Vec<u8>)
    requires
        1 <= outlen <= 64,
        key@.len() <= 64,
    ensures
        r@ == blake2b_of(outlen as nat, key@, data@),
        r@.len() == outlen,
{
    let mut out = vec![0u8; outlen];
    Blake2b::blake2b(&mut out, data.as_slice(), key.as_slice());
    out
}

/// Relies on crypto::curve25519::curve25519_base: the public key is the base
/// point raised to `secret`, 32 bytes, total on 32-byte input. The quantified
/// clause is the Diffie-Hellman property of the Montgomery ladder: raising a
/// peer's base-point multiple to one's own secret commutes, so both peers
/// compute one shared point.
#[verifier::external_body]
pub(crate) fn base_point_mul(secret: &Vec<u8>) -> (r: Vec<u8>)
    requires
        secret@.len() == 32,
    ensures
        r@.len() == 32,
        r@ == curve25519_base_of(secret@),
        forall|s: Seq<u8>|
            s.len() == 32 ==> #[trigger] curve25519_of(s, r@) == curve25519_of(
                secret@,
                curve25519_base_of(s),
            ),
{
    let out = curve25519_base(secret.as_slice());
    out.to_vec()
}

/// Relies on crypto::curve25519::curve25519: scalar multiplication of `point`
/// by `secret`, 32 bytes, total on 32-byte inputs.
#[verifier::external_body]
pub(crate) fn agree(secret: &Vec<u8>, point: &Vec<u8>) -> (r: Vec<u8>)
    requires
        secret@.len() == 32,
        point@.len() == 32,
    ensures
        r@.len() == 32,
        r@ == curve25519_of(secret@, point@),
{
    let out = curve25519(secret.as_slice(), point.as_slice());
    out.to_vec()
}

/// Relies on crypto::chacha20poly1305::ChaCha20Poly1305::{new, encrypt}: the
/// sealed bytes are ciphertext of the same length as `pt` followed by the
/// 16-byte Poly1305 tag, a function of `(key, nonce, aad, pt)` alone; and
/// `decrypt` inverts `encrypt` (the stream cipher is an involution and both
/// sides authenticate the same transcript), so opening the sealed bytes under
/// the same parameters gives `pt` back. Its asserts admit a 16- or 32-byte
/// key and an 8-byte nonce.
#[verifier::external_body]
pub(crate) fn aead_seal(key: &Vec<u8>, nonce: &Vec<u8>, aad: &Vec<u8>, pt: &Vec<u8>) -> (r: Vec<
    u8,
>)
    requires
        key@.len() == 16,
        nonce@.len() == 8,
    ensures
        r@.len() == pt@.len() + 16,
        r@ == aead_cipher_of(key@, nonce@, aad@, pt@),
        aead_open_of(
            key@,
            nonce@,
            aad@,
            r@.take(pt@.len() as int),
            r@.skip(pt@.len() as int),
        ) == Some(pt@),
{
    let mut ct = vec![0u8; pt.len()];
    let mut tag = vec![0u8; 16];
    ChaCha20Poly1305::new(key.as_slice(), nonce.as_slice(), aad.as_slice()).encrypt(
        pt.as_slice(),
        &mut ct,
        &mut tag,
    );
    ct.extend_from_slice(&tag);
    ct
}

/// Relies on crypto::chacha20poly1305::ChaCha20Poly1305::{new, decrypt}:
/// verification precedes decryption, the recovered plaintext has the length
/// of `ct`, and the outcome is a function of `(key, nonce, aad, ct, tag)`
/// alone. Its asserts admit a 16- or 32-byte key and an 8-byte nonce.
#[verifier::external_body]
pub(crate) fn aead_open(key: &Vec<u8>, nonce: &Vec<u8>, aad: &Vec<u8>, ct: &Vec<u8>, tag: &Vec<
    u8,
>) -> (r: Option<Vec<u8>>)
    requires
        key@.len() == 16,
        nonce@.len() == 8,
        tag@.len() == 16,
    ensures
        match r {
            Some(pt) => aead_open_of(key@, nonce@, aad@, ct@, tag@) == Some(pt@) && pt@.len()
                == ct@.len(),
            None => aead_open_of(key@, nonce@, aad@, ct@, tag@) is None,
        },
{
    let mut out = vec![0u8; ct.len()];
    let ok = ChaCha20Poly1305::new(key.as_slice(), nonce.as_slice(), aad.as_slice()).decrypt(
        ct.as_slice(),
        &mut out,
        tag.as_slice(),
    );
    if ok {
        Some(out)
    } else {
        None
    }
}

/// Relies on rand::rngs::OsRng (rand_core::OsRng): fills a buffer with `n`
/// bytes from the operating system's cryptographically secure generator.
/// Nothing is assumed of the values.
#[verifier::external_body]
pub(crate) fn random_bytes(n: usize) -> (r: Vec<u8>)
    ensures
        r@.len() == n,
{
    let mut out = vec![0u8; n];
    rand::rngs::OsRng.fill_bytes(&mut out);
    out
}

} // verus!
