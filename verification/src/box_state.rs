//! One direction's cipher state: a 16-byte subkey and a 16-byte nonce, both
//! derived from a seed key by domain-separated hashing, and a sequence
//! counter bound into every packet as additional authenticated data. The
//! nonce advances by a little-endian byte-wise increment after every seal,
//! and after every successful open — never after a failed one, so a failed
//! verification leaves the state untouched.
use vstd::prelude::*;

use crate::extcrypto::{aead_cipher_of, aead_open, aead_open_of, aead_seal, blake2b_hash, blake2b_of};
use crate::wire::{copy_range, u64_le, u64_le_spec};

verus! {

/// The domain-separation label under which a seed key is hashed into the
/// initial nonce: the bytes of "nonce".
pub open spec fn nonce_label() -> Seq<u8> {
    seq![110u8, 111u8, 110u8, 99u8, 101u8]
}

/// The domain-separation label under which a seed key is hashed into the
/// subkey: the bytes of "key".
pub open spec fn key_label() -> Seq<u8> {
    seq![107u8, 101u8, 121u8]
}

/// The mathematical value of one direction's cipher state.
pub ghost struct CipherM {
    pub key: Seq<u8>,
    pub nonce: Seq<u8>,
    pub pos: u64,
}

pub open spec fn cipher_wf(c: CipherM) -> bool {
    c.key.len() == 16 && c.nonce.len() == 16
}

/// The state derived from a 16-byte seed key: two domain-separated hashes,
/// sequence zero.
pub open spec fn cipher_from_seed(seed: Seq<u8>) -> CipherM {
    CipherM {
        key: blake2b_of(16, key_label(), seed),
        nonce: blake2b_of(16, nonce_label(), seed),
        pos: 0,
    }
}

/// The nonce treated as a little-endian integer and incremented by one:
/// bump the first byte; where it wraps, carry into the next.
pub open spec fn inc_nonce(s: Seq<u8>) -> Seq<u8>
    decreases s.len(),
{
    if s.len() == 0 {
        s
    } else if s[0] == 255 {
        seq![0u8] + inc_nonce(s.skip(1))
    } else {
        seq![(s[0] + 1) as u8] + s.skip(1)
    }
}

/// How one seal or successful open advances the state.
pub open spec fn step_cipher(c: CipherM) -> CipherM {
    CipherM {
        key: c.key,
        nonce: inc_nonce(c.nonce),
        pos: if c.pos == u64::MAX {
            0
        } else {
            (c.pos + 1) as u64
        },
    }
}

/// What sealing `pt` in state `c` puts on the wire (ciphertext then tag):
/// the AEAD under the subkey, the first eight nonce bytes, and the sequence
/// number as additional authenticated data.
pub open spec fn seal_of(c: CipherM, pt: Seq<u8>) -> Seq<u8> {
    aead_cipher_of(c.key, c.nonce.take(8), u64_le_spec(c.pos), pt)
}

/// What opening `(ct, tag)` in state `c` yields.
pub open spec fn open_of(c: CipherM, ct: Seq<u8>, tag: Seq<u8>) -> Option<Seq<u8>> {
    aead_open_of(c.key, c.nonce.take(8), u64_le_spec(c.pos), ct, tag)
}

/// The nonce after `n` carry increments.
pub open spec fn inc_nonce_n(s: Seq<u8>, n: nat) -> Seq<u8>
    decreases n,
{
    if n == 0 {
        s
    } else {
        inc_nonce(inc_nonce_n(s, (n - 1) as nat))
    }
}

/// The increment keeps the nonce's length.
pub proof fn lemma_inc_nonce_len(s: Seq<u8>)
    ensures
        inc_nonce(s).len() == s.len(),
    decreases s.len(),
{
    if s.len() > 0 {
        if s[0] == 255 {
            lemma_inc_nonce_len(s.skip(1));
        }
    }
}

/// No nonce equals its own increment: the first byte always changes, so two
/// successive seals never reuse the same (key, nonce) pair.
pub proof fn lemma_nonce_advances(s: Seq<u8>)
    requires
        s.len() > 0,
    ensures
        inc_nonce(s)[0] != s[0],
        inc_nonce(s) != s,
{
    if s[0] == 255 {
        assert(inc_nonce(s)[0] == 0);
    } else {
        assert(inc_nonce(s)[0] == (s[0] + 1) as u8);
    }
}

/// The first byte changes, so even the eight-byte prefix handed to the
/// primitive differs between two successive states.
pub proof fn lemma_nonce_prefix_advances(s: Seq<u8>)
    requires
        s.len() >= 8,
    ensures
        inc_nonce(s).take(8) != s.take(8),
{
    lemma_inc_nonce_len(s);
    lemma_nonce_advances(s);
    assert(inc_nonce(s).take(8)[0] == inc_nonce(s)[0]);
    assert(s.take(8)[0] == s[0]);
}

/// Iterated increments keep the nonce's length.
pub proof fn lemma_inc_nonce_n_len(s: Seq<u8>, n: nat)
    ensures
        inc_nonce_n(s, n).len() == s.len(),
    decreases n,
{
    if n > 0 {
        lemma_inc_nonce_n_len(s, (n - 1) as nat);
        lemma_inc_nonce_len(inc_nonce_n(s, (n - 1) as nat));
    }
}

/// After any number of seals, the next seal still uses a nonce different
/// from the one before it: no two successive operations reuse a (key, nonce)
/// pair.
pub proof fn lemma_no_successive_reuse(s: Seq<u8>, n: nat)
    requires
        s.len() > 0,
    ensures
        inc_nonce_n(s, n + 1) != inc_nonce_n(s, n),
{
    lemma_inc_nonce_n_len(s, n);
    lemma_nonce_advances(inc_nonce_n(s, n));
    assert(inc_nonce_n(s, n + 1) == inc_nonce(inc_nonce_n(s, n)));
}

/// Shape of the increment when the first `i` bytes carry and byte `i` does
/// not.
proof fn lemma_inc_nonce_shape(s: Seq<u8>, i: int)
    requires
        0 <= i < s.len(),
        forall|j: int| 0 <= j < i ==> s[j] == 255,
        s[i] != 255,
    ensures
        inc_nonce(s) == Seq::new(
            s.len(),
            |j: int|
                if j < i {
                    0u8
                } else if j == i {
                    (s[i] + 1) as u8
                } else {
                    s[j]
                },
        ),
    decreases i,
{
    if i == 0 {
        assert(inc_nonce(s) =~= Seq::new(
            s.len(),
            |j: int|
                if j < 0 {
                    0u8
                } else if j == 0 {
                    (s[0] + 1) as u8
                } else {
                    s[j]
                },
        ));
    } else {
        lemma_inc_nonce_shape(s.skip(1), i - 1);
        assert(inc_nonce(s) =~= Seq::new(
            s.len(),
            |j: int|
                if j < i {
                    0u8
                } else if j == i {
                    (s[i] + 1) as u8
                } else {
                    s[j]
                },
        ));
    }
}

/// Shape of the increment when every byte carries: the nonce wraps to zero.
proof fn lemma_inc_nonce_all_carry(s: Seq<u8>)
    requires
        forall|j: int| 0 <= j < s.len() ==> s[j] == 255,
    ensures
        inc_nonce(s) == Seq::new(s.len(), |j: int| 0u8),
    decreases s.len(),
{
    if s.len() == 0 {
        assert(inc_nonce(s) =~= Seq::new(s.len(), |j: int| 0u8));
    } else {
        lemma_inc_nonce_all_carry(s.skip(1));
        assert(inc_nonce(s) =~= Seq::new(s.len(), |j: int| 0u8));
    }
}

/// One direction's cipher state as held at run time.
pub struct BoxState {
    nonce: Vec<u8>,
    key: Vec<u8>,
    pos: u64,
}

impl View for BoxState {
    type V = CipherM;

    closed spec fn view(&self) -> CipherM {
        CipherM { key: self.key@, nonce: self.nonce@, pos: self.pos }
    }
}

impl BoxState {
    pub open spec fn wf(&self) -> bool {
        cipher_wf(self@)
    }

    /// Derives the subkey and the initial nonce from a 16-byte seed key by
    /// two domain-separated hashes; the sequence starts at zero.
    pub fn new(seed_key: &Vec<u8>) -> (r: BoxState)
        requires
            seed_key@.len() == 16,
        ensures
            r.wf(),
            r@ == cipher_from_seed(seed_key@),
    {
        let mut nonce_lab: Vec<u8> = Vec::new();
        nonce_lab.push(110);
        nonce_lab.push(111);
        nonce_lab.push(110);
        nonce_lab.push(99);
        nonce_lab.push(101);
        let mut key_lab: Vec<u8> = Vec::new();
        key_lab.push(107);
        key_lab.push(101);
        key_lab.push(121);
        proof {
            assert(nonce_lab@ =~= nonce_label());
            assert(key_lab@ =~= key_label());
        }
        let nonce = blake2b_hash(16, &nonce_lab, seed_key);
        let key = blake2b_hash(16, &key_lab, seed_key);
        BoxState { nonce, key, pos: 0 }
    }

    /// Advances the nonce by the little-endian carry increment and the
    /// sequence counter by one (both wrap silently at their top).
    pub fn increment(&mut self)
        requires
            old(self).wf(),
        ensures
            final(self).wf(),
            final(self)@ == step_cipher(old(self)@),
    {
        let ghost s = old(self)@.nonce;
        let ghost k = old(self)@.key;
        let ghost p = old(self)@.pos;
        let mut i: usize = 0;
        let mut done: bool = false;
        while !done && i < 16
            invariant
                i <= 16,
                s.len() == 16,
                self.key@ == k,
                self.pos == p,
                self.nonce@.len() == 16,
                !done ==> forall|j: int| 0 <= j < i ==> s[j] == 255 && self.nonce@[j] == 0,
                !done ==> forall|j: int| i <= j < 16 ==> self.nonce@[j] == s[j],
                done ==> self.nonce@ == inc_nonce(s),
            decreases 16 - i, (if done { 0int } else { 1int }),
        {
            let b = self.nonce[i];
            if b == 255 {
                self.nonce[i] = 0;
                i = i + 1;
            } else {
                let ghost pre = self.nonce@;
                self.nonce[i] = b + 1;
                proof {
                    lemma_inc_nonce_shape(s, i as int);
                    lemma_inc_nonce_len(s);
                    assert(self.nonce@ == pre.update(i as int, (b + 1) as u8));
                    assert forall|j: int| 0 <= j < 16 implies self.nonce@[j] == inc_nonce(s)[j] by {
                        assert(inc_nonce(s)[j] == if j < i {
                            0u8
                        } else if j == i {
                            (s[j] + 1) as u8
                        } else {
                            s[j]
                        });
                        if j < i {
                            assert(s[j] == 255);
                            assert(pre[j] == 0);
                            assert(self.nonce@[j] == 0);
                        } else if j == i {
                            assert(self.nonce@[j] == (b + 1) as u8);
                            assert(b == s[i as int]);
                        } else {
                            assert(pre[j] == s[j]);
                            assert(self.nonce@[j] == pre[j]);
                        }
                    }
                    assert(self.nonce@ =~= inc_nonce(s));
                }
                done = true;
            }
        }
        proof {
            if !done {
                lemma_inc_nonce_all_carry(s);
                assert(i == 16);
                assert(forall|j: int| 0 <= j < i ==> s[j] == 255 && self.nonce@[j] == 0);
                assert forall|j: int| 0 <= j < 16 implies self.nonce@[j] == inc_nonce(s)[j] by {
                    assert(0 <= j < i);
                    assert(s[j] == 255);
                    assert(self.nonce@[j] == 0);
                    assert(inc_nonce(s)[j] == 0u8);
                }
                assert(self.nonce@ =~= inc_nonce(s));
            }
        }
        if self.pos == u64::MAX {
            self.pos = 0;
        } else {
            self.pos = self.pos + 1;
        }
        proof {
            lemma_inc_nonce_len(s);
        }
    }

    /// Seals `input`: one AEAD call under the current state, whose sequence
    /// number is the additional authenticated data, then the state advances.
    /// Returns ciphertext followed by the 16-byte tag.
    pub fn encrypt(&mut self, input: &Vec<u8>) -> (r: Vec<u8>)
        requires
            old(self).wf(),
        ensures
            final(self).wf(),
            r@.len() == input@.len() + 16,
            r@ == seal_of(old(self)@, input@),
            open_of(old(self)@, r@.take(input@.len() as int), r@.skip(input@.len() as int))
                == Some(input@),
            final(self)@ == step_cipher(old(self)@),
    {
        let aad = u64_le(self.pos);
        let n8 = copy_range(&self.nonce, 0, 8);
        proof {
            assert(n8@ =~= self@.nonce.take(8));
        }
        let r = aead_seal(&self.key, &n8, &aad, input);
        self.increment();
        r
    }

    /// Attempts to open `(input, tag)` under the current state. The state
    /// advances only on success; a failed verification changes nothing, so
    /// the operation is retriable with correct input.
    pub fn decrypt(&mut self, input: &Vec<u8>, tag: &Vec<u8>) -> (r: Option<Vec<u8>>)
        requires
            old(self).wf(),
            tag@.len() == 16,
        ensures
            final(self).wf(),
            match r {
                Some(pt) => {
                    &&& open_of(old(self)@, input@, tag@) == Some(pt@)
                    &&& pt@.len() == input@.len()
                    &&& final(self)@ == step_cipher(old(self)@)
                },
                None => {
                    &&& open_of(old(self)@, input@, tag@) is None
                    &&& final(self)@ == old(self)@
                },
            },
    {
        let aad = u64_le(self.pos);
        let n8 = copy_range(&self.nonce, 0, 8);
        proof {
            assert(n8@ =~= self@.nonce.take(8));
        }
        match aead_open(&self.key, &n8, &aad, input, tag) {
            Some(pt) => {
                self.increment();
                Some(pt)
            },
            None => None,
        }
    }
}

} // verus!
