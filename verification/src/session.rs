//! The session: a two-state machine in front of the framer and the two
//! directional cipher states. Before the handshake it owns an ephemeral key
//! pair and waits for the peer's public key; after it, every call to
//! `encrypt` seals one packet and every call to `decrypt` drains the framer,
//! opening packets in order and failing closed on the first bad tag.
use vstd::prelude::*;

use crate::box_state::{cipher_from_seed, open_of, seal_of, step_cipher, BoxState, CipherM};
use crate::extcrypto::{
    agree, base_point_mul, blake2b_hash, blake2b_of, curve25519_base_of, curve25519_of,
    random_bytes,
};
use crate::framer::{packet_ct, packet_len, packet_ready, packet_rest, packet_tag, PacketFramer};
use crate::sink::Sink;
use crate::wire::{append_bytes, copy_range, lemma_u16_le_roundtrip, u16_le, u16_le_spec};

verus! {

/// The one fatal protocol error a session can report: a packet whose tag did
/// not verify. The peers' counters can no longer be trusted to agree, so the
/// caller must tear the transport down.
#[derive(Clone, Copy, Debug, PartialEq, Eq, Structural)]
pub enum CryptoError {
    AuthenticationFailure,
}

/// The mathematical value of a session's state machine.
pub ghost enum PhaseM {
    PreHandshake { secret: Seq<u8>, public: Seq<u8> },
    Ready { send: CipherM, recv: CipherM },
}

/// The seed key derived from the shared point and the two public keys in the
/// given order: the unkeyed 16-byte hash of their concatenation.
pub open spec fn seed_for(shared: Seq<u8>, first: Seq<u8>, second: Seq<u8>) -> Seq<u8> {
    blake2b_of(16, Seq::<u8>::empty(), shared + first + second)
}

/// The Ready phase a peer reaches from its own secret, its own public key
/// and the peer's public key: the send direction is seeded with our public
/// key hashed first, the receive direction with theirs first.
pub open spec fn phase_after_handshake(secret: Seq<u8>, our_pk: Seq<u8>, their_pk: Seq<u8>) -> PhaseM {
    let shared = curve25519_of(secret, their_pk);
    PhaseM::Ready {
        send: cipher_from_seed(seed_for(shared, our_pk, their_pk)),
        recv: cipher_from_seed(seed_for(shared, their_pk, our_pk)),
    }
}

/// Role symmetry of the handshake: when the two peers agree on the shared
/// point, A's send-direction cipher state is exactly B's receive-direction
/// cipher state, and vice versa — no role negotiation is needed.
pub proof fn lemma_handshake_symmetry(sa: Seq<u8>, pa: Seq<u8>, sb: Seq<u8>, pb: Seq<u8>)
    requires
        curve25519_of(sa, pb) == curve25519_of(sb, pa),
    ensures
        phase_after_handshake(sa, pa, pb)->Ready_send == phase_after_handshake(sb, pb, pa)->Ready_recv,
        phase_after_handshake(sa, pa, pb)->Ready_recv == phase_after_handshake(sb, pb, pa)->Ready_send,
{
}

/// One packet as `encrypt` frames it in cipher state `c`: the plaintext
/// length as a little-endian `u16`, the ciphertext, the 16-byte tag.
pub open spec fn frame_for(c: CipherM, pt: Seq<u8>) -> Seq<u8> {
    u16_le_spec(pt.len() as u16) + seal_of(c, pt)
}

/// What one `decrypt` pass makes of a phase and the buffered bytes.
pub ghost struct StepOut {
    /// The phase after the pass.
    pub phase: PhaseM,
    /// The bytes that remain buffered.
    pub rest: Seq<u8>,
    /// The plaintexts delivered, oldest first.
    pub delivered: Seq<Seq<u8>>,
    /// Whether a packet failed authentication (fatal; the pass stops).
    pub failed: bool,
}

/// The session's receive algorithm over its mathematical state: take the
/// 32-byte handshake message while pre-handshake, then packets while ready,
/// each unit consumed greedily until the bytes fall short; stop at the first
/// packet whose tag does not verify, with everything (phase, buffered bytes)
/// as it stood when that packet was met.
pub open spec fn process(phase: PhaseM, pend: Seq<u8>) -> StepOut
    decreases pend.len(),
{
    match phase {
        PhaseM::PreHandshake { secret, public } => {
            if pend.len() >= 32 {
                process(phase_after_handshake(secret, public, pend.take(32)), pend.skip(32))
            } else {
                StepOut { phase, rest: pend, delivered: Seq::empty(), failed: false }
            }
        },
        PhaseM::Ready { send, recv } => {
            if packet_ready(pend) {
                match open_of(recv, packet_ct(pend), packet_tag(pend)) {
                    Some(pt) => {
                        let out = process(
                            PhaseM::Ready { send, recv: step_cipher(recv) },
                            packet_rest(pend),
                        );
                        StepOut {
                            phase: out.phase,
                            rest: out.rest,
                            delivered: seq![pt] + out.delivered,
                            failed: out.failed,
                        }
                    },
                    None => StepOut { phase, rest: pend, delivered: Seq::empty(), failed: true },
                }
            } else {
                StepOut { phase, rest: pend, delivered: Seq::empty(), failed: false }
            }
        },
    }
}

/// Chunking invariance: processing `pend` and then processing what remained
/// with `more` appended delivers the same plaintexts, in the same order, and
/// ends in the same state, as processing `pend + more` in one pass. Feeding
/// a stream byte by byte therefore behaves exactly like feeding it whole.
pub proof fn lemma_process_chunked(phase: PhaseM, pend: Seq<u8>, more: Seq<u8>)
    ensures
        ({
            let first = process(phase, pend);
            let whole = process(phase, pend + more);
            !first.failed ==> {
                let second = process(first.phase, first.rest + more);
                whole == StepOut {
                    phase: second.phase,
                    rest: second.rest,
                    delivered: first.delivered + second.delivered,
                    failed: second.failed,
                }
            }
        }),
    decreases pend.len(),
{
    let first = process(phase, pend);
    let whole = process(phase, pend + more);
    match phase {
        PhaseM::PreHandshake { secret, public } => {
            if pend.len() >= 32 {
                assert((pend + more).take(32) =~= pend.take(32));
                assert((pend + more).skip(32) =~= pend.skip(32) + more);
                let next = phase_after_handshake(secret, public, pend.take(32));
                lemma_process_chunked(next, pend.skip(32), more);
                assert(first.delivered =~= process(next, pend.skip(32)).delivered);
            } else {
                assert(first.rest + more =~= pend + more);
                assert(Seq::<Seq<u8>>::empty() + process(phase, pend + more).delivered =~= process(
                    phase,
                    pend + more,
                ).delivered);
            }
        },
        PhaseM::Ready { send, recv } => {
            if packet_ready(pend) {
                let n = packet_len(pend) as int;
                assert((pend + more).len() >= 2 && (pend + more)[0] == pend[0] && (pend + more)[1]
                    == pend[1]);
                assert(packet_len(pend + more) == packet_len(pend));
                assert(packet_ready(pend + more));
                assert(packet_ct(pend + more) =~= packet_ct(pend));
                assert(packet_tag(pend + more) =~= packet_tag(pend));
                assert(packet_rest(pend + more) =~= packet_rest(pend) + more);
                match open_of(recv, packet_ct(pend), packet_tag(pend)) {
                    Some(pt) => {
                        let stepped = PhaseM::Ready { send, recv: step_cipher(recv) };
                        lemma_process_chunked(stepped, packet_rest(pend), more);
                        let inner_first = process(stepped, packet_rest(pend));
                        if !inner_first.failed {
                            let second = process(inner_first.phase, inner_first.rest + more);
                            assert(seq![pt] + (inner_first.delivered + second.delivered) =~= (
                            seq![pt] + inner_first.delivered) + second.delivered);
                        }
                    },
                    None => {},
                }
            } else {
                assert(first.rest + more =~= pend + more);
                assert(Seq::<Seq<u8>>::empty() + process(phase, pend + more).delivered =~= process(
                    phase,
                    pend + more,
                ).delivered);
            }
        },
    }
}

/// Once ready, always ready: no quantity of input moves a session back
/// before its handshake.
pub proof fn lemma_process_ready_stays(phase: PhaseM, pend: Seq<u8>)
    requires
        phase is Ready,
    ensures
        process(phase, pend).phase is Ready,
    decreases pend.len(),
{
    match phase {
        PhaseM::PreHandshake { .. } => {},
        PhaseM::Ready { send, recv } => {
            if packet_ready(pend) {
                match open_of(recv, packet_ct(pend), packet_tag(pend)) {
                    Some(pt) => {
                        lemma_process_ready_stays(
                            PhaseM::Ready { send, recv: step_cipher(recv) },
                            packet_rest(pend),
                        );
                    },
                    None => {},
                }
            }
        },
    }
}

/// The session's state machine: an ephemeral key pair before the handshake,
/// one cipher state per direction after it. The transition is irreversible.
pub enum CryptoState {
    PreHandshake(Vec<u8>, Vec<u8>),
    Ready(BoxState, BoxState),
}

impl CryptoState {
    pub open spec fn wf(&self) -> bool {
        match self {
            CryptoState::PreHandshake(sk, pk) => sk@.len() == 32 && pk@.len() == 32,
            CryptoState::Ready(enc, dec) => enc.wf() && dec.wf(),
        }
    }

    pub open spec fn phase(&self) -> PhaseM {
        match self {
            CryptoState::PreHandshake(sk, pk) => PhaseM::PreHandshake {
                secret: sk@,
                public: pk@,
            },
            CryptoState::Ready(enc, dec) => PhaseM::Ready { send: enc@, recv: dec@ },
        }
    }
}

/// A session: the state machine plus the reassembling framer.
pub struct CryptoStruct {
    state: CryptoState,
    buf: PacketFramer,
}

/// The session interface: a session is created with a sink for outbound
/// bytes (the sole handshake message leaves through it at construction),
/// seals plaintext into framed packets, and turns raw inbound bytes into
/// delivered plaintexts. `encrypt` is callable only once the handshake is
/// done, with at most 65535 bytes at a time.
pub trait CryptoStream: Sized {
    spec fn inv(&self) -> bool;

    spec fn handshaken(&self) -> bool;

    fn new<S: Sink>(send_to_world: &mut S) -> (r: Self)
        ensures
            r.inv(),
    ;

    fn encrypt<S: Sink>(&mut self, data: &Vec<u8>, send_to_world: &mut S)
        requires
            old(self).inv(),
            old(self).handshaken(),
            data@.len() <= 0xFFFF,
        ensures
            final(self).inv(),
            final(self).handshaken(),
    ;

    fn decrypt<S: Sink>(&mut self, data: &Vec<u8>, recv_to_local_process: &mut S) -> (r: Result<
        (),
        CryptoError,
    >)
        requires
            old(self).inv(),
        ensures
            final(self).inv(),
    ;
}

impl CryptoStruct {
    pub closed spec fn wf(&self) -> bool {
        self.state.wf() && self.buf.wf()
    }

    pub closed spec fn phase(&self) -> PhaseM {
        self.state.phase()
    }

    /// The inbound bytes buffered and not yet consumed.
    pub closed spec fn pending(&self) -> Seq<u8> {
        self.buf.rest()
    }

    /// Whether the handshake has completed: callers that cannot carry the
    /// proof obligation check this before calling `encrypt`.
    pub fn handshake_done(&self) -> (r: bool)
        ensures
            r == (self.phase() is Ready),
    {
        match &self.state {
            CryptoState::PreHandshake(_, _) => false,
            CryptoState::Ready(_, _) => true,
        }
    }

    /// Builds a session from a given 32-byte secret: derives the public key,
    /// emits it through the sink, and waits for the peer's. `new` draws the
    /// secret from the system generator; this constructor is deterministic.
    pub fn with_secret<S: Sink>(secret: Vec<u8>, send_to_world: &mut S) -> (r: CryptoStruct)
        requires
            secret@.len() == 32,
        ensures
            r.wf(),
            r.pending() == Seq::<u8>::empty(),
            r.phase() == (PhaseM::PreHandshake {
                secret: secret@,
                public: curve25519_base_of(secret@),
            }),
            final(send_to_world).received() == old(send_to_world).received().push(
                curve25519_base_of(secret@),
            ),
            forall|s2: Seq<u8>|
                s2.len() == 32 ==> #[trigger] curve25519_of(s2, curve25519_base_of(secret@))
                    == curve25519_of(secret@, curve25519_base_of(s2)),
    {
        let public = base_point_mul(&secret);
        send_to_world.accept(&public);
        CryptoStruct {
            state: CryptoState::PreHandshake(secret, public),
            buf: PacketFramer::new(),
        }
    }

    /// Runs the key exchange once the peer's public key is in: the shared
    /// point from our secret and their key, one seed per direction with the
    /// public keys hashed in opposite orders, and the two cipher states.
    fn install_keys(&mut self, their_pk: &Vec<u8>)
        requires
            old(self).wf(),
            old(self).phase() is PreHandshake,
            their_pk@.len() == 32,
        ensures
            final(self).wf(),
            final(self).phase() == phase_after_handshake(
                old(self).phase()->PreHandshake_secret,
                old(self).phase()->PreHandshake_public,
                their_pk@,
            ),
            final(self).pending() == old(self).pending(),
            final(self).buf == old(self).buf,
    {
        let (sk, pk) = match &self.state {
            CryptoState::PreHandshake(sk, pk) => {
                (copy_range(sk, 0, sk.len()), copy_range(pk, 0, pk.len()))
            },
            CryptoState::Ready(_, _) => {
                proof {
                    assert(false);
                }
                (Vec::new(), Vec::new())
            },
        };
        proof {
            assert(sk@ =~= old(self).phase()->PreHandshake_secret);
            assert(pk@ =~= old(self).phase()->PreHandshake_public);
        }
        let shared = agree(&sk, their_pk);
        let mut ours: Vec<u8> = Vec::new();
        append_bytes(&mut ours, &shared);
        append_bytes(&mut ours, &pk);
        append_bytes(&mut ours, their_pk);
        let mut theirs: Vec<u8> = Vec::new();
        append_bytes(&mut theirs, &shared);
        append_bytes(&mut theirs, their_pk);
        append_bytes(&mut theirs, &pk);
        let empty_key: Vec<u8> = Vec::new();
        let our_seed = blake2b_hash(16, &empty_key, &ours);
        let their_seed = blake2b_hash(16, &empty_key, &theirs);
        proof {
            assert(empty_key@ =~= Seq::<u8>::empty());
            assert(our_seed@ == seed_for(shared@, pk@, their_pk@));
            assert(their_seed@ == seed_for(shared@, their_pk@, pk@));
        }
        let enc = BoxState::new(&our_seed);
        let dec = BoxState::new(&their_seed);
        self.state = CryptoState::Ready(enc, dec);
    }
}

impl CryptoStream for CryptoStruct {
    open spec fn inv(&self) -> bool {
        self.wf()
    }

    open spec fn handshaken(&self) -> bool {
        self.phase() is Ready
    }

    /// Creates a session: a fresh ephemeral key pair from the system
    /// generator, whose 32-byte public key is emitted through the sink as
    /// the sole, unsolicited handshake message.
    fn new<S: Sink>(send_to_world: &mut S) -> (r: Self)
        ensures
            r.inv(),
            !r.handshaken(),
            r.pending() == Seq::<u8>::empty(),
            r.phase() is PreHandshake,
            r.phase()->PreHandshake_secret.len() == 32,
            r.phase()->PreHandshake_public == curve25519_base_of(r.phase()->PreHandshake_secret),
            final(send_to_world).received() == old(send_to_world).received().push(
                r.phase()->PreHandshake_public,
            ),
            forall|s2: Seq<u8>|
                s2.len() == 32 ==> #[trigger] curve25519_of(s2, r.phase()->PreHandshake_public)
                    == curve25519_of(
                    r.phase()->PreHandshake_secret,
                    curve25519_base_of(s2),
                ),
    {
        let secret = random_bytes(32);
        CryptoStruct::with_secret(secret, send_to_world)
    }

    /// Seals `data` into one packet — length prefix, ciphertext, tag — and
    /// emits the packet through the sink. The send-direction state advances
    /// by one; nothing else changes. The quantified clause is the round
    /// trip: any peer whose receive-direction state mirrors this session's
    /// send-direction state will, on processing these bytes — alone or at
    /// the head of any further input — deliver exactly `data` first and
    /// advance its receive direction in lock-step.
    fn encrypt<S: Sink>(&mut self, data: &Vec<u8>, send_to_world: &mut S)
        ensures
            final(self).inv(),
            final(self).handshaken(),
            final(self).pending() == old(self).pending(),
            final(self).phase()->Ready_send == step_cipher(old(self).phase()->Ready_send),
            final(self).phase()->Ready_recv == old(self).phase()->Ready_recv,
            final(send_to_world).received() == old(send_to_world).received().push(
                frame_for(old(self).phase()->Ready_send, data@),
            ),
            forall|other: CipherM|
                #[trigger] process(
                    PhaseM::Ready { send: other, recv: old(self).phase()->Ready_send },
                    frame_for(old(self).phase()->Ready_send, data@),
                ) == (StepOut {
                    phase: PhaseM::Ready {
                        send: other,
                        recv: step_cipher(old(self).phase()->Ready_send),
                    },
                    rest: Seq::<u8>::empty(),
                    delivered: seq![data@],
                    failed: false,
                }),
            forall|other: CipherM, more: Seq<u8>|
                #[trigger] process(
                    PhaseM::Ready { send: other, recv: old(self).phase()->Ready_send },
                    frame_for(old(self).phase()->Ready_send, data@) + more,
                ) == ({
                    let out = process(
                        PhaseM::Ready {
                            send: other,
                            recv: step_cipher(old(self).phase()->Ready_send),
                        },
                        more,
                    );
                    StepOut {
                        phase: out.phase,
                        rest: out.rest,
                        delivered: seq![data@] + out.delivered,
                        failed: out.failed,
                    }
                }),
    {
        let ghost c0 = old(self).phase()->Ready_send;
        let n: usize = data.len();
        let mut out = u16_le(n as u16);
        let sealed = match &mut self.state {
            CryptoState::Ready(enc, _dec) => enc.encrypt(data),
            CryptoState::PreHandshake(_, _) => {
                proof {
                    assert(false);
                }
                Vec::new()
            },
        };
        append_bytes(&mut out, &sealed);
        proof {
            assert(out@ =~= frame_for(c0, data@));
        }
        send_to_world.accept(&out);
        proof {
            let frame = frame_for(c0, data@);
            lemma_u16_le_roundtrip(n as u16);
            assert forall|other: CipherM|
                #[trigger] process(PhaseM::Ready { send: other, recv: c0 }, frame) == (StepOut {
                    phase: PhaseM::Ready { send: other, recv: step_cipher(c0) },
                    rest: Seq::<u8>::empty(),
                    delivered: seq![data@],
                    failed: false,
                }) by {
                assert(frame.len() == 2 + n + 16);
                assert(frame[0] == u16_le_spec(n as u16)[0] && frame[1] == u16_le_spec(
                    n as u16,
                )[1]);
                assert(packet_len(frame) == n);
                assert(packet_ready(frame));
                assert(packet_ct(frame) =~= sealed@.take(n as int));
                assert(packet_tag(frame) =~= sealed@.skip(n as int));
                assert(open_of(c0, packet_ct(frame), packet_tag(frame)) == Some(data@));
                assert(packet_rest(frame) =~= Seq::<u8>::empty());
                let stepped = PhaseM::Ready { send: other, recv: step_cipher(c0) };
                assert(process(stepped, Seq::<u8>::empty()) == (StepOut {
                    phase: stepped,
                    rest: Seq::<u8>::empty(),
                    delivered: Seq::<Seq<u8>>::empty(),
                    failed: false,
                }));
                assert(seq![data@] + Seq::<Seq<u8>>::empty() =~= seq![data@]);
            }
            assert forall|other: CipherM, more: Seq<u8>|
                #[trigger] process(PhaseM::Ready { send: other, recv: c0 }, frame + more) == ({
                    let out = process(
                        PhaseM::Ready { send: other, recv: step_cipher(c0) },
                        more,
                    );
                    StepOut {
                        phase: out.phase,
                        rest: out.rest,
                        delivered: seq![data@] + out.delivered,
                        failed: out.failed,
                    }
                }) by {
                let start = PhaseM::Ready { send: other, recv: c0 };
                lemma_process_chunked(start, frame, more);
                let first = process(start, frame);
                assert(first.rest + more =~= more);
            }
        }
    }

    /// Feeds `data` to the framer and drains it: the 32-byte handshake
    /// message first if the handshake is still open (running the key
    /// exchange), then packet after packet, each opened with the
    /// receive-direction state and delivered through the sink, until the
    /// buffered bytes fall short — those stay for the next call. A packet
    /// that fails authentication stops the session: nothing more is
    /// delivered, the state does not advance, and the call reports the
    /// failure. The whole call behaves exactly as `process` describes on the
    /// previously buffered bytes followed by `data`.
    fn decrypt<S: Sink>(&mut self, data: &Vec<u8>, recv_to_local_process: &mut S) -> (r: Result<
        (),
        CryptoError,
    >)
        ensures
            final(self).inv(),
            old(self).handshaken() ==> final(self).handshaken(),
            ({
                let out = process(old(self).phase(), old(self).pending() + data@);
                &&& final(self).phase() == out.phase
                &&& final(self).pending() == out.rest
                &&& final(recv_to_local_process).received() == old(
                    recv_to_local_process,
                ).received() + out.delivered
                &&& (r is Ok <==> !out.failed)
                &&& (out.failed ==> r == Err::<(), CryptoError>(CryptoError::AuthenticationFailure))
            }),
    {
        self.buf.feed(data);
        let ghost mut acc: Seq<Seq<u8>> = Seq::empty();
        proof {
            if old(self).phase() is Ready {
                lemma_process_ready_stays(old(self).phase(), old(self).pending() + data@);
            }
            assert(Seq::<Seq<u8>>::empty() + process(self.phase(), self.pending()).delivered
                =~= process(self.phase(), self.pending()).delivered);
            assert(old(recv_to_local_process).received() + acc =~= old(
                recv_to_local_process,
            ).received());
        }
        loop
            invariant
                self.wf(),
                recv_to_local_process.received() == old(recv_to_local_process).received() + acc,
                ({
                    let goal = process(old(self).phase(), old(self).pending() + data@);
                    let cur = process(self.phase(), self.pending());
                    &&& goal.phase == cur.phase
                    &&& goal.rest == cur.rest
                    &&& goal.failed == cur.failed
                    &&& goal.delivered == acc + cur.delivered
                }),
                old(self).phase() is Ready ==> process(
                    old(self).phase(),
                    old(self).pending() + data@,
                ).phase is Ready,
            decreases self.pending().len(),
        {
            let hs = self.handshake_done();
            if !hs {
                match self.buf.try_take_handshake_message() {
                    Some(pk) => {
                        self.install_keys(&pk);
                    },
                    None => {
                        proof {
                            let goal = process(old(self).phase(), old(self).pending() + data@);
                            let cur = process(self.phase(), self.pending());
                            assert(cur == StepOut {
                                phase: self.phase(),
                                rest: self.pending(),
                                delivered: Seq::<Seq<u8>>::empty(),
                                failed: false,
                            });
                            assert(acc + Seq::<Seq<u8>>::empty() =~= acc);
                        }
                        return Ok(());
                    },
                }
            } else {
                match self.buf.try_take_packet() {
                    Some(p) => {
                        let (ct, tag) = p;
                        let opened = match &mut self.state {
                            CryptoState::Ready(_enc, dec) => dec.decrypt(&ct, &tag),
                            CryptoState::PreHandshake(_, _) => {
                                proof {
                                    assert(false);
                                }
                                None
                            },
                        };
                        match opened {
                            Some(pt) => {
                                recv_to_local_process.accept(&pt);
                                proof {
                                    acc = acc.push(pt@);
                                    assert((acc.drop_last() + (seq![pt@] + process(
                                        self.phase(),
                                        self.pending(),
                                    ).delivered)) =~= (acc + process(
                                        self.phase(),
                                        self.pending(),
                                    ).delivered));
                                }
                            },
                            None => {
                                self.buf.reset();
                                proof {
                                    assert(acc + Seq::<Seq<u8>>::empty() =~= acc);
                                }
                                return Err(CryptoError::AuthenticationFailure);
                            },
                        }
                    },
                    None => {
                        proof {
                            assert(acc + Seq::<Seq<u8>>::empty() =~= acc);
                        }
                        return Ok(());
                    },
                }
            }
        }
    }
}

} // verus!
