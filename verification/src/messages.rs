//! The signed messages of the agreement protocol.
//!
//! They share the frame of the transactions: a version byte, a kind byte, a
//! length-prefixed body, and the sender's signature over everything before it.

use crate::codec::{enc_i32, enc_i64, enc_u32, enc_u64, put_i32, put_i64, put_raw, put_u32, put_u64};
use crate::crypto;
use crate::crypto::{
    digest, hash_of, signature_of, signature_valid, signed, PublicKey, SecretKey, Signature,
};
use crate::txs::{envelope, payload_of, seal};
use vstd::prelude::*;

verus! {

pub const KIND_PROPOSE: u8 = 16;

pub const KIND_PREVOTE: u8 = 17;

pub const KIND_PRECOMMIT: u8 = 18;

pub const KIND_COMMIT: u8 = 19;

/// A moment in time: seconds since 1970-01-01T00:00:00Z and nanoseconds
/// within the second.
#[derive(Clone, Copy, Debug, PartialEq, Eq, Structural)]
pub struct Timespec {
    pub sec: i64,
    pub nsec: i32,
}

/// Calls `time::get_time` and hands back its two fields. The result depends
/// on the clock; all that is claimed is the range of the nanoseconds, which
/// the crate's `Timespec::new` asserts.
#[verifier::external_body]
fn system_time() -> (t: Timespec)
    ensures
        0 <= t.nsec < 1_000_000_000,
{
    let t = time::get_time();
    Timespec { sec: t.sec, nsec: t.nsec }
}

/// Reads the wall clock.
pub fn now() -> (t: Timespec)
    ensures
        0 <= t.nsec < 1_000_000_000,
{
    system_time()
}

/// A leader's proposal of the next block: the hashes of its transactions.
#[derive(Debug)]
pub struct Propose {
    pub validator: u32,
    pub height: u64,
    pub round: u32,
    pub time: Timespec,
    pub prev_hash: crypto::Hash,
    pub transactions: Vec<crypto::Hash>,
    pub signature: Signature,
}

/// A validator's first-stage vote for a block in a round.
#[derive(Clone, Copy, Debug, PartialEq, Eq)]
pub struct Prevote {
    pub validator: u32,
    pub height: u64,
    pub round: u32,
    pub block_hash: crypto::Hash,
    pub signature: Signature,
}

/// A validator's second-stage vote for a block and the state it leads to.
#[derive(Clone, Copy, Debug, PartialEq, Eq)]
pub struct Precommit {
    pub validator: u32,
    pub height: u64,
    pub round: u32,
    pub block_hash: crypto::Hash,
    pub state_hash: crypto::Hash,
    pub signature: Signature,
}

/// A validator's notice that it committed a block.
#[derive(Clone, Copy, Debug, PartialEq, Eq)]
pub struct Commit {
    pub validator: u32,
    pub height: u64,
    pub round: u32,
    pub block_hash: crypto::Hash,
    pub signature: Signature,
}

/// A message of the agreement protocol.
#[derive(Debug)]
pub enum ConsensusMessage {
    Propose(Propose),
    Prevote(Prevote),
    Precommit(Precommit),
    Commit(Commit),
}

/// The bytes of a list of hashes, one after the other.
pub open spec fn enc_hashes(hs: Seq<crypto::Hash>) -> Seq<u8>
    decreases hs.len(),
{
    if hs.len() == 0 {
        Seq::empty()
    } else {
        enc_hashes(hs.drop_last()) + hs.last()@
    }
}

/// Appends a list of hashes, its length first.
pub fn put_hashes(buf: &mut Vec<u8>, hs: &Vec<crypto::Hash>)
    ensures
        final(buf)@ == old(buf)@ + enc_u64(hs@.len() as u64) + enc_hashes(hs@),
{
    put_u64(buf, hs.len() as u64);
    let ghost start = buf@;
    let n = hs.len();
    let mut i: usize = 0;
    assert(start + enc_hashes(hs@.take(0)) =~= start);
    while i < n
        invariant
            i <= n,
            n == hs@.len(),
            buf@ == start + enc_hashes(hs@.take(i as int)),
        decreases n - i,
    {
        put_raw(buf, hs[i].bytes.as_slice());
        proof {
            let next = hs@.take(i + 1);
            assert(next.drop_last() =~= hs@.take(i as int));
            assert(next.last() == hs@[i as int]);
            assert(buf@ =~= start + enc_hashes(next));
        }
        i += 1;
    }
    assert(hs@.take(n as int) =~= hs@);
}

/// The signed part of a proposal with the given fields. The body holds the
/// validator, height, round, time, previous block hash, and the transaction
/// hashes with their count.
pub open spec fn propose_payload(
    validator: u32,
    height: u64,
    round: u32,
    time: Timespec,
    prev_hash: crypto::Hash,
    transactions: Seq<crypto::Hash>,
) -> Seq<u8> {
    payload_of(
        KIND_PROPOSE,
        enc_u32(validator) + enc_u64(height) + enc_u32(round) + enc_i64(time.sec) + enc_i32(
            time.nsec,
        ) + prev_hash@ + enc_u64(transactions.len() as u64) + enc_hashes(transactions),
    )
}

/// The signed part of a prevote with the given fields. The body holds the
/// validator, height, round and block hash.
pub open spec fn prevote_payload(
    validator: u32,
    height: u64,
    round: u32,
    block_hash: crypto::Hash,
) -> Seq<u8> {
    payload_of(
        KIND_PREVOTE,
        enc_u32(validator) + enc_u64(height) + enc_u32(round) + block_hash@,
    )
}

/// The signed part of a precommit with the given fields. The body holds the
/// validator, height, round, block hash and state hash.
pub open spec fn precommit_payload(
    validator: u32,
    height: u64,
    round: u32,
    block_hash: crypto::Hash,
    state_hash: crypto::Hash,
) -> Seq<u8> {
    payload_of(
        KIND_PRECOMMIT,
        enc_u32(validator) + enc_u64(height) + enc_u32(round) + block_hash@ + state_hash@,
    )
}

/// The signed part of a commit notice with the given fields. The body holds
/// the validator, height, round and block hash.
pub open spec fn commit_payload(
    validator: u32,
    height: u64,
    round: u32,
    block_hash: crypto::Hash,
) -> Seq<u8> {
    payload_of(KIND_COMMIT, enc_u32(validator) + enc_u64(height) + enc_u32(round) + block_hash@)
}

/// The prevote with the given fields, signed with `secret`.
pub open spec fn signed_prevote(
    validator: u32,
    height: u64,
    round: u32,
    block_hash: crypto::Hash,
    secret: SecretKey,
) -> Prevote {
    Prevote {
        validator,
        height,
        round,
        block_hash,
        signature: signed(secret@, prevote_payload(validator, height, round, block_hash)),
    }
}

/// The precommit with the given fields, signed with `secret`.
pub open spec fn signed_precommit(
    validator: u32,
    height: u64,
    round: u32,
    block_hash: crypto::Hash,
    state_hash: crypto::Hash,
    secret: SecretKey,
) -> Precommit {
    Precommit {
        validator,
        height,
        round,
        block_hash,
        state_hash,
        signature: signed(
            secret@,
            precommit_payload(validator, height, round, block_hash, state_hash),
        ),
    }
}

/// The commit notice with the given fields, signed with `secret`.
pub open spec fn signed_commit(
    validator: u32,
    height: u64,
    round: u32,
    block_hash: crypto::Hash,
    secret: SecretKey,
) -> Commit {
    Commit {
        validator,
        height,
        round,
        block_hash,
        signature: signed(secret@, commit_payload(validator, height, round, block_hash)),
    }
}

/// The canonical byte form of the proposal with the given fields, signed
/// with `secret`.
pub open spec fn signed_propose_bytes(
    validator: u32,
    height: u64,
    round: u32,
    time: Timespec,
    prev_hash: crypto::Hash,
    transactions: Seq<crypto::Hash>,
    secret: SecretKey,
) -> Seq<u8> {
    let payload = propose_payload(validator, height, round, time, prev_hash, transactions);
    payload + signature_of(secret@, payload)
}

impl Propose {
    /// The signed part.
    pub open spec fn payload(&self) -> Seq<u8> {
        propose_payload(
            self.validator,
            self.height,
            self.round,
            self.time,
            self.prev_hash,
            self.transactions@,
        )
    }

    /// The hash of the proposal.
    pub open spec fn spec_hash(&self) -> crypto::Hash {
        hash_of(self.encoding())
    }

    /// The canonical byte form.
    pub open spec fn encoding(&self) -> Seq<u8> {
        self.payload() + self.signature@
    }

    /// Builds the proposal and signs it with `secret_key`.
    pub fn new(
        validator: u32,
        height: u64,
        round: u32,
        time: Timespec,
        prev_hash: &crypto::Hash,
        transactions: Vec<crypto::Hash>,
        secret_key: &SecretKey,
    ) -> (m: Self)
        ensures
            m.validator == validator,
            m.height == height,
            m.round == round,
            m.time == time,
            m.prev_hash == *prev_hash,
            m.transactions == transactions,
            m.signature@ == signature_of(secret_key@, m.payload()),
            m.encoding() == signed_propose_bytes(
                validator,
                height,
                round,
                time,
                *prev_hash,
                transactions@,
                *secret_key,
            ),
    {
        let mut m = Propose {
            validator,
            height,
            round,
            time,
            prev_hash: *prev_hash,
            transactions,
            signature: Signature { bytes: [0u8; 64] },
        };
        let payload = m.payload_bytes();
        m.signature = crypto::sign(secret_key, payload.as_slice());
        m
    }

    /// Writes the signed part.
    pub fn payload_bytes(&self) -> (out: Vec<u8>)
        ensures
            out@ == self.payload(),
    {
        let mut body: Vec<u8> = Vec::new();
        put_u32(&mut body, self.validator);
        put_u64(&mut body, self.height);
        put_u32(&mut body, self.round);
        put_i64(&mut body, self.time.sec);
        put_i32(&mut body, self.time.nsec);
        put_raw(&mut body, self.prev_hash.bytes.as_slice());
        put_hashes(&mut body, &self.transactions);
        assert(body@ =~= enc_u32(self.validator) + enc_u64(self.height) + enc_u32(self.round)
            + enc_i64(self.time.sec) + enc_i32(self.time.nsec) + self.prev_hash@ + enc_u64(
            self.transactions@.len() as u64,
        ) + enc_hashes(self.transactions@));
        envelope(KIND_PROPOSE, &body)
    }

    /// Writes the canonical byte form.
    pub fn to_bytes(&self) -> (out: Vec<u8>)
        ensures
            out@ == self.encoding(),
    {
        seal(self.payload_bytes(), &self.signature)
    }

    /// The hash of the proposal, by which the proposed block is known.
    pub fn hash(&self) -> (h: crypto::Hash)
        ensures
            h@ == digest(self.encoding()),
            h == self.spec_hash(),
    {
        let bytes = self.to_bytes();
        crypto::hash(bytes.as_slice())
    }

    /// Whether the signature verifies under `key`.
    pub fn verify(&self, key: &PublicKey) -> (ok: bool)
        ensures
            ok == signature_valid(key@, self.payload(), self.signature@),
    {
        let payload = self.payload_bytes();
        crypto::verify(key, payload.as_slice(), &self.signature)
    }
}

impl Prevote {
    /// The signed part.
    pub open spec fn payload(&self) -> Seq<u8> {
        prevote_payload(self.validator, self.height, self.round, self.block_hash)
    }

    /// The canonical byte form.
    pub open spec fn encoding(&self) -> Seq<u8> {
        self.payload() + self.signature@
    }

    /// Builds the vote and signs it with `secret_key`.
    pub fn new(
        validator: u32,
        height: u64,
        round: u32,
        block_hash: &crypto::Hash,
        secret_key: &SecretKey,
    ) -> (m: Self)
        ensures
            m.validator == validator,
            m.height == height,
            m.round == round,
            m == signed_prevote(validator, height, round, *block_hash, *secret_key),
    {
        let mut m = Prevote {
            validator,
            height,
            round,
            block_hash: *block_hash,
            signature: Signature { bytes: [0u8; 64] },
        };
        let payload = m.payload_bytes();
        m.signature = crypto::sign(secret_key, payload.as_slice());
        m
    }

    /// Writes the signed part.
    pub fn payload_bytes(&self) -> (out: Vec<u8>)
        ensures
            out@ == self.payload(),
    {
        let mut body: Vec<u8> = Vec::new();
        put_u32(&mut body, self.validator);
        put_u64(&mut body, self.height);
        put_u32(&mut body, self.round);
        put_raw(&mut body, self.block_hash.bytes.as_slice());
        assert(body@ =~= enc_u32(self.validator) + enc_u64(self.height) + enc_u32(self.round)
            + self.block_hash@);
        envelope(KIND_PREVOTE, &body)
    }

    /// Writes the canonical byte form.
    pub fn to_bytes(&self) -> (out: Vec<u8>)
        ensures
            out@ == self.encoding(),
    {
        seal(self.payload_bytes(), &self.signature)
    }

    /// Whether the signature verifies under `key`.
    pub fn verify(&self, key: &PublicKey) -> (ok: bool)
        ensures
            ok == signature_valid(key@, self.payload(), self.signature@),
    {
        let payload = self.payload_bytes();
        crypto::verify(key, payload.as_slice(), &self.signature)
    }
}

impl Precommit {
    /// The signed part.
    pub open spec fn payload(&self) -> Seq<u8> {
        precommit_payload(
            self.validator,
            self.height,
            self.round,
            self.block_hash,
            self.state_hash,
        )
    }

    /// The canonical byte form.
    pub open spec fn encoding(&self) -> Seq<u8> {
        self.payload() + self.signature@
    }

    /// Builds the vote and signs it with `secret_key`.
    pub fn new(
        validator: u32,
        height: u64,
        round: u32,
        block_hash: &crypto::Hash,
        state_hash: &crypto::Hash,
        secret_key: &SecretKey,
    ) -> (m: Self)
        ensures
            m.validator == validator,
            m.height == height,
            m.round == round,
            m.block_hash == *block_hash,
            m == signed_precommit(validator, height, round, *block_hash, *state_hash, *secret_key),
    {
        let mut m = Precommit {
            validator,
            height,
            round,
            block_hash: *block_hash,
            state_hash: *state_hash,
            signature: Signature { bytes: [0u8; 64] },
        };
        let payload = m.payload_bytes();
        m.signature = crypto::sign(secret_key, payload.as_slice());
        m
    }

    /// Writes the signed part.
    pub fn payload_bytes(&self) -> (out: Vec<u8>)
        ensures
            out@ == self.payload(),
    {
        let mut body: Vec<u8> = Vec::new();
        put_u32(&mut body, self.validator);
        put_u64(&mut body, self.height);
        put_u32(&mut body, self.round);
        put_raw(&mut body, self.block_hash.bytes.as_slice());
        put_raw(&mut body, self.state_hash.bytes.as_slice());
        assert(body@ =~= enc_u32(self.validator) + enc_u64(self.height) + enc_u32(self.round)
            + self.block_hash@ + self.state_hash@);
        envelope(KIND_PRECOMMIT, &body)
    }

    /// Writes the canonical byte form.
    pub fn to_bytes(&self) -> (out: Vec<u8>)
        ensures
            out@ == self.encoding(),
    {
        seal(self.payload_bytes(), &self.signature)
    }

    /// Whether the signature verifies under `key`.
    pub fn verify(&self, key: &PublicKey) -> (ok: bool)
        ensures
            ok == signature_valid(key@, self.payload(), self.signature@),
    {
        let payload = self.payload_bytes();
        crypto::verify(key, payload.as_slice(), &self.signature)
    }
}

impl Commit {
    /// The signed part.
    pub open spec fn payload(&self) -> Seq<u8> {
        commit_payload(self.validator, self.height, self.round, self.block_hash)
    }

    /// The canonical byte form.
    pub open spec fn encoding(&self) -> Seq<u8> {
        self.payload() + self.signature@
    }

    /// Builds the notice and signs it with `secret_key`.
    pub fn new(
        validator: u32,
        height: u64,
        round: u32,
        block_hash: &crypto::Hash,
        secret_key: &SecretKey,
    ) -> (m: Self)
        ensures
            m.validator == validator,
            m.height == height,
            m.round == round,
            m == signed_commit(validator, height, round, *block_hash, *secret_key),
    {
        let mut m = Commit {
            validator,
            height,
            round,
            block_hash: *block_hash,
            signature: Signature { bytes: [0u8; 64] },
        };
        let payload = m.payload_bytes();
        m.signature = crypto::sign(secret_key, payload.as_slice());
        m
    }

    /// Writes the signed part.
    pub fn payload_bytes(&self) -> (out: Vec<u8>)
        ensures
            out@ == self.payload(),
    {
        let mut body: Vec<u8> = Vec::new();
        put_u32(&mut body, self.validator);
        put_u64(&mut body, self.height);
        put_u32(&mut body, self.round);
        put_raw(&mut body, self.block_hash.bytes.as_slice());
        assert(body@ =~= enc_u32(self.validator) + enc_u64(self.height) + enc_u32(self.round)
            + self.block_hash@);
        envelope(KIND_COMMIT, &body)
    }

    /// Writes the canonical byte form.
    pub fn to_bytes(&self) -> (out: Vec<u8>)
        ensures
            out@ == self.encoding(),
    {
        seal(self.payload_bytes(), &self.signature)
    }

    /// Whether the signature verifies under `key`.
    pub fn verify(&self, key: &PublicKey) -> (ok: bool)
        ensures
            ok == signature_valid(key@, self.payload(), self.signature@),
    {
        let payload = self.payload_bytes();
        crypto::verify(key, payload.as_slice(), &self.signature)
    }
}

impl ConsensusMessage {
    /// The height the message speaks of.
    pub open spec fn spec_height(&self) -> u64 {
        match self {
            ConsensusMessage::Propose(m) => m.height,
            ConsensusMessage::Prevote(m) => m.height,
            ConsensusMessage::Precommit(m) => m.height,
            ConsensusMessage::Commit(m) => m.height,
        }
    }

    /// The round the message speaks of.
    pub open spec fn spec_round(&self) -> u32 {
        match self {
            ConsensusMessage::Propose(m) => m.round,
            ConsensusMessage::Prevote(m) => m.round,
            ConsensusMessage::Precommit(m) => m.round,
            ConsensusMessage::Commit(m) => m.round,
        }
    }

    /// The id of the validator that sent the message.
    pub open spec fn spec_validator(&self) -> u32 {
        match self {
            ConsensusMessage::Propose(m) => m.validator,
            ConsensusMessage::Prevote(m) => m.validator,
            ConsensusMessage::Precommit(m) => m.validator,
            ConsensusMessage::Commit(m) => m.validator,
        }
    }

    /// The signed part.
    pub open spec fn payload(&self) -> Seq<u8> {
        match self {
            ConsensusMessage::Propose(m) => m.payload(),
            ConsensusMessage::Prevote(m) => m.payload(),
            ConsensusMessage::Precommit(m) => m.payload(),
            ConsensusMessage::Commit(m) => m.payload(),
        }
    }

    /// The signature the message carries.
    pub open spec fn signed_with(&self) -> Signature {
        match self {
            ConsensusMessage::Propose(m) => m.signature,
            ConsensusMessage::Prevote(m) => m.signature,
            ConsensusMessage::Precommit(m) => m.signature,
            ConsensusMessage::Commit(m) => m.signature,
        }
    }

    /// Whether the signature verifies under `key` over the signed part.
    pub open spec fn signed_by(&self, key: PublicKey) -> bool {
        signature_valid(key@, self.payload(), self.signed_with()@)
    }

    #[verifier::when_used_as_spec(spec_height)]
    pub fn height(&self) -> (h: u64)
        ensures
            h == self.spec_height(),
    {
        match self {
            ConsensusMessage::Propose(m) => m.height,
            ConsensusMessage::Prevote(m) => m.height,
            ConsensusMessage::Precommit(m) => m.height,
            ConsensusMessage::Commit(m) => m.height,
        }
    }

    #[verifier::when_used_as_spec(spec_round)]
    pub fn round(&self) -> (r: u32)
        ensures
            r == self.spec_round(),
    {
        match self {
            ConsensusMessage::Propose(m) => m.round,
            ConsensusMessage::Prevote(m) => m.round,
            ConsensusMessage::Precommit(m) => m.round,
            ConsensusMessage::Commit(m) => m.round,
        }
    }

    #[verifier::when_used_as_spec(spec_validator)]
    pub fn validator(&self) -> (v: u32)
        ensures
            v == self.spec_validator(),
    {
        match self {
            ConsensusMessage::Propose(m) => m.validator,
            ConsensusMessage::Prevote(m) => m.validator,
            ConsensusMessage::Precommit(m) => m.validator,
            ConsensusMessage::Commit(m) => m.validator,
        }
    }

    /// Whether the signature verifies under `key`.
    pub fn verify(&self, key: &PublicKey) -> (ok: bool)
        ensures
            ok == self.signed_by(*key),
    {
        match self {
            ConsensusMessage::Propose(m) => m.verify(key),
            ConsensusMessage::Prevote(m) => m.verify(key),
            ConsensusMessage::Precommit(m) => m.verify(key),
            ConsensusMessage::Commit(m) => m.verify(key),
        }
    }
}

} // verus!
