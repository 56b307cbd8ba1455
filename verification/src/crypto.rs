//! Fixed-width cryptographic values and the primitives that produce them.
//!
//! One hash function (SHA-256) and one signature scheme (Ed25519) are fixed.
//! Both are taken from outside crates; the contracts here give their results a
//! name and state nothing more about them.

use ed25519_dalek::Signer;
use ed25519_dalek::Verifier;
use sha2::Digest;
use vstd::prelude::*;

verus! {

/// A 32-byte digest.
#[derive(Clone, Copy, Debug, PartialEq, Eq)]
pub struct Hash {
    pub bytes: [u8; 32],
}

/// A 32-byte Ed25519 public key.
#[derive(Clone, Copy, Debug, PartialEq, Eq)]
pub struct PublicKey {
    pub bytes: [u8; 32],
}

/// A 32-byte Ed25519 secret seed.
#[derive(Clone, Copy, Debug, PartialEq, Eq)]
pub struct SecretKey {
    pub bytes: [u8; 32],
}

/// A 64-byte Ed25519 signature.
#[derive(Clone, Copy, Debug, PartialEq, Eq)]
pub struct Signature {
    pub bytes: [u8; 64],
}

impl View for Hash {
    type V = Seq<u8>;

    open spec fn view(&self) -> Seq<u8> {
        self.bytes@
    }
}

impl View for PublicKey {
    type V = Seq<u8>;

    open spec fn view(&self) -> Seq<u8> {
        self.bytes@
    }
}

impl View for SecretKey {
    type V = Seq<u8>;

    open spec fn view(&self) -> Seq<u8> {
        self.bytes@
    }
}

impl View for Signature {
    type V = Seq<u8>;

    open spec fn view(&self) -> Seq<u8> {
        self.bytes@
    }
}

/// The SHA-256 digest of a byte string, as a sequence of 32 bytes.
pub uninterp spec fn digest(data: Seq<u8>) -> Seq<u8>;

/// Whether `sig` is an Ed25519 signature of `message` that verifies under the
/// public key `key`. False when `key` is not the encoding of a curve point.
pub uninterp spec fn signature_valid(key: Seq<u8>, message: Seq<u8>, sig: Seq<u8>) -> bool;

/// The Ed25519 signature of `message` under the secret seed `secret`.
pub uninterp spec fn signature_of(secret: Seq<u8>, message: Seq<u8>) -> Seq<u8>;

/// The Ed25519 public key that belongs to the secret seed `secret`.
pub uninterp spec fn public_key_of(secret: Seq<u8>) -> Seq<u8>;

/// Calls `sha2::Sha256::digest`. Nothing is proved of it: the contract only
/// names the 32 bytes that come back as the digest of `data`.
#[verifier::external_body]
fn sha256(data: &[u8]) -> (h: Hash)
    ensures
        h@ == digest(data@),
{
    Hash { bytes: sha2::Sha256::digest(data).into() }
}

/// Calls `ed25519_dalek::VerifyingKey::from_bytes` and then
/// `Verifier::verify` on the key. The contract names the outcome; a key that
/// does not decode counts as a failed verification.
#[verifier::external_body]
fn ed25519_verify(key: &PublicKey, message: &[u8], sig: &Signature) -> (ok: bool)
    ensures
        ok == signature_valid(key@, message@, sig@),
{
    match ed25519_dalek::VerifyingKey::from_bytes(&key.bytes) {
        Ok(k) => k.verify(message, &ed25519_dalek::Signature::from_bytes(&sig.bytes)).is_ok(),
        Err(_) => false,
    }
}

/// Calls `ed25519_dalek::SigningKey::from_bytes` and `Signer::sign` on the
/// key. Ed25519 signing is deterministic, so the contract names the result as
/// a function of the seed and the message.
#[verifier::external_body]
fn ed25519_sign(secret: &SecretKey, message: &[u8]) -> (sig: Signature)
    ensures
        sig@ == signature_of(secret@, message@),
{
    let key = ed25519_dalek::SigningKey::from_bytes(&secret.bytes);
    Signature { bytes: key.sign(message).to_bytes() }
}

/// Calls `ed25519_dalek::SigningKey::from_bytes` and `verifying_key` on the
/// key. The contract names the public key as a function of the seed.
#[verifier::external_body]
fn ed25519_public(secret: &SecretKey) -> (key: PublicKey)
    ensures
        key@ == public_key_of(secret@),
{
    let key = ed25519_dalek::SigningKey::from_bytes(&secret.bytes);
    PublicKey { bytes: key.verifying_key().to_bytes() }
}

/// The hash value whose bytes are the digest of `data`.
pub open spec fn hash_of(data: Seq<u8>) -> Hash {
    choose|h: Hash| h@ == digest(data)
}

/// The signature value whose bytes are the signature of `message` under `secret`.
pub open spec fn signed(secret: Seq<u8>, message: Seq<u8>) -> Signature {
    choose|s: Signature| s@ == signature_of(secret, message)
}

/// Two hashes with the same bytes are the same hash.
pub proof fn lemma_hash_ext(a: Hash, b: Hash)
    requires
        a@ == b@,
    ensures
        a == b,
{
    assert(a.bytes =~= b.bytes);
}

/// Two signatures with the same bytes are the same signature.
pub proof fn lemma_signature_ext(a: Signature, b: Signature)
    requires
        a@ == b@,
    ensures
        a == b,
{
    assert(a.bytes =~= b.bytes);
}

/// Hashes a byte string.
pub fn hash(data: &[u8]) -> (h: Hash)
    ensures
        h@ == digest(data@),
        h == hash_of(data@),
{
    let h = sha256(data);
    proof {
        lemma_hash_ext(h, hash_of(data@));
    }
    h
}

/// Checks a signature over `message` against `key`.
pub fn verify(key: &PublicKey, message: &[u8], sig: &Signature) -> (ok: bool)
    ensures
        ok == signature_valid(key@, message@, sig@),
{
    ed25519_verify(key, message, sig)
}

/// Signs `message` with `secret`.
pub fn sign(secret: &SecretKey, message: &[u8]) -> (sig: Signature)
    ensures
        sig@ == signature_of(secret@, message@),
        sig == signed(secret@, message@),
{
    let sig = ed25519_sign(secret, message);
    proof {
        lemma_signature_ext(sig, signed(secret@, message@));
    }
    sig
}

/// `a` is strictly less than `b` at position `i`: the first `i` bytes agree
/// and byte `i` of `a` is the smaller.
pub open spec fn less_at(a: Seq<u8>, b: Seq<u8>, i: int) -> bool {
    &&& 0 <= i < a.len()
    &&& i < b.len()
    &&& a.take(i) == b.take(i)
    &&& a[i] < b[i]
}

/// The lexicographic order on byte strings by which map keys are sorted.
pub open spec fn key_lt(a: Seq<u8>, b: Seq<u8>) -> bool {
    exists|i: int| less_at(a, b, i)
}

/// No key is below itself.
pub proof fn lemma_key_lt_irreflexive(a: Seq<u8>)
    ensures
        !key_lt(a, a),
{
}

/// The key order is transitive.
pub proof fn lemma_key_lt_transitive(a: Seq<u8>, b: Seq<u8>, c: Seq<u8>)
    requires
        key_lt(a, b),
        key_lt(b, c),
    ensures
        key_lt(a, c),
{
    let i = choose|i: int| less_at(a, b, i);
    let j = choose|j: int| less_at(b, c, j);
    let k = if i <= j { i } else { j };
    assert(a.take(k) =~= a.take(i).take(k));
    assert(b.take(k) =~= b.take(i).take(k));
    assert(b.take(k) =~= b.take(j).take(k));
    assert(c.take(k) =~= c.take(j).take(k));
    if i < j {
        assert(b.take(j)[i] == b[i]);
        assert(c.take(j)[i] == c[i]);
    }
    if j < i {
        assert(a.take(i)[j] == a[j]);
        assert(b.take(i)[j] == b[j]);
    }
    assert(less_at(a, c, k));
}

/// Two keys are never each below the other.
pub proof fn lemma_key_lt_asymmetric(a: Seq<u8>, b: Seq<u8>)
    requires
        key_lt(a, b),
    ensures
        !key_lt(b, a),
        a != b,
{
    if key_lt(b, a) {
        lemma_key_lt_transitive(a, b, a);
    }
}

fn bytes_same(a: &[u8], b: &[u8]) -> (r: bool)
    requires
        a@.len() == b@.len(),
    ensures
        r == (a@ == b@),
{
    let n = a.len();
    let mut i: usize = 0;
    while i < n
        invariant
            i <= n,
            n == a@.len(),
            n == b@.len(),
            forall|j: int| 0 <= j < i ==> a@[j] == b@[j],
        decreases n - i,
    {
        if a[i] != b[i] {
            return false;
        }
        i += 1;
    }
    assert(a@ =~= b@);
    true
}

fn bytes_less(a: &[u8], b: &[u8]) -> (r: bool)
    requires
        a@.len() == b@.len(),
    ensures
        r == key_lt(a@, b@),
{
    let n = a.len();
    let mut i: usize = 0;
    while i < n
        invariant
            i <= n,
            n == a@.len(),
            n == b@.len(),
            a@.take(i as int) == b@.take(i as int),
        decreases n - i,
    {
        if a[i] < b[i] {
            assert(less_at(a@, b@, i as int));
            return true;
        }
        if a[i] > b[i] {
            assert forall|k: int| !less_at(a@, b@, k) by {
                if less_at(a@, b@, k) {
                    if k < i {
                        assert(a@.take(i as int)[k] == b@.take(i as int)[k]);
                    } else if k > i {
                        assert(a@.take(k)[i as int] == b@.take(k)[i as int]);
                    }
                }
            }
            return false;
        }
        assert(a@.take(i + 1) =~= a@.take(i as int).push(a@[i as int]));
        assert(b@.take(i + 1) =~= b@.take(i as int).push(b@[i as int]));
        i += 1;
    }
    assert(a@ =~= a@.take(n as int));
    assert(b@ =~= b@.take(n as int));
    proof {
        lemma_key_lt_irreflexive(a@);
    }
    false
}

impl Hash {
    /// Wraps 32 raw bytes.
    pub fn new(bytes: [u8; 32]) -> (h: Hash)
        ensures
            h@ == bytes@,
    {
        Hash { bytes }
    }

    /// Whether two hashes hold the same bytes.
    pub fn same(&self, other: &Hash) -> (r: bool)
        ensures
            r == (self@ == other@),
            r == (*self == *other),
    {
        let r = bytes_same(self.bytes.as_slice(), other.bytes.as_slice());
        proof {
            if r {
                assert(self.bytes =~= other.bytes);
            }
        }
        r
    }

    /// Whether this hash sorts strictly before `other`.
    pub fn less(&self, other: &Hash) -> (r: bool)
        ensures
            r == key_lt(self@, other@),
    {
        bytes_less(self.bytes.as_slice(), other.bytes.as_slice())
    }
}

impl PublicKey {
    /// Wraps 32 raw bytes.
    pub fn new(bytes: [u8; 32]) -> (k: PublicKey)
        ensures
            k@ == bytes@,
    {
        PublicKey { bytes }
    }

    /// Whether two keys hold the same bytes.
    pub fn same(&self, other: &PublicKey) -> (r: bool)
        ensures
            r == (self@ == other@),
            r == (*self == *other),
    {
        let r = bytes_same(self.bytes.as_slice(), other.bytes.as_slice());
        proof {
            if r {
                assert(self.bytes =~= other.bytes);
            }
        }
        r
    }

    /// The key's bytes as a map key.
    pub fn as_key(&self) -> (h: Hash)
        ensures
            h@ == self@,
    {
        Hash { bytes: self.bytes }
    }
}

impl SecretKey {
    /// Wraps a 32-byte seed.
    pub fn new(bytes: [u8; 32]) -> (k: SecretKey)
        ensures
            k@ == bytes@,
    {
        SecretKey { bytes }
    }

    /// The public key that verifies what this seed signs.
    pub fn public_key(&self) -> (k: PublicKey)
        ensures
            k@ == public_key_of(self@),
    {
        ed25519_public(self)
    }
}

impl Signature {
    /// Wraps 64 raw bytes.
    pub fn new(bytes: [u8; 64]) -> (s: Signature)
        ensures
            s@ == bytes@,
    {
        Signature { bytes }
    }

    /// Whether two signatures hold the same bytes.
    pub fn same(&self, other: &Signature) -> (r: bool)
        ensures
            r == (self@ == other@),
            r == (*self == *other),
    {
        let r = bytes_same(self.bytes.as_slice(), other.bytes.as_slice());
        proof {
            if r {
                assert(self.bytes =~= other.bytes);
            }
        }
        r
    }
}

} // verus!
