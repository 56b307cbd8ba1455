//! Signed transactions of the rights registry.
//!
//! A transaction is written as a version byte, a kind byte, a length-prefixed
//! body that starts with the author's public key, and the author's signature
//! over everything before it. Its hash is the digest of that whole byte form.

use crate::codec::{enc_bytes, enc_u16, enc_u64, put_bytes, put_raw, put_u16, put_u64, put_u8};
use crate::crypto;
use crate::crypto::{
    digest, hash_of, signature_of, signature_valid, PublicKey, SecretKey, Signature,
};
use crate::records::{enc_shares, put_shares, ContentShare};
use vstd::prelude::*;
use vstd::string::StringSliceAdditionalSpecFns;

verus! {

/// The version byte that opens every message.
pub const MESSAGE_VERSION: u8 = 1;

/// The kind byte of each transaction.
pub const KIND_CREATE_OWNER: u8 = 0;

pub const KIND_CREATE_DISTRIBUTOR: u8 = 1;

pub const KIND_ADD_CONTENT: u8 = 2;

pub const KIND_ADD_CONTRACT: u8 = 3;

pub const KIND_REPORT: u8 = 4;

/// The signed part of a message: version, kind, and the framed body.
pub open spec fn payload_of(kind: u8, body: Seq<u8>) -> Seq<u8> {
    seq![MESSAGE_VERSION, kind] + enc_bytes(body)
}

/// Writes the signed part of a message.
pub fn envelope(kind: u8, body: &Vec<u8>) -> (out: Vec<u8>)
    ensures
        out@ == payload_of(kind, body@),
{
    let mut out: Vec<u8> = Vec::new();
    put_u8(&mut out, MESSAGE_VERSION);
    put_u8(&mut out, kind);
    put_bytes(&mut out, body.as_slice());
    assert(out@ =~= payload_of(kind, body@));
    out
}

/// Writes a whole message: the signed part, then the signature.
pub fn seal(payload: Vec<u8>, signature: &Signature) -> (out: Vec<u8>)
    ensures
        out@ == payload@ + signature@,
{
    let mut out = payload;
    put_raw(&mut out, signature.bytes.as_slice());
    out
}

/// Copies a slice of shares into a vector.
pub fn shares_from(shares: &[ContentShare]) -> (out: Vec<ContentShare>)
    ensures
        out@ == shares@,
{
    let mut out: Vec<ContentShare> = Vec::new();
    let n = shares.len();
    let mut i: usize = 0;
    while i < n
        invariant
            i <= n,
            n == shares@.len(),
            out@ == shares@.take(i as int),
        decreases n - i,
    {
        out.push(shares[i]);
        assert(shares@.take(i + 1) =~= shares@.take(i as int).push(shares@[i as int]));
        i += 1;
    }
    assert(shares@.take(n as int) =~= shares@);
    out
}

/// Copies the UTF-8 bytes of a text.
pub fn text_bytes(text: &str) -> (out: Vec<u8>)
    ensures
        out@ == text.spec_bytes(),
{
    let mut out: Vec<u8> = Vec::new();
    put_raw(&mut out, text.as_bytes());
    assert(out@ =~= text.spec_bytes());
    out
}

impl ContentShare {
    /// A share of `share` percent for the owner `owner_id`.
    pub fn new(owner_id: u16, share: u16) -> (s: ContentShare)
        ensures
            s == (ContentShare { owner_id, share }),
    {
        ContentShare { owner_id, share }
    }
}

/// Registers the author as an owner.
#[derive(Debug)]
pub struct TxCreateOwner {
    pub pub_key: PublicKey,
    pub name: Vec<u8>,
    pub signature: Signature,
}

/// Registers the author as a distributor.
#[derive(Debug)]
pub struct TxCreateDistributor {
    pub pub_key: PublicKey,
    pub name: Vec<u8>,
    pub signature: Signature,
}

/// Registers a content and its split among owners.
#[derive(Debug)]
pub struct TxAddContent {
    pub pub_key: PublicKey,
    pub fingerprint: crypto::Hash,
    pub title: Vec<u8>,
    pub price_per_listen: u64,
    pub min_plays: u64,
    pub owners: Vec<ContentShare>,
    pub additional_conditions: Vec<u8>,
    pub signature: Signature,
}

/// Signs a distributor up for a content.
#[derive(Debug)]
pub struct TxAddContract {
    pub pub_key: PublicKey,
    pub distributor_id: u16,
    pub fingerprint: crypto::Hash,
    pub signature: Signature,
}

/// Reports plays of a content by a distributor.
#[derive(Debug)]
pub struct TxReport {
    pub pub_key: PublicKey,
    pub uuid: crypto::Hash,
    pub distributor_id: u16,
    pub fingerprint: crypto::Hash,
    pub time: u64,
    pub plays: u64,
    pub amount: u64,
    pub comment: Vec<u8>,
    pub signature: Signature,
}

/// A transaction of the rights registry.
#[derive(Debug)]
pub enum DigitalRightsTx {
    CreateOwner(TxCreateOwner),
    CreateDistributor(TxCreateDistributor),
    AddContent(TxAddContent),
    AddContract(TxAddContract),
    Report(TxReport),
}

impl TxCreateOwner {
    /// The body: public key, then the name.
    pub open spec fn body(&self) -> Seq<u8> {
        self.pub_key@ + enc_bytes(self.name@)
    }

    /// The signed part.
    pub open spec fn payload(&self) -> Seq<u8> {
        payload_of(KIND_CREATE_OWNER, self.body())
    }

    /// The canonical byte form: the signed part, then the signature.
    pub open spec fn encoding(&self) -> Seq<u8> {
        self.payload() + self.signature@
    }

    /// Builds the transaction and signs it with `secret_key`.
    pub fn new(pub_key: &PublicKey, name: &str, secret_key: &SecretKey) -> (tx: Self)
        ensures
            tx.pub_key == *pub_key,
            tx.name@ == name.spec_bytes(),
            tx.signature@ == signature_of(secret_key@, tx.payload()),
    {
        let mut tx = TxCreateOwner {
            pub_key: *pub_key,
            name: text_bytes(name),
            signature: Signature { bytes: [0u8; 64] },
        };
        let payload = tx.payload_bytes();
        tx.signature = crypto::sign(secret_key, payload.as_slice());
        tx
    }

    /// Writes the signed part.
    pub fn payload_bytes(&self) -> (out: Vec<u8>)
        ensures
            out@ == self.payload(),
    {
        let mut body: Vec<u8> = Vec::new();
        put_raw(&mut body, self.pub_key.bytes.as_slice());
        put_bytes(&mut body, self.name.as_slice());
        assert(body@ =~= self.body());
        envelope(KIND_CREATE_OWNER, &body)
    }

    pub fn pub_key(&self) -> (k: &PublicKey)
        ensures
            *k == self.pub_key,
    {
        &self.pub_key
    }

    pub fn name(&self) -> (n: &Vec<u8>)
        ensures
            n@ == self.name@,
    {
        &self.name
    }
}

impl TxCreateDistributor {
    /// The body: public key, then the name.
    pub open spec fn body(&self) -> Seq<u8> {
        self.pub_key@ + enc_bytes(self.name@)
    }

    /// The signed part.
    pub open spec fn payload(&self) -> Seq<u8> {
        payload_of(KIND_CREATE_DISTRIBUTOR, self.body())
    }

    /// The canonical byte form: the signed part, then the signature.
    pub open spec fn encoding(&self) -> Seq<u8> {
        self.payload() + self.signature@
    }

    /// Builds the transaction and signs it with `secret_key`.
    pub fn new(pub_key: &PublicKey, name: &str, secret_key: &SecretKey) -> (tx: Self)
        ensures
            tx.pub_key == *pub_key,
            tx.name@ == name.spec_bytes(),
            tx.signature@ == signature_of(secret_key@, tx.payload()),
    {
        let mut tx = TxCreateDistributor {
            pub_key: *pub_key,
            name: text_bytes(name),
            signature: Signature { bytes: [0u8; 64] },
        };
        let payload = tx.payload_bytes();
        tx.signature = crypto::sign(secret_key, payload.as_slice());
        tx
    }

    /// Writes the signed part.
    pub fn payload_bytes(&self) -> (out: Vec<u8>)
        ensures
            out@ == self.payload(),
    {
        let mut body: Vec<u8> = Vec::new();
        put_raw(&mut body, self.pub_key.bytes.as_slice());
        put_bytes(&mut body, self.name.as_slice());
        assert(body@ =~= self.body());
        envelope(KIND_CREATE_DISTRIBUTOR, &body)
    }

    pub fn pub_key(&self) -> (k: &PublicKey)
        ensures
            *k == self.pub_key,
    {
        &self.pub_key
    }

    pub fn name(&self) -> (n: &Vec<u8>)
        ensures
            n@ == self.name@,
    {
        &self.name
    }
}

impl TxAddContent {
    /// The body: public key, fingerprint, title, price, minimum plays, the
    /// shares with their count, and the additional conditions.
    pub open spec fn body(&self) -> Seq<u8> {
        self.pub_key@ + self.fingerprint@ + enc_bytes(self.title@) + enc_u64(self.price_per_listen)
            + enc_u64(self.min_plays) + enc_u64(self.owners@.len() as u64) + enc_shares(
            self.owners@,
        ) + enc_bytes(self.additional_conditions@)
    }

    /// The signed part.
    pub open spec fn payload(&self) -> Seq<u8> {
        payload_of(KIND_ADD_CONTENT, self.body())
    }

    /// The canonical byte form: the signed part, then the signature.
    pub open spec fn encoding(&self) -> Seq<u8> {
        self.payload() + self.signature@
    }

    /// Builds the transaction and signs it with `secret_key`.
    pub fn new(
        pub_key: &PublicKey,
        fingerprint: &crypto::Hash,
        title: &str,
        price_per_listen: u64,
        min_plays: u64,
        owners: &[ContentShare],
        additional_conditions: &str,
        secret_key: &SecretKey,
    ) -> (tx: Self)
        ensures
            tx.pub_key == *pub_key,
            tx.fingerprint == *fingerprint,
            tx.title@ == title.spec_bytes(),
            tx.price_per_listen == price_per_listen,
            tx.min_plays == min_plays,
            tx.owners@ == owners@,
            tx.additional_conditions@ == additional_conditions.spec_bytes(),
            tx.signature@ == signature_of(secret_key@, tx.payload()),
    {
        let mut tx = TxAddContent {
            pub_key: *pub_key,
            fingerprint: *fingerprint,
            title: text_bytes(title),
            price_per_listen,
            min_plays,
            owners: shares_from(owners),
            additional_conditions: text_bytes(additional_conditions),
            signature: Signature { bytes: [0u8; 64] },
        };
        let payload = tx.payload_bytes();
        tx.signature = crypto::sign(secret_key, payload.as_slice());
        tx
    }

    /// Writes the signed part.
    pub fn payload_bytes(&self) -> (out: Vec<u8>)
        ensures
            out@ == self.payload(),
    {
        let mut body: Vec<u8> = Vec::new();
        put_raw(&mut body, self.pub_key.bytes.as_slice());
        put_raw(&mut body, self.fingerprint.bytes.as_slice());
        put_bytes(&mut body, self.title.as_slice());
        put_u64(&mut body, self.price_per_listen);
        put_u64(&mut body, self.min_plays);
        put_shares(&mut body, &self.owners);
        put_bytes(&mut body, self.additional_conditions.as_slice());
        assert(body@ =~= self.body());
        envelope(KIND_ADD_CONTENT, &body)
    }

    pub fn pub_key(&self) -> (k: &PublicKey)
        ensures
            *k == self.pub_key,
    {
        &self.pub_key
    }

    pub fn fingerprint(&self) -> (f: &crypto::Hash)
        ensures
            *f == self.fingerprint,
    {
        &self.fingerprint
    }

    pub fn title(&self) -> (t: &Vec<u8>)
        ensures
            t@ == self.title@,
    {
        &self.title
    }

    pub fn price_per_listen(&self) -> (p: u64)
        ensures
            p == self.price_per_listen,
    {
        self.price_per_listen
    }

    pub fn min_plays(&self) -> (p: u64)
        ensures
            p == self.min_plays,
    {
        self.min_plays
    }

    pub fn owners(&self) -> (o: &Vec<ContentShare>)
        ensures
            o@ == self.owners@,
    {
        &self.owners
    }

    pub fn additional_conditions(&self) -> (c: &Vec<u8>)
        ensures
            c@ == self.additional_conditions@,
    {
        &self.additional_conditions
    }
}

impl TxAddContract {
    /// The body: public key, distributor id, fingerprint.
    pub open spec fn body(&self) -> Seq<u8> {
        self.pub_key@ + enc_u16(self.distributor_id) + self.fingerprint@
    }

    /// The signed part.
    pub open spec fn payload(&self) -> Seq<u8> {
        payload_of(KIND_ADD_CONTRACT, self.body())
    }

    /// The canonical byte form: the signed part, then the signature.
    pub open spec fn encoding(&self) -> Seq<u8> {
        self.payload() + self.signature@
    }

    /// Builds the transaction and signs it with `secret_key`.
    pub fn new(
        pub_key: &PublicKey,
        distributor_id: u16,
        fingerprint: &crypto::Hash,
        secret_key: &SecretKey,
    ) -> (tx: Self)
        ensures
            tx.pub_key == *pub_key,
            tx.distributor_id == distributor_id,
            tx.fingerprint == *fingerprint,
            tx.signature@ == signature_of(secret_key@, tx.payload()),
    {
        let mut tx = TxAddContract {
            pub_key: *pub_key,
            distributor_id,
            fingerprint: *fingerprint,
            signature: Signature { bytes: [0u8; 64] },
        };
        let payload = tx.payload_bytes();
        tx.signature = crypto::sign(secret_key, payload.as_slice());
        tx
    }

    /// Writes the signed part.
    pub fn payload_bytes(&self) -> (out: Vec<u8>)
        ensures
            out@ == self.payload(),
    {
        let mut body: Vec<u8> = Vec::new();
        put_raw(&mut body, self.pub_key.bytes.as_slice());
        put_u16(&mut body, self.distributor_id);
        put_raw(&mut body, self.fingerprint.bytes.as_slice());
        assert(body@ =~= self.body());
        envelope(KIND_ADD_CONTRACT, &body)
    }

    pub fn pub_key(&self) -> (k: &PublicKey)
        ensures
            *k == self.pub_key,
    {
        &self.pub_key
    }

    pub fn distributor_id(&self) -> (id: u16)
        ensures
            id == self.distributor_id,
    {
        self.distributor_id
    }

    pub fn fingerprint(&self) -> (f: &crypto::Hash)
        ensures
            *f == self.fingerprint,
    {
        &self.fingerprint
    }
}

impl TxReport {
    /// The body: public key, uuid, distributor id, fingerprint, time, plays,
    /// amount, comment.
    pub open spec fn body(&self) -> Seq<u8> {
        self.pub_key@ + self.uuid@ + enc_u16(self.distributor_id) + self.fingerprint@ + enc_u64(
            self.time,
        ) + enc_u64(self.plays) + enc_u64(self.amount) + enc_bytes(self.comment@)
    }

    /// The signed part.
    pub open spec fn payload(&self) -> Seq<u8> {
        payload_of(KIND_REPORT, self.body())
    }

    /// The canonical byte form: the signed part, then the signature.
    pub open spec fn encoding(&self) -> Seq<u8> {
        self.payload() + self.signature@
    }

    /// Builds the transaction and signs it with `secret_key`.
    pub fn new(
        pub_key: &PublicKey,
        uuid: &crypto::Hash,
        distributor_id: u16,
        fingerprint: &crypto::Hash,
        time: u64,
        plays: u64,
        amount: u64,
        comment: &str,
        secret_key: &SecretKey,
    ) -> (tx: Self)
        ensures
            tx.pub_key == *pub_key,
            tx.uuid == *uuid,
            tx.distributor_id == distributor_id,
            tx.fingerprint == *fingerprint,
            tx.time == time,
            tx.plays == plays,
            tx.amount == amount,
            tx.comment@ == comment.spec_bytes(),
            tx.signature@ == signature_of(secret_key@, tx.payload()),
    {
        let mut tx = TxReport {
            pub_key: *pub_key,
            uuid: *uuid,
            distributor_id,
            fingerprint: *fingerprint,
            time,
            plays,
            amount,
            comment: text_bytes(comment),
            signature: Signature { bytes: [0u8; 64] },
        };
        let payload = tx.payload_bytes();
        tx.signature = crypto::sign(secret_key, payload.as_slice());
        tx
    }

    /// Writes the signed part.
    pub fn payload_bytes(&self) -> (out: Vec<u8>)
        ensures
            out@ == self.payload(),
    {
        let mut body: Vec<u8> = Vec::new();
        put_raw(&mut body, self.pub_key.bytes.as_slice());
        put_raw(&mut body, self.uuid.bytes.as_slice());
        put_u16(&mut body, self.distributor_id);
        put_raw(&mut body, self.fingerprint.bytes.as_slice());
        put_u64(&mut body, self.time);
        put_u64(&mut body, self.plays);
        put_u64(&mut body, self.amount);
        put_bytes(&mut body, self.comment.as_slice());
        assert(body@ =~= self.body());
        envelope(KIND_REPORT, &body)
    }

    pub fn pub_key(&self) -> (k: &PublicKey)
        ensures
            *k == self.pub_key,
    {
        &self.pub_key
    }
}

impl DigitalRightsTx {
    /// The author's public key.
    pub open spec fn author(&self) -> PublicKey {
        match self {
            DigitalRightsTx::CreateOwner(tx) => tx.pub_key,
            DigitalRightsTx::CreateDistributor(tx) => tx.pub_key,
            DigitalRightsTx::AddContent(tx) => tx.pub_key,
            DigitalRightsTx::AddContract(tx) => tx.pub_key,
            DigitalRightsTx::Report(tx) => tx.pub_key,
        }
    }

    /// The signature the transaction carries.
    pub open spec fn signed_with(&self) -> Signature {
        match self {
            DigitalRightsTx::CreateOwner(tx) => tx.signature,
            DigitalRightsTx::CreateDistributor(tx) => tx.signature,
            DigitalRightsTx::AddContent(tx) => tx.signature,
            DigitalRightsTx::AddContract(tx) => tx.signature,
            DigitalRightsTx::Report(tx) => tx.signature,
        }
    }

    /// The signed part.
    pub open spec fn payload(&self) -> Seq<u8> {
        match self {
            DigitalRightsTx::CreateOwner(tx) => tx.payload(),
            DigitalRightsTx::CreateDistributor(tx) => tx.payload(),
            DigitalRightsTx::AddContent(tx) => tx.payload(),
            DigitalRightsTx::AddContract(tx) => tx.payload(),
            DigitalRightsTx::Report(tx) => tx.payload(),
        }
    }

    /// The canonical byte form: the signed part, then the signature.
    pub open spec fn encoding(&self) -> Seq<u8> {
        self.payload() + self.signed_with()@
    }

    /// The author's public key.
    pub fn pub_key(&self) -> (k: &PublicKey)
        ensures
            *k == self.author(),
    {
        match self {
            DigitalRightsTx::CreateOwner(tx) => &tx.pub_key,
            DigitalRightsTx::CreateDistributor(tx) => &tx.pub_key,
            DigitalRightsTx::AddContent(tx) => &tx.pub_key,
            DigitalRightsTx::AddContract(tx) => &tx.pub_key,
            DigitalRightsTx::Report(tx) => &tx.pub_key,
        }
    }

    /// The signature the transaction carries.
    pub fn signature(&self) -> (s: &Signature)
        ensures
            *s == self.signed_with(),
    {
        match self {
            DigitalRightsTx::CreateOwner(tx) => &tx.signature,
            DigitalRightsTx::CreateDistributor(tx) => &tx.signature,
            DigitalRightsTx::AddContent(tx) => &tx.signature,
            DigitalRightsTx::AddContract(tx) => &tx.signature,
            DigitalRightsTx::Report(tx) => &tx.signature,
        }
    }

    /// Writes the signed part.
    pub fn payload_bytes(&self) -> (out: Vec<u8>)
        ensures
            out@ == self.payload(),
    {
        match self {
            DigitalRightsTx::CreateOwner(tx) => tx.payload_bytes(),
            DigitalRightsTx::CreateDistributor(tx) => tx.payload_bytes(),
            DigitalRightsTx::AddContent(tx) => tx.payload_bytes(),
            DigitalRightsTx::AddContract(tx) => tx.payload_bytes(),
            DigitalRightsTx::Report(tx) => tx.payload_bytes(),
        }
    }

    /// Writes the canonical byte form.
    pub fn to_bytes(&self) -> (out: Vec<u8>)
        ensures
            out@ == self.encoding(),
    {
        seal(self.payload_bytes(), self.signature())
    }

    /// Whether the signature verifies under `key` over the signed part.
    pub fn verify(&self, key: &PublicKey) -> (ok: bool)
        ensures
            ok == signature_valid(key@, self.payload(), self.signed_with()@),
    {
        let payload = self.payload_bytes();
        crypto::verify(key, payload.as_slice(), self.signature())
    }

    /// The hash of the transaction.
    pub open spec fn spec_hash(&self) -> crypto::Hash {
        hash_of(self.encoding())
    }

    /// The digest of the canonical byte form, signature included.
    pub fn hash(&self) -> (h: crypto::Hash)
        ensures
            h@ == digest(self.encoding()),
            h == self.spec_hash(),
    {
        let bytes = self.to_bytes();
        crypto::hash(bytes.as_slice())
    }
}

} // verus!
