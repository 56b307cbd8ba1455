//! The entities of the rights registry and their canonical encodings.
//!
//! Each stored record is written as one length-prefixed frame whose body holds
//! the fields in declaration order. Text is carried as its UTF-8 bytes.

use crate::codec::{enc_bytes, enc_u16, enc_u64, put_bytes, put_raw, put_u16, put_u64, put_u8};
use crate::crypto;
use crate::crypto::PublicKey;
use crate::storage::Record;
use vstd::prelude::*;

verus! {

/// Copies a byte vector.
pub fn copy_bytes(v: &Vec<u8>) -> (out: Vec<u8>)
    ensures
        out@ == v@,
{
    let mut out: Vec<u8> = Vec::new();
    put_raw(&mut out, v.as_slice());
    assert(out@ =~= v@);
    out
}

/// Wraps a finished body into a frame: its length, then the body.
pub fn frame(body: &Vec<u8>) -> (out: Vec<u8>)
    ensures
        out@ == enc_bytes(body@),
{
    let mut out: Vec<u8> = Vec::new();
    put_bytes(&mut out, body.as_slice());
    assert(out@ =~= enc_bytes(body@));
    out
}

/// The role under which a public key is registered.
#[derive(Clone, Copy, Debug, PartialEq, Eq, Structural)]
pub enum Role {
    Owner,
    Distributor,
}

/// The byte that stands for a role in an encoding.
pub open spec fn role_tag(role: Role) -> u8 {
    match role {
        Role::Owner => 0u8,
        Role::Distributor => 1u8,
    }
}

/// An entry of the participant index: the role of a key and its id in that role.
#[derive(Clone, Copy, Debug, PartialEq, Eq, Structural)]
pub struct Participant {
    pub role: Role,
    pub id: u16,
}

/// One owner's part of a content: the owner's id and a percentage.
#[derive(Clone, Copy, Debug, PartialEq, Eq, Structural)]
pub struct ContentShare {
    pub owner_id: u16,
    pub share: u16,
}

/// A rights owner.
#[derive(Debug)]
pub struct Owner {
    pub pub_key: PublicKey,
    pub name: Vec<u8>,
    pub ownership_hash: crypto::Hash,
}

/// What an owner record holds.
pub struct OwnerView {
    pub pub_key: Seq<u8>,
    pub name: Seq<u8>,
    pub ownership_hash: Seq<u8>,
}

/// A distributor.
#[derive(Debug)]
pub struct Distributor {
    pub pub_key: PublicKey,
    pub name: Vec<u8>,
    pub contracts_hash: crypto::Hash,
}

/// What a distributor record holds.
pub struct DistributorView {
    pub pub_key: Seq<u8>,
    pub name: Seq<u8>,
    pub contracts_hash: Seq<u8>,
}

/// A registered content, stored under its fingerprint.
#[derive(Debug)]
pub struct Content {
    pub title: Vec<u8>,
    pub price_per_listen: u64,
    pub min_plays: u64,
    pub additional_conditions: Vec<u8>,
    pub shares: Vec<ContentShare>,
    pub distributors: Vec<u16>,
}

/// What a content record holds.
pub struct ContentView {
    pub title: Seq<u8>,
    pub price_per_listen: u64,
    pub min_plays: u64,
    pub additional_conditions: Seq<u8>,
    pub shares: Seq<ContentShare>,
    pub distributors: Seq<u16>,
}

/// One owner's stake in one content.
#[derive(Clone, Copy, Debug, PartialEq, Eq)]
pub struct Ownership {
    pub fingerprint: crypto::Hash,
    pub plays_total: u64,
    pub amount_paid: u64,
    pub reports_hash: crypto::Hash,
}

/// What an ownership record holds.
pub struct OwnershipView {
    pub fingerprint: Seq<u8>,
    pub plays_total: u64,
    pub amount_paid: u64,
    pub reports_hash: Seq<u8>,
}

/// One distributor's contract on one content.
#[derive(Clone, Copy, Debug, PartialEq, Eq)]
pub struct Contract {
    pub fingerprint: crypto::Hash,
    pub plays_total: u64,
    pub amount_owed: u64,
    pub reports_hash: crypto::Hash,
}

/// What a contract record holds.
pub struct ContractView {
    pub fingerprint: Seq<u8>,
    pub plays_total: u64,
    pub amount_owed: u64,
    pub reports_hash: Seq<u8>,
}

/// A distributor's report of plays of a content.
#[derive(Debug)]
pub struct Report {
    pub distributor_id: u16,
    pub fingerprint: crypto::Hash,
    pub uuid: crypto::Hash,
    pub time: u64,
    pub plays: u64,
    pub amount: u64,
    pub comment: Vec<u8>,
}

/// What a report record holds.
pub struct ReportView {
    pub distributor_id: u16,
    pub fingerprint: Seq<u8>,
    pub uuid: Seq<u8>,
    pub time: u64,
    pub plays: u64,
    pub amount: u64,
    pub comment: Seq<u8>,
}

impl View for Participant {
    type V = Participant;

    open spec fn view(&self) -> Participant {
        *self
    }
}

impl View for ContentShare {
    type V = ContentShare;

    open spec fn view(&self) -> ContentShare {
        *self
    }
}

impl View for Owner {
    type V = OwnerView;

    open spec fn view(&self) -> OwnerView {
        OwnerView {
            pub_key: self.pub_key@,
            name: self.name@,
            ownership_hash: self.ownership_hash@,
        }
    }
}

impl View for Distributor {
    type V = DistributorView;

    open spec fn view(&self) -> DistributorView {
        DistributorView {
            pub_key: self.pub_key@,
            name: self.name@,
            contracts_hash: self.contracts_hash@,
        }
    }
}

impl View for Content {
    type V = ContentView;

    open spec fn view(&self) -> ContentView {
        ContentView {
            title: self.title@,
            price_per_listen: self.price_per_listen,
            min_plays: self.min_plays,
            additional_conditions: self.additional_conditions@,
            shares: self.shares@,
            distributors: self.distributors@,
        }
    }
}

impl View for Ownership {
    type V = OwnershipView;

    open spec fn view(&self) -> OwnershipView {
        OwnershipView {
            fingerprint: self.fingerprint@,
            plays_total: self.plays_total,
            amount_paid: self.amount_paid,
            reports_hash: self.reports_hash@,
        }
    }
}

impl View for Contract {
    type V = ContractView;

    open spec fn view(&self) -> ContractView {
        ContractView {
            fingerprint: self.fingerprint@,
            plays_total: self.plays_total,
            amount_owed: self.amount_owed,
            reports_hash: self.reports_hash@,
        }
    }
}

impl View for Report {
    type V = ReportView;

    open spec fn view(&self) -> ReportView {
        ReportView {
            distributor_id: self.distributor_id,
            fingerprint: self.fingerprint@,
            uuid: self.uuid@,
            time: self.time,
            plays: self.plays,
            amount: self.amount,
            comment: self.comment@,
        }
    }
}

/// The encoding of a list of shares: each as owner id, then percentage.
pub open spec fn enc_shares(shares: Seq<ContentShare>) -> Seq<u8>
    decreases shares.len(),
{
    if shares.len() == 0 {
        Seq::empty()
    } else {
        enc_shares(shares.drop_last()) + enc_u16(shares.last().owner_id) + enc_u16(
            shares.last().share,
        )
    }
}

/// The encoding of a list of ids, each as a 16-bit integer.
pub open spec fn enc_ids(ids: Seq<u16>) -> Seq<u8>
    decreases ids.len(),
{
    if ids.len() == 0 {
        Seq::empty()
    } else {
        enc_ids(ids.drop_last()) + enc_u16(ids.last())
    }
}

/// Appends a list of shares, its length first.
pub fn put_shares(buf: &mut Vec<u8>, shares: &Vec<ContentShare>)
    ensures
        final(buf)@ == old(buf)@ + enc_u64(shares@.len() as u64) + enc_shares(shares@),
{
    put_u64(buf, shares.len() as u64);
    let ghost start = buf@;
    let n = shares.len();
    let mut i: usize = 0;
    assert(start + enc_shares(shares@.take(0)) =~= start);
    while i < n
        invariant
            i <= n,
            n == shares@.len(),
            buf@ == start + enc_shares(shares@.take(i as int)),
        decreases n - i,
    {
        put_u16(buf, shares[i].owner_id);
        put_u16(buf, shares[i].share);
        proof {
            let next = shares@.take(i + 1);
            assert(next.drop_last() =~= shares@.take(i as int));
            assert(next.last() == shares@[i as int]);
            assert(buf@ =~= start + enc_shares(next));
        }
        i += 1;
    }
    assert(shares@.take(n as int) =~= shares@);
}

/// Appends a list of ids, its length first.
pub fn put_ids(buf: &mut Vec<u8>, ids: &Vec<u16>)
    ensures
        final(buf)@ == old(buf)@ + enc_u64(ids@.len() as u64) + enc_ids(ids@),
{
    put_u64(buf, ids.len() as u64);
    let ghost start = buf@;
    let n = ids.len();
    let mut i: usize = 0;
    assert(start + enc_ids(ids@.take(0)) =~= start);
    while i < n
        invariant
            i <= n,
            n == ids@.len(),
            buf@ == start + enc_ids(ids@.take(i as int)),
        decreases n - i,
    {
        put_u16(buf, ids[i]);
        proof {
            let next = ids@.take(i + 1);
            assert(next.drop_last() =~= ids@.take(i as int));
            assert(next.last() == ids@[i as int]);
            assert(buf@ =~= start + enc_ids(next));
        }
        i += 1;
    }
    assert(ids@.take(n as int) =~= ids@);
}

/// Copies a list of shares.
pub fn copy_shares(v: &Vec<ContentShare>) -> (out: Vec<ContentShare>)
    ensures
        out@ == v@,
{
    let mut out: Vec<ContentShare> = Vec::new();
    let n = v.len();
    let mut i: usize = 0;
    while i < n
        invariant
            i <= n,
            n == v@.len(),
            out@ == v@.take(i as int),
        decreases n - i,
    {
        out.push(v[i]);
        assert(v@.take(i + 1) =~= v@.take(i as int).push(v@[i as int]));
        i += 1;
    }
    assert(v@.take(n as int) =~= v@);
    out
}

/// Copies a list of ids.
pub fn copy_ids(v: &Vec<u16>) -> (out: Vec<u16>)
    ensures
        out@ == v@,
{
    let mut out: Vec<u16> = Vec::new();
    let n = v.len();
    let mut i: usize = 0;
    while i < n
        invariant
            i <= n,
            n == v@.len(),
            out@ == v@.take(i as int),
        decreases n - i,
    {
        out.push(v[i]);
        assert(v@.take(i + 1) =~= v@.take(i as int).push(v@[i as int]));
        i += 1;
    }
    assert(v@.take(n as int) =~= v@);
    out
}

impl Record for crypto::Hash {
    open spec fn encoding(v: Seq<u8>) -> Seq<u8> {
        enc_bytes(v)
    }

    fn encode(&self) -> (out: Vec<u8>) {
        let mut out: Vec<u8> = Vec::new();
        put_bytes(&mut out, self.bytes.as_slice());
        assert(out@ =~= enc_bytes(self@));
        out
    }

    fn duplicate(&self) -> (out: Self) {
        *self
    }
}

impl Record for Participant {
    open spec fn encoding(v: Participant) -> Seq<u8> {
        enc_bytes(seq![role_tag(v.role)] + enc_u16(v.id))
    }

    fn encode(&self) -> (out: Vec<u8>) {
        let mut body: Vec<u8> = Vec::new();
        let tag: u8 = match self.role {
            Role::Owner => 0,
            Role::Distributor => 1,
        };
        put_u8(&mut body, tag);
        put_u16(&mut body, self.id);
        assert(body@ =~= seq![role_tag(self.role)] + enc_u16(self.id));
        frame(&body)
    }

    fn duplicate(&self) -> (out: Self) {
        *self
    }
}

impl Record for Owner {
    open spec fn encoding(v: OwnerView) -> Seq<u8> {
        enc_bytes(v.pub_key + enc_bytes(v.name) + v.ownership_hash)
    }

    fn encode(&self) -> (out: Vec<u8>) {
        let mut body: Vec<u8> = Vec::new();
        put_raw(&mut body, self.pub_key.bytes.as_slice());
        put_bytes(&mut body, self.name.as_slice());
        put_raw(&mut body, self.ownership_hash.bytes.as_slice());
        assert(body@ =~= self.pub_key@ + enc_bytes(self.name@) + self.ownership_hash@);
        frame(&body)
    }

    fn duplicate(&self) -> (out: Self) {
        Owner {
            pub_key: self.pub_key,
            name: copy_bytes(&self.name),
            ownership_hash: self.ownership_hash,
        }
    }
}

impl Record for Distributor {
    open spec fn encoding(v: DistributorView) -> Seq<u8> {
        enc_bytes(v.pub_key + enc_bytes(v.name) + v.contracts_hash)
    }

    fn encode(&self) -> (out: Vec<u8>) {
        let mut body: Vec<u8> = Vec::new();
        put_raw(&mut body, self.pub_key.bytes.as_slice());
        put_bytes(&mut body, self.name.as_slice());
        put_raw(&mut body, self.contracts_hash.bytes.as_slice());
        assert(body@ =~= self.pub_key@ + enc_bytes(self.name@) + self.contracts_hash@);
        frame(&body)
    }

    fn duplicate(&self) -> (out: Self) {
        Distributor {
            pub_key: self.pub_key,
            name: copy_bytes(&self.name),
            contracts_hash: self.contracts_hash,
        }
    }
}

/// The body of a content record.
pub open spec fn content_body(v: ContentView) -> Seq<u8> {
    enc_bytes(v.title) + enc_u64(v.price_per_listen) + enc_u64(v.min_plays) + enc_bytes(
        v.additional_conditions,
    ) + enc_u64(v.shares.len() as u64) + enc_shares(v.shares) + enc_u64(v.distributors.len() as u64)
        + enc_ids(v.distributors)
}

impl Record for Content {
    open spec fn encoding(v: ContentView) -> Seq<u8> {
        enc_bytes(content_body(v))
    }

    fn encode(&self) -> (out: Vec<u8>) {
        let mut body: Vec<u8> = Vec::new();
        put_bytes(&mut body, self.title.as_slice());
        put_u64(&mut body, self.price_per_listen);
        put_u64(&mut body, self.min_plays);
        put_bytes(&mut body, self.additional_conditions.as_slice());
        put_shares(&mut body, &self.shares);
        put_ids(&mut body, &self.distributors);
        assert(body@ =~= content_body(self@));
        frame(&body)
    }

    fn duplicate(&self) -> (out: Self) {
        Content {
            title: copy_bytes(&self.title),
            price_per_listen: self.price_per_listen,
            min_plays: self.min_plays,
            additional_conditions: copy_bytes(&self.additional_conditions),
            shares: copy_shares(&self.shares),
            distributors: copy_ids(&self.distributors),
        }
    }
}

impl Record for Ownership {
    open spec fn encoding(v: OwnershipView) -> Seq<u8> {
        enc_bytes(
            v.fingerprint + enc_u64(v.plays_total) + enc_u64(v.amount_paid) + v.reports_hash,
        )
    }

    fn encode(&self) -> (out: Vec<u8>) {
        let mut body: Vec<u8> = Vec::new();
        put_raw(&mut body, self.fingerprint.bytes.as_slice());
        put_u64(&mut body, self.plays_total);
        put_u64(&mut body, self.amount_paid);
        put_raw(&mut body, self.reports_hash.bytes.as_slice());
        assert(body@ =~= self.fingerprint@ + enc_u64(self.plays_total) + enc_u64(self.amount_paid)
            + self.reports_hash@);
        frame(&body)
    }

    fn duplicate(&self) -> (out: Self) {
        *self
    }
}

impl Record for Contract {
    open spec fn encoding(v: ContractView) -> Seq<u8> {
        enc_bytes(
            v.fingerprint + enc_u64(v.plays_total) + enc_u64(v.amount_owed) + v.reports_hash,
        )
    }

    fn encode(&self) -> (out: Vec<u8>) {
        let mut body: Vec<u8> = Vec::new();
        put_raw(&mut body, self.fingerprint.bytes.as_slice());
        put_u64(&mut body, self.plays_total);
        put_u64(&mut body, self.amount_owed);
        put_raw(&mut body, self.reports_hash.bytes.as_slice());
        assert(body@ =~= self.fingerprint@ + enc_u64(self.plays_total) + enc_u64(self.amount_owed)
            + self.reports_hash@);
        frame(&body)
    }

    fn duplicate(&self) -> (out: Self) {
        *self
    }
}

/// The body of a report record.
pub open spec fn report_body(v: ReportView) -> Seq<u8> {
    enc_u16(v.distributor_id) + v.fingerprint + v.uuid + enc_u64(v.time) + enc_u64(v.plays)
        + enc_u64(v.amount) + enc_bytes(v.comment)
}

impl Record for Report {
    open spec fn encoding(v: ReportView) -> Seq<u8> {
        enc_bytes(report_body(v))
    }

    fn encode(&self) -> (out: Vec<u8>) {
        let mut body: Vec<u8> = Vec::new();
        put_u16(&mut body, self.distributor_id);
        put_raw(&mut body, self.fingerprint.bytes.as_slice());
        put_raw(&mut body, self.uuid.bytes.as_slice());
        put_u64(&mut body, self.time);
        put_u64(&mut body, self.plays);
        put_u64(&mut body, self.amount);
        put_bytes(&mut body, self.comment.as_slice());
        assert(body@ =~= report_body(self@));
        frame(&body)
    }

    fn duplicate(&self) -> (out: Self) {
        Report {
            distributor_id: self.distributor_id,
            fingerprint: self.fingerprint,
            uuid: self.uuid,
            time: self.time,
            plays: self.plays,
            amount: self.amount,
            comment: copy_bytes(&self.comment),
        }
    }
}

impl Owner {
    /// An owner record.
    pub fn new(pub_key: &PublicKey, name: &[u8], ownership_hash: &crypto::Hash) -> (o: Owner)
        ensures
            o@ == (OwnerView {
                pub_key: pub_key@,
                name: name@,
                ownership_hash: ownership_hash@,
            }),
    {
        let mut bytes: Vec<u8> = Vec::new();
        put_raw(&mut bytes, name);
        assert(bytes@ =~= name@);
        Owner { pub_key: *pub_key, name: bytes, ownership_hash: *ownership_hash }
    }

    pub fn pub_key(&self) -> (k: &PublicKey)
        ensures
            k@ == self@.pub_key,
    {
        &self.pub_key
    }

    pub fn name(&self) -> (n: &Vec<u8>)
        ensures
            n@ == self@.name,
    {
        &self.name
    }

    pub fn ownership_hash(&self) -> (h: &crypto::Hash)
        ensures
            h@ == self@.ownership_hash,
    {
        &self.ownership_hash
    }

    /// Replaces the ownership hash.
    pub fn set_ownership_hash(&mut self, hash: &crypto::Hash)
        ensures
            final(self)@ == (OwnerView { ownership_hash: hash@, ..old(self)@ }),
    {
        self.ownership_hash = *hash;
    }
}

impl Distributor {
    /// A distributor record.
    pub fn new(pub_key: &PublicKey, name: &[u8], contracts_hash: &crypto::Hash) -> (d: Distributor)
        ensures
            d@ == (DistributorView {
                pub_key: pub_key@,
                name: name@,
                contracts_hash: contracts_hash@,
            }),
    {
        let mut bytes: Vec<u8> = Vec::new();
        put_raw(&mut bytes, name);
        assert(bytes@ =~= name@);
        Distributor { pub_key: *pub_key, name: bytes, contracts_hash: *contracts_hash }
    }

    pub fn pub_key(&self) -> (k: &PublicKey)
        ensures
            k@ == self@.pub_key,
    {
        &self.pub_key
    }

    pub fn name(&self) -> (n: &Vec<u8>)
        ensures
            n@ == self@.name,
    {
        &self.name
    }

    pub fn contracts_hash(&self) -> (h: &crypto::Hash)
        ensures
            h@ == self@.contracts_hash,
    {
        &self.contracts_hash
    }

    /// Replaces the contracts hash.
    pub fn set_contracts_hash(&mut self, hash: &crypto::Hash)
        ensures
            final(self)@ == (DistributorView { contracts_hash: hash@, ..old(self)@ }),
    {
        self.contracts_hash = *hash;
    }
}

impl Content {
    pub fn title(&self) -> (t: &Vec<u8>)
        ensures
            t@ == self@.title,
    {
        &self.title
    }

    pub fn price_per_listen(&self) -> (p: u64)
        ensures
            p == self@.price_per_listen,
    {
        self.price_per_listen
    }

    pub fn min_plays(&self) -> (p: u64)
        ensures
            p == self@.min_plays,
    {
        self.min_plays
    }

    pub fn additional_conditions(&self) -> (c: &Vec<u8>)
        ensures
            c@ == self@.additional_conditions,
    {
        &self.additional_conditions
    }

    pub fn shares(&self) -> (s: &Vec<ContentShare>)
        ensures
            s@ == self@.shares,
    {
        &self.shares
    }

    pub fn distributors(&self) -> (d: &Vec<u16>)
        ensures
            d@ == self@.distributors,
    {
        &self.distributors
    }
}

impl Ownership {
    /// A stake record.
    pub fn new(
        fingerprint: &crypto::Hash,
        plays_total: u64,
        amount_paid: u64,
        reports_hash: &crypto::Hash,
    ) -> (o: Ownership)
        ensures
            o@ == (OwnershipView {
                fingerprint: fingerprint@,
                plays_total,
                amount_paid,
                reports_hash: reports_hash@,
            }),
    {
        Ownership {
            fingerprint: *fingerprint,
            plays_total,
            amount_paid,
            reports_hash: *reports_hash,
        }
    }

    pub fn fingerprint(&self) -> (f: &crypto::Hash)
        ensures
            f@ == self@.fingerprint,
    {
        &self.fingerprint
    }
}

impl Contract {
    /// A contract record.
    pub fn new(
        fingerprint: &crypto::Hash,
        plays_total: u64,
        amount_owed: u64,
        reports_hash: &crypto::Hash,
    ) -> (c: Contract)
        ensures
            c@ == (ContractView {
                fingerprint: fingerprint@,
                plays_total,
                amount_owed,
                reports_hash: reports_hash@,
            }),
    {
        Contract {
            fingerprint: *fingerprint,
            plays_total,
            amount_owed,
            reports_hash: *reports_hash,
        }
    }

    pub fn fingerprint(&self) -> (f: &crypto::Hash)
        ensures
            f@ == self@.fingerprint,
    {
        &self.fingerprint
    }
}

} // verus!
