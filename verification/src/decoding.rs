//! Decoders of the records and messages, built on the field codec. Each gives
//! back the value whose canonical bytes it was handed, and nothing if the
//! bytes are no canonical form; so writing what was read gives the bytes
//! back, and every written value can be read.

use crate::codec::{enc_bytes, enc_i32, enc_i64, enc_u16, enc_u32, enc_u64};
use crate::crypto;
use crate::crypto::PublicKey;
use crate::merkle::hash_views;
use crate::messages::{
    enc_hashes, Commit, ConsensusMessage, Precommit, Prevote, Propose, Timespec, KIND_COMMIT,
    KIND_PRECOMMIT, KIND_PREVOTE, KIND_PROPOSE,
};
use crate::records::{
    enc_ids, enc_shares, role_tag, Content, ContentView, Contract, ContractView, Distributor,
    DistributorView, Owner, OwnerView, Ownership, OwnershipView, Participant, Report, ReportView,
    Role,
};
use crate::storage::Record;
use crate::txs::{
    payload_of, DigitalRightsTx, TxAddContent, TxAddContract, TxCreateDistributor, TxCreateOwner,
    TxReport, KIND_ADD_CONTENT, KIND_ADD_CONTRACT, KIND_CREATE_DISTRIBUTOR, KIND_CREATE_OWNER,
    KIND_REPORT, MESSAGE_VERSION,
};
use crate::wire::{
    enc_fields, field_views, fields_ok, kinds_of, lemma_enc_fields_push, lemma_fields_injective,
    lemma_hashes_flat, parse_message, parse_record, take_hashes, take_i32, take_i64, take_ids,
    take_key, take_shares, take_text, take_u16, take_u32, take_u64, take_u8, FieldView, Kind,
};
use vstd::bytes::*;
use vstd::prelude::*;

verus! {

/// Two byte strings with the same frame are equal.
pub proof fn lemma_frame_injective(x: Seq<u8>, y: Seq<u8>)
    requires
        enc_bytes(x) == enc_bytes(y),
    ensures
        x == y,
{
    lemma_auto_spec_u64_to_from_le_bytes();
    assert(enc_bytes(x).skip(8) =~= x);
    assert(enc_bytes(y).skip(8) =~= y);
}

/// Two messages with the same bytes have the same kind, body and signature.
pub proof fn lemma_message_injective(
    kind_a: u8,
    body_a: Seq<u8>,
    sig_a: crypto::Signature,
    kind_b: u8,
    body_b: Seq<u8>,
    sig_b: crypto::Signature,
)
    requires
        payload_of(kind_a, body_a) + sig_a@ == payload_of(kind_b, body_b) + sig_b@,
    ensures
        kind_a == kind_b,
        body_a == body_b,
        sig_a == sig_b,
{
    lemma_auto_spec_u64_to_from_le_bytes();
    let a = payload_of(kind_a, body_a) + sig_a@;
    let b = payload_of(kind_b, body_b) + sig_b@;
    assert(a[1] == kind_a);
    assert(b[1] == kind_b);
    assert(a.len() == 2 + 8 + body_a.len() + 64);
    assert(b.len() == 2 + 8 + body_b.len() + 64);
    let end_a = 10 + body_a.len() as int;
    let end_b = 10 + body_b.len() as int;
    assert(a.subrange(10, end_a) =~= body_a);
    assert(b.subrange(10, end_b) =~= body_b);
    assert(a.skip(end_a) =~= sig_a@);
    assert(b.skip(end_b) =~= sig_b@);
    crypto::lemma_signature_ext(sig_a, sig_b);
}

/// The fields of an entry of the fingerprint list.
pub open spec fn hash_fields(v: Seq<u8>) -> Seq<FieldView> {
    seq![FieldView::Key(v)]
}

impl crypto::Hash {
    /// Reads a stored hash from its canonical bytes. Gives the hash whose
    /// bytes these are, and nothing if they are the bytes of no hash.
    pub fn decode(data: &[u8]) -> (r: Option<crypto::Hash>)
        ensures
            r is Some ==> <crypto::Hash as Record>::encoding(r->0@) == data@,
            r is None ==> forall|v: Seq<u8>|
                v.len() == 32 ==> #[trigger] <crypto::Hash as Record>::encoding(v) != data@,
    {
        let schema = [Kind::Key];
        assert(schema@ =~= seq![Kind::Key]);
        match parse_record(schema.as_slice(), data) {
            None => {
                proof {
                    assert forall|v: Seq<u8>| v.len() == 32 implies #[trigger]
                        <crypto::Hash as Record>::encoding(v) != data@ by {
                        let fs = hash_fields(v);
                        assert(fs =~= Seq::<FieldView>::empty().push(fs[0]));
                        lemma_enc_fields_push(Seq::<FieldView>::empty(), fs[0]);
                        assert(enc_fields(fs) =~= v);
                        assert(kinds_of(fs) =~= seq![Kind::Key]);
                        assert(enc_bytes(enc_fields(fs)) != data@);
                    }
                }
                None
            },
            Some(mut fs) => {
                let ghost found = field_views(fs@);
                proof {
                    assert(kinds_of(found).len() == 1);
                    assert(kinds_of(found)[0] == Kind::Key);
                }
                let bytes = take_key(&mut fs);
                let out = crypto::Hash { bytes };
                proof {
                    assert(found =~= Seq::<FieldView>::empty().push(found[0]));
                    lemma_enc_fields_push(Seq::<FieldView>::empty(), found[0]);
                    assert(enc_fields(found) =~= out@);
                }
                Some(out)
            },
        }
    }
}

/// The fields of an entry of the participant index.
pub open spec fn participant_fields(v: Participant) -> Seq<FieldView> {
    seq![FieldView::U8(role_tag(v.role)), FieldView::U16(v.id)]
}

/// An entry of the participant index is written as its fields in a frame.
pub proof fn lemma_participant_fields(v: Participant)
    ensures
        <Participant as Record>::encoding(v) == enc_bytes(enc_fields(participant_fields(v))),
        kinds_of(participant_fields(v)) == seq![Kind::U8, Kind::U16],
        fields_ok(participant_fields(v)),
{
    let e = Seq::<FieldView>::empty();
    let fs = participant_fields(v);
    assert(fs =~= e.push(fs[0]).push(fs[1]));
    lemma_enc_fields_push(e, fs[0]);
    lemma_enc_fields_push(e.push(fs[0]), fs[1]);
    assert(enc_fields(fs) =~= seq![role_tag(v.role)] + enc_u16(v.id));
    assert(kinds_of(fs) =~= seq![Kind::U8, Kind::U16]);
}

impl Participant {
    /// Reads an entry of the participant index from its canonical bytes.
    /// Gives the entry whose bytes these are, and nothing if they are the
    /// bytes of no entry.
    pub fn decode(data: &[u8]) -> (r: Option<Participant>)
        ensures
            r is Some ==> <Participant as Record>::encoding(r->0@) == data@,
            r is None ==> forall|v: Participant| #[trigger]
                <Participant as Record>::encoding(v) != data@,
    {
        let schema = [Kind::U8, Kind::U16];
        assert(schema@ =~= seq![Kind::U8, Kind::U16]);
        match parse_record(schema.as_slice(), data) {
            None => {
                proof {
                    assert forall|v: Participant| #[trigger]
                        <Participant as Record>::encoding(v) != data@ by {
                        lemma_participant_fields(v);
                        assert(enc_bytes(enc_fields(participant_fields(v))) != data@);
                    }
                }
                None
            },
            Some(mut fs) => {
                let ghost found = field_views(fs@);
                proof {
                    assert(kinds_of(found).len() == 2);
                    assert(kinds_of(found)[0] == Kind::U8);
                    assert(kinds_of(found)[1] == Kind::U16);
                }
                let id = take_u16(&mut fs);
                let tag = take_u8(&mut fs);
                let role = if tag == 0 {
                    Role::Owner
                } else if tag == 1 {
                    Role::Distributor
                } else {
                    proof {
                        assert forall|v: Participant| #[trigger]
                            <Participant as Record>::encoding(v) != data@ by {
                            lemma_participant_fields(v);
                            if <Participant as Record>::encoding(v) == data@ {
                                lemma_frame_injective(
                                    enc_fields(participant_fields(v)),
                                    enc_fields(found),
                                );
                                lemma_fields_injective(participant_fields(v), found);
                                assert(participant_fields(v)[0] == found[0]);
                            }
                        }
                    }
                    return None;
                };
                let out = Participant { role, id };
                proof {
                    assert(participant_fields(out) =~= found);
                    lemma_participant_fields(out);
                }
                Some(out)
            },
        }
    }
}

/// The fields of an owner record.
pub open spec fn owner_fields(v: OwnerView) -> Seq<FieldView> {
    seq![
        FieldView::Key(v.pub_key),
        FieldView::Text(v.name),
        FieldView::Key(v.ownership_hash),
    ]
}

/// The kinds of the fields of an owner record.
pub open spec fn owner_schema() -> Seq<Kind> {
    seq![
        Kind::Key,
        Kind::Text,
        Kind::Key,
    ]
}

/// Whether an owner record can be written: its keys and hashes are 32 bytes
/// wide and its lengths fit their prefix.
pub open spec fn owner_valid(v: OwnerView) -> bool {
    fields_ok(owner_fields(v))
}

/// An owner record is written as its fields in a frame.
pub proof fn lemma_owner_fields(v: OwnerView)
    ensures
        <Owner as Record>::encoding(v) == enc_bytes(enc_fields(owner_fields(v))),
        kinds_of(owner_fields(v)) == owner_schema(),
{
    let fs = owner_fields(v);
    let p0 = Seq::<FieldView>::empty();
    let p1 = p0.push(fs[0]);
    let p2 = p1.push(fs[1]);
    let p3 = p2.push(fs[2]);
    assert(fs =~= p3);
    lemma_enc_fields_push(p0, fs[0]);
    lemma_enc_fields_push(p1, fs[1]);
    lemma_enc_fields_push(p2, fs[2]);
    assert(enc_fields(fs) =~= v.pub_key
            + enc_bytes(v.name)
            + v.ownership_hash);
    assert(kinds_of(fs) =~= owner_schema());
}

impl Owner {
    /// Reads an owner record from its canonical bytes. Gives the record whose
    /// bytes these are, and nothing if they are the bytes of no record.
    pub fn decode(data: &[u8]) -> (r: Option<Owner>)
        ensures
            r is Some ==> owner_valid(r->0@),
            r is Some ==> <Owner as Record>::encoding(r->0@) == data@,
            r is None ==> forall|v: OwnerView|
                owner_valid(v) ==> #[trigger] <Owner as Record>::encoding(v) != data@,
    {
        let schema = [
            Kind::Key,
            Kind::Text,
            Kind::Key,
        ];
        assert(schema@ =~= owner_schema());
        match parse_record(schema.as_slice(), data) {
            None => {
                proof {
                    assert forall|v: OwnerView| owner_valid(v) implies #[trigger]
                        <Owner as Record>::encoding(v) != data@ by {
                        lemma_owner_fields(v);
                        assert(enc_bytes(enc_fields(owner_fields(v))) != data@);
                    }
                }
                None
            },
            Some(mut fs) => {
                let ghost found = field_views(fs@);
                proof {
                    assert(kinds_of(found).len() == 3);
                    assert(kinds_of(found)[0] == Kind::Key);
                    assert(kinds_of(found)[1] == Kind::Text);
                    assert(kinds_of(found)[2] == Kind::Key);
                }
                let ownership_hash = take_key(&mut fs);
                let name = take_text(&mut fs);
                let pub_key = take_key(&mut fs);
                let out = Owner {
                    pub_key: PublicKey { bytes: pub_key },
                    name,
                    ownership_hash: crypto::Hash { bytes: ownership_hash },
                };
                proof {
                    assert(owner_fields(out@) =~= found);
                    lemma_owner_fields(out@);
                }
                Some(out)
            },
        }
    }
}

/// Two owner records with the same bytes are the same.
pub proof fn lemma_owner_injective(a: OwnerView, b: OwnerView)
    requires
        owner_valid(a),
        owner_valid(b),
        <Owner as Record>::encoding(a) == <Owner as Record>::encoding(b),
    ensures
        a == b,
{
    lemma_owner_fields(a);
    lemma_owner_fields(b);
    let fa = owner_fields(a);
    let fb = owner_fields(b);
    lemma_frame_injective(enc_fields(fa), enc_fields(fb));
    lemma_fields_injective(fa, fb);
    assert(fa[0] == fb[0]);
    assert(fa[1] == fb[1]);
    assert(fa[2] == fb[2]);
}

/// The fields of a distributor record.
pub open spec fn distributor_fields(v: DistributorView) -> Seq<FieldView> {
    seq![
        FieldView::Key(v.pub_key),
        FieldView::Text(v.name),
        FieldView::Key(v.contracts_hash),
    ]
}

/// The kinds of the fields of a distributor record.
pub open spec fn distributor_schema() -> Seq<Kind> {
    seq![
        Kind::Key,
        Kind::Text,
        Kind::Key,
    ]
}

/// Whether a distributor record can be written: its keys and hashes are 32 bytes
/// wide and its lengths fit their prefix.
pub open spec fn distributor_valid(v: DistributorView) -> bool {
    fields_ok(distributor_fields(v))
}

/// A distributor record is written as its fields in a frame.
pub proof fn lemma_distributor_fields(v: DistributorView)
    ensures
        <Distributor as Record>::encoding(v) == enc_bytes(enc_fields(distributor_fields(v))),
        kinds_of(distributor_fields(v)) == distributor_schema(),
{
    let fs = distributor_fields(v);
    let p0 = Seq::<FieldView>::empty();
    let p1 = p0.push(fs[0]);
    let p2 = p1.push(fs[1]);
    let p3 = p2.push(fs[2]);
    assert(fs =~= p3);
    lemma_enc_fields_push(p0, fs[0]);
    lemma_enc_fields_push(p1, fs[1]);
    lemma_enc_fields_push(p2, fs[2]);
    assert(enc_fields(fs) =~= v.pub_key
            + enc_bytes(v.name)
            + v.contracts_hash);
    assert(kinds_of(fs) =~= distributor_schema());
}

impl Distributor {
    /// Reads a distributor record from its canonical bytes. Gives the record whose
    /// bytes these are, and nothing if they are the bytes of no record.
    pub fn decode(data: &[u8]) -> (r: Option<Distributor>)
        ensures
            r is Some ==> distributor_valid(r->0@),
            r is Some ==> <Distributor as Record>::encoding(r->0@) == data@,
            r is None ==> forall|v: DistributorView|
                distributor_valid(v) ==> #[trigger] <Distributor as Record>::encoding(v) != data@,
    {
        let schema = [
            Kind::Key,
            Kind::Text,
            Kind::Key,
        ];
        assert(schema@ =~= distributor_schema());
        match parse_record(schema.as_slice(), data) {
            None => {
                proof {
                    assert forall|v: DistributorView| distributor_valid(v) implies #[trigger]
                        <Distributor as Record>::encoding(v) != data@ by {
                        lemma_distributor_fields(v);
                        assert(enc_bytes(enc_fields(distributor_fields(v))) != data@);
                    }
                }
                None
            },
            Some(mut fs) => {
                let ghost found = field_views(fs@);
                proof {
                    assert(kinds_of(found).len() == 3);
                    assert(kinds_of(found)[0] == Kind::Key);
                    assert(kinds_of(found)[1] == Kind::Text);
                    assert(kinds_of(found)[2] == Kind::Key);
                }
                let contracts_hash = take_key(&mut fs);
                let name = take_text(&mut fs);
                let pub_key = take_key(&mut fs);
                let out = Distributor {
                    pub_key: PublicKey { bytes: pub_key },
                    name,
                    contracts_hash: crypto::Hash { bytes: contracts_hash },
                };
                proof {
                    assert(distributor_fields(out@) =~= found);
                    lemma_distributor_fields(out@);
                }
                Some(out)
            },
        }
    }
}

/// Two distributor records with the same bytes are the same.
pub proof fn lemma_distributor_injective(a: DistributorView, b: DistributorView)
    requires
        distributor_valid(a),
        distributor_valid(b),
        <Distributor as Record>::encoding(a) == <Distributor as Record>::encoding(b),
    ensures
        a == b,
{
    lemma_distributor_fields(a);
    lemma_distributor_fields(b);
    let fa = distributor_fields(a);
    let fb = distributor_fields(b);
    lemma_frame_injective(enc_fields(fa), enc_fields(fb));
    lemma_fields_injective(fa, fb);
    assert(fa[0] == fb[0]);
    assert(fa[1] == fb[1]);
    assert(fa[2] == fb[2]);
}

/// The fields of a content record.
pub open spec fn content_fields(v: ContentView) -> Seq<FieldView> {
    seq![
        FieldView::Text(v.title),
        FieldView::U64(v.price_per_listen),
        FieldView::U64(v.min_plays),
        FieldView::Text(v.additional_conditions),
        FieldView::Shares(v.shares),
        FieldView::Ids(v.distributors),
    ]
}

/// The kinds of the fields of a content record.
pub open spec fn content_schema() -> Seq<Kind> {
    seq![
        Kind::Text,
        Kind::U64,
        Kind::U64,
        Kind::Text,
        Kind::Shares,
        Kind::Ids,
    ]
}

/// Whether a content record can be written: its keys and hashes are 32 bytes
/// wide and its lengths fit their prefix.
pub open spec fn content_valid(v: ContentView) -> bool {
    fields_ok(content_fields(v))
}

/// A content record is written as its fields in a frame.
pub proof fn lemma_content_fields(v: ContentView)
    ensures
        <Content as Record>::encoding(v) == enc_bytes(enc_fields(content_fields(v))),
        kinds_of(content_fields(v)) == content_schema(),
{
    let fs = content_fields(v);
    let p0 = Seq::<FieldView>::empty();
    let p1 = p0.push(fs[0]);
    let p2 = p1.push(fs[1]);
    let p3 = p2.push(fs[2]);
    let p4 = p3.push(fs[3]);
    let p5 = p4.push(fs[4]);
    let p6 = p5.push(fs[5]);
    assert(fs =~= p6);
    lemma_enc_fields_push(p0, fs[0]);
    lemma_enc_fields_push(p1, fs[1]);
    lemma_enc_fields_push(p2, fs[2]);
    lemma_enc_fields_push(p3, fs[3]);
    lemma_enc_fields_push(p4, fs[4]);
    lemma_enc_fields_push(p5, fs[5]);
    assert(enc_fields(fs) =~= enc_bytes(v.title)
            + enc_u64(v.price_per_listen)
            + enc_u64(v.min_plays)
            + enc_bytes(v.additional_conditions)
            + enc_u64(v.shares.len() as u64) + enc_shares(v.shares)
            + enc_u64(v.distributors.len() as u64) + enc_ids(v.distributors));
    assert(kinds_of(fs) =~= content_schema());
}

impl Content {
    /// Reads a content record from its canonical bytes. Gives the record whose
    /// bytes these are, and nothing if they are the bytes of no record.
    pub fn decode(data: &[u8]) -> (r: Option<Content>)
        ensures
            r is Some ==> content_valid(r->0@),
            r is Some ==> <Content as Record>::encoding(r->0@) == data@,
            r is None ==> forall|v: ContentView|
                content_valid(v) ==> #[trigger] <Content as Record>::encoding(v) != data@,
    {
        let schema = [
            Kind::Text,
            Kind::U64,
            Kind::U64,
            Kind::Text,
            Kind::Shares,
            Kind::Ids,
        ];
        assert(schema@ =~= content_schema());
        match parse_record(schema.as_slice(), data) {
            None => {
                proof {
                    assert forall|v: ContentView| content_valid(v) implies #[trigger]
                        <Content as Record>::encoding(v) != data@ by {
                        lemma_content_fields(v);
                        assert(enc_bytes(enc_fields(content_fields(v))) != data@);
                    }
                }
                None
            },
            Some(mut fs) => {
                let ghost found = field_views(fs@);
                proof {
                    assert(kinds_of(found).len() == 6);
                    assert(kinds_of(found)[0] == Kind::Text);
                    assert(kinds_of(found)[1] == Kind::U64);
                    assert(kinds_of(found)[2] == Kind::U64);
                    assert(kinds_of(found)[3] == Kind::Text);
                    assert(kinds_of(found)[4] == Kind::Shares);
                    assert(kinds_of(found)[5] == Kind::Ids);
                }
                let distributors = take_ids(&mut fs);
                let shares = take_shares(&mut fs);
                let additional_conditions = take_text(&mut fs);
                let min_plays = take_u64(&mut fs);
                let price_per_listen = take_u64(&mut fs);
                let title = take_text(&mut fs);
                let out = Content {
                    title,
                    price_per_listen,
                    min_plays,
                    additional_conditions,
                    shares,
                    distributors,
                };
                proof {
                    assert(content_fields(out@) =~= found);
                    lemma_content_fields(out@);
                }
                Some(out)
            },
        }
    }
}

/// Two content records with the same bytes are the same.
pub proof fn lemma_content_injective(a: ContentView, b: ContentView)
    requires
        content_valid(a),
        content_valid(b),
        <Content as Record>::encoding(a) == <Content as Record>::encoding(b),
    ensures
        a == b,
{
    lemma_content_fields(a);
    lemma_content_fields(b);
    let fa = content_fields(a);
    let fb = content_fields(b);
    lemma_frame_injective(enc_fields(fa), enc_fields(fb));
    lemma_fields_injective(fa, fb);
    assert(fa[0] == fb[0]);
    assert(fa[1] == fb[1]);
    assert(fa[2] == fb[2]);
    assert(fa[3] == fb[3]);
    assert(fa[4] == fb[4]);
    assert(fa[5] == fb[5]);
}

/// The fields of a stake record.
pub open spec fn ownership_fields(v: OwnershipView) -> Seq<FieldView> {
    seq![
        FieldView::Key(v.fingerprint),
        FieldView::U64(v.plays_total),
        FieldView::U64(v.amount_paid),
        FieldView::Key(v.reports_hash),
    ]
}

/// The kinds of the fields of a stake record.
pub open spec fn ownership_schema() -> Seq<Kind> {
    seq![
        Kind::Key,
        Kind::U64,
        Kind::U64,
        Kind::Key,
    ]
}

/// Whether a stake record can be written: its keys and hashes are 32 bytes
/// wide and its lengths fit their prefix.
pub open spec fn ownership_valid(v: OwnershipView) -> bool {
    fields_ok(ownership_fields(v))
}

/// A stake record is written as its fields in a frame.
pub proof fn lemma_ownership_fields(v: OwnershipView)
    ensures
        <Ownership as Record>::encoding(v) == enc_bytes(enc_fields(ownership_fields(v))),
        kinds_of(ownership_fields(v)) == ownership_schema(),
{
    let fs = ownership_fields(v);
    let p0 = Seq::<FieldView>::empty();
    let p1 = p0.push(fs[0]);
    let p2 = p1.push(fs[1]);
    let p3 = p2.push(fs[2]);
    let p4 = p3.push(fs[3]);
    assert(fs =~= p4);
    lemma_enc_fields_push(p0, fs[0]);
    lemma_enc_fields_push(p1, fs[1]);
    lemma_enc_fields_push(p2, fs[2]);
    lemma_enc_fields_push(p3, fs[3]);
    assert(enc_fields(fs) =~= v.fingerprint
            + enc_u64(v.plays_total)
            + enc_u64(v.amount_paid)
            + v.reports_hash);
    assert(kinds_of(fs) =~= ownership_schema());
}

impl Ownership {
    /// Reads a stake record from its canonical bytes. Gives the record whose
    /// bytes these are, and nothing if they are the bytes of no record.
    pub fn decode(data: &[u8]) -> (r: Option<Ownership>)
        ensures
            r is Some ==> ownership_valid(r->0@),
            r is Some ==> <Ownership as Record>::encoding(r->0@) == data@,
            r is None ==> forall|v: OwnershipView|
                ownership_valid(v) ==> #[trigger] <Ownership as Record>::encoding(v) != data@,
    {
        let schema = [
            Kind::Key,
            Kind::U64,
            Kind::U64,
            Kind::Key,
        ];
        assert(schema@ =~= ownership_schema());
        match parse_record(schema.as_slice(), data) {
            None => {
                proof {
                    assert forall|v: OwnershipView| ownership_valid(v) implies #[trigger]
                        <Ownership as Record>::encoding(v) != data@ by {
                        lemma_ownership_fields(v);
                        assert(enc_bytes(enc_fields(ownership_fields(v))) != data@);
                    }
                }
                None
            },
            Some(mut fs) => {
                let ghost found = field_views(fs@);
                proof {
                    assert(kinds_of(found).len() == 4);
                    assert(kinds_of(found)[0] == Kind::Key);
                    assert(kinds_of(found)[1] == Kind::U64);
                    assert(kinds_of(found)[2] == Kind::U64);
                    assert(kinds_of(found)[3] == Kind::Key);
                }
                let reports_hash = take_key(&mut fs);
                let amount_paid = take_u64(&mut fs);
                let plays_total = take_u64(&mut fs);
                let fingerprint = take_key(&mut fs);
                let out = Ownership {
                    fingerprint: crypto::Hash { bytes: fingerprint },
                    plays_total,
                    amount_paid,
                    reports_hash: crypto::Hash { bytes: reports_hash },
                };
                proof {
                    assert(ownership_fields(out@) =~= found);
                    lemma_ownership_fields(out@);
                }
                Some(out)
            },
        }
    }
}

/// Two stake records with the same bytes are the same.
pub proof fn lemma_ownership_injective(a: OwnershipView, b: OwnershipView)
    requires
        ownership_valid(a),
        ownership_valid(b),
        <Ownership as Record>::encoding(a) == <Ownership as Record>::encoding(b),
    ensures
        a == b,
{
    lemma_ownership_fields(a);
    lemma_ownership_fields(b);
    let fa = ownership_fields(a);
    let fb = ownership_fields(b);
    lemma_frame_injective(enc_fields(fa), enc_fields(fb));
    lemma_fields_injective(fa, fb);
    assert(fa[0] == fb[0]);
    assert(fa[1] == fb[1]);
    assert(fa[2] == fb[2]);
    assert(fa[3] == fb[3]);
}

/// The fields of a contract record.
pub open spec fn contract_fields(v: ContractView) -> Seq<FieldView> {
    seq![
        FieldView::Key(v.fingerprint),
        FieldView::U64(v.plays_total),
        FieldView::U64(v.amount_owed),
        FieldView::Key(v.reports_hash),
    ]
}

/// The kinds of the fields of a contract record.
pub open spec fn contract_schema() -> Seq<Kind> {
    seq![
        Kind::Key,
        Kind::U64,
        Kind::U64,
        Kind::Key,
    ]
}

/// Whether a contract record can be written: its keys and hashes are 32 bytes
/// wide and its lengths fit their prefix.
pub open spec fn contract_valid(v: ContractView) -> bool {
    fields_ok(contract_fields(v))
}

/// A contract record is written as its fields in a frame.
pub proof fn lemma_contract_fields(v: ContractView)
    ensures
        <Contract as Record>::encoding(v) == enc_bytes(enc_fields(contract_fields(v))),
        kinds_of(contract_fields(v)) == contract_schema(),
{
    let fs = contract_fields(v);
    let p0 = Seq::<FieldView>::empty();
    let p1 = p0.push(fs[0]);
    let p2 = p1.push(fs[1]);
    let p3 = p2.push(fs[2]);
    let p4 = p3.push(fs[3]);
    assert(fs =~= p4);
    lemma_enc_fields_push(p0, fs[0]);
    lemma_enc_fields_push(p1, fs[1]);
    lemma_enc_fields_push(p2, fs[2]);
    lemma_enc_fields_push(p3, fs[3]);
    assert(enc_fields(fs) =~= v.fingerprint
            + enc_u64(v.plays_total)
            + enc_u64(v.amount_owed)
            + v.reports_hash);
    assert(kinds_of(fs) =~= contract_schema());
}

impl Contract {
    /// Reads a contract record from its canonical bytes. Gives the record whose
    /// bytes these are, and nothing if they are the bytes of no record.
    pub fn decode(data: &[u8]) -> (r: Option<Contract>)
        ensures
            r is Some ==> contract_valid(r->0@),
            r is Some ==> <Contract as Record>::encoding(r->0@) == data@,
            r is None ==> forall|v: ContractView|
                contract_valid(v) ==> #[trigger] <Contract as Record>::encoding(v) != data@,
    {
        let schema = [
            Kind::Key,
            Kind::U64,
            Kind::U64,
            Kind::Key,
        ];
        assert(schema@ =~= contract_schema());
        match parse_record(schema.as_slice(), data) {
            None => {
                proof {
                    assert forall|v: ContractView| contract_valid(v) implies #[trigger]
                        <Contract as Record>::encoding(v) != data@ by {
                        lemma_contract_fields(v);
                        assert(enc_bytes(enc_fields(contract_fields(v))) != data@);
                    }
                }
                None
            },
            Some(mut fs) => {
                let ghost found = field_views(fs@);
                proof {
                    assert(kinds_of(found).len() == 4);
                    assert(kinds_of(found)[0] == Kind::Key);
                    assert(kinds_of(found)[1] == Kind::U64);
                    assert(kinds_of(found)[2] == Kind::U64);
                    assert(kinds_of(found)[3] == Kind::Key);
                }
                let reports_hash = take_key(&mut fs);
                let amount_owed = take_u64(&mut fs);
                let plays_total = take_u64(&mut fs);
                let fingerprint = take_key(&mut fs);
                let out = Contract {
                    fingerprint: crypto::Hash { bytes: fingerprint },
                    plays_total,
                    amount_owed,
                    reports_hash: crypto::Hash { bytes: reports_hash },
                };
                proof {
                    assert(contract_fields(out@) =~= found);
                    lemma_contract_fields(out@);
                }
                Some(out)
            },
        }
    }
}

/// Two contract records with the same bytes are the same.
pub proof fn lemma_contract_injective(a: ContractView, b: ContractView)
    requires
        contract_valid(a),
        contract_valid(b),
        <Contract as Record>::encoding(a) == <Contract as Record>::encoding(b),
    ensures
        a == b,
{
    lemma_contract_fields(a);
    lemma_contract_fields(b);
    let fa = contract_fields(a);
    let fb = contract_fields(b);
    lemma_frame_injective(enc_fields(fa), enc_fields(fb));
    lemma_fields_injective(fa, fb);
    assert(fa[0] == fb[0]);
    assert(fa[1] == fb[1]);
    assert(fa[2] == fb[2]);
    assert(fa[3] == fb[3]);
}

/// The fields of a report record.
pub open spec fn report_fields(v: ReportView) -> Seq<FieldView> {
    seq![
        FieldView::U16(v.distributor_id),
        FieldView::Key(v.fingerprint),
        FieldView::Key(v.uuid),
        FieldView::U64(v.time),
        FieldView::U64(v.plays),
        FieldView::U64(v.amount),
        FieldView::Text(v.comment),
    ]
}

/// The kinds of the fields of a report record.
pub open spec fn report_schema() -> Seq<Kind> {
    seq![
        Kind::U16,
        Kind::Key,
        Kind::Key,
        Kind::U64,
        Kind::U64,
        Kind::U64,
        Kind::Text,
    ]
}

/// Whether a report record can be written: its keys and hashes are 32 bytes
/// wide and its lengths fit their prefix.
pub open spec fn report_valid(v: ReportView) -> bool {
    fields_ok(report_fields(v))
}

/// A report record is written as its fields in a frame.
pub proof fn lemma_report_fields(v: ReportView)
    ensures
        <Report as Record>::encoding(v) == enc_bytes(enc_fields(report_fields(v))),
        kinds_of(report_fields(v)) == report_schema(),
{
    let fs = report_fields(v);
    let p0 = Seq::<FieldView>::empty();
    let p1 = p0.push(fs[0]);
    let p2 = p1.push(fs[1]);
    let p3 = p2.push(fs[2]);
    let p4 = p3.push(fs[3]);
    let p5 = p4.push(fs[4]);
    let p6 = p5.push(fs[5]);
    let p7 = p6.push(fs[6]);
    assert(fs =~= p7);
    lemma_enc_fields_push(p0, fs[0]);
    lemma_enc_fields_push(p1, fs[1]);
    lemma_enc_fields_push(p2, fs[2]);
    lemma_enc_fields_push(p3, fs[3]);
    lemma_enc_fields_push(p4, fs[4]);
    lemma_enc_fields_push(p5, fs[5]);
    lemma_enc_fields_push(p6, fs[6]);
    assert(enc_fields(fs) =~= enc_u16(v.distributor_id)
            + v.fingerprint
            + v.uuid
            + enc_u64(v.time)
            + enc_u64(v.plays)
            + enc_u64(v.amount)
            + enc_bytes(v.comment));
    assert(kinds_of(fs) =~= report_schema());
}

impl Report {
    /// Reads a report record from its canonical bytes. Gives the record whose
    /// bytes these are, and nothing if they are the bytes of no record.
    pub fn decode(data: &[u8]) -> (r: Option<Report>)
        ensures
            r is Some ==> report_valid(r->0@),
            r is Some ==> <Report as Record>::encoding(r->0@) == data@,
            r is None ==> forall|v: ReportView|
                report_valid(v) ==> #[trigger] <Report as Record>::encoding(v) != data@,
    {
        let schema = [
            Kind::U16,
            Kind::Key,
            Kind::Key,
            Kind::U64,
            Kind::U64,
            Kind::U64,
            Kind::Text,
        ];
        assert(schema@ =~= report_schema());
        match parse_record(schema.as_slice(), data) {
            None => {
                proof {
                    assert forall|v: ReportView| report_valid(v) implies #[trigger]
                        <Report as Record>::encoding(v) != data@ by {
                        lemma_report_fields(v);
                        assert(enc_bytes(enc_fields(report_fields(v))) != data@);
                    }
                }
                None
            },
            Some(mut fs) => {
                let ghost found = field_views(fs@);
                proof {
                    assert(kinds_of(found).len() == 7);
                    assert(kinds_of(found)[0] == Kind::U16);
                    assert(kinds_of(found)[1] == Kind::Key);
                    assert(kinds_of(found)[2] == Kind::Key);
                    assert(kinds_of(found)[3] == Kind::U64);
                    assert(kinds_of(found)[4] == Kind::U64);
                    assert(kinds_of(found)[5] == Kind::U64);
                    assert(kinds_of(found)[6] == Kind::Text);
                }
                let comment = take_text(&mut fs);
                let amount = take_u64(&mut fs);
                let plays = take_u64(&mut fs);
                let time = take_u64(&mut fs);
                let uuid = take_key(&mut fs);
                let fingerprint = take_key(&mut fs);
                let distributor_id = take_u16(&mut fs);
                let out = Report {
                    distributor_id,
                    fingerprint: crypto::Hash { bytes: fingerprint },
                    uuid: crypto::Hash { bytes: uuid },
                    time,
                    plays,
                    amount,
                    comment,
                };
                proof {
                    assert(report_fields(out@) =~= found);
                    lemma_report_fields(out@);
                }
                Some(out)
            },
        }
    }
}

/// Two report records with the same bytes are the same.
pub proof fn lemma_report_injective(a: ReportView, b: ReportView)
    requires
        report_valid(a),
        report_valid(b),
        <Report as Record>::encoding(a) == <Report as Record>::encoding(b),
    ensures
        a == b,
{
    lemma_report_fields(a);
    lemma_report_fields(b);
    let fa = report_fields(a);
    let fb = report_fields(b);
    lemma_frame_injective(enc_fields(fa), enc_fields(fb));
    lemma_fields_injective(fa, fb);
    assert(fa[0] == fb[0]);
    assert(fa[1] == fb[1]);
    assert(fa[2] == fb[2]);
    assert(fa[3] == fb[3]);
    assert(fa[4] == fb[4]);
    assert(fa[5] == fb[5]);
    assert(fa[6] == fb[6]);
}

/// The fields of the body of a CreateOwner transaction.
pub open spec fn create_owner_fields(t: TxCreateOwner) -> Seq<FieldView> {
    seq![
        FieldView::Key(t.pub_key@),
        FieldView::Text(t.name@),
    ]
}

/// The kinds of the fields of the body of a CreateOwner transaction.
pub open spec fn create_owner_schema() -> Seq<Kind> {
    seq![
        Kind::Key,
        Kind::Text,
    ]
}

/// The signed part of a CreateOwner transaction is its fields in a message frame, and
/// every such value can be written.
pub proof fn lemma_create_owner_fields(t: TxCreateOwner)
    ensures
        t.payload() == payload_of(KIND_CREATE_OWNER, enc_fields(create_owner_fields(t))),
        kinds_of(create_owner_fields(t)) == create_owner_schema(),
        fields_ok(create_owner_fields(t)),
{
    let fs = create_owner_fields(t);
    let p0 = Seq::<FieldView>::empty();
    let p1 = p0.push(fs[0]);
    let p2 = p1.push(fs[1]);
    assert(fs =~= p2);
    lemma_enc_fields_push(p0, fs[0]);
    lemma_enc_fields_push(p1, fs[1]);
    assert(enc_fields(fs) =~= t.pub_key@
            + enc_bytes(t.name@));
    assert(kinds_of(fs) =~= create_owner_schema());
    assert(t.name.len() <= usize::MAX);
}

impl TxCreateOwner {
    /// Reads a CreateOwner transaction from its canonical bytes. Gives the value whose
    /// bytes these are, and nothing if they are the bytes of no such value.
    pub fn decode(data: &[u8]) -> (r: Option<TxCreateOwner>)
        ensures
            r is Some ==> r->0.encoding() == data@,
            r is None ==> forall|t: TxCreateOwner| #[trigger] t.encoding() != data@,
    {
        let schema = [
            Kind::Key,
            Kind::Text,
        ];
        assert(schema@ =~= create_owner_schema());
        match parse_message(KIND_CREATE_OWNER, schema.as_slice(), data) {
            None => {
                proof {
                    assert forall|t: TxCreateOwner| #[trigger] t.encoding() != data@ by {
                        lemma_create_owner_fields(t);
                        let body = enc_fields(create_owner_fields(t));
                        assert(payload_of(KIND_CREATE_OWNER, body) + t.signature@ != data@);
                    }
                }
                None
            },
            Some((mut fs, signature)) => {
                let ghost found = field_views(fs@);
                proof {
                    assert(kinds_of(found).len() == 2);
                    assert(kinds_of(found)[0] == Kind::Key);
                    assert(kinds_of(found)[1] == Kind::Text);
                }
                let name = take_text(&mut fs);
                let pub_key = take_key(&mut fs);
                let out = TxCreateOwner {
                    pub_key: PublicKey { bytes: pub_key },
                    name,
                    signature,
                };
                proof {
                    assert(create_owner_fields(out) =~= found);
                    lemma_create_owner_fields(out);
                }
                Some(out)
            },
        }
    }
}

/// Two CreateOwner transactions with the same bytes have the same fields and signature.
pub proof fn lemma_create_owner_injective(a: TxCreateOwner, b: TxCreateOwner)
    requires
        a.encoding() == b.encoding(),
    ensures
        create_owner_fields(a) == create_owner_fields(b),
        a.signature == b.signature,
{
    lemma_create_owner_fields(a);
    lemma_create_owner_fields(b);
    let body_a = enc_fields(create_owner_fields(a));
    let body_b = enc_fields(create_owner_fields(b));
    lemma_message_injective(
        KIND_CREATE_OWNER,
        body_a,
        a.signature,
        KIND_CREATE_OWNER,
        body_b,
        b.signature,
    );
    lemma_fields_injective(create_owner_fields(a), create_owner_fields(b));
}

/// The fields of the body of a CreateDistributor transaction.
pub open spec fn create_distributor_fields(t: TxCreateDistributor) -> Seq<FieldView> {
    seq![
        FieldView::Key(t.pub_key@),
        FieldView::Text(t.name@),
    ]
}

/// The kinds of the fields of the body of a CreateDistributor transaction.
pub open spec fn create_distributor_schema() -> Seq<Kind> {
    seq![
        Kind::Key,
        Kind::Text,
    ]
}

/// The signed part of a CreateDistributor transaction is its fields in a message frame, and
/// every such value can be written.
pub proof fn lemma_create_distributor_fields(t: TxCreateDistributor)
    ensures
        t.payload() == payload_of(
            KIND_CREATE_DISTRIBUTOR,
            enc_fields(create_distributor_fields(t)),
        ),
        kinds_of(create_distributor_fields(t)) == create_distributor_schema(),
        fields_ok(create_distributor_fields(t)),
{
    let fs = create_distributor_fields(t);
    let p0 = Seq::<FieldView>::empty();
    let p1 = p0.push(fs[0]);
    let p2 = p1.push(fs[1]);
    assert(fs =~= p2);
    lemma_enc_fields_push(p0, fs[0]);
    lemma_enc_fields_push(p1, fs[1]);
    assert(enc_fields(fs) =~= t.pub_key@
            + enc_bytes(t.name@));
    assert(kinds_of(fs) =~= create_distributor_schema());
    assert(t.name.len() <= usize::MAX);
}

impl TxCreateDistributor {
    /// Reads a CreateDistributor transaction from its canonical bytes. Gives the value whose
    /// bytes these are, and nothing if they are the bytes of no such value.
    pub fn decode(data: &[u8]) -> (r: Option<TxCreateDistributor>)
        ensures
            r is Some ==> r->0.encoding() == data@,
            r is None ==> forall|t: TxCreateDistributor| #[trigger] t.encoding() != data@,
    {
        let schema = [
            Kind::Key,
            Kind::Text,
        ];
        assert(schema@ =~= create_distributor_schema());
        match parse_message(KIND_CREATE_DISTRIBUTOR, schema.as_slice(), data) {
            None => {
                proof {
                    assert forall|t: TxCreateDistributor| #[trigger] t.encoding() != data@ by {
                        lemma_create_distributor_fields(t);
                        let body = enc_fields(create_distributor_fields(t));
                        assert(payload_of(KIND_CREATE_DISTRIBUTOR, body) + t.signature@ != data@);
                    }
                }
                None
            },
            Some((mut fs, signature)) => {
                let ghost found = field_views(fs@);
                proof {
                    assert(kinds_of(found).len() == 2);
                    assert(kinds_of(found)[0] == Kind::Key);
                    assert(kinds_of(found)[1] == Kind::Text);
                }
                let name = take_text(&mut fs);
                let pub_key = take_key(&mut fs);
                let out = TxCreateDistributor {
                    pub_key: PublicKey { bytes: pub_key },
                    name,
                    signature,
                };
                proof {
                    assert(create_distributor_fields(out) =~= found);
                    lemma_create_distributor_fields(out);
                }
                Some(out)
            },
        }
    }
}

/// Two CreateDistributor transactions with the same bytes have the same fields and signature.
pub proof fn lemma_create_distributor_injective(a: TxCreateDistributor, b: TxCreateDistributor)
    requires
        a.encoding() == b.encoding(),
    ensures
        create_distributor_fields(a) == create_distributor_fields(b),
        a.signature == b.signature,
{
    lemma_create_distributor_fields(a);
    lemma_create_distributor_fields(b);
    let body_a = enc_fields(create_distributor_fields(a));
    let body_b = enc_fields(create_distributor_fields(b));
    lemma_message_injective(
        KIND_CREATE_DISTRIBUTOR,
        body_a,
        a.signature,
        KIND_CREATE_DISTRIBUTOR,
        body_b,
        b.signature,
    );
    lemma_fields_injective(create_distributor_fields(a), create_distributor_fields(b));
}

/// The fields of the body of an AddContent transaction.
pub open spec fn add_content_fields(t: TxAddContent) -> Seq<FieldView> {
    seq![
        FieldView::Key(t.pub_key@),
        FieldView::Key(t.fingerprint@),
        FieldView::Text(t.title@),
        FieldView::U64(t.price_per_listen),
        FieldView::U64(t.min_plays),
        FieldView::Shares(t.owners@),
        FieldView::Text(t.additional_conditions@),
    ]
}

/// The kinds of the fields of the body of an AddContent transaction.
pub open spec fn add_content_schema() -> Seq<Kind> {
    seq![
        Kind::Key,
        Kind::Key,
        Kind::Text,
        Kind::U64,
        Kind::U64,
        Kind::Shares,
        Kind::Text,
    ]
}

/// The signed part of an AddContent transaction is its fields in a message frame, and
/// every such value can be written.
pub proof fn lemma_add_content_fields(t: TxAddContent)
    ensures
        t.payload() == payload_of(KIND_ADD_CONTENT, enc_fields(add_content_fields(t))),
        kinds_of(add_content_fields(t)) == add_content_schema(),
        fields_ok(add_content_fields(t)),
{
    let fs = add_content_fields(t);
    let p0 = Seq::<FieldView>::empty();
    let p1 = p0.push(fs[0]);
    let p2 = p1.push(fs[1]);
    let p3 = p2.push(fs[2]);
    let p4 = p3.push(fs[3]);
    let p5 = p4.push(fs[4]);
    let p6 = p5.push(fs[5]);
    let p7 = p6.push(fs[6]);
    assert(fs =~= p7);
    lemma_enc_fields_push(p0, fs[0]);
    lemma_enc_fields_push(p1, fs[1]);
    lemma_enc_fields_push(p2, fs[2]);
    lemma_enc_fields_push(p3, fs[3]);
    lemma_enc_fields_push(p4, fs[4]);
    lemma_enc_fields_push(p5, fs[5]);
    lemma_enc_fields_push(p6, fs[6]);
    assert(enc_fields(fs) =~= t.pub_key@
            + t.fingerprint@
            + enc_bytes(t.title@)
            + enc_u64(t.price_per_listen)
            + enc_u64(t.min_plays)
            + enc_u64(t.owners@.len() as u64) + enc_shares(t.owners@)
            + enc_bytes(t.additional_conditions@));
    assert(kinds_of(fs) =~= add_content_schema());
    assert(t.title.len() <= usize::MAX);
    assert(t.owners.len() <= usize::MAX);
    assert(t.additional_conditions.len() <= usize::MAX);
}

impl TxAddContent {
    /// Reads an AddContent transaction from its canonical bytes. Gives the value whose
    /// bytes these are, and nothing if they are the bytes of no such value.
    pub fn decode(data: &[u8]) -> (r: Option<TxAddContent>)
        ensures
            r is Some ==> r->0.encoding() == data@,
            r is None ==> forall|t: TxAddContent| #[trigger] t.encoding() != data@,
    {
        let schema = [
            Kind::Key,
            Kind::Key,
            Kind::Text,
            Kind::U64,
            Kind::U64,
            Kind::Shares,
            Kind::Text,
        ];
        assert(schema@ =~= add_content_schema());
        match parse_message(KIND_ADD_CONTENT, schema.as_slice(), data) {
            None => {
                proof {
                    assert forall|t: TxAddContent| #[trigger] t.encoding() != data@ by {
                        lemma_add_content_fields(t);
                        let body = enc_fields(add_content_fields(t));
                        assert(payload_of(KIND_ADD_CONTENT, body) + t.signature@ != data@);
                    }
                }
                None
            },
            Some((mut fs, signature)) => {
                let ghost found = field_views(fs@);
                proof {
                    assert(kinds_of(found).len() == 7);
                    assert(kinds_of(found)[0] == Kind::Key);
                    assert(kinds_of(found)[1] == Kind::Key);
                    assert(kinds_of(found)[2] == Kind::Text);
                    assert(kinds_of(found)[3] == Kind::U64);
                    assert(kinds_of(found)[4] == Kind::U64);
                    assert(kinds_of(found)[5] == Kind::Shares);
                    assert(kinds_of(found)[6] == Kind::Text);
                }
                let additional_conditions = take_text(&mut fs);
                let owners = take_shares(&mut fs);
                let min_plays = take_u64(&mut fs);
                let price_per_listen = take_u64(&mut fs);
                let title = take_text(&mut fs);
                let fingerprint = take_key(&mut fs);
                let pub_key = take_key(&mut fs);
                let out = TxAddContent {
                    pub_key: PublicKey { bytes: pub_key },
                    fingerprint: crypto::Hash { bytes: fingerprint },
                    title,
                    price_per_listen,
                    min_plays,
                    owners,
                    additional_conditions,
                    signature,
                };
                proof {
                    assert(add_content_fields(out) =~= found);
                    lemma_add_content_fields(out);
                }
                Some(out)
            },
        }
    }
}

/// Two AddContent transactions with the same bytes have the same fields and signature.
pub proof fn lemma_add_content_injective(a: TxAddContent, b: TxAddContent)
    requires
        a.encoding() == b.encoding(),
    ensures
        add_content_fields(a) == add_content_fields(b),
        a.signature == b.signature,
{
    lemma_add_content_fields(a);
    lemma_add_content_fields(b);
    let body_a = enc_fields(add_content_fields(a));
    let body_b = enc_fields(add_content_fields(b));
    lemma_message_injective(
        KIND_ADD_CONTENT,
        body_a,
        a.signature,
        KIND_ADD_CONTENT,
        body_b,
        b.signature,
    );
    lemma_fields_injective(add_content_fields(a), add_content_fields(b));
}

/// The fields of the body of an AddContract transaction.
pub open spec fn add_contract_fields(t: TxAddContract) -> Seq<FieldView> {
    seq![
        FieldView::Key(t.pub_key@),
        FieldView::U16(t.distributor_id),
        FieldView::Key(t.fingerprint@),
    ]
}

/// The kinds of the fields of the body of an AddContract transaction.
pub open spec fn add_contract_schema() -> Seq<Kind> {
    seq![
        Kind::Key,
        Kind::U16,
        Kind::Key,
    ]
}

/// The signed part of an AddContract transaction is its fields in a message frame, and
/// every such value can be written.
pub proof fn lemma_add_contract_fields(t: TxAddContract)
    ensures
        t.payload() == payload_of(KIND_ADD_CONTRACT, enc_fields(add_contract_fields(t))),
        kinds_of(add_contract_fields(t)) == add_contract_schema(),
        fields_ok(add_contract_fields(t)),
{
    let fs = add_contract_fields(t);
    let p0 = Seq::<FieldView>::empty();
    let p1 = p0.push(fs[0]);
    let p2 = p1.push(fs[1]);
    let p3 = p2.push(fs[2]);
    assert(fs =~= p3);
    lemma_enc_fields_push(p0, fs[0]);
    lemma_enc_fields_push(p1, fs[1]);
    lemma_enc_fields_push(p2, fs[2]);
    assert(enc_fields(fs) =~= t.pub_key@
            + enc_u16(t.distributor_id)
            + t.fingerprint@);
    assert(kinds_of(fs) =~= add_contract_schema());
}

impl TxAddContract {
    /// Reads an AddContract transaction from its canonical bytes. Gives the value whose
    /// bytes these are, and nothing if they are the bytes of no such value.
    pub fn decode(data: &[u8]) -> (r: Option<TxAddContract>)
        ensures
            r is Some ==> r->0.encoding() == data@,
            r is None ==> forall|t: TxAddContract| #[trigger] t.encoding() != data@,
    {
        let schema = [
            Kind::Key,
            Kind::U16,
            Kind::Key,
        ];
        assert(schema@ =~= add_contract_schema());
        match parse_message(KIND_ADD_CONTRACT, schema.as_slice(), data) {
            None => {
                proof {
                    assert forall|t: TxAddContract| #[trigger] t.encoding() != data@ by {
                        lemma_add_contract_fields(t);
                        let body = enc_fields(add_contract_fields(t));
                        assert(payload_of(KIND_ADD_CONTRACT, body) + t.signature@ != data@);
                    }
                }
                None
            },
            Some((mut fs, signature)) => {
                let ghost found = field_views(fs@);
                proof {
                    assert(kinds_of(found).len() == 3);
                    assert(kinds_of(found)[0] == Kind::Key);
                    assert(kinds_of(found)[1] == Kind::U16);
                    assert(kinds_of(found)[2] == Kind::Key);
                }
                let fingerprint = take_key(&mut fs);
                let distributor_id = take_u16(&mut fs);
                let pub_key = take_key(&mut fs);
                let out = TxAddContract {
                    pub_key: PublicKey { bytes: pub_key },
                    distributor_id,
                    fingerprint: crypto::Hash { bytes: fingerprint },
                    signature,
                };
                proof {
                    assert(add_contract_fields(out) =~= found);
                    lemma_add_contract_fields(out);
                }
                Some(out)
            },
        }
    }
}

/// Two AddContract transactions with the same bytes have the same fields and signature.
pub proof fn lemma_add_contract_injective(a: TxAddContract, b: TxAddContract)
    requires
        a.encoding() == b.encoding(),
    ensures
        add_contract_fields(a) == add_contract_fields(b),
        a.signature == b.signature,
{
    lemma_add_contract_fields(a);
    lemma_add_contract_fields(b);
    let body_a = enc_fields(add_contract_fields(a));
    let body_b = enc_fields(add_contract_fields(b));
    lemma_message_injective(
        KIND_ADD_CONTRACT,
        body_a,
        a.signature,
        KIND_ADD_CONTRACT,
        body_b,
        b.signature,
    );
    lemma_fields_injective(add_contract_fields(a), add_contract_fields(b));
}

/// The fields of the body of a Report transaction.
pub open spec fn report_tx_fields(t: TxReport) -> Seq<FieldView> {
    seq![
        FieldView::Key(t.pub_key@),
        FieldView::Key(t.uuid@),
        FieldView::U16(t.distributor_id),
        FieldView::Key(t.fingerprint@),
        FieldView::U64(t.time),
        FieldView::U64(t.plays),
        FieldView::U64(t.amount),
        FieldView::Text(t.comment@),
    ]
}

/// The kinds of the fields of the body of a Report transaction.
pub open spec fn report_tx_schema() -> Seq<Kind> {
    seq![
        Kind::Key,
        Kind::Key,
        Kind::U16,
        Kind::Key,
        Kind::U64,
        Kind::U64,
        Kind::U64,
        Kind::Text,
    ]
}

/// The signed part of a Report transaction is its fields in a message frame, and
/// every such value can be written.
pub proof fn lemma_report_tx_fields(t: TxReport)
    ensures
        t.payload() == payload_of(KIND_REPORT, enc_fields(report_tx_fields(t))),
        kinds_of(report_tx_fields(t)) == report_tx_schema(),
        fields_ok(report_tx_fields(t)),
{
    let fs = report_tx_fields(t);
    let p0 = Seq::<FieldView>::empty();
    let p1 = p0.push(fs[0]);
    let p2 = p1.push(fs[1]);
    let p3 = p2.push(fs[2]);
    let p4 = p3.push(fs[3]);
    let p5 = p4.push(fs[4]);
    let p6 = p5.push(fs[5]);
    let p7 = p6.push(fs[6]);
    let p8 = p7.push(fs[7]);
    assert(fs =~= p8);
    lemma_enc_fields_push(p0, fs[0]);
    lemma_enc_fields_push(p1, fs[1]);
    lemma_enc_fields_push(p2, fs[2]);
    lemma_enc_fields_push(p3, fs[3]);
    lemma_enc_fields_push(p4, fs[4]);
    lemma_enc_fields_push(p5, fs[5]);
    lemma_enc_fields_push(p6, fs[6]);
    lemma_enc_fields_push(p7, fs[7]);
    assert(enc_fields(fs) =~= t.pub_key@
            + t.uuid@
            + enc_u16(t.distributor_id)
            + t.fingerprint@
            + enc_u64(t.time)
            + enc_u64(t.plays)
            + enc_u64(t.amount)
            + enc_bytes(t.comment@));
    assert(kinds_of(fs) =~= report_tx_schema());
    assert(t.comment.len() <= usize::MAX);
}

impl TxReport {
    /// Reads a Report transaction from its canonical bytes. Gives the value whose
    /// bytes these are, and nothing if they are the bytes of no such value.
    pub fn decode(data: &[u8]) -> (r: Option<TxReport>)
        ensures
            r is Some ==> r->0.encoding() == data@,
            r is None ==> forall|t: TxReport| #[trigger] t.encoding() != data@,
    {
        let schema = [
            Kind::Key,
            Kind::Key,
            Kind::U16,
            Kind::Key,
            Kind::U64,
            Kind::U64,
            Kind::U64,
            Kind::Text,
        ];
        assert(schema@ =~= report_tx_schema());
        match parse_message(KIND_REPORT, schema.as_slice(), data) {
            None => {
                proof {
                    assert forall|t: TxReport| #[trigger] t.encoding() != data@ by {
                        lemma_report_tx_fields(t);
                        let body = enc_fields(report_tx_fields(t));
                        assert(payload_of(KIND_REPORT, body) + t.signature@ != data@);
                    }
                }
                None
            },
            Some((mut fs, signature)) => {
                let ghost found = field_views(fs@);
                proof {
                    assert(kinds_of(found).len() == 8);
                    assert(kinds_of(found)[0] == Kind::Key);
                    assert(kinds_of(found)[1] == Kind::Key);
                    assert(kinds_of(found)[2] == Kind::U16);
                    assert(kinds_of(found)[3] == Kind::Key);
                    assert(kinds_of(found)[4] == Kind::U64);
                    assert(kinds_of(found)[5] == Kind::U64);
                    assert(kinds_of(found)[6] == Kind::U64);
                    assert(kinds_of(found)[7] == Kind::Text);
                }
                let comment = take_text(&mut fs);
                let amount = take_u64(&mut fs);
                let plays = take_u64(&mut fs);
                let time = take_u64(&mut fs);
                let fingerprint = take_key(&mut fs);
                let distributor_id = take_u16(&mut fs);
                let uuid = take_key(&mut fs);
                let pub_key = take_key(&mut fs);
                let out = TxReport {
                    pub_key: PublicKey { bytes: pub_key },
                    uuid: crypto::Hash { bytes: uuid },
                    distributor_id,
                    fingerprint: crypto::Hash { bytes: fingerprint },
                    time,
                    plays,
                    amount,
                    comment,
                    signature,
                };
                proof {
                    assert(report_tx_fields(out) =~= found);
                    lemma_report_tx_fields(out);
                }
                Some(out)
            },
        }
    }
}

/// Two Report transactions with the same bytes have the same fields and signature.
pub proof fn lemma_report_tx_injective(a: TxReport, b: TxReport)
    requires
        a.encoding() == b.encoding(),
    ensures
        report_tx_fields(a) == report_tx_fields(b),
        a.signature == b.signature,
{
    lemma_report_tx_fields(a);
    lemma_report_tx_fields(b);
    let body_a = enc_fields(report_tx_fields(a));
    let body_b = enc_fields(report_tx_fields(b));
    lemma_message_injective(
        KIND_REPORT,
        body_a,
        a.signature,
        KIND_REPORT,
        body_b,
        b.signature,
    );
    lemma_fields_injective(report_tx_fields(a), report_tx_fields(b));
}

/// The fields of the body of a proposal.
pub open spec fn propose_fields(t: Propose) -> Seq<FieldView> {
    seq![
        FieldView::U32(t.validator),
        FieldView::U64(t.height),
        FieldView::U32(t.round),
        FieldView::I64(t.time.sec),
        FieldView::I32(t.time.nsec),
        FieldView::Key(t.prev_hash@),
        FieldView::Hashes(hash_views(t.transactions@)),
    ]
}

/// The kinds of the fields of the body of a proposal.
pub open spec fn propose_schema() -> Seq<Kind> {
    seq![
        Kind::U32,
        Kind::U64,
        Kind::U32,
        Kind::I64,
        Kind::I32,
        Kind::Key,
        Kind::Hashes,
    ]
}

/// The signed part of a proposal is its fields in a message frame, and
/// every such value can be written.
pub proof fn lemma_propose_fields(t: Propose)
    ensures
        t.payload() == payload_of(KIND_PROPOSE, enc_fields(propose_fields(t))),
        kinds_of(propose_fields(t)) == propose_schema(),
        fields_ok(propose_fields(t)),
{
    let fs = propose_fields(t);
    let p0 = Seq::<FieldView>::empty();
    let p1 = p0.push(fs[0]);
    let p2 = p1.push(fs[1]);
    let p3 = p2.push(fs[2]);
    let p4 = p3.push(fs[3]);
    let p5 = p4.push(fs[4]);
    let p6 = p5.push(fs[5]);
    let p7 = p6.push(fs[6]);
    assert(fs =~= p7);
    lemma_enc_fields_push(p0, fs[0]);
    lemma_enc_fields_push(p1, fs[1]);
    lemma_enc_fields_push(p2, fs[2]);
    lemma_enc_fields_push(p3, fs[3]);
    lemma_enc_fields_push(p4, fs[4]);
    lemma_enc_fields_push(p5, fs[5]);
    lemma_enc_fields_push(p6, fs[6]);
    lemma_hashes_flat(t.transactions@);
    assert(enc_fields(fs) =~= enc_u32(t.validator)
            + enc_u64(t.height)
            + enc_u32(t.round)
            + enc_i64(t.time.sec)
            + enc_i32(t.time.nsec)
            + t.prev_hash@
            + enc_u64(t.transactions@.len() as u64) + enc_hashes(t.transactions@));
    assert(kinds_of(fs) =~= propose_schema());
    assert(t.transactions.len() <= usize::MAX);
}

impl Propose {
    /// Reads a proposal from its canonical bytes. Gives the value whose
    /// bytes these are, and nothing if they are the bytes of no such value.
    pub fn decode(data: &[u8]) -> (r: Option<Propose>)
        ensures
            r is Some ==> r->0.encoding() == data@,
            r is None ==> forall|t: Propose| #[trigger] t.encoding() != data@,
    {
        let schema = [
            Kind::U32,
            Kind::U64,
            Kind::U32,
            Kind::I64,
            Kind::I32,
            Kind::Key,
            Kind::Hashes,
        ];
        assert(schema@ =~= propose_schema());
        match parse_message(KIND_PROPOSE, schema.as_slice(), data) {
            None => {
                proof {
                    assert forall|t: Propose| #[trigger] t.encoding() != data@ by {
                        lemma_propose_fields(t);
                        let body = enc_fields(propose_fields(t));
                        assert(payload_of(KIND_PROPOSE, body) + t.signature@ != data@);
                    }
                }
                None
            },
            Some((mut fs, signature)) => {
                let ghost found = field_views(fs@);
                proof {
                    assert(kinds_of(found).len() == 7);
                    assert(kinds_of(found)[0] == Kind::U32);
                    assert(kinds_of(found)[1] == Kind::U64);
                    assert(kinds_of(found)[2] == Kind::U32);
                    assert(kinds_of(found)[3] == Kind::I64);
                    assert(kinds_of(found)[4] == Kind::I32);
                    assert(kinds_of(found)[5] == Kind::Key);
                    assert(kinds_of(found)[6] == Kind::Hashes);
                }
                let transactions = take_hashes(&mut fs);
                let prev_hash = take_key(&mut fs);
                let nsec = take_i32(&mut fs);
                let sec = take_i64(&mut fs);
                let round = take_u32(&mut fs);
                let height = take_u64(&mut fs);
                let validator = take_u32(&mut fs);
                let out = Propose {
                    validator,
                    height,
                    round,
                    time: Timespec { sec, nsec },
                    prev_hash: crypto::Hash { bytes: prev_hash },
                    transactions,
                    signature,
                };
                proof {
                    assert(propose_fields(out) =~= found);
                    lemma_propose_fields(out);
                }
                Some(out)
            },
        }
    }
}

/// Two proposals with the same bytes have the same fields and signature.
pub proof fn lemma_propose_injective(a: Propose, b: Propose)
    requires
        a.encoding() == b.encoding(),
    ensures
        propose_fields(a) == propose_fields(b),
        a.signature == b.signature,
{
    lemma_propose_fields(a);
    lemma_propose_fields(b);
    let body_a = enc_fields(propose_fields(a));
    let body_b = enc_fields(propose_fields(b));
    lemma_message_injective(
        KIND_PROPOSE,
        body_a,
        a.signature,
        KIND_PROPOSE,
        body_b,
        b.signature,
    );
    lemma_fields_injective(propose_fields(a), propose_fields(b));
}

/// The fields of the body of a prevote.
pub open spec fn prevote_fields(t: Prevote) -> Seq<FieldView> {
    seq![
        FieldView::U32(t.validator),
        FieldView::U64(t.height),
        FieldView::U32(t.round),
        FieldView::Key(t.block_hash@),
    ]
}

/// The kinds of the fields of the body of a prevote.
pub open spec fn prevote_schema() -> Seq<Kind> {
    seq![
        Kind::U32,
        Kind::U64,
        Kind::U32,
        Kind::Key,
    ]
}

/// The signed part of a prevote is its fields in a message frame, and
/// every such value can be written.
pub proof fn lemma_prevote_fields(t: Prevote)
    ensures
        t.payload() == payload_of(KIND_PREVOTE, enc_fields(prevote_fields(t))),
        kinds_of(prevote_fields(t)) == prevote_schema(),
        fields_ok(prevote_fields(t)),
{
    let fs = prevote_fields(t);
    let p0 = Seq::<FieldView>::empty();
    let p1 = p0.push(fs[0]);
    let p2 = p1.push(fs[1]);
    let p3 = p2.push(fs[2]);
    let p4 = p3.push(fs[3]);
    assert(fs =~= p4);
    lemma_enc_fields_push(p0, fs[0]);
    lemma_enc_fields_push(p1, fs[1]);
    lemma_enc_fields_push(p2, fs[2]);
    lemma_enc_fields_push(p3, fs[3]);
    assert(enc_fields(fs) =~= enc_u32(t.validator)
            + enc_u64(t.height)
            + enc_u32(t.round)
            + t.block_hash@);
    assert(kinds_of(fs) =~= prevote_schema());
}

impl Prevote {
    /// Reads a prevote from its canonical bytes. Gives the value whose
    /// bytes these are, and nothing if they are the bytes of no such value.
    pub fn decode(data: &[u8]) -> (r: Option<Prevote>)
        ensures
            r is Some ==> r->0.encoding() == data@,
            r is None ==> forall|t: Prevote| #[trigger] t.encoding() != data@,
    {
        let schema = [
            Kind::U32,
            Kind::U64,
            Kind::U32,
            Kind::Key,
        ];
        assert(schema@ =~= prevote_schema());
        match parse_message(KIND_PREVOTE, schema.as_slice(), data) {
            None => {
                proof {
                    assert forall|t: Prevote| #[trigger] t.encoding() != data@ by {
                        lemma_prevote_fields(t);
                        let body = enc_fields(prevote_fields(t));
                        assert(payload_of(KIND_PREVOTE, body) + t.signature@ != data@);
                    }
                }
                None
            },
            Some((mut fs, signature)) => {
                let ghost found = field_views(fs@);
                proof {
                    assert(kinds_of(found).len() == 4);
                    assert(kinds_of(found)[0] == Kind::U32);
                    assert(kinds_of(found)[1] == Kind::U64);
                    assert(kinds_of(found)[2] == Kind::U32);
                    assert(kinds_of(found)[3] == Kind::Key);
                }
                let block_hash = take_key(&mut fs);
                let round = take_u32(&mut fs);
                let height = take_u64(&mut fs);
                let validator = take_u32(&mut fs);
                let out = Prevote {
                    validator,
                    height,
                    round,
                    block_hash: crypto::Hash { bytes: block_hash },
                    signature,
                };
                proof {
                    assert(prevote_fields(out) =~= found);
                    lemma_prevote_fields(out);
                }
                Some(out)
            },
        }
    }
}

/// Two prevotes with the same bytes have the same fields and signature.
pub proof fn lemma_prevote_injective(a: Prevote, b: Prevote)
    requires
        a.encoding() == b.encoding(),
    ensures
        prevote_fields(a) == prevote_fields(b),
        a.signature == b.signature,
{
    lemma_prevote_fields(a);
    lemma_prevote_fields(b);
    let body_a = enc_fields(prevote_fields(a));
    let body_b = enc_fields(prevote_fields(b));
    lemma_message_injective(
        KIND_PREVOTE,
        body_a,
        a.signature,
        KIND_PREVOTE,
        body_b,
        b.signature,
    );
    lemma_fields_injective(prevote_fields(a), prevote_fields(b));
}

/// The fields of the body of a precommit.
pub open spec fn precommit_fields(t: Precommit) -> Seq<FieldView> {
    seq![
        FieldView::U32(t.validator),
        FieldView::U64(t.height),
        FieldView::U32(t.round),
        FieldView::Key(t.block_hash@),
        FieldView::Key(t.state_hash@),
    ]
}

/// The kinds of the fields of the body of a precommit.
pub open spec fn precommit_schema() -> Seq<Kind> {
    seq![
        Kind::U32,
        Kind::U64,
        Kind::U32,
        Kind::Key,
        Kind::Key,
    ]
}

/// The signed part of a precommit is its fields in a message frame, and
/// every such value can be written.
pub proof fn lemma_precommit_fields(t: Precommit)
    ensures
        t.payload() == payload_of(KIND_PRECOMMIT, enc_fields(precommit_fields(t))),
        kinds_of(precommit_fields(t)) == precommit_schema(),
        fields_ok(precommit_fields(t)),
{
    let fs = precommit_fields(t);
    let p0 = Seq::<FieldView>::empty();
    let p1 = p0.push(fs[0]);
    let p2 = p1.push(fs[1]);
    let p3 = p2.push(fs[2]);
    let p4 = p3.push(fs[3]);
    let p5 = p4.push(fs[4]);
    assert(fs =~= p5);
    lemma_enc_fields_push(p0, fs[0]);
    lemma_enc_fields_push(p1, fs[1]);
    lemma_enc_fields_push(p2, fs[2]);
    lemma_enc_fields_push(p3, fs[3]);
    lemma_enc_fields_push(p4, fs[4]);
    assert(enc_fields(fs) =~= enc_u32(t.validator)
            + enc_u64(t.height)
            + enc_u32(t.round)
            + t.block_hash@
            + t.state_hash@);
    assert(kinds_of(fs) =~= precommit_schema());
}

impl Precommit {
    /// Reads a precommit from its canonical bytes. Gives the value whose
    /// bytes these are, and nothing if they are the bytes of no such value.
    pub fn decode(data: &[u8]) -> (r: Option<Precommit>)
        ensures
            r is Some ==> r->0.encoding() == data@,
            r is None ==> forall|t: Precommit| #[trigger] t.encoding() != data@,
    {
        let schema = [
            Kind::U32,
            Kind::U64,
            Kind::U32,
            Kind::Key,
            Kind::Key,
        ];
        assert(schema@ =~= precommit_schema());
        match parse_message(KIND_PRECOMMIT, schema.as_slice(), data) {
            None => {
                proof {
                    assert forall|t: Precommit| #[trigger] t.encoding() != data@ by {
                        lemma_precommit_fields(t);
                        let body = enc_fields(precommit_fields(t));
                        assert(payload_of(KIND_PRECOMMIT, body) + t.signature@ != data@);
                    }
                }
                None
            },
            Some((mut fs, signature)) => {
                let ghost found = field_views(fs@);
                proof {
                    assert(kinds_of(found).len() == 5);
                    assert(kinds_of(found)[0] == Kind::U32);
                    assert(kinds_of(found)[1] == Kind::U64);
                    assert(kinds_of(found)[2] == Kind::U32);
                    assert(kinds_of(found)[3] == Kind::Key);
                    assert(kinds_of(found)[4] == Kind::Key);
                }
                let state_hash = take_key(&mut fs);
                let block_hash = take_key(&mut fs);
                let round = take_u32(&mut fs);
                let height = take_u64(&mut fs);
                let validator = take_u32(&mut fs);
                let out = Precommit {
                    validator,
                    height,
                    round,
                    block_hash: crypto::Hash { bytes: block_hash },
                    state_hash: crypto::Hash { bytes: state_hash },
                    signature,
                };
                proof {
                    assert(precommit_fields(out) =~= found);
                    lemma_precommit_fields(out);
                }
                Some(out)
            },
        }
    }
}

/// Two precommits with the same bytes have the same fields and signature.
pub proof fn lemma_precommit_injective(a: Precommit, b: Precommit)
    requires
        a.encoding() == b.encoding(),
    ensures
        precommit_fields(a) == precommit_fields(b),
        a.signature == b.signature,
{
    lemma_precommit_fields(a);
    lemma_precommit_fields(b);
    let body_a = enc_fields(precommit_fields(a));
    let body_b = enc_fields(precommit_fields(b));
    lemma_message_injective(
        KIND_PRECOMMIT,
        body_a,
        a.signature,
        KIND_PRECOMMIT,
        body_b,
        b.signature,
    );
    lemma_fields_injective(precommit_fields(a), precommit_fields(b));
}

/// The fields of the body of a commit notice.
pub open spec fn commit_fields(t: Commit) -> Seq<FieldView> {
    seq![
        FieldView::U32(t.validator),
        FieldView::U64(t.height),
        FieldView::U32(t.round),
        FieldView::Key(t.block_hash@),
    ]
}

/// The kinds of the fields of the body of a commit notice.
pub open spec fn commit_schema() -> Seq<Kind> {
    seq![
        Kind::U32,
        Kind::U64,
        Kind::U32,
        Kind::Key,
    ]
}

/// The signed part of a commit notice is its fields in a message frame, and
/// every such value can be written.
pub proof fn lemma_commit_fields(t: Commit)
    ensures
        t.payload() == payload_of(KIND_COMMIT, enc_fields(commit_fields(t))),
        kinds_of(commit_fields(t)) == commit_schema(),
        fields_ok(commit_fields(t)),
{
    let fs = commit_fields(t);
    let p0 = Seq::<FieldView>::empty();
    let p1 = p0.push(fs[0]);
    let p2 = p1.push(fs[1]);
    let p3 = p2.push(fs[2]);
    let p4 = p3.push(fs[3]);
    assert(fs =~= p4);
    lemma_enc_fields_push(p0, fs[0]);
    lemma_enc_fields_push(p1, fs[1]);
    lemma_enc_fields_push(p2, fs[2]);
    lemma_enc_fields_push(p3, fs[3]);
    assert(enc_fields(fs) =~= enc_u32(t.validator)
            + enc_u64(t.height)
            + enc_u32(t.round)
            + t.block_hash@);
    assert(kinds_of(fs) =~= commit_schema());
}

impl Commit {
    /// Reads a commit notice from its canonical bytes. Gives the value whose
    /// bytes these are, and nothing if they are the bytes of no such value.
    pub fn decode(data: &[u8]) -> (r: Option<Commit>)
        ensures
            r is Some ==> r->0.encoding() == data@,
            r is None ==> forall|t: Commit| #[trigger] t.encoding() != data@,
    {
        let schema = [
            Kind::U32,
            Kind::U64,
            Kind::U32,
            Kind::Key,
        ];
        assert(schema@ =~= commit_schema());
        match parse_message(KIND_COMMIT, schema.as_slice(), data) {
            None => {
                proof {
                    assert forall|t: Commit| #[trigger] t.encoding() != data@ by {
                        lemma_commit_fields(t);
                        let body = enc_fields(commit_fields(t));
                        assert(payload_of(KIND_COMMIT, body) + t.signature@ != data@);
                    }
                }
                None
            },
            Some((mut fs, signature)) => {
                let ghost found = field_views(fs@);
                proof {
                    assert(kinds_of(found).len() == 4);
                    assert(kinds_of(found)[0] == Kind::U32);
                    assert(kinds_of(found)[1] == Kind::U64);
                    assert(kinds_of(found)[2] == Kind::U32);
                    assert(kinds_of(found)[3] == Kind::Key);
                }
                let block_hash = take_key(&mut fs);
                let round = take_u32(&mut fs);
                let height = take_u64(&mut fs);
                let validator = take_u32(&mut fs);
                let out = Commit {
                    validator,
                    height,
                    round,
                    block_hash: crypto::Hash { bytes: block_hash },
                    signature,
                };
                proof {
                    assert(commit_fields(out) =~= found);
                    lemma_commit_fields(out);
                }
                Some(out)
            },
        }
    }
}

/// Two commit notices with the same bytes have the same fields and signature.
pub proof fn lemma_commit_injective(a: Commit, b: Commit)
    requires
        a.encoding() == b.encoding(),
    ensures
        commit_fields(a) == commit_fields(b),
        a.signature == b.signature,
{
    lemma_commit_fields(a);
    lemma_commit_fields(b);
    let body_a = enc_fields(commit_fields(a));
    let body_b = enc_fields(commit_fields(b));
    lemma_message_injective(
        KIND_COMMIT,
        body_a,
        a.signature,
        KIND_COMMIT,
        body_b,
        b.signature,
    );
    lemma_fields_injective(commit_fields(a), commit_fields(b));
}

impl DigitalRightsTx {
    /// The kind byte of the transaction.
    pub open spec fn kind(&self) -> u8 {
        match self {
            DigitalRightsTx::CreateOwner(_) => KIND_CREATE_OWNER,
            DigitalRightsTx::CreateDistributor(_) => KIND_CREATE_DISTRIBUTOR,
            DigitalRightsTx::AddContent(_) => KIND_ADD_CONTENT,
            DigitalRightsTx::AddContract(_) => KIND_ADD_CONTRACT,
            DigitalRightsTx::Report(_) => KIND_REPORT,
        }
    }

    /// The canonical bytes of a transaction start with the version and the kind.
    pub proof fn lemma_starts_with_kind(&self)
        ensures
            self.encoding().len() >= 2,
            self.encoding()[0] == MESSAGE_VERSION,
            self.encoding()[1] == self.kind(),
    {
    }

    /// Reads a transaction from its canonical bytes. Gives the transaction
    /// whose bytes these are, and nothing if they are the bytes of no
    /// transaction.
    pub fn decode(data: &[u8]) -> (r: Option<DigitalRightsTx>)
        ensures
            r is Some ==> r->0.encoding() == data@,
            r is None ==> forall|t: DigitalRightsTx| #[trigger] t.encoding() != data@,
    {
        if data.len() < 2 {
            proof {
                assert forall|t: DigitalRightsTx| #[trigger] t.encoding() != data@ by {
                    t.lemma_starts_with_kind();
                }
            }
            return None;
        }
        let kind = data[1];
        let r = if kind == KIND_CREATE_OWNER {
            match TxCreateOwner::decode(data) {
                Some(tx) => Some(DigitalRightsTx::CreateOwner(tx)),
                None => None,
            }
        } else if kind == KIND_CREATE_DISTRIBUTOR {
            match TxCreateDistributor::decode(data) {
                Some(tx) => Some(DigitalRightsTx::CreateDistributor(tx)),
                None => None,
            }
        } else if kind == KIND_ADD_CONTENT {
            match TxAddContent::decode(data) {
                Some(tx) => Some(DigitalRightsTx::AddContent(tx)),
                None => None,
            }
        } else if kind == KIND_ADD_CONTRACT {
            match TxAddContract::decode(data) {
                Some(tx) => Some(DigitalRightsTx::AddContract(tx)),
                None => None,
            }
        } else if kind == KIND_REPORT {
            match TxReport::decode(data) {
                Some(tx) => Some(DigitalRightsTx::Report(tx)),
                None => None,
            }
        } else {
            None
        };
        proof {
            if r is None {
                assert forall|t: DigitalRightsTx| #[trigger] t.encoding() != data@ by {
                    t.lemma_starts_with_kind();
                    match t {
                        DigitalRightsTx::CreateOwner(x) => {
                            assert(x.encoding() == t.encoding());
                        },
                        DigitalRightsTx::CreateDistributor(x) => {
                            assert(x.encoding() == t.encoding());
                        },
                        DigitalRightsTx::AddContent(x) => {
                            assert(x.encoding() == t.encoding());
                        },
                        DigitalRightsTx::AddContract(x) => {
                            assert(x.encoding() == t.encoding());
                        },
                        DigitalRightsTx::Report(x) => {
                            assert(x.encoding() == t.encoding());
                        },
                    }
                }
            }
        }
        r
    }
}

impl ConsensusMessage {
    /// The kind byte of the message.
    pub open spec fn kind(&self) -> u8 {
        match self {
            ConsensusMessage::Propose(_) => KIND_PROPOSE,
            ConsensusMessage::Prevote(_) => KIND_PREVOTE,
            ConsensusMessage::Precommit(_) => KIND_PRECOMMIT,
            ConsensusMessage::Commit(_) => KIND_COMMIT,
        }
    }

    /// The canonical byte form: the signed part, then the signature.
    pub open spec fn encoding(&self) -> Seq<u8> {
        self.payload() + self.signed_with()@
    }

    /// The canonical bytes of a message start with the version and the kind.
    pub proof fn lemma_starts_with_kind(&self)
        ensures
            self.encoding().len() >= 2,
            self.encoding()[0] == MESSAGE_VERSION,
            self.encoding()[1] == self.kind(),
    {
    }

    /// Writes the canonical byte form.
    pub fn to_bytes(&self) -> (out: Vec<u8>)
        ensures
            out@ == self.encoding(),
    {
        match self {
            ConsensusMessage::Propose(m) => m.to_bytes(),
            ConsensusMessage::Prevote(m) => m.to_bytes(),
            ConsensusMessage::Precommit(m) => m.to_bytes(),
            ConsensusMessage::Commit(m) => m.to_bytes(),
        }
    }

    /// Reads a message from its canonical bytes. Gives the message whose
    /// bytes these are, and nothing if they are the bytes of no message.
    pub fn decode(data: &[u8]) -> (r: Option<ConsensusMessage>)
        ensures
            r is Some ==> r->0.encoding() == data@,
            r is None ==> forall|t: ConsensusMessage| #[trigger] t.encoding() != data@,
    {
        if data.len() < 2 {
            proof {
                assert forall|t: ConsensusMessage| #[trigger] t.encoding() != data@ by {
                    t.lemma_starts_with_kind();
                }
            }
            return None;
        }
        let kind = data[1];
        let r = if kind == KIND_PROPOSE {
            match Propose::decode(data) {
                Some(m) => Some(ConsensusMessage::Propose(m)),
                None => None,
            }
        } else if kind == KIND_PREVOTE {
            match Prevote::decode(data) {
                Some(m) => Some(ConsensusMessage::Prevote(m)),
                None => None,
            }
        } else if kind == KIND_PRECOMMIT {
            match Precommit::decode(data) {
                Some(m) => Some(ConsensusMessage::Precommit(m)),
                None => None,
            }
        } else if kind == KIND_COMMIT {
            match Commit::decode(data) {
                Some(m) => Some(ConsensusMessage::Commit(m)),
                None => None,
            }
        } else {
            None
        };
        proof {
            if r is None {
                assert forall|t: ConsensusMessage| #[trigger] t.encoding() != data@ by {
                    t.lemma_starts_with_kind();
                    match t {
                        ConsensusMessage::Propose(x) => {
                            assert(x.encoding() == t.encoding());
                        },
                        ConsensusMessage::Prevote(x) => {
                            assert(x.encoding() == t.encoding());
                        },
                        ConsensusMessage::Precommit(x) => {
                            assert(x.encoding() == t.encoding());
                        },
                        ConsensusMessage::Commit(x) => {
                            assert(x.encoding() == t.encoding());
                        },
                    }
                }
            }
        }
        r
    }
}

} // verus!
