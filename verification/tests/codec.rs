use digital_rights::codec;
use digital_rights::crypto;
use digital_rights::crypto::{PublicKey, SecretKey, Signature};
use digital_rights::merkle;
use digital_rights::messages::{
    now, Commit, ConsensusMessage, Precommit, Prevote, Propose, Timespec,
};
use digital_rights::records::{
    Content, ContentShare, Contract, Distributor, Owner, Ownership, Participant, Report, Role,
};
use digital_rights::storage::{MerkleList, MerkleMap, Record};
use digital_rights::txs::{
    DigitalRightsTx, TxAddContent, TxAddContract, TxCreateDistributor, TxCreateOwner, TxReport,
};
use digital_rights::wire;
use digital_rights::wire::{Field, Kind};

fn hex(s: &str) -> Vec<u8> {
    let digits: Vec<u8> = s.bytes().map(|c| (c as char).to_digit(16).unwrap() as u8).collect();
    digits.chunks(2).map(|p| p[0] * 16 + p[1]).collect()
}

fn secret(seed: u8) -> SecretKey {
    SecretKey::new([seed; 32])
}

#[test]
fn sha256_known_answers() {
    assert_eq!(
        crypto::hash(&[]).bytes.to_vec(),
        hex("e3b0c44298fc1c149afbf4c8996fb92427ae41e4649b934ca495991b7852b855")
    );
    assert_eq!(
        crypto::hash("abc".as_bytes()).bytes.to_vec(),
        hex("ba7816bf8f01cfea414140de5dae2223b00361a396177a9cb410ff61f20015ad")
    );
}

#[test]
fn ed25519_known_answers() {
    let mut seed = [0u8; 32];
    seed.copy_from_slice(&hex(
        "9d61b19deffd5a60ba844af492ec2cc44449c5697b326919703bac031cae7f60",
    ));
    let secret = SecretKey::new(seed);
    let public = secret.public_key();
    assert_eq!(
        public.bytes.to_vec(),
        hex("d75a980182b10ab7d54bfed3c964073a0ee172f3daa62325af021a68f707511a")
    );
    let signature = crypto::sign(&secret, &[]);
    assert_eq!(
        signature.bytes.to_vec(),
        hex(
            "e5564300c360ac729086e2cc806e828a84877f1eb8e5d974d873e065224901555fb8821590a33bacc61e39701cf9b46bd25bf5f0595bbe24655141438e7a100b"
        )
    );
    assert!(crypto::verify(&public, &[], &signature));
    assert!(!crypto::verify(&public, &[1], &signature));
    let mut forged = signature;
    forged.bytes[0] ^= 1;
    assert!(!crypto::verify(&public, &[], &forged));
    // a key that is no curve point verifies nothing
    let bad_key = PublicKey::new([0xff; 32]);
    assert!(!crypto::verify(&bad_key, &[], &Signature::new([0; 64])));
}

#[test]
fn hashes_compare_by_bytes() {
    let a = crypto::Hash::new([1; 32]);
    let mut b = crypto::Hash::new([1; 32]);
    assert!(a.same(&b));
    assert!(!a.less(&b));
    b.bytes[31] = 2;
    assert!(!a.same(&b));
    assert!(a.less(&b));
    assert!(!b.less(&a));
    let mut c = crypto::Hash::new([1; 32]);
    c.bytes[0] = 0;
    assert!(c.less(&a));
}

#[test]
fn integers_are_written_little_endian() {
    let mut buf = Vec::new();
    codec::put_u8(&mut buf, 7);
    codec::put_u16(&mut buf, 0x0102);
    codec::put_u32(&mut buf, 0x0304_0506);
    codec::put_u64(&mut buf, 0x0708_090a_0b0c_0d0e);
    codec::put_i32(&mut buf, -2);
    codec::put_i64(&mut buf, -3);
    assert_eq!(
        buf,
        vec![
            7, 2, 1, 6, 5, 4, 3, 0x0e, 0x0d, 0x0c, 0x0b, 0x0a, 9, 8, 7, 0xfe, 0xff, 0xff, 0xff,
            0xfd, 0xff, 0xff, 0xff, 0xff, 0xff, 0xff, 0xff
        ]
    );
    assert_eq!(codec::get_u16(&buf, 1), 0x0102);
    assert_eq!(codec::get_u32(&buf, 3), 0x0304_0506);
    assert_eq!(codec::get_u64(&buf, 7), 0x0708_090a_0b0c_0d0e);
    assert_eq!(codec::get_i32(&buf, 15), -2);
    assert_eq!(codec::get_i64(&buf, 19), -3);
}

#[test]
fn byte_strings_carry_their_length() {
    let mut buf = vec![9];
    codec::put_bytes(&mut buf, &[1, 2, 3]);
    assert_eq!(buf, vec![9, 3, 0, 0, 0, 0, 0, 0, 0, 1, 2, 3]);
    assert_eq!(codec::get_bytes(&buf, 9, 3), vec![1, 2, 3]);
}

#[test]
fn clock_gives_nanoseconds_within_a_second() {
    let t = now();
    assert!(t.nsec >= 0 && t.nsec < 1_000_000_000);
    assert!(t.sec > 1_000_000_000);
}

#[test]
fn merkle_root_of_few_leaves() {
    let empty = crypto::hash(&[]);
    assert_eq!(merkle::root_of(Vec::new()), empty);
    let a = crypto::hash(&[1]);
    let b = crypto::hash(&[2]);
    let c = crypto::hash(&[3]);
    assert_eq!(merkle::root_of(vec![a]), a);
    let mut ab = a.bytes.to_vec();
    ab.extend_from_slice(&b.bytes);
    let h_ab = crypto::hash(&ab);
    assert_eq!(merkle::root_of(vec![a, b]), h_ab);
    // a node without a neighbour is hashed alone
    let h_c = crypto::hash(&c.bytes);
    let mut top = h_ab.bytes.to_vec();
    top.extend_from_slice(&h_c.bytes);
    assert_eq!(merkle::root_of(vec![a, b, c]), crypto::hash(&top));
}

#[test]
fn list_root_is_over_the_digests_of_the_encodings() {
    let mut list: MerkleList<Participant> = MerkleList::new();
    assert_eq!(list.root_hash(), crypto::hash(&[]));
    let p = Participant { role: Role::Distributor, id: 5 };
    assert_eq!(p.encode(), vec![3, 0, 0, 0, 0, 0, 0, 0, 1, 5, 0]);
    list.append(p);
    assert_eq!(list.root_hash(), crypto::hash(&p.encode()));
    assert_eq!(list.len(), 1);
    assert!(list.get(1).is_none());
    assert!(!list.set(1, p));
    assert!(list.set(0, Participant { role: Role::Owner, id: 6 }));
    assert_eq!(list.get(0).unwrap().id, 6);
}

#[test]
fn map_root_does_not_depend_on_the_order_of_puts() {
    let keys: Vec<crypto::Hash> = (0u8..20).map(|i| crypto::hash(&[i])).collect();
    let mut forward: MerkleMap<Participant> = MerkleMap::new();
    let mut backward: MerkleMap<Participant> = MerkleMap::new();
    for (i, k) in keys.iter().enumerate() {
        forward.put(*k, Participant { role: Role::Owner, id: i as u16 });
    }
    for (i, k) in keys.iter().enumerate().rev() {
        backward.put(*k, Participant { role: Role::Distributor, id: 99 });
        backward.put(*k, Participant { role: Role::Owner, id: i as u16 });
    }
    assert_eq!(forward.len(), 20);
    assert_eq!(backward.len(), 20);
    assert_eq!(forward.root_hash(), backward.root_hash());
    for (i, k) in keys.iter().enumerate() {
        assert!(forward.contains_key(k));
        assert_eq!(backward.get(k).unwrap().id, i as u16);
    }
    assert!(!forward.contains_key(&crypto::hash(&[200])));
    assert!(forward.get(&crypto::hash(&[200])).is_none());
    backward.put(keys[3], Participant { role: Role::Owner, id: 1000 });
    assert!(forward.root_hash() != backward.root_hash());
    let copy = forward.duplicate();
    assert_eq!(copy.root_hash(), forward.root_hash());
    let empty: MerkleMap<Participant> = MerkleMap::new();
    assert_eq!(empty.root_hash(), crypto::hash(&[]));
}

#[test]
fn map_root_of_one_entry() {
    let mut map: MerkleMap<Participant> = MerkleMap::new();
    let key = crypto::hash(&[1]);
    let value = Participant { role: Role::Owner, id: 2 };
    map.put(key, value);
    let mut leaf = key.bytes.to_vec();
    leaf.extend_from_slice(&crypto::hash(&value.encode()).bytes);
    assert_eq!(map.root_hash(), crypto::hash(&leaf));
}

#[test]
fn fields_are_read_back() {
    let schema = [Kind::U8, Kind::U16, Kind::Text, Kind::Ids, Kind::Shares, Kind::Hashes];
    let mut data = Vec::new();
    codec::put_u8(&mut data, 1);
    codec::put_u16(&mut data, 2);
    codec::put_bytes(&mut data, &[3, 4]);
    codec::put_u64(&mut data, 2);
    codec::put_u16(&mut data, 5);
    codec::put_u16(&mut data, 6);
    codec::put_u64(&mut data, 1);
    codec::put_u16(&mut data, 7);
    codec::put_u16(&mut data, 8);
    codec::put_u64(&mut data, 1);
    codec::put_raw(&mut data, &[9; 32]);
    let fields = wire::parse_fields(&schema, &data).unwrap();
    assert!(matches!(fields[0], Field::U8(1)));
    assert!(matches!(fields[1], Field::U16(2)));
    assert!(matches!(&fields[2], Field::Text(t) if t == &vec![3, 4]));
    assert!(matches!(&fields[3], Field::Ids(t) if t == &vec![5, 6]));
    assert!(matches!(&fields[4], Field::Shares(t) if t == &vec![ContentShare::new(7, 8)]));
    assert!(matches!(&fields[5], Field::Hashes(t) if t == &vec![crypto::Hash::new([9; 32])]));
    // one byte too many, one byte too few
    let mut longer = data.clone();
    longer.push(0);
    assert!(wire::parse_fields(&schema, &longer).is_none());
    assert!(wire::parse_fields(&schema, &data[..data.len() - 1]).is_none());
    // a length that promises more than is there
    let mut lying = Vec::new();
    codec::put_u64(&mut lying, u64::MAX);
    assert!(wire::parse_fields(&[Kind::Text], &lying).is_none());
    assert!(wire::parse_fields(&[Kind::Hashes], &lying).is_none());
}

#[test]
fn records_are_read_back() {
    let key = secret(1).public_key();
    let h1 = crypto::hash(&[1]);
    let h2 = crypto::hash(&[2]);

    let owner = Owner::new(&key, "o1".as_bytes(), &h1);
    let bytes = owner.encode();
    let back = Owner::decode(&bytes).unwrap();
    assert_eq!(back.pub_key(), &key);
    assert_eq!(back.name().as_slice(), "o1".as_bytes());
    assert_eq!(back.ownership_hash(), &h1);
    assert_eq!(back.encode(), bytes);
    assert!(Owner::decode(&bytes[1..]).is_none());

    let distributor = Distributor::new(&key, "d1".as_bytes(), &h2);
    let bytes = distributor.encode();
    let back = Distributor::decode(&bytes).unwrap();
    assert_eq!(back.contracts_hash(), &h2);
    assert_eq!(back.encode(), bytes);

    let content = Content {
        title: "Manowar".as_bytes().to_vec(),
        price_per_listen: 1,
        min_plays: 10,
        additional_conditions: "None".as_bytes().to_vec(),
        shares: vec![ContentShare::new(0, 30), ContentShare::new(1, 70)],
        distributors: vec![0, 3],
    };
    let bytes = content.encode();
    let back = Content::decode(&bytes).unwrap();
    assert_eq!(back.title(), &content.title);
    assert_eq!(back.price_per_listen(), 1);
    assert_eq!(back.min_plays(), 10);
    assert_eq!(back.additional_conditions(), &content.additional_conditions);
    assert_eq!(back.shares(), &content.shares);
    assert_eq!(back.distributors(), &content.distributors);
    assert_eq!(back.encode(), bytes);

    let ownership = Ownership::new(&h1, 3, 4, &h2);
    let bytes = ownership.encode();
    assert_eq!(Ownership::decode(&bytes).unwrap(), ownership);
    let contract = Contract::new(&h1, 5, 6, &h2);
    let bytes = contract.encode();
    assert_eq!(Contract::decode(&bytes).unwrap(), contract);

    let report = Report {
        distributor_id: 2,
        fingerprint: h1,
        uuid: h2,
        time: 7,
        plays: 8,
        amount: 9,
        comment: "ok".as_bytes().to_vec(),
    };
    let bytes = report.encode();
    let back = Report::decode(&bytes).unwrap();
    assert_eq!(back.distributor_id, 2);
    assert_eq!(back.uuid, h2);
    assert_eq!(back.comment, report.comment);
    assert_eq!(back.encode(), bytes);

    let entry = Participant { role: Role::Distributor, id: 9 };
    assert_eq!(Participant::decode(&entry.encode()).unwrap(), entry);
    // a role tag that stands for no role
    assert!(Participant::decode(&[3, 0, 0, 0, 0, 0, 0, 0, 2, 9, 0]).is_none());

    let bytes = h1.encode();
    assert_eq!(crypto::Hash::decode(&bytes).unwrap(), h1);
    assert!(crypto::Hash::decode(&bytes[..bytes.len() - 1]).is_none());
}

fn sample_txs() -> Vec<DigitalRightsTx> {
    let s = secret(1);
    let p = s.public_key();
    let f = crypto::hash(&[1, 2, 3, 4]);
    vec![
        DigitalRightsTx::CreateOwner(TxCreateOwner::new(&p, "o1", &s)),
        DigitalRightsTx::CreateDistributor(TxCreateDistributor::new(&p, "d1", &s)),
        DigitalRightsTx::AddContent(TxAddContent::new(
            &p,
            &f,
            "Manowar",
            1,
            10,
            &[ContentShare::new(0, 30), ContentShare::new(1, 70)],
            "None",
            &s,
        )),
        DigitalRightsTx::AddContract(TxAddContract::new(&p, 1, &f, &s)),
        DigitalRightsTx::Report(TxReport::new(
            &p,
            &crypto::hash(&[5]),
            1,
            &f,
            100,
            3,
            1000,
            "june",
            &s,
        )),
    ]
}

#[test]
fn transactions_are_read_back() {
    for tx in sample_txs() {
        let bytes = tx.to_bytes();
        let back = DigitalRightsTx::decode(&bytes).unwrap();
        assert_eq!(back.to_bytes(), bytes);
        assert_eq!(back.hash(), tx.hash());
        assert_eq!(back.hash(), crypto::hash(&bytes));
        assert!(back.verify(back.pub_key()));
        // a changed version, an unknown kind, a missing byte
        let mut other_version = bytes.clone();
        other_version[0] = 2;
        assert!(DigitalRightsTx::decode(&other_version).is_none());
        let mut other_kind = bytes.clone();
        other_kind[1] = 200;
        assert!(DigitalRightsTx::decode(&other_kind).is_none());
        assert!(DigitalRightsTx::decode(&bytes[..bytes.len() - 1]).is_none());
    }
    assert!(DigitalRightsTx::decode(&[]).is_none());
    assert!(DigitalRightsTx::decode(&[1]).is_none());
}

#[test]
fn transaction_frame_layout() {
    let s = secret(1);
    let p = s.public_key();
    let tx = TxCreateOwner::new(&p, "o1", &s);
    let payload = tx.payload_bytes();
    let mut expected = vec![1, 0, 42, 0, 0, 0, 0, 0, 0, 0];
    expected.extend_from_slice(&p.bytes);
    expected.extend_from_slice(&[2, 0, 0, 0, 0, 0, 0, 0]);
    expected.extend_from_slice("o1".as_bytes());
    assert_eq!(payload, expected);
    assert_eq!(tx.signature, crypto::sign(&s, &payload));
    let whole = DigitalRightsTx::CreateOwner(tx).to_bytes();
    assert_eq!(whole.len(), expected.len() + 64);
}

#[test]
fn tampered_transaction_does_not_verify() {
    let s = secret(1);
    let p = s.public_key();
    let mut tx = TxCreateOwner::new(&p, "o1", &s);
    tx.name = "o2".as_bytes().to_vec();
    let tx = DigitalRightsTx::CreateOwner(tx);
    assert!(!tx.verify(tx.pub_key()));
    let other = secret(2).public_key();
    let good = DigitalRightsTx::CreateOwner(TxCreateOwner::new(&p, "o1", &s));
    assert!(good.verify(&p));
    assert!(!good.verify(&other));
}

#[test]
fn consensus_messages_are_read_back() {
    let s = secret(3);
    let block = crypto::hash(&[1]);
    let state = crypto::hash(&[2]);
    let messages = vec![
        ConsensusMessage::Propose(Propose::new(
            1,
            2,
            3,
            Timespec { sec: -5, nsec: 999_999_999 },
            &block,
            vec![crypto::hash(&[7]), crypto::hash(&[8])],
            &s,
        )),
        ConsensusMessage::Prevote(Prevote::new(1, 2, 3, &block, &s)),
        ConsensusMessage::Precommit(Precommit::new(1, 2, 3, &block, &state, &s)),
        ConsensusMessage::Commit(Commit::new(1, 2, 3, &block, &s)),
    ];
    for m in messages {
        let bytes = m.to_bytes();
        let back = ConsensusMessage::decode(&bytes).unwrap();
        assert_eq!(back.to_bytes(), bytes);
        assert_eq!(back.height(), 2);
        assert_eq!(back.round(), 3);
        assert_eq!(back.validator(), 1);
        assert!(back.verify(&s.public_key()));
        assert!(!back.verify(&secret(4).public_key()));
        assert!(ConsensusMessage::decode(&bytes[..bytes.len() - 1]).is_none());
    }
    let vote = Prevote::new(1, 2, 3, &block, &s);
    assert_eq!(Prevote::decode(&vote.to_bytes()).unwrap(), vote);
    assert!(Precommit::decode(&vote.to_bytes()).is_none());
    let back = Propose::decode(
        &Propose::new(1, 2, 3, Timespec { sec: -5, nsec: 7 }, &block, Vec::new(), &s).to_bytes(),
    )
    .unwrap();
    assert_eq!(back.time, Timespec { sec: -5, nsec: 7 });
    assert!(back.transactions.is_empty());
}
