use digital_rights::crypto;
use digital_rights::crypto::{PublicKey, SecretKey};
use digital_rights::records::{ContentShare, Role};
use digital_rights::rights;
use digital_rights::rights::DigitalRightsBlockchain;
use digital_rights::txs::{
    DigitalRightsTx, TxAddContent, TxAddContract, TxCreateDistributor, TxCreateOwner, TxReport,
};
use digital_rights::view::{DigitalRightsView, MemoryDB};

fn keypair(seed: u8) -> (PublicKey, SecretKey) {
    let secret = SecretKey::new([seed; 32]);
    (secret.public_key(), secret)
}

fn run(v: &mut DigitalRightsView, tx: DigitalRightsTx) {
    DigitalRightsBlockchain::execute(v, &tx)
}

fn create_owner(seed: u8, name: &str) -> DigitalRightsTx {
    let (p, s) = keypair(seed);
    DigitalRightsTx::CreateOwner(TxCreateOwner::new(&p, name, &s))
}

fn create_distributor(seed: u8, name: &str) -> DigitalRightsTx {
    let (p, s) = keypair(seed);
    DigitalRightsTx::CreateDistributor(TxCreateDistributor::new(&p, name, &s))
}

fn add_content(seed: u8, fingerprint: &crypto::Hash, shares: &[(u16, u16)]) -> DigitalRightsTx {
    let (p, s) = keypair(seed);
    let shares: Vec<ContentShare> = shares.iter().map(|(o, p)| ContentShare::new(*o, *p)).collect();
    DigitalRightsTx::AddContent(TxAddContent::new(&p, fingerprint, "Manowar", 1, 10, &shares, "None", &s))
}

fn add_contract(seed: u8, id: u16, fingerprint: &crypto::Hash) -> DigitalRightsTx {
    let (p, s) = keypair(seed);
    DigitalRightsTx::AddContract(TxAddContract::new(&p, id, fingerprint, &s))
}

fn report(seed: u8, uuid: u8, id: u16, fingerprint: &crypto::Hash, plays: u64, amount: u64) -> DigitalRightsTx {
    let (p, s) = keypair(seed);
    DigitalRightsTx::Report(TxReport::new(&p, &crypto::hash(&[uuid]), id, fingerprint, 5, plays, amount, "r", &s))
}

/// Two owners (keys 1 and 2), two distributors (keys 3 and 4), one content
/// split 30/70.
fn registry() -> (DigitalRightsView, crypto::Hash) {
    let mut v = DigitalRightsView::new();
    let f1 = crypto::hash(&[1, 2, 3, 4]);
    run(&mut v, create_owner(1, "o1"));
    run(&mut v, create_owner(2, "o2"));
    run(&mut v, create_distributor(3, "d1"));
    run(&mut v, create_distributor(4, "d2"));
    run(&mut v, add_content(1, &f1, &[(0, 30), (1, 70)]));
    (v, f1)
}

#[test]
fn empty_registry() {
    let v = DigitalRightsView::new();
    assert_eq!(v.owners().len(), 0);
    assert_eq!(v.distributors().len(), 0);
    assert_eq!(v.contents().len(), 0);
    assert_eq!(v.fingerprints().len(), 0);
    assert_eq!(v.owner_contents(0).len(), 0);
    assert_eq!(v.distributor_contracts(7).len(), 0);
}

#[test]
fn a_key_has_one_role() {
    let mut v = DigitalRightsView::new();
    run(&mut v, create_owner(1, "o1"));
    // the same key cannot become a distributor
    run(&mut v, create_distributor(1, "d1"));
    assert_eq!(v.owners().len(), 1);
    assert_eq!(v.distributors().len(), 0);
    run(&mut v, create_distributor(2, "d2"));
    run(&mut v, create_owner(2, "o2"));
    assert_eq!(v.owners().len(), 1);
    assert_eq!(v.distributors().len(), 1);
    let (p1, _) = keypair(1);
    let (p2, _) = keypair(2);
    let e1 = v.participants().get(&p1.as_key()).unwrap();
    assert_eq!((e1.role, e1.id), (Role::Owner, 0));
    let e2 = v.participants().get(&p2.as_key()).unwrap();
    assert_eq!((e2.role, e2.id), (Role::Distributor, 0));
}

#[test]
fn create_owner_twice_is_create_owner_once() {
    let mut once = DigitalRightsView::new();
    run(&mut once, create_owner(1, "o1"));
    let mut twice = DigitalRightsView::new();
    run(&mut twice, create_owner(1, "o1"));
    run(&mut twice, create_owner(1, "o1"));
    assert_eq!(twice.owners().len(), 1);
    assert_eq!(
        DigitalRightsBlockchain::state_hash(&once),
        DigitalRightsBlockchain::state_hash(&twice)
    );
    assert_eq!(once.participants().root_hash(), twice.participants().root_hash());
}

#[test]
fn add_content_twice_is_add_content_once() {
    let (mut v, f1) = registry();
    let before = DigitalRightsBlockchain::state_hash(&v);
    run(&mut v, add_content(1, &f1, &[(0, 30), (1, 70)]));
    // also with other shares: the fingerprint is taken
    run(&mut v, add_content(2, &f1, &[(0, 100)]));
    assert_eq!(DigitalRightsBlockchain::state_hash(&v), before);
    assert_eq!(v.fingerprints().len(), 1);
    assert_eq!(v.owner_contents(0).len(), 1);
    assert_eq!(v.owner_contents(1).len(), 1);
    assert_eq!(v.contents().get(&f1).unwrap().shares(), &vec![ContentShare::new(0, 30), ContentShare::new(1, 70)]);
}

#[test]
fn new_records_start_from_the_empty_root() {
    let (v, f1) = registry();
    let empty = crypto::hash(&[]);
    assert_eq!(v.distributors().get(0).unwrap().contracts_hash(), &empty);
    let stake = v.owner_contents(0).get(0).unwrap();
    assert_eq!(stake.fingerprint(), &f1);
    assert_eq!((stake.plays_total, stake.amount_paid), (0, 0));
    assert_eq!(stake.reports_hash, empty);
    assert!(v.owners().get(0).unwrap().ownership_hash() != &empty);
}

#[test]
fn shares_must_add_up_to_100() {
    let (mut v, _) = registry();
    let cases: Vec<Vec<(u16, u16)>> = vec![
        vec![],
        vec![(0, 99)],
        vec![(0, 101)],
        vec![(0, 50), (1, 49)],
        vec![(0, 65535), (1, 65535)],
        vec![(0, 100), (1, 65535)],
        vec![(2, 100)],
    ];
    for (i, shares) in cases.iter().enumerate() {
        let f = crypto::hash(&[100, i as u8]);
        run(&mut v, add_content(1, &f, shares));
        assert!(v.contents().get(&f).is_none());
    }
    assert!(!rights::check_shares(&v, &vec![ContentShare::new(0, 99)]));
    assert!(rights::check_shares(&v, &vec![ContentShare::new(0, 100)]));
    assert!(rights::check_shares(&v, &vec![ContentShare::new(1, 100), ContentShare::new(0, 0)]));
    // one owner may hold several shares of one content
    let f = crypto::hash(&[200]);
    run(&mut v, add_content(1, &f, &[(1, 40), (1, 60)]));
    assert!(v.contents().get(&f).is_some());
    assert_eq!(v.owner_contents(1).len(), 3);
    assert_eq!(
        v.owners().get(1).unwrap().ownership_hash(),
        &v.owner_contents(1).root_hash()
    );
}

#[test]
fn distributors_of_a_content_stay_sorted() {
    let (mut v, f1) = registry();
    run(&mut v, create_distributor(5, "d3"));
    run(&mut v, add_contract(5, 2, &f1));
    run(&mut v, add_contract(3, 0, &f1));
    run(&mut v, add_contract(4, 1, &f1));
    run(&mut v, add_contract(4, 1, &f1));
    assert_eq!(v.contents().get(&f1).unwrap().distributors(), &vec![0, 1, 2]);
    for id in 0..3u16 {
        assert_eq!(v.distributor_contracts(id).len(), 1);
        assert_eq!(
            v.distributors().get(id as usize).unwrap().contracts_hash(),
            &v.distributor_contracts(id).root_hash()
        );
    }
    let mut ids = vec![1, 5, 9];
    rights::insert_id(&mut ids, 7);
    rights::insert_id(&mut ids, 0);
    rights::insert_id(&mut ids, 10);
    assert_eq!(ids, vec![0, 1, 5, 7, 9, 10]);
    assert!(rights::contains_id(&ids, 7));
    assert!(!rights::contains_id(&ids, 8));
}

#[test]
fn contract_needs_the_distributors_own_key() {
    let (mut v, f1) = registry();
    // key 4 is distributor 1, not distributor 0
    run(&mut v, add_contract(4, 0, &f1));
    assert_eq!(v.distributor_contracts(0).len(), 0);
    // no distributor 9
    run(&mut v, add_contract(3, 9, &f1));
    // no such content
    run(&mut v, add_contract(3, 0, &crypto::hash(&[9])));
    assert_eq!(v.distributor_contracts(0).len(), 0);
    assert!(v.contents().get(&f1).unwrap().distributors().is_empty());
}

#[test]
fn report_charges_the_contract_and_credits_the_owners() {
    let (mut v, f1) = registry();
    run(&mut v, add_contract(3, 0, &f1));
    run(&mut v, report(3, 1, 0, &f1, 10, 1001));
    let uuid = crypto::hash(&[1]);
    let stored = v.reports().get(&uuid).unwrap();
    assert_eq!((stored.distributor_id, stored.plays, stored.amount, stored.time), (0, 10, 1001, 5));
    assert_eq!(stored.fingerprint, f1);
    assert_eq!(stored.uuid, uuid);
    let contract = v.distributor_contracts(0).get(0).unwrap();
    assert_eq!((contract.plays_total, contract.amount_owed), (10, 1001));
    // 30 percent of 1001 is 300, 70 percent is 700, both rounded down
    let s0 = v.owner_contents(0).get(0).unwrap();
    assert_eq!((s0.plays_total, s0.amount_paid), (10, 300));
    let s1 = v.owner_contents(1).get(0).unwrap();
    assert_eq!((s1.plays_total, s1.amount_paid), (10, 700));
    assert_eq!(v.owners().get(0).unwrap().ownership_hash(), &v.owner_contents(0).root_hash());
    assert_eq!(v.owners().get(1).unwrap().ownership_hash(), &v.owner_contents(1).root_hash());
    assert_eq!(v.distributors().get(0).unwrap().contracts_hash(), &v.distributor_contracts(0).root_hash());

    // the same uuid again changes nothing
    let before = DigitalRightsBlockchain::state_hash(&v);
    run(&mut v, report(3, 1, 0, &f1, 10, 1001));
    assert_eq!(DigitalRightsBlockchain::state_hash(&v), before);

    // totals hold at the largest value
    run(&mut v, report(3, 2, 0, &f1, u64::MAX, u64::MAX));
    let contract = v.distributor_contracts(0).get(0).unwrap();
    assert_eq!((contract.plays_total, contract.amount_owed), (u64::MAX, u64::MAX));
    let s0 = v.owner_contents(0).get(0).unwrap();
    assert_eq!(s0.plays_total, u64::MAX);
    assert_eq!(s0.amount_paid, 300 + (u64::MAX as u128 * 30 / 100) as u64);
    assert_eq!(rights::add_saturating(u64::MAX - 1, 1), u64::MAX);
    assert_eq!(rights::add_saturating(u64::MAX - 1, 2), u64::MAX);
    assert_eq!(rights::add_prorated(5, 1000, 30), 305);
    assert_eq!(rights::add_prorated(5, 3, 50), 6);
    assert_eq!(rights::add_prorated(1, u64::MAX, 65535), u64::MAX);
}

#[test]
fn report_needs_a_contract() {
    let (mut v, f1) = registry();
    let before = DigitalRightsBlockchain::state_hash(&v);
    // distributor 0 has no contract on the content
    run(&mut v, report(3, 1, 0, &f1, 10, 1000));
    assert!(v.reports().get(&crypto::hash(&[1])).is_none());
    run(&mut v, add_contract(3, 0, &f1));
    // the wrong signer, an unknown distributor, an unknown content
    run(&mut v, report(4, 1, 0, &f1, 10, 1000));
    run(&mut v, report(3, 1, 9, &f1, 10, 1000));
    run(&mut v, report(3, 1, 0, &crypto::hash(&[9]), 10, 1000));
    assert!(v.reports().get(&crypto::hash(&[1])).is_none());
    assert!(DigitalRightsBlockchain::state_hash(&v) != before);
    assert_eq!(v.owner_contents(0).get(0).unwrap().plays_total, 0);
}

#[test]
fn equal_histories_give_equal_state_hashes() {
    let (a, _) = registry();
    let (b, _) = registry();
    assert_eq!(DigitalRightsBlockchain::state_hash(&a), DigitalRightsBlockchain::state_hash(&b));
    let (mut c, f1) = registry();
    run(&mut c, add_contract(3, 0, &f1));
    assert!(DigitalRightsBlockchain::state_hash(&a) != DigitalRightsBlockchain::state_hash(&c));
}

#[test]
fn replay_gives_the_state_hash_of_a_history() {
    let f1 = crypto::hash(&[1, 2, 3, 4]);
    let history = vec![
        create_owner(1, "o1"),
        create_owner(2, "o2"),
        create_distributor(3, "d1"),
        create_distributor(4, "d2"),
        add_content(1, &f1, &[(0, 30), (1, 70)]),
    ];
    let (v, _) = registry();
    assert_eq!(DigitalRightsBlockchain::replay(&history), DigitalRightsBlockchain::state_hash(&v));
    assert_eq!(
        DigitalRightsBlockchain::replay(&Vec::new()),
        DigitalRightsBlockchain::state_hash(&DigitalRightsView::new())
    );
}

#[test]
fn state_hash_is_the_digest_of_the_roots() {
    let (v, _) = registry();
    let mut bytes = Vec::new();
    bytes.extend_from_slice(&v.distributors().root_hash().bytes);
    bytes.extend_from_slice(&v.owners().root_hash().bytes);
    bytes.extend_from_slice(&v.contents().root_hash().bytes);
    bytes.extend_from_slice(&v.distributor_contracts(0).root_hash().bytes);
    bytes.extend_from_slice(&v.distributor_contracts(1).root_hash().bytes);
    bytes.extend_from_slice(&v.owner_contents(0).root_hash().bytes);
    bytes.extend_from_slice(&v.owner_contents(1).root_hash().bytes);
    assert_eq!(DigitalRightsBlockchain::state_hash(&v), crypto::hash(&bytes));
}

#[test]
fn owners_are_capped() {
    let mut v = DigitalRightsView::new();
    let (p, s) = keypair(1);
    for i in 0..5001u32 {
        let mut seed = [0u8; 32];
        seed[..4].copy_from_slice(&i.to_le_bytes());
        let key = PublicKey::new(seed);
        run(&mut v, DigitalRightsTx::CreateOwner(TxCreateOwner::new(&key, "o", &s)));
    }
    assert_eq!(v.owners().len(), 5000);
    run(&mut v, DigitalRightsTx::CreateOwner(TxCreateOwner::new(&p, "late", &s)));
    assert_eq!(v.owners().len(), 5000);
    assert!(v.participants().get(&p.as_key()).is_none());
}

#[test]
fn fork_and_merge() {
    let mut db = MemoryDB::new();
    let mut fork = db.fork();
    run(&mut fork, create_owner(1, "o1"));
    // the committed state does not see an open fork
    assert_eq!(db.committed().owners().len(), 0);
    let dropped = db.fork();
    assert_eq!(dropped.owners().len(), 0);
    db.merge(fork);
    assert_eq!(db.committed().owners().len(), 1);
    let next = db.fork();
    assert_eq!(next.owners().len(), 1);

    let mut chain = DigitalRightsBlockchain::new();
    let mut v = chain.view();
    run(&mut v, create_distributor(3, "d1"));
    let expected = DigitalRightsBlockchain::state_hash(&v);
    chain.merge(v);
    assert_eq!(DigitalRightsBlockchain::state_hash(chain.db.committed()), expected);
}

#[test]
fn verify_tx_checks_the_authors_signature() {
    let (p, s) = keypair(1);
    let (_, other) = keypair(2);
    let good = DigitalRightsTx::CreateOwner(TxCreateOwner::new(&p, "o1", &s));
    assert!(DigitalRightsBlockchain::verify_tx(&good));
    let bad = DigitalRightsTx::CreateOwner(TxCreateOwner::new(&p, "o1", &other));
    assert!(!DigitalRightsBlockchain::verify_tx(&bad));
}
