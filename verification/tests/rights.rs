use digital_rights::crypto;
use digital_rights::crypto::{PublicKey, SecretKey};
use digital_rights::records::ContentShare;
use digital_rights::rights::DigitalRightsBlockchain;
use digital_rights::txs::{
    DigitalRightsTx, TxAddContent, TxAddContract, TxCreateDistributor, TxCreateOwner,
};
use digital_rights::view::DigitalRightsView;

fn keypair(seed: u8) -> (PublicKey, SecretKey) {
    let secret = SecretKey::new([seed; 32]);
    (secret.public_key(), secret)
}

fn execute_tx(v: &mut DigitalRightsView, tx: DigitalRightsTx) {
    DigitalRightsBlockchain::execute(v, &tx)
}

#[test]
fn test_add_content() {
    let b = DigitalRightsBlockchain::new();
    let mut v = b.view();

    let (p1, s1) = keypair(1);
    let (p2, s2) = keypair(2);

    let co1 = TxCreateOwner::new(&p1, "o1", &s1);
    let co2 = TxCreateOwner::new(&p2, "o2", &s2);
    let (co1_key, co1_name) = (*co1.pub_key(), co1.name().clone());
    let (co2_key, co2_name) = (*co2.pub_key(), co2.name().clone());
    execute_tx(&mut v, DigitalRightsTx::CreateOwner(co1));
    execute_tx(&mut v, DigitalRightsTx::CreateOwner(co2));
    {
        let o1 = v.owners().get(0).unwrap();
        let o2 = v.owners().get(1).unwrap();
        assert_eq!(o1.pub_key(), &co1_key);
        assert_eq!(o1.name(), &co1_name);
        assert_eq!(o2.pub_key(), &co2_key);
        assert_eq!(o2.name(), &co2_name);
    }

    {
        let d1 = [ContentShare::new(0, 30), ContentShare::new(1, 70)];
        let f1 = &crypto::hash(&[1, 2, 3, 4]);
        let ac1 = TxAddContent::new(&p1, f1, "Manowar", 1, 10, d1.as_ref(), "None", &s1);
        let title = ac1.title().clone();
        execute_tx(&mut v, DigitalRightsTx::AddContent(ac1));
        let c1 = v.contents().get(f1).unwrap();
        assert_eq!(c1.title(), &title);
        assert_eq!(c1.title().as_slice(), "Manowar".as_bytes());
        let o1 = v.owners().get(0).unwrap();
        let o2 = v.owners().get(1).unwrap();
        assert_eq!(o1.ownership_hash(), &v.owner_contents(0).root_hash());
        assert_eq!(o2.ownership_hash(), &v.owner_contents(1).root_hash());
        assert!(v.fingerprints().values().contains(f1));
    }

    {
        let f2 = &crypto::hash(&[1]);
        let ac2 = TxAddContent::new(&p1, f2, "Nanowar", 1, 10, &[], "None", &s1);
        execute_tx(&mut v, DigitalRightsTx::AddContent(ac2));
        assert!(v.contents().get(f2).is_none());
    }

    {
        let f3 = &crypto::hash(&[2]);
        let d3 = [ContentShare::new(3, 30), ContentShare::new(1, 70)];
        let ac3 = TxAddContent::new(&p1, f3, "Korn", 1, 10, d3.as_ref(), "Some", &s1);
        execute_tx(&mut v, DigitalRightsTx::AddContent(ac3));
        assert!(v.contents().get(f3).is_none());
    }

    {
        let f4 = &crypto::hash(&[3]);
        let d4 = [ContentShare::new(1, 40), ContentShare::new(1, 70)];
        let ac4 = TxAddContent::new(&p1, f4, "Slipknot", 1, 10, d4.as_ref(), "Some", &s1);
        execute_tx(&mut v, DigitalRightsTx::AddContent(ac4));
        assert!(v.contents().get(f4).is_none());
    }
}

#[test]
fn test_add_contract() {
    let b = DigitalRightsBlockchain::new();
    let mut v = b.view();

    let (p1, s1) = keypair(1);
    let (p2, s2) = keypair(2);
    let (p3, s3) = keypair(3);
    let (p4, s4) = keypair(4);

    let cd1 = TxCreateDistributor::new(&p1, "d1", &s1);
    let cd2 = TxCreateDistributor::new(&p2, "d2", &s2);
    let (cd1_key, cd1_name) = (*cd1.pub_key(), cd1.name().clone());
    let (cd2_key, cd2_name) = (*cd2.pub_key(), cd2.name().clone());
    execute_tx(&mut v, DigitalRightsTx::CreateDistributor(cd1));
    execute_tx(&mut v, DigitalRightsTx::CreateDistributor(cd2));
    {
        let d1 = v.distributors().get(0).unwrap();
        let d2 = v.distributors().get(1).unwrap();
        assert_eq!(d1.pub_key(), &cd1_key);
        assert_eq!(d1.name(), &cd1_name);
        assert_eq!(d2.pub_key(), &cd2_key);
        assert_eq!(d2.name(), &cd2_name);
    }

    let f1 = &crypto::hash(&[1, 2, 3, 4]);
    {
        let co1 = TxCreateOwner::new(&p3, "o1", &s3);
        let co2 = TxCreateOwner::new(&p4, "o2", &s4);
        execute_tx(&mut v, DigitalRightsTx::CreateOwner(co1));
        execute_tx(&mut v, DigitalRightsTx::CreateOwner(co2));

        let d1 = [ContentShare::new(0, 30), ContentShare::new(1, 70)];
        let ac1 = TxAddContent::new(&p1, f1, "Manowar", 1, 10, d1.as_ref(), "None", &s1);
        execute_tx(&mut v, DigitalRightsTx::AddContent(ac1));
    }

    {
        let ac = TxAddContract::new(&p1, 0, f1, &s1);
        execute_tx(&mut v, DigitalRightsTx::AddContract(ac));
        let contracts = v.distributor_contracts(0);
        let c = contracts.get(0).unwrap();
        assert_eq!(c.fingerprint(), f1);

        let d1 = v.distributors().get(0).unwrap();
        assert_eq!(d1.contracts_hash(), &contracts.root_hash());

        let content = v.contents().get(f1).unwrap();
        assert_eq!(content.distributors(), &[0]);
    }

    {
        let ac = TxAddContract::new(&p2, 1, f1, &s2);
        execute_tx(&mut v, DigitalRightsTx::AddContract(ac));
        let contracts = v.distributor_contracts(1);
        let c = contracts.get(0).unwrap();
        assert_eq!(c.fingerprint(), f1);

        let d1 = v.distributors().get(0).unwrap();
        assert_eq!(d1.contracts_hash(), &contracts.root_hash());

        let content = v.contents().get(f1).unwrap();
        assert_eq!(content.distributors(), &[0, 1]);
    }

    {
        let ac = TxAddContract::new(&p1, 1, f1, &s1);
        execute_tx(&mut v, DigitalRightsTx::AddContract(ac));
        let contracts = v.distributor_contracts(0);
        assert!(contracts.get(1).is_none());
    }

    {
        let f2 = &crypto::hash(&[3, 2, 3, 4]);
        let ac = TxAddContract::new(&p2, 1, f2, &s2);
        execute_tx(&mut v, DigitalRightsTx::AddContract(ac));
        let contracts = v.distributor_contracts(1);
        assert!(contracts.get(1).is_none());
    }
}
