//! What holds of the registry after every transaction, and what holds of the
//! transition itself. Each statement is proved of the mathematical model that
//! the executor's contract refers to.

use crate::merkle::merkle_root;
use crate::records::{ContentShare, Contract, ContractView, Ownership, Participant, Role};
use crate::rights::{
    add_content, add_contract, apply, apply_all, charge, content_of, contract_accepted,
    create_distributor, create_owner, credit, credit_one, empty_root, first_contract, grant,
    has_contract, insert_sorted, is_first_contract, lemma_credit_frame, lemma_grant_frame,
    lemma_grant_owners, lemma_rank_bounds, new_contract, rank, report, report_accepted,
    shares_valid, state_digest, DISTRIBUTORS_MAX_COUNT, OWNERS_MAX_COUNT,
};
use crate::storage::{list_leaves, list_root};
use crate::txs::{
    DigitalRightsTx, TxAddContent, TxAddContract, TxCreateDistributor, TxCreateOwner, TxReport,
};
use crate::view::{empty_state, RightsState};
use vstd::prelude::*;

verus! {

/// There is one list of stakes per owner and one list of contracts per
/// distributor, and neither role holds more members than it has ids for.
pub open spec fn lists_aligned(s: RightsState) -> bool {
    &&& s.owner_contents.len() == s.owners.len()
    &&& s.distributor_contracts.len() == s.distributors.len()
    &&& s.owners.len() <= OWNERS_MAX_COUNT
    &&& s.distributors.len() <= DISTRIBUTORS_MAX_COUNT
}

/// The participant index knows every owner and every distributor by key,
/// with the right role and id.
pub open spec fn keys_indexed(s: RightsState) -> bool {
    &&& forall|i: int|
        0 <= i < s.owners.len() ==> s.participants.contains_key((#[trigger] s.owners[i]).pub_key)
            && s.participants[s.owners[i].pub_key] == (Participant {
            role: Role::Owner,
            id: i as u16,
        })
    &&& forall|j: int|
        0 <= j < s.distributors.len() ==> s.participants.contains_key(
            (#[trigger] s.distributors[j]).pub_key,
        ) && s.participants[s.distributors[j].pub_key] == (Participant {
            role: Role::Distributor,
            id: j as u16,
        })
}

/// No public key is both an owner's and a distributor's.
pub open spec fn roles_disjoint(s: RightsState) -> bool {
    forall|i: int, j: int|
        0 <= i < s.owners.len() && 0 <= j < s.distributors.len() ==> (#[trigger] s.owners[i]).pub_key
            != (#[trigger] s.distributors[j]).pub_key
}

/// The shares of every content name existing owners and add up to 100.
pub open spec fn shares_sound(s: RightsState) -> bool {
    forall|fp: Seq<u8>| #[trigger]
        s.contents.contains_key(fp) ==> shares_valid(s, s.contents[fp].shares)
}

/// Every owner's ownership hash is the root of the owner's stakes.
pub open spec fn owner_hashes_current(s: RightsState) -> bool {
    forall|i: int|
        0 <= i < s.owners.len() ==> (#[trigger] s.owners[i]).ownership_hash == list_root::<
            Ownership,
        >(s.owner_contents[i])
}

/// Every distributor's contracts hash is the root of the distributor's contracts.
pub open spec fn distributor_hashes_current(s: RightsState) -> bool {
    forall|j: int|
        0 <= j < s.distributors.len() ==> (#[trigger] s.distributors[j]).contracts_hash
            == list_root::<Contract>(s.distributor_contracts[j])
}

/// Whether a list of ids is strictly increasing.
pub open spec fn increasing(ids: Seq<u16>) -> bool {
    forall|a: int, b: int| 0 <= a < b < ids.len() ==> ids[a] < ids[b]
}

/// The distributors of every content are strictly increasing, hence unique.
pub open spec fn distributors_increasing(s: RightsState) -> bool {
    forall|fp: Seq<u8>| #[trigger]
        s.contents.contains_key(fp) ==> increasing(s.contents[fp].distributors)
}

/// The fingerprint list holds each content's fingerprint exactly once, and
/// nothing else.
pub open spec fn fingerprints_enumerate(s: RightsState) -> bool {
    &&& s.fingerprints.no_duplicates()
    &&& forall|fp: Seq<u8>| s.contents.contains_key(fp) <==> s.fingerprints.contains(fp)
}

/// Every report is stored under its own uuid and refers to a distributor that
/// has a contract on the reported content.
pub open spec fn reports_backed(s: RightsState) -> bool {
    forall|u: Seq<u8>| #[trigger]
        s.reports.contains_key(u) ==> {
            &&& s.reports[u].uuid == u
            &&& s.reports[u].distributor_id < s.distributor_contracts.len()
            &&& has_contract(
                s.distributor_contracts[s.reports[u].distributor_id as int],
                s.reports[u].fingerprint,
            )
        }
}

/// Everything that holds of the registry between transactions.
pub open spec fn consistent(s: RightsState) -> bool {
    &&& lists_aligned(s)
    &&& keys_indexed(s)
    &&& shares_sound(s)
    &&& owner_hashes_current(s)
    &&& distributor_hashes_current(s)
    &&& distributors_increasing(s)
    &&& fingerprints_enumerate(s)
    &&& reports_backed(s)
}

/// The root of an empty list is the digest of the empty byte string.
pub proof fn lemma_empty_list_root<V: crate::storage::Record>()
    ensures
        list_root::<V>(Seq::empty()) == empty_root(),
{
    assert(list_leaves::<V>(Seq::empty()) =~= Seq::<Seq<u8>>::empty());
    reveal_with_fuel(merkle_root, 2);
}

/// A key is registered under at most one role: an index that knows every
/// member by key, role and id cannot hold an owner's key for a distributor.
pub proof fn lemma_roles_disjoint(s: RightsState)
    requires
        keys_indexed(s),
    ensures
        roles_disjoint(s),
{
    assert forall|i: int, j: int|
        0 <= i < s.owners.len() && 0 <= j < s.distributors.len() implies (#[trigger] s.owners[i]).pub_key
        != (#[trigger] s.distributors[j]).pub_key by {
        assert(s.participants[s.owners[i].pub_key].role == Role::Owner);
        assert(s.participants[s.distributors[j].pub_key].role == Role::Distributor);
    }
}

/// The empty registry is consistent.
pub proof fn lemma_consistent_initially()
    ensures
        consistent(empty_state()),
{
}

/// CreateOwner keeps the registry consistent.
pub proof fn lemma_create_owner_keeps(s: RightsState, tx: TxCreateOwner)
    requires
        consistent(s),
    ensures
        consistent(create_owner(s, tx)),
{
    let t = create_owner(s, tx);
    if t != s {
        let n = s.owners.len() as int;
        let k = tx.pub_key@;
        lemma_empty_list_root::<Ownership>();
        assert(keys_indexed(t)) by {
            assert forall|i: int| 0 <= i < t.owners.len() implies t.participants.contains_key(
                (#[trigger] t.owners[i]).pub_key,
            ) && t.participants[t.owners[i].pub_key] == (Participant {
                role: Role::Owner,
                id: i as u16,
            }) by {
                if i < n {
                    assert(t.owners[i] == s.owners[i]);
                    assert(s.participants.contains_key(s.owners[i].pub_key));
                }
            }
            assert forall|j: int|
                0 <= j < t.distributors.len() implies t.participants.contains_key(
                (#[trigger] t.distributors[j]).pub_key,
            ) && t.participants[t.distributors[j].pub_key] == (Participant {
                role: Role::Distributor,
                id: j as u16,
            }) by {
                assert(s.participants.contains_key(s.distributors[j].pub_key));
            }
        }
        assert(shares_sound(t)) by {
            assert forall|fp: Seq<u8>| #[trigger] t.contents.contains_key(fp) implies shares_valid(
                t,
                t.contents[fp].shares,
            ) by {
                assert(shares_valid(s, s.contents[fp].shares));
            }
        }
        assert(owner_hashes_current(t)) by {
            assert forall|i: int| 0 <= i < t.owners.len() implies (#[trigger] t.owners[i]).ownership_hash
                == list_root::<Ownership>(t.owner_contents[i]) by {
                if i < n {
                    assert(t.owners[i] == s.owners[i]);
                    assert(t.owner_contents[i] == s.owner_contents[i]);
                }
            }
        }
    }
}

/// CreateDistributor keeps the registry consistent.
pub proof fn lemma_create_distributor_keeps(s: RightsState, tx: TxCreateDistributor)
    requires
        consistent(s),
    ensures
        consistent(create_distributor(s, tx)),
{
    let t = create_distributor(s, tx);
    if t != s {
        let n = s.distributors.len() as int;
        let k = tx.pub_key@;
        lemma_empty_list_root::<Contract>();
        assert(keys_indexed(t)) by {
            assert forall|i: int| 0 <= i < t.owners.len() implies t.participants.contains_key(
                (#[trigger] t.owners[i]).pub_key,
            ) && t.participants[t.owners[i].pub_key] == (Participant {
                role: Role::Owner,
                id: i as u16,
            }) by {
                assert(s.participants.contains_key(s.owners[i].pub_key));
            }
            assert forall|j: int|
                0 <= j < t.distributors.len() implies t.participants.contains_key(
                (#[trigger] t.distributors[j]).pub_key,
            ) && t.participants[t.distributors[j].pub_key] == (Participant {
                role: Role::Distributor,
                id: j as u16,
            }) by {
                if j < n {
                    assert(t.distributors[j] == s.distributors[j]);
                    assert(s.participants.contains_key(s.distributors[j].pub_key));
                }
            }
        }
        assert(distributor_hashes_current(t)) by {
            assert forall|j: int|
                0 <= j < t.distributors.len() implies (#[trigger] t.distributors[j]).contracts_hash
                == list_root::<Contract>(t.distributor_contracts[j]) by {
                if j < n {
                    assert(t.distributors[j] == s.distributors[j]);
                    assert(t.distributor_contracts[j] == s.distributor_contracts[j]);
                }
            }
        }
        assert(reports_backed(t)) by {
            assert forall|u: Seq<u8>| #[trigger] t.reports.contains_key(u) implies {
                &&& t.reports[u].uuid == u
                &&& t.reports[u].distributor_id < t.distributor_contracts.len()
                &&& has_contract(
                    t.distributor_contracts[t.reports[u].distributor_id as int],
                    t.reports[u].fingerprint,
                )
            } by {
                assert(s.reports.contains_key(u));
                let d = s.reports[u].distributor_id as int;
                assert(t.distributor_contracts[d] == s.distributor_contracts[d]);
            }
        }
    }
}

/// AddContent keeps the registry consistent.
pub proof fn lemma_add_content_keeps(s: RightsState, tx: TxAddContent)
    requires
        consistent(s),
    ensures
        consistent(add_content(s, tx)),
{
    let t = add_content(s, tx);
    if !(s.contents.contains_key(tx.fingerprint@) || !shares_valid(s, tx.owners@)) {
        let fp = tx.fingerprint@;
        let s1 = RightsState {
            contents: s.contents.insert(fp, content_of(tx)),
            fingerprints: s.fingerprints.push(fp),
            ..s
        };
        assert(t == grant(s1, fp, tx.owners@));
        lemma_grant_frame(s1, fp, tx.owners@);
        lemma_grant_owners(s1, fp, tx.owners@);
        assert(owner_hashes_current(t));
        assert(keys_indexed(t)) by {
            assert forall|i: int| 0 <= i < t.owners.len() implies t.participants.contains_key(
                (#[trigger] t.owners[i]).pub_key,
            ) && t.participants[t.owners[i].pub_key] == (Participant {
                role: Role::Owner,
                id: i as u16,
            }) by {
                assert(t.owners[i].pub_key == s.owners[i].pub_key);
                assert(s.participants.contains_key(s.owners[i].pub_key));
            }
            assert forall|j: int|
                0 <= j < t.distributors.len() implies t.participants.contains_key(
                (#[trigger] t.distributors[j]).pub_key,
            ) && t.participants[t.distributors[j].pub_key] == (Participant {
                role: Role::Distributor,
                id: j as u16,
            }) by {
                assert(s.participants.contains_key(s.distributors[j].pub_key));
            }
        }
        assert(shares_sound(t)) by {
            assert forall|k: Seq<u8>| #[trigger] t.contents.contains_key(k) implies shares_valid(
                t,
                t.contents[k].shares,
            ) by {
                if k != fp {
                    assert(s.contents.contains_key(k));
                    assert(shares_valid(s, s.contents[k].shares));
                }
            }
        }
        assert(distributors_increasing(t)) by {
            assert forall|k: Seq<u8>| #[trigger] t.contents.contains_key(k) implies increasing(
                t.contents[k].distributors,
            ) by {
                if k != fp {
                    assert(s.contents.contains_key(k));
                }
            }
        }
        assert(fingerprints_enumerate(t)) by {
            assert(!s.fingerprints.contains(fp));
            assert forall|k: Seq<u8>| t.contents.contains_key(k) <==> t.fingerprints.contains(
                k,
            ) by {
                if k == fp {
                    assert(t.fingerprints[s.fingerprints.len() as int] == fp);
                } else {
                    if s.fingerprints.contains(k) {
                        let i = choose|i: int| 0 <= i < s.fingerprints.len() && s.fingerprints[i] == k;
                        assert(t.fingerprints[i] == k);
                    }
                    if t.fingerprints.contains(k) {
                        let i = choose|i: int| 0 <= i < t.fingerprints.len() && t.fingerprints[i] == k;
                        assert(s.fingerprints[i] == k);
                    }
                }
            }
        }
        assert(distributor_hashes_current(t));
        assert(reports_backed(t));
    }
}

/// In a strictly increasing list the rank of an id is where it belongs:
/// everything before is smaller, everything from there on is not.
pub proof fn lemma_rank_splits(ids: Seq<u16>, id: u16)
    requires
        increasing(ids),
    ensures
        0 <= rank(ids, id) <= ids.len(),
        forall|a: int| 0 <= a < rank(ids, id) ==> ids[a] < id,
        forall|a: int| rank(ids, id) <= a < ids.len() ==> ids[a] >= id,
    decreases ids.len(),
{
    if ids.len() > 0 {
        let rest = ids.drop_last();
        assert(increasing(rest)) by {
            assert forall|a: int, b: int| 0 <= a < b < rest.len() implies rest[a] < rest[b] by {
                assert(ids[a] < ids[b]);
            }
        }
        lemma_rank_splits(rest, id);
        let r = rank(rest, id);
        if ids.last() < id {
            if r < rest.len() {
                assert(rest[r] >= id);
                assert(ids[r] < ids[ids.len() - 1]);
            }
            assert forall|a: int| 0 <= a < rank(ids, id) implies ids[a] < id by {
                if a < rest.len() {
                    assert(ids[a] == rest[a]);
                }
            }
        } else {
            assert forall|a: int| 0 <= a < rank(ids, id) implies ids[a] < id by {
                assert(ids[a] == rest[a]);
            }
            assert forall|a: int| rank(ids, id) <= a < ids.len() implies ids[a] >= id by {
                if a < rest.len() {
                    assert(ids[a] == rest[a]);
                }
            }
        }
    }
}

/// Entering an absent id keeps a list strictly increasing, and the id is then in it.
pub proof fn lemma_insert_sorted(ids: Seq<u16>, id: u16)
    requires
        increasing(ids),
        !ids.contains(id),
    ensures
        increasing(insert_sorted(ids, id)),
        insert_sorted(ids, id).contains(id),
{
    lemma_rank_splits(ids, id);
    let r = rank(ids, id);
    let out = insert_sorted(ids, id);
    assert(out[r] == id);
    assert forall|a: int, b: int| 0 <= a < b < out.len() implies out[a] < out[b] by {
        if b < r {
            assert(ids[a] < ids[b]);
        } else if b == r {
        } else if a < r {
            assert(ids.contains(ids[b - 1]));
        } else if a == r {
            assert(ids.contains(ids[b - 1]));
        } else {
            assert(ids[a - 1] < ids[b - 1]);
        }
    }
}

/// Appending a contract keeps every contract that was found.
pub proof fn lemma_has_contract_push(list: Seq<ContractView>, extra: ContractView, fp: Seq<u8>)
    requires
        has_contract(list, fp),
    ensures
        has_contract(list.push(extra), fp),
{
    let p = first_contract(list, fp);
    assert(is_first_contract(list.push(extra), fp, p)) by {
        assert forall|j: int| 0 <= j < p implies (#[trigger] list.push(extra)[j]).fingerprint
            != fp by {
            assert(list[j].fingerprint != fp);
        }
    }
}

/// Replacing a contract by one on the same content keeps every contract that
/// was found.
pub proof fn lemma_has_contract_update(
    list: Seq<ContractView>,
    at: int,
    next: ContractView,
    fp: Seq<u8>,
)
    requires
        has_contract(list, fp),
        0 <= at < list.len(),
        next.fingerprint == list[at].fingerprint,
    ensures
        has_contract(list.update(at, next), fp),
{
    let p = first_contract(list, fp);
    assert(is_first_contract(list.update(at, next), fp, p)) by {
        assert forall|j: int| 0 <= j < p implies (#[trigger] list.update(at, next)[j]).fingerprint
            != fp by {
            assert(list[j].fingerprint != fp);
        }
    }
}

/// AddContract keeps the registry consistent.
pub proof fn lemma_add_contract_keeps(s: RightsState, tx: TxAddContract)
    requires
        consistent(s),
    ensures
        consistent(add_contract(s, tx)),
{
    let t = add_contract(s, tx);
    if contract_accepted(s, tx) {
        let id = tx.distributor_id as int;
        let fp = tx.fingerprint@;
        let content = s.contents[fp];
        let contracts = s.distributor_contracts[id].push(new_contract(fp));
        assert(increasing(content.distributors));
        lemma_insert_sorted(content.distributors, tx.distributor_id);
        assert(keys_indexed(t)) by {
            assert forall|i: int| 0 <= i < t.owners.len() implies t.participants.contains_key(
                (#[trigger] t.owners[i]).pub_key,
            ) && t.participants[t.owners[i].pub_key] == (Participant {
                role: Role::Owner,
                id: i as u16,
            }) by {
                assert(s.participants.contains_key(s.owners[i].pub_key));
            }
            assert forall|j: int|
                0 <= j < t.distributors.len() implies t.participants.contains_key(
                (#[trigger] t.distributors[j]).pub_key,
            ) && t.participants[t.distributors[j].pub_key] == (Participant {
                role: Role::Distributor,
                id: j as u16,
            }) by {
                assert(t.distributors[j].pub_key == s.distributors[j].pub_key);
                assert(s.participants.contains_key(s.distributors[j].pub_key));
            }
        }
        assert(shares_sound(t)) by {
            assert forall|k: Seq<u8>| #[trigger] t.contents.contains_key(k) implies shares_valid(
                t,
                t.contents[k].shares,
            ) by {
                assert(s.contents.contains_key(k));
                assert(shares_valid(s, s.contents[k].shares));
            }
        }
        assert(distributor_hashes_current(t)) by {
            assert forall|j: int|
                0 <= j < t.distributors.len() implies (#[trigger] t.distributors[j]).contracts_hash
                == list_root::<Contract>(t.distributor_contracts[j]) by {
                if j != id {
                    assert(t.distributors[j] == s.distributors[j]);
                }
            }
        }
        assert(distributors_increasing(t)) by {
            assert forall|k: Seq<u8>| #[trigger] t.contents.contains_key(k) implies increasing(
                t.contents[k].distributors,
            ) by {
                assert(s.contents.contains_key(k));
            }
        }
        assert(fingerprints_enumerate(t)) by {
            assert forall|k: Seq<u8>| t.contents.contains_key(k) <==> t.fingerprints.contains(
                k,
            ) by {
                assert(t.contents.contains_key(k) <==> s.contents.contains_key(k));
            }
        }
        assert(reports_backed(t)) by {
            assert forall|u: Seq<u8>| #[trigger] t.reports.contains_key(u) implies {
                &&& t.reports[u].uuid == u
                &&& t.reports[u].distributor_id < t.distributor_contracts.len()
                &&& has_contract(
                    t.distributor_contracts[t.reports[u].distributor_id as int],
                    t.reports[u].fingerprint,
                )
            } by {
                assert(s.reports.contains_key(u));
                let d = s.reports[u].distributor_id as int;
                if d == id {
                    lemma_has_contract_push(
                        s.distributor_contracts[id],
                        new_contract(fp),
                        s.reports[u].fingerprint,
                    );
                }
            }
        }
        assert(owner_hashes_current(t));
    }
}

/// Crediting shares keeps the number of owners, their keys, and leaves every
/// ownership hash equal to the root of the owner's stakes if it was so before.
pub proof fn lemma_credit_owners(
    s: RightsState,
    fingerprint: Seq<u8>,
    shares: Seq<ContentShare>,
    plays: u64,
    amount: u64,
)
    requires
        s.owner_contents.len() == s.owners.len(),
    ensures
        credit(s, fingerprint, shares, plays, amount).owners.len() == s.owners.len(),
        credit(s, fingerprint, shares, plays, amount).owner_contents.len() == s.owners.len(),
        forall|i: int|
            0 <= i < s.owners.len() ==> (#[trigger] credit(
                s,
                fingerprint,
                shares,
                plays,
                amount,
            ).owners[i]).pub_key == s.owners[i].pub_key,
        owner_hashes_current(s) ==> owner_hashes_current(
            credit(s, fingerprint, shares, plays, amount),
        ),
    decreases shares.len(),
{
    if shares.len() > 0 {
        let rest = shares.drop_last();
        lemma_credit_owners(s, fingerprint, rest, plays, amount);
        let mid = credit(s, fingerprint, rest, plays, amount);
        let fin = credit_one(mid, fingerprint, shares.last(), plays, amount);
        assert(fin == credit(s, fingerprint, shares, plays, amount));
        let id = shares.last().owner_id as int;
        assert forall|i: int| 0 <= i < s.owners.len() implies (#[trigger] fin.owners[i]).pub_key
            == s.owners[i].pub_key by {
            assert(mid.owners[i].pub_key == s.owners[i].pub_key);
        }
        if owner_hashes_current(s) {
            assert forall|i: int| 0 <= i < fin.owners.len() implies (#[trigger] fin.owners[i]).ownership_hash
                == list_root::<Ownership>(fin.owner_contents[i]) by {
                if i != id || fin == mid {
                    assert(mid.owners[i].ownership_hash == list_root::<Ownership>(
                        mid.owner_contents[i],
                    ));
                }
            }
        }
    }
}

/// Report keeps the registry consistent.
pub proof fn lemma_report_keeps(s: RightsState, tx: TxReport)
    requires
        consistent(s),
    ensures
        consistent(report(s, tx)),
{
    let t = report(s, tx);
    if report_accepted(s, tx) {
        let id = tx.distributor_id as int;
        let fp = tx.fingerprint@;
        let list = s.distributor_contracts[id];
        let p = first_contract(list, fp);
        assert(is_first_contract(list, fp, p));
        let s1 = charge(s, tx);
        let contracts = s1.distributor_contracts[id];
        let shares = s.contents[fp].shares;
        lemma_credit_frame(s1, fp, shares, tx.plays, tx.amount);
        assert(t == credit(s1, fp, shares, tx.plays, tx.amount));
        assert(contracts[p].fingerprint == list[p].fingerprint);
        lemma_credit_owners(s1, fp, shares, tx.plays, tx.amount);
        assert(owner_hashes_current(s1));
        assert(owner_hashes_current(t));
        assert(keys_indexed(t)) by {
            assert forall|i: int| 0 <= i < t.owners.len() implies t.participants.contains_key(
                (#[trigger] t.owners[i]).pub_key,
            ) && t.participants[t.owners[i].pub_key] == (Participant {
                role: Role::Owner,
                id: i as u16,
            }) by {
                assert(t.owners[i].pub_key == s.owners[i].pub_key);
                assert(s.participants.contains_key(s.owners[i].pub_key));
            }
            assert forall|j: int|
                0 <= j < t.distributors.len() implies t.participants.contains_key(
                (#[trigger] t.distributors[j]).pub_key,
            ) && t.participants[t.distributors[j].pub_key] == (Participant {
                role: Role::Distributor,
                id: j as u16,
            }) by {
                assert(t.distributors[j].pub_key == s.distributors[j].pub_key);
                assert(s.participants.contains_key(s.distributors[j].pub_key));
            }
        }
        assert(shares_sound(t)) by {
            assert forall|k: Seq<u8>| #[trigger] t.contents.contains_key(k) implies shares_valid(
                t,
                t.contents[k].shares,
            ) by {
                assert(shares_valid(s, s.contents[k].shares));
            }
        }
        assert(distributor_hashes_current(t)) by {
            assert forall|j: int|
                0 <= j < t.distributors.len() implies (#[trigger] t.distributors[j]).contracts_hash
                == list_root::<Contract>(t.distributor_contracts[j]) by {
                if j != id {
                    assert(t.distributors[j] == s.distributors[j]);
                }
            }
        }
        assert(reports_backed(t)) by {
            assert forall|u: Seq<u8>| #[trigger] t.reports.contains_key(u) implies {
                &&& t.reports[u].uuid == u
                &&& t.reports[u].distributor_id < t.distributor_contracts.len()
                &&& has_contract(
                    t.distributor_contracts[t.reports[u].distributor_id as int],
                    t.reports[u].fingerprint,
                )
            } by {
                if u == tx.uuid@ {
                    lemma_has_contract_update(list, p, contracts[p], fp);
                } else {
                    assert(s.reports.contains_key(u));
                    let d = s.reports[u].distributor_id as int;
                    if d == id {
                        lemma_has_contract_update(list, p, contracts[p], s.reports[u].fingerprint);
                    }
                }
            }
        }
        assert(distributors_increasing(t));
        assert(fingerprints_enumerate(t));
    }
}

/// Every transaction keeps the registry consistent.
pub proof fn lemma_apply_keeps(s: RightsState, tx: DigitalRightsTx)
    requires
        consistent(s),
    ensures
        consistent(apply(s, tx)),
{
    match tx {
        DigitalRightsTx::CreateOwner(tx) => lemma_create_owner_keeps(s, tx),
        DigitalRightsTx::CreateDistributor(tx) => lemma_create_distributor_keeps(s, tx),
        DigitalRightsTx::AddContent(tx) => lemma_add_content_keeps(s, tx),
        DigitalRightsTx::AddContract(tx) => lemma_add_contract_keeps(s, tx),
        DigitalRightsTx::Report(tx) => lemma_report_keeps(s, tx),
    }
}

/// Every state reached from the empty registry by transactions is consistent.
pub proof fn lemma_reachable_consistent(txs: Seq<DigitalRightsTx>)
    ensures
        consistent(apply_all(empty_state(), txs)),
    decreases txs.len(),
{
    if txs.len() == 0 {
        lemma_consistent_initially();
    } else {
        lemma_reachable_consistent(txs.drop_last());
        lemma_apply_keeps(apply_all(empty_state(), txs.drop_last()), txs.last());
    }
}

/// In every reachable state no public key is registered under two roles.
pub proof fn lemma_participants_unique(txs: Seq<DigitalRightsTx>)
    ensures
        roles_disjoint(apply_all(empty_state(), txs)),
{
    lemma_reachable_consistent(txs);
    lemma_roles_disjoint(apply_all(empty_state(), txs));
}

/// Applying CreateOwner a second time changes nothing.
pub proof fn lemma_create_owner_idempotent(s: RightsState, tx: TxCreateOwner)
    ensures
        create_owner(create_owner(s, tx), tx) == create_owner(s, tx),
{
}

/// Applying CreateDistributor a second time changes nothing.
pub proof fn lemma_create_distributor_idempotent(s: RightsState, tx: TxCreateDistributor)
    ensures
        create_distributor(create_distributor(s, tx), tx) == create_distributor(s, tx),
{
}

/// Applying AddContent a second time changes nothing: the fingerprint is
/// then already present.
pub proof fn lemma_add_content_idempotent(s: RightsState, tx: TxAddContent)
    ensures
        add_content(add_content(s, tx), tx) == add_content(s, tx),
{
    if !(s.contents.contains_key(tx.fingerprint@) || !shares_valid(s, tx.owners@)) {
        let s1 = RightsState {
            contents: s.contents.insert(tx.fingerprint@, content_of(tx)),
            fingerprints: s.fingerprints.push(tx.fingerprint@),
            ..s
        };
        lemma_grant_frame(s1, tx.fingerprint@, tx.owners@);
    }
}

/// Applying AddContract a second time changes nothing: the distributor is
/// then already among the content's distributors.
pub proof fn lemma_add_contract_idempotent(s: RightsState, tx: TxAddContract)
    ensures
        add_contract(add_contract(s, tx), tx) == add_contract(s, tx),
{
    if contract_accepted(s, tx) {
        let ids = s.contents[tx.fingerprint@].distributors;
        lemma_rank_bounds(ids, tx.distributor_id);
        assert(insert_sorted(ids, tx.distributor_id)[rank(ids, tx.distributor_id)]
            == tx.distributor_id);
    }
}

/// Applying Report a second time changes nothing: the uuid is then already known.
pub proof fn lemma_report_idempotent(s: RightsState, tx: TxReport)
    ensures
        report(report(s, tx), tx) == report(s, tx),
{
    if report_accepted(s, tx) {
        lemma_credit_frame(
            charge(s, tx),
            tx.fingerprint@,
            s.contents[tx.fingerprint@].shares,
            tx.plays,
            tx.amount,
        );
        assert(report(s, tx).reports.contains_key(tx.uuid@));
    }
}

/// A transaction applied twice in a row does what it does applied once.
pub proof fn lemma_apply_idempotent(s: RightsState, tx: DigitalRightsTx)
    ensures
        apply(apply(s, tx), tx) == apply(s, tx),
{
    match tx {
        DigitalRightsTx::CreateOwner(tx) => lemma_create_owner_idempotent(s, tx),
        DigitalRightsTx::CreateDistributor(tx) => lemma_create_distributor_idempotent(s, tx),
        DigitalRightsTx::AddContent(tx) => lemma_add_content_idempotent(s, tx),
        DigitalRightsTx::AddContract(tx) => lemma_add_contract_idempotent(s, tx),
        DigitalRightsTx::Report(tx) => lemma_report_idempotent(s, tx),
    }
}

/// The root of a map does not depend on the order in which two keys were put.
pub proof fn lemma_put_order<V: crate::storage::Record>(
    m: Map<Seq<u8>, V::V>,
    k1: Seq<u8>,
    v1: V::V,
    k2: Seq<u8>,
    v2: V::V,
)
    requires
        k1 != k2,
    ensures
        crate::storage::map_root::<V>(m.insert(k1, v1).insert(k2, v2)) == crate::storage::map_root::<
            V,
        >(m.insert(k2, v2).insert(k1, v1)),
{
    assert(m.insert(k1, v1).insert(k2, v2) =~= m.insert(k2, v2).insert(k1, v1));
}

/// Two replicas that start from equal states and apply the same transactions
/// in the same order arrive at the same state hash.
pub proof fn lemma_state_hash_agrees(a: RightsState, b: RightsState, txs: Seq<DigitalRightsTx>)
    requires
        a == b,
    ensures
        apply_all(a, txs) == apply_all(b, txs),
        state_digest(apply_all(a, txs)) == state_digest(apply_all(b, txs)),
{
}

} // verus!
