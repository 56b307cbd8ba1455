//! The deterministic state transition of the rights registry: what each
//! transaction does to the registry, and the digest of the whole state.
//!
//! A transaction whose preconditions fail changes nothing. That is not an
//! error: replicas must make identical progress on identical input.

use crate::crypto;
use crate::crypto::digest;
use crate::records::{
    copy_bytes, copy_shares, Content, ContentShare, ContentView, Contract, ContractView,
    Distributor, DistributorView, Owner, OwnerView, Ownership, OwnershipView, Participant, Report,
    ReportView, Role,
};
use crate::storage::{list_root, map_root, Record};
use crate::txs::{
    DigitalRightsTx, TxAddContent, TxAddContract, TxCreateDistributor, TxCreateOwner, TxReport,
};
use crate::view::{DigitalRightsView, MemoryDB, RightsState};
use vstd::prelude::*;

verus! {

/// The largest number of owners the registry takes.
pub const OWNERS_MAX_COUNT: u64 = 5000;

/// The largest number of distributors the registry takes: one per 16-bit id.
pub const DISTRIBUTORS_MAX_COUNT: u64 = 65536;

/// The root hash of an empty list: the digest of the empty byte string.
pub open spec fn empty_root() -> Seq<u8> {
    digest(Seq::empty())
}

/// The sum of the percentages of a list of shares.
pub open spec fn share_sum(shares: Seq<ContentShare>) -> int
    decreases shares.len(),
{
    if shares.len() == 0 {
        0
    } else {
        share_sum(shares.drop_last()) + shares.last().share
    }
}

/// Whether every share names an existing owner and the shares add up to 100.
pub open spec fn shares_valid(s: RightsState, shares: Seq<ContentShare>) -> bool {
    &&& forall|i: int| 0 <= i < shares.len() ==> (#[trigger] shares[i]).owner_id < s.owners.len()
    &&& share_sum(shares) == 100
}

/// The number of ids in `ids` that are below `id`.
pub open spec fn rank(ids: Seq<u16>, id: u16) -> int
    decreases ids.len(),
{
    if ids.len() == 0 {
        0
    } else {
        rank(ids.drop_last(), id) + if ids.last() < id {
            1int
        } else {
            0int
        }
    }
}

/// `ids` with `id` put behind the ids that are below it.
pub open spec fn insert_sorted(ids: Seq<u16>, id: u16) -> Seq<u16> {
    ids.insert(rank(ids, id), id)
}

/// A fresh stake in the content `fingerprint`.
pub open spec fn new_ownership(fingerprint: Seq<u8>) -> OwnershipView {
    OwnershipView { fingerprint, plays_total: 0, amount_paid: 0, reports_hash: empty_root() }
}

/// A fresh contract on the content `fingerprint`.
pub open spec fn new_contract(fingerprint: Seq<u8>) -> ContractView {
    ContractView { fingerprint, plays_total: 0, amount_owed: 0, reports_hash: empty_root() }
}

/// What CreateOwner does: nothing if the key is registered or the registry is
/// full; else it appends the owner and registers the key under the new id.
pub open spec fn create_owner(s: RightsState, tx: TxCreateOwner) -> RightsState {
    if s.participants.contains_key(tx.pub_key@) || s.owners.len() >= OWNERS_MAX_COUNT {
        s
    } else {
        RightsState {
            participants: s.participants.insert(
                tx.pub_key@,
                Participant { role: Role::Owner, id: s.owners.len() as u16 },
            ),
            owners: s.owners.push(
                OwnerView { pub_key: tx.pub_key@, name: tx.name@, ownership_hash: empty_root() },
            ),
            owner_contents: s.owner_contents.push(Seq::empty()),
            ..s
        }
    }
}

/// What CreateDistributor does: nothing if the key is registered or no 16-bit
/// id is left; else it appends the distributor and registers the key.
pub open spec fn create_distributor(s: RightsState, tx: TxCreateDistributor) -> RightsState {
    if s.participants.contains_key(tx.pub_key@) || s.distributors.len() >= DISTRIBUTORS_MAX_COUNT {
        s
    } else {
        RightsState {
            participants: s.participants.insert(
                tx.pub_key@,
                Participant { role: Role::Distributor, id: s.distributors.len() as u16 },
            ),
            distributors: s.distributors.push(
                DistributorView {
                    pub_key: tx.pub_key@,
                    name: tx.name@,
                    contracts_hash: empty_root(),
                },
            ),
            distributor_contracts: s.distributor_contracts.push(Seq::empty()),
            ..s
        }
    }
}

/// Gives the owner `id` a fresh stake in `fingerprint` and brings the owner's
/// ownership hash up to date.
pub open spec fn grant_one(s: RightsState, fingerprint: Seq<u8>, id: int) -> RightsState {
    let stakes = s.owner_contents[id].push(new_ownership(fingerprint));
    RightsState {
        owner_contents: s.owner_contents.update(id, stakes),
        owners: s.owners.update(
            id,
            OwnerView { ownership_hash: list_root::<Ownership>(stakes), ..s.owners[id] },
        ),
        ..s
    }
}

/// Gives each owner named in `shares`, in list order, a fresh stake.
pub open spec fn grant(
    s: RightsState,
    fingerprint: Seq<u8>,
    shares: Seq<ContentShare>,
) -> RightsState
    decreases shares.len(),
{
    if shares.len() == 0 {
        s
    } else {
        grant_one(
            grant(s, fingerprint, shares.drop_last()),
            fingerprint,
            shares.last().owner_id as int,
        )
    }
}

/// The content record that AddContent stores.
pub open spec fn content_of(tx: TxAddContent) -> ContentView {
    ContentView {
        title: tx.title@,
        price_per_listen: tx.price_per_listen,
        min_plays: tx.min_plays,
        additional_conditions: tx.additional_conditions@,
        shares: tx.owners@,
        distributors: Seq::empty(),
    }
}

/// What AddContent does: nothing if the fingerprint is known, a share names
/// an unknown owner, or the shares do not add up to 100; else it stores the
/// content, lists the fingerprint and gives each named owner a stake.
pub open spec fn add_content(s: RightsState, tx: TxAddContent) -> RightsState {
    if s.contents.contains_key(tx.fingerprint@) || !shares_valid(s, tx.owners@) {
        s
    } else {
        grant(
            RightsState {
                contents: s.contents.insert(tx.fingerprint@, content_of(tx)),
                fingerprints: s.fingerprints.push(tx.fingerprint@),
                ..s
            },
            tx.fingerprint@,
            tx.owners@,
        )
    }
}

/// Whether AddContract meets its preconditions: the distributor exists and
/// holds the signing key, the content exists, and the distributor has no
/// contract on it yet.
pub open spec fn contract_accepted(s: RightsState, tx: TxAddContract) -> bool {
    &&& tx.distributor_id < s.distributors.len()
    &&& s.distributors[tx.distributor_id as int].pub_key == tx.pub_key@
    &&& s.contents.contains_key(tx.fingerprint@)
    &&& !s.contents[tx.fingerprint@].distributors.contains(tx.distributor_id)
}

/// What AddContract does: nothing unless accepted; else it enters the id into
/// the content's distributors, in increasing order, appends a fresh contract
/// and brings the distributor's contracts hash up to date.
pub open spec fn add_contract(s: RightsState, tx: TxAddContract) -> RightsState {
    if !contract_accepted(s, tx) {
        s
    } else {
        let id = tx.distributor_id as int;
        let content = s.contents[tx.fingerprint@];
        let contracts = s.distributor_contracts[id].push(new_contract(tx.fingerprint@));
        RightsState {
            contents: s.contents.insert(
                tx.fingerprint@,
                ContentView {
                    distributors: insert_sorted(content.distributors, tx.distributor_id),
                    ..content
                },
            ),
            distributor_contracts: s.distributor_contracts.update(id, contracts),
            distributors: s.distributors.update(
                id,
                DistributorView {
                    contracts_hash: list_root::<Contract>(contracts),
                    ..s.distributors[id]
                },
            ),
            ..s
        }
    }
}

/// Prefixes of a share list never sum to more than the whole.
pub proof fn lemma_share_sum_prefix(shares: Seq<ContentShare>, i: int)
    requires
        0 <= i <= shares.len(),
    ensures
        0 <= share_sum(shares.take(i)) <= share_sum(shares),
    decreases shares.len(),
{
    if shares.len() == 0 {
        assert(shares.take(i) =~= shares);
    } else if i == shares.len() {
        assert(shares.take(i) =~= shares);
        lemma_share_sum_prefix(shares.drop_last(), i - 1);
    } else {
        assert(shares.drop_last().take(i) =~= shares.take(i));
        lemma_share_sum_prefix(shares.drop_last(), i);
    }
}

/// Granting stakes touches nothing but the owners and their stakes.
pub proof fn lemma_grant_frame(s: RightsState, fingerprint: Seq<u8>, shares: Seq<ContentShare>)
    ensures
        grant(s, fingerprint, shares).participants == s.participants,
        grant(s, fingerprint, shares).distributors == s.distributors,
        grant(s, fingerprint, shares).contents == s.contents,
        grant(s, fingerprint, shares).fingerprints == s.fingerprints,
        grant(s, fingerprint, shares).reports == s.reports,
        grant(s, fingerprint, shares).distributor_contracts == s.distributor_contracts,
    decreases shares.len(),
{
    if shares.len() > 0 {
        lemma_grant_frame(s, fingerprint, shares.drop_last());
    }
}

/// Granting stakes to existing owners keeps the number of owners, their keys
/// and names, and leaves every ownership hash equal to the root of the
/// owner's stakes if it was so before.
pub proof fn lemma_grant_owners(s: RightsState, fingerprint: Seq<u8>, shares: Seq<ContentShare>)
    requires
        s.owner_contents.len() == s.owners.len(),
        forall|i: int| 0 <= i < shares.len() ==> (#[trigger] shares[i]).owner_id < s.owners.len(),
    ensures
        grant(s, fingerprint, shares).owners.len() == s.owners.len(),
        grant(s, fingerprint, shares).owner_contents.len() == s.owners.len(),
        forall|i: int|
            0 <= i < s.owners.len() ==> (#[trigger] grant(s, fingerprint, shares).owners[i]).pub_key
                == s.owners[i].pub_key,
        (forall|i: int|
            0 <= i < s.owners.len() ==> (#[trigger] s.owners[i]).ownership_hash == list_root::<
                Ownership,
            >(s.owner_contents[i])) ==> (forall|i: int|
            0 <= i < s.owners.len() ==> (#[trigger] grant(
                s,
                fingerprint,
                shares,
            ).owners[i]).ownership_hash == list_root::<Ownership>(
                grant(s, fingerprint, shares).owner_contents[i],
            )),
    decreases shares.len(),
{
    if shares.len() > 0 {
        let rest = shares.drop_last();
        assert forall|i: int| 0 <= i < rest.len() implies (#[trigger] rest[i]).owner_id
            < s.owners.len() by {
            assert(rest[i] == shares[i]);
        }
        lemma_grant_owners(s, fingerprint, rest);
        let mid = grant(s, fingerprint, rest);
        let id = shares.last().owner_id as int;
        let fin = grant_one(mid, fingerprint, id);
        assert(fin == grant(s, fingerprint, shares));
        assert forall|i: int| 0 <= i < s.owners.len() implies (#[trigger] fin.owners[i]).pub_key
            == s.owners[i].pub_key by {
            assert(mid.owners[i].pub_key == s.owners[i].pub_key);
        }
        if forall|i: int|
            0 <= i < s.owners.len() ==> (#[trigger] s.owners[i]).ownership_hash == list_root::<
                Ownership,
            >(s.owner_contents[i]) {
            assert forall|i: int| 0 <= i < s.owners.len() implies (#[trigger] fin.owners[i]).ownership_hash
                == list_root::<Ownership>(fin.owner_contents[i]) by {
                if i != id {
                    assert(mid.owners[i].ownership_hash == list_root::<Ownership>(
                        mid.owner_contents[i],
                    ));
                }
            }
        }
    }
}

fn fresh_ownership(fingerprint: &crypto::Hash) -> (o: Ownership)
    ensures
        o@ == new_ownership(fingerprint@),
{
    let empty: Vec<u8> = Vec::new();
    assert(empty@ =~= Seq::<u8>::empty());
    Ownership {
        fingerprint: *fingerprint,
        plays_total: 0,
        amount_paid: 0,
        reports_hash: crypto::hash(empty.as_slice()),
    }
}

fn fresh_contract(fingerprint: &crypto::Hash) -> (c: Contract)
    ensures
        c@ == new_contract(fingerprint@),
{
    let empty: Vec<u8> = Vec::new();
    assert(empty@ =~= Seq::<u8>::empty());
    Contract {
        fingerprint: *fingerprint,
        plays_total: 0,
        amount_owed: 0,
        reports_hash: crypto::hash(empty.as_slice()),
    }
}

fn empty_root_hash() -> (h: crypto::Hash)
    ensures
        h@ == empty_root(),
{
    let empty: Vec<u8> = Vec::new();
    assert(empty@ =~= Seq::<u8>::empty());
    crypto::hash(empty.as_slice())
}

/// Applies CreateOwner.
pub fn execute_create_owner(view: &mut DigitalRightsView, tx: &TxCreateOwner)
    requires
        old(view).wf(),
    ensures
        final(view).wf(),
        final(view)@ == create_owner(old(view)@, *tx),
{
    if view.participants().contains_key(&tx.pub_key.as_key()) {
        return ;
    }
    let owner_id = view.owners().len();
    if (owner_id as u64) < OWNERS_MAX_COUNT {
        let owner = Owner {
            pub_key: tx.pub_key,
            name: copy_bytes(&tx.name),
            ownership_hash: empty_root_hash(),
        };
        view.add_owner(owner);
        view.register(&tx.pub_key, Participant { role: Role::Owner, id: owner_id as u16 });
    }
}

/// Applies CreateDistributor.
pub fn execute_create_distributor(view: &mut DigitalRightsView, tx: &TxCreateDistributor)
    requires
        old(view).wf(),
    ensures
        final(view).wf(),
        final(view)@ == create_distributor(old(view)@, *tx),
{
    if view.participants().contains_key(&tx.pub_key.as_key()) {
        return ;
    }
    let distributor_id = view.distributors().len();
    if (distributor_id as u64) < DISTRIBUTORS_MAX_COUNT {
        let distributor = Distributor {
            pub_key: tx.pub_key,
            name: copy_bytes(&tx.name),
            contracts_hash: empty_root_hash(),
        };
        view.add_distributor(distributor);
        view.register(
            &tx.pub_key,
            Participant { role: Role::Distributor, id: distributor_id as u16 },
        );
    }
}

/// Whether every share names an existing owner and the shares add up to 100.
pub fn check_shares(view: &DigitalRightsView, shares: &Vec<ContentShare>) -> (ok: bool)
    ensures
        ok == shares_valid(view@, shares@),
{
    let owners = view.owners().len();
    let n = shares.len();
    let mut sum: u64 = 0;
    let mut i: usize = 0;
    while i < n
        invariant
            i <= n,
            n == shares@.len(),
            owners == view@.owners.len(),
            sum == share_sum(shares@.take(i as int)),
            sum <= 100,
            forall|j: int| 0 <= j < i ==> (#[trigger] shares@[j]).owner_id < owners,
        decreases n - i,
    {
        if shares[i].owner_id as usize >= owners {
            return false;
        }
        proof {
            let next = shares@.take(i + 1);
            assert(next.drop_last() =~= shares@.take(i as int));
            assert(next.last() == shares@[i as int]);
            lemma_share_sum_prefix(shares@, i + 1);
        }
        sum = sum + shares[i].share as u64;
        if sum > 100 {
            return false;
        }
        i += 1;
    }
    assert(shares@.take(n as int) =~= shares@);
    sum == 100
}

/// Applies AddContent.
pub fn execute_add_content(view: &mut DigitalRightsView, tx: &TxAddContent)
    requires
        old(view).wf(),
    ensures
        final(view).wf(),
        final(view)@ == add_content(old(view)@, *tx),
{
    if view.contents().contains_key(&tx.fingerprint) {
        return ;
    }
    if !check_shares(view, &tx.owners) {
        return ;
    }
    let content = Content {
        title: copy_bytes(&tx.title),
        price_per_listen: tx.price_per_listen,
        min_plays: tx.min_plays,
        additional_conditions: copy_bytes(&tx.additional_conditions),
        shares: copy_shares(&tx.owners),
        distributors: Vec::new(),
    };
    assert(content@ == content_of(*tx)) by {
        assert(content@.distributors =~= Seq::<u16>::empty());
    }
    view.put_content(&tx.fingerprint, content);
    view.add_fingerprint(&tx.fingerprint);
    let ghost base = view@;
    let ghost fp = tx.fingerprint@;
    proof {
        old(view).lemma_wf();
    }
    let n = tx.owners.len();
    let mut i: usize = 0;
    assert(tx.owners@.take(0) =~= Seq::<ContentShare>::empty());
    while i < n
        invariant
            i <= n,
            n == tx.owners@.len(),
            view.wf(),
            fp == tx.fingerprint@,
            base.owner_contents.len() == base.owners.len(),
            forall|j: int|
                0 <= j < tx.owners@.len() ==> (#[trigger] tx.owners@[j]).owner_id
                    < base.owners.len(),
            view@ == grant(base, fp, tx.owners@.take(i as int)),
        decreases n - i,
    {
        let ghost before = view@;
        proof {
            let done = tx.owners@.take(i as int);
            assert forall|j: int| 0 <= j < done.len() implies (#[trigger] done[j]).owner_id
                < base.owners.len() by {
                assert(done[j] == tx.owners@[j]);
            }
            lemma_grant_owners(base, fp, done);
        }
        let id = tx.owners[i].owner_id as usize;
        view.add_ownership(id, fresh_ownership(&tx.fingerprint));
        let root = view.stakes_at(id).root_hash();
        let mut owner = view.owners().get(id).unwrap().duplicate();
        owner.set_ownership_hash(&root);
        view.set_owner(id, owner);
        proof {
            let next = tx.owners@.take(i + 1);
            assert(next.drop_last() =~= tx.owners@.take(i as int));
            assert(next.last() == tx.owners@[i as int]);
            assert(view@ == grant_one(before, fp, id as int));
        }
        i += 1;
    }
    assert(tx.owners@.take(n as int) =~= tx.owners@);
}

/// Whether `ids` holds `id`.
pub fn contains_id(ids: &Vec<u16>, id: u16) -> (r: bool)
    ensures
        r == ids@.contains(id),
{
    let n = ids.len();
    let mut i: usize = 0;
    while i < n
        invariant
            i <= n,
            n == ids@.len(),
            forall|j: int| 0 <= j < i ==> ids@[j] != id,
        decreases n - i,
    {
        if ids[i] == id {
            return true;
        }
        i += 1;
    }
    false
}

/// The rank is a position in the list.
pub proof fn lemma_rank_bounds(ids: Seq<u16>, id: u16)
    ensures
        0 <= rank(ids, id) <= ids.len(),
    decreases ids.len(),
{
    if ids.len() > 0 {
        lemma_rank_bounds(ids.drop_last(), id);
    }
}

/// Puts `id` into `ids` behind the ids that are below it.
pub fn insert_id(ids: &mut Vec<u16>, id: u16)
    ensures
        final(ids)@ == insert_sorted(old(ids)@, id),
{
    let n = ids.len();
    let mut below: usize = 0;
    let mut i: usize = 0;
    assert(ids@.take(0) =~= Seq::<u16>::empty());
    while i < n
        invariant
            i <= n,
            n == ids@.len(),
            ids@ == old(ids)@,
            below <= i,
            below == rank(ids@.take(i as int), id),
        decreases n - i,
    {
        proof {
            let next = ids@.take(i + 1);
            assert(next.drop_last() =~= ids@.take(i as int));
            assert(next.last() == ids@[i as int]);
        }
        if ids[i] < id {
            below += 1;
        }
        i += 1;
    }
    assert(ids@.take(n as int) =~= ids@);
    ids.insert(below, id);
}

/// Applies AddContract.
pub fn execute_add_contract(view: &mut DigitalRightsView, tx: &TxAddContract)
    requires
        old(view).wf(),
    ensures
        final(view).wf(),
        final(view)@ == add_contract(old(view)@, *tx),
{
    let id = tx.distributor_id as usize;
    let mut distributor = match view.distributors().get(id) {
        Some(d) => {
            if !d.pub_key.same(&tx.pub_key) {
                return ;
            }
            d.duplicate()
        },
        None => {
            return ;
        },
    };
    let mut content = match view.contents().get(&tx.fingerprint) {
        Some(c) => {
            if contains_id(&c.distributors, tx.distributor_id) {
                return ;
            }
            c.duplicate()
        },
        None => {
            return ;
        },
    };
    assert(contract_accepted(old(view)@, *tx));
    insert_id(&mut content.distributors, tx.distributor_id);
    view.put_content(&tx.fingerprint, content);
    view.add_contract(id, fresh_contract(&tx.fingerprint));
    let root = view.contracts_at(id).root_hash();
    distributor.set_contracts_hash(&root);
    view.set_distributor(id, distributor);
    proof {
        old(view).lemma_wf();
    }
}

/// Whether `p` is the first position in `list` of a contract on `fingerprint`.
pub open spec fn is_first_contract(list: Seq<ContractView>, fingerprint: Seq<u8>, p: int) -> bool {
    &&& 0 <= p < list.len()
    &&& list[p].fingerprint == fingerprint
    &&& forall|j: int| 0 <= j < p ==> (#[trigger] list[j]).fingerprint != fingerprint
}

/// Whether `list` holds a contract on `fingerprint`.
pub open spec fn has_contract(list: Seq<ContractView>, fingerprint: Seq<u8>) -> bool {
    exists|p: int| is_first_contract(list, fingerprint, p)
}

/// The first position in `list` of a contract on `fingerprint`.
pub open spec fn first_contract(list: Seq<ContractView>, fingerprint: Seq<u8>) -> int {
    choose|p: int| is_first_contract(list, fingerprint, p)
}

/// Whether `p` is the first position in `list` of a stake in `fingerprint`.
pub open spec fn is_first_stake(list: Seq<OwnershipView>, fingerprint: Seq<u8>, p: int) -> bool {
    &&& 0 <= p < list.len()
    &&& list[p].fingerprint == fingerprint
    &&& forall|j: int| 0 <= j < p ==> (#[trigger] list[j]).fingerprint != fingerprint
}

/// Whether `list` holds a stake in `fingerprint`.
pub open spec fn has_stake(list: Seq<OwnershipView>, fingerprint: Seq<u8>) -> bool {
    exists|p: int| is_first_stake(list, fingerprint, p)
}

/// The first position in `list` of a stake in `fingerprint`.
pub open spec fn first_stake(list: Seq<OwnershipView>, fingerprint: Seq<u8>) -> int {
    choose|p: int| is_first_stake(list, fingerprint, p)
}

/// The sum of a total and an increment, held at the largest 64-bit value.
pub open spec fn sat_add(total: u64, increment: int) -> u64 {
    if total + increment > u64::MAX {
        u64::MAX
    } else {
        (total + increment) as u64
    }
}

/// The part of `amount` that falls to a share of `percent` percent, rounded down.
pub open spec fn prorated(amount: u64, percent: u16) -> int {
    (amount * percent) / 100
}

/// Whether Report meets its preconditions: the uuid is new, the distributor
/// exists and holds the signing key, the content exists, and the distributor
/// has a contract on it.
pub open spec fn report_accepted(s: RightsState, tx: TxReport) -> bool {
    &&& !s.reports.contains_key(tx.uuid@)
    &&& tx.distributor_id < s.distributors.len()
    &&& tx.distributor_id < s.distributor_contracts.len()
    &&& s.distributors[tx.distributor_id as int].pub_key == tx.pub_key@
    &&& s.contents.contains_key(tx.fingerprint@)
    &&& has_contract(s.distributor_contracts[tx.distributor_id as int], tx.fingerprint@)
}

/// The report record that Report stores.
pub open spec fn report_of(tx: TxReport) -> ReportView {
    ReportView {
        distributor_id: tx.distributor_id,
        fingerprint: tx.fingerprint@,
        uuid: tx.uuid@,
        time: tx.time,
        plays: tx.plays,
        amount: tx.amount,
        comment: tx.comment@,
    }
}

/// Credits one share: the owner's first stake in the content gains the plays
/// and the share's part of the amount, and the owner's ownership hash is
/// brought up to date. An owner without such a stake is left alone.
pub open spec fn credit_one(
    s: RightsState,
    fingerprint: Seq<u8>,
    share: ContentShare,
    plays: u64,
    amount: u64,
) -> RightsState {
    let id = share.owner_id as int;
    if id < s.owners.len() && id < s.owner_contents.len() && has_stake(
        s.owner_contents[id],
        fingerprint,
    ) {
        let p = first_stake(s.owner_contents[id], fingerprint);
        let stake = s.owner_contents[id][p];
        let stakes = s.owner_contents[id].update(
            p,
            OwnershipView {
                plays_total: sat_add(stake.plays_total, plays as int),
                amount_paid: sat_add(stake.amount_paid, prorated(amount, share.share)),
                ..stake
            },
        );
        RightsState {
            owner_contents: s.owner_contents.update(id, stakes),
            owners: s.owners.update(
                id,
                OwnerView { ownership_hash: list_root::<Ownership>(stakes), ..s.owners[id] },
            ),
            ..s
        }
    } else {
        s
    }
}

/// Credits each share in list order.
pub open spec fn credit(
    s: RightsState,
    fingerprint: Seq<u8>,
    shares: Seq<ContentShare>,
    plays: u64,
    amount: u64,
) -> RightsState
    decreases shares.len(),
{
    if shares.len() == 0 {
        s
    } else {
        credit_one(
            credit(s, fingerprint, shares.drop_last(), plays, amount),
            fingerprint,
            shares.last(),
            plays,
            amount,
        )
    }
}

/// The first half of Report: it stores the report, adds the plays and the
/// amount to the distributor's first contract on the content, and brings the
/// distributor's contracts hash up to date.
pub open spec fn charge(s: RightsState, tx: TxReport) -> RightsState {
    let id = tx.distributor_id as int;
    let p = first_contract(s.distributor_contracts[id], tx.fingerprint@);
    let contract = s.distributor_contracts[id][p];
    let contracts = s.distributor_contracts[id].update(
        p,
        ContractView {
            plays_total: sat_add(contract.plays_total, tx.plays as int),
            amount_owed: sat_add(contract.amount_owed, tx.amount as int),
            ..contract
        },
    );
    RightsState {
        reports: s.reports.insert(tx.uuid@, report_of(tx)),
        distributor_contracts: s.distributor_contracts.update(id, contracts),
        distributors: s.distributors.update(
            id,
            DistributorView {
                contracts_hash: list_root::<Contract>(contracts),
                ..s.distributors[id]
            },
        ),
        ..s
    }
}

/// What Report does: nothing unless accepted; else it charges the
/// distributor's contract and credits the content's shares.
pub open spec fn report(s: RightsState, tx: TxReport) -> RightsState {
    if !report_accepted(s, tx) {
        s
    } else {
        credit(
            charge(s, tx),
            tx.fingerprint@,
            s.contents[tx.fingerprint@].shares,
            tx.plays,
            tx.amount,
        )
    }
}

/// Crediting shares touches nothing but the owners and their stakes.
pub proof fn lemma_credit_frame(
    s: RightsState,
    fingerprint: Seq<u8>,
    shares: Seq<ContentShare>,
    plays: u64,
    amount: u64,
)
    ensures
        credit(s, fingerprint, shares, plays, amount).participants == s.participants,
        credit(s, fingerprint, shares, plays, amount).distributors == s.distributors,
        credit(s, fingerprint, shares, plays, amount).contents == s.contents,
        credit(s, fingerprint, shares, plays, amount).fingerprints == s.fingerprints,
        credit(s, fingerprint, shares, plays, amount).reports == s.reports,
        credit(s, fingerprint, shares, plays, amount).distributor_contracts
            == s.distributor_contracts,
    decreases shares.len(),
{
    if shares.len() > 0 {
        lemma_credit_frame(s, fingerprint, shares.drop_last(), plays, amount);
    }
}

/// Adds `increment` to `total`, holding at the largest 64-bit value.
pub fn add_saturating(total: u64, increment: u64) -> (r: u64)
    ensures
        r == sat_add(total, increment as int),
{
    if increment > u64::MAX - total {
        u64::MAX
    } else {
        total + increment
    }
}

/// Adds the prorated part of `amount` to `total`, holding at the largest
/// 64-bit value.
pub fn add_prorated(total: u64, amount: u64, percent: u16) -> (r: u64)
    ensures
        r == sat_add(total, prorated(amount, percent)),
{
    assert(amount * percent <= 0xffff_ffff_ffff_ffff * 0xffff) by (nonlinear_arith)
        requires
            amount <= 0xffff_ffff_ffff_ffff,
            percent <= 0xffff,
    ;
    let part: u128 = (amount as u128 * percent as u128) / 100;
    if part > (u64::MAX - total) as u128 {
        u64::MAX
    } else {
        total + part as u64
    }
}

/// The first position in `list` of a contract on `fingerprint`, if any.
pub fn find_contract(list: &crate::storage::MerkleList<Contract>, fingerprint: &crypto::Hash) -> (r:
    Option<usize>)
    ensures
        r is Some <==> has_contract(list@, fingerprint@),
        r is Some ==> r->0 == first_contract(list@, fingerprint@) && is_first_contract(
            list@,
            fingerprint@,
            r->0 as int,
        ),
{
    let n = list.len();
    let mut i: usize = 0;
    while i < n
        invariant
            i <= n,
            n == list@.len(),
            forall|j: int| 0 <= j < i ==> (#[trigger] list@[j]).fingerprint != fingerprint@,
        decreases n - i,
    {
        if list.get(i).unwrap().fingerprint.same(fingerprint) {
            assert(is_first_contract(list@, fingerprint@, i as int));
            let ghost q = first_contract(list@, fingerprint@);
            assert(is_first_contract(list@, fingerprint@, q));
            assert(q == i) by {
                if q < i {
                    assert(list@[q].fingerprint != fingerprint@);
                }
                if i < q {
                    assert(list@[i as int].fingerprint != fingerprint@);
                }
            }
            return Some(i);
        }
        i += 1;
    }
    assert(!has_contract(list@, fingerprint@)) by {
        if has_contract(list@, fingerprint@) {
            let q = first_contract(list@, fingerprint@);
            assert(list@[q].fingerprint != fingerprint@);
        }
    }
    None
}

/// The first position in `list` of a stake in `fingerprint`, if any.
pub fn find_stake(list: &crate::storage::MerkleList<Ownership>, fingerprint: &crypto::Hash) -> (r:
    Option<usize>)
    ensures
        r is Some <==> has_stake(list@, fingerprint@),
        r is Some ==> r->0 == first_stake(list@, fingerprint@) && is_first_stake(
            list@,
            fingerprint@,
            r->0 as int,
        ),
{
    let n = list.len();
    let mut i: usize = 0;
    while i < n
        invariant
            i <= n,
            n == list@.len(),
            forall|j: int| 0 <= j < i ==> (#[trigger] list@[j]).fingerprint != fingerprint@,
        decreases n - i,
    {
        if list.get(i).unwrap().fingerprint.same(fingerprint) {
            assert(is_first_stake(list@, fingerprint@, i as int));
            let ghost q = first_stake(list@, fingerprint@);
            assert(is_first_stake(list@, fingerprint@, q));
            assert(q == i) by {
                if q < i {
                    assert(list@[q].fingerprint != fingerprint@);
                }
                if i < q {
                    assert(list@[i as int].fingerprint != fingerprint@);
                }
            }
            return Some(i);
        }
        i += 1;
    }
    assert(!has_stake(list@, fingerprint@)) by {
        if has_stake(list@, fingerprint@) {
            let q = first_stake(list@, fingerprint@);
            assert(list@[q].fingerprint != fingerprint@);
        }
    }
    None
}

/// Credits one share of a report to its owner.
fn execute_credit(
    view: &mut DigitalRightsView,
    fingerprint: &crypto::Hash,
    share: ContentShare,
    plays: u64,
    amount: u64,
)
    requires
        old(view).wf(),
    ensures
        final(view).wf(),
        final(view)@ == credit_one(old(view)@, fingerprint@, share, plays, amount),
{
    proof {
        view.lemma_wf();
    }
    let id = share.owner_id as usize;
    if id >= view.owners().len() {
        return ;
    }
    let found = find_stake(view.stakes_at(id), fingerprint);
    match found {
        None => {},
        Some(p) => {
            let stake = *view.stakes_at(id).get(p).unwrap();
            let credited = Ownership {
                fingerprint: stake.fingerprint,
                plays_total: add_saturating(stake.plays_total, plays),
                amount_paid: add_prorated(stake.amount_paid, amount, share.share),
                reports_hash: stake.reports_hash,
            };
            view.set_ownership(id, p, credited);
            let root = view.stakes_at(id).root_hash();
            let mut owner = view.owners().get(id).unwrap().duplicate();
            owner.set_ownership_hash(&root);
            view.set_owner(id, owner);
        },
    }
}

/// Applies Report.
pub fn execute_report(view: &mut DigitalRightsView, tx: &TxReport)
    requires
        old(view).wf(),
    ensures
        final(view).wf(),
        final(view)@ == report(old(view)@, *tx),
{
    proof {
        view.lemma_wf();
    }
    if view.reports().contains_key(&tx.uuid) {
        return ;
    }
    let id = tx.distributor_id as usize;
    let mut distributor = match view.distributors().get(id) {
        Some(d) => {
            if !d.pub_key.same(&tx.pub_key) {
                return ;
            }
            d.duplicate()
        },
        None => {
            return ;
        },
    };
    let shares = match view.contents().get(&tx.fingerprint) {
        Some(c) => copy_shares(&c.shares),
        None => {
            return ;
        },
    };
    let p = match find_contract(view.contracts_at(id), &tx.fingerprint) {
        Some(p) => p,
        None => {
            return ;
        },
    };
    assert(report_accepted(old(view)@, *tx));
    let contract = *view.contracts_at(id).get(p).unwrap();
    let charged = Contract {
        fingerprint: contract.fingerprint,
        plays_total: add_saturating(contract.plays_total, tx.plays),
        amount_owed: add_saturating(contract.amount_owed, tx.amount),
        reports_hash: contract.reports_hash,
    };
    let stored = Report {
        distributor_id: tx.distributor_id,
        fingerprint: tx.fingerprint,
        uuid: tx.uuid,
        time: tx.time,
        plays: tx.plays,
        amount: tx.amount,
        comment: copy_bytes(&tx.comment),
    };
    view.put_report(&tx.uuid, stored);
    view.set_contract(id, p, charged);
    let root = view.contracts_at(id).root_hash();
    distributor.set_contracts_hash(&root);
    view.set_distributor(id, distributor);
    let ghost base = view@;
    let ghost fp = tx.fingerprint@;
    let n = shares.len();
    let mut i: usize = 0;
    assert(shares@.take(0) =~= Seq::<ContentShare>::empty());
    while i < n
        invariant
            i <= n,
            n == shares@.len(),
            view.wf(),
            fp == tx.fingerprint@,
            view@ == credit(base, fp, shares@.take(i as int), tx.plays, tx.amount),
        decreases n - i,
    {
        execute_credit(view, &tx.fingerprint, shares[i], tx.plays, tx.amount);
        proof {
            let next = shares@.take(i + 1);
            assert(next.drop_last() =~= shares@.take(i as int));
            assert(next.last() == shares@[i as int]);
        }
        i += 1;
    }
    assert(shares@.take(n as int) =~= shares@);
}

/// What a transaction does to the registry.
pub open spec fn apply(s: RightsState, tx: DigitalRightsTx) -> RightsState {
    match tx {
        DigitalRightsTx::CreateOwner(tx) => create_owner(s, tx),
        DigitalRightsTx::CreateDistributor(tx) => create_distributor(s, tx),
        DigitalRightsTx::AddContent(tx) => add_content(s, tx),
        DigitalRightsTx::AddContract(tx) => add_contract(s, tx),
        DigitalRightsTx::Report(tx) => report(s, tx),
    }
}

/// What a sequence of transactions does to the registry, applied in order.
pub open spec fn apply_all(s: RightsState, txs: Seq<DigitalRightsTx>) -> RightsState
    decreases txs.len(),
{
    if txs.len() == 0 {
        s
    } else {
        apply(apply_all(s, txs.drop_last()), txs.last())
    }
}

/// The root hashes of the contract lists, in id order, one after the other.
pub open spec fn contract_roots(lists: Seq<Seq<ContractView>>) -> Seq<u8>
    decreases lists.len(),
{
    if lists.len() == 0 {
        Seq::empty()
    } else {
        contract_roots(lists.drop_last()) + list_root::<Contract>(lists.last())
    }
}

/// The root hashes of the stake lists, in id order, one after the other.
pub open spec fn ownership_roots(lists: Seq<Seq<OwnershipView>>) -> Seq<u8>
    decreases lists.len(),
{
    if lists.len() == 0 {
        Seq::empty()
    } else {
        ownership_roots(lists.drop_last()) + list_root::<Ownership>(lists.last())
    }
}

/// The bytes that the state hash digests: the roots of the distributors, the
/// owners and the contents, then of every distributor's contracts and of every
/// owner's stakes, in id order.
pub open spec fn state_preimage(s: RightsState) -> Seq<u8> {
    list_root::<Distributor>(s.distributors) + list_root::<Owner>(s.owners) + map_root::<Content>(
        s.contents,
    ) + contract_roots(s.distributor_contracts) + ownership_roots(s.owner_contents)
}

/// The digest of the whole state.
pub open spec fn state_digest(s: RightsState) -> Seq<u8> {
    digest(state_preimage(s))
}

/// The registry application over its database.
pub struct DigitalRightsBlockchain {
    pub db: MemoryDB,
}

impl DigitalRightsBlockchain {
    /// A registry with nothing committed.
    pub fn new() -> (b: Self)
        ensures
            b.db.wf(),
            b.db@ == crate::view::empty_state(),
    {
        DigitalRightsBlockchain { db: MemoryDB::new() }
    }

    /// Opens a fork on the committed state.
    pub fn view(&self) -> (v: DigitalRightsView)
        requires
            self.db.wf(),
        ensures
            v.wf(),
            v@ == self.db@,
    {
        self.db.fork()
    }

    /// Whether the transaction's signature verifies under its author's key.
    pub fn verify_tx(tx: &DigitalRightsTx) -> (ok: bool)
        ensures
            ok == crypto::signature_valid(tx.author()@, tx.payload(), tx.signed_with()@),
    {
        tx.verify(tx.pub_key())
    }

    /// The digest of the state that `view` holds.
    pub fn state_hash(view: &DigitalRightsView) -> (h: crypto::Hash)
        requires
            view.wf(),
        ensures
            h@ == state_digest(view@),
            h == crypto::hash_of(state_preimage(view@)),
    {
        proof {
            view.lemma_wf();
        }
        let mut b: Vec<u8> = Vec::new();
        crate::codec::put_raw(&mut b, view.distributors().root_hash().bytes.as_slice());
        crate::codec::put_raw(&mut b, view.owners().root_hash().bytes.as_slice());
        crate::codec::put_raw(&mut b, view.contents().root_hash().bytes.as_slice());
        let ghost head = b@;
        let ghost contracts = view@.distributor_contracts;
        let n = view.distributors().len();
        let mut i: usize = 0;
        assert(contracts.take(0) =~= Seq::<Seq<ContractView>>::empty());
        assert(head + contract_roots(contracts.take(0)) =~= head);
        while i < n
            invariant
                i <= n,
                view.wf(),
                n == view@.distributors.len(),
                contracts == view@.distributor_contracts,
                contracts.len() == n,
                b@ == head + contract_roots(contracts.take(i as int)),
            decreases n - i,
        {
            crate::codec::put_raw(&mut b, view.contracts_at(i).root_hash().bytes.as_slice());
            proof {
                let next = contracts.take(i + 1);
                assert(next.drop_last() =~= contracts.take(i as int));
                assert(next.last() == contracts[i as int]);
                assert(b@ =~= head + contract_roots(next));
            }
            i += 1;
        }
        assert(contracts.take(n as int) =~= contracts);
        let ghost middle = b@;
        let ghost stakes = view@.owner_contents;
        let m = view.owners().len();
        let mut k: usize = 0;
        assert(stakes.take(0) =~= Seq::<Seq<OwnershipView>>::empty());
        assert(middle + ownership_roots(stakes.take(0)) =~= middle);
        while k < m
            invariant
                k <= m,
                view.wf(),
                m == view@.owners.len(),
                stakes == view@.owner_contents,
                stakes.len() == m,
                b@ == middle + ownership_roots(stakes.take(k as int)),
            decreases m - k,
        {
            crate::codec::put_raw(&mut b, view.stakes_at(k).root_hash().bytes.as_slice());
            proof {
                let next = stakes.take(k + 1);
                assert(next.drop_last() =~= stakes.take(k as int));
                assert(next.last() == stakes[k as int]);
                assert(b@ =~= middle + ownership_roots(next));
            }
            k += 1;
        }
        assert(stakes.take(m as int) =~= stakes);
        assert(b@ =~= state_preimage(view@));
        crypto::hash(b.as_slice())
    }

    /// Applies a transaction to the registry. A transaction whose
    /// preconditions fail leaves the registry as it was. A consistent
    /// registry stays consistent.
    pub fn execute(view: &mut DigitalRightsView, tx: &DigitalRightsTx)
        requires
            old(view).wf(),
        ensures
            final(view).wf(),
            final(view)@ == apply(old(view)@, *tx),
            crate::invariants::consistent(old(view)@) ==> crate::invariants::consistent(
                final(view)@,
            ),
    {
        proof {
            if crate::invariants::consistent(view@) {
                crate::invariants::lemma_apply_keeps(view@, *tx);
            }
        }
        match tx {
            DigitalRightsTx::CreateOwner(tx) => execute_create_owner(view, tx),
            DigitalRightsTx::CreateDistributor(tx) => execute_create_distributor(view, tx),
            DigitalRightsTx::AddContent(tx) => execute_add_content(view, tx),
            DigitalRightsTx::AddContract(tx) => execute_add_contract(view, tx),
            DigitalRightsTx::Report(tx) => execute_report(view, tx),
        }
    }

    /// Makes the contents of `fork` the committed state.
    pub fn merge(&mut self, fork: DigitalRightsView)
        requires
            fork.wf(),
        ensures
            final(self).db.wf(),
            final(self).db@ == fork@,
    {
        self.db.merge(fork);
    }

    /// The state hash of the registry that the transactions `txs`, applied
    /// in order to an empty registry, lead to.
    pub fn replay(txs: &Vec<DigitalRightsTx>) -> (h: crypto::Hash)
        ensures
            h@ == state_digest(apply_all(crate::view::empty_state(), txs@)),
            crate::invariants::consistent(apply_all(crate::view::empty_state(), txs@)),
    {
        let mut view = DigitalRightsView::new();
        let n = txs.len();
        let mut i: usize = 0;
        assert(txs@.take(0) =~= Seq::<DigitalRightsTx>::empty());
        while i < n
            invariant
                i <= n,
                n == txs@.len(),
                view.wf(),
                view@ == apply_all(crate::view::empty_state(), txs@.take(i as int)),
            decreases n - i,
        {
            proof {
                let next = txs@.take(i + 1);
                assert(next.drop_last() =~= txs@.take(i as int));
                assert(next.last() == txs@[i as int]);
            }
            Self::execute(&mut view, &txs[i]);
            i += 1;
        }
        assert(txs@.take(n as int) =~= txs@);
        proof {
            crate::invariants::lemma_reachable_consistent(txs@);
        }
        Self::state_hash(&view)
    }
}

} // verus!
