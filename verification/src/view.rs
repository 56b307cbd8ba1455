//! The typed schema of the rights registry over the authenticated collections,
//! and the in-memory database that holds the committed state.

use crate::crypto;
use crate::crypto::PublicKey;
use crate::records::{
    Content, ContentView, Contract, ContractView, Distributor, DistributorView, Owner, OwnerView,
    Ownership, OwnershipView, Participant, Report, ReportView,
};
use crate::storage::{MerkleList, MerkleMap};
use vstd::prelude::*;

verus! {

/// The contents of the registry as mathematical values.
pub struct RightsState {
    /// Public key to role and id.
    pub participants: Map<Seq<u8>, Participant>,
    /// Owners by id.
    pub owners: Seq<OwnerView>,
    /// Distributors by id.
    pub distributors: Seq<DistributorView>,
    /// Fingerprint to content.
    pub contents: Map<Seq<u8>, ContentView>,
    /// Every content's fingerprint, in the order of registration.
    pub fingerprints: Seq<Seq<u8>>,
    /// Uuid to report.
    pub reports: Map<Seq<u8>, ReportView>,
    /// For each owner id, the owner's stakes.
    pub owner_contents: Seq<Seq<OwnershipView>>,
    /// For each distributor id, the distributor's contracts.
    pub distributor_contracts: Seq<Seq<ContractView>>,
}

/// The registry before any transaction.
pub open spec fn empty_state() -> RightsState {
    RightsState {
        participants: Map::empty(),
        owners: Seq::empty(),
        distributors: Seq::empty(),
        contents: Map::empty(),
        fingerprints: Seq::empty(),
        reports: Map::empty(),
        owner_contents: Seq::empty(),
        distributor_contracts: Seq::empty(),
    }
}

/// The stakes of the owner `id`; none for an id that is not assigned.
pub open spec fn ownerships_of(s: RightsState, id: int) -> Seq<OwnershipView> {
    if 0 <= id < s.owner_contents.len() {
        s.owner_contents[id]
    } else {
        Seq::empty()
    }
}

/// The contracts of the distributor `id`; none for an id that is not assigned.
pub open spec fn contracts_of(s: RightsState, id: int) -> Seq<ContractView> {
    if 0 <= id < s.distributor_contracts.len() {
        s.distributor_contracts[id]
    } else {
        Seq::empty()
    }
}

/// A view of the registry: the named collections of the schema.
pub struct DigitalRightsView {
    participants: MerkleMap<Participant>,
    owners: MerkleList<Owner>,
    distributors: MerkleList<Distributor>,
    contents: MerkleMap<Content>,
    fingerprints: MerkleList<crypto::Hash>,
    reports: MerkleMap<Report>,
    owner_contents: Vec<MerkleList<Ownership>>,
    distributor_contracts: Vec<MerkleList<Contract>>,
    no_ownerships: MerkleList<Ownership>,
    no_contracts: MerkleList<Contract>,
}

impl View for DigitalRightsView {
    type V = RightsState;

    closed spec fn view(&self) -> RightsState {
        RightsState {
            participants: self.participants@,
            owners: self.owners@,
            distributors: self.distributors@,
            contents: self.contents@,
            fingerprints: self.fingerprints@,
            reports: self.reports@,
            owner_contents: Seq::new(
                self.owner_contents@.len(),
                |i: int| self.owner_contents@[i]@,
            ),
            distributor_contracts: Seq::new(
                self.distributor_contracts@.len(),
                |i: int| self.distributor_contracts@[i]@,
            ),
        }
    }
}

impl DigitalRightsView {
    /// The representation invariant: the maps are well formed and there is one
    /// list of stakes per owner and one list of contracts per distributor.
    pub closed spec fn wf(&self) -> bool {
        &&& self.participants.wf()
        &&& self.contents.wf()
        &&& self.reports.wf()
        &&& self.owner_contents@.len() == self.owners@.len()
        &&& self.distributor_contracts@.len() == self.distributors@.len()
        &&& self.no_ownerships@.len() == 0
        &&& self.no_contracts@.len() == 0
    }

    /// What the representation invariant says of the view.
    pub proof fn lemma_wf(&self)
        requires
            self.wf(),
        ensures
            self@.owner_contents.len() == self@.owners.len(),
            self@.distributor_contracts.len() == self@.distributors.len(),
    {
    }

    /// An empty registry.
    pub fn new() -> (v: Self)
        ensures
            v.wf(),
            v@ == empty_state(),
    {
        let v = DigitalRightsView {
            participants: MerkleMap::new(),
            owners: MerkleList::new(),
            distributors: MerkleList::new(),
            contents: MerkleMap::new(),
            fingerprints: MerkleList::new(),
            reports: MerkleMap::new(),
            owner_contents: Vec::new(),
            distributor_contracts: Vec::new(),
            no_ownerships: MerkleList::new(),
            no_contracts: MerkleList::new(),
        };
        assert(v@.owner_contents =~= Seq::empty());
        assert(v@.distributor_contracts =~= Seq::empty());
        v
    }

    /// The participant index.
    pub fn participants(&self) -> (r: &MerkleMap<Participant>)
        requires
            self.wf(),
        ensures
            r.wf(),
            r@ == self@.participants,
    {
        &self.participants
    }

    /// The owners, by id.
    pub fn owners(&self) -> (r: &MerkleList<Owner>)
        ensures
            r@ == self@.owners,
    {
        &self.owners
    }

    /// The distributors, by id.
    pub fn distributors(&self) -> (r: &MerkleList<Distributor>)
        ensures
            r@ == self@.distributors,
    {
        &self.distributors
    }

    /// The contents, by fingerprint.
    pub fn contents(&self) -> (r: &MerkleMap<Content>)
        requires
            self.wf(),
        ensures
            r.wf(),
            r@ == self@.contents,
    {
        &self.contents
    }

    /// The fingerprints in the order of registration.
    pub fn fingerprints(&self) -> (r: &MerkleList<crypto::Hash>)
        ensures
            r@ == self@.fingerprints,
    {
        &self.fingerprints
    }

    /// The reports, by uuid.
    pub fn reports(&self) -> (r: &MerkleMap<Report>)
        requires
            self.wf(),
        ensures
            r.wf(),
            r@ == self@.reports,
    {
        &self.reports
    }

    /// The stakes of the owner `id`.
    pub fn owner_contents(&self, id: u16) -> (r: &MerkleList<Ownership>)
        requires
            self.wf(),
        ensures
            r@ == ownerships_of(self@, id as int),
    {
        if (id as usize) < self.owner_contents.len() {
            &self.owner_contents[id as usize]
        } else {
            assert(self.no_ownerships@ =~= Seq::empty());
            &self.no_ownerships
        }
    }

    /// The contracts of the distributor `id`.
    pub fn distributor_contracts(&self, id: u16) -> (r: &MerkleList<Contract>)
        requires
            self.wf(),
        ensures
            r@ == contracts_of(self@, id as int),
    {
        if (id as usize) < self.distributor_contracts.len() {
            &self.distributor_contracts[id as usize]
        } else {
            assert(self.no_contracts@ =~= Seq::empty());
            &self.no_contracts
        }
    }

    /// The stakes of the owner at position `index`.
    pub fn stakes_at(&self, index: usize) -> (r: &MerkleList<Ownership>)
        requires
            self.wf(),
            index < self@.owners.len(),
        ensures
            r@ == self@.owner_contents[index as int],
    {
        &self.owner_contents[index]
    }

    /// The contracts of the distributor at position `index`.
    pub fn contracts_at(&self, index: usize) -> (r: &MerkleList<Contract>)
        requires
            self.wf(),
            index < self@.distributors.len(),
        ensures
            r@ == self@.distributor_contracts[index as int],
    {
        &self.distributor_contracts[index]
    }

    /// Records the role and id of a public key.
    pub fn register(&mut self, key: &PublicKey, entry: Participant)
        requires
            old(self).wf(),
        ensures
            final(self).wf(),
            final(self)@ == (RightsState {
                participants: old(self)@.participants.insert(key@, entry),
                ..old(self)@
            }),
    {
        self.participants.put(key.as_key(), entry);
        assert(self@.owner_contents =~= old(self)@.owner_contents);
        assert(self@.distributor_contracts =~= old(self)@.distributor_contracts);
    }

    /// Appends an owner, with no stakes yet.
    pub fn add_owner(&mut self, owner: Owner)
        requires
            old(self).wf(),
        ensures
            final(self).wf(),
            final(self)@ == (RightsState {
                owners: old(self)@.owners.push(owner@),
                owner_contents: old(self)@.owner_contents.push(Seq::empty()),
                ..old(self)@
            }),
    {
        self.owners.append(owner);
        self.owner_contents.push(MerkleList::new());
        assert(self@.owner_contents =~= old(self)@.owner_contents.push(Seq::empty()));
        assert(self@.distributor_contracts =~= old(self)@.distributor_contracts);
    }

    /// Appends a distributor, with no contracts yet.
    pub fn add_distributor(&mut self, distributor: Distributor)
        requires
            old(self).wf(),
        ensures
            final(self).wf(),
            final(self)@ == (RightsState {
                distributors: old(self)@.distributors.push(distributor@),
                distributor_contracts: old(self)@.distributor_contracts.push(Seq::empty()),
                ..old(self)@
            }),
    {
        self.distributors.append(distributor);
        self.distributor_contracts.push(MerkleList::new());
        assert(self@.distributor_contracts =~= old(self)@.distributor_contracts.push(
            Seq::empty(),
        ));
        assert(self@.owner_contents =~= old(self)@.owner_contents);
    }

    /// Stores a content under its fingerprint.
    pub fn put_content(&mut self, fingerprint: &crypto::Hash, content: Content)
        requires
            old(self).wf(),
        ensures
            final(self).wf(),
            final(self)@ == (RightsState {
                contents: old(self)@.contents.insert(fingerprint@, content@),
                ..old(self)@
            }),
    {
        self.contents.put(*fingerprint, content);
        assert(self@.owner_contents =~= old(self)@.owner_contents);
        assert(self@.distributor_contracts =~= old(self)@.distributor_contracts);
    }

    /// Appends a fingerprint to the enumeration of contents.
    pub fn add_fingerprint(&mut self, fingerprint: &crypto::Hash)
        requires
            old(self).wf(),
        ensures
            final(self).wf(),
            final(self)@ == (RightsState {
                fingerprints: old(self)@.fingerprints.push(fingerprint@),
                ..old(self)@
            }),
    {
        self.fingerprints.append(*fingerprint);
        assert(self@.owner_contents =~= old(self)@.owner_contents);
        assert(self@.distributor_contracts =~= old(self)@.distributor_contracts);
    }

    /// Stores a report under its uuid.
    pub fn put_report(&mut self, uuid: &crypto::Hash, report: Report)
        requires
            old(self).wf(),
        ensures
            final(self).wf(),
            final(self)@ == (RightsState {
                reports: old(self)@.reports.insert(uuid@, report@),
                ..old(self)@
            }),
    {
        self.reports.put(*uuid, report);
        assert(self@.owner_contents =~= old(self)@.owner_contents);
        assert(self@.distributor_contracts =~= old(self)@.distributor_contracts);
    }

    /// Replaces the record of the owner at `index`.
    pub fn set_owner(&mut self, index: usize, owner: Owner)
        requires
            old(self).wf(),
            index < old(self)@.owners.len(),
        ensures
            final(self).wf(),
            final(self)@ == (RightsState {
                owners: old(self)@.owners.update(index as int, owner@),
                ..old(self)@
            }),
    {
        self.owners.set(index, owner);
        assert(self@.owner_contents =~= old(self)@.owner_contents);
        assert(self@.distributor_contracts =~= old(self)@.distributor_contracts);
    }

    /// Replaces the record of the distributor at `index`.
    pub fn set_distributor(&mut self, index: usize, distributor: Distributor)
        requires
            old(self).wf(),
            index < old(self)@.distributors.len(),
        ensures
            final(self).wf(),
            final(self)@ == (RightsState {
                distributors: old(self)@.distributors.update(index as int, distributor@),
                ..old(self)@
            }),
    {
        self.distributors.set(index, distributor);
        assert(self@.owner_contents =~= old(self)@.owner_contents);
        assert(self@.distributor_contracts =~= old(self)@.distributor_contracts);
    }

    /// Appends a stake to the list of the owner at `index`.
    pub fn add_ownership(&mut self, index: usize, ownership: Ownership)
        requires
            old(self).wf(),
            index < old(self)@.owners.len(),
        ensures
            final(self).wf(),
            final(self)@ == (RightsState {
                owner_contents: old(self)@.owner_contents.update(
                    index as int,
                    old(self)@.owner_contents[index as int].push(ownership@),
                ),
                ..old(self)@
            }),
    {
        self.owner_contents[index].append(ownership);
        assert(self@.owner_contents =~= old(self)@.owner_contents.update(
            index as int,
            old(self)@.owner_contents[index as int].push(ownership@),
        ));
        assert(self@.distributor_contracts =~= old(self)@.distributor_contracts);
    }

    /// Appends a contract to the list of the distributor at `index`.
    pub fn add_contract(&mut self, index: usize, contract: Contract)
        requires
            old(self).wf(),
            index < old(self)@.distributors.len(),
        ensures
            final(self).wf(),
            final(self)@ == (RightsState {
                distributor_contracts: old(self)@.distributor_contracts.update(
                    index as int,
                    old(self)@.distributor_contracts[index as int].push(contract@),
                ),
                ..old(self)@
            }),
    {
        self.distributor_contracts[index].append(contract);
        assert(self@.distributor_contracts =~= old(self)@.distributor_contracts.update(
            index as int,
            old(self)@.distributor_contracts[index as int].push(contract@),
        ));
        assert(self@.owner_contents =~= old(self)@.owner_contents);
    }

    /// Replaces the stake at `position` in the list of the owner at `index`.
    pub fn set_ownership(&mut self, index: usize, position: usize, ownership: Ownership)
        requires
            old(self).wf(),
            index < old(self)@.owners.len(),
            position < old(self)@.owner_contents[index as int].len(),
        ensures
            final(self).wf(),
            final(self)@ == (RightsState {
                owner_contents: old(self)@.owner_contents.update(
                    index as int,
                    old(self)@.owner_contents[index as int].update(position as int, ownership@),
                ),
                ..old(self)@
            }),
    {
        self.owner_contents[index].set(position, ownership);
        assert(self@.owner_contents =~= old(self)@.owner_contents.update(
            index as int,
            old(self)@.owner_contents[index as int].update(position as int, ownership@),
        ));
        assert(self@.distributor_contracts =~= old(self)@.distributor_contracts);
    }

    /// Replaces the contract at `position` in the list of the distributor at `index`.
    pub fn set_contract(&mut self, index: usize, position: usize, contract: Contract)
        requires
            old(self).wf(),
            index < old(self)@.distributors.len(),
            position < old(self)@.distributor_contracts[index as int].len(),
        ensures
            final(self).wf(),
            final(self)@ == (RightsState {
                distributor_contracts: old(self)@.distributor_contracts.update(
                    index as int,
                    old(self)@.distributor_contracts[index as int].update(
                        position as int,
                        contract@,
                    ),
                ),
                ..old(self)@
            }),
    {
        self.distributor_contracts[index].set(position, contract);
        assert(self@.distributor_contracts =~= old(self)@.distributor_contracts.update(
            index as int,
            old(self)@.distributor_contracts[index as int].update(position as int, contract@),
        ));
        assert(self@.owner_contents =~= old(self)@.owner_contents);
    }

    /// A copy of the whole registry.
    pub fn duplicate(&self) -> (out: Self)
        requires
            self.wf(),
        ensures
            out.wf(),
            out@ == self@,
    {
        let mut owner_contents: Vec<MerkleList<Ownership>> = Vec::new();
        let n = self.owner_contents.len();
        let mut i: usize = 0;
        while i < n
            invariant
                i <= n,
                n == self.owner_contents@.len(),
                owner_contents@.len() == i,
                forall|j: int| 0 <= j < i ==> owner_contents@[j]@ == self.owner_contents@[j]@,
            decreases n - i,
        {
            owner_contents.push(self.owner_contents[i].duplicate());
            i += 1;
        }
        let mut distributor_contracts: Vec<MerkleList<Contract>> = Vec::new();
        let m = self.distributor_contracts.len();
        let mut k: usize = 0;
        while k < m
            invariant
                k <= m,
                m == self.distributor_contracts@.len(),
                distributor_contracts@.len() == k,
                forall|j: int|
                    0 <= j < k ==> distributor_contracts@[j]@ == self.distributor_contracts@[j]@,
            decreases m - k,
        {
            distributor_contracts.push(self.distributor_contracts[k].duplicate());
            k += 1;
        }
        let out = DigitalRightsView {
            participants: self.participants.duplicate(),
            owners: self.owners.duplicate(),
            distributors: self.distributors.duplicate(),
            contents: self.contents.duplicate(),
            fingerprints: self.fingerprints.duplicate(),
            reports: self.reports.duplicate(),
            owner_contents,
            distributor_contracts,
            no_ownerships: MerkleList::new(),
            no_contracts: MerkleList::new(),
        };
        assert(out@.owner_contents =~= self@.owner_contents);
        assert(out@.distributor_contracts =~= self@.distributor_contracts);
        out
    }
}

/// The in-memory database: it holds the committed registry. A fork is a
/// private copy that sees everything committed so far; merging a fork makes
/// its contents the committed state at once, dropping it leaves no trace.
pub struct MemoryDB {
    committed: DigitalRightsView,
}

impl View for MemoryDB {
    type V = RightsState;

    closed spec fn view(&self) -> RightsState {
        self.committed@
    }
}

impl MemoryDB {
    /// The representation invariant of the committed registry.
    pub closed spec fn wf(&self) -> bool {
        self.committed.wf()
    }

    /// A database with nothing committed.
    pub fn new() -> (db: Self)
        ensures
            db.wf(),
            db@ == empty_state(),
    {
        MemoryDB { committed: DigitalRightsView::new() }
    }

    /// Opens a fork on the committed state.
    pub fn fork(&self) -> (fork: DigitalRightsView)
        requires
            self.wf(),
        ensures
            fork.wf(),
            fork@ == self@,
    {
        self.committed.duplicate()
    }

    /// Makes the contents of `fork` the committed state.
    pub fn merge(&mut self, fork: DigitalRightsView)
        requires
            fork.wf(),
        ensures
            final(self).wf(),
            final(self)@ == fork@,
    {
        self.committed = fork;
    }

    /// The committed registry.
    pub fn committed(&self) -> (r: &DigitalRightsView)
        requires
            self.wf(),
        ensures
            r.wf(),
            r@ == self@,
    {
        &self.committed
    }
}

} // verus!
