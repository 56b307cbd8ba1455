//! What a node remembers while it works on one height: the validator set, the
//! round, its lock, the proposals and votes it has seen, the messages that
//! came too early, the pending transactions and the blocks it has executed.

use crate::crypto;
use crate::crypto::PublicKey;
use crate::messages::{ConsensusMessage, Precommit, Prevote};
use crate::txs::DigitalRightsTx;
use crate::view::{DigitalRightsView, RightsState};
use vstd::prelude::*;

verus! {

/// What a node keeps of a proposal: the hash by which it is known, its
/// round, and the hashes of its transactions.
#[derive(Debug)]
pub struct Proposal {
    pub hash: crypto::Hash,
    pub round: u32,
    pub transactions: Vec<crypto::Hash>,
}

/// What a kept proposal holds.
pub struct ProposalView {
    pub hash: crypto::Hash,
    pub round: u32,
    pub transactions: Seq<crypto::Hash>,
}

impl View for Proposal {
    type V = ProposalView;

    open spec fn view(&self) -> ProposalView {
        ProposalView { hash: self.hash, round: self.round, transactions: self.transactions@ }
    }
}

/// A pending transaction and its hash.
#[derive(Debug)]
pub struct PoolEntry {
    pub hash: crypto::Hash,
    pub tx: DigitalRightsTx,
}

/// A block that was executed on a fork: the state hash it led to and the
/// fork that holds the result.
pub struct Executed {
    pub block_hash: crypto::Hash,
    pub state_hash: crypto::Hash,
    pub fork: DigitalRightsView,
}

/// What an executed block holds.
pub struct ExecutedView {
    pub block_hash: crypto::Hash,
    pub state_hash: crypto::Hash,
    pub state: RightsState,
}

/// The consensus state as mathematical values.
pub struct StateView {
    /// This node's validator id.
    pub id: u32,
    /// The validators' public keys, by id.
    pub validators: Seq<PublicKey>,
    /// The number of blocks committed so far.
    pub height: u64,
    /// The current round at the height being decided.
    pub round: u32,
    /// The hash of the last committed block.
    pub prev_hash: crypto::Hash,
    /// The round of the lock; 0 when not locked.
    pub locked_round: u32,
    /// The block of the lock.
    pub locked_block_hash: crypto::Hash,
    /// The proposals seen at this height.
    pub proposals: Seq<ProposalView>,
    /// The prevotes seen at this height, each at most once.
    pub prevotes: Seq<Prevote>,
    /// The precommits seen at this height, each at most once.
    pub precommits: Seq<Precommit>,
    /// Messages that arrived before their height or round.
    pub queued: Seq<ConsensusMessage>,
    /// The pending transactions.
    pub pool: Seq<PoolEntry>,
    /// The blocks executed at this height.
    pub executed: Seq<ExecutedView>,
}

/// The Byzantine quorum among `n` validators: strictly more than two thirds.
pub open spec fn majority(n: int) -> int {
    2 * n / 3 + 1
}

/// The leader of `round` when `height` blocks are committed.
pub open spec fn leader_of(s: StateView, round: u32) -> int {
    (s.height + round) % (s.validators.len() as int)
}

/// Whether two prevotes are the same vote: same validator, round and block.
pub open spec fn same_prevote(a: Prevote, b: Prevote) -> bool {
    a.validator == b.validator && a.round == b.round && a.block_hash == b.block_hash
}

/// Whether two precommits are the same vote: same validator, round, block and state.
pub open spec fn same_precommit(a: Precommit, b: Precommit) -> bool {
    a.validator == b.validator && a.round == b.round && a.block_hash == b.block_hash
        && a.state_hash == b.state_hash
}

/// Whether `votes` holds the vote `v`.
pub open spec fn holds_prevote(votes: Seq<Prevote>, v: Prevote) -> bool {
    exists|i: int| 0 <= i < votes.len() && same_prevote(#[trigger] votes[i], v)
}

/// Whether `votes` holds the vote `v`.
pub open spec fn holds_precommit(votes: Seq<Precommit>, v: Precommit) -> bool {
    exists|i: int| 0 <= i < votes.len() && same_precommit(#[trigger] votes[i], v)
}

/// The votes after `v` arrived: unchanged if the vote was there.
pub open spec fn with_prevote(votes: Seq<Prevote>, v: Prevote) -> Seq<Prevote> {
    if holds_prevote(votes, v) {
        votes
    } else {
        votes.push(v)
    }
}

/// The votes after `v` arrived: unchanged if the vote was there.
pub open spec fn with_precommit(votes: Seq<Precommit>, v: Precommit) -> Seq<Precommit> {
    if holds_precommit(votes, v) {
        votes
    } else {
        votes.push(v)
    }
}

/// The prevotes after `v` arrived: unchanged if the vote was there or its
/// sender is no validator.
pub open spec fn tally_prevote(s: StateView, v: Prevote) -> Seq<Prevote> {
    if v.validator < s.validators.len() {
        with_prevote(s.prevotes, v)
    } else {
        s.prevotes
    }
}

/// The precommits after `v` arrived: unchanged if the vote was there or its
/// sender is no validator.
pub open spec fn tally_precommit(s: StateView, v: Precommit) -> Seq<Precommit> {
    if v.validator < s.validators.len() {
        with_precommit(s.precommits, v)
    } else {
        s.precommits
    }
}

/// Whether no vote stands twice in a list of prevotes.
pub open spec fn prevotes_once(votes: Seq<Prevote>) -> bool {
    forall|i: int, j: int|
        0 <= i < j < votes.len() ==> !same_prevote(#[trigger] votes[i], #[trigger] votes[j])
}

/// Whether no vote stands twice in a list of precommits.
pub open spec fn precommits_once(votes: Seq<Precommit>) -> bool {
    forall|i: int, j: int|
        0 <= i < j < votes.len() ==> !same_precommit(#[trigger] votes[i], #[trigger] votes[j])
}

/// Whether the tallies are sound: every vote counted was cast by a
/// validator, and none is counted twice.
pub open spec fn tallies_sound(s: StateView) -> bool {
    &&& prevotes_once(s.prevotes)
    &&& precommits_once(s.precommits)
    &&& forall|i: int|
        0 <= i < s.prevotes.len() ==> (#[trigger] s.prevotes[i]).validator < s.validators.len()
    &&& forall|i: int|
        0 <= i < s.precommits.len() ==> (#[trigger] s.precommits[i]).validator
            < s.validators.len()
}

/// The validators that prevoted for `block` in `round`.
pub open spec fn prevoters(votes: Seq<Prevote>, round: u32, block: crypto::Hash) -> Set<int> {
    Set::new(
        |id: int|
            exists|i: int|
                0 <= i < votes.len() && (#[trigger] votes[i]).validator == id && votes[i].round
                    == round && votes[i].block_hash == block,
    )
}

/// The validators that precommitted for `block` and `state` in `round`.
pub open spec fn precommitters(
    votes: Seq<Precommit>,
    round: u32,
    block: crypto::Hash,
    state: crypto::Hash,
) -> Set<int> {
    Set::new(
        |id: int|
            exists|i: int|
                0 <= i < votes.len() && (#[trigger] votes[i]).validator == id && votes[i].round
                    == round && votes[i].block_hash == block && votes[i].state_hash == state,
    )
}

/// The number of prevotes for `block` in `round`.
pub open spec fn count_prevotes(votes: Seq<Prevote>, round: u32, block: crypto::Hash) -> int
    decreases votes.len(),
{
    if votes.len() == 0 {
        0
    } else {
        count_prevotes(votes.drop_last(), round, block) + if votes.last().round == round
            && votes.last().block_hash == block {
            1int
        } else {
            0int
        }
    }
}

/// The number of precommits for `block` and `state` in `round`.
pub open spec fn count_precommits(
    votes: Seq<Precommit>,
    round: u32,
    block: crypto::Hash,
    state: crypto::Hash,
) -> int
    decreases votes.len(),
{
    if votes.len() == 0 {
        0
    } else {
        count_precommits(votes.drop_last(), round, block, state) + if votes.last().round == round
            && votes.last().block_hash == block && votes.last().state_hash == state {
            1int
        } else {
            0int
        }
    }
}

/// Whether a quorum has prevoted for `block` in `round`.
pub open spec fn majority_prevotes(s: StateView, round: u32, block: crypto::Hash) -> bool {
    count_prevotes(s.prevotes, round, block) >= majority(s.validators.len() as int)
}

/// Whether a quorum has precommitted for `block` and `state` in `round`.
pub open spec fn majority_precommits(
    s: StateView,
    round: u32,
    block: crypto::Hash,
    state: crypto::Hash,
) -> bool {
    count_precommits(s.precommits, round, block, state) >= majority(s.validators.len() as int)
}

/// Whether this node has prevoted in `round`.
pub open spec fn own_prevote_in(s: StateView, round: u32) -> bool {
    exists|i: int|
        0 <= i < s.prevotes.len() && (#[trigger] s.prevotes[i]).validator == s.id
            && s.prevotes[i].round == round
}

/// Whether this node has prevoted, in a round after its lock, for a block
/// other than the one it is locked on.
pub open spec fn incompatible_prevotes(s: StateView) -> bool {
    exists|i: int|
        0 <= i < s.prevotes.len() && (#[trigger] s.prevotes[i]).validator == s.id
            && s.prevotes[i].round > s.locked_round && s.prevotes[i].block_hash
            != s.locked_block_hash
}

/// Whether `i` is the first position of a proposal known by `hash`.
pub open spec fn is_first_proposal(
    proposals: Seq<ProposalView>,
    hash: crypto::Hash,
    i: int,
) -> bool {
    &&& 0 <= i < proposals.len()
    &&& proposals[i].hash == hash
    &&& forall|j: int| 0 <= j < i ==> (#[trigger] proposals[j]).hash != hash
}

/// The first proposal known by `hash`.
pub open spec fn proposal_of(s: StateView, hash: crypto::Hash) -> ProposalView {
    s.proposals[choose|i: int| is_first_proposal(s.proposals, hash, i)]
}

/// Whether `i` is the first position of the executed block `hash`.
pub open spec fn is_first_executed(
    executed: Seq<ExecutedView>,
    hash: crypto::Hash,
    i: int,
) -> bool {
    &&& 0 <= i < executed.len()
    &&& executed[i].block_hash == hash
    &&& forall|j: int| 0 <= j < i ==> (#[trigger] executed[j]).block_hash != hash
}

/// The first cache entry of the executed block `hash`.
pub open spec fn executed_of(s: StateView, hash: crypto::Hash) -> ExecutedView {
    s.executed[choose|i: int| is_first_executed(s.executed, hash, i)]
}

/// Whether `i` is the first position in the pool of a transaction with `hash`.
pub open spec fn is_first_in_pool(pool: Seq<PoolEntry>, hash: crypto::Hash, i: int) -> bool {
    &&& 0 <= i < pool.len()
    &&& pool[i].hash == hash
    &&& forall|j: int| 0 <= j < i ==> (#[trigger] pool[j]).hash != hash
}

/// The first pending transaction with `hash`.
pub open spec fn pooled_tx(pool: Seq<PoolEntry>, hash: crypto::Hash) -> DigitalRightsTx {
    pool[choose|i: int| is_first_in_pool(pool, hash, i)].tx
}

/// Whether a proposal is known by `hash`.
pub open spec fn knows_proposal(s: StateView, hash: crypto::Hash) -> bool {
    exists|i: int| 0 <= i < s.proposals.len() && (#[trigger] s.proposals[i]).hash == hash
}

/// Whether the pool holds a transaction with `hash`.
pub open spec fn pool_has(pool: Seq<PoolEntry>, hash: crypto::Hash) -> bool {
    exists|i: int| 0 <= i < pool.len() && (#[trigger] pool[i]).hash == hash
}

/// Whether the block `hash` has been executed.
pub open spec fn was_executed(executed: Seq<ExecutedView>, hash: crypto::Hash) -> bool {
    exists|i: int| 0 <= i < executed.len() && (#[trigger] executed[i]).block_hash == hash
}

/// The hashes of the pending transactions, in pool order.
pub open spec fn pool_hashes(pool: Seq<PoolEntry>) -> Seq<crypto::Hash> {
    Seq::new(pool.len(), |i: int| pool[i].hash)
}

/// The state when the node starts: nothing committed, round 1, no lock.
pub open spec fn initial_state(
    id: u32,
    validators: Seq<PublicKey>,
    prev_hash: crypto::Hash,
) -> StateView {
    StateView {
        id,
        validators,
        height: 0,
        round: 1,
        prev_hash,
        locked_round: 0,
        locked_block_hash: prev_hash,
        proposals: Seq::empty(),
        prevotes: Seq::empty(),
        precommits: Seq::empty(),
        queued: Seq::empty(),
        pool: Seq::empty(),
        executed: Seq::empty(),
    }
}

/// The state after a block was committed: the next height starts at round 1
/// without a lock, and the proposals, votes and executed blocks of the old
/// height are gone.
pub open spec fn at_new_height(s: StateView, block_hash: crypto::Hash) -> StateView {
    StateView {
        height: (s.height + 1) as u64,
        round: 1,
        prev_hash: block_hash,
        locked_round: 0,
        proposals: Seq::empty(),
        prevotes: Seq::empty(),
        precommits: Seq::empty(),
        executed: Seq::empty(),
        ..s
    }
}

/// The consensus state of a node.
pub struct State {
    id: u32,
    validators: Vec<PublicKey>,
    height: u64,
    round: u32,
    prev_hash: crypto::Hash,
    locked_round: u32,
    locked_block_hash: crypto::Hash,
    proposals: Vec<Proposal>,
    prevotes: Vec<Prevote>,
    precommits: Vec<Precommit>,
    queued: Vec<ConsensusMessage>,
    pool: Vec<PoolEntry>,
    executed: Vec<Executed>,
}

impl View for State {
    type V = StateView;

    closed spec fn view(&self) -> StateView {
        StateView {
            id: self.id,
            validators: self.validators@,
            height: self.height,
            round: self.round,
            prev_hash: self.prev_hash,
            locked_round: self.locked_round,
            locked_block_hash: self.locked_block_hash,
            proposals: Seq::new(self.proposals@.len(), |i: int| self.proposals@[i]@),
            prevotes: self.prevotes@,
            precommits: self.precommits@,
            queued: self.queued@,
            pool: self.pool@,
            executed: Seq::new(
                self.executed@.len(),
                |i: int|
                    ExecutedView {
                        block_hash: self.executed@[i].block_hash,
                        state_hash: self.executed@[i].state_hash,
                        state: self.executed@[i].fork@,
                    },
            ),
        }
    }
}

impl State {
    /// The representation invariant: there are no more validators than 32-bit
    /// ids can name, this node is one of them, and every cached fork is well
    /// formed.
    pub closed spec fn wf(&self) -> bool {
        &&& self.id < self.validators@.len() <= u32::MAX
        &&& prevotes_once(self.prevotes@)
        &&& precommits_once(self.precommits@)
        &&& forall|i: int|
            0 <= i < self.prevotes@.len() ==> (#[trigger] self.prevotes@[i]).validator
                < self.validators@.len()
        &&& forall|i: int|
            0 <= i < self.precommits@.len() ==> (#[trigger] self.precommits@[i]).validator
                < self.validators@.len()
        &&& forall|i: int| 0 <= i < self.executed@.len() ==> (#[trigger] self.executed@[i]).fork.wf()
    }

    /// What the representation invariant says of the view.
    pub proof fn lemma_wf(&self)
        requires
            self.wf(),
        ensures
            self@.id < self@.validators.len() <= u32::MAX,
            tallies_sound(self@),
    {
    }

    /// The state of a node that starts as validator `id` of the given
    /// validator set, or nothing if the set has no validator `id` or is
    /// larger than 32-bit ids can name.
    pub fn new(id: u32, validators: Vec<PublicKey>, prev_hash: crypto::Hash) -> (r: Option<State>)
        ensures
            r is Some <==> id < validators@.len() <= u32::MAX,
            r is Some ==> r->0.wf() && r->0@ == initial_state(id, validators@, prev_hash),
    {
        if id as usize >= validators.len() || validators.len() > u32::MAX as usize {
            return None;
        }
        let s = State {
            id,
            validators,
            height: 0,
            round: 1,
            prev_hash,
            locked_round: 0,
            locked_block_hash: prev_hash,
            proposals: Vec::new(),
            prevotes: Vec::new(),
            precommits: Vec::new(),
            queued: Vec::new(),
            pool: Vec::new(),
            executed: Vec::new(),
        };
        assert(s@.executed =~= Seq::<ExecutedView>::empty());
        assert(s@.proposals =~= Seq::<ProposalView>::empty());
        Some(s)
    }

    pub fn id(&self) -> (r: u32)
        ensures
            r == self@.id,
    {
        self.id
    }

    pub fn height(&self) -> (r: u64)
        ensures
            r == self@.height,
    {
        self.height
    }

    pub fn round(&self) -> (r: u32)
        ensures
            r == self@.round,
    {
        self.round
    }

    pub fn prev_hash(&self) -> (r: crypto::Hash)
        ensures
            r == self@.prev_hash,
    {
        self.prev_hash
    }

    pub fn locked_round(&self) -> (r: u32)
        ensures
            r == self@.locked_round,
    {
        self.locked_round
    }

    pub fn locked_block_hash(&self) -> (r: crypto::Hash)
        ensures
            r == self@.locked_block_hash,
    {
        self.locked_block_hash
    }

    /// The number of votes that make a quorum.
    pub fn majority_count(&self) -> (m: u64)
        requires
            self.wf(),
        ensures
            m == majority(self@.validators.len() as int),
    {
        let n = self.validators.len() as u64;
        2 * n / 3 + 1
    }

    /// The public key of the validator `id`, if there is one.
    pub fn public_key_of(&self, id: u32) -> (r: Option<&PublicKey>)
        ensures
            id < self@.validators.len() ==> r is Some && *r->0 == self@.validators[id as int],
            id >= self@.validators.len() ==> r is None,
    {
        if (id as usize) < self.validators.len() {
            Some(&self.validators[id as usize])
        } else {
            None
        }
    }

    /// The id of the validator that leads `round` at the current height.
    pub fn leader(&self, round: u32) -> (r: u32)
        requires
            self.wf(),
        ensures
            r == leader_of(self@, round),
    {
        let n = self.validators.len() as u128;
        ((self.height as u128 + round as u128) % n) as u32
    }

    /// Remembers a proposal under its hash. Returns whether it was new.
    pub fn add_propose(
        &mut self,
        hash: crypto::Hash,
        round: u32,
        transactions: Vec<crypto::Hash>,
    ) -> (added: bool)
        requires
            old(self).wf(),
        ensures
            final(self).wf(),
            added == !knows_proposal(old(self)@, hash),
            added ==> final(self)@ == (StateView {
                proposals: old(self)@.proposals.push(
                    ProposalView { hash, round, transactions: transactions@ },
                ),
                ..old(self)@
            }),
            !added ==> final(self)@ == old(self)@,
    {
        if self.propose(&hash).is_some() {
            return false;
        }
        self.proposals.push(Proposal { hash, round, transactions });
        assert(self@.executed =~= old(self)@.executed);
        assert(self@.proposals =~= old(self)@.proposals.push(
            ProposalView { hash, round, transactions: transactions@ },
        ));
        true
    }

    /// The proposal known by `hash`, if any.
    pub fn propose(&self, hash: &crypto::Hash) -> (r: Option<&Proposal>)
        ensures
            r is Some <==> knows_proposal(self@, *hash),
            r is Some ==> r->0@ == proposal_of(self@, *hash),
    {
        let n = self.proposals.len();
        let mut i: usize = 0;
        while i < n
            invariant
                i <= n,
                n == self.proposals@.len(),
                forall|j: int| 0 <= j < i ==> (#[trigger] self@.proposals[j]).hash != *hash,
            decreases n - i,
        {
            if self.proposals[i].hash.same(hash) {
                assert(is_first_proposal(self@.proposals, *hash, i as int));
                let ghost q = choose|q: int| is_first_proposal(self@.proposals, *hash, q);
                assert(q == i) by {
                    if q < i {
                        assert(self@.proposals[q].hash != *hash);
                    }
                    if i < q {
                        assert(self@.proposals[i as int].hash != *hash);
                    }
                }
                return Some(&self.proposals[i]);
            }
            i += 1;
        }
        None
    }

    /// Whether `votes` holds the vote `v`.
    fn find_prevote(&self, v: &Prevote) -> (r: bool)
        ensures
            r == holds_prevote(self@.prevotes, *v),
    {
        let n = self.prevotes.len();
        let mut i: usize = 0;
        while i < n
            invariant
                i <= n,
                n == self.prevotes@.len(),
                forall|j: int| 0 <= j < i ==> !same_prevote(#[trigger] self.prevotes@[j], *v),
            decreases n - i,
        {
            let w = &self.prevotes[i];
            if w.validator == v.validator && w.round == v.round && w.block_hash.same(&v.block_hash) {
                return true;
            }
            i += 1;
        }
        false
    }

    fn find_precommit(&self, v: &Precommit) -> (r: bool)
        ensures
            r == holds_precommit(self@.precommits, *v),
    {
        let n = self.precommits.len();
        let mut i: usize = 0;
        while i < n
            invariant
                i <= n,
                n == self.precommits@.len(),
                forall|j: int| 0 <= j < i ==> !same_precommit(#[trigger] self.precommits@[j], *v),
            decreases n - i,
        {
            let w = &self.precommits[i];
            if w.validator == v.validator && w.round == v.round && w.block_hash.same(&v.block_hash)
                && w.state_hash.same(&v.state_hash) {
                return true;
            }
            i += 1;
        }
        false
    }

    /// Whether a quorum has prevoted for `block` in `round`.
    pub fn has_majority_prevotes(&self, round: u32, block: &crypto::Hash) -> (r: bool)
        requires
            self.wf(),
        ensures
            r == majority_prevotes(self@, round, *block),
    {
        let n = self.prevotes.len();
        let mut count: usize = 0;
        let mut i: usize = 0;
        assert(self.prevotes@.take(0) =~= Seq::<Prevote>::empty());
        while i < n
            invariant
                i <= n,
                n == self.prevotes@.len(),
                count <= i,
                count == count_prevotes(self.prevotes@.take(i as int), round, *block),
            decreases n - i,
        {
            proof {
                let next = self.prevotes@.take(i + 1);
                assert(next.drop_last() =~= self.prevotes@.take(i as int));
                assert(next.last() == self.prevotes@[i as int]);
            }
            if self.prevotes[i].round == round && self.prevotes[i].block_hash.same(block) {
                count += 1;
            }
            i += 1;
        }
        assert(self.prevotes@.take(n as int) =~= self.prevotes@);
        count as u64 >= self.majority_count()
    }

    /// Whether a quorum has precommitted for `block` and `state` in `round`.
    pub fn has_majority_precommits(
        &self,
        round: u32,
        block: &crypto::Hash,
        state: &crypto::Hash,
    ) -> (r: bool)
        requires
            self.wf(),
        ensures
            r == majority_precommits(self@, round, *block, *state),
    {
        let n = self.precommits.len();
        let mut count: usize = 0;
        let mut i: usize = 0;
        assert(self.precommits@.take(0) =~= Seq::<Precommit>::empty());
        while i < n
            invariant
                i <= n,
                n == self.precommits@.len(),
                count <= i,
                count == count_precommits(self.precommits@.take(i as int), round, *block, *state),
            decreases n - i,
        {
            proof {
                let next = self.precommits@.take(i + 1);
                assert(next.drop_last() =~= self.precommits@.take(i as int));
                assert(next.last() == self.precommits@[i as int]);
            }
            if self.precommits[i].round == round && self.precommits[i].block_hash.same(block)
                && self.precommits[i].state_hash.same(state) {
                count += 1;
            }
            i += 1;
        }
        assert(self.precommits@.take(n as int) =~= self.precommits@);
        count as u64 >= self.majority_count()
    }

    /// Whether tallying `vote` would make a quorum of precommits for its
    /// block and state in its round.
    pub fn completes_precommits(&self, vote: &Precommit) -> (r: bool)
        requires
            self.wf(),
        ensures
            r == majority_precommits(
                StateView { precommits: tally_precommit(self@, *vote), ..self@ },
                vote.round,
                vote.block_hash,
                vote.state_hash,
            ),
    {
        let n = self.precommits.len();
        let mut count: usize = 0;
        let mut i: usize = 0;
        assert(self.precommits@.take(0) =~= Seq::<Precommit>::empty());
        while i < n
            invariant
                i <= n,
                n == self.precommits@.len(),
                count <= i,
                count == count_precommits(
                    self.precommits@.take(i as int),
                    vote.round,
                    vote.block_hash,
                    vote.state_hash,
                ),
            decreases n - i,
        {
            proof {
                let next = self.precommits@.take(i + 1);
                assert(next.drop_last() =~= self.precommits@.take(i as int));
                assert(next.last() == self.precommits@[i as int]);
            }
            if self.precommits[i].round == vote.round && self.precommits[i].block_hash.same(
                &vote.block_hash,
            ) && self.precommits[i].state_hash.same(&vote.state_hash) {
                count += 1;
            }
            i += 1;
        }
        assert(self.precommits@.take(n as int) =~= self.precommits@);
        let is_new = (vote.validator as usize) < self.validators.len() && !self.find_precommit(
            vote,
        );
        proof {
            if is_new {
                assert(self.precommits@.push(*vote).drop_last() =~= self.precommits@);
            }
        }
        let total: u128 = if is_new {
            count as u128 + 1
        } else {
            count as u128
        };
        total >= self.majority_count() as u128
    }

    /// Adds a prevote to the tally, unless it is there or its sender is no
    /// validator. Returns whether a quorum has then prevoted for the vote's
    /// block in the vote's round.
    pub fn add_prevote(&mut self, vote: &Prevote) -> (quorum: bool)
        requires
            old(self).wf(),
        ensures
            final(self).wf(),
            final(self)@ == (StateView { prevotes: tally_prevote(old(self)@, *vote), ..old(self)@ }),
            quorum == majority_prevotes(final(self)@, vote.round, vote.block_hash),
    {
        if (vote.validator as usize) < self.validators.len() && !self.find_prevote(vote) {
            self.prevotes.push(*vote);
            assert(prevotes_once(self.prevotes@)) by {
                assert forall|i: int, j: int| 0 <= i < j < self.prevotes@.len() implies !same_prevote(
                    #[trigger] self.prevotes@[i],
                    #[trigger] self.prevotes@[j],
                ) by {
                    if j < old(self).prevotes@.len() {
                        assert(!same_prevote(old(self).prevotes@[i], old(self).prevotes@[j]));
                    } else {
                        assert(!same_prevote(old(self).prevotes@[i], *vote));
                    }
                }
            }
        }
        assert(self@.executed =~= old(self)@.executed);
        assert(self@.proposals =~= old(self)@.proposals);
        self.has_majority_prevotes(vote.round, &vote.block_hash)
    }

    /// Adds a precommit to the tally, unless it is there or its sender is no
    /// validator. Returns whether a quorum has then precommitted for the
    /// vote's block and state in the vote's round.
    pub fn add_precommit(&mut self, vote: &Precommit) -> (quorum: bool)
        requires
            old(self).wf(),
        ensures
            final(self).wf(),
            final(self)@ == (StateView {
                precommits: tally_precommit(old(self)@, *vote),
                ..old(self)@
            }),
            quorum == majority_precommits(
                final(self)@,
                vote.round,
                vote.block_hash,
                vote.state_hash,
            ),
    {
        if (vote.validator as usize) < self.validators.len() && !self.find_precommit(vote) {
            self.precommits.push(*vote);
            assert(precommits_once(self.precommits@)) by {
                assert forall|i: int, j: int|
                    0 <= i < j < self.precommits@.len() implies !same_precommit(
                    #[trigger] self.precommits@[i],
                    #[trigger] self.precommits@[j],
                ) by {
                    if j < old(self).precommits@.len() {
                        assert(!same_precommit(
                            old(self).precommits@[i],
                            old(self).precommits@[j],
                        ));
                    } else {
                        assert(!same_precommit(old(self).precommits@[i], *vote));
                    }
                }
            }
        }
        assert(self@.executed =~= old(self)@.executed);
        assert(self@.proposals =~= old(self)@.proposals);
        self.has_majority_precommits(vote.round, &vote.block_hash, &vote.state_hash)
    }

    /// Whether this node has prevoted in `round`.
    pub fn have_prevote(&self, round: u32) -> (r: bool)
        ensures
            r == own_prevote_in(self@, round),
    {
        let n = self.prevotes.len();
        let mut i: usize = 0;
        while i < n
            invariant
                i <= n,
                n == self.prevotes@.len(),
                forall|j: int|
                    0 <= j < i ==> !((#[trigger] self.prevotes@[j]).validator == self.id
                        && self.prevotes@[j].round == round),
            decreases n - i,
        {
            if self.prevotes[i].validator == self.id && self.prevotes[i].round == round {
                assert(self@.prevotes[i as int].validator == self@.id);
                return true;
            }
            i += 1;
        }
        false
    }

    /// Whether this node has prevoted, in a round after its lock, for a block
    /// other than the one it is locked on.
    pub fn have_incompatible_prevotes(&self) -> (r: bool)
        ensures
            r == incompatible_prevotes(self@),
    {
        let n = self.prevotes.len();
        let mut i: usize = 0;
        while i < n
            invariant
                i <= n,
                n == self.prevotes@.len(),
                forall|j: int|
                    0 <= j < i ==> !((#[trigger] self.prevotes@[j]).validator == self.id
                        && self.prevotes@[j].round > self.locked_round
                        && self.prevotes@[j].block_hash != self.locked_block_hash),
            decreases n - i,
        {
            if self.prevotes[i].validator == self.id && self.prevotes[i].round > self.locked_round
                && !self.prevotes[i].block_hash.same(&self.locked_block_hash) {
                assert(self@.prevotes[i as int].validator == self@.id);
                return true;
            }
            i += 1;
        }
        false
    }

    /// Locks on `block` in `round`.
    pub fn lock(&mut self, round: u32, block: crypto::Hash)
        requires
            old(self).wf(),
        ensures
            final(self).wf(),
            final(self)@ == (StateView {
                locked_round: round,
                locked_block_hash: block,
                ..old(self)@
            }),
    {
        self.locked_round = round;
        self.locked_block_hash = block;
        assert(self@.executed =~= old(self)@.executed);
        assert(self@.proposals =~= old(self)@.proposals);
    }

    /// Moves on to the next height after `block` was committed.
    pub fn new_height(&mut self, block: crypto::Hash)
        requires
            old(self).wf(),
            old(self)@.height < u64::MAX,
        ensures
            final(self).wf(),
            final(self)@ == at_new_height(old(self)@, block),
    {
        self.height = self.height + 1;
        self.round = 1;
        self.prev_hash = block;
        self.locked_round = 0;
        self.proposals = Vec::new();
        self.prevotes = Vec::new();
        self.precommits = Vec::new();
        self.executed = Vec::new();
        assert(self@.executed =~= Seq::<ExecutedView>::empty());
        assert(self@.proposals =~= Seq::<ProposalView>::empty());
    }

    /// Moves on to the next round.
    pub fn new_round(&mut self)
        requires
            old(self).wf(),
            old(self)@.round < u32::MAX,
        ensures
            final(self).wf(),
            final(self)@ == (StateView { round: (old(self)@.round + 1) as u32, ..old(self)@ }),
    {
        self.round = self.round + 1;
        assert(self@.executed =~= old(self)@.executed);
        assert(self@.proposals =~= old(self)@.proposals);
    }

    /// Puts a message aside until its height or round has come.
    pub fn add_queued(&mut self, msg: ConsensusMessage)
        requires
            old(self).wf(),
        ensures
            final(self).wf(),
            final(self)@ == (StateView { queued: old(self)@.queued.push(msg), ..old(self)@ }),
    {
        self.queued.push(msg);
        assert(self@.executed =~= old(self)@.executed);
        assert(self@.proposals =~= old(self)@.proposals);
    }

    /// Takes the messages that were put aside, in the order of arrival.
    pub fn queue(&mut self) -> (out: Vec<ConsensusMessage>)
        requires
            old(self).wf(),
        ensures
            final(self).wf(),
            out@ == old(self)@.queued,
            final(self)@ == (StateView { queued: Seq::empty(), ..old(self)@ }),
    {
        let mut out: Vec<ConsensusMessage> = Vec::new();
        out.append(&mut self.queued);
        assert(out@ =~= old(self)@.queued);
        assert(self@.executed =~= old(self)@.executed);
        assert(self@.proposals =~= old(self)@.proposals);
        out
    }

    /// The number of messages put aside.
    pub fn queued_len(&self) -> (n: usize)
        ensures
            n == self@.queued.len(),
    {
        self.queued.len()
    }

    /// The position in the pool of the transaction with `hash`, if it is there.
    pub fn find_tx(&self, hash: &crypto::Hash) -> (r: Option<usize>)
        ensures
            r is Some <==> pool_has(self@.pool, *hash),
            r is Some ==> is_first_in_pool(self@.pool, *hash, r->0 as int) && self@.pool[r->0 as int].tx
                == pooled_tx(self@.pool, *hash),
    {
        let n = self.pool.len();
        let mut i: usize = 0;
        while i < n
            invariant
                i <= n,
                n == self.pool@.len(),
                forall|j: int| 0 <= j < i ==> (#[trigger] self.pool@[j]).hash != *hash,
            decreases n - i,
        {
            if self.pool[i].hash.same(hash) {
                assert(is_first_in_pool(self@.pool, *hash, i as int));
                let ghost q = choose|q: int| is_first_in_pool(self@.pool, *hash, q);
                assert(q == i) by {
                    if q < i {
                        assert(self@.pool[q].hash != *hash);
                    }
                    if i < q {
                        assert(self@.pool[i as int].hash != *hash);
                    }
                }
                return Some(i);
            }
            i += 1;
        }
        None
    }

    /// The pending transaction at `index`.
    pub fn tx_at(&self, index: usize) -> (tx: &DigitalRightsTx)
        requires
            index < self@.pool.len(),
        ensures
            *tx == self@.pool[index as int].tx,
    {
        &self.pool[index].tx
    }

    /// Adds a pending transaction under its hash, unless one is there.
    pub fn add_tx(&mut self, hash: crypto::Hash, tx: DigitalRightsTx)
        requires
            old(self).wf(),
        ensures
            final(self).wf(),
            pool_has(old(self)@.pool, hash) ==> final(self)@ == old(self)@,
            !pool_has(old(self)@.pool, hash) ==> final(self)@ == (StateView {
                pool: old(self)@.pool.push(PoolEntry { hash, tx }),
                ..old(self)@
            }),
    {
        if self.find_tx(&hash).is_none() {
            self.pool.push(PoolEntry { hash, tx });
            assert(self@.executed =~= old(self)@.executed);
        assert(self@.proposals =~= old(self)@.proposals);
        }
    }

    /// The hashes of the pending transactions, in pool order.
    pub fn transactions(&self) -> (out: Vec<crypto::Hash>)
        ensures
            out@ == pool_hashes(self@.pool),
    {
        let mut out: Vec<crypto::Hash> = Vec::new();
        let n = self.pool.len();
        let mut i: usize = 0;
        while i < n
            invariant
                i <= n,
                n == self.pool@.len(),
                out@.len() == i,
                forall|j: int| 0 <= j < i ==> out@[j] == self.pool@[j].hash,
            decreases n - i,
        {
            out.push(self.pool[i].hash);
            i += 1;
        }
        assert(out@ =~= pool_hashes(self@.pool));
        out
    }

    /// The position in the cache of the executed block `hash`, if it is there.
    pub fn find_executed(&self, hash: &crypto::Hash) -> (r: Option<usize>)
        ensures
            r is Some <==> was_executed(self@.executed, *hash),
            r is Some ==> is_first_executed(self@.executed, *hash, r->0 as int)
                && self@.executed[r->0 as int] == executed_of(self@, *hash),
    {
        let n = self.executed.len();
        let mut i: usize = 0;
        while i < n
            invariant
                i <= n,
                n == self.executed@.len(),
                forall|j: int| 0 <= j < i ==> (#[trigger] self@.executed[j]).block_hash != *hash,
            decreases n - i,
        {
            if self.executed[i].block_hash.same(hash) {
                assert(is_first_executed(self@.executed, *hash, i as int));
                let ghost q = choose|q: int| is_first_executed(self@.executed, *hash, q);
                assert(q == i) by {
                    if q < i {
                        assert(self@.executed[q].block_hash != *hash);
                    }
                    if i < q {
                        assert(self@.executed[i as int].block_hash != *hash);
                    }
                }
                return Some(i);
            }
            i += 1;
        }
        None
    }

    /// The state hash of the executed block at `index` of the cache.
    pub fn state_hash_at(&self, index: usize) -> (h: crypto::Hash)
        requires
            index < self@.executed.len(),
        ensures
            h == self@.executed[index as int].state_hash,
    {
        self.executed[index].state_hash
    }

    /// A copy of the fork of the executed block at `index` of the cache.
    pub fn fork_at(&self, index: usize) -> (fork: DigitalRightsView)
        requires
            self.wf(),
            index < self@.executed.len(),
        ensures
            fork.wf(),
            fork@ == self@.executed[index as int].state,
    {
        self.executed[index].fork.duplicate()
    }

    /// Caches an executed block.
    pub fn add_executed(
        &mut self,
        block_hash: crypto::Hash,
        state_hash: crypto::Hash,
        fork: DigitalRightsView,
    )
        requires
            old(self).wf(),
            fork.wf(),
        ensures
            final(self).wf(),
            final(self)@ == (StateView {
                executed: old(self)@.executed.push(
                    ExecutedView { block_hash, state_hash, state: fork@ },
                ),
                ..old(self)@
            }),
    {
        self.executed.push(Executed { block_hash, state_hash, fork });
        assert(self@.executed =~= old(self)@.executed.push(
            ExecutedView { block_hash, state_hash, state: fork@ },
        ));
        assert(self@.proposals =~= old(self)@.proposals);
    }
}

/// A vote delivered twice leaves the tally as the first delivery left it.
pub proof fn lemma_prevote_replay(votes: Seq<Prevote>, v: Prevote)
    ensures
        with_prevote(with_prevote(votes, v), v) == with_prevote(votes, v),
        forall|round: u32, block: crypto::Hash|
            count_prevotes(with_prevote(with_prevote(votes, v), v), round, block)
                == count_prevotes(with_prevote(votes, v), round, block),
{
    if !holds_prevote(votes, v) {
        assert(same_prevote(votes.push(v)[votes.len() as int], v));
    }
}

/// A vote delivered twice leaves the tally as the first delivery left it.
pub proof fn lemma_precommit_replay(votes: Seq<Precommit>, v: Precommit)
    ensures
        with_precommit(with_precommit(votes, v), v) == with_precommit(votes, v),
        forall|round: u32, block: crypto::Hash, state: crypto::Hash|
            count_precommits(with_precommit(with_precommit(votes, v), v), round, block, state)
                == count_precommits(with_precommit(votes, v), round, block, state),
{
    if !holds_precommit(votes, v) {
        assert(same_precommit(votes.push(v)[votes.len() as int], v));
    }
}

/// Any two quorums among `n` validators have more than a third of all
/// validators in common.
pub proof fn lemma_quorums_intersect(n: int, a: Set<int>, b: Set<int>)
    requires
        n > 0,
        forall|v: int| a.contains(v) ==> 0 <= v < n,
        forall|v: int| b.contains(v) ==> 0 <= v < n,
        a.finite(),
        b.finite(),
        a.len() >= majority(n),
        b.len() >= majority(n),
    ensures
        a.intersect(b).len() >= 2 * majority(n) - n,
        3 * a.intersect(b).len() > n,
{
    let all = vstd::set_lib::set_int_range(0, n);
    vstd::set_lib::lemma_int_range(0, n);
    assert(a.union(b).subset_of(all));
    vstd::set_lib::lemma_len_subset(a.union(b), all);
    vstd::set_lib::lemma_set_intersect_union_lens(a, b);
}

/// Where fewer than a third of the validators are faulty, any two quorums
/// have a validator in common that is not faulty.
pub proof fn lemma_quorums_share_honest(n: int, a: Set<int>, b: Set<int>, faulty: Set<int>)
    requires
        n > 0,
        forall|v: int| a.contains(v) ==> 0 <= v < n,
        forall|v: int| b.contains(v) ==> 0 <= v < n,
        a.finite(),
        b.finite(),
        a.len() >= majority(n),
        b.len() >= majority(n),
        faulty.finite(),
        3 * faulty.len() < n,
    ensures
        exists|v: int| a.contains(v) && b.contains(v) && !faulty.contains(v),
{
    lemma_quorums_intersect(n, a, b);
    let both = a.intersect(b);
    if both.subset_of(faulty) {
        vstd::set_lib::lemma_len_subset(both, faulty);
    } else {
        let v = choose|v: int| both.contains(v) && !faulty.contains(v);
        assert(a.contains(v) && b.contains(v) && !faulty.contains(v));
    }
}

/// Where no vote is counted twice, the tally of a block in a round is the
/// number of validators that voted for it.
pub proof fn lemma_tally_counts_voters(votes: Seq<Prevote>, round: u32, block: crypto::Hash)
    requires
        prevotes_once(votes),
    ensures
        prevoters(votes, round, block).finite(),
        prevoters(votes, round, block).len() == count_prevotes(votes, round, block),
    decreases votes.len(),
{
    let all = prevoters(votes, round, block);
    if votes.len() == 0 {
        assert(all =~= Set::<int>::empty());
    } else {
        let rest = votes.drop_last();
        let last = votes.last();
        assert(prevotes_once(rest)) by {
            assert forall|i: int, j: int| 0 <= i < j < rest.len() implies !same_prevote(
                #[trigger] rest[i],
                #[trigger] rest[j],
            ) by {
                assert(!same_prevote(votes[i], votes[j]));
            }
        }
        lemma_tally_counts_voters(rest, round, block);
        let before = prevoters(rest, round, block);
        if last.round == round && last.block_hash == block {
            let id = last.validator as int;
            assert(!before.contains(id)) by {
                if before.contains(id) {
                    let i = choose|i: int|
                        0 <= i < rest.len() && (#[trigger] rest[i]).validator == id
                            && rest[i].round == round && rest[i].block_hash == block;
                    assert(same_prevote(votes[i], votes[votes.len() - 1]));
                }
            }
            assert(all =~= before.insert(id)) by {
                assert forall|x: int| all.contains(x) <==> before.insert(id).contains(x) by {
                    if all.contains(x) {
                        let i = choose|i: int|
                            0 <= i < votes.len() && (#[trigger] votes[i]).validator == x
                                && votes[i].round == round && votes[i].block_hash == block;
                        if i < rest.len() {
                            assert(rest[i] == votes[i]);
                        }
                    }
                    if before.contains(x) {
                        let i = choose|i: int|
                            0 <= i < rest.len() && (#[trigger] rest[i]).validator == x
                                && rest[i].round == round && rest[i].block_hash == block;
                        assert(votes[i] == rest[i]);
                    }
                    if x == id {
                        assert(votes[votes.len() - 1].validator == id);
                    }
                }
            }
        } else {
            assert(all =~= before) by {
                assert forall|x: int| all.contains(x) <==> before.contains(x) by {
                    if all.contains(x) {
                        let i = choose|i: int|
                            0 <= i < votes.len() && (#[trigger] votes[i]).validator == x
                                && votes[i].round == round && votes[i].block_hash == block;
                        assert(rest[i] == votes[i]);
                    }
                    if before.contains(x) {
                        let i = choose|i: int|
                            0 <= i < rest.len() && (#[trigger] rest[i]).validator == x
                                && rest[i].round == round && rest[i].block_hash == block;
                        assert(votes[i] == rest[i]);
                    }
                }
            }
        }
    }
}

/// Where the tallies are sound, quorums of prevotes for two blocks in one
/// round mean that more than a third of the validators voted for both.
pub proof fn lemma_quorums_overlap(s: StateView, round: u32, a: crypto::Hash, b: crypto::Hash)
    requires
        tallies_sound(s),
        s.validators.len() > 0,
        majority_prevotes(s, round, a),
        majority_prevotes(s, round, b),
    ensures
        3 * prevoters(s.prevotes, round, a).intersect(prevoters(s.prevotes, round, b)).len()
            > s.validators.len(),
        exists|i: int, j: int|
            0 <= i < s.prevotes.len() && 0 <= j < s.prevotes.len() && (#[trigger] s.prevotes[i]).validator
                == (#[trigger] s.prevotes[j]).validator && s.prevotes[i].round == round
                && s.prevotes[j].round == round && s.prevotes[i].block_hash == a
                && s.prevotes[j].block_hash == b,
{
    let n = s.validators.len() as int;
    let va = prevoters(s.prevotes, round, a);
    let vb = prevoters(s.prevotes, round, b);
    lemma_tally_counts_voters(s.prevotes, round, a);
    lemma_tally_counts_voters(s.prevotes, round, b);
    lemma_quorums_intersect(n, va, vb);
    let both = va.intersect(vb);
    assert(both.len() > 0);
    let id = both.choose();
    assert(both.contains(id));
    let i = choose|i: int|
        0 <= i < s.prevotes.len() && (#[trigger] s.prevotes[i]).validator == id
            && s.prevotes[i].round == round && s.prevotes[i].block_hash == a;
    let j = choose|j: int|
        0 <= j < s.prevotes.len() && (#[trigger] s.prevotes[j]).validator == id
            && s.prevotes[j].round == round && s.prevotes[j].block_hash == b;
    assert(s.prevotes[i].validator == s.prevotes[j].validator);
}

/// Where no vote is counted twice, the tally of a block and state in a
/// round is the number of validators that precommitted for them.
pub proof fn lemma_tally_counts_precommitters(
    votes: Seq<Precommit>,
    round: u32,
    block: crypto::Hash,
    state: crypto::Hash,
)
    requires
        precommits_once(votes),
    ensures
        precommitters(votes, round, block, state).finite(),
        precommitters(votes, round, block, state).len() == count_precommits(
            votes,
            round,
            block,
            state,
        ),
    decreases votes.len(),
{
    let all = precommitters(votes, round, block, state);
    if votes.len() == 0 {
        assert(all =~= Set::<int>::empty());
    } else {
        let rest = votes.drop_last();
        let last = votes.last();
        assert(precommits_once(rest)) by {
            assert forall|i: int, j: int| 0 <= i < j < rest.len() implies !same_precommit(
                #[trigger] rest[i],
                #[trigger] rest[j],
            ) by {
                assert(!same_precommit(votes[i], votes[j]));
            }
        }
        lemma_tally_counts_precommitters(rest, round, block, state);
        let before = precommitters(rest, round, block, state);
        if last.round == round && last.block_hash == block && last.state_hash == state {
            let id = last.validator as int;
            assert(!before.contains(id)) by {
                if before.contains(id) {
                    let i = choose|i: int|
                        0 <= i < rest.len() && (#[trigger] rest[i]).validator == id
                            && rest[i].round == round && rest[i].block_hash == block
                            && rest[i].state_hash == state;
                    assert(same_precommit(votes[i], votes[votes.len() - 1]));
                }
            }
            assert(all =~= before.insert(id)) by {
                assert forall|x: int| all.contains(x) <==> before.insert(id).contains(x) by {
                    if all.contains(x) {
                        let i = choose|i: int|
                            0 <= i < votes.len() && (#[trigger] votes[i]).validator == x
                                && votes[i].round == round && votes[i].block_hash == block
                                && votes[i].state_hash == state;
                        if i < rest.len() {
                            assert(rest[i] == votes[i]);
                        }
                    }
                    if before.contains(x) {
                        let i = choose|i: int|
                            0 <= i < rest.len() && (#[trigger] rest[i]).validator == x
                                && rest[i].round == round && rest[i].block_hash == block
                                && rest[i].state_hash == state;
                        assert(votes[i] == rest[i]);
                    }
                    if x == id {
                        assert(votes[votes.len() - 1].validator == id);
                    }
                }
            }
        } else {
            assert(all =~= before) by {
                assert forall|x: int| all.contains(x) <==> before.contains(x) by {
                    if all.contains(x) {
                        let i = choose|i: int|
                            0 <= i < votes.len() && (#[trigger] votes[i]).validator == x
                                && votes[i].round == round && votes[i].block_hash == block
                                && votes[i].state_hash == state;
                        assert(rest[i] == votes[i]);
                    }
                    if before.contains(x) {
                        let i = choose|i: int|
                            0 <= i < rest.len() && (#[trigger] rest[i]).validator == x
                                && rest[i].round == round && rest[i].block_hash == block
                                && rest[i].state_hash == state;
                        assert(votes[i] == rest[i]);
                    }
                }
            }
        }
    }
}

/// Where the tallies are sound, quorums of precommits for two blocks in one
/// round mean that more than a third of the validators precommitted for
/// both: two blocks can be committed in one round only if that many
/// validators vote twice.
pub proof fn lemma_commit_quorums_overlap(
    s: StateView,
    round: u32,
    a: crypto::Hash,
    state_a: crypto::Hash,
    b: crypto::Hash,
    state_b: crypto::Hash,
)
    requires
        tallies_sound(s),
        s.validators.len() > 0,
        majority_precommits(s, round, a, state_a),
        majority_precommits(s, round, b, state_b),
    ensures
        3 * precommitters(s.precommits, round, a, state_a).intersect(
            precommitters(s.precommits, round, b, state_b),
        ).len() > s.validators.len(),
        exists|i: int, j: int|
            0 <= i < s.precommits.len() && 0 <= j < s.precommits.len() && (#[trigger] s.precommits[i]).validator
                == (#[trigger] s.precommits[j]).validator && s.precommits[i].round == round
                && s.precommits[j].round == round && s.precommits[i].block_hash == a
                && s.precommits[j].block_hash == b && s.precommits[i].state_hash == state_a
                && s.precommits[j].state_hash == state_b,
{
    let n = s.validators.len() as int;
    let va = precommitters(s.precommits, round, a, state_a);
    let vb = precommitters(s.precommits, round, b, state_b);
    lemma_tally_counts_precommitters(s.precommits, round, a, state_a);
    lemma_tally_counts_precommitters(s.precommits, round, b, state_b);
    lemma_quorums_intersect(n, va, vb);
    let both = va.intersect(vb);
    assert(both.len() > 0);
    let id = both.choose();
    assert(both.contains(id));
    let i = choose|i: int|
        0 <= i < s.precommits.len() && (#[trigger] s.precommits[i]).validator == id
            && s.precommits[i].round == round && s.precommits[i].block_hash == a
            && s.precommits[i].state_hash == state_a;
    let j = choose|j: int|
        0 <= j < s.precommits.len() && (#[trigger] s.precommits[j]).validator == id
            && s.precommits[j].round == round && s.precommits[j].block_hash == b
            && s.precommits[j].state_hash == state_b;
    assert(s.precommits[i].validator == s.precommits[j].validator);
}

/// Agreement within a round. Let two nodes each hold a quorum of precommits
/// in one round, let fewer than a third of the validators be faulty, and let
/// no validator that is not faulty have precommitted for two different
/// blocks or states in that round. Then the two quorums are for the same
/// block and the same state: the two nodes commit the same block.
pub proof fn lemma_round_agreement(
    n: int,
    a: Seq<Precommit>,
    b: Seq<Precommit>,
    round: u32,
    block_a: crypto::Hash,
    state_a: crypto::Hash,
    block_b: crypto::Hash,
    state_b: crypto::Hash,
    faulty: Set<int>,
)
    requires
        n > 0,
        precommits_once(a),
        precommits_once(b),
        forall|i: int| 0 <= i < a.len() ==> (#[trigger] a[i]).validator < n,
        forall|j: int| 0 <= j < b.len() ==> (#[trigger] b[j]).validator < n,
        count_precommits(a, round, block_a, state_a) >= majority(n),
        count_precommits(b, round, block_b, state_b) >= majority(n),
        faulty.finite(),
        3 * faulty.len() < n,
        forall|i: int, j: int|
            0 <= i < a.len() && 0 <= j < b.len() && (#[trigger] a[i]).validator == (#[trigger] b[j]).validator
                && !faulty.contains(a[i].validator as int) && a[i].round == round && b[j].round
                == round ==> a[i].block_hash == b[j].block_hash && a[i].state_hash
                == b[j].state_hash,
    ensures
        block_a == block_b,
        state_a == state_b,
{
    let va = precommitters(a, round, block_a, state_a);
    let vb = precommitters(b, round, block_b, state_b);
    lemma_tally_counts_precommitters(a, round, block_a, state_a);
    lemma_tally_counts_precommitters(b, round, block_b, state_b);
    lemma_quorums_share_honest(n, va, vb, faulty);
    let v = choose|v: int| va.contains(v) && vb.contains(v) && !faulty.contains(v);
    let i = choose|i: int|
        0 <= i < a.len() && (#[trigger] a[i]).validator == v && a[i].round == round
            && a[i].block_hash == block_a && a[i].state_hash == state_a;
    let j = choose|j: int|
        0 <= j < b.len() && (#[trigger] b[j]).validator == v && b[j].round == round
            && b[j].block_hash == block_b && b[j].state_hash == state_b;
    assert(a[i].validator == b[j].validator);
}

/// Agreement over the rounds of a height. Let two nodes each hold a quorum
/// of precommits of one height, in whatever rounds; let fewer than a third of
/// the validators be faulty, and let no validator that is not faulty have
/// precommitted for two different blocks at that height. Then the two
/// quorums are for the same block: the two nodes commit the same block.
/// (That no such validator votes for two blocks in one round is what the
/// handler keeps; over several rounds the lock rule alone does not keep it,
/// and there the statement needs it as a premise.)
pub proof fn lemma_height_agreement(
    n: int,
    a: Seq<Precommit>,
    b: Seq<Precommit>,
    round_a: u32,
    block_a: crypto::Hash,
    state_a: crypto::Hash,
    round_b: u32,
    block_b: crypto::Hash,
    state_b: crypto::Hash,
    faulty: Set<int>,
)
    requires
        n > 0,
        precommits_once(a),
        precommits_once(b),
        forall|i: int| 0 <= i < a.len() ==> (#[trigger] a[i]).validator < n,
        forall|j: int| 0 <= j < b.len() ==> (#[trigger] b[j]).validator < n,
        count_precommits(a, round_a, block_a, state_a) >= majority(n),
        count_precommits(b, round_b, block_b, state_b) >= majority(n),
        faulty.finite(),
        3 * faulty.len() < n,
        forall|i: int, j: int|
            0 <= i < a.len() && 0 <= j < b.len() && (#[trigger] a[i]).validator == (#[trigger] b[j]).validator
                && !faulty.contains(a[i].validator as int) ==> a[i].block_hash
                == b[j].block_hash,
    ensures
        block_a == block_b,
{
    let va = precommitters(a, round_a, block_a, state_a);
    let vb = precommitters(b, round_b, block_b, state_b);
    lemma_tally_counts_precommitters(a, round_a, block_a, state_a);
    lemma_tally_counts_precommitters(b, round_b, block_b, state_b);
    lemma_quorums_share_honest(n, va, vb, faulty);
    let v = choose|v: int| va.contains(v) && vb.contains(v) && !faulty.contains(v);
    let i = choose|i: int|
        0 <= i < a.len() && (#[trigger] a[i]).validator == v && a[i].round == round_a
            && a[i].block_hash == block_a && a[i].state_hash == state_a;
    let j = choose|j: int|
        0 <= j < b.len() && (#[trigger] b[j]).validator == v && b[j].round == round_b
            && b[j].block_hash == block_b && b[j].state_hash == state_b;
    assert(a[i].validator == b[j].validator);
}

} // verus!
