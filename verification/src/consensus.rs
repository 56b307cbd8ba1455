//! The handler of the agreement protocol: it takes one event at a time,
//! a message or a timeout, and drives the node through propose, prevote,
//! precommit and commit.

use crate::crypto;
use crate::crypto::SecretKey;
use crate::messages::{now, Commit, ConsensusMessage, Precommit, Prevote, Propose, Timespec};
use crate::protocol::{
    admission, batch_len, block_transactions, committed, drained, executed, lemma_process_unfold,
    lemma_step_height, lock_search, locked, next_height, on_commit, on_precommit, on_prevote,
    on_propose, process, room, run_block, scanned, sent_commit, sent_precommit, sent_prevote,
    sent_propose, span, stamped, state_hash_after, step, timed_out, topped_up, transactions_known,
    violates_safety, with_block, with_precommit_tallied, with_tx, Admission, NodeView, Timeout,
    TX_BATCH,
};
use crate::rights::DigitalRightsBlockchain;
use crate::safety::{
    casts_sound, from_others, lemma_process_casts, lemma_step_casts, lemma_timed_out_casts,
};
use crate::state::{is_first_executed, leader_of, pool_has, was_executed, State};
use crate::txs::DigitalRightsTx;
use crate::view::DigitalRightsView;
use vstd::prelude::*;

verus! {

/// What a node works with: its consensus state, the storage, its signing
/// key, and what it hands to the transport and the timer.
pub struct NodeContext {
    pub state: State,
    pub storage: DigitalRightsBlockchain,
    pub secret_key: SecretKey,
    /// The time of the event being handled.
    pub now: Timespec,
    /// The byte strings to broadcast, oldest first.
    pub outbox: Vec<Vec<u8>>,
    /// The timers to arm, oldest first.
    pub timeouts: Vec<Timeout>,
    /// The local supply of new transactions.
    pub tx_generator: Vec<DigitalRightsTx>,
    /// The commit notices seen from other validators.
    pub commits: Vec<Commit>,
    /// Whether the node has stopped on a safety violation.
    pub halted: bool,
}

impl View for NodeContext {
    type V = NodeView;

    open spec fn view(&self) -> NodeView {
        NodeView {
            state: self.state@,
            storage: self.storage.db@,
            secret_key: self.secret_key,
            now: self.now,
            outbox: Seq::new(self.outbox@.len(), |i: int| self.outbox@[i]@),
            timeouts: self.timeouts@,
            generator: self.tx_generator@,
            commits: self.commits@,
            halted: self.halted,
        }
    }
}

impl NodeContext {
    /// The representation invariant of the state and the storage.
    pub open spec fn wf(&self) -> bool {
        self.state.wf() && self.storage.db.wf()
    }

    /// A node that starts from `state` on empty storage.
    pub fn new(state: State, secret_key: SecretKey) -> (ctx: Self)
        requires
            state.wf(),
        ensures
            ctx.wf(),
            ctx@ == (NodeView {
                state: state@,
                storage: crate::view::empty_state(),
                secret_key,
                now: Timespec { sec: 0, nsec: 0 },
                outbox: Seq::empty(),
                timeouts: Seq::empty(),
                generator: Seq::empty(),
                commits: Seq::empty(),
                halted: false,
            }),
    {
        let ctx = NodeContext {
            state,
            storage: DigitalRightsBlockchain::new(),
            secret_key,
            now: Timespec { sec: 0, nsec: 0 },
            outbox: Vec::new(),
            timeouts: Vec::new(),
            tx_generator: Vec::new(),
            commits: Vec::new(),
            halted: false,
        };
        assert(ctx@.outbox =~= Seq::<Seq<u8>>::empty());
        ctx
    }

    /// Hands a byte string to the transport for broadcast.
    pub fn broadcast(&mut self, bytes: Vec<u8>)
        ensures
            final(self).wf() == old(self).wf(),
            final(self)@ == (NodeView { outbox: old(self)@.outbox.push(bytes@), ..old(self)@ }),
    {
        self.outbox.push(bytes);
        assert(self@.outbox =~= old(self)@.outbox.push(bytes@));
    }

    /// Arms the timer of the current round.
    pub fn add_timeout(&mut self)
        ensures
            final(self).wf() == old(self).wf(),
            final(self)@ == (NodeView {
                timeouts: old(self)@.timeouts.push(
                    Timeout { height: old(self)@.state.height, round: old(self)@.state.round },
                ),
                ..old(self)@
            }),
    {
        let timeout = Timeout { height: self.state.height(), round: self.state.round() };
        self.timeouts.push(timeout);
        assert(self@.outbox =~= old(self)@.outbox);
    }

    /// The height being decided.
    pub fn deciding(&self) -> (h: u64)
        ensures
            h == next_height(self@.state),
    {
        let h = self.state.height();
        if h < u64::MAX {
            h + 1
        } else {
            u64::MAX
        }
    }
}

/// The handler of consensus events.
pub struct ConsensusService;

impl ConsensusService {
    /// Takes a transaction into the pending pool if its signature verifies
    /// under its author's key and no transaction with its hash is pending.
    pub fn handle_tx(&mut self, ctx: &mut NodeContext, tx: DigitalRightsTx)
        requires
            old(ctx).wf(),
        ensures
            final(ctx).wf(),
            final(ctx)@ == with_tx(old(ctx)@, tx),
    {
        if DigitalRightsBlockchain::verify_tx(&tx) {
            let hash = tx.hash();
            ctx.state.add_tx(hash, tx);
            assert(ctx@.outbox =~= old(ctx)@.outbox);
        }
    }

    /// Whether this node leads the current round.
    pub fn is_leader(&self, ctx: &NodeContext) -> (r: bool)
        requires
            ctx.wf(),
        ensures
            r == (leader_of(ctx@.state, ctx@.state.round) == ctx@.state.id),
    {
        ctx.state.leader(ctx.state.round()) == ctx.state.id()
    }

    /// Prevotes for `block_hash` in `round`: tallies the vote and broadcasts it.
    pub fn send_prevote(&mut self, ctx: &mut NodeContext, round: u32, block_hash: crypto::Hash)
        requires
            old(ctx).wf(),
        ensures
            final(ctx).wf(),
            final(ctx)@ == sent_prevote(old(ctx)@, round, block_hash),
    {
        let prevote = Prevote::new(
            ctx.state.id(),
            ctx.deciding(),
            round,
            &block_hash,
            &ctx.secret_key,
        );
        ctx.state.add_prevote(&prevote);
        ctx.broadcast(prevote.to_bytes());
    }

    /// Precommits for `block_hash` and `state_hash` in `round`: tallies the
    /// vote and broadcasts it.
    pub fn send_precommit(
        &mut self,
        ctx: &mut NodeContext,
        round: u32,
        block_hash: crypto::Hash,
        state_hash: crypto::Hash,
    )
        requires
            old(ctx).wf(),
        ensures
            final(ctx).wf(),
            final(ctx)@ == sent_precommit(old(ctx)@, round, block_hash, state_hash),
    {
        let precommit = Precommit::new(
            ctx.state.id(),
            ctx.deciding(),
            round,
            &block_hash,
            &state_hash,
            &ctx.secret_key,
        );
        ctx.state.add_precommit(&precommit);
        ctx.broadcast(precommit.to_bytes());
    }

    /// Broadcasts that this node committed `block_hash` at `height`.
    pub fn send_commit(
        &mut self,
        ctx: &mut NodeContext,
        height: u64,
        round: u32,
        block_hash: crypto::Hash,
    )
        requires
            old(ctx).wf(),
        ensures
            final(ctx).wf(),
            final(ctx)@ == sent_commit(old(ctx)@, height, round, block_hash),
    {
        let commit = Commit::new(ctx.state.id(), height, round, &block_hash, &ctx.secret_key);
        ctx.broadcast(commit.to_bytes());
    }

    /// Proposes the pending transactions in the current round, stamped with
    /// the time of the event being handled, and prevotes for the proposal.
    pub fn send_propose(&mut self, ctx: &mut NodeContext)
        requires
            old(ctx).wf(),
        ensures
            final(ctx).wf(),
            final(ctx)@ == sent_propose(old(ctx)@),
    {
        let round = ctx.state.round();
        let propose = Propose::new(
            ctx.state.id(),
            ctx.deciding(),
            round,
            ctx.now,
            &ctx.state.prev_hash(),
            ctx.state.transactions(),
            &ctx.secret_key,
        );
        ctx.broadcast(propose.to_bytes());
        let hash = propose.hash();
        ctx.state.add_propose(hash, propose.round, propose.transactions);
        self.send_prevote(ctx, round, hash);
    }

    /// Applies to `fork` the pending transactions that `hashes` name, in order.
    fn run(&self, ctx: &NodeContext, fork: &mut DigitalRightsView, hashes: &Vec<crypto::Hash>)
        requires
            old(fork).wf(),
        ensures
            final(fork).wf(),
            final(fork)@ == run_block(old(fork)@, ctx@.state.pool, hashes@),
    {
        let n = hashes.len();
        let mut i: usize = 0;
        assert(hashes@.take(0) =~= Seq::<crypto::Hash>::empty());
        while i < n
            invariant
                i <= n,
                n == hashes@.len(),
                fork.wf(),
                fork@ == run_block(old(fork)@, ctx@.state.pool, hashes@.take(i as int)),
            decreases n - i,
        {
            proof {
                let next = hashes@.take(i + 1);
                assert(next.drop_last() =~= hashes@.take(i as int));
                assert(next.last() == hashes@[i as int]);
            }
            match ctx.state.find_tx(&hashes[i]) {
                Some(p) => {
                    DigitalRightsBlockchain::execute(fork, ctx.state.tx_at(p));
                },
                None => {},
            }
            i += 1;
        }
        assert(hashes@.take(n as int) =~= hashes@);
    }

    /// Makes sure that the block `hash` is executed and returns the state
    /// hash it leads to. A block not yet in the cache is executed on a fork
    /// of the committed registry, which is then cached.
    pub fn execute(&mut self, ctx: &mut NodeContext, hash: crypto::Hash) -> (state_hash:
        crypto::Hash)
        requires
            old(ctx).wf(),
        ensures
            final(ctx).wf(),
            final(ctx)@ == executed(old(ctx)@, hash),
            state_hash == state_hash_after(old(ctx)@, hash),
            was_executed(final(ctx)@.state.executed, hash),
    {
        match ctx.state.find_executed(&hash) {
            Some(p) => ctx.state.state_hash_at(p),
            None => {
                let mut fork = ctx.storage.view();
                match ctx.state.propose(&hash) {
                    Some(proposal) => {
                        self.run(ctx, &mut fork, &proposal.transactions);
                    },
                    None => {},
                }
                assert(fork@ == run_block(
                    ctx@.storage,
                    ctx@.state.pool,
                    block_transactions(ctx@.state, hash),
                ));
                let state_hash = DigitalRightsBlockchain::state_hash(&fork);
                ctx.state.add_executed(hash, state_hash, fork);
                proof {
                    let cache = ctx@.state.executed;
                    let last = cache.len() - 1;
                    assert(cache[last].block_hash == hash);
                    assert(is_first_executed(cache, hash, last)) by {
                        assert forall|j: int| 0 <= j < last implies (#[trigger] cache[j]).block_hash
                            != hash by {
                            assert(cache[j] == old(ctx)@.state.executed[j]);
                        }
                    }
                    let q = choose|q: int| is_first_executed(cache, hash, q);
                    assert(q == last) by {
                        if q < last {
                            assert(cache[q] == old(ctx)@.state.executed[q]);
                        }
                    }
                    assert(ctx@.outbox =~= old(ctx)@.outbox);
                }
                state_hash
            },
        }
    }

    /// Tops the pending pool up from the local supply.
    fn top_up(&mut self, ctx: &mut NodeContext)
        requires
            old(ctx).wf(),
        ensures
            final(ctx).wf(),
            final(ctx)@ == (NodeView {
                state: topped_up(old(ctx)@.state, old(ctx)@.generator.take(batch_len(old(ctx)@))),
                generator: old(ctx)@.generator.skip(batch_len(old(ctx)@)),
                ..old(ctx)@
            }),
    {
        let ghost supply = ctx@.generator;
        let ghost start = ctx@.state;
        let mut taken: usize = 0;
        assert(supply.take(0) =~= Seq::<DigitalRightsTx>::empty());
        assert(supply.skip(0) =~= supply);
        while taken < TX_BATCH && ctx.tx_generator.len() > 0
            invariant
                taken <= TX_BATCH,
                taken <= supply.len(),
                ctx.wf(),
                ctx@ == (NodeView {
                    state: topped_up(start, supply.take(taken as int)),
                    generator: supply.skip(taken as int),
                    ..old(ctx)@
                }),
            decreases TX_BATCH - taken,
        {
            let ghost before = ctx@;
            let tx = ctx.tx_generator.remove(0);
            let hash = tx.hash();
            ctx.state.add_tx(hash, tx);
            proof {
                let next = supply.take(taken + 1);
                assert(next.drop_last() =~= supply.take(taken as int));
                assert(next.last() == supply[taken as int]);
                assert(tx == supply.skip(taken as int)[0]);
                assert(ctx@.generator =~= supply.skip(taken + 1));
                assert(ctx@.outbox =~= old(ctx)@.outbox);
            }
            taken += 1;
        }
        proof {
            if taken < TX_BATCH {
                assert(supply.skip(taken as int).len() == 0);
            }
            assert(taken == batch_len(old(ctx)@));
        }
    }

    /// The state hash that executing the block `hash` leads to, without
    /// caching anything.
    pub fn local_state_hash(&self, ctx: &NodeContext, hash: crypto::Hash) -> (state_hash:
        crypto::Hash)
        requires
            ctx.wf(),
        ensures
            state_hash == state_hash_after(ctx@, hash),
    {
        match ctx.state.find_executed(&hash) {
            Some(p) => ctx.state.state_hash_at(p),
            None => {
                let mut fork = ctx.storage.view();
                match ctx.state.propose(&hash) {
                    Some(proposal) => {
                        self.run(ctx, &mut fork, &proposal.transactions);
                    },
                    None => {},
                }
                let state_hash = DigitalRightsBlockchain::state_hash(&fork);
                proof {
                    let cache = executed(ctx@, hash).state.executed;
                    let last = cache.len() - 1;
                    assert(cache[last].block_hash == hash);
                    assert(is_first_executed(cache, hash, last)) by {
                        assert forall|j: int| 0 <= j < last implies (#[trigger] cache[j]).block_hash
                            != hash by {
                            assert(cache[j] == ctx@.state.executed[j]);
                        }
                    }
                    let q = choose|q: int| is_first_executed(cache, hash, q);
                    assert(q == last) by {
                        if q < last {
                            assert(cache[q] == ctx@.state.executed[q]);
                        }
                    }
                }
                state_hash
            },
        }
    }

    /// Whether the precommit `msg` shows a safety violation: it completes a
    /// quorum for a known block and a state hash other than the one that
    /// executing the block here leads to.
    pub fn shows_violation(&self, ctx: &NodeContext, msg: &Precommit) -> (r: bool)
        requires
            ctx.wf(),
        ensures
            r == violates_safety(ctx@, *msg),
    {
        if !ctx.state.completes_precommits(msg) {
            return false;
        }
        if ctx.state.propose(&msg.block_hash).is_none() {
            return false;
        }
        !self.local_state_hash(ctx, msg.block_hash).same(&msg.state_hash)
    }

    /// Commits `hash` in `round`: the executed fork becomes the committed
    /// registry, the next height starts and the commit is announced; the
    /// messages put aside are handled in the order in which they came; then
    /// the pool is topped up, the node proposes if it leads the round it is
    /// in, and the timer of that round is armed.
    pub fn commit(&mut self, ctx: &mut NodeContext, round: u32, hash: crypto::Hash)
        requires
            old(ctx).wf(),
        ensures
            final(ctx).wf(),
            final(ctx)@ == committed(old(ctx)@, round, hash),
        decreases room(old(ctx)@), 3nat,
    {
        self.execute(ctx, hash);
        if ctx.state.height() == u64::MAX {
            return ;
        }
        let p = ctx.state.find_executed(&hash).unwrap();
        let fork = ctx.state.fork_at(p);
        ctx.storage.merge(fork);
        ctx.state.new_height(hash);
        assert(ctx@.outbox =~= old(ctx)@.outbox);
        self.send_commit(ctx, ctx.state.height(), round, hash);
        let ghost before = ctx@;
        let released = ctx.state.queue();
        assert(ctx@.outbox =~= before.outbox);
        assert(ctx@ == drained(before));
        self.handle_all(ctx, released);
        self.top_up(ctx);
        if self.is_leader(ctx) {
            self.send_propose(ctx);
        }
        ctx.add_timeout();
    }

    /// Locks on `block_hash` in `round` and goes on as far as `end`.
    fn lock_until(&mut self, ctx: &mut NodeContext, round: u32, block_hash: crypto::Hash, end: u32)
        requires
            old(ctx).wf(),
        ensures
            final(ctx).wf(),
            final(ctx)@ == locked(old(ctx)@, round, block_hash, end),
        decreases room(old(ctx)@), 4nat,
    {
        let ghost target = locked(ctx@, round, block_hash, end);
        let mut locking = true;
        let mut r: u32 = round;
        loop
            invariant_except_break
                ctx@.state.height == old(ctx)@.state.height,
                target == (if locking {
                    locked(ctx@, r, block_hash, end)
                } else {
                    scanned(ctx@, block_hash, r, end)
                }),
            invariant
                ctx.wf(),
            ensures
                ctx.wf(),
                ctx@ == target,
            decreases
                    span(end, r as int),
                    (if locking {
                        1nat
                    } else {
                        2nat
                    }),
        {
            if locking {
                ctx.state.lock(r, block_hash);
                let state_hash = self.execute(ctx, block_hash);
                self.send_precommit(ctx, r, block_hash, state_hash);
                if ctx.state.has_majority_precommits(r, &block_hash, &state_hash) {
                    self.commit(ctx, r, block_hash);
                    break ;
                }
                if ctx.state.have_incompatible_prevotes() || r >= end {
                    break ;
                }
                r = r + 1;
                locking = false;
            } else {
                if r > end {
                    break ;
                }
                if ctx.state.have_prevote(r) {
                    if r == end {
                        break ;
                    }
                    r = r + 1;
                } else {
                    self.send_prevote(ctx, r, block_hash);
                    if ctx.state.has_majority_prevotes(r, &block_hash) {
                        locking = true;
                    } else if r == end {
                        break ;
                    } else {
                        r = r + 1;
                    }
                }
            }
        }
    }

    /// Locks on `block_hash` in `round`: executes the block and precommits.
    /// With a quorum of precommits the block is committed. Else, unless this
    /// node has prevoted otherwise, it prevotes for the block in the later
    /// rounds up to the current one in which it has not prevoted yet, and
    /// locks again where that makes a quorum.
    pub fn lock(&mut self, ctx: &mut NodeContext, round: u32, block_hash: crypto::Hash)
        requires
            old(ctx).wf(),
        ensures
            final(ctx).wf(),
            final(ctx)@ == locked(old(ctx)@, round, block_hash, old(ctx)@.state.round),
        decreases room(old(ctx)@), 5nat,
    {
        let end = ctx.state.round();
        self.lock_until(ctx, round, block_hash, end);
    }

    /// Acts on a block whose proposal and transactions are all here: unless
    /// locked, prevotes for it in the proposal's round; then locks on it in
    /// every round after that of the lock, up to the current one, that has a
    /// quorum of prevotes for it.
    pub fn have_block(&mut self, ctx: &mut NodeContext, hash: crypto::Hash)
        requires
            old(ctx).wf(),
        ensures
            final(ctx).wf(),
            final(ctx)@ == with_block(old(ctx)@, hash),
        decreases room(old(ctx)@), 6nat,
    {
        let round = match ctx.state.propose(&hash) {
            Some(proposal) => proposal.round,
            None => {
                return ;
            },
        };
        if ctx.state.locked_round() == 0 {
            self.send_prevote(ctx, round, hash);
        }
        let end = ctx.state.round();
        if ctx.state.locked_round() >= end {
            return ;
        }
        let height = ctx.state.height();
        let mut r: u32 = ctx.state.locked_round() + 1;
        let ghost target = lock_search(ctx@, hash, r, end, height);
        loop
            invariant_except_break
                r <= end,
                ctx@.state.height == height,
                height == old(ctx)@.state.height,
                target == lock_search(ctx@, hash, r, end, height),
            invariant
                ctx.wf(),
            ensures
                ctx@ == target,
            decreases span(end, r as int),
        {
            if ctx.halted {
                break ;
            }
            if ctx.state.has_majority_prevotes(r, &hash) {
                self.lock(ctx, r, hash);
            }
            if r == end || ctx.state.height() != height {
                break ;
            }
            r = r + 1;
        }
    }

    /// Handles an admitted proposal from the round's leader: a proposal that
    /// is known already, or that names a transaction not pending here, is
    /// passed over; else it is remembered and acted on.
    pub fn handle_propose(&mut self, ctx: &mut NodeContext, propose: Propose)
        requires
            old(ctx).wf(),
        ensures
            final(ctx).wf(),
            final(ctx)@ == on_propose(old(ctx)@, propose),
        decreases room(old(ctx)@), 7nat,
    {
        let hash = propose.hash();
        if ctx.state.propose(&hash).is_some() {
            return ;
        }
        let n = propose.transactions.len();
        let mut i: usize = 0;
        while i < n
            invariant
                i <= n,
                n == propose.transactions@.len(),
                ctx.wf(),
                ctx@ == old(ctx)@,
                forall|j: int|
                    0 <= j < i ==> pool_has(ctx@.state.pool, #[trigger] propose.transactions@[j]),
            decreases n - i,
        {
            if ctx.state.find_tx(&propose.transactions[i]).is_none() {
                return ;
            }
            i += 1;
        }
        assert(transactions_known(ctx@.state, propose.transactions@));
        ctx.state.add_propose(hash, propose.round, propose.transactions);
        assert(ctx@.outbox =~= old(ctx)@.outbox);
        self.have_block(ctx, hash);
    }

    /// Handles an admitted prevote: tallies it, and locks on its block if that
    /// makes a quorum in a round after this node's lock and the block is known.
    pub fn handle_prevote(&mut self, ctx: &mut NodeContext, prevote: Prevote)
        requires
            old(ctx).wf(),
        ensures
            final(ctx).wf(),
            final(ctx)@ == on_prevote(old(ctx)@, prevote),
        decreases room(old(ctx)@), 7nat,
    {
        let has_consensus = ctx.state.add_prevote(&prevote);
        assert(ctx@.outbox =~= old(ctx)@.outbox);
        if has_consensus && ctx.state.locked_round() < prevote.round {
            let hash = prevote.block_hash;
            if ctx.state.propose(&hash).is_some() {
                self.lock(ctx, prevote.round, hash);
            }
        }
    }

    /// Handles an admitted precommit: tallies it and, if that completes a
    /// quorum for a known block, commits the block. A precommit that shows a
    /// safety violation must not be handed in: `shows_violation` tells, and
    /// the node has to halt instead.
    pub fn handle_precommit(&mut self, ctx: &mut NodeContext, msg: Precommit)
        requires
            old(ctx).wf(),
            !violates_safety(old(ctx)@, msg),
        ensures
            final(ctx).wf(),
            final(ctx)@ == on_precommit(old(ctx)@, msg),
        decreases room(old(ctx)@), 7nat,
    {
        let has_consensus = ctx.state.add_precommit(&msg);
        assert(ctx@.outbox =~= old(ctx)@.outbox);
        assert(ctx@ == with_precommit_tallied(old(ctx)@, msg));
        if has_consensus {
            let block_hash = msg.block_hash;
            if ctx.state.propose(&block_hash).is_some() {
                self.commit(ctx, msg.round, block_hash);
            }
        }
    }

    /// Handles an admitted commit notice: records it. Progress is driven by
    /// precommits, not by these notices.
    pub fn handle_commit(&mut self, ctx: &mut NodeContext, msg: Commit)
        requires
            old(ctx).wf(),
        ensures
            final(ctx).wf(),
            final(ctx)@ == on_commit(old(ctx)@, msg),
    {
        ctx.commits.push(msg);
        assert(ctx@.outbox =~= old(ctx)@.outbox);
    }

    /// Decides what becomes of an arriving message.
    pub fn classify(&self, ctx: &NodeContext, msg: &ConsensusMessage) -> (a: Admission)
        requires
            ctx.wf(),
        ensures
            a == admission(ctx@, *msg),
    {
        if ctx.halted || msg.height() <= ctx.state.height() {
            return Admission::Stale;
        }
        if msg.height() - 1 > ctx.state.height() || msg.round() > ctx.state.round() {
            return Admission::Early;
        }
        match ctx.state.public_key_of(msg.validator()) {
            Some(public_key) => {
                if !msg.verify(public_key) {
                    return Admission::Refused;
                }
            },
            None => {
                return Admission::Refused;
            },
        }
        Admission::Admitted
    }

    /// Handles one arriving message. A message for a decided height is
    /// dropped, one for a later height or round is put aside, one from an
    /// unknown validator or with a bad signature is rejected. A precommit
    /// that shows a safety violation halts the node: it commits nothing and
    /// handles no further message.
    pub fn handle_one(&mut self, ctx: &mut NodeContext, msg: ConsensusMessage)
        requires
            old(ctx).wf(),
        ensures
            final(ctx).wf(),
            final(ctx)@ == step(old(ctx)@, msg),
            casts_sound(old(ctx)@) && from_others(old(ctx)@, old(ctx)@.state.queued)
                && msg.spec_validator() != old(ctx)@.state.id ==> casts_sound(final(ctx)@)
                && from_others(final(ctx)@, final(ctx)@.state.queued),
        decreases room(old(ctx)@), 8nat,
    {
        proof {
            if casts_sound(ctx@) && from_others(ctx@, ctx@.state.queued) && msg.spec_validator()
                != ctx@.state.id {
                lemma_step_casts(ctx@, msg);
            }
        }
        match self.classify(ctx, &msg) {
            Admission::Stale => {},
            Admission::Refused => {},
            Admission::Early => {
                ctx.state.add_queued(msg);
                assert(ctx@.outbox =~= old(ctx)@.outbox);
            },
            Admission::Admitted => {
                match msg {
                    ConsensusMessage::Propose(msg) => {
                        if !msg.prev_hash.same(&ctx.state.prev_hash()) {
                            return ;
                        }
                        if msg.validator != ctx.state.leader(msg.round) {
                            return ;
                        }
                        self.handle_propose(ctx, msg)
                    },
                    ConsensusMessage::Prevote(msg) => self.handle_prevote(ctx, msg),
                    ConsensusMessage::Precommit(msg) => {
                        if self.shows_violation(ctx, &msg) {
                            ctx.halted = true;
                            assert(ctx@.outbox =~= old(ctx)@.outbox);
                        } else {
                            self.handle_precommit(ctx, msg)
                        }
                    },
                    ConsensusMessage::Commit(msg) => self.handle_commit(ctx, msg),
                }
            },
        }
    }

    /// Handles the messages in `work` one after the other.
    pub fn handle_all(&mut self, ctx: &mut NodeContext, work: Vec<ConsensusMessage>)
        requires
            old(ctx).wf(),
        ensures
            final(ctx).wf(),
            final(ctx)@ == process(old(ctx)@, work@),
            casts_sound(old(ctx)@) && from_others(old(ctx)@, old(ctx)@.state.queued)
                && from_others(old(ctx)@, work@) ==> casts_sound(final(ctx)@) && from_others(
                final(ctx)@,
                final(ctx)@.state.queued,
            ),
        decreases room(old(ctx)@), 10nat,
    {
        proof {
            if casts_sound(ctx@) && from_others(ctx@, ctx@.state.queued) && from_others(
                ctx@,
                work@,
            ) {
                lemma_process_casts(ctx@, work@);
            }
        }
        let ghost target = process(ctx@, work@);
        let mut work = work;
        while work.len() > 0
            invariant
                ctx.wf(),
                ctx@.state.height >= old(ctx)@.state.height,
                target == process(ctx@, work@),
            decreases work@.len(),
        {
            let ghost before = ctx@;
            let ghost rest = work@.skip(1);
            proof {
                lemma_process_unfold(before, work@);
                lemma_step_height(before, work@[0]);
            }
            let msg = work.remove(0);
            assert(work@ =~= rest);
            self.handle_one(ctx, msg);
        }
    }

    /// Handles a message at the time `time`.
    pub fn handle_at(&mut self, ctx: &mut NodeContext, msg: ConsensusMessage, time: Timespec)
        requires
            old(ctx).wf(),
        ensures
            final(ctx).wf(),
            final(ctx)@ == step(stamped(old(ctx)@, time), msg),
            casts_sound(old(ctx)@) && from_others(old(ctx)@, old(ctx)@.state.queued)
                && msg.spec_validator() != old(ctx)@.state.id ==> casts_sound(final(ctx)@)
                && from_others(final(ctx)@, final(ctx)@.state.queued),
    {
        ctx.now = time;
        assert(ctx@.outbox =~= old(ctx)@.outbox);
        self.handle_one(ctx, msg);
    }

    /// Handles a message that arrived now: reads the clock, then handles the
    /// message, and with it, if it leads to a commit, the messages that were
    /// put aside.
    pub fn handle(&mut self, ctx: &mut NodeContext, msg: ConsensusMessage)
        requires
            old(ctx).wf(),
        ensures
            final(ctx).wf(),
            exists|time: Timespec| final(ctx)@ == step(#[trigger] stamped(old(ctx)@, time), msg),
            casts_sound(old(ctx)@) && from_others(old(ctx)@, old(ctx)@.state.queued)
                && msg.spec_validator() != old(ctx)@.state.id ==> casts_sound(final(ctx)@)
                && from_others(final(ctx)@, final(ctx)@.state.queued),
    {
        let time = now();
        self.handle_at(ctx, msg, time);
        assert(ctx@ == step(stamped(old(ctx)@, time), msg));
    }

    /// Handles the timer `timeout` fired at the time `time`.
    pub fn handle_timeout_at(&mut self, ctx: &mut NodeContext, timeout: Timeout, time: Timespec)
        requires
            old(ctx).wf(),
        ensures
            final(ctx).wf(),
            final(ctx)@ == timed_out(stamped(old(ctx)@, time), timeout),
            casts_sound(old(ctx)@) && from_others(old(ctx)@, old(ctx)@.state.queued)
                ==> casts_sound(final(ctx)@) && from_others(
                final(ctx)@,
                final(ctx)@.state.queued,
            ),
    {
        proof {
            if casts_sound(ctx@) && from_others(ctx@, ctx@.state.queued) {
                assert(casts_sound(stamped(ctx@, time)));
                assert(from_others(stamped(ctx@, time), stamped(ctx@, time).state.queued));
                lemma_timed_out_casts(stamped(ctx@, time), timeout);
            }
        }
        ctx.now = time;
        assert(ctx@.outbox =~= old(ctx)@.outbox);
        if ctx.halted {
            return ;
        }
        if timeout.height != ctx.state.height() {
            return ;
        }
        if timeout.round != ctx.state.round() {
            return ;
        }
        if ctx.state.round() == u32::MAX {
            return ;
        }
        ctx.state.new_round();
        ctx.add_timeout();
        if ctx.state.locked_round() > 0 {
            let hash = ctx.state.locked_block_hash();
            self.send_prevote(ctx, ctx.state.round(), hash);
        } else if self.is_leader(ctx) {
            self.send_propose(ctx);
        }
        let ghost before = ctx@;
        let released = ctx.state.queue();
        assert(ctx@.outbox =~= before.outbox);
        assert(ctx@ == drained(before));
        self.handle_all(ctx, released);
    }

    /// Handles a timer that fired now: reads the clock, then handles the
    /// timeout. A timer for another height or round is ignored.
    pub fn handle_timeout(&mut self, ctx: &mut NodeContext, timeout: Timeout)
        requires
            old(ctx).wf(),
        ensures
            final(ctx).wf(),
            exists|time: Timespec|
                final(ctx)@ == timed_out(#[trigger] stamped(old(ctx)@, time), timeout),
            casts_sound(old(ctx)@) && from_others(old(ctx)@, old(ctx)@.state.queued)
                ==> casts_sound(final(ctx)@) && from_others(
                final(ctx)@,
                final(ctx)@.state.queued,
            ),
    {
        let time = now();
        self.handle_timeout_at(ctx, timeout, time);
    }
}

} // verus!
