//! The agreement protocol as a function from a node's state and an event to
//! the node's next state. The handler's contracts refer to these definitions.
//!
//! A node works on one height at a time, in rounds. Messages carry the height
//! being decided, which is one more than the number of committed blocks.

use crate::crypto;
use crate::crypto::{hash_of, SecretKey};
use crate::messages::{
    signed_commit, signed_precommit, signed_prevote, signed_propose_bytes, Commit, ConsensusMessage,
    Precommit, Prevote, Propose, Timespec,
};
use crate::rights::{apply, state_preimage};
use crate::state::{
    at_new_height, executed_of, holds_precommit, holds_prevote, incompatible_prevotes,
    knows_proposal, leader_of, majority_precommits, majority_prevotes, own_prevote_in, pool_has,
    pool_hashes, pooled_tx, proposal_of, same_precommit, same_prevote, tally_precommit,
    tally_prevote, was_executed, ExecutedView, PoolEntry, ProposalView, StateView,
};
use crate::txs::DigitalRightsTx;
use crate::view::RightsState;
use vstd::prelude::*;

verus! {

/// The largest number of transactions taken from the local supply at a commit.
pub const TX_BATCH: usize = 100;

/// A timer armed for a round of a height.
#[derive(Clone, Copy, Debug, PartialEq, Eq, Structural)]
pub struct Timeout {
    pub height: u64,
    pub round: u32,
}

/// A node as mathematical values.
pub struct NodeView {
    /// The consensus state.
    pub state: StateView,
    /// The committed registry.
    pub storage: RightsState,
    /// The key this node signs with.
    pub secret_key: SecretKey,
    /// The time of the event being handled.
    pub now: Timespec,
    /// The byte strings handed to the transport for broadcast, oldest first.
    pub outbox: Seq<Seq<u8>>,
    /// The timers armed, oldest first.
    pub timeouts: Seq<Timeout>,
    /// The local supply of new transactions.
    pub generator: Seq<DigitalRightsTx>,
    /// The commit notices seen from other validators.
    pub commits: Seq<Commit>,
    /// Whether the node has stopped on a safety violation.
    pub halted: bool,
}

/// The node when an event arrives at the time `time`.
pub open spec fn stamped(n: NodeView, time: Timespec) -> NodeView {
    NodeView { now: time, ..n }
}

/// The height being decided: one more than the number of committed blocks.
pub open spec fn next_height(s: StateView) -> u64 {
    if s.height < u64::MAX {
        (s.height + 1) as u64
    } else {
        u64::MAX
    }
}

/// The node after it prevoted for `block` in `round`: the vote is tallied and
/// broadcast.
pub open spec fn sent_prevote(n: NodeView, round: u32, block: crypto::Hash) -> NodeView {
    let vote = signed_prevote(n.state.id, next_height(n.state), round, block, n.secret_key);
    NodeView {
        state: StateView { prevotes: tally_prevote(n.state, vote), ..n.state },
        outbox: n.outbox.push(vote.encoding()),
        ..n
    }
}

/// The node after it precommitted for `block` and `state_hash` in `round`:
/// the vote is tallied and broadcast.
pub open spec fn sent_precommit(
    n: NodeView,
    round: u32,
    block: crypto::Hash,
    state_hash: crypto::Hash,
) -> NodeView {
    let vote = signed_precommit(
        n.state.id,
        next_height(n.state),
        round,
        block,
        state_hash,
        n.secret_key,
    );
    NodeView {
        state: StateView { precommits: tally_precommit(n.state, vote), ..n.state },
        outbox: n.outbox.push(vote.encoding()),
        ..n
    }
}

/// The node after it broadcast that it committed `block` at `height`.
pub open spec fn sent_commit(
    n: NodeView,
    height: u64,
    round: u32,
    block: crypto::Hash,
) -> NodeView {
    let notice = signed_commit(n.state.id, height, round, block, n.secret_key);
    NodeView { outbox: n.outbox.push(notice.encoding()), ..n }
}

/// The node after it proposed the pending transactions in the current round:
/// the proposal is broadcast and remembered, and the node prevotes for it.
pub open spec fn sent_propose(n: NodeView) -> NodeView {
    let transactions = pool_hashes(n.state.pool);
    let bytes = signed_propose_bytes(
        n.state.id,
        next_height(n.state),
        n.state.round,
        n.now,
        n.state.prev_hash,
        transactions,
        n.secret_key,
    );
    let hash = hash_of(bytes);
    let state = if knows_proposal(n.state, hash) {
        n.state
    } else {
        StateView {
            proposals: n.state.proposals.push(
                ProposalView { hash, round: n.state.round, transactions },
            ),
            ..n.state
        }
    };
    sent_prevote(NodeView { state, outbox: n.outbox.push(bytes), ..n }, n.state.round, hash)
}

/// The registry after the transactions named by `hashes` were applied in
/// order. A hash that names no pending transaction is passed over.
pub open spec fn run_block(
    s: RightsState,
    pool: Seq<PoolEntry>,
    hashes: Seq<crypto::Hash>,
) -> RightsState
    decreases hashes.len(),
{
    if hashes.len() == 0 {
        s
    } else {
        let t = run_block(s, pool, hashes.drop_last());
        if pool_has(pool, hashes.last()) {
            apply(t, pooled_tx(pool, hashes.last()))
        } else {
            t
        }
    }
}

/// The transaction hashes of the block `block`; none if no proposal is known
/// by that hash.
pub open spec fn block_transactions(s: StateView, block: crypto::Hash) -> Seq<crypto::Hash> {
    if knows_proposal(s, block) {
        proposal_of(s, block).transactions
    } else {
        Seq::empty()
    }
}

/// The node after it made sure that `block` is executed: if the block is not
/// in the cache, its transactions are applied to a fork of the committed
/// registry, and the fork is cached with its state hash.
pub open spec fn executed(n: NodeView, block: crypto::Hash) -> NodeView {
    if was_executed(n.state.executed, block) {
        n
    } else {
        let result = run_block(n.storage, n.state.pool, block_transactions(n.state, block));
        NodeView {
            state: StateView {
                executed: n.state.executed.push(
                    ExecutedView {
                        block_hash: block,
                        state_hash: hash_of(state_preimage(result)),
                        state: result,
                    },
                ),
                ..n.state
            },
            ..n
        }
    }
}

/// The state hash that executing `block` leads to.
pub open spec fn state_hash_after(n: NodeView, block: crypto::Hash) -> crypto::Hash {
    executed_of(executed(n, block).state, block).state_hash
}

/// The state after the transactions `txs` joined the pool, each under its
/// hash, unless one with that hash was there.
pub open spec fn topped_up(s: StateView, txs: Seq<DigitalRightsTx>) -> StateView
    decreases txs.len(),
{
    if txs.len() == 0 {
        s
    } else {
        let t = topped_up(s, txs.drop_last());
        let hash = txs.last().spec_hash();
        if pool_has(t.pool, hash) {
            t
        } else {
            StateView { pool: t.pool.push(PoolEntry { hash, tx: txs.last() }), ..t }
        }
    }
}

/// The node after a transaction arrived: it joins the pool under its hash
/// if its signature verifies under its author's key and no transaction with
/// that hash is pending.
pub open spec fn with_tx(n: NodeView, tx: DigitalRightsTx) -> NodeView {
    if crypto::signature_valid(tx.author()@, tx.payload(), tx.signed_with()@) && !pool_has(
        n.state.pool,
        tx.spec_hash(),
    ) {
        NodeView {
            state: StateView {
                pool: n.state.pool.push(PoolEntry { hash: tx.spec_hash(), tx }),
                ..n.state
            },
            ..n
        }
    } else {
        n
    }
}

/// The number of transactions taken from the local supply at a commit.
pub open spec fn batch_len(n: NodeView) -> int {
    if n.generator.len() < TX_BATCH {
        n.generator.len() as int
    } else {
        TX_BATCH as int
    }
}

/// The room left above the node's height: what every commit uses up.
pub open spec fn room(n: NodeView) -> nat {
    (u64::MAX - n.state.height) as nat
}

/// The number of rounds from `r` up to `end`, both included.
pub open spec fn span(end: u32, r: int) -> nat {
    if r <= end {
        (end - r + 1) as nat
    } else {
        0
    }
}

/// The node with no messages put aside.
pub open spec fn drained(n: NodeView) -> NodeView {
    NodeView { state: StateView { queued: Seq::empty(), ..n.state }, ..n }
}

/// Whether every transaction that the proposal names is pending here.
pub open spec fn transactions_known(s: StateView, transactions: Seq<crypto::Hash>) -> bool {
    forall|i: int| 0 <= i < transactions.len() ==> pool_has(s.pool, #[trigger] transactions[i])
}

/// The node after it handled an admitted commit notice: the notice is recorded.
pub open spec fn on_commit(n: NodeView, notice: Commit) -> NodeView {
    NodeView { commits: n.commits.push(notice), ..n }
}

/// What becomes of an arriving message.
pub enum Admission {
    /// Dropped: the node has halted, or the message is for a height that is decided.
    Stale,
    /// Put aside: the message is for a later height or round.
    Early,
    /// Rejected: the sender is no validator, or the signature does not verify.
    Refused,
    /// Handled now.
    Admitted,
}

/// What becomes of `msg` when it arrives at `n`.
pub open spec fn admission(n: NodeView, msg: ConsensusMessage) -> Admission {
    if n.halted || msg.spec_height() < n.state.height + 1 {
        Admission::Stale
    } else if msg.spec_height() > n.state.height + 1 || msg.spec_round() > n.state.round {
        Admission::Early
    } else if msg.spec_validator() >= n.state.validators.len() || !msg.signed_by(
        n.state.validators[msg.spec_validator() as int],
    ) {
        Admission::Refused
    } else {
        Admission::Admitted
    }
}

/// The node with the precommit `vote` tallied.
pub open spec fn with_precommit_tallied(n: NodeView, vote: Precommit) -> NodeView {
    NodeView { state: StateView { precommits: tally_precommit(n.state, vote), ..n.state }, ..n }
}

/// Whether the precommit `vote` completes a quorum for a known block.
pub open spec fn completes_quorum(n: NodeView, vote: Precommit) -> bool {
    majority_precommits(
        with_precommit_tallied(n, vote).state,
        vote.round,
        vote.block_hash,
        vote.state_hash,
    ) && knows_proposal(n.state, vote.block_hash)
}

/// Whether the precommit `vote` shows a safety violation: it completes a
/// quorum for a known block and a state hash other than the one that
/// executing the block here leads to.
pub open spec fn violates_safety(n: NodeView, vote: Precommit) -> bool {
    completes_quorum(n, vote) && state_hash_after(n, vote.block_hash) != vote.state_hash
}

/// The node after it committed `block` in `round`: the executed fork becomes
/// the committed registry, the next height starts and the commit is
/// announced; the messages put aside are handled, in the order in which they
/// came; then the pool is topped up from the local supply, the node proposes
/// if it leads the round it is in, and the timer of that round is armed. At
/// the last height a counter can hold, the block is executed and no more.
pub open spec fn committed(n: NodeView, round: u32, block: crypto::Hash) -> NodeView
    decreases room(n), 3nat, 0nat, 0nat,
{
    let n1 = executed(n, block);
    if n1.state.height >= u64::MAX {
        n1
    } else {
        let n2 = NodeView {
            storage: executed_of(n1.state, block).state,
            state: at_new_height(n1.state, block),
            ..n1
        };
        let n3 = sent_commit(n2, n2.state.height, round, block);
        let n4 = process(drained(n3), n3.state.queued);
        let k = batch_len(n4);
        let n5 = NodeView {
            state: topped_up(n4.state, n4.generator.take(k)),
            generator: n4.generator.skip(k),
            ..n4
        };
        let n6 = if leader_of(n5.state, n5.state.round) == n5.state.id {
            sent_propose(n5)
        } else {
            n5
        };
        NodeView {
            timeouts: n6.timeouts.push(Timeout { height: n6.state.height, round: n6.state.round }),
            ..n6
        }
    }
}

/// The node after it locked on `block` in `round`: it executes the block and
/// precommits. With a quorum of precommits it commits. Else, unless it has
/// prevoted otherwise, it prevotes for the block in the rounds after `round`
/// up to `end` in which it has not prevoted.
pub open spec fn locked(n: NodeView, round: u32, block: crypto::Hash, end: u32) -> NodeView
    decreases room(n), 4nat, span(end, round as int), 1nat,
{
    let n1 = NodeView {
        state: StateView { locked_round: round, locked_block_hash: block, ..n.state },
        ..n
    };
    let n2 = executed(n1, block);
    let state_hash = executed_of(n2.state, block).state_hash;
    let n3 = sent_precommit(n2, round, block, state_hash);
    if majority_precommits(n3.state, round, block, state_hash) {
        committed(n3, round, block)
    } else if incompatible_prevotes(n3.state) || round >= end {
        n3
    } else {
        scanned(n3, block, (round + 1) as u32, end)
    }
}

/// The node after it went through the rounds from `r` up to `end`: in each
/// round without a prevote of its own it prevotes for `block`, and where that
/// makes a quorum it locks in that round and goes on from there.
pub open spec fn scanned(n: NodeView, block: crypto::Hash, r: u32, end: u32) -> NodeView
    decreases room(n), 4nat, span(end, r as int), 2nat,
{
    if r > end {
        n
    } else if own_prevote_in(n.state, r) {
        if r == end {
            n
        } else {
            scanned(n, block, (r + 1) as u32, end)
        }
    } else {
        let n1 = sent_prevote(n, r, block);
        if majority_prevotes(n1.state, r, block) {
            locked(n1, r, block, end)
        } else if r == end {
            n1
        } else {
            scanned(n1, block, (r + 1) as u32, end)
        }
    }
}

/// The node after it looked for a lock in the rounds from `r` up to `end`:
/// it locks on `block` in each round that has a quorum of prevotes for it.
/// The search ends when the height changes or the node halts.
pub open spec fn lock_search(
    n: NodeView,
    block: crypto::Hash,
    r: u32,
    end: u32,
    height: u64,
) -> NodeView
    decreases room(n), 5nat, span(end, r as int), 0nat,
{
    if r > end || n.state.height != height || n.halted {
        n
    } else {
        let n1 = if majority_prevotes(n.state, r, block) {
            locked(n, r, block, n.state.round)
        } else {
            n
        };
        if r == end || n1.state.height != height {
            n1
        } else {
            lock_search(n1, block, (r + 1) as u32, end, height)
        }
    }
}

/// The node after it learned the whole block `block`: unless locked, it
/// prevotes for the block in the proposal's round; then it looks for a lock
/// in every round after that of its lock up to the current one. Nothing
/// happens for a block that is not known.
pub open spec fn with_block(n: NodeView, block: crypto::Hash) -> NodeView
    decreases room(n), 6nat, 0nat, 0nat,
{
    if !knows_proposal(n.state, block) {
        n
    } else {
        let round = proposal_of(n.state, block).round;
        let n1 = if n.state.locked_round == 0 {
            sent_prevote(n, round, block)
        } else {
            n
        };
        if n1.state.locked_round >= n1.state.round {
            n1
        } else {
            lock_search(
                n1,
                block,
                (n1.state.locked_round + 1) as u32,
                n1.state.round,
                n1.state.height,
            )
        }
    }
}

/// The node after it handled an admitted proposal: a proposal that is known
/// already, or that names a transaction not pending here, is passed over;
/// else it is remembered and the node acts on the block.
pub open spec fn on_propose(n: NodeView, propose: Propose) -> NodeView
    decreases room(n), 7nat, 0nat, 0nat,
{
    let hash = propose.spec_hash();
    if knows_proposal(n.state, hash) || !transactions_known(n.state, propose.transactions@) {
        n
    } else {
        with_block(
            NodeView {
                state: StateView {
                    proposals: n.state.proposals.push(
                        ProposalView {
                            hash,
                            round: propose.round,
                            transactions: propose.transactions@,
                        },
                    ),
                    ..n.state
                },
                ..n
            },
            hash,
        )
    }
}

/// The node after it handled an admitted prevote: the vote is tallied; if
/// that makes a quorum in a round after the node's lock and the block is
/// known, the node locks on it.
pub open spec fn on_prevote(n: NodeView, vote: Prevote) -> NodeView
    decreases room(n), 7nat, 0nat, 0nat,
{
    let n1 = NodeView {
        state: StateView { prevotes: tally_prevote(n.state, vote), ..n.state },
        ..n
    };
    if majority_prevotes(n1.state, vote.round, vote.block_hash) && n1.state.locked_round
        < vote.round && knows_proposal(n1.state, vote.block_hash) {
        locked(n1, vote.round, vote.block_hash, n1.state.round)
    } else {
        n1
    }
}

/// The node after it handled an admitted precommit that shows no safety
/// violation: the vote is tallied; if that completes a quorum for a known
/// block, the node commits the block.
pub open spec fn on_precommit(n: NodeView, vote: Precommit) -> NodeView
    decreases room(n), 7nat, 0nat, 0nat,
{
    let n1 = with_precommit_tallied(n, vote);
    if completes_quorum(n, vote) {
        committed(n1, vote.round, vote.block_hash)
    } else {
        n1
    }
}

/// The node after one message arrived. A precommit that shows a safety
/// violation halts the node: nothing is tallied, executed or committed.
pub open spec fn step(n: NodeView, msg: ConsensusMessage) -> NodeView
    decreases room(n), 8nat, 0nat, 0nat,
{
    match admission(n, msg) {
        Admission::Stale => n,
        Admission::Refused => n,
        Admission::Early => NodeView {
            state: StateView { queued: n.state.queued.push(msg), ..n.state },
            ..n
        },
        Admission::Admitted => match msg {
            ConsensusMessage::Propose(m) => {
                if m.prev_hash != n.state.prev_hash || m.validator != leader_of(n.state, m.round) {
                    n
                } else {
                    on_propose(n, m)
                }
            },
            ConsensusMessage::Prevote(m) => on_prevote(n, m),
            ConsensusMessage::Precommit(m) => {
                if violates_safety(n, m) {
                    NodeView { halted: true, ..n }
                } else {
                    on_precommit(n, m)
                }
            },
            ConsensusMessage::Commit(m) => on_commit(n, m),
        },
    }
}

/// The node after the messages in `work` arrived one after the other. (No
/// message takes the node back to a lower height, `lemma_step_height`; the
/// test on the height is there to make the definition well founded, and
/// `lemma_process_unfold` states the definition without it.)
pub open spec fn process(n: NodeView, work: Seq<ConsensusMessage>) -> NodeView
    decreases room(n), 10nat, work.len(), 0nat,
{
    if work.len() == 0 {
        n
    } else {
        let n1 = step(n, work[0]);
        if n1.state.height < n.state.height {
            n1
        } else {
            process(n1, work.skip(1))
        }
    }
}

/// Topping the pool up touches nothing but the pool.
pub proof fn lemma_topped_up_frame(s: StateView, txs: Seq<DigitalRightsTx>)
    ensures
        topped_up(s, txs) == (StateView { pool: topped_up(s, txs).pool, ..s }),
    decreases txs.len(),
{
    if txs.len() > 0 {
        lemma_topped_up_frame(s, txs.drop_last());
    }
}

/// Whether `after` is at the height of `before` or above it.
pub open spec fn not_below(before: NodeView, after: NodeView) -> bool {
    after.state.height >= before.state.height
}

/// A commit never takes the node back to a lower height.
pub proof fn lemma_committed_height(n: NodeView, round: u32, block: crypto::Hash)
    ensures
        not_below(n, committed(n, round, block)),
        n.state.height < u64::MAX ==> committed(n, round, block).state.height > n.state.height,
    decreases room(n), 3nat, 0nat, 0nat,
{
    let n1 = executed(n, block);
    if n1.state.height < u64::MAX {
        let n2 = NodeView {
            storage: executed_of(n1.state, block).state,
            state: at_new_height(n1.state, block),
            ..n1
        };
        let n3 = sent_commit(n2, n2.state.height, round, block);
        lemma_process_height(drained(n3), n3.state.queued);
        let n4 = process(drained(n3), n3.state.queued);
        lemma_topped_up_frame(n4.state, n4.generator.take(batch_len(n4)));
    }
}

/// Locking never takes the node back to a lower height.
pub proof fn lemma_locked_height(n: NodeView, round: u32, block: crypto::Hash, end: u32)
    ensures
        not_below(n, locked(n, round, block, end)),
    decreases room(n), 4nat, span(end, round as int), 1nat,
{
    let n1 = NodeView {
        state: StateView { locked_round: round, locked_block_hash: block, ..n.state },
        ..n
    };
    let n2 = executed(n1, block);
    let state_hash = executed_of(n2.state, block).state_hash;
    let n3 = sent_precommit(n2, round, block, state_hash);
    if majority_precommits(n3.state, round, block, state_hash) {
        lemma_committed_height(n3, round, block);
    } else if incompatible_prevotes(n3.state) || round >= end {
    } else {
        lemma_scanned_height(n3, block, (round + 1) as u32, end);
    }
}

/// Going through the rounds never takes the node back to a lower height.
pub proof fn lemma_scanned_height(n: NodeView, block: crypto::Hash, r: u32, end: u32)
    ensures
        not_below(n, scanned(n, block, r, end)),
    decreases room(n), 4nat, span(end, r as int), 2nat,
{
    if r > end {
    } else if own_prevote_in(n.state, r) {
        if r != end {
            lemma_scanned_height(n, block, (r + 1) as u32, end);
        }
    } else {
        let n1 = sent_prevote(n, r, block);
        if majority_prevotes(n1.state, r, block) {
            lemma_locked_height(n1, r, block, end);
        } else if r != end {
            lemma_scanned_height(n1, block, (r + 1) as u32, end);
        }
    }
}

/// Looking for a lock never takes the node back to a lower height.
pub proof fn lemma_lock_search_height(
    n: NodeView,
    block: crypto::Hash,
    r: u32,
    end: u32,
    height: u64,
)
    ensures
        not_below(n, lock_search(n, block, r, end, height)),
    decreases room(n), 5nat, span(end, r as int), 0nat,
{
    if r > end || n.state.height != height || n.halted {
    } else {
        let n1 = if majority_prevotes(n.state, r, block) {
            lemma_locked_height(n, r, block, n.state.round);
            locked(n, r, block, n.state.round)
        } else {
            n
        };
        if !(r == end || n1.state.height != height) {
            lemma_lock_search_height(n1, block, (r + 1) as u32, end, height);
        }
    }
}

/// No message takes the node back to a lower height.
pub proof fn lemma_step_height(n: NodeView, msg: ConsensusMessage)
    ensures
        not_below(n, step(n, msg)),
    decreases room(n), 8nat, 0nat, 0nat,
{
    if admission(n, msg) is Admitted {
        match msg {
            ConsensusMessage::Propose(m) => {
                let hash = m.spec_hash();
                if !(m.prev_hash != n.state.prev_hash || m.validator != leader_of(
                    n.state,
                    m.round,
                )) && !(knows_proposal(n.state, hash) || !transactions_known(
                    n.state,
                    m.transactions@,
                )) {
                    let n0 = NodeView {
                        state: StateView {
                            proposals: n.state.proposals.push(
                                ProposalView {
                                    hash,
                                    round: m.round,
                                    transactions: m.transactions@,
                                },
                            ),
                            ..n.state
                        },
                        ..n
                    };
                    if knows_proposal(n0.state, hash) {
                        let round = proposal_of(n0.state, hash).round;
                        let n1 = if n0.state.locked_round == 0 {
                            sent_prevote(n0, round, hash)
                        } else {
                            n0
                        };
                        if n1.state.locked_round < n1.state.round {
                            lemma_lock_search_height(
                                n1,
                                hash,
                                (n1.state.locked_round + 1) as u32,
                                n1.state.round,
                                n1.state.height,
                            );
                        }
                    }
                }
            },
            ConsensusMessage::Prevote(m) => {
                let n1 = NodeView {
                    state: StateView { prevotes: tally_prevote(n.state, m), ..n.state },
                    ..n
                };
                lemma_locked_height(n1, m.round, m.block_hash, n1.state.round);
            },
            ConsensusMessage::Precommit(m) => {
                lemma_committed_height(with_precommit_tallied(n, m), m.round, m.block_hash);
            },
            ConsensusMessage::Commit(m) => {},
        }
    }
}

/// No sequence of messages takes the node back to a lower height.
pub proof fn lemma_process_height(n: NodeView, work: Seq<ConsensusMessage>)
    ensures
        not_below(n, process(n, work)),
    decreases room(n), 10nat, work.len(), 0nat,
{
    if work.len() > 0 {
        lemma_step_height(n, work[0]);
        let n1 = step(n, work[0]);
        lemma_process_height(n1, work.skip(1));
    }
}

/// Handling a sequence of messages is handling the first, then the rest.
pub proof fn lemma_process_unfold(n: NodeView, work: Seq<ConsensusMessage>)
    requires
        work.len() > 0,
    ensures
        process(n, work) == process(step(n, work[0]), work.skip(1)),
{
    lemma_step_height(n, work[0]);
}

/// Whether every prevote tallied in `before` is tallied in `after`.
pub open spec fn prevotes_kept(before: Seq<Prevote>, after: Seq<Prevote>) -> bool {
    forall|v: Prevote| holds_prevote(before, v) ==> holds_prevote(after, v)
}

/// Tallying a prevote keeps what was tallied.
pub proof fn lemma_tally_keeps(s: StateView, v: Prevote)
    ensures
        prevotes_kept(s.prevotes, tally_prevote(s, v)),
{
    assert forall|w: Prevote| holds_prevote(s.prevotes, w) implies holds_prevote(
        tally_prevote(s, v),
        w,
    ) by {
        let i = choose|i: int|
            0 <= i < s.prevotes.len() && same_prevote(#[trigger] s.prevotes[i], w);
        assert(same_prevote(tally_prevote(s, v)[i], w));
    }
}

/// Whether `after` is `before` moved on within its height: the height, the
/// round, the validators and the halt flag are the same, and no prevote left
/// the tally.
pub open spec fn same_height(before: NodeView, after: NodeView) -> bool {
    &&& after.state.height == before.state.height
    &&& after.state.round == before.state.round
    &&& after.state.validators == before.state.validators
    &&& after.halted == before.halted
    &&& prevotes_kept(before.state.prevotes, after.state.prevotes)
}

/// Locking either takes the node to a later height, or leaves it at its
/// height with its lock in the round asked for or later.
pub proof fn lemma_locked_outcome(n: NodeView, round: u32, block: crypto::Hash, end: u32)
    ensures
        locked(n, round, block, end).state.height > n.state.height || (same_height(
            n,
            locked(n, round, block, end),
        ) && locked(n, round, block, end).state.locked_round >= round),
    decreases span(end, round as int), 1nat,
{
    let n1 = NodeView {
        state: StateView { locked_round: round, locked_block_hash: block, ..n.state },
        ..n
    };
    let n2 = executed(n1, block);
    let state_hash = executed_of(n2.state, block).state_hash;
    let n3 = sent_precommit(n2, round, block, state_hash);
    if majority_precommits(n3.state, round, block, state_hash) {
        lemma_committed_height(n3, round, block);
    } else if incompatible_prevotes(n3.state) || round >= end {
    } else {
        lemma_scanned_outcome(n3, block, (round + 1) as u32, end);
    }
}

/// Going through the rounds either takes the node to a later height, or
/// leaves it at its height with its lock not lowered.
pub proof fn lemma_scanned_outcome(n: NodeView, block: crypto::Hash, r: u32, end: u32)
    requires
        n.state.locked_round < r,
    ensures
        scanned(n, block, r, end).state.height > n.state.height || (same_height(
            n,
            scanned(n, block, r, end),
        ) && scanned(n, block, r, end).state.locked_round >= n.state.locked_round),
    decreases span(end, r as int), 2nat,
{
    if r > end {
    } else if own_prevote_in(n.state, r) {
        if r != end {
            lemma_scanned_outcome(n, block, (r + 1) as u32, end);
        }
    } else {
        let vote = signed_prevote(n.state.id, next_height(n.state), r, block, n.secret_key);
        lemma_tally_keeps(n.state, vote);
        let n1 = sent_prevote(n, r, block);
        if majority_prevotes(n1.state, r, block) {
            lemma_locked_outcome(n1, r, block, end);
        } else if r != end {
            lemma_scanned_outcome(n1, block, (r + 1) as u32, end);
        }
    }
}

/// A vote that arrives a second time changes no tally: after the second
/// arrival the prevotes and the precommits are what they were after the first.
pub proof fn lemma_vote_replay(n: NodeView, msg: ConsensusMessage)
    requires
        msg is Prevote || msg is Precommit,
    ensures
        step(step(n, msg), msg).state.prevotes == step(n, msg).state.prevotes,
        step(step(n, msg), msg).state.precommits == step(n, msg).state.precommits,
{
    let n1 = step(n, msg);
    if admission(n, msg) is Admitted {
        match msg {
            ConsensusMessage::Prevote(v) => {
                lemma_tally_keeps(n.state, v);
                let a = NodeView {
                    state: StateView { prevotes: tally_prevote(n.state, v), ..n.state },
                    ..n
                };
                assert(holds_prevote(a.state.prevotes, v)) by {
                    if !holds_prevote(n.state.prevotes, v) {
                        assert(same_prevote(a.state.prevotes[n.state.prevotes.len() as int], v));
                    }
                }
                if majority_prevotes(a.state, v.round, v.block_hash) && a.state.locked_round
                    < v.round && knows_proposal(a.state, v.block_hash) {
                    lemma_locked_outcome(a, v.round, v.block_hash, a.state.round);
                    if n1.state.height == n.state.height {
                        assert(holds_prevote(n1.state.prevotes, v));
                        assert(admission(n1, msg) is Admitted);
                        assert(tally_prevote(n1.state, v) == n1.state.prevotes);
                    }
                } else {
                    assert(admission(n1, msg) is Admitted);
                    assert(tally_prevote(n1.state, v) == n1.state.prevotes);
                }
            },
            ConsensusMessage::Precommit(v) => {
                if !violates_safety(n, v) {
                    let a = with_precommit_tallied(n, v);
                    assert(holds_precommit(a.state.precommits, v)) by {
                        if !holds_precommit(n.state.precommits, v) {
                            assert(same_precommit(
                                a.state.precommits[n.state.precommits.len() as int],
                                v,
                            ));
                        }
                    }
                    if completes_quorum(n, v) {
                        lemma_committed_height(a, v.round, v.block_hash);
                    } else {
                        assert(n1 == a);
                        assert(admission(n1, msg) is Admitted);
                        assert(tally_precommit(n1.state, v) == n1.state.precommits);
                        assert(with_precommit_tallied(n1, v) == n1);
                        assert(!completes_quorum(n1, v));
                    }
                }
            },
            _ => {},
        }
    }
}

/// The node after the timer `timeout` fired. A timer for another height or
/// round is ignored, as is any timer once the node has halted or cannot count
/// further rounds. Else the next round starts and its timer is armed; a
/// locked node prevotes for its block again, an unlocked leader proposes; and
/// the messages put aside are handled.
pub open spec fn timed_out(n: NodeView, timeout: Timeout) -> NodeView {
    if n.halted || timeout.height != n.state.height || timeout.round != n.state.round
        || n.state.round == u32::MAX {
        n
    } else {
        let state = StateView { round: (n.state.round + 1) as u32, ..n.state };
        let n1 = NodeView {
            state,
            timeouts: n.timeouts.push(Timeout { height: state.height, round: state.round }),
            ..n
        };
        let n2 = if n1.state.locked_round > 0 {
            sent_prevote(n1, n1.state.round, n1.state.locked_block_hash)
        } else if leader_of(n1.state, n1.state.round) == n1.state.id {
            sent_propose(n1)
        } else {
            n1
        };
        process(drained(n2), n2.state.queued)
    }
}

} // verus!
