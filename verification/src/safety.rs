//! What a node that follows the protocol never does: within one height it
//! casts no two precommits for different blocks in one round, and it moves
//! on to a later height only on a quorum of precommits for a block and the
//! state hash that executing the block leads to. Together with the overlap
//! of quorums this is why two blocks cannot both be committed in one round
//! while fewer than a third of the validators are faulty.

use crate::crypto;
use crate::messages::{signed_precommit, signed_prevote, ConsensusMessage, Precommit, Prevote};
use crate::protocol::{
    admission, batch_len, committed, completes_quorum, drained, executed, lemma_committed_height,
    lemma_step_height, lemma_topped_up_frame, lock_search, locked, next_height, process, room,
    scanned, sent_commit, sent_precommit, sent_prevote, sent_propose, span, state_hash_after, step,
    timed_out, transactions_known, violates_safety, with_block, with_precommit_tallied, NodeView,
    Timeout,
};
use crate::state::{
    at_new_height, count_precommits, count_prevotes, executed_of, incompatible_prevotes,
    knows_proposal, leader_of, majority, majority_precommits, majority_prevotes, own_prevote_in,
    proposal_of, tally_precommit, tally_prevote, was_executed, ProposalView, StateView,
};
use vstd::prelude::*;

verus! {

/// Whether the precommit at position `i` of the tally is this node's own.
pub open spec fn own_at(n: NodeView, i: int) -> bool {
    0 <= i < n.state.precommits.len() && n.state.precommits[i].validator == n.state.id
}

/// Whether this node's precommits are consistent: those of one round are for
/// one block and one state.
pub open spec fn casts_agree(n: NodeView) -> bool {
    forall|i: int, j: int|
        own_at(n, i) && own_at(n, j) && (#[trigger] n.state.precommits[i]).round
            == (#[trigger] n.state.precommits[j]).round ==> n.state.precommits[i].block_hash
            == n.state.precommits[j].block_hash && n.state.precommits[i].state_hash
            == n.state.precommits[j].state_hash
}

/// Whether this node has precommitted in no round after that of its lock.
pub open spec fn casts_below_lock(n: NodeView) -> bool {
    forall|i: int|
        own_at(n, i) ==> (#[trigger] n.state.precommits[i]).round <= n.state.locked_round
}

/// What holds of this node's precommits between events: they are
/// consistent, none is in a round after that of the lock, and the lock is in
/// no round after the current one.
pub open spec fn casts_sound(n: NodeView) -> bool {
    &&& casts_agree(n)
    &&& casts_below_lock(n)
    &&& n.state.locked_round <= n.state.round
}

/// Whether none of the messages carries this node's id.
pub open spec fn from_others(n: NodeView, msgs: Seq<ConsensusMessage>) -> bool {
    forall|i: int| 0 <= i < msgs.len() ==> (#[trigger] msgs[i]).spec_validator() != n.state.id
}

/// Whether this node's precommits in the rounds from `lo` on are all for
/// `block` and `state`, each in a round with a quorum of prevotes for `block`.
pub open spec fn casts_tagged(
    n: NodeView,
    lo: int,
    block: crypto::Hash,
    state: crypto::Hash,
) -> bool {
    forall|i: int|
        own_at(n, i) && (#[trigger] n.state.precommits[i]).round >= lo ==> {
            &&& n.state.precommits[i].block_hash == block
            &&& n.state.precommits[i].state_hash == state
            &&& majority_prevotes(n.state, n.state.precommits[i].round, block)
        }
}

/// Whether this node has precommitted in no round after `hi`.
pub open spec fn casts_bounded(n: NodeView, hi: int) -> bool {
    forall|i: int| own_at(n, i) ==> (#[trigger] n.state.precommits[i]).round <= hi
}

/// Whether this node has precommitted in round `r`.
pub open spec fn cast_in(n: NodeView, r: int) -> bool {
    exists|i: int| own_at(n, i) && (#[trigger] n.state.precommits[i]).round == r
}

/// Whether every precommit of this node in `after` is in a round up to its
/// lock, or in a round in which it had precommitted in `before`.
pub open spec fn casts_new_below_lock(before: NodeView, after: NodeView) -> bool {
    forall|i: int|
        own_at(after, i) ==> (#[trigger] after.state.precommits[i]).round
            <= after.state.locked_round || cast_in(before, after.state.precommits[i].round as int)
}

/// Whether a quorum of prevotes in `before` is a quorum in `after`.
pub open spec fn quorums_kept(before: NodeView, after: NodeView) -> bool {
    forall|round: u32, block: crypto::Hash| #[trigger]
        majority_prevotes(before.state, round, block) ==> majority_prevotes(
            after.state,
            round,
            block,
        )
}

/// Whether `after` is `before` moved on within its height: the height, the
/// round, the validators, this node's id, the cache of executed blocks, the
/// messages put aside and the halt flag are the same.
pub open spec fn settled(before: NodeView, after: NodeView) -> bool {
    &&& after.state.height == before.state.height
    &&& after.state.round == before.state.round
    &&& after.state.id == before.state.id
    &&& after.state.validators == before.state.validators
    &&& after.state.executed == before.state.executed
    &&& after.state.queued == before.state.queued
    &&& after.halted == before.halted
}

/// Whether `after` is `before` moved on to a later height, with its
/// precommits sound and no message of its own put aside.
pub open spec fn advanced(before: NodeView, after: NodeView) -> bool {
    &&& after.state.height > before.state.height
    &&& after.state.id == before.state.id
    &&& casts_sound(after)
    &&& from_others(after, after.state.queued)
}

/// Tallying a prevote takes no vote away from any count.
pub proof fn lemma_count_grows(s: StateView, v: Prevote, round: u32, block: crypto::Hash)
    ensures
        count_prevotes(tally_prevote(s, v), round, block) >= count_prevotes(
            s.prevotes,
            round,
            block,
        ),
{
    let after = tally_prevote(s, v);
    if after != s.prevotes {
        assert(after.drop_last() =~= s.prevotes);
    }
}

/// A prevote of this node keeps every quorum.
pub proof fn lemma_sent_prevote_keeps(n: NodeView, r: u32, block: crypto::Hash)
    ensures
        quorums_kept(n, sent_prevote(n, r, block)),
{
    let vote = signed_prevote(n.state.id, next_height(n.state), r, block, n.secret_key);
    assert forall|round: u32, b: crypto::Hash| #[trigger]
        majority_prevotes(n.state, round, b) implies majority_prevotes(
        sent_prevote(n, r, block).state,
        round,
        b,
    ) by {
        lemma_count_grows(n.state, vote, round, b);
    }
}

/// Once a block is executed, executing it again changes nothing.
pub proof fn lemma_executed_once(n: NodeView, block: crypto::Hash)
    ensures
        was_executed(executed(n, block).state.executed, block),
        executed(executed(n, block), block) == executed(n, block),
{
    let m = executed(n, block);
    if !was_executed(n.state.executed, block) {
        assert(m.state.executed[n.state.executed.len() as int].block_hash == block);
    }
}

/// After a commit the node is at a later height and its precommits are sound.
pub proof fn lemma_committed_casts(n: NodeView, round: u32, block: crypto::Hash)
    requires
        n.state.height < u64::MAX,
        from_others(n, n.state.queued),
    ensures
        advanced(n, committed(n, round, block)),
    decreases room(n), 3nat, 0nat, 0nat,
{
    let n1 = executed(n, block);
    let n2 = NodeView {
        storage: executed_of(n1.state, block).state,
        state: at_new_height(n1.state, block),
        ..n1
    };
    let n3 = sent_commit(n2, n2.state.height, round, block);
    assert(casts_sound(drained(n3)));
    assert(from_others(drained(n3), n3.state.queued));
    lemma_process_casts(drained(n3), n3.state.queued);
    crate::protocol::lemma_process_height(drained(n3), n3.state.queued);
    let n4 = process(drained(n3), n3.state.queued);
    lemma_topped_up_frame(n4.state, n4.generator.take(batch_len(n4)));
    let n5 = NodeView {
        state: crate::protocol::topped_up(n4.state, n4.generator.take(batch_len(n4))),
        generator: n4.generator.skip(batch_len(n4)),
        ..n4
    };
    assert(n5.state.precommits == n4.state.precommits);
    assert(casts_sound(n5));
    let n6 = if leader_of(n5.state, n5.state.round) == n5.state.id {
        sent_propose(n5)
    } else {
        n5
    };
    assert(n6.state.precommits == n5.state.precommits);
    assert(casts_sound(n6));
    assert(from_others(n6, n6.state.queued));
}

/// What locking does to this node's precommits. Let the node have
/// precommitted consistently, in no round after `end`, and from round `lo`
/// on only for `block` in rounds with a quorum of prevotes for it; and let
/// `round` have such a quorum. Then locking on `block` in `round` either
/// takes the node to a later height with its precommits sound, or leaves it
/// at its height with all of that still true, its lock in `round` or later,
/// and every new precommit in a round up to its lock.
pub proof fn lemma_locked_casts(
    n: NodeView,
    round: u32,
    block: crypto::Hash,
    end: u32,
    lo: int,
)
    requires
        lo <= round <= end,
        from_others(n, n.state.queued),
        casts_agree(n),
        casts_tagged(n, lo, block, state_hash_after(n, block)),
        casts_bounded(n, end as int),
        majority_prevotes(n.state, round, block),
    ensures
        advanced(n, locked(n, round, block, end)) || ({
            let m = locked(n, round, block, end);
            &&& settled(executed(n, block), m)
            &&& casts_agree(m)
            &&& casts_tagged(m, lo, block, state_hash_after(n, block))
            &&& casts_bounded(m, end as int)
            &&& casts_new_below_lock(n, m)
            &&& quorums_kept(n, m)
            &&& round <= m.state.locked_round <= end
        }),
    decreases room(n), 4nat, span(end, round as int), 1nat,
{
    let n1 = NodeView {
        state: StateView { locked_round: round, locked_block_hash: block, ..n.state },
        ..n
    };
    let n2 = executed(n1, block);
    let state_hash = executed_of(n2.state, block).state_hash;
    assert(n2.state.executed == executed(n, block).state.executed);
    assert(state_hash == state_hash_after(n, block));
    let vote = signed_precommit(
        n.state.id,
        next_height(n2.state),
        round,
        block,
        state_hash,
        n.secret_key,
    );
    let n3 = sent_precommit(n2, round, block, state_hash);
    let before = n.state.precommits;
    let after = n3.state.precommits;
    assert(after == tally_precommit(n2.state, vote));
    assert forall|i: int| 0 <= i < before.len() implies after[i] == before[i] by {}
    assert forall|i: int| own_at(n3, i) implies i < before.len() || after[i] == vote by {}
    assert(casts_agree(n3)) by {
        assert forall|i: int, j: int|
            own_at(n3, i) && own_at(n3, j) && (#[trigger] after[i]).round
                == (#[trigger] after[j]).round implies after[i].block_hash == after[j].block_hash
            && after[i].state_hash == after[j].state_hash by {
            if i < before.len() {
                assert(own_at(n, i));
            }
            if j < before.len() {
                assert(own_at(n, j));
            }
        }
    }
    assert(casts_tagged(n3, lo, block, state_hash)) by {
        assert forall|i: int| own_at(n3, i) && (#[trigger] after[i]).round >= lo implies {
            &&& after[i].block_hash == block
            &&& after[i].state_hash == state_hash
            &&& majority_prevotes(n3.state, after[i].round, block)
        } by {
            if i < before.len() {
                assert(own_at(n, i));
                assert(majority_prevotes(n.state, before[i].round, block));
            }
        }
    }
    assert(casts_bounded(n3, end as int)) by {
        assert forall|i: int| own_at(n3, i) implies (#[trigger] after[i]).round <= end by {
            if i < before.len() {
                assert(own_at(n, i));
            }
        }
    }
    assert(casts_new_below_lock(n, n3)) by {
        assert forall|i: int| own_at(n3, i) implies (#[trigger] after[i]).round
            <= n3.state.locked_round || cast_in(n, after[i].round as int) by {
            if i < before.len() {
                assert(own_at(n, i));
            }
        }
    }
    assert(quorums_kept(n, n3)) by {
        assert(n3.state.prevotes == n.state.prevotes);
        assert forall|r: u32, b: crypto::Hash| #[trigger]
            majority_prevotes(n.state, r, b) implies majority_prevotes(n3.state, r, b) by {}
    }
    assert(settled(executed(n, block), n3));
    lemma_executed_once(n, block);
    if majority_precommits(n3.state, round, block, state_hash) {
        assert(locked(n, round, block, end) == committed(n3, round, block));
        if n3.state.height < u64::MAX {
            assert(from_others(n3, n3.state.queued));
            lemma_committed_casts(n3, round, block);
        } else {
            assert(executed(n3, block) == n3);
            assert(committed(n3, round, block) == n3);
        }
    } else if incompatible_prevotes(n3.state) || round >= end {
        assert(locked(n, round, block, end) == n3);
    } else {
        lemma_scanned_casts(n3, block, (round + 1) as u32, end, lo);
        let m = scanned(n3, block, (round + 1) as u32, end);
        assert(m == locked(n, round, block, end));
        if !advanced(n3, m) {
            assert(settled(executed(n, block), m));
            assert(casts_tagged(m, lo, block, state_hash_after(n, block)));
            assert(quorums_kept(n, m)) by {
                assert forall|r: u32, b: crypto::Hash| #[trigger]
                    majority_prevotes(n.state, r, b) implies majority_prevotes(m.state, r, b) by {
                    assert(majority_prevotes(n3.state, r, b));
                }
            }
            assert(casts_new_below_lock(n, m)) by {
                assert forall|i: int| own_at(m, i) implies (#[trigger] m.state.precommits[i]).round
                    <= m.state.locked_round || cast_in(n, m.state.precommits[i].round as int) by {
                    let r = m.state.precommits[i].round as int;
                    if r > m.state.locked_round {
                        assert(cast_in(n3, r));
                        let k = choose|k: int| own_at(n3, k) && (#[trigger] after[k]).round == r;
                        if k < before.len() {
                            assert(own_at(n, k));
                        }
                    }
                }
            }
        }
    }
}

/// What going through the rounds does to this node's precommits: as for
/// locking, with the lock not lowered.
pub proof fn lemma_scanned_casts(n: NodeView, block: crypto::Hash, r: u32, end: u32, lo: int)
    requires
        lo <= n.state.locked_round < r,
        n.state.locked_round <= end,
        from_others(n, n.state.queued),
        was_executed(n.state.executed, block),
        casts_agree(n),
        casts_tagged(n, lo, block, executed_of(n.state, block).state_hash),
        casts_bounded(n, end as int),
    ensures
        advanced(n, scanned(n, block, r, end)) || ({
            let m = scanned(n, block, r, end);
            &&& settled(n, m)
            &&& casts_agree(m)
            &&& casts_tagged(m, lo, block, executed_of(n.state, block).state_hash)
            &&& casts_bounded(m, end as int)
            &&& casts_new_below_lock(n, m)
            &&& quorums_kept(n, m)
            &&& n.state.locked_round <= m.state.locked_round <= end
        }),
    decreases room(n), 4nat, span(end, r as int), 2nat,
{
    let state_hash = executed_of(n.state, block).state_hash;
    assert(casts_new_below_lock(n, n)) by {
        assert forall|i: int| own_at(n, i) implies (#[trigger] n.state.precommits[i]).round
            <= n.state.locked_round || cast_in(n, n.state.precommits[i].round as int) by {}
    }
    if r > end {
    } else if own_prevote_in(n.state, r) {
        if r != end {
            lemma_scanned_casts(n, block, (r + 1) as u32, end, lo);
        }
    } else {
        let n1 = sent_prevote(n, r, block);
        lemma_sent_prevote_keeps(n, r, block);
        assert(n1.state.precommits == n.state.precommits);
        assert(casts_agree(n1));
        assert(casts_tagged(n1, lo, block, state_hash)) by {
            assert forall|i: int|
                own_at(n1, i) && (#[trigger] n1.state.precommits[i]).round >= lo implies {
                &&& n1.state.precommits[i].block_hash == block
                &&& n1.state.precommits[i].state_hash == state_hash
                &&& majority_prevotes(n1.state, n1.state.precommits[i].round, block)
            } by {
                assert(own_at(n, i));
                assert(majority_prevotes(n.state, n.state.precommits[i].round, block));
            }
        }
        assert(casts_bounded(n1, end as int));
        assert(from_others(n1, n1.state.queued));
        let m = if majority_prevotes(n1.state, r, block) {
            assert(state_hash_after(n1, block) == state_hash);
            lemma_locked_casts(n1, r, block, end, lo);
            locked(n1, r, block, end)
        } else if r != end {
            lemma_scanned_casts(n1, block, (r + 1) as u32, end, lo);
            scanned(n1, block, (r + 1) as u32, end)
        } else {
            n1
        };
        assert(m == scanned(n, block, r, end));
        if !advanced(n1, m) {
            assert(casts_new_below_lock(n, m)) by {
                assert forall|i: int| own_at(m, i) implies (#[trigger] m.state.precommits[i]).round
                    <= m.state.locked_round || cast_in(n, m.state.precommits[i].round as int) by {
                    let q = m.state.precommits[i].round as int;
                    if q > m.state.locked_round {
                        assert(cast_in(n1, q));
                        let k = choose|k: int|
                            own_at(n1, k) && (#[trigger] n1.state.precommits[k]).round == q;
                        assert(own_at(n, k));
                    }
                }
            }
            assert(quorums_kept(n, m));
        }
    }
}

/// What looking for a lock does to this node's precommits. Let the node
/// have precommitted consistently; in the rounds after `lock` only for
/// `block`, in rounds with a quorum of prevotes for it; and in the rounds
/// before `r` in none after that of its lock. Then the search from `r` on
/// leaves the node's precommits sound.
pub proof fn lemma_lock_search_casts(
    n: NodeView,
    block: crypto::Hash,
    r: u32,
    end: u32,
    lock: int,
)
    requires
        !n.halted,
        end == n.state.round,
        lock < r <= end,
        lock <= n.state.locked_round <= end,
        from_others(n, n.state.queued),
        casts_agree(n),
        casts_bounded(n, end as int),
        casts_tagged(n, lock + 1, block, state_hash_after(n, block)),
        forall|i: int|
            own_at(n, i) && (#[trigger] n.state.precommits[i]).round < r
                ==> n.state.precommits[i].round <= n.state.locked_round,
    ensures
        casts_sound(lock_search(n, block, r, end, n.state.height)),
        from_others(
            lock_search(n, block, r, end, n.state.height),
            lock_search(n, block, r, end, n.state.height).state.queued,
        ),
        lock_search(n, block, r, end, n.state.height).state.id == n.state.id,
    decreases room(n), 5nat, span(end, r as int), 0nat,
{
    let height = n.state.height;
    let state_hash = state_hash_after(n, block);
    let n1 = if majority_prevotes(n.state, r, block) {
        lemma_locked_casts(n, r, block, end, lock + 1);
        locked(n, r, block, end)
    } else {
        n
    };
    if n1.state.height != height {
        assert(lock_search(n, block, r, end, height) == n1);
    } else {
        assert(state_hash_after(n1, block) == state_hash) by {
            if majority_prevotes(n.state, r, block) {
                lemma_executed_once(n, block);
            }
        }
        assert forall|i: int|
            own_at(n1, i) && (#[trigger] n1.state.precommits[i]).round < r + 1 implies n1.state.precommits[i].round
            <= n1.state.locked_round by {
            let q = n1.state.precommits[i].round as int;
            if majority_prevotes(n.state, r, block) {
                if q > n1.state.locked_round {
                    assert(cast_in(n, q));
                }
            } else if q == r {
                assert(majority_prevotes(n.state, n.state.precommits[i].round, block));
            }
        }
        if r == end {
            assert(casts_below_lock(n1)) by {
                assert forall|i: int| own_at(n1, i) implies (#[trigger] n1.state.precommits[i]).round
                    <= n1.state.locked_round by {
                    assert(n1.state.precommits[i].round <= end);
                }
            }
        } else {
            lemma_lock_search_casts(n1, block, (r + 1) as u32, end, lock);
        }
    }
}

/// Acting on a known block keeps the node's precommits sound.
pub proof fn lemma_with_block_casts(n: NodeView, block: crypto::Hash)
    requires
        casts_sound(n),
        from_others(n, n.state.queued),
        !n.halted,
    ensures
        casts_sound(with_block(n, block)),
        from_others(with_block(n, block), with_block(n, block).state.queued),
        with_block(n, block).state.id == n.state.id,
    decreases room(n), 6nat, 0nat, 0nat,
{
    if knows_proposal(n.state, block) {
        let round = proposal_of(n.state, block).round;
        let n1 = if n.state.locked_round == 0 {
            sent_prevote(n, round, block)
        } else {
            n
        };
        assert(n1.state.precommits == n.state.precommits);
        assert(casts_sound(n1));
        assert(from_others(n1, n1.state.queued));
        if n1.state.locked_round < n1.state.round {
            assert(casts_bounded(n1, n1.state.round as int));
            lemma_lock_search_casts(
                n1,
                block,
                (n1.state.locked_round + 1) as u32,
                n1.state.round,
                n1.state.locked_round as int,
            );
        }
    }
}

/// The precommits of a node stay sound when a message arrives that does not
/// carry the node's own id: whatever the node precommits in handling it, and
/// in handling the messages that a commit releases, it precommits for one
/// block per round.
pub proof fn lemma_step_casts(n: NodeView, msg: ConsensusMessage)
    requires
        casts_sound(n),
        from_others(n, n.state.queued),
        msg.spec_validator() != n.state.id,
    ensures
        casts_sound(step(n, msg)),
        from_others(step(n, msg), step(n, msg).state.queued),
        step(n, msg).state.id == n.state.id,
    decreases room(n), 8nat, 0nat, 0nat,
{
    let n1 = step(n, msg);
    if admission(n, msg) is Early {
        assert forall|i: int| 0 <= i < n1.state.queued.len() implies (#[trigger] n1.state.queued[i]).spec_validator()
            != n1.state.id by {
            if i < n.state.queued.len() {
                assert(n1.state.queued[i] == n.state.queued[i]);
            }
        }
    }
    if admission(n, msg) is Admitted {
        assert(n.state.height < u64::MAX);
        assert(!n.halted);
        match msg {
            ConsensusMessage::Propose(m) => {
                let hash = m.spec_hash();
                if !(m.prev_hash != n.state.prev_hash || m.validator != leader_of(
                    n.state,
                    m.round,
                )) && !(knows_proposal(n.state, hash) || !transactions_known(
                    n.state,
                    m.transactions@,
                )) {
                    let n0 = NodeView {
                        state: StateView {
                            proposals: n.state.proposals.push(
                                ProposalView {
                                    hash,
                                    round: m.round,
                                    transactions: m.transactions@,
                                },
                            ),
                            ..n.state
                        },
                        ..n
                    };
                    assert(casts_sound(n0));
                    assert(from_others(n0, n0.state.queued));
                    lemma_with_block_casts(n0, hash);
                }
            },
            ConsensusMessage::Prevote(v) => {
                let a = NodeView {
                    state: StateView { prevotes: tally_prevote(n.state, v), ..n.state },
                    ..n
                };
                assert(casts_sound(a));
                assert(from_others(a, a.state.queued));
                if majority_prevotes(a.state, v.round, v.block_hash) && a.state.locked_round
                    < v.round && knows_proposal(a.state, v.block_hash) {
                    let lo = a.state.locked_round + 1;
                    assert(casts_bounded(a, a.state.round as int));
                    lemma_locked_casts(a, v.round, v.block_hash, a.state.round, lo);
                    let m = locked(a, v.round, v.block_hash, a.state.round);
                    if !advanced(a, m) {
                        assert(casts_below_lock(m)) by {
                            assert forall|i: int| own_at(m, i) implies (#[trigger] m.state.precommits[i]).round
                                <= m.state.locked_round by {
                                let q = m.state.precommits[i].round as int;
                                if q > m.state.locked_round {
                                    assert(cast_in(a, q));
                                }
                            }
                        }
                    }
                }
            },
            ConsensusMessage::Precommit(v) => {
                if !violates_safety(n, v) {
                    let a = with_precommit_tallied(n, v);
                    assert forall|i: int| own_at(a, i) implies own_at(n, i) && a.state.precommits[i]
                        == n.state.precommits[i] by {}
                    assert(casts_sound(a));
                    assert(from_others(a, a.state.queued));
                    if completes_quorum(n, v) {
                        lemma_committed_casts(a, v.round, v.block_hash);
                    }
                }
            },
            ConsensusMessage::Commit(c) => {},
        }
    }
}

/// The precommits of a node stay sound through any sequence of messages
/// from others.
pub proof fn lemma_process_casts(n: NodeView, work: Seq<ConsensusMessage>)
    requires
        casts_sound(n),
        from_others(n, work),
        from_others(n, n.state.queued),
    ensures
        casts_sound(process(n, work)),
        from_others(process(n, work), process(n, work).state.queued),
        process(n, work).state.id == n.state.id,
    decreases room(n), 10nat, work.len(), 0nat,
{
    if work.len() > 0 {
        let n1 = step(n, work[0]);
        lemma_step_casts(n, work[0]);
        lemma_step_height(n, work[0]);
        let rest = work.skip(1);
        assert(from_others(n1, rest)) by {
            assert forall|i: int| 0 <= i < rest.len() implies (#[trigger] rest[i]).spec_validator()
                != n1.state.id by {
                assert(rest[i] == work[i + 1]);
            }
        }
        lemma_process_casts(n1, rest);
    }
}

/// The precommits of a node stay sound when a timer fires.
pub proof fn lemma_timed_out_casts(n: NodeView, timeout: Timeout)
    requires
        casts_sound(n),
        from_others(n, n.state.queued),
    ensures
        casts_sound(timed_out(n, timeout)),
        from_others(timed_out(n, timeout), timed_out(n, timeout).state.queued),
{
    if !(n.halted || timeout.height != n.state.height || timeout.round != n.state.round
        || n.state.round == u32::MAX) {
        let state = StateView { round: (n.state.round + 1) as u32, ..n.state };
        let n1 = NodeView {
            state,
            timeouts: n.timeouts.push(Timeout { height: state.height, round: state.round }),
            ..n
        };
        assert(casts_sound(n1));
        let n2 = if n1.state.locked_round > 0 {
            sent_prevote(n1, n1.state.round, n1.state.locked_block_hash)
        } else if leader_of(n1.state, n1.state.round) == n1.state.id {
            sent_propose(n1)
        } else {
            n1
        };
        assert(n2.state.precommits == n1.state.precommits);
        assert(casts_sound(n2));
        assert(casts_sound(drained(n2)));
        assert(from_others(drained(n2), n2.state.queued));
        lemma_process_casts(drained(n2), n2.state.queued);
    }
}

/// A node that starts has precommitted nothing.
pub proof fn lemma_initial_casts(n: NodeView)
    requires
        n.state.precommits.len() == 0,
        n.state.locked_round <= n.state.round,
    ensures
        casts_sound(n),
{
}

/// Whether `after` is the tally `before` with more votes behind it, each of
/// them cast by the validator `id` or the vote that arrived, if one did.
pub open spec fn tally_grown(
    before: Seq<Precommit>,
    after: Seq<Precommit>,
    id: u32,
    arrived: Option<Precommit>,
) -> bool {
    &&& before.len() <= after.len()
    &&& forall|i: int| 0 <= i < before.len() ==> #[trigger] after[i] == before[i]
    &&& forall|i: int|
        before.len() <= i < after.len() ==> (#[trigger] after[i]).validator == id || arrived
            == Some(after[i])
}

/// Whether a commit of `block` at `n` rests on a quorum: the node's tally,
/// together with the vote that arrived and the node's own votes, holds a
/// quorum of precommits of one round for `block` and the state hash that
/// executing the block here leads to.
pub open spec fn commit_backed(n: NodeView, block: crypto::Hash, arrived: Option<Precommit>) -> bool {
    exists|tally: Seq<Precommit>, round: u32|
        #[trigger] tally_grown(n.state.precommits, tally, n.state.id, arrived)
            && #[trigger] count_precommits(tally, round, block, state_hash_after(n, block))
            >= majority(n.state.validators.len() as int)
}

/// Locking takes the node to a later height only on a quorum of precommits
/// for the block and its local state hash; else it leaves the node at its
/// height with only votes of its own added to the tally.
pub proof fn lemma_locked_backed(
    n: NodeView,
    round: u32,
    block: crypto::Hash,
    end: u32,
    arrived: Option<Precommit>,
)
    ensures
        locked(n, round, block, end).state.height > n.state.height ==> commit_backed(
            n,
            block,
            arrived,
        ),
        locked(n, round, block, end).state.height <= n.state.height ==> settled(
            executed(n, block),
            locked(n, round, block, end),
        ) && tally_grown(
            n.state.precommits,
            locked(n, round, block, end).state.precommits,
            n.state.id,
            arrived,
        ),
    decreases span(end, round as int), 1nat,
{
    let n1 = NodeView {
        state: StateView { locked_round: round, locked_block_hash: block, ..n.state },
        ..n
    };
    let n2 = executed(n1, block);
    let state_hash = executed_of(n2.state, block).state_hash;
    assert(n2.state.executed == executed(n, block).state.executed);
    assert(state_hash == state_hash_after(n, block));
    let n3 = sent_precommit(n2, round, block, state_hash);
    let t3 = n3.state.precommits;
    assert(tally_grown(n.state.precommits, t3, n.state.id, arrived));
    lemma_executed_once(n, block);
    lemma_committed_height(n3, round, block);
    crate::protocol::lemma_locked_height(n, round, block, end);
    if majority_precommits(n3.state, round, block, state_hash) {
        assert(count_precommits(t3, round, block, state_hash_after(n, block)) >= majority(
            n.state.validators.len() as int,
        ));
        if n3.state.height >= u64::MAX {
            assert(executed(n3, block) == n3);
        }
    } else if incompatible_prevotes(n3.state) || round >= end {
    } else {
        lemma_scanned_backed(n3, block, (round + 1) as u32, end, arrived);
        let m = scanned(n3, block, (round + 1) as u32, end);
        assert(state_hash_after(n3, block) == state_hash_after(n, block));
        if m.state.height > n.state.height {
            let (tally, q) = choose|tally: Seq<Precommit>, q: u32|
                #[trigger] tally_grown(t3, tally, n3.state.id, arrived)
                    && #[trigger] count_precommits(tally, q, block, state_hash_after(n3, block))
                    >= majority(n3.state.validators.len() as int);
            assert(tally_grown(n.state.precommits, tally, n.state.id, arrived));
        } else {
            assert(tally_grown(n.state.precommits, m.state.precommits, n.state.id, arrived));
        }
    }
}

/// Going through the rounds takes the node to a later height only on a
/// quorum of precommits for the block and its local state hash.
pub proof fn lemma_scanned_backed(
    n: NodeView,
    block: crypto::Hash,
    r: u32,
    end: u32,
    arrived: Option<Precommit>,
)
    requires
        was_executed(n.state.executed, block),
    ensures
        scanned(n, block, r, end).state.height > n.state.height ==> commit_backed(
            n,
            block,
            arrived,
        ),
        scanned(n, block, r, end).state.height <= n.state.height ==> settled(
            n,
            scanned(n, block, r, end),
        ) && tally_grown(
            n.state.precommits,
            scanned(n, block, r, end).state.precommits,
            n.state.id,
            arrived,
        ),
    decreases span(end, r as int), 2nat,
{
    assert(tally_grown(n.state.precommits, n.state.precommits, n.state.id, arrived));
    assert(executed(n, block) == n);
    if r > end {
    } else if own_prevote_in(n.state, r) {
        if r != end {
            lemma_scanned_backed(n, block, (r + 1) as u32, end, arrived);
        }
    } else {
        let n1 = sent_prevote(n, r, block);
        assert(state_hash_after(n1, block) == state_hash_after(n, block));
        assert(executed(n1, block) == n1);
        if majority_prevotes(n1.state, r, block) {
            lemma_locked_backed(n1, r, block, end, arrived);
            let m = locked(n1, r, block, end);
            if m.state.height > n.state.height {
                let (tally, q) = choose|tally: Seq<Precommit>, q: u32|
                    #[trigger] tally_grown(n1.state.precommits, tally, n1.state.id, arrived)
                        && #[trigger] count_precommits(
                        tally,
                        q,
                        block,
                        state_hash_after(n1, block),
                    ) >= majority(n1.state.validators.len() as int);
                assert(tally_grown(n.state.precommits, tally, n.state.id, arrived));
            }
        } else if r != end {
            lemma_scanned_backed(n1, block, (r + 1) as u32, end, arrived);
            let m = scanned(n1, block, (r + 1) as u32, end);
            if m.state.height > n.state.height {
                let (tally, q) = choose|tally: Seq<Precommit>, q: u32|
                    #[trigger] tally_grown(n1.state.precommits, tally, n1.state.id, arrived)
                        && #[trigger] count_precommits(
                        tally,
                        q,
                        block,
                        state_hash_after(n1, block),
                    ) >= majority(n1.state.validators.len() as int);
                assert(tally_grown(n.state.precommits, tally, n.state.id, arrived));
            }
        }
    }
}

/// A precommit takes the node to a later height only if it completes a
/// quorum of precommits for a known block and the state hash that executing
/// the block here leads to. A prevote does so only if the node's tally and
/// its own precommits hold such a quorum for the prevote's block.
pub proof fn lemma_commit_needs_quorum(n: NodeView, msg: ConsensusMessage)
    requires
        msg is Prevote || msg is Precommit,
    ensures
        step(n, msg).state.height > n.state.height ==> match msg {
            ConsensusMessage::Precommit(v) => completes_quorum(n, v) && state_hash_after(
                n,
                v.block_hash,
            ) == v.state_hash && commit_backed(n, v.block_hash, Some(v)),
            ConsensusMessage::Prevote(v) => commit_backed(n, v.block_hash, None),
            _ => true,
        },
{
    if admission(n, msg) is Admitted {
        match msg {
            ConsensusMessage::Precommit(v) => {
                if !violates_safety(n, v) && completes_quorum(n, v) {
                    let t = tally_precommit(n.state, v);
                    assert(tally_grown(n.state.precommits, t, n.state.id, Some(v)));
                    assert(count_precommits(
                        t,
                        v.round,
                        v.block_hash,
                        state_hash_after(n, v.block_hash),
                    ) >= majority(n.state.validators.len() as int));
                }
            },
            ConsensusMessage::Prevote(v) => {
                let a = NodeView {
                    state: StateView { prevotes: tally_prevote(n.state, v), ..n.state },
                    ..n
                };
                if majority_prevotes(a.state, v.round, v.block_hash) && a.state.locked_round
                    < v.round && knows_proposal(a.state, v.block_hash) {
                    let arrived = None::<Precommit>;
                    lemma_locked_backed(a, v.round, v.block_hash, a.state.round, arrived);
                    if step(n, msg).state.height > n.state.height {
                        assert(state_hash_after(a, v.block_hash) == state_hash_after(
                            n,
                            v.block_hash,
                        ));
                        let (tally, q) = choose|tally: Seq<Precommit>, q: u32|
                            #[trigger] tally_grown(a.state.precommits, tally, a.state.id, arrived)
                                && #[trigger] count_precommits(
                                tally,
                                q,
                                v.block_hash,
                                state_hash_after(a, v.block_hash),
                            ) >= majority(a.state.validators.len() as int);
                        assert(tally_grown(n.state.precommits, tally, n.state.id, arrived));
                        assert(commit_backed(n, v.block_hash, arrived));
                    }
                }
            },
            _ => {},
        }
    }
}

} // verus!
