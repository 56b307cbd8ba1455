use digital_rights::consensus::{ConsensusService, NodeContext};
use digital_rights::crypto;
use digital_rights::crypto::{PublicKey, SecretKey};
use digital_rights::messages::{
    Commit, ConsensusMessage, Precommit, Prevote, Propose, Timespec,
};
use digital_rights::protocol::{Admission, Timeout};
use digital_rights::rights::DigitalRightsBlockchain;
use digital_rights::state::State;
use digital_rights::txs::{DigitalRightsTx, TxCreateDistributor, TxCreateOwner};

fn secret(seed: u8) -> SecretKey {
    SecretKey::new([seed; 32])
}

fn validators() -> Vec<PublicKey> {
    vec![
        secret(10).public_key(),
        secret(11).public_key(),
        secret(12).public_key(),
        secret(13).public_key(),
    ]
}

fn genesis() -> crypto::Hash {
    crypto::hash(&[])
}

fn owner_tx(seed: u8, name: &str) -> DigitalRightsTx {
    let s = secret(seed);
    DigitalRightsTx::CreateOwner(TxCreateOwner::new(&s.public_key(), name, &s))
}

/// A node that is validator 0 of four, with two transactions pending.
fn node() -> NodeContext {
    let state = State::new(0, validators(), genesis()).unwrap();
    let mut ctx = NodeContext::new(state, secret(10));
    let t1 = owner_tx(1, "o1");
    let t2 = owner_tx(2, "o2");
    ctx.state.add_tx(t1.hash(), t1);
    ctx.state.add_tx(t2.hash(), t2);
    ctx
}

/// The proposal of the leader of round 1 at height 1, which is validator 1.
fn leader_propose() -> Propose {
    let hashes = vec![owner_tx(1, "o1").hash(), owner_tx(2, "o2").hash()];
    Propose::new(1, 1, 1, Timespec { sec: 1, nsec: 5 }, &genesis(), hashes, &secret(11))
}

/// The state hash that executing the proposed block on empty storage leads to.
fn expected_state_hash() -> crypto::Hash {
    let b = DigitalRightsBlockchain::new();
    let mut v = b.view();
    DigitalRightsBlockchain::execute(&mut v, &owner_tx(1, "o1"));
    DigitalRightsBlockchain::execute(&mut v, &owner_tx(2, "o2"));
    DigitalRightsBlockchain::state_hash(&v)
}

fn prevote(validator: u32, block: &crypto::Hash) -> ConsensusMessage {
    ConsensusMessage::Prevote(Prevote::new(validator, 1, 1, block, &secret(10 + validator as u8)))
}

fn precommit(validator: u32, block: &crypto::Hash, state: &crypto::Hash) -> ConsensusMessage {
    ConsensusMessage::Precommit(Precommit::new(
        validator,
        1,
        1,
        block,
        state,
        &secret(10 + validator as u8),
    ))
}

#[test]
fn quorum_of_four_is_three() {
    let ctx = node();
    assert_eq!(ctx.state.majority_count(), 3);
    let one = State::new(0, vec![secret(10).public_key()], genesis()).unwrap();
    assert_eq!(one.majority_count(), 1);
    let three = State::new(0, validators()[..3].to_vec(), genesis()).unwrap();
    assert_eq!(three.majority_count(), 3);
}

#[test]
fn state_needs_its_node_among_the_validators() {
    assert!(State::new(0, Vec::new(), genesis()).is_none());
    assert!(State::new(4, validators(), genesis()).is_none());
    assert!(State::new(3, validators(), genesis()).is_some());
}

#[test]
fn votes_of_unknown_validators_are_not_tallied() {
    let mut ctx = node();
    let block = crypto::hash(&[9]);
    for validator in 4..8u32 {
        ctx.state.add_prevote(&Prevote::new(validator, 1, 1, &block, &secret(11)));
        ctx.state.add_precommit(&Precommit::new(validator, 1, 1, &block, &block, &secret(11)));
    }
    assert!(!ctx.state.has_majority_prevotes(1, &block));
    assert!(!ctx.state.has_majority_precommits(1, &block, &block));
    for validator in 1..4u32 {
        ctx.state.add_prevote(&Prevote::new(validator, 1, 1, &block, &secret(11)));
        ctx.state.add_precommit(&Precommit::new(validator, 1, 1, &block, &block, &secret(11)));
    }
    assert!(ctx.state.has_majority_prevotes(1, &block));
    assert!(ctx.state.has_majority_precommits(1, &block, &block));
    assert!(!ctx.state.has_majority_prevotes(2, &block));
    assert!(!ctx.state.has_majority_precommits(1, &block, &crypto::hash(&[1])));
}

#[test]
fn transactions_join_the_pool_once_and_only_if_signed() {
    let mut ctx = node();
    let mut service = ConsensusService;
    assert_eq!(ctx.state.transactions().len(), 2);
    service.handle_tx(&mut ctx, owner_tx(1, "o1"));
    assert_eq!(ctx.state.transactions().len(), 2);
    service.handle_tx(&mut ctx, owner_tx(3, "o3"));
    assert_eq!(ctx.state.transactions().len(), 3);
    assert_eq!(ctx.state.transactions()[2], owner_tx(3, "o3").hash());
    let forged = DigitalRightsTx::CreateOwner(TxCreateOwner::new(
        &secret(4).public_key(),
        "o4",
        &secret(5),
    ));
    service.handle_tx(&mut ctx, forged);
    assert_eq!(ctx.state.transactions().len(), 3);
}

#[test]
fn leader_rotates_with_height_and_round() {
    let ctx = node();
    assert_eq!(ctx.state.leader(1), 1);
    assert_eq!(ctx.state.leader(2), 2);
    assert_eq!(ctx.state.leader(3), 3);
    assert_eq!(ctx.state.leader(4), 0);
    assert!(!ConsensusService.is_leader(&ctx));
}

#[test]
fn propose_then_prevotes_emit_precommit() {
    let mut ctx = node();
    let mut service = ConsensusService;
    let propose = leader_propose();
    let block = propose.hash();

    service.handle(&mut ctx, ConsensusMessage::Propose(propose));
    // the node prevotes for the block in the proposal's round
    let own_prevote = Prevote::new(0, 1, 1, &block, &secret(10));
    assert_eq!(ctx.outbox, vec![own_prevote.to_bytes()]);
    assert_eq!(ctx.state.locked_round(), 0);

    service.handle(&mut ctx, prevote(1, &block));
    assert_eq!(ctx.outbox.len(), 1);
    assert_eq!(ctx.state.locked_round(), 0);

    service.handle(&mut ctx, prevote(2, &block));
    // own vote and two more make three of four: the node locks and precommits
    assert_eq!(ctx.state.locked_round(), 1);
    assert_eq!(ctx.state.locked_block_hash(), block);
    let state_hash = expected_state_hash();
    let own_precommit = Precommit::new(0, 1, 1, &block, &state_hash, &secret(10));
    assert_eq!(ctx.outbox.len(), 2);
    assert_eq!(ctx.outbox[1], own_precommit.to_bytes());

    service.handle(&mut ctx, prevote(3, &block));
    assert_eq!(ctx.outbox.len(), 2);
    assert_eq!(ctx.state.height(), 0);
    assert!(!ctx.halted);
}

#[test]
fn matching_precommits_commit_the_block() {
    let mut ctx = node();
    let mut service = ConsensusService;
    let propose = leader_propose();
    let block = propose.hash();
    let state_hash = expected_state_hash();

    service.handle(&mut ctx, ConsensusMessage::Propose(propose));
    service.handle(&mut ctx, precommit(1, &block, &state_hash));
    service.handle(&mut ctx, precommit(2, &block, &state_hash));
    assert_eq!(ctx.state.height(), 0);
    service.handle(&mut ctx, precommit(3, &block, &state_hash));

    // one block is committed: the height being decided is now 2
    assert_eq!(ctx.state.height(), 1);
    assert_eq!(ctx.deciding(), 2);
    assert_eq!(ctx.state.round(), 1);
    assert_eq!(ctx.state.prev_hash(), block);
    assert_eq!(ctx.state.locked_round(), 0);
    assert!(!ctx.halted);
    // storage holds what the block's transactions did
    let committed = ctx.storage.db.committed();
    assert_eq!(committed.owners().len(), 2);
    assert_eq!(committed.owners().get(0).unwrap().name().as_slice(), "o1".as_bytes());
    assert_eq!(committed.owners().get(1).unwrap().name().as_slice(), "o2".as_bytes());
    assert_eq!(DigitalRightsBlockchain::state_hash(committed), state_hash);
    // the commit is announced and the timer of round 1 at the new height is armed
    let notice = Commit::new(0, 1, 1, &block, &secret(10));
    assert!(ctx.outbox.contains(&notice.to_bytes()));
    assert_eq!(ctx.timeouts, vec![Timeout { height: 1, round: 1 }]);
}

#[test]
fn mismatching_precommits_halt_the_node() {
    let mut ctx = node();
    let mut service = ConsensusService;
    let propose = leader_propose();
    let block = propose.hash();
    let wrong = crypto::hash(&[7]);

    service.handle(&mut ctx, ConsensusMessage::Propose(propose));
    service.handle(&mut ctx, precommit(1, &block, &wrong));
    service.handle(&mut ctx, precommit(2, &block, &wrong));
    assert!(!ctx.halted);
    service.handle(&mut ctx, precommit(3, &block, &wrong));

    assert!(ctx.halted);
    assert_eq!(ctx.state.height(), 0);
    assert_eq!(ctx.state.prev_hash(), genesis());
    assert_eq!(ctx.storage.db.committed().owners().len(), 0);
    // nothing was announced: the outbox holds the node's prevote and no more
    assert_eq!(ctx.outbox.len(), 1);
    assert!(ctx.timeouts.is_empty());

    // a halted node ignores what follows
    let outbox = ctx.outbox.len();
    let good = expected_state_hash();
    service.handle(&mut ctx, precommit(1, &block, &good));
    service.handle(&mut ctx, precommit(2, &block, &good));
    service.handle(&mut ctx, precommit(3, &block, &good));
    assert_eq!(ctx.state.height(), 0);
    assert_eq!(ctx.outbox.len(), outbox);
}

#[test]
fn replayed_vote_is_counted_once() {
    let mut ctx = node();
    let mut service = ConsensusService;
    let propose = leader_propose();
    let block = propose.hash();
    service.handle(&mut ctx, ConsensusMessage::Propose(propose));
    service.handle(&mut ctx, prevote(1, &block));
    service.handle(&mut ctx, prevote(1, &block));
    service.handle(&mut ctx, prevote(1, &block));
    // own vote and validator 1: two votes, no quorum, however often it arrives
    assert!(!ctx.state.has_majority_prevotes(1, &block));
    assert_eq!(ctx.state.locked_round(), 0);
}

#[test]
fn admission_of_messages() {
    let mut ctx = node();
    let service = ConsensusService;
    let block = crypto::hash(&[9]);
    let stale = ConsensusMessage::Prevote(Prevote::new(1, 0, 1, &block, &secret(11)));
    assert!(matches!(service.classify(&ctx, &stale), Admission::Stale));
    let future_height = ConsensusMessage::Prevote(Prevote::new(1, 2, 1, &block, &secret(11)));
    assert!(matches!(service.classify(&ctx, &future_height), Admission::Early));
    let future_round = ConsensusMessage::Prevote(Prevote::new(1, 1, 2, &block, &secret(11)));
    assert!(matches!(service.classify(&ctx, &future_round), Admission::Early));
    let unknown = ConsensusMessage::Prevote(Prevote::new(4, 1, 1, &block, &secret(11)));
    assert!(matches!(service.classify(&ctx, &unknown), Admission::Refused));
    let forged = ConsensusMessage::Prevote(Prevote::new(1, 1, 1, &block, &secret(12)));
    assert!(matches!(service.classify(&ctx, &forged), Admission::Refused));
    let good = ConsensusMessage::Prevote(Prevote::new(1, 1, 1, &block, &secret(11)));
    assert!(matches!(service.classify(&ctx, &good), Admission::Admitted));
    ctx.halted = true;
    assert!(matches!(service.classify(&ctx, &good), Admission::Stale));
}

#[test]
fn early_message_is_put_aside_and_handled_after_timeout() {
    let mut ctx = node();
    let mut service = ConsensusService;
    let block = crypto::hash(&[9]);
    let early = ConsensusMessage::Prevote(Prevote::new(1, 1, 2, &block, &secret(11)));
    service.handle(&mut ctx, early);
    assert_eq!(ctx.state.queued_len(), 1);
    assert!(!ctx.state.has_majority_prevotes(2, &block));

    // a timer of another round is ignored
    service.handle_timeout(&mut ctx, Timeout { height: 0, round: 3 });
    assert_eq!(ctx.state.round(), 1);
    assert_eq!(ctx.state.queued_len(), 1);

    service.handle_timeout(&mut ctx, Timeout { height: 0, round: 1 });
    assert_eq!(ctx.state.round(), 2);
    assert_eq!(ctx.state.queued_len(), 0);
    assert_eq!(ctx.timeouts, vec![Timeout { height: 0, round: 2 }]);
}

#[test]
fn leader_proposes_after_timeout() {
    // validator 2 leads round 2 at height 1
    let state = State::new(2, validators(), genesis()).unwrap();
    let mut ctx = NodeContext::new(state, secret(12));
    let tx = owner_tx(1, "o1");
    let tx_hash = tx.hash();
    ctx.state.add_tx(tx_hash, tx);
    let mut service = ConsensusService;
    let time = Timespec { sec: 100, nsec: 7 };
    service.handle_timeout_at(&mut ctx, Timeout { height: 0, round: 1 }, time);
    assert_eq!(ctx.state.round(), 2);
    let propose = Propose::new(2, 1, 2, time, &genesis(), vec![tx_hash], &secret(12));
    let own_prevote = Prevote::new(2, 1, 2, &propose.hash(), &secret(12));
    assert_eq!(ctx.outbox, vec![propose.to_bytes(), own_prevote.to_bytes()]);
    assert!(ctx.state.have_prevote(2));
    assert!(ctx.state.propose(&propose.hash()).is_some());
}

#[test]
fn proposal_with_unknown_transaction_is_passed_over() {
    let mut ctx = node();
    let mut service = ConsensusService;
    let hashes = vec![owner_tx(5, "o5").hash()];
    let propose =
        Propose::new(1, 1, 1, Timespec { sec: 1, nsec: 5 }, &genesis(), hashes, &secret(11));
    let block = propose.hash();
    service.handle(&mut ctx, ConsensusMessage::Propose(propose));
    assert!(ctx.state.propose(&block).is_none());
    assert!(ctx.outbox.is_empty());
}

#[test]
fn proposal_from_wrong_leader_is_passed_over() {
    let mut ctx = node();
    let mut service = ConsensusService;
    let hashes = vec![owner_tx(1, "o1").hash()];
    let propose =
        Propose::new(2, 1, 1, Timespec { sec: 1, nsec: 5 }, &genesis(), hashes, &secret(12));
    let block = propose.hash();
    service.handle(&mut ctx, ConsensusMessage::Propose(propose));
    assert!(ctx.state.propose(&block).is_none());
    let wrong_tip = Propose::new(
        1,
        1,
        1,
        Timespec { sec: 1, nsec: 5 },
        &crypto::hash(&[1]),
        vec![owner_tx(1, "o1").hash()],
        &secret(11),
    );
    let block = wrong_tip.hash();
    service.handle(&mut ctx, ConsensusMessage::Propose(wrong_tip));
    assert!(ctx.state.propose(&block).is_none());
}

#[test]
fn commit_tops_up_the_pool_and_releases_queued_messages() {
    let mut ctx = node();
    let mut service = ConsensusService;
    for i in 0..120u8 {
        let s = secret(100);
        let name = format!("d{}", i);
        ctx.tx_generator.push(DigitalRightsTx::CreateDistributor(TxCreateDistributor::new(
            &s.public_key(),
            &name,
            &s,
        )));
    }
    let propose = leader_propose();
    let block = propose.hash();
    let state_hash = expected_state_hash();
    // a vote for height 2 arrives early
    let early_block = crypto::hash(&[42]);
    let early = ConsensusMessage::Prevote(Prevote::new(3, 2, 1, &early_block, &secret(13)));
    service.handle(&mut ctx, early);
    assert_eq!(ctx.state.queued_len(), 1);

    service.handle(&mut ctx, ConsensusMessage::Propose(propose));
    service.handle(&mut ctx, precommit(1, &block, &state_hash));
    service.handle(&mut ctx, precommit(2, &block, &state_hash));
    service.handle(&mut ctx, precommit(3, &block, &state_hash));
    assert_eq!(ctx.state.height(), 1);
    // a hundred transactions moved from the supply to the pool, which held two
    assert_eq!(ctx.tx_generator.len(), 20);
    assert_eq!(ctx.state.transactions().len(), 102);
    // the early vote was handled at the new height
    assert_eq!(ctx.state.queued_len(), 0);
    assert!(ctx.state.have_prevote(1) == false);
}

#[test]
fn commit_notice_is_recorded() {
    let mut ctx = node();
    let mut service = ConsensusService;
    let block = crypto::hash(&[9]);
    let notice = Commit::new(1, 1, 1, &block, &secret(11));
    service.handle(&mut ctx, ConsensusMessage::Commit(notice));
    assert_eq!(ctx.commits, vec![notice]);
    assert_eq!(ctx.state.height(), 0);
}

fn precommits_sent(ctx: &NodeContext) -> Vec<Precommit> {
    ctx.outbox
        .iter()
        .filter_map(|bytes| match ConsensusMessage::decode(bytes) {
            Some(ConsensusMessage::Precommit(p)) => Some(p),
            _ => None,
        })
        .collect()
}

#[test]
fn node_precommits_one_block_per_round() {
    let mut ctx = node();
    let mut service = ConsensusService;
    // the leader of round 1 proposes two blocks
    let first = leader_propose();
    let second = Propose::new(
        1,
        1,
        1,
        Timespec { sec: 2, nsec: 5 },
        &genesis(),
        vec![owner_tx(2, "o2").hash()],
        &secret(11),
    );
    let (a, b) = (first.hash(), second.hash());
    assert!(a != b);
    service.handle(&mut ctx, ConsensusMessage::Propose(first));
    service.handle(&mut ctx, ConsensusMessage::Propose(second));
    // not locked, the node prevotes for both
    assert_eq!(ctx.outbox.len(), 2);
    for validator in 1..4 {
        service.handle(&mut ctx, prevote(validator, &a));
    }
    for validator in 1..4 {
        service.handle(&mut ctx, prevote(validator, &b));
    }
    assert!(ctx.state.has_majority_prevotes(1, &a));
    assert!(ctx.state.has_majority_prevotes(1, &b));
    // it locked on the block whose quorum it saw first, and precommitted once
    assert_eq!(ctx.state.locked_round(), 1);
    assert_eq!(ctx.state.locked_block_hash(), a);
    let sent = precommits_sent(&ctx);
    assert_eq!(sent.len(), 1);
    assert_eq!((sent[0].validator, sent[0].round, sent[0].block_hash), (0, 1, a));
}

#[test]
fn late_block_is_locked_in_each_round_with_a_quorum() {
    let mut ctx = node();
    let mut service = ConsensusService;
    let propose = leader_propose();
    let block = propose.hash();
    // the node is in round 3 when the block of round 1 arrives; prevotes for it
    // in rounds 1 and 2 are in already
    service.handle_timeout(&mut ctx, Timeout { height: 0, round: 1 });
    service.handle_timeout(&mut ctx, Timeout { height: 0, round: 2 });
    assert_eq!(ctx.state.round(), 3);
    for round in 1..3u32 {
        for validator in 1..4u32 {
            let vote = Prevote::new(validator, 1, round, &block, &secret(10 + validator as u8));
            service.handle(&mut ctx, ConsensusMessage::Prevote(vote));
        }
    }
    assert_eq!(ctx.state.locked_round(), 0);
    service.handle(&mut ctx, ConsensusMessage::Propose(propose));
    assert_eq!(ctx.state.locked_round(), 2);
    assert_eq!(ctx.state.locked_block_hash(), block);
    let sent = precommits_sent(&ctx);
    let rounds: Vec<u32> = sent.iter().map(|p| p.round).collect();
    assert!(rounds.contains(&1) && rounds.contains(&2));
    for p in &sent {
        assert_eq!(p.block_hash, block);
        assert_eq!(p.state_hash, expected_state_hash());
    }
    // it prevoted for the block in every round up to the current one
    assert!(ctx.state.have_prevote(1) && ctx.state.have_prevote(2) && ctx.state.have_prevote(3));
}

#[test]
fn safety_violation_is_told_before_it_is_handled() {
    let mut ctx = node();
    let mut service = ConsensusService;
    let propose = leader_propose();
    let block = propose.hash();
    let wrong = crypto::hash(&[7]);
    let good = expected_state_hash();
    service.handle(&mut ctx, ConsensusMessage::Propose(propose));
    for validator in 1..3u32 {
        service.handle(&mut ctx, precommit(validator, &block, &wrong));
        service.handle(&mut ctx, precommit(validator, &block, &good));
    }
    let third_wrong = Precommit::new(3, 1, 1, &block, &wrong, &secret(13));
    let third_good = Precommit::new(3, 1, 1, &block, &good, &secret(13));
    // a quorum for another state hash than the local one
    assert!(service.shows_violation(&ctx, &third_wrong));
    // a quorum for the local state hash; a vote that completes no quorum;
    // a quorum for a block that is not known
    assert!(!service.shows_violation(&ctx, &third_good));
    let replay = Precommit::new(2, 1, 1, &block, &wrong, &secret(12));
    assert!(!service.shows_violation(&ctx, &replay));
    assert_eq!(service.local_state_hash(&ctx, block), good);
    // telling changes nothing
    assert!(!ctx.halted);
    assert_eq!(ctx.state.height(), 0);
    service.handle_precommit(&mut ctx, third_good);
    assert_eq!(ctx.state.height(), 1);
}

#[test]
fn commit_handles_the_queue_before_it_proposes() {
    // validator 2 leads round 1 at height 2
    let state = State::new(2, validators(), genesis()).unwrap();
    let mut ctx = NodeContext::new(state, secret(12));
    let t1 = owner_tx(1, "o1");
    let t2 = owner_tx(2, "o2");
    ctx.state.add_tx(t1.hash(), t1);
    ctx.state.add_tx(t2.hash(), t2);
    ctx.tx_generator.push(owner_tx(3, "o3"));
    let mut service = ConsensusService;
    let propose = leader_propose();
    let block = propose.hash();
    let state_hash = expected_state_hash();
    service.handle(&mut ctx, ConsensusMessage::Propose(propose));
    // put aside: a vote for a later round of the height being decided, and a
    // commit notice for the next height
    let later_round = ConsensusMessage::Prevote(Prevote::new(3, 1, 2, &block, &secret(13)));
    let notice = Commit::new(3, 2, 1, &block, &secret(13));
    service.handle(&mut ctx, later_round);
    service.handle(&mut ctx, ConsensusMessage::Commit(notice));
    assert_eq!(ctx.state.queued_len(), 2);
    let sent_before = ctx.outbox.len();
    for validator in [0u32, 1, 3] {
        service.handle(&mut ctx, precommit(validator, &block, &state_hash));
    }
    assert_eq!(ctx.state.height(), 1);
    // the vote for the decided height was dropped, the notice was recorded
    assert_eq!(ctx.state.queued_len(), 0);
    assert_eq!(ctx.commits, vec![notice]);
    assert!(!ctx.state.has_majority_prevotes(2, &block));
    // after that the pool was topped up, and the proposal of the new leader
    // names the transaction that came from the supply
    assert!(ctx.tx_generator.is_empty());
    let sent: Vec<ConsensusMessage> =
        ctx.outbox[sent_before..].iter().map(|b| ConsensusMessage::decode(b).unwrap()).collect();
    assert_eq!(sent.len(), 3);
    assert!(matches!(&sent[0], ConsensusMessage::Commit(c) if c.height == 1 && c.block_hash == block));
    match &sent[1] {
        ConsensusMessage::Propose(p) => {
            assert_eq!((p.validator, p.height, p.round), (2, 2, 1));
            assert_eq!(p.prev_hash, block);
            assert_eq!(p.transactions.len(), 3);
            assert_eq!(p.transactions[2], owner_tx(3, "o3").hash());
        }
        _ => panic!("no proposal"),
    }
    assert!(matches!(&sent[2], ConsensusMessage::Prevote(v) if v.height == 2 && v.round == 1));
    assert_eq!(ctx.timeouts, vec![Timeout { height: 1, round: 1 }]);
}

#[test]
fn block_is_locked_in_a_round_before_that_of_its_proposal() {
    let mut ctx = node();
    let mut service = ConsensusService;
    service.handle_timeout(&mut ctx, Timeout { height: 0, round: 1 });
    assert_eq!(ctx.state.round(), 2);
    // validator 2 leads round 2 and proposes there
    let hashes = vec![owner_tx(1, "o1").hash(), owner_tx(2, "o2").hash()];
    let propose =
        Propose::new(2, 1, 2, Timespec { sec: 1, nsec: 5 }, &genesis(), hashes, &secret(12));
    let block = propose.hash();
    // a quorum of prevotes for the block is in for round 1
    for validator in 1..4u32 {
        service.handle(&mut ctx, prevote(validator, &block));
    }
    assert!(ctx.state.has_majority_prevotes(1, &block));
    assert_eq!(ctx.state.locked_round(), 0);
    service.handle(&mut ctx, ConsensusMessage::Propose(propose));
    // the node prevoted in the proposal's round and locked in round 1
    assert!(ctx.state.have_prevote(2));
    assert_eq!(ctx.state.locked_round(), 1);
    assert_eq!(ctx.state.locked_block_hash(), block);
    let sent = precommits_sent(&ctx);
    assert_eq!(sent.len(), 1);
    assert_eq!((sent[0].round, sent[0].block_hash), (1, block));
    assert_eq!(sent[0].state_hash, expected_state_hash());
}
