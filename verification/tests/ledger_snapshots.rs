use nano_snapshots::aggregator::Aggregator;
use nano_snapshots::consensus::{find_winner_proposal, ConsensusParams};
use nano_snapshots::ledger_snapshots::{Handled, LedgerSnapshots};
use nano_snapshots::primitives::{Account, Bytes32, Frontier, MessageHash};
use nano_snapshots::snapshot_messages::{Preproposal, Proposal, ProposalVote, SnapshotNumber};
use nano_snapshots::snapshot_state::{create_proposal_vote, LedgerSnapshotsState};

const NANO: u128 = 1_000_000_000_000_000_000_000_000_000_000;

fn rep(key: u64) -> Account {
    Bytes32 { w0: 0xFEED, w1: 0, w2: 0, w3: key }
}

fn hash_of(kind: u64, key: u64, n: SnapshotNumber) -> MessageHash {
    Bytes32 { w0: kind, w1: key, w2: n as u64, w3: 0x5A }
}

fn preproposal(key: u64, n: SnapshotNumber, frontiers: Vec<Frontier>) -> Preproposal {
    Preproposal { hash: hash_of(1, key, n), signer: rep(key), snapshot_number: n, frontiers }
}

fn proposal(key: u64, n: SnapshotNumber) -> Proposal {
    Proposal { hash: hash_of(2, key, n), signer: rep(key), snapshot_number: n }
}

fn vote(proposal_hash: MessageHash, key: u64, n: SnapshotNumber) -> ProposalVote {
    ProposalVote {
        hash: Bytes32 { w0: 3, w1: key, w2: n as u64, w3: proposal_hash.w1 },
        signer: rep(key),
        snapshot_number: n,
        proposal_hash,
    }
}

fn no_weights() -> ConsensusParams {
    ConsensusParams::new(vec![], 60_000_000 * NANO)
}

fn quorum_of(key: u64) -> ConsensusParams {
    let quorum_weight = 100_000 * NANO;
    ConsensusParams::new(vec![(rep(key), quorum_weight)], quorum_weight)
}

fn fixture() -> LedgerSnapshots {
    let mut snapshots = LedgerSnapshots::new();
    snapshots.state.current_snapshot_number = 10;
    snapshots
}

#[test]
fn discard_preproposal_with_different_snapshot_number_than_current() {
    let mut state = LedgerSnapshotsState::new();
    state.current_snapshot_number = 10;
    assert!(!state.add_preproposal(preproposal(1, 9, vec![])));
    assert!(state.preproposal_aggregator.is_empty());
    assert!(!state.add_preproposal(preproposal(1, 11, vec![])));
    assert!(state.preproposal_aggregator.is_empty());
}

#[test]
fn discard_proposal_with_different_snapshot_number_than_current() {
    let mut state = LedgerSnapshotsState::new();
    state.current_snapshot_number = 10;
    assert!(!state.receive_proposal(proposal(1, 9)));
    assert!(state.proposal_aggregator.is_empty());
    assert!(!state.receive_proposal(proposal(1, 11)));
    assert!(state.proposal_aggregator.is_empty());
}

#[test]
fn discard_proposal_vote_with_different_snapshot_number_than_current() {
    let mut state = LedgerSnapshotsState::new();
    state.current_snapshot_number = 10;
    let params = ConsensusParams::new(vec![], 0);
    assert!(!state.receive_vote(vote(Bytes32::from_u64(1), 1, 9), &params));
    assert!(state.vote_aggregator.is_empty());
    assert!(!state.receive_vote(vote(Bytes32::from_u64(1), 1, 11), &params));
    assert!(state.vote_aggregator.is_empty());
}

#[test]
fn current_snapshot_number_is_increased_when_proposal_gets_confirmed() {
    let params = ConsensusParams::new(vec![(rep(1), u128::MAX)], 1);
    let mut state = LedgerSnapshotsState::new();
    let snapshot_number = state.current_snapshot_number;

    assert!(state.add_preproposal(preproposal(1, snapshot_number, vec![])));
    assert!(state.receive_proposal(proposal(1, snapshot_number)));
    assert!(state.receive_vote(vote(Bytes32::from_u64(123), 1, snapshot_number), &params));

    assert_eq!(state.current_snapshot_number, snapshot_number + 1);
    assert_eq!(state.preproposal_aggregator.len(), 0, "preproposals not cleared");
    assert_eq!(state.proposal_aggregator.len(), 0, "proposals not cleared");
    assert_eq!(state.vote_aggregator.len(), 0, "votes not cleared");
}

#[test]
fn create_preproposal() {
    let account = Bytes32::from_u64(10);
    let frontier = Bytes32::from_u64(2);
    let snapshots = fixture();
    let draft = snapshots.create_preproposal(vec![Frontier::new(account, frontier)]);
    assert!(draft.frontiers.contains(&Frontier::new(account, frontier)));
    assert_eq!(draft.snapshot_number, snapshots.get_current_snapshot_number());
}

#[test]
fn publish_preproposal() {
    let snapshots = fixture();
    let frontiers = vec![Frontier::new(Bytes32::from_u64(1), Bytes32::from_u64(100))];
    let draft = snapshots.start_ledger_snapshot(frontiers.clone());
    assert_eq!(draft, snapshots.create_preproposal(frontiers));
    assert_eq!(draft.snapshot_number, 10);
}

#[test]
fn a_received_preproposal_is_added_to_the_preproposal_aggregator() {
    let mut snapshots = fixture();
    let n = snapshots.get_current_snapshot_number();
    let p = preproposal(1, n, vec![]);
    let hash = p.hash;
    let outcome = snapshots.handle_preproposal(p, &no_weights());
    assert_eq!(outcome, Handled::Accepted(None));
    assert!(snapshots.state.preproposal_aggregator.contains(&hash));
}

#[test]
fn publish_proposal_when_quorum_of_preproposals_is_reached() {
    let mut snapshots = fixture();
    let params = quorum_of(123);
    let snapshot_number = snapshots.get_current_snapshot_number();
    let p = preproposal(123, snapshot_number, vec![]);
    let outcome = snapshots.handle_preproposal(p.clone(), &params);
    match outcome {
        Handled::Accepted(Some(draft)) => {
            assert_eq!(draft.preproposals, vec![p]);
            assert_eq!(draft.snapshot_number, snapshot_number);
        }
        other => panic!("expected a proposal, got {:?}", other),
    }
    assert_eq!(snapshot_number, snapshots.get_current_snapshot_number());
}

#[test]
fn a_received_proposal_is_added_to_the_proposal_aggregator() {
    let mut snapshots = fixture();
    let p = proposal(1, snapshots.get_current_snapshot_number());
    let outcome = snapshots.receive_proposal(p, &no_weights());
    assert_eq!(outcome, Handled::Accepted(None));
    assert!(snapshots.state.proposal_aggregator.contains(&p.hash));
}

#[test]
fn publish_proposal_vote_when_quorum_of_proposals_is_reached() {
    let mut snapshots = fixture();
    let params = quorum_of(123);
    let snapshot_number = snapshots.get_current_snapshot_number();
    let p = proposal(123, snapshot_number);
    let outcome = snapshots.receive_proposal(p, &params);
    match outcome {
        Handled::Accepted(Some(draft)) => {
            assert_eq!(draft.proposal_hash, p.hash);
            assert_eq!(draft.snapshot_number, snapshot_number);
        }
        other => panic!("expected a vote, got {:?}", other),
    }
    assert_eq!(snapshot_number, snapshots.get_current_snapshot_number());
}

#[test]
fn publish_proposal_vote_only_once() {
    let mut snapshots = fixture();
    let params = quorum_of(123);
    let n = snapshots.get_current_snapshot_number();
    let first = snapshots.receive_proposal(proposal(123, n), &params);
    let second = snapshots.receive_proposal(proposal(2, n), &params);
    assert!(matches!(first, Handled::Accepted(Some(_))));
    assert_eq!(second, Handled::Accepted(None), "Should vote only once");
}

#[test]
fn vote_for_proposal_with_highest_hash() {
    let snapshot_number = 0;
    let proposals = [
        Proposal { hash: Bytes32 { w0: 5, w1: 0, w2: 0, w3: 0 }, signer: rep(1), snapshot_number },
        Proposal { hash: Bytes32 { w0: 9, w1: 0, w2: 0, w3: 1 }, signer: rep(2), snapshot_number },
        Proposal { hash: Bytes32 { w0: 9, w1: 0, w2: 0, w3: 0 }, signer: rep(3), snapshot_number },
        Proposal { hash: Bytes32 { w0: 1, w1: 7, w2: 7, w3: 7 }, signer: rep(4), snapshot_number },
    ];
    let highest_hash = Bytes32 { w0: 9, w1: 0, w2: 0, w3: 1 };
    let mut aggregator = Aggregator::<Proposal>::new();
    for p in proposals {
        aggregator.add(p);
    }
    let proposal_vote = create_proposal_vote(&aggregator, snapshot_number);
    assert_eq!(proposal_vote.unwrap().proposal_hash, highest_hash);
    assert!(create_proposal_vote(&Aggregator::<Proposal>::new(), 0).is_none());
}

#[test]
fn a_received_proposal_vote_is_added_to_the_proposal_vote_aggregator() {
    let mut snapshots = fixture();
    let v = vote(Bytes32::from_u64(1), 1, snapshots.get_current_snapshot_number());
    assert!(snapshots.receive_proposal_vote(v, &no_weights()));
    assert!(snapshots.state.vote_aggregator.contains(&v.hash));
}

#[test]
fn initial_snapshot_number_should_be_zero() {
    let ledger_snapshots = LedgerSnapshots::new();
    assert_eq!(ledger_snapshots.get_current_snapshot_number(), 0);
}

#[test]
fn other_snapshot_messages_are_discarded() {
    let mut snapshots = fixture();
    let params = quorum_of(1);
    assert_eq!(snapshots.handle_preproposal(preproposal(1, 3, vec![]), &params), Handled::Discarded);
    assert_eq!(snapshots.receive_proposal(proposal(1, 11), &params), Handled::Discarded);
    assert!(!snapshots.receive_proposal_vote(vote(Bytes32::from_u64(1), 1, 9), &params));
    assert_eq!(snapshots.state.preproposal_aggregator.len(), 0);
    assert_eq!(snapshots.state.proposal_aggregator.len(), 0);
    assert_eq!(snapshots.state.vote_aggregator.len(), 0);
}

#[test]
fn duplicate_messages_are_kept_once() {
    let mut agg = Aggregator::<Proposal>::new();
    agg.add(proposal(1, 0));
    agg.add(proposal(1, 0));
    agg.add(proposal(2, 0));
    assert_eq!(agg.len(), 2);
    assert_eq!(agg.values().len(), 2);
    agg.clear();
    assert!(agg.is_empty());
}

#[test]
fn each_representative_counts_once() {
    let params = ConsensusParams::new(vec![(rep(1), 10), (rep(2), 5), (rep(1), 99)], 15);
    assert_eq!(params.weight(&rep(1)), 10);
    assert_eq!(params.weight(&rep(3)), 0);
    let mut agg = Aggregator::<Preproposal>::new();
    agg.add(Preproposal { hash: Bytes32::from_u64(1), signer: rep(1), snapshot_number: 0, frontiers: vec![] });
    agg.add(Preproposal { hash: Bytes32::from_u64(2), signer: rep(1), snapshot_number: 0, frontiers: vec![] });
    assert_eq!(agg.tally(&params), 10);
    assert!(!agg.has_quorum(&params));
    agg.add(Preproposal { hash: Bytes32::from_u64(3), signer: rep(2), snapshot_number: 0, frontiers: vec![] });
    assert_eq!(agg.tally(&params), 15);
    assert!(agg.has_quorum(&params));
}

#[test]
fn tally_saturates() {
    let params = ConsensusParams::new(vec![(rep(1), u128::MAX), (rep(2), u128::MAX)], u128::MAX);
    assert_eq!(params.tally_signers(&vec![rep(1), rep(2), rep(1)]), u128::MAX);
    assert!(params.is_quorum(&vec![rep(2)]));
}

#[test]
fn winner_needs_a_quorum_of_votes_for_one_proposal() {
    let params = ConsensusParams::new(vec![(rep(1), 6), (rep(2), 5), (rep(3), 5)], 10);
    let a = Bytes32::from_u64(0xA);
    let b = Bytes32::from_u64(0xB);
    let votes = vec![vote(a, 1, 0), vote(b, 2, 0)];
    assert_eq!(find_winner_proposal(&params, &votes), None);
    let votes = vec![vote(a, 1, 0), vote(b, 2, 0), vote(b, 3, 0)];
    assert_eq!(find_winner_proposal(&params, &votes), Some(b));
}

#[test]
fn vote_moves_to_next_snapshot_only_at_quorum() {
    let params = ConsensusParams::new(vec![(rep(1), 6), (rep(2), 5)], 10);
    let mut snapshots = fixture();
    let h = Bytes32::from_u64(0xC);
    assert!(snapshots.receive_proposal_vote(vote(h, 1, 10), &params));
    assert_eq!(snapshots.get_current_snapshot_number(), 10);
    assert!(snapshots.receive_proposal_vote(vote(h, 2, 10), &params));
    assert_eq!(snapshots.get_current_snapshot_number(), 11);
    assert!(snapshots.state.vote_aggregator.is_empty());
}

#[test]
fn deciding_vote_is_recognised() {
    let params = ConsensusParams::new(vec![(rep(1), 6), (rep(2), 5)], 10);
    let mut state = LedgerSnapshotsState::new();
    let h = Bytes32::from_u64(0xC);
    assert!(!state.vote_decides_snapshot(&vote(h, 1, 0), &params));
    assert!(!state.vote_decides_snapshot(&vote(h, 2, 5), &params));
    assert!(state.receive_vote(vote(h, 1, 0), &params));
    assert!(state.vote_decides_snapshot(&vote(h, 2, 0), &params));
    assert!(!state.vote_decides_snapshot(&vote(h, 1, 0), &params));
}

#[test]
fn vote_at_last_snapshot_number_is_collected_when_it_decides_nothing() {
    let params = ConsensusParams::new(vec![(rep(1), 6)], 10);
    let mut state = LedgerSnapshotsState::new();
    state.current_snapshot_number = u32::MAX;
    assert!(state.receive_vote(vote(Bytes32::from_u64(1), 1, u32::MAX), &params));
    assert_eq!(state.vote_aggregator.len(), 1);
    assert_eq!(state.current_snapshot_number, u32::MAX);
}
