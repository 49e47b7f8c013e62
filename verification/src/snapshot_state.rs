//! The decisions of the ledger-snapshot protocol.
//!
//! A node collects the preproposals, proposals and proposal votes of the
//! current snapshot. Once the preproposals carry a quorum of weight it
//! proposes; once the proposals carry a quorum it votes, once, for the
//! proposal with the highest hash; once the votes for one proposal carry a
//! quorum, the snapshot is decided: the node moves to the next snapshot number
//! and starts over with empty collections.
//!
//! Every function here decides and hands back what is to be signed and sent;
//! signing, locking, logging and sending happen around the library.

use vstd::prelude::*;
use crate::aggregator::{
    add_item, is_max_hash, items_weight, lemma_max_hash_is_numeric_max, Aggregator,
};
use crate::primitives::bytes32_value;
use crate::consensus::{find_winner_proposal, proposal_has_quorum, ConsensusParams};
use crate::snapshot_messages::{
    Aggregatable, Preproposal, Proposal, ProposalDraft, ProposalVote, ProposalVoteDraft,
    SnapshotNumber,
};

verus! {

/// What the snapshot state holds.
pub struct SnapshotsView {
    pub preproposals: Seq<Preproposal>,
    pub proposals: Seq<Proposal>,
    pub votes: Seq<ProposalVote>,
    pub proposal_voted: bool,
    pub current_snapshot_number: SnapshotNumber,
}

/// Some vote's proposal reaches a quorum of vote weight.
pub open spec fn has_winner(params: ConsensusParams, votes: Seq<ProposalVote>) -> bool {
    exists|i: int|
        0 <= i < votes.len() && proposal_has_quorum(params, votes, #[trigger] votes[i].proposal_hash)
}

/// Receiving a preproposal: one of another snapshot is discarded.
pub open spec fn add_preproposal_step(s: SnapshotsView, p: Preproposal) -> (SnapshotsView, bool) {
    if p.snapshot_number != s.current_snapshot_number {
        (s, false)
    } else {
        (SnapshotsView { preproposals: add_item(s.preproposals, p), ..s }, true)
    }
}

/// Receiving a proposal: one of another snapshot is discarded.
pub open spec fn receive_proposal_step(s: SnapshotsView, p: Proposal) -> (SnapshotsView, bool) {
    if p.snapshot_number != s.current_snapshot_number {
        (s, false)
    } else {
        (SnapshotsView { proposals: add_item(s.proposals, p), ..s }, true)
    }
}

/// Voting: at a quorum of proposals, if the node has not voted yet.
pub open spec fn try_create_vote_step(s: SnapshotsView, params: ConsensusParams) -> (
    SnapshotsView,
    bool,
) {
    if items_weight(params, s.proposals) >= params.quorum_delta && !s.proposal_voted {
        (SnapshotsView { proposal_voted: true, ..s }, true)
    } else {
        (s, false)
    }
}

/// Receiving a vote: one of another snapshot is discarded; once some
/// proposal has a quorum of votes, the next snapshot starts with empty
/// collections.
pub open spec fn receive_vote_step(s: SnapshotsView, v: ProposalVote, params: ConsensusParams) -> (
    SnapshotsView,
    bool,
) {
    if v.snapshot_number != s.current_snapshot_number {
        (s, false)
    } else {
        let votes = add_item(s.votes, v);
        if has_winner(params, votes) {
            (
                SnapshotsView {
                    preproposals: Seq::empty(),
                    proposals: Seq::empty(),
                    votes: Seq::empty(),
                    proposal_voted: s.proposal_voted,
                    current_snapshot_number: (s.current_snapshot_number + 1) as u32,
                },
                true,
            )
        } else {
            (SnapshotsView { votes, ..s }, true)
        }
    }
}

/// The vote is of the current snapshot and, collected, gives some proposal a
/// quorum: it decides the snapshot.
pub open spec fn vote_decides(s: SnapshotsView, v: ProposalVote, params: ConsensusParams) -> bool {
    v.snapshot_number == s.current_snapshot_number && has_winner(params, add_item(s.votes, v))
}

/// A call of one of the state's functions.
pub enum StateCall {
    AddPreproposal(Preproposal),
    TryCreateProposal(ConsensusParams),
    ReceiveProposal(Proposal),
    TryCreateVote(ConsensusParams),
    ReceiveVote(ProposalVote, ConsensusParams),
}

/// How a call moves the state (building a proposal does not move it).
pub open spec fn call_step(s: SnapshotsView, c: StateCall) -> SnapshotsView {
    match c {
        StateCall::AddPreproposal(p) => add_preproposal_step(s, p).0,
        StateCall::TryCreateProposal(_) => s,
        StateCall::ReceiveProposal(p) => receive_proposal_step(s, p).0,
        StateCall::TryCreateVote(params) => try_create_vote_step(s, params).0,
        StateCall::ReceiveVote(v, params) => receive_vote_step(s, v, params).0,
    }
}

/// The state after a sequence of calls.
pub open spec fn run_calls(s: SnapshotsView, calls: Seq<StateCall>) -> SnapshotsView
    decreases calls.len(),
{
    if calls.len() == 0 {
        s
    } else {
        run_calls(call_step(s, calls[0]), calls.drop_first())
    }
}

/// Each call leaves the snapshot number as it was or raises it by one; only
/// receiving a vote raises it, and when it rises all three collections are
/// empty afterwards.
pub proof fn lemma_call_snapshot_progress(s: SnapshotsView, c: StateCall)
    requires
        s.current_snapshot_number < u32::MAX,
    ensures
        ({
            let s2 = call_step(s, c);
            &&& s2.current_snapshot_number == s.current_snapshot_number
                || s2.current_snapshot_number == s.current_snapshot_number + 1
            &&& s2.current_snapshot_number != s.current_snapshot_number ==> {
                &&& c is ReceiveVote
                &&& s2.preproposals.len() == 0
                &&& s2.proposals.len() == 0
                &&& s2.votes.len() == 0
            }
        }),
{
}

/// Over a sequence of calls the snapshot number never goes back and rises by
/// at most one per call.
pub proof fn lemma_run_calls_snapshot_number(s: SnapshotsView, calls: Seq<StateCall>)
    requires
        s.current_snapshot_number + calls.len() <= u32::MAX,
    ensures
        s.current_snapshot_number <= run_calls(s, calls).current_snapshot_number
            <= s.current_snapshot_number + calls.len(),
    decreases calls.len(),
{
    if calls.len() > 0 {
        let s1 = call_step(s, calls[0]);
        lemma_call_snapshot_progress(s, calls[0]);
        lemma_run_calls_snapshot_number(s1, calls.drop_first());
    }
}

/// The state of the current snapshot.
#[derive(Debug, Default)]
pub struct LedgerSnapshotsState {
    pub preproposal_aggregator: Aggregator<Preproposal>,
    pub proposal_aggregator: Aggregator<Proposal>,
    pub vote_aggregator: Aggregator<ProposalVote>,
    pub proposal_voted: bool,
    pub current_snapshot_number: SnapshotNumber,
}

impl View for LedgerSnapshotsState {
    type V = SnapshotsView;

    open spec fn view(&self) -> SnapshotsView {
        SnapshotsView {
            preproposals: self.preproposal_aggregator@,
            proposals: self.proposal_aggregator@,
            votes: self.vote_aggregator@,
            proposal_voted: self.proposal_voted,
            current_snapshot_number: self.current_snapshot_number,
        }
    }
}

impl LedgerSnapshotsState {
    /// Snapshot 0, nothing collected, not voted.
    pub fn new() -> (r: LedgerSnapshotsState)
        ensures
            r@.preproposals.len() == 0,
            r@.proposals.len() == 0,
            r@.votes.len() == 0,
            !r@.proposal_voted,
            r@.current_snapshot_number == 0,
    {
        LedgerSnapshotsState {
            preproposal_aggregator: Aggregator::new(),
            proposal_aggregator: Aggregator::new(),
            vote_aggregator: Aggregator::new(),
            proposal_voted: false,
            current_snapshot_number: 0,
        }
    }

    /// Collects a preproposal of the current snapshot; returns whether it was
    /// of the current snapshot.
    pub fn add_preproposal(&mut self, preproposal: Preproposal) -> (r: bool)
        ensures
            (final(self)@, r) == add_preproposal_step(old(self)@, preproposal),
    {
        if preproposal.snapshot_number != self.current_snapshot_number {
            return false;
        }
        self.preproposal_aggregator.add(preproposal);
        true
    }

    /// At a quorum of preproposals: what the proposal is built from, the
    /// collected preproposals and the current snapshot number.
    pub fn try_create_proposal(&self, consensus_params: &ConsensusParams) -> (r: Option<ProposalDraft>)
        ensures
            r is Some <==> items_weight(*consensus_params, self@.preproposals)
                >= consensus_params.quorum_delta,
            r matches Some(d) ==> d.snapshot_number == self@.current_snapshot_number && d.preproposals@.map_values(
                |p: Preproposal| p@,
            ) == self@.preproposals.map_values(|p: Preproposal| p@),
    {
        if self.preproposal_aggregator.has_quorum(consensus_params) {
            let values = self.preproposal_aggregator.values();
            let n = values.len();
            let mut preproposals: Vec<Preproposal> = Vec::new();
            let mut i: usize = 0;
            while i < n
                invariant
                    n == values@.len(),
                    0 <= i <= n,
                    preproposals@.len() == i,
                    forall|k: int| 0 <= k < i ==> (#[trigger] preproposals@[k])@ == values@[k]@,
                decreases n - i,
            {
                preproposals.push(values[i].clone());
                i = i + 1;
            }
            assert(preproposals@.map_values(|p: Preproposal| p@) =~= values@.map_values(
                |p: Preproposal| p@,
            ));
            Some(ProposalDraft { preproposals, snapshot_number: self.current_snapshot_number })
        } else {
            None
        }
    }

    /// Collects a proposal of the current snapshot; returns whether it was of
    /// the current snapshot.
    pub fn receive_proposal(&mut self, proposal: Proposal) -> (r: bool)
        ensures
            (final(self)@, r) == receive_proposal_step(old(self)@, proposal),
    {
        if proposal.snapshot_number != self.current_snapshot_number {
            return false;
        }
        self.proposal_aggregator.add(proposal);
        true
    }

    /// At a quorum of proposals, and only if the node has not voted yet: a
    /// vote for the proposal with the highest hash, in the current snapshot.
    /// A quorum of no proposals at all (a quorum weight of zero) is refused,
    /// as there would be nothing to vote for.
    pub fn try_create_vote(&mut self, consensus_params: &ConsensusParams) -> (r: Option<
        ProposalVoteDraft,
    >)
        requires
            old(self)@.proposals.len() == 0 && !old(self)@.proposal_voted
                ==> consensus_params.quorum_delta > 0,
        ensures
            (final(self)@, r is Some) == try_create_vote_step(old(self)@, *consensus_params),
            r matches Some(d) ==> is_max_hash(old(self)@.proposals, d.proposal_hash)
                && d.snapshot_number == old(self)@.current_snapshot_number,
    {
        let has_quorum = self.proposal_aggregator.has_quorum(consensus_params);
        if has_quorum && !self.proposal_voted {
            proof {
                if self@.proposals.len() == 0 {
                    assert(crate::aggregator::signers_of(self@.proposals) =~= Seq::empty());
                }
            }
            let vote = create_proposal_vote(&self.proposal_aggregator, self.current_snapshot_number);
            let vote = match vote {
                Some(v) => v,
                None => {
                    assert(false);
                    return None;
                },
            };
            self.proposal_voted = true;
            Some(vote)
        } else {
            None
        }
    }

    /// Collects a vote of the current snapshot; returns whether it was of the
    /// current snapshot. Once some proposal has a quorum of votes, moves to
    /// the next snapshot with empty collections.
    pub fn receive_vote(&mut self, vote: ProposalVote, consensus_params: &ConsensusParams) -> (r: bool)
        requires
            old(self)@.current_snapshot_number < u32::MAX || !vote_decides(
                old(self)@,
                vote,
                *consensus_params,
            ),
        ensures
            (final(self)@, r) == receive_vote_step(old(self)@, vote, *consensus_params),
    {
        if vote.snapshot_number != self.current_snapshot_number {
            return false;
        }
        self.vote_aggregator.add(vote);
        let winner = find_winner_proposal(consensus_params, self.vote_aggregator.values());
        if winner.is_some() {
            self.current_snapshot_number = self.current_snapshot_number + 1;
            self.preproposal_aggregator.clear();
            self.proposal_aggregator.clear();
            self.vote_aggregator.clear();
        }
        true
    }
}

impl LedgerSnapshotsState {
    /// Whether receiving `vote` would decide the current snapshot.
    pub fn vote_decides_snapshot(&self, vote: &ProposalVote, consensus_params: &ConsensusParams) -> (r: bool)
        ensures
            r == vote_decides(self@, *vote, *consensus_params),
    {
        if vote.snapshot_number != self.current_snapshot_number {
            return false;
        }
        let values = self.vote_aggregator.values();
        let n = values.len();
        let mut votes: Vec<ProposalVote> = Vec::new();
        let mut i: usize = 0;
        while i < n
            invariant
                n == values@.len(),
                0 <= i <= n,
                votes@ == values@.take(i as int),
            decreases n - i,
        {
            votes.push(values[i]);
            assert(votes@ =~= values@.take(i + 1));
            i = i + 1;
        }
        assert(values@.take(n as int) =~= values@);
        if !self.vote_aggregator.contains(&vote.hash) {
            votes.push(*vote);
        }
        find_winner_proposal(consensus_params, &votes).is_some()
    }
}

/// A vote for the proposal with the highest hash among the collected ones;
/// none if there are none.
pub fn create_proposal_vote(aggregator: &Aggregator<Proposal>, snapshot_number: SnapshotNumber) -> (r:
    Option<ProposalVoteDraft>)
    ensures
        r is None <==> aggregator@.len() == 0,
        r matches Some(d) ==> is_max_hash(aggregator@, d.proposal_hash) && d.snapshot_number
            == snapshot_number,
        r matches Some(d) ==> forall|i: int|
            0 <= i < aggregator@.len() ==> bytes32_value((#[trigger] aggregator@[i]).hash_spec())
                <= bytes32_value(d.proposal_hash),
{
    match aggregator.max_hash() {
        Some(h) => {
            proof {
                lemma_max_hash_is_numeric_max(aggregator@, h, h);
            }
            Some(ProposalVoteDraft { proposal_hash: h, snapshot_number })
        },
        None => None,
    }
}

} // verus!
