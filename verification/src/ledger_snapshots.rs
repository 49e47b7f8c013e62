//! The ledger-snapshot node logic as a state machine: each incoming message
//! is an event that moves the snapshot state and may call for a message to be
//! signed and flooded.

use vstd::prelude::*;
use crate::aggregator::{is_max_hash, items_weight, lemma_max_hash_is_numeric_max};
use crate::consensus::ConsensusParams;
use crate::primitives::{bytes32_value, Frontier};
use crate::snapshot_messages::{
    Aggregatable, Preproposal, PreproposalDraft, Proposal, ProposalDraft, ProposalVote,
    ProposalVoteDraft, SnapshotNumber,
};
use crate::snapshot_state::{
    add_preproposal_step, receive_proposal_step, receive_vote_step, try_create_vote_step,
    vote_decides, LedgerSnapshotsState, SnapshotsView,
};

verus! {

/// An incoming snapshot message.
pub enum SnapshotEvent {
    Preproposal(Preproposal),
    Proposal(Proposal),
    Vote(ProposalVote),
}

impl SnapshotEvent {
    pub open spec fn snapshot_number(self) -> SnapshotNumber {
        match self {
            SnapshotEvent::Preproposal(p) => p.snapshot_number,
            SnapshotEvent::Proposal(p) => p.snapshot_number,
            SnapshotEvent::Vote(v) => v.snapshot_number,
        }
    }
}

/// How the state moves on an event, and whether the node casts its vote.
/// A preproposal is collected (a proposal may be built from the collection,
/// which does not move the state); a proposal is collected and, if it was of
/// the current snapshot, the node may vote; a vote is collected and may decide
/// the snapshot.
pub open spec fn event_step(s: SnapshotsView, ev: SnapshotEvent, params: ConsensusParams) -> (
    SnapshotsView,
    bool,
) {
    match ev {
        SnapshotEvent::Preproposal(p) => (add_preproposal_step(s, p).0, false),
        SnapshotEvent::Proposal(p) => {
            let (s1, accepted) = receive_proposal_step(s, p);
            if accepted {
                try_create_vote_step(s1, params)
            } else {
                (s1, false)
            }
        },
        SnapshotEvent::Vote(v) => (receive_vote_step(s, v, params).0, false),
    }
}

/// The state after a run of events, each with the consensus parameters in
/// force when it came, and how many votes the node cast on the way.
pub open spec fn run(s: SnapshotsView, evs: Seq<(SnapshotEvent, ConsensusParams)>) -> (
    SnapshotsView,
    nat,
)
    decreases evs.len(),
{
    if evs.len() == 0 {
        (s, 0)
    } else {
        let (s1, voted) = event_step(s, evs[0].0, evs[0].1);
        let (s2, n) = run(s1, evs.drop_first());
        (s2, n + if voted {
            1nat
        } else {
            0nat
        })
    }
}

/// Every collected message belongs to the current snapshot.
pub open spec fn collected_in_current(s: SnapshotsView) -> bool {
    &&& forall|i: int|
        0 <= i < s.preproposals.len() ==> (#[trigger] s.preproposals[i]).snapshot_number
            == s.current_snapshot_number
    &&& forall|i: int|
        0 <= i < s.proposals.len() ==> (#[trigger] s.proposals[i]).snapshot_number
            == s.current_snapshot_number
    &&& forall|i: int|
        0 <= i < s.votes.len() ==> (#[trigger] s.votes[i]).snapshot_number
            == s.current_snapshot_number
}

/// A node votes at most once: over any run of events it casts no vote if it
/// has voted already and at most one otherwise, and it is marked as having
/// voted exactly when it had or cast a vote.
pub proof fn lemma_vote_at_most_once(s: SnapshotsView, evs: Seq<(SnapshotEvent, ConsensusParams)>)
    ensures
        run(s, evs).1 <= if s.proposal_voted {
            0nat
        } else {
            1nat
        },
        run(s, evs).0.proposal_voted == (s.proposal_voted || run(s, evs).1 > 0),
    decreases evs.len(),
{
    if evs.len() > 0 {
        let (s1, voted) = event_step(s, evs[0].0, evs[0].1);
        lemma_vote_at_most_once(s1, evs.drop_first());
        assert(s1.proposal_voted == (s.proposal_voted || voted));
        assert(voted ==> !s.proposal_voted);
    }
}

/// A message of another snapshot than the current one is discarded: the state
/// does not move and no vote is cast.
pub proof fn lemma_other_snapshot_discarded(s: SnapshotsView, ev: SnapshotEvent, params: ConsensusParams)
    requires
        ev.snapshot_number() != s.current_snapshot_number,
    ensures
        event_step(s, ev, params) == (s, false),
{
}

/// Every event keeps the collected messages within the current snapshot.
pub proof fn lemma_collected_in_current_preserved(
    s: SnapshotsView,
    ev: SnapshotEvent,
    params: ConsensusParams,
)
    requires
        collected_in_current(s),
    ensures
        collected_in_current(event_step(s, ev, params).0),
{
}

/// The snapshot number never goes back and moves on by at most one per
/// event; when it moves on, all collections are empty.
pub proof fn lemma_snapshot_number_progress(s: SnapshotsView, ev: SnapshotEvent, params: ConsensusParams)
    requires
        s.current_snapshot_number < u32::MAX,
    ensures
        ({
            let s2 = event_step(s, ev, params).0;
            &&& s2.current_snapshot_number == s.current_snapshot_number
                || s2.current_snapshot_number == s.current_snapshot_number + 1
            &&& s2.current_snapshot_number != s.current_snapshot_number ==> s2.preproposals.len()
                == 0 && s2.proposals.len() == 0 && s2.votes.len() == 0
        }),
{
}

/// The outcome of an incoming message: discarded (another snapshot), or
/// collected, with what the node is to sign and flood in answer, if anything.
#[derive(Clone, Debug, PartialEq, Eq)]
pub enum Handled<T> {
    Discarded,
    Accepted(Option<T>),
}

/// The ledger-snapshot logic of a node.
#[derive(Debug, Default)]
pub struct LedgerSnapshots {
    pub state: LedgerSnapshotsState,
}

impl LedgerSnapshots {
    /// Snapshot 0, nothing collected, not voted.
    pub fn new() -> (r: LedgerSnapshots)
        ensures
            r.state@.preproposals.len() == 0,
            r.state@.proposals.len() == 0,
            r.state@.votes.len() == 0,
            !r.state@.proposal_voted,
            r.state@.current_snapshot_number == 0,
    {
        LedgerSnapshots { state: LedgerSnapshotsState::new() }
    }

    pub fn get_current_snapshot_number(&self) -> (r: SnapshotNumber)
        ensures
            r == self.state@.current_snapshot_number,
    {
        self.state.current_snapshot_number
    }

    /// The preproposal of the node: the confirmed frontiers of the ledger, for
    /// the current snapshot.
    pub fn create_preproposal(&self, frontiers: Vec<Frontier>) -> (r: PreproposalDraft)
        ensures
            r.frontiers@ == frontiers@,
            r.snapshot_number == self.state@.current_snapshot_number,
    {
        PreproposalDraft { frontiers, snapshot_number: self.get_current_snapshot_number() }
    }

    /// Starts a snapshot: the preproposal to sign and flood.
    pub fn start_ledger_snapshot(&self, frontiers: Vec<Frontier>) -> (r: PreproposalDraft)
        ensures
            r.frontiers@ == frontiers@,
            r.snapshot_number == self.state@.current_snapshot_number,
    {
        self.create_preproposal(frontiers)
    }

    /// A preproposal came in: it is collected if it is of the current
    /// snapshot; then, at a quorum of preproposals, a proposal is to be built
    /// from all collected ones.
    pub fn handle_preproposal(&mut self, preproposal: Preproposal, consensus_params: &ConsensusParams) -> (r:
        Handled<ProposalDraft>)
        ensures
            final(self).state@ == event_step(
                old(self).state@,
                SnapshotEvent::Preproposal(preproposal),
                *consensus_params,
            ).0,
            r is Discarded <==> preproposal.snapshot_number != old(self).state@.current_snapshot_number,
            r matches Handled::Accepted(d) ==> (d is Some <==> items_weight(
                *consensus_params,
                final(self).state@.preproposals,
            ) >= consensus_params.quorum_delta),
            r matches Handled::Accepted(Some(d)) ==> d.snapshot_number
                == final(self).state@.current_snapshot_number && d.preproposals@.map_values(
                |p: Preproposal| p@,
            ) == final(self).state@.preproposals.map_values(|p: Preproposal| p@),
    {
        if !self.state.add_preproposal(preproposal) {
            return Handled::Discarded;
        }
        Handled::Accepted(self.state.try_create_proposal(consensus_params))
    }

    /// A proposal came in: it is collected if it is of the current snapshot;
    /// then, at a quorum of proposals and if the node has not voted yet, a
    /// vote for the proposal with the highest hash is to be cast.
    pub fn receive_proposal(&mut self, proposal: Proposal, consensus_params: &ConsensusParams) -> (r:
        Handled<ProposalVoteDraft>)
        ensures
            (final(self).state@, r matches Handled::Accepted(Some(_))) == event_step(
                old(self).state@,
                SnapshotEvent::Proposal(proposal),
                *consensus_params,
            ),
            r is Discarded <==> proposal.snapshot_number != old(self).state@.current_snapshot_number,
            r matches Handled::Accepted(Some(d)) ==> is_max_hash(
                final(self).state@.proposals,
                d.proposal_hash,
            ) && d.snapshot_number == final(self).state@.current_snapshot_number,
            r matches Handled::Accepted(Some(d)) ==> forall|i: int|
                0 <= i < final(self).state@.proposals.len() ==> bytes32_value(
                    (#[trigger] final(self).state@.proposals[i]).hash_spec(),
                ) <= bytes32_value(d.proposal_hash),
    {
        if !self.state.receive_proposal(proposal) {
            return Handled::Discarded;
        }
        proof {
            assert(self.state@.proposals.len() > 0);
        }
        let r = self.state.try_create_vote(consensus_params);
        proof {
            if let Some(d) = r {
                lemma_max_hash_is_numeric_max(self.state@.proposals, d.proposal_hash, d.proposal_hash);
            }
        }
        Handled::Accepted(r)
    }

    /// A proposal vote came in: it is collected if it is of the current
    /// snapshot, and may decide the snapshot. Returns whether it was of the
    /// current snapshot.
    pub fn receive_proposal_vote(&mut self, proposal_vote: ProposalVote, consensus_params: &ConsensusParams) -> (r:
        bool)
        requires
            old(self).state@.current_snapshot_number < u32::MAX || !vote_decides(
                old(self).state@,
                proposal_vote,
                *consensus_params,
            ),
        ensures
            final(self).state@ == event_step(
                old(self).state@,
                SnapshotEvent::Vote(proposal_vote),
                *consensus_params,
            ).0,
            r == (proposal_vote.snapshot_number == old(self).state@.current_snapshot_number),
    {
        self.state.receive_vote(proposal_vote, consensus_params)
    }
}

} // verus!
