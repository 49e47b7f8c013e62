//! The messages that representatives exchange to agree on a ledger snapshot:
//! preproposals (a representative's confirmed frontiers), proposals (built
//! from a quorum of preproposals) and proposal votes.
//!
//! Signing and hashing happen where a message is built; the library keeps of
//! each message what its decisions read: its hash, the representative that
//! signed it and the snapshot it belongs to.

use vstd::prelude::*;
use crate::primitives::{Account, Frontier, MessageHash};

verus! {

/// The number of a ledger snapshot.
pub type SnapshotNumber = u32;

/// A message that is collected per snapshot and counted by the weight of
/// the representatives that signed it.
pub trait Aggregatable {
    spec fn hash_spec(&self) -> MessageHash;

    spec fn signer_spec(&self) -> Account;

    spec fn snapshot_number_spec(&self) -> SnapshotNumber;

    fn hash(&self) -> (r: MessageHash)
        ensures
            r == self.hash_spec(),
    ;

    fn signer(&self) -> (r: Account)
        ensures
            r == self.signer_spec(),
    ;

    fn snapshot_number(&self) -> (r: SnapshotNumber)
        ensures
            r == self.snapshot_number_spec(),
    ;
}

/// A representative's confirmed frontiers for a snapshot.
#[derive(Debug, PartialEq, Eq)]
pub struct Preproposal {
    pub hash: MessageHash,
    pub signer: Account,
    pub snapshot_number: SnapshotNumber,
    pub frontiers: Vec<Frontier>,
}

/// What a preproposal holds.
pub struct PreproposalView {
    pub hash: MessageHash,
    pub signer: Account,
    pub snapshot_number: SnapshotNumber,
    pub frontiers: Seq<Frontier>,
}

impl View for Preproposal {
    type V = PreproposalView;

    open spec fn view(&self) -> PreproposalView {
        PreproposalView {
            hash: self.hash,
            signer: self.signer,
            snapshot_number: self.snapshot_number,
            frontiers: self.frontiers@,
        }
    }
}

impl Clone for Preproposal {
    fn clone(&self) -> (r: Preproposal)
        ensures
            r@ == self@,
    {
        let frontiers = self.frontiers.clone();
        assert(frontiers@ =~= self.frontiers@);
        Preproposal {
            hash: self.hash,
            signer: self.signer,
            snapshot_number: self.snapshot_number,
            frontiers,
        }
    }
}

impl Aggregatable for Preproposal {
    open spec fn hash_spec(&self) -> MessageHash {
        self.hash
    }

    open spec fn signer_spec(&self) -> Account {
        self.signer
    }

    open spec fn snapshot_number_spec(&self) -> SnapshotNumber {
        self.snapshot_number
    }

    fn hash(&self) -> (r: MessageHash) {
        self.hash
    }

    fn signer(&self) -> (r: Account) {
        self.signer
    }

    fn snapshot_number(&self) -> (r: SnapshotNumber) {
        self.snapshot_number
    }
}

/// A representative's proposal for a snapshot.
#[derive(Clone, Copy, Debug, PartialEq, Eq, Structural)]
pub struct Proposal {
    pub hash: MessageHash,
    pub signer: Account,
    pub snapshot_number: SnapshotNumber,
}

impl Aggregatable for Proposal {
    open spec fn hash_spec(&self) -> MessageHash {
        self.hash
    }

    open spec fn signer_spec(&self) -> Account {
        self.signer
    }

    open spec fn snapshot_number_spec(&self) -> SnapshotNumber {
        self.snapshot_number
    }

    fn hash(&self) -> (r: MessageHash) {
        self.hash
    }

    fn signer(&self) -> (r: Account) {
        self.signer
    }

    fn snapshot_number(&self) -> (r: SnapshotNumber) {
        self.snapshot_number
    }
}

/// A representative's vote for the proposal with hash `proposal_hash`.
#[derive(Clone, Copy, Debug, PartialEq, Eq, Structural)]
pub struct ProposalVote {
    pub hash: MessageHash,
    pub signer: Account,
    pub snapshot_number: SnapshotNumber,
    pub proposal_hash: MessageHash,
}

impl Aggregatable for ProposalVote {
    open spec fn hash_spec(&self) -> MessageHash {
        self.hash
    }

    open spec fn signer_spec(&self) -> Account {
        self.signer
    }

    open spec fn snapshot_number_spec(&self) -> SnapshotNumber {
        self.snapshot_number
    }

    fn hash(&self) -> (r: MessageHash) {
        self.hash
    }

    fn signer(&self) -> (r: Account) {
        self.signer
    }

    fn snapshot_number(&self) -> (r: SnapshotNumber) {
        self.snapshot_number
    }
}

/// The contents of a preproposal that is still to be signed.
#[derive(Clone, Debug, PartialEq, Eq)]
pub struct PreproposalDraft {
    pub frontiers: Vec<Frontier>,
    pub snapshot_number: SnapshotNumber,
}

/// The contents of a proposal that is still to be signed: the preproposals
/// it is built from.
#[derive(Clone, Debug, PartialEq, Eq)]
pub struct ProposalDraft {
    pub preproposals: Vec<Preproposal>,
    pub snapshot_number: SnapshotNumber,
}

/// The contents of a proposal vote that is still to be signed.
#[derive(Clone, Copy, Debug, PartialEq, Eq, Structural)]
pub struct ProposalVoteDraft {
    pub proposal_hash: MessageHash,
    pub snapshot_number: SnapshotNumber,
}

} // verus!
