//! Representative weights, the weight behind a set of messages, and quorum.
//!
//! Each representative counts once, however many of the messages it signed.
//! Weights are summed as numbers; the tally that is handed out saturates at
//! the largest `u128`.

use vstd::prelude::*;
use crate::primitives::{Account, MessageHash};
use crate::snapshot_messages::ProposalVote;

verus! {

/// The weights of the representatives and the weight that makes a quorum.
#[derive(Clone, Debug, PartialEq, Eq)]
pub struct ConsensusParams {
    /// Each representative with its voting weight. Where a representative
    /// is listed twice, its first entry counts.
    pub rep_weights: Vec<(Account, u128)>,
    /// The weight that a quorum needs at least.
    pub quorum_delta: u128,
}

/// The weight of `rep`: that of its first entry, or zero.
pub open spec fn weight_of(ws: Seq<(Account, u128)>, rep: Account) -> nat
    decreases ws.len(),
{
    if ws.len() == 0 {
        0
    } else if ws[0].0 == rep {
        ws[0].1 as nat
    } else {
        weight_of(ws.drop_first(), rep)
    }
}

/// The summed weight of the distinct representatives in `signers`.
pub open spec fn signers_weight(ws: Seq<(Account, u128)>, signers: Seq<Account>) -> nat
    decreases signers.len(),
{
    if signers.len() == 0 {
        0
    } else {
        let prefix = signers.drop_last();
        signers_weight(ws, prefix) + if prefix.contains(signers.last()) {
            0
        } else {
            weight_of(ws, signers.last())
        }
    }
}

/// A representative that has signed already adds no weight.
pub proof fn lemma_repeat_signer_adds_no_weight(
    ws: Seq<(Account, u128)>,
    signers: Seq<Account>,
    x: Account,
)
    requires
        signers.contains(x),
    ensures
        signers_weight(ws, signers.push(x)) == signers_weight(ws, signers),
{
    assert(signers.push(x).drop_last() =~= signers);
}

/// A representative that has not signed yet adds its own weight.
pub proof fn lemma_new_signer_adds_its_weight(
    ws: Seq<(Account, u128)>,
    signers: Seq<Account>,
    x: Account,
)
    requires
        !signers.contains(x),
    ensures
        signers_weight(ws, signers.push(x)) == signers_weight(ws, signers) + weight_of(ws, x),
{
    assert(signers.push(x).drop_last() =~= signers);
}

/// A weight as a `u128`, saturated at the largest value.
pub open spec fn saturate(n: nat) -> u128 {
    if n > u128::MAX {
        u128::MAX
    } else {
        n as u128
    }
}

/// The signers behind the votes for the proposal with hash `h`, in order.
pub open spec fn voters_for(votes: Seq<ProposalVote>, h: MessageHash) -> Seq<Account>
    decreases votes.len(),
{
    if votes.len() == 0 {
        Seq::empty()
    } else {
        let prefix = voters_for(votes.drop_last(), h);
        if votes.last().proposal_hash == h {
            prefix.push(votes.last().signer)
        } else {
            prefix
        }
    }
}

/// The votes for the proposal with hash `h` reach a quorum.
pub open spec fn proposal_has_quorum(
    params: ConsensusParams,
    votes: Seq<ProposalVote>,
    h: MessageHash,
) -> bool {
    signers_weight(params.rep_weights@, voters_for(votes, h)) >= params.quorum_delta
}

/// The winner is the proposal of the first vote whose proposal reaches a
/// quorum; there is none if no vote's proposal does.
pub open spec fn first_winner_index(params: ConsensusParams, votes: Seq<ProposalVote>, i: int) -> bool {
    &&& 0 <= i < votes.len()
    &&& proposal_has_quorum(params, votes, votes[i].proposal_hash)
    &&& forall|j: int|
        0 <= j < i ==> !proposal_has_quorum(params, votes, #[trigger] votes[j].proposal_hash)
}

impl ConsensusParams {
    pub fn new(rep_weights: Vec<(Account, u128)>, quorum_delta: u128) -> (r: ConsensusParams)
        ensures
            r.rep_weights@ == rep_weights@,
            r.quorum_delta == quorum_delta,
    {
        ConsensusParams { rep_weights, quorum_delta }
    }

    /// The weight of representative `rep`.
    pub fn weight(&self, rep: &Account) -> (r: u128)
        ensures
            r == weight_of(self.rep_weights@, *rep),
    {
        let ghost ws = self.rep_weights@;
        let n = self.rep_weights.len();
        let mut i: usize = 0;
        assert(ws.skip(0) =~= ws);
        while i < n
            invariant
                n == ws.len(),
                ws == self.rep_weights@,
                0 <= i <= n,
                weight_of(ws, *rep) == weight_of(ws.skip(i as int), *rep),
            decreases n - i,
        {
            let entry = self.rep_weights[i];
            assert(ws.skip(i as int)[0] == entry);
            if entry.0 == *rep {
                return entry.1;
            }
            assert(ws.skip(i as int).drop_first() =~= ws.skip(i + 1));
            i = i + 1;
        }
        0
    }

    /// The summed weight of the distinct representatives in `signers`,
    /// saturated at the largest `u128`.
    pub fn tally_signers(&self, signers: &Vec<Account>) -> (r: u128)
        ensures
            r == saturate(signers_weight(self.rep_weights@, signers@)),
    {
        let n = signers.len();
        let mut total: u128 = 0;
        let mut i: usize = 0;
        while i < n
            invariant
                n == signers@.len(),
                0 <= i <= n,
                total == saturate(signers_weight(self.rep_weights@, signers@.take(i as int))),
            decreases n - i,
        {
            let s = signers[i];
            let seen = seen_before(signers, i);
            let w = if seen {
                0
            } else {
                self.weight(&s)
            };
            proof {
                let t = signers@.take(i + 1);
                assert(t.drop_last() =~= signers@.take(i as int));
                assert(t.last() == s);
            }
            total = total.saturating_add(w);
            i = i + 1;
        }
        assert(signers@.take(n as int) =~= signers@);
        total
    }

    /// The weight behind `signers` reaches a quorum.
    pub fn is_quorum(&self, signers: &Vec<Account>) -> (r: bool)
        ensures
            r == (signers_weight(self.rep_weights@, signers@) >= self.quorum_delta),
    {
        self.tally_signers(signers) >= self.quorum_delta
    }
}

/// `signers[i]` occurs before position `i`.
fn seen_before(signers: &Vec<Account>, i: usize) -> (r: bool)
    requires
        i < signers@.len(),
    ensures
        r == signers@.take(i as int).contains(signers@[i as int]),
{
    let x = signers[i];
    let mut j: usize = 0;
    while j < i
        invariant
            i < signers@.len(),
            x == signers@[i as int],
            0 <= j <= i,
            forall|k: int| 0 <= k < j ==> signers@[k] != x,
        decreases i - j,
    {
        if signers[j] == x {
            assert(signers@.take(i as int)[j as int] == x);
            return true;
        }
        j = j + 1;
    }
    proof {
        if signers@.take(i as int).contains(x) {
            let k = choose|k: int| 0 <= k < i && signers@.take(i as int)[k] == x;
            assert(signers@[k] == x);
        }
    }
    false
}

/// The signers of the votes for the proposal with hash `h`.
pub fn voters_for_proposal(votes: &Vec<ProposalVote>, h: &MessageHash) -> (r: Vec<Account>)
    ensures
        r@ == voters_for(votes@, *h),
{
    let n = votes.len();
    let mut r: Vec<Account> = Vec::new();
    let mut i: usize = 0;
    while i < n
        invariant
            n == votes@.len(),
            0 <= i <= n,
            r@ == voters_for(votes@.take(i as int), *h),
        decreases n - i,
    {
        let v = votes[i];
        proof {
            assert(votes@.take(i + 1).drop_last() =~= votes@.take(i as int));
            assert(votes@.take(i + 1).last() == v);
        }
        if v.proposal_hash == *h {
            r.push(v.signer);
        }
        i = i + 1;
    }
    assert(votes@.take(n as int) =~= votes@);
    r
}

/// The proposal that the votes confirm: that of the first vote whose
/// proposal reaches a quorum of vote weight.
pub fn find_winner_proposal(params: &ConsensusParams, votes: &Vec<ProposalVote>) -> (r: Option<
    MessageHash,
>)
    ensures
        match r {
            Some(h) => exists|i: int|
                first_winner_index(*params, votes@, i) && h == votes@[i].proposal_hash,
            None => forall|i: int|
                0 <= i < votes@.len() ==> !proposal_has_quorum(
                    *params,
                    votes@,
                    #[trigger] votes@[i].proposal_hash,
                ),
        },
{
    let n = votes.len();
    let mut i: usize = 0;
    while i < n
        invariant
            n == votes@.len(),
            0 <= i <= n,
            forall|j: int|
                0 <= j < i ==> !proposal_has_quorum(*params, votes@, #[trigger] votes@[j].proposal_hash),
        decreases n - i,
    {
        let h = votes[i].proposal_hash;
        let voters = voters_for_proposal(votes, &h);
        if params.is_quorum(&voters) {
            assert(first_winner_index(*params, votes@, i as int));
            return Some(h);
        }
        i = i + 1;
    }
    None
}

} // verus!
