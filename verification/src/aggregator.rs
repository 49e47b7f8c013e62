//! A collection of snapshot messages of one kind, at most one per hash.

use vstd::prelude::*;
use crate::consensus::{saturate, signers_weight, ConsensusParams};
use crate::primitives::{bytes32_value, lemma_bytes32_order_is_numeric, Account, Bytes32, MessageHash};
use crate::snapshot_messages::Aggregatable;

verus! {

/// Some message in `items` has hash `h`.
pub open spec fn has_hash<T: Aggregatable>(items: Seq<T>, h: MessageHash) -> bool {
    exists|i: int| 0 <= i < items.len() && (#[trigger] items[i]).hash_spec() == h
}

/// No two messages in `items` have the same hash.
pub open spec fn hashes_distinct<T: Aggregatable>(items: Seq<T>) -> bool {
    forall|i: int, j: int|
        0 <= i < j < items.len() ==> (#[trigger] items[i]).hash_spec() != (#[trigger] items[j]).hash_spec()
}

/// Adding a message: one whose hash is already present is ignored.
pub open spec fn add_item<T: Aggregatable>(items: Seq<T>, x: T) -> Seq<T> {
    if has_hash(items, x.hash_spec()) {
        items
    } else {
        items.push(x)
    }
}

/// The signers of the messages, in order.
pub open spec fn signers_of<T: Aggregatable>(items: Seq<T>) -> Seq<Account> {
    items.map_values(|t: T| t.signer_spec())
}

/// The summed weight of the distinct representatives that signed `items`.
pub open spec fn items_weight<T: Aggregatable>(params: ConsensusParams, items: Seq<T>) -> nat {
    signers_weight(params.rep_weights@, signers_of(items))
}

/// `h` is the highest hash among the messages.
pub open spec fn is_max_hash<T: Aggregatable>(items: Seq<T>, h: MessageHash) -> bool {
    &&& has_hash(items, h)
    &&& forall|i: int| 0 <= i < items.len() ==> (#[trigger] items[i]).hash_spec().le_spec(h)
}

/// The highest hash is numerically at least every held message's hash, and
/// is the hash of a held message; there is only one.
pub proof fn lemma_max_hash_is_numeric_max<T: Aggregatable>(items: Seq<T>, h: MessageHash, g: MessageHash)
    requires
        is_max_hash(items, h),
    ensures
        exists|i: int| 0 <= i < items.len() && (#[trigger] items[i]).hash_spec() == h,
        forall|i: int|
            0 <= i < items.len() ==> bytes32_value((#[trigger] items[i]).hash_spec()) <= bytes32_value(h),
        is_max_hash(items, g) ==> g == h,
{
    assert forall|i: int| 0 <= i < items.len() implies bytes32_value(
        (#[trigger] items[i]).hash_spec(),
    ) <= bytes32_value(h) by {
        lemma_bytes32_order_is_numeric(items[i].hash_spec(), h);
    }
    if is_max_hash(items, g) {
        let i = choose|i: int| 0 <= i < items.len() && (#[trigger] items[i]).hash_spec() == g;
        let j = choose|j: int| 0 <= j < items.len() && (#[trigger] items[j]).hash_spec() == h;
        lemma_bytes32_order_is_numeric(g, h);
        assert(items[i].hash_spec().le_spec(h));
        assert(items[j].hash_spec().le_spec(g));
        lemma_bytes32_order_is_numeric(h, g);
    }
}

/// Adding a message keeps the hashes of the held messages distinct, and
/// afterwards a message with its hash is held.
pub proof fn lemma_add_item_keeps_hashes_distinct<T: Aggregatable>(items: Seq<T>, x: T)
    requires
        hashes_distinct(items),
    ensures
        hashes_distinct(add_item(items, x)),
        has_hash(add_item(items, x), x.hash_spec()),
        add_item(items, x).len() <= items.len() + 1,
{
    if !has_hash(items, x.hash_spec()) {
        let r = items.push(x);
        assert(r[items.len() as int] == x);
        assert forall|i: int, j: int|
            0 <= i < j < r.len() implies (#[trigger] r[i]).hash_spec() != (#[trigger] r[j]).hash_spec() by {
            if j == items.len() {
                assert(r[i] == items[i]);
            } else {
                assert(r[i] == items[i] && r[j] == items[j]);
            }
        }
    }
}

/// Messages of one kind, at most one per hash, in the order they came.
#[derive(Debug)]
pub struct Aggregator<T: Aggregatable> {
    items: Vec<T>,
}

impl<T: Aggregatable> View for Aggregator<T> {
    type V = Seq<T>;

    closed spec fn view(&self) -> Seq<T> {
        self.items@
    }
}

impl<T: Aggregatable> Default for Aggregator<T> {
    fn default() -> (r: Aggregator<T>)
        ensures
            r@ == Seq::<T>::empty(),
    {
        Aggregator::new()
    }
}

impl<T: Aggregatable> Aggregator<T> {
    #[verifier::type_invariant]
    spec fn inv(self) -> bool {
        hashes_distinct(self.items@)
    }

    pub fn new() -> (r: Aggregator<T>)
        ensures
            r@ == Seq::<T>::empty(),
    {
        Aggregator { items: Vec::new() }
    }

    /// Some held message has hash `hash`.
    pub fn contains(&self, hash: &MessageHash) -> (r: bool)
        ensures
            r == has_hash(self@, *hash),
    {
        let n = self.items.len();
        let mut i: usize = 0;
        while i < n
            invariant
                n == self.items@.len(),
                0 <= i <= n,
                forall|k: int| 0 <= k < i ==> (#[trigger] self.items@[k]).hash_spec() != *hash,
            decreases n - i,
        {
            if self.items[i].hash() == *hash {
                return true;
            }
            i = i + 1;
        }
        false
    }

    /// Adds a message unless one with the same hash is held already.
    pub fn add(&mut self, value: T)
        ensures
            final(self)@ == add_item(old(self)@, value),
    {
        proof {
            use_type_invariant(&*self);
        }
        let h = value.hash();
        if self.contains(&h) {
            return;
        }
        let mut items = Vec::new();
        std::mem::swap(&mut items, &mut self.items);
        items.push(value);
        proof {
            assert forall|i: int, j: int|
                0 <= i < j < items@.len() implies (#[trigger] items@[i]).hash_spec()
                != (#[trigger] items@[j]).hash_spec() by {
                if j == items@.len() - 1 {
                    assert(old(self)@[i] == items@[i]);
                }
            }
        }
        self.items = items;
    }

    pub fn len(&self) -> (r: usize)
        ensures
            r == self@.len(),
    {
        self.items.len()
    }

    pub fn is_empty(&self) -> (r: bool)
        ensures
            r == (self@.len() == 0),
    {
        self.items.len() == 0
    }

    /// Drops every held message.
    pub fn clear(&mut self)
        ensures
            final(self)@ == Seq::<T>::empty(),
    {
        self.items = Vec::new();
    }

    /// The held messages, in the order they came.
    pub fn values(&self) -> (r: &Vec<T>)
        ensures
            r@ == self@,
    {
        &self.items
    }

    /// The summed weight of the distinct representatives that signed the held
    /// messages, saturated at the largest `u128`.
    pub fn tally(&self, params: &ConsensusParams) -> (r: u128)
        ensures
            r == saturate(items_weight(*params, self@)),
    {
        let n = self.items.len();
        let mut signers: Vec<Account> = Vec::new();
        let mut i: usize = 0;
        while i < n
            invariant
                n == self.items@.len(),
                0 <= i <= n,
                signers@ == signers_of(self.items@.take(i as int)),
            decreases n - i,
        {
            signers.push(self.items[i].signer());
            assert(signers_of(self.items@.take(i + 1)) =~= signers_of(self.items@.take(i as int)).push(self.items@[i as int].signer_spec()));
            i = i + 1;
        }
        assert(self.items@.take(n as int) =~= self.items@);
        params.tally_signers(&signers)
    }

    /// The held messages carry a quorum of weight.
    pub fn has_quorum(&self, params: &ConsensusParams) -> (r: bool)
        ensures
            r == (items_weight(*params, self@) >= params.quorum_delta),
    {
        self.tally(params) >= params.quorum_delta
    }

    /// The highest hash among the held messages; none if there are none.
    pub fn max_hash(&self) -> (r: Option<MessageHash>)
        ensures
            match r {
                Some(h) => is_max_hash(self@, h),
                None => self@.len() == 0,
            },
    {
        let n = self.items.len();
        if n == 0 {
            return None;
        }
        let mut best: Bytes32 = self.items[0].hash();
        let mut i: usize = 1;
        while i < n
            invariant
                n == self.items@.len(),
                1 <= i <= n,
                has_hash(self.items@, best),
                forall|k: int| 0 <= k < i ==> (#[trigger] self.items@[k]).hash_spec().le_spec(best),
            decreases n - i,
        {
            let h = self.items[i].hash();
            if best.le(&h) {
                proof {
                    assert forall|k: int| 0 <= k < i + 1 implies (#[trigger] self.items@[k]).hash_spec().le_spec(h) by {
                        if k < i {
                            crate::primitives::lemma_bytes32_order(self.items@[k].hash_spec(), best, h);
                        }
                    }
                }
                best = h;
            } else {
                proof {
                    crate::primitives::lemma_bytes32_order(best, h, h);
                }
            }
            i = i + 1;
        }
        Some(best)
    }
}

} // verus!
