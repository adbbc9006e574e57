//! Identities of call sites that come out the same in every layout pass.

use std::collections::HashMap;
use vstd::prelude::*;

verus! {

/// Identifies one occurrence of a call site: the fingerprint of the site's
/// key, and the number of earlier occurrences of that fingerprint in the
/// same pass.
#[derive(Debug, Copy, Clone, PartialEq, Eq, Structural, Hash)]
pub struct StableId(pub u128, pub u64);

impl StableId {
    /// The fingerprint shared by all occurrences of the call site.
    pub fn fingerprint(&self) -> (hash: u128)
        ensures
            hash == self.0,
    {
        self.0
    }

    /// Which occurrence of the call site this is, counted from zero.
    pub fn slot(&self) -> (slot: u64)
        ensures
            slot == self.1,
    {
        self.1
    }
}

/// The slot that the next occurrence of `hash` gets.
pub open spec fn slot_in(slots: Map<u128, u64>, hash: u128) -> u64 {
    if slots.contains_key(hash) {
        slots[hash]
    } else {
        0
    }
}

/// The counters after one more occurrence of `hash`.
pub open spec fn step(slots: Map<u128, u64>, hash: u128) -> Map<u128, u64> {
    slots.insert(hash, (slot_in(slots, hash) + 1) as u64)
}

/// The counters after the occurrences `hashes`, starting with none.
pub open spec fn run(hashes: Seq<u128>) -> Map<u128, u64>
    decreases hashes.len(),
{
    if hashes.len() == 0 {
        Map::empty()
    } else {
        step(run(hashes.drop_last()), hashes.last())
    }
}

/// The identities that a fresh provider hands out for `hashes`, in order.
pub open spec fn identities(hashes: Seq<u128>) -> Seq<StableId> {
    Seq::new(
        hashes.len(),
        |i: int| StableId(hashes[i], slot_in(run(hashes.take(i)), hashes[i])),
    )
}

/// How often `hash` occurs in `hashes`.
pub open spec fn occurrences(hashes: Seq<u128>, hash: u128) -> nat
    decreases hashes.len(),
{
    if hashes.len() == 0 {
        0
    } else {
        occurrences(hashes.drop_last(), hash) + if hashes.last() == hash {
            1nat
        } else {
            0nat
        }
    }
}

/// Hands out stable identities during one layout pass.
#[derive(Clone)]
pub struct StabilityProvider {
    slots: HashMap<u128, u64>,
}

impl View for StabilityProvider {
    type V = Map<u128, u64>;

    closed spec fn view(&self) -> Map<u128, u64> {
        self.slots@
    }
}

impl StabilityProvider {
    /// A provider that has not handed out anything.
    pub fn new() -> (provider: Self)
        ensures
            provider@ == Map::<u128, u64>::empty(),
            provider@ == run(Seq::empty()),
    {
        StabilityProvider { slots: HashMap::new() }
    }

    /// The slot that the next call of [`Self::identify`] with `hash` returns.
    pub fn next_slot(&self, hash: u128) -> (slot: u64)
        ensures
            slot == slot_in(self@, hash),
    {
        match self.slots.get(&hash) {
            Some(slot) => *slot,
            None => 0,
        }
    }

    /// Produces the identity of the next occurrence of the call site with
    /// fingerprint `hash`, and counts it.
    pub fn identify(&mut self, hash: u128) -> (id: StableId)
        requires
            slot_in(old(self)@, hash) < u64::MAX,
        ensures
            id == StableId(hash, slot_in(old(self)@, hash)),
            final(self)@ == step(old(self)@, hash),
    {
        let slot: u64 = self.next_slot(hash);
        self.slots.insert(hash, slot + 1);
        StableId(hash, slot)
    }
}

/// Each counter holds the number of occurrences so far.
pub proof fn lemma_run_counts(hashes: Seq<u128>, hash: u128)
    requires
        hashes.len() <= u64::MAX,
    ensures
        slot_in(run(hashes), hash) == occurrences(hashes, hash),
        occurrences(hashes, hash) <= hashes.len(),
    decreases hashes.len(),
{
    if hashes.len() > 0 {
        lemma_run_counts(hashes.drop_last(), hash);
        lemma_run_counts(hashes.drop_last(), hashes.last());
    }
}

/// The occurrences of a call site within a pass get the slots 0, 1, 2, ... in
/// the order of the calls: each identity holds its own fingerprint and the
/// number of earlier calls with the same fingerprint. What a pass hands out
/// depends on the sequence of fingerprints alone.
pub proof fn lemma_identities_count_earlier_calls(hashes: Seq<u128>, i: int)
    requires
        hashes.len() <= u64::MAX,
        0 <= i < hashes.len(),
    ensures
        identities(hashes).len() == hashes.len(),
        identities(hashes)[i].0 == hashes[i],
        identities(hashes)[i].1 == occurrences(hashes.take(i), hashes[i]),
{
    lemma_run_counts(hashes.take(i), hashes[i]);
}

/// Counting over a longer prefix never gives less.
proof fn lemma_occurrences_grow(hashes: Seq<u128>, i: int, j: int, hash: u128)
    requires
        0 <= i <= j <= hashes.len(),
    ensures
        occurrences(hashes.take(i), hash) <= occurrences(hashes.take(j), hash),
    decreases j - i,
{
    if i < j {
        lemma_occurrences_grow(hashes, i, j - 1, hash);
        assert(hashes.take(j).drop_last() =~= hashes.take(j - 1));
    }
}

/// No identity is handed out twice within a pass.
pub proof fn lemma_identities_are_distinct(hashes: Seq<u128>, i: int, j: int)
    requires
        hashes.len() <= u64::MAX,
        0 <= i < j < hashes.len(),
    ensures
        identities(hashes)[i] != identities(hashes)[j],
{
    lemma_identities_count_earlier_calls(hashes, i);
    lemma_identities_count_earlier_calls(hashes, j);
    if hashes[i] == hashes[j] {
        let hash = hashes[i];
        lemma_occurrences_grow(hashes, i + 1, j, hash);
        assert(hashes.take(i + 1).drop_last() =~= hashes.take(i));
        assert(hashes.take(i + 1).last() == hash);
    }
}

} // verus!
