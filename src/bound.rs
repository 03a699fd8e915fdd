//! The closest-hit search bound that a ray carries through intersection tests.
//!
//! Distances are compared through ordering keys: for non-negative distances and
//! for +infinity the key of a distance orders exactly as the distance does, and
//! a key above the key of +infinity stands for a distance (a negative one, or
//! one that is not a number) that no bound at or below `UNBOUNDED` admits.
use vstd::prelude::*;

verus! {

/// Key of the distance +infinity: the bound of a ray that has not hit anything.
pub const UNBOUNDED: u32 = 0x7f80_0000;

/// The largest distance key that an intersection test may still accept.
/// It only ever shrinks: a test that accepts a candidate writes the
/// candidate's key back, so a later test wins only if it is no farther.
#[derive(Clone, Copy, Debug, PartialEq, Eq)]
pub struct SearchBound {
    limit: u32,
}

/// The bound after offering one candidate key to the bound `limit`.
pub open spec fn offered(limit: u32, key: u32) -> u32 {
    if key <= limit {
        key
    } else {
        limit
    }
}

/// The bound after offering each of `keys` in turn, starting from `limit`.
pub open spec fn offer_all(limit: u32, keys: Seq<u32>) -> u32
    decreases keys.len(),
{
    if keys.len() == 0 {
        limit
    } else {
        offered(offer_all(limit, keys.drop_last()), keys.last())
    }
}

/// Index of the candidate whose offer was the last one accepted, when keys are
/// offered in turn from `limit`: the hit that an aggregation reports.
pub open spec fn winner(limit: u32, keys: Seq<u32>) -> Option<int>
    decreases keys.len(),
{
    if keys.len() == 0 {
        None
    } else if keys.last() <= offer_all(limit, keys.drop_last()) {
        Some(keys.len() - 1)
    } else {
        winner(limit, keys.drop_last())
    }
}

proof fn lemma_offer_all_least(limit: u32, keys: Seq<u32>)
    ensures
        offer_all(limit, keys) <= limit,
        forall|i: int| 0 <= i < keys.len() ==> offer_all(limit, keys) <= keys[i],
        offer_all(limit, keys) == limit || keys.contains(offer_all(limit, keys)),
    decreases keys.len(),
{
    if keys.len() > 0 {
        let init = keys.drop_last();
        lemma_offer_all_least(limit, init);
        assert forall|i: int| 0 <= i < keys.len() implies offer_all(limit, keys) <= keys[i] by {
            if i < keys.len() - 1 {
                assert(keys[i] == init[i]);
            }
        }
        if offer_all(limit, keys) != limit {
            if keys.last() <= offer_all(limit, init) {
                assert(keys[keys.len() - 1] == keys.last());
            } else {
                let j = choose|j: int| 0 <= j < init.len() && init[j] == offer_all(limit, init);
                assert(keys[j] == init[j]);
            }
        }
    }
}

proof fn lemma_winner(limit: u32, keys: Seq<u32>)
    ensures
        winner(limit, keys) is Some <==> exists|i: int| 0 <= i < keys.len() && keys[i] <= limit,
        winner(limit, keys) matches Some(i) ==> 0 <= i < keys.len() && keys[i] == offer_all(
            limit,
            keys,
        ),
    decreases keys.len(),
{
    if keys.len() > 0 {
        let init = keys.drop_last();
        lemma_winner(limit, init);
        lemma_offer_all_least(limit, init);
        if keys.last() <= offer_all(limit, init) {
            assert(keys[keys.len() - 1] <= limit);
        } else {
            assert(offer_all(limit, keys) == offer_all(limit, init));
            if winner(limit, init) is None {
                assert forall|i: int| 0 <= i < keys.len() implies !(keys[i] <= limit) by {
                    if i < keys.len() - 1 {
                        assert(keys[i] == init[i]);
                    } else {
                        assert(offer_all(limit, init) == limit);
                    }
                }
            } else {
                let i = winner(limit, init)->Some_0;
                assert(keys[i] == init[i]);
            }
        }
    }
}

/// Closest hit: when the candidates of an aggregation are offered in turn, a
/// hit is reported exactly when some candidate lies within the starting bound;
/// the reported candidate is then one of the nearest, and the bound ends at the
/// least of the starting bound and every candidate.
pub proof fn lemma_closest_hit(limit: u32, keys: Seq<u32>)
    ensures
        winner(limit, keys) is Some <==> exists|i: int| 0 <= i < keys.len() && keys[i] <= limit,
        winner(limit, keys) matches Some(i) ==> 0 <= i < keys.len() && keys[i] == offer_all(
            limit,
            keys,
        ),
        offer_all(limit, keys) <= limit,
        forall|i: int| 0 <= i < keys.len() ==> offer_all(limit, keys) <= keys[i],
{
    lemma_offer_all_least(limit, keys);
    lemma_winner(limit, keys);
}

/// Order does not matter: offering the same candidates in another order leaves
/// the same bound, and a hit is reported in one order exactly when it is in the
/// other, at the same distance.
pub proof fn lemma_order_free(limit: u32, keys: Seq<u32>, other: Seq<u32>)
    requires
        keys.to_multiset() == other.to_multiset(),
    ensures
        offer_all(limit, keys) == offer_all(limit, other),
        winner(limit, keys) is Some <==> winner(limit, other) is Some,
        winner(limit, keys) matches Some(i) ==> (winner(limit, other) matches Some(j) ==> keys[i]
            == other[j]),
{
    lemma_offer_all_least(limit, keys);
    lemma_offer_all_least(limit, other);
    lemma_winner(limit, keys);
    lemma_winner(limit, other);
    let a = offer_all(limit, keys);
    let b = offer_all(limit, other);
    assert forall|x: u32| keys.contains(x) <==> other.contains(x) by {
        keys.to_multiset_ensures();
        other.to_multiset_ensures();
        assert(keys.contains(x) == (keys.to_multiset().count(x) > 0));
        assert(other.contains(x) == (other.to_multiset().count(x) > 0));
    }
    if a != limit {
        let i = choose|i: int| 0 <= i < other.len() && other[i] == a;
        assert(b <= a);
    }
    if b != limit {
        let i = choose|i: int| 0 <= i < keys.len() && keys[i] == b;
        assert(a <= b);
    }
    if winner(limit, keys) is Some {
        let i = choose|i: int| 0 <= i < keys.len() && keys[i] <= limit;
        assert(other.contains(keys[i]));
    }
    if winner(limit, other) is Some {
        let i = choose|i: int| 0 <= i < other.len() && other[i] <= limit;
        assert(keys.contains(other[i]));
    }
}

impl SearchBound {
    pub closed spec fn view(&self) -> u32 {
        self.limit
    }

    /// A bound that admits every non-negative distance.
    pub fn unbounded() -> (r: SearchBound)
        ensures
            r@ == UNBOUNDED,
    {
        SearchBound { limit: UNBOUNDED }
    }

    /// A bound that admits the distances whose key is at most `limit`.
    pub fn with_limit(limit: u32) -> (r: SearchBound)
        ensures
            r@ == limit,
    {
        SearchBound { limit }
    }

    /// The current largest admitted key.
    pub fn limit(&self) -> (r: u32)
        ensures
            r == self@,
    {
        self.limit
    }

    /// Whether a candidate at distance key `key` lies within the bound.
    pub fn admits(&self, key: u32) -> (r: bool)
        ensures
            r == (key <= self@),
    {
        key <= self.limit
    }

    /// Offers a candidate: it is accepted when it lies within the bound, and the
    /// bound then shrinks to it; otherwise the bound is unchanged.
    pub fn offer(&mut self, key: u32) -> (accepted: bool)
        ensures
            accepted == (key <= old(self)@),
            final(self)@ == offered(old(self)@, key),
    {
        if key <= self.limit {
            self.limit = key;
            true
        } else {
            false
        }
    }
}

} // verus!
