//! The schedule of collision resolution: which pairs of players are looked at, in what
//! order, and for how many rounds.
//!
//! Pushing two players apart is done outside this module. A round looks at every pair of
//! players once, in random order; rounds are repeated until one passes without a
//! correction, or until the cap is reached.

use vstd::prelude::*;
use crate::chance::shuffle;
use crate::config::{COLLISION_MAX_ITERATIONS, TOTAL_PLAYERS};

verus! {

/// Whether `pairs` lists every unordered pair of distinct players once, the lower index
/// first.
pub open spec fn lists_all_pairs(pairs: Seq<(u32, u32)>) -> bool {
    &&& pairs.len() == 28
    &&& pairs.no_duplicates()
    &&& forall|k: int| 0 <= k < pairs.len() ==> (#[trigger] pairs[k]).0 < pairs[k].1 < TOTAL_PLAYERS
    &&& forall|i: u32, j: u32| i < j < TOTAL_PLAYERS ==> #[trigger] pairs.contains((i, j))
}

/// Pairs that start with a player below `i`.
pub open spec fn pairs_below(i: nat) -> nat
    decreases i,
{
    if i == 0 {
        0
    } else {
        pairs_below((i - 1) as nat) + (TOTAL_PLAYERS - i) as nat
    }
}

/// Every unordered pair of distinct players, the lower index first.
pub fn all_pairs() -> (pairs: Vec<(u32, u32)>)
    ensures
        lists_all_pairs(pairs@),
{
    let mut pairs: Vec<(u32, u32)> = Vec::new();
    let mut i: u32 = 0;
    while i < TOTAL_PLAYERS
        invariant
            i <= TOTAL_PLAYERS,
            pairs@.len() == pairs_below(i as nat),
            pairs@.no_duplicates(),
            forall|k: int|
                0 <= k < pairs@.len() ==> (#[trigger] pairs@[k]).0 < pairs@[k].1 < TOTAL_PLAYERS
                    && pairs@[k].0 < i,
            forall|a: u32, b: u32| a < b < TOTAL_PLAYERS && a < i ==> #[trigger] pairs@.contains((a, b)),
        decreases TOTAL_PLAYERS - i,
    {
        let mut j: u32 = i + 1;
        while j < TOTAL_PLAYERS
            invariant
                i < TOTAL_PLAYERS,
                i < j <= TOTAL_PLAYERS,
                pairs@.len() == pairs_below(i as nat) + (j - i - 1),
                pairs@.no_duplicates(),
                forall|k: int|
                    0 <= k < pairs@.len() ==> (#[trigger] pairs@[k]).0 < pairs@[k].1 < TOTAL_PLAYERS
                        && (pairs@[k].0 < i || (pairs@[k].0 == i && pairs@[k].1 < j)),
                forall|a: u32, b: u32|
                    a < b < TOTAL_PLAYERS && (a < i || (a == i && b < j)) ==> #[trigger] pairs@.contains(
                        (a, b),
                    ),
            decreases TOTAL_PLAYERS - j,
        {
            let ghost before = pairs@;
            pairs.push((i, j));
            proof {
                assert(pairs@[before.len() as int] == (i, j));
                assert forall|a: u32, b: u32|
                    a < b < TOTAL_PLAYERS && (a < i || (a == i && b < j + 1)) implies #[trigger] pairs@.contains(
                    (a, b),
                ) by {
                    if a == i && b == j {
                        assert(pairs@[before.len() as int] == (a, b));
                    } else {
                        assert(before.contains((a, b)));
                        let k = choose|k: int| 0 <= k < before.len() && before[k] == (a, b);
                        assert(pairs@[k] == (a, b));
                    }
                }
            }
            j += 1;
        }
        i += 1;
    }
    proof {
        reveal_with_fuel(pairs_below, 9);
    }
    pairs
}

/// The pairs of a round, the count of the rounds that were run, and whether the round
/// under way has passed without a correction so far.
pub struct CollisionSchedule {
    pub pairs: Vec<(u32, u32)>,
    pub rounds: u32,
    pub resolved: bool,
}

impl CollisionSchedule {
    /// The schedule lists every pair once and has not run past the cap.
    pub open spec fn wf(self) -> bool {
        &&& lists_all_pairs(self.pairs@)
        &&& self.rounds <= COLLISION_MAX_ITERATIONS
    }

    /// Whether a further round is run: the last one saw a correction, and the cap is not
    /// reached.
    pub open spec fn runs_on(self) -> bool {
        !self.resolved && self.rounds < COLLISION_MAX_ITERATIONS
    }

    /// The schedule before the first round, which is always run.
    pub fn new() -> (r: CollisionSchedule)
        ensures
            r.wf(),
            r.rounds == 0,
            !r.resolved,
            r.runs_on(),
    {
        CollisionSchedule { pairs: all_pairs(), rounds: 0, resolved: false }
    }

    /// Starts the next round, if there is one: shuffles the pairs, counts the round and
    /// takes it for resolved until a correction is noted. Returns whether a round is to
    /// be run.
    pub fn next_round(&mut self) -> (run: bool)
        requires
            old(self).wf(),
        ensures
            final(self).wf(),
            run == old(self).runs_on(),
            run ==> final(self).rounds == old(self).rounds + 1 && final(self).resolved
                && final(self).pairs@.to_multiset() == old(self).pairs@.to_multiset(),
            !run ==> *final(self) == *old(self),
    {
        if self.resolved || self.rounds >= COLLISION_MAX_ITERATIONS {
            return false;
        }
        let ghost before = self.pairs@;
        shuffle(&mut self.pairs);
        self.rounds += 1;
        self.resolved = true;
        proof {
            lemma_shuffled_lists_all(before, self.pairs@);
        }
        true
    }

    /// Notes that the round under way had to correct a position, so that another round
    /// follows unless the cap is reached.
    pub fn correct(&mut self)
        ensures
            final(self).pairs == old(self).pairs,
            final(self).rounds == old(self).rounds,
            !final(self).resolved,
    {
        self.resolved = false;
    }
}

/// A list that holds what a list of all pairs holds, each pair as often, is a list of all
/// pairs.
pub proof fn lemma_shuffled_lists_all(before: Seq<(u32, u32)>, after: Seq<(u32, u32)>)
    requires
        lists_all_pairs(before),
        before.to_multiset() == after.to_multiset(),
    ensures
        lists_all_pairs(after),
{
    before.to_multiset_ensures();
    after.to_multiset_ensures();
    before.lemma_multiset_has_no_duplicates();
    after.lemma_multiset_has_no_duplicates_conv();
    assert forall|k: int| 0 <= k < after.len() implies (#[trigger] after[k]).0 < after[k].1
        < TOTAL_PLAYERS by {
        assert(after.contains(after[k]));
        assert(after.to_multiset().count(after[k]) > 0);
        assert(before.to_multiset().count(after[k]) > 0);
        assert(before.contains(after[k]));
    }
    assert forall|i: u32, j: u32| i < j < TOTAL_PLAYERS implies #[trigger] after.contains((i, j)) by {
        assert(before.contains((i, j)));
        assert(before.to_multiset().count((i, j)) > 0);
        assert(after.to_multiset().count((i, j)) > 0);
    }
}

/// The rounds are capped: a schedule that has run the cap starts no further round,
/// whatever was corrected; and a round without a correction is the last.
pub proof fn lemma_rounds_capped(schedule: CollisionSchedule)
    requires
        schedule.wf(),
    ensures
        schedule.rounds == COLLISION_MAX_ITERATIONS ==> !schedule.runs_on(),
        schedule.resolved ==> !schedule.runs_on(),
{
}

} // verus!
