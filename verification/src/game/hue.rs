//! Hues that tell players apart.

use ord_subset::OrdSubsetIterExt;
use rand::{thread_rng, Rng};
use vstd::prelude::*;

verus! {

/// The count of hues on the color wheel.
///
/// This is as fine as a uniformly random number from 0 to 1 in single precision.
pub const HUES: u32 = 0x100_0000;

/// Number of hue candidates to generate for each existing player
/// sample.
pub const HUE_CANDIDATES_PER_SAMPLE: usize = 4;

/// The way from one hue to the other, along the shorter side of the wheel.
pub open spec fn wheel_distance(a: int, b: int) -> int {
    let direct = if a >= b {
        a - b
    } else {
        b - a
    };
    if direct > HUES / 2 {
        HUES - direct
    } else {
        direct
    }
}

/// Gets the distance between two hue values, from 0 to a full turn. These two are the same hue.
pub fn hue_distance(a: u32, b: u32) -> (distance: u32)
    requires
        a <= HUES,
        b <= HUES,
    ensures
        distance == wheel_distance(a as int, b as int),
{
    let direct: u32 = if a >= b {
        a - b
    } else {
        b - a
    };
    if direct > HUES / 2 {
        // Wrap around the outside of the circle.
        HUES - direct
    } else {
        direct
    }
}

/// Draws 32 random bits, with `Rng::gen` on `thread_rng`. Nothing is said of which.
#[verifier::external_body]
fn random_word() -> (word: u32) {
    thread_rng().gen()
}

/// Draws a random hue: that of a random word. Which word it is is left to chance.
pub fn random_hue() -> (hue: u32)
    ensures
        hue < HUES,
{
    hue_of_word(random_word())
}

/// The hue that a random word stands for, given by its upper 24 bits. Each hue
/// has the same share of all words.
pub fn hue_of_word(word: u32) -> (hue: u32)
    ensures
        hue < HUES,
        hue * 0x100 <= word < (hue + 1) * 0x100,
{
    word / 0x100
}

/// Draws the candidates for the hue of one more player, as many for each player that is there.
pub fn random_candidates(players: usize) -> (samples: Vec<u32>)
    ensures
        samples@.len() == HUE_CANDIDATES_PER_SAMPLE * players,
        forall|i: int| 0 <= i < samples@.len() ==> #[trigger] samples@[i] < HUES,
{
    let mut samples: Vec<u32> = Vec::new();
    let mut player: usize = 0;
    while player < players
        invariant
            player <= players,
            samples@.len() == HUE_CANDIDATES_PER_SAMPLE * player,
            forall|i: int| 0 <= i < samples@.len() ==> #[trigger] samples@[i] < HUES,
        decreases players - player,
    {
        let mut more: usize = 0;
        while more < HUE_CANDIDATES_PER_SAMPLE
            invariant
                more <= HUE_CANDIDATES_PER_SAMPLE,
                samples@.len() == HUE_CANDIDATES_PER_SAMPLE * player + more,
                forall|i: int| 0 <= i < samples@.len() ==> #[trigger] samples@[i] < HUES,
            decreases HUE_CANDIDATES_PER_SAMPLE - more,
        {
            samples.push(random_hue());
            more = more + 1;
        }
        player = player + 1;
    }
    samples
}

/// Finds the least number, with `OrdSubsetIterExt::ord_subset_min`. There is
/// one unless the list is empty.
#[verifier::external_body]
fn least(numbers: &Vec<u32>) -> (result: Option<u32>)
    ensures
        result is None <==> numbers@.len() == 0,
        result matches Some(number) ==> numbers@.contains(number) && forall|i: int|
            0 <= i < numbers@.len() ==> number <= #[trigger] numbers@[i],
{
    numbers.iter().ord_subset_min().copied()
}

/// Finds the candidate with the greatest second part, with
/// `OrdSubsetIterExt::ord_subset_max_by_key`. That is the last such candidate,
/// and there is one unless the list is empty.
#[verifier::external_body]
fn greatest_by_score(candidates: &Vec<(u32, u32)>) -> (result: Option<(u32, u32)>)
    ensures
        result is None <==> candidates@.len() == 0,
        result matches Some(candidate) ==> exists|i: int| #[trigger]
            last_greatest(candidates@, i) && candidates@[i] == candidate,
{
    candidates.iter().ord_subset_max_by_key(|candidate| candidate.1).copied()
}

/// Whether the candidate at `i` has the greatest second part, and is the last that has it.
pub open spec fn last_greatest(candidates: Seq<(u32, u32)>, i: int) -> bool {
    &&& 0 <= i < candidates.len()
    &&& forall|j: int|
        0 <= j < candidates.len() ==> (#[trigger] candidates[j]).1 <= candidates[i].1
    &&& forall|j: int|
        i < j < candidates.len() ==> (#[trigger] candidates[j]).1 < candidates[i].1
}

/// Whether `distance` is the distance from `hue` to the nearest one that is taken.
pub open spec fn is_clearance(taken: Seq<u32>, hue: u32, distance: int) -> bool {
    &&& exists|i: int|
        0 <= i < taken.len() && #[trigger] wheel_distance(hue as int, taken[i] as int) == distance
    &&& forall|i: int|
        0 <= i < taken.len() ==> distance <= #[trigger] wheel_distance(
            hue as int,
            taken[i] as int,
        )
}

/// The distance from a hue to the nearest one that is taken.
pub fn clearance(taken: &Vec<u32>, hue: u32) -> (distance: u32)
    requires
        taken@.len() > 0,
        hue <= HUES,
        forall|i: int| 0 <= i < taken@.len() ==> #[trigger] taken@[i] <= HUES,
    ensures
        is_clearance(taken@, hue, distance as int),
{
    let mut distances: Vec<u32> = Vec::new();
    let mut at: usize = 0;
    while at < taken.len()
        invariant
            at <= taken@.len(),
            hue <= HUES,
            forall|i: int| 0 <= i < taken@.len() ==> #[trigger] taken@[i] <= HUES,
            distances@.len() == at,
            forall|i: int|
                0 <= i < at ==> #[trigger] distances@[i] == wheel_distance(
                    hue as int,
                    taken@[i] as int,
                ),
        decreases taken@.len() - at,
    {
        distances.push(hue_distance(hue, taken[at]));
        at = at + 1;
    }
    let result: Option<u32> = least(&distances);
    let distance: u32 = result.unwrap();
    proof {
        let i = choose|i: int| 0 <= i < distances@.len() && distances@[i] == distance;
        assert(wheel_distance(hue as int, taken@[i] as int) == distance);
        assert forall|i: int| 0 <= i < taken@.len() implies distance <= #[trigger] wheel_distance(
            hue as int,
            taken@[i] as int,
        ) by {
            assert(distance <= distances@[i]);
        }
    }
    distance
}

/// Whether `hue` is the sample that is furthest from all hues that are taken.
/// Of several that are equally far, it is the last.
pub open spec fn is_best_candidate(taken: Seq<u32>, samples: Seq<u32>, hue: u32) -> bool {
    exists|i: int, distance: int| #[trigger]
        beats_all(taken, samples, i, distance) && samples[i] == hue
}

/// Whether the sample at `i` is `distance` from the nearest hue that is taken, and
/// no other is further, nor is any later one as far.
pub open spec fn beats_all(taken: Seq<u32>, samples: Seq<u32>, i: int, distance: int) -> bool {
    &&& 0 <= i < samples.len()
    &&& is_clearance(taken, samples[i], distance)
    &&& forall|j: int, other: int|
        0 <= j < samples.len() && #[trigger] is_clearance(taken, samples[j], other) ==> other
            <= distance && (j > i ==> other < distance)
}

/// Picks a hue with Mitchell's best-candidate algorithm.
///
/// The main disadvantage of this is that it takes time quadratic in the number
/// of hues. There are hardly ever enough of them for this to matter.
pub fn best_candidate(taken: &Vec<u32>, samples: &Vec<u32>) -> (hue: u32)
    requires
        taken@.len() > 0,
        samples@.len() > 0,
        forall|i: int| 0 <= i < taken@.len() ==> #[trigger] taken@[i] <= HUES,
        forall|i: int| 0 <= i < samples@.len() ==> #[trigger] samples@[i] <= HUES,
    ensures
        is_best_candidate(taken@, samples@, hue),
{
    let mut candidates: Vec<(u32, u32)> = Vec::new();
    let mut at: usize = 0;
    while at < samples.len()
        invariant
            at <= samples@.len(),
            taken@.len() > 0,
            forall|i: int| 0 <= i < taken@.len() ==> #[trigger] taken@[i] <= HUES,
            forall|i: int| 0 <= i < samples@.len() ==> #[trigger] samples@[i] <= HUES,
            candidates@.len() == at,
            forall|i: int|
                0 <= i < at ==> (#[trigger] candidates@[i]).0 == samples@[i] && is_clearance(
                    taken@,
                    samples@[i],
                    candidates@[i].1 as int,
                ),
        decreases samples@.len() - at,
    {
        let distance: u32 = clearance(taken, samples[at]);
        candidates.push((samples[at], distance));
        at = at + 1;
    }
    let result: Option<(u32, u32)> = greatest_by_score(&candidates);
    let best: (u32, u32) = result.unwrap();
    proof {
        let i = choose|i: int| #[trigger]
            last_greatest(candidates@, i) && candidates@[i] == best;
        assert forall|j: int, other: int|
            0 <= j < samples@.len() && #[trigger] is_clearance(
                taken@,
                samples@[j],
                other,
            ) implies other <= best.1 && (j > i ==> other < best.1) by {
            assert(candidates@[j].0 == samples@[j]);
            lemma_clearance_unique(taken@, samples@[j], other, candidates@[j].1 as int);
        }
        assert(beats_all(taken@, samples@, i, best.1 as int));
    }
    best.0
}

proof fn lemma_clearance_unique(taken: Seq<u32>, hue: u32, a: int, b: int)
    requires
        is_clearance(taken, hue, a),
        is_clearance(taken, hue, b),
    ensures
        a == b,
{
}

/// The distance between two hues is the same in both directions, nothing for
/// equal hues, and at most half of the wheel. Nothing and a full turn are the same hue.
pub proof fn law_wheel_distance(a: u32, b: u32)
    requires
        a <= HUES,
        b <= HUES,
    ensures
        wheel_distance(a as int, b as int) == wheel_distance(b as int, a as int),
        0 <= wheel_distance(a as int, b as int) <= HUES / 2,
        wheel_distance(a as int, b as int) == 0 <==> a == b || (a == 0 && b == HUES) || (a == HUES
            && b == 0),
{
}

} // verus!
