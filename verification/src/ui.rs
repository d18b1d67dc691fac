//! Widgets.

use vstd::prelude::*;
use vstd::std_specs::cmp::PartialEqSpec;

verus! {

/// The place of the first variant that equals `current`, or the count of variants.
pub open spec fn first_equal<T: PartialEq>(variants: Seq<T>, current: T) -> int
    decreases variants.len(),
{
    if variants.len() == 0 {
        0
    } else if variants[0].eq_spec(&current) {
        0
    } else {
        1 + first_equal(variants.drop_first(), current)
    }
}

/// Lets one of several variants be picked.
///
/// `combo` shows the widget with the current variant selected, and returns the place of another
/// variant if that has been picked instead.
///
/// Returns whether the variant has been changed.
pub fn enum_combo<T: PartialEq + Eq + Copy, F: Fn(usize) -> Option<usize>>(
    current: &mut T,
    variants: &[T],
    combo: F,
) -> (changed: bool)
    requires
        T::obeys_eq_spec(),
        first_equal(variants@, *old(current)) < variants@.len(),
        forall|place: usize| place < variants@.len() ==> #[trigger] call_requires(combo, (place,)),
        forall|place: usize, picked: usize|
            call_ensures(combo, (place,), Some(picked)) ==> picked < variants@.len(),
    ensures
        exists|picked: Option<usize>| #[trigger]
            call_ensures(combo, (first_equal(variants@, *old(current)) as usize,), picked)
                && changed == (picked is Some) && *final(current) == (match picked {
                Some(place) => variants@[place as int],
                None => *old(current),
            }),
{
    // Determine index of current
    let mut place: usize = 0;
    assert(variants@.skip(0) =~= variants@);
    while !(variants[place] == *current)
        invariant
            T::obeys_eq_spec(),
            *current == *old(current),
            first_equal(variants@, *current) < variants@.len(),
            place < variants@.len(),
            first_equal(variants@, *current) == place + first_equal(
                variants@.skip(place as int),
                *current,
            ),
        decreases variants@.len() - place,
    {
        assert(variants@.skip(place as int)[0] == variants@[place as int]);
        assert(variants@.skip(place as int).drop_first() =~= variants@.skip(place + 1));
        proof {
            lemma_first_equal(variants@.skip(place + 1), *current);
        }
        place = place + 1;
    }
    assert(variants@.skip(place as int)[0] == variants@[place as int]);
    assert(first_equal(variants@, *old(current)) == place);
    let picked: Option<usize> = combo(place);
    assert(call_ensures(combo, (first_equal(variants@, *old(current)) as usize,), picked));
    match picked {
        Some(other) => {
            *current = variants[other];
            true
        },
        None => false,
    }
}

proof fn lemma_first_equal<T: PartialEq>(variants: Seq<T>, current: T)
    ensures
        0 <= first_equal(variants, current) <= variants.len(),
    decreases variants.len(),
{
    if variants.len() > 0 {
        lemma_first_equal(variants.drop_first(), current);
    }
}

} // verus!
