//! Drawing at random, from a generator that the caller hands in.
//!
//! Nothing in this file is proved: each function states what holds of every outcome of
//! the `rand` routine it calls.

use vstd::prelude::*;

verus! {

#[verifier::external_type_specification]
#[verifier::external_body]
pub struct ExStdRng(rand::rngs::StdRng);

/// The texts of a list of strings.
pub open spec fn texts(items: Seq<String>) -> Seq<Seq<char>> {
    Seq::new(items.len(), |i: int| items[i]@)
}

/// `rand::seq::SliceRandom::shuffle`: the same items, in an order that the generator
/// decides.
#[verifier::external_body]
pub(crate) fn shuffle_all(items: &mut Vec<String>, rng: &mut rand::rngs::StdRng)
    ensures
        texts(final(items)@).to_multiset() == texts(old(items)@).to_multiset(),
{
    rand::seq::SliceRandom::shuffle(items.as_mut_slice(), rng);
}

/// `rand::seq::SliceRandom::choose`: one of the items, whichever the generator decides,
/// or `None` where there is none.
#[verifier::external_body]
pub(crate) fn pick_one(items: &Vec<&'static str>, rng: &mut rand::rngs::StdRng) -> (r: Option<
    &'static str,
>)
    ensures
        match r {
            Some(item) => exists|i: int| 0 <= i < items.len() && #[trigger] items[i] == item,
            None => items.len() == 0,
        },
{
    rand::seq::SliceRandom::choose(items.as_slice(), rng).copied()
}

} // verus!
