//! The random source that drives move selection.

use rand::seq::SliceRandom;
use rand_chacha::ChaCha8Rng;
use vstd::prelude::*;

verus! {

/// The ChaCha generator with eight rounds. Its state is opaque here: nothing
/// is known of a draw but what `pick` states.
#[verifier::external_type_specification]
#[verifier::external_body]
pub struct ExChaCha8Rng(ChaCha8Rng);

/// Draws one item of `items` with `SliceRandom::choose`.
///
/// Taken on trust from that method on slices: an empty slice gives `None`,
/// and any other slice gives one of its own elements. Which element comes out
/// depends on the generator's state and is left open.
#[verifier::external_body]
pub(crate) fn pick<T: Copy>(items: &Vec<T>, rng: &mut ChaCha8Rng) -> (r: Option<T>)
    ensures
        items@.len() == 0 ==> r is None,
        items@.len() > 0 ==> r is Some && items@.contains(r->0),
{
    items.choose(rng).copied()
}

} // verus!
