//! The opponent's move selector: a cell drawn at random from those still
//! empty, without regard to what the move is worth.

use rand::Rng;
use vstd::prelude::*;

verus! {

/// A number from 0 up to, not including, `bound`, drawn from the thread's
/// random number generator.
///
/// Trusted: the body calls `rand::thread_rng()` and `Rng::gen_range` on the
/// range `0..bound`. `gen_range` panics on an empty range, which `requires`
/// leaves out, and returns a value inside the range it was given; that is
/// all the contract claims. That every value comes with the same chance is
/// the generator's business and is not stated. `thread_rng` itself panics
/// if the operating system hands out no seed.
#[verifier::external_body]
fn random_below(bound: usize) -> (drawn: usize)
    requires
        bound > 0,
    ensures
        drawn < bound,
{
    rand::thread_rng().gen_range(0..bound)
}

/// The cell that the draw `index` stands for: the one at that place among
/// `remaining`.
pub fn select_at(remaining: &[u8], index: usize) -> (cell: u8)
    requires
        index < remaining@.len(),
    ensures
        cell == remaining@[index as int],
{
    remaining[index]
}

/// A cell drawn at random from `remaining`, which must not be empty.
pub fn select(remaining: &[u8]) -> (cell: u8)
    requires
        remaining@.len() > 0,
    ensures
        remaining@.contains(cell),
{
    let index = random_below(remaining.len());
    select_at(remaining, index)
}

} // verus!
