//! The pseudo-random generator that map generation draws from.
//!
//! The generator is `rand`'s `SmallRng`. Its draws are not specified here
//! beyond the range they fall in: everything that is built from a draw is
//! verified for every value the draw may take.

use rand::rngs::SmallRng;
use rand::seq::SliceRandom;
use rand::{Rng, SeedableRng};
use vstd::prelude::*;

verus! {

/// `rand::rngs::SmallRng`, carried as it is: nothing of its state is known
/// here.
#[verifier::external_type_specification]
#[verifier::external_body]
pub struct ExSmallRng(SmallRng);

/// `SmallRng::seed_from_u64`: a generator whose state is derived from
/// `seed`. Nothing is claimed of the state.
#[verifier::external_body]
pub(crate) fn seeded_rng(seed: u64) -> (rng: SmallRng) {
    SmallRng::seed_from_u64(seed)
}

/// `rand::thread_rng().gen()`: a `u64` from the thread's generator, which
/// the operating system seeds. Nothing is claimed of the value.
#[verifier::external_body]
pub(crate) fn entropy_seed() -> (seed: u64) {
    rand::thread_rng().gen()
}

/// `Rng::gen_range` on `lo..hi`, which panics on an empty range: the value
/// drawn lies in the range.
#[verifier::external_body]
pub(crate) fn draw_range(rng: &mut SmallRng, lo: i32, hi: i32) -> (r: i32)
    requires
        lo < hi,
    ensures
        lo <= r < hi,
{
    rng.gen_range(lo..hi)
}

/// `Rng::gen_range` on `lo..=hi`, which panics on an empty range: the value
/// drawn lies in the range.
#[verifier::external_body]
pub(crate) fn draw_range_inclusive(rng: &mut SmallRng, lo: i32, hi: i32) -> (r: i32)
    requires
        lo <= hi,
    ensures
        lo <= r <= hi,
{
    rng.gen_range(lo..=hi)
}

/// `Rng::gen_ratio(1, 2)`: a fair coin. Nothing is claimed of the outcome.
#[verifier::external_body]
pub(crate) fn draw_coin(rng: &mut SmallRng) -> (r: bool) {
    rng.gen_ratio(1, 2)
}

/// `SliceRandom::choose`: one element of the slice, or nothing if and only
/// if the slice is empty.
#[verifier::external_body]
pub(crate) fn choose_from<T: Copy>(rng: &mut SmallRng, items: &Vec<T>) -> (r: Option<T>)
    ensures
        r is None <==> items@.len() == 0,
        r matches Some(item) ==> items@.contains(item),
{
    items.choose(rng).copied()
}

/// The generator of one map, handed from one generation step to the next.
#[derive(Debug)]
pub struct MapRng {
    pub rng: SmallRng,
}

impl MapRng {
    pub fn new(rng: SmallRng) -> (r: Self)
        ensures
            r.rng == rng,
    {
        MapRng { rng }
    }

    /// The generator itself, to draw from.
    pub fn as_mut(&mut self) -> (r: &mut SmallRng)
        ensures
            *r == old(self).rng,
            final(self).rng == *final(r),
    {
        &mut self.rng
    }
}

} // verus!
