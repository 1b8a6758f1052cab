//! The calls into other crates. Verus takes their contracts on trust.

use vstd::prelude::*;
use crate::pairing::all_pairings;

verus! {

/// `gen_range` of rand, on the thread's generator and the range
/// `0..bound`. The draw is uniform; the contract keeps only its range. An
/// empty range makes rand panic, so `bound` must be positive.
#[verifier::external_body]
pub(crate) fn draw_below(bound: i32) -> (draw: i32)
    requires
        0 < bound,
    ensures
        0 <= draw < bound,
{
    rand::Rng::gen_range(&mut rand::thread_rng(), 0..bound)
}

/// The seedable generator of rand. Its state is not looked into.
#[verifier::external_type_specification]
#[verifier::external_body]
pub struct ExStdRng(rand::rngs::StdRng);

/// `seed_from_u64` of rand, for its standard generator. Nothing is claimed
/// of the generator but that it is one.
#[verifier::external_body]
pub(crate) fn generator_from_seed(seed: u64) -> rand::rngs::StdRng {
    rand::SeedableRng::seed_from_u64(seed)
}

/// `gen_range` of rand, on a seeded generator and the range `0..bound`. The
/// contract keeps only the range of the draw. An empty range makes rand
/// panic, so `bound` must be positive.
#[verifier::external_body]
pub(crate) fn next_below(generator: &mut rand::rngs::StdRng, bound: i32) -> (draw: i32)
    requires
        0 < bound,
    ensures
        0 <= draw < bound,
{
    rand::Rng::gen_range(generator, 0..bound)
}

/// `gen` of rand for `bool`, on a seeded generator. Nothing is claimed of
/// the flip.
#[verifier::external_body]
pub(crate) fn next_coin(generator: &mut rand::rngs::StdRng) -> bool {
    rand::Rng::gen(generator)
}

/// `rand` of enum_derived for `bool`, which is `random` of rand: a fair coin.
/// Nothing is claimed of the flip.
#[verifier::external_body]
pub(crate) fn flip_coin() -> bool {
    <bool as enum_derived::Rand>::rand()
}

/// Whether `c` is an ASCII letter or digit.
pub open spec fn is_alphanumeric(c: char) -> bool {
    ('A' <= c && c <= 'Z') || ('a' <= c && c <= 'z') || ('0' <= c && c <= '9')
}

/// `sample_iter` of rand with its `Alphanumeric` distribution, on the
/// thread's generator, cut after `count` draws. Each draw is one of the 62
/// ASCII letters and digits; which ones come is not claimed.
#[verifier::external_body]
pub(crate) fn draw_letters(count: usize) -> (letters: String)
    ensures
        letters@.len() == count,
        forall|i: int| 0 <= i < letters@.len() ==> is_alphanumeric(#[trigger] letters@[i]),
{
    rand::Rng::sample_iter(rand::thread_rng(), &rand::distributions::Alphanumeric)
        .take(count)
        .map(char::from)
        .collect()
}

/// `combinations_with_replacement` of itertools, asked for the pairs out of
/// `0..n`. It walks the pairs in dictionary order and leaves none out; the
/// contract says which sequence that is. The count must fit the machine.
#[verifier::external_body]
pub(crate) fn pairings_of(n: usize) -> (pairs: Vec<(usize, usize)>)
    requires
        n * (n + 1) / 2 <= usize::MAX,
    ensures
        pairs@ == all_pairings(n as int),
{
    itertools::Itertools::combinations_with_replacement(0..n, 2)
        .map(|pair| (pair[0], pair[1]))
        .collect()
}

} // verus!
