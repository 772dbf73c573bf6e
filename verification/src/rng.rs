//! The pseudorandom generator and the draws the library makes from it.
//!
//! Nothing here is proved: each function calls `rand`, `rand_pcg` or the
//! standard library, and its contract says what their documentation and
//! source promise of every outcome.

use rand::seq::SliceRandom;
use rand::Rng;
use rand::SeedableRng;
use vstd::prelude::*;

verus! {

/// The generator: `rand_pcg::Pcg64`, whose inside the library never reads.
#[verifier::external_type_specification]
#[verifier::external_body]
pub struct ExPcg64(rand_pcg::Lcg128Xsl64);

/// The generator that `SeedableRng::seed_from_u64` makes from a seed. The
/// call spreads the seed over the 32 bytes that the generator starts from,
/// by fixed arithmetic on the seed alone: the same seed gives the same
/// generator, wherever and whenever it is made.
pub uninterp spec fn seeded_generator(seed: u64) -> rand_pcg::Pcg64;

/// `SeedableRng::seed_from_u64`: the generator made from a seed.
#[verifier::external_body]
pub(crate) fn seeded_rng(seed: u64) -> (r: rand_pcg::Pcg64)
    ensures
        r == seeded_generator(seed),
{
    rand_pcg::Pcg64::seed_from_u64(seed)
}

/// `SeedableRng::from_rng` on `OsRng`: a generator seeded by the system, or
/// `None` where the system gives no entropy.
#[verifier::external_body]
pub(crate) fn entropy_rng() -> Option<rand_pcg::Pcg64> {
    match rand_pcg::Pcg64::from_rng(rand::rngs::OsRng) {
        Ok(rng) => Some(rng),
        Err(_) => None,
    }
}

/// `Rng::gen::<bool>`: one draw of a boolean.
#[verifier::external_body]
pub(crate) fn draw_bool(rng: &mut rand_pcg::Pcg64) -> bool {
    rng.gen::<bool>()
}

/// `Rng::gen::<u8>`: one draw of a byte.
#[verifier::external_body]
pub(crate) fn draw_u8(rng: &mut rand_pcg::Pcg64) -> u8 {
    rng.gen::<u8>()
}

/// `Rng::gen::<[u8; 16]>`: one draw of sixteen bytes.
#[verifier::external_body]
pub(crate) fn draw_bytes(rng: &mut rand_pcg::Pcg64) -> [u8; 16] {
    rng.gen::<[u8; 16]>()
}

/// `Rng::gen_range` on `low..=high`: a number of that range. The call
/// panics on an empty range, which `requires` leaves out.
#[verifier::external_body]
pub(crate) fn draw_u16(rng: &mut rand_pcg::Pcg64, low: u16, high: u16) -> (r: u16)
    requires
        low <= high,
    ensures
        low <= r <= high,
{
    rng.gen_range(low..=high)
}

/// `Rng::gen_range` on `start..end`: a number of that range, `end` not
/// included. The call panics on an empty range, which `requires` leaves out.
#[verifier::external_body]
pub(crate) fn draw_i32(rng: &mut rand_pcg::Pcg64, start: i32, end: i32) -> (r: i32)
    requires
        start < end,
    ensures
        start <= r < end,
{
    rng.gen_range(start..end)
}

/// `Rng::gen_range` on `start..end`, of 64 bits: a number of that range,
/// `end` not included. The call panics on an empty range, which `requires`
/// leaves out.
#[verifier::external_body]
pub(crate) fn draw_i64(rng: &mut rand_pcg::Pcg64, start: i64, end: i64) -> (r: i64)
    requires
        start < end,
    ensures
        start <= r < end,
{
    rng.gen_range(start..end)
}

/// `SliceRandom::shuffle`: the same items in some order.
#[verifier::external_body]
pub(crate) fn shuffle(rng: &mut rand_pcg::Pcg64, items: &mut Vec<usize>)
    ensures
        final(items)@.to_multiset() == old(items)@.to_multiset(),
{
    items.shuffle(rng)
}

/// `SliceRandom::choose`: one of the items. On no items the call gives
/// `None`, which `requires` leaves out.
#[verifier::external_body]
pub(crate) fn pick_one(rng: &mut rand_pcg::Pcg64, items: &Vec<usize>) -> (r: usize)
    requires
        items.len() > 0,
    ensures
        items@.contains(r),
{
    *items.choose(rng).unwrap()
}

/// `SliceRandom::choose_multiple`: `amount` of the items, or all of them
/// where there are fewer, each place of `items` taken at most once, in some
/// order.
#[verifier::external_body]
pub(crate) fn pick_many(
    rng: &mut rand_pcg::Pcg64,
    items: &Vec<usize>,
    amount: usize,
) -> (r: Vec<usize>)
    ensures
        r.len() == if amount <= items.len() {
            amount
        } else {
            items.len()
        },
        r@.to_multiset().subset_of(items@.to_multiset()),
{
    items.choose_multiple(rng, amount).cloned().collect()
}

/// Ascending order.
pub open spec fn ascending(s: Seq<usize>) -> bool {
    forall|i: int, j: int| 0 <= i <= j < s.len() ==> s[i] <= s[j]
}

/// `sort_unstable` of slices, on places: the same numbers in ascending order.
#[verifier::external_body]
pub(crate) fn sort_places(items: &mut Vec<usize>)
    ensures
        final(items)@.to_multiset() == old(items)@.to_multiset(),
        ascending(final(items)@),
{
    items.sort_unstable()
}

/// `sort_unstable` of slices, on the faces of dice: the same faces in
/// ascending order.
#[verifier::external_body]
pub(crate) fn sort_faces(faces: &mut Vec<u16>)
    ensures
        final(faces)@.to_multiset() == old(faces)@.to_multiset(),
        forall|i: int, j: int|
            0 <= i <= j < final(faces)@.len() ==> final(faces)@[i] <= final(faces)@[j],
{
    faces.sort_unstable()
}

} // verus!
