//! The random source: `rand`'s `SmallRng`, reached through a handful of
//! calls whose results are only known to lie in a range.

use rand::rngs::SmallRng;
use rand::Rng;
use vstd::prelude::*;

verus! {

/// `rand::rngs::SmallRng`. The generator's state is opaque here: it is
/// carried through and handed to the calls below.
#[verifier::external_type_specification]
#[verifier::external_body]
pub struct ExSmallRng(SmallRng);

/// Calls `Rng::gen_range(low, high)` at `i32`. The method is documented to
/// return a value in `[low, high)` and to panic when `low >= high`; nothing
/// else is claimed of the value.
#[verifier::external_body]
pub(crate) fn uniform_i32(rng: &mut SmallRng, low: i32, high: i32) -> (r: i32)
    requires
        low < high,
    ensures
        low <= r < high,
{
    rng.gen_range(low, high)
}

/// Calls `Rng::gen_range(0, len)` at `usize`. The method is documented to
/// return a value in `[0, len)` and to panic when `len` is zero; nothing
/// else is claimed of the value.
#[verifier::external_body]
pub(crate) fn uniform_index(rng: &mut SmallRng, len: usize) -> (r: usize)
    requires
        0 < len,
    ensures
        r < len,
{
    rng.gen_range(0, len)
}

/// Calls `Rng::gen_ratio(1, 2)`: a coin that lands `true` one time in
/// two. Nothing is claimed of the outcome.
#[verifier::external_body]
pub(crate) fn coin(rng: &mut SmallRng) -> bool {
    rng.gen_ratio(1, 2)
}

} // verus!
