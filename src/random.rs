//! Random draws, from rand's thread-local generator.
use vstd::prelude::*;
use rand::Rng;
use rand::seq::SliceRandom;

verus! {

/// Relies on rand's `SliceRandom::choose` on a slice: `None` for an empty
/// slice, otherwise one of its elements.
#[verifier::external_body]
pub(crate) fn choose_one<T: Copy>(v: &Vec<T>) -> (r: Option<T>)
    ensures
        r.is_none() <==> v@.len() == 0,
        r matches Some(x) ==> v@.contains(x),
{
    v.as_slice().choose(&mut rand::thread_rng()).copied()
}

/// Relies on rand's `Rng::gen_range` over `0..n`: a value below `n` (it
/// panics on an empty range).
#[verifier::external_body]
pub(crate) fn random_below(n: u32) -> (r: u32)
    requires
        n > 0,
    ensures
        r < n,
{
    rand::thread_rng().gen_range(0..n)
}

} // verus!
