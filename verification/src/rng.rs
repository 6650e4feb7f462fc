use vstd::prelude::*;

verus! {

/// Relies on `rand::random_range` over `0 .. bound` with the thread-local
/// generator: the draw always lies below `bound`.  The range must not be
/// empty, since `random_range` panics on an empty range.
#[verifier::external_body]
pub(crate) fn rand_below(bound: u32) -> (r: u32)
    requires
        bound >= 1,
    ensures
        r < bound,
{
    rand::random_range(0..bound)
}

} // verus!
