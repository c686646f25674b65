use rand::Rng;
use vstd::prelude::*;

verus! {

/// Relies on rand::thread_rng and rand::Rng::gen_range: a draw from the
/// inclusive range `lo..=hi`, which gen_range documents to return from within
/// the range; the range is non-empty by the precondition.  Nothing more is
/// assumed of the value.
#[verifier::external_body]
pub(crate) fn rand_range(lo: i64, hi: i64) -> (r: i64)
    requires
        lo <= hi,
    ensures
        lo <= r <= hi,
{
    rand::thread_rng().gen_range(lo..=hi)
}

} // verus!
