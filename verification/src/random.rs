//! The sources of chance: fresh identities and random numbers.
use vstd::prelude::*;
use rand::Rng;
use rand::rngs::ThreadRng;
use uuid::Uuid;

verus! {

/// The handle of the random number generator of the current thread.
#[verifier::external_type_specification]
#[verifier::external_body]
pub struct ExThreadRng(ThreadRng);

/// `rand::thread_rng`: the generator of the current thread. Nothing is
/// claimed of it. The call panics where the operating system gives the
/// generator no seed.
pub assume_specification[ rand::thread_rng ]() -> (rng: ThreadRng);

/// `rand::Rng::gen_range` on whole numbers: some number that is at least
/// `low` and below `high`. The generator panics unless `low < high`.
#[verifier::external_body]
pub(crate) fn gen_range(rng: &mut ThreadRng, low: i32, high: i32) -> (r: i32)
    requires
        low < high,
    ensures
        low <= r < high,
{
    rng.gen_range(low, high)
}

/// `uuid::Uuid::new_v4`, as the number that `Uuid::as_u128` gives for it: a
/// random identity. Nothing is claimed of it; that two of them differ is
/// overwhelmingly likely and not certain. The call panics where the operating
/// system has no random bytes to give.
#[verifier::external_body]
pub(crate) fn fresh_id() -> (id: u128) {
    Uuid::new_v4().as_u128()
}

} // verus!
