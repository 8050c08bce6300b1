use rand::distributions::Distribution;
use rand::Rng;
use vstd::prelude::*;

verus! {

#[verifier::external_type_specification]
#[verifier::external_body]
pub struct ExThreadRng(rand::rngs::ThreadRng);

#[verifier::external_type_specification]
#[verifier::external_body]
pub struct ExBernoulli(rand::distributions::Bernoulli);

#[verifier::external_type_specification]
#[verifier::external_body]
pub struct ExBernoulliError(rand::distributions::BernoulliError);

/// Relies on rand::thread_rng: a handle to this thread's random generator.
#[verifier::external_body]
pub(crate) fn thread_source() -> rand::rngs::ThreadRng {
    rand::thread_rng()
}

/// Relies on Rng::gen_range over `0..=hi`: a range that is never empty, so the
/// call does not panic, and whose draw lies within it.
#[verifier::external_body]
pub(crate) fn draw_at_most(rng: &mut rand::rngs::ThreadRng, hi: usize) -> (r: usize)
    ensures
        r <= hi,
{
    rng.gen_range(0..=hi)
}

/// Relies on Bernoulli::from_ratio: it fails exactly when the denominator is
/// zero or the numerator exceeds it.
#[verifier::external_body]
pub(crate) fn chance_of(numerator: u32, denominator: u32) -> (r: Result<
    rand::distributions::Bernoulli,
    rand::distributions::BernoulliError,
>)
    ensures
        r is Ok <==> (denominator != 0 && numerator <= denominator),
{
    rand::distributions::Bernoulli::from_ratio(numerator, denominator)
}

/// Relies on Distribution::sample for Bernoulli: one draw of the event.
#[verifier::external_body]
pub(crate) fn happens(chance: &rand::distributions::Bernoulli, rng: &mut rand::rngs::ThreadRng) -> bool {
    chance.sample(rng)
}

} // verus!
