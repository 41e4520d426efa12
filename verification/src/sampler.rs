//! Random draws.
//!
//! The value of a measurement is drawn by the `rand` crate, from the thread's own
//! generator or from one that the caller has seeded. A probability is a real
//! number, carried on the real axis of a complex value.

use num::complex::Complex64;
use rand::rngs::StdRng;
use rand::Rng;
use vstd::prelude::*;

verus! {

/// `StdRng` of `rand`: a generator is handed on and never looked into.
#[verifier::external_type_specification]
#[verifier::external_body]
pub struct ExStdRng(rand::rngs::StdRng);

/// Whether `rand` takes the real part of `p` as the probability of a Bernoulli
/// trial.
pub uninterp spec fn is_probability(p: Complex64) -> bool;

/// Whether `Bernoulli::new` of `rand` accepts the real part of `p`: it does for a
/// value from 0 to 1, and refuses any other, one that is not a number included.
#[verifier::external_body]
pub(crate) fn accepts(p: &Complex64) -> (ok: bool)
    ensures
        ok == is_probability(*p),
{
    rand::distributions::Bernoulli::new(p.re).is_ok()
}

/// `Rng::gen_bool` of `rand` on the thread's generator, with the real part of `p`
/// as the probability of `true`. It panics where `Bernoulli::new` refuses the
/// probability, so that case is left out. Nothing is claimed of the outcome. The
/// thread's generator is seeded by the operating system when a thread first asks
/// for it, and `rand` panics there if the system gives no randomness: no
/// condition on the arguments can rule that out.
#[verifier::external_body]
pub(crate) fn flip(p: &Complex64) -> (outcome: bool)
    requires
        is_probability(*p),
{
    rand::thread_rng().gen_bool(p.re)
}

/// `Rng::gen_bool` of `rand` on the given generator, with the real part of `p` as
/// the probability of `true`. It panics where `Bernoulli::new` refuses the
/// probability, so that case is left out. Nothing is claimed of the outcome, nor
/// of the generator afterwards.
#[verifier::external_body]
pub(crate) fn flip_with(rng: &mut StdRng, p: &Complex64) -> (outcome: bool)
    requires
        is_probability(*p),
{
    rng.gen_bool(p.re)
}

} // verus!
