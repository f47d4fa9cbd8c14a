//! Entry points of the foundation shim that carry runtime logic: random
//! number draws and the controlled measurement-probability assertion.
//! The pure floating-point delegations of that shim hold no logic and
//! live with the host program.

use vstd::prelude::*;
use rand::distributions::{Distribution, Uniform};
use crate::qdevice::SimError;

verus! {

/// Relies on `rand`'s `Uniform` distribution over `lo..=hi`: every
/// outcome lies in the closed range. The range is nonempty, so
/// construction cannot fail.
#[verifier::external_body]
fn draw_uniform_i64(lo: i64, hi: i64) -> (r: i64)
    requires
        lo <= hi,
    ensures
        lo <= r <= hi,
{
    let mut rng = rand::thread_rng();
    Uniform::from(lo..=hi).sample(&mut rng)
}

/// Draw a uniform integer from a closed range; an empty range is a
/// caller error.
pub fn isq_qir_shim_qis_drawrandomint_body(x0: i64, x1: i64) -> (r: i64)
    requires
        x0 <= x1,
    ensures
        x0 <= r <= x1,
{
    draw_uniform_i64(x0, x1)
}

/// The controlled measurement-probability assertion is not implemented
/// by this runtime: it refuses every request.
pub fn isq_qir_shim_qis_assertmeasurementprobability_ctl() -> (r: Result<(), SimError>)
    ensures
        r == Err::<(), SimError>(SimError::NotImplemented),
{
    Err(SimError::NotImplemented)
}

} // verus!
