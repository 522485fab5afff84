//! The dice roll: a number drawn from `1..=max`.
use rand::rngs::StdRng;
use rand::{Rng, SeedableRng};
use vstd::prelude::*;

verus! {

/// Relies on rand's `StdRng::from_entropy().gen_range(lo..=hi)`: a number
/// drawn in `lo..=hi`; it panics on an empty range, which `requires` leaves
/// out.
#[verifier::external_body]
fn random_between(lo: i32, hi: i32) -> (r: i32)
    requires
        lo <= hi,
    ensures
        lo <= r <= hi,
{
    StdRng::from_entropy().gen_range(lo..=hi)
}

/// A roll was asked over a range smaller than two faces.
#[derive(Clone, Copy, Debug, PartialEq, Eq, Structural)]
pub enum RollError {
    TooFewFaces,
}

/// Checks the range: at least two faces are needed.
pub fn check_faces(max: i32) -> (r: Result<i32, RollError>)
    ensures
        max <= 1 ==> r == Err::<i32, RollError>(RollError::TooFewFaces),
        max >= 2 ==> r == Ok::<i32, RollError>(max),
{
    if max <= 1 {
        Err(RollError::TooFewFaces)
    } else {
        Ok(max)
    }
}

/// Rolls a die with faces `1..=max`.
pub fn roll_die(max: i32) -> (r: Result<i32, RollError>)
    ensures
        max <= 1 ==> r == Err::<i32, RollError>(RollError::TooFewFaces),
        max >= 2 ==> (r matches Ok(v) && 1 <= v <= max),
{
    match check_faces(max) {
        Err(e) => Err(e),
        Ok(m) => Ok(random_between(1, m)),
    }
}

} // verus!
