use rand::rngs::mock::StepRng;
use rand::rngs::SmallRng;
use rand::RngCore;
use vstd::prelude::*;

verus! {

/// rand's `SmallRng`, held opaque.
#[verifier::external_type_specification]
#[verifier::external_body]
pub struct ExSmallRng(SmallRng);

/// rand's `StepRng`, held opaque.
#[verifier::external_type_specification]
#[verifier::external_body]
pub struct ExStepRng(StepRng);

/// The uniform source from which arrival times are drawn: a seeded
/// generator, or a fixed-step sequence that makes runs predictable.
pub enum RandomSource {
    Seeded(SmallRng),
    Stepped(StepRng),
}

/// 2^64, the number of distinct `u64` values.
pub const U64_SPAN: u128 = 0x1_0000_0000_0000_0000;

/// Relies on rand's `RngCore::next_u64`: the generator's next value. Nothing
/// is promised of it.
#[verifier::external_body]
fn next_raw<R: RngCore>(rng: &mut R) -> (r: u64) {
    rng.next_u64()
}

/// `v` read as a fixed-point fraction of `[0, 1)`, scaled to `[0, end]`.
pub open spec fn scaled(v: u64, end: u64) -> int {
    (v as int * (end as int + 1)) / (U64_SPAN as int)
}

/// Maps a uniform `u64` onto `[0, end]` by scaling, so every value of the
/// range is hit by an equal share of inputs (up to one) and no draw is thrown
/// away.
pub fn scale_to(v: u64, end: u64) -> (r: u64)
    ensures
        r == scaled(v, end),
        r <= end,
{
    assert(v as int * (end as int + 1) < U64_SPAN as int * (end as int + 1)) by (nonlinear_arith)
        requires
            v < U64_SPAN,
            end + 1 > 0,
    ;
    assert(U64_SPAN as int * (end as int + 1) <= u128::MAX + 1) by (nonlinear_arith)
        requires
            end + 1 <= U64_SPAN,
            U64_SPAN == 0x1_0000_0000_0000_0000int,
    ;
    let product: u128 = v as u128 * (end as u128 + 1);
    let r = product / U64_SPAN;
    assert(r <= end) by (nonlinear_arith)
        requires
            r as int == product as int / (U64_SPAN as int),
            product < U64_SPAN as int * (end as int + 1),
            U64_SPAN > 0,
    ;
    r as u64
}

impl RandomSource {
    /// The generator's next raw value.
    pub fn next_u64(&mut self) -> u64 {
        match self {
            RandomSource::Seeded(rng) => next_raw(rng),
            RandomSource::Stepped(rng) => next_raw(rng),
        }
    }

    /// Draws a time in `[0, end]`: the next raw value, scaled.
    pub fn draw(&mut self, end: u64) -> (r: u64)
        ensures
            r <= end,
    {
        let v = self.next_u64();
        scale_to(v, end)
    }
}

} // verus!
