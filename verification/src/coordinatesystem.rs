//! The two ways in which a picture may read the place of a pixel.

use vstd::prelude::*;
use crate::ops::{alu_models, alu_total, apply, splat, Op};

verus! {

/// How the place of a pixel reaches the expression: as it is, or as a
/// distance from the centre and an angle.
#[derive(Clone, Copy, Debug, PartialEq, Eq, Structural)]
pub enum CoordinateSystem {
    Cartesian,
    Polar,
}

/// The distance of `(x, y)` from the origin: the root of `x * x + y * y`.
pub open spec fn polar_r(s: spec_fn(Op, u32, u32, u32) -> u32, x: u32, y: u32) -> u32 {
    s(Op::Sqrt, s(Op::Add, s(Op::Mul, x, x, 0), s(Op::Mul, y, y, 0), 0), 0, 0)
}

/// The angle of `(x, y)`: the arc tangent of `y` over `x`, by quadrant.
pub open spec fn polar_theta(s: spec_fn(Op, u32, u32, u32) -> u32, x: u32, y: u32) -> u32 {
    s(Op::Atan2, y, x, 0)
}

/// Turns each lane's `(x, y)` into its distance and angle. No lane reads
/// another.
pub fn cartesian_to_polar<const N: usize, F: Fn(Op, [u32; N], [u32; N], [u32; N]) -> [u32; N]>(
    x: [u32; N],
    y: [u32; N],
    alu: &F,
) -> (r: ([u32; N], [u32; N]))
    requires
        alu_total(alu),
    ensures
        forall|s: spec_fn(Op, u32, u32, u32) -> u32| #[trigger]
            alu_models(alu, s) ==> forall|i: int|
                0 <= i < N ==> #[trigger] r.0[i] == polar_r(s, x[i], y[i]) && #[trigger] r.1[i]
                    == polar_theta(s, x[i], y[i]),
{
    let zero: [u32; N] = splat(0);
    let xx = apply(alu, Op::Mul, x, x, zero);
    let yy = apply(alu, Op::Mul, y, y, zero);
    let sum = apply(alu, Op::Add, xx, yy, zero);
    let radius = apply(alu, Op::Sqrt, sum, zero, zero);
    let theta = apply(alu, Op::Atan2, y, x, zero);
    (radius, theta)
}

} // verus!
