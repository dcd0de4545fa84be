//! The vocabulary of lane arithmetic, and what it means for a lane unit to
//! act on every lane alike.

use vstd::prelude::*;

verus! {

/// One elementwise operation of the lane unit.
#[derive(Clone, Copy, Debug, PartialEq, Eq, Structural)]
pub enum Op {
    /// Signed 32-bit integer to the nearest single-precision value.
    FromInt,
    /// Single-precision value to a signed 32-bit integer, towards zero; what
    /// the unit gives for a value that fits no such integer is its own
    /// affair.
    ToInt,
    Sin,
    Cos,
    Sqrt,
    Abs,
    Floor,
    Add,
    Sub,
    Mul,
    Div,
    /// Remainder of the first operand by the second.
    Mod,
    Min,
    Max,
    /// Angle of the point whose ordinate is the first operand and whose
    /// abscissa is the second.
    Atan2,
    /// First operand, held between the second and the third.
    Clamp,
    /// Second operand where the first is at least zero, else the third.
    Select,
}

/// The bit pattern of `1.0`.
pub const ONE: u32 = 0x3F80_0000;

/// The bit pattern of `2.0`.
pub const TWO: u32 = 0x4000_0000;

/// The bit pattern of `0.5`.
pub const HALF: u32 = 0x3F00_0000;

/// The bit pattern of `-1.0`.
pub const NEG_ONE: u32 = 0xBF80_0000;

/// The lane unit accepts every operation on every operand.
pub open spec fn alu_total<const N: usize, F: Fn(Op, [u32; N], [u32; N], [u32; N]) -> [u32; N]>(
    alu: &F,
) -> bool {
    forall|op: Op, a: [u32; N], b: [u32; N], c: [u32; N]| #[trigger] alu.requires((op, a, b, c))
}

/// `r` is `s` applied lane by lane to `a`, `b` and `c`.
pub open spec fn maps<const N: usize>(
    s: spec_fn(Op, u32, u32, u32) -> u32,
    op: Op,
    a: [u32; N],
    b: [u32; N],
    c: [u32; N],
    r: [u32; N],
) -> bool {
    forall|i: int| 0 <= i < N ==> #[trigger] r[i] == s(op, a[i], b[i], c[i])
}

/// Whatever the lane unit returns is the scalar function `s` applied to each
/// lane on its own: no lane sees another.
pub open spec fn alu_models<const N: usize, F: Fn(Op, [u32; N], [u32; N], [u32; N]) -> [u32; N]>(
    alu: &F,
    s: spec_fn(Op, u32, u32, u32) -> u32,
) -> bool {
    forall|op: Op, a: [u32; N], b: [u32; N], c: [u32; N], r: [u32; N]| #[trigger]
        alu.ensures((op, a, b, c), r) ==> maps(s, op, a, b, c, r)
}

/// A lane that holds `v` in every place.
pub fn splat<const N: usize>(v: u32) -> (r: [u32; N])
    ensures
        forall|i: int| 0 <= i < N ==> #[trigger] r[i] == v,
{
    [v; N]
}

/// One call of the lane unit.
pub fn apply<const N: usize, F: Fn(Op, [u32; N], [u32; N], [u32; N]) -> [u32; N]>(
    alu: &F,
    op: Op,
    a: [u32; N],
    b: [u32; N],
    c: [u32; N],
) -> (r: [u32; N])
    requires
        alu_total(alu),
    ensures
        alu.ensures((op, a, b, c), r),
        forall|s: spec_fn(Op, u32, u32, u32) -> u32| #[trigger] alu_models(alu, s) ==> maps(s, op, a, b, c, r),
{
    alu(op, a, b, c)
}

} // verus!
