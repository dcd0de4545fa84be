//! Random pictures: an expression of a chosen number of nodes, grown from
//! the draws of a seeded generator.

use vstd::prelude::*;
use rand::rngs::StdRng;
use rand::{Rng, SeedableRng};
use crate::aptnode::{below_one, lemma_depth_at_most_size, APTNode, Binary, Ternary, Unary};
use crate::coordinatesystem::CoordinateSystem;
use crate::mono::{MonoData, Pic, PicError};

verus! {

/// `rand::rngs::StdRng`, of which nothing is known but that it can be
/// handed on.
#[verifier::external_type_specification]
#[verifier::external_body]
pub struct ExStdRng(StdRng);

/// Draws from `0..bound` with `rand::Rng::gen_range`, which returns a value
/// of the range it is given and panics on an empty one. Which value comes is
/// not stated.
#[verifier::external_body]
fn below(rng: &mut StdRng, bound: usize) -> (r: usize)
    requires
        bound > 0,
    ensures
        r < bound,
{
    rng.gen_range(0..bound)
}

/// Makes a generator with `rand::SeedableRng::seed_from_u64`. Nothing is
/// stated of it.
#[verifier::external_body]
fn seeded(seed: u64) -> StdRng {
    StdRng::seed_from_u64(seed)
}

/// The form of a node, by how many sub-expressions it has and what it does
/// with them.
#[derive(Clone, Copy, Debug, PartialEq, Eq, Structural)]
pub enum Shape {
    Leaf,
    One,
    Two,
    Three,
    Sample,
}

/// How many forms a tree of `count` nodes may have at its root. One node is
/// a leaf and two are an operator over a leaf; from three on the root may
/// have two sub-expressions, from four on three; a bitmap is sampled only
/// where there is one.
pub open spec fn shape_count(count: usize, has_pics: bool) -> int {
    if count <= 2 {
        1
    } else {
        (if count == 3 {
            2int
        } else {
            3int
        }) + (if has_pics {
            1int
        } else {
            0int
        })
    }
}

/// The form that draw `pick` selects for the root of a tree of `count`
/// nodes.
pub open spec fn shape_at(count: usize, has_pics: bool, pick: usize) -> Shape {
    if count <= 1 {
        Shape::Leaf
    } else if count == 2 || pick == 0 {
        Shape::One
    } else if pick == 1 {
        Shape::Two
    } else if pick == 2 && count >= 4 {
        Shape::Three
    } else {
        Shape::Sample
    }
}

/// Computes `shape_count`.
pub fn shapes(count: usize, has_pics: bool) -> (r: usize)
    ensures
        r == shape_count(count, has_pics),
        r >= 1,
{
    if count <= 2 {
        1
    } else {
        let plain: usize = if count == 3 {
            2
        } else {
            3
        };
        if has_pics {
            plain + 1
        } else {
            plain
        }
    }
}

/// Computes `shape_at`. A draw under `shape_count` selects a form that a
/// tree of `count` nodes can have.
pub fn shape_of(count: usize, has_pics: bool, pick: usize) -> (r: Shape)
    ensures
        r == shape_at(count, has_pics, pick),
        count >= 1 && pick < shape_count(count, has_pics) ==> match r {
            Shape::Leaf => count == 1,
            Shape::One => count >= 2,
            Shape::Two => count >= 3,
            Shape::Three => count >= 4,
            Shape::Sample => count >= 3 && has_pics,
        },
{
    if count <= 1 {
        Shape::Leaf
    } else if count == 2 || pick == 0 {
        Shape::One
    } else if pick == 1 {
        Shape::Two
    } else if pick == 2 && count >= 4 {
        Shape::Three
    } else {
        Shape::Sample
    }
}

/// The bit pattern with the given sign, exponent field and fraction field.
pub open spec fn assemble(sign: usize, exponent: usize, fraction: usize) -> int {
    sign * 0x8000_0000 + exponent * 0x80_0000 + fraction
}

/// Puts a bit pattern together from its three fields. With an exponent
/// field under 127 the value has a magnitude below one.
pub fn constant_bits(sign: usize, exponent: usize, fraction: usize) -> (r: u32)
    requires
        sign < 2,
        exponent < 127,
        fraction < 0x80_0000,
    ensures
        r == assemble(sign, exponent, fraction),
        below_one(r),
{
    let high: u32 = if sign == 1 {
        0x8000_0000
    } else {
        0
    };
    high + (exponent as u32) * 0x80_0000 + (fraction as u32)
}

/// The leaf that draw `pick` selects: the two coordinates, the two sides,
/// a constant of the given bits, and from five on the time.
pub open spec fn leaf_at(pick: usize, bits: u32) -> APTNode {
    if pick == 0 {
        APTNode::X
    } else if pick == 1 {
        APTNode::Y
    } else if pick == 2 {
        APTNode::Width
    } else if pick == 3 {
        APTNode::Height
    } else if pick == 4 {
        APTNode::Constant(bits)
    } else {
        APTNode::T
    }
}

/// Computes `leaf_at`.
pub fn leaf_node(pick: usize, bits: u32) -> (r: APTNode)
    ensures
        r == leaf_at(pick, bits),
        r.size() == 1,
        r.uses_time() <==> pick >= 5,
{
    if pick == 0 {
        APTNode::X
    } else if pick == 1 {
        APTNode::Y
    } else if pick == 2 {
        APTNode::Width
    } else if pick == 3 {
        APTNode::Height
    } else if pick == 4 {
        APTNode::Constant(bits)
    } else {
        APTNode::T
    }
}

/// The operator over one sub-expression that draw `pick` selects.
pub open spec fn unary_at(pick: usize) -> Unary {
    if pick == 0 {
        Unary::Sin
    } else if pick == 1 {
        Unary::Cos
    } else if pick == 2 {
        Unary::Sqrt
    } else if pick == 3 {
        Unary::Abs
    } else {
        Unary::Floor
    }
}

/// Computes `unary_at`.
pub fn unary_of(pick: usize) -> (r: Unary)
    ensures
        r == unary_at(pick),
{
    if pick == 0 {
        Unary::Sin
    } else if pick == 1 {
        Unary::Cos
    } else if pick == 2 {
        Unary::Sqrt
    } else if pick == 3 {
        Unary::Abs
    } else {
        Unary::Floor
    }
}

/// The operator over two sub-expressions that draw `pick` selects.
pub open spec fn binary_at(pick: usize) -> Binary {
    if pick == 0 {
        Binary::Add
    } else if pick == 1 {
        Binary::Sub
    } else if pick == 2 {
        Binary::Mul
    } else if pick == 3 {
        Binary::Div
    } else if pick == 4 {
        Binary::Mod
    } else if pick == 5 {
        Binary::Min
    } else if pick == 6 {
        Binary::Max
    } else {
        Binary::Atan2
    }
}

/// Computes `binary_at`.
pub fn binary_of(pick: usize) -> (r: Binary)
    ensures
        r == binary_at(pick),
{
    if pick == 0 {
        Binary::Add
    } else if pick == 1 {
        Binary::Sub
    } else if pick == 2 {
        Binary::Mul
    } else if pick == 3 {
        Binary::Div
    } else if pick == 4 {
        Binary::Mod
    } else if pick == 5 {
        Binary::Min
    } else if pick == 6 {
        Binary::Max
    } else {
        Binary::Atan2
    }
}

/// The operator over three sub-expressions that draw `pick` selects.
pub open spec fn ternary_at(pick: usize) -> Ternary {
    if pick == 0 {
        Ternary::Clamp
    } else {
        Ternary::Select
    }
}

/// Computes `ternary_at`.
pub fn ternary_of(pick: usize) -> (r: Ternary)
    ensures
        r == ternary_at(pick),
{
    if pick == 0 {
        Ternary::Clamp
    } else {
        Ternary::Select
    }
}

/// The coordinate system that draw `pick` selects.
pub open spec fn coordinate_at(pick: usize) -> CoordinateSystem {
    if pick == 0 {
        CoordinateSystem::Cartesian
    } else {
        CoordinateSystem::Polar
    }
}

/// Computes `coordinate_at`.
pub fn coordinate_of(pick: usize) -> (r: CoordinateSystem)
    ensures
        r == coordinate_at(pick),
{
    if pick == 0 {
        CoordinateSystem::Cartesian
    } else {
        CoordinateSystem::Polar
    }
}

/// Shares the `count - 1` nodes under a root between two sub-expressions:
/// the first gets one more than the draw, the second the rest. A draw under
/// `count - 2` leaves each at least one.
pub fn split_two(count: usize, draw: usize) -> (r: (usize, usize))
    requires
        count >= 3,
        draw < count - 2,
    ensures
        r.0 == 1 + draw,
        r.1 == count - 2 - draw,
{
    (1 + draw, count - 2 - draw)
}

/// Shares the `count - 1` nodes under a root between three sub-expressions:
/// the first gets one more than the first draw, the second one more than the
/// second draw, the third the rest. A first draw under `count - 3` and a
/// second under `count - 3` less the first leave each at least one.
pub fn split_three(count: usize, first: usize, second: usize) -> (r: (usize, usize, usize))
    requires
        count >= 4,
        first < count - 3,
        second < count - 3 - first,
    ensures
        r.0 == 1 + first,
        r.1 == 1 + second,
        r.2 == count - 3 - first - second,
{
    (1 + first, 1 + second, count - 3 - first - second)
}

/// The names in `pic_names`, as a test on names.
pub open spec fn offered(pic_names: Seq<&String>) -> spec_fn(Seq<char>) -> bool {
    |name: Seq<char>| exists|i: int| 0 <= i < pic_names.len() && #[trigger] pic_names[i]@ == name
}

/// What holds of every tree grown for `count` nodes: it has exactly that
/// many, reads the time only where `video` allows it, samples only bitmaps
/// named in `pic_names`, and holds only constants of magnitude below one.
pub open spec fn grown(node: APTNode, count: usize, video: bool, pic_names: Seq<&String>) -> bool {
    &&& node.size() == count
    &&& !video ==> !node.uses_time()
    &&& node.names_all(offered(pic_names))
    &&& node.constants_below_one()
}

impl APTNode {
    /// Grows a random expression of exactly `count` nodes.
    pub fn grow(count: usize, video: bool, rng: &mut StdRng, pic_names: &Vec<&String>) -> (r:
        APTNode)
        requires
            count >= 1,
        ensures
            grown(r, count, video, pic_names@),
        decreases count,
    {
        let has_pics = pic_names.len() > 0;
        let options = shapes(count, has_pics);
        let shape = shape_of(count, has_pics, below(rng, options));
        match shape {
            Shape::Leaf => {
                let kinds: usize = if video {
                    6
                } else {
                    5
                };
                let pick = below(rng, kinds);
                let sign = below(rng, 2);
                let exponent = 123 + below(rng, 4);
                let fraction = below(rng, 0x80_0000);
                leaf_node(pick, constant_bits(sign, exponent, fraction))
            },
            Shape::One => {
                let op = unary_of(below(rng, 5));
                let a = APTNode::grow(count - 1, video, rng, pic_names);
                APTNode::Apply1(op, Box::new(a))
            },
            Shape::Two => {
                let op = binary_of(below(rng, 8));
                let (left, right) = split_two(count, below(rng, count - 2));
                let a = APTNode::grow(left, video, rng, pic_names);
                let b = APTNode::grow(right, video, rng, pic_names);
                APTNode::Apply2(op, Box::new(a), Box::new(b))
            },
            Shape::Three => {
                let op = ternary_of(below(rng, 2));
                let first = below(rng, count - 3);
                let second = below(rng, count - 3 - first);
                let (left, middle, right) = split_three(count, first, second);
                let a = APTNode::grow(left, video, rng, pic_names);
                let b = APTNode::grow(middle, video, rng, pic_names);
                let c = APTNode::grow(right, video, rng, pic_names);
                APTNode::Apply3(op, Box::new(a), Box::new(b), Box::new(c))
            },
            Shape::Sample => {
                let which = below(rng, pic_names.len());
                let name = pic_names[which].clone();
                let (left, right) = split_two(count, below(rng, count - 2));
                let u = APTNode::grow(left, video, rng, pic_names);
                let v = APTNode::grow(right, video, rng, pic_names);
                APTNode::Picture(name, Box::new(u), Box::new(v))
            },
        }
    }

    /// Grows a random expression of exactly `count` nodes and draws the
    /// coordinate system that it is read in.
    pub fn generate_tree(
        count: usize,
        video: bool,
        rng: &mut StdRng,
        pic_names: &Vec<&String>,
    ) -> (r: (APTNode, CoordinateSystem))
        requires
            count >= 1,
        ensures
            grown(r.0, count, video, pic_names@),
    {
        let tree = APTNode::grow(count, video, rng, pic_names);
        let coord = coordinate_of(below(rng, 2));
        (tree, coord)
    }
}

/// What holds of every picture made for the bounds `min` and `max`, and
/// when none is made: the expression has between `min` and `max` nodes and
/// is no deeper than `max`, reads the time only where `video` allows it,
/// samples only bitmaps named in `pic_names`, and holds only constants of
/// magnitude below one; bounds of zero or in the wrong order make none.
pub open spec fn made(
    r: Result<Pic, PicError>,
    min: usize,
    max: usize,
    video: bool,
    pic_names: Seq<&String>,
) -> bool {
    match r {
        Ok(Pic::Mono(m)) => {
            &&& 1 <= min <= max
            &&& min <= m.c.size() <= max
            &&& m.c.depth() <= max
            &&& !video ==> !m.c.uses_time()
            &&& m.c.names_all(offered(pic_names))
            &&& m.c.constants_below_one()
        },
        Err(PicError::InvalidParameter) => min == 0 || min > max,
        Err(PicError::UnknownAsset(_)) => false,
    }
}

impl MonoData {
    /// Makes a random picture whose expression has between `min` and `max`
    /// nodes, both counted in. Bounds of zero or in the wrong order are
    /// refused.
    pub fn new(min: usize, max: usize, video: bool, rng: &mut StdRng, pic_names: &Vec<&String>) -> (r:
        Result<Pic, PicError>)
        ensures
            made(r, min, max, video, pic_names@),
    {
        if min == 0 || min > max {
            return Err(PicError::InvalidParameter);
        }
        let count = min + below(rng, max - min + 1);
        let (tree, coord) = APTNode::generate_tree(count, video, rng, pic_names);
        proof {
            lemma_depth_at_most_size(tree);
        }
        Ok(Pic::Mono(MonoData { c: tree, coord }))
    }
}

/// Makes the random picture that `seed` stands for: see `MonoData::new`.
pub fn generate(min: usize, max: usize, video: bool, seed: u64, pic_names: &Vec<&String>) -> (r:
    Result<Pic, PicError>)
    ensures
        made(r, min, max, video, pic_names@),
{
    let mut rng = seeded(seed);
    MonoData::new(min, max, video, &mut rng, pic_names)
}

} // verus!
