//! The expression tree of a picture, and the value it denotes at a point.

use vstd::prelude::*;
use crate::actual_picture::{edge_index, ActualPicture, Pictures};
use crate::ops::{Op, HALF, ONE};

verus! {

/// An operator over one sub-expression.
#[derive(Clone, Copy, Debug, PartialEq, Eq, Structural)]
pub enum Unary {
    Sin,
    Cos,
    Sqrt,
    Abs,
    Floor,
}

/// An operator over two sub-expressions.
#[derive(Clone, Copy, Debug, PartialEq, Eq, Structural)]
pub enum Binary {
    Add,
    Sub,
    Mul,
    Div,
    Mod,
    Min,
    Max,
    Atan2,
}

/// An operator over three sub-expressions.
#[derive(Clone, Copy, Debug, PartialEq, Eq, Structural)]
pub enum Ternary {
    Clamp,
    Select,
}

impl Unary {
    /// The lane operation that computes this operator.
    pub open spec fn op_of(self) -> Op {
        match self {
            Unary::Sin => Op::Sin,
            Unary::Cos => Op::Cos,
            Unary::Sqrt => Op::Sqrt,
            Unary::Abs => Op::Abs,
            Unary::Floor => Op::Floor,
        }
    }

    /// Computes `op_of`.
    pub fn op(self) -> (r: Op)
        ensures
            r == self.op_of(),
    {
        match self {
            Unary::Sin => Op::Sin,
            Unary::Cos => Op::Cos,
            Unary::Sqrt => Op::Sqrt,
            Unary::Abs => Op::Abs,
            Unary::Floor => Op::Floor,
        }
    }
}

impl Binary {
    /// The lane operation that computes this operator.
    pub open spec fn op_of(self) -> Op {
        match self {
            Binary::Add => Op::Add,
            Binary::Sub => Op::Sub,
            Binary::Mul => Op::Mul,
            Binary::Div => Op::Div,
            Binary::Mod => Op::Mod,
            Binary::Min => Op::Min,
            Binary::Max => Op::Max,
            Binary::Atan2 => Op::Atan2,
        }
    }

    /// Computes `op_of`.
    pub fn op(self) -> (r: Op)
        ensures
            r == self.op_of(),
    {
        match self {
            Binary::Add => Op::Add,
            Binary::Sub => Op::Sub,
            Binary::Mul => Op::Mul,
            Binary::Div => Op::Div,
            Binary::Mod => Op::Mod,
            Binary::Min => Op::Min,
            Binary::Max => Op::Max,
            Binary::Atan2 => Op::Atan2,
        }
    }
}

impl Ternary {
    /// The lane operation that computes this operator.
    pub open spec fn op_of(self) -> Op {
        match self {
            Ternary::Clamp => Op::Clamp,
            Ternary::Select => Op::Select,
        }
    }

    /// Computes `op_of`.
    pub fn op(self) -> (r: Op)
        ensures
            r == self.op_of(),
    {
        match self {
            Ternary::Clamp => Op::Clamp,
            Ternary::Select => Op::Select,
        }
    }
}

/// One node of a picture's expression. A node owns its sub-expressions, and
/// each variant has a fixed number of them.
#[derive(Debug, PartialEq, Eq)]
pub enum APTNode {
    /// The horizontal coordinate of the pixel.
    X,
    /// The vertical coordinate of the pixel.
    Y,
    /// The time of the frame.
    T,
    /// The width of the image in pixels.
    Width,
    /// The height of the image in pixels.
    Height,
    /// A fixed value, as its bit pattern.
    Constant(u32),
    /// The brightness of the named bitmap at the place that the two
    /// sub-expressions give, each running from -1 at one edge to 1 at the
    /// other.
    Picture(String, Box<APTNode>, Box<APTNode>),
    Apply1(Unary, Box<APTNode>),
    Apply2(Binary, Box<APTNode>, Box<APTNode>),
    Apply3(Ternary, Box<APTNode>, Box<APTNode>, Box<APTNode>),
}

/// The values that an expression may read at one pixel, each a bit pattern.
pub struct Point {
    pub x: u32,
    pub y: u32,
    pub t: u32,
    pub w: u32,
    pub h: u32,
}

/// A constant of magnitude below one: the sign bit apart, its pattern lies
/// under that of `1.0`.
pub open spec fn below_one(bits: u32) -> bool {
    bits % 0x8000_0000 < ONE
}

/// Where a coordinate `u`, running from -1 to 1, falls on an axis of `extent`
/// pixels, before it is cut to an integer: `(u + 1) * 0.5 * extent`.
pub open spec fn axis_place(s: spec_fn(Op, u32, u32, u32) -> u32, u: u32, extent: u16) -> u32 {
    s(Op::Mul, s(Op::Mul, s(Op::Add, u, ONE, 0), HALF, 0), s(Op::FromInt, extent as u32, 0, 0), 0)
}

/// The brightness of `picture` at the coordinates `(u, v)`; a place off the
/// bitmap reads the nearest edge.
pub open spec fn sample(
    s: spec_fn(Op, u32, u32, u32) -> u32,
    picture: ActualPicture,
    u: u32,
    v: u32,
) -> u32 {
    picture.texel_at(
        edge_index(s(Op::ToInt, axis_place(s, u, picture.w), 0, 0), picture.w),
        edge_index(s(Op::ToInt, axis_place(s, v, picture.h), 0, 0), picture.h),
    )
}

impl APTNode {
    /// The number of nodes in the tree.
    pub open spec fn size(self) -> nat
        decreases self,
    {
        match self {
            APTNode::Picture(_, u, v) => 1 + u.size() + v.size(),
            APTNode::Apply1(_, a) => 1 + a.size(),
            APTNode::Apply2(_, a, b) => 1 + a.size() + b.size(),
            APTNode::Apply3(_, a, b, c) => 1 + a.size() + b.size() + c.size(),
            _ => 1,
        }
    }

    /// The number of nodes on the longest path from the root to a leaf.
    pub open spec fn depth(self) -> nat
        decreases self,
    {
        match self {
            APTNode::Picture(_, u, v) => 1 + vstd::math::max(u.depth() as int, v.depth() as int) as nat,
            APTNode::Apply1(_, a) => 1 + a.depth(),
            APTNode::Apply2(_, a, b) => 1 + vstd::math::max(a.depth() as int, b.depth() as int) as nat,
            APTNode::Apply3(_, a, b, c) => 1 + vstd::math::max(
                a.depth() as int,
                vstd::math::max(b.depth() as int, c.depth() as int),
            ) as nat,
            _ => 1,
        }
    }

    /// Whether the time of the frame occurs in the tree.
    pub open spec fn uses_time(self) -> bool
        decreases self,
    {
        match self {
            APTNode::T => true,
            APTNode::Picture(_, u, v) => u.uses_time() || v.uses_time(),
            APTNode::Apply1(_, a) => a.uses_time(),
            APTNode::Apply2(_, a, b) => a.uses_time() || b.uses_time(),
            APTNode::Apply3(_, a, b, c) => a.uses_time() || b.uses_time() || c.uses_time(),
            _ => false,
        }
    }

    /// Whether every bitmap that the tree samples has a name that `allowed`
    /// accepts.
    pub open spec fn names_all(self, allowed: spec_fn(Seq<char>) -> bool) -> bool
        decreases self,
    {
        match self {
            APTNode::Picture(name, u, v) => allowed(name@) && u.names_all(allowed) && v.names_all(
                allowed,
            ),
            APTNode::Apply1(_, a) => a.names_all(allowed),
            APTNode::Apply2(_, a, b) => a.names_all(allowed) && b.names_all(allowed),
            APTNode::Apply3(_, a, b, c) => a.names_all(allowed) && b.names_all(allowed)
                && c.names_all(allowed),
            _ => true,
        }
    }

    /// Whether every constant in the tree has a magnitude below one.
    pub open spec fn constants_below_one(self) -> bool
        decreases self,
    {
        match self {
            APTNode::Constant(bits) => below_one(bits),
            APTNode::Picture(_, u, v) => u.constants_below_one() && v.constants_below_one(),
            APTNode::Apply1(_, a) => a.constants_below_one(),
            APTNode::Apply2(_, a, b) => a.constants_below_one() && b.constants_below_one(),
            APTNode::Apply3(_, a, b, c) => a.constants_below_one() && b.constants_below_one()
                && c.constants_below_one(),
            _ => true,
        }
    }

    /// The value of the expression at the point `p`, where `s` is the
    /// arithmetic and `pics` holds the bitmaps.
    pub open spec fn eval(
        self,
        s: spec_fn(Op, u32, u32, u32) -> u32,
        pics: Pictures,
        p: Point,
    ) -> u32
        decreases self,
    {
        match self {
            APTNode::X => p.x,
            APTNode::Y => p.y,
            APTNode::T => p.t,
            APTNode::Width => p.w,
            APTNode::Height => p.h,
            APTNode::Constant(bits) => bits,
            APTNode::Picture(name, u, v) => sample(
                s,
                pics.named(name@),
                u.eval(s, pics, p),
                v.eval(s, pics, p),
            ),
            APTNode::Apply1(op, a) => s(op.op_of(), a.eval(s, pics, p), 0, 0),
            APTNode::Apply2(op, a, b) => s(op.op_of(), a.eval(s, pics, p), b.eval(s, pics, p), 0),
            APTNode::Apply3(op, a, b, c) => s(
                op.op_of(),
                a.eval(s, pics, p),
                b.eval(s, pics, p),
                c.eval(s, pics, p),
            ),
        }
    }

    /// A copy of the tree.
    pub fn duplicate(&self) -> (r: APTNode)
        ensures
            r == *self,
        decreases self,
    {
        match self {
            APTNode::X => APTNode::X,
            APTNode::Y => APTNode::Y,
            APTNode::T => APTNode::T,
            APTNode::Width => APTNode::Width,
            APTNode::Height => APTNode::Height,
            APTNode::Constant(bits) => APTNode::Constant(*bits),
            APTNode::Picture(name, u, v) => APTNode::Picture(
                name.clone(),
                Box::new(u.duplicate()),
                Box::new(v.duplicate()),
            ),
            APTNode::Apply1(op, a) => APTNode::Apply1(*op, Box::new(a.duplicate())),
            APTNode::Apply2(op, a, b) => APTNode::Apply2(
                *op,
                Box::new(a.duplicate()),
                Box::new(b.duplicate()),
            ),
            APTNode::Apply3(op, a, b, c) => APTNode::Apply3(
                *op,
                Box::new(a.duplicate()),
                Box::new(b.duplicate()),
                Box::new(c.duplicate()),
            ),
        }
    }

    /// Tells whether the time of the frame occurs in the tree.
    pub fn has_time(&self) -> (r: bool)
        ensures
            r == self.uses_time(),
        decreases self,
    {
        match self {
            APTNode::T => true,
            APTNode::Picture(_, u, v) => u.has_time() || v.has_time(),
            APTNode::Apply1(_, a) => a.has_time(),
            APTNode::Apply2(_, a, b) => a.has_time() || b.has_time(),
            APTNode::Apply3(_, a, b, c) => a.has_time() || b.has_time() || c.has_time(),
            _ => false,
        }
    }
}

impl Clone for APTNode {
    fn clone(&self) -> (r: Self)
        ensures
            r == *self,
    {
        self.duplicate()
    }
}

/// A tree is never deeper than it has nodes.
pub proof fn lemma_depth_at_most_size(node: APTNode)
    ensures
        1 <= node.depth() <= node.size(),
    decreases node,
{
    match node {
        APTNode::Picture(_, u, v) => {
            lemma_depth_at_most_size(*u);
            lemma_depth_at_most_size(*v);
        },
        APTNode::Apply1(_, a) => {
            lemma_depth_at_most_size(*a);
        },
        APTNode::Apply2(_, a, b) => {
            lemma_depth_at_most_size(*a);
            lemma_depth_at_most_size(*b);
        },
        APTNode::Apply3(_, a, b, c) => {
            lemma_depth_at_most_size(*a);
            lemma_depth_at_most_size(*b);
            lemma_depth_at_most_size(*c);
        },
        _ => {},
    }
}

} // verus!
