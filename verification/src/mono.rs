//! The black-and-white picture: an expression, a coordinate system, and the
//! scan that turns them into RGBA bytes.

use vstd::prelude::*;
use crate::actual_picture::{known, Pictures};
use crate::aptnode::{APTNode, Point};
use crate::coordinatesystem::{cartesian_to_polar, polar_r, polar_theta, CoordinateSystem};
use crate::ops::{alu_models, alu_total, apply, splat, Op, NEG_ONE, ONE, TWO};
use crate::stackmachine::{
    compile, lane_point, lemma_compile_depth, lemma_compile_names, lemma_missing,
    lemma_stack_balance, missing, run, Instruction, StackMachine,
};

verus! {

/// The longest side that a scan accepts: pixel indices travel through the
/// lane unit as signed 32-bit integers.
pub const MAX_SIDE: usize = 0x7FFF_FFFF;

/// Why a picture could not be made or scanned.
#[derive(Debug, PartialEq, Eq)]
pub enum PicError {
    /// A bound or a side that is zero, or bounds in the wrong order.
    InvalidParameter,
    /// The expression samples a bitmap of this name and the set holds none.
    UnknownAsset(String),
}

/// Whether a bit pattern stands for a value that is at least zero: any
/// pattern from `+0.0` up to `+inf`, or `-0.0`. No NaN is.
pub open spec fn is_nonneg(bits: u32) -> bool {
    bits <= 0x7F80_0000 || bits == 0x8000_0000
}

/// The brightness of a pixel whose expression has the value `bits`: white
/// from zero up, else black.
pub open spec fn shade_of(bits: u32) -> u8 {
    if is_nonneg(bits) {
        255
    } else {
        0
    }
}

/// Computes `shade_of`.
pub fn shade(bits: u32) -> (r: u8)
    ensures
        r == shade_of(bits),
{
    if bits <= 0x7F80_0000 || bits == 0x8000_0000 {
        255
    } else {
        0
    }
}

/// The horizontal coordinate of column `col` in an image `w` wide:
/// `-1 + (2 / (w - 1)) * col`.
pub open spec fn x_norm(s: spec_fn(Op, u32, u32, u32) -> u32, col: u32, w: u32) -> u32 {
    s(
        Op::Add,
        NEG_ONE,
        s(
            Op::Mul,
            s(Op::Div, TWO, s(Op::FromInt, (w - 1) as u32, 0, 0), 0),
            s(Op::FromInt, col, 0, 0),
            0,
        ),
        0,
    )
}

/// The vertical coordinate of row `row` in an image `h` high:
/// `(row / h) * 2 - 1`.
pub open spec fn y_norm(s: spec_fn(Op, u32, u32, u32) -> u32, row: u32, h: u32) -> u32 {
    s(
        Op::Sub,
        s(Op::Mul, s(Op::Div, s(Op::FromInt, row, 0, 0), s(Op::FromInt, h, 0, 0), 0), TWO, 0),
        ONE,
        0,
    )
}

/// What the expression reads at the pixel in column `col` of row `row`.
pub open spec fn pixel_point(
    s: spec_fn(Op, u32, u32, u32) -> u32,
    coord: CoordinateSystem,
    w: u32,
    h: u32,
    t: u32,
    col: u32,
    row: u32,
) -> Point {
    let x = x_norm(s, col, w);
    let y = y_norm(s, row, h);
    let wf = s(Op::FromInt, w, 0, 0);
    let hf = s(Op::FromInt, h, 0, 0);
    match coord {
        CoordinateSystem::Cartesian => Point { x: x, y: y, t: t, w: wf, h: hf },
        CoordinateSystem::Polar => Point {
            x: polar_r(s, x, y),
            y: polar_theta(s, x, y),
            t: t,
            w: wf,
            h: hf,
        },
    }
}

/// The bytes of the first `valid` lanes of `v`, four to a pixel: the shade
/// three times, then full opacity.
pub open spec fn batch_bytes<const N: usize>(v: [u32; N], valid: int) -> Seq<u8> {
    Seq::new(
        (4 * valid) as nat,
        |k: int|
            if k % 4 == 3 {
                255u8
            } else {
                shade_of(v[k / 4])
            },
    )
}

/// Pixel `p` of `buf` is opaque, and black or white.
pub open spec fn pixel_mono(buf: Seq<u8>, p: int) -> bool {
    &&& buf[4 * p + 3] == 255
    &&& buf[4 * p] == buf[4 * p + 1]
    &&& buf[4 * p] == buf[4 * p + 2]
    &&& (buf[4 * p] == 0 || buf[4 * p] == 255)
}

/// `buf` holds whole pixels, each opaque, and black or white.
pub open spec fn is_mono(buf: Seq<u8>) -> bool {
    &&& buf.len() % 4 == 0
    &&& forall|p: int| 0 <= p < buf.len() / 4 ==> #[trigger] pixel_mono(buf, p)
}

/// Appends the bytes of the first `valid` lanes of `v` to `out`.
pub fn write_batch<const N: usize>(out: &mut Vec<u8>, v: [u32; N], valid: usize)
    requires
        valid <= N,
        is_mono(old(out)@),
    ensures
        final(out)@ == old(out)@ + batch_bytes(v, valid as int),
        is_mono(final(out)@),
{
    let ghost start = out@;
    let mut j: usize = 0;
    while j < valid
        invariant
            j <= valid <= N,
            is_mono(start),
            out@ == start + batch_bytes(v, j as int),
            is_mono(out@),
        decreases valid - j,
    {
        let ghost before = out@;
        let c = shade(v[j]);
        out.push(c);
        out.push(c);
        out.push(c);
        out.push(255);
        proof {
            assert(out@ =~= start + batch_bytes(v, j + 1));
            assert forall|p: int| 0 <= p < out@.len() / 4 implies #[trigger] pixel_mono(out@, p) by {
                if p < before.len() / 4 {
                    assert(pixel_mono(before, p));
                }
            }
        }
        j += 1;
    }
}

/// The column that each lane of a batch starting at `base` stands for. A
/// lane past the end of the row stands for the last column.
pub open spec fn lane_column(base: int, w: int, j: int) -> int {
    if j < w - base {
        base + j
    } else {
        w - 1
    }
}

/// The columns of the batch that starts at `base`, as integers.
pub fn column_lanes<const N: usize>(base: usize, w: usize) -> (r: [u32; N])
    requires
        base < w <= MAX_SIDE,
    ensures
        forall|j: int| 0 <= j < N ==> #[trigger] r[j] == lane_column(base as int, w as int, j),
{
    let mut r: [u32; N] = splat(0);
    let mut j: usize = 0;
    while j < N
        invariant
            j <= N,
            base < w <= MAX_SIDE,
            forall|i: int| 0 <= i < j ==> #[trigger] r[i] == lane_column(base as int, w as int, i),
        decreases N - j,
    {
        let col: usize = if j < w - base {
            base + j
        } else {
            w - 1
        };
        r[j] = col as u32;
        j += 1;
    }
    r
}

/// What stays the same along one row, each as a lane.
struct RowLanes<const N: usize> {
    y: [u32; N],
    step: [u32; N],
    t: [u32; N],
    w: [u32; N],
    h: [u32; N],
}

/// A picture in black and white: white wherever its expression is at least
/// zero.
#[derive(Debug, PartialEq)]
pub struct MonoData {
    pub c: APTNode,
    pub coord: CoordinateSystem,
}

impl Clone for MonoData {
    fn clone(&self) -> (r: Self)
        ensures
            r == *self,
    {
        MonoData { c: self.c.duplicate(), coord: self.coord }
    }
}

/// A picture of any kind.
#[derive(Debug, PartialEq)]
pub enum Pic {
    Mono(MonoData),
}

impl MonoData {
    /// The value of the expression at the pixel in column `col` of row `row`
    /// of an image of `w` by `h` pixels at time `t`.
    pub open spec fn value_at(
        self,
        s: spec_fn(Op, u32, u32, u32) -> u32,
        pics: Pictures,
        w: usize,
        h: usize,
        t: u32,
        col: int,
        row: int,
    ) -> u32 {
        self.c.eval(s, pics, pixel_point(s, self.coord, w as u32, h as u32, t, col as u32, row as u32))
    }

    /// The bytes of row `row`: four to a pixel, left to right.
    pub open spec fn row_bytes(
        self,
        s: spec_fn(Op, u32, u32, u32) -> u32,
        pics: Pictures,
        w: usize,
        h: usize,
        t: u32,
        row: int,
    ) -> Seq<u8> {
        Seq::new(
            (4 * w) as nat,
            |k: int|
                if k % 4 == 3 {
                    255u8
                } else {
                    shade_of(self.value_at(s, pics, w, h, t, k / 4, row))
                },
        )
    }

    /// The bytes of the first `n` rows, top to bottom.
    pub open spec fn rows(
        self,
        s: spec_fn(Op, u32, u32, u32) -> u32,
        pics: Pictures,
        w: usize,
        h: usize,
        t: u32,
        n: nat,
    ) -> Seq<u8>
        decreases n,
    {
        if n == 0 {
            Seq::empty()
        } else {
            self.rows(s, pics, w, h, t, (n - 1) as nat) + self.row_bytes(s, pics, w, h, t, n - 1)
        }
    }

    /// The bytes of the whole image.
    pub open spec fn image(
        self,
        s: spec_fn(Op, u32, u32, u32) -> u32,
        pics: Pictures,
        w: usize,
        h: usize,
        t: u32,
    ) -> Seq<u8> {
        self.rows(s, pics, w, h, t, h as nat)
    }

    /// `lanes` holds what row `row` needs, whatever arithmetic the lane unit
    /// computes.
    spec fn row_ready<const N: usize, F: Fn(Op, [u32; N], [u32; N], [u32; N]) -> [u32; N]>(
        alu: &F,
        lanes: RowLanes<N>,
        w: usize,
        h: usize,
        t: u32,
        row: int,
    ) -> bool {
        forall|s: spec_fn(Op, u32, u32, u32) -> u32| #[trigger]
            alu_models(alu, s) ==> forall|i: int|
                0 <= i < N ==> {
                    &&& #[trigger] lanes.y[i] == y_norm(s, row as u32, h as u32)
                    &&& lanes.step[i] == s(Op::Div, TWO, s(Op::FromInt, (w - 1) as u32, 0, 0), 0)
                    &&& lanes.t[i] == t
                    &&& lanes.w[i] == s(Op::FromInt, w as u32, 0, 0)
                    &&& lanes.h[i] == s(Op::FromInt, h as u32, 0, 0)
                }
    }

    /// Computes what stays the same along row `row`.
    fn row_setup<const N: usize, F: Fn(Op, [u32; N], [u32; N], [u32; N]) -> [u32; N]>(
        w: usize,
        h: usize,
        t: u32,
        row: usize,
        alu: &F,
    ) -> (r: RowLanes<N>)
        requires
            1 <= w <= MAX_SIDE,
            1 <= h <= MAX_SIDE,
            row < h,
            alu_total(alu),
        ensures
            Self::row_ready(alu, r, w, h, t, row as int),
    {
        let zero: [u32; N] = splat(0);
        let two: [u32; N] = splat(TWO);
        let one: [u32; N] = splat(ONE);
        let wf = apply(alu, Op::FromInt, splat(w as u32), zero, zero);
        let hf = apply(alu, Op::FromInt, splat(h as u32), zero, zero);
        let rowf = apply(alu, Op::FromInt, splat(row as u32), zero, zero);
        let ratio = apply(alu, Op::Div, rowf, hf, zero);
        let doubled = apply(alu, Op::Mul, ratio, two, zero);
        let y = apply(alu, Op::Sub, doubled, one, zero);
        let span = apply(alu, Op::FromInt, splat((w - 1) as u32), zero, zero);
        let step = apply(alu, Op::Div, two, span, zero);
        RowLanes { y, step, t: splat(t), w: wf, h: hf }
    }

    /// The values of the expression for the batch of row `row` that starts
    /// at column `base`.
    fn batch_values<const N: usize, F: Fn(Op, [u32; N], [u32; N], [u32; N]) -> [u32; N]>(
        &self,
        sm: &StackMachine,
        stack: &mut Vec<[u32; N]>,
        pics: &Pictures,
        lanes: &RowLanes<N>,
        w: usize,
        h: usize,
        t: u32,
        row: usize,
        base: usize,
        alu: &F,
    ) -> (v: [u32; N])
        requires
            base < w <= MAX_SIDE,
            row < h <= MAX_SIDE,
            sm.instructions@ == compile(self.c),
            sm.wf(),
            sm.linked(*pics),
            pics.wf(),
            alu_total(alu),
            Self::row_ready(alu, *lanes, w, h, t, row as int),
        ensures
            forall|s: spec_fn(Op, u32, u32, u32) -> u32| #[trigger]
                alu_models(alu, s) ==> forall|j: int|
                    0 <= j < N && j < w - base ==> #[trigger] v[j] == self.value_at(
                        s,
                        *pics,
                        w,
                        h,
                        t,
                        base + j,
                        row as int,
                    ),
    {
        let zero: [u32; N] = splat(0);
        let neg_one: [u32; N] = splat(NEG_ONE);
        let cols: [u32; N] = column_lanes(base, w);
        let colf = apply(alu, Op::FromInt, cols, zero, zero);
        let run_x = apply(alu, Op::Mul, lanes.step, colf, zero);
        let x = apply(alu, Op::Add, neg_one, run_x, zero);
        let (px, py) = match self.coord {
            CoordinateSystem::Cartesian => (x, lanes.y),
            CoordinateSystem::Polar => cartesian_to_polar(x, lanes.y, alu),
        };
        let v = sm.execute(stack, pics, px, py, lanes.t, lanes.w, lanes.h, alu);
        proof {
            assert forall|s: spec_fn(Op, u32, u32, u32) -> u32| #[trigger]
                alu_models(alu, s) implies forall|j: int|
                0 <= j < N && j < w - base ==> #[trigger] v[j] == self.value_at(
                    s,
                    *pics,
                    w,
                    h,
                    t,
                    base + j,
                    row as int,
                ) by {
                assert forall|j: int| 0 <= j < N && j < w - base implies #[trigger] v[j]
                    == self.value_at(s, *pics, w, h, t, base + j, row as int) by {
                    let p = lane_point(px, py, lanes.t, lanes.w, lanes.h, j);
                    let q = pixel_point(
                        s,
                        self.coord,
                        w as u32,
                        h as u32,
                        t,
                        (base + j) as u32,
                        row as u32,
                    );
                    assert(cols[j] == (base + j) as u32);
                    assert(lanes.y[j] == y_norm(s, row as u32, h as u32));
                    assert(x[j] == x_norm(s, (base + j) as u32, w as u32));
                    assert(p == q);
                    lemma_stack_balance(s, *pics, p, self.c);
                    assert(run(s, *pics, p, sm.instructions@) == Some(seq![v[j]]));
                    assert(seq![v[j]][0] == v[j]);
                }
            }
        }
        v
    }

    /// Scans one row: `4 * w` bytes, four to a pixel, left to right. The row
    /// is cut into batches of `N` pixels; the last may be shorter.
    ///
    /// `sm` holds the instructions of this picture's expression. Whatever
    /// arithmetic `s` the lane unit computes lane by lane, the bytes are
    /// those of `row_bytes`, whatever `N` is.
    pub fn get_row<const N: usize, F: Fn(Op, [u32; N], [u32; N], [u32; N]) -> [u32; N]>(
        &self,
        sm: &StackMachine,
        pics: &Pictures,
        w: usize,
        h: usize,
        t: u32,
        row: usize,
        alu: &F,
    ) -> (out: Vec<u8>)
        requires
            N >= 1,
            1 <= w <= MAX_SIDE,
            row < h <= MAX_SIDE,
            sm.instructions@ == compile(self.c),
            sm.linked(*pics),
            pics.wf(),
            alu_total(alu),
        ensures
            out@.len() == 4 * w,
            is_mono(out@),
            forall|s: spec_fn(Op, u32, u32, u32) -> u32| #[trigger]
                alu_models(alu, s) ==> out@ == self.row_bytes(s, *pics, w, h, t, row as int),
    {
        proof {
            lemma_compile_depth(Seq::empty(), self.c);
        }
        let lanes: RowLanes<N> = Self::row_setup(w, h, t, row, alu);
        let mut stack: Vec<[u32; N]> = Vec::with_capacity(sm.instructions.len());
        let mut out: Vec<u8> = Vec::new();
        let mut base: usize = 0;
        while base < w
            invariant
                N >= 1,
                base <= w <= MAX_SIDE,
                row < h <= MAX_SIDE,
                sm.instructions@ == compile(self.c),
                sm.wf(),
                sm.linked(*pics),
                pics.wf(),
                alu_total(alu),
                Self::row_ready(alu, lanes, w, h, t, row as int),
                out@.len() == 4 * base,
                is_mono(out@),
                forall|s: spec_fn(Op, u32, u32, u32) -> u32| #[trigger]
                    alu_models(alu, s) ==> out@ == self.row_bytes(s, *pics, w, h, t, row as int).take(
                        4 * base,
                    ),
            decreases w - base,
        {
            let ghost before = out@;
            let v = self.batch_values(sm, &mut stack, pics, &lanes, w, h, t, row, base, alu);
            let valid: usize = if N < w - base {
                N
            } else {
                w - base
            };
            write_batch(&mut out, v, valid);
            proof {
                assert forall|s: spec_fn(Op, u32, u32, u32) -> u32| #[trigger]
                    alu_models(alu, s) implies out@ == self.row_bytes(
                    s,
                    *pics,
                    w,
                    h,
                    t,
                    row as int,
                ).take(4 * (base + valid)) by {
                    let whole = self.row_bytes(s, *pics, w, h, t, row as int);
                    assert(before == whole.take(4 * base));
                    assert forall|k: int| 0 <= k < 4 * valid implies batch_bytes(v, valid as int)[k]
                        == whole[4 * base + k] by {
                        let j = k / 4;
                        assert(v[j] == self.value_at(s, *pics, w, h, t, base + j, row as int));
                        assert((4 * base + k) / 4 == base + j);
                        assert((4 * base + k) % 4 == k % 4);
                    }
                    assert(out@ =~= whole.take(4 * (base + valid)));
                }
            }
            base += valid;
        }
        proof {
            assert forall|s: spec_fn(Op, u32, u32, u32) -> u32| #[trigger]
                alu_models(alu, s) implies out@ == self.row_bytes(s, *pics, w, h, t, row as int) by {
                let whole = self.row_bytes(s, *pics, w, h, t, row as int);
                assert(whole.take(4 * w) =~= whole);
            }
        }
        out
    }

    /// `buf` is the image, whatever arithmetic the lane unit computes.
    pub open spec fn scanned<const N: usize, F: Fn(Op, [u32; N], [u32; N], [u32; N]) -> [u32; N]>(
        self,
        alu: &F,
        pics: Pictures,
        w: usize,
        h: usize,
        t: u32,
        buf: Seq<u8>,
    ) -> bool {
        forall|s: spec_fn(Op, u32, u32, u32) -> u32| #[trigger]
            alu_models(alu, s) ==> buf == self.image(s, pics, w, h, t)
    }

    /// Checks a request before anything is scanned, and compiles the
    /// expression. A side of zero is refused first, then a bitmap that the
    /// expression samples and `pics` does not hold: the first such in the
    /// order of the instructions is named.
    pub fn prepare(&self, pics: &Pictures, w: usize, h: usize) -> (r: Result<StackMachine, PicError>)
        ensures
            match r {
                Err(PicError::InvalidParameter) => w == 0 || h == 0,
                Err(PicError::UnknownAsset(name)) => w >= 1 && h >= 1 && !self.c.names_all(
                    known(*pics),
                ) && match missing(compile(self.c), *pics) {
                    Some(k) => compile(self.c)[k] == Instruction::Picture(name),
                    None => false,
                },
                Ok(sm) => w >= 1 && h >= 1 && self.c.names_all(known(*pics)) && sm.instructions@
                    == compile(self.c) && sm.wf() && sm.linked(*pics),
            },
    {
        if w == 0 || h == 0 {
            return Err(PicError::InvalidParameter);
        }
        let sm = StackMachine::build(&self.c);
        proof {
            lemma_compile_names(Seq::empty(), self.c, known(*pics));
            lemma_missing(compile(self.c), *pics);
        }
        match sm.first_missing(pics) {
            Some(name) => Err(PicError::UnknownAsset(name)),
            None => Ok(sm),
        }
    }

    /// Scans the picture at time `t` into `w * h * 4` bytes: RGBA, row by
    /// row from the top, `N` pixels to a batch.
    ///
    /// A side of zero is refused, then a bitmap that the expression samples
    /// and `pics` does not hold; nothing is scanned in either case.
    pub fn get_rgba8<const N: usize, F: Fn(Op, [u32; N], [u32; N], [u32; N]) -> [u32; N]>(
        &self,
        pics: &Pictures,
        w: usize,
        h: usize,
        t: u32,
        alu: &F,
    ) -> (r: Result<Vec<u8>, PicError>)
        requires
            N >= 1,
            w <= MAX_SIDE,
            h <= MAX_SIDE,
            pics.wf(),
            alu_total(alu),
        ensures
            match r {
                Err(PicError::InvalidParameter) => w == 0 || h == 0,
                Err(PicError::UnknownAsset(name)) => w >= 1 && h >= 1 && !self.c.names_all(
                    known(*pics),
                ) && match missing(compile(self.c), *pics) {
                    Some(k) => compile(self.c)[k] == Instruction::Picture(name),
                    None => false,
                },
                Ok(buf) => w >= 1 && h >= 1 && self.c.names_all(known(*pics)) && buf@.len() == w
                    * h * 4 && is_mono(buf@) && self.scanned(alu, *pics, w, h, t, buf@),
            },
    {
        let sm = match self.prepare(pics, w, h) {
            Ok(sm) => sm,
            Err(e) => {
                return Err(e);
            },
        };
        let mut buf: Vec<u8> = Vec::new();
        let mut row: usize = 0;
        while row < h
            invariant
                N >= 1,
                1 <= w <= MAX_SIDE,
                row <= h <= MAX_SIDE,
                sm.instructions@ == compile(self.c),
                sm.linked(*pics),
                pics.wf(),
                alu_total(alu),
                buf@.len() == w * row * 4,
                is_mono(buf@),
                forall|s: spec_fn(Op, u32, u32, u32) -> u32| #[trigger]
                    alu_models(alu, s) ==> buf@ == self.rows(s, *pics, w, h, t, row as nat),
            decreases h - row,
        {
            let ghost before = buf@;
            let mut line = self.get_row(&sm, pics, w, h, t, row, alu);
            let ghost added = line@;
            buf.append(&mut line);
            proof {
                assert(w * (row + 1) * 4 == w * row * 4 + 4 * w) by (nonlinear_arith);
                lemma_mono_concat(before, added);
            }
            row += 1;
        }
        proof {
            assert(w * h * 4 == w * row * 4);
        }
        Ok(buf)
    }
}

/// Whole pixels after whole pixels are whole pixels.
pub proof fn lemma_mono_concat(a: Seq<u8>, b: Seq<u8>)
    requires
        is_mono(a),
        is_mono(b),
    ensures
        is_mono(a + b),
{
    let c = a + b;
    assert forall|p: int| 0 <= p < c.len() / 4 implies #[trigger] pixel_mono(c, p) by {
        if p < a.len() / 4 {
            assert(pixel_mono(a, p));
        } else {
            let q = p - a.len() / 4;
            assert(pixel_mono(b, q));
            assert(c[4 * p] == b[4 * q]);
            assert(c[4 * p + 1] == b[4 * q + 1]);
            assert(c[4 * p + 2] == b[4 * q + 2]);
            assert(c[4 * p + 3] == b[4 * q + 3]);
        }
    }
}

/// The byte of `buf` at place `k` of row `row`, in an image `w` wide.
pub open spec fn byte_at(buf: Seq<u8>, w: usize, row: int, k: int) -> u8 {
    buf[4 * w * row + k]
}

/// The first `n` rows take `4 * w` bytes each, and each row stands at its
/// own place among them.
pub proof fn lemma_rows_index(
    pic: MonoData,
    s: spec_fn(Op, u32, u32, u32) -> u32,
    pics: Pictures,
    w: usize,
    h: usize,
    t: u32,
    n: nat,
    row: int,
    k: int,
)
    requires
        0 <= row < n,
        0 <= k < 4 * w,
    ensures
        pic.rows(s, pics, w, h, t, n).len() == 4 * w * n,
        0 <= 4 * w * row + k < 4 * w * n,
        byte_at(pic.rows(s, pics, w, h, t, n), w, row, k) == pic.row_bytes(s, pics, w, h, t, row)[k],
    decreases n,
{
    let front = pic.rows(s, pics, w, h, t, (n - 1) as nat);
    let line = pic.row_bytes(s, pics, w, h, t, n - 1);
    lemma_rows_len(pic, s, pics, w, h, t, (n - 1) as nat);
    assert(4 * w * n == 4 * w * (n - 1) + 4 * w) by (nonlinear_arith);
    assert(0 <= 4 * w * row && 4 * w * row + 4 * w <= 4 * w * n) by (nonlinear_arith)
        requires
            0 <= row < n,
    ;
    if row == n - 1 {
        assert((front + line)[front.len() + k] == line[k]);
    } else {
        lemma_rows_index(pic, s, pics, w, h, t, (n - 1) as nat, row, k);
        assert((front + line)[4 * w * row + k] == front[4 * w * row + k]);
    }
}

/// The first `n` rows take `4 * w` bytes each.
pub proof fn lemma_rows_len(
    pic: MonoData,
    s: spec_fn(Op, u32, u32, u32) -> u32,
    pics: Pictures,
    w: usize,
    h: usize,
    t: u32,
    n: nat,
)
    ensures
        pic.rows(s, pics, w, h, t, n).len() == 4 * w * n,
    decreases n,
{
    if n > 0 {
        lemma_rows_len(pic, s, pics, w, h, t, (n - 1) as nat);
        assert(4 * w * n == 4 * w * (n - 1) + 4 * w) by (nonlinear_arith);
    } else {
        assert(4 * w * n == 0) by (nonlinear_arith)
            requires
                n == 0,
        ;
    }
}

/// Every pixel of the image stands at its own four bytes: those of the
/// pixel in column `col` of row `row` start at `(row * w + col) * 4`, hold
/// the shade of the expression at that pixel three times and then full
/// opacity, and the image has no other bytes. This holds for every width
/// and height from one on.
pub proof fn lemma_image_pixel(
    pic: MonoData,
    s: spec_fn(Op, u32, u32, u32) -> u32,
    pics: Pictures,
    w: usize,
    h: usize,
    t: u32,
    row: int,
    col: int,
    channel: int,
)
    requires
        0 <= row < h,
        0 <= col < w,
        0 <= channel < 4,
    ensures
        pic.image(s, pics, w, h, t).len() == w * h * 4,
        0 <= (row * w + col) * 4 + channel < w * h * 4,
        pic.image(s, pics, w, h, t)[(row * w + col) * 4 + channel] == if channel == 3 {
            255u8
        } else {
            shade_of(pic.value_at(s, pics, w, h, t, col, row))
        },
{
    let k = 4 * col + channel;
    lemma_rows_index(pic, s, pics, w, h, t, h as nat, row, k);
    assert((row * w + col) * 4 + channel == 4 * w * row + k) by (nonlinear_arith)
        requires
            k == 4 * col + channel,
    ;
    assert(w * h * 4 == 4 * w * h) by (nonlinear_arith);
}

/// A picture whose expression is one constant has that constant's shade at
/// every pixel, at any size and time and in either coordinate system.
pub proof fn lemma_constant_image(
    pic: MonoData,
    s: spec_fn(Op, u32, u32, u32) -> u32,
    pics: Pictures,
    w: usize,
    h: usize,
    t: u32,
    bits: u32,
    row: int,
    col: int,
    channel: int,
)
    requires
        pic.c == APTNode::Constant(bits),
        0 <= row < h,
        0 <= col < w,
        0 <= channel < 4,
    ensures
        pic.image(s, pics, w, h, t)[(row * w + col) * 4 + channel] == if channel == 3 {
            255u8
        } else {
            shade_of(bits)
        },
{
    lemma_image_pixel(pic, s, pics, w, h, t, row, col, channel);
}

/// Rows scanned one by one, in any order and by whomever, make the image
/// once each stands at its place: a buffer that holds the bytes of every
/// row at `4 * w * row` is the image.
pub proof fn lemma_rows_make_image(
    pic: MonoData,
    s: spec_fn(Op, u32, u32, u32) -> u32,
    pics: Pictures,
    w: usize,
    h: usize,
    t: u32,
    buf: Seq<u8>,
)
    requires
        buf.len() == 4 * w * h,
        forall|row: int, k: int|
            0 <= row < h && 0 <= k < 4 * w ==> #[trigger] byte_at(buf, w, row, k) == pic.row_bytes(
                s,
                pics,
                w,
                h,
                t,
                row,
            )[k],
    ensures
        buf == pic.image(s, pics, w, h, t),
{
    let image = pic.image(s, pics, w, h, t);
    lemma_rows_len(pic, s, pics, w, h, t, h as nat);
    assert forall|i: int| 0 <= i < buf.len() implies buf[i] == image[i] by {
        let side = 4 * w;
        assert(side > 0) by (nonlinear_arith)
            requires
                0 <= i < 4 * w * h,
                side == 4 * w,
        ;
        let row = i / side;
        let k = i % side;
        vstd::arithmetic::div_mod::lemma_fundamental_div_mod(i, side);
        vstd::arithmetic::div_mod::lemma_div_pos_is_pos(i, side);
        assert(row < h) by (nonlinear_arith)
            requires
                i == side * row + k,
                0 <= k < side,
                i < side * h,
        ;
        lemma_rows_index(pic, s, pics, w, h, t, h as nat, row, k);
        assert(byte_at(buf, w, row, k) == pic.row_bytes(s, pics, w, h, t, row)[k]);
        assert(4 * w * row + k == i) by (nonlinear_arith)
            requires
                i == side * row + k,
                side == 4 * w,
        ;
    }
    assert(buf =~= image);
}

/// Two scans of one picture at one size and time give the same bytes,
/// whatever the number of lanes of each, provided both lane units compute
/// the same arithmetic lane by lane.
pub proof fn lemma_lane_count_invariance<
    const N: usize,
    const M: usize,
    F: Fn(Op, [u32; N], [u32; N], [u32; N]) -> [u32; N],
    G: Fn(Op, [u32; M], [u32; M], [u32; M]) -> [u32; M],
>(
    pic: MonoData,
    narrow: &F,
    wide: &G,
    s: spec_fn(Op, u32, u32, u32) -> u32,
    pics: Pictures,
    w: usize,
    h: usize,
    t: u32,
    a: Seq<u8>,
    b: Seq<u8>,
)
    requires
        alu_models(narrow, s),
        alu_models(wide, s),
        pic.scanned(narrow, pics, w, h, t, a),
        pic.scanned(wide, pics, w, h, t, b),
    ensures
        a == b,
{
}

impl Pic {
    /// Scans the picture, whatever its kind: see `MonoData::get_rgba8`.
    pub fn get_rgba8<const N: usize, F: Fn(Op, [u32; N], [u32; N], [u32; N]) -> [u32; N]>(
        &self,
        pics: &Pictures,
        w: usize,
        h: usize,
        t: u32,
        alu: &F,
    ) -> (r: Result<Vec<u8>, PicError>)
        requires
            N >= 1,
            w <= MAX_SIDE,
            h <= MAX_SIDE,
            pics.wf(),
            alu_total(alu),
        ensures
            match (*self, r) {
                (Pic::Mono(m), Err(PicError::InvalidParameter)) => w == 0 || h == 0,
                (Pic::Mono(m), Err(PicError::UnknownAsset(name))) => w >= 1 && h >= 1
                    && !m.c.names_all(known(*pics)) && match missing(compile(m.c), *pics) {
                    Some(k) => compile(m.c)[k] == Instruction::Picture(name),
                    None => false,
                },
                (Pic::Mono(m), Ok(buf)) => w >= 1 && h >= 1 && m.c.names_all(known(*pics))
                    && buf@.len() == w * h * 4 && is_mono(buf@) && m.scanned(
                    alu,
                    *pics,
                    w,
                    h,
                    t,
                    buf@,
                ),
            },
    {
        match self {
            Pic::Mono(m) => m.get_rgba8(pics, w, h, t, alu),
        }
    }
}

} // verus!
