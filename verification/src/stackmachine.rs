//! The linear form of an expression and the machine that runs it, one lane of
//! pixels at a time.

use vstd::prelude::*;
use crate::actual_picture::{clamp_to_edge, edge_index, known, ActualPicture, Pictures};
use crate::aptnode::{axis_place, sample, APTNode, Binary, Point, Ternary, Unary};
use crate::ops::{alu_models, alu_total, apply, splat, Op, HALF, ONE};

verus! {

/// One step of the machine. The first six push a value; the others take
/// their operands off the stack and push one result.
#[derive(Debug, PartialEq, Eq)]
pub enum Instruction {
    X,
    Y,
    T,
    Width,
    Height,
    Constant(u32),
    /// Samples the named bitmap at the two coordinates on top of the stack.
    Picture(String),
    Apply1(Unary),
    Apply2(Binary),
    Apply3(Ternary),
}

/// How many operands an instruction takes off the stack.
pub open spec fn pops(ins: Instruction) -> nat {
    match ins {
        Instruction::Picture(_) => 2,
        Instruction::Apply1(_) => 1,
        Instruction::Apply2(_) => 2,
        Instruction::Apply3(_) => 3,
        _ => 0,
    }
}

/// `pre` followed by the instructions of an expression: those of each
/// sub-expression in turn, then the one of the node itself.
pub open spec fn compile_onto(pre: Seq<Instruction>, node: APTNode) -> Seq<Instruction>
    decreases node,
{
    match node {
        APTNode::X => pre.push(Instruction::X),
        APTNode::Y => pre.push(Instruction::Y),
        APTNode::T => pre.push(Instruction::T),
        APTNode::Width => pre.push(Instruction::Width),
        APTNode::Height => pre.push(Instruction::Height),
        APTNode::Constant(bits) => pre.push(Instruction::Constant(bits)),
        APTNode::Picture(name, u, v) => compile_onto(compile_onto(pre, *u), *v).push(
            Instruction::Picture(name),
        ),
        APTNode::Apply1(op, a) => compile_onto(pre, *a).push(Instruction::Apply1(op)),
        APTNode::Apply2(op, a, b) => compile_onto(compile_onto(pre, *a), *b).push(
            Instruction::Apply2(op),
        ),
        APTNode::Apply3(op, a, b, c) => compile_onto(
            compile_onto(compile_onto(pre, *a), *b),
            *c,
        ).push(Instruction::Apply3(op)),
    }
}

/// The instructions of an expression, children before parents.
pub open spec fn compile(node: APTNode) -> Seq<Instruction> {
    compile_onto(Seq::empty(), node)
}

/// Whether `allowed` accepts the name that `ins` samples, if it samples one.
pub open spec fn name_ok(ins: Instruction, allowed: spec_fn(Seq<char>) -> bool) -> bool {
    match ins {
        Instruction::Picture(name) => allowed(name@),
        _ => true,
    }
}

/// The height of the stack after `prog` has run from an empty stack, or
/// `None` where an instruction finds too few operands.
pub open spec fn depth(prog: Seq<Instruction>) -> Option<nat>
    decreases prog.len(),
{
    if prog.len() == 0 {
        Some(0)
    } else {
        match depth(prog.drop_last()) {
            Some(d) => if d >= pops(prog.last()) {
                Some((d - pops(prog.last()) + 1) as nat)
            } else {
                None
            },
            None => None,
        }
    }
}

/// The value that `ins` pushes at the point `p` when it finds the stack `st`.
pub open spec fn produces(
    s: spec_fn(Op, u32, u32, u32) -> u32,
    pics: Pictures,
    p: Point,
    ins: Instruction,
    st: Seq<u32>,
) -> u32 {
    let n = st.len() as int;
    match ins {
        Instruction::X => p.x,
        Instruction::Y => p.y,
        Instruction::T => p.t,
        Instruction::Width => p.w,
        Instruction::Height => p.h,
        Instruction::Constant(bits) => bits,
        Instruction::Picture(name) => sample(s, pics.named(name@), st[n - 2], st[n - 1]),
        Instruction::Apply1(op) => s(op.op_of(), st[n - 1], 0, 0),
        Instruction::Apply2(op) => s(op.op_of(), st[n - 2], st[n - 1], 0),
        Instruction::Apply3(op) => s(op.op_of(), st[n - 3], st[n - 2], st[n - 1]),
    }
}

/// The stack after `ins` has run on `st`, or `None` where `st` holds too few
/// operands.
pub open spec fn step(
    s: spec_fn(Op, u32, u32, u32) -> u32,
    pics: Pictures,
    p: Point,
    ins: Instruction,
    st: Seq<u32>,
) -> Option<Seq<u32>> {
    if st.len() >= pops(ins) {
        Some(st.take(st.len() - pops(ins)).push(produces(s, pics, p, ins, st)))
    } else {
        None
    }
}

/// The stack after `prog` has run from an empty stack at the point `p`.
pub open spec fn run(
    s: spec_fn(Op, u32, u32, u32) -> u32,
    pics: Pictures,
    p: Point,
    prog: Seq<Instruction>,
) -> Option<Seq<u32>>
    decreases prog.len(),
{
    if prog.len() == 0 {
        Some(Seq::empty())
    } else {
        match run(s, pics, p, prog.drop_last()) {
            Some(st) => step(s, pics, p, prog.last(), st),
            None => None,
        }
    }
}

/// Whether every bitmap that `prog` samples has a name that `allowed` accepts.
pub open spec fn names_ok(prog: Seq<Instruction>, allowed: spec_fn(Seq<char>) -> bool) -> bool {
    forall|k: int| 0 <= k < prog.len() ==> name_ok(#[trigger] prog[k], allowed)
}

/// Where the first instruction stands that samples a bitmap which `pics`
/// does not hold.
pub open spec fn missing(prog: Seq<Instruction>, pics: Pictures) -> Option<int>
    decreases prog.len(),
{
    if prog.len() == 0 {
        None
    } else {
        match missing(prog.drop_last(), pics) {
            Some(k) => Some(k),
            None => if name_ok(prog.last(), known(pics)) {
                None
            } else {
                Some(prog.len() - 1)
            },
        }
    }
}

/// `missing` finds the first unknown name, and finds none only where every
/// name is known.
pub proof fn lemma_missing(prog: Seq<Instruction>, pics: Pictures)
    ensures
        match missing(prog, pics) {
            Some(k) => 0 <= k < prog.len() && !name_ok(prog[k], known(pics)) && names_ok(
                prog.take(k),
                known(pics),
            ),
            None => names_ok(prog, known(pics)),
        },
    decreases prog.len(),
{
    if prog.len() > 0 {
        let front = prog.drop_last();
        lemma_missing(front, pics);
        match missing(front, pics) {
            Some(k) => {
                assert(front[k] == prog[k]);
                assert(front.take(k) =~= prog.take(k));
            },
            None => {
                assert(prog.take(prog.len() - 1) =~= front);
                assert forall|j: int| 0 <= j < prog.len() && name_ok(
                    prog.last(),
                    known(pics),
                ) implies name_ok(#[trigger] prog[j], known(pics)) by {
                    if j < front.len() {
                        assert(front[j] == prog[j]);
                    }
                }
            },
        }
    }
}

/// An unknown name at `k` with none before it is what `missing` returns.
pub proof fn lemma_missing_is(prog: Seq<Instruction>, pics: Pictures, k: int)
    requires
        0 <= k < prog.len(),
        !name_ok(prog[k], known(pics)),
        names_ok(prog.take(k), known(pics)),
    ensures
        missing(prog, pics) == Some(k),
{
    lemma_missing(prog, pics);
    match missing(prog, pics) {
        Some(j) => {
            if j < k {
                assert(prog.take(k)[j] == prog[j]);
            }
            if k < j {
                assert(prog.take(j)[k] == prog[k]);
            }
        },
        None => {},
    }
}

/// An expression has one instruction per node.
pub proof fn lemma_compile_len(pre: Seq<Instruction>, node: APTNode)
    ensures
        compile_onto(pre, node).len() == pre.len() + node.size(),
    decreases node,
{
    match node {
        APTNode::Picture(_, u, v) => {
            lemma_compile_len(pre, *u);
            lemma_compile_len(compile_onto(pre, *u), *v);
        },
        APTNode::Apply1(_, a) => {
            lemma_compile_len(pre, *a);
        },
        APTNode::Apply2(_, a, b) => {
            lemma_compile_len(pre, *a);
            lemma_compile_len(compile_onto(pre, *a), *b);
        },
        APTNode::Apply3(_, a, b, c) => {
            lemma_compile_len(pre, *a);
            lemma_compile_len(compile_onto(pre, *a), *b);
            lemma_compile_len(compile_onto(compile_onto(pre, *a), *b), *c);
        },
        _ => {},
    }
}

/// One more instruction moves the height by what it takes and gives.
pub proof fn lemma_depth_push(prog: Seq<Instruction>, ins: Instruction)
    ensures
        depth(prog.push(ins)) == match depth(prog) {
            Some(d) => if d >= pops(ins) {
                Some((d - pops(ins) + 1) as nat)
            } else {
                None
            },
            None => None,
        },
{
    assert(prog.push(ins).drop_last() =~= prog);
}

/// One more instruction is one more step.
pub proof fn lemma_run_push(
    s: spec_fn(Op, u32, u32, u32) -> u32,
    pics: Pictures,
    p: Point,
    prog: Seq<Instruction>,
    ins: Instruction,
)
    ensures
        run(s, pics, p, prog.push(ins)) == match run(s, pics, p, prog) {
            Some(st) => step(s, pics, p, ins, st),
            None => None,
        },
{
    assert(prog.push(ins).drop_last() =~= prog);
}

/// Run after any instructions that leave the stack at some height, the
/// instructions of an expression never find too few operands and leave the
/// stack one higher.
pub proof fn lemma_compile_depth(pre: Seq<Instruction>, node: APTNode)
    requires
        depth(pre) is Some,
    ensures
        depth(compile_onto(pre, node)) == Some(depth(pre)->0 + 1),
    decreases node,
{
    match node {
        APTNode::Picture(name, u, v) => {
            lemma_compile_depth(pre, *u);
            lemma_compile_depth(compile_onto(pre, *u), *v);
            lemma_depth_push(compile_onto(compile_onto(pre, *u), *v), Instruction::Picture(name));
        },
        APTNode::Apply1(op, a) => {
            lemma_compile_depth(pre, *a);
            lemma_depth_push(compile_onto(pre, *a), Instruction::Apply1(op));
        },
        APTNode::Apply2(op, a, b) => {
            lemma_compile_depth(pre, *a);
            lemma_compile_depth(compile_onto(pre, *a), *b);
            lemma_depth_push(compile_onto(compile_onto(pre, *a), *b), Instruction::Apply2(op));
        },
        APTNode::Apply3(op, a, b, c) => {
            lemma_compile_depth(pre, *a);
            lemma_compile_depth(compile_onto(pre, *a), *b);
            lemma_compile_depth(compile_onto(compile_onto(pre, *a), *b), *c);
            lemma_depth_push(
                compile_onto(compile_onto(compile_onto(pre, *a), *b), *c),
                Instruction::Apply3(op),
            );
        },
        _ => {
            lemma_depth_push(pre, compile_onto(pre, node).last());
        },
    }
}

/// An instruction that finds its operands `vals` on top of `st` leaves `st`
/// with what it produces on top.
pub proof fn lemma_run_last(
    s: spec_fn(Op, u32, u32, u32) -> u32,
    pics: Pictures,
    p: Point,
    body: Seq<Instruction>,
    ins: Instruction,
    st: Seq<u32>,
    vals: Seq<u32>,
)
    requires
        run(s, pics, p, body) == Some(st + vals),
        vals.len() == pops(ins),
    ensures
        run(s, pics, p, body.push(ins)) == Some(st.push(produces(s, pics, p, ins, st + vals))),
{
    lemma_run_push(s, pics, p, body, ins);
    assert((st + vals).take((st + vals).len() - pops(ins)) =~= st);
}

/// Run after any instructions that leave the stack `st`, the instructions of
/// an expression leave `st` with the value of the expression on top.
pub proof fn lemma_compile_run(
    s: spec_fn(Op, u32, u32, u32) -> u32,
    pics: Pictures,
    p: Point,
    pre: Seq<Instruction>,
    node: APTNode,
)
    requires
        run(s, pics, p, pre) is Some,
    ensures
        run(s, pics, p, compile_onto(pre, node)) == Some(
            run(s, pics, p, pre)->0.push(node.eval(s, pics, p)),
        ),
    decreases node,
{
    let st = run(s, pics, p, pre)->0;
    let n = st.len() as int;
    match node {
        APTNode::Picture(name, u, v) => {
            let (eu, ev) = (u.eval(s, pics, p), v.eval(s, pics, p));
            let vals = seq![eu, ev];
            lemma_compile_run(s, pics, p, pre, *u);
            lemma_compile_run(s, pics, p, compile_onto(pre, *u), *v);
            assert(st.push(eu).push(ev) =~= st + vals);
            lemma_run_last(
                s,
                pics,
                p,
                compile_onto(compile_onto(pre, *u), *v),
                Instruction::Picture(name),
                st,
                vals,
            );
            assert((st + vals)[n] == eu && (st + vals)[n + 1] == ev);
        },
        APTNode::Apply1(op, a) => {
            let ea = a.eval(s, pics, p);
            let vals = seq![ea];
            lemma_compile_run(s, pics, p, pre, *a);
            assert(st.push(ea) =~= st + vals);
            lemma_run_last(s, pics, p, compile_onto(pre, *a), Instruction::Apply1(op), st, vals);
            assert((st + vals)[n] == ea);
        },
        APTNode::Apply2(op, a, b) => {
            let (ea, eb) = (a.eval(s, pics, p), b.eval(s, pics, p));
            let vals = seq![ea, eb];
            lemma_compile_run(s, pics, p, pre, *a);
            lemma_compile_run(s, pics, p, compile_onto(pre, *a), *b);
            assert(st.push(ea).push(eb) =~= st + vals);
            lemma_run_last(
                s,
                pics,
                p,
                compile_onto(compile_onto(pre, *a), *b),
                Instruction::Apply2(op),
                st,
                vals,
            );
            assert((st + vals)[n] == ea && (st + vals)[n + 1] == eb);
        },
        APTNode::Apply3(op, a, b, c) => {
            let (ea, eb, ec) = (a.eval(s, pics, p), b.eval(s, pics, p), c.eval(s, pics, p));
            let vals = seq![ea, eb, ec];
            lemma_compile_run(s, pics, p, pre, *a);
            lemma_compile_run(s, pics, p, compile_onto(pre, *a), *b);
            lemma_compile_run(s, pics, p, compile_onto(compile_onto(pre, *a), *b), *c);
            assert(st.push(ea).push(eb).push(ec) =~= st + vals);
            lemma_run_last(
                s,
                pics,
                p,
                compile_onto(compile_onto(compile_onto(pre, *a), *b), *c),
                Instruction::Apply3(op),
                st,
                vals,
            );
            assert((st + vals)[n] == ea && (st + vals)[n + 1] == eb && (st + vals)[n + 2] == ec);
        },
        _ => {
            let vals = Seq::<u32>::empty();
            assert(st =~= st + vals);
            lemma_run_last(s, pics, p, pre, compile_onto(pre, node).last(), st, vals);
        },
    }
}

/// The instructions of any expression, run from an empty stack, never find
/// too few operands, and leave exactly one value, which is the value of the
/// expression.
pub proof fn lemma_stack_balance(
    s: spec_fn(Op, u32, u32, u32) -> u32,
    pics: Pictures,
    p: Point,
    node: APTNode,
)
    ensures
        depth(compile(node)) == Some(1nat),
        run(s, pics, p, compile(node)) == Some(seq![node.eval(s, pics, p)]),
{
    let pre = Seq::<Instruction>::empty();
    lemma_compile_depth(pre, node);
    lemma_compile_run(s, pics, p, pre, node);
    assert(Seq::<u32>::empty().push(node.eval(s, pics, p)) =~= seq![node.eval(s, pics, p)]);
}

/// A program that never finds too few operands has no prefix that does.
pub proof fn lemma_depth_prefix(prog: Seq<Instruction>, k: int)
    requires
        depth(prog) is Some,
        0 <= k <= prog.len(),
    ensures
        depth(prog.take(k)) is Some,
    decreases prog.len(),
{
    if k == prog.len() {
        assert(prog.take(k) =~= prog);
    } else {
        assert(prog.drop_last().take(k) =~= prog.take(k));
        lemma_depth_prefix(prog.drop_last(), k);
    }
}

/// One more instruction samples one more name at most.
pub proof fn lemma_names_push(
    prog: Seq<Instruction>,
    ins: Instruction,
    allowed: spec_fn(Seq<char>) -> bool,
)
    ensures
        names_ok(prog.push(ins), allowed) == (names_ok(prog, allowed) && name_ok(ins, allowed)),
{
    let more = prog.push(ins);
    if names_ok(more, allowed) {
        assert(more[prog.len() as int] == ins);
        assert forall|k: int| 0 <= k < prog.len() implies name_ok(#[trigger] prog[k], allowed) by {
            assert(more[k] == prog[k]);
        }
    }
}

/// The names that the instructions of an expression sample are those that
/// the expression samples.
pub proof fn lemma_compile_names(
    pre: Seq<Instruction>,
    node: APTNode,
    allowed: spec_fn(Seq<char>) -> bool,
)
    ensures
        names_ok(compile_onto(pre, node), allowed) == (names_ok(pre, allowed) && node.names_all(
            allowed,
        )),
    decreases node,
{
    match node {
        APTNode::Picture(name, u, v) => {
            lemma_compile_names(pre, *u, allowed);
            lemma_compile_names(compile_onto(pre, *u), *v, allowed);
            lemma_names_push(
                compile_onto(compile_onto(pre, *u), *v),
                Instruction::Picture(name),
                allowed,
            );
        },
        APTNode::Apply1(op, a) => {
            lemma_compile_names(pre, *a, allowed);
            lemma_names_push(compile_onto(pre, *a), Instruction::Apply1(op), allowed);
        },
        APTNode::Apply2(op, a, b) => {
            lemma_compile_names(pre, *a, allowed);
            lemma_compile_names(compile_onto(pre, *a), *b, allowed);
            lemma_names_push(
                compile_onto(compile_onto(pre, *a), *b),
                Instruction::Apply2(op),
                allowed,
            );
        },
        APTNode::Apply3(op, a, b, c) => {
            lemma_compile_names(pre, *a, allowed);
            lemma_compile_names(compile_onto(pre, *a), *b, allowed);
            lemma_compile_names(compile_onto(compile_onto(pre, *a), *b), *c, allowed);
            lemma_names_push(
                compile_onto(compile_onto(compile_onto(pre, *a), *b), *c),
                Instruction::Apply3(op),
                allowed,
            );
        },
        _ => {
            lemma_names_push(pre, compile_onto(pre, node).last(), allowed);
        },
    }
}

/// The point that lane `i` of a batch stands for.
pub open spec fn lane_point<const N: usize>(
    x: [u32; N],
    y: [u32; N],
    t: [u32; N],
    w: [u32; N],
    h: [u32; N],
    i: int,
) -> Point {
    Point { x: x[i], y: y[i], t: t[i], w: w[i], h: h[i] }
}

/// What lane `i` sees of a stack of lanes.
pub open spec fn column<const N: usize>(st: Seq<[u32; N]>, i: int) -> Seq<u32> {
    Seq::new(st.len(), |k: int| st[k][i])
}

/// In every lane, `st` is the stack that `prog` leaves at that lane's point.
pub open spec fn lanes_run<const N: usize>(
    s: spec_fn(Op, u32, u32, u32) -> u32,
    pics: Pictures,
    prog: Seq<Instruction>,
    x: [u32; N],
    y: [u32; N],
    t: [u32; N],
    w: [u32; N],
    h: [u32; N],
    st: Seq<[u32; N]>,
) -> bool {
    forall|i: int|
        0 <= i < N ==> run(s, pics, lane_point(x, y, t, w, h, i), prog) == Some(
            #[trigger] column(st, i),
        )
}

/// Where every lane of `pushed` is what the next instruction produces in
/// that lane, the stack of lanes follows the program one step further.
proof fn lemma_lanes_step<const N: usize>(
    s: spec_fn(Op, u32, u32, u32) -> u32,
    pics: Pictures,
    prog: Seq<Instruction>,
    pc: int,
    x: [u32; N],
    y: [u32; N],
    t: [u32; N],
    w: [u32; N],
    h: [u32; N],
    before: Seq<[u32; N]>,
    pushed: [u32; N],
)
    requires
        0 <= pc < prog.len(),
        before.len() >= pops(prog[pc]),
        lanes_run(s, pics, prog.take(pc), x, y, t, w, h, before),
        forall|i: int|
            0 <= i < N ==> #[trigger] pushed[i] == produces(
                s,
                pics,
                lane_point(x, y, t, w, h, i),
                prog[pc],
                column(before, i),
            ),
    ensures
        lanes_run(
            s,
            pics,
            prog.take(pc + 1),
            x,
            y,
            t,
            w,
            h,
            before.take(before.len() - pops(prog[pc])).push(pushed),
        ),
{
    let after = before.take(before.len() - pops(prog[pc])).push(pushed);
    assert(prog.take(pc + 1).drop_last() =~= prog.take(pc));
    assert(prog.take(pc + 1).last() == prog[pc]);
    assert forall|i: int| 0 <= i < N implies run(
        s,
        pics,
        lane_point(x, y, t, w, h, i),
        prog.take(pc + 1),
    ) == Some(#[trigger] column(after, i)) by {
        let p = lane_point(x, y, t, w, h, i);
        let st = column(before, i);
        assert(run(s, pics, p, prog.take(pc)) == Some(st));
        assert(column(after, i) =~= st.take(st.len() - pops(prog[pc])).push(pushed[i]));
    }
}

/// The instructions of one expression, ready to run.
pub struct StackMachine {
    pub instructions: Vec<Instruction>,
}

/// Appends the instructions of `node` to `out`.
fn emit(node: &APTNode, out: &mut Vec<Instruction>)
    ensures
        final(out)@ == compile_onto(old(out)@, *node),
    decreases node,
{
    match node {
        APTNode::X => out.push(Instruction::X),
        APTNode::Y => out.push(Instruction::Y),
        APTNode::T => out.push(Instruction::T),
        APTNode::Width => out.push(Instruction::Width),
        APTNode::Height => out.push(Instruction::Height),
        APTNode::Constant(bits) => out.push(Instruction::Constant(*bits)),
        APTNode::Picture(name, u, v) => {
            emit(u, out);
            emit(v, out);
            out.push(Instruction::Picture(name.clone()));
        },
        APTNode::Apply1(op, a) => {
            emit(a, out);
            out.push(Instruction::Apply1(*op));
        },
        APTNode::Apply2(op, a, b) => {
            emit(a, out);
            emit(b, out);
            out.push(Instruction::Apply2(*op));
        },
        APTNode::Apply3(op, a, b, c) => {
            emit(a, out);
            emit(b, out);
            emit(c, out);
            out.push(Instruction::Apply3(*op));
        },
    }
}

/// The integer place on an axis of `extent` pixels of each coordinate in `u`.
fn axis_lanes<const N: usize, F: Fn(Op, [u32; N], [u32; N], [u32; N]) -> [u32; N]>(
    alu: &F,
    u: [u32; N],
    extent: u16,
) -> (r: [u32; N])
    requires
        alu_total(alu),
    ensures
        forall|s: spec_fn(Op, u32, u32, u32) -> u32| #[trigger]
            alu_models(alu, s) ==> forall|i: int|
                0 <= i < N ==> #[trigger] r[i] == s(Op::ToInt, axis_place(s, u[i], extent), 0, 0),
{
    let zero: [u32; N] = splat(0);
    let one: [u32; N] = splat(ONE);
    let half: [u32; N] = splat(HALF);
    let side: [u32; N] = splat(extent as u32);
    let sidef = apply(alu, Op::FromInt, side, zero, zero);
    let shifted = apply(alu, Op::Add, u, one, zero);
    let unit = apply(alu, Op::Mul, shifted, half, zero);
    let place = apply(alu, Op::Mul, unit, sidef, zero);
    apply(alu, Op::ToInt, place, zero, zero)
}

/// Samples `picture` at the coordinates `(u, v)` of each lane.
fn sample_lanes<const N: usize, F: Fn(Op, [u32; N], [u32; N], [u32; N]) -> [u32; N]>(
    alu: &F,
    picture: &ActualPicture,
    u: [u32; N],
    v: [u32; N],
) -> (r: [u32; N])
    requires
        alu_total(alu),
        picture.wf(),
    ensures
        forall|s: spec_fn(Op, u32, u32, u32) -> u32| #[trigger]
            alu_models(alu, s) ==> forall|i: int|
                0 <= i < N ==> #[trigger] r[i] == sample(s, *picture, u[i], v[i]),
{
    let cols = axis_lanes(alu, u, picture.w);
    let rows = axis_lanes(alu, v, picture.h);
    let mut r: [u32; N] = splat(0);
    let mut j: usize = 0;
    while j < N
        invariant
            j <= N,
            picture.wf(),
            forall|i: int|
                0 <= i < j ==> #[trigger] r[i] == picture.texel_at(
                    edge_index(cols[i], picture.w),
                    edge_index(rows[i], picture.h),
                ),
        decreases N - j,
    {
        let col = clamp_to_edge(cols[j], picture.w);
        let row = clamp_to_edge(rows[j], picture.h);
        r[j] = picture.texel(col, row);
        j += 1;
    }
    r
}

impl StackMachine {
    /// The program never finds too few operands and leaves one value.
    pub open spec fn wf(&self) -> bool {
        depth(self.instructions@) == Some(1nat)
    }

    /// Every bitmap that the program samples is in `pics`.
    pub open spec fn linked(&self, pics: Pictures) -> bool {
        names_ok(self.instructions@, known(pics))
    }

    /// The name of the first bitmap that the program samples and `pics`
    /// does not hold, or `None` where it holds them all.
    pub fn first_missing(&self, pics: &Pictures) -> (r: Option<String>)
        ensures
            match r {
                Some(name) => match missing(self.instructions@, *pics) {
                    Some(k) => self.instructions@[k] == Instruction::Picture(name),
                    None => false,
                },
                None => missing(self.instructions@, *pics) is None && self.linked(*pics),
            },
    {
        let ghost prog = self.instructions@;
        let mut k: usize = 0;
        while k < self.instructions.len()
            invariant
                k <= prog.len(),
                prog == self.instructions@,
                names_ok(prog.take(k as int), known(*pics)),
            decreases prog.len() - k,
        {
            match &self.instructions[k] {
                Instruction::Picture(name) => {
                    if pics.find(name).is_none() {
                        proof {
                            lemma_missing_is(prog, *pics, k as int);
                        }
                        return Some(name.clone());
                    }
                },
                _ => {},
            }
            proof {
                assert(prog.take(k + 1) =~= prog.take(k as int).push(prog[k as int]));
                lemma_names_push(prog.take(k as int), prog[k as int], known(*pics));
            }
            k += 1;
        }
        proof {
            assert(prog.take(k as int) =~= prog);
            lemma_missing(prog, *pics);
            if missing(prog, *pics) is Some {
                let j = missing(prog, *pics)->0;
                assert(name_ok(prog[j], known(*pics)));
            }
        }
        None
    }

    /// Compiles an expression: one instruction per node, children before
    /// parents.
    pub fn build(node: &APTNode) -> (r: StackMachine)
        ensures
            r.instructions@ == compile(*node),
            r.instructions@.len() == node.size(),
            r.wf(),
    {
        let mut instructions: Vec<Instruction> = Vec::new();
        emit(node, &mut instructions);
        proof {
            lemma_compile_len(Seq::empty(), *node);
            lemma_compile_depth(Seq::empty(), *node);
        }
        StackMachine { instructions }
    }

    /// Runs the program on one batch of lanes and returns what it leaves.
    /// `stack` is working space: what it held is dropped, and what it holds
    /// afterwards means nothing.
    ///
    /// Whatever arithmetic `s` the lane unit computes lane by lane, each lane
    /// of the result is the one value that the program leaves at that lane's
    /// point.
    pub fn execute<const N: usize, F: Fn(Op, [u32; N], [u32; N], [u32; N]) -> [u32; N]>(
        &self,
        stack: &mut Vec<[u32; N]>,
        pics: &Pictures,
        x: [u32; N],
        y: [u32; N],
        t: [u32; N],
        w: [u32; N],
        h: [u32; N],
        alu: &F,
    ) -> (r: [u32; N])
        requires
            self.wf(),
            pics.wf(),
            self.linked(*pics),
            alu_total(alu),
        ensures
            forall|s: spec_fn(Op, u32, u32, u32) -> u32| #[trigger]
                alu_models(alu, s) ==> forall|i: int|
                    0 <= i < N ==> run(
                        s,
                        *pics,
                        #[trigger] lane_point(x, y, t, w, h, i),
                        self.instructions@,
                    ) == Some(seq![r[i]]),
    {
        let ghost prog = self.instructions@;
        let zero: [u32; N] = splat(0);
        stack.clear();
        let n: usize = self.instructions.len();
        let mut pc: usize = 0;
        proof {
            assert(prog.take(0) =~= Seq::<Instruction>::empty());
            assert forall|s: spec_fn(Op, u32, u32, u32) -> u32| #[trigger]
                alu_models(alu, s) implies lanes_run(s, *pics, prog.take(0), x, y, t, w, h, stack@) by {
                assert forall|i: int| 0 <= i < N implies run(
                    s,
                    *pics,
                    lane_point(x, y, t, w, h, i),
                    prog.take(0),
                ) == Some(#[trigger] column(stack@, i)) by {
                    assert(column(stack@, i) =~= Seq::<u32>::empty());
                }
            }
        }
        while pc < n
            invariant
                pc <= n,
                n == prog.len(),
                prog == self.instructions@,
                self.wf(),
                pics.wf(),
                self.linked(*pics),
                alu_total(alu),
                forall|i: int| 0 <= i < N ==> #[trigger] zero[i] == 0,
                depth(prog.take(pc as int)) == Some(stack@.len()),
                forall|s: spec_fn(Op, u32, u32, u32) -> u32| #[trigger]
                    alu_models(alu, s) ==> lanes_run(
                        s,
                        *pics,
                        prog.take(pc as int),
                        x,
                        y,
                        t,
                        w,
                        h,
                        stack@,
                    ),
            decreases n - pc,
        {
            let ghost before = stack@;
            let ghost len = before.len() as int;
            proof {
                lemma_depth_prefix(prog, pc + 1);
                assert(prog.take(pc + 1).drop_last() =~= prog.take(pc as int));
                assert(prog.take(pc + 1).last() == prog[pc as int]);
                assert(name_ok(prog[pc as int], known(*pics)));
            }
            let pushed: [u32; N] = match &self.instructions[pc] {
                Instruction::X => x,
                Instruction::Y => y,
                Instruction::T => t,
                Instruction::Width => w,
                Instruction::Height => h,
                Instruction::Constant(bits) => splat(*bits),
                Instruction::Picture(name) => {
                    let v = stack.pop().unwrap();
                    let u = stack.pop().unwrap();
                    let k = pics.find(name).unwrap();
                    let r = sample_lanes(alu, &pics.items[k], u, v);
                    proof {
                        assert forall|i: int| 0 <= i < N implies column(before, i)[len - 2] == u[i]
                            && column(before, i)[len - 1] == v[i] by {}
                    }
                    r
                },
                Instruction::Apply1(op) => {
                    let a = stack.pop().unwrap();
                    let r = apply(alu, op.op(), a, zero, zero);
                    proof {
                        assert forall|i: int| 0 <= i < N implies column(before, i)[len - 1]
                            == a[i] by {}
                    }
                    r
                },
                Instruction::Apply2(op) => {
                    let b = stack.pop().unwrap();
                    let a = stack.pop().unwrap();
                    let r = apply(alu, op.op(), a, b, zero);
                    proof {
                        assert forall|i: int| 0 <= i < N implies column(before, i)[len - 2] == a[i]
                            && column(before, i)[len - 1] == b[i] by {}
                    }
                    r
                },
                Instruction::Apply3(op) => {
                    let c = stack.pop().unwrap();
                    let b = stack.pop().unwrap();
                    let a = stack.pop().unwrap();
                    let r = apply(alu, op.op(), a, b, c);
                    proof {
                        assert forall|i: int| 0 <= i < N implies column(before, i)[len - 3] == a[i]
                            && column(before, i)[len - 2] == b[i] && column(before, i)[len - 1]
                            == c[i] by {}
                    }
                    r
                },
            };
            proof {
                assert(stack@ =~= before.take(len - pops(prog[pc as int])));
            }
            stack.push(pushed);
            proof {
                assert(stack@ =~= before.take(len - pops(prog[pc as int])).push(pushed));
                assert forall|s: spec_fn(Op, u32, u32, u32) -> u32| #[trigger]
                    alu_models(alu, s) implies lanes_run(
                    s,
                    *pics,
                    prog.take(pc + 1),
                    x,
                    y,
                    t,
                    w,
                    h,
                    stack@,
                ) by {
                    assert forall|i: int| 0 <= i < N implies #[trigger] pushed[i] == produces(
                        s,
                        *pics,
                        lane_point(x, y, t, w, h, i),
                        prog[pc as int],
                        column(before, i),
                    ) by {}
                    lemma_lanes_step(s, *pics, prog, pc as int, x, y, t, w, h, before, pushed);
                }
            }
            pc += 1;
        }
        let ghost last = stack@;
        proof {
            assert(prog.take(n as int) =~= prog);
        }
        let r = stack.pop().unwrap();
        proof {
            assert forall|s: spec_fn(Op, u32, u32, u32) -> u32| #[trigger]
                alu_models(alu, s) implies forall|i: int|
                0 <= i < N ==> run(s, *pics, #[trigger] lane_point(x, y, t, w, h, i), prog) == Some(
                    seq![r[i]],
                ) by {
                assert forall|i: int| 0 <= i < N implies run(
                    s,
                    *pics,
                    #[trigger] lane_point(x, y, t, w, h, i),
                    prog,
                ) == Some(seq![r[i]]) by {
                    assert(column(last, i) =~= seq![r[i]]);
                }
            }
        }
        r
    }
}

} // verus!
