//! Reverse-mode differentiation of tapes: a tape of one `f32` result over `f32` arguments
//! becomes a tape that computes that result and then its partial derivative by each
//! argument, accumulated from the result back to the arguments.
use crate::interval::{i32_definite, lemma_bool_definite_prefix, translatable, typed, HALF_BITS, ONE_BITS, ZERO_BITS};
use crate::lower::{all_typed, emit, f32_args};
use crate::tape::{instr_well_typed, value_types, Inlined, Instr, Tape, TapeBuilder, Type, ValueId};
use vstd::prelude::*;

verus! {

/// The bits of `f32::consts::LOG10_E`.
pub const LOG10_E_BITS: u32 = 0x3ede_5bd9;

/// Value `i` of `tape` is an operand of one of its instructions.
pub open spec fn read_by(tape: Tape, i: int) -> bool {
    exists|k: int, j: int|
        0 <= k < tape.spec_instrs().len() && 0 <= j < tape.spec_instrs()[k].operands().len() && (
        #[trigger] tape.spec_instrs()[k].operands()[j]).0.0 == i
}

/// The tape can be differentiated: its arguments are `f32`s, it has one `f32` result,
/// and the gradient tape, with one more result per argument and at most 13 instructions
/// for each one, fits the ids.
pub open spec fn differentiable(tape: Tape) -> bool {
    let n = tape.spec_args().len();
    &&& tape.wf()
    &&& tape.spec_args() == f32_args(n)
    &&& tape.spec_results() == f32_args(1)
    &&& 1 + n <= 255
    &&& 2 * n + 13 * tape.spec_instrs().len() + 2 < u16::MAX
}

/// Whether `autodiff` can take `source`: see `differentiable`.
pub fn is_differentiable(source: &Tape) -> (r: bool)
    ensures
        r == differentiable(*source),
{
    proof {
        use_type_invariant(source);
    }
    let n = source.num_args();
    let args = source.arg_types();
    let results = source.result_types();
    let mut i: usize = 0;
    while i < n
        invariant
            n == args@.len(),
            args@ == source.spec_args(),
            i <= n,
            forall|j: int| 0 <= j < i ==> args@[j] == Type::F32,
        decreases n - i,
    {
        if args[i] != Type::F32 {
            proof {
                assert(source.spec_args()[i as int] != f32_args(n as nat)[i as int]);
            }
            return false;
        }
        i = i + 1;
    }
    proof {
        assert(source.spec_args() =~= f32_args(n as nat));
        use_type_invariant(source);
    }
    if results.len() != 1 || results[0] != Type::F32 {
        proof {
            if results@.len() == 1 {
                assert(source.spec_results()[0] != f32_args(1)[0]);
            }
        }
        return false;
    }
    proof {
        assert(source.spec_results() =~= f32_args(1));
    }
    let m = source.instrs().len();
    1 + n <= 255 && 2 * n + 13 * m + 2 < 65535
}

/// No instruction of `instrs` from position `from` on makes an `i32` from a boolean.
pub open spec fn select_free(instrs: Seq<Instr>, from: int) -> bool {
    forall|k: int| from <= k < instrs.len() ==> !(#[trigger] instrs[k] is I32FromBool) && !(instrs[k] is I32Sel)
}

/// What the gradient tape `r` of `source` computes, as far as it is not arithmetic: it
/// starts with the instructions of `source`, which keep their ids; its first result is a
/// copy of the result of `source`; and the derivative by an argument that no instruction
/// reads is the constant zero.
pub open spec fn gradient_shape(source: Tape, r: Tape) -> bool {
    let n = source.spec_args().len() as int;
    let m = source.spec_instrs().len() as int;
    let len = r.spec_instrs().len() as int;
    &&& len >= m + 1 + n
    &&& r.spec_instrs().take(m) == source.spec_instrs()
    &&& select_free(r.spec_instrs(), m)
    &&& r.spec_instrs()[len - 1 - n] == Instr::CopyF32(ValueId((n + m - 1) as u16))
    &&& forall|i: int|
        0 <= i < n ==> match #[trigger] r.spec_instrs()[len - n + i] {
            Instr::F32Const(bits) => bits == ZERO_BITS,
            Instr::CopyF32(_) => read_by(source, i),
            _ => false,
        }
}

/// What the reverse pass has appended so far, and the adjoint of each source value.
pub type Pass = (Seq<Instr>, Seq<Option<ValueId>>);

/// The id of the value made at position `q`.
pub open spec fn id_at(q: int) -> ValueId {
    ValueId(q as u16)
}

/// The id of the next value appended to `st`, whose first appended value has id `p`.
pub open spec fn next_id(st: Pass, p: int) -> ValueId {
    id_at(p + st.0.len())
}

/// `st` with `instr` appended.
pub open spec fn emit_into(st: Pass, instr: Instr) -> Pass {
    (st.0.push(instr), st.1)
}

/// `st` with `c` added to the adjoint of `target`: `c` becomes the adjoint where there
/// was none, else the sum of the earlier adjoint and `c` is appended and becomes it.
pub open spec fn acc_into(st: Pass, p: int, target: ValueId, c: ValueId) -> Pass {
    match st.1[target.0 as int] {
        None => (st.0, st.1.update(target.0 as int, Some(c))),
        Some(earlier) => (st.0.push(Instr::F32Add(earlier, c)), st.1.update(target.0 as int, Some(next_id(st, p)))),
    }
}

/// The weights of the operands `x` and `y` of a minimum, made from the value at `h` on:
/// one half, plus and minus half the sign of `y - x`, at `h + 4` and `h + 5`.
pub open spec fn weights_block(x: ValueId, y: ValueId, h: int) -> Seq<Instr> {
    seq![
        Instr::F32Const(HALF_BITS),
        Instr::F32Sub(y, x),
        Instr::F32Sign(id_at(h + 1)),
        Instr::F32Mul(id_at(h + 2), id_at(h)),
        Instr::F32Add(id_at(h), id_at(h + 3)),
        Instr::F32Sub(id_at(h), id_at(h + 3)),
    ]
}

/// The chain rule for a copy, a negation, an absolute value, a sum, a difference, a
/// product and a quotient: the adjoint `w_bar` of their value `w` times the partial
/// derivative by each operand is added to the adjoint of that operand: `w_bar` for a copy
/// and each side of a sum; `-w_bar` for the negated operand and the right side of a
/// difference; `w_bar * sign(x)` for `|x|`; `w_bar * y` and `w_bar * x` for `x * y`;
/// `w_bar / y` and `-(w_bar * w / y)` for `x / y`.
pub open spec fn chain_basic(instr: Instr, w: ValueId, w_bar: ValueId, adj: Seq<Option<ValueId>>, p: int) -> Pass {
    let s0: Pass = (Seq::empty(), adj);
    match instr {
        Instr::CopyF32(a) => acc_into(s0, p, a, w_bar),
        Instr::F32Neg(a) => {
            let s1 = emit_into(s0, Instr::F32Neg(w_bar));
            acc_into(s1, p, a, next_id(s0, p))
        },
        Instr::F32Abs(a) => {
            let s1 = emit_into(s0, Instr::F32Sign(a));
            let s2 = emit_into(s1, Instr::F32Mul(w_bar, next_id(s0, p)));
            acc_into(s2, p, a, next_id(s1, p))
        },
        Instr::F32Add(a, b) => acc_into(acc_into(s0, p, a, w_bar), p, b, w_bar),
        Instr::F32Sub(a, b) => {
            let s1 = acc_into(s0, p, a, w_bar);
            let s2 = emit_into(s1, Instr::F32Neg(w_bar));
            acc_into(s2, p, b, next_id(s1, p))
        },
        Instr::F32Mul(a, b) => {
            let s1 = emit_into(s0, Instr::F32Mul(w_bar, b));
            let s2 = acc_into(s1, p, a, next_id(s0, p));
            let s3 = emit_into(s2, Instr::F32Mul(w_bar, a));
            acc_into(s3, p, b, next_id(s2, p))
        },
        Instr::F32Div(a, b) => {
            let s1 = emit_into(s0, Instr::F32Div(w_bar, b));
            let s2 = acc_into(s1, p, a, next_id(s0, p));
            let s3 = emit_into(s2, Instr::F32Mul(w_bar, w));
            let s4 = emit_into(s3, Instr::F32Div(next_id(s2, p), b));
            let s5 = emit_into(s4, Instr::F32Neg(next_id(s3, p)));
            acc_into(s5, p, b, next_id(s4, p))
        },
        _ => s0,
    }
}

/// The chain rule for a minimum, a maximum and a selection: the adjoint goes to the
/// operand that is picked, by the weights of `weights_block` for a minimum or a maximum
/// and by a selection between the adjoint and zero for a selection.
pub open spec fn chain_piecewise(instr: Instr, w_bar: ValueId, adj: Seq<Option<ValueId>>, p: int) -> Pass {
    let s0: Pass = (Seq::empty(), adj);
    let h = p;
    match instr {
        Instr::F32Min(a, b) | Instr::F32Max(a, b) => {
            let s1: Pass = (weights_block(a, b, h), adj);
            let (to_a, to_b) = if instr is F32Min { (id_at(h + 4), id_at(h + 5)) } else { (id_at(h + 5), id_at(h + 4)) };
            let s2 = emit_into(s1, Instr::F32Mul(w_bar, to_a));
            let s3 = acc_into(s2, p, a, next_id(s1, p));
            let s4 = emit_into(s3, Instr::F32Mul(w_bar, to_b));
            acc_into(s4, p, b, next_id(s3, p))
        },
        Instr::F32Sel(c, t, f) => {
            let s1 = emit_into(s0, Instr::F32Const(ZERO_BITS));
            let zero = next_id(s0, p);
            let s2 = emit_into(s1, Instr::F32Sel(c, w_bar, zero));
            let s3 = acc_into(s2, p, t, next_id(s1, p));
            let s4 = emit_into(s3, Instr::F32Sel(c, zero, w_bar));
            acc_into(s4, p, f, next_id(s3, p))
        },
        _ => s0,
    }
}

/// The chain rule for powers and the exponential, logarithmic and trigonometric
/// functions: `w_bar * y * x^(y - 1)` and `w_bar * w * ln(x)` for `x^y`; `w_bar * n *
/// x^(n - 1)` for an integer power; `w_bar * w` for `exp`; `w_bar / x` for `ln`; `w_bar *
/// (log10(e) / x)` for `log10`; `w_bar * cos(x)` for `sin`; `-(w_bar * sin(x))` for
/// `cos`; `w_bar * (w * w + 1)` for `tan`, and its negation for `cot`.
pub open spec fn chain_elementary(instr: Instr, w: ValueId, w_bar: ValueId, adj: Seq<Option<ValueId>>, p: int) -> Pass {
    let s0: Pass = (Seq::empty(), adj);
    match instr {
        Instr::F32Powf(a, b) => {
            let s1 = emit_into(s0, Instr::F32Const(ONE_BITS));
            let s2 = emit_into(s1, Instr::F32Sub(b, next_id(s0, p)));
            let s3 = emit_into(s2, Instr::F32Powf(a, next_id(s1, p)));
            let s4 = emit_into(s3, Instr::F32Mul(b, next_id(s2, p)));
            let s5 = emit_into(s4, Instr::F32Mul(w_bar, next_id(s3, p)));
            let s6 = acc_into(s5, p, a, next_id(s4, p));
            let s7 = emit_into(s6, Instr::F32Ln(a));
            let s8 = emit_into(s7, Instr::F32Mul(w, next_id(s6, p)));
            let s9 = emit_into(s8, Instr::F32Mul(w_bar, next_id(s7, p)));
            acc_into(s9, p, b, next_id(s8, p))
        },
        Instr::F32Powi(a, b) => {
            let s1 = emit_into(s0, Instr::I32Const(1));
            let s2 = emit_into(s1, Instr::I32Sub(b, next_id(s0, p)));
            let s3 = emit_into(s2, Instr::F32Powi(a, next_id(s1, p)));
            let s4 = emit_into(s3, Instr::F32FromI32(b));
            let s5 = emit_into(s4, Instr::F32Mul(next_id(s3, p), next_id(s2, p)));
            let s6 = emit_into(s5, Instr::F32Mul(w_bar, next_id(s4, p)));
            acc_into(s6, p, a, next_id(s5, p))
        },
        Instr::F32Exp(a) => {
            let s1 = emit_into(s0, Instr::F32Mul(w_bar, w));
            acc_into(s1, p, a, next_id(s0, p))
        },
        Instr::F32Ln(a) => {
            let s1 = emit_into(s0, Instr::F32Div(w_bar, a));
            acc_into(s1, p, a, next_id(s0, p))
        },
        Instr::F32Lg(a) => {
            let s1 = emit_into(s0, Instr::F32Const(LOG10_E_BITS));
            let s2 = emit_into(s1, Instr::F32Div(next_id(s0, p), a));
            let s3 = emit_into(s2, Instr::F32Mul(w_bar, next_id(s1, p)));
            acc_into(s3, p, a, next_id(s2, p))
        },
        Instr::F32Sin(a) => {
            let s1 = emit_into(s0, Instr::F32Cos(a));
            let s2 = emit_into(s1, Instr::F32Mul(w_bar, next_id(s0, p)));
            acc_into(s2, p, a, next_id(s1, p))
        },
        Instr::F32Cos(a) => {
            let s1 = emit_into(s0, Instr::F32Sin(a));
            let s2 = emit_into(s1, Instr::F32Mul(w_bar, next_id(s0, p)));
            let s3 = emit_into(s2, Instr::F32Neg(next_id(s1, p)));
            acc_into(s3, p, a, next_id(s2, p))
        },
        Instr::F32Tan(a) | Instr::F32Cot(a) => {
            let s1 = emit_into(s0, Instr::F32Mul(w, w));
            let s2 = emit_into(s1, Instr::F32Const(ONE_BITS));
            let s3 = emit_into(s2, Instr::F32Add(next_id(s0, p), next_id(s1, p)));
            let s4 = emit_into(s3, Instr::F32Mul(w_bar, next_id(s2, p)));
            if instr is F32Tan {
                acc_into(s4, p, a, next_id(s3, p))
            } else {
                let s5 = emit_into(s4, Instr::F32Neg(next_id(s3, p)));
                acc_into(s5, p, a, next_id(s4, p))
            }
        },
        _ => s0,
    }
}

/// The instructions appended, from id `p` on, and the adjoints after the adjoint
/// `w_bar` of `w`, the value of `instr`, is passed on to the operands of `instr` by the
/// chain rule; the other instructions pass nothing on.
pub open spec fn chain_step(instr: Instr, w: ValueId, w_bar: ValueId, adj: Seq<Option<ValueId>>, p: int) -> Pass {
    match instr {
        Instr::CopyF32(_) | Instr::F32Neg(_) | Instr::F32Abs(_) | Instr::F32Add(_, _) | Instr::F32Sub(_, _)
        | Instr::F32Mul(_, _) | Instr::F32Div(_, _) => chain_basic(instr, w, w_bar, adj, p),
        Instr::F32Min(_, _) | Instr::F32Max(_, _) | Instr::F32Sel(_, _, _) => chain_piecewise(instr, w_bar, adj, p),
        _ => chain_elementary(instr, w, w_bar, adj, p),
    }
}

/// The instruction that makes the value `v` of the block `block`, whose first value has
/// id `p`, where it is one of them.
pub open spec fn op_in(block: Seq<Instr>, p: int, v: ValueId) -> Option<Instr> {
    if p <= v.0 < p + block.len() {
        Some(block[v.0 - p])
    } else {
        None
    }
}

/// The share that the step `st` added to the adjoint of `a`, which was `adj[a]`: the new
/// adjoint where there was none, else the second term of the sum that became it.
pub open spec fn share_of(st: Pass, adj: Seq<Option<ValueId>>, p: int, a: ValueId) -> Option<ValueId> {
    match (adj[a.0 as int], st.1[a.0 as int]) {
        (None, Some(c)) => Some(c),
        (Some(e), Some(sum)) => match op_in(st.0, p, sum) {
            Some(Instr::F32Add(e2, c)) => if e2 == e {
                Some(c)
            } else {
                None
            },
            _ => None,
        },
        _ => None,
    }
}

/// `v` is `w_bar` times the value that `factor` makes in the block.
pub open spec fn times_adjoint(block: Seq<Instr>, p: int, v: ValueId, w_bar: ValueId, factor: spec_fn(ValueId) -> bool) -> bool {
    &&& op_in(block, p, v) matches Some(Instr::F32Mul(x, f))
    &&& x == w_bar
    &&& factor(f)
}

/// `v` is the negation of a value of which `inner` holds.
pub open spec fn negated(block: Seq<Instr>, p: int, v: ValueId, inner: spec_fn(ValueId) -> bool) -> bool {
    &&& op_in(block, p, v) matches Some(Instr::F32Neg(m))
    &&& inner(m)
}

/// `v` is one plus the square of `w`: the derivative of the tangent whose value is `w`.
pub open spec fn one_plus_square(block: Seq<Instr>, p: int, v: ValueId, w: ValueId) -> bool {
    &&& op_in(block, p, v) matches Some(Instr::F32Add(q, o))
    &&& op_in(block, p, q) == Some(Instr::F32Mul(w, w))
    &&& op_in(block, p, o) == Some(Instr::F32Const(ONE_BITS))
}

/// `v` is the weight of `a` in the minimum of `a` and `b` (`plus`), or in their maximum:
/// one half plus (or minus) half the sign of `b - a`, so 1 where `a` is picked and 0
/// where `b` is.
pub open spec fn pick_weight(block: Seq<Instr>, p: int, v: ValueId, a: ValueId, b: ValueId, plus: bool) -> bool {
    &&& op_in(block, p, v) matches Some(sum)
    &&& (if plus { sum matches Instr::F32Add(_, _) } else { sum matches Instr::F32Sub(_, _) })
    &&& sum.operands().len() == 2
    &&& op_in(block, p, sum.operands()[0].0) == Some(Instr::F32Const(HALF_BITS))
    &&& op_in(block, p, sum.operands()[1].0) matches Some(Instr::F32Mul(sg, h))
    &&& h == sum.operands()[0].0
    &&& op_in(block, p, sg) matches Some(Instr::F32Sign(d))
    &&& op_in(block, p, d) == Some(Instr::F32Sub(b, a))
}

/// What the chain rule passes on for `instr`, whose value `w` has the adjoint `w_bar`,
/// in the step `st` from the adjoints `adj`, with the new values from id `p` on: each
/// operand `x` of an `f32` instruction gets the share `w_bar * d instr / d x`, added to
/// its adjoint. `x` and `-x` pass `w_bar` and `-w_bar`; `|x|` passes `w_bar * sign(x)`;
/// `x + y` passes `w_bar` to both, `x - y` `w_bar` and `-w_bar`; `x * y` passes `w_bar *
/// y` and `w_bar * x`; `x / y` passes `w_bar / y` and `-(w_bar * w / y)`; `x ^ y` passes
/// `w_bar * (y * x ^ (y - 1))` and `w_bar * (w * ln x)`; `x ^ n` passes `w_bar * (n * x ^
/// (n - 1))`; `exp x` passes `w_bar * w`; `ln x` passes `w_bar / x`; `lg x` passes
/// `w_bar * (log10(e) / x)`; `sin x` passes `w_bar * cos x`; `cos x` passes `-(w_bar *
/// sin x)`; `tan x` passes `w_bar * (1 + w * w)` and `cot x` its negation; the minimum
/// and maximum pass `w_bar` times the weight of each operand (`pick_weight`); a
/// selection passes `w_bar` to the branch that it picks and zero to the other. The
/// other instructions pass nothing on. Two operands are taken to be distinct values.
pub open spec fn chain_rule_holds(instr: Instr, w: ValueId, w_bar: ValueId, adj: Seq<Option<ValueId>>, p: int, st: Pass) -> bool {
    let b = st.0;
    match instr {
        Instr::CopyF32(a) => share_of(st, adj, p, a) == Some(w_bar),
        Instr::F32Neg(a) => share_is(st, adj, p, a, |c: ValueId| op_in(b, p, c) == Some(Instr::F32Neg(w_bar))),
        Instr::F32Abs(a) => share_is(
            st,
            adj,
            p,
            a,
            |c: ValueId| times_adjoint(b, p, c, w_bar, |f: ValueId| op_in(b, p, f) == Some(Instr::F32Sign(a))),
        ),
        Instr::F32Add(x, y) => share_of(st, adj, p, x) == Some(w_bar) && share_of(st, adj, p, y) == Some(w_bar),
        Instr::F32Sub(x, y) => share_of(st, adj, p, x) == Some(w_bar) && share_is(
            st,
            adj,
            p,
            y,
            |c: ValueId| op_in(b, p, c) == Some(Instr::F32Neg(w_bar)),
        ),
        Instr::F32Mul(x, y) => share_is(st, adj, p, x, |c: ValueId| op_in(b, p, c) == Some(Instr::F32Mul(w_bar, y)))
            && share_is(st, adj, p, y, |c: ValueId| op_in(b, p, c) == Some(Instr::F32Mul(w_bar, x))),
        Instr::F32Div(x, y) => share_is(st, adj, p, x, |c: ValueId| op_in(b, p, c) == Some(Instr::F32Div(w_bar, y)))
            && share_is(
            st,
            adj,
            p,
            y,
            |c: ValueId|
                negated(
                    b,
                    p,
                    c,
                    |t: ValueId|
                        {
                            &&& op_in(b, p, t) matches Some(Instr::F32Div(u, d))
                            &&& d == y
                            &&& op_in(b, p, u) == Some(Instr::F32Mul(w_bar, w))
                        },
                ),
        ),
        Instr::F32Powf(x, y) => share_is(
            st,
            adj,
            p,
            x,
            |c: ValueId|
                times_adjoint(
                    b,
                    p,
                    c,
                    w_bar,
                    |t: ValueId|
                        {
                            &&& op_in(b, p, t) matches Some(Instr::F32Mul(y2, pw))
                            &&& y2 == y
                            &&& op_in(b, p, pw) matches Some(Instr::F32Powf(x2, e))
                            &&& x2 == x
                            &&& op_in(b, p, e) matches Some(Instr::F32Sub(y3, one))
                            &&& y3 == y
                            &&& op_in(b, p, one) == Some(Instr::F32Const(ONE_BITS))
                        },
                ),
        ) && share_is(
            st,
            adj,
            p,
            y,
            |c: ValueId|
                times_adjoint(
                    b,
                    p,
                    c,
                    w_bar,
                    |t: ValueId|
                        {
                            &&& op_in(b, p, t) matches Some(Instr::F32Mul(w2, l))
                            &&& w2 == w
                            &&& op_in(b, p, l) == Some(Instr::F32Ln(x))
                        },
                ),
        ),
        Instr::F32Powi(x, nn) => share_is(
            st,
            adj,
            p,
            x,
            |c: ValueId|
                times_adjoint(
                    b,
                    p,
                    c,
                    w_bar,
                    |t: ValueId|
                        {
                            &&& op_in(b, p, t) matches Some(Instr::F32Mul(f, pw))
                            &&& op_in(b, p, f) == Some(Instr::F32FromI32(nn))
                            &&& op_in(b, p, pw) matches Some(Instr::F32Powi(x2, e))
                            &&& x2 == x
                            &&& op_in(b, p, e) matches Some(Instr::I32Sub(n2, one))
                            &&& n2 == nn
                            &&& op_in(b, p, one) == Some(Instr::I32Const(1))
                        },
                ),
        ),
        Instr::F32Exp(a) => share_is(st, adj, p, a, |c: ValueId| op_in(b, p, c) == Some(Instr::F32Mul(w_bar, w))),
        Instr::F32Ln(a) => share_is(st, adj, p, a, |c: ValueId| op_in(b, p, c) == Some(Instr::F32Div(w_bar, a))),
        Instr::F32Lg(a) => share_is(
            st,
            adj,
            p,
            a,
            |c: ValueId|
                times_adjoint(
                    b,
                    p,
                    c,
                    w_bar,
                    |t: ValueId|
                        {
                            &&& op_in(b, p, t) matches Some(Instr::F32Div(k, a2))
                            &&& a2 == a
                            &&& op_in(b, p, k) == Some(Instr::F32Const(LOG10_E_BITS))
                        },
                ),
        ),
        Instr::F32Sin(a) => share_is(
            st,
            adj,
            p,
            a,
            |c: ValueId| times_adjoint(b, p, c, w_bar, |f: ValueId| op_in(b, p, f) == Some(Instr::F32Cos(a))),
        ),
        Instr::F32Cos(a) => share_is(
            st,
            adj,
            p,
            a,
            |c: ValueId|
                negated(
                    b,
                    p,
                    c,
                    |m: ValueId| times_adjoint(b, p, m, w_bar, |f: ValueId| op_in(b, p, f) == Some(Instr::F32Sin(a))),
                ),
        ),
        Instr::F32Tan(a) => share_is(
            st,
            adj,
            p,
            a,
            |c: ValueId| times_adjoint(b, p, c, w_bar, |f: ValueId| one_plus_square(b, p, f, w)),
        ),
        Instr::F32Cot(a) => share_is(
            st,
            adj,
            p,
            a,
            |c: ValueId|
                negated(b, p, c, |m: ValueId| times_adjoint(b, p, m, w_bar, |f: ValueId| one_plus_square(b, p, f, w))),
        ),
        Instr::F32Min(x, y) => share_is(
            st,
            adj,
            p,
            x,
            |c: ValueId| times_adjoint(b, p, c, w_bar, |f: ValueId| pick_weight(b, p, f, x, y, true)),
        ) && share_is(
            st,
            adj,
            p,
            y,
            |c: ValueId| times_adjoint(b, p, c, w_bar, |f: ValueId| pick_weight(b, p, f, x, y, false)),
        ),
        Instr::F32Max(x, y) => share_is(
            st,
            adj,
            p,
            x,
            |c: ValueId| times_adjoint(b, p, c, w_bar, |f: ValueId| pick_weight(b, p, f, x, y, false)),
        ) && share_is(
            st,
            adj,
            p,
            y,
            |c: ValueId| times_adjoint(b, p, c, w_bar, |f: ValueId| pick_weight(b, p, f, x, y, true)),
        ),
        Instr::F32Sel(cond, t, f) => share_is(
            st,
            adj,
            p,
            t,
            |c: ValueId|
                {
                    &&& op_in(b, p, c) matches Some(Instr::F32Sel(c2, v, z))
                    &&& c2 == cond
                    &&& v == w_bar
                    &&& op_in(b, p, z) == Some(Instr::F32Const(ZERO_BITS))
                },
        ) && share_is(
            st,
            adj,
            p,
            f,
            |c: ValueId|
                {
                    &&& op_in(b, p, c) matches Some(Instr::F32Sel(c2, z, v))
                    &&& c2 == cond
                    &&& v == w_bar
                    &&& op_in(b, p, z) == Some(Instr::F32Const(ZERO_BITS))
                },
        ),
        _ => st.0.len() == 0 && st.1 == adj,
    }
}

/// The share that `st` added to the adjoint of `a` is one of which `shape` holds.
pub open spec fn share_is(st: Pass, adj: Seq<Option<ValueId>>, p: int, a: ValueId, shape: spec_fn(ValueId) -> bool) -> bool {
    share_of(st, adj, p, a) matches Some(c) && shape(c)
}

/// The two `f32` operands of `instr` that the chain rule passes shares to, where it has
/// two, are distinct values.
pub open spec fn shares_distinct(instr: Instr) -> bool {
    match instr {
        Instr::F32Add(x, y) | Instr::F32Sub(x, y) | Instr::F32Mul(x, y) | Instr::F32Div(x, y) | Instr::F32Powf(x, y)
        | Instr::F32Min(x, y) | Instr::F32Max(x, y) => x != y,
        Instr::F32Sel(_, t, f) => t != f,
        _ => true,
    }
}

/// Law: a step of the reverse pass (`chain_step`, of which `gradient_instrs`, and so
/// `autodiff`, is made) passes the adjoint `w_bar` of the value `w` of `instr` on to its
/// operands by the chain rule, as `chain_rule_holds` states it, where the operands, `w`
/// and `w_bar` are values made before the step and two operands that get shares are
/// distinct.
pub proof fn law_chain_rule(instr: Instr, w: ValueId, w_bar: ValueId, adj: Seq<Option<ValueId>>, p: int)
    requires
        (w.0 as int) < p,
        (w_bar.0 as int) < p,
        p + 12 < u16::MAX,
        forall|j: int|
            0 <= j < instr.operands().len() ==> (#[trigger] instr.operands()[j]).0.0 < p && (instr.operands()[j].0.0 as int)
                < adj.len(),
        shares_distinct(instr),
    ensures
        chain_rule_holds(instr, w, w_bar, adj, p, chain_step(instr, w, w_bar, adj, p)),
{
    match instr {
        Instr::CopyF32(..) => lemma_chain_step_rule_copyf32(instr, w, w_bar, adj, p),
        Instr::F32Neg(..) => lemma_chain_step_rule_f32neg(instr, w, w_bar, adj, p),
        Instr::F32Abs(..) => lemma_chain_step_rule_f32abs(instr, w, w_bar, adj, p),
        Instr::F32Add(..) => lemma_chain_step_rule_f32add(instr, w, w_bar, adj, p),
        Instr::F32Sub(..) => lemma_chain_step_rule_f32sub(instr, w, w_bar, adj, p),
        Instr::F32Mul(..) => lemma_chain_step_rule_f32mul(instr, w, w_bar, adj, p),
        Instr::F32Div(..) => lemma_chain_step_rule_f32div(instr, w, w_bar, adj, p),
        Instr::F32Powf(..) => lemma_chain_step_rule_f32powf(instr, w, w_bar, adj, p),
        Instr::F32Powi(..) => lemma_chain_step_rule_f32powi(instr, w, w_bar, adj, p),
        Instr::F32Exp(..) => lemma_chain_step_rule_f32exp(instr, w, w_bar, adj, p),
        Instr::F32Ln(..) => lemma_chain_step_rule_f32ln(instr, w, w_bar, adj, p),
        Instr::F32Lg(..) => lemma_chain_step_rule_f32lg(instr, w, w_bar, adj, p),
        Instr::F32Sin(..) => lemma_chain_step_rule_f32sin(instr, w, w_bar, adj, p),
        Instr::F32Cos(..) => lemma_chain_step_rule_f32cos(instr, w, w_bar, adj, p),
        Instr::F32Tan(..) => lemma_chain_step_rule_f32tan(instr, w, w_bar, adj, p),
        Instr::F32Cot(..) => lemma_chain_step_rule_f32cot(instr, w, w_bar, adj, p),
        Instr::F32Min(..) => lemma_chain_step_rule_f32min(instr, w, w_bar, adj, p),
        Instr::F32Max(..) => lemma_chain_step_rule_f32max(instr, w, w_bar, adj, p),
        Instr::F32Sel(..) => lemma_chain_step_rule_f32sel(instr, w, w_bar, adj, p),
        _ => {},
    }
}

/// `law_chain_rule` for an instruction `CopyF32`.
#[verifier::rlimit(50)]
proof fn lemma_chain_step_rule_copyf32(instr: Instr, w: ValueId, w_bar: ValueId, adj: Seq<Option<ValueId>>, p: int)
    requires
        instr is CopyF32,
        (w.0 as int) < p,
        (w_bar.0 as int) < p,
        p + 12 < u16::MAX,
        forall|j: int|
            0 <= j < instr.operands().len() ==> (#[trigger] instr.operands()[j]).0.0 < p && (instr.operands()[j].0.0 as int)
                < adj.len(),
        shares_distinct(instr),
    ensures
        chain_rule_holds(instr, w, w_bar, adj, p, chain_step(instr, w, w_bar, adj, p)),
{
    let ops = instr.operands();
    if ops.len() > 0 {
        assert(ops[0].0.0 < p);
    }
    if ops.len() > 1 {
        assert(ops[1].0.0 < p);
    }
    if ops.len() > 2 {
        assert(ops[2].0.0 < p);
    }
}

/// `law_chain_rule` for an instruction `F32Neg`.
#[verifier::rlimit(50)]
proof fn lemma_chain_step_rule_f32neg(instr: Instr, w: ValueId, w_bar: ValueId, adj: Seq<Option<ValueId>>, p: int)
    requires
        instr is F32Neg,
        (w.0 as int) < p,
        (w_bar.0 as int) < p,
        p + 12 < u16::MAX,
        forall|j: int|
            0 <= j < instr.operands().len() ==> (#[trigger] instr.operands()[j]).0.0 < p && (instr.operands()[j].0.0 as int)
                < adj.len(),
        shares_distinct(instr),
    ensures
        chain_rule_holds(instr, w, w_bar, adj, p, chain_step(instr, w, w_bar, adj, p)),
{
    let ops = instr.operands();
    if ops.len() > 0 {
        assert(ops[0].0.0 < p);
    }
    if ops.len() > 1 {
        assert(ops[1].0.0 < p);
    }
    if ops.len() > 2 {
        assert(ops[2].0.0 < p);
    }
}

/// `law_chain_rule` for an instruction `F32Abs`.
#[verifier::rlimit(50)]
proof fn lemma_chain_step_rule_f32abs(instr: Instr, w: ValueId, w_bar: ValueId, adj: Seq<Option<ValueId>>, p: int)
    requires
        instr is F32Abs,
        (w.0 as int) < p,
        (w_bar.0 as int) < p,
        p + 12 < u16::MAX,
        forall|j: int|
            0 <= j < instr.operands().len() ==> (#[trigger] instr.operands()[j]).0.0 < p && (instr.operands()[j].0.0 as int)
                < adj.len(),
        shares_distinct(instr),
    ensures
        chain_rule_holds(instr, w, w_bar, adj, p, chain_step(instr, w, w_bar, adj, p)),
{
    let ops = instr.operands();
    if ops.len() > 0 {
        assert(ops[0].0.0 < p);
    }
    if ops.len() > 1 {
        assert(ops[1].0.0 < p);
    }
    if ops.len() > 2 {
        assert(ops[2].0.0 < p);
    }
}

/// `law_chain_rule` for an instruction `F32Add`.
#[verifier::rlimit(50)]
proof fn lemma_chain_step_rule_f32add(instr: Instr, w: ValueId, w_bar: ValueId, adj: Seq<Option<ValueId>>, p: int)
    requires
        instr is F32Add,
        (w.0 as int) < p,
        (w_bar.0 as int) < p,
        p + 12 < u16::MAX,
        forall|j: int|
            0 <= j < instr.operands().len() ==> (#[trigger] instr.operands()[j]).0.0 < p && (instr.operands()[j].0.0 as int)
                < adj.len(),
        shares_distinct(instr),
    ensures
        chain_rule_holds(instr, w, w_bar, adj, p, chain_step(instr, w, w_bar, adj, p)),
{
    let ops = instr.operands();
    if ops.len() > 0 {
        assert(ops[0].0.0 < p);
    }
    if ops.len() > 1 {
        assert(ops[1].0.0 < p);
    }
    if ops.len() > 2 {
        assert(ops[2].0.0 < p);
    }
}

/// `law_chain_rule` for an instruction `F32Sub`.
#[verifier::rlimit(50)]
proof fn lemma_chain_step_rule_f32sub(instr: Instr, w: ValueId, w_bar: ValueId, adj: Seq<Option<ValueId>>, p: int)
    requires
        instr is F32Sub,
        (w.0 as int) < p,
        (w_bar.0 as int) < p,
        p + 12 < u16::MAX,
        forall|j: int|
            0 <= j < instr.operands().len() ==> (#[trigger] instr.operands()[j]).0.0 < p && (instr.operands()[j].0.0 as int)
                < adj.len(),
        shares_distinct(instr),
    ensures
        chain_rule_holds(instr, w, w_bar, adj, p, chain_step(instr, w, w_bar, adj, p)),
{
    let ops = instr.operands();
    if ops.len() > 0 {
        assert(ops[0].0.0 < p);
    }
    if ops.len() > 1 {
        assert(ops[1].0.0 < p);
    }
    if ops.len() > 2 {
        assert(ops[2].0.0 < p);
    }
}

/// `law_chain_rule` for an instruction `F32Mul`.
#[verifier::rlimit(50)]
proof fn lemma_chain_step_rule_f32mul(instr: Instr, w: ValueId, w_bar: ValueId, adj: Seq<Option<ValueId>>, p: int)
    requires
        instr is F32Mul,
        (w.0 as int) < p,
        (w_bar.0 as int) < p,
        p + 12 < u16::MAX,
        forall|j: int|
            0 <= j < instr.operands().len() ==> (#[trigger] instr.operands()[j]).0.0 < p && (instr.operands()[j].0.0 as int)
                < adj.len(),
        shares_distinct(instr),
    ensures
        chain_rule_holds(instr, w, w_bar, adj, p, chain_step(instr, w, w_bar, adj, p)),
{
    let ops = instr.operands();
    if ops.len() > 0 {
        assert(ops[0].0.0 < p);
    }
    if ops.len() > 1 {
        assert(ops[1].0.0 < p);
    }
    if ops.len() > 2 {
        assert(ops[2].0.0 < p);
    }
}

/// `law_chain_rule` for an instruction `F32Div`.
#[verifier::rlimit(50)]
proof fn lemma_chain_step_rule_f32div(instr: Instr, w: ValueId, w_bar: ValueId, adj: Seq<Option<ValueId>>, p: int)
    requires
        instr is F32Div,
        (w.0 as int) < p,
        (w_bar.0 as int) < p,
        p + 12 < u16::MAX,
        forall|j: int|
            0 <= j < instr.operands().len() ==> (#[trigger] instr.operands()[j]).0.0 < p && (instr.operands()[j].0.0 as int)
                < adj.len(),
        shares_distinct(instr),
    ensures
        chain_rule_holds(instr, w, w_bar, adj, p, chain_step(instr, w, w_bar, adj, p)),
{
    let ops = instr.operands();
    if ops.len() > 0 {
        assert(ops[0].0.0 < p);
    }
    if ops.len() > 1 {
        assert(ops[1].0.0 < p);
    }
    if ops.len() > 2 {
        assert(ops[2].0.0 < p);
    }
}

/// `law_chain_rule` for an instruction `F32Powf`.
#[verifier::rlimit(50)]
proof fn lemma_chain_step_rule_f32powf(instr: Instr, w: ValueId, w_bar: ValueId, adj: Seq<Option<ValueId>>, p: int)
    requires
        instr is F32Powf,
        (w.0 as int) < p,
        (w_bar.0 as int) < p,
        p + 12 < u16::MAX,
        forall|j: int|
            0 <= j < instr.operands().len() ==> (#[trigger] instr.operands()[j]).0.0 < p && (instr.operands()[j].0.0 as int)
                < adj.len(),
        shares_distinct(instr),
    ensures
        chain_rule_holds(instr, w, w_bar, adj, p, chain_step(instr, w, w_bar, adj, p)),
{
    let ops = instr.operands();
    if ops.len() > 0 {
        assert(ops[0].0.0 < p);
    }
    if ops.len() > 1 {
        assert(ops[1].0.0 < p);
    }
    if ops.len() > 2 {
        assert(ops[2].0.0 < p);
    }
}

/// `law_chain_rule` for an instruction `F32Powi`.
#[verifier::rlimit(50)]
proof fn lemma_chain_step_rule_f32powi(instr: Instr, w: ValueId, w_bar: ValueId, adj: Seq<Option<ValueId>>, p: int)
    requires
        instr is F32Powi,
        (w.0 as int) < p,
        (w_bar.0 as int) < p,
        p + 12 < u16::MAX,
        forall|j: int|
            0 <= j < instr.operands().len() ==> (#[trigger] instr.operands()[j]).0.0 < p && (instr.operands()[j].0.0 as int)
                < adj.len(),
        shares_distinct(instr),
    ensures
        chain_rule_holds(instr, w, w_bar, adj, p, chain_step(instr, w, w_bar, adj, p)),
{
    let ops = instr.operands();
    if ops.len() > 0 {
        assert(ops[0].0.0 < p);
    }
    if ops.len() > 1 {
        assert(ops[1].0.0 < p);
    }
    if ops.len() > 2 {
        assert(ops[2].0.0 < p);
    }
}

/// `law_chain_rule` for an instruction `F32Exp`.
#[verifier::rlimit(50)]
proof fn lemma_chain_step_rule_f32exp(instr: Instr, w: ValueId, w_bar: ValueId, adj: Seq<Option<ValueId>>, p: int)
    requires
        instr is F32Exp,
        (w.0 as int) < p,
        (w_bar.0 as int) < p,
        p + 12 < u16::MAX,
        forall|j: int|
            0 <= j < instr.operands().len() ==> (#[trigger] instr.operands()[j]).0.0 < p && (instr.operands()[j].0.0 as int)
                < adj.len(),
        shares_distinct(instr),
    ensures
        chain_rule_holds(instr, w, w_bar, adj, p, chain_step(instr, w, w_bar, adj, p)),
{
    let ops = instr.operands();
    if ops.len() > 0 {
        assert(ops[0].0.0 < p);
    }
    if ops.len() > 1 {
        assert(ops[1].0.0 < p);
    }
    if ops.len() > 2 {
        assert(ops[2].0.0 < p);
    }
}

/// `law_chain_rule` for an instruction `F32Ln`.
#[verifier::rlimit(50)]
proof fn lemma_chain_step_rule_f32ln(instr: Instr, w: ValueId, w_bar: ValueId, adj: Seq<Option<ValueId>>, p: int)
    requires
        instr is F32Ln,
        (w.0 as int) < p,
        (w_bar.0 as int) < p,
        p + 12 < u16::MAX,
        forall|j: int|
            0 <= j < instr.operands().len() ==> (#[trigger] instr.operands()[j]).0.0 < p && (instr.operands()[j].0.0 as int)
                < adj.len(),
        shares_distinct(instr),
    ensures
        chain_rule_holds(instr, w, w_bar, adj, p, chain_step(instr, w, w_bar, adj, p)),
{
    let ops = instr.operands();
    if ops.len() > 0 {
        assert(ops[0].0.0 < p);
    }
    if ops.len() > 1 {
        assert(ops[1].0.0 < p);
    }
    if ops.len() > 2 {
        assert(ops[2].0.0 < p);
    }
}

/// `law_chain_rule` for an instruction `F32Lg`.
#[verifier::rlimit(50)]
proof fn lemma_chain_step_rule_f32lg(instr: Instr, w: ValueId, w_bar: ValueId, adj: Seq<Option<ValueId>>, p: int)
    requires
        instr is F32Lg,
        (w.0 as int) < p,
        (w_bar.0 as int) < p,
        p + 12 < u16::MAX,
        forall|j: int|
            0 <= j < instr.operands().len() ==> (#[trigger] instr.operands()[j]).0.0 < p && (instr.operands()[j].0.0 as int)
                < adj.len(),
        shares_distinct(instr),
    ensures
        chain_rule_holds(instr, w, w_bar, adj, p, chain_step(instr, w, w_bar, adj, p)),
{
    let ops = instr.operands();
    if ops.len() > 0 {
        assert(ops[0].0.0 < p);
    }
    if ops.len() > 1 {
        assert(ops[1].0.0 < p);
    }
    if ops.len() > 2 {
        assert(ops[2].0.0 < p);
    }
}

/// `law_chain_rule` for an instruction `F32Sin`.
#[verifier::rlimit(50)]
proof fn lemma_chain_step_rule_f32sin(instr: Instr, w: ValueId, w_bar: ValueId, adj: Seq<Option<ValueId>>, p: int)
    requires
        instr is F32Sin,
        (w.0 as int) < p,
        (w_bar.0 as int) < p,
        p + 12 < u16::MAX,
        forall|j: int|
            0 <= j < instr.operands().len() ==> (#[trigger] instr.operands()[j]).0.0 < p && (instr.operands()[j].0.0 as int)
                < adj.len(),
        shares_distinct(instr),
    ensures
        chain_rule_holds(instr, w, w_bar, adj, p, chain_step(instr, w, w_bar, adj, p)),
{
    let ops = instr.operands();
    if ops.len() > 0 {
        assert(ops[0].0.0 < p);
    }
    if ops.len() > 1 {
        assert(ops[1].0.0 < p);
    }
    if ops.len() > 2 {
        assert(ops[2].0.0 < p);
    }
}

/// `law_chain_rule` for an instruction `F32Cos`.
#[verifier::rlimit(50)]
proof fn lemma_chain_step_rule_f32cos(instr: Instr, w: ValueId, w_bar: ValueId, adj: Seq<Option<ValueId>>, p: int)
    requires
        instr is F32Cos,
        (w.0 as int) < p,
        (w_bar.0 as int) < p,
        p + 12 < u16::MAX,
        forall|j: int|
            0 <= j < instr.operands().len() ==> (#[trigger] instr.operands()[j]).0.0 < p && (instr.operands()[j].0.0 as int)
                < adj.len(),
        shares_distinct(instr),
    ensures
        chain_rule_holds(instr, w, w_bar, adj, p, chain_step(instr, w, w_bar, adj, p)),
{
    let ops = instr.operands();
    if ops.len() > 0 {
        assert(ops[0].0.0 < p);
    }
    if ops.len() > 1 {
        assert(ops[1].0.0 < p);
    }
    if ops.len() > 2 {
        assert(ops[2].0.0 < p);
    }
}

/// `law_chain_rule` for an instruction `F32Tan`.
#[verifier::rlimit(50)]
proof fn lemma_chain_step_rule_f32tan(instr: Instr, w: ValueId, w_bar: ValueId, adj: Seq<Option<ValueId>>, p: int)
    requires
        instr is F32Tan,
        (w.0 as int) < p,
        (w_bar.0 as int) < p,
        p + 12 < u16::MAX,
        forall|j: int|
            0 <= j < instr.operands().len() ==> (#[trigger] instr.operands()[j]).0.0 < p && (instr.operands()[j].0.0 as int)
                < adj.len(),
        shares_distinct(instr),
    ensures
        chain_rule_holds(instr, w, w_bar, adj, p, chain_step(instr, w, w_bar, adj, p)),
{
    let ops = instr.operands();
    if ops.len() > 0 {
        assert(ops[0].0.0 < p);
    }
    if ops.len() > 1 {
        assert(ops[1].0.0 < p);
    }
    if ops.len() > 2 {
        assert(ops[2].0.0 < p);
    }
}

/// `law_chain_rule` for an instruction `F32Cot`.
#[verifier::rlimit(50)]
proof fn lemma_chain_step_rule_f32cot(instr: Instr, w: ValueId, w_bar: ValueId, adj: Seq<Option<ValueId>>, p: int)
    requires
        instr is F32Cot,
        (w.0 as int) < p,
        (w_bar.0 as int) < p,
        p + 12 < u16::MAX,
        forall|j: int|
            0 <= j < instr.operands().len() ==> (#[trigger] instr.operands()[j]).0.0 < p && (instr.operands()[j].0.0 as int)
                < adj.len(),
        shares_distinct(instr),
    ensures
        chain_rule_holds(instr, w, w_bar, adj, p, chain_step(instr, w, w_bar, adj, p)),
{
    let ops = instr.operands();
    if ops.len() > 0 {
        assert(ops[0].0.0 < p);
    }
    if ops.len() > 1 {
        assert(ops[1].0.0 < p);
    }
    if ops.len() > 2 {
        assert(ops[2].0.0 < p);
    }
}

/// `law_chain_rule` for an instruction `F32Min`.
#[verifier::rlimit(50)]
proof fn lemma_chain_step_rule_f32min(instr: Instr, w: ValueId, w_bar: ValueId, adj: Seq<Option<ValueId>>, p: int)
    requires
        instr is F32Min,
        (w.0 as int) < p,
        (w_bar.0 as int) < p,
        p + 12 < u16::MAX,
        forall|j: int|
            0 <= j < instr.operands().len() ==> (#[trigger] instr.operands()[j]).0.0 < p && (instr.operands()[j].0.0 as int)
                < adj.len(),
        shares_distinct(instr),
    ensures
        chain_rule_holds(instr, w, w_bar, adj, p, chain_step(instr, w, w_bar, adj, p)),
{
    let ops = instr.operands();
    if ops.len() > 0 {
        assert(ops[0].0.0 < p);
    }
    if ops.len() > 1 {
        assert(ops[1].0.0 < p);
    }
    if ops.len() > 2 {
        assert(ops[2].0.0 < p);
    }
}

/// `law_chain_rule` for an instruction `F32Max`.
#[verifier::rlimit(50)]
proof fn lemma_chain_step_rule_f32max(instr: Instr, w: ValueId, w_bar: ValueId, adj: Seq<Option<ValueId>>, p: int)
    requires
        instr is F32Max,
        (w.0 as int) < p,
        (w_bar.0 as int) < p,
        p + 12 < u16::MAX,
        forall|j: int|
            0 <= j < instr.operands().len() ==> (#[trigger] instr.operands()[j]).0.0 < p && (instr.operands()[j].0.0 as int)
                < adj.len(),
        shares_distinct(instr),
    ensures
        chain_rule_holds(instr, w, w_bar, adj, p, chain_step(instr, w, w_bar, adj, p)),
{
    let ops = instr.operands();
    if ops.len() > 0 {
        assert(ops[0].0.0 < p);
    }
    if ops.len() > 1 {
        assert(ops[1].0.0 < p);
    }
    if ops.len() > 2 {
        assert(ops[2].0.0 < p);
    }
}

/// `law_chain_rule` for an instruction `F32Sel`.
#[verifier::rlimit(50)]
proof fn lemma_chain_step_rule_f32sel(instr: Instr, w: ValueId, w_bar: ValueId, adj: Seq<Option<ValueId>>, p: int)
    requires
        instr is F32Sel,
        (w.0 as int) < p,
        (w_bar.0 as int) < p,
        p + 12 < u16::MAX,
        forall|j: int|
            0 <= j < instr.operands().len() ==> (#[trigger] instr.operands()[j]).0.0 < p && (instr.operands()[j].0.0 as int)
                < adj.len(),
        shares_distinct(instr),
    ensures
        chain_rule_holds(instr, w, w_bar, adj, p, chain_step(instr, w, w_bar, adj, p)),
{
    let ops = instr.operands();
    if ops.len() > 0 {
        assert(ops[0].0.0 < p);
    }
    if ops.len() > 1 {
        assert(ops[1].0.0 < p);
    }
    if ops.len() > 2 {
        assert(ops[2].0.0 < p);
    }
}

/// A step of the reverse pass appends at most twelve values, and leaves adjoints that
/// are values made before its end.
proof fn lemma_chain_step_bounds(instr: Instr, w: ValueId, w_bar: ValueId, adj: Seq<Option<ValueId>>, p: int)
    requires
        (w_bar.0 as int) < p,
        0 <= p,
        p + 12 < u16::MAX,
        forall|j: int| 0 <= j < instr.operands().len() ==> ((#[trigger] instr.operands()[j]).0.0 as int) < adj.len(),
        forall|i: int| 0 <= i < adj.len() ==> (#[trigger] adj[i] matches Some(v) ==> (v.0 as int) < p),
    ensures
        chain_step(instr, w, w_bar, adj, p).0.len() <= 12,
        chain_step(instr, w, w_bar, adj, p).1.len() == adj.len(),
        forall|i: int|
            0 <= i < adj.len() ==> (#[trigger] chain_step(instr, w, w_bar, adj, p).1[i] matches Some(v) ==> (v.0 as int)
                < p + chain_step(instr, w, w_bar, adj, p).0.len()),
{
    match instr {
        Instr::CopyF32(..) => lemma_chain_step_bounds_copyf32(instr, w, w_bar, adj, p),
        Instr::F32Neg(..) => lemma_chain_step_bounds_f32neg(instr, w, w_bar, adj, p),
        Instr::F32Abs(..) => lemma_chain_step_bounds_f32abs(instr, w, w_bar, adj, p),
        Instr::F32Add(..) => lemma_chain_step_bounds_f32add(instr, w, w_bar, adj, p),
        Instr::F32Sub(..) => lemma_chain_step_bounds_f32sub(instr, w, w_bar, adj, p),
        Instr::F32Mul(..) => lemma_chain_step_bounds_f32mul(instr, w, w_bar, adj, p),
        Instr::F32Div(..) => lemma_chain_step_bounds_f32div(instr, w, w_bar, adj, p),
        Instr::F32Powf(..) => lemma_chain_step_bounds_f32powf(instr, w, w_bar, adj, p),
        Instr::F32Powi(..) => lemma_chain_step_bounds_f32powi(instr, w, w_bar, adj, p),
        Instr::F32Exp(..) => lemma_chain_step_bounds_f32exp(instr, w, w_bar, adj, p),
        Instr::F32Ln(..) => lemma_chain_step_bounds_f32ln(instr, w, w_bar, adj, p),
        Instr::F32Lg(..) => lemma_chain_step_bounds_f32lg(instr, w, w_bar, adj, p),
        Instr::F32Sin(..) => lemma_chain_step_bounds_f32sin(instr, w, w_bar, adj, p),
        Instr::F32Cos(..) => lemma_chain_step_bounds_f32cos(instr, w, w_bar, adj, p),
        Instr::F32Tan(..) => lemma_chain_step_bounds_f32tan(instr, w, w_bar, adj, p),
        Instr::F32Cot(..) => lemma_chain_step_bounds_f32cot(instr, w, w_bar, adj, p),
        Instr::F32Min(..) => lemma_chain_step_bounds_f32min(instr, w, w_bar, adj, p),
        Instr::F32Max(..) => lemma_chain_step_bounds_f32max(instr, w, w_bar, adj, p),
        Instr::F32Sel(..) => lemma_chain_step_bounds_f32sel(instr, w, w_bar, adj, p),
        _ => {},
    }
}

/// `lemma_chain_step_bounds` for an instruction `CopyF32`.
#[verifier::rlimit(50)]
proof fn lemma_chain_step_bounds_copyf32(instr: Instr, w: ValueId, w_bar: ValueId, adj: Seq<Option<ValueId>>, p: int)
    requires
        instr is CopyF32,
        (w_bar.0 as int) < p,
        0 <= p,
        p + 12 < u16::MAX,
        forall|j: int| 0 <= j < instr.operands().len() ==> ((#[trigger] instr.operands()[j]).0.0 as int) < adj.len(),
        forall|i: int| 0 <= i < adj.len() ==> (#[trigger] adj[i] matches Some(v) ==> (v.0 as int) < p),
    ensures
        chain_step(instr, w, w_bar, adj, p).0.len() <= 12,
        chain_step(instr, w, w_bar, adj, p).1.len() == adj.len(),
        forall|i: int|
            0 <= i < adj.len() ==> (#[trigger] chain_step(instr, w, w_bar, adj, p).1[i] matches Some(v) ==> (v.0 as int)
                < p + chain_step(instr, w, w_bar, adj, p).0.len()),
{
    let ops = instr.operands();
    if ops.len() > 0 {
        assert((ops[0].0.0 as int) < adj.len());
    }
    if ops.len() > 1 {
        assert((ops[1].0.0 as int) < adj.len());
    }
    if ops.len() > 2 {
        assert((ops[2].0.0 as int) < adj.len());
    }
}

/// `lemma_chain_step_bounds` for an instruction `F32Neg`.
#[verifier::rlimit(50)]
proof fn lemma_chain_step_bounds_f32neg(instr: Instr, w: ValueId, w_bar: ValueId, adj: Seq<Option<ValueId>>, p: int)
    requires
        instr is F32Neg,
        (w_bar.0 as int) < p,
        0 <= p,
        p + 12 < u16::MAX,
        forall|j: int| 0 <= j < instr.operands().len() ==> ((#[trigger] instr.operands()[j]).0.0 as int) < adj.len(),
        forall|i: int| 0 <= i < adj.len() ==> (#[trigger] adj[i] matches Some(v) ==> (v.0 as int) < p),
    ensures
        chain_step(instr, w, w_bar, adj, p).0.len() <= 12,
        chain_step(instr, w, w_bar, adj, p).1.len() == adj.len(),
        forall|i: int|
            0 <= i < adj.len() ==> (#[trigger] chain_step(instr, w, w_bar, adj, p).1[i] matches Some(v) ==> (v.0 as int)
                < p + chain_step(instr, w, w_bar, adj, p).0.len()),
{
    let ops = instr.operands();
    if ops.len() > 0 {
        assert((ops[0].0.0 as int) < adj.len());
    }
    if ops.len() > 1 {
        assert((ops[1].0.0 as int) < adj.len());
    }
    if ops.len() > 2 {
        assert((ops[2].0.0 as int) < adj.len());
    }
}

/// `lemma_chain_step_bounds` for an instruction `F32Abs`.
#[verifier::rlimit(50)]
proof fn lemma_chain_step_bounds_f32abs(instr: Instr, w: ValueId, w_bar: ValueId, adj: Seq<Option<ValueId>>, p: int)
    requires
        instr is F32Abs,
        (w_bar.0 as int) < p,
        0 <= p,
        p + 12 < u16::MAX,
        forall|j: int| 0 <= j < instr.operands().len() ==> ((#[trigger] instr.operands()[j]).0.0 as int) < adj.len(),
        forall|i: int| 0 <= i < adj.len() ==> (#[trigger] adj[i] matches Some(v) ==> (v.0 as int) < p),
    ensures
        chain_step(instr, w, w_bar, adj, p).0.len() <= 12,
        chain_step(instr, w, w_bar, adj, p).1.len() == adj.len(),
        forall|i: int|
            0 <= i < adj.len() ==> (#[trigger] chain_step(instr, w, w_bar, adj, p).1[i] matches Some(v) ==> (v.0 as int)
                < p + chain_step(instr, w, w_bar, adj, p).0.len()),
{
    let ops = instr.operands();
    if ops.len() > 0 {
        assert((ops[0].0.0 as int) < adj.len());
    }
    if ops.len() > 1 {
        assert((ops[1].0.0 as int) < adj.len());
    }
    if ops.len() > 2 {
        assert((ops[2].0.0 as int) < adj.len());
    }
}

/// `lemma_chain_step_bounds` for an instruction `F32Add`.
#[verifier::rlimit(50)]
proof fn lemma_chain_step_bounds_f32add(instr: Instr, w: ValueId, w_bar: ValueId, adj: Seq<Option<ValueId>>, p: int)
    requires
        instr is F32Add,
        (w_bar.0 as int) < p,
        0 <= p,
        p + 12 < u16::MAX,
        forall|j: int| 0 <= j < instr.operands().len() ==> ((#[trigger] instr.operands()[j]).0.0 as int) < adj.len(),
        forall|i: int| 0 <= i < adj.len() ==> (#[trigger] adj[i] matches Some(v) ==> (v.0 as int) < p),
    ensures
        chain_step(instr, w, w_bar, adj, p).0.len() <= 12,
        chain_step(instr, w, w_bar, adj, p).1.len() == adj.len(),
        forall|i: int|
            0 <= i < adj.len() ==> (#[trigger] chain_step(instr, w, w_bar, adj, p).1[i] matches Some(v) ==> (v.0 as int)
                < p + chain_step(instr, w, w_bar, adj, p).0.len()),
{
    let ops = instr.operands();
    if ops.len() > 0 {
        assert((ops[0].0.0 as int) < adj.len());
    }
    if ops.len() > 1 {
        assert((ops[1].0.0 as int) < adj.len());
    }
    if ops.len() > 2 {
        assert((ops[2].0.0 as int) < adj.len());
    }
}

/// `lemma_chain_step_bounds` for an instruction `F32Sub`.
#[verifier::rlimit(50)]
proof fn lemma_chain_step_bounds_f32sub(instr: Instr, w: ValueId, w_bar: ValueId, adj: Seq<Option<ValueId>>, p: int)
    requires
        instr is F32Sub,
        (w_bar.0 as int) < p,
        0 <= p,
        p + 12 < u16::MAX,
        forall|j: int| 0 <= j < instr.operands().len() ==> ((#[trigger] instr.operands()[j]).0.0 as int) < adj.len(),
        forall|i: int| 0 <= i < adj.len() ==> (#[trigger] adj[i] matches Some(v) ==> (v.0 as int) < p),
    ensures
        chain_step(instr, w, w_bar, adj, p).0.len() <= 12,
        chain_step(instr, w, w_bar, adj, p).1.len() == adj.len(),
        forall|i: int|
            0 <= i < adj.len() ==> (#[trigger] chain_step(instr, w, w_bar, adj, p).1[i] matches Some(v) ==> (v.0 as int)
                < p + chain_step(instr, w, w_bar, adj, p).0.len()),
{
    let ops = instr.operands();
    if ops.len() > 0 {
        assert((ops[0].0.0 as int) < adj.len());
    }
    if ops.len() > 1 {
        assert((ops[1].0.0 as int) < adj.len());
    }
    if ops.len() > 2 {
        assert((ops[2].0.0 as int) < adj.len());
    }
}

/// `lemma_chain_step_bounds` for an instruction `F32Mul`.
#[verifier::rlimit(50)]
proof fn lemma_chain_step_bounds_f32mul(instr: Instr, w: ValueId, w_bar: ValueId, adj: Seq<Option<ValueId>>, p: int)
    requires
        instr is F32Mul,
        (w_bar.0 as int) < p,
        0 <= p,
        p + 12 < u16::MAX,
        forall|j: int| 0 <= j < instr.operands().len() ==> ((#[trigger] instr.operands()[j]).0.0 as int) < adj.len(),
        forall|i: int| 0 <= i < adj.len() ==> (#[trigger] adj[i] matches Some(v) ==> (v.0 as int) < p),
    ensures
        chain_step(instr, w, w_bar, adj, p).0.len() <= 12,
        chain_step(instr, w, w_bar, adj, p).1.len() == adj.len(),
        forall|i: int|
            0 <= i < adj.len() ==> (#[trigger] chain_step(instr, w, w_bar, adj, p).1[i] matches Some(v) ==> (v.0 as int)
                < p + chain_step(instr, w, w_bar, adj, p).0.len()),
{
    let ops = instr.operands();
    if ops.len() > 0 {
        assert((ops[0].0.0 as int) < adj.len());
    }
    if ops.len() > 1 {
        assert((ops[1].0.0 as int) < adj.len());
    }
    if ops.len() > 2 {
        assert((ops[2].0.0 as int) < adj.len());
    }
}

/// `lemma_chain_step_bounds` for an instruction `F32Div`.
#[verifier::rlimit(50)]
proof fn lemma_chain_step_bounds_f32div(instr: Instr, w: ValueId, w_bar: ValueId, adj: Seq<Option<ValueId>>, p: int)
    requires
        instr is F32Div,
        (w_bar.0 as int) < p,
        0 <= p,
        p + 12 < u16::MAX,
        forall|j: int| 0 <= j < instr.operands().len() ==> ((#[trigger] instr.operands()[j]).0.0 as int) < adj.len(),
        forall|i: int| 0 <= i < adj.len() ==> (#[trigger] adj[i] matches Some(v) ==> (v.0 as int) < p),
    ensures
        chain_step(instr, w, w_bar, adj, p).0.len() <= 12,
        chain_step(instr, w, w_bar, adj, p).1.len() == adj.len(),
        forall|i: int|
            0 <= i < adj.len() ==> (#[trigger] chain_step(instr, w, w_bar, adj, p).1[i] matches Some(v) ==> (v.0 as int)
                < p + chain_step(instr, w, w_bar, adj, p).0.len()),
{
    let ops = instr.operands();
    if ops.len() > 0 {
        assert((ops[0].0.0 as int) < adj.len());
    }
    if ops.len() > 1 {
        assert((ops[1].0.0 as int) < adj.len());
    }
    if ops.len() > 2 {
        assert((ops[2].0.0 as int) < adj.len());
    }
}

/// `lemma_chain_step_bounds` for an instruction `F32Powf`.
#[verifier::rlimit(50)]
proof fn lemma_chain_step_bounds_f32powf(instr: Instr, w: ValueId, w_bar: ValueId, adj: Seq<Option<ValueId>>, p: int)
    requires
        instr is F32Powf,
        (w_bar.0 as int) < p,
        0 <= p,
        p + 12 < u16::MAX,
        forall|j: int| 0 <= j < instr.operands().len() ==> ((#[trigger] instr.operands()[j]).0.0 as int) < adj.len(),
        forall|i: int| 0 <= i < adj.len() ==> (#[trigger] adj[i] matches Some(v) ==> (v.0 as int) < p),
    ensures
        chain_step(instr, w, w_bar, adj, p).0.len() <= 12,
        chain_step(instr, w, w_bar, adj, p).1.len() == adj.len(),
        forall|i: int|
            0 <= i < adj.len() ==> (#[trigger] chain_step(instr, w, w_bar, adj, p).1[i] matches Some(v) ==> (v.0 as int)
                < p + chain_step(instr, w, w_bar, adj, p).0.len()),
{
    let ops = instr.operands();
    if ops.len() > 0 {
        assert((ops[0].0.0 as int) < adj.len());
    }
    if ops.len() > 1 {
        assert((ops[1].0.0 as int) < adj.len());
    }
    if ops.len() > 2 {
        assert((ops[2].0.0 as int) < adj.len());
    }
}

/// `lemma_chain_step_bounds` for an instruction `F32Powi`.
#[verifier::rlimit(50)]
proof fn lemma_chain_step_bounds_f32powi(instr: Instr, w: ValueId, w_bar: ValueId, adj: Seq<Option<ValueId>>, p: int)
    requires
        instr is F32Powi,
        (w_bar.0 as int) < p,
        0 <= p,
        p + 12 < u16::MAX,
        forall|j: int| 0 <= j < instr.operands().len() ==> ((#[trigger] instr.operands()[j]).0.0 as int) < adj.len(),
        forall|i: int| 0 <= i < adj.len() ==> (#[trigger] adj[i] matches Some(v) ==> (v.0 as int) < p),
    ensures
        chain_step(instr, w, w_bar, adj, p).0.len() <= 12,
        chain_step(instr, w, w_bar, adj, p).1.len() == adj.len(),
        forall|i: int|
            0 <= i < adj.len() ==> (#[trigger] chain_step(instr, w, w_bar, adj, p).1[i] matches Some(v) ==> (v.0 as int)
                < p + chain_step(instr, w, w_bar, adj, p).0.len()),
{
    let ops = instr.operands();
    if ops.len() > 0 {
        assert((ops[0].0.0 as int) < adj.len());
    }
    if ops.len() > 1 {
        assert((ops[1].0.0 as int) < adj.len());
    }
    if ops.len() > 2 {
        assert((ops[2].0.0 as int) < adj.len());
    }
}

/// `lemma_chain_step_bounds` for an instruction `F32Exp`.
#[verifier::rlimit(50)]
proof fn lemma_chain_step_bounds_f32exp(instr: Instr, w: ValueId, w_bar: ValueId, adj: Seq<Option<ValueId>>, p: int)
    requires
        instr is F32Exp,
        (w_bar.0 as int) < p,
        0 <= p,
        p + 12 < u16::MAX,
        forall|j: int| 0 <= j < instr.operands().len() ==> ((#[trigger] instr.operands()[j]).0.0 as int) < adj.len(),
        forall|i: int| 0 <= i < adj.len() ==> (#[trigger] adj[i] matches Some(v) ==> (v.0 as int) < p),
    ensures
        chain_step(instr, w, w_bar, adj, p).0.len() <= 12,
        chain_step(instr, w, w_bar, adj, p).1.len() == adj.len(),
        forall|i: int|
            0 <= i < adj.len() ==> (#[trigger] chain_step(instr, w, w_bar, adj, p).1[i] matches Some(v) ==> (v.0 as int)
                < p + chain_step(instr, w, w_bar, adj, p).0.len()),
{
    let ops = instr.operands();
    if ops.len() > 0 {
        assert((ops[0].0.0 as int) < adj.len());
    }
    if ops.len() > 1 {
        assert((ops[1].0.0 as int) < adj.len());
    }
    if ops.len() > 2 {
        assert((ops[2].0.0 as int) < adj.len());
    }
}

/// `lemma_chain_step_bounds` for an instruction `F32Ln`.
#[verifier::rlimit(50)]
proof fn lemma_chain_step_bounds_f32ln(instr: Instr, w: ValueId, w_bar: ValueId, adj: Seq<Option<ValueId>>, p: int)
    requires
        instr is F32Ln,
        (w_bar.0 as int) < p,
        0 <= p,
        p + 12 < u16::MAX,
        forall|j: int| 0 <= j < instr.operands().len() ==> ((#[trigger] instr.operands()[j]).0.0 as int) < adj.len(),
        forall|i: int| 0 <= i < adj.len() ==> (#[trigger] adj[i] matches Some(v) ==> (v.0 as int) < p),
    ensures
        chain_step(instr, w, w_bar, adj, p).0.len() <= 12,
        chain_step(instr, w, w_bar, adj, p).1.len() == adj.len(),
        forall|i: int|
            0 <= i < adj.len() ==> (#[trigger] chain_step(instr, w, w_bar, adj, p).1[i] matches Some(v) ==> (v.0 as int)
                < p + chain_step(instr, w, w_bar, adj, p).0.len()),
{
    let ops = instr.operands();
    if ops.len() > 0 {
        assert((ops[0].0.0 as int) < adj.len());
    }
    if ops.len() > 1 {
        assert((ops[1].0.0 as int) < adj.len());
    }
    if ops.len() > 2 {
        assert((ops[2].0.0 as int) < adj.len());
    }
}

/// `lemma_chain_step_bounds` for an instruction `F32Lg`.
#[verifier::rlimit(50)]
proof fn lemma_chain_step_bounds_f32lg(instr: Instr, w: ValueId, w_bar: ValueId, adj: Seq<Option<ValueId>>, p: int)
    requires
        instr is F32Lg,
        (w_bar.0 as int) < p,
        0 <= p,
        p + 12 < u16::MAX,
        forall|j: int| 0 <= j < instr.operands().len() ==> ((#[trigger] instr.operands()[j]).0.0 as int) < adj.len(),
        forall|i: int| 0 <= i < adj.len() ==> (#[trigger] adj[i] matches Some(v) ==> (v.0 as int) < p),
    ensures
        chain_step(instr, w, w_bar, adj, p).0.len() <= 12,
        chain_step(instr, w, w_bar, adj, p).1.len() == adj.len(),
        forall|i: int|
            0 <= i < adj.len() ==> (#[trigger] chain_step(instr, w, w_bar, adj, p).1[i] matches Some(v) ==> (v.0 as int)
                < p + chain_step(instr, w, w_bar, adj, p).0.len()),
{
    let ops = instr.operands();
    if ops.len() > 0 {
        assert((ops[0].0.0 as int) < adj.len());
    }
    if ops.len() > 1 {
        assert((ops[1].0.0 as int) < adj.len());
    }
    if ops.len() > 2 {
        assert((ops[2].0.0 as int) < adj.len());
    }
}

/// `lemma_chain_step_bounds` for an instruction `F32Sin`.
#[verifier::rlimit(50)]
proof fn lemma_chain_step_bounds_f32sin(instr: Instr, w: ValueId, w_bar: ValueId, adj: Seq<Option<ValueId>>, p: int)
    requires
        instr is F32Sin,
        (w_bar.0 as int) < p,
        0 <= p,
        p + 12 < u16::MAX,
        forall|j: int| 0 <= j < instr.operands().len() ==> ((#[trigger] instr.operands()[j]).0.0 as int) < adj.len(),
        forall|i: int| 0 <= i < adj.len() ==> (#[trigger] adj[i] matches Some(v) ==> (v.0 as int) < p),
    ensures
        chain_step(instr, w, w_bar, adj, p).0.len() <= 12,
        chain_step(instr, w, w_bar, adj, p).1.len() == adj.len(),
        forall|i: int|
            0 <= i < adj.len() ==> (#[trigger] chain_step(instr, w, w_bar, adj, p).1[i] matches Some(v) ==> (v.0 as int)
                < p + chain_step(instr, w, w_bar, adj, p).0.len()),
{
    let ops = instr.operands();
    if ops.len() > 0 {
        assert((ops[0].0.0 as int) < adj.len());
    }
    if ops.len() > 1 {
        assert((ops[1].0.0 as int) < adj.len());
    }
    if ops.len() > 2 {
        assert((ops[2].0.0 as int) < adj.len());
    }
}

/// `lemma_chain_step_bounds` for an instruction `F32Cos`.
#[verifier::rlimit(50)]
proof fn lemma_chain_step_bounds_f32cos(instr: Instr, w: ValueId, w_bar: ValueId, adj: Seq<Option<ValueId>>, p: int)
    requires
        instr is F32Cos,
        (w_bar.0 as int) < p,
        0 <= p,
        p + 12 < u16::MAX,
        forall|j: int| 0 <= j < instr.operands().len() ==> ((#[trigger] instr.operands()[j]).0.0 as int) < adj.len(),
        forall|i: int| 0 <= i < adj.len() ==> (#[trigger] adj[i] matches Some(v) ==> (v.0 as int) < p),
    ensures
        chain_step(instr, w, w_bar, adj, p).0.len() <= 12,
        chain_step(instr, w, w_bar, adj, p).1.len() == adj.len(),
        forall|i: int|
            0 <= i < adj.len() ==> (#[trigger] chain_step(instr, w, w_bar, adj, p).1[i] matches Some(v) ==> (v.0 as int)
                < p + chain_step(instr, w, w_bar, adj, p).0.len()),
{
    let ops = instr.operands();
    if ops.len() > 0 {
        assert((ops[0].0.0 as int) < adj.len());
    }
    if ops.len() > 1 {
        assert((ops[1].0.0 as int) < adj.len());
    }
    if ops.len() > 2 {
        assert((ops[2].0.0 as int) < adj.len());
    }
}

/// `lemma_chain_step_bounds` for an instruction `F32Tan`.
#[verifier::rlimit(50)]
proof fn lemma_chain_step_bounds_f32tan(instr: Instr, w: ValueId, w_bar: ValueId, adj: Seq<Option<ValueId>>, p: int)
    requires
        instr is F32Tan,
        (w_bar.0 as int) < p,
        0 <= p,
        p + 12 < u16::MAX,
        forall|j: int| 0 <= j < instr.operands().len() ==> ((#[trigger] instr.operands()[j]).0.0 as int) < adj.len(),
        forall|i: int| 0 <= i < adj.len() ==> (#[trigger] adj[i] matches Some(v) ==> (v.0 as int) < p),
    ensures
        chain_step(instr, w, w_bar, adj, p).0.len() <= 12,
        chain_step(instr, w, w_bar, adj, p).1.len() == adj.len(),
        forall|i: int|
            0 <= i < adj.len() ==> (#[trigger] chain_step(instr, w, w_bar, adj, p).1[i] matches Some(v) ==> (v.0 as int)
                < p + chain_step(instr, w, w_bar, adj, p).0.len()),
{
    let ops = instr.operands();
    if ops.len() > 0 {
        assert((ops[0].0.0 as int) < adj.len());
    }
    if ops.len() > 1 {
        assert((ops[1].0.0 as int) < adj.len());
    }
    if ops.len() > 2 {
        assert((ops[2].0.0 as int) < adj.len());
    }
}

/// `lemma_chain_step_bounds` for an instruction `F32Cot`.
#[verifier::rlimit(50)]
proof fn lemma_chain_step_bounds_f32cot(instr: Instr, w: ValueId, w_bar: ValueId, adj: Seq<Option<ValueId>>, p: int)
    requires
        instr is F32Cot,
        (w_bar.0 as int) < p,
        0 <= p,
        p + 12 < u16::MAX,
        forall|j: int| 0 <= j < instr.operands().len() ==> ((#[trigger] instr.operands()[j]).0.0 as int) < adj.len(),
        forall|i: int| 0 <= i < adj.len() ==> (#[trigger] adj[i] matches Some(v) ==> (v.0 as int) < p),
    ensures
        chain_step(instr, w, w_bar, adj, p).0.len() <= 12,
        chain_step(instr, w, w_bar, adj, p).1.len() == adj.len(),
        forall|i: int|
            0 <= i < adj.len() ==> (#[trigger] chain_step(instr, w, w_bar, adj, p).1[i] matches Some(v) ==> (v.0 as int)
                < p + chain_step(instr, w, w_bar, adj, p).0.len()),
{
    let ops = instr.operands();
    if ops.len() > 0 {
        assert((ops[0].0.0 as int) < adj.len());
    }
    if ops.len() > 1 {
        assert((ops[1].0.0 as int) < adj.len());
    }
    if ops.len() > 2 {
        assert((ops[2].0.0 as int) < adj.len());
    }
}

/// `lemma_chain_step_bounds` for an instruction `F32Min`.
#[verifier::rlimit(50)]
proof fn lemma_chain_step_bounds_f32min(instr: Instr, w: ValueId, w_bar: ValueId, adj: Seq<Option<ValueId>>, p: int)
    requires
        instr is F32Min,
        (w_bar.0 as int) < p,
        0 <= p,
        p + 12 < u16::MAX,
        forall|j: int| 0 <= j < instr.operands().len() ==> ((#[trigger] instr.operands()[j]).0.0 as int) < adj.len(),
        forall|i: int| 0 <= i < adj.len() ==> (#[trigger] adj[i] matches Some(v) ==> (v.0 as int) < p),
    ensures
        chain_step(instr, w, w_bar, adj, p).0.len() <= 12,
        chain_step(instr, w, w_bar, adj, p).1.len() == adj.len(),
        forall|i: int|
            0 <= i < adj.len() ==> (#[trigger] chain_step(instr, w, w_bar, adj, p).1[i] matches Some(v) ==> (v.0 as int)
                < p + chain_step(instr, w, w_bar, adj, p).0.len()),
{
    let ops = instr.operands();
    if ops.len() > 0 {
        assert((ops[0].0.0 as int) < adj.len());
    }
    if ops.len() > 1 {
        assert((ops[1].0.0 as int) < adj.len());
    }
    if ops.len() > 2 {
        assert((ops[2].0.0 as int) < adj.len());
    }
}

/// `lemma_chain_step_bounds` for an instruction `F32Max`.
#[verifier::rlimit(50)]
proof fn lemma_chain_step_bounds_f32max(instr: Instr, w: ValueId, w_bar: ValueId, adj: Seq<Option<ValueId>>, p: int)
    requires
        instr is F32Max,
        (w_bar.0 as int) < p,
        0 <= p,
        p + 12 < u16::MAX,
        forall|j: int| 0 <= j < instr.operands().len() ==> ((#[trigger] instr.operands()[j]).0.0 as int) < adj.len(),
        forall|i: int| 0 <= i < adj.len() ==> (#[trigger] adj[i] matches Some(v) ==> (v.0 as int) < p),
    ensures
        chain_step(instr, w, w_bar, adj, p).0.len() <= 12,
        chain_step(instr, w, w_bar, adj, p).1.len() == adj.len(),
        forall|i: int|
            0 <= i < adj.len() ==> (#[trigger] chain_step(instr, w, w_bar, adj, p).1[i] matches Some(v) ==> (v.0 as int)
                < p + chain_step(instr, w, w_bar, adj, p).0.len()),
{
    let ops = instr.operands();
    if ops.len() > 0 {
        assert((ops[0].0.0 as int) < adj.len());
    }
    if ops.len() > 1 {
        assert((ops[1].0.0 as int) < adj.len());
    }
    if ops.len() > 2 {
        assert((ops[2].0.0 as int) < adj.len());
    }
}

/// `lemma_chain_step_bounds` for an instruction `F32Sel`.
#[verifier::rlimit(50)]
proof fn lemma_chain_step_bounds_f32sel(instr: Instr, w: ValueId, w_bar: ValueId, adj: Seq<Option<ValueId>>, p: int)
    requires
        instr is F32Sel,
        (w_bar.0 as int) < p,
        0 <= p,
        p + 12 < u16::MAX,
        forall|j: int| 0 <= j < instr.operands().len() ==> ((#[trigger] instr.operands()[j]).0.0 as int) < adj.len(),
        forall|i: int| 0 <= i < adj.len() ==> (#[trigger] adj[i] matches Some(v) ==> (v.0 as int) < p),
    ensures
        chain_step(instr, w, w_bar, adj, p).0.len() <= 12,
        chain_step(instr, w, w_bar, adj, p).1.len() == adj.len(),
        forall|i: int|
            0 <= i < adj.len() ==> (#[trigger] chain_step(instr, w, w_bar, adj, p).1[i] matches Some(v) ==> (v.0 as int)
                < p + chain_step(instr, w, w_bar, adj, p).0.len()),
{
    let ops = instr.operands();
    if ops.len() > 0 {
        assert((ops[0].0.0 as int) < adj.len());
    }
    if ops.len() > 1 {
        assert((ops[1].0.0 as int) < adj.len());
    }
    if ops.len() > 2 {
        assert((ops[2].0.0 as int) < adj.len());
    }
}

/// The reverse pass over the instructions of `source` from `k` on, latest first: it
/// starts with the adjoint one for the result, and each instruction whose value has an
/// adjoint passes it on by `chain_step`.
pub open spec fn reverse_pass(source: Tape, k: int) -> Pass
    decreases source.spec_instrs().len() - k,
{
    let n = source.spec_args().len() as int;
    let m = source.spec_instrs().len() as int;
    if k >= m {
        (seq![Instr::F32Const(ONE_BITS)], Seq::new((n + m) as nat, |i: int| None).update(n + m - 1, Some(id_at(n + m))))
    } else {
        let before = reverse_pass(source, k + 1);
        match before.1[n + k] {
            None => before,
            Some(w_bar) => {
                let step = chain_step(source.spec_instrs()[k], id_at(n + k), w_bar, before.1, n + m + before.0.len());
                (before.0 + step.0, step.1)
            },
        }
    }
}

/// The reverse pass from `k` on has appended at most `1 + 12 * (m - k)` values, and
/// holds, for each source value, an adjoint made before its end, where there is one.
proof fn lemma_pass_bounds(source: Tape, k: int)
    requires
        differentiable(source),
        0 <= k <= source.spec_instrs().len(),
    ensures
        reverse_pass(source, k).1.len() == source.spec_args().len() + source.spec_instrs().len(),
        reverse_pass(source, k).0.len() <= 1 + 12 * (source.spec_instrs().len() - k),
        forall|i: int|
            0 <= i < reverse_pass(source, k).1.len() ==> (#[trigger] reverse_pass(source, k).1[i] matches Some(v) ==> (v.0
                as int) < source.spec_args().len() + source.spec_instrs().len() + reverse_pass(source, k).0.len()),
    decreases source.spec_instrs().len() - k,
{
    let n = source.spec_args().len() as int;
    let m = source.spec_instrs().len() as int;
    if k < m {
        lemma_pass_bounds(source, k + 1);
        let before = reverse_pass(source, k + 1);
        if let Some(w_bar) = before.1[n + k] {
            let p = n + m + before.0.len();
            let instr = source.spec_instrs()[k];
            lemma_operands_before(source, k);
            lemma_chain_step_bounds(instr, id_at(n + k), w_bar, before.1, p);
        }
    }
}

/// The operands of instruction `k` of a well-formed tape are values before it.
proof fn lemma_operands_before(source: Tape, k: int)
    requires
        source.wf(),
        0 <= k < source.spec_instrs().len(),
    ensures
        forall|j: int|
            0 <= j < source.spec_instrs()[k].operands().len() ==> ((#[trigger] source.spec_instrs()[k].operands()[j]).0.0 as int)
                < source.spec_args().len() + k,
{
    let n = source.spec_args().len() as int;
    assert(instr_well_typed(value_types(source.spec_args(), source.spec_instrs()), n + k, source.spec_instrs()[k]));
}

/// Law: in the gradient of `source` (`gradient_instrs`, which is what `autodiff` gives),
/// the instructions that the reverse pass appends for instruction `k`, whose value has
/// an adjoint, pass that adjoint on to its operands by the chain rule
/// (`chain_rule_holds`), where two operands that get shares are distinct.
pub proof fn law_gradient_chain_rule(source: Tape, k: int)
    requires
        differentiable(source),
        0 <= k < source.spec_instrs().len(),
        shares_distinct(source.spec_instrs()[k]),
        reverse_pass(source, k + 1).1[source.spec_args().len() + k] is Some,
    ensures
        ({
            let n = source.spec_args().len() as int;
            let m = source.spec_instrs().len() as int;
            let before = reverse_pass(source, k + 1);
            let after = reverse_pass(source, k);
            let step: Pass = (after.0.skip(before.0.len() as int), after.1);
            &&& after.0 == before.0 + step.0
            &&& chain_rule_holds(source.spec_instrs()[k], id_at(n + k), before.1[n + k]->0, before.1, n + m + before.0.len(), step)
        }),
{
    let n = source.spec_args().len() as int;
    let m = source.spec_instrs().len() as int;
    lemma_pass_bounds(source, k + 1);
    lemma_operands_before(source, k);
    let before = reverse_pass(source, k + 1);
    let w_bar = before.1[n + k]->0;
    let p = n + m + before.0.len();
    let instr = source.spec_instrs()[k];
    law_chain_rule(instr, id_at(n + k), w_bar, before.1, p);
    let st = chain_step(instr, id_at(n + k), w_bar, before.1, p);
    let after = reverse_pass(source, k);
    assert(after == (before.0 + st.0, st.1));
    assert(after.0.skip(before.0.len() as int) =~= st.0);
}

/// The instruction that gives the derivative by argument `i`: a copy of its adjoint, or
/// zero where it has none.
pub open spec fn derivative_instr(adj: Seq<Option<ValueId>>, i: int) -> Instr {
    match adj[i] {
        None => Instr::F32Const(ZERO_BITS),
        Some(v) => Instr::CopyF32(v),
    }
}

/// The instructions of the gradient tape of `source`: those of `source`, the reverse
/// pass, a copy of the result of `source`, and the derivative by each argument.
pub open spec fn gradient_instrs(source: Tape) -> Seq<Instr> {
    let n = source.spec_args().len() as int;
    let m = source.spec_instrs().len() as int;
    let pass = reverse_pass(source, 0);
    source.spec_instrs() + pass.0 + seq![Instr::CopyF32(id_at(n + m - 1))] + Seq::new(
        n as nat,
        |i: int| derivative_instr(pass.1, i),
    )
}

/// Differentiates `source`: the result has the arguments of `source`, and its results
/// are the value of `source` and then its partial derivative by each argument.
pub fn autodiff(source: &Tape) -> (r: Tape)
    requires
        differentiable(*source),
    ensures
        r.wf(),
        r.spec_args() == source.spec_args(),
        r.spec_results() == f32_args(1 + source.spec_args().len()),
        gradient_shape(*source, r),
        r.spec_instrs() == gradient_instrs(*source),
        translatable(*source) && 2 * (1 + source.spec_args().len()) <= 255 && 2 * source.spec_args().len() + 32
            * r.spec_instrs().len() + 2 * (1 + source.spec_args().len()) < u16::MAX ==> translatable(r),
{
    let r = Autodiff::new(source).run();
    proof {
        lemma_gradient_translatable(*source, r);
    }
    r
}

/// The gradient tape reads its booleans as the source does, and adds no `i32` made from
/// one, so the gradient of a tape that can be translated to ranges can be too.
proof fn lemma_gradient_translatable(source: Tape, r: Tape)
    requires
        source.wf(),
        r.wf(),
        r.spec_args() == source.spec_args(),
        r.spec_results() == f32_args(1 + source.spec_args().len()),
        gradient_shape(source, r),
    ensures
        translatable(source) && 2 * (1 + source.spec_args().len()) <= 255 && 2 * source.spec_args().len() + 32
            * r.spec_instrs().len() + 2 * (1 + source.spec_args().len()) < u16::MAX ==> translatable(r),
{
    if translatable(source) && 2 * (1 + source.spec_args().len()) <= 255 && 2 * source.spec_args().len() + 32
        * r.spec_instrs().len() + 2 * (1 + source.spec_args().len()) < u16::MAX {
        let m = source.spec_instrs().len() as int;
        assert forall|k: int| 0 <= k < r.spec_instrs().len() implies i32_definite(r, #[trigger] r.spec_instrs()[k]) by {
            if k < m {
                assert(r.spec_instrs()[k] == r.spec_instrs().take(m)[k]);
                assert(i32_definite(source, source.spec_instrs()[k]));
                match r.spec_instrs()[k] {
                    Instr::I32FromBool(c) | Instr::I32Sel(c, _, _) => {
                        lemma_bool_definite_prefix(source, r, c.0 as int);
                    },
                    _ => {},
                }
            }
        }
    }
}

/// Value `i` is an `f32` operand of `instr` by which `instr` has a derivative: it gets a
/// share of the adjoint of `instr`'s value.
pub open spec fn receives(instr: Instr, i: int) -> bool {
    match instr {
        Instr::CopyF32(a) | Instr::F32Neg(a) | Instr::F32Abs(a) | Instr::F32Exp(a) | Instr::F32Ln(a) | Instr::F32Lg(a)
        | Instr::F32Sin(a) | Instr::F32Cos(a) | Instr::F32Tan(a) | Instr::F32Cot(a) | Instr::F32Powi(a, _) => i
            == a.0,
        Instr::F32Add(a, b) | Instr::F32Sub(a, b) | Instr::F32Mul(a, b) | Instr::F32Div(a, b) | Instr::F32Min(a, b)
        | Instr::F32Max(a, b) | Instr::F32Powf(a, b) => i == a.0 || i == b.0,
        Instr::F32Sel(_, t, f) => i == t.0 || i == f.0,
        _ => false,
    }
}

struct Autodiff<'a> {
    source: &'a Tape,
    inlined: Inlined<'a>,
    builder: TapeBuilder,
    adjoints: Vec<Option<ValueId>>,
}

impl<'a> Autodiff<'a> {
    spec fn source_types(&self) -> Seq<Type> {
        value_types(self.source.spec_args(), self.source.spec_instrs())
    }

    spec fn total(&self) -> int {
        (self.source.spec_args().len() + self.source.spec_instrs().len()) as int
    }

    /// The adjoint of source value `i`, where there is one, is an `f32` of the builder,
    /// and an argument has one only where an instruction reads it.
    spec fn adjoint_ok(&self, i: int) -> bool {
        match self.adjoints@[i] {
            Some(v) => {
                &&& self.source_types()[i] == Type::F32
                &&& typed(self.builder, v, Type::F32)
                &&& i < self.source.spec_args().len() ==> read_by(*self.source, i)
            },
            None => true,
        }
    }

    spec fn inv(&self) -> bool {
        let n = self.source.spec_args().len() as int;
        let m = self.source.spec_instrs().len() as int;
        &&& self.inlined.spec_base() == 0
        &&& self.inlined.spec_tape() == self.source
        &&& n + m <= u16::MAX
        &&& self.builder.spec_num_args() == n
        &&& self.builder.spec_values().len() >= n + m
        &&& self.builder.spec_instrs().len() >= m
        &&& self.adjoints@.len() == n + m
        &&& self.consistent()
    }

    /// The source can be differentiated, the builder is well formed and starts with the
    /// instructions and values of the source, and the adjoints are what `adjoint_ok` says.
    #[verifier::opaque]
    spec fn consistent(&self) -> bool {
        let n = self.source.spec_args().len() as int;
        let m = self.source.spec_instrs().len() as int;
        &&& differentiable(*self.source)
        &&& self.builder.wf()
        &&& all_typed(self.builder)
        &&& self.builder.spec_results() == f32_args((1 + n) as nat)
        &&& forall|i: int| 0 <= i < n + m ==> #[trigger] self.builder.spec_values()[i] == self.source_types()[i]
        &&& forall|i: int| 0 <= i < m ==> #[trigger] self.builder.spec_instrs()[i] == self.source.spec_instrs()[i]
        &&& select_free(self.builder.spec_instrs(), m)
        &&& forall|i: int| 0 <= i < n + m ==> #[trigger] self.adjoint_ok(i)
    }

    /// Operand `j` of `instr`, the instruction that defines `w`, where it has one: it is an
    /// earlier value of its type, and read by the source.
    spec fn operand_ok(&self, instr: Instr, w: ValueId, j: int) -> bool {
        j < instr.operands().len() ==> {
            let (id, t) = instr.operands()[j];
            &&& id.0 < w.0
            &&& self.source_types()[id.0 as int] == t
            &&& typed(self.builder, id, t)
            &&& read_by(*self.source, id.0 as int)
        }
    }

    /// The adjoint `w_bar` of `w`, an `f32` defined by `instr`, can be passed on to the
    /// operands of `instr`.
    spec fn ready(&self, instr: Instr, w: ValueId, w_bar: ValueId) -> bool {
        let n = self.source.spec_args().len() as int;
        &&& self.inv()
        &&& n <= w.0 < self.total()
        &&& instr == self.source.spec_instrs()[w.0 - n]
        &&& self.source_types()[w.0 as int] == Type::F32
        &&& typed(self.builder, w, Type::F32)
        &&& typed(self.builder, w_bar, Type::F32)
        &&& self.builder.spec_values().len() + 12 < u16::MAX
        &&& self.operand_ok(instr, w, 0)
        &&& self.operand_ok(instr, w, 1)
        &&& self.operand_ok(instr, w, 2)
    }

    /// `next` has only appended to the builder of `self` and accumulated adjoints.
    spec fn advanced(&self, next: &Self, n: int) -> bool {
        &&& next.source == self.source
        &&& next.inlined == self.inlined
        &&& next.inv()
        &&& self.builder.spec_values().len() <= next.builder.spec_values().len() <= self.builder.spec_values().len() + n
        &&& forall|i: int|
            0 <= i < self.builder.spec_values().len() ==> #[trigger] next.builder.spec_values()[i]
                == self.builder.spec_values()[i]
        &&& self.builder.spec_instrs().len() <= next.builder.spec_instrs().len()
        &&& forall|i: int|
            0 <= i < self.builder.spec_instrs().len() ==> #[trigger] next.builder.spec_instrs()[i]
                == self.builder.spec_instrs()[i]
    }

    /// `next` has given an adjoint to each value that `instr` passes its adjoint on to,
    /// and left the others as they were.
    spec fn passed_on(&self, next: &Self, instr: Instr) -> bool {
        &&& next.adjoints@.len() == self.adjoints@.len()
        &&& forall|i: int|
            0 <= i < self.adjoints@.len() ==> if receives(instr, i) {
                (#[trigger] next.adjoints@[i]) is Some
            } else {
                next.adjoints@[i] == self.adjoints@[i]
            }
    }

    fn new(source: &'a Tape) -> (r: Autodiff<'a>)
        requires
            differentiable(*source),
        ensures
            r.inv(),
            r.source == source,
            r.builder.spec_values().len() == r.total(),
            forall|i: int| 0 <= i < r.total() ==> r.adjoints@[i] is None,
    {
        let num_args = source.num_args();
        let instrs = source.instrs();
        let num_values = num_args + instrs.len();
        let mut arg_types: Vec<Type> = Vec::new();
        let mut i: usize = 0;
        while i < num_args
            invariant
                num_args == source.spec_args().len(),
                1 + num_args <= 255,
                i <= num_args,
                arg_types@ == f32_args(i as nat),
            decreases num_args - i,
        {
            arg_types.push(Type::F32);
            i = i + 1;
            proof {
                assert(arg_types@ =~= f32_args(i as nat));
            }
        }
        let mut result_types: Vec<Type> = Vec::new();
        let mut j: usize = 0;
        while j < 1 + num_args
            invariant
                num_args == source.spec_args().len(),
                1 + num_args <= 255,
                j <= 1 + num_args,
                result_types@ == f32_args(j as nat),
            decreases 1 + num_args - j,
        {
            result_types.push(Type::F32);
            j = j + 1;
            proof {
                assert(result_types@ =~= f32_args(j as nat));
            }
        }
        let mut builder = Tape::builder(arg_types, result_types);
        proof {
            assert(builder.spec_values().subrange(0, num_args as int) =~= source.spec_args());
        }
        let inlined = builder.extend(source);
        let ghost m = source.spec_instrs().len() as int;
        proof {
            assert(builder.spec_values() =~= value_types(source.spec_args(), source.spec_instrs()));
            assert forall|k: int| 0 <= k < m implies #[trigger] builder.spec_instrs()[k] == source.spec_instrs()[k] by {
                lemma_shift_zero(source.spec_instrs()[k]);
            }
            assert forall|k: int| 0 <= k < builder.spec_instrs().len() implies instr_well_typed(
                builder.spec_values(),
                builder.spec_num_args() + k,
                #[trigger] builder.spec_instrs()[k],
            ) by {
                assert(builder.spec_instrs()[0 + k] == builder.spec_instrs()[k]);
            }
        }
        let mut adjoints: Vec<Option<ValueId>> = Vec::new();
        let mut k: usize = 0;
        while k < num_values
            invariant
                k <= num_values,
                adjoints@.len() == k,
                forall|i: int| 0 <= i < k ==> adjoints@[i] is None,
            decreases num_values - k,
        {
            adjoints.push(None);
            k = k + 1;
        }
        let r = Autodiff { source, inlined, builder, adjoints };
        proof {
            reveal(Autodiff::consistent);
            assert(r.consistent());
        }
        r
    }

    #[verifier::rlimit(100)]
    fn run(self) -> (r: Tape)
        requires
            self.inv(),
            self.builder.spec_values().len() == self.total(),
            forall|i: int| 0 <= i < self.total() ==> self.adjoints@[i] is None,
        ensures
            r.wf(),
            r.spec_args() == self.source.spec_args(),
            r.spec_results() == f32_args(1 + self.source.spec_args().len()),
            gradient_shape(*self.source, r),
            r.spec_instrs() == gradient_instrs(*self.source),
    {
        let mut this = self;
        let ghost n = this.source.spec_args().len() as int;
        let ghost m = this.source.spec_instrs().len() as int;
        let num_args = this.source.num_args();
        proof {
            reveal(Autodiff::consistent);
            let types = this.source_types();
            assert(types.subrange(types.len() - 1, types.len() as int) == f32_args(1));
            assert(types.subrange(types.len() - 1, types.len() as int)[0] == types[n + m - 1]);
        }
        let ret = this.inlined.result(0);
        let seed = this.push(Instr::F32Const(ONE_BITS));
        let last = this.adjoints.len() - 1;
        this.adjoints.set(last, Some(seed));
        proof {
            reveal(Autodiff::consistent);
            assert forall|i: int| 0 <= i < this.total() implies #[trigger] this.adjoint_ok(i) by {
                if i != last {
                    assert(self.adjoints@[i] is None);
                }
            }
            assert(this.consistent());
            assert(self.builder.spec_instrs() =~= self.source.spec_instrs());
            assert(this.adjoints@ =~= reverse_pass(*self.source, m).1);
            assert(this.builder.spec_instrs() =~= self.source.spec_instrs() + reverse_pass(*self.source, m).0);
        }
        let instrs = this.source.instrs();
        let mut k: usize = instrs.len();
        while k > 0
            invariant
                this.inv(),
                this.source == self.source,
                n == this.source.spec_args().len(),
                m == this.source.spec_instrs().len(),
                num_args == n,
                ret.0 == n + m - 1,
                instrs@.len() == m,
                forall|j: int|
                    0 <= j < m ==> (#[trigger] instrs@[j]).spec_instr() == this.source.spec_instrs()[j]
                        && instrs@[j].spec_raw_id() == n + j,
                k <= m,
                this.builder.spec_values().len() + 12 * k + 1 + n <= 2 * n + 13 * m + 2,
                this.builder.spec_instrs() == this.source.spec_instrs() + reverse_pass(*this.source, k as int).0,
                this.adjoints@ == reverse_pass(*this.source, k as int).1,
            decreases k,
        {
            k = k - 1;
            let r = instrs[k];
            let ghost before = reverse_pass(*this.source, k as int + 1);
            proof {
                assert(reverse_pass(*this.source, k as int) == if before.1[n + k] is None {
                    before
                } else {
                    let step = chain_step(
                        this.source.spec_instrs()[k as int],
                        id_at(n + k),
                        before.1[n + k]->0,
                        before.1,
                        n + m + before.0.len(),
                    );
                    (before.0 + step.0, step.1)
                });
            }
            match this.adjoints[r.index()] {
                None => {},
                Some(w_bar) => {
                    proof {
                        reveal(Autodiff::consistent);
                        assert(this.adjoint_ok(n + k));
                    }
                    let w = this.inlined.convert(r.id());
                    let instr = r.instr();
                    proof {
                        this.lemma_ready(instr, w);
                    }
                    let ghost pre = this.builder;
                    proof {
                        reveal(Autodiff::consistent);
                        assert(w == id_at(n + k));
                        assert(pre.spec_values().len() == n + m + before.0.len());
                    }
                    this.propagate(instr, w, w_bar);
                    proof {
                        let step = chain_step(instr, w, w_bar, before.1, n + m + before.0.len());
                        assert(this.builder.spec_instrs() =~= this.source.spec_instrs() + (before.0 + step.0));
                    }
                },
            }
        }
        let ghost built = this.builder;
        proof {
            reveal(Autodiff::consistent);
            assert(this.builder.spec_values()[ret.0 as int] == this.source_types()[ret.0 as int]);
        }
        this.push(Instr::CopyF32(ret));
        proof {
            assert(this.builder.spec_instrs() =~= built.spec_instrs().push(Instr::CopyF32(ret)) + Seq::new(
                0,
                |j: int| derivative_instr(reverse_pass(*this.source, 0).1, j),
            ));
        }
        let mut i: usize = 0;
        while i < num_args
            invariant
                this.inv(),
                this.source == self.source,
                n == this.source.spec_args().len(),
                m == this.source.spec_instrs().len(),
                num_args == n,
                i <= num_args,
                ret.0 == n + m - 1,
                forall|j: int|
                    0 <= j < built.spec_values().len() ==> #[trigger] this.builder.spec_values()[j]
                        == built.spec_values()[j],
                this.builder.spec_values().len() == built.spec_values().len() + 1 + i,
                this.builder.spec_instrs().len() == built.spec_instrs().len() + 1 + i,
                built.spec_values().len() + 1 + n < u16::MAX,
                built.spec_instrs().len() >= m,
                this.builder.spec_instrs()[built.spec_instrs().len() as int] == Instr::CopyF32(ret),
                this.adjoints@ == reverse_pass(*this.source, 0).1,
                built.spec_instrs() == this.source.spec_instrs() + reverse_pass(*this.source, 0).0,
                this.builder.spec_instrs() == built.spec_instrs().push(Instr::CopyF32(ret)) + Seq::new(
                    i as nat,
                    |j: int| derivative_instr(reverse_pass(*this.source, 0).1, j),
                ),
                forall|j: int|
                    built.spec_values().len() <= j < this.builder.spec_values().len() ==> #[trigger] this.builder.spec_values()[j]
                        == Type::F32,
                forall|j: int|
                    0 <= j < i ==> match #[trigger] this.builder.spec_instrs()[built.spec_instrs().len() + 1 + j] {
                        Instr::F32Const(bits) => bits == ZERO_BITS,
                        Instr::CopyF32(_) => read_by(*this.source, j),
                        _ => false,
                    },
            decreases num_args - i,
        {
            let ghost before = this.builder;
            match this.adjoints[i] {
                None => {
                    this.push(Instr::F32Const(ZERO_BITS));
                },
                Some(v) => {
                    proof {
                        reveal(Autodiff::consistent);
                        assert(this.adjoint_ok(i as int));
                    }
                    this.push(Instr::CopyF32(v));
                },
            }
            proof {
                assert(this.builder.spec_instrs().len() == before.spec_instrs().len() + 1);
                let f = |j: int| derivative_instr(reverse_pass(*this.source, 0).1, j);
                assert(this.builder.spec_instrs() =~= built.spec_instrs().push(Instr::CopyF32(ret)) + Seq::new(
                    (i + 1) as nat,
                    f,
                ));
            }
            i = i + 1;
        }
        let ghost values = this.builder.spec_values();
        let ghost instrs_out = this.builder.spec_instrs();
        proof {
            reveal(Autodiff::consistent);
            assert(instrs_out.take(m) =~= self.source.spec_instrs());
            assert(values.take(n) =~= f32_args(n as nat));
            let l = 1 + n;
            assert(values.subrange(values.len() - l, values.len() as int) =~= f32_args(l as nat));
        }
        let tape = this.builder.build().unwrap();
        proof {
            assert(tape.spec_args() =~= f32_args(n as nat));
            assert(instrs_out.take(m) =~= self.source.spec_instrs());
            assert(built.spec_instrs().len() == instrs_out.len() - 1 - n);
            assert(ret == id_at(n + m - 1));
            assert(instrs_out =~= gradient_instrs(*self.source));
        }
        tape
    }

    proof fn lemma_ready(&self, instr: Instr, w: ValueId)
        requires
            self.inv(),
            self.source.spec_args().len() <= w.0 < self.total(),
            instr == self.source.spec_instrs()[w.0 - self.source.spec_args().len()],
        ensures
            self.operand_ok(instr, w, 0),
            self.operand_ok(instr, w, 1),
            self.operand_ok(instr, w, 2),
            self.builder.spec_values()[w.0 as int] == self.source_types()[w.0 as int],
    {
        reveal(Autodiff::consistent);
        let n = self.source.spec_args().len() as int;
        let k = w.0 - n;
        assert(instr_well_typed(self.source_types(), n + k, self.source.spec_instrs()[k]));
        assert forall|j: int| 0 <= j < instr.operands().len() implies self.operand_ok(instr, w, j) by {
            assert(self.source.spec_instrs()[k].operands()[j] == instr.operands()[j]);
        }
    }

    /// Passes the adjoint `w_bar` of `w`, the value of `instr`, on to the operands of
    /// `instr` that are `f32`s, by the derivative of `instr` by each.
    #[verifier::rlimit(100)]
    fn propagate(&mut self, instr: Instr, w: ValueId, w_bar: ValueId)
        requires
            old(self).ready(instr, w, w_bar),
        ensures
            old(self).advanced(final(self), 12),
            final(self).inlined == old(self).inlined,
            old(self).passed_on(final(self), instr),
            final(self).builder.spec_instrs() == old(self).builder.spec_instrs() + chain_step(instr, w, w_bar, old(self).adjoints@, old(self).builder.spec_values().len() as int).0,
            final(self).adjoints@ == chain_step(instr, w, w_bar, old(self).adjoints@, old(self).builder.spec_values().len() as int).1,
            final(self).builder.spec_values().len() == old(self).builder.spec_values().len() + chain_step(instr, w, w_bar, old(self).adjoints@, old(self).builder.spec_values().len() as int).0.len(),
    {
        let ghost start = *self;
        let ghost adj0 = self.adjoints@;
        match instr {
            Instr::CopyF32(src) => {
                let ghost b = self.builder.spec_instrs();
                let ghost p = self.builder.spec_values().len() as int;
                let ghost mut st: Pass = (Seq::empty(), self.adjoints@);
                proof {
                    assert(b + st.0 =~= b);
                }
                self.acc(src, w_bar);
                proof {
                    lemma_accumulated(b, st, p, src, w_bar, self.builder.spec_instrs(), self.adjoints@);
                    st = acc_into(st, p, src, w_bar);
                }
                proof {
                    assert(st == chain_step(instr, w, w_bar, adj0, p));
                }
            },
            Instr::F32Neg(src) => {
                let ghost b = self.builder.spec_instrs();
                let ghost p = self.builder.spec_values().len() as int;
                let ghost mut st: Pass = (Seq::empty(), self.adjoints@);
                proof {
                    assert(b + st.0 =~= b);
                }
                let c = self.push(Instr::F32Neg(w_bar));
                proof {
                    lemma_emitted(b, st, Instr::F32Neg(w_bar));
                    assert(c == next_id(st, p));
                    st = emit_into(st, Instr::F32Neg(w_bar));
                }
                self.acc(src, c);
                proof {
                    lemma_accumulated(b, st, p, src, c, self.builder.spec_instrs(), self.adjoints@);
                    st = acc_into(st, p, src, c);
                }
                proof {
                    assert(st == chain_step(instr, w, w_bar, adj0, p));
                }
            },
            Instr::F32Abs(src) => {
                let ghost b = self.builder.spec_instrs();
                let ghost p = self.builder.spec_values().len() as int;
                let ghost mut st: Pass = (Seq::empty(), self.adjoints@);
                proof {
                    assert(b + st.0 =~= b);
                }
                let x = self.inlined.convert(src);
                proof {
                    assert(x == src);
                }
                let sign = self.push(Instr::F32Sign(x));
                proof {
                    lemma_emitted(b, st, Instr::F32Sign(x));
                    assert(sign == next_id(st, p));
                    st = emit_into(st, Instr::F32Sign(x));
                }
                let c = self.push(Instr::F32Mul(w_bar, sign));
                proof {
                    lemma_emitted(b, st, Instr::F32Mul(w_bar, sign));
                    assert(c == next_id(st, p));
                    st = emit_into(st, Instr::F32Mul(w_bar, sign));
                }
                self.acc(src, c);
                proof {
                    lemma_accumulated(b, st, p, src, c, self.builder.spec_instrs(), self.adjoints@);
                    st = acc_into(st, p, src, c);
                }
                proof {
                    assert(st == chain_step(instr, w, w_bar, adj0, p));
                }
            },
            Instr::F32Add(lhs, rhs) => {
                let ghost b = self.builder.spec_instrs();
                let ghost p = self.builder.spec_values().len() as int;
                let ghost mut st: Pass = (Seq::empty(), self.adjoints@);
                proof {
                    assert(b + st.0 =~= b);
                }
                self.acc(lhs, w_bar);
                proof {
                    lemma_accumulated(b, st, p, lhs, w_bar, self.builder.spec_instrs(), self.adjoints@);
                    st = acc_into(st, p, lhs, w_bar);
                }
                self.acc(rhs, w_bar);
                proof {
                    lemma_accumulated(b, st, p, rhs, w_bar, self.builder.spec_instrs(), self.adjoints@);
                    st = acc_into(st, p, rhs, w_bar);
                }
                proof {
                    assert(st == chain_step(instr, w, w_bar, adj0, p));
                }
            },
            Instr::F32Sub(lhs, rhs) => {
                let ghost b = self.builder.spec_instrs();
                let ghost p = self.builder.spec_values().len() as int;
                let ghost mut st: Pass = (Seq::empty(), self.adjoints@);
                proof {
                    assert(b + st.0 =~= b);
                }
                self.acc(lhs, w_bar);
                proof {
                    lemma_accumulated(b, st, p, lhs, w_bar, self.builder.spec_instrs(), self.adjoints@);
                    st = acc_into(st, p, lhs, w_bar);
                }
                let c = self.push(Instr::F32Neg(w_bar));
                proof {
                    lemma_emitted(b, st, Instr::F32Neg(w_bar));
                    assert(c == next_id(st, p));
                    st = emit_into(st, Instr::F32Neg(w_bar));
                }
                self.acc(rhs, c);
                proof {
                    lemma_accumulated(b, st, p, rhs, c, self.builder.spec_instrs(), self.adjoints@);
                    st = acc_into(st, p, rhs, c);
                }
                proof {
                    assert(st == chain_step(instr, w, w_bar, adj0, p));
                }
            },
            Instr::F32Mul(lhs, rhs) => {
                let ghost b = self.builder.spec_instrs();
                let ghost p = self.builder.spec_values().len() as int;
                let ghost mut st: Pass = (Seq::empty(), self.adjoints@);
                proof {
                    assert(b + st.0 =~= b);
                }
                let y = self.inlined.convert(rhs);
                proof {
                    assert(y == rhs);
                }
                let c_l = self.push(Instr::F32Mul(w_bar, y));
                proof {
                    lemma_emitted(b, st, Instr::F32Mul(w_bar, y));
                    assert(c_l == next_id(st, p));
                    st = emit_into(st, Instr::F32Mul(w_bar, y));
                }
                self.acc(lhs, c_l);
                proof {
                    lemma_accumulated(b, st, p, lhs, c_l, self.builder.spec_instrs(), self.adjoints@);
                    st = acc_into(st, p, lhs, c_l);
                }
                let x = self.inlined.convert(lhs);
                proof {
                    assert(x == lhs);
                }
                let c_r = self.push(Instr::F32Mul(w_bar, x));
                proof {
                    lemma_emitted(b, st, Instr::F32Mul(w_bar, x));
                    assert(c_r == next_id(st, p));
                    st = emit_into(st, Instr::F32Mul(w_bar, x));
                }
                self.acc(rhs, c_r);
                proof {
                    lemma_accumulated(b, st, p, rhs, c_r, self.builder.spec_instrs(), self.adjoints@);
                    st = acc_into(st, p, rhs, c_r);
                }
                proof {
                    assert(st == chain_step(instr, w, w_bar, adj0, p));
                }
            },
            Instr::F32Div(lhs, rhs) => {
                let ghost b = self.builder.spec_instrs();
                let ghost p = self.builder.spec_values().len() as int;
                let ghost mut st: Pass = (Seq::empty(), self.adjoints@);
                proof {
                    assert(b + st.0 =~= b);
                }
                let y = self.inlined.convert(rhs);
                proof {
                    assert(y == rhs);
                }
                let c_l = self.push(Instr::F32Div(w_bar, y));
                proof {
                    lemma_emitted(b, st, Instr::F32Div(w_bar, y));
                    assert(c_l == next_id(st, p));
                    st = emit_into(st, Instr::F32Div(w_bar, y));
                }
                self.acc(lhs, c_l);
                proof {
                    lemma_accumulated(b, st, p, lhs, c_l, self.builder.spec_instrs(), self.adjoints@);
                    st = acc_into(st, p, lhs, c_l);
                }
                let t = self.push(Instr::F32Mul(w_bar, w));
                proof {
                    lemma_emitted(b, st, Instr::F32Mul(w_bar, w));
                    assert(t == next_id(st, p));
                    st = emit_into(st, Instr::F32Mul(w_bar, w));
                }
                let t2 = self.push(Instr::F32Div(t, y));
                proof {
                    lemma_emitted(b, st, Instr::F32Div(t, y));
                    assert(t2 == next_id(st, p));
                    st = emit_into(st, Instr::F32Div(t, y));
                }
                let c_r = self.push(Instr::F32Neg(t2));
                proof {
                    lemma_emitted(b, st, Instr::F32Neg(t2));
                    assert(c_r == next_id(st, p));
                    st = emit_into(st, Instr::F32Neg(t2));
                }
                self.acc(rhs, c_r);
                proof {
                    lemma_accumulated(b, st, p, rhs, c_r, self.builder.spec_instrs(), self.adjoints@);
                    st = acc_into(st, p, rhs, c_r);
                }
                proof {
                    assert(st == chain_step(instr, w, w_bar, adj0, p));
                }
            },
            Instr::F32Min(_, _) | Instr::F32Max(_, _) | Instr::F32Sel(_, _, _) => self.propagate_piecewise(
                instr,
                w,
                w_bar,
            ),
            _ => self.propagate_elementary(instr, w, w_bar),
        }
    }

    /// `propagate` for the minimum, the maximum and a selection, which pass the adjoint
    /// on to the operand that they pick.
    #[verifier::rlimit(100)]
    fn propagate_piecewise(&mut self, instr: Instr, w: ValueId, w_bar: ValueId)
        requires
            old(self).ready(instr, w, w_bar),
            instr is F32Min || instr is F32Max || instr is F32Sel,
        ensures
            old(self).advanced(final(self), 12),
            final(self).inlined == old(self).inlined,
            old(self).passed_on(final(self), instr),
            final(self).builder.spec_instrs() == old(self).builder.spec_instrs() + chain_piecewise(instr, w_bar, old(self).adjoints@, old(self).builder.spec_values().len() as int).0,
            final(self).adjoints@ == chain_piecewise(instr, w_bar, old(self).adjoints@, old(self).builder.spec_values().len() as int).1,
            final(self).builder.spec_values().len() == old(self).builder.spec_values().len() + chain_piecewise(instr, w_bar, old(self).adjoints@, old(self).builder.spec_values().len() as int).0.len(),
    {
        let ghost start = *self;
        let ghost adj0 = self.adjoints@;
        match instr {
            Instr::F32Min(lhs, rhs) => {
                let ghost b = self.builder.spec_instrs();
                let ghost p = self.builder.spec_values().len() as int;
                let ghost mut st: Pass = (Seq::empty(), self.adjoints@);
                proof {
                    assert(b + st.0 =~= b);
                }
                let (x, y) = (self.inlined.convert(lhs), self.inlined.convert(rhs));
                proof {
                    assert(x == lhs && y == rhs);
                }
                let (lhs_low, lhs_high) = self.select_weights(x, y);
                proof {
                    st = (weights_block(lhs, rhs, p), st.1);
                }
                let c_l = self.push(Instr::F32Mul(w_bar, lhs_low));
                proof {
                    lemma_emitted(b, st, Instr::F32Mul(w_bar, lhs_low));
                    assert(c_l == next_id(st, p));
                    st = emit_into(st, Instr::F32Mul(w_bar, lhs_low));
                }
                self.acc(lhs, c_l);
                proof {
                    lemma_accumulated(b, st, p, lhs, c_l, self.builder.spec_instrs(), self.adjoints@);
                    st = acc_into(st, p, lhs, c_l);
                }
                let c_r = self.push(Instr::F32Mul(w_bar, lhs_high));
                proof {
                    lemma_emitted(b, st, Instr::F32Mul(w_bar, lhs_high));
                    assert(c_r == next_id(st, p));
                    st = emit_into(st, Instr::F32Mul(w_bar, lhs_high));
                }
                self.acc(rhs, c_r);
                proof {
                    lemma_accumulated(b, st, p, rhs, c_r, self.builder.spec_instrs(), self.adjoints@);
                    st = acc_into(st, p, rhs, c_r);
                }
                proof {
                    assert(st == chain_piecewise(instr, w_bar, adj0, p));
                }
            },
            Instr::F32Max(lhs, rhs) => {
                let ghost b = self.builder.spec_instrs();
                let ghost p = self.builder.spec_values().len() as int;
                let ghost mut st: Pass = (Seq::empty(), self.adjoints@);
                proof {
                    assert(b + st.0 =~= b);
                }
                let (x, y) = (self.inlined.convert(lhs), self.inlined.convert(rhs));
                proof {
                    assert(x == lhs && y == rhs);
                }
                let (lhs_low, lhs_high) = self.select_weights(x, y);
                proof {
                    st = (weights_block(lhs, rhs, p), st.1);
                }
                let c_l = self.push(Instr::F32Mul(w_bar, lhs_high));
                proof {
                    lemma_emitted(b, st, Instr::F32Mul(w_bar, lhs_high));
                    assert(c_l == next_id(st, p));
                    st = emit_into(st, Instr::F32Mul(w_bar, lhs_high));
                }
                self.acc(lhs, c_l);
                proof {
                    lemma_accumulated(b, st, p, lhs, c_l, self.builder.spec_instrs(), self.adjoints@);
                    st = acc_into(st, p, lhs, c_l);
                }
                let c_r = self.push(Instr::F32Mul(w_bar, lhs_low));
                proof {
                    lemma_emitted(b, st, Instr::F32Mul(w_bar, lhs_low));
                    assert(c_r == next_id(st, p));
                    st = emit_into(st, Instr::F32Mul(w_bar, lhs_low));
                }
                self.acc(rhs, c_r);
                proof {
                    lemma_accumulated(b, st, p, rhs, c_r, self.builder.spec_instrs(), self.adjoints@);
                    st = acc_into(st, p, rhs, c_r);
                }
                proof {
                    assert(st == chain_piecewise(instr, w_bar, adj0, p));
                }
            },
            Instr::F32Sel(cond, v_true, v_false) => {
                let ghost b = self.builder.spec_instrs();
                let ghost p = self.builder.spec_values().len() as int;
                let ghost mut st: Pass = (Seq::empty(), self.adjoints@);
                proof {
                    assert(b + st.0 =~= b);
                }
                let c = self.inlined.convert(cond);
                proof {
                    assert(c == cond);
                }
                let zero = self.push(Instr::F32Const(ZERO_BITS));
                proof {
                    lemma_emitted(b, st, Instr::F32Const(ZERO_BITS));
                    assert(zero == next_id(st, p));
                    st = emit_into(st, Instr::F32Const(ZERO_BITS));
                }
                let c_t = self.push(Instr::F32Sel(c, w_bar, zero));
                proof {
                    lemma_emitted(b, st, Instr::F32Sel(c, w_bar, zero));
                    assert(c_t == next_id(st, p));
                    st = emit_into(st, Instr::F32Sel(c, w_bar, zero));
                }
                self.acc(v_true, c_t);
                proof {
                    lemma_accumulated(b, st, p, v_true, c_t, self.builder.spec_instrs(), self.adjoints@);
                    st = acc_into(st, p, v_true, c_t);
                }
                let c_f = self.push(Instr::F32Sel(c, zero, w_bar));
                proof {
                    lemma_emitted(b, st, Instr::F32Sel(c, zero, w_bar));
                    assert(c_f == next_id(st, p));
                    st = emit_into(st, Instr::F32Sel(c, zero, w_bar));
                }
                self.acc(v_false, c_f);
                proof {
                    lemma_accumulated(b, st, p, v_false, c_f, self.builder.spec_instrs(), self.adjoints@);
                    st = acc_into(st, p, v_false, c_f);
                }
                proof {
                    assert(st == chain_piecewise(instr, w_bar, adj0, p));
                }
            },
            _ => {},
        }
    }

    /// `propagate` for powers and the exponential, logarithmic and trigonometric
    /// functions, and for the instructions that have no derivative to pass on.
    #[verifier::rlimit(100)]
    fn propagate_elementary(&mut self, instr: Instr, w: ValueId, w_bar: ValueId)
        requires
            old(self).ready(instr, w, w_bar),
            !(instr is CopyF32 || instr is F32Neg || instr is F32Abs || instr is F32Add || instr is F32Sub
                || instr is F32Mul || instr is F32Div || instr is F32Min || instr is F32Max || instr is F32Sel),
        ensures
            old(self).advanced(final(self), 12),
            final(self).inlined == old(self).inlined,
            old(self).passed_on(final(self), instr),
            final(self).builder.spec_instrs() == old(self).builder.spec_instrs() + chain_elementary(instr, w, w_bar, old(self).adjoints@, old(self).builder.spec_values().len() as int).0,
            final(self).adjoints@ == chain_elementary(instr, w, w_bar, old(self).adjoints@, old(self).builder.spec_values().len() as int).1,
            final(self).builder.spec_values().len() == old(self).builder.spec_values().len() + chain_elementary(instr, w, w_bar, old(self).adjoints@, old(self).builder.spec_values().len() as int).0.len(),
    {
        let ghost start = *self;
        let ghost adj0 = self.adjoints@;
        match instr {
            Instr::F32Powf(lhs, rhs) => {
                let ghost b = self.builder.spec_instrs();
                let ghost p = self.builder.spec_values().len() as int;
                let ghost mut st: Pass = (Seq::empty(), self.adjoints@);
                proof {
                    assert(b + st.0 =~= b);
                }
                let (x, y) = (self.inlined.convert(lhs), self.inlined.convert(rhs));
                proof {
                    assert(x == lhs && y == rhs);
                }
                let one = self.push(Instr::F32Const(ONE_BITS));
                proof {
                    lemma_emitted(b, st, Instr::F32Const(ONE_BITS));
                    assert(one == next_id(st, p));
                    st = emit_into(st, Instr::F32Const(ONE_BITS));
                }
                let e = self.push(Instr::F32Sub(y, one));
                proof {
                    lemma_emitted(b, st, Instr::F32Sub(y, one));
                    assert(e == next_id(st, p));
                    st = emit_into(st, Instr::F32Sub(y, one));
                }
                let p_ = self.push(Instr::F32Powf(x, e));
                proof {
                    lemma_emitted(b, st, Instr::F32Powf(x, e));
                    assert(p_ == next_id(st, p));
                    st = emit_into(st, Instr::F32Powf(x, e));
                }
                let t = self.push(Instr::F32Mul(y, p_));
                proof {
                    lemma_emitted(b, st, Instr::F32Mul(y, p_));
                    assert(t == next_id(st, p));
                    st = emit_into(st, Instr::F32Mul(y, p_));
                }
                let c_l = self.push(Instr::F32Mul(w_bar, t));
                proof {
                    lemma_emitted(b, st, Instr::F32Mul(w_bar, t));
                    assert(c_l == next_id(st, p));
                    st = emit_into(st, Instr::F32Mul(w_bar, t));
                }
                self.acc(lhs, c_l);
                proof {
                    lemma_accumulated(b, st, p, lhs, c_l, self.builder.spec_instrs(), self.adjoints@);
                    st = acc_into(st, p, lhs, c_l);
                }
                let ln = self.push(Instr::F32Ln(x));
                proof {
                    lemma_emitted(b, st, Instr::F32Ln(x));
                    assert(ln == next_id(st, p));
                    st = emit_into(st, Instr::F32Ln(x));
                }
                let t = self.push(Instr::F32Mul(w, ln));
                proof {
                    lemma_emitted(b, st, Instr::F32Mul(w, ln));
                    assert(t == next_id(st, p));
                    st = emit_into(st, Instr::F32Mul(w, ln));
                }
                let c_r = self.push(Instr::F32Mul(w_bar, t));
                proof {
                    lemma_emitted(b, st, Instr::F32Mul(w_bar, t));
                    assert(c_r == next_id(st, p));
                    st = emit_into(st, Instr::F32Mul(w_bar, t));
                }
                self.acc(rhs, c_r);
                proof {
                    lemma_accumulated(b, st, p, rhs, c_r, self.builder.spec_instrs(), self.adjoints@);
                    st = acc_into(st, p, rhs, c_r);
                }
                proof {
                    assert(st == chain_elementary(instr, w, w_bar, adj0, p));
                }
            },
            Instr::F32Powi(lhs, rhs) => {
                let ghost b = self.builder.spec_instrs();
                let ghost p = self.builder.spec_values().len() as int;
                let ghost mut st: Pass = (Seq::empty(), self.adjoints@);
                proof {
                    assert(b + st.0 =~= b);
                }
                let (x, n) = (self.inlined.convert(lhs), self.inlined.convert(rhs));
                proof {
                    assert(x == lhs && n == rhs);
                }
                let one = self.push(Instr::I32Const(1));
                proof {
                    lemma_emitted(b, st, Instr::I32Const(1));
                    assert(one == next_id(st, p));
                    st = emit_into(st, Instr::I32Const(1));
                }
                let e = self.push(Instr::I32Sub(n, one));
                proof {
                    lemma_emitted(b, st, Instr::I32Sub(n, one));
                    assert(e == next_id(st, p));
                    st = emit_into(st, Instr::I32Sub(n, one));
                }
                let p_ = self.push(Instr::F32Powi(x, e));
                proof {
                    lemma_emitted(b, st, Instr::F32Powi(x, e));
                    assert(p_ == next_id(st, p));
                    st = emit_into(st, Instr::F32Powi(x, e));
                }
                let nf = self.push(Instr::F32FromI32(n));
                proof {
                    lemma_emitted(b, st, Instr::F32FromI32(n));
                    assert(nf == next_id(st, p));
                    st = emit_into(st, Instr::F32FromI32(n));
                }
                let t = self.push(Instr::F32Mul(nf, p_));
                proof {
                    lemma_emitted(b, st, Instr::F32Mul(nf, p_));
                    assert(t == next_id(st, p));
                    st = emit_into(st, Instr::F32Mul(nf, p_));
                }
                let c_l = self.push(Instr::F32Mul(w_bar, t));
                proof {
                    lemma_emitted(b, st, Instr::F32Mul(w_bar, t));
                    assert(c_l == next_id(st, p));
                    st = emit_into(st, Instr::F32Mul(w_bar, t));
                }
                self.acc(lhs, c_l);
                proof {
                    lemma_accumulated(b, st, p, lhs, c_l, self.builder.spec_instrs(), self.adjoints@);
                    st = acc_into(st, p, lhs, c_l);
                }
                proof {
                    assert(st == chain_elementary(instr, w, w_bar, adj0, p));
                }
            },
            Instr::F32Exp(src) => {
                let ghost b = self.builder.spec_instrs();
                let ghost p = self.builder.spec_values().len() as int;
                let ghost mut st: Pass = (Seq::empty(), self.adjoints@);
                proof {
                    assert(b + st.0 =~= b);
                }
                let c = self.push(Instr::F32Mul(w_bar, w));
                proof {
                    lemma_emitted(b, st, Instr::F32Mul(w_bar, w));
                    assert(c == next_id(st, p));
                    st = emit_into(st, Instr::F32Mul(w_bar, w));
                }
                self.acc(src, c);
                proof {
                    lemma_accumulated(b, st, p, src, c, self.builder.spec_instrs(), self.adjoints@);
                    st = acc_into(st, p, src, c);
                }
                proof {
                    assert(st == chain_elementary(instr, w, w_bar, adj0, p));
                }
            },
            Instr::F32Ln(src) => {
                let ghost b = self.builder.spec_instrs();
                let ghost p = self.builder.spec_values().len() as int;
                let ghost mut st: Pass = (Seq::empty(), self.adjoints@);
                proof {
                    assert(b + st.0 =~= b);
                }
                let x = self.inlined.convert(src);
                proof {
                    assert(x == src);
                }
                let c = self.push(Instr::F32Div(w_bar, x));
                proof {
                    lemma_emitted(b, st, Instr::F32Div(w_bar, x));
                    assert(c == next_id(st, p));
                    st = emit_into(st, Instr::F32Div(w_bar, x));
                }
                self.acc(src, c);
                proof {
                    lemma_accumulated(b, st, p, src, c, self.builder.spec_instrs(), self.adjoints@);
                    st = acc_into(st, p, src, c);
                }
                proof {
                    assert(st == chain_elementary(instr, w, w_bar, adj0, p));
                }
            },
            Instr::F32Lg(src) => {
                let ghost b = self.builder.spec_instrs();
                let ghost p = self.builder.spec_values().len() as int;
                let ghost mut st: Pass = (Seq::empty(), self.adjoints@);
                proof {
                    assert(b + st.0 =~= b);
                }
                let k = self.push(Instr::F32Const(LOG10_E_BITS));
                proof {
                    lemma_emitted(b, st, Instr::F32Const(LOG10_E_BITS));
                    assert(k == next_id(st, p));
                    st = emit_into(st, Instr::F32Const(LOG10_E_BITS));
                }
                let x = self.inlined.convert(src);
                proof {
                    assert(x == src);
                }
                let t = self.push(Instr::F32Div(k, x));
                proof {
                    lemma_emitted(b, st, Instr::F32Div(k, x));
                    assert(t == next_id(st, p));
                    st = emit_into(st, Instr::F32Div(k, x));
                }
                let c = self.push(Instr::F32Mul(w_bar, t));
                proof {
                    lemma_emitted(b, st, Instr::F32Mul(w_bar, t));
                    assert(c == next_id(st, p));
                    st = emit_into(st, Instr::F32Mul(w_bar, t));
                }
                self.acc(src, c);
                proof {
                    lemma_accumulated(b, st, p, src, c, self.builder.spec_instrs(), self.adjoints@);
                    st = acc_into(st, p, src, c);
                }
                proof {
                    assert(st == chain_elementary(instr, w, w_bar, adj0, p));
                }
            },
            Instr::F32Sin(src) => {
                let ghost b = self.builder.spec_instrs();
                let ghost p = self.builder.spec_values().len() as int;
                let ghost mut st: Pass = (Seq::empty(), self.adjoints@);
                proof {
                    assert(b + st.0 =~= b);
                }
                let x = self.inlined.convert(src);
                proof {
                    assert(x == src);
                }
                let cos = self.push(Instr::F32Cos(x));
                proof {
                    lemma_emitted(b, st, Instr::F32Cos(x));
                    assert(cos == next_id(st, p));
                    st = emit_into(st, Instr::F32Cos(x));
                }
                let c = self.push(Instr::F32Mul(w_bar, cos));
                proof {
                    lemma_emitted(b, st, Instr::F32Mul(w_bar, cos));
                    assert(c == next_id(st, p));
                    st = emit_into(st, Instr::F32Mul(w_bar, cos));
                }
                self.acc(src, c);
                proof {
                    lemma_accumulated(b, st, p, src, c, self.builder.spec_instrs(), self.adjoints@);
                    st = acc_into(st, p, src, c);
                }
                proof {
                    assert(st == chain_elementary(instr, w, w_bar, adj0, p));
                }
            },
            Instr::F32Cos(src) => {
                let ghost b = self.builder.spec_instrs();
                let ghost p = self.builder.spec_values().len() as int;
                let ghost mut st: Pass = (Seq::empty(), self.adjoints@);
                proof {
                    assert(b + st.0 =~= b);
                }
                let x = self.inlined.convert(src);
                proof {
                    assert(x == src);
                }
                let sin = self.push(Instr::F32Sin(x));
                proof {
                    lemma_emitted(b, st, Instr::F32Sin(x));
                    assert(sin == next_id(st, p));
                    st = emit_into(st, Instr::F32Sin(x));
                }
                let t = self.push(Instr::F32Mul(w_bar, sin));
                proof {
                    lemma_emitted(b, st, Instr::F32Mul(w_bar, sin));
                    assert(t == next_id(st, p));
                    st = emit_into(st, Instr::F32Mul(w_bar, sin));
                }
                let c = self.push(Instr::F32Neg(t));
                proof {
                    lemma_emitted(b, st, Instr::F32Neg(t));
                    assert(c == next_id(st, p));
                    st = emit_into(st, Instr::F32Neg(t));
                }
                self.acc(src, c);
                proof {
                    lemma_accumulated(b, st, p, src, c, self.builder.spec_instrs(), self.adjoints@);
                    st = acc_into(st, p, src, c);
                }
                proof {
                    assert(st == chain_elementary(instr, w, w_bar, adj0, p));
                }
            },
            Instr::F32Tan(src) => {
                let ghost b = self.builder.spec_instrs();
                let ghost p = self.builder.spec_values().len() as int;
                let ghost mut st: Pass = (Seq::empty(), self.adjoints@);
                proof {
                    assert(b + st.0 =~= b);
                }
                let sq = self.push(Instr::F32Mul(w, w));
                proof {
                    lemma_emitted(b, st, Instr::F32Mul(w, w));
                    assert(sq == next_id(st, p));
                    st = emit_into(st, Instr::F32Mul(w, w));
                }
                let one = self.push(Instr::F32Const(ONE_BITS));
                proof {
                    lemma_emitted(b, st, Instr::F32Const(ONE_BITS));
                    assert(one == next_id(st, p));
                    st = emit_into(st, Instr::F32Const(ONE_BITS));
                }
                let t = self.push(Instr::F32Add(sq, one));
                proof {
                    lemma_emitted(b, st, Instr::F32Add(sq, one));
                    assert(t == next_id(st, p));
                    st = emit_into(st, Instr::F32Add(sq, one));
                }
                let c = self.push(Instr::F32Mul(w_bar, t));
                proof {
                    lemma_emitted(b, st, Instr::F32Mul(w_bar, t));
                    assert(c == next_id(st, p));
                    st = emit_into(st, Instr::F32Mul(w_bar, t));
                }
                self.acc(src, c);
                proof {
                    lemma_accumulated(b, st, p, src, c, self.builder.spec_instrs(), self.adjoints@);
                    st = acc_into(st, p, src, c);
                }
                proof {
                    assert(st == chain_elementary(instr, w, w_bar, adj0, p));
                }
            },
            Instr::F32Cot(src) => {
                let ghost b = self.builder.spec_instrs();
                let ghost p = self.builder.spec_values().len() as int;
                let ghost mut st: Pass = (Seq::empty(), self.adjoints@);
                proof {
                    assert(b + st.0 =~= b);
                }
                let sq = self.push(Instr::F32Mul(w, w));
                proof {
                    lemma_emitted(b, st, Instr::F32Mul(w, w));
                    assert(sq == next_id(st, p));
                    st = emit_into(st, Instr::F32Mul(w, w));
                }
                let one = self.push(Instr::F32Const(ONE_BITS));
                proof {
                    lemma_emitted(b, st, Instr::F32Const(ONE_BITS));
                    assert(one == next_id(st, p));
                    st = emit_into(st, Instr::F32Const(ONE_BITS));
                }
                let t = self.push(Instr::F32Add(sq, one));
                proof {
                    lemma_emitted(b, st, Instr::F32Add(sq, one));
                    assert(t == next_id(st, p));
                    st = emit_into(st, Instr::F32Add(sq, one));
                }
                let m = self.push(Instr::F32Mul(w_bar, t));
                proof {
                    lemma_emitted(b, st, Instr::F32Mul(w_bar, t));
                    assert(m == next_id(st, p));
                    st = emit_into(st, Instr::F32Mul(w_bar, t));
                }
                let c = self.push(Instr::F32Neg(m));
                proof {
                    lemma_emitted(b, st, Instr::F32Neg(m));
                    assert(c == next_id(st, p));
                    st = emit_into(st, Instr::F32Neg(m));
                }
                self.acc(src, c);
                proof {
                    lemma_accumulated(b, st, p, src, c, self.builder.spec_instrs(), self.adjoints@);
                    st = acc_into(st, p, src, c);
                }
                proof {
                    assert(st == chain_elementary(instr, w, w_bar, adj0, p));
                }
            },
            // Constants, integer and boolean values, comparisons, and the steps of sign
            // and floor, have no derivative to pass on.
            _ => {
                proof {
                    assert(self.builder.spec_instrs() =~= self.builder.spec_instrs() + Seq::<Instr>::empty());
                }
            },
        }
    }

    /// Appends `instr`, which reads values of the builder of the types it expects.
    fn push(&mut self, instr: Instr) -> (r: ValueId)
        requires
            old(self).inv(),
            !(instr is I32FromBool),
            !(instr is I32Sel),
            old(self).builder.spec_values().len() + 1 < u16::MAX,
            forall|k: int|
                0 <= k < instr.operands().len() ==> typed(
                    old(self).builder,
                    (#[trigger] instr.operands()[k]).0,
                    instr.operands()[k].1,
                ),
        ensures
            old(self).advanced(final(self), 1),
            final(self).inlined == old(self).inlined,
            final(self).adjoints == old(self).adjoints,
            final(self).builder.spec_values() == old(self).builder.spec_values().push(instr.spec_result_type()),
            final(self).builder.spec_instrs() == old(self).builder.spec_instrs().push(instr),
            r.0 == old(self).builder.spec_values().len(),
            typed(final(self).builder, r, instr.spec_result_type()),
    {
        let ghost prev = *self;
        proof {
            reveal(Autodiff::consistent);
        }
        let r = emit(&mut self.builder, instr);
        proof {
            reveal(Autodiff::consistent);
            assert forall|i: int| 0 <= i < self.total() implies #[trigger] self.adjoint_ok(i) by {
                assert(prev.adjoint_ok(i));
            }
            assert(self.consistent());
        }
        r
    }

    /// Returns `(1.0, 0.0)` if `lhs <= rhs`, or `(0.0, 1.0)` otherwise, as values of the
    /// builder: the weights of the two operands of a minimum.
    fn select_weights(&mut self, lhs: ValueId, rhs: ValueId) -> (r: (ValueId, ValueId))
        requires
            old(self).inv(),
            old(self).builder.spec_values().len() + 6 < u16::MAX,
            typed(old(self).builder, lhs, Type::F32),
            typed(old(self).builder, rhs, Type::F32),
        ensures
            old(self).advanced(final(self), 6),
            final(self).inlined == old(self).inlined,
            typed(final(self).builder, r.0, Type::F32),
            typed(final(self).builder, r.1, Type::F32),
            final(self).adjoints == old(self).adjoints,
            final(self).builder.spec_instrs() == old(self).builder.spec_instrs() + weights_block(
                lhs,
                rhs,
                old(self).builder.spec_values().len() as int,
            ),
            final(self).builder.spec_values().len() == old(self).builder.spec_values().len() + 6,
            r == (id_at(old(self).builder.spec_values().len() as int + 4), id_at(old(self).builder.spec_values().len() as int + 5)),
    {
        let ghost b = self.builder.spec_instrs();
        let ghost h = self.builder.spec_values().len() as int;
        let half = self.push(Instr::F32Const(HALF_BITS));
        let diff = self.push(Instr::F32Sub(rhs, lhs));
        let sign = self.push(Instr::F32Sign(diff));
        let half_sign = self.push(Instr::F32Mul(sign, half));
        let lhs_low = self.push(Instr::F32Add(half, half_sign));
        let lhs_high = self.push(Instr::F32Sub(half, half_sign));
        proof {
            assert(self.builder.spec_instrs() =~= b + weights_block(lhs, rhs, h));
        }
        (lhs_low, lhs_high)
    }

    /// Adds `addend` to the adjoint of `target`.
    fn acc(&mut self, target: ValueId, addend: ValueId)
        requires
            old(self).inv(),
            (target.0 as int) < old(self).total(),
            old(self).source_types()[target.0 as int] == Type::F32,
            (target.0 as int) < old(self).source.spec_args().len() ==> read_by(*old(self).source, target.0 as int),
            typed(old(self).builder, addend, Type::F32),
            old(self).builder.spec_values().len() + 1 < u16::MAX,
        ensures
            old(self).advanced(final(self), 1),
            final(self).inlined == old(self).inlined,
            match old(self).adjoints@[target.0 as int] {
                None => {
                    &&& final(self).adjoints@ == old(self).adjoints@.update(target.0 as int, Some(addend))
                    &&& final(self).builder == old(self).builder
                },
                Some(earlier) => {
                    &&& final(self).adjoints@ == old(self).adjoints@.update(
                        target.0 as int,
                        Some(ValueId(old(self).builder.spec_values().len() as u16)),
                    )
                    &&& final(self).builder.spec_instrs() == old(self).builder.spec_instrs().push(
                        Instr::F32Add(earlier, addend),
                    )
                    &&& final(self).builder.spec_values().len() == old(self).builder.spec_values().len() + 1
                },
            },
    {
        let slot = target.index();
        let ghost prev = *self;
        let sum = match self.adjoints[slot] {
            None => addend,
            Some(earlier) => {
                proof {
                    reveal(Autodiff::consistent);
                    assert(prev.adjoint_ok(slot as int));
                }
                self.push(Instr::F32Add(earlier, addend))
            },
        };
        self.adjoints.set(slot, Some(sum));
        proof {
            reveal(Autodiff::consistent);
            assert forall|i: int| 0 <= i < self.total() implies #[trigger] self.adjoint_ok(i) by {
                assert(prev.adjoint_ok(i));
            }
            assert(self.consistent());
        }
    }
}

/// Appending `instr` after the instructions `b + st.0` appends it to `st`.
proof fn lemma_emitted(b: Seq<Instr>, st: Pass, instr: Instr)
    ensures
        (b + st.0).push(instr) == b + emit_into(st, instr).0,
{
    assert((b + st.0).push(instr) =~= b + st.0.push(instr));
}

/// What `acc` does after the instructions `b + st.0` is what `acc_into` does to `st`.
proof fn lemma_accumulated(
    b: Seq<Instr>,
    st: Pass,
    p: int,
    target: ValueId,
    c: ValueId,
    after: Seq<Instr>,
    after_adj: Seq<Option<ValueId>>,
)
    requires
        match st.1[target.0 as int] {
            None => after_adj == st.1.update(target.0 as int, Some(c)) && after == b + st.0,
            Some(e) => after_adj == st.1.update(target.0 as int, Some(next_id(st, p))) && after == (b + st.0).push(
                Instr::F32Add(e, c),
            ),
        },
    ensures
        after == b + acc_into(st, p, target, c).0,
        after_adj == acc_into(st, p, target, c).1,
{
    if let Some(e) = st.1[target.0 as int] {
        lemma_emitted(b, st, Instr::F32Add(e, c));
    }
}

/// An instruction shifted by zero is itself.
proof fn lemma_shift_zero(instr: Instr)
    ensures
        instr.spec_shift_ids(0) == instr,
{
}

} // verus!
