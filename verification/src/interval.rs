//! Tapes over ranges: a tape over `f32`s becomes a tape over pairs of `f32`s,
//! the lower and upper bounds of ranges, that computes a range holding every value that
//! the source tape computes for arguments in the argument ranges.
use crate::lower::{all_typed, emit, f32_args, grows, lemma_made_by_grow, made_by};
use crate::tape::{instr_well_typed, value_types, Instr, Tape, TapeBuilder, Type, ValueId};
use vstd::prelude::*;

verus! {

/// The bits of some `f32` constants that range tapes use.
pub const ZERO_BITS: u32 = 0x0000_0000;

pub const ONE_BITS: u32 = 0x3f80_0000;

pub const NEG_ONE_BITS: u32 = 0xbf80_0000;

pub const HALF_BITS: u32 = 0x3f00_0000;

/// `f32::MAX` and `-f32::MAX`.
pub const MAX_BITS: u32 = 0x7f7f_ffff;

pub const NEG_MAX_BITS: u32 = 0xff7f_ffff;

/// `f32::MIN_POSITIVE`.
pub const MIN_POSITIVE_BITS: u32 = 0x0080_0000;

/// `f32::consts::FRAC_PI_2`, `PI`, `FRAC_PI_2 + PI`, and the reciprocals of `PI` and
/// `2.0 * PI`.
pub const FRAC_PI_2_BITS: u32 = 0x3fc9_0fdb;

pub const PI_BITS: u32 = 0x4049_0fdb;

pub const FRAC_PI_2_PLUS_PI_BITS: u32 = 0x4096_cbe4;

pub const RECIP_PI_BITS: u32 = 0x3ea2_f983;

pub const RECIP_TWO_PI_BITS: u32 = 0x3e22_f983;

/// A range of `f32`s: the ids of its lower and upper bounds.
#[derive(Copy, Clone, PartialEq, Eq, Structural, Debug)]
pub struct F32Range {
    pub lo: ValueId,
    pub hi: ValueId,
}

/// A range of booleans: whether the value is true for all of the range, and whether for
/// any of it. The two ids are the same when the value is known.
#[derive(Copy, Clone, PartialEq, Eq, Structural, Debug)]
pub struct BoolRange {
    pub all: ValueId,
    pub any: ValueId,
}

impl BoolRange {
    pub fn point(v: ValueId) -> (r: BoolRange)
        ensures
            r.all == v && r.any == v,
    {
        BoolRange { all: v, any: v }
    }

    /// The value, when it is known.
    pub fn definite(self) -> (r: Option<ValueId>)
        ensures
            r == (if self.all == self.any { Some(self.all) } else { None }),
    {
        if self.all == self.any {
            Some(self.all)
        } else {
            None
        }
    }
}

/// A translated value: an `i32` stays one value; a bool and an `f32` become ranges.
#[derive(Copy, Clone, PartialEq, Eq, Structural, Debug)]
pub enum Value {
    I32(ValueId),
    Bool(BoolRange),
    F32(F32Range),
}

/// `r` is the range whose lower bound `lo_instr` makes and whose upper bound `hi_instr`
/// makes, in a tape with `n` arguments and the instructions `instrs`.
pub open spec fn range_rule(instrs: Seq<Instr>, n: int, lo_instr: Instr, hi_instr: Instr, r: Value) -> bool {
    exists|lo: ValueId, hi: ValueId|
        #[trigger] made_by(instrs, n, lo, lo_instr) && #[trigger] made_by(instrs, n, hi, hi_instr) && r == Value::F32(
            F32Range { lo, hi },
        )
}

/// The `i32` sum, difference or product, as `instr` is, of `x` and `y`.
pub open spec fn i32_op(instr: Instr, x: ValueId, y: ValueId) -> Instr {
    match instr {
        Instr::I32Add(_, _) => Instr::I32Add(x, y),
        Instr::I32Sub(_, _) => Instr::I32Sub(x, y),
        _ => Instr::I32Mul(x, y),
    }
}

/// `r` is the `i32` that the operation of `instr` makes from the `i32`s `x` and `y`.
pub open spec fn i32_rule(x: Value, y: Value, instrs: Seq<Instr>, n: int, instr: Instr, r: Value) -> bool {
    match (x, y) {
        (Value::I32(x), Value::I32(y)) => r matches Value::I32(v) && made_by(instrs, n, v, i32_op(instr, x, y)),
        _ => false,
    }
}

/// The `i32` comparison, as `instr` is, of `x` and `y`.
pub open spec fn i32_relation(instr: Instr, x: ValueId, y: ValueId) -> Instr {
    match instr {
        Instr::I32Eq(_, _) => Instr::I32Eq(x, y),
        Instr::I32Ne(_, _) => Instr::I32Ne(x, y),
        Instr::I32Lt(_, _) => Instr::I32Lt(x, y),
        Instr::I32Le(_, _) => Instr::I32Le(x, y),
        Instr::I32Gt(_, _) => Instr::I32Gt(x, y),
        _ => Instr::I32Ge(x, y),
    }
}

/// `r` is the known boolean that the comparison of `instr` makes of the `i32`s `x` and `y`.
pub open spec fn relation_rule(x: Value, y: Value, instrs: Seq<Instr>, n: int, instr: Instr, r: Value) -> bool {
    match (x, y) {
        (Value::I32(x), Value::I32(y)) => r matches Value::Bool(b) && b.all == b.any && made_by(
            instrs,
            n,
            b.all,
            i32_relation(instr, x, y),
        ),
        _ => false,
    }
}

/// `r` is the negation of the boolean range `x`: true for all where `x` is true for none,
/// true for some where `x` is not true for all; one value where `x` is known.
pub open spec fn not_rule(instrs: Seq<Instr>, n: int, x: BoolRange, r: Value) -> bool {
    r matches Value::Bool(y) && made_by(instrs, n, y.all, Instr::Not(x.any)) && if x.all == x.any {
        y.any == y.all
    } else {
        made_by(instrs, n, y.any, Instr::Not(x.all))
    }
}

/// `r` is the `f32` range of the boolean range `x`: from its value for all to its value
/// for any, a point where it is known.
pub open spec fn from_bool_rule(instrs: Seq<Instr>, n: int, x: BoolRange, r: Value) -> bool {
    r matches Value::F32(y) && if x.all == x.any {
        y.lo == y.hi && made_by(instrs, n, y.lo, Instr::F32FromBool(x.all))
    } else {
        made_by(instrs, n, y.lo, Instr::F32FromBool(x.all)) && made_by(instrs, n, y.hi, Instr::F32FromBool(x.any))
    }
}

/// From instruction `s` on, `instrs` holds the product of the ranges `x` and `y`, whose
/// range is `r`.
pub open spec fn mul_at(instrs: Seq<Instr>, n: int, x: F32Range, y: F32Range, r: Value, s: int) -> bool {
    &&& 0 <= s
    &&& s + 10 <= instrs.len()
    &&& instrs.subrange(s, s + 10) == mul_block(x, y, n + s)
    &&& r == Value::F32(mul_result(n + s))
}

/// `r` is the boolean range made by `all_instr`, what holds for all, and `any_instr`, what
/// holds for some.
pub open spec fn bool_range_rule(instrs: Seq<Instr>, n: int, all_instr: Instr, any_instr: Instr, r: Value) -> bool {
    r matches Value::Bool(b) && made_by(instrs, n, b.all, all_instr) && made_by(instrs, n, b.any, any_instr)
}

/// The order of the `f32` ranges `x` and `y` that `instr` tests: it holds for all where
/// the upper bound of the smaller side is below the lower bound of the larger, and for
/// some where the lower bound of the smaller side is below the upper bound of the larger.
pub open spec fn order_rule(instrs: Seq<Instr>, n: int, instr: Instr, x: F32Range, y: F32Range, r: Value) -> bool {
    match instr {
        Instr::F32Lt(_, _) => bool_range_rule(instrs, n, Instr::F32Lt(x.hi, y.lo), Instr::F32Lt(x.lo, y.hi), r),
        Instr::F32Le(_, _) => bool_range_rule(instrs, n, Instr::F32Le(x.hi, y.lo), Instr::F32Le(x.lo, y.hi), r),
        Instr::F32Gt(_, _) => bool_range_rule(instrs, n, Instr::F32Lt(y.hi, x.lo), Instr::F32Lt(y.lo, x.hi), r),
        _ => bool_range_rule(instrs, n, Instr::F32Le(y.hi, x.lo), Instr::F32Le(y.lo, x.hi), r),
    }
}

/// What the comparison instruction `i` says where each value `v` stands at `val(v)` in
/// a total order of the `f32`s that are not NaN.
pub open spec fn compare_holds(i: Instr, val: spec_fn(ValueId) -> int) -> bool {
    match i {
        Instr::F32Lt(a, b) => val(a) < val(b),
        Instr::F32Le(a, b) => val(a) <= val(b),
        _ => false,
    }
}

/// What the order comparison `instr` of the source says of the points `px` and `py`.
pub open spec fn order_at(instr: Instr, px: int, py: int) -> bool {
    match instr {
        Instr::F32Lt(_, _) => px < py,
        Instr::F32Le(_, _) => px <= py,
        Instr::F32Gt(_, _) => px > py,
        Instr::F32Ge(_, _) => px >= py,
        _ => false,
    }
}

/// Law: the ranged order comparisons are sound. Where the bounds of `x` and `y` stand at
/// `val` in the order of the `f32`s, and `px` and `py` are points within them, the value
/// made for "holds for all" is true only where the comparison holds at the points, and
/// where it holds at the points the value made for "holds for some" is true. So `x > y`
/// holds for all exactly where `y.hi < x.lo`.
pub proof fn law_order_sound(
    instrs: Seq<Instr>,
    n: int,
    instr: Instr,
    x: F32Range,
    y: F32Range,
    r: Value,
    val: spec_fn(ValueId) -> int,
    px: int,
    py: int,
)
    requires
        instr is F32Lt || instr is F32Le || instr is F32Gt || instr is F32Ge,
        order_rule(instrs, n, instr, x, y, r),
        val(x.lo) <= px <= val(x.hi),
        val(y.lo) <= py <= val(y.hi),
    ensures
        r is Bool,
        compare_holds(instrs[(r->Bool_0).all.0 - n], val) ==> order_at(instr, px, py),
        order_at(instr, px, py) ==> compare_holds(instrs[(r->Bool_0).any.0 - n], val),
{
}

/// Whether the value `v` of `instrs`, in a tape with `n` arguments, is a conjunction of
/// two comparisons that both hold at `val`.
pub open spec fn both_hold(instrs: Seq<Instr>, n: int, v: ValueId, val: spec_fn(ValueId) -> int) -> bool {
    &&& op_at(instrs, n, v) matches Some(Instr::And(a, b))
    &&& op_at(instrs, n, a) matches Some(ia)
    &&& op_at(instrs, n, b) matches Some(ib)
    &&& compare_holds(ia, val)
    &&& compare_holds(ib, val)
}

/// Law: the ranged equality of `f32`s is sound. Where the bounds of `x` and `y` stand at
/// `val` in the order of the `f32`s, and `px` and `py` are points within them, the value
/// made for "equal for all" holds only where the points are equal, and where they are
/// equal the value made for "equal for some" holds.
pub proof fn law_eq_sound(
    instrs: Seq<Instr>,
    n: int,
    x: F32Range,
    y: F32Range,
    e: BoolRange,
    val: spec_fn(ValueId) -> int,
    px: int,
    py: int,
)
    requires
        eq_range(instrs, n, x, y, e),
        val(x.lo) <= px <= val(x.hi),
        val(y.lo) <= py <= val(y.hi),
    ensures
        both_hold(instrs, n, e.all, val) ==> px == py,
        px == py ==> both_hold(instrs, n, e.any, val),
{
}

/// The value of the instruction `i` where each value `v` stands at `val(v)`, for the
/// instructions whose result the integers give exactly: negation, sum, difference,
/// minimum and maximum.
pub open spec fn int_value(i: Instr, val: spec_fn(ValueId) -> int) -> Option<int> {
    match i {
        Instr::F32Neg(a) => Some(-val(a)),
        Instr::F32Add(a, b) => Some(val(a) + val(b)),
        Instr::F32Sub(a, b) => Some(val(a) - val(b)),
        Instr::F32Min(a, b) => Some(if val(a) <= val(b) { val(a) } else { val(b) }),
        Instr::F32Max(a, b) => Some(if val(a) >= val(b) { val(a) } else { val(b) }),
        _ => None,
    }
}

/// `val(v)` is what the instruction that makes `v` computes from the values at `val`.
pub open spec fn computed_at(instrs: Seq<Instr>, n: int, v: ValueId, val: spec_fn(ValueId) -> int) -> bool {
    op_at(instrs, n, v) matches Some(i) && int_value(i, val) == Some(val(v))
}

/// What the source instruction `instr` computes at the points `px` and `py`.
pub open spec fn point_value(instr: Instr, px: int, py: int) -> int {
    match instr {
        Instr::F32Neg(_) => -px,
        Instr::F32Add(_, _) => px + py,
        Instr::F32Sub(_, _) => px - py,
        Instr::F32Min(_, _) => if px <= py { px } else { py },
        _ => if px >= py { px } else { py },
    }
}

/// Law: the ranged negation, sum, difference, minimum and maximum are sound. Where the
/// bounds of the operand ranges `x` (and `y`) stand at `val`, `px` and `py` are points
/// within them, and the bounds of the result are what their instructions compute at
/// `val`, the value of the source instruction at the points lies within the result.
pub proof fn law_bounds_sound(
    instr: Instr,
    values: Seq<Value>,
    instrs: Seq<Instr>,
    n: int,
    r: Value,
    x: F32Range,
    y: F32Range,
    val: spec_fn(ValueId) -> int,
    px: int,
    py: int,
)
    requires
        instr is F32Neg || instr is F32Add || instr is F32Sub || instr is F32Min || instr is F32Max,
        interval_rule(instr, values, instrs, n, r),
        values[instr.operands()[0].0.0 as int] == Value::F32(x),
        instr.operands().len() > 1 ==> values[instr.operands()[1].0.0 as int] == Value::F32(y),
        val(x.lo) <= px <= val(x.hi),
        val(y.lo) <= py <= val(y.hi),
    ensures
        r is F32,
        computed_at(instrs, n, (r->F32_0).lo, val) && computed_at(instrs, n, (r->F32_0).hi, val) ==> val((r->F32_0).lo)
            <= point_value(instr, px, py) <= val((r->F32_0).hi),
{
    reveal(rule_of);
}

/// The conjunction or disjunction, as `instr` is, of the boolean ranges `x` and `y`: of
/// what holds for all, and of what holds for some, one value where both are known.
pub open spec fn logic_rule(instrs: Seq<Instr>, n: int, instr: Instr, x: BoolRange, y: BoolRange, r: Value) -> bool {
    let all_instr = if instr is And { Instr::And(x.all, y.all) } else { Instr::Or(x.all, y.all) };
    let any_instr = if instr is And { Instr::And(x.any, y.any) } else { Instr::Or(x.any, y.any) };
    r matches Value::Bool(b) && made_by(instrs, n, b.all, all_instr) && if x.all == x.any && y.all == y.any {
        b.any == b.all
    } else {
        made_by(instrs, n, b.any, any_instr)
    }
}

/// The instruction that makes the value `v`, where `instrs` has one.
pub open spec fn op_at(instrs: Seq<Instr>, n: int, v: ValueId) -> Option<Instr> {
    if n <= v.0 < n + instrs.len() {
        Some(instrs[v.0 - n])
    } else {
        None
    }
}

/// `v` is the conjunction of a value made by `i1` and one made by `i2`.
pub open spec fn both_made(instrs: Seq<Instr>, n: int, v: ValueId, i1: Instr, i2: Instr) -> bool {
    &&& op_at(instrs, n, v) matches Some(Instr::And(p, q))
    &&& made_by(instrs, n, p, i1)
    &&& made_by(instrs, n, q, i2)
}

/// `e` is the equality of the `f32` ranges `x` and `y`: it holds for all where each
/// upper bound is at most the other lower bound, and for some where each lower bound is
/// at most the other upper bound.
pub open spec fn eq_range(instrs: Seq<Instr>, n: int, x: F32Range, y: F32Range, e: BoolRange) -> bool {
    &&& both_made(instrs, n, e.all, Instr::F32Le(x.hi, y.lo), Instr::F32Le(y.hi, x.lo))
    &&& both_made(instrs, n, e.any, Instr::F32Le(x.lo, y.hi), Instr::F32Le(y.lo, x.hi))
}

/// `r` is the inequality of the `f32` ranges `x` and `y`: the negation of their
/// equality, which swaps what holds for all and for some.
pub open spec fn ne_rule(instrs: Seq<Instr>, n: int, x: F32Range, y: F32Range, r: Value) -> bool {
    &&& r matches Value::Bool(z)
    &&& op_at(instrs, n, z.all) matches Some(Instr::Not(a))
    &&& op_at(instrs, n, z.any) matches Some(Instr::Not(b))
    &&& eq_range(instrs, n, x, y, BoolRange { all: b, any: a })
}

/// `r` is the exclusive or of the boolean ranges `x` and `y`: one value where both are
/// known; else it holds for all where it holds of the known values and neither is in
/// doubt, and for some where it holds of them or one is in doubt.
pub open spec fn xor_rule(instrs: Seq<Instr>, n: int, x: BoolRange, y: BoolRange, r: Value) -> bool {
    &&& r matches Value::Bool(z)
    &&& if x.all == x.any && y.all == y.any {
        z.all == z.any && made_by(instrs, n, z.all, Instr::Xor(x.all, y.all))
    } else {
        &&& op_at(instrs, n, z.all) matches Some(Instr::And(d, c))
        &&& op_at(instrs, n, z.any) matches Some(Instr::Or(d2, u))
        &&& d2 == d
        &&& made_by(instrs, n, d, Instr::Xor(x.all, y.all))
        &&& made_by(instrs, n, c, Instr::Not(u))
        &&& op_at(instrs, n, u) matches Some(Instr::Or(ux, uy))
        &&& made_by(instrs, n, ux, Instr::Xor(x.all, x.any))
        &&& made_by(instrs, n, uy, Instr::Xor(y.all, y.any))
    }
}

/// `v` selects by `c` between `t` and a value that selects by `c2` between the value
/// made by `hull` and `f`.
pub open spec fn nested_select(instrs: Seq<Instr>, n: int, v: ValueId, c: ValueId, t: ValueId, c2: ValueId, hull: Instr, f: ValueId) -> bool {
    &&& op_at(instrs, n, v) matches Some(Instr::F32Sel(c1, t1, u))
    &&& c1 == c
    &&& t1 == t
    &&& op_at(instrs, n, u) matches Some(Instr::F32Sel(c3, h, f1))
    &&& c3 == c2
    &&& f1 == f
    &&& made_by(instrs, n, h, hull)
}

/// `r` is the selection by the boolean range `c` between the `f32` ranges `t` and `f`:
/// a selection of each bound where `c` is known, else `t` where `c` holds for all, `f`
/// where it holds for none, and the hull of both where it is in doubt.
pub open spec fn sel_rule(instrs: Seq<Instr>, n: int, c: BoolRange, t: F32Range, f: F32Range, r: Value) -> bool {
    if c.all == c.any {
        range_rule(instrs, n, Instr::F32Sel(c.all, t.lo, f.lo), Instr::F32Sel(c.all, t.hi, f.hi), r)
    } else {
        &&& r matches Value::F32(z)
        &&& nested_select(instrs, n, z.lo, c.all, t.lo, c.any, Instr::F32Min(t.lo, f.lo), f.lo)
        &&& nested_select(instrs, n, z.hi, c.all, t.hi, c.any, Instr::F32Max(t.hi, f.hi), f.hi)
    }
}

/// `r` is the absolute value of the range `x`: from the greatest of its lower bound, its
/// negated upper bound and zero, to the greater of its upper bound and its negated lower
/// bound.
pub open spec fn abs_rule(instrs: Seq<Instr>, n: int, x: F32Range, r: Value) -> bool {
    &&& r matches Value::F32(z)
    &&& op_at(instrs, n, z.lo) matches Some(Instr::F32Max(m, zero))
    &&& made_by(instrs, n, zero, Instr::F32Const(ZERO_BITS))
    &&& op_at(instrs, n, m) matches Some(Instr::F32Max(a, neg_hi))
    &&& a == x.lo
    &&& made_by(instrs, n, neg_hi, Instr::F32Neg(x.hi))
    &&& op_at(instrs, n, z.hi) matches Some(Instr::F32Max(c, neg_lo))
    &&& c == x.hi
    &&& made_by(instrs, n, neg_lo, Instr::F32Neg(x.lo))
}

/// `cl` and `ch` are the bounds of the range `x` raised to the least positive `f32`,
/// where a logarithm or a real power is defined.
pub open spec fn clamp_rule(instrs: Seq<Instr>, n: int, x: F32Range, cl: ValueId, ch: ValueId) -> bool {
    &&& op_at(instrs, n, cl) matches Some(Instr::F32Max(a, tiny))
    &&& a == x.lo
    &&& made_by(instrs, n, tiny, Instr::F32Const(MIN_POSITIVE_BITS))
    &&& op_at(instrs, n, ch) matches Some(Instr::F32Max(c, tiny2))
    &&& c == x.hi
    &&& tiny2 == tiny
}

/// `r` is the natural or decimal logarithm, as `instr` is, of each bound of the range
/// `x` raised to the least positive `f32`.
pub open spec fn log_rule(instrs: Seq<Instr>, n: int, instr: Instr, x: F32Range, r: Value) -> bool {
    &&& r matches Value::F32(z)
    &&& op_at(instrs, n, z.lo) matches Some(lo_instr)
    &&& op_at(instrs, n, z.hi) matches Some(hi_instr)
    &&& if instr is F32Ln {
        lo_instr matches Instr::F32Ln(cl) && hi_instr matches Instr::F32Ln(ch) && clamp_rule(instrs, n, x, cl, ch)
    } else {
        lo_instr matches Instr::F32Lg(cl) && hi_instr matches Instr::F32Lg(ch) && clamp_rule(instrs, n, x, cl, ch)
    }
}

/// `l` is the natural logarithm of each bound of the range `x` raised to the least
/// positive `f32`.
pub open spec fn ln_range(instrs: Seq<Instr>, n: int, x: F32Range, l: F32Range) -> bool {
    &&& op_at(instrs, n, l.lo) matches Some(Instr::F32Ln(cl))
    &&& op_at(instrs, n, l.hi) matches Some(Instr::F32Ln(ch))
    &&& clamp_rule(instrs, n, x, cl, ch)
}

/// `r` is the range `x` raised to the power of the range `y`: the exponential of each
/// bound of the product of `y` and the logarithm of `x`, as `ln_range` takes it.
pub open spec fn powf_rule(instrs: Seq<Instr>, n: int, x: F32Range, y: F32Range, r: Value) -> bool {
    &&& r matches Value::F32(z)
    &&& op_at(instrs, n, z.lo) matches Some(Instr::F32Exp(el))
    &&& op_at(instrs, n, z.hi) matches Some(Instr::F32Exp(eh))
    &&& exists|l: F32Range, s: int|
        #[trigger] mul_at(instrs, n, l, y, Value::F32(F32Range { lo: el, hi: eh }), s) && ln_range(instrs, n, x, l)
}

/// The instructions that keep each bound of `x` at least the least positive `f32` away
/// from zero, with its sign, from id `l` on: the bounds are at `l + 4` and `l + 8`.
pub open spec fn nonzero_block(x: F32Range, l: int) -> Seq<Instr> {
    seq![
        Instr::F32Const(MIN_POSITIVE_BITS),
        Instr::F32Sign(x.lo),
        Instr::F32Abs(x.lo),
        Instr::F32Max(ValueId((l + 2) as u16), ValueId(l as u16)),
        Instr::F32Mul(ValueId((l + 1) as u16), ValueId((l + 3) as u16)),
        Instr::F32Sign(x.hi),
        Instr::F32Abs(x.hi),
        Instr::F32Max(ValueId((l + 6) as u16), ValueId(l as u16)),
        Instr::F32Mul(ValueId((l + 5) as u16), ValueId((l + 7) as u16)),
    ]
}

/// The instructions that make the reciprocal of the range `x` from id `l` on: one over
/// each bound kept away from zero (`nonzero_block`), the hull of the two, and the whole
/// line of `f32`s instead where the bounds of `x` have different signs.
pub open spec fn recip_block(x: F32Range, l: int) -> Seq<Instr> {
    seq![Instr::F32Const(ONE_BITS)] + nonzero_block(x, l + 1) + seq![
        Instr::F32Div(ValueId(l as u16), ValueId((l + 5) as u16)),
        Instr::F32Div(ValueId(l as u16), ValueId((l + 9) as u16)),
        Instr::F32Min(ValueId((l + 10) as u16), ValueId((l + 11) as u16)),
        Instr::F32Max(ValueId((l + 10) as u16), ValueId((l + 11) as u16)),
        Instr::F32Sign(x.lo),
        Instr::F32Sign(x.hi),
        Instr::F32Lt(ValueId((l + 14) as u16), ValueId((l + 15) as u16)),
        Instr::F32Const(NEG_MAX_BITS),
        Instr::F32Const(MAX_BITS),
        Instr::F32Sel(ValueId((l + 16) as u16), ValueId((l + 17) as u16), ValueId((l + 12) as u16)),
        Instr::F32Sel(ValueId((l + 16) as u16), ValueId((l + 18) as u16), ValueId((l + 13) as u16)),
    ]
}

/// The range that `recip_block` makes from id `l` on.
pub open spec fn recip_result(l: int) -> F32Range {
    F32Range { lo: ValueId((l + 19) as u16), hi: ValueId((l + 20) as u16) }
}

/// From instruction `s` on, `instrs` holds the quotient of the ranges `x` and `y`, whose
/// range is `r`: the reciprocal of `y` (`recip_block`), then the product of `x` with it.
pub open spec fn div_at(instrs: Seq<Instr>, n: int, x: F32Range, y: F32Range, r: Value, s: int) -> bool {
    &&& 0 <= s
    &&& s + 21 <= instrs.len()
    &&& instrs.subrange(s, s + 21) == recip_block(y, n + s)
    &&& mul_at(instrs, n, x, recip_result(n + s), r, s + 21)
}

/// The instructions that raise the range `x` to the `i32` power `p` from id `l` on: the
/// power of each bound kept away from zero (`nonzero_block`), their hull, stretched to
/// zero where the bounds of `x` have different signs, and the whole line of `f32`s
/// instead where they do and `p` is negative.
pub open spec fn powi_block(x: F32Range, p: ValueId, l: int) -> Seq<Instr> {
    nonzero_block(x, l) + seq![
        Instr::F32Powi(ValueId((l + 4) as u16), p),
        Instr::F32Powi(ValueId((l + 8) as u16), p),
        Instr::F32Min(ValueId((l + 9) as u16), ValueId((l + 10) as u16)),
        Instr::F32Max(ValueId((l + 9) as u16), ValueId((l + 10) as u16)),
        Instr::F32Sign(x.lo),
        Instr::F32Sign(x.hi),
        Instr::F32Lt(ValueId((l + 13) as u16), ValueId((l + 14) as u16)),
        Instr::F32Const(ZERO_BITS),
        Instr::F32Min(ValueId((l + 11) as u16), ValueId((l + 16) as u16)),
        Instr::F32Max(ValueId((l + 12) as u16), ValueId((l + 16) as u16)),
        Instr::F32Sel(ValueId((l + 15) as u16), ValueId((l + 17) as u16), ValueId((l + 11) as u16)),
        Instr::F32Sel(ValueId((l + 15) as u16), ValueId((l + 18) as u16), ValueId((l + 12) as u16)),
        Instr::I32Const(0),
        Instr::I32Lt(p, ValueId((l + 21) as u16)),
        Instr::And(ValueId((l + 15) as u16), ValueId((l + 22) as u16)),
        Instr::F32Const(NEG_MAX_BITS),
        Instr::F32Const(MAX_BITS),
        Instr::F32Sel(ValueId((l + 23) as u16), ValueId((l + 24) as u16), ValueId((l + 19) as u16)),
        Instr::F32Sel(ValueId((l + 23) as u16), ValueId((l + 25) as u16), ValueId((l + 20) as u16)),
    ]
}

/// From instruction `s` on, `instrs` holds the range `x` raised to the `i32` power `p`
/// (`powi_block`), whose range is `r`.
pub open spec fn powi_at(instrs: Seq<Instr>, n: int, x: F32Range, p: ValueId, r: Value, s: int) -> bool {
    &&& 0 <= s
    &&& s + 28 <= instrs.len()
    &&& instrs.subrange(s, s + 28) == powi_block(x, p, n + s)
    &&& r == Value::F32(F32Range { lo: ValueId((n + s + 26) as u16), hi: ValueId((n + s + 27) as u16) })
}

/// The instructions that test, from id `l` on, whether the range `x` holds a point equal
/// to `v` modulo the period whose reciprocal is `recip_period`: the indices of the periods
/// that hold its bounds differ. The test is at `l + 10`.
pub open spec fn modulo_block(x: F32Range, v: u32, recip_period: u32, l: int) -> Seq<Instr> {
    seq![
        Instr::F32Const(v),
        Instr::F32Const(recip_period),
        Instr::F32Sub(x.lo, ValueId(l as u16)),
        Instr::F32Mul(ValueId((l + 2) as u16), ValueId((l + 1) as u16)),
        Instr::F32Floor(ValueId((l + 3) as u16)),
        Instr::F32Sub(x.hi, ValueId(l as u16)),
        Instr::F32Mul(ValueId((l + 5) as u16), ValueId((l + 1) as u16)),
        Instr::F32Floor(ValueId((l + 6) as u16)),
        Instr::F32Sub(ValueId((l + 7) as u16), ValueId((l + 4) as u16)),
        Instr::F32Const(HALF_BITS),
        Instr::F32Gt(ValueId((l + 8) as u16), ValueId((l + 9) as u16)),
    ]
}

/// The instructions, from id `l` on, that widen the image `im` of `x` under a wave to 1
/// where `x` holds a peak and to -1 where it holds a trough: the range is `(l + 25, l +
/// 24)`.
pub open spec fn wave_tail(x: F32Range, im: F32Range, peak: u32, trough: u32, recip_period: u32, l: int) -> Seq<Instr> {
    modulo_block(x, peak, recip_period, l) + modulo_block(x, trough, recip_period, l + 11) + seq![
        Instr::F32Const(ONE_BITS),
        Instr::F32Const(NEG_ONE_BITS),
        Instr::F32Sel(ValueId((l + 10) as u16), ValueId((l + 22) as u16), im.hi),
        Instr::F32Sel(ValueId((l + 21) as u16), ValueId((l + 23) as u16), im.lo),
    ]
}

/// The instructions, from id `l` on, that widen the image `im` of `x` to every `f32`
/// where `x` holds a pole: the range is `(l + 13, l + 14)`.
pub open spec fn pole_tail(x: F32Range, im: F32Range, pole: u32, recip_period: u32, l: int) -> Seq<Instr> {
    modulo_block(x, pole, recip_period, l) + seq![
        Instr::F32Const(NEG_MAX_BITS),
        Instr::F32Const(MAX_BITS),
        Instr::F32Sel(ValueId((l + 10) as u16), ValueId((l + 11) as u16), im.lo),
        Instr::F32Sel(ValueId((l + 10) as u16), ValueId((l + 12) as u16), im.hi),
    ]
}

/// The image of each bound by `lo_instr` and `hi_instr` from id `l` on, and their hull.
pub open spec fn hull_block(lo_instr: Instr, hi_instr: Instr, l: int) -> Seq<Instr> {
    seq![
        lo_instr,
        hi_instr,
        Instr::F32Min(ValueId(l as u16), ValueId((l + 1) as u16)),
        Instr::F32Max(ValueId(l as u16), ValueId((l + 1) as u16)),
    ]
}

/// The range of the hull at `l + 2` and `l + 3`.
pub open spec fn hull_at(l: int) -> F32Range {
    F32Range { lo: ValueId((l + 2) as u16), hi: ValueId((l + 3) as u16) }
}

/// From instruction `s` on, `instrs` holds the sine or cosine of the range `x`, as
/// `instr` is: the hull of the images of its bounds, widened to 1 where `x` holds a peak
/// and to -1 where it holds a trough; `r` is its range.
pub open spec fn wave_at(instrs: Seq<Instr>, n: int, instr: Instr, x: F32Range, r: Value, s: int) -> bool {
    let l = n + s;
    let (lo_i, hi_i, peak, trough) = if instr is F32Sin {
        (Instr::F32Sin(x.lo), Instr::F32Sin(x.hi), FRAC_PI_2_BITS, FRAC_PI_2_PLUS_PI_BITS)
    } else {
        (Instr::F32Cos(x.lo), Instr::F32Cos(x.hi), ZERO_BITS, PI_BITS)
    };
    &&& 0 <= s
    &&& s + 30 <= instrs.len()
    &&& instrs.subrange(s, s + 30) == hull_block(lo_i, hi_i, l) + wave_tail(x, hull_at(l), peak, trough, RECIP_TWO_PI_BITS, l + 4)
    &&& r == Value::F32(F32Range { lo: ValueId((l + 29) as u16), hi: ValueId((l + 28) as u16) })
}

/// From instruction `s` on, `instrs` holds the tangent or cotangent of the range `x`, as
/// `instr` is: the hull of the images of its bounds, widened to every `f32` where `x`
/// holds a pole; `r` is its range.
pub open spec fn pole_at(instrs: Seq<Instr>, n: int, instr: Instr, x: F32Range, r: Value, s: int) -> bool {
    let l = n + s;
    let (lo_i, hi_i, pole) = if instr is F32Tan {
        (Instr::F32Tan(x.lo), Instr::F32Tan(x.hi), FRAC_PI_2_BITS)
    } else {
        (Instr::F32Cot(x.lo), Instr::F32Cot(x.hi), ZERO_BITS)
    };
    &&& 0 <= s
    &&& s + 19 <= instrs.len()
    &&& instrs.subrange(s, s + 19) == hull_block(lo_i, hi_i, l) + pole_tail(x, hull_at(l), pole, RECIP_PI_BITS, l + 4)
    &&& r == Value::F32(F32Range { lo: ValueId((l + 17) as u16), hi: ValueId((l + 18) as u16) })
}

/// The rule of a sine or cosine (`wave_at`) or of a tangent or cotangent (`pole_at`).
pub open spec fn trig_rule(instr: Instr, values: Seq<Value>, instrs: Seq<Instr>, n: int, r: Value) -> bool {
    let a = trig_operand(instr);
    match values[a.0 as int] {
        Value::F32(x) => if instr is F32Sin || instr is F32Cos {
            exists|s: int| #[trigger] wave_at(instrs, n, instr, x, r, s)
        } else {
            exists|s: int| #[trigger] pole_at(instrs, n, instr, x, r, s)
        },
        _ => false,
    }
}

/// The operand of a trigonometric instruction.
pub open spec fn trig_operand(instr: Instr) -> ValueId {
    match instr {
        Instr::F32Sin(a) | Instr::F32Cos(a) | Instr::F32Tan(a) | Instr::F32Cot(a) => a,
        _ => ValueId(0),
    }
}

/// The interval rule of the source instruction `instr` whose operands have the ranged
/// forms `values`, in a tape with `n` arguments and the instructions `instrs`: a copy
/// keeps its operand's form; a constant is a point range; `i32` arithmetic stays `i32` arithmetic; negation swaps the negated bounds; a sum adds
/// lower to lower and upper to upper; a difference subtracts the upper bound from the
/// lower and the lower from the upper; `min`, `max`, sign, floor and `exp` apply to each
/// bound; conversions and comparisons of `i32`s and booleans act on the known value or on
/// each bound; negation of a boolean range swaps what holds for all and for any; a
/// product is the least and the greatest of the four products of bounds; an order of
/// `f32` ranges holds for all where the bounds that lie furthest apart agree and for some
/// where the nearest do; equality and inequality of `f32` ranges, a conjunction, a
/// disjunction and an exclusive or combine what holds for all and what holds for some;
/// a selection picks each bound where its condition is known and spans both branches
/// where it is not; an absolute value spans from the greatest of the lower bound, the
/// negated upper bound and zero to the greater of the upper bound and the negated lower
/// bound; a logarithm applies to each bound raised to the least positive `f32`; a real
/// power is the exponential of the product of the exponent and that logarithm; a quotient
/// is the product with the reciprocal of the divisor (`recip_block`); an integer power
/// is as `powi_block` makes it; a sine or cosine is the hull of the images of the bounds,
/// widened to 1 and -1 where the range holds a peak or a trough (`wave_at`), and a
/// tangent or cotangent that hull widened to every `f32` where it holds a pole
/// (`pole_at`).
pub open spec fn interval_rule(instr: Instr, values: Seq<Value>, instrs: Seq<Instr>, n: int, r: Value) -> bool {
    rule_of(instr, values, instrs, n, r)
}

/// The interval rule of each instruction, as `interval_rule` describes it.
#[verifier::opaque]
pub open spec fn rule_of(instr: Instr, values: Seq<Value>, instrs: Seq<Instr>, n: int, r: Value) -> bool {
    match instr {
        Instr::CopyI32(a) | Instr::CopyBool(a) | Instr::CopyF32(a) => r == values[a.0 as int],
        Instr::I32Const(_) => exists|v: ValueId| #[trigger] made_by(instrs, n, v, instr) && r == Value::I32(v),
        Instr::F32Const(_) => exists|v: ValueId|
            #[trigger] made_by(instrs, n, v, instr) && r == Value::F32(F32Range { lo: v, hi: v }),
        Instr::I32Add(a, b) => i32_rule(values[a.0 as int], values[b.0 as int], instrs, n, instr, r),
        Instr::I32Sub(a, b) => i32_rule(values[a.0 as int], values[b.0 as int], instrs, n, instr, r),
        Instr::I32Mul(a, b) => i32_rule(values[a.0 as int], values[b.0 as int], instrs, n, instr, r),
        Instr::F32Neg(a) => match values[a.0 as int] {
            Value::F32(x) => range_rule(instrs, n, Instr::F32Neg(x.hi), Instr::F32Neg(x.lo), r),
            _ => false,
        },
        Instr::F32Sign(a) => match values[a.0 as int] {
            Value::F32(x) => range_rule(instrs, n, Instr::F32Sign(x.lo), Instr::F32Sign(x.hi), r),
            _ => false,
        },
        Instr::F32Floor(a) => match values[a.0 as int] {
            Value::F32(x) => range_rule(instrs, n, Instr::F32Floor(x.lo), Instr::F32Floor(x.hi), r),
            _ => false,
        },
        Instr::F32Exp(a) => match values[a.0 as int] {
            Value::F32(x) => range_rule(instrs, n, Instr::F32Exp(x.lo), Instr::F32Exp(x.hi), r),
            _ => false,
        },
        Instr::F32Add(a, b) => match (values[a.0 as int], values[b.0 as int]) {
            (Value::F32(x), Value::F32(y)) => range_rule(instrs, n, Instr::F32Add(x.lo, y.lo), Instr::F32Add(x.hi, y.hi), r),
            _ => false,
        },
        Instr::F32Sub(a, b) => match (values[a.0 as int], values[b.0 as int]) {
            (Value::F32(x), Value::F32(y)) => range_rule(instrs, n, Instr::F32Sub(x.lo, y.hi), Instr::F32Sub(x.hi, y.lo), r),
            _ => false,
        },
        Instr::F32Min(a, b) => match (values[a.0 as int], values[b.0 as int]) {
            (Value::F32(x), Value::F32(y)) => range_rule(instrs, n, Instr::F32Min(x.lo, y.lo), Instr::F32Min(x.hi, y.hi), r),
            _ => false,
        },
        Instr::F32Max(a, b) => match (values[a.0 as int], values[b.0 as int]) {
            (Value::F32(x), Value::F32(y)) => range_rule(instrs, n, Instr::F32Max(x.lo, y.lo), Instr::F32Max(x.hi, y.hi), r),
            _ => false,
        },
        Instr::BoolConst(_) => exists|v: ValueId|
            #[trigger] made_by(instrs, n, v, instr) && r == Value::Bool(BoolRange { all: v, any: v }),
        Instr::I32Eq(a, b) | Instr::I32Ne(a, b) | Instr::I32Lt(a, b) | Instr::I32Le(a, b) | Instr::I32Gt(a, b)
        | Instr::I32Ge(a, b) => relation_rule(values[a.0 as int], values[b.0 as int], instrs, n, instr, r),
        Instr::I32FromBool(a) => match values[a.0 as int] {
            Value::Bool(x) => r matches Value::I32(v) && made_by(instrs, n, v, Instr::I32FromBool(x.all)),
            _ => false,
        },
        Instr::I32Sel(c, t, f) => match (values[c.0 as int], values[t.0 as int], values[f.0 as int]) {
            (Value::Bool(cr), Value::I32(tv), Value::I32(fv)) => r matches Value::I32(v) && made_by(
                instrs,
                n,
                v,
                Instr::I32Sel(cr.all, tv, fv),
            ),
            _ => false,
        },
        Instr::Not(a) => match values[a.0 as int] {
            Value::Bool(x) => not_rule(instrs, n, x, r),
            _ => false,
        },
        Instr::F32FromI32(a) => match values[a.0 as int] {
            Value::I32(x) => r matches Value::F32(y) && y.lo == y.hi && made_by(instrs, n, y.lo, Instr::F32FromI32(x)),
            _ => false,
        },
        Instr::F32FromBool(a) => match values[a.0 as int] {
            Value::Bool(x) => from_bool_rule(instrs, n, x, r),
            _ => false,
        },
        Instr::F32Mul(a, b) => match (values[a.0 as int], values[b.0 as int]) {
            (Value::F32(x), Value::F32(y)) => exists|s: int| #[trigger] mul_at(instrs, n, x, y, r, s),
            _ => false,
        },
        Instr::F32Lt(a, b) | Instr::F32Le(a, b) | Instr::F32Gt(a, b) | Instr::F32Ge(a, b) => match (
            values[a.0 as int],
            values[b.0 as int],
        ) {
            (Value::F32(x), Value::F32(y)) => order_rule(instrs, n, instr, x, y, r),
            _ => false,
        },
        Instr::And(a, b) | Instr::Or(a, b) => match (values[a.0 as int], values[b.0 as int]) {
            (Value::Bool(x), Value::Bool(y)) => logic_rule(instrs, n, instr, x, y, r),
            _ => false,
        },
        Instr::F32Abs(a) => match values[a.0 as int] {
            Value::F32(x) => abs_rule(instrs, n, x, r),
            _ => false,
        },
        Instr::F32Ln(a) | Instr::F32Lg(a) => match values[a.0 as int] {
            Value::F32(x) => log_rule(instrs, n, instr, x, r),
            _ => false,
        },
        Instr::F32Powf(a, b) => match (values[a.0 as int], values[b.0 as int]) {
            (Value::F32(x), Value::F32(y)) => powf_rule(instrs, n, x, y, r),
            _ => false,
        },
        Instr::F32Div(a, b) => match (values[a.0 as int], values[b.0 as int]) {
            (Value::F32(x), Value::F32(y)) => exists|s: int| #[trigger] div_at(instrs, n, x, y, r, s),
            _ => false,
        },
        Instr::F32Powi(a, b) => match (values[a.0 as int], values[b.0 as int]) {
            (Value::F32(x), Value::I32(p)) => exists|s: int| #[trigger] powi_at(instrs, n, x, p, r, s),
            _ => false,
        },
        Instr::F32Sin(_) | Instr::F32Cos(_) | Instr::F32Tan(_) | Instr::F32Cot(_) => trig_rule(instr, values, instrs, n, r),
        Instr::F32Eq(a, b) => match (values[a.0 as int], values[b.0 as int]) {
            (Value::F32(x), Value::F32(y)) => r matches Value::Bool(e) && eq_range(instrs, n, x, y, e),
            _ => false,
        },
        Instr::F32Ne(a, b) => match (values[a.0 as int], values[b.0 as int]) {
            (Value::F32(x), Value::F32(y)) => ne_rule(instrs, n, x, y, r),
            _ => false,
        },
        Instr::Xor(a, b) => match (values[a.0 as int], values[b.0 as int]) {
            (Value::Bool(x), Value::Bool(y)) => xor_rule(instrs, n, x, y, r),
            _ => false,
        },
        Instr::F32Sel(c, t, f) => match (values[c.0 as int], values[t.0 as int], values[f.0 as int]) {
            (Value::Bool(cr), Value::F32(tr), Value::F32(fr)) => sel_rule(instrs, n, cr, tr, fr, r),
            _ => false,
        },
    }
}

/// The rule of an `i32` sum, difference or product whose operands have the forms `x` and
/// `y`.
proof fn lemma_i32_rule(instr: Instr, values: Seq<Value>, instrs: Seq<Instr>, n: int, x: ValueId, y: ValueId, v: ValueId)
    requires
        instr matches Instr::I32Add(a, b) || instr matches Instr::I32Sub(a, b) || instr matches Instr::I32Mul(a, b),
        values[instr.operands()[0].0.0 as int] == Value::I32(x),
        values[instr.operands()[1].0.0 as int] == Value::I32(y),
        made_by(instrs, n, v, i32_op(instr, x, y)),
    ensures
        rule_of(instr, values, instrs, n, Value::I32(v)),
{
    reveal(rule_of);
    match instr {
        Instr::I32Add(a, b) | Instr::I32Sub(a, b) | Instr::I32Mul(a, b) => {
            assert(values[a.0 as int] == Value::I32(x));
            assert(values[b.0 as int] == Value::I32(y));
            assert(made_by(instrs, n, v, i32_op(instr, x, y)));
        },
        _ => {},
    }
}

/// The rule of a constant or a copy.
proof fn lemma_leaf_rule(instr: Instr, values: Seq<Value>, instrs: Seq<Instr>, n: int, r: Value)
    requires
        match instr {
            Instr::CopyI32(a) | Instr::CopyBool(a) | Instr::CopyF32(a) => r == values[a.0 as int],
            Instr::I32Const(_) => r matches Value::I32(v) && made_by(instrs, n, v, instr),
            Instr::F32Const(_) => r matches Value::F32(x) && x.lo == x.hi && made_by(instrs, n, x.lo, instr),
            _ => false,
        },
    ensures
        rule_of(instr, values, instrs, n, r),
{
    reveal(rule_of);
}

proof fn lemma_range_grow(instrs: Seq<Instr>, instrs2: Seq<Instr>, n: int, lo_i: Instr, hi_i: Instr, r: Value)
    requires
        range_rule(instrs, n, lo_i, hi_i, r),
        instrs.len() <= instrs2.len(),
        forall|i: int| 0 <= i < instrs.len() ==> #[trigger] instrs2[i] == instrs[i],
    ensures
        range_rule(instrs2, n, lo_i, hi_i, r),
{
    let (lo, hi) = choose|lo: ValueId, hi: ValueId|
        #[trigger] made_by(instrs, n, lo, lo_i) && #[trigger] made_by(instrs, n, hi, hi_i) && r == Value::F32(
            F32Range { lo, hi },
        );
    lemma_made_by_grow(instrs, instrs2, n, lo, lo_i);
    lemma_made_by_grow(instrs, instrs2, n, hi, hi_i);
}

/// Appending instructions, and forms for later values, keeps the rule of an instruction
/// whose operands have their forms.
proof fn lemma_rule_grow(
    instr: Instr,
    values: Seq<Value>,
    values2: Seq<Value>,
    instrs: Seq<Instr>,
    instrs2: Seq<Instr>,
    n: int,
    r: Value,
)
    requires
        interval_rule(instr, values, instrs, n, r),
        forall|j: int| 0 <= j < instr.operands().len() ==> (#[trigger] instr.operands()[j]).0.0 < values.len(),
        values.len() <= values2.len(),
        forall|i: int| 0 <= i < values.len() ==> #[trigger] values2[i] == values[i],
        instrs.len() <= instrs2.len(),
        forall|i: int| 0 <= i < instrs.len() ==> #[trigger] instrs2[i] == instrs[i],
    ensures
        interval_rule(instr, values2, instrs2, n, r),
{
    reveal(rule_of);
    {
        let ops = instr.operands();
        if ops.len() > 0 {
            assert(values2[ops[0].0.0 as int] == values[ops[0].0.0 as int]);
        }
        if ops.len() > 1 {
            assert(values2[ops[1].0.0 as int] == values[ops[1].0.0 as int]);
        }
        if ops.len() > 2 {
            assert(values2[ops[2].0.0 as int] == values[ops[2].0.0 as int]);
        }
        match instr {
            Instr::I32Const(_) | Instr::F32Const(_) => {
                let v = choose|v: ValueId| #[trigger] made_by(instrs, n, v, instr) && (r == Value::I32(v) || r
                    == Value::F32(F32Range { lo: v, hi: v }));
                lemma_made_by_grow(instrs, instrs2, n, v, instr);
            },
            Instr::I32Add(a, b) | Instr::I32Sub(a, b) | Instr::I32Mul(a, b) => {
                if let (Value::I32(x), Value::I32(y)) = (values[a.0 as int], values[b.0 as int]) {
                    if let Value::I32(v) = r {
                        lemma_made_by_grow(instrs, instrs2, n, v, i32_op(instr, x, y));
                    }
                }
            },
            Instr::F32Neg(a) => {
                if let Value::F32(x) = values[a.0 as int] {
                    lemma_range_grow(instrs, instrs2, n, Instr::F32Neg(x.hi), Instr::F32Neg(x.lo), r);
                }
            },
            Instr::F32Sign(a) => {
                if let Value::F32(x) = values[a.0 as int] {
                    lemma_range_grow(instrs, instrs2, n, Instr::F32Sign(x.lo), Instr::F32Sign(x.hi), r);
                }
            },
            Instr::F32Floor(a) => {
                if let Value::F32(x) = values[a.0 as int] {
                    lemma_range_grow(instrs, instrs2, n, Instr::F32Floor(x.lo), Instr::F32Floor(x.hi), r);
                }
            },
            Instr::F32Exp(a) => {
                if let Value::F32(x) = values[a.0 as int] {
                    lemma_range_grow(instrs, instrs2, n, Instr::F32Exp(x.lo), Instr::F32Exp(x.hi), r);
                }
            },
            Instr::F32Add(a, b) => {
                if let (Value::F32(x), Value::F32(y)) = (values[a.0 as int], values[b.0 as int]) {
                    lemma_range_grow(instrs, instrs2, n, Instr::F32Add(x.lo, y.lo), Instr::F32Add(x.hi, y.hi), r);
                }
            },
            Instr::F32Sub(a, b) => {
                if let (Value::F32(x), Value::F32(y)) = (values[a.0 as int], values[b.0 as int]) {
                    lemma_range_grow(instrs, instrs2, n, Instr::F32Sub(x.lo, y.hi), Instr::F32Sub(x.hi, y.lo), r);
                }
            },
            Instr::F32Min(a, b) => {
                if let (Value::F32(x), Value::F32(y)) = (values[a.0 as int], values[b.0 as int]) {
                    lemma_range_grow(instrs, instrs2, n, Instr::F32Min(x.lo, y.lo), Instr::F32Min(x.hi, y.hi), r);
                }
            },
            Instr::F32Max(a, b) => {
                if let (Value::F32(x), Value::F32(y)) = (values[a.0 as int], values[b.0 as int]) {
                    lemma_range_grow(instrs, instrs2, n, Instr::F32Max(x.lo, y.lo), Instr::F32Max(x.hi, y.hi), r);
                }
            },
            Instr::BoolConst(_) => {
                let v = choose|v: ValueId|
                    #[trigger] made_by(instrs, n, v, instr) && r == Value::Bool(BoolRange { all: v, any: v });
                lemma_made_by_grow(instrs, instrs2, n, v, instr);
            },
            Instr::I32Eq(a, b) | Instr::I32Ne(a, b) | Instr::I32Lt(a, b) | Instr::I32Le(a, b) | Instr::I32Gt(a, b)
            | Instr::I32Ge(a, b) => {
                if let (Value::I32(x), Value::I32(y)) = (values[a.0 as int], values[b.0 as int]) {
                    if let Value::Bool(bb) = r {
                        lemma_made_by_grow(instrs, instrs2, n, bb.all, i32_relation(instr, x, y));
                    }
                }
            },
            Instr::I32FromBool(a) => {
                if let (Value::Bool(x), Value::I32(v)) = (values[a.0 as int], r) {
                    lemma_made_by_grow(instrs, instrs2, n, v, Instr::I32FromBool(x.all));
                }
            },
            Instr::I32Sel(c, t, f) => {
                if let (Value::Bool(cr), Value::I32(tv), Value::I32(fv)) = (
                    values[c.0 as int],
                    values[t.0 as int],
                    values[f.0 as int],
                ) {
                    if let Value::I32(v) = r {
                        lemma_made_by_grow(instrs, instrs2, n, v, Instr::I32Sel(cr.all, tv, fv));
                    }
                }
            },
            Instr::Not(a) => {
                if let (Value::Bool(x), Value::Bool(y)) = (values[a.0 as int], r) {
                    lemma_made_by_grow(instrs, instrs2, n, y.all, Instr::Not(x.any));
                    if x.all != x.any {
                        lemma_made_by_grow(instrs, instrs2, n, y.any, Instr::Not(x.all));
                    }
                }
            },
            Instr::F32FromI32(a) => {
                if let (Value::I32(x), Value::F32(y)) = (values[a.0 as int], r) {
                    lemma_made_by_grow(instrs, instrs2, n, y.lo, Instr::F32FromI32(x));
                }
            },
            Instr::F32FromBool(a) => {
                if let (Value::Bool(x), Value::F32(y)) = (values[a.0 as int], r) {
                    lemma_made_by_grow(instrs, instrs2, n, y.lo, Instr::F32FromBool(x.all));
                    if x.all != x.any {
                        lemma_made_by_grow(instrs, instrs2, n, y.hi, Instr::F32FromBool(x.any));
                    }
                }
            },
            Instr::F32Mul(a, b) => {
                if let (Value::F32(x), Value::F32(y)) = (values[a.0 as int], values[b.0 as int]) {
                    let s = choose|s: int| #[trigger] mul_at(instrs, n, x, y, r, s);
                    assert(instrs2.subrange(s, s + 10) =~= instrs.subrange(s, s + 10));
                    assert(mul_at(instrs2, n, x, y, r, s));
                }
            },
            Instr::F32Div(_, _) | Instr::F32Powi(_, _) => {
                lemma_block_rules_grow(instr, values, instrs, instrs2, n, r);
            },
            Instr::F32Sin(_) | Instr::F32Cos(_) | Instr::F32Tan(_) | Instr::F32Cot(_) => {
                lemma_trig_grow(instr, values, instrs, instrs2, n, r);
            },
            Instr::F32Lt(a, b) | Instr::F32Le(a, b) | Instr::F32Gt(a, b) | Instr::F32Ge(a, b) => {
                if let (Value::F32(x), Value::F32(y), Value::Bool(bb)) = (values[a.0 as int], values[b.0 as int], r) {
                    let (ai, yi) = match instr {
                        Instr::F32Lt(_, _) => (Instr::F32Lt(x.hi, y.lo), Instr::F32Lt(x.lo, y.hi)),
                        Instr::F32Le(_, _) => (Instr::F32Le(x.hi, y.lo), Instr::F32Le(x.lo, y.hi)),
                        Instr::F32Gt(_, _) => (Instr::F32Lt(y.hi, x.lo), Instr::F32Lt(y.lo, x.hi)),
                        _ => (Instr::F32Le(y.hi, x.lo), Instr::F32Le(y.lo, x.hi)),
                    };
                    lemma_made_by_grow(instrs, instrs2, n, bb.all, ai);
                    lemma_made_by_grow(instrs, instrs2, n, bb.any, yi);
                }
            },
            Instr::And(a, b) | Instr::Or(a, b) => {
                if let (Value::Bool(x), Value::Bool(y), Value::Bool(bb)) = (values[a.0 as int], values[b.0 as int], r) {
                    let ai = if instr is And { Instr::And(x.all, y.all) } else { Instr::Or(x.all, y.all) };
                    let yi = if instr is And { Instr::And(x.any, y.any) } else { Instr::Or(x.any, y.any) };
                    lemma_made_by_grow(instrs, instrs2, n, bb.all, ai);
                    if !(x.all == x.any && y.all == y.any) {
                        lemma_made_by_grow(instrs, instrs2, n, bb.any, yi);
                    }
                }
            },
            Instr::F32Eq(_, _) | Instr::F32Ne(_, _) | Instr::Xor(_, _) | Instr::F32Sel(_, _, _) | Instr::F32Abs(_)
            | Instr::F32Ln(_) | Instr::F32Lg(_) | Instr::F32Powf(_, _) => {
                lemma_op_rules_grow(instr, values, instrs, instrs2, n, r);
            },
            _ => {},
        }
    }
}

/// The rules of `f32` equality, inequality, selection, absolute value and logarithms and
/// of an exclusive or hold in a longer tape.
proof fn lemma_op_rules_grow(instr: Instr, values: Seq<Value>, instrs: Seq<Instr>, instrs2: Seq<Instr>, n: int, r: Value)
    requires
        instr is F32Eq || instr is F32Ne || instr is Xor || instr is F32Sel || instr is F32Abs || instr is F32Ln
            || instr is F32Lg || instr is F32Powf,
        rule_of(instr, values, instrs, n, r),
        instrs.len() <= instrs2.len(),
        forall|i: int| 0 <= i < instrs.len() ==> #[trigger] instrs2[i] == instrs[i],
    ensures
        rule_of(instr, values, instrs2, n, r),
{
    reveal(rule_of);
    assert forall|v: ValueId| #[trigger] op_at(instrs, n, v) is Some implies op_at(instrs2, n, v) == op_at(instrs, n, v) by {
        assert(instrs2[v.0 - n] == instrs[v.0 - n]);
    }
    assert forall|v: ValueId, i: Instr| #[trigger] made_by(instrs, n, v, i) implies made_by(instrs2, n, v, i) by {
        assert(instrs2[v.0 - n] == instrs[v.0 - n]);
    }
    if let Instr::F32Powf(a, b) = instr {
        if let (Value::F32(x), Value::F32(y), Value::F32(z)) = (values[a.0 as int], values[b.0 as int], r) {
            if let (Some(Instr::F32Exp(el)), Some(Instr::F32Exp(eh))) = (op_at(instrs, n, z.lo), op_at(instrs, n, z.hi)) {
                let e = Value::F32(F32Range { lo: el, hi: eh });
                let (l, s) = choose|l: F32Range, s: int| #[trigger] mul_at(instrs, n, l, y, e, s) && ln_range(instrs, n, x, l);
                assert(instrs2.subrange(s, s + 10) =~= instrs.subrange(s, s + 10));
                assert(mul_at(instrs2, n, l, y, e, s));
                assert(ln_range(instrs2, n, x, l));
            }
        }
    }
}

/// The rules that name a block of instructions (quotient, integer power) hold in a
/// longer tape.
proof fn lemma_block_rules_grow(instr: Instr, values: Seq<Value>, instrs: Seq<Instr>, instrs2: Seq<Instr>, n: int, r: Value)
    requires
        instr is F32Div || instr is F32Powi,
        rule_of(instr, values, instrs, n, r),
        instrs.len() <= instrs2.len(),
        forall|i: int| 0 <= i < instrs.len() ==> #[trigger] instrs2[i] == instrs[i],
    ensures
        rule_of(instr, values, instrs2, n, r),
{
    reveal(rule_of);
    match instr {
        Instr::F32Div(a, b) => {
            if let (Value::F32(x), Value::F32(y)) = (values[a.0 as int], values[b.0 as int]) {
                let s = choose|s: int| #[trigger] div_at(instrs, n, x, y, r, s);
                assert(instrs2.subrange(s, s + 21) =~= instrs.subrange(s, s + 21));
                assert(instrs2.subrange(s + 21, s + 31) =~= instrs.subrange(s + 21, s + 31));
                assert(div_at(instrs2, n, x, y, r, s));
            }
        },
        Instr::F32Powi(a, b) => {
            if let (Value::F32(x), Value::I32(p)) = (values[a.0 as int], values[b.0 as int]) {
                let s = choose|s: int| #[trigger] powi_at(instrs, n, x, p, r, s);
                assert(instrs2.subrange(s, s + 28) =~= instrs.subrange(s, s + 28));
                assert(powi_at(instrs2, n, x, p, r, s));
            }
        },
        _ => {},
    }
}

/// The rules of the trigonometric functions hold in a longer tape.
proof fn lemma_trig_grow(instr: Instr, values: Seq<Value>, instrs: Seq<Instr>, instrs2: Seq<Instr>, n: int, r: Value)
    requires
        trig_rule(instr, values, instrs, n, r),
        instrs.len() <= instrs2.len(),
        forall|i: int| 0 <= i < instrs.len() ==> #[trigger] instrs2[i] == instrs[i],
    ensures
        trig_rule(instr, values, instrs2, n, r),
{
    if let Value::F32(x) = values[trig_operand(instr).0 as int] {
        if instr is F32Sin || instr is F32Cos {
            let s = choose|s: int| #[trigger] wave_at(instrs, n, instr, x, r, s);
            assert(instrs2.subrange(s, s + 30) =~= instrs.subrange(s, s + 30));
            assert(wave_at(instrs2, n, instr, x, r, s));
        } else {
            let s = choose|s: int| #[trigger] pole_at(instrs, n, instr, x, r, s);
            assert(instrs2.subrange(s, s + 19) =~= instrs.subrange(s, s + 19));
            assert(pole_at(instrs2, n, instr, x, r, s));
        }
    }
}

/// The equality of two ranges holds in a longer tape.
proof fn lemma_eq_range_grow(instrs: Seq<Instr>, instrs2: Seq<Instr>, n: int, x: F32Range, y: F32Range, e: BoolRange)
    requires
        eq_range(instrs, n, x, y, e),
        instrs.len() <= instrs2.len(),
        forall|i: int| 0 <= i < instrs.len() ==> #[trigger] instrs2[i] == instrs[i],
    ensures
        eq_range(instrs2, n, x, y, e),
{
    assert(instrs2[e.all.0 - n] == instrs[e.all.0 - n]);
    assert(instrs2[e.any.0 - n] == instrs[e.any.0 - n]);
    assert forall|v: ValueId, i: Instr| #[trigger] made_by(instrs, n, v, i) implies made_by(instrs2, n, v, i) by {
        assert(instrs2[v.0 - n] == instrs[v.0 - n]);
    }
}

/// The instruction that `b1` appends to `b0` makes the value `v`.
proof fn lemma_pushed_made(b0: TapeBuilder, b1: TapeBuilder, v: ValueId, instr: Instr)
    requires
        b0.wf(),
        b1.spec_num_args() == b0.spec_num_args(),
        b1.spec_instrs() == b0.spec_instrs().push(instr),
        v.0 == b0.spec_values().len(),
    ensures
        made_by(b1.spec_instrs(), b1.spec_num_args() as int, v, instr),
{
}

/// The instruction at position `k` after the instructions of `b0` makes the value `v`.
proof fn lemma_made_at(b0: TapeBuilder, instrs: Seq<Instr>, k: int, v: ValueId, instr: Instr)
    requires
        b0.wf(),
        0 <= k,
        b0.spec_instrs().len() + k < instrs.len(),
        instrs[b0.spec_instrs().len() + k] == instr,
        v.0 == b0.spec_values().len() + k,
    ensures
        made_by(instrs, b0.spec_num_args() as int, v, instr),
{
}

/// The product of two ranges takes ten instructions.
proof fn lemma_mul_block_len(x: F32Range, y: F32Range, base: int)
    ensures
        mul_block(x, y, base).len() == 10,
{
    reveal_with_fuel(fold_chain, 4);
    assert(fold_chain(mul_products(base), base + 4, 4, true).len() == 3);
    assert(fold_chain(mul_products(base), base + 7, 4, false).len() == 3);
}

/// The instructions that `b1` and then `b2` append make the values `v1` and `v2`.
proof fn lemma_two_made(b0: TapeBuilder, b1: TapeBuilder, b2: TapeBuilder, v1: ValueId, i1: Instr, v2: ValueId, i2: Instr)
    requires
        b0.wf(),
        b1.wf(),
        b1.spec_num_args() == b0.spec_num_args(),
        b2.spec_num_args() == b0.spec_num_args(),
        b1.spec_instrs() == b0.spec_instrs().push(i1),
        v1.0 == b0.spec_values().len(),
        b2.spec_instrs() == b1.spec_instrs().push(i2),
        v2.0 == b1.spec_values().len(),
    ensures
        made_by(b2.spec_instrs(), b2.spec_num_args() as int, v1, i1),
        made_by(b2.spec_instrs(), b2.spec_num_args() as int, v2, i2),
{
    lemma_pushed_made(b0, b1, v1, i1);
    lemma_pushed_made(b1, b2, v2, i2);
    lemma_made_by_grow(b1.spec_instrs(), b2.spec_instrs(), b0.spec_num_args() as int, v1, i1);
}

/// `id` is a value of the builder of type `t`.
pub open spec fn typed(b: TapeBuilder, id: ValueId, t: Type) -> bool {
    &&& (id.0 as int) < b.spec_values().len()
    &&& b.spec_values()[id.0 as int] == t
}

pub open spec fn range_ok(b: TapeBuilder, r: F32Range) -> bool {
    typed(b, r.lo, Type::F32) && typed(b, r.hi, Type::F32)
}

pub open spec fn brange_ok(b: TapeBuilder, r: BoolRange) -> bool {
    typed(b, r.all, Type::Bool) && typed(b, r.any, Type::Bool)
}

/// `v` translates a value of type `t`.
pub open spec fn value_ok(b: TapeBuilder, v: Value, t: Type) -> bool {
    match v {
        Value::I32(id) => t == Type::I32 && typed(b, id, Type::I32),
        Value::Bool(r) => t == Type::Bool && brange_ok(b, r),
        Value::F32(r) => t == Type::F32 && range_ok(b, r),
    }
}

/// The builder can take `n` more instructions.
pub open spec fn room(b: TapeBuilder, n: int) -> bool {
    &&& b.wf()
    &&& all_typed(b)
    &&& b.spec_values().len() + n < u16::MAX
}

/// The boolean value `id` of `tape` is known for all arguments in their ranges: it does
/// not depend on an `f32` comparison.
pub open spec fn bool_definite(tape: Tape, id: int) -> bool
    decreases id,
{
    let n = tape.spec_args().len() as int;
    if id < n || id >= n + tape.spec_instrs().len() {
        false
    } else {
        match tape.spec_instrs()[id - n] {
            Instr::BoolConst(_) => true,
            Instr::I32Eq(_, _) | Instr::I32Ne(_, _) | Instr::I32Lt(_, _) | Instr::I32Le(_, _) | Instr::I32Gt(_, _)
            | Instr::I32Ge(_, _) => true,
            Instr::Not(a) => (a.0 as int) < id && bool_definite(tape, a.0 as int),
            Instr::And(a, c) | Instr::Or(a, c) | Instr::Xor(a, c) => (a.0 as int) < id && (c.0 as int) < id
                && bool_definite(tape, a.0 as int) && bool_definite(tape, c.0 as int),
            Instr::CopyBool(a) => (a.0 as int) < id && bool_definite(tape, a.0 as int),
            _ => false,
        }
    }
}

/// Whether a boolean is known depends only on the instructions up to it.
pub(crate) proof fn lemma_bool_definite_prefix(a: Tape, b: Tape, id: int)
    requires
        a.spec_args() == b.spec_args(),
        id < a.spec_args().len() + a.spec_instrs().len(),
        id < a.spec_args().len() + b.spec_instrs().len(),
        forall|k: int| 0 <= k <= id - a.spec_args().len() ==> a.spec_instrs()[k] == b.spec_instrs()[k],
    ensures
        bool_definite(a, id) == bool_definite(b, id),
    decreases id,
{
    let n = a.spec_args().len() as int;
    if id >= n {
        match a.spec_instrs()[id - n] {
            Instr::Not(x) | Instr::CopyBool(x) => {
                if (x.0 as int) < id {
                    lemma_bool_definite_prefix(a, b, x.0 as int);
                }
            },
            Instr::And(x, y) | Instr::Or(x, y) | Instr::Xor(x, y) => {
                if (x.0 as int) < id && (y.0 as int) < id {
                    lemma_bool_definite_prefix(a, b, x.0 as int);
                    lemma_bool_definite_prefix(a, b, y.0 as int);
                }
            },
            _ => {},
        }
    }
}

pub(crate) fn c_f32(b: &mut TapeBuilder, bits: u32) -> (r: ValueId)
    requires
        room(*old(b), 1),
    ensures
        grows(*old(b), *final(b)),
        final(b).spec_values().len() == old(b).spec_values().len() + 1,
        final(b).spec_instrs() == old(b).spec_instrs().push(Instr::F32Const(bits)),
        r.0 == old(b).spec_values().len(),
        typed(*final(b), r, Type::F32),
{
    emit(b, Instr::F32Const(bits))
}

pub(crate) fn c_i32(b: &mut TapeBuilder, value: i32) -> (r: ValueId)
    requires
        room(*old(b), 1),
    ensures
        grows(*old(b), *final(b)),
        final(b).spec_values().len() == old(b).spec_values().len() + 1,
        final(b).spec_instrs() == old(b).spec_instrs().push(Instr::I32Const(value)),
        r.0 == old(b).spec_values().len(),
        typed(*final(b), r, Type::I32),
{
    emit(b, Instr::I32Const(value))
}

/// Appends `instr`, an instruction over `f32`s, which reads earlier values.
pub(crate) fn f32_instr(b: &mut TapeBuilder, instr: Instr) -> (r: ValueId)
    requires
        room(*old(b), 1),
        instr.spec_result_type() == Type::F32,
        forall|k: int|
            0 <= k < instr.operands().len() ==> typed(
                *old(b),
                (#[trigger] instr.operands()[k]).0,
                instr.operands()[k].1,
            ),
    ensures
        grows(*old(b), *final(b)),
        final(b).spec_values().len() == old(b).spec_values().len() + 1,
        final(b).spec_instrs() == old(b).spec_instrs().push(instr),
        r.0 == old(b).spec_values().len(),
        typed(*final(b), r, Type::F32),
{
    emit(b, instr)
}

/// Appends `instr`, an instruction that yields a boolean, which reads earlier values.
pub(crate) fn bool_instr(b: &mut TapeBuilder, instr: Instr) -> (r: ValueId)
    requires
        room(*old(b), 1),
        instr.spec_result_type() == Type::Bool,
        forall|k: int|
            0 <= k < instr.operands().len() ==> typed(
                *old(b),
                (#[trigger] instr.operands()[k]).0,
                instr.operands()[k].1,
            ),
    ensures
        grows(*old(b), *final(b)),
        final(b).spec_values().len() == old(b).spec_values().len() + 1,
        final(b).spec_instrs() == old(b).spec_instrs().push(instr),
        r.0 == old(b).spec_values().len(),
        typed(*final(b), r, Type::Bool),
{
    emit(b, instr)
}

/// Appends `instr`, an instruction that yields an `i32`, which reads earlier values.
pub(crate) fn i32_instr(b: &mut TapeBuilder, instr: Instr) -> (r: ValueId)
    requires
        room(*old(b), 1),
        instr.spec_result_type() == Type::I32,
        forall|k: int|
            0 <= k < instr.operands().len() ==> typed(
                *old(b),
                (#[trigger] instr.operands()[k]).0,
                instr.operands()[k].1,
            ),
    ensures
        grows(*old(b), *final(b)),
        final(b).spec_values().len() == old(b).spec_values().len() + 1,
        final(b).spec_instrs() == old(b).spec_instrs().push(instr),
        r.0 == old(b).spec_values().len(),
        typed(*final(b), r, Type::I32),
{
    emit(b, instr)
}

fn f32_add(b: &mut TapeBuilder, x: ValueId, y: ValueId) -> (r: ValueId)
    requires
        room(*old(b), 1),
        typed(*old(b), x, Type::F32),
        typed(*old(b), y, Type::F32),
    ensures
        grows(*old(b), *final(b)),
        final(b).spec_values().len() == old(b).spec_values().len() + 1,
        typed(*final(b), r, Type::F32),
        final(b).spec_instrs() == old(b).spec_instrs().push(Instr::F32Add(x, y)),
        r.0 == old(b).spec_values().len(),
{
    f32_instr(b, Instr::F32Add(x, y))
}

fn f32_sub(b: &mut TapeBuilder, x: ValueId, y: ValueId) -> (r: ValueId)
    requires
        room(*old(b), 1),
        typed(*old(b), x, Type::F32),
        typed(*old(b), y, Type::F32),
    ensures
        grows(*old(b), *final(b)),
        final(b).spec_values().len() == old(b).spec_values().len() + 1,
        typed(*final(b), r, Type::F32),
        final(b).spec_instrs() == old(b).spec_instrs().push(Instr::F32Sub(x, y)),
        r.0 == old(b).spec_values().len(),
{
    f32_instr(b, Instr::F32Sub(x, y))
}

fn f32_mul(b: &mut TapeBuilder, x: ValueId, y: ValueId) -> (r: ValueId)
    requires
        room(*old(b), 1),
        typed(*old(b), x, Type::F32),
        typed(*old(b), y, Type::F32),
    ensures
        grows(*old(b), *final(b)),
        final(b).spec_values().len() == old(b).spec_values().len() + 1,
        typed(*final(b), r, Type::F32),
        final(b).spec_instrs() == old(b).spec_instrs().push(Instr::F32Mul(x, y)),
        r.0 == old(b).spec_values().len(),
{
    f32_instr(b, Instr::F32Mul(x, y))
}

fn min(b: &mut TapeBuilder, x: ValueId, y: ValueId) -> (r: ValueId)
    requires
        room(*old(b), 1),
        typed(*old(b), x, Type::F32),
        typed(*old(b), y, Type::F32),
    ensures
        grows(*old(b), *final(b)),
        final(b).spec_values().len() == old(b).spec_values().len() + 1,
        typed(*final(b), r, Type::F32),
        final(b).spec_instrs() == old(b).spec_instrs().push(Instr::F32Min(x, y)),
        r.0 == old(b).spec_values().len(),
{
    f32_instr(b, Instr::F32Min(x, y))
}

fn max(b: &mut TapeBuilder, x: ValueId, y: ValueId) -> (r: ValueId)
    requires
        room(*old(b), 1),
        typed(*old(b), x, Type::F32),
        typed(*old(b), y, Type::F32),
    ensures
        grows(*old(b), *final(b)),
        final(b).spec_values().len() == old(b).spec_values().len() + 1,
        typed(*final(b), r, Type::F32),
        final(b).spec_instrs() == old(b).spec_instrs().push(Instr::F32Max(x, y)),
        r.0 == old(b).spec_values().len(),
{
    f32_instr(b, Instr::F32Max(x, y))
}

fn select(b: &mut TapeBuilder, cond: ValueId, if_true: ValueId, if_false: ValueId) -> (r: ValueId)
    requires
        room(*old(b), 1),
        typed(*old(b), cond, Type::Bool),
        typed(*old(b), if_true, Type::F32),
        typed(*old(b), if_false, Type::F32),
    ensures
        grows(*old(b), *final(b)),
        final(b).spec_values().len() == old(b).spec_values().len() + 1,
        typed(*final(b), r, Type::F32),
        final(b).spec_instrs() == old(b).spec_instrs().push(Instr::F32Sel(cond, if_true, if_false)),
        r.0 == old(b).spec_values().len(),
{
    f32_instr(b, Instr::F32Sel(cond, if_true, if_false))
}

/// The range between `a` and `c`, whichever is smaller.
fn f32_hull(b: &mut TapeBuilder, a: ValueId, c: ValueId) -> (r: F32Range)
    requires
        room(*old(b), 2),
        typed(*old(b), a, Type::F32),
        typed(*old(b), c, Type::F32),
    ensures
        grows(*old(b), *final(b)),
        final(b).spec_values().len() == old(b).spec_values().len() + 2,
        range_ok(*final(b), r),
        final(b).spec_instrs() == old(b).spec_instrs().push(Instr::F32Min(a, c)).push(Instr::F32Max(a, c)),
        r.lo.0 == old(b).spec_values().len(),
        r.hi.0 == old(b).spec_values().len() + 1,
{
    let lo = min(b, a, c);
    let hi = max(b, a, c);
    F32Range { lo, hi }
}

/// The least of `values`, folded from the left.
/// The value that folding `vs` with instructions from id `base` on holds after its first
/// `i` elements: the first element, then the value of the last instruction.
pub open spec fn fold_acc(vs: Seq<ValueId>, base: int, i: int) -> ValueId {
    if i <= 1 {
        vs[0]
    } else {
        ValueId((base + i - 2) as u16)
    }
}

/// The instructions that fold the first `i` elements of `vs` with `min` (or, for `!is_min`,
/// `max`), their values numbered from `base` on.
pub open spec fn fold_chain(vs: Seq<ValueId>, base: int, i: int, is_min: bool) -> Seq<Instr>
    decreases i,
{
    if i <= 1 {
        seq![]
    } else if is_min {
        fold_chain(vs, base, i - 1, is_min).push(Instr::F32Min(fold_acc(vs, base, i - 1), vs[i - 1]))
    } else {
        fold_chain(vs, base, i - 1, is_min).push(Instr::F32Max(fold_acc(vs, base, i - 1), vs[i - 1]))
    }
}

fn min_of(b: &mut TapeBuilder, values: &[ValueId]) -> (r: ValueId)
    requires
        values@.len() >= 1,
        room(*old(b), values@.len() - 1),
        forall|i: int| 0 <= i < values@.len() ==> typed(*old(b), #[trigger] values@[i], Type::F32),
    ensures
        grows(*old(b), *final(b)),
        final(b).spec_values().len() == old(b).spec_values().len() + values@.len() - 1,
        typed(*final(b), r, Type::F32),
        final(b).spec_instrs() == old(b).spec_instrs() + fold_chain(values@, old(b).spec_values().len() as int, values@.len() as int, true),
        r == fold_acc(values@, old(b).spec_values().len() as int, values@.len() as int),
{
    let ghost start = *b;
    let ghost base = start.spec_values().len() as int;
    let mut acc = values[0];
    let mut i: usize = 1;
    proof {
        assert(b.spec_instrs() =~= start.spec_instrs() + fold_chain(values@, base, 1, true));
    }
    while i < values.len()
        invariant
            1 <= i <= values@.len(),
            grows(start, *b),
            base == start.spec_values().len(),
            b.spec_values().len() == start.spec_values().len() + i - 1,
            start.spec_values().len() + values@.len() - 1 < u16::MAX,
            typed(*b, acc, Type::F32),
            forall|k: int| 0 <= k < values@.len() ==> typed(start, #[trigger] values@[k], Type::F32),
            b.spec_instrs() == start.spec_instrs() + fold_chain(values@, base, i as int, true),
            acc == fold_acc(values@, base, i as int),
        decreases values@.len() - i,
    {
        acc = min(b, acc, values[i]);
        i = i + 1;
        proof {
            assert(b.spec_instrs() =~= start.spec_instrs() + fold_chain(values@, base, i as int, true));
        }
    }
    acc
}

/// The greatest of `values`, folded from the left.
fn max_of(b: &mut TapeBuilder, values: &[ValueId]) -> (r: ValueId)
    requires
        values@.len() >= 1,
        room(*old(b), values@.len() - 1),
        forall|i: int| 0 <= i < values@.len() ==> typed(*old(b), #[trigger] values@[i], Type::F32),
    ensures
        grows(*old(b), *final(b)),
        final(b).spec_values().len() == old(b).spec_values().len() + values@.len() - 1,
        typed(*final(b), r, Type::F32),
        final(b).spec_instrs() == old(b).spec_instrs() + fold_chain(values@, old(b).spec_values().len() as int, values@.len() as int, false),
        r == fold_acc(values@, old(b).spec_values().len() as int, values@.len() as int),
{
    let ghost start = *b;
    let ghost base = start.spec_values().len() as int;
    let mut acc = values[0];
    let mut i: usize = 1;
    proof {
        assert(b.spec_instrs() =~= start.spec_instrs() + fold_chain(values@, base, 1, false));
    }
    while i < values.len()
        invariant
            1 <= i <= values@.len(),
            grows(start, *b),
            base == start.spec_values().len(),
            b.spec_values().len() == start.spec_values().len() + i - 1,
            start.spec_values().len() + values@.len() - 1 < u16::MAX,
            typed(*b, acc, Type::F32),
            forall|k: int| 0 <= k < values@.len() ==> typed(start, #[trigger] values@[k], Type::F32),
            b.spec_instrs() == start.spec_instrs() + fold_chain(values@, base, i as int, false),
            acc == fold_acc(values@, base, i as int),
        decreases values@.len() - i,
    {
        acc = max(b, acc, values[i]);
        i = i + 1;
        proof {
            assert(b.spec_instrs() =~= start.spec_instrs() + fold_chain(values@, base, i as int, false));
        }
    }
    acc
}

/// The negation of a boolean range; known when the operand is.
fn bool_not(b: &mut TapeBuilder, x: BoolRange) -> (r: BoolRange)
    requires
        room(*old(b), 2),
        brange_ok(*old(b), x),
    ensures
        grows(*old(b), *final(b)),
        final(b).spec_values().len() <= old(b).spec_values().len() + 2,
        brange_ok(*final(b), r),
        x.all == x.any ==> r.all == r.any,
        r.all.0 == old(b).spec_values().len(),
        x.all == x.any ==> final(b).spec_instrs() == old(b).spec_instrs().push(Instr::Not(x.any)),
        x.all != x.any ==> final(b).spec_instrs() == old(b).spec_instrs().push(Instr::Not(x.any)).push(
            Instr::Not(x.all),
        ) && r.any.0 == old(b).spec_values().len() + 1,
{
    let all = bool_instr(b, Instr::Not(x.any));
    let any = match x.definite() {
        Some(_) => all,
        None => bool_instr(b, Instr::Not(x.all)),
    };
    BoolRange { all, any }
}

fn f32_lt(b: &mut TapeBuilder, x: F32Range, y: F32Range) -> (r: BoolRange)
    requires
        room(*old(b), 2),
        range_ok(*old(b), x),
        range_ok(*old(b), y),
    ensures
        grows(*old(b), *final(b)),
        final(b).spec_values().len() == old(b).spec_values().len() + 2,
        brange_ok(*final(b), r),
        final(b).spec_instrs() == old(b).spec_instrs().push(Instr::F32Lt(x.hi, y.lo)).push(Instr::F32Lt(x.lo, y.hi)),
        r.all.0 == old(b).spec_values().len(),
        r.any.0 == old(b).spec_values().len() + 1,
{
    let all = bool_instr(b, Instr::F32Lt(x.hi, y.lo));
    let any = bool_instr(b, Instr::F32Lt(x.lo, y.hi));
    BoolRange { all, any }
}

fn f32_le(b: &mut TapeBuilder, x: F32Range, y: F32Range) -> (r: BoolRange)
    requires
        room(*old(b), 2),
        range_ok(*old(b), x),
        range_ok(*old(b), y),
    ensures
        grows(*old(b), *final(b)),
        final(b).spec_values().len() == old(b).spec_values().len() + 2,
        brange_ok(*final(b), r),
        final(b).spec_instrs() == old(b).spec_instrs().push(Instr::F32Le(x.hi, y.lo)).push(Instr::F32Le(x.lo, y.hi)),
        r.all.0 == old(b).spec_values().len(),
        r.any.0 == old(b).spec_values().len() + 1,
{
    let all = bool_instr(b, Instr::F32Le(x.hi, y.lo));
    let any = bool_instr(b, Instr::F32Le(x.lo, y.hi));
    BoolRange { all, any }
}

fn f32_eq(b: &mut TapeBuilder, x: F32Range, y: F32Range) -> (r: BoolRange)
    requires
        room(*old(b), 6),
        range_ok(*old(b), x),
        range_ok(*old(b), y),
    ensures
        grows(*old(b), *final(b)),
        final(b).spec_values().len() == old(b).spec_values().len() + 6,
        brange_ok(*final(b), r),
        eq_range(final(b).spec_instrs(), final(b).spec_num_args() as int, x, y, r),
        final(b).spec_instrs().len() == old(b).spec_instrs().len() + 6,
        r.all.0 == old(b).spec_values().len() + 4,
        r.any.0 == old(b).spec_values().len() + 5,
{
    let xy = f32_le(b, x, y);
    let yx = f32_le(b, y, x);
    let all = bool_instr(b, Instr::And(xy.all, yx.all));
    let any = bool_instr(b, Instr::And(xy.any, yx.any));
    BoolRange { all, any }
}

/// Whether the range holds zero: its bounds have different signs.
fn contains_zero(b: &mut TapeBuilder, x: F32Range) -> (r: ValueId)
    requires
        room(*old(b), 3),
        range_ok(*old(b), x),
    ensures
        grows(*old(b), *final(b)),
        final(b).spec_values().len() == old(b).spec_values().len() + 3,
        typed(*final(b), r, Type::Bool),
        final(b).spec_instrs() == old(b).spec_instrs().push(Instr::F32Sign(x.lo)).push(Instr::F32Sign(x.hi)).push(
            Instr::F32Lt(ValueId(old(b).spec_values().len() as u16), ValueId((old(b).spec_values().len() + 1) as u16)),
        ),
        r.0 == old(b).spec_values().len() + 2,
{
    let lo = f32_instr(b, Instr::F32Sign(x.lo));
    let hi = f32_instr(b, Instr::F32Sign(x.hi));
    bool_instr(b, Instr::F32Lt(lo, hi))
}

fn select_range(b: &mut TapeBuilder, cond: ValueId, if_true: F32Range, if_false: F32Range) -> (r: F32Range)
    requires
        room(*old(b), 2),
        typed(*old(b), cond, Type::Bool),
        range_ok(*old(b), if_true),
        range_ok(*old(b), if_false),
    ensures
        grows(*old(b), *final(b)),
        final(b).spec_values().len() == old(b).spec_values().len() + 2,
        range_ok(*final(b), r),
        final(b).spec_instrs() == old(b).spec_instrs().push(Instr::F32Sel(cond, if_true.lo, if_false.lo)).push(
            Instr::F32Sel(cond, if_true.hi, if_false.hi),
        ),
        r.lo.0 == old(b).spec_values().len(),
        r.hi.0 == old(b).spec_values().len() + 1,
{
    let lo = select(b, cond, if_true.lo, if_false.lo);
    let hi = select(b, cond, if_true.hi, if_false.hi);
    F32Range { lo, hi }
}

fn include_zero_if(b: &mut TapeBuilder, x: F32Range, cond: ValueId) -> (r: F32Range)
    requires
        room(*old(b), 5),
        range_ok(*old(b), x),
        typed(*old(b), cond, Type::Bool),
    ensures
        grows(*old(b), *final(b)),
        final(b).spec_values().len() == old(b).spec_values().len() + 5,
        range_ok(*final(b), r),
        final(b).spec_instrs() == old(b).spec_instrs().push(Instr::F32Const(ZERO_BITS)).push(
            Instr::F32Min(x.lo, ValueId(old(b).spec_values().len() as u16)),
        ).push(Instr::F32Max(x.hi, ValueId(old(b).spec_values().len() as u16))).push(
            Instr::F32Sel(cond, ValueId((old(b).spec_values().len() + 1) as u16), x.lo),
        ).push(Instr::F32Sel(cond, ValueId((old(b).spec_values().len() + 2) as u16), x.hi)),
        r.lo.0 == old(b).spec_values().len() + 3,
        r.hi.0 == old(b).spec_values().len() + 4,
{
    let zero = c_f32(b, ZERO_BITS);
    let lo = min(b, x.lo, zero);
    let hi = max(b, x.hi, zero);
    select_range(b, cond, F32Range { lo, hi }, x)
}

/// The whole line of `f32`s where `cond` holds, else `x`.
fn widen_if(b: &mut TapeBuilder, x: F32Range, cond: ValueId) -> (r: F32Range)
    requires
        room(*old(b), 4),
        range_ok(*old(b), x),
        typed(*old(b), cond, Type::Bool),
    ensures
        grows(*old(b), *final(b)),
        final(b).spec_values().len() == old(b).spec_values().len() + 4,
        range_ok(*final(b), r),
        final(b).spec_instrs() == old(b).spec_instrs().push(Instr::F32Const(NEG_MAX_BITS)).push(Instr::F32Const(MAX_BITS)).push(
            Instr::F32Sel(cond, ValueId(old(b).spec_values().len() as u16), x.lo),
        ).push(Instr::F32Sel(cond, ValueId((old(b).spec_values().len() + 1) as u16), x.hi)),
        r.lo.0 == old(b).spec_values().len() + 2,
        r.hi.0 == old(b).spec_values().len() + 3,
{
    let lo = c_f32(b, NEG_MAX_BITS);
    let hi = c_f32(b, MAX_BITS);
    select_range(b, cond, F32Range { lo, hi }, x)
}

fn mul_range(b: &mut TapeBuilder, x: F32Range, y: F32Range) -> (r: F32Range)
    requires
        room(*old(b), 10),
        range_ok(*old(b), x),
        range_ok(*old(b), y),
    ensures
        grows(*old(b), *final(b)),
        final(b).spec_values().len() == old(b).spec_values().len() + 10,
        range_ok(*final(b), r),
        final(b).spec_instrs() == old(b).spec_instrs() + mul_block(x, y, old(b).spec_values().len() as int),
        r == mul_result(old(b).spec_values().len() as int),
{
    let ghost base = b.spec_values().len() as int;
    let ghost i0 = b.spec_instrs();
    let p0 = f32_mul(b, x.lo, y.lo);
    let p1 = f32_mul(b, x.lo, y.hi);
    let p2 = f32_mul(b, x.hi, y.lo);
    let p3 = f32_mul(b, x.hi, y.hi);
    let products = [p0, p1, p2, p3];
    proof {
        assert(products@ =~= mul_products(base));
    }
    let lo = min_of(b, products.as_slice());
    let hi = max_of(b, products.as_slice());
    proof {
        assert(b.spec_instrs() =~= i0 + mul_block(x, y, base));
    }
    F32Range { lo, hi }
}

/// The ids of the four products of a multiplication of ranges whose instructions start
/// at value `base`.
pub open spec fn mul_products(base: int) -> Seq<ValueId> {
    seq![ValueId(base as u16), ValueId((base + 1) as u16), ValueId((base + 2) as u16), ValueId((base + 3) as u16)]
}

/// The instructions of the product of the ranges `x` and `y`, from value `base` on: the
/// four products of their bounds, then the least and the greatest of them.
pub open spec fn mul_block(x: F32Range, y: F32Range, base: int) -> Seq<Instr> {
    seq![
        Instr::F32Mul(x.lo, y.lo),
        Instr::F32Mul(x.lo, y.hi),
        Instr::F32Mul(x.hi, y.lo),
        Instr::F32Mul(x.hi, y.hi),
    ] + fold_chain(mul_products(base), base + 4, 4, true) + fold_chain(mul_products(base), base + 7, 4, false)
}

/// The range of the product whose instructions start at value `base`.
pub open spec fn mul_result(base: int) -> F32Range {
    F32Range { lo: fold_acc(mul_products(base), base + 4, 4), hi: fold_acc(mul_products(base), base + 7, 4) }
}

/// `v` with its magnitude raised to at least `least`.
fn ensure_magnitude(b: &mut TapeBuilder, v: ValueId, least: ValueId) -> (r: ValueId)
    requires
        room(*old(b), 4),
        typed(*old(b), v, Type::F32),
        typed(*old(b), least, Type::F32),
    ensures
        grows(*old(b), *final(b)),
        final(b).spec_values().len() == old(b).spec_values().len() + 4,
        typed(*final(b), r, Type::F32),
        final(b).spec_instrs() == old(b).spec_instrs().push(Instr::F32Sign(v)).push(Instr::F32Abs(v)).push(
            Instr::F32Max(ValueId((old(b).spec_values().len() + 1) as u16), least),
        ).push(Instr::F32Mul(ValueId(old(b).spec_values().len() as u16), ValueId((old(b).spec_values().len() + 2) as u16))),
        r.0 == old(b).spec_values().len() + 3,
{
    let sign = f32_instr(b, Instr::F32Sign(v));
    let magnitude = f32_instr(b, Instr::F32Abs(v));
    let clamped = max(b, magnitude, least);
    f32_mul(b, sign, clamped)
}

fn ensure_nonzero(b: &mut TapeBuilder, x: F32Range) -> (r: F32Range)
    requires
        room(*old(b), 9),
        range_ok(*old(b), x),
    ensures
        grows(*old(b), *final(b)),
        final(b).spec_values().len() == old(b).spec_values().len() + 9,
        range_ok(*final(b), r),
        final(b).spec_instrs() == old(b).spec_instrs() + nonzero_block(x, old(b).spec_values().len() as int),
        r.lo.0 == old(b).spec_values().len() + 4,
        r.hi.0 == old(b).spec_values().len() + 8,
{
    let ghost l = b.spec_values().len() as int;
    let ghost i0 = b.spec_instrs();
    let tiny = c_f32(b, MIN_POSITIVE_BITS);
    let lo = ensure_magnitude(b, x.lo, tiny);
    let hi = ensure_magnitude(b, x.hi, tiny);
    proof {
        assert(b.spec_instrs() =~= i0 + nonzero_block(x, l));
    }
    F32Range { lo, hi }
}

fn recip(b: &mut TapeBuilder, x: F32Range) -> (r: F32Range)
    requires
        room(*old(b), 21),
        range_ok(*old(b), x),
    ensures
        grows(*old(b), *final(b)),
        final(b).spec_values().len() == old(b).spec_values().len() + 21,
        range_ok(*final(b), r),
        final(b).spec_instrs() == old(b).spec_instrs() + recip_block(x, old(b).spec_values().len() as int),
        r == recip_result(old(b).spec_values().len() as int),
{
    let ghost l = b.spec_values().len() as int;
    let ghost i0 = b.spec_instrs();
    let one = c_f32(b, ONE_BITS);
    let ghost i1 = b.spec_instrs();
    let nonzero = ensure_nonzero(b, x);
    let a = f32_instr(b, Instr::F32Div(one, nonzero.lo));
    let c = f32_instr(b, Instr::F32Div(one, nonzero.hi));
    let range = f32_hull(b, a, c);
    let pole = contains_zero(b, x);
    let r = widen_if(b, range, pole);
    proof {
        assert(i1.push(Instr::F32Const(MIN_POSITIVE_BITS)) + nonzero_block(x, l + 1).drop_first() =~= i1 + nonzero_block(x, l + 1));
        assert(b.spec_instrs() =~= i0 + recip_block(x, l));
    }
    r
}

fn ensure_positive_safe(b: &mut TapeBuilder, x: F32Range) -> (r: F32Range)
    requires
        room(*old(b), 3),
        range_ok(*old(b), x),
    ensures
        grows(*old(b), *final(b)),
        final(b).spec_values().len() == old(b).spec_values().len() + 3,
        range_ok(*final(b), r),
        final(b).spec_instrs() == old(b).spec_instrs().push(Instr::F32Const(MIN_POSITIVE_BITS)).push(
            Instr::F32Max(x.lo, ValueId(old(b).spec_values().len() as u16)),
        ).push(Instr::F32Max(x.hi, ValueId(old(b).spec_values().len() as u16))),
        r.lo.0 == old(b).spec_values().len() + 1,
        r.hi.0 == old(b).spec_values().len() + 2,
{
    let tiny = c_f32(b, MIN_POSITIVE_BITS);
    let lo = max(b, x.lo, tiny);
    let hi = max(b, x.hi, tiny);
    F32Range { lo, hi }
}

fn period_index(b: &mut TapeBuilder, v: ValueId, offset: ValueId, scale: ValueId) -> (r: ValueId)
    requires
        room(*old(b), 3),
        typed(*old(b), v, Type::F32),
        typed(*old(b), offset, Type::F32),
        typed(*old(b), scale, Type::F32),
    ensures
        grows(*old(b), *final(b)),
        final(b).spec_values().len() == old(b).spec_values().len() + 3,
        typed(*final(b), r, Type::F32),
        final(b).spec_instrs() == old(b).spec_instrs().push(Instr::F32Sub(v, offset)).push(
            Instr::F32Mul(ValueId(old(b).spec_values().len() as u16), scale),
        ).push(Instr::F32Floor(ValueId((old(b).spec_values().len() + 1) as u16))),
        r.0 == old(b).spec_values().len() + 2,
{
    let shifted = f32_sub(b, v, offset);
    let scaled = f32_mul(b, shifted, scale);
    f32_instr(b, Instr::F32Floor(scaled))
}

/// Whether the range holds a point equal to `v` modulo the period whose reciprocal is
/// `recip_period` (both as `f32` bits).
fn contains_modulo(b: &mut TapeBuilder, x: F32Range, v: u32, recip_period: u32) -> (r: ValueId)
    requires
        room(*old(b), 11),
        range_ok(*old(b), x),
    ensures
        grows(*old(b), *final(b)),
        final(b).spec_values().len() == old(b).spec_values().len() + 11,
        typed(*final(b), r, Type::Bool),
        final(b).spec_instrs() == old(b).spec_instrs() + modulo_block(x, v, recip_period, old(b).spec_values().len() as int),
        r.0 == old(b).spec_values().len() + 10,
{
    let ghost l = b.spec_values().len() as int;
    let ghost i0 = b.spec_instrs();
    let offset = c_f32(b, v);
    let scale = c_f32(b, recip_period);
    let first = period_index(b, x.lo, offset, scale);
    let last = period_index(b, x.hi, offset, scale);
    let count = f32_sub(b, last, first);
    let half = c_f32(b, HALF_BITS);
    let r = bool_instr(b, Instr::F32Gt(count, half));
    proof {
        assert(b.spec_instrs() =~= i0 + modulo_block(x, v, recip_period, l));
    }
    r
}

/// The image `im` of `x` under a wave that reaches 1 at `peak` and -1 at `trough` and
/// repeats with the period whose reciprocal is `recip_period`, widened to 1 or -1 where
/// `x` holds such a point.
fn normalized_periodic_wave(
    b: &mut TapeBuilder,
    x: F32Range,
    im: F32Range,
    peak: u32,
    trough: u32,
    recip_period: u32,
) -> (r: F32Range)
    requires
        room(*old(b), 26),
        range_ok(*old(b), x),
        range_ok(*old(b), im),
    ensures
        grows(*old(b), *final(b)),
        final(b).spec_values().len() == old(b).spec_values().len() + 26,
        range_ok(*final(b), r),
        final(b).spec_instrs() == old(b).spec_instrs() + wave_tail(x, im, peak, trough, recip_period, old(b).spec_values().len() as int),
        r.lo.0 == old(b).spec_values().len() + 25,
        r.hi.0 == old(b).spec_values().len() + 24,
{
    let ghost l = b.spec_values().len() as int;
    let ghost i0 = b.spec_instrs();
    let has_max = contains_modulo(b, x, peak, recip_period);
    let has_min = contains_modulo(b, x, trough, recip_period);
    let one = c_f32(b, ONE_BITS);
    let neg_one = c_f32(b, NEG_ONE_BITS);
    let hi = select(b, has_max, one, im.hi);
    let lo = select(b, has_min, neg_one, im.lo);
    proof {
        assert(b.spec_instrs() =~= i0 + wave_tail(x, im, peak, trough, recip_period, l));
    }
    F32Range { lo, hi }
}

/// The image `im` of `x` under a function monotone between poles at `pole` modulo the
/// period whose reciprocal is `recip_period`, widened to every `f32` where `x` holds a
/// pole.
fn periodic_monotone(b: &mut TapeBuilder, x: F32Range, im: F32Range, pole: u32, recip_period: u32) -> (r: F32Range)
    requires
        room(*old(b), 15),
        range_ok(*old(b), x),
        range_ok(*old(b), im),
    ensures
        grows(*old(b), *final(b)),
        final(b).spec_values().len() == old(b).spec_values().len() + 15,
        range_ok(*final(b), r),
        final(b).spec_instrs() == old(b).spec_instrs() + pole_tail(x, im, pole, recip_period, old(b).spec_values().len() as int),
        r.lo.0 == old(b).spec_values().len() + 13,
        r.hi.0 == old(b).spec_values().len() + 14,
{
    let ghost l = b.spec_values().len() as int;
    let ghost i0 = b.spec_instrs();
    let has_pole = contains_modulo(b, x, pole, recip_period);
    let r = widen_if(b, im, has_pole);
    proof {
        assert(b.spec_instrs() =~= i0 + pole_tail(x, im, pole, recip_period, l));
    }
    r
}

/// The boolean operands of `instr` that an `i32` result depends on are known for all
/// arguments in their ranges: an `i32` value stays a single value.
pub open spec fn i32_definite(tape: Tape, instr: Instr) -> bool {
    match instr {
        Instr::I32FromBool(c) => bool_definite(tape, c.0 as int),
        Instr::I32Sel(c, _, _) => bool_definite(tape, c.0 as int),
        _ => true,
    }
}

/// The tape can be translated: it is well formed, its arguments and results are `f32`s,
/// every `i32` it computes is independent of `f32` comparisons, and the translated tape,
/// with twice the arguments and results and at most 32 instructions for each one, fits
/// the ids.
pub open spec fn translatable(tape: Tape) -> bool {
    let n = tape.spec_args().len();
    let m = tape.spec_results().len();
    &&& tape.wf()
    &&& tape.spec_args() == f32_args(n)
    &&& tape.spec_results() == f32_args(m)
    &&& 2 * n <= 255
    &&& 2 * m <= 255
    &&& 2 * n + 32 * tape.spec_instrs().len() + 2 * m < u16::MAX
    &&& forall|k: int| 0 <= k < tape.spec_instrs().len() ==> i32_definite(tape, #[trigger] tape.spec_instrs()[k])
}

/// Whether every value of `tape` is a boolean known for all arguments in their ranges,
/// value by value.
fn definite_values(tape: &Tape) -> (r: Vec<bool>)
    requires
        tape.wf(),
    ensures
        r@.len() == tape.spec_args().len() + tape.spec_instrs().len(),
        forall|i: int| 0 <= i < r@.len() ==> r@[i] == bool_definite(*tape, i),
{
    let n = tape.num_args();
    let instrs = tape.instrs();
    let mut out: Vec<bool> = Vec::new();
    let mut i: usize = 0;
    while i < n
        invariant
            n == tape.spec_args().len(),
            i <= n,
            out@.len() == i,
            forall|j: int| 0 <= j < i ==> out@[j] == bool_definite(*tape, j),
        decreases n - i,
    {
        out.push(false);
        i = i + 1;
    }
    let mut k: usize = 0;
    while k < instrs.len()
        invariant
            tape.wf(),
            n == tape.spec_args().len(),
            instrs@.len() == tape.spec_instrs().len(),
            forall|j: int| 0 <= j < instrs@.len() ==> (#[trigger] instrs@[j]).spec_instr() == tape.spec_instrs()[j],
            k <= instrs@.len(),
            out@.len() == n + k,
            forall|j: int| 0 <= j < n + k ==> out@[j] == bool_definite(*tape, j),
        decreases instrs@.len() - k,
    {
        let id = n + k;
        let instr = instrs[k].instr();
        let definite = match instr {
            Instr::BoolConst(_) => true,
            Instr::I32Eq(_, _) | Instr::I32Ne(_, _) | Instr::I32Lt(_, _) | Instr::I32Le(_, _) | Instr::I32Gt(_, _)
            | Instr::I32Ge(_, _) => true,
            Instr::Not(a) => a.index() < id && out[a.index()],
            Instr::And(a, c) | Instr::Or(a, c) | Instr::Xor(a, c) => a.index() < id && out[a.index()] && c.index() < id
                && out[c.index()],
            Instr::CopyBool(a) => a.index() < id && out[a.index()],
            _ => false,
        };
        proof {
            assert(instr == tape.spec_instrs()[id - n]);
            match instr {
                Instr::Not(a) | Instr::CopyBool(a) => {
                    if (a.0 as int) < id {
                        assert(out@[a.0 as int] == bool_definite(*tape, a.0 as int));
                    }
                },
                Instr::And(a, c) | Instr::Or(a, c) | Instr::Xor(a, c) => {
                    if (a.0 as int) < id {
                        assert(out@[a.0 as int] == bool_definite(*tape, a.0 as int));
                    }
                    if (c.0 as int) < id {
                        assert(out@[c.0 as int] == bool_definite(*tape, c.0 as int));
                    }
                },
                _ => {},
            }
            assert(definite == bool_definite(*tape, id as int));
        }
        out.push(definite);
        k = k + 1;
    }
    out
}

/// Whether `translate` can take `source`: see `translatable`.
pub fn is_translatable(source: &Tape) -> (r: bool)
    ensures
        r == translatable(*source),
{
    proof {
        use_type_invariant(source);
    }
    let n = source.num_args();
    let m = source.num_results();
    let args = source.arg_types();
    let results = source.result_types();
    let mut i: usize = 0;
    while i < n
        invariant
            n == args@.len(),
            args@ == source.spec_args(),
            i <= n,
            forall|j: int| 0 <= j < i ==> args@[j] == Type::F32,
        decreases n - i,
    {
        if args[i] != Type::F32 {
            proof {
                assert(source.spec_args()[i as int] != f32_args(n as nat)[i as int]);
            }
            return false;
        }
        i = i + 1;
    }
    proof {
        assert(source.spec_args() =~= f32_args(n as nat));
    }
    let mut j: usize = 0;
    while j < m
        invariant
            m == results@.len(),
            results@ == source.spec_results(),
            j <= m,
            forall|l: int| 0 <= l < j ==> results@[l] == Type::F32,
        decreases m - j,
    {
        if results[j] != Type::F32 {
            proof {
                assert(source.spec_results()[j as int] != f32_args(m as nat)[j as int]);
            }
            return false;
        }
        j = j + 1;
    }
    proof {
        assert(source.spec_results() =~= f32_args(m as nat));
    }
    proof {
        use_type_invariant(source);
    }
    let instrs = source.instrs();
    if !(2 * n <= 255 && 2 * m <= 255 && 2 * n + 32 * instrs.len() + 2 * m < 65535) {
        return false;
    }
    let definite = definite_values(source);
    let mut k: usize = 0;
    while k < instrs.len()
        invariant
            source.wf(),
            instrs@.len() == source.spec_instrs().len(),
            forall|l: int| 0 <= l < instrs@.len() ==> (#[trigger] instrs@[l]).spec_instr() == source.spec_instrs()[l],
            definite@.len() == source.spec_args().len() + source.spec_instrs().len(),
            forall|l: int| 0 <= l < definite@.len() ==> definite@[l] == bool_definite(*source, l),
            k <= instrs@.len(),
            forall|l: int| 0 <= l < k ==> i32_definite(*source, #[trigger] source.spec_instrs()[l]),
        decreases instrs@.len() - k,
    {
        let instr = instrs[k].instr();
        let cond = match instr {
            Instr::I32FromBool(c) => Some(c),
            Instr::I32Sel(c, _, _) => Some(c),
            _ => None,
        };
        match cond {
            Some(c) => {
                let ok = c.index() < definite.len() && definite[c.index()];
                if !ok {
                    proof {
                        if (c.0 as int) >= definite@.len() {
                            let nn = source.spec_args().len() as int;
                            assert(!bool_definite(*source, c.0 as int));
                        }
                        assert(!i32_definite(*source, source.spec_instrs()[k as int]));
                    }
                    return false;
                }
            },
            None => {},
        }
        k = k + 1;
    }
    true
}

/// The range of argument `i` of a source tape: arguments `2 * i` and `2 * i + 1`.
pub open spec fn arg_range(i: int) -> Value {
    Value::F32(F32Range { lo: ValueId((2 * i) as u16), hi: ValueId((2 * i + 1) as u16) })
}

/// `values` are the ranged forms of the values of `source` in a tape over ranges with the
/// instructions `instrs`: the arguments' ranges are the argument pairs, and each
/// instruction's form follows its interval rule.
pub open spec fn translated(source: Tape, instrs: Seq<Instr>, values: Seq<Value>) -> bool {
    let n = source.spec_args().len() as int;
    &&& values.len() == n + source.spec_instrs().len()
    &&& forall|i: int| 0 <= i < n ==> #[trigger] values[i] == arg_range(i)
    &&& forall|k: int|
        0 <= k < source.spec_instrs().len() ==> #[trigger] interval_rule(
            source.spec_instrs()[k],
            values,
            instrs,
            2 * n,
            values[n + k],
        )
    &&& result_copies(instrs, values, source.spec_results().len() as int)
}

/// The last `2 * m` instructions copy the bounds of the last `m` values, each lower bound
/// before its upper bound.
pub open spec fn result_copies(instrs: Seq<Instr>, values: Seq<Value>, m: int) -> bool {
    &&& 2 * m <= instrs.len()
    &&& m <= values.len()
    &&& forall|j: int|
        0 <= j < m ==> match #[trigger] values[values.len() - m + j] {
            Value::F32(x) => instrs[instrs.len() - 2 * m + 2 * j] == Instr::CopyF32(x.lo) && instrs[instrs.len() - 2 * m
                + 2 * j + 1] == Instr::CopyF32(x.hi),
            _ => false,
        }
}

/// Translates `source` into a tape over ranges: argument `i` becomes arguments `2 * i`
/// and `2 * i + 1`, the lower and upper bounds of its range, and result `j` becomes
/// results `2 * j` and `2 * j + 1` in the same way.
pub fn translate(source: &Tape) -> (r: Tape)
    requires
        translatable(*source),
    ensures
        r.wf(),
        r.spec_args() == f32_args(2 * source.spec_args().len()),
        r.spec_results() == f32_args(2 * source.spec_results().len()),
        exists|values: Seq<Value>| #[trigger] translated(*source, r.spec_instrs(), values),
{
    Translator::new(source).run()
}

pub open spec fn is_discrete(instr: Instr) -> bool {
    match instr {
        Instr::I32Const(_) | Instr::BoolConst(_) | Instr::F32Const(_) | Instr::CopyI32(_) | Instr::CopyBool(_) | Instr::CopyF32(_) | Instr::I32Add(_, _) | Instr::I32Sub(_, _) | Instr::I32Mul(_, _) | Instr::I32Eq(_, _) | Instr::I32Ne(_, _) | Instr::I32Lt(_, _) | Instr::I32Le(_, _) | Instr::I32Gt(_, _) | Instr::I32Ge(_, _) | Instr::Not(_) | Instr::And(_, _) | Instr::Or(_, _) | Instr::Xor(_, _) | Instr::I32FromBool(_) | Instr::I32Sel(_, _, _) => true,
        _ => false,
    }
}

pub open spec fn is_arith(instr: Instr) -> bool {
    match instr {
        Instr::F32FromI32(_) | Instr::F32FromBool(_) | Instr::F32Neg(_) | Instr::F32Abs(_) | Instr::F32Sign(_) | Instr::F32Floor(_) | Instr::F32Add(_, _) | Instr::F32Sub(_, _) | Instr::F32Mul(_, _) | Instr::F32Div(_, _) | Instr::F32Min(_, _) | Instr::F32Max(_, _) | Instr::F32Powf(_, _) | Instr::F32Powi(_, _) => true,
        _ => false,
    }
}

pub open spec fn is_transcendental(instr: Instr) -> bool {
    match instr {
        Instr::F32Exp(_) | Instr::F32Ln(_) | Instr::F32Lg(_) | Instr::F32Sin(_) | Instr::F32Cos(_) | Instr::F32Tan(_) | Instr::F32Cot(_) => true,
        _ => false,
    }
}

pub open spec fn is_compare(instr: Instr) -> bool {
    match instr {
        Instr::F32Eq(_, _) | Instr::F32Ne(_, _) | Instr::F32Lt(_, _) | Instr::F32Le(_, _) | Instr::F32Gt(_, _) | Instr::F32Ge(_, _) | Instr::F32Sel(_, _, _) => true,
        _ => false,
    }
}

struct Translator<'a> {
    source: &'a Tape,
    builder: TapeBuilder,
    values: Vec<Value>,
}

impl<'a> Translator<'a> {
    spec fn source_types(&self) -> Seq<Type> {
        value_types(self.source.spec_args(), self.source.spec_instrs())
    }

    /// Value `id` of the source has been translated, and has type `t`.
    spec fn reads(&self, id: ValueId, t: Type) -> bool {
        &&& (id.0 as int) < self.values@.len()
        &&& self.source_types()[id.0 as int] == t
    }

    spec fn inv(&self) -> bool {
        let n = self.source.spec_args().len();
        &&& translatable(*self.source)
        &&& self.builder.wf()
        &&& all_typed(self.builder)
        &&& self.builder.spec_num_args() == 2 * n
        &&& self.builder.spec_results() == f32_args(2 * self.source.spec_results().len())
        &&& forall|i: int| 0 <= i < 2 * n ==> #[trigger] self.builder.spec_values()[i] == Type::F32
        &&& n <= self.values@.len() <= n + self.source.spec_instrs().len()
        &&& forall|i: int|
            0 <= i < self.values@.len() ==> value_ok(self.builder, #[trigger] self.values@[i], self.source_types()[i])
        &&& forall|i: int|
            0 <= i < self.values@.len() && bool_definite(*self.source, i) ==> match #[trigger] self.values@[i] {
                Value::Bool(r) => r.all == r.any,
                _ => false,
            }
    }

    /// The next source instruction is `instr`, its operands have been translated, and the
    /// builder has room for its ranged form.
    spec fn ready(&self, instr: Instr) -> bool {
        let n = self.source.spec_args().len();
        &&& self.inv()
        &&& self.values@.len() < n + self.source.spec_instrs().len()
        &&& instr == self.source.spec_instrs()[self.values@.len() - n]
        &&& self.builder.spec_values().len() + 32 < u16::MAX
        &&& self.reads_operand(instr, 0)
        &&& self.reads_operand(instr, 1)
        &&& self.reads_operand(instr, 2)
    }

    /// Operand `j` of `instr`, where it has one, has been translated.
    spec fn reads_operand(&self, instr: Instr, j: int) -> bool {
        j < instr.operands().len() ==> self.reads(instr.operands()[j].0, instr.operands()[j].1)
    }

    /// `next` has translated `instr` to `r`: it appended at most 32 well-typed
    /// instructions, `r` has the type of `instr`, and a boolean that is known stays known.
    spec fn stepped(&self, next: &Self, instr: Instr, r: Value) -> bool {
        &&& next.source == self.source
        &&& next.values == self.values
        &&& grows(self.builder, next.builder)
        &&& next.builder.spec_values().len() <= self.builder.spec_values().len() + 32
        &&& value_ok(next.builder, r, instr.spec_result_type())
        &&& bool_definite(*self.source, self.values@.len() as int) ==> match r {
            Value::Bool(b) => b.all == b.any,
            _ => false,
        }
    }

    fn new(source: &'a Tape) -> (r: Translator<'a>)
        requires
            translatable(*source),
        ensures
            r.inv(),
            r.source == source,
            r.values@.len() == source.spec_args().len(),
            r.builder.spec_values().len() == 2 * source.spec_args().len(),
            forall|i: int| 0 <= i < source.spec_args().len() ==> #[trigger] r.values@[i] == arg_range(i),
            r.builder.spec_instrs().len() == 0,
    {
        let num_args = source.num_args();
        let num_results = source.num_results();
        let mut arg_types: Vec<Type> = Vec::new();
        let mut i: usize = 0;
        while i < 2 * num_args
            invariant
                num_args == source.spec_args().len(),
                2 * num_args <= 255,
                i <= 2 * num_args,
                arg_types@ == f32_args(i as nat),
            decreases 2 * num_args - i,
        {
            arg_types.push(Type::F32);
            i = i + 1;
            proof {
                assert(arg_types@ =~= f32_args(i as nat));
            }
        }
        let mut result_types: Vec<Type> = Vec::new();
        let mut j: usize = 0;
        while j < 2 * num_results
            invariant
                num_results == source.spec_results().len(),
                2 * num_results <= 255,
                j <= 2 * num_results,
                result_types@ == f32_args(j as nat),
            decreases 2 * num_results - j,
        {
            result_types.push(Type::F32);
            j = j + 1;
            proof {
                assert(result_types@ =~= f32_args(j as nat));
            }
        }
        let builder = Tape::builder(arg_types, result_types);
        let mut values: Vec<Value> = Vec::new();
        let mut k: usize = 0;
        while k < num_args
            invariant
                num_args == source.spec_args().len(),
                translatable(*source),
                builder.wf(),
                builder.spec_num_args() == 2 * num_args,
                builder.spec_values() == f32_args(2 * num_args as nat),
                k <= num_args,
                values@.len() == k,
                forall|i: int|
                    0 <= i < k ==> value_ok(
                        builder,
                        #[trigger] values@[i],
                        value_types(source.spec_args(), source.spec_instrs())[i],
                    ),
                forall|i: int| 0 <= i < k ==> #[trigger] values@[i] is F32,
                forall|i: int| 0 <= i < k ==> #[trigger] values@[i] == arg_range(i),
            decreases num_args - k,
        {
            let range = F32Range { lo: builder.arg(2 * k), hi: builder.arg(2 * k + 1) };
            values.push(Value::F32(range));
            k = k + 1;
        }
        let r = Translator { source, builder, values };
        proof {
            assert forall|i: int|
                0 <= i < r.values@.len() && bool_definite(*r.source, i) implies match #[trigger] r.values@[i] {
                Value::Bool(b) => b.all == b.any,
                _ => false,
            } by {
                assert(!bool_definite(*r.source, i));
            }
        }
        r
    }

    fn run(self) -> (r: Tape)
        requires
            self.inv(),
            self.values@.len() == self.source.spec_args().len(),
            self.builder.spec_values().len() == 2 * self.source.spec_args().len(),
            forall|i: int| 0 <= i < self.source.spec_args().len() ==> #[trigger] self.values@[i] == arg_range(i),
        ensures
            r.wf(),
            r.spec_args() == f32_args(2 * self.source.spec_args().len()),
            r.spec_results() == f32_args(2 * self.source.spec_results().len()),
            exists|values: Seq<Value>| #[trigger] translated(*self.source, r.spec_instrs(), values),
    {
        let mut this = self;
        let ghost n = this.source.spec_args().len();
        let ghost num_instrs = this.source.spec_instrs().len();
        let instrs = this.source.instrs();
        let mut k: usize = 0;
        while k < instrs.len()
            invariant
                this.inv(),
                this.source == self.source,
                n == this.source.spec_args().len(),
                num_instrs == this.source.spec_instrs().len(),
                instrs@.len() == num_instrs,
                forall|j: int| 0 <= j < instrs@.len() ==> (#[trigger] instrs@[j]).spec_instr() == this.source.spec_instrs()[j],
                k <= num_instrs,
                this.values@.len() == n + k,
                this.builder.spec_values().len() + 32 * (num_instrs - k) + 2 * this.source.spec_results().len()
                    <= 2 * n + 32 * num_instrs + 2 * this.source.spec_results().len(),
                forall|i: int| 0 <= i < n ==> #[trigger] this.values@[i] == arg_range(i),
                forall|k2: int|
                    0 <= k2 < k ==> #[trigger] interval_rule(
                        this.source.spec_instrs()[k2],
                        this.values@,
                        this.builder.spec_instrs(),
                        2 * (n as int),
                        this.values@[n + k2],
                    ),
            decreases num_instrs - k,
        {
            let instr = instrs[k].instr();
            let ghost before = this;
            let value = this.translate(instr);
            let ghost mid = this;
            this.values.push(value);
            proof {
                let nn = 2 * n;
                assert(mid.builder.spec_num_args() == 2 * n);
                assert forall|k2: int| 0 <= k2 <= k implies #[trigger] interval_rule(
                    this.source.spec_instrs()[k2],
                    this.values@,
                    this.builder.spec_instrs(),
                    2 * (n as int),
                    this.values@[n + k2],
                ) by {
                    let ins = this.source.spec_instrs()[k2];
                    assert(instr_well_typed(before.source_types(), n + k2, ins));
                    assert forall|j: int| 0 <= j < ins.operands().len() implies (#[trigger] ins.operands()[j]).0.0
                        < before.values@.len() by {
                        assert(instr_well_typed(before.source_types(), n + k2, ins));
                    }
                    if k2 < k {
                        assert(this.values@[n + k2] == before.values@[n + k2]);
                        lemma_rule_grow(ins, before.values@, this.values@, before.builder.spec_instrs(), this.builder.spec_instrs(), 2 * (n as int), before.values@[n + k2]);
                    } else {
                        assert(this.values@[n + k2] == value);
                        lemma_rule_grow(ins, before.values@, this.values@, this.builder.spec_instrs(), this.builder.spec_instrs(), 2 * (n as int), value);
                    }
                }
            }
            k = k + 1;
        }
        let num_results = this.source.num_results();
        let first = this.values.len() - num_results;
        let ghost built = this.builder;
        let mut j: usize = first;
        while j < this.values.len()
            invariant
                this.inv(),
                this.source == self.source,
                n == this.source.spec_args().len(),
                num_instrs == this.source.spec_instrs().len(),
                this.values@.len() == n + num_instrs,
                num_results == this.source.spec_results().len(),
                first == this.values@.len() - num_results,
                first <= j <= this.values@.len(),
                grows(built, this.builder),
                this.builder.spec_values().len() == built.spec_values().len() + 2 * (j - first),
                built.spec_values().len() + 2 * num_results < u16::MAX,
                forall|i: int|
                    built.spec_values().len() <= i < this.builder.spec_values().len() ==> #[trigger] this.builder.spec_values()[i]
                        == Type::F32,
                forall|i: int| 0 <= i < n ==> #[trigger] this.values@[i] == arg_range(i),
                forall|k2: int|
                    0 <= k2 < num_instrs ==> #[trigger] interval_rule(
                        this.source.spec_instrs()[k2],
                        this.values@,
                        this.builder.spec_instrs(),
                        2 * (n as int),
                        this.values@[n + k2],
                    ),
                this.builder.spec_instrs().len() == built.spec_instrs().len() + 2 * (j - first),
                forall|i: int| 0 <= i < built.spec_instrs().len() ==> #[trigger] this.builder.spec_instrs()[i] == built.spec_instrs()[i],
                forall|t: int|
                    0 <= t < j - first ==> match #[trigger] this.values@[first + t] {
                        Value::F32(x) => this.builder.spec_instrs()[built.spec_instrs().len() + 2 * t] == Instr::CopyF32(x.lo)
                            && this.builder.spec_instrs()[built.spec_instrs().len() + 2 * t + 1] == Instr::CopyF32(x.hi),
                        _ => false,
                    },
            decreases this.values@.len() - j,
        {
            proof {
                let types = this.source_types();
                assert(types.len() == this.values@.len());
                assert(types.subrange(first as int, types.len() as int) == this.source.spec_results());
                assert(types.subrange(first as int, types.len() as int)[j - first] == types[j as int]);
                assert(this.source.spec_results()[j - first] == Type::F32);
            }
            let range = match this.values[j] {
                Value::F32(range) => range,
                _ => {
                    proof {
                        assert(false);
                    }
                    F32Range { lo: ValueId::new(0), hi: ValueId::new(0) }
                },
            };
            let ghost before = this;
            emit(&mut this.builder, Instr::CopyF32(range.lo));
            emit(&mut this.builder, Instr::CopyF32(range.hi));
            proof {
                let bl = built.spec_instrs().len() as int;
                assert forall|t: int| 0 <= t < j + 1 - first implies match #[trigger] this.values@[first + t] {
                    Value::F32(x) => this.builder.spec_instrs()[bl + 2 * t] == Instr::CopyF32(x.lo)
                        && this.builder.spec_instrs()[bl + 2 * t + 1] == Instr::CopyF32(x.hi),
                    _ => false,
                } by {
                    if t < j - first {
                        assert(this.builder.spec_instrs()[bl + 2 * t] == before.builder.spec_instrs()[bl + 2 * t]);
                        assert(this.builder.spec_instrs()[bl + 2 * t + 1] == before.builder.spec_instrs()[bl + 2 * t + 1]);
                    } else {
                        assert(this.values@[first + t] == Value::F32(range));
                    }
                }
                assert forall|i: int| 0 <= i < bl implies #[trigger] this.builder.spec_instrs()[i] == built.spec_instrs()[i] by {
                    assert(this.builder.spec_instrs()[i] == before.builder.spec_instrs()[i]);
                }
                assert forall|k2: int| 0 <= k2 < num_instrs implies #[trigger] interval_rule(
                    this.source.spec_instrs()[k2],
                    this.values@,
                    this.builder.spec_instrs(),
                    2 * (n as int),
                    this.values@[n + k2],
                ) by {
                    let ins = this.source.spec_instrs()[k2];
                    assert(instr_well_typed(before.source_types(), n + k2, ins));
                    assert forall|j2: int| 0 <= j2 < ins.operands().len() implies (#[trigger] ins.operands()[j2]).0.0
                        < before.values@.len() by {
                        assert(instr_well_typed(before.source_types(), n + k2, ins));
                    }
                    lemma_rule_grow(ins, this.values@, this.values@, before.builder.spec_instrs(), this.builder.spec_instrs(), 2 * (n as int), this.values@[n + k2]);
                }
            }
            j = j + 1;
        }
        let ghost values = this.builder.spec_values();
        let ghost num_args = this.builder.spec_num_args();
        proof {
            let m = 2 * num_results;
            assert(values.subrange(values.len() - m, values.len() as int) =~= f32_args(m as nat));
        }
        let ghost final_values = this.values@;
        let ghost final_instrs = this.builder.spec_instrs();
        let tape = this.builder.build().unwrap();
        proof {
            assert(tape.spec_args() =~= f32_args(2 * n as nat));
            let m = num_results as int;
            assert forall|t: int| 0 <= t < m implies match #[trigger] final_values[final_values.len() - m + t] {
                Value::F32(x) => final_instrs[final_instrs.len() - 2 * m + 2 * t] == Instr::CopyF32(x.lo)
                    && final_instrs[final_instrs.len() - 2 * m + 2 * t + 1] == Instr::CopyF32(x.hi),
                _ => false,
            } by {
                assert(final_values[first + t] == final_values[final_values.len() - m + t]);
            }
            assert(result_copies(final_instrs, final_values, m));
            assert(translated(*self.source, tape.spec_instrs(), final_values));
        }
        tape
    }

    /// The ranged form of source value `id`, an `i32`.
    fn i32(&self, id: ValueId) -> (r: ValueId)
        requires
            self.inv(),
            self.reads(id, Type::I32),
        ensures
            self.values@[id.0 as int] == Value::I32(r),
            typed(self.builder, r, Type::I32),
    {
        match self.values[id.index()] {
            Value::I32(v) => v,
            _ => {
                proof {
                    assert(false);
                }
                id
            },
        }
    }

    /// The ranged form of source value `id`, a boolean.
    fn bool(&self, id: ValueId) -> (r: BoolRange)
        requires
            self.inv(),
            self.reads(id, Type::Bool),
        ensures
            self.values@[id.0 as int] == Value::Bool(r),
            brange_ok(self.builder, r),
            bool_definite(*self.source, id.0 as int) ==> r.all == r.any,
    {
        match self.values[id.index()] {
            Value::Bool(range) => range,
            _ => {
                proof {
                    assert(false);
                }
                BoolRange::point(id)
            },
        }
    }

    /// The ranged form of source value `id`, an `f32`.
    fn f32_range(&self, id: ValueId) -> (r: F32Range)
        requires
            self.inv(),
            self.reads(id, Type::F32),
        ensures
            self.values@[id.0 as int] == Value::F32(r),
            range_ok(self.builder, r),
    {
        match self.values[id.index()] {
            Value::F32(range) => range,
            _ => {
                proof {
                    assert(false);
                }
                F32Range { lo: id, hi: id }
            },
        }
    }

    /// The operands of the next source instruction have been translated.
    proof fn lemma_reads(&self, instr: Instr)
        requires
            self.inv(),
            self.values@.len() < self.source.spec_args().len() + self.source.spec_instrs().len(),
            instr == self.source.spec_instrs()[self.values@.len() - self.source.spec_args().len()],
        ensures
            forall|j: int|
                0 <= j < instr.operands().len() ==> self.reads(
                    (#[trigger] instr.operands()[j]).0,
                    instr.operands()[j].1,
                ),
    {
        let n = self.source.spec_args().len() as int;
        let k = self.values@.len() - n;
        assert(instr_well_typed(self.source_types(), n + k, self.source.spec_instrs()[k]));
    }

    /// Growing the builder keeps the translated values.
    proof fn lemma_grows(&self, next: &Self)
        requires
            self.inv(),
            next.source == self.source,
            next.values == self.values,
            grows(self.builder, next.builder),
        ensures
            next.inv(),
    {
        assert forall|i: int| 0 <= i < next.values@.len() implies value_ok(
            next.builder,
            #[trigger] next.values@[i],
            next.source_types()[i],
        ) by {
            assert(value_ok(self.builder, self.values@[i], self.source_types()[i]));
        }
    }

    /// Translates the next source instruction, `instr`, into instructions over the
    /// ranges of its operands, and gives the ranged form of its value.
    fn translate(&mut self, instr: Instr) -> (r: Value)
        requires
            old(self).inv(),
            old(self).values@.len() < old(self).source.spec_args().len() + old(self).source.spec_instrs().len(),
            instr == old(self).source.spec_instrs()[old(self).values@.len() - old(self).source.spec_args().len()],
            old(self).builder.spec_values().len() + 32 < u16::MAX,
        ensures
            old(self).stepped(final(self), instr, r),
            final(self).inv(),
            interval_rule(instr, old(self).values@, final(self).builder.spec_instrs(), final(self).builder.spec_num_args() as int, r),
    {
        proof {
            self.lemma_reads(instr);
        }
        let ghost prev = *self;
        let r = match instr {
            Instr::I32Const(_) | Instr::BoolConst(_) | Instr::F32Const(_) | Instr::CopyI32(_) | Instr::CopyBool(_) | Instr::CopyF32(_) | Instr::I32Add(_, _) | Instr::I32Sub(_, _) | Instr::I32Mul(_, _) | Instr::I32Eq(_, _) | Instr::I32Ne(_, _) | Instr::I32Lt(_, _) | Instr::I32Le(_, _) | Instr::I32Gt(_, _) | Instr::I32Ge(_, _) | Instr::Not(_) | Instr::And(_, _) | Instr::Or(_, _) | Instr::Xor(_, _) | Instr::I32FromBool(_) | Instr::I32Sel(_, _, _) => self.translate_discrete(instr),
            Instr::F32FromI32(_) | Instr::F32FromBool(_) | Instr::F32Neg(_) | Instr::F32Abs(_) | Instr::F32Sign(_) | Instr::F32Floor(_) | Instr::F32Add(_, _) | Instr::F32Sub(_, _) | Instr::F32Mul(_, _) | Instr::F32Div(_, _) | Instr::F32Min(_, _) | Instr::F32Max(_, _) | Instr::F32Powf(_, _) | Instr::F32Powi(_, _) => self.translate_arith(instr),
            Instr::F32Exp(_) | Instr::F32Ln(_) | Instr::F32Lg(_) | Instr::F32Sin(_) | Instr::F32Cos(_) | Instr::F32Tan(_) | Instr::F32Cot(_) => self.translate_transcendental(instr),
            Instr::F32Eq(_, _) | Instr::F32Ne(_, _) | Instr::F32Lt(_, _) | Instr::F32Le(_, _) | Instr::F32Gt(_, _) | Instr::F32Ge(_, _) | Instr::F32Sel(_, _, _) => self.translate_compare(instr),
        };
        proof {
            prev.lemma_grows(self);
        }
        r
    }

    /// Translates an instruction over `i32`s and booleans, a constant or a copy.
    #[verifier::rlimit(100)]
    fn translate_discrete(&mut self, instr: Instr) -> (r: Value)
        requires
            old(self).ready(instr),
            is_discrete(instr),
        ensures
            old(self).stepped(final(self), instr, r),
            interval_rule(instr, old(self).values@, final(self).builder.spec_instrs(), final(self).builder.spec_num_args() as int, r),
    {
        match instr {
            Instr::I32Const(_) => {
                let ghost b0 = self.builder;
                let v = i32_instr(&mut self.builder, instr);
                proof {
                    lemma_pushed_made(b0, self.builder, v, instr);
                    lemma_leaf_rule(instr, self.values@, self.builder.spec_instrs(), self.builder.spec_num_args() as int, Value::I32(v));
                }
                Value::I32(v)
            },
            Instr::F32Const(_) => {
                let ghost b0 = self.builder;
                let v = f32_instr(&mut self.builder, instr);
                proof {
                    lemma_pushed_made(b0, self.builder, v, instr);
                    lemma_leaf_rule(instr, self.values@, self.builder.spec_instrs(), self.builder.spec_num_args() as int, Value::F32(F32Range { lo: v, hi: v }));
                }
                Value::F32(F32Range { lo: v, hi: v })
            },
            Instr::CopyI32(src) => {
                proof {
                    lemma_leaf_rule(instr, self.values@, self.builder.spec_instrs(), self.builder.spec_num_args() as int, self.values@[src.0 as int]);
                }
                self.values[src.index()]
            },
            Instr::CopyBool(src) => {
                proof {
                    lemma_leaf_rule(instr, self.values@, self.builder.spec_instrs(), self.builder.spec_num_args() as int, self.values@[src.0 as int]);
                }
                self.values[src.index()]
            },
            Instr::CopyF32(src) => {
                proof {
                    lemma_leaf_rule(instr, self.values@, self.builder.spec_instrs(), self.builder.spec_num_args() as int, self.values@[src.0 as int]);
                }
                self.values[src.index()]
            },
            Instr::I32Add(lhs, rhs) => {
                let (x, y) = (self.i32(lhs), self.i32(rhs));
                let ghost b0 = self.builder;
                let v = i32_instr(&mut self.builder, Instr::I32Add(x, y));
                proof {
                    lemma_pushed_made(b0, self.builder, v, Instr::I32Add(x, y));
                    assert(i32_op(instr, x, y) == Instr::I32Add(x, y));
                    lemma_i32_rule(instr, self.values@, self.builder.spec_instrs(), self.builder.spec_num_args() as int, x, y, v);
                }
                Value::I32(v)
            },
            Instr::I32Sub(lhs, rhs) => {
                let (x, y) = (self.i32(lhs), self.i32(rhs));
                let ghost b0 = self.builder;
                let v = i32_instr(&mut self.builder, Instr::I32Sub(x, y));
                proof {
                    lemma_pushed_made(b0, self.builder, v, Instr::I32Sub(x, y));
                    assert(i32_op(instr, x, y) == Instr::I32Sub(x, y));
                    lemma_i32_rule(instr, self.values@, self.builder.spec_instrs(), self.builder.spec_num_args() as int, x, y, v);
                }
                Value::I32(v)
            },
            Instr::I32Mul(lhs, rhs) => {
                let (x, y) = (self.i32(lhs), self.i32(rhs));
                let ghost b0 = self.builder;
                let v = i32_instr(&mut self.builder, Instr::I32Mul(x, y));
                proof {
                    lemma_pushed_made(b0, self.builder, v, Instr::I32Mul(x, y));
                    assert(i32_op(instr, x, y) == Instr::I32Mul(x, y));
                    lemma_i32_rule(instr, self.values@, self.builder.spec_instrs(), self.builder.spec_num_args() as int, x, y, v);
                }
                Value::I32(v)
            },
            Instr::Xor(_, _) => self.translate_logic(instr),
            _ => self.translate_flags(instr),
        }
    }

    /// Translates an exclusive or of boolean ranges.
    #[verifier::rlimit(100)]
    fn translate_logic(&mut self, instr: Instr) -> (r: Value)
        requires
            old(self).ready(instr),
            instr is Xor,
        ensures
            old(self).stepped(final(self), instr, r),
            interval_rule(instr, old(self).values@, final(self).builder.spec_instrs(), final(self).builder.spec_num_args() as int, r),
    {
        match instr {
            Instr::Xor(lhs, rhs) => {
                let (x, y) = (self.bool(lhs), self.bool(rhs));
                let ghost b0 = self.builder;
                let definite = bool_instr(&mut self.builder, Instr::Xor(x.all, y.all));
                proof {
                    reveal(rule_of);
                }
                if x.definite().is_some() && y.definite().is_some() {
                    proof {
                        lemma_pushed_made(b0, self.builder, definite, Instr::Xor(x.all, y.all));
                    }
                    Value::Bool(BoolRange::point(definite))
                } else {
                    // Any uncertain operand makes the result fully uncertain.
                    let unc_x = bool_instr(&mut self.builder, Instr::Xor(x.all, x.any));
                    let unc_y = bool_instr(&mut self.builder, Instr::Xor(y.all, y.any));
                    let uncertain = bool_instr(&mut self.builder, Instr::Or(unc_x, unc_y));
                    let certain = bool_instr(&mut self.builder, Instr::Not(uncertain));
                    let all = bool_instr(&mut self.builder, Instr::And(definite, certain));
                    let any = bool_instr(&mut self.builder, Instr::Or(definite, uncertain));
                    proof {
                        let instrs = self.builder.spec_instrs();
                        lemma_made_at(b0, instrs, 0, definite, Instr::Xor(x.all, y.all));
                        lemma_made_at(b0, instrs, 1, unc_x, Instr::Xor(x.all, x.any));
                        lemma_made_at(b0, instrs, 2, unc_y, Instr::Xor(y.all, y.any));
                        lemma_made_at(b0, instrs, 3, uncertain, Instr::Or(unc_x, unc_y));
                        lemma_made_at(b0, instrs, 4, certain, Instr::Not(uncertain));
                        lemma_made_at(b0, instrs, 5, all, Instr::And(definite, certain));
                        lemma_made_at(b0, instrs, 6, any, Instr::Or(definite, uncertain));
                    }
                    Value::Bool(BoolRange { all, any })
                }
            },
            _ => {
                proof {
                    assert(false);
                }
                Value::I32(ValueId::new(0))
            },
        }
    }

    /// Translates a boolean constant, a comparison of `i32`s, a negation, a conjunction, a
    /// disjunction, or an `i32` made from a boolean.
    #[verifier::rlimit(100)]
    fn translate_flags(&mut self, instr: Instr) -> (r: Value)
        requires
            old(self).ready(instr),
            instr is BoolConst || instr is I32Eq || instr is I32Ne || instr is I32Lt || instr is I32Le || instr is I32Gt
                || instr is I32Ge || instr is Not || instr is I32FromBool || instr is I32Sel || instr is And || instr is Or,
        ensures
            old(self).stepped(final(self), instr, r),
            interval_rule(instr, old(self).values@, final(self).builder.spec_instrs(), final(self).builder.spec_num_args() as int, r),
    {
        match instr {
            Instr::And(lhs, rhs) => {
                let (x, y) = (self.bool(lhs), self.bool(rhs));
                let ghost b0 = self.builder;
                let all = bool_instr(&mut self.builder, Instr::And(x.all, y.all));
                let ghost b1 = self.builder;
                let any = if x.definite().is_some() && y.definite().is_some() {
                    proof {
                        lemma_pushed_made(b0, self.builder, all, Instr::And(x.all, y.all));
                    }
                    all
                } else {
                    let any = bool_instr(&mut self.builder, Instr::And(x.any, y.any));
                    proof {
                        lemma_two_made(b0, b1, self.builder, all, Instr::And(x.all, y.all), any, Instr::And(x.any, y.any));
                    }
                    any
                };
                proof {
                    reveal(rule_of);
                }
                Value::Bool(BoolRange { all, any })
            },
            Instr::Or(lhs, rhs) => {
                let (x, y) = (self.bool(lhs), self.bool(rhs));
                let ghost b0 = self.builder;
                let all = bool_instr(&mut self.builder, Instr::Or(x.all, y.all));
                let ghost b1 = self.builder;
                let any = if x.definite().is_some() && y.definite().is_some() {
                    proof {
                        lemma_pushed_made(b0, self.builder, all, Instr::Or(x.all, y.all));
                    }
                    all
                } else {
                    let any = bool_instr(&mut self.builder, Instr::Or(x.any, y.any));
                    proof {
                        lemma_two_made(b0, b1, self.builder, all, Instr::Or(x.all, y.all), any, Instr::Or(x.any, y.any));
                    }
                    any
                };
                proof {
                    reveal(rule_of);
                }
                Value::Bool(BoolRange { all, any })
            },
            Instr::BoolConst(_) => {
                let ghost b0 = self.builder;
                let v = bool_instr(&mut self.builder, instr);
                proof {
                    reveal(rule_of);
                    lemma_pushed_made(b0, self.builder, v, instr);
                }
                Value::Bool(BoolRange::point(v))
            },
            Instr::I32Eq(lhs, rhs) => {
                let (x, y) = (self.i32(lhs), self.i32(rhs));
                let ghost b0 = self.builder;
                let v = bool_instr(&mut self.builder, Instr::I32Eq(x, y));
                proof {
                    reveal(rule_of);
                    lemma_pushed_made(b0, self.builder, v, Instr::I32Eq(x, y));
                    assert(i32_relation(instr, x, y) == Instr::I32Eq(x, y));
                }
                Value::Bool(BoolRange::point(v))
            },
            Instr::I32Ne(lhs, rhs) => {
                let (x, y) = (self.i32(lhs), self.i32(rhs));
                let ghost b0 = self.builder;
                let v = bool_instr(&mut self.builder, Instr::I32Ne(x, y));
                proof {
                    reveal(rule_of);
                    lemma_pushed_made(b0, self.builder, v, Instr::I32Ne(x, y));
                    assert(i32_relation(instr, x, y) == Instr::I32Ne(x, y));
                }
                Value::Bool(BoolRange::point(v))
            },
            Instr::I32Lt(lhs, rhs) => {
                let (x, y) = (self.i32(lhs), self.i32(rhs));
                let ghost b0 = self.builder;
                let v = bool_instr(&mut self.builder, Instr::I32Lt(x, y));
                proof {
                    reveal(rule_of);
                    lemma_pushed_made(b0, self.builder, v, Instr::I32Lt(x, y));
                    assert(i32_relation(instr, x, y) == Instr::I32Lt(x, y));
                }
                Value::Bool(BoolRange::point(v))
            },
            Instr::I32Le(lhs, rhs) => {
                let (x, y) = (self.i32(lhs), self.i32(rhs));
                let ghost b0 = self.builder;
                let v = bool_instr(&mut self.builder, Instr::I32Le(x, y));
                proof {
                    reveal(rule_of);
                    lemma_pushed_made(b0, self.builder, v, Instr::I32Le(x, y));
                    assert(i32_relation(instr, x, y) == Instr::I32Le(x, y));
                }
                Value::Bool(BoolRange::point(v))
            },
            Instr::I32Gt(lhs, rhs) => {
                let (x, y) = (self.i32(lhs), self.i32(rhs));
                let ghost b0 = self.builder;
                let v = bool_instr(&mut self.builder, Instr::I32Gt(x, y));
                proof {
                    reveal(rule_of);
                    lemma_pushed_made(b0, self.builder, v, Instr::I32Gt(x, y));
                    assert(i32_relation(instr, x, y) == Instr::I32Gt(x, y));
                }
                Value::Bool(BoolRange::point(v))
            },
            Instr::I32Ge(lhs, rhs) => {
                let (x, y) = (self.i32(lhs), self.i32(rhs));
                let ghost b0 = self.builder;
                let v = bool_instr(&mut self.builder, Instr::I32Ge(x, y));
                proof {
                    reveal(rule_of);
                    lemma_pushed_made(b0, self.builder, v, Instr::I32Ge(x, y));
                    assert(i32_relation(instr, x, y) == Instr::I32Ge(x, y));
                }
                Value::Bool(BoolRange::point(v))
            },
            Instr::Not(src) => {
                let x = self.bool(src);
                let ghost b0 = self.builder;
                let r = bool_not(&mut self.builder, x);
                proof {
                    reveal(rule_of);
                    lemma_made_at(b0, self.builder.spec_instrs(), 0, r.all, Instr::Not(x.any));
                    if x.all != x.any {
                        lemma_made_at(b0, self.builder.spec_instrs(), 1, r.any, Instr::Not(x.all));
                    }
                }
                Value::Bool(r)
            },
            Instr::I32FromBool(src) => {
                let x = self.bool(src);
                let ghost b0 = self.builder;
                let v = i32_instr(&mut self.builder, Instr::I32FromBool(x.all));
                proof {
                    reveal(rule_of);
                    lemma_pushed_made(b0, self.builder, v, Instr::I32FromBool(x.all));
                }
                Value::I32(v)
            },
            Instr::I32Sel(cond, v_true, v_false) => {
                let c = self.bool(cond);
                let (t, f) = (self.i32(v_true), self.i32(v_false));
                let ghost b0 = self.builder;
                let v = i32_instr(&mut self.builder, Instr::I32Sel(c.all, t, f));
                proof {
                    reveal(rule_of);
                    lemma_pushed_made(b0, self.builder, v, Instr::I32Sel(c.all, t, f));
                }
                Value::I32(v)
            },
            _ => {
                proof {
                    assert(false);
                }
                Value::I32(ValueId::new(0))
            },
        }
    }

    /// Translates an arithmetic instruction with an `f32` result.
    #[verifier::rlimit(100)]
    fn translate_arith(&mut self, instr: Instr) -> (r: Value)
        requires
            old(self).ready(instr),
            is_arith(instr),
        ensures
            old(self).stepped(final(self), instr, r),
            interval_rule(instr, old(self).values@, final(self).builder.spec_instrs(), final(self).builder.spec_num_args() as int, r),
    {
        match instr {
            Instr::F32FromI32(_) | Instr::F32FromBool(_) | Instr::F32Mul(_, _) => self.translate_scaled(instr),
            Instr::F32Abs(src) => {
                // |[lo, hi]| = [max(lo, -hi, 0), max(hi, -lo)]
                let x = self.f32_range(src);
                let ghost b0 = self.builder;
                let neg_lo = f32_instr(&mut self.builder, Instr::F32Neg(x.lo));
                let neg_hi = f32_instr(&mut self.builder, Instr::F32Neg(x.hi));
                let zero = c_f32(&mut self.builder, ZERO_BITS);
                let candidates = [x.lo, neg_hi, zero];
                let ghost base = self.builder.spec_values().len() as int;
                let lo = max_of(&mut self.builder, candidates.as_slice());
                let hi = max(&mut self.builder, x.hi, neg_lo);
                proof {
                    reveal(rule_of);
                    reveal_with_fuel(fold_chain, 3);
                    let vs = candidates@;
                    assert(vs =~= seq![x.lo, neg_hi, zero]);
                    let m = ValueId(base as u16);
                    assert(fold_acc(vs, base, 2) == m);
                    assert(fold_chain(vs, base, 3, false) =~= seq![Instr::F32Max(x.lo, neg_hi), Instr::F32Max(m, zero)]);
                    let instrs = self.builder.spec_instrs();
                    lemma_made_at(b0, instrs, 0, neg_lo, Instr::F32Neg(x.lo));
                    lemma_made_at(b0, instrs, 1, neg_hi, Instr::F32Neg(x.hi));
                    lemma_made_at(b0, instrs, 2, zero, Instr::F32Const(ZERO_BITS));
                    lemma_made_at(b0, instrs, 3, m, Instr::F32Max(x.lo, neg_hi));
                    lemma_made_at(b0, instrs, 4, lo, Instr::F32Max(m, zero));
                    lemma_made_at(b0, instrs, 5, hi, Instr::F32Max(x.hi, neg_lo));
                }
                Value::F32(F32Range { lo, hi })
            },
            Instr::F32Div(_, _) | Instr::F32Powf(_, _) | Instr::F32Powi(_, _) => self.translate_powers(instr),
            Instr::F32Neg(_) | Instr::F32Sign(_) | Instr::F32Floor(_) | Instr::F32Add(_, _) | Instr::F32Sub(_, _)
            | Instr::F32Min(_, _) | Instr::F32Max(_, _) => self.translate_bounds(instr),
            _ => {
                proof {
                    assert(false);
                }
                Value::I32(ValueId::new(0))
            },
        }
    }

    /// Translates a quotient, a real power or an integer power.
    #[verifier::rlimit(100)]
    fn translate_powers(&mut self, instr: Instr) -> (r: Value)
        requires
            old(self).ready(instr),
            instr is F32Div || instr is F32Powf || instr is F32Powi,
        ensures
            old(self).stepped(final(self), instr, r),
            interval_rule(instr, old(self).values@, final(self).builder.spec_instrs(), final(self).builder.spec_num_args() as int, r),
    {
        match instr {
            Instr::F32Div(lhs, rhs) => {
                let (x, y) = (self.f32_range(lhs), self.f32_range(rhs));
                let ghost b0 = self.builder;
                let inverse = recip(&mut self.builder, y);
                let ghost b1 = self.builder;
                let q = mul_range(&mut self.builder, x, inverse);
                proof {
                    reveal(rule_of);
                    let instrs = self.builder.spec_instrs();
                    let n = self.builder.spec_num_args() as int;
                    let s0 = b0.spec_instrs().len() as int;
                    lemma_mul_block_len(x, inverse, n + s0 + 21);
                    assert(recip_block(y, n + s0).len() == 21);
                    assert(instrs.subrange(s0, s0 + 21) =~= recip_block(y, n + s0));
                    assert(instrs.subrange(s0 + 21, s0 + 31) =~= mul_block(x, inverse, n + s0 + 21));
                    assert(mul_at(instrs, n, x, recip_result(n + s0), Value::F32(q), s0 + 21));
                    assert(div_at(instrs, n, x, y, Value::F32(q), s0));
                }
                Value::F32(q)
            },
            Instr::F32Powf(lhs, rhs) => {
                // lhs^rhs = exp(rhs * ln(lhs))
                let (x, y) = (self.f32_range(lhs), self.f32_range(rhs));
                let ghost b0 = self.builder;
                let clamped = ensure_positive_safe(&mut self.builder, x);
                let ln_lo = f32_instr(&mut self.builder, Instr::F32Ln(clamped.lo));
                let ln_hi = f32_instr(&mut self.builder, Instr::F32Ln(clamped.hi));
                let ghost b1 = self.builder;
                let l = F32Range { lo: ln_lo, hi: ln_hi };
                let exponent = mul_range(&mut self.builder, l, y);
                let ghost b2 = self.builder;
                let lo = f32_instr(&mut self.builder, Instr::F32Exp(exponent.lo));
                let hi = f32_instr(&mut self.builder, Instr::F32Exp(exponent.hi));
                proof {
                    reveal(rule_of);
                    let instrs = self.builder.spec_instrs();
                    let n = self.builder.spec_num_args() as int;
                    let tiny = ValueId(b0.spec_values().len() as u16);
                    lemma_made_at(b0, instrs, 0, tiny, Instr::F32Const(MIN_POSITIVE_BITS));
                    lemma_made_at(b0, instrs, 1, clamped.lo, Instr::F32Max(x.lo, tiny));
                    lemma_made_at(b0, instrs, 2, clamped.hi, Instr::F32Max(x.hi, tiny));
                    lemma_made_at(b0, instrs, 3, ln_lo, Instr::F32Ln(clamped.lo));
                    lemma_made_at(b0, instrs, 4, ln_hi, Instr::F32Ln(clamped.hi));
                    lemma_made_at(b2, instrs, 0, lo, Instr::F32Exp(exponent.lo));
                    lemma_made_at(b2, instrs, 1, hi, Instr::F32Exp(exponent.hi));
                    let s0 = b1.spec_instrs().len() as int;
                    lemma_mul_block_len(l, y, n + s0);
                    assert(instrs.subrange(s0, s0 + 10) =~= mul_block(l, y, n + s0));
                    assert(mul_at(instrs, n, l, y, Value::F32(exponent), s0));
                    assert(ln_range(instrs, n, x, l));
                }
                Value::F32(F32Range { lo, hi })
            },
            Instr::F32Powi(lhs, rhs) => {
                let x = self.f32_range(lhs);
                let n = self.i32(rhs);
                let ghost b0 = self.builder;
                let nonzero = ensure_nonzero(&mut self.builder, x);
                let a = f32_instr(&mut self.builder, Instr::F32Powi(nonzero.lo, n));
                let c = f32_instr(&mut self.builder, Instr::F32Powi(nonzero.hi, n));
                let range = f32_hull(&mut self.builder, a, c);
                // `range` might miss zero for even powers, e.g. [-1, 2]^2 = [1, 4].
                let zero_in_base = contains_zero(&mut self.builder, x);
                let range = include_zero_if(&mut self.builder, range, zero_in_base);
                // Negative powers blow up around zero.
                let zero = c_i32(&mut self.builder, 0);
                let negative_power = bool_instr(&mut self.builder, Instr::I32Lt(n, zero));
                let pole = bool_instr(&mut self.builder, Instr::And(zero_in_base, negative_power));
                let z = widen_if(&mut self.builder, range, pole);
                proof {
                    reveal(rule_of);
                    let instrs = self.builder.spec_instrs();
                    let k = self.builder.spec_num_args() as int;
                    let s0 = b0.spec_instrs().len() as int;
                    assert(powi_block(x, n, k + s0).len() == 28);
                    assert(instrs.subrange(s0, s0 + 28) =~= powi_block(x, n, k + s0));
                    assert(powi_at(instrs, k, x, n, Value::F32(z), s0));
                }
                Value::F32(z)
            },
            _ => {
                proof {
                    assert(false);
                }
                Value::I32(ValueId::new(0))
            },
        }
    }


    /// Translates a conversion to `f32` or a product.
    #[verifier::rlimit(100)]
    fn translate_scaled(&mut self, instr: Instr) -> (r: Value)
        requires
            old(self).ready(instr),
            instr is F32FromI32 || instr is F32FromBool || instr is F32Mul,
        ensures
            old(self).stepped(final(self), instr, r),
            interval_rule(instr, old(self).values@, final(self).builder.spec_instrs(), final(self).builder.spec_num_args() as int, r),
    {
        match instr {
            Instr::F32FromI32(src) => {
                let x = self.i32(src);
                let ghost b0 = self.builder;
                let v = f32_instr(&mut self.builder, Instr::F32FromI32(x));
                proof {
                    reveal(rule_of);
                    lemma_pushed_made(b0, self.builder, v, Instr::F32FromI32(x));
                }
                Value::F32(F32Range { lo: v, hi: v })
            },
            Instr::F32FromBool(src) => {
                let x = self.bool(src);
                match x.definite() {
                    Some(v) => {
                        let ghost b0 = self.builder;
                        let v = f32_instr(&mut self.builder, Instr::F32FromBool(v));
                        proof {
                            reveal(rule_of);
                            lemma_pushed_made(b0, self.builder, v, Instr::F32FromBool(x.all));
                        }
                        Value::F32(F32Range { lo: v, hi: v })
                    },
                    None => {
                        let ghost b0 = self.builder;
                        let lo = f32_instr(&mut self.builder, Instr::F32FromBool(x.all));
                        let ghost b1 = self.builder;
                        let hi = f32_instr(&mut self.builder, Instr::F32FromBool(x.any));
                        proof {
                            reveal(rule_of);
                            lemma_two_made(b0, b1, self.builder, lo, Instr::F32FromBool(x.all), hi, Instr::F32FromBool(x.any));
                        }
                        Value::F32(F32Range { lo, hi })
                    },
                }
            },
            Instr::F32Mul(lhs, rhs) => {
                let (x, y) = (self.f32_range(lhs), self.f32_range(rhs));
                let ghost b0 = self.builder;
                let r = mul_range(&mut self.builder, x, y);
                proof {
                    reveal(rule_of);
                    let s0 = b0.spec_instrs().len() as int;
                    let n = self.builder.spec_num_args() as int;
                    lemma_mul_block_len(x, y, n + s0);
                    assert(self.builder.spec_instrs().subrange(s0, s0 + 10) =~= mul_block(x, y, n + s0));
                    assert(mul_at(self.builder.spec_instrs(), n, x, y, Value::F32(r), s0));
                }
                Value::F32(r)
            },
            _ => {
                proof {
                    assert(false);
                }
                Value::I32(ValueId::new(0))
            },
        }
    }

    /// Translates an arithmetic instruction whose range is its operation on each bound.
    #[verifier::rlimit(100)]
    fn translate_bounds(&mut self, instr: Instr) -> (r: Value)
        requires
            old(self).ready(instr),
            is_arith(instr),
            !(instr is F32FromI32 || instr is F32FromBool || instr is F32Mul || instr is F32Abs || instr is F32Powf
                || instr is F32Div || instr is F32Powi),
        ensures
            old(self).stepped(final(self), instr, r),
            interval_rule(instr, old(self).values@, final(self).builder.spec_instrs(), final(self).builder.spec_num_args() as int, r),
    {
        match instr {
            Instr::F32Neg(src) => {
                let x = self.f32_range(src);
                let ghost b0 = self.builder;
                let lo = f32_instr(&mut self.builder, Instr::F32Neg(x.lo));
                let ghost b1 = self.builder;
                let hi = f32_instr(&mut self.builder, Instr::F32Neg(x.hi));
                proof {
                    reveal(rule_of);
                    lemma_two_made(b0, b1, self.builder, lo, Instr::F32Neg(x.lo), hi, Instr::F32Neg(x.hi));
                    
                    
                }
                Value::F32(F32Range { lo: hi, hi: lo })
            },
            Instr::F32Sign(src) => {
                let x = self.f32_range(src);
                let ghost b0 = self.builder;
                let lo = f32_instr(&mut self.builder, Instr::F32Sign(x.lo));
                let ghost b1 = self.builder;
                let hi = f32_instr(&mut self.builder, Instr::F32Sign(x.hi));
                proof {
                    reveal(rule_of);
                    lemma_two_made(b0, b1, self.builder, lo, Instr::F32Sign(x.lo), hi, Instr::F32Sign(x.hi));
                }
                Value::F32(F32Range { lo, hi })
            },
            Instr::F32Floor(src) => {
                let x = self.f32_range(src);
                let ghost b0 = self.builder;
                let lo = f32_instr(&mut self.builder, Instr::F32Floor(x.lo));
                let ghost b1 = self.builder;
                let hi = f32_instr(&mut self.builder, Instr::F32Floor(x.hi));
                proof {
                    reveal(rule_of);
                    lemma_two_made(b0, b1, self.builder, lo, Instr::F32Floor(x.lo), hi, Instr::F32Floor(x.hi));
                }
                Value::F32(F32Range { lo, hi })
            },
            Instr::F32Add(lhs, rhs) => {
                let (x, y) = (self.f32_range(lhs), self.f32_range(rhs));
                let ghost b0 = self.builder;
                let lo = f32_add(&mut self.builder, x.lo, y.lo);
                let ghost b1 = self.builder;
                let hi = f32_add(&mut self.builder, x.hi, y.hi);
                proof {
                    reveal(rule_of);
                    lemma_two_made(b0, b1, self.builder, lo, Instr::F32Add(x.lo, y.lo), hi, Instr::F32Add(x.hi, y.hi));
                }
                Value::F32(F32Range { lo, hi })
            },
            Instr::F32Sub(lhs, rhs) => {
                let (x, y) = (self.f32_range(lhs), self.f32_range(rhs));
                let ghost b0 = self.builder;
                let lo = f32_sub(&mut self.builder, x.lo, y.hi);
                let ghost b1 = self.builder;
                let hi = f32_sub(&mut self.builder, x.hi, y.lo);
                proof {
                    reveal(rule_of);
                    lemma_two_made(b0, b1, self.builder, lo, Instr::F32Sub(x.lo, y.hi), hi, Instr::F32Sub(x.hi, y.lo));
                }
                Value::F32(F32Range { lo, hi })
            },
            Instr::F32Min(lhs, rhs) => {
                let (x, y) = (self.f32_range(lhs), self.f32_range(rhs));
                let ghost b0 = self.builder;
                let lo = min(&mut self.builder, x.lo, y.lo);
                let ghost b1 = self.builder;
                let hi = min(&mut self.builder, x.hi, y.hi);
                proof {
                    reveal(rule_of);
                    lemma_two_made(b0, b1, self.builder, lo, Instr::F32Min(x.lo, y.lo), hi, Instr::F32Min(x.hi, y.hi));
                }
                Value::F32(F32Range { lo, hi })
            },
            Instr::F32Max(lhs, rhs) => {
                let (x, y) = (self.f32_range(lhs), self.f32_range(rhs));
                let ghost b0 = self.builder;
                let lo = max(&mut self.builder, x.lo, y.lo);
                let ghost b1 = self.builder;
                let hi = max(&mut self.builder, x.hi, y.hi);
                proof {
                    reveal(rule_of);
                    lemma_two_made(b0, b1, self.builder, lo, Instr::F32Max(x.lo, y.lo), hi, Instr::F32Max(x.hi, y.hi));
                }
                Value::F32(F32Range { lo, hi })
            },
            _ => {
                proof {
                    assert(false);
                }
                Value::I32(ValueId::new(0))
            },
        }
    }

    /// Translates an exponential, logarithmic or trigonometric instruction.
    #[verifier::rlimit(50)]
    fn translate_transcendental(&mut self, instr: Instr) -> (r: Value)
        requires
            old(self).ready(instr),
            is_transcendental(instr),
        ensures
            old(self).stepped(final(self), instr, r),
            interval_rule(instr, old(self).values@, final(self).builder.spec_instrs(), final(self).builder.spec_num_args() as int, r),
    {
        match instr {
            Instr::F32Exp(src) => {
                let x = self.f32_range(src);
                let ghost b0 = self.builder;
                let lo = f32_instr(&mut self.builder, Instr::F32Exp(x.lo));
                let ghost b1 = self.builder;
                let hi = f32_instr(&mut self.builder, Instr::F32Exp(x.hi));
                proof {
                    reveal(rule_of);
                    lemma_two_made(b0, b1, self.builder, lo, Instr::F32Exp(x.lo), hi, Instr::F32Exp(x.hi));
                }
                Value::F32(F32Range { lo, hi })
            },
            Instr::F32Ln(src) => {
                let x = self.f32_range(src);
                let ghost b0 = self.builder;
                let clamped = ensure_positive_safe(&mut self.builder, x);
                let lo = f32_instr(&mut self.builder, Instr::F32Ln(clamped.lo));
                let hi = f32_instr(&mut self.builder, Instr::F32Ln(clamped.hi));
                proof {
                    reveal(rule_of);
                    let instrs = self.builder.spec_instrs();
                    let tiny = ValueId(b0.spec_values().len() as u16);
                    lemma_made_at(b0, instrs, 0, tiny, Instr::F32Const(MIN_POSITIVE_BITS));
                    lemma_made_at(b0, instrs, 1, clamped.lo, Instr::F32Max(x.lo, tiny));
                    lemma_made_at(b0, instrs, 2, clamped.hi, Instr::F32Max(x.hi, tiny));
                    lemma_made_at(b0, instrs, 3, lo, Instr::F32Ln(clamped.lo));
                    lemma_made_at(b0, instrs, 4, hi, Instr::F32Ln(clamped.hi));
                }
                Value::F32(F32Range { lo, hi })
            },
            Instr::F32Lg(src) => {
                let x = self.f32_range(src);
                let ghost b0 = self.builder;
                let clamped = ensure_positive_safe(&mut self.builder, x);
                let lo = f32_instr(&mut self.builder, Instr::F32Lg(clamped.lo));
                let hi = f32_instr(&mut self.builder, Instr::F32Lg(clamped.hi));
                proof {
                    reveal(rule_of);
                    let instrs = self.builder.spec_instrs();
                    let tiny = ValueId(b0.spec_values().len() as u16);
                    lemma_made_at(b0, instrs, 0, tiny, Instr::F32Const(MIN_POSITIVE_BITS));
                    lemma_made_at(b0, instrs, 1, clamped.lo, Instr::F32Max(x.lo, tiny));
                    lemma_made_at(b0, instrs, 2, clamped.hi, Instr::F32Max(x.hi, tiny));
                    lemma_made_at(b0, instrs, 3, lo, Instr::F32Lg(clamped.lo));
                    lemma_made_at(b0, instrs, 4, hi, Instr::F32Lg(clamped.hi));
                }
                Value::F32(F32Range { lo, hi })
            },
            Instr::F32Sin(_) | Instr::F32Cos(_) | Instr::F32Tan(_) | Instr::F32Cot(_) => self.translate_trig(instr),
            _ => {
                proof {
                    assert(false);
                }
                Value::I32(ValueId::new(0))
            },
        }
    }

    /// Translates a sine, cosine, tangent or cotangent.
    #[verifier::rlimit(100)]
    fn translate_trig(&mut self, instr: Instr) -> (r: Value)
        requires
            old(self).ready(instr),
            instr is F32Sin || instr is F32Cos || instr is F32Tan || instr is F32Cot,
        ensures
            old(self).stepped(final(self), instr, r),
            interval_rule(instr, old(self).values@, final(self).builder.spec_instrs(), final(self).builder.spec_num_args() as int, r),
    {
        match instr {
            Instr::F32Sin(src) => {
                let x = self.f32_range(src);
                let ghost b0 = self.builder;
                let a = f32_instr(&mut self.builder, Instr::F32Sin(x.lo));
                let c = f32_instr(&mut self.builder, Instr::F32Sin(x.hi));
                let range = f32_hull(&mut self.builder, a, c);
                let z = normalized_periodic_wave(
                    &mut self.builder,
                    x,
                    range,
                    FRAC_PI_2_BITS,
                    FRAC_PI_2_PLUS_PI_BITS,
                    RECIP_TWO_PI_BITS,
                );
                proof {
                    reveal(rule_of);
                    let instrs = self.builder.spec_instrs();
                    let k = self.builder.spec_num_args() as int;
                    let s0 = b0.spec_instrs().len() as int;
                    assert(range == hull_at(k + s0));
                    assert(instrs.subrange(s0, s0 + 30) =~= hull_block(Instr::F32Sin(x.lo), Instr::F32Sin(x.hi), k + s0) + wave_tail(x, hull_at(k + s0), FRAC_PI_2_BITS, FRAC_PI_2_PLUS_PI_BITS, RECIP_TWO_PI_BITS, k + s0 + 4));
                    assert(wave_at(instrs, k, instr, x, Value::F32(z), s0));
                    assert(trig_rule(instr, self.values@, instrs, k, Value::F32(z)));
                }
                Value::F32(z)
            },
            Instr::F32Cos(src) => {
                let x = self.f32_range(src);
                let ghost b0 = self.builder;
                let a = f32_instr(&mut self.builder, Instr::F32Cos(x.lo));
                let c = f32_instr(&mut self.builder, Instr::F32Cos(x.hi));
                let range = f32_hull(&mut self.builder, a, c);
                let z = normalized_periodic_wave(&mut self.builder, x, range, ZERO_BITS, PI_BITS, RECIP_TWO_PI_BITS);
                proof {
                    reveal(rule_of);
                    let instrs = self.builder.spec_instrs();
                    let k = self.builder.spec_num_args() as int;
                    let s0 = b0.spec_instrs().len() as int;
                    assert(range == hull_at(k + s0));
                    assert(instrs.subrange(s0, s0 + 30) =~= hull_block(Instr::F32Cos(x.lo), Instr::F32Cos(x.hi), k + s0) + wave_tail(x, hull_at(k + s0), ZERO_BITS, PI_BITS, RECIP_TWO_PI_BITS, k + s0 + 4));
                    assert(wave_at(instrs, k, instr, x, Value::F32(z), s0));
                    assert(trig_rule(instr, self.values@, instrs, k, Value::F32(z)));
                }
                Value::F32(z)
            },
            Instr::F32Tan(src) => {
                let x = self.f32_range(src);
                let ghost b0 = self.builder;
                let a = f32_instr(&mut self.builder, Instr::F32Tan(x.lo));
                let c = f32_instr(&mut self.builder, Instr::F32Tan(x.hi));
                let range = f32_hull(&mut self.builder, a, c);
                let z = periodic_monotone(&mut self.builder, x, range, FRAC_PI_2_BITS, RECIP_PI_BITS);
                proof {
                    reveal(rule_of);
                    let instrs = self.builder.spec_instrs();
                    let k = self.builder.spec_num_args() as int;
                    let s0 = b0.spec_instrs().len() as int;
                    assert(range == hull_at(k + s0));
                    assert(instrs.subrange(s0, s0 + 19) =~= hull_block(Instr::F32Tan(x.lo), Instr::F32Tan(x.hi), k + s0) + pole_tail(x, hull_at(k + s0), FRAC_PI_2_BITS, RECIP_PI_BITS, k + s0 + 4));
                    assert(pole_at(instrs, k, instr, x, Value::F32(z), s0));
                    assert(trig_rule(instr, self.values@, instrs, k, Value::F32(z)));
                }
                Value::F32(z)
            },
            Instr::F32Cot(src) => {
                let x = self.f32_range(src);
                let ghost b0 = self.builder;
                let a = f32_instr(&mut self.builder, Instr::F32Cot(x.lo));
                let c = f32_instr(&mut self.builder, Instr::F32Cot(x.hi));
                let range = f32_hull(&mut self.builder, a, c);
                let z = periodic_monotone(&mut self.builder, x, range, ZERO_BITS, RECIP_PI_BITS);
                proof {
                    reveal(rule_of);
                    let instrs = self.builder.spec_instrs();
                    let k = self.builder.spec_num_args() as int;
                    let s0 = b0.spec_instrs().len() as int;
                    assert(range == hull_at(k + s0));
                    assert(instrs.subrange(s0, s0 + 19) =~= hull_block(Instr::F32Cot(x.lo), Instr::F32Cot(x.hi), k + s0) + pole_tail(x, hull_at(k + s0), ZERO_BITS, RECIP_PI_BITS, k + s0 + 4));
                    assert(pole_at(instrs, k, instr, x, Value::F32(z), s0));
                    assert(trig_rule(instr, self.values@, instrs, k, Value::F32(z)));
                }
                Value::F32(z)
            },
            _ => {
                proof {
                    assert(false);
                }
                Value::I32(ValueId::new(0))
            },
        }
    }

    /// Translates an `f32` comparison or an `f32` selection.
    #[verifier::rlimit(50)]
    fn translate_compare(&mut self, instr: Instr) -> (r: Value)
        requires
            old(self).ready(instr),
            is_compare(instr),
        ensures
            old(self).stepped(final(self), instr, r),
            interval_rule(instr, old(self).values@, final(self).builder.spec_instrs(), final(self).builder.spec_num_args() as int, r),
    {
        match instr {
            Instr::F32Eq(lhs, rhs) => {
                let (x, y) = (self.f32_range(lhs), self.f32_range(rhs));
                let e = f32_eq(&mut self.builder, x, y);
                proof {
                    reveal(rule_of);
                }
                Value::Bool(e)
            },
            Instr::F32Ne(lhs, rhs) => {
                let (x, y) = (self.f32_range(lhs), self.f32_range(rhs));
                let eq = f32_eq(&mut self.builder, x, y);
                let ghost mid = self.builder.spec_instrs();
                let ne = bool_not(&mut self.builder, eq);
                proof {
                    reveal(rule_of);
                    let instrs = self.builder.spec_instrs();
                    let n = self.builder.spec_num_args() as int;
                    assert(op_at(instrs, n, ne.all) == Some(Instr::Not(eq.any)));
                    assert(op_at(instrs, n, ne.any) == Some(Instr::Not(eq.all)));
                    assert(forall|i: int| 0 <= i < mid.len() ==> instrs[i] == mid[i]);
                    lemma_eq_range_grow(mid, instrs, n, x, y, eq);
                }
                Value::Bool(ne)
            },
            Instr::F32Lt(_, _) | Instr::F32Le(_, _) | Instr::F32Gt(_, _) | Instr::F32Ge(_, _) => self.translate_order(instr),
            Instr::F32Sel(cond, v_true, v_false) => {
                let c = self.bool(cond);
                let (t, f) = (self.f32_range(v_true), self.f32_range(v_false));
                let ghost b0 = self.builder;
                proof {
                    reveal(rule_of);
                }
                match c.definite() {
                    Some(known) => {
                        let z = select_range(&mut self.builder, known, t, f);
                        proof {
                            let instrs = self.builder.spec_instrs();
                            lemma_made_at(b0, instrs, 0, z.lo, Instr::F32Sel(known, t.lo, f.lo));
                            lemma_made_at(b0, instrs, 1, z.hi, Instr::F32Sel(known, t.hi, f.hi));
                        }
                        Value::F32(z)
                    },
                    None => {
                        // An undecided condition yields the hull of both branches.
                        let lo = min(&mut self.builder, t.lo, f.lo);
                        let hi = max(&mut self.builder, t.hi, f.hi);
                        let unless_true = select_range(&mut self.builder, c.any, F32Range { lo, hi }, f);
                        let z = select_range(&mut self.builder, c.all, t, unless_true);
                        proof {
                            let instrs = self.builder.spec_instrs();
                            let n = self.builder.spec_num_args() as int;
                            lemma_made_at(b0, instrs, 0, lo, Instr::F32Min(t.lo, f.lo));
                            lemma_made_at(b0, instrs, 1, hi, Instr::F32Max(t.hi, f.hi));
                            lemma_made_at(b0, instrs, 2, unless_true.lo, Instr::F32Sel(c.any, lo, f.lo));
                            lemma_made_at(b0, instrs, 3, unless_true.hi, Instr::F32Sel(c.any, hi, f.hi));
                            lemma_made_at(b0, instrs, 4, z.lo, Instr::F32Sel(c.all, t.lo, unless_true.lo));
                            lemma_made_at(b0, instrs, 5, z.hi, Instr::F32Sel(c.all, t.hi, unless_true.hi));
                            assert(nested_select(instrs, n, z.lo, c.all, t.lo, c.any, Instr::F32Min(t.lo, f.lo), f.lo));
                            assert(nested_select(instrs, n, z.hi, c.all, t.hi, c.any, Instr::F32Max(t.hi, f.hi), f.hi));
                        }
                        Value::F32(z)
                    },
                }
            },

            _ => {
                proof {
                    assert(false);
                }
                Value::I32(ValueId::new(0))
            },
        }
    }

    /// Translates an order comparison of `f32` ranges.
    #[verifier::rlimit(100)]
    fn translate_order(&mut self, instr: Instr) -> (r: Value)
        requires
            old(self).ready(instr),
            instr is F32Lt || instr is F32Le || instr is F32Gt || instr is F32Ge,
        ensures
            old(self).stepped(final(self), instr, r),
            interval_rule(instr, old(self).values@, final(self).builder.spec_instrs(), final(self).builder.spec_num_args() as int, r),
    {
        match instr {
            Instr::F32Lt(lhs, rhs) => {
                let (x, y) = (self.f32_range(lhs), self.f32_range(rhs));
                let ghost b0 = self.builder;
                let c = f32_lt(&mut self.builder, x, y);
                proof {
                    reveal(rule_of);
                    lemma_made_at(b0, self.builder.spec_instrs(), 0, c.all, Instr::F32Lt(x.hi, y.lo));
                    lemma_made_at(b0, self.builder.spec_instrs(), 1, c.any, Instr::F32Lt(x.lo, y.hi));
                }
                Value::Bool(c)
            },
            Instr::F32Le(lhs, rhs) => {
                let (x, y) = (self.f32_range(lhs), self.f32_range(rhs));
                let ghost b0 = self.builder;
                let c = f32_le(&mut self.builder, x, y);
                proof {
                    reveal(rule_of);
                    lemma_made_at(b0, self.builder.spec_instrs(), 0, c.all, Instr::F32Le(x.hi, y.lo));
                    lemma_made_at(b0, self.builder.spec_instrs(), 1, c.any, Instr::F32Le(x.lo, y.hi));
                }
                Value::Bool(c)
            },
            Instr::F32Gt(lhs, rhs) => {
                let (x, y) = (self.f32_range(lhs), self.f32_range(rhs));
                let ghost b0 = self.builder;
                let c = f32_lt(&mut self.builder, y, x);
                proof {
                    reveal(rule_of);
                    lemma_made_at(b0, self.builder.spec_instrs(), 0, c.all, Instr::F32Lt(y.hi, x.lo));
                    lemma_made_at(b0, self.builder.spec_instrs(), 1, c.any, Instr::F32Lt(y.lo, x.hi));
                }
                Value::Bool(c)
            },
            Instr::F32Ge(lhs, rhs) => {
                let (x, y) = (self.f32_range(lhs), self.f32_range(rhs));
                let ghost b0 = self.builder;
                let c = f32_le(&mut self.builder, y, x);
                proof {
                    reveal(rule_of);
                    lemma_made_at(b0, self.builder.spec_instrs(), 0, c.all, Instr::F32Le(y.hi, x.lo));
                    lemma_made_at(b0, self.builder.spec_instrs(), 1, c.any, Instr::F32Le(y.lo, x.hi));
                }
                Value::Bool(c)
            },
            _ => {
                proof {
                    assert(false);
                }
                Value::I32(ValueId::new(0))
            },
        }
    }
}

} // verus!
