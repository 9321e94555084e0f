//! The instruction tape that programs compile to: straight-line code in which each
//! instruction defines one new value from values defined before it.
use vstd::prelude::*;

verus! {

broadcast use vstd::seq_lib::group_seq_properties;

/// The type of a tape value.
#[derive(Copy, Clone, PartialEq, Eq, Structural, Debug)]
pub enum Type {
    I32,
    Bool,
    F32,
}

/// The id of a tape value: the arguments come first, then one value per instruction.
#[derive(Copy, Clone, PartialEq, Eq, Structural, Debug)]
pub struct ValueId(pub u16);

impl ValueId {
    pub fn new(raw_id: u16) -> (r: ValueId)
        ensures
            r.0 == raw_id,
    {
        ValueId(raw_id)
    }

    pub open spec fn spec_shift(self, delta: u16) -> ValueId {
        ValueId((self.0 + delta) as u16)
    }

    pub fn shift_ids(self, delta: u16) -> (r: ValueId)
        requires
            self.0 + delta <= u16::MAX,
        ensures
            r == self.spec_shift(delta),
            r.0 == self.0 + delta,
    {
        ValueId::new(self.0 + delta)
    }

    /// The index of the value in the tape.
    pub fn index(self) -> (r: usize)
        ensures
            r == self.0,
    {
        self.0 as usize
    }
}

#[derive(Copy, Clone, PartialEq, Eq, Structural, Debug)]
pub enum Instr {
    I32Const(i32),
    BoolConst(bool),
    F32Const(u32),
    CopyI32(ValueId),
    CopyBool(ValueId),
    CopyF32(ValueId),
    I32Add(ValueId, ValueId),
    I32Sub(ValueId, ValueId),
    I32Mul(ValueId, ValueId),
    I32Eq(ValueId, ValueId),
    I32Ne(ValueId, ValueId),
    I32Lt(ValueId, ValueId),
    I32Le(ValueId, ValueId),
    I32Gt(ValueId, ValueId),
    I32Ge(ValueId, ValueId),
    Not(ValueId),
    And(ValueId, ValueId),
    Or(ValueId, ValueId),
    Xor(ValueId, ValueId),
    I32FromBool(ValueId),
    F32FromI32(ValueId),
    F32FromBool(ValueId),
    F32Neg(ValueId),
    F32Abs(ValueId),
    F32Sign(ValueId),
    F32Floor(ValueId),
    F32Add(ValueId, ValueId),
    F32Sub(ValueId, ValueId),
    F32Mul(ValueId, ValueId),
    F32Div(ValueId, ValueId),
    F32Min(ValueId, ValueId),
    F32Max(ValueId, ValueId),
    F32Powf(ValueId, ValueId),
    F32Powi(ValueId, ValueId),
    F32Exp(ValueId),
    F32Ln(ValueId),
    F32Lg(ValueId),
    F32Sin(ValueId),
    F32Cos(ValueId),
    F32Tan(ValueId),
    F32Cot(ValueId),
    F32Eq(ValueId, ValueId),
    F32Ne(ValueId, ValueId),
    F32Lt(ValueId, ValueId),
    F32Le(ValueId, ValueId),
    F32Gt(ValueId, ValueId),
    F32Ge(ValueId, ValueId),
    I32Sel(ValueId, ValueId, ValueId),
    F32Sel(ValueId, ValueId, ValueId),
}

impl Instr {
    pub open spec fn spec_result_type(self) -> Type {
        match self {
            Instr::I32Const(_) => Type::I32,
            Instr::BoolConst(_) => Type::Bool,
            Instr::F32Const(_) => Type::F32,
            Instr::CopyI32(_) => Type::I32,
            Instr::CopyBool(_) => Type::Bool,
            Instr::CopyF32(_) => Type::F32,
            Instr::I32Add(_, _) => Type::I32,
            Instr::I32Sub(_, _) => Type::I32,
            Instr::I32Mul(_, _) => Type::I32,
            Instr::I32Eq(_, _) => Type::Bool,
            Instr::I32Ne(_, _) => Type::Bool,
            Instr::I32Lt(_, _) => Type::Bool,
            Instr::I32Le(_, _) => Type::Bool,
            Instr::I32Gt(_, _) => Type::Bool,
            Instr::I32Ge(_, _) => Type::Bool,
            Instr::Not(_) => Type::Bool,
            Instr::And(_, _) => Type::Bool,
            Instr::Or(_, _) => Type::Bool,
            Instr::Xor(_, _) => Type::Bool,
            Instr::I32FromBool(_) => Type::I32,
            Instr::F32FromI32(_) => Type::F32,
            Instr::F32FromBool(_) => Type::F32,
            Instr::F32Neg(_) => Type::F32,
            Instr::F32Abs(_) => Type::F32,
            Instr::F32Sign(_) => Type::F32,
            Instr::F32Floor(_) => Type::F32,
            Instr::F32Add(_, _) => Type::F32,
            Instr::F32Sub(_, _) => Type::F32,
            Instr::F32Mul(_, _) => Type::F32,
            Instr::F32Div(_, _) => Type::F32,
            Instr::F32Min(_, _) => Type::F32,
            Instr::F32Max(_, _) => Type::F32,
            Instr::F32Powf(_, _) => Type::F32,
            Instr::F32Powi(_, _) => Type::F32,
            Instr::F32Exp(_) => Type::F32,
            Instr::F32Ln(_) => Type::F32,
            Instr::F32Lg(_) => Type::F32,
            Instr::F32Sin(_) => Type::F32,
            Instr::F32Cos(_) => Type::F32,
            Instr::F32Tan(_) => Type::F32,
            Instr::F32Cot(_) => Type::F32,
            Instr::F32Eq(_, _) => Type::Bool,
            Instr::F32Ne(_, _) => Type::Bool,
            Instr::F32Lt(_, _) => Type::Bool,
            Instr::F32Le(_, _) => Type::Bool,
            Instr::F32Gt(_, _) => Type::Bool,
            Instr::F32Ge(_, _) => Type::Bool,
            Instr::I32Sel(_, _, _) => Type::I32,
            Instr::F32Sel(_, _, _) => Type::F32,
        }
    }

    /// The values that the instruction reads, each with the type it expects.
    pub open spec fn operands(self) -> Seq<(ValueId, Type)> {
        match self {
            Instr::I32Const(_) => Seq::empty(),
            Instr::BoolConst(_) => Seq::empty(),
            Instr::F32Const(_) => Seq::empty(),
            Instr::CopyI32(a) => seq![(a, Type::I32)],
            Instr::CopyBool(a) => seq![(a, Type::Bool)],
            Instr::CopyF32(a) => seq![(a, Type::F32)],
            Instr::I32Add(a, b) => seq![(a, Type::I32), (b, Type::I32)],
            Instr::I32Sub(a, b) => seq![(a, Type::I32), (b, Type::I32)],
            Instr::I32Mul(a, b) => seq![(a, Type::I32), (b, Type::I32)],
            Instr::I32Eq(a, b) => seq![(a, Type::I32), (b, Type::I32)],
            Instr::I32Ne(a, b) => seq![(a, Type::I32), (b, Type::I32)],
            Instr::I32Lt(a, b) => seq![(a, Type::I32), (b, Type::I32)],
            Instr::I32Le(a, b) => seq![(a, Type::I32), (b, Type::I32)],
            Instr::I32Gt(a, b) => seq![(a, Type::I32), (b, Type::I32)],
            Instr::I32Ge(a, b) => seq![(a, Type::I32), (b, Type::I32)],
            Instr::Not(a) => seq![(a, Type::Bool)],
            Instr::And(a, b) => seq![(a, Type::Bool), (b, Type::Bool)],
            Instr::Or(a, b) => seq![(a, Type::Bool), (b, Type::Bool)],
            Instr::Xor(a, b) => seq![(a, Type::Bool), (b, Type::Bool)],
            Instr::I32FromBool(a) => seq![(a, Type::Bool)],
            Instr::F32FromI32(a) => seq![(a, Type::I32)],
            Instr::F32FromBool(a) => seq![(a, Type::Bool)],
            Instr::F32Neg(a) => seq![(a, Type::F32)],
            Instr::F32Abs(a) => seq![(a, Type::F32)],
            Instr::F32Sign(a) => seq![(a, Type::F32)],
            Instr::F32Floor(a) => seq![(a, Type::F32)],
            Instr::F32Add(a, b) => seq![(a, Type::F32), (b, Type::F32)],
            Instr::F32Sub(a, b) => seq![(a, Type::F32), (b, Type::F32)],
            Instr::F32Mul(a, b) => seq![(a, Type::F32), (b, Type::F32)],
            Instr::F32Div(a, b) => seq![(a, Type::F32), (b, Type::F32)],
            Instr::F32Min(a, b) => seq![(a, Type::F32), (b, Type::F32)],
            Instr::F32Max(a, b) => seq![(a, Type::F32), (b, Type::F32)],
            Instr::F32Powf(a, b) => seq![(a, Type::F32), (b, Type::F32)],
            Instr::F32Powi(a, b) => seq![(a, Type::F32), (b, Type::I32)],
            Instr::F32Exp(a) => seq![(a, Type::F32)],
            Instr::F32Ln(a) => seq![(a, Type::F32)],
            Instr::F32Lg(a) => seq![(a, Type::F32)],
            Instr::F32Sin(a) => seq![(a, Type::F32)],
            Instr::F32Cos(a) => seq![(a, Type::F32)],
            Instr::F32Tan(a) => seq![(a, Type::F32)],
            Instr::F32Cot(a) => seq![(a, Type::F32)],
            Instr::F32Eq(a, b) => seq![(a, Type::F32), (b, Type::F32)],
            Instr::F32Ne(a, b) => seq![(a, Type::F32), (b, Type::F32)],
            Instr::F32Lt(a, b) => seq![(a, Type::F32), (b, Type::F32)],
            Instr::F32Le(a, b) => seq![(a, Type::F32), (b, Type::F32)],
            Instr::F32Gt(a, b) => seq![(a, Type::F32), (b, Type::F32)],
            Instr::F32Ge(a, b) => seq![(a, Type::F32), (b, Type::F32)],
            Instr::I32Sel(a, b, c) => seq![(a, Type::Bool), (b, Type::I32), (c, Type::I32)],
            Instr::F32Sel(a, b, c) => seq![(a, Type::Bool), (b, Type::F32), (c, Type::F32)],
        }
    }

    pub fn result_type(&self) -> (r: Type)
        ensures
            r == self.spec_result_type(),
    {
        match self {
            Instr::I32Const(_) => Type::I32,
            Instr::BoolConst(_) => Type::Bool,
            Instr::F32Const(_) => Type::F32,
            Instr::CopyI32(_) => Type::I32,
            Instr::CopyBool(_) => Type::Bool,
            Instr::CopyF32(_) => Type::F32,
            Instr::I32Add(_, _) => Type::I32,
            Instr::I32Sub(_, _) => Type::I32,
            Instr::I32Mul(_, _) => Type::I32,
            Instr::I32Eq(_, _) => Type::Bool,
            Instr::I32Ne(_, _) => Type::Bool,
            Instr::I32Lt(_, _) => Type::Bool,
            Instr::I32Le(_, _) => Type::Bool,
            Instr::I32Gt(_, _) => Type::Bool,
            Instr::I32Ge(_, _) => Type::Bool,
            Instr::Not(_) => Type::Bool,
            Instr::And(_, _) => Type::Bool,
            Instr::Or(_, _) => Type::Bool,
            Instr::Xor(_, _) => Type::Bool,
            Instr::I32FromBool(_) => Type::I32,
            Instr::F32FromI32(_) => Type::F32,
            Instr::F32FromBool(_) => Type::F32,
            Instr::F32Neg(_) => Type::F32,
            Instr::F32Abs(_) => Type::F32,
            Instr::F32Sign(_) => Type::F32,
            Instr::F32Floor(_) => Type::F32,
            Instr::F32Add(_, _) => Type::F32,
            Instr::F32Sub(_, _) => Type::F32,
            Instr::F32Mul(_, _) => Type::F32,
            Instr::F32Div(_, _) => Type::F32,
            Instr::F32Min(_, _) => Type::F32,
            Instr::F32Max(_, _) => Type::F32,
            Instr::F32Powf(_, _) => Type::F32,
            Instr::F32Powi(_, _) => Type::F32,
            Instr::F32Exp(_) => Type::F32,
            Instr::F32Ln(_) => Type::F32,
            Instr::F32Lg(_) => Type::F32,
            Instr::F32Sin(_) => Type::F32,
            Instr::F32Cos(_) => Type::F32,
            Instr::F32Tan(_) => Type::F32,
            Instr::F32Cot(_) => Type::F32,
            Instr::F32Eq(_, _) => Type::Bool,
            Instr::F32Ne(_, _) => Type::Bool,
            Instr::F32Lt(_, _) => Type::Bool,
            Instr::F32Le(_, _) => Type::Bool,
            Instr::F32Gt(_, _) => Type::Bool,
            Instr::F32Ge(_, _) => Type::Bool,
            Instr::I32Sel(_, _, _) => Type::I32,
            Instr::F32Sel(_, _, _) => Type::F32,
        }
    }

    /// The operands of the instruction, in order, with their expected types.
    pub fn operand_list(&self) -> (r: Vec<(ValueId, Type)>)
        ensures
            r@ == self.operands(),
    {
        let r = match *self {
            Instr::I32Const(_) => Vec::new(),
            Instr::BoolConst(_) => Vec::new(),
            Instr::F32Const(_) => Vec::new(),
            Instr::CopyI32(a) => vec![(a, Type::I32)],
            Instr::CopyBool(a) => vec![(a, Type::Bool)],
            Instr::CopyF32(a) => vec![(a, Type::F32)],
            Instr::I32Add(a, b) => vec![(a, Type::I32), (b, Type::I32)],
            Instr::I32Sub(a, b) => vec![(a, Type::I32), (b, Type::I32)],
            Instr::I32Mul(a, b) => vec![(a, Type::I32), (b, Type::I32)],
            Instr::I32Eq(a, b) => vec![(a, Type::I32), (b, Type::I32)],
            Instr::I32Ne(a, b) => vec![(a, Type::I32), (b, Type::I32)],
            Instr::I32Lt(a, b) => vec![(a, Type::I32), (b, Type::I32)],
            Instr::I32Le(a, b) => vec![(a, Type::I32), (b, Type::I32)],
            Instr::I32Gt(a, b) => vec![(a, Type::I32), (b, Type::I32)],
            Instr::I32Ge(a, b) => vec![(a, Type::I32), (b, Type::I32)],
            Instr::Not(a) => vec![(a, Type::Bool)],
            Instr::And(a, b) => vec![(a, Type::Bool), (b, Type::Bool)],
            Instr::Or(a, b) => vec![(a, Type::Bool), (b, Type::Bool)],
            Instr::Xor(a, b) => vec![(a, Type::Bool), (b, Type::Bool)],
            Instr::I32FromBool(a) => vec![(a, Type::Bool)],
            Instr::F32FromI32(a) => vec![(a, Type::I32)],
            Instr::F32FromBool(a) => vec![(a, Type::Bool)],
            Instr::F32Neg(a) => vec![(a, Type::F32)],
            Instr::F32Abs(a) => vec![(a, Type::F32)],
            Instr::F32Sign(a) => vec![(a, Type::F32)],
            Instr::F32Floor(a) => vec![(a, Type::F32)],
            Instr::F32Add(a, b) => vec![(a, Type::F32), (b, Type::F32)],
            Instr::F32Sub(a, b) => vec![(a, Type::F32), (b, Type::F32)],
            Instr::F32Mul(a, b) => vec![(a, Type::F32), (b, Type::F32)],
            Instr::F32Div(a, b) => vec![(a, Type::F32), (b, Type::F32)],
            Instr::F32Min(a, b) => vec![(a, Type::F32), (b, Type::F32)],
            Instr::F32Max(a, b) => vec![(a, Type::F32), (b, Type::F32)],
            Instr::F32Powf(a, b) => vec![(a, Type::F32), (b, Type::F32)],
            Instr::F32Powi(a, b) => vec![(a, Type::F32), (b, Type::I32)],
            Instr::F32Exp(a) => vec![(a, Type::F32)],
            Instr::F32Ln(a) => vec![(a, Type::F32)],
            Instr::F32Lg(a) => vec![(a, Type::F32)],
            Instr::F32Sin(a) => vec![(a, Type::F32)],
            Instr::F32Cos(a) => vec![(a, Type::F32)],
            Instr::F32Tan(a) => vec![(a, Type::F32)],
            Instr::F32Cot(a) => vec![(a, Type::F32)],
            Instr::F32Eq(a, b) => vec![(a, Type::F32), (b, Type::F32)],
            Instr::F32Ne(a, b) => vec![(a, Type::F32), (b, Type::F32)],
            Instr::F32Lt(a, b) => vec![(a, Type::F32), (b, Type::F32)],
            Instr::F32Le(a, b) => vec![(a, Type::F32), (b, Type::F32)],
            Instr::F32Gt(a, b) => vec![(a, Type::F32), (b, Type::F32)],
            Instr::F32Ge(a, b) => vec![(a, Type::F32), (b, Type::F32)],
            Instr::I32Sel(a, b, c) => vec![(a, Type::Bool), (b, Type::I32), (c, Type::I32)],
            Instr::F32Sel(a, b, c) => vec![(a, Type::Bool), (b, Type::F32), (c, Type::F32)],
        };
        r
    }

    pub open spec fn spec_shift_ids(self, delta: u16) -> Instr {
        match self {
            Instr::I32Const(_) => self,
            Instr::BoolConst(_) => self,
            Instr::F32Const(_) => self,
            Instr::CopyI32(a) => Instr::CopyI32(a.spec_shift(delta)),
            Instr::CopyBool(a) => Instr::CopyBool(a.spec_shift(delta)),
            Instr::CopyF32(a) => Instr::CopyF32(a.spec_shift(delta)),
            Instr::I32Add(a, b) => Instr::I32Add(a.spec_shift(delta), b.spec_shift(delta)),
            Instr::I32Sub(a, b) => Instr::I32Sub(a.spec_shift(delta), b.spec_shift(delta)),
            Instr::I32Mul(a, b) => Instr::I32Mul(a.spec_shift(delta), b.spec_shift(delta)),
            Instr::I32Eq(a, b) => Instr::I32Eq(a.spec_shift(delta), b.spec_shift(delta)),
            Instr::I32Ne(a, b) => Instr::I32Ne(a.spec_shift(delta), b.spec_shift(delta)),
            Instr::I32Lt(a, b) => Instr::I32Lt(a.spec_shift(delta), b.spec_shift(delta)),
            Instr::I32Le(a, b) => Instr::I32Le(a.spec_shift(delta), b.spec_shift(delta)),
            Instr::I32Gt(a, b) => Instr::I32Gt(a.spec_shift(delta), b.spec_shift(delta)),
            Instr::I32Ge(a, b) => Instr::I32Ge(a.spec_shift(delta), b.spec_shift(delta)),
            Instr::Not(a) => Instr::Not(a.spec_shift(delta)),
            Instr::And(a, b) => Instr::And(a.spec_shift(delta), b.spec_shift(delta)),
            Instr::Or(a, b) => Instr::Or(a.spec_shift(delta), b.spec_shift(delta)),
            Instr::Xor(a, b) => Instr::Xor(a.spec_shift(delta), b.spec_shift(delta)),
            Instr::I32FromBool(a) => Instr::I32FromBool(a.spec_shift(delta)),
            Instr::F32FromI32(a) => Instr::F32FromI32(a.spec_shift(delta)),
            Instr::F32FromBool(a) => Instr::F32FromBool(a.spec_shift(delta)),
            Instr::F32Neg(a) => Instr::F32Neg(a.spec_shift(delta)),
            Instr::F32Abs(a) => Instr::F32Abs(a.spec_shift(delta)),
            Instr::F32Sign(a) => Instr::F32Sign(a.spec_shift(delta)),
            Instr::F32Floor(a) => Instr::F32Floor(a.spec_shift(delta)),
            Instr::F32Add(a, b) => Instr::F32Add(a.spec_shift(delta), b.spec_shift(delta)),
            Instr::F32Sub(a, b) => Instr::F32Sub(a.spec_shift(delta), b.spec_shift(delta)),
            Instr::F32Mul(a, b) => Instr::F32Mul(a.spec_shift(delta), b.spec_shift(delta)),
            Instr::F32Div(a, b) => Instr::F32Div(a.spec_shift(delta), b.spec_shift(delta)),
            Instr::F32Min(a, b) => Instr::F32Min(a.spec_shift(delta), b.spec_shift(delta)),
            Instr::F32Max(a, b) => Instr::F32Max(a.spec_shift(delta), b.spec_shift(delta)),
            Instr::F32Powf(a, b) => Instr::F32Powf(a.spec_shift(delta), b.spec_shift(delta)),
            Instr::F32Powi(a, b) => Instr::F32Powi(a.spec_shift(delta), b.spec_shift(delta)),
            Instr::F32Exp(a) => Instr::F32Exp(a.spec_shift(delta)),
            Instr::F32Ln(a) => Instr::F32Ln(a.spec_shift(delta)),
            Instr::F32Lg(a) => Instr::F32Lg(a.spec_shift(delta)),
            Instr::F32Sin(a) => Instr::F32Sin(a.spec_shift(delta)),
            Instr::F32Cos(a) => Instr::F32Cos(a.spec_shift(delta)),
            Instr::F32Tan(a) => Instr::F32Tan(a.spec_shift(delta)),
            Instr::F32Cot(a) => Instr::F32Cot(a.spec_shift(delta)),
            Instr::F32Eq(a, b) => Instr::F32Eq(a.spec_shift(delta), b.spec_shift(delta)),
            Instr::F32Ne(a, b) => Instr::F32Ne(a.spec_shift(delta), b.spec_shift(delta)),
            Instr::F32Lt(a, b) => Instr::F32Lt(a.spec_shift(delta), b.spec_shift(delta)),
            Instr::F32Le(a, b) => Instr::F32Le(a.spec_shift(delta), b.spec_shift(delta)),
            Instr::F32Gt(a, b) => Instr::F32Gt(a.spec_shift(delta), b.spec_shift(delta)),
            Instr::F32Ge(a, b) => Instr::F32Ge(a.spec_shift(delta), b.spec_shift(delta)),
            Instr::I32Sel(a, b, c) => Instr::I32Sel(a.spec_shift(delta), b.spec_shift(delta), c.spec_shift(delta)),
            Instr::F32Sel(a, b, c) => Instr::F32Sel(a.spec_shift(delta), b.spec_shift(delta), c.spec_shift(delta)),
        }
    }

    /// The instruction with every operand id raised by `delta`.
    pub fn shift_ids(self, delta: u16) -> (r: Instr)
        requires
            forall|k: int| 0 <= k < self.operands().len() ==> (#[trigger] self.operands()[k]).0.0 + delta <= u16::MAX,
        ensures
            r == self.spec_shift_ids(delta),
    {
        proof {
            assert forall|k: int| 0 <= k < self.operands().len() implies (#[trigger] self.operands()[k]).0.0 + delta <= u16::MAX by {}
        }
        match self {
            Instr::I32Const(_) => self,
            Instr::BoolConst(_) => self,
            Instr::F32Const(_) => self,
            Instr::CopyI32(a) => { assert(self.operands()[0].0 == a); Instr::CopyI32(a.shift_ids(delta)) }
            Instr::CopyBool(a) => { assert(self.operands()[0].0 == a); Instr::CopyBool(a.shift_ids(delta)) }
            Instr::CopyF32(a) => { assert(self.operands()[0].0 == a); Instr::CopyF32(a.shift_ids(delta)) }
            Instr::I32Add(a, b) => { assert(self.operands()[0].0 == a); assert(self.operands()[1].0 == b); Instr::I32Add(a.shift_ids(delta), b.shift_ids(delta)) }
            Instr::I32Sub(a, b) => { assert(self.operands()[0].0 == a); assert(self.operands()[1].0 == b); Instr::I32Sub(a.shift_ids(delta), b.shift_ids(delta)) }
            Instr::I32Mul(a, b) => { assert(self.operands()[0].0 == a); assert(self.operands()[1].0 == b); Instr::I32Mul(a.shift_ids(delta), b.shift_ids(delta)) }
            Instr::I32Eq(a, b) => { assert(self.operands()[0].0 == a); assert(self.operands()[1].0 == b); Instr::I32Eq(a.shift_ids(delta), b.shift_ids(delta)) }
            Instr::I32Ne(a, b) => { assert(self.operands()[0].0 == a); assert(self.operands()[1].0 == b); Instr::I32Ne(a.shift_ids(delta), b.shift_ids(delta)) }
            Instr::I32Lt(a, b) => { assert(self.operands()[0].0 == a); assert(self.operands()[1].0 == b); Instr::I32Lt(a.shift_ids(delta), b.shift_ids(delta)) }
            Instr::I32Le(a, b) => { assert(self.operands()[0].0 == a); assert(self.operands()[1].0 == b); Instr::I32Le(a.shift_ids(delta), b.shift_ids(delta)) }
            Instr::I32Gt(a, b) => { assert(self.operands()[0].0 == a); assert(self.operands()[1].0 == b); Instr::I32Gt(a.shift_ids(delta), b.shift_ids(delta)) }
            Instr::I32Ge(a, b) => { assert(self.operands()[0].0 == a); assert(self.operands()[1].0 == b); Instr::I32Ge(a.shift_ids(delta), b.shift_ids(delta)) }
            Instr::Not(a) => { assert(self.operands()[0].0 == a); Instr::Not(a.shift_ids(delta)) }
            Instr::And(a, b) => { assert(self.operands()[0].0 == a); assert(self.operands()[1].0 == b); Instr::And(a.shift_ids(delta), b.shift_ids(delta)) }
            Instr::Or(a, b) => { assert(self.operands()[0].0 == a); assert(self.operands()[1].0 == b); Instr::Or(a.shift_ids(delta), b.shift_ids(delta)) }
            Instr::Xor(a, b) => { assert(self.operands()[0].0 == a); assert(self.operands()[1].0 == b); Instr::Xor(a.shift_ids(delta), b.shift_ids(delta)) }
            Instr::I32FromBool(a) => { assert(self.operands()[0].0 == a); Instr::I32FromBool(a.shift_ids(delta)) }
            Instr::F32FromI32(a) => { assert(self.operands()[0].0 == a); Instr::F32FromI32(a.shift_ids(delta)) }
            Instr::F32FromBool(a) => { assert(self.operands()[0].0 == a); Instr::F32FromBool(a.shift_ids(delta)) }
            Instr::F32Neg(a) => { assert(self.operands()[0].0 == a); Instr::F32Neg(a.shift_ids(delta)) }
            Instr::F32Abs(a) => { assert(self.operands()[0].0 == a); Instr::F32Abs(a.shift_ids(delta)) }
            Instr::F32Sign(a) => { assert(self.operands()[0].0 == a); Instr::F32Sign(a.shift_ids(delta)) }
            Instr::F32Floor(a) => { assert(self.operands()[0].0 == a); Instr::F32Floor(a.shift_ids(delta)) }
            Instr::F32Add(a, b) => { assert(self.operands()[0].0 == a); assert(self.operands()[1].0 == b); Instr::F32Add(a.shift_ids(delta), b.shift_ids(delta)) }
            Instr::F32Sub(a, b) => { assert(self.operands()[0].0 == a); assert(self.operands()[1].0 == b); Instr::F32Sub(a.shift_ids(delta), b.shift_ids(delta)) }
            Instr::F32Mul(a, b) => { assert(self.operands()[0].0 == a); assert(self.operands()[1].0 == b); Instr::F32Mul(a.shift_ids(delta), b.shift_ids(delta)) }
            Instr::F32Div(a, b) => { assert(self.operands()[0].0 == a); assert(self.operands()[1].0 == b); Instr::F32Div(a.shift_ids(delta), b.shift_ids(delta)) }
            Instr::F32Min(a, b) => { assert(self.operands()[0].0 == a); assert(self.operands()[1].0 == b); Instr::F32Min(a.shift_ids(delta), b.shift_ids(delta)) }
            Instr::F32Max(a, b) => { assert(self.operands()[0].0 == a); assert(self.operands()[1].0 == b); Instr::F32Max(a.shift_ids(delta), b.shift_ids(delta)) }
            Instr::F32Powf(a, b) => { assert(self.operands()[0].0 == a); assert(self.operands()[1].0 == b); Instr::F32Powf(a.shift_ids(delta), b.shift_ids(delta)) }
            Instr::F32Powi(a, b) => { assert(self.operands()[0].0 == a); assert(self.operands()[1].0 == b); Instr::F32Powi(a.shift_ids(delta), b.shift_ids(delta)) }
            Instr::F32Exp(a) => { assert(self.operands()[0].0 == a); Instr::F32Exp(a.shift_ids(delta)) }
            Instr::F32Ln(a) => { assert(self.operands()[0].0 == a); Instr::F32Ln(a.shift_ids(delta)) }
            Instr::F32Lg(a) => { assert(self.operands()[0].0 == a); Instr::F32Lg(a.shift_ids(delta)) }
            Instr::F32Sin(a) => { assert(self.operands()[0].0 == a); Instr::F32Sin(a.shift_ids(delta)) }
            Instr::F32Cos(a) => { assert(self.operands()[0].0 == a); Instr::F32Cos(a.shift_ids(delta)) }
            Instr::F32Tan(a) => { assert(self.operands()[0].0 == a); Instr::F32Tan(a.shift_ids(delta)) }
            Instr::F32Cot(a) => { assert(self.operands()[0].0 == a); Instr::F32Cot(a.shift_ids(delta)) }
            Instr::F32Eq(a, b) => { assert(self.operands()[0].0 == a); assert(self.operands()[1].0 == b); Instr::F32Eq(a.shift_ids(delta), b.shift_ids(delta)) }
            Instr::F32Ne(a, b) => { assert(self.operands()[0].0 == a); assert(self.operands()[1].0 == b); Instr::F32Ne(a.shift_ids(delta), b.shift_ids(delta)) }
            Instr::F32Lt(a, b) => { assert(self.operands()[0].0 == a); assert(self.operands()[1].0 == b); Instr::F32Lt(a.shift_ids(delta), b.shift_ids(delta)) }
            Instr::F32Le(a, b) => { assert(self.operands()[0].0 == a); assert(self.operands()[1].0 == b); Instr::F32Le(a.shift_ids(delta), b.shift_ids(delta)) }
            Instr::F32Gt(a, b) => { assert(self.operands()[0].0 == a); assert(self.operands()[1].0 == b); Instr::F32Gt(a.shift_ids(delta), b.shift_ids(delta)) }
            Instr::F32Ge(a, b) => { assert(self.operands()[0].0 == a); assert(self.operands()[1].0 == b); Instr::F32Ge(a.shift_ids(delta), b.shift_ids(delta)) }
            Instr::I32Sel(a, b, c) => { assert(self.operands()[0].0 == a); assert(self.operands()[1].0 == b); assert(self.operands()[2].0 == c); Instr::I32Sel(a.shift_ids(delta), b.shift_ids(delta), c.shift_ids(delta)) }
            Instr::F32Sel(a, b, c) => { assert(self.operands()[0].0 == a); assert(self.operands()[1].0 == b); assert(self.operands()[2].0 == c); Instr::F32Sel(a.shift_ids(delta), b.shift_ids(delta), c.shift_ids(delta)) }
        }
    }
}


impl TapeBuilder {
    pub fn i32_const(&mut self, value: i32) -> (r: ValueId)
        requires
            old(self).wf(),
            old(self).spec_values().len() < u16::MAX,
        ensures
            old(self).pushed(final(self), Instr::I32Const(value), r),
    {
        self.push(Instr::I32Const(value))
    }

    pub fn bool_const(&mut self, value: bool) -> (r: ValueId)
        requires
            old(self).wf(),
            old(self).spec_values().len() < u16::MAX,
        ensures
            old(self).pushed(final(self), Instr::BoolConst(value), r),
    {
        self.push(Instr::BoolConst(value))
    }

    pub fn f32_const(&mut self, value: u32) -> (r: ValueId)
        requires
            old(self).wf(),
            old(self).spec_values().len() < u16::MAX,
        ensures
            old(self).pushed(final(self), Instr::F32Const(value), r),
    {
        self.push(Instr::F32Const(value))
    }

    pub fn copy_i32(&mut self, a: ValueId) -> (r: ValueId)
        requires
            old(self).wf(),
            old(self).spec_values().len() < u16::MAX,
        ensures
            old(self).pushed(final(self), Instr::CopyI32(a), r),
    {
        self.push(Instr::CopyI32(a))
    }

    pub fn copy_bool(&mut self, a: ValueId) -> (r: ValueId)
        requires
            old(self).wf(),
            old(self).spec_values().len() < u16::MAX,
        ensures
            old(self).pushed(final(self), Instr::CopyBool(a), r),
    {
        self.push(Instr::CopyBool(a))
    }

    pub fn copy_f32(&mut self, a: ValueId) -> (r: ValueId)
        requires
            old(self).wf(),
            old(self).spec_values().len() < u16::MAX,
        ensures
            old(self).pushed(final(self), Instr::CopyF32(a), r),
    {
        self.push(Instr::CopyF32(a))
    }

    pub fn i32_add(&mut self, a: ValueId, b: ValueId) -> (r: ValueId)
        requires
            old(self).wf(),
            old(self).spec_values().len() < u16::MAX,
        ensures
            old(self).pushed(final(self), Instr::I32Add(a, b), r),
    {
        self.push(Instr::I32Add(a, b))
    }

    pub fn i32_sub(&mut self, a: ValueId, b: ValueId) -> (r: ValueId)
        requires
            old(self).wf(),
            old(self).spec_values().len() < u16::MAX,
        ensures
            old(self).pushed(final(self), Instr::I32Sub(a, b), r),
    {
        self.push(Instr::I32Sub(a, b))
    }

    pub fn i32_mul(&mut self, a: ValueId, b: ValueId) -> (r: ValueId)
        requires
            old(self).wf(),
            old(self).spec_values().len() < u16::MAX,
        ensures
            old(self).pushed(final(self), Instr::I32Mul(a, b), r),
    {
        self.push(Instr::I32Mul(a, b))
    }

    pub fn i32_eq(&mut self, a: ValueId, b: ValueId) -> (r: ValueId)
        requires
            old(self).wf(),
            old(self).spec_values().len() < u16::MAX,
        ensures
            old(self).pushed(final(self), Instr::I32Eq(a, b), r),
    {
        self.push(Instr::I32Eq(a, b))
    }

    pub fn i32_ne(&mut self, a: ValueId, b: ValueId) -> (r: ValueId)
        requires
            old(self).wf(),
            old(self).spec_values().len() < u16::MAX,
        ensures
            old(self).pushed(final(self), Instr::I32Ne(a, b), r),
    {
        self.push(Instr::I32Ne(a, b))
    }

    pub fn i32_lt(&mut self, a: ValueId, b: ValueId) -> (r: ValueId)
        requires
            old(self).wf(),
            old(self).spec_values().len() < u16::MAX,
        ensures
            old(self).pushed(final(self), Instr::I32Lt(a, b), r),
    {
        self.push(Instr::I32Lt(a, b))
    }

    pub fn i32_le(&mut self, a: ValueId, b: ValueId) -> (r: ValueId)
        requires
            old(self).wf(),
            old(self).spec_values().len() < u16::MAX,
        ensures
            old(self).pushed(final(self), Instr::I32Le(a, b), r),
    {
        self.push(Instr::I32Le(a, b))
    }

    pub fn i32_gt(&mut self, a: ValueId, b: ValueId) -> (r: ValueId)
        requires
            old(self).wf(),
            old(self).spec_values().len() < u16::MAX,
        ensures
            old(self).pushed(final(self), Instr::I32Gt(a, b), r),
    {
        self.push(Instr::I32Gt(a, b))
    }

    pub fn i32_ge(&mut self, a: ValueId, b: ValueId) -> (r: ValueId)
        requires
            old(self).wf(),
            old(self).spec_values().len() < u16::MAX,
        ensures
            old(self).pushed(final(self), Instr::I32Ge(a, b), r),
    {
        self.push(Instr::I32Ge(a, b))
    }

    pub fn not(&mut self, a: ValueId) -> (r: ValueId)
        requires
            old(self).wf(),
            old(self).spec_values().len() < u16::MAX,
        ensures
            old(self).pushed(final(self), Instr::Not(a), r),
    {
        self.push(Instr::Not(a))
    }

    pub fn and(&mut self, a: ValueId, b: ValueId) -> (r: ValueId)
        requires
            old(self).wf(),
            old(self).spec_values().len() < u16::MAX,
        ensures
            old(self).pushed(final(self), Instr::And(a, b), r),
    {
        self.push(Instr::And(a, b))
    }

    pub fn or(&mut self, a: ValueId, b: ValueId) -> (r: ValueId)
        requires
            old(self).wf(),
            old(self).spec_values().len() < u16::MAX,
        ensures
            old(self).pushed(final(self), Instr::Or(a, b), r),
    {
        self.push(Instr::Or(a, b))
    }

    pub fn xor(&mut self, a: ValueId, b: ValueId) -> (r: ValueId)
        requires
            old(self).wf(),
            old(self).spec_values().len() < u16::MAX,
        ensures
            old(self).pushed(final(self), Instr::Xor(a, b), r),
    {
        self.push(Instr::Xor(a, b))
    }

    pub fn i32_from_bool(&mut self, a: ValueId) -> (r: ValueId)
        requires
            old(self).wf(),
            old(self).spec_values().len() < u16::MAX,
        ensures
            old(self).pushed(final(self), Instr::I32FromBool(a), r),
    {
        self.push(Instr::I32FromBool(a))
    }

    pub fn f32_from_i32(&mut self, a: ValueId) -> (r: ValueId)
        requires
            old(self).wf(),
            old(self).spec_values().len() < u16::MAX,
        ensures
            old(self).pushed(final(self), Instr::F32FromI32(a), r),
    {
        self.push(Instr::F32FromI32(a))
    }

    pub fn f32_from_bool(&mut self, a: ValueId) -> (r: ValueId)
        requires
            old(self).wf(),
            old(self).spec_values().len() < u16::MAX,
        ensures
            old(self).pushed(final(self), Instr::F32FromBool(a), r),
    {
        self.push(Instr::F32FromBool(a))
    }

    pub fn f32_neg(&mut self, a: ValueId) -> (r: ValueId)
        requires
            old(self).wf(),
            old(self).spec_values().len() < u16::MAX,
        ensures
            old(self).pushed(final(self), Instr::F32Neg(a), r),
    {
        self.push(Instr::F32Neg(a))
    }

    pub fn f32_abs(&mut self, a: ValueId) -> (r: ValueId)
        requires
            old(self).wf(),
            old(self).spec_values().len() < u16::MAX,
        ensures
            old(self).pushed(final(self), Instr::F32Abs(a), r),
    {
        self.push(Instr::F32Abs(a))
    }

    pub fn f32_sign(&mut self, a: ValueId) -> (r: ValueId)
        requires
            old(self).wf(),
            old(self).spec_values().len() < u16::MAX,
        ensures
            old(self).pushed(final(self), Instr::F32Sign(a), r),
    {
        self.push(Instr::F32Sign(a))
    }

    pub fn f32_floor(&mut self, a: ValueId) -> (r: ValueId)
        requires
            old(self).wf(),
            old(self).spec_values().len() < u16::MAX,
        ensures
            old(self).pushed(final(self), Instr::F32Floor(a), r),
    {
        self.push(Instr::F32Floor(a))
    }

    pub fn f32_add(&mut self, a: ValueId, b: ValueId) -> (r: ValueId)
        requires
            old(self).wf(),
            old(self).spec_values().len() < u16::MAX,
        ensures
            old(self).pushed(final(self), Instr::F32Add(a, b), r),
    {
        self.push(Instr::F32Add(a, b))
    }

    pub fn f32_sub(&mut self, a: ValueId, b: ValueId) -> (r: ValueId)
        requires
            old(self).wf(),
            old(self).spec_values().len() < u16::MAX,
        ensures
            old(self).pushed(final(self), Instr::F32Sub(a, b), r),
    {
        self.push(Instr::F32Sub(a, b))
    }

    pub fn f32_mul(&mut self, a: ValueId, b: ValueId) -> (r: ValueId)
        requires
            old(self).wf(),
            old(self).spec_values().len() < u16::MAX,
        ensures
            old(self).pushed(final(self), Instr::F32Mul(a, b), r),
    {
        self.push(Instr::F32Mul(a, b))
    }

    pub fn f32_div(&mut self, a: ValueId, b: ValueId) -> (r: ValueId)
        requires
            old(self).wf(),
            old(self).spec_values().len() < u16::MAX,
        ensures
            old(self).pushed(final(self), Instr::F32Div(a, b), r),
    {
        self.push(Instr::F32Div(a, b))
    }

    pub fn f32_min(&mut self, a: ValueId, b: ValueId) -> (r: ValueId)
        requires
            old(self).wf(),
            old(self).spec_values().len() < u16::MAX,
        ensures
            old(self).pushed(final(self), Instr::F32Min(a, b), r),
    {
        self.push(Instr::F32Min(a, b))
    }

    pub fn f32_max(&mut self, a: ValueId, b: ValueId) -> (r: ValueId)
        requires
            old(self).wf(),
            old(self).spec_values().len() < u16::MAX,
        ensures
            old(self).pushed(final(self), Instr::F32Max(a, b), r),
    {
        self.push(Instr::F32Max(a, b))
    }

    pub fn f32_powf(&mut self, a: ValueId, b: ValueId) -> (r: ValueId)
        requires
            old(self).wf(),
            old(self).spec_values().len() < u16::MAX,
        ensures
            old(self).pushed(final(self), Instr::F32Powf(a, b), r),
    {
        self.push(Instr::F32Powf(a, b))
    }

    pub fn f32_powi(&mut self, a: ValueId, b: ValueId) -> (r: ValueId)
        requires
            old(self).wf(),
            old(self).spec_values().len() < u16::MAX,
        ensures
            old(self).pushed(final(self), Instr::F32Powi(a, b), r),
    {
        self.push(Instr::F32Powi(a, b))
    }

    pub fn f32_exp(&mut self, a: ValueId) -> (r: ValueId)
        requires
            old(self).wf(),
            old(self).spec_values().len() < u16::MAX,
        ensures
            old(self).pushed(final(self), Instr::F32Exp(a), r),
    {
        self.push(Instr::F32Exp(a))
    }

    pub fn f32_ln(&mut self, a: ValueId) -> (r: ValueId)
        requires
            old(self).wf(),
            old(self).spec_values().len() < u16::MAX,
        ensures
            old(self).pushed(final(self), Instr::F32Ln(a), r),
    {
        self.push(Instr::F32Ln(a))
    }

    pub fn f32_lg(&mut self, a: ValueId) -> (r: ValueId)
        requires
            old(self).wf(),
            old(self).spec_values().len() < u16::MAX,
        ensures
            old(self).pushed(final(self), Instr::F32Lg(a), r),
    {
        self.push(Instr::F32Lg(a))
    }

    pub fn f32_sin(&mut self, a: ValueId) -> (r: ValueId)
        requires
            old(self).wf(),
            old(self).spec_values().len() < u16::MAX,
        ensures
            old(self).pushed(final(self), Instr::F32Sin(a), r),
    {
        self.push(Instr::F32Sin(a))
    }

    pub fn f32_cos(&mut self, a: ValueId) -> (r: ValueId)
        requires
            old(self).wf(),
            old(self).spec_values().len() < u16::MAX,
        ensures
            old(self).pushed(final(self), Instr::F32Cos(a), r),
    {
        self.push(Instr::F32Cos(a))
    }

    pub fn f32_tan(&mut self, a: ValueId) -> (r: ValueId)
        requires
            old(self).wf(),
            old(self).spec_values().len() < u16::MAX,
        ensures
            old(self).pushed(final(self), Instr::F32Tan(a), r),
    {
        self.push(Instr::F32Tan(a))
    }

    pub fn f32_cot(&mut self, a: ValueId) -> (r: ValueId)
        requires
            old(self).wf(),
            old(self).spec_values().len() < u16::MAX,
        ensures
            old(self).pushed(final(self), Instr::F32Cot(a), r),
    {
        self.push(Instr::F32Cot(a))
    }

    pub fn f32_eq(&mut self, a: ValueId, b: ValueId) -> (r: ValueId)
        requires
            old(self).wf(),
            old(self).spec_values().len() < u16::MAX,
        ensures
            old(self).pushed(final(self), Instr::F32Eq(a, b), r),
    {
        self.push(Instr::F32Eq(a, b))
    }

    pub fn f32_ne(&mut self, a: ValueId, b: ValueId) -> (r: ValueId)
        requires
            old(self).wf(),
            old(self).spec_values().len() < u16::MAX,
        ensures
            old(self).pushed(final(self), Instr::F32Ne(a, b), r),
    {
        self.push(Instr::F32Ne(a, b))
    }

    pub fn f32_lt(&mut self, a: ValueId, b: ValueId) -> (r: ValueId)
        requires
            old(self).wf(),
            old(self).spec_values().len() < u16::MAX,
        ensures
            old(self).pushed(final(self), Instr::F32Lt(a, b), r),
    {
        self.push(Instr::F32Lt(a, b))
    }

    pub fn f32_le(&mut self, a: ValueId, b: ValueId) -> (r: ValueId)
        requires
            old(self).wf(),
            old(self).spec_values().len() < u16::MAX,
        ensures
            old(self).pushed(final(self), Instr::F32Le(a, b), r),
    {
        self.push(Instr::F32Le(a, b))
    }

    pub fn f32_gt(&mut self, a: ValueId, b: ValueId) -> (r: ValueId)
        requires
            old(self).wf(),
            old(self).spec_values().len() < u16::MAX,
        ensures
            old(self).pushed(final(self), Instr::F32Gt(a, b), r),
    {
        self.push(Instr::F32Gt(a, b))
    }

    pub fn f32_ge(&mut self, a: ValueId, b: ValueId) -> (r: ValueId)
        requires
            old(self).wf(),
            old(self).spec_values().len() < u16::MAX,
        ensures
            old(self).pushed(final(self), Instr::F32Ge(a, b), r),
    {
        self.push(Instr::F32Ge(a, b))
    }

    pub fn i32_sel(&mut self, a: ValueId, b: ValueId, c: ValueId) -> (r: ValueId)
        requires
            old(self).wf(),
            old(self).spec_values().len() < u16::MAX,
        ensures
            old(self).pushed(final(self), Instr::I32Sel(a, b, c), r),
    {
        self.push(Instr::I32Sel(a, b, c))
    }

    pub fn f32_sel(&mut self, a: ValueId, b: ValueId, c: ValueId) -> (r: ValueId)
        requires
            old(self).wf(),
            old(self).spec_values().len() < u16::MAX,
        ensures
            old(self).pushed(final(self), Instr::F32Sel(a, b, c), r),
    {
        self.push(Instr::F32Sel(a, b, c))
    }

}
/// The instruction that defines value `dst` reads only values defined before it, each of
/// the type it expects.
pub open spec fn instr_well_typed(values: Seq<Type>, dst: int, instr: Instr) -> bool {
    forall|k: int|
        0 <= k < instr.operands().len() ==> {
            let (id, t) = #[trigger] instr.operands()[k];
            &&& (id.0 as int) < dst
            &&& values[id.0 as int] == t
        }
}

/// A tape whose values have types `values` is well typed: every instruction is, and the
/// last values are the results, of types `results`.
pub open spec fn well_typed(num_args: int, values: Seq<Type>, instrs: Seq<Instr>, results: Seq<Type>) -> bool {
    &&& values.len() >= num_args + results.len()
    &&& values.subrange(values.len() - results.len(), values.len() as int) == results
    &&& forall|k: int| 0 <= k < instrs.len() ==> instr_well_typed(values, num_args + k, #[trigger] instrs[k])
}

/// The types of the values of a tape with these arguments and instructions.
pub open spec fn value_types(args: Seq<Type>, instrs: Seq<Instr>) -> Seq<Type> {
    args + instrs.map_values(|i: Instr| i.spec_result_type())
}

/// A well-typed program as a tape.
pub struct Tape {
    args: Vec<Type>,
    results: Vec<Type>,
    instrs: Vec<Instr>,
}

impl Tape {
    #[verifier::type_invariant]
    pub(crate) open spec fn inv(&self) -> bool {
        self.wf()
    }

    pub closed spec fn spec_args(&self) -> Seq<Type> {
        self.args@
    }

    pub closed spec fn spec_results(&self) -> Seq<Type> {
        self.results@
    }

    pub closed spec fn spec_instrs(&self) -> Seq<Instr> {
        self.instrs@
    }

    pub open spec fn wf(&self) -> bool {
        &&& self.spec_args().len() <= 255
        &&& self.spec_results().len() <= 255
        &&& self.spec_args().len() + self.spec_instrs().len() <= u16::MAX
        &&& well_typed(
            self.spec_args().len() as int,
            value_types(self.spec_args(), self.spec_instrs()),
            self.spec_instrs(),
            self.spec_results(),
        )
    }

    /// A builder for a tape with arguments and results of these types; at most 255 of each.
    pub fn builder(args: Vec<Type>, results: Vec<Type>) -> (r: TapeBuilder)
        requires
            args@.len() <= 255,
            results@.len() <= 255,
        ensures
            r.wf(),
            r.spec_num_args() == args@.len(),
            r.spec_values() == args@,
            r.spec_instrs() == Seq::<Instr>::empty(),
            r.spec_results() == results@,
    {
        TapeBuilder { num_args: args.len(), values: args, instrs: Vec::new(), results }
    }

    pub fn num_args(&self) -> (r: usize)
        ensures
            r == self.spec_args().len(),
    {
        self.args.len()
    }

    pub fn num_results(&self) -> (r: usize)
        ensures
            r == self.spec_results().len(),
    {
        self.results.len()
    }

    pub fn arg_types(&self) -> (r: &[Type])
        ensures
            r@ == self.spec_args(),
    {
        self.args.as_slice()
    }

    pub fn result_types(&self) -> (r: &[Type])
        ensures
            r@ == self.spec_results(),
    {
        self.results.as_slice()
    }

    /// The instructions, each with the id of the value it defines.
    pub fn instrs(&self) -> (r: Vec<InstrRef>)
        ensures
            r@.len() == self.spec_instrs().len(),
            forall|k: int|
                0 <= k < r@.len() ==> (#[trigger] r@[k]).spec_instr() == self.spec_instrs()[k] && r@[k].spec_raw_id()
                    == self.spec_args().len() + k,
    {
        proof {
            use_type_invariant(self);
        }
        let num_args = self.args.len();
        let mut out: Vec<InstrRef> = Vec::new();
        let mut i: usize = 0;
        while i < self.instrs.len()
            invariant
                num_args == self.spec_args().len(),
                num_args + self.spec_instrs().len() <= u16::MAX,
                i <= self.spec_instrs().len(),
                out@.len() == i,
                forall|k: int|
                    0 <= k < i ==> (#[trigger] out@[k]).spec_instr() == self.spec_instrs()[k] && out@[k].spec_raw_id()
                        == num_args + k,
            decreases self.spec_instrs().len() - i,
        {
            out.push(InstrRef { raw_id: (num_args + i) as u16, instr: self.instrs[i] });
            i = i + 1;
        }
        out
    }
}

/// An instruction together with the id of the value it defines.
#[derive(Copy, Clone, Debug)]
pub struct InstrRef {
    raw_id: u16,
    instr: Instr,
}

impl InstrRef {
    pub closed spec fn spec_instr(&self) -> Instr {
        self.instr
    }

    pub closed spec fn spec_raw_id(&self) -> u16 {
        self.raw_id
    }

    pub fn instr(&self) -> (r: Instr)
        ensures
            r == self.spec_instr(),
    {
        self.instr
    }

    pub fn id(&self) -> (r: ValueId)
        ensures
            r.0 == self.spec_raw_id(),
    {
        ValueId::new(self.raw_id)
    }

    pub fn index(&self) -> (r: usize)
        ensures
            r == self.spec_raw_id(),
    {
        self.raw_id as usize
    }
}

/// The tape under construction failed its check.
#[derive(Debug)]
pub struct ValidateError(pub ());

/// Builds a tape one instruction at a time.
pub struct TapeBuilder {
    num_args: usize,
    instrs: Vec<Instr>,
    values: Vec<Type>,
    results: Vec<Type>,
}

impl TapeBuilder {
    pub closed spec fn spec_num_args(&self) -> nat {
        self.num_args as nat
    }

    pub closed spec fn spec_instrs(&self) -> Seq<Instr> {
        self.instrs@
    }

    pub closed spec fn spec_values(&self) -> Seq<Type> {
        self.values@
    }

    pub closed spec fn spec_results(&self) -> Seq<Type> {
        self.results@
    }

    /// The values are the arguments, then one per instruction, of its result type.
    pub open spec fn wf(&self) -> bool {
        &&& self.spec_num_args() <= 255
        &&& self.spec_results().len() <= 255
        &&& self.spec_values().len() <= u16::MAX
        &&& self.spec_values().len() == self.spec_num_args() + self.spec_instrs().len()
        &&& forall|k: int|
            0 <= k < self.spec_instrs().len() ==> self.spec_values()[self.spec_num_args() + k]
                == (#[trigger] self.spec_instrs()[k]).spec_result_type()
    }

    /// `next` is `self` with `instr` appended; `r` is the id of its value.
    pub open spec fn pushed(&self, next: &TapeBuilder, instr: Instr, r: ValueId) -> bool {
        &&& next.wf()
        &&& next.spec_num_args() == self.spec_num_args()
        &&& next.spec_results() == self.spec_results()
        &&& next.spec_instrs() == self.spec_instrs().push(instr)
        &&& next.spec_values() == self.spec_values().push(instr.spec_result_type())
        &&& r.0 == self.spec_values().len()
    }

    /// The id of argument `index`.
    pub fn arg(&self, index: usize) -> (r: ValueId)
        requires
            self.wf(),
            index < self.spec_num_args(),
        ensures
            r.0 == index,
    {
        ValueId::new(index as u16)
    }

    pub fn push(&mut self, instr: Instr) -> (r: ValueId)
        requires
            old(self).wf(),
            old(self).spec_values().len() < u16::MAX,
        ensures
            old(self).pushed(final(self), instr, r),
    {
        let ty = instr.result_type();
        let index = self.values.len();
        self.values.push(ty);
        self.instrs.push(instr);
        ValueId::new(index as u16)
    }

    /// Checks that every instruction reads earlier values of the types it expects, and
    /// that the last values have the result types.
    pub fn validate(&self) -> (r: Result<(), ValidateError>)
        requires
            self.wf(),
        ensures
            r is Ok <==> well_typed(
                self.spec_num_args() as int,
                self.spec_values(),
                self.spec_instrs(),
                self.spec_results(),
            ),
    {
        let num_args = self.num_args;
        let n_values = self.values.len();
        let n_results = self.results.len();
        // Enforce that arguments are not implicitly used as results.
        if n_values < num_args + n_results {
            return Err(ValidateError(()));
        }
        let base = n_values - n_results;
        let mut i: usize = 0;
        while i < n_results
            invariant
                n_values == self.spec_values().len(),
                n_results == self.spec_results().len(),
                base == n_values - n_results,
                i <= n_results,
                forall|m: int| 0 <= m < i ==> self.spec_values()[base + m] == self.spec_results()[m],
            decreases n_results - i,
        {
            if self.values[base + i] != self.results[i] {
                proof {
                    assert(self.spec_values().subrange(base as int, n_values as int)[i as int]
                        != self.spec_results()[i as int]);
                }
                return Err(ValidateError(()));
            }
            i = i + 1;
        }
        proof {
            assert(self.spec_values().subrange(base as int, n_values as int) =~= self.spec_results());
        }
        let mut index: usize = 0;
        while index < self.instrs.len()
            invariant
                self.wf(),
                num_args == self.spec_num_args(),
                n_values == self.spec_values().len(),
                n_values >= num_args + n_results,
                self.spec_values().subrange(n_values - n_results, n_values as int) == self.spec_results(),
                index <= self.spec_instrs().len(),
                forall|k: int|
                    0 <= k < index ==> instr_well_typed(self.spec_values(), num_args + k, #[trigger] self.spec_instrs()[k]),
            decreases self.spec_instrs().len() - index,
        {
            let instr = self.instrs[index];
            let cur_dst = num_args + index;
            let operands = instr.operand_list();
            let mut j: usize = 0;
            while j < operands.len()
                invariant
                    self.wf(),
                    instr == self.spec_instrs()[index as int],
                    index < self.spec_instrs().len(),
                    num_args == self.spec_num_args(),
                    operands@ == instr.operands(),
                    cur_dst == num_args + index,
                    n_values == self.spec_values().len(),
                    j <= operands@.len(),
                    forall|m: int|
                        0 <= m < j ==> {
                            let (id, t) = #[trigger] instr.operands()[m];
                            &&& (id.0 as int) < cur_dst
                            &&& self.spec_values()[id.0 as int] == t
                        },
                decreases operands@.len() - j,
            {
                let (id, t) = operands[j];
                let value = id.index();
                if !(value < cur_dst && self.values[value] == t) {
                    proof {
                        assert(!instr_well_typed(self.spec_values(), num_args + index, self.spec_instrs()[index as int])) by {
                            assert(instr.operands()[j as int] == (id, t));
                        }
                    }
                    return Err(ValidateError(()));
                }
                j = j + 1;
            }
            index = index + 1;
        }
        Ok(())
    }

    /// The tape, when it is well typed.
    pub fn build(self) -> (r: Result<Tape, ValidateError>)
        requires
            self.wf(),
        ensures
            r is Ok <==> well_typed(
                self.spec_num_args() as int,
                self.spec_values(),
                self.spec_instrs(),
                self.spec_results(),
            ),
            r matches Ok(tape) ==> {
                &&& tape.wf()
                &&& tape.spec_args() == self.spec_values().take(self.spec_num_args() as int)
                &&& tape.spec_instrs() == self.spec_instrs()
                &&& tape.spec_results() == self.spec_results()
            },
    {
        let ghost values = self.values@;
        self.validate()?;
        let mut this = self;
        let num_args = this.num_args;
        this.values.truncate(num_args);
        proof {
            let tape_values = value_types(this.values@, this.instrs@);
            assert(tape_values =~= values);
        }
        Ok(Tape { args: this.values, results: this.results, instrs: this.instrs })
    }

    /// Appends the instructions of `tape`, reading as its arguments the last values built
    /// so far, which must have the argument types of `tape`.
    pub fn extend<'a>(&mut self, tape: &'a Tape) -> (r: Inlined<'a>)
        requires
            old(self).wf(),
            tape.wf(),
            old(self).spec_values().len() >= tape.spec_args().len(),
            old(self).spec_values().subrange(
                old(self).spec_values().len() - tape.spec_args().len(),
                old(self).spec_values().len() as int,
            ) == tape.spec_args(),
            old(self).spec_values().len() + tape.spec_instrs().len() <= u16::MAX,
        ensures
            final(self).wf(),
            r.spec_base() == old(self).spec_values().len() - tape.spec_args().len(),
            r.spec_tape() == tape,
            final(self).spec_num_args() == old(self).spec_num_args(),
            final(self).spec_results() == old(self).spec_results(),
            final(self).spec_values() == old(self).spec_values() + tape.spec_instrs().map_values(
                |i: Instr| i.spec_result_type(),
            ),
            final(self).spec_instrs() == old(self).spec_instrs() + tape.spec_instrs().map_values(
                |i: Instr| i.spec_shift_ids(r.spec_base() as u16),
            ),
            forall|k: int|
                0 <= k < tape.spec_instrs().len() ==> instr_well_typed(
                    final(self).spec_values(),
                    old(self).spec_values().len() + k,
                    #[trigger] final(self).spec_instrs()[old(self).spec_instrs().len() + k],
                ),
    {
        let ghost old_values = self.values@;
        let ghost old_instrs = self.instrs@;
        let ghost tvals = value_types(tape.args@, tape.instrs@);
        let base = self.values.len() - tape.args.len();
        let n = tape.instrs.len();
        let mut i: usize = 0;
        while i < n
            invariant
                self.wf(),
                tape.wf(),
                tvals == value_types(tape.spec_args(), tape.spec_instrs()),
                n == tape.spec_instrs().len(),
                base == old_values.len() - tape.spec_args().len(),
                old_values.len() + n <= u16::MAX,
                old_values.subrange(base as int, old_values.len() as int) == tape.spec_args(),
                i <= n,
                self.spec_num_args() == old(self).spec_num_args(),
                self.spec_results() == old(self).spec_results(),
                self.spec_values() == old_values + tape.spec_instrs().take(i as int).map_values(
                    |x: Instr| x.spec_result_type(),
                ),
                self.spec_instrs() == old_instrs + tape.spec_instrs().take(i as int).map_values(
                    |x: Instr| x.spec_shift_ids(base as u16),
                ),
                old_values.len() == old_instrs.len() + self.spec_num_args(),
                forall|k: int|
                    0 <= k < i ==> instr_well_typed(
                        self.spec_values(),
                        old_values.len() + k,
                        #[trigger] self.spec_instrs()[old_instrs.len() + k],
                    ),
            decreases n - i,
        {
            let instr = tape.instrs[i];
            proof {
                assert(instr_well_typed(tvals, tape.spec_args().len() + i, instr));
                assert forall|k: int| 0 <= k < instr.operands().len() implies (#[trigger] instr.operands()[k]).0.0
                    + base <= u16::MAX by {
                    let (id, t) = instr.operands()[k];
                    assert((id.0 as int) < tape.spec_args().len() + i);
                }
            }
            let shifted = instr.shift_ids(base as u16);
            let ghost before_values = self.spec_values();
            self.push(shifted);
            proof {
                assert(self.spec_values().subrange(0, before_values.len() as int) =~= before_values);
                assert(tape.spec_instrs().take(i + 1) =~= tape.spec_instrs().take(i as int).push(instr));
                assert(self.spec_values() =~= old_values + tape.spec_instrs().take(i + 1).map_values(
                    |x: Instr| x.spec_result_type(),
                )) by {
                    lemma_shift_result_type(instr, base as u16);
                }
                assert(self.spec_instrs() =~= old_instrs + tape.spec_instrs().take(i + 1).map_values(
                    |x: Instr| x.spec_shift_ids(base as u16),
                ));
                lemma_extend_step_typed(tvals, self.spec_values(), tape.spec_args().len() as int, base as int, instr, i as int);
                assert forall|k: int|
                    0 <= k < i + 1 implies instr_well_typed(
                        self.spec_values(),
                        old_values.len() + k,
                        #[trigger] self.spec_instrs()[old_instrs.len() + k],
                    ) by {
                    if k < i {
                        lemma_typed_extend_values(before_values, self.spec_values(), old_values.len() + k,
                            self.spec_instrs()[old_instrs.len() + k]);
                    }
                }
            }
            i = i + 1;
        }
        proof {
            assert(tape.spec_instrs().take(n as int) =~= tape.spec_instrs());
        }
        Inlined { base, tape }
    }
}

proof fn lemma_shift_result_type(instr: Instr, delta: u16)
    ensures
        instr.spec_shift_ids(delta).spec_result_type() == instr.spec_result_type(),
{
}

/// Typing depends only on the values that come before.
pub proof fn lemma_typed_extend_values(values: Seq<Type>, more: Seq<Type>, dst: int, instr: Instr)
    requires
        instr_well_typed(values, dst, instr),
        0 <= dst <= values.len() <= more.len(),
        more.subrange(0, values.len() as int) == values,
    ensures
        instr_well_typed(more, dst, instr),
{
    assert forall|k: int| 0 <= k < instr.operands().len() implies {
        let (id, t) = #[trigger] instr.operands()[k];
        &&& (id.0 as int) < dst
        &&& more[id.0 as int] == t
    } by {
        let (id, t) = instr.operands()[k];
        assert(more[id.0 as int] == more.subrange(0, values.len() as int)[id.0 as int]);
    }
}

/// An instruction of an inlined tape, shifted by `base`, reads what it read in the tape.
proof fn lemma_extend_step_typed(tvals: Seq<Type>, values: Seq<Type>, num_targs: int, base: int, instr: Instr, i: int)
    requires
        instr_well_typed(tvals, num_targs + i, instr),
        0 <= base,
        base + num_targs + i < values.len(),
        forall|k: int| 0 <= k < num_targs + i ==> values[base + k] == #[trigger] tvals[k],
        forall|k: int| 0 <= k < instr.operands().len() ==> (#[trigger] instr.operands()[k]).0.0 + base <= u16::MAX,
    ensures
        instr_well_typed(values, base + num_targs + i, instr.spec_shift_ids(base as u16)),
{
    let shifted = instr.spec_shift_ids(base as u16);
    lemma_shift_operands(instr, base as u16);
    assert forall|k: int| 0 <= k < shifted.operands().len() implies {
        let (id, t) = #[trigger] shifted.operands()[k];
        &&& (id.0 as int) < base + num_targs + i
        &&& values[id.0 as int] == t
    } by {
        let (src, t) = instr.operands()[k];
        assert(src.0 + base <= u16::MAX);
        assert(tvals[src.0 as int] == t);
        assert(values[base + src.0] == tvals[src.0 as int]);
    }
}

/// Shifting an instruction shifts each of its operands and keeps their types.
proof fn lemma_shift_operands(instr: Instr, delta: u16)
    ensures
        instr.spec_shift_ids(delta).operands() == instr.operands().map_values(
            |p: (ValueId, Type)| (p.0.spec_shift(delta), p.1),
        ),
{
    assert(instr.spec_shift_ids(delta).operands() =~= instr.operands().map_values(
        |p: (ValueId, Type)| (p.0.spec_shift(delta), p.1),
    ));
}

/// After `extend`, the value that `Inlined::result` names for result `index` of the
/// inlined tape has that result's type.
pub proof fn law_extend_result_type(values: Seq<Type>, tape: Tape, index: int)
    requires
        tape.wf(),
        0 <= index < tape.spec_results().len(),
        values.len() >= tape.spec_args().len(),
    ensures
        ({
            let base = values.len() - tape.spec_args().len();
            let extended = values + tape.spec_instrs().map_values(|i: Instr| i.spec_result_type());
            extended[base + tape.spec_args().len() + tape.spec_instrs().len() - tape.spec_results().len() + index]
                == tape.spec_results()[index]
        }),
{
    let tvals = value_types(tape.spec_args(), tape.spec_instrs());
    let n = tvals.len();
    let k = n - tape.spec_results().len() + index;
    assert(tvals.subrange(n - tape.spec_results().len(), n as int)[index] == tape.spec_results()[index]);
    assert(k >= tape.spec_args().len());
    let base = values.len() - tape.spec_args().len();
    let extended = values + tape.spec_instrs().map_values(|i: Instr| i.spec_result_type());
    assert(extended[base + k] == tvals[k]);
}

/// The tape that `extend` inlined, and where its values start.
pub struct Inlined<'a> {
    base: usize,
    tape: &'a Tape,
}

impl<'a> Inlined<'a> {
    pub closed spec fn spec_base(&self) -> nat {
        self.base as nat
    }

    pub closed spec fn spec_tape(&self) -> &'a Tape {
        self.tape
    }

    /// The id in the new tape of the inlined tape's result `index`: its values end with
    /// its results, so the result is one of the last values inlined.
    pub fn result(&self, index: usize) -> (r: ValueId)
        requires
            self.spec_tape().wf(),
            index < self.spec_tape().spec_results().len(),
            self.spec_base() + self.spec_tape().spec_args().len() + self.spec_tape().spec_instrs().len() <= u16::MAX,
        ensures
            r.0 == self.spec_base() + self.spec_tape().spec_args().len() + self.spec_tape().spec_instrs().len()
                - self.spec_tape().spec_results().len() + index,
    {
        let tape = self.tape;
        let from_back = tape.results.len() - 1 - index;
        let id = tape.args.len() + tape.instrs.len() - 1 - from_back;
        self.convert(ValueId::new(id as u16))
    }

    /// The id in the new tape of the inlined tape's value `src_id`.
    pub fn convert(&self, src_id: ValueId) -> (r: ValueId)
        requires
            (src_id.0 as int) < self.spec_tape().spec_args().len() + self.spec_tape().spec_instrs().len(),
            self.spec_base() + self.spec_tape().spec_args().len() + self.spec_tape().spec_instrs().len() <= u16::MAX,
        ensures
            r.0 == self.spec_base() + src_id.0,
    {
        ValueId::new((self.base + src_id.index()) as u16)
    }
}

} // verus!
