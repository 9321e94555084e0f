//! Straight-line instructions that expressions compile to: each instruction defines one
//! new value from parameters and values defined before it.
use vstd::prelude::*;

verus! {

/// The type of a value.
#[derive(Copy, Clone, PartialEq, Eq, Structural, Debug)]
pub enum Type {
    I32,
    F32,
}

/// The id of a value: the parameters come first, then one value per instruction.
#[derive(Copy, Clone, PartialEq, Eq, Structural, Debug)]
pub struct ValueId(pub u16);

impl ValueId {
    pub fn index(self) -> (r: usize)
        ensures
            r == self.0,
    {
        self.0 as usize
    }
}

/// An instruction. `F32Const` holds the bits of its `f32` constant.
#[derive(Copy, Clone, PartialEq, Eq, Structural, Debug)]
pub enum Instruction {
    I32Const(i32),
    F32Const(u32),
    I32Add(ValueId, ValueId),
    I32Sub(ValueId, ValueId),
    I32Mul(ValueId, ValueId),
    F32FromI32(ValueId),
    F32Neg(ValueId),
    F32Abs(ValueId),
    F32Add(ValueId, ValueId),
    F32Sub(ValueId, ValueId),
    F32Mul(ValueId, ValueId),
    F32Div(ValueId, ValueId),
    F32Min(ValueId, ValueId),
    F32Max(ValueId, ValueId),
    F32Powf(ValueId, ValueId),
    F32Powi(ValueId, ValueId),
    F32Exp(ValueId),
    F32Ln(ValueId),
    F32Lg(ValueId),
    F32Sin(ValueId),
    F32Cos(ValueId),
    F32Tan(ValueId),
    F32Cot(ValueId),
}

impl Instruction {
    pub open spec fn spec_result_type(self) -> Type {
        match self {
            Instruction::I32Const(_) => Type::I32,
            Instruction::F32Const(_) => Type::F32,
            Instruction::I32Add(_, _) => Type::I32,
            Instruction::I32Sub(_, _) => Type::I32,
            Instruction::I32Mul(_, _) => Type::I32,
            Instruction::F32FromI32(_) => Type::F32,
            Instruction::F32Neg(_) => Type::F32,
            Instruction::F32Abs(_) => Type::F32,
            Instruction::F32Add(_, _) => Type::F32,
            Instruction::F32Sub(_, _) => Type::F32,
            Instruction::F32Mul(_, _) => Type::F32,
            Instruction::F32Div(_, _) => Type::F32,
            Instruction::F32Min(_, _) => Type::F32,
            Instruction::F32Max(_, _) => Type::F32,
            Instruction::F32Powf(_, _) => Type::F32,
            Instruction::F32Powi(_, _) => Type::F32,
            Instruction::F32Exp(_) => Type::F32,
            Instruction::F32Ln(_) => Type::F32,
            Instruction::F32Lg(_) => Type::F32,
            Instruction::F32Sin(_) => Type::F32,
            Instruction::F32Cos(_) => Type::F32,
            Instruction::F32Tan(_) => Type::F32,
            Instruction::F32Cot(_) => Type::F32,
        }
    }

    /// The values that the instruction reads, each with the type it expects.
    pub open spec fn operands(self) -> Seq<(ValueId, Type)> {
        match self {
            Instruction::I32Const(_) => Seq::empty(),
            Instruction::F32Const(_) => Seq::empty(),
            Instruction::I32Add(a, b) => seq![(a, Type::I32), (b, Type::I32)],
            Instruction::I32Sub(a, b) => seq![(a, Type::I32), (b, Type::I32)],
            Instruction::I32Mul(a, b) => seq![(a, Type::I32), (b, Type::I32)],
            Instruction::F32FromI32(a) => seq![(a, Type::I32)],
            Instruction::F32Neg(a) => seq![(a, Type::F32)],
            Instruction::F32Abs(a) => seq![(a, Type::F32)],
            Instruction::F32Add(a, b) => seq![(a, Type::F32), (b, Type::F32)],
            Instruction::F32Sub(a, b) => seq![(a, Type::F32), (b, Type::F32)],
            Instruction::F32Mul(a, b) => seq![(a, Type::F32), (b, Type::F32)],
            Instruction::F32Div(a, b) => seq![(a, Type::F32), (b, Type::F32)],
            Instruction::F32Min(a, b) => seq![(a, Type::F32), (b, Type::F32)],
            Instruction::F32Max(a, b) => seq![(a, Type::F32), (b, Type::F32)],
            Instruction::F32Powf(a, b) => seq![(a, Type::F32), (b, Type::F32)],
            Instruction::F32Powi(a, b) => seq![(a, Type::F32), (b, Type::I32)],
            Instruction::F32Exp(a) => seq![(a, Type::F32)],
            Instruction::F32Ln(a) => seq![(a, Type::F32)],
            Instruction::F32Lg(a) => seq![(a, Type::F32)],
            Instruction::F32Sin(a) => seq![(a, Type::F32)],
            Instruction::F32Cos(a) => seq![(a, Type::F32)],
            Instruction::F32Tan(a) => seq![(a, Type::F32)],
            Instruction::F32Cot(a) => seq![(a, Type::F32)],
        }
    }

    pub fn result_type(&self) -> (r: Type)
        ensures
            r == self.spec_result_type(),
    {
        match self {
            Instruction::I32Const(_) => Type::I32,
            Instruction::F32Const(_) => Type::F32,
            Instruction::I32Add(_, _) => Type::I32,
            Instruction::I32Sub(_, _) => Type::I32,
            Instruction::I32Mul(_, _) => Type::I32,
            Instruction::F32FromI32(_) => Type::F32,
            Instruction::F32Neg(_) => Type::F32,
            Instruction::F32Abs(_) => Type::F32,
            Instruction::F32Add(_, _) => Type::F32,
            Instruction::F32Sub(_, _) => Type::F32,
            Instruction::F32Mul(_, _) => Type::F32,
            Instruction::F32Div(_, _) => Type::F32,
            Instruction::F32Min(_, _) => Type::F32,
            Instruction::F32Max(_, _) => Type::F32,
            Instruction::F32Powf(_, _) => Type::F32,
            Instruction::F32Powi(_, _) => Type::F32,
            Instruction::F32Exp(_) => Type::F32,
            Instruction::F32Ln(_) => Type::F32,
            Instruction::F32Lg(_) => Type::F32,
            Instruction::F32Sin(_) => Type::F32,
            Instruction::F32Cos(_) => Type::F32,
            Instruction::F32Tan(_) => Type::F32,
            Instruction::F32Cot(_) => Type::F32,
        }
    }

    /// The operands of the instruction, in order, with their expected types.
    pub fn operand_list(&self) -> (r: Vec<(ValueId, Type)>)
        ensures
            r@ == self.operands(),
    {
        let r = match *self {
            Instruction::I32Const(_) => Vec::new(),
            Instruction::F32Const(_) => Vec::new(),
            Instruction::I32Add(a, b) => vec![(a, Type::I32), (b, Type::I32)],
            Instruction::I32Sub(a, b) => vec![(a, Type::I32), (b, Type::I32)],
            Instruction::I32Mul(a, b) => vec![(a, Type::I32), (b, Type::I32)],
            Instruction::F32FromI32(a) => vec![(a, Type::I32)],
            Instruction::F32Neg(a) => vec![(a, Type::F32)],
            Instruction::F32Abs(a) => vec![(a, Type::F32)],
            Instruction::F32Add(a, b) => vec![(a, Type::F32), (b, Type::F32)],
            Instruction::F32Sub(a, b) => vec![(a, Type::F32), (b, Type::F32)],
            Instruction::F32Mul(a, b) => vec![(a, Type::F32), (b, Type::F32)],
            Instruction::F32Div(a, b) => vec![(a, Type::F32), (b, Type::F32)],
            Instruction::F32Min(a, b) => vec![(a, Type::F32), (b, Type::F32)],
            Instruction::F32Max(a, b) => vec![(a, Type::F32), (b, Type::F32)],
            Instruction::F32Powf(a, b) => vec![(a, Type::F32), (b, Type::F32)],
            Instruction::F32Powi(a, b) => vec![(a, Type::F32), (b, Type::I32)],
            Instruction::F32Exp(a) => vec![(a, Type::F32)],
            Instruction::F32Ln(a) => vec![(a, Type::F32)],
            Instruction::F32Lg(a) => vec![(a, Type::F32)],
            Instruction::F32Sin(a) => vec![(a, Type::F32)],
            Instruction::F32Cos(a) => vec![(a, Type::F32)],
            Instruction::F32Tan(a) => vec![(a, Type::F32)],
            Instruction::F32Cot(a) => vec![(a, Type::F32)],
        };
        r
    }
}
/// The instruction that defines value `dst` reads only values defined before it, each of
/// the type it expects.
pub open spec fn instruction_well_typed(values: Seq<Type>, dst: int, instr: Instruction) -> bool {
    forall|k: int|
        0 <= k < instr.operands().len() ==> {
            let (id, t) = #[trigger] instr.operands()[k];
            &&& (id.0 as int) < dst
            &&& values[id.0 as int] == t
        }
}

/// The instructions, after `num_params` parameters, with values of types `values`, are
/// well typed and end with a value of type `F32`.
pub open spec fn instructions_well_typed(num_params: int, values: Seq<Type>, instrs: Seq<Instruction>) -> bool {
    &&& values.len() > 0
    &&& values.last() == Type::F32
    &&& forall|k: int| 0 <= k < instrs.len() ==> instruction_well_typed(values, num_params + k, #[trigger] instrs[k])
}

/// Well-typed instructions that compute an `f32` from their parameters.
pub struct Instructions {
    num_params: usize,
    instrs: Vec<Instruction>,
}

impl Instructions {
    pub closed spec fn spec_num_params(&self) -> nat {
        self.num_params as nat
    }

    pub closed spec fn spec_instrs(&self) -> Seq<Instruction> {
        self.instrs@
    }

    /// A builder of instructions over parameters of types `params`.
    pub fn builder(params: Vec<Type>) -> (r: InstructionsBuilder)
        requires
            params@.len() <= u16::MAX,
        ensures
            r.wf(),
            r.spec_num_params() == params@.len(),
            r.spec_values() == params@,
            r.spec_instrs() == Seq::<Instruction>::empty(),
    {
        InstructionsBuilder { num_params: params.len(), values: params, instrs: Vec::new() }
    }

    pub fn num_params(&self) -> (r: usize)
        ensures
            r == self.spec_num_params(),
    {
        self.num_params
    }

    pub fn instrs(&self) -> (r: &[Instruction])
        ensures
            r@ == self.spec_instrs(),
    {
        self.instrs.as_slice()
    }
}

/// The instructions under construction failed their check.
#[derive(Debug)]
pub struct ValidateError;

/// Builds instructions one at a time.
pub struct InstructionsBuilder {
    num_params: usize,
    instrs: Vec<Instruction>,
    values: Vec<Type>,
}

impl InstructionsBuilder {
    pub closed spec fn spec_num_params(&self) -> nat {
        self.num_params as nat
    }

    pub closed spec fn spec_instrs(&self) -> Seq<Instruction> {
        self.instrs@
    }

    pub closed spec fn spec_values(&self) -> Seq<Type> {
        self.values@
    }

    /// The values are the parameters, then one per instruction, of its result type.
    pub open spec fn wf(&self) -> bool {
        &&& self.spec_values().len() <= u16::MAX
        &&& self.spec_values().len() == self.spec_num_params() + self.spec_instrs().len()
        &&& forall|k: int|
            0 <= k < self.spec_instrs().len() ==> self.spec_values()[self.spec_num_params() + k]
                == (#[trigger] self.spec_instrs()[k]).spec_result_type()
    }

    /// The id of parameter `index`.
    pub fn arg(&self, index: u32) -> (r: ValueId)
        requires
            self.wf(),
            index < self.spec_num_params(),
        ensures
            r.0 == index,
    {
        ValueId(index as u16)
    }

    /// Appends `instr`; the id of the value it defines.
    pub fn instr(&mut self, instr: Instruction) -> (r: ValueId)
        requires
            old(self).wf(),
            old(self).spec_values().len() < u16::MAX,
        ensures
            final(self).wf(),
            final(self).spec_num_params() == old(self).spec_num_params(),
            final(self).spec_instrs() == old(self).spec_instrs().push(instr),
            final(self).spec_values() == old(self).spec_values().push(instr.spec_result_type()),
            r.0 == old(self).spec_values().len(),
    {
        let index = self.values.len();
        self.values.push(instr.result_type());
        self.instrs.push(instr);
        ValueId(index as u16)
    }

    /// The instructions, when they are well typed.
    pub fn build(self) -> (r: Result<Instructions, ValidateError>)
        requires
            self.wf(),
        ensures
            r is Ok <==> instructions_well_typed(
                self.spec_num_params() as int,
                self.spec_values(),
                self.spec_instrs(),
            ),
            r matches Ok(built) ==> built.spec_num_params() == self.spec_num_params() && built.spec_instrs()
                == self.spec_instrs(),
    {
        self.validate()?;
        Ok(Instructions { num_params: self.num_params, instrs: self.instrs })
    }

    /// Checks that the last value is an `f32` and that every instruction reads earlier
    /// values of the types it expects.
    pub fn validate(&self) -> (r: Result<(), ValidateError>)
        requires
            self.wf(),
        ensures
            r is Ok <==> instructions_well_typed(
                self.spec_num_params() as int,
                self.spec_values(),
                self.spec_instrs(),
            ),
    {
        let n_values = self.values.len();
        if n_values == 0 || self.values[n_values - 1] != Type::F32 {
            return Err(ValidateError);
        }
        let num_params = self.num_params;
        let mut index: usize = 0;
        while index < self.instrs.len()
            invariant
                self.wf(),
                num_params == self.spec_num_params(),
                n_values == self.spec_values().len(),
                n_values > 0,
                self.spec_values().last() == Type::F32,
                index <= self.spec_instrs().len(),
                forall|k: int|
                    0 <= k < index ==> instruction_well_typed(self.spec_values(), num_params + k, #[trigger] self.spec_instrs()[k]),
            decreases self.spec_instrs().len() - index,
        {
            let instr = self.instrs[index];
            let cur_dst = num_params + index;
            let operands = instr.operand_list();
            let mut j: usize = 0;
            while j < operands.len()
                invariant
                    self.wf(),
                    instr == self.spec_instrs()[index as int],
                    index < self.spec_instrs().len(),
                    num_params == self.spec_num_params(),
                    operands@ == instr.operands(),
                    cur_dst == num_params + index,
                    n_values == self.spec_values().len(),
                    j <= operands@.len(),
                    forall|m: int|
                        0 <= m < j ==> {
                            let (id, t) = #[trigger] instr.operands()[m];
                            &&& (id.0 as int) < cur_dst
                            &&& self.spec_values()[id.0 as int] == t
                        },
                decreases operands@.len() - j,
            {
                let (id, t) = operands[j];
                let value = id.index();
                if !(value < cur_dst && self.values[value] == t) {
                    proof {
                        assert(!instruction_well_typed(self.spec_values(), num_params + index, self.spec_instrs()[index as int])) by {
                            assert(instr.operands()[j as int] == (id, t));
                        }
                    }
                    return Err(ValidateError);
                }
                j = j + 1;
            }
            index = index + 1;
        }
        Ok(())
    }
}

} // verus!
