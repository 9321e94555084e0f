use isoplot::instrs::{Instruction, Instructions, Type as IType, ValueId as IValueId};
use isoplot::tape::{Instr, Tape, Type, ValueId};

fn instrs(tape: &Tape) -> Vec<Instr> {
    tape.instrs().iter().map(|r| r.instr()).collect()
}

#[test]
fn extend_inlines_at_tail_of_builder() {
    // g(a) = a * a
    let mut b = Tape::builder(vec![Type::F32], vec![Type::F32]);
    let a = b.arg(0);
    b.f32_mul(a, a);
    let square = b.build().unwrap();

    // f(x) = g(x + 1) - x
    let one = 1.0f32.to_bits();
    let mut b = Tape::builder(vec![Type::F32], vec![Type::F32]);
    let x = b.arg(0);
    let c = b.f32_const(one);
    b.f32_add(x, c);
    let squared = b.extend(&square).result(0);
    assert_eq!(squared, ValueId(3));
    b.f32_sub(squared, x);
    let tape = b.build().unwrap();

    assert_eq!(
        instrs(&tape),
        [
            Instr::F32Const(one),
            Instr::F32Add(ValueId(0), ValueId(1)),
            Instr::F32Mul(ValueId(2), ValueId(2)),
            Instr::F32Sub(ValueId(3), ValueId(0)),
        ]
    );
    let ids: Vec<usize> = tape.instrs().iter().map(|r| r.index()).collect();
    assert_eq!(ids, [1, 2, 3, 4]);
}

#[test]
fn ill_typed_tapes_are_refused() {
    // An i32 operand where an f32 is expected.
    let mut b = Tape::builder(vec![Type::I32], vec![Type::F32]);
    let a = b.arg(0);
    b.f32_neg(a);
    assert!(b.validate().is_err());
    assert!(b.build().is_err());

    // The result has the wrong type.
    let mut b = Tape::builder(vec![Type::F32], vec![Type::F32]);
    let a = b.arg(0);
    let one = b.i32_const(1);
    b.i32_add(one, one);
    let _ = a;
    assert!(b.build().is_err());

    // An argument cannot be the result.
    let b = Tape::builder(vec![Type::F32], vec![Type::F32]);
    assert!(b.build().is_err());

    // A value read before it is defined.
    let mut b = Tape::builder(vec![], vec![Type::Bool]);
    b.push(Instr::Not(ValueId(0)));
    assert!(b.build().is_err());
}

#[test]
fn well_typed_tapes_are_built() {
    let mut b = Tape::builder(vec![Type::I32, Type::F32], vec![Type::F32]);
    let i = b.arg(0);
    let f = b.arg(1);
    let zero = b.i32_const(0);
    let cond = b.i32_lt(i, zero);
    let fi = b.f32_from_i32(i);
    b.f32_sel(cond, fi, f);
    let tape = b.build().unwrap();
    assert_eq!(tape.num_args(), 2);
    assert_eq!(tape.num_results(), 1);
    assert_eq!(tape.arg_types(), [Type::I32, Type::F32]);
    assert_eq!(tape.result_types(), [Type::F32]);
    assert_eq!(instrs(&tape).len(), 4);
}

#[test]
fn result_types_and_shifted_ids() {
    let instr = Instr::F32Powi(ValueId(1), ValueId(2));
    assert_eq!(instr.result_type(), Type::F32);
    assert_eq!(instr.shift_ids(10), Instr::F32Powi(ValueId(11), ValueId(12)));
    assert_eq!(
        instr.operand_list(),
        [(ValueId(1), Type::F32), (ValueId(2), Type::I32)]
    );
    assert_eq!(Instr::I32Eq(ValueId(0), ValueId(0)).result_type(), Type::Bool);
    assert_eq!(Instr::I32Const(3).shift_ids(5), Instr::I32Const(3));
}

#[test]
fn instructions_end_with_an_f32() {
    let mut b = Instructions::builder(vec![IType::F32, IType::I32]);
    let x = b.arg(0);
    let n = b.arg(1);
    b.instr(Instruction::F32Powi(x, n));
    let built = b.build().unwrap();
    assert_eq!(built.num_params(), 2);
    assert_eq!(built.instrs(), [Instruction::F32Powi(IValueId(0), IValueId(1))]);

    let mut b = Instructions::builder(vec![IType::F32]);
    b.instr(Instruction::I32Const(1));
    assert!(b.build().is_err());

    let mut b = Instructions::builder(vec![IType::I32]);
    let n = b.arg(0);
    b.instr(Instruction::F32Neg(n));
    assert!(b.validate().is_err());

    let b = Instructions::builder(vec![IType::F32]);
    assert!(b.validate().is_ok());
}
