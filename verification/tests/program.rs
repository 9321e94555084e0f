use isoplot::diag::{BytePos, Diagnostic, Span};
use isoplot::frontend::{CompileError, ProgramShape};
use isoplot::layout::{lower_type, RawValue, TypedValue, ValueType};
use isoplot::lower::PI_BITS;
use isoplot::program::{Program, ProgramDesc};
use isoplot::render::render_diagnostics;
use isoplot::tape::{Instr, Type, ValueId};

fn compile(shape: &ProgramShape, consts: Vec<u32>, source: &str) -> Result<Vec<Instr>, CompileError> {
    let desc = ProgramDesc::new(shape, consts);
    let float_bits = |span: Span| {
        source[span.start.index()..span.end.index()]
            .parse::<f32>()
            .unwrap()
            .to_bits()
    };
    Program::compile(&desc, source, float_bits)
        .map(|program| program.tape().instrs().iter().map(|r| r.instr()).collect())
}

fn x_shape() -> ProgramShape {
    ProgramShape::builder().with_input("x").build()
}

#[test]
fn integers_are_promoted_where_floats_meet_them() {
    assert_eq!(
        compile(&x_shape(), vec![], "x * 2 + 1").unwrap(),
        [
            Instr::I32Const(2),
            Instr::F32FromI32(ValueId(1)),
            Instr::F32Mul(ValueId(0), ValueId(2)),
            Instr::I32Const(1),
            Instr::F32FromI32(ValueId(4)),
            Instr::F32Add(ValueId(3), ValueId(5)),
        ]
    );
}

#[test]
fn integer_results_are_converted() {
    assert_eq!(
        compile(&x_shape(), vec![], "-2").unwrap(),
        [
            Instr::I32Const(2),
            Instr::I32Const(0),
            Instr::I32Sub(ValueId(2), ValueId(1)),
            Instr::F32FromI32(ValueId(3)),
        ]
    );
}

#[test]
fn an_input_as_result_is_copied() {
    assert_eq!(
        compile(&x_shape(), vec![], "x").unwrap(),
        [Instr::F32Max(ValueId(0), ValueId(0))]
    );
    assert_eq!(
        compile(&x_shape(), vec![], "+x").unwrap(),
        [Instr::F32Max(ValueId(0), ValueId(0))]
    );
    assert_eq!(
        compile(&x_shape(), vec![], "-x").unwrap(),
        [Instr::F32Neg(ValueId(0))]
    );
}

#[test]
fn literals_constants_and_calls() {
    let shape = ProgramShape::builder().with_input("x").with_const("k").build();
    let k = 2.5f32.to_bits();
    assert_eq!(
        compile(&shape, vec![k], "max(k, pi) ^ 2").unwrap(),
        [
            Instr::F32Const(k),
            Instr::F32Const(PI_BITS),
            Instr::F32Max(ValueId(1), ValueId(2)),
            Instr::I32Const(2),
            Instr::F32Powi(ValueId(3), ValueId(4)),
        ]
    );
    assert_eq!(PI_BITS, std::f32::consts::PI.to_bits());
    assert_eq!(
        compile(&shape, vec![k], "sin(0.5)").unwrap(),
        [Instr::F32Const(0.5f32.to_bits()), Instr::F32Sin(ValueId(1))]
    );
}

#[test]
fn compile_errors() {
    match compile(&x_shape(), vec![], "x +") {
        Err(CompileError::Parse(error)) => {
            assert_eq!(error.diagnostics().len(), 1);
            assert_eq!(
                error.diagnostics()[0].message(),
                "expected an expression, but found end of input"
            );
        }
        _ => panic!("expected a parse error"),
    }
    match compile(&x_shape(), vec![], "x + y") {
        Err(CompileError::Validate(error)) => {
            assert_eq!(error.diagnostics()[0].message(), "unknown variable `y`");
        }
        _ => panic!("expected a validation error"),
    }
    match compile(&x_shape(), vec![], "(y") {
        Err(error @ CompileError::Parse(_)) => {
            let messages: Vec<&str> = error.diagnostics().iter().map(|d| d.message()).collect();
            assert_eq!(
                messages,
                ["expected `)`, but found end of input", "unknown variable `y`"]
            );
        }
        _ => panic!("expected a parse error"),
    }
}

#[test]
fn diagnostics_render_under_the_source() {
    let source = "x + y";
    let diags = [Diagnostic::new(
        "unknown variable `y`".to_owned(),
        Span::new(BytePos(4), BytePos(5)),
    )];
    assert_eq!(
        render_diagnostics(source, &diags),
        "error: unknown variable `y`\n  x + y\n      ^"
    );

    let source = "é + yy";
    let diags = [
        Diagnostic::new("first".to_owned(), Span::new(BytePos(5), BytePos(7))),
        Diagnostic::new("second".to_owned(), Span::new(BytePos(7), BytePos(7))),
    ];
    assert_eq!(
        render_diagnostics(source, &diags),
        "error: first\n  é + yy\n      ^^\nerror: second\n  é + yy\n        ^"
    );
    assert_eq!(render_diagnostics(source, &[]), "");
}

#[test]
fn raw_values_hold_i32_bits() {
    assert_eq!(RawValue::from_i32(-1).bits(), u32::MAX);
    assert_eq!(RawValue::from_i32(-1).as_i32(), -1);
    assert_eq!(RawValue::from_i32(i32::MIN).as_i32(), i32::MIN);
    assert_eq!(RawValue::zero().bits(), 0);
    let v = TypedValue::from(7i32);
    assert_eq!(v.ty(), ValueType::I32);
    assert_eq!(v.value().as_i32(), 7);
    let f = TypedValue::from_f32_bits(1.5f32.to_bits());
    assert_eq!(f.ty(), ValueType::F32);
    assert_eq!(f32::from_bits(f.value().bits()), 1.5);
    assert_eq!(lower_type(ValueType::I32), Type::I32);
    assert_eq!(lower_type(ValueType::F32), Type::F32);
}
