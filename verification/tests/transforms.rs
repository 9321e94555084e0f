use isoplot::interval::{
    is_translatable, translate, FRAC_PI_2_BITS, FRAC_PI_2_PLUS_PI_BITS, HALF_BITS, MAX_BITS, MIN_POSITIVE_BITS, NEG_MAX_BITS,
    NEG_ONE_BITS, ONE_BITS, PI_BITS, RECIP_PI_BITS, RECIP_TWO_PI_BITS, ZERO_BITS,
};
use isoplot::autodiff::{autodiff, is_differentiable, LOG10_E_BITS};
use isoplot::program::{Program, ProgramDesc};
use isoplot::frontend::ProgramShape;
use isoplot::diag::Span;
use isoplot::tape::{Instr, Tape, Type, ValueId};
use std::f32::consts::{FRAC_PI_2, PI};

#[derive(Copy, Clone, Debug, PartialEq)]
enum Val {
    I(i32),
    B(bool),
    F(f32),
}

fn i(v: Val) -> i32 {
    match v {
        Val::I(x) => x,
        _ => panic!("expected an i32"),
    }
}

fn b(v: Val) -> bool {
    match v {
        Val::B(x) => x,
        _ => panic!("expected a bool"),
    }
}

fn f(v: Val) -> f32 {
    match v {
        Val::F(x) => x,
        _ => panic!("expected an f32"),
    }
}

/// Runs a tape over `f32` arguments, with the semantics of the reference evaluator.
fn run(tape: &Tape, args: &[f32]) -> Vec<f32> {
    assert_eq!(args.len(), tape.num_args());
    let mut buf: Vec<Val> = args.iter().map(|&a| Val::F(a)).collect();
    for r in tape.instrs() {
        let g = |id: ValueId| buf[id.index()];
        let v = match r.instr() {
            Instr::I32Const(x) => Val::I(x),
            Instr::BoolConst(x) => Val::B(x),
            Instr::F32Const(x) => Val::F(f32::from_bits(x)),
            Instr::CopyI32(a) | Instr::CopyBool(a) | Instr::CopyF32(a) => g(a),
            Instr::I32Add(x, y) => Val::I(i(g(x)).wrapping_add(i(g(y)))),
            Instr::I32Sub(x, y) => Val::I(i(g(x)).wrapping_sub(i(g(y)))),
            Instr::I32Mul(x, y) => Val::I(i(g(x)).wrapping_mul(i(g(y)))),
            Instr::I32Eq(x, y) => Val::B(i(g(x)) == i(g(y))),
            Instr::I32Ne(x, y) => Val::B(i(g(x)) != i(g(y))),
            Instr::I32Lt(x, y) => Val::B(i(g(x)) < i(g(y))),
            Instr::I32Le(x, y) => Val::B(i(g(x)) <= i(g(y))),
            Instr::I32Gt(x, y) => Val::B(i(g(x)) > i(g(y))),
            Instr::I32Ge(x, y) => Val::B(i(g(x)) >= i(g(y))),
            Instr::Not(x) => Val::B(!b(g(x))),
            Instr::And(x, y) => Val::B(b(g(x)) & b(g(y))),
            Instr::Or(x, y) => Val::B(b(g(x)) | b(g(y))),
            Instr::Xor(x, y) => Val::B(b(g(x)) ^ b(g(y))),
            Instr::I32FromBool(x) => Val::I(b(g(x)) as i32),
            Instr::F32FromI32(x) => Val::F(i(g(x)) as f32),
            Instr::F32FromBool(x) => Val::F(b(g(x)) as i32 as f32),
            Instr::F32Neg(x) => Val::F(-f(g(x))),
            Instr::F32Abs(x) => Val::F(f(g(x)).abs()),
            Instr::F32Sign(x) => Val::F(1.0f32.copysign(f(g(x)))),
            Instr::F32Floor(x) => Val::F(f(g(x)).floor()),
            Instr::F32Add(x, y) => Val::F(f(g(x)) + f(g(y))),
            Instr::F32Sub(x, y) => Val::F(f(g(x)) - f(g(y))),
            Instr::F32Mul(x, y) => Val::F(f(g(x)) * f(g(y))),
            Instr::F32Div(x, y) => Val::F(f(g(x)) / f(g(y))),
            Instr::F32Min(x, y) => Val::F(f(g(x)).min(f(g(y)))),
            Instr::F32Max(x, y) => Val::F(f(g(x)).max(f(g(y)))),
            Instr::F32Powf(x, y) => Val::F(f(g(x)).powf(f(g(y)))),
            Instr::F32Powi(x, y) => Val::F(f(g(x)).powi(i(g(y)))),
            Instr::F32Exp(x) => Val::F(f(g(x)).exp()),
            Instr::F32Ln(x) => Val::F(f(g(x)).ln()),
            Instr::F32Lg(x) => Val::F(f(g(x)).log10()),
            Instr::F32Sin(x) => Val::F(f(g(x)).sin()),
            Instr::F32Cos(x) => Val::F(f(g(x)).cos()),
            Instr::F32Tan(x) => Val::F(f(g(x)).tan()),
            Instr::F32Cot(x) => Val::F(f(g(x)).tan().recip()),
            Instr::F32Eq(x, y) => Val::B(f(g(x)) == f(g(y))),
            Instr::F32Ne(x, y) => Val::B(f(g(x)) != f(g(y))),
            Instr::F32Lt(x, y) => Val::B(f(g(x)) < f(g(y))),
            Instr::F32Le(x, y) => Val::B(f(g(x)) <= f(g(y))),
            Instr::F32Gt(x, y) => Val::B(f(g(x)) > f(g(y))),
            Instr::F32Ge(x, y) => Val::B(f(g(x)) >= f(g(y))),
            Instr::I32Sel(c, x, y) | Instr::F32Sel(c, x, y) => {
                if b(g(c)) {
                    g(x)
                } else {
                    g(y)
                }
            }
        };
        assert_eq!(r.index(), buf.len());
        buf.push(v);
    }
    let m = tape.num_results();
    buf[buf.len() - m..].iter().map(|&v| f(v)).collect()
}

#[derive(Copy, Clone, Debug, PartialEq)]
struct Interval {
    lo: f32,
    hi: f32,
}

fn interval(lo: f32, hi: f32) -> Interval {
    assert!(lo <= hi);
    Interval { lo, hi }
}

fn eval(tape: &Tape, args: &[Interval]) -> Interval {
    let tape = translate(tape);
    assert_eq!(tape.num_args(), 2 * args.len());
    assert_eq!(tape.num_results(), 2);
    let flat: Vec<f32> = args.iter().flat_map(|x| [x.lo, x.hi]).collect();
    let out = run(&tape, &flat);
    Interval { lo: out[0], hi: out[1] }
}

fn unary(op: fn(ValueId) -> Instr) -> Tape {
    let mut b = Tape::builder(vec![Type::F32], vec![Type::F32]);
    let x = b.arg(0);
    b.push(op(x));
    b.build().unwrap()
}

fn binary(op: fn(ValueId, ValueId) -> Instr) -> Tape {
    let mut b = Tape::builder(vec![Type::F32; 2], vec![Type::F32]);
    let (x, y) = (b.arg(0), b.arg(1));
    b.push(op(x, y));
    b.build().unwrap()
}

fn powi(n: i32) -> Tape {
    let mut b = Tape::builder(vec![Type::F32], vec![Type::F32]);
    let x = b.arg(0);
    let n = b.i32_const(n);
    b.f32_powi(x, n);
    b.build().unwrap()
}

fn assert_close(actual: Interval, expected: Interval) {
    assert!(
        (actual.lo - expected.lo).abs() < 1e-5 && (actual.hi - expected.hi).abs() < 1e-5,
        "expected {expected:?}, got {actual:?}"
    );
}

fn assert_wide(actual: Interval) {
    assert!(actual.lo <= -1e30 && actual.hi >= 1e30, "{actual:?}");
}

#[test]
fn arithmetic() {
    let (x, y) = (interval(-1.0, 2.0), interval(3.0, 5.0));
    assert_eq!(eval(&binary(Instr::F32Add), &[x, y]), interval(2.0, 7.0));
    assert_eq!(eval(&binary(Instr::F32Sub), &[x, y]), interval(-6.0, -1.0));
    assert_eq!(eval(&binary(Instr::F32Mul), &[x, y]), interval(-5.0, 10.0));
    assert_eq!(eval(&binary(Instr::F32Mul), &[x, x]), interval(-2.0, 4.0));
    assert_eq!(eval(&binary(Instr::F32Min), &[x, y]), interval(-1.0, 2.0));
    assert_eq!(eval(&binary(Instr::F32Max), &[x, y]), interval(3.0, 5.0));
    assert_eq!(eval(&unary(Instr::F32Neg), &[x]), interval(-2.0, 1.0));
    assert_eq!(eval(&unary(Instr::F32Abs), &[x]), interval(0.0, 2.0));
    assert_eq!(eval(&unary(Instr::F32Abs), &[interval(-3.0, -1.0)]), interval(1.0, 3.0));
    assert_eq!(eval(&unary(Instr::F32Sign), &[x]), interval(-1.0, 1.0));
    assert_eq!(eval(&unary(Instr::F32Sign), &[y]), interval(1.0, 1.0));
    assert_eq!(eval(&unary(Instr::F32Floor), &[interval(-1.5, 2.3)]), interval(-2.0, 2.0));
}

#[test]
fn division() {
    let tape = binary(Instr::F32Div);
    assert_eq!(eval(&tape, &[interval(1.0, 2.0), interval(2.0, 4.0)]), interval(0.25, 1.0));
    assert_eq!(eval(&tape, &[interval(1.0, 2.0), interval(-4.0, -2.0)]), interval(-1.0, -0.25));
    assert_wide(eval(&tape, &[interval(1.0, 2.0), interval(-1.0, 1.0)]));
}

#[test]
fn integer_powers() {
    let square = powi(2);
    assert_eq!(eval(&square, &[interval(-1.0, 2.0)]), interval(0.0, 4.0));
    assert_eq!(eval(&square, &[interval(1.0, 2.0)]), interval(1.0, 4.0));
    assert_eq!(eval(&square, &[interval(-3.0, -2.0)]), interval(4.0, 9.0));

    let cube = powi(3);
    assert_eq!(eval(&cube, &[interval(-1.0, 2.0)]), interval(-1.0, 8.0));

    let inverse = powi(-1);
    assert_eq!(eval(&inverse, &[interval(1.0, 2.0)]), interval(0.5, 1.0));
    assert_wide(eval(&inverse, &[interval(-1.0, 2.0)]));

    let touching = eval(&inverse, &[interval(0.0, 2.0)]);
    assert!(
        touching.lo == 0.5 && touching.hi >= 1e30 && touching.hi.is_finite(),
        "{touching:?}"
    );
}

#[test]
fn real_powers() {
    let tape = binary(Instr::F32Powf);
    assert_close(eval(&tape, &[interval(1.0, 2.0), interval(2.0, 3.0)]), interval(1.0, 8.0));
    assert_close(eval(&tape, &[interval(2.0, 4.0), interval(-1.0, 0.5)]), interval(0.25, 2.0));
}

#[test]
fn transcendental() {
    assert_close(eval(&unary(Instr::F32Exp), &[interval(0.0, 1.0)]), interval(1.0, 1f32.exp()));
    assert_close(eval(&unary(Instr::F32Ln), &[interval(1.0, 4.0)]), interval(0.0, 4f32.ln()));
    assert_close(eval(&unary(Instr::F32Lg), &[interval(1.0, 100.0)]), interval(0.0, 2.0));

    let lowest = f32::MIN_POSITIVE.ln();
    assert_close(eval(&unary(Instr::F32Ln), &[interval(-1.0, 4.0)]), interval(lowest, 4f32.ln()));
    assert_close(eval(&unary(Instr::F32Ln), &[interval(-2.0, -1.0)]), interval(lowest, lowest));

    let sin = unary(Instr::F32Sin);
    assert_close(eval(&sin, &[interval(0.0, 0.2)]), interval(0.0, 0.2f32.sin()));
    assert_close(eval(&sin, &[interval(1.0, 2.0)]), interval(1f32.sin(), 1.0));
    assert_close(eval(&sin, &[interval(3.0, 5.0)]), interval(-1.0, 3f32.sin()));
    assert_eq!(eval(&sin, &[interval(-100.0, 100.0)]), interval(-1.0, 1.0));

    let cos = unary(Instr::F32Cos);
    assert_close(eval(&cos, &[interval(-0.1, 0.1)]), interval(0.1f32.cos(), 1.0));
    assert_close(eval(&cos, &[interval(1.0, 2.0)]), interval(2f32.cos(), 1f32.cos()));
    assert_close(eval(&cos, &[interval(3.0, 7.0)]), interval(-1.0, 1.0));
}

#[test]
fn tangent() {
    let tan = unary(Instr::F32Tan);
    assert_close(eval(&tan, &[interval(0.0, 1.0)]), interval(0.0, 1f32.tan()));
    assert_close(
        eval(&tan, &[interval(-1.0, -0.5)]),
        interval((-1f32).tan(), (-0.5f32).tan()),
    );
    assert_wide(eval(&tan, &[interval(1.0, 2.0)]));
    assert_wide(eval(&tan, &[interval(0.0, 4.0)]));

    let cot = unary(Instr::F32Cot);
    assert_close(
        eval(&cot, &[interval(0.5, 1.0)]),
        interval(1f32.tan().recip(), 0.5f32.tan().recip()),
    );
    assert_wide(eval(&cot, &[interval(-0.5, 0.5)]));
}

#[test]
fn select() {
    // f = if x < y { x } else { y }
    let mut b = Tape::builder(vec![Type::F32; 2], vec![Type::F32]);
    let (x, y) = (b.arg(0), b.arg(1));
    let lt = b.f32_lt(x, y);
    b.f32_sel(lt, x, y);
    let tape = b.build().unwrap();

    // The condition is decided when the ranges are disjoint.
    assert_eq!(eval(&tape, &[interval(0.0, 1.0), interval(2.0, 3.0)]), interval(0.0, 1.0));
    assert_eq!(eval(&tape, &[interval(4.0, 5.0), interval(2.0, 3.0)]), interval(2.0, 3.0));

    // Overlapping ranges leave it undecided, so the branches merge.
    assert_eq!(eval(&tape, &[interval(0.0, 3.0), interval(2.0, 5.0)]), interval(0.0, 5.0));
}

#[test]
fn definite_conditions() {
    // f = x * float(if 1 < 2 { 3 } else { 4 })
    let mut b = Tape::builder(vec![Type::F32], vec![Type::F32]);
    let x = b.arg(0);
    let one = b.i32_const(1);
    let two = b.i32_const(2);
    let lt = b.i32_lt(one, two);
    let three = b.i32_const(3);
    let four = b.i32_const(4);
    let sel = b.i32_sel(lt, three, four);
    let scale = b.f32_from_i32(sel);
    b.f32_mul(x, scale);
    let tape = b.build().unwrap();

    assert_eq!(eval(&tape, &[interval(-1.0, 2.0)]), interval(-3.0, 6.0));
}

#[test]
fn mixed_i32() {
    // f = x * float(2 + 1)
    let mut b = Tape::builder(vec![Type::F32], vec![Type::F32]);
    let x = b.arg(0);
    let two = b.i32_const(2);
    let one = b.i32_const(1);
    let three = b.i32_add(two, one);
    let three = b.f32_from_i32(three);
    b.f32_mul(x, three);
    let tape = b.build().unwrap();

    assert_eq!(eval(&tape, &[interval(-1.0, 2.0)]), interval(-3.0, 6.0));
}

#[test]
fn interval_constants_are_the_f32_values() {
    assert_eq!(f32::from_bits(ZERO_BITS), 0.0);
    assert_eq!(f32::from_bits(ONE_BITS), 1.0);
    assert_eq!(f32::from_bits(NEG_ONE_BITS), -1.0);
    assert_eq!(f32::from_bits(HALF_BITS), 0.5);
    assert_eq!(f32::from_bits(MAX_BITS), f32::MAX);
    assert_eq!(f32::from_bits(NEG_MAX_BITS), -f32::MAX);
    assert_eq!(f32::from_bits(MIN_POSITIVE_BITS), f32::MIN_POSITIVE);
    assert_eq!(f32::from_bits(FRAC_PI_2_BITS), FRAC_PI_2);
    assert_eq!(f32::from_bits(PI_BITS), PI);
    assert_eq!(f32::from_bits(FRAC_PI_2_PLUS_PI_BITS), FRAC_PI_2 + PI);
    assert_eq!(f32::from_bits(RECIP_PI_BITS), PI.recip());
    assert_eq!(f32::from_bits(RECIP_TWO_PI_BITS), (2.0 * PI).recip());
}

#[test]
fn boolean_results_of_definite_logic_stay_points() {
    // f = float((1 < 2) xor !(3 == 3)) + x; the condition is known, so one f32 conversion.
    let mut b = Tape::builder(vec![Type::F32], vec![Type::F32]);
    let x = b.arg(0);
    let one = b.i32_const(1);
    let two = b.i32_const(2);
    let lt = b.i32_lt(one, two);
    let three = b.i32_const(3);
    let eq = b.i32_eq(three, three);
    let ne = b.not(eq);
    let xor = b.xor(lt, ne);
    let v = b.f32_from_bool(xor);
    b.f32_add(v, x);
    let tape = b.build().unwrap();
    assert_eq!(eval(&tape, &[interval(-1.0, 2.0)]), interval(0.0, 3.0));
    let translated = translate(&tape);
    let conversions = translated
        .instrs()
        .iter()
        .filter(|r| matches!(r.instr(), Instr::F32FromBool(_)))
        .count();
    assert_eq!(conversions, 1);
}

#[test]
fn uncertain_comparisons_bound_both_ways() {
    // f = float(x < y) and float(x != y)
    let mut b = Tape::builder(vec![Type::F32; 2], vec![Type::F32; 2]);
    let (x, y) = (b.arg(0), b.arg(1));
    let lt = b.f32_lt(x, y);
    let ne = b.f32_ne(x, y);
    let lt = b.f32_from_bool(lt);
    b.f32_from_bool(ne);
    b.copy_f32(lt);
    let tape = b.build().unwrap();
    let translated = translate(&tape);
    assert_eq!(translated.num_args(), 4);
    assert_eq!(translated.num_results(), 4);
    // Overlapping: the comparison may go either way.
    assert_eq!(run(&translated, &[0.0, 3.0, 2.0, 5.0]), [0.0, 1.0, 0.0, 1.0]);
    // Disjoint: both are known.
    assert_eq!(run(&translated, &[0.0, 1.0, 2.0, 5.0]), [1.0, 1.0, 1.0, 1.0]);
    // Equal points: known unequal is false.
    assert_eq!(run(&translated, &[2.0, 2.0, 2.0, 2.0]), [0.0, 0.0, 0.0, 0.0]);
}

#[test]
fn interval_program_doubles_the_shape() {
    let shape = ProgramShape::builder().with_input("x").with_input("y").build();
    let desc = ProgramDesc::new(&shape, vec![]);
    let source = "x * y + 1";
    let float_bits = |span: Span| source[span.start.index()..span.end.index()].parse::<f32>().unwrap().to_bits();
    let program = Program::compile(&desc, source, float_bits).unwrap();
    let ranged = program.interval();
    assert_eq!(ranged.tape().arg_types(), [Type::F32; 4]);
    assert_eq!(ranged.tape().result_types(), [Type::F32; 2]);
    let out = run(ranged.tape(), &[-1.0, 2.0, 3.0, 5.0]);
    assert_eq!(out, [-4.0, 11.0]);
}

fn gradient(tape: &Tape, inputs: &[f32]) -> Vec<f32> {
    let grad = autodiff(tape);
    assert_eq!(grad.num_args(), inputs.len());
    assert_eq!(grad.num_results(), 1 + inputs.len());
    run(&grad, inputs)
}

#[test]
fn polynomial() {
    // f = x*y + x
    let mut b = Tape::builder(vec![Type::F32; 2], vec![Type::F32]);
    let x = b.arg(0);
    let y = b.arg(1);
    let xy = b.f32_mul(x, y);
    b.f32_add(xy, x);
    let tape = b.build().unwrap();

    let (x, y) = (3.0f32, 5.0f32);
    assert_eq!(gradient(&tape, &[x, y]), [x * y + x, y + 1.0, x]);
}

#[test]
fn shared_operand() {
    // f = x*x
    let mut b = Tape::builder(vec![Type::F32], vec![Type::F32]);
    let x = b.arg(0);
    b.f32_mul(x, x);
    let tape = b.build().unwrap();

    let x = 1.75f32;
    assert_eq!(gradient(&tape, &[x]), [x * x, x + x]);
}

#[test]
fn chain_rule() {
    // f = sin(x) * exp(x)
    let mut b = Tape::builder(vec![Type::F32], vec![Type::F32]);
    let x = b.arg(0);
    let sin = b.f32_sin(x);
    let exp = b.f32_exp(x);
    b.f32_mul(sin, exp);
    let tape = b.build().unwrap();

    let x = 0.7f32;
    let expected = x.sin() * x.exp() + x.exp() * x.cos();
    assert_eq!(gradient(&tape, &[x]), [x.sin() * x.exp(), expected]);
}

#[test]
fn min_selects_branch() {
    // f = min(x, y*y)
    let mut b = Tape::builder(vec![Type::F32; 2], vec![Type::F32]);
    let x = b.arg(0);
    let y = b.arg(1);
    let yy = b.f32_mul(y, y);
    b.f32_min(x, yy);
    let tape = b.build().unwrap();

    // x selected
    assert_eq!(gradient(&tape, &[1.0, 2.0]), [1.0, 1.0, 0.0]);

    // y*y selected
    assert_eq!(gradient(&tape, &[5.0, 2.0]), [4.0, 0.0, 4.0]);

    // a tie, x wins
    assert_eq!(gradient(&tape, &[4.0, 2.0]), [4.0, 1.0, 0.0]);
}

#[test]
fn equal_operand_min_max() {
    // f = max(x, x)
    let mut b = Tape::builder(vec![Type::F32], vec![Type::F32]);
    let x = b.arg(0);
    b.f32_max(x, x);
    let tape = b.build().unwrap();
    assert_eq!(gradient(&tape, &[3.0]), [3.0, 1.0]);
}

#[test]
fn powi_and_abs() {
    // f = |x^3|
    let mut b = Tape::builder(vec![Type::F32], vec![Type::F32]);
    let x = b.arg(0);
    let n = b.i32_const(3);
    let cube = b.f32_powi(x, n);
    b.f32_abs(cube);
    let tape = b.build().unwrap();

    assert_eq!(gradient(&tape, &[2.0]), [8.0, 12.0]);
    assert_eq!(gradient(&tape, &[-2.0]), [8.0, -12.0]);

    // must be finite everywhere
    assert_eq!(gradient(&tape, &[0.0]), [0.0, 0.0]);
}

#[test]
fn select_gradient() {
    // f = if x < 2 { x*x } else { x }
    let mut b = Tape::builder(vec![Type::F32], vec![Type::F32]);
    let x = b.arg(0);
    let two = b.f32_const(2.0f32.to_bits());
    let lt = b.f32_lt(x, two);
    let sq = b.f32_mul(x, x);
    b.f32_sel(lt, sq, x);
    let tape = b.build().unwrap();

    assert_eq!(gradient(&tape, &[1.0]), [1.0, 2.0]);
    assert_eq!(gradient(&tape, &[3.0]), [3.0, 1.0]);
}

#[test]
fn unused_argument() {
    // f = y, x unused
    let mut b = Tape::builder(vec![Type::F32; 2], vec![Type::F32]);
    let y = b.arg(1);
    b.copy_f32(y);
    let tape = b.build().unwrap();
    assert_eq!(gradient(&tape, &[3.0, 7.0]), [7.0, 0.0, 1.0]);
}

#[test]
fn gradient_tape_starts_with_the_function() {
    // f = ln(x) + lg(y); the gradient tape computes f first, then copies its value.
    let mut b = Tape::builder(vec![Type::F32; 3], vec![Type::F32]);
    let x = b.arg(0);
    let y = b.arg(1);
    let ln = b.f32_ln(x);
    let lg = b.f32_lg(y);
    b.f32_add(ln, lg);
    let tape = b.build().unwrap();
    let grad = autodiff(&tape);
    let source: Vec<Instr> = tape.instrs().iter().map(|r| r.instr()).collect();
    let out: Vec<Instr> = grad.instrs().iter().map(|r| r.instr()).collect();
    assert_eq!(out[..source.len()], source[..]);
    assert_eq!(out[out.len() - 4], Instr::CopyF32(ValueId(5)));
    // The third argument is read by nothing: its derivative is the constant zero.
    assert_eq!(out[out.len() - 1], Instr::F32Const(0));
    let got = gradient(&tape, &[2.0, 10.0, 4.0]);
    assert_eq!(got[0], 2f32.ln() + 1.0);
    assert!((got[1] - 0.5).abs() < 1e-6);
    assert!((got[2] - std::f32::consts::LOG10_E / 10.0).abs() < 1e-6);
    assert_eq!(got[3], 0.0);
    assert_eq!(f32::from_bits(LOG10_E_BITS), std::f32::consts::LOG10_E);
}

#[test]
fn gradient_program_of_compiled_source() {
    let shape = ProgramShape::builder().with_input("x").build();
    let desc = ProgramDesc::new(&shape, vec![]);
    let source = "x * x * x";
    let float_bits = |span: Span| source[span.start.index()..span.end.index()].parse::<f32>().unwrap().to_bits();
    let program = Program::compile(&desc, source, float_bits).unwrap();
    let grad = program.autodiff();
    assert_eq!(grad.tape().arg_types(), [Type::F32]);
    assert_eq!(grad.tape().result_types(), [Type::F32; 2]);
    assert_eq!(run(grad.tape(), &[2.0]), [8.0, 12.0]);
}

#[test]
fn tapes_are_checked_before_translation() {
    // A data-dependent i32: the condition compares f32s.
    let mut b = Tape::builder(vec![Type::F32], vec![Type::F32]);
    let x = b.arg(0);
    let zero = b.f32_const(0);
    let lt = b.f32_lt(x, zero);
    let one = b.i32_const(1);
    let two = b.i32_const(2);
    let sel = b.i32_sel(lt, one, two);
    b.f32_from_i32(sel);
    let dependent = b.build().unwrap();
    assert!(!is_translatable(&dependent));
    assert!(is_differentiable(&dependent));

    // The same with an i32 comparison is known everywhere.
    let mut b = Tape::builder(vec![Type::F32], vec![Type::F32]);
    let _x = b.arg(0);
    let one = b.i32_const(1);
    let two = b.i32_const(2);
    let lt = b.i32_lt(one, two);
    let not = b.not(lt);
    let sel = b.i32_sel(not, one, two);
    b.f32_from_i32(sel);
    let known = b.build().unwrap();
    assert!(is_translatable(&known));
    assert_eq!(eval(&known, &[interval(0.0, 1.0)]), interval(2.0, 2.0));

    // An i32 argument can be neither translated nor differentiated.
    let mut b = Tape::builder(vec![Type::I32], vec![Type::F32]);
    let n = b.arg(0);
    b.f32_from_i32(n);
    let integer = b.build().unwrap();
    assert!(!is_translatable(&integer));
    assert!(!is_differentiable(&integer));

    // Two results cannot be differentiated, but can be translated.
    let mut b = Tape::builder(vec![Type::F32], vec![Type::F32; 2]);
    let x = b.arg(0);
    b.f32_neg(x);
    b.f32_abs(x);
    let pair = b.build().unwrap();
    assert!(is_translatable(&pair));
    assert!(!is_differentiable(&pair));
}

#[test]
fn gradients_of_compiled_programs_translate_to_ranges() {
    // The value and gradient of f = x * y + sin(x), over ranges of x and y.
    let shape = ProgramShape::builder().with_input("x").with_input("y").build();
    let desc = ProgramDesc::new(&shape, vec![]);
    let source = "x * y + sin(x)";
    let float_bits = |span: Span| source[span.start.index()..span.end.index()].parse::<f32>().unwrap().to_bits();
    let program = Program::compile(&desc, source, float_bits).unwrap();
    let grad = program.autodiff();
    assert!(is_translatable(program.tape()));
    assert!(is_translatable(grad.tape()));
    let bounds = grad.interval();
    assert_eq!(bounds.tape().arg_types(), [Type::F32; 4]);
    assert_eq!(bounds.tape().result_types(), [Type::F32; 6]);
    // A point range gives the point values: f, df/dx = y + cos(x), df/dy = x.
    let (x, y) = (0.5f32, 2.0f32);
    let out = run(bounds.tape(), &[x, x, y, y]);
    let expected = [x * y + x.sin(), y + x.cos(), x];
    for (i, e) in expected.iter().enumerate() {
        assert!((out[2 * i] - e).abs() < 1e-6 && (out[2 * i + 1] - e).abs() < 1e-6, "{out:?}");
    }
}

#[test]
fn extend_inlines_at_tail() {
    // g(a) = a * a
    let mut b = Tape::builder(vec![Type::F32], vec![Type::F32]);
    let a = b.arg(0);
    b.f32_mul(a, a);
    let square = b.build().unwrap();

    // f(x) = g(x + 1) - x
    let mut b = Tape::builder(vec![Type::F32], vec![Type::F32]);
    let x = b.arg(0);
    let one = b.f32_const(1.0f32.to_bits());
    b.f32_add(x, one);
    let squared = b.extend(&square).result(0);
    b.f32_sub(squared, x);
    let tape = b.build().unwrap();

    let result = run(&tape, &[2.5])[0];
    assert_eq!(result, 3.5 * 3.5 - 2.5);
}

#[test]
fn negation_swaps_the_bounds() {
    // f = -x + (x - y)
    let mut b = Tape::builder(vec![Type::F32; 2], vec![Type::F32]);
    let (x, y) = (b.arg(0), b.arg(1));
    let n = b.f32_neg(x);
    let d = b.f32_sub(x, y);
    b.f32_add(n, d);
    let tape = b.build().unwrap();
    let translated = translate(&tape);
    let instrs: Vec<Instr> = translated.instrs().iter().map(|r| r.instr()).collect();
    // x is [0, 1], y is [2, 3]: the lower bound of -x is the negated upper bound.
    assert_eq!(instrs[0], Instr::F32Neg(ValueId(0)));
    assert_eq!(instrs[1], Instr::F32Neg(ValueId(1)));
    assert_eq!(instrs[2], Instr::F32Sub(ValueId(0), ValueId(3)));
    assert_eq!(instrs[3], Instr::F32Sub(ValueId(1), ValueId(2)));
    assert_eq!(instrs[4], Instr::F32Add(ValueId(5), ValueId(6)));
    assert_eq!(instrs[5], Instr::F32Add(ValueId(4), ValueId(7)));
    assert_eq!(run(&translated, &[0.0, 1.0, 2.0, 3.0]), [-4.0, -1.0]);
}

#[test]
fn difference_passes_the_negated_adjoint() {
    // f = a - b: the seed goes to `a` as it is and, negated, to `b`.
    let tape = binary(Instr::F32Sub);
    let grad = autodiff(&tape);
    let out: Vec<Instr> = grad.instrs().iter().map(|r| r.instr()).collect();
    assert_eq!(
        out,
        [
            Instr::F32Sub(ValueId(0), ValueId(1)),
            Instr::F32Const(ONE_BITS),
            Instr::F32Neg(ValueId(3)),
            Instr::CopyF32(ValueId(2)),
            Instr::CopyF32(ValueId(3)),
            Instr::CopyF32(ValueId(4)),
        ]
    );
    assert_eq!(gradient(&tape, &[5.0, 2.0]), [3.0, 1.0, -1.0]);
}

#[test]
fn shared_adjoints_are_summed() {
    // f = x + x: both shares of the seed reach `x`, the second added to the first.
    let mut b = Tape::builder(vec![Type::F32], vec![Type::F32]);
    let x = b.arg(0);
    b.f32_add(x, x);
    let tape = b.build().unwrap();
    let grad = autodiff(&tape);
    let out: Vec<Instr> = grad.instrs().iter().map(|r| r.instr()).collect();
    assert_eq!(
        out,
        [
            Instr::F32Add(ValueId(0), ValueId(0)),
            Instr::F32Const(ONE_BITS),
            Instr::F32Add(ValueId(2), ValueId(2)),
            Instr::CopyF32(ValueId(1)),
            Instr::CopyF32(ValueId(3)),
        ]
    );
    assert_eq!(gradient(&tape, &[4.0]), [8.0, 2.0]);
}
