use isoplot::ast::{BinOp, ExprId, ExprKind, UnOp, Value};
use isoplot::diag::Span;
use std::f32::consts::PI;
use isoplot::parser::parse;

fn float_text(source: &str) -> impl FnMut(Span) -> String + '_ {
    move |span: Span| {
        let value: f32 = source[span.start.index()..span.end.index()].parse().unwrap();
        format!("{value}")
    }
}

fn print(source: &str) -> String {
    let (parsed, _) = parse(source);
    parsed.pretty_printer(float_text(source))
}

#[test]
fn trees_print_with_branches() {
    assert_eq!(
        print("sin(x) * -2"),
        "BinOp * @ 0..11\n\
         \u{251c}\u{2500} Intrinsic sin @ 0..5\n\
         \u{2502}  \u{2514}\u{2500} Var x @ 4..5\n\
         \u{2514}\u{2500} UnOp - @ 9..11\n   \u{2514}\u{2500} I32 2 @ 10..11"
    );
}

#[test]
fn float_literals_print_their_values() {
    assert_eq!(format!("{}", std::f32::consts::PI), "3.1415927");
    assert_eq!(
        print("2.50 + pi"),
        "BinOp + @ 0..9\n\u{251c}\u{2500} F32 2.5 @ 0..4\n\u{2514}\u{2500} F32 3.1415927 @ 7..9"
    );
}

#[test]
fn a_single_node_is_one_line() {
    assert_eq!(print("y"), "Var y @ 0..1");
    assert_eq!(print("12"), "I32 12 @ 0..2");
}

/// The tree of `source` as an S-expression.
fn sexpr(source: &str) -> String {
    let (parsed, diagnostics) = parse(source);
    assert!(diagnostics.is_empty(), "{diagnostics:?}");
    let ast = parsed.ast();
    fn node(ast: &isoplot::ast::Ast, parsed: &isoplot::parser::Parsed, source: &str, id: ExprId) -> String {
        let e = ast.get(id);
        match e.kind {
            ExprKind::UnOp(op, a) => {
                let op = match op {
                    UnOp::Plus => "+",
                    UnOp::Minus => "-",
                };
                format!("({op} {})", node(ast, parsed, source, a))
            }
            ExprKind::BinOp(op, a, b) => {
                let op = match op {
                    BinOp::Add => "+",
                    BinOp::Sub => "-",
                    BinOp::Mul => "*",
                    BinOp::Div => "/",
                    BinOp::Pow => "^",
                };
                format!("({op} {} {})", node(ast, parsed, source, a), node(ast, parsed, source, b))
            }
            ExprKind::Intrinsic(kind, args) => {
                let mut out = format!("({}", kind.name());
                for i in args.raw_range() {
                    out.push(' ');
                    out.push_str(&node(ast, parsed, source, ExprId(i)));
                }
                out.push(')');
                out
            }
            ExprKind::Var(name) => parsed.interner().resolve(name).unwrap().to_owned(),
            ExprKind::Lit(Value::I32(v)) => v.to_string(),
            ExprKind::Lit(Value::F32(span)) => float_text(source)(span),
            ExprKind::Lit(Value::Pi) => PI.to_string(),
            ExprKind::Error(_) => panic!("error node"),
        }
    }
    node(ast, &parsed, source, ast.root())
}

#[test]
fn parse_sexpr() {
    assert_eq!(sexpr("1 + 2 * 3"), "(+ 1 (* 2 3))");
    assert_eq!(sexpr("(1 + 2) * 3"), "(* (+ 1 2) 3)");
    assert_eq!(sexpr("2 ^ 3 ^ 2"), "(^ 2 (^ 3 2))");
    assert_eq!(sexpr("-2 ^ 2"), "(- (^ 2 2))");
    assert_eq!(sexpr("-2 * 3"), "(* (- 2) 3)");
    assert_eq!(sexpr("2 ^ -3"), "(^ 2 (- 3))");
    assert_eq!(sexpr("6 / 2 / 3"), "(/ (/ 6 2) 3)");
    assert_eq!(sexpr("2.5"), "2.5");

    assert_eq!(sexpr("x + y * z"), "(+ x (* y z))");
    assert_eq!(sexpr("x ^ 2 + y ^ 2"), "(+ (^ x 2) (^ y 2))");
    assert_eq!(sexpr("-радиус ^ 2"), "(- (^ радиус 2))");
    assert_eq!(sexpr("2 * pi"), format!("(* 2 {PI})"));
    assert_eq!(sexpr("π ^ 2"), format!("(^ {PI} 2)"));

    assert_eq!(sexpr("sin(x)"), "(sin x)");
    assert_eq!(sexpr("log(x)"), "(log x)");
    assert_eq!(sexpr("ln(x)"), "(ln x)");
    assert_eq!(sexpr("-sin(x) ^ 2"), "(- (^ (sin x) 2))");
    assert_eq!(sexpr("cos(x + 1) * 2"), "(* (cos (+ x 1)) 2)");
    assert_eq!(sexpr("exp(sin(x), y)"), "(exp (sin x) y)");
}
