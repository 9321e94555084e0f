use isoplot::diag::Diagnostic;
use isoplot::frontend::{dump_ast, ProgramShape};
use isoplot::interner::Interner;
use isoplot::parser::parse;

fn shape() -> ProgramShape {
    ProgramShape::builder().with_input("x").build()
}

fn diagnostics(source: &str) -> Vec<(String, usize, usize)> {
    let (parsed, mut diagnostics) = parse(source);

    if let Err(error) = parsed.validate(&shape()) {
        diagnostics.extend(error.diagnostics().iter().cloned());
    }

    diagnostics
        .iter()
        .map(|diag: &Diagnostic| {
            let span = diag.location();
            (
                diag.message().to_owned(),
                span.start.index(),
                span.end.index(),
            )
        })
        .collect()
}

#[test]
fn frontend_parse_diagnostics() {
    assert_eq!(
        diagnostics(""),
        [(
            "expected an expression, but found end of input".to_owned(),
            0,
            0
        )]
    );

    assert_eq!(
        diagnostics("1 + $"),
        [("expected an expression, but found `$`".to_owned(), 4, 5)]
    );

    assert_eq!(
        diagnostics("(x + 1"),
        [("expected `)`, but found end of input".to_owned(), 6, 6)]
    );

    assert_eq!(
        diagnostics("sin x"),
        [
            ("expected `(`, but found `x`".to_owned(), 4, 5),
            ("expected end of input, but found `x`".to_owned(), 4, 5),
        ]
    );

    assert_eq!(
        diagnostics("2147483648"),
        [("integer literal is out of range".to_owned(), 0, 10)]
    );
}

#[test]
fn frontend_validate_diagnostics() {
    assert_eq!(
        diagnostics("x + y"),
        [("unknown variable `y`".to_owned(), 4, 5)]
    );
    assert_eq!(
        diagnostics("min(x)"),
        [("`min` expects 2 argument(s), got 1".to_owned(), 0, 5)]
    );

    assert_eq!(diagnostics("1 / 2"), []);
    assert_eq!(diagnostics("x / 2"), []);
    assert_eq!(diagnostics("x ^ -2"), []);
}

#[test]
fn frontend_validation_with_error_nodes() {
    assert_eq!(
        diagnostics("sin(w"),
        [
            ("expected `)`, but found end of input".to_owned(), 5, 5),
            ("unknown variable `w`".to_owned(), 4, 5),
        ]
    );
}

#[test]
fn symbol_intern_resolve() {
    let mut interner = Interner::default();

    let x = interner.get_or_insert("x");
    let y = interner.get_or_insert("y");

    assert_ne!(x, y);
    assert_eq!(interner.get_or_insert("x"), x);
    assert_eq!(interner.resolve(x).unwrap(), "x");
    assert_eq!(interner.resolve(y).unwrap(), "y");
}

#[test]
fn dump_ast_lists_parse_then_validation_diagnostics() {
    let (_, diags) = dump_ast(&shape(), "sin(w");
    let found: Vec<(String, usize, usize)> = diags
        .iter()
        .map(|d| {
            (
                d.message().to_owned(),
                d.location().start.index(),
                d.location().end.index(),
            )
        })
        .collect();
    assert_eq!(
        found,
        [
            ("expected `)`, but found end of input".to_owned(), 5, 5),
            ("unknown variable `w`".to_owned(), 4, 5),
        ]
    );
}

#[test]
fn constants_resolve_and_unknown_names_are_reported() {
    let shape = ProgramShape::builder().with_input("x").with_const("k").build();
    let (parsed, diags) = parse("x * k + z");
    assert!(diags.is_empty());
    let error = match parsed.validate(&shape) {
        Ok(_) => panic!("`z` is unknown"),
        Err(error) => error,
    };
    let messages: Vec<&str> = error.diagnostics().iter().map(|d| d.message()).collect();
    assert_eq!(messages, ["unknown variable `z`"]);
    assert!(parsed.validate(&ProgramShape::builder().with_input("x").with_const("k").with_const("z").build()).is_ok());
}

#[test]
fn every_error_node_has_a_diagnostic() {
    for source in ["", "(", "1 +", "sin", "max(1,", "2147483648 + 1e99999", "((x)"] {
        let (parsed, diags) = parse(source);
        let errors = (0..parsed.ast().len())
            .filter(|&k| {
                matches!(
                    parsed.ast().get(isoplot::ast::ExprId(k as u32)).kind,
                    isoplot::ast::ExprKind::Error(_)
                )
            })
            .count();
        assert_eq!(errors, diags.len(), "{source}");
        assert!(!diags.is_empty(), "{source}");
    }
}

#[test]
fn duplicate_names_are_found() {
    let builder = ProgramShape::builder().with_input("x").with_const("x");
    assert_eq!(builder.first_duplicate(), Some("x".to_owned()));
    let builder = ProgramShape::builder().with_input("x").with_const("y");
    assert_eq!(builder.first_duplicate(), None);
}

#[test]
fn shape_keeps_call_order() {
    let shape = ProgramShape::builder()
        .with_input("a")
        .with_const("k")
        .with_input("b")
        .with_const("m")
        .with_input("c")
        .build();
    assert_eq!(shape.num_inputs(), 3);
    assert_eq!(shape.num_consts(), 2);
    assert_eq!(shape.input_index("a"), Some(0));
    assert_eq!(shape.input_index("b"), Some(1));
    assert_eq!(shape.input_index("c"), Some(2));
    assert_eq!(shape.const_name(0), "k");
    assert_eq!(shape.const_name(1), "m");
}
