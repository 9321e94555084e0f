use isoplot::diag::{BytePos, Span};
use isoplot::token::TokenKind::{
    Abs, Caret, Comma, Cos, Cot, Eof, Exp, Float, Ident, Int, LParen, Ln, Log, Max, Min, Minus, Pi,
    Plus, RParen, Sin, Slash, Star, Tan, Unknown,
};
use isoplot::token::{tokenize, LitFloat, LitInt, TokenKind};

fn tokens(src: &str) -> Vec<TokenKind<'_>> {
    tokenize(src).into_iter().map(|token| token.kind).collect()
}

fn tokenize_int(src: &str) -> LitInt<'_> {
    match tokenize(src)[0].kind {
        TokenKind::Int(lit) => lit,
        kind => panic!("expected an int token, got {kind:?}"),
    }
}

#[test]
fn test_tokenize() {
    assert_eq!(
        tokens("1 + 2.5 * (30 - 4) / 5"),
        [
            Int(LitInt("1")),
            Plus,
            Float(LitFloat("2.5")),
            Star,
            LParen,
            Int(LitInt("30")),
            Minus,
            Int(LitInt("4")),
            RParen,
            Slash,
            Int(LitInt("5")),
            Eof
        ]
    );

    assert_eq!(tokens(" \t\r\n"), [Eof]);

    assert_eq!(tokens("1."), [Int(LitInt("1")), Unknown, Eof]);
    assert_eq!(tokens(".5"), [Unknown, Int(LitInt("5")), Eof]);

    assert_eq!(tokens("-1"), [Minus, Int(LitInt("1")), Eof]);

    assert_eq!(
        tokens("x + раДиус_2"),
        [Ident("x"), Plus, Ident("раДиус_2"), Eof]
    );
    assert_eq!(tokens("1x"), [Int(LitInt("1")), Ident("x"), Eof]);

    assert_eq!(tokens("pi π"), [Pi, Pi, Eof]);
    assert_eq!(tokens("pix"), [Ident("pix"), Eof]);
}

#[test]
fn test_intrinsic_case() {
    assert_eq!(tokens("sin Sin sen Sen"), [Sin, Sin, Sin, Sin, Eof]);
    assert_eq!(tokens("cos Cos"), [Cos, Cos, Eof]);
    assert_eq!(tokens("tan Tan"), [Tan, Tan, Eof]);
    assert_eq!(
        tokens("cot Cot cotan Cotan ctg Ctg"),
        [Cot, Cot, Cot, Cot, Cot, Cot, Eof]
    );
    assert_eq!(tokens("exp Exp"), [Exp, Exp, Eof]);
    assert_eq!(
        tokens("log Log LOG ln Ln LN"),
        [Log, Log, Log, Ln, Ln, Ln, Eof]
    );
    assert_eq!(tokens("pi Pi"), [Pi, Pi, Eof]);

    assert_eq!(
        tokens("SIN SEN COS TAN COT COTAN CTG EXP PI"),
        [Sin, Sin, Cos, Tan, Cot, Cot, Cot, Exp, Pi, Eof]
    );
    assert_eq!(tokens("sIn cOs"), [Sin, Cos, Eof]);
    assert_eq!(tokens("cosine"), [Ident("cosine"), Eof]);
}

#[test]
fn test_ident_spans() {
    let tokens = tokenize("р + ф2");

    assert_eq!(tokens[0].span, Span::new(BytePos(0), BytePos(2)));
    assert_eq!(tokens[1].span, Span::new(BytePos(3), BytePos(4)));
    assert_eq!(tokens[2].span, Span::new(BytePos(5), BytePos(8)));
}

#[test]
fn test_token_spans() {
    let tokens = tokenize(" 12 + 3.5");

    assert_eq!(tokens[0].span, Span::new(BytePos(1), BytePos(3)));
    assert_eq!(tokens[1].span, Span::new(BytePos(4), BytePos(5)));
    assert_eq!(tokens[2].span, Span::new(BytePos(6), BytePos(9)));
    assert_eq!(tokens[3].span, Span::new(BytePos(9), BytePos(9)));
}

#[test]
fn test_parse_i32() {
    assert_eq!(tokenize_int("2147483647").parse_i32().unwrap(), i32::MAX);

    // i32::MAX + 1
    assert!(tokenize_int("2147483648").parse_i32().is_err());
}

#[test]
fn keyword_folding_and_extra_intrinsics() {
    assert_eq!(tokens("ſin Π ϖ"), [Sin, Pi, Pi, Eof]);
    assert_eq!(tokens("abs MIN Max"), [Abs, Min, Max, Eof]);
    assert_eq!(tokens("_a, b^2"), [Ident("_a"), Comma, Ident("b"), Caret, Int(LitInt("2")), Eof]);
    assert_eq!(tokens("$\u{c}"), [Unknown, Eof]);
}

#[test]
fn token_spans_cover_all_but_separators() {
    let src = " ab +\t12\n( x)\r\u{c}";
    let tokens = tokenize(src);
    let last = tokens.last().unwrap();
    assert_eq!(last.kind, TokenKind::Eof);
    assert_eq!(last.span, Span::new(BytePos(src.len() as u32), BytePos(src.len() as u32)));
    let spans: Vec<Span> = tokens[..tokens.len() - 1].iter().map(|t| t.span).collect();
    let mut text = String::new();
    let mut end = 0;
    for span in &spans {
        assert!(span.start.index() < span.end.index());
        assert!(end <= span.start.index());
        assert!(src[end..span.start.index()].chars().all(|c| matches!(c, ' ' | '\t' | '\r' | '\n' | '\u{c}')));
        text.push_str(&src[span.start.index()..span.end.index()]);
        end = span.end.index();
    }
    assert!(src[end..].chars().all(|c| matches!(c, ' ' | '\t' | '\r' | '\n' | '\u{c}')));
    assert_eq!(text, "ab+12(x)");
}

#[test]
fn separators_never_continue_identifiers() {
    assert!(isoplot::lexed::separators_do_not_continue());
}
