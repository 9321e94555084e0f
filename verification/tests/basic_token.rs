use isoplot::basic_token::TokenKind::{
    Eof, Float, Int, LParen, Minus, Plus, RParen, Slash, Star, Unknown,
};
use isoplot::basic_token::{tokenize, TokenKind};
use isoplot::diag::{BytePos, Span};

fn kinds(src: &str) -> Vec<TokenKind> {
    tokenize(src).iter().map(|token| token.kind).collect()
}

#[test]
fn token_test_tokenize() {
    assert_eq!(
        kinds("1 + 2.5 * (30 - 4) / 5"),
        [Int, Plus, Float, Star, LParen, Int, Minus, Int, RParen, Slash, Int, Eof]
    );

    assert_eq!(kinds(" \t\r\n"), [Eof]);

    assert_eq!(kinds("1."), [Int, Unknown, Eof]);
    assert_eq!(kinds(".5"), [Unknown, Int, Eof]);

    assert_eq!(kinds("-1"), [Minus, Int, Eof]);
}

#[test]
fn token_test_token_spans() {
    let tokens = tokenize(" 12 + 3.5");

    assert_eq!(tokens[0].span, Span::new(BytePos(1), BytePos(3)));
    assert_eq!(tokens[1].span, Span::new(BytePos(4), BytePos(5)));
    assert_eq!(tokens[2].span, Span::new(BytePos(6), BytePos(9)));
    assert_eq!(tokens[3].span, Span::new(BytePos(9), BytePos(9)));
}

#[test]
fn token_test_parse_i32() {
    let src = "2147483647";
    assert_eq!(
        tokenize(src)[0].unwrap_int().parse_i32(src).unwrap(),
        i32::MAX
    );

    // i32::MAX + 1
    let src = "2147483648";
    assert!(tokenize(src)[0].unwrap_int().parse_i32(src).is_err());
}

#[test]
fn basic_letters_are_unknown() {
    assert_eq!(kinds("x2"), [Unknown, Int, Eof]);
    let src = "é 7";
    let tokens = tokenize(src);
    assert_eq!(tokens[0].span, Span::new(BytePos(0), BytePos(2)));
    assert_eq!(tokens[1].unwrap_int().span(), Span::new(BytePos(3), BytePos(4)));
    assert_eq!(tokens[1].unwrap_int().parse_i32(src).unwrap(), 7);
}
