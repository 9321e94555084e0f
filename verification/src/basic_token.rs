//! The lexer of the arithmetic-only dialect: number literals, `+ - * / ( )`,
//! and any other single character as `Unknown`, after the separators `[ \t\r\n\f]`.
use vstd::prelude::*;
use crate::diag::{BytePos, Span};
use crate::scan::{
    advance_bytes, all_digits, char_is_digit, decimal_value, digits_end, is_digit,
    lemma_digits_end, lemma_number_end, lemma_spaces_end, number_end, parse_decimal_i32,
    scan_number, scan_spaces, spaces_end,
};
use crate::text::{
    byte_len, byte_pos, collect_chars, lemma_byte_pos_full, lemma_byte_pos_mono,
    lemma_byte_pos_step, substr,
};

verus! {

broadcast use vstd::seq_lib::group_seq_properties;

#[derive(Copy, Clone, PartialEq, Eq, Structural, Debug)]
pub enum TokenKind {
    Float,
    Int,
    Plus,
    Minus,
    Star,
    Slash,
    LParen,
    RParen,
    Unknown,
    /// Sentinel "EOF" token
    Eof,
}

#[derive(Copy, Clone, Debug)]
pub struct Token {
    pub kind: TokenKind,
    pub span: Span,
}

pub open spec fn punct_kind(c: char) -> TokenKind {
    if c == '+' {
        TokenKind::Plus
    } else if c == '-' {
        TokenKind::Minus
    } else if c == '*' {
        TokenKind::Star
    } else if c == '/' {
        TokenKind::Slash
    } else if c == '(' {
        TokenKind::LParen
    } else if c == ')' {
        TokenKind::RParen
    } else {
        TokenKind::Unknown
    }
}

/// The token that starts at `i`, which is not a separator: its kind and its end.
pub open spec fn token_at(s: Seq<char>, i: int) -> (TokenKind, int) {
    if is_digit(s[i]) {
        let (is_float, e) = number_end(s, i);
        (if is_float { TokenKind::Float } else { TokenKind::Int }, e)
    } else {
        (punct_kind(s[i]), i + 1)
    }
}

/// The tokens of `s` from index `i` on, as (kind, start, end) in character indices.
pub open spec fn lex(s: Seq<char>, i: int) -> Seq<(TokenKind, int, int)>
    decreases s.len() - i,
{
    if i < 0 || i >= s.len() {
        Seq::empty()
    } else {
        let j = spaces_end(s, i);
        if j >= s.len() || j < i {
            Seq::empty()
        } else {
            let (kind, e) = token_at(s, j);
            if e <= j || e > s.len() {
                Seq::empty()
            } else {
                seq![(kind, j, e)] + lex(s, e)
            }
        }
    }
}

/// `token` is the lexed token `lexed` of `s`, with its byte span.
pub open spec fn token_matches(s: Seq<char>, token: Token, lexed: (TokenKind, int, int)) -> bool {
    &&& token.kind == lexed.0
    &&& token.span.start.0 == byte_pos(s, lexed.1)
    &&& token.span.end.0 == byte_pos(s, lexed.2)
}

proof fn lemma_lex_step(s: Seq<char>, i: int)
    requires
        0 <= i <= s.len(),
    ensures
        i <= spaces_end(s, i) <= s.len(),
        spaces_end(s, i) == s.len() ==> lex(s, i) == Seq::<(TokenKind, int, int)>::empty(),
        spaces_end(s, i) < s.len() ==> {
            let j = spaces_end(s, i);
            let (kind, e) = token_at(s, j);
            &&& j < e <= s.len()
            &&& kind != TokenKind::Eof
            &&& lex(s, i) == seq![(kind, j, e)] + lex(s, e)
        },
{
    lemma_spaces_end(s, i);
    let j = spaces_end(s, i);
    if j < s.len() && is_digit(s[j]) {
        lemma_number_end(s, j);
    }
}

fn punct_of(c: char) -> (r: TokenKind)
    ensures
        r == punct_kind(c),
{
    if c == '+' {
        TokenKind::Plus
    } else if c == '-' {
        TokenKind::Minus
    } else if c == '*' {
        TokenKind::Star
    } else if c == '/' {
        TokenKind::Slash
    } else if c == '(' {
        TokenKind::LParen
    } else if c == ')' {
        TokenKind::RParen
    } else {
        TokenKind::Unknown
    }
}

fn next_token(chars: &Vec<char>, i: usize, pos: usize) -> (r: Option<(Token, usize, usize)>)
    requires
        byte_len(chars@) < u32::MAX,
        i <= chars@.len(),
        pos == byte_pos(chars@, i as int),
    ensures
        match r {
            None => lex(chars@, i as int) == Seq::<(TokenKind, int, int)>::empty(),
            Some((token, e, pe)) => {
                let j = spaces_end(chars@, i as int);
                &&& i < e <= chars@.len()
                &&& pe == byte_pos(chars@, e as int)
                &&& lex(chars@, i as int) == seq![(token.kind, j, e as int)] + lex(chars@, e as int)
                &&& token_matches(chars@, token, (token.kind, j, e as int))
            },
        },
{
    let ghost s = chars@;
    proof {
        lemma_lex_step(s, i as int);
    }
    let n = chars.len();
    let j = scan_spaces(chars, i);
    let pj = advance_bytes(chars, i, j, pos);
    if j >= n {
        return None;
    }
    let (kind, e) = if char_is_digit(chars[j]) {
        let (is_float, e) = scan_number(chars, j);
        (if is_float { TokenKind::Float } else { TokenKind::Int }, e)
    } else {
        (punct_of(chars[j]), j + 1)
    };
    let pe = advance_bytes(chars, j, e, pj);
    proof {
        lemma_byte_pos_mono(s, j as int, e as int);
        lemma_byte_pos_mono(s, e as int, s.len() as int);
    }
    Some((Token { kind, span: token_span(pj..pe) }, e, pe))
}

/// Splits `src` into tokens, ending with `Eof`, whose span is the empty span at the end of `src`.
pub fn tokenize(src: &str) -> (r: Vec<Token>)
    requires
        byte_len(src@) < u32::MAX,
    ensures
        r@.len() == lex(src@, 0).len() + 1,
        forall|k: int| 0 <= k < lex(src@, 0).len() ==> token_matches(src@, #[trigger] r@[k], lex(src@, 0)[k]),
        r@.last().kind == TokenKind::Eof,
        r@.last().span.start.0 == byte_len(src@),
        r@.last().span.end.0 == byte_len(src@),
{
    let chars = collect_chars(src);
    let ghost s = src@;
    let mut tokens: Vec<Token> = Vec::new();
    let mut i: usize = 0;
    let mut pos: usize = 0;
    let ghost mut done: Seq<(TokenKind, int, int)> = Seq::empty();
    proof {
        crate::text::lemma_byte_pos_zero(s);
        assert(lex(s, 0) =~= done + lex(s, 0));
    }
    let mut finished = false;
    while !finished
        invariant
            chars@ == s,
            byte_len(s) < u32::MAX,
            i <= s.len(),
            pos == byte_pos(s, i as int),
            finished ==> lex(s, i as int) == Seq::<(TokenKind, int, int)>::empty(),
            lex(s, 0) == done + lex(s, i as int),
            tokens@.len() == done.len(),
            forall|k: int| 0 <= k < done.len() ==> token_matches(s, #[trigger] tokens@[k], done[k]),
        decreases s.len() - i, if finished { 0int } else { 1int },
    {
        match next_token(&chars, i, pos) {
            None => {
                finished = true;
            },
            Some((token, e, pe)) => {
                let ghost before = tokens@;
                tokens.push(token);
                proof {
                    done = done.push((token.kind, spaces_end(s, i as int), e as int));
                    assert(lex(s, 0) =~= done + lex(s, e as int));
                    assert forall|k: int| 0 <= k < done.len() implies token_matches(s, #[trigger] tokens@[k], done[k]) by {
                        if k < done.len() - 1 {
                            assert(tokens@[k] == before[k]);
                        }
                    }
                }
                i = e;
                pos = pe;
            },
        }
    }
    proof {
        assert(done =~= lex(s, 0));
    }
    let final_pos = advance_bytes(&chars, i, chars.len(), pos);
    proof {
        lemma_byte_pos_full(s);
    }
    let ghost before = tokens@;
    tokens.push(Token { kind: TokenKind::Eof, span: token_span(final_pos..final_pos) });
    proof {
        assert forall|k: int| 0 <= k < lex(s, 0).len() implies token_matches(s, #[trigger] tokens@[k], lex(s, 0)[k]) by {
            assert(tokens@[k] == before[k]);
        }
    }
    tokens
}

/// The characters of `s` whose encoding the byte span `span` covers.
pub open spec fn span_chars(s: Seq<char>, span: Span) -> Seq<char> {
    let (a, b) = choose|a: int, b: int|
        0 <= a <= b <= s.len() && byte_pos(s, a) == span.start.0 && byte_pos(s, b) == span.end.0;
    s.subrange(a, b)
}

/// `span` covers a nonempty run of digits of `s`: the span of an integer literal.
pub open spec fn is_int_span(s: Seq<char>, span: Span) -> bool {
    exists|a: int, b: int|
        0 <= a < b <= s.len() && byte_pos(s, a) == span.start.0 && byte_pos(s, b) == span.end.0
            && all_digits(#[trigger] s.subrange(a, b))
}

/// Byte offsets of distinct character indices differ.
proof fn lemma_byte_pos_injective(s: Seq<char>, a: int, b: int)
    requires
        0 <= a <= s.len(),
        0 <= b <= s.len(),
        byte_pos(s, a) == byte_pos(s, b),
    ensures
        a == b,
{
    if a < b {
        lemma_byte_pos_mono(s, a, b);
    } else if b < a {
        lemma_byte_pos_mono(s, b, a);
    }
}

impl Token {
    pub fn unwrap_int(&self) -> (r: LitInt)
        requires
            self.kind == TokenKind::Int,
        ensures
            r.0 == *self,
    {
        LitInt(*self)
    }

    pub fn unwrap_float(&self) -> (r: LitFloat)
        requires
            self.kind == TokenKind::Float,
        ensures
            r.0 == *self,
    {
        LitFloat(*self)
    }
}

/// The value of an integer literal did not fit.
#[derive(Copy, Clone, Debug)]
pub struct OverflowError;

/// An integer literal token.
#[derive(Copy, Clone, Debug)]
pub struct LitInt(pub Token);

impl LitInt {
    pub fn span(&self) -> (r: Span)
        ensures
            r == self.0.span,
    {
        self.0.span
    }

    /// The literal's value as an `i32`, read from `src`; an error exactly when it
    /// exceeds `i32::MAX`.
    pub fn parse_i32(&self, src: &str) -> (r: Result<i32, OverflowError>)
        requires
            is_int_span(src@, self.0.span),
        ensures
            match r {
                Ok(v) => v == decimal_value(span_chars(src@, self.0.span)),
                Err(_) => decimal_value(span_chars(src@, self.0.span)) > i32::MAX,
            },
    {
        let ghost s = src@;
        let ghost (a, b) = choose|a: int, b: int|
            0 <= a < b <= s.len() && byte_pos(s, a) == self.0.span.start.0 && byte_pos(s, b)
                == self.0.span.end.0 && all_digits(#[trigger] s.subrange(a, b));
        proof {
            let (a2, b2) = choose|a: int, b: int|
                0 <= a <= b <= s.len() && byte_pos(s, a) == self.0.span.start.0 && byte_pos(s, b)
                    == self.0.span.end.0;
            lemma_byte_pos_injective(s, a, a2);
            lemma_byte_pos_injective(s, b, b2);
        }
        let range = span_range(self.0.span);
        let text = substr(src, Ghost(a), Ghost(b), range.start, range.end);
        match parse_decimal_i32(text) {
            Some(v) => Ok(v),
            None => Err(OverflowError),
        }
    }
}

/// A float literal token.
#[derive(Copy, Clone, Debug)]
pub struct LitFloat(pub Token);

impl LitFloat {
    pub fn span(&self) -> (r: Span)
        ensures
            r == self.0.span,
    {
        self.0.span
    }
}

/// The span of the byte range `range`.
pub fn token_span(range: core::ops::Range<usize>) -> (r: Span)
    requires
        range.start <= range.end <= u32::MAX,
    ensures
        r.start.0 == range.start,
        r.end.0 == range.end,
{
    Span::new(BytePos(range.start as u32), BytePos(range.end as u32))
}

/// The byte range of `span`.
pub fn span_range(span: Span) -> (r: core::ops::Range<usize>)
    ensures
        r.start == span.start.0,
        r.end == span.end.0,
{
    span.start().index()..span.end().index()
}

} // verus!
