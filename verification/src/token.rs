//! The lexer of the expression language.
//!
//! Tokens are, from each position after the separators `[ \t\r\n\f]`:
//! number literals (`[0-9]+` and `[0-9]+\.[0-9]+`, the longer where both match),
//! identifiers (`[\p{XID_Start}_][\p{XID_Continue}]*`), of which the case-insensitive
//! spellings of the intrinsics and of `pi`/`π` are keywords, the punctuation
//! `+ - * / ^ , ( )`, and any other single character as `Unknown`.
//! A final `Eof` token marks the end of the input.
use vstd::prelude::*;
use crate::diag::{BytePos, Span};
use crate::scan::{
    all_digits, char_is_digit, decimal_value, is_digit, lemma_digits_end, lemma_number_end,
    lemma_spaces_end, number_end, parse_decimal_i32, scan_number, scan_spaces, spaces_end,
    advance_bytes, digits_end,
};
use crate::text::{byte_len, byte_pos, collect_chars, lemma_byte_pos_full, lemma_byte_pos_mono, substr};
use crate::xid::{is_xid_continue, is_xid_start, xid_continue, xid_start};

verus! {

broadcast use vstd::seq_lib::group_seq_properties;

/// The kind of a token, without its text.
#[derive(Copy, Clone, PartialEq, Eq, Structural, Debug)]
pub enum TokenTag {
    Float,
    Int,
    Exp,
    Log,
    Ln,
    Sin,
    Cos,
    Tan,
    Cot,
    Abs,
    Min,
    Max,
    Pi,
    Ident,
    Plus,
    Minus,
    Star,
    Slash,
    Caret,
    Comma,
    LParen,
    RParen,
    Unknown,
    Eof,
}

/// The text of an integer literal.
#[derive(Copy, Clone, PartialEq, Eq, Debug)]
pub struct LitInt<'src>(pub &'src str);

/// The text of a float literal.
#[derive(Copy, Clone, PartialEq, Eq, Debug)]
pub struct LitFloat<'src>(pub &'src str);

#[derive(Copy, Clone, PartialEq, Eq, Debug)]
pub enum TokenKind<'src> {
    Float(LitFloat<'src>),
    Int(LitInt<'src>),
    Exp,
    Log,
    Ln,
    Sin,
    Cos,
    Tan,
    Cot,
    Abs,
    Min,
    Max,
    Pi,
    Ident(&'src str),
    Plus,
    Minus,
    Star,
    Slash,
    Caret,
    Comma,
    LParen,
    RParen,
    Unknown,
    /// Sentinel "EOF" token
    Eof,
}

#[derive(Copy, Clone, Debug)]
pub struct Token<'src> {
    pub kind: TokenKind<'src>,
    pub span: Span,
}

impl<'src> TokenKind<'src> {
    pub open spec fn spec_tag(self) -> TokenTag {
        match self {
            TokenKind::Float(_) => TokenTag::Float,
            TokenKind::Int(_) => TokenTag::Int,
            TokenKind::Exp => TokenTag::Exp,
            TokenKind::Log => TokenTag::Log,
            TokenKind::Ln => TokenTag::Ln,
            TokenKind::Sin => TokenTag::Sin,
            TokenKind::Cos => TokenTag::Cos,
            TokenKind::Tan => TokenTag::Tan,
            TokenKind::Cot => TokenTag::Cot,
            TokenKind::Abs => TokenTag::Abs,
            TokenKind::Min => TokenTag::Min,
            TokenKind::Max => TokenTag::Max,
            TokenKind::Pi => TokenTag::Pi,
            TokenKind::Ident(_) => TokenTag::Ident,
            TokenKind::Plus => TokenTag::Plus,
            TokenKind::Minus => TokenTag::Minus,
            TokenKind::Star => TokenTag::Star,
            TokenKind::Slash => TokenTag::Slash,
            TokenKind::Caret => TokenTag::Caret,
            TokenKind::Comma => TokenTag::Comma,
            TokenKind::LParen => TokenTag::LParen,
            TokenKind::RParen => TokenTag::RParen,
            TokenKind::Unknown => TokenTag::Unknown,
            TokenKind::Eof => TokenTag::Eof,
        }
    }

    /// The text that the token carries: that of a literal or an identifier, else nothing.
    pub open spec fn spec_text(self) -> Seq<char> {
        match self {
            TokenKind::Float(lit) => lit.0@,
            TokenKind::Int(lit) => lit.0@,
            TokenKind::Ident(name) => name@,
            _ => Seq::empty(),
        }
    }

    pub fn tag(&self) -> (r: TokenTag)
        ensures
            r == self.spec_tag(),
    {
        match self {
            TokenKind::Float(_) => TokenTag::Float,
            TokenKind::Int(_) => TokenTag::Int,
            TokenKind::Exp => TokenTag::Exp,
            TokenKind::Log => TokenTag::Log,
            TokenKind::Ln => TokenTag::Ln,
            TokenKind::Sin => TokenTag::Sin,
            TokenKind::Cos => TokenTag::Cos,
            TokenKind::Tan => TokenTag::Tan,
            TokenKind::Cot => TokenTag::Cot,
            TokenKind::Abs => TokenTag::Abs,
            TokenKind::Min => TokenTag::Min,
            TokenKind::Max => TokenTag::Max,
            TokenKind::Pi => TokenTag::Pi,
            TokenKind::Ident(_) => TokenTag::Ident,
            TokenKind::Plus => TokenTag::Plus,
            TokenKind::Minus => TokenTag::Minus,
            TokenKind::Star => TokenTag::Star,
            TokenKind::Slash => TokenTag::Slash,
            TokenKind::Caret => TokenTag::Caret,
            TokenKind::Comma => TokenTag::Comma,
            TokenKind::LParen => TokenTag::LParen,
            TokenKind::RParen => TokenTag::RParen,
            TokenKind::Unknown => TokenTag::Unknown,
            TokenKind::Eof => TokenTag::Eof,
        }
    }
}

/// Case folding of the characters that keywords are spelled with: ASCII capitals,
/// `ſ` (which folds to `s`), and `Π`, `ϖ` (which fold to `π`).
pub open spec fn fold_case(c: char) -> char {
    let v = c as u32;
    if 65 <= v <= 90 {
        (v + 32) as char
    } else if v == 0x17F {
        's'
    } else if v == 0x3A0 || v == 0x3D6 {
        'π'
    } else {
        c
    }
}

pub open spec fn word2(w: Seq<char>, a: char, b: char) -> bool {
    w.len() == 2 && fold_case(w[0]) == a && fold_case(w[1]) == b
}

pub open spec fn word3(w: Seq<char>, a: char, b: char, c: char) -> bool {
    w.len() == 3 && fold_case(w[0]) == a && fold_case(w[1]) == b && fold_case(w[2]) == c
}

/// The keyword spelled by `w`, ignoring case.
pub open spec fn keyword(w: Seq<char>) -> Option<TokenTag> {
    if w.len() == 1 && fold_case(w[0]) == 'π' {
        Some(TokenTag::Pi)
    } else if word2(w, 'l', 'n') {
        Some(TokenTag::Ln)
    } else if word2(w, 'p', 'i') {
        Some(TokenTag::Pi)
    } else if word3(w, 'e', 'x', 'p') {
        Some(TokenTag::Exp)
    } else if word3(w, 'l', 'o', 'g') {
        Some(TokenTag::Log)
    } else if word3(w, 's', 'i', 'n') || word3(w, 's', 'e', 'n') {
        Some(TokenTag::Sin)
    } else if word3(w, 'c', 'o', 's') {
        Some(TokenTag::Cos)
    } else if word3(w, 't', 'a', 'n') {
        Some(TokenTag::Tan)
    } else if word3(w, 'c', 'o', 't') || word3(w, 'c', 't', 'g') {
        Some(TokenTag::Cot)
    } else if word3(w, 'a', 'b', 's') {
        Some(TokenTag::Abs)
    } else if word3(w, 'm', 'i', 'n') {
        Some(TokenTag::Min)
    } else if word3(w, 'm', 'a', 'x') {
        Some(TokenTag::Max)
    } else if w.len() == 5 && fold_case(w[0]) == 'c' && fold_case(w[1]) == 'o' && fold_case(w[2])
        == 't' && fold_case(w[3]) == 'a' && fold_case(w[4]) == 'n' {
        Some(TokenTag::Cot)
    } else {
        None
    }
}

/// The single-character tokens; `Unknown` for any other character.
pub open spec fn punct_tag(c: char) -> TokenTag {
    if c == '+' {
        TokenTag::Plus
    } else if c == '-' {
        TokenTag::Minus
    } else if c == '*' {
        TokenTag::Star
    } else if c == '/' {
        TokenTag::Slash
    } else if c == '^' {
        TokenTag::Caret
    } else if c == ',' {
        TokenTag::Comma
    } else if c == '(' {
        TokenTag::LParen
    } else if c == ')' {
        TokenTag::RParen
    } else {
        TokenTag::Unknown
    }
}

/// End of the run of XID_Continue characters that starts at `i`.
pub open spec fn ident_end(s: Seq<char>, i: int) -> int
    decreases s.len() - i,
{
    if 0 <= i < s.len() && xid_continue(s[i]) {
        ident_end(s, i + 1)
    } else {
        i
    }
}

pub open spec fn starts_ident(c: char) -> bool {
    c == '_' || xid_start(c)
}

/// The token that starts at `i`, which is not a separator: its kind and its end.
pub open spec fn token_at(s: Seq<char>, i: int) -> (TokenTag, int) {
    if is_digit(s[i]) {
        let (is_float, e) = number_end(s, i);
        (if is_float { TokenTag::Float } else { TokenTag::Int }, e)
    } else if starts_ident(s[i]) {
        let e = ident_end(s, i + 1);
        match keyword(s.subrange(i, e)) {
            Some(tag) => (tag, e),
            None => (TokenTag::Ident, e),
        }
    } else if fold_case(s[i]) == 'π' {
        (TokenTag::Pi, i + 1)
    } else {
        (punct_tag(s[i]), i + 1)
    }
}

/// The tokens of `s` from index `i` on, as (kind, start, end) in character indices;
/// the final `Eof` is not among them.
pub open spec fn lex(s: Seq<char>, i: int) -> Seq<(TokenTag, int, int)>
    decreases s.len() - i,
{
    if i < 0 || i >= s.len() {
        Seq::empty()
    } else {
        let j = spaces_end(s, i);
        if j >= s.len() || j < i {
            Seq::empty()
        } else {
            let (tag, e) = token_at(s, j);
            if e <= j || e > s.len() {
                Seq::empty()
            } else {
                seq![(tag, j, e)] + lex(s, e)
            }
        }
    }
}

/// `token` is the lexed token `lexed` of the text `s`, with its byte span and its text.
pub open spec fn token_matches(s: Seq<char>, token: Token, lexed: (TokenTag, int, int)) -> bool {
    let (tag, a, b) = lexed;
    &&& token.kind.spec_tag() == tag
    &&& token.span.start.0 == byte_pos(s, a)
    &&& token.span.end.0 == byte_pos(s, b)
    &&& (tag == TokenTag::Int || tag == TokenTag::Float || tag == TokenTag::Ident) ==> token.kind.spec_text()
        == s.subrange(a, b)
}

proof fn lemma_ident_end(s: Seq<char>, i: int)
    requires
        0 <= i <= s.len(),
    ensures
        i <= ident_end(s, i) <= s.len(),
    decreases s.len() - i,
{
    if i < s.len() && xid_continue(s[i]) {
        lemma_ident_end(s, i + 1);
    }
}

pub(crate) proof fn lemma_token_at(s: Seq<char>, i: int)
    requires
        0 <= i < s.len(),
    ensures
        i < token_at(s, i).1 <= s.len(),
{
    if is_digit(s[i]) {
        lemma_number_end(s, i);
    } else if starts_ident(s[i]) {
        lemma_ident_end(s, i + 1);
    }
}

/// `w` has the form `[0-9]+`.
pub open spec fn int_text(w: Seq<char>) -> bool {
    w.len() > 0 && all_digits(w)
}

/// `w` has the form `[0-9]+\.[0-9]+`.
pub open spec fn float_text(w: Seq<char>) -> bool {
    let d = digits_end(w, 0);
    &&& 0 < d
    &&& d + 1 < w.len()
    &&& w[d] == '.'
    &&& all_digits(w.skip(d + 1))
}

/// The text of a float literal token has the form `[0-9]+\.[0-9]+`.
proof fn lemma_float_text(s: Seq<char>, j: int)
    requires
        0 <= j < s.len(),
        is_digit(s[j]),
        number_end(s, j).0,
    ensures
        float_text(s.subrange(j, number_end(s, j).1)),
{
    lemma_digits_end(s, j);
    let d = digits_end(s, j);
    lemma_digits_end(s, d + 1);
    let e = number_end(s, j).1;
    let w = s.subrange(j, e);
    crate::scan::lemma_digits_end_unique(w, 0, d - j);
    assert forall|k: int| 0 <= k < w.skip(d - j + 1).len() implies is_digit(#[trigger] w.skip(d - j + 1)[k]) by {
        assert(w.skip(d - j + 1)[k] == s[d + 1 + k]);
    }
}

/// The text of every lexed literal token has the form of its kind.
pub proof fn lemma_lex_literals(s: Seq<char>, i: int)
    requires
        0 <= i <= s.len(),
    ensures
        forall|k: int|
            0 <= k < lex(s, i).len() ==> {
                let (tag, a, b) = #[trigger] lex(s, i)[k];
                &&& i <= a < b <= s.len()
                &&& tag == TokenTag::Int ==> int_text(s.subrange(a, b))
                &&& tag == TokenTag::Float ==> float_text(s.subrange(a, b))
                &&& tag != TokenTag::Eof
            },
        forall|k: int| 0 <= k < lex(s, i).len() - 1 ==> (#[trigger] lex(s, i)[k]).2 <= lex(s, i)[k + 1].1,
    decreases s.len() - i,
{
    if i < s.len() {
        lemma_lex_step(s, i);
        let j = spaces_end(s, i);
        if j < s.len() {
            let e = token_at(s, j).1;
            lemma_lex_literals(s, e);
            if is_digit(s[j]) && !number_end(s, j).0 {
                lemma_digits_end(s, j);
                assert(all_digits(s.subrange(j, e)));
            }
            if is_digit(s[j]) && number_end(s, j).0 {
                lemma_float_text(s, j);
            }
            let l = lex(s, i);
            assert forall|k: int| 0 <= k < l.len() implies {
                let (tag, a, b) = #[trigger] l[k];
                &&& i <= a < b <= s.len()
                &&& tag == TokenTag::Int ==> int_text(s.subrange(a, b))
                &&& tag == TokenTag::Float ==> float_text(s.subrange(a, b))
                &&& tag != TokenTag::Eof
            } by {
                if k > 0 {
                    assert(l[k] == lex(s, e)[k - 1]);
                }
            }
            assert forall|k: int| 0 <= k < l.len() - 1 implies (#[trigger] l[k]).2 <= l[k + 1].1 by {
                assert(l[k + 1] == lex(s, e)[k]);
                if k > 0 {
                    assert(l[k] == lex(s, e)[k - 1]);
                }
            }
        }
    }
}

fn scan_ident(chars: &Vec<char>, i: usize) -> (e: usize)
    requires
        i <= chars@.len(),
    ensures
        e == ident_end(chars@, i as int),
{
    let mut k = i;
    while k < chars.len() && is_xid_continue(chars[k])
        invariant
            i <= k <= chars@.len(),
            ident_end(chars@, i as int) == ident_end(chars@, k as int),
        decreases chars@.len() - k,
    {
        k = k + 1;
    }
    k
}

/// Whether `c` folds to `lower`, an ASCII lowercase letter or `π`.
fn folds_to(c: char, lower: char) -> (r: bool)
    requires
        (97 <= (lower as u32) <= 122) || lower == 'π',
    ensures
        r == (fold_case(c) == lower),
{
    let v = c as u32;
    let l = lower as u32;
    if 65 <= v && v <= 90 {
        v + 32 == l
    } else if v == 0x17F {
        lower == 's'
    } else if v == 0x3A0 || v == 0x3D6 {
        lower == 'π'
    } else {
        c == lower
    }
}

fn is_word3(chars: &Vec<char>, i: usize, a: char, b: char, c: char) -> (r: bool)
    requires
        i + 3 <= chars@.len(),
        97 <= (a as u32) <= 122,
        97 <= (b as u32) <= 122,
        97 <= (c as u32) <= 122,
    ensures
        r == word3(chars@.subrange(i as int, i + 3), a, b, c),
{
    let n = chars.len();
    folds_to(chars[i], a) && folds_to(chars[i + 1], b) && folds_to(chars[i + 2], c)
}

fn keyword_of(chars: &Vec<char>, i: usize, e: usize) -> (r: Option<TokenTag>)
    requires
        i <= e <= chars@.len(),
    ensures
        r == keyword(chars@.subrange(i as int, e as int)),
{
    let ghost w = chars@.subrange(i as int, e as int);
    let n = e - i;
    if n == 1 {
        if folds_to(chars[i], 'π') {
            return Some(TokenTag::Pi);
        }
        return None;
    } else if n == 2 {
        let (x, y) = (chars[i], chars[i + 1]);
        if folds_to(x, 'l') && folds_to(y, 'n') {
            return Some(TokenTag::Ln);
        }
        if folds_to(x, 'p') && folds_to(y, 'i') {
            return Some(TokenTag::Pi);
        }
        return None;
    } else if n == 3 {
        assert(w =~= chars@.subrange(i as int, i + 3));
        if is_word3(chars, i, 'e', 'x', 'p') {
            Some(TokenTag::Exp)
        } else if is_word3(chars, i, 'l', 'o', 'g') {
            Some(TokenTag::Log)
        } else if is_word3(chars, i, 's', 'i', 'n') || is_word3(chars, i, 's', 'e', 'n') {
            Some(TokenTag::Sin)
        } else if is_word3(chars, i, 'c', 'o', 's') {
            Some(TokenTag::Cos)
        } else if is_word3(chars, i, 't', 'a', 'n') {
            Some(TokenTag::Tan)
        } else if is_word3(chars, i, 'c', 'o', 't') || is_word3(chars, i, 'c', 't', 'g') {
            Some(TokenTag::Cot)
        } else if is_word3(chars, i, 'a', 'b', 's') {
            Some(TokenTag::Abs)
        } else if is_word3(chars, i, 'm', 'i', 'n') {
            Some(TokenTag::Min)
        } else if is_word3(chars, i, 'm', 'a', 'x') {
            Some(TokenTag::Max)
        } else {
            None
        }
    } else if n == 5 {
        if folds_to(chars[i], 'c') && folds_to(chars[i + 1], 'o') && folds_to(chars[i + 2], 't')
            && folds_to(chars[i + 3], 'a') && folds_to(chars[i + 4], 'n') {
            Some(TokenTag::Cot)
        } else {
            None
        }
    } else {
        None
    }
}

fn punct_of(c: char) -> (r: TokenTag)
    ensures
        r == punct_tag(c),
{
    if c == '+' {
        TokenTag::Plus
    } else if c == '-' {
        TokenTag::Minus
    } else if c == '*' {
        TokenTag::Star
    } else if c == '/' {
        TokenTag::Slash
    } else if c == '^' {
        TokenTag::Caret
    } else if c == ',' {
        TokenTag::Comma
    } else if c == '(' {
        TokenTag::LParen
    } else if c == ')' {
        TokenTag::RParen
    } else {
        TokenTag::Unknown
    }
}

fn scan_token(chars: &Vec<char>, i: usize) -> (r: (TokenTag, usize))
    requires
        i < chars@.len(),
    ensures
        r.0 == token_at(chars@, i as int).0,
        r.1 == token_at(chars@, i as int).1,
{
    let n = chars.len();
    let c = chars[i];
    if char_is_digit(c) {
        let (is_float, e) = scan_number(chars, i);
        (if is_float { TokenTag::Float } else { TokenTag::Int }, e)
    } else if c == '_' || is_xid_start(c) {
        let e = scan_ident(chars, i + 1);
        proof {
            lemma_ident_end(chars@, i + 1);
        }
        match keyword_of(chars, i, e) {
            Some(tag) => (tag, e),
            None => (TokenTag::Ident, e),
        }
    } else if folds_to(c, 'π') {
        (TokenTag::Pi, i + 1)
    } else {
        (punct_of(c), i + 1)
    }
}

proof fn lemma_lex_step(s: Seq<char>, i: int)
    requires
        0 <= i <= s.len(),
    ensures
        i <= spaces_end(s, i) <= s.len(),
        spaces_end(s, i) == s.len() ==> lex(s, i) == Seq::<(TokenTag, int, int)>::empty(),
        spaces_end(s, i) < s.len() ==> {
            let j = spaces_end(s, i);
            let (tag, e) = token_at(s, j);
            &&& j < e <= s.len()
            &&& tag != TokenTag::Eof
            &&& lex(s, i) == seq![(tag, j, e)] + lex(s, e)
        },
{
    lemma_spaces_end(s, i);
    let j = spaces_end(s, i);
    if j < s.len() {
        lemma_token_at(s, j);
        if !is_digit(s[j]) && starts_ident(s[j]) {
            let e = token_at(s, j).1;
            assert(keyword(s.subrange(j, e)) != Some(TokenTag::Eof));
        }
    }
}

/// The next token of `src` from character index `i` (byte offset `pos`), with the index
/// and byte offset of its end; `None` when only separators are left.
fn next_token<'src>(src: &'src str, chars: &Vec<char>, i: usize, pos: usize) -> (r: Option<(Token<'src>, usize, usize)>)
    requires
        chars@ == src@,
        byte_len(src@) < u32::MAX,
        i <= src@.len(),
        pos == byte_pos(src@, i as int),
    ensures
        match r {
            None => lex(src@, i as int) == Seq::<(TokenTag, int, int)>::empty(),
            Some((token, e, pe)) => {
                let j = spaces_end(src@, i as int);
                &&& i < e <= src@.len()
                &&& pe == byte_pos(src@, e as int)
                &&& lex(src@, i as int) == seq![(token_at(src@, j).0, j, e as int)] + lex(src@, e as int)
                &&& token_matches(src@, token, (token_at(src@, j).0, j, e as int))
            },
        },
{
    let ghost s = src@;
    proof {
        lemma_lex_step(s, i as int);
    }
    let j = scan_spaces(chars, i);
    let pj = advance_bytes(chars, i, j, pos);
    if j >= chars.len() {
        return None;
    }
    let (tag, e) = scan_token(chars, j);
    let pe = advance_bytes(chars, j, e, pj);
    proof {
        lemma_byte_pos_mono(s, j as int, e as int);
        lemma_byte_pos_mono(s, e as int, s.len() as int);
    }
    let kind = make_kind(src, tag, Ghost(j as int), Ghost(e as int), pj, pe);
    let token = Token { kind, span: Span::new(BytePos(pj as u32), BytePos(pe as u32)) };
    Some((token, e, pe))
}

/// Splits `src` into tokens, ending with `Eof`, whose span is the empty span at the end of `src`.
pub fn tokenize<'src>(src: &'src str) -> (r: Vec<Token<'src>>)
    requires
        byte_len(src@) < u32::MAX,
    ensures
        r@.len() == lex(src@, 0).len() + 1,
        forall|k: int| 0 <= k < lex(src@, 0).len() ==> token_matches(src@, #[trigger] r@[k], lex(src@, 0)[k]),
        r@.last().kind == TokenKind::Eof,
        r@.last().span.start.0 == byte_len(src@),
        r@.last().span.end.0 == byte_len(src@),
{
    let chars = collect_chars(src);
    let ghost s = src@;
    let mut tokens: Vec<Token<'src>> = Vec::new();
    let mut i: usize = 0;
    let mut pos: usize = 0;
    let ghost mut done: Seq<(TokenTag, int, int)> = Seq::empty();
    proof {
        crate::text::lemma_byte_pos_zero(s);
        assert(lex(s, 0) =~= done + lex(s, 0));
    }
    let mut finished = false;
    while !finished
        invariant
            chars@ == s,
            s == src@,
            byte_len(s) < u32::MAX,
            i <= s.len(),
            pos == byte_pos(s, i as int),
            finished ==> lex(s, i as int) == Seq::<(TokenTag, int, int)>::empty(),
            lex(s, 0) == done + lex(s, i as int),
            tokens@.len() == done.len(),
            forall|k: int| 0 <= k < done.len() ==> token_matches(s, #[trigger] tokens@[k], done[k]),
        decreases s.len() - i, if finished { 0int } else { 1int },
    {
        match next_token(src, &chars, i, pos) {
            None => {
                finished = true;
            },
            Some((token, e, pe)) => {
                tokens.push(token);
                proof {
                    let item = (token_at(s, spaces_end(s, i as int)).0, spaces_end(s, i as int), e as int);
                    done = done.push(item);
                    assert(lex(s, 0) =~= done + lex(s, e as int));
                    assert forall|k: int| 0 <= k < done.len() implies token_matches(s, #[trigger] tokens@[k], done[k]) by {
                        if k < done.len() - 1 {
                            assert(tokens@[k] == old_tokens_at(tokens@, k));
                        }
                    }
                }
                i = e;
                pos = pe;
            },
        }
    }
    proof {
        assert(done =~= lex(s, 0));
    }
    let final_pos = advance_bytes(&chars, i, chars.len(), pos);
    proof {
        lemma_byte_pos_full(s);
    }
    let end = BytePos(final_pos as u32);
    let ghost before = tokens@;
    tokens.push(Token { kind: TokenKind::Eof, span: Span::empty(end) });
    proof {
        assert forall|k: int| 0 <= k < lex(s, 0).len() implies token_matches(s, #[trigger] tokens@[k], lex(s, 0)[k]) by {
            assert(tokens@[k] == before[k]);
        }
    }
    tokens
}

fn make_kind<'src>(src: &'src str, tag: TokenTag, j: Ghost<int>, e: Ghost<int>, pj: usize, pe: usize) -> (r: TokenKind<'src>)
    requires
        0 <= j@ <= e@ <= src@.len(),
        pj == byte_pos(src@, j@),
        pe == byte_pos(src@, e@),
        tag != TokenTag::Eof,
    ensures
        r.spec_tag() == tag,
        (tag == TokenTag::Int || tag == TokenTag::Float || tag == TokenTag::Ident) ==> r.spec_text()
            == src@.subrange(j@, e@),
{
    match tag {
        TokenTag::Float => TokenKind::Float(LitFloat(substr(src, j, e, pj, pe))),
        TokenTag::Int => TokenKind::Int(LitInt(substr(src, j, e, pj, pe))),
        TokenTag::Ident => TokenKind::Ident(substr(src, j, e, pj, pe)),
        TokenTag::Exp => TokenKind::Exp,
        TokenTag::Log => TokenKind::Log,
        TokenTag::Ln => TokenKind::Ln,
        TokenTag::Sin => TokenKind::Sin,
        TokenTag::Cos => TokenKind::Cos,
        TokenTag::Tan => TokenKind::Tan,
        TokenTag::Cot => TokenKind::Cot,
        TokenTag::Abs => TokenKind::Abs,
        TokenTag::Min => TokenKind::Min,
        TokenTag::Max => TokenKind::Max,
        TokenTag::Pi => TokenKind::Pi,
        TokenTag::Plus => TokenKind::Plus,
        TokenTag::Minus => TokenKind::Minus,
        TokenTag::Star => TokenKind::Star,
        TokenTag::Slash => TokenKind::Slash,
        TokenTag::Caret => TokenKind::Caret,
        TokenTag::Comma => TokenKind::Comma,
        TokenTag::LParen => TokenKind::LParen,
        TokenTag::RParen => TokenKind::RParen,
        TokenTag::Unknown => TokenKind::Unknown,
        TokenTag::Eof => TokenKind::Eof,
    }
}

spec fn old_tokens_at<'src>(v: Seq<Token<'src>>, k: int) -> Token<'src> {
    v[k]
}

/// The value of an integer literal did not fit.
#[derive(Copy, Clone, Debug)]
pub struct OverflowError;

impl<'src> LitInt<'src> {
    /// The literal's text consists of one or more digits.
    pub open spec fn wf(self) -> bool {
        int_text(self.0@)
    }

    /// The literal's value as an `i32`; an error exactly when it exceeds `i32::MAX`.
    pub fn parse_i32(self) -> (r: Result<i32, OverflowError>)
        requires
            self.wf(),
        ensures
            match r {
                Ok(v) => v == decimal_value(self.0@),
                Err(_) => decimal_value(self.0@) > i32::MAX,
            },
    {
        match parse_decimal_i32(self.0) {
            Some(v) => Ok(v),
            None => Err(OverflowError),
        }
    }
}

/// 2^128 - 2^103, the least value that rounds to infinity as an `f32` (to nearest, ties
/// to even; the largest `f32` is (2^24 - 1) * 2^104).
pub open spec fn f32_overflow_bound() -> int {
    340282356779733661637539395458142568448
}

impl<'src> LitFloat<'src> {
    /// The literal's text has the form `[0-9]+\.[0-9]+`.
    pub open spec fn wf(self) -> bool {
        float_text(self.0@)
    }

    /// The digits before the `.`.
    pub open spec fn int_part(self) -> Seq<char> {
        self.0@.take(digits_end(self.0@, 0))
    }

    /// Whether the literal's value rounds to a finite `f32`. The value lies between its
    /// integer part and the next integer, so it does exactly when its integer part is
    /// below the bound at which rounding overflows.
    pub fn fits_f32(self) -> (r: bool)
        requires
            self.wf(),
        ensures
            r == (decimal_value(self.int_part()) < f32_overflow_bound()),
    {
        let chars = collect_chars(self.0);
        let ghost w = self.0@;
        let ghost ip = self.int_part();
        proof {
            lemma_digits_end(w, 0);
            assert forall|k: int| 0 <= k < ip.len() implies is_digit(#[trigger] ip[k]) by {
                assert(ip[k] == w[k]);
            }
        }
        let mut value: u128 = 0;
        let mut k: usize = 0;
        while k < chars.len() && char_is_digit(chars[k])
            invariant
                chars@ == w,
                k <= digits_end(w, 0),
                digits_end(w, 0) == digits_end(w, k as int),
                ip == w.take(digits_end(w, 0)),
                ip == self.int_part(),
                all_digits(ip),
                value == decimal_value(w.take(k as int)),
            decreases chars@.len() - k,
        {
            proof {
                lemma_digits_end(w, k as int);
                crate::scan::lemma_decimal_prefix_le(ip, k as int);
                crate::scan::lemma_decimal_prefix_le(ip, k + 1);
                assert(ip.take(k as int) =~= w.take(k as int));
                assert(ip.take(k + 1) =~= w.take(k + 1));
                assert(w.take(k + 1).drop_last() =~= w.take(k as int));
            }
            let d = (chars[k] as u32 - 48) as u128;
            if value > (u128::MAX - d) / 10 {
                assert(value * 10 + d > u128::MAX) by (nonlinear_arith)
                    requires
                        0 <= d <= 9,
                        value > (u128::MAX - d) / 10,
                ;
                assert(is_digit(w[k as int]));
                assert(decimal_value(w.take(k + 1)) == value * 10 + d);
                assert(decimal_value(ip.take(k + 1)) <= decimal_value(ip));
                return false;
            }
            assert(value * 10 + d <= u128::MAX) by (nonlinear_arith)
                requires
                    0 <= d <= 9,
                    0 <= value <= (u128::MAX - d) / 10,
            ;
            value = value * 10 + d;
            k = k + 1;
        }
        proof {
            lemma_digits_end(w, k as int);
            assert(w.take(k as int) =~= ip);
        }
        value < 340282356779733661637539395458142568448u128
    }
}

} // verus!
