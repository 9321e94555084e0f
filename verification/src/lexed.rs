//! What the tokens of a source text are: the spec lexer's tokens, in order, each within
//! the text, followed by the end of input.
use crate::scan::{digits_end, is_digit, is_space, lemma_digits_end, lemma_spaces_end, number_end, spaces_end};
use crate::text::{byte_len, byte_pos, lemma_byte_pos_mono};
use crate::token::{
    ident_end, lemma_lex_literals, lemma_token_at, lex, starts_ident, token_at, token_matches, Token, TokenKind, TokenTag,
};
use crate::xid::{is_xid_continue, xid_continue};
use vstd::prelude::*;

verus! {

/// `tokens` is what `tokenize` yields for `s`.
pub open spec fn lexed(s: Seq<char>, tokens: Seq<Token>) -> bool {
    &&& tokens.len() == lex(s, 0).len() + 1
    &&& forall|k: int| 0 <= k < lex(s, 0).len() ==> token_matches(s, #[trigger] tokens[k], lex(s, 0)[k])
    &&& tokens.last().kind == TokenKind::Eof
    &&& tokens.last().span.start.0 == byte_len(s)
    &&& tokens.last().span.end.0 == byte_len(s)
}

/// Law: the tokens of `s` end with the one end-of-input token, whose span is empty at
/// the end of the text; the other spans are non-empty, in increasing order without
/// overlap, within the text; and every character outside them is a separator (space, tab,
/// carriage return, line feed or form feed).
pub proof fn law_token_spans(s: Seq<char>, t: Seq<Token>)
    requires
        lexed(s, t),
    ensures
        t.last().kind == TokenKind::Eof,
        t.last().span.start.0 == byte_len(s) && t.last().span.end.0 == byte_len(s),
        forall|k: int| 0 <= k < t.len() - 1 ==> (#[trigger] t[k]).kind != TokenKind::Eof,
        forall|k: int|
            0 <= k < t.len() - 1 ==> (#[trigger] t[k]).span.start.0 < t[k].span.end.0 <= byte_len(s),
        forall|i: int, j: int| 0 <= i < j < t.len() ==> (#[trigger] t[i]).span.end.0 <= (#[trigger] t[j]).span.start.0,
        forall|c: int|
            0 <= c < s.len() && (forall|k: int|
                0 <= k < t.len() - 1 ==> !((#[trigger] t[k]).span.start.0 <= byte_pos(s, c) < t[k].span.end.0))
                ==> is_space(#[trigger] s[c]),
{
    let l = lex(s, 0);
    lemma_lex_sorted(s);
    assert forall|k: int| 0 <= k < t.len() - 1 implies (#[trigger] t[k]).kind != TokenKind::Eof && t[k].span.start.0
        < t[k].span.end.0 <= byte_len(s) by {
        assert(token_matches(s, t[k], l[k]));
        lemma_byte_pos_mono(s, l[k].1, l[k].2);
    }
    assert forall|i: int, j: int| 0 <= i < j < t.len() implies (#[trigger] t[i]).span.end.0 <= (
    #[trigger] t[j]).span.start.0 by {
        assert(token_matches(s, t[i], l[i]));
        if j < t.len() - 1 {
            assert(token_matches(s, t[j], l[j]));
            lemma_byte_pos_mono(s, l[i].2, l[j].1);
        } else {
            lemma_byte_pos_mono(s, l[i].2, s.len() as int);
            assert(s.take(s.len() as int) =~= s);
        }
    }
    lemma_gaps(s, 0);
    assert forall|c: int|
        0 <= c < s.len() && (forall|k: int|
            0 <= k < t.len() - 1 ==> !((#[trigger] t[k]).span.start.0 <= byte_pos(s, c) < t[k].span.end.0))
            implies is_space(#[trigger] s[c]) by {
        if !is_space(s[c]) {
            let k = choose|k: int| 0 <= k < l.len() && (#[trigger] l[k]).1 <= c < l[k].2;
            assert(token_matches(s, t[k], l[k]));
            lemma_byte_pos_mono(s, l[k].1, c);
            lemma_byte_pos_mono(s, c, l[k].2);
            assert(!(t[k].span.start.0 <= byte_pos(s, c) < t[k].span.end.0));
        }
    }
}

/// Law: where no separator of `s` has the property XID_Continue (none has, in Unicode:
/// see `separators_do_not_continue`),
/// a character of `s` lies within the span of a token other than the end of input if and
/// only if it is not a separator; with the order of the spans (`law_token_spans`), the
/// texts of the tokens, one after another, are `s` with its separators taken out.
pub proof fn law_token_text(s: Seq<char>, t: Seq<Token>)
    requires
        lexed(s, t),
        forall|c: int| 0 <= c < s.len() && is_space(#[trigger] s[c]) ==> !xid_continue(s[c]),
    ensures
        forall|c: int|
            0 <= c < s.len() ==> ((exists|k: int|
                0 <= k < t.len() - 1 && (#[trigger] t[k]).span.start.0 <= byte_pos(s, c) < t[k].span.end.0) <==> !is_space(
                #[trigger] s[c],
            )),
{
    law_token_spans(s, t);
    let l = lex(s, 0);
    lemma_lex_sorted(s);
    lemma_solid(s, 0);
    assert forall|c: int| 0 <= c < s.len() implies ((exists|k: int|
        0 <= k < t.len() - 1 && (#[trigger] t[k]).span.start.0 <= byte_pos(s, c) < t[k].span.end.0) <==> !is_space(
        #[trigger] s[c],
    )) by {
        if exists|k: int| 0 <= k < t.len() - 1 && (#[trigger] t[k]).span.start.0 <= byte_pos(s, c) < t[k].span.end.0 {
            let k = choose|k: int| 0 <= k < t.len() - 1 && (#[trigger] t[k]).span.start.0 <= byte_pos(s, c) < t[k].span.end.0;
            assert(token_matches(s, t[k], l[k]));
            let (tag, a, b) = l[k];
            if c < a {
                lemma_byte_pos_mono(s, c + 1, a);
                lemma_byte_pos_mono(s, c, c + 1);
            }
            if c >= b {
                lemma_byte_pos_mono(s, b, c);
            }
            assert(a <= c < b);
        }
    }
}

/// Whether a character is not a separator.
pub open spec fn not_space() -> spec_fn(char) -> bool {
    |c: char| !is_space(c)
}

/// The texts of the lexed tokens `l` of `s`, one after another.
pub open spec fn joined(s: Seq<char>, l: Seq<(TokenTag, int, int)>) -> Seq<char>
    decreases l.len(),
{
    if l.len() == 0 {
        seq![]
    } else {
        s.subrange(l[0].1, l[0].2) + joined(s, l.drop_first())
    }
}

/// Law: where no separator of `s` has the property XID_Continue (see
/// `separators_do_not_continue`), each token other than the end of input spans the bytes
/// of a range of characters of `s`, and the texts of these ranges, one after another, are
/// `s` with its separators taken out.
pub proof fn law_token_concat(s: Seq<char>, t: Seq<Token>)
    requires
        lexed(s, t),
        forall|c: int| 0 <= c < s.len() && is_space(#[trigger] s[c]) ==> !xid_continue(s[c]),
    ensures
        forall|k: int|
            0 <= k < t.len() - 1 ==> (#[trigger] t[k]).span.start.0 == byte_pos(s, lex(s, 0)[k].1) && t[k].span.end.0
                == byte_pos(s, lex(s, 0)[k].2),
        joined(s, lex(s, 0)) == s.filter(not_space()),
{
    assert forall|k: int| 0 <= k < t.len() - 1 implies (#[trigger] t[k]).span.start.0 == byte_pos(s, lex(s, 0)[k].1)
        && t[k].span.end.0 == byte_pos(s, lex(s, 0)[k].2) by {
        assert(token_matches(s, t[k], lex(s, 0)[k]));
    }
    lemma_joined(s, 0);
    assert(s.skip(0) =~= s);
}

/// A text of separators alone has none of its characters left.
proof fn lemma_filter_spaces(x: Seq<char>)
    requires
        forall|i: int| 0 <= i < x.len() ==> is_space(#[trigger] x[i]),
    ensures
        x.filter(not_space()) == Seq::<char>::empty(),
    decreases x.len(),
{
    reveal(Seq::filter);
    if x.len() > 0 {
        lemma_filter_spaces(x.drop_last());
    }
}

/// A text without separators keeps all of its characters.
proof fn lemma_filter_solid(x: Seq<char>)
    requires
        forall|i: int| 0 <= i < x.len() ==> !is_space(#[trigger] x[i]),
    ensures
        x.filter(not_space()) == x,
    decreases x.len(),
{
    reveal(Seq::filter);
    if x.len() > 0 {
        lemma_filter_solid(x.drop_last());
        assert(x.drop_last().push(x.last()) =~= x);
    }
}

/// The tokens from `i` on, joined, are the rest of `s` without its separators.
proof fn lemma_joined(s: Seq<char>, i: int)
    requires
        0 <= i <= s.len(),
        forall|c: int| 0 <= c < s.len() && is_space(#[trigger] s[c]) ==> !xid_continue(s[c]),
    ensures
        joined(s, lex(s, i)) == s.skip(i).filter(not_space()),
    decreases s.len() - i,
{
    if i == s.len() {
        assert(s.skip(i) =~= Seq::<char>::empty());
        reveal(Seq::filter);
    } else {
        let j = spaces_end(s, i);
        lemma_spaces_end(s, i);
        if j >= s.len() {
            lemma_filter_spaces(s.skip(i));
        } else {
            lemma_token_at(s, j);
            lemma_token_solid(s, j);
            let e = token_at(s, j).1;
            lemma_joined(s, e);
            let l = lex(s, i);
            assert(l == seq![(token_at(s, j).0, j, e)] + lex(s, e));
            assert(l.drop_first() =~= lex(s, e));
            let a = s.subrange(i, j);
            let b = s.subrange(j, e);
            let c = s.skip(e);
            assert(s.skip(i) =~= a + b + c);
            Seq::filter_distributes_over_add(a + b, c, not_space());
            Seq::filter_distributes_over_add(a, b, not_space());
            lemma_filter_spaces(a);
            lemma_filter_solid(b);
            assert(a.filter(not_space()) + b.filter(not_space()) =~= b);
        }
    }
}

/// No separator has the property XID_Continue: what `law_token_text` asks of a text,
/// for every text.
pub fn separators_do_not_continue() -> (r: bool)
    ensures
        r,
        forall|c: char| is_space(c) ==> !xid_continue(c),
{
    let space = is_xid_continue(' ');
    let tab = is_xid_continue('\t');
    let cr = is_xid_continue('\r');
    let lf = is_xid_continue('\n');
    let ff = is_xid_continue('\u{c}');
    !(space || tab || cr || lf || ff)
}

/// The characters of a run of XID_Continue characters have that property.
proof fn lemma_ident_run(s: Seq<char>, i: int)
    requires
        0 <= i <= s.len(),
    ensures
        i <= ident_end(s, i) <= s.len(),
        forall|k: int| i <= k < ident_end(s, i) ==> xid_continue(#[trigger] s[k]),
    decreases s.len() - i,
{
    if i < s.len() && xid_continue(s[i]) {
        lemma_ident_run(s, i + 1);
    }
}

/// No character of the token that starts at `j` is a separator.
proof fn lemma_token_solid(s: Seq<char>, j: int)
    requires
        0 <= j < s.len(),
        !is_space(s[j]),
        forall|c: int| 0 <= c < s.len() && is_space(#[trigger] s[c]) ==> !xid_continue(s[c]),
    ensures
        forall|k: int| j <= k < token_at(s, j).1 ==> !is_space(#[trigger] s[k]),
{
    if is_digit(s[j]) {
        lemma_digits_end(s, j);
        let d = digits_end(s, j);
        if d + 1 < s.len() && s[d] == '.' && is_digit(s[d + 1]) {
            lemma_digits_end(s, d + 1);
        }
        assert forall|k: int| j <= k < token_at(s, j).1 implies !is_space(#[trigger] s[k]) by {
            if k < d {
                assert(is_digit(s[k]));
            } else if k > d {
                assert(is_digit(s[k]));
            }
        }
    } else if starts_ident(s[j]) {
        lemma_ident_run(s, j + 1);
        assert forall|k: int| j <= k < token_at(s, j).1 implies !is_space(#[trigger] s[k]) by {
            if k > j {
                assert(xid_continue(s[k]));
            }
        }
    }
}

/// No character that a token of `lex(s, i)` covers is a separator.
proof fn lemma_solid(s: Seq<char>, i: int)
    requires
        0 <= i <= s.len(),
        forall|c: int| 0 <= c < s.len() && is_space(#[trigger] s[c]) ==> !xid_continue(s[c]),
    ensures
        forall|k: int, c: int|
            0 <= k < lex(s, i).len() && (#[trigger] lex(s, i)[k]).1 <= c < lex(s, i)[k].2 ==> !is_space(#[trigger] s[c]),
    decreases s.len() - i,
{
    if i < s.len() {
        let j = spaces_end(s, i);
        lemma_spaces_end(s, i);
        if j < s.len() {
            lemma_token_at(s, j);
            lemma_token_solid(s, j);
            let e = token_at(s, j).1;
            lemma_solid(s, e);
            let l = lex(s, i);
            assert(l == seq![(token_at(s, j).0, j, e)] + lex(s, e));
            assert forall|k: int, c: int| 0 <= k < l.len() && (#[trigger] l[k]).1 <= c < l[k].2 implies !is_space(
                #[trigger] s[c],
            ) by {
                if k > 0 {
                    assert(l[k] == lex(s, e)[k - 1]);
                }
            }
        }
    }
}

/// Every character from `i` on that no token of `lex(s, i)` covers is a separator.
proof fn lemma_gaps(s: Seq<char>, i: int)
    requires
        0 <= i <= s.len(),
    ensures
        forall|c: int|
            i <= c < s.len() && !is_space(#[trigger] s[c]) ==> exists|k: int|
                0 <= k < lex(s, i).len() && (#[trigger] lex(s, i)[k]).1 <= c < lex(s, i)[k].2,
    decreases s.len() - i,
{
    if i < s.len() {
        let j = spaces_end(s, i);
        lemma_spaces_end(s, i);
        if j < s.len() {
            lemma_token_at(s, j);
            let e = token_at(s, j).1;
            lemma_gaps(s, e);
            let l = lex(s, i);
            assert(l == seq![(token_at(s, j).0, j, e)] + lex(s, e));
            assert forall|c: int| i <= c < s.len() && !is_space(#[trigger] s[c]) implies exists|k: int|
                0 <= k < l.len() && (#[trigger] l[k]).1 <= c < l[k].2 by {
                if c < j {
                } else if c < e {
                    assert(l[0].1 <= c < l[0].2);
                } else {
                    let k = choose|k: int| 0 <= k < lex(s, e).len() && (#[trigger] lex(s, e)[k]).1 <= c < lex(s, e)[k].2;
                    assert(l[k + 1] == lex(s, e)[k]);
                }
            }
        }
    }
}

pub(crate) proof fn lemma_lex_sorted(s: Seq<char>)
    ensures
        forall|i: int, j: int| 0 <= i < j < lex(s, 0).len() ==> (#[trigger] lex(s, 0)[i]).2 <= (#[trigger] lex(s, 0)[j]).1,
        forall|k: int| 0 <= k < lex(s, 0).len() ==> {
            let (tag, a, b) = #[trigger] lex(s, 0)[k];
            &&& 0 <= a < b <= s.len()
            &&& tag != TokenTag::Eof
            &&& tag == TokenTag::Int ==> crate::token::int_text(s.subrange(a, b))
            &&& tag == TokenTag::Float ==> crate::token::float_text(s.subrange(a, b))
        },
        lex(s, 0).len() <= s.len(),
{
    lemma_lex_literals(s, 0);
    let l = lex(s, 0);
    assert forall|i: int, j: int| 0 <= i < j < l.len() implies (#[trigger] l[i]).2 <= (#[trigger] l[j]).1 by {
        lemma_sorted_step(l, i, j);
    }
    lemma_count_le(l, s.len() as int);
}

pub(crate) proof fn lemma_sorted_step(l: Seq<(TokenTag, int, int)>, i: int, j: int)
    requires
        0 <= i < j < l.len(),
        forall|k: int| 0 <= k < l.len() - 1 ==> (#[trigger] l[k]).2 <= l[k + 1].1,
        forall|k: int| 0 <= k < l.len() ==> (#[trigger] l[k]).1 < l[k].2,
    ensures
        l[i].2 <= l[j].1,
    decreases j - i,
{
    if j > i + 1 {
        lemma_sorted_step(l, i, j - 1);
        assert(l[j - 1].2 <= l[j].1);
    }
}

pub(crate) proof fn lemma_count_le(l: Seq<(TokenTag, int, int)>, n: int)
    requires
        n >= 0,
        forall|k: int| 0 <= k < l.len() - 1 ==> (#[trigger] l[k]).2 <= l[k + 1].1,
        forall|k: int| 0 <= k < l.len() ==> 0 <= (#[trigger] l[k]).1 < l[k].2 <= n,
    ensures
        l.len() <= n,
    decreases l.len(),
{
    if l.len() > 0 {
        let m = l.drop_last();
        let last = l[l.len() - 1];
        assert forall|k: int| 0 <= k < m.len() - 1 implies (#[trigger] m[k]).2 <= m[k + 1].1 by {
            assert(m[k] == l[k]);
            assert(m[k + 1] == l[k + 1]);
        }
        assert forall|k: int| 0 <= k < m.len() implies 0 <= (#[trigger] m[k]).1 < m[k].2 <= last.1 by {
            assert(m[k] == l[k]);
            lemma_sorted_step_le(l, k, l.len() - 1);
        }
        lemma_count_le(m, last.1);
        assert(last.1 < last.2 <= n);
    }
}

pub(crate) proof fn lemma_sorted_step_le(l: Seq<(TokenTag, int, int)>, i: int, j: int)
    requires
        0 <= i < j < l.len(),
        forall|k: int| 0 <= k < l.len() - 1 ==> (#[trigger] l[k]).2 <= l[k + 1].1,
        forall|k: int| 0 <= k < l.len() ==> (#[trigger] l[k]).1 < l[k].2,
    ensures
        l[i].2 <= l[j].1,
    decreases j - i,
{
    if j > i + 1 {
        lemma_sorted_step_le(l, i, j - 1);
        assert(l[j - 1].2 <= l[j].1);
    }
}

/// What the parser needs of the tokens of `s`.
pub open spec fn tokens_ordered(s: Seq<char>, t: Seq<Token>) -> bool {
    &&& forall|k: int| 0 <= k < t.len() ==> (#[trigger] t[k]).span.wf()
    &&& forall|i: int, j: int| 0 <= i < j < t.len() ==> (#[trigger] t[i]).span.end.0 <= (#[trigger] t[j]).span.start.0
    &&& forall|k: int| 0 <= k < t.len() - 1 ==> (#[trigger] t[k]).kind != TokenKind::Eof
    &&& forall|k: int| 0 <= k < t.len() ==> (#[trigger] t[k]).span.end.0 <= byte_len(s)
    &&& t.len() <= byte_len(s) + 1
}

pub(crate) proof fn lemma_lexed_spans(s: Seq<char>, t: Seq<Token>)
    requires
        lexed(s, t),
    ensures
        forall|k: int| 0 <= k < t.len() ==> (#[trigger] t[k]).span.wf() && t[k].span.end.0 <= byte_len(s),
{
    lemma_lex_sorted(s);
    let l = lex(s, 0);
    crate::text::lemma_byte_pos_full(s);
    assert forall|k: int| 0 <= k < t.len() implies (#[trigger] t[k]).span.wf() && t[k].span.end.0 <= byte_len(s) by {
        if k < l.len() {
            assert(token_matches(s, t[k], l[k]));
            lemma_byte_pos_mono(s, l[k].1, l[k].2);
            lemma_byte_pos_mono(s, l[k].2, s.len() as int);
        }
    }
}

#[verifier::rlimit(60)]
pub(crate) proof fn lemma_lexed_pair(s: Seq<char>, t: Seq<Token>, i: int, j: int)
    requires
        lexed(s, t),
        0 <= i < j < t.len(),
    ensures
        t[i].span.end.0 <= t[j].span.start.0,
{
    lemma_lex_literals(s, 0);
    let l = lex(s, 0);
    crate::text::lemma_byte_pos_full(s);
    assert(token_matches(s, t[i], l[i]));
    assert(0 <= l[i].1 < l[i].2 <= s.len());
    if j < l.len() {
        assert(token_matches(s, t[j], l[j]));
        lemma_sorted_step(l, i, j);
        assert(0 <= l[j].1 < l[j].2 <= s.len());
        lemma_byte_pos_mono(s, l[i].2, l[j].1);
    } else {
        lemma_byte_pos_mono(s, l[i].2, s.len() as int);
    }
}

pub(crate) proof fn lemma_lexed_sorted(s: Seq<char>, t: Seq<Token>)
    requires
        lexed(s, t),
    ensures
        forall|i: int, j: int| 0 <= i < j < t.len() ==> (#[trigger] t[i]).span.end.0 <= (#[trigger] t[j]).span.start.0,
{
    assert forall|i: int, j: int| 0 <= i < j < t.len() implies (#[trigger] t[i]).span.end.0 <= (#[trigger] t[j]).span.start.0 by {
        lemma_lexed_pair(s, t, i, j);
    }
}

pub(crate) proof fn lemma_lexed_ordered(s: Seq<char>, t: Seq<Token>)
    requires
        lexed(s, t),
    ensures
        tokens_ordered(s, t),
        forall|k: int| 0 <= k < t.len() - 1 ==> {
            let tok = #[trigger] t[k];
            &&& tok.kind is Int ==> crate::token::int_text(tok.kind.spec_text())
            &&& tok.kind is Float ==> crate::token::float_text(tok.kind.spec_text())
        },
{
    lemma_lexed_spans(s, t);
    lemma_lexed_sorted(s, t);
    lemma_lex_sorted(s);
    let l = lex(s, 0);
    lemma_byte_pos_mono(s, 0, s.len() as int);
    crate::text::lemma_byte_pos_full(s);
    assert forall|k: int| 0 <= k < t.len() - 1 implies {
        let tok = #[trigger] t[k];
        &&& tok.kind != TokenKind::Eof
        &&& tok.kind is Int ==> crate::token::int_text(tok.kind.spec_text())
        &&& tok.kind is Float ==> crate::token::float_text(tok.kind.spec_text())
    } by {
        assert(token_matches(s, t[k], l[k]));
    }
}

} // verus!
