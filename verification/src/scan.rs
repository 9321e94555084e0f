//! Character classes and scanning steps shared by the lexers.
use vstd::prelude::*;
use crate::text::{byte_len, byte_pos, char_width, collect_chars, lemma_byte_pos_mono, lemma_byte_pos_step};

verus! {

broadcast use vstd::seq_lib::group_seq_properties;

pub open spec fn is_digit(c: char) -> bool {
    48 <= (c as u32) && (c as u32) <= 57
}

/// The characters that separate tokens: space, `\t`, `\r`, `\n` and form feed.
pub open spec fn is_space(c: char) -> bool {
    c == ' ' || c == '\t' || c == '\r' || c == '\n' || c == '\u{c}'
}

/// End of the run of digits that starts at `i`.
pub open spec fn digits_end(s: Seq<char>, i: int) -> int
    decreases s.len() - i,
{
    if 0 <= i < s.len() && is_digit(s[i]) {
        digits_end(s, i + 1)
    } else {
        i
    }
}

/// End of the run of separators that starts at `i`.
pub open spec fn spaces_end(s: Seq<char>, i: int) -> int
    decreases s.len() - i,
{
    if 0 <= i < s.len() && is_space(s[i]) {
        spaces_end(s, i + 1)
    } else {
        i
    }
}

/// A number literal that starts with the digit at `i`: `[0-9]+\.[0-9]+` when the
/// digits go on after a `.`, else `[0-9]+`. Returns whether it is a float, and its end.
pub open spec fn number_end(s: Seq<char>, i: int) -> (bool, int) {
    let d = digits_end(s, i);
    if d + 1 < s.len() && s[d] == '.' && is_digit(s[d + 1]) {
        (true, digits_end(s, d + 1))
    } else {
        (false, d)
    }
}

pub proof fn lemma_digits_end(s: Seq<char>, i: int)
    requires
        0 <= i <= s.len(),
    ensures
        i <= digits_end(s, i) <= s.len(),
        forall|k: int| i <= k < digits_end(s, i) ==> is_digit(#[trigger] s[k]),
        digits_end(s, i) == s.len() || !is_digit(s[digits_end(s, i)]),
    decreases s.len() - i,
{
    if i < s.len() && is_digit(s[i]) {
        lemma_digits_end(s, i + 1);
    }
}

/// A run of digits that stops at a non-digit (or at the end) is the run `digits_end` finds.
pub proof fn lemma_digits_end_unique(s: Seq<char>, i: int, m: int)
    requires
        0 <= i <= m <= s.len(),
        forall|k: int| i <= k < m ==> is_digit(#[trigger] s[k]),
        m == s.len() || !is_digit(s[m]),
    ensures
        digits_end(s, i) == m,
    decreases m - i,
{
    if i < m {
        lemma_digits_end_unique(s, i + 1, m);
    }
}

pub proof fn lemma_spaces_end(s: Seq<char>, i: int)
    requires
        0 <= i <= s.len(),
    ensures
        i <= spaces_end(s, i) <= s.len(),
        forall|k: int| i <= k < spaces_end(s, i) ==> is_space(#[trigger] s[k]),
        spaces_end(s, i) == s.len() || !is_space(s[spaces_end(s, i)]),
    decreases s.len() - i,
{
    if i < s.len() && is_space(s[i]) {
        lemma_spaces_end(s, i + 1);
    }
}

pub proof fn lemma_number_end(s: Seq<char>, i: int)
    requires
        0 <= i < s.len(),
        is_digit(s[i]),
    ensures
        i < number_end(s, i).1 <= s.len(),
{
    lemma_digits_end(s, i);
    lemma_digits_end(s, i + 1);
    let d = digits_end(s, i);
    if d + 1 < s.len() && s[d] == '.' && is_digit(s[d + 1]) {
        lemma_digits_end(s, d + 1);
    }
}

pub fn char_is_digit(c: char) -> (r: bool)
    ensures
        r == is_digit(c),
{
    let v = c as u32;
    48 <= v && v <= 57
}

pub fn char_is_space(c: char) -> (r: bool)
    ensures
        r == is_space(c),
{
    c == ' ' || c == '\t' || c == '\r' || c == '\n' || c == '\u{c}'
}

pub fn scan_digits(chars: &Vec<char>, i: usize) -> (e: usize)
    requires
        i <= chars@.len(),
    ensures
        e == digits_end(chars@, i as int),
{
    let mut k = i;
    while k < chars.len() && char_is_digit(chars[k])
        invariant
            i <= k <= chars@.len(),
            digits_end(chars@, i as int) == digits_end(chars@, k as int),
        decreases chars@.len() - k,
    {
        k = k + 1;
    }
    k
}

pub fn scan_spaces(chars: &Vec<char>, i: usize) -> (e: usize)
    requires
        i <= chars@.len(),
    ensures
        e == spaces_end(chars@, i as int),
{
    let mut k = i;
    while k < chars.len() && char_is_space(chars[k])
        invariant
            i <= k <= chars@.len(),
            spaces_end(chars@, i as int) == spaces_end(chars@, k as int),
        decreases chars@.len() - k,
    {
        k = k + 1;
    }
    k
}

pub fn scan_number(chars: &Vec<char>, i: usize) -> (r: (bool, usize))
    requires
        i < chars@.len(),
        is_digit(chars@[i as int]),
    ensures
        r.0 == number_end(chars@, i as int).0,
        r.1 == number_end(chars@, i as int).1,
{
    proof {
        lemma_digits_end(chars@, i as int);
    }
    let d = scan_digits(chars, i);
    if d < chars.len() && chars[d] == '.' && d + 1 < chars.len() && char_is_digit(chars[d + 1]) {
        (true, scan_digits(chars, d + 1))
    } else {
        (false, d)
    }
}

/// Byte offset of the character with index `to`, given that of the one with index `from`.
pub fn advance_bytes(chars: &Vec<char>, from: usize, to: usize, pos: usize) -> (r: usize)
    requires
        from <= to <= chars@.len(),
        pos == byte_pos(chars@, from as int),
        byte_len(chars@) <= usize::MAX,
    ensures
        r == byte_pos(chars@, to as int),
{
    let mut k = from;
    let mut p = pos;
    while k < to
        invariant
            from <= k <= to <= chars@.len(),
            p == byte_pos(chars@, k as int),
            byte_len(chars@) <= usize::MAX,
        decreases to - k,
    {
        proof {
            lemma_byte_pos_step(chars@, k as int);
            lemma_byte_pos_mono(chars@, k as int + 1, chars@.len() as int);
        }
        p = p + char_width(chars[k]) as usize;
        k = k + 1;
    }
    p
}

/// The value of a sequence of decimal digits.
pub open spec fn decimal_value(w: Seq<char>) -> int
    decreases w.len(),
{
    if w.len() == 0 {
        0
    } else {
        decimal_value(w.drop_last()) * 10 + ((w.last() as u32) - 48)
    }
}

pub open spec fn all_digits(w: Seq<char>) -> bool {
    forall|k: int| 0 <= k < w.len() ==> is_digit(#[trigger] w[k])
}

pub proof fn lemma_decimal_prefix_le(w: Seq<char>, k: int)
    requires
        all_digits(w),
        0 <= k <= w.len(),
    ensures
        0 <= decimal_value(w.take(k)) <= decimal_value(w),
    decreases w.len() - k,
{
    if k < w.len() {
        lemma_decimal_prefix_le(w, k + 1);
        assert(w.take(k + 1).drop_last() =~= w.take(k));
    } else {
        assert(w.take(k) =~= w);
        lemma_decimal_nonneg(w);
    }
}

pub proof fn lemma_decimal_nonneg(w: Seq<char>)
    requires
        all_digits(w),
    ensures
        decimal_value(w) >= 0,
    decreases w.len(),
{
    if w.len() > 0 {
        assert(all_digits(w.drop_last()));
        lemma_decimal_nonneg(w.drop_last());
    }
}

/// Parses a nonempty run of decimal digits into an `i32`, failing exactly when the
/// value is greater than `i32::MAX`.
pub fn parse_decimal_i32(w: &str) -> (r: Option<i32>)
    requires
        all_digits(w@),
    ensures
        match r {
            Some(v) => v == decimal_value(w@),
            None => decimal_value(w@) > i32::MAX,
        },
{
    let chars = collect_chars(w);
    let mut value: i32 = 0;
    let mut k: usize = 0;
    while k < chars.len()
        invariant
            chars@ == w@,
            all_digits(w@),
            k <= chars@.len(),
            value == decimal_value(w@.take(k as int)),
        decreases chars@.len() - k,
    {
        assert(is_digit(w@[k as int]));
        let d = (chars[k] as u32 - 48) as i32;
        assert(w@.take(k + 1).drop_last() =~= w@.take(k as int));
        proof {
            lemma_decimal_prefix_le(w@, k as int);
        }
        if value > (i32::MAX - d) / 10 {
            proof {
                lemma_decimal_prefix_le(w@, k + 1);
            }
            return None;
        }
        assert(value * 10 + d <= i32::MAX) by (nonlinear_arith)
            requires
                0 <= d <= 9,
                0 <= value <= (i32::MAX - d) / 10,
        ;
        value = value * 10 + d;
        k = k + 1;
    }
    assert(w@.take(k as int) =~= w@);
    Some(value)
}

} // verus!
