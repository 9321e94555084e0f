//! Source text as a sequence of `char`s, and the byte offsets of its UTF-8 encoding.
use vstd::prelude::*;
use vstd::utf8::*;
use vstd::string::StringSliceAdditionalSpecFns;

verus! {

broadcast use vstd::seq_lib::group_seq_properties;

/// Number of bytes of the UTF-8 encoding of `c`.
pub open spec fn width(c: char) -> nat {
    let v = c as u32;
    if v < 0x80 {
        1
    } else if v < 0x800 {
        2
    } else if v < 0x10000 {
        3
    } else {
        4
    }
}

/// Number of bytes of the UTF-8 encoding of `s`.
pub open spec fn byte_len(s: Seq<char>) -> nat {
    encode_utf8(s).len()
}

/// Byte offset, in the UTF-8 encoding of `s`, of the character with index `i`.
pub open spec fn byte_pos(s: Seq<char>, i: int) -> nat {
    byte_len(s.take(i))
}

pub proof fn lemma_width_encode(c: char)
    ensures
        encode_scalar(c as u32).len() == width(c),
{
    char_is_scalar(c);
}

/// The encoding of a concatenation is the concatenation of the encodings.
pub proof fn lemma_encode_concat(a: Seq<char>, b: Seq<char>)
    ensures
        encode_utf8(a + b) == encode_utf8(a) + encode_utf8(b),
    decreases a.len(),
{
    if a.len() == 0 {
        assert(a + b =~= b);
    } else {
        assert((a + b).drop_first() =~= a.drop_first() + b);
        lemma_encode_concat(a.drop_first(), b);
        assert(encode_utf8(a + b) =~= encode_utf8(a) + encode_utf8(b));
    }
}

pub proof fn lemma_byte_len_single(c: char)
    ensures
        byte_len(seq![c]) == width(c),
{
    lemma_width_encode(c);
    assert(seq![c].drop_first() =~= Seq::<char>::empty());
    assert(encode_utf8(Seq::<char>::empty()) =~= Seq::<u8>::empty());
    assert(encode_utf8(seq![c]) =~= encode_scalar(c as u32) + encode_utf8(seq![c].drop_first()));
}

pub proof fn lemma_byte_len_concat(a: Seq<char>, b: Seq<char>)
    ensures
        byte_len(a + b) == byte_len(a) + byte_len(b),
{
    lemma_encode_concat(a, b);
}

/// Moving one character forward advances the byte offset by that character's width.
pub proof fn lemma_byte_pos_step(s: Seq<char>, i: int)
    requires
        0 <= i < s.len(),
    ensures
        byte_pos(s, i + 1) == byte_pos(s, i) + width(s[i]),
{
    assert(s.take(i + 1) =~= s.take(i) + seq![s[i]]);
    lemma_byte_len_concat(s.take(i), seq![s[i]]);
    lemma_byte_len_single(s[i]);
}

pub proof fn lemma_byte_pos_zero(s: Seq<char>)
    ensures
        byte_pos(s, 0) == 0,
{
    assert(s.take(0) =~= Seq::<char>::empty());
}

pub proof fn lemma_byte_pos_full(s: Seq<char>)
    ensures
        byte_pos(s, s.len() as int) == byte_len(s),
{
    assert(s.take(s.len() as int) =~= s);
}

/// Byte offsets grow with the character index.
pub proof fn lemma_byte_pos_mono(s: Seq<char>, i: int, j: int)
    requires
        0 <= i <= j <= s.len(),
    ensures
        byte_pos(s, i) + (j - i) <= byte_pos(s, j),
        byte_pos(s, j) <= byte_len(s),
    decreases j - i,
{
    if i == j {
        assert(s.take(j) + s.skip(j) =~= s);
        lemma_byte_len_concat(s.take(j), s.skip(j));
    } else {
        lemma_byte_pos_mono(s, i + 1, j);
        lemma_byte_pos_step(s, i);
    }
}

/// The byte length of the characters between indices `i` and `j`.
pub proof fn lemma_byte_pos_subrange(s: Seq<char>, i: int, j: int)
    requires
        0 <= i <= j <= s.len(),
    ensures
        byte_pos(s, j) == byte_pos(s, i) + byte_len(s.subrange(i, j)),
{
    assert(s.take(j) =~= s.take(i) + s.subrange(i, j));
    lemma_byte_len_concat(s.take(i), s.subrange(i, j));
}

/// The byte offset of a character index is a character boundary of the encoding.
proof fn lemma_char_boundary(s: Seq<char>, i: int)
    requires
        0 <= i <= s.len(),
    ensures
        is_char_boundary(encode_utf8(s), byte_pos(s, i) as int),
    decreases i,
{
    let bytes = encode_utf8(s);
    encode_utf8_valid_utf8(s);
    if i == 0 {
        lemma_byte_pos_zero(s);
    } else {
        encode_utf8_first_scalar(s);
        assert(pop_first_scalar(bytes) =~= encode_utf8(s.drop_first()));
        lemma_char_boundary(s.drop_first(), i - 1);
        assert(s.take(i) =~= seq![s[0]] + s.drop_first().take(i - 1));
        lemma_byte_len_concat(seq![s[0]], s.drop_first().take(i - 1));
        lemma_byte_len_single(s[0]);
        lemma_width_encode(s[0]);
        lemma_byte_pos_mono(s, i, s.len() as int);
        lemma_byte_pos_full(s);
    }
}

/// Executable width of a character's UTF-8 encoding.
pub fn char_width(c: char) -> (w: u32)
    ensures
        w == width(c),
        1 <= w <= 4,
{
    let v = c as u32;
    if v < 0x80 {
        1
    } else if v < 0x800 {
        2
    } else if v < 0x10000 {
        3
    } else {
        4
    }
}

/// The characters of `s`, in order.
pub fn collect_chars(s: &str) -> (v: Vec<char>)
    ensures
        v@ == s@,
{
    let mut chars = s.chars();
    let mut v: Vec<char> = Vec::new();
    proof {
        vstd::string::axiom_spec_iter(s);
    }
    loop
        invariant
            vstd::std_specs::iter::IteratorSpec::obeys_prophetic_iter_laws(&chars),
            s@ == v@ + vstd::std_specs::iter::IteratorSpec::remaining(&chars),
        decreases s@.len() - v@.len(),
    {
        let ghost before = chars;
        let next = chars.next();
        proof {
            vstd::string::next_postcondition(&before, &chars, next);
        }
        match next {
            Some(c) => {
                v.push(c);
                assert(s@ =~= v@ + vstd::std_specs::iter::IteratorSpec::remaining(&chars));
            },
            None => {
                assert(v@ =~= s@);
                return v;
            },
        }
    }
}

/// The part of `s` between character indices `i` and `j`, whose byte offsets are `a` and `b`.
pub fn substr<'a>(s: &'a str, i: Ghost<int>, j: Ghost<int>, a: usize, b: usize) -> (r: &'a str)
    requires
        0 <= i@ <= j@ <= s@.len(),
        a == byte_pos(s@, i@),
        b == byte_pos(s@, j@),
    ensures
        r@ == s@.subrange(i@, j@),
{
    let ghost cs = s@;
    proof {
        lemma_char_boundary(cs, i@);
        assert(s.spec_bytes() == encode_utf8(cs));
    }
    let (_, rest) = s.split_at(a);
    let ghost tail = cs.skip(i@);
    proof {
        assert(cs =~= cs.take(i@) + tail);
        lemma_encode_concat(cs.take(i@), tail);
        assert(rest.spec_bytes() =~= encode_utf8(tail));
        lemma_byte_pos_subrange(cs, i@, j@);
        assert(tail.take(j@ - i@) =~= cs.subrange(i@, j@));
        lemma_char_boundary(tail, j@ - i@);
        lemma_byte_pos_mono(cs, i@, j@);
    }
    let (mid, _) = rest.split_at(b - a);
    proof {
        let piece = cs.subrange(i@, j@);
        assert(tail =~= piece + tail.skip(j@ - i@));
        lemma_encode_concat(piece, tail.skip(j@ - i@));
        assert(mid.spec_bytes() =~= encode_utf8(piece));
        encode_utf8_decode_utf8(piece);
        encode_utf8_decode_utf8(mid@);
    }
    mid
}

} // verus!
