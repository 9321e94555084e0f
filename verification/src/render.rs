//! Diagnostics rendered as text under the source line they point into.
use crate::diag::Diagnostic;
use crate::text::{byte_len, byte_pos, char_width, collect_chars, lemma_byte_pos_full, lemma_byte_pos_mono,
    lemma_byte_pos_step, lemma_byte_pos_zero};
use vstd::prelude::*;
use vstd::string::StringSliceAdditionalSpecFns;

verus! {

/// `i` is the number of characters of `s` that start before byte `b`.
pub open spec fn is_char_offset(s: Seq<char>, b: int, i: int) -> bool {
    &&& 0 <= i <= s.len()
    &&& (i == s.len() || byte_pos(s, i) >= b)
    &&& forall|k: int| 0 <= k < i ==> byte_pos(s, k) < b
}

/// The number of characters of `s` before byte `b`.
pub open spec fn char_offset(s: Seq<char>, b: int) -> int {
    choose|i: int| is_char_offset(s, b, i)
}

/// Byte `b` of the encoding of `s` starts a character, or ends `s`.
pub open spec fn is_boundary(s: Seq<char>, b: int) -> bool {
    exists|i: int| 0 <= i <= s.len() && byte_pos(s, i) == b
}

/// `n` copies of `c`.
pub open spec fn repeat(c: char, n: nat) -> Seq<char> {
    Seq::new(n, |_i: int| c)
}

/// The text of one diagnostic: its message, the source line, and under it a caret
/// under each character of its span (one at least).
pub open spec fn render_one(source: Seq<char>, d: Diagnostic) -> Seq<char> {
    let offset = char_offset(source, d.spec_location().start.0 as int);
    let count = char_offset(source, d.spec_location().end.0 as int) - offset;
    let width = if count < 1 { 1 } else { count };
    "error: "@ + d.spec_message() + "\n  "@ + source + "\n  "@ + repeat(' ', offset as nat) + repeat(
        '^',
        width as nat,
    )
}

/// The diagnostics rendered one after the other, separated by line breaks.
pub open spec fn render_all(source: Seq<char>, ds: Seq<Diagnostic>) -> Seq<char>
    decreases ds.len(),
{
    if ds.len() == 0 {
        Seq::empty()
    } else if ds.len() == 1 {
        render_one(source, ds[0])
    } else {
        render_all(source, ds.drop_last()) + "\n"@ + render_one(source, ds.last())
    }
}

/// A diagnostic of `source` whose span runs between character boundaries.
pub open spec fn renderable(source: Seq<char>, d: Diagnostic) -> bool {
    &&& d.spec_location().start.0 <= d.spec_location().end.0
    &&& is_boundary(source, d.spec_location().start.0 as int)
    &&& is_boundary(source, d.spec_location().end.0 as int)
}

proof fn lemma_char_offset_unique(s: Seq<char>, b: int, i: int)
    requires
        is_char_offset(s, b, i),
    ensures
        char_offset(s, b) == i,
{
    let j = char_offset(s, b);
    assert(is_char_offset(s, b, j));
    if j < i {
        assert(byte_pos(s, j) < b);
    } else if i < j {
        assert(byte_pos(s, i) < b);
    }
}

proof fn lemma_char_offset_mono(s: Seq<char>, b1: int, b2: int, i1: int, i2: int)
    requires
        b1 <= b2,
        is_char_offset(s, b1, i1),
        is_char_offset(s, b2, i2),
    ensures
        i1 <= i2,
{
    if i2 < i1 {
        assert(byte_pos(s, i2) < b1);
    }
}

/// The number of characters of `chars` that start before byte `b`.
fn find_char_offset(chars: &Vec<char>, b: usize) -> (r: usize)
    requires
        byte_len(chars@) <= usize::MAX,
    ensures
        is_char_offset(chars@, b as int, r as int),
{
    let ghost s = chars@;
    let mut i: usize = 0;
    let mut pos: usize = 0;
    proof {
        lemma_byte_pos_zero(s);
    }
    while i < chars.len() && pos < b
        invariant
            s == chars@,
            byte_len(s) <= usize::MAX,
            i <= s.len(),
            pos == byte_pos(s, i as int),
            forall|k: int| 0 <= k < i ==> byte_pos(s, k) < b,
        decreases s.len() - i,
    {
        let w = char_width(chars[i]);
        proof {
            lemma_byte_pos_step(s, i as int);
            lemma_byte_pos_mono(s, i + 1, s.len() as int);
        }
        pos = pos + w as usize;
        i = i + 1;
    }
    i
}

/// Appends `n` copies of `piece`, a one-character string.
fn append_repeated(out: &mut String, piece: &str, n: usize)
    requires
        piece@.len() == 1,
    ensures
        final(out)@ == old(out)@ + repeat(piece@[0], n as nat),
{
    let mut k: usize = 0;
    while k < n
        invariant
            piece@.len() == 1,
            k <= n,
            out@ == old(out)@ + repeat(piece@[0], k as nat),
        decreases n - k,
    {
        out.append(piece);
        k = k + 1;
        assert(out@ =~= old(out)@ + repeat(piece@[0], k as nat));
    }
}

/// Renders `diagnostics` of `source` as text: for each, the message, the source, and a
/// line of carets under the span.
pub fn render_diagnostics(source: &str, diagnostics: &[Diagnostic]) -> (r: String)
    requires
        forall|i: int| 0 <= i < diagnostics@.len() ==> renderable(source@, #[trigger] diagnostics@[i]),
    ensures
        r@ == render_all(source@, diagnostics@),
{
    let chars = collect_chars(source);
    let total = source.as_bytes().len();
    proof {
        assert(source.spec_bytes() == vstd::utf8::encode_utf8(source@));
        assert(byte_len(source@) == total);
    }
    let mut out = String::new();
    let mut i: usize = 0;
    while i < diagnostics.len()
        invariant
            chars@ == source@,
            byte_len(source@) <= usize::MAX,
            forall|i: int| 0 <= i < diagnostics@.len() ==> renderable(source@, #[trigger] diagnostics@[i]),
            i <= diagnostics@.len(),
            out@ == render_all(source@, diagnostics@.take(i as int)),
        decreases diagnostics@.len() - i,
    {
        let ghost before = out@;
        if i > 0 {
            out.append("\n");
        }
        let d = &diagnostics[i];
        assert(renderable(source@, diagnostics@[i as int]));
        let span = d.location();
        let offset = find_char_offset(&chars, span.start.index());
        let end = find_char_offset(&chars, span.end.index());
        proof {
            lemma_char_offset_unique(source@, span.start.0 as int, offset as int);
            lemma_char_offset_unique(source@, span.end.0 as int, end as int);
            lemma_char_offset_mono(source@, span.start.0 as int, span.end.0 as int, offset as int, end as int);
        }
        let count = end - offset;
        let width = if count < 1 { 1 } else { count };
        out.append("error: ");
        out.append(d.message());
        out.append("\n  ");
        out.append(source);
        out.append("\n  ");
        proof {
            reveal_strlit(" ");
            reveal_strlit("^");
        }
        append_repeated(&mut out, " ", offset);
        append_repeated(&mut out, "^", width);
        proof {
            let ds = diagnostics@.take(i + 1);
            assert(ds.drop_last() =~= diagnostics@.take(i as int));
            assert(ds.last() == diagnostics@[i as int]);
            if i == 0 {
                assert(before =~= Seq::<char>::empty());
            }
            assert(out@ =~= render_all(source@, ds));
        }
        i = i + 1;
    }
    proof {
        assert(diagnostics@.take(diagnostics@.len() as int) =~= diagnostics@);
    }
    out
}

} // verus!
