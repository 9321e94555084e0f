//! Printing a syntax tree as indented text: one line per node, `label @ start..end`, with
//! the lines of its children below it, drawn as branches of a tree.
use crate::ast::{BinOp, Expr, ExprKind, UnOp, Value};
use crate::diag::Span;
use crate::frontend::{append_decimal, decimal_string};
use crate::grammar::{spec_infix_op, spec_prefix_op};
use crate::parser::{sym_ok, Parsed};
use crate::scan::{is_space, spaces_end};
use crate::token::{lex, punct_tag, token_at, TokenKind};
use crate::xid::{is_xid_start, xid_start};
use vstd::prelude::*;
use vstd::string::StringExecFns;

verus! {

broadcast use vstd::seq_lib::group_seq_properties;

/// The text of an integer in base ten.
pub open spec fn int_string(v: int) -> Seq<char> {
    if v < 0 {
        seq!['-'] + decimal_string((-v) as nat)
    } else {
        decimal_string(v as nat)
    }
}

pub open spec fn un_op_text(op: UnOp) -> Seq<char> {
    match op {
        UnOp::Plus => seq!['+'],
        UnOp::Minus => seq!['-'],
    }
}

pub open spec fn bin_op_text(op: BinOp) -> Seq<char> {
    match op {
        BinOp::Add => seq!['+'],
        BinOp::Sub => seq!['-'],
        BinOp::Mul => seq!['*'],
        BinOp::Div => seq!['/'],
        BinOp::Pow => seq!['^'],
    }
}

/// Law: the text that labels a binary operator reads back as that operator: lexed, it is
/// one token, of a kind that the parser takes for `op`. It asks that the operator's
/// character not start an identifier, which holds of every operator
/// (`operators_do_not_start_identifiers`).
pub proof fn law_bin_op_text_reads_back(op: BinOp)
    requires
        !xid_start(bin_op_text(op)[0]),
    ensures
        lex(bin_op_text(op), 0).len() == 1,
        lex(bin_op_text(op), 0)[0].1 == 0,
        lex(bin_op_text(op), 0)[0].2 == 1,
        forall|k: TokenKind| #[trigger] k.spec_tag() == lex(bin_op_text(op), 0)[0].0 ==> spec_infix_op(k) == Some(op),
{
    let s = bin_op_text(op);
    assert(!is_space(s[0]));
    assert(spaces_end(s, 0) == 0);
    assert(token_at(s, 0) == (punct_tag(s[0]), 1int));
    assert(lex(s, 1) == Seq::<(crate::token::TokenTag, int, int)>::empty());
    assert(lex(s, 0) =~= seq![(punct_tag(s[0]), 0int, 1int)]);
}

/// Law: the text that labels a prefix operator reads back as that operator: lexed, it is
/// one token, of a kind that the parser takes for `op` in front of a term. It asks that
/// the operator's character not start an identifier (`operators_do_not_start_identifiers`).
pub proof fn law_un_op_text_reads_back(op: UnOp)
    requires
        !xid_start(un_op_text(op)[0]),
    ensures
        lex(un_op_text(op), 0).len() == 1,
        lex(un_op_text(op), 0)[0].1 == 0,
        lex(un_op_text(op), 0)[0].2 == 1,
        forall|k: TokenKind| #[trigger] k.spec_tag() == lex(un_op_text(op), 0)[0].0 ==> spec_prefix_op(k) == Some(op),
{
    let s = un_op_text(op);
    assert(!is_space(s[0]));
    assert(spaces_end(s, 0) == 0);
    assert(token_at(s, 0) == (punct_tag(s[0]), 1int));
    assert(lex(s, 1) == Seq::<(crate::token::TokenTag, int, int)>::empty());
    assert(lex(s, 0) =~= seq![(punct_tag(s[0]), 0int, 1int)]);
}

/// No operator character starts an identifier: what `law_bin_op_text_reads_back` and
/// `law_un_op_text_reads_back` ask.
pub fn operators_do_not_start_identifiers() -> (r: bool)
    ensures
        r,
        forall|op: BinOp| !xid_start(#[trigger] bin_op_text(op)[0]),
        forall|op: UnOp| !xid_start(#[trigger] un_op_text(op)[0]),
{
    let plus = is_xid_start('+');
    let minus = is_xid_start('-');
    let star = is_xid_start('*');
    let slash = is_xid_start('/');
    let caret = is_xid_start('^');
    proof {
        assert forall|op: BinOp| !xid_start(#[trigger] bin_op_text(op)[0]) by {
            match op {
                BinOp::Add => {},
                BinOp::Sub => {},
                BinOp::Mul => {},
                BinOp::Div => {},
                BinOp::Pow => {},
            }
        }
        assert forall|op: UnOp| !xid_start(#[trigger] un_op_text(op)[0]) by {
            match op {
                UnOp::Plus => {},
                UnOp::Minus => {},
            }
        }
    }
    !(plus || minus || star || slash || caret)
}

/// The text of `f32::consts::PI`.
pub open spec fn pi_text() -> Seq<char> {
    seq!['3', '.', '1', '4', '1', '5', '9', '2', '7']
}

/// The label of the node `e`, whose variables are named by `names`; `float` is the text
/// of the value of a float literal.
pub open spec fn node_label(e: Expr, names: Seq<Seq<char>>, float: Seq<char>) -> Seq<char> {
    match e.kind {
        ExprKind::UnOp(op, _) => seq!['U', 'n', 'O', 'p', ' '] + un_op_text(op),
        ExprKind::BinOp(op, _, _) => seq!['B', 'i', 'n', 'O', 'p', ' '] + bin_op_text(op),
        ExprKind::Intrinsic(kind, _) => seq!['I', 'n', 't', 'r', 'i', 'n', 's', 'i', 'c', ' '] + kind.spec_name(),
        ExprKind::Var(name) => seq!['V', 'a', 'r', ' '] + names[name.0 as int],
        ExprKind::Lit(Value::I32(v)) => seq!['I', '3', '2', ' '] + int_string(v as int),
        ExprKind::Lit(Value::F32(_)) => seq!['F', '3', '2', ' '] + float,
        ExprKind::Lit(Value::Pi) => seq!['F', '3', '2', ' '] + pi_text(),
        ExprKind::Error(_) => seq!['E', 'r', 'r', 'o', 'r'],
    }
}

/// The first line of a node: its label and its span.
pub open spec fn header(label: Seq<char>, span: Span) -> Seq<char> {
    label + seq![' ', '@', ' '] + decimal_string(span.start.0 as nat) + seq!['.', '.'] + decimal_string(
        span.end.0 as nat,
    )
}

/// What precedes the first line of a child, the last child or another.
pub open spec fn branch_head(last: bool) -> Seq<char> {
    if last {
        seq!['\u{2514}', '\u{2500}', ' ']
    } else {
        seq!['\u{251c}', '\u{2500}', ' ']
    }
}

/// What precedes the other lines of a child.
pub open spec fn branch_tail(last: bool) -> Seq<char> {
    if last {
        seq![' ', ' ', ' ']
    } else {
        seq!['\u{2502}', ' ', ' ']
    }
}

/// The lines of a child under its parent.
pub open spec fn indented(lines: Seq<Seq<char>>, last: bool) -> Seq<Seq<char>> {
    Seq::new(lines.len(), |j: int| (if j == 0 { branch_head(last) } else { branch_tail(last) }) + lines[j])
}

/// The children of a node, in order.
pub open spec fn children(e: Expr) -> Seq<int> {
    match e.kind {
        ExprKind::UnOp(_, a) => seq![a.0 as int],
        ExprKind::BinOp(_, a, b) => seq![a.0 as int, b.0 as int],
        ExprKind::Intrinsic(_, args) => Seq::new(
            (args.end - args.start) as nat,
            |k: int| args.start + k,
        ),
        ExprKind::Error(Some(a)) => seq![a.0 as int],
        _ => seq![],
    }
}

/// The lines of the tree under node `i`, with labels `labels`.
pub open spec fn tree_lines(nodes: Seq<Expr>, labels: Seq<Seq<char>>, i: int) -> Seq<Seq<char>>
    decreases i + 1, 0int,
{
    if i < 0 {
        seq![]
    } else {
        seq![header(labels[i], nodes[i].span)] + child_lines(nodes, labels, i, children(nodes[i]), 0)
    }
}

/// The lines of the children `cs` of node `i` from the `k`-th on, each indented.
pub open spec fn child_lines(nodes: Seq<Expr>, labels: Seq<Seq<char>>, i: int, cs: Seq<int>, k: int) -> Seq<
    Seq<char>,
>
    decreases i, cs.len() - k,
{
    if i < 0 || k < 0 || k >= cs.len() || !(0 <= cs[k] < i) {
        seq![]
    } else {
        indented(tree_lines(nodes, labels, cs[k]), k == cs.len() - 1) + child_lines(nodes, labels, i, cs, k + 1)
    }
}

/// Lines joined by line breaks.
pub open spec fn join_lines(lines: Seq<Seq<char>>) -> Seq<char>
    decreases lines.len(),
{
    if lines.len() == 0 {
        seq![]
    } else if lines.len() == 1 {
        lines[0]
    } else {
        join_lines(lines.drop_last()) + seq!['\n'] + lines.last()
    }
}

/// `labels` holds the label of each node, where the text of each float literal's value is
/// one that `float_text` gave for its span.
pub open spec fn labels_from<F: FnMut(Span) -> String>(
    nodes: Seq<Expr>,
    names: Seq<Seq<char>>,
    labels: Seq<Seq<char>>,
    float_text: F,
) -> bool {
    &&& labels.len() == nodes.len()
    &&& forall|i: int|
        0 <= i < nodes.len() ==> match (#[trigger] nodes[i]).kind {
            ExprKind::Lit(Value::F32(span)) => exists|t: String|
                call_ensures(float_text, (span,), t) && labels[i] == node_label(nodes[i], names, t@),
            _ => labels[i] == node_label(nodes[i], names, seq![]),
        }
}

spec fn lines_view(v: Seq<String>) -> Seq<Seq<char>> {
    v.map_values(|s: String| s@)
}

fn text(s: &str) -> (r: String)
    ensures
        r@ == s@,
{
    s.to_owned()
}

/// The label of `e`.
fn label<F: FnMut(Span) -> String>(e: &Expr, parsed: &Parsed, float_text: &mut F) -> (r: String)
    requires
        sym_ok(*e, parsed.spec_interner()@.len()),
        forall|s: Span| call_requires(*old(float_text), (s,)),
    ensures
        *final(float_text) == *old(float_text),
        match e.kind {
            ExprKind::Lit(Value::F32(span)) => exists|t: String|
                call_ensures(*old(float_text), (span,), t) && r@ == node_label(*e, parsed.spec_interner()@, t@),
            _ => r@ == node_label(*e, parsed.spec_interner()@, seq![]),
        },
{
    proof {
        reveal_strlit("UnOp +");
        reveal_strlit("UnOp -");
        reveal_strlit("BinOp +");
        reveal_strlit("BinOp -");
        reveal_strlit("BinOp *");
        reveal_strlit("BinOp /");
        reveal_strlit("BinOp ^");
        reveal_strlit("Intrinsic ");
        reveal_strlit("Var ");
        reveal_strlit("I32 ");
        reveal_strlit("I32 -");
        reveal_strlit("F32 ");
        reveal_strlit("F32 3.1415927");
        reveal_strlit("Error");
    }
    match e.kind {
        ExprKind::UnOp(op, _) => match op {
            UnOp::Plus => text("UnOp +"),
            UnOp::Minus => text("UnOp -"),
        },
        ExprKind::BinOp(op, _, _) => match op {
            BinOp::Add => text("BinOp +"),
            BinOp::Sub => text("BinOp -"),
            BinOp::Mul => text("BinOp *"),
            BinOp::Div => text("BinOp /"),
            BinOp::Pow => text("BinOp ^"),
        },
        ExprKind::Intrinsic(kind, _) => {
            let mut out = text("Intrinsic ");
            let name = kind.name();
            out.append(name.as_str());
            out
        },
        ExprKind::Var(name) => {
            let mut out = text("Var ");
            match parsed.interner().resolve(name) {
                Some(s) => out.append(s),
                None => {},
            }
            out
        },
        ExprKind::Lit(Value::I32(v)) => {
            if v < 0 {
                let mut out = text("I32 -");
                let magnitude = (0i64 - v as i64) as usize;
                append_decimal(&mut out, magnitude);
                out
            } else {
                let mut out = text("I32 ");
                append_decimal(&mut out, v as usize);
                out
            }
        },
        ExprKind::Lit(Value::F32(span)) => {
            let value = float_text(span);
            let mut out = text("F32 ");
            out.append(value.as_str());
            assert(call_ensures(*old(float_text), (span,), value) && out@ == node_label(
                *e,
                parsed.spec_interner()@,
                value@,
            ));
            out
        },
        ExprKind::Lit(Value::Pi) => text("F32 3.1415927"),
        ExprKind::Error(_) => text("Error"),
    }
}

/// The children of `e`, in order.
fn child_list(e: &Expr) -> (r: Vec<usize>)
    requires
        e.kind matches ExprKind::Intrinsic(_, args) ==> args.start <= args.end,
    ensures
        r@.map_values(|c: usize| c as int) == children(*e),
{
    let mut out: Vec<usize> = Vec::new();
    match e.kind {
        ExprKind::UnOp(_, a) => {
            out.push(a.0 as usize);
            assert(out@.map_values(|c: usize| c as int) =~= seq![a.0 as int]);
        },
        ExprKind::BinOp(_, a, b) => {
            out.push(a.0 as usize);
            out.push(b.0 as usize);
            assert(out@.map_values(|c: usize| c as int) =~= seq![a.0 as int, b.0 as int]);
        },
        ExprKind::Intrinsic(_, args) => {
            let mut k = args.start;
            while k < args.end
                invariant
                    args.start <= k <= args.end,
                    out@.len() == k - args.start,
                    forall|j: int| 0 <= j < out@.len() ==> out@[j] == args.start + j,
                decreases args.end - k,
            {
                out.push(k as usize);
                k = k + 1;
            }
            assert(out@.map_values(|c: usize| c as int) =~= children(*e));
        },
        ExprKind::Error(Some(a)) => {
            out.push(a.0 as usize);
            assert(out@.map_values(|c: usize| c as int) =~= seq![a.0 as int]);
        },
        _ => {
            assert(out@.map_values(|c: usize| c as int) =~= children(*e));
        },
    }
    out
}

/// Appends the lines `lines` of a child, indented under its parent.
fn indent(lines: &Vec<String>, last: bool, out: &mut Vec<String>)
    ensures
        lines_view(final(out)@) == lines_view(old(out)@) + indented(lines_view(lines@), last),
{
    proof {
        reveal_strlit("\u{2514}\u{2500} ");
        reveal_strlit("\u{251c}\u{2500} ");
        reveal_strlit("   ");
        reveal_strlit("\u{2502}  ");
    }
    let head = if last { "\u{2514}\u{2500} " } else { "\u{251c}\u{2500} " };
    let tail = if last { "   " } else { "\u{2502}  " };
    let ghost start = lines_view(out@);
    let mut j: usize = 0;
    while j < lines.len()
        invariant
            j <= lines@.len(),
            head@ == branch_head(last),
            tail@ == branch_tail(last),
            lines_view(out@) == start + indented(lines_view(lines@), last).take(j as int),
        decreases lines@.len() - j,
    {
        let mut line = if j == 0 { text(head) } else { text(tail) };
        line.append(lines[j].as_str());
        let ghost before = out@;
        out.push(line);
        proof {
            assert(lines_view(out@) =~= lines_view(before).push(line@));
            assert(indented(lines_view(lines@), last).take(j + 1) =~= indented(lines_view(lines@), last).take(
                j as int,
            ).push(line@));
        }
        j = j + 1;
    }
    proof {
        assert(indented(lines_view(lines@), last).take(lines@.len() as int) =~= indented(lines_view(lines@), last));
    }
}

/// The lines of a tree depend only on the labels of its nodes, which come no later than
/// its root.
proof fn lemma_tree_lines_prefix(nodes: Seq<Expr>, labels: Seq<Seq<char>>, more: Seq<Seq<char>>, i: int)
    requires
        0 <= i < labels.len() <= more.len(),
        labels == more.take(labels.len() as int),
    ensures
        tree_lines(nodes, labels, i) == tree_lines(nodes, more, i),
    decreases i + 1, 0int,
{
    lemma_child_lines_prefix(nodes, labels, more, i, children(nodes[i]), 0);
}

proof fn lemma_child_lines_prefix(
    nodes: Seq<Expr>,
    labels: Seq<Seq<char>>,
    more: Seq<Seq<char>>,
    i: int,
    cs: Seq<int>,
    k: int,
)
    requires
        0 <= i < labels.len() <= more.len(),
        labels == more.take(labels.len() as int),
    ensures
        child_lines(nodes, labels, i, cs, k) == child_lines(nodes, more, i, cs, k),
    decreases i, cs.len() - k,
{
    if !(k < 0 || k >= cs.len() || !(0 <= cs[k] < i)) {
        lemma_tree_lines_prefix(nodes, labels, more, cs[k]);
        lemma_child_lines_prefix(nodes, labels, more, i, cs, k + 1);
    }
}

fn pretty_print<F: FnMut(Span) -> String>(parsed: &Parsed, float_text: F) -> (r: String)
    requires
        parsed.spec_ast().wf(),
        forall|k: int|
            0 <= k < parsed.spec_ast()@.len() ==> sym_ok(
                #[trigger] parsed.spec_ast()@[k],
                parsed.spec_interner()@.len(),
            ),
        forall|s: Span| call_requires(float_text, (s,)),
    ensures
        exists|labels: Seq<Seq<char>>|
            labels_from(parsed.spec_ast()@, parsed.spec_interner()@, labels, float_text) && r@ == join_lines(
                tree_lines(parsed.spec_ast()@, labels, parsed.spec_ast()@.len() - 1),
            ),
{
    let mut float_text = float_text;
    let ghost f0 = float_text;
    let ast = parsed.ast();
    let ghost nodes = ast@;
    let ghost names = parsed.spec_interner()@;
    let n = ast.len();
    let mut rendered: Vec<Vec<String>> = Vec::new();
    let ghost mut labels: Seq<Seq<char>> = seq![];
    let mut i: usize = 0;
    while i < n
        invariant
            float_text == f0,
            forall|s: Span| call_requires(f0, (s,)),
            nodes == ast@,
            n == nodes.len(),
            names == parsed.spec_interner()@,
            ast.wf(),
            forall|k: int| 0 <= k < nodes.len() ==> sym_ok(#[trigger] nodes[k], names.len()),
            i <= n,
            rendered@.len() == i,
            labels.len() == i,
            forall|j: int|
                0 <= j < i ==> match (#[trigger] nodes[j]).kind {
                    ExprKind::Lit(Value::F32(span)) => exists|t: String|
                        call_ensures(f0, (span,), t) && labels[j] == node_label(nodes[j], names, t@),
                    _ => labels[j] == node_label(nodes[j], names, seq![]),
                },
            forall|j: int| 0 <= j < i ==> lines_view((#[trigger] rendered@[j])@) == tree_lines(nodes, labels, j),
        decreases n - i,
    {
        let e = ast.get(crate::ast::ExprId(i as u32));
        let lbl = label(e, parsed, &mut float_text);
        let ghost old_labels = labels;
        proof {
            labels = labels.push(lbl@);
            assert forall|j: int| 0 <= j < i implies lines_view((#[trigger] rendered@[j])@) == tree_lines(
                nodes,
                labels,
                j,
            ) by {
                assert(old_labels == labels.take(i as int));
                lemma_tree_lines_prefix(nodes, old_labels, labels, j);
            }
        }
        let mut head = lbl;
        proof {
            reveal_strlit(" @ ");
            reveal_strlit("..");
        }
        head.append(" @ ");
        append_decimal(&mut head, e.span.start.0 as usize);
        head.append("..");
        append_decimal(&mut head, e.span.end.0 as usize);
        assert(*e == nodes[i as int]);
        assert(labels[i as int] == lbl@);
        assert(head@ == header(labels[i as int], nodes[i as int].span));
        let mut lines: Vec<String> = Vec::new();
        lines.push(head);
        proof {
            assert(crate::ast::children_before(nodes[i as int], i as int));
        }
        let cs = child_list(e);
        let ghost cs_int = children(nodes[i as int]);
        proof {
            assert(lines_view(lines@) =~= seq![header(labels[i as int], nodes[i as int].span)]);
            assert(forall|k: int| 0 <= k < cs@.len() ==> cs_int[k] == cs@[k] as int);
        }
        let mut k: usize = 0;
        while k < cs.len()
            invariant
                i < n,
                n == nodes.len(),
                nodes == ast@,
                ast.wf(),
                labels.len() == i + 1,
                rendered@.len() == i,
                cs_int == children(nodes[i as int]),
                cs_int.len() == cs@.len(),
                forall|m: int| 0 <= m < cs@.len() ==> cs_int[m] == cs@[m] as int,
                forall|j: int| 0 <= j < i ==> lines_view((#[trigger] rendered@[j])@) == tree_lines(nodes, labels, j),
                k <= cs@.len(),
                seq![header(labels[i as int], nodes[i as int].span)] + child_lines(nodes, labels, i as int, cs_int, 0)
                    == lines_view(lines@) + child_lines(nodes, labels, i as int, cs_int, k as int),
            decreases cs@.len() - k,
        {
            let c = cs[k];
            proof {
                assert(crate::ast::children_before(nodes[i as int], i as int));
                assert(0 <= cs_int[k as int] < i);
            }
            indent(&rendered[c], k + 1 == cs.len(), &mut lines);
            proof {
                assert(seq![header(labels[i as int], nodes[i as int].span)] + child_lines(
                    nodes,
                    labels,
                    i as int,
                    cs_int,
                    0,
                ) == lines_view(lines@) + child_lines(nodes, labels, i as int, cs_int, k + 1));
            }
            k = k + 1;
        }
        proof {
            assert(child_lines(nodes, labels, i as int, cs_int, k as int) =~= seq![]);
        }
        rendered.push(lines);
        i = i + 1;
    }
    let root = &rendered[n - 1];
    let mut out = String::new();
    let mut j: usize = 0;
    proof {
        reveal_strlit("\n");
    }
    while j < root.len()
        invariant
            j <= root@.len(),
            out@ == join_lines(lines_view(root@).take(j as int)),
        decreases root@.len() - j,
    {
        proof {
            reveal_strlit("\n");
        }
        if j > 0 {
            out.append("\n");
        }
        out.append(root[j].as_str());
        proof {
            let ls = lines_view(root@);
            assert(ls.take(j + 1).drop_last() =~= ls.take(j as int));
            assert(ls.take(j + 1).last() == root@[j as int]@);
            if j == 0 {
                assert(ls.take(1) =~= seq![root@[0]@]);
            }
        }
        j = j + 1;
    }
    proof {
        assert(lines_view(root@).take(root@.len() as int) =~= lines_view(root@));
        assert(labels_from(nodes, names, labels, f0));
        assert(out@ == join_lines(tree_lines(nodes, labels, nodes.len() - 1)));
    }
    out
}

impl Parsed {
    /// The tree as indented text, one line per node: its label, `@`, and its span, with
    /// the lines of its children below it. The value of a float literal is the text that
    /// `float_text` gives for its span.
    pub fn pretty_printer<F: FnMut(Span) -> String>(&self, float_text: F) -> (r: String)
        requires
            self.spec_ast().wf(),
            forall|k: int|
                0 <= k < self.spec_ast()@.len() ==> sym_ok(#[trigger] self.spec_ast()@[k], self.spec_interner()@.len()),
            forall|s: Span| call_requires(float_text, (s,)),
        ensures
            exists|labels: Seq<Seq<char>>|
                labels_from(self.spec_ast()@, self.spec_interner()@, labels, float_text) && r@ == join_lines(
                    tree_lines(self.spec_ast()@, labels, self.spec_ast()@.len() - 1),
                ),
    {
        pretty_print(self, float_text)
    }
}

} // verus!
