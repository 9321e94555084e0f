//! The grammar of expressions, as spec functions over tokens: what the parser builds.
use crate::ast::{children_before, count_errors, BinOp, Expr, ExprKind, Intrinsic, UnOp, Value};
use crate::parser::{spec_binop_bp, sym_ok};
use crate::scan::decimal_value;
use crate::token::{f32_overflow_bound, Token, TokenKind, TokenTag};
use vstd::prelude::*;

verus! {

/// A syntax tree as the grammar gives it: variables by name, call arguments in order.
pub enum Tree {
    Un(UnOp, Box<Tree>),
    Bin(BinOp, Box<Tree>, Box<Tree>),
    Call(Intrinsic, Seq<Tree>),
    Var(Seq<char>),
    Lit(Value),
    Error(Option<Box<Tree>>),
}

/// The tree of node `i` of an arena whose variables are named by `names`.
pub open spec fn tree_at(nodes: Seq<Expr>, names: Seq<Seq<char>>, i: int) -> Tree
    decreases i, 1int,
{
    if !(0 <= i < nodes.len()) {
        Tree::Error(None)
    } else {
        match nodes[i].kind {
            ExprKind::UnOp(op, a) => if (a.0 as int) < i {
                Tree::Un(op, Box::new(tree_at(nodes, names, a.0 as int)))
            } else {
                Tree::Error(None)
            },
            ExprKind::BinOp(op, a, b) => if (a.0 as int) < i && (b.0 as int) < i {
                Tree::Bin(op, Box::new(tree_at(nodes, names, a.0 as int)), Box::new(tree_at(nodes, names, b.0 as int)))
            } else {
                Tree::Error(None)
            },
            ExprKind::Intrinsic(k, args) => if args.start <= args.end <= i {
                Tree::Call(k, args_trees(nodes, names, args.start as int, args.end as int))
            } else {
                Tree::Error(None)
            },
            ExprKind::Var(sym) => Tree::Var(names[sym.0 as int]),
            ExprKind::Lit(v) => Tree::Lit(v),
            ExprKind::Error(None) => Tree::Error(None),
            ExprKind::Error(Some(a)) => if (a.0 as int) < i {
                Tree::Error(Some(Box::new(tree_at(nodes, names, a.0 as int))))
            } else {
                Tree::Error(None)
            },
        }
    }
}

/// The trees of the nodes `start..end` of an arena, in order.
pub open spec fn args_trees(nodes: Seq<Expr>, names: Seq<Seq<char>>, start: int, end: int) -> Seq<Tree>
    decreases end, 0int,
{
    if end <= start || end <= 0 {
        seq![]
    } else {
        args_trees(nodes, names, start, end - 1).push(tree_at(nodes, names, end - 1))
    }
}

/// The tree of a node not yet placed in the arena, whose children are in it.
#[verifier::opaque]
pub open spec fn tree_of(nodes: Seq<Expr>, names: Seq<Seq<char>>, e: Expr) -> Tree {
    tree_at(nodes.push(e), names, nodes.len() as int)
}

/// The position after token `k`: the end of input stays where it is.
pub open spec fn step(t: Seq<Token>, k: int) -> int {
    if 0 <= k < t.len() && t[k].kind == TokenKind::Eof {
        k
    } else {
        k + 1
    }
}

pub open spec fn spec_infix_op(kind: TokenKind) -> Option<BinOp> {
    match kind {
        TokenKind::Plus => Some(BinOp::Add),
        TokenKind::Minus => Some(BinOp::Sub),
        TokenKind::Star => Some(BinOp::Mul),
        TokenKind::Slash => Some(BinOp::Div),
        TokenKind::Caret => Some(BinOp::Pow),
        _ => None,
    }
}

pub open spec fn spec_intrinsic_op(kind: TokenKind) -> Option<Intrinsic> {
    match kind {
        TokenKind::Exp => Some(Intrinsic::Exp),
        TokenKind::Log => Some(Intrinsic::Log),
        TokenKind::Ln => Some(Intrinsic::Ln),
        TokenKind::Sin => Some(Intrinsic::Sin),
        TokenKind::Cos => Some(Intrinsic::Cos),
        TokenKind::Tan => Some(Intrinsic::Tan),
        TokenKind::Cot => Some(Intrinsic::Cot),
        TokenKind::Abs => Some(Intrinsic::Abs),
        TokenKind::Min => Some(Intrinsic::Min),
        TokenKind::Max => Some(Intrinsic::Max),
        _ => None,
    }
}

pub open spec fn spec_prefix_op(kind: TokenKind) -> Option<UnOp> {
    match kind {
        TokenKind::Plus => Some(UnOp::Plus),
        TokenKind::Minus => Some(UnOp::Minus),
        _ => None,
    }
}

/// The precedence level of a binary operator: `+ -` bind loosest, then `* /`, then `^`.
pub open spec fn level(op: BinOp) -> int {
    match op {
        BinOp::Add | BinOp::Sub => 1,
        BinOp::Mul | BinOp::Div => 2,
        BinOp::Pow => 3,
    }
}

/// In `a op1 b op2 c`, `op1` is applied first: `op2` binds no tighter, and the two are
/// not both `^`, which groups to the right.
pub open spec fn groups_left(op1: BinOp, op2: BinOp) -> bool {
    level(op2) <= level(op1) && !(op1 == BinOp::Pow && op2 == BinOp::Pow)
}

/// The tree of the identifier token `tok`.
pub open spec fn var_of(tok: Token) -> Tree {
    Tree::Var(tok.kind.spec_text())
}

/// The tokens `a op1 b op2 c` for identifiers `a`, `b`, `c`, then the end of input.
pub open spec fn three_terms(t: Seq<Token>, op1: BinOp, op2: BinOp) -> bool {
    &&& t.len() == 6
    &&& t[0].kind is Ident
    &&& t[2].kind is Ident
    &&& t[4].kind is Ident
    &&& t[5].kind == TokenKind::Eof
    &&& spec_infix_op(t[1].kind) == Some(op1)
    &&& spec_infix_op(t[3].kind) == Some(op2)
}

/// Law: `a op1 b op2 c` parses as `(a op1 b) op2 c` where `op2` binds no tighter than
/// `op1` and they are not both `^`: `+ -` and `* /` group to the left, each pair at one
/// level, so `a - b + c` is `(a - b) + c`, and `a * b + c` is `(a * b) + c`.
pub proof fn law_left_assoc(t: Seq<Token>, op1: BinOp, op2: BinOp)
    requires
        three_terms(t, op1, op2),
        groups_left(op1, op2),
    ensures
        gram_expr(t, 0, 0) == (
            Tree::Bin(op2, Box::new(Tree::Bin(op1, Box::new(var_of(t[0])), Box::new(var_of(t[2])))), Box::new(var_of(t[4]))),
            5int,
        ),
{
    reveal_with_fuel(gram_expr, 3);
    reveal_with_fuel(gram_infix, 3);
    let a = var_of(t[0]);
    assert(gram_prefix(t, 0) == (a, 1int));
    assert(gram_prefix(t, 2) == (var_of(t[2]), 3int));
    assert(gram_prefix(t, 4) == (var_of(t[4]), 5int));
    assert(spec_infix_op(t[5].kind) is None);
    assert(gram_infix(t, var_of(t[4]), 5, spec_binop_bp(op2).1) == (var_of(t[4]), 5int));
    assert(gram_expr(t, 4, spec_binop_bp(op2).1) == (var_of(t[4]), 5int));
    assert(gram_infix(t, var_of(t[2]), 3, spec_binop_bp(op1).1) == (var_of(t[2]), 3int));
    assert(gram_expr(t, 2, spec_binop_bp(op1).1) == (var_of(t[2]), 3int));
    let ab = Tree::Bin(op1, Box::new(a), Box::new(var_of(t[2])));
    assert(gram_infix(t, ab, 5, 0) == (ab, 5int));
}

/// Law: `a op1 b op2 c` parses as `a op1 (b op2 c)` where `op2` binds tighter than `op1`,
/// or both are `^`: `a + b * c` is `a + (b * c)`, and `a ^ b ^ c` is `a ^ (b ^ c)`.
pub proof fn law_right_grouping(t: Seq<Token>, op1: BinOp, op2: BinOp)
    requires
        three_terms(t, op1, op2),
        !groups_left(op1, op2),
    ensures
        gram_expr(t, 0, 0) == (
            Tree::Bin(op1, Box::new(var_of(t[0])), Box::new(Tree::Bin(op2, Box::new(var_of(t[2])), Box::new(var_of(t[4]))))),
            5int,
        ),
{
    reveal_with_fuel(gram_expr, 3);
    reveal_with_fuel(gram_infix, 3);
    let a = var_of(t[0]);
    assert(gram_prefix(t, 0) == (a, 1int));
    assert(gram_prefix(t, 2) == (var_of(t[2]), 3int));
    assert(gram_prefix(t, 4) == (var_of(t[4]), 5int));
    assert(spec_infix_op(t[5].kind) is None);
    assert(gram_infix(t, var_of(t[4]), 5, spec_binop_bp(op2).1) == (var_of(t[4]), 5int));
    assert(gram_expr(t, 4, spec_binop_bp(op2).1) == (var_of(t[4]), 5int));
    let bc = Tree::Bin(op2, Box::new(var_of(t[2])), Box::new(var_of(t[4])));
    assert(gram_infix(t, bc, 5, spec_binop_bp(op1).1) == (bc, 5int));
    assert(gram_expr(t, 2, spec_binop_bp(op1).1) == (bc, 5int));
    let abc = Tree::Bin(op1, Box::new(a), Box::new(bc));
    assert(gram_infix(t, abc, 5, 0) == (abc, 5int));
}

/// The grammar, as the tree of the expression of binding power at least `min_bp` that
/// starts at token `pos`, and the position after it: a prefix term followed by infix
/// operators that bind at least as tightly.
pub open spec fn gram_expr(t: Seq<Token>, pos: int, min_bp: u8) -> (Tree, int)
    decreases t.len() - pos, 3int,
{
    let (lhs, p) = gram_prefix(t, pos);
    if p <= pos || p > t.len() {
        (lhs, p)
    } else {
        gram_infix(t, lhs, p, min_bp)
    }
}

/// The infix operators at `p` that bind at least `min_bp`, folded onto `lhs`: an operator
/// of left power `l` and right power `r` takes as right operand the expression of power
/// `r`, so `+ - * /` group to the left and `^` to the right.
pub open spec fn gram_infix(t: Seq<Token>, lhs: Tree, p: int, min_bp: u8) -> (Tree, int)
    decreases t.len() - p, 2int,
{
    if !(0 <= p < t.len()) {
        (lhs, p)
    } else {
        match spec_infix_op(t[p].kind) {
            None => (lhs, p),
            Some(op) => if spec_binop_bp(op).0 < min_bp {
                (lhs, p)
            } else {
                let (rhs, q) = gram_expr(t, p + 1, spec_binop_bp(op).1);
                let bin = Tree::Bin(op, Box::new(lhs), Box::new(rhs));
                if q <= p || q > t.len() {
                    (bin, q)
                } else {
                    gram_infix(t, bin, q, min_bp)
                }
            },
        }
    }
}

/// `e` followed by a token of tag `tag`, which is taken; where it is missing, an error
/// node wraps `e`.
pub open spec fn gram_expect(t: Seq<Token>, tag: TokenTag, e: Tree, p: int) -> (Tree, int) {
    if 0 <= p < t.len() && t[p].kind.spec_tag() == tag {
        (e, step(t, p))
    } else {
        (Tree::Error(Some(Box::new(e))), p)
    }
}

/// The prefix term at token `k`: a literal, a variable, a parenthesised expression, a
/// call, or a prefix operator applied to the expression of power 5; else an error node.
pub open spec fn gram_prefix(t: Seq<Token>, k: int) -> (Tree, int)
    decreases t.len() - k, 1int,
{
    if !(0 <= k < t.len()) {
        (Tree::Error(None), k)
    } else {
        let next = step(t, k);
        match t[k].kind {
            TokenKind::Int(lit) => if decimal_value(lit.0@) <= i32::MAX {
                (Tree::Lit(Value::I32(decimal_value(lit.0@) as i32)), next)
            } else {
                (Tree::Error(None), next)
            },
            TokenKind::Float(lit) => if decimal_value(lit.int_part()) < f32_overflow_bound() {
                (Tree::Lit(Value::F32(t[k].span)), next)
            } else {
                (Tree::Error(None), next)
            },
            TokenKind::Pi => (Tree::Lit(Value::Pi), next),
            TokenKind::Ident(name) => (Tree::Var(name@), next),
            TokenKind::LParen => {
                let (inner, p) = gram_expr(t, k + 1, 0);
                gram_expect(t, TokenTag::RParen, inner, p)
            },
            kind => match spec_intrinsic_op(kind) {
                Some(intrinsic) => gram_call(t, k + 1, intrinsic),
                None => match spec_prefix_op(kind) {
                    Some(op) => {
                        let (operand, p) = gram_expr(t, k + 1, 5);
                        (Tree::Un(op, Box::new(operand)), p)
                    },
                    None => (Tree::Error(None), next),
                },
            },
        }
    }
}

/// The arguments of a call of `intrinsic` whose name ends before token `p`: `(`, then
/// expressions separated by `,`, then `)`.
pub open spec fn gram_call(t: Seq<Token>, p: int, intrinsic: Intrinsic) -> (Tree, int)
    decreases t.len() - p, 4int,
{
    if !(0 <= p < t.len() && t[p].kind.spec_tag() == TokenTag::LParen) {
        (Tree::Error(None), p)
    } else {
        let (first, q) = gram_expr(t, p + 1, 0);
        if q <= p || q > t.len() {
            gram_expect(t, TokenTag::RParen, Tree::Call(intrinsic, seq![first]), q)
        } else {
            gram_args(t, intrinsic, seq![first], q)
        }
    }
}

/// The further arguments, each after a `,`, of a call whose arguments so far are `args`.
pub open spec fn gram_args(t: Seq<Token>, intrinsic: Intrinsic, args: Seq<Tree>, p: int) -> (Tree, int)
    decreases t.len() - p, 0int,
{
    if !(0 <= p < t.len() && t[p].kind.spec_tag() == TokenTag::Comma) {
        gram_expect(t, TokenTag::RParen, Tree::Call(intrinsic, args), p)
    } else {
        let (arg, q) = gram_expr(t, p + 1, 0);
        if q <= p || q > t.len() {
            gram_expect(t, TokenTag::RParen, Tree::Call(intrinsic, args.push(arg)), q)
        } else {
            gram_args(t, intrinsic, args.push(arg), q)
        }
    }
}

/// The tree of the whole token sequence `t`: an expression followed by the end of input.
pub open spec fn grammar_tree(t: Seq<Token>) -> Tree {
    let (e, p) = gram_expr(t, 0, 0);
    gram_expect(t, TokenTag::Eof, e, p).0
}

/// The tree of an arena's root, its last node.
pub open spec fn root_tree(nodes: Seq<Expr>, names: Seq<Seq<char>>) -> Tree {
    tree_at(nodes, names, nodes.len() - 1)
}

/// The tree holds an error node.
pub open spec fn has_error(t: Tree) -> bool
    decreases t,
{
    match t {
        Tree::Un(_, a) => has_error(*a),
        Tree::Bin(_, a, b) => has_error(*a) || has_error(*b),
        Tree::Call(_, args) => args_have_error(args, args.len() as int),
        Tree::Error(_) => true,
        _ => false,
    }
}

/// One of the first `n` trees of `args` holds an error node.
pub open spec fn args_have_error(args: Seq<Tree>, n: int) -> bool
    decreases args, n,
{
    if n <= 0 || n > args.len() {
        false
    } else {
        args_have_error(args, n - 1) || has_error(args[n - 1])
    }
}

/// A node of a well-made arena whose tree holds an error node has an error node at or
/// before it.
pub proof fn lemma_error_in_arena(nodes: Seq<Expr>, names: Seq<Seq<char>>, i: int)
    requires
        arena_ok(nodes, names),
        0 <= i < nodes.len(),
        has_error(tree_at(nodes, names, i)),
    ensures
        exists|k: int| 0 <= k <= i && (#[trigger] nodes[k]).kind is Error,
    decreases i, 1int,
{
    assert(children_before(nodes[i], i));
    match nodes[i].kind {
        ExprKind::UnOp(_, a) => {
            lemma_error_in_arena(nodes, names, a.0 as int);
        },
        ExprKind::BinOp(_, a, b) => {
            if has_error(tree_at(nodes, names, a.0 as int)) {
                lemma_error_in_arena(nodes, names, a.0 as int);
            } else {
                lemma_error_in_arena(nodes, names, b.0 as int);
            }
        },
        ExprKind::Intrinsic(_, args) => {
            let ts = args_trees(nodes, names, args.start as int, args.end as int);
            lemma_args_error(nodes, names, args.start as int, args.end as int, ts.len() as int);
        },
        ExprKind::Error(_) => {
            assert(nodes[i].kind is Error);
        },
        _ => {},
    }
}

/// An arena with an error node counts at least one.
pub proof fn lemma_count_errors_pos(nodes: Seq<Expr>, k: int)
    requires
        0 <= k < nodes.len(),
        nodes[k].kind is Error,
    ensures
        count_errors(nodes) > 0,
    decreases nodes.len(),
{
    if k < nodes.len() - 1 {
        lemma_count_errors_pos(nodes.drop_last(), k);
    }
}

proof fn lemma_args_error(nodes: Seq<Expr>, names: Seq<Seq<char>>, start: int, end: int, n: int)
    requires
        arena_ok(nodes, names),
        0 <= start <= end <= nodes.len(),
        0 <= n <= args_trees(nodes, names, start, end).len(),
        args_have_error(args_trees(nodes, names, start, end), n),
    ensures
        exists|k: int| 0 <= k < end && (#[trigger] nodes[k]).kind is Error,
    decreases end, 0int, n,
{
    let ts = args_trees(nodes, names, start, end);
    lemma_args_trees_len(nodes, names, start, end);
    if args_have_error(ts, n - 1) {
        lemma_args_error(nodes, names, start, end, n - 1);
    } else {
        assert(has_error(ts[n - 1]));
        lemma_args_trees_index(nodes, names, start, end, n - 1);
        lemma_error_in_arena(nodes, names, start + n - 1);
    }
}

proof fn lemma_args_trees_len(nodes: Seq<Expr>, names: Seq<Seq<char>>, start: int, end: int)
    requires
        0 <= start <= end,
    ensures
        args_trees(nodes, names, start, end).len() == end - start,
    decreases end,
{
    if end > start && end > 0 {
        lemma_args_trees_len(nodes, names, start, end - 1);
    }
}

proof fn lemma_args_trees_index(nodes: Seq<Expr>, names: Seq<Seq<char>>, start: int, end: int, j: int)
    requires
        0 <= start <= end,
        0 <= j < end - start,
    ensures
        args_trees(nodes, names, start, end)[j] == tree_at(nodes, names, start + j),
    decreases end,
{
    lemma_args_trees_len(nodes, names, start, end - 1);
    if j < end - 1 - start {
        lemma_args_trees_index(nodes, names, start, end - 1, j);
    }
}

/// `nodes` with `names` is a well-made arena: children first, variables named.
pub open spec fn arena_ok(nodes: Seq<Expr>, names: Seq<Seq<char>>) -> bool {
    forall|k: int| 0 <= k < nodes.len() ==> children_before(#[trigger] nodes[k], k) && sym_ok(nodes[k], names.len())
}

/// `big` starts with `small`.
pub open spec fn grows_from<A>(small: Seq<A>, big: Seq<A>) -> bool {
    small.len() <= big.len() && forall|k: int| 0 <= k < small.len() ==> #[trigger] big[k] == small[k]
}

/// Growing the arena and the names keeps the tree of every node already placed.
pub proof fn lemma_tree_at_grow(
    nodes: Seq<Expr>,
    names: Seq<Seq<char>>,
    nodes2: Seq<Expr>,
    names2: Seq<Seq<char>>,
    i: int,
)
    requires
        arena_ok(nodes, names),
        grows_from(nodes, nodes2),
        grows_from(names, names2),
        0 <= i < nodes.len(),
    ensures
        tree_at(nodes2, names2, i) == tree_at(nodes, names, i),
    decreases i, 1int,
{
    assert(nodes2[i] == nodes[i]);
    assert(children_before(nodes[i], i) && sym_ok(nodes[i], names.len()));
    match nodes[i].kind {
        ExprKind::UnOp(_, a) => {
            lemma_tree_at_grow(nodes, names, nodes2, names2, a.0 as int);
        },
        ExprKind::BinOp(_, a, b) => {
            lemma_tree_at_grow(nodes, names, nodes2, names2, a.0 as int);
            lemma_tree_at_grow(nodes, names, nodes2, names2, b.0 as int);
        },
        ExprKind::Intrinsic(_, args) => {
            lemma_args_grow(nodes, names, nodes2, names2, args.start as int, args.end as int);
        },
        ExprKind::Error(Some(a)) => {
            lemma_tree_at_grow(nodes, names, nodes2, names2, a.0 as int);
        },
        ExprKind::Var(sym) => {
            assert(names2[sym.0 as int] == names[sym.0 as int]);
        },
        _ => {},
    }
}

pub proof fn lemma_args_grow(
    nodes: Seq<Expr>,
    names: Seq<Seq<char>>,
    nodes2: Seq<Expr>,
    names2: Seq<Seq<char>>,
    start: int,
    end: int,
)
    requires
        arena_ok(nodes, names),
        grows_from(nodes, nodes2),
        grows_from(names, names2),
        0 <= start,
        end <= nodes.len(),
    ensures
        args_trees(nodes2, names2, start, end) == args_trees(nodes, names, start, end),
    decreases end, 0int,
{
    if !(end <= start || end <= 0) {
        lemma_args_grow(nodes, names, nodes2, names2, start, end - 1);
        lemma_tree_at_grow(nodes, names, nodes2, names2, end - 1);
    }
}

/// Growing the arena and the names keeps the tree of a node whose children are placed.
pub proof fn lemma_tree_of_grow(
    nodes: Seq<Expr>,
    names: Seq<Seq<char>>,
    nodes2: Seq<Expr>,
    names2: Seq<Seq<char>>,
    e: Expr,
)
    requires
        arena_ok(nodes, names),
        grows_from(nodes, nodes2),
        grows_from(names, names2),
        children_before(e, nodes.len() as int),
        sym_ok(e, names.len()),
    ensures
        tree_of(nodes2, names2, e) == tree_of(nodes, names, e),
{
    reveal(tree_of);
    let a = nodes.push(e);
    let b = nodes2.push(e);
    assert(a[nodes.len() as int] == e);
    assert(b[nodes2.len() as int] == e);
    assert(grows_from(nodes, a));
    assert(grows_from(nodes, b));
    assert(arena_ok(nodes, names));
    match e.kind {
        ExprKind::UnOp(_, x) => {
            lemma_tree_at_grow(nodes, names, a, names, x.0 as int);
            lemma_tree_at_grow(nodes, names, b, names2, x.0 as int);
        },
        ExprKind::BinOp(_, x, y) => {
            lemma_tree_at_grow(nodes, names, a, names, x.0 as int);
            lemma_tree_at_grow(nodes, names, b, names2, x.0 as int);
            lemma_tree_at_grow(nodes, names, a, names, y.0 as int);
            lemma_tree_at_grow(nodes, names, b, names2, y.0 as int);
        },
        ExprKind::Intrinsic(_, args) => {
            lemma_args_grow(nodes, names, a, names, args.start as int, args.end as int);
            lemma_args_grow(nodes, names, b, names2, args.start as int, args.end as int);
        },
        ExprKind::Error(Some(x)) => {
            lemma_tree_at_grow(nodes, names, a, names, x.0 as int);
            lemma_tree_at_grow(nodes, names, b, names2, x.0 as int);
        },
        ExprKind::Var(sym) => {
            assert(names2[sym.0 as int] == names[sym.0 as int]);
        },
        _ => {},
    }
}

/// Placing `e` after `nodes` and growing further keeps its tree.
pub proof fn lemma_tree_placed(nodes: Seq<Expr>, names: Seq<Seq<char>>, e: Expr, nodes2: Seq<Expr>, names2: Seq<Seq<char>>)
    requires
        arena_ok(nodes, names),
        children_before(e, nodes.len() as int),
        sym_ok(e, names.len()),
        grows_from(nodes.push(e), nodes2),
        grows_from(names, names2),
    ensures
        tree_at(nodes2, names2, nodes.len() as int) == tree_of(nodes, names, e),
{
    reveal(tree_of);
    let a = nodes.push(e);
    assert(arena_ok(a, names)) by {
        assert forall|k: int| 0 <= k < a.len() implies children_before(#[trigger] a[k], k) && sym_ok(a[k], names.len()) by {
            if k < nodes.len() {
                assert(a[k] == nodes[k]);
            }
        }
    }
    lemma_tree_at_grow(a, names, nodes2, names2, nodes.len() as int);
}

/// A node of kind `kind` whose children `cs` are made is well made after them.
pub proof fn lemma_arena_push(nodes: Seq<Expr>, names: Seq<Seq<char>>, e: Expr)
    requires
        arena_ok(nodes, names),
        children_before(e, nodes.len() as int),
        sym_ok(e, names.len()),
    ensures
        arena_ok(nodes.push(e), names),
{
    let a = nodes.push(e);
    assert forall|k: int| 0 <= k < a.len() implies children_before(#[trigger] a[k], k) && sym_ok(a[k], names.len()) by {
        if k < nodes.len() {
            assert(a[k] == nodes[k]);
        }
    }
}

/// The tree of a unary node made over `operand`, placed right after `nodes`.
pub proof fn lemma_un_tree(nodes: Seq<Expr>, names: Seq<Seq<char>>, operand: Expr, op: UnOp, e: Expr)
    requires
        arena_ok(nodes, names),
        children_before(operand, nodes.len() as int),
        sym_ok(operand, names.len()),
        e.kind == ExprKind::UnOp(op, crate::ast::ExprId(nodes.len() as u32)),
        nodes.len() < u32::MAX,
    ensures
        tree_of(nodes.push(operand), names, e) == Tree::Un(op, Box::new(tree_of(nodes, names, operand))),
{
    reveal(tree_of);
    let a = nodes.push(operand);
    assert(grows_from(a, a.push(e)));
    lemma_tree_placed(nodes, names, operand, a.push(e), names);
}

/// The tree of an error node wrapping `inner`, placed right after `nodes`.
pub proof fn lemma_error_tree(nodes: Seq<Expr>, names: Seq<Seq<char>>, inner: Expr, e: Expr)
    requires
        arena_ok(nodes, names),
        children_before(inner, nodes.len() as int),
        sym_ok(inner, names.len()),
        e.kind == ExprKind::Error(Some(crate::ast::ExprId(nodes.len() as u32))),
        nodes.len() < u32::MAX,
    ensures
        tree_of(nodes.push(inner), names, e) == Tree::Error(Some(Box::new(tree_of(nodes, names, inner)))),
{
    reveal(tree_of);
    let a = nodes.push(inner);
    assert(grows_from(a, a.push(e)));
    lemma_tree_placed(nodes, names, inner, a.push(e), names);
}

/// The tree of a binary node made over `lhs` and `rhs`, placed in turn after `nodes`.
pub proof fn lemma_bin_tree(nodes: Seq<Expr>, names: Seq<Seq<char>>, lhs: Expr, rhs: Expr, op: BinOp, e: Expr)
    requires
        arena_ok(nodes, names),
        children_before(lhs, nodes.len() as int),
        sym_ok(lhs, names.len()),
        children_before(rhs, nodes.len() as int),
        sym_ok(rhs, names.len()),
        e.kind == ExprKind::BinOp(op, crate::ast::ExprId(nodes.len() as u32), crate::ast::ExprId((nodes.len() + 1) as u32)),
        nodes.len() + 1 < u32::MAX,
    ensures
        tree_of(nodes.push(lhs).push(rhs), names, e) == Tree::Bin(
            op,
            Box::new(tree_of(nodes, names, lhs)),
            Box::new(tree_of(nodes, names, rhs)),
        ),
{
    reveal(tree_of);
    let a = nodes.push(lhs);
    let b = a.push(rhs);
    assert(grows_from(a, b.push(e)));
    lemma_tree_placed(nodes, names, lhs, b.push(e), names);
    lemma_arena_push(nodes, names, lhs);
    assert(grows_from(nodes, a));
    assert(grows_from(names, names));
    lemma_tree_of_grow(nodes, names, a, names, rhs);
    assert(grows_from(b, b.push(e)));
    lemma_tree_placed(a, names, rhs, b.push(e), names);
}

/// The trees of `args`, each placed after `nodes` in turn.
pub open spec fn trees_of(nodes: Seq<Expr>, names: Seq<Seq<char>>, args: Seq<Expr>) -> Seq<Tree> {
    args.map_values(|a: Expr| tree_of(nodes, names, a))
}

/// Growing the arena and the names keeps the trees of nodes whose children are placed.
pub proof fn lemma_trees_of_grow(
    nodes: Seq<Expr>,
    names: Seq<Seq<char>>,
    nodes2: Seq<Expr>,
    names2: Seq<Seq<char>>,
    args: Seq<Expr>,
)
    requires
        arena_ok(nodes, names),
        grows_from(nodes, nodes2),
        grows_from(names, names2),
        forall|m: int| 0 <= m < args.len() ==> children_before(#[trigger] args[m], nodes.len() as int),
        forall|m: int| 0 <= m < args.len() ==> sym_ok(#[trigger] args[m], names.len()),
    ensures
        trees_of(nodes2, names2, args) == trees_of(nodes, names, args),
{
    assert forall|m: int| 0 <= m < args.len() implies #[trigger] trees_of(nodes2, names2, args)[m] == trees_of(
        nodes,
        names,
        args,
    )[m] by {
        lemma_tree_of_grow(nodes, names, nodes2, names2, args[m]);
    }
    assert(trees_of(nodes2, names2, args) =~= trees_of(nodes, names, args));
}

/// The tree of a call node over `args`, placed after `nodes` one after the other.
pub proof fn lemma_call_tree(nodes: Seq<Expr>, names: Seq<Seq<char>>, args: Seq<Expr>, k: Intrinsic, e: Expr)
    requires
        arena_ok(nodes, names),
        forall|m: int| 0 <= m < args.len() ==> children_before(#[trigger] args[m], nodes.len() as int),
        forall|m: int| 0 <= m < args.len() ==> sym_ok(#[trigger] args[m], names.len()),
        e.kind == ExprKind::Intrinsic(
            k,
            crate::ast::ExprSetId { start: nodes.len() as u32, end: (nodes.len() + args.len()) as u32 },
        ),
        nodes.len() + args.len() < u32::MAX,
    ensures
        tree_of(nodes + args, names, e) == Tree::Call(k, trees_of(nodes, names, args)),
{
    reveal(tree_of);
    let all = (nodes + args).push(e);
    lemma_args_placed(nodes, names, args, all, args.len() as int);
    assert(args_trees(all, names, nodes.len() as int, (nodes.len() + args.len()) as int) =~= trees_of(nodes, names, args));
}

proof fn lemma_args_placed(nodes: Seq<Expr>, names: Seq<Seq<char>>, args: Seq<Expr>, all: Seq<Expr>, n: int)
    requires
        arena_ok(nodes, names),
        forall|m: int| 0 <= m < args.len() ==> children_before(#[trigger] args[m], nodes.len() as int),
        forall|m: int| 0 <= m < args.len() ==> sym_ok(#[trigger] args[m], names.len()),
        grows_from(nodes + args, all),
        0 <= n <= args.len(),
    ensures
        args_trees(all, names, nodes.len() as int, nodes.len() + n) == trees_of(nodes, names, args).take(n),
    decreases n,
{
    reveal(tree_of);
    if n > 0 {
        lemma_args_placed(nodes, names, args, all, n - 1);
        let pre = nodes + args.take(n - 1);
        let e = args[n - 1];
        assert(arena_ok(pre, names)) by {
            assert forall|k: int| 0 <= k < pre.len() implies children_before(#[trigger] pre[k], k) && sym_ok(
                pre[k],
                names.len(),
            ) by {
                if k < nodes.len() {
                    assert(pre[k] == nodes[k]);
                } else {
                    assert(pre[k] == args[k - nodes.len()]);
                }
            }
        }
        assert(grows_from(pre.push(e), all)) by {
            assert forall|k: int| 0 <= k < pre.push(e).len() implies #[trigger] all[k] == pre.push(e)[k] by {
                assert((nodes + args)[k] == pre.push(e)[k]);
            }
        }
        assert(grows_from(names, names));
        lemma_tree_placed(pre, names, e, all, names);
        assert(grows_from(nodes, pre));
        lemma_tree_of_grow(nodes, names, pre, names, e);
        assert(trees_of(nodes, names, args).take(n) =~= trees_of(nodes, names, args).take(n - 1).push(
            tree_of(nodes, names, e),
        ));
    } else {
        assert(trees_of(nodes, names, args).take(0) =~= Seq::<Tree>::empty());
    }
}

/// The tree of a node without children: a literal, a variable, or an error node that
/// wraps nothing.
pub proof fn lemma_leaf_tree(nodes: Seq<Expr>, names: Seq<Seq<char>>, e: Expr)
    ensures
        e.kind matches ExprKind::Lit(v) ==> tree_of(nodes, names, e) == Tree::Lit(v),
        e.kind matches ExprKind::Var(sym) ==> tree_of(nodes, names, e) == Tree::Var(names[sym.0 as int]),
        e.kind == ExprKind::Error(None) ==> tree_of(nodes, names, e) == Tree::Error(None),
{
    reveal(tree_of);
    assert(nodes.push(e)[nodes.len() as int] == e);
}

} // verus!
