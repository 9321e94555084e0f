//! A Pratt parser from tokens to a syntax tree. Malformed input yields error nodes,
//! each reported by exactly one diagnostic.
use vstd::prelude::*;
use vstd::string::StringExecFns;
use crate::ast::{
    fresh, lemma_fresh_un_op,
    count_errors, children_before, is_error, lemma_count_errors_concat, lemma_count_errors_push, AstBuilder, Ast, BinOp,
    Expr, ExprKind, Intrinsic, NewId, UnOp, Value,
};
use crate::diag::{Diagnostic, Span};
use crate::grammar::{
    arena_ok, gram_args, gram_call, lemma_bin_tree, lemma_trees_of_grow, lemma_call_tree, lemma_error_tree, lemma_leaf_tree, lemma_un_tree, trees_of, gram_expect, gram_expr, gram_infix, gram_prefix, grammar_tree, grows_from, lemma_tree_of_grow,
    has_error, lemma_count_errors_pos, lemma_error_in_arena, lemma_tree_placed, root_tree, step, tree_at, tree_of, Tree,
};
use crate::interner::Interner;
use crate::lexed::{lemma_lex_sorted, lemma_lexed_ordered, lexed, tokens_ordered};
use crate::text::{byte_len, byte_pos, lemma_byte_pos_mono, substr};
use crate::token::{
    lemma_lex_literals, lex, token_matches, tokenize, Token, TokenKind, TokenTag,
};

verus! {

broadcast use vstd::seq_lib::group_seq_properties;

/// The binary operator that `kind` spells, if any.
pub fn infix_op(kind: TokenKind) -> (r: Option<BinOp>)
    ensures
        r == match kind {
            TokenKind::Plus => Some(BinOp::Add),
            TokenKind::Minus => Some(BinOp::Sub),
            TokenKind::Star => Some(BinOp::Mul),
            TokenKind::Slash => Some(BinOp::Div),
            TokenKind::Caret => Some(BinOp::Pow),
            _ => None::<BinOp>,
        },
{
    match kind {
        TokenKind::Plus => Some(BinOp::Add),
        TokenKind::Minus => Some(BinOp::Sub),
        TokenKind::Star => Some(BinOp::Mul),
        TokenKind::Slash => Some(BinOp::Div),
        TokenKind::Caret => Some(BinOp::Pow),
        _ => None,
    }
}

/// The intrinsic that `kind` names, if any.
pub fn intrinsic_op(kind: TokenKind) -> (r: Option<Intrinsic>)
    ensures
        r == match kind {
            TokenKind::Exp => Some(Intrinsic::Exp),
            TokenKind::Log => Some(Intrinsic::Log),
            TokenKind::Ln => Some(Intrinsic::Ln),
            TokenKind::Sin => Some(Intrinsic::Sin),
            TokenKind::Cos => Some(Intrinsic::Cos),
            TokenKind::Tan => Some(Intrinsic::Tan),
            TokenKind::Cot => Some(Intrinsic::Cot),
            TokenKind::Abs => Some(Intrinsic::Abs),
            TokenKind::Min => Some(Intrinsic::Min),
            TokenKind::Max => Some(Intrinsic::Max),
            _ => None::<Intrinsic>,
        },
{
    match kind {
        TokenKind::Exp => Some(Intrinsic::Exp),
        TokenKind::Log => Some(Intrinsic::Log),
        TokenKind::Ln => Some(Intrinsic::Ln),
        TokenKind::Sin => Some(Intrinsic::Sin),
        TokenKind::Cos => Some(Intrinsic::Cos),
        TokenKind::Tan => Some(Intrinsic::Tan),
        TokenKind::Cot => Some(Intrinsic::Cot),
        TokenKind::Abs => Some(Intrinsic::Abs),
        TokenKind::Min => Some(Intrinsic::Min),
        TokenKind::Max => Some(Intrinsic::Max),
        _ => None,
    }
}

/// The prefix operator that `kind` spells, if any.
pub fn prefix_op(kind: TokenKind) -> (r: Option<UnOp>)
    ensures
        r == match kind {
            TokenKind::Plus => Some(UnOp::Plus),
            TokenKind::Minus => Some(UnOp::Minus),
            _ => None::<UnOp>,
        },
{
    match kind {
        TokenKind::Plus => Some(UnOp::Plus),
        TokenKind::Minus => Some(UnOp::Minus),
        _ => None,
    }
}

pub open spec fn spec_binop_bp(op: BinOp) -> (u8, u8) {
    match op {
        BinOp::Add | BinOp::Sub => (1, 2),
        BinOp::Mul | BinOp::Div => (3, 4),
        BinOp::Pow => (6, 5),
    }
}

/// Left and right binding powers: `+ -` bind loosest, then `* /`, then the prefix
/// operators, then `^`, which groups to the right.
pub fn binop_bp(op: BinOp) -> (r: (u8, u8))
    ensures
        r == spec_binop_bp(op),
{
    match op {
        BinOp::Add => (1, 2),
        BinOp::Sub => (1, 2),
        BinOp::Mul => (3, 4),
        BinOp::Div => (3, 4),
        BinOp::Pow => (6, 5),
    }
}

/// Binding power of the operand of a prefix operator.
pub fn unop_bp(op: UnOp) -> (r: u8)
    ensures
        r == 5,
{
    match op {
        UnOp::Plus => 5,
        UnOp::Minus => 5,
    }
}

/// The largest source text, in bytes, that the parser takes: every node id must fit in a `u32`.
pub open spec fn max_source_len() -> int {
    0x7fff_0000
}

/// A variable node names a symbol of an interner of `n` names.
pub open spec fn sym_ok(e: Expr, n: nat) -> bool {
    e.kind is Var ==> (e.kind->Var_0.0 as int) < n
}

/// The tree and the names that parsing produced.
pub struct Parsed {
    interner: Interner,
    ast: Ast,
}

impl Parsed {
    pub closed spec fn spec_ast(&self) -> &Ast {
        &self.ast
    }

    pub closed spec fn spec_interner(&self) -> &Interner {
        &self.interner
    }

    pub fn ast(&self) -> (r: &Ast)
        ensures
            r == self.spec_ast(),
    {
        &self.ast
    }

    pub fn interner(&self) -> (r: &Interner)
        ensures
            r == self.spec_interner(),
    {
        &self.interner
    }
}

struct Parser<'src, 'a> {
    src: &'src str,
    tokens: &'a Vec<Token<'src>>,
    pos: usize,
    builder: AstBuilder,
    interner: Interner,
    diags: Vec<Diagnostic>,
}

/// What parsing `source` gives: a well-formed tree whose root is the grammar's tree of the
/// tokens of `source`, the names its variables use, and one diagnostic per error node.
pub open spec fn parses_to(source: Seq<char>, parsed: Parsed, diags: Seq<Diagnostic>) -> bool {
    &&& parsed.spec_ast().wf()
    &&& parsed.spec_interner().wf()
    &&& diags.len() == count_errors(parsed.spec_ast()@)
    &&& forall|k: int|
        0 <= k < parsed.spec_ast()@.len() ==> sym_ok(#[trigger] parsed.spec_ast()@[k], parsed.spec_interner()@.len())
    &&& fresh(parsed.spec_ast()@.drop_last(), parsed.spec_ast()@.last())
    &&& parsed.spec_ast()@.len() <= 2 * source.len() + 4
    &&& exists|t: Seq<Token>| #[trigger] lexed(source, t) && root_tree(parsed.spec_ast()@, parsed.spec_interner()@) == grammar_tree(t)
    &&& has_error(root_tree(parsed.spec_ast()@, parsed.spec_interner()@)) ==> diags.len() > 0
}

/// Parses `source` by the grammar (`grammar_tree`). Every error node of the tree is
/// reported by one diagnostic, so the diagnostics are empty exactly when the tree holds no
/// error node.
#[verifier::rlimit(50)]
pub fn parse(source: &str) -> (r: (Parsed, Vec<Diagnostic>))
    requires
        byte_len(source@) < max_source_len(),
    ensures
        parses_to(source@, r.0, r.1@),
{
    let tokens = tokenize(source);
    proof {
        lemma_lexed_ordered(source@, tokens@);
    }
    let mut parser = Parser {
        src: source,
        tokens: &tokens,
        pos: 0,
        builder: AstBuilder::new(),
        interner: Interner::new(),
        diags: Vec::new(),
    };
    proof {
        assert(count_errors(Seq::<Expr>::empty()) == 0);
    }
    let ghost t = tokens@;
    let root = parser.parse_expr(0);
    let root = parser.expect(TokenTag::Eof, root);
    proof {
        assert(tree_of(parser.builder.spec_nodes(), parser.interner@, root.spec_node()) == grammar_tree(t));
    }
    proof {
        lemma_lex_sorted(source@);
        assert(parser.builder.created() <= 2 * tokens@.len() + 2);
    }
    let Parser { builder, interner, diags, .. } = parser;
    let ghost nodes = builder.spec_nodes();
    let ast = builder.finish(root);
    proof {
        lemma_count_errors_push(nodes, root.spec_node());
        assert(ast@.drop_last() =~= nodes);
        reveal(tree_of);
        assert(root_tree(ast@, interner@) == grammar_tree(t));
        assert(lexed(source@, t));
        if has_error(root_tree(ast@, interner@)) {
            assert(arena_ok(ast@, interner@)) by {
                assert forall|k: int| 0 <= k < ast@.len() implies children_before(#[trigger] ast@[k], k) && sym_ok(
                    ast@[k],
                    interner@.len(),
                ) by {
                    assert(crate::ast::arena_wf(ast@));
                }
            }
            lemma_error_in_arena(ast@, interner@, ast@.len() - 1);
            let k = choose|k: int| 0 <= k <= ast@.len() - 1 && (#[trigger] ast@[k]).kind is Error;
            lemma_count_errors_pos(ast@, k);
        }
    }
    (Parsed { interner, ast }, diags)
}

impl<'src, 'a> Parser<'src, 'a> {
    spec fn tok(&self, k: int) -> Token<'src> {
        self.tokens@[k]
    }

    spec fn inv(&self) -> bool {
        &&& lexed(self.src@, self.tokens@)
        &&& tokens_ordered(self.src@, self.tokens@)
        &&& forall|k: int| 0 <= k < self.tokens@.len() - 1 ==> {
            let tok = #[trigger] self.tokens@[k];
            &&& tok.kind is Int ==> crate::token::int_text(tok.kind.spec_text())
            &&& tok.kind is Float ==> crate::token::float_text(tok.kind.spec_text())
        }
        &&& byte_len(self.src@) < max_source_len()
        &&& self.pos < self.tokens@.len()
        &&& self.builder.wf()
        &&& self.interner.wf()
        &&& self.interner@.len() <= self.pos
        &&& self.builder.created() <= 2 * self.tokens@.len() + 2
        &&& forall|k: int| 0 <= k < self.builder.spec_nodes().len() ==> sym_ok(#[trigger] self.builder.spec_nodes()[k], self.interner@.len())
    }

    /// `next` continues `self`: same input, later position, a longer arena.
    spec fn continues(&self, next: &Self) -> bool {
        &&& next.src == self.src
        &&& next.tokens == self.tokens
        &&& self.pos <= next.pos
        &&& self.builder.spec_nodes().len() <= next.builder.spec_nodes().len()
        &&& next.builder.spec_nodes().subrange(0, self.builder.spec_nodes().len() as int)
            == self.builder.spec_nodes()
        &&& self.diags@.len() <= next.diags@.len()
        &&& self.interner@.len() <= next.interner@.len()
    }

    proof fn lemma_arena(&self)
        requires
            self.inv(),
        ensures
            arena_ok(self.builder.spec_nodes(), self.interner@),
    {
        assert forall|k: int| 0 <= k < self.builder.spec_nodes().len() implies children_before(
            #[trigger] self.builder.spec_nodes()[k],
            k,
        ) && sym_ok(self.builder.spec_nodes()[k], self.interner@.len()) by {
            assert(crate::ast::arena_wf(self.builder.spec_nodes()));
        }
    }

    /// `next` has made the node `r` whose tree, and the position after it, are `g`; the
    /// arena and the names only grew.
    spec fn made(&self, next: &Self, r: NewId, g: (Tree, int)) -> bool {
        &&& grows_from(self.builder.spec_nodes(), next.builder.spec_nodes())
        &&& grows_from(self.interner@, next.interner@)
        &&& tree_of(next.builder.spec_nodes(), next.interner@, r.spec_node()) == g.0
        &&& next.pos == g.1
    }

    /// What a call that yields the node `r` owes: one more node left to place, the
    /// node's span within the tokens read, and one diagnostic per error node made.
    spec fn yields(&self, next: &Self, r: NewId) -> bool {
        &&& self.continues(next)
        &&& next.inv()
        &&& next.builder.spec_isolated() == self.builder.spec_isolated() + 1
        &&& next.builder.created() <= self.builder.created() + 2 * (next.pos - self.pos) + 1
        &&& r.spec_node().span.wf()
        &&& r.spec_node().span.start.0 >= self.tok(self.pos as int).span.start.0
        &&& r.spec_node().span.end.0 <= next.tok(next.pos as int).span.end.0
        &&& children_before(r.spec_node(), next.builder.spec_nodes().len() as int)
        &&& sym_ok(r.spec_node(), next.interner@.len())
        &&& count_errors(next.builder.spec_nodes()) + (if is_error(r.spec_node()) { 1int } else { 0int })
            == count_errors(self.builder.spec_nodes()) + next.diags@.len() - self.diags@.len()
        &&& fresh(next.builder.spec_nodes(), r.spec_node())
    }

    fn next_kind(&self) -> (r: TokenKind<'src>)
        requires
            self.inv(),
        ensures
            r == self.tok(self.pos as int).kind,
    {
        self.tokens[self.pos].kind
    }

    fn advance(&mut self) -> (r: Token<'src>)
        requires
            old(self).inv(),
        ensures
            final(self).inv(),
            r == old(self).tok(old(self).pos as int),
            final(self).src == old(self).src,
            final(self).tokens == old(self).tokens,
            final(self).builder == old(self).builder,
            final(self).interner == old(self).interner,
            final(self).diags == old(self).diags,
            r.kind == TokenKind::Eof ==> final(self).pos == old(self).pos,
            r.kind != TokenKind::Eof ==> final(self).pos == old(self).pos + 1,
    {
        let n = self.tokens.len();
        let token = self.tokens[self.pos];
        if self.pos + 1 < n {
            self.pos = self.pos + 1;
        }
        token
    }

    /// How a diagnostic names token `k`: "end of input" for the last, else its text in
    /// backquotes.
    spec fn spec_describe(&self, k: int) -> Seq<char> {
        if k + 1 == self.tokens@.len() {
            "end of input"@
        } else {
            "`"@ + self.src@.subrange(lex(self.src@, 0)[k].1, lex(self.src@, 0)[k].2) + "`"@
        }
    }

    /// "end of input", or the token's text in backquotes.
    fn describe(&self, k: usize) -> (r: String)
        requires
            self.inv(),
            k < self.tokens@.len(),
        ensures
            r@ == self.spec_describe(k as int),
    {
        let n = self.tokens.len();
        let token = self.tokens[k];
        if k + 1 == n {
            proof {
                reveal_strlit("end of input");
            }
            return "end of input".to_owned();
        }
        let ghost l = lex(self.src@, 0);
        proof {
            assert(token_matches(self.src@, self.tokens@[k as int], l[k as int]));
            lemma_lex_sorted(self.src@);
            lemma_byte_pos_mono(self.src@, l[k as int].1, l[k as int].2);
        }
        let text = substr(
            self.src,
            Ghost(l[k as int].1),
            Ghost(l[k as int].2),
            token.span.start.index(),
            token.span.end.index(),
        );
        proof {
            reveal_strlit("`");
        }
        let mut out = "`".to_owned();
        out.append(text);
        out.append("`");
        out
    }

    fn report(&mut self, message: String, span: Span)
        requires
            old(self).inv(),
        ensures
            final(self).diags@.len() > 0,
            final(self).diags@.drop_last() == old(self).diags@,
            final(self).diags@.last().spec_message() == message@,
            final(self).diags@.last().spec_location() == span,
            final(self).inv(),
            final(self).src == old(self).src,
            final(self).tokens == old(self).tokens,
            final(self).pos == old(self).pos,
            final(self).builder == old(self).builder,
            final(self).interner == old(self).interner,
            final(self).diags@.len() == old(self).diags@.len() + 1,
    {
        self.diags.push(Diagnostic::new(message, span));
    }

    /// The error for a missing token: "expected {what}, but found {next token}".
    fn expected_message(&self, what: &str) -> (r: String)
        requires
            self.inv(),
        ensures
            r@ == "expected "@ + what@ + ", but found "@ + self.spec_describe(self.pos as int),
    {
        proof {
            reveal_strlit("expected ");
            reveal_strlit(", but found ");
        }
        let mut out = "expected ".to_owned();
        out.append(what);
        out.append(", but found ");
        let found = self.describe(self.pos);
        out.append(found.as_str());
        out
    }

    #[verifier::rlimit(50)]
    fn parse_expr(&mut self, min_bp: u8) -> (r: NewId)
        requires
            old(self).inv(),
            old(self).builder.created() <= 2 * old(self).pos + 1,
        ensures
            old(self).yields(final(self), r),
            old(self).made(final(self), r, gram_expr(old(self).tokens@, old(self).pos as int, min_bp)),
        decreases old(self).tokens@.len() - old(self).pos, 2int,
    {
        let ghost start = *self;
        let ghost t = self.tokens@;
        let mut lhs = self.parse_prefix();
        proof {
            let g = gram_prefix(t, start.pos as int);
            assert(g.0 == tree_of(self.builder.spec_nodes(), self.interner@, lhs.spec_node()));
            assert(g.1 == self.pos);
            assert(self.pos < t.len());
            assert(gram_expr(t, start.pos as int, min_bp) == if g.1 <= start.pos || g.1 > t.len() {
                g
            } else {
                gram_infix(t, g.0, g.1, min_bp)
            });
        }
        loop
            invariant
                start.yields(self, lhs),
                start.pos == old(self).pos,
                start.tokens == old(self).tokens,
                start.builder.created() <= 2 * start.pos + 1,
                t == self.tokens@,
                grows_from(start.builder.spec_nodes(), self.builder.spec_nodes()),
                grows_from(start.interner@, self.interner@),
                gram_expr(t, start.pos as int, min_bp) == if self.pos <= start.pos {
                    (tree_of(self.builder.spec_nodes(), self.interner@, lhs.spec_node()), self.pos as int)
                } else {
                    gram_infix(t, tree_of(self.builder.spec_nodes(), self.interner@, lhs.spec_node()), self.pos as int, min_bp)
                },
                self.pos <= start.pos ==> self.tok(self.pos as int).kind == TokenKind::Eof,
            ensures
                gram_expr(t, start.pos as int, min_bp) == (
                    tree_of(self.builder.spec_nodes(), self.interner@, lhs.spec_node()),
                    self.pos as int,
                ),
            decreases self.tokens@.len() - self.pos,
        {
            let kind = self.next_kind();
            match infix_op(kind) {
                None => {
                    proof {
                        let lt = tree_of(self.builder.spec_nodes(), self.interner@, lhs.spec_node());
                        if self.pos > start.pos {
                            assert(gram_infix(t, lt, self.pos as int, min_bp) == (lt, self.pos as int));
                        }
                    }
                    break ;
                },
                Some(op) => {
                    let (lbp, rbp) = binop_bp(op);
                    if lbp < min_bp {
                        proof {
                            let lt = tree_of(self.builder.spec_nodes(), self.interner@, lhs.spec_node());
                            if self.pos > start.pos {
                                assert(gram_infix(t, lt, self.pos as int, min_bp) == (lt, self.pos as int));
                            }
                        }
                        break ;
                    }
                    let ghost mid = *self;
                    self.advance();
                    let ghost after_op = *self;
                    proof {
                        assert(self.tokens@[mid.pos as int].span.end.0 <= self.tokens@[self.pos as int].span.start.0);
                    }
                    let rhs = self.parse_expr(rbp);
                    proof {
                        assert(self.builder.spec_nodes().subrange(0, start.builder.spec_nodes().len() as int)
                            =~= start.builder.spec_nodes()) by {
                            assert(self.builder.spec_nodes().subrange(0, mid.builder.spec_nodes().len() as int)
                                == mid.builder.spec_nodes());
                        }
                        lemma_count_errors_push(self.builder.spec_nodes(), lhs.spec_node());
                        lemma_count_errors_push(self.builder.spec_nodes().push(lhs.spec_node()), rhs.spec_node());
                        assert(self.tokens@[self.pos as int].span.start.0 <= self.tokens@[self.pos as int].span.end.0);
                    }
                    let ghost before_bin = *self;
                    let ghost lhs0 = lhs;
                    lhs = self.builder.bin_op(op, lhs, rhs);
                    proof {
                        mid.lemma_arena();
                        before_bin.lemma_arena();
                        let nb = before_bin.builder.spec_nodes();
                        let nm = before_bin.interner@;
                        lemma_tree_of_grow(mid.builder.spec_nodes(), mid.interner@, nb, nm, lhs0.spec_node());
                        lemma_bin_tree(nb, nm, lhs0.spec_node(), rhs.spec_node(), op, lhs.spec_node());
                        assert(self.builder.spec_nodes() == nb.push(lhs0.spec_node()).push(rhs.spec_node()));
                        assert(grows_from(nb, self.builder.spec_nodes()));
                    }
                    proof {
                        assert(self.builder.spec_nodes().subrange(0, start.builder.spec_nodes().len() as int)
                            =~= start.builder.spec_nodes()) by {
                            assert(self.builder.spec_nodes().subrange(0, before_bin.builder.spec_nodes().len() as int)
                                =~= before_bin.builder.spec_nodes());
                        }
                    }
                },
            }
        }
        lhs
    }

    #[verifier::rlimit(100)]
    fn parse_prefix(&mut self) -> (r: NewId)
        requires
            old(self).inv(),
            old(self).builder.created() <= 2 * old(self).pos + 1,
        ensures
            old(self).yields(final(self), r),
            old(self).made(final(self), r, gram_prefix(old(self).tokens@, old(self).pos as int)),
            old(self).tok(old(self).pos as int).kind != TokenKind::Eof ==> final(self).pos > old(self).pos,
        decreases old(self).tokens@.len() - old(self).pos, 1int,
    {
        let k = self.pos;
        let ghost s0 = *self;
        let ghost t = self.tokens@;
        let token = self.advance();
        let span = token.span;
        let ghost after = *self;
        proof {
            assert(self.tokens@[k as int].span.wf());
            assert(after.pos == step(t, k as int));
            assert(grows_from(s0.builder.spec_nodes(), after.builder.spec_nodes()));
            assert(grows_from(s0.interner@, after.interner@));
        }
        let r = match token.kind {
            TokenKind::Int(lit) => {
                match lit.parse_i32() {
                    Ok(value) => {
                        let r = self.builder.lit(span, Value::I32(value));
                        proof {
                            lemma_leaf_tree(self.builder.spec_nodes(), self.interner@, r.spec_node());
                            assert(s0.made(self, r, gram_prefix(t, k as int)));
                        }
                        r
                    },
                    Err(_) => {
                        self.report("integer literal is out of range".to_owned(), span);
                        let r = self.builder.error(span, None);
                        proof {
                            lemma_leaf_tree(self.builder.spec_nodes(), self.interner@, r.spec_node());
                            assert(s0.made(self, r, gram_prefix(t, k as int)));
                        }
                        r
                    },
                }
            },
            TokenKind::Float(lit) => {
                if lit.fits_f32() {
                    let r = self.builder.lit(span, Value::F32(span));
                    proof {
                        lemma_leaf_tree(self.builder.spec_nodes(), self.interner@, r.spec_node());
                            assert(s0.made(self, r, gram_prefix(t, k as int)));
                    }
                    r
                } else {
                    self.report("float literal is out of range".to_owned(), span);
                    let r = self.builder.error(span, None);
                    proof {
                        lemma_leaf_tree(self.builder.spec_nodes(), self.interner@, r.spec_node());
                            assert(s0.made(self, r, gram_prefix(t, k as int)));
                    }
                    r
                }
            },
            TokenKind::Pi => {
                let r = self.builder.lit(span, Value::Pi);
                proof {
                    lemma_leaf_tree(self.builder.spec_nodes(), self.interner@, r.spec_node());
                            assert(s0.made(self, r, gram_prefix(t, k as int)));
                }
                r
            },
            TokenKind::Ident(name) => {
                let symbol = self.interner.get_or_insert(name);
                let r = self.builder.var(span, symbol);
                proof {
                    assert(grows_from(s0.interner@, self.interner@));
                    lemma_leaf_tree(self.builder.spec_nodes(), self.interner@, r.spec_node());
                            assert(s0.made(self, r, gram_prefix(t, k as int)));
                }
                r
            },
            TokenKind::LParen => {
                let inner = self.parse_expr(0);
                proof {
                    assert(self.builder.spec_nodes().subrange(0, after.builder.spec_nodes().len() as int)
                        =~= after.builder.spec_nodes());
                }
                let ghost s1 = *self;
                let r = self.expect(TokenTag::RParen, inner);
                proof {
                    let g = gram_expr(t, k + 1, 0);
                    assert(after.pos == k + 1);
                    assert(tree_of(s1.builder.spec_nodes(), s1.interner@, inner.spec_node()) == g.0);
                    assert(s1.pos == g.1);
                    assert(gram_prefix(t, k as int) == gram_expect(t, TokenTag::RParen, g.0, g.1));
                    assert(s1.tokens@ == t);
                    assert(s1.made(
                        self,
                        r,
                        gram_expect(s1.tokens@, TokenTag::RParen, tree_of(s1.builder.spec_nodes(), s1.interner@, inner.spec_node()), s1.pos as int),
                    ));
                    assert(s1.made(self, r, gram_expect(t, TokenTag::RParen, g.0, g.1)));
                    assert(grows_from(s0.builder.spec_nodes(), s1.builder.spec_nodes()));
                    assert(grows_from(s0.builder.spec_nodes(), self.builder.spec_nodes()));
                    assert(grows_from(s0.interner@, self.interner@));
                }
                r
            },
            kind => {
                if let Some(intrinsic) = intrinsic_op(kind) {
                    let r = self.parse_call(span, intrinsic);
                    proof {
                        lemma_leaf_tree(self.builder.spec_nodes(), self.interner@, r.spec_node());
                            assert(s0.made(self, r, gram_prefix(t, k as int)));
                    }
                    r
                } else if let Some(op) = prefix_op(kind) {
                    let operand = self.parse_expr(unop_bp(op));
                    proof {
                        assert(self.builder.spec_nodes().subrange(0, after.builder.spec_nodes().len() as int)
                            =~= after.builder.spec_nodes());
                        lemma_count_errors_push(self.builder.spec_nodes(), operand.spec_node());
                        assert(self.tokens@[k as int].span.end.0 <= self.tokens@[after.pos as int].span.start.0);
                    }
                    let ghost before_un = *self;
                    proof {
                        lemma_fresh_un_op(self.builder.spec_nodes(), operand.spec_node(), op);
                    }
                    let r = self.builder.un_op(span, op, operand);
                    proof {
                        assert(self.builder.spec_nodes().subrange(0, before_un.builder.spec_nodes().len() as int)
                            =~= before_un.builder.spec_nodes());
                        before_un.lemma_arena();
                        lemma_un_tree(before_un.builder.spec_nodes(), before_un.interner@, operand.spec_node(), op, r.spec_node());
                        let g = gram_expr(t, k + 1, 5);
                        assert(after.pos == k + 1);
                        assert(tree_of(before_un.builder.spec_nodes(), before_un.interner@, operand.spec_node()) == g.0);
                        assert(gram_prefix(t, k as int) == (Tree::Un(op, Box::new(g.0)), g.1));
                        assert(grows_from(s0.builder.spec_nodes(), self.builder.spec_nodes()));
                        assert(tree_of(self.builder.spec_nodes(), self.interner@, r.spec_node()) == Tree::Un(op, Box::new(g.0)));
                        lemma_leaf_tree(self.builder.spec_nodes(), self.interner@, r.spec_node());
                            assert(s0.made(self, r, gram_prefix(t, k as int)));
                    }
                    r
                } else {
                    let message = "expected an expression, but found ".to_owned();
                    let found = self.describe(k);
                    let mut message = message;
                    message.append(found.as_str());
                    self.report(message, span);
                    let r = self.builder.error(span, None);
                    proof {
                        lemma_leaf_tree(self.builder.spec_nodes(), self.interner@, r.spec_node());
                            assert(s0.made(self, r, gram_prefix(t, k as int)));
                    }
                    r
                }
            },
        };
        proof {
            assert(self.builder.spec_nodes().subrange(0, after.builder.spec_nodes().len() as int)
                =~= after.builder.spec_nodes());
        }
        r
    }

    #[verifier::rlimit(100)]
    fn parse_call(&mut self, span: Span, intrinsic: Intrinsic) -> (r: NewId)
        requires
            old(self).inv(),
            old(self).pos > 0,
            span == old(self).tok(old(self).pos - 1).span,
            old(self).builder.created() + 1 <= 2 * old(self).pos,
        ensures
            final(self).inv(),
            old(self).continues(final(self)),
            final(self).builder.spec_isolated() == old(self).builder.spec_isolated() + 1,
            final(self).builder.created() <= old(self).builder.created() + 2 * (final(self).pos - old(self).pos) + 1,
            r.spec_node().span.wf(),
            r.spec_node().span.start.0 >= span.start.0,
            r.spec_node().span.end.0 <= final(self).tok(final(self).pos as int).span.end.0,
            children_before(r.spec_node(), final(self).builder.spec_nodes().len() as int),
            sym_ok(r.spec_node(), final(self).interner@.len()),
            count_errors(final(self).builder.spec_nodes()) + (if is_error(r.spec_node()) { 1int } else { 0int })
                == count_errors(old(self).builder.spec_nodes()) + final(self).diags@.len() - old(self).diags@.len(),
            !(r.spec_node().kind is UnOp),
            old(self).made(final(self), r, gram_call(old(self).tokens@, old(self).pos as int, intrinsic)),
        decreases old(self).tokens@.len() - old(self).pos, 0int,
    {
        let ghost start = *self;
        proof {
            assert(self.tokens@[self.pos - 1].span.end.0 <= self.tokens@[self.pos as int].span.start.0);
        }
        let ghost t = self.tokens@;
        if self.next_kind().tag() != TokenTag::LParen {
            let message = self.expected_message("`(`");
            let next_span = self.tokens[self.pos].span;
            self.report(message, next_span);
            let r = self.builder.error(next_span, None);
            proof {
                lemma_leaf_tree(self.builder.spec_nodes(), self.interner@, r.spec_node());
                assert(grows_from(start.builder.spec_nodes(), self.builder.spec_nodes()));
                assert(grows_from(start.interner@, self.interner@));
            }
            return r;
        }
        self.advance();
        let ghost after_paren = *self;
        let first = self.parse_expr(0);
        let mut args: Vec<NewId> = Vec::new();
        args.push(first);
        proof {
            assert(args@.map_values(|a: NewId| a.spec_node()) =~= Seq::<Expr>::empty().push(first.spec_node()));
            lemma_count_errors_push(Seq::<Expr>::empty(), first.spec_node());
            assert(trees_of(self.builder.spec_nodes(), self.interner@, args@.map_values(|a: NewId| a.spec_node()))
                =~= seq![tree_of(self.builder.spec_nodes(), self.interner@, first.spec_node())]);
            assert(after_paren.pos == start.pos + 1);
            assert(grows_from(start.builder.spec_nodes(), self.builder.spec_nodes()));
            assert(grows_from(start.interner@, self.interner@));
        }
        loop
            invariant
                t == self.tokens@,
                grows_from(start.builder.spec_nodes(), self.builder.spec_nodes()),
                grows_from(start.interner@, self.interner@),
                gram_call(t, start.pos as int, intrinsic) == gram_args(
                    t,
                    intrinsic,
                    trees_of(self.builder.spec_nodes(), self.interner@, args@.map_values(|a: NewId| a.spec_node())),
                    self.pos as int,
                ),
                start.continues(self),
                start.pos == old(self).pos,
                start.tokens == old(self).tokens,
                start.builder.created() + 1 <= 2 * start.pos,
                self.inv(),
                args@.len() >= 1,
                self.pos > start.pos,
                self.builder.spec_isolated() == start.builder.spec_isolated() + args@.len(),
                self.builder.created() + 1 <= start.builder.created() + 2 * (self.pos - start.pos),
                forall|m: int| 0 <= m < args@.len() ==> (#[trigger] args@[m]).spec_node().span.wf(),
                forall|m: int|
                    0 <= m < args@.len() ==> children_before(
                        #[trigger] args@[m].spec_node(),
                        self.builder.spec_nodes().len() as int,
                    ),
                forall|m: int| 0 <= m < args@.len() ==> span.start.0 <= (#[trigger] args@[m]).spec_node().span.start.0,
                forall|m: int| 0 <= m < args@.len() ==> sym_ok((#[trigger] args@[m]).spec_node(), self.interner@.len()),
                args@.last().spec_node().span.end.0 <= self.tok(self.pos as int).span.end.0,
                count_errors(self.builder.spec_nodes()) + count_errors(args@.map_values(|a: NewId| a.spec_node()))
                    == count_errors(start.builder.spec_nodes()) + self.diags@.len() - start.diags@.len(),
            ensures
                self.tok(self.pos as int).kind.spec_tag() != TokenTag::Comma,
            decreases self.tokens@.len() - self.pos,
        {
            if self.next_kind().tag() != TokenTag::Comma {
                break ;
            }
            self.advance();
            let ghost mid = *self;
            let ghost args_before = args@;
            let arg = self.parse_expr(0);
            args.push(arg);
            proof {
                assert(self.builder.spec_nodes().subrange(0, start.builder.spec_nodes().len() as int)
                    =~= start.builder.spec_nodes()) by {
                    assert(self.builder.spec_nodes().subrange(0, mid.builder.spec_nodes().len() as int)
                        == mid.builder.spec_nodes());
                }
                assert(args@.map_values(|a: NewId| a.spec_node())
                    =~= args_before.map_values(|a: NewId| a.spec_node()).push(arg.spec_node()));
                lemma_count_errors_push(args_before.map_values(|a: NewId| a.spec_node()), arg.spec_node());
                mid.lemma_arena();
                assert(grows_from(mid.builder.spec_nodes(), self.builder.spec_nodes()));
                assert(grows_from(start.builder.spec_nodes(), self.builder.spec_nodes()));
                lemma_trees_of_grow(
                    mid.builder.spec_nodes(),
                    mid.interner@,
                    self.builder.spec_nodes(),
                    self.interner@,
                    args_before.map_values(|a: NewId| a.spec_node()),
                );
                assert(trees_of(self.builder.spec_nodes(), self.interner@, args@.map_values(|a: NewId| a.spec_node()))
                    =~= trees_of(self.builder.spec_nodes(), self.interner@, args_before.map_values(|a: NewId| a.spec_node())).push(
                    tree_of(self.builder.spec_nodes(), self.interner@, arg.spec_node())));
                assert forall|m: int| 0 <= m < args@.len() implies children_before(
                    #[trigger] args@[m].spec_node(),
                    self.builder.spec_nodes().len() as int,
                ) by {
                    if m < args_before.len() {
                        assert(args@[m] == args_before[m]);
                    }
                }
            }
        }
        let ghost before_call = *self;
        let ghost arg_nodes = args@.map_values(|a: NewId| a.spec_node());
        let ghost arg_trees = trees_of(self.builder.spec_nodes(), self.interner@, arg_nodes);
        proof {
            assert(gram_call(t, start.pos as int, intrinsic) == gram_expect(
                t,
                TokenTag::RParen,
                Tree::Call(intrinsic, arg_trees),
                self.pos as int,
            ));
        }
        let call = self.builder.intrinsic(span, intrinsic, args);
        proof {
            assert(self.builder.spec_nodes() =~= before_call.builder.spec_nodes() + arg_nodes);
            lemma_count_errors_concat(before_call.builder.spec_nodes(), arg_nodes);
            assert(self.builder.spec_nodes().subrange(0, start.builder.spec_nodes().len() as int)
                =~= start.builder.spec_nodes()) by {
                assert(before_call.builder.spec_nodes().subrange(0, start.builder.spec_nodes().len() as int)
                    == start.builder.spec_nodes());
            }
        }
        proof {
            before_call.lemma_arena();
            lemma_call_tree(before_call.builder.spec_nodes(), before_call.interner@, arg_nodes, intrinsic, call.spec_node());
        }
        let ghost before_expect = *self;
        proof {
            assert(before_expect.builder.spec_nodes() == before_call.builder.spec_nodes() + arg_nodes);
            assert(tree_of(before_expect.builder.spec_nodes(), before_expect.interner@, call.spec_node())
                == Tree::Call(intrinsic, arg_trees));
        }
        let r = self.expect(TokenTag::RParen, call);
        proof {
            assert(before_expect.made(self, r, gram_expect(t, TokenTag::RParen, Tree::Call(intrinsic, arg_trees), before_expect.pos as int)));
            assert(grows_from(start.builder.spec_nodes(), self.builder.spec_nodes()));
            assert(grows_from(start.interner@, self.interner@));
            assert(self.builder.spec_nodes().subrange(0, start.builder.spec_nodes().len() as int)
                =~= start.builder.spec_nodes()) by {
                assert(self.builder.spec_nodes().subrange(0, before_expect.builder.spec_nodes().len() as int)
                    == before_expect.builder.spec_nodes());
            }
        }
        r
    }

    /// Takes the next token if it has kind `tag`; else reports it and wraps `expr` in an error node.
    fn expect(&mut self, tag: TokenTag, expr: NewId) -> (r: NewId)
        requires
            old(self).inv(),
            old(self).builder.spec_isolated() > 0,
            old(self).builder.created() + 1 <= 2 * old(self).pos + 2,
            tag == TokenTag::RParen || tag == TokenTag::Eof,
            expr.spec_node().span.wf(),
            expr.spec_node().span.end.0 <= old(self).tok(old(self).pos as int).span.end.0,
            children_before(expr.spec_node(), old(self).builder.spec_nodes().len() as int),
            sym_ok(expr.spec_node(), old(self).interner@.len()),
        ensures
            final(self).inv(),
            old(self).continues(final(self)),
            final(self).builder.spec_isolated() == old(self).builder.spec_isolated(),
            final(self).builder.created() <= old(self).builder.created() + 1,
            r.spec_node().span.wf(),
            r.spec_node().span.start == expr.spec_node().span.start,
            r.spec_node().span.end.0 <= final(self).tok(final(self).pos as int).span.end.0,
            children_before(r.spec_node(), final(self).builder.spec_nodes().len() as int),
            sym_ok(r.spec_node(), final(self).interner@.len()),
            final(self).interner == old(self).interner,
            count_errors(final(self).builder.spec_nodes()) + (if is_error(r.spec_node()) { 1int } else { 0int })
                == count_errors(old(self).builder.spec_nodes()) + final(self).diags@.len() - old(self).diags@.len()
                + (if is_error(expr.spec_node()) { 1int } else { 0int }),
            fresh(old(self).builder.spec_nodes(), expr.spec_node()) ==> fresh(
                final(self).builder.spec_nodes(),
                r.spec_node(),
            ),
            old(self).tok(old(self).pos as int).kind.spec_tag() == tag ==> {
                &&& r.spec_node() == expr.spec_node()
                &&& final(self).builder == old(self).builder
                &&& final(self).diags == old(self).diags
                &&& final(self).pos == if old(self).tok(old(self).pos as int).kind == TokenKind::Eof {
                    old(self).pos as int
                } else {
                    old(self).pos + 1
                }
            },
            old(self).made(
                final(self),
                r,
                gram_expect(
                    old(self).tokens@,
                    tag,
                    tree_of(old(self).builder.spec_nodes(), old(self).interner@, expr.spec_node()),
                    old(self).pos as int,
                ),
            ),
            old(self).tok(old(self).pos as int).kind.spec_tag() != tag ==> {
                &&& r.spec_node().kind == ExprKind::Error(Some(crate::ast::ExprId(old(self).builder.spec_nodes().len() as u32)))
                &&& final(self).builder.spec_nodes() == old(self).builder.spec_nodes().push(expr.spec_node())
                &&& final(self).pos == old(self).pos
                &&& final(self).diags@.drop_last() == old(self).diags@
                &&& final(self).diags@.last().spec_message() == "expected "@ + (if tag == TokenTag::RParen {
                    "`)`"@
                } else {
                    "end of input"@
                }) + ", but found "@ + old(self).spec_describe(old(self).pos as int)
                &&& final(self).diags@.last().spec_location() == old(self).tok(old(self).pos as int).span
            },
    {
        let ghost s0 = *self;
        proof {
            s0.lemma_arena();
        }
        if self.next_kind().tag() == tag {
            let ghost before = *self;
            self.advance();
            proof {
                assert(grows_from(s0.builder.spec_nodes(), self.builder.spec_nodes()));
                assert(grows_from(s0.interner@, self.interner@));
                assert(self.builder.spec_nodes().subrange(0, before.builder.spec_nodes().len() as int)
                    =~= before.builder.spec_nodes());
                if self.pos > before.pos {
                    assert(self.tokens@[before.pos as int].span.end.0 <= self.tokens@[self.pos as int].span.start.0);
                }
            }
            expr
        } else {
            proof {
                reveal_strlit("`)`");
                reveal_strlit("end of input");
            }
            let what = if tag == TokenTag::RParen {
                "`)`"
            } else {
                "end of input"
            };
            let message = self.expected_message(what);
            let next_span = self.tokens[self.pos].span;
            self.report(message, next_span);
            let ghost before = *self;
            proof {
                lemma_count_errors_push(self.builder.spec_nodes(), expr.spec_node());
            }
            let r = self.builder.error(next_span, Some(expr));
            proof {
                assert(self.builder.spec_nodes().subrange(0, before.builder.spec_nodes().len() as int)
                    =~= before.builder.spec_nodes());
                lemma_error_tree(s0.builder.spec_nodes(), s0.interner@, expr.spec_node(), r.spec_node());
                assert(grows_from(s0.builder.spec_nodes(), self.builder.spec_nodes()));
                assert(grows_from(s0.interner@, self.interner@));
            }
            r
        }
    }
}

} // verus!
