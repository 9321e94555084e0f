//! The syntax tree, stored as an arena in which every node follows its children.
use vstd::prelude::*;
use crate::diag::Span;
use crate::interner::Symbol;

verus! {

broadcast use vstd::seq_lib::group_seq_properties;

/// Index of a node in the arena.
#[derive(Copy, Clone, PartialEq, Eq, Structural, Debug)]
pub struct ExprId(pub u32);

/// The consecutive nodes `start..end` of the arena: the arguments of a call.
#[derive(Copy, Clone, PartialEq, Eq, Structural, Debug)]
pub struct ExprSetId {
    pub start: u32,
    pub end: u32,
}

impl ExprSetId {
    pub fn raw_range(self) -> (r: core::ops::Range<u32>)
        ensures
            r.start == self.start,
            r.end == self.end,
    {
        self.start..self.end
    }

    pub fn usize_range(self) -> (r: core::ops::Range<usize>)
        ensures
            r.start == self.start,
            r.end == self.end,
    {
        (self.start as usize)..(self.end as usize)
    }
}

/// A literal: an integer value, a float literal given by its span in the source
/// text, or the constant π.
#[derive(Copy, Clone, PartialEq, Eq, Structural, Debug)]
pub enum Value {
    I32(i32),
    F32(Span),
    Pi,
}

#[derive(Copy, Clone, PartialEq, Eq, Structural, Debug)]
pub enum UnOp {
    Plus,
    Minus,
}

#[derive(Copy, Clone, PartialEq, Eq, Structural, Debug)]
pub enum BinOp {
    Add,
    Sub,
    Mul,
    Div,
    Pow,
}

#[derive(Copy, Clone, PartialEq, Eq, Structural, Debug)]
pub enum Intrinsic {
    Exp,
    Log,
    Ln,
    Sin,
    Cos,
    Tan,
    Cot,
    Abs,
    Min,
    Max,
}

impl Intrinsic {
    pub open spec fn spec_num_args(self) -> nat {
        match self {
            Intrinsic::Min | Intrinsic::Max => 2,
            _ => 1,
        }
    }

    pub open spec fn spec_name(self) -> Seq<char> {
        match self {
            Intrinsic::Exp => seq!['e', 'x', 'p'],
            Intrinsic::Log => seq!['l', 'o', 'g'],
            Intrinsic::Ln => seq!['l', 'n'],
            Intrinsic::Sin => seq!['s', 'i', 'n'],
            Intrinsic::Cos => seq!['c', 'o', 's'],
            Intrinsic::Tan => seq!['t', 'a', 'n'],
            Intrinsic::Cot => seq!['c', 'o', 't'],
            Intrinsic::Abs => seq!['a', 'b', 's'],
            Intrinsic::Min => seq!['m', 'i', 'n'],
            Intrinsic::Max => seq!['m', 'a', 'x'],
        }
    }

    /// The number of arguments that the intrinsic takes.
    pub fn num_args(self) -> (r: usize)
        ensures
            r == self.spec_num_args(),
    {
        match self {
            Intrinsic::Min | Intrinsic::Max => 2,
            Intrinsic::Exp
            | Intrinsic::Log
            | Intrinsic::Ln
            | Intrinsic::Sin
            | Intrinsic::Cos
            | Intrinsic::Tan
            | Intrinsic::Cot
            | Intrinsic::Abs => 1,
        }
    }

    /// The intrinsic's name, as diagnostics spell it.
    pub fn name(self) -> (r: String)
        ensures
            r@ == self.spec_name(),
    {
        let s = match self {
            Intrinsic::Exp => "exp",
            Intrinsic::Log => "log",
            Intrinsic::Ln => "ln",
            Intrinsic::Sin => "sin",
            Intrinsic::Cos => "cos",
            Intrinsic::Tan => "tan",
            Intrinsic::Cot => "cot",
            Intrinsic::Abs => "abs",
            Intrinsic::Min => "min",
            Intrinsic::Max => "max",
        };
        proof {
            reveal_strlit("exp");
            reveal_strlit("log");
            reveal_strlit("ln");
            reveal_strlit("sin");
            reveal_strlit("cos");
            reveal_strlit("tan");
            reveal_strlit("cot");
            reveal_strlit("abs");
            reveal_strlit("min");
            reveal_strlit("max");
        }
        s.to_owned()
    }
}

#[derive(Copy, Clone, PartialEq, Eq, Structural, Debug)]
pub enum ExprKind {
    UnOp(UnOp, ExprId),
    BinOp(BinOp, ExprId, ExprId),
    Intrinsic(Intrinsic, ExprSetId),
    Var(Symbol),
    Lit(Value),
    Error(Option<ExprId>),
}

#[derive(Copy, Clone, PartialEq, Eq, Structural, Debug)]
pub struct Expr {
    pub kind: ExprKind,
    pub span: Span,
}

/// The children of the node at index `i` come before it.
pub open spec fn children_before(e: Expr, i: int) -> bool {
    match e.kind {
        ExprKind::UnOp(_, a) => a.0 < i,
        ExprKind::BinOp(_, a, b) => a.0 < i && b.0 < i,
        ExprKind::Intrinsic(_, args) => args.start <= args.end <= i,
        ExprKind::Error(Some(a)) => a.0 < i,
        _ => true,
    }
}

pub open spec fn is_error(e: Expr) -> bool {
    e.kind is Error
}

/// The number of error nodes among `nodes`.
pub open spec fn count_errors(nodes: Seq<Expr>) -> nat
    decreases nodes.len(),
{
    if nodes.len() == 0 {
        0
    } else {
        count_errors(nodes.drop_last()) + if is_error(nodes.last()) { 1nat } else { 0nat }
    }
}

pub proof fn lemma_count_errors_push(nodes: Seq<Expr>, e: Expr)
    ensures
        count_errors(nodes.push(e)) == count_errors(nodes) + if is_error(e) { 1nat } else { 0nat },
{
    assert(nodes.push(e).drop_last() =~= nodes);
}

pub proof fn lemma_count_errors_concat(a: Seq<Expr>, b: Seq<Expr>)
    ensures
        count_errors(a + b) == count_errors(a) + count_errors(b),
    decreases b.len(),
{
    if b.len() > 0 {
        lemma_count_errors_concat(a, b.drop_last());
        assert((a + b).drop_last() =~= a + b.drop_last());
    } else {
        assert(a + b =~= a);
    }
}

/// The node `e`, about to follow `nodes` in the arena, carries the value of a node placed
/// just before it: a unary plus comes right after its operand, and so on down.
pub open spec fn fresh(nodes: Seq<Expr>, e: Expr) -> bool
    decreases nodes.len(),
{
    match e.kind {
        ExprKind::UnOp(UnOp::Plus, a) => nodes.len() > 0 && a.0 == nodes.len() - 1 && fresh(
            nodes.drop_last(),
            nodes.last(),
        ),
        _ => true,
    }
}

/// Placing a fresh operand and making a unary node over it gives a fresh node.
pub proof fn lemma_fresh_un_op(nodes: Seq<Expr>, operand: Expr, op: UnOp)
    requires
        fresh(nodes, operand),
        nodes.len() < u32::MAX,
    ensures
        forall|e: Expr| e.kind == ExprKind::UnOp(op, ExprId(nodes.len() as u32)) ==> #[trigger] fresh(nodes.push(operand), e),
{
    assert(nodes.push(operand).drop_last() =~= nodes);
}

/// An arena in which every node follows its children and has a well-formed span.
pub open spec fn arena_wf(nodes: Seq<Expr>) -> bool {
    &&& nodes.len() < u32::MAX
    &&& forall|i: int| 0 <= i < nodes.len() ==> children_before(#[trigger] nodes[i], i)
    &&& forall|i: int| 0 <= i < nodes.len() ==> (#[trigger] nodes[i]).span.wf()
}

/// A syntax tree; its root is the last node.
#[derive(Debug)]
pub struct Ast {
    nodes: Vec<Expr>,
}

impl View for Ast {
    type V = Seq<Expr>;

    closed spec fn view(&self) -> Seq<Expr> {
        self.nodes@
    }
}

impl Ast {
    pub open spec fn wf(&self) -> bool {
        self@.len() > 0 && arena_wf(self@)
    }

    pub fn len(&self) -> (r: usize)
        ensures
            r == self@.len(),
    {
        self.nodes.len()
    }

    pub fn get(&self, id: ExprId) -> (r: &Expr)
        requires
            (id.0 as int) < self@.len(),
        ensures
            *r == self@[id.0 as int],
    {
        &self.nodes[id.0 as usize]
    }

    pub fn root(&self) -> (r: ExprId)
        requires
            self.wf(),
        ensures
            r.0 == self@.len() - 1,
    {
        ExprId((self.nodes.len() - 1) as u32)
    }
}

/// A node that has been built but not yet placed in the arena.
#[derive(Debug)]
pub struct NewId {
    node: Expr,
}

impl NewId {
    pub closed spec fn spec_node(&self) -> Expr {
        self.node
    }

    pub fn span(&self) -> (r: Span)
        ensures
            r == self.spec_node().span,
    {
        self.node.span
    }
}

/// Builds an arena: each node is made, then placed in the arena when its parent is made.
pub struct AstBuilder {
    nodes: Vec<Expr>,
    isolated: u32,
}

impl AstBuilder {
    pub closed spec fn spec_nodes(&self) -> Seq<Expr> {
        self.nodes@
    }

    /// The number of nodes made and not yet placed.
    pub closed spec fn spec_isolated(&self) -> nat {
        self.isolated as nat
    }

    /// The number of nodes made so far.
    pub open spec fn created(&self) -> nat {
        self.spec_nodes().len() + self.spec_isolated()
    }

    pub open spec fn wf(&self) -> bool {
        &&& arena_wf(self.spec_nodes())
        &&& self.created() < u32::MAX
    }

    pub fn new() -> (r: AstBuilder)
        ensures
            r.wf(),
            r.spec_nodes() == Seq::<Expr>::empty(),
            r.spec_isolated() == 0,
    {
        AstBuilder { nodes: Vec::new(), isolated: 0 }
    }

    fn consume(&mut self, id: NewId) -> (r: ExprId)
        requires
            old(self).wf(),
            old(self).spec_isolated() > 0,
            children_before(id.spec_node(), old(self).spec_nodes().len() as int),
            id.spec_node().span.wf(),
        ensures
            final(self).wf(),
            final(self).spec_nodes() == old(self).spec_nodes().push(id.spec_node()),
            final(self).spec_isolated() == old(self).spec_isolated() - 1,
            r.0 == old(self).spec_nodes().len(),
    {
        self.isolated = self.isolated - 1;
        let len = self.nodes.len();
        self.nodes.push(id.node);
        ExprId(len as u32)
    }

    fn create(&mut self, span: Span, kind: ExprKind) -> (r: NewId)
        requires
            old(self).wf(),
            old(self).created() + 1 < u32::MAX,
        ensures
            final(self).wf(),
            final(self).spec_nodes() == old(self).spec_nodes(),
            final(self).spec_isolated() == old(self).spec_isolated() + 1,
            r.spec_node() == (Expr { kind, span }),
    {
        self.isolated = self.isolated + 1;
        NewId { node: Expr { kind, span } }
    }

    pub fn un_op(&mut self, op_span: Span, op: UnOp, operand: NewId) -> (r: NewId)
        requires
            old(self).wf(),
            old(self).created() + 1 < u32::MAX,
            old(self).spec_isolated() > 0,
            operand.spec_node().span.wf(),
            children_before(operand.spec_node(), old(self).spec_nodes().len() as int),
            op_span.start.0 <= operand.spec_node().span.end.0,
        ensures
            final(self).wf(),
            final(self).spec_nodes() == old(self).spec_nodes().push(operand.spec_node()),
            final(self).spec_isolated() == old(self).spec_isolated(),
            r.spec_node().span.start == op_span.start,
            r.spec_node().span.end == operand.spec_node().span.end,
            r.spec_node().kind == ExprKind::UnOp(op, ExprId(old(self).spec_nodes().len() as u32)),
    {
        let span = op_span.chain(operand.node.span);
        let operand = self.consume(operand);
        self.create(span, ExprKind::UnOp(op, operand))
    }

    pub fn bin_op(&mut self, op: BinOp, lhs: NewId, rhs: NewId) -> (r: NewId)
        requires
            old(self).wf(),
            old(self).created() + 1 < u32::MAX,
            old(self).spec_isolated() > 1,
            lhs.spec_node().span.wf(),
            rhs.spec_node().span.wf(),
            children_before(lhs.spec_node(), old(self).spec_nodes().len() as int),
            children_before(rhs.spec_node(), old(self).spec_nodes().len() as int),
            lhs.spec_node().span.start.0 <= rhs.spec_node().span.end.0,
        ensures
            final(self).wf(),
            final(self).spec_nodes() == old(self).spec_nodes().push(lhs.spec_node()).push(
                rhs.spec_node(),
            ),
            final(self).spec_isolated() == old(self).spec_isolated() - 1,
            r.spec_node().span.start == lhs.spec_node().span.start,
            r.spec_node().span.end == rhs.spec_node().span.end,
            r.spec_node().kind == ExprKind::BinOp(
                op,
                ExprId(old(self).spec_nodes().len() as u32),
                ExprId((old(self).spec_nodes().len() + 1) as u32),
            ),
    {
        let span = lhs.node.span.chain(rhs.node.span);
        let lhs = self.consume(lhs);
        let rhs = self.consume(rhs);
        self.create(span, ExprKind::BinOp(op, lhs, rhs))
    }

    /// Places the arguments `args` in the arena and makes the call node over them.
    pub fn intrinsic(&mut self, span: Span, intrinsic: Intrinsic, args: Vec<NewId>) -> (r: NewId)
        requires
            old(self).wf(),
            old(self).created() + 1 < u32::MAX,
            old(self).spec_isolated() >= args@.len(),
            span.wf(),
            forall|k: int| 0 <= k < args@.len() ==> (#[trigger] args@[k]).spec_node().span.wf(),
            forall|k: int|
                0 <= k < args@.len() ==> children_before(
                    #[trigger] args@[k].spec_node(),
                    old(self).spec_nodes().len() as int,
                ),
            forall|k: int|
                0 <= k < args@.len() ==> span.start.0 <= (#[trigger] args@[k]).spec_node().span.end.0,
        ensures
            final(self).wf(),
            final(self).spec_nodes().len() == old(self).spec_nodes().len() + args@.len(),
            final(self).spec_nodes().subrange(0, old(self).spec_nodes().len() as int)
                == old(self).spec_nodes(),
            forall|k: int|
                0 <= k < args@.len() ==> final(self).spec_nodes()[old(self).spec_nodes().len() + k]
                    == (#[trigger] args@[k]).spec_node(),
            final(self).spec_isolated() == old(self).spec_isolated() + 1 - args@.len(),
            r.spec_node().span.start == span.start,
            args@.len() == 0 ==> r.spec_node().span.end == span.end,
            args@.len() > 0 ==> r.spec_node().span.end == args@.last().spec_node().span.end,
            r.spec_node().kind == ExprKind::Intrinsic(
                intrinsic,
                ExprSetId {
                    start: old(self).spec_nodes().len() as u32,
                    end: (old(self).spec_nodes().len() + args@.len()) as u32,
                },
            ),
    {
        let start = self.nodes.len() as u32;
        let ghost span0 = span;
        let mut span = span;
        let mut args = args;
        let ghost all = args@;
        let ghost base = self.nodes@;
        let mut k: usize = 0;
        let n = args.len();
        while k < n
            invariant
                self.wf(),
                n == all.len(),
                k <= n,
                self.created() == old(self).created(),
                self.spec_isolated() == old(self).spec_isolated() - k,
                old(self).spec_isolated() >= n,
                args@ == all.subrange(k as int, n as int),
                self.spec_nodes().len() == base.len() + k,
                self.spec_nodes().subrange(0, base.len() as int) == base,
                forall|m: int| 0 <= m < k ==> self.spec_nodes()[base.len() + m] == (#[trigger] all[m]).spec_node(),
                span.wf(),
                span.start == span0.start,
                k == 0 ==> span.end == span0.end,
                k > 0 ==> span.end == all[k - 1].spec_node().span.end,
                base == old(self).spec_nodes(),
                forall|m: int| 0 <= m < all.len() ==> (#[trigger] all[m]).spec_node().span.wf(),
                forall|m: int|
                    0 <= m < all.len() ==> children_before(#[trigger] all[m].spec_node(), base.len() as int),
                forall|m: int| 0 <= m < all.len() ==> span0.start.0 <= (#[trigger] all[m]).spec_node().span.end.0,
            decreases n - k,
        {
            let arg = args.remove(0);
            proof {
                assert(args@ =~= all.subrange(k + 1, n as int));
            }
            span = span.chain(arg.node.span);
            let ghost before = self.spec_nodes();
            self.consume(arg);
            proof {
                assert(self.spec_nodes().subrange(0, base.len() as int) =~= before.subrange(0, base.len() as int));
            }
            k = k + 1;
        }
        let end = self.nodes.len() as u32;
        self.create(span, ExprKind::Intrinsic(intrinsic, ExprSetId { start, end }))
    }

    pub fn lit(&mut self, span: Span, value: Value) -> (r: NewId)
        requires
            old(self).wf(),
            old(self).created() + 1 < u32::MAX,
        ensures
            final(self).wf(),
            final(self).spec_nodes() == old(self).spec_nodes(),
            final(self).spec_isolated() == old(self).spec_isolated() + 1,
            r.spec_node() == (Expr { kind: ExprKind::Lit(value), span }),
    {
        self.create(span, ExprKind::Lit(value))
    }

    pub fn var(&mut self, span: Span, name: Symbol) -> (r: NewId)
        requires
            old(self).wf(),
            old(self).created() + 1 < u32::MAX,
        ensures
            final(self).wf(),
            final(self).spec_nodes() == old(self).spec_nodes(),
            final(self).spec_isolated() == old(self).spec_isolated() + 1,
            r.spec_node() == (Expr { kind: ExprKind::Var(name), span }),
    {
        self.create(span, ExprKind::Var(name))
    }

    /// An error node at `span`, wrapping `inner` (which is then placed in the arena).
    pub fn error(&mut self, span: Span, inner: Option<NewId>) -> (r: NewId)
        requires
            old(self).wf(),
            old(self).created() + 1 < u32::MAX,
            inner is Some ==> old(self).spec_isolated() > 0,
            inner is Some ==> inner->0.spec_node().span.wf(),
            inner is Some ==> children_before(inner->0.spec_node(), old(self).spec_nodes().len() as int),
            inner is Some ==> inner->0.spec_node().span.start.0 <= span.end.0,
        ensures
            final(self).wf(),
            match inner {
                Some(i) => {
                    &&& final(self).spec_nodes() == old(self).spec_nodes().push(i.spec_node())
                    &&& final(self).spec_isolated() == old(self).spec_isolated()
                    &&& r.spec_node().span.start == i.spec_node().span.start
                    &&& r.spec_node().kind == ExprKind::Error(Some(ExprId(old(self).spec_nodes().len() as u32)))
                },
                None => {
                    &&& final(self).spec_nodes() == old(self).spec_nodes()
                    &&& final(self).spec_isolated() == old(self).spec_isolated() + 1
                    &&& r.spec_node().span.start == span.start
                    &&& r.spec_node().kind == ExprKind::Error(None)
                },
            },
            r.spec_node().span.end == span.end,
    {
        match inner {
            Some(inner) => {
                let span = inner.node.span.chain(span);
                let inner = self.consume(inner);
                self.create(span, ExprKind::Error(Some(inner)))
            },
            None => self.create(span, ExprKind::Error(None)),
        }
    }

    /// Places the root, the only node not yet placed, and yields the tree.
    pub fn finish(self, root: NewId) -> (r: Ast)
        requires
            self.wf(),
            self.spec_isolated() == 1,
            root.spec_node().span.wf(),
            children_before(root.spec_node(), self.spec_nodes().len() as int),
        ensures
            r.wf(),
            r@ == self.spec_nodes().push(root.spec_node()),
    {
        let mut this = self;
        this.consume(root);
        Ast { nodes: this.nodes }
    }
}

} // verus!
