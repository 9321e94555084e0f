//! Lowering of a validated expression tree to a tape that computes it as an `f32`.
use crate::ast::{fresh, BinOp, Expr, ExprId, ExprKind, Intrinsic, UnOp, Value};
use crate::diag::Span;
use crate::frontend::{node_type, strings_view, Type as NodeType, Validated, VarSlot};
use crate::pretty::bin_op_text;
use crate::tape::{instr_well_typed, lemma_typed_extend_values, well_typed, Instr, Tape, TapeBuilder, Type, ValueId};
use vstd::prelude::*;

verus! {

broadcast use vstd::function::group_function_axioms;

/// The bits of `f32::consts::PI`.
pub const PI_BITS: u32 = 0x4049_0fdb;

/// The tape type of values of a node type.
pub open spec fn tape_type(t: NodeType) -> Type {
    match t {
        NodeType::I32 => Type::I32,
        NodeType::F32 => Type::F32,
    }
}

/// Every instruction of the builder reads earlier values of the types it expects.
pub open spec fn all_typed(b: TapeBuilder) -> bool {
    forall|k: int|
        0 <= k < b.spec_instrs().len() ==> instr_well_typed(
            b.spec_values(),
            b.spec_num_args() + k,
            #[trigger] b.spec_instrs()[k],
        )
}

/// `next` is `prev` with more instructions appended, all well typed.
pub open spec fn grows(prev: TapeBuilder, next: TapeBuilder) -> bool {
    &&& next.wf()
    &&& all_typed(next)
    &&& next.spec_num_args() == prev.spec_num_args()
    &&& next.spec_results() == prev.spec_results()
    &&& prev.spec_values().len() <= next.spec_values().len()
    &&& forall|i: int| 0 <= i < prev.spec_values().len() ==> #[trigger] next.spec_values()[i] == prev.spec_values()[i]
    &&& prev.spec_instrs().len() <= next.spec_instrs().len()
    &&& forall|i: int| 0 <= i < prev.spec_instrs().len() ==> #[trigger] next.spec_instrs()[i] == prev.spec_instrs()[i]
}

/// The tree of `v` can be lowered: it holds no error node, its root carries the value of
/// the last node placed before it, every variable names an input or a constant, every
/// call has as many arguments as its intrinsic takes, the types are those of
/// `node_type`, and the tape's ids suffice.
pub open spec fn lowerable(v: &Validated) -> bool {
    let nodes = v.ast@;
    &&& v.ast.wf()
    &&& forall|k: int| 0 <= k < nodes.len() ==> !((#[trigger] nodes[k]).kind is Error)
    &&& fresh(nodes.drop_last(), nodes.last())
    &&& v.ty.spec_map().len() == nodes.len()
    &&& forall|k: int| 0 <= k < nodes.len() ==> #[trigger] v.ty.spec_map()[k] == node_type(nodes, k)
    &&& v.vars.spec_map().len() == nodes.len()
    &&& forall|k: int|
        0 <= k < nodes.len() && (#[trigger] nodes[k]).kind is Var ==> match v.vars.spec_map()[k] {
            Some(VarSlot::Input(i)) => i < v.num_inputs,
            Some(VarSlot::Const(i)) => i < v.consts@.len(),
            None => false,
        }
    &&& forall|k: int|
        0 <= k < nodes.len() ==> match (#[trigger] nodes[k]).kind {
            ExprKind::Intrinsic(f, args) => args.end - args.start == f.spec_num_args(),
            _ => true,
        }
    &&& v.num_inputs <= 255
    &&& v.num_inputs + 3 * nodes.len() + 2 < u16::MAX
}

/// Appends `instr`, which reads earlier values of the types it expects.
pub(crate) fn emit(b: &mut TapeBuilder, instr: Instr) -> (r: ValueId)
    requires
        old(b).wf(),
        all_typed(*old(b)),
        old(b).spec_values().len() < u16::MAX,
        instr_well_typed(old(b).spec_values(), old(b).spec_values().len() as int, instr),
    ensures
        grows(*old(b), *final(b)),
        final(b).spec_values() == old(b).spec_values().push(instr.spec_result_type()),
        final(b).spec_instrs() == old(b).spec_instrs().push(instr),
        r.0 == old(b).spec_values().len(),
{
    let ghost prev = *b;
    let r = b.push(instr);
    proof {
        let values = b.spec_values();
        assert(values.subrange(0, prev.spec_values().len() as int) =~= prev.spec_values());
        assert forall|k: int| 0 <= k < b.spec_instrs().len() implies instr_well_typed(
            values,
            b.spec_num_args() + k,
            #[trigger] b.spec_instrs()[k],
        ) by {
            if k < prev.spec_instrs().len() {
                assert(b.spec_instrs()[k] == prev.spec_instrs()[k]);
                lemma_typed_extend_values(prev.spec_values(), values, b.spec_num_args() + k, prev.spec_instrs()[k]);
            } else {
                lemma_typed_extend_values(prev.spec_values(), values, prev.spec_values().len() as int, instr);
            }
        }
    }
    r
}

/// The value `id`, of type `ty`, as an `f32`: converted where it is an `i32`.
fn promote(b: &mut TapeBuilder, id: ValueId, ty: NodeType) -> (r: ValueId)
    requires
        old(b).wf(),
        all_typed(*old(b)),
        old(b).spec_values().len() < u16::MAX,
        (id.0 as int) < old(b).spec_values().len(),
        old(b).spec_values()[id.0 as int] == tape_type(ty),
    ensures
        grows(*old(b), *final(b)),
        final(b).spec_values().len() <= old(b).spec_values().len() + 1,
        (r.0 as int) < final(b).spec_values().len(),
        final(b).spec_values()[r.0 as int] == Type::F32,
        promoted(final(b).spec_instrs(), final(b).spec_num_args() as int, id, ty, r),
{
    match ty {
        NodeType::I32 => emit(b, Instr::F32FromI32(id)),
        NodeType::F32 => {
            proof {
                assert(b.spec_values().subrange(0, b.spec_values().len() as int) =~= b.spec_values());
            }
            id
        },
    }
}

proof fn lemma_grows_trans(a: TapeBuilder, b: TapeBuilder, c: TapeBuilder)
    requires
        grows(a, b),
        grows(b, c),
    ensures
        grows(a, c),
{
    assert(c.spec_values().subrange(0, a.spec_values().len() as int) =~= b.spec_values().subrange(
        0,
        a.spec_values().len() as int,
    ));
}

proof fn lemma_grows_refl(a: TapeBuilder)
    requires
        a.wf(),
        all_typed(a),
    ensures
        grows(a, a),
{
    assert(a.spec_values().subrange(0, a.spec_values().len() as int) =~= a.spec_values());
}

/// The value of node `k` has type `t` in `values`.
pub open spec fn typed_id(values: Seq<Type>, id: ValueId, t: NodeType) -> bool {
    &&& (id.0 as int) < values.len()
    &&& values[id.0 as int] == tape_type(t)
}

/// Value `id` of a tape with `n` arguments and the instructions `instrs` is made by an
/// instruction, and that instruction is `instr`.
pub open spec fn made_by(instrs: Seq<Instr>, n: int, id: ValueId, instr: Instr) -> bool {
    &&& n <= id.0 < n + instrs.len()
    &&& instrs[id.0 - n] == instr
}

/// `p` is the value `id`, of node type `t`, as an `f32`: `id` itself where it is an `f32`,
/// else its conversion.
pub open spec fn promoted(instrs: Seq<Instr>, n: int, id: ValueId, t: NodeType, p: ValueId) -> bool {
    match t {
        NodeType::F32 => p == id,
        NodeType::I32 => made_by(instrs, n, p, Instr::F32FromI32(id)),
    }
}

/// The `f32` instruction of a call of `f` on `x` and, for `min` and `max`, `y`.
pub open spec fn call_instr(f: Intrinsic, x: ValueId, y: ValueId) -> Instr {
    match f {
        Intrinsic::Exp => Instr::F32Exp(x),
        Intrinsic::Log => Instr::F32Lg(x),
        Intrinsic::Ln => Instr::F32Ln(x),
        Intrinsic::Sin => Instr::F32Sin(x),
        Intrinsic::Cos => Instr::F32Cos(x),
        Intrinsic::Tan => Instr::F32Tan(x),
        Intrinsic::Cot => Instr::F32Cot(x),
        Intrinsic::Abs => Instr::F32Abs(x),
        Intrinsic::Min => Instr::F32Min(x, y),
        Intrinsic::Max => Instr::F32Max(x, y),
    }
}

/// The `f32` instruction of the binary operator `op` on `x` and `y`, an `f32` base with an
/// exponent of node type `ty` for `^`.
pub open spec fn f32_bin_instr(op: BinOp, x: ValueId, y: ValueId, ty: NodeType) -> Instr {
    match op {
        BinOp::Add => Instr::F32Add(x, y),
        BinOp::Sub => Instr::F32Sub(x, y),
        BinOp::Mul => Instr::F32Mul(x, y),
        BinOp::Div => Instr::F32Div(x, y),
        BinOp::Pow => if ty == NodeType::I32 {
            Instr::F32Powi(x, y)
        } else {
            Instr::F32Powf(x, y)
        },
    }
}

/// Law: a binary operator lowers to the arithmetic that its printed symbol (the one
/// character of `bin_op_text`, which reads back as the operator) names: `+` adds, `-` subtracts and
/// `*` multiplies, in `f32` and in `i32` alike, `/` divides, and `^` raises to an integer
/// or a real power.
pub proof fn law_operator_meaning(op: BinOp, x: ValueId, y: ValueId, t: NodeType)
    ensures
        bin_op_text(op)[0] == '+' ==> f32_bin_instr(op, x, y, t) == Instr::F32Add(x, y) && i32_bin_instr(op, x, y)
            == Instr::I32Add(x, y),
        bin_op_text(op)[0] == '-' ==> f32_bin_instr(op, x, y, t) == Instr::F32Sub(x, y) && i32_bin_instr(op, x, y)
            == Instr::I32Sub(x, y),
        bin_op_text(op)[0] == '*' ==> f32_bin_instr(op, x, y, t) == Instr::F32Mul(x, y) && i32_bin_instr(op, x, y)
            == Instr::I32Mul(x, y),
        bin_op_text(op)[0] == '/' ==> f32_bin_instr(op, x, y, t) == Instr::F32Div(x, y),
        bin_op_text(op)[0] == '^' ==> f32_bin_instr(op, x, y, t) == (if t == NodeType::I32 {
            Instr::F32Powi(x, y)
        } else {
            Instr::F32Powf(x, y)
        }),
{
}

/// The `i32` instruction of the binary operator `op` on `x` and `y`: a product for `*`.
pub open spec fn i32_bin_instr(op: BinOp, x: ValueId, y: ValueId) -> Instr {
    match op {
        BinOp::Add => Instr::I32Add(x, y),
        BinOp::Sub => Instr::I32Sub(x, y),
        _ => Instr::I32Mul(x, y),
    }
}

/// In a tape with `n` arguments and the instructions `instrs`, in which node `j` of `v`
/// has the value `ids[j]` for each `j < k`, the value `r` computes node `k`: an operator
/// by its instruction over its operands' values (promoted to `f32` where the node is an
/// `f32`), a call by its intrinsic's instruction, an input by its argument, a constant by
/// an `f32` constant, an integer literal by its `i32` constant, a float literal by the
/// constant whose bits `float_bits` gives for its span, and `pi` by the bits of `PI_BITS`.
pub open spec fn computes<C: FnMut(Span) -> u32>(
    v: &Validated,
    instrs: Seq<Instr>,
    n: int,
    ids: Seq<ValueId>,
    k: int,
    r: ValueId,
    const_bits: Seq<u32>,
    float_bits: C,
) -> bool {
    let nodes = v.ast@;
    let t = node_type(nodes, k);
    match nodes[k].kind {
        ExprKind::UnOp(UnOp::Plus, a) => r == ids[a.0 as int],
        ExprKind::UnOp(UnOp::Minus, a) => if t == NodeType::I32 {
            exists|z: ValueId|
                #[trigger] made_by(instrs, n, z, Instr::I32Const(0)) && made_by(instrs, n, r, Instr::I32Sub(z, ids[a.0 as int]))
        } else {
            exists|p: ValueId|
                #[trigger] promoted(instrs, n, ids[a.0 as int], node_type(nodes, a.0 as int), p) && made_by(
                    instrs,
                    n,
                    r,
                    Instr::F32Neg(p),
                )
        },
        ExprKind::BinOp(op, x, y) => if t == NodeType::I32 {
            made_by(instrs, n, r, i32_bin_instr(op, ids[x.0 as int], ids[y.0 as int]))
        } else if op == BinOp::Pow {
            exists|p: ValueId|
                #[trigger] promoted(instrs, n, ids[x.0 as int], node_type(nodes, x.0 as int), p) && made_by(
                    instrs,
                    n,
                    r,
                    f32_bin_instr(op, p, ids[y.0 as int], node_type(nodes, y.0 as int)),
                )
        } else {
            exists|p: ValueId, q: ValueId|
                #[trigger] promoted(instrs, n, ids[x.0 as int], node_type(nodes, x.0 as int), p) && #[trigger] promoted(
                    instrs,
                    n,
                    ids[y.0 as int],
                    node_type(nodes, y.0 as int),
                    q,
                ) && made_by(instrs, n, r, f32_bin_instr(op, p, q, NodeType::F32))
        },
        ExprKind::Intrinsic(f, args) => if f == Intrinsic::Min || f == Intrinsic::Max {
            exists|p: ValueId, q: ValueId|
                #[trigger] promoted(instrs, n, ids[args.start as int], node_type(nodes, args.start as int), p)
                    && #[trigger] promoted(instrs, n, ids[args.start + 1], node_type(nodes, args.start + 1), q)
                    && made_by(instrs, n, r, call_instr(f, p, q))
        } else {
            exists|p: ValueId|
                #[trigger] promoted(instrs, n, ids[args.start as int], node_type(nodes, args.start as int), p)
                    && made_by(instrs, n, r, call_instr(f, p, p))
        },
        ExprKind::Var(_) => match v.vars.spec_map()[k] {
            Some(VarSlot::Input(i)) => r.0 == i,
            Some(VarSlot::Const(i)) => made_by(instrs, n, r, Instr::F32Const(const_bits[i as int])),
            None => false,
        },
        ExprKind::Lit(Value::I32(x)) => made_by(instrs, n, r, Instr::I32Const(x)),
        ExprKind::Lit(Value::F32(span)) => exists|bits: u32|
            #[trigger] call_ensures(float_bits, (span,), bits) && made_by(instrs, n, r, Instr::F32Const(bits)),
        ExprKind::Lit(Value::Pi) => made_by(instrs, n, r, Instr::F32Const(PI_BITS)),
        ExprKind::Error(_) => false,
    }
}

/// Appending instructions keeps what the earlier ones make.
pub(crate) proof fn lemma_made_by_grow(instrs: Seq<Instr>, instrs2: Seq<Instr>, n: int, id: ValueId, instr: Instr)
    requires
        made_by(instrs, n, id, instr),
        instrs.len() <= instrs2.len(),
        forall|i: int| 0 <= i < instrs.len() ==> #[trigger] instrs2[i] == instrs[i],
    ensures
        made_by(instrs2, n, id, instr),
{
    assert(instrs2[id.0 - n] == instrs[id.0 - n]);
}

proof fn lemma_promoted_grow(instrs: Seq<Instr>, instrs2: Seq<Instr>, n: int, id: ValueId, t: NodeType, p: ValueId)
    requires
        promoted(instrs, n, id, t, p),
        instrs.len() <= instrs2.len(),
        forall|i: int| 0 <= i < instrs.len() ==> #[trigger] instrs2[i] == instrs[i],
    ensures
        promoted(instrs2, n, id, t, p),
{
    if t == NodeType::I32 {
        lemma_made_by_grow(instrs, instrs2, n, p, Instr::F32FromI32(id));
    }
}

/// Appending instructions, and values for later nodes, keeps what computes node `j`.
proof fn lemma_computes_grow<C: FnMut(Span) -> u32>(
    v: &Validated,
    instrs: Seq<Instr>,
    instrs2: Seq<Instr>,
    n: int,
    ids: Seq<ValueId>,
    ids2: Seq<ValueId>,
    j: int,
    r: ValueId,
    const_bits: Seq<u32>,
    float_bits: C,
)
    requires
        lowerable(v),
        0 <= j < v.ast@.len(),
        computes(v, instrs, n, ids, j, r, const_bits, float_bits),
        instrs.len() <= instrs2.len(),
        forall|i: int| 0 <= i < instrs.len() ==> #[trigger] instrs2[i] == instrs[i],
        j <= ids.len() <= ids2.len(),
        forall|i: int| 0 <= i < ids.len() ==> #[trigger] ids2[i] == ids[i],
    ensures
        computes(v, instrs2, n, ids2, j, r, const_bits, float_bits),
{
    let nodes = v.ast@;
    assert(crate::ast::children_before(nodes[j], j));
    match nodes[j].kind {
        ExprKind::UnOp(UnOp::Plus, a) => {
            assert(ids2[a.0 as int] == ids[a.0 as int]);
        },
        ExprKind::UnOp(UnOp::Minus, a) => {
            assert(ids2[a.0 as int] == ids[a.0 as int]);
            if node_type(nodes, j) == NodeType::I32 {
                let z = choose|z: ValueId|
                    #[trigger] made_by(instrs, n, z, Instr::I32Const(0)) && made_by(instrs, n, r, Instr::I32Sub(z, ids[a.0 as int]));
                lemma_made_by_grow(instrs, instrs2, n, z, Instr::I32Const(0));
                lemma_made_by_grow(instrs, instrs2, n, r, Instr::I32Sub(z, ids[a.0 as int]));
            } else {
                let p = choose|p: ValueId|
                    #[trigger] promoted(instrs, n, ids[a.0 as int], node_type(nodes, a.0 as int), p) && made_by(instrs, n, r, Instr::F32Neg(p));
                lemma_promoted_grow(instrs, instrs2, n, ids[a.0 as int], node_type(nodes, a.0 as int), p);
                lemma_made_by_grow(instrs, instrs2, n, r, Instr::F32Neg(p));
            }
        },
        ExprKind::BinOp(op, x, y) => {
            assert(ids2[x.0 as int] == ids[x.0 as int]);
            assert(ids2[y.0 as int] == ids[y.0 as int]);
            let tx = node_type(nodes, x.0 as int);
            let ty = node_type(nodes, y.0 as int);
            if node_type(nodes, j) == NodeType::I32 {
                lemma_made_by_grow(instrs, instrs2, n, r, i32_bin_instr(op, ids[x.0 as int], ids[y.0 as int]));
            } else if op == BinOp::Pow {
                let p = choose|p: ValueId|
                    #[trigger] promoted(instrs, n, ids[x.0 as int], tx, p) && made_by(instrs, n, r, f32_bin_instr(op, p, ids[y.0 as int], ty));
                lemma_promoted_grow(instrs, instrs2, n, ids[x.0 as int], tx, p);
                lemma_made_by_grow(instrs, instrs2, n, r, f32_bin_instr(op, p, ids[y.0 as int], ty));
            } else {
                let (p, q) = choose|p: ValueId, q: ValueId|
                    #[trigger] promoted(instrs, n, ids[x.0 as int], tx, p) && #[trigger] promoted(instrs, n, ids[y.0 as int], ty, q)
                        && made_by(instrs, n, r, f32_bin_instr(op, p, q, NodeType::F32));
                lemma_promoted_grow(instrs, instrs2, n, ids[x.0 as int], tx, p);
                lemma_promoted_grow(instrs, instrs2, n, ids[y.0 as int], ty, q);
                lemma_made_by_grow(instrs, instrs2, n, r, f32_bin_instr(op, p, q, NodeType::F32));
            }
        },
        ExprKind::Intrinsic(f, args) => {
            let s0 = args.start as int;
            let t0 = node_type(nodes, s0);
            assert(ids2[s0] == ids[s0]);
            if f == Intrinsic::Min || f == Intrinsic::Max {
                assert(args.end - args.start == f.spec_num_args());
                assert(ids2[s0 + 1] == ids[s0 + 1]);
                let t1 = node_type(nodes, s0 + 1);
                let (p, q) = choose|p: ValueId, q: ValueId|
                    #[trigger] promoted(instrs, n, ids[s0], t0, p) && #[trigger] promoted(instrs, n, ids[s0 + 1], t1, q)
                        && made_by(instrs, n, r, call_instr(f, p, q));
                lemma_promoted_grow(instrs, instrs2, n, ids[s0], t0, p);
                lemma_promoted_grow(instrs, instrs2, n, ids[s0 + 1], t1, q);
                lemma_made_by_grow(instrs, instrs2, n, r, call_instr(f, p, q));
            } else {
                let p = choose|p: ValueId|
                    #[trigger] promoted(instrs, n, ids[s0], t0, p) && made_by(instrs, n, r, call_instr(f, p, p));
                lemma_promoted_grow(instrs, instrs2, n, ids[s0], t0, p);
                lemma_made_by_grow(instrs, instrs2, n, r, call_instr(f, p, p));
            }
        },
        ExprKind::Var(_) => {
            if !(v.vars.spec_map()[j] matches Some(VarSlot::Input(_))) {
                assert(instrs2[r.0 - n] == instrs[r.0 - n]);
            }
        },
        ExprKind::Lit(Value::I32(x)) => {
            lemma_made_by_grow(instrs, instrs2, n, r, Instr::I32Const(x));
        },
        ExprKind::Lit(Value::F32(span)) => {
            let bits = choose|bits: u32|
                #[trigger] call_ensures(float_bits, (span,), bits) && made_by(instrs, n, r, Instr::F32Const(bits));
            lemma_made_by_grow(instrs, instrs2, n, r, Instr::F32Const(bits));
        },
        ExprKind::Lit(Value::Pi) => {
            lemma_made_by_grow(instrs, instrs2, n, r, Instr::F32Const(PI_BITS));
        },
        ExprKind::Error(_) => {},
    }
}

/// The last value of a tape with `n` arguments and the instructions `instrs` is the value
/// `root`, of node type `t`, as an `f32`: converted where it is an `i32`, and copied (as
/// the larger of it and itself) where it is an argument.
pub open spec fn result_is(instrs: Seq<Instr>, n: int, root: ValueId, t: NodeType) -> bool {
    let last = n + instrs.len() - 1;
    match t {
        NodeType::I32 => instrs.last() == Instr::F32FromI32(root),
        NodeType::F32 => if root.0 < n {
            instrs.last() == Instr::F32Max(root, root)
        } else {
            root.0 == last
        },
    }
}

/// In a tape with `n` arguments and the instructions `instrs`, the values `ids` compute
/// the nodes of `v`, each from the values of its children.
pub open spec fn lowered<C: FnMut(Span) -> u32>(
    v: &Validated,
    instrs: Seq<Instr>,
    n: int,
    ids: Seq<ValueId>,
    const_bits: Seq<u32>,
    float_bits: C,
) -> bool {
    &&& ids.len() == v.ast@.len()
    &&& forall|j: int| 0 <= j < ids.len() ==> #[trigger] computes(v, instrs, n, ids, j, ids[j], const_bits, float_bits)
}

/// Emits the code of node `k` of `nodes`, whose children's values are `ids`.
#[verifier::rlimit(100)]
#[verifier::spinoff_prover]
fn lower_node<C: FnMut(Span) -> u32>(
    b: &mut TapeBuilder,
    v: &Validated,
    const_bits: &Vec<u32>,
    float_bits: &mut C,
    ids: &Vec<ValueId>,
    k: usize,
) -> (r: ValueId)
    requires
        lowerable(v),
        k < v.ast@.len(),
        ids@.len() == k,
        const_bits@.len() == v.consts@.len(),
        forall|sp: Span| call_requires(*old(float_bits), (sp,)),
        old(b).wf(),
        all_typed(*old(b)),
        old(b).spec_num_args() == v.num_inputs,
        old(b).spec_values().len() + 3 < u16::MAX,
        forall|i: int| 0 <= i < v.num_inputs ==> old(b).spec_values()[i] == Type::F32,
        old(b).spec_values().len() >= v.num_inputs,
        forall|j: int| 0 <= j < k ==> typed_id(old(b).spec_values(), #[trigger] ids@[j], node_type(v.ast@, j)),
    ensures
        grows(*old(b), *final(b)),
        *final(float_bits) == *old(float_bits),
        final(b).spec_values().len() <= old(b).spec_values().len() + 3,
        typed_id(final(b).spec_values(), r, node_type(v.ast@, k as int)),
        match v.ast@[k as int].kind {
            ExprKind::UnOp(UnOp::Plus, a) => r == ids@[a.0 as int] && final(b).spec_values() == old(b).spec_values(),
            ExprKind::Var(_) => (r.0 < v.num_inputs && final(b).spec_values() == old(b).spec_values()) || r.0
                == final(b).spec_values().len() - 1,
            _ => r.0 == final(b).spec_values().len() - 1,
        },
        computes(v, final(b).spec_instrs(), v.num_inputs as int, ids@, k as int, r, const_bits@, *old(float_bits)),
{
    let ghost nodes = v.ast@;
    let ghost start = *b;
    let ghost n = v.num_inputs as int;
    let ghost fb = *float_bits;
    let node = v.ast.get(ExprId(k as u32));
    let t = *v.ty.get(ExprId(k as u32));
    proof {
        assert(crate::ast::children_before(nodes[k as int], k as int));
        assert(v.ty.spec_map()[k as int] == node_type(nodes, k as int));
        lemma_grows_refl(*b);
    }
    match node.kind {
        ExprKind::UnOp(op, a) => {
            let ta = *v.ty.get(a);
            assert(typed_id(b.spec_values(), ids@[a.0 as int], node_type(nodes, a.0 as int)));
            assert(ta == node_type(nodes, a.0 as int));
            match op {
                UnOp::Plus => ids[a.0 as usize],
                UnOp::Minus => {
                    if t == NodeType::I32 {
                        let zero = emit(b, Instr::I32Const(0));
                        let ghost mid = *b;
                        let r = emit(b, Instr::I32Sub(zero, ids[a.0 as usize]));
                        proof {
                            lemma_grows_trans(start, mid, *b);
                            assert(made_by(mid.spec_instrs(), n, zero, Instr::I32Const(0)));
                            lemma_made_by_grow(mid.spec_instrs(), b.spec_instrs(), n, zero, Instr::I32Const(0));
                            assert(made_by(b.spec_instrs(), n, r, Instr::I32Sub(zero, ids@[a.0 as int])));
                        }
                        r
                    } else {
                        let p = promote(b, ids[a.0 as usize], ta);
                        let ghost mid = *b;
                        let r = emit(b, Instr::F32Neg(p));
                        proof {
                            lemma_grows_trans(start, mid, *b);
                            lemma_promoted_grow(mid.spec_instrs(), b.spec_instrs(), n, ids@[a.0 as int], ta, p);
                            assert(made_by(b.spec_instrs(), n, r, Instr::F32Neg(p)));
                        }
                        r
                    }
                },
            }
        },
        ExprKind::BinOp(op, x, y) => {
            let (tx, ty) = (*v.ty.get(x), *v.ty.get(y));
            assert(typed_id(b.spec_values(), ids@[x.0 as int], node_type(nodes, x.0 as int)));
            assert(typed_id(b.spec_values(), ids@[y.0 as int], node_type(nodes, y.0 as int)));
            let (vx, vy) = (ids[x.0 as usize], ids[y.0 as usize]);
            if t == NodeType::I32 {
                let instr = match op {
                    BinOp::Add => Instr::I32Add(vx, vy),
                    BinOp::Sub => Instr::I32Sub(vx, vy),
                    _ => Instr::I32Mul(vx, vy),
                };
                let r = emit(b, instr);
                proof {
                    assert(made_by(b.spec_instrs(), n, r, i32_bin_instr(op, vx, vy)));
                }
                r
            } else {
                match op {
                    BinOp::Pow => {
                        let base = promote(b, vx, tx);
                        let ghost mid = *b;
                        let instr = if ty == NodeType::I32 {
                            Instr::F32Powi(base, vy)
                        } else {
                            Instr::F32Powf(base, vy)
                        };
                        assert(typed_id(b.spec_values(), vy, ty));
                        let r = emit(b, instr);
                        proof {
                            lemma_grows_trans(start, mid, *b);
                            lemma_promoted_grow(mid.spec_instrs(), b.spec_instrs(), n, vx, tx, base);
                            assert(made_by(b.spec_instrs(), n, r, f32_bin_instr(op, base, vy, ty)));
                        }
                        r
                    },
                    _ => {
                        let px = promote(b, vx, tx);
                        let ghost mid = *b;
                        assert(typed_id(b.spec_values(), vy, ty));
                        let py = promote(b, vy, ty);
                        let ghost mid2 = *b;
                        let instr = match op {
                            BinOp::Add => Instr::F32Add(px, py),
                            BinOp::Sub => Instr::F32Sub(px, py),
                            BinOp::Mul => Instr::F32Mul(px, py),
                            _ => Instr::F32Div(px, py),
                        };
                        let r = emit(b, instr);
                        proof {
                            lemma_grows_trans(start, mid, mid2);
                            lemma_grows_trans(start, mid2, *b);
                            lemma_promoted_grow(mid.spec_instrs(), b.spec_instrs(), n, vx, tx, px);
                            lemma_promoted_grow(mid2.spec_instrs(), b.spec_instrs(), n, vy, ty, py);
                            assert(made_by(b.spec_instrs(), n, r, f32_bin_instr(op, px, py, NodeType::F32)));
                        }
                        r
                    },
                }
            }
        },
        ExprKind::Intrinsic(f, args) => {
            let first = ExprId(args.start);
            assert(typed_id(b.spec_values(), ids@[first.0 as int], node_type(nodes, first.0 as int)));
            let arg = promote(b, ids[args.start as usize], *v.ty.get(first));
            let ghost mid = *b;
            let r = match f {
                Intrinsic::Min | Intrinsic::Max => {
                    let second = ExprId(args.start + 1);
                    assert(typed_id(b.spec_values(), ids@[second.0 as int], node_type(nodes, second.0 as int)));
                    let rhs = promote(b, ids[second.0 as usize], *v.ty.get(second));
                    let ghost mid2 = *b;
                    let instr = match f {
                        Intrinsic::Min => Instr::F32Min(arg, rhs),
                        _ => Instr::F32Max(arg, rhs),
                    };
                    let r = emit(b, instr);
                    proof {
                        lemma_grows_trans(mid, mid2, *b);
                        lemma_promoted_grow(mid.spec_instrs(), b.spec_instrs(), n, ids@[first.0 as int], node_type(nodes, first.0 as int), arg);
                        lemma_promoted_grow(mid2.spec_instrs(), b.spec_instrs(), n, ids@[second.0 as int], node_type(nodes, second.0 as int), rhs);
                        assert(made_by(b.spec_instrs(), n, r, call_instr(f, arg, rhs)));
                    }
                    r
                },
                _ => {
                    let instr = match f {
                        Intrinsic::Exp => Instr::F32Exp(arg),
                        Intrinsic::Log => Instr::F32Lg(arg),
                        Intrinsic::Ln => Instr::F32Ln(arg),
                        Intrinsic::Sin => Instr::F32Sin(arg),
                        Intrinsic::Cos => Instr::F32Cos(arg),
                        Intrinsic::Tan => Instr::F32Tan(arg),
                        Intrinsic::Cot => Instr::F32Cot(arg),
                        _ => Instr::F32Abs(arg),
                    };
                    let r = emit(b, instr);
                    proof {
                        lemma_promoted_grow(mid.spec_instrs(), b.spec_instrs(), n, ids@[first.0 as int], node_type(nodes, first.0 as int), arg);
                        assert(made_by(b.spec_instrs(), n, r, call_instr(f, arg, arg)));
                    }
                    r
                },
            };
            proof {
                lemma_grows_trans(start, mid, *b);
            }
            r
        },
        ExprKind::Var(_) => {
            match v.vars.get(ExprId(k as u32)) {
                Some(VarSlot::Input(i)) => ValueId(*i as u16),
                Some(VarSlot::Const(i)) => {
                    let r = emit(b, Instr::F32Const(const_bits[*i as usize]));
                    proof {
                        assert(made_by(b.spec_instrs(), n, r, Instr::F32Const(const_bits@[*i as int])));
                    }
                    r
                },
                None => vstd::pervasive::unreached(),
            }
        },
        ExprKind::Lit(value) => {
            let bits = match value {
                Value::I32(x) => {
                    let r = emit(b, Instr::I32Const(x));
                    proof {
                        assert(made_by(b.spec_instrs(), n, r, Instr::I32Const(x)));
                    }
                    return r;
                },
                Value::F32(span) => {
                    let bits = float_bits(span);
                    proof {
                        assert(call_ensures(fb, (span,), bits));
                    }
                    bits
                },
                Value::Pi => PI_BITS,
            };
            let r = emit(b, Instr::F32Const(bits));
            proof {
                assert(made_by(b.spec_instrs(), n, r, Instr::F32Const(bits)));
            }
            r
        },
        ExprKind::Error(_) => vstd::pervasive::unreached(),
    }
}

/// `n` arguments of type `F32`.
pub open spec fn f32_args(n: nat) -> Seq<Type> {
    Seq::new(n, |_i: int| Type::F32)
}

impl<'a> Validated<'a> {
    /// Compiles the tree to a tape over the inputs, all `f32`, with one `f32` result: the
    /// value of the root. Constant `i` is the `f32` whose bits `resolve_const` gives for
    /// the constant's name; a float literal, the `f32` whose bits `float_bits` gives for
    /// its span.
    pub fn lower_to_ir<R, C>(&self, mut resolve_const: R, mut float_bits: C) -> (r: Tape) where
        R: FnMut(&str) -> u32,
        C: FnMut(Span) -> u32,

        requires
            lowerable(self),
            forall|name: &str| strings_view(self.consts@).contains(name@) ==> call_requires(resolve_const, (name,)),
            forall|sp: Span| call_requires(float_bits, (sp,)),
        ensures
            r.wf(),
            r.spec_args() == f32_args(self.num_inputs as nat),
            r.spec_results() == seq![Type::F32],
            exists|ids: Seq<ValueId>, const_bits: Seq<u32>, names: Seq<&str>|
                #![trigger lowered(self, r.spec_instrs(), self.num_inputs as int, ids, const_bits, float_bits), names.len()]
                lowered(self, r.spec_instrs(), self.num_inputs as int, ids, const_bits, float_bits) && result_is(
                    r.spec_instrs(),
                    self.num_inputs as int,
                    ids.last(),
                    node_type(self.ast@, ids.len() - 1),
                ) && const_bits.len() == self.consts@.len() && names.len() == const_bits.len() && forall|j: int|
                    0 <= j < const_bits.len() ==> (#[trigger] names[j])@ == strings_view(self.consts@)[j] && call_ensures(
                        resolve_const,
                        (names[j],),
                        const_bits[j],
                    ),
    {
        let ghost r0 = resolve_const;
        let ghost mut names: Seq<&str> = Seq::empty();
        let mut const_bits: Vec<u32> = Vec::new();
        let mut i: usize = 0;
        while i < self.consts.len()
            invariant
                forall|name: &str| strings_view(self.consts@).contains(name@) ==> call_requires(resolve_const, (name,)),
                i <= self.consts@.len(),
                const_bits@.len() == i,
                resolve_const == r0,
                names.len() == i,
                forall|j: int|
                    0 <= j < i ==> (#[trigger] names[j])@ == strings_view(self.consts@)[j] && call_ensures(
                        r0,
                        (names[j],),
                        const_bits@[j],
                    ),
            decreases self.consts@.len() - i,
        {
            let name = self.consts[i].as_str();
            assert(strings_view(self.consts@)[i as int] == name@);
            assert(strings_view(self.consts@).contains(name@));
            let bits = resolve_const(name);
            const_bits.push(bits);
            proof {
                names = names.push(name);
            }
            i = i + 1;
        }
        let n_inputs = self.num_inputs as usize;
        let mut args: Vec<Type> = Vec::new();
        let mut i: usize = 0;
        while i < n_inputs
            invariant
                i <= n_inputs,
                args@ == f32_args(i as nat),
            decreases n_inputs - i,
        {
            args.push(Type::F32);
            i = i + 1;
            assert(args@ =~= f32_args(i as nat));
        }
        let mut results: Vec<Type> = Vec::new();
        results.push(Type::F32);
        let mut b = Tape::builder(args, results);
        let ghost nodes = self.ast@;
        let n = self.ast.len();
        let ghost f0 = float_bits;
        let mut ids: Vec<ValueId> = Vec::new();
        let mut k: usize = 0;
        while k < n
            invariant
                lowerable(self),
                nodes == self.ast@,
                n == nodes.len(),
                k <= n,
                const_bits@.len() == self.consts@.len(),
                float_bits == f0,
                forall|sp: Span| call_requires(float_bits, (sp,)),
                b.wf(),
                all_typed(b),
                b.spec_num_args() == self.num_inputs,
                b.spec_results() == seq![Type::F32],
                b.spec_values().len() <= self.num_inputs + 3 * k,
                b.spec_values().len() >= self.num_inputs,
                b.spec_values().subrange(0, self.num_inputs as int) == f32_args(self.num_inputs as nat),
                ids@.len() == k,
                forall|j: int| 0 <= j < k ==> typed_id(b.spec_values(), #[trigger] ids@[j], node_type(nodes, j)),
                k > 0 && fresh(nodes.take(k - 1), nodes[k - 1]) ==> ids@[k - 1].0 < self.num_inputs || ids@[k
                    - 1].0 == b.spec_values().len() - 1,
                forall|j: int|
                    0 <= j < k ==> #[trigger] computes(self, b.spec_instrs(), self.num_inputs as int, ids@, j, ids@[j], const_bits@, f0),
            decreases n - k,
        {
            let ghost prev = b;
            proof {
                assert forall|i: int| 0 <= i < self.num_inputs implies b.spec_values()[i] == Type::F32 by {
                    assert(b.spec_values().subrange(0, self.num_inputs as int)[i] == Type::F32);
                }
            }
            let id = lower_node(&mut b, self, &const_bits, &mut float_bits, &ids, k);
            proof {
                assert(b.spec_values().subrange(0, prev.spec_values().len() as int) == prev.spec_values());
                assert(b.spec_values().subrange(0, self.num_inputs as int) =~= prev.spec_values().subrange(
                    0,
                    self.num_inputs as int,
                ));
                assert forall|j: int| 0 <= j < k implies typed_id(b.spec_values(), #[trigger] ids@[j], node_type(nodes, j)) by {
                    assert(typed_id(prev.spec_values(), ids@[j], node_type(nodes, j)));
                    assert(b.spec_values()[ids@[j].0 as int] == prev.spec_values()[ids@[j].0 as int]);
                }
            }
            let ghost ids_before = ids@;
            ids.push(id);
            proof {
                assert forall|j: int| 0 <= j <= k implies #[trigger] computes(
                    self,
                    b.spec_instrs(),
                    self.num_inputs as int,
                    ids@,
                    j,
                    ids@[j],
                    const_bits@,
                    f0,
                ) by {
                    if j < k {
                        assert(computes(self, prev.spec_instrs(), self.num_inputs as int, ids_before, j, ids_before[j], const_bits@, f0));
                        lemma_computes_grow(self, prev.spec_instrs(), b.spec_instrs(), self.num_inputs as int, ids_before, ids@, j, ids_before[j], const_bits@, f0);
                    } else {
                        lemma_computes_grow(self, b.spec_instrs(), b.spec_instrs(), self.num_inputs as int, ids_before, ids@, j, id, const_bits@, f0);
                    }
                }
                if k > 0 {
                    assert(nodes.take(k as int).drop_last() =~= nodes.take(k - 1));
                    assert(nodes.take(k as int).last() == nodes[k - 1]);
                }
            }
            k = k + 1;
        }
        let ghost looped = b;
        let root = ids[n - 1];
        let root_ty = *self.ty.get(ExprId((n - 1) as u32));
        proof {
            assert(nodes.take(n - 1) =~= nodes.drop_last());
            assert(typed_id(b.spec_values(), root, node_type(nodes, n - 1)));
        }
        let root0 = root;
        let root = match root_ty {
            NodeType::I32 => emit(&mut b, Instr::F32FromI32(root)),
            NodeType::F32 => root,
        };
        if root.index() < n_inputs {
            emit(&mut b, Instr::F32Max(root, root));
        }
        proof {
            assert(ids@.last() == root0);
            assert(root_ty == node_type(nodes, n - 1));
            assert(result_is(b.spec_instrs(), self.num_inputs as int, root0, root_ty));
        }
        proof {
            let values = b.spec_values();
            assert(values.last() == Type::F32);
            assert(values.subrange(values.len() - 1, values.len() as int) =~= seq![Type::F32]);
            assert(well_typed(b.spec_num_args() as int, values, b.spec_instrs(), b.spec_results()));
        }
        let ghost built_from = b;
        proof {
            assert forall|j: int| 0 <= j < ids@.len() implies #[trigger] computes(
                self,
                b.spec_instrs(),
                self.num_inputs as int,
                ids@,
                j,
                ids@[j],
                const_bits@,
                float_bits,
            ) by {
                lemma_computes_grow(self, looped.spec_instrs(), b.spec_instrs(), self.num_inputs as int, ids@, ids@, j, ids@[j], const_bits@, f0);
            }
            assert(lowered(self, b.spec_instrs(), self.num_inputs as int, ids@, const_bits@, float_bits));
        }
        match b.build() {
            Ok(tape) => {
                proof {
                    assert(built_from.spec_values().take(self.num_inputs as int) =~= f32_args(self.num_inputs as nat));
                    assert(lowered(self, tape.spec_instrs(), self.num_inputs as int, ids@, const_bits@, float_bits));
                    assert(names.len() == const_bits@.len());
                }
                tape
            },
            Err(_) => vstd::pervasive::unreached(),
        }
    }
}

} // verus!
