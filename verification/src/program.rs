//! Compiling an expression against the shape of a program into a tape.
use crate::ast::{count_errors, fresh, is_error, ExprKind, Expr};
use crate::diag::{Diagnostic, Span};
use crate::frontend::{
    all_names, concatenated, distinct, extend_diagnostics, first_index, same_diagnostic, is_problem, problems, resolve_var, strings_view,
    validation_diagnostics, CompileError, ParseError, ProgramShape, VarSlot, Validated, node_type,
};
use crate::autodiff::{autodiff, differentiable, gradient_instrs, gradient_shape};
use crate::interval::{translatable, translate, translated, Value as RangeValue};
use crate::lower::{f32_args, lowerable, lowered, made_by, result_is};
use crate::parser::{max_source_len, parse, parses_to, sym_ok, Parsed};
use crate::tape::{Instr, Tape, Type, ValueId};
use crate::text::byte_len;
use vstd::prelude::*;

verus! {

broadcast use vstd::function::group_function_axioms;

/// What a program is compiled for: its shape, and the value of each of its constants,
/// as the bits of an `f32`, in the order of the shape's constants.
pub struct ProgramDesc<'a> {
    shape: &'a ProgramShape,
    consts: Vec<u32>,
}

impl<'a> ProgramDesc<'a> {
    pub closed spec fn spec_shape(&self) -> &'a ProgramShape {
        self.shape
    }

    pub closed spec fn spec_consts(&self) -> Seq<u32> {
        self.consts@
    }

    /// The shape's constants, named and in range, and at most 255 inputs.
    pub open spec fn wf(&self) -> bool {
        &&& self.spec_shape().wf()
        &&& self.spec_consts().len() == self.spec_shape().spec_consts().len()
        &&& self.spec_shape().spec_inputs().len() <= 255
    }

    /// A description of `shape` with a value for each of its constants.
    pub fn new(shape: &'a ProgramShape, consts: Vec<u32>) -> (r: ProgramDesc<'a>)
        requires
            consts@.len() == shape.spec_consts().len(),
        ensures
            r.spec_shape() == shape,
            r.spec_consts() == consts@,
    {
        ProgramDesc { shape, consts }
    }
}

/// A compiled program.
pub struct Program {
    tape: Tape,
}

impl Program {
    pub closed spec fn spec_tape(&self) -> Tape {
        self.tape
    }

    pub fn tape(&self) -> (r: &Tape)
        ensures
            *r == self.spec_tape(),
    {
        &self.tape
    }

    pub fn into_tape(self) -> (r: Tape)
        ensures
            r == self.spec_tape(),
    {
        self.tape
    }

    /// The program that computes the value of `self` and then its partial derivative by
    /// each argument.
    pub fn autodiff(&self) -> (r: Program)
        requires
            differentiable(self.spec_tape()),
        ensures
            r.spec_tape().wf(),
            r.spec_tape().spec_args() == self.spec_tape().spec_args(),
            r.spec_tape().spec_results() == f32_args(1 + self.spec_tape().spec_args().len()),
            gradient_shape(self.spec_tape(), r.spec_tape()),
            r.spec_tape().spec_instrs() == gradient_instrs(self.spec_tape()),
            translatable(self.spec_tape()) && 2 * (1 + self.spec_tape().spec_args().len()) <= 255 && 2
                * self.spec_tape().spec_args().len() + 32 * r.spec_tape().spec_instrs().len() + 2 * (1
                + self.spec_tape().spec_args().len()) < u16::MAX ==> translatable(r.spec_tape()),
    {
        Program { tape: autodiff(&self.tape) }
    }

    /// The program over ranges: each argument and each result becomes its lower and upper
    /// bound, each value translated by its interval rule (`translated`).
    pub fn interval(&self) -> (r: Program)
        requires
            translatable(self.spec_tape()),
        ensures
            r.spec_tape().wf(),
            r.spec_tape().spec_args() == f32_args(2 * self.spec_tape().spec_args().len()),
            r.spec_tape().spec_results() == f32_args(2 * self.spec_tape().spec_results().len()),
            exists|values: Seq<RangeValue>| #[trigger] translated(self.spec_tape(), r.spec_tape().spec_instrs(), values),
    {
        Program { tape: translate(&self.tape) }
    }
}

proof fn lemma_least_index(names: Seq<Seq<char>>, name: Seq<char>, i: int)
    requires
        0 <= i < names.len(),
        names[i] == name,
    ensures
        exists|k: int| 0 <= k < names.len() && #[trigger] names[k] == name && forall|j: int| 0 <= j < k ==> names[j] != name,
    decreases i,
{
    if exists|j: int| 0 <= j < i && names[j] == name {
        let j = choose|j: int| 0 <= j < i && names[j] == name;
        lemma_least_index(names, name, j);
    } else {
        assert(names[i] == name);
    }
}

/// Law: in a compiled program, a variable that names constant `i` of the shape is the
/// `f32` of the bits `consts[i]` that the description gives that constant, whichever
/// other constants there are.
pub proof fn law_constant_value<C: FnMut(Span) -> u32>(
    parsed: &Parsed,
    shape: &ProgramShape,
    consts: Seq<u32>,
    tape: Tape,
    float_bits: C,
    v: Validated,
    ids: Seq<ValueId>,
    k: int,
    i: int,
)
    requires
        shape.wf(),
        validated_from(parsed, shape, v),
        lowered(&v, tape.spec_instrs(), v.num_inputs as int, ids, consts, float_bits),
        0 <= k < ids.len(),
        0 <= i < shape.spec_consts().len(),
        parsed.spec_ast()@[k].kind matches ExprKind::Var(sym) && parsed.spec_interner()@[sym.0 as int]
            == shape.spec_consts()[i],
    ensures
        made_by(tape.spec_instrs(), v.num_inputs as int, ids[k], Instr::F32Const(consts[i])),
{
    let inputs = shape.spec_inputs();
    let names = shape.spec_consts();
    let all = all_names(inputs, names);
    let m = inputs.len() as int;
    let name = names[i];
    assert forall|p: int| 0 <= p < inputs.len() implies inputs[p] != name by {
        assert(all[p] == inputs[p]);
        assert(all[m + i] == name);
        assert(all[p] != all[m + i]);
    }
    assert(first_index(inputs, name) is None);
    lemma_first_index_distinct(inputs, names, i);
    assert(resolve_var(inputs, names, name) == Some(VarSlot::Const(i as u32)));
    assert(crate::lower::computes(&v, tape.spec_instrs(), v.num_inputs as int, ids, k, ids[k], consts, float_bits));
}

/// Among distinct names, the first index of the name at `j` is `j`.
proof fn lemma_first_index_distinct(inputs: Seq<Seq<char>>, names: Seq<Seq<char>>, j: int)
    requires
        distinct(all_names(inputs, names)),
        0 <= j < names.len(),
    ensures
        first_index(names, names[j]) == Some(j as usize),
{
    let all = all_names(inputs, names);
    let m = inputs.len() as int;
    assert forall|k: int| 0 <= k < names.len() && k != j implies names[k] != names[j] by {
        assert(all[m + k] == names[k]);
        assert(all[m + j] == names[j]);
        if k < j {
            assert(all[m + k] != all[m + j]);
        } else {
            assert(all[m + j] != all[m + k]);
        }
    }
    assert(0 <= j < names.len() && names[j] == names[j] && forall|k: int| 0 <= k < j ==> names[k] != names[j]);
    let i = choose|i: int| 0 <= i < names.len() && names[i] == names[j] && forall|k: int| 0 <= k < i ==> names[k] != names[j];
    assert(i == j);
}

proof fn lemma_first_index_bound(names: Seq<Seq<char>>, name: Seq<char>)
    requires
        names.len() < u32::MAX,
    ensures
        first_index(names, name) matches Some(i) ==> i < names.len(),
{
    if exists|i: int| 0 <= i < names.len() && names[i] == name {
        let w = choose|i: int| 0 <= i < names.len() && names[i] == name;
        lemma_least_index(names, name, w);
    }
}

proof fn lemma_no_errors(nodes: Seq<Expr>)
    requires
        count_errors(nodes) == 0,
    ensures
        forall|k: int| 0 <= k < nodes.len() ==> !is_error(#[trigger] nodes[k]),
    decreases nodes.len(),
{
    if nodes.len() > 0 {
        lemma_no_errors(nodes.drop_last());
        assert forall|k: int| 0 <= k < nodes.len() implies !is_error(#[trigger] nodes[k]) by {
            if k < nodes.len() - 1 {
                assert(nodes[k] == nodes.drop_last()[k]);
            }
        }
    }
}

proof fn lemma_no_problems(
    nodes: Seq<Expr>,
    names: Seq<Seq<char>>,
    inputs: Seq<Seq<char>>,
    consts: Seq<Seq<char>>,
    n: int,
)
    requires
        problems(nodes, names, inputs, consts, n).len() == 0,
    ensures
        forall|k: int| 0 <= k < n ==> !#[trigger] is_problem(nodes, names, inputs, consts, k),
    decreases n,
{
    if n > 0 {
        lemma_no_problems(nodes, names, inputs, consts, n - 1);
    }
}

/// `d` holds the diagnostics of parsing, `parse_diags`, then those of validating `parsed`
/// against `shape`.
pub open spec fn parse_error_diagnostics(
    d: Seq<Diagnostic>,
    parse_diags: Seq<Diagnostic>,
    parsed: &Parsed,
    shape: &ProgramShape,
) -> bool {
    &&& d.len() >= parse_diags.len()
    &&& forall|i: int| 0 <= i < parse_diags.len() ==> same_diagnostic(#[trigger] d[i], parse_diags[i])
    &&& validation_diagnostics(parsed, shape, d.skip(parse_diags.len() as int))
}

/// The tree parsed with the diagnostics `parse_diags` compiles: no diagnostics, and no
/// problems against the shape.
pub open spec fn compiles(parsed: &Parsed, parse_diags: Seq<Diagnostic>, shape: &ProgramShape) -> bool {
    let nodes = parsed.spec_ast()@;
    &&& parse_diags.len() == 0
    &&& problems(nodes, parsed.spec_interner()@, shape.spec_inputs(), shape.spec_consts(), nodes.len() as int).len()
        == 0
}

/// `r` is what compiling the tree `parsed`, reported with `parse_diags`, owes for `desc`:
/// a parse error with the parse diagnostics, then the validation ones, when there are
/// parse diagnostics; else a validation error with the validation diagnostics when
/// validation fails; else a program over the shape's inputs with one `f32` result.
pub open spec fn compile_outcome<C: FnMut(Span) -> u32>(
    r: Result<Program, CompileError>,
    parsed: &Parsed,
    parse_diags: Seq<Diagnostic>,
    desc: &ProgramDesc,
    float_bits: C,
) -> bool {
    &&& parse_diags.len() > 0 ==> (r matches Err(CompileError::Parse(e)) && parse_error_diagnostics(
        e.spec_diagnostics(),
        parse_diags,
        parsed,
        desc.spec_shape(),
    ))
    &&& parse_diags.len() == 0 && !compiles(parsed, parse_diags, desc.spec_shape()) ==> (r matches Err(
        CompileError::Validate(e),
    ) && validation_diagnostics(parsed, desc.spec_shape(), e.spec_diagnostics()))
    &&& compiles(parsed, parse_diags, desc.spec_shape()) ==> (r matches Ok(p) && p.spec_tape().wf()
        && p.spec_tape().spec_args() == f32_args(desc.spec_shape().spec_inputs().len())
        && p.spec_tape().spec_results() == seq![Type::F32] && compiled_from(parsed, desc.spec_shape(), desc.spec_consts(), p.spec_tape(), float_bits))
}

/// `v` is what validating `parsed` against `shape` gives: the same tree, the shape's
/// inputs and constants, each node's type, and each variable's slot.
pub open spec fn validated_from(parsed: &Parsed, shape: &ProgramShape, v: Validated) -> bool {
    let nodes = parsed.spec_ast()@;
    let names = parsed.spec_interner()@;
    &&& v.ast == parsed.spec_ast()
    &&& v.num_inputs == shape.spec_inputs().len()
    &&& strings_view(v.consts@) == shape.spec_consts()
    &&& v.vars.spec_map().len() == nodes.len()
    &&& v.ty.spec_map().len() == nodes.len()
    &&& forall|k: int| 0 <= k < nodes.len() ==> #[trigger] v.ty.spec_map()[k] == node_type(nodes, k)
    &&& forall|k: int|
        0 <= k < nodes.len() ==> #[trigger] v.vars.spec_map()[k] == match nodes[k].kind {
            ExprKind::Var(sym) => resolve_var(shape.spec_inputs(), shape.spec_consts(), names[sym.0 as int]),
            _ => None,
        }
}

/// `tape` computes the tree `parsed`, validated against `shape`: each node by its
/// instruction (`lowered`), constant `i` being the `f32` of bits `consts[i]`, the result
/// being the root as an `f32` (`result_is`).
pub open spec fn compiled_from<C: FnMut(Span) -> u32>(
    parsed: &Parsed,
    shape: &ProgramShape,
    consts: Seq<u32>,
    tape: Tape,
    float_bits: C,
) -> bool {
    exists|v: Validated, ids: Seq<ValueId>|
        #[trigger] validated_from(parsed, shape, v) && #[trigger] lowered(&v, tape.spec_instrs(), v.num_inputs as int, ids, consts, float_bits)
            && result_is(tape.spec_instrs(), v.num_inputs as int, ids.last(), node_type(v.ast@, ids.len() - 1))
}

/// Compiles the tree `parsed`, which parsing reported with `parse_diags`: a parse error
/// with the parse diagnostics, then the validation ones, when there are parse
/// diagnostics; else a validation error when validation fails; else the program. A
/// float literal is the `f32` whose bits `float_bits` gives for its span.
pub fn compile_parsed<C>(desc: &ProgramDesc, parsed: &Parsed, parse_diags: Vec<Diagnostic>, float_bits: C) -> (r: Result<
    Program,
    CompileError,
>) where C: FnMut(Span) -> u32
    requires
        desc.wf(),
        parsed.spec_ast().wf(),
        forall|k: int|
            0 <= k < parsed.spec_ast()@.len() ==> sym_ok(#[trigger] parsed.spec_ast()@[k], parsed.spec_interner()@.len()),
        fresh(parsed.spec_ast()@.drop_last(), parsed.spec_ast()@.last()),
        parse_diags@.len() == count_errors(parsed.spec_ast()@),
        desc.spec_shape().spec_inputs().len() + 3 * parsed.spec_ast()@.len() + 2 < u16::MAX,
        forall|sp: Span| call_requires(float_bits, (sp,)),
    ensures
        compile_outcome(r, parsed, parse_diags@, desc, float_bits),
{
    let shape = desc.shape;
    let validated = parsed.validate(shape);
    if parse_diags.len() > 0 {
        let mut diagnostics = parse_diags;
        let ghost first = diagnostics@;
        let ghost mut vd: Seq<Diagnostic> = Seq::empty();
        match &validated {
            Err(error) => {
                extend_diagnostics(&mut diagnostics, error.diagnostics());
                proof {
                    vd = error.spec_diagnostics();
                }
            },
            Ok(_) => {},
        }
        assert(validation_diagnostics(parsed, shape, vd));
        assert(concatenated(diagnostics@, first, vd));
        let error = ParseError::new(diagnostics);
        assert(first == parse_diags@);
        assert(concatenated(error.spec_diagnostics(), parse_diags@, vd));
        assert(validation_diagnostics(parsed, desc.spec_shape(), vd));
        proof {
            let d = error.spec_diagnostics();
            let n = parse_diags@.len() as int;
            assert forall|j: int| 0 <= j < d.skip(n).len() implies same_diagnostic(#[trigger] d.skip(n)[j], vd[j]) by {
                assert(d.skip(n)[j] == d[n + j]);
            }
        }
        return Err(CompileError::Parse(error));
    }
    let validated = match validated {
        Ok(v) => v,
        Err(error) => {
            return Err(CompileError::Validate(error));
        },
    };
    let ghost nodes = parsed.spec_ast()@;
    let ghost names = parsed.spec_interner()@;
    proof {
        lemma_no_errors(nodes);
        lemma_no_problems(nodes, names, shape.spec_inputs(), shape.spec_consts(), nodes.len() as int);
        assert forall|k: int| 0 <= k < nodes.len() implies !((#[trigger] nodes[k]).kind is Error) by {
            assert(!is_error(nodes[k]));
        }
        assert forall|k: int| 0 <= k < nodes.len() && (#[trigger] nodes[k]).kind is Var implies match validated.vars.spec_map()[k] {
            Some(VarSlot::Input(i)) => i < validated.num_inputs,
            Some(VarSlot::Const(i)) => i < validated.consts@.len(),
            None => false,
        } by {
            assert(!is_problem(nodes, names, shape.spec_inputs(), shape.spec_consts(), k));
            if let ExprKind::Var(sym) = nodes[k].kind {
                lemma_first_index_bound(shape.spec_inputs(), names[sym.0 as int]);
                lemma_first_index_bound(shape.spec_consts(), names[sym.0 as int]);
            }
        }
        assert forall|k: int| 0 <= k < nodes.len() implies match (#[trigger] nodes[k]).kind {
            ExprKind::Intrinsic(f, args) => args.end - args.start == f.spec_num_args(),
            _ => true,
        } by {
            assert(!is_problem(nodes, names, shape.spec_inputs(), shape.spec_consts(), k));
        }
        assert(lowerable(&validated));
    }
    let consts = &desc.consts;
    let resolve_const = |name: &str| -> (bits: u32)
        requires
            shape.spec_consts().contains(name@),
            consts@.len() == shape.spec_consts().len(),
        ensures
            first_index(shape.spec_consts(), name@) matches Some(i) && bits == consts@[i as int],
        {
            let index = shape.const_index(name);
            proof {
                lemma_first_index_bound(shape.spec_consts(), name@);
            }
            match index {
                Some(i) => consts[i],
                None => vstd::pervasive::unreached(),
            }
        };
    let ghost v = validated;
    let tape = validated.lower_to_ir(resolve_const, float_bits);
    proof {
        assert(validated_from(parsed, shape, v));
        let (ids, cb, names) = choose|ids: Seq<ValueId>, cb: Seq<u32>, names: Seq<&str>|
            #![trigger lowered(&v, tape.spec_instrs(), v.num_inputs as int, ids, cb, float_bits), names.len()]
            lowered(&v, tape.spec_instrs(), v.num_inputs as int, ids, cb, float_bits) && result_is(
                tape.spec_instrs(),
                v.num_inputs as int,
                ids.last(),
                node_type(v.ast@, ids.len() - 1),
            ) && cb.len() == v.consts@.len() && names.len() == cb.len() && forall|j: int|
                0 <= j < cb.len() ==> (#[trigger] names[j])@ == strings_view(v.consts@)[j] && call_ensures(
                    resolve_const,
                    (names[j],),
                    cb[j],
                );
        assert forall|j: int| 0 <= j < cb.len() implies cb[j] == consts@[j] by {
            assert(names[j]@ == strings_view(v.consts@)[j]);
            lemma_first_index_distinct(shape.spec_inputs(), shape.spec_consts(), j);
        }
        assert(cb =~= consts@);
        assert(compiled_from(parsed, shape, desc.spec_consts(), tape, float_bits));
    }
    Ok(Program { tape })
}

impl Program {
    /// Parses `source` and compiles it for `desc` (see `compile_parsed`).
    pub fn compile<C>(desc: &ProgramDesc, source: &str, float_bits: C) -> (r: Result<Program, CompileError>) where
        C: FnMut(Span) -> u32,

        requires
            desc.wf(),
            byte_len(source@) < max_source_len(),
            desc.spec_shape().spec_inputs().len() + 6 * source@.len() + 14 < u16::MAX,
            forall|sp: Span| call_requires(float_bits, (sp,)),
        ensures
            r matches Ok(p) ==> p.spec_tape().wf() && p.spec_tape().spec_args() == f32_args(
                desc.spec_shape().spec_inputs().len(),
            ) && p.spec_tape().spec_results() == seq![Type::F32],
            r matches Err(e) ==> e.spec_diagnostics().len() > 0,
            exists|parsed: Parsed, parse_diags: Seq<Diagnostic>|
                parses_to(source@, parsed, parse_diags) && #[trigger] compile_outcome(r, &parsed, parse_diags, desc, float_bits),
    {
        let (parsed, diagnostics) = parse(source);
        let ghost pd = diagnostics@;
        let r = compile_parsed(desc, &parsed, diagnostics, float_bits);
        proof {
            assert(parses_to(source@, parsed, pd) && compile_outcome(r, &parsed, pd, desc, float_bits));
        }
        r
    }
}

} // verus!
