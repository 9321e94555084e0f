//! Checking a parsed expression against the variables of a program: every variable must
//! be an input or a constant, and every intrinsic must get its number of arguments.
//! The checked tree also gets the type of each node.
use vstd::prelude::*;
use vstd::string::StringExecFns;
use crate::ast::{Ast, BinOp, ExprId, ExprKind, Expr, Value, arena_wf, count_errors};
use crate::diag::Diagnostic;
use crate::interner::Interner;
use crate::parser::{parse, sym_ok, max_source_len, Parsed};
use crate::grammar::{grammar_tree, root_tree};
use crate::lexed::lexed;
use crate::token::Token;
use crate::text::byte_len;

verus! {

broadcast use vstd::seq_lib::group_seq_properties;

/// The digits of `n` in base ten.
pub open spec fn decimal_string(n: nat) -> Seq<char>
    decreases n,
{
    if n < 10 {
        seq![(48 + n) as char]
    } else {
        decimal_string(n / 10) + seq![(48 + n % 10) as char]
    }
}

fn digit_str(d: usize) -> (r: &'static str)
    requires
        d < 10,
    ensures
        r@ == seq![(48 + d) as char],
{
    proof {
        reveal_strlit("0");
        reveal_strlit("1");
        reveal_strlit("2");
        reveal_strlit("3");
        reveal_strlit("4");
        reveal_strlit("5");
        reveal_strlit("6");
        reveal_strlit("7");
        reveal_strlit("8");
        reveal_strlit("9");
    }
    match d {
        0 => "0",
        1 => "1",
        2 => "2",
        3 => "3",
        4 => "4",
        5 => "5",
        6 => "6",
        7 => "7",
        8 => "8",
        _ => "9",
    }
}

/// Appends the decimal digits of `n`.
pub fn append_decimal(out: &mut String, n: usize)
    ensures
        final(out)@ == old(out)@ + decimal_string(n as nat),
    decreases n,
{
    if n >= 10 {
        append_decimal(out, n / 10);
    }
    out.append(digit_str(n % 10));
    proof {
        if n < 10 {
            assert(n % 10 == n);
        }
    }
}

/// The parse diagnostics of a failed compilation.
#[derive(Debug)]
pub struct ParseError {
    diagnostics: Vec<Diagnostic>,
}

impl ParseError {
    pub closed spec fn spec_diagnostics(&self) -> Seq<Diagnostic> {
        self.diagnostics@
    }

    pub fn new(diagnostics: Vec<Diagnostic>) -> (r: ParseError)
        ensures
            r.spec_diagnostics() == diagnostics@,
    {
        ParseError { diagnostics }
    }

    pub fn diagnostics(&self) -> (r: &[Diagnostic])
        ensures
            r@ == self.spec_diagnostics(),
    {
        self.diagnostics.as_slice()
    }
}

/// The validation diagnostics of a failed compilation.
#[derive(Debug)]
pub struct ValidateError {
    diagnostics: Vec<Diagnostic>,
}

impl ValidateError {
    pub closed spec fn spec_diagnostics(&self) -> Seq<Diagnostic> {
        self.diagnostics@
    }

    pub fn new(diagnostics: Vec<Diagnostic>) -> (r: ValidateError)
        ensures
            r.spec_diagnostics() == diagnostics@,
    {
        ValidateError { diagnostics }
    }

    pub fn diagnostics(&self) -> (r: &[Diagnostic])
        ensures
            r@ == self.spec_diagnostics(),
    {
        self.diagnostics.as_slice()
    }
}

/// Why an expression did not compile.
#[derive(Debug)]
pub enum CompileError {
    Parse(ParseError),
    Validate(ValidateError),
}

impl CompileError {
    pub open spec fn spec_diagnostics(&self) -> Seq<Diagnostic> {
        match self {
            CompileError::Parse(e) => e.spec_diagnostics(),
            CompileError::Validate(e) => e.spec_diagnostics(),
        }
    }

    pub fn diagnostics(&self) -> (r: &[Diagnostic])
        ensures
            r@ == self.spec_diagnostics(),
    {
        match self {
            CompileError::Parse(error) => error.diagnostics(),
            CompileError::Validate(error) => error.diagnostics(),
        }
    }
}

/// A program could not be instantiated.
#[derive(Debug)]
pub struct InstantiateError(pub ());

/// The names of a program's inputs and of its constants, all distinct.
#[derive(Debug)]
pub struct ProgramShape {
    inputs: Vec<String>,
    consts: Vec<String>,
}

/// The names of the inputs then the constants.
pub open spec fn all_names(inputs: Seq<Seq<char>>, consts: Seq<Seq<char>>) -> Seq<Seq<char>> {
    inputs + consts
}

pub open spec fn distinct(names: Seq<Seq<char>>) -> bool {
    forall|i: int, j: int| 0 <= i < j < names.len() ==> names[i] != names[j]
}

pub open spec fn strings_view(v: Seq<String>) -> Seq<Seq<char>> {
    v.map_values(|s: String| s@)
}

impl ProgramShape {
    pub closed spec fn spec_inputs(&self) -> Seq<Seq<char>> {
        strings_view(self.inputs@)
    }

    pub closed spec fn spec_consts(&self) -> Seq<Seq<char>> {
        strings_view(self.consts@)
    }

    pub open spec fn wf(&self) -> bool {
        &&& distinct(all_names(self.spec_inputs(), self.spec_consts()))
        &&& self.spec_inputs().len() < u32::MAX
        &&& self.spec_consts().len() < u32::MAX
    }

    pub fn builder() -> (r: ShapeBuilder)
        ensures
            r.spec_inputs() == Seq::<Seq<char>>::empty(),
            r.spec_consts() == Seq::<Seq<char>>::empty(),
    {
        let r = ShapeBuilder { inputs: Vec::new(), consts: Vec::new() };
        assert(strings_view(r.inputs@) =~= Seq::<Seq<char>>::empty());
        assert(strings_view(r.consts@) =~= Seq::<Seq<char>>::empty());
        r
    }

    pub fn num_inputs(&self) -> (r: usize)
        ensures
            r == self.spec_inputs().len(),
    {
        self.inputs.len()
    }

    pub fn num_consts(&self) -> (r: usize)
        ensures
            r == self.spec_consts().len(),
    {
        self.consts.len()
    }

    /// The name of the constant with index `index`.
    pub fn const_name(&self, index: usize) -> (r: &str)
        requires
            index < self.spec_consts().len(),
        ensures
            r@ == self.spec_consts()[index as int],
    {
        self.consts[index].as_str()
    }

    /// The index among the inputs of the first input named `name`.
    pub fn input_index(&self, name: &str) -> (r: Option<usize>)
        ensures
            r == first_index(self.spec_inputs(), name@),
    {
        find(&self.inputs, name)
    }

    /// The index among the constants of the first constant named `name`.
    pub fn const_index(&self, name: &str) -> (r: Option<usize>)
        ensures
            r == first_index(self.spec_consts(), name@),
    {
        find(&self.consts, name)
    }
}

/// The first index at which `name` occurs in `names`.
pub open spec fn first_index(names: Seq<Seq<char>>, name: Seq<char>) -> Option<usize> {
    if exists|i: int| 0 <= i < names.len() && names[i] == name {
        let i = choose|i: int|
            0 <= i < names.len() && names[i] == name && forall|j: int| 0 <= j < i ==> names[j] != name;
        Some(i as usize)
    } else {
        None
    }
}

fn find(names: &Vec<String>, name: &str) -> (r: Option<usize>)
    ensures
        r == first_index(strings_view(names@), name@),
{
    let ghost view = strings_view(names@);
    let owned = name.to_owned();
    let mut i: usize = 0;
    while i < names.len()
        invariant
            view == strings_view(names@),
            owned@ == name@,
            i <= names@.len(),
            forall|j: int| 0 <= j < i ==> view[j] != name@,
        decreases names@.len() - i,
    {
        if names[i] == owned {
            proof {
                assert(view[i as int] == name@);
                let k = choose|k: int|
                    0 <= k < view.len() && view[k] == name@ && forall|j: int| 0 <= j < k ==> view[j] != name@;
                if k < i {
                    assert(view[k] != name@);
                } else if k > i {
                    assert(view[i as int] != name@);
                }
            }
            return Some(i);
        }
        i = i + 1;
    }
    None
}

/// Builds a program shape one variable at a time.
pub struct ShapeBuilder {
    inputs: Vec<String>,
    consts: Vec<String>,
}

impl ShapeBuilder {
    pub closed spec fn spec_inputs(&self) -> Seq<Seq<char>> {
        strings_view(self.inputs@)
    }

    pub closed spec fn spec_consts(&self) -> Seq<Seq<char>> {
        strings_view(self.consts@)
    }

    pub fn with_input(self, name: &str) -> (r: ShapeBuilder)
        ensures
            r.spec_inputs() == self.spec_inputs().push(name@),
            r.spec_consts() == self.spec_consts(),
    {
        let mut this = self;
        this.inputs.push(name.to_owned());
        assert(strings_view(this.inputs@) =~= self.spec_inputs().push(name@));
        this
    }

    pub fn with_const(self, name: &str) -> (r: ShapeBuilder)
        ensures
            r.spec_consts() == self.spec_consts().push(name@),
            r.spec_inputs() == self.spec_inputs(),
    {
        let mut this = self;
        this.consts.push(name.to_owned());
        assert(strings_view(this.consts@) =~= self.spec_consts().push(name@));
        this
    }

    /// The first variable, inputs then constants, whose name occurs earlier too;
    /// `None` exactly when the names are distinct.
    pub fn first_duplicate(&self) -> (r: Option<String>)
        requires
            self.spec_inputs().len() + self.spec_consts().len() <= usize::MAX,
        ensures
            r is None <==> distinct(all_names(self.spec_inputs(), self.spec_consts())),
            r matches Some(name) ==> all_names(self.spec_inputs(), self.spec_consts()).contains(name@),
    {
        let ghost names = all_names(self.spec_inputs(), self.spec_consts());
        let n_in = self.inputs.len();
        let n = n_in + self.consts.len();
        let mut i: usize = 0;
        while i < n
            invariant
                names == all_names(self.spec_inputs(), self.spec_consts()),
                n_in == self.spec_inputs().len(),
                n == names.len(),
                i <= n,
                distinct(names.take(i as int)),
            decreases n - i,
        {
            let name = if i < n_in { &self.inputs[i] } else { &self.consts[i - n_in] };
            assert(name@ == names[i as int]);
            let mut j: usize = 0;
            while j < i
                invariant
                    names == all_names(self.spec_inputs(), self.spec_consts()),
                    n_in == self.spec_inputs().len(),
                    n == names.len(),
                    i < n,
                    j <= i,
                    name@ == names[i as int],
                    forall|m: int| 0 <= m < j ==> names[m] != names[i as int],
                decreases i - j,
            {
                let prev = if j < n_in { &self.inputs[j] } else { &self.consts[j - n_in] };
                assert(prev@ == names[j as int]);
                if *prev == *name {
                    proof {
                        assert(!distinct(names)) by {
                            assert(names[j as int] == names[i as int]);
                        }
                    }
                    return Some(name.clone());
                }
                j = j + 1;
            }
            proof {
                let t = names.take(i + 1);
                assert forall|a: int, b: int| 0 <= a < b < t.len() implies #[trigger] t[a] != #[trigger] t[b] by {
                    if b < i {
                        assert(names.take(i as int)[a] != names.take(i as int)[b]);
                    }
                }
            }
            i = i + 1;
        }
        assert(names.take(n as int) =~= names);
        None
    }

    /// The shape with these variables, which must be distinct.
    pub fn build(self) -> (r: ProgramShape)
        requires
            distinct(all_names(self.spec_inputs(), self.spec_consts())),
            self.spec_inputs().len() < u32::MAX,
            self.spec_consts().len() < u32::MAX,
        ensures
            r.wf(),
            r.spec_inputs() == self.spec_inputs(),
            r.spec_consts() == self.spec_consts(),
    {
        ProgramShape { inputs: self.inputs, consts: self.consts }
    }
}

/// The names of the calls `calls` of kind `input` (`with_input` for `true`, `with_const`
/// for `false`), in call order.
pub open spec fn names_of_kind(calls: Seq<(bool, Seq<char>)>, input: bool) -> Seq<Seq<char>>
    decreases calls.len(),
{
    if calls.len() == 0 {
        seq![]
    } else {
        let rest = names_of_kind(calls.drop_last(), input);
        if calls.last().0 == input {
            rest.push(calls.last().1)
        } else {
            rest
        }
    }
}

/// Law: a builder that starts empty (`builders[0]`, as `ProgramShape::builder` gives it)
/// and takes the calls `calls` one after the other (`builders[i + 1]` is `builders[i]`
/// after `with_input` or `with_const` of `calls[i]`) gives a shape, `r`, built from the
/// last builder, whose inputs and constants are the names given to each kind of call, in
/// call order.
pub proof fn law_build_in_call_order(builders: Seq<ShapeBuilder>, calls: Seq<(bool, Seq<char>)>, r: ProgramShape)
    requires
        builders.len() == calls.len() + 1,
        builders[0].spec_inputs().len() == 0,
        builders[0].spec_consts().len() == 0,
        forall|i: int|
            0 <= i < calls.len() && calls[i].0 ==> (#[trigger] builders[i + 1]).spec_inputs()
                == builders[i].spec_inputs().push(calls[i].1) && builders[i + 1].spec_consts()
                == builders[i].spec_consts(),
        forall|i: int|
            0 <= i < calls.len() && !calls[i].0 ==> (#[trigger] builders[i + 1]).spec_consts()
                == builders[i].spec_consts().push(calls[i].1) && builders[i + 1].spec_inputs()
                == builders[i].spec_inputs(),
        r.spec_inputs() == builders.last().spec_inputs(),
        r.spec_consts() == builders.last().spec_consts(),
    ensures
        r.spec_inputs() == names_of_kind(calls, true),
        r.spec_consts() == names_of_kind(calls, false),
{
    let n = calls.len() as int;
    lemma_builder_after(builders, calls, n);
    assert(calls.take(n) =~= calls);
    assert(builders.last() == builders[n]);
}

proof fn lemma_builder_after(builders: Seq<ShapeBuilder>, calls: Seq<(bool, Seq<char>)>, n: int)
    requires
        builders.len() == calls.len() + 1,
        0 <= n <= calls.len(),
        builders[0].spec_inputs().len() == 0,
        builders[0].spec_consts().len() == 0,
        forall|i: int|
            0 <= i < calls.len() && calls[i].0 ==> (#[trigger] builders[i + 1]).spec_inputs()
                == builders[i].spec_inputs().push(calls[i].1) && builders[i + 1].spec_consts()
                == builders[i].spec_consts(),
        forall|i: int|
            0 <= i < calls.len() && !calls[i].0 ==> (#[trigger] builders[i + 1]).spec_consts()
                == builders[i].spec_consts().push(calls[i].1) && builders[i + 1].spec_inputs()
                == builders[i].spec_inputs(),
    ensures
        builders[n].spec_inputs() == names_of_kind(calls.take(n), true),
        builders[n].spec_consts() == names_of_kind(calls.take(n), false),
    decreases n,
{
    if n == 0 {
        assert(builders[0].spec_inputs() =~= Seq::<Seq<char>>::empty());
        assert(builders[0].spec_consts() =~= Seq::<Seq<char>>::empty());
    } else {
        lemma_builder_after(builders, calls, n - 1);
        let i = n - 1;
        assert(calls.take(n).drop_last() =~= calls.take(i));
        assert(calls.take(n).last() == calls[i]);
        assert(builders[i + 1] == builders[n]);
    }
}

/// Where a variable's value comes from: the constant or the input with this index.
#[derive(Copy, Clone, PartialEq, Eq, Structural, Debug)]
pub enum VarSlot {
    Const(u32),
    Input(u32),
}

/// The slot of the variable `name`: an input of that name, else a constant of that name.
pub open spec fn resolve_var(inputs: Seq<Seq<char>>, consts: Seq<Seq<char>>, name: Seq<char>) -> Option<VarSlot> {
    match first_index(inputs, name) {
        Some(i) => Some(VarSlot::Input(i as u32)),
        None => match first_index(consts, name) {
            Some(i) => Some(VarSlot::Const(i as u32)),
            None => None,
        },
    }
}

/// The type of a value of the expression language.
#[derive(Copy, Clone, PartialEq, Eq, Structural, Debug)]
pub enum Type {
    I32,
    F32,
}

/// The type of node `k`: sums, differences and products of integers are integers, as
/// are integer literals and what a prefix operator or an error node keeps of an
/// integer; everything else is a float.
pub open spec fn node_type(nodes: Seq<Expr>, k: int) -> Type
    decreases k,
{
    if 0 <= k < nodes.len() {
        match nodes[k].kind {
            ExprKind::UnOp(_, a) => if 0 <= a.0 < k { node_type(nodes, a.0 as int) } else { Type::F32 },
            ExprKind::BinOp(op, a, b) => {
                if (op == BinOp::Add || op == BinOp::Sub || op == BinOp::Mul) && 0 <= a.0 < k && 0 <= b.0 < k
                    && node_type(nodes, a.0 as int) == Type::I32 && node_type(nodes, b.0 as int) == Type::I32 {
                    Type::I32
                } else {
                    Type::F32
                }
            },
            ExprKind::Lit(Value::I32(_)) => Type::I32,
            ExprKind::Error(Some(a)) => if 0 <= a.0 < k { node_type(nodes, a.0 as int) } else { Type::F32 },
            _ => Type::F32,
        }
    } else {
        Type::F32
    }
}

/// Node `k` is a call with the wrong number of arguments, or a variable that is neither
/// an input nor a constant.
pub open spec fn is_problem(
    nodes: Seq<Expr>,
    names: Seq<Seq<char>>,
    inputs: Seq<Seq<char>>,
    consts: Seq<Seq<char>>,
    k: int,
) -> bool {
    match nodes[k].kind {
        ExprKind::Intrinsic(intrinsic, args) => args.end - args.start != intrinsic.spec_num_args(),
        ExprKind::Var(sym) => resolve_var(inputs, consts, names[sym.0 as int]) is None,
        _ => false,
    }
}

/// The indices of the problem nodes among the first `n`, in order.
pub open spec fn problems(
    nodes: Seq<Expr>,
    names: Seq<Seq<char>>,
    inputs: Seq<Seq<char>>,
    consts: Seq<Seq<char>>,
    n: int,
) -> Seq<int>
    decreases n,
{
    if n <= 0 {
        Seq::empty()
    } else {
        let before = problems(nodes, names, inputs, consts, n - 1);
        if is_problem(nodes, names, inputs, consts, n - 1) {
            before.push(n - 1)
        } else {
            before
        }
    }
}

/// The message of the diagnostic for problem node `k`.
pub open spec fn problem_message(
    nodes: Seq<Expr>,
    names: Seq<Seq<char>>,
    k: int,
) -> Seq<char> {
    match nodes[k].kind {
        ExprKind::Intrinsic(intrinsic, args) => seq!['`'] + intrinsic.spec_name() + "` expects "@
            + decimal_string(intrinsic.spec_num_args()) + " argument(s), got "@ + decimal_string(
            (args.end - args.start) as nat,
        ),
        ExprKind::Var(sym) => "unknown variable `"@ + names[sym.0 as int] + seq!['`'],
        _ => Seq::empty(),
    }
}

/// The variable slot of each node: that of the variable, for a variable node.
#[derive(Debug)]
pub struct SparseMap<T> {
    map: Vec<Option<T>>,
}

impl<T> SparseMap<T> {
    pub closed spec fn spec_map(&self) -> Seq<Option<T>> {
        self.map@
    }

    pub fn get(&self, id: ExprId) -> (r: Option<&T>)
        ensures
            (id.0 as int) < self.spec_map().len() && self.spec_map()[id.0 as int] is Some ==> r == Some(
                &self.spec_map()[id.0 as int]->0,
            ),
            !((id.0 as int) < self.spec_map().len() && self.spec_map()[id.0 as int] is Some) ==> r is None,
    {
        let index = id.0 as usize;
        if index < self.map.len() {
            match &self.map[index] {
                Some(value) => Some(value),
                None => None,
            }
        } else {
            None
        }
    }
}

/// A value for each node.
#[derive(Debug)]
pub struct DenseMap<T> {
    map: Vec<T>,
}

impl<T> DenseMap<T> {
    pub closed spec fn spec_map(&self) -> Seq<T> {
        self.map@
    }

    pub fn get(&self, id: ExprId) -> (r: &T)
        requires
            (id.0 as int) < self.spec_map().len(),
        ensures
            *r == self.spec_map()[id.0 as int],
    {
        &self.map[id.0 as usize]
    }
}

/// A tree that passed validation, with the slot of each variable and the type of each node.
pub struct Validated<'a> {
    pub ast: &'a Ast,
    pub num_inputs: u32,
    pub consts: Vec<String>,
    pub vars: SparseMap<VarSlot>,
    pub ty: DenseMap<Type>,
}

impl Parsed {
    /// Checks the tree against `shape`. Fails exactly when some node is a problem
    /// (`is_problem`), with one diagnostic per problem node, in order, at its span.
    pub fn validate<'a>(&'a self, shape: &ProgramShape) -> (r: Result<Validated<'a>, ValidateError>)
        requires
            self.spec_ast().wf(),
            shape.wf(),
            forall|k: int|
                0 <= k < self.spec_ast()@.len() ==> sym_ok(#[trigger] self.spec_ast()@[k], self.spec_interner()@.len()),
        ensures
            ({
                let nodes = self.spec_ast()@;
                let names = self.spec_interner()@;
                let ps = problems(nodes, names, shape.spec_inputs(), shape.spec_consts(), nodes.len() as int);
                match r {
                    Ok(v) => {
                        &&& ps.len() == 0
                        &&& v.ast == self.spec_ast()
                        &&& v.num_inputs == shape.spec_inputs().len()
                        &&& strings_view(v.consts@) == shape.spec_consts()
                        &&& v.vars.spec_map().len() == nodes.len()
                        &&& v.ty.spec_map().len() == nodes.len()
                        &&& forall|k: int| 0 <= k < nodes.len() ==> #[trigger] v.ty.spec_map()[k] == node_type(nodes, k)
                        &&& forall|k: int|
                            0 <= k < nodes.len() ==> #[trigger] v.vars.spec_map()[k] == match nodes[k].kind {
                                ExprKind::Var(sym) => resolve_var(
                                    shape.spec_inputs(),
                                    shape.spec_consts(),
                                    names[sym.0 as int],
                                ),
                                _ => None,
                            }
                    },
                    Err(e) => {
                        &&& ps.len() > 0
                        &&& e.spec_diagnostics().len() == ps.len()
                        &&& forall|j: int|
                            0 <= j < ps.len() ==> {
                                &&& (#[trigger] e.spec_diagnostics()[j]).spec_location() == nodes[ps[j]].span
                                &&& e.spec_diagnostics()[j].spec_message() == problem_message(nodes, names, ps[j])
                            }
                    },
                }
            }),
    {
        let ast = self.ast();
        let interner = self.interner();
        let ghost nodes = ast@;
        let ghost names = interner@;
        let ghost inputs = shape.spec_inputs();
        let ghost consts = shape.spec_consts();
        let n = ast.len();
        let mut diagnostics: Vec<Diagnostic> = Vec::new();
        let mut vars: Vec<Option<VarSlot>> = Vec::new();
        let mut ty: Vec<Type> = Vec::new();
        let mut k: usize = 0;
        while k < n
            invariant
                ast == self.spec_ast(),
                interner == self.spec_interner(),
                nodes == ast@,
                names == interner@,
                inputs == shape.spec_inputs(),
                consts == shape.spec_consts(),
                shape.wf(),
                n == nodes.len(),
                arena_wf(nodes),
                forall|m: int| 0 <= m < nodes.len() ==> sym_ok(#[trigger] nodes[m], names.len()),
                k <= n,
                vars@.len() == k,
                ty@.len() == k,
                forall|m: int| 0 <= m < k ==> #[trigger] ty@[m] == node_type(nodes, m),
                forall|m: int|
                    0 <= m < k ==> #[trigger] vars@[m] == match nodes[m].kind {
                        ExprKind::Var(sym) => resolve_var(inputs, consts, names[sym.0 as int]),
                        _ => None,
                    },
                diagnostics@.len() == problems(nodes, names, inputs, consts, k as int).len(),
                forall|j: int|
                    0 <= j < diagnostics@.len() ==> {
                        let p = problems(nodes, names, inputs, consts, k as int)[j];
                        &&& (#[trigger] diagnostics@[j]).spec_location() == nodes[p].span
                        &&& diagnostics@[j].spec_message() == problem_message(nodes, names, p)
                    },
            decreases n - k,
        {
            let node = ast.get(ExprId(k as u32));
            let ghost before = diagnostics@;
            proof {
                assert(crate::ast::children_before(nodes[k as int], k as int));
            }
            let (slot, t) = match node.kind {
                ExprKind::UnOp(_, a) => (None, ty[a.0 as usize]),
                ExprKind::BinOp(op, a, b) => {
                    let (ta, tb) = (ty[a.0 as usize], ty[b.0 as usize]);
                    let is_ring = match op {
                        BinOp::Add | BinOp::Sub | BinOp::Mul => true,
                        BinOp::Div | BinOp::Pow => false,
                    };
                    (None, if is_ring && ta == Type::I32 && tb == Type::I32 { Type::I32 } else { Type::F32 })
                },
                ExprKind::Intrinsic(intrinsic, args) => {
                    let got = (args.end - args.start) as usize;
                    let expected = intrinsic.num_args();
                    if got != expected {
                        let mut message = "`".to_owned();
                        let name = intrinsic.name();
                        message.append(name.as_str());
                        message.append("` expects ");
                        append_decimal(&mut message, expected);
                        message.append(" argument(s), got ");
                        append_decimal(&mut message, got);
                        proof {
                            reveal_strlit("`");
                        }
                        diagnostics.push(Diagnostic::new(message, node.span));
                    }
                    (None, Type::F32)
                },
                ExprKind::Var(sym) => {
                    let name = interner.resolve(sym).unwrap();
                    let slot = match shape.input_index(name) {
                        Some(i) => Some(VarSlot::Input(i as u32)),
                        None => match shape.const_index(name) {
                            Some(i) => Some(VarSlot::Const(i as u32)),
                            None => None,
                        },
                    };
                    if slot.is_none() {
                        let mut message = "unknown variable `".to_owned();
                        message.append(name);
                        message.append("`");
                        proof {
                            reveal_strlit("`");
                        }
                        diagnostics.push(Diagnostic::new(message, node.span));
                    }
                    (slot, Type::F32)
                },
                ExprKind::Lit(Value::I32(_)) => (None, Type::I32),
                ExprKind::Lit(_) => (None, Type::F32),
                ExprKind::Error(Some(a)) => (None, ty[a.0 as usize]),
                ExprKind::Error(None) => (None, Type::F32),
            };
            vars.push(slot);
            ty.push(t);
            proof {
                let ps = problems(nodes, names, inputs, consts, k as int);
                let ps2 = problems(nodes, names, inputs, consts, k + 1);
                assert forall|j: int| 0 <= j < diagnostics@.len() implies {
                    let p = ps2[j];
                    &&& (#[trigger] diagnostics@[j]).spec_location() == nodes[p].span
                    &&& diagnostics@[j].spec_message() == problem_message(nodes, names, p)
                } by {
                    if j < before.len() {
                        assert(diagnostics@[j] == before[j]);
                        assert(ps2[j] == ps[j]);
                    }
                }
            }
            k = k + 1;
        }
        if diagnostics.len() > 0 {
            return Err(ValidateError { diagnostics });
        }
        let consts = clone_strings(&shape.consts);
        Ok(Validated {
            ast,
            num_inputs: shape.inputs.len() as u32,
            consts,
            vars: SparseMap { map: vars },
            ty: DenseMap { map: ty },
        })
    }
}

fn clone_strings(v: &Vec<String>) -> (r: Vec<String>)
    ensures
        strings_view(r@) == strings_view(v@),
{
    let mut out: Vec<String> = Vec::new();
    let mut i: usize = 0;
    while i < v.len()
        invariant
            i <= v@.len(),
            out@.len() == i,
            forall|j: int| 0 <= j < i ==> (#[trigger] out@[j])@ == v@[j]@,
        decreases v@.len() - i,
    {
        out.push(v[i].as_str().to_owned());
        i = i + 1;
    }
    assert(strings_view(out@) =~= strings_view(v@));
    out
}

/// Appends copies of `extra` to `out`.
pub fn extend_diagnostics(out: &mut Vec<Diagnostic>, extra: &[Diagnostic])
    ensures
        final(out)@.len() == old(out)@.len() + extra@.len(),
        forall|i: int|
            0 <= i < final(out)@.len() ==> same_diagnostic(
                #[trigger] final(out)@[i],
                if i < old(out)@.len() { old(out)@[i] } else { extra@[i - old(out)@.len()] },
            ),
{
    let ghost start = out@;
    let mut i: usize = 0;
    while i < extra.len()
        invariant
            i <= extra@.len(),
            out@.len() == start.len() + i,
            forall|k: int|
                0 <= k < out@.len() ==> same_diagnostic(
                    #[trigger] out@[k],
                    if k < start.len() { start[k] } else { extra@[k - start.len()] },
                ),
        decreases extra@.len() - i,
    {
        out.push(extra[i].duplicate());
        i = i + 1;
    }
}

/// `a` and `b` have the same message at the same location.
pub open spec fn same_diagnostic(a: Diagnostic, b: Diagnostic) -> bool {
    a.spec_message() == b.spec_message() && a.spec_location() == b.spec_location()
}

/// `d` holds the diagnostics of `first` followed by those of `second`.
pub open spec fn concatenated(d: Seq<Diagnostic>, first: Seq<Diagnostic>, second: Seq<Diagnostic>) -> bool {
    &&& d.len() == first.len() + second.len()
    &&& forall|i: int|
        0 <= i < d.len() ==> same_diagnostic(
            #[trigger] d[i],
            if i < first.len() { first[i] } else { second[i - first.len()] },
        )
}

/// The diagnostics of validating `parsed` against `shape`: none when it passes.
pub open spec fn validation_diagnostics(parsed: &Parsed, shape: &ProgramShape, d: Seq<Diagnostic>) -> bool {
    let nodes = parsed.spec_ast()@;
    let names = parsed.spec_interner()@;
    let ps = problems(nodes, names, shape.spec_inputs(), shape.spec_consts(), nodes.len() as int);
    &&& d.len() == ps.len()
    &&& forall|j: int|
        0 <= j < ps.len() ==> {
            &&& (#[trigger] d[j]).spec_location() == nodes[ps[j]].span
            &&& d[j].spec_message() == problem_message(nodes, names, ps[j])
        }
}

/// Parses `source` and validates it against `shape`: the tree, with the diagnostics of
/// parsing followed by those of validation.
pub fn dump_ast(shape: &ProgramShape, source: &str) -> (r: (Parsed, Vec<Diagnostic>))
    requires
        shape.wf(),
        byte_len(source@) < max_source_len(),
    ensures
        r.0.spec_ast().wf(),
        forall|k: int| 0 <= k < r.0.spec_ast()@.len() ==> sym_ok(#[trigger] r.0.spec_ast()@[k], r.0.spec_interner()@.len()),
        r.1@.len() >= count_errors(r.0.spec_ast()@),
        exists|t: Seq<Token>| #[trigger] lexed(source@, t) && root_tree(r.0.spec_ast()@, r.0.spec_interner()@) == grammar_tree(t),
        exists|parse_diags: Seq<Diagnostic>, valid_diags: Seq<Diagnostic>|
            parse_diags.len() == count_errors(r.0.spec_ast()@) && validation_diagnostics(&r.0, shape, valid_diags)
                && #[trigger] concatenated(r.1@, parse_diags, valid_diags),
{
    let (parsed, mut diagnostics) = parse(source);
    let ghost parse_diags = diagnostics@;
    match parsed.validate(shape) {
        Ok(_) => {
            proof {
                assert(validation_diagnostics(&parsed, shape, Seq::<Diagnostic>::empty()));
                assert(concatenated(diagnostics@, parse_diags, Seq::<Diagnostic>::empty()));
            }
        },
        Err(error) => {
            extend_diagnostics(&mut diagnostics, error.diagnostics());
            proof {
                assert(validation_diagnostics(&parsed, shape, error.spec_diagnostics()));
                assert(concatenated(diagnostics@, parse_diags, error.spec_diagnostics()));
            }
        },
    }
    (parsed, diagnostics)
}

} // verus!
