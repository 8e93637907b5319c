//! The inference engine: a symbolic walk over function bodies that
//! propagates abstract string values through bindings and calls, and
//! collects every effect that a declared callee performs.

use vstd::prelude::*;

use crate::ast::{ArgModel, DeclareMacro, Expr, ParseError, SideEffectStmt};
use crate::state::{globhole, rendered, Segment, VariableState};
use crate::syntax::{BodyExpr, ItemFn, Pat, Stmt};

verus! {

/// The view of one binding in a scope.
pub struct BindingModel {
    pub index: int,
    pub name: Seq<char>,
    pub state: Seq<Segment>,
}

/// A binding in a scope: a name, the statement that bound it (parameters
/// count as statement 0), and its value.
#[derive(Debug)]
pub struct VariableMetadata {
    pub variable_name: String,
    pub variable_instance_id: usize,
    pub variable_state: VariableState,
}

impl View for VariableMetadata {
    type V = BindingModel;

    open spec fn view(&self) -> BindingModel {
        BindingModel {
            index: self.variable_instance_id as int,
            name: self.variable_name@,
            state: self.variable_state@,
        }
    }
}

impl VariableMetadata {
    /// A binding of `variable_name` made at statement
    /// `variable_instance_id`.
    pub fn new(
        variable_name: String,
        variable_instance_id: usize,
        variable_state: VariableState,
    ) -> (r: Self)
        ensures
            r@ == (BindingModel {
                index: variable_instance_id as int,
                name: variable_name@,
                state: variable_state@,
            }),
    {
        VariableMetadata { variable_name, variable_instance_id, variable_state }
    }
}

pub open spec fn scope_view(v: Seq<VariableMetadata>) -> Seq<BindingModel> {
    v.map_values(|m: VariableMetadata| m@)
}

pub open spec fn states_view(v: Seq<VariableState>) -> Seq<Seq<Segment>> {
    v.map_values(|s: VariableState| s@)
}

/// The view of a resolved effect.
pub struct EffectModel {
    pub name: Seq<char>,
    pub arguments: Seq<Seq<Segment>>,
}

/// An effect invocation with the abstract values of its arguments.
#[derive(Debug)]
pub struct SideEffect {
    pub name: String,
    pub arguments: Vec<VariableState>,
}

impl View for SideEffect {
    type V = EffectModel;

    open spec fn view(&self) -> EffectModel {
        EffectModel { name: self.name@, arguments: states_view(self.arguments@) }
    }
}

impl SideEffect {
    /// The glob text of each argument, in order.
    pub fn rendered_arguments(&self) -> (r: Vec<String>)
        ensures
            r@.len() == self.arguments@.len(),
            forall|i: int| 0 <= i < r@.len() ==> #[trigger] r@[i]@ == rendered(self.arguments@[i]@),
    {
        let mut r: Vec<String> = Vec::new();
        let mut i: usize = 0;
        while i < self.arguments.len()
            invariant
                i <= self.arguments@.len(),
                r@.len() == i,
                forall|k: int| 0 <= k < i ==> #[trigger] r@[k]@ == rendered(self.arguments@[k]@),
            decreases self.arguments@.len() - i,
        {
            r.push(globhole(&self.arguments[i]));
            i += 1;
        }
        r
    }
}

pub open spec fn effects_view(v: Seq<SideEffect>) -> Seq<EffectModel> {
    v.map_values(|e: SideEffect| e@)
}

/// A condition that stops the analysis of an entrypoint.
#[derive(Debug)]
pub enum InferError {
    /// The declaration of `function` does not parse.
    Declaration { function: String, error: ParseError },
    /// A binding pattern other than identifiers, tuples of them and `_`.
    UnsupportedPattern { function: String, statement: usize },
    /// A `let` without an initializer.
    UninitializedBinding { function: String, statement: usize },
    /// A reference to a variable that no binding in scope introduces.
    UnresolvedVariable { function: String, statement: usize, name: String },
    /// A name in a declaration that neither an argument nor an earlier
    /// effect's result binds.
    UnresolvedName { function: String, name: String },
    /// A call with fewer arguments than the callee takes.
    MissingArgument { function: String, expected: usize, given: usize },
    /// A call to a function whose inference is already under way.
    Cycle { function: String },
    /// No function carries the entrypoint marker.
    NoEntrypoint,
}

/// A condition that the analysis notes and gets past with an unknown value.
#[derive(Debug)]
pub enum Diagnostic {
    /// An expression of a shape that the analysis does not follow.
    UnsupportedExpression { function: String, statement: usize },
    /// A call to a function that is neither declared nor defined here.
    UnresolvedCallee { function: String, statement: usize, callee: String },
}

/// A function with an effect declaration: its name and the declaration,
/// or where the declaration's text stops matching the grammar.
#[derive(Debug)]
pub struct DeclaredItemFn {
    pub name: String,
    pub declaration: Result<DeclareMacro, ParseError>,
}

/// The declared functions of a program.
#[derive(Debug)]
pub struct DeclarationIndex {
    pub entries: Vec<DeclaredItemFn>,
}

/// The binding that a reference to `name` at statement `at` sees: the last
/// binding of `name` in the scope whose statement is not after `at`.
pub open spec fn lookup(scope: Seq<BindingModel>, name: Seq<char>, at: int) -> Option<int>
    decreases scope.len(),
{
    if scope.len() == 0 {
        None
    } else if scope.last().name == name && scope.last().index <= at {
        Some(scope.len() - 1)
    } else {
        lookup(scope.drop_last(), name, at)
    }
}

/// The bindings of a scope come in the order of their statements.
pub open spec fn ordered_scope(scope: Seq<BindingModel>) -> bool {
    forall|i: int, j: int| 0 <= i < j < scope.len() ==> scope[i].index <= scope[j].index
}

/// Shadowing: in a scope whose bindings come in statement order, a
/// reference to `name` at statement `at` resolves to a binding of `name`
/// from the latest statement not after `at` (and, of several bindings from
/// that statement, to the one made last); with no such binding it does
/// not resolve.
pub proof fn lemma_shadowing(scope: Seq<BindingModel>, name: Seq<char>, at: int)
    requires
        ordered_scope(scope),
    ensures
        match lookup(scope, name, at) {
            Some(k) => {
                &&& 0 <= k < scope.len()
                &&& scope[k].name == name
                &&& scope[k].index <= at
                &&& forall|j: int|
                    0 <= j < scope.len() && j != k && scope[j].name == name && scope[j].index <= at
                        ==> scope[j].index < scope[k].index || (scope[j].index == scope[k].index
                        && j < k)
            },
            None => forall|j: int|
                0 <= j < scope.len() ==> !(scope[j].name == name && scope[j].index <= at),
        },
    decreases scope.len(),
{
    if scope.len() > 0 {
        let d = scope.drop_last();
        assert(ordered_scope(d)) by {
            assert forall|i: int, j: int| 0 <= i < j < d.len() implies d[i].index <= d[j].index by {
                assert(d[i] == scope[i] && d[j] == scope[j]);
            }
        }
        lemma_shadowing(d, name, at);
        if !(scope.last().name == name && scope.last().index <= at) {
            assert forall|j: int| 0 <= j < d.len() implies d[j] == scope[j] by {}
        }
    }
}

/// The last entry of the index for `name`.
pub open spec fn find_declared(entries: Seq<DeclaredItemFn>, name: Seq<char>) -> Option<int>
    decreases entries.len(),
{
    if entries.len() == 0 {
        None
    } else if entries.last().name@ == name {
        Some(entries.len() - 1)
    } else {
        find_declared(entries.drop_last(), name)
    }
}

/// The last function of the program named `name`.
pub open spec fn find_fn(fns: Seq<ItemFn>, name: Seq<char>) -> Option<int>
    decreases fns.len(),
{
    if fns.len() == 0 {
        None
    } else if fns.last().name@ == name {
        Some(fns.len() - 1)
    } else {
        find_fn(fns.drop_last(), name)
    }
}

/// The names that a pattern binds, or `None` for an unsupported pattern.
pub open spec fn pat_names(p: Pat) -> Option<Seq<Seq<char>>>
    decreases p,
{
    match p {
        Pat::Ident(n) => Some(seq![n@]),
        Pat::Wild => Some(Seq::empty()),
        Pat::Tuple(ps) => pats_names(ps@),
        Pat::Other => None,
    }
}

pub open spec fn pats_names(ps: Seq<Pat>) -> Option<Seq<Seq<char>>>
    decreases ps,
{
    if ps.len() == 0 {
        Some(Seq::empty())
    } else {
        match pats_names(ps.drop_last()) {
            None => None,
            Some(a) => match pat_names(ps.last()) {
                None => None,
                Some(b) => Some(a + b),
            },
        }
    }
}

/// The bindings that binding `v` to `p` at statement `index` introduces: a
/// single name takes the value; the names of a tuple pattern stand for
/// parts of a value that is not a string, so each is unknown.
pub open spec fn bind_pattern(p: Pat, v: Seq<Segment>, index: int) -> Option<Seq<BindingModel>> {
    match p {
        Pat::Ident(n) => Some(seq![BindingModel { index, name: n@, state: v }]),
        _ => match pat_names(p) {
            None => None,
            Some(names) => Some(
                names.map_values(
                    |n: Seq<char>| BindingModel { index, name: n, state: seq![Segment::Hole] },
                ),
            ),
        },
    }
}

/// The bindings of the first `n` parameters.
pub open spec fn param_bindings(params: Seq<Pat>, vals: Seq<Seq<Segment>>, n: int) -> Option<Seq<BindingModel>>
    decreases n,
{
    if n <= 0 {
        Some(Seq::empty())
    } else {
        match param_bindings(params, vals, n - 1) {
            None => None,
            Some(a) => match bind_pattern(params[n - 1], vals[n - 1], 0) {
                None => None,
                Some(b) => Some(a + b),
            },
        }
    }
}

/// The scope in which the body of `f` starts when called with `vals`.
pub open spec fn entry_scope(f: ItemFn, vals: Seq<Seq<Segment>>) -> Result<Seq<BindingModel>, InferError> {
    if vals.len() < f.params@.len() {
        Err(
            InferError::MissingArgument {
                function: f.name,
                expected: f.params@.len() as usize,
                given: vals.len() as usize,
            },
        )
    } else {
        match param_bindings(f.params@, vals, f.params@.len() as int) {
            None => Err(InferError::UnsupportedPattern { function: f.name, statement: 0 }),
            Some(b) => Ok(b),
        }
    }
}

/// The value of a declaration's expression in namespace `ns`, or the name
/// that nothing in `ns` binds.
pub open spec fn decl_value(e: Expr, ns: Seq<BindingModel>) -> Result<Seq<Segment>, String>
    decreases e,
{
    match e {
        Expr::LitStr(l) => Ok(seq![Segment::Lit(l.value@)]),
        Expr::Var(v) => match lookup(ns, v.name@, 0) {
            Some(k) => Ok(ns[k].state),
            None => Err(v.name),
        },
        Expr::Add(a) => match decl_value(a.lhs, ns) {
            Err(n) => Err(n),
            Ok(x) => match decl_value(a.rhs, ns) {
                Err(n) => Err(n),
                Ok(y) => Ok(x + y),
            },
        },
    }
}

pub open spec fn decl_values(es: Seq<Expr>, ns: Seq<BindingModel>) -> Result<Seq<Seq<Segment>>, String>
    decreases es.len(),
{
    if es.len() == 0 {
        Ok(Seq::empty())
    } else {
        match decl_values(es.drop_last(), ns) {
            Err(n) => Err(n),
            Ok(vs) => match decl_value(es.last(), ns) {
                Err(n) => Err(n),
                Ok(v) => Ok(vs.push(v)),
            },
        }
    }
}

/// The namespace of a declared call: the name and the alias of each
/// declared argument bound to the value at its position.
pub open spec fn decl_namespace(args: Seq<ArgModel>, vals: Seq<Seq<Segment>>) -> Seq<BindingModel>
    decreases args.len(),
{
    if args.len() == 0 {
        Seq::empty()
    } else {
        let n = args.len() - 1;
        decl_namespace(args.drop_last(), vals) + seq![
            BindingModel { index: 0, name: args[n].binding, state: vals[n] },
            BindingModel { index: 0, name: args[n].name, state: vals[n] },
        ]
    }
}

/// Running effect statements in order: the effects they resolve to and
/// the namespace after them, in which each result binding stands for an
/// unknown value.
pub open spec fn decl_effects(stmts: Seq<SideEffectStmt>, ns: Seq<BindingModel>) -> Result<(Seq<EffectModel>, Seq<BindingModel>), String>
    decreases stmts.len(),
{
    if stmts.len() == 0 {
        Ok((Seq::empty(), ns))
    } else {
        match decl_effects(stmts.drop_last(), ns) {
            Err(n) => Err(n),
            Ok((effs, ns2)) => {
                let st = stmts.last();
                match decl_values(st.side_effect_arguments@, ns2) {
                    Err(n) => Err(n),
                    Ok(vals) => Ok((
                        effs.push(EffectModel { name: st.side_effect_name@, arguments: vals }),
                        match st.binding {
                            Some(b) => ns2.push(BindingModel { index: 0, name: b@, state: seq![Segment::Hole] }),
                            None => ns2,
                        },
                    )),
                }
            },
        }
    }
}

/// A call of the declared function `name` with `vals`: the effects of its
/// declaration and its return value (unknown without a `returns`).
pub open spec fn declared_call(name: String, d: DeclareMacro, vals: Seq<Seq<Segment>>) -> Result<(Seq<EffectModel>, Seq<Segment>), InferError> {
    if vals.len() < d.args.args@.len() {
        Err(
            InferError::MissingArgument {
                function: name,
                expected: d.args.args@.len() as usize,
                given: vals.len() as usize,
            },
        )
    } else {
        match decl_effects(d.side_effects.side_effect_stmts@, decl_namespace(d.args@, vals)) {
            Err(n) => Err(InferError::UnresolvedName { function: name, name: n }),
            Ok((effs, ns)) => match d.returns {
                None => Ok((effs, seq![Segment::Hole])),
                Some(e) => match decl_value(e, ns) {
                    Err(n) => Err(InferError::UnresolvedName { function: name, name: n }),
                    Ok(v) => Ok((effs, v)),
                },
            },
        }
    }
}

/// What a step of the analysis yields: a value or a fatal error, with the
/// effects and the diagnostics it produced before that, in order.
pub struct Outcome<T> {
    pub value: Result<T, InferError>,
    pub effects: Seq<EffectModel>,
    pub notes: Seq<Diagnostic>,
}

pub open spec fn done<T>(v: T) -> Outcome<T> {
    Outcome { value: Ok(v), effects: Seq::empty(), notes: Seq::empty() }
}

pub open spec fn failed<T>(e: InferError) -> Outcome<T> {
    Outcome { value: Err(e), effects: Seq::empty(), notes: Seq::empty() }
}

pub open spec fn noted<T>(v: T, d: Diagnostic) -> Outcome<T> {
    Outcome { value: Ok(v), effects: Seq::empty(), notes: seq![d] }
}

/// `a`'s outputs, then `b`'s; `b`'s value.
pub open spec fn followed_by<A, B>(a: Outcome<A>, b: Outcome<B>) -> Outcome<B> {
    Outcome { value: b.value, effects: a.effects + b.effects, notes: a.notes + b.notes }
}

/// `a`, which stopped at an error, as the outcome of a larger step.
pub open spec fn halted<A, B>(a: Outcome<A>) -> Outcome<B> {
    Outcome { value: Err(a.value->Err_0), effects: a.effects, notes: a.notes }
}

/// How many functions are not being inferred at the moment.
pub open spec fn count_idle(active: Seq<bool>) -> nat
    decreases active.len(),
{
    if active.len() == 0 {
        0
    } else {
        count_idle(active.drop_last()) + if active.last() {
            0nat
        } else {
            1nat
        }
    }
}

pub proof fn lemma_count_idle_update(active: Seq<bool>, g: int)
    requires
        0 <= g < active.len(),
        !active[g],
    ensures
        count_idle(active.update(g, true)) < count_idle(active),
    decreases active.len(),
{
    let u = active.update(g, true);
    if g == active.len() - 1 {
        assert(u.drop_last() =~= active.drop_last());
    } else {
        lemma_count_idle_update(active.drop_last(), g);
        assert(u.drop_last() =~= active.drop_last().update(g, true));
    }
}

/// Inference of function `g` called with `vals`, while the functions
/// marked in `active` are being inferred further up. Calling one of those
/// again is a cycle (as is a position outside `active`, which no call
/// reaches).
pub open spec fn infer_outcome(
    fns: Seq<ItemFn>,
    index: Seq<DeclaredItemFn>,
    g: int,
    vals: Seq<Seq<Segment>>,
    active: Seq<bool>,
) -> Outcome<Seq<Segment>>
    // The measure: functions not under inference, then the phase of the
    // walk (a call, an expression, a statement, a body), then the
    // expression or the number of statements that remain.
    decreases count_idle(active), 0int, BodyExpr::Other, 0int,
{
    if !(0 <= g < active.len()) || active[g] {
        failed(InferError::Cycle { function: fns[g].name })
    } else {
        let inner = active.update(g, true);
        proof {
            lemma_count_idle_update(active, g);
        }
        match entry_scope(fns[g], vals) {
            Err(e) => failed(e),
            Ok(scope) => {
                let body = run_stmts(fns, index, g, inner, scope, fns[g].stmts@.len() as int);
                match body.value {
                    Err(_) => halted(body),
                    Ok(scope2) => followed_by(body, trailing_value(fns, index, g, inner, scope2)),
                }
            },
        }
    }
}

/// The value of the body of `g`: that of its last statement when it is an
/// expression without a semicolon, else unknown.
pub open spec fn trailing_value(
    fns: Seq<ItemFn>,
    index: Seq<DeclaredItemFn>,
    g: int,
    active: Seq<bool>,
    scope: Seq<BindingModel>,
) -> Outcome<Seq<Segment>>
    decreases count_idle(active), 3int, BodyExpr::Other, 0int,
{
    let stmts = fns[g].stmts@;
    let n = stmts.len();
    if n > 0 && stmts[n - 1] is Expr {
        eval_expr(fns, index, g, n as int, scope, stmts[n - 1]->Expr_0, active)
    } else {
        done(seq![Segment::Hole])
    }
}

/// The scope after the first `n` statements of `g`.
pub open spec fn run_stmts(
    fns: Seq<ItemFn>,
    index: Seq<DeclaredItemFn>,
    g: int,
    active: Seq<bool>,
    scope: Seq<BindingModel>,
    n: int,
) -> Outcome<Seq<BindingModel>>
    decreases count_idle(active), 4int, BodyExpr::Other, n,
{
    if n <= 0 {
        done(scope)
    } else {
        let p = run_stmts(fns, index, g, active, scope, n - 1);
        match p.value {
            Err(_) => p,
            Ok(s) => followed_by(p, run_stmt(fns, index, g, active, s, n - 1)),
        }
    }
}

/// Statement `k` of `g` (statement number `k + 1`) run in `scope`: a `let`
/// adds its bindings, a call whose value is discarded still runs, other
/// statements change nothing.
pub open spec fn run_stmt(
    fns: Seq<ItemFn>,
    index: Seq<DeclaredItemFn>,
    g: int,
    active: Seq<bool>,
    scope: Seq<BindingModel>,
    k: int,
) -> Outcome<Seq<BindingModel>>
    decreases count_idle(active), 3int, BodyExpr::Other, 0int,
{
    let at = k + 1;
    let function = fns[g].name;
    match fns[g].stmts@[k] {
        Stmt::Local(_, None) => failed(
            InferError::UninitializedBinding { function, statement: at as usize },
        ),
        Stmt::Local(pat, Some(init)) => {
            let o = eval_expr(fns, index, g, at, scope, init, active);
            match o.value {
                Err(_) => halted(o),
                Ok(v) => match bind_pattern(pat, v, at) {
                    None => followed_by(
                        o,
                        failed(InferError::UnsupportedPattern { function, statement: at as usize }),
                    ),
                    Some(b) => followed_by(o, done(scope + b)),
                },
            }
        },
        Stmt::Semi(e) => if e is Call {
            let o = eval_expr(fns, index, g, at, scope, e, active);
            match o.value {
                Err(_) => halted(o),
                Ok(_) => followed_by(o, done(scope)),
            }
        } else {
            done(scope)
        },
        _ => done(scope),
    }
}

/// The value of expression `e` at statement `at` of `g`.
pub open spec fn eval_expr(
    fns: Seq<ItemFn>,
    index: Seq<DeclaredItemFn>,
    g: int,
    at: int,
    scope: Seq<BindingModel>,
    e: BodyExpr,
    active: Seq<bool>,
) -> Outcome<Seq<Segment>>
    decreases count_idle(active), 2int, e, 0int,
{
    let function = fns[g].name;
    match e {
        BodyExpr::LitStr(v) => done(seq![Segment::Lit(v@)]),
        BodyExpr::Path(n) => match lookup(scope, n@, at) {
            Some(k) => done(scope[k].state),
            None => failed(
                InferError::UnresolvedVariable { function, statement: at as usize, name: n },
            ),
        },
        BodyExpr::Ref(inner) => eval_expr(fns, index, g, at, scope, *inner, active),
        BodyExpr::Call(Some(callee), args) => {
            let a = eval_args(fns, index, g, at, scope, args@, active);
            match a.value {
                Err(_) => halted(a),
                Ok(vals) => followed_by(a, call_outcome(fns, index, g, at, callee, vals, active)),
            }
        },
        _ => noted(
            seq![Segment::Hole],
            Diagnostic::UnsupportedExpression { function, statement: at as usize },
        ),
    }
}

/// The values of argument expressions, left to right.
pub open spec fn eval_args(
    fns: Seq<ItemFn>,
    index: Seq<DeclaredItemFn>,
    g: int,
    at: int,
    scope: Seq<BindingModel>,
    es: Seq<BodyExpr>,
    active: Seq<bool>,
) -> Outcome<Seq<Seq<Segment>>>
    decreases count_idle(active), 2int, es, 0int,
{
    if es.len() == 0 {
        done(Seq::empty())
    } else {
        let p = eval_args(fns, index, g, at, scope, es.drop_last(), active);
        match p.value {
            Err(_) => p,
            Ok(vs) => {
                let o = eval_expr(fns, index, g, at, scope, es.last(), active);
                Outcome {
                    value: match o.value {
                        Ok(v) => Ok(vs.push(v)),
                        Err(x) => Err(x),
                    },
                    effects: p.effects + o.effects,
                    notes: p.notes + o.notes,
                }
            },
        }
    }
}

/// A call of `callee` with `vals` from statement `at` of `g`: through its
/// declaration when it has one, else by inferring its body when it is
/// defined in the program, else an unknown value.
pub open spec fn call_outcome(
    fns: Seq<ItemFn>,
    index: Seq<DeclaredItemFn>,
    g: int,
    at: int,
    callee: String,
    vals: Seq<Seq<Segment>>,
    active: Seq<bool>,
) -> Outcome<Seq<Segment>>
    decreases count_idle(active), 1int, BodyExpr::Other, 0int,
{
    match find_declared(index, callee@) {
        Some(k) => match index[k].declaration {
            Err(pe) => failed(InferError::Declaration { function: index[k].name, error: pe }),
            Ok(d) => match declared_call(index[k].name, d, vals) {
                Err(x) => failed(x),
                Ok((effs, v)) => Outcome { value: Ok(v), effects: effs, notes: Seq::empty() },
            },
        },
        None => match find_fn(fns, callee@) {
            Some(h) => infer_outcome(fns, index, h, vals, active),
            None => noted(
                seq![Segment::Hole],
                Diagnostic::UnresolvedCallee { function: fns[g].name, statement: at as usize, callee },
            ),
        },
    }
}

/// The bindings that a pattern introduces all carry its statement.
pub proof fn lemma_bind_pattern_index(p: Pat, v: Seq<Segment>, at: int)
    ensures
        bind_pattern(p, v, at) matches Some(b) ==> forall|j: int|
            0 <= j < b.len() ==> (#[trigger] b[j]).index == at,
{
}

/// The scope in which a body starts binds every name at statement 0.
pub proof fn lemma_entry_scope_index(f: ItemFn, vals: Seq<Seq<Segment>>)
    ensures
        entry_scope(f, vals) matches Ok(b) ==> forall|j: int|
            0 <= j < b.len() ==> (#[trigger] b[j]).index == 0,
{
    lemma_param_bindings_index(f.params@, vals, f.params@.len() as int);
}

proof fn lemma_param_bindings_index(params: Seq<Pat>, vals: Seq<Seq<Segment>>, n: int)
    ensures
        param_bindings(params, vals, n) matches Some(b) ==> forall|j: int|
            0 <= j < b.len() ==> (#[trigger] b[j]).index == 0,
    decreases n,
{
    if n > 0 {
        lemma_param_bindings_index(params, vals, n - 1);
        lemma_bind_pattern_index(params[n - 1], vals[n - 1], 0);
        if let Some(a) = param_bindings(params, vals, n - 1) {
            if let Some(c) = bind_pattern(params[n - 1], vals[n - 1], 0) {
                assert forall|j: int| 0 <= j < (a + c).len() implies (#[trigger] (a + c)[j]).index
                    == 0 by {
                    if j >= a.len() {
                        assert((a + c)[j] == c[j - a.len()]);
                    } else {
                        assert((a + c)[j] == a[j]);
                    }
                }
            }
        }
    }
}

/// Every scope that the walk of a body builds from a scope of parameters
/// keeps its bindings in statement order, none from a statement not yet
/// reached; so each lookup in the walk follows the shadowing law.
pub proof fn lemma_body_scopes_ordered(
    fns: Seq<ItemFn>,
    index: Seq<DeclaredItemFn>,
    g: int,
    active: Seq<bool>,
    scope: Seq<BindingModel>,
    n: int,
)
    requires
        0 <= n,
        forall|j: int| 0 <= j < scope.len() ==> (#[trigger] scope[j]).index == 0,
    ensures
        run_stmts(fns, index, g, active, scope, n).value matches Ok(sc) ==> {
            &&& ordered_scope(sc)
            &&& forall|j: int| 0 <= j < sc.len() ==> (#[trigger] sc[j]).index <= n
        },
    decreases n,
{
    if n == 0 {
        assert forall|i: int, j: int| 0 <= i < j < scope.len() implies scope[i].index
            <= scope[j].index by {
            assert(scope[i].index == 0 && scope[j].index == 0);
        }
    } else {
        lemma_body_scopes_ordered(fns, index, g, active, scope, n - 1);
        let p = run_stmts(fns, index, g, active, scope, n - 1);
        if let Ok(sc) = p.value {
            let step = run_stmt(fns, index, g, active, sc, n - 1);
            assert(run_stmts(fns, index, g, active, scope, n) == followed_by(p, step));
            let st = fns[g].stmts@[n - 1];
            if let Stmt::Local(pat, Some(init)) = st {
                let o = eval_expr(fns, index, g, n, sc, init, active);
                if let Ok(v) = o.value {
                    lemma_bind_pattern_index(pat, v, n);
                    if let Some(b) = bind_pattern(pat, v, n) {
                        let t = sc + b;
                        assert(step.value == Ok::<Seq<BindingModel>, InferError>(t));
                        assert forall|j: int| 0 <= j < t.len() implies (#[trigger] t[j]).index <= n by {
                            if j >= sc.len() {
                                assert(t[j] == b[j - sc.len()]);
                            } else {
                                assert(t[j] == sc[j]);
                            }
                        }
                        assert forall|i: int, j: int| 0 <= i < j < t.len() implies t[i].index
                            <= t[j].index by {
                            if j >= sc.len() {
                                assert(t[j] == b[j - sc.len()]);
                                if i >= sc.len() {
                                    assert(t[i] == b[i - sc.len()]);
                                } else {
                                    assert(t[i] == sc[i]);
                                }
                            } else {
                                assert(t[i] == sc[i] && t[j] == sc[j]);
                            }
                        }
                    }
                }
            } else {
                assert(step.value is Ok ==> step.value->Ok_0 == sc);
            }
        }
    }
}

pub proof fn lemma_decl_values_stops(es: Seq<Expr>, ns: Seq<BindingModel>, m: int, t: int)
    requires
        0 <= m <= t <= es.len(),
        decl_values(es.take(m), ns) is Err,
    ensures
        decl_values(es.take(t), ns) == decl_values(es.take(m), ns),
    decreases t - m,
{
    if t > m {
        lemma_decl_values_stops(es, ns, m, t - 1);
        assert(es.take(t).drop_last() =~= es.take(t - 1));
    }
}

pub proof fn lemma_decl_effects_stops(stmts: Seq<SideEffectStmt>, ns: Seq<BindingModel>, m: int, t: int)
    requires
        0 <= m <= t <= stmts.len(),
        decl_effects(stmts.take(m), ns) is Err,
    ensures
        decl_effects(stmts.take(t), ns) == decl_effects(stmts.take(m), ns),
    decreases t - m,
{
    if t > m {
        lemma_decl_effects_stops(stmts, ns, m, t - 1);
        assert(stmts.take(t).drop_last() =~= stmts.take(t - 1));
    }
}

pub proof fn lemma_pats_names_stops(ps: Seq<Pat>, m: int, t: int)
    requires
        0 <= m <= t <= ps.len(),
        pats_names(ps.take(m)) is None,
    ensures
        pats_names(ps.take(t)) is None,
    decreases t - m,
{
    if t > m {
        lemma_pats_names_stops(ps, m, t - 1);
        assert(ps.take(t).drop_last() =~= ps.take(t - 1));
    }
}

pub proof fn lemma_param_bindings_stops(params: Seq<Pat>, vals: Seq<Seq<Segment>>, m: int, t: int)
    requires
        0 <= m <= t,
        param_bindings(params, vals, m) is None,
    ensures
        param_bindings(params, vals, t) is None,
    decreases t - m,
{
    if t > m {
        lemma_param_bindings_stops(params, vals, m, t - 1);
    }
}

/// The binding that a reference to `find_var_name` at statement
/// `last_before` sees: the last binding of that name from a statement not
/// after it.
pub fn find_variable_metadata<'a>(
    find_var_name: &String,
    last_before: usize,
    variables: &'a Vec<VariableMetadata>,
) -> (r: Option<&'a VariableMetadata>)
    ensures
        match lookup(scope_view(variables@), find_var_name@, last_before as int) {
            Some(k) => r matches Some(m) && m@ == scope_view(variables@)[k],
            None => r is None,
        },
{
    let ghost scope = scope_view(variables@);
    let mut i = variables.len();
    assert(scope.take(i as int) =~= scope);
    while i > 0
        invariant
            i <= variables@.len(),
            scope == scope_view(variables@),
            lookup(scope, find_var_name@, last_before as int) == lookup(
                scope.take(i as int),
                find_var_name@,
                last_before as int,
            ),
        decreases i,
    {
        assert(scope.take(i as int).drop_last() =~= scope.take(i - 1));
        assert(scope.take(i as int).last() == variables@[i - 1]@);
        let v = &variables[i - 1];
        if v.variable_name == *find_var_name && v.variable_instance_id <= last_before {
            return Some(v);
        }
        i -= 1;
    }
    None
}

/// The names that a binding pattern introduces, or `None` when the
/// pattern is of an unsupported kind.
pub fn extract_variables_from_pat(pat: &Pat) -> (r: Option<Vec<String>>)
    ensures
        match pat_names(*pat) {
            Some(ns) => r matches Some(v) && v@.map_values(|s: String| s@) == ns,
            None => r is None,
        },
    decreases pat,
{
    match pat {
        Pat::Ident(name) => {
            let mut v = Vec::new();
            v.push(name.clone());
            assert(v@.map_values(|s: String| s@) =~= seq![name@]);
            Some(v)
        },
        Pat::Wild => {
            let v: Vec<String> = Vec::new();
            assert(v@.map_values(|s: String| s@) =~= Seq::<Seq<char>>::empty());
            Some(v)
        },
        Pat::Tuple(ps) => {
            let mut names: Vec<String> = Vec::new();
            let n = ps.len();
            let mut i: usize = 0;
            assert(ps@.take(0) =~= Seq::<Pat>::empty());
            while i < n
                invariant
                    *pat == Pat::Tuple(*ps),
                    n == ps@.len(),
                    i <= n,
                    pats_names(ps@.take(i as int)) == Some(names@.map_values(|s: String| s@)),
                decreases n - i,
            {
                assert(ps@.take(i + 1).drop_last() =~= ps@.take(i as int));
                assert(ps@.take(i + 1).last() == ps@[i as int]);
                proof {
                    assert(decreases_to!(*pat => ps@[i as int])) by {
                        assert(decreases_to!(*pat => (*pat)->Tuple_0));
                        assert((*pat)->Tuple_0 == *ps);
                        assert(decreases_to!(*ps => ps@));
                    }
                }
                match extract_variables_from_pat(&ps[i]) {
                    None => {
                        proof {
                            assert(pats_names(ps@.take(i + 1)) is None);
                            lemma_pats_names_stops(ps@, i + 1, n as int);
                            assert(ps@.take(n as int) =~= ps@);
                        }
                        return None;
                    },
                    Some(more) => {
                        let ghost before = names@.map_values(|s: String| s@);
                        let mut j: usize = 0;
                        while j < more.len()
                            invariant
                                j <= more@.len(),
                                names@.map_values(|s: String| s@) == before + more@.map_values(
                                    |s: String| s@,
                                ).take(j as int),
                            decreases more@.len() - j,
                        {
                            let ghost prev = names@;
                            let name = more[j].clone();
                            names.push(name);
                            assert(names@.map_values(|s: String| s@) =~= prev.map_values(
                                |s: String| s@,
                            ).push(more@[j as int]@));
                            assert(more@.map_values(|s: String| s@).take(j + 1) =~= more@.map_values(
                                |s: String| s@,
                            ).take(j as int).push(more@[j as int]@));
                            j += 1;
                            assert(names@.map_values(|s: String| s@) =~= before + more@.map_values(
                                |s: String| s@,
                            ).take(j as int));
                        }
                        assert(more@.map_values(|s: String| s@).take(j as int) =~= more@.map_values(
                            |s: String| s@,
                        ));
                    },
                }
                i += 1;
            }
            assert(ps@.take(n as int) =~= ps@);
            Some(names)
        },
        Pat::Other => None,
    }
}

/// Adds to `variables` the bindings that binding `state` to `pat` at
/// statement `index` introduces; false, with nothing added, when the
/// pattern is unsupported.
fn bind_pattern_at(
    pat: &Pat,
    state: VariableState,
    index: usize,
    variables: &mut Vec<VariableMetadata>,
) -> (r: bool)
    ensures
        match bind_pattern(*pat, state@, index as int) {
            Some(b) => r && scope_view(final(variables)@) == scope_view(old(variables)@) + b,
            None => !r && final(variables)@ == old(variables)@,
        },
{
    let ghost before = scope_view(variables@);
    match pat {
        Pat::Ident(name) => {
            let m = VariableMetadata::new(name.clone(), index, state);
            variables.push(m);
            assert(scope_view(variables@) =~= before + seq![m@]);
            true
        },
        _ => match extract_variables_from_pat(pat) {
            None => false,
            Some(names) => {
                let ghost ns = names@.map_values(|s: String| s@);
                let ghost bs = ns.map_values(
                    |n: Seq<char>| BindingModel { index: index as int, name: n, state: seq![Segment::Hole] },
                );
                let mut j: usize = 0;
                while j < names.len()
                    invariant
                        j <= names@.len(),
                        ns == names@.map_values(|s: String| s@),
                        bs == ns.map_values(
                            |n: Seq<char>| BindingModel { index: index as int, name: n, state: seq![Segment::Hole] },
                        ),
                        scope_view(variables@) == before + bs.take(j as int),
                    decreases names@.len() - j,
                {
                    let m = VariableMetadata::new(names[j].clone(), index, VariableState::hole());
                    let ghost prev = variables@;
                    assert(ns[j as int] == names@[j as int]@);
                    assert(bs[j as int] == m@);
                    variables.push(m);
                    assert(scope_view(variables@) =~= scope_view(prev).push(bs[j as int]));
                    assert(bs.take(j + 1) =~= bs.take(j as int).push(bs[j as int]));
                    j += 1;
                    assert(scope_view(variables@) =~= before + bs.take(j as int));
                }
                assert(bs.take(j as int) =~= bs);
                true
            },
        },
    }
}

/// Appends to `variable_state` the value of the declaration expression
/// `expr` in the namespace `arguments`; on a name that the namespace does
/// not bind, returns that name.
pub fn evaluate_expr(
    expr: &Expr,
    arguments: &Vec<VariableMetadata>,
    variable_state: &mut VariableState,
) -> (r: Result<(), String>)
    ensures
        match decl_value(*expr, scope_view(arguments@)) {
            Ok(v) => r is Ok && final(variable_state)@ == old(variable_state)@ + v,
            Err(n) => r == Err::<(), String>(n),
        },
        old(variable_state)@.len() <= final(variable_state)@.len(),
        final(variable_state)@.take(old(variable_state)@.len() as int) == old(variable_state)@,
    decreases expr,
{
    match expr {
        Expr::LitStr(s) => {
            let addition = VariableState::value(s.value.clone());
            let ext = variable_state.concat(&addition);
            *variable_state = ext;
            assert(variable_state@.take(old(variable_state)@.len() as int) =~= old(variable_state)@);
            Ok(())
        },
        Expr::Var(v) => match find_variable_metadata(&v.name, 0, arguments) {
            Some(m) => {
                let ext = variable_state.concat(&m.variable_state);
                *variable_state = ext;
                assert(variable_state@.take(old(variable_state)@.len() as int) =~= old(variable_state)@);
                Ok(())
            },
            None => Err(v.name.clone()),
        },
        Expr::Add(add) => {
            match evaluate_expr(&add.lhs, arguments, variable_state) {
                Err(n) => return Err(n),
                Ok(()) => {},
            }
            let ghost mid = variable_state@;
            let r = evaluate_expr(&add.rhs, arguments, variable_state);
            assert(mid.take(old(variable_state)@.len() as int) =~= old(variable_state)@);
            assert(variable_state@.take(old(variable_state)@.len() as int) =~= mid.take(
                old(variable_state)@.len() as int,
            ));
            proof {
                if let Ok(x) = decl_value(add.lhs, scope_view(arguments@)) {
                    if let Ok(y) = decl_value(add.rhs, scope_view(arguments@)) {
                        assert(old(variable_state)@ + x + y =~= old(variable_state)@ + (x + y));
                    }
                }
            }
            r
        },
    }
}

/// The value of a declaration expression in the namespace `arguments`.
fn declared_value(expr: &Expr, arguments: &Vec<VariableMetadata>) -> (r: Result<VariableState, String>)
    ensures
        match decl_value(*expr, scope_view(arguments@)) {
            Ok(v) => r matches Ok(x) && x@ == v,
            Err(n) => r == Err::<VariableState, String>(n),
        },
{
    let mut state = VariableState::empty();
    match evaluate_expr(expr, arguments, &mut state) {
        Ok(()) => {
            assert(Seq::<Segment>::empty() + state@ =~= state@);
            Ok(state)
        },
        Err(n) => Err(n),
    }
}

/// A call of the declared function `name` with the values `arguments`:
/// appends one effect to `side_effects` for each effect statement of
/// `declaration`, in order, and returns the value of its `returns`
/// expression (unknown without one). On an error nothing is appended.
pub fn evaluate_declared_fn(
    side_effects: &mut Vec<SideEffect>,
    name: &String,
    declaration: &DeclareMacro,
    arguments: &Vec<VariableState>,
) -> (r: Result<VariableState, InferError>)
    ensures
        match declared_call(*name, *declaration, states_view(arguments@)) {
            Ok((effs, v)) => r matches Ok(x) && x@ == v && effects_view(final(side_effects)@)
                == effects_view(old(side_effects)@) + effs,
            Err(e) => r == Err::<VariableState, InferError>(e) && final(side_effects)@ == old(
                side_effects,
            )@,
        },
{
    let ghost vals = states_view(arguments@);
    let params = &declaration.args.args;
    let n_args = params.len();
    if arguments.len() < n_args {
        return Err(
            InferError::MissingArgument {
                function: name.clone(),
                expected: n_args,
                given: arguments.len(),
            },
        );
    }
    let mut namespace: Vec<VariableMetadata> = Vec::new();
    let mut i: usize = 0;
    assert(declaration.args@.take(0) =~= Seq::<ArgModel>::empty());
    assert(scope_view(namespace@) =~= Seq::<BindingModel>::empty());
    while i < n_args
        invariant
            n_args == params@.len(),
            n_args <= arguments@.len(),
            vals == states_view(arguments@),
            declaration.args@ == params@.map_values(|a: crate::ast::Arg| a@),
            i <= n_args,
            scope_view(namespace@) == decl_namespace(declaration.args@.take(i as int), vals),
        decreases n_args - i,
    {
        let ghost prev = scope_view(namespace@);
        let ghost args_i = declaration.args@.take(i + 1);
        assert(args_i.drop_last() =~= declaration.args@.take(i as int));
        assert(args_i[i as int] == params@[i as int]@);
        let alias = VariableMetadata::new(params[i].arg_binding.clone(), 0, arguments[i].clone());
        let named = VariableMetadata::new(params[i].arg_name.clone(), 0, arguments[i].clone());
        assert(vals[i as int] == arguments@[i as int]@);
        namespace.push(alias);
        namespace.push(named);
        i += 1;
        assert(scope_view(namespace@) =~= decl_namespace(args_i, vals));
    }
    assert(declaration.args@.take(n_args as int) =~= declaration.args@);
    let ghost ns0 = scope_view(namespace@);
    let stmts = &declaration.side_effects.side_effect_stmts;
    let mut produced: Vec<SideEffect> = Vec::new();
    let mut j: usize = 0;
    assert(stmts@.take(0) =~= Seq::<SideEffectStmt>::empty());
    assert(effects_view(produced@) =~= Seq::<EffectModel>::empty());
    while j < stmts.len()
        invariant
            ns0 == decl_namespace(declaration.args@, states_view(arguments@)),
            arguments@.len() >= declaration.args.args@.len(),
            side_effects@ == old(side_effects)@,
            stmts == &declaration.side_effects.side_effect_stmts,
            j <= stmts@.len(),
            decl_effects(stmts@.take(j as int), ns0) == Ok::<(Seq<EffectModel>, Seq<BindingModel>), String>((effects_view(produced@), scope_view(namespace@))),
        decreases stmts@.len() - j,
    {
        let ghost prefix = stmts@.take(j + 1);
        assert(prefix.drop_last() =~= stmts@.take(j as int));
        assert(prefix.last() == stmts@[j as int]);
        let st = &stmts[j];
        let exprs = &st.side_effect_arguments;
        let mut vals_j: Vec<VariableState> = Vec::new();
        let mut k: usize = 0;
        assert(exprs@.take(0) =~= Seq::<Expr>::empty());
        assert(states_view(vals_j@) =~= Seq::<Seq<Segment>>::empty());
        while k < exprs.len()
            invariant
                ns0 == decl_namespace(declaration.args@, states_view(arguments@)),
                arguments@.len() >= declaration.args.args@.len(),
                side_effects@ == old(side_effects)@,
                stmts == &declaration.side_effects.side_effect_stmts,
                j < stmts@.len(),
                *st == stmts@[j as int],
                *exprs == st.side_effect_arguments,
                decl_effects(stmts@.take(j as int), ns0) == Ok::<(Seq<EffectModel>, Seq<BindingModel>), String>((effects_view(produced@), scope_view(namespace@))),
                k <= exprs@.len(),
                decl_values(exprs@.take(k as int), scope_view(namespace@)) == Ok::<Seq<Seq<Segment>>, String>(states_view(vals_j@)),
            decreases exprs@.len() - k,
        {
            assert(exprs@.take(k + 1).drop_last() =~= exprs@.take(k as int));
            assert(exprs@.take(k + 1).last() == exprs@[k as int]);
            match declared_value(&exprs[k], &namespace) {
                Ok(v) => {
                    let ghost prev = vals_j@;
                    vals_j.push(v);
                    assert(states_view(vals_j@) =~= states_view(prev).push(v@));
                },
                Err(n) => {
                    proof {
                        lemma_decl_values_stops(exprs@, scope_view(namespace@), k + 1, exprs@.len() as int);
                        assert(exprs@.take(exprs@.len() as int) =~= exprs@);
                        assert(stmts@.take(j + 1).drop_last() =~= stmts@.take(j as int));
                        assert(decl_effects(stmts@.take(j + 1), ns0) is Err);
                        lemma_decl_effects_stops(stmts@, ns0, j + 1, stmts@.len() as int);
                        assert(stmts@.take(stmts@.len() as int) =~= stmts@);
                    }
                    return Err(InferError::UnresolvedName { function: name.clone(), name: n });
                },
            }
            k += 1;
        }
        assert(exprs@.take(k as int) =~= exprs@);
        let effect = SideEffect { name: st.side_effect_name.clone(), arguments: vals_j };
        let ghost prev_effects = produced@;
        produced.push(effect);
        assert(effects_view(produced@) =~= effects_view(prev_effects).push(effect@));
        match &st.binding {
            Some(b) => {
                let ghost prev_ns = namespace@;
                let m = VariableMetadata::new(b.clone(), 0, VariableState::hole());
                namespace.push(m);
                assert(scope_view(namespace@) =~= scope_view(prev_ns).push(m@));
            },
            None => {},
        }
        j += 1;
    }
    assert(stmts@.take(j as int) =~= stmts@);
    let result = match &declaration.returns {
        None => VariableState::hole(),
        Some(e) => match declared_value(e, &namespace) {
            Ok(v) => v,
            Err(n) => return Err(InferError::UnresolvedName { function: name.clone(), name: n }),
        },
    };
    let ghost before = side_effects@;
    let mut t: usize = 0;
    while t < produced.len()
        invariant
            t <= produced@.len(),
            effects_view(side_effects@) == effects_view(before) + effects_view(produced@).take(t as int),
        decreases produced@.len() - t,
    {
        let ghost prev = side_effects@;
        let e = SideEffect { name: produced[t].name.clone(), arguments: clone_states(&produced[t].arguments) };
        side_effects.push(e);
        assert(effects_view(side_effects@) =~= effects_view(prev).push(produced@[t as int]@));
        t += 1;
        assert(effects_view(produced@).take(t as int) =~= effects_view(produced@).take(t - 1).push(produced@[t - 1]@));
        assert(effects_view(side_effects@) =~= effects_view(before) + effects_view(produced@).take(t as int));
    }
    assert(effects_view(produced@).take(t as int) =~= effects_view(produced@));
    Ok(result)
}

/// A copy of a list of values.
fn clone_states(v: &Vec<VariableState>) -> (r: Vec<VariableState>)
    ensures
        states_view(r@) == states_view(v@),
{
    let mut r: Vec<VariableState> = Vec::new();
    let mut i: usize = 0;
    while i < v.len()
        invariant
            i <= v@.len(),
            states_view(r@) == states_view(v@).take(i as int),
        decreases v@.len() - i,
    {
        let ghost prev = r@;
        let c = v[i].clone();
        r.push(c);
        assert(states_view(r@) =~= states_view(prev).push(v@[i as int]@));
        i += 1;
        assert(states_view(r@) =~= states_view(v@).take(i as int));
    }
    assert(states_view(v@).take(i as int) =~= states_view(v@));
    r
}

/// `r`, with the effects and diagnostics appended between `e0`/`n0` and
/// `e1`/`n1`, is what the outcome `o` describes.
pub open spec fn delivers(
    r: Result<VariableState, InferError>,
    o: Outcome<Seq<Segment>>,
    e0: Seq<SideEffect>,
    e1: Seq<SideEffect>,
    n0: Seq<Diagnostic>,
    n1: Seq<Diagnostic>,
) -> bool {
    &&& emitted(o, e0, e1, n0, n1)
    &&& match o.value {
        Ok(v) => r matches Ok(x) && x@ == v,
        Err(e) => r == Err::<VariableState, InferError>(e),
    }
}

/// The effects and diagnostics appended between `e0`/`n0` and `e1`/`n1`
/// are those of `o`.
pub open spec fn emitted<T>(
    o: Outcome<T>,
    e0: Seq<SideEffect>,
    e1: Seq<SideEffect>,
    n0: Seq<Diagnostic>,
    n1: Seq<Diagnostic>,
) -> bool {
    &&& effects_view(e1) == effects_view(e0) + o.effects
    &&& n1 == n0 + o.notes
}

pub proof fn lemma_eval_args_stops(
    fns: Seq<ItemFn>,
    index: Seq<DeclaredItemFn>,
    g: int,
    at: int,
    scope: Seq<BindingModel>,
    es: Seq<BodyExpr>,
    active: Seq<bool>,
    m: int,
    t: int,
)
    requires
        0 <= m <= t <= es.len(),
        eval_args(fns, index, g, at, scope, es.take(m), active).value is Err,
    ensures
        eval_args(fns, index, g, at, scope, es.take(t), active) == eval_args(
            fns,
            index,
            g,
            at,
            scope,
            es.take(m),
            active,
        ),
    decreases t - m,
{
    if t > m {
        lemma_eval_args_stops(fns, index, g, at, scope, es, active, m, t - 1);
        assert(es.take(t).drop_last() =~= es.take(t - 1));
    }
}

pub proof fn lemma_run_stmts_stops(
    fns: Seq<ItemFn>,
    index: Seq<DeclaredItemFn>,
    g: int,
    active: Seq<bool>,
    scope: Seq<BindingModel>,
    m: int,
    t: int,
)
    requires
        0 <= m <= t,
        run_stmts(fns, index, g, active, scope, m).value is Err,
    ensures
        run_stmts(fns, index, g, active, scope, t) == run_stmts(fns, index, g, active, scope, m),
    decreases t - m,
{
    if t > m {
        lemma_run_stmts_stops(fns, index, g, active, scope, m, t - 1);
    }
}

impl DeclarationIndex {
    /// The position of the last entry for `name`.
    pub fn find(&self, name: &String) -> (r: Option<usize>)
        ensures
            match find_declared(self.entries@, name@) {
                Some(k) => r == Some(k as usize) && 0 <= k < self.entries.len(),
                None => r is None,
            },
    {
        let mut i = self.entries.len();
        assert(self.entries@.take(i as int) =~= self.entries@);
        while i > 0
            invariant
                i <= self.entries@.len(),
                find_declared(self.entries@, name@) == find_declared(self.entries@.take(i as int), name@),
            decreases i,
        {
            assert(self.entries@.take(i as int).drop_last() =~= self.entries@.take(i - 1));
            if self.entries[i - 1].name == *name {
                return Some(i - 1);
            }
            i -= 1;
        }
        None
    }
}

/// The position of the last function named `name`.
pub fn find_item_fn(fns: &Vec<ItemFn>, name: &String) -> (r: Option<usize>)
    ensures
        match find_fn(fns@, name@) {
            Some(k) => r == Some(k as usize) && 0 <= k < fns.len(),
            None => r is None,
        },
{
    let mut i = fns.len();
    assert(fns@.take(i as int) =~= fns@);
    while i > 0
        invariant
            i <= fns@.len(),
            find_fn(fns@, name@) == find_fn(fns@.take(i as int), name@),
        decreases i,
    {
        assert(fns@.take(i as int).drop_last() =~= fns@.take(i - 1));
        if fns[i - 1].name == *name {
            return Some(i - 1);
        }
        i -= 1;
    }
    None
}

/// Inference of function `item_fn` called with `fn_arguments`: binds its
/// parameters, walks its statements in order, and returns the value of its
/// trailing expression. `active` marks the functions whose inference is
/// under way further up; a call back into one of them is a cycle.
pub fn infer_fn(
    side_effects: &mut Vec<SideEffect>,
    diagnostics: &mut Vec<Diagnostic>,
    item_fn: usize,
    fn_arguments: &Vec<VariableState>,
    all_declared_fns: &DeclarationIndex,
    all_item_fns: &Vec<ItemFn>,
    active: &mut Vec<bool>,
) -> (r: Result<VariableState, InferError>)
    requires
        old(active)@.len() == all_item_fns@.len(),
        item_fn < all_item_fns@.len(),
    ensures
        final(active)@ == old(active)@,
        delivers(
            r,
            infer_outcome(
                all_item_fns@,
                all_declared_fns.entries@,
                item_fn as int,
                states_view(fn_arguments@),
                old(active)@,
            ),
            old(side_effects)@,
            final(side_effects)@,
            old(diagnostics)@,
            final(diagnostics)@,
        ),
    decreases count_idle(old(active)@), 0int, BodyExpr::Other, 0int,
{
    let ghost fns = all_item_fns@;
    let ghost decls = all_declared_fns.entries@;
    let ghost vals = states_view(fn_arguments@);
    let ghost a0 = active@;
    let g = item_fn;
    let f = &all_item_fns[g];
    if active[g] {
        assert(effects_view(side_effects@) + Seq::<EffectModel>::empty() =~= effects_view(side_effects@));
        assert(diagnostics@ + Seq::<Diagnostic>::empty() =~= diagnostics@);
        return Err(InferError::Cycle { function: f.name.clone() });
    }
    active.set(g, true);
    proof {
        lemma_count_idle_update(a0, g as int);
    }
    let ghost inner = active@;
    assert(inner == a0.update(g as int, true));
    assert(inner.update(g as int, false) =~= a0);
    if fn_arguments.len() < f.params.len() {
        active.set(g, false);
        assert(effects_view(side_effects@) + Seq::<EffectModel>::empty() =~= effects_view(side_effects@));
        assert(diagnostics@ + Seq::<Diagnostic>::empty() =~= diagnostics@);
        return Err(
            InferError::MissingArgument {
                function: f.name.clone(),
                expected: f.params.len(),
                given: fn_arguments.len(),
            },
        );
    }
    let mut variables: Vec<VariableMetadata> = Vec::new();
    let mut i: usize = 0;
    assert(scope_view(variables@) =~= Seq::<BindingModel>::empty());
    while i < f.params.len()
        invariant
            i <= f.params@.len(),
            f.params@.len() <= fn_arguments@.len(),
            vals == states_view(fn_arguments@),
            *f == all_item_fns@[g as int],
            g == item_fn,
            fns == all_item_fns@,
            decls == all_declared_fns.entries@,
            active@ == inner,
            a0 == old(active)@,
            !a0[g as int],
            inner == a0.update(g as int, true),
            g < inner.len(),
            inner.update(g as int, false) == a0,
            side_effects@ == old(side_effects)@,
            diagnostics@ == old(diagnostics)@,
            param_bindings(f.params@, vals, i as int) == Some(scope_view(variables@)),
        decreases f.params@.len() - i,
    {
        let ghost prev = scope_view(variables@);
        assert(vals[i as int] == fn_arguments@[i as int]@);
        if !bind_pattern_at(&f.params[i], fn_arguments[i].clone(), 0, &mut variables) {
            active.set(g, false);
            proof {
                lemma_param_bindings_stops(f.params@, vals, i + 1, f.params@.len() as int);
            }
            assert(effects_view(side_effects@) + Seq::<EffectModel>::empty() =~= effects_view(side_effects@));
            assert(diagnostics@ + Seq::<Diagnostic>::empty() =~= diagnostics@);
            let e = InferError::UnsupportedPattern { function: f.name.clone(), statement: 0 };
            return Err(e);
        }
        i += 1;
    }
    let ghost scope0 = scope_view(variables@);
    assert(entry_scope(fns[g as int], vals) == Ok::<Seq<BindingModel>, InferError>(scope0));
    let n = f.stmts.len();
    let mut k: usize = 0;
    assert(effects_view(side_effects@) + Seq::<EffectModel>::empty() =~= effects_view(side_effects@));
    assert(diagnostics@ + Seq::<Diagnostic>::empty() =~= diagnostics@);
    while k < n
        invariant
            n == f.stmts@.len(),
            *f == fns[g as int],
            g == item_fn,
            vals == states_view(fn_arguments@),
            fns == all_item_fns@,
            decls == all_declared_fns.entries@,
            g < fns.len(),
            inner.len() == fns.len(),
            a0 == old(active)@,
            !a0[g as int],
            inner == a0.update(g as int, true),
            inner.update(g as int, false) == a0,
            entry_scope(fns[g as int], states_view(fn_arguments@)) == Ok::<Seq<BindingModel>, InferError>(scope0),
            k <= n,
            active@ == inner,
            count_idle(inner) < count_idle(a0),
            run_stmts(fns, decls, g as int, inner, scope0, k as int).value == Ok::<Seq<BindingModel>, InferError>(
                scope_view(variables@),
            ),
            emitted(
                run_stmts(fns, decls, g as int, inner, scope0, k as int),
                old(side_effects)@,
                side_effects@,
                old(diagnostics)@,
                diagnostics@,
            ),
        decreases n - k,
    {
        let ghost before = run_stmts(fns, decls, g as int, inner, scope0, k as int);
        let ghost step = run_stmt(fns, decls, g as int, inner, scope_view(variables@), k as int);
        assert(run_stmts(fns, decls, g as int, inner, scope0, k + 1) == followed_by(before, step));
        let res = run_statement(
            &f.stmts[k],
            k,
            &mut variables,
            side_effects,
            diagnostics,
            g,
            all_declared_fns,
            all_item_fns,
            active,
        );
        proof {
            assert(effects_view(old(side_effects)@) + before.effects + step.effects
                =~= effects_view(old(side_effects)@) + (before.effects + step.effects));
            assert(old(diagnostics)@ + before.notes + step.notes =~= old(diagnostics)@ + (before.notes
                + step.notes));
        }
        if let Err(e) = res {
            active.set(g, false);
            proof {
                lemma_run_stmts_stops(fns, decls, g as int, inner, scope0, k + 1, n as int);
            }
            return Err(e);
        }
        k += 1;
    }
    let ghost body = run_stmts(fns, decls, g as int, inner, scope0, n as int);
    let ghost e_mid = side_effects@;
    let ghost n_mid = diagnostics@;
    let result = if n > 0 && matches!(f.stmts[n - 1], Stmt::Expr(_)) {
        match &f.stmts[n - 1] {
            Stmt::Expr(e) => get_variable_state(
                e,
                side_effects,
                diagnostics,
                g,
                n,
                &variables,
                all_declared_fns,
                all_item_fns,
                active,
            ),
            _ => unreached(),
        }
    } else {
        Ok(VariableState::hole())
    };
    let ghost tail = trailing_value(fns, decls, g as int, inner, scope_view(variables@));
    proof {
        if !(n > 0 && f.stmts@[n - 1] is Expr) {
            assert(tail.effects =~= Seq::<EffectModel>::empty());
            assert(tail.notes =~= Seq::<Diagnostic>::empty());
        }
        assert(effects_view(old(side_effects)@) + body.effects + tail.effects
            =~= effects_view(old(side_effects)@) + (body.effects + tail.effects));
        assert(old(diagnostics)@ + body.notes + tail.notes =~= old(diagnostics)@ + (body.notes
            + tail.notes));
    }
    active.set(g, false);
    result
}

/// The value of `expression` at statement `index` of function `function`,
/// in the scope `variables`. Calls in it are followed: their arguments are
/// evaluated first, left to right.
pub fn get_variable_state(
    expression: &BodyExpr,
    side_effects: &mut Vec<SideEffect>,
    diagnostics: &mut Vec<Diagnostic>,
    function: usize,
    index: usize,
    variables: &Vec<VariableMetadata>,
    all_declared_fns: &DeclarationIndex,
    all_item_fns: &Vec<ItemFn>,
    active: &mut Vec<bool>,
) -> (r: Result<VariableState, InferError>)
    requires
        old(active)@.len() == all_item_fns@.len(),
        function < all_item_fns@.len(),
    ensures
        final(active)@ == old(active)@,
        delivers(
            r,
            eval_expr(
                all_item_fns@,
                all_declared_fns.entries@,
                function as int,
                index as int,
                scope_view(variables@),
                *expression,
                old(active)@,
            ),
            old(side_effects)@,
            final(side_effects)@,
            old(diagnostics)@,
            final(diagnostics)@,
        ),
    decreases count_idle(old(active)@), 2int, *expression, 0int,
{
    let ghost fns = all_item_fns@;
    let ghost decls = all_declared_fns.entries@;
    let ghost scope = scope_view(variables@);
    let ghost a0 = active@;
    proof {
        assert(effects_view(side_effects@) + Seq::<EffectModel>::empty() =~= effects_view(side_effects@));
        assert(diagnostics@ + Seq::<Diagnostic>::empty() =~= diagnostics@);
    }
    match expression {
        BodyExpr::LitStr(s) => Ok(VariableState::value(s.clone())),
        BodyExpr::Path(name) => match find_variable_metadata(name, index, variables) {
            Some(m) => Ok(m.variable_state.clone()),
            None => Err(
                InferError::UnresolvedVariable {
                    function: all_item_fns[function].name.clone(),
                    statement: index,
                    name: name.clone(),
                },
            ),
        },
        BodyExpr::Ref(inner) => get_variable_state(
            inner,
            side_effects,
            diagnostics,
            function,
            index,
            variables,
            all_declared_fns,
            all_item_fns,
            active,
        ),
        BodyExpr::Call(Some(callee), args) => {
            let mut arg_states: Vec<VariableState> = Vec::new();
            let mut i: usize = 0;
            assert(args@.take(0) =~= Seq::<BodyExpr>::empty());
            assert(states_view(arg_states@) =~= Seq::<Seq<Segment>>::empty());
            while i < args.len()
                invariant
                    *expression == BodyExpr::Call(Some(*callee), *args),
                    fns == all_item_fns@,
                    decls == all_declared_fns.entries@,
                    scope == scope_view(variables@),
                    active@ == a0,
                    a0 == old(active)@,
                    a0.len() == fns.len(),
                    function < fns.len(),
                    i <= args@.len(),
                    eval_args(fns, decls, function as int, index as int, scope, args@.take(i as int), a0).value
                        == Ok::<Seq<Seq<Segment>>, InferError>(states_view(arg_states@)),
                    effects_view(side_effects@) == effects_view(old(side_effects)@) + eval_args(
                        fns,
                        decls,
                        function as int,
                        index as int,
                        scope,
                        args@.take(i as int),
                        a0,
                    ).effects,
                    diagnostics@ == old(diagnostics)@ + eval_args(
                        fns,
                        decls,
                        function as int,
                        index as int,
                        scope,
                        args@.take(i as int),
                        a0,
                    ).notes,
                decreases args@.len() - i,
            {
                let ghost prefix = args@.take(i + 1);
                assert(prefix.drop_last() =~= args@.take(i as int));
                assert(prefix.last() == args@[i as int]);
                let ghost before = eval_args(fns, decls, function as int, index as int, scope, args@.take(i as int), a0);
                let ghost o = eval_expr(fns, decls, function as int, index as int, scope, args@[i as int], a0);
                proof {
                    assert(decreases_to!(*expression => args@[i as int])) by {
                        assert(decreases_to!(*expression => (*expression)->Call_1));
                        assert((*expression)->Call_1 == *args);
                        assert(decreases_to!(*args => args@));
                    }
                }
                match get_variable_state(
                    &args[i],
                    side_effects,
                    diagnostics,
                    function,
                    index,
                    variables,
                    all_declared_fns,
                    all_item_fns,
                    active,
                ) {
                    Ok(v) => {
                        let ghost prev = arg_states@;
                        arg_states.push(v);
                        assert(states_view(arg_states@) =~= states_view(prev).push(v@));
                    },
                    Err(e) => {
                        proof {
                            lemma_eval_args_stops(fns, decls, function as int, index as int, scope, args@, a0, i + 1, args@.len() as int);
                            assert(args@.take(args@.len() as int) =~= args@);
                        }
                        assert(effects_view(old(side_effects)@) + before.effects + o.effects
                            =~= effects_view(old(side_effects)@) + (before.effects + o.effects));
                        assert(old(diagnostics)@ + before.notes + o.notes =~= old(diagnostics)@ + (before.notes
                            + o.notes));
                        return Err(e);
                    },
                }
                assert(effects_view(old(side_effects)@) + before.effects + o.effects
                    =~= effects_view(old(side_effects)@) + (before.effects + o.effects));
                assert(old(diagnostics)@ + before.notes + o.notes =~= old(diagnostics)@ + (before.notes
                    + o.notes));
                i += 1;
            }
            assert(args@.take(i as int) =~= args@);
            let ghost a = eval_args(fns, decls, function as int, index as int, scope, args@, a0);
            let ghost c = call_outcome(fns, decls, function as int, index as int, *callee, states_view(arg_states@), a0);
            let r = call_fn(
                callee,
                &arg_states,
                side_effects,
                diagnostics,
                function,
                index,
                all_declared_fns,
                all_item_fns,
                active,
            );
            assert(effects_view(old(side_effects)@) + a.effects + c.effects
                =~= effects_view(old(side_effects)@) + (a.effects + c.effects));
            assert(old(diagnostics)@ + a.notes + c.notes =~= old(diagnostics)@ + (a.notes + c.notes));
            r
        },
        _ => {
            diagnostics.push(
                Diagnostic::UnsupportedExpression {
                    function: all_item_fns[function].name.clone(),
                    statement: index,
                },
            );
            Ok(VariableState::hole())
        },
    }
}

/// A call of `callee` with `arguments` from statement `index` of
/// `function`: through the callee's declaration when the index has one,
/// else by inferring the callee's body when the program defines it, else
/// an unknown value and a diagnostic.
fn call_fn(
    callee: &String,
    arguments: &Vec<VariableState>,
    side_effects: &mut Vec<SideEffect>,
    diagnostics: &mut Vec<Diagnostic>,
    function: usize,
    index: usize,
    all_declared_fns: &DeclarationIndex,
    all_item_fns: &Vec<ItemFn>,
    active: &mut Vec<bool>,
) -> (r: Result<VariableState, InferError>)
    requires
        old(active)@.len() == all_item_fns@.len(),
        function < all_item_fns@.len(),
    ensures
        final(active)@ == old(active)@,
        delivers(
            r,
            call_outcome(
                all_item_fns@,
                all_declared_fns.entries@,
                function as int,
                index as int,
                *callee,
                states_view(arguments@),
                old(active)@,
            ),
            old(side_effects)@,
            final(side_effects)@,
            old(diagnostics)@,
            final(diagnostics)@,
        ),
    decreases count_idle(old(active)@), 1int, BodyExpr::Other, 0int,
{
    proof {
        assert(effects_view(side_effects@) + Seq::<EffectModel>::empty() =~= effects_view(side_effects@));
        assert(diagnostics@ + Seq::<Diagnostic>::empty() =~= diagnostics@);
    }
    match all_declared_fns.find(callee) {
        Some(k) => {
            let entry = &all_declared_fns.entries[k];
            match &entry.declaration {
                Err(pe) => Err(InferError::Declaration { function: entry.name.clone(), error: *pe }),
                Ok(d) => {
                    let r = evaluate_declared_fn(side_effects, &entry.name, d, arguments);
                    proof {
                        if r is Err {
                            assert(effects_view(side_effects@) =~= effects_view(old(side_effects)@)
                                + Seq::<EffectModel>::empty());
                        }
                    }
                    r
                },
            }
        },
        None => match find_item_fn(all_item_fns, callee) {
            Some(h) => infer_fn(
                side_effects,
                diagnostics,
                h,
                arguments,
                all_declared_fns,
                all_item_fns,
                active,
            ),
            None => {
                let d = Diagnostic::UnresolvedCallee {
                    function: all_item_fns[function].name.clone(),
                    statement: index,
                    callee: callee.clone(),
                };
                diagnostics.push(d);
                assert(diagnostics@ =~= old(diagnostics)@ + seq![d]);
                Ok(VariableState::hole())
            },
        },
    }
}

/// Runs statement number `k + 1` of `function` in the scope `variables`,
/// adding the bindings of a `let` to it.
#[verifier::rlimit(40)]
fn run_statement(
    stmt: &Stmt,
    k: usize,
    variables: &mut Vec<VariableMetadata>,
    side_effects: &mut Vec<SideEffect>,
    diagnostics: &mut Vec<Diagnostic>,
    function: usize,
    all_declared_fns: &DeclarationIndex,
    all_item_fns: &Vec<ItemFn>,
    active: &mut Vec<bool>,
) -> (r: Result<(), InferError>)
    requires
        old(active)@.len() == all_item_fns@.len(),
        function < all_item_fns@.len(),
        k < all_item_fns@[function as int].stmts.len(),
        *stmt == all_item_fns@[function as int].stmts@[k as int],
    ensures
        final(active)@ == old(active)@,
        ({
            let o = run_stmt(
                all_item_fns@,
                all_declared_fns.entries@,
                function as int,
                old(active)@,
                scope_view(old(variables)@),
                k as int,
            );
            &&& emitted(o, old(side_effects)@, final(side_effects)@, old(diagnostics)@, final(diagnostics)@)
            &&& match o.value {
                Ok(sc) => r is Ok && scope_view(final(variables)@) == sc,
                Err(e) => r == Err::<(), InferError>(e),
            }
        }),
    decreases count_idle(old(active)@), 3int, BodyExpr::Other, 0int,
{
    let ghost fns = all_item_fns@;
    let ghost decls = all_declared_fns.entries@;
    let ghost scope = scope_view(variables@);
    let ghost a0 = active@;
    proof {
        assert(effects_view(side_effects@) + Seq::<EffectModel>::empty() =~= effects_view(side_effects@));
        assert(diagnostics@ + Seq::<Diagnostic>::empty() =~= diagnostics@);
    }
    match stmt {
        Stmt::Local(_, None) => Err(
            InferError::UninitializedBinding {
                function: all_item_fns[function].name.clone(),
                statement: k + 1,
            },
        ),
        Stmt::Local(pat, Some(init)) => {
            let ghost o = eval_expr(fns, decls, function as int, k + 1, scope, *init, a0);
            let v = match get_variable_state(
                init,
                side_effects,
                diagnostics,
                function,
                k + 1,
                variables,
                all_declared_fns,
                all_item_fns,
                active,
            ) {
                Ok(v) => v,
                Err(e) => return Err(e),
            };
            proof {
                assert(o.effects + Seq::<EffectModel>::empty() =~= o.effects);
                assert(o.notes + Seq::<Diagnostic>::empty() =~= o.notes);
            }
            if !bind_pattern_at(pat, v, k + 1, variables) {
                return Err(
                    InferError::UnsupportedPattern {
                        function: all_item_fns[function].name.clone(),
                        statement: k + 1,
                    },
                );
            }
            Ok(())
        },
        Stmt::Semi(e) => {
            if matches!(e, BodyExpr::Call(_, _)) {
                let ghost o = eval_expr(fns, decls, function as int, k + 1, scope, *e, a0);
                match get_variable_state(
                    e,
                    side_effects,
                    diagnostics,
                    function,
                    k + 1,
                    variables,
                    all_declared_fns,
                    all_item_fns,
                    active,
                ) {
                    Ok(_) => {
                        proof {
                            assert(o.effects + Seq::<EffectModel>::empty() =~= o.effects);
                            assert(o.notes + Seq::<Diagnostic>::empty() =~= o.notes);
                        }
                        Ok(())
                    },
                    Err(x) => Err(x),
                }
            } else {
                Ok(())
            }
        },
        _ => Ok(()),
    }
}

} // verus!
