//! The typed model of an effect declaration: argument bindings, effect
//! statements and an optional return expression.

use vstd::prelude::*;

verus! {

/// The mathematical view of an expression of the declaration language.
pub enum ExprModel {
    Lit(Seq<char>),
    Var(Seq<char>),
    Add(Box<ExprModel>, Box<ExprModel>),
}

/// The view of one argument binding: a parameter name and its alias.
pub struct ArgModel {
    pub name: Seq<char>,
    pub binding: Seq<char>,
}

/// The view of one effect statement.
pub struct StmtModel {
    pub name: Seq<char>,
    pub arguments: Seq<ExprModel>,
    pub binding: Option<Seq<char>>,
}

/// The view of a whole declaration.
pub struct DeclModel {
    pub args: Seq<ArgModel>,
    pub effects: Seq<StmtModel>,
    pub returns: Option<ExprModel>,
}

/// A positional parameter of a declared function and the alias that the
/// declaration's expressions may use for it.
#[derive(Debug)]
pub struct Arg {
    pub arg_name: String,
    pub arg_binding: String,
}

impl View for Arg {
    type V = ArgModel;

    open spec fn view(&self) -> ArgModel {
        ArgModel { name: self.arg_name@, binding: self.arg_binding@ }
    }
}

/// The argument list of a declaration.
#[derive(Debug)]
pub struct Args {
    pub args: Vec<Arg>,
}

impl View for Args {
    type V = Seq<ArgModel>;

    open spec fn view(&self) -> Seq<ArgModel> {
        self.args@.map_values(|a: Arg| a@)
    }
}

/// A binary concatenation.
#[derive(Debug)]
pub struct Add {
    pub lhs: Expr,
    pub rhs: Expr,
}

/// A quoted string literal (its text without the quotes).
#[derive(Debug)]
pub struct LitStr {
    pub value: String,
}

impl View for LitStr {
    type V = Seq<char>;

    open spec fn view(&self) -> Seq<char> {
        self.value@
    }
}

/// A reference to a parameter, an alias or an effect's result binding.
#[derive(Debug)]
pub struct Var {
    pub name: String,
}

impl View for Var {
    type V = Seq<char>;

    open spec fn view(&self) -> Seq<char> {
        self.name@
    }
}

/// An expression of the declaration language.
#[derive(Debug)]
pub enum Expr {
    LitStr(LitStr),
    Var(Var),
    Add(Box<Add>),
}

/// The view of an expression.
pub open spec fn expr_view(e: Expr) -> ExprModel
    decreases e,
{
    match e {
        Expr::LitStr(l) => ExprModel::Lit(l.value@),
        Expr::Var(v) => ExprModel::Var(v.name@),
        Expr::Add(a) => ExprModel::Add(Box::new(expr_view(a.lhs)), Box::new(expr_view(a.rhs))),
    }
}

impl View for Expr {
    type V = ExprModel;

    open spec fn view(&self) -> ExprModel {
        expr_view(*self)
    }
}

impl Expr {
    /// The literal of an expression known to be a literal.
    pub fn unwrap_lit_str(&self) -> (r: &LitStr)
        requires
            self is LitStr,
        ensures
            self@ == ExprModel::Lit(r.value@),
    {
        match self {
            Expr::LitStr(lit_str) => lit_str,
            _ => unreached(),
        }
    }

    /// The variable of an expression known to be a variable reference.
    pub fn unwrap_var(&self) -> (r: &Var)
        requires
            self is Var,
        ensures
            self@ == ExprModel::Var(r.name@),
    {
        match self {
            Expr::Var(var) => var,
            _ => unreached(),
        }
    }

    /// The operands of an expression known to be a concatenation.
    pub fn unwrap_add(&self) -> (r: &Add)
        requires
            self is Add,
        ensures
            self@ == ExprModel::Add(Box::new(r.lhs@), Box::new(r.rhs@)),
    {
        match self {
            Expr::Add(add) => add,
            _ => unreached(),
        }
    }
}

/// One effect statement: the effect's name, its argument expressions and
/// an optional name for its result.
#[derive(Debug)]
pub struct SideEffectStmt {
    pub side_effect_name: String,
    pub side_effect_arguments: Vec<Expr>,
    pub binding: Option<String>,
}

/// The view of an optional name.
pub open spec fn name_view(n: Option<String>) -> Option<Seq<char>> {
    match n {
        Some(s) => Some(s@),
        None => None,
    }
}

impl View for SideEffectStmt {
    type V = StmtModel;

    open spec fn view(&self) -> StmtModel {
        StmtModel {
            name: self.side_effect_name@,
            arguments: self.side_effect_arguments@.map_values(|e: Expr| e@),
            binding: name_view(self.binding),
        }
    }
}

/// The effect statements of a declaration, in order.
#[derive(Debug)]
pub struct SideEffects {
    pub side_effect_stmts: Vec<SideEffectStmt>,
}

impl View for SideEffects {
    type V = Seq<StmtModel>;

    open spec fn view(&self) -> Seq<StmtModel> {
        self.side_effect_stmts@.map_values(|s: SideEffectStmt| s@)
    }
}

/// The view of an optional expression.
pub open spec fn returns_view(e: Option<Expr>) -> Option<ExprModel> {
    match e {
        Some(x) => Some(x@),
        None => None,
    }
}

/// A parsed effect declaration.
#[derive(Debug)]
pub struct DeclareMacro {
    pub args: Args,
    pub side_effects: SideEffects,
    pub returns: Option<Expr>,
}

impl View for DeclareMacro {
    type V = DeclModel;

    open spec fn view(&self) -> DeclModel {
        DeclModel {
            args: self.args@,
            effects: self.side_effects@,
            returns: returns_view(self.returns),
        }
    }
}

/// Where the text of a declaration stopped matching the grammar, counted
/// in characters from the start of the text handed to the parser.
#[derive(Clone, Copy, PartialEq, Eq, Structural, Debug)]
pub struct ParseError {
    pub offset: usize,
}

} // verus!
