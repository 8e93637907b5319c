//! The shape of an analysed program as the inference engine reads it:
//! functions with their parameters, statements and attributes, and the
//! few kinds of expression that the analysis tells apart.

use vstd::prelude::*;

verus! {

/// An expression in a function body.
#[derive(Debug)]
pub enum BodyExpr {
    /// A string literal, with its text.
    LitStr(String),
    /// A reference to a variable by name.
    Path(String),
    /// A call; the callee's name when the called expression is a plain path.
    Call(Option<String>, Vec<BodyExpr>),
    /// A reference or dereference of the inner expression.
    Ref(Box<BodyExpr>),
    /// Any other shape.
    Other,
}

/// A binding pattern, of a parameter or of a `let`.
#[derive(Debug)]
pub enum Pat {
    Ident(String),
    Tuple(Vec<Pat>),
    Wild,
    Other,
}

/// A statement in a function body.
#[derive(Debug)]
pub enum Stmt {
    /// A `let` binding, with its initializer if it has one.
    Local(Pat, Option<BodyExpr>),
    /// An expression whose value is discarded.
    Semi(BodyExpr),
    /// An expression without a semicolon: the body's value when it comes last.
    Expr(BodyExpr),
    Other,
}

/// An attribute on a function: the last segment of its path and the text
/// of its arguments.
#[derive(Debug)]
pub struct Attribute {
    pub name: String,
    pub tokens: String,
}

/// A function of the analysed program.
#[derive(Debug)]
pub struct ItemFn {
    pub name: String,
    pub params: Vec<Pat>,
    pub attrs: Vec<Attribute>,
    pub stmts: Vec<Stmt>,
}

} // verus!
