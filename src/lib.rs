//! Static inference of the side effects that a function may trigger.
//!
//! A function may carry an effect declaration written in a small grammar
//! ([`parser`], [`ast`]); the effects of any other function are inferred
//! by a symbolic walk over its body ([`infer`]) that propagates abstract
//! string values ([`state`]) through bindings and calls. [`index`] finds
//! the declared functions and the entrypoint of a program given in the
//! shape of [`syntax`], and runs one analysis. [`printer`] holds the
//! canonical text of a declaration and the law that the parser accepts it.

pub mod ast;
pub mod index;
pub mod infer;
pub mod parser;
pub mod printer;
pub mod state;
pub mod syntax;
