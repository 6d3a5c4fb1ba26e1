//! Message formatting for translated strings: a template scanner, an argument
//! resolver, a substitution engine and a static validator, with the laws that
//! relate them; beside them, message lookup with a context, placeholder
//! replacement for the formatting macros, and a text domain builder.
use vstd::prelude::*;

pub mod scanner;
pub mod resolver;
mod utf8_facts;
pub mod engine;
pub mod validator;
pub mod runtime_format;
pub mod laws;
pub mod text_domain;
pub mod context;

verus! {

} // verus!
