//! A small interactive expression language: source text is lexed into
//! spanned tokens, parsed into a symbol-interned syntax tree, and evaluated
//! against a chain of lexical scopes; every error carries a source span and
//! can be rendered as a caret-annotated diagnostic.

pub mod ast;
pub mod codemap;
pub mod diagnostics;
pub mod env;
pub mod eval;
pub mod interner;
pub mod lexer;
pub mod parse;
pub mod pp;
pub mod syntax;
pub mod text;
