//! Front end of a compiler for a small statically typed language: tokenizer,
//! parser, name resolver and type checker.

pub mod ast;
pub mod lexer;
pub mod name_resolver;
pub mod parser;
pub mod tokens;
pub mod type_checker;

pub use ast::{
    Chunk, Expression, IdentifierId, Param, ResolvedChunk, ResolvedExpression, ResolvedIdentifier,
    ResolvedParam, ResolvedStatement, SpannedChunk, SpannedExpression, SpannedParam,
    SpannedStatement, Statement,
};
pub use lexer::Lexer;
pub use name_resolver::{NameResolver, ResolvedAstTree};
pub use parser::{ParseError, SpannedAstTree};
pub use tokens::{Span, SpannedIdentifier, SpannedOperator, Token};
pub use type_checker::{Primitive, TypeChecker, TypeError, TypeId};
