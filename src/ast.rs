//! Syntax trees, generic over how identifiers are represented (spanned
//! before name resolution, with an id after), and their mathematical models.
use vstd::prelude::*;

use crate::tokens::{Span, SpannedIdentifier};

verus! {

/// The identity that name resolution gives a spelling.
#[derive(Debug, Clone, Copy, PartialEq, Eq, Structural)]
pub struct IdentifierId(pub usize);

/// An identifier occurrence after name resolution.
#[derive(Debug, Clone, Copy, PartialEq, Eq, Structural)]
pub struct ResolvedIdentifier {
    pub span: Span,
    pub id: IdentifierId,
}

/// A function parameter `name: ptype`.
#[derive(Debug, PartialEq, Eq)]
pub struct Param<I> {
    pub name: I,
    pub ptype: I,
}

/// An expression tree whose identifiers are of type `I`.
#[derive(Debug, PartialEq, Eq)]
pub enum Expression<I> {
    Identifier(I),
    Literal { span: Span },
    /// A prefix operator, or a parenthesised group (`operation` then covers the parentheses).
    UnaryOperator { operation: Span, expression: Box<Expression<I>> },
    BinaryOperator { left: Box<Expression<I>>, span: Span, precedence: usize, right: Box<Expression<I>> },
    Call { name: I, params: Vec<Expression<I>>, span: Span },
}

#[derive(Debug, PartialEq, Eq)]
pub enum Statement<I> {
    Declaration { name: I, expression: Box<Expression<I>>, rtype: I, span: Span },
    Reassignment { name: I, expression: Box<Expression<I>>, span: Span },
    If {
        condition: Box<Expression<I>>,
        statement: Box<Statement<I>>,
        ielse: Option<Box<Statement<I>>>,
        span: Span,
    },
    Scope { body: Vec<Statement<I>>, span: Span },
    VoidCall { name: I, params: Vec<Expression<I>>, span: Span },
    Return { expr: Option<Box<Expression<I>>>, span: Span },
}

/// A top-level declaration. Only functions are parsed; constants and statics
/// have no syntax yet.
#[derive(Debug, PartialEq, Eq)]
pub enum Chunk<I> {
    Constant,
    StaticVar,
    Function { name: I, params: Vec<Param<I>>, rtype: I, body: Statement<I>, span: Span },
    EOF,
}

pub type SpannedParam = Param<SpannedIdentifier>;
pub type SpannedExpression = Expression<SpannedIdentifier>;
pub type SpannedStatement = Statement<SpannedIdentifier>;
pub type SpannedChunk = Chunk<SpannedIdentifier>;
pub type ResolvedParam = Param<ResolvedIdentifier>;
pub type ResolvedExpression = Expression<ResolvedIdentifier>;
pub type ResolvedStatement = Statement<ResolvedIdentifier>;
pub type ResolvedChunk = Chunk<ResolvedIdentifier>;

// Mathematical models of the trees: the same shapes, with sequences for lists.
pub enum ExprModel<I> {
    Identifier(I),
    Literal(Span),
    Unary { operation: Span, expression: Box<ExprModel<I>> },
    Binary { left: Box<ExprModel<I>>, span: Span, precedence: usize, right: Box<ExprModel<I>> },
    Call { name: I, params: Seq<ExprModel<I>>, span: Span },
}

pub enum StmtModel<I> {
    Declaration { name: I, expression: ExprModel<I>, rtype: I, span: Span },
    Reassignment { name: I, expression: ExprModel<I>, span: Span },
    If {
        condition: ExprModel<I>,
        statement: Box<StmtModel<I>>,
        ielse: Option<Box<StmtModel<I>>>,
        span: Span,
    },
    Scope { body: Seq<StmtModel<I>>, span: Span },
    VoidCall { name: I, params: Seq<ExprModel<I>>, span: Span },
    Return { expr: Option<ExprModel<I>>, span: Span },
}

pub enum ChunkModel<I> {
    Constant,
    StaticVar,
    Function { name: I, params: Seq<Param<I>>, rtype: I, body: StmtModel<I>, span: Span },
    EOF,
}

pub open spec fn expr_model<I>(e: Expression<I>) -> ExprModel<I>
    decreases e,
{
    match e {
        Expression::Identifier(i) => ExprModel::Identifier(i),
        Expression::Literal { span } => ExprModel::Literal(span),
        Expression::UnaryOperator { operation, expression } => ExprModel::Unary {
            operation,
            expression: Box::new(expr_model(*expression)),
        },
        Expression::BinaryOperator { left, span, precedence, right } => ExprModel::Binary {
            left: Box::new(expr_model(*left)),
            span,
            precedence,
            right: Box::new(expr_model(*right)),
        },
        Expression::Call { name, params, span } => ExprModel::Call {
            name,
            params: Seq::new(
                params@.len(),
                |k: int|
                    if 0 <= k < params@.len() {
                        expr_model(params@[k])
                    } else {
                        ExprModel::Literal(span)
                    },
            ),
            span,
        },
    }
}

pub open spec fn exprs_model<I>(v: Seq<Expression<I>>) -> Seq<ExprModel<I>> {
    Seq::new(v.len(), |k: int| expr_model(v[k]))
}

pub open spec fn stmt_model<I>(s: Statement<I>) -> StmtModel<I>
    decreases s,
{
    match s {
        Statement::Declaration { name, expression, rtype, span } => StmtModel::Declaration {
            name,
            expression: expr_model(*expression),
            rtype,
            span,
        },
        Statement::Reassignment { name, expression, span } => StmtModel::Reassignment {
            name,
            expression: expr_model(*expression),
            span,
        },
        Statement::If { condition, statement, ielse, span } => StmtModel::If {
            condition: expr_model(*condition),
            statement: Box::new(stmt_model(*statement)),
            ielse: match ielse {
                Some(e) => Some(Box::new(stmt_model(*e))),
                None => None,
            },
            span,
        },
        Statement::Scope { body, span } => StmtModel::Scope {
            body: Seq::new(
                body@.len(),
                |k: int|
                    if 0 <= k < body@.len() {
                        stmt_model(body@[k])
                    } else {
                        StmtModel::Scope { body: Seq::empty(), span }
                    },
            ),
            span,
        },
        Statement::VoidCall { name, params, span } => StmtModel::VoidCall {
            name,
            params: exprs_model(params@),
            span,
        },
        Statement::Return { expr, span } => StmtModel::Return {
            expr: match expr {
                Some(e) => Some(expr_model(*e)),
                None => None,
            },
            span,
        },
    }
}

pub open spec fn stmts_model<I>(v: Seq<Statement<I>>) -> Seq<StmtModel<I>> {
    Seq::new(v.len(), |k: int| stmt_model(v[k]))
}

pub open spec fn chunk_model<I>(c: Chunk<I>) -> ChunkModel<I> {
    match c {
        Chunk::Constant => ChunkModel::Constant,
        Chunk::StaticVar => ChunkModel::StaticVar,
        Chunk::Function { name, params, rtype, body, span } => ChunkModel::Function {
            name,
            params: params@,
            rtype,
            body: stmt_model(body),
            span,
        },
        Chunk::EOF => ChunkModel::EOF,
    }
}

pub open spec fn chunks_model<I>(v: Seq<Chunk<I>>) -> Seq<ChunkModel<I>> {
    Seq::new(v.len(), |k: int| chunk_model(v[k]))
}

} // verus!
