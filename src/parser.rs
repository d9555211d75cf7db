//! The recursive-descent parser. The grammar is stated as spec functions over
//! byte positions; each parsing method is proved to produce exactly the tree
//! (or the error) that the grammar gives.
use vstd::prelude::*;
use std::rc::Rc;

use crate::ast::{
    chunk_model, chunks_model, expr_model, exprs_model, stmt_model, stmts_model, Chunk, ChunkModel,
    Expression, ExprModel, Param, SpannedChunk, SpannedExpression, SpannedParam, SpannedStatement, Statement,
    StmtModel,
};
use crate::lexer::{lemma_lex_advances, lex, spelled, Lexer};
use crate::tokens::{Span, SpannedIdentifier, SpannedOperator, Token};

verus! {

/// Why parsing stopped: an unrecognised character, or a token in a place
/// where the grammar does not allow it (with the message for that place).
#[derive(Debug, Clone, Copy, PartialEq, Eq)]
pub enum ParseError {
    UnknownToken(Span),
    BadSyntax(Token, &'static str),
}

/// An unknown token is reported as such wherever it is found; any other
/// token as bad syntax with the message of the place.
pub open spec fn syntax_error(t: Token, msg: &'static str) -> ParseError {
    match t {
        Token::Unknown(s) => ParseError::UnknownToken(s),
        _ => ParseError::BadSyntax(t, msg),
    }
}

/// `!` or `-`: the operators that may start an expression.
pub open spec fn is_unary_spelling(text: Seq<u8>, s: Span) -> bool {
    spelled(text, s, seq![33u8]) || spelled(text, s, seq![45u8])
}

/// `=`, `+=`, `-=`, `*=` or `/=`.
pub open spec fn is_assign_spelling(text: Seq<u8>, s: Span) -> bool {
    spelled(text, s, seq![61u8]) || spelled(text, s, seq![43u8, 61]) || spelled(
        text,
        s,
        seq![45u8, 61],
    ) || spelled(text, s, seq![42u8, 61]) || spelled(text, s, seq![47u8, 61])
}

pub type ExprM = ExprModel<SpannedIdentifier>;

pub type StmtM = StmtModel<SpannedIdentifier>;

pub type ChunkM = ChunkModel<SpannedIdentifier>;

/// A leading unary operator binds to the leftmost operand: it wraps the leaf
/// found by following left children through binary operators.
pub open spec fn attach_unary(e: ExprM, op: Span) -> ExprM
    decreases e,
{
    match e {
        ExprModel::Binary { left, span, precedence, right } => ExprModel::Binary {
            left: Box::new(attach_unary(*left, op)),
            span,
            precedence,
            right,
        },
        _ => ExprModel::Unary { operation: op, expression: Box::new(e) },
    }
}

/// Joins `left op right`, where `right` is the already parsed remainder of
/// the expression. When `op` binds looser than the remainder's top operator,
/// `op` is the root; otherwise the remainder's top operator becomes the root
/// and `op` takes `left` and the remainder's left operand (one rotation).
pub open spec fn combine(left: ExprM, op: SpannedOperator, right: ExprM) -> ExprM {
    match right {
        ExprModel::Binary { left: mid, span, precedence, right: r } => if op.precedence
            < precedence {
            ExprModel::Binary {
                left: Box::new(left),
                span: op.span,
                precedence: op.precedence,
                right: Box::new(right),
            }
        } else {
            ExprModel::Binary {
                left: Box::new(
                    ExprModel::Binary {
                        left: Box::new(left),
                        span: op.span,
                        precedence: op.precedence,
                        right: mid,
                    },
                ),
                span,
                precedence,
                right: r,
            }
        },
        _ => ExprModel::Binary {
            left: Box::new(left),
            span: op.span,
            precedence: op.precedence,
            right: Box::new(right),
        },
    }
}

/// The termination measure of the grammar functions: bytes left after
/// `p`, plus one; zero past the end.
pub open spec fn remaining(text: Seq<u8>, p: int) -> int {
    if 0 <= p <= text.len() {
        text.len() - p + 1
    } else {
        0
    }
}

/// An expression at `p`: its tree and the bytes consumed.
pub open spec fn parse_expr(text: Seq<u8>, p: int) -> Result<(ExprM, nat), ParseError>
    decreases remaining(text, p), 0int
    when 0 <= p <= text.len()
{
    proof {
        lemma_lex_advances(text, p);
    }
    let (t, n) = lex(text, p);
    let q = p + n;
    match t {
        Token::Operator(o) => if is_unary_spelling(text, o.span) {
            match parse_expr(text, q) {
                Ok((e, m)) => Ok((attach_unary(e, o.span), n + m)),
                Err(err) => Err(err),
            }
        } else {
            Err(syntax_error(t, "Invalid operator to start expression"))
        },
        Token::Identifier(id) => match parse_after_identifier(text, id, q) {
            Ok((e, m)) => Ok((e, n + m)),
            Err(err) => Err(err),
        },
        Token::NumericLiteral(_) => Err(
            syntax_error(t, "Numeric literals are not supported yet"),
        ),
        Token::LParen(lp) => match parse_group(text, lp, q) {
            Ok((e, m)) => Ok((e, n + m)),
            Err(err) => Err(err),
        },
        _ => Err(syntax_error(t, "Invalid start to expression")),
    }
}

/// After an identifier: a call when `(` follows, else the identifier itself;
/// then the rest of the expression.
pub open spec fn parse_after_identifier(text: Seq<u8>, id: SpannedIdentifier, q: int) -> Result<
    (ExprM, nat),
    ParseError,
>
    decreases remaining(text, q), 1int
    when 0 <= q <= text.len()
{
    proof {
        lemma_lex_advances(text, q);
    }
    let (t2, n2) = lex(text, q);
    match t2 {
        Token::LParen(lp) => match parse_arg_list(text, q + n2) {
            Ok((args, end, m)) => {
                let call = ExprModel::Call { name: id, params: args, span: Span { start: lp.start, end } };
                match parse_tail(text, call, q + n2 + m) {
                    Ok((e, k)) => Ok((e, n2 + m + k)),
                    Err(err) => Err(err),
                }
            },
            Err(err) => Err(err),
        },
        _ => parse_tail(text, ExprModel::Identifier(id), q),
    }
}

/// After `(` (whose span is `lp`): the inner expression, `)`, and the rest of
/// the expression. The group is kept as a node over the parentheses.
pub open spec fn parse_group(text: Seq<u8>, lp: Span, q: int) -> Result<(ExprM, nat), ParseError>
    decreases remaining(text, q), 1int
    when 0 <= q <= text.len()
{
    match parse_expr(text, q) {
        Ok((inner, m)) => {
            proof {
                lemma_lex_advances(text, q + m);
            }
            let (t2, n2) = lex(text, q + m);
            match t2 {
                Token::RParen(rp) => {
                    let group = ExprModel::Unary {
                        operation: Span { start: lp.start, end: rp.end },
                        expression: Box::new(inner),
                    };
                    match parse_tail(text, group, q + m + n2) {
                        Ok((e, k)) => Ok((e, m + n2 + k)),
                        Err(err) => Err(err),
                    }
                },
                _ => Err(syntax_error(t2, "No matching closing parentheses")),
            }
        },
        Err(err) => Err(err),
    }
}

/// After an operand `left` ending at `r`: if an operator follows, the rest
/// of the expression is parsed and joined to `left`; else `left` stands.
pub open spec fn parse_tail(text: Seq<u8>, left: ExprM, r: int) -> Result<(ExprM, nat), ParseError>
    decreases remaining(text, r), 0int
    when 0 <= r <= text.len()
{
    proof {
        lemma_lex_advances(text, r);
    }
    let (t, n) = lex(text, r);
    match t {
        Token::Operator(o) => match parse_expr(text, r + n) {
            Ok((right, m)) => Ok((combine(left, o, right), n + m)),
            Err(err) => Err(err),
        },
        _ => Ok((left, 0)),
    }
}

/// The arguments of a call after its `(`: the list, the end of the `)`,
/// and the bytes consumed.
pub open spec fn parse_arg_list(text: Seq<u8>, p: int) -> Result<
    (Seq<ExprM>, usize, nat),
    ParseError,
>
    decreases remaining(text, p), 2int
    when 0 <= p <= text.len()
{
    let (t, n) = lex(text, p);
    match t {
        Token::RParen(s) => Ok((seq![], s.end, n)),
        _ => parse_arg_items(text, p),
    }
}

pub open spec fn parse_arg_items(text: Seq<u8>, p: int) -> Result<
    (Seq<ExprM>, usize, nat),
    ParseError,
>
    decreases remaining(text, p), 1int
    when 0 <= p <= text.len()
{
    match parse_expr(text, p) {
        Ok((e, m)) => {
            proof {
                lemma_lex_advances(text, p + m);
            }
            let (t, n) = lex(text, p + m);
            match t {
                Token::Comma(_) => match parse_arg_items(text, p + m + n) {
                    Ok((es, end, k)) => Ok((seq![e] + es, end, m + n + k)),
                    Err(err) => Err(err),
                },
                Token::RParen(s) => Ok((seq![e], s.end, m + n)),
                _ => Err(
                    syntax_error(
                        t,
                        "Either terminate parameter calls, or seperate them with a comma",
                    ),
                ),
            }
        },
        Err(err) => Err(err),
    }
}

/// A statement at `p`: its tree and the bytes consumed.
pub open spec fn parse_stmt(text: Seq<u8>, p: int) -> Result<(StmtM, nat), ParseError>
    decreases remaining(text, p), 2int
    when 0 <= p <= text.len()
{
    let (t, n) = lex(text, p);
    match parse_stmt_from(text, t, p + n) {
        Ok((st, m)) => Ok((st, n + m)),
        Err(err) => Err(err),
    }
}

/// The statement whose first token `t` has been read; the rest starts at `q`.
pub open spec fn parse_stmt_from(text: Seq<u8>, t: Token, q: int) -> Result<(StmtM, nat), ParseError>
    decreases remaining(text, q), 1int
    when 0 <= q <= text.len()
{
    match t {
        Token::Let(s) => parse_declaration(text, s, q),
        Token::If(s) => {
            proof {
                lemma_lex_advances(text, q);
            }
            let (t1, n1) = lex(text, q);
            match t1 {
                Token::LParen(_) => match parse_expr(text, q + n1) {
                    Ok((cond, m1)) => {
                        let r = q + n1 + m1;
                        let (t2, n2) = lex(text, r);
                        match t2 {
                            Token::RParen(rp) => match parse_stmt(text, r + n2) {
                                Ok((then_branch, m2)) => {
                                    let w = r + n2 + m2;
                                    proof {
                                        lemma_lex_advances(text, w);
                                    }
                                    let (t3, n3) = lex(text, w);
                                    let span = Span { start: s.start, end: rp.end };
                                    match t3 {
                                        Token::Else(_) => match parse_stmt(text, w + n3) {
                                            Ok((else_branch, m3)) => Ok(
                                                (
                                                    StmtModel::If {
                                                        condition: cond,
                                                        statement: Box::new(then_branch),
                                                        ielse: Some(Box::new(else_branch)),
                                                        span,
                                                    },
                                                    n1 + m1 + n2 + m2 + n3 + m3,
                                                ),
                                            ),
                                            Err(err) => Err(err),
                                        },
                                        _ => Ok(
                                            (
                                                StmtModel::If {
                                                    condition: cond,
                                                    statement: Box::new(then_branch),
                                                    ielse: None,
                                                    span,
                                                },
                                                n1 + m1 + n2 + m2,
                                            ),
                                        ),
                                    }
                                },
                                Err(err) => Err(err),
                            },
                            _ => Err(syntax_error(t2, "Please close parentheses after condition")),
                        }
                    },
                    Err(err) => Err(err),
                },
                _ => Err(syntax_error(t1, "Please put condition in parentheses")),
            }
        },
        Token::LBrace(s) => match parse_block(text, q) {
            Ok((body, end, m)) => Ok((StmtModel::Scope { body, span: Span { start: s.start, end } }, m)),
            Err(err) => Err(err),
        },
        Token::Identifier(name) => parse_call_or_assign(text, name, q),
        Token::Return(s) => parse_return(text, s, q),
        _ => Err(syntax_error(t, "Invalid statement start")),
    }
}

/// The statements of a block after its `{`, up to and including the `}`:
/// the list, the end of the `}`, and the bytes consumed.
pub open spec fn parse_block(text: Seq<u8>, p: int) -> Result<(Seq<StmtM>, usize, nat), ParseError>
    decreases remaining(text, p), 0int
    when 0 <= p <= text.len()
{
    proof {
        lemma_lex_advances(text, p);
    }
    let (t, n) = lex(text, p);
    match t {
        Token::RBrace(s) => Ok((seq![], s.end, n)),
        Token::EOF(_) => Err(syntax_error(t, "Invalid statement start")),
        Token::Unknown(_) => Err(syntax_error(t, "Invalid statement start")),
        _ => match parse_stmt_from(text, t, p + n) {
            Ok((st, m)) => match parse_block(text, p + n + m) {
                Ok((rest, end, k)) => Ok((seq![st] + rest, end, n + m + k)),
                Err(err) => Err(err),
            },
            Err(err) => Err(err),
        },
    }
}

/// `let NAME : TYPE = EXPR ;` after the `let` (whose span is `s`).
pub open spec fn parse_declaration(text: Seq<u8>, s: Span, q: int) -> Result<(StmtM, nat), ParseError> {
    let (t1, n1) = lex(text, q);
    match t1 {
        Token::Identifier(name) => {
            let (t2, n2) = lex(text, q + n1);
            match t2 {
                Token::Colon(_) => {
                    let (t3, n3) = lex(text, q + n1 + n2);
                    match t3 {
                        Token::Identifier(rtype) => {
                            let r = q + n1 + n2 + n3;
                            let (t4, n4) = lex(text, r);
                            let eq = match t4 {
                                Token::Operator(o) => spelled(text, o.span, seq![61u8]),
                                _ => false,
                            };
                            if eq {
                                match parse_expr(text, r + n4) {
                                    Ok((e, m)) => {
                                        let (t5, n5) = lex(text, r + n4 + m);
                                        match t5 {
                                            Token::EOL(_) => Ok(
                                                (
                                                    StmtModel::Declaration {
                                                        name,
                                                        expression: e,
                                                        rtype,
                                                        span: s,
                                                    },
                                                    n1 + n2 + n3 + n4 + m + n5,
                                                ),
                                            ),
                                            _ => Err(syntax_error(t5, "Please end statement with ';'")),
                                        }
                                    },
                                    Err(err) => Err(err),
                                }
                            } else {
                                Err(syntax_error(t4, "Please indicate an initial value using '='"))
                            }
                        },
                        _ => Err(syntax_error(t3, "Please annotate with type")),
                    }
                },
                _ => Err(syntax_error(t2, "Please provide type for definition 'v: type'")),
            }
        },
        _ => Err(syntax_error(t1, "Let statement followed by identifier")),
    }
}

/// `st` followed by `;` at `r`; `consumed` counts the bytes before `r`.
pub open spec fn expect_eol(text: Seq<u8>, st: StmtM, r: int, consumed: nat) -> Result<
    (StmtM, nat),
    ParseError,
> {
    let (t, n) = lex(text, r);
    match t {
        Token::EOL(_) => Ok((st, consumed + n)),
        _ => Err(syntax_error(t, "Please end statements in ';'")),
    }
}

/// After a leading identifier: `( ARGS ) ;` is a call, `OP= EXPR ;` a reassignment.
pub open spec fn parse_call_or_assign(text: Seq<u8>, name: SpannedIdentifier, q: int) -> Result<
    (StmtM, nat),
    ParseError,
> {
    let (t1, n1) = lex(text, q);
    match t1 {
        Token::LParen(_) => match parse_arg_list(text, q + n1) {
            Ok((args, end, m)) => expect_eol(
                text,
                StmtModel::VoidCall {
                    name,
                    params: args,
                    span: Span { start: name.span.start, end },
                },
                q + n1 + m,
                n1 + m,
            ),
            Err(err) => Err(err),
        },
        Token::Operator(o) => if is_assign_spelling(text, o.span) {
            match parse_expr(text, q + n1) {
                Ok((e, m)) => expect_eol(
                    text,
                    StmtModel::Reassignment { name, expression: e, span: o.span },
                    q + n1 + m,
                    n1 + m,
                ),
                Err(err) => Err(err),
            }
        } else {
            Err(
                syntax_error(
                    t1,
                    "Invalid token after identifier, either make function call or reassign variable",
                ),
            )
        },
        _ => Err(
            syntax_error(
                t1,
                "Invalid token after identifier, either make function call or reassign variable",
            ),
        ),
    }
}

/// `return ;` or `return EXPR ;` after the `return` (whose span is `s`).
pub open spec fn parse_return(text: Seq<u8>, s: Span, q: int) -> Result<(StmtM, nat), ParseError> {
    let (t1, n1) = lex(text, q);
    match t1 {
        Token::EOL(e) => Ok((StmtModel::Return { expr: None, span: Span { start: s.start, end: e.end } }, n1)),
        _ => match parse_expr(text, q) {
            Ok((e, m)) => {
                let (t2, n2) = lex(text, q + m);
                match t2 {
                    Token::EOL(x) => Ok(
                        (
                            StmtModel::Return { expr: Some(e), span: Span { start: s.start, end: x.end } },
                            m + n2,
                        ),
                    ),
                    _ => Err(syntax_error(t2, "Please end statements in ';'")),
                }
            },
            Err(err) => Err(err),
        },
    }
}

/// The parameters `NAME : TYPE (, NAME : TYPE)* )`, the first name already
/// read: the list, the end of the `)`, and the bytes consumed.
pub open spec fn parse_params(text: Seq<u8>, name: SpannedIdentifier, p: int) -> Result<
    (Seq<Param<SpannedIdentifier>>, usize, nat),
    ParseError,
>
    decreases remaining(text, p)
    when 0 <= p <= text.len()
{
    proof {
        lemma_lex_advances(text, p);
    }
    let (t1, n1) = lex(text, p);
    match t1 {
        Token::Colon(_) => {
            let (t2, n2) = lex(text, p + n1);
            match t2 {
                Token::Identifier(ptype) => {
                    let r = p + n1 + n2;
                    let (t3, n3) = lex(text, r);
                    let param = Param { name, ptype };
                    match t3 {
                        Token::RParen(e) => Ok((seq![param], e.end, n1 + n2 + n3)),
                        Token::Comma(_) => {
                            let (t4, n4) = lex(text, r + n3);
                            match t4 {
                                Token::Identifier(next) => match parse_params(text, next, r + n3 + n4) {
                                    Ok((ps, end, k)) => Ok((seq![param] + ps, end, n1 + n2 + n3 + n4 + k)),
                                    Err(err) => Err(err),
                                },
                                _ => Err(syntax_error(t4, "function parameters are made of characters or _")),
                            }
                        },
                        _ => Err(
                            syntax_error(
                                t3,
                                "Function parameters are seperated by commas and ended by a closing parenthesis",
                            ),
                        ),
                    }
                },
                _ => Err(syntax_error(t2, "Function parameters require types, eg(a: Type)")),
            }
        },
        _ => Err(syntax_error(t1, "Function parameters require types, eg(a: Type)")),
    }
}

/// The parameter list after `(`: empty when `)` follows at once.
pub open spec fn parse_param_list(text: Seq<u8>, q: int) -> Result<
    (Seq<Param<SpannedIdentifier>>, usize, nat),
    ParseError,
> {
    let (t, n) = lex(text, q);
    match t {
        Token::RParen(a) => Ok((seq![], a.end, n)),
        Token::Identifier(first) => match parse_params(text, first, q + n) {
            Ok((ps, end, k)) => Ok((ps, end, n + k)),
            Err(err) => Err(err),
        },
        _ => Err(syntax_error(t, "If no parameters, close parentheses, else, list parameters")),
    }
}

/// `NAME ( PARAMS ) RTYPE -> STATEMENT` after the `fn` (whose span is `s`).
pub open spec fn parse_function(text: Seq<u8>, s: Span, q: int) -> Result<(ChunkM, nat), ParseError> {
    let (t1, n1) = lex(text, q);
    match t1 {
        Token::Identifier(name) => {
            let (t2, n2) = lex(text, q + n1);
            match t2 {
                Token::LParen(_) => match parse_param_list(text, q + n1 + n2) {
                    Ok((params, e, k)) => {
                        let r = q + n1 + n2 + k;
                        let (t4, n4) = lex(text, r);
                        match t4 {
                            Token::Identifier(rtype) => {
                                let (t5, n5) = lex(text, r + n4);
                                match t5 {
                                    Token::LArrow(_) => match parse_stmt(text, r + n4 + n5) {
                                        Ok((body, m)) => Ok(
                                            (
                                                ChunkModel::Function {
                                                    name,
                                                    params,
                                                    rtype,
                                                    body,
                                                    span: Span { start: s.start, end: e },
                                                },
                                                n1 + n2 + k + n4 + n5 + m,
                                            ),
                                        ),
                                        Err(err) => Err(err),
                                    },
                                    _ => Err(
                                        syntax_error(
                                            t5,
                                            "Please put '-> between return type and function body",
                                        ),
                                    ),
                                }
                            },
                            _ => Err(
                                syntax_error(
                                    t4,
                                    "Please put a return type at the end of function declarations",
                                ),
                            ),
                        }
                    },
                    Err(err) => Err(err),
                },
                _ => Err(
                    syntax_error(t2, "Function Definition requires parentheses, expected LParen"),
                ),
            }
        },
        _ => Err(syntax_error(t1, "Function Needs Identifier")),
    }
}

/// The chunk whose first token `t` has been read; the rest starts at `q`.
pub open spec fn parse_chunk_from(text: Seq<u8>, t: Token, q: int) -> Result<(ChunkM, nat), ParseError> {
    match t {
        Token::Fn(s) => parse_function(text, s, q),
        Token::EOF(_) => Ok((ChunkModel::EOF, 0)),
        Token::Const(_) => Err(syntax_error(t, "Constant and static declarations are not supported yet")),
        Token::Static(_) => Err(syntax_error(t, "Constant and static declarations are not supported yet")),
        _ => Err(syntax_error(t, "Chunks are either constants, static declerations, or functions")),
    }
}

/// A chunk at `p`: its tree and the bytes consumed.
pub open spec fn parse_chunk_at(text: Seq<u8>, p: int) -> Result<(ChunkM, nat), ParseError> {
    let (t, n) = lex(text, p);
    match parse_chunk_from(text, t, p + n) {
        Ok((c, m)) => Ok((c, n + m)),
        Err(err) => Err(err),
    }
}

/// Every chunk from `p` to the end of input, in order (the end marker not included).
pub open spec fn parse_program(text: Seq<u8>, p: int) -> Result<Seq<ChunkM>, ParseError>
    decreases remaining(text, p)
    when 0 <= p <= text.len()
{
    proof {
        lemma_lex_advances(text, p);
    }
    match parse_chunk_at(text, p) {
        Ok((c, m)) => if c is EOF {
            Ok(seq![])
        } else {
            match parse_program(text, p + m) {
                Ok(cs) => Ok(seq![c] + cs),
                Err(err) => Err(err),
            }
        },
        Err(err) => Err(err),
    }
}

/// `r` is what the grammar gives from `before`: on success the same tree,
/// with the cursor moved to `after`; on failure the same error.
pub open spec fn expr_outcome(
    r: Result<SpannedExpression, ParseError>,
    g: Result<(ExprM, nat), ParseError>,
    before: int,
    after: int,
) -> bool {
    match g {
        Ok((e, n)) => match r {
            Ok(x) => expr_model(x) == e && after == before + n,
            Err(_) => false,
        },
        Err(err) => r == Err::<SpannedExpression, ParseError>(err),
    }
}

pub open spec fn stmt_outcome(
    r: Result<SpannedStatement, ParseError>,
    g: Result<(StmtM, nat), ParseError>,
    before: int,
    after: int,
) -> bool {
    match g {
        Ok((st, n)) => match r {
            Ok(x) => stmt_model(x) == st && after == before + n,
            Err(_) => false,
        },
        Err(err) => r == Err::<SpannedStatement, ParseError>(err),
    }
}

pub open spec fn chunk_outcome(
    r: Result<SpannedChunk, ParseError>,
    g: Result<(ChunkM, nat), ParseError>,
    before: int,
    after: int,
) -> bool {
    match g {
        Ok((c, n)) => match r {
            Ok(x) => chunk_model(x) == c && after == before + n,
            Err(_) => false,
        },
        Err(err) => r == Err::<SpannedChunk, ParseError>(err),
    }
}

/// An argument list parse appended its arguments to `acc` and returned the
/// end of the closing `)`.
pub open spec fn args_outcome(
    r: Result<usize, ParseError>,
    g: Result<(Seq<ExprM>, usize, nat), ParseError>,
    old_acc: Seq<SpannedExpression>,
    new_acc: Seq<SpannedExpression>,
    before: int,
    after: int,
) -> bool {
    match g {
        Ok((items, end, n)) => r == Ok::<usize, ParseError>(end) && exprs_model(new_acc)
            == exprs_model(old_acc) + items && after == before + n,
        Err(err) => r == Err::<usize, ParseError>(err),
    }
}

/// A block parse appended its statements to `acc` and returned the end of the `}`.
pub open spec fn block_outcome(
    r: Result<usize, ParseError>,
    g: Result<(Seq<StmtM>, usize, nat), ParseError>,
    old_acc: Seq<SpannedStatement>,
    new_acc: Seq<SpannedStatement>,
    before: int,
    after: int,
) -> bool {
    match g {
        Ok((items, end, n)) => r == Ok::<usize, ParseError>(end) && stmts_model(new_acc)
            == stmts_model(old_acc) + items && after == before + n,
        Err(err) => r == Err::<usize, ParseError>(err),
    }
}

/// A parameter list parse appended its parameters to `acc` and returned the
/// end of the closing `)`.
pub open spec fn params_outcome(
    r: Result<usize, ParseError>,
    g: Result<(Seq<Param<SpannedIdentifier>>, usize, nat), ParseError>,
    old_acc: Seq<Param<SpannedIdentifier>>,
    new_acc: Seq<Param<SpannedIdentifier>>,
    before: int,
    after: int,
) -> bool {
    match g {
        Ok((items, end, n)) => r == Ok::<usize, ParseError>(end) && new_acc == old_acc + items
            && after == before + n,
        Err(err) => r == Err::<usize, ParseError>(err),
    }
}

fn is_unary_operator(lexer: &Lexer, s: Span) -> (r: bool)
    ensures
        r == is_unary_spelling(lexer.source(), s),
{
    lexer.spells1(s, 33) || lexer.spells1(s, 45)
}

fn is_assignment_operator(lexer: &Lexer, s: Span) -> (r: bool)
    ensures
        r == is_assign_spelling(lexer.source(), s),
{
    lexer.spells1(s, 61) || lexer.spells2(s, 43, 61) || lexer.spells2(s, 45, 61) || lexer.spells2(
        s,
        42,
        61,
    ) || lexer.spells2(s, 47, 61)
}

fn parse_error(t: Token, msg: &'static str) -> (r: ParseError)
    ensures
        r == syntax_error(t, msg),
{
    match t {
        Token::Unknown(s) => ParseError::UnknownToken(s),
        _ => ParseError::BadSyntax(t, msg),
    }
}

fn attach_unary_exec(e: SpannedExpression, op: Span) -> (r: SpannedExpression)
    ensures
        expr_model(r) == attach_unary(expr_model(e), op),
    decreases e,
{
    match e {
        Expression::BinaryOperator { left, span, precedence, right } => {
            let l = attach_unary_exec(*left, op);
            Expression::BinaryOperator { left: Box::new(l), span, precedence, right }
        },
        other => Expression::UnaryOperator { operation: op, expression: Box::new(other) },
    }
}

fn combine_exec(left: SpannedExpression, op: SpannedOperator, right: SpannedExpression) -> (r:
    SpannedExpression)
    ensures
        expr_model(r) == combine(expr_model(left), op, expr_model(right)),
{
    proof {
        reveal_with_fuel(expr_model, 3);
    }
    match right {
        Expression::BinaryOperator { left: mid, span, precedence, right: r } => {
            if op.precedence < precedence {
                let right = Expression::BinaryOperator { left: mid, span, precedence, right: r };
                Expression::BinaryOperator {
                    left: Box::new(left),
                    span: op.span,
                    precedence: op.precedence,
                    right: Box::new(right),
                }
            } else {
                let sunk = Expression::BinaryOperator {
                    left: Box::new(left),
                    span: op.span,
                    precedence: op.precedence,
                    right: mid,
                };
                Expression::BinaryOperator { left: Box::new(sunk), span, precedence, right: r }
            }
        },
        right => Expression::BinaryOperator {
            left: Box::new(left),
            span: op.span,
            precedence: op.precedence,
            right: Box::new(right),
        },
    }
}

proof fn lemma_push_exprs(v: Seq<SpannedExpression>, x: SpannedExpression)
    ensures
        exprs_model(v.push(x)) == exprs_model(v) + seq![expr_model(x)],
{
    assert(exprs_model(v.push(x)) =~= exprs_model(v) + seq![expr_model(x)]);
}

proof fn lemma_push_stmts(v: Seq<SpannedStatement>, x: SpannedStatement)
    ensures
        stmts_model(v.push(x)) == stmts_model(v) + seq![stmt_model(x)],
{
    assert(stmts_model(v.push(x)) =~= stmts_model(v) + seq![stmt_model(x)]);
}

/// The tree of one compilation unit, as parsed so far, and the source text
/// that its spans index.
#[derive(Debug)]
pub struct SpannedAstTree {
    pub input: Rc<str>,
    pub body: Vec<SpannedChunk>,
}

impl SpannedAstTree {
    pub fn from_rc_str(input: Rc<str>) -> (r: SpannedAstTree)
        ensures
            r.input == input,
            r.body@.len() == 0,
    {
        SpannedAstTree { input, body: Vec::new() }
    }

    /// Parses one expression at the cursor.
    pub fn parse_expression(&self, lexer: &mut Lexer) -> (r: Result<SpannedExpression, ParseError>)
        requires
            old(lexer).wf(),
        ensures
            final(lexer).wf(),
            final(lexer).source() == old(lexer).source(),
            expr_outcome(
                r,
                parse_expr(old(lexer).source(), old(lexer).position()),
                old(lexer).position(),
                final(lexer).position(),
            ),
        decreases remaining(old(lexer).source(), old(lexer).position()), 0int,
    {
        let ghost text = lexer.source();
        let ghost p = lexer.position();
        proof {
            lemma_lex_advances(text, p);
        }
        let t = lexer.next_token();
        match t {
            Token::Operator(o) => {
                if is_unary_operator(lexer, o.span) {
                    match self.parse_expression(lexer) {
                        Ok(e) => Ok(attach_unary_exec(e, o.span)),
                        Err(err) => Err(err),
                    }
                } else {
                    Err(parse_error(t, "Invalid operator to start expression"))
                }
            },
            Token::Identifier(id) => self.parse_after_identifier(lexer, id),
            Token::NumericLiteral(_) => Err(parse_error(t, "Numeric literals are not supported yet")),
            Token::LParen(lp) => self.parse_group(lexer, lp),
            _ => Err(parse_error(t, "Invalid start to expression")),
        }
    }

    fn parse_after_identifier(&self, lexer: &mut Lexer, id: SpannedIdentifier) -> (r: Result<
        SpannedExpression,
        ParseError,
    >)
        requires
            old(lexer).wf(),
        ensures
            final(lexer).wf(),
            final(lexer).source() == old(lexer).source(),
            expr_outcome(
                r,
                parse_after_identifier(old(lexer).source(), id, old(lexer).position()),
                old(lexer).position(),
                final(lexer).position(),
            ),
        decreases remaining(old(lexer).source(), old(lexer).position()), 1int,
    {
        let ghost text = lexer.source();
        let ghost q = lexer.position();
        proof {
            lemma_lex_advances(text, q);
        }
        let (t2, i2) = lexer.peek_next();
        match t2 {
            Token::LParen(lp) => {
                lexer.go_to(i2);
                let mut params: Vec<SpannedExpression> = Vec::new();
                let ghost empty = params@;
                match self.parse_arg_list(lexer, &mut params) {
                    Ok(end) => {
                        let ghost args = parse_arg_list(text, i2 as int)->Ok_0.0;
                        proof {
                            assert(exprs_model(empty) =~= Seq::<ExprM>::empty());
                            assert(exprs_model(params@) =~= args);
                        }
                        let call = Expression::Call {
                            name: id,
                            params,
                            span: Span { start: lp.start, end },
                        };
                        proof {
                            assert(expr_model(call)->Call_params =~= args);
                        }
                        self.parse_tail(lexer, call)
                    },
                    Err(err) => Err(err),
                }
            },
            _ => self.parse_tail(lexer, Expression::Identifier(id)),
        }
    }

    fn parse_group(&self, lexer: &mut Lexer, lp: Span) -> (r: Result<SpannedExpression, ParseError>)
        requires
            old(lexer).wf(),
        ensures
            final(lexer).wf(),
            final(lexer).source() == old(lexer).source(),
            expr_outcome(
                r,
                parse_group(old(lexer).source(), lp, old(lexer).position()),
                old(lexer).position(),
                final(lexer).position(),
            ),
        decreases remaining(old(lexer).source(), old(lexer).position()), 1int,
    {
        match self.parse_expression(lexer) {
            Ok(inner) => {
                proof {
                    lemma_lex_advances(lexer.source(), lexer.position());
                }
                let t2 = lexer.next_token();
                match t2 {
                    Token::RParen(rp) => {
                        let group = Expression::UnaryOperator {
                            operation: Span { start: lp.start, end: rp.end },
                            expression: Box::new(inner),
                        };
                        self.parse_tail(lexer, group)
                    },
                    _ => Err(parse_error(t2, "No matching closing parentheses")),
                }
            },
            Err(err) => Err(err),
        }
    }

    /// Parses one statement at the cursor.
    pub fn parse_statement(&self, lexer: &mut Lexer) -> (r: Result<SpannedStatement, ParseError>)
        requires
            old(lexer).wf(),
        ensures
            final(lexer).wf(),
            final(lexer).source() == old(lexer).source(),
            stmt_outcome(
                r,
                parse_stmt(old(lexer).source(), old(lexer).position()),
                old(lexer).position(),
                final(lexer).position(),
            ),
        decreases remaining(old(lexer).source(), old(lexer).position()), 2int,
    {
        proof {
            lemma_lex_advances(lexer.source(), lexer.position());
        }
        let t = lexer.next_token();
        self.parse_statement_from(lexer, t)
    }

    fn parse_statement_from(&self, lexer: &mut Lexer, t: Token) -> (r: Result<
        SpannedStatement,
        ParseError,
    >)
        requires
            old(lexer).wf(),
        ensures
            final(lexer).wf(),
            final(lexer).source() == old(lexer).source(),
            stmt_outcome(
                r,
                parse_stmt_from(old(lexer).source(), t, old(lexer).position()),
                old(lexer).position(),
                final(lexer).position(),
            ),
        decreases remaining(old(lexer).source(), old(lexer).position()), 1int,
    {
        match t {
            Token::Let(s) => self.parse_declaration(lexer, s),
            Token::If(s) => self.parse_if(lexer, s),
            Token::LBrace(s) => {
                let mut body: Vec<SpannedStatement> = Vec::new();
                let ghost empty = body@;
                match self.parse_block(lexer, &mut body) {
                    Ok(end) => {
                        proof {
                            assert(stmts_model(empty) =~= Seq::<StmtM>::empty());
                        }
                        let st = Statement::Scope { body, span: Span { start: s.start, end } };
                        proof {
                            assert(stmt_model(st)->Scope_body =~= stmts_model(body@));
                        }
                        Ok(st)
                    },
                    Err(err) => Err(err),
                }
            },
            Token::Identifier(name) => self.parse_call_or_assign(lexer, name),
            Token::Return(s) => self.parse_return(lexer, s),
            _ => Err(parse_error(t, "Invalid statement start")),
        }
    }

    fn parse_if(&self, lexer: &mut Lexer, s: Span) -> (r: Result<SpannedStatement, ParseError>)
        requires
            old(lexer).wf(),
        ensures
            final(lexer).wf(),
            final(lexer).source() == old(lexer).source(),
            stmt_outcome(
                r,
                parse_stmt_from(old(lexer).source(), Token::If(s), old(lexer).position()),
                old(lexer).position(),
                final(lexer).position(),
            ),
        decreases remaining(old(lexer).source(), old(lexer).position()), 0int,
    {
        proof {
            lemma_lex_advances(lexer.source(), lexer.position());
        }
        let t1 = lexer.next_token();
        match t1 {
            Token::LParen(_) => {},
            _ => return Err(parse_error(t1, "Please put condition in parentheses")),
        }
        let condition = match self.parse_expression(lexer) {
            Ok(c) => c,
            Err(err) => return Err(err),
        };
        let t2 = lexer.next_token();
        let rp = match t2 {
            Token::RParen(rp) => rp,
            _ => return Err(parse_error(t2, "Please close parentheses after condition")),
        };
        let statement = match self.parse_statement(lexer) {
            Ok(st) => st,
            Err(err) => return Err(err),
        };
        proof {
            lemma_lex_advances(lexer.source(), lexer.position());
        }
        let span = Span { start: s.start, end: rp.end };
        let (t3, i3) = lexer.peek_next();
        match t3 {
            Token::Else(_) => {
                lexer.go_to(i3);
                match self.parse_statement(lexer) {
                    Ok(e) => Ok(
                        Statement::If {
                            condition: Box::new(condition),
                            statement: Box::new(statement),
                            ielse: Some(Box::new(e)),
                            span,
                        },
                    ),
                    Err(err) => Err(err),
                }
            },
            _ => Ok(
                Statement::If {
                    condition: Box::new(condition),
                    statement: Box::new(statement),
                    ielse: None,
                    span,
                },
            ),
        }
    }

    /// The statements of a block after its `{`, appended to `acc`.
    fn parse_block(&self, lexer: &mut Lexer, acc: &mut Vec<SpannedStatement>) -> (r: Result<
        usize,
        ParseError,
    >)
        requires
            old(lexer).wf(),
        ensures
            final(lexer).wf(),
            final(lexer).source() == old(lexer).source(),
            block_outcome(
                r,
                parse_block(old(lexer).source(), old(lexer).position()),
                old(acc)@,
                final(acc)@,
                old(lexer).position(),
                final(lexer).position(),
            ),
        decreases remaining(old(lexer).source(), old(lexer).position()), 0int,
    {
        let ghost text = lexer.source();
        let ghost acc0 = acc@;
        proof {
            lemma_lex_advances(text, lexer.position());
        }
        let t = lexer.next_token();
        match t {
            Token::RBrace(s) => {
                proof {
                    assert(stmts_model(acc0) =~= stmts_model(acc0) + Seq::<StmtM>::empty());
                }
                Ok(s.end)
            },
            Token::EOF(_) => Err(parse_error(t, "Invalid statement start")),
            Token::Unknown(_) => Err(parse_error(t, "Invalid statement start")),
            _ => match self.parse_statement_from(lexer, t) {
                Ok(st) => {
                    let ghost sm = stmt_model(st);
                    acc.push(st);
                    proof {
                        lemma_push_stmts(acc0, st);
                    }
                    let ghost acc1 = acc@;
                    let ghost q = lexer.position();
                    let r = self.parse_block(lexer, acc);
                    proof {
                        if r is Ok {
                            let rest = parse_block(text, q)->Ok_0.0;
                            assert(stmts_model(acc1) + rest =~= stmts_model(acc0) + (seq![sm] + rest));
                        }
                    }
                    r
                },
                Err(err) => Err(err),
            },
        }
    }

    fn parse_declaration(&self, lexer: &mut Lexer, s: Span) -> (r: Result<
        SpannedStatement,
        ParseError,
    >)
        requires
            old(lexer).wf(),
        ensures
            final(lexer).wf(),
            final(lexer).source() == old(lexer).source(),
            stmt_outcome(
                r,
                parse_declaration(old(lexer).source(), s, old(lexer).position()),
                old(lexer).position(),
                final(lexer).position(),
            ),
    {
        let t1 = lexer.next_token();
        let name = match t1 {
            Token::Identifier(i) => i,
            _ => return Err(parse_error(t1, "Let statement followed by identifier")),
        };
        let t2 = lexer.next_token();
        match t2 {
            Token::Colon(_) => {},
            _ => return Err(parse_error(t2, "Please provide type for definition 'v: type'")),
        }
        let t3 = lexer.next_token();
        let rtype = match t3 {
            Token::Identifier(i) => i,
            _ => return Err(parse_error(t3, "Please annotate with type")),
        };
        let t4 = lexer.next_token();
        let eq = match t4 {
            Token::Operator(o) => lexer.spells1(o.span, 61),
            _ => false,
        };
        if !eq {
            return Err(parse_error(t4, "Please indicate an initial value using '='"));
        }
        let expression = match self.parse_expression(lexer) {
            Ok(e) => e,
            Err(err) => return Err(err),
        };
        let t5 = lexer.next_token();
        match t5 {
            Token::EOL(_) => Ok(
                Statement::Declaration { name, expression: Box::new(expression), rtype, span: s },
            ),
            _ => Err(parse_error(t5, "Please end statement with ';'")),
        }
    }

    fn expect_eol(&self, lexer: &mut Lexer, st: SpannedStatement) -> (r: Result<
        SpannedStatement,
        ParseError,
    >)
        requires
            old(lexer).wf(),
        ensures
            final(lexer).wf(),
            final(lexer).source() == old(lexer).source(),
            stmt_outcome(
                r,
                expect_eol(old(lexer).source(), stmt_model(st), old(lexer).position(), 0),
                old(lexer).position(),
                final(lexer).position(),
            ),
    {
        let t = lexer.next_token();
        match t {
            Token::EOL(_) => Ok(st),
            _ => Err(parse_error(t, "Please end statements in ';'")),
        }
    }

    fn parse_call_or_assign(&self, lexer: &mut Lexer, name: SpannedIdentifier) -> (r: Result<
        SpannedStatement,
        ParseError,
    >)
        requires
            old(lexer).wf(),
        ensures
            final(lexer).wf(),
            final(lexer).source() == old(lexer).source(),
            stmt_outcome(
                r,
                parse_call_or_assign(old(lexer).source(), name, old(lexer).position()),
                old(lexer).position(),
                final(lexer).position(),
            ),
    {
        let ghost text = lexer.source();
        let t1 = lexer.next_token();
        let ghost q1 = lexer.position();
        match t1 {
            Token::LParen(_) => {
                let mut params: Vec<SpannedExpression> = Vec::new();
                let ghost empty = params@;
                match self.parse_arg_list(lexer, &mut params) {
                    Ok(end) => {
                        proof {
                            assert(exprs_model(empty) =~= Seq::<ExprM>::empty());
                        }
                        let st = Statement::VoidCall {
                            name,
                            params,
                            span: Span { start: name.span.start, end },
                        };
                        proof {
                            assert(stmt_model(st)->VoidCall_params =~= parse_arg_list(text, q1)->Ok_0.0);
                        }
                        self.expect_eol(lexer, st)
                    },
                    Err(err) => Err(err),
                }
            },
            Token::Operator(o) => {
                if is_assignment_operator(lexer, o.span) {
                    match self.parse_expression(lexer) {
                        Ok(e) => {
                            let st = Statement::Reassignment {
                                name,
                                expression: Box::new(e),
                                span: o.span,
                            };
                            self.expect_eol(lexer, st)
                        },
                        Err(err) => Err(err),
                    }
                } else {
                    Err(
                        parse_error(
                            t1,
                            "Invalid token after identifier, either make function call or reassign variable",
                        ),
                    )
                }
            },
            _ => Err(
                parse_error(
                    t1,
                    "Invalid token after identifier, either make function call or reassign variable",
                ),
            ),
        }
    }

    fn parse_return(&self, lexer: &mut Lexer, s: Span) -> (r: Result<SpannedStatement, ParseError>)
        requires
            old(lexer).wf(),
        ensures
            final(lexer).wf(),
            final(lexer).source() == old(lexer).source(),
            stmt_outcome(
                r,
                parse_return(old(lexer).source(), s, old(lexer).position()),
                old(lexer).position(),
                final(lexer).position(),
            ),
    {
        let (t1, i1) = lexer.peek_next();
        match t1 {
            Token::EOL(e) => {
                lexer.go_to(i1);
                Ok(Statement::Return { expr: None, span: Span { start: s.start, end: e.end } })
            },
            _ => match self.parse_expression(lexer) {
                Ok(e) => {
                    let t2 = lexer.next_token();
                    match t2 {
                        Token::EOL(x) => Ok(
                            Statement::Return {
                                expr: Some(Box::new(e)),
                                span: Span { start: s.start, end: x.end },
                            },
                        ),
                        _ => Err(parse_error(t2, "Please end statements in ';'")),
                    }
                },
                Err(err) => Err(err),
            },
        }
    }

    /// Parses one top-level chunk at the cursor; `EOF` at the end of input.
    pub fn parse_chunk(&self, lexer: &mut Lexer) -> (r: Result<SpannedChunk, ParseError>)
        requires
            old(lexer).wf(),
        ensures
            final(lexer).wf(),
            final(lexer).source() == old(lexer).source(),
            chunk_outcome(
                r,
                parse_chunk_at(old(lexer).source(), old(lexer).position()),
                old(lexer).position(),
                final(lexer).position(),
            ),
    {
        let t = lexer.next_token();
        match t {
            Token::Fn(s) => self.parse_function(lexer, s),
            Token::EOF(_) => Ok(Chunk::EOF),
            Token::Const(_) => Err(
                parse_error(t, "Constant and static declarations are not supported yet"),
            ),
            Token::Static(_) => Err(
                parse_error(t, "Constant and static declarations are not supported yet"),
            ),
            _ => Err(
                parse_error(t, "Chunks are either constants, static declerations, or functions"),
            ),
        }
    }

    fn parse_function(&self, lexer: &mut Lexer, s: Span) -> (r: Result<SpannedChunk, ParseError>)
        requires
            old(lexer).wf(),
        ensures
            final(lexer).wf(),
            final(lexer).source() == old(lexer).source(),
            chunk_outcome(
                r,
                parse_function(old(lexer).source(), s, old(lexer).position()),
                old(lexer).position(),
                final(lexer).position(),
            ),
    {
        let t1 = lexer.next_token();
        let name = match t1 {
            Token::Identifier(i) => i,
            _ => return Err(parse_error(t1, "Function Needs Identifier")),
        };
        let t2 = lexer.next_token();
        match t2 {
            Token::LParen(_) => {},
            _ => return Err(
                parse_error(t2, "Function Definition requires parentheses, expected LParen"),
            ),
        }
        let mut params: Vec<SpannedParam> = Vec::new();
        let ghost empty = params@;
        let e = match self.parse_param_list(lexer, &mut params) {
            Ok(e) => e,
            Err(err) => return Err(err),
        };
        proof {
            assert(params@ =~= empty + params@);
        }
        let t4 = lexer.next_token();
        let rtype = match t4 {
            Token::Identifier(i) => i,
            _ => return Err(
                parse_error(t4, "Please put a return type at the end of function declarations"),
            ),
        };
        let t5 = lexer.next_token();
        match t5 {
            Token::LArrow(_) => {},
            _ => return Err(
                parse_error(t5, "Please put '-> between return type and function body"),
            ),
        }
        match self.parse_statement(lexer) {
            Ok(body) => Ok(
                Chunk::Function { name, params, rtype, body, span: Span { start: s.start, end: e } },
            ),
            Err(err) => Err(err),
        }
    }

    fn parse_param_list(&self, lexer: &mut Lexer, acc: &mut Vec<SpannedParam>) -> (r: Result<
        usize,
        ParseError,
    >)
        requires
            old(lexer).wf(),
        ensures
            final(lexer).wf(),
            final(lexer).source() == old(lexer).source(),
            params_outcome(
                r,
                parse_param_list(old(lexer).source(), old(lexer).position()),
                old(acc)@,
                final(acc)@,
                old(lexer).position(),
                final(lexer).position(),
            ),
    {
        let t = lexer.next_token();
        match t {
            Token::RParen(a) => {
                proof {
                    assert(acc@ =~= acc@ + Seq::<SpannedParam>::empty());
                }
                Ok(a.end)
            },
            Token::Identifier(first) => self.parse_params(lexer, first, acc),
            _ => Err(
                parse_error(t, "If no parameters, close parentheses, else, list parameters"),
            ),
        }
    }

    fn parse_params(&self, lexer: &mut Lexer, name: SpannedIdentifier, acc: &mut Vec<SpannedParam>) -> (r:
        Result<usize, ParseError>)
        requires
            old(lexer).wf(),
        ensures
            final(lexer).wf(),
            final(lexer).source() == old(lexer).source(),
            params_outcome(
                r,
                parse_params(old(lexer).source(), name, old(lexer).position()),
                old(acc)@,
                final(acc)@,
                old(lexer).position(),
                final(lexer).position(),
            ),
        decreases remaining(old(lexer).source(), old(lexer).position()),
    {
        let ghost text = lexer.source();
        let ghost acc0 = acc@;
        proof {
            lemma_lex_advances(text, lexer.position());
        }
        let t1 = lexer.next_token();
        match t1 {
            Token::Colon(_) => {},
            _ => return Err(parse_error(t1, "Function parameters require types, eg(a: Type)")),
        }
        let t2 = lexer.next_token();
        let ptype = match t2 {
            Token::Identifier(i) => i,
            _ => return Err(parse_error(t2, "Function parameters require types, eg(a: Type)")),
        };
        let param = Param { name, ptype };
        acc.push(param);
        let ghost acc1 = acc@;
        let t3 = lexer.next_token();
        match t3 {
            Token::RParen(e) => {
                proof {
                    assert(acc1 =~= acc0 + seq![param]);
                }
                Ok(e.end)
            },
            Token::Comma(_) => {
                let t4 = lexer.next_token();
                match t4 {
                    Token::Identifier(next) => {
                        let ghost q = lexer.position();
                        let r = self.parse_params(lexer, next, acc);
                        proof {
                            if r is Ok {
                                let rest = parse_params(text, next, q)->Ok_0.0;
                                assert(acc1 + rest =~= acc0 + (seq![param] + rest));
                            }
                        }
                        r
                    },
                    _ => Err(
                        parse_error(t4, "function parameters are made of characters or _"),
                    ),
                }
            },
            _ => Err(
                parse_error(
                    t3,
                    "Function parameters are seperated by commas and ended by a closing parenthesis",
                ),
            ),
        }
    }

    /// The chunks from the cursor to the end of input, appended to `acc`.
    fn parse_rest(&self, lexer: &mut Lexer, acc: &mut Vec<SpannedChunk>) -> (r: Result<
        (),
        ParseError,
    >)
        requires
            old(lexer).wf(),
        ensures
            final(lexer).wf(),
            final(lexer).source() == old(lexer).source(),
            match parse_program(old(lexer).source(), old(lexer).position()) {
                Ok(cs) => r is Ok && chunks_model(final(acc)@) == chunks_model(old(acc)@) + cs,
                Err(err) => r == Err::<(), ParseError>(err),
            },
        decreases remaining(old(lexer).source(), old(lexer).position()),
    {
        let ghost text = lexer.source();
        let ghost p = lexer.position();
        let ghost acc0 = acc@;
        proof {
            lemma_lex_advances(text, p);
        }
        match self.parse_chunk(lexer) {
            Ok(Chunk::EOF) => {
                proof {
                    assert(chunks_model(acc0) =~= chunks_model(acc0) + Seq::<ChunkM>::empty());
                }
                Ok(())
            },
            Ok(c) => {
                let ghost cm = chunk_model(c);
                acc.push(c);
                proof {
                    assert(chunks_model(acc@) =~= chunks_model(acc0) + seq![cm]);
                }
                let ghost acc1 = acc@;
                let ghost q = lexer.position();
                let r = self.parse_rest(lexer, acc);
                proof {
                    if r is Ok {
                        let rest = parse_program(text, q)->Ok_0;
                        assert(chunks_model(acc1) + rest =~= chunks_model(acc0) + (seq![cm] + rest));
                    }
                }
                r
            },
            Err(err) => Err(err),
        }
    }

    /// Parses every chunk up to the end of input and appends them to the
    /// tree. On an error the tree is left as it was.
    pub fn parse_all(&mut self, lexer: &mut Lexer) -> (r: Result<(), ParseError>)
        requires
            old(lexer).wf(),
        ensures
            final(lexer).wf(),
            final(lexer).source() == old(lexer).source(),
            final(self).input == old(self).input,
            match parse_program(old(lexer).source(), old(lexer).position()) {
                Ok(cs) => r is Ok && chunks_model(final(self).body@) == chunks_model(
                    old(self).body@,
                ) + cs,
                Err(err) => r == Err::<(), ParseError>(err) && final(self).body@ == old(
                    self,
                ).body@,
            },
    {
        let mut chunks: Vec<SpannedChunk> = Vec::new();
        let ghost empty = chunks@;
        match self.parse_rest(lexer, &mut chunks) {
            Ok(()) => {
                let ghost body0 = self.body@;
                let ghost parsed = chunks@;
                self.body.append(&mut chunks);
                proof {
                    assert(chunks_model(empty) =~= Seq::<ChunkM>::empty());
                    assert(chunks_model(body0 + parsed) =~= chunks_model(body0) + chunks_model(parsed));
                }
                Ok(())
            },
            Err(err) => Err(err),
        }
    }

    /// After an operand: an operator continues the expression.
    fn parse_tail(&self, lexer: &mut Lexer, left: SpannedExpression) -> (r: Result<
        SpannedExpression,
        ParseError,
    >)
        requires
            old(lexer).wf(),
        ensures
            final(lexer).wf(),
            final(lexer).source() == old(lexer).source(),
            expr_outcome(
                r,
                parse_tail(old(lexer).source(), expr_model(left), old(lexer).position()),
                old(lexer).position(),
                final(lexer).position(),
            ),
        decreases remaining(old(lexer).source(), old(lexer).position()), 0int,
    {
        proof {
            lemma_lex_advances(lexer.source(), lexer.position());
        }
        let (t, i) = lexer.peek_next();
        match t {
            Token::Operator(o) => {
                lexer.go_to(i);
                match self.parse_expression(lexer) {
                    Ok(right) => Ok(combine_exec(left, o, right)),
                    Err(err) => Err(err),
                }
            },
            _ => Ok(left),
        }
    }

    /// The arguments of a call after its `(`, appended to `acc`.
    fn parse_arg_list(&self, lexer: &mut Lexer, acc: &mut Vec<SpannedExpression>) -> (r: Result<
        usize,
        ParseError,
    >)
        requires
            old(lexer).wf(),
        ensures
            final(lexer).wf(),
            final(lexer).source() == old(lexer).source(),
            args_outcome(
                r,
                parse_arg_list(old(lexer).source(), old(lexer).position()),
                old(acc)@,
                final(acc)@,
                old(lexer).position(),
                final(lexer).position(),
            ),
        decreases remaining(old(lexer).source(), old(lexer).position()), 2int,
    {
        let (t, i) = lexer.peek_next();
        match t {
            Token::RParen(s) => {
                lexer.go_to(i);
                proof {
                    assert(exprs_model(acc@) =~= exprs_model(acc@) + Seq::<ExprM>::empty());
                }
                Ok(s.end)
            },
            _ => self.parse_arg_items(lexer, acc),
        }
    }

    fn parse_arg_items(&self, lexer: &mut Lexer, acc: &mut Vec<SpannedExpression>) -> (r: Result<
        usize,
        ParseError,
    >)
        requires
            old(lexer).wf(),
        ensures
            final(lexer).wf(),
            final(lexer).source() == old(lexer).source(),
            args_outcome(
                r,
                parse_arg_items(old(lexer).source(), old(lexer).position()),
                old(acc)@,
                final(acc)@,
                old(lexer).position(),
                final(lexer).position(),
            ),
        decreases remaining(old(lexer).source(), old(lexer).position()), 1int,
    {
        let ghost text = lexer.source();
        let ghost p = lexer.position();
        let ghost acc0 = acc@;
        match self.parse_expression(lexer) {
            Ok(e) => {
                let ghost em = expr_model(e);
                acc.push(e);
                proof {
                    lemma_push_exprs(acc0, e);
                    lemma_lex_advances(text, lexer.position());
                }
                let ghost acc1 = acc@;
                let t = lexer.next_token();
                let ghost old_pos_after_comma = lexer.position();
                match t {
                    Token::Comma(_) => {
                        let ghost mid = exprs_model(acc1);
                        let r = self.parse_arg_items(lexer, acc);
                        proof {
                            if r is Ok {
                                let rest = parse_arg_items(text, old_pos_after_comma)->Ok_0.0;
                                assert(mid + rest =~= exprs_model(acc0) + (seq![em] + rest));
                            }
                        }
                        r
                    },
                    Token::RParen(s) => Ok(s.end),
                    _ => Err(
                        parse_error(
                            t,
                            "Either terminate parameter calls, or seperate them with a comma",
                        ),
                    ),
                }
            },
            Err(err) => Err(err),
        }
    }
}

} // verus!
