//! Source spans and the tokens that the lexer produces.
use vstd::prelude::*;

verus! {

/// A half-open byte range `start..end` into the source buffer.
#[derive(Debug, Clone, Copy, PartialEq, Eq, Structural)]
pub struct Span {
    pub start: usize,
    pub end: usize,
}

impl Span {
    pub open spec fn from_ints(start: int, end: int) -> Span {
        Span { start: start as usize, end: end as usize }
    }
}

/// An identifier occurrence, before name resolution.
#[derive(Debug, Clone, Copy, PartialEq, Eq, Structural)]
pub struct SpannedIdentifier {
    pub span: Span,
}

/// An operator occurrence with its binding strength (lower binds looser).
#[derive(Debug, Clone, Copy, PartialEq, Eq, Structural)]
pub struct SpannedOperator {
    pub span: Span,
    pub precedence: usize,
}

/// One lexeme of the source text.
#[derive(Debug, Clone, Copy, PartialEq, Eq, Structural)]
pub enum Token {
    Colon(Span),
    Comma(Span),
    LArrow(Span),
    Const(Span),
    Static(Span),
    Fn(Span),
    EOF(Span),
    Let(Span),
    If(Span),
    Else(Span),
    LBrace(Span),
    RBrace(Span),
    Return(Span),
    EOL(Span),
    NumericLiteral(Span),
    Identifier(SpannedIdentifier),
    Operator(SpannedOperator),
    LParen(Span),
    RParen(Span),
    Unknown(Span),
}

impl Token {
    /// The source range that the token covers.
    pub open spec fn span(self) -> Span {
        match self {
            Token::Colon(s) => s,
            Token::Comma(s) => s,
            Token::LArrow(s) => s,
            Token::Const(s) => s,
            Token::Static(s) => s,
            Token::Fn(s) => s,
            Token::EOF(s) => s,
            Token::Let(s) => s,
            Token::If(s) => s,
            Token::Else(s) => s,
            Token::LBrace(s) => s,
            Token::RBrace(s) => s,
            Token::Return(s) => s,
            Token::EOL(s) => s,
            Token::NumericLiteral(s) => s,
            Token::Identifier(i) => i.span,
            Token::Operator(o) => o.span,
            Token::LParen(s) => s,
            Token::RParen(s) => s,
            Token::Unknown(s) => s,
        }
    }

    /// The same kind of token (and, for an operator, the same precedence) over span `s`.
    pub open spec fn with_span(self, s: Span) -> Token {
        match self {
            Token::Colon(_) => Token::Colon(s),
            Token::Comma(_) => Token::Comma(s),
            Token::LArrow(_) => Token::LArrow(s),
            Token::Const(_) => Token::Const(s),
            Token::Static(_) => Token::Static(s),
            Token::Fn(_) => Token::Fn(s),
            Token::EOF(_) => Token::EOF(s),
            Token::Let(_) => Token::Let(s),
            Token::If(_) => Token::If(s),
            Token::Else(_) => Token::Else(s),
            Token::LBrace(_) => Token::LBrace(s),
            Token::RBrace(_) => Token::RBrace(s),
            Token::Return(_) => Token::Return(s),
            Token::EOL(_) => Token::EOL(s),
            Token::NumericLiteral(_) => Token::NumericLiteral(s),
            Token::Identifier(_) => Token::Identifier(SpannedIdentifier { span: s }),
            Token::Operator(o) => Token::Operator(SpannedOperator { span: s, precedence: o.precedence }),
            Token::LParen(_) => Token::LParen(s),
            Token::RParen(_) => Token::RParen(s),
            Token::Unknown(_) => Token::Unknown(s),
        }
    }

    pub fn get_span(&self) -> (r: Span)
        ensures
            r == self.span(),
    {
        match self {
            Token::Colon(s) => *s,
            Token::Comma(s) => *s,
            Token::LArrow(s) => *s,
            Token::Const(s) => *s,
            Token::Static(s) => *s,
            Token::Fn(s) => *s,
            Token::EOF(s) => *s,
            Token::Let(s) => *s,
            Token::If(s) => *s,
            Token::Else(s) => *s,
            Token::LBrace(s) => *s,
            Token::RBrace(s) => *s,
            Token::Return(s) => *s,
            Token::EOL(s) => *s,
            Token::NumericLiteral(s) => *s,
            Token::Identifier(i) => i.span,
            Token::Operator(o) => o.span,
            Token::LParen(s) => *s,
            Token::RParen(s) => *s,
            Token::Unknown(s) => *s,
        }
    }

    pub fn set_span(self, s: Span) -> (r: Token)
        ensures
            r == self.with_span(s),
            r.span() == s,
    {
        match self {
            Token::Colon(_) => Token::Colon(s),
            Token::Comma(_) => Token::Comma(s),
            Token::LArrow(_) => Token::LArrow(s),
            Token::Const(_) => Token::Const(s),
            Token::Static(_) => Token::Static(s),
            Token::Fn(_) => Token::Fn(s),
            Token::EOF(_) => Token::EOF(s),
            Token::Let(_) => Token::Let(s),
            Token::If(_) => Token::If(s),
            Token::Else(_) => Token::Else(s),
            Token::LBrace(_) => Token::LBrace(s),
            Token::RBrace(_) => Token::RBrace(s),
            Token::Return(_) => Token::Return(s),
            Token::EOL(_) => Token::EOL(s),
            Token::NumericLiteral(_) => Token::NumericLiteral(s),
            Token::Identifier(_) => Token::Identifier(SpannedIdentifier { span: s }),
            Token::Operator(o) => Token::Operator(SpannedOperator { span: s, precedence: o.precedence }),
            Token::LParen(_) => Token::LParen(s),
            Token::RParen(_) => Token::RParen(s),
            Token::Unknown(_) => Token::Unknown(s),
        }
    }
}

} // verus!
