//! The tokenizer: a cursor over the source bytes, with a declarative
//! definition (`lex`) of the token found at any position.
use std::rc::Rc;
use vstd::prelude::*;
use vstd::string::StringSliceAdditionalSpecFns;

use crate::tokens::{Span, SpannedIdentifier, SpannedOperator, Token};

verus! {

// Byte classes. Letters are the ASCII letters; a byte outside ASCII starts no
// word, number or symbol, so it is reported as an unknown token.
pub open spec fn is_space(b: u8) -> bool {
    b == 9 || b == 10 || b == 11 || b == 12 || b == 13 || b == 32
}

pub open spec fn is_word_byte(b: u8) -> bool {
    (65 <= b && b <= 90) || (97 <= b && b <= 122) || b == 95
}

pub open spec fn is_digit_byte(b: u8) -> bool {
    48 <= b && b <= 57
}

/// Bytes that may continue a numeric literal: digits and `.`.
pub open spec fn is_number_byte(b: u8) -> bool {
    is_digit_byte(b) || b == 46
}

/// How many bytes from `i` on are whitespace.
pub open spec fn space_run(text: Seq<u8>, i: int) -> nat
    decreases text.len() - i,
{
    if 0 <= i < text.len() && is_space(text[i]) {
        1 + space_run(text, i + 1)
    } else {
        0
    }
}

/// How many bytes from `i` on are letters or `_`.
pub open spec fn word_run(text: Seq<u8>, i: int) -> nat
    decreases text.len() - i,
{
    if 0 <= i < text.len() && is_word_byte(text[i]) {
        1 + word_run(text, i + 1)
    } else {
        0
    }
}

/// How many bytes from `i` on are digits or `.`.
pub open spec fn number_run(text: Seq<u8>, i: int) -> nat
    decreases text.len() - i,
{
    if 0 <= i < text.len() && is_number_byte(text[i]) {
        1 + number_run(text, i + 1)
    } else {
        0
    }
}

/// `pat` occurs in `text` at offset `at`.
pub open spec fn has_at(text: Seq<u8>, at: int, pat: Seq<u8>) -> bool {
    0 <= at && at + pat.len() <= text.len() && text.subrange(at, at + pat.len()) == pat
}

pub open spec fn kw_let() -> Seq<u8> { seq![108u8, 101, 116] }
pub open spec fn kw_if() -> Seq<u8> { seq![105u8, 102] }
pub open spec fn kw_fn() -> Seq<u8> { seq![102u8, 110] }
pub open spec fn kw_const() -> Seq<u8> { seq![99u8, 111, 110, 115, 116] }
pub open spec fn kw_static() -> Seq<u8> { seq![115u8, 116, 97, 116, 105, 99] }
pub open spec fn kw_else() -> Seq<u8> { seq![101u8, 108, 115, 101] }
pub open spec fn kw_return() -> Seq<u8> { seq![114u8, 101, 116, 117, 114, 110] }

/// The source text of span `s` is exactly `pat`.
pub open spec fn spelled(text: Seq<u8>, s: Span, pat: Seq<u8>) -> bool {
    s.start <= s.end <= text.len() && text.subrange(s.start as int, s.end as int) == pat
}

/// The token for a whole word: a keyword when it is spelled exactly as one
/// (`let`, `if`, `fn`, `const`, `static`, `else`, `return`), else an identifier.
pub open spec fn word_token(word: Seq<u8>, s: Span) -> Token {
    if word == kw_let() {
        Token::Let(s)
    } else if word == kw_if() {
        Token::If(s)
    } else if word == kw_fn() {
        Token::Fn(s)
    } else if word == kw_const() {
        Token::Const(s)
    } else if word == kw_static() {
        Token::Static(s)
    } else if word == kw_else() {
        Token::Else(s)
    } else if word == kw_return() {
        Token::Return(s)
    } else {
        Token::Identifier(SpannedIdentifier { span: s })
    }
}

pub open spec fn operator(precedence: usize) -> Token {
    Token::Operator(SpannedOperator { span: Span { start: 0, end: 0 }, precedence })
}

/// The symbol table, tried in order: a symbol is listed before any shorter
/// one that is a prefix of it. Operators carry their precedence: assignments
/// 0, `==` 1, `+` `-` 2, `*` `/` 3, `!` 5.
pub open spec fn symbol_at(text: Seq<u8>, s: int) -> Option<(nat, Token)> {
    let z = Span { start: 0, end: 0 };
    if has_at(text, s, seq![44u8]) {
        Some((1, Token::Comma(z)))
    } else if has_at(text, s, seq![58u8]) {
        Some((1, Token::Colon(z)))
    } else if has_at(text, s, seq![59u8]) {
        Some((1, Token::EOL(z)))
    } else if has_at(text, s, seq![40u8]) {
        Some((1, Token::LParen(z)))
    } else if has_at(text, s, seq![41u8]) {
        Some((1, Token::RParen(z)))
    } else if has_at(text, s, seq![123u8]) {
        Some((1, Token::LBrace(z)))
    } else if has_at(text, s, seq![125u8]) {
        Some((1, Token::RBrace(z)))
    } else if has_at(text, s, seq![45u8, 62]) {
        Some((2, Token::LArrow(z)))
    } else if has_at(text, s, seq![61u8, 61]) {
        Some((2, operator(1)))
    } else if has_at(text, s, seq![33u8]) {
        Some((1, operator(5)))
    } else if has_at(text, s, seq![61u8]) {
        Some((1, operator(0)))
    } else if has_at(text, s, seq![43u8, 61]) {
        Some((2, operator(0)))
    } else if has_at(text, s, seq![45u8, 61]) {
        Some((2, operator(0)))
    } else if has_at(text, s, seq![42u8, 61]) {
        Some((2, operator(0)))
    } else if has_at(text, s, seq![47u8, 61]) {
        Some((2, operator(0)))
    } else if has_at(text, s, seq![43u8]) {
        Some((1, operator(2)))
    } else if has_at(text, s, seq![45u8]) {
        Some((1, operator(2)))
    } else if has_at(text, s, seq![42u8]) {
        Some((1, operator(3)))
    } else if has_at(text, s, seq![47u8]) {
        Some((1, operator(3)))
    } else {
        None
    }
}

/// The token that starts at or after `i` (whitespace skipped), and how many
/// bytes were consumed to reach its end. End of input gives a zero-width
/// `EOF`; a byte that starts nothing gives a zero-width `Unknown` and is
/// not consumed.
pub open spec fn lex(text: Seq<u8>, i: int) -> (Token, nat) {
    let sp = space_run(text, i);
    let s = i + sp;
    if s >= text.len() {
        (Token::EOF(Span::from_ints(s, s)), sp)
    } else if is_word_byte(text[s]) {
        let e = s + 1 + word_run(text, s + 1);
        (word_token(text.subrange(s, e), Span::from_ints(s, e)), (e - i) as nat)
    } else if is_digit_byte(text[s]) {
        let e = s + 1 + number_run(text, s + 1);
        (Token::NumericLiteral(Span::from_ints(s, e)), (e - i) as nat)
    } else {
        match symbol_at(text, s) {
            Some((n, t)) => (t.with_span(Span::from_ints(s, s + n)), (sp + n) as nat),
            None => (Token::Unknown(Span::from_ints(s, s)), sp),
        }
    }
}

/// Only the end of input and an unknown byte are read without consuming.
pub proof fn lemma_lex_advances(text: Seq<u8>, i: int)
    requires
        0 <= i,
    ensures
        !(lex(text, i).0 is EOF) && !(lex(text, i).0 is Unknown) ==> lex(text, i).1 > 0,
        i <= text.len() ==> i + lex(text, i).1 <= text.len(),
{
    if i <= text.len() {
        lemma_runs_bounded(text, i);
        let s = i + space_run(text, i);
        if s < text.len() {
            lemma_runs_bounded(text, s + 1);
        }
    }
}

pub proof fn lemma_runs_bounded(text: Seq<u8>, i: int)
    requires
        0 <= i <= text.len(),
    ensures
        i + space_run(text, i) <= text.len(),
        i + word_run(text, i) <= text.len(),
        i + number_run(text, i) <= text.len(),
    decreases text.len() - i,
{
    if i < text.len() {
        lemma_runs_bounded(text, i + 1);
    }
}

fn is_space_byte(b: u8) -> (r: bool)
    ensures
        r == is_space(b),
{
    b == 9 || b == 10 || b == 11 || b == 12 || b == 13 || b == 32
}

fn is_word(b: u8) -> (r: bool)
    ensures
        r == is_word_byte(b),
{
    (65 <= b && b <= 90) || (97 <= b && b <= 122) || b == 95
}

fn is_digit(b: u8) -> (r: bool)
    ensures
        r == is_digit_byte(b),
{
    48 <= b && b <= 57
}

fn is_number(b: u8) -> (r: bool)
    ensures
        r == is_number_byte(b),
{
    (48 <= b && b <= 57) || b == 46
}

fn bytes_at(text: &Vec<u8>, at: usize, pat: &[u8]) -> (r: bool)
    ensures
        r == has_at(text@, at as int, pat@),
{
    if pat.len() > text.len() || at > text.len() - pat.len() {
        return false;
    }
    let mut k: usize = 0;
    while k < pat.len()
        invariant
            k <= pat.len(),
            at + pat.len() <= text.len(),
            forall|j: int| 0 <= j < k ==> text@[at + j] == pat@[j],
        decreases pat.len() - k,
    {
        if text[at + k] != pat[k] {
            assert(text@.subrange(at as int, at + pat.len())[k as int] != pat@[k as int]);
            return false;
        }
        k += 1;
    }
    assert(text@.subrange(at as int, at + pat.len()) =~= pat@);
    true
}

fn kw_let_bytes() -> (r: &'static [u8])
    ensures
        r@ == kw_let(),
{
    let r: &'static [u8] = &[108u8, 101, 116];
    proof { assert(r@ =~= kw_let()); }
    r
}

fn kw_if_bytes() -> (r: &'static [u8])
    ensures
        r@ == kw_if(),
{
    let r: &'static [u8] = &[105u8, 102];
    proof { assert(r@ =~= kw_if()); }
    r
}

fn kw_fn_bytes() -> (r: &'static [u8])
    ensures
        r@ == kw_fn(),
{
    let r: &'static [u8] = &[102u8, 110];
    proof { assert(r@ =~= kw_fn()); }
    r
}

fn kw_const_bytes() -> (r: &'static [u8])
    ensures
        r@ == kw_const(),
{
    let r: &'static [u8] = &[99u8, 111, 110, 115, 116];
    proof { assert(r@ =~= kw_const()); }
    r
}

fn kw_static_bytes() -> (r: &'static [u8])
    ensures
        r@ == kw_static(),
{
    let r: &'static [u8] = &[115u8, 116, 97, 116, 105, 99];
    proof { assert(r@ =~= kw_static()); }
    r
}

fn kw_else_bytes() -> (r: &'static [u8])
    ensures
        r@ == kw_else(),
{
    let r: &'static [u8] = &[101u8, 108, 115, 101];
    proof { assert(r@ =~= kw_else()); }
    r
}

fn kw_return_bytes() -> (r: &'static [u8])
    ensures
        r@ == kw_return(),
{
    let r: &'static [u8] = &[114u8, 101, 116, 117, 114, 110];
    proof { assert(r@ =~= kw_return()); }
    r
}

fn word_token_at(text: &Vec<u8>, start: usize, end: usize) -> (r: Token)
    requires
        start <= end <= text.len(),
    ensures
        r == word_token(text@.subrange(start as int, end as int), Span { start, end }),
{
    let s = Span { start, end };
    let n = end - start;
    proof {
        assert(kw_let().len() == 3);
        assert(kw_if().len() == 2);
        assert(kw_fn().len() == 2);
        assert(kw_const().len() == 5);
        assert(kw_static().len() == 6);
        assert(kw_else().len() == 4);
        assert(kw_return().len() == 6);
    }
    if n == 3 && bytes_at(text, start, kw_let_bytes()) {
        Token::Let(s)
    } else if n == 2 && bytes_at(text, start, kw_if_bytes()) {
        Token::If(s)
    } else if n == 2 && bytes_at(text, start, kw_fn_bytes()) {
        Token::Fn(s)
    } else if n == 5 && bytes_at(text, start, kw_const_bytes()) {
        Token::Const(s)
    } else if n == 6 && bytes_at(text, start, kw_static_bytes()) {
        Token::Static(s)
    } else if n == 4 && bytes_at(text, start, kw_else_bytes()) {
        Token::Else(s)
    } else if n == 6 && bytes_at(text, start, kw_return_bytes()) {
        Token::Return(s)
    } else {
        Token::Identifier(SpannedIdentifier { span: s })
    }
}

fn at1(text: &Vec<u8>, s: usize, a: u8) -> (r: bool)
    ensures
        r == has_at(text@, s as int, seq![a]),
{
    if s < text.len() && text[s] == a {
        assert(text@.subrange(s as int, s + 1) =~= seq![a]);
        true
    } else {
        proof {
            if s < text.len() {
                assert(text@.subrange(s as int, s + 1)[0] == text@[s as int]);
            }
        }
        false
    }
}

fn at2(text: &Vec<u8>, s: usize, a: u8, b: u8) -> (r: bool)
    ensures
        r == has_at(text@, s as int, seq![a, b]),
{
    if text.len() >= 2 && s <= text.len() - 2 && text[s] == a && text[s + 1] == b {
        assert(text@.subrange(s as int, s + 2) =~= seq![a, b]);
        true
    } else {
        proof {
            if text.len() >= 2 && s <= text.len() - 2 {
                assert(text@.subrange(s as int, s + 2)[0] == text@[s as int]);
                assert(text@.subrange(s as int, s + 2)[1] == text@[s + 1]);
            }
        }
        false
    }
}

fn op(precedence: usize) -> (r: Token)
    ensures
        r == operator(precedence),
{
    Token::Operator(SpannedOperator { span: Span { start: 0, end: 0 }, precedence })
}

fn symbol_at_exec(text: &Vec<u8>, s: usize) -> (r: Option<(usize, Token)>)
    ensures
        match symbol_at(text@, s as int) {
            Some((n, t)) => r == Some((n as usize, t)),
            None => r is None,
        },
{
    let z = Span { start: 0, end: 0 };
    if at1(text, s, 44u8) {
        Some((1, Token::Comma(z)))
    } else if at1(text, s, 58u8) {
        Some((1, Token::Colon(z)))
    } else if at1(text, s, 59u8) {
        Some((1, Token::EOL(z)))
    } else if at1(text, s, 40u8) {
        Some((1, Token::LParen(z)))
    } else if at1(text, s, 41u8) {
        Some((1, Token::RParen(z)))
    } else if at1(text, s, 123u8) {
        Some((1, Token::LBrace(z)))
    } else if at1(text, s, 125u8) {
        Some((1, Token::RBrace(z)))
    } else if at2(text, s, 45u8, 62u8) {
        Some((2, Token::LArrow(z)))
    } else if at2(text, s, 61u8, 61u8) {
        Some((2, op(1)))
    } else if at1(text, s, 33u8) {
        Some((1, op(5)))
    } else if at1(text, s, 61u8) {
        Some((1, op(0)))
    } else if at2(text, s, 43u8, 61u8) {
        Some((2, op(0)))
    } else if at2(text, s, 45u8, 61u8) {
        Some((2, op(0)))
    } else if at2(text, s, 42u8, 61u8) {
        Some((2, op(0)))
    } else if at2(text, s, 47u8, 61u8) {
        Some((2, op(0)))
    } else if at1(text, s, 43u8) {
        Some((1, op(2)))
    } else if at1(text, s, 45u8) {
        Some((1, op(2)))
    } else if at1(text, s, 42u8) {
        Some((1, op(3)))
    } else if at1(text, s, 47u8) {
        Some((1, op(3)))
    } else {
        None
    }
}

/// The tokenizer: the source bytes and a cursor into them. Peeking is a
/// scan that does not move the cursor; `go_to` moves it back or forth.
#[derive(Debug)]
pub struct Lexer {
    text: Vec<u8>,
    index: usize,
}

impl Lexer {
    pub closed spec fn source(&self) -> Seq<u8> {
        self.text@
    }

    pub closed spec fn position(&self) -> int {
        self.index as int
    }

    pub open spec fn wf(&self) -> bool {
        0 <= self.position() <= self.source().len()
    }

    pub fn from_string(text: String) -> (r: Lexer)
        ensures
            r.source() == vstd::utf8::encode_utf8(text@),
            r.position() == 0,
            r.wf(),
    {
        Lexer { text: vstd::slice::slice_to_vec(text.as_str().as_bytes()), index: 0 }
    }

    pub fn from_rc_str(text: Rc<str>) -> (r: Lexer)
        ensures
            r.source() == (*text).spec_bytes(),
            r.position() == 0,
            r.wf(),
    {
        let s: &str = &text;
        Lexer { text: vstd::slice::slice_to_vec(s.as_bytes()), index: 0 }
    }

    /// The cursor's byte offset.
    pub fn get_index(&self) -> (r: usize)
        ensures
            r == self.position(),
    {
        self.index
    }

    /// The next token and the cursor position after it, without moving.
    pub fn peek_next(&self) -> (r: (Token, usize))
        requires
            self.wf(),
        ensures
            r.0 == lex(self.source(), self.position()).0,
            r.1 == self.position() + lex(self.source(), self.position()).1,
    {
        proof {
            lemma_lex_advances(self.text@, self.index as int);
            lemma_runs_bounded(self.text@, self.index as int);
        }
        let len = self.text.len();
        let mut i = self.index;
        while i < len && is_space_byte(self.text[i])
            invariant
                self.index <= i <= len,
                len == self.text@.len(),
                self.index + space_run(self.text@, self.index as int) == i + space_run(
                    self.text@,
                    i as int,
                ),
            decreases len - i,
        {
            i += 1;
        }
        let start = i;
        if start == len {
            return (Token::EOF(Span { start, end: start }), start);
        }
        let c = self.text[start];
        if is_word(c) {
            i = start + 1;
            proof { lemma_runs_bounded(self.text@, i as int); }
            while i < len && is_word(self.text[i])
                invariant
                    start < i <= len,
                    len == self.text@.len(),
                    start + 1 + word_run(self.text@, start + 1) == i + word_run(self.text@, i as int),
                decreases len - i,
            {
                i += 1;
            }
            return (word_token_at(&self.text, start, i), i);
        }
        if is_digit(c) {
            i = start + 1;
            proof { lemma_runs_bounded(self.text@, i as int); }
            while i < len && is_number(self.text[i])
                invariant
                    start < i <= len,
                    len == self.text@.len(),
                    start + 1 + number_run(self.text@, start + 1) == i + number_run(
                        self.text@,
                        i as int,
                    ),
                decreases len - i,
            {
                i += 1;
            }
            return (Token::NumericLiteral(Span { start, end: i }), i);
        }
        match symbol_at_exec(&self.text, start) {
            Some((n, t)) => {
                let end = start + n;
                (t.set_span(Span { start, end }), end)
            },
            None => (Token::Unknown(Span { start, end: start }), start),
        }
    }

    /// Consumes and returns the next token.
    pub fn next_token(&mut self) -> (r: Token)
        requires
            old(self).wf(),
        ensures
            final(self).wf(),
            final(self).source() == old(self).source(),
            r == lex(old(self).source(), old(self).position()).0,
            final(self).position() == old(self).position() + lex(
                old(self).source(),
                old(self).position(),
            ).1,
    {
        proof { lemma_lex_advances(self.text@, self.index as int); }
        let (t, i) = self.peek_next();
        self.index = i;
        t
    }

    /// The text of span `s` is the single byte `a`.
    pub(crate) fn spells1(&self, s: Span, a: u8) -> (r: bool)
        ensures
            r == spelled(self.source(), s, seq![a]),
    {
        proof {
            assert(seq![a].len() == 1);
        }
        if s.start <= s.end && s.end <= self.text.len() && s.end - s.start == 1 {
            at1(&self.text, s.start, a)
        } else {
            false
        }
    }

    /// The text of span `s` is the two bytes `a`, `b`.
    pub(crate) fn spells2(&self, s: Span, a: u8, b: u8) -> (r: bool)
        ensures
            r == spelled(self.source(), s, seq![a, b]),
    {
        proof {
            assert(seq![a, b].len() == 2);
        }
        if s.start <= s.end && s.end <= self.text.len() && s.end - s.start == 2 {
            at2(&self.text, s.start, a, b)
        } else {
            false
        }
    }

    /// Moves the cursor to byte offset `i`.
    pub fn go_to(&mut self, i: usize)
        requires
            i <= old(self).source().len(),
        ensures
            final(self).wf(),
            final(self).source() == old(self).source(),
            final(self).position() == i,
    {
        self.index = i;
    }
}

} // verus!
