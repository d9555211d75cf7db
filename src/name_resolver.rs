//! Name resolution: interns every identifier spelling, in order of first
//! sight, and replaces each occurrence by its id.
use std::rc::Rc;
use vstd::prelude::*;
use vstd::string::StringSliceAdditionalSpecFns;

use crate::ast::{
    chunk_model, chunks_model, expr_model, exprs_model, stmt_model, stmts_model, Chunk,
    ChunkModel, ExprModel, Expression, IdentifierId, Param, ResolvedChunk, ResolvedExpression,
    ResolvedIdentifier, ResolvedParam, ResolvedStatement, SpannedChunk, SpannedExpression,
    SpannedParam, SpannedStatement, Statement, StmtModel,
};
use crate::parser::SpannedAstTree;
use crate::tokens::{Span, SpannedIdentifier};

verus! {

/// The text of span `s`, clipped to the buffer.
pub open spec fn spelling(text: Seq<u8>, s: Span) -> Seq<u8> {
    let e: int = if s.end <= text.len() {
        s.end as int
    } else {
        text.len() as int
    };
    let b: int = if s.start <= e {
        s.start as int
    } else {
        e
    };
    text.subrange(b, e)
}

/// The spellings `void`, `bool`, `usize`: the primitive type names, in id order.
pub open spec fn primitive_table() -> Seq<Seq<u8>> {
    seq![seq![118u8, 111, 105, 100], seq![98u8, 111, 111, 108], seq![117u8, 115, 105, 122, 101]]
}

/// Where `w` first stands in `names`, or -1.
pub open spec fn position_of(names: Seq<Seq<u8>>, w: Seq<u8>) -> int
    decreases names.len(),
{
    if names.len() == 0 {
        -1
    } else {
        let k = position_of(names.drop_last(), w);
        if k >= 0 {
            k
        } else if names.last() == w {
            names.len() - 1
        } else {
            -1
        }
    }
}

/// No spelling stands twice in the table.
pub open spec fn unique(names: Seq<Seq<u8>>) -> bool {
    forall|i: int, j: int| 0 <= i < j < names.len() ==> names[i] != names[j]
}

/// The id of `w`: its place in the table, which grows by `w` when it is new.
pub open spec fn intern_word(names: Seq<Seq<u8>>, w: Seq<u8>) -> (usize, Seq<Seq<u8>>) {
    let k = position_of(names, w);
    if k >= 0 {
        (k as usize, names)
    } else {
        (names.len() as usize, names.push(w))
    }
}

pub open spec fn intern_ident(names: Seq<Seq<u8>>, text: Seq<u8>, i: SpannedIdentifier) -> (
    ResolvedIdentifier,
    Seq<Seq<u8>>,
) {
    let (k, n) = intern_word(names, spelling(text, i.span));
    (ResolvedIdentifier { span: i.span, id: IdentifierId(k) }, n)
}

pub type RExprM = ExprModel<ResolvedIdentifier>;

pub type RStmtM = StmtModel<ResolvedIdentifier>;

pub type RChunkM = ChunkModel<ResolvedIdentifier>;

/// Resolution of an expression: every identifier, left to right, is interned.
pub open spec fn resolve_e(names: Seq<Seq<u8>>, text: Seq<u8>, e: ExprModel<SpannedIdentifier>) -> (
    RExprM,
    Seq<Seq<u8>>,
)
    decreases e, 0int,
{
    match e {
        ExprModel::Identifier(i) => {
            let (r, n) = intern_ident(names, text, i);
            (ExprModel::Identifier(r), n)
        },
        ExprModel::Literal(s) => (ExprModel::Literal(s), names),
        ExprModel::Unary { operation, expression } => {
            let (r, n) = resolve_e(names, text, *expression);
            (ExprModel::Unary { operation, expression: Box::new(r) }, n)
        },
        ExprModel::Binary { left, span, precedence, right } => {
            let (l, n1) = resolve_e(names, text, *left);
            let (r, n2) = resolve_e(n1, text, *right);
            (ExprModel::Binary { left: Box::new(l), span, precedence, right: Box::new(r) }, n2)
        },
        ExprModel::Call { name, params, span } => {
            let (rn, n1) = intern_ident(names, text, name);
            let (ps, n2) = resolve_es(n1, text, params, 0);
            (ExprModel::Call { name: rn, params: ps, span }, n2)
        },
    }
}

/// Resolution of `es[i..]`, in order.
pub open spec fn resolve_es(
    names: Seq<Seq<u8>>,
    text: Seq<u8>,
    es: Seq<ExprModel<SpannedIdentifier>>,
    i: int,
) -> (Seq<RExprM>, Seq<Seq<u8>>)
    decreases es, es.len() - i,
{
    if 0 <= i < es.len() {
        let (r, n1) = resolve_e(names, text, es[i]);
        let (rs, n2) = resolve_es(n1, text, es, i + 1);
        (seq![r] + rs, n2)
    } else {
        (seq![], names)
    }
}

/// Resolution of a statement, children in source order (a call's arguments
/// before its name).
pub open spec fn resolve_s(names: Seq<Seq<u8>>, text: Seq<u8>, s: StmtModel<SpannedIdentifier>) -> (
    RStmtM,
    Seq<Seq<u8>>,
)
    decreases s, 0int,
{
    match s {
        StmtModel::Declaration { name, expression, rtype, span } => {
            let (rn, n1) = intern_ident(names, text, name);
            let (re, n2) = resolve_e(n1, text, expression);
            let (rt, n3) = intern_ident(n2, text, rtype);
            (StmtModel::Declaration { name: rn, expression: re, rtype: rt, span }, n3)
        },
        StmtModel::Reassignment { name, expression, span } => {
            let (rn, n1) = intern_ident(names, text, name);
            let (re, n2) = resolve_e(n1, text, expression);
            (StmtModel::Reassignment { name: rn, expression: re, span }, n2)
        },
        StmtModel::If { condition, statement, ielse, span } => {
            let (rc, n1) = resolve_e(names, text, condition);
            let (rs, n2) = resolve_s(n1, text, *statement);
            match ielse {
                Some(e) => {
                    let (re, n3) = resolve_s(n2, text, *e);
                    (
                        StmtModel::If {
                            condition: rc,
                            statement: Box::new(rs),
                            ielse: Some(Box::new(re)),
                            span,
                        },
                        n3,
                    )
                },
                None => (
                    StmtModel::If { condition: rc, statement: Box::new(rs), ielse: None, span },
                    n2,
                ),
            }
        },
        StmtModel::Scope { body, span } => {
            let (rb, n) = resolve_ss(names, text, body, 0);
            (StmtModel::Scope { body: rb, span }, n)
        },
        StmtModel::VoidCall { name, params, span } => {
            let (ps, n1) = resolve_es(names, text, params, 0);
            let (rn, n2) = intern_ident(n1, text, name);
            (StmtModel::VoidCall { name: rn, params: ps, span }, n2)
        },
        StmtModel::Return { expr, span } => match expr {
            Some(e) => {
                let (re, n) = resolve_e(names, text, e);
                (StmtModel::Return { expr: Some(re), span }, n)
            },
            None => (StmtModel::Return { expr: None, span }, names),
        },
    }
}

pub open spec fn resolve_ss(
    names: Seq<Seq<u8>>,
    text: Seq<u8>,
    ss: Seq<StmtModel<SpannedIdentifier>>,
    i: int,
) -> (Seq<RStmtM>, Seq<Seq<u8>>)
    decreases ss, ss.len() - i,
{
    if 0 <= i < ss.len() {
        let (r, n1) = resolve_s(names, text, ss[i]);
        let (rs, n2) = resolve_ss(n1, text, ss, i + 1);
        (seq![r] + rs, n2)
    } else {
        (seq![], names)
    }
}

/// Parameters `ps[i..]`, each name before its type.
pub open spec fn resolve_ps(
    names: Seq<Seq<u8>>,
    text: Seq<u8>,
    ps: Seq<Param<SpannedIdentifier>>,
    i: int,
) -> (Seq<Param<ResolvedIdentifier>>, Seq<Seq<u8>>)
    decreases ps.len() - i,
{
    if 0 <= i < ps.len() {
        let (rn, n1) = intern_ident(names, text, ps[i].name);
        let (rt, n2) = intern_ident(n1, text, ps[i].ptype);
        let (rs, n3) = resolve_ps(n2, text, ps, i + 1);
        (seq![Param { name: rn, ptype: rt }] + rs, n3)
    } else {
        (seq![], names)
    }
}

/// A function: its name, parameters, return type, then body.
pub open spec fn resolve_c(names: Seq<Seq<u8>>, text: Seq<u8>, c: ChunkModel<SpannedIdentifier>) -> (
    RChunkM,
    Seq<Seq<u8>>,
) {
    match c {
        ChunkModel::Function { name, params, rtype, body, span } => {
            let (rn, n1) = intern_ident(names, text, name);
            let (rp, n2) = resolve_ps(n1, text, params, 0);
            let (rt, n3) = intern_ident(n2, text, rtype);
            let (rb, n4) = resolve_s(n3, text, body);
            (ChunkModel::Function { name: rn, params: rp, rtype: rt, body: rb, span }, n4)
        },
        ChunkModel::Constant => (ChunkModel::Constant, names),
        ChunkModel::StaticVar => (ChunkModel::StaticVar, names),
        ChunkModel::EOF => (ChunkModel::EOF, names),
    }
}

pub open spec fn resolve_cs(
    names: Seq<Seq<u8>>,
    text: Seq<u8>,
    cs: Seq<ChunkModel<SpannedIdentifier>>,
    i: int,
) -> (Seq<RChunkM>, Seq<Seq<u8>>)
    decreases cs.len() - i,
{
    if 0 <= i < cs.len() {
        let (r, n1) = resolve_c(names, text, cs[i]);
        let (rs, n2) = resolve_cs(n1, text, cs, i + 1);
        (seq![r] + rs, n2)
    } else {
        (seq![], names)
    }
}

/// Interning the spellings of `words` in order.
pub open spec fn intern_all(names: Seq<Seq<u8>>, words: Seq<&str>) -> Seq<Seq<u8>>
    decreases words.len(),
{
    if words.len() == 0 {
        names
    } else {
        intern_all(intern_word(names, words[0].spec_bytes()).1, words.drop_first())
    }
}

proof fn lemma_position_of(names: Seq<Seq<u8>>, w: Seq<u8>)
    ensures
        position_of(names, w) == -1 <==> (forall|i: int| 0 <= i < names.len() ==> names[i] != w),
        position_of(names, w) >= 0 ==> {
            let k = position_of(names, w);
            &&& k < names.len()
            &&& names[k] == w
            &&& forall|j: int| 0 <= j < k ==> names[j] != w
        },
        position_of(names, w) >= -1,
    decreases names.len(),
{
    if names.len() > 0 {
        lemma_position_of(names.drop_last(), w);
        assert(forall|i: int| 0 <= i < names.len() - 1 ==> names.drop_last()[i] == names[i]);
    }
}

/// The result of resolution: the same tree with every identifier given its id.
#[derive(Debug)]
pub struct ResolvedAstTree {
    pub body: Vec<ResolvedChunk>,
}

/// Interns identifier spellings in order of first sight. The table holds
/// each spelling once; an id is its place in the table.
#[derive(Debug)]
pub struct NameResolver {
    input: Vec<u8>,
    names: Vec<Vec<u8>>,
}

impl NameResolver {
    /// The source text that spans index.
    pub closed spec fn text(&self) -> Seq<u8> {
        self.input@
    }

    /// The spellings interned so far; the id of `table()[k]` is `k`.
    pub closed spec fn table(&self) -> Seq<Seq<u8>> {
        self.names@.map_values(|v: Vec<u8>| v@)
    }

    /// Each spelling stands in the table once, so it has one id.
    pub open spec fn wf(&self) -> bool {
        unique(self.table())
    }

    pub fn from_rc_str(input: Rc<str>) -> (r: Self)
        ensures
            r.wf(),
            r.text() == (*input).spec_bytes(),
            r.table() == Seq::<Seq<u8>>::empty(),
    {
        let s: &str = &input;
        let r = NameResolver { input: vstd::slice::slice_to_vec(s.as_bytes()), names: Vec::new() };
        proof {
            assert(r.table() =~= Seq::<Seq<u8>>::empty());
        }
        r
    }

    /// Interns each of `names` in order, before any user code: the first
    /// distinct ones get ids 0, 1, 2, ... on a fresh resolver.
    pub fn pre_intern(self, names: &[&str]) -> (r: Self)
        requires
            self.wf(),
        ensures
            r.wf(),
            r.text() == self.text(),
            r.table() == intern_all(self.table(), names@),
    {
        let mut this = self;
        let ghost words = names@;
        let ghost t0 = this.table();
        let ghost text0 = this.text();
        proof {
            assert(words.subrange(0, words.len() as int) =~= words);
        }
        let mut k: usize = 0;
        while k < names.len()
            invariant
                k <= names@.len(),
                words == names@,
                this.text() == text0,
                intern_all(t0, words) == intern_all(this.table(), words.subrange(k as int, words.len() as int)),
            decreases names@.len() - k,
        {
            let name: &str = names[k];
            let b: &[u8] = name.as_bytes();
            proof {
                assert(name == names@[k as int]);
                assert(b@ == name.spec_bytes());
            }
            let w = vstd::slice::slice_to_vec(b);
            proof {
                assert(words[k as int].spec_bytes() == w@);
                assert(words.subrange(k as int, words.len() as int).drop_first() =~= words.subrange(k + 1, words.len() as int));
                assert(words.subrange(k as int, words.len() as int)[0].spec_bytes() == w@);
            }
            this.intern_bytes(w);
            k += 1;
        }
        proof {
            assert(words.subrange(k as int, words.len() as int) =~= Seq::<&str>::empty());
            lemma_pre_intern_unique(t0, words);
        }
        this
    }

    /// Interns the primitive type names before any user code, so that on a
    /// fresh resolver `void`, `bool` and `usize` get ids 0, 1 and 2.
    pub fn pre_intern_primitives(self) -> (r: Self)
        requires
            self.wf(),
        ensures
            r.wf(),
            r.text() == self.text(),
            self.table().len() == 0 ==> r.table() == primitive_table(),
    {
        let mut this = self;
        let ghost t0 = this.table();
        proof {
            lemma_intern_word(t0, seq![118u8, 111, 105, 100]);
            let t1 = intern_word(t0, seq![118u8, 111, 105, 100]).1;
            lemma_intern_word(t1, seq![98u8, 111, 111, 108]);
            lemma_intern_word(intern_word(t1, seq![98u8, 111, 111, 108]).1, seq![117u8, 115, 105, 122, 101]);
        }
        this.intern_bytes(vec![118u8, 111, 105, 100]);
        let ghost t1 = this.table();
        this.intern_bytes(vec![98u8, 111, 111, 108]);
        let ghost t2 = this.table();
        this.intern_bytes(vec![117u8, 115, 105, 122, 101]);
        proof {
            if t0.len() == 0 {
                let w0 = primitive_table()[0];
                let w1 = primitive_table()[1];
                let w2 = primitive_table()[2];
                assert(t1 =~= seq![w0]);
                assert(w1 != w0) by {
                    assert(w1[0] != w0[0]);
                }
                lemma_position_of(t1, w1);
                assert(position_of(t1, w1) == -1);
                assert(t2 =~= seq![w0, w1]);
                assert(w2 != w0 && w2 != w1) by {
                    assert(w2.len() != w0.len());
                }
                lemma_position_of(t2, w2);
                assert(position_of(t2, w2) == -1);
                assert(this.table() =~= primitive_table());
            }
        }
        this
    }

    fn intern_bytes(&mut self, w: Vec<u8>) -> (r: usize)
        ensures
            final(self).text() == old(self).text(),
            (r, final(self).table()) == intern_word(old(self).table(), w@),
    {
        proof {
            lemma_position_of(self.table(), w@);
        }
        let mut i: usize = 0;
        while i < self.names.len()
            invariant
                i <= self.names.len(),
                forall|j: int| 0 <= j < i ==> self.table()[j] != w@,
            decreases self.names.len() - i,
        {
            if same_bytes(&self.names[i], &w) {
                proof {
                    let t = self.table();
                    assert(t[i as int] == w@);
                    lemma_position_of(t, w@);
                    let k = position_of(t, w@);
                    assert(k != -1);
                    assert(k >= 0);
                    if k < i {
                        assert(t[k] != w@);
                    }
                    if k > i {
                        assert(t[i as int] != w@);
                    }
                }
                return i;
            }
            i += 1;
        }
        let k = self.names.len();
        let ghost t0 = self.table();
        self.names.push(w);
        proof {
            assert(self.table() =~= t0.push(w@));
        }
        k
    }

    fn intern(&mut self, id: SpannedIdentifier) -> (r: ResolvedIdentifier)
        ensures
            final(self).text() == old(self).text(),
            (r, final(self).table()) == intern_ident(old(self).table(), old(self).text(), id),
    {
        let len = self.input.len();
        let e = if id.span.end <= len {
            id.span.end
        } else {
            len
        };
        let b = if id.span.start <= e {
            id.span.start
        } else {
            e
        };
        let w = copy_bytes(&self.input, b, e);
        let k = self.intern_bytes(w);
        ResolvedIdentifier { span: id.span, id: IdentifierId(k) }
    }
}

fn same_bytes(a: &Vec<u8>, b: &Vec<u8>) -> (r: bool)
    ensures
        r == (a@ == b@),
{
    if a.len() != b.len() {
        return false;
    }
    let mut i: usize = 0;
    while i < a.len()
        invariant
            i <= a.len(),
            a.len() == b.len(),
            forall|j: int| 0 <= j < i ==> a@[j] == b@[j],
        decreases a.len() - i,
    {
        if a[i] != b[i] {
            return false;
        }
        i += 1;
    }
    assert(a@ =~= b@);
    true
}

fn copy_bytes(v: &Vec<u8>, b: usize, e: usize) -> (r: Vec<u8>)
    requires
        b <= e <= v.len(),
    ensures
        r@ == v@.subrange(b as int, e as int),
{
    let mut out: Vec<u8> = Vec::new();
    let mut i: usize = b;
    while i < e
        invariant
            b <= i <= e,
            e <= v.len(),
            out@ == v@.subrange(b as int, i as int),
        decreases e - i,
    {
        out.push(v[i]);
        i += 1;
        proof {
            assert(out@ =~= v@.subrange(b as int, i as int));
        }
    }
    out
}

impl NameResolver {
    fn resolve_expression(&mut self, e: &SpannedExpression) -> (r: ResolvedExpression)
        ensures
            final(self).text() == old(self).text(),
            (expr_model(r), final(self).table()) == resolve_e(
                old(self).table(),
                old(self).text(),
                expr_model(*e),
            ),
        decreases e, 0int,
    {
        match e {
            Expression::Identifier(i) => Expression::Identifier(self.intern(*i)),
            Expression::Literal { span } => Expression::Literal { span: *span },
            Expression::UnaryOperator { operation, expression } => {
                let r = self.resolve_expression(expression);
                Expression::UnaryOperator { operation: *operation, expression: Box::new(r) }
            },
            Expression::BinaryOperator { left, span, precedence, right } => {
                let l = self.resolve_expression(left);
                let r = self.resolve_expression(right);
                Expression::BinaryOperator {
                    left: Box::new(l),
                    span: *span,
                    precedence: *precedence,
                    right: Box::new(r),
                }
            },
            Expression::Call { name, params, span } => {
                let rn = self.intern(*name);
                let mut out: Vec<ResolvedExpression> = Vec::new();
                let ghost empty = out@;
                self.resolve_expressions(params, 0, &mut out);
                proof {
                    assert(exprs_model(empty) =~= Seq::<RExprM>::empty());
                    assert(expr_model(*e)->Call_params =~= exprs_model(params@));
                }
                let r = Expression::Call { name: rn, params: out, span: *span };
                proof {
                    assert(expr_model(r)->Call_params =~= exprs_model(out@));
                }
                r
            },
        }
    }

    fn resolve_expressions(
        &mut self,
        es: &Vec<SpannedExpression>,
        i: usize,
        out: &mut Vec<ResolvedExpression>,
    )
        requires
            i <= es.len(),
        ensures
            final(self).text() == old(self).text(),
            exprs_model(final(out)@) == exprs_model(old(out)@) + resolve_es(
                old(self).table(),
                old(self).text(),
                exprs_model(es@),
                i as int,
            ).0,
            final(self).table() == resolve_es(
                old(self).table(),
                old(self).text(),
                exprs_model(es@),
                i as int,
            ).1,
        decreases es, es.len() - i,
    {
        let ghost out0 = out@;
        if i < es.len() {
            let r = self.resolve_expression(&es[i]);
            out.push(r);
            proof {
                assert(exprs_model(out@) =~= exprs_model(out0) + seq![expr_model(r)]);
            }
            let ghost out1 = out@;
            let ghost t1 = self.table();
            self.resolve_expressions(es, i + 1, out);
            proof {
                let rest = resolve_es(t1, self.text(), exprs_model(es@), i + 1).0;
                assert(exprs_model(out1) + rest =~= exprs_model(out0) + (seq![expr_model(r)] + rest));
            }
        } else {
            proof {
                assert(exprs_model(out0) =~= exprs_model(out0) + Seq::<RExprM>::empty());
            }
        }
    }

    fn resolve_statement(&mut self, st: &SpannedStatement) -> (r: ResolvedStatement)
        ensures
            final(self).text() == old(self).text(),
            (stmt_model(r), final(self).table()) == resolve_s(
                old(self).table(),
                old(self).text(),
                stmt_model(*st),
            ),
        decreases st, 0int,
    {
        match st {
            Statement::Declaration { name, expression, rtype, span } => {
                let rn = self.intern(*name);
                let re = self.resolve_expression(expression);
                let rt = self.intern(*rtype);
                Statement::Declaration { name: rn, expression: Box::new(re), rtype: rt, span: *span }
            },
            Statement::Reassignment { name, expression, span } => {
                let rn = self.intern(*name);
                let re = self.resolve_expression(expression);
                Statement::Reassignment { name: rn, expression: Box::new(re), span: *span }
            },
            Statement::If { condition, statement, ielse, span } => {
                let rc = self.resolve_expression(condition);
                let rs = self.resolve_statement(statement);
                let re = match ielse {
                    Some(e) => Some(Box::new(self.resolve_statement(e))),
                    None => None,
                };
                Statement::If {
                    condition: Box::new(rc),
                    statement: Box::new(rs),
                    ielse: re,
                    span: *span,
                }
            },
            Statement::Scope { body, span } => {
                let mut out: Vec<ResolvedStatement> = Vec::new();
                let ghost empty = out@;
                self.resolve_statements(body, 0, &mut out);
                proof {
                    assert(stmts_model(empty) =~= Seq::<RStmtM>::empty());
                    assert(stmt_model(*st)->Scope_body =~= stmts_model(body@));
                }
                let r = Statement::Scope { body: out, span: *span };
                proof {
                    assert(stmt_model(r)->Scope_body =~= stmts_model(out@));
                }
                r
            },
            Statement::VoidCall { name, params, span } => {
                let mut out: Vec<ResolvedExpression> = Vec::new();
                let ghost empty = out@;
                self.resolve_expressions(params, 0, &mut out);
                proof {
                    assert(exprs_model(empty) =~= Seq::<RExprM>::empty());
                }
                let rn = self.intern(*name);
                proof {
                    assert(stmt_model(*st)->VoidCall_params =~= exprs_model(params@));
                }
                Statement::VoidCall { name: rn, params: out, span: *span }
            },
            Statement::Return { expr, span } => match expr {
                Some(e) => {
                    let re = self.resolve_expression(e);
                    Statement::Return { expr: Some(Box::new(re)), span: *span }
                },
                None => Statement::Return { expr: None, span: *span },
            },
        }
    }

    fn resolve_statements(
        &mut self,
        ss: &Vec<SpannedStatement>,
        i: usize,
        out: &mut Vec<ResolvedStatement>,
    )
        requires
            i <= ss.len(),
        ensures
            final(self).text() == old(self).text(),
            stmts_model(final(out)@) == stmts_model(old(out)@) + resolve_ss(
                old(self).table(),
                old(self).text(),
                stmts_model(ss@),
                i as int,
            ).0,
            final(self).table() == resolve_ss(
                old(self).table(),
                old(self).text(),
                stmts_model(ss@),
                i as int,
            ).1,
        decreases ss, ss.len() - i,
    {
        let ghost out0 = out@;
        if i < ss.len() {
            let r = self.resolve_statement(&ss[i]);
            out.push(r);
            proof {
                assert(stmts_model(out@) =~= stmts_model(out0) + seq![stmt_model(r)]);
            }
            let ghost out1 = out@;
            let ghost t1 = self.table();
            self.resolve_statements(ss, i + 1, out);
            proof {
                let rest = resolve_ss(t1, self.text(), stmts_model(ss@), i + 1).0;
                assert(stmts_model(out1) + rest =~= stmts_model(out0) + (seq![stmt_model(r)] + rest));
            }
        } else {
            proof {
                assert(stmts_model(out0) =~= stmts_model(out0) + Seq::<RStmtM>::empty());
            }
        }
    }

    fn resolve_params(&mut self, ps: &Vec<SpannedParam>, out: &mut Vec<ResolvedParam>)
        requires
            old(out)@.len() <= ps.len(),
        ensures
            final(self).text() == old(self).text(),
            final(out)@ == old(out)@ + resolve_ps(
                old(self).table(),
                old(self).text(),
                ps@,
                old(out)@.len() as int,
            ).0,
            final(self).table() == resolve_ps(
                old(self).table(),
                old(self).text(),
                ps@,
                old(out)@.len() as int,
            ).1,
        decreases ps.len() - old(out)@.len(),
    {
        let i = out.len();
        let ghost out0 = out@;
        if i < ps.len() {
            let rn = self.intern(ps[i].name);
            let rt = self.intern(ps[i].ptype);
            let p = Param { name: rn, ptype: rt };
            out.push(p);
            let ghost out1 = out@;
            let ghost t1 = self.table();
            self.resolve_params(ps, out);
            proof {
                let rest = resolve_ps(t1, self.text(), ps@, i + 1).0;
                assert(out1 + rest =~= out0 + (seq![p] + rest));
            }
        } else {
            proof {
                assert(out0 =~= out0 + Seq::<Param<ResolvedIdentifier>>::empty());
            }
        }
    }

    fn resolve_chunk(&mut self, c: &SpannedChunk) -> (r: ResolvedChunk)
        ensures
            final(self).text() == old(self).text(),
            (chunk_model(r), final(self).table()) == resolve_c(
                old(self).table(),
                old(self).text(),
                chunk_model(*c),
            ),
    {
        match c {
            Chunk::Function { name, params, rtype, body, span } => {
                let rn = self.intern(*name);
                let mut rp: Vec<ResolvedParam> = Vec::new();
                let ghost empty = rp@;
                self.resolve_params(params, &mut rp);
                proof {
                    assert(empty + rp@ =~= rp@);
                }
                let rt = self.intern(*rtype);
                let rb = self.resolve_statement(body);
                Chunk::Function { name: rn, params: rp, rtype: rt, body: rb, span: *span }
            },
            Chunk::Constant => Chunk::Constant,
            Chunk::StaticVar => Chunk::StaticVar,
            Chunk::EOF => Chunk::EOF,
        }
    }

    fn resolve_chunks(&mut self, cs: &Vec<SpannedChunk>, out: &mut Vec<ResolvedChunk>)
        requires
            old(out)@.len() <= cs.len(),
        ensures
            final(self).text() == old(self).text(),
            chunks_model(final(out)@) == chunks_model(old(out)@) + resolve_cs(
                old(self).table(),
                old(self).text(),
                chunks_model(cs@),
                old(out)@.len() as int,
            ).0,
            final(self).table() == resolve_cs(
                old(self).table(),
                old(self).text(),
                chunks_model(cs@),
                old(out)@.len() as int,
            ).1,
        decreases cs.len() - old(out)@.len(),
    {
        let i = out.len();
        let ghost out0 = out@;
        if i < cs.len() {
            let r = self.resolve_chunk(&cs[i]);
            out.push(r);
            proof {
                assert(chunks_model(out@) =~= chunks_model(out0) + seq![chunk_model(r)]);
            }
            let ghost out1 = out@;
            let ghost t1 = self.table();
            self.resolve_chunks(cs, out);
            proof {
                let rest = resolve_cs(t1, self.text(), chunks_model(cs@), i + 1).0;
                assert(chunks_model(out1) + rest =~= chunks_model(out0) + (seq![chunk_model(r)] + rest));
            }
        } else {
            proof {
                assert(chunks_model(out0) =~= chunks_model(out0) + Seq::<RChunkM>::empty());
            }
        }
    }

    /// Gives every identifier of the tree its id, in one walk in source order.
    pub fn resolve(&mut self, ast: SpannedAstTree) -> (r: ResolvedAstTree)
        requires
            old(self).wf(),
        ensures
            final(self).wf(),
            final(self).text() == old(self).text(),
            (chunks_model(r.body@), final(self).table()) == resolve_cs(
                old(self).table(),
                old(self).text(),
                chunks_model(ast.body@),
                0,
            ),
    {
        let mut out: Vec<ResolvedChunk> = Vec::new();
        let ghost empty = out@;
        self.resolve_chunks(&ast.body, &mut out);
        proof {
            lemma_resolve_cs(old(self).table(), self.text(), chunks_model(ast.body@), 0);
            assert(chunks_model(empty) =~= Seq::<RChunkM>::empty());
            assert(Seq::<RChunkM>::empty() + resolve_cs(old(self).table(), self.text(), chunks_model(ast.body@), 0).0 =~= resolve_cs(old(self).table(), self.text(), chunks_model(ast.body@), 0).0);
        }
        ResolvedAstTree { body: out }
    }
}

/// `b` starts with all of `a`.
pub open spec fn extends(a: Seq<Seq<u8>>, b: Seq<Seq<u8>>) -> bool {
    a.len() <= b.len() && forall|i: int| 0 <= i < a.len() ==> b[i] == a[i]
}

proof fn lemma_position_stable(a: Seq<Seq<u8>>, b: Seq<Seq<u8>>, w: Seq<u8>)
    requires
        unique(b),
        extends(a, b),
        position_of(a, w) >= 0,
    ensures
        position_of(b, w) == position_of(a, w),
{
    lemma_position_of(a, w);
    lemma_position_of(b, w);
    let k = position_of(a, w);
    assert(b[k] == w);
    let k2 = position_of(b, w);
    assert(k2 != -1);
    if k2 < k {
        assert(b[k2] == b[k]);
    }
}

proof fn lemma_intern_word(names: Seq<Seq<u8>>, w: Seq<u8>)
    requires
        unique(names),
    ensures
        unique(intern_word(names, w).1),
        extends(names, intern_word(names, w).1),
        position_of(intern_word(names, w).1, w) as usize == intern_word(names, w).0,
{
    lemma_position_of(names, w);
    let n = intern_word(names, w).1;
    if position_of(names, w) < 0 {
        assert forall|i: int, j: int| 0 <= i < j < n.len() implies n[i] != n[j] by {
            if j == names.len() {
                assert(names[i] != w);
            }
        }
        assert(n.drop_last() =~= names);
    }
}

proof fn lemma_intern_ident(names: Seq<Seq<u8>>, text: Seq<u8>, i: SpannedIdentifier)
    requires
        unique(names),
    ensures
        unique(intern_ident(names, text, i).1),
        extends(names, intern_ident(names, text, i).1),
        position_of(intern_ident(names, text, i).1, spelling(text, i.span)) as usize
            == intern_ident(names, text, i).0.id.0,
{
    lemma_intern_word(names, spelling(text, i.span));
}

proof fn lemma_resolve_e(names: Seq<Seq<u8>>, text: Seq<u8>, e: ExprModel<SpannedIdentifier>)
    requires
        unique(names),
    ensures
        unique(resolve_e(names, text, e).1),
        extends(names, resolve_e(names, text, e).1),
    decreases e, 0int,
{
    match e {
        ExprModel::Identifier(i) => lemma_intern_ident(names, text, i),
        ExprModel::Literal(_) => {},
        ExprModel::Unary { operation, expression } => lemma_resolve_e(names, text, *expression),
        ExprModel::Binary { left, span, precedence, right } => {
            lemma_resolve_e(names, text, *left);
            lemma_resolve_e(resolve_e(names, text, *left).1, text, *right);
        },
        ExprModel::Call { name, params, span } => {
            lemma_intern_ident(names, text, name);
            lemma_resolve_es(intern_ident(names, text, name).1, text, params, 0);
        },
    }
}

proof fn lemma_resolve_es(
    names: Seq<Seq<u8>>,
    text: Seq<u8>,
    es: Seq<ExprModel<SpannedIdentifier>>,
    i: int,
)
    requires
        unique(names),
    ensures
        unique(resolve_es(names, text, es, i).1),
        extends(names, resolve_es(names, text, es, i).1),
    decreases es, es.len() - i,
{
    if 0 <= i < es.len() {
        lemma_resolve_e(names, text, es[i]);
        lemma_resolve_es(resolve_e(names, text, es[i]).1, text, es, i + 1);
    }
}

proof fn lemma_resolve_s(names: Seq<Seq<u8>>, text: Seq<u8>, s: StmtModel<SpannedIdentifier>)
    requires
        unique(names),
    ensures
        unique(resolve_s(names, text, s).1),
        extends(names, resolve_s(names, text, s).1),
    decreases s, 0int,
{
    match s {
        StmtModel::Declaration { name, expression, rtype, span } => {
            lemma_intern_ident(names, text, name);
            let n1 = intern_ident(names, text, name).1;
            lemma_resolve_e(n1, text, expression);
            lemma_intern_ident(resolve_e(n1, text, expression).1, text, rtype);
        },
        StmtModel::Reassignment { name, expression, span } => {
            lemma_intern_ident(names, text, name);
            lemma_resolve_e(intern_ident(names, text, name).1, text, expression);
        },
        StmtModel::If { condition, statement, ielse, span } => {
            lemma_resolve_e(names, text, condition);
            let n1 = resolve_e(names, text, condition).1;
            lemma_resolve_s(n1, text, *statement);
            match ielse {
                Some(e) => lemma_resolve_s(resolve_s(n1, text, *statement).1, text, *e),
                None => {},
            }
        },
        StmtModel::Scope { body, span } => lemma_resolve_ss(names, text, body, 0),
        StmtModel::VoidCall { name, params, span } => {
            lemma_resolve_es(names, text, params, 0);
            lemma_intern_ident(resolve_es(names, text, params, 0).1, text, name);
        },
        StmtModel::Return { expr, span } => match expr {
            Some(e) => lemma_resolve_e(names, text, e),
            None => {},
        },
    }
}

proof fn lemma_resolve_ss(
    names: Seq<Seq<u8>>,
    text: Seq<u8>,
    ss: Seq<StmtModel<SpannedIdentifier>>,
    i: int,
)
    requires
        unique(names),
    ensures
        unique(resolve_ss(names, text, ss, i).1),
        extends(names, resolve_ss(names, text, ss, i).1),
    decreases ss, ss.len() - i,
{
    if 0 <= i < ss.len() {
        lemma_resolve_s(names, text, ss[i]);
        lemma_resolve_ss(resolve_s(names, text, ss[i]).1, text, ss, i + 1);
    }
}

proof fn lemma_resolve_ps(
    names: Seq<Seq<u8>>,
    text: Seq<u8>,
    ps: Seq<Param<SpannedIdentifier>>,
    i: int,
)
    requires
        unique(names),
    ensures
        unique(resolve_ps(names, text, ps, i).1),
        extends(names, resolve_ps(names, text, ps, i).1),
    decreases ps.len() - i,
{
    if 0 <= i < ps.len() {
        lemma_intern_ident(names, text, ps[i].name);
        let n1 = intern_ident(names, text, ps[i].name).1;
        lemma_intern_ident(n1, text, ps[i].ptype);
        lemma_resolve_ps(intern_ident(n1, text, ps[i].ptype).1, text, ps, i + 1);
    }
}

proof fn lemma_resolve_cs(
    names: Seq<Seq<u8>>,
    text: Seq<u8>,
    cs: Seq<ChunkModel<SpannedIdentifier>>,
    i: int,
)
    requires
        unique(names),
    ensures
        unique(resolve_cs(names, text, cs, i).1),
        extends(names, resolve_cs(names, text, cs, i).1),
    decreases cs.len() - i,
{
    if 0 <= i < cs.len() {
        match cs[i] {
            ChunkModel::Function { name, params, rtype, body, span } => {
                lemma_intern_ident(names, text, name);
                let n1 = intern_ident(names, text, name).1;
                lemma_resolve_ps(n1, text, params, 0);
                let n2 = resolve_ps(n1, text, params, 0).1;
                lemma_intern_ident(n2, text, rtype);
                lemma_resolve_s(intern_ident(n2, text, rtype).1, text, body);
            },
            _ => {},
        }
        lemma_resolve_cs(resolve_c(names, text, cs[i]).1, text, cs, i + 1);
    }
}

/// Interning is idempotent within a unit: an identifier resolved at one
/// place, then any amount of further resolution, then an identifier spelled
/// the same at another place: both get the same id.
pub proof fn lemma_same_spelling_same_id(
    names: Seq<Seq<u8>>,
    text: Seq<u8>,
    a: SpannedIdentifier,
    cs: Seq<ChunkModel<SpannedIdentifier>>,
    b: SpannedIdentifier,
)
    requires
        unique(names),
        spelling(text, a.span) == spelling(text, b.span),
    ensures
        ({
            let (ra, n1) = intern_ident(names, text, a);
            let n2 = resolve_cs(n1, text, cs, 0).1;
            intern_ident(n2, text, b).0.id == ra.id
        }),
{
    lemma_intern_ident(names, text, a);
    let n1 = intern_ident(names, text, a).1;
    lemma_resolve_cs(n1, text, cs, 0);
    let n2 = resolve_cs(n1, text, cs, 0).1;
    lemma_position_stable(n1, n2, spelling(text, a.span));
    lemma_intern_ident(n2, text, b);
}

/// Resolution never renumbers: a spelling already in the table (such as a
/// primitive type name interned first) keeps its id through the
/// resolution of any unit, so every later identifier spelled so gets it.
pub proof fn lemma_interned_ids_stay(
    names: Seq<Seq<u8>>,
    text: Seq<u8>,
    cs: Seq<ChunkModel<SpannedIdentifier>>,
    b: SpannedIdentifier,
    k: int,
)
    requires
        unique(names),
        0 <= k < names.len(),
        spelling(text, b.span) == names[k],
    ensures
        intern_ident(resolve_cs(names, text, cs, 0).1, text, b).0.id.0 == k as usize,
{
    lemma_resolve_cs(names, text, cs, 0);
    let n2 = resolve_cs(names, text, cs, 0).1;
    lemma_position_of(names, names[k]);
    assert(position_of(names, names[k]) == k) by {
        let p = position_of(names, names[k]);
        if p >= 0 && p < k {
            assert(names[p] == names[k]);
        }
    }
    lemma_position_stable(names, n2, names[k]);
    lemma_intern_ident(n2, text, b);
}

/// With the primitive names interned first, an identifier spelled `void`,
/// `bool` or `usize` resolves to id 0, 1 or 2 whatever program text was
/// resolved before it.
pub proof fn lemma_primitive_ids(
    text: Seq<u8>,
    cs: Seq<ChunkModel<SpannedIdentifier>>,
    b: SpannedIdentifier,
    k: int,
)
    requires
        0 <= k < 3,
        spelling(text, b.span) == primitive_table()[k],
    ensures
        intern_ident(resolve_cs(primitive_table(), text, cs, 0).1, text, b).0.id.0 == k as usize,
{
    let t = primitive_table();
    assert(t[0][0] != t[1][0]);
    assert(t[2].len() != t[0].len() && t[2].len() != t[1].len());
    assert(unique(t));
    lemma_interned_ids_stay(t, text, cs, b, k);
}

/// Pre-interning keeps the table free of repeats, so spellings interned
/// first on a fresh resolver get ids 0, 1, 2, ... in order when distinct.
pub proof fn lemma_pre_intern_unique(names: Seq<Seq<u8>>, words: Seq<&str>)
    requires
        unique(names),
    ensures
        unique(intern_all(names, words)),
        extends(names, intern_all(names, words)),
    decreases words.len(),
{
    if words.len() > 0 {
        lemma_intern_word(names, words[0].spec_bytes());
        lemma_pre_intern_unique(intern_word(names, words[0].spec_bytes()).1, words.drop_first());
    }
}

} // verus!
