//! The type checker: two passes (signatures, then bodies) over a resolved
//! tree, against a stack of scope frames.
use vstd::prelude::*;

use crate::ast::{
    chunk_model, chunks_model, expr_model, exprs_model, stmt_model, stmts_model, Chunk,
    ChunkModel, ExprModel, Expression, IdentifierId, Param, ResolvedChunk, ResolvedExpression,
    ResolvedIdentifier, ResolvedParam, ResolvedStatement, Statement, StmtModel,
};
use crate::name_resolver::{RChunkM, RExprM, RStmtM, ResolvedAstTree};
use crate::tokens::Span;

verus! {

/// The primitive types. Their ids are fixed: the resolver interns their
/// names first, so `void`, `bool` and `usize` are ids 0, 1 and 2.
#[derive(Debug, Clone, Copy, PartialEq, Eq, Structural)]
pub enum Primitive {
    Void,
    Bool,
    Usize,
}

/// The primitive that identifier id `id` names, if any.
pub open spec fn primitive_of(id: usize) -> Option<Primitive> {
    if id == 0 {
        Some(Primitive::Void)
    } else if id == 1 {
        Some(Primitive::Bool)
    } else if id == 2 {
        Some(Primitive::Usize)
    } else {
        None
    }
}

impl Primitive {
    pub fn from_id(id: IdentifierId) -> (r: Option<Primitive>)
        ensures
            r == primitive_of(id.0),
    {
        if id.0 == 0 {
            Some(Primitive::Void)
        } else if id.0 == 1 {
            Some(Primitive::Bool)
        } else if id.0 == 2 {
            Some(Primitive::Usize)
        } else {
            None
        }
    }

    /// The name under which the resolver interns this primitive.
    pub fn name(self) -> (r: &'static str)
        ensures
            self == Primitive::Void ==> r == "void",
            self == Primitive::Bool ==> r == "bool",
            self == Primitive::Usize ==> r == "usize",
    {
        match self {
            Primitive::Void => "void",
            Primitive::Bool => "bool",
            Primitive::Usize => "usize",
        }
    }
}

impl Primitive {
    /// The C type that code generation writes for this primitive.
    pub fn c_name(self) -> (r: &'static str)
        ensures
            self == Primitive::Void ==> r == "void",
            self == Primitive::Bool ==> r == "bool",
            self == Primitive::Usize ==> r == "size_t",
    {
        match self {
            Primitive::Void => "void",
            Primitive::Bool => "bool",
            Primitive::Usize => "size_t",
        }
    }
}

/// The type of a name: a primitive, or a function's signature.
#[derive(Debug, PartialEq, Eq)]
pub enum TypeId {
    Void,
    Bool,
    Usize,
    Function { params: Vec<Primitive>, ret: Primitive },
}

/// The mathematical value of a `TypeId`.
pub enum TypeView {
    Void,
    Bool,
    Usize,
    Function { params: Seq<Primitive>, ret: Primitive },
}

impl View for TypeId {
    type V = TypeView;

    open spec fn view(&self) -> TypeView {
        match self {
            TypeId::Void => TypeView::Void,
            TypeId::Bool => TypeView::Bool,
            TypeId::Usize => TypeView::Usize,
            TypeId::Function { params, ret } => TypeView::Function { params: params@, ret: *ret },
        }
    }
}

pub open spec fn prim_type(p: Primitive) -> TypeView {
    match p {
        Primitive::Void => TypeView::Void,
        Primitive::Bool => TypeView::Bool,
        Primitive::Usize => TypeView::Usize,
    }
}

pub open spec fn prim_types(ps: Seq<Primitive>) -> Seq<TypeView> {
    Seq::new(ps.len(), |k: int| prim_type(ps[k]))
}

/// The primitive named by a type position (only ids 0, 1, 2 are ever given).
pub open spec fn declared(r: ResolvedIdentifier) -> Primitive {
    match primitive_of(r.id.0) {
        Some(p) => p,
        None => Primitive::Void,
    }
}

/// A failed check: what went wrong, and where.
#[derive(Debug, Clone, Copy, PartialEq, Eq, Structural)]
pub enum TypeError {
    DeclarationMismatch(Span),
    AssignmentMismatch(Span),
    NotDeclared(Span),
    NotVoid(Span),
    TypeMismatch(Span),
    ParamTypeMismatch(Span),
    BadReturnType(Span),
}

/// One scope frame: bindings in order; a later binding of an id hides an earlier one.
pub type Frame = Seq<(usize, TypeView)>;

/// The scope stack, outermost (the root) first.
pub type Env = Seq<Frame>;

pub open spec fn lookup_frame(f: Frame, id: usize) -> Option<TypeView>
    decreases f.len(),
{
    if f.len() == 0 {
        None
    } else if f.last().0 == id {
        Some(f.last().1)
    } else {
        lookup_frame(f.drop_last(), id)
    }
}

/// The type bound to `id` in the innermost frame that binds it.
pub open spec fn lookup(env: Env, id: usize) -> Option<TypeView>
    decreases env.len(),
{
    if env.len() == 0 {
        None
    } else {
        match lookup_frame(env.last(), id) {
            Some(t) => Some(t),
            None => lookup(env.drop_last(), id),
        }
    }
}

/// `env` with `id` bound to `t` in its innermost frame.
pub open spec fn bind(env: Env, id: usize, t: TypeView) -> Env {
    env.drop_last().push(env.last().push((id, t)))
}

/// The type of an expression. A binary operator has the type of its left
/// operand; the right one is checked but not compared. A unary operator or
/// a group has its operand's type. A call has its callee's return type once
/// its arguments match the parameters. A literal cannot be typed yet.
pub open spec fn check_e(env: Env, e: RExprM) -> Result<TypeView, TypeError>
    decreases e, 0int,
{
    match e {
        ExprModel::Identifier(r) => match lookup(env, r.id.0) {
            Some(t) => Ok(t),
            None => Err(TypeError::NotDeclared(r.span)),
        },
        ExprModel::Literal(s) => Err(TypeError::TypeMismatch(s)),
        ExprModel::Unary { operation, expression } => check_e(env, *expression),
        ExprModel::Binary { left, span, precedence, right } => match check_e(env, *left) {
            Ok(lt) => match check_e(env, *right) {
                Ok(_) => Ok(lt),
                Err(err) => Err(err),
            },
            Err(err) => Err(err),
        },
        ExprModel::Call { name, params, span } => match lookup(env, name.id.0) {
            Some(TypeView::Function { params: pts, ret }) => match check_es(env, params, 0) {
                Ok(ats) => if ats == prim_types(pts) {
                    Ok(prim_type(ret))
                } else {
                    Err(TypeError::ParamTypeMismatch(span))
                },
                Err(err) => Err(err),
            },
            Some(_) => Err(TypeError::TypeMismatch(span)),
            None => Err(TypeError::NotDeclared(span)),
        },
    }
}

/// The types of `es[i..]`, checked left to right.
pub open spec fn check_es(env: Env, es: Seq<RExprM>, i: int) -> Result<Seq<TypeView>, TypeError>
    decreases es, es.len() - i,
{
    if 0 <= i < es.len() {
        match check_e(env, es[i]) {
            Ok(t) => match check_es(env, es, i + 1) {
                Ok(ts) => Ok(seq![t] + ts),
                Err(err) => Err(err),
            },
            Err(err) => Err(err),
        }
    } else {
        Ok(seq![])
    }
}

/// Checks a statement of a function returning `ret`; the result is the
/// scope stack after it (a declaration binds in the innermost frame).
pub open spec fn check_s(env: Env, ret: Primitive, s: RStmtM) -> Result<Env, TypeError>
    decreases s, 0int,
{
    match s {
        StmtModel::Declaration { name, expression, rtype, span } => match check_e(env, expression) {
            Ok(t) => if t == prim_type(declared(rtype)) {
                Ok(bind(env, name.id.0, t))
            } else {
                Err(TypeError::DeclarationMismatch(span))
            },
            Err(err) => Err(err),
        },
        StmtModel::Reassignment { name, expression, span } => match lookup(env, name.id.0) {
            Some(t) => match check_e(env, expression) {
                Ok(et) => if et == t {
                    Ok(env)
                } else {
                    Err(TypeError::AssignmentMismatch(span))
                },
                Err(err) => Err(err),
            },
            None => Err(TypeError::NotDeclared(span)),
        },
        StmtModel::If { condition, statement, ielse, span } => match check_e(env, condition) {
            Ok(ct) => if ct == TypeView::Bool {
                match check_s(env, ret, *statement) {
                    Ok(env1) => match ielse {
                        Some(e) => check_s(env1, ret, *e),
                        None => Ok(env1),
                    },
                    Err(err) => Err(err),
                }
            } else {
                Err(TypeError::TypeMismatch(span))
            },
            Err(err) => Err(err),
        },
        StmtModel::Scope { body, span } => match check_ss(env.push(seq![]), ret, body, 0) {
            Ok(env1) => Ok(env1.drop_last()),
            Err(err) => Err(err),
        },
        StmtModel::VoidCall { name, params, span } => match lookup(env, name.id.0) {
            Some(TypeView::Function { params: pts, ret: r }) => if r != Primitive::Void {
                Err(TypeError::NotVoid(span))
            } else {
                match check_es(env, params, 0) {
                    Ok(ats) => if ats == prim_types(pts) {
                        Ok(env)
                    } else {
                        Err(TypeError::ParamTypeMismatch(span))
                    },
                    Err(err) => Err(err),
                }
            },
            Some(_) => Err(TypeError::TypeMismatch(span)),
            None => Err(TypeError::NotDeclared(span)),
        },
        StmtModel::Return { expr, span } => {
            let t = match expr {
                Some(e) => check_e(env, e),
                None => Ok(TypeView::Void),
            };
            match t {
                Ok(t) => if t == prim_type(ret) {
                    Ok(env)
                } else {
                    Err(TypeError::BadReturnType(span))
                },
                Err(err) => Err(err),
            }
        },
    }
}

/// Checks `ss[i..]` in order, each in the scope the previous ones left.
pub open spec fn check_ss(env: Env, ret: Primitive, ss: Seq<RStmtM>, i: int) -> Result<Env, TypeError>
    decreases ss, ss.len() - i,
{
    if 0 <= i < ss.len() {
        match check_s(env, ret, ss[i]) {
            Ok(env1) => check_ss(env1, ret, ss, i + 1),
            Err(err) => Err(err),
        }
    } else {
        Ok(env)
    }
}

/// The frame of a function's parameters, bound in order.
pub open spec fn param_frame(ps: Seq<Param<ResolvedIdentifier>>) -> Frame {
    Seq::new(ps.len(), |k: int| (ps[k].name.id.0, prim_type(declared(ps[k].ptype))))
}

/// A function's signature.
pub open spec fn signature(ps: Seq<Param<ResolvedIdentifier>>, rtype: ResolvedIdentifier) -> TypeView {
    TypeView::Function {
        params: Seq::new(ps.len(), |k: int| declared(ps[k].ptype)),
        ret: declared(rtype),
    }
}

/// First pass: every function's signature, bound in the root frame in order.
pub open spec fn register(env: Env, cs: Seq<RChunkM>, i: int) -> Env
    decreases cs.len() - i,
{
    if 0 <= i < cs.len() {
        match cs[i] {
            ChunkModel::Function { name, params, rtype, body, span } => register(
                bind(env, name.id.0, signature(params, rtype)),
                cs,
                i + 1,
            ),
            _ => register(env, cs, i + 1),
        }
    } else {
        env
    }
}

/// Second pass: each function body in a frame of its own parameters.
pub open spec fn check_fns(env: Env, cs: Seq<RChunkM>, i: int) -> Result<Env, TypeError>
    decreases cs.len() - i,
{
    if 0 <= i < cs.len() {
        match cs[i] {
            ChunkModel::Function { name, params, rtype, body, span } => match check_s(
                env.push(param_frame(params)),
                declared(rtype),
                body,
            ) {
                Ok(env1) => check_fns(env1.drop_last(), cs, i + 1),
                Err(err) => Err(err),
            },
            _ => check_fns(env, cs, i + 1),
        }
    } else {
        Ok(env)
    }
}

/// Both passes over a whole unit.
pub open spec fn check_program(env: Env, cs: Seq<RChunkM>) -> Result<Env, TypeError> {
    check_fns(register(env, cs, 0), cs, 0)
}

pub open spec fn types_view(v: Seq<TypeId>) -> Seq<TypeView> {
    Seq::new(v.len(), |k: int| v[k]@)
}

fn copy_type(t: &TypeId) -> (r: TypeId)
    ensures
        r@ == t@,
{
    match t {
        TypeId::Void => TypeId::Void,
        TypeId::Bool => TypeId::Bool,
        TypeId::Usize => TypeId::Usize,
        TypeId::Function { params, ret } => {
            let mut ps: Vec<Primitive> = Vec::new();
            let mut k: usize = 0;
            while k < params.len()
                invariant
                    k <= params.len(),
                    ps@ == params@.subrange(0, k as int),
                decreases params.len() - k,
            {
                ps.push(params[k]);
                k += 1;
                proof {
                    assert(ps@ =~= params@.subrange(0, k as int));
                }
            }
            proof {
                assert(params@.subrange(0, k as int) =~= params@);
            }
            TypeId::Function { params: ps, ret: *ret }
        },
    }
}

fn same_type(a: &TypeId, b: &TypeId) -> (r: bool)
    ensures
        r == (a@ == b@),
{
    match (a, b) {
        (TypeId::Void, TypeId::Void) => true,
        (TypeId::Bool, TypeId::Bool) => true,
        (TypeId::Usize, TypeId::Usize) => true,
        (TypeId::Function { params: pa, ret: ra }, TypeId::Function { params: pb, ret: rb }) => {
            if *ra != *rb || pa.len() != pb.len() {
                proof {
                    if a@ == b@ {
                        assert(a@->Function_ret == b@->Function_ret);
                        assert(a@->Function_params.len() == b@->Function_params.len());
                    }
                }
                return false;
            }
            let mut k: usize = 0;
            while k < pa.len()
                invariant
                    k <= pa.len(),
                    pa.len() == pb.len(),
                    a@ == (TypeView::Function { params: pa@, ret: *ra }),
                    b@ == (TypeView::Function { params: pb@, ret: *rb }),
                    forall|j: int| 0 <= j < k ==> pa@[j] == pb@[j],
                decreases pa.len() - k,
            {
                if pa[k] != pb[k] {
                    proof {
                        if a@ == b@ {
                            assert(pa@[k as int] == pb@[k as int]);
                        }
                    }
                    return false;
                }
                k += 1;
            }
            proof {
                assert(pa@ =~= pb@);
            }
            true
        },
        _ => false,
    }
}

fn prim_type_exec(p: Primitive) -> (r: TypeId)
    ensures
        r@ == prim_type(p),
{
    match p {
        Primitive::Void => TypeId::Void,
        Primitive::Bool => TypeId::Bool,
        Primitive::Usize => TypeId::Usize,
    }
}

fn declared_exec(r: ResolvedIdentifier) -> (p: Primitive)
    ensures
        p == declared(r),
{
    match Primitive::from_id(r.id) {
        Some(p) => p,
        None => Primitive::Void,
    }
}

/// The argument types match the parameter types, position by position.
fn args_match(ats: &Vec<TypeId>, pts: &Vec<Primitive>) -> (r: bool)
    ensures
        r == (types_view(ats@) == prim_types(pts@)),
{
    if ats.len() != pts.len() {
        proof {
            assert(types_view(ats@).len() != prim_types(pts@).len());
        }
        return false;
    }
    let mut k: usize = 0;
    while k < ats.len()
        invariant
            k <= ats.len(),
            ats.len() == pts.len(),
            forall|j: int| 0 <= j < k ==> ats@[j]@ == prim_type(pts@[j]),
        decreases ats.len() - k,
    {
        let t = prim_type_exec(pts[k]);
        if !same_type(&ats[k], &t) {
            proof {
                assert(types_view(ats@)[k as int] != prim_types(pts@)[k as int]);
            }
            return false;
        }
        k += 1;
    }
    proof {
        assert(types_view(ats@) =~= prim_types(pts@));
    }
    true
}

struct Binding {
    id: usize,
    ty: TypeId,
}

/// Checks a resolved tree against a stack of scope frames. The stack starts
/// with the root frame, which receives the function signatures.
pub struct TypeChecker {
    scopes: Vec<Vec<Binding>>,
}

impl TypeChecker {
    /// The scope stack, outermost first.
    pub closed spec fn env(&self) -> Env {
        self.scopes@.map_values(|f: Vec<Binding>| f@.map_values(|b: Binding| (b.id, b.ty@)))
    }

    /// A checker holding only an empty root frame.
    pub fn new() -> (r: Self)
        ensures
            r.env() == seq![Seq::<(usize, TypeView)>::empty()],
    {
        let mut scopes: Vec<Vec<Binding>> = Vec::new();
        scopes.push(Vec::new());
        let r = TypeChecker { scopes };
        proof {
            assert(r.scopes@[0]@.map_values(|b: Binding| (b.id, b.ty@)) =~= Seq::<(usize, TypeView)>::empty());
            assert(r.env() =~= seq![Seq::<(usize, TypeView)>::empty()]);
        }
        r
    }

    /// The number of frames on the scope stack.
    pub fn depth(&self) -> (r: usize)
        ensures
            r == self.env().len(),
    {
        self.scopes.len()
    }

    fn get(&self, id: usize) -> (r: Option<TypeId>)
        ensures
            match lookup(self.env(), id) {
                Some(t) => r is Some && r->0@ == t,
                None => r is None,
            },
    {
        let ghost env = self.env();
        let mut i = self.scopes.len();
        proof {
            assert(env.subrange(0, i as int) =~= env);
        }
        while i > 0
            invariant
                i <= self.scopes.len(),
                env == self.env(),
                lookup(env, id) == lookup(env.subrange(0, i as int), id),
            decreases i,
        {
            let frame = &self.scopes[i - 1];
            let ghost f = env[i - 1];
            proof {
                assert(f == frame@.map_values(|b: Binding| (b.id, b.ty@)));
                assert(f.subrange(0, f.len() as int) =~= f);
            }
            let mut j = frame.len();
            while j > 0
                invariant
                    j <= frame.len(),
                    0 < i <= self.scopes.len(),
                    env == self.env(),
                    f == env[i - 1],
                    frame == self.scopes@[i - 1],
                    lookup(env, id) == lookup(env.subrange(0, i as int), id),
                    f == frame@.map_values(|b: Binding| (b.id, b.ty@)),
                    lookup_frame(f, id) == lookup_frame(f.subrange(0, j as int), id),
                decreases j,
            {
                if frame[j - 1].id == id {
                    proof {
                        assert(f.subrange(0, j as int).last() == f[j - 1]);
                        assert(env.subrange(0, i as int).last() == f);
                    }
                    return Some(copy_type(&frame[j - 1].ty));
                }
                proof {
                    assert(f.subrange(0, j as int).drop_last() =~= f.subrange(0, j - 1));
                }
                j -= 1;
            }
            proof {
                assert(env.subrange(0, i as int).last() == f);
                assert(env.subrange(0, i as int).drop_last() =~= env.subrange(0, i - 1));
            }
            i -= 1;
        }
        None
    }

    fn insert(&mut self, id: usize, t: TypeId)
        requires
            old(self).env().len() > 0,
        ensures
            final(self).env() == bind(old(self).env(), id, t@),
    {
        let ghost env = self.env();
        let ghost tv = t@;
        let mut frame = self.scopes.pop().unwrap();
        proof {
            assert(self.env() =~= env.drop_last());
        }
        frame.push(Binding { id, ty: t });
        proof {
            assert(frame@.map_values(|b: Binding| (b.id, b.ty@)) =~= env.last().push((id, tv)));
        }
        self.scopes.push(frame);
        proof {
            assert(self.env() =~= bind(env, id, tv));
        }
    }

    fn push_scope(&mut self)
        ensures
            final(self).env() == old(self).env().push(seq![]),
    {
        let ghost env = self.env();
        self.scopes.push(Vec::new());
        proof {
            assert(self.scopes@.last()@.map_values(|b: Binding| (b.id, b.ty@)) =~= Seq::<(usize, TypeView)>::empty());
            assert(self.env() =~= env.push(seq![]));
        }
    }

    fn pop_scope(&mut self)
        requires
            old(self).env().len() > 0,
        ensures
            final(self).env() == old(self).env().drop_last(),
    {
        let _ = self.scopes.pop();
        proof {
            assert(self.env() =~= old(self).env().drop_last());
        }
    }
}

/// `r` is the checked type (or error) that the model gives.
pub open spec fn type_outcome(r: Result<TypeId, TypeError>, g: Result<TypeView, TypeError>) -> bool {
    match g {
        Ok(t) => match r {
            Ok(x) => x@ == t,
            Err(_) => false,
        },
        Err(err) => r == Err::<TypeId, TypeError>(err),
    }
}

/// `r` and the scope stack `after` are what the model gives.
pub open spec fn env_outcome(r: Result<(), TypeError>, g: Result<Env, TypeError>, after: Env) -> bool {
    match g {
        Ok(env1) => r is Ok && after == env1,
        Err(err) => r == Err::<(), TypeError>(err),
    }
}

impl TypeChecker {
    fn check_expression(&self, e: &ResolvedExpression) -> (r: Result<TypeId, TypeError>)
        ensures
            type_outcome(r, check_e(self.env(), expr_model(*e))),
        decreases e, 0int,
    {
        match e {
            Expression::Identifier(i) => match self.get(i.id.0) {
                Some(t) => Ok(t),
                None => Err(TypeError::NotDeclared(i.span)),
            },
            Expression::Literal { span } => Err(TypeError::TypeMismatch(*span)),
            Expression::UnaryOperator { operation, expression } => self.check_expression(expression),
            Expression::BinaryOperator { left, right, .. } => {
                let lt = match self.check_expression(left) {
                    Ok(t) => t,
                    Err(err) => return Err(err),
                };
                match self.check_expression(right) {
                    Ok(_) => Ok(lt),
                    Err(err) => Err(err),
                }
            },
            Expression::Call { name, params, span } => {
                proof {
                    assert(expr_model(*e)->Call_params =~= exprs_model(params@));
                }
                match self.get(name.id.0) {
                    Some(TypeId::Function { params: pts, ret }) => {
                        let mut ats: Vec<TypeId> = Vec::new();
                        let ghost empty = ats@;
                        match self.check_expressions(params, 0, &mut ats) {
                            Ok(()) => {
                                proof {
                                    assert(types_view(empty) =~= Seq::<TypeView>::empty());
                                    assert(types_view(empty) + check_es(self.env(), exprs_model(params@), 0)->Ok_0 =~= check_es(self.env(), exprs_model(params@), 0)->Ok_0);
                                }
                                if args_match(&ats, &pts) {
                                    Ok(prim_type_exec(ret))
                                } else {
                                    Err(TypeError::ParamTypeMismatch(*span))
                                }
                            },
                            Err(err) => Err(err),
                        }
                    },
                    Some(_) => Err(TypeError::TypeMismatch(*span)),
                    None => Err(TypeError::NotDeclared(*span)),
                }
            },
        }
    }

    /// The types of `es[i..]`, appended to `out`.
    fn check_expressions(&self, es: &Vec<ResolvedExpression>, i: usize, out: &mut Vec<TypeId>) -> (r:
        Result<(), TypeError>)
        requires
            i <= es.len(),
        ensures
            match check_es(self.env(), exprs_model(es@), i as int) {
                Ok(ts) => r is Ok && types_view(final(out)@) == types_view(old(out)@) + ts,
                Err(err) => r == Err::<(), TypeError>(err),
            },
        decreases es, es.len() - i,
    {
        let ghost out0 = out@;
        if i < es.len() {
            let t = match self.check_expression(&es[i]) {
                Ok(t) => t,
                Err(err) => return Err(err),
            };
            let ghost tv = t@;
            out.push(t);
            proof {
                assert(types_view(out@) =~= types_view(out0) + seq![tv]);
            }
            let ghost out1 = out@;
            let r = self.check_expressions(es, i + 1, out);
            proof {
                if r is Ok {
                    let rest = check_es(self.env(), exprs_model(es@), i + 1)->Ok_0;
                    assert(types_view(out1) + rest =~= types_view(out0) + (seq![tv] + rest));
                }
            }
            r
        } else {
            proof {
                assert(types_view(out0) =~= types_view(out0) + Seq::<TypeView>::empty());
            }
            Ok(())
        }
    }

    fn check_statement(&mut self, st: &ResolvedStatement, ret: Primitive) -> (r: Result<
        (),
        TypeError,
    >)
        requires
            old(self).env().len() > 0,
        ensures
            env_outcome(r, check_s(old(self).env(), ret, stmt_model(*st)), final(self).env()),
        decreases st, 0int,
    {
        match st {
            Statement::Declaration { name, expression, rtype, span } => {
                let t = match self.check_expression(expression) {
                    Ok(t) => t,
                    Err(err) => return Err(err),
                };
                let d = prim_type_exec(declared_exec(*rtype));
                if !same_type(&d, &t) {
                    return Err(TypeError::DeclarationMismatch(*span));
                }
                self.insert(name.id.0, t);
                Ok(())
            },
            Statement::Reassignment { name, expression, span } => {
                let dt = match self.get(name.id.0) {
                    Some(t) => t,
                    None => return Err(TypeError::NotDeclared(*span)),
                };
                let et = match self.check_expression(expression) {
                    Ok(t) => t,
                    Err(err) => return Err(err),
                };
                if same_type(&et, &dt) {
                    Ok(())
                } else {
                    Err(TypeError::AssignmentMismatch(*span))
                }
            },
            Statement::If { condition, statement, ielse, span } => {
                let ct = match self.check_expression(condition) {
                    Ok(t) => t,
                    Err(err) => return Err(err),
                };
                if !same_type(&ct, &TypeId::Bool) {
                    return Err(TypeError::TypeMismatch(*span));
                }
                match self.check_statement(statement, ret) {
                    Ok(()) => {},
                    Err(err) => return Err(err),
                }
                proof {
                    lemma_check_keeps_depth(old(self).env(), ret, stmt_model(**statement));
                }
                match ielse {
                    Some(e) => self.check_statement(e, ret),
                    None => Ok(()),
                }
            },
            Statement::Scope { body, span } => {
                proof {
                    assert(stmt_model(*st)->Scope_body =~= stmts_model(body@));
                }
                self.push_scope();
                match self.check_statements(body, 0, ret) {
                    Ok(()) => {},
                    Err(err) => return Err(err),
                }
                proof {
                    lemma_check_keeps_depth_all(old(self).env().push(seq![]), ret, stmts_model(body@), 0);
                }
                self.pop_scope();
                Ok(())
            },
            Statement::VoidCall { name, params, span } => {
                proof {
                    assert(stmt_model(*st)->VoidCall_params =~= exprs_model(params@));
                }
                match self.get(name.id.0) {
                    Some(TypeId::Function { params: pts, ret: r }) => {
                        if r != Primitive::Void {
                            return Err(TypeError::NotVoid(*span));
                        }
                        let mut ats: Vec<TypeId> = Vec::new();
                        let ghost empty = ats@;
                        match self.check_expressions(params, 0, &mut ats) {
                            Ok(()) => {
                                proof {
                                    assert(types_view(empty) =~= Seq::<TypeView>::empty());
                                    assert(types_view(empty) + check_es(self.env(), exprs_model(params@), 0)->Ok_0 =~= check_es(self.env(), exprs_model(params@), 0)->Ok_0);
                                }
                                if args_match(&ats, &pts) {
                                    Ok(())
                                } else {
                                    Err(TypeError::ParamTypeMismatch(*span))
                                }
                            },
                            Err(err) => Err(err),
                        }
                    },
                    Some(_) => Err(TypeError::TypeMismatch(*span)),
                    None => Err(TypeError::NotDeclared(*span)),
                }
            },
            Statement::Return { expr, span } => {
                let t = match expr {
                    Some(e) => match self.check_expression(e) {
                        Ok(t) => t,
                        Err(err) => return Err(err),
                    },
                    None => TypeId::Void,
                };
                let want = prim_type_exec(ret);
                if same_type(&t, &want) {
                    Ok(())
                } else {
                    Err(TypeError::BadReturnType(*span))
                }
            },
        }
    }

    fn check_statements(&mut self, ss: &Vec<ResolvedStatement>, i: usize, ret: Primitive) -> (r:
        Result<(), TypeError>)
        requires
            i <= ss.len(),
            old(self).env().len() > 0,
        ensures
            env_outcome(r, check_ss(old(self).env(), ret, stmts_model(ss@), i as int), final(self).env()),
        decreases ss, ss.len() - i,
    {
        if i < ss.len() {
            match self.check_statement(&ss[i], ret) {
                Ok(()) => {},
                Err(err) => return Err(err),
            }
            proof {
                lemma_check_keeps_depth(old(self).env(), ret, stmt_model(ss@[i as int]));
            }
            self.check_statements(ss, i + 1, ret)
        } else {
            Ok(())
        }
    }
}

/// Checking a statement changes at most the innermost frame of the scope
/// stack: every frame pushed for a block is popped again.
pub proof fn lemma_check_keeps_depth(env: Env, ret: Primitive, s: RStmtM)
    requires
        env.len() > 0,
    ensures
        check_s(env, ret, s) is Ok ==> check_s(env, ret, s)->Ok_0.len() == env.len()
            && check_s(env, ret, s)->Ok_0.drop_last() == env.drop_last(),
    decreases s, 0int,
{
    match s {
        StmtModel::If { condition, statement, ielse, span } => {
            lemma_check_keeps_depth(env, ret, *statement);
            if check_s(env, ret, *statement) is Ok {
                match ielse {
                    Some(e) => lemma_check_keeps_depth(check_s(env, ret, *statement)->Ok_0, ret, *e),
                    None => {},
                }
            }
        },
        StmtModel::Scope { body, span } => {
            lemma_check_keeps_depth_all(env.push(seq![]), ret, body, 0);
            assert(env.push(seq![]).drop_last() =~= env);
        },
        StmtModel::Declaration { name, expression, rtype, span } => {
            assert(bind(env, name.id.0, prim_type(declared(rtype))).drop_last() =~= env.drop_last());
        },
        _ => {},
    }
}

pub proof fn lemma_check_keeps_depth_all(env: Env, ret: Primitive, ss: Seq<RStmtM>, i: int)
    requires
        env.len() > 0,
    ensures
        check_ss(env, ret, ss, i) is Ok ==> check_ss(env, ret, ss, i)->Ok_0.len() == env.len()
            && check_ss(env, ret, ss, i)->Ok_0.drop_last() == env.drop_last(),
    decreases ss, ss.len() - i,
{
    if 0 <= i < ss.len() {
        lemma_check_keeps_depth(env, ret, ss[i]);
        if check_s(env, ret, ss[i]) is Ok {
            lemma_check_keeps_depth_all(check_s(env, ret, ss[i])->Ok_0, ret, ss, i + 1);
        }
    }
}

/// Every type position of a statement names a primitive (ids 0, 1, 2).
pub open spec fn stmt_types_primitive(s: RStmtM) -> bool
    decreases s, 0int,
{
    match s {
        StmtModel::Declaration { rtype, .. } => rtype.id.0 < 3,
        StmtModel::If { statement, ielse, .. } => stmt_types_primitive(*statement) && match ielse {
            Some(e) => stmt_types_primitive(*e),
            None => true,
        },
        StmtModel::Scope { body, .. } => stmts_types_primitive(body, 0),
        _ => true,
    }
}

pub open spec fn stmts_types_primitive(ss: Seq<RStmtM>, i: int) -> bool
    decreases ss, ss.len() - i,
{
    if 0 <= i < ss.len() {
        stmt_types_primitive(ss[i]) && stmts_types_primitive(ss, i + 1)
    } else {
        true
    }
}

pub open spec fn chunk_types_primitive(c: RChunkM) -> bool {
    match c {
        ChunkModel::Function { params, rtype, body, .. } => (forall|k: int|
            0 <= k < params.len() ==> (#[trigger] params[k]).ptype.id.0 < 3) && rtype.id.0 < 3
            && stmt_types_primitive(body),
        _ => true,
    }
}

/// The language has no user-defined types: every parameter, return and
/// declared type must be `void`, `bool` or `usize`.
pub open spec fn types_primitive(cs: Seq<RChunkM>) -> bool {
    forall|k: int| 0 <= k < cs.len() ==> #[trigger] chunk_types_primitive(cs[k])
}

fn stmt_types_ok(s: &ResolvedStatement) -> (r: bool)
    ensures
        r == stmt_types_primitive(stmt_model(*s)),
    decreases s, 0int,
{
    match s {
        Statement::Declaration { rtype, .. } => rtype.id.0 < 3,
        Statement::If { statement, ielse, .. } => {
            if !stmt_types_ok(statement) {
                return false;
            }
            match ielse {
                Some(e) => stmt_types_ok(e),
                None => true,
            }
        },
        Statement::Scope { body, .. } => {
            proof {
                assert(stmt_model(*s)->Scope_body =~= stmts_model(body@));
            }
            stmts_types_ok(body, 0)
        },
        _ => true,
    }
}

fn stmts_types_ok(ss: &Vec<ResolvedStatement>, i: usize) -> (r: bool)
    requires
        i <= ss.len(),
    ensures
        r == stmts_types_primitive(stmts_model(ss@), i as int),
    decreases ss, ss.len() - i,
{
    if i < ss.len() {
        stmt_types_ok(&ss[i]) && stmts_types_ok(ss, i + 1)
    } else {
        true
    }
}

fn chunk_types_ok(c: &ResolvedChunk) -> (r: bool)
    ensures
        r == chunk_types_primitive(chunk_model(*c)),
{
    match c {
        Chunk::Function { params, rtype, body, .. } => {
            let mut k: usize = 0;
            while k < params.len()
                invariant
                    k <= params.len(),
                    chunk_model(*c) is Function,
                    chunk_model(*c)->Function_params == params@,
                    forall|j: int| 0 <= j < k ==> (#[trigger] params@[j]).ptype.id.0 < 3,
                decreases params.len() - k,
            {
                if params[k].ptype.id.0 >= 3 {
                    proof {
                        assert(chunk_model(*c)->Function_params[k as int].ptype.id.0 >= 3);
                    }
                    return false;
                }
                k += 1;
            }
            rtype.id.0 < 3 && stmt_types_ok(body)
        },
        _ => true,
    }
}

impl ResolvedAstTree {
    /// All type positions name primitives, as `TypeChecker::check` requires.
    pub fn uses_only_primitive_types(&self) -> (r: bool)
        ensures
            r == types_primitive(chunks_model(self.body@)),
    {
        let ghost cs = chunks_model(self.body@);
        let mut i: usize = 0;
        while i < self.body.len()
            invariant
                i <= self.body.len(),
                cs == chunks_model(self.body@),
                forall|k: int| 0 <= k < i ==> #[trigger] chunk_types_primitive(cs[k]),
            decreases self.body.len() - i,
        {
            let ok = chunk_types_ok(&self.body[i]);
            proof {
                assert(cs[i as int] == chunk_model(self.body@[i as int]));
            }
            if !ok {
                proof {
                    assert(!chunk_types_primitive(cs[i as int]));
                }
                return false;
            }
            i += 1;
        }
        true
    }
}

fn signature_exec(ps: &Vec<ResolvedParam>, rtype: ResolvedIdentifier) -> (r: TypeId)
    ensures
        r@ == signature(ps@, rtype),
{
    let mut v: Vec<Primitive> = Vec::new();
    let mut k: usize = 0;
    while k < ps.len()
        invariant
            k <= ps.len(),
            v@ == Seq::new(k as nat, |j: int| declared(ps@[j].ptype)),
        decreases ps.len() - k,
    {
        v.push(declared_exec(ps[k].ptype));
        k += 1;
        proof {
            assert(v@ =~= Seq::new(k as nat, |j: int| declared(ps@[j].ptype)));
        }
    }
    TypeId::Function { params: v, ret: declared_exec(rtype) }
}

impl TypeChecker {
    /// First pass: binds every function's signature in the current frame.
    fn register(&mut self, cs: &Vec<ResolvedChunk>)
        requires
            old(self).env().len() > 0,
        ensures
            final(self).env() == register(old(self).env(), chunks_model(cs@), 0),
    {
        let ghost m = chunks_model(cs@);
        let mut i: usize = 0;
        while i < cs.len()
            invariant
                i <= cs.len(),
                m == chunks_model(cs@),
                self.env().len() > 0,
                register(old(self).env(), m, 0) == register(self.env(), m, i as int),
            decreases cs.len() - i,
        {
            match &cs[i] {
                Chunk::Function { name, params, rtype, .. } => {
                    let sig = signature_exec(params, *rtype);
                    self.insert(name.id.0, sig);
                },
                _ => {},
            }
            i += 1;
        }
    }

    /// Pushes a frame holding the parameters, bound in order.
    fn push_params(&mut self, ps: &Vec<ResolvedParam>)
        ensures
            final(self).env() == old(self).env().push(param_frame(ps@)),
    {
        self.push_scope();
        proof {
            assert(param_frame(ps@).subrange(0, 0) =~= Seq::<(usize, TypeView)>::empty());
        }
        let mut k: usize = 0;
        while k < ps.len()
            invariant
                k <= ps.len(),
                self.env() == old(self).env().push(param_frame(ps@).subrange(0, k as int)),
            decreases ps.len() - k,
        {
            let t = prim_type_exec(declared_exec(ps[k].ptype));
            let ghost before = self.env();
            self.insert(ps[k].name.id.0, t);
            k += 1;
            proof {
                assert(param_frame(ps@).subrange(0, k as int) =~= param_frame(ps@).subrange(0, k - 1).push(param_frame(ps@)[k - 1]));
                assert(self.env() =~= old(self).env().push(param_frame(ps@).subrange(0, k as int)));
            }
        }
        proof {
            assert(param_frame(ps@).subrange(0, k as int) =~= param_frame(ps@));
        }
    }

    /// Second pass: every function body, each in a frame of its parameters.
    fn check_functions(&mut self, cs: &Vec<ResolvedChunk>) -> (r: Result<(), TypeError>)
        requires
            old(self).env().len() > 0,
        ensures
            env_outcome(r, check_fns(old(self).env(), chunks_model(cs@), 0), final(self).env()),
    {
        let ghost m = chunks_model(cs@);
        let mut i: usize = 0;
        while i < cs.len()
            invariant
                i <= cs.len(),
                m == chunks_model(cs@),
                self.env().len() > 0,
                check_fns(old(self).env(), m, 0) == check_fns(self.env(), m, i as int),
            decreases cs.len() - i,
        {
            match &cs[i] {
                Chunk::Function { params, rtype, body, .. } => {
                    let ghost env = self.env();
                    self.push_params(params);
                    match self.check_statement(body, declared_exec(*rtype)) {
                        Ok(()) => {},
                        Err(err) => return Err(err),
                    }
                    proof {
                        lemma_check_keeps_depth(env.push(param_frame(params@)), declared(*rtype), stmt_model(*body));
                    }
                    self.pop_scope();
                },
                _ => {},
            }
            i += 1;
        }
        Ok(())
    }

    /// Checks a whole unit: signatures first, then every body. On success
    /// the scope stack is back to the depth it had.
    pub fn check(&mut self, ast: &ResolvedAstTree) -> (r: Result<(), TypeError>)
        requires
            old(self).env().len() > 0,
            types_primitive(chunks_model(ast.body@)),
        ensures
            env_outcome(r, check_program(old(self).env(), chunks_model(ast.body@)), final(self).env()),
            r is Ok ==> final(self).env().len() == old(self).env().len(),
    {
        self.register(&ast.body);
        proof {
            lemma_register_keeps_depth(old(self).env(), chunks_model(ast.body@), 0);
        }
        let r = self.check_functions(&ast.body);
        proof {
            lemma_fns_keep_depth(register(old(self).env(), chunks_model(ast.body@), 0), chunks_model(ast.body@), 0);
        }
        r
    }
}

pub proof fn lemma_register_keeps_depth(env: Env, cs: Seq<RChunkM>, i: int)
    requires
        env.len() > 0,
    ensures
        register(env, cs, i).len() == env.len(),
    decreases cs.len() - i,
{
    if 0 <= i < cs.len() {
        match cs[i] {
            ChunkModel::Function { name, params, rtype, body, span } => lemma_register_keeps_depth(
                bind(env, name.id.0, signature(params, rtype)),
                cs,
                i + 1,
            ),
            _ => lemma_register_keeps_depth(env, cs, i + 1),
        }
    }
}

pub proof fn lemma_fns_keep_depth(env: Env, cs: Seq<RChunkM>, i: int)
    requires
        env.len() > 0,
    ensures
        check_fns(env, cs, i) is Ok ==> check_fns(env, cs, i)->Ok_0.len() == env.len(),
    decreases cs.len() - i,
{
    if 0 <= i < cs.len() {
        match cs[i] {
            ChunkModel::Function { name, params, rtype, body, span } => {
                lemma_check_keeps_depth(env.push(param_frame(params)), declared(rtype), body);
                let r = check_s(env.push(param_frame(params)), declared(rtype), body);
                if r is Ok {
                    lemma_fns_keep_depth(r->Ok_0.drop_last(), cs, i + 1);
                }
            },
            _ => lemma_fns_keep_depth(env, cs, i + 1),
        }
    }
}

/// A block leaves the scope stack exactly as it found it. So a name that
/// was unknown before a block is unknown after it, whatever the block
/// declared, and reassigning it there fails with `NotDeclared`.
pub proof fn lemma_scope_exit(
    env: Env,
    ret: Primitive,
    body: Seq<RStmtM>,
    span: Span,
    name: ResolvedIdentifier,
    expression: RExprM,
    aspan: Span,
)
    requires
        env.len() > 0,
        lookup(env, name.id.0) is None,
        check_s(env, ret, StmtModel::Scope { body, span }) is Ok,
    ensures
        check_s(env, ret, StmtModel::Scope { body, span })->Ok_0 == env,
        check_ss(
            env,
            ret,
            seq![
                StmtModel::Scope { body, span },
                StmtModel::Reassignment { name, expression, span: aspan },
            ],
            0,
        ) == Err::<Env, TypeError>(TypeError::NotDeclared(aspan)),
{
    lemma_check_keeps_depth_all(env.push(seq![]), ret, body, 0);
    assert(env.push(seq![]).drop_last() =~= env);
    let ss = seq![
        StmtModel::Scope { body, span },
        StmtModel::Reassignment { name, expression, span: aspan },
    ];
    assert(ss[0] == StmtModel::Scope { body, span });
    assert(ss[1] == StmtModel::Reassignment { name, expression, span: aspan });
    assert(check_s(env, ret, ss[1]) == Err::<Env, TypeError>(TypeError::NotDeclared(aspan)));
    assert(check_ss(env, ret, ss, 1) == Err::<Env, TypeError>(TypeError::NotDeclared(aspan)));
}

/// A `return` must give the function's declared type: one whose value has
/// another type fails with `BadReturnType`; a bare `return;` is fine in a
/// `void` function and fails in any other.
pub proof fn lemma_return_type(env: Env, ret: Primitive, e: RExprM, span: Span)
    ensures
        check_e(env, e) is Ok && check_e(env, e)->Ok_0 != prim_type(ret) ==> check_s(
            env,
            ret,
            StmtModel::Return { expr: Some(e), span },
        ) == Err::<Env, TypeError>(TypeError::BadReturnType(span)),
        check_e(env, e) is Ok && check_e(env, e)->Ok_0 == prim_type(ret) ==> check_s(
            env,
            ret,
            StmtModel::Return { expr: Some(e), span },
        ) == Ok::<Env, TypeError>(env),
        check_s(env, Primitive::Void, StmtModel::Return { expr: None, span }) == Ok::<
            Env,
            TypeError,
        >(env),
        ret != Primitive::Void ==> check_s(env, ret, StmtModel::Return { expr: None, span }) == Err::<
            Env,
            TypeError,
        >(TypeError::BadReturnType(span)),
{
}

/// The same at the level of a whole function: a `bool` function whose body
/// returns a `usize` value fails with `BadReturnType`; a `void` function
/// whose body is a bare `return;` passes and leaves the scope stack as it was.
pub proof fn lemma_function_return_type(
    env: Env,
    name: ResolvedIdentifier,
    params: Seq<Param<ResolvedIdentifier>>,
    rtype: ResolvedIdentifier,
    e: RExprM,
    rspan: Span,
    span: Span,
)
    requires
        env.len() > 0,
    ensures
        declared(rtype) == Primitive::Bool && check_e(env.push(param_frame(params)), e) == Ok::<
            TypeView,
            TypeError,
        >(TypeView::Usize) ==> check_fns(
            env,
            seq![
                ChunkModel::Function {
                    name,
                    params,
                    rtype,
                    body: StmtModel::Return { expr: Some(e), span: rspan },
                    span,
                },
            ],
            0,
        ) == Err::<Env, TypeError>(TypeError::BadReturnType(rspan)),
        declared(rtype) == Primitive::Void ==> check_fns(
            env,
            seq![
                ChunkModel::Function {
                    name,
                    params,
                    rtype,
                    body: StmtModel::Return { expr: None, span: rspan },
                    span,
                },
            ],
            0,
        ) == Ok::<Env, TypeError>(env),
{
    let f1 = ChunkModel::Function {
        name,
        params,
        rtype,
        body: StmtModel::Return { expr: Some(e), span: rspan },
        span,
    };
    let f2 = ChunkModel::Function {
        name,
        params,
        rtype,
        body: StmtModel::Return { expr: None, span: rspan },
        span,
    };
    assert(seq![f1][0] == f1);
    assert(seq![f2][0] == f2);
    assert(env.push(param_frame(params)).drop_last() =~= env);
    assert(check_fns(env, seq![f2], 1) == Ok::<Env, TypeError>(env));
}

/// A call statement needs a `void` callee: calling a function that returns
/// anything else fails with `NotVoid`. With a `void` callee, arguments
/// whose number or types differ from the parameters fail with
/// `ParamTypeMismatch`.
pub proof fn lemma_void_call(
    env: Env,
    ret: Primitive,
    name: ResolvedIdentifier,
    params: Seq<RExprM>,
    span: Span,
    pts: Seq<Primitive>,
    r: Primitive,
)
    requires
        lookup(env, name.id.0) == Some(TypeView::Function { params: pts, ret: r }),
    ensures
        r != Primitive::Void ==> check_s(env, ret, StmtModel::VoidCall { name, params, span })
            == Err::<Env, TypeError>(TypeError::NotVoid(span)),
        r == Primitive::Void && check_es(env, params, 0) is Ok && check_es(env, params, 0)->Ok_0
            != prim_types(pts) ==> check_s(env, ret, StmtModel::VoidCall { name, params, span })
            == Err::<Env, TypeError>(TypeError::ParamTypeMismatch(span)),
        r == Primitive::Void && check_es(env, params, 0) is Ok && params.len() != pts.len()
            ==> check_s(env, ret, StmtModel::VoidCall { name, params, span }) == Err::<
            Env,
            TypeError,
        >(TypeError::ParamTypeMismatch(span)),
        r == Primitive::Void && check_es(env, params, 0) is Ok && check_es(env, params, 0)->Ok_0
            == prim_types(pts) ==> check_s(env, ret, StmtModel::VoidCall { name, params, span })
            == Ok::<Env, TypeError>(env),
{
    lemma_arg_types(env, params, 0);
    if check_es(env, params, 0) is Ok && params.len() != pts.len() {
        assert(check_es(env, params, 0)->Ok_0.len() != prim_types(pts).len());
    }
}

/// The argument types of a call are the checked types of its arguments, in
/// order: as many as there are arguments.
pub proof fn lemma_arg_types(env: Env, es: Seq<RExprM>, i: int)
    requires
        0 <= i <= es.len(),
    ensures
        check_es(env, es, i) is Ok ==> check_es(env, es, i)->Ok_0.len() == es.len() - i
            && forall|k: int|
            i <= k < es.len() ==> check_e(env, #[trigger] es[k]) == Ok::<TypeView, TypeError>(
                check_es(env, es, i)->Ok_0[k - i],
            ),
    decreases es.len() - i,
{
    if i < es.len() {
        lemma_arg_types(env, es, i + 1);
    }
}

} // verus!
