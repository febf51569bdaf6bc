//! The type checker: inference and checking of terms in a context.

use vstd::prelude::*;
use crate::kernel::event::{SpecReason, SpecRule, Symbol};
use crate::syntax::ast::{SpecTerm, Term};
use crate::types::ty::{same_type, type_text, SpecType, Type};
use crate::text::{nat_text, push_decimal};

verus! {

/// TypeMode controls how the checker handles free variables.
///
/// ClosedWorld: unknown variables are type errors.
/// OpenWorld: unknown variables are symbolic atoms of type Unit.
#[derive(Debug, Clone, Copy, PartialEq, Eq)]
pub enum TypeMode {
    /// Reject unknown variables (sound, proof-grade).
    ClosedWorld,
    /// Treat unknown variables as Unit (permissive, REPL-grade).
    OpenWorld,
}

impl Default for TypeMode {
    fn default() -> (r: TypeMode)
        ensures
            r == TypeMode::OpenWorld,
    {
        TypeMode::OpenWorld
    }
}

/// The display text of a type mode.
pub open spec fn mode_text(m: TypeMode) -> Seq<char> {
    match m {
        TypeMode::ClosedWorld => "closed-world"@,
        TypeMode::OpenWorld => "open-world"@,
    }
}

impl TypeMode {
    /// The display text of the mode.
    pub fn to_text(&self) -> (r: String)
        ensures
            r@ == mode_text(*self),
    {
        match self {
            TypeMode::ClosedWorld => String::from_str("closed-world"),
            TypeMode::OpenWorld => String::from_str("open-world"),
        }
    }
}

/// The mathematical model of a typing context: bindings in order of
/// introduction (a later binding of a name hides earlier ones) and a mode.
pub struct SpecContext {
    pub bindings: Seq<(Seq<char>, SpecType)>,
    pub mode: TypeMode,
}

/// The type bound to `x` by the latest binding of `x`, if any.
pub open spec fn lookup_binding(b: Seq<(Seq<char>, SpecType)>, x: Seq<char>) -> Option<SpecType>
    decreases b.len(),
{
    if b.len() == 0 {
        None
    } else if b.last().0 == x {
        Some(b.last().1)
    } else {
        lookup_binding(b.drop_last(), x)
    }
}

/// `ctx` with `x` bound to `ty`.
pub open spec fn extended(ctx: SpecContext, x: Seq<char>, ty: SpecType) -> SpecContext {
    SpecContext { bindings: ctx.bindings.push((x, ty)), mode: ctx.mode }
}

/// A typing context maps names to types: its bindings in order of
/// introduction (a later binding of a name hides earlier ones) and its mode.
#[derive(Debug)]
pub struct Context {
    pub bindings: Vec<(Symbol, Type)>,
    pub mode: TypeMode,
}

impl View for Context {
    type V = SpecContext;

    open spec fn view(&self) -> SpecContext {
        SpecContext {
            bindings: self.bindings@.map_values(|p: (Symbol, Type)| (p.0@, p.1@)),
            mode: self.mode,
        }
    }
}

impl Clone for Context {
    fn clone(&self) -> (r: Self)
        ensures
            r@ == self@,
    {
        let mut bindings: Vec<(Symbol, Type)> = Vec::new();
        let mut i: usize = 0;
        while i < self.bindings.len()
            invariant
                i <= self.bindings@.len(),
                bindings@.len() == i,
                forall|j: int| 0 <= j < i ==> (#[trigger] bindings@[j]).0@ == self.bindings@[j].0@
                    && bindings@[j].1@ == self.bindings@[j].1@,
            decreases self.bindings@.len() - i,
        {
            let (s, t) = &self.bindings[i];
            bindings.push((s.clone(), t.clone()));
            i = i + 1;
        }
        assert(bindings@.map_values(|p: (Symbol, Type)| (p.0@, p.1@)) =~= self.bindings@.map_values(
            |p: (Symbol, Type)| (p.0@, p.1@),
        ));
        Context { bindings, mode: self.mode }
    }
}

impl Default for Context {
    fn default() -> (r: Context)
        ensures
            r@.bindings.len() == 0,
            r@.mode == TypeMode::OpenWorld,
    {
        Context::new()
    }
}

impl Context {
    /// An empty open-world context.
    pub fn new() -> (r: Context)
        ensures
            r@.bindings.len() == 0,
            r@.mode == TypeMode::OpenWorld,
    {
        Context { bindings: Vec::new(), mode: TypeMode::OpenWorld }
    }

    /// An empty closed-world context.
    pub fn closed() -> (r: Context)
        ensures
            r@.bindings.len() == 0,
            r@.mode == TypeMode::ClosedWorld,
    {
        Context { bindings: Vec::new(), mode: TypeMode::ClosedWorld }
    }

    /// An empty open-world context.
    pub fn open() -> (r: Context)
        ensures
            r@.bindings.len() == 0,
            r@.mode == TypeMode::OpenWorld,
    {
        Context { bindings: Vec::new(), mode: TypeMode::OpenWorld }
    }

    /// The same context in another mode.
    pub fn with_mode(self, mode: TypeMode) -> (r: Context)
        ensures
            r@.bindings == self@.bindings,
            r@.mode == mode,
    {
        let mut c = self;
        c.mode = mode;
        c
    }

    /// A copy of the context with `name` bound to `ty`; the mode is kept.
    pub fn extend(&self, name: &Symbol, ty: Type) -> (r: Context)
        ensures
            r@ == extended(self@, name@, ty@),
            r.mode == self.mode,
    {
        let mut c = self.clone();
        c.bindings.push((name.clone(), ty));
        assert(c@.bindings =~= self@.bindings.push((name@, ty@)));
        c
    }

    /// The type bound to `name`, if any.
    pub fn lookup(&self, name: &Symbol) -> (r: Option<&Type>)
        ensures
            match r {
                Some(t) => lookup_binding(self@.bindings, name@) == Some(t@),
                None => lookup_binding(self@.bindings, name@) is None,
            },
    {
        let ghost b = self@.bindings;
        let mut i: usize = self.bindings.len();
        assert(b.take(i as int) =~= b);
        while i > 0
            invariant
                i <= self.bindings@.len(),
                b == self@.bindings,
                lookup_binding(b, name@) == lookup_binding(b.take(i as int), name@),
            decreases i,
        {
            let (s, t) = &self.bindings[i - 1];
            assert(b.take(i as int).last() == (s@, t@));
            assert(b.take(i as int).drop_last() =~= b.take(i - 1));
            if s.same(name) {
                return Some(t);
            }
            i = i - 1;
        }
        None
    }
}

/// The mathematical model of a type error.
pub enum SpecTypeError {
    UnboundVariable(Seq<char>),
    Mismatch { expected: SpecType, got: SpecType },
    InadmissibleCollapse(SpecType),
    NotAFunction(SpecType),
    UniverseLevelViolation { ty_level: u32, used_at: u32 },
    Other(Seq<char>),
}

/// Type errors are failed reachability proofs.
#[derive(Debug, PartialEq, Eq)]
pub enum TypeError {
    UnboundVariable(Symbol),
    Mismatch { expected: Type, got: Type },
    InadmissibleCollapse(Type),
    NotAFunction(Type),
    UniverseLevelViolation { ty_level: u32, used_at: u32 },
    Other(String),
}

impl View for TypeError {
    type V = SpecTypeError;

    open spec fn view(&self) -> SpecTypeError {
        match self {
            TypeError::UnboundVariable(s) => SpecTypeError::UnboundVariable(s@),
            TypeError::Mismatch { expected, got } => SpecTypeError::Mismatch {
                expected: expected@,
                got: got@,
            },
            TypeError::InadmissibleCollapse(t) => SpecTypeError::InadmissibleCollapse(t@),
            TypeError::NotAFunction(t) => SpecTypeError::NotAFunction(t@),
            TypeError::UniverseLevelViolation { ty_level, used_at } =>
                SpecTypeError::UniverseLevelViolation { ty_level: *ty_level, used_at: *used_at },
            TypeError::Other(m) => SpecTypeError::Other(m@),
        }
    }
}

/// The display text of a type error.
pub open spec fn type_error_text(e: SpecTypeError) -> Seq<char> {
    match e {
        SpecTypeError::UnboundVariable(s) => "unbound variable: "@ + s + " (closed-world mode)"@,
        SpecTypeError::Mismatch { expected, got } => "type mismatch: expected "@ + type_text(
            expected,
        ) + ", got "@ + type_text(got),
        SpecTypeError::InadmissibleCollapse(t) => "inadmissible collapse of type "@ + type_text(t)
            + " (must be Admissible(_))"@,
        SpecTypeError::NotAFunction(t) => "expected function type, got "@ + type_text(t),
        SpecTypeError::UniverseLevelViolation { ty_level, used_at } => "universe level "@ + nat_text(
            ty_level as nat,
        ) + " used at level "@ + nat_text(used_at as nat),
        SpecTypeError::Other(m) => "type error: "@ + m,
    }
}

impl TypeError {
    /// The display text of the error.
    pub fn to_text(&self) -> (r: String)
        ensures
            r@ == type_error_text(self@),
    {
        let mut out = String::new();
        match self {
            TypeError::UnboundVariable(s) => {
                out.append("unbound variable: ");
                out.append(s.0.as_str());
                out.append(" (closed-world mode)");
            },
            TypeError::Mismatch { expected, got } => {
                out.append("type mismatch: expected ");
                expected.write_text(&mut out);
                out.append(", got ");
                got.write_text(&mut out);
            },
            TypeError::InadmissibleCollapse(t) => {
                out.append("inadmissible collapse of type ");
                t.write_text(&mut out);
                out.append(" (must be Admissible(_))");
            },
            TypeError::NotAFunction(t) => {
                out.append("expected function type, got ");
                t.write_text(&mut out);
            },
            TypeError::UniverseLevelViolation { ty_level, used_at } => {
                out.append("universe level ");
                push_decimal(&mut out, *ty_level as u128);
                out.append(" used at level ");
                push_decimal(&mut out, *used_at as u128);
            },
            TypeError::Other(m) => {
                out.append("type error: ");
                out.append(m.as_str());
            },
        }
        assert(out@ =~= type_error_text(self@));
        out
    }
}

/// Type inference: the type of `t` in `ctx`, or the first error met.
pub open spec fn infer_type(ctx: SpecContext, t: SpecTerm) -> Result<SpecType, SpecTypeError>
    decreases t, 1nat,
{
    match t {
        SpecTerm::Var(x) => match lookup_binding(ctx.bindings, x) {
            Some(ty) => Ok(ty),
            None => match ctx.mode {
                TypeMode::ClosedWorld => Err(SpecTypeError::UnboundVariable(x)),
                TypeMode::OpenWorld => Ok(SpecType::Unit),
            },
        },
        SpecTerm::Universe(n) => if n < u32::MAX {
            Ok(SpecType::Universe((n + 1) as u32))
        } else {
            Err(SpecTypeError::UniverseLevelViolation { ty_level: n, used_at: n })
        },
        SpecTerm::Ann(inner, ty) => match check_type(ctx, *inner, ty) {
            Ok(()) => Ok(ty),
            Err(e) => Err(e),
        },
        SpecTerm::Lam { param, ty, body } => match infer_type(extended(ctx, param, ty), *body) {
            Ok(body_ty) => Ok(
                SpecType::Pi { param, param_ty: Box::new(ty), body_ty: Box::new(body_ty) },
            ),
            Err(e) => Err(e),
        },
        SpecTerm::App(f, x) => match infer_type(ctx, *f) {
            Ok(SpecType::Pi { param_ty, body_ty, .. }) => match check_type(ctx, *x, *param_ty) {
                Ok(()) => Ok(*body_ty),
                Err(e) => Err(e),
            },
            Ok(other) => Err(SpecTypeError::NotAFunction(other)),
            Err(e) => Err(e),
        },
        SpecTerm::Pi { .. } => Ok(SpecType::Universe(0)),
        SpecTerm::Let { name, value, body } => match infer_type(ctx, *value) {
            Ok(vt) => infer_type(extended(ctx, name, vt), *body),
            Err(e) => Err(e),
        },
        SpecTerm::Pop(i) => match infer_type(ctx, *i) {
            Ok(it) => Ok(SpecType::Admissible(Box::new(it))),
            Err(e) => Err(e),
        },
        SpecTerm::Refuse(i, reason) => match infer_type(ctx, *i) {
            Ok(it) => Ok(SpecType::Refused { inner: Box::new(it), reason }),
            Err(e) => Err(e),
        },
        SpecTerm::Collapse(i, rule) => match infer_type(ctx, *i) {
            Ok(SpecType::Admissible(inner)) => Ok(SpecType::Collapsed { inner, rule }),
            Ok(other) => Err(SpecTypeError::InadmissibleCollapse(other)),
            Err(e) => Err(e),
        },
        SpecTerm::Bind(a, b) => match infer_type(ctx, *a) {
            Ok(at) => match infer_type(ctx, *b) {
                Ok(bt) => Ok(SpecType::Process { from: Box::new(at), to: Box::new(bt) }),
                Err(e) => Err(e),
            },
            Err(e) => Err(e),
        },
        SpecTerm::Sequence(ts) => infer_sequence(ctx, ts, SpecType::Unit),
    }
}

/// Infer each term of `ts` in order; the type of the last one (or `last`
/// when `ts` is empty), or the first error.
pub open spec fn infer_sequence(ctx: SpecContext, ts: Seq<SpecTerm>, last: SpecType) -> Result<
    SpecType,
    SpecTypeError,
>
    decreases ts, 0nat,
{
    if ts.len() == 0 {
        Ok(last)
    } else {
        match infer_type(ctx, ts[0]) {
            Ok(t) => infer_sequence(ctx, ts.drop_first(), t),
            Err(e) => Err(e),
        }
    }
}

/// Checking: `t` has type `expected` in `ctx`.
pub open spec fn check_type(ctx: SpecContext, t: SpecTerm, expected: SpecType) -> Result<
    (),
    SpecTypeError,
>
    decreases t, 2nat,
{
    match infer_type(ctx, t) {
        Ok(got) => if got == expected {
            Ok(())
        } else {
            Err(SpecTypeError::Mismatch { expected, got })
        },
        Err(e) => Err(e),
    }
}

/// The model of an inference result.
pub open spec fn type_result(r: Result<Type, TypeError>) -> Result<SpecType, SpecTypeError> {
    match r {
        Ok(t) => Ok(t@),
        Err(e) => Err(e@),
    }
}

/// The model of a checking result.
pub open spec fn check_result(r: Result<(), TypeError>) -> Result<(), SpecTypeError> {
    match r {
        Ok(()) => Ok(()),
        Err(e) => Err(e@),
    }
}

/// Infer the type of a term. `Type n` has type `Type (n + 1)`; at the
/// largest level there is no successor, and inference reports a universe
/// level violation.
pub fn infer(ctx: &Context, term: &Term) -> (r: Result<Type, TypeError>)
    ensures
        type_result(r) == infer_type(ctx@, term@),
    decreases term, 1nat,
{
    match term {
        Term::Var(x) => {
            match ctx.lookup(x) {
                Some(ty) => Ok(ty.clone()),
                None => match ctx.mode {
                    TypeMode::ClosedWorld => Err(TypeError::UnboundVariable(x.clone())),
                    TypeMode::OpenWorld => Ok(Type::Unit),
                },
            }
        },
        Term::Universe(n) => if *n < u32::MAX {
            Ok(Type::Universe(*n + 1))
        } else {
            Err(TypeError::UniverseLevelViolation { ty_level: *n, used_at: *n })
        },
        Term::Ann(inner, ty) => {
            match check(ctx, inner, ty) {
                Ok(()) => Ok((**ty).clone()),
                Err(e) => Err(e),
            }
        },
        Term::Lam { param, ty, body } => {
            let body_ctx = ctx.extend(param, (**ty).clone());
            match infer(&body_ctx, body) {
                Ok(body_ty) => Ok(
                    Type::Pi {
                        param: param.clone(),
                        param_ty: Box::new((**ty).clone()),
                        body_ty: Box::new(body_ty),
                    },
                ),
                Err(e) => Err(e),
            }
        },
        Term::App(fun, arg) => {
            match infer(ctx, fun) {
                Ok(Type::Pi { param_ty, body_ty, .. }) => {
                    match check(ctx, arg, &param_ty) {
                        Ok(()) => Ok(*body_ty),
                        Err(e) => Err(e),
                    }
                },
                Ok(other) => Err(TypeError::NotAFunction(other)),
                Err(e) => Err(e),
            }
        },
        Term::Pi { .. } => Ok(Type::Universe(0)),
        Term::Let { name, value, body } => {
            match infer(ctx, value) {
                Ok(val_ty) => {
                    let body_ctx = ctx.extend(name, val_ty);
                    infer(&body_ctx, body)
                },
                Err(e) => Err(e),
            }
        },
        Term::Pop(inner) => {
            match infer(ctx, inner) {
                Ok(inner_ty) => Ok(Type::Admissible(Box::new(inner_ty))),
                Err(e) => Err(e),
            }
        },
        Term::Refuse(inner, reason) => {
            match infer(ctx, inner) {
                Ok(inner_ty) => Ok(Type::Refused { inner: Box::new(inner_ty), reason: reason.clone() }),
                Err(e) => Err(e),
            }
        },
        Term::Collapse(inner, rule) => {
            match infer(ctx, inner) {
                Ok(Type::Admissible(t)) => Ok(Type::Collapsed { inner: t, rule: rule.clone() }),
                Ok(other) => Err(TypeError::InadmissibleCollapse(other)),
                Err(e) => Err(e),
            }
        },
        Term::Bind(lhs, rhs) => {
            match infer(ctx, lhs) {
                Ok(lhs_ty) => match infer(ctx, rhs) {
                    Ok(rhs_ty) => Ok(Type::Process { from: Box::new(lhs_ty), to: Box::new(rhs_ty) }),
                    Err(e) => Err(e),
                },
                Err(e) => Err(e),
            }
        },
        Term::Sequence(terms) => {
            let ghost ts = crate::syntax::ast::terms_model(terms@);
            proof {
                crate::syntax::ast::lemma_terms_model(terms@);
                assert(ts.skip(0) =~= ts);
            }
            let mut last = Type::Unit;
            let mut i: usize = 0;
            while i < terms.len()
                invariant
                    i <= terms@.len(),
                    ts == crate::syntax::ast::terms_model(terms@),
                    ts.len() == terms@.len(),
                    forall|j: int| 0 <= j < ts.len() ==> #[trigger] ts[j] == terms@[j]@,
                    *term == Term::Sequence(*terms),
                    infer_type(ctx@, term@) == infer_sequence(ctx@, ts.skip(i as int), last@),
                decreases terms@.len() - i,
            {
                proof {
                    let v = term->Sequence_0;
                    assert(decreases_to!(*term => v));
                    assert(decreases_to!(v => v@));
                    assert(decreases_to!(v@ => v@[i as int]));
                    assert(ts.skip(i as int)[0] == ts[i as int]);
                    assert(ts.skip(i as int).drop_first() =~= ts.skip(i + 1));
                }
                match infer(ctx, &terms[i]) {
                    Ok(t) => {
                        last = t;
                    },
                    Err(e) => {
                        return Err(e);
                    },
                }
                i = i + 1;
            }
            Ok(last)
        },
    }
}

/// Check that a term has a given expected type.
pub fn check(ctx: &Context, term: &Term, expected: &Type) -> (r: Result<(), TypeError>)
    ensures
        check_result(r) == check_type(ctx@, term@, expected@),
    decreases term, 2nat,
{
    match infer(ctx, term) {
        Ok(got) => {
            if same_type(&got, expected) {
                Ok(())
            } else {
                Err(TypeError::Mismatch { expected: expected.clone(), got })
            }
        },
        Err(e) => Err(e),
    }
}

/// Admissibility judgment: the term infers to an `Admissible` or
/// `Collapsed` type.
pub fn is_admissible(ctx: &Context, term: &Term) -> (r: bool)
    ensures
        r == (infer_type(ctx@, term@) matches Ok(t) && (t is Admissible || t is Collapsed)),
{
    match infer(ctx, term) {
        Ok(Type::Admissible(_)) => true,
        Ok(Type::Collapsed { .. }) => true,
        _ => false,
    }
}

/// Infer the type of a term in an empty closed-world context.
pub fn infer_closed(term: &Term) -> (r: Result<Type, TypeError>)
    ensures
        type_result(r) == infer_type(
            SpecContext { bindings: Seq::empty(), mode: TypeMode::ClosedWorld },
            term@,
        ),
{
    let ctx = Context::closed();
    assert(ctx@.bindings =~= Seq::<(Seq<char>, SpecType)>::empty());
    infer(&ctx, term)
}

/// Infer the type of a term in an empty open-world context.
pub fn infer_open(term: &Term) -> (r: Result<Type, TypeError>)
    ensures
        type_result(r) == infer_type(
            SpecContext { bindings: Seq::empty(), mode: TypeMode::OpenWorld },
            term@,
        ),
{
    let ctx = Context::open();
    assert(ctx@.bindings =~= Seq::<(Seq<char>, SpecType)>::empty());
    infer(&ctx, term)
}

/// Collapse soundness: a collapse is well typed only when its operand has
/// an admissible type, and its type then carries the rule it was collapsed
/// with.
pub proof fn law_collapse_soundness(ctx: SpecContext, i: SpecTerm, rule: SpecRule)
    ensures
        infer_type(ctx, SpecTerm::Collapse(Box::new(i), rule)) is Ok <==> infer_type(ctx, i) matches Ok(
            SpecType::Admissible(_),
        ),
        infer_type(ctx, SpecTerm::Collapse(Box::new(i), rule)) matches Ok(t) ==> (t matches SpecType::Collapsed {
            rule: r,
            ..
        } && r == rule),
{
}

/// Closed-world typing refines open-world typing: whenever a term has a
/// type in closed-world mode, it has the same type in open-world mode,
/// under the same bindings.
pub proof fn law_closed_refines_open(b: Seq<(Seq<char>, SpecType)>, t: SpecTerm)
    ensures
        infer_type(SpecContext { bindings: b, mode: TypeMode::ClosedWorld }, t) is Ok ==> infer_type(
            SpecContext { bindings: b, mode: TypeMode::OpenWorld },
            t,
        ) == infer_type(SpecContext { bindings: b, mode: TypeMode::ClosedWorld }, t),
    decreases t, 1nat,
{
    let c = SpecContext { bindings: b, mode: TypeMode::ClosedWorld };
    match t {
        SpecTerm::Ann(inner, ty) => {
            lemma_closed_refines_open_check(b, *inner, ty);
        },
        SpecTerm::Lam { param, ty, body } => {
            law_closed_refines_open(b.push((param, ty)), *body);
        },
        SpecTerm::App(f, x) => {
            law_closed_refines_open(b, *f);
            match infer_type(c, *f) {
                Ok(SpecType::Pi { param_ty, .. }) => {
                    lemma_closed_refines_open_check(b, *x, *param_ty);
                },
                _ => {},
            }
        },
        SpecTerm::Let { name, value, body } => {
            law_closed_refines_open(b, *value);
            if infer_type(c, *value) is Ok {
                law_closed_refines_open(b.push((name, infer_type(c, *value)->Ok_0)), *body);
            }
        },
        SpecTerm::Pop(i) => {
            law_closed_refines_open(b, *i);
        },
        SpecTerm::Refuse(i, _) => {
            law_closed_refines_open(b, *i);
        },
        SpecTerm::Collapse(i, _) => {
            law_closed_refines_open(b, *i);
        },
        SpecTerm::Bind(x, y) => {
            law_closed_refines_open(b, *x);
            law_closed_refines_open(b, *y);
        },
        SpecTerm::Sequence(ts) => {
            lemma_closed_refines_open_all(b, ts, SpecType::Unit);
        },
        _ => {},
    }
}

proof fn lemma_closed_refines_open_check(b: Seq<(Seq<char>, SpecType)>, t: SpecTerm, e: SpecType)
    ensures
        check_type(SpecContext { bindings: b, mode: TypeMode::ClosedWorld }, t, e) is Ok
            ==> check_type(SpecContext { bindings: b, mode: TypeMode::OpenWorld }, t, e) is Ok,
    decreases t, 2nat,
{
    law_closed_refines_open(b, t);
}

proof fn lemma_closed_refines_open_all(b: Seq<(Seq<char>, SpecType)>, ts: Seq<SpecTerm>, last: SpecType)
    ensures
        infer_sequence(SpecContext { bindings: b, mode: TypeMode::ClosedWorld }, ts, last) is Ok
            ==> infer_sequence(SpecContext { bindings: b, mode: TypeMode::OpenWorld }, ts, last)
            == infer_sequence(SpecContext { bindings: b, mode: TypeMode::ClosedWorld }, ts, last),
    decreases ts, 0nat,
{
    if ts.len() > 0 {
        let c = SpecContext { bindings: b, mode: TypeMode::ClosedWorld };
        law_closed_refines_open(b, ts[0]);
        if infer_type(c, ts[0]) is Ok {
            lemma_closed_refines_open_all(b, ts.drop_first(), infer_type(c, ts[0])->Ok_0);
        }
    }
}

/// A variable has the type of its latest binding in the context; an
/// unbound variable has the unit type in the open world and is an error
/// naming it in the closed world.
pub proof fn law_infer_variable(ctx: SpecContext, x: Seq<char>, ty: SpecType, y: Seq<char>)
    ensures
        infer_type(extended(ctx, x, ty), SpecTerm::Var(x)) == Ok::<SpecType, SpecTypeError>(ty),
        y != x ==> infer_type(extended(ctx, x, ty), SpecTerm::Var(y)) == infer_type(ctx, SpecTerm::Var(y)),
        ctx.bindings.len() == 0 ==> infer_type(ctx, SpecTerm::Var(y)) == (match ctx.mode {
            TypeMode::OpenWorld => Ok::<SpecType, SpecTypeError>(SpecType::Unit),
            TypeMode::ClosedWorld => Err(SpecTypeError::UnboundVariable(y)),
        }),
{
    assert(extended(ctx, x, ty).bindings.drop_last() =~= ctx.bindings);
}

/// A binding is a process from the type of its left operand to the type of
/// its right operand; it is well typed exactly when both operands are, and
/// otherwise fails with the left operand's error, or else the right one's.
pub proof fn law_infer_bind(ctx: SpecContext, a: SpecTerm, b: SpecTerm)
    ensures
        (infer_type(ctx, a), infer_type(ctx, b)) matches (Ok(ta), Ok(tb)) ==> infer_type(
            ctx,
            SpecTerm::Bind(Box::new(a), Box::new(b)),
        ) == Ok::<SpecType, SpecTypeError>(SpecType::Process { from: Box::new(ta), to: Box::new(tb) }),
        infer_type(ctx, a) matches Err(e) ==> infer_type(ctx, SpecTerm::Bind(Box::new(a), Box::new(b)))
            == Err::<SpecType, SpecTypeError>(e),
        infer_type(ctx, a) is Ok ==> (infer_type(ctx, b) matches Err(e) ==> infer_type(
            ctx,
            SpecTerm::Bind(Box::new(a), Box::new(b)),
        ) == Err::<SpecType, SpecTypeError>(e)),
{
}

/// Popping yields the admissible version of the operand's type; refusing
/// yields the refused version, carrying the reason; both fail exactly when
/// the operand does, with its error.
pub proof fn law_infer_pop_refuse(ctx: SpecContext, i: SpecTerm, reason: SpecReason)
    ensures
        infer_type(ctx, i) matches Ok(t) ==> infer_type(ctx, SpecTerm::Pop(Box::new(i))) == Ok::<
            SpecType,
            SpecTypeError,
        >(SpecType::Admissible(Box::new(t))),
        infer_type(ctx, i) matches Ok(t) ==> infer_type(ctx, SpecTerm::Refuse(Box::new(i), reason))
            == Ok::<SpecType, SpecTypeError>(SpecType::Refused { inner: Box::new(t), reason }),
        infer_type(ctx, i) matches Err(e) ==> infer_type(ctx, SpecTerm::Pop(Box::new(i))) == Err::<
            SpecType,
            SpecTypeError,
        >(e) && infer_type(ctx, SpecTerm::Refuse(Box::new(i), reason)) == Err::<SpecType, SpecTypeError>(e),
{
}

/// A collapse is well typed exactly when its operand has an admissible
/// type; it then has the collapsed version of what was admitted, under the
/// collapse's rule; an operand of another type is reported as inadmissible.
pub proof fn law_infer_collapse(ctx: SpecContext, i: SpecTerm, rule: SpecRule)
    ensures
        infer_type(ctx, i) matches Ok(SpecType::Admissible(inner)) ==> infer_type(
            ctx,
            SpecTerm::Collapse(Box::new(i), rule),
        ) == Ok::<SpecType, SpecTypeError>(SpecType::Collapsed { inner, rule }),
        infer_type(ctx, i) matches Ok(t) ==> (!(t is Admissible) ==> infer_type(
            ctx,
            SpecTerm::Collapse(Box::new(i), rule),
        ) == Err::<SpecType, SpecTypeError>(SpecTypeError::InadmissibleCollapse(t))),
        infer_type(ctx, i) matches Err(e) ==> infer_type(ctx, SpecTerm::Collapse(Box::new(i), rule))
            == Err::<SpecType, SpecTypeError>(e),
{
}

/// An abstraction has a dependent function type from its annotation to the
/// type of its body, inferred with the parameter bound to the annotation;
/// applying a function checks the argument against the parameter type and
/// has the body type; applying anything else is an error naming its type.
pub proof fn law_infer_lam_app(ctx: SpecContext, x: Seq<char>, ty: SpecType, body: SpecTerm, f: SpecTerm, a: SpecTerm)
    ensures
        infer_type(extended(ctx, x, ty), body) matches Ok(bt) ==> infer_type(
            ctx,
            SpecTerm::Lam { param: x, ty, body: Box::new(body) },
        ) == Ok::<SpecType, SpecTypeError>(
            SpecType::Pi { param: x, param_ty: Box::new(ty), body_ty: Box::new(bt) },
        ),
        infer_type(ctx, f) matches Ok(SpecType::Pi { param_ty, body_ty, .. }) ==> (infer_type(ctx, a)
            == Ok::<SpecType, SpecTypeError>(*param_ty) ==> infer_type(
            ctx,
            SpecTerm::App(Box::new(f), Box::new(a)),
        ) == Ok::<SpecType, SpecTypeError>(*body_ty)),
        infer_type(ctx, f) matches Ok(t) ==> (!(t is Pi) ==> infer_type(
            ctx,
            SpecTerm::App(Box::new(f), Box::new(a)),
        ) == Err::<SpecType, SpecTypeError>(SpecTypeError::NotAFunction(t))),
{
    if let Ok(SpecType::Pi { param_ty, .. }) = infer_type(ctx, f) {
        if infer_type(ctx, a) == Ok::<SpecType, SpecTypeError>(*param_ty) {
            assert(check_type(ctx, a, *param_ty) == Ok::<(), SpecTypeError>(()));
        }
    }
}

/// A `let` types its body with the name bound to the type of the value.
pub proof fn law_infer_let(ctx: SpecContext, x: Seq<char>, v: SpecTerm, body: SpecTerm)
    ensures
        infer_type(ctx, v) matches Ok(vt) ==> infer_type(
            ctx,
            SpecTerm::Let { name: x, value: Box::new(v), body: Box::new(body) },
        ) == infer_type(extended(ctx, x, vt), body),
        infer_type(ctx, v) matches Err(e) ==> infer_type(
            ctx,
            SpecTerm::Let { name: x, value: Box::new(v), body: Box::new(body) },
        ) == Err::<SpecType, SpecTypeError>(e),
{
}

/// A sequence is well typed exactly when each of its terms is; it has the
/// type of its last term, and the empty sequence has the unit type.
pub proof fn law_infer_sequence(ctx: SpecContext, ts: Seq<SpecTerm>)
    ensures
        (infer_type(ctx, SpecTerm::Sequence(ts)) is Ok) <==> (forall|i: int|
            0 <= i < ts.len() ==> #[trigger] infer_type(ctx, ts[i]) is Ok),
        ts.len() == 0 ==> infer_type(ctx, SpecTerm::Sequence(ts)) == Ok::<SpecType, SpecTypeError>(
            SpecType::Unit,
        ),
        ts.len() > 0 && infer_type(ctx, SpecTerm::Sequence(ts)) is Ok ==> infer_type(
            ctx,
            SpecTerm::Sequence(ts),
        ) == infer_type(ctx, ts[ts.len() - 1]),
{
    lemma_infer_sequence(ctx, ts, SpecType::Unit);
}

proof fn lemma_infer_sequence(ctx: SpecContext, ts: Seq<SpecTerm>, last: SpecType)
    ensures
        (infer_sequence(ctx, ts, last) is Ok) <==> (forall|i: int|
            0 <= i < ts.len() ==> #[trigger] infer_type(ctx, ts[i]) is Ok),
        ts.len() == 0 ==> infer_sequence(ctx, ts, last) == Ok::<SpecType, SpecTypeError>(last),
        ts.len() > 0 && infer_sequence(ctx, ts, last) is Ok ==> infer_sequence(ctx, ts, last)
            == infer_type(ctx, ts[ts.len() - 1]),
    decreases ts.len(),
{
    if ts.len() > 0 {
        let rest = ts.drop_first();
        match infer_type(ctx, ts[0]) {
            Ok(t) => {
                lemma_infer_sequence(ctx, rest, t);
                assert forall|i: int| 0 <= i < rest.len() implies rest[i] == ts[i + 1] by {}
                if forall|i: int| 0 <= i < rest.len() ==> #[trigger] infer_type(ctx, rest[i]) is Ok {
                    assert forall|i: int| 0 <= i < ts.len() implies #[trigger] infer_type(ctx, ts[i]) is Ok by {
                        if i > 0 {
                            assert(ts[i] == rest[i - 1]);
                        }
                    }
                } else {
                    let j = choose|j: int| 0 <= j < rest.len() && !(#[trigger] infer_type(ctx, rest[j]) is Ok);
                    assert(ts[j + 1] == rest[j]);
                }
                if rest.len() > 0 {
                    assert(rest[rest.len() - 1] == ts[ts.len() - 1]);
                }
            },
            Err(_) => {
                assert(!(infer_type(ctx, ts[0]) is Ok));
            },
        }
    }
}

/// `Type n` has type `Type (n + 1)`, a dependent function type has type
/// `Type 0`, and an annotated term has its annotation exactly when the term
/// infers to it; otherwise the mismatch, or the term's own error, is reported.
pub proof fn law_infer_universe_pi_ann(ctx: SpecContext, n: u32, i: SpecTerm, ty: SpecType, pi: SpecTerm)
    ensures
        n < u32::MAX ==> infer_type(ctx, SpecTerm::Universe(n)) == Ok::<SpecType, SpecTypeError>(
            SpecType::Universe((n + 1) as u32),
        ),
        pi is Pi ==> infer_type(ctx, pi) == Ok::<SpecType, SpecTypeError>(SpecType::Universe(0)),
        infer_type(ctx, i) == Ok::<SpecType, SpecTypeError>(ty) ==> infer_type(
            ctx,
            SpecTerm::Ann(Box::new(i), ty),
        ) == Ok::<SpecType, SpecTypeError>(ty),
        infer_type(ctx, i) matches Ok(got) ==> (got != ty ==> infer_type(
            ctx,
            SpecTerm::Ann(Box::new(i), ty),
        ) == Err::<SpecType, SpecTypeError>(SpecTypeError::Mismatch { expected: ty, got })),
        infer_type(ctx, i) matches Err(e) ==> infer_type(ctx, SpecTerm::Ann(Box::new(i), ty)) == Err::<
            SpecType,
            SpecTypeError,
        >(e),
{
    let c = check_type(ctx, i, ty);
    assert(c == match infer_type(ctx, i) {
        Ok(got) => if got == ty {
            Ok(())
        } else {
            Err(SpecTypeError::Mismatch { expected: ty, got })
        },
        Err(e) => Err(e),
    });
}

/// Checking succeeds exactly when inference gives the expected type; a
/// different inferred type is reported as a mismatch, and an inference
/// error is reported as it is.
pub proof fn law_check_is_infer(ctx: SpecContext, t: SpecTerm, expected: SpecType)
    ensures
        (check_type(ctx, t, expected) is Ok) <==> infer_type(ctx, t) == Ok::<SpecType, SpecTypeError>(
            expected,
        ),
        infer_type(ctx, t) matches Ok(got) ==> (got != expected ==> check_type(ctx, t, expected)
            == Err::<(), SpecTypeError>(SpecTypeError::Mismatch { expected, got })),
        infer_type(ctx, t) matches Err(e) ==> check_type(ctx, t, expected) == Err::<(), SpecTypeError>(e),
{
}

} // verus!
