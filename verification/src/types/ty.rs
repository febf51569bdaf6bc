//! Types: admissibility certificates.

use vstd::prelude::*;
use crate::kernel::event::{
    reason_text, rule_text, CollapseRule, RefusalReason, SpecReason, SpecRule, Symbol,
};
use crate::kernel::observable::same_rule;
use crate::text::{nat_text, push_decimal, same_text};

verus! {

/// The mathematical model of a type.
pub enum SpecType {
    Unit,
    Never,
    Var(Seq<char>),
    Universe(u32),
    Pi { param: Seq<char>, param_ty: Box<SpecType>, body_ty: Box<SpecType> },
    Admissible(Box<SpecType>),
    Refused { inner: Box<SpecType>, reason: SpecReason },
    Collapsed { inner: Box<SpecType>, rule: SpecRule },
    Process { from: Box<SpecType>, to: Box<SpecType> },
    History(Box<SpecType>),
}

/// Types in Spherepop are admissibility certificates: a type is a proof
/// that a transformation preserves the reachability structure it claims to
/// preserve.
#[derive(Debug, PartialEq, Eq)]
pub enum Type {
    Unit,
    Never,
    Var(Symbol),
    Universe(u32),
    /// Π (param : param_ty) . body_ty — subsumes simple A → B.
    Pi { param: Symbol, param_ty: Box<Type>, body_ty: Box<Type> },
    /// Admissible(T): T was reached through admissible transitions.
    Admissible(Box<Type>),
    /// Refused(T, reason): T was encountered but found inadmissible.
    Refused { inner: Box<Type>, reason: RefusalReason },
    /// Collapsed(T, rule): T was sealed into observable state via rule.
    Collapsed { inner: Box<Type>, rule: CollapseRule },
    /// Process(from ~> to): a dependency-preserving transformation.
    Process { from: Box<Type>, to: Box<Type> },
    /// History(T): the type of an append-only history of T-events.
    History(Box<Type>),
}

/// The model of a type.
pub open spec fn type_model(t: Type) -> SpecType
    decreases t,
{
    match t {
        Type::Unit => SpecType::Unit,
        Type::Never => SpecType::Never,
        Type::Var(s) => SpecType::Var(s@),
        Type::Universe(n) => SpecType::Universe(n),
        Type::Pi { param, param_ty, body_ty } => SpecType::Pi {
            param: param@,
            param_ty: Box::new(type_model(*param_ty)),
            body_ty: Box::new(type_model(*body_ty)),
        },
        Type::Admissible(t) => SpecType::Admissible(Box::new(type_model(*t))),
        Type::Refused { inner, reason } => SpecType::Refused {
            inner: Box::new(type_model(*inner)),
            reason: reason@,
        },
        Type::Collapsed { inner, rule } => SpecType::Collapsed {
            inner: Box::new(type_model(*inner)),
            rule: rule@,
        },
        Type::Process { from, to } => SpecType::Process {
            from: Box::new(type_model(*from)),
            to: Box::new(type_model(*to)),
        },
        Type::History(t) => SpecType::History(Box::new(type_model(*t))),
    }
}

impl View for Type {
    type V = SpecType;

    open spec fn view(&self) -> SpecType {
        type_model(*self)
    }
}

impl Clone for Type {
    fn clone(&self) -> (r: Self)
        ensures
            r == *self,
        decreases self,
    {
        match self {
            Type::Unit => Type::Unit,
            Type::Never => Type::Never,
            Type::Var(s) => Type::Var(s.clone()),
            Type::Universe(n) => Type::Universe(*n),
            Type::Pi { param, param_ty, body_ty } => Type::Pi {
                param: param.clone(),
                param_ty: Box::new((**param_ty).clone()),
                body_ty: Box::new((**body_ty).clone()),
            },
            Type::Admissible(t) => Type::Admissible(Box::new((**t).clone())),
            Type::Refused { inner, reason } => Type::Refused {
                inner: Box::new((**inner).clone()),
                reason: reason.clone(),
            },
            Type::Collapsed { inner, rule } => Type::Collapsed {
                inner: Box::new((**inner).clone()),
                rule: rule.clone(),
            },
            Type::Process { from, to } => Type::Process {
                from: Box::new((**from).clone()),
                to: Box::new((**to).clone()),
            },
            Type::History(t) => Type::History(Box::new((**t).clone())),
        }
    }
}

/// Whether two refusal reasons are the same.
pub fn same_reason(a: &RefusalReason, b: &RefusalReason) -> (r: bool)
    ensures
        r == (a@ == b@),
{
    match (a, b) {
        (RefusalReason::ConstraintViolation(x), RefusalReason::ConstraintViolation(y)) => x.same(y),
        (RefusalReason::NotAvailable, RefusalReason::NotAvailable) => true,
        (RefusalReason::AlreadyRefused(x), RefusalReason::AlreadyRefused(y)) => x.same(y),
        (
            RefusalReason::TypeInadmissible { expected: e1, got: g1 },
            RefusalReason::TypeInadmissible { expected: e2, got: g2 },
        ) => e1.same(e2) && g1.same(g2),
        (RefusalReason::Explicit(x), RefusalReason::Explicit(y)) => same_text(x.as_str(), y.as_str()),
        _ => false,
    }
}

/// Whether two types are the same.
pub fn same_type(a: &Type, b: &Type) -> (r: bool)
    ensures
        r == (a@ == b@),
    decreases a,
{
    match (a, b) {
        (Type::Unit, Type::Unit) => true,
        (Type::Never, Type::Never) => true,
        (Type::Var(x), Type::Var(y)) => x.same(y),
        (Type::Universe(m), Type::Universe(n)) => *m == *n,
        (
            Type::Pi { param: p1, param_ty: a1, body_ty: b1 },
            Type::Pi { param: p2, param_ty: a2, body_ty: b2 },
        ) => p1.same(p2) && same_type(a1, a2) && same_type(b1, b2),
        (Type::Admissible(x), Type::Admissible(y)) => same_type(x, y),
        (Type::Refused { inner: x, reason: r1 }, Type::Refused { inner: y, reason: r2 }) => same_type(
            x,
            y,
        ) && same_reason(r1, r2),
        (Type::Collapsed { inner: x, rule: r1 }, Type::Collapsed { inner: y, rule: r2 }) => same_type(
            x,
            y,
        ) && same_rule(r1, r2),
        (Type::Process { from: f1, to: t1 }, Type::Process { from: f2, to: t2 }) => same_type(f1, f2)
            && same_type(t1, t2),
        (Type::History(x), Type::History(y)) => same_type(x, y),
        _ => false,
    }
}

/// The display text of a type.
pub open spec fn type_text(t: SpecType) -> Seq<char>
    decreases t,
{
    match t {
        SpecType::Unit => "Unit"@,
        SpecType::Never => "Never"@,
        SpecType::Var(s) => s,
        SpecType::Universe(n) => if n == 0 {
            "Type"@
        } else {
            "Type"@ + nat_text(n as nat)
        },
        SpecType::Pi { param, param_ty, body_ty } => if param == "_"@ {
            "("@ + type_text(*param_ty) + " → "@ + type_text(*body_ty) + ")"@
        } else {
            "(Π "@ + param + " : "@ + type_text(*param_ty) + " . "@ + type_text(*body_ty) + ")"@
        },
        SpecType::Admissible(t) => "Admissible("@ + type_text(*t) + ")"@,
        SpecType::Refused { inner, reason } => "Refused("@ + type_text(*inner) + " ∵ "@
            + reason_text(reason) + ")"@,
        SpecType::Collapsed { inner, rule } => "Collapsed("@ + type_text(*inner) + " via "@
            + rule_text(rule) + ")"@,
        SpecType::Process { from, to } => "Process("@ + type_text(*from) + " ~> "@ + type_text(*to)
            + ")"@,
        SpecType::History(t) => "History("@ + type_text(*t) + ")"@,
    }
}

impl Type {
    /// Append the display text of this type to `out`.
    pub fn write_text(&self, out: &mut String)
        ensures
            final(out)@ == old(out)@ + type_text(self@),
        decreases self,
    {
        match self {
            Type::Unit => out.append("Unit"),
            Type::Never => out.append("Never"),
            Type::Var(s) => out.append(s.0.as_str()),
            Type::Universe(n) => {
                out.append("Type");
                if *n != 0 {
                    push_decimal(out, *n as u128);
                }
            },
            Type::Pi { param, param_ty, body_ty } => {
                let anon = Symbol::new("_");
                proof {
                    reveal_strlit("_");
                }
                if param.same(&anon) {
                    out.append("(");
                    param_ty.write_text(out);
                    out.append(" → ");
                    body_ty.write_text(out);
                    out.append(")");
                } else {
                    out.append("(Π ");
                    out.append(param.0.as_str());
                    out.append(" : ");
                    param_ty.write_text(out);
                    out.append(" . ");
                    body_ty.write_text(out);
                    out.append(")");
                }
            },
            Type::Admissible(t) => {
                out.append("Admissible(");
                t.write_text(out);
                out.append(")");
            },
            Type::Refused { inner, reason } => {
                out.append("Refused(");
                inner.write_text(out);
                out.append(" ∵ ");
                reason.write_text(out);
                out.append(")");
            },
            Type::Collapsed { inner, rule } => {
                out.append("Collapsed(");
                inner.write_text(out);
                out.append(" via ");
                rule.write_text(out);
                out.append(")");
            },
            Type::Process { from, to } => {
                out.append("Process(");
                from.write_text(out);
                out.append(" ~> ");
                to.write_text(out);
                out.append(")");
            },
            Type::History(t) => {
                out.append("History(");
                t.write_text(out);
                out.append(")");
            },
        }
        assert(final(out)@ =~= old(out)@ + type_text(self@));
    }

    /// The display text of this type.
    pub fn to_text(&self) -> (r: String)
        ensures
            r@ == type_text(self@),
    {
        let mut out = String::new();
        self.write_text(&mut out);
        assert(out@ =~= type_text(self@));
        out
    }

    /// The function type `from → to`.
    pub fn arrow(from: Type, to: Type) -> (r: Type)
        ensures
            r@ == (SpecType::Pi { param: "_"@, param_ty: Box::new(from@), body_ty: Box::new(to@) }),
    {
        Type::Pi { param: Symbol::new("_"), param_ty: Box::new(from), body_ty: Box::new(to) }
    }

    /// `Admissible(self)`.
    pub fn admissible(self) -> (r: Type)
        ensures
            r@ == SpecType::Admissible(Box::new(self@)),
    {
        Type::Admissible(Box::new(self))
    }

    /// `Refused(self, reason)`.
    pub fn refused(self, reason: RefusalReason) -> (r: Type)
        ensures
            r@ == (SpecType::Refused { inner: Box::new(self@), reason: reason@ }),
    {
        Type::Refused { inner: Box::new(self), reason }
    }

    /// `Collapsed(self, rule)`.
    pub fn collapsed(self, rule: CollapseRule) -> (r: Type)
        ensures
            r@ == (SpecType::Collapsed { inner: Box::new(self@), rule: rule@ }),
    {
        Type::Collapsed { inner: Box::new(self), rule }
    }

    /// Whether this is `Admissible(_)`.
    pub fn is_admissible_type(&self) -> (r: bool)
        ensures
            r == (self@ is Admissible),
    {
        matches!(self, Type::Admissible(_))
    }

    /// Whether this is a universe.
    pub fn is_universe(&self) -> (r: bool)
        ensures
            r == (self@ is Universe),
    {
        matches!(self, Type::Universe(_))
    }

    /// The level of a universe.
    pub fn universe_level(&self) -> (r: Option<u32>)
        ensures
            r == (match self@ {
                SpecType::Universe(n) => Some(n),
                _ => None,
            }),
    {
        match self {
            Type::Universe(n) => Some(*n),
            _ => None,
        }
    }

    /// The type inside `Admissible(_)`, or the type itself otherwise.
    pub fn strip_admissible(&self) -> (r: &Type)
        ensures
            r@ == (match self@ {
                SpecType::Admissible(t) => *t,
                other => other,
            }),
    {
        match self {
            Type::Admissible(inner) => inner,
            other => other,
        }
    }

    /// The inner type and collapse rule of a `Collapsed` type.
    pub fn collapse_info(&self) -> (r: Option<(&Type, &CollapseRule)>)
        ensures
            match self@ {
                SpecType::Collapsed { inner, rule } => r matches Some((t, c)) && t@ == *inner && c@
                    == rule,
                _ => r is None,
            },
    {
        match self {
            Type::Collapsed { inner, rule } => Some((inner, rule)),
            _ => None,
        }
    }

    /// The inner type and refusal reason of a `Refused` type.
    pub fn refusal_info(&self) -> (r: Option<(&Type, &RefusalReason)>)
        ensures
            match self@ {
                SpecType::Refused { inner, reason } => r matches Some((t, c)) && t@ == *inner && c@
                    == reason,
                _ => r is None,
            },
    {
        match self {
            Type::Refused { inner, reason } => Some((inner, reason)),
            _ => None,
        }
    }
}

} // verus!
