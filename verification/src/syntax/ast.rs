//! The abstract syntax of Spherepop terms.

use vstd::prelude::*;
use crate::kernel::event::{
    reason_text, rule_text, CollapseRule, RefusalReason, SpecReason, SpecRule, Symbol,
};
use crate::types::ty::{type_text, SpecType, Type};
use crate::text::{nat_text, push_decimal};

verus! {

/// The mathematical model of a term.
pub enum SpecTerm {
    Var(Seq<char>),
    Lam { param: Seq<char>, ty: SpecType, body: Box<SpecTerm> },
    App(Box<SpecTerm>, Box<SpecTerm>),
    Let { name: Seq<char>, value: Box<SpecTerm>, body: Box<SpecTerm> },
    Universe(u32),
    Pi { param: Seq<char>, param_ty: SpecType, body_ty: SpecType },
    Ann(Box<SpecTerm>, SpecType),
    Pop(Box<SpecTerm>),
    Refuse(Box<SpecTerm>, SpecReason),
    Collapse(Box<SpecTerm>, SpecRule),
    Bind(Box<SpecTerm>, Box<SpecTerm>),
    Sequence(Seq<SpecTerm>),
}

/// The Spherepop abstract syntax. Lambda calculus lives inside Spherepop.
#[derive(Debug, PartialEq, Eq)]
pub enum Term {
    Var(Symbol),
    Lam { param: Symbol, ty: Box<Type>, body: Box<Term> },
    App(Box<Term>, Box<Term>),
    Let { name: Symbol, value: Box<Term>, body: Box<Term> },
    Universe(u32),
    Pi { param: Symbol, param_ty: Box<Type>, body_ty: Box<Type> },
    Ann(Box<Term>, Box<Type>),
    /// Pop: commit to a possibility.
    Pop(Box<Term>),
    /// Refuse: mark a branch inadmissible, with a documented reason.
    Refuse(Box<Term>, RefusalReason),
    /// Collapse: seal an admissible term via an explicit rule.
    Collapse(Box<Term>, CollapseRule),
    /// Bind: record a dependency.
    Bind(Box<Term>, Box<Term>),
    /// Sequence.
    Sequence(Vec<Term>),
}

/// The model of a term.
pub open spec fn term_model(t: Term) -> SpecTerm
    decreases t, 1nat,
{
    match t {
        Term::Var(s) => SpecTerm::Var(s@),
        Term::Lam { param, ty, body } => SpecTerm::Lam {
            param: param@,
            ty: ty@,
            body: Box::new(term_model(*body)),
        },
        Term::App(f, x) => SpecTerm::App(Box::new(term_model(*f)), Box::new(term_model(*x))),
        Term::Let { name, value, body } => SpecTerm::Let {
            name: name@,
            value: Box::new(term_model(*value)),
            body: Box::new(term_model(*body)),
        },
        Term::Universe(n) => SpecTerm::Universe(n),
        Term::Pi { param, param_ty, body_ty } => SpecTerm::Pi {
            param: param@,
            param_ty: param_ty@,
            body_ty: body_ty@,
        },
        Term::Ann(t, ty) => SpecTerm::Ann(Box::new(term_model(*t)), ty@),
        Term::Pop(t) => SpecTerm::Pop(Box::new(term_model(*t))),
        Term::Refuse(t, r) => SpecTerm::Refuse(Box::new(term_model(*t)), r@),
        Term::Collapse(t, r) => SpecTerm::Collapse(Box::new(term_model(*t)), r@),
        Term::Bind(a, b) => SpecTerm::Bind(Box::new(term_model(*a)), Box::new(term_model(*b))),
        Term::Sequence(ts) => SpecTerm::Sequence(terms_model(ts@)),
    }
}

/// The models of a sequence of terms.
pub open spec fn terms_model(ts: Seq<Term>) -> Seq<SpecTerm>
    decreases ts, 0nat,
{
    if ts.len() == 0 {
        Seq::empty()
    } else {
        terms_model(ts.drop_last()).push(term_model(ts.last()))
    }
}

/// The models of a sequence of terms have the same length, elementwise.
pub proof fn lemma_terms_model(ts: Seq<Term>)
    ensures
        terms_model(ts).len() == ts.len(),
        forall|i: int| 0 <= i < ts.len() ==> #[trigger] terms_model(ts)[i] == term_model(ts[i]),
    decreases ts.len(),
{
    if ts.len() > 0 {
        lemma_terms_model(ts.drop_last());
    }
}

impl View for Term {
    type V = SpecTerm;

    open spec fn view(&self) -> SpecTerm {
        term_model(*self)
    }
}

impl Clone for Term {
    fn clone(&self) -> (r: Self)
        ensures
            r@ == self@,
        decreases self,
    {
        match self {
            Term::Var(s) => Term::Var(s.clone()),
            Term::Lam { param, ty, body } => Term::Lam {
                param: param.clone(),
                ty: Box::new((**ty).clone()),
                body: Box::new((**body).clone()),
            },
            Term::App(f, x) => Term::App(Box::new((**f).clone()), Box::new((**x).clone())),
            Term::Let { name, value, body } => Term::Let {
                name: name.clone(),
                value: Box::new((**value).clone()),
                body: Box::new((**body).clone()),
            },
            Term::Universe(n) => Term::Universe(*n),
            Term::Pi { param, param_ty, body_ty } => Term::Pi {
                param: param.clone(),
                param_ty: Box::new((**param_ty).clone()),
                body_ty: Box::new((**body_ty).clone()),
            },
            Term::Ann(t, ty) => Term::Ann(Box::new((**t).clone()), Box::new((**ty).clone())),
            Term::Pop(t) => Term::Pop(Box::new((**t).clone())),
            Term::Refuse(t, r) => Term::Refuse(Box::new((**t).clone()), r.clone()),
            Term::Collapse(t, r) => Term::Collapse(Box::new((**t).clone()), r.clone()),
            Term::Bind(a, b) => Term::Bind(Box::new((**a).clone()), Box::new((**b).clone())),
            Term::Sequence(ts) => {
                let mut out: Vec<Term> = Vec::new();
                let mut i: usize = 0;
                while i < ts.len()
                    invariant
                        i <= ts@.len(),
                        out@.len() == i,
                        forall|j: int| 0 <= j < i ==> #[trigger] term_model(out@[j]) == term_model(ts@[j]),
                        *self == Term::Sequence(*ts),
                    decreases ts@.len() - i,
                {
                    proof {
                        let v = self->Sequence_0;
                        assert(v == *ts);
                        assert(decreases_to!(*self => v));
                        assert(decreases_to!(v => v@));
                        assert(decreases_to!(v@ => v@[i as int]));
                        assert(decreases_to!(*self => v@[i as int]));
                    }
                    out.push(ts[i].clone());
                    i = i + 1;
                }
                proof {
                    lemma_terms_model(out@);
                    lemma_terms_model(ts@);
                    assert(terms_model(out@) =~= terms_model(ts@));
                }
                Term::Sequence(out)
            },
        }
    }
}

impl Term {
    /// A variable.
    pub fn var(s: &str) -> (r: Term)
        ensures
            r@ == SpecTerm::Var(s@),
    {
        Term::Var(Symbol::new(s))
    }

    /// An abstraction over `param` of type `ty`.
    pub fn lam(param: &str, ty: Type, body: Term) -> (r: Term)
        ensures
            r@ == (SpecTerm::Lam { param: param@, ty: ty@, body: Box::new(body@) }),
    {
        Term::Lam { param: Symbol::new(param), ty: Box::new(ty), body: Box::new(body) }
    }

    /// An application.
    pub fn app(f: Term, x: Term) -> (r: Term)
        ensures
            r@ == SpecTerm::App(Box::new(f@), Box::new(x@)),
    {
        Term::App(Box::new(f), Box::new(x))
    }

    /// `let name = value in body`.
    pub fn let_in(name: &str, value: Term, body: Term) -> (r: Term)
        ensures
            r@ == (SpecTerm::Let { name: name@, value: Box::new(value@), body: Box::new(body@) }),
    {
        Term::Let { name: Symbol::new(name), value: Box::new(value), body: Box::new(body) }
    }

    /// `pop inner`.
    pub fn pop(inner: Term) -> (r: Term)
        ensures
            r@ == SpecTerm::Pop(Box::new(inner@)),
    {
        Term::Pop(Box::new(inner))
    }

    /// `refuse inner` with an explicit reason.
    pub fn refuse(inner: Term, reason: RefusalReason) -> (r: Term)
        ensures
            r@ == SpecTerm::Refuse(Box::new(inner@), reason@),
    {
        Term::Refuse(Box::new(inner), reason)
    }

    /// `refuse inner` because the named constraint was violated.
    pub fn refuse_constraint(inner: Term, constraint: &str) -> (r: Term)
        ensures
            r@ == SpecTerm::Refuse(Box::new(inner@), SpecReason::ConstraintViolation(constraint@)),
    {
        Term::Refuse(Box::new(inner), RefusalReason::ConstraintViolation(Symbol::new(constraint)))
    }

    /// `refuse inner` with an explicit message.
    pub fn refuse_explicit(inner: Term, msg: &str) -> (r: Term)
        ensures
            r@ == SpecTerm::Refuse(Box::new(inner@), SpecReason::Explicit(msg@)),
    {
        Term::Refuse(Box::new(inner), RefusalReason::Explicit(String::from_str(msg)))
    }

    /// `collapse inner` under `rule`.
    pub fn collapse(inner: Term, rule: CollapseRule) -> (r: Term)
        ensures
            r@ == SpecTerm::Collapse(Box::new(inner@), rule@),
    {
        Term::Collapse(Box::new(inner), rule)
    }

    /// `collapse inner` under the identity rule.
    pub fn collapse_id(inner: Term) -> (r: Term)
        ensures
            r@ == SpecTerm::Collapse(Box::new(inner@), SpecRule::Identity),
    {
        Term::Collapse(Box::new(inner), CollapseRule::Identity)
    }

    /// `bind a b`.
    pub fn bind(a: Term, b: Term) -> (r: Term)
        ensures
            r@ == SpecTerm::Bind(Box::new(a@), Box::new(b@)),
    {
        Term::Bind(Box::new(a), Box::new(b))
    }

    /// A sequence of terms.
    pub fn seq(terms: Vec<Term>) -> (r: Term)
        ensures
            r@ == SpecTerm::Sequence(terms_model(terms@)),
    {
        Term::Sequence(terms)
    }

    /// A type annotation.
    pub fn ann(term: Term, ty: Type) -> (r: Term)
        ensures
            r@ == SpecTerm::Ann(Box::new(term@), ty@),
    {
        Term::Ann(Box::new(term), Box::new(ty))
    }
}

/// The display text of a term.
pub open spec fn term_text(t: SpecTerm) -> Seq<char>
    decreases t, 1nat,
{
    match t {
        SpecTerm::Var(s) => s,
        SpecTerm::Lam { param, ty, body } => "(λ"@ + param + " : "@ + type_text(ty) + " . "@
            + term_text(*body) + ")"@,
        SpecTerm::App(f, x) => "("@ + term_text(*f) + " "@ + term_text(*x) + ")"@,
        SpecTerm::Let { name, value, body } => "(let "@ + name + " = "@ + term_text(*value)
            + " in "@ + term_text(*body) + ")"@,
        SpecTerm::Universe(n) => if n == 0 {
            "Type"@
        } else {
            "Type"@ + nat_text(n as nat)
        },
        SpecTerm::Pi { param, param_ty, body_ty } => "(Π"@ + param + " : "@ + type_text(param_ty)
            + " . "@ + type_text(body_ty) + ")"@,
        SpecTerm::Ann(i, ty) => "("@ + term_text(*i) + " : "@ + type_text(ty) + ")"@,
        SpecTerm::Pop(i) => "pop("@ + term_text(*i) + ")"@,
        SpecTerm::Refuse(i, r) => "refuse("@ + term_text(*i) + " ∵ "@ + reason_text(r) + ")"@,
        SpecTerm::Collapse(i, r) => "collapse("@ + term_text(*i) + " via "@ + rule_text(r) + ")"@,
        SpecTerm::Bind(a, b) => "bind("@ + term_text(*a) + ", "@ + term_text(*b) + ")"@,
        SpecTerm::Sequence(ts) => "seq["@ + terms_text(ts) + "]"@,
    }
}

/// The display texts of `ts`, separated by `"; "`.
pub open spec fn terms_text(ts: Seq<SpecTerm>) -> Seq<char>
    decreases ts, 0nat,
{
    if ts.len() == 0 {
        Seq::empty()
    } else if ts.len() == 1 {
        term_text(ts[0])
    } else {
        terms_text(ts.drop_last()) + "; "@ + term_text(ts[ts.len() - 1])
    }
}

impl Term {
    /// Append the display text of this term to `out`.
    pub fn write_text(&self, out: &mut String)
        ensures
            final(out)@ == old(out)@ + term_text(self@),
        decreases self,
    {
        let ghost o = out@;
        match self {
            Term::Var(s) => out.append(s.0.as_str()),
            Term::Lam { param, ty, body } => {
                out.append("(λ");
                out.append(param.0.as_str());
                out.append(" : ");
                ty.write_text(out);
                out.append(" . ");
                body.write_text(out);
                out.append(")");
            },
            Term::App(f, x) => {
                out.append("(");
                f.write_text(out);
                out.append(" ");
                x.write_text(out);
                out.append(")");
            },
            Term::Let { name, value, body } => {
                out.append("(let ");
                out.append(name.0.as_str());
                out.append(" = ");
                value.write_text(out);
                out.append(" in ");
                body.write_text(out);
                out.append(")");
            },
            Term::Universe(n) => {
                out.append("Type");
                if *n != 0 {
                    push_decimal(out, *n as u128);
                }
            },
            Term::Pi { param, param_ty, body_ty } => {
                out.append("(Π");
                out.append(param.0.as_str());
                out.append(" : ");
                param_ty.write_text(out);
                out.append(" . ");
                body_ty.write_text(out);
                out.append(")");
            },
            Term::Ann(i, ty) => {
                out.append("(");
                i.write_text(out);
                out.append(" : ");
                ty.write_text(out);
                out.append(")");
            },
            Term::Pop(i) => {
                out.append("pop(");
                i.write_text(out);
                out.append(")");
            },
            Term::Refuse(i, r) => {
                out.append("refuse(");
                i.write_text(out);
                out.append(" ∵ ");
                r.write_text(out);
                out.append(")");
            },
            Term::Collapse(i, r) => {
                out.append("collapse(");
                i.write_text(out);
                out.append(" via ");
                r.write_text(out);
                out.append(")");
            },
            Term::Bind(a, b) => {
                out.append("bind(");
                a.write_text(out);
                out.append(", ");
                b.write_text(out);
                out.append(")");
            },
            Term::Sequence(terms) => {
                let ghost ts = terms_model(terms@);
                proof {
                    lemma_terms_model(terms@);
                    assert(ts.take(0) =~= Seq::<SpecTerm>::empty());
                }
                out.append("seq[");
                let mut i: usize = 0;
                while i < terms.len()
                    invariant
                        i <= terms@.len(),
                        ts == terms_model(terms@),
                        ts.len() == terms@.len(),
                        forall|j: int| 0 <= j < ts.len() ==> #[trigger] ts[j] == terms@[j]@,
                        *self == Term::Sequence(*terms),
                        out@ == o + "seq["@ + terms_text(ts.take(i as int)),
                    decreases terms@.len() - i,
                {
                    proof {
                        let v = self->Sequence_0;
                        assert(decreases_to!(*self => v));
                        assert(decreases_to!(v => v@));
                        assert(decreases_to!(v@ => v@[i as int]));
                        assert(ts.take(i + 1).drop_last() =~= ts.take(i as int));
                        assert(ts.take(i + 1)[i as int] == ts[i as int]);
                    }
                    if i > 0 {
                        out.append("; ");
                    }
                    terms[i].write_text(out);
                    i = i + 1;
                }
                out.append("]");
                proof {
                    assert(ts.take(i as int) =~= ts);
                }
            },
        }
        assert(out@ =~= o + term_text(self@));
    }

    /// The display text of this term.
    pub fn to_text(&self) -> (r: String)
        ensures
            r@ == term_text(self@),
    {
        let mut out = String::new();
        self.write_text(&mut out);
        assert(out@ =~= term_text(self@));
        out
    }
}

} // verus!
