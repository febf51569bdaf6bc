//! Symbols, refusal reasons, collapse rules and events: the primitive
//! vocabulary of a Spherepop history.

use vstd::prelude::*;

verus! {

/// A symbol is the fundamental name-bearing unit.
#[derive(Debug, PartialEq, Eq, PartialOrd, Ord, Hash)]
pub struct Symbol(pub String);

impl View for Symbol {
    type V = Seq<char>;

    open spec fn view(&self) -> Seq<char> {
        self.0@
    }
}

impl Clone for Symbol {
    fn clone(&self) -> (r: Self)
        ensures
            r == *self,
    {
        Symbol(self.0.clone())
    }
}

impl Symbol {
    /// Build a symbol from a string slice.
    pub fn new(s: &str) -> (r: Symbol)
        ensures
            r@ == s@,
    {
        Symbol(String::from_str(s))
    }

    /// Build a symbol that owns the given string.
    pub fn from_string(s: String) -> (r: Symbol)
        ensures
            r@ == s@,
    {
        Symbol(s)
    }

    /// Whether two symbols name the same thing.
    pub fn same(&self, other: &Symbol) -> (r: bool)
        ensures
            r == (self@ == other@),
    {
        self.0 == other.0
    }

    /// The display text of the symbol: its name.
    pub fn to_text(&self) -> (r: String)
        ensures
            r@ == self@,
    {
        self.0.clone()
    }
}

/// The mathematical model of a refusal reason.
pub enum SpecReason {
    ConstraintViolation(Seq<char>),
    NotAvailable,
    AlreadyRefused(Seq<char>),
    TypeInadmissible { expected: Seq<char>, got: Seq<char> },
    Explicit(Seq<char>),
}

/// Why a branch was refused.
#[derive(Debug, PartialEq, Eq)]
pub enum RefusalReason {
    /// A named constraint was violated (the simplest case).
    ConstraintViolation(Symbol),
    /// The option was not in the current option space.
    NotAvailable,
    /// The term was already refused once; further use is blocked.
    AlreadyRefused(Symbol),
    /// A type-level admissibility check failed.
    TypeInadmissible { expected: Symbol, got: Symbol },
    /// Explicit user-provided reason.
    Explicit(String),
}

impl View for RefusalReason {
    type V = SpecReason;

    open spec fn view(&self) -> SpecReason {
        match self {
            RefusalReason::ConstraintViolation(s) => SpecReason::ConstraintViolation(s@),
            RefusalReason::NotAvailable => SpecReason::NotAvailable,
            RefusalReason::AlreadyRefused(s) => SpecReason::AlreadyRefused(s@),
            RefusalReason::TypeInadmissible { expected, got } => SpecReason::TypeInadmissible {
                expected: expected@,
                got: got@,
            },
            RefusalReason::Explicit(m) => SpecReason::Explicit(m@),
        }
    }
}

impl Clone for RefusalReason {
    fn clone(&self) -> (r: Self)
        ensures
            r == *self,
    {
        match self {
            RefusalReason::ConstraintViolation(s) => RefusalReason::ConstraintViolation(s.clone()),
            RefusalReason::NotAvailable => RefusalReason::NotAvailable,
            RefusalReason::AlreadyRefused(s) => RefusalReason::AlreadyRefused(s.clone()),
            RefusalReason::TypeInadmissible { expected, got } => RefusalReason::TypeInadmissible {
                expected: expected.clone(),
                got: got.clone(),
            },
            RefusalReason::Explicit(m) => RefusalReason::Explicit(m.clone()),
        }
    }
}

/// The display text of a refusal reason.
pub open spec fn reason_text(r: SpecReason) -> Seq<char> {
    match r {
        SpecReason::ConstraintViolation(s) => "constraint:"@ + s,
        SpecReason::NotAvailable => "not-available"@,
        SpecReason::AlreadyRefused(s) => "already-refused:"@ + s,
        SpecReason::TypeInadmissible { expected, got } => "type-inadmissible(expected:"@ + expected
            + ", got:"@ + got + ")"@,
        SpecReason::Explicit(m) => "explicit:"@ + m,
    }
}

impl RefusalReason {
    /// Append the display text of this reason to `out`.
    pub fn write_text(&self, out: &mut String)
        ensures
            final(out)@ == old(out)@ + reason_text(self@),
    {
        match self {
            RefusalReason::ConstraintViolation(s) => {
                out.append("constraint:");
                out.append(s.0.as_str());
            },
            RefusalReason::NotAvailable => {
                out.append("not-available");
            },
            RefusalReason::AlreadyRefused(s) => {
                out.append("already-refused:");
                out.append(s.0.as_str());
            },
            RefusalReason::TypeInadmissible { expected, got } => {
                out.append("type-inadmissible(expected:");
                out.append(expected.0.as_str());
                out.append(", got:");
                out.append(got.0.as_str());
                out.append(")");
            },
            RefusalReason::Explicit(m) => {
                out.append("explicit:");
                out.append(m.as_str());
            },
        }
        assert(final(out)@ =~= old(out)@ + reason_text(self@));
    }

    /// The display text of this reason.
    pub fn to_text(&self) -> (r: String)
        ensures
            r@ == reason_text(self@),
    {
        let mut out = String::new();
        self.write_text(&mut out);
        assert(out@ =~= reason_text(self@));
        out
    }
}

/// The mathematical model of a collapse rule.
pub enum SpecRule {
    Identity,
    LastWrite,
    Accumulate,
    Projection(Seq<char>),
    Named(Seq<char>),
}

/// A collapse rule determines HOW observable state is derived from history.
#[derive(Debug, PartialEq, Eq)]
pub enum CollapseRule {
    /// Identity: the observable state is the full history.
    Identity,
    /// Last-write-wins: only the most recent pop for each symbol matters.
    LastWrite,
    /// Accumulate: observable state counts how many times each symbol was popped.
    Accumulate,
    /// Projection onto a named stratum: only symbols with this prefix matter.
    Projection(Symbol),
    /// User-defined rule, identified by name.
    Named(Symbol),
}

impl View for CollapseRule {
    type V = SpecRule;

    open spec fn view(&self) -> SpecRule {
        match self {
            CollapseRule::Identity => SpecRule::Identity,
            CollapseRule::LastWrite => SpecRule::LastWrite,
            CollapseRule::Accumulate => SpecRule::Accumulate,
            CollapseRule::Projection(s) => SpecRule::Projection(s@),
            CollapseRule::Named(s) => SpecRule::Named(s@),
        }
    }
}

impl Clone for CollapseRule {
    fn clone(&self) -> (r: Self)
        ensures
            r == *self,
    {
        match self {
            CollapseRule::Identity => CollapseRule::Identity,
            CollapseRule::LastWrite => CollapseRule::LastWrite,
            CollapseRule::Accumulate => CollapseRule::Accumulate,
            CollapseRule::Projection(s) => CollapseRule::Projection(s.clone()),
            CollapseRule::Named(s) => CollapseRule::Named(s.clone()),
        }
    }
}

/// The display text of a collapse rule.
pub open spec fn rule_text(r: SpecRule) -> Seq<char> {
    match r {
        SpecRule::Identity => "id"@,
        SpecRule::LastWrite => "last-write"@,
        SpecRule::Accumulate => "accumulate"@,
        SpecRule::Projection(s) => "proj:"@ + s,
        SpecRule::Named(s) => "rule:"@ + s,
    }
}

impl CollapseRule {
    /// Append the display text of this rule to `out`.
    pub fn write_text(&self, out: &mut String)
        ensures
            final(out)@ == old(out)@ + rule_text(self@),
    {
        match self {
            CollapseRule::Identity => out.append("id"),
            CollapseRule::LastWrite => out.append("last-write"),
            CollapseRule::Accumulate => out.append("accumulate"),
            CollapseRule::Projection(s) => {
                out.append("proj:");
                out.append(s.0.as_str());
            },
            CollapseRule::Named(s) => {
                out.append("rule:");
                out.append(s.0.as_str());
            },
        }
        assert(final(out)@ =~= old(out)@ + rule_text(self@));
    }

    /// The display text of this rule.
    pub fn to_text(&self) -> (r: String)
        ensures
            r@ == rule_text(self@),
    {
        let mut out = String::new();
        self.write_text(&mut out);
        assert(out@ =~= rule_text(self@));
        out
    }
}

/// The mathematical model of an event.
pub enum SpecEvent {
    Pop(Seq<char>),
    Refuse { target: Seq<char>, reason: SpecReason },
    Bind { name: Seq<char>, target: Seq<char> },
    Collapse { target: Seq<char>, rule: SpecRule },
    LamIntro { param: Seq<char> },
    Apply { fun: Seq<char>, arg: Seq<char> },
    ScopeOpen(Seq<char>),
    ScopeClose(Seq<char>),
}

/// The primitive objects of the Spherepop runtime are events.
#[derive(Debug, PartialEq, Eq)]
pub enum Event {
    /// Pop: commit to a choice, removing it from the option space.
    Pop(Symbol),
    /// Refuse: record an inadmissible branch, with a documented reason.
    Refuse { target: Symbol, reason: RefusalReason },
    /// Bind: record a dependency between two symbols.
    Bind { name: Symbol, target: Symbol },
    /// Collapse: commit a branch into observable state via an explicit rule.
    Collapse { target: Symbol, rule: CollapseRule },
    /// Lambda creation: record introduction of an abstraction.
    LamIntro { param: Symbol },
    /// Application: record elimination of an abstraction.
    Apply { fun: Symbol, arg: Symbol },
    /// Scope: mark the start of a lexical region.
    ScopeOpen(Symbol),
    /// Scope: mark the end of a lexical region.
    ScopeClose(Symbol),
}

impl View for Event {
    type V = SpecEvent;

    open spec fn view(&self) -> SpecEvent {
        match self {
            Event::Pop(s) => SpecEvent::Pop(s@),
            Event::Refuse { target, reason } => SpecEvent::Refuse {
                target: target@,
                reason: reason@,
            },
            Event::Bind { name, target } => SpecEvent::Bind { name: name@, target: target@ },
            Event::Collapse { target, rule } => SpecEvent::Collapse {
                target: target@,
                rule: rule@,
            },
            Event::LamIntro { param } => SpecEvent::LamIntro { param: param@ },
            Event::Apply { fun, arg } => SpecEvent::Apply { fun: fun@, arg: arg@ },
            Event::ScopeOpen(s) => SpecEvent::ScopeOpen(s@),
            Event::ScopeClose(s) => SpecEvent::ScopeClose(s@),
        }
    }
}

impl Clone for Event {
    fn clone(&self) -> (r: Self)
        ensures
            r == *self,
    {
        match self {
            Event::Pop(s) => Event::Pop(s.clone()),
            Event::Refuse { target, reason } => Event::Refuse {
                target: target.clone(),
                reason: reason.clone(),
            },
            Event::Bind { name, target } => Event::Bind { name: name.clone(), target: target.clone() },
            Event::Collapse { target, rule } => Event::Collapse {
                target: target.clone(),
                rule: rule.clone(),
            },
            Event::LamIntro { param } => Event::LamIntro { param: param.clone() },
            Event::Apply { fun, arg } => Event::Apply { fun: fun.clone(), arg: arg.clone() },
            Event::ScopeOpen(s) => Event::ScopeOpen(s.clone()),
            Event::ScopeClose(s) => Event::ScopeClose(s.clone()),
        }
    }
}

/// The display text of an event.
pub open spec fn event_text(e: SpecEvent) -> Seq<char> {
    match e {
        SpecEvent::Pop(s) => "pop("@ + s + ")"@,
        SpecEvent::Refuse { target, reason } => "refuse("@ + target + " ∵ "@ + reason_text(reason)
            + ")"@,
        SpecEvent::Bind { name, target } => "bind("@ + name + " → "@ + target + ")"@,
        SpecEvent::Collapse { target, rule } => "collapse("@ + target + " via "@ + rule_text(rule)
            + ")"@,
        SpecEvent::LamIntro { param } => "λ("@ + param + ")"@,
        SpecEvent::Apply { fun, arg } => "apply("@ + fun + ", "@ + arg + ")"@,
        SpecEvent::ScopeOpen(s) => "scope_open("@ + s + ")"@,
        SpecEvent::ScopeClose(s) => "scope_close("@ + s + ")"@,
    }
}

impl Event {
    /// Append the display text of this event to `out`.
    pub fn write_text(&self, out: &mut String)
        ensures
            final(out)@ == old(out)@ + event_text(self@),
    {
        match self {
            Event::Pop(s) => {
                out.append("pop(");
                out.append(s.0.as_str());
                out.append(")");
            },
            Event::Refuse { target, reason } => {
                out.append("refuse(");
                out.append(target.0.as_str());
                out.append(" ∵ ");
                reason.write_text(out);
                out.append(")");
            },
            Event::Bind { name, target } => {
                out.append("bind(");
                out.append(name.0.as_str());
                out.append(" → ");
                out.append(target.0.as_str());
                out.append(")");
            },
            Event::Collapse { target, rule } => {
                out.append("collapse(");
                out.append(target.0.as_str());
                out.append(" via ");
                rule.write_text(out);
                out.append(")");
            },
            Event::LamIntro { param } => {
                out.append("λ(");
                out.append(param.0.as_str());
                out.append(")");
            },
            Event::Apply { fun, arg } => {
                out.append("apply(");
                out.append(fun.0.as_str());
                out.append(", ");
                out.append(arg.0.as_str());
                out.append(")");
            },
            Event::ScopeOpen(s) => {
                out.append("scope_open(");
                out.append(s.0.as_str());
                out.append(")");
            },
            Event::ScopeClose(s) => {
                out.append("scope_close(");
                out.append(s.0.as_str());
                out.append(")");
            },
        }
        assert(final(out)@ =~= old(out)@ + event_text(self@));
    }

    /// The display text of this event.
    pub fn to_text(&self) -> (r: String)
        ensures
            r@ == event_text(self@),
    {
        let mut out = String::new();
        self.write_text(&mut out);
        assert(out@ =~= event_text(self@));
        out
    }
}

} // verus!
