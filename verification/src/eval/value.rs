//! Runtime values and environments.

use vstd::prelude::*;
use crate::kernel::event::{
    reason_text, rule_text, CollapseRule, RefusalReason, SpecReason, SpecRule, Symbol,
};
use crate::syntax::ast::{SpecTerm, Term};
use crate::types::ty::{type_text, SpecType, Type};

verus! {

/// The mathematical model of a value.
pub enum SpecValue {
    Unit,
    Symbol(Seq<char>),
    Closure { param: Seq<char>, param_ty: SpecType, body: SpecTerm, env: Seq<(Seq<char>, SpecValue)> },
    Admissible(Box<SpecValue>),
    Refused(Box<SpecValue>, SpecReason),
    Collapsed(Box<SpecValue>, SpecRule),
    Process { from: Box<SpecValue>, to: Box<SpecValue> },
    TypeValue(SpecType),
}

/// Runtime values.
#[derive(Debug)]
pub enum Value {
    Unit,
    Symbol(Symbol),
    Closure { param: Symbol, param_ty: Type, body: Box<Term>, env: Env },
    /// Admissible carries no extra payload (presence is the certificate).
    Admissible(Box<Value>),
    /// Refused carries the documented reason.
    Refused(Box<Value>, RefusalReason),
    /// Collapsed carries the collapse rule used to derive it.
    Collapsed(Box<Value>, CollapseRule),
    Process { from: Box<Value>, to: Box<Value> },
    TypeValue(Type),
}

/// An environment: bindings in order of introduction; a later binding of a
/// name hides earlier ones.
#[derive(Debug)]
pub struct Env {
    bindings: Vec<(Symbol, Value)>,
}

/// The stored bindings of an environment.
pub closed spec fn env_bindings(e: Env) -> Seq<(Symbol, Value)> {
    e.bindings@
}

/// The model of a value.
pub open spec fn value_model(v: Value) -> SpecValue
    decreases v, 1nat,
{
    match v {
        Value::Unit => SpecValue::Unit,
        Value::Symbol(s) => SpecValue::Symbol(s@),
        Value::Closure { param, param_ty, body, env } => SpecValue::Closure {
            param: param@,
            param_ty: param_ty@,
            body: body@,
            env: bindings_model(env_bindings(env)),
        },
        Value::Admissible(v) => SpecValue::Admissible(Box::new(value_model(*v))),
        Value::Refused(v, r) => SpecValue::Refused(Box::new(value_model(*v)), r@),
        Value::Collapsed(v, r) => SpecValue::Collapsed(Box::new(value_model(*v)), r@),
        Value::Process { from, to } => SpecValue::Process {
            from: Box::new(value_model(*from)),
            to: Box::new(value_model(*to)),
        },
        Value::TypeValue(t) => SpecValue::TypeValue(t@),
    }
}

/// The model of a sequence of bindings.
pub open spec fn bindings_model(b: Seq<(Symbol, Value)>) -> Seq<(Seq<char>, SpecValue)>
    decreases b, 0nat,
{
    if b.len() == 0 {
        Seq::empty()
    } else {
        bindings_model(b.drop_last()).push((b.last().0@, value_model(b.last().1)))
    }
}

/// The models of bindings, elementwise.
pub proof fn lemma_bindings_model(b: Seq<(Symbol, Value)>)
    ensures
        bindings_model(b).len() == b.len(),
        forall|i: int| 0 <= i < b.len() ==> #[trigger] bindings_model(b)[i] == (b[i].0@, value_model(b[i].1)),
    decreases b.len(),
{
    if b.len() > 0 {
        lemma_bindings_model(b.drop_last());
    }
}

impl View for Value {
    type V = SpecValue;

    open spec fn view(&self) -> SpecValue {
        value_model(*self)
    }
}

impl View for Env {
    type V = Seq<(Seq<char>, SpecValue)>;

    open spec fn view(&self) -> Seq<(Seq<char>, SpecValue)> {
        bindings_model(env_bindings(*self))
    }
}

impl Clone for Value {
    fn clone(&self) -> (r: Self)
        ensures
            r@ == self@,
        decreases self,
    {
        match self {
            Value::Unit => Value::Unit,
            Value::Symbol(s) => Value::Symbol(s.clone()),
            Value::Closure { param, param_ty, body, env } => {
                let mut out: Vec<(Symbol, Value)> = Vec::new();
                let mut i: usize = 0;
                while i < env.bindings.len()
                    invariant
                        i <= env.bindings@.len(),
                        out@.len() == i,
                        forall|j: int| 0 <= j < i ==> (#[trigger] out@[j]).0@ == env.bindings@[j].0@
                            && value_model(out@[j].1) == value_model(env.bindings@[j].1),
                        *self == (Value::Closure {
                            param: *param,
                            param_ty: *param_ty,
                            body: *body,
                            env: *env,
                        }),
                    decreases env.bindings@.len() - i,
                {
                    proof {
                        let e = self->env;
                        assert(e == *env);
                        assert(decreases_to!(*self => e));
                        assert(decreases_to!(e => e.bindings));
                        assert(decreases_to!(e.bindings => e.bindings@));
                        assert(decreases_to!(e.bindings@ => e.bindings@[i as int]));
                        assert(decreases_to!(e.bindings@[i as int] => e.bindings@[i as int].1));
                    }
                    let (s, v) = &env.bindings[i];
                    out.push((s.clone(), v.clone()));
                    i = i + 1;
                }
                proof {
                    lemma_bindings_model(out@);
                    lemma_bindings_model(env.bindings@);
                    assert(bindings_model(out@) =~= bindings_model(env.bindings@));
                }
                Value::Closure {
                    param: param.clone(),
                    param_ty: param_ty.clone(),
                    body: Box::new((**body).clone()),
                    env: Env { bindings: out },
                }
            },
            Value::Admissible(v) => Value::Admissible(Box::new((**v).clone())),
            Value::Refused(v, r) => Value::Refused(Box::new((**v).clone()), r.clone()),
            Value::Collapsed(v, r) => Value::Collapsed(Box::new((**v).clone()), r.clone()),
            Value::Process { from, to } => Value::Process {
                from: Box::new((**from).clone()),
                to: Box::new((**to).clone()),
            },
            Value::TypeValue(t) => Value::TypeValue(t.clone()),
        }
    }
}

impl Clone for Env {
    fn clone(&self) -> (r: Self)
        ensures
            r@ == self@,
    {
        let mut out: Vec<(Symbol, Value)> = Vec::new();
        let mut i: usize = 0;
        while i < self.bindings.len()
            invariant
                i <= self.bindings@.len(),
                out@.len() == i,
                forall|j: int| 0 <= j < i ==> (#[trigger] out@[j]).0@ == self.bindings@[j].0@
                    && value_model(out@[j].1) == value_model(self.bindings@[j].1),
            decreases self.bindings@.len() - i,
        {
            let (s, v) = &self.bindings[i];
            out.push((s.clone(), v.clone()));
            i = i + 1;
        }
        proof {
            lemma_bindings_model(out@);
            lemma_bindings_model(self.bindings@);
            assert(bindings_model(out@) =~= bindings_model(self.bindings@));
        }
        Env { bindings: out }
    }
}

/// The value bound to `x` by the latest binding of `x`, if any.
pub open spec fn env_lookup(env: Seq<(Seq<char>, SpecValue)>, x: Seq<char>) -> Option<SpecValue>
    decreases env.len(),
{
    if env.len() == 0 {
        None
    } else if env.last().0 == x {
        Some(env.last().1)
    } else {
        env_lookup(env.drop_last(), x)
    }
}

impl Env {
    /// The empty environment.
    pub fn new() -> (r: Env)
        ensures
            r@ == Seq::<(Seq<char>, SpecValue)>::empty(),
    {
        let r = Env { bindings: Vec::new() };
        assert(r@ =~= Seq::<(Seq<char>, SpecValue)>::empty());
        r
    }

    /// A copy of the environment with `name` bound to `val`.
    pub fn extend(&self, name: Symbol, val: Value) -> (r: Env)
        ensures
            r@ == self@.push((name@, val@)),
    {
        let mut e = self.clone();
        let ghost before = e.bindings@;
        e.bindings.push((name, val));
        assert(e.bindings@.drop_last() == before);
        e
    }

    /// Remove the latest binding, if there is one.
    pub fn forget_latest(&mut self)
        ensures
            final(self)@ == (if old(self)@.len() == 0 {
                old(self)@
            } else {
                old(self)@.drop_last()
            }),
    {
        let ghost before = self.bindings@;
        if self.bindings.len() > 0 {
            let _ = self.bindings.pop();
            assert(self.bindings@ =~= before.drop_last());
            assert(bindings_model(before).drop_last() =~= bindings_model(before.drop_last()));
        }
    }

    /// The value bound to `name` by its latest binding, if any.
    pub fn lookup(&self, name: &Symbol) -> (r: Option<&Value>)
        ensures
            match r {
                Some(v) => env_lookup(self@, name@) == Some(v@),
                None => env_lookup(self@, name@) is None,
            },
    {
        let ghost b = self.bindings@;
        proof {
            lemma_bindings_model(b);
        }
        let mut i: usize = self.bindings.len();
        assert(b.take(i as int) =~= b);
        while i > 0
            invariant
                i <= b.len(),
                b == self.bindings@,
                env_lookup(self@, name@) == env_lookup(bindings_model(b.take(i as int)), name@),
            decreases i,
        {
            let (s, v) = &self.bindings[i - 1];
            assert(b.take(i as int).drop_last() =~= b.take(i - 1));
            assert(b.take(i as int).last() == b[i - 1]);
            proof {
                let bm = bindings_model(b.take(i as int));
                assert(bm.drop_last() =~= bindings_model(b.take(i - 1)));
                assert(bm.last() == (s@, v@));
            }
            if s.same(name) {
                return Some(v);
            }
            i = i - 1;
        }
        proof {
            assert(bindings_model(b.take(0)) =~= Seq::<(Seq<char>, SpecValue)>::empty());
        }
        None
    }
}

/// The symbol a value stands for when it is recorded in the history.
pub open spec fn value_name(v: SpecValue) -> Seq<char>
    decreases v,
{
    match v {
        SpecValue::Symbol(s) => s,
        SpecValue::Unit => "unit"@,
        SpecValue::Closure { param, .. } => "closure_"@ + param,
        SpecValue::Admissible(inner) => "adm_"@ + value_name(*inner),
        SpecValue::Refused(inner, _) => "ref_"@ + value_name(*inner),
        SpecValue::Collapsed(inner, _) => "col_"@ + value_name(*inner),
        SpecValue::Process { from, to } => "proc_"@ + value_name(*from) + "_"@ + value_name(*to),
        SpecValue::TypeValue(t) => "type_"@ + type_text(t),
    }
}

/// Append the recorded name of `v` to `out`.
fn write_value_name(v: &Value, out: &mut String)
    ensures
        final(out)@ == old(out)@ + value_name(v@),
    decreases v,
{
    match v {
        Value::Symbol(s) => out.append(s.0.as_str()),
        Value::Unit => out.append("unit"),
        Value::Closure { param, .. } => {
            out.append("closure_");
            out.append(param.0.as_str());
        },
        Value::Admissible(inner) => {
            out.append("adm_");
            write_value_name(inner, out);
        },
        Value::Refused(inner, _) => {
            out.append("ref_");
            write_value_name(inner, out);
        },
        Value::Collapsed(inner, _) => {
            out.append("col_");
            write_value_name(inner, out);
        },
        Value::Process { from, to } => {
            out.append("proc_");
            write_value_name(from, out);
            out.append("_");
            write_value_name(to, out);
        },
        Value::TypeValue(t) => {
            out.append("type_");
            t.write_text(out);
        },
    }
    assert(final(out)@ =~= old(out)@ + value_name(v@));
}

/// The symbol a value stands for when it is recorded in the history.
pub fn value_to_symbol(v: &Value) -> (r: Symbol)
    ensures
        r@ == value_name(v@),
{
    let mut out = String::new();
    write_value_name(v, &mut out);
    assert(out@ =~= value_name(v@));
    Symbol::from_string(out)
}

/// The display text of a value.
pub open spec fn value_text(v: SpecValue) -> Seq<char>
    decreases v,
{
    match v {
        SpecValue::Unit => "()"@,
        SpecValue::Symbol(s) => s,
        SpecValue::Closure { param, .. } => "<λ"@ + param + ">"@,
        SpecValue::Admissible(inner) => "Admissible("@ + value_text(*inner) + ")"@,
        SpecValue::Refused(inner, r) => "Refused("@ + value_text(*inner) + " ∵ "@ + reason_text(r)
            + ")"@,
        SpecValue::Collapsed(inner, r) => "Collapsed("@ + value_text(*inner) + " via "@ + rule_text(
            r,
        ) + ")"@,
        SpecValue::Process { from, to } => "Process("@ + value_text(*from) + " ~> "@ + value_text(
            *to,
        ) + ")"@,
        SpecValue::TypeValue(t) => "Type("@ + type_text(t) + ")"@,
    }
}

impl Value {
    /// Append the display text of this value to `out`.
    pub fn write_text(&self, out: &mut String)
        ensures
            final(out)@ == old(out)@ + value_text(self@),
        decreases self,
    {
        match self {
            Value::Unit => out.append("()"),
            Value::Symbol(s) => out.append(s.0.as_str()),
            Value::Closure { param, .. } => {
                out.append("<λ");
                out.append(param.0.as_str());
                out.append(">");
            },
            Value::Admissible(v) => {
                out.append("Admissible(");
                v.write_text(out);
                out.append(")");
            },
            Value::Refused(v, r) => {
                out.append("Refused(");
                v.write_text(out);
                out.append(" ∵ ");
                r.write_text(out);
                out.append(")");
            },
            Value::Collapsed(v, r) => {
                out.append("Collapsed(");
                v.write_text(out);
                out.append(" via ");
                r.write_text(out);
                out.append(")");
            },
            Value::Process { from, to } => {
                out.append("Process(");
                from.write_text(out);
                out.append(" ~> ");
                to.write_text(out);
                out.append(")");
            },
            Value::TypeValue(t) => {
                out.append("Type(");
                t.write_text(out);
                out.append(")");
            },
        }
        assert(final(out)@ =~= old(out)@ + value_text(self@));
    }

    /// The display text of this value.
    pub fn to_text(&self) -> (r: String)
        ensures
            r@ == value_text(self@),
    {
        let mut out = String::new();
        self.write_text(&mut out);
        assert(out@ =~= value_text(self@));
        out
    }
}

/// Binding shadows: right after `n` is bound to `v`, looking `n` up gives
/// `v`, and looking up any other name gives what it gave before.
pub proof fn law_env_lookup_latest(
    env: Seq<(Seq<char>, SpecValue)>,
    n: Seq<char>,
    v: SpecValue,
    m: Seq<char>,
)
    ensures
        env_lookup(env.push((n, v)), n) == Some(v),
        m != n ==> env_lookup(env.push((n, v)), m) == env_lookup(env, m),
{
    assert(env.push((n, v)).drop_last() =~= env);
}

/// Looking `x` up finds its latest binding: `None` exactly when `x` is not
/// bound, and otherwise a value that `x` is bound to at a position after
/// which `x` is not bound again.
pub proof fn law_env_lookup_finds_latest(env: Seq<(Seq<char>, SpecValue)>, x: Seq<char>)
    ensures
        env_lookup(env, x) is None <==> forall|i: int| 0 <= i < env.len() ==> (#[trigger] env[i]).0
            != x,
        env_lookup(env, x) matches Some(v) ==> exists|i: int|
            0 <= i < env.len() && #[trigger] env[i] == (x, v) && forall|j: int|
                i < j < env.len() ==> (#[trigger] env[j]).0 != x,
    decreases env.len(),
{
    if env.len() > 0 {
        let d = env.drop_last();
        law_env_lookup_finds_latest(d, x);
        let k = env.len() - 1;
        assert(env[k] == env.last());
        assert forall|i: int| 0 <= i < d.len() implies d[i] == env[i] by {}
        if env.last().0 == x {
            assert(env[k] == (x, env.last().1));
        } else {
            if env_lookup(d, x) is None {
                assert forall|i: int| 0 <= i < env.len() implies (#[trigger] env[i]).0 != x by {
                    if i < k {
                        assert(d[i] == env[i]);
                    }
                }
            } else {
                let v = env_lookup(d, x)->Some_0;
                let i = choose|i: int|
                    0 <= i < d.len() && #[trigger] d[i] == (x, v) && forall|j: int|
                        i < j < d.len() ==> (#[trigger] d[j]).0 != x;
                assert(env[i] == (x, v));
                assert forall|j: int| i < j < env.len() implies (#[trigger] env[j]).0 != x by {
                    if j < k {
                        assert(d[j] == env[j]);
                    }
                }
                assert(exists|j: int| 0 <= j < env.len() && env[j].0 == x) by {
                    assert(env[i].0 == x);
                }
            }
        }
    }
}

} // verus!
