//! The interpreter: evaluation of terms against a world, recording every
//! commitment, refusal, binding and collapse in the world's history.

use vstd::prelude::*;
use crate::kernel::{popped, recorded, SpecWorld, World};
use crate::kernel::reachability::{popped_names, possibility};
use crate::kernel::history::ever_popped;
use crate::kernel::event::{SpecEvent, SpecRule, Symbol};
use crate::kernel::option_space::OptionSpace;
use crate::syntax::ast::{SpecTerm, Term};
use crate::types::ty::{SpecType, Type};
use crate::eval::value::{env_lookup, value_name, value_text, value_to_symbol, Env, SpecValue, Value};

verus! {

/// How a step of evaluation relates to admissibility.
#[derive(Debug, Clone, Copy, PartialEq, Eq)]
pub enum AdmissibilityStatus {
    Admissible,
    Refused,
    Collapsed,
    Pending,
}

/// The mathematical model of an evaluation step.
pub struct SpecStep {
    pub rule: Seq<char>,
    pub status: AdmissibilityStatus,
}

/// One step of evaluation: the rule applied and its admissibility.
#[derive(Debug, Clone, Copy)]
pub struct EvalStep {
    pub rule: &'static str,
    pub admissibility: AdmissibilityStatus,
}

impl View for EvalStep {
    type V = SpecStep;

    open spec fn view(&self) -> SpecStep {
        SpecStep { rule: self.rule@, status: self.admissibility }
    }
}

/// The models of a sequence of steps.
pub open spec fn steps_model(s: Seq<EvalStep>) -> Seq<SpecStep> {
    s.map_values(|x: EvalStep| x@)
}

/// The mathematical model of an evaluation result.
pub struct SpecEvalResult {
    pub value: SpecValue,
    pub steps: Seq<SpecStep>,
    pub admissible: bool,
}

/// The result of evaluating a term: its value, the steps taken, and whether
/// the result is admissible.
#[derive(Debug)]
pub struct EvalResult {
    pub value: Value,
    pub steps: Vec<EvalStep>,
    pub admissible: bool,
}

impl View for EvalResult {
    type V = SpecEvalResult;

    open spec fn view(&self) -> SpecEvalResult {
        SpecEvalResult {
            value: self.value@,
            steps: steps_model(self.steps@),
            admissible: self.admissible,
        }
    }
}

/// The mathematical model of an evaluation error.
pub enum SpecEvalError {
    UnboundVariable(Seq<char>),
    NotAFunction(SpecValue),
    UnavailableOption(Seq<char>),
    InadmissibleCollapse,
    Other(Seq<char>),
}

/// Evaluation errors.
#[derive(Debug)]
pub enum EvalError {
    UnboundVariable(Symbol),
    NotAFunction(Value),
    UnavailableOption(Symbol),
    InadmissibleCollapse,
    Other(String),
}

impl View for EvalError {
    type V = SpecEvalError;

    open spec fn view(&self) -> SpecEvalError {
        match self {
            EvalError::UnboundVariable(s) => SpecEvalError::UnboundVariable(s@),
            EvalError::NotAFunction(v) => SpecEvalError::NotAFunction(v@),
            EvalError::UnavailableOption(s) => SpecEvalError::UnavailableOption(s@),
            EvalError::InadmissibleCollapse => SpecEvalError::InadmissibleCollapse,
            EvalError::Other(m) => SpecEvalError::Other(m@),
        }
    }
}

/// The display text of an evaluation error.
pub open spec fn eval_error_text(e: SpecEvalError) -> Seq<char> {
    match e {
        SpecEvalError::UnboundVariable(s) => "unbound variable: "@ + s,
        SpecEvalError::NotAFunction(v) => "not a function: "@ + value_text(v),
        SpecEvalError::UnavailableOption(s) => "unavailable option: "@ + s,
        SpecEvalError::InadmissibleCollapse => "inadmissible collapse"@,
        SpecEvalError::Other(m) => "eval error: "@ + m,
    }
}

impl EvalError {
    /// The display text of the error.
    pub fn to_text(&self) -> (r: String)
        ensures
            r@ == eval_error_text(self@),
    {
        let mut out = String::new();
        match self {
            EvalError::UnboundVariable(s) => {
                out.append("unbound variable: ");
                out.append(s.0.as_str());
            },
            EvalError::NotAFunction(v) => {
                out.append("not a function: ");
                v.write_text(&mut out);
            },
            EvalError::UnavailableOption(s) => {
                out.append("unavailable option: ");
                out.append(s.0.as_str());
            },
            EvalError::InadmissibleCollapse => {
                out.append("inadmissible collapse");
            },
            EvalError::Other(m) => {
                out.append("eval error: ");
                out.append(m.as_str());
            },
        }
        assert(out@ =~= eval_error_text(self@));
        out
    }
}

/// The message given when the nesting of evaluation exceeds its bound.
pub open spec fn depth_exhausted() -> Seq<char> {
    "evaluation depth exhausted"@
}

/// A step record.
pub open spec fn step(rule: Seq<char>, status: AdmissibilityStatus) -> SpecStep {
    SpecStep { rule, status }
}

/// Evaluation of `t` in `env` against world `w`, nested at most `fuel` deep:
/// the result (or the first error) and the world afterwards. A failing
/// evaluation keeps the effects recorded before the failure.
pub open spec fn eval_term(
    fuel: nat,
    t: SpecTerm,
    env: Seq<(Seq<char>, SpecValue)>,
    w: SpecWorld,
) -> (Result<SpecEvalResult, SpecEvalError>, SpecWorld)
    decreases fuel, 1nat, 0nat,
{
    if fuel == 0 {
        (Err(SpecEvalError::Other(depth_exhausted())), w)
    } else {
        let f = (fuel - 1) as nat;
        match t {
            SpecTerm::Var(x) => (
                Ok(
                    SpecEvalResult {
                        value: match env_lookup(env, x) {
                            Some(v) => v,
                            None => SpecValue::Symbol(x),
                        },
                        steps: seq![step("Var"@, AdmissibilityStatus::Pending)],
                        admissible: true,
                    },
                ),
                w,
            ),
            SpecTerm::Lam { param, ty, body } => (
                Ok(
                    SpecEvalResult {
                        value: SpecValue::Closure { param, param_ty: ty, body: *body, env },
                        steps: seq![step("Lam"@, AdmissibilityStatus::Admissible)],
                        admissible: true,
                    },
                ),
                recorded(w, SpecEvent::LamIntro { param }),
            ),
            SpecTerm::App(fun, arg) => {
                let (r1, w1) = eval_term(f, *fun, env, w);
                match r1 {
                    Err(e) => (Err(e), w1),
                    Ok(fr) => {
                        let (r2, w2) = eval_term(f, *arg, env, w1);
                        match r2 {
                            Err(e) => (Err(e), w2),
                            Ok(xr) => match fr.value {
                                SpecValue::Closure { param, body, env: cenv, .. } => {
                                    let w3 = recorded(
                                        w2,
                                        SpecEvent::Apply { fun: param, arg: "arg"@ },
                                    );
                                    let (r3, w4) = eval_term(f, body, cenv.push((param, xr.value)), w3);
                                    match r3 {
                                        Err(e) => (Err(e), w4),
                                        Ok(br) => (
                                            Ok(
                                                SpecEvalResult {
                                                    value: br.value,
                                                    steps: (fr.steps + xr.steps + br.steps).push(
                                                        step("App-Beta"@, AdmissibilityStatus::Admissible),
                                                    ),
                                                    admissible: br.admissible,
                                                },
                                            ),
                                            w4,
                                        ),
                                    }
                                },
                                other => (Err(SpecEvalError::NotAFunction(other)), w2),
                            },
                        }
                    },
                }
            },
            SpecTerm::Let { name, value, body } => {
                let (r1, w1) = eval_term(f, *value, env, w);
                match r1 {
                    Err(e) => (Err(e), w1),
                    Ok(vr) => {
                        let (r2, w2) = eval_term(f, *body, env.push((name, vr.value)), w1);
                        match r2 {
                            Err(e) => (Err(e), w2),
                            Ok(br) => (
                                Ok(
                                    SpecEvalResult {
                                        value: br.value,
                                        steps: vr.steps + br.steps,
                                        admissible: br.admissible,
                                    },
                                ),
                                w2,
                            ),
                        }
                    },
                }
            },
            SpecTerm::Universe(n) => (
                Ok(
                    SpecEvalResult {
                        value: SpecValue::TypeValue(SpecType::Universe(n)),
                        steps: seq![step("Universe"@, AdmissibilityStatus::Admissible)],
                        admissible: true,
                    },
                ),
                w,
            ),
            SpecTerm::Pi { .. } => (
                Ok(
                    SpecEvalResult {
                        value: SpecValue::TypeValue(SpecType::Unit),
                        steps: seq![step("Pi"@, AdmissibilityStatus::Admissible)],
                        admissible: true,
                    },
                ),
                w,
            ),
            SpecTerm::Ann(inner, _) => eval_term(f, *inner, env, w),
            SpecTerm::Pop(inner) => {
                let (r1, w1) = eval_term(f, *inner, env, w);
                match r1 {
                    Err(e) => (Err(e), w1),
                    Ok(ir) => {
                        let name = value_name(ir.value);
                        match popped(w1, name) {
                            None => (Err(SpecEvalError::UnavailableOption(name)), w1),
                            Some(w2) => (
                                Ok(
                                    SpecEvalResult {
                                        value: SpecValue::Admissible(Box::new(ir.value)),
                                        steps: ir.steps.push(
                                            step("Pop"@, AdmissibilityStatus::Admissible),
                                        ),
                                        admissible: true,
                                    },
                                ),
                                w2,
                            ),
                        }
                    },
                }
            },
            SpecTerm::Refuse(inner, reason) => {
                let (r1, w1) = eval_term(f, *inner, env, w);
                match r1 {
                    Err(e) => (Err(e), w1),
                    Ok(ir) => (
                        Ok(
                            SpecEvalResult {
                                value: SpecValue::Refused(Box::new(ir.value), reason),
                                steps: ir.steps.push(step("Refuse"@, AdmissibilityStatus::Refused)),
                                admissible: false,
                            },
                        ),
                        recorded(w1, SpecEvent::Refuse { target: value_name(ir.value), reason }),
                    ),
                }
            },
            SpecTerm::Collapse(inner, rule) => {
                let (r1, w1) = eval_term(f, *inner, env, w);
                match r1 {
                    Err(e) => (Err(e), w1),
                    Ok(ir) => if !ir.admissible {
                        (Err(SpecEvalError::InadmissibleCollapse), w1)
                    } else {
                        (
                            Ok(
                                SpecEvalResult {
                                    value: SpecValue::Collapsed(Box::new(ir.value), rule),
                                    steps: ir.steps.push(
                                        step("Collapse"@, AdmissibilityStatus::Collapsed),
                                    ),
                                    admissible: true,
                                },
                            ),
                            recorded(
                                w1,
                                SpecEvent::Collapse { target: value_name(ir.value), rule },
                            ),
                        )
                    },
                }
            },
            SpecTerm::Bind(lhs, rhs) => {
                let (r1, w1) = eval_term(f, *lhs, env, w);
                match r1 {
                    Err(e) => (Err(e), w1),
                    Ok(lr) => {
                        let (r2, w2) = eval_term(f, *rhs, env, w1);
                        match r2 {
                            Err(e) => (Err(e), w2),
                            Ok(rr) => (
                                Ok(
                                    SpecEvalResult {
                                        value: SpecValue::Process {
                                            from: Box::new(lr.value),
                                            to: Box::new(rr.value),
                                        },
                                        steps: (lr.steps + rr.steps).push(
                                            step("Bind"@, AdmissibilityStatus::Admissible),
                                        ),
                                        admissible: true,
                                    },
                                ),
                                recorded(
                                    w2,
                                    SpecEvent::Bind {
                                        name: value_name(lr.value),
                                        target: value_name(rr.value),
                                    },
                                ),
                            ),
                        }
                    },
                }
            },
            SpecTerm::Sequence(ts) => eval_sequence(
                f,
                ts,
                env,
                w,
                Seq::empty(),
                SpecEvalResult { value: SpecValue::Unit, steps: Seq::empty(), admissible: true },
            ),
        }
    }
}

/// Evaluate the terms of `ts` in order, each nested at most `fuel` deep,
/// collecting their steps after `acc`; the value and admissibility are those
/// of the last term evaluated (or of `last` when there is none).
pub open spec fn eval_sequence(
    fuel: nat,
    ts: Seq<SpecTerm>,
    env: Seq<(Seq<char>, SpecValue)>,
    w: SpecWorld,
    acc: Seq<SpecStep>,
    last: SpecEvalResult,
) -> (Result<SpecEvalResult, SpecEvalError>, SpecWorld)
    decreases fuel + 1, 0nat, ts.len(),
{
    if ts.len() == 0 {
        (Ok(SpecEvalResult { value: last.value, steps: acc, admissible: last.admissible }), w)
    } else {
        let (r, w1) = eval_term(fuel, ts[0], env, w);
        match r {
            Err(e) => (Err(e), w1),
            Ok(x) => eval_sequence(fuel, ts.drop_first(), env, w1, acc + x.steps, x),
        }
    }
}

/// The model of an evaluation outcome.
pub open spec fn eval_outcome(r: Result<EvalResult, EvalError>) -> Result<SpecEvalResult, SpecEvalError> {
    match r {
        Ok(x) => Ok(x@),
        Err(e) => Err(e@),
    }
}

/// One step record.
fn one_step(rule: &'static str, status: AdmissibilityStatus) -> (r: Vec<EvalStep>)
    ensures
        steps_model(r@) == seq![step(rule@, status)],
{
    let mut v: Vec<EvalStep> = Vec::new();
    v.push(EvalStep { rule, admissibility: status });
    assert(steps_model(v@) =~= seq![step(rule@, status)]);
    v
}

/// `a` followed by `b`.
fn join_steps(a: Vec<EvalStep>, b: Vec<EvalStep>) -> (r: Vec<EvalStep>)
    ensures
        steps_model(r@) == steps_model(a@) + steps_model(b@),
{
    let ghost a0 = a@;
    let ghost b0 = b@;
    let mut a = a;
    let mut b = b;
    a.append(&mut b);
    assert(steps_model(a@) =~= steps_model(a0) + steps_model(b0));
    a
}

/// `a` followed by one more step.
fn push_step(a: Vec<EvalStep>, rule: &'static str, status: AdmissibilityStatus) -> (r: Vec<EvalStep>)
    ensures
        steps_model(r@) == steps_model(a@).push(step(rule@, status)),
{
    let ghost a0 = a@;
    let mut a = a;
    a.push(EvalStep { rule, admissibility: status });
    assert(steps_model(a@) =~= steps_model(a0).push(step(rule@, status)));
    a
}

/// Evaluate `term` in `env` against `world`, nested at most `depth` deep.
pub fn eval_bounded(term: &Term, env: &Env, world: &mut World, depth: u64) -> (r: Result<
    EvalResult,
    EvalError,
>)
    ensures
        (eval_outcome(r), final(world)@) == eval_term(depth as nat, term@, env@, old(world)@),
    decreases depth,
{
    if depth == 0 {
        return Err(EvalError::Other(String::from_str("evaluation depth exhausted")));
    }
    let d = depth - 1;
    match term {
        Term::Var(x) => {
            let val = match env.lookup(x) {
                Some(v) => v.clone(),
                None => Value::Symbol(x.clone()),
            };
            Ok(
                EvalResult {
                    value: val,
                    steps: one_step("Var", AdmissibilityStatus::Pending),
                    admissible: true,
                },
            )
        },
        Term::Lam { param, ty, body } => {
            world.record_lam_intro(param.clone());
            Ok(
                EvalResult {
                    value: Value::Closure {
                        param: param.clone(),
                        param_ty: (**ty).clone(),
                        body: Box::new((**body).clone()),
                        env: env.clone(),
                    },
                    steps: one_step("Lam", AdmissibilityStatus::Admissible),
                    admissible: true,
                },
            )
        },
        Term::App(fun, arg) => {
            let fun_res = match eval_bounded(fun, env, world, d) {
                Ok(x) => x,
                Err(e) => return Err(e),
            };
            let arg_res = match eval_bounded(arg, env, world, d) {
                Ok(x) => x,
                Err(e) => return Err(e),
            };
            match fun_res.value {
                Value::Closure { param, body, env: cenv, .. } => {
                    let new_env = cenv.extend(param.clone(), arg_res.value);
                    world.record_apply(param.clone(), Symbol::new("arg"));
                    let body_res = match eval_bounded(&body, &new_env, world, d) {
                        Ok(x) => x,
                        Err(e) => return Err(e),
                    };
                    let steps = join_steps(join_steps(fun_res.steps, arg_res.steps), body_res.steps);
                    let steps = push_step(steps, "App-Beta", AdmissibilityStatus::Admissible);
                    Ok(EvalResult { value: body_res.value, steps, admissible: body_res.admissible })
                },
                other => Err(EvalError::NotAFunction(other)),
            }
        },
        Term::Let { name, value, body } => {
            let val_res = match eval_bounded(value, env, world, d) {
                Ok(x) => x,
                Err(e) => return Err(e),
            };
            let new_env = env.extend(name.clone(), val_res.value);
            let body_res = match eval_bounded(body, &new_env, world, d) {
                Ok(x) => x,
                Err(e) => return Err(e),
            };
            let steps = join_steps(val_res.steps, body_res.steps);
            Ok(EvalResult { value: body_res.value, steps, admissible: body_res.admissible })
        },
        Term::Universe(n) => Ok(
            EvalResult {
                value: Value::TypeValue(Type::Universe(*n)),
                steps: one_step("Universe", AdmissibilityStatus::Admissible),
                admissible: true,
            },
        ),
        Term::Pi { .. } => Ok(
            EvalResult {
                value: Value::TypeValue(Type::Unit),
                steps: one_step("Pi", AdmissibilityStatus::Admissible),
                admissible: true,
            },
        ),
        Term::Ann(inner, _) => eval_bounded(inner, env, world, d),
        Term::Pop(inner) => {
            let inner_res = match eval_bounded(inner, env, world, d) {
                Ok(x) => x,
                Err(e) => return Err(e),
            };
            let name = value_to_symbol(&inner_res.value);
            match world.pop(name.clone()) {
                Ok(()) => {},
                Err(_) => return Err(EvalError::UnavailableOption(name)),
            }
            let steps = push_step(inner_res.steps, "Pop", AdmissibilityStatus::Admissible);
            Ok(EvalResult { value: Value::Admissible(Box::new(inner_res.value)), steps, admissible: true })
        },
        Term::Refuse(inner, reason) => {
            let inner_res = match eval_bounded(inner, env, world, d) {
                Ok(x) => x,
                Err(e) => return Err(e),
            };
            let name = value_to_symbol(&inner_res.value);
            world.refuse(name, reason.clone());
            let steps = push_step(inner_res.steps, "Refuse", AdmissibilityStatus::Refused);
            Ok(
                EvalResult {
                    value: Value::Refused(Box::new(inner_res.value), reason.clone()),
                    steps,
                    admissible: false,
                },
            )
        },
        Term::Collapse(inner, rule) => {
            let inner_res = match eval_bounded(inner, env, world, d) {
                Ok(x) => x,
                Err(e) => return Err(e),
            };
            if !inner_res.admissible {
                return Err(EvalError::InadmissibleCollapse);
            }
            let name = value_to_symbol(&inner_res.value);
            world.collapse(name, rule.clone());
            let steps = push_step(inner_res.steps, "Collapse", AdmissibilityStatus::Collapsed);
            Ok(
                EvalResult {
                    value: Value::Collapsed(Box::new(inner_res.value), rule.clone()),
                    steps,
                    admissible: true,
                },
            )
        },
        Term::Bind(lhs, rhs) => {
            let lhs_res = match eval_bounded(lhs, env, world, d) {
                Ok(x) => x,
                Err(e) => return Err(e),
            };
            let rhs_res = match eval_bounded(rhs, env, world, d) {
                Ok(x) => x,
                Err(e) => return Err(e),
            };
            world.bind(value_to_symbol(&lhs_res.value), value_to_symbol(&rhs_res.value));
            let steps = join_steps(lhs_res.steps, rhs_res.steps);
            let steps = push_step(steps, "Bind", AdmissibilityStatus::Admissible);
            Ok(
                EvalResult {
                    value: Value::Process {
                        from: Box::new(lhs_res.value),
                        to: Box::new(rhs_res.value),
                    },
                    steps,
                    admissible: true,
                },
            )
        },
        Term::Sequence(terms) => {
            let ghost ts = crate::syntax::ast::terms_model(terms@);
            let ghost w0 = old(world)@;
            proof {
                crate::syntax::ast::lemma_terms_model(terms@);
                assert(ts.skip(0) =~= ts);
            }
            let mut all_steps: Vec<EvalStep> = Vec::new();
            let mut last = EvalResult { value: Value::Unit, steps: Vec::new(), admissible: true };
            assert(steps_model(all_steps@) =~= Seq::<SpecStep>::empty());
            assert(last@ == SpecEvalResult { value: SpecValue::Unit, steps: Seq::empty(), admissible: true }) by {
                assert(steps_model(last.steps@) =~= Seq::<SpecStep>::empty());
            }
            let mut i: usize = 0;
            while i < terms.len()
                invariant
                    i <= terms@.len(),
                    d == depth - 1,
                    w0 == old(world)@,
                    ts == crate::syntax::ast::terms_model(terms@),
                    ts.len() == terms@.len(),
                    forall|j: int| 0 <= j < ts.len() ==> #[trigger] ts[j] == terms@[j]@,
                    eval_term(depth as nat, term@, env@, w0) == eval_sequence(
                        d as nat,
                        ts.skip(i as int),
                        env@,
                        world@,
                        steps_model(all_steps@),
                        last@,
                    ),
                decreases terms@.len() - i,
            {
                assert(ts.skip(i as int)[0] == ts[i as int]);
                assert(ts.skip(i as int).drop_first() =~= ts.skip(i + 1));
                let ghost w_before = world@;
                let ghost acc = steps_model(all_steps@);
                let ghost prev = last@;
                match eval_bounded(&terms[i], env, world, d) {
                    Ok(x) => {
                        let mut s = x.steps.clone();
                        proof {
                            assert(steps_model(s@) =~= steps_model(x.steps@));
                        }
                        all_steps = join_steps(all_steps, s);
                        last = x;
                    },
                    Err(e) => {
                        assert(eval_term(d as nat, ts[i as int], env@, w_before) == (
                            Err::<SpecEvalResult, SpecEvalError>(e@),
                            world@,
                        ));
                        assert(eval_sequence(d as nat, ts.skip(i as int), env@, w_before, acc, prev) == (
                            Err::<SpecEvalResult, SpecEvalError>(e@),
                            world@,
                        ));
                        return Err(e);
                    },
                }
                i = i + 1;
            }
            assert(ts.skip(i as int) =~= Seq::<SpecTerm>::empty());
            let r = EvalResult { value: last.value, steps: all_steps, admissible: last.admissible };
            assert(eval_sequence(d as nat, ts.skip(i as int), env@, world@, steps_model(all_steps@), last@)
                == (Ok::<SpecEvalResult, SpecEvalError>(r@), world@));
            assert(eval_term(depth as nat, term@, env@, old(world)@) == (Ok::<SpecEvalResult, SpecEvalError>(r@), world@));
            Ok(r)
        },
    }
}

/// The nesting bound of evaluation: deeper than any evaluation can go before
/// the machine's stack is exhausted.
pub const MAX_DEPTH: u64 = 0xffff_ffff_ffff_ffffu64;

/// Evaluate `term` in `env` against `world`.
pub fn eval(term: &Term, env: &Env, world: &mut World) -> (r: Result<EvalResult, EvalError>)
    ensures
        (eval_outcome(r), final(world)@) == eval_term(MAX_DEPTH as nat, term@, env@, old(world)@),
{
    eval_bounded(term, env, world, MAX_DEPTH)
}

/// Evaluate `term` in an empty environment against a fresh world over
/// `options`; the result together with the world afterwards.
pub fn eval_with_options(term: &Term, options: Vec<Symbol>) -> (r: Result<(EvalResult, World), EvalError>)
    ensures
        ({
            let w0 = SpecWorld {
                options: options@.map_values(|s: Symbol| s@).to_set(),
                history: Seq::empty(),
                initial_size: options@.map_values(|s: Symbol| s@).to_set().len(),
            };
            let (res, w1) = eval_term(MAX_DEPTH as nat, term@, Seq::empty(), w0);
            match r {
                Ok((x, w)) => res == Ok::<SpecEvalResult, SpecEvalError>(x@) && w@ == w1,
                Err(e) => res == Err::<SpecEvalResult, SpecEvalError>(e@),
            }
        }),
{
    let mut world = World::new(OptionSpace::new(options));
    let env = Env::new();
    match eval(term, &env, &mut world) {
        Ok(result) => Ok((result, world)),
        Err(e) => Err(e),
    }
}

/// Evaluate `term` in an empty environment against an empty world.
pub fn eval_closed(term: &Term) -> (r: Result<(EvalResult, World), EvalError>)
    ensures
        ({
            let w0 = SpecWorld { options: Set::empty(), history: Seq::empty(), initial_size: 0 };
            let (res, w1) = eval_term(MAX_DEPTH as nat, term@, Seq::empty(), w0);
            match r {
                Ok((x, w)) => res == Ok::<SpecEvalResult, SpecEvalError>(x@) && w@ == w1,
                Err(e) => res == Err::<SpecEvalResult, SpecEvalError>(e@),
            }
        }),
{
    let mut world = World::empty();
    let env = Env::new();
    match eval(term, &env, &mut world) {
        Ok(result) => Ok((result, world)),
        Err(e) => Err(e),
    }
}

/// Runtime collapse soundness: evaluating a collapse succeeds only when its
/// operand evaluated to a result flagged admissible, and then yields the
/// operand's value collapsed under the rule.
pub proof fn law_runtime_collapse_soundness(
    fuel: nat,
    i: SpecTerm,
    rule: SpecRule,
    env: Seq<(Seq<char>, SpecValue)>,
    w: SpecWorld,
)
    requires
        fuel > 0,
    ensures
        eval_term(fuel, SpecTerm::Collapse(Box::new(i), rule), env, w).0 is Ok <==> (eval_term(
            (fuel - 1) as nat,
            i,
            env,
            w,
        ).0 matches Ok(r) && r.admissible),
        eval_term(fuel, SpecTerm::Collapse(Box::new(i), rule), env, w).0 matches Ok(c) ==> c.value
            == SpecValue::Collapsed(Box::new(eval_term((fuel - 1) as nat, i, env, w).0->Ok_0.value), rule),
{
}

/// `w2` follows from `w` by legal steps that open no scope: the initial
/// size is kept, the option space only shrinks, history only grows, and the
/// possibility functional Π is unchanged.
pub open spec fn conserved_from(w: SpecWorld, w2: SpecWorld) -> bool {
    &&& w2.initial_size == w.initial_size
    &&& w2.options.subset_of(w.options)
    &&& w.history.len() <= w2.history.len()
    &&& w2.history.subrange(0, w.history.len() as int) == w.history
    &&& possibility(w2.history, w2.options) == possibility(w.history, w.options)
    &&& w2.options == w.options.difference(
        popped_names(w2.history.subrange(w.history.len() as int, w2.history.len() as int)),
    )
}

proof fn lemma_popped_names_concat(u: Seq<SpecEvent>, v: Seq<SpecEvent>)
    ensures
        popped_names(u + v) == popped_names(u).union(popped_names(v)),
{
    assert forall|x: Seq<char>| popped_names(u + v).contains(x) == popped_names(u).union(
        popped_names(v),
    ).contains(x) by {
        if ever_popped(u + v, x) {
            let i = choose|i: int| 0 <= i < (u + v).len() && (u + v)[i] == SpecEvent::Pop(x);
            if i < u.len() {
                assert(u[i] == SpecEvent::Pop(x));
            } else {
                assert(v[i - u.len()] == SpecEvent::Pop(x));
            }
        }
        if ever_popped(u, x) {
            let i = choose|i: int| 0 <= i < u.len() && u[i] == SpecEvent::Pop(x);
            assert((u + v)[i] == SpecEvent::Pop(x));
        }
        if ever_popped(v, x) {
            let i = choose|i: int| 0 <= i < v.len() && v[i] == SpecEvent::Pop(x);
            assert((u + v)[u.len() + i] == SpecEvent::Pop(x));
        }
    }
    assert(popped_names(u + v) =~= popped_names(u).union(popped_names(v)));
}

proof fn lemma_popped_names_one(e: SpecEvent)
    ensures
        popped_names(seq![e]) == (match e {
            SpecEvent::Pop(x) => Set::empty().insert(x),
            _ => Set::<Seq<char>>::empty(),
        }),
{
    let want = match e {
        SpecEvent::Pop(x) => Set::empty().insert(x),
        _ => Set::<Seq<char>>::empty(),
    };
    assert forall|x: Seq<char>| popped_names(seq![e]).contains(x) == want.contains(x) by {
        if e == SpecEvent::Pop(x) {
            assert(seq![e][0] == SpecEvent::Pop(x));
        }
    }
    assert(popped_names(seq![e]) =~= want);
}

proof fn lemma_conserved_refl(w: SpecWorld)
    ensures
        conserved_from(w, w),
{
    assert(w.history.subrange(0, w.history.len() as int) =~= w.history);
    let none = w.history.subrange(w.history.len() as int, w.history.len() as int);
    assert(none =~= Seq::<SpecEvent>::empty());
    assert(popped_names(none) =~= Set::<Seq<char>>::empty());
    assert(w.options.difference(popped_names(none)) =~= w.options);
}

proof fn lemma_conserved_trans(a: SpecWorld, b: SpecWorld, c: SpecWorld)
    requires
        conserved_from(a, b),
        conserved_from(b, c),
    ensures
        conserved_from(a, c),
{
    assert(c.history.subrange(0, a.history.len() as int) =~= b.history.subrange(
        0,
        a.history.len() as int,
    ));
    let u = b.history.subrange(a.history.len() as int, b.history.len() as int);
    let v = c.history.subrange(b.history.len() as int, c.history.len() as int);
    assert(c.history.subrange(a.history.len() as int, c.history.len() as int) =~= u + v) by {
        assert forall|k: int| 0 <= k < u.len() implies #[trigger] c.history[a.history.len() + k]
            == u[k] by {
            assert(c.history.subrange(0, b.history.len() as int)[a.history.len() + k] == b.history[
            a.history.len() + k]);
        }
    }
    lemma_popped_names_concat(u, v);
    assert(c.options =~= a.options.difference(popped_names(u).union(popped_names(v))));
}

proof fn lemma_recorded_conserves(w: SpecWorld, e: SpecEvent)
    requires
        !(e is Pop),
    ensures
        conserved_from(w, recorded(w, e)),
{
    assert(w.history.push(e).drop_last() =~= w.history);
    assert(w.history.push(e).subrange(0, w.history.len() as int) =~= w.history);
    assert(w.history.push(e).subrange(w.history.len() as int, w.history.len() + 1int) =~= seq![e]);
    lemma_popped_names_one(e);
    assert(w.options.difference(popped_names(seq![e])) =~= w.options);
}

proof fn lemma_popped_conserves(w: SpecWorld, x: Seq<char>)
    requires
        w.options.finite(),
        popped(w, x) is Some,
    ensures
        conserved_from(w, popped(w, x)->0),
{
    let h2 = w.history.push(SpecEvent::Pop(x));
    assert(h2.drop_last() =~= w.history);
    assert(h2.subrange(0, w.history.len() as int) =~= w.history);
    assert(h2.subrange(w.history.len() as int, w.history.len() + 1int) =~= seq![SpecEvent::Pop(x)]);
    lemma_popped_names_one(SpecEvent::Pop(x));
    assert(w.options.remove(x) =~= w.options.difference(popped_names(seq![SpecEvent::Pop(x)])));
}

/// Evaluation conserves possibility: whatever the outcome, the world after
/// evaluating `t` follows from the world before by legal steps: history
/// only grows, the options left are the first options minus the symbols
/// popped by the events added, and Π(H, Ω) is unchanged.
pub proof fn law_eval_conserves(fuel: nat, t: SpecTerm, env: Seq<(Seq<char>, SpecValue)>, w: SpecWorld)
    requires
        w.options.finite(),
    ensures
        conserved_from(w, eval_term(fuel, t, env, w).1),
    decreases fuel, 1nat, 0nat,
{
    lemma_conserved_refl(w);
    if fuel > 0 {
        let f = (fuel - 1) as nat;
        match t {
            SpecTerm::Lam { param, .. } => {
                lemma_recorded_conserves(w, SpecEvent::LamIntro { param });
            },
            SpecTerm::App(fun, arg) => {
                let (r1, w1) = eval_term(f, *fun, env, w);
                law_eval_conserves(f, *fun, env, w);
                if r1 is Ok {
                    let (r2, w2) = eval_term(f, *arg, env, w1);
                    vstd::set_lib::lemma_len_subset(w1.options, w.options);
                    law_eval_conserves(f, *arg, env, w1);
                    lemma_conserved_trans(w, w1, w2);
                    if r2 is Ok {
                        match r1->Ok_0.value {
                            SpecValue::Closure { param, body, env: cenv, .. } => {
                                let w3 = recorded(w2, SpecEvent::Apply { fun: param, arg: "arg"@ });
                                lemma_recorded_conserves(w2, SpecEvent::Apply { fun: param, arg: "arg"@ });
                                lemma_conserved_trans(w, w2, w3);
                                law_eval_conserves(f, body, cenv.push((param, r2->Ok_0.value)), w3);
                                lemma_conserved_trans(
                                    w,
                                    w3,
                                    eval_term(f, body, cenv.push((param, r2->Ok_0.value)), w3).1,
                                );
                            },
                            _ => {},
                        }
                    }
                }
            },
            SpecTerm::Let { name, value, body } => {
                let (r1, w1) = eval_term(f, *value, env, w);
                law_eval_conserves(f, *value, env, w);
                if r1 is Ok {
                    law_eval_conserves(f, *body, env.push((name, r1->Ok_0.value)), w1);
                    lemma_conserved_trans(w, w1, eval_term(f, *body, env.push((name, r1->Ok_0.value)), w1).1);
                }
            },
            SpecTerm::Ann(i, _) => {
                law_eval_conserves(f, *i, env, w);
            },
            SpecTerm::Pop(i) => {
                let (r1, w1) = eval_term(f, *i, env, w);
                law_eval_conserves(f, *i, env, w);
                if r1 is Ok {
                    let name = value_name(r1->Ok_0.value);
                    if popped(w1, name) is Some {
                        lemma_popped_conserves(w1, name);
                        lemma_conserved_trans(w, w1, popped(w1, name)->0);
                    }
                }
            },
            SpecTerm::Refuse(i, reason) => {
                let (r1, w1) = eval_term(f, *i, env, w);
                law_eval_conserves(f, *i, env, w);
                if r1 is Ok {
                    let e = SpecEvent::Refuse { target: value_name(r1->Ok_0.value), reason };
                    lemma_recorded_conserves(w1, e);
                    lemma_conserved_trans(w, w1, recorded(w1, e));
                }
            },
            SpecTerm::Collapse(i, rule) => {
                let (r1, w1) = eval_term(f, *i, env, w);
                law_eval_conserves(f, *i, env, w);
                if r1 is Ok {
                    let e = SpecEvent::Collapse { target: value_name(r1->Ok_0.value), rule };
                    lemma_recorded_conserves(w1, e);
                    lemma_conserved_trans(w, w1, recorded(w1, e));
                }
            },
            SpecTerm::Bind(a, b) => {
                let (r1, w1) = eval_term(f, *a, env, w);
                law_eval_conserves(f, *a, env, w);
                if r1 is Ok {
                    let (r2, w2) = eval_term(f, *b, env, w1);
                    law_eval_conserves(f, *b, env, w1);
                    lemma_conserved_trans(w, w1, w2);
                    if r2 is Ok {
                        let e = SpecEvent::Bind {
                            name: value_name(r1->Ok_0.value),
                            target: value_name(r2->Ok_0.value),
                        };
                        lemma_recorded_conserves(w2, e);
                        lemma_conserved_trans(w, w2, recorded(w2, e));
                    }
                }
            },
            SpecTerm::Sequence(ts) => {
                let unit = SpecEvalResult { value: SpecValue::Unit, steps: Seq::empty(), admissible: true };
                lemma_eval_sequence_conserves(f, ts, env, w, Seq::empty(), unit);
            },
            _ => {},
        }
    }
}

proof fn lemma_eval_sequence_conserves(
    fuel: nat,
    ts: Seq<SpecTerm>,
    env: Seq<(Seq<char>, SpecValue)>,
    w: SpecWorld,
    acc: Seq<SpecStep>,
    last: SpecEvalResult,
)
    requires
        w.options.finite(),
    ensures
        conserved_from(w, eval_sequence(fuel, ts, env, w, acc, last).1),
    decreases fuel + 1, 0nat, ts.len(),
{
    lemma_conserved_refl(w);
    if ts.len() > 0 {
        let (r, w1) = eval_term(fuel, ts[0], env, w);
        law_eval_conserves(fuel, ts[0], env, w);
        if r is Ok {
            vstd::set_lib::lemma_len_subset(w1.options, w.options);
            lemma_eval_sequence_conserves(fuel, ts.drop_first(), env, w1, acc + r->Ok_0.steps, r->Ok_0);
            lemma_conserved_trans(
                w,
                w1,
                eval_sequence(fuel, ts.drop_first(), env, w1, acc + r->Ok_0.steps, r->Ok_0).1,
            );
        }
    }
}

/// Whether an evaluation outcome is the error reported when the depth runs
/// out.
pub open spec fn exhausted(r: Result<SpecEvalResult, SpecEvalError>) -> bool {
    r == Err::<SpecEvalResult, SpecEvalError>(SpecEvalError::Other(depth_exhausted()))
}

/// More depth changes nothing for an evaluation that did not run out.
proof fn lemma_fuel_mono(fuel: nat, t: SpecTerm, env: Seq<(Seq<char>, SpecValue)>, w: SpecWorld)
    requires
        !exhausted(eval_term(fuel, t, env, w).0),
    ensures
        eval_term(fuel + 1, t, env, w) == eval_term(fuel, t, env, w),
    decreases fuel, 1nat, 0nat,
{
    let f = (fuel - 1) as nat;
    match t {
        SpecTerm::App(fun, arg) => {
            let (r1, w1) = eval_term(f, *fun, env, w);
            if !exhausted(r1) {
                lemma_fuel_mono(f, *fun, env, w);
            }
            if r1 is Ok {
                let (r2, w2) = eval_term(f, *arg, env, w1);
                if !exhausted(r2) {
                    lemma_fuel_mono(f, *arg, env, w1);
                }
                if r2 is Ok {
                    match r1->Ok_0.value {
                        SpecValue::Closure { param, body, env: cenv, .. } => {
                            let w3 = recorded(w2, SpecEvent::Apply { fun: param, arg: "arg"@ });
                            let e3 = cenv.push((param, r2->Ok_0.value));
                            if !exhausted(eval_term(f, body, e3, w3).0) {
                                lemma_fuel_mono(f, body, e3, w3);
                            }
                        },
                        _ => {},
                    }
                }
            }
        },
        SpecTerm::Let { name, value, body } => {
            let (r1, w1) = eval_term(f, *value, env, w);
            if !exhausted(r1) {
                lemma_fuel_mono(f, *value, env, w);
            }
            if r1 is Ok {
                let e2 = env.push((name, r1->Ok_0.value));
                if !exhausted(eval_term(f, *body, e2, w1).0) {
                    lemma_fuel_mono(f, *body, e2, w1);
                }
            }
        },
        SpecTerm::Ann(i, _) => {
            lemma_fuel_mono(f, *i, env, w);
        },
        SpecTerm::Pop(i) => {
            if !exhausted(eval_term(f, *i, env, w).0) {
                lemma_fuel_mono(f, *i, env, w);
            }
        },
        SpecTerm::Refuse(i, _) => {
            if !exhausted(eval_term(f, *i, env, w).0) {
                lemma_fuel_mono(f, *i, env, w);
            }
        },
        SpecTerm::Collapse(i, _) => {
            if !exhausted(eval_term(f, *i, env, w).0) {
                lemma_fuel_mono(f, *i, env, w);
            }
        },
        SpecTerm::Bind(a, b) => {
            let (r1, w1) = eval_term(f, *a, env, w);
            if !exhausted(r1) {
                lemma_fuel_mono(f, *a, env, w);
            }
            if r1 is Ok {
                if !exhausted(eval_term(f, *b, env, w1).0) {
                    lemma_fuel_mono(f, *b, env, w1);
                }
            }
        },
        SpecTerm::Sequence(ts) => {
            let unit = SpecEvalResult { value: SpecValue::Unit, steps: Seq::empty(), admissible: true };
            lemma_fuel_mono_all(f, ts, env, w, Seq::empty(), unit);
        },
        _ => {},
    }
}

proof fn lemma_fuel_mono_all(
    fuel: nat,
    ts: Seq<SpecTerm>,
    env: Seq<(Seq<char>, SpecValue)>,
    w: SpecWorld,
    acc: Seq<SpecStep>,
    last: SpecEvalResult,
)
    requires
        !exhausted(eval_sequence(fuel, ts, env, w, acc, last).0),
    ensures
        eval_sequence(fuel + 1, ts, env, w, acc, last) == eval_sequence(fuel, ts, env, w, acc, last),
    decreases fuel + 1, 0nat, ts.len(),
{
    if ts.len() > 0 {
        let (r, w1) = eval_term(fuel, ts[0], env, w);
        if !exhausted(r) {
            lemma_fuel_mono(fuel, ts[0], env, w);
        }
        if r is Ok {
            lemma_fuel_mono_all(fuel, ts.drop_first(), env, w1, acc + r->Ok_0.steps, r->Ok_0);
        }
    }
}

/// Runtime collapse at one depth: unless evaluation runs out of depth,
/// evaluating `collapse i` fails as evaluating `i` fails, fails with an
/// inadmissible collapse (leaving the world `i` left) exactly when `i`
/// evaluates to a result not flagged admissible, and otherwise yields the
/// value of `i` collapsed under `rule`, flagged admissible, with one
/// `Collapse` event recorded after the events of `i`.
pub proof fn law_eval_collapse(
    fuel: nat,
    i: SpecTerm,
    rule: SpecRule,
    env: Seq<(Seq<char>, SpecValue)>,
    w: SpecWorld,
)
    requires
        !exhausted(eval_term(fuel, SpecTerm::Collapse(Box::new(i), rule), env, w).0),
    ensures
        ({
            let (r, w1) = eval_term(fuel, i, env, w);
            let c = eval_term(fuel, SpecTerm::Collapse(Box::new(i), rule), env, w);
            match r {
                Err(e) => c == (Err::<SpecEvalResult, SpecEvalError>(e), w1),
                Ok(x) => if x.admissible {
                    &&& c.0 matches Ok(y)
                    &&& y.admissible
                    &&& y.value == SpecValue::Collapsed(Box::new(x.value), rule)
                    &&& c.1 == recorded(w1, SpecEvent::Collapse { target: value_name(x.value), rule })
                } else {
                    c == (Err::<SpecEvalResult, SpecEvalError>(SpecEvalError::InadmissibleCollapse), w1)
                },
            }
        }),
{
    let f = (fuel - 1) as nat;
    if !exhausted(eval_term(f, i, env, w).0) {
        lemma_fuel_mono(f, i, env, w);
    }
}

/// Evaluating `pop i`: when `i` yields a value whose name is an option,
/// that option is removed, `Pop` of the name is appended to the history,
/// and the result is the value made admissible; a name that is not an
/// option fails, naming it, with the world as `i` left it; an error of `i`
/// is the error of the whole.
pub proof fn law_eval_pop(f: nat, i: SpecTerm, env: Seq<(Seq<char>, SpecValue)>, w: SpecWorld)
    ensures
        ({
            let (r1, w1) = eval_term(f, i, env, w);
            let (r, w2) = eval_term(f + 1, SpecTerm::Pop(Box::new(i)), env, w);
            match r1 {
                Err(e) => r == Err::<SpecEvalResult, SpecEvalError>(e) && w2 == w1,
                Ok(x) => if w1.options.contains(value_name(x.value)) {
                    &&& r is Ok
                    &&& r->Ok_0.value == SpecValue::Admissible(Box::new(x.value))
                    &&& r->Ok_0.admissible
                    &&& w2.options == w1.options.remove(value_name(x.value))
                    &&& w2.history == w1.history.push(SpecEvent::Pop(value_name(x.value)))
                    &&& w2.initial_size == w1.initial_size
                } else {
                    &&& r == Err::<SpecEvalResult, SpecEvalError>(
                        SpecEvalError::UnavailableOption(value_name(x.value)),
                    )
                    &&& w2 == w1
                },
            }
        }),
{
}

/// Evaluating `refuse i` with a reason keeps the options, appends the
/// refusal of the name of `i`'s value with that reason, and yields the value
/// refused with the reason, flagged not admissible.
pub proof fn law_eval_refuse(
    f: nat,
    i: SpecTerm,
    reason: crate::kernel::event::SpecReason,
    env: Seq<(Seq<char>, SpecValue)>,
    w: SpecWorld,
)
    ensures
        ({
            let (r1, w1) = eval_term(f, i, env, w);
            let (r, w2) = eval_term(f + 1, SpecTerm::Refuse(Box::new(i), reason), env, w);
            match r1 {
                Err(e) => r == Err::<SpecEvalResult, SpecEvalError>(e) && w2 == w1,
                Ok(x) => {
                    &&& r is Ok
                    &&& r->Ok_0.value == SpecValue::Refused(Box::new(x.value), reason)
                    &&& !r->Ok_0.admissible
                    &&& w2.options == w1.options
                    &&& w2.history == w1.history.push(
                        SpecEvent::Refuse { target: value_name(x.value), reason },
                    )
                    &&& w2.initial_size == w1.initial_size
                },
            }
        }),
{
}

/// Evaluating `collapse i` under a rule succeeds exactly when `i` yields a
/// result flagged admissible: it then keeps the options, appends the
/// collapse of the value's name under the rule, and yields the value
/// collapsed under the rule; otherwise it fails with the world as `i` left it.
pub proof fn law_eval_collapse_step(
    f: nat,
    i: SpecTerm,
    rule: SpecRule,
    env: Seq<(Seq<char>, SpecValue)>,
    w: SpecWorld,
)
    ensures
        ({
            let (r1, w1) = eval_term(f, i, env, w);
            let (r, w2) = eval_term(f + 1, SpecTerm::Collapse(Box::new(i), rule), env, w);
            match r1 {
                Err(e) => r == Err::<SpecEvalResult, SpecEvalError>(e) && w2 == w1,
                Ok(x) => if x.admissible {
                    &&& r is Ok
                    &&& r->Ok_0.value == SpecValue::Collapsed(Box::new(x.value), rule)
                    &&& r->Ok_0.admissible
                    &&& w2.options == w1.options
                    &&& w2.history == w1.history.push(
                        SpecEvent::Collapse { target: value_name(x.value), rule },
                    )
                    &&& w2.initial_size == w1.initial_size
                } else {
                    r == Err::<SpecEvalResult, SpecEvalError>(SpecEvalError::InadmissibleCollapse) && w2
                        == w1
                },
            }
        }),
{
}

/// Evaluating `bind a b` evaluates `a`, then `b`, appends a binding from
/// the name of `a`'s value to the name of `b`'s, keeps the options, and
/// yields the process from the first value to the second.
pub proof fn law_eval_bind(f: nat, a: SpecTerm, b: SpecTerm, env: Seq<(Seq<char>, SpecValue)>, w: SpecWorld)
    ensures
        ({
            let (ra, wa) = eval_term(f, a, env, w);
            let (rb, wb) = eval_term(f, b, env, wa);
            let (r, w2) = eval_term(f + 1, SpecTerm::Bind(Box::new(a), Box::new(b)), env, w);
            (ra, rb) matches (Ok(x), Ok(y)) ==> {
                &&& r is Ok
                &&& r->Ok_0.value == SpecValue::Process { from: Box::new(x.value), to: Box::new(y.value) }
                &&& r->Ok_0.admissible
                &&& w2.options == wb.options
                &&& w2.history == wb.history.push(
                    SpecEvent::Bind { name: value_name(x.value), target: value_name(y.value) },
                )
                &&& w2.initial_size == wb.initial_size
            }
        }),
{
}

/// A variable evaluates to the value of its latest binding, or to its own
/// symbol when unbound, and leaves the world as it was; `let` evaluates its
/// body with the name bound to the value, after the value's effects.
pub proof fn law_eval_var_let(
    f: nat,
    x: Seq<char>,
    v: SpecTerm,
    body: SpecTerm,
    env: Seq<(Seq<char>, SpecValue)>,
    w: SpecWorld,
)
    ensures
        ({
            let (r, w2) = eval_term(f + 1, SpecTerm::Var(x), env, w);
            &&& w2 == w
            &&& r is Ok
            &&& r->Ok_0.admissible
            &&& r->Ok_0.value == (match env_lookup(env, x) {
                Some(val) => val,
                None => SpecValue::Symbol(x),
            })
        }),
        ({
            let (rv, wv) = eval_term(f, v, env, w);
            let (r, w2) = eval_term(
                f + 1,
                SpecTerm::Let { name: x, value: Box::new(v), body: Box::new(body) },
                env,
                w,
            );
            rv matches Ok(val) ==> {
                let (rb, wb) = eval_term(f, body, env.push((x, val.value)), wv);
                &&& w2 == wb
                &&& (r is Ok <==> rb is Ok)
                &&& r is Ok ==> r->Ok_0.value == rb->Ok_0.value && r->Ok_0.admissible
                    == rb->Ok_0.admissible
            }
        }),
{
}

/// An abstraction evaluates to a closure over the current environment and
/// appends its introduction; applying a closure appends the application of
/// its parameter and evaluates its body with the parameter bound to the
/// argument's value; applying anything else fails, naming the value.
pub proof fn law_eval_lam_app(
    f: nat,
    param: Seq<char>,
    ty: SpecType,
    body: SpecTerm,
    fun: SpecTerm,
    arg: SpecTerm,
    env: Seq<(Seq<char>, SpecValue)>,
    w: SpecWorld,
)
    ensures
        eval_term(f + 1, SpecTerm::Lam { param, ty, body: Box::new(body) }, env, w) == (
            Ok::<SpecEvalResult, SpecEvalError>(
                SpecEvalResult {
                    value: SpecValue::Closure { param, param_ty: ty, body, env },
                    steps: seq![step("Lam"@, AdmissibilityStatus::Admissible)],
                    admissible: true,
                },
            ),
            SpecWorld {
                options: w.options,
                history: w.history.push(SpecEvent::LamIntro { param }),
                initial_size: w.initial_size,
            },
        ),
        ({
            let (rf, wf) = eval_term(f, fun, env, w);
            let (rx, wx) = eval_term(f, arg, env, wf);
            let (r, w2) = eval_term(f + 1, SpecTerm::App(Box::new(fun), Box::new(arg)), env, w);
            (rf, rx) matches (Ok(fv), Ok(xv)) ==> match fv.value {
                SpecValue::Closure { param: p, body: b, env: cenv, .. } => {
                    let w3 = SpecWorld {
                        options: wx.options,
                        history: wx.history.push(SpecEvent::Apply { fun: p, arg: "arg"@ }),
                        initial_size: wx.initial_size,
                    };
                    let (rb, wb) = eval_term(f, b, cenv.push((p, xv.value)), w3);
                    &&& w2 == wb
                    &&& (r is Ok <==> rb is Ok)
                    &&& r is Ok ==> r->Ok_0.value == rb->Ok_0.value && r->Ok_0.admissible
                        == rb->Ok_0.admissible
                },
                other => r == Err::<SpecEvalResult, SpecEvalError>(SpecEvalError::NotAFunction(other))
                    && w2 == wx,
            }
        }),
{
}

/// The empty sequence evaluates to unit, admissible, leaving the world
/// unchanged; a sequence of one term evaluates as that term does.
pub proof fn law_eval_sequence_ends(f: nat, t: SpecTerm, env: Seq<(Seq<char>, SpecValue)>, w: SpecWorld)
    ensures
        ({
            let (r, w2) = eval_term(f + 1, SpecTerm::Sequence(Seq::empty()), env, w);
            &&& w2 == w
            &&& r is Ok
            &&& r->Ok_0.value == SpecValue::Unit
            &&& r->Ok_0.admissible
        }),
        ({
            let (r1, w1) = eval_term(f, t, env, w);
            let (r, w2) = eval_term(f + 1, SpecTerm::Sequence(seq![t]), env, w);
            &&& w2 == w1
            &&& (r is Ok <==> r1 is Ok)
            &&& r is Ok ==> r->Ok_0.value == r1->Ok_0.value && r->Ok_0.admissible
                == r1->Ok_0.admissible
        }),
{
    let unit = SpecEvalResult { value: SpecValue::Unit, steps: Seq::empty(), admissible: true };
    let e = Seq::<SpecTerm>::empty();
    assert(eval_term(f + 1, SpecTerm::Sequence(e), env, w) == eval_sequence(f, e, env, w, Seq::empty(), unit));
    assert(eval_sequence(f, e, env, w, Seq::empty(), unit) == (Ok::<SpecEvalResult, SpecEvalError>(
        SpecEvalResult { value: SpecValue::Unit, steps: Seq::empty(), admissible: true },
    ), w));
    assert(seq![t].drop_first() =~= e);
    assert(seq![t][0] == t);
    assert(eval_term(f + 1, SpecTerm::Sequence(seq![t]), env, w) == eval_sequence(
        f,
        seq![t],
        env,
        w,
        Seq::empty(),
        unit,
    ));
    let (r1, w1) = eval_term(f, t, env, w);
    if let Ok(x) = r1 {
        assert(eval_sequence(f, seq![t], env, w, Seq::empty(), unit) == eval_sequence(
            f,
            Seq::<SpecTerm>::empty(),
            env,
            w1,
            Seq::<SpecStep>::empty() + x.steps,
            x,
        ));
    }
}

} // verus!
