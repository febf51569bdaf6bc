//! Replay equivalence: running the compiled form of a term on the machine
//! leaves the world that interpreting the term leaves.

use vstd::prelude::*;
use crate::kernel::SpecWorld;
use crate::kernel::event::SpecRule;
use crate::kernel::observable::derive_observation;
use crate::syntax::ast::SpecTerm;
use crate::eval::value::SpecValue;
use crate::eval::interpreter::{
    eval_sequence, eval_term, exhausted, SpecEvalError, SpecEvalResult, SpecStep,
};
use crate::ir::event_ir::SpecIr;
use crate::vm::machine::{compiled, machine_run, machine_step, top_or_unit, SpecMachine, SpecVmError};
use crate::compiler::lower::{lower_all, lower_term};

verus! {

/// A run of the machine from `m` replays the interpretation `ev`: it leaves
/// the same world, fails exactly when the interpretation fails, and on
/// success leaves `m` with the interpreted value, flagged as the
/// interpretation flags it, pushed on its stack.
pub open spec fn replayed(
    ev: (Result<SpecEvalResult, SpecEvalError>, SpecWorld),
    run: (SpecMachine, Option<SpecVmError>),
    m: SpecMachine,
) -> bool {
    &&& run.0.world == ev.1
    &&& (ev.0 is Ok <==> run.1 is None)
    &&& (ev.0 matches Ok(r) ==> run.0 == SpecMachine {
        stack: m.stack.push((r.value, r.admissible)),
        env: m.env,
        world: ev.1,
        marks: m.marks,
    })
}

/// Running `a` then `b` is running their concatenation.
pub proof fn lemma_run_append(fuel: nat, m: SpecMachine, a: Seq<SpecIr>, b: Seq<SpecIr>)
    ensures
        machine_run(fuel, m, a + b) == (if machine_run(fuel, m, a).1 is None {
            machine_run(fuel, machine_run(fuel, m, a).0, b)
        } else {
            machine_run(fuel, m, a)
        }),
    decreases a.len(),
{
    if a.len() == 0 {
        assert(a + b =~= b);
    } else {
        assert((a + b)[0] == a[0]);
        assert((a + b).drop_first() =~= a.drop_first() + b);
        lemma_run_append(fuel, machine_step(fuel, m, a[0]).0, a.drop_first(), b);
    }
}

/// Running one event is one step.
pub proof fn lemma_run_single(fuel: nat, m: SpecMachine, e: SpecIr)
    ensures
        machine_run(fuel, m, seq![e]) == machine_step(fuel, m, e),
{
    assert(seq![e].drop_first() =~= Seq::<SpecIr>::empty());
    assert(machine_run(fuel, machine_step(fuel, m, e).0, Seq::<SpecIr>::empty()) == (
    machine_step(fuel, m, e).0, None::<SpecVmError>));
}

/// Running `a` and then the single event `e`.
proof fn lemma_run_then(fuel: nat, m: SpecMachine, a: Seq<SpecIr>, e: SpecIr)
    ensures
        machine_run(fuel, m, a + seq![e]) == (if machine_run(fuel, m, a).1 is None {
            machine_step(fuel, machine_run(fuel, m, a).0, e)
        } else {
            machine_run(fuel, m, a)
        }),
{
    lemma_run_append(fuel, m, a, seq![e]);
    lemma_run_single(fuel, machine_run(fuel, m, a).0, e);
}

/// Interpreting `t` with depth `f` and running its compiled events on a
/// machine with at least as much depth, whose environment and world are
/// those of the interpretation, agree, unless the interpretation ran out of
/// depth.
proof fn lemma_replay(
    f: nat,
    mf: nat,
    t: SpecTerm,
    env: Seq<(Seq<char>, SpecValue)>,
    w: SpecWorld,
    m: SpecMachine,
)
    requires
        f <= mf,
        m.env == env,
        m.world == w,
        !exhausted(eval_term(f, t, env, w).0),
    ensures
        replayed(eval_term(f, t, env, w), machine_run(mf, m, lower_term(t)), m),
    decreases f, 1nat, 0nat,
{
    assert(f > 0);
    let g = (f - 1) as nat;
    match t {
        SpecTerm::Var(x) => {
            lemma_run_single(mf, m, SpecIr::Load(x));
        },
        SpecTerm::Universe(n) => {
            lemma_run_single(mf, m, SpecIr::PushType(n));
        },
        SpecTerm::Pi { .. } => {
            lemma_run_single(mf, m, SpecIr::PushUnitType);
        },
        SpecTerm::Lam { param, ty, body } => {
            lemma_run_single(mf, m, SpecIr::Lambda { param, ty, body: *body });
        },
        SpecTerm::Ann(i, _) => {
            lemma_replay(g, mf, *i, env, w, m);
        },
        SpecTerm::Pop(i) => {
            let li = lower_term(*i);
            assert(lower_term(t) =~= li + seq![SpecIr::Pop]);
            lemma_replay(g, mf, *i, env, w, m);
            lemma_run_then(mf, m, li, SpecIr::Pop);
            let run1 = machine_run(mf, m, li);
            if run1.1 is None {
                assert(run1.0.stack.drop_last() =~= m.stack);
            }
        },
        SpecTerm::Refuse(i, reason) => {
            let li = lower_term(*i);
            assert(lower_term(t) =~= li + seq![SpecIr::Refuse(reason)]);
            lemma_replay(g, mf, *i, env, w, m);
            lemma_run_then(mf, m, li, SpecIr::Refuse(reason));
            let run1 = machine_run(mf, m, li);
            if run1.1 is None {
                assert(run1.0.stack.drop_last() =~= m.stack);
            }
        },
        SpecTerm::Collapse(i, rule) => {
            let li = lower_term(*i);
            assert(lower_term(t) =~= li + seq![SpecIr::Collapse(rule)]);
            lemma_replay(g, mf, *i, env, w, m);
            lemma_run_then(mf, m, li, SpecIr::Collapse(rule));
            let run1 = machine_run(mf, m, li);
            if run1.1 is None {
                assert(run1.0.stack.drop_last() =~= m.stack);
            }
        },
        SpecTerm::Bind(a, b) => {
            let la = lower_term(*a);
            let lb = lower_term(*b);
            assert(lower_term(t) == la + lb + seq![SpecIr::Bind]);
            lemma_replay(g, mf, *a, env, w, m);
            let r1 = eval_term(g, *a, env, w);
            let run1 = machine_run(mf, m, la);
            lemma_run_append(mf, m, la, lb);
            lemma_run_then(mf, m, la + lb, SpecIr::Bind);
            if r1.0 is Ok {
                lemma_replay(g, mf, *b, env, r1.1, run1.0);
                let run2 = machine_run(mf, run1.0, lb);
                if run2.1 is None {
                    assert(run2.0.stack.drop_last().drop_last() =~= m.stack);
                    assert(run2.0.stack.drop_last().last() == run1.0.stack.last());
                }
            }
        },
        SpecTerm::Let { name, value, body } => {
            let lv = lower_term(*value);
            let lb = lower_term(*body);
            let st = seq![SpecIr::Store(name)];
            assert(lower_term(t) == lv + st + lb + seq![SpecIr::Forget]);
            lemma_replay(g, mf, *value, env, w, m);
            let r1 = eval_term(g, *value, env, w);
            let run1 = machine_run(mf, m, lv);
            lemma_run_then(mf, m, lv, SpecIr::Store(name));
            lemma_run_append(mf, m, lv + st, lb);
            lemma_run_then(mf, m, lv + st + lb, SpecIr::Forget);
            if r1.0 is Ok {
                let v = r1.0->Ok_0.value;
                let m1 = machine_step(mf, run1.0, SpecIr::Store(name)).0;
                assert(run1.0.stack.drop_last() =~= m.stack);
                assert(m1.env == env.push((name, v)));
                lemma_replay(g, mf, *body, env.push((name, v)), r1.1, m1);
                let run2 = machine_run(mf, m1, lb);
                if run2.1 is None {
                    assert(env.push((name, v)).drop_last() =~= env);
                }
            }
        },
        SpecTerm::App(fun, arg) => {
            let lf = lower_term(*fun);
            let lx = lower_term(*arg);
            assert(lower_term(t) == lf + lx + seq![SpecIr::Apply]);
            lemma_replay(g, mf, *fun, env, w, m);
            let r1 = eval_term(g, *fun, env, w);
            let run1 = machine_run(mf, m, lf);
            lemma_run_append(mf, m, lf, lx);
            lemma_run_then(mf, m, lf + lx, SpecIr::Apply);
            if r1.0 is Ok {
                lemma_replay(g, mf, *arg, env, r1.1, run1.0);
                let r2 = eval_term(g, *arg, env, r1.1);
                let run2 = machine_run(mf, run1.0, lx);
                if r2.0 is Ok {
                    let fv = r1.0->Ok_0.value;
                    let xv = r2.0->Ok_0.value;
                    assert(run2.0.stack.drop_last().drop_last() =~= m.stack);
                    assert(run2.0.stack.drop_last().last().0 == fv);
                    assert(run2.0.stack.last().0 == xv);
                    match fv {
                        SpecValue::Closure { param, body, env: cenv, .. } => {
                            let mg = (mf - 1) as nat;
                            let w3 = crate::kernel::recorded(
                                r2.1,
                                crate::kernel::event::SpecEvent::Apply { fun: param, arg: "arg"@ },
                            );
                            let inner = SpecMachine {
                                stack: m.stack,
                                env: cenv.push((param, xv)),
                                world: w3,
                                marks: m.marks,
                            };
                            lemma_replay(g, mg, body, cenv.push((param, xv)), w3, inner);
                            let lbody = lower_term(body);
                            assert(compiled(body) =~= lbody + seq![SpecIr::Return]);
                            lemma_run_then(mg, inner, lbody, SpecIr::Return);
                        },
                        _ => {},
                    }
                }
            }
        },
        SpecTerm::Sequence(ts) => {
            let unit = SpecEvalResult { value: SpecValue::Unit, steps: Seq::empty(), admissible: true };
            assert(eval_term(f, t, env, w) == eval_sequence(g, ts, env, w, Seq::<SpecStep>::empty(), unit));
            let bs = seq![SpecIr::BeginSeq];
            let la = lower_all(ts);
            assert(lower_term(t) == bs + la + seq![SpecIr::EndSeq]);
            lemma_run_single(mf, m, SpecIr::BeginSeq);
            lemma_run_append(mf, m, bs, la);
            lemma_run_then(mf, m, bs + la, SpecIr::EndSeq);
            let mb = machine_step(mf, m, SpecIr::BeginSeq).0;
            assert(mb.marks.drop_last() =~= m.marks);
            if ts.len() == 0 {
                assert(la == Seq::<SpecIr>::empty());
                assert(machine_run(mf, mb, la) == (mb, None::<SpecVmError>));
            } else {
                lemma_replay_all(g, mf, ts, env, w, Seq::empty(), unit, mb);
                let run = machine_run(mf, mb, la);
                if run.1 is None {
                    assert(run.0.stack.take(m.stack.len() as int).push(run.0.stack.last()) =~= m.stack.push(
                        run.0.stack.last(),
                    ));
                }
            }
        },
    }
}

/// The terms of a non-empty sequence replay in order, each pushing its value
/// on the stack; the last value ends on top.
proof fn lemma_replay_all(
    fuel: nat,
    mf: nat,
    ts: Seq<SpecTerm>,
    env: Seq<(Seq<char>, SpecValue)>,
    w: SpecWorld,
    acc: Seq<SpecStep>,
    last: SpecEvalResult,
    m: SpecMachine,
)
    requires
        fuel <= mf,
        ts.len() > 0,
        m.env == env,
        m.world == w,
        !exhausted(eval_sequence(fuel, ts, env, w, acc, last).0),
    ensures
        ({
            let ev = eval_sequence(fuel, ts, env, w, acc, last);
            let run = machine_run(mf, m, lower_all(ts));
            &&& run.0.world == ev.1
            &&& (ev.0 is Ok <==> run.1 is None)
            &&& (ev.0 matches Ok(r) ==> {
                &&& run.0.env == m.env
                &&& run.0.marks == m.marks
                &&& run.0.stack.len() > m.stack.len()
                &&& run.0.stack.last() == (r.value, r.admissible)
                &&& forall|i: int| 0 <= i < m.stack.len() ==> run.0.stack[i] == m.stack[i]
            })
        }),
    decreases fuel + 1, 0nat, ts.len(),
{
    let r0 = eval_term(fuel, ts[0], env, w);
    let rest = ts.drop_first();
    let l0 = lower_term(ts[0]);
    let lr = lower_all(rest);
    assert(lower_all(ts) == l0 + lr);
    lemma_replay(fuel, mf, ts[0], env, w, m);
    lemma_run_append(mf, m, l0, lr);
    let run1 = machine_run(mf, m, l0);
    if r0.0 is Ok {
        let x = r0.0->Ok_0;
        assert(eval_sequence(fuel, ts, env, w, acc, last) == eval_sequence(
            fuel,
            rest,
            env,
            r0.1,
            acc + x.steps,
            x,
        ));
        if ts.len() == 1 {
            assert(rest.len() == 0);
            assert(lr == Seq::<SpecIr>::empty());
            assert(machine_run(mf, run1.0, lr) == (run1.0, None::<SpecVmError>));
        } else {
            lemma_replay_all(fuel, mf, rest, env, r0.1, acc + x.steps, x, run1.0);
            let run2 = machine_run(mf, run1.0, lr);
            if run2.1 is None {
                assert forall|i: int| 0 <= i < m.stack.len() implies run2.0.stack[i] == m.stack[i] by {
                    assert(run2.0.stack[i] == run1.0.stack[i]);
                    assert(run1.0.stack[i] == m.stack[i]);
                }
            }
        }
    }
}

/// The machine with an empty stack and environment over `w`.
pub open spec fn fresh_machine(w: SpecWorld) -> SpecMachine {
    SpecMachine { stack: Seq::empty(), env: Seq::empty(), world: w, marks: Seq::empty() }
}

/// Replay equivalence (compiler correctness): interpreting `t` in the empty
/// environment against world `w` with depth `fuel`, and running its compiled
/// block on a machine with an empty stack and environment over `w` with at
/// least as much depth, leave the same world, hence the same history and the
/// same options, unless the interpretation ran out of depth. The run fails
/// exactly when the interpretation fails, and on success it yields the
/// interpreted value.
pub proof fn law_replay_equivalence(t: SpecTerm, w: SpecWorld, fuel: nat, depth: nat)
    requires
        fuel <= depth,
        !exhausted(eval_term(fuel, t, Seq::empty(), w).0),
    ensures
        machine_run(depth, fresh_machine(w), compiled(t)).0.world == eval_term(
            fuel,
            t,
            Seq::empty(),
            w,
        ).1,
        (machine_run(depth, fresh_machine(w), compiled(t)).1 is None) == (eval_term(
            fuel,
            t,
            Seq::empty(),
            w,
        ).0 is Ok),
        eval_term(fuel, t, Seq::empty(), w).0 matches Ok(r) ==> top_or_unit(
            machine_run(depth, fresh_machine(w), compiled(t)).0.stack,
        ) == r.value,
{
    let m = fresh_machine(w);
    let l = lower_term(t);
    assert(compiled(t) =~= l + seq![SpecIr::Return]);
    lemma_replay(fuel, depth, t, Seq::empty(), w, m);
    lemma_run_then(depth, m, l, SpecIr::Return);
}

/// Full faithfulness on observations: under every collapse rule, the run of
/// a compiled term is observed as its interpretation is, unless the
/// interpretation ran out of depth.
pub proof fn law_replay_observations(t: SpecTerm, w: SpecWorld, fuel: nat, depth: nat, rule: SpecRule)
    requires
        fuel <= depth,
        !exhausted(eval_term(fuel, t, Seq::empty(), w).0),
    ensures
        derive_observation(machine_run(depth, fresh_machine(w), compiled(t)).0.world.history, rule)
            == derive_observation(eval_term(fuel, t, Seq::empty(), w).1.history, rule),
{
    law_replay_equivalence(t, w, fuel, depth);
}

} // verus!
