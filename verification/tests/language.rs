use lib::ir::event_ir::IrEvent;
use lib::kernel::event::Event;
use lib::{
    compile, eval_closed, eval_with_options, infer, infer_closed, infer_open, run, run_strict,
    CollapseRule, Context, Machine, RefusalReason, Symbol, Term, Type, TypeError, TypeMode, Value,
};

// ════════════════════════════════════════════════════════════════════════
// Type system
// ════════════════════════════════════════════════════════════════════════

#[test]
fn pop_wraps_in_admissible() {
    let ctx = Context::open().extend(&Symbol::new("x"), Type::Unit);
    let ty = infer(&ctx, &Term::pop(Term::var("x"))).unwrap();
    assert_eq!(ty, Type::Admissible(Box::new(Type::Unit)));
}

#[test]
fn collapse_of_non_admissible_is_type_error() {
    let ctx = Context::open().extend(&Symbol::new("x"), Type::Unit);
    let term = Term::collapse(Term::var("x"), CollapseRule::Identity);
    let err = infer(&ctx, &term).unwrap_err();
    assert!(matches!(err, TypeError::InadmissibleCollapse(_)));
}

#[test]
fn collapse_of_admissible_carries_rule() {
    let ctx = Context::open().extend(&Symbol::new("x"), Type::Admissible(Box::new(Type::Unit)));
    let ty = infer(&ctx, &Term::collapse(Term::var("x"), CollapseRule::LastWrite)).unwrap();
    assert!(matches!(ty, Type::Collapsed { rule: CollapseRule::LastWrite, .. }));
}

#[test]
fn refuse_wraps_with_reason_in_type() {
    let ctx = Context::open();
    let term = Term::refuse(Term::var("x"), RefusalReason::Explicit("test".into()));
    let ty = infer(&ctx, &term).unwrap();
    assert!(matches!(ty, Type::Refused { reason: RefusalReason::Explicit(_), .. }));
}

#[test]
fn closed_world_rejects_free_variables() {
    let err = infer_closed(&Term::var("unknown")).unwrap_err();
    assert!(matches!(err, TypeError::UnboundVariable(_)));
}

#[test]
fn open_world_accepts_free_variables_as_unit() {
    let ty = infer_open(&Term::var("unknown")).unwrap();
    assert_eq!(ty, Type::Unit);
}

#[test]
fn mode_is_preserved_through_extend() {
    let ctx = Context::closed();
    let ext = ctx.extend(&Symbol::new("x"), Type::Unit);
    assert_eq!(ext.mode, TypeMode::ClosedWorld);
}

// ════════════════════════════════════════════════════════════════════════
// Evaluator
// ════════════════════════════════════════════════════════════════════════

#[test]
fn eval_pop_produces_admissible_value_and_pops_option() {
    let (res, world) = eval_with_options(&Term::pop(Term::var("x")), vec![Symbol::new("x")]).unwrap();
    assert!(matches!(res.value, Value::Admissible(_)));
    assert!(world.options.is_empty());
    assert_eq!(world.history.pop_count(), 1);
}

#[test]
fn eval_refuse_carries_reason_in_value() {
    let reason = RefusalReason::Explicit("test".into());
    let (res, world) = eval_closed(&Term::refuse(Term::var("x"), reason.clone())).unwrap();
    assert!(!res.admissible);
    assert!(matches!(&res.value, Value::Refused(_, r) if r == &reason));
    let ev = &world.history.events()[0];
    assert!(matches!(ev, Event::Refuse { reason: r, .. } if r == &reason));
}

#[test]
fn eval_collapse_of_refused_is_runtime_error() {
    let term = Term::collapse(
        Term::refuse(Term::var("x"), RefusalReason::NotAvailable),
        CollapseRule::Identity,
    );
    assert!(eval_closed(&term).is_err());
}

#[test]
fn eval_bind_records_event() {
    let (_, world) = eval_closed(&Term::bind(Term::var("a"), Term::var("b"))).unwrap();
    assert!(world.history.events().iter().any(|e| matches!(e, Event::Bind { .. })));
}

#[test]
fn eval_seq_returns_last() {
    let term = Term::seq(vec![Term::var("a"), Term::var("b"), Term::var("c")]);
    let (res, _) = eval_closed(&term).unwrap();
    assert!(matches!(&res.value, Value::Symbol(s) if s.0 == "c"));
}

// ════════════════════════════════════════════════════════════════════════
// Compiler correctness = history equivalence
// ════════════════════════════════════════════════════════════════════════

fn assert_same_history(term: &Term) {
    let (_, world_interp) = eval_closed(term).unwrap();
    let block = compile(term);
    let mut machine = Machine::empty();
    machine.run(&block).unwrap();
    assert_eq!(
        world_interp.history,
        machine.world.history,
        "I(p).history != V(C(p)).history\n  interp:   {}\n  compiled: {}",
        world_interp.history.to_text(),
        machine.world.history.to_text(),
    );
}

#[test]
fn compiler_correctness_refuse_with_reason() {
    assert_same_history(&Term::refuse(
        Term::var("x"),
        RefusalReason::ConstraintViolation(Symbol::new("c")),
    ));
}

#[test]
fn compiler_correctness_bind() {
    assert_same_history(&Term::bind(Term::var("a"), Term::var("b")));
}

#[test]
fn compiler_correctness_seq_of_refuses() {
    assert_same_history(&Term::seq(vec![
        Term::refuse(Term::var("a"), RefusalReason::NotAvailable),
        Term::refuse(Term::var("b"), RefusalReason::Explicit("second".into())),
    ]));
}

#[test]
fn compiler_correctness_mixed_bind_refuse() {
    assert_same_history(&Term::seq(vec![
        Term::bind(Term::var("src"), Term::var("dst")),
        Term::refuse(Term::var("src"), RefusalReason::AlreadyRefused(Symbol::new("src"))),
    ]));
}

#[test]
fn compiler_correctness_lambda() {
    assert_same_history(&Term::lam("x", Type::Unit, Term::var("x")));
}

#[test]
fn compiler_correctness_application() {
    let term = Term::app(
        Term::lam("x", Type::Unit, Term::pop(Term::var("x"))),
        Term::var("a"),
    );
    let (res, wi) = eval_with_options(&term, vec![Symbol::new("a")]).unwrap();
    let mut machine = Machine::new(vec![Symbol::new("a")]);
    let v = machine.run(&compile(&term)).unwrap();
    assert_eq!(wi.history, machine.world.history);
    assert_eq!(wi.history.to_text(), "[λ(x), apply(x, arg), pop(a)]");
    assert_eq!(v.to_text(), res.value.to_text());
    assert_eq!(v.to_text(), "Admissible(a)");
    assert!(machine.world.options.is_empty());
}

#[test]
fn compiler_correctness_let_scoping_and_collapse() {
    assert_same_history(&Term::seq(vec![
        Term::let_in("x", Term::refuse(Term::var("a"), RefusalReason::NotAvailable), Term::collapse_id(Term::var("x"))),
        Term::refuse(Term::var("x"), RefusalReason::NotAvailable),
        Term::refuse(Term::seq(vec![]), RefusalReason::NotAvailable),
        Term::bind(Term::var("a"), Term::ann(Term::var("a"), Type::Unit)),
    ]));
}

#[test]
fn compiler_agrees_on_failure() {
    let term = Term::seq(vec![
        Term::bind(Term::var("a"), Term::var("b")),
        Term::collapse_id(Term::refuse(Term::var("a"), RefusalReason::NotAvailable)),
        Term::pop(Term::var("c")),
    ]);
    let mut wi = lib::World::empty();
    assert!(lib::eval(&term, &lib::Env::new(), &mut wi).is_err());
    let mut machine = Machine::empty();
    assert!(machine.run(&compile(&term)).is_err());
    assert_eq!(wi.history, machine.world.history);
    assert_eq!(machine.world.history.len(), 2);
}

#[test]
fn compile_keeps_the_events_of_a_sequence() {
    let term = Term::seq(vec![
        Term::bind(Term::var("src"), Term::var("dst")),
        Term::refuse(Term::var("src"), RefusalReason::AlreadyRefused(Symbol::new("src"))),
    ]);
    let block = compile(&term);
    assert_eq!(block.name, "main");
    assert_eq!(
        block.events,
        vec![
            IrEvent::BeginSeq,
            IrEvent::Load("src".into()),
            IrEvent::Load("dst".into()),
            IrEvent::Bind,
            IrEvent::Load("src".into()),
            IrEvent::Refuse(RefusalReason::AlreadyRefused(Symbol::new("src"))),
            IrEvent::EndSeq,
            IrEvent::Return,
        ]
    );
}

#[test]
fn compiler_correctness_nested_sequence() {
    assert_same_history(&Term::bind(
        Term::var("a"),
        Term::seq(vec![Term::var("b"), Term::refuse(Term::var("c"), RefusalReason::NotAvailable)]),
    ));
    assert_same_history(&Term::bind(Term::var("a"), Term::seq(vec![])));
}

#[test]
fn compiler_full_faithfulness_observational() {
    let term = Term::bind(Term::var("a"), Term::var("b"));
    let (_, wi) = eval_closed(&term).unwrap();
    let block = compile(&term);
    let mut machine = Machine::empty();
    machine.run(&block).unwrap();
    let obs_i = wi.observe(&CollapseRule::Identity);
    let obs_c = machine.world.observe(&CollapseRule::Identity);
    assert_eq!(obs_i, obs_c);
}

// ════════════════════════════════════════════════════════════════════════
// Integration and run helpers
// ════════════════════════════════════════════════════════════════════════

#[test]
fn run_open_world_smoke() {
    assert!(run("refuse x", &[]).is_ok());
}

#[test]
fn run_strict_closed_world_rejects_free_var() {
    assert!(run_strict("refuse x", &[]).is_err());
}

#[test]
fn admissibility_invariant_end_to_end() {
    let (res, world) =
        eval_with_options(&Term::pop(Term::var("resource")), vec![Symbol::new("resource")]).unwrap();
    assert!(res.admissible);
    assert!(world.history.ever_popped(&Symbol::new("resource")));
    assert!(world.options.is_empty());
    assert!(world.verify_conservation().is_ok());
}
