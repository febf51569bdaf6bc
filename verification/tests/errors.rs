use lib::ir::event_ir::IrEvent;
use lib::types::checker::{check, is_admissible};
use lib::{
    eval_closed, infer, CollapseRule, Context, EvalError, IrBlock, Machine, OptionSpace,
    RefusalReason, Symbol, Term, Type, TypeError, VmError, World,
};

fn run_events(events: Vec<IrEvent>) -> Result<lib::Value, VmError> {
    let mut b = IrBlock::new("t");
    for e in events {
        b.emit(e);
    }
    let mut m = Machine::new(vec![Symbol::new("a")]);
    m.run(&b)
}

#[test]
fn machine_stack_underflow() {
    let e = run_events(vec![IrEvent::PushUnit, IrEvent::Apply]).unwrap_err();
    assert!(matches!(e, VmError::StackUnderflow));
    assert_eq!(e.to_text(), "vm: stack underflow");
}

#[test]
fn machine_unavailable_option() {
    let e = run_events(vec![IrEvent::Load("b".into()), IrEvent::Pop]).unwrap_err();
    assert_eq!(e.to_text(), "vm: unavailable option: b");
}

#[test]
fn machine_inadmissible_collapse() {
    let e = run_events(vec![
        IrEvent::Load("a".into()),
        IrEvent::Refuse(RefusalReason::NotAvailable),
        IrEvent::Collapse(CollapseRule::Identity),
    ])
    .unwrap_err();
    assert!(matches!(e, VmError::InadmissibleCollapse));
    assert_eq!(e.to_text(), "vm: inadmissible collapse");
}

#[test]
fn machine_unbalanced_scope() {
    let e = run_events(vec![IrEvent::CloseScope("s".into())]).unwrap_err();
    assert_eq!(e.to_text(), "vm: unbalanced scope: s");
}

#[test]
fn machine_value_is_top_or_unit() {
    assert!(matches!(run_events(vec![]).unwrap(), lib::Value::Unit));
    let v = run_events(vec![IrEvent::Load("a".into()), IrEvent::Pop, IrEvent::Return]).unwrap();
    assert_eq!(v.to_text(), "Admissible(a)");
}

#[test]
fn eval_errors() {
    let e = eval_closed(&Term::app(Term::var("f"), Term::var("x"))).unwrap_err();
    assert!(matches!(e, EvalError::NotAFunction(_)));
    assert_eq!(e.to_text(), "not a function: f");
    let e = eval_closed(&Term::pop(Term::var("x"))).unwrap_err();
    assert_eq!(e.to_text(), "unavailable option: x");
    let e = eval_closed(&Term::collapse_id(Term::refuse(Term::var("x"), RefusalReason::NotAvailable))).unwrap_err();
    assert!(matches!(e, EvalError::InadmissibleCollapse));
    assert_eq!(e.to_text(), "inadmissible collapse");
}

#[test]
fn core_errors() {
    let mut w = World::new(OptionSpace::new(vec![Symbol::new("x")]));
    let e = w.pop(Symbol::new("y")).unwrap_err();
    assert_eq!(e.to_text(), "cannot pop unavailable option: y");
    let e = w.close_scope(Symbol::new("s")).unwrap_err();
    assert_eq!(e.to_text(), "unbalanced scope: s");
    assert_eq!(w.history.len(), 0);
    assert!(w.options.contains(&Symbol::new("x")));
}

#[test]
fn type_errors() {
    let ctx = Context::open();
    let e = infer(&ctx, &Term::app(Term::Universe(0), Term::var("x"))).unwrap_err();
    assert!(matches!(e, TypeError::NotAFunction(_)));
    assert_eq!(e.to_text(), "expected function type, got Type1");
    let e = check(&ctx, &Term::var("x"), &Type::Never).unwrap_err();
    assert_eq!(e.to_text(), "type mismatch: expected Never, got Unit");
    let e = infer(&ctx, &Term::collapse_id(Term::var("x"))).unwrap_err();
    assert_eq!(e.to_text(), "inadmissible collapse of type Unit (must be Admissible(_))");
    assert!(is_admissible(&ctx, &Term::pop(Term::var("x"))));
    assert!(!is_admissible(&ctx, &Term::var("x")));
}

#[test]
fn machine_applying_a_non_closure_fails() {
    let e = run_events(vec![IrEvent::Load("f".into()), IrEvent::Load("x".into()), IrEvent::Apply]).unwrap_err();
    assert!(matches!(e, VmError::NotAFunction));
    assert_eq!(e.to_text(), "vm: not a function");
}

#[test]
fn machine_sequences_and_forget() {
    let v = run_events(vec![
        IrEvent::Load("a".into()),
        IrEvent::Store("x".into()),
        IrEvent::BeginSeq,
        IrEvent::PushUnit,
        IrEvent::Load("x".into()),
        IrEvent::EndSeq,
        IrEvent::Forget,
        IrEvent::Load("x".into()),
        IrEvent::Bind,
    ])
    .unwrap();
    assert_eq!(v.to_text(), "Process(a ~> x)");
    let v = run_events(vec![IrEvent::BeginSeq, IrEvent::EndSeq]).unwrap();
    assert!(matches!(v, lib::Value::Unit));
}
