use lib::kernel::event::Event;
use lib::kernel::history::History;
use lib::{
    eval_closed, infer_open, run, run_strict, CollapseRule, OptionSpace, RefusalReason, Symbol, Term, Type, TypeMode,
    Value, World,
};

#[test]
fn texts_of_histories_and_options() {
    let mut w = World::new(OptionSpace::new(vec![Symbol::new("b"), Symbol::new("a"), Symbol::new("c")]));
    assert_eq!(w.options.to_text(), "{a, b, c}");
    w.pop(Symbol::new("a")).unwrap();
    w.refuse(Symbol::new("b"), RefusalReason::ConstraintViolation(Symbol::new("k")));
    w.bind(Symbol::new("b"), Symbol::new("c"));
    w.collapse(Symbol::new("c"), CollapseRule::Projection(Symbol::new("p")));
    assert_eq!(
        w.history.to_text(),
        "[pop(a), refuse(b ∵ constraint:k), bind(b → c), collapse(c via proj:p)]"
    );
    assert_eq!(History::new().to_text(), "[]");
}

#[test]
fn texts_of_terms_and_types() {
    let t = Term::seq(vec![
        Term::pop(Term::var("x")),
        Term::refuse(Term::var("y"), RefusalReason::NotAvailable),
        Term::collapse(Term::var("z"), CollapseRule::LastWrite),
        Term::Universe(0),
        Term::Universe(4),
    ]);
    assert_eq!(
        t.to_text(),
        "seq[pop(x); refuse(y ∵ not-available); collapse(z via last-write); Type; Type4]"
    );
    let l = Term::lam("x", Type::Unit, Term::app(Term::var("f"), Term::var("x")));
    assert_eq!(l.to_text(), "(λx : Unit . (f x))");
    assert_eq!(Type::Universe(2).to_text(), "Type2");
    assert_eq!(Type::Admissible(Box::new(Type::Universe(0))).to_text(), "Admissible(Type)");
}

#[test]
fn texts_of_values_and_events() {
    let (res, _) = eval_closed(&Term::refuse(Term::var("q"), RefusalReason::Explicit("m".into()))).unwrap();
    assert_eq!(res.value.to_text(), "Refused(q ∵ explicit:m)");
    assert_eq!(Value::Unit.to_text(), "()");
    assert_eq!(Event::Pop(Symbol::new("s")).to_text(), "pop(s)");
    assert_eq!(Event::LamIntro { param: Symbol::new("p") }.to_text(), "λ(p)");
}

#[test]
fn texts_of_observations_and_modes() {
    let mut w = World::new(OptionSpace::new(vec![Symbol::new("x")]));
    w.pop(Symbol::new("x")).unwrap();
    w.refuse(Symbol::new("y"), RefusalReason::NotAvailable);
    let obs = w.observe(&CollapseRule::Accumulate);
    assert_eq!(obs.to_text(), "ObsState[accumulate]{x:1 | refused:1}");
    assert_eq!(TypeMode::OpenWorld.to_text(), "open-world");
    assert_eq!(TypeMode::ClosedWorld.to_text(), "closed-world");
}

#[test]
fn run_reports_each_stage() {
    assert_eq!(
        run("4294967295", &[]).unwrap_err(),
        "type error: universe level 4294967295 used at level 4294967295"
    );
    assert_eq!(
        run_strict("refuse x", &[]).unwrap_err(),
        "type error: unbound variable: x (closed-world mode)"
    );
    assert_eq!(run(")", &[]).unwrap_err(), "parse error: unexpected token in atom: RParen");
    assert_eq!(run("pop x", &[]).unwrap_err(), "eval error: unavailable option: x");
    let (v, w) = run("pop x", &["x"]).unwrap();
    assert_eq!(v.to_text(), "Admissible(x)");
    assert!(w.options.is_empty());
    assert_eq!(run("4294967294", &[]).unwrap().0.to_text(), "Type(Type4294967294)");
}

#[test]
fn unreached_top_universe_is_no_obstacle() {
    let t = Term::app(Term::var("f"), Term::Universe(u32::MAX));
    assert_eq!(infer_open(&t).unwrap_err().to_text(), "expected function type, got Unit");
}

#[test]
fn text_of_a_geometry() {
    let mut w = World::new(OptionSpace::new(vec![Symbol::new("x"), Symbol::new("y")]));
    w.pop(Symbol::new("x")).unwrap();
    assert_eq!(w.reachability_geometry().to_text(), "R{adm:2, avail:1, reach:1}");
}
