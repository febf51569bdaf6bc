use lib::kernel::event::Event;
use lib::kernel::history::History;
use lib::kernel::observable::ObservableState;
use lib::{
    compile, eval_with_options, fibre, CollapseRule, Machine, OptionSpace, RefusalReason, Symbol,
    Term, World,
};

#[test]
fn replay_keeps_world_and_value_with_options() {
    let term = Term::seq(vec![
        Term::pop(Term::var("x")),
        Term::refuse(Term::var("y"), RefusalReason::NotAvailable),
        Term::bind(Term::pop(Term::var("z")), Term::var("w")),
    ]);
    let opts = vec![Symbol::new("x"), Symbol::new("z"), Symbol::new("q")];
    let (res, wi) = eval_with_options(&term, opts.clone()).unwrap();
    let block = compile(&term);
    let mut m = Machine::new(opts);
    let top = m.run(&block).unwrap();
    assert_eq!(wi.history, m.world.history);
    assert_eq!(wi.options, m.world.options);
    assert_eq!(wi.initial_size, m.world.initial_size);
    assert_eq!(top.to_text(), res.value.to_text());
}

#[test]
fn replay_of_let_in_tail_position() {
    let term = Term::let_in("v", Term::pop(Term::var("a")), Term::collapse(Term::var("v"), CollapseRule::Accumulate));
    let opts = vec![Symbol::new("a")];
    let (_, wi) = eval_with_options(&term, opts.clone()).unwrap();
    let mut m = Machine::new(opts);
    m.run(&compile(&term)).unwrap();
    assert_eq!(wi.history, m.world.history);
}

#[test]
fn lambdas_are_recorded_alike_by_the_machine() {
    let term = Term::lam("x", lib::Type::Unit, Term::var("x"));
    let (_, wi) = lib::eval_closed(&term).unwrap();
    let mut m = Machine::empty();
    m.run(&compile(&term)).unwrap();
    assert_eq!(wi.history.len(), 1);
    assert_eq!(m.world.history, wi.history);
}

#[test]
fn accumulate_ignores_swapped_adjacent_events() {
    let mut h1 = History::new();
    h1.append(Event::Pop(Symbol::new("a")));
    h1.append(Event::Refuse { target: Symbol::new("b"), reason: RefusalReason::NotAvailable });
    h1.append(Event::Pop(Symbol::new("c")));
    let mut h2 = History::new();
    h2.append(Event::Pop(Symbol::new("a")));
    h2.append(Event::Pop(Symbol::new("c")));
    h2.append(Event::Refuse { target: Symbol::new("b"), reason: RefusalReason::NotAvailable });
    let o1 = ObservableState::derive(&h1, &CollapseRule::Accumulate);
    let o2 = ObservableState::derive(&h2, &CollapseRule::Accumulate);
    assert_eq!(o1.entries, o2.entries);
    assert_eq!(o1.entries.get("a"), Some(1));
    assert_eq!(o1.entries.get("b"), None);
}

#[test]
fn refusal_is_permanent_with_first_reason() {
    let mut w = World::new(OptionSpace::new(vec![Symbol::new("x")]));
    w.refuse(Symbol::new("x"), RefusalReason::Explicit("first".into()));
    w.pop(Symbol::new("x")).unwrap();
    w.refuse(Symbol::new("x"), RefusalReason::NotAvailable);
    assert!(!w.is_admissible(&Symbol::new("x")));
    assert!(matches!(w.refusal_reason(&Symbol::new("x")), Some(RefusalReason::Explicit(m)) if m == "first"));
    assert_eq!(w.refusal_count(), 2);
}

#[test]
fn every_history_is_in_the_fibre_of_its_own_observation() {
    let mut h1 = History::new();
    h1.append(Event::Pop(Symbol::new("a")));
    let mut h2 = History::new();
    h2.append(Event::Pop(Symbol::new("b")));
    let mut h3 = History::new();
    h3.append(Event::Pop(Symbol::new("a")));
    let hs = vec![h1.clone(), h2.clone(), h3.clone()];
    for rule in [CollapseRule::Accumulate, CollapseRule::LastWrite, CollapseRule::Identity] {
        for h in &hs {
            let own = ObservableState::derive(h, &rule);
            let f = fibre(&hs, &own, &rule);
            assert!(f.iter().any(|x| *x == h));
        }
    }
    let own1 = ObservableState::derive(&h1, &CollapseRule::Accumulate);
    let f = fibre(&hs, &own1, &CollapseRule::Accumulate);
    assert_eq!(f.len(), 2);
    assert!(!f.iter().any(|x| **x == h2));
}

#[test]
fn conservation_fails_after_a_scope_is_opened() {
    let mut w = World::new(OptionSpace::new(vec![Symbol::new("x")]));
    w.open_scope(Symbol::new("s"));
    assert_eq!(w.possibility_functional(), 2);
    let e = w.verify_conservation().unwrap_err();
    assert!(e.contains("2"));
    w.close_scope(Symbol::new("s")).unwrap();
    assert!(w.verify_conservation().is_ok());
}

#[test]
fn reachable_count_never_grows_along_an_execution() {
    let mut w = World::new(OptionSpace::new(vec![Symbol::new("a"), Symbol::new("b"), Symbol::new("c")]));
    let r0 = w.reachability_geometry().reachable_count();
    assert_eq!(r0, 3);
    w.pop(Symbol::new("a")).unwrap();
    let r1 = w.reachability_geometry().reachable_count();
    w.refuse(Symbol::new("b"), RefusalReason::NotAvailable);
    let r2 = w.reachability_geometry().reachable_count();
    w.bind(Symbol::new("c"), Symbol::new("a"));
    let r3 = w.reachability_geometry().reachable_count();
    assert!(r1 <= r0 && r2 <= r1 && r3 <= r2);
    assert_eq!((r1, r2, r3), (2, 1, 1));
}

#[test]
fn deform_matches_one_step_of_forward_projection() {
    let opts = OptionSpace::new(vec![Symbol::new("x"), Symbol::new("y")]);
    let g0 = lib::kernel::reachability::ReachabilityGeometry::initial(&opts);
    let g1 = lib::deform(&g0, &Event::Pop(Symbol::new("x")));
    assert!(!g1.is_reachable(&Symbol::new("x")));
    assert!(g1.is_reachable(&Symbol::new("y")));
    let g2 = lib::deform(&g1, &Event::Refuse { target: Symbol::new("y"), reason: RefusalReason::NotAvailable });
    assert!(!g2.has_reachable());
}

#[test]
fn evaluation_conserves_possibility() {
    let term = Term::seq(vec![
        Term::pop(Term::var("a")),
        Term::refuse(Term::var("b"), RefusalReason::NotAvailable),
        Term::pop(Term::var("missing")),
    ]);
    let opts = OptionSpace::new(vec![Symbol::new("a"), Symbol::new("b")]);
    let mut w = World::new(opts);
    let before = w.possibility_functional();
    let r = lib::eval(&term, &lib::Env::new(), &mut w);
    assert!(r.is_err());
    assert_eq!(w.history.len(), 2);
    assert_eq!(w.possibility_functional(), before);
    assert!(w.verify_conservation().is_ok());
}

#[test]
fn identity_tells_apart_histories_with_equal_text() {
    let mut h1 = History::new();
    h1.append(Event::Bind { name: Symbol::new("a → b"), target: Symbol::new("c") });
    let mut h2 = History::new();
    h2.append(Event::Bind { name: Symbol::new("a"), target: Symbol::new("b → c") });
    assert_eq!(h1.to_text(), h2.to_text());
    assert!(!ObservableState::equivalent(&h1, &h2, &CollapseRule::Identity));
    assert!(ObservableState::equivalent(&h1, &h2, &CollapseRule::Accumulate));
    assert!(ObservableState::equivalent(&h1, &h1.clone(), &CollapseRule::Identity));
}

#[test]
fn closed_world_types_agree_with_open_world() {
    let t = Term::pop(Term::refuse(Term::Universe(2), RefusalReason::NotAvailable));
    assert_eq!(lib::infer_closed(&t).unwrap(), lib::infer_open(&t).unwrap());
}

#[test]
fn world_calls_keep_conservation() {
    let mut w = World::new(OptionSpace::new(vec![Symbol::new("a"), Symbol::new("b"), Symbol::new("c")]));
    assert!(w.pop(Symbol::new("zz")).is_err());
    w.record_lam_intro(Symbol::new("p"));
    w.record_apply(Symbol::new("p"), Symbol::new("arg"));
    w.collapse(Symbol::new("a"), CollapseRule::Identity);
    w.pop(Symbol::new("a")).unwrap();
    assert_eq!(w.possibility_functional(), w.initial_size);
    assert_eq!(
        lib::compose_deformations(&w.history, &OptionSpace::new(vec![Symbol::new("a"), Symbol::new("b"), Symbol::new("c")])),
        w.reachability_geometry()
    );
}

#[test]
fn replay_of_an_empty_sequence_pops_unit() {
    let term = Term::pop(Term::seq(vec![]));
    let opts = vec![Symbol::new("unit")];
    let (res, wi) = eval_with_options(&term, opts.clone()).unwrap();
    let mut m = Machine::new(opts);
    let top = m.run(&compile(&term)).unwrap();
    assert_eq!(wi.history, m.world.history);
    assert_eq!(m.world.history.to_text(), "[pop(unit)]");
    assert_eq!(top.to_text(), res.value.to_text());
}
