use lib::kernel::event::Event;
use lib::kernel::history::History;
use lib::kernel::observable::ObservableState;
use lib::{
    compose_deformations, fibre, CollapseRule, OptionSpace, RefusalReason, Symbol, World,
};

// ════════════════════════════════════════════════════════════════════════
// Core invariants
// ════════════════════════════════════════════════════════════════════════

#[test]
fn world_pop_appends_and_shrinks_options() {
    let mut w = World::new(OptionSpace::new(vec![Symbol::new("x")]));
    w.pop(Symbol::new("x")).unwrap();
    assert_eq!(w.history.events(), &[Event::Pop(Symbol::new("x"))]);
    assert!(w.options.is_empty());
}

#[test]
fn world_pop_unavailable_fails() {
    let mut w = World::empty();
    assert!(w.pop(Symbol::new("x")).is_err());
}

#[test]
fn world_refuse_with_reason_does_not_shrink_options() {
    let mut w = World::new(OptionSpace::new(vec![Symbol::new("x")]));
    w.refuse(Symbol::new("x"), RefusalReason::ConstraintViolation(Symbol::new("c")));
    assert!(w.options.contains(&Symbol::new("x")), "refuse must NOT remove from option space");
    assert_eq!(w.history.refuse_count(), 1);
}

#[test]
fn world_refusal_reason_is_retrievable() {
    let mut w = World::empty();
    w.refuse(Symbol::new("bad"), RefusalReason::Explicit("test reason".into()));
    let reason = w.refusal_reason(&Symbol::new("bad")).unwrap();
    assert!(matches!(reason, RefusalReason::Explicit(msg) if msg == "test reason"));
}

#[test]
fn world_history_grows_monotonically() {
    let mut w = World::new(OptionSpace::new(vec![Symbol::new("a"), Symbol::new("b")]));
    w.pop(Symbol::new("a")).unwrap();
    w.bind(Symbol::new("a"), Symbol::new("b"));
    w.pop(Symbol::new("b")).unwrap();
    assert_eq!(w.history.len(), 3);
}

// ════════════════════════════════════════════════════════════════════════
// Observable state as quotient
// ════════════════════════════════════════════════════════════════════════

#[test]
fn observe_identity_counts_pops() {
    let mut w = World::new(OptionSpace::new(vec![Symbol::new("x"), Symbol::new("y")]));
    w.pop(Symbol::new("x")).unwrap();
    w.pop(Symbol::new("y")).unwrap();
    let obs = w.observe_identity();
    assert_eq!(obs.entries.get("x"), Some(1));
    assert_eq!(obs.entries.get("y"), Some(1));
    assert!(!obs.has_refusals);
}

#[test]
fn finer_rule_disambiguates_equivalent_histories() {
    let mut w1 = World::new(OptionSpace::new(vec![Symbol::new("x"), Symbol::new("y")]));
    w1.pop(Symbol::new("x")).unwrap();
    w1.pop(Symbol::new("y")).unwrap();

    let mut w2 = World::new(OptionSpace::new(vec![Symbol::new("x"), Symbol::new("y")]));
    w2.pop(Symbol::new("y")).unwrap();
    w2.pop(Symbol::new("x")).unwrap();

    let obs1 = w1.observe(&CollapseRule::Accumulate);
    let obs2 = w2.observe(&CollapseRule::Accumulate);
    assert_eq!(obs1.entries, obs2.entries, "accumulate should not distinguish pop order");

    assert_ne!(w1.history, w2.history, "identity rule must distinguish pop order");
}

#[test]
fn observe_last_write_removes_refused_symbols() {
    let mut w = World::new(OptionSpace::new(vec![Symbol::new("x"), Symbol::new("y")]));
    w.pop(Symbol::new("x")).unwrap();
    w.refuse(Symbol::new("x"), RefusalReason::Explicit("retracted".into()));
    let obs = w.observe(&CollapseRule::LastWrite);
    assert_eq!(obs.entries.get("x"), None, "refused symbol should be absent from last-write state");
    assert!(obs.has_refusals);
}

#[test]
fn observe_projection_filters_by_prefix() {
    let mut w = World::new(OptionSpace::new(vec![
        Symbol::new("net_a"),
        Symbol::new("net_b"),
        Symbol::new("db_c"),
    ]));
    w.pop(Symbol::new("net_a")).unwrap();
    w.pop(Symbol::new("net_b")).unwrap();
    w.pop(Symbol::new("db_c")).unwrap();
    let obs = w.observe(&CollapseRule::Projection(Symbol::new("net")));
    assert_eq!(obs.entries.len(), 2);
    assert!(!obs.entries.contains_key("db_c"));
}

// ════════════════════════════════════════════════════════════════════════
// Reachability geometry
// ════════════════════════════════════════════════════════════════════════

#[test]
fn generalised_possibility_functional_is_conserved() {
    let opts = OptionSpace::new(vec![Symbol::new("a"), Symbol::new("b"), Symbol::new("c")]);
    let mut w = World::new(opts);
    let initial = w.initial_size;
    assert_eq!(w.possibility_functional(), initial);

    w.pop(Symbol::new("a")).unwrap();
    assert_eq!(w.possibility_functional(), initial, "Pop: Π should still equal |Ω₀|");

    w.refuse(Symbol::new("b"), RefusalReason::NotAvailable);
    assert_eq!(w.possibility_functional(), initial, "Refuse: Π should still equal |Ω₀|");

    w.bind(Symbol::new("b"), Symbol::new("c"));
    assert_eq!(w.possibility_functional(), initial, "Bind: Π should still equal |Ω₀|");

    w.pop(Symbol::new("c")).unwrap();
    assert_eq!(w.possibility_functional(), initial, "Pop: Π should still equal |Ω₀|");
}

#[test]
fn verify_conservation_passes_for_legal_execution() {
    let opts = OptionSpace::new(vec![Symbol::new("x"), Symbol::new("y")]);
    let mut w = World::new(opts);
    w.pop(Symbol::new("x")).unwrap();
    w.refuse(Symbol::new("y"), RefusalReason::NotAvailable);
    assert!(w.verify_conservation().is_ok());
}

#[test]
fn history_is_strictly_monotone() {
    let opts = OptionSpace::new(vec![Symbol::new("x")]);
    let mut w = World::new(opts);
    let len0 = w.history.len();
    w.pop(Symbol::new("x")).unwrap();
    let len1 = w.history.len();
    w.refuse(Symbol::new("other"), RefusalReason::NotAvailable);
    let len2 = w.history.len();
    assert!(len0 < len1, "history must grow after pop");
    assert!(len1 < len2, "history must grow after refuse");
}

#[test]
fn compose_deformations_matches_forward_project() {
    let opts = OptionSpace::new(vec![Symbol::new("x"), Symbol::new("y")]);
    let mut w = World::new(opts.clone());
    w.pop(Symbol::new("x")).unwrap();
    w.refuse(Symbol::new("y"), RefusalReason::NotAvailable);

    let geom_composed = compose_deformations(&w.history, &opts);
    let geom_forward = w.reachability_geometry();

    assert!(!geom_forward.available.contains(&Symbol::new("x")), "x should not be available after pop");
    assert!(!geom_forward.admissible.contains(&Symbol::new("y")), "y should not be admissible after refuse");

    assert_eq!(geom_composed.reachable_count(), geom_forward.reachable_count());
}

#[test]
fn two_projection_returns_geometry_and_observation() {
    let opts = OptionSpace::new(vec![Symbol::new("x"), Symbol::new("y")]);
    let mut w = World::new(opts);
    w.pop(Symbol::new("x")).unwrap();

    let (geom, obs) = w.two_projection(&CollapseRule::Accumulate);
    assert!(!geom.available.contains(&Symbol::new("x")));
    assert!(geom.available.contains(&Symbol::new("y")));
    assert_eq!(obs.entries.get("x"), Some(1));
}

#[test]
fn fibre_partition_is_exhaustive() {
    let mut h1 = History::new();
    h1.append(Event::Pop(Symbol::new("a")));

    let mut h2 = History::new();
    h2.append(Event::Pop(Symbol::new("b")));

    let mut h3 = History::new();
    h3.append(Event::Pop(Symbol::new("a")));
    h3.append(Event::Pop(Symbol::new("b")));

    let histories = vec![h1.clone(), h2.clone(), h3.clone()];
    let rule = CollapseRule::Accumulate;

    let obs1 = ObservableState::derive(&h1, &rule);
    let obs2 = ObservableState::derive(&h2, &rule);
    let obs3 = ObservableState::derive(&h3, &rule);

    assert_ne!(obs1, obs2);
    assert_ne!(obs1, obs3);
    assert_ne!(obs2, obs3);

    let f1 = fibre(&histories, &obs1, &rule);
    assert_eq!(f1.len(), 1);
    assert_eq!(f1[0], &h1);
}

#[test]
fn identity_rule_is_observationally_complete() {
    let mut h1 = History::new();
    h1.append(Event::Pop(Symbol::new("x")));
    h1.append(Event::Pop(Symbol::new("y")));

    let mut h2 = History::new();
    h2.append(Event::Pop(Symbol::new("y")));
    h2.append(Event::Pop(Symbol::new("x")));

    let id1 = ObservableState::derive(&h1, &CollapseRule::Identity);
    let id2 = ObservableState::derive(&h2, &CollapseRule::Identity);
    assert_ne!(id1, id2, "Identity must distinguish different event orders");

    let acc1 = ObservableState::derive(&h1, &CollapseRule::Accumulate);
    let acc2 = ObservableState::derive(&h2, &CollapseRule::Accumulate);
    assert_eq!(acc1.entries, acc2.entries, "Accumulate must not distinguish pop order (non-injective)");
}

#[test]
fn distinct_histories_equivalent_under_coarse_rule() {
    let mut w1 = World::empty();
    w1.refuse(Symbol::new("x"), RefusalReason::NotAvailable);
    w1.refuse(Symbol::new("y"), RefusalReason::NotAvailable);

    let mut w2 = World::empty();
    w2.refuse(Symbol::new("y"), RefusalReason::NotAvailable);
    w2.refuse(Symbol::new("x"), RefusalReason::NotAvailable);

    assert_ne!(w1.history, w2.history);
    assert_eq!(w1.history.refuse_count(), w2.history.refuse_count());
}
