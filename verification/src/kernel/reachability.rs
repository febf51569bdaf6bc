//! Reachability geometry: the forward projection of a world state onto what
//! can still happen, the per-event deformations of that geometry, and the
//! conserved possibility functional.

use vstd::prelude::*;
use crate::kernel::event::{CollapseRule, Event, SpecEvent, Symbol};
use crate::kernel::history::{count_pops, ever_popped, ever_refused, refuses, History};
use crate::kernel::observable::{derive_observation, ObservableState, SpecObservation};
use crate::kernel::event::SpecRule;
use crate::kernel::option_space::OptionSpace;
use crate::kernel::symbol_set::SymbolSet;
use crate::text::{nat_text, push_decimal};

verus! {

/// The mathematical model of a reachability geometry.
pub struct SpecGeometry {
    /// Symbols not yet refused.
    pub admissible: Set<Seq<char>>,
    /// Symbols structurally available (not yet popped).
    pub available: Set<Seq<char>>,
}

/// The symbols that are both admissible and available.
pub open spec fn reachable(g: SpecGeometry) -> Set<Seq<char>> {
    g.admissible.intersect(g.available)
}

/// The symbols popped somewhere in `h`.
pub open spec fn popped_names(h: Seq<SpecEvent>) -> Set<Seq<char>> {
    Set::new(|s: Seq<char>| ever_popped(h, s))
}

/// The symbols refused somewhere in `h`.
pub open spec fn refused_names(h: Seq<SpecEvent>) -> Set<Seq<char>> {
    Set::new(|s: Seq<char>| ever_refused(h, s))
}

/// The forward projection ρ(H, Ω): admissible are the current options and
/// everything popped, minus everything refused; available are the options.
pub open spec fn forward_geometry(h: Seq<SpecEvent>, omega: Set<Seq<char>>) -> SpecGeometry {
    SpecGeometry {
        admissible: omega.union(popped_names(h)).difference(refused_names(h)),
        available: omega,
    }
}

/// The deformation δe: a pop removes its symbol from the available set, a
/// refusal removes its target from the admissible set, other events change
/// nothing.
pub open spec fn deformed(g: SpecGeometry, e: SpecEvent) -> SpecGeometry {
    match e {
        SpecEvent::Pop(x) => SpecGeometry { admissible: g.admissible, available: g.available.remove(x) },
        SpecEvent::Refuse { target, .. } => SpecGeometry {
            admissible: g.admissible.remove(target),
            available: g.available,
        },
        _ => g,
    }
}

/// The geometry obtained by applying the deformations of `h`, in order, to
/// the initial geometry of `omega0`.
pub open spec fn composed_geometry(h: Seq<SpecEvent>, omega0: Set<Seq<char>>) -> SpecGeometry
    decreases h.len(),
{
    if h.len() == 0 {
        SpecGeometry { admissible: omega0, available: omega0 }
    } else {
        deformed(composed_geometry(h.drop_last(), omega0), h.last())
    }
}

/// The possibility functional Π(H, Ω) = |Ω| + number of pops in H.
pub open spec fn possibility(h: Seq<SpecEvent>, omega: Set<Seq<char>>) -> nat {
    omega.len() + count_pops(h)
}

/// The option space after one event of a world, if the event is legal:
/// a pop or a scope close needs its symbol available and removes it; a scope
/// open adds its symbol; other events leave the options as they are.
pub open spec fn world_step(omega: Set<Seq<char>>, e: SpecEvent) -> Option<Set<Seq<char>>> {
    match e {
        SpecEvent::Pop(x) => if omega.contains(x) {
            Some(omega.remove(x))
        } else {
            None
        },
        SpecEvent::ScopeClose(x) => if omega.contains(x) {
            Some(omega.remove(x))
        } else {
            None
        },
        SpecEvent::ScopeOpen(x) => Some(omega.insert(x)),
        _ => Some(omega),
    }
}

/// The option space after replaying `h` on `omega0`, if every event is legal.
pub open spec fn replay(omega0: Set<Seq<char>>, h: Seq<SpecEvent>) -> Option<Set<Seq<char>>>
    decreases h.len(),
{
    if h.len() == 0 {
        Some(omega0)
    } else {
        match replay(omega0, h.drop_last()) {
            Some(omega) => world_step(omega, h.last()),
            None => None,
        }
    }
}

/// Whether `h` opens or closes no scope.
pub open spec fn scope_free(h: Seq<SpecEvent>) -> bool {
    forall|i: int| 0 <= i < h.len() ==> !(#[trigger] h[i] is ScopeOpen) && !(h[i] is ScopeClose)
}

/// The text reported when the conservation law fails.
pub open spec fn conservation_violation_text(actual: nat, initial: nat) -> Seq<char> {
    "conservation violated: Π = "@ + nat_text(actual) + " but |Ω₀| = "@ + nat_text(initial)
}

proof fn lemma_popped_step(h: Seq<SpecEvent>)
    requires
        h.len() > 0,
    ensures
        popped_names(h) == match h.last() {
            SpecEvent::Pop(x) => popped_names(h.drop_last()).insert(x),
            _ => popped_names(h.drop_last()),
        },
{
    let p = h.drop_last();
    let want = match h.last() {
        SpecEvent::Pop(x) => popped_names(p).insert(x),
        _ => popped_names(p),
    };
    assert forall|s: Seq<char>| popped_names(h).contains(s) == want.contains(s) by {
        if ever_popped(h, s) {
            let i = choose|i: int| 0 <= i < h.len() && h[i] == SpecEvent::Pop(s);
            if i < h.len() - 1 {
                assert(p[i] == SpecEvent::Pop(s));
            }
        }
        if ever_popped(p, s) {
            let i = choose|i: int| 0 <= i < p.len() && p[i] == SpecEvent::Pop(s);
            assert(h[i] == SpecEvent::Pop(s));
        }
        if h.last() == SpecEvent::Pop(s) {
            assert(h[h.len() - 1] == SpecEvent::Pop(s));
        }
    }
    assert(popped_names(h) =~= want);
}

proof fn lemma_refused_step(h: Seq<SpecEvent>)
    requires
        h.len() > 0,
    ensures
        refused_names(h) == match h.last() {
            SpecEvent::Refuse { target, .. } => refused_names(h.drop_last()).insert(target),
            _ => refused_names(h.drop_last()),
        },
{
    let p = h.drop_last();
    let want = match h.last() {
        SpecEvent::Refuse { target, .. } => refused_names(p).insert(target),
        _ => refused_names(p),
    };
    assert forall|s: Seq<char>| refused_names(h).contains(s) == want.contains(s) by {
        if ever_refused(h, s) {
            let i = choose|i: int| 0 <= i < h.len() && #[trigger] refuses(h[i], s);
            if i < h.len() - 1 {
                assert(refuses(p[i], s));
            }
        }
        if ever_refused(p, s) {
            let i = choose|i: int| 0 <= i < p.len() && #[trigger] refuses(p[i], s);
            assert(refuses(h[i], s));
        }
        if refuses(h.last(), s) {
            assert(refuses(h[h.len() - 1], s));
        }
    }
    assert(refused_names(h) =~= want);
}

/// Conservation of possibility (the conservation theorem): along any legal
/// execution that opens and closes no scope, Π(H_t, Ω_t) = |Ω₀|.
pub proof fn law_conservation(omega0: Set<Seq<char>>, h: Seq<SpecEvent>)
    requires
        omega0.finite(),
        scope_free(h),
        replay(omega0, h) is Some,
    ensures
        replay(omega0, h)->0.finite(),
        possibility(h, replay(omega0, h)->0) == omega0.len(),
    decreases h.len(),
{
    if h.len() > 0 {
        let p = h.drop_last();
        assert(scope_free(p)) by {
            assert forall|i: int| 0 <= i < p.len() implies !(#[trigger] p[i] is ScopeOpen) && !(p[i] is ScopeClose) by {
                assert(p[i] == h[i]);
            }
        }
        law_conservation(omega0, p);
        let prev = replay(omega0, p)->0;
        assert(!(h[h.len() - 1] is ScopeOpen));
        match h.last() {
            SpecEvent::Pop(x) => {
                assert(prev.contains(x));
            },
            _ => {},
        }
    }
}

/// Histories as composed deformations: for a legal execution from Ω₀ that
/// opens and closes no scope, applying the deformations of H to the initial
/// geometry of Ω₀ gives the forward projection of the final world state.
pub proof fn law_composed_deformations(omega0: Set<Seq<char>>, h: Seq<SpecEvent>)
    requires
        scope_free(h),
        replay(omega0, h) is Some,
    ensures
        composed_geometry(h, omega0) == forward_geometry(h, replay(omega0, h)->0),
    decreases h.len(),
{
    if h.len() == 0 {
        assert(popped_names(h) =~= Set::<Seq<char>>::empty());
        assert(refused_names(h) =~= Set::<Seq<char>>::empty());
        assert(omega0.union(popped_names(h)).difference(refused_names(h)) =~= omega0);
    } else {
        let p = h.drop_last();
        assert(scope_free(p)) by {
            assert forall|i: int| 0 <= i < p.len() implies !(#[trigger] p[i] is ScopeOpen) && !(p[i] is ScopeClose) by {
                assert(p[i] == h[i]);
            }
        }
        law_composed_deformations(omega0, p);
        lemma_popped_step(h);
        lemma_refused_step(h);
        let prev = replay(omega0, p)->0;
        let cur = replay(omega0, h)->0;
        assert(!(h[h.len() - 1] is ScopeOpen) && !(h[h.len() - 1] is ScopeClose));
        let g = forward_geometry(h, cur);
        let d = deformed(forward_geometry(p, prev), h.last());
        assert(g.admissible =~= d.admissible);
        assert(g.available =~= d.available);
    }
}

/// A deformation never makes a symbol reachable.
pub proof fn law_deformation_shrinks(g: SpecGeometry, e: SpecEvent)
    ensures
        reachable(deformed(g, e)).subset_of(reachable(g)),
{
}

/// Monotone field deformation: a legal event other than opening a scope
/// never adds a reachable symbol to the forward projection, so the graded
/// admissibility (reachable count over |Ω₀|) never increases.
pub proof fn law_reachable_never_grows(h: Seq<SpecEvent>, omega: Set<Seq<char>>, e: SpecEvent)
    requires
        omega.finite(),
        world_step(omega, e) is Some,
        !(e is ScopeOpen),
    ensures
        reachable(forward_geometry(h.push(e), world_step(omega, e)->0)).subset_of(
            reachable(forward_geometry(h, omega)),
        ),
        reachable(forward_geometry(h.push(e), world_step(omega, e)->0)).len() <= reachable(
            forward_geometry(h, omega),
        ).len(),
{
    let h2 = h.push(e);
    assert(h2.drop_last() =~= h);
    lemma_popped_step(h2);
    lemma_refused_step(h2);
    let a = reachable(forward_geometry(h2, world_step(omega, e)->0));
    let b = reachable(forward_geometry(h, omega));
    assert(a.subset_of(b));
    assert(b.finite()) by {
        vstd::set::axiom_set_intersect_finite(omega, forward_geometry(h, omega).admissible);
        assert(b =~= omega.intersect(forward_geometry(h, omega).admissible));
    }
    vstd::set_lib::lemma_len_subset(a, b);
}

/// A reachability geometry describes what can still happen from a world
/// state: admissible symbols (not refused) and available symbols (not
/// popped).
#[derive(Debug, PartialEq, Eq)]
pub struct ReachabilityGeometry {
    /// Admissible futures: symbols not yet refused.
    pub admissible: SymbolSet,
    /// Structurally available: symbols not yet popped.
    pub available: SymbolSet,
}

impl View for ReachabilityGeometry {
    type V = SpecGeometry;

    open spec fn view(&self) -> SpecGeometry {
        SpecGeometry { admissible: self.admissible@, available: self.available@ }
    }
}

impl Clone for ReachabilityGeometry {
    fn clone(&self) -> (r: Self)
        ensures
            r@ == self@,
    {
        ReachabilityGeometry { admissible: self.admissible.clone(), available: self.available.clone() }
    }
}

impl ReachabilityGeometry {
    /// The initial geometry of an option space: everything admissible and
    /// available.
    pub fn initial(omega_0: &OptionSpace) -> (r: ReachabilityGeometry)
        ensures
            r@ == (SpecGeometry { admissible: omega_0@, available: omega_0@ }),
    {
        let syms = omega_0.as_set().clone();
        ReachabilityGeometry { admissible: syms.clone(), available: syms }
    }

    /// Number of symbols that are both admissible and available.
    pub fn reachable_count(&self) -> (r: usize)
        ensures
            r == reachable(self@).len(),
    {
        self.admissible.count_common(&self.available)
    }

    /// Whether `s` is both admissible and available.
    pub fn is_reachable(&self, s: &Symbol) -> (r: bool)
        ensures
            r == reachable(self@).contains(s@),
    {
        self.admissible.contains(s) && self.available.contains(s)
    }

    /// Whether any symbol is reachable.
    pub fn has_reachable(&self) -> (r: bool)
        ensures
            r == (reachable(self@).len() > 0),
    {
        self.reachable_count() > 0
    }

    /// The display text of the geometry: its three sizes.
    pub fn to_text(&self) -> (r: String)
        ensures
            r@ == geometry_text(self@),
    {
        let mut out = String::new();
        out.append("R{adm:");
        push_decimal(&mut out, self.admissible.len() as u128);
        out.append(", avail:");
        push_decimal(&mut out, self.available.len() as u128);
        out.append(", reach:");
        push_decimal(&mut out, self.reachable_count() as u128);
        out.append("}");
        assert(out@ =~= geometry_text(self@));
        out
    }
}

/// The display text of a geometry: how many symbols are admissible,
/// available and reachable.
pub open spec fn geometry_text(g: SpecGeometry) -> Seq<char> {
    "R{adm:"@ + nat_text(g.admissible.len()) + ", avail:"@ + nat_text(g.available.len())
        + ", reach:"@ + nat_text(reachable(g).len()) + "}"@
}

/// The forward projection ρ(H, Ω): what can still happen from a world state.
pub fn forward_project(history: &History, options: &OptionSpace) -> (r: ReachabilityGeometry)
    ensures
        r@ == forward_geometry(history@, options@),
{
    let events = history.events();
    let ghost h = history@;
    let mut admissible = options.as_set().clone();
    let mut i: usize = 0;
    assert(popped_names(h.take(0)) =~= Set::<Seq<char>>::empty());
    assert(options@.union(popped_names(h.take(0))) =~= options@);
    while i < events.len()
        invariant
            i <= events@.len(),
            events@.map_values(|e: Event| e@) == h,
            admissible@ == options@.union(popped_names(h.take(i as int))),
        decreases events@.len() - i,
    {
        assert(h.take(i + 1).drop_last() =~= h.take(i as int));
        assert(h.take(i + 1).last() == events@[i as int]@);
        proof {
            lemma_popped_step(h.take(i + 1));
        }
        if let Event::Pop(s) = &events[i] {
            admissible.insert(s.clone());
        }
        assert(admissible@ =~= options@.union(popped_names(h.take(i + 1))));
        i = i + 1;
    }
    assert(h.take(i as int) =~= h);
    let ghost base = options@.union(popped_names(h));
    let mut j: usize = 0;
    assert(refused_names(h.take(0)) =~= Set::<Seq<char>>::empty());
    assert(base.difference(refused_names(h.take(0))) =~= base);
    while j < events.len()
        invariant
            j <= events@.len(),
            events@.map_values(|e: Event| e@) == h,
            admissible@ == base.difference(refused_names(h.take(j as int))),
        decreases events@.len() - j,
    {
        assert(h.take(j + 1).drop_last() =~= h.take(j as int));
        assert(h.take(j + 1).last() == events@[j as int]@);
        proof {
            lemma_refused_step(h.take(j + 1));
        }
        if let Event::Refuse { target, .. } = &events[j] {
            admissible.remove(target);
        }
        assert(admissible@ =~= base.difference(refused_names(h.take(j + 1))));
        j = j + 1;
    }
    assert(h.take(j as int) =~= h);
    let available = options.as_set().clone();
    ReachabilityGeometry { admissible, available }
}

/// The deformation δe of a geometry by one event.
pub fn deform(geom: &ReachabilityGeometry, event: &Event) -> (r: ReachabilityGeometry)
    ensures
        r@ == deformed(geom@, event@),
{
    let mut g = geom.clone();
    match event {
        Event::Pop(x) => {
            g.available.remove(x);
        },
        Event::Refuse { target, .. } => {
            g.admissible.remove(target);
        },
        _ => {},
    }
    g
}

/// Apply a history as a composed sequence of deformations to the initial
/// geometry of `initial`.
pub fn compose_deformations(history: &History, initial: &OptionSpace) -> (r: ReachabilityGeometry)
    ensures
        r@ == composed_geometry(history@, initial@),
{
    let events = history.events();
    let ghost h = history@;
    let mut geom = ReachabilityGeometry::initial(initial);
    let mut i: usize = 0;
    while i < events.len()
        invariant
            i <= events@.len(),
            events@.map_values(|e: Event| e@) == h,
            geom@ == composed_geometry(h.take(i as int), initial@),
        decreases events@.len() - i,
    {
        assert(h.take(i + 1).drop_last() =~= h.take(i as int));
        assert(h.take(i + 1).last() == events@[i as int]@);
        geom = deform(&geom, &events[i]);
        i = i + 1;
    }
    assert(h.take(i as int) =~= h);
    geom
}

/// The possibility functional Π(H, Ω) = |Ω| + number of pops in H.
pub fn possibility_functional(history: &History, options: &OptionSpace) -> (r: usize)
    requires
        possibility(history@, options@) <= usize::MAX,
    ensures
        r == possibility(history@, options@),
{
    options.len() + history.pop_count()
}

/// Check the conservation law Π(H, Ω) = |Ω₀|.
pub fn verify_conservation(history: &History, options: &OptionSpace, initial_size: usize) -> (r:
    Result<(), String>)
    ensures
        r is Ok <==> possibility(history@, options@) == initial_size,
        r matches Err(msg) ==> msg@ == conservation_violation_text(
            possibility(history@, options@),
            initial_size as nat,
        ),
{
    let actual: u128 = options.len() as u128 + history.pop_count() as u128;
    if actual == initial_size as u128 {
        Ok(())
    } else {
        let mut msg = String::new();
        msg.append("conservation violated: Π = ");
        push_decimal(&mut msg, actual);
        msg.append(" but |Ω₀| = ");
        push_decimal(&mut msg, initial_size as u128);
        Err(msg)
    }
}

/// The two-projection architecture: the forward projection of the world
/// state together with the observable state of the history under `rule`.
pub fn two_projection(history: &History, options: &OptionSpace, rule: &CollapseRule) -> (r: (
    ReachabilityGeometry,
    ObservableState,
))
    ensures
        r.0@ == forward_geometry(history@, options@),
        r.1@ == crate::kernel::observable::derive_observation(history@, rule@),
{
    let geom = forward_project(history, options);
    let obs = ObservableState::derive(history, rule);
    (geom, obs)
}

/// The fibre of an observable state: the histories (from `histories`, in
/// order) that collapse to it under `rule`.
pub fn fibre<'a>(histories: &'a [History], target: &ObservableState, rule: &CollapseRule) -> (r:
    Vec<&'a History>)
    ensures
        r@.map_values(|h: &History| h@) == histories@.map_values(|h: History| h@).filter(
            |h: Seq<SpecEvent>| crate::kernel::observable::derive_observation(h, rule@) == target@,
        ),
{
    let ghost all = histories@.map_values(|h: History| h@);
    let ghost pred = |h: Seq<SpecEvent>| crate::kernel::observable::derive_observation(h, rule@)
        == target@;
    let mut out: Vec<&'a History> = Vec::new();
    let mut i: usize = 0;
    while i < histories.len()
        invariant
            i <= histories@.len(),
            all == histories@.map_values(|h: History| h@),
            pred == (|h: Seq<SpecEvent>| crate::kernel::observable::derive_observation(h, rule@)
                == target@),
            out@.map_values(|h: &History| h@) == all.take(i as int).filter(pred),
        decreases histories@.len() - i,
    {
        assert(all.take(i + 1).drop_last() =~= all.take(i as int));
        assert(all.take(i + 1).last() == histories@[i as int]@);
        proof {
            reveal_with_fuel(Seq::<_>::filter, 1);
        }
        let obs = ObservableState::derive(&histories[i], rule);
        if obs.same_as(target) {
            let ghost before = out@;
            out.push(&histories[i]);
            assert(out@.map_values(|h: &History| h@) =~= before.map_values(|h: &History| h@).push(
                histories@[i as int]@,
            ));
        }
        assert(out@.map_values(|h: &History| h@) =~= all.take(i + 1).filter(pred));
        i = i + 1;
    }
    assert(all.take(i as int) =~= all);
    out
}

/// Fibre partition: each history lies in the fibre of its own observation
/// under a rule, and in the fibre of no other observation.
pub proof fn law_fibre_partition(
    hs: Seq<Seq<SpecEvent>>,
    rule: SpecRule,
    i: int,
    o: SpecObservation,
)
    requires
        0 <= i < hs.len(),
    ensures
        hs.filter(|h: Seq<SpecEvent>| derive_observation(h, rule) == derive_observation(hs[i], rule)).contains(hs[i]),
        o != derive_observation(hs[i], rule) ==> !hs.filter(
            |h: Seq<SpecEvent>| derive_observation(h, rule) == o,
        ).contains(hs[i]),
{
    let own = |h: Seq<SpecEvent>| derive_observation(h, rule) == derive_observation(hs[i], rule);
    hs.lemma_filter_contains(own, i);
    let other = |h: Seq<SpecEvent>| derive_observation(h, rule) == o;
    if o != derive_observation(hs[i], rule) && hs.filter(other).contains(hs[i]) {
        let j = choose|j: int| 0 <= j < hs.filter(other).len() && hs.filter(other)[j] == hs[i];
        hs.lemma_filter_pred(other, j);
    }
}

/// A symbol is reachable in the forward projection exactly when it is an
/// option and has never been refused; it is admissible exactly when it is
/// an option or was popped, and has never been refused.
pub proof fn law_forward_membership(h: Seq<SpecEvent>, omega: Set<Seq<char>>, s: Seq<char>)
    ensures
        reachable(forward_geometry(h, omega)).contains(s) <==> (omega.contains(s) && !ever_refused(h, s)),
        forward_geometry(h, omega).admissible.contains(s) <==> ((omega.contains(s) || ever_popped(h, s))
            && !ever_refused(h, s)),
        forward_geometry(h, omega).available == omega,
{
}

/// A pop makes its symbol unavailable and keeps what is admissible; a
/// refusal makes its target inadmissible and keeps what is available; other
/// events change nothing.
pub proof fn law_deformation_steps(g: SpecGeometry, e: SpecEvent)
    ensures
        e matches SpecEvent::Pop(x) ==> deformed(g, e).available == g.available.remove(x)
            && deformed(g, e).admissible == g.admissible,
        e matches SpecEvent::Refuse { target, .. } ==> deformed(g, e).admissible == g.admissible.remove(
            target,
        ) && deformed(g, e).available == g.available,
        !(e is Pop || e is Refuse) ==> deformed(g, e) == g,
{
}

} // verus!
