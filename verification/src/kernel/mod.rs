//! The runtime core: events, histories, option spaces, worlds and the
//! projections derived from them.

pub mod error;
pub mod event;
pub mod history;
pub mod option_space;
pub mod symbol_set;

use vstd::prelude::*;
use crate::kernel::error::CoreError;
use crate::kernel::event::{CollapseRule, Event, RefusalReason, SpecEvent, SpecReason, Symbol};
use crate::kernel::history::{count_pops, count_refusals, ever_refused, refuses, History};
use crate::kernel::observable::{derive_observation, ObservableState};
use crate::kernel::option_space::OptionSpace;
use crate::kernel::reachability::{
    composed_geometry, conservation_violation_text, forward_geometry, possibility, replay,
    scope_free, world_step, ReachabilityGeometry,
};

verus! {

/// The reason recorded by the first refusal of `s` in `h`, if any.
pub open spec fn first_refusal(h: Seq<SpecEvent>, s: Seq<char>) -> Option<SpecReason>
    decreases h.len(),
{
    if h.len() == 0 {
        None
    } else if refuses(h[0], s) {
        Some(h[0]->Refuse_reason)
    } else {
        first_refusal(h.drop_first(), s)
    }
}

/// The mathematical model of a world.
pub struct SpecWorld {
    pub options: Set<Seq<char>>,
    pub history: Seq<SpecEvent>,
    pub initial_size: nat,
}

/// `w` with `e` appended to its history and its options unchanged.
pub open spec fn recorded(w: SpecWorld, e: SpecEvent) -> SpecWorld {
    SpecWorld { options: w.options, history: w.history.push(e), initial_size: w.initial_size }
}

/// `w` after popping `x`, if `x` is available.
pub open spec fn popped(w: SpecWorld, x: Seq<char>) -> Option<SpecWorld> {
    if w.options.contains(x) {
        Some(
            SpecWorld {
                options: w.options.remove(x),
                history: w.history.push(SpecEvent::Pop(x)),
                initial_size: w.initial_size,
            },
        )
    } else {
        None
    }
}

/// The World is the runtime state: an append-only history paired with a
/// shrinking option space. Observable state is always derived from the
/// history, never stored.
#[derive(Debug)]
pub struct World {
    pub options: OptionSpace,
    pub history: History,
    /// |Ω₀|: the initial option space size, for the conservation law.
    pub initial_size: usize,
}

impl View for World {
    type V = SpecWorld;

    open spec fn view(&self) -> SpecWorld {
        SpecWorld {
            options: self.options@,
            history: self.history@,
            initial_size: self.initial_size as nat,
        }
    }
}

/// Counting pops after one more event.
proof fn lemma_count_pops_push(h: Seq<SpecEvent>, e: SpecEvent)
    ensures
        count_pops(h.push(e)) == count_pops(h) + if e is Pop { 1nat } else { 0nat },
{
    assert(h.push(e).drop_last() =~= h);
}

/// `w` is what a legal execution from `omega0` that opens and closes no
/// scope leaves: replaying its history on `omega0` gives its options.
pub open spec fn replays_to(w: SpecWorld, omega0: Set<Seq<char>>) -> bool {
    replay(omega0, w.history) == Some(w.options) && scope_free(w.history)
}

/// One more legal event keeps a world a replay of its history.
proof fn lemma_replay_push(w: SpecWorld, e: SpecEvent, options: Set<Seq<char>>)
    requires
        world_step(w.options, e) == Some(options),
        !(e is ScopeOpen),
        !(e is ScopeClose),
    ensures
        forall|o: Set<Seq<char>>| #[trigger] replays_to(w, o) ==> replays_to(
            SpecWorld { options, history: w.history.push(e), initial_size: w.initial_size },
            o,
        ),
{
    let h2 = w.history.push(e);
    assert(h2.drop_last() =~= w.history);
    assert forall|o: Set<Seq<char>>| #[trigger] replays_to(w, o) implies replays_to(
        SpecWorld { options, history: h2, initial_size: w.initial_size },
        o,
    ) by {
        assert forall|i: int| 0 <= i < h2.len() implies !(#[trigger] h2[i] is ScopeOpen) && !(
        h2[i] is ScopeClose) by {
            if i < w.history.len() {
                assert(h2[i] == w.history[i]);
            }
        }
    }
}

/// The state of a world agrees with the deformations of its history: for a
/// world that is a replay of its history from `omega0`, composing the
/// deformations of the history on `omega0` gives its forward projection.
pub proof fn law_world_geometry(w: SpecWorld, omega0: Set<Seq<char>>)
    requires
        replays_to(w, omega0),
    ensures
        composed_geometry(w.history, omega0) == forward_geometry(w.history, w.options),
{
    crate::kernel::reachability::law_composed_deformations(omega0, w.history);
}

/// The conservation law holds of `w`: its option space is finite and the
/// possibility functional Π(H, Ω) equals the initial size |Ω₀|.
pub open spec fn conserving(w: SpecWorld) -> bool {
    w.options.finite() && possibility(w.history, w.options) == w.initial_size
}

impl Clone for World {
    fn clone(&self) -> (r: Self)
        ensures
            r.options@ == self.options@,
            r.options.members().names() == self.options.members().names(),
            r.history@ == self.history@,
            r.initial_size == self.initial_size,
    {
        World {
            options: self.options.clone(),
            history: self.history.clone(),
            initial_size: self.initial_size,
        }
    }
}

impl World {
    /// A fresh world over the given options, with an empty history.
    pub fn new(options: OptionSpace) -> (r: World)
        ensures
            r.options@ == options@,
            r.history@ == Seq::<SpecEvent>::empty(),
            r.initial_size == options@.len(),
            conserving(r@),
            replays_to(r@, options@),
    {
        let initial_size = options.len();
        World { options, history: History::new(), initial_size }
    }

    /// A fresh world with no options.
    pub fn empty() -> (r: World)
        ensures
            r.options@ == Set::<Seq<char>>::empty(),
            r.history@ == Seq::<SpecEvent>::empty(),
            r.initial_size == 0,
            conserving(r@),
            replays_to(r@, Set::empty()),
    {
        World { options: OptionSpace::empty(), history: History::new(), initial_size: 0 }
    }

    /// Commit to `choice`: remove it from the option space and record a
    /// `Pop`. Fails, changing nothing, when `choice` is not available.
    pub fn pop(&mut self, choice: Symbol) -> (r: Result<(), CoreError>)
        ensures
            forall|o: Set<Seq<char>>| #[trigger] replays_to(old(self)@, o) ==> replays_to(final(self)@, o),
            conserving(old(self)@) ==> conserving(final(self)@),
            final(self).initial_size == old(self).initial_size,
            old(self).options@.contains(choice@) ==> {
                &&& r is Ok
                &&& final(self).options@ == old(self).options@.remove(choice@)
                &&& final(self).history@ == old(self).history@.push(SpecEvent::Pop(choice@))
            },
            !old(self).options@.contains(choice@) ==> {
                &&& r == Err::<(), CoreError>(CoreError::UnavailableOption(choice))
                &&& final(self).options@ == old(self).options@
                &&& final(self).history@ == old(self).history@
            },
    {
        if !self.options.remove(&choice) {
            assert(self.options@ =~= old(self).options@);
            return Err(CoreError::UnavailableOption(choice));
        }
        self.history.append(Event::Pop(choice));
        proof {
            lemma_count_pops_push(old(self).history@, self.history@.last());
            lemma_replay_push(old(self)@, self.history@.last(), self.options@);
        }
        Ok(())
    }

    /// Record that `target` was refused for `reason`. The option space is
    /// left as it is.
    pub fn refuse(&mut self, target: Symbol, reason: RefusalReason)
        ensures
            forall|o: Set<Seq<char>>| #[trigger] replays_to(old(self)@, o) ==> replays_to(final(self)@, o),
            conserving(old(self)@) ==> conserving(final(self)@),
            final(self).initial_size == old(self).initial_size,
            final(self).options@ == old(self).options@,
            final(self).history@ == old(self).history@.push(
                SpecEvent::Refuse { target: target@, reason: reason@ },
            ),
    {
        self.history.append(Event::Refuse { target, reason });
        proof {
            lemma_count_pops_push(old(self).history@, self.history@.last());
            lemma_replay_push(old(self)@, self.history@.last(), self.options@);
        }
    }

    /// Record a dependency of `name` on `target`.
    pub fn bind(&mut self, name: Symbol, target: Symbol)
        ensures
            forall|o: Set<Seq<char>>| #[trigger] replays_to(old(self)@, o) ==> replays_to(final(self)@, o),
            conserving(old(self)@) ==> conserving(final(self)@),
            final(self).initial_size == old(self).initial_size,
            final(self).options@ == old(self).options@,
            final(self).history@ == old(self).history@.push(
                SpecEvent::Bind { name: name@, target: target@ },
            ),
    {
        self.history.append(Event::Bind { name, target });
        proof {
            lemma_count_pops_push(old(self).history@, self.history@.last());
            lemma_replay_push(old(self)@, self.history@.last(), self.options@);
        }
    }

    /// Record that `target` was collapsed under `rule`.
    pub fn collapse(&mut self, target: Symbol, rule: CollapseRule)
        ensures
            forall|o: Set<Seq<char>>| #[trigger] replays_to(old(self)@, o) ==> replays_to(final(self)@, o),
            conserving(old(self)@) ==> conserving(final(self)@),
            final(self).initial_size == old(self).initial_size,
            final(self).options@ == old(self).options@,
            final(self).history@ == old(self).history@.push(
                SpecEvent::Collapse { target: target@, rule: rule@ },
            ),
    {
        self.history.append(Event::Collapse { target, rule });
        proof {
            lemma_count_pops_push(old(self).history@, self.history@.last());
            lemma_replay_push(old(self)@, self.history@.last(), self.options@);
        }
    }

    /// Open a scope: `name` becomes available and a `ScopeOpen` is recorded.
    pub fn open_scope(&mut self, name: Symbol)
        ensures
            final(self).initial_size == old(self).initial_size,
            final(self).options@ == old(self).options@.insert(name@),
            final(self).history@ == old(self).history@.push(SpecEvent::ScopeOpen(name@)),
    {
        self.options.insert(name.clone());
        self.history.append(Event::ScopeOpen(name));
    }

    /// Close a scope: `name` is removed from the option space and a
    /// `ScopeClose` is recorded. Fails, changing nothing, when `name` is not
    /// available.
    pub fn close_scope(&mut self, name: Symbol) -> (r: Result<(), CoreError>)
        ensures
            final(self).initial_size == old(self).initial_size,
            old(self).options@.contains(name@) ==> {
                &&& r is Ok
                &&& final(self).options@ == old(self).options@.remove(name@)
                &&& final(self).history@ == old(self).history@.push(SpecEvent::ScopeClose(name@))
            },
            !old(self).options@.contains(name@) ==> {
                &&& r == Err::<(), CoreError>(CoreError::UnbalancedScope(name))
                &&& final(self).options@ == old(self).options@
                &&& final(self).history@ == old(self).history@
            },
    {
        if !self.options.remove(&name) {
            assert(self.options@ =~= old(self).options@);
            return Err(CoreError::UnbalancedScope(name));
        }
        self.history.append(Event::ScopeClose(name));
        Ok(())
    }

    /// Record the introduction of an abstraction over `param`.
    pub fn record_lam_intro(&mut self, param: Symbol)
        ensures
            forall|o: Set<Seq<char>>| #[trigger] replays_to(old(self)@, o) ==> replays_to(final(self)@, o),
            conserving(old(self)@) ==> conserving(final(self)@),
            final(self).initial_size == old(self).initial_size,
            final(self).options@ == old(self).options@,
            final(self).history@ == old(self).history@.push(SpecEvent::LamIntro { param: param@ }),
    {
        self.history.append(Event::LamIntro { param });
        proof {
            lemma_count_pops_push(old(self).history@, self.history@.last());
            lemma_replay_push(old(self)@, self.history@.last(), self.options@);
        }
    }

    /// Record the application of `fun` to `arg`.
    pub fn record_apply(&mut self, fun: Symbol, arg: Symbol)
        ensures
            forall|o: Set<Seq<char>>| #[trigger] replays_to(old(self)@, o) ==> replays_to(final(self)@, o),
            conserving(old(self)@) ==> conserving(final(self)@),
            final(self).initial_size == old(self).initial_size,
            final(self).options@ == old(self).options@,
            final(self).history@ == old(self).history@.push(
                SpecEvent::Apply { fun: fun@, arg: arg@ },
            ),
    {
        self.history.append(Event::Apply { fun, arg });
        proof {
            lemma_count_pops_push(old(self).history@, self.history@.last());
            lemma_replay_push(old(self)@, self.history@.last(), self.options@);
        }
    }

    /// The observable state of the history under `rule`.
    pub fn observe(&self, rule: &CollapseRule) -> (r: ObservableState)
        ensures
            r@ == derive_observation(self.history@, rule@),
    {
        ObservableState::derive(&self.history, rule)
    }

    /// The observable state of the history under the identity rule.
    pub fn observe_identity(&self) -> (r: ObservableState)
        ensures
            r@ == derive_observation(self.history@, crate::kernel::event::SpecRule::Identity),
    {
        self.observe(&CollapseRule::Identity)
    }

    /// The forward projection of the current state.
    pub fn reachability_geometry(&self) -> (r: ReachabilityGeometry)
        ensures
            r@ == forward_geometry(self.history@, self.options@),
    {
        crate::kernel::reachability::forward_project(&self.history, &self.options)
    }

    /// The possibility functional Π(H, Ω) of the current state.
    pub fn possibility_functional(&self) -> (r: usize)
        requires
            possibility(self.history@, self.options@) <= usize::MAX,
        ensures
            r == possibility(self.history@, self.options@),
    {
        crate::kernel::reachability::possibility_functional(&self.history, &self.options)
    }

    /// Check the conservation law Π(H, Ω) = |Ω₀|.
    pub fn verify_conservation(&self) -> (r: Result<(), String>)
        ensures
            r is Ok <==> possibility(self.history@, self.options@) == self.initial_size,
            r matches Err(msg) ==> msg@ == conservation_violation_text(
                possibility(self.history@, self.options@),
                self.initial_size as nat,
            ),
    {
        crate::kernel::reachability::verify_conservation(
            &self.history,
            &self.options,
            self.initial_size,
        )
    }

    /// The two-projection architecture: World → F → O_c.
    pub fn two_projection(&self, rule: &CollapseRule) -> (r: (ReachabilityGeometry, ObservableState))
        ensures
            r.0@ == forward_geometry(self.history@, self.options@),
            r.1@ == derive_observation(self.history@, rule@),
    {
        crate::kernel::reachability::two_projection(&self.history, &self.options, rule)
    }

    /// Number of commitments (`Pop` events) so far.
    pub fn commitment_depth(&self) -> (r: usize)
        ensures
            r == count_pops(self.history@),
    {
        self.history.pop_count()
    }

    /// Number of refusals so far.
    pub fn refusal_count(&self) -> (r: usize)
        ensures
            r == count_refusals(self.history@),
    {
        self.history.refuse_count()
    }

    /// A symbol is admissible as long as it was never refused.
    pub fn is_admissible(&self, s: &Symbol) -> (r: bool)
        ensures
            r == !ever_refused(self.history@, s@),
    {
        !self.history.ever_refused(s)
    }

    /// The reason given by the first refusal of `s`, if it was refused.
    pub fn refusal_reason(&self, s: &Symbol) -> (r: Option<&RefusalReason>)
        ensures
            match r {
                Some(x) => first_refusal(self.history@, s@) == Some(x@),
                None => first_refusal(self.history@, s@) is None,
            },
    {
        let events = self.history.events();
        let ghost h = self.history@;
        let mut i: usize = 0;
        assert(h.skip(0) =~= h);
        while i < events.len()
            invariant
                i <= events@.len(),
                events@.map_values(|e: Event| e@) == h,
                h == self.history@,
                first_refusal(h, s@) == first_refusal(h.skip(i as int), s@),
            decreases events@.len() - i,
        {
            assert(h.skip(i as int)[0] == h[i as int]);
            assert(h[i as int] == events@[i as int]@);
            assert(h.skip(i as int).drop_first() =~= h.skip(i + 1));
            if let Event::Refuse { target, reason } = &events[i] {
                if target.same(s) {
                    assert(h.skip(i as int)[0] == SpecEvent::Refuse { target: target@, reason: reason@ });
                    assert(refuses(h.skip(i as int)[0], s@));
                    assert(first_refusal(h.skip(i as int), s@) == Some(reason@));
                    return Some(reason);
                }
            }
            i = i + 1;
        }
        None
    }
}

/// Refusal is permanent: once a history refuses `s`, every extension of it
/// still refuses `s`, and the first recorded reason stays the same.
pub proof fn law_refusal_is_permanent(h: Seq<SpecEvent>, t: Seq<SpecEvent>, s: Seq<char>)
    requires
        first_refusal(h, s) is Some,
    ensures
        first_refusal(h + t, s) == first_refusal(h, s),
        ever_refused(h + t, s),
    decreases h.len(),
{
    assert((h + t)[0] == h[0]);
    if !refuses(h[0], s) {
        assert((h + t).drop_first() =~= h.drop_first() + t);
        law_refusal_is_permanent(h.drop_first(), t, s);
        let k = choose|k: int| 0 <= k < (h.drop_first() + t).len() && #[trigger] refuses((h.drop_first() + t)[k], s);
        assert((h + t)[k + 1] == (h.drop_first() + t)[k]);
    }
}

/// Popping an available option removes it and appends its pop, keeping the
/// initial size; popping anything else is refused; recording an event
/// appends it and keeps the options.
pub proof fn law_world_steps(w: SpecWorld, x: Seq<char>, e: SpecEvent)
    ensures
        (popped(w, x) is Some) <==> w.options.contains(x),
        popped(w, x) matches Some(w2) ==> w2.options == w.options.remove(x) && w2.history
            == w.history.push(SpecEvent::Pop(x)) && w2.initial_size == w.initial_size,
        recorded(w, e).options == w.options,
        recorded(w, e).history == w.history.push(e),
        recorded(w, e).initial_size == w.initial_size,
{
}

} // verus!
pub mod entries;
pub mod observable;
pub mod reachability;
