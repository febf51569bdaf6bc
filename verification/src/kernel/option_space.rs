//! The set of currently reachable choices.

use vstd::prelude::*;
use crate::kernel::event::Symbol;
use crate::kernel::symbol_set::{lemma_ascending_set, names_joined, strictly_ascending, SymbolSet};

verus! {

/// The display text of an option space with the given names (ascending).
pub open spec fn option_space_text(names: Seq<Seq<char>>) -> Seq<char> {
    "{"@ + names_joined(names) + "}"@
}

/// The OptionSpace is the set of currently reachable / available choices.
///
/// Every Pop event removes one element. Refuse does NOT remove from the
/// option space: it records inadmissibility without foreclosing possibilities.
#[derive(Debug, PartialEq, Eq)]
pub struct OptionSpace {
    options: SymbolSet,
}

impl View for OptionSpace {
    type V = Set<Seq<char>>;

    open spec fn view(&self) -> Set<Seq<char>> {
        self.members()@
    }
}

impl Clone for OptionSpace {
    fn clone(&self) -> (r: Self)
        ensures
            r@ == self@,
            r.members().names() == self.members().names(),
    {
        OptionSpace { options: self.options.clone() }
    }
}

impl OptionSpace {
    /// The underlying ordered set.
    pub closed spec fn members(&self) -> SymbolSet {
        self.options
    }

    /// An option space holding the given symbols.
    pub fn new(options: Vec<Symbol>) -> (r: OptionSpace)
        ensures
            r@ == options@.map_values(|s: Symbol| s@).to_set(),
            r.members().names().to_set() == r@,
            strictly_ascending(r.members().names()),
    {
        let set = SymbolSet::from_vec(options);
        proof {
            lemma_ascending_set(set.names());
        }
        OptionSpace { options: set }
    }

    /// The empty option space.
    pub fn empty() -> (r: OptionSpace)
        ensures
            r@ == Set::<Seq<char>>::empty(),
    {
        OptionSpace { options: SymbolSet::empty() }
    }

    /// Insert a new option (used when a scope is opened).
    pub fn insert(&mut self, s: Symbol)
        ensures
            final(self)@ == old(self)@.insert(s@),
    {
        self.options.insert(s);
    }

    /// Whether `s` is available.
    pub fn contains(&self, s: &Symbol) -> (r: bool)
        ensures
            r == self@.contains(s@),
    {
        self.options.contains(s)
    }

    /// Remove `s`; returns whether it was present.
    pub fn remove(&mut self, s: &Symbol) -> (r: bool)
        ensures
            final(self)@ == old(self)@.remove(s@),
            r == old(self)@.contains(s@),
    {
        self.options.remove(s)
    }

    /// Keep only the options for which `keep` answers `true`.
    pub fn restrict<F: Fn(&Symbol) -> bool>(&mut self, keep: F)
        requires
            forall|s: &Symbol| #[trigger] keep.requires((s,)),
        ensures
            forall|i: int| 0 <= i < final(self).members().symbols().len() ==> old(self).members().symbols().contains(
                #[trigger] final(self).members().symbols()[i],
            ) && keep.ensures((&final(self).members().symbols()[i],), true),
            forall|i: int| 0 <= i < old(self).members().symbols().len() && !final(self).members().symbols().contains(
                #[trigger] old(self).members().symbols()[i],
            ) ==> keep.ensures((&old(self).members().symbols()[i],), false),
    {
        self.options.restrict(keep);
    }

    /// Number of options.
    pub fn len(&self) -> (r: usize)
        ensures
            r == self@.len(),
            self@.finite(),
    {
        let r = self.options.len();
        proof {
            vstd::seq_lib::seq_to_set_is_finite(self.members().names());
        }
        r
    }

    /// Whether no option is left.
    pub fn is_empty(&self) -> (r: bool)
        ensures
            r == (self@ == Set::<Seq<char>>::empty()),
    {
        self.options.is_empty()
    }

    /// The options, in ascending order of name.
    pub fn iter(&self) -> (r: &[Symbol])
        ensures
            r@.map_values(|s: Symbol| s@) == self.members().names(),
            strictly_ascending(r@.map_values(|s: Symbol| s@)),
            r@.map_values(|s: Symbol| s@).to_set() == self@,
    {
        let r = self.options.as_slice();
        proof {
            lemma_ascending_set(self.members().names());
        }
        r
    }

    /// The underlying ordered set.
    pub fn as_set(&self) -> (r: &SymbolSet)
        ensures
            r == self.members(),
    {
        &self.options
    }

    /// The display text of the option space: `{a, b, c}`.
    pub fn to_text(&self) -> (r: String)
        ensures
            r@ == option_space_text(self.members().names()),
    {
        let mut out = String::new();
        out.append("{");
        self.options.write_names(&mut out);
        out.append("}");
        assert(out@ =~= option_space_text(self.members().names()));
        out
    }
}

} // verus!
