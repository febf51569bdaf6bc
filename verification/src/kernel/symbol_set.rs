//! A finite set of symbols, kept in ascending order of their names.

use vstd::prelude::*;
use crate::kernel::event::Symbol;
use crate::text::{chars_of, chars_less, chars_lt, lemma_chars_lt_irreflexive,
    lemma_chars_lt_total, lemma_chars_lt_transitive};

verus! {

/// Whether a sequence of names is strictly ascending.
pub open spec fn strictly_ascending(s: Seq<Seq<char>>) -> bool {
    forall|i: int, j: int| 0 <= i < j < s.len() ==> chars_lt(#[trigger] s[i], #[trigger] s[j])
}

/// A strictly ascending sequence holds no name twice.
pub proof fn lemma_ascending_no_duplicates(s: Seq<Seq<char>>)
    requires
        strictly_ascending(s),
    ensures
        s.no_duplicates(),
{
    assert forall|i: int, j: int| 0 <= i < s.len() && 0 <= j < s.len() && i != j implies s[i]
        != s[j] by {
        if i < j {
            lemma_chars_lt_irreflexive(s[i]);
        } else {
            lemma_chars_lt_irreflexive(s[j]);
        }
    }
}

/// Two strictly ascending sequences with the same members are equal.
pub proof fn lemma_ascending_unique(a: Seq<Seq<char>>, b: Seq<Seq<char>>)
    requires
        strictly_ascending(a),
        strictly_ascending(b),
        a.to_set() == b.to_set(),
    ensures
        a == b,
    decreases a.len(),
{
    if a.len() == 0 {
        if b.len() > 0 {
            assert(b.to_set().contains(b[0]));
        }
        assert(a =~= b);
    } else {
        assert(a.to_set().contains(a[0]));
        assert(b.len() > 0);
        assert(b.to_set().contains(b[0]));
        let j = choose|j: int| 0 <= j < b.len() && b[j] == a[0];
        let k = choose|k: int| 0 <= k < a.len() && a[k] == b[0];
        if j > 0 {
            if k > 0 {
                lemma_chars_lt_transitive(b[0], b[j], a[k]);
                lemma_chars_lt_irreflexive(b[0]);
            } else {
                lemma_chars_lt_irreflexive(b[0]);
            }
        }
        assert(a[0] == b[0]);
        lemma_ascending_no_duplicates(a);
        lemma_ascending_no_duplicates(b);
        let a1 = a.drop_first();
        let b1 = b.drop_first();
        assert(a1.to_set() =~= b1.to_set()) by {
            assert forall|x: Seq<char>| a1.to_set().contains(x) implies b1.to_set().contains(x) by {
                let p = choose|p: int| 0 <= p < a1.len() && a1[p] == x;
                assert(a.to_set().contains(x)) by { assert(a[p + 1] == x); }
                let q = choose|q: int| 0 <= q < b.len() && b[q] == x;
                assert(q != 0) by { if q == 0 { assert(a[p + 1] == a[0]); } }
                assert(b1[q - 1] == x);
            }
            assert forall|x: Seq<char>| b1.to_set().contains(x) implies a1.to_set().contains(x) by {
                let p = choose|p: int| 0 <= p < b1.len() && b1[p] == x;
                assert(b.to_set().contains(x)) by { assert(b[p + 1] == x); }
                let q = choose|q: int| 0 <= q < a.len() && a[q] == x;
                assert(q != 0) by { if q == 0 { assert(b[p + 1] == b[0]); } }
                assert(a1[q - 1] == x);
            }
        }
        lemma_ascending_unique(a1, b1);
        assert(a =~= b) by {
            assert forall|i: int| 0 <= i < a.len() implies a[i] == b[i] by {
                if i > 0 {
                    assert(a[i] == a1[i - 1]);
                    assert(b[i] == b1[i - 1]);
                }
            }
        }
    }
}

/// A strictly ascending sequence, as a set, has as many members as entries.
pub proof fn lemma_ascending_set(s: Seq<Seq<char>>)
    requires
        strictly_ascending(s),
    ensures
        s.no_duplicates(),
        s.to_set().len() == s.len(),
        s.to_set().finite(),
{
    lemma_ascending_no_duplicates(s);
    s.unique_seq_to_set();
}

/// Names separated by `", "`.
pub open spec fn names_joined(s: Seq<Seq<char>>) -> Seq<char>
    decreases s.len(),
{
    if s.len() == 0 {
        Seq::empty()
    } else if s.len() == 1 {
        s[0]
    } else {
        names_joined(s.drop_last()) + ", "@ + s.last()
    }
}

/// Whether `a` sorts strictly before `b`.
pub fn symbol_less(a: &Symbol, b: &Symbol) -> (r: bool)
    ensures
        r == chars_lt(a@, b@),
{
    let x = chars_of(a.0.as_str());
    let y = chars_of(b.0.as_str());
    chars_less(&x, &y)
}

/// A finite set of symbols, stored in ascending order of name.
#[derive(Debug, PartialEq, Eq)]
pub struct SymbolSet {
    items: Vec<Symbol>,
}

impl View for SymbolSet {
    type V = Set<Seq<char>>;

    open spec fn view(&self) -> Set<Seq<char>> {
        self.names().to_set()
    }
}

impl Clone for SymbolSet {
    fn clone(&self) -> (r: Self)
        ensures
            r@ == self@,
            r.names() == self.names(),
    {
        proof {
            use_type_invariant(self);
        }
        let mut items: Vec<Symbol> = Vec::new();
        let mut i: usize = 0;
        while i < self.items.len()
            invariant
                i <= self.items@.len(),
                items@ == self.items@.take(i as int),
            decreases self.items@.len() - i,
        {
            items.push(self.items[i].clone());
            assert(items@ =~= self.items@.take(i + 1));
            i = i + 1;
        }
        assert(self.items@.take(i as int) =~= self.items@);
        SymbolSet { items }
    }
}

impl SymbolSet {
    /// The stored symbols, in ascending order of name.
    pub closed spec fn symbols(&self) -> Seq<Symbol> {
        self.items@
    }

    /// The names in the set, in ascending order.
    pub open spec fn names(&self) -> Seq<Seq<char>> {
        self.symbols().map_values(|s: Symbol| s@)
    }

    #[verifier::type_invariant]
    closed spec fn ascending(&self) -> bool {
        strictly_ascending(self.names())
    }

    /// The empty set.
    pub fn empty() -> (r: SymbolSet)
        ensures
            r.names() == Seq::<Seq<char>>::empty(),
            r@ == Set::<Seq<char>>::empty(),
    {
        let r = SymbolSet { items: Vec::new() };
        assert(r.names() =~= Seq::<Seq<char>>::empty());
        r
    }

    /// Number of members.
    pub fn len(&self) -> (r: usize)
        ensures
            r == self@.len(),
            r == self.names().len(),
    {
        proof {
            use_type_invariant(self);
            lemma_ascending_set(self.names());
        }
        self.items.len()
    }

    /// Whether the set has no members.
    pub fn is_empty(&self) -> (r: bool)
        ensures
            r == (self@.len() == 0),
            r == (self@ == Set::<Seq<char>>::empty()),
    {
        proof {
            use_type_invariant(self);
            lemma_ascending_set(self.names());
            if self.items.len() > 0 {
                assert(self@.contains(self.names()[0]));
            } else {
                assert(self@ =~= Set::<Seq<char>>::empty());
            }
        }
        self.items.len() == 0
    }

    /// The members, in ascending order of name.
    pub fn as_slice(&self) -> (r: &[Symbol])
        ensures
            r@.map_values(|s: Symbol| s@) == self.names(),
            strictly_ascending(self.names()),
    {
        proof {
            use_type_invariant(self);
        }
        self.items.as_slice()
    }

    /// The set of the names of `v`.
    pub fn from_vec(v: Vec<Symbol>) -> (r: SymbolSet)
        ensures
            r@ == v@.map_values(|s: Symbol| s@).to_set(),
            strictly_ascending(r.names()),
    {
        let mut r = SymbolSet::empty();
        let mut v = v;
        let ghost all = v@.map_values(|s: Symbol| s@);
        let mut i: usize = 0;
        let n = v.len();
        while i < n
            invariant
                n == v@.len(),
                i <= n,
                all == v@.map_values(|s: Symbol| s@),
                r@ == all.take(i as int).to_set(),
            decreases n - i,
        {
            let s = v[i].clone();
            r.insert(s);
            proof {
                let t0 = all.take(i as int);
                let t1 = all.take(i + 1);
                assert(t1 =~= t0.push(all[i as int]));
                assert forall|x: Seq<char>| t1.to_set().contains(x) implies
                    t0.to_set().insert(all[i as int]).contains(x) by {
                    let k = choose|k: int| 0 <= k < t1.len() && #[trigger] t1[k] == x;
                    if k < i {
                        assert(t0[k] == x);
                    }
                }
                assert forall|x: Seq<char>| t0.to_set().insert(all[i as int]).contains(x)
                    implies t1.to_set().contains(x) by {
                    if x == all[i as int] {
                        assert(t1[i as int] == x);
                    } else {
                        let k = choose|k: int| 0 <= k < t0.len() && #[trigger] t0[k] == x;
                        assert(t1[k] == x);
                    }
                }
                assert(t1.to_set() =~= t0.to_set().insert(all[i as int]));
            }
            i = i + 1;
        }
        assert(all.take(n as int) =~= all);
        proof {
            use_type_invariant(&r);
        }
        r
    }

    /// Keep only the members for which `keep` answers `true`.
    pub fn restrict<F: Fn(&Symbol) -> bool>(&mut self, keep: F)
        requires
            forall|s: &Symbol| #[trigger] keep.requires((s,)),
        ensures
            forall|i: int| 0 <= i < final(self).symbols().len() ==> old(self).symbols().contains(
                #[trigger] final(self).symbols()[i],
            ) && keep.ensures((&final(self).symbols()[i],), true),
            forall|i: int| 0 <= i < old(self).symbols().len() && !final(self).symbols().contains(
                #[trigger] old(self).symbols()[i],
            ) ==> keep.ensures((&old(self).symbols()[i],), false),
    {
        proof {
            use_type_invariant(&*self);
        }
        let ghost old_syms = self.items@;
        let ghost on = old_syms.map_values(|s: Symbol| s@);
        let mut kept: Vec<Symbol> = Vec::new();
        let ghost mut idx: Seq<int> = Seq::empty();
        let mut i: usize = 0;
        let n = self.items.len();
        while i < n
            invariant
                n == old_syms.len(),
                i <= n,
                self.items@ == old_syms,
                on == old_syms.map_values(|s: Symbol| s@),
                strictly_ascending(on),
                forall|s: &Symbol| #[trigger] keep.requires((s,)),
                kept@.len() == idx.len(),
                forall|a: int| 0 <= a < idx.len() ==> 0 <= #[trigger] idx[a] < i && kept@[a]
                    == old_syms[idx[a]] && keep.ensures((&kept@[a],), true),
                forall|a: int, b: int| 0 <= a < b < idx.len() ==> #[trigger] idx[a] < #[trigger] idx[b],
                forall|j: int| 0 <= j < i ==> (kept@.contains(#[trigger] old_syms[j]) || keep.ensures(
                    (&old_syms[j],),
                    false,
                )),
            decreases n - i,
        {
            let b = keep(&self.items[i]);
            if b {
                let s = self.items[i].clone();
                let ghost kept_old = kept@;
                kept.push(s);
                proof {
                    assert(kept@.drop_last() == kept_old);
                    idx = idx.push(i as int);
                    assert(kept@[kept@.len() - 1] == old_syms[i as int]);
                    assert forall|j: int| 0 <= j < i + 1 implies (kept@.contains(#[trigger] old_syms[j])
                        || keep.ensures((&old_syms[j],), false)) by {
                        if j == i {
                            assert(kept@[kept@.len() - 1] == old_syms[j]);
                        } else if kept_old.contains(old_syms[j]) {
                            let k = choose|k: int| 0 <= k < kept_old.len() && kept_old[k] == old_syms[j];
                            assert(kept@[k] == old_syms[j]);
                        }
                    }
                }
            } else {
                proof {
                    assert(keep.ensures((&old_syms[i as int],), false));
                    assert forall|j: int| 0 <= j < i + 1 implies (kept@.contains(#[trigger] old_syms[j])
                        || keep.ensures((&old_syms[j],), false)) by {
                    }
                }
            }
            i = i + 1;
        }
        proof {
            let kn = kept@.map_values(|s: Symbol| s@);
            assert forall|a: int, b: int| 0 <= a < b < kn.len() implies chars_lt(#[trigger] kn[a], #[trigger] kn[b]) by {
                assert(idx[a] < idx[b]);
                assert(on[idx[a]] == kn[a] && on[idx[b]] == kn[b]);
            }
            assert forall|j: int| 0 <= j < kept@.len() implies old_syms.contains(#[trigger] kept@[j])
                && keep.ensures((&kept@[j],), true) by {
                assert(0 <= idx[j] < n);
                assert(old_syms[idx[j]] == kept@[j]);
            }
        }
        self.items = kept;
    }

    /// Number of members of `self` that are also members of `other`.
    pub fn count_common(&self, other: &SymbolSet) -> (r: usize)
        ensures
            r == self@.intersect(other@).len(),
    {
        proof {
            use_type_invariant(self);
            lemma_ascending_no_duplicates(self.names());
        }
        let mut c: usize = 0;
        let mut i: usize = 0;
        let ghost names = self.names();
        assert(names.take(0).to_set().intersect(other@) =~= Set::<Seq<char>>::empty());
        while i < self.items.len()
            invariant
                i <= self.items@.len(),
                names == self.names(),
                names.no_duplicates(),
                c == names.take(i as int).to_set().intersect(other@).len(),
                names.take(i as int).to_set().intersect(other@).finite(),
                c <= i,
            decreases self.items@.len() - i,
        {
            let ghost before = names.take(i as int).to_set().intersect(other@);
            let ghost x = names[i as int];
            proof {
                assert(names.take(i + 1) =~= names.take(i as int).push(x));
                names.take(i as int).lemma_push_to_set_commute(x);
                assert(names.take(i + 1).to_set().intersect(other@) =~= if other@.contains(x) {
                    before.insert(x)
                } else {
                    before
                });
                assert(!before.contains(x)) by {
                    if before.contains(x) {
                        let k = choose|k: int| 0 <= k < i && names.take(i as int)[k] == x;
                        assert(names[k] == names[i as int]);
                    }
                }
            }
            if other.contains(&self.items[i]) {
                c = c + 1;
            }
            i = i + 1;
        }
        assert(names.take(i as int) =~= names);
        c
    }

    /// Append the names of the members to `out`, ascending, separated by `", "`.
    pub fn write_names(&self, out: &mut String)
        ensures
            final(out)@ == old(out)@ + names_joined(self.names()),
    {
        let mut i: usize = 0;
        while i < self.items.len()
            invariant
                i <= self.items@.len(),
                out@ == old(out)@ + names_joined(self.names().take(i as int)),
            decreases self.items@.len() - i,
        {
            assert(self.names().take(i + 1).drop_last() =~= self.names().take(i as int));
            if i > 0 {
                out.append(", ");
            }
            out.append(self.items[i].0.as_str());
            proof {
                if i == 0 {
                    assert(names_joined(self.names().take(1)) == self.names().take(1)[0]);
                }
            }
            assert(out@ =~= old(out)@ + names_joined(self.names().take(i + 1)));
            i = i + 1;
        }
        assert(self.names().take(i as int) =~= self.names());
    }

    /// Position of `s` among the members, if present.
    fn find(&self, s: &Symbol) -> (r: Option<usize>)
        ensures
            match r {
                Some(i) => i < self.names().len() && self.names()[i as int] == s@,
                None => !self@.contains(s@),
            },
    {
        let mut i: usize = 0;
        while i < self.items.len()
            invariant
                i <= self.items@.len(),
                forall|j: int| 0 <= j < i ==> self.names()[j] != s@,
            decreases self.items@.len() - i,
        {
            if self.items[i].same(s) {
                return Some(i);
            }
            i = i + 1;
        }
        None
    }

    /// Whether `s` is a member.
    pub fn contains(&self, s: &Symbol) -> (r: bool)
        ensures
            r == self@.contains(s@),
    {
        match self.find(s) {
            Some(_) => true,
            None => false,
        }
    }

    /// Add `s`; returns whether it was newly added.
    pub fn insert(&mut self, s: Symbol) -> (r: bool)
        ensures
            final(self)@ == old(self)@.insert(s@),
            r == !old(self)@.contains(s@),
    {
        proof {
            use_type_invariant(&*self);
        }
        let ghost old_names = self.names();
        let mut i: usize = 0;
        while i < self.items.len() && symbol_less(&self.items[i], &s)
            invariant
                i <= self.items@.len(),
                self.names() == old_names,
                strictly_ascending(old_names),
                forall|j: int| 0 <= j < i ==> chars_lt(#[trigger] old_names[j], s@),
            decreases self.items@.len() - i,
        {
            i = i + 1;
        }
        if i < self.items.len() && self.items[i].same(&s) {
            proof {
                assert(old_names.to_set().contains(s@)) by {
                    assert(old_names[i as int] == s@);
                }
                assert(old_names.to_set().insert(s@) =~= old_names.to_set());
            }
            return false;
        }
        let ghost ss = s@;
        proof {
            if i < old_names.len() {
                lemma_chars_lt_total(old_names[i as int], ss);
            }
            assert forall|k: int| i <= k < old_names.len() implies chars_lt(ss, #[trigger] old_names[k]) by {
                if k > i {
                    lemma_chars_lt_transitive(ss, old_names[i as int], old_names[k]);
                }
            }
            assert(!old_names.to_set().contains(ss)) by {
                if old_names.to_set().contains(ss) {
                    let k = choose|k: int| 0 <= k < old_names.len() && old_names[k] == ss;
                    if k < i {
                        lemma_chars_lt_irreflexive(ss);
                    } else {
                        lemma_chars_lt_irreflexive(ss);
                    }
                }
            }
        }
        let mut items: Vec<Symbol> = Vec::new();
        std::mem::swap(&mut items, &mut self.items);
        items.insert(i, s);
        proof {
            let n = items@.map_values(|s: Symbol| s@);
            assert(n =~= old_names.insert(i as int, ss));
            assert forall|a: int, b: int| 0 <= a < b < n.len() implies chars_lt(#[trigger] n[a], #[trigger] n[b]) by {
                if a < i && b < i {
                } else if a < i && b == i {
                } else if a < i && b > i {
                    assert(n[b] == old_names[b - 1]);
                } else if a == i {
                    assert(n[b] == old_names[b - 1]);
                } else {
                    assert(n[a] == old_names[a - 1]);
                    assert(n[b] == old_names[b - 1]);
                }
            }
            assert(n.to_set() =~= old_names.to_set().insert(ss)) by {
                assert forall|x: Seq<char>| n.to_set().contains(x) implies old_names.to_set().insert(ss).contains(x) by {
                    let k = choose|k: int| 0 <= k < n.len() && n[k] == x;
                    if k < i {
                        assert(old_names[k] == x);
                    } else if k > i {
                        assert(old_names[k - 1] == x);
                    }
                }
                assert forall|x: Seq<char>| old_names.to_set().insert(ss).contains(x) implies n.to_set().contains(x) by {
                    if x == ss {
                        assert(n[i as int] == x);
                    } else {
                        let k = choose|k: int| 0 <= k < old_names.len() && old_names[k] == x;
                        if k < i {
                            assert(n[k] == x);
                        } else {
                            assert(n[k + 1] == x);
                        }
                    }
                }
            }
        }
        self.items = items;
        true
    }

    /// Remove `s`; returns whether it was present.
    pub fn remove(&mut self, s: &Symbol) -> (r: bool)
        ensures
            final(self)@ == old(self)@.remove(s@),
            r == old(self)@.contains(s@),
    {
        proof {
            use_type_invariant(&*self);
        }
        let ghost old_names = self.names();
        proof {
            lemma_ascending_no_duplicates(old_names);
        }
        match self.find(s) {
            None => {
                assert(old_names.to_set().remove(s@) =~= old_names.to_set());
                false
            },
            Some(i) => {
                let mut items: Vec<Symbol> = Vec::new();
                std::mem::swap(&mut items, &mut self.items);
                items.remove(i);
                proof {
                    let n = items@.map_values(|s: Symbol| s@);
                    assert(n =~= old_names.remove(i as int));
                    assert forall|a: int, b: int| 0 <= a < b < n.len() implies chars_lt(#[trigger] n[a], #[trigger] n[b]) by {
                        if a < i && b < i {
                        } else if a < i {
                            assert(n[b] == old_names[b + 1]);
                        } else {
                            assert(n[a] == old_names[a + 1]);
                            assert(n[b] == old_names[b + 1]);
                        }
                    }
                    assert(n.to_set() =~= old_names.to_set().remove(s@)) by {
                        assert forall|x: Seq<char>| n.to_set().contains(x) implies old_names.to_set().remove(s@).contains(x) by {
                            let k = choose|k: int| 0 <= k < n.len() && n[k] == x;
                            if k < i {
                                assert(old_names[k] == x);
                            } else {
                                assert(old_names[k + 1] == x);
                            }
                        }
                        assert forall|x: Seq<char>| old_names.to_set().remove(s@).contains(x) implies n.to_set().contains(x) by {
                            let k = choose|k: int| 0 <= k < old_names.len() && old_names[k] == x;
                            if k < i {
                                assert(n[k] == x);
                            } else {
                                assert(k != i);
                                assert(n[k - 1] == x);
                            }
                        }
                    }
                }
                self.items = items;
                true
            },
        }
    }
}

} // verus!
