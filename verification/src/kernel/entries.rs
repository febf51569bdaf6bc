//! A finite map from names to counts, kept in ascending order of name.

use vstd::prelude::*;
use crate::kernel::symbol_set::{lemma_ascending_no_duplicates, lemma_ascending_unique, strictly_ascending};
use crate::text::{nat_text, push_decimal};
use crate::text::{chars_less, chars_lt, chars_of, lemma_chars_lt_irreflexive,
    lemma_chars_lt_total, lemma_chars_lt_transitive};

verus! {

/// In a sequence without duplicates, `index_of` finds the one position.
pub proof fn lemma_index_of_unique<A>(s: Seq<A>, j: int)
    requires
        s.no_duplicates(),
        0 <= j < s.len(),
    ensures
        s.index_of(s[j]) == j,
{
    assert(s.contains(s[j])) by {
        assert(s[j] == s[j]);
    }
    let k = s.index_of(s[j]);
    assert(0 <= k < s.len() && s[k] == s[j]);
}

/// The names of the pairs.
pub open spec fn pair_keys(p: Seq<(String, u64)>) -> Seq<Seq<char>> {
    p.map_values(|x: (String, u64)| x.0@)
}

/// The map that a sequence of pairs with distinct keys stands for.
pub open spec fn pairs_map(p: Seq<(String, u64)>) -> Map<Seq<char>, nat> {
    Map::new(
        |k: Seq<char>| pair_keys(p).contains(k),
        |k: Seq<char>| p[pair_keys(p).index_of(k)].1 as nat,
    )
}

/// The display text of one pair: `name:count`.
pub open spec fn pair_text(p: (String, u64)) -> Seq<char> {
    p.0@ + ":"@ + nat_text(p.1 as nat)
}

/// Pairs rendered and separated by `", "`.
pub open spec fn pairs_joined(p: Seq<(String, u64)>) -> Seq<char>
    decreases p.len(),
{
    if p.len() == 0 {
        Seq::empty()
    } else if p.len() == 1 {
        pair_text(p[0])
    } else {
        pairs_joined(p.drop_last()) + ", "@ + pair_text(p.last())
    }
}

/// A finite map from names to counts, stored in ascending order of name.
#[derive(Debug, PartialEq, Eq)]
pub struct Entries {
    pairs: Vec<(String, u64)>,
}

impl View for Entries {
    type V = Map<Seq<char>, nat>;

    open spec fn view(&self) -> Map<Seq<char>, nat> {
        pairs_map(self.contents())
    }
}

impl Clone for Entries {
    fn clone(&self) -> (r: Self)
        ensures
            r.contents() == self.contents(),
    {
        proof {
            use_type_invariant(self);
        }
        let mut pairs: Vec<(String, u64)> = Vec::new();
        let mut i: usize = 0;
        while i < self.pairs.len()
            invariant
                i <= self.pairs@.len(),
                pairs@ == self.pairs@.take(i as int),
            decreases self.pairs@.len() - i,
        {
            let (k, v) = &self.pairs[i];
            pairs.push((k.clone(), *v));
            assert(pairs@ =~= self.pairs@.take(i + 1));
            i = i + 1;
        }
        assert(self.pairs@.take(i as int) =~= self.pairs@);
        Entries { pairs }
    }
}

impl Entries {
    /// The stored pairs, in ascending order of name.
    pub closed spec fn contents(&self) -> Seq<(String, u64)> {
        self.pairs@
    }

    #[verifier::type_invariant]
    closed spec fn ascending(&self) -> bool {
        strictly_ascending(pair_keys(self.pairs@))
    }

    /// The empty map.
    pub fn new() -> (r: Entries)
        ensures
            r@ == Map::<Seq<char>, nat>::empty(),
            r.contents().len() == 0,
    {
        let r = Entries { pairs: Vec::new() };
        assert(r@ =~= Map::<Seq<char>, nat>::empty());
        r
    }

    /// The stored pairs, in ascending order of name.
    pub fn pairs(&self) -> (r: &[(String, u64)])
        ensures
            r@ == self.contents(),
            strictly_ascending(pair_keys(self.contents())),
            self@ == pairs_map(self.contents()),
    {
        proof {
            use_type_invariant(self);
        }
        self.pairs.as_slice()
    }

    proof fn lemma_view(&self)
        requires
            strictly_ascending(pair_keys(self.contents())),
        ensures
            forall|j: int| 0 <= j < self.contents().len() ==> #[trigger] self@[pair_keys(
                self.contents(),
            )[j]] == self.contents()[j].1 as nat,
            self@.dom() == pair_keys(self.contents()).to_set(),
            self@.dom().len() == self.contents().len(),
            self@.dom().finite(),
    {
        let ks = pair_keys(self.contents());
        lemma_ascending_no_duplicates(ks);
        assert forall|j: int| 0 <= j < self.contents().len() implies #[trigger] self@[ks[j]]
            == self.contents()[j].1 as nat by {
            lemma_index_of_unique(ks, j);
        }
        assert(self@.dom() =~= ks.to_set());
        ks.unique_seq_to_set();
    }

    /// Locate `key`: the first position whose name is not below `key`, and
    /// whether the name there is `key`.
    fn locate(&self, key: &Vec<char>) -> (r: (usize, bool))
        ensures
            r.0 <= self.contents().len(),
            forall|j: int| 0 <= j < r.0 ==> chars_lt(#[trigger] pair_keys(self.contents())[j], key@),
            r.1 ==> r.0 < self.contents().len() && pair_keys(self.contents())[r.0 as int] == key@,
            !r.1 ==> r.0 == self.contents().len() || chars_lt(
                key@,
                pair_keys(self.contents())[r.0 as int],
            ),
    {
        proof {
            use_type_invariant(self);
        }
        let ghost ks = pair_keys(self.pairs@);
        let mut i: usize = 0;
        while i < self.pairs.len()
            invariant
                i <= self.pairs@.len(),
                ks == pair_keys(self.pairs@),
                forall|j: int| 0 <= j < i ==> chars_lt(#[trigger] ks[j], key@),
            decreases self.pairs@.len() - i,
        {
            let here = chars_of(self.pairs[i].0.as_str());
            assert(here@ == ks[i as int]);
            if !chars_less(&here, key) {
                proof {
                    lemma_chars_lt_total(ks[i as int], key@);
                }
                let found = !chars_less(key, &here);
                return (i, found);
            }
            i = i + 1;
        }
        (i, false)
    }

    /// The count stored for `key`, if any.
    pub fn get(&self, key: &str) -> (r: Option<u64>)
        ensures
            r == (if self@.contains_key(key@) {
                Some(self@[key@] as u64)
            } else {
                None
            }),
            r matches Some(v) ==> v as nat == self@[key@],
    {
        proof {
            use_type_invariant(self);
            self.lemma_view();
        }
        let k = chars_of(key);
        let (i, found) = self.locate(&k);
        if found {
            Some(self.pairs[i].1)
        } else {
            proof {
                let ks = pair_keys(self.contents());
                if ks.contains(key@) {
                    let j = choose|j: int| 0 <= j < ks.len() && ks[j] == key@;
                    if j < i {
                        lemma_chars_lt_irreflexive(key@);
                    } else if j > i {
                        lemma_chars_lt_transitive(key@, ks[i as int], ks[j]);
                        lemma_chars_lt_irreflexive(key@);
                    } else {
                        lemma_chars_lt_irreflexive(key@);
                    }
                }
            }
            None
        }
    }

    /// Whether `key` has a count.
    pub fn contains_key(&self, key: &str) -> (r: bool)
        ensures
            r == self@.contains_key(key@),
    {
        match self.get(key) {
            Some(_) => true,
            None => false,
        }
    }

    /// Number of names with a count.
    pub fn len(&self) -> (r: usize)
        ensures
            r == self@.len(),
    {
        proof {
            use_type_invariant(self);
            self.lemma_view();
        }
        self.pairs.len()
    }

    /// Store `v` for `key`, replacing any earlier count.
    pub fn put(&mut self, key: String, v: u64)
        ensures
            final(self)@ == old(self)@.insert(key@, v as nat),
    {
        proof {
            use_type_invariant(&*self);
            self.lemma_view();
        }
        let ghost old_pairs = self.pairs@;
        let ghost ks = pair_keys(old_pairs);
        let ghost kk = key@;
        let k = chars_of(key.as_str());
        let (i, found) = self.locate(&k);
        let mut pairs: Vec<(String, u64)> = Vec::new();
        std::mem::swap(&mut pairs, &mut self.pairs);
        if found {
            pairs.set(i, (key, v));
            proof {
                let nk = pair_keys(pairs@);
                assert(nk =~= ks.update(i as int, kk));
                assert(nk =~= ks);
            }
        } else {
            pairs.insert(i, (key, v));
            proof {
                let nk = pair_keys(pairs@);
                assert(nk =~= ks.insert(i as int, kk));
                assert forall|j: int| i <= j < ks.len() implies chars_lt(kk, #[trigger] ks[j]) by {
                    if j > i {
                        lemma_chars_lt_transitive(kk, ks[i as int], ks[j]);
                    }
                }
                assert forall|a: int, b: int| 0 <= a < b < nk.len() implies chars_lt(#[trigger] nk[a], #[trigger] nk[b]) by {
                    if a < i && b < i {
                    } else if a < i && b == i {
                    } else if a < i && b > i {
                        assert(nk[b] == ks[b - 1]);
                        lemma_chars_lt_transitive(nk[a], kk, ks[b - 1]);
                    } else if a == i {
                        assert(nk[b] == ks[b - 1]);
                    } else {
                        assert(nk[a] == ks[a - 1]);
                        assert(nk[b] == ks[b - 1]);
                    }
                }
            }
        }
        self.pairs = pairs;
        proof {
            self.lemma_view();
            let nk = pair_keys(self.pairs@);
            let target = old(self)@.insert(kk, v as nat);
            assert forall|x: Seq<char>| #[trigger] self@.contains_key(x) == target.contains_key(x) by {
                if found {
                    assert(ks[i as int] == kk);
                    assert(nk[i as int] == kk);
                } else {
                    if x == kk {
                        assert(nk[i as int] == kk);
                    }
                    if target.contains_key(x) && x != kk {
                        let j = choose|j: int| 0 <= j < ks.len() && ks[j] == x;
                        if j < i {
                            assert(nk[j] == x);
                        } else {
                            assert(nk[j + 1] == x);
                        }
                    }
                    if self@.contains_key(x) {
                        let j = choose|j: int| 0 <= j < nk.len() && nk[j] == x;
                        if j < i {
                            assert(ks[j] == x);
                        } else if j > i {
                            assert(ks[j - 1] == x);
                        }
                    }
                }
            }
            assert forall|x: Seq<char>| #[trigger] self@.contains_key(x) implies self@[x] == target[x] by {
                let j = choose|j: int| 0 <= j < nk.len() && nk[j] == x;
                assert(self@[nk[j]] == self.pairs@[j].1 as nat);
                if x == kk {
                    if found {
                        lemma_ascending_no_duplicates(nk);
                    } else {
                        lemma_ascending_no_duplicates(nk);
                        assert(nk[i as int] == kk);
                    }
                } else if found {
                    assert(old(self)@[ks[j]] == old_pairs[j].1 as nat);
                } else if j < i {
                    assert(old(self)@[ks[j]] == old_pairs[j].1 as nat);
                } else {
                    assert(j != i);
                    assert(old(self)@[ks[j - 1]] == old_pairs[j - 1].1 as nat);
                }
            }
            assert(self@ =~= target);
        }
    }

    /// Count one more occurrence of `key`.
    pub fn bump(&mut self, key: &str)
        requires
            old(self)@.contains_key(key@) ==> old(self)@[key@] < u64::MAX,
        ensures
            final(self)@ == old(self)@.insert(
                key@,
                if old(self)@.contains_key(key@) {
                    old(self)@[key@] + 1
                } else {
                    1
                },
            ),
    {
        match self.get(key) {
            Some(c) => self.put(String::from_str(key), c + 1),
            None => self.put(String::from_str(key), 1),
        }
    }

    /// Make sure `key` has a count, starting it at zero if it had none.
    pub fn touch(&mut self, key: &str)
        ensures
            final(self)@ == if old(self)@.contains_key(key@) {
                old(self)@
            } else {
                old(self)@.insert(key@, 0)
            },
    {
        match self.get(key) {
            Some(_) => {},
            None => self.put(String::from_str(key), 0),
        }
    }

    /// Whether the two maps are equal.
    #[verifier::loop_isolation(false)]
    pub fn same(&self, other: &Entries) -> (r: bool)
        ensures
            r == (self@ == other@),
    {
        proof {
            use_type_invariant(self);
            use_type_invariant(other);
            self.lemma_view();
            other.lemma_view();
        }
        let ghost a = pair_keys(self.pairs@);
        let ghost b = pair_keys(other.pairs@);
        if self.pairs.len() != other.pairs.len() {
            return false;
        }
        let mut i: usize = 0;
        while i < self.pairs.len()
            invariant
                i <= self.pairs@.len(),
                self.pairs@.len() == other.pairs@.len(),
                a == pair_keys(self.pairs@),
                b == pair_keys(other.pairs@),
                forall|j: int| 0 <= j < i ==> #[trigger] a[j] == b[j],
                forall|j: int| 0 <= j < i ==> #[trigger] self.pairs@[j].1 == other.pairs@[j].1,
            decreases self.pairs@.len() - i,
        {
            let (k1, v1) = &self.pairs[i];
            let (k2, v2) = &other.pairs[i];
            assert(a[i as int] == k1@);
            assert(b[i as int] == k2@);
            let same_key = crate::text::same_text(k1.as_str(), k2.as_str());
            if *v1 != *v2 || !same_key {
                proof {
                    if self@ == other@ {
                        assert(a.to_set() == self@.dom());
                        lemma_ascending_unique(a, b);
                        assert(self@[a[i as int]] == other@[b[i as int]]);
                    }
                }
                return false;
            }
            assert(*v1 == self.pairs@[i as int].1);
            assert(*v2 == other.pairs@[i as int].1);
            assert(k1@ == k2@);
            assert(a[i as int] == b[i as int]);
            i = i + 1;
        }
        proof {
            assert(a =~= b);
            assert forall|x: Seq<char>| #[trigger] self@.contains_key(x) implies self@[x] == other@[x] by {
                let j = choose|j: int| 0 <= j < a.len() && a[j] == x;
                assert(self@[a[j]] == self.pairs@[j].1 as nat);
                assert(other@[b[j]] == other.pairs@[j].1 as nat);
            }
            assert(self@ =~= other@);
        }
        true
    }

    /// Append `k:v` for each pair, ascending by name, separated by `", "`.
    pub fn write_pairs(&self, out: &mut String)
        ensures
            final(out)@ == old(out)@ + pairs_joined(self.contents()),
    {
        let mut i: usize = 0;
        while i < self.pairs.len()
            invariant
                i <= self.pairs@.len(),
                out@ == old(out)@ + pairs_joined(self.pairs@.take(i as int)),
            decreases self.pairs@.len() - i,
        {
            assert(self.pairs@.take(i + 1).drop_last() =~= self.pairs@.take(i as int));
            if i > 0 {
                out.append(", ");
            }
            let (k, v) = &self.pairs[i];
            out.append(k.as_str());
            out.append(":");
            push_decimal(out, *v as u128);
            proof {
                if i == 0 {
                    assert(pairs_joined(self.pairs@.take(1)) == pair_text(self.pairs@.take(1)[0]));
                }
            }
            assert(out@ =~= old(out)@ + pairs_joined(self.pairs@.take(i + 1)));
            i = i + 1;
        }
        assert(self.pairs@.take(i as int) =~= self.pairs@);
    }

    /// Remove the count of `key`, if any.
    pub fn remove(&mut self, key: &str)
        ensures
            final(self)@ == old(self)@.remove(key@),
    {
        proof {
            use_type_invariant(&*self);
            self.lemma_view();
        }
        let ghost old_pairs = self.pairs@;
        let ghost ks = pair_keys(old_pairs);
        let k = chars_of(key);
        let (i, found) = self.locate(&k);
        if !found {
            proof {
                if ks.contains(key@) {
                    let j = choose|j: int| 0 <= j < ks.len() && ks[j] == key@;
                    if j < i {
                        lemma_chars_lt_irreflexive(key@);
                    } else if j > i {
                        lemma_chars_lt_transitive(key@, ks[i as int], ks[j]);
                        lemma_chars_lt_irreflexive(key@);
                    } else {
                        lemma_chars_lt_irreflexive(key@);
                    }
                }
                assert(old(self)@.remove(key@) =~= old(self)@);
            }
            return;
        }
        let mut pairs: Vec<(String, u64)> = Vec::new();
        std::mem::swap(&mut pairs, &mut self.pairs);
        pairs.remove(i);
        proof {
            let nk = pair_keys(pairs@);
            assert(nk =~= ks.remove(i as int));
            assert forall|a: int, b: int| 0 <= a < b < nk.len() implies chars_lt(#[trigger] nk[a], #[trigger] nk[b]) by {
                if a < i && b < i {
                } else if a < i {
                    assert(nk[b] == ks[b + 1]);
                } else {
                    assert(nk[a] == ks[a + 1]);
                    assert(nk[b] == ks[b + 1]);
                }
            }
        }
        self.pairs = pairs;
        proof {
            self.lemma_view();
            lemma_ascending_no_duplicates(ks);
            let nk = pair_keys(self.pairs@);
            let target = old(self)@.remove(key@);
            assert forall|x: Seq<char>| #[trigger] self@.contains_key(x) == target.contains_key(x) by {
                if target.contains_key(x) {
                    let j = choose|j: int| 0 <= j < ks.len() && ks[j] == x;
                    assert(j != i);
                    if j < i {
                        assert(nk[j] == x);
                    } else {
                        assert(nk[j - 1] == x);
                    }
                }
                if self@.contains_key(x) {
                    let j = choose|j: int| 0 <= j < nk.len() && nk[j] == x;
                    if j < i {
                        assert(ks[j] == x);
                    } else {
                        assert(ks[j + 1] == x);
                    }
                }
            }
            assert forall|x: Seq<char>| #[trigger] self@.contains_key(x) implies self@[x] == target[x] by {
                let j = choose|j: int| 0 <= j < nk.len() && nk[j] == x;
                assert(self@[nk[j]] == self.pairs@[j].1 as nat);
                if j < i {
                    assert(old(self)@[ks[j]] == old_pairs[j].1 as nat);
                } else {
                    assert(old(self)@[ks[j + 1]] == old_pairs[j + 1].1 as nat);
                }
            }
            assert(self@ =~= target);
        }
    }
}

} // verus!
