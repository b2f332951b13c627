//! The grocery list store: a name-to-quantity mapping with overwrite
//! semantics on insert and silent no-op semantics on removing an absent
//! name. The abstract value of a list is a `Map<Seq<char>, int>`; the
//! concrete representation keeps one entry per name, ordered by when
//! each name was last written, so that every reading of the list is
//! deterministic.

use vstd::prelude::*;

verus! {

/// One name/quantity pair as it sits in the list.
pub struct Entry {
    pub name: String,
    pub quantity: i32,
}

/// The grocery list: at most one quantity per name.
pub struct GroceryList {
    entries: Vec<Entry>,
}

/// The mapping denoted by a sequence of entries; a later entry for the
/// same name would win, though well-formed lists never hold two.
pub open spec fn map_of(s: Seq<Entry>) -> Map<Seq<char>, int>
    decreases s.len(),
{
    if s.len() == 0 {
        Map::empty()
    } else {
        map_of(s.drop_last()).insert(s.last().name@, s.last().quantity as int)
    }
}

/// No two entries share a name.
pub open spec fn names_unique(s: Seq<Entry>) -> bool {
    forall|i: int, j: int| 0 <= i < j < s.len() ==> s[i].name@ != s[j].name@
}

/// The pairs denoted by a sequence of entries, in the same order.
pub open spec fn pairs_of(s: Seq<Entry>) -> Seq<(Seq<char>, int)> {
    Seq::new(s.len(), |i: int| (s[i].name@, s[i].quantity as int))
}

/// A sequence of entries with every entry named `n` dropped.
pub open spec fn drop_name(s: Seq<Entry>, n: Seq<char>) -> Seq<Entry>
    decreases s.len(),
{
    if s.len() == 0 {
        Seq::empty()
    } else if s.last().name@ == n {
        drop_name(s.drop_last(), n)
    } else {
        drop_name(s.drop_last(), n).push(s.last())
    }
}

/// A sequence of pairs with every pair keyed `n` dropped; this is what
/// inserting or removing `n` does to the order-preserving reading of the
/// list.
pub open spec fn drop_pair(s: Seq<(Seq<char>, int)>, n: Seq<char>) -> Seq<(Seq<char>, int)>
    decreases s.len(),
{
    if s.len() == 0 {
        Seq::empty()
    } else if s.last().0 == n {
        drop_pair(s.drop_last(), n)
    } else {
        drop_pair(s.drop_last(), n).push(s.last())
    }
}

proof fn lemma_drop_name(s: Seq<Entry>, n: Seq<char>)
    ensures
        map_of(drop_name(s, n)) == map_of(s).remove(n),
        forall|i: int| 0 <= i < drop_name(s, n).len() ==> (#[trigger] drop_name(s, n)[i]).name@
            != n,
        forall|i: int|
            0 <= i < drop_name(s, n).len() ==> exists|j: int|
                0 <= j < s.len() && #[trigger] drop_name(s, n)[i] == s[j],
        names_unique(s) ==> names_unique(drop_name(s, n)),
        drop_name(s, n).len() <= s.len(),
        pairs_of(drop_name(s, n)) == drop_pair(pairs_of(s), n),
    decreases s.len(),
{
    if s.len() == 0 {
        assert(map_of(drop_name(s, n)) =~= map_of(s).remove(n));
        assert(pairs_of(drop_name(s, n)) =~= drop_pair(pairs_of(s), n));
    } else {
        let d = s.drop_last();
        lemma_drop_name(d, n);
        assert(names_unique(s) ==> names_unique(d));
        assert(pairs_of(s).drop_last() =~= pairs_of(d));
        assert(pairs_of(s).last() == (s.last().name@, s.last().quantity as int));
        if s.last().name@ == n {
            assert(map_of(s).remove(n) =~= map_of(d).remove(n));
            assert(drop_pair(pairs_of(s), n) == drop_pair(pairs_of(d), n));
            assert forall|i: int| 0 <= i < drop_name(s, n).len() implies exists|j: int|
                0 <= j < s.len() && #[trigger] drop_name(s, n)[i] == s[j] by {
                let j = choose|j: int| 0 <= j < d.len() && drop_name(d, n)[i] == d[j];
                assert(drop_name(s, n)[i] == s[j]);
            }
        } else {
            let r = drop_name(d, n).push(s.last());
            assert(drop_name(s, n) == r);
            assert(r.drop_last() =~= drop_name(d, n));
            assert(r.last() == s.last());
            assert(map_of(r) == map_of(drop_name(d, n)).insert(
                s.last().name@,
                s.last().quantity as int,
            ));
            assert(map_of(s).remove(n) =~= map_of(d).remove(n).insert(
                s.last().name@,
                s.last().quantity as int,
            ));
            assert(drop_pair(pairs_of(s), n) == drop_pair(pairs_of(d), n).push(pairs_of(s).last()));
            assert(pairs_of(r) =~= pairs_of(drop_name(d, n)).push(
                (s.last().name@, s.last().quantity as int),
            ));
            assert forall|i: int| 0 <= i < r.len() implies exists|j: int|
                0 <= j < s.len() && #[trigger] r[i] == s[j] by {
                if i < r.len() - 1 {
                    let j = choose|j: int| 0 <= j < d.len() && drop_name(d, n)[i] == d[j];
                    assert(r[i] == s[j]);
                } else {
                    assert(r[i] == s[s.len() - 1]);
                }
            }
            if names_unique(s) {
                assert forall|i: int, j: int| 0 <= i < j < r.len() implies r[i].name@
                    != r[j].name@ by {
                    if j < r.len() - 1 {
                        assert(drop_name(d, n)[i] == r[i]);
                        assert(drop_name(d, n)[j] == r[j]);
                    } else {
                        let m = choose|m: int| 0 <= m < d.len() && drop_name(d, n)[i] == d[m];
                        assert(r[i] == s[m]);
                        assert(s[m].name@ != s[s.len() - 1].name@);
                    }
                }
            }
        }
    }
}

/// The pairs reading and the mapping reading of one list agree: no
/// name appears twice, every pair is in the mapping, and every mapping
/// entry comes from a pair.
pub open spec fn pairs_denote(ps: Seq<(Seq<char>, int)>, m: Map<Seq<char>, int>) -> bool {
    &&& forall|i: int, j: int| 0 <= i < j < ps.len() ==> ps[i].0 != ps[j].0
    &&& forall|i: int|
        0 <= i < ps.len() ==> m.contains_key((#[trigger] ps[i]).0) && m[ps[i].0] == ps[i].1
    &&& forall|k: Seq<char>|
        #[trigger] m.contains_key(k) ==> exists|i: int| 0 <= i < ps.len() && (#[trigger] ps[i]).0
            == k
}

proof fn lemma_map_of_contains(s: Seq<Entry>, n: Seq<char>)
    ensures
        map_of(s).contains_key(n) <==> exists|i: int|
            0 <= i < s.len() && (#[trigger] s[i]).name@ == n,
    decreases s.len(),
{
    if s.len() > 0 {
        lemma_map_of_contains(s.drop_last(), n);
        if s.last().name@ == n {
            assert(s[s.len() - 1].name@ == n);
        } else if map_of(s).contains_key(n) {
            let i = choose|i: int|
                0 <= i < s.drop_last().len() && (#[trigger] s.drop_last()[i]).name@ == n;
            assert(s[i].name@ == n);
        } else {
            assert forall|i: int| 0 <= i < s.len() implies (#[trigger] s[i]).name@ != n by {
                if i < s.len() - 1 {
                    assert(s.drop_last()[i].name@ != n);
                }
            }
        }
    }
}

proof fn lemma_map_of_index(s: Seq<Entry>, i: int)
    requires
        names_unique(s),
        0 <= i < s.len(),
    ensures
        map_of(s).contains_key(s[i].name@),
        map_of(s)[s[i].name@] == s[i].quantity as int,
    decreases s.len(),
{
    if i == s.len() - 1 {
    } else {
        lemma_map_of_index(s.drop_last(), i);
        assert(s.drop_last()[i] == s[i]);
        assert(s[i].name@ != s.last().name@);
    }
}

impl GroceryList {
    /// Which mapping the list currently holds.
    pub closed spec fn view(&self) -> Map<Seq<char>, int> {
        map_of(self.entries@)
    }

    /// The pairs the list currently holds, in order.
    pub closed spec fn pairs(&self) -> Seq<(Seq<char>, int)> {
        pairs_of(self.entries@)
    }

    #[verifier::type_invariant]
    spec fn wf(&self) -> bool {
        names_unique(self.entries@)
    }

    /// A fresh, empty list.
    pub fn new() -> (r: GroceryList)
        ensures
            r@ == Map::<Seq<char>, int>::empty(),
            r.pairs() == Seq::<(Seq<char>, int)>::empty(),
    {
        let r = GroceryList { entries: Vec::new() };
        proof {
            assert(r.pairs() =~= Seq::<(Seq<char>, int)>::empty());
        }
        r
    }

    /// A copy of the underlying vector with every entry named `name` dropped.
    fn removed_vec(&self, name: &str) -> (kept: Vec<Entry>)
        ensures
            kept@ == drop_name(self.entries@, name@),
    {
        let mut kept: Vec<Entry> = Vec::new();
        let n = self.entries.len();
        let mut i: usize = 0;
        while i < n
            invariant
                i <= n,
                n == self.entries@.len(),
                kept@ == drop_name(self.entries@.take(i as int), name@),
            decreases n - i,
        {
            let e = &self.entries[i];
            proof {
                assert(self.entries@.take(i as int + 1).drop_last() =~= self.entries@.take(i as int));
                assert(self.entries@.take(i as int + 1).last() == self.entries@[i as int]);
            }
            if !crate::strutil::str_eq(e.name.as_str(), name) {
                kept.push(Entry { name: e.name.clone(), quantity: e.quantity });
            }
            i += 1;
        }
        proof {
            assert(self.entries@.take(n as int) =~= self.entries@);
        }
        kept
    }

    /// Sets `name` to `quantity`, overwriting any quantity the name had.
    pub fn insert(&mut self, name: String, quantity: i32)
        ensures
            final(self)@ == old(self)@.insert(name@, quantity as int),
            final(self).pairs() == drop_pair(old(self).pairs(), name@).push(
                (name@, quantity as int),
            ),
    {
        proof {
            use_type_invariant(&*self);
            lemma_drop_name(old(self).entries@, name@);
        }
        let mut kept = self.removed_vec(name.as_str());
        let ghost dropped = kept@;
        kept.push(Entry { name, quantity });
        self.entries = kept;
        proof {
            assert(self.entries@.drop_last() =~= dropped);
            assert(self@ =~= old(self)@.insert(name@, quantity as int));
            assert(self.pairs() =~= pairs_of(dropped).push((name@, quantity as int)));
        }
    }

    /// Removes `name` if present; removing an absent name changes nothing.
    pub fn remove(&mut self, name: &str)
        ensures
            final(self)@ == old(self)@.remove(name@),
            final(self).pairs() == drop_pair(old(self).pairs(), name@),
    {
        proof {
            use_type_invariant(&*self);
            lemma_drop_name(old(self).entries@, name@);
        }
        self.entries = self.removed_vec(name);
    }

    /// The quantity stored under `name`, if any.
    pub fn get(&self, name: &str) -> (r: Option<i32>)
        ensures
            match r {
                Some(q) => self@.contains_key(name@) && self@[name@] == q as int,
                None => !self@.contains_key(name@),
            },
    {
        proof {
            use_type_invariant(self);
        }
        let n = self.entries.len();
        let mut i: usize = 0;
        while i < n
            invariant
                i <= n,
                n == self.entries@.len(),
                names_unique(self.entries@),
                self@ == map_of(self.entries@),
                forall|j: int| 0 <= j < i ==> (#[trigger] self.entries@[j]).name@ != name@,
            decreases n - i,
        {
            let e = &self.entries[i];
            if crate::strutil::str_eq(e.name.as_str(), name) {
                proof {
                    lemma_map_of_index(self.entries@, i as int);
                }
                return Some(e.quantity);
            }
            i += 1;
        }
        proof {
            lemma_map_of_contains(self.entries@, name@);
        }
        None
    }

    /// The list's pairs denote exactly its mapping: each name at most
    /// once, each pair present in the mapping, nothing in the mapping
    /// beyond the pairs. So any reading of the pairs — the JSON
    /// rendering among them — serializes the mapping itself.
    /// (Stated as an executable function so that the type invariant,
    /// which only holds of values that exist at run time, can be used.)
    pub fn pairs_denote_view(&self)
        ensures
            pairs_denote(self.pairs(), self@),
    {
        proof {
            use_type_invariant(self);
            self.pairs_denote_view_proof();
        }
    }

    proof fn pairs_denote_view_proof(&self)
        requires
            names_unique(self.entries@),
        ensures
            pairs_denote(self.pairs(), self@),
    {
        let s = self.entries@;
        let ps = self.pairs();
        assert forall|i: int|
            0 <= i < ps.len() implies self@.contains_key((#[trigger] ps[i]).0) && self@[ps[i].0]
            == ps[i].1 by {
            lemma_map_of_index(s, i);
        }
        assert forall|k: Seq<char>| #[trigger]
            self@.contains_key(k) implies exists|i: int|
            0 <= i < ps.len() && (#[trigger] ps[i]).0 == k by {
            lemma_map_of_contains(s, k);
            let i = choose|i: int| 0 <= i < s.len() && (#[trigger] s[i]).name@ == k;
            assert(ps[i].0 == k);
        }
    }

    /// The name stored at position `i` of the list.
    pub fn name_at(&self, i: usize) -> (r: &String)
        requires
            i < self.pairs().len(),
        ensures
            r@ == self.pairs()[i as int].0,
    {
        &self.entries[i].name
    }

    /// The quantity stored at position `i` of the list.
    pub fn quantity_at(&self, i: usize) -> (r: i32)
        requires
            i < self.pairs().len(),
        ensures
            r as int == self.pairs()[i as int].1,
    {
        let e = &self.entries[i];
        e.quantity
    }

    /// How many distinct names the list holds.
    pub fn len(&self) -> (r: usize)
        ensures
            r == self.pairs().len(),
    {
        self.entries.len()
    }

    /// A snapshot copy of the whole list.
    pub fn list(&self) -> (r: GroceryList)
        ensures
            r@ == self@,
            r.pairs() == self.pairs(),
    {
        proof {
            use_type_invariant(self);
        }
        let n = self.entries.len();
        let mut copied: Vec<Entry> = Vec::new();
        let mut i: usize = 0;
        while i < n
            invariant
                i <= n,
                n == self.entries@.len(),
                copied@ =~= self.entries@.take(i as int),
            decreases n - i,
        {
            let e = &self.entries[i];
            copied.push(Entry { name: e.name.clone(), quantity: e.quantity });
            proof {
                assert(self.entries@.take(i as int + 1) =~= self.entries@.take(i as int).push(
                    self.entries@[i as int],
                ));
            }
            i += 1;
        }
        proof {
            assert(copied@ =~= self.entries@);
        }
        let r = GroceryList { entries: copied };
        proof {
            assert(r@ =~= self@);
            assert(r.pairs() =~= self.pairs());
        }
        r
    }
}

} // verus!
