use vstd::prelude::*;
use crate::directives::Define;

verus! {

/// The map that a list of definitions gives: a later definition of a name
/// replaces an earlier one.
pub open spec fn defs_map(ds: Seq<Define>) -> Map<Seq<char>, Define>
    decreases ds.len(),
{
    if ds.len() == 0 {
        Map::empty()
    } else {
        defs_map(ds.drop_last()).insert(ds.last().name.text@, ds.last())
    }
}

/// The definitions of `ds` whose name is not `n`, in order.
pub open spec fn without(ds: Seq<Define>, n: Seq<char>) -> Seq<Define>
    decreases ds.len(),
{
    if ds.len() == 0 {
        Seq::empty()
    } else if ds.last().name.text@ == n {
        without(ds.drop_last(), n)
    } else {
        without(ds.drop_last(), n).push(ds.last())
    }
}

proof fn lemma_without(ds: Seq<Define>, n: Seq<char>)
    ensures
        defs_map(without(ds, n)) == defs_map(ds).remove(n),
    decreases ds.len(),
{
    if ds.len() > 0 {
        lemma_without(ds.drop_last(), n);
        let w = without(ds.drop_last(), n);
        if ds.last().name.text@ == n {
            assert(defs_map(ds).remove(n) =~= defs_map(ds.drop_last()).remove(n));
        } else {
            assert(w.push(ds.last()).drop_last() =~= w);
            assert(defs_map(w.push(ds.last())) =~= defs_map(ds).remove(n));
        }
    }
}

/// Where the last definition named `n` stands, searching back from `i`.
proof fn lemma_lookup(ds: Seq<Define>, n: Seq<char>, i: int)
    requires
        0 <= i < ds.len(),
        ds[i].name.text@ == n,
        forall|j: int| i < j < ds.len() ==> (#[trigger] ds[j]).name.text@ != n,
    ensures
        defs_map(ds).contains_key(n),
        defs_map(ds)[n] == ds[i],
    decreases ds.len(),
{
    if i < ds.len() - 1 {
        lemma_lookup(ds.drop_last(), n, i);
    }
}

proof fn lemma_absent(ds: Seq<Define>, n: Seq<char>)
    requires
        forall|j: int| 0 <= j < ds.len() ==> (#[trigger] ds[j]).name.text@ != n,
    ensures
        !defs_map(ds).contains_key(n),
    decreases ds.len(),
{
    if ds.len() > 0 {
        lemma_absent(ds.drop_last(), n);
    }
}

/// The active macro definitions, at most one for each name.
pub struct MacroTable {
    defs: Vec<Define>,
}

impl View for MacroTable {
    type V = Map<Seq<char>, Define>;

    closed spec fn view(&self) -> Map<Seq<char>, Define> {
        defs_map(self.defs@)
    }
}

impl MacroTable {
    pub fn new() -> (r: MacroTable)
        ensures
            r@ == Map::<Seq<char>, Define>::empty(),
    {
        MacroTable { defs: Vec::new() }
    }

    /// Makes `d` the definition of its name, replacing any earlier one.
    pub fn define(&mut self, d: Define)
        ensures
            final(self)@ == old(self)@.insert(d.name.text@, d),
    {
        let ghost n = d.name.text@;
        self.remove_all(d.name.text.as_str());
        proof {
            lemma_without(old(self).defs@, n);
        }
        self.defs.push(d);
        proof {
            assert(self.defs@.drop_last() =~= without(old(self).defs@, n));
            assert(self@ =~= old(self)@.insert(n, d));
        }
    }

    /// Removes the definition of `name`; nothing happens if there is none.
    pub fn undef(&mut self, name: &str)
        ensures
            final(self)@ == old(self)@.remove(name@),
    {
        self.remove_all(name);
        proof {
            lemma_without(old(self).defs@, name@);
        }
    }

    fn remove_all(&mut self, name: &str)
        ensures
            final(self).defs@ == without(old(self).defs@, name@),
    {
        let ghost all = old(self).defs@;
        let ghost mut k: int = 0;
        let mut i: usize = 0;
        while i < self.defs.len()
            invariant
                0 <= k <= all.len(),
                i == without(all.subrange(0, k), name@).len(),
                self.defs@ == without(all.subrange(0, k), name@) + all.subrange(k, all.len() as int),
            decreases all.len() - k,
        {
            assert(self.defs@[i as int] == all[k]);
            assert(all.subrange(0, k + 1).drop_last() =~= all.subrange(0, k));
            if self.defs[i].name.text_is(name) {
                self.defs.remove(i);
                assert(self.defs@ =~= without(all.subrange(0, k + 1), name@) + all.subrange(k + 1, all.len() as int));
            } else {
                assert(self.defs@ =~= without(all.subrange(0, k + 1), name@) + all.subrange(k + 1, all.len() as int));
                i = i + 1;
            }
            proof { k = k + 1; }
        }
        assert(k == all.len()) by {
            if k < all.len() {
                assert(self.defs@.len() > i);
            }
        }
        assert(all.subrange(0, all.len() as int) =~= all);
        assert(self.defs@ =~= without(all, name@));
    }

    /// The definition of `name`, if there is one.
    pub fn lookup(&self, name: &str) -> (r: Option<&Define>)
        ensures
            match r {
                Some(d) => self@.contains_key(name@) && *d == self@[name@],
                None => !self@.contains_key(name@),
            },
    {
        let mut i: usize = self.defs.len();
        while i > 0
            invariant
                i <= self.defs@.len(),
                forall|j: int| i <= j < self.defs@.len() ==> (#[trigger] self.defs@[j]).name.text@ != name@,
            decreases i,
        {
            if self.defs[i - 1].name.text_is(name) {
                proof { lemma_lookup(self.defs@, name@, i - 1); }
                return Some(&self.defs[i - 1]);
            }
            i = i - 1;
        }
        proof { lemma_absent(self.defs@, name@); }
        None
    }

    pub fn is_defined(&self, name: &str) -> (r: bool)
        ensures
            r == self@.contains_key(name@),
    {
        self.lookup(name).is_some()
    }
}

} // verus!
