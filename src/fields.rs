//! An ordered name/value table with last-write-wins lookup, used for header
//! mappings and for the cookie jar.
use vstd::prelude::*;
use crate::text::bytes_eq;

verus! {

/// The mapping that a list of pairs stands for: a later pair overrides an
/// earlier one with the same name.
pub open spec fn pairs_map(s: Seq<(Seq<u8>, Seq<u8>)>) -> Map<Seq<u8>, Seq<u8>>
    decreases s.len(),
{
    if s.len() == 0 {
        Map::empty()
    } else {
        pairs_map(s.drop_last()).insert(s.last().0, s.last().1)
    }
}

/// No two pairs carry the same name.
pub open spec fn names_unique(s: Seq<(Seq<u8>, Seq<u8>)>) -> bool {
    forall|i: int, j: int| 0 <= i < j < s.len() ==> #[trigger] s[i].0 != #[trigger] s[j].0
}

/// Replacing the value of the pair at `i` is the same as inserting its name
/// into the mapping again, when names are unique.
pub proof fn lemma_update_is_insert(s: Seq<(Seq<u8>, Seq<u8>)>, i: int, v: Seq<u8>)
    requires
        names_unique(s),
        0 <= i < s.len(),
    ensures
        pairs_map(s.update(i, (s[i].0, v))) == pairs_map(s).insert(s[i].0, v),
    decreases s.len(),
{
    let t = s.update(i, (s[i].0, v));
    if i == s.len() - 1 {
        assert(t.drop_last() == s.drop_last());
        assert(pairs_map(t) == pairs_map(s).insert(s[i].0, v));
    } else {
        let p = s.drop_last();
        assert(names_unique(p));
        lemma_update_is_insert(p, i, v);
        assert(t.drop_last() == p.update(i, (s[i].0, v)));
        assert(s.last().0 != s[i].0);
        assert(pairs_map(t) =~= pairs_map(s).insert(s[i].0, v));
    }
}

/// A name is in the mapping exactly when some pair carries it.
pub proof fn lemma_map_domain(s: Seq<(Seq<u8>, Seq<u8>)>, k: Seq<u8>)
    ensures
        pairs_map(s).contains_key(k) <==> exists|i: int| 0 <= i < s.len() && #[trigger] s[i].0 == k,
    decreases s.len(),
{
    if s.len() > 0 {
        lemma_map_domain(s.drop_last(), k);
        if pairs_map(s).contains_key(k) && s.last().0 != k {
            let i = choose|i: int| 0 <= i < s.len() - 1 && #[trigger] s.drop_last()[i].0 == k;
            assert(s[i].0 == k);
        }
        if exists|i: int| 0 <= i < s.len() && #[trigger] s[i].0 == k {
            let i = choose|i: int| 0 <= i < s.len() && #[trigger] s[i].0 == k;
            if i < s.len() - 1 {
                assert(s.drop_last()[i].0 == k);
            }
        }
    }
}

/// Name/value pairs in insertion order; names are unique when built through `insert`.
pub struct FieldMap {
    pub entries: Vec<(Vec<u8>, Vec<u8>)>,
}

impl FieldMap {
    /// The pairs as byte sequences, in order.
    pub open spec fn pairs(&self) -> Seq<(Seq<u8>, Seq<u8>)> {
        self.entries@.map_values(|p: (Vec<u8>, Vec<u8>)| (p.0@, p.1@))
    }

    /// The mapping from names to values.
    pub open spec fn map(&self) -> Map<Seq<u8>, Seq<u8>> {
        pairs_map(self.pairs())
    }

    pub open spec fn wf(&self) -> bool {
        names_unique(self.pairs())
    }

    pub fn new() -> (r: FieldMap)
        ensures
            r.wf(),
            r.pairs() == Seq::<(Seq<u8>, Seq<u8>)>::empty(),
            r.map() == Map::<Seq<u8>, Seq<u8>>::empty(),
    {
        let r = FieldMap { entries: Vec::new() };
        assert(r.pairs() =~= Seq::<(Seq<u8>, Seq<u8>)>::empty());
        r
    }

    pub fn len(&self) -> (r: usize)
        ensures
            r == self.pairs().len(),
    {
        self.entries.len()
    }

    /// Position of the first pair named `k`, if any.
    fn position(&self, k: &[u8]) -> (r: Option<usize>)
        ensures
            r is Some ==> r->0 < self.pairs().len() && self.pairs()[r->0 as int].0 == k@,
            r is None ==> forall|i: int| 0 <= i < self.pairs().len() ==> #[trigger] self.pairs()[i].0 != k@,
    {
        let mut i: usize = 0;
        while i < self.entries.len()
            invariant
                i <= self.pairs().len(),
                self.pairs().len() == self.entries@.len(),
                forall|j: int| 0 <= j < i ==> #[trigger] self.pairs()[j].0 != k@,
            decreases self.entries.len() - i,
        {
            if bytes_eq(self.entries[i].0.as_slice(), k) {
                return Some(i);
            }
            i = i + 1;
        }
        None
    }

    /// Sets the value of `k`: an existing pair keeps its place, a new one goes last.
    pub fn insert(&mut self, k: Vec<u8>, v: Vec<u8>)
        requires
            old(self).wf(),
        ensures
            final(self).wf(),
            final(self).map() == old(self).map().insert(k@, v@),
            old(self).map().contains_key(k@) ==> final(self).pairs().len() == old(self).pairs().len(),
            !old(self).map().contains_key(k@) ==> final(self).pairs() == old(self).pairs().push((k@, v@)),
    {
        proof {
            lemma_map_domain(self.pairs(), k@);
        }
        match self.position(k.as_slice()) {
            Some(i) => {
                let ghost s = self.pairs();
                proof {
                    lemma_update_is_insert(s, i as int, v@);
                }
                self.entries.set(i, (k, v));
                assert(self.pairs() =~= s.update(i as int, (s[i as int].0, v@)));
            },
            None => {
                let ghost s = self.pairs();
                let ghost kv = (k@, v@);
                self.entries.push((k, v));
                assert(self.pairs() =~= s.push(kv));
                assert(self.pairs().drop_last() == s);
            },
        }
    }

    /// Appends a pair without looking for an earlier one of the same name;
    /// lookups then see the later value.
    pub fn push(&mut self, k: Vec<u8>, v: Vec<u8>)
        ensures
            final(self).pairs() == old(self).pairs().push((k@, v@)),
            final(self).map() == old(self).map().insert(k@, v@),
    {
        let ghost s = self.pairs();
        let ghost kv = (k@, v@);
        self.entries.push((k, v));
        assert(self.pairs() =~= s.push(kv));
        assert(self.pairs().drop_last() == s);
    }

    /// The value last set for `k`.
    pub fn get(&self, k: &[u8]) -> (r: Option<&Vec<u8>>)
        ensures
            r is Some <==> self.map().contains_key(k@),
            r is Some ==> r->0@ == self.map()[k@],
    {
        let ghost s = self.pairs();
        let mut found: Option<usize> = None;
        let mut i: usize = 0;
        while i < self.entries.len()
            invariant
                i <= s.len(),
                s == self.pairs(),
                s.len() == self.entries@.len(),
                found is Some <==> pairs_map(s.take(i as int)).contains_key(k@),
                found is Some ==> found->0 < s.len() && s[found->0 as int].1 == pairs_map(
                    s.take(i as int),
                )[k@],
            decreases self.entries.len() - i,
        {
            assert(s.take(i + 1).drop_last() == s.take(i as int));
            if bytes_eq(self.entries[i].0.as_slice(), k) {
                found = Some(i);
            }
            i = i + 1;
        }
        assert(s.take(s.len() as int) == s);
        match found {
            Some(j) => Some(&self.entries[j].1),
            None => None,
        }
    }
}

} // verus!
