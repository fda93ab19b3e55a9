use vstd::prelude::*;
use crate::key::{Instance, TypeKey};

verus! {

/// The map that a list of entries stands for; a later entry wins.
pub open spec fn entries_map(s: Seq<(TypeKey, Instance)>) -> Map<TypeKey, Instance>
    decreases s.len(),
{
    if s.len() == 0 {
        Map::empty()
    } else {
        entries_map(s.drop_last()).insert(s.last().0, s.last().1)
    }
}

/// No key occurs twice among the entries.
pub open spec fn keys_unique(s: Seq<(TypeKey, Instance)>) -> bool {
    forall|i: int, j: int| 0 <= i < j < s.len() ==> s[i].0 != s[j].0
}

proof fn lemma_entries_map(s: Seq<(TypeKey, Instance)>)
    requires
        keys_unique(s),
    ensures
        forall|k: TypeKey| #[trigger] entries_map(s).contains_key(k)
            <==> exists|i: int| 0 <= i < s.len() && s[i].0 == k,
        forall|i: int| 0 <= i < s.len() ==> #[trigger] entries_map(s)[s[i].0] == s[i].1,
    decreases s.len(),
{
    if s.len() > 0 {
        let t = s.drop_last();
        assert(keys_unique(t));
        lemma_entries_map(t);
        assert(entries_map(s) == entries_map(t).insert(s.last().0, s.last().1));
        assert forall|k: TypeKey| #[trigger] entries_map(s).contains_key(k)
            <==> exists|i: int| 0 <= i < s.len() && s[i].0 == k by {
            if exists|i: int| 0 <= i < s.len() && s[i].0 == k {
                let i = choose|i: int| 0 <= i < s.len() && s[i].0 == k;
                if i < s.len() - 1 {
                    assert(t[i].0 == k);
                }
            }
            if entries_map(s).contains_key(k) && k != s.last().0 {
                assert(entries_map(t).contains_key(k));
                let i = choose|i: int| 0 <= i < t.len() && t[i].0 == k;
                assert(s[i].0 == k);
            }
        }
        assert forall|i: int| 0 <= i < s.len() implies #[trigger] entries_map(s)[s[i].0] == s[i].1 by {
            if i < s.len() - 1 {
                assert(t[i] == s[i]);
                assert(s[i].0 != s.last().0);
            }
        }
    }
}

/// The store of resolved instances of one module, keyed by type key.
/// Each key maps to at most one instance.
pub struct Graph {
    entries: Vec<(TypeKey, Instance)>,
}

impl View for Graph {
    type V = Map<TypeKey, Instance>;

    closed spec fn view(&self) -> Map<TypeKey, Instance> {
        entries_map(self.entries@)
    }
}

/// Why an insertion was refused: the key already holds an instance.
#[derive(Clone, Copy, Debug, PartialEq, Eq, Structural)]
pub struct DuplicateKey {
    pub key: TypeKey,
}

impl Graph {
    /// The graph's internal invariant.
    pub closed spec fn wf(&self) -> bool {
        keys_unique(self.entries@)
    }

    /// An empty graph.
    pub fn new() -> (r: Graph)
        ensures
            r.wf(),
            r@ == Map::<TypeKey, Instance>::empty(),
    {
        Graph { entries: Vec::new() }
    }

    /// The instance stored under `key`, if any.
    pub fn get(&self, key: TypeKey) -> (r: Option<Instance>)
        requires
            self.wf(),
        ensures
            r == (if self@.contains_key(key) { Some(self@[key]) } else { None::<Instance> }),
    {
        proof {
            lemma_entries_map(self.entries@);
        }
        let mut i: usize = 0;
        while i < self.entries.len()
            invariant
                0 <= i <= self.entries@.len(),
                self.wf(),
                forall|j: int| 0 <= j < i ==> self.entries@[j].0 != key,
            decreases self.entries@.len() - i,
        {
            if self.entries[i].0 == key {
                proof {
                    lemma_entries_map(self.entries@);
                    assert(entries_map(self.entries@)[self.entries@[i as int].0] == self.entries@[i as int].1);
                }
                return Some(self.entries[i].1);
            }
            i = i + 1;
        }
        proof {
            lemma_entries_map(self.entries@);
        }
        None
    }

    /// Whether an instance is stored under `key`.
    pub fn contains(&self, key: TypeKey) -> (r: bool)
        requires
            self.wf(),
        ensures
            r == self@.contains_key(key),
    {
        self.get(key).is_some()
    }

    /// Stores `instance` under `key`; refused when the key is already present.
    pub fn insert(&mut self, key: TypeKey, instance: Instance) -> (r: Result<(), DuplicateKey>)
        requires
            old(self).wf(),
        ensures
            final(self).wf(),
            r is Ok <==> !old(self)@.contains_key(key),
            r is Ok ==> final(self)@ == old(self)@.insert(key, instance),
            r is Err ==> final(self)@ == old(self)@ && r == Err::<(), DuplicateKey>(DuplicateKey { key }),
    {
        if self.contains(key) {
            return Err(DuplicateKey { key });
        }
        proof {
            lemma_entries_map(self.entries@);
        }
        let ghost prev = self.entries@;
        self.entries.push((key, instance));
        proof {
            assert(self.entries@.drop_last() =~= prev);
            assert forall|i: int, j: int| 0 <= i < j < self.entries@.len()
                implies self.entries@[i].0 != self.entries@[j].0 by {
                if j == prev.len() {
                    assert(prev[i].0 == self.entries@[i].0);
                    assert(entries_map(prev).contains_key(prev[i].0));
                }
            }
        }
        Ok(())
    }

    /// A graph seeded from an ordered list of key and instance pairs; refused,
    /// with the first repeated key, when a key occurs twice.
    pub fn from_entries(pairs: &Vec<(TypeKey, Instance)>) -> (r: Result<Graph, DuplicateKey>)
        ensures
            r is Ok <==> keys_unique(pairs@),
            r matches Ok(g) ==> g.wf() && g@ == entries_map(pairs@),
            r matches Err(e) ==> exists|i: int, j: int| 0 <= i < j < pairs@.len()
                && pairs@[i].0 == e.key && pairs@[j].0 == e.key,
    {
        let mut g = Graph::new();
        let mut i: usize = 0;
        while i < pairs.len()
            invariant
                0 <= i <= pairs@.len(),
                g.wf(),
                keys_unique(pairs@.take(i as int)),
                g@ == entries_map(pairs@.take(i as int)),
            decreases pairs@.len() - i,
        {
            let (k, v) = pairs[i];
            proof {
                lemma_entries_map(pairs@.take(i as int));
            }
            match g.insert(k, v) {
                Err(e) => {
                    proof {
                        let j = choose|j: int| 0 <= j < i && pairs@.take(i as int)[j].0 == k;
                        assert(pairs@[j].0 == k);
                    }
                    return Err(e);
                },
                Ok(()) => {},
            }
            proof {
                let t = pairs@.take(i + 1);
                assert(t.drop_last() =~= pairs@.take(i as int));
                assert forall|a: int, b: int| 0 <= a < b < t.len() implies t[a].0 != t[b].0 by {
                    if b == i {
                        assert(entries_map(pairs@.take(i as int)).contains_key(pairs@.take(i as int)[a].0));
                    } else {
                        assert(pairs@.take(i as int)[a] == t[a] && pairs@.take(i as int)[b] == t[b]);
                    }
                }
            }
            i = i + 1;
        }
        assert(pairs@.take(i as int) =~= pairs@);
        Ok(g)
    }

    /// The read-only subset of this graph holding exactly the keys named in
    /// `exports`.
    pub fn filter_by(&self, exports: &Vec<TypeKey>) -> (r: Graph)
        requires
            self.wf(),
        ensures
            r.wf(),
            r@ == self@.restrict(exports@.to_set()),
    {
        let mut out = Graph::new();
        let mut i: usize = 0;
        while i < exports.len()
            invariant
                0 <= i <= exports@.len(),
                self.wf(),
                out.wf(),
                forall|k: TypeKey| #[trigger] out@.contains_key(k) <==> (self@.contains_key(k)
                    && exists|j: int| 0 <= j < i && exports@[j] == k),
                forall|k: TypeKey| #[trigger] out@.contains_key(k) ==> out@[k] == self@[k],
            decreases exports@.len() - i,
        {
            let k = exports[i];
            if let Some(v) = self.get(k) {
                if !out.contains(k) {
                    let _ = out.insert(k, v);
                }
            }
            i = i + 1;
        }
        assert(out@ =~= self@.restrict(exports@.to_set()));
        out
    }

    /// A stored key with base `base` and some qualifier, other than `exclude`.
    pub fn qualified_variant(&self, base: u64, exclude: Option<TypeKey>) -> (r: Option<TypeKey>)
        requires
            self.wf(),
        ensures
            r matches Some(a) ==> self@.contains_key(a) && a.base == base && a.qualifier is Some
                && Some(a) != exclude,
            r is None ==> forall|a: TypeKey| #[trigger] self@.contains_key(a) && a.base == base
                && a.qualifier is Some ==> Some(a) == exclude,
    {
        proof {
            lemma_entries_map(self.entries@);
        }
        let mut i: usize = 0;
        while i < self.entries.len()
            invariant
                0 <= i <= self.entries@.len(),
                self.wf(),
                forall|j: int| 0 <= j < i ==> {
                    let a = #[trigger] self.entries@[j].0;
                    a.base == base && a.qualifier is Some ==> Some(a) == exclude
                },
            decreases self.entries@.len() - i,
        {
            let a = self.entries[i].0;
            if a.base == base && a.qualifier.is_some() && !(exclude == Some(a)) {
                proof {
                    lemma_entries_map(self.entries@);
                    assert(entries_map(self.entries@).contains_key(self.entries@[i as int].0));
                }
                return Some(a);
            }
            i = i + 1;
        }
        proof {
            lemma_entries_map(self.entries@);
            assert forall|a: TypeKey| #[trigger] self@.contains_key(a) && a.base == base
                && a.qualifier is Some implies Some(a) == exclude by {
                let j = choose|j: int| 0 <= j < self.entries@.len() && self.entries@[j].0 == a;
            }
        }
        None
    }
}

} // verus!
