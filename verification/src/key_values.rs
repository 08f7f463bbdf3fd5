//! A text-keyed map with the semantics of `HashMap<String, String>`.
use vstd::prelude::*;

verus! {

/// The map that a list of entries stands for, later entries winning.
pub open spec fn entries_map(e: Seq<(Seq<char>, Seq<char>)>) -> Map<Seq<char>, Seq<char>>
    decreases e.len(),
{
    if e.len() == 0 {
        Map::empty()
    } else {
        entries_map(e.drop_last()).insert(e.last().0, e.last().1)
    }
}

/// No key occurs twice.
pub open spec fn distinct_keys(e: Seq<(Seq<char>, Seq<char>)>) -> bool {
    forall|i: int, j: int| 0 <= i < j < e.len() ==> #[trigger] e[i].0 != #[trigger] e[j].0
}

pub proof fn lemma_entries_map_dom(e: Seq<(Seq<char>, Seq<char>)>, k: Seq<char>)
    ensures
        entries_map(e).contains_key(k) <==> exists|i: int| 0 <= i < e.len() && #[trigger] e[i].0 == k,
    decreases e.len(),
{
    if e.len() > 0 {
        lemma_entries_map_dom(e.drop_last(), k);
        if entries_map(e.drop_last()).contains_key(k) {
            let i = choose|i: int| 0 <= i < e.drop_last().len() && #[trigger] e.drop_last()[i].0 == k;
            assert(e[i].0 == k);
        }
        if exists|i: int| 0 <= i < e.len() && #[trigger] e[i].0 == k {
            let i = choose|i: int| 0 <= i < e.len() && #[trigger] e[i].0 == k;
            if i < e.len() - 1 {
                assert(e.drop_last()[i].0 == k);
            }
        }
    }
}

pub proof fn lemma_entries_map_value(e: Seq<(Seq<char>, Seq<char>)>, i: int)
    requires
        distinct_keys(e),
        0 <= i < e.len(),
    ensures
        entries_map(e).contains_key(e[i].0),
        entries_map(e)[e[i].0] == e[i].1,
    decreases e.len(),
{
    if i < e.len() - 1 {
        assert(e.drop_last()[i] == e[i]);
        assert(distinct_keys(e.drop_last())) by {
            assert forall|a: int, b: int| 0 <= a < b < e.drop_last().len() implies
                #[trigger] e.drop_last()[a].0 != #[trigger] e.drop_last()[b].0 by {
                assert(e[a].0 != e[b].0);
            }
        }
        lemma_entries_map_value(e.drop_last(), i);
        assert(e[i].0 != e[e.len() - 1].0);
    }
}

pub proof fn lemma_entries_map_update(e: Seq<(Seq<char>, Seq<char>)>, i: int, v: Seq<char>)
    requires
        0 <= i < e.len(),
        distinct_keys(e),
    ensures
        entries_map(e.update(i, (e[i].0, v))) == entries_map(e).insert(e[i].0, v),
    decreases e.len(),
{
    let f = e.update(i, (e[i].0, v));
    if i == e.len() - 1 {
        assert(f.drop_last() == e.drop_last());
    } else {
        assert(distinct_keys(e.drop_last())) by {
            assert forall|a: int, b: int| 0 <= a < b < e.drop_last().len() implies
                #[trigger] e.drop_last()[a].0 != #[trigger] e.drop_last()[b].0 by {
                assert(e[a].0 != e[b].0);
            }
        }
        lemma_entries_map_update(e.drop_last(), i, v);
        assert(f.drop_last() == e.drop_last().update(i, (e[i].0, v)));
        assert(e[i].0 != e.last().0);
        assert(entries_map(f) =~= entries_map(e).insert(e[i].0, v));
    }
}

/// Text keys mapped to text values; inserting a key again replaces its value.
pub struct KeyValues {
    entries: Vec<(String, String)>,
}

impl KeyValues {
    /// The entries, each key once, in the order in which keys were first inserted.
    pub closed spec fn entries(&self) -> Seq<(Seq<char>, Seq<char>)> {
        Seq::new(self.entries@.len(), |i: int| (self.entries@[i].0@, self.entries@[i].1@))
    }

    #[verifier::type_invariant]
    spec fn keys_distinct(&self) -> bool {
        distinct_keys(self.entries())
    }

    /// An empty map.
    pub fn new() -> (r: KeyValues)
        ensures
            r@ == Map::<Seq<char>, Seq<char>>::empty(),
    {
        let r = KeyValues { entries: Vec::new() };
        assert(r.entries() =~= Seq::<(Seq<char>, Seq<char>)>::empty());
        r
    }

    /// Position of `key`, if present.
    fn position(&self, key: &String) -> (r: Option<usize>)
        ensures
            match r {
                Some(i) => i < self.entries().len() && self.entries()[i as int].0 == key@,
                None => forall|i: int| 0 <= i < self.entries().len() ==> self.entries()[i].0 != key@,
            },
    {
        let mut i: usize = 0;
        while i < self.entries.len()
            invariant
                i <= self.entries@.len(),
                forall|j: int| 0 <= j < i ==> self.entries()[j].0 != key@,
            decreases self.entries.len() - i,
        {
            if self.entries[i].0 == *key {
                return Some(i);
            }
            i += 1;
        }
        None
    }

    /// Sets `key` to `value`, as `HashMap::insert` does.
    pub fn insert(&mut self, key: String, value: String)
        ensures
            final(self)@ == old(self)@.insert(key@, value@),
    {
        proof {
            use_type_invariant(&*self);
        }
        let ghost e = self.entries();
        let found = self.position(&key);
        let mut v: Vec<(String, String)> = Vec::new();
        std::mem::swap(&mut v, &mut self.entries);
        assert(Seq::new(v@.len(), |i: int| (v@[i].0@, v@[i].1@)) == e);
        match found {
            Some(i) => {
                proof {
                    lemma_entries_map_update(e, i as int, value@);
                }
                v.set(i, (key, value));
                let ghost f = Seq::new(v@.len(), |j: int| (v@[j].0@, v@[j].1@));
                assert(f =~= e.update(i as int, (e[i as int].0, value@)));
                assert(distinct_keys(f)) by {
                    assert forall|a: int, b: int| 0 <= a < b < f.len() implies #[trigger] f[a].0
                        != #[trigger] f[b].0 by {
                        assert(f[a].0 == e[a].0 && f[b].0 == e[b].0);
                    }
                }
                self.entries = v;
                assert(self.entries() == f);
            },
            None => {
                v.push((key, value));
                let ghost f = Seq::new(v@.len(), |j: int| (v@[j].0@, v@[j].1@));
                assert(f.drop_last() =~= e);
                assert(distinct_keys(f)) by {
                    assert forall|a: int, b: int| 0 <= a < b < f.len() implies #[trigger] f[a].0
                        != #[trigger] f[b].0 by {
                        assert(f[a] == e[a]);
                        if b < e.len() {
                            assert(f[b] == e[b]);
                        }
                    }
                }
                self.entries = v;
                assert(self.entries() == f);
            },
        }
    }

    /// The value of `key`, as `HashMap::get` followed by `cloned` gives it.
    pub fn get(&self, key: &str) -> (r: Option<String>)
        ensures
            r is None <==> !self@.contains_key(key@),
            r matches Some(v) ==> self@[key@] == v@,
    {
        proof {
            use_type_invariant(self);
        }
        let k = key.to_owned();
        match self.position(&k) {
            Some(i) => {
                proof {
                    lemma_entries_map_value(self.entries(), i as int);
                }
                Some(self.entries[i].1.clone())
            },
            None => {
                proof {
                    lemma_entries_map_dom(self.entries(), key@);
                }
                None
            },
        }
    }

    /// The values, one per key, in the order in which their keys were first inserted.
    pub fn values(&self) -> (r: Vec<String>)
        ensures
            r@.len() == self.entries().len(),
            distinct_keys(self.entries()),
            forall|i: int| 0 <= i < r@.len() ==> #[trigger] r@[i]@ == self.entries()[i].1,
            forall|i: int| 0 <= i < self.entries().len() ==> #[trigger] self@.contains_key(self.entries()[i].0)
                && self@[self.entries()[i].0] == self.entries()[i].1,
            forall|k: Seq<char>| #[trigger] self@.contains_key(k) ==> exists|i: int| 0 <= i < self.entries().len() && self.entries()[i].0 == k,
    {
        proof {
            use_type_invariant(self);
            assert forall|i: int| 0 <= i < self.entries().len() implies #[trigger] self@.contains_key(self.entries()[i].0)
                && self@[self.entries()[i].0] == self.entries()[i].1 by {
                lemma_entries_map_value(self.entries(), i);
            }
            assert forall|k: Seq<char>| #[trigger] self@.contains_key(k) implies exists|i: int| 0 <= i < self.entries().len() && self.entries()[i].0 == k by {
                lemma_entries_map_dom(self.entries(), k);
            }
        }
        let mut r: Vec<String> = Vec::new();
        let mut i: usize = 0;
        while i < self.entries.len()
            invariant
                i <= self.entries@.len(),
                r@.len() == i,
                forall|j: int| 0 <= j < i ==> #[trigger] r@[j]@ == self.entries()[j].1,
            decreases self.entries.len() - i,
        {
            r.push(self.entries[i].1.clone());
            i += 1;
        }
        r
    }
}

impl View for KeyValues {
    type V = Map<Seq<char>, Seq<char>>;

    closed spec fn view(&self) -> Map<Seq<char>, Seq<char>> {
        entries_map(self.entries())
    }
}

/// Reading a key just written gives what was written, and other keys keep their values.
pub proof fn law_get_after_insert(
    before: Map<Seq<char>, Seq<char>>,
    key: Seq<char>,
    value: Seq<char>,
    other: Seq<char>,
)
    requires
        other != key,
    ensures
        before.insert(key, value)[key] == value,
        before.insert(key, value).contains_key(other) == before.contains_key(other),
        before.insert(key, value)[other] == before[other],
{
}

} // verus!
