//! A small string-keyed dictionary with unique keys, kept as a vector of
//! entries and modeled as a `Map` from key characters to value views. The
//! document's header dictionaries and environment mappings are built on it.

use vstd::prelude::*;

verus! {

/// The mapping an entry list denotes: later entries overwrite earlier ones
/// (with unique keys there is nothing to overwrite).
pub open spec fn assoc_map<T: View>(es: Seq<(String, T)>) -> Map<Seq<char>, T::V>
    decreases es.len(),
{
    if es.len() == 0 {
        Map::empty()
    } else {
        assoc_map(es.drop_last()).insert(es.last().0@, es.last().1@)
    }
}

/// No two entries share a key.
pub open spec fn assoc_keys_unique<T>(es: Seq<(String, T)>) -> bool {
    forall|i: int, j: int| 0 <= i < j < es.len() ==> (#[trigger] es[i]).0@ != (#[trigger] es[j]).0@
}

/// A key is in the mapping exactly when some entry holds it.
pub proof fn lemma_assoc_contains<T: View>(es: Seq<(String, T)>, k: Seq<char>)
    ensures
        assoc_map(es).contains_key(k) <==> exists|i: int|
            0 <= i < es.len() && (#[trigger] es[i]).0@ == k,
    decreases es.len(),
{
    if es.len() > 0 {
        lemma_assoc_contains(es.drop_last(), k);
        if es.last().0@ == k {
            assert(es[es.len() - 1].0@ == k);
        } else if assoc_map(es).contains_key(k) {
            let i = choose|i: int| 0 <= i < es.drop_last().len() && (#[trigger] es.drop_last()[i]).0@
                == k;
            assert(es[i].0@ == k);
        } else {
            if exists|i: int| 0 <= i < es.len() && (#[trigger] es[i]).0@ == k {
                let i = choose|i: int| 0 <= i < es.len() && (#[trigger] es[i]).0@ == k;
                assert(i < es.len() - 1);
                assert(es.drop_last()[i].0@ == k);
            }
        }
    }
}

/// With unique keys, the mapping sends each entry's key to that entry's value.
pub proof fn lemma_assoc_get<T: View>(es: Seq<(String, T)>, i: int)
    requires
        assoc_keys_unique(es),
        0 <= i < es.len(),
    ensures
        assoc_map(es).contains_key(es[i].0@),
        assoc_map(es)[es[i].0@] == es[i].1@,
    decreases es.len(),
{
    if i == es.len() - 1 {
    } else {
        assert(assoc_keys_unique(es.drop_last()));
        assert(es.drop_last()[i] == es[i]);
        lemma_assoc_get(es.drop_last(), i);
        assert(es[i].0@ != es.last().0@);
    }
}

/// Replacing the entry that holds a key updates the mapping at that key.
pub proof fn lemma_assoc_update<T: View>(es: Seq<(String, T)>, i: int, p: (String, T))
    requires
        assoc_keys_unique(es),
        0 <= i < es.len(),
        es[i].0@ == p.0@,
    ensures
        assoc_keys_unique(es.update(i, p)),
        assoc_map(es.update(i, p)) == assoc_map(es).insert(p.0@, p.1@),
    decreases es.len(),
{
    let es2 = es.update(i, p);
    assert forall|a: int, b: int| 0 <= a < b < es2.len() implies (#[trigger] es2[a]).0@
        != (#[trigger] es2[b]).0@ by {
        assert(es[a].0@ != es[b].0@);
    }
    if i == es.len() - 1 {
        assert(es2.drop_last() =~= es.drop_last());
        assert(es2.last() == p);
        assert(assoc_map(es2) == assoc_map(es.drop_last()).insert(p.0@, p.1@));
        assert(assoc_map(es).insert(p.0@, p.1@) =~= assoc_map(es.drop_last()).insert(p.0@, p.1@));
    } else {
        assert(assoc_keys_unique(es.drop_last()));
        assert(es.drop_last()[i] == es[i]);
        lemma_assoc_update(es.drop_last(), i, p);
        assert(es2.drop_last() =~= es.drop_last().update(i, p));
        assert(es2.last() == es.last());
        assert(es.last().0@ != p.0@);
        assert(assoc_map(es2) == assoc_map(es.drop_last()).insert(p.0@, p.1@).insert(
            es.last().0@,
            es.last().1@,
        ));
        assert(assoc_map(es.drop_last()).insert(p.0@, p.1@).insert(es.last().0@, es.last().1@)
            =~= assoc_map(es.drop_last()).insert(es.last().0@, es.last().1@).insert(p.0@, p.1@));
    }
}

/// With unique keys, the mapping has exactly one key per entry.
pub proof fn lemma_assoc_dom_len<T: View>(es: Seq<(String, T)>)
    requires
        assoc_keys_unique(es),
    ensures
        assoc_map(es).dom().finite(),
        assoc_map(es).dom().len() == es.len(),
    decreases es.len(),
{
    if es.len() > 0 {
        assert(assoc_keys_unique(es.drop_last()));
        lemma_assoc_dom_len(es.drop_last());
        lemma_assoc_contains(es.drop_last(), es.last().0@);
        assert(!assoc_map(es.drop_last()).contains_key(es.last().0@));
        assert(assoc_map(es).dom() =~= assoc_map(es.drop_last()).dom().insert(es.last().0@));
        vstd::set::axiom_set_insert_finite(assoc_map(es.drop_last()).dom(), es.last().0@);
        vstd::set::axiom_set_insert_len(assoc_map(es.drop_last()).dom(), es.last().0@);
    }
}

/// A string-keyed dictionary with unique keys.
#[derive(Debug, Clone)]
pub struct Dict<T> {
    entries: Vec<(String, T)>,
}

impl<T: View> View for Dict<T> {
    type V = Map<Seq<char>, T::V>;

    closed spec fn view(&self) -> Map<Seq<char>, T::V> {
        assoc_map(self.entries@)
    }
}

impl<T: View> Dict<T> {
    /// Well-formed: no two entries share a key. Constructors establish it and
    /// every method preserves it.
    pub closed spec fn wf(&self) -> bool {
        assoc_keys_unique(self.entries@)
    }

    /// An empty dictionary.
    pub fn new() -> (d: Dict<T>)
        ensures
            d.wf(),
            d@ == Map::<Seq<char>, T::V>::empty(),
            d@.dom() =~= Set::<Seq<char>>::empty(),
    {
        Dict { entries: Vec::new() }
    }

    /// The position of the entry holding a key, if any.
    fn index_of(&self, key: &String) -> (r: Option<usize>)
        ensures
            match r {
                Some(i) => i < self.entries@.len() && self.entries@[i as int].0@ == key@,
                None => forall|j: int|
                    0 <= j < self.entries@.len() ==> (#[trigger] self.entries@[j]).0@ != key@,
            },
    {
        let mut i: usize = 0;
        while i < self.entries.len()
            invariant
                i <= self.entries@.len(),
                forall|j: int| 0 <= j < i ==> (#[trigger] self.entries@[j]).0@ != key@,
            decreases self.entries@.len() - i,
        {
            if self.entries[i].0.eq(key) {
                return Some(i);
            }
            i += 1;
        }
        None
    }

    /// Whether the dictionary holds a key.
    pub fn contains_key(&self, key: &String) -> (r: bool)
        ensures
            r == self@.contains_key(key@),
    {
        proof {
            lemma_assoc_contains(self.entries@, key@);
        }
        match self.index_of(key) {
            Some(_) => true,
            None => false,
        }
    }

    /// The value a key maps to, if any.
    pub fn get(&self, key: &String) -> (r: Option<&T>)
        requires
            self.wf(),
        ensures
            match r {
                Some(v) => self@.contains_key(key@) && v@ == self@[key@],
                None => !self@.contains_key(key@),
            },
    {
        proof {
            lemma_assoc_contains(self.entries@, key@);
        }
        match self.index_of(key) {
            Some(i) => {
                proof {
                    lemma_assoc_get(self.entries@, i as int);
                }
                Some(&self.entries[i].1)
            },
            None => None,
        }
    }

    /// Maps a key to a value, replacing what the key mapped to before.
    pub fn insert(&mut self, key: String, value: T)
        requires
            old(self).wf(),
        ensures
            final(self).wf(),
            final(self)@ == old(self)@.insert(key@, value@),
    {
        proof {
            lemma_assoc_contains(self.entries@, key@);
        }
        let ghost es = self.entries@;
        match self.index_of(&key) {
            Some(i) => {
                let ghost p = (key, value);
                proof {
                    lemma_assoc_update(es, i as int, p);
                }
                let e = &mut self.entries[i];
                *e = (key, value);
                proof {
                    assert(self.entries@ =~= es.update(i as int, p));
                }
            },
            None => {
                self.entries.push((key, value));
                proof {
                    assert(self.entries@.drop_last() =~= es);
                }
            },
        }
    }

    /// The number of keys.
    pub fn len(&self) -> (r: usize)
        requires
            self.wf(),
        ensures
            r == self@.dom().len(),
    {
        proof {
            lemma_assoc_dom_len(self.entries@);
        }
        self.entries.len()
    }

    /// The keys, each exactly once.
    pub fn keys(&self) -> (r: Vec<String>)
        requires
            self.wf(),
        ensures
            r@.len() == self@.dom().len(),
            forall|i: int| 0 <= i < r@.len() ==> self@.contains_key((#[trigger] r@[i])@),
            forall|i: int, j: int| 0 <= i < j < r@.len() ==> (#[trigger] r@[i])@ != (
            #[trigger] r@[j])@,
    {
        proof {
            lemma_assoc_dom_len(self.entries@);
        }
        let mut r: Vec<String> = Vec::new();
        let mut i: usize = 0;
        while i < self.entries.len()
            invariant
                i <= self.entries@.len(),
                r@.len() == i,
                forall|j: int| 0 <= j < i ==> (#[trigger] r@[j])@ == self.entries@[j].0@,
                assoc_keys_unique(self.entries@),
            decreases self.entries@.len() - i,
        {
            let k = self.entries[i].0.clone();
            r.push(k);
            i += 1;
        }
        proof {
            assert forall|k: int| 0 <= k < r@.len() implies self@.contains_key(
                (#[trigger] r@[k])@,
            ) by {
                lemma_assoc_get(self.entries@, k);
            }
        }
        r
    }
}

impl Dict<Dict<String>> {
    /// Well-formed through and through: unique names, and each inner
    /// dictionary well-formed in turn.
    pub closed spec fn deep_wf(&self) -> bool {
        &&& self.wf()
        &&& forall|i: int| 0 <= i < self.entries@.len() ==> (#[trigger] self.entries@[i]).1.wf()
    }

    /// Deep well-formedness includes the table's own.
    pub proof fn lemma_deep_wf(&self)
        requires
            self.deep_wf(),
        ensures
            self.wf(),
    {
    }

    /// An empty table of dictionaries.
    pub fn new_table() -> (d: Dict<Dict<String>>)
        ensures
            d.deep_wf(),
            d@ == Map::<Seq<char>, Map<Seq<char>, Seq<char>>>::empty(),
            d@.dom() =~= Set::<Seq<char>>::empty(),
    {
        Dict { entries: Vec::new() }
    }

    /// Maps a name to an inner dictionary, replacing what the name mapped to
    /// before.
    pub fn insert_dict(&mut self, name: String, value: Dict<String>)
        requires
            old(self).deep_wf(),
            value.wf(),
        ensures
            final(self).deep_wf(),
            final(self)@ == old(self)@.insert(name@, value@),
    {
        proof {
            lemma_assoc_contains(self.entries@, name@);
        }
        let ghost es = self.entries@;
        match self.index_of(&name) {
            Some(i) => {
                let ghost p = (name, value);
                proof {
                    lemma_assoc_update(es, i as int, p);
                }
                let e = &mut self.entries[i];
                *e = (name, value);
                proof {
                    assert(self.entries@ =~= es.update(i as int, p));
                }
            },
            None => {
                self.entries.push((name, value));
                proof {
                    assert(self.entries@.drop_last() =~= es);
                }
            },
        }
    }

    /// Inserts a key/value pair into the inner dictionary a name maps to; a
    /// name the table does not hold leaves it unchanged.
    pub fn insert_entry(&mut self, name: &String, key: String, value: String)
        requires
            old(self).deep_wf(),
        ensures
            final(self).deep_wf(),
            old(self)@.contains_key(name@) ==> final(self)@ == old(self)@.insert(
                name@,
                old(self)@[name@].insert(key@, value@),
            ),
            !old(self)@.contains_key(name@) ==> final(self)@ == old(self)@,
    {
        proof {
            lemma_assoc_contains(self.entries@, name@);
        }
        let ghost es = self.entries@;
        match self.index_of(name) {
            Some(i) => {
                proof {
                    lemma_assoc_get(es, i as int);
                }
                let e = &mut self.entries[i];
                e.1.insert(key, value);
                proof {
                    lemma_assoc_update(es, i as int, self.entries@[i as int]);
                    assert(self.entries@ =~= es.update(i as int, self.entries@[i as int]));
                }
            },
            None => {},
        }
    }
}

} // verus!
