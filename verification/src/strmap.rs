//! A map keyed by strings, kept as a vector of entries in insertion order.

use vstd::prelude::*;

verus! {

/// The keys of a sequence of entries, in order.
pub open spec fn keys_of<V>(s: Seq<(String, V)>) -> Seq<Seq<char>> {
    s.map_values(|e: (String, V)| e.0@)
}

/// No key occurs twice among the entries.
pub open spec fn unique_keys<V>(s: Seq<(String, V)>) -> bool {
    forall|i: int, j: int| 0 <= i < s.len() && 0 <= j < s.len() && i != j ==> s[i].0@ != s[j].0@
}

spec fn pos_of<V>(s: Seq<(String, V)>, k: Seq<char>) -> int {
    choose|i: int| 0 <= i < s.len() && s[i].0@ == k
}

/// The map that a sequence of entries denotes.
pub closed spec fn map_of<V>(s: Seq<(String, V)>) -> Map<Seq<char>, V> {
    Map::new(|k: Seq<char>| keys_of(s).contains(k), |k: Seq<char>| s[pos_of(s, k)].1)
}

proof fn lemma_contains<V>(s: Seq<(String, V)>, k: Seq<char>)
    ensures
        keys_of(s).contains(k) <==> exists|i: int| 0 <= i < s.len() && s[i].0@ == k,
{
    if keys_of(s).contains(k) {
        let i = choose|i: int| 0 <= i < keys_of(s).len() && keys_of(s)[i] == k;
        assert(s[i].0@ == k);
    }
    if exists|i: int| 0 <= i < s.len() && s[i].0@ == k {
        let i = choose|i: int| 0 <= i < s.len() && s[i].0@ == k;
        assert(keys_of(s)[i] == k);
    }
}

proof fn lemma_at<V>(s: Seq<(String, V)>, i: int)
    requires
        unique_keys(s),
        0 <= i < s.len(),
    ensures
        map_of(s).contains_key(s[i].0@),
        map_of(s)[s[i].0@] == s[i].1,
{
    let k = s[i].0@;
    lemma_contains(s, k);
    let p = pos_of(s, k);
    assert(0 <= p < s.len() && s[p].0@ == k);
}

proof fn lemma_maps_equal<V>(s: Seq<(String, V)>, m: Map<Seq<char>, V>)
    requires
        unique_keys(s),
        forall|k: Seq<char>| #[trigger] m.contains_key(k) <==> exists|i: int| 0 <= i < s.len() && s[i].0@ == k,
        forall|i: int| 0 <= i < s.len() ==> #[trigger] m[s[i].0@] == s[i].1,
    ensures
        map_of(s) == m,
{
    assert forall|k: Seq<char>| #[trigger] map_of(s).contains_key(k) == m.contains_key(k) by {
        lemma_contains(s, k);
    }
    assert forall|k: Seq<char>| map_of(s).contains_key(k) implies #[trigger] map_of(s)[k] == m[k] by {
        lemma_contains(s, k);
        let i = choose|i: int| 0 <= i < s.len() && s[i].0@ == k;
        lemma_at(s, i);
    }
    assert(map_of(s) =~= m);
}

proof fn lemma_update<V>(s: Seq<(String, V)>, i: int, e: (String, V))
    requires
        unique_keys(s),
        0 <= i < s.len(),
        s[i].0@ == e.0@,
    ensures
        unique_keys(s.update(i, e)),
        map_of(s.update(i, e)) == map_of(s).insert(e.0@, e.1),
        keys_of(s.update(i, e)) == keys_of(s),
{
    let t = s.update(i, e);
    let m = map_of(s).insert(e.0@, e.1);
    assert forall|k: Seq<char>| #[trigger] m.contains_key(k) <==> exists|j: int| 0 <= j < t.len() && t[j].0@ == k by {
        lemma_contains(s, k);
        if exists|j: int| 0 <= j < s.len() && s[j].0@ == k {
            let j = choose|j: int| 0 <= j < s.len() && s[j].0@ == k;
            assert(t[j].0@ == k);
        }
        if exists|j: int| 0 <= j < t.len() && t[j].0@ == k {
            let j = choose|j: int| 0 <= j < t.len() && t[j].0@ == k;
            assert(s[j].0@ == k);
        }
    }
    assert forall|j: int| 0 <= j < t.len() implies #[trigger] m[t[j].0@] == t[j].1 by {
        if j != i {
            lemma_at(s, j);
        }
    }
    lemma_maps_equal(t, m);
    assert(keys_of(t) =~= keys_of(s));
}

proof fn lemma_push<V>(s: Seq<(String, V)>, e: (String, V))
    requires
        unique_keys(s),
        !keys_of(s).contains(e.0@),
    ensures
        unique_keys(s.push(e)),
        map_of(s.push(e)) == map_of(s).insert(e.0@, e.1),
        keys_of(s.push(e)) == keys_of(s).push(e.0@),
{
    let t = s.push(e);
    let m = map_of(s).insert(e.0@, e.1);
    lemma_contains(s, e.0@);
    assert forall|k: Seq<char>| #[trigger] m.contains_key(k) <==> exists|j: int| 0 <= j < t.len() && t[j].0@ == k by {
        lemma_contains(s, k);
        if exists|j: int| 0 <= j < s.len() && s[j].0@ == k {
            let j = choose|j: int| 0 <= j < s.len() && s[j].0@ == k;
            assert(t[j].0@ == k);
        }
        if k == e.0@ {
            assert(t[s.len() as int].0@ == k);
        }
        if exists|j: int| 0 <= j < t.len() && t[j].0@ == k {
            let j = choose|j: int| 0 <= j < t.len() && t[j].0@ == k;
            if j < s.len() {
                assert(s[j].0@ == k);
            }
        }
    }
    assert forall|j: int| 0 <= j < t.len() implies #[trigger] m[t[j].0@] == t[j].1 by {
        if j < s.len() {
            lemma_at(s, j);
        }
    }
    lemma_maps_equal(t, m);
    assert(keys_of(t) =~= keys_of(s).push(e.0@));
}

proof fn lemma_remove<V>(s: Seq<(String, V)>, i: int)
    requires
        unique_keys(s),
        0 <= i < s.len(),
    ensures
        unique_keys(s.remove(i)),
        map_of(s.remove(i)) == map_of(s).remove(s[i].0@),
{
    let t = s.remove(i);
    let k0 = s[i].0@;
    let m = map_of(s).remove(k0);
    assert forall|k: Seq<char>| #[trigger] m.contains_key(k) <==> exists|j: int| 0 <= j < t.len() && t[j].0@ == k by {
        lemma_contains(s, k);
        if exists|j: int| 0 <= j < s.len() && s[j].0@ == k && k != k0 {
            let j = choose|j: int| 0 <= j < s.len() && s[j].0@ == k && k != k0;
            if j < i {
                assert(t[j].0@ == k);
            } else {
                assert(t[j - 1].0@ == k);
            }
        }
        if exists|j: int| 0 <= j < t.len() && t[j].0@ == k {
            let j = choose|j: int| 0 <= j < t.len() && t[j].0@ == k;
            if j < i {
                assert(s[j].0@ == k);
            } else {
                assert(s[j + 1].0@ == k);
            }
        }
    }
    assert forall|j: int| 0 <= j < t.len() implies #[trigger] m[t[j].0@] == t[j].1 by {
        if j < i {
            lemma_at(s, j);
        } else {
            lemma_at(s, j + 1);
        }
    }
    lemma_maps_equal(t, m);
}

proof fn lemma_dom<V>(s: Seq<(String, V)>)
    requires
        unique_keys(s),
    ensures
        keys_of(s).no_duplicates(),
        map_of(s).dom() == keys_of(s).to_set(),
        map_of(s).dom().finite(),
        map_of(s).dom().len() == s.len(),
{
    let ks = keys_of(s);
    assert(map_of(s).dom() =~= ks.to_set());
    ks.unique_seq_to_set();
}

/// A map from strings to values. Each key occurs at most once; entries keep
/// the order in which their keys were first inserted.
#[derive(Debug)]
pub struct StrMap<V> {
    entries: Vec<(String, V)>,
}

impl<V> StrMap<V> {
    #[verifier::type_invariant]
    closed spec fn inv(&self) -> bool {
        unique_keys(self.entries@)
    }

    /// The keys, in entry order.
    pub closed spec fn key_seq(&self) -> Seq<Seq<char>> {
        keys_of(self.entries@)
    }

    /// The values, in entry order.
    pub closed spec fn value_seq(&self) -> Seq<V> {
        self.entries@.map_values(|e: (String, V)| e.1)
    }

    pub closed spec fn view(&self) -> Map<Seq<char>, V> {
        map_of(self.entries@)
    }

    pub fn new() -> (m: Self)
        ensures
            m@ == Map::<Seq<char>, V>::empty(),
            m.key_seq() == Seq::<Seq<char>>::empty(),
    {
        let m = StrMap { entries: Vec::new() };
        proof {
            assert(m.key_seq() =~= Seq::<Seq<char>>::empty());
            assert(m@ =~= Map::<Seq<char>, V>::empty());
        }
        m
    }

    fn find(&self, key: &String) -> (r: Option<usize>)
        ensures
            match r {
                Some(i) => i < self.entries@.len() && self.entries@[i as int].0@ == key@,
                None => !self.key_seq().contains(key@),
            },
    {
        let mut i: usize = 0;
        while i < self.entries.len()
            invariant
                i <= self.entries@.len(),
                forall|j: int| 0 <= j < i ==> self.entries@[j].0@ != key@,
            decreases self.entries@.len() - i,
        {
            if self.entries[i].0 == *key {
                return Some(i);
            }
            i = i + 1;
        }
        proof {
            lemma_contains(self.entries@, key@);
        }
        None
    }

    /// Number of entries.
    pub fn len(&self) -> (r: usize)
        ensures
            r == self.key_seq().len(),
            r == self@.dom().len(),
    {
        proof {
            use_type_invariant(self);
            lemma_dom(self.entries@);
        }
        self.entries.len()
    }

    pub fn is_empty(&self) -> (r: bool)
        ensures
            r == (self@.dom().len() == 0),
    {
        proof {
            use_type_invariant(self);
            lemma_dom(self.entries@);
        }
        self.entries.len() == 0
    }

    pub fn contains_key(&self, key: &str) -> (r: bool)
        ensures
            r == self@.contains_key(key@),
    {
        proof {
            use_type_invariant(self);
        }
        let k = key.to_string();
        match self.find(&k) {
            Some(i) => {
                proof {
                    lemma_at(self.entries@, i as int);
                }
                true
            },
            None => false,
        }
    }

    pub fn get(&self, key: &str) -> (r: Option<&V>)
        ensures
            match r {
                Some(v) => self@.contains_key(key@) && *v == self@[key@],
                None => !self@.contains_key(key@),
            },
    {
        proof {
            use_type_invariant(self);
        }
        let k = key.to_string();
        match self.find(&k) {
            Some(i) => {
                proof {
                    lemma_at(self.entries@, i as int);
                }
                Some(&self.entries[i].1)
            },
            None => None,
        }
    }

    /// Inserts or replaces the value under `key`. A new key goes last; a
    /// present key keeps its place.
    pub fn insert(&mut self, key: String, value: V)
        ensures
            final(self)@ == old(self)@.insert(key@, value),
            old(self).key_seq().contains(key@) ==> final(self).key_seq() == old(self).key_seq(),
            !old(self).key_seq().contains(key@) ==> final(self).key_seq() == old(self).key_seq().push(key@),
    {
        proof {
            use_type_invariant(&*self);
        }
        let ghost s = self.entries@;
        let ghost kv = key@;
        match self.find(&key) {
            Some(i) => {
                let mut es: Vec<(String, V)> = Vec::new();
                std::mem::swap(&mut es, &mut self.entries);
                let ghost e = (key, value);
                es.set(i, (key, value));
                proof {
                    assert(keys_of(s)[i as int] == kv);
                    lemma_update(s, i as int, es@[i as int]);
                    assert(es@ == s.update(i as int, es@[i as int]));
                }
                self.entries = es;
            },
            None => {
                let mut es: Vec<(String, V)> = Vec::new();
                std::mem::swap(&mut es, &mut self.entries);
                es.push((key, value));
                proof {
                    let e = es@.last();
                    assert(e.0@ == kv);
                    assert(es@ == s.push(e));
                    lemma_push(s, e);
                    assert(keys_of(es@) == keys_of(s).push(kv));
                }
                self.entries = es;
                proof {
                    assert(self.key_seq() == keys_of(s).push(kv));
                }
            },
        }
    }

    /// Removes `key`, returning its value when it was present.
    pub fn remove(&mut self, key: &str) -> (r: Option<V>)
        ensures
            final(self)@ == old(self)@.remove(key@),
            match r {
                Some(v) => old(self)@.contains_key(key@) && v == old(self)@[key@],
                None => !old(self)@.contains_key(key@),
            },
    {
        proof {
            use_type_invariant(&*self);
        }
        let ghost s = self.entries@;
        let k = key.to_string();
        match self.find(&k) {
            Some(i) => {
                proof {
                    lemma_at(s, i as int);
                    lemma_remove(s, i as int);
                }
                let mut es: Vec<(String, V)> = Vec::new();
                std::mem::swap(&mut es, &mut self.entries);
                let (_, v) = es.remove(i);
                self.entries = es;
                Some(v)
            },
            None => {
                proof {
                    lemma_contains(s, key@);
                    assert(map_of(s).remove(key@) =~= map_of(s));
                }
                None
            },
        }
    }

    /// The entries in order; each key appears once.
    pub fn entries(&self) -> (r: &Vec<(String, V)>)
        ensures
            r@.len() == self.key_seq().len(),
            self.key_seq().len() == self.value_seq().len(),
            self.key_seq().no_duplicates(),
            forall|i: int| 0 <= i < r@.len() ==> #[trigger] r@[i].0@ == self.key_seq()[i]
                && r@[i].1 == self.value_seq()[i],
            forall|k: Seq<char>| #[trigger] self@.contains_key(k) <==> self.key_seq().contains(k),
            forall|i: int|
                0 <= i < self.key_seq().len() ==> #[trigger] self@[self.key_seq()[i]]
                    == self.value_seq()[i],
    {
        proof {
            use_type_invariant(self);
            lemma_dom(self.entries@);
            assert forall|i: int| 0 <= i < self.key_seq().len() implies #[trigger] self@[self.key_seq()[i]]
                == self.value_seq()[i] by {
                lemma_at(self.entries@, i);
            }
        }
        &self.entries
    }
}

impl StrMap<String> {
    /// A copy of a map of strings.
    pub fn duplicate(&self) -> (r: Self)
        ensures
            r@ == self@,
            r.key_seq() == self.key_seq(),
            r.value_seq() == self.value_seq(),
    {
        proof {
            use_type_invariant(self);
        }
        let mut out: Vec<(String, String)> = Vec::new();
        let mut i: usize = 0;
        while i < self.entries.len()
            invariant
                i <= self.entries@.len(),
                out@ == self.entries@.take(i as int),
            decreases self.entries@.len() - i,
        {
            let k = self.entries[i].0.clone();
            let v = self.entries[i].1.clone();
            out.push((k, v));
            proof {
                assert(self.entries@.take(i as int + 1) =~= self.entries@.take(i as int).push(self.entries@[i as int]));
            }
            i = i + 1;
        }
        proof {
            assert(self.entries@.take(self.entries@.len() as int) =~= self.entries@);
        }
        StrMap { entries: out }
    }
}

impl StrMap<String> {
    /// The same entries with each text as a configuration string value.
    pub fn as_text_values(&self) -> (r: StrMap<crate::yaml::YamlValue>)
        ensures
            r.model() == self@.map_values(|s: String| crate::yaml::YamlModel::String(s@)),
            r.key_seq() == self.key_seq(),
    {
        proof {
            use_type_invariant(self);
        }
        let mut out: Vec<(String, crate::yaml::YamlValue)> = Vec::new();
        let mut i: usize = 0;
        while i < self.entries.len()
            invariant
                i <= self.entries@.len(),
                out@.len() == i,
                forall|j: int| 0 <= j < i ==> #[trigger] out@[j].0@ == self.entries@[j].0@
                    && out@[j].1.model() == crate::yaml::YamlModel::String(self.entries@[j].1@),
            decreases self.entries@.len() - i,
        {
            let k = self.entries[i].0.clone();
            let v = crate::yaml::YamlValue::String(self.entries[i].1.clone());
            out.push((k, v));
            i = i + 1;
        }
        let ghost s = self.entries@;
        let ghost o = out@;
        proof {
            assert(unique_keys(o));
            assert(keys_of(o) =~= keys_of(s));
            lemma_dom(o);
            lemma_dom(s);
            assert(map_of(o).dom() =~= map_of(s).dom());
            assert forall|k: Seq<char>| map_of(o).contains_key(k) implies #[trigger] map_of(o)[k].model()
                == crate::yaml::YamlModel::String(map_of(s)[k]@) by {
                lemma_contains(o, k);
                let j = choose|j: int| 0 <= j < o.len() && o[j].0@ == k;
                lemma_at(o, j);
                lemma_at(s, j);
            }
            assert(map_of(o).map_values(|v: crate::yaml::YamlValue| v.model()) =~= map_of(s).map_values(
                |t: String| crate::yaml::YamlModel::String(t@),
            ));
        }
        StrMap { entries: out }
    }
}

impl<V: Copy> StrMap<V> {
    /// A copy of a map whose values are plain data.
    pub fn copied(&self) -> (r: Self)
        ensures
            r@ == self@,
            r.key_seq() == self.key_seq(),
    {
        proof {
            use_type_invariant(self);
        }
        let mut out: Vec<(String, V)> = Vec::new();
        let mut i: usize = 0;
        while i < self.entries.len()
            invariant
                i <= self.entries@.len(),
                out@ == self.entries@.take(i as int),
            decreases self.entries@.len() - i,
        {
            let k = self.entries[i].0.clone();
            let v = self.entries[i].1;
            out.push((k, v));
            proof {
                assert(self.entries@.take(i as int + 1) =~= self.entries@.take(i as int).push(self.entries@[i as int]));
            }
            i = i + 1;
        }
        proof {
            assert(self.entries@.take(self.entries@.len() as int) =~= self.entries@);
        }
        StrMap { entries: out }
    }
}

impl StrMap<crate::yaml::YamlValue> {
    /// The models of the values, by key.
    pub closed spec fn model(&self) -> Map<Seq<char>, crate::yaml::YamlModel> {
        self@.map_values(|v: crate::yaml::YamlValue| v.model())
    }

    /// Setting one value sets its model.
    pub proof fn lemma_model_insert(before: Self, after: Self, k: Seq<char>, v: crate::yaml::YamlValue)
        requires
            after@ == before@.insert(k, v),
        ensures
            after.model() == before.model().insert(k, v.model()),
    {
        assert(after.model() =~= before.model().insert(k, v.model()));
    }

    /// The models have the keys of the values.
    pub proof fn lemma_model_dom(m: Self)
        ensures
            m.model().dom() == m@.dom(),
    {
    }

    /// The model of the value under a present key.
    pub proof fn lemma_model_at(m: Self, k: Seq<char>)
        requires
            m@.contains_key(k),
        ensures
            m.model().contains_key(k),
            m.model()[k] == m@[k].model(),
    {
    }

    /// A deep copy of a map of configuration values.
    pub fn duplicate(&self) -> (r: Self)
        ensures
            r.model() == self.model(),
            r.key_seq() == self.key_seq(),
            r@.dom() == self@.dom(),
            r.value_seq().len() == self.value_seq().len(),
            r.value_seq().len() == r.key_seq().len(),
            forall|i: int| 0 <= i < r.value_seq().len() ==> (#[trigger] r.value_seq()[i]).model() == self.value_seq()[i].model(),
    {
        proof {
            use_type_invariant(self);
        }
        let mut out: Vec<(String, crate::yaml::YamlValue)> = Vec::new();
        let mut i: usize = 0;
        while i < self.entries.len()
            invariant
                i <= self.entries@.len(),
                out@.len() == i,
                forall|j: int| 0 <= j < i ==> #[trigger] out@[j].0@ == self.entries@[j].0@
                    && out@[j].1.model() == self.entries@[j].1.model(),
            decreases self.entries@.len() - i,
        {
            let k = self.entries[i].0.clone();
            let v = self.entries[i].1.duplicate();
            out.push((k, v));
            i = i + 1;
        }
        let ghost s = self.entries@;
        let ghost o = out@;
        proof {
            assert(unique_keys(o));
            assert(keys_of(o) =~= keys_of(s));
            lemma_dom(o);
            lemma_dom(s);
            assert(map_of(o).dom() =~= map_of(s).dom());
            assert forall|k: Seq<char>| map_of(o).contains_key(k) implies #[trigger] map_of(o)[k].model() == map_of(s)[k].model() by {
                lemma_contains(o, k);
                let j = choose|j: int| 0 <= j < o.len() && o[j].0@ == k;
                lemma_at(o, j);
                lemma_at(s, j);
            }
            assert(map_of(o).map_values(|v: crate::yaml::YamlValue| v.model()) =~= map_of(s).map_values(|v: crate::yaml::YamlValue| v.model()));
        }
        let r = StrMap { entries: out };
        proof {
            assert forall|i: int| 0 <= i < r.value_seq().len() implies (#[trigger] r.value_seq()[i]).model() == self.value_seq()[i].model() by {
                assert(o[i].0@ == s[i].0@);
                assert(r.value_seq()[i] == o[i].1);
                assert(self.value_seq()[i] == s[i].1);
            }
        }
        r
    }

    /// A map of configuration values with nothing in it.
    pub fn empty_values() -> (r: Self)
        ensures
            r@ == Map::<Seq<char>, crate::yaml::YamlValue>::empty(),
            r.model() == Map::<Seq<char>, crate::yaml::YamlModel>::empty(),
            r.key_seq() == Seq::<Seq<char>>::empty(),
    {
        let r = Self::new();
        proof {
            assert(r.model() =~= Map::<Seq<char>, crate::yaml::YamlModel>::empty());
        }
        r
    }
}

impl<V: Clone> Clone for StrMap<V> {
    fn clone(&self) -> (r: Self)
        ensures
            r.key_seq() == self.key_seq(),
            r.value_seq().len() == self.value_seq().len(),
            forall|i: int| 0 <= i < self.value_seq().len() ==> cloned::<V>(self.value_seq()[i], #[trigger] r.value_seq()[i]),
    {
        proof {
            use_type_invariant(self);
        }
        let mut out: Vec<(String, V)> = Vec::new();
        let mut i: usize = 0;
        while i < self.entries.len()
            invariant
                i <= self.entries@.len(),
                out@.len() == i,
                forall|j: int| 0 <= j < i ==> #[trigger] out@[j].0@ == self.entries@[j].0@
                    && cloned::<V>(self.entries@[j].1, out@[j].1),
            decreases self.entries@.len() - i,
        {
            let k = self.entries[i].0.clone();
            let v = self.entries[i].1.clone();
            out.push((k, v));
            i = i + 1;
        }
        proof {
            assert(keys_of(out@) =~= keys_of(self.entries@));
        }
        let ghost outs = out@;
        let r = StrMap { entries: out };
        proof {
            assert forall|i: int| 0 <= i < self.value_seq().len() implies cloned::<V>(self.value_seq()[i], #[trigger] r.value_seq()[i]) by {
                assert(outs[i].0@ == self.entries@[i].0@);
                assert(r.value_seq()[i] == r.entries@[i].1);
                assert(self.value_seq()[i] == self.entries@[i].1);
            }
        }
        r
    }
}

} // verus!
