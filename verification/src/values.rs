//! The input values configured on a node: a map from input name to value.
use vstd::prelude::*;
use crate::schema::{InputValue, InputValueView};
use crate::text::text_eq;

verus! {

/// The value of the first entry with key `key`, if any.
pub open spec fn lookup(entries: Seq<(String, InputValue)>, key: Seq<char>) -> Option<InputValueView>
    decreases entries.len(),
{
    if entries.len() == 0 {
        None
    } else if entries[0].0@ == key {
        Some(entries[0].1@)
    } else {
        lookup(entries.drop_first(), key)
    }
}

/// Looking up in a list with one more entry at the end.
pub proof fn lemma_lookup_push(e: Seq<(String, InputValue)>, p: (String, InputValue), q: Seq<char>)
    ensures
        lookup(e.push(p), q) == (if lookup(e, q) is Some {
            lookup(e, q)
        } else if q == p.0@ {
            Some(p.1@)
        } else {
            None
        }),
    decreases e.len(),
{
    if e.len() > 0 {
        assert(e.push(p)[0] == e[0]);
        assert(e.push(p).drop_first() =~= e.drop_first().push(p));
        lemma_lookup_push(e.drop_first(), p, q);
    } else {
        assert(e.push(p)[0] == p);
        assert(e.push(p).drop_first() =~= Seq::<(String, InputValue)>::empty());
        assert(lookup(Seq::<(String, InputValue)>::empty(), q) == None::<InputValueView>);
    }
}

/// Replacing the first entry with key `k` changes only the value under `k`.
pub proof fn lemma_lookup_update(e: Seq<(String, InputValue)>, i: int, p: (String, InputValue), q: Seq<char>)
    requires
        0 <= i < e.len(),
        e[i].0@ == p.0@,
        forall|j: int| 0 <= j < i ==> (#[trigger] e[j]).0@ != p.0@,
    ensures
        lookup(e.update(i, p), q) == (if q == p.0@ {
            Some(p.1@)
        } else {
            lookup(e, q)
        }),
    decreases e.len(),
{
    if i > 0 {
        assert(e.update(i, p).drop_first() =~= e.drop_first().update(i - 1, p));
        assert forall|j: int| 0 <= j < i - 1 implies (#[trigger] e.drop_first()[j]).0@ != p.0@ by {
            assert(e.drop_first()[j] == e[j + 1]);
        }
        lemma_lookup_update(e.drop_first(), i - 1, p, q);
    } else {
        assert(e.update(i, p).drop_first() =~= e.drop_first());
    }
}

/// Some entry has key `k` exactly when the lookup finds a value.
pub proof fn lemma_lookup_some(e: Seq<(String, InputValue)>, k: Seq<char>)
    ensures
        lookup(e, k) is Some <==> exists|i: int| 0 <= i < e.len() && (#[trigger] e[i]).0@ == k,
    decreases e.len(),
{
    if e.len() > 0 {
        lemma_lookup_some(e.drop_first(), k);
        if exists|i: int| 0 <= i < e.len() && (#[trigger] e[i]).0@ == k {
            let i = choose|i: int| 0 <= i < e.len() && (#[trigger] e[i]).0@ == k;
            if i > 0 {
                assert(e.drop_first()[i - 1] == e[i]);
            }
        }
        if exists|i: int| 0 <= i < e.drop_first().len() && (#[trigger] e.drop_first()[i]).0@ == k {
            let i = choose|i: int| 0 <= i < e.drop_first().len() && (#[trigger] e.drop_first()[i]).0@ == k;
            assert(e[i + 1] == e.drop_first()[i]);
        }
    }
}

/// The map a list of entries stands for (the first entry per key wins).
pub open spec fn entries_map(entries: Seq<(String, InputValue)>) -> Map<Seq<char>, InputValueView> {
    Map::new(|k: Seq<char>| lookup(entries, k) is Some, |k: Seq<char>| lookup(entries, k)->Some_0)
}

/// The input values of a node, keyed by input name.
#[derive(Debug)]
pub struct InputValues {
    entries: Vec<(String, InputValue)>,
}

impl View for InputValues {
    type V = Map<Seq<char>, InputValueView>;

    closed spec fn view(&self) -> Map<Seq<char>, InputValueView> {
        entries_map(self.entries@)
    }
}

/// No two entries share a key.
pub open spec fn keys_unique(entries: Seq<(String, InputValue)>) -> bool {
    forall|i: int, j: int|
        0 <= i < entries.len() && 0 <= j < entries.len() && i != j ==> (#[trigger] entries[i]).0@
            != (#[trigger] entries[j]).0@
}

/// With unique keys, every entry is what the lookup of its key finds, and
/// the stored values are exactly the values of the map.
proof fn lemma_values(e: Seq<(String, InputValue)>, r: Seq<&InputValue>)
    requires
        keys_unique(e),
        r.len() == e.len(),
        forall|j: int| 0 <= j < r.len() ==> *(#[trigger] r[j]) == e[j].1,
    ensures
        forall|k: Seq<char>| #[trigger] entries_map(e).contains_key(k) ==> exists|i: int|
            0 <= i < r.len() && (#[trigger] r[i])@ == entries_map(e)[k],
        forall|i: int| 0 <= i < r.len() ==> entries_map(e).values().contains((#[trigger] r[i])@),
{
    assert forall|k: Seq<char>| #[trigger] entries_map(e).contains_key(k) implies exists|i: int|
        0 <= i < r.len() && (#[trigger] r[i])@ == entries_map(e)[k] by {
        lemma_lookup_some(e, k);
        let i = choose|i: int| 0 <= i < e.len() && (#[trigger] e[i]).0@ == k;
        lemma_lookup_first(e, i);
        assert(r[i]@ == entries_map(e)[k]);
    }
    assert forall|i: int| 0 <= i < r.len() implies entries_map(e).values().contains((#[trigger] r[i])@) by {
        assert forall|j: int| 0 <= j < i implies (#[trigger] e[j]).0@ != e[i].0@ by {
            assert(e[j].0@ != e[i].0@);
        }
        lemma_lookup_first(e, i);
        let k = e[i].0@;
        assert(entries_map(e).contains_key(k));
        assert(entries_map(e)[k] == e[i].1@);
        assert(r[i]@ == e[i].1@);
        assert(entries_map(e).dom().contains(k));
    }
}

impl InputValues {
    #[verifier::type_invariant]
    spec fn inv(self) -> bool {
        keys_unique(self.entries@)
    }

    /// No values.
    pub fn new() -> (r: Self)
        ensures
            r@ == Map::<Seq<char>, InputValueView>::empty(),
    {
        let r = InputValues { entries: Vec::new() };
        assert(r@ =~= Map::<Seq<char>, InputValueView>::empty());
        r
    }

    /// Position of the first entry with key `key`.
    fn position(&self, key: &str) -> (r: Option<usize>)
        ensures
            match r {
                Some(i) => i < self.entries@.len() && self.entries@[i as int].0@ == key@ && forall|j: int|
                    0 <= j < i ==> (#[trigger] self.entries@[j]).0@ != key@,
                None => forall|j: int| 0 <= j < self.entries@.len() ==> (#[trigger] self.entries@[j]).0@ != key@,
            },
    {
        let mut i: usize = 0;
        while i < self.entries.len()
            invariant
                i <= self.entries@.len(),
                forall|j: int| 0 <= j < i ==> (#[trigger] self.entries@[j]).0@ != key@,
            decreases self.entries.len() - i,
        {
            if text_eq(self.entries[i].0.as_str(), key) {
                return Some(i);
            }
            i = i + 1;
        }
        None
    }

    /// The value stored under `key`, if any.
    pub fn get(&self, key: &str) -> (r: Option<&InputValue>)
        ensures
            r is Some <==> self@.contains_key(key@),
            r matches Some(v) ==> v@ == self@[key@],
    {
        proof {
            lemma_lookup_some(self.entries@, key@);
        }
        match self.position(key) {
            Some(i) => {
                proof {
                    self.lemma_first(i as int);
                }
                Some(&self.entries[i].1)
            },
            None => None,
        }
    }

    /// The lookup finds the first entry with the key.
    proof fn lemma_first(&self, i: int)
        requires
            0 <= i < self.entries@.len(),
            forall|j: int| 0 <= j < i ==> (#[trigger] self.entries@[j]).0@ != self.entries@[i].0@,
        ensures
            lookup(self.entries@, self.entries@[i].0@) == Some(self.entries@[i].1@),
    {
        lemma_lookup_first(self.entries@, i);
    }

    /// Whether a value is stored under `key`.
    pub fn contains_key(&self, key: &str) -> (r: bool)
        ensures
            r == self@.contains_key(key@),
    {
        proof {
            lemma_lookup_some(self.entries@, key@);
        }
        self.position(key).is_some()
    }

    /// Stores `value` under `key`, replacing any previous value.
    pub fn insert(&mut self, key: String, value: InputValue)
        ensures
            final(self)@ == old(self)@.insert(key@, value@),
    {
        proof {
            use_type_invariant(&*self);
        }
        let ghost e = self.entries@;
        let ghost p = (key, value);
        let found = self.position(key.as_str());
        let mut entries: Vec<(String, InputValue)> = Vec::new();
        std::mem::swap(&mut entries, &mut self.entries);
        match found {
            Some(i) => {
                entries.set(i, (key, value));
                proof {
                    assert(entries@ == e.update(i as int, p));
                    assert forall|a: int, b: int|
                        0 <= a < entries@.len() && 0 <= b < entries@.len() && a != b implies (#[trigger] entries@[a]).0@
                            != (#[trigger] entries@[b]).0@ by {
                        assert(entries@[a].0@ == e[a].0@);
                        assert(entries@[b].0@ == e[b].0@);
                    }
                    assert forall|q: Seq<char>| lookup(entries@, q) == (if q == p.0@ {
                        Some(p.1@)
                    } else {
                        lookup(e, q)
                    }) by {
                        lemma_lookup_update(e, i as int, p, q);
                    }
                    assert(entries_map(entries@) =~= entries_map(e).insert(key@, value@));
                }
            },
            None => {
                entries.push((key, value));
                proof {
                    assert(entries@ == e.push(p));
                    assert forall|a: int, b: int|
                        0 <= a < entries@.len() && 0 <= b < entries@.len() && a != b implies (#[trigger] entries@[a]).0@
                            != (#[trigger] entries@[b]).0@ by {
                        if a < e.len() && b < e.len() {
                            assert(entries@[a] == e[a] && entries@[b] == e[b]);
                        } else if a < e.len() {
                            assert(entries@[a] == e[a]);
                        } else {
                            assert(entries@[b] == e[b]);
                        }
                    }
                    assert forall|q: Seq<char>| lookup(entries@, q) == (if q == p.0@ {
                        Some(p.1@)
                    } else {
                        lookup(e, q)
                    }) by {
                        lemma_lookup_push(e, p, q);
                        lemma_lookup_some(e, q);
                    }
                    assert(entries_map(entries@) =~= entries_map(e).insert(key@, value@));
                }
            },
        }
        self.entries = entries;
    }

    /// Removes the value stored under `key`, if any.
    pub fn remove(&mut self, key: &str)
        ensures
            final(self)@ == old(self)@.remove(key@),
    {
        proof {
            use_type_invariant(&*self);
        }
        let ghost e = self.entries@;
        let mut old_entries: Vec<(String, InputValue)> = Vec::new();
        std::mem::swap(&mut old_entries, &mut self.entries);
        let mut kept: Vec<(String, InputValue)> = Vec::new();
        let n = old_entries.len();
        let mut i: usize = 0;
        let mut rest = old_entries;
        while i < n
            invariant
                n == e.len(),
                i <= n,
                rest@ == e.skip(i as int),
                keys_unique(e),
                keys_unique(kept@),
                forall|t: int| 0 <= t < kept@.len() ==> exists|u: int| 0 <= u < i && (#[trigger] kept@[t]) == e[u],
                forall|q: Seq<char>| lookup(kept@, q) == (if q == key@ {
                    None
                } else {
                    lookup(e.take(i as int), q)
                }),
            decreases n - i,
        {
            let entry = rest.remove(0);
            assert(entry == e[i as int]);
            assert(rest@ =~= e.skip(i + 1));
            assert(e.take(i + 1) =~= e.take(i as int).push(e[i as int]));
            proof {
                assert forall|q: Seq<char>| lookup(e.take(i + 1), q) == (if lookup(e.take(i as int), q) is Some {
                    lookup(e.take(i as int), q)
                } else if q == e[i as int].0@ {
                    Some(e[i as int].1@)
                } else {
                    None
                }) by {
                    lemma_lookup_push(e.take(i as int), e[i as int], q);
                }
            }
            if !text_eq(entry.0.as_str(), key) {
                let ghost before = kept@;
                kept.push(entry);
                proof {
                    assert forall|a: int, b: int|
                        0 <= a < kept@.len() && 0 <= b < kept@.len() && a != b implies (#[trigger] kept@[a]).0@
                            != (#[trigger] kept@[b]).0@ by {
                        if a < before.len() && b < before.len() {
                            assert(kept@[a] == before[a] && kept@[b] == before[b]);
                        } else if a < before.len() {
                            assert(kept@[a] == before[a]);
                            let u = choose|u: int| 0 <= u < i && (#[trigger] before[a]) == e[u];
                            assert(e[u].0@ != e[i as int].0@);
                        } else {
                            assert(kept@[b] == before[b]);
                            let u = choose|u: int| 0 <= u < i && (#[trigger] before[b]) == e[u];
                            assert(e[u].0@ != e[i as int].0@);
                        }
                    }
                    assert forall|t: int| 0 <= t < kept@.len() implies exists|u: int| 0 <= u < i + 1 && (#[trigger] kept@[t]) == e[u] by {
                        if t < before.len() {
                            assert(kept@[t] == before[t]);
                            let u = choose|u: int| 0 <= u < i && (#[trigger] before[t]) == e[u];
                        } else {
                            assert(kept@[t] == e[i as int]);
                        }
                    }
                    assert forall|q: Seq<char>| lookup(kept@, q) == (if q == key@ {
                        None
                    } else {
                        lookup(e.take(i + 1), q)
                    }) by {
                        lemma_lookup_push(before, e[i as int], q);
                    }
                }
            }
            i = i + 1;
        }
        assert(e.take(n as int) =~= e);
        self.entries = kept;
        assert(self@ =~= entries_map(e).remove(key@));
    }

    /// The keys, in insertion order.
    pub fn keys(&self) -> (r: Vec<String>)
        ensures
            forall|k: Seq<char>| self@.contains_key(k) <==> exists|i: int| 0 <= i < r@.len() && (#[trigger] r@[i])@ == k,
            forall|i: int, j: int| 0 <= i < r@.len() && 0 <= j < r@.len() && i != j ==> (#[trigger] r@[i])@ != (#[trigger] r@[j])@,
    {
        let mut r: Vec<String> = Vec::new();
        let mut i: usize = 0;
        while i < self.entries.len()
            invariant
                i <= self.entries@.len(),
                r@.len() == i,
                forall|j: int| 0 <= j < i ==> (#[trigger] r@[j])@ == self.entries@[j].0@,
            decreases self.entries.len() - i,
        {
            r.push(self.entries[i].0.clone());
            i = i + 1;
        }
        proof {
            use_type_invariant(self);
            assert forall|k: Seq<char>| self@.contains_key(k) <==> exists|i: int| 0 <= i < r@.len() && (#[trigger] r@[i])@ == k by {
                lemma_lookup_some(self.entries@, k);
                if self@.contains_key(k) {
                    let j = choose|j: int| 0 <= j < self.entries@.len() && (#[trigger] self.entries@[j]).0@ == k;
                    assert(r@[j]@ == k);
                }
                if exists|i: int| 0 <= i < r@.len() && (#[trigger] r@[i])@ == k {
                    let j = choose|j: int| 0 <= j < r@.len() && (#[trigger] r@[j])@ == k;
                    assert(self.entries@[j].0@ == k);
                }
            }
        }
        r
    }

    /// The stored values, in insertion order.
    pub fn values(&self) -> (r: Vec<&InputValue>)
        ensures
            forall|k: Seq<char>| #[trigger] self@.contains_key(k) ==> exists|i: int|
                0 <= i < r@.len() && (#[trigger] r@[i])@ == self@[k],
            forall|i: int| 0 <= i < r@.len() ==> self@.values().contains((#[trigger] r@[i])@),
    {
        let mut r: Vec<&InputValue> = Vec::new();
        let mut i: usize = 0;
        while i < self.entries.len()
            invariant
                i <= self.entries@.len(),
                r@.len() == i,
                forall|j: int| 0 <= j < i ==> *(#[trigger] r@[j]) == self.entries@[j].1,
            decreases self.entries.len() - i,
        {
            r.push(&self.entries[i].1);
            i = i + 1;
        }
        proof {
            use_type_invariant(self);
            lemma_values(self.entries@, r@);
        }
        r
    }
}

/// Looking up the key of the first entry that has it finds that entry.
pub proof fn lemma_lookup_first(e: Seq<(String, InputValue)>, i: int)
    requires
        0 <= i < e.len(),
        forall|j: int| 0 <= j < i ==> (#[trigger] e[j]).0@ != e[i].0@,
    ensures
        lookup(e, e[i].0@) == Some(e[i].1@),
    decreases i,
{
    if i > 0 {
        assert forall|j: int| 0 <= j < i - 1 implies (#[trigger] e.drop_first()[j]).0@ != e.drop_first()[i - 1].0@ by {
            assert(e.drop_first()[j] == e[j + 1]);
        }
        lemma_lookup_first(e.drop_first(), i - 1);
    }
}

} // verus!
