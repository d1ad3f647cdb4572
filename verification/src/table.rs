//! Tables keyed by text, kept in ascending order of their keys.

use vstd::prelude::*;
use vstd::string::StringExecFns;

use crate::text;

verus! {

/// Keys in strictly ascending order.
pub open spec fn ascends(keys: Seq<Seq<char>>) -> bool {
    forall|i: int, j: int|
        0 <= i < j < keys.len() ==> text::text_lt(#[trigger] keys[i], #[trigger] keys[j])
}

/// How many leading keys come before `k`.
pub open spec fn place(keys: Seq<Seq<char>>, k: Seq<char>) -> int
    decreases keys.len(),
{
    if keys.len() > 0 && text::text_lt(keys[0], k) {
        1 + place(keys.drop_first(), k)
    } else {
        0
    }
}

/// Values by key. No key occurs twice, and the keys stand in ascending order.
#[derive(Debug, PartialEq, Eq)]
pub struct Table<V> {
    names: Vec<String>,
    items: Vec<V>,
}

impl<V> Table<V> {
    /// The keys, in order.
    pub closed spec fn keys(self) -> Seq<Seq<char>> {
        text::texts(self.names@)
    }

    /// The values, in the order of their keys.
    pub closed spec fn values(self) -> Seq<V> {
        self.items@
    }

    #[verifier::type_invariant]
    spec fn in_order(self) -> bool {
        &&& self.names.len() == self.items.len()
        &&& ascends(text::texts(self.names@))
    }

    /// Whether `i` is where the value of `key` stands.
    pub open spec fn stands(self, key: Seq<char>, i: int) -> bool {
        0 <= i < self.keys().len() && self.keys()[i] == key
    }

    /// The value of `key`, where it has one.
    pub open spec fn lookup(self, key: Seq<char>) -> Option<V> {
        if self.keys().contains(key) {
            Some(self.values()[self.keys().index_of(key)])
        } else {
            None
        }
    }

    /// The table without entries.
    pub fn new() -> (r: Table<V>)
        ensures
            r.keys() == Seq::<Seq<char>>::empty(),
            r.values() == Seq::<V>::empty(),
    {
        let names: Vec<String> = Vec::new();
        let items: Vec<V> = Vec::new();
        proof {
            assert(text::texts(names@) =~= Seq::<Seq<char>>::empty());
        }
        Table { names, items }
    }

    /// How many entries there are.
    pub fn len(&self) -> (r: usize)
        ensures
            r == self.keys().len(),
            r == self.values().len(),
            ascends(self.keys()),
    {
        proof {
            use_type_invariant(self);
        }
        self.names.len()
    }

    /// The key at a place.
    pub fn key(&self, i: usize) -> (r: &str)
        requires
            i < self.keys().len(),
        ensures
            r@ == self.keys()[i as int],
    {
        self.names[i].as_str()
    }

    /// The value at a place.
    pub fn value(&self, i: usize) -> (r: &V)
        requires
            i < self.keys().len(),
        ensures
            *r == self.values()[i as int],
    {
        proof {
            use_type_invariant(self);
        }
        &self.items[i]
    }

    /// Where a key stands.
    pub fn find(&self, key: &str) -> (r: Option<usize>)
        ensures
            (match r {
                Some(i) => self.stands(key@, i as int),
                None => forall|i: int| !#[trigger] self.stands(key@, i),
            }),
    {
        let mut i: usize = 0;
        while i < self.names.len()
            invariant
                i <= self.names.len(),
                forall|k: int| 0 <= k < i ==> !#[trigger] self.stands(key@, k),
            decreases self.names.len() - i,
        {
            if text::same_text(self.names[i].as_str(), key) {
                return Some(i);
            }
            i = i + 1;
        }
        None
    }

    /// Whether a key has a value.
    pub fn contains_key(&self, key: &str) -> (r: bool)
        ensures
            r == self.keys().contains(key@),
    {
        match self.find(key) {
            Some(i) => {
                assert(self.keys()[i as int] == key@);
                true
            },
            None => {
                proof {
                    if self.keys().contains(key@) {
                        let i = choose|i: int| 0 <= i < self.keys().len() && self.keys()[i] == key@;
                        assert(self.stands(key@, i));
                    }
                }
                false
            },
        }
    }

    /// The value of a key.
    pub fn get(&self, key: &str) -> (r: Option<&V>)
        ensures
            (match r {
                Some(v) => self.lookup(key@) == Some(*v),
                None => self.lookup(key@) is None,
            }),
    {
        match self.find(key) {
            Some(i) => {
                proof {
                    use_type_invariant(self);
                    let keys = self.keys();
                    let j = keys.index_of(key@);
                    assert(keys[i as int] == key@);
                    assert(0 <= j < keys.len() && keys[j] == key@);
                    text::text_lt_irreflexive(key@);
                    if i < j {
                        assert(text::text_lt(keys[i as int], keys[j]));
                    } else if j < i {
                        assert(text::text_lt(keys[j], keys[i as int]));
                    }
                }
                Some(self.value(i))
            },
            None => {
                proof {
                    if self.keys().contains(key@) {
                        let i = choose|i: int| 0 <= i < self.keys().len() && self.keys()[i] == key@;
                        assert(self.stands(key@, i));
                    }
                }
                None
            },
        }
    }

    /// Give a key a value, in place of the one that it had.
    pub fn insert(&mut self, key: String, value: V)
        ensures
            ({
                let p = place(old(self).keys(), key@);
                if old(self).stands(key@, p) {
                    &&& final(self).keys() == old(self).keys()
                    &&& final(self).values() == old(self).values().update(p, value)
                } else {
                    &&& final(self).keys() == old(self).keys().insert(p, key@)
                    &&& final(self).values() == old(self).values().insert(p, value)
                }
            }),
            0 <= place(old(self).keys(), key@) <= old(self).keys().len(),
    {
        let mut whole: Table<V> = Table::new();
        std::mem::swap(&mut whole, self);
        proof {
            use_type_invariant(&whole);
        }
        let ghost before = whole.keys();
        let ghost k = key@;
        let Table { mut names, mut items } = whole;
        let mut p: usize = 0;
        assert(before.skip(0) =~= before);
        while p < names.len() && text::text_before(names[p].as_str(), key.as_str())
            invariant
                p <= names.len(),
                before == text::texts(names@),
                k == key@,
                place(before, k) == p + place(before.skip(p as int), k),
                forall|i: int| 0 <= i < p ==> text::text_lt(#[trigger] before[i], k),
            decreases names.len() - p,
        {
            assert(before.skip(p as int).drop_first() =~= before.skip(p + 1));
            p = p + 1;
        }
        if p < names.len() && names[p] == key {
            items.set(p, value);
            *self = Table { names, items };
        } else {
            names.insert(p, key);
            items.insert(p, value);
            proof {
                let after = text::texts(names@);
                assert(after =~= before.insert(p as int, k));
                assert forall|i: int, j: int| 0 <= i < j < after.len() implies text::text_lt(
                    #[trigger] after[i],
                    #[trigger] after[j],
                ) by {
                    if i == p {
                        text::text_lt_total(k, before[p as int]);
                        if j > p + 1 {
                            text::text_lt_transitive(k, before[p as int], before[j - 1]);
                        }
                    } else if j == p {
                    } else {
                        let a = if i < p { i } else { i - 1 };
                        let b = if j < p { j } else { j - 1 };
                        assert(text::text_lt(before[a], before[b]));
                    }
                }
            }
            *self = Table { names, items };
        }
    }
}

/// The value of the last of the first `n` keys that is `key` once trimmed.
pub open spec fn last_trimmed<V>(
    keys: Seq<Seq<char>>,
    values: Seq<V>,
    key: Seq<char>,
    n: int,
) -> Option<V>
    decreases n,
{
    if n <= 0 {
        None
    } else if text::trimmed(keys[n - 1]) == key {
        Some(values[n - 1])
    } else {
        last_trimmed(keys, values, key, n - 1)
    }
}

proof fn lookup_at<V>(t: Table<V>, key: Seq<char>, i: int)
    requires
        ascends(t.keys()),
        t.stands(key, i),
    ensures
        t.lookup(key) == Some(t.values()[i]),
{
    let keys = t.keys();
    let j = keys.index_of(key);
    assert(keys[i] == key);
    assert(0 <= j < keys.len() && keys[j] == key);
    text::text_lt_irreflexive(key);
    if i < j {
        assert(text::text_lt(keys[i], keys[j]));
    } else if j < i {
        assert(text::text_lt(keys[j], keys[i]));
    }
}

/// What a table without a key holds once the key is put in at its place.
proof fn lookup_inserted<V>(before: Table<V>, after: Table<V>, p: int, key: Seq<char>, value: V)
    requires
        ascends(before.keys()),
        ascends(after.keys()),
        before.keys().len() == before.values().len(),
        0 <= p <= before.keys().len(),
        after.keys() == before.keys().insert(p, key),
        after.values() == before.values().insert(p, value),
    ensures
        after.lookup(key) == Some(value),
        forall|k: Seq<char>| k != key ==> #[trigger] after.lookup(k) == before.lookup(k),
{
    assert(after.stands(key, p));
    lookup_at(after, key, p);
    assert forall|k: Seq<char>| k != key implies #[trigger] after.lookup(k) == before.lookup(k) by {
        if before.keys().contains(k) {
            let i = choose|i: int| 0 <= i < before.keys().len() && before.keys()[i] == k;
            let j = if i < p { i } else { i + 1 };
            assert(after.stands(k, j));
            lookup_at(after, k, j);
            lookup_at(before, k, i);
        } else if after.keys().contains(k) {
            let j = choose|j: int| 0 <= j < after.keys().len() && after.keys()[j] == k;
            let i = if j < p { j } else { j - 1 };
            assert(before.keys()[i] == k);
        }
    }
}

/// The different keys once trimmed, in ascending order.
pub open spec fn trimmed_keys(keys: Seq<Seq<char>>) -> Seq<Seq<char>> {
    text::ascending(keys.map_values(|k: Seq<char>| text::trimmed(k)))
}

/// The values of the keys once trimmed, in the order of these.
pub open spec fn trimmed_values<V>(keys: Seq<Seq<char>>, values: Seq<V>) -> Seq<V> {
    Seq::new(
        trimmed_keys(keys).len(),
        |i: int| last_trimmed(keys, values, trimmed_keys(keys)[i], keys.len() as int)->0,
    )
}

proof fn last_trimmed_held<V>(keys: Seq<Seq<char>>, values: Seq<V>, key: Seq<char>, n: int)
    requires
        0 <= n <= keys.len(),
    ensures
        last_trimmed(keys, values, key, n) is Some <==> exists|i: int|
            0 <= i < n && text::trimmed(#[trigger] keys[i]) == key,
    decreases n,
{
    if n > 0 {
        last_trimmed_held(keys, values, key, n - 1);
        if text::trimmed(keys[n - 1]) == key {
            assert(text::trimmed(keys[n - 1]) == key);
        } else if last_trimmed(keys, values, key, n - 1) is Some {
            let i = choose|i: int| 0 <= i < n - 1 && text::trimmed(#[trigger] keys[i]) == key;
            assert(text::trimmed(keys[i]) == key);
        }
    }
}

/// A table that finds what trimmed keys find has the trimmed keys and their
/// values.
proof fn trimmed_by_lookup<V>(t: Table<V>, keys: Seq<Seq<char>>, values: Seq<V>)
    requires
        ascends(t.keys()),
        t.keys().len() == t.values().len(),
        forall|key: Seq<char>| #[trigger]
            t.lookup(key) == last_trimmed(keys, values, key, keys.len() as int),
    ensures
        t.keys() == trimmed_keys(keys),
        t.values() == trimmed_values(keys, values),
{
    let n = keys.len() as int;
    let cut = keys.map_values(|k: Seq<char>| text::trimmed(k));
    text::ascending_ascends(cut);
    assert forall|x: Seq<char>| #[trigger] t.keys().contains(x) <==> trimmed_keys(
        keys,
    ).contains(x) by {
        last_trimmed_held(keys, values, x, n);
        assert(t.keys().contains(x) <==> t.lookup(x) is Some);
        assert(cut.contains(x) <==> text::ascending(cut).contains(x));
        if cut.contains(x) {
            let i = choose|i: int| 0 <= i < cut.len() && cut[i] == x;
            assert(text::trimmed(keys[i]) == x);
        }
        if t.lookup(x) is Some {
            let i = choose|i: int| 0 <= i < n && text::trimmed(#[trigger] keys[i]) == x;
            assert(cut[i] == x);
        }
    }
    text::ascending_is_unique(t.keys(), trimmed_keys(keys));
    assert forall|i: int| 0 <= i < t.values().len() implies t.values()[i] == trimmed_values(
        keys,
        values,
    )[i] by {
        let key = t.keys()[i];
        assert(t.stands(key, i));
        lookup_at(t, key, i);
        assert(t.lookup(key) == last_trimmed(keys, values, key, n));
    }
    assert(t.values() =~= trimmed_values(keys, values));
}

impl<V> Table<V> {
    /// The table with its keys trimmed. Of keys that agree once trimmed, the
    /// last one keeps its value.
    pub fn with_trimmed_keys(self) -> (r: Table<V>)
        ensures
            r.keys() == trimmed_keys(self.keys()),
            r.values() == trimmed_values(self.keys(), self.values()),
    {
        proof {
            use_type_invariant(&self);
        }
        let ghost keys = self.keys();
        let ghost values = self.values();
        let ghost n = keys.len() as int;
        let Table { mut names, mut items } = self;
        let mut out: Table<V> = Table::new();
        while names.len() > 0
            invariant
                names.len() == items.len() <= n,
                n == keys.len() == values.len(),
                text::texts(names@) == keys.take(names.len() as int),
                items@ == values.take(items.len() as int),
                forall|key: Seq<char>| #[trigger]
                    last_trimmed(keys, values, key, n) == (if out.lookup(key) is Some {
                        out.lookup(key)
                    } else {
                        last_trimmed(keys, values, key, names.len() as int)
                    }),
            decreases names.len(),
        {
            let ghost m = names.len() as int;
            let ghost was = out;
            proof {
                use_type_invariant(&out);
                assert(text::texts(names@)[m - 1] == keys[m - 1]);
            }
            let name = names.pop().unwrap();
            let item = items.pop().unwrap();
            assert(text::texts(names@) =~= keys.take(m - 1));
            assert(items@ =~= values.take(m - 1));
            let key = String::from_str(text::trim(name.as_str()));
            assert(name@ == keys[m - 1]);
            if !out.contains_key(key.as_str()) {
                let ghost p = place(was.keys(), key@);
                let ghost k = key@;
                out.insert(key, item);
                proof {
                    if was.stands(k, p) {
                        assert(was.keys()[p] == k);
                    }
                    use_type_invariant(&out);
                    lookup_inserted(was, out, p, k, item);
                }
            }
        }
        proof {
            use_type_invariant(&out);
            trimmed_by_lookup(out, keys, values);
        }
        out
    }
}

impl<V: Clone> Clone for Table<V> {
    fn clone(&self) -> (r: Self)
        ensures
            r.keys() == self.keys(),
            r.values().len() == self.values().len(),
            forall|i: int|
                0 <= i < r.values().len() ==> cloned::<V>(
                    self.values()[i],
                    #[trigger] r.values()[i],
                ),
    {
        proof {
            use_type_invariant(self);
        }
        let names = text::copy_texts(&self.names);
        let mut items: Vec<V> = Vec::new();
        let mut i: usize = 0;
        while i < self.items.len()
            invariant
                i <= self.items.len(),
                items.len() == i,
                forall|k: int|
                    0 <= k < i ==> cloned::<V>(self.items@[k], #[trigger] items@[k]),
            decreases self.items.len() - i,
        {
            items.push(self.items[i].clone());
            i = i + 1;
        }
        assert(text::texts(names@) == text::texts(self.names@));
        assert(text::texts(names@).len() == names.len());
        assert(text::texts(self.names@).len() == self.names.len());
        Table { names, items }
    }
}

} // verus!
