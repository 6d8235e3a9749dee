//! A small association from keys to values.
use vstd::prelude::*;

use crate::text;

verus! {

/// A key that is compared by its value.
pub trait MapKey: Sized {
    /// What two equal keys have in common.
    type Name;

    spec fn name(&self) -> Self::Name;

    fn same_key(&self, other: &Self) -> (yes: bool)
        ensures
            yes == (self.name() == other.name()),
    ;
}

impl MapKey for String {
    type Name = Seq<char>;

    open spec fn name(&self) -> Seq<char> {
        self@
    }

    fn same_key(&self, other: &Self) -> (yes: bool) {
        text::same_text(self.as_str(), other.as_str())
    }
}

/// One association.
#[derive(Debug)]
pub struct Entry<K, V> {
    pub key: K,
    pub value: V,
}

/// The value of the first entry with this key.
pub open spec fn first_value<K: MapKey, V>(entries: Seq<Entry<K, V>>, name: K::Name) -> Option<V>
    decreases entries.len(),
{
    if entries.len() == 0 {
        None
    } else if entries[0].key.name() == name {
        Some(entries[0].value)
    } else {
        first_value(entries.drop_first(), name)
    }
}

/// An association from keys to values.
#[derive(Debug)]
pub struct Assoc<K, V> {
    entries: Vec<Entry<K, V>>,
}

impl<K: MapKey, V> View for Assoc<K, V> {
    type V = Map<K::Name, V>;

    closed spec fn view(&self) -> Map<K::Name, V> {
        Map::new(
            |name: K::Name| first_value(self.entries@, name) is Some,
            |name: K::Name| first_value(self.entries@, name)->0,
        )
    }
}

proof fn lemma_first_value_none<K: MapKey, V>(entries: Seq<Entry<K, V>>, name: K::Name)
    ensures
        first_value(entries, name) is None <==> forall|i: int|
            0 <= i < entries.len() ==> (#[trigger] entries[i]).key.name() != name,
    decreases entries.len(),
{
    if entries.len() > 0 {
        let rest = entries.drop_first();
        lemma_first_value_none(rest, name);
        if first_value(entries, name) is None {
            assert forall|i: int| 0 <= i < entries.len() implies (#[trigger] entries[i]).key.name() != name by {
                if i > 0 {
                    assert(entries[i] == rest[i - 1]);
                }
            }
        } else {
            if entries[0].key.name() != name {
                let i = choose|i: int| 0 <= i < rest.len() && (#[trigger] rest[i]).key.name() == name;
                assert(entries[i + 1] == rest[i]);
            }
        }
    }
}

proof fn lemma_first_value_at<K: MapKey, V>(entries: Seq<Entry<K, V>>, at: int, name: K::Name)
    requires
        0 <= at < entries.len(),
        entries[at].key.name() == name,
        forall|i: int| 0 <= i < at ==> (#[trigger] entries[i]).key.name() != name,
    ensures
        first_value(entries, name) == Some(entries[at].value),
    decreases at,
{
    if at > 0 {
        let rest = entries.drop_first();
        assert(entries[0].key.name() != name);
        assert forall|i: int| 0 <= i < at - 1 implies (#[trigger] rest[i]).key.name() != name by {
            assert(rest[i] == entries[i + 1]);
        }
        lemma_first_value_at(rest, at - 1, name);
    }
}

proof fn lemma_first_value_push<K: MapKey, V>(entries: Seq<Entry<K, V>>, e: Entry<K, V>, name: K::Name)
    ensures
        first_value(entries.push(e), name) == (match first_value(entries, name) {
            Some(v) => Some(v),
            None => if e.key.name() == name { Some(e.value) } else { None },
        }),
    decreases entries.len(),
{
    if entries.len() == 0 {
        assert(entries.push(e).drop_first() =~= Seq::<Entry<K, V>>::empty());
        assert(first_value(entries.push(e).drop_first(), name) is None);
        assert(entries.push(e)[0] == e);
    } else {
        lemma_first_value_push(entries.drop_first(), e, name);
        assert(entries.push(e).drop_first() =~= entries.drop_first().push(e));
    }
}

proof fn lemma_first_value_update<K: MapKey, V>(entries: Seq<Entry<K, V>>, at: int, e: Entry<K, V>, name: K::Name)
    requires
        0 <= at < entries.len(),
        entries[at].key.name() == e.key.name(),
        forall|i: int| 0 <= i < at ==> (#[trigger] entries[i]).key.name() != e.key.name(),
    ensures
        first_value(entries.update(at, e), name) == (if name == e.key.name() {
            Some(e.value)
        } else {
            first_value(entries, name)
        }),
    decreases entries.len(),
{
    let updated = entries.update(at, e);
    let rest = entries.drop_first();
    if at == 0 {
        assert(updated.drop_first() =~= rest);
    } else {
        assert(entries[0].key.name() != e.key.name());
        assert forall|i: int| 0 <= i < at - 1 implies (#[trigger] rest[i]).key.name() != e.key.name() by {
            assert(rest[i] == entries[i + 1]);
        }
        assert(updated.drop_first() =~= rest.update(at - 1, e));
        lemma_first_value_update(rest, at - 1, e, name);
    }
}

impl<K: MapKey, V> Assoc<K, V> {
    /// The empty association.
    pub fn new() -> (map: Self)
        ensures
            map@ == Map::<K::Name, V>::empty(),
    {
        let map = Self { entries: Vec::new() };
        assert(map@ =~= Map::<K::Name, V>::empty());
        map
    }

    fn position(&self, key: &K) -> (at: Option<usize>)
        ensures
            match at {
                Some(at) => {
                    &&& at < self.entries@.len()
                    &&& self.entries@[at as int].key.name() == key.name()
                    &&& forall|i: int| 0 <= i < at ==> (#[trigger] self.entries@[i]).key.name() != key.name()
                    &&& first_value(self.entries@, key.name()) == Some(self.entries@[at as int].value)
                },
                None => {
                    &&& forall|i: int|
                        0 <= i < self.entries@.len() ==> (#[trigger] self.entries@[i]).key.name() != key.name()
                    &&& first_value(self.entries@, key.name()) is None
                },
            },
    {
        let mut i: usize = 0;
        while i < self.entries.len()
            invariant
                i <= self.entries@.len(),
                forall|j: int| 0 <= j < i ==> (#[trigger] self.entries@[j]).key.name() != key.name(),
            decreases self.entries@.len() - i,
        {
            if self.entries[i].key.same_key(key) {
                proof {
                    lemma_first_value_at(self.entries@, i as int, key.name());
                }
                return Some(i);
            }
            i = i + 1;
        }
        proof {
            lemma_first_value_none(self.entries@, key.name());
        }
        None
    }

    /// The value under a key.
    pub fn get(&self, key: &K) -> (found: Option<&V>)
        ensures
            match found {
                Some(value) => self@.dom().contains(key.name()) && self@[key.name()] == *value,
                None => !self@.dom().contains(key.name()),
            },
    {
        match self.position(key) {
            Some(at) => Some(&self.entries[at].value),
            None => None,
        }
    }

    /// Whether there is a value under a key.
    pub fn contains(&self, key: &K) -> (yes: bool)
        ensures
            yes == self@.dom().contains(key.name()),
    {
        self.position(key).is_some()
    }

    /// Puts a value under a key, in place of the one that was there.
    pub fn insert(&mut self, key: K, value: V)
        ensures
            final(self)@ == old(self)@.insert(key.name(), value),
    {
        let ghost before = self.entries@;
        let ghost map = self@;
        match self.position(&key) {
            Some(at) => {
                let ghost e = Entry { key, value };
                self.entries.set(at, Entry { key, value });
                proof {
                    assert forall|name: K::Name| true implies #[trigger] first_value(self.entries@, name) == (if name
                        == key.name() {
                        Some(value)
                    } else {
                        first_value(before, name)
                    }) by {
                        lemma_first_value_update(before, at as int, e, name);
                    }
                    assert(self@ =~= map.insert(key.name(), value));
                }
            },
            None => {
                let ghost e = Entry { key, value };
                self.entries.push(Entry { key, value });
                proof {
                    assert forall|name: K::Name| true implies #[trigger] first_value(self.entries@, name) == (if name
                        == key.name() {
                        Some(value)
                    } else {
                        first_value(before, name)
                    }) by {
                        lemma_first_value_push(before, e, name);
                    }
                    assert(self@ =~= map.insert(key.name(), value));
                }
            },
        }
    }

    /// Takes away what is under a key.
    pub fn remove(&mut self, key: &K) -> (removed: Option<V>)
        ensures
            final(self)@ == old(self)@.remove(key.name()),
            match removed {
                Some(value) => old(self)@.dom().contains(key.name()) && old(self)@[key.name()] == value,
                None => !old(self)@.dom().contains(key.name()),
            },
    {
        let ghost before = self.entries@;
        let ghost map = self@;
        let mut kept: Vec<Entry<K, V>> = Vec::new();
        let mut removed: Option<V> = None;
        proof {
            assert(before.skip(0) =~= before);
        }
        while self.entries.len() > 0
            invariant
                self.entries@.len() <= before.len(),
                self.entries@ == before.skip(before.len() - self.entries@.len()),
                forall|name: K::Name|
                    name != key.name() ==> #[trigger] first_value(before, name) == (match first_value(kept@, name) {
                        Some(v) => Some(v),
                        None => first_value(self.entries@, name),
                    }),
                first_value(kept@, key.name()) is None,
                first_value(before, key.name()) == (match removed {
                    Some(v) => Some(v),
                    None => first_value(self.entries@, key.name()),
                }),
            decreases self.entries@.len(),
        {
            let ghost kept_before = kept@;
            let ghost left = self.entries@;
            let e = self.entries.remove(0);
            assert(self.entries@ =~= left.drop_first());
            if e.key.same_key(key) {
                if removed.is_none() {
                    removed = Some(e.value);
                }
            } else {
                proof {
                    assert forall|name: K::Name| true implies #[trigger] first_value(kept_before.push(e), name) == (
                    match first_value(kept_before, name) {
                        Some(v) => Some(v),
                        None => if e.key.name() == name { Some(e.value) } else { None },
                    }) by {
                        lemma_first_value_push(kept_before, e, name);
                    }
                }
                kept.push(e);
            }
            assert(self.entries@ =~= before.skip(before.len() - self.entries@.len()));
        }
        self.entries = kept;
        assert(self@ =~= map.remove(key.name()));
        removed
    }

    /// Takes away everything.
    pub fn clear(&mut self)
        ensures
            final(self)@ == Map::<K::Name, V>::empty(),
    {
        self.entries = Vec::new();
        assert(self@ =~= Map::<K::Name, V>::empty());
    }
}

} // verus!
