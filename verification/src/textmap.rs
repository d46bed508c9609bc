//! A map keyed by texts, which keeps them in order.

use crate::text;
use vstd::prelude::*;

verus! {

/// Whether `a` stands before `b` in the order of their characters.
pub open spec fn precedes(a: Seq<char>, b: Seq<char>) -> bool
    decreases a.len(),
{
    if b.len() == 0 {
        false
    } else if a.len() == 0 {
        true
    } else if a[0] != b[0] {
        a[0] < b[0]
    } else {
        precedes(a.skip(1), b.skip(1))
    }
}

pub proof fn lemma_precedes_is_strict(a: Seq<char>, b: Seq<char>)
    ensures
        precedes(a, b) ==> a != b && !precedes(b, a),
        a == b || precedes(a, b) || precedes(b, a),
    decreases a.len(),
{
    if a.len() > 0 && b.len() > 0 && a[0] == b[0] {
        lemma_precedes_is_strict(a.skip(1), b.skip(1));
        if a.skip(1) == b.skip(1) {
            assert(a == seq![a[0]] + a.skip(1));
            assert(b == seq![b[0]] + b.skip(1));
        }
    } else if a.len() == 0 && b.len() == 0 {
        assert(a == b);
    }
}

pub proof fn lemma_precedes_is_transitive(a: Seq<char>, b: Seq<char>, c: Seq<char>)
    requires
        precedes(a, b),
        precedes(b, c),
    ensures
        precedes(a, c),
    decreases a.len(),
{
    if a.len() > 0 && b.len() > 0 && c.len() > 0 && a[0] == b[0] && b[0] == c[0] {
        lemma_precedes_is_transitive(a.skip(1), b.skip(1), c.skip(1));
    }
}

/// Which of two texts stands first.
fn is_before(a: &str, b: &str) -> (yes: bool)
    ensures
        yes == precedes(a@, b@),
{
    let first = text::chars_of(a);
    let second = text::chars_of(b);
    let mut i: usize = 0;
    assert(first@.skip(0) == first@);
    assert(second@.skip(0) == second@);
    while i < first.len() && i < second.len()
        invariant
            i <= first@.len(),
            i <= second@.len(),
            first@ == a@,
            second@ == b@,
            precedes(first@, second@) == precedes(first@.skip(i as int), second@.skip(i as int)),
        decreases first@.len() - i,
    {
        if first[i] != second[i] {
            return first[i] < second[i];
        }
        assert(first@.skip(i as int).skip(1) == first@.skip(i + 1));
        assert(second@.skip(i as int).skip(1) == second@.skip(i + 1));
        i += 1;
    }
    i < second.len()
}

/// The keys of a list of pairs.
pub open spec fn keys_in<V>(entries: Seq<(String, V)>) -> Seq<Seq<char>> {
    entries.map_values(|entry: (String, V)| entry.0@)
}

/// Whether texts stand in order, none of them twice.
pub open spec fn ascending(keys: Seq<Seq<char>>) -> bool {
    forall|i: int, j: int| 0 <= i < j < keys.len() ==> precedes(#[trigger] keys[i], #[trigger] keys[j])
}

/// Whether `keys` are the texts of a set, in order.
pub open spec fn lists(keys: Seq<Seq<char>>, set: Set<Seq<char>>) -> bool {
    &&& ascending(keys)
    &&& forall|key: Seq<char>| #[trigger] keys.contains(key) <==> set.contains(key)
}

/// The texts of a set, in order.
pub open spec fn sorted(set: Set<Seq<char>>) -> Seq<Seq<char>> {
    choose|keys: Seq<Seq<char>>| lists(keys, set)
}

/// The texts of a set have one order.
pub proof fn lemma_sorted(keys: Seq<Seq<char>>, set: Set<Seq<char>>)
    requires
        lists(keys, set),
    ensures
        sorted(set) == keys,
{
    let order = sorted(set);
    assert(lists(order, set));
    assert forall|key: Seq<char>| #[trigger] order.contains(key) <==> keys.contains(key) by {
        assert(order.contains(key) <==> set.contains(key));
        assert(keys.contains(key) <==> set.contains(key));
    }
    lemma_one_order(order, keys);
}

proof fn lemma_one_order(a: Seq<Seq<char>>, b: Seq<Seq<char>>)
    requires
        ascending(a),
        ascending(b),
        forall|key: Seq<char>| #[trigger] a.contains(key) <==> b.contains(key),
    ensures
        a == b,
    decreases a.len(),
{
    if a.len() == 0 {
        if b.len() > 0 {
            assert(b.contains(b[0]));
            assert(a.contains(b[0]));
        }
    } else {
        assert(a.contains(a[0]));
        let j = choose|j: int| 0 <= j < b.len() && b[j] == a[0];
        assert(b.contains(b[0]));
        assert(a.contains(b[0]));
        let i = choose|i: int| 0 <= i < a.len() && a[i] == b[0];
        if i > 0 && j > 0 {
            assert(precedes(a[0], a[i]));
            assert(precedes(b[0], b[j]));
            lemma_precedes_is_strict(a[0], b[0]);
        }
        assert(a[0] == b[0]);
        let after = a.skip(1);
        let later = b.skip(1);
        assert forall|key: Seq<char>| #[trigger] after.contains(key) <==> later.contains(key) by {
            lemma_skipped(a, key);
            lemma_skipped(b, key);
            assert(a.contains(key) <==> b.contains(key));
        }
        assert forall|i: int, j: int| 0 <= i < j < after.len() implies precedes(
            #[trigger] after[i],
            #[trigger] after[j],
        ) by {
            assert(precedes(a[i + 1], a[j + 1]));
        }
        assert forall|i: int, j: int| 0 <= i < j < later.len() implies precedes(
            #[trigger] later[i],
            #[trigger] later[j],
        ) by {
            assert(precedes(b[i + 1], b[j + 1]));
        }
        lemma_one_order(after, later);
        assert(a =~= seq![a[0]] + after);
        assert(b =~= seq![b[0]] + later);
    }
}

proof fn lemma_skipped(keys: Seq<Seq<char>>, key: Seq<char>)
    requires
        ascending(keys),
        keys.len() > 0,
    ensures
        keys.skip(1).contains(key) <==> keys.contains(key) && key != keys[0],
{
    let rest = keys.skip(1);
    if rest.contains(key) {
        let i = choose|i: int| 0 <= i < rest.len() && rest[i] == key;
        assert(keys[i + 1] == key);
        assert(precedes(keys[0], keys[i + 1]));
        lemma_precedes_is_strict(keys[0], key);
    }
    if keys.contains(key) && key != keys[0] {
        let i = choose|i: int| 0 <= i < keys.len() && keys[i] == key;
        assert(rest[i - 1] == key);
    }
}

/// What a list of pairs maps.
pub open spec fn map_of<V>(entries: Seq<(String, V)>) -> Map<Seq<char>, V>
    decreases entries.len(),
{
    if entries.len() == 0 {
        Map::empty()
    } else {
        map_of(entries.drop_last()).insert(entries.last().0@, entries.last().1)
    }
}

proof fn lemma_map_of<V>(entries: Seq<(String, V)>)
    requires
        ascending(keys_in(entries)),
    ensures
        forall|i: int|
            0 <= i < entries.len() ==> map_of(entries).contains_key((#[trigger] entries[i]).0@)
                && map_of(entries)[entries[i].0@] == entries[i].1,
        forall|key: Seq<char>| #[trigger]
            map_of(entries).contains_key(key) ==> exists|i: int|
                0 <= i < entries.len() && (#[trigger] entries[i]).0@ == key,
        map_of(entries).dom().finite(),
        map_of(entries).dom().len() == entries.len(),
    decreases entries.len(),
{
    if entries.len() > 0 {
        let rest = entries.drop_last();
        assert(keys_in(rest) == keys_in(entries).drop_last());
        assert(ascending(keys_in(rest)));
        lemma_map_of(rest);
        let last = entries.last();
        assert forall|i: int| 0 <= i < rest.len() implies (#[trigger] entries[i]).0@ != last.0@ by {
            assert(precedes(keys_in(entries)[i], keys_in(entries)[entries.len() - 1]));
            lemma_precedes_is_strict(entries[i].0@, last.0@);
        }
        assert(!map_of(rest).contains_key(last.0@)) by {
            if map_of(rest).contains_key(last.0@) {
                let i = choose|i: int| 0 <= i < rest.len() && (#[trigger] rest[i]).0@ == last.0@;
                assert(entries[i].0@ == last.0@);
            }
        }
        assert forall|i: int| 0 <= i < entries.len() implies map_of(entries).contains_key(
            (#[trigger] entries[i]).0@,
        ) && map_of(entries)[entries[i].0@] == entries[i].1 by {
            if i < rest.len() {
                assert(rest[i] == entries[i]);
            }
        }
        assert forall|key: Seq<char>| #[trigger] map_of(entries).contains_key(key) implies exists|
            i: int,
        | 0 <= i < entries.len() && (#[trigger] entries[i]).0@ == key by {
            if key == last.0@ {
                assert(entries[entries.len() - 1].0@ == key);
            } else {
                let i = choose|i: int| 0 <= i < rest.len() && (#[trigger] rest[i]).0@ == key;
                assert(entries[i].0@ == key);
            }
        }
        assert(map_of(entries).dom() == map_of(rest).dom().insert(last.0@));
    }
}

proof fn lemma_keys_are_sorted<V>(entries: Seq<(String, V)>)
    requires
        ascending(keys_in(entries)),
    ensures
        sorted(map_of(entries).dom()) == keys_in(entries),
        lists(keys_in(entries), map_of(entries).dom()),
{
    let keys = keys_in(entries);
    let map = map_of(entries);
    lemma_map_of(entries);
    assert forall|key: Seq<char>| #[trigger] keys.contains(key) <==> map.dom().contains(key) by {
        if map.contains_key(key) {
            let i = choose|i: int| 0 <= i < entries.len() && (#[trigger] entries[i]).0@ == key;
            assert(keys[i] == key);
        }
        if keys.contains(key) {
            let i = choose|i: int| 0 <= i < keys.len() && keys[i] == key;
            assert(entries[i].0@ == key);
        }
    }
    lemma_sorted(keys, map.dom());
}

/// Two lists that are in order and map the same keys alike are mapped alike.
proof fn lemma_map_is<V>(entries: Seq<(String, V)>, map: Map<Seq<char>, V>)
    requires
        ascending(keys_in(entries)),
        forall|i: int|
            0 <= i < entries.len() ==> map.contains_key((#[trigger] entries[i]).0@)
                && map[entries[i].0@] == entries[i].1,
        forall|key: Seq<char>| #[trigger]
            map.contains_key(key) ==> exists|i: int|
                0 <= i < entries.len() && (#[trigger] entries[i]).0@ == key,
    ensures
        map_of(entries) == map,
{
    lemma_map_of(entries);
    assert forall|key: Seq<char>| map_of(entries).contains_key(key) == map.contains_key(key) && (
    map.contains_key(key) ==> map_of(entries)[key] == map[key]) by {
        if map.contains_key(key) {
            let i = choose|i: int| 0 <= i < entries.len() && (#[trigger] entries[i]).0@ == key;
            assert(map_of(entries).contains_key(entries[i].0@));
        }
        if map_of(entries).contains_key(key) {
            let i = choose|i: int| 0 <= i < entries.len() && (#[trigger] entries[i]).0@ == key;
            assert(map.contains_key(entries[i].0@));
        }
    }
    assert(map_of(entries) =~= map);
}

/// A map keyed by texts. Its keys stand in order, none of them twice.
#[derive(Debug)]
pub struct TextMap<V> {
    entries: Vec<(String, V)>,
}

impl<V> View for TextMap<V> {
    type V = Map<Seq<char>, V>;

    closed spec fn view(&self) -> Map<Seq<char>, V> {
        map_of(self.entries@)
    }
}

impl<V> TextMap<V> {
    #[verifier::type_invariant]
    spec fn in_order(self) -> bool {
        ascending(keys_in(self.entries@))
    }

    pub fn new() -> (map: Self)
        ensures
            map@ == Map::<Seq<char>, V>::empty(),
    {
        TextMap { entries: Vec::new() }
    }

    /// How many keys there are.
    pub fn len(&self) -> (count: usize)
        ensures
            count == self@.dom().len(),
            self@.dom().finite(),
            lists(sorted(self@.dom()), self@.dom()),
            count == sorted(self@.dom()).len(),
    {
        proof {
            use_type_invariant(self);
            lemma_map_of(self.entries@);
            lemma_keys_are_sorted(self.entries@);
        }
        self.entries.len()
    }

    /// The key number `i`, in order, and what it maps to.
    pub fn at(&self, i: usize) -> (entry: (&str, &V))
        requires
            i < self@.dom().len(),
        ensures
            entry.0@ == sorted(self@.dom())[i as int],
            self@.contains_key(entry.0@),
            *entry.1 == self@[entry.0@],
    {
        proof {
            use_type_invariant(self);
            lemma_map_of(self.entries@);
            lemma_keys_are_sorted(self.entries@);
        }
        let entry = &self.entries[i];
        (entry.0.as_str(), &entry.1)
    }

    pub fn get(&self, key: &str) -> (value: Option<&V>)
        ensures
            match value {
                Some(value) => self@.contains_key(key@) && *value == self@[key@],
                None => !self@.contains_key(key@),
            },
    {
        proof {
            use_type_invariant(self);
            lemma_map_of(self.entries@);
        }
        let mut i: usize = 0;
        while i < self.entries.len()
            invariant
                i <= self.entries@.len(),
                ascending(keys_in(self.entries@)),
                forall|j: int| 0 <= j < i ==> (#[trigger] self.entries@[j]).0@ != key@,
            decreases self.entries@.len() - i,
        {
            if text::same(self.entries[i].0.as_str(), key) {
                proof {
                    lemma_map_of(self.entries@);
                }
                return Some(&self.entries[i].1);
            }
            i += 1;
        }
        None
    }

    /// Take out what `key` maps to.
    pub fn remove(&mut self, key: &str) -> (removed: Option<V>)
        ensures
            final(self)@ == old(self)@.remove(key@),
            match removed {
                Some(value) => old(self)@.contains_key(key@) && value == old(self)@[key@],
                None => !old(self)@.contains_key(key@),
            },
    {
        proof {
            use_type_invariant(&*self);
        }
        let mut entries: Vec<(String, V)> = Vec::new();
        std::mem::swap(&mut entries, &mut self.entries);
        let removed = remove_key(&mut entries, key);
        self.entries = entries;
        removed
    }

    /// Map `key` to `value`, in place of what it mapped to.
    pub fn insert(&mut self, key: String, value: V)
        ensures
            final(self)@ == old(self)@.insert(key@, value),
    {
        proof {
            use_type_invariant(&*self);
        }
        let mut entries: Vec<(String, V)> = Vec::new();
        std::mem::swap(&mut entries, &mut self.entries);
        insert_in_order(&mut entries, key, value);
        self.entries = entries;
    }
}

fn remove_key<V>(entries: &mut Vec<(String, V)>, key: &str) -> (removed: Option<V>)
    requires
        ascending(keys_in(old(entries)@)),
    ensures
        match removed {
            Some(value) => map_of(old(entries)@).contains_key(key@) && value == map_of(
                old(entries)@,
            )[key@],
            None => !map_of(old(entries)@).contains_key(key@),
        },
        ascending(keys_in(final(entries)@)),
        map_of(final(entries)@) == map_of(old(entries)@).remove(key@),
{
    let ghost before = entries@;
    proof {
        lemma_map_of(before);
    }
    let mut i: usize = 0;
    while i < entries.len() && !text::same(entries[i].0.as_str(), key)
        invariant
            entries@ == before,
            i <= entries@.len(),
            forall|j: int| 0 <= j < i ==> (#[trigger] before[j]).0@ != key@,
        decreases entries@.len() - i,
    {
        i += 1;
    }
    if i < entries.len() {
        let (_, value) = entries.remove(i);
        proof {
            let after = entries@;
            let map = map_of(before).remove(key@);
            assert(after == before.remove(i as int));
            assert forall|j: int, k: int| 0 <= j < k < after.len() implies precedes(
                #[trigger] keys_in(after)[j],
                #[trigger] keys_in(after)[k],
            ) by {
                let a = if j < i {
                    j
                } else {
                    j + 1
                };
                let b = if k < i {
                    k
                } else {
                    k + 1
                };
                assert(keys_in(after)[j] == keys_in(before)[a]);
                assert(keys_in(after)[k] == keys_in(before)[b]);
            }
            assert forall|j: int| 0 <= j < after.len() implies map.contains_key(
                (#[trigger] after[j]).0@,
            ) && map[after[j].0@] == after[j].1 by {
                if j < i {
                    assert(after[j] == before[j]);
                } else {
                    assert(after[j] == before[j + 1]);
                    assert(precedes(keys_in(before)[i as int], keys_in(before)[j + 1]));
                    lemma_precedes_is_strict(before[i as int].0@, before[j + 1].0@);
                }
            }
            assert forall|k: Seq<char>| #[trigger] map.contains_key(k) implies exists|j: int|
                0 <= j < after.len() && (#[trigger] after[j]).0@ == k by {
                let j = choose|j: int| 0 <= j < before.len() && (#[trigger] before[j]).0@ == k;
                if j < i {
                    assert(after[j].0@ == k);
                } else {
                    assert(after[j - 1].0@ == k);
                }
            }
            lemma_map_is(after, map);
        }
        Some(value)
    } else {
        assert(!map_of(before).contains_key(key@));
        assert(map_of(before).remove(key@) =~= map_of(before));
        None
    }
}

fn insert_in_order<V>(entries: &mut Vec<(String, V)>, key: String, value: V)
    requires
        ascending(keys_in(old(entries)@)),
    ensures
        ascending(keys_in(final(entries)@)),
        map_of(final(entries)@) == map_of(old(entries)@).insert(key@, value),
{
    let ghost before = entries@;
    let mut i: usize = 0;
    while i < entries.len() && is_before(entries[i].0.as_str(), key.as_str())
        invariant
            entries@ == before,
            i <= entries@.len(),
            forall|j: int| 0 <= j < i ==> precedes((#[trigger] before[j]).0@, key@),
        decreases entries@.len() - i,
    {
        i += 1;
    }
    proof {
        lemma_map_of(before);
        assert forall|j: int, k: int| 0 <= j < k < before.len() implies precedes(
            (#[trigger] before[j]).0@,
            (#[trigger] before[k]).0@,
        ) by {
            assert(keys_in(before)[j] == before[j].0@);
            assert(keys_in(before)[k] == before[k].0@);
        }
    }
    if i < entries.len() && text::same(entries[i].0.as_str(), key.as_str()) {
        entries.set(i, (key, value));
        proof {
            let after = entries@;
            assert(keys_in(after) =~= keys_in(before));
            let map = map_of(before).insert(key@, value);
            assert forall|j: int| 0 <= j < after.len() implies map.contains_key(
                (#[trigger] after[j]).0@,
            ) && map[after[j].0@] == after[j].1 by {
                assert(map_of(before).contains_key(before[j].0@));
                if j < i {
                    lemma_precedes_is_strict(before[j].0@, key@);
                } else if j > i {
                    assert(precedes(before[i as int].0@, before[j].0@));
                    lemma_precedes_is_strict(before[i as int].0@, before[j].0@);
                }
            }
            assert forall|k: Seq<char>| #[trigger] map.contains_key(k) implies exists|j: int|
                0 <= j < after.len() && (#[trigger] after[j]).0@ == k by {
                if k == key@ {
                    assert(after[i as int].0@ == k);
                } else {
                    let j = choose|j: int| 0 <= j < before.len() && (#[trigger] before[j]).0@ == k;
                    assert(after[j].0@ == k);
                }
            }
            lemma_map_is(after, map);
        }
    } else {
        entries.insert(i, (key, value));
        proof {
            let after = entries@;
            assert(after == before.insert(i as int, (key, value)));
            if i < before.len() {
                lemma_precedes_is_strict(before[i as int].0@, key@);
            }
            assert forall|j: int| i <= j < before.len() implies precedes(
                key@,
                (#[trigger] before[j]).0@,
            ) by {
                if j > i {
                    assert(precedes(before[i as int].0@, before[j].0@));
                    lemma_precedes_is_transitive(key@, before[i as int].0@, before[j].0@);
                }
            }
            assert forall|j: int, k: int| 0 <= j < k < after.len() implies precedes(
                #[trigger] keys_in(after)[j],
                #[trigger] keys_in(after)[k],
            ) by {
                if k < i {
                    assert(precedes(before[j].0@, before[k].0@));
                } else if k == i {
                    assert(precedes(before[j].0@, key@));
                } else if j < i {
                    assert(after[k] == before[k - 1]);
                    assert(precedes(before[j].0@, before[k - 1].0@));
                } else if j == i {
                    assert(after[k] == before[k - 1]);
                    assert(precedes(key@, before[k - 1].0@));
                } else {
                    assert(after[k] == before[k - 1]);
                    assert(after[j] == before[j - 1]);
                    assert(precedes(before[j - 1].0@, before[k - 1].0@));
                }
            }
            let map = map_of(before).insert(key@, value);
            assert forall|j: int| 0 <= j < after.len() implies map.contains_key(
                (#[trigger] after[j]).0@,
            ) && map[after[j].0@] == after[j].1 by {
                if j < i {
                    assert(after[j] == before[j]);
                    lemma_precedes_is_strict(before[j].0@, key@);
                } else if j > i {
                    assert(after[j] == before[j - 1]);
                    lemma_precedes_is_strict(key@, before[j - 1].0@);
                }
            }
            assert forall|k: Seq<char>| #[trigger] map.contains_key(k) implies exists|j: int|
                0 <= j < after.len() && (#[trigger] after[j]).0@ == k by {
                if k == key@ {
                    assert(after[i as int].0@ == k);
                } else {
                    let j = choose|j: int| 0 <= j < before.len() && (#[trigger] before[j]).0@ == k;
                    if j < i {
                        assert(after[j].0@ == k);
                    } else {
                        assert(after[j + 1].0@ == k);
                    }
                }
            }
            lemma_map_is(after, map);
        }
    }
}

} // verus!
