//! Lists of values under distinct keys, in the order in which the keys came.
use vstd::prelude::*;

verus! {

/// A key that can be compared with others of its kind.
pub trait SameKey: View + Sized {
    fn same_key(&self, other: &Self) -> (same: bool)
        ensures
            same == (self@ == other@),
    ;
}

/// The index of the first entry under `key`; the length where there is none.
pub open spec fn index_of<A, B>(entries: Seq<(A, B)>, key: A) -> nat
    decreases entries.len(),
{
    if entries.len() == 0 || entries[0].0 == key {
        0
    } else {
        1 + index_of(entries.drop_first(), key)
    }
}

/// Whether there is an entry under `key`.
pub open spec fn holds<A, B>(entries: Seq<(A, B)>, key: A) -> bool {
    index_of(entries, key) < entries.len()
}

/// The value under `key`.
pub open spec fn value_of<A, B>(entries: Seq<(A, B)>, key: A) -> B {
    entries[index_of(entries, key) as int].1
}

/// The entries without the one under `key`.
pub open spec fn without_key<A, B>(entries: Seq<(A, B)>, key: A) -> Seq<(A, B)> {
    if holds(entries, key) {
        entries.remove(index_of(entries, key) as int)
    } else {
        entries
    }
}

/// The entries with `value` under `key`: in the place of an earlier value, or at the end.
pub open spec fn with_value<A, B>(entries: Seq<(A, B)>, key: A, value: B) -> Seq<(A, B)> {
    if holds(entries, key) {
        entries.update(index_of(entries, key) as int, (key, value))
    } else {
        entries.push((key, value))
    }
}

/// Whether no key occurs twice.
pub open spec fn distinct_keys<A, B>(entries: Seq<(A, B)>) -> bool {
    forall|first: int, second: int|
        #![trigger entries[first], entries[second]]
        0 <= first < second < entries.len() ==> entries[first].0 != entries[second].0
}

/// The search for a key ends at the first entry under it.
pub proof fn lemma_index_found<A, B>(entries: Seq<(A, B)>, key: A, index: int)
    requires
        0 <= index <= entries.len(),
        forall|earlier: int| 0 <= earlier < index ==> (#[trigger] entries[earlier]).0 != key,
        index < entries.len() ==> entries[index].0 == key,
    ensures
        index_of(entries, key) == index,
    decreases index,
{
    if index > 0 {
        assert(entries[0].0 != key);
        let rest = entries.drop_first();
        assert forall|earlier: int| 0 <= earlier < index - 1 implies (#[trigger] rest[earlier]).0
            != key by {
            assert(rest[earlier] == entries[earlier + 1]);
        }
        lemma_index_found(rest, key, index - 1);
    }
}

/// Where the search for a key ends, that key stands, and nowhere before.
pub proof fn lemma_index_of<A, B>(entries: Seq<(A, B)>, key: A)
    ensures
        index_of(entries, key) <= entries.len(),
        holds(entries, key) ==> entries[index_of(entries, key) as int].0 == key,
        forall|earlier: int|
            0 <= earlier < index_of(entries, key) ==> (#[trigger] entries[earlier]).0 != key,
    decreases entries.len(),
{
    if entries.len() > 0 && entries[0].0 != key {
        let rest = entries.drop_first();
        lemma_index_of(rest, key);
        assert forall|earlier: int| 0 <= earlier < index_of(entries, key) implies (
        #[trigger] entries[earlier]).0 != key by {
            if earlier > 0 {
                assert(entries[earlier] == rest[earlier - 1]);
            }
        }
    }
}

/// A key that stands at some index is held, and under distinct keys it is found there.
pub proof fn lemma_held_at<A, B>(entries: Seq<(A, B)>, index: int)
    requires
        0 <= index < entries.len(),
    ensures
        holds(entries, entries[index].0),
        distinct_keys(entries) ==> index_of(entries, entries[index].0) == index,
{
    lemma_index_of(entries, entries[index].0);
}

/// Removing a key keeps the other keys distinct and in place.
pub proof fn lemma_without_key<A, B>(entries: Seq<(A, B)>, key: A)
    requires
        distinct_keys(entries),
    ensures
        distinct_keys(without_key(entries, key)),
        !holds(without_key(entries, key), key),
        without_key(entries, key).len() <= entries.len(),
        forall|other: A|
            other != key ==> #[trigger] holds(without_key(entries, key), other) == holds(
                entries,
                other,
            ),
        forall|other: A|
            #![trigger value_of(without_key(entries, key), other)]
            other != key && holds(entries, other) ==> value_of(without_key(entries, key), other)
                == value_of(entries, other),
{
    lemma_index_of(entries, key);
    let rest = without_key(entries, key);
    lemma_index_of(rest, key);
    let gone = index_of(entries, key) as int;
    assert forall|other: A|
        #![trigger holds(rest, other)]
        #![trigger value_of(rest, other)]
        other != key implies holds(rest, other) == holds(
        entries,
        other,
    ) && (holds(entries, other) ==> value_of(rest, other) == value_of(entries, other)) by {
        lemma_index_of(entries, other);
        lemma_index_of(rest, other);
        if holds(entries, other) {
            let place = index_of(entries, other) as int;
            if holds(entries, key) {
                let moved = if place < gone {
                    place
                } else {
                    place - 1
                };
                assert(rest[moved] == entries[place]);
                lemma_held_at(rest, moved);
            }
        } else if holds(rest, other) {
            let place = index_of(rest, other) as int;
            if holds(entries, key) {
                let origin = if place < gone {
                    place
                } else {
                    place + 1
                };
                assert(rest[place] == entries[origin]);
                lemma_held_at(entries, origin);
            }
        }
    }
}

/// Setting a value keeps the keys distinct and the other values in place.
pub proof fn lemma_with_value<A, B>(entries: Seq<(A, B)>, key: A, value: B)
    requires
        distinct_keys(entries),
    ensures
        distinct_keys(with_value(entries, key, value)),
        holds(with_value(entries, key, value), key),
        value_of(with_value(entries, key, value), key) == value,
        forall|other: A|
            other != key ==> #[trigger] holds(with_value(entries, key, value), other) == holds(
                entries,
                other,
            ),
        forall|other: A|
            #![trigger value_of(with_value(entries, key, value), other)]
            other != key && holds(entries, other) ==> value_of(
                with_value(entries, key, value),
                other,
            ) == value_of(entries, other),
{
    lemma_index_of(entries, key);
    let longer = with_value(entries, key, value);
    let place = index_of(entries, key) as int;
    assert(longer[place] == (key, value));
    assert forall|first: int, second: int|
        #![trigger longer[first], longer[second]]
        0 <= first < second < longer.len() implies longer[first].0 != longer[second].0 by {
        if first != place {
            assert(longer[first] == entries[first]);
        }
        if second != place {
            assert(longer[second] == entries[second]);
        }
    }
    lemma_held_at(longer, place);
    assert forall|other: A|
        #![trigger holds(longer, other)]
        #![trigger value_of(longer, other)]
        other != key implies holds(longer, other) == holds(
        entries,
        other,
    ) && (holds(entries, other) ==> value_of(longer, other) == value_of(entries, other)) by {
        lemma_index_of(entries, other);
        lemma_index_of(longer, other);
        if holds(entries, other) {
            let origin = index_of(entries, other) as int;
            assert(longer[origin] == entries[origin]);
            lemma_held_at(longer, origin);
        } else if holds(longer, other) {
            let found = index_of(longer, other) as int;
            assert(longer[found] == entries[found]);
            lemma_held_at(entries, found);
        }
    }
}

/// Looking a key up does not depend on what the values are mapped to.
pub proof fn lemma_index_of_mapped<A, B, C>(
    entries: Seq<(A, B)>,
    mapped: Seq<(A, C)>,
    key: A,
)
    requires
        entries.len() == mapped.len(),
        forall|index: int|
            0 <= index < entries.len() ==> (#[trigger] entries[index]).0 == mapped[index].0,
    ensures
        index_of(entries, key) == index_of(mapped, key),
{
    lemma_index_of(entries, key);
    let place = index_of(entries, key) as int;
    assert forall|earlier: int| 0 <= earlier < place implies (#[trigger] mapped[earlier]).0
        != key by {
        assert(entries[earlier].0 == mapped[earlier].0);
    }
    if place < entries.len() {
        assert(entries[place].0 == mapped[place].0);
    }
    lemma_index_found(mapped, key, place);
}

/// A key that no entry has is not held, whatever entries are left out.
pub proof fn lemma_absent_after_filter<A, B>(
    entries: Seq<(A, B)>,
    kept: spec_fn((A, B)) -> bool,
    key: A,
)
    requires
        !holds(entries, key),
    ensures
        !holds(entries.filter(kept), key),
{
    let rest = entries.filter(kept);
    lemma_index_of(entries, key);
    lemma_index_of(rest, key);
    if holds(rest, key) {
        let place = index_of(rest, key) as int;
        assert(rest.contains(rest[place]));
        entries.lemma_filter_contains_rev(kept, rest[place]);
        let origin = choose|origin: int|
            0 <= origin < entries.len() && entries[origin] == rest[place];
        lemma_held_at(entries, origin);
    }
}

/// Removing a key from the front part of a list leaves the last entry, if that is another's.
proof fn lemma_without_key_of_longer<A, B>(entries: Seq<(A, B)>, last: (A, B), key: A)
    requires
        holds(entries, key) || last.0 != key,
    ensures
        without_key(entries.push(last), key) == without_key(entries, key).push(last),
{
    let longer = entries.push(last);
    lemma_index_of(entries, key);
    if holds(entries, key) {
        let place = index_of(entries, key) as int;
        lemma_index_found(longer, key, place);
        assert(longer.remove(place) =~= entries.remove(place).push(last));
    } else {
        lemma_index_found(longer, key, longer.len() as int);
    }
}

/// Which entries are kept and are not under `key`.
pub open spec fn kept_but<A, B>(kept: spec_fn((A, B)) -> bool, key: A) -> spec_fn((A, B)) -> bool {
    |entry: (A, B)| kept(entry) && entry.0 != key
}

/// Under distinct keys, removing a key is leaving out every entry under it.
pub proof fn lemma_without_key_is_filter<A, B>(
    entries: Seq<(A, B)>,
    kept: spec_fn((A, B)) -> bool,
    key: A,
)
    requires
        distinct_keys(entries),
    ensures
        without_key(entries.filter(kept), key) == entries.filter(kept_but(kept, key)),
    decreases entries.len(),
{
    reveal(Seq::filter);
    if entries.len() > 0 {
        let shorter = entries.drop_last();
        let last = entries.last();
        lemma_without_key_is_filter(shorter, kept, key);
        let part = shorter.filter(kept);
        lemma_index_of(part, key);
        if kept(last) {
            assert(entries.filter(kept) =~= part.push(last));
            if last.0 == key {
                lemma_index_of(shorter, key);
                if holds(shorter, key) {
                    assert(entries[index_of(shorter, key) as int].0 == key);
                }
                lemma_absent_after_filter(shorter, kept, key);
                lemma_index_found(part.push(last), key, part.len() as int);
                assert(part.push(last).remove(part.len() as int) =~= part);
            } else {
                lemma_without_key_of_longer(part, last, key);
            }
        }
    }
}

/// Leaving entries out goes by what holds of the entries alone.
pub proof fn lemma_same_filter<A, B>(
    entries: Seq<(A, B)>,
    first: spec_fn((A, B)) -> bool,
    second: spec_fn((A, B)) -> bool,
)
    requires
        forall|index: int|
            0 <= index < entries.len() ==> first(#[trigger] entries[index]) == second(
                entries[index],
            ),
    ensures
        entries.filter(first) == entries.filter(second),
    decreases entries.len(),
{
    reveal(Seq::filter);
    if entries.len() > 0 {
        let shorter = entries.drop_last();
        assert forall|index: int| 0 <= index < shorter.len() implies first(
            #[trigger] shorter[index],
        ) == second(shorter[index]) by {
            assert(shorter[index] == entries[index]);
        }
        lemma_same_filter(shorter, first, second);
        assert(first(entries[entries.len() - 1]) == second(entries[entries.len() - 1]));
    }
}

/// Leaving nothing out.
pub proof fn lemma_filter_all<A, B>(entries: Seq<(A, B)>, kept: spec_fn((A, B)) -> bool)
    requires
        forall|index: int| 0 <= index < entries.len() ==> kept(#[trigger] entries[index]),
    ensures
        entries.filter(kept) == entries,
    decreases entries.len(),
{
    reveal(Seq::filter);
    if entries.len() > 0 {
        let shorter = entries.drop_last();
        assert forall|index: int| 0 <= index < shorter.len() implies kept(
            #[trigger] shorter[index],
        ) by {
            assert(shorter[index] == entries[index]);
        }
        lemma_filter_all(shorter, kept);
        assert(kept(entries[entries.len() - 1]));
        assert(shorter.push(entries.last()) =~= entries);
    }
}

/// Under distinct keys, what is left of a list has distinct keys with the same values.
pub proof fn lemma_filter_keeps_values<A, B>(entries: Seq<(A, B)>, kept: spec_fn((A, B)) -> bool)
    requires
        distinct_keys(entries),
    ensures
        distinct_keys(entries.filter(kept)),
        forall|index: int|
            0 <= index < entries.filter(kept).len() ==> {
                let entry = #[trigger] entries.filter(kept)[index];
                kept(entry) && holds(entries, entry.0) && value_of(entries, entry.0) == entry.1
            },
    decreases entries.len(),
{
    reveal(Seq::filter);
    if entries.len() > 0 {
        let shorter = entries.drop_last();
        let last = entries.last();
        assert forall|first: int, second: int|
            #![trigger shorter[first], shorter[second]]
            0 <= first < second < shorter.len() implies shorter[first].0 != shorter[second].0 by {
            assert(shorter[first] == entries[first] && shorter[second] == entries[second]);
        }
        lemma_filter_keeps_values(shorter, kept);
        let part = shorter.filter(kept);
        let whole = entries.filter(kept);
        lemma_held_at(entries, entries.len() - 1);
        assert forall|index: int| 0 <= index < whole.len() implies {
            let entry = #[trigger] whole[index];
            kept(entry) && holds(entries, entry.0) && value_of(entries, entry.0) == entry.1
        } by {
            if index < part.len() {
                let entry = part[index];
                assert(whole[index] == entry);
                lemma_index_of(shorter, entry.0);
                let place = index_of(shorter, entry.0) as int;
                assert(entries[place] == shorter[place]);
                lemma_held_at(entries, place);
            }
        }
        assert forall|first: int, second: int|
            #![trigger whole[first], whole[second]]
            0 <= first < second < whole.len() implies whole[first].0 != whole[second].0 by {
            assert(whole[first] == part[first]);
            if second < part.len() {
                assert(whole[second] == part[second]);
            } else {
                lemma_index_of(shorter, part[first].0);
                let place = index_of(shorter, part[first].0) as int;
                assert(entries[place] == shorter[place]);
            }
        }
    }
}

/// Values under distinct keys.
pub struct KeyedList<K, V> {
    pub entries: Vec<(K, V)>,
}

impl<K: SameKey, V> View for KeyedList<K, V> {
    type V = Seq<(K::V, V)>;

    open spec fn view(&self) -> Seq<(K::V, V)> {
        self.entries@.map_values(|entry: (K, V)| (entry.0@, entry.1))
    }
}

impl<K: SameKey, V> KeyedList<K, V> {
    pub fn new() -> (list: KeyedList<K, V>)
        ensures
            list@ == Seq::<(K::V, V)>::empty(),
    {
        let list = KeyedList { entries: Vec::new() };
        assert(list@ =~= Seq::<(K::V, V)>::empty());
        list
    }

    pub fn len(&self) -> (length: usize)
        ensures
            length == self@.len(),
    {
        self.entries.len()
    }

    /// The index of the entry under `key`.
    pub fn find(&self, key: &K) -> (place: Option<usize>)
        ensures
            match place {
                Some(index) => holds(self@, key@) && index == index_of(self@, key@) && index
                    < self@.len(),
                None => !holds(self@, key@),
            },
    {
        let mut index: usize = 0;
        while index < self.entries.len()
            invariant
                index <= self.entries.len(),
                forall|earlier: int|
                    0 <= earlier < index ==> (#[trigger] self@[earlier]).0 != key@,
            decreases self.entries.len() - index,
        {
            assert(self@[index as int].0 == self.entries@[index as int].0@);
            if self.entries[index].0.same_key(key) {
                proof {
                    lemma_index_found(self@, key@, index as int);
                }
                return Some(index);
            }
            index = index + 1;
        }
        proof {
            lemma_index_found(self@, key@, index as int);
        }
        None
    }

    /// The value under `key`.
    pub fn get(&self, key: &K) -> (value: Option<&V>)
        ensures
            match value {
                Some(found) => holds(self@, key@) && *found == value_of(self@, key@),
                None => !holds(self@, key@),
            },
    {
        match self.find(key) {
            Some(index) => Some(&self.entries[index].1),
            None => None,
        }
    }

    /// Takes the entry under `key` out.
    pub fn remove(&mut self, key: &K) -> (value: Option<V>)
        ensures
            final(self)@ == without_key(old(self)@, key@),
            match value {
                Some(found) => holds(old(self)@, key@) && found == value_of(old(self)@, key@),
                None => !holds(old(self)@, key@),
            },
    {
        match self.find(key) {
            Some(index) => {
                let entry = self.entries.remove(index);
                assert(self@ =~= old(self)@.remove(index as int));
                Some(entry.1)
            },
            None => None,
        }
    }

    /// Takes the entry at `index` out.
    pub fn remove_at(&mut self, index: usize) -> (entry: (K, V))
        requires
            index < old(self)@.len(),
        ensures
            final(self)@ == old(self)@.remove(index as int),
            (entry.0@, entry.1) == old(self)@[index as int],
    {
        let entry = self.entries.remove(index);
        assert(self@ =~= old(self)@.remove(index as int));
        entry
    }

    /// Adds an entry at the end.
    pub fn push(&mut self, key: K, value: V)
        ensures
            final(self)@ == old(self)@.push((key@, value)),
    {
        self.entries.push((key, value));
        assert(self@ =~= old(self)@.push((key@, value)));
    }

    /// The value at `index`, to be changed in place.
    pub fn value_mut(&mut self, index: usize) -> (value: &mut V)
        requires
            index < old(self)@.len(),
        ensures
            *value == old(self)@[index as int].1,
            final(self)@ == old(self)@.update(
                index as int,
                (old(self)@[index as int].0, *final(value)),
            ),
    {
        &mut self.entries[index].1
    }
}

} // verus!
