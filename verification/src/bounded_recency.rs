//! A map of bounded size that forgets the entry that was used longest ago.
use vstd::prelude::*;

use crate::keyed::{
    distinct_keys, holds, index_of, lemma_held_at, lemma_index_found, lemma_index_of,
    lemma_with_value, lemma_without_key, value_of, with_value, without_key, SameKey,
};

verus! {

/// What an insertion pushed out of the map, or kept out of it.
#[derive(Debug, PartialEq, Eq)]
pub enum BoundedInsertDisplacement<K, V> {
    Replaced { key: K, value: V },
    Evicted { key: K, value: V },
    Dropped { key: K, value: V },
}

/// The view of a displacement, over the views of its key and its value.
#[verifier::ext_equal]
pub enum DisplacementView<A, B> {
    Replaced { key: A, value: B },
    Evicted { key: A, value: B },
    Dropped { key: A, value: B },
}

impl<K: View, V: View> View for BoundedInsertDisplacement<K, V> {
    type V = DisplacementView<K::V, V::V>;

    open spec fn view(&self) -> DisplacementView<K::V, V::V> {
        match *self {
            BoundedInsertDisplacement::Replaced { key, value } => DisplacementView::Replaced {
                key: key@,
                value: value@,
            },
            BoundedInsertDisplacement::Evicted { key, value } => DisplacementView::Evicted {
                key: key@,
                value: value@,
            },
            BoundedInsertDisplacement::Dropped { key, value } => DisplacementView::Dropped {
                key: key@,
                value: value@,
            },
        }
    }
}

/// The view of an optional displacement.
pub open spec fn displacement_view<K: View, V: View>(
    displacement: Option<BoundedInsertDisplacement<K, V>>,
) -> Option<DisplacementView<K::V, V::V>> {
    match displacement {
        Some(inner) => Some(inner@),
        None => None,
    }
}

/// The entries after an insertion, oldest use first.
pub open spec fn with_newest<A, B>(
    entries: Seq<(A, B)>,
    max_entries: usize,
    key: A,
    value: B,
) -> Seq<(A, B)> {
    if max_entries == 0 {
        entries
    } else if holds(entries, key) || entries.len() < max_entries {
        without_key(entries, key).push((key, value))
    } else {
        entries.drop_first().push((key, value))
    }
}

/// What an insertion displaces.
pub open spec fn displaced_by<A, B>(
    entries: Seq<(A, B)>,
    max_entries: usize,
    key: A,
    value: B,
) -> Option<DisplacementView<A, B>> {
    if max_entries == 0 {
        Some(DisplacementView::Dropped { key, value })
    } else if holds(entries, key) {
        Some(DisplacementView::Replaced { key, value: value_of(entries, key) })
    } else if entries.len() >= max_entries {
        Some(DisplacementView::Evicted { key: entries[0].0, value: entries[0].1 })
    } else {
        None
    }
}

/// The entries after a use of `key`.
pub open spec fn refreshed<A, B>(entries: Seq<(A, B)>, key: A) -> Seq<(A, B)> {
    if holds(entries, key) {
        without_key(entries, key).push((key, value_of(entries, key)))
    } else {
        entries
    }
}

/// Whether entries are as a map of `max_entries` keeps them.
pub open spec fn well_bounded<A, B>(entries: Seq<(A, B)>, max_entries: usize) -> bool {
    &&& entries.len() <= max_entries
    &&& distinct_keys(entries)
}

/// A map whose entries are kept in order of their last use, oldest first.
#[derive(Debug)]
pub struct BoundedRecencyMap<K, V> {
    pub entries: Vec<(K, V)>,
    pub max_entries: usize,
}

impl<K: SameKey, V: View> View for BoundedRecencyMap<K, V> {
    type V = Seq<(K::V, V::V)>;

    open spec fn view(&self) -> Seq<(K::V, V::V)> {
        self.entries@.map_values(|entry: (K, V)| (entry.0@, entry.1@))
    }
}

impl<K: SameKey, V: View> BoundedRecencyMap<K, V> {
    pub open spec fn well_formed(&self) -> bool {
        well_bounded(self@, self.max_entries)
    }

    pub fn new(max_entries: usize) -> (map: BoundedRecencyMap<K, V>)
        ensures
            map@ == Seq::<(K::V, V::V)>::empty(),
            map.max_entries == max_entries,
            map.well_formed(),
    {
        let map = BoundedRecencyMap { entries: Vec::new(), max_entries };
        assert(map@ =~= Seq::<(K::V, V::V)>::empty());
        map
    }

    pub fn len(&self) -> (length: usize)
        ensures
            length == self@.len(),
    {
        self.entries.len()
    }

    /// The index of the entry under `key`.
    pub fn find(&self, key: &K) -> (place: Option<usize>)
        ensures
            match place {
                Some(index) => holds(self@, key@) && index == index_of(self@, key@) && index
                    < self@.len(),
                None => !holds(self@, key@),
            },
    {
        let mut index: usize = 0;
        while index < self.entries.len()
            invariant
                index <= self.entries.len(),
                forall|earlier: int|
                    0 <= earlier < index ==> (#[trigger] self@[earlier]).0 != key@,
            decreases self.entries.len() - index,
        {
            assert(self@[index as int].0 == self.entries@[index as int].0@);
            if self.entries[index].0.same_key(key) {
                proof {
                    lemma_index_found(self@, key@, index as int);
                }
                return Some(index);
            }
            index = index + 1;
        }
        proof {
            lemma_index_found(self@, key@, index as int);
        }
        None
    }

    pub fn insert(&mut self, key: K, value: V)
        requires
            old(self).well_formed(),
        ensures
            final(self)@ == with_newest(old(self)@, old(self).max_entries, key@, value@),
            final(self).max_entries == old(self).max_entries,
            final(self).well_formed(),
    {
        let _displaced = self.insert_displacing(key, value);
    }

    /// Adds an entry as the newest, and returns what it displaced: the earlier value under its
    /// key, the entry that was used longest ago, or the new entry itself where the map is to
    /// hold none.
    pub fn insert_displacing(&mut self, key: K, value: V) -> (displaced: Option<
        BoundedInsertDisplacement<K, V>,
    >)
        requires
            old(self).well_formed(),
        ensures
            final(self)@ == with_newest(old(self)@, old(self).max_entries, key@, value@),
            final(self).max_entries == old(self).max_entries,
            final(self).well_formed(),
            displacement_view(displaced) == displaced_by(
                old(self)@,
                old(self).max_entries,
                key@,
                value@,
            ),
    {
        proof {
            lemma_newest_is_bounded(self@, self.max_entries, key@, value@);
        }
        if self.max_entries == 0 {
            return Some(BoundedInsertDisplacement::Dropped { key, value });
        }
        let displaced = match self.find(&key) {
            Some(index) => {
                let ghost place = index_of(self@, key@) as int;
                let entry = self.entries.remove(index);
                assert(self@ =~= old(self)@.remove(place));
                assert(old(self)@[place] == (entry.0@, entry.1@));
                proof {
                    lemma_index_of(old(self)@, key@);
                }
                Some(BoundedInsertDisplacement::Replaced { key: entry.0, value: entry.1 })
            },
            None => {
                if self.entries.len() >= self.max_entries {
                    let entry = self.entries.remove(0);
                    assert(self@ =~= old(self)@.drop_first());
                    assert(old(self)@[0] == (entry.0@, entry.1@));
                    Some(BoundedInsertDisplacement::Evicted { key: entry.0, value: entry.1 })
                } else {
                    None
                }
            },
        };
        let ghost before = self@;
        self.entries.push((key, value));
        assert(self@ =~= before.push((key@, value@)));
        displaced
    }

    pub fn remove(&mut self, key: &K) -> (value: Option<V>)
        requires
            old(self).well_formed(),
        ensures
            final(self)@ == without_key(old(self)@, key@),
            final(self).max_entries == old(self).max_entries,
            final(self).well_formed(),
            match value {
                Some(found) => holds(old(self)@, key@) && found@ == value_of(old(self)@, key@),
                None => !holds(old(self)@, key@),
            },
    {
        proof {
            lemma_without_key(self@, key@);
        }
        match self.find(key) {
            Some(index) => {
                let entry = self.entries.remove(index);
                assert(self@ =~= old(self)@.remove(index as int));
                assert(old(self)@[index as int] == (entry.0@, entry.1@));
                Some(entry.1)
            },
            None => None,
        }
    }

    pub fn clear(&mut self)
        ensures
            final(self)@ == Seq::<(K::V, V::V)>::empty(),
            final(self).max_entries == old(self).max_entries,
            final(self).well_formed(),
    {
        self.entries = Vec::new();
        assert(self@ =~= Seq::<(K::V, V::V)>::empty());
    }

    pub fn get(&self, key: &K) -> (value: Option<&V>)
        ensures
            match value {
                Some(found) => holds(self@, key@) && found@ == value_of(self@, key@),
                None => !holds(self@, key@),
            },
    {
        match self.find(key) {
            Some(index) => {
                assert(self@[index as int].1 == self.entries@[index as int].1@);
                Some(&self.entries[index].1)
            },
            None => None,
        }
    }

    /// The keys, oldest use first.
    pub fn keys(&self) -> (keys: Vec<&K>)
        ensures
            keys@.len() == self@.len(),
            forall|index: int|
                0 <= index < keys@.len() ==> (#[trigger] keys@[index])@ == self@[index].0,
    {
        let mut keys: Vec<&K> = Vec::new();
        let mut index: usize = 0;
        while index < self.entries.len()
            invariant
                index <= self.entries.len(),
                keys@.len() == index,
                forall|earlier: int|
                    0 <= earlier < index ==> (#[trigger] keys@[earlier])@ == self@[earlier].0,
            decreases self.entries.len() - index,
        {
            assert(self@[index as int].0 == self.entries@[index as int].0@);
            keys.push(&self.entries[index].0);
            index = index + 1;
        }
        keys
    }

    /// The values, oldest use first.
    pub fn values_by_recency(&self) -> (values: Vec<&V>)
        ensures
            values@.len() == self@.len(),
            forall|index: int|
                0 <= index < values@.len() ==> (#[trigger] values@[index])@ == self@[index].1,
    {
        let mut values: Vec<&V> = Vec::new();
        let mut index: usize = 0;
        while index < self.entries.len()
            invariant
                index <= self.entries.len(),
                values@.len() == index,
                forall|earlier: int|
                    0 <= earlier < index ==> (#[trigger] values@[earlier])@ == self@[earlier].1,
            decreases self.entries.len() - index,
        {
            assert(self@[index as int].1 == self.entries@[index as int].1@);
            values.push(&self.entries[index].1);
            index = index + 1;
        }
        values
    }

    /// The value under `key`, to be changed in place.
    pub fn get_mut(&mut self, key: &K) -> (value: Option<&mut V>)
        requires
            old(self).well_formed(),
        ensures
            final(self).max_entries == old(self).max_entries,
            match value {
                Some(found) => holds(old(self)@, key@) && found@ == value_of(old(self)@, key@)
                    && final(self)@ == with_value(old(self)@, key@, final(found)@),
                None => !holds(old(self)@, key@) && final(self)@ == old(self)@,
            },
            final(self).well_formed(),
    {
        proof {
            lemma_index_of(self@, key@);
            assert forall|value: V::V|
                well_bounded(self@, self.max_entries) && holds(self@, key@) implies well_bounded(
                #[trigger] with_value(self@, key@, value),
                self.max_entries,
            ) by {
                lemma_with_value(self@, key@, value);
            }
        }
        match self.find(key) {
            Some(index) => {
                assert(self@[index as int].1 == self.entries@[index as int].1@);
                Some(&mut self.entries[index].1)
            },
            None => None,
        }
    }

    /// Marks the entry under `key` as the newest. Whether there is one is returned.
    pub fn refresh(&mut self, key: &K) -> (found: bool)
        requires
            old(self).well_formed(),
        ensures
            final(self)@ == refreshed(old(self)@, key@),
            final(self).max_entries == old(self).max_entries,
            final(self).well_formed(),
            found == holds(old(self)@, key@),
    {
        proof {
            lemma_index_of(self@, key@);
            lemma_refreshed_is_bounded(self@, self.max_entries, key@);
        }
        match self.find(key) {
            Some(index) => {
                let entry = self.entries.remove(index);
                assert(old(self)@[index as int] == (entry.0@, entry.1@));
                assert(self@ =~= old(self)@.remove(index as int));
                let ghost before = self@;
                self.entries.push(entry);
                assert(self@ =~= before.push((entry.0@, entry.1@)));
                true
            },
            None => false,
        }
    }
}

/// An insertion keeps the keys distinct and their number within the bound.
pub proof fn lemma_newest_is_bounded<A, B>(
    entries: Seq<(A, B)>,
    max_entries: usize,
    key: A,
    value: B,
)
    requires
        well_bounded(entries, max_entries),
    ensures
        well_bounded(with_newest(entries, max_entries, key, value), max_entries),
{
    lemma_without_key(entries, key);
    lemma_index_of(entries, key);
    if max_entries != 0 {
        let kept = if holds(entries, key) || entries.len() < max_entries {
            without_key(entries, key)
        } else {
            entries.drop_first()
        };
        if !holds(entries, key) && entries.len() >= max_entries {
            assert forall|index: int| 0 <= index < kept.len() implies (#[trigger] kept[index]).0
                != key by {
                assert(kept[index] == entries[index + 1]);
            }
            lemma_index_found(kept, key, kept.len() as int);
            assert(distinct_keys(kept)) by {
                assert forall|first: int, second: int|
                    #![trigger kept[first], kept[second]]
                    0 <= first < second < kept.len() implies kept[first].0 != kept[second].0 by {
                    assert(kept[first] == entries[first + 1]);
                    assert(kept[second] == entries[second + 1]);
                }
            }
        }
        lemma_push_keeps_distinct(kept, key, value);
    }
}

proof fn lemma_push_keeps_distinct<A, B>(entries: Seq<(A, B)>, key: A, value: B)
    requires
        distinct_keys(entries),
        !holds(entries, key),
    ensures
        distinct_keys(entries.push((key, value))),
{
    lemma_index_of(entries, key);
    let longer = entries.push((key, value));
    assert forall|first: int, second: int|
        #![trigger longer[first], longer[second]]
        0 <= first < second < longer.len() implies longer[first].0 != longer[second].0 by {
        assert(longer[first] == entries[first]);
        if second < entries.len() {
            assert(longer[second] == entries[second]);
        }
    }
}

/// A use keeps the keys distinct and their number within the bound.
pub proof fn lemma_refreshed_is_bounded<A, B>(entries: Seq<(A, B)>, max_entries: usize, key: A)
    requires
        well_bounded(entries, max_entries),
    ensures
        well_bounded(refreshed(entries, key), max_entries),
{
    lemma_without_key(entries, key);
    if holds(entries, key) {
        lemma_push_keeps_distinct(without_key(entries, key), key, value_of(entries, key));
    }
}

/// Nothing is lost unseen: an insertion keeps every other entry with its value, save the one
/// that it reports as evicted, and holds the new one unless it reports that as dropped.
pub proof fn law_insertion_accounts_for_every_entry<A, B>(
    entries: Seq<(A, B)>,
    max_entries: usize,
    key: A,
    value: B,
    other: A,
)
    requires
        well_bounded(entries, max_entries),
    ensures
        max_entries > 0 ==> holds(with_newest(entries, max_entries, key, value), key) && value_of(
            with_newest(entries, max_entries, key, value),
            key,
        ) == value,
        other != key && holds(entries, other) ==> (holds(
            with_newest(entries, max_entries, key, value),
            other,
        ) && value_of(with_newest(entries, max_entries, key, value), other) == value_of(
            entries,
            other,
        )) || displaced_by(entries, max_entries, key, value) == Some(
            DisplacementView::Evicted { key: other, value: value_of(entries, other) },
        ),
{
    let result = with_newest(entries, max_entries, key, value);
    lemma_newest_is_bounded(entries, max_entries, key, value);
    lemma_without_key(entries, key);
    lemma_index_of(entries, key);
    lemma_index_of(entries, other);
    if max_entries > 0 {
        lemma_held_at(result, result.len() - 1);
        if other != key && holds(entries, other) {
            let place = index_of(entries, other) as int;
            if holds(entries, key) || entries.len() < max_entries {
                let kept = without_key(entries, key);
                assert(holds(kept, other));
                lemma_index_of(kept, other);
                let moved = index_of(kept, other) as int;
                assert(result[moved] == kept[moved]);
                lemma_held_at(result, moved);
                assert(value_of(kept, other) == value_of(entries, other));
            } else if place > 0 {
                assert(result[place - 1] == entries[place]);
                lemma_held_at(result, place - 1);
            }
        }
    }
}

/// The entry that an insertion evicts is the one that was used longest ago: an entry that was
/// just used outlives every other entry.
pub proof fn law_used_entry_outlives_others<A, B>(
    entries: Seq<(A, B)>,
    max_entries: usize,
    used: A,
    key: A,
    value: B,
)
    requires
        well_bounded(entries, max_entries),
        entries.len() >= 2,
        holds(entries, used),
    ensures
        holds(with_newest(refreshed(entries, used), max_entries, key, value), used),
{
    let renewed = refreshed(entries, used);
    lemma_refreshed_is_bounded(entries, max_entries, used);
    lemma_without_key(entries, used);
    let newest = renewed.len() - 1;
    assert(renewed[newest].0 == used);
    lemma_held_at(renewed, newest);
    if used == key {
        law_insertion_accounts_for_every_entry(renewed, max_entries, key, value, used);
    } else {
        law_insertion_accounts_for_every_entry(renewed, max_entries, key, value, used);
        assert(renewed[0].0 != used) by {
            assert(renewed[0].0 != renewed[newest].0);
        }
    }
}

} // verus!
