//! The order of texts: octet by octet, and a text before every longer text that begins with it.
use vstd::prelude::*;
use vstd::relations::{antisymmetric, reflexive, sorted_by, strongly_connected, total_ordering, transitive};
use vstd::utf8::encode_utf8;

use crate::text::texts;

verus! {

/// Whether octets come no later than others.
pub open spec fn octets_at_most(first: Seq<u8>, second: Seq<u8>) -> bool
    decreases first.len(),
{
    if first.len() == 0 {
        true
    } else if second.len() == 0 {
        false
    } else if first[0] != second[0] {
        first[0] < second[0]
    } else {
        octets_at_most(first.drop_first(), second.drop_first())
    }
}

/// The order of texts.
pub open spec fn text_order() -> spec_fn(Seq<char>, Seq<char>) -> bool {
    |first: Seq<char>, second: Seq<char>| octets_at_most(encode_utf8(first), encode_utf8(second))
}

proof fn lemma_octets_reflexive(octets: Seq<u8>)
    ensures
        octets_at_most(octets, octets),
    decreases octets.len(),
{
    if octets.len() > 0 {
        lemma_octets_reflexive(octets.drop_first());
    }
}

proof fn lemma_octets_antisymmetric(first: Seq<u8>, second: Seq<u8>)
    requires
        octets_at_most(first, second),
        octets_at_most(second, first),
    ensures
        first == second,
    decreases first.len(),
{
    if first.len() > 0 && second.len() > 0 {
        lemma_octets_antisymmetric(first.drop_first(), second.drop_first());
        assert(first =~= seq![first[0]] + first.drop_first());
        assert(second =~= seq![second[0]] + second.drop_first());
    } else {
        assert(first =~= second);
    }
}

proof fn lemma_octets_transitive(first: Seq<u8>, second: Seq<u8>, third: Seq<u8>)
    requires
        octets_at_most(first, second),
        octets_at_most(second, third),
    ensures
        octets_at_most(first, third),
    decreases first.len(),
{
    if first.len() > 0 && second.len() > 0 && third.len() > 0 {
        if first[0] == second[0] && second[0] == third[0] {
            lemma_octets_transitive(
                first.drop_first(),
                second.drop_first(),
                third.drop_first(),
            );
        }
    }
}

proof fn lemma_octets_connected(first: Seq<u8>, second: Seq<u8>)
    ensures
        octets_at_most(first, second) || octets_at_most(second, first),
    decreases first.len(),
{
    if first.len() > 0 && second.len() > 0 && first[0] == second[0] {
        lemma_octets_connected(first.drop_first(), second.drop_first());
    }
}

/// Any two texts are in order, and two that are in both orders are one.
pub proof fn lemma_text_order_is_total()
    ensures
        total_ordering(text_order()),
{
    assert forall|text: Seq<char>| #[trigger] text_order()(text, text) by {
        lemma_octets_reflexive(encode_utf8(text));
    }
    assert(reflexive(text_order()));
    assert forall|first: Seq<char>, second: Seq<char>|
        #[trigger] text_order()(first, second) && #[trigger] text_order()(second, first) implies first
        == second by {
        lemma_octets_antisymmetric(encode_utf8(first), encode_utf8(second));
        vstd::utf8::encode_utf8_decode_utf8(first);
        vstd::utf8::encode_utf8_decode_utf8(second);
    }
    assert(antisymmetric(text_order()));
    assert forall|first: Seq<char>, second: Seq<char>, third: Seq<char>|
        #[trigger] text_order()(first, second) && #[trigger] text_order()(second, third) implies
        text_order()(first, third) by {
        lemma_octets_transitive(encode_utf8(first), encode_utf8(second), encode_utf8(third));
    }
    assert(transitive(text_order()));
    assert forall|first: Seq<char>, second: Seq<char>|
        #[trigger] text_order()(first, second) || #[trigger] text_order()(second, first) by {
        lemma_octets_connected(encode_utf8(first), encode_utf8(second));
    }
    assert(strongly_connected(text_order()));
}

/// Whether a text comes no later than another.
pub fn text_at_most(first: &str, second: &str) -> (at_most: bool)
    ensures
        at_most == text_order()(first@, second@),
{
    let left = first.as_bytes();
    let right = second.as_bytes();
    let mut index: usize = 0;
    assert(left@.skip(0) =~= left@);
    assert(right@.skip(0) =~= right@);
    while index < left.len() && index < right.len()
        invariant
            index <= left@.len() == left.len(),
            index <= right@.len() == right.len(),
            left@ == encode_utf8(first@),
            right@ == encode_utf8(second@),
            octets_at_most(left@, right@) == octets_at_most(
                left@.skip(index as int),
                right@.skip(index as int),
            ),
        decreases left.len() - index,
    {
        assert(left@.skip(index as int).drop_first() =~= left@.skip(index + 1));
        assert(right@.skip(index as int).drop_first() =~= right@.skip(index + 1));
        if left[index] != right[index] {
            return left[index] < right[index];
        }
        index = index + 1;
    }
    index >= left.len()
}

/// Where a name belongs in a sorted list: behind the names that come no later.
pub fn place_for(names: &Vec<String>, name: &str) -> (place: usize)
    requires
        sorted_by(texts(names@), text_order()),
    ensures
        place <= names@.len(),
        sorted_by(texts(names@).insert(place as int, name@), text_order()),
{
    let ghost list = texts(names@);
    let mut place: usize = names.len();
    proof {
        lemma_text_order_is_total();
    }
    while place > 0 && !text_at_most(names[place - 1].as_str(), name)
        invariant
            place <= names.len(),
            list == texts(names@),
            total_ordering(text_order()),
            forall|index: int|
                place <= index < list.len() ==> text_order()(name@, #[trigger] list[index]),
        decreases place,
    {
        proof {
            assert(list[place - 1] == names@[place - 1]@);
            assert(text_order()(list[place - 1], name@) || text_order()(name@, list[place - 1]));
        }
        place = place - 1;
    }
    proof {
        if place > 0 {
            assert(list[place - 1] == names@[place - 1]@);
        }
        let longer = list.insert(place as int, name@);
        assert forall|first: int, second: int| 0 <= first < second < longer.len() implies
            #[trigger] text_order()(longer[first], longer[second]) by {
            if first < place && second > place {
                assert(text_order()(list[first], list[second - 1]));
            } else if second < place {
                assert(text_order()(list[first], list[second]));
            } else if first > place {
                assert(text_order()(list[first - 1], list[second - 1]));
            } else if second == place {
                if first < place - 1 {
                    assert(text_order()(list[first], list[place - 1]));
                    assert(text_order()(list[place - 1], name@));
                }
            }
        }
    }
    place
}

} // verus!
