//! How the type information of an object file has to be laid out for its parts to be found.
//!
//! The section `.BTF` holds types, one behind the other, and names. The section `.BTF.ext` holds
//! records on the programs of other sections. Most numbers in both are in the order of the machine
//! that reads them.
use vstd::prelude::*;
use vstd::slice::slice_subrange;
use vstd::utf8::encode_utf8;

use crate::octets::starts_with;

use super::octet_fields::{field, find_nul, nul_place, read_field, Reading};

verus! {

/// How many types are followed at most from one to another.
pub const MOST_STEPS: usize = 32;

pub const LARGEST_NUMBER: u64 = 0xffff_ffff;

pub const KIND_POINTER: u64 = 2;

pub const KIND_ARRAY: u64 = 3;

pub const KIND_STRUCT: u64 = 4;

pub const KIND_VARIABLE: u64 = 14;

pub const KIND_DATA_SECTION: u64 = 15;

/// The type information in a stretch of a file: `native` tells the order of the machine, and
/// `little` that of the file.
#[verifier::ext_equal]
pub struct TypesView {
    pub octets: Seq<u8>,
    pub at: int,
    pub length: int,
    pub native: bool,
    pub little: bool,
}

/// How many octets follow the first ones of a type.
pub open spec fn further(kind: nat, parts: nat) -> nat {
    if kind == 1 || kind == 14 || kind == 17 {
        4
    } else if kind == 3 {
        12
    } else if kind == 4 || kind == 5 || kind == 15 || kind == 19 {
        12 * parts
    } else if kind == 6 || kind == 13 {
        8 * parts
    } else {
        0
    }
}

/// Whether a type is another one under conditions, or by another name.
pub open spec fn stands_for_another(kind: nat) -> bool {
    kind == 8 || kind == 9 || kind == 10 || kind == 11 || kind == 18
}

/// Whether the size of a type is one of its numbers.
pub open spec fn tells_size(kind: nat) -> bool {
    kind == 1 || kind == 4 || kind == 5 || kind == 6 || kind == 15 || kind == 16 || kind == 19
}

/// Whether the size of a type is that of another one.
pub open spec fn has_size_of_another(kind: nat) -> bool {
    stands_for_another(kind) || kind == 13 || kind == 14 || kind == 17
}

impl TypesView {
    pub open spec fn number(self, at: int) -> nat {
        field(self.octets, at, 4, self.native)
    }

    pub open spec fn header_length(self) -> nat {
        self.number(self.at + 4)
    }

    pub open spec fn types_start(self) -> int {
        self.at + self.header_length() + self.number(self.at + 8)
    }

    pub open spec fn types_end(self) -> int {
        self.types_start() + self.number(self.at + 12)
    }

    pub open spec fn names_start(self) -> int {
        self.at + self.header_length() + self.number(self.at + 16)
    }

    pub open spec fn names_length(self) -> nat {
        self.number(self.at + 20)
    }

    pub open spec fn names_end(self) -> int {
        self.names_start() + self.names_length()
    }

    /// Whether the types and the names lie inside the section.
    pub open spec fn header_fits(self) -> bool {
        &&& self.length >= 24
        &&& self.names_end() <= self.at + self.length
        &&& self.types_end() <= self.at + self.length
    }

    /// How the reading of the header goes.
    pub open spec fn header_reading(self) -> Reading {
        if self.length < 24 {
            Reading::Refused
        } else {
            sum_reading(self.names_end() - self.at, self.length).and(
                sum_reading(self.types_end() - self.at, self.length),
            )
        }
    }

    pub open spec fn kind(self, at: int) -> nat {
        (self.number(at + 4) / 0x100_0000) % 32
    }

    pub open spec fn parts(self, at: int) -> nat {
        self.number(at + 4) % 0x1_0000
    }

    pub open spec fn next(self, at: int) -> int {
        at + 12 + further(self.kind(at), self.parts(at))
    }

    /// How the reading of one type goes, all of which has to lie before `end`. A variable is of
    /// one of four linkages.
    pub open spec fn type_reading(self, at: int, end: int) -> Reading {
        if at + 12 > end || self.kind(at) > 19 || self.next(at) > end {
            Reading::Refused
        } else if self.kind(at) == KIND_VARIABLE && self.number(at + 12) > 3 {
            Reading::Outside
        } else {
            Reading::Through
        }
    }

    /// How the reading of the types from `at` to `end` goes.
    pub open spec fn types_reading_from(self, at: int, end: int) -> Reading
        decreases end - at,
    {
        if at >= end {
            Reading::Through
        } else if self.type_reading(at, end) != Reading::Through {
            self.type_reading(at, end)
        } else {
            self.types_reading_from(self.next(at), end)
        }
    }

    /// How the reading of all types goes.
    pub open spec fn types_reading(self) -> Reading {
        self.header_reading().and(self.types_reading_from(self.types_start(), self.types_end()))
    }

    /// Where the types from `at` to `end` are.
    pub open spec fn places_from(self, at: int, end: int) -> Seq<int>
        decreases end - at,
    {
        if at >= end || self.type_reading(at, end) != Reading::Through {
            Seq::empty()
        } else {
            seq![at] + self.places_from(self.next(at), end)
        }
    }

    pub open spec fn places(self) -> Seq<int> {
        self.places_from(self.types_start(), self.types_end())
    }

    /// Where the type with a number is. The types are numbered from 1 on.
    pub open spec fn place_of(self, id: nat) -> Option<int> {
        if 0 < id <= self.places().len() {
            Some(self.places()[id - 1])
        } else {
            None
        }
    }

    pub open spec fn name_nul(self, offset: nat) -> int {
        nul_place(self.octets, self.names_start() + offset, self.names_end())
    }

    /// How the reading of a name goes. What is refused is measured from the start of the section,
    /// what is read from the start of the names.
    pub open spec fn name_reading(self, offset: nat) -> Reading {
        if self.names_end() - self.at > LARGEST_NUMBER {
            Reading::Outside
        } else if offset >= self.names_end() - self.at {
            Reading::Refused
        } else if offset > self.names_length() {
            Reading::Outside
        } else if self.name_nul(offset) == self.names_end() {
            Reading::Refused
        } else {
            Reading::Through
        }
    }

    pub open spec fn name(self, offset: nat) -> Seq<u8> {
        self.octets.subrange(self.names_start() + offset, self.name_nul(offset))
    }

    /// The type that another one stands for.
    pub open spec fn resolved(self, id: nat, steps: nat) -> Option<int>
        decreases steps,
    {
        match self.place_of(id) {
            Some(at) if steps > 0 => if stands_for_another(self.kind(at)) {
                self.resolved(self.number(at + 8), (steps - 1) as nat)
            } else {
                Some(at)
            },
            _ => None,
        }
    }

    /// Whether the size of `count` elements of a type is a number of 32 bits.
    pub open spec fn size_fits(self, id: nat, count: nat, steps: nat) -> bool
        decreases steps,
    {
        match self.place_of(id) {
            Some(at) if steps > 0 => {
                let kind = self.kind(at);
                if kind == KIND_ARRAY {
                    self.size_fits(
                        self.number(at + 12),
                        self.number(at + 20),
                        (steps - 1) as nat,
                    )
                } else if kind == KIND_POINTER {
                    8 * count <= LARGEST_NUMBER
                } else if tells_size(kind) {
                    self.number(at + 8) * count <= LARGEST_NUMBER
                } else if has_size_of_another(kind) {
                    self.size_fits(self.number(at + 8), count, (steps - 1) as nat)
                } else {
                    true
                }
            },
            _ => true,
        }
    }

    /// Whether a member of the type of a map tells of nothing that cannot be found.
    pub open spec fn member_fits(self, at: int) -> bool {
        let reading = self.name_reading(self.number(at));
        &&& reading != Reading::Outside
        &&& reading == Reading::Through && is_measured(self.name(self.number(at)))
            ==> match self.place_of(self.number(at + 4)) {
            Some(pointer) => self.kind(pointer) == KIND_POINTER ==> self.size_fits(
                self.number(pointer + 8),
                1,
                MOST_STEPS as nat,
            ),
            None => true,
        }
    }

    pub open spec fn members_fit(self, at: int) -> bool {
        forall|member: int|
            0 <= member < self.parts(at) ==> self.member_fits(#[trigger] part_place(at, member))
    }

    /// Whether the type with a number, if it is that of a map, tells of nothing that cannot be
    /// found.
    pub open spec fn map_fits(self, id: nat) -> bool {
        match self.place_of(id) {
            Some(at) => self.kind(at) == KIND_VARIABLE ==> {
                let reading = self.name_reading(self.number(at));
                &&& reading != Reading::Outside
                &&& reading == Reading::Through ==> match self.resolved(
                    self.number(at + 8),
                    MOST_STEPS as nat,
                ) {
                    Some(root) => self.kind(root) == KIND_STRUCT ==> self.members_fit(root),
                    None => true,
                }
            },
            None => true,
        }
    }

    pub open spec fn maps_fit(self, at: int) -> bool {
        forall|part: int|
            0 <= part < self.parts(at) ==> self.map_fits(
                self.number(#[trigger] part_place(at, part)),
            )
    }

    /// Whether a type, if it is the one of the section of maps with a name, tells of nothing that
    /// cannot be found.
    pub open spec fn data_section_fits(self, at: int, section: Seq<u8>) -> bool {
        self.kind(at) == KIND_DATA_SECTION ==> {
            let reading = self.name_reading(self.number(at));
            &&& reading != Reading::Outside
            &&& reading == Reading::Through && may_be_named(self.name(self.number(at)), section)
                ==> self.maps_fit(at)
        }
    }

    /// Whether the types of the maps in a section tell of nothing that cannot be found.
    pub open spec fn section_fits(self, section: Seq<u8>) -> bool {
        forall|index: int|
            0 <= index < self.places().len() ==> self.data_section_fits(
                #[trigger] self.places()[index],
                section,
            )
    }

    /// How the reading of records on sections goes, from `at` to `end`. They are of a size that has
    /// to be no less than the smallest, and some are named.
    pub open spec fn records_reading_from(
        self,
        at: int,
        end: int,
        size: nat,
        smallest: nat,
        named: bool,
    ) -> Reading
        decreases end - at,
    {
        let count = self.number(at + 4);
        let next = at + 8 + size * count;
        if at + 8 >= end {
            Reading::Through
        } else if next > end || size == 0 {
            Reading::Outside
        } else if named && self.name_reading(field(self.octets, at, 4, self.little))
            != Reading::Through {
            Reading::Outside
        } else if count > 0 && size < smallest {
            if named {
                Reading::Outside
            } else {
                Reading::Refused
            }
        } else {
            self.records_reading_from(next, end, size, smallest, named)
        }
    }

    pub open spec fn part_reading(
        self,
        start: int,
        length: nat,
        smallest: nat,
        named: bool,
    ) -> Reading {
        if length == 0 {
            Reading::Through
        } else {
            self.records_reading_from(
                start + 4,
                start + length,
                field(self.octets, start, 4, self.little),
                smallest,
                named,
            )
        }
    }

    /// The head of the records in a stretch, as long as it says, and zero behind that.
    pub open spec fn head(self, at: int) -> Seq<u8> {
        Seq::new(
            32,
            |index: int|
                if index < self.number(at + 4) {
                    self.octets[at + index]
                } else {
                    0
                },
        )
    }

    pub open spec fn head_number(self, at: int, index: int) -> nat {
        field(self.head(at), index, 4, self.native)
    }

    /// How the reading of the place of a part of the records goes, which has to lie inside their
    /// stretch.
    pub open spec fn place_reading(self, at: int, length: int, index: int) -> Reading {
        let start = self.part_start(at, index) - at;
        let part_length = self.head_number(at, index + 4);
        if start > usize::MAX {
            Reading::Outside
        } else if 0 < part_length < 4 {
            Reading::Refused
        } else {
            sum_reading(start + part_length, length)
        }
    }

    pub open spec fn places_reading(self, at: int, length: int) -> Reading {
        self.place_reading(at, length, 8).and(self.place_reading(at, length, 16)).and(
            self.place_reading(at, length, 24),
        )
    }

    pub open spec fn part_start(self, at: int, index: int) -> int {
        at + self.head_number(at, 4) + self.head_number(at, index)
    }

    /// How the reading of the records in a stretch goes: those on functions, on lines, and on what
    /// has to be relocated.
    pub open spec fn records_reading(self, at: int, length: int) -> Reading {
        if length < 8 || length < self.number(at + 4) {
            Reading::Refused
        } else if self.places_reading(at, length) != Reading::Through {
            self.places_reading(at, length)
        } else if self.part_start(at, 8) - at > LARGEST_NUMBER || self.part_start(at, 16) - at
            > LARGEST_NUMBER || self.part_start(at, 24) - at > LARGEST_NUMBER {
            Reading::Outside
        } else {
            self.part_reading(
                self.part_start(at, 8),
                self.head_number(at, 12),
                8,
                true,
            ).and(
                self.part_reading(
                    self.part_start(at, 16),
                    self.head_number(at, 20),
                    16,
                    true,
                ),
            ).and(
                self.part_reading(
                    self.part_start(at, 24),
                    self.head_number(at, 28),
                    16,
                    false,
                ),
            )
        }
    }
}

/// How the reading of a stretch goes that ends at a sum, and has to end no later than some place.
/// The machine has to be able to add that up.
pub open spec fn sum_reading(sum: int, end: int) -> Reading {
    if sum > usize::MAX {
        Reading::Outside
    } else if sum > end {
        Reading::Refused
    } else {
        Reading::Through
    }
}

fn read_sum(sum: u64, end: usize) -> (reading: Reading)
    ensures
        reading == sum_reading(sum as int, end as int),
{
    if sum > usize::MAX as u64 {
        Reading::Outside
    } else if sum > end as u64 {
        Reading::Refused
    } else {
        Reading::Through
    }
}

fn read_place(start: u64, part_length: u64, length: usize) -> (reading: Reading)
    requires
        start <= 0x2_0000_0000,
        part_length < 0x1_0000_0000,
    ensures
        reading == (if start > usize::MAX {
            Reading::Outside
        } else if 0 < part_length < 4 {
            Reading::Refused
        } else {
            sum_reading(start + part_length, length as int)
        }),
{
    if start > usize::MAX as u64 {
        Reading::Outside
    } else if part_length > 0 && part_length < 4 {
        Reading::Refused
    } else {
        read_sum(start + part_length, length)
    }
}

/// Where a part of a type with parts of twelve octets is.
pub open spec fn part_place(at: int, part: int) -> int {
    at + 12 + 12 * part
}

/// Whether a member of the type of a map points to something whose size counts.
pub open spec fn is_measured(name: Seq<u8>) -> bool {
    name == encode_utf8("key"@) || name == encode_utf8("value"@)
}

/// Whether a name may be taken for that of a section: octets that are no ASCII may be replaced
/// before they are looked at.
pub open spec fn may_be_named(name: Seq<u8>, section: Seq<u8>) -> bool {
    name == section || exists|index: int| 0 <= index < name.len() && #[trigger] name[index] >= 0x80
}

/// Whether octets are those of a text.
pub fn is_text(octets: &[u8], text: &str) -> (same: bool)
    ensures
        same == (octets@ == encode_utf8(text@)),
{
    let length: usize = text.as_bytes().len();
    let starts = starts_with(octets, text);
    proof {
        if starts && length == octets@.len() {
            assert(octets@.take(length as int) =~= octets@);
        }
        if octets@ == encode_utf8(text@) {
            assert(octets@.take(length as int) =~= octets@);
        }
    }
    starts && octets.len() == length
}

fn same_octets(first: &[u8], second: &[u8]) -> (same: bool)
    ensures
        same == (first@ == second@),
{
    if first.len() != second.len() {
        return false;
    }
    let mut index: usize = 0;
    while index < first.len()
        invariant
            index <= first@.len() == second@.len(),
            forall|earlier: int| 0 <= earlier < index ==> first@[earlier] == second@[earlier],
        decreases first@.len() - index,
    {
        if first[index] != second[index] {
            return false;
        }
        index = index + 1;
    }
    assert(first@ =~= second@);
    true
}

fn may_have_name(name: &[u8], section: &[u8]) -> (may: bool)
    ensures
        may == may_be_named(name@, section@),
{
    if same_octets(name, section) {
        return true;
    }
    let mut index: usize = 0;
    while index < name.len()
        invariant
            index <= name@.len(),
            name@ != section@,
            forall|earlier: int| 0 <= earlier < index ==> #[trigger] name@[earlier] < 0x80,
        decreases name@.len() - index,
    {
        if name[index] >= 0x80 {
            assert(name@[index as int] >= 0x80);
            return true;
        }
        index = index + 1;
    }
    false
}

/// The type information in a stretch of a file.
pub struct Types<'a> {
    pub octets: &'a [u8],
    pub at: usize,
    pub length: usize,
    pub native: bool,
    pub little: bool,
}

impl<'a> View for Types<'a> {
    type V = TypesView;

    open spec fn view(&self) -> TypesView {
        TypesView {
            octets: self.octets@,
            at: self.at as int,
            length: self.length as int,
            native: self.native,
            little: self.little,
        }
    }
}

/// Whether `places` are those of the types.
pub open spec fn are_places(places: Seq<usize>, types: TypesView) -> bool {
    places.map_values(|place: usize| place as int) == types.places()
}

proof fn lemma_place_is_inside(types: TypesView, at: int, end: int, index: int)
    requires
        0 <= index < types.places_from(at, end).len(),
    ensures
        ({
            let place = types.places_from(at, end)[index];
            at <= place && types.type_reading(place, end) == Reading::Through
        }),
    decreases end - at,
{
    if index > 0 {
        lemma_place_is_inside(types, types.next(at), end, index - 1);
    }
}

impl<'a> Types<'a> {
    pub open spec fn well_placed(&self) -> bool {
        self.at + self.length <= self.octets@.len() <= usize::MAX
    }

    fn number(&self, at: usize) -> (number: u64)
        requires
            at + 4 <= self.octets@.len(),
        ensures
            number == self@.number(at as int),
            number < 0x1_0000_0000,
    {
        read_field(self.octets, at, 4, self.native)
    }

    fn header_reading(&self) -> (reading: Reading)
        requires
            self.well_placed(),
        ensures
            reading == self@.header_reading(),
            reading == Reading::Through ==> self@.header_fits(),
    {
        if self.length < 24 {
            return Reading::Refused;
        }
        let header: u64 = self.number(self.at + 4);
        let names = read_sum(
            header + self.number(self.at + 16) + self.number(self.at + 20),
            self.length,
        );
        if !matches!(names, Reading::Through) {
            return names;
        }
        read_sum(header + self.number(self.at + 8) + self.number(self.at + 12), self.length)
    }

    fn kind(&self, at: usize) -> (kind: u64)
        requires
            self.well_placed(),
            at + 12 <= self.octets@.len(),
        ensures
            kind == self@.kind(at as int),
    {
        (self.number(at + 4) / 0x100_0000) % 32
    }

    fn parts(&self, at: usize) -> (parts: usize)
        requires
            self.well_placed(),
            at + 12 <= self.octets@.len(),
        ensures
            parts == self@.parts(at as int),
            parts < 0x1_0000,
    {
        (self.number(at + 4) % 0x1_0000) as usize
    }

    fn type_reading(&self, at: usize, end: usize) -> (read: (Reading, usize))
        requires
            self.well_placed(),
            at < end <= self.octets@.len(),
        ensures
            read.0 == self@.type_reading(at as int, end as int),
            read.0 == Reading::Through ==> read.1 == self@.next(at as int) && at < read.1 <= end,
    {
        if end - at < 12 {
            return (Reading::Refused, end);
        }
        let kind: u64 = self.kind(at);
        let parts: usize = self.parts(at);
        if kind > 19 {
            return (Reading::Refused, end);
        }
        let more: usize = if kind == 1 || kind == 14 || kind == 17 {
            4
        } else if kind == 3 {
            12
        } else if kind == 4 || kind == 5 || kind == 15 || kind == 19 {
            12 * parts
        } else if kind == 6 || kind == 13 {
            8 * parts
        } else {
            0
        };
        if more > end - at - 12 {
            return (Reading::Refused, end);
        }
        if kind == KIND_VARIABLE && self.number(at + 12) > 3 {
            return (Reading::Outside, end);
        }
        (Reading::Through, at + 12 + more)
    }

    /// How the reading of all types goes, and where they are.
    pub fn types_reading(&self) -> (read: (Reading, Vec<usize>))
        requires
            self.well_placed(),
        ensures
            read.0 == self@.types_reading(),
            read.0 == Reading::Through ==> are_places(read.1@, self@) && self@.header_fits(),
    {
        let mut places: Vec<usize> = Vec::new();
        let reading = self.header_reading();
        if !matches!(reading, Reading::Through) {
            return (reading, places);
        }
        let header: usize = self.number(self.at + 4) as usize;
        let start: usize = self.at + header + self.number(self.at + 8) as usize;
        let end: usize = start + self.number(self.at + 12) as usize;
        let ghost all = self@.places();
        let mut at: usize = start;
        assert(places@.map_values(|place: usize| place as int) + self@.places_from(
            at as int,
            end as int,
        ) =~= all);
        while at < end
            invariant
                at <= end <= self.octets@.len(),
                self.well_placed(),
                self@.header_fits(),
                end == self@.types_end(),
                all == self@.places(),
                self@.types_reading() == self@.types_reading_from(at as int, end as int),
                places@.map_values(|place: usize| place as int) + self@.places_from(
                    at as int,
                    end as int,
                ) == all,
            decreases end - at,
        {
            let (reading, next) = self.type_reading(at, end);
            if !matches!(reading, Reading::Through) {
                return (reading, places);
            }
            let ghost earlier = places@;
            let ghost rest = self@.places_from(next as int, end as int);
            places.push(at);
            proof {
                assert(self@.places_from(at as int, end as int) == seq![at as int] + rest);
                assert(places@.map_values(|place: usize| place as int) + rest
                    =~= earlier.map_values(|place: usize| place as int) + (seq![at as int] + rest));
            }
            at = next;
        }
        assert(self@.places_from(at as int, end as int) =~= Seq::empty());
        assert(places@.map_values(|place: usize| place as int) =~= all);
        (Reading::Through, places)
    }

    /// Where the type with a number is.
    fn place_of(&self, places: &Vec<usize>, id: u64) -> (place: Option<usize>)
        requires
            self.well_placed(),
            self@.header_fits(),
            are_places(places@, self@),
        ensures
            match place {
                Some(at) => self@.place_of(id as nat) == Some(at as int) && self@.type_reading(
                    at as int,
                    self@.types_end(),
                ) == Reading::Through && at + 12 <= self@.next(at as int) <= self.octets@.len(),
                None => self@.place_of(id as nat) is None,
            },
    {
        assert(places@.map_values(|place: usize| place as int).len() == places@.len());
        if id == 0 || id > places.len() as u64 {
            return None;
        }
        let index: usize = (id - 1) as usize;
        proof {
            assert(places@.map_values(|place: usize| place as int)[index as int]
                == places@[index as int]);
            lemma_place_is_inside(
                self@,
                self@.types_start(),
                self@.types_end(),
                index as int,
            );
        }
        Some(places[index])
    }

    /// The name at a place among the names, if it can be read.
    fn name(&self, offset: u64) -> (read: (Reading, &'a [u8]))
        requires
            self.well_placed(),
            self@.header_fits(),
        ensures
            read.0 == self@.name_reading(offset as nat),
            read.0 == Reading::Through ==> read.1@ == self@.name(offset as nat),
    {
        let header: u64 = self.number(self.at + 4);
        let before: u64 = header + self.number(self.at + 16);
        let length: u64 = self.number(self.at + 20);
        let nothing = slice_subrange(self.octets, 0, 0);
        if before + length > LARGEST_NUMBER {
            return (Reading::Outside, nothing);
        }
        if offset >= before + length {
            return (Reading::Refused, nothing);
        }
        if offset > length {
            return (Reading::Outside, nothing);
        }
        let start: usize = self.at + (before + offset) as usize;
        let end: usize = self.at + (before + length) as usize;
        let nul: usize = find_nul(self.octets, start, end);
        if nul == end {
            return (Reading::Refused, nothing);
        }
        (Reading::Through, slice_subrange(self.octets, start, nul))
    }

    fn resolved(&self, places: &Vec<usize>, root: u64) -> (place: Option<usize>)
        requires
            self.well_placed(),
            self@.header_fits(),
            are_places(places@, self@),
        ensures
            match place {
                Some(at) => self@.resolved(root as nat, MOST_STEPS as nat) == Some(at as int)
                    && self@.type_reading(at as int, self@.types_end()) == Reading::Through && at
                    + 12 <= self@.next(at as int) <= self.octets@.len(),
                None => self@.resolved(root as nat, MOST_STEPS as nat) is None,
            },
    {
        let mut id: u64 = root;
        let mut steps: usize = MOST_STEPS;
        while steps > 0
            invariant
                steps <= MOST_STEPS,
                self.well_placed(),
                self@.header_fits(),
                are_places(places@, self@),
                self@.resolved(root as nat, MOST_STEPS as nat) == self@.resolved(
                    id as nat,
                    steps as nat,
                ),
            decreases steps,
        {
            let at: usize = match self.place_of(places, id) {
                Some(at) => at,
                None => {
                    return None;
                },
            };
            let kind: u64 = self.kind(at);
            if kind != 8 && kind != 9 && kind != 10 && kind != 11 && kind != 18 {
                return Some(at);
            }
            id = self.number(at + 8);
            steps = steps - 1;
        }
        None
    }

    fn size_fits(&self, places: &Vec<usize>, root: u64) -> (fits: bool)
        requires
            self.well_placed(),
            self@.header_fits(),
            are_places(places@, self@),
        ensures
            fits == self@.size_fits(root as nat, 1, MOST_STEPS as nat),
    {
        let mut id: u64 = root;
        let mut count: u64 = 1;
        let mut steps: usize = MOST_STEPS;
        while steps > 0
            invariant
                steps <= MOST_STEPS,
                count <= 0xffff_ffff,
                self.well_placed(),
                self@.header_fits(),
                are_places(places@, self@),
                self@.size_fits(root as nat, 1, MOST_STEPS as nat) == self@.size_fits(
                    id as nat,
                    count as nat,
                    steps as nat,
                ),
            decreases steps,
        {
            let at: usize = match self.place_of(places, id) {
                Some(at) => at,
                None => {
                    return true;
                },
            };
            let kind: u64 = self.kind(at);
            let told: u64 = self.number(at + 8);
            if kind == KIND_ARRAY {
                id = self.number(at + 12);
                count = self.number(at + 20);
            } else if kind == KIND_POINTER {
                return 8 * count <= LARGEST_NUMBER;
            } else if kind == 1 || kind == 4 || kind == 5 || kind == 6 || kind == 15 || kind == 16
                || kind == 19 {
                return match told.checked_mul(count) {
                    Some(size) => size <= LARGEST_NUMBER,
                    None => false,
                };
            } else if kind == 8 || kind == 9 || kind == 10 || kind == 11 || kind == 13 || kind == 14
                || kind == 17 || kind == 18 {
                id = told;
            } else {
                return true;
            }
            steps = steps - 1;
        }
        true
    }

    fn member_fits(&self, places: &Vec<usize>, at: usize) -> (fits: bool)
        requires
            self.well_placed(),
            self@.header_fits(),
            are_places(places@, self@),
            at + 12 <= self.octets@.len(),
        ensures
            fits == self@.member_fits(at as int),
    {
        let (reading, name) = self.name(self.number(at));
        match reading {
            Reading::Outside => {
                return false;
            },
            Reading::Refused => {
                return true;
            },
            Reading::Through => {},
        }
        if !is_text(name, "key") && !is_text(name, "value") {
            return true;
        }
        match self.place_of(places, self.number(at + 4)) {
            Some(pointer) => self.kind(pointer) != KIND_POINTER || self.size_fits(
                places,
                self.number(pointer + 8),
            ),
            None => true,
        }
    }

    fn members_fit(&self, places: &Vec<usize>, at: usize) -> (fits: bool)
        requires
            self.well_placed(),
            self@.header_fits(),
            are_places(places@, self@),
            at + 12 + 12 * self@.parts(at as int) <= self.octets@.len(),
        ensures
            fits == self@.members_fit(at as int),
    {
        let parts: usize = self.parts(at);
        let total: usize = self.octets.len();
        let mut member: usize = 0;
        while member < parts
            invariant
                member <= parts == self@.parts(at as int),
                parts < 0x1_0000,
                at + 12 + 12 * parts <= total == self.octets@.len(),
                self.well_placed(),
                self@.header_fits(),
                are_places(places@, self@),
                forall|earlier: int|
                    0 <= earlier < member ==> self@.member_fits(
                        #[trigger] part_place(at as int, earlier),
                    ),
            decreases parts - member,
        {
            let place: usize = at + 12 + 12 * member;
            assert(place == part_place(at as int, member as int));
            if !self.member_fits(places, place) {
                assert(!self@.members_fit(at as int));
                return false;
            }
            member = member + 1;
        }
        true
    }

    fn map_fits(&self, places: &Vec<usize>, id: u64) -> (fits: bool)
        requires
            self.well_placed(),
            self@.header_fits(),
            are_places(places@, self@),
        ensures
            fits == self@.map_fits(id as nat),
    {
        let at: usize = match self.place_of(places, id) {
            Some(at) => at,
            None => {
                return true;
            },
        };
        if self.kind(at) != KIND_VARIABLE {
            return true;
        }
        let (reading, _) = self.name(self.number(at));
        match reading {
            Reading::Outside => {
                return false;
            },
            Reading::Refused => {
                return true;
            },
            Reading::Through => {},
        }
        let root: usize = match self.resolved(places, self.number(at + 8)) {
            Some(root) => root,
            None => {
                return true;
            },
        };
        if self.kind(root) != KIND_STRUCT {
            return true;
        }
        self.members_fit(places, root)
    }

    fn maps_fit(&self, places: &Vec<usize>, at: usize) -> (fits: bool)
        requires
            self.well_placed(),
            self@.header_fits(),
            are_places(places@, self@),
            at + 12 + 12 * self@.parts(at as int) <= self.octets@.len(),
        ensures
            fits == self@.maps_fit(at as int),
    {
        let parts: usize = self.parts(at);
        let total: usize = self.octets.len();
        let mut part: usize = 0;
        while part < parts
            invariant
                part <= parts == self@.parts(at as int),
                parts < 0x1_0000,
                at + 12 + 12 * parts <= total == self.octets@.len(),
                self.well_placed(),
                self@.header_fits(),
                are_places(places@, self@),
                forall|earlier: int|
                    0 <= earlier < part ==> self@.map_fits(
                        self@.number(#[trigger] part_place(at as int, earlier)),
                    ),
            decreases parts - part,
        {
            let place: usize = at + 12 + 12 * part;
            assert(place == part_place(at as int, part as int));
            if !self.map_fits(places, self.number(place)) {
                assert(!self@.maps_fit(at as int));
                return false;
            }
            part = part + 1;
        }
        true
    }

    fn data_section_fits(&self, places: &Vec<usize>, at: usize, section: &[u8]) -> (fits: bool)
        requires
            self.well_placed(),
            self@.header_fits(),
            are_places(places@, self@),
            at + 12 <= self@.next(at as int) <= self.octets@.len(),
        ensures
            fits == self@.data_section_fits(at as int, section@),
    {
        if self.kind(at) != KIND_DATA_SECTION {
            return true;
        }
        let (reading, name) = self.name(self.number(at));
        match reading {
            Reading::Outside => {
                return false;
            },
            Reading::Refused => {
                return true;
            },
            Reading::Through => {},
        }
        if !may_have_name(name, section) {
            return true;
        }
        self.maps_fit(places, at)
    }

    /// Whether the types of the maps in a section tell of nothing that cannot be found.
    pub fn section_fits(&self, places: &Vec<usize>, section: &[u8]) -> (fits: bool)
        requires
            self.well_placed(),
            self@.header_fits(),
            are_places(places@, self@),
        ensures
            fits == self@.section_fits(section@),
    {
        let ghost all = places@.map_values(|place: usize| place as int);
        let mut index: usize = 0;
        while index < places.len()
            invariant
                index <= places@.len() == all.len(),
                all == places@.map_values(|place: usize| place as int),
                all == self@.places(),
                self.well_placed(),
                self@.header_fits(),
                are_places(places@, self@),
                forall|earlier: int|
                    0 <= earlier < index ==> self@.data_section_fits(
                        #[trigger] self@.places()[earlier],
                        section@,
                    ),
            decreases places@.len() - index,
        {
            let at: usize = places[index];
            proof {
                assert(all[index as int] == at);
                lemma_place_is_inside(
                    self@,
                    self@.types_start(),
                    self@.types_end(),
                    index as int,
                );
            }
            if !self.data_section_fits(places, at, section) {
                assert(!self@.data_section_fits(self@.places()[index as int], section@));
                return false;
            }
            index = index + 1;
        }
        true
    }

    fn part_reading(&self, start: usize, length: usize, smallest: u64, named: bool) -> (reading:
        Reading)
        requires
            self.well_placed(),
            self@.header_fits(),
            start + length <= self.octets@.len(),
            length == 0 || length >= 4,
        ensures
            reading == self@.part_reading(start as int, length as nat, smallest as nat, named),
    {
        if length == 0 {
            return Reading::Through;
        }
        let size: u64 = read_field(self.octets, start, 4, self.little);
        let end: usize = start + length;
        let mut at: usize = start + 4;
        while end - at > 8
            invariant
                at <= end <= self.octets@.len(),
                size < 0x1_0000_0000,
                self.well_placed(),
                self@.header_fits(),
                self@.part_reading(start as int, length as nat, smallest as nat, named)
                    == self@.records_reading_from(
                    at as int,
                    end as int,
                    size as nat,
                    smallest as nat,
                    named,
                ),
            decreases end - at,
        {
            let count: u64 = self.number(at + 4);
            let taken: u64 = match size.checked_mul(count) {
                Some(taken) => taken,
                None => {
                    proof {
                        let most: int = 0xffff_fffe_0000_0001;
                        assert(size * count <= most) by (nonlinear_arith)
                            requires
                                0 <= size <= 0xffff_ffff,
                                0 <= count <= 0xffff_ffff,
                                most == 0xffff_fffe_0000_0001,
                        ;
                    }
                    return Reading::Outside;
                },
            };
            if taken > (end - at - 8) as u64 || size == 0 {
                return Reading::Outside;
            }
            if named {
                let (reading, _) = self.name(read_field(self.octets, at, 4, self.little));
                if !matches!(reading, Reading::Through) {
                    return Reading::Outside;
                }
            }
            if count > 0 && size < smallest {
                if named {
                    return Reading::Outside;
                }
                return Reading::Refused;
            }
            at = at + 8 + taken as usize;
        }
        Reading::Through
    }

    /// How the reading of the records in a stretch goes.
    pub fn records_reading(&self, at: usize, length: usize) -> (reading: Reading)
        requires
            self.well_placed(),
            self@.header_fits(),
            at + length <= self.octets@.len(),
        ensures
            reading == self@.records_reading(at as int, length as int),
    {
        if length < 8 {
            return Reading::Refused;
        }
        let told: u64 = self.number(at + 4);
        if (length as u64) < told {
            return Reading::Refused;
        }
        let total: usize = self.octets.len();
        let mut head: Vec<u8> = Vec::new();
        let mut index: usize = 0;
        while index < 32
            invariant
                index <= 32,
                head@.len() == index,
                told == self@.number(at as int + 4),
                told <= length,
                at + length <= total == self.octets@.len(),
                forall|earlier: int|
                    0 <= earlier < index ==> head@[earlier] == self@.head(at as int)[earlier],
            decreases 32 - index,
        {
            if (index as u64) < told {
                head.push(self.octets[at + index]);
            } else {
                head.push(0);
            }
            index = index + 1;
        }
        assert(head@ =~= self@.head(at as int));
        let header: u64 = read_field(head.as_slice(), 4, 4, self.native);
        let functions: u64 = header + read_field(head.as_slice(), 8, 4, self.native);
        let functions_length: u64 = read_field(head.as_slice(), 12, 4, self.native);
        let lines: u64 = header + read_field(head.as_slice(), 16, 4, self.native);
        let lines_length: u64 = read_field(head.as_slice(), 20, 4, self.native);
        let moved: u64 = header + read_field(head.as_slice(), 24, 4, self.native);
        let moved_length: u64 = read_field(head.as_slice(), 28, 4, self.native);
        let places = [
            read_place(functions, functions_length, length),
            read_place(lines, lines_length, length),
            read_place(moved, moved_length, length),
        ];
        if !matches!(places[0], Reading::Through) {
            return places[0];
        }
        if !matches!(places[1], Reading::Through) {
            return places[1];
        }
        if !matches!(places[2], Reading::Through) {
            return places[2];
        }
        if functions > LARGEST_NUMBER || lines > LARGEST_NUMBER || moved > LARGEST_NUMBER {
            return Reading::Outside;
        }
        let first = self.part_reading(
            at + functions as usize,
            functions_length as usize,
            8,
            true,
        );
        if !matches!(first, Reading::Through) {
            return first;
        }
        let second = self.part_reading(at + lines as usize, lines_length as usize, 16, true);
        if !matches!(second, Reading::Through) {
            return second;
        }
        self.part_reading(at + moved as usize, moved_length as usize, 16, false)
    }
}

} // verus!
