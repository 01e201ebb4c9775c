//! Which COFF files, and which images (PE files), hold nothing that could be taken for a program, a
//! map or type information.
use vstd::prelude::*;
use vstd::slice::slice_subrange;

use crate::octets::{starts_with, starts_with_text};

use super::octet_fields::{ends_within, field, find_nul, nul_place, read_field};
use super::program_names::{is_program_name, names_programs, SLASH};

verus! {

/// The mark of an image with addresses of 64 bits.
pub const WIDE_IMAGE: u64 = 0x20b;

/// The most that the address of a section and a place in it can be apart from the base.
pub const FARTHEST: u64 = 0x1_ffff_fffe;

/// The class of a symbol that other files see.
pub const CLASS_EXTERNAL: u8 = 2;

/// A COFF file or an image: its octets, where its header begins, whether it is of the large kind,
/// and whether it is an image.
#[verifier::ext_equal]
pub struct CoffView {
    pub octets: Seq<u8>,
    pub header: int,
    pub large: bool,
    pub image: bool,
}

impl CoffView {
    pub open spec fn number(self, at: int, width: nat) -> nat {
        field(self.octets, at, width, true)
    }

    pub open spec fn header_end(self) -> int {
        if self.large {
            56
        } else {
            self.header + 20
        }
    }

    pub open spec fn section_count(self) -> nat {
        if self.large {
            self.number(44, 4)
        } else {
            self.number(self.header + 2, 2)
        }
    }

    pub open spec fn table_start(self) -> int {
        if self.large {
            56
        } else {
            self.header + 20 + self.number(self.header + 16, 2)
        }
    }

    pub open spec fn symbols_start(self) -> nat {
        if self.large {
            self.number(48, 4)
        } else {
            self.number(self.header + 8, 4)
        }
    }

    pub open spec fn symbol_count(self) -> nat {
        if self.large {
            self.number(52, 4)
        } else {
            self.number(self.header + 12, 4)
        }
    }

    pub open spec fn symbol_place(self, index: int) -> int {
        self.symbols_start() + if self.large {
            20 * index
        } else {
            18 * index
        }
    }

    /// Whether there are symbols that can be read.
    pub open spec fn has_symbols(self) -> bool {
        &&& self.symbols_start() != 0
        &&& self.symbol_count() != 0
        &&& self.symbol_place(self.symbol_count() as int) <= self.octets.len()
    }

    /// Whether a symbol is a function whose size is told behind it.
    pub open spec fn has_size(self, index: int) -> bool {
        let end = self.symbol_place(index + 1);
        &&& self.octets[end - 2] == CLASS_EXTERNAL
        &&& self.octets[end - 1] > 0
        &&& (self.number(end - 4, 2) / 16) % 4 == 2
        &&& index + 1 < self.symbol_count()
    }

    /// The number of the section of a symbol.
    pub open spec fn symbol_section(self, index: int) -> nat {
        let at = self.symbol_place(index) + 12;
        if self.large {
            self.number(at, 4)
        } else {
            self.number(at, 2)
        }
    }

    /// Whether a function, if its size is told, ends no later than its section.
    pub open spec fn function_fits(self, index: int) -> bool {
        let section = self.symbol_section(index) - 1;
        self.has_size(index) && 0 <= section < self.section_count() ==> self.number(
            self.symbol_place(index) + 8,
            4,
        ) + self.number(self.symbol_place(index + 1) + 4, 4) <= self.held(section)
    }

    pub open spec fn functions_fit(self) -> bool {
        forall|index: int|
            0 <= index < self.symbol_count() ==> #[trigger] self.function_fits(index)
    }

    pub open spec fn section_place(self, index: int) -> int {
        self.table_start() + 40 * index
    }

    pub open spec fn size(self, index: int) -> nat {
        if self.image {
            self.number(self.section_place(index) + 8, 4)
        } else {
            self.number(self.section_place(index) + 16, 4)
        }
    }

    /// How many octets of the file belong to a section, if it holds some.
    pub open spec fn held(self, index: int) -> nat {
        let stored = self.number(self.section_place(index) + 16, 4);
        if self.size(index) < stored {
            self.size(index)
        } else {
            stored
        }
    }

    /// Where the long names begin, which are behind the symbols.
    pub open spec fn names_start(self) -> int {
        self.symbol_place(self.symbol_count() as int)
    }

    /// Where the long names end, if there are some.
    pub open spec fn names_end(self) -> int {
        if self.symbols_start() != 0 && self.names_start() + 4 <= self.octets.len() {
            self.names_start() + self.number(self.names_start(), 4)
        } else {
            0
        }
    }

    /// The long name at a place among the long names, if it can be read.
    pub open spec fn long_name(self, offset: nat) -> Option<Seq<u8>> {
        let at = self.names_start() + offset;
        let nul = nul_place(self.octets, at, self.names_end());
        if at > self.names_end() || self.names_end() > self.octets.len() || nul
            == self.names_end() {
            None
        } else {
            Some(self.octets.subrange(at, nul))
        }
    }

    /// The name of a section, if it can be read. A slash and a number stand for a long name.
    pub open spec fn section_name(self, index: int) -> Option<Seq<u8>> {
        let at = self.section_place(index);
        if self.octets[at] != SLASH {
            Some(self.octets.subrange(at, nul_place(self.octets, at, at + 8)))
        } else {
            match told_number(self.octets, at + 1, at + 8, 0) {
                Some(offset) => self.long_name(offset),
                None => None,
            }
        }
    }

    /// Whether a section could be taken for one that holds programs, maps or types, or more than
    /// can be set aside. Two slashes stand for a long name that is far off. Programs and maps need
    /// symbols.
    pub open spec fn is_telling(self, index: int) -> bool {
        let at = self.section_place(index);
        ||| self.octets[at] == SLASH && self.octets[at + 1] == SLASH
        ||| self.section_name(index) matches Some(name) && {
            ||| starts_with_text(name, ".BTF"@)
            ||| starts_with_text(name, ".bss"@) && self.size(index) > isize::MAX
            ||| self.has_symbols() && (starts_with_text(name, "maps"@) || is_program_name(name))
        }
    }

    pub open spec fn has_telling_sections(self) -> bool {
        exists|index: int| 0 <= index < self.section_count() && #[trigger] self.is_telling(index)
    }

    /// Whether the base of an image is so high that addresses are out of reach.
    pub open spec fn is_too_high(self) -> bool {
        &&& self.image
        &&& self.header + 52 <= self.octets.len()
        &&& self.number(self.header + 20, 2) == WIDE_IMAGE
        &&& self.number(self.header + 44, 8) + FARTHEST > u64::MAX
    }

    /// Whether nothing in the file could be taken for a program, a map or type information, as far
    /// as it can be read.
    pub open spec fn fits(self) -> bool {
        self.header_end() > self.octets.len() || self.section_place(self.section_count() as int)
            > self.octets.len() || (!self.has_telling_sections() && (self.has_symbols()
            ==> self.functions_fit() && !self.is_too_high()))
    }
}

/// The decimal number before a place, or before a zero octet, with what was read of it so far.
pub open spec fn told_number(octets: Seq<u8>, at: int, end: int, so_far: nat) -> Option<nat>
    decreases end - at,
{
    if at >= end || octets[at] == 0 {
        Some(so_far)
    } else if 0x30 <= octets[at] <= 0x39 {
        told_number(octets, at + 1, end, (so_far * 10 + octets[at] - 0x30) as nat)
    } else {
        None
    }
}

fn read_told_number(octets: &[u8], start: usize) -> (number: Option<u64>)
    requires
        start + 7 <= octets@.len() <= usize::MAX,
    ensures
        match number {
            Some(number) => told_number(octets@, start as int, start + 7, 0) == Some(number as nat)
                && number < 10_000_000,
            None => told_number(octets@, start as int, start + 7, 0) is None,
        },
{
    let mut number: u64 = 0;
    let mut bound: Ghost<int> = Ghost(1);
    let mut done: usize = 0;
    while done < 7
        invariant
            done <= 7,
            start + 7 <= octets@.len() <= usize::MAX,
            number < bound@ <= 10_000_000,
            bound@ == if done == 0 {
                1int
            } else if done == 1 {
                10
            } else if done == 2 {
                100
            } else if done == 3 {
                1_000
            } else if done == 4 {
                10_000
            } else if done == 5 {
                100_000
            } else if done == 6 {
                1_000_000
            } else {
                10_000_000
            },
            told_number(octets@, start as int, start + 7, 0) == told_number(
                octets@,
                start + done,
                start + 7,
                number as nat,
            ),
        decreases 7 - done,
    {
        let octet: u8 = octets[start + done];
        if octet == 0 {
            return Some(number);
        }
        if octet < 0x30 || octet > 0x39 {
            return None;
        }
        number = number * 10 + (octet - 0x30) as u64;
        proof {
            bound@ = bound@ * 10;
        }
        done = done + 1;
    }
    Some(number)
}

/// A COFF file or an image.
pub struct Coff<'a> {
    pub octets: &'a [u8],
    pub header: usize,
    pub large: bool,
    pub image: bool,
}

impl<'a> View for Coff<'a> {
    type V = CoffView;

    open spec fn view(&self) -> CoffView {
        CoffView {
            octets: self.octets@,
            header: self.header as int,
            large: self.large,
            image: self.image,
        }
    }
}

impl<'a> Coff<'a> {
    pub open spec fn has_header(&self) -> bool {
        self@.header_end() <= self.octets@.len() <= usize::MAX
    }

    fn number(&self, at: usize, width: usize) -> (number: u64)
        requires
            at + width <= self.octets@.len(),
            width <= 8,
        ensures
            number == self@.number(at as int, width as nat),
            width == 2 ==> number < 0x1_0000,
            width == 4 ==> number < 0x1_0000_0000,
    {
        read_field(self.octets, at, width, true)
    }

    fn symbols_start(&self) -> (start: u64)
        requires
            self.has_header(),
        ensures
            start == self@.symbols_start(),
            start < 0x1_0000_0000,
    {
        if self.large {
            self.number(48, 4)
        } else {
            self.number(self.header + 8, 4)
        }
    }

    fn symbol_count(&self) -> (count: u64)
        requires
            self.has_header(),
        ensures
            count == self@.symbol_count(),
            count < 0x1_0000_0000,
    {
        if self.large {
            self.number(52, 4)
        } else {
            self.number(self.header + 12, 4)
        }
    }

    fn has_symbols(&self) -> (has: bool)
        requires
            self.has_header(),
        ensures
            has == self@.has_symbols(),
    {
        let start: u64 = self.symbols_start();
        let count: u64 = self.symbol_count();
        let length: u64 = if self.large {
            20 * count
        } else {
            18 * count
        };
        start != 0 && count != 0 && ends_within(start, length, self.octets.len() as u64)
    }

    fn size(&self, at: usize, Ghost(index): Ghost<int>) -> (size: u64)
        requires
            at + 40 <= self.octets@.len() <= usize::MAX,
            at == self@.section_place(index),
        ensures
            size == self@.size(index),
            size < 0x1_0000_0000,
    {
        if self.image {
            self.number(at + 8, 4)
        } else {
            self.number(at + 16, 4)
        }
    }

    fn held(&self, at: usize, Ghost(index): Ghost<int>) -> (held: u64)
        requires
            at + 40 <= self.octets@.len() <= usize::MAX,
            at == self@.section_place(index),
        ensures
            held == self@.held(index),
    {
        let stored: u64 = self.number(at + 16, 4);
        let size: u64 = self.size(at, Ghost(index));
        if size < stored {
            size
        } else {
            stored
        }
    }

    fn function_fits(
        &self,
        place: usize,
        index: usize,
        start: usize,
        count: usize,
    ) -> (fits: bool)
        requires
            self.has_header(),
            place == self@.symbol_place(index as int),
            index < self@.symbol_count(),
            self@.symbol_place(self@.symbol_count() as int) <= self.octets@.len(),
            start == self@.table_start(),
            count == self@.section_count(),
            start + 40 * count <= self.octets@.len(),
        ensures
            fits == self@.function_fits(index as int),
    {
        let width: usize = if self.large {
            20
        } else {
            18
        };
        let end: usize = place + width;
        assert(end == self@.symbol_place(index + 1));
        if self.octets[end - 2] != CLASS_EXTERNAL || self.octets[end - 1] == 0 || (self.number(
            end - 4,
            2,
        ) / 16) % 4 != 2 || index as u64 + 1 >= self.symbol_count() {
            return true;
        }
        assert(end + width == self@.symbol_place(index + 2));
        let section: u64 = if self.large {
            self.number(place + 12, 4)
        } else {
            self.number(place + 12, 2)
        };
        if section == 0 || section > count as u64 {
            return true;
        }
        let at: usize = start + 40 * (section - 1) as usize;
        self.number(place + 8, 4) + self.number(end + 4, 4) <= self.held(
            at,
            Ghost(section - 1),
        )
    }

    fn functions_fit(&self, start: usize, count: usize) -> (fit: bool)
        requires
            self.has_header(),
            self@.has_symbols(),
            start == self@.table_start(),
            count == self@.section_count(),
            start + 40 * count <= self.octets@.len(),
        ensures
            fit == self@.functions_fit(),
    {
        let width: usize = if self.large {
            20
        } else {
            18
        };
        let symbols: usize = self.symbol_count() as usize;
        let mut place: usize = self.symbols_start() as usize;
        let mut index: usize = 0;
        while index < symbols
            invariant
                self.has_header(),
                self@.has_symbols(),
                start == self@.table_start(),
                count == self@.section_count(),
                start + 40 * count <= self.octets@.len(),
                index <= symbols == self@.symbol_count(),
                place == self@.symbol_place(index as int),
                width == if self.large {
                    20int
                } else {
                    18int
                },
                forall|earlier: int|
                    0 <= earlier < index ==> #[trigger] self@.function_fits(earlier),
            decreases symbols - index,
        {
            if !self.function_fits(place, index, start, count) {
                return false;
            }
            place = place + width;
            index = index + 1;
        }
        true
    }

    fn long_name(&self, offset: u64) -> (name: Option<&'a [u8]>)
        requires
            self.has_header(),
            offset < 10_000_000,
        ensures
            match name {
                Some(name) => self@.long_name(offset as nat) == Some(name@),
                None => self@.long_name(offset as nat) is None,
            },
    {
        let total: u64 = self.octets.len() as u64;
        let width: u64 = if self.large {
            20
        } else {
            18
        };
        let first: u64 = self.symbols_start();
        let start: u64 = first + width * self.symbol_count();
        assert(start == self@.names_start());
        if first == 0 || start + 4 > total {
            return None;
        }
        let length: u64 = self.number(start as usize, 4);
        if start + length > total || offset > length {
            return None;
        }
        let at: usize = (start + offset) as usize;
        let end: usize = (start + length) as usize;
        let nul: usize = find_nul(self.octets, at, end);
        if nul == end {
            return None;
        }
        Some(slice_subrange(self.octets, at, nul))
    }

    fn section_name(&self, at: usize, Ghost(index): Ghost<int>) -> (name: Option<&'a [u8]>)
        requires
            self.has_header(),
            at + 40 <= self.octets@.len(),
            at == self@.section_place(index),
        ensures
            match name {
                Some(name) => self@.section_name(index) == Some(name@),
                None => self@.section_name(index) is None,
            },
    {
        if self.octets[at] != SLASH {
            let nul: usize = find_nul(self.octets, at, at + 8);
            return Some(slice_subrange(self.octets, at, nul));
        }
        match read_told_number(self.octets, at + 1) {
            Some(offset) => self.long_name(offset),
            None => None,
        }
    }

    fn is_telling(&self, at: usize, symbols: bool, Ghost(index): Ghost<int>) -> (telling: bool)
        requires
            self.has_header(),
            at + 40 <= self.octets@.len(),
            at == self@.section_place(index),
            symbols == self@.has_symbols(),
        ensures
            telling == self@.is_telling(index),
    {
        if self.octets[at] == SLASH && self.octets[at + 1] == SLASH {
            return true;
        }
        match self.section_name(at, Ghost(index)) {
            Some(name) => starts_with(name, ".BTF") || (starts_with(name, ".bss") && self.size(
                at,
                Ghost(index),
            ) > isize::MAX as u64) || (symbols && (starts_with(name, "maps") || names_programs(
                name,
            ))),
            None => false,
        }
    }

    fn is_too_high(&self) -> (high: bool)
        requires
            self.has_header(),
            !self.large || !self.image,
        ensures
            high == self@.is_too_high(),
    {
        self.image && self.octets.len() - self.header >= 52 && self.number(self.header + 20, 2)
            == WIDE_IMAGE && self.number(self.header + 44, 8) > u64::MAX - FARTHEST
    }

    /// Whether nothing in the file could be taken for a program, a map or type information, as far
    /// as it can be read.
    pub fn fits(&self) -> (fits: bool)
        requires
            !self.large || !self.image,
            self.header <= self.octets@.len(),
        ensures
            fits == self@.fits(),
    {
        let total: usize = self.octets.len();
        if (self.large && total < 56) || (!self.large && total - self.header < 20) {
            return true;
        }
        let count: u64 = if self.large {
            self.number(44, 4)
        } else {
            self.number(self.header + 2, 2)
        };
        let skipped: u64 = if self.large {
            0
        } else {
            self.number(self.header + 16, 2)
        };
        let header_end: usize = if self.large {
            56
        } else {
            self.header + 20
        };
        if skipped > (total - header_end) as u64 {
            return true;
        }
        let start: u64 = header_end as u64 + skipped;
        if !ends_within(start, 40 * count, total as u64) {
            return true;
        }
        let symbols = self.has_symbols();
        let start: usize = start as usize;
        let count: usize = count as usize;
        let mut index: usize = 0;
        while index < count
            invariant
                self.has_header(),
                index <= count == self@.section_count(),
                start == self@.table_start(),
                start + 40 * count <= total == self.octets@.len(),
                symbols == self@.has_symbols(),
                forall|earlier: int|
                    0 <= earlier < index ==> !#[trigger] self@.is_telling(earlier),
            decreases count - index,
        {
            let at: usize = start + 40 * index;
            if self.is_telling(at, symbols, Ghost(index as int)) {
                assert(self@.has_telling_sections());
                return false;
            }
            index = index + 1;
        }
        !symbols || (self.functions_fit(start, count) && !self.is_too_high())
    }
}

} // verus!
