//! Which XCOFF files hold nothing that could be taken for a program, a map or type information.
use vstd::prelude::*;
use vstd::slice::slice_subrange;

use crate::octets::{starts_with, starts_with_text};

use super::octet_fields::{ends_within, field, find_nul, nul_place, read_field};
use super::program_names::{is_program_name, names_programs};

verus! {

/// The classes of symbols that can have a size.
pub const CLASS_EXTERNAL: u8 = 2;

pub const CLASS_HIDDEN: u8 = 107;

pub const CLASS_WEAK: u8 = 111;

/// An XCOFF file: its octets and its class.
#[verifier::ext_equal]
pub struct XcoffView {
    pub octets: Seq<u8>,
    pub wide: bool,
}

impl XcoffView {
    pub open spec fn number(self, at: int, width: nat) -> nat {
        field(self.octets, at, width, false)
    }

    pub open spec fn either(self, wide: int, narrow: int) -> int {
        if self.wide {
            wide
        } else {
            narrow
        }
    }

    /// The number of as many octets as an address.
    pub open spec fn word(self, at: int) -> nat {
        self.number(
            at,
            if self.wide {
                8
            } else {
                4
            },
        )
    }

    pub open spec fn header_end(self) -> int {
        self.either(24, 20)
    }

    pub open spec fn section_count(self) -> nat {
        self.number(2, 2)
    }

    pub open spec fn section_place(self, index: int) -> int {
        self.header_end() + self.number(16, 2) + self.either(72 * index, 40 * index)
    }

    pub open spec fn symbols_start(self) -> nat {
        self.word(8)
    }

    pub open spec fn symbol_count(self) -> nat {
        self.number(self.either(20, 12), 4)
    }

    pub open spec fn symbol_place(self, index: int) -> int {
        self.symbols_start() + 18 * index
    }

    /// Whether there are symbols that can be read.
    pub open spec fn has_symbols(self) -> bool {
        &&& self.symbols_start() != 0
        &&& self.symbol_count() != 0
        &&& self.symbol_place(self.symbol_count() as int) <= self.octets.len()
    }

    pub open spec fn address(self, index: int) -> nat {
        self.word(self.section_place(index) + 8)
    }

    pub open spec fn size(self, index: int) -> nat {
        self.word(self.section_place(index) + self.either(24, 16))
    }

    pub open spec fn section_name(self, index: int) -> Seq<u8> {
        let at = self.section_place(index);
        self.octets.subrange(at, nul_place(self.octets, at, at + 8))
    }

    /// Whether a section could be taken for one that holds programs, maps or types, or lies too
    /// high for its functions to be found. Programs and maps need symbols.
    pub open spec fn is_telling(self, index: int) -> bool {
        let name = self.section_name(index);
        ||| starts_with_text(name, ".BTF"@)
        ||| self.has_symbols() && {
            ||| starts_with_text(name, "maps"@)
            ||| is_program_name(name)
            ||| starts_with_text(name, ".text"@) && self.address(index) + self.size(index)
                > u64::MAX
        }
    }

    pub open spec fn has_telling_sections(self) -> bool {
        exists|index: int| 0 <= index < self.section_count() && #[trigger] self.is_telling(index)
    }

    /// Whether a symbol may have a size, which is told in the last entry that belongs to it.
    pub open spec fn has_size(self, index: int) -> bool {
        let at = self.symbol_place(index);
        let class = self.octets[at + 16];
        &&& class == CLASS_EXTERNAL || class == CLASS_HIDDEN || class == CLASS_WEAK
        &&& self.octets[at + 17] > 0
        &&& index + self.octets[at + 17] < self.symbol_count()
    }

    pub open spec fn symbol_size(self, index: int) -> nat {
        let at = self.symbol_place(index + self.octets[self.symbol_place(index) + 17]);
        if self.wide {
            self.number(at, 4) + 0x1_0000_0000 * self.number(at + 12, 4)
        } else {
            self.number(at, 4)
        }
    }

    pub open spec fn symbol_value(self, index: int) -> nat {
        let at = self.symbol_place(index);
        if self.wide {
            self.number(at, 8)
        } else {
            self.number(at + 8, 4)
        }
    }

    /// Whether a symbol, if it may have a size, ends no later than its section.
    pub open spec fn symbol_fits(self, index: int) -> bool {
        let section = self.number(self.symbol_place(index) + 12, 2) - 1;
        self.has_size(index) && 0 <= section < self.section_count() && starts_with_text(
            self.section_name(section),
            ".text"@,
        ) ==> self.symbol_value(index) + self.symbol_size(index) <= self.address(section)
            + self.size(section)
    }

    pub open spec fn symbols_fit(self) -> bool {
        forall|index: int| 0 <= index < self.symbol_count() ==> #[trigger] self.symbol_fits(index)
    }

    /// Whether nothing in the file could be taken for a program, a map or type information, as far
    /// as it can be read.
    pub open spec fn fits(self) -> bool {
        self.header_end() > self.octets.len() || self.section_place(self.section_count() as int)
            > self.octets.len() || (!self.has_telling_sections() && (self.has_symbols()
            ==> self.symbols_fit()))
    }
}

/// An XCOFF file.
pub struct Xcoff<'a> {
    pub octets: &'a [u8],
    pub wide: bool,
}

impl<'a> View for Xcoff<'a> {
    type V = XcoffView;

    open spec fn view(&self) -> XcoffView {
        XcoffView { octets: self.octets@, wide: self.wide }
    }
}

impl<'a> Xcoff<'a> {
    pub open spec fn has_table(&self) -> bool {
        &&& self@.header_end() <= self.octets@.len() <= usize::MAX
        &&& self@.section_place(self@.section_count() as int) <= self.octets@.len()
    }

    fn number(&self, at: usize, width: usize) -> (number: u64)
        requires
            at + width <= self.octets@.len(),
            width <= 8,
        ensures
            number == self@.number(at as int, width as nat),
            width == 2 ==> number < 0x1_0000,
            width == 4 ==> number < 0x1_0000_0000,
    {
        read_field(self.octets, at, width, false)
    }

    fn word(&self, at: usize) -> (number: u64)
        requires
            at + self@.either(8, 4) <= self.octets@.len(),
        ensures
            number == self@.word(at as int),
    {
        if self.wide {
            self.number(at, 8)
        } else {
            self.number(at, 4)
        }
    }

    fn section_count(&self) -> (count: usize)
        requires
            self@.header_end() <= self.octets@.len(),
        ensures
            count == self@.section_count(),
            count < 0x1_0000,
    {
        self.number(2, 2) as usize
    }

    fn section_place(&self, index: usize) -> (place: usize)
        requires
            self.has_table(),
            index < self@.section_count(),
        ensures
            place == self@.section_place(index as int),
            place + self@.either(72, 40) <= self.octets@.len(),
    {
        let skipped: usize = self.number(16, 2) as usize;
        if self.wide {
            24 + skipped + 72 * index
        } else {
            20 + skipped + 40 * index
        }
    }

    fn symbol_count(&self) -> (count: u64)
        requires
            self@.header_end() <= self.octets@.len(),
        ensures
            count == self@.symbol_count(),
            count < 0x1_0000_0000,
    {
        if self.wide {
            self.number(20, 4)
        } else {
            self.number(12, 4)
        }
    }

    fn has_symbols(&self) -> (has: bool)
        requires
            self@.header_end() <= self.octets@.len(),
        ensures
            has == self@.has_symbols(),
    {
        let start: u64 = self.word(8);
        let count: u64 = self.symbol_count();
        start != 0 && count != 0 && ends_within(start, 18 * count, self.octets.len() as u64)
    }

    fn section_name(&self, index: usize) -> (name: &'a [u8])
        requires
            self.has_table(),
            index < self@.section_count(),
        ensures
            name@ == self@.section_name(index as int),
    {
        let at: usize = self.section_place(index);
        let nul: usize = find_nul(self.octets, at, at + 8);
        slice_subrange(self.octets, at, nul)
    }

    fn address(&self, index: usize) -> (address: u64)
        requires
            self.has_table(),
            index < self@.section_count(),
        ensures
            address == self@.address(index as int),
    {
        self.word(self.section_place(index) + 8)
    }

    fn size(&self, index: usize) -> (size: u64)
        requires
            self.has_table(),
            index < self@.section_count(),
        ensures
            size == self@.size(index as int),
    {
        let at: usize = self.section_place(index);
        if self.wide {
            self.word(at + 24)
        } else {
            self.word(at + 16)
        }
    }

    fn is_telling(&self, index: usize, symbols: bool) -> (telling: bool)
        requires
            self.has_table(),
            index < self@.section_count(),
            symbols == self@.has_symbols(),
        ensures
            telling == self@.is_telling(index as int),
    {
        let name = self.section_name(index);
        starts_with(name, ".BTF") || (symbols && (starts_with(name, "maps") || names_programs(name)
            || (starts_with(name, ".text") && self.address(index).checked_add(
            self.size(index),
        ).is_none())))
    }

    fn symbol_fits(&self, index: usize) -> (fits: bool)
        requires
            self.has_table(),
            self@.has_symbols(),
            index < self@.symbol_count(),
        ensures
            fits == self@.symbol_fits(index as int),
    {
        let count: u64 = self.symbol_count();
        let start: usize = self.word(8) as usize;
        let at: usize = start + 18 * index;
        let class: u8 = self.octets[at + 16];
        let more: usize = self.octets[at + 17] as usize;
        if (class != CLASS_EXTERNAL && class != CLASS_HIDDEN && class != CLASS_WEAK) || more == 0
            || index as u64 + more as u64 >= count {
            return true;
        }
        let section: usize = self.number(at + 12, 2) as usize;
        if section == 0 || section > self.section_count() {
            return true;
        }
        if !starts_with(self.section_name(section - 1), ".text") {
            return true;
        }
        let last: usize = start + 18 * (index + more);
        let size: u64 = if self.wide {
            self.number(last, 4) + 0x1_0000_0000 * self.number(last + 12, 4)
        } else {
            self.number(last, 4)
        };
        let value: u64 = if self.wide {
            self.number(at, 8)
        } else {
            self.number(at + 8, 4)
        };
        value as u128 + size as u128 <= self.address(section - 1) as u128 + self.size(
            section - 1,
        ) as u128
    }

    fn symbols_fit(&self) -> (fit: bool)
        requires
            self.has_table(),
            self@.has_symbols(),
        ensures
            fit == self@.symbols_fit(),
    {
        let count: usize = self.symbol_count() as usize;
        let mut index: usize = 0;
        while index < count
            invariant
                self.has_table(),
                self@.has_symbols(),
                index <= count == self@.symbol_count(),
                forall|earlier: int|
                    0 <= earlier < index ==> #[trigger] self@.symbol_fits(earlier),
            decreases count - index,
        {
            if !self.symbol_fits(index) {
                return false;
            }
            index = index + 1;
        }
        true
    }

    /// Whether nothing in the file could be taken for a program, a map or type information, as far
    /// as it can be read.
    pub fn fits(&self) -> (fits: bool)
        ensures
            fits == self@.fits(),
    {
        let total: usize = self.octets.len();
        if total < 20 || (self.wide && total < 24) {
            return true;
        }
        let count: usize = self.section_count();
        let skipped: usize = self.number(16, 2) as usize;
        let end: usize = if self.wide {
            24 + skipped + 72 * count
        } else {
            20 + skipped + 40 * count
        };
        if end > total {
            return true;
        }
        let symbols = self.has_symbols();
        let mut index: usize = 0;
        while index < count
            invariant
                self.has_table(),
                index <= count == self@.section_count(),
                symbols == self@.has_symbols(),
                forall|earlier: int|
                    0 <= earlier < index ==> !#[trigger] self@.is_telling(earlier),
            decreases count - index,
        {
            if self.is_telling(index, symbols) {
                assert(self@.has_telling_sections());
                return false;
            }
            index = index + 1;
        }
        !symbols || self.symbols_fit()
    }
}

} // verus!
