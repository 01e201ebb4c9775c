//! How an ELF file has to be laid out for its parts to lie inside of it.
//!
//! Its symbols tell where programs and maps lie in their sections, and its type information (the
//! sections `.BTF` and `.BTF.ext`) tells where records and names lie. What is read by such a place
//! has to be there. What else is wrong with a file is found out, and refused, on the way.
use vstd::prelude::*;
use vstd::slice::slice_subrange;
use vstd::utf8::encode_utf8;

use crate::octets::{starts_with, starts_with_text};

use super::octet_fields::{ends_within, field, find_nul, nul_place, read_field, Reading};
use super::program_names::{is_program_name, names_programs};
use super::type_layout::{are_places, is_text, Types, TypesView, LARGEST_NUMBER};

verus! {

pub const SECTION_TYPE_PROGRAM: u64 = 1;

pub const SECTION_TYPE_SYMBOLS: u64 = 2;

pub const SECTION_TYPE_STRINGS: u64 = 3;

pub const SECTION_TYPE_NO_OCTETS: u64 = 8;

/// A section with the numbers of sections that are too large for a symbol.
pub const SECTION_TYPE_NUMBERS: u64 = 18;

/// The first section number that stands for something else than a section.
pub const FIRST_RESERVED_SECTION: u64 = 0xff00;

/// The number that stands for one that is told elsewhere.
pub const TOLD_ELSEWHERE: u64 = 0xffff;

pub const SYMBOL_TYPE_FUNCTION: u64 = 2;

/// A function that tells which other one to call.
pub const SYMBOL_TYPE_INDIRECT: u64 = 10;

/// The least octets of the definition of a map.
pub const SMALLEST_MAP: u64 = 20;

/// Where the definition of a map tells how to pin it.
pub const PINNING_PLACE: u64 = 24;

/// A symbol: the number of its section, which is zero where it has none, and where it lies in
/// there.
#[derive(Debug, Clone, Copy)]
pub struct Symbol {
    pub section: u64,
    pub kind: u64,
    pub value: u64,
    pub size: u64,
    pub is_named: bool,
}

/// An ELF file. `little` and `wide` tell its order and its class, and `native` tells the order of
/// the machine.
#[verifier::ext_equal]
pub struct ElfView {
    pub octets: Seq<u8>,
    pub little: bool,
    pub wide: bool,
    pub native: bool,
}

/// Whether a symbol is a function of a section that begins at an address.
pub open spec fn is_function_at(symbol: Symbol, section: int, address: int) -> bool {
    symbol.kind == SYMBOL_TYPE_FUNCTION && symbol.section == section && symbol.value == address
}

/// The first function of a section that begins at an address, from one symbol on.
pub open spec fn function_at(
    symbols: Seq<Symbol>,
    from: int,
    section: int,
    address: int,
) -> Option<Symbol>
    decreases symbols.len() - from,
{
    if from >= symbols.len() {
        None
    } else if is_function_at(symbols[from], section, address) {
        Some(symbols[from])
    } else {
        function_at(symbols, from + 1, section, address)
    }
}

/// Whether two functions of a section begin at the same address.
pub open spec fn has_conflict(symbols: Seq<Symbol>, section: int) -> bool {
    exists|first: int, second: int|
        0 <= first < second < symbols.len() && is_function_at(
            #[trigger] symbols[first],
            section,
            symbols[second].value as int,
        ) && is_function_at(#[trigger] symbols[second], section, symbols[second].value as int)
}

pub open spec fn has_symbols(symbols: Seq<Symbol>, section: int) -> bool {
    exists|index: int| 0 <= index < symbols.len() && #[trigger] symbols[index].section == section
}

impl ElfView {
    pub open spec fn number(self, at: int, width: nat) -> nat {
        field(self.octets, at, width, self.little)
    }

    pub open spec fn either(self, wide: int, narrow: int) -> int {
        if self.wide {
            wide
        } else {
            narrow
        }
    }

    /// The number of as many octets as an address.
    pub open spec fn word(self, at: int) -> nat {
        self.number(
            at,
            if self.wide {
                8
            } else {
                4
            },
        )
    }

    pub open spec fn header_length(self) -> int {
        self.either(64, 52)
    }

    /// Whether the table of what is to be loaded, if there is one, lies inside the file.
    pub open spec fn programs_fit(self) -> bool {
        let start = self.word(self.either(32, 28));
        let count = self.number(self.either(56, 44), 2);
        start == 0 || count == 0 || count == TOLD_ELSEWHERE || {
            &&& self.number(self.either(54, 42), 2) == self.either(56, 32)
            &&& start + self.either(56 * count as int, 32 * count as int) <= self.octets.len()
        }
    }

    pub open spec fn header_fits(self) -> bool {
        &&& self.octets.len() >= self.header_length()
        &&& self.octets[5] == 1 || self.octets[5] == 2
        &&& self.octets[6] == 1
        &&& self.programs_fit()
    }

    pub open spec fn table_start(self) -> nat {
        self.word(self.either(40, 32))
    }

    pub open spec fn section_place(self, index: int) -> int {
        self.table_start() + self.either(64 * index, 40 * index)
    }

    pub open spec fn section_count(self) -> nat {
        let count = self.number(self.either(60, 48), 2);
        if count > 0 {
            count
        } else {
            self.size(0)
        }
    }

    /// The section that holds the names of the sections.
    pub open spec fn names_section(self) -> nat {
        let index = self.number(self.either(62, 50), 2);
        if index == TOLD_ELSEWHERE {
            self.link(0)
        } else {
            index
        }
    }

    /// Whether there are sections, and their table can be read.
    pub open spec fn has_sections(self) -> bool {
        &&& self.octets.len() >= self.header_length()
        &&& self.table_start() != 0
        &&& self.number(self.either(58, 46), 2) == self.either(64, 40)
        &&& self.section_place(1) <= self.octets.len()
        &&& self.section_place(self.section_count() as int) <= self.octets.len()
        &&& 0 < self.names_section() < self.section_count()
    }

    pub open spec fn name_place(self, index: int) -> nat {
        self.number(self.section_place(index), 4)
    }

    pub open spec fn kind(self, index: int) -> nat {
        self.number(self.section_place(index) + 4, 4)
    }

    pub open spec fn flags(self, index: int) -> nat {
        self.word(self.section_place(index) + 8)
    }

    pub open spec fn address(self, index: int) -> nat {
        self.word(self.section_place(index) + self.either(16, 12))
    }

    pub open spec fn start(self, index: int) -> nat {
        self.word(self.section_place(index) + self.either(24, 16))
    }

    pub open spec fn size(self, index: int) -> nat {
        self.word(self.section_place(index) + self.either(32, 20))
    }

    pub open spec fn link(self, index: int) -> nat {
        self.number(self.section_place(index) + self.either(40, 24), 4)
    }

    pub open spec fn holds_octets(self, index: int) -> bool {
        self.kind(index) != SECTION_TYPE_NO_OCTETS
    }

    pub open spec fn is_inside(self, index: int) -> bool {
        self.holds_octets(index) ==> self.start(index) + self.size(index) <= self.octets.len()
    }

    /// Where the octets of a section begin, if it holds some.
    pub open spec fn begin(self, index: int) -> nat {
        if self.holds_octets(index) {
            self.start(index)
        } else {
            0
        }
    }

    /// How many octets of the file belong to a section.
    pub open spec fn held(self, index: int) -> nat {
        if self.holds_octets(index) {
            self.size(index)
        } else {
            0
        }
    }

    /// The text at a place of a section of texts, if it can be read.
    pub open spec fn text(self, section: int, offset: nat) -> Option<Seq<u8>> {
        let from = self.start(section) + offset;
        let end = self.start(section) + self.size(section);
        let nul = nul_place(self.octets, from as int, end as int);
        if !self.holds_octets(section) || end > self.octets.len() || from > end || nul == end {
            None
        } else {
            Some(self.octets.subrange(from as int, nul))
        }
    }

    pub open spec fn section_name(self, index: int) -> Option<Seq<u8>> {
        self.text(self.names_section() as int, self.name_place(index))
    }

    /// The first section of a kind, from one on.
    pub open spec fn first_of_kind(self, from: int, kind: nat) -> Option<int>
        decreases self.section_count() - from,
    {
        if from >= self.section_count() {
            None
        } else if self.kind(from) == kind {
            Some(from)
        } else {
            self.first_of_kind(from + 1, kind)
        }
    }

    pub open spec fn symbols_section(self) -> Option<int> {
        self.first_of_kind(0, SECTION_TYPE_SYMBOLS as nat)
    }

    /// Whether a section holds the numbers of sections for the symbols of another one.
    pub open spec fn holds_numbers_for(self, index: int, table: int) -> bool {
        self.kind(index) == SECTION_TYPE_NUMBERS && self.link(index) == table
    }

    /// The last section, before one, with the numbers of sections for the symbols of another one.
    pub open spec fn last_numbers(self, table: int, before: int) -> Option<int>
        decreases before,
    {
        if before <= 0 {
            None
        } else if self.holds_numbers_for(before - 1, table) {
            Some(before - 1)
        } else {
            self.last_numbers(table, before - 1)
        }
    }

    pub open spec fn numbers_are_inside(self, table: int) -> bool {
        forall|index: int|
            0 <= index < self.section_count() && #[trigger] self.holds_numbers_for(index, table)
                ==> self.is_inside(index)
    }

    /// Whether the symbols and all that goes with them can be read.
    pub open spec fn table_is_readable(self, table: int) -> bool {
        &&& self.is_inside(table)
        &&& self.link(table) == 0 || (self.link(table) < self.section_count() && self.kind(
            self.link(table) as int,
        ) == SECTION_TYPE_STRINGS)
        &&& self.numbers_are_inside(table)
    }

    pub open spec fn symbol_count(self, table: int) -> nat {
        if self.wide {
            self.size(table) / 24
        } else {
            self.size(table) / 16
        }
    }

    pub open spec fn symbol_place(self, table: int, index: int) -> int {
        self.start(table) + self.either(24 * index, 16 * index)
    }

    pub open spec fn symbol_name(self, table: int, index: int) -> Option<Seq<u8>> {
        if self.link(table) == 0 {
            None
        } else {
            self.text(self.link(table) as int, self.number(self.symbol_place(table, index), 4))
        }
    }

    pub open spec fn symbol_names_are_readable(self, table: int) -> bool {
        forall|index: int|
            1 <= index < self.symbol_count(table) ==> #[trigger] self.symbol_name(
                table,
                index,
            ) is Some
    }

    /// The number of the section of a symbol that is told elsewhere, or zero.
    pub open spec fn number_told_elsewhere(self, table: int, index: int) -> nat {
        match self.last_numbers(table, self.section_count() as int) {
            Some(numbers) => if index < self.size(numbers) / 4 {
                self.number(self.start(numbers) + 4 * index, 4)
            } else {
                0
            },
            None => 0,
        }
    }

    pub open spec fn symbol_section(self, table: int, index: int) -> nat {
        let told = self.number(self.symbol_place(table, index) + self.either(6, 14), 2);
        if told == TOLD_ELSEWHERE {
            self.number_told_elsewhere(table, index)
        } else if told >= FIRST_RESERVED_SECTION {
            0
        } else {
            told
        }
    }

    pub open spec fn symbol(self, table: int, index: int) -> Symbol {
        let at = self.symbol_place(table, index);
        Symbol {
            section: self.symbol_section(table, index) as u64,
            kind: (self.octets[at + self.either(4, 12)] % 16) as u64,
            value: self.word(at + self.either(8, 4)) as u64,
            size: self.word(at + self.either(16, 8)) as u64,
            is_named: self.symbol_name(table, index) matches Some(name) && name.len() > 0,
        }
    }

    /// The symbols of the file. The first entry of their table is none.
    pub open spec fn symbols(self) -> Seq<Symbol> {
        match self.symbols_section() {
            Some(table) if self.symbol_count(table) > 0 => Seq::new(
                (self.symbol_count(table) - 1) as nat,
                |index: int| self.symbol(table, index + 1),
            ),
            _ => Seq::empty(),
        }
    }

    pub open spec fn symbols_are_readable(self) -> bool {
        match self.symbols_section() {
            Some(table) => self.table_is_readable(table) && self.symbol_names_are_readable(table),
            None => true,
        }
    }

    /// The first section with a name, from one on.
    pub open spec fn first_named(self, from: int, name: Seq<u8>) -> Option<int>
        decreases self.section_count() - from,
    {
        if from >= self.section_count() {
            None
        } else if self.section_name(from) == Some(name) {
            Some(from)
        } else {
            self.first_named(from + 1, name)
        }
    }

    pub open spec fn types_section(self) -> Option<int> {
        self.first_named(0, encode_utf8(".BTF"@))
    }

    pub open spec fn records_section(self) -> Option<int> {
        self.first_named(0, encode_utf8(".BTF.ext"@))
    }

    pub open spec fn types(self, index: int) -> TypesView {
        TypesView {
            octets: self.octets,
            at: self.begin(index) as int,
            length: self.held(index) as int,
            native: self.native,
            little: self.little,
        }
    }

    /// How the reading of the types goes, and of the records that go with them.
    pub open spec fn types_reading(self) -> Reading {
        match self.types_section() {
            Some(index) => if !self.is_inside(index) {
                Reading::Refused
            } else {
                self.types(index).types_reading().and(self.records_reading(index))
            },
            None => Reading::Through,
        }
    }

    pub open spec fn records_reading(self, types: int) -> Reading {
        match self.records_section() {
            Some(index) => if !self.is_inside(index) {
                Reading::Refused
            } else {
                self.types(types).records_reading(
                    self.begin(index) as int,
                    self.held(index) as int,
                )
            },
            None => Reading::Through,
        }
    }

    /// How the reading of a program goes, which lies where its symbol tells.
    pub open spec fn program_reading(self, section: int, symbol: Symbol) -> Reading {
        if symbol.section != section || !symbol.is_named || (symbol.kind != SYMBOL_TYPE_FUNCTION
            && symbol.kind != SYMBOL_TYPE_INDIRECT) {
            Reading::Through
        } else if symbol.value < self.address(section) || symbol.value + symbol.size > self.held(
            section,
        ) {
            Reading::Outside
        } else if symbol.size % 8 != 0 {
            Reading::Refused
        } else {
            Reading::Through
        }
    }

    pub open spec fn programs_reading(
        self,
        symbols: Seq<Symbol>,
        from: int,
        section: int,
    ) -> Reading
        decreases symbols.len() - from,
    {
        if from >= symbols.len() {
            Reading::Through
        } else {
            self.program_reading(section, symbols[from]).and(
                self.programs_reading(symbols, from + 1, section),
            )
        }
    }

    /// How a map is to be pinned, by its definition of so many octets.
    pub open spec fn pinning(self, at: int, size: nat) -> nat {
        field(
            Seq::new(
                4,
                |index: int|
                    if PINNING_PLACE + index < size {
                        self.octets[at + PINNING_PLACE + index]
                    } else {
                        0
                    },
            ),
            0,
            4,
            self.native,
        )
    }

    /// How the reading of the definition of a map goes, which lies where its symbol tells. There
    /// are two ways to pin a map.
    pub open spec fn map_reading(self, section: int, symbol: Symbol) -> Reading {
        if symbol.section != section {
            Reading::Through
        } else if symbol.value + symbol.size > self.held(section) {
            Reading::Outside
        } else if symbol.size < SMALLEST_MAP {
            Reading::Refused
        } else if self.pinning(self.begin(section) + symbol.value, symbol.size as nat) > 1 {
            Reading::Outside
        } else {
            Reading::Through
        }
    }

    pub open spec fn maps_reading(self, symbols: Seq<Symbol>, from: int, section: int) -> Reading
        decreases symbols.len() - from,
    {
        if from >= symbols.len() {
            Reading::Through
        } else {
            self.map_reading(section, symbols[from]).and(
                self.maps_reading(symbols, from + 1, section),
            )
        }
    }

    /// How the reading of functions goes that follow each other in a section, from a place on.
    pub open spec fn functions_reading(
        self,
        symbols: Seq<Symbol>,
        section: int,
        offset: int,
    ) -> Reading
        decreases self.held(section) - offset,
    {
        if offset >= self.held(section) {
            Reading::Through
        } else if self.address(section) + offset > u64::MAX {
            Reading::Outside
        } else {
            match function_at(symbols, 0, section, self.address(section) + offset) {
                Some(symbol) => if symbol.size == 0 {
                    Reading::Refused
                } else if offset + symbol.size > self.held(section) {
                    Reading::Outside
                } else if symbol.size % 8 != 0 {
                    Reading::Refused
                } else {
                    self.functions_reading(symbols, section, offset + symbol.size)
                },
                None => Reading::Refused,
            }
        }
    }

    /// How the reading of a section goes by the kind that its name tells.
    pub open spec fn content_reading(
        self,
        symbols: Seq<Symbol>,
        index: int,
        name: Seq<u8>,
    ) -> Reading {
        if starts_with_text(name, "license"@) || starts_with_text(name, "version"@) {
            Reading::Through
        } else if starts_with_text(name, "maps"@) {
            if has_symbols(symbols, index) {
                self.maps_reading(symbols, 0, index)
            } else {
                Reading::Refused
            }
        } else if starts_with_text(name, ".maps"@) {
            self.typed_maps_reading(symbols, index, name)
        } else if starts_with_text(name, ".text"@) {
            let reading = self.functions_reading(symbols, index, 0);
            if reading == Reading::Outside && has_conflict(symbols, index) {
                Reading::Refused
            } else {
                reading
            }
        } else if starts_with_text(name, ".bss"@) {
            if self.size(index) > LARGEST_NUMBER || self.size(index) > isize::MAX {
                Reading::Outside
            } else {
                Reading::Through
            }
        } else if starts_with_text(name, ".data"@) || starts_with_text(name, ".rodata"@)
            || !self.is_executable(index) {
            Reading::Through
        } else if is_program_name(name) && has_symbols(symbols, index) {
            self.programs_reading(symbols, 0, index)
        } else {
            Reading::Refused
        }
    }

    pub open spec fn is_executable(self, index: int) -> bool {
        &&& self.kind(index) == SECTION_TYPE_PROGRAM
        &&& (self.flags(index) / 2) % 4 == 3
        &&& self.size(index) > 0
    }

    pub open spec fn typed_maps_reading(
        self,
        symbols: Seq<Symbol>,
        index: int,
        name: Seq<u8>,
    ) -> Reading {
        match self.types_section() {
            Some(types) => if !has_symbols(symbols, index) {
                Reading::Refused
            } else if !self.types(types).section_fits(name) {
                Reading::Outside
            } else {
                Reading::Through
            },
            None => Reading::Refused,
        }
    }

    /// How the reading of a section goes. The sections of the types are read before.
    pub open spec fn section_reading(self, symbols: Seq<Symbol>, index: int) -> Reading {
        match self.section_name(index) {
            Some(name) => if name == encode_utf8(".BTF"@) || name == encode_utf8(".BTF.ext"@) {
                Reading::Through
            } else if !self.is_inside(index) {
                Reading::Refused
            } else {
                self.content_reading(symbols, index, name)
            },
            None => Reading::Refused,
        }
    }

    pub open spec fn sections_reading(self, symbols: Seq<Symbol>, from: int) -> Reading
        decreases self.section_count() - from,
    {
        if from >= self.section_count() {
            Reading::Through
        } else {
            self.section_reading(symbols, from).and(self.sections_reading(symbols, from + 1))
        }
    }

    /// How the reading of the whole file goes. Without a table of sections nothing more is read, and
    /// the first entry of the table is none.
    pub open spec fn reading(self) -> Reading {
        if !self.header_fits() {
            Reading::Refused
        } else if !self.has_sections() {
            Reading::Through
        } else if !self.symbols_are_readable() {
            Reading::Refused
        } else {
            self.types_reading().and(self.sections_reading(self.symbols(), 1))
        }
    }
}

/// An ELF file.
pub struct Elf<'a> {
    pub octets: &'a [u8],
    pub little: bool,
    pub wide: bool,
    pub native: bool,
}

impl<'a> View for Elf<'a> {
    type V = ElfView;

    open spec fn view(&self) -> ElfView {
        ElfView {
            octets: self.octets@,
            little: self.little,
            wide: self.wide,
            native: self.native,
        }
    }
}

impl<'a> Elf<'a> {
    fn either(&self, wide: usize, narrow: usize) -> (chosen: usize)
        ensures
            chosen == self@.either(wide as int, narrow as int),
    {
        if self.wide {
            wide
        } else {
            narrow
        }
    }

    fn word(&self, at: usize) -> (number: u64)
        requires
            at + self@.either(8, 4) <= self.octets@.len(),
        ensures
            number == self@.word(at as int),
            !self.wide ==> number < 0x1_0000_0000,
    {
        read_field(self.octets, at, self.either(8, 4), self.little)
    }

    fn half(&self, at: usize) -> (number: u64)
        requires
            at + 2 <= self.octets@.len(),
        ensures
            number == self@.number(at as int, 2),
            number < 0x1_0000,
    {
        read_field(self.octets, at, 2, self.little)
    }

    fn header_fits(&self) -> (fits: bool)
        ensures
            fits == self@.header_fits(),
    {
        if self.octets.len() < self.either(64, 52) {
            return false;
        }
        if (self.octets[5] != 1 && self.octets[5] != 2) || self.octets[6] != 1 {
            return false;
        }
        let start: u64 = self.word(self.either(32, 28));
        let count: u64 = self.half(self.either(56, 44));
        if start == 0 || count == 0 || count == TOLD_ELSEWHERE {
            return true;
        }
        let length: u64 = if self.wide {
            56 * count
        } else {
            32 * count
        };
        self.half(self.either(54, 42)) == self.either(56, 32) as u64 && ends_within(
            start,
            length,
            self.octets.len() as u64,
        )
    }

    /// The sections of the file, if there are some.
    fn sections(self) -> (sections: Option<Sections<'a>>)
        ensures
            match sections {
                Some(sections) => sections@ == self@ && sections.fits(),
                None => !self@.has_sections(),
            },
    {
        let total: u64 = self.octets.len() as u64;
        if self.octets.len() < self.either(64, 52) {
            return None;
        }
        let entry: usize = self.either(64, 40);
        let table: u64 = self.word(self.either(40, 32));
        if table == 0 || self.half(self.either(58, 46)) != entry as u64 || !ends_within(
            table,
            entry as u64,
            total,
        ) {
            return None;
        }
        let table: usize = table as usize;
        let told: u64 = self.half(self.either(60, 48));
        let count: u64 = if told > 0 {
            told
        } else {
            self.word(table + self.either(32, 20))
        };
        let rest: u64 = total - table as u64;
        if count > rest / (entry as u64) {
            proof {
                assert(self@.section_count() == count);
                if self.wide {
                    assert(64 * count > rest);
                } else {
                    assert(40 * count > rest);
                }
            }
            return None;
        }
        let told: u64 = self.half(self.either(62, 50));
        let names: u64 = if told == TOLD_ELSEWHERE {
            read_field(self.octets, table + self.either(40, 24), 4, self.little)
        } else {
            told
        };
        if names == 0 || names >= count {
            return None;
        }
        Some(
            Sections { elf: self, table, count: count as usize, names: names as usize },
        )
    }
}

/// An ELF file, where its sections are, how many there are, and which one holds their names.
pub struct Sections<'a> {
    pub elf: Elf<'a>,
    pub table: usize,
    pub count: usize,
    pub names: usize,
}

impl<'a> View for Sections<'a> {
    type V = ElfView;

    open spec fn view(&self) -> ElfView {
        self.elf@
    }
}

impl<'a> Sections<'a> {
    pub open spec fn fits(&self) -> bool {
        &&& self@.has_sections()
        &&& self@.octets.len() <= usize::MAX
        &&& self.table == self@.table_start()
        &&& self.count == self@.section_count()
        &&& self.names == self@.names_section()
    }

    fn place(&self, index: usize) -> (place: usize)
        requires
            self.fits(),
            index < self.count,
        ensures
            place == self@.section_place(index as int),
            place + self@.either(64, 40) <= self@.octets.len(),
    {
        if self.elf.wide {
            self.table + 64 * index
        } else {
            self.table + 40 * index
        }
    }

    fn number(&self, at: usize) -> (number: u64)
        requires
            at + 4 <= self@.octets.len(),
        ensures
            number == self@.number(at as int, 4),
            number < 0x1_0000_0000,
    {
        read_field(self.elf.octets, at, 4, self.elf.little)
    }

    fn kind(&self, index: usize) -> (kind: u64)
        requires
            self.fits(),
            index < self.count,
        ensures
            kind == self@.kind(index as int),
    {
        self.number(self.place(index) + 4)
    }

    fn address(&self, index: usize) -> (address: u64)
        requires
            self.fits(),
            index < self.count,
        ensures
            address == self@.address(index as int),
    {
        self.elf.word(self.place(index) + self.elf.either(16, 12))
    }

    fn start(&self, index: usize) -> (start: u64)
        requires
            self.fits(),
            index < self.count,
        ensures
            start == self@.start(index as int),
    {
        self.elf.word(self.place(index) + self.elf.either(24, 16))
    }

    fn size(&self, index: usize) -> (size: u64)
        requires
            self.fits(),
            index < self.count,
        ensures
            size == self@.size(index as int),
    {
        self.elf.word(self.place(index) + self.elf.either(32, 20))
    }

    fn link(&self, index: usize) -> (link: u64)
        requires
            self.fits(),
            index < self.count,
        ensures
            link == self@.link(index as int),
            link < 0x1_0000_0000,
    {
        self.number(self.place(index) + self.elf.either(40, 24))
    }

    fn is_inside(&self, index: usize) -> (inside: bool)
        requires
            self.fits(),
            index < self.count,
        ensures
            inside == self@.is_inside(index as int),
    {
        self.kind(index) == SECTION_TYPE_NO_OCTETS || ends_within(
            self.start(index),
            self.size(index),
            self.elf.octets.len() as u64,
        )
    }

    /// Where the octets of a section begin, and how many there are.
    fn stretch(&self, index: usize) -> (stretch: (usize, usize))
        requires
            self.fits(),
            index < self.count,
            self@.is_inside(index as int),
        ensures
            stretch.0 == self@.begin(index as int),
            stretch.1 == self@.held(index as int),
            stretch.0 + stretch.1 <= self@.octets.len(),
    {
        if self.kind(index) == SECTION_TYPE_NO_OCTETS {
            (0, 0)
        } else {
            (self.start(index) as usize, self.size(index) as usize)
        }
    }

    fn text(&self, section: usize, offset: u64) -> (text: Option<&'a [u8]>)
        requires
            self.fits(),
            section < self.count,
            offset < 0x1_0000_0000,
        ensures
            match text {
                Some(text) => self@.text(section as int, offset as nat) == Some(text@),
                None => self@.text(section as int, offset as nat) is None,
            },
    {
        if self.kind(section) == SECTION_TYPE_NO_OCTETS || !self.is_inside(section) {
            return None;
        }
        let (start, length) = self.stretch(section);
        if offset > length as u64 {
            return None;
        }
        let from: usize = start + offset as usize;
        let end: usize = start + length;
        let nul: usize = find_nul(self.elf.octets, from, end);
        if nul == end {
            return None;
        }
        Some(slice_subrange(self.elf.octets, from, nul))
    }

    fn name(&self, index: usize) -> (name: Option<&'a [u8]>)
        requires
            self.fits(),
            index < self.count,
        ensures
            match name {
                Some(name) => self@.section_name(index as int) == Some(name@),
                None => self@.section_name(index as int) is None,
            },
    {
        self.text(self.names, self.number(self.place(index)))
    }

    fn symbols_section(&self) -> (found: Option<usize>)
        requires
            self.fits(),
        ensures
            match found {
                Some(index) => self@.symbols_section() == Some(index as int) && index < self.count
                    && self@.kind(index as int) == SECTION_TYPE_SYMBOLS,
                None => self@.symbols_section() is None,
            },
    {
        let mut index: usize = 0;
        while index < self.count
            invariant
                index <= self.count,
                self.fits(),
                self@.symbols_section() == self@.first_of_kind(
                    index as int,
                    SECTION_TYPE_SYMBOLS as nat,
                ),
            decreases self.count - index,
        {
            if self.kind(index) == SECTION_TYPE_SYMBOLS {
                return Some(index);
            }
            index = index + 1;
        }
        None
    }

    /// The last section with the numbers of sections for the symbols of another one, and whether
    /// all such sections lie inside the file.
    fn numbers_section(&self, table: usize) -> (found: (Option<usize>, bool))
        requires
            self.fits(),
        ensures
            match found.0 {
                Some(index) => self@.last_numbers(table as int, self.count as int) == Some(
                    index as int,
                ) && index < self.count && self@.holds_numbers_for(index as int, table as int),
                None => self@.last_numbers(table as int, self.count as int) is None,
            },
            found.1 == self@.numbers_are_inside(table as int),
    {
        let mut last: Option<usize> = None;
        let mut inside = true;
        let mut index: usize = 0;
        while index < self.count
            invariant
                index <= self.count,
                self.fits(),
                match last {
                    Some(place) => self@.last_numbers(table as int, index as int) == Some(
                        place as int,
                    ) && place < index && self@.holds_numbers_for(place as int, table as int),
                    None => self@.last_numbers(table as int, index as int) is None,
                },
                inside == forall|earlier: int|
                    0 <= earlier < index && #[trigger] self@.holds_numbers_for(
                        earlier,
                        table as int,
                    ) ==> self@.is_inside(earlier),
            decreases self.count - index,
        {
            if self.kind(index) == SECTION_TYPE_NUMBERS && self.link(index) == table as u64 {
                assert(self@.holds_numbers_for(index as int, table as int));
                last = Some(index);
                if !self.is_inside(index) {
                    inside = false;
                }
            }
            index = index + 1;
        }
        (last, inside)
    }

    /// The symbol at a place of their table, if its name can be read.
    fn symbol(&self, table: usize, numbers: Option<usize>, index: usize) -> (symbol: Option<Symbol>)
        requires
            self.fits(),
            table < self.count,
            self@.kind(table as int) == SECTION_TYPE_SYMBOLS,
            self@.table_is_readable(table as int),
            0 < index < self@.symbol_count(table as int),
            match numbers {
                Some(place) => self@.last_numbers(table as int, self.count as int) == Some(
                    place as int,
                ) && place < self.count && self@.holds_numbers_for(place as int, table as int),
                None => self@.last_numbers(table as int, self.count as int) is None,
            },
        ensures
            match symbol {
                Some(symbol) => symbol == self@.symbol(table as int, index as int)
                    && self@.symbol_name(table as int, index as int) is Some,
                None => self@.symbol_name(table as int, index as int) is None,
            },
    {
        let start: usize = self.start(table) as usize;
        let at: usize = start + if self.elf.wide {
            24 * index
        } else {
            16 * index
        };
        let link: u64 = self.link(table);
        if link == 0 {
            return None;
        }
        let is_named = match self.text(link as usize, self.number(at)) {
            Some(name) => name.len() > 0,
            None => {
                return None;
            },
        };
        let told: u64 = self.elf.half(at + self.elf.either(6, 14));
        let section: u64 = if told == TOLD_ELSEWHERE {
            self.number_told_elsewhere(table, numbers, index)
        } else if told >= FIRST_RESERVED_SECTION {
            0
        } else {
            told
        };
        Some(
            Symbol {
                section,
                kind: (self.elf.octets[at + self.elf.either(4, 12)] % 16) as u64,
                value: self.elf.word(at + self.elf.either(8, 4)),
                size: self.elf.word(at + self.elf.either(16, 8)),
                is_named,
            },
        )
    }

    fn number_told_elsewhere(&self, table: usize, numbers: Option<usize>, index: usize) -> (number:
        u64)
        requires
            self.fits(),
            self@.numbers_are_inside(table as int),
            match numbers {
                Some(place) => self@.last_numbers(table as int, self.count as int) == Some(
                    place as int,
                ) && place < self.count && self@.holds_numbers_for(place as int, table as int),
                None => self@.last_numbers(table as int, self.count as int) is None,
            },
        ensures
            number == self@.number_told_elsewhere(table as int, index as int),
    {
        match numbers {
            Some(place) => {
                assert(self@.is_inside(place as int));
                let (start, length) = self.stretch(place);
                if index < length / 4 {
                    self.number(start + 4 * index)
                } else {
                    0
                }
            },
            None => 0,
        }
    }

    /// The symbols of the file, if they can be read.
    fn symbols(&self) -> (symbols: Option<Vec<Symbol>>)
        requires
            self.fits(),
        ensures
            match symbols {
                Some(symbols) => self@.symbols_are_readable() && symbols@ == self@.symbols(),
                None => !self@.symbols_are_readable(),
            },
    {
        let mut symbols: Vec<Symbol> = Vec::new();
        let table: usize = match self.symbols_section() {
            Some(table) => table,
            None => {
                assert(symbols@ =~= self@.symbols());
                return Some(symbols);
            },
        };
        let link: u64 = self.link(table);
        let (numbers, inside) = self.numbers_section(table);
        if !inside || !self.is_inside(table) || !(link == 0 || (link < self.count as u64
            && self.kind(link as usize) == SECTION_TYPE_STRINGS)) {
            return None;
        }
        let size: usize = self.size(table) as usize;
        let count: usize = if self.elf.wide {
            size / 24
        } else {
            size / 16
        };
        let mut index: usize = 1;
        while index < count
            invariant
                1 <= index,
                index <= count || index == 1,
                count == self@.symbol_count(table as int),
                self.fits(),
                table < self.count,
                self@.kind(table as int) == SECTION_TYPE_SYMBOLS,
                self@.symbols_section() == Some(table as int),
                self@.table_is_readable(table as int),
                match numbers {
                    Some(place) => self@.last_numbers(table as int, self.count as int) == Some(
                        place as int,
                    ) && place < self.count && self@.holds_numbers_for(place as int, table as int),
                    None => self@.last_numbers(table as int, self.count as int) is None,
                },
                symbols@.len() == index - 1,
                forall|earlier: int|
                    0 <= earlier < index - 1 ==> #[trigger] symbols@[earlier] == self@.symbol(
                        table as int,
                        earlier + 1,
                    ),
                forall|earlier: int|
                    1 <= earlier < index ==> #[trigger] self@.symbol_name(
                        table as int,
                        earlier,
                    ) is Some,
            decreases count - index,
        {
            match self.symbol(table, numbers, index) {
                Some(symbol) => symbols.push(symbol),
                None => {
                    assert(!self@.symbol_names_are_readable(table as int));
                    return None;
                },
            }
            index = index + 1;
        }
        assert(symbols@ =~= self@.symbols());
        Some(symbols)
    }

    /// The first section with a name.
    fn first_named(&self, name: &str) -> (found: Option<usize>)
        requires
            self.fits(),
        ensures
            match found {
                Some(index) => self@.first_named(0, encode_utf8(name@)) == Some(index as int)
                    && index < self.count,
                None => self@.first_named(0, encode_utf8(name@)) is None,
            },
    {
        let mut index: usize = 0;
        while index < self.count
            invariant
                index <= self.count,
                self.fits(),
                self@.first_named(0, encode_utf8(name@)) == self@.first_named(
                    index as int,
                    encode_utf8(name@),
                ),
            decreases self.count - index,
        {
            if let Some(octets) = self.name(index) {
                if is_text(octets, name) {
                    return Some(index);
                }
            }
            index = index + 1;
        }
        None
    }

    fn program_reading(&self, section: usize, held: usize, symbol: Symbol) -> (reading: Reading)
        requires
            self.fits(),
            section < self.count,
            held == self@.held(section as int),
        ensures
            reading == self@.program_reading(section as int, symbol),
    {
        if symbol.section != section as u64 || !symbol.is_named || (symbol.kind
            != SYMBOL_TYPE_FUNCTION && symbol.kind != SYMBOL_TYPE_INDIRECT) {
            Reading::Through
        } else if symbol.value < self.address(section) || !ends_within(
            symbol.value,
            symbol.size,
            held as u64,
        ) {
            Reading::Outside
        } else if symbol.size % 8 != 0 {
            Reading::Refused
        } else {
            Reading::Through
        }
    }

    fn programs_reading(&self, symbols: &Vec<Symbol>, section: usize) -> (reading: Reading)
        requires
            self.fits(),
            section < self.count,
            self@.is_inside(section as int),
        ensures
            reading == self@.programs_reading(symbols@, 0, section as int),
    {
        let (_, held) = self.stretch(section);
        let mut index: usize = 0;
        while index < symbols.len()
            invariant
                index <= symbols@.len(),
                self.fits(),
                section < self.count,
                held == self@.held(section as int),
                self@.programs_reading(symbols@, 0, section as int) == self@.programs_reading(
                    symbols@,
                    index as int,
                    section as int,
                ),
            decreases symbols@.len() - index,
        {
            let reading = self.program_reading(section, held, symbols[index]);
            if !matches!(reading, Reading::Through) {
                return reading;
            }
            index = index + 1;
        }
        Reading::Through
    }

    fn pinning(&self, at: usize, size: usize) -> (pinning: u64)
        requires
            at + size <= self@.octets.len() <= usize::MAX,
        ensures
            pinning == self@.pinning(at as int, size as nat),
    {
        let total: usize = self.elf.octets.len();
        let mut octets: Vec<u8> = Vec::new();
        let mut index: usize = 0;
        while index < 4
            invariant
                index <= 4,
                octets@.len() == index,
                at + size <= total == self@.octets.len(),
                forall|earlier: int|
                    0 <= earlier < index ==> octets@[earlier] == if PINNING_PLACE + earlier < size {
                        self@.octets[at + PINNING_PLACE + earlier]
                    } else {
                        0
                    },
            decreases 4 - index,
        {
            let place: usize = 24 + index;
            if place < size {
                octets.push(self.elf.octets[at + place]);
            } else {
                octets.push(0);
            }
            index = index + 1;
        }
        assert(octets@ =~= Seq::new(
            4,
            |index: int|
                if PINNING_PLACE + index < size {
                    self@.octets[at + PINNING_PLACE + index]
                } else {
                    0
                },
        ));
        read_field(octets.as_slice(), 0, 4, self.elf.native)
    }

    fn map_reading(&self, section: usize, symbol: Symbol) -> (reading: Reading)
        requires
            self.fits(),
            section < self.count,
            self@.is_inside(section as int),
        ensures
            reading == self@.map_reading(section as int, symbol),
    {
        let (start, held) = self.stretch(section);
        if symbol.section != section as u64 {
            Reading::Through
        } else if !ends_within(symbol.value, symbol.size, held as u64) {
            Reading::Outside
        } else if symbol.size < SMALLEST_MAP {
            Reading::Refused
        } else if self.pinning(start + symbol.value as usize, symbol.size as usize) > 1 {
            Reading::Outside
        } else {
            Reading::Through
        }
    }

    fn maps_reading(&self, symbols: &Vec<Symbol>, section: usize) -> (reading: Reading)
        requires
            self.fits(),
            section < self.count,
            self@.is_inside(section as int),
        ensures
            reading == self@.maps_reading(symbols@, 0, section as int),
    {
        let mut index: usize = 0;
        while index < symbols.len()
            invariant
                index <= symbols@.len(),
                self.fits(),
                section < self.count,
                self@.is_inside(section as int),
                self@.maps_reading(symbols@, 0, section as int) == self@.maps_reading(
                    symbols@,
                    index as int,
                    section as int,
                ),
            decreases symbols@.len() - index,
        {
            let reading = self.map_reading(section, symbols[index]);
            if !matches!(reading, Reading::Through) {
                return reading;
            }
            index = index + 1;
        }
        Reading::Through
    }

    fn functions_reading(&self, symbols: &Vec<Symbol>, section: usize) -> (reading: Reading)
        requires
            self.fits(),
            section < self.count,
            self@.is_inside(section as int),
        ensures
            reading == self@.functions_reading(symbols@, section as int, 0),
    {
        let (_, held) = self.stretch(section);
        let address: u64 = self.address(section);
        let mut offset: usize = 0;
        while offset < held
            invariant
                offset <= held,
                held == self@.held(section as int),
                address == self@.address(section as int),
                self@.functions_reading(symbols@, section as int, 0) == self@.functions_reading(
                    symbols@,
                    section as int,
                    offset as int,
                ),
            decreases held - offset,
        {
            let place: u64 = match address.checked_add(offset as u64) {
                Some(place) => place,
                None => {
                    return Reading::Outside;
                },
            };
            let symbol: Symbol = match find_function(symbols, section, place) {
                Some(symbol) => symbol,
                None => {
                    return Reading::Refused;
                },
            };
            if symbol.size == 0 {
                return Reading::Refused;
            }
            if symbol.size > (held - offset) as u64 {
                return Reading::Outside;
            }
            if symbol.size % 8 != 0 {
                return Reading::Refused;
            }
            offset = offset + symbol.size as usize;
        }
        Reading::Through
    }

    fn is_executable(&self, index: usize) -> (executable: bool)
        requires
            self.fits(),
            index < self.count,
        ensures
            executable == self@.is_executable(index as int),
    {
        self.kind(index) == SECTION_TYPE_PROGRAM && (self.elf.word(self.place(index) + 8) / 2) % 4
            == 3 && self.size(index) > 0
    }

    fn typed_maps_reading(
        &self,
        symbols: &Vec<Symbol>,
        types: &Option<(Types<'a>, Vec<usize>)>,
        index: usize,
        name: &[u8],
    ) -> (reading: Reading)
        requires
            self.fits(),
            are_types_of(*types, self@),
        ensures
            reading == self@.typed_maps_reading(symbols@, index as int, name@),
    {
        match types {
            Some((types, places)) => if !any_symbol(symbols, index) {
                Reading::Refused
            } else if !types.section_fits(places, name) {
                Reading::Outside
            } else {
                Reading::Through
            },
            None => Reading::Refused,
        }
    }

    fn text_reading(&self, symbols: &Vec<Symbol>, index: usize) -> (reading: Reading)
        requires
            self.fits(),
            index < self.count,
            self@.is_inside(index as int),
        ensures
            reading == {
                let told = self@.functions_reading(symbols@, index as int, 0);
                if told == Reading::Outside && has_conflict(symbols@, index as int) {
                    Reading::Refused
                } else {
                    told
                }
            },
    {
        let reading = self.functions_reading(symbols, index);
        if matches!(reading, Reading::Outside) && any_conflict(symbols, index) {
            Reading::Refused
        } else {
            reading
        }
    }

    fn content_reading(
        &self,
        symbols: &Vec<Symbol>,
        types: &Option<(Types<'a>, Vec<usize>)>,
        index: usize,
        name: &[u8],
    ) -> (reading: Reading)
        requires
            self.fits(),
            index < self.count,
            self@.is_inside(index as int),
            are_types_of(*types, self@),
        ensures
            reading == self@.content_reading(symbols@, index as int, name@),
    {
        if starts_with(name, "license") || starts_with(name, "version") {
            return Reading::Through;
        }
        if starts_with(name, "maps") {
            return if any_symbol(symbols, index) {
                self.maps_reading(symbols, index)
            } else {
                Reading::Refused
            };
        }
        if starts_with(name, ".maps") {
            return self.typed_maps_reading(symbols, types, index, name);
        }
        if starts_with(name, ".text") {
            return self.text_reading(symbols, index);
        }
        if starts_with(name, ".bss") {
            return if self.size(index) > LARGEST_NUMBER || self.size(index) > isize::MAX as u64 {
                Reading::Outside
            } else {
                Reading::Through
            };
        }
        if starts_with(name, ".data") || starts_with(name, ".rodata") || !self.is_executable(
            index,
        ) {
            return Reading::Through;
        }
        if names_programs(name) && any_symbol(symbols, index) {
            self.programs_reading(symbols, index)
        } else {
            Reading::Refused
        }
    }

    fn section_reading(
        &self,
        symbols: &Vec<Symbol>,
        types: &Option<(Types<'a>, Vec<usize>)>,
        index: usize,
    ) -> (reading: Reading)
        requires
            self.fits(),
            index < self.count,
            are_types_of(*types, self@),
        ensures
            reading == self@.section_reading(symbols@, index as int),
    {
        match self.name(index) {
            Some(name) => if is_text(name, ".BTF") || is_text(name, ".BTF.ext") {
                Reading::Through
            } else if !self.is_inside(index) {
                Reading::Refused
            } else {
                self.content_reading(symbols, types, index, name)
            },
            None => Reading::Refused,
        }
    }

    fn sections_reading(
        &self,
        symbols: &Vec<Symbol>,
        types: &Option<(Types<'a>, Vec<usize>)>,
    ) -> (reading: Reading)
        requires
            self.fits(),
            are_types_of(*types, self@),
        ensures
            reading == self@.sections_reading(symbols@, 1),
    {
        let mut index: usize = 1;
        while index < self.count
            invariant
                1 <= index <= self.count,
                self.fits(),
                are_types_of(*types, self@),
                self@.sections_reading(symbols@, 1) == self@.sections_reading(
                    symbols@,
                    index as int,
                ),
            decreases self.count - index,
        {
            let reading = self.section_reading(symbols, types, index);
            if !matches!(reading, Reading::Through) {
                return reading;
            }
            index = index + 1;
        }
        Reading::Through
    }

    fn records_reading(&self, types: &Types<'a>, Ghost(place): Ghost<int>) -> (reading: Reading)
        requires
            self.fits(),
            types@ == self@.types(place),
            types.well_placed(),
            types@.header_fits(),
        ensures
            reading == self@.records_reading(place),
    {
        match self.first_named(".BTF.ext") {
            Some(index) => if !self.is_inside(index) {
                Reading::Refused
            } else {
                let (start, length) = self.stretch(index);
                types.records_reading(start, length)
            },
            None => Reading::Through,
        }
    }

    /// The types of the file, if there are some, and how their reading goes.
    fn types_reading(&self) -> (read: (Reading, Option<(Types<'a>, Vec<usize>)>))
        requires
            self.fits(),
        ensures
            read.0 == self@.types_reading(),
            read.0 == Reading::Through ==> are_types_of(read.1, self@),
    {
        let index: usize = match self.first_named(".BTF") {
            Some(index) => index,
            None => {
                return (Reading::Through, None);
            },
        };
        if !self.is_inside(index) {
            return (Reading::Refused, None);
        }
        let (at, length) = self.stretch(index);
        let types = Types {
            octets: self.elf.octets,
            at,
            length,
            native: self.elf.native,
            little: self.elf.little,
        };
        assert(types@ =~= self@.types(index as int));
        let (reading, places) = types.types_reading();
        if !matches!(reading, Reading::Through) {
            return (reading, None);
        }
        let reading = self.records_reading(&types, Ghost(index as int));
        (reading, Some((types, places)))
    }
}

/// Whether `types` are the types of a file, with the places where they are.
pub open spec fn are_types_of(types: Option<(Types, Vec<usize>)>, file: ElfView) -> bool {
    match file.types_section() {
        Some(index) => types matches Some((types, places)) && types@ == file.types(index)
            && types.well_placed() && types@.header_fits() && are_places(places@, types@),
        None => types is None,
    }
}

/// The first function of a section that begins at an address.
fn find_function(symbols: &Vec<Symbol>, section: usize, address: u64) -> (found: Option<Symbol>)
    ensures
        found == function_at(symbols@, 0, section as int, address as int),
{
    let mut index: usize = 0;
    while index < symbols.len()
        invariant
            index <= symbols@.len(),
            function_at(symbols@, 0, section as int, address as int) == function_at(
                symbols@,
                index as int,
                section as int,
                address as int,
            ),
        decreases symbols@.len() - index,
    {
        let symbol: Symbol = symbols[index];
        if symbol.kind == SYMBOL_TYPE_FUNCTION && symbol.section == section as u64 && symbol.value
            == address {
            return Some(symbol);
        }
        index = index + 1;
    }
    None
}

fn any_symbol(symbols: &Vec<Symbol>, section: usize) -> (has: bool)
    ensures
        has == has_symbols(symbols@, section as int),
{
    let mut index: usize = 0;
    while index < symbols.len()
        invariant
            index <= symbols@.len(),
            forall|earlier: int|
                0 <= earlier < index ==> #[trigger] symbols@[earlier].section != section,
        decreases symbols@.len() - index,
    {
        if symbols[index].section == section as u64 {
            assert(symbols@[index as int].section == section);
            return true;
        }
        index = index + 1;
    }
    false
}

/// Whether two functions of a section begin at the same address.
fn any_conflict(symbols: &Vec<Symbol>, section: usize) -> (has: bool)
    ensures
        has == has_conflict(symbols@, section as int),
{
    let mut second: usize = 0;
    while second < symbols.len()
        invariant
            second <= symbols@.len(),
            forall|first: int, later: int|
                0 <= first < later < second && is_function_at(
                    #[trigger] symbols@[first],
                    section as int,
                    symbols@[later].value as int,
                ) ==> !is_function_at(
                    #[trigger] symbols@[later],
                    section as int,
                    symbols@[later].value as int,
                ),
        decreases symbols@.len() - second,
    {
        let symbol: Symbol = symbols[second];
        if symbol.kind == SYMBOL_TYPE_FUNCTION && symbol.section == section as u64 {
            let mut first: usize = 0;
            while first < second
                invariant
                    first <= second < symbols@.len(),
                    symbol == symbols@[second as int],
                    is_function_at(symbol, section as int, symbol.value as int),
                    forall|earlier: int|
                        0 <= earlier < first ==> !is_function_at(
                            #[trigger] symbols@[earlier],
                            section as int,
                            symbol.value as int,
                        ),
                decreases second - first,
            {
                let other: Symbol = symbols[first];
                if other.kind == SYMBOL_TYPE_FUNCTION && other.section == section as u64
                    && other.value == symbol.value {
                    assert(is_function_at(
                        symbols@[first as int],
                        section as int,
                        symbols@[second as int].value as int,
                    ));
                    return true;
                }
                first = first + 1;
            }
        }
        second = second + 1;
    }
    false
}

/// How the reading of an ELF file goes.
pub fn elf_reading(file: Elf) -> (reading: Reading)
    ensures
        reading == file@.reading(),
{
    if !file.header_fits() {
        return Reading::Refused;
    }
    let sections = match file.sections() {
        Some(sections) => sections,
        None => {
            return Reading::Through;
        },
    };
    let symbols = match sections.symbols() {
        Some(symbols) => symbols,
        None => {
            return Reading::Refused;
        },
    };
    let (reading, types) = sections.types_reading();
    if !matches!(reading, Reading::Through) {
        return reading;
    }
    sections.sections_reading(&symbols, &types)
}

} // verus!
