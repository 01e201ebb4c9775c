//! Which Mach-O files hold nothing that could be taken for a map or type information.
use vstd::prelude::*;
use vstd::slice::slice_subrange;

use crate::octets::{starts_with, starts_with_text};

use super::octet_fields::{field, find_nul, nul_place, read_field};
use super::type_layout::LARGEST_NUMBER;

verus! {

/// The command that tells the sections of a part of a Mach-O file, in files of 32 and of 64 bits.
pub const NARROW_SEGMENT: u64 = 1;

pub const WIDE_SEGMENT: u64 = 25;

/// A Mach-O file: its octets, their order, and its class.
#[verifier::ext_equal]
pub struct MachView {
    pub octets: Seq<u8>,
    pub little: bool,
    pub wide: bool,
}

impl MachView {
    pub open spec fn number(self, at: int) -> nat {
        field(self.octets, at, 4, self.little)
    }

    pub open spec fn either(self, wide: int, narrow: int) -> int {
        if self.wide {
            wide
        } else {
            narrow
        }
    }

    /// Where the commands begin.
    pub open spec fn start(self) -> int {
        self.either(32, 28)
    }

    /// Where the commands end.
    pub open spec fn end(self) -> int {
        self.start() + self.number(20)
    }

    pub open spec fn section_place(self, at: int, section: int) -> int {
        at + self.either(72 + 80 * section, 56 + 68 * section)
    }

    pub open spec fn section_name(self, at: int) -> Seq<u8> {
        self.octets.subrange(at, nul_place(self.octets, at, at + 16))
    }

    /// Whether the section that is told at a place could be taken for one that holds maps or types,
    /// or more than can be set aside. Only the section `__text` holds code, and no symbol has a
    /// size, so neither programs nor functions are taken out.
    pub open spec fn is_telling(self, at: int) -> bool {
        let name = self.section_name(at);
        let size = if self.wide {
            field(self.octets, at + 40, 8, self.little)
        } else {
            field(self.octets, at + 36, 4, self.little)
        };
        ||| starts_with_text(name, "maps"@)
        ||| starts_with_text(name, ".BTF"@)
        ||| starts_with_text(name, ".bss"@) && (size > LARGEST_NUMBER || size > isize::MAX)
    }

    /// Whether a command tells of sections that all lie inside of it.
    pub open spec fn is_segment(self, at: int) -> bool {
        &&& self.number(at) == self.either(WIDE_SEGMENT as int, NARROW_SEGMENT as int)
        &&& self.section_place(at, 0) <= at + self.number(at + 4)
        &&& self.section_place(at, self.section_count(at) as int) <= at + self.number(at + 4)
    }

    pub open spec fn section_count(self, at: int) -> nat {
        self.number(at + self.either(64, 48))
    }

    /// Whether a command tells of no section with a telling name.
    pub open spec fn is_plain(self, at: int) -> bool {
        self.is_segment(at) ==> forall|section: int|
            0 <= section < self.section_count(at) ==> !self.is_telling(
                #[trigger] self.section_place(at, section),
            )
    }

    /// Whether so many commands tell of no section with a telling name, as far as they can be read.
    pub open spec fn are_plain(self, at: int, left: nat) -> bool
        decreases left,
    {
        left == 0 || at + 8 > self.end() || self.number(at + 4) < 8 || at + self.number(at + 4)
            > self.end() || (self.is_plain(at) && self.are_plain(
            at + self.number(at + 4),
            (left - 1) as nat,
        ))
    }

    /// Whether the file tells of no section with a telling name.
    pub open spec fn fits(self) -> bool {
        self.octets.len() < self.start() || self.end() > self.octets.len() || self.are_plain(
            self.start(),
            self.number(16),
        )
    }
}

/// A Mach-O file.
pub struct Mach<'a> {
    pub octets: &'a [u8],
    pub little: bool,
    pub wide: bool,
}

impl<'a> View for Mach<'a> {
    type V = MachView;

    open spec fn view(&self) -> MachView {
        MachView { octets: self.octets@, little: self.little, wide: self.wide }
    }
}

impl<'a> Mach<'a> {
    fn number(&self, at: usize) -> (number: u64)
        requires
            at + 4 <= self.octets@.len(),
        ensures
            number == self@.number(at as int),
            number < 0x1_0000_0000,
    {
        read_field(self.octets, at, 4, self.little)
    }

    fn section_place(&self, at: usize, section: usize) -> (place: usize)
        requires
            self@.section_place(at as int, section as int) <= usize::MAX,
        ensures
            place == self@.section_place(at as int, section as int),
    {
        if self.wide {
            at + (72 + 80 * section)
        } else {
            at + (56 + 68 * section)
        }
    }

    fn is_telling(&self, at: usize) -> (telling: bool)
        requires
            at + self@.either(80, 68) <= self.octets@.len() <= usize::MAX,
        ensures
            telling == self@.is_telling(at as int),
    {
        let nul: usize = find_nul(self.octets, at, at + 16);
        let name = slice_subrange(self.octets, at, nul);
        let size: u64 = if self.wide {
            read_field(self.octets, at + 40, 8, self.little)
        } else {
            read_field(self.octets, at + 36, 4, self.little)
        };
        starts_with(name, "maps") || starts_with(name, ".BTF") || (starts_with(name, ".bss") && (
        size > LARGEST_NUMBER || size > isize::MAX as u64))
    }

    fn is_plain(&self, at: usize, size: usize) -> (plain: bool)
        requires
            8 <= size == self@.number(at + 4),
            at + size <= self.octets@.len() <= usize::MAX,
        ensures
            plain == self@.is_plain(at as int),
    {
        let head: usize = if self.wide {
            72
        } else {
            56
        };
        let width: usize = if self.wide {
            80
        } else {
            68
        };
        let command: u64 = if self.wide {
            WIDE_SEGMENT
        } else {
            NARROW_SEGMENT
        };
        if self.number(at) != command || size < head {
            return true;
        }
        let count: u64 = self.number(at + (head - 8));
        if count > ((size - head) / width) as u64 {
            return true;
        }
        assert(self@.is_segment(at as int));
        let count: usize = count as usize;
        let total: usize = self.octets.len();
        let mut section: usize = 0;
        while section < count
            invariant
                section <= count == self@.section_count(at as int),
                self@.is_segment(at as int),
                at + size <= total == self.octets@.len(),
                size == self@.number(at + 4),
                forall|earlier: int|
                    0 <= earlier < section ==> !self@.is_telling(
                        #[trigger] self@.section_place(at as int, earlier),
                    ),
            decreases count - section,
        {
            let place: usize = self.section_place(at, section);
            if self.is_telling(place) {
                assert(self@.is_telling(self@.section_place(at as int, section as int)));
                return false;
            }
            section = section + 1;
        }
        true
    }

    /// Whether the file tells of no section with a telling name.
    pub fn fits(&self) -> (fits: bool)
        ensures
            fits == self@.fits(),
    {
        let total: usize = self.octets.len();
        let start: usize = if self.wide {
            32
        } else {
            28
        };
        if total < start || self.number(20) > (total - start) as u64 {
            return true;
        }
        let end: usize = start + self.number(20) as usize;
        let mut left: u64 = self.number(16);
        let mut at: usize = start;
        while left > 0
            invariant
                at <= end <= total == self.octets@.len(),
                end == self@.end(),
                self@.fits() == self@.are_plain(at as int, left as nat),
            decreases left,
        {
            if end - at < 8 {
                return true;
            }
            let size: u64 = self.number(at + 4);
            if size < 8 || size > (end - at) as u64 {
                return true;
            }
            if !self.is_plain(at, size as usize) {
                return false;
            }
            at = at + size as usize;
            left = left - 1;
        }
        true
    }
}

} // verus!
