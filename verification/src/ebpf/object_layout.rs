//! Which files can be looked into for programs and maps.
//!
//! An object file is an ELF file. Files of the other formats that are known hold no programs, and
//! they can be looked into where nothing in them could be taken for a program, a map or type
//! information. Files of no known format are refused at their first octets.
use vstd::prelude::*;

use super::coff_layout::{Coff, CoffView};
use super::elf_layout::{elf_reading, Elf, ElfView};
use super::mach_layout::{Mach, MachView};
use super::object::FILE_IDENTIFICATION_LEN;
use super::octet_fields::{field, read_field, Reading};
use super::xcoff_layout::{Xcoff, XcoffView};

verus! {

/// Whether octets begin with two others.
pub open spec fn begins(octets: Seq<u8>, first: u8, second: u8) -> bool {
    octets[0] == first && octets[1] == second
}

pub open spec fn is_elf(octets: Seq<u8>) -> bool {
    begins(octets, 0x7f, 0x45) && octets[2] == 0x4c && octets[3] == 0x46 && (octets[4] == 1
        || octets[4] == 2)
}

pub open spec fn elf_of(octets: Seq<u8>, native: bool) -> ElfView {
    ElfView { octets, little: octets[5] == 1, wide: octets[4] == 2, native }
}

pub open spec fn is_big_mach(octets: Seq<u8>) -> bool {
    begins(octets, 0xfe, 0xed) && octets[2] == 0xfa && (octets[3] == 0xce || octets[3] == 0xcf)
}

pub open spec fn is_little_mach(octets: Seq<u8>) -> bool {
    (octets[0] == 0xce || octets[0] == 0xcf) && octets[1] == 0xfa && octets[2] == 0xed && octets[3]
        == 0xfe
}

pub open spec fn mach_of(octets: Seq<u8>) -> MachView {
    MachView {
        octets,
        little: is_little_mach(octets),
        wide: octets[0] == 0xcf || octets[3] == 0xcf,
    }
}

pub open spec fn is_image(octets: Seq<u8>) -> bool {
    begins(octets, 0x4d, 0x5a)
}

pub open spec fn is_coff(octets: Seq<u8>) -> bool {
    begins(octets, 0xc4, 0x01) || begins(octets, 0x64, 0xaa) || begins(octets, 0x41, 0xa6)
        || begins(octets, 0x4c, 0x01) || begins(octets, 0x64, 0x86)
}

pub open spec fn is_large_coff(octets: Seq<u8>) -> bool {
    begins(octets, 0, 0) && octets[2] == 0xff && octets[3] == 0xff && octets[4] == 2 && octets[5]
        == 0
}

/// The COFF file in octets. The header of an image lies where another one tells, behind a mark.
pub open spec fn coff_of(octets: Seq<u8>) -> CoffView {
    CoffView {
        octets,
        header: if is_image(octets) {
            4 + field(octets, 60, 4, true) as int
        } else {
            0
        },
        large: is_large_coff(octets),
        image: is_image(octets),
    }
}

pub open spec fn is_narrow_xcoff(octets: Seq<u8>) -> bool {
    begins(octets, 0x01, 0xdf)
}

pub open spec fn is_wide_xcoff(octets: Seq<u8>) -> bool {
    begins(octets, 0x01, 0xf7)
}

pub open spec fn xcoff_of(octets: Seq<u8>) -> XcoffView {
    XcoffView { octets, wide: is_wide_xcoff(octets) }
}

/// Whether all that a file tells of can be found, on a machine with an order.
pub open spec fn can_be_looked_into(octets: Seq<u8>, native: bool) -> bool {
    if octets.len() < FILE_IDENTIFICATION_LEN {
        true
    } else if is_elf(octets) {
        elf_of(octets, native).reading() != Reading::Outside
    } else if is_big_mach(octets) || is_little_mach(octets) {
        mach_of(octets).fits()
    } else if is_image(octets) && octets.len() < 64 {
        true
    } else if is_image(octets) || is_coff(octets) || is_large_coff(octets) {
        coff_of(octets).fits()
    } else if is_narrow_xcoff(octets) || is_wide_xcoff(octets) {
        xcoff_of(octets).fits()
    } else {
        true
    }
}

fn starts(octets: &[u8], first: u8, second: u8) -> (same: bool)
    requires
        octets@.len() >= 2,
    ensures
        same == begins(octets@, first, second),
{
    octets[0] == first && octets[1] == second
}

/// Whether all that a file tells of can be found, on a machine with an order.
pub fn object_can_be_looked_into(octets: &[u8], native: bool) -> (can: bool)
    ensures
        can == can_be_looked_into(octets@, native),
{
    if octets.len() < FILE_IDENTIFICATION_LEN {
        return true;
    }
    if starts(octets, 0x7f, 0x45) && octets[2] == 0x4c && octets[3] == 0x46 && (octets[4] == 1
        || octets[4] == 2) {
        let file = Elf { octets, little: octets[5] == 1, wide: octets[4] == 2, native };
        assert(file@ =~= elf_of(octets@, native));
        return !matches!(elf_reading(file), Reading::Outside);
    }
    let big = starts(octets, 0xfe, 0xed) && octets[2] == 0xfa && (octets[3] == 0xce || octets[3]
        == 0xcf);
    let little = (octets[0] == 0xce || octets[0] == 0xcf) && octets[1] == 0xfa && octets[2] == 0xed
        && octets[3] == 0xfe;
    if big || little {
        let file = Mach { octets, little, wide: octets[0] == 0xcf || octets[3] == 0xcf };
        assert(file@ =~= mach_of(octets@));
        return file.fits();
    }
    let image = starts(octets, 0x4d, 0x5a);
    if image && octets.len() < 64 {
        return true;
    }
    let large = starts(octets, 0, 0) && octets[2] == 0xff && octets[3] == 0xff && octets[4] == 2
        && octets[5] == 0;
    if image || large || starts(octets, 0xc4, 0x01) || starts(octets, 0x64, 0xaa) || starts(
        octets,
        0x41,
        0xa6,
    ) || starts(octets, 0x4c, 0x01) || starts(octets, 0x64, 0x86) {
        let header: u64 = if image {
            read_field(octets, 60, 4, true) + 4
        } else {
            0
        };
        if header > octets.len() as u64 {
            return true;
        }
        let file = Coff { octets, header: header as usize, large, image };
        assert(file@ =~= coff_of(octets@));
        return file.fits();
    }
    let wide = starts(octets, 0x01, 0xf7);
    if starts(octets, 0x01, 0xdf) || wide {
        let file = Xcoff { octets, wide };
        assert(file@ =~= xcoff_of(octets@));
        return file.fits();
    }
    true
}

} // verus!
