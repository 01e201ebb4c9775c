//! Numbers, texts and places in the octets of a file.
use vstd::prelude::*;

verus! {

/// How the reading of a part of a file goes: to its end, up to something that is refused as an
/// error, or up to something that is said to lie where it cannot lie.
#[derive(Debug, Clone, Copy, PartialEq, Eq, Structural)]
pub enum Reading {
    Through,
    Refused,
    Outside,
}

impl Reading {
    /// The reading of a part and of what comes behind it.
    pub open spec fn and(self, next: Reading) -> Reading {
        if self == Reading::Through {
            next
        } else {
            self
        }
    }
}

/// The number in `width` octets from `at` on, in one of the two orders.
pub open spec fn field(octets: Seq<u8>, at: int, width: nat, little: bool) -> nat
    decreases width,
{
    if width == 0 {
        0
    } else if little {
        octets[at] as nat + 256 * field(octets, at + 1, (width - 1) as nat, little)
    } else {
        256 * field(octets, at, (width - 1) as nat, little) + octets[at + width - 1] as nat
    }
}

spec fn power_of_256(exponent: nat) -> nat
    decreases exponent,
{
    if exponent == 0 {
        1
    } else {
        256 * power_of_256((exponent - 1) as nat)
    }
}

proof fn lemma_powers()
    ensures
        power_of_256(0) == 1,
        power_of_256(1) == 0x100,
        power_of_256(2) == 0x1_0000,
        power_of_256(3) == 0x100_0000,
        power_of_256(4) == 0x1_0000_0000,
        power_of_256(5) == 0x100_0000_0000,
        power_of_256(6) == 0x1_0000_0000_0000,
        power_of_256(7) == 0x100_0000_0000_0000,
        power_of_256(8) == 0x1_0000_0000_0000_0000,
{
    reveal_with_fuel(power_of_256, 9);
}

proof fn lemma_field_bound(octets: Seq<u8>, at: int, width: nat, little: bool)
    ensures
        field(octets, at, width, little) < power_of_256(width),
    decreases width,
{
    if width > 0 {
        if little {
            lemma_field_bound(octets, at + 1, (width - 1) as nat, little);
        } else {
            lemma_field_bound(octets, at, (width - 1) as nat, little);
        }
    }
}

pub fn read_field(octets: &[u8], at: usize, width: usize, little: bool) -> (number: u64)
    requires
        at + width <= octets@.len(),
        width <= 8,
    ensures
        number == field(octets@, at as int, width as nat, little),
        width == 1 ==> number < 0x100,
        width == 2 ==> number < 0x1_0000,
        width == 4 ==> number < 0x1_0000_0000,
{
    let mut number: u64 = 0;
    let mut done: usize = 0;
    let total: usize = octets.len();
    while done < width
        invariant
            done <= width <= 8,
            at + width <= total == octets@.len(),
            number == if little {
                field(octets@, at + width - done, done as nat, true)
            } else {
                field(octets@, at as int, done as nat, false)
            },
        decreases width - done,
    {
        proof {
            lemma_powers();
            if little {
                lemma_field_bound(octets@, at + width - done, done as nat, true);
            } else {
                lemma_field_bound(octets@, at as int, done as nat, false);
            }
        }
        let place: usize = if little {
            at + width - 1 - done
        } else {
            at + done
        };
        number = number * 256 + octets[place] as u64;
        done = done + 1;
    }
    proof {
        lemma_powers();
        lemma_field_bound(octets@, at as int, width as nat, little);
    }
    number
}

/// Whether `size` octets from `start` on end no later than `end`.
pub fn ends_within(start: u64, size: u64, end: u64) -> (within: bool)
    ensures
        within == (start + size <= end),
{
    start <= end && size <= end - start
}

/// Where the first zero octet from `at` on is, or `end` if there is none before that.
pub open spec fn nul_place(octets: Seq<u8>, at: int, end: int) -> int
    decreases end - at,
{
    if at >= end {
        end
    } else if octets[at] == 0 {
        at
    } else {
        nul_place(octets, at + 1, end)
    }
}

/// Where the first zero octet from `start` on is, or `end` if there is none before that.
pub fn find_nul(octets: &[u8], start: usize, end: usize) -> (place: usize)
    requires
        start <= end <= octets@.len(),
    ensures
        place == nul_place(octets@, start as int, end as int),
        start <= place <= end,
{
    let mut at: usize = start;
    while at < end
        invariant
            start <= at <= end <= octets@.len(),
            nul_place(octets@, start as int, end as int) == nul_place(
                octets@,
                at as int,
                end as int,
            ),
        decreases end - at,
    {
        if octets[at] == 0 {
            return at;
        }
        at = at + 1;
    }
    end
}

} // verus!
