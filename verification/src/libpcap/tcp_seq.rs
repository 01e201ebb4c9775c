//! TCP sequence numbers: positions on a circle of 2^32 points.
use vstd::prelude::*;

verus! {

/// How many steps lead forward from `from` to `to`.
pub open spec fn seq_distance(from: u32, to: u32) -> nat {
    ((to - from) % 0x1_0000_0000) as nat
}

/// The position `count` steps ahead of `sequence`.
pub open spec fn seq_advance(sequence: u32, count: nat) -> u32 {
    ((sequence + count) % 0x1_0000_0000) as u32
}

/// Whether `left` lies at most half a circle behind `right`.
pub open spec fn seq_before(left: u32, right: u32) -> bool {
    seq_distance(right, left) >= 0x8000_0000
}

/// Whether `left` lies at most half a circle ahead of `right`.
pub open spec fn seq_after(left: u32, right: u32) -> bool {
    seq_before(right, left)
}

pub fn before(left: u32, right: u32) -> (result: bool)
    ensures
        result == seq_before(left, right),
{
    left.wrapping_sub(right) >= 0x8000_0000
}

pub fn after(left: u32, right: u32) -> (result: bool)
    ensures
        result == seq_after(left, right),
{
    before(right, left)
}

pub fn distance(from: u32, to: u32) -> (steps: u32)
    ensures
        steps == seq_distance(from, to),
{
    to.wrapping_sub(from)
}

pub fn distance_usize(from: u32, to: u32) -> (steps: usize)
    ensures
        steps == seq_distance(from, to),
{
    distance(from, to) as usize
}

pub fn advance(sequence: u32, count: usize) -> (result: u32)
    ensures
        result == seq_advance(sequence, count as nat),
{
    let reduced: u64 = (count as u64) % 0x1_0000_0000;
    sequence.wrapping_add(reduced as u32)
}

/// Going the distance between two positions leads from the first to the second.
pub proof fn law_distance_leads_there(from: u32, to: u32)
    ensures
        seq_advance(from, seq_distance(from, to)) == to,
{
}

/// Fewer steps than a whole circle are recovered as the distance.
pub proof fn law_advance_is_measured(from: u32, count: nat)
    requires
        count < 0x1_0000_0000,
    ensures
        seq_distance(from, seq_advance(from, count)) == count,
{
}

/// Steps add up.
pub proof fn law_advance_composes(from: u32, first: nat, second: nat)
    ensures
        seq_advance(seq_advance(from, first), second) == seq_advance(from, first + second),
{
}

/// No position is before itself, and of two different positions that are not exactly half a
/// circle apart one is before the other and not the other way round.
pub proof fn law_order(left: u32, right: u32)
    ensures
        !seq_before(left, left),
        left != right && seq_distance(left, right) != 0x8000_0000 ==> seq_before(left, right)
            == !seq_before(right, left),
        seq_distance(left, right) == 0x8000_0000 ==> seq_before(left, right) && seq_before(
            right,
            left,
        ),
{
}

} // verus!
