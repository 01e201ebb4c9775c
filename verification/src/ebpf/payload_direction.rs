//! The directions of a flow whose payload may be sampled.
use vstd::prelude::*;

use crate::model::Direction;

verus! {

/// Lets the kernel sample what a process receives.
pub const EBPF_SOCKET_PAYLOAD_ALLOW_READ: u8 = 1;

/// Lets the kernel sample what a process sends.
pub const EBPF_SOCKET_PAYLOAD_ALLOW_WRITE: u8 = 2;

/// A set of directions.
#[derive(Debug, Clone, Copy, PartialEq, Eq, Structural)]
pub struct PayloadDirections {
    pub inbound: bool,
    pub outbound: bool,
}

impl PayloadDirections {
    pub open spec fn none() -> PayloadDirections {
        PayloadDirections { inbound: false, outbound: false }
    }

    /// Whether the set holds a direction.
    pub open spec fn has(self, direction: Direction) -> bool {
        match direction {
            Direction::Inbound => self.inbound,
            Direction::Outbound => self.outbound,
        }
    }

    /// The set with one more direction.
    pub open spec fn with(self, direction: Direction) -> PayloadDirections {
        match direction {
            Direction::Inbound => PayloadDirections { inbound: true, ..self },
            Direction::Outbound => PayloadDirections { outbound: true, ..self },
        }
    }

    /// The directions of the set, inbound first.
    pub open spec fn listed(self) -> Seq<Direction> {
        if self.inbound && self.outbound {
            seq![Direction::Inbound, Direction::Outbound]
        } else if self.inbound {
            seq![Direction::Inbound]
        } else if self.outbound {
            seq![Direction::Outbound]
        } else {
            Seq::empty()
        }
    }

    /// The mask that the kernel reads.
    pub open spec fn mask(self) -> u8 {
        if self.inbound && self.outbound {
            EBPF_SOCKET_PAYLOAD_ALLOW_READ | EBPF_SOCKET_PAYLOAD_ALLOW_WRITE
        } else if self.inbound {
            EBPF_SOCKET_PAYLOAD_ALLOW_READ
        } else if self.outbound {
            EBPF_SOCKET_PAYLOAD_ALLOW_WRITE
        } else {
            0
        }
    }

    pub fn empty() -> (directions: PayloadDirections)
        ensures
            directions == PayloadDirections::none(),
    {
        PayloadDirections { inbound: false, outbound: false }
    }

    /// The set of the listed directions.
    pub fn from_directions(listed: &Vec<Direction>) -> (directions: PayloadDirections)
        ensures
            forall|direction: Direction|
                #![auto]
                directions.has(direction) == listed@.contains(direction),
    {
        let mut directions = PayloadDirections::empty();
        let mut index: usize = 0;
        while index < listed.len()
            invariant
                index <= listed.len(),
                forall|direction: Direction|
                    #![auto]
                    directions.has(direction) == listed@.take(index as int).contains(direction),
            decreases listed.len() - index,
        {
            let ghost earlier = directions;
            directions.insert(listed[index]);
            proof {
                let taken = listed@.take(index as int);
                let longer = listed@.take(index + 1);
                assert(longer =~= taken.push(listed@[index as int]));
                assert forall|direction: Direction|
                    #![auto]
                    directions.has(direction) == longer.contains(direction) by {
                    assert(earlier.has(direction) == taken.contains(direction));
                    if taken.contains(direction) {
                        let place = choose|place: int|
                            0 <= place < taken.len() && taken[place] == direction;
                        assert(longer[place] == direction);
                    }
                    assert(longer[index as int] == listed@[index as int]);
                }
            }
            index = index + 1;
        }
        assert(listed@.take(index as int) =~= listed@);
        directions
    }

    pub fn insert(&mut self, direction: Direction)
        ensures
            *final(self) == old(self).with(direction),
    {
        match direction {
            Direction::Inbound => {
                self.inbound = true;
            },
            Direction::Outbound => {
                self.outbound = true;
            },
        }
    }

    pub fn allows(self, direction: Direction) -> (allowed: bool)
        ensures
            allowed == self.has(direction),
    {
        match direction {
            Direction::Inbound => self.inbound,
            Direction::Outbound => self.outbound,
        }
    }

    /// The directions of the set, inbound first.
    pub fn directions(self) -> (listed: Vec<Direction>)
        ensures
            listed@ == self.listed(),
    {
        let mut listed: Vec<Direction> = Vec::new();
        if self.inbound {
            listed.push(Direction::Inbound);
        }
        if self.outbound {
            listed.push(Direction::Outbound);
        }
        assert(listed@ =~= self.listed());
        listed
    }

    pub fn is_empty(self) -> (empty: bool)
        ensures
            empty == (self == PayloadDirections::none()),
    {
        !self.inbound && !self.outbound
    }

    /// The mask that the kernel reads.
    pub fn to_abi_mask(self) -> (mask: u8)
        ensures
            mask == self.mask(),
    {
        if self.inbound && self.outbound {
            EBPF_SOCKET_PAYLOAD_ALLOW_READ | EBPF_SOCKET_PAYLOAD_ALLOW_WRITE
        } else if self.inbound {
            EBPF_SOCKET_PAYLOAD_ALLOW_READ
        } else if self.outbound {
            EBPF_SOCKET_PAYLOAD_ALLOW_WRITE
        } else {
            0
        }
    }
}

/// The kernel sees a direction as allowed exactly where the set holds it.
pub proof fn law_mask_tells_the_directions(directions: PayloadDirections)
    ensures
        (directions.mask() & EBPF_SOCKET_PAYLOAD_ALLOW_READ != 0) == directions.has(
            Direction::Inbound,
        ),
        (directions.mask() & EBPF_SOCKET_PAYLOAD_ALLOW_WRITE != 0) == directions.has(
            Direction::Outbound,
        ),
{
    assert(1u8 & 1u8 != 0 && 1u8 & 2u8 == 0 && 2u8 & 1u8 == 0 && 2u8 & 2u8 != 0 && (1u8 | 2u8) & 1u8
        != 0 && (1u8 | 2u8) & 2u8 != 0 && 0u8 & 1u8 == 0 && 0u8 & 2u8 == 0) by (bit_vector);
}

} // verus!
