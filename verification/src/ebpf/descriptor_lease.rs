//! The identity of an open socket descriptor, told apart from later uses of its number.
use vstd::prelude::*;

use crate::keyed::SameKey;

use super::types::{
    EbpfCloseRangeTracepointObservation, EbpfCloseTracepointObservation, EbpfSocketReadObservation,
    EbpfSocketWriteObservation,
};

verus! {

/// A descriptor of a process during one generation of its number and one epoch of its table.
#[derive(Debug, Clone, Copy, PartialEq, Eq, Structural)]
pub struct DescriptorLease {
    pub tgid: u32,
    pub fd: i32,
    pub fd_table_epoch: u64,
    pub fd_generation: u64,
}

impl DescriptorLease {
    /// Whether the parts can identify a descriptor.
    pub open spec fn identifies(fd: i32, fd_table_epoch: u64, fd_generation: u64) -> bool {
        fd >= 0 && fd_table_epoch != 0 && fd_generation != 0
    }

    /// The lease that is made of the parts, where they can identify a descriptor.
    pub open spec fn of(tgid: u32, fd: i32, fd_table_epoch: u64, fd_generation: u64) -> Option<
        DescriptorLease,
    > {
        if DescriptorLease::identifies(fd, fd_table_epoch, fd_generation) {
            Some(DescriptorLease { tgid, fd, fd_table_epoch, fd_generation })
        } else {
            None
        }
    }

    pub open spec fn lease_key(self) -> DescriptorLeaseKey {
        DescriptorLeaseKey { tgid: self.tgid, fd: self.fd, fd_generation: self.fd_generation }
    }

    pub fn new(tgid: u32, fd: i32, fd_table_epoch: u64, fd_generation: u64) -> (lease: Option<
        DescriptorLease,
    >)
        ensures
            lease == DescriptorLease::of(tgid, fd, fd_table_epoch, fd_generation),
    {
        if fd < 0 || fd_table_epoch == 0 || fd_generation == 0 {
            return None;
        }
        Some(DescriptorLease { tgid, fd, fd_table_epoch, fd_generation })
    }

    pub fn tgid(self) -> (tgid: u32)
        ensures
            tgid == self.tgid,
    {
        self.tgid
    }

    pub fn fd(self) -> (fd: i32)
        ensures
            fd == self.fd,
    {
        self.fd
    }

    pub fn fd_table_epoch(self) -> (epoch: u64)
        ensures
            epoch == self.fd_table_epoch,
    {
        self.fd_table_epoch
    }

    pub fn fd_generation(self) -> (generation: u64)
        ensures
            generation == self.fd_generation,
    {
        self.fd_generation
    }

    pub fn key(self) -> (key: DescriptorLeaseKey)
        ensures
            key == self.lease_key(),
    {
        DescriptorLeaseKey { tgid: self.tgid, fd: self.fd, fd_generation: self.fd_generation }
    }
}

/// What every event on a descriptor tells of its lease.
#[derive(Debug, Clone, Copy, PartialEq, Eq, Hash, Structural)]
pub struct DescriptorLeaseKey {
    pub tgid: u32,
    pub fd: i32,
    pub fd_generation: u64,
}

impl View for DescriptorLeaseKey {
    type V = DescriptorLeaseKey;

    open spec fn view(&self) -> DescriptorLeaseKey {
        *self
    }
}

impl SameKey for DescriptorLeaseKey {
    fn same_key(&self, other: &Self) -> (same: bool) {
        self.tgid == other.tgid && self.fd == other.fd && self.fd_generation == other.fd_generation
    }
}

/// The key of a descriptor that an event tells of, where it tells enough.
pub open spec fn observed_key(tgid: u32, fd: i32, fd_generation: u64) -> Option<
    DescriptorLeaseKey,
> {
    if fd >= 0 && fd_generation != 0 {
        Some(DescriptorLeaseKey { tgid, fd, fd_generation })
    } else {
        None
    }
}

impl DescriptorLeaseKey {
    /// Whether a range of closed descriptors holds the descriptor.
    pub open spec fn inside(self, close_range: EbpfCloseRangeTracepointObservation) -> bool {
        self.tgid == close_range.process.tgid && close_range.first_fd <= self.fd
            <= close_range.last_fd
    }

    /// Whether the kernel keeps the allowances of both keys in one place.
    pub open spec fn shares_allowance_with(self, other: DescriptorLeaseKey) -> bool {
        self.tgid == other.tgid && self.fd == other.fd
    }

    pub fn from_observed(tgid: u32, fd: i32, fd_generation: u64) -> (key: Option<
        DescriptorLeaseKey,
    >)
        ensures
            key == observed_key(tgid, fd, fd_generation),
    {
        if fd < 0 || fd_generation == 0 {
            return None;
        }
        Some(DescriptorLeaseKey { tgid, fd, fd_generation })
    }

    pub fn from_close(close: &EbpfCloseTracepointObservation) -> (key: Option<DescriptorLeaseKey>)
        ensures
            key == observed_key(close.process.tgid, close.fd, close.fd_generation),
    {
        DescriptorLeaseKey::from_observed(close.process.tgid, close.fd, close.fd_generation)
    }

    pub fn from_write(write: &EbpfSocketWriteObservation) -> (key: Option<DescriptorLeaseKey>)
        ensures
            key == observed_key(write.process.tgid, write.fd, write.fd_generation),
    {
        DescriptorLeaseKey::from_observed(write.process.tgid, write.fd, write.fd_generation)
    }

    pub fn from_read(read: &EbpfSocketReadObservation) -> (key: Option<DescriptorLeaseKey>)
        ensures
            key == observed_key(read.process.tgid, read.fd, read.fd_generation),
    {
        DescriptorLeaseKey::from_observed(read.process.tgid, read.fd, read.fd_generation)
    }

    pub fn tgid(self) -> (tgid: u32)
        ensures
            tgid == self.tgid,
    {
        self.tgid
    }

    pub fn fd(self) -> (fd: i32)
        ensures
            fd == self.fd,
    {
        self.fd
    }

    pub fn fd_generation(self) -> (generation: u64)
        ensures
            generation == self.fd_generation,
    {
        self.fd_generation
    }

    pub fn is_in_close_range(self, close_range: &EbpfCloseRangeTracepointObservation) -> (inside:
        bool)
        ensures
            inside == self.inside(*close_range),
    {
        self.tgid == close_range.process.tgid && self.fd >= 0 && close_range.first_fd
            <= self.fd as u32 && self.fd as u32 <= close_range.last_fd
    }

    pub fn has_same_allow_map_key(self, other: DescriptorLeaseKey) -> (same: bool)
        ensures
            same == self.shares_allowance_with(other),
    {
        self.tgid == other.tgid && self.fd == other.fd
    }
}

/// The order of the descriptors of one process: by number, then by generation.
pub open spec fn descriptor_order() -> spec_fn(DescriptorLeaseKey, DescriptorLeaseKey) -> bool {
    |first: DescriptorLeaseKey, second: DescriptorLeaseKey|
        first.tgid < second.tgid || (first.tgid == second.tgid && (first.fd < second.fd || (
        first.fd == second.fd && first.fd_generation <= second.fd_generation)))
}

fn is_at_most(first: DescriptorLeaseKey, second: DescriptorLeaseKey) -> (at_most: bool)
    ensures
        at_most == descriptor_order()(first, second),
{
    first.tgid < second.tgid || (first.tgid == second.tgid && (first.fd < second.fd || (first.fd
        == second.fd && first.fd_generation <= second.fd_generation)))
}

/// Puts a key into a sorted list, in front of the keys that are greater.
fn insert_sorted(keys: &mut Vec<DescriptorLeaseKey>, key: DescriptorLeaseKey)
    requires
        vstd::relations::sorted_by(old(keys)@, descriptor_order()),
    ensures
        vstd::relations::sorted_by(final(keys)@, descriptor_order()),
        final(keys)@.to_multiset() == old(keys)@.to_multiset().insert(key),
{
    let mut place: usize = keys.len();
    while place > 0 && !is_at_most(keys[place - 1], key)
        invariant
            place <= keys.len(),
            keys@ == old(keys)@,
            vstd::relations::sorted_by(keys@, descriptor_order()),
            forall|index: int|
                place <= index < keys.len() ==> descriptor_order()(key, #[trigger] keys@[index]),
        decreases place,
    {
        place = place - 1;
    }
    keys.insert(place, key);
    proof {
        old(keys)@.to_multiset_ensures();
        vstd::seq_lib::to_multiset_insert(old(keys)@, place as int, key);
        assert forall|first: int, second: int|
            0 <= first < second < keys@.len() implies #[trigger] descriptor_order()(
            keys@[first],
            keys@[second],
        ) by {
            let before = old(keys)@;
            if first < place && second > place {
                assert(descriptor_order()(before[first], before[second - 1]));
            } else if second < place {
                assert(descriptor_order()(before[first], before[second]));
            } else if first > place {
                assert(descriptor_order()(before[first - 1], before[second - 1]));
            } else if second == place {
                if first < place - 1 {
                    assert(descriptor_order()(before[first], before[place - 1]));
                }
            }
        }
    }
}

/// Any two descriptors are in order, and two that are in both orders are one.
pub proof fn lemma_descriptor_order_is_total()
    ensures
        vstd::relations::total_ordering(descriptor_order()),
{
}

/// The keys in the order of their descriptors.
pub fn sort_by_descriptor(keys: &Vec<DescriptorLeaseKey>) -> (sorted: Vec<DescriptorLeaseKey>)
    ensures
        sorted@ == keys@.sort_by(descriptor_order()),
{
    let mut sorted: Vec<DescriptorLeaseKey> = Vec::new();
    let mut index: usize = 0;
    assert(keys@.take(0) =~= sorted@);
    while index < keys.len()
        invariant
            index <= keys.len(),
            vstd::relations::sorted_by(sorted@, descriptor_order()),
            sorted@.to_multiset() =~= keys@.take(index as int).to_multiset(),
        decreases keys.len() - index,
    {
        insert_sorted(&mut sorted, keys[index]);
        proof {
            let taken = keys@.take(index as int);
            taken.to_multiset_ensures();
            assert(keys@.take(index + 1) =~= taken.push(keys@[index as int]));
        }
        index = index + 1;
    }
    proof {
        assert(keys@.take(index as int) =~= keys@);
        lemma_descriptor_order_is_total();
        keys@.lemma_sort_by_ensures(descriptor_order());
        vstd::seq_lib::lemma_sorted_unique(
            sorted@,
            keys@.sort_by(descriptor_order()),
            descriptor_order(),
        );
    }
    sorted
}

} // verus!
