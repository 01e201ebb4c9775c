//! The flows whose descriptors are being watched, by descriptor lease and in order of last use.
use vstd::prelude::*;

use crate::bounded_recency::{
    displaced_by, with_newest, BoundedInsertDisplacement, BoundedRecencyMap, DisplacementView,
};
use crate::keyed::{
    distinct_keys, holds, index_of, kept_but, lemma_filter_all, lemma_filter_keeps_values, lemma_held_at,
    lemma_index_of, lemma_same_filter, lemma_without_key, lemma_without_key_is_filter, value_of,
    with_value, without_key,
};
use crate::model::{Direction, FlowContext, FlowContextView};

use super::descriptor_lease::{
    descriptor_order, lemma_descriptor_order_is_total, observed_key, sort_by_descriptor, DescriptorLease, DescriptorLeaseKey,
};
use super::payload_direction::PayloadDirections;
use super::types::{
    EbpfCloseRangeTracepointObservation, EbpfCloseTracepointObservation, EbpfSocketReadObservation,
    EbpfSocketWriteObservation,
};

verus! {

/// A flow with how far each of its directions has been followed.
#[derive(Debug, PartialEq, Eq)]
pub struct TrackedEbpfFlow {
    pub flow: FlowContext,
    pub inbound_stream_offset: u64,
    pub outbound_stream_offset: u64,
    pub payload_directions: PayloadDirections,
}

#[verifier::ext_equal]
pub struct TrackedFlowView {
    pub flow: FlowContextView,
    pub inbound_stream_offset: u64,
    pub outbound_stream_offset: u64,
    pub payload_directions: PayloadDirections,
}

impl View for TrackedEbpfFlow {
    type V = TrackedFlowView;

    open spec fn view(&self) -> TrackedFlowView {
        TrackedFlowView {
            flow: self.flow@,
            inbound_stream_offset: self.inbound_stream_offset,
            outbound_stream_offset: self.outbound_stream_offset,
            payload_directions: self.payload_directions,
        }
    }
}

impl TrackedFlowView {
    /// A flow of which nothing has been seen.
    pub open spec fn fresh(
        flow: FlowContextView,
        payload_directions: PayloadDirections,
    ) -> TrackedFlowView {
        TrackedFlowView {
            flow,
            inbound_stream_offset: 0,
            outbound_stream_offset: 0,
            payload_directions,
        }
    }

    /// How far a direction has been followed.
    pub open spec fn offset(self, direction: Direction) -> u64 {
        match direction {
            Direction::Inbound => self.inbound_stream_offset,
            Direction::Outbound => self.outbound_stream_offset,
        }
    }

    /// The flow, with a direction followed up to `offset`.
    pub open spec fn with_offset(self, direction: Direction, offset: u64) -> TrackedFlowView {
        match direction {
            Direction::Inbound => TrackedFlowView { inbound_stream_offset: offset, ..self },
            Direction::Outbound => TrackedFlowView { outbound_stream_offset: offset, ..self },
        }
    }

    /// Whether the payload of some direction may be sampled.
    pub open spec fn has_allowance(self) -> bool {
        self.payload_directions != PayloadDirections::none()
    }
}

impl TrackedEbpfFlow {
    /// How far a direction has been followed.
    pub fn stream_offset(&self, direction: Direction) -> (offset: u64)
        ensures
            offset == self@.offset(direction),
    {
        match direction {
            Direction::Inbound => self.inbound_stream_offset,
            Direction::Outbound => self.outbound_stream_offset,
        }
    }

    pub fn set_stream_offset(&mut self, direction: Direction, offset: u64)
        ensures
            final(self)@ == old(self)@.with_offset(direction, offset),
    {
        match direction {
            Direction::Inbound => {
                self.inbound_stream_offset = offset;
            },
            Direction::Outbound => {
                self.outbound_stream_offset = offset;
            },
        }
    }

    pub fn allows_payload(&self, direction: Direction) -> (allowed: bool)
        ensures
            allowed == self@.payload_directions.has(direction),
    {
        self.payload_directions.allows(direction)
    }

    pub fn has_payload_allowance(&self) -> (allowed: bool)
        ensures
            allowed == self@.has_allowance(),
    {
        !self.payload_directions.is_empty()
    }

    pub fn payload_directions(&self) -> (directions: PayloadDirections)
        ensures
            directions == self@.payload_directions,
    {
        self.payload_directions
    }
}

/// A flow that is no longer tracked because another one is.
#[derive(Debug, PartialEq, Eq)]
pub enum TrackedEbpfFlowDisplacement {
    Replaced { key: DescriptorLeaseKey, watched: TrackedEbpfFlow },
    Evicted { key: DescriptorLeaseKey, watched: TrackedEbpfFlow },
    Dropped { key: DescriptorLeaseKey, watched: TrackedEbpfFlow },
}

/// The view of a displaced flow.
pub type FlowDisplacementView = DisplacementView<DescriptorLeaseKey, TrackedFlowView>;

impl View for TrackedEbpfFlowDisplacement {
    type V = DisplacementView<DescriptorLeaseKey, TrackedFlowView>;

    open spec fn view(&self) -> DisplacementView<DescriptorLeaseKey, TrackedFlowView> {
        match *self {
            TrackedEbpfFlowDisplacement::Replaced { key, watched } => DisplacementView::Replaced {
                key,
                value: watched@,
            },
            TrackedEbpfFlowDisplacement::Evicted { key, watched } => DisplacementView::Evicted {
                key,
                value: watched@,
            },
            TrackedEbpfFlowDisplacement::Dropped { key, watched } => DisplacementView::Dropped {
                key,
                value: watched@,
            },
        }
    }
}

/// The descriptor of a displaced flow.
pub open spec fn displaced_key(displacement: FlowDisplacementView) -> DescriptorLeaseKey {
    match displacement {
        DisplacementView::Replaced { key, .. } => key,
        DisplacementView::Evicted { key, .. } => key,
        DisplacementView::Dropped { key, .. } => key,
    }
}

/// The displaced flow.
pub open spec fn displaced_flow(displacement: FlowDisplacementView) -> TrackedFlowView {
    match displacement {
        DisplacementView::Replaced { value, .. } => value,
        DisplacementView::Evicted { value, .. } => value,
        DisplacementView::Dropped { value, .. } => value,
    }
}

pub const REPLACED_REASON: &'static str = "eBPF process observation replaced an existing descriptor lease with a newer flow observation; affected bytes and next stream offset are unknown";

pub const EVICTED_REASON: &'static str = "eBPF process observation userspace flow tracker evicted this flow because tracked-flow capacity was exceeded; affected bytes and next stream offset are unknown";

pub const DROPPED_REASON: &'static str = "eBPF process observation could not track this flow because tracked-flow capacity is zero; affected bytes and next stream offset are unknown";

/// Why a flow was displaced.
pub open spec fn displacement_reason(displacement: FlowDisplacementView) -> Seq<char> {
    match displacement {
        DisplacementView::Replaced { .. } => REPLACED_REASON@,
        DisplacementView::Evicted { .. } => EVICTED_REASON@,
        DisplacementView::Dropped { .. } => DROPPED_REASON@,
    }
}

/// The view of an optional displaced flow.
pub open spec fn flow_displacement_view(
    displacement: Option<TrackedEbpfFlowDisplacement>,
) -> Option<FlowDisplacementView> {
    match displacement {
        Some(inner) => Some(inner@),
        None => None,
    }
}

impl TrackedEbpfFlowDisplacement {
    pub fn from_bounded(
        displacement: BoundedInsertDisplacement<DescriptorLeaseKey, TrackedEbpfFlow>,
    ) -> (displaced: TrackedEbpfFlowDisplacement)
        ensures
            displaced@ == displacement@,
    {
        match displacement {
            BoundedInsertDisplacement::Replaced { key, value } =>
                TrackedEbpfFlowDisplacement::Replaced { key, watched: value },
            BoundedInsertDisplacement::Evicted { key, value } =>
                TrackedEbpfFlowDisplacement::Evicted { key, watched: value },
            BoundedInsertDisplacement::Dropped { key, value } =>
                TrackedEbpfFlowDisplacement::Dropped { key, watched: value },
        }
    }

    pub fn key(&self) -> (key: DescriptorLeaseKey)
        ensures
            key == displaced_key(self@),
    {
        match self {
            TrackedEbpfFlowDisplacement::Replaced { key, .. } => *key,
            TrackedEbpfFlowDisplacement::Evicted { key, .. } => *key,
            TrackedEbpfFlowDisplacement::Dropped { key, .. } => *key,
        }
    }

    pub fn into_tracked_flow(self) -> (watched: TrackedEbpfFlow)
        ensures
            watched@ == displaced_flow(self@),
    {
        match self {
            TrackedEbpfFlowDisplacement::Replaced { watched, .. } => watched,
            TrackedEbpfFlowDisplacement::Evicted { watched, .. } => watched,
            TrackedEbpfFlowDisplacement::Dropped { watched, .. } => watched,
        }
    }

    pub fn reason(&self) -> (reason: &'static str)
        ensures
            reason@ == displacement_reason(self@),
    {
        match self {
            TrackedEbpfFlowDisplacement::Replaced { .. } => REPLACED_REASON,
            TrackedEbpfFlowDisplacement::Evicted { .. } => EVICTED_REASON,
            TrackedEbpfFlowDisplacement::Dropped { .. } => DROPPED_REASON,
        }
    }

    /// Whether the kernel still samples the payload of the displaced flow though nothing that is
    /// tracked asks for it.
    pub fn should_revoke_allow_map_key(&self, retained_payload_allowance: bool) -> (revoke: bool)
        ensures
            revoke == (displaced_flow(self@).has_allowance() && !retained_payload_allowance),
    {
        self.tracked_flow().has_payload_allowance() && !retained_payload_allowance
    }

    pub fn tracked_flow(&self) -> (watched: &TrackedEbpfFlow)
        ensures
            watched@ == displaced_flow(self@),
    {
        match self {
            TrackedEbpfFlowDisplacement::Replaced { watched, .. } => watched,
            TrackedEbpfFlowDisplacement::Evicted { watched, .. } => watched,
            TrackedEbpfFlowDisplacement::Dropped { watched, .. } => watched,
        }
    }
}

/// The tracked flows by their descriptors, oldest use first.
pub type FlowEntries = Seq<(DescriptorLeaseKey, TrackedFlowView)>;

/// The keys of some entries, in their order.
pub open spec fn keys_of(entries: FlowEntries) -> Seq<DescriptorLeaseKey> {
    entries.map_values(|entry: (DescriptorLeaseKey, TrackedFlowView)| entry.0)
}

/// The keys of the entries that a range of closed descriptors holds, in descriptor order.
pub open spec fn keys_in_close_range(
    entries: FlowEntries,
    close_range: EbpfCloseRangeTracepointObservation,
) -> Seq<DescriptorLeaseKey> {
    keys_of(
        entries.filter(
            |entry: (DescriptorLeaseKey, TrackedFlowView)| entry.0.inside(close_range),
        ),
    ).sort_by(descriptor_order())
}

/// The flows under some keys.
pub open spec fn flows_under(
    entries: FlowEntries,
    keys: Seq<DescriptorLeaseKey>,
) -> Seq<TrackedFlowView> {
    keys.map_values(|key: DescriptorLeaseKey| value_of(entries, key))
}

/// The entries that a range of closed descriptors leaves.
pub open spec fn entries_outside(
    entries: FlowEntries,
    close_range: EbpfCloseRangeTracepointObservation,
) -> FlowEntries {
    entries.filter(
        |entry: (DescriptorLeaseKey, TrackedFlowView)| !entry.0.inside(close_range),
    )
}

/// The keys of the flows of a process whose payload is sampled, in descriptor order.
pub open spec fn sampled_keys_of_process(entries: FlowEntries, tgid: u32) -> Seq<
    DescriptorLeaseKey,
> {
    keys_of(
        entries.filter(
            |entry: (DescriptorLeaseKey, TrackedFlowView)|
                entry.0.tgid == tgid && entry.1.has_allowance(),
        ),
    ).sort_by(descriptor_order())
}

/// The flows whose payload is sampled, oldest use first.
pub open spec fn sampled_flows(entries: FlowEntries) -> Seq<TrackedFlowView> {
    entries.filter(
        |entry: (DescriptorLeaseKey, TrackedFlowView)| entry.1.has_allowance(),
    ).map_values(|entry: (DescriptorLeaseKey, TrackedFlowView)| entry.1)
}

/// Whether some tracked flow needs the allowance that the kernel keeps for a descriptor.
pub open spec fn allowance_is_retained(entries: FlowEntries, key: DescriptorLeaseKey) -> bool {
    exists|index: int|
        0 <= index < entries.len() && (#[trigger] entries[index]).0.shares_allowance_with(key)
            && entries[index].1.has_allowance()
}

/// Whether a payload observation on a descriptor belongs to a flow that may be sampled so.
pub open spec fn matches_payload(
    entries: FlowEntries,
    key: Option<DescriptorLeaseKey>,
    direction: Direction,
) -> bool {
    key matches Some(found) && holds(entries, found) && value_of(
        entries,
        found,
    ).payload_directions.has(direction)
}

/// The flows whose descriptors are being watched.
#[derive(Debug)]
pub struct TrackedEbpfFlows {
    pub by_lease: BoundedRecencyMap<DescriptorLeaseKey, TrackedEbpfFlow>,
}

impl View for TrackedEbpfFlows {
    type V = FlowEntries;

    open spec fn view(&self) -> FlowEntries {
        self.by_lease@
    }
}

impl TrackedEbpfFlows {
    pub open spec fn well_formed(&self) -> bool {
        self.by_lease.well_formed()
    }

    /// How many flows are tracked at most.
    pub open spec fn capacity(&self) -> usize {
        self.by_lease.max_entries
    }

    pub fn bounded(max_tracked_flows: usize) -> (flows: TrackedEbpfFlows)
        ensures
            flows@ == Seq::<(DescriptorLeaseKey, TrackedFlowView)>::empty(),
            flows.capacity() == max_tracked_flows,
            flows.well_formed(),
    {
        TrackedEbpfFlows { by_lease: BoundedRecencyMap::new(max_tracked_flows) }
    }

    pub fn insert_flow(
        &mut self,
        lease: DescriptorLease,
        flow: FlowContext,
        payload_directions: PayloadDirections,
    ) -> (displaced: Option<TrackedEbpfFlowDisplacement>)
        requires
            old(self).well_formed(),
        ensures
            final(self).well_formed(),
            final(self).capacity() == old(self).capacity(),
            final(self)@ == with_newest(
                old(self)@,
                old(self).capacity(),
                lease.lease_key(),
                TrackedFlowView::fresh(flow@, payload_directions),
            ),
            flow_displacement_view(displaced) == displaced_by(
                old(self)@,
                old(self).capacity(),
                lease.lease_key(),
                TrackedFlowView::fresh(flow@, payload_directions),
            ),
    {
        self.insert(lease.key(), flow, payload_directions)
    }

    /// Tracks a flow whose start was not observed.
    pub fn insert_recovered_flow(
        &mut self,
        key: DescriptorLeaseKey,
        flow: FlowContext,
        payload_directions: PayloadDirections,
    ) -> (displaced: Option<TrackedEbpfFlowDisplacement>)
        requires
            old(self).well_formed(),
        ensures
            final(self).well_formed(),
            final(self).capacity() == old(self).capacity(),
            final(self)@ == with_newest(
                old(self)@,
                old(self).capacity(),
                key,
                TrackedFlowView::fresh(flow@, payload_directions),
            ),
            flow_displacement_view(displaced) == displaced_by(
                old(self)@,
                old(self).capacity(),
                key,
                TrackedFlowView::fresh(flow@, payload_directions),
            ),
    {
        self.insert(key, flow, payload_directions)
    }

    fn insert(
        &mut self,
        key: DescriptorLeaseKey,
        flow: FlowContext,
        payload_directions: PayloadDirections,
    ) -> (displaced: Option<TrackedEbpfFlowDisplacement>)
        requires
            old(self).well_formed(),
        ensures
            final(self).well_formed(),
            final(self).capacity() == old(self).capacity(),
            final(self)@ == with_newest(
                old(self)@,
                old(self).capacity(),
                key,
                TrackedFlowView::fresh(flow@, payload_directions),
            ),
            flow_displacement_view(displaced) == displaced_by(
                old(self)@,
                old(self).capacity(),
                key,
                TrackedFlowView::fresh(flow@, payload_directions),
            ),
    {
        let watched = TrackedEbpfFlow {
            flow,
            inbound_stream_offset: 0,
            outbound_stream_offset: 0,
            payload_directions,
        };
        match self.by_lease.insert_displacing(key, watched) {
            Some(displacement) => Some(TrackedEbpfFlowDisplacement::from_bounded(displacement)),
            None => None,
        }
    }

    /// Forgets the flow of a closed descriptor.
    pub fn remove_close(&mut self, close: &EbpfCloseTracepointObservation) -> (removed: Option<
        TrackedEbpfFlow,
    >)
        requires
            old(self).well_formed(),
        ensures
            final(self).well_formed(),
            final(self).capacity() == old(self).capacity(),
            match observed_key(close.process.tgid, close.fd, close.fd_generation) {
                Some(key) => final(self)@ == without_key(old(self)@, key) && match removed {
                    Some(watched) => holds(old(self)@, key) && watched@ == value_of(
                        old(self)@,
                        key,
                    ),
                    None => !holds(old(self)@, key),
                },
                None => removed is None && final(self)@ == old(self)@,
            },
    {
        match DescriptorLeaseKey::from_close(close) {
            Some(key) => self.by_lease.remove(&key),
            None => None,
        }
    }

    /// Forgets the flows of a range of closed descriptors and returns them in descriptor order.
    pub fn remove_close_range(
        &mut self,
        close_range: &EbpfCloseRangeTracepointObservation,
    ) -> (removed: Vec<TrackedEbpfFlow>)
        requires
            old(self).well_formed(),
        ensures
            final(self).well_formed(),
            final(self).capacity() == old(self).capacity(),
            final(self)@ == entries_outside(old(self)@, *close_range),
            watched_views(removed@) == flows_under(
                old(self)@,
                keys_in_close_range(old(self)@, *close_range),
            ),
    {
        let mut unsorted: Vec<DescriptorLeaseKey> = Vec::new();
        let ghost entries = self@;
        let ghost inside = |entry: (DescriptorLeaseKey, TrackedFlowView)|
            entry.0.inside(*close_range);
        let mut index: usize = 0;
        assert(entries.take(0) =~= Seq::empty());
        assert(unsorted@ =~= keys_of(entries.take(0).filter(inside)));
        while index < self.by_lease.entries.len()
            invariant
                index <= self.by_lease.entries.len(),
                self@ == entries,
                self@ == old(self)@,
                *self == *old(self),
                inside == (|entry: (DescriptorLeaseKey, TrackedFlowView)|
                    entry.0.inside(*close_range)),
                unsorted@ == keys_of(entries.take(index as int).filter(inside)),
            decreases self.by_lease.entries.len() - index,
        {
            let key = self.by_lease.entries[index].0;
            proof {
                assert(entries[index as int].0 == key);
                lemma_filter_next(entries, inside, index as int);
            }
            if key.is_in_close_range(close_range) {
                unsorted.push(key);
            }
            index = index + 1;
        }
        assert(entries.take(index as int) =~= entries);
        let keys = sort_by_descriptor(&unsorted);
        proof {
            lemma_filter_keeps_values(entries, inside);
            lemma_sorted_keys(entries, inside);
            lemma_filter_all(entries, not_among(keys@.take(0)));
        }
        let mut removed: Vec<TrackedEbpfFlow> = Vec::new();
        let mut next: usize = 0;
        assert(watched_views(removed@) =~= flows_under(entries, keys@.take(0)));
        while next < keys.len()
            invariant
                next <= keys.len(),
                self.well_formed(),
                self.capacity() == old(self).capacity(),
                entries == old(self)@,
                distinct_keys(entries),
                keys@.no_duplicates(),
                inside == (|entry: (DescriptorLeaseKey, TrackedFlowView)|
                    entry.0.inside(*close_range)),
                forall|place: int|
                    0 <= place < keys@.len() ==> holds(entries, #[trigger] keys@[place]) && inside(
                        (keys@[place], value_of(entries, keys@[place])),
                    ),
                forall|index: int|
                    0 <= index < entries.len() && inside(#[trigger] entries[index])
                        ==> keys@.contains(entries[index].0),
                self@ == entries.filter(not_among(keys@.take(next as int))),
                watched_views(removed@) == flows_under(entries, keys@.take(next as int)),
            decreases keys.len() - next,
        {
            let key = keys[next];
            let ghost taken = keys@.take(next as int);
            let ghost kept = not_among(taken);
            proof {
                lemma_filter_keeps_values(entries, kept);
                lemma_index_of(entries, key);
                let origin = index_of(entries, key) as int;
                assert(!taken.contains(key)) by {
                    if taken.contains(key) {
                        let place = choose|place: int|
                            0 <= place < taken.len() && taken[place] == key;
                        assert(keys@[place] == keys@[next as int]);
                    }
                }
                assert(kept(entries[origin]));
                entries.lemma_filter_contains(kept, origin);
                let place = choose|place: int|
                    0 <= place < self@.len() && self@[place] == entries[origin];
                lemma_held_at(self@, place);
                lemma_without_key_is_filter(entries, kept, key);
                let longer = keys@.take(next + 1);
                assert(longer =~= taken.push(key));
                let both = kept_but(kept, key);
                assert forall|index: int| 0 <= index < entries.len() implies both(
                    #[trigger] entries[index],
                ) == not_among(longer)(entries[index]) by {
                    let listed = entries[index].0;
                    if taken.contains(listed) {
                        let place = choose|place: int|
                            0 <= place < taken.len() && taken[place] == listed;
                        assert(longer[place] == listed);
                    }
                    assert(longer[next as int] == key);
                }
                lemma_same_filter(entries, both, not_among(longer));
                assert(without_key(self@, key) == entries.filter(both));
                assert(value_of(self@, key) == value_of(entries, key));
            }
            let ghost before = removed@;
            if let Some(watched) = self.by_lease.remove(&key) {
                removed.push(watched);
            }
            proof {
                assert(keys@.take(next + 1) =~= taken.push(key));
                assert(watched_views(removed@) =~= watched_views(before).push(
                    value_of(entries, key),
                ));
                assert(watched_views(removed@) =~= flows_under(entries, keys@.take(next + 1)));
            }
            next = next + 1;
        }
        proof {
            assert(keys@.take(next as int) =~= keys@);
            let outside = |entry: (DescriptorLeaseKey, TrackedFlowView)|
                !entry.0.inside(*close_range);
            assert forall|index: int| 0 <= index < entries.len() implies not_among(keys@)(
                #[trigger] entries[index],
            ) == outside(entries[index]) by {
                if keys@.contains(entries[index].0) {
                    let place = choose|place: int|
                        0 <= place < keys@.len() && keys@[place] == entries[index].0;
                    assert(inside((keys@[place], value_of(entries, keys@[place]))));
                }
            }
            lemma_same_filter(entries, not_among(keys@), outside);
        }
        removed
    }

    /// The flows of a process whose payload is sampled, in descriptor order.
    pub fn active_payload_gap_targets_for_tgid(&self, tgid: u32) -> (targets: Vec<
        &TrackedEbpfFlow,
    >)
        requires
            self.well_formed(),
        ensures
            target_views(targets@) == flows_under(self@, sampled_keys_of_process(self@, tgid)),
    {
        let mut unsorted: Vec<DescriptorLeaseKey> = Vec::new();
        let ghost entries = self@;
        let ghost sampled = |entry: (DescriptorLeaseKey, TrackedFlowView)|
            entry.0.tgid == tgid && entry.1.has_allowance();
        let mut index: usize = 0;
        assert(entries.take(0) =~= Seq::empty());
        assert(unsorted@ =~= keys_of(entries.take(0).filter(sampled)));
        while index < self.by_lease.entries.len()
            invariant
                index <= self.by_lease.entries.len(),
                self@ == entries,
                sampled == (|entry: (DescriptorLeaseKey, TrackedFlowView)|
                    entry.0.tgid == tgid && entry.1.has_allowance()),
                unsorted@ == keys_of(entries.take(index as int).filter(sampled)),
            decreases self.by_lease.entries.len() - index,
        {
            let entry = &self.by_lease.entries[index];
            proof {
                assert(entries[index as int] == (entry.0, entry.1@));
                lemma_filter_next(entries, sampled, index as int);
            }
            if entry.0.tgid() == tgid && entry.1.has_payload_allowance() {
                unsorted.push(entry.0);
            }
            index = index + 1;
        }
        assert(entries.take(index as int) =~= entries);
        let keys = sort_by_descriptor(&unsorted);
        proof {
            lemma_filter_keeps_values(entries, sampled);
            lemma_sorted_keys(entries, sampled);
        }
        let mut targets: Vec<&TrackedEbpfFlow> = Vec::new();
        let mut next: usize = 0;
        assert(target_views(targets@) =~= flows_under(entries, keys@.take(0)));
        while next < keys.len()
            invariant
                next <= keys.len(),
                self@ == entries,
                forall|place: int|
                    0 <= place < keys@.len() ==> holds(entries, #[trigger] keys@[place]),
                target_views(targets@) == flows_under(entries, keys@.take(next as int)),
            decreases keys.len() - next,
        {
            let ghost before = targets@;
            if let Some(watched) = self.by_lease.get(&keys[next]) {
                targets.push(watched);
            }
            proof {
                assert(keys@.take(next + 1) =~= keys@.take(next as int).push(keys@[next as int]));
                assert(target_views(targets@) =~= target_views(before).push(
                    value_of(entries, keys@[next as int]),
                ));
                assert(target_views(targets@) =~= flows_under(entries, keys@.take(next + 1)));
            }
            next = next + 1;
        }
        assert(keys@.take(next as int) =~= keys@);
        targets
    }

    /// The flows whose payload is sampled, oldest use first.
    pub fn active_payload_gap_targets(&self) -> (targets: Vec<&TrackedEbpfFlow>)
        ensures
            target_views(targets@) == sampled_flows(self@),
    {
        let mut targets: Vec<&TrackedEbpfFlow> = Vec::new();
        let ghost entries = self@;
        let ghost sampled = |entry: (DescriptorLeaseKey, TrackedFlowView)| entry.1.has_allowance();
        let mut index: usize = 0;
        assert(entries.take(0) =~= Seq::empty());
        assert(target_views(targets@) =~= sampled_flows(entries.take(0)));
        while index < self.by_lease.entries.len()
            invariant
                index <= self.by_lease.entries.len(),
                self@ == entries,
                sampled == (|entry: (DescriptorLeaseKey, TrackedFlowView)|
                    entry.1.has_allowance()),
                target_views(targets@) == sampled_flows(entries.take(index as int)),
            decreases self.by_lease.entries.len() - index,
        {
            let entry = &self.by_lease.entries[index];
            let ghost before = targets@;
            proof {
                assert(entries[index as int] == (entry.0, entry.1@));
                lemma_filter_step(entries, sampled, index as int);
            }
            if entry.1.has_payload_allowance() {
                targets.push(&entry.1);
                assert(target_views(targets@) =~= target_views(before).push(entry.1@));
            }
            assert(target_views(targets@) =~= sampled_flows(entries.take(index + 1)));
            index = index + 1;
        }
        assert(entries.take(index as int) =~= entries);
        targets
    }

    pub fn has_active_payload_gap_targets(&self) -> (found: bool)
        ensures
            found == (sampled_flows(self@).len() > 0),
    {
        self.active_payload_gap_targets().len() > 0
    }

    /// Whether some tracked flow needs the allowance that the kernel keeps for a descriptor.
    pub fn has_payload_allowance_for_allow_map_key(&self, key: DescriptorLeaseKey) -> (retained:
        bool)
        ensures
            retained == allowance_is_retained(self@, key),
    {
        let mut index: usize = 0;
        while index < self.by_lease.entries.len()
            invariant
                index <= self.by_lease.entries.len(),
                forall|earlier: int|
                    0 <= earlier < index ==> !((#[trigger] self@[earlier]).0.shares_allowance_with(
                        key,
                    ) && self@[earlier].1.has_allowance()),
            decreases self.by_lease.entries.len() - index,
        {
            let entry = &self.by_lease.entries[index];
            assert(self@[index as int] == (entry.0, entry.1@));
            if entry.0.has_same_allow_map_key(key) && entry.1.has_payload_allowance() {
                return true;
            }
            index = index + 1;
        }
        false
    }

    /// The flow of a descriptor that was written to, if its outbound payload may be sampled.
    pub fn get_write_mut(&mut self, write: &EbpfSocketWriteObservation) -> (found: Option<
        &mut TrackedEbpfFlow,
    >)
        requires
            old(self).well_formed(),
        ensures
            final(self).capacity() == old(self).capacity(),
            match found {
                Some(watched) => {
                    let key = observed_key(write.process.tgid, write.fd, write.fd_generation);
                    matches_payload(old(self)@, key, Direction::Outbound) && watched@ == value_of(
                        old(self)@,
                        key->0,
                    ) && final(self)@ == used_with(old(self)@, key->0, final(watched)@)
                },
                None => !matches_payload(
                    old(self)@,
                    observed_key(write.process.tgid, write.fd, write.fd_generation),
                    Direction::Outbound,
                ) && final(self)@ == old(self)@,
            },
            final(self).well_formed(),
    {
        match DescriptorLeaseKey::from_write(write) {
            Some(key) => {
                if self.has_exact_payload_match(key, Direction::Outbound) {
                    return self.refresh_and_get_mut(key);
                }
                None
            },
            None => None,
        }
    }

    /// The flow of a descriptor that was read from, if its inbound payload may be sampled.
    pub fn get_read_mut(&mut self, read: &EbpfSocketReadObservation) -> (found: Option<
        &mut TrackedEbpfFlow,
    >)
        requires
            old(self).well_formed(),
        ensures
            final(self).capacity() == old(self).capacity(),
            match found {
                Some(watched) => {
                    let key = observed_key(read.process.tgid, read.fd, read.fd_generation);
                    matches_payload(old(self)@, key, Direction::Inbound) && watched@ == value_of(
                        old(self)@,
                        key->0,
                    ) && final(self)@ == used_with(old(self)@, key->0, final(watched)@)
                },
                None => !matches_payload(
                    old(self)@,
                    observed_key(read.process.tgid, read.fd, read.fd_generation),
                    Direction::Inbound,
                ) && final(self)@ == old(self)@,
            },
            final(self).well_formed(),
    {
        match DescriptorLeaseKey::from_read(read) {
            Some(key) => {
                if self.has_exact_payload_match(key, Direction::Inbound) {
                    return self.refresh_and_get_mut(key);
                }
                None
            },
            None => None,
        }
    }

    fn has_exact_payload_match(
        &self,
        key: DescriptorLeaseKey,
        required_direction: Direction,
    ) -> (found: bool)
        ensures
            found == matches_payload(self@, Some(key), required_direction),
    {
        match self.by_lease.get(&key) {
            Some(watched) => watched.allows_payload(required_direction),
            None => false,
        }
    }

    fn refresh_and_get_mut(&mut self, key: DescriptorLeaseKey) -> (found: Option<
        &mut TrackedEbpfFlow,
    >)
        requires
            old(self).well_formed(),
            holds(old(self)@, key),
        ensures
            final(self).capacity() == old(self).capacity(),
            found is Some,
            found->0@ == value_of(old(self)@, key),
            final(self)@ == used_with(old(self)@, key, final(found->0)@),
            final(self).well_formed(),
    {
        self.by_lease.refresh(&key);
        proof {
            let kept = without_key(old(self)@, key);
            lemma_without_key(old(self)@, key);
            lemma_held_at(self@, kept.len() as int);
            assert forall|value: TrackedFlowView|
                with_value(self@, key, value) == #[trigger] used_with(old(self)@, key, value) by {
                assert(with_value(self@, key, value) =~= used_with(old(self)@, key, value));
            }
        }
        self.by_lease.get_mut(&key)
    }
}

/// Which entries are under none of some keys.
spec fn not_among(keys: Seq<DescriptorLeaseKey>) -> spec_fn(
    (DescriptorLeaseKey, TrackedFlowView),
) -> bool {
    |entry: (DescriptorLeaseKey, TrackedFlowView)| !keys.contains(entry.0)
}

/// The views of some flows.
pub open spec fn watched_views(flows: Seq<TrackedEbpfFlow>) -> Seq<TrackedFlowView> {
    flows.map_values(|watched: TrackedEbpfFlow| watched@)
}

/// The views of some borrowed flows.
pub open spec fn target_views(flows: Seq<&TrackedEbpfFlow>) -> Seq<TrackedFlowView> {
    flows.map_values(|watched: &TrackedEbpfFlow| watched@)
}

/// The entries after a use that left `value` under `key`: it is the newest now.
pub open spec fn used_with(
    entries: FlowEntries,
    key: DescriptorLeaseKey,
    value: TrackedFlowView,
) -> FlowEntries {
    without_key(entries, key).push((key, value))
}

/// One more entry is left out or kept.
proof fn lemma_filter_step(
    entries: FlowEntries,
    kept: spec_fn((DescriptorLeaseKey, TrackedFlowView)) -> bool,
    index: int,
)
    requires
        0 <= index < entries.len(),
    ensures
        entries.take(index + 1).filter(kept) == if kept(entries[index]) {
            entries.take(index).filter(kept).push(entries[index])
        } else {
            entries.take(index).filter(kept)
        },
{
    reveal(Seq::filter);
    assert(entries.take(index + 1).drop_last() =~= entries.take(index));
}

/// One more entry is left out, or its key is listed.
proof fn lemma_filter_next(
    entries: FlowEntries,
    kept: spec_fn((DescriptorLeaseKey, TrackedFlowView)) -> bool,
    index: int,
)
    requires
        0 <= index < entries.len(),
    ensures
        keys_of(entries.take(index + 1).filter(kept)) == if kept(entries[index]) {
            keys_of(entries.take(index).filter(kept)).push(entries[index].0)
        } else {
            keys_of(entries.take(index).filter(kept))
        },
{
    lemma_filter_step(entries, kept, index);
    assert(keys_of(entries.take(index).filter(kept).push(entries[index])) =~= keys_of(
        entries.take(index).filter(kept),
    ).push(entries[index].0));
}

/// Sorting the keys of entries loses none of them and doubles none.
pub proof fn lemma_sorted_keys(
    entries: FlowEntries,
    kept: spec_fn((DescriptorLeaseKey, TrackedFlowView)) -> bool,
)
    requires
        distinct_keys(entries),
    ensures
        ({
            let sorted = keys_of(entries.filter(kept)).sort_by(descriptor_order());
            &&& sorted.no_duplicates()
            &&& forall|place: int|
                0 <= place < sorted.len() ==> holds(entries, #[trigger] sorted[place]) && kept(
                    (sorted[place], value_of(entries, sorted[place])),
                )
            &&& forall|index: int|
                0 <= index < entries.len() && kept(#[trigger] entries[index]) ==> sorted.contains(
                    entries[index].0,
                )
        }),
{
    let part = entries.filter(kept);
    let keys = keys_of(part);
    let sorted = keys.sort_by(descriptor_order());
    lemma_filter_keeps_values(entries, kept);
    assert(keys.no_duplicates()) by {
        assert forall|first: int, second: int|
            0 <= first < keys.len() && 0 <= second < keys.len() && first != second implies keys[first]
            != keys[second] by {
            if first < second {
                assert(part[first].0 != part[second].0);
            } else {
                assert(part[second].0 != part[first].0);
            }
        }
    }
    lemma_descriptor_order_is_total();
    keys.lemma_sort_by_ensures(descriptor_order());
    keys.to_multiset_ensures();
    sorted.to_multiset_ensures();
    keys.lemma_multiset_has_no_duplicates();
    assert forall|key: DescriptorLeaseKey| sorted.to_multiset().contains(key) implies sorted.to_multiset().count(key) == 1 by {
        assert(keys.to_multiset().contains(key));
    }
    sorted.lemma_multiset_has_no_duplicates_conv();
    assert forall|place: int| 0 <= place < sorted.len() implies holds(
        entries,
        #[trigger] sorted[place],
    ) && kept((sorted[place], value_of(entries, sorted[place]))) by {
        assert(sorted.contains(sorted[place]));
        assert(keys.contains(sorted[place]));
        let origin = choose|origin: int| 0 <= origin < keys.len() && keys[origin] == sorted[place];
        assert(part[origin].0 == sorted[place]);
    }
    assert forall|index: int|
        0 <= index < entries.len() && kept(#[trigger] entries[index]) implies sorted.contains(
        entries[index].0,
    ) by {
        entries.lemma_filter_contains(kept, index);
        let place = choose|place: int| 0 <= place < part.len() && part[place] == entries[index];
        assert(keys[place] == entries[index].0);
        assert(keys.contains(entries[index].0));
        assert(keys.to_multiset().contains(entries[index].0));
        assert(sorted.to_multiset().contains(entries[index].0));
    }
}

} // verus!
