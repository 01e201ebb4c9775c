//! How much out-of-order payload waits, per stream and in total.
use std::collections::VecDeque;
use vstd::prelude::*;

use crate::keyed::{holds, value_of, with_value, without_key, KeyedList, SameKey};
use crate::model::{Direction, FlowIdentity};

verus! {

/// The most segments that may wait in one stream.
pub const MAX_PENDING_SEGMENTS: usize = 64;

/// The most octets that may wait in one stream.
pub const MAX_PENDING_BYTES: usize = 262_144;

/// The most segments that may wait in all streams together.
pub const MAX_TOTAL_PENDING_SEGMENTS: usize = 4096;

/// The most octets that may wait in all streams together.
pub const MAX_TOTAL_PENDING_BYTES: usize = 16_777_216;

/// One direction of a flow.
#[derive(Debug, PartialEq, Eq)]
pub struct StreamKey {
    pub flow_id: FlowIdentity,
    pub direction: Direction,
}

#[verifier::ext_equal]
pub struct StreamKeyView {
    pub flow_id: Seq<char>,
    pub direction: Direction,
}

impl View for StreamKey {
    type V = StreamKeyView;

    open spec fn view(&self) -> StreamKeyView {
        StreamKeyView { flow_id: self.flow_id@, direction: self.direction }
    }
}

impl Clone for StreamKey {
    fn clone(&self) -> (copy: Self)
        ensures
            copy@ == self@,
    {
        StreamKey { flow_id: self.flow_id.clone(), direction: self.direction }
    }
}

impl SameKey for StreamKey {
    fn same_key(&self, other: &Self) -> (same: bool) {
        self.direction == other.direction && self.flow_id.same(&other.flow_id)
    }
}

impl StreamKey {
    pub fn new(flow_id: FlowIdentity, direction: Direction) -> (key: StreamKey)
        ensures
            key@ == (StreamKeyView { flow_id: flow_id@, direction }),
    {
        StreamKey { flow_id, direction }
    }
}

/// A number of waiting segments and their octets.
#[derive(Debug, Clone, Copy, PartialEq, Eq, Structural)]
pub struct PendingCount {
    pub segments: usize,
    pub bytes: usize,
}

/// `left + right`, held at the largest machine size.
pub open spec fn size_sum(left: usize, right: usize) -> usize {
    if left + right > usize::MAX {
        usize::MAX
    } else {
        (left + right) as usize
    }
}

/// `left - right`, held at zero.
pub open spec fn size_difference(left: usize, right: usize) -> usize {
    if left < right {
        0
    } else {
        (left - right) as usize
    }
}

impl PendingCount {
    pub open spec fn some_pending(self) -> bool {
        self.segments != 0 || self.bytes != 0
    }

    pub open spec fn plus(self, other: PendingCount) -> PendingCount {
        PendingCount {
            segments: size_sum(self.segments, other.segments),
            bytes: size_sum(self.bytes, other.bytes),
        }
    }

    pub open spec fn minus(self, other: PendingCount) -> PendingCount {
        PendingCount {
            segments: size_difference(self.segments, other.segments),
            bytes: size_difference(self.bytes, other.bytes),
        }
    }

    pub open spec fn nothing() -> PendingCount {
        PendingCount { segments: 0, bytes: 0 }
    }

    pub fn has_pending(self) -> (pending: bool)
        ensures
            pending == self.some_pending(),
    {
        self.segments != 0 || self.bytes != 0
    }

    fn combined(self, other: PendingCount) -> (sum: PendingCount)
        ensures
            sum == self.plus(other),
    {
        PendingCount {
            segments: self.segments.saturating_add(other.segments),
            bytes: self.bytes.saturating_add(other.bytes),
        }
    }

    fn remove(self, other: PendingCount) -> (difference: PendingCount)
        ensures
            difference == self.minus(other),
    {
        PendingCount {
            segments: self.segments.saturating_sub(other.segments),
            bytes: self.bytes.saturating_sub(other.bytes),
        }
    }
}

impl Default for PendingCount {
    fn default() -> (count: Self)
        ensures
            count == PendingCount::nothing(),
    {
        PendingCount { segments: 0, bytes: 0 }
    }
}

/// What is known of a stream in which something waits.
#[derive(Debug, Clone, Copy, PartialEq, Eq, Structural)]
pub struct PendingEntry {
    pub count: PendingCount,
    pub activity_monotonic_ns: u64,
}

/// A stream in the order of activity; stale once the stream was active again.
#[derive(Debug)]
pub struct PendingVictim {
    pub key: StreamKey,
    pub activity_monotonic_ns: u64,
}

#[verifier::ext_equal]
pub struct PendingVictimView {
    pub key: StreamKeyView,
    pub activity_monotonic_ns: u64,
}

impl View for PendingVictim {
    type V = PendingVictimView;

    open spec fn view(&self) -> PendingVictimView {
        PendingVictimView { key: self.key@, activity_monotonic_ns: self.activity_monotonic_ns }
    }
}

/// The views of a sequence of victims.
pub open spec fn victim_views(queue: Seq<PendingVictim>) -> Seq<PendingVictimView> {
    queue.map_values(|victim: PendingVictim| victim@)
}

proof fn lemma_victim_views_pop(queue: Seq<PendingVictim>)
    requires
        queue.len() > 0,
    ensures
        victim_views(queue)[0] == queue[0]@,
        victim_views(queue).len() > 0,
        victim_views(queue.subrange(1, queue.len() as int)) == victim_views(queue).drop_first(),
{
    assert(victim_views(queue.subrange(1, queue.len() as int)) =~= victim_views(
        queue,
    ).drop_first());
}

/// The streams in which something waits, their totals, and the order of their activity.
#[verifier::ext_equal]
pub struct PendingIndexView {
    pub entries: Seq<(StreamKeyView, PendingEntry)>,
    pub totals: PendingCount,
    pub queue: Seq<PendingVictimView>,
}

/// Whether a victim is a stream in which something waits and that was not active since.
pub open spec fn is_current(
    entries: Seq<(StreamKeyView, PendingEntry)>,
    victim: PendingVictimView,
) -> bool {
    holds(entries, victim.key) && value_of(entries, victim.key).activity_monotonic_ns
        == victim.activity_monotonic_ns
}

/// The victims that are not stale.
pub open spec fn current_victims(
    queue: Seq<PendingVictimView>,
    entries: Seq<(StreamKeyView, PendingEntry)>,
) -> Seq<PendingVictimView>
    decreases queue.len(),
{
    if queue.len() == 0 {
        Seq::empty()
    } else {
        let rest = current_victims(queue.drop_last(), entries);
        if is_current(entries, queue.last()) {
            rest.push(queue.last())
        } else {
            rest
        }
    }
}

/// How many victims may be queued for `streams` streams before stale ones are dropped.
pub open spec fn queue_limit(streams: nat) -> int {
    let quadrupled = if streams * 4 > usize::MAX {
        usize::MAX as int
    } else {
        (streams * 4) as int
    };
    if quadrupled + 1024 > usize::MAX {
        usize::MAX as int
    } else {
        quadrupled + 1024
    }
}

/// The queue, without stale victims where it is too long.
pub open spec fn compacted(
    queue: Seq<PendingVictimView>,
    entries: Seq<(StreamKeyView, PendingEntry)>,
) -> Seq<PendingVictimView> {
    if queue.len() <= queue_limit(entries.len()) {
        queue
    } else {
        current_victims(queue, entries)
    }
}

/// The index of the first victim that is not stale; the length where all are.
pub open spec fn first_current(
    queue: Seq<PendingVictimView>,
    entries: Seq<(StreamKeyView, PendingEntry)>,
) -> nat
    decreases queue.len(),
{
    if queue.len() == 0 || is_current(entries, queue[0]) {
        0
    } else {
        1 + first_current(queue.drop_first(), entries)
    }
}

impl PendingIndexView {
    pub open spec fn empty() -> PendingIndexView {
        PendingIndexView {
            entries: Seq::empty(),
            totals: PendingCount::nothing(),
            queue: Seq::empty(),
        }
    }

    /// What is on record for a stream.
    pub open spec fn recorded(self, key: StreamKeyView) -> PendingCount {
        if holds(self.entries, key) {
            value_of(self.entries, key).count
        } else {
            PendingCount::nothing()
        }
    }

    /// The index once nothing of `key` waits any more.
    pub open spec fn removed(self, key: StreamKeyView) -> PendingIndexView {
        PendingIndexView {
            entries: without_key(self.entries, key),
            totals: self.totals.minus(self.recorded(key)),
            queue: self.queue,
        }
    }

    /// The index once `after` is what waits of `key`.
    pub open spec fn updated(
        self,
        key: StreamKeyView,
        activity_monotonic_ns: u64,
        after: PendingCount,
    ) -> PendingIndexView {
        if after.some_pending() {
            let entries = with_value(
                self.entries,
                key,
                PendingEntry { count: after, activity_monotonic_ns },
            );
            PendingIndexView {
                entries,
                totals: self.totals.minus(self.recorded(key)).plus(after),
                queue: compacted(
                    self.queue.push(PendingVictimView { key, activity_monotonic_ns }),
                    entries,
                ),
            }
        } else {
            self.removed(key)
        }
    }

    /// Whether more waits than all streams together may hold.
    pub open spec fn over_limit(self) -> bool {
        self.totals.segments > MAX_TOTAL_PENDING_SEGMENTS || self.totals.bytes
            > MAX_TOTAL_PENDING_BYTES
    }

    /// The stream that was inactive for longest, if something waits in any.
    pub open spec fn oldest(self) -> Option<StreamKeyView> {
        let index = first_current(self.queue, self.entries);
        if index < self.queue.len() {
            Some(self.queue[index as int].key)
        } else {
            None
        }
    }

    /// The index once the oldest stream was taken from the queue, and the stale ones before it.
    pub open spec fn without_oldest(self) -> PendingIndexView {
        let index = first_current(self.queue, self.entries);
        PendingIndexView {
            queue: if index < self.queue.len() {
                self.queue.skip(index as int + 1)
            } else {
                Seq::empty()
            },
            ..self
        }
    }
}

/// Whether `left` comes no later than `right` in the byte order of texts.
pub open spec fn bytes_at_most(left: Seq<u8>, right: Seq<u8>) -> bool
    decreases left.len(),
{
    if left.len() == 0 {
        true
    } else if right.len() == 0 {
        false
    } else if left[0] != right[0] {
        left[0] < right[0]
    } else {
        bytes_at_most(left.drop_first(), right.drop_first())
    }
}

/// Whether a stream comes no later than another: by activity, then by flow, then by direction.
pub open spec fn no_younger(
    left: (StreamKeyView, PendingEntry),
    right: (StreamKeyView, PendingEntry),
) -> bool {
    let left_age = left.1.activity_monotonic_ns;
    let right_age = right.1.activity_monotonic_ns;
    let left_flow = vstd::utf8::encode_utf8(left.0.flow_id);
    let right_flow = vstd::utf8::encode_utf8(right.0.flow_id);
    if left_age != right_age {
        left_age < right_age
    } else if left_flow != right_flow {
        bytes_at_most(left_flow, right_flow)
    } else {
        left.0.direction.rank() <= right.0.direction.rank()
    }
}

/// How many of `entries`, from the front, come no later than `entry`.
pub open spec fn rank_among(
    entries: Seq<(StreamKeyView, PendingEntry)>,
    entry: (StreamKeyView, PendingEntry),
) -> nat
    decreases entries.len(),
{
    if entries.len() == 0 || !no_younger(entries[0], entry) {
        0
    } else {
        1 + rank_among(entries.drop_first(), entry)
    }
}

/// The entries in the order of their age.
pub open spec fn by_age(entries: Seq<(StreamKeyView, PendingEntry)>) -> Seq<
    (StreamKeyView, PendingEntry),
>
    decreases entries.len(),
{
    if entries.len() == 0 {
        Seq::empty()
    } else {
        let rest = by_age(entries.drop_last());
        rest.insert(rank_among(rest, entries.last()) as int, entries.last())
    }
}

fn text_at_most(left: &[u8], right: &[u8]) -> (ordered: bool)
    ensures
        ordered == bytes_at_most(left@, right@),
{
    let mut index: usize = 0;
    assert(left@.skip(0) =~= left@);
    assert(right@.skip(0) =~= right@);
    while index < left.len() && index < right.len()
        invariant
            index <= left.len(),
            index <= right.len(),
            bytes_at_most(left@, right@) == bytes_at_most(
                left@.skip(index as int),
                right@.skip(index as int),
            ),
        decreases left.len() - index,
    {
        let ghost left_rest = left@.skip(index as int);
        let ghost right_rest = right@.skip(index as int);
        assert(left_rest[0] == left@[index as int]);
        assert(right_rest[0] == right@[index as int]);
        if left[index] != right[index] {
            return left[index] < right[index];
        }
        assert(left_rest.drop_first() =~= left@.skip(index + 1));
        assert(right_rest.drop_first() =~= right@.skip(index + 1));
        index = index + 1;
    }
    assert(left@.skip(index as int).len() == left.len() - index);
    assert(right@.skip(index as int).len() == right.len() - index);
    left.len() <= index
}

fn is_no_younger(left: &(StreamKey, PendingEntry), right: &(StreamKey, PendingEntry)) -> (ordered:
    bool)
    ensures
        ordered == no_younger((left.0@, left.1), (right.0@, right.1)),
{
    if left.1.activity_monotonic_ns != right.1.activity_monotonic_ns {
        return left.1.activity_monotonic_ns < right.1.activity_monotonic_ns;
    }
    if !left.0.flow_id.same(&right.0.flow_id) {
        let left_flow = left.0.flow_id.0.as_str();
        let right_flow = right.0.flow_id.0.as_str();
        proof {
            if vstd::utf8::encode_utf8(left_flow@) == vstd::utf8::encode_utf8(right_flow@) {
                vstd::utf8::encode_utf8_decode_utf8(left_flow@);
                vstd::utf8::encode_utf8_decode_utf8(right_flow@);
            }
        }
        return text_at_most(left_flow.as_bytes(), right_flow.as_bytes());
    }
    match (left.0.direction, right.0.direction) {
        (Direction::Outbound, Direction::Inbound) => false,
        _ => true,
    }
}

/// The keys of a sequence of entries.
pub open spec fn entry_keys(entries: Seq<(StreamKeyView, PendingEntry)>) -> Seq<StreamKeyView> {
    entries.map_values(|entry: (StreamKeyView, PendingEntry)| entry.0)
}

/// The views of a sequence of keys.
pub open spec fn key_views(keys: Seq<StreamKey>) -> Seq<StreamKeyView> {
    keys.map_values(|key: StreamKey| key@)
}

/// The streams in which something waits, their totals, and the order of their activity.
pub struct PendingIndex {
    pub entries: KeyedList<StreamKey, PendingEntry>,
    pub totals: PendingCount,
    pub queue: VecDeque<PendingVictim>,
}

impl View for PendingIndex {
    type V = PendingIndexView;

    open spec fn view(&self) -> PendingIndexView {
        PendingIndexView {
            entries: self.entries@,
            totals: self.totals,
            queue: victim_views(self.queue@),
        }
    }
}

impl Default for PendingIndex {
    fn default() -> (index: Self)
        ensures
            index@ == PendingIndexView::empty(),
    {
        let index = PendingIndex {
            entries: KeyedList::new(),
            totals: PendingCount::default(),
            queue: VecDeque::new(),
        };
        assert(index@ =~= PendingIndexView::empty());
        index
    }
}

impl PendingIndex {
    /// Records what now waits of a stream.
    pub fn update(&mut self, key: &StreamKey, activity_monotonic_ns: u64, after: PendingCount)
        ensures
            final(self)@ == old(self)@.updated(key@, activity_monotonic_ns, after),
    {
        if !after.has_pending() {
            self.remove(key);
            return;
        }
        let entry = PendingEntry { count: after, activity_monotonic_ns };
        let before: PendingCount = match self.entries.find(key) {
            Some(index) => {
                let ghost was = self.entries@;
                let slot = self.entries.value_mut(index);
                let before: PendingCount = slot.count;
                *slot = entry;
                proof {
                    crate::keyed::lemma_index_of(was, key@);
                }
                assert(self.entries@ =~= with_value(was, key@, entry));
                before
            },
            None => {
                let ghost was = self.entries@;
                self.entries.push(key.clone(), entry);
                assert(self.entries@ =~= with_value(was, key@, entry));
                PendingCount::default()
            },
        };
        self.totals = self.totals.remove(before).combined(after);
        let victim = PendingVictim { key: key.clone(), activity_monotonic_ns };
        self.queue.push_back(victim);
        assert(victim_views(self.queue@) =~= old(self)@.queue.push(
            PendingVictimView { key: key@, activity_monotonic_ns },
        ));
        self.compact_if_needed();
    }

    /// Records that nothing of a stream waits any more.
    pub fn remove(&mut self, key: &StreamKey)
        ensures
            final(self)@ == old(self)@.removed(key@),
    {
        let before: PendingCount = match self.entries.remove(key) {
            Some(entry) => entry.count,
            None => PendingCount::default(),
        };
        self.totals = self.totals.remove(before);
    }

    /// Records that a stream is gone.
    pub fn clear(&mut self, key: &StreamKey)
        ensures
            final(self)@ == old(self)@.removed(key@),
    {
        self.remove(key);
    }

    pub fn has_pending(&self) -> (pending: bool)
        ensures
            pending == self@.totals.some_pending(),
    {
        self.totals.has_pending()
    }

    pub fn exceeds_limit(&self) -> (exceeds: bool)
        ensures
            exceeds == self@.over_limit(),
    {
        self.totals.segments > MAX_TOTAL_PENDING_SEGMENTS || self.totals.bytes
            > MAX_TOTAL_PENDING_BYTES
    }

    /// The streams in which something waits, the longest inactive first.
    pub fn keys(&self) -> (keys: Vec<StreamKey>)
        ensures
            key_views(keys@) == entry_keys(by_age(self@.entries)),
    {
        let mut sorted: Vec<(StreamKey, PendingEntry)> = Vec::new();
        let ghost mut order: Seq<(StreamKeyView, PendingEntry)> = Seq::empty();
        let mut read: usize = 0;
        while read < self.entries.entries.len()
            invariant
                read <= self.entries.entries.len(),
                order == by_age(self@.entries.take(read as int)),
                order.len() == sorted@.len(),
                forall|index: int|
                    0 <= index < sorted@.len() ==> order[index] == (
                        (#[trigger] sorted@[index]).0@,
                        sorted@[index].1,
                    ),
            decreases self.entries.entries.len() - read,
        {
            let source = &self.entries.entries[read];
            let entry = (source.0.clone(), source.1);
            let ghost view = (entry.0@, entry.1);
            let mut rank: usize = 0;
            proof {
                let longer = self@.entries.take(read + 1);
                assert(longer.drop_last() =~= self@.entries.take(read as int));
                assert(longer.last() == view);
                assert(order.skip(0) =~= order);
            }
            while rank < sorted.len() && is_no_younger(&sorted[rank], &entry)
                invariant
                    rank <= sorted.len(),
                    view == (entry.0@, entry.1),
                    order.len() == sorted@.len(),
                    forall|index: int|
                        0 <= index < sorted@.len() ==> order[index] == (
                            (#[trigger] sorted@[index]).0@,
                            sorted@[index].1,
                        ),
                    rank_among(order, view) == rank + rank_among(order.skip(rank as int), view),
                decreases sorted.len() - rank,
            {
                proof {
                    let rest = order.skip(rank as int);
                    assert(rest[0] == order[rank as int]);
                    assert(order[rank as int] == (
                        sorted@[rank as int].0@,
                        sorted@[rank as int].1,
                    ));
                    assert(rest.drop_first() =~= order.skip(rank + 1));
                }
                rank = rank + 1;
            }
            proof {
                let rest = order.skip(rank as int);
                if rank < sorted.len() {
                    assert(rest[0] == order[rank as int]);
                    assert(order[rank as int] == (
                        sorted@[rank as int].0@,
                        sorted@[rank as int].1,
                    ));
                }
                order = order.insert(rank as int, view);
            }
            sorted.insert(rank, entry);
            read = read + 1;
        }
        assert(self@.entries.take(self.entries.entries.len() as int) =~= self@.entries);
        let mut keys: Vec<StreamKey> = Vec::new();
        let mut index: usize = 0;
        while index < sorted.len()
            invariant
                index <= sorted.len(),
                order.len() == sorted@.len(),
                forall|place: int|
                    0 <= place < sorted@.len() ==> order[place] == (
                        (#[trigger] sorted@[place]).0@,
                        sorted@[place].1,
                    ),
                key_views(keys@) == entry_keys(order).take(index as int),
            decreases sorted.len() - index,
        {
            let key = sorted[index].0.clone();
            let ghost before = key_views(keys@);
            let ghost view = key@;
            keys.push(key);
            assert(order[index as int] == (sorted@[index as int].0@, sorted@[index as int].1));
            assert(key_views(keys@) =~= before.push(view));
            assert(entry_keys(order)[index as int] == view);
            assert(key_views(keys@) =~= entry_keys(order).take(index + 1));
            index = index + 1;
        }
        assert(entry_keys(order).take(sorted.len() as int) =~= entry_keys(order));
        keys
    }

    /// Takes the stream that was inactive for longest from the queue.
    pub fn pop_oldest(&mut self) -> (oldest: Option<StreamKey>)
        ensures
            final(self)@ == old(self)@.without_oldest(),
            match oldest {
                Some(key) => old(self)@.oldest() == Some(key@),
                None => old(self)@.oldest() is None,
            },
    {
        let ghost initial = self@.queue;
        let ghost mut passed: int = 0;
        assert(initial.skip(0) =~= initial);
        loop
            invariant
                0 <= passed <= initial.len(),
                self.entries == old(self).entries,
                self.totals == old(self).totals,
                initial == old(self)@.queue,
                victim_views(self.queue@) == initial.skip(passed),
                first_current(initial, self@.entries) == passed + first_current(
                    initial.skip(passed),
                    self@.entries,
                ),
            decreases self.queue@.len(),
        {
            let ghost rest = initial.skip(passed);
            let ghost queued = self.queue@;
            match self.queue.pop_front() {
                None => {
                    assert(rest.len() == 0);
                    assert(victim_views(self.queue@) =~= Seq::<PendingVictimView>::empty());
                    return None;
                },
                Some(victim) => {
                    proof {
                        lemma_victim_views_pop(queued);
                    }
                    assert(rest[0] == victim@);
                    assert(rest.drop_first() =~= initial.skip(passed + 1));
                    let current = match self.entries.get(&victim.key) {
                        Some(entry) => entry.activity_monotonic_ns == victim.activity_monotonic_ns,
                        None => false,
                    };
                    if current {
                        assert(initial[passed] == rest[0]);
                        return Some(victim.key);
                    }
                    proof {
                        passed = passed + 1;
                    }
                },
            }
        }
    }

    fn compact_if_needed(&mut self)
        ensures
            final(self)@ == (PendingIndexView {
                queue: compacted(old(self)@.queue, old(self)@.entries),
                ..old(self)@
            }),
    {
        let quadrupled: usize = match self.entries.len().checked_mul(4) {
            Some(product) => product,
            None => usize::MAX,
        };
        let limit: usize = quadrupled.saturating_add(1024);
        if self.queue.len() <= limit {
            return;
        }
        let ghost initial = self@.queue;
        let ghost mut passed: int = 0;
        let mut kept: VecDeque<PendingVictim> = VecDeque::new();
        assert(initial.skip(0) =~= initial);
        assert(initial.take(0) =~= Seq::<PendingVictimView>::empty());
        assert(victim_views(kept@) =~= Seq::<PendingVictimView>::empty());
        loop
            invariant_except_break
                0 <= passed <= initial.len(),
                self.entries == old(self).entries,
                self.totals == old(self).totals,
                victim_views(self.queue@) == initial.skip(passed),
                victim_views(kept@) == current_victims(initial.take(passed), self@.entries),
            ensures
                self.entries == old(self).entries,
                self.totals == old(self).totals,
                victim_views(kept@) == current_victims(initial, self@.entries),
            decreases self.queue@.len(),
        {
            let ghost queued = self.queue@;
            match self.queue.pop_front() {
                None => {
                    assert(initial.skip(passed).len() == 0);
                    assert(initial.take(passed) =~= initial);
                    break;
                },
                Some(victim) => {
                    proof {
                        lemma_victim_views_pop(queued);
                    }
                    assert(initial.skip(passed)[0] == victim@);
                    assert(initial.skip(passed).drop_first() =~= initial.skip(passed + 1));
                    let current = match self.entries.get(&victim.key) {
                        Some(entry) => entry.activity_monotonic_ns == victim.activity_monotonic_ns,
                        None => false,
                    };
                    proof {
                        let longer = initial.take(passed + 1);
                        assert(longer.drop_last() =~= initial.take(passed));
                        assert(longer.last() == victim@);
                    }
                    if current {
                        let ghost before = victim_views(kept@);
                        let ghost view = victim@;
                        kept.push_back(victim);
                        assert(victim_views(kept@) =~= before.push(view));
                    }
                    proof {
                        passed = passed + 1;
                    }
                },
            }
        }
        self.queue = kept;
    }
}

} // verus!
