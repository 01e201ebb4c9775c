//! What becomes of a watched descriptor, from its start to its close.
use vstd::prelude::*;

use crate::address::{IpAddress, TcpEndpoint};
use crate::bounded_recency::{well_bounded, with_newest};
use crate::event::CaptureEventView;
use crate::keyed::{
    distinct_keys, holds, lemma_held_at, lemma_index_of, lemma_with_value, lemma_without_key,
    value_of, with_value, without_key,
};
use crate::model::{Direction, FlowContextView, Timestamp};
use crate::octets::big_endian;
use crate::provider::CapturePollView;

use super::descriptor_lease::{observed_key, DescriptorLeaseKey};
use super::flow_start::{PendingEbpfFlowResolution, PendingEbpfFlowStart};
use super::observing::{AttemptReplies, ObservationStateView, Stepped};
use super::payload_authorization::sampled_directions;
use super::payload_bridge::{
    after_sample, payload_events_of, sample_events, texts_for, PayloadSampleView, SampleTexts,
};
use super::probe_event::{
    observation_of, socket_flow_endpoint, EbpfProcessProbeEvent, EbpfProcessProbeEventBody,
};
use super::resolution::{opened_by_reply, FlowReply};
use super::tracked_flow::{matches_payload, used_with, FlowEntries, TrackedFlowView};
use super::types::{
    EbpfCloseRangeTracepointObservation, EbpfCloseTracepointObservation, EbpfProcessObservationView,
    EbpfSocketEndpoint,
};

verus! {

/// All events that a step leaves to be taken: the one that it brings, and those that wait.
pub open spec fn told(step: Stepped) -> Seq<CaptureEventView> {
    match step.poll {
        Ok(CapturePollView::Event(event)) => seq![event] + step.state.pending_events,
        _ => step.state.pending_events,
    }
}

/// Whether an event tells one captured octet of a direction of a flow.
pub open spec fn tells_octet(
    event: CaptureEventView,
    flow: FlowContextView,
    direction: Direction,
    offset: int,
    octet: u8,
) -> bool {
    event matches CaptureEventView::Bytes(bytes) && bytes.flow == flow && bytes.direction
        == direction && bytes.stream_offset <= offset < bytes.stream_offset + bytes.bytes.len()
        && bytes.bytes[offset - bytes.stream_offset] == octet
}

/// Every octet that a sample holds is told, at its offset in its direction of the flow, unless the
/// buffer could not be read. A gap tells only of octets that the sample does not hold.
pub proof fn law_sampled_octets_are_told(
    watched: TrackedFlowView,
    sample: PayloadSampleView,
    texts: SampleTexts,
    timestamp: Timestamp,
    index: int,
)
    requires
        0 <= index < sample.buffer.len(),
        watched.offset(sample.direction) + sample.buffer.len() <= u64::MAX,
        !sample.read_failed,
    ensures
        ({
            let events = sample_events(watched, sample, texts, timestamp);
            let start = watched.offset(sample.direction);
            &&& events.len() > 0
            &&& tells_octet(
                events[0],
                watched.flow,
                sample.direction,
                start + index,
                sample.buffer[index],
            )
            &&& forall|place: int|
                #![trigger events[place]]
                0 <= place < events.len() && events[place] is Gap ==> events[place]->Gap_0.flow
                    == watched.flow && events[place]->Gap_0.gap.direction == sample.direction
                    && events[place]->Gap_0.gap.expected_offset >= start + sample.buffer.len()
        }),
{
}

/// A system call whose buffer could not be read is told as one gap, as long as the call.
pub proof fn law_unread_sample_is_a_gap(
    watched: TrackedFlowView,
    sample: PayloadSampleView,
    texts: SampleTexts,
    timestamp: Timestamp,
)
    requires
        sample.read_failed,
        watched.offset(sample.direction) + sample.original_len <= u64::MAX,
    ensures
        ({
            let events = sample_events(watched, sample, texts, timestamp);
            &&& events.len() == 1
            &&& events[0] is Gap
            &&& events[0]->Gap_0.flow == watched.flow
            &&& events[0]->Gap_0.gap.direction == sample.direction
            &&& events[0]->Gap_0.gap.expected_offset == watched.offset(sample.direction)
            &&& events[0]->Gap_0.gap.next_offset == Some(
                (watched.offset(sample.direction) + sample.original_len) as u64,
            )
        }),
{
}

/// Payload belongs to the flow under exactly its descriptor: the process, the number and the
/// generation of the number. Its events are added to those that wait, in order, and its direction
/// goes on behind the system call; every other flow is left alone. Payload of another generation,
/// or of a direction that is not sampled, brings nothing.
pub proof fn law_payload_belongs_to_its_descriptor(
    state: ObservationStateView,
    tgid: u32,
    fd: i32,
    fd_generation: u64,
    sample: PayloadSampleView,
    wall_time_unix_ns: i64,
    key: DescriptorLeaseKey,
)
    requires
        distinct_keys(state.flows),
        holds(state.flows, key),
    ensures
        ({
            let next = state.sampled(
                observed_key(tgid, fd, fd_generation),
                sample,
                wall_time_unix_ns,
            );
            let watched = value_of(state.flows, key);
            let named = key.tgid == tgid && key.fd == fd && key.fd_generation == fd_generation && fd
                >= 0 && fd_generation != 0;
            let allowed = match sample.direction {
                Direction::Inbound => watched.payload_directions.inbound,
                Direction::Outbound => watched.payload_directions.outbound,
            };
            &&& holds(next.state.flows, key)
            &&& value_of(next.state.flows, key).flow == watched.flow
            &&& named && allowed ==> told(next) == state.pending_events + sample_events(
                watched,
                sample,
                texts_for(sample.direction),
                state.stamp(wall_time_unix_ns),
            ) && value_of(next.state.flows, key) == after_sample(watched, sample)
            &&& named && !allowed ==> told(next) == state.pending_events && next.state.flows
                == state.flows
            &&& !named ==> value_of(next.state.flows, key) == watched
        }),
{
    let seen = observed_key(tgid, fd, fd_generation);
    let events = payload_events_of(
        state.flows,
        seen,
        sample,
        texts_for(sample.direction),
        state.stamp(wall_time_unix_ns),
    );
    let queued = state.pending_events + events;
    if queued.len() > 0 {
        assert(seq![queued[0]] + queued.drop_first() =~= queued);
    }
    assert(told(state.sampled(seen, sample, wall_time_unix_ns)) =~= queued);
    if matches_payload(state.flows, seen, sample.direction) {
        let own = seen->0;
        let value = after_sample(value_of(state.flows, own), sample);
        lemma_used(state.flows, own, value);
        if own != key {
            assert(value_of(used_with(state.flows, own, value), key) == value_of(
                state.flows,
                key,
            ));
        }
    } else {
        assert(queued =~= state.pending_events);
    }
}

/// Using an entry puts it last, and leaves the others as they are.
proof fn lemma_used(entries: FlowEntries, key: DescriptorLeaseKey, value: TrackedFlowView)
    requires
        distinct_keys(entries),
    ensures
        distinct_keys(used_with(entries, key, value)),
        holds(used_with(entries, key, value), key),
        value_of(used_with(entries, key, value), key) == value,
        forall|other: DescriptorLeaseKey|
            other != key ==> #[trigger] holds(used_with(entries, key, value), other) == holds(
                entries,
                other,
            ),
        forall|other: DescriptorLeaseKey|
            #![trigger value_of(used_with(entries, key, value), other)]
            other != key && holds(entries, other) ==> value_of(
                used_with(entries, key, value),
                other,
            ) == value_of(entries, other),
{
    let rest = without_key(entries, key);
    lemma_without_key(entries, key);
    lemma_with_value(rest, key, value);
    assert(used_with(entries, key, value) == with_value(rest, key, value));
    assert forall|other: DescriptorLeaseKey|
        #![trigger holds(used_with(entries, key, value), other)]
        #![trigger value_of(used_with(entries, key, value), other)]
        other != key implies holds(used_with(entries, key, value), other) == holds(entries, other)
        && (holds(entries, other) ==> value_of(used_with(entries, key, value), other) == value_of(
        entries,
        other,
    )) by {
        assert(holds(with_value(rest, key, value), other) == holds(rest, other));
        if holds(entries, other) {
            assert(value_of(with_value(rest, key, value), other) == value_of(rest, other));
            assert(value_of(without_key(entries, key), other) == value_of(entries, other));
        }
    }
}

/// Closing a descriptor ends the flow under exactly its process, number and generation, and tells
/// so; every other flow is left alone, and so is one of another generation of the number.
pub proof fn law_close_ends_its_flow_alone(
    state: ObservationStateView,
    close: EbpfCloseTracepointObservation,
    wall_time_unix_ns: i64,
    key: DescriptorLeaseKey,
)
    requires
        distinct_keys(state.flows),
        holds(state.flows, key),
    ensures
        ({
            let next = state.descriptor_closed(close, wall_time_unix_ns);
            let named = key.tgid == close.process.tgid && key.fd == close.fd && key.fd_generation
                == close.fd_generation && close.fd >= 0 && close.fd_generation != 0;
            &&& named ==> !holds(next.state.flows, key) && (next.poll matches Ok(
                CapturePollView::Event(CaptureEventView::ConnectionClosed { flow, .. }),
            ) && flow == value_of(state.flows, key).flow)
            &&& !named ==> holds(next.state.flows, key) && value_of(next.state.flows, key)
                == value_of(state.flows, key)
        }),
{
    if let Some(closed) = observed_key(close.process.tgid, close.fd, close.fd_generation) {
        lemma_without_key(state.flows, closed);
        if closed != key {
            assert(value_of(without_key(state.flows, closed), key) == value_of(state.flows, key));
            assert(holds(without_key(state.flows, closed), key) == holds(state.flows, key));
        }
    }
}

/// Closing a range of descriptors, both ends included, ends the flows of the process under numbers
/// in the range, whatever their generation, and no other.
pub proof fn law_range_ends_the_flows_inside(
    state: ObservationStateView,
    close_range: EbpfCloseRangeTracepointObservation,
    wall_time_unix_ns: i64,
    index: int,
)
    requires
        distinct_keys(state.flows),
        0 <= index < state.flows.len(),
    ensures
        ({
            let next = state.range_closed(close_range, wall_time_unix_ns);
            let key = state.flows[index].0;
            let inside = key.tgid == close_range.process.tgid && close_range.first_fd as int
                <= key.fd as int && key.fd as int <= close_range.last_fd as int;
            next.state.flows.contains(state.flows[index]) <==> !inside
        }),
{
    let outside = |entry: (DescriptorLeaseKey, TrackedFlowView)| !entry.0.inside(close_range);
    let next = state.range_closed(close_range, wall_time_unix_ns);
    let kept = state.flows.filter(outside);
    assert(next.state.flows == kept);
    let entry = state.flows[index];
    if outside(entry) {
        state.flows.lemma_filter_contains(outside, index);
    } else if kept.contains(entry) {
        let place = choose|place: int| 0 <= place < kept.len() && kept[place] == entry;
        state.flows.lemma_filter_pred(outside, place);
    }
}

/// The start of a flow that is found, on a descriptor with a valid lease, is told and tracked from
/// then on: nothing of it was seen yet, and its payload is sampled in the selected directions. This
/// holds where flows can be tracked and the kernel refuses nothing.
pub proof fn law_found_start_is_told_and_tracked(
    state: ObservationStateView,
    start: PendingEbpfFlowStart,
    flow: FlowContextView,
    timestamp: Timestamp,
    replies: AttemptReplies,
)
    requires
        well_bounded(state.flows, state.capacity),
        state.capacity > 0,
        start.lease() is Some,
        replies.allowed is Ok,
        replies.revoked is Ok,
    ensures
        ({
            let event = super::bridge::opened(flow, timestamp);
            let next = state.started(start, event, replies);
            let key = DescriptorLeaseKey {
                tgid: start.process().tgid,
                fd: start.descriptor(),
                fd_generation: start.generation(),
            };
            &&& next.poll == Ok::<CapturePollView, crate::provider::CaptureErrorView>(
                CapturePollView::Event(event),
            )
            &&& holds(next.state.flows, key)
            &&& value_of(next.state.flows, key).flow == flow
            &&& value_of(next.state.flows, key).inbound_stream_offset == 0
            &&& value_of(next.state.flows, key).outbound_stream_offset == 0
            &&& value_of(next.state.flows, key).payload_directions == sampled_directions(
                flow,
                state.selector,
            )
        }),
{
    reveal(ObservationStateView::started);
    reveal(ObservationStateView::inserted);
    let lease = start.lease()->0;
    let key = lease.lease_key();
    let value = TrackedFlowView::fresh(flow, sampled_directions(flow, state.selector));
    let flows = with_newest(state.flows, state.capacity, key, value);
    lemma_without_key(state.flows, key);
    lemma_with_value(without_key(state.flows, key), key, value);
    let rest = state.flows.drop_first();
    if !holds(state.flows, key) && state.flows.len() >= state.capacity {
        assert forall|first: int, second: int|
            #![trigger rest[first], rest[second]]
            0 <= first < second < rest.len() implies rest[first].0 != rest[second].0 by {
            assert(rest[first] == state.flows[first + 1]);
            assert(rest[second] == state.flows[second + 1]);
        }
        lemma_index_of(rest, key);
        if holds(rest, key) {
            let place = crate::keyed::index_of(rest, key) as int;
            assert(rest[place] == state.flows[place + 1]);
            lemma_held_at(state.flows, place + 1);
        }
        lemma_with_value(rest, key, value);
    }
    assert(holds(flows, key) && value_of(flows, key) == value);
}

/// A lease is valid exactly if the number is not negative and neither the epoch of the table nor the
/// generation of the number is zero; it is that of the observed process and number.
pub proof fn law_lease_needs_all_its_parts(start: PendingEbpfFlowStart)
    ensures
        start.lease() is Some <==> start.descriptor() >= 0 && start.epoch() != 0
            && start.generation() != 0,
        start.lease() matches Some(lease) ==> lease.tgid == start.process().tgid && lease.fd
            == start.descriptor() && lease.fd_table_epoch == start.epoch() && lease.fd_generation
            == start.generation(),
{
}

/// A start whose connection is not found is looked for again, one attempt later and not before the
/// sleep is over, until all retries are used up.
pub proof fn law_start_is_looked_for_again(
    state: ObservationStateView,
    pending: PendingEbpfFlowResolution,
    now_ns: u64,
    later_ns: u64,
    replies: AttemptReplies,
)
    requires
        replies.flow matches Ok(None),
        pending.attempts_completed < state.retries,
        state.pending_flows.len() < 8192,
    ensures
        ({
            let next = state.attempted(pending, false, now_ns, replies);
            let again = next.state.pending_flows.last();
            &&& next.state.pending_flows.drop_last() == state.pending_flows
            &&& again.flow_start == pending.flow_start
            &&& again.timestamp == pending.timestamp
            &&& again.attempts_completed == pending.attempts_completed + 1
            &&& again.waits(later_ns) <==> later_ns < now_ns + state.retry_sleep_ns
        }),
{
    reveal(ObservationStateView::attempted);
    let next = state.attempted(pending, false, now_ns, replies);
    assert(next.state.pending_flows.drop_last() =~= state.pending_flows);
}

/// A bit of a number.
pub open spec fn bit_of(number: u16, value: int) -> bool {
    (number as int / value) % 2 == 1
}

proof fn lemma_bits(flags: u16)
    ensures
        (flags & 1 != 0) == bit_of(flags, 1),
        (flags & 2 != 0) == bit_of(flags, 2),
        (flags & 4 != 0) == bit_of(flags, 4),
{
    assert((flags & 1 != 0) == (flags % 2 == 1)) by (bit_vector);
    assert((flags & 2 != 0) == (flags / 2 % 2 == 1)) by (bit_vector);
    assert((flags & 4 != 0) == (flags / 4 % 2 == 1)) by (bit_vector);
}

/// What a sampled system call moved is told as the kernel wrote it: the captured octets from the
/// front of the buffer, the length of the call, and by the flags whether it was cut off, could not
/// be read, or was moved by the kernel itself.
pub proof fn law_sample_is_read_as_written(event: EbpfProcessProbeEvent)
    requires
        event.well_formed(),
    ensures
        event.body matches EbpfProcessProbeEventBody::SocketWriteSampled(sample) ==> (
        observation_of(event) matches EbpfProcessObservationView::Write(write) && write.process.tgid
            == event.tgid && write.process.pid == event.pid && write.fd == sample.fd
            && write.fd_generation == sample.fd_generation && write.original_len
            == sample.original_len && write.buffer.len() == sample.captured_len && (forall|
            index: int,
        |
            0 <= index < write.buffer.len() ==> #[trigger] write.buffer[index]
                == sample.buffer@[index]) && write.truncated == bit_of(event.flags, 1)
            && write.read_failed == bit_of(event.flags, 2) && write.kernel_transfer == bit_of(
            event.flags,
            4,
        )),
        event.body matches EbpfProcessProbeEventBody::SocketReadSampled(sample) ==> (
        observation_of(event) matches EbpfProcessObservationView::Read(read) && read.process.tgid
            == event.tgid && read.process.pid == event.pid && read.fd == sample.fd
            && read.fd_generation == sample.fd_generation && read.original_len
            == sample.original_len && read.buffer.len() == sample.captured_len && (forall|
            index: int,
        |
            0 <= index < read.buffer.len() ==> #[trigger] read.buffer[index]
                == sample.buffer@[index]) && read.truncated == bit_of(event.flags, 1)
            && read.read_failed == bit_of(event.flags, 2)),
{
    lemma_bits(event.flags);
}

/// A start of a flow is told as the kernel wrote it: the process, the descriptor with its epoch and
/// generation, and the remote end where the flags say that it is valid. Two is the family of IPv4,
/// ten that of IPv6.
pub proof fn law_start_is_read_as_written(event: EbpfProcessProbeEvent)
    ensures
        event.body matches EbpfProcessProbeEventBody::ConnectTracepointObserved(seen) ==> (
        observation_of(event) matches EbpfProcessObservationView::Connect(connect)
            && connect.process.tgid == event.tgid && connect.process.pid == event.pid
            && connect.process.uid == event.uid && connect.process.gid == event.gid
            && connect.process.command == event.command && connect.fd == seen.fd
            && connect.fd_table_epoch == seen.fd_table_epoch && connect.fd_generation
            == seen.fd_generation && is_remote_end(
            event.flags,
            seen.address_family,
            seen.remote_port,
            seen.remote_address@,
            connect.endpoint,
        )),
        event.body matches EbpfProcessProbeEventBody::AcceptTracepointObserved(seen) ==> (
        observation_of(event) matches EbpfProcessObservationView::Accept(accept)
            && accept.process.tgid == event.tgid && accept.process.pid == event.pid
            && accept.process.uid == event.uid && accept.process.gid == event.gid
            && accept.process.command == event.command && accept.fd == seen.fd && accept.listen_fd
            == seen.listen_fd && accept.fd_table_epoch == seen.fd_table_epoch
            && accept.fd_generation == seen.fd_generation && is_remote_end(
            event.flags,
            seen.address_family,
            seen.remote_port,
            seen.remote_address@,
            accept.endpoint,
        )),
{
    lemma_bits(event.flags);
    if let EbpfProcessProbeEventBody::ConnectTracepointObserved(seen) = event.body {
        lemma_remote_end(
            event.flags,
            seen.address_family,
            seen.remote_port,
            seen.remote_address@,
        );
    }
    if let EbpfProcessProbeEventBody::AcceptTracepointObserved(seen) = event.body {
        lemma_remote_end(
            event.flags,
            seen.address_family,
            seen.remote_port,
            seen.remote_address@,
        );
    }
}

/// Whether an end is the remote one that flags, a family, a port and octets tell of.
pub open spec fn is_remote_end(
    flags: u16,
    family: u16,
    port: u16,
    octets: Seq<u8>,
    end: EbpfSocketEndpoint,
) -> bool {
    &&& bit_of(flags, 1) && family == 2 ==> end == EbpfSocketEndpoint::Remote(
        TcpEndpoint {
            address: IpAddress::V4(
                (octets[0] * 0x100_0000 + octets[1] * 0x1_0000 + octets[2] * 0x100
                    + octets[3]) as u32,
            ),
            port,
        },
    )
    &&& bit_of(flags, 1) && family == 10 ==> (end matches EbpfSocketEndpoint::Remote(remote)
        && remote.port == port)
    &&& bit_of(flags, 1) && family != 2 && family != 10 ==> end
        == EbpfSocketEndpoint::UnsupportedAddressFamily { value: family }
    &&& !bit_of(flags, 1) && bit_of(flags, 2) ==> end == EbpfSocketEndpoint::SockaddrReadFailed
    &&& !bit_of(flags, 1) && !bit_of(flags, 2) && bit_of(flags, 4) ==> end
        == EbpfSocketEndpoint::UnsupportedAddressFamily { value: family }
    &&& !bit_of(flags, 1) && !bit_of(flags, 2) && !bit_of(flags, 4) ==> end
        == EbpfSocketEndpoint::Missing
}

proof fn lemma_remote_end(flags: u16, family: u16, port: u16, octets: Seq<u8>)
    requires
        octets.len() == 16,
    ensures
        is_remote_end(
            flags,
            family,
            port,
            octets,
            socket_flow_endpoint(flags, family, port, octets),
        ),
{
    lemma_bits(flags);
    let four = octets.subrange(0, 4);
    reveal_with_fuel(big_endian, 5);
    assert(four.drop_last().drop_last().drop_last().drop_last().len() == 0);
    assert(big_endian(four) == octets[0] * 0x100_0000 + octets[1] * 0x1_0000 + octets[2] * 0x100
        + octets[3]);
}

/// A resolved connection is told as it was resolved: its process, its two ends, the cookie of its
/// socket and the confidence in it, at the time of the observation.
pub proof fn law_resolved_start_is_told_as_resolved(reply: FlowReply, timestamp: Timestamp)
    ensures
        reply matches Ok(Some(resolved)) ==> (opened_by_reply(reply, timestamp) matches Ok(
            Some(CaptureEventView::ConnectionOpened { timestamp: told_at, flow, .. }),
        ) && told_at == timestamp && flow.process == resolved.process && flow.local
            == crate::address::address_port(resolved.connection.local) && flow.remote
            == crate::address::address_port(resolved.connection.remote) && flow.socket_cookie
            == resolved.socket_cookie && flow.attribution_confidence == resolved.confidence
            && flow.start_monotonic_ns == timestamp.monotonic_ns),
        reply matches Ok(None) ==> opened_by_reply(reply, timestamp) matches Ok(None),
        reply matches Err(error) ==> opened_by_reply(reply, timestamp) == Err::<
            Option<CaptureEventView>,
            crate::provider::CaptureErrorView,
        >(error),
{
}

} // verus!
