//! What is known of one connection.
use vstd::prelude::*;

use crate::address::TcpEndpoint;
use crate::keyed::SameKey;
use crate::libpcap::decoder::{DecodedTcpSegment, TcpSegmentView};
use crate::libpcap::flow::model::{FlowCloseSequence, FlowClosure, FlowClosureView};
use crate::libpcap::tcp_seq::{before, seq_before};
use crate::model::{Direction, FlowContext, FlowContextView};

verus! {

/// One connection, with the SYN and the close of each direction.
#[derive(Debug)]
pub struct FlowRecord {
    pub local_endpoint: TcpEndpoint,
    pub confidence: u8,
    pub flow: FlowContext,
    pub last_seen_wall_time_unix_ns: i64,
    pub local_close: Option<FlowCloseSequence>,
    pub remote_close: Option<FlowCloseSequence>,
    pub local_syn: Option<u32>,
    pub remote_syn: Option<u32>,
    pub reset: bool,
}

#[verifier::ext_equal]
pub struct FlowRecordView {
    pub local_endpoint: TcpEndpoint,
    pub confidence: u8,
    pub flow: FlowContextView,
    pub last_seen_wall_time_unix_ns: i64,
    pub local_close: Option<FlowCloseSequence>,
    pub remote_close: Option<FlowCloseSequence>,
    pub local_syn: Option<u32>,
    pub remote_syn: Option<u32>,
    pub reset: bool,
}

impl View for FlowRecord {
    type V = FlowRecordView;

    open spec fn view(&self) -> FlowRecordView {
        FlowRecordView {
            local_endpoint: self.local_endpoint,
            confidence: self.confidence,
            flow: self.flow@,
            last_seen_wall_time_unix_ns: self.last_seen_wall_time_unix_ns,
            local_close: self.local_close,
            remote_close: self.remote_close,
            local_syn: self.local_syn,
            remote_syn: self.remote_syn,
            reset: self.reset,
        }
    }
}

/// The earlier of two values: what was noted first stays.
pub open spec fn first_noted<T>(noted: Option<T>, value: T) -> Option<T> {
    match noted {
        Some(earlier) => Some(earlier),
        None => Some(value),
    }
}

impl FlowRecordView {
    /// A connection of which nothing but its ends is known yet.
    pub open spec fn opened(
        local_endpoint: TcpEndpoint,
        confidence: u8,
        flow: FlowContextView,
        last_seen_wall_time_unix_ns: i64,
    ) -> FlowRecordView {
        FlowRecordView {
            local_endpoint,
            confidence,
            flow,
            last_seen_wall_time_unix_ns,
            local_close: None,
            remote_close: None,
            local_syn: None,
            remote_syn: None,
            reset: false,
        }
    }

    /// Which way a segment of the connection travels.
    pub open spec fn direction_of(self, segment: TcpSegmentView) -> Direction {
        if segment.source_end() == self.local_endpoint {
            Direction::Outbound
        } else {
            Direction::Inbound
        }
    }

    pub open spec fn close_of(self, direction: Direction) -> Option<FlowCloseSequence> {
        match direction {
            Direction::Outbound => self.local_close,
            Direction::Inbound => self.remote_close,
        }
    }

    pub open spec fn syn_of(self, direction: Direction) -> Option<u32> {
        match direction {
            Direction::Outbound => self.local_syn,
            Direction::Inbound => self.remote_syn,
        }
    }

    pub open spec fn with_syn(self, direction: Direction, sequence: u32) -> FlowRecordView {
        match direction {
            Direction::Outbound => FlowRecordView {
                local_syn: first_noted(self.local_syn, sequence),
                ..self
            },
            Direction::Inbound => FlowRecordView {
                remote_syn: first_noted(self.remote_syn, sequence),
                ..self
            },
        }
    }

    pub open spec fn with_close(self, close: FlowCloseSequence) -> FlowRecordView {
        match close.direction {
            Direction::Outbound => FlowRecordView {
                local_close: first_noted(self.local_close, close),
                ..self
            },
            Direction::Inbound => FlowRecordView {
                remote_close: first_noted(self.remote_close, close),
                ..self
            },
        }
    }

    /// The connection once a segment was seen: the first SYN and the first close of a direction
    /// count, and a reset ends both.
    pub open spec fn with_lifecycle(self, segment: TcpSegmentView) -> FlowRecordView {
        let direction = self.direction_of(segment);
        let opened = if segment.flags.syn {
            self.with_syn(direction, segment.sequence)
        } else {
            self
        };
        match segment.closing_sequence() {
            None => opened,
            Some(sequence) => FlowRecordView {
                reset: opened.reset || segment.flags.rst,
                ..opened.with_close(FlowCloseSequence { direction, sequence })
            },
        }
    }

    /// Whether the connection is over.
    pub open spec fn is_closed(self) -> bool {
        self.reset || (self.local_close is Some && self.remote_close is Some)
    }

    /// Whether a SYN belongs to this connection: it repeats the one of its direction, or it
    /// answers the one of the other.
    pub open spec fn owns_syn(self, segment: TcpSegmentView) -> bool {
        let direction = self.direction_of(segment);
        segment.flags.syn && match self.syn_of(direction) {
            Some(sequence) => sequence == segment.sequence,
            None => match self.syn_of(direction.opposite_of()) {
                Some(sequence) => segment.flags.ack && segment.acknowledges(sequence),
                None => false,
            },
        }
    }

    /// Whether a payload starts at or behind the close of its direction.
    pub open spec fn is_past_close(self, segment: TcpSegmentView) -> bool {
        segment.payload.len() > 0 && match self.close_of(self.direction_of(segment)) {
            Some(close) => !seq_before(segment.first_sequence(), close.sequence),
            None => false,
        }
    }

    /// The end of the connection, the close of the local side first.
    pub open spec fn closure(self) -> FlowClosureView {
        let local = match self.local_close {
            Some(close) => seq![close],
            None => Seq::empty(),
        };
        let remote = match self.remote_close {
            Some(close) => seq![close],
            None => Seq::empty(),
        };
        FlowClosureView { flow: self.flow, finalizations: local + remote }
    }
}

impl FlowRecord {
    pub fn new(
        local_endpoint: TcpEndpoint,
        confidence: u8,
        flow: FlowContext,
        last_seen_wall_time_unix_ns: i64,
    ) -> (record: FlowRecord)
        ensures
            record@ == FlowRecordView::opened(
                local_endpoint,
                confidence,
                flow@,
                last_seen_wall_time_unix_ns,
            ),
    {
        FlowRecord {
            local_endpoint,
            confidence,
            flow,
            last_seen_wall_time_unix_ns,
            local_close: None,
            remote_close: None,
            local_syn: None,
            remote_syn: None,
            reset: false,
        }
    }

    pub fn direction_for(&self, decoded: &DecodedTcpSegment<'_>) -> (direction: Direction)
        ensures
            direction == self@.direction_of(decoded@),
    {
        if decoded.source_endpoint() == self.local_endpoint {
            Direction::Outbound
        } else {
            Direction::Inbound
        }
    }

    pub fn observe_lifecycle(&mut self, decoded: &DecodedTcpSegment<'_>)
        ensures
            final(self)@ == old(self)@.with_lifecycle(decoded@),
    {
        let direction = self.direction_for(decoded);
        if decoded.has_syn() {
            self.set_syn_sequence(direction, decoded.sequence);
        }
        match decoded.close_sequence() {
            None => {},
            Some(sequence) => {
                if decoded.has_rst() {
                    self.reset = true;
                }
                self.set_close_sequence(FlowCloseSequence { direction, sequence });
            },
        }
    }

    pub fn closed(&self) -> (closed: bool)
        ensures
            closed == self@.is_closed(),
    {
        self.reset || (self.local_close.is_some() && self.remote_close.is_some())
    }

    pub fn close_sequence_for(&self, direction: Direction) -> (close: Option<FlowCloseSequence>)
        ensures
            close == self@.close_of(direction),
    {
        match direction {
            Direction::Outbound => self.local_close,
            Direction::Inbound => self.remote_close,
        }
    }

    pub fn syn_belongs_to_existing_flow(&self, decoded: &DecodedTcpSegment<'_>) -> (belongs: bool)
        ensures
            belongs == self@.owns_syn(decoded@),
    {
        if !decoded.has_syn() {
            return false;
        }
        let direction = self.direction_for(decoded);
        match self.syn_sequence_for(direction) {
            Some(sequence) => sequence == decoded.sequence,
            None => match self.syn_sequence_for(direction.opposite()) {
                Some(sequence) => decoded.has_syn_ack() && decoded.acknowledges_syn_sequence(
                    sequence,
                ),
                None => false,
            },
        }
    }

    pub fn payload_starts_after_close(&self, decoded: &DecodedTcpSegment<'_>) -> (past: bool)
        ensures
            past == self@.is_past_close(decoded@),
    {
        if decoded.payload.len() == 0 {
            return false;
        }
        match self.close_sequence_for(self.direction_for(decoded)) {
            Some(close) => !before(decoded.payload_sequence(), close.sequence),
            None => false,
        }
    }

    pub fn into_closure(self) -> (closure: FlowClosure)
        ensures
            closure@ == self@.closure(),
    {
        let mut finalizations: Vec<FlowCloseSequence> = Vec::new();
        match self.local_close {
            Some(close) => finalizations.push(close),
            None => {},
        }
        match self.remote_close {
            Some(close) => finalizations.push(close),
            None => {},
        }
        assert(finalizations@ =~= self@.closure().finalizations);
        FlowClosure::new(self.flow, finalizations)
    }

    fn set_close_sequence(&mut self, close: FlowCloseSequence)
        ensures
            final(self)@ == old(self)@.with_close(close),
    {
        match close.direction {
            Direction::Outbound => {
                if self.local_close.is_none() {
                    self.local_close = Some(close);
                }
            },
            Direction::Inbound => {
                if self.remote_close.is_none() {
                    self.remote_close = Some(close);
                }
            },
        }
    }

    fn set_syn_sequence(&mut self, direction: Direction, sequence: u32)
        ensures
            final(self)@ == old(self)@.with_syn(direction, sequence),
    {
        match direction {
            Direction::Outbound => {
                if self.local_syn.is_none() {
                    self.local_syn = Some(sequence);
                }
            },
            Direction::Inbound => {
                if self.remote_syn.is_none() {
                    self.remote_syn = Some(sequence);
                }
            },
        }
    }

    fn syn_sequence_for(&self, direction: Direction) -> (sequence: Option<u32>)
        ensures
            sequence == self@.syn_of(direction),
    {
        match direction {
            Direction::Outbound => self.local_syn,
            Direction::Inbound => self.remote_syn,
        }
    }
}

/// A connection, whichever end a segment comes from.
#[derive(Debug, Clone, Copy, PartialEq, Eq, Structural)]
pub struct ConnectionKey {
    pub lower: TcpEndpoint,
    pub higher: TcpEndpoint,
}

impl View for ConnectionKey {
    type V = ConnectionKey;

    open spec fn view(&self) -> ConnectionKey {
        *self
    }
}

impl SameKey for ConnectionKey {
    fn same_key(&self, other: &Self) -> (same: bool) {
        self.lower.port == other.lower.port && self.higher.port == other.higher.port && *self
            == *other
    }
}

/// The connection between two ends.
pub open spec fn connection_between(first: TcpEndpoint, second: TcpEndpoint) -> ConnectionKey {
    if first.at_most(second) {
        ConnectionKey { lower: first, higher: second }
    } else {
        ConnectionKey { lower: second, higher: first }
    }
}

/// The connection that a segment belongs to.
pub open spec fn connection_of(segment: TcpSegmentView) -> ConnectionKey {
    connection_between(segment.source_end(), segment.destination_end())
}

impl ConnectionKey {
    pub fn from_decoded(decoded: &DecodedTcpSegment<'_>) -> (key: ConnectionKey)
        ensures
            key == connection_of(decoded@),
    {
        let source = decoded.source_endpoint();
        let destination = decoded.destination_endpoint();
        if source.is_at_most(destination) {
            ConnectionKey { lower: source, higher: destination }
        } else {
            ConnectionKey { lower: destination, higher: source }
        }
    }
}

/// Both directions between two ends are the same connection.
pub proof fn law_connection_is_symmetric(first: TcpEndpoint, second: TcpEndpoint)
    ensures
        connection_between(first, second) == connection_between(second, first),
{
}

/// The first SYN and the first close of each direction stay on record whatever segments follow,
/// and so does a reset: a connection that is over stays over.
pub proof fn law_lifecycle_is_monotone(record: FlowRecordView, segment: TcpSegmentView)
    ensures
        record.local_syn is Some ==> record.with_lifecycle(segment).local_syn == record.local_syn,
        record.remote_syn is Some ==> record.with_lifecycle(segment).remote_syn
            == record.remote_syn,
        record.local_close is Some ==> record.with_lifecycle(segment).local_close
            == record.local_close,
        record.remote_close is Some ==> record.with_lifecycle(segment).remote_close
            == record.remote_close,
        record.is_closed() ==> record.with_lifecycle(segment).is_closed(),
        record.with_lifecycle(segment).flow == record.flow,
        record.with_lifecycle(segment).local_endpoint == record.local_endpoint,
{
}

} // verus!
