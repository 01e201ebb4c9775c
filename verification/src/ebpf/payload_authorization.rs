//! What lets the kernel sample the payload of a process or of one of its sockets.
use vstd::prelude::*;
use vstd::utf8::{decode_utf8, encode_utf8, valid_utf8};

use crate::model::{
    Direction, FlowContext, FlowContextView, ProcessContext, ProcessContextView,
};
use crate::selector::{CompiledSelector, CompiledSelectorView};

use super::descriptor_lease::DescriptorLease;
use super::payload_direction::PayloadDirections;
use super::types::{before_nul, lemma_before_nul};

verus! {

/// The directions in which every flow of a process is selected.
pub open spec fn process_directions(
    process: ProcessContextView,
    selector: CompiledSelectorView,
) -> PayloadDirections {
    PayloadDirections {
        inbound: selector.selects_process(process, Direction::Inbound),
        outbound: selector.selects_process(process, Direction::Outbound),
    }
}

/// The directions in which some flow of a process can be selected.
pub open spec fn prefilter_directions(
    process: ProcessContextView,
    selector: CompiledSelectorView,
) -> PayloadDirections {
    PayloadDirections {
        inbound: selector.may_select_process(process, Direction::Inbound),
        outbound: selector.may_select_process(process, Direction::Outbound),
    }
}

/// The directions in which a flow is selected.
pub open spec fn flow_directions(
    flow: FlowContextView,
    selector: CompiledSelectorView,
) -> PayloadDirections {
    PayloadDirections {
        inbound: selector.selects_flow(flow, Direction::Inbound),
        outbound: selector.selects_flow(flow, Direction::Outbound),
    }
}

/// Lets the kernel sample every socket of a process.
#[derive(Debug, Clone, Copy, PartialEq, Eq, Structural)]
pub struct ProcessPayloadSampleAuthorization {
    pub tgid: u32,
    pub payload_directions: PayloadDirections,
}

impl ProcessPayloadSampleAuthorization {
    /// The authorization of a process, unless it would allow nothing or name no process.
    pub open spec fn of(tgid: u32, payload_directions: PayloadDirections) -> Option<
        ProcessPayloadSampleAuthorization,
    > {
        if tgid != 0 && payload_directions != PayloadDirections::none() {
            Some(ProcessPayloadSampleAuthorization { tgid, payload_directions })
        } else {
            None
        }
    }

    fn new(tgid: u32, payload_directions: PayloadDirections) -> (authorization: Option<
        ProcessPayloadSampleAuthorization,
    >)
        ensures
            authorization == ProcessPayloadSampleAuthorization::of(tgid, payload_directions),
    {
        if tgid != 0 && !payload_directions.is_empty() {
            Some(ProcessPayloadSampleAuthorization { tgid, payload_directions })
        } else {
            None
        }
    }

    /// The authorization of a process by what is selected for all of its flows.
    pub fn from_unattributed_selector(
        tgid: u32,
        process: &ProcessContext,
        selector: &CompiledSelector,
    ) -> (authorization: Option<ProcessPayloadSampleAuthorization>)
        ensures
            authorization == ProcessPayloadSampleAuthorization::of(
                tgid,
                process_directions(process@, selector@),
            ),
    {
        let mut payload_directions = PayloadDirections::empty();
        if selector.matches_unattributed_flow(process, Direction::Inbound) {
            payload_directions.insert(Direction::Inbound);
        }
        if selector.matches_unattributed_flow(process, Direction::Outbound) {
            payload_directions.insert(Direction::Outbound);
        }
        ProcessPayloadSampleAuthorization::new(tgid, payload_directions)
    }

    /// The authorization of a process by what can be selected among its flows.
    pub fn from_process_prefilter_selector(
        tgid: u32,
        process: &ProcessContext,
        selector: &CompiledSelector,
    ) -> (authorization: Option<ProcessPayloadSampleAuthorization>)
        ensures
            authorization == ProcessPayloadSampleAuthorization::of(
                tgid,
                prefilter_directions(process@, selector@),
            ),
    {
        let mut payload_directions = PayloadDirections::empty();
        if selector.matches_process_prefilter(process, Direction::Inbound) {
            payload_directions.insert(Direction::Inbound);
        }
        if selector.matches_process_prefilter(process, Direction::Outbound) {
            payload_directions.insert(Direction::Outbound);
        }
        ProcessPayloadSampleAuthorization::new(tgid, payload_directions)
    }

    pub fn tgid(self) -> (tgid: u32)
        ensures
            tgid == self.tgid,
    {
        self.tgid
    }

    pub fn payload_directions(self) -> (directions: PayloadDirections)
        ensures
            directions == self.payload_directions,
    {
        self.payload_directions
    }
}

/// Lets the kernel sample one socket.
#[derive(Debug, Clone, Copy, PartialEq, Eq, Structural)]
pub struct SocketPayloadSampleAuthorization {
    pub lease: DescriptorLease,
    pub payload_directions: PayloadDirections,
}

/// The directions in which a flow may be sampled.
pub open spec fn sampled_directions(
    flow: FlowContextView,
    selector: Option<CompiledSelectorView>,
) -> PayloadDirections {
    match selector {
        Some(inner) => flow_directions(flow, inner),
        None => PayloadDirections::none(),
    }
}

/// The view of an optional selector.
pub open spec fn selector_view(selector: Option<CompiledSelector>) -> Option<CompiledSelectorView> {
    match selector {
        Some(inner) => Some(inner@),
        None => None,
    }
}

impl SocketPayloadSampleAuthorization {
    /// The authorization of a socket, unless it would allow nothing.
    pub open spec fn of(lease: DescriptorLease, payload_directions: PayloadDirections) -> Option<
        SocketPayloadSampleAuthorization,
    > {
        if payload_directions != PayloadDirections::none() {
            Some(SocketPayloadSampleAuthorization { lease, payload_directions })
        } else {
            None
        }
    }

    fn new(lease: DescriptorLease, payload_directions: PayloadDirections) -> (authorization: Option<
        SocketPayloadSampleAuthorization,
    >)
        ensures
            authorization == SocketPayloadSampleAuthorization::of(lease, payload_directions),
    {
        if !payload_directions.is_empty() {
            Some(SocketPayloadSampleAuthorization { lease, payload_directions })
        } else {
            None
        }
    }

    /// The authorization of the socket of a flow by what is selected for the flow.
    pub fn from_selector(
        lease: DescriptorLease,
        flow: &FlowContext,
        selector: &Option<CompiledSelector>,
    ) -> (authorization: Option<SocketPayloadSampleAuthorization>)
        ensures
            authorization == SocketPayloadSampleAuthorization::of(
                lease,
                sampled_directions(flow@, selector_view(*selector)),
            ),
    {
        match selector {
            Some(inner) => SocketPayloadSampleAuthorization::new(
                lease,
                payload_directions_for_flow(flow, inner),
            ),
            None => None,
        }
    }

    pub fn tgid(self) -> (tgid: u32)
        ensures
            tgid == self.lease.tgid,
    {
        self.lease.tgid()
    }

    pub fn fd(self) -> (fd: i32)
        ensures
            fd == self.lease.fd,
    {
        self.lease.fd()
    }

    pub fn fd_table_epoch(self) -> (epoch: u64)
        ensures
            epoch == self.lease.fd_table_epoch,
    {
        self.lease.fd_table_epoch()
    }

    pub fn fd_generation(self) -> (generation: u64)
        ensures
            generation == self.lease.fd_generation,
    {
        self.lease.fd_generation()
    }

    pub fn payload_directions(self) -> (directions: PayloadDirections)
        ensures
            directions == self.payload_directions,
    {
        self.payload_directions
    }
}

/// The directions in which a flow is selected.
pub fn payload_directions_for_flow(
    flow: &FlowContext,
    selector: &CompiledSelector,
) -> (directions: PayloadDirections)
    ensures
        directions == flow_directions(flow@, selector@),
{
    let mut payload_directions = PayloadDirections::empty();
    if selector.matches_flow(flow, Direction::Outbound) {
        payload_directions.insert(Direction::Outbound);
    }
    if selector.matches_flow(flow, Direction::Inbound) {
        payload_directions.insert(Direction::Inbound);
    }
    payload_directions
}

/// A command name as the kernel keeps it: its first sixteen octets, padded with zero octets.
pub open spec fn command_key(name: Seq<char>) -> Seq<u8> {
    let octets = encode_utf8(name);
    Seq::new(
        16,
        |index: int|
            if index < octets.len() {
                octets[index]
            } else {
                0
            },
    )
}

/// A command name as the kernel keeps it.
pub fn process_payload_hint_command_key(name: &str) -> (command: [u8; 16])
    ensures
        command@ == command_key(name@),
{
    let octets = name.as_bytes();
    let mut command: [u8; 16] = [0;16];
    let mut index: usize = 0;
    while index < 16 && index < octets.len()
        invariant
            index <= 16,
            index <= octets@.len(),
            octets@ == encode_utf8(name@),
            forall|earlier: int| 0 <= earlier < index ==> command@[earlier] == octets@[earlier],
            forall|later: int| index <= later < 16 ==> command@[later] == 0,
        decreases 16 - index,
    {
        command[index] = octets[index];
        index = index + 1;
    }
    assert(command@ =~= command_key(name@));
    command
}

/// A name that fits is kept whole: what the kernel reports under its key reads as the name.
pub proof fn law_fitting_name_is_kept(name: Seq<char>)
    requires
        encode_utf8(name).len() <= 16,
        !encode_utf8(name).contains(0),
    ensures
        before_nul(command_key(name)) == encode_utf8(name),
        valid_utf8(before_nul(command_key(name))),
        decode_utf8(before_nul(command_key(name))) == name,
{
    let octets = encode_utf8(name);
    let key = command_key(name);
    assert forall|index: int| 0 <= index < octets.len() implies key[index] != 0 by {
        assert(octets.contains(octets[index]));
    }
    lemma_before_nul(key, octets.len() as int);
    assert(key.take(octets.len() as int) =~= octets);
    vstd::utf8::encode_utf8_valid_utf8(name);
    vstd::utf8::encode_utf8_decode_utf8(name);
}

} // verus!
