//! Network addresses, their order and their text.
use vstd::prelude::*;
use vstd::string::StringExecFns;

use crate::octets::{be_u128, be_u32, big_endian};
use crate::text::{decimal, decimal_digits, digits_of, hexadecimal};

verus! {

/// An IP address as the number that its octets form, most significant first.
#[derive(Debug, Clone, Copy, PartialEq, Eq, Structural)]
pub enum IpAddress {
    V4(u32),
    V6(u128),
}

/// The dotted form of an IPv4 address.
pub open spec fn ipv4_text(number: nat) -> Seq<char> {
    decimal_digits(number / 0x100_0000 % 256) + "."@ + decimal_digits(number / 0x1_0000 % 256)
        + "."@ + decimal_digits(number / 0x100 % 256) + "."@ + decimal_digits(number % 256)
}

/// The eight groups of an IPv6 address, most significant first.
pub open spec fn ipv6_groups(number: nat) -> Seq<nat> {
    seq![
        number / 0x1_0000_0000_0000_0000_0000_0000_0000 % 0x1_0000,
        number / 0x1_0000_0000_0000_0000_0000_0000 % 0x1_0000,
        number / 0x1_0000_0000_0000_0000_0000 % 0x1_0000,
        number / 0x1_0000_0000_0000_0000 % 0x1_0000,
        number / 0x1_0000_0000_0000 % 0x1_0000,
        number / 0x1_0000_0000 % 0x1_0000,
        number / 0x1_0000 % 0x1_0000,
        number % 0x1_0000,
    ]
}

/// How many groups from `start` on are zero.
pub open spec fn zero_run(groups: Seq<nat>, start: int) -> nat
    decreases groups.len() - start,
{
    if start < 0 || start >= groups.len() || groups[start] != 0 {
        0
    } else {
        zero_run(groups, start + 1) + 1
    }
}

/// The first of the starts below `limit` from which the most zero groups follow.
pub open spec fn longest_run_start(groups: Seq<nat>, limit: nat) -> int
    decreases limit,
{
    if limit <= 1 {
        0
    } else {
        let best = longest_run_start(groups, (limit - 1) as nat);
        if zero_run(groups, limit - 1) > zero_run(groups, best) {
            limit - 1
        } else {
            best
        }
    }
}

/// The groups from `start` up to `end` in base sixteen, with colons between them.
pub open spec fn groups_text(groups: Seq<nat>, start: int, end: int) -> Seq<char>
    decreases end - start,
{
    if start >= end {
        Seq::empty()
    } else if end == start + 1 {
        digits_of(groups[start], 16)
    } else {
        groups_text(groups, start, end - 1) + ":"@ + digits_of(groups[end - 1], 16)
    }
}

/// Whether an IPv6 address stands for an IPv4 address.
pub open spec fn is_ipv4_mapped(number: nat) -> bool {
    number / 0x1_0000_0000 == 0xffff
}

/// The text of an IPv6 address: the longest run of at least two zero groups is left out.
pub open spec fn ipv6_text(number: nat) -> Seq<char> {
    let groups = ipv6_groups(number);
    let start = longest_run_start(groups, 8);
    let run = zero_run(groups, start);
    if is_ipv4_mapped(number) {
        "::ffff:"@ + ipv4_text(number % 0x1_0000_0000)
    } else if run > 1 {
        groups_text(groups, 0, start) + "::"@ + groups_text(groups, start + run, 8)
    } else {
        groups_text(groups, 0, 8)
    }
}

impl IpAddress {
    /// The text of the address.
    pub open spec fn text(self) -> Seq<char> {
        match self {
            IpAddress::V4(number) => ipv4_text(number as nat),
            IpAddress::V6(number) => ipv6_text(number as nat),
        }
    }

    /// The address in the same family that stands for every local address.
    pub open spec fn unspecified_like(self) -> IpAddress {
        match self {
            IpAddress::V4(_) => IpAddress::V4(0),
            IpAddress::V6(_) => IpAddress::V6(0),
        }
    }

    /// The IPv4 address that an IPv6 address stands for, or the address itself.
    pub open spec fn unmapped(self) -> IpAddress {
        match self {
            IpAddress::V6(number) if is_ipv4_mapped(number as nat) => IpAddress::V4(
                (number % 0x1_0000_0000) as u32,
            ),
            _ => self,
        }
    }

    /// The IPv4 address that an IPv6 address stands for, or the address itself.
    pub fn to_unmapped(self) -> (address: IpAddress)
        ensures
            address == self.unmapped(),
    {
        match self {
            IpAddress::V6(number) => {
                if number / 0x1_0000_0000 == 0xffff {
                    IpAddress::V4((number % 0x1_0000_0000) as u32)
                } else {
                    self
                }
            },
            IpAddress::V4(_) => self,
        }
    }

    /// The IPv4 address with the given octets.
    pub fn v4(octets: [u8; 4]) -> (address: IpAddress)
        ensures
            address == IpAddress::V4(big_endian(octets@) as u32),
    {
        assert(octets@.subrange(0, 4) =~= octets@);
        IpAddress::V4(be_u32(&octets, 0))
    }

    /// The IPv6 address with the given octets.
    pub fn v6(octets: [u8; 16]) -> (address: IpAddress)
        ensures
            address == IpAddress::V6(big_endian(octets@) as u128),
    {
        assert(octets@.subrange(0, 16) =~= octets@);
        IpAddress::V6(be_u128(&octets, 0))
    }

    /// The text of the address.
    pub fn to_text(self) -> (text: String)
        ensures
            text@ == self.text(),
    {
        match self {
            IpAddress::V4(number) => ipv4_to_text(number),
            IpAddress::V6(number) => ipv6_to_text(number),
        }
    }
}

fn ipv4_to_text(number: u32) -> (text: String)
    ensures
        text@ == ipv4_text(number as nat),
{
    let mut text = decimal((number / 0x100_0000 % 256) as u64);
    text.append(".");
    text.append(decimal((number / 0x1_0000 % 256) as u64).as_str());
    text.append(".");
    text.append(decimal((number / 0x100 % 256) as u64).as_str());
    text.append(".");
    text.append(decimal((number % 256) as u64).as_str());
    text
}

/// The values of machine-sized groups.
spec fn group_values(groups: Seq<u64>) -> Seq<nat> {
    groups.map_values(|group: u64| group as nat)
}

fn append_groups(text: &mut String, groups: &Vec<u64>, start: usize, end: usize)
    requires
        start <= end <= groups@.len(),
    ensures
        final(text)@ == old(text)@ + groups_text(group_values(groups@), start as int, end as int),
{
    let ghost values = group_values(groups@);
    let ghost before = text@;
    let mut index: usize = start;
    while index < end
        invariant
            start <= index <= end <= groups@.len(),
            values == group_values(groups@),
            text@ == before + groups_text(values, start as int, index as int),
        decreases end - index,
    {
        if index > start {
            text.append(":");
        }
        text.append(hexadecimal(groups[index]).as_str());
        proof {
            assert(values[index as int] == groups@[index as int]);
            assert(text@ =~= before + groups_text(values, start as int, index + 1));
        }
        index = index + 1;
    }
    assert(before + groups_text(values, start as int, start as int) =~= before);
}

fn zero_run_at(groups: &Vec<u64>, start: usize) -> (run: usize)
    requires
        start <= groups@.len(),
        groups@.len() == 8,
    ensures
        run == zero_run(group_values(groups@), start as int),
        start + run <= 8,
    decreases groups@.len() - start,
{
    if start >= groups.len() || groups[start] != 0 {
        0
    } else {
        zero_run_at(groups, start + 1) + 1
    }
}

fn ipv6_to_text(number: u128) -> (text: String)
    ensures
        text@ == ipv6_text(number as nat),
{
    if number / 0x1_0000_0000 == 0xffff {
        let mut text = "::ffff:".to_owned();
        text.append(ipv4_to_text((number % 0x1_0000_0000) as u32).as_str());
        return text;
    }
    let mut groups: Vec<u64> = Vec::new();
    groups.push((number / 0x1_0000_0000_0000_0000_0000_0000_0000 % 0x1_0000) as u64);
    groups.push((number / 0x1_0000_0000_0000_0000_0000_0000 % 0x1_0000) as u64);
    groups.push((number / 0x1_0000_0000_0000_0000_0000 % 0x1_0000) as u64);
    groups.push((number / 0x1_0000_0000_0000_0000 % 0x1_0000) as u64);
    groups.push((number / 0x1_0000_0000_0000 % 0x1_0000) as u64);
    groups.push((number / 0x1_0000_0000 % 0x1_0000) as u64);
    groups.push((number / 0x1_0000 % 0x1_0000) as u64);
    groups.push((number % 0x1_0000) as u64);
    assert(group_values(groups@) =~= ipv6_groups(number as nat));
    let mut best: usize = 0;
    let mut best_run: usize = zero_run_at(&groups, 0);
    let mut index: usize = 1;
    while index < 8
        invariant
            1 <= index <= 8,
            best < 8,
            groups@.len() == 8,
            best == longest_run_start(group_values(groups@), index as nat),
            best_run == zero_run(group_values(groups@), best as int),
            best + best_run <= 8,
        decreases 8 - index,
    {
        let run: usize = zero_run_at(&groups, index);
        if run > best_run {
            best = index;
            best_run = run;
        }
        index = index + 1;
    }
    let mut text = String::new();
    if best_run > 1 {
        append_groups(&mut text, &groups, 0, best);
        text.append("::");
        append_groups(&mut text, &groups, best + best_run, 8);
    } else {
        append_groups(&mut text, &groups, 0, 8);
    }
    assert(text@ =~= ipv6_text(number as nat));
    text
}

/// One end of a TCP connection.
#[derive(Debug, Clone, Copy, PartialEq, Eq, Structural)]
pub struct TcpEndpoint {
    pub address: IpAddress,
    pub port: u16,
}

/// The two ends of a TCP connection, seen from the local one.
#[derive(Debug, Clone, Copy, PartialEq, Eq, Structural)]
pub struct TcpConnection {
    pub local: TcpEndpoint,
    pub remote: TcpEndpoint,
}

/// One end of a flow, with its address in words.
#[derive(Debug, PartialEq, Eq)]
pub struct AddressPort {
    pub address: String,
    pub port: u16,
}

#[verifier::ext_equal]
pub struct AddressPortView {
    pub address: Seq<char>,
    pub port: u16,
}

impl View for AddressPort {
    type V = AddressPortView;

    open spec fn view(&self) -> AddressPortView {
        AddressPortView { address: self.address@, port: self.port }
    }
}

impl TcpEndpoint {
    /// The order of ends: IPv4 before IPv6, then by address, then by port.
    pub open spec fn at_most(self, other: TcpEndpoint) -> bool {
        match (self.address, other.address) {
            (IpAddress::V4(left), IpAddress::V4(right)) => left < right || (left == right
                && self.port <= other.port),
            (IpAddress::V4(_), IpAddress::V6(_)) => true,
            (IpAddress::V6(_), IpAddress::V4(_)) => false,
            (IpAddress::V6(left), IpAddress::V6(right)) => left < right || (left == right
                && self.port <= other.port),
        }
    }

    pub fn new(address: IpAddress, port: u16) -> (endpoint: TcpEndpoint)
        ensures
            endpoint == (TcpEndpoint { address, port }),
    {
        TcpEndpoint { address, port }
    }

    /// Whether this end comes no later than `other` in the order of ends.
    pub fn is_at_most(self, other: TcpEndpoint) -> (ordered: bool)
        ensures
            ordered == self.at_most(other),
    {
        match (self.address, other.address) {
            (IpAddress::V4(left), IpAddress::V4(right)) => left < right || (left == right
                && self.port <= other.port),
            (IpAddress::V4(_), IpAddress::V6(_)) => true,
            (IpAddress::V6(_), IpAddress::V4(_)) => false,
            (IpAddress::V6(left), IpAddress::V6(right)) => left < right || (left == right
                && self.port <= other.port),
        }
    }
}

impl TcpConnection {
    pub fn new(local: TcpEndpoint, remote: TcpEndpoint) -> (connection: TcpConnection)
        ensures
            connection == (TcpConnection { local, remote }),
    {
        TcpConnection { local, remote }
    }
}

/// An end of a flow with its address in words.
pub open spec fn address_port(endpoint: TcpEndpoint) -> AddressPortView {
    AddressPortView { address: endpoint.address.text(), port: endpoint.port }
}

impl AddressPort {
    /// The end with its address in words.
    pub fn from_endpoint(endpoint: TcpEndpoint) -> (end: AddressPort)
        ensures
            end@ == address_port(endpoint),
    {
        AddressPort { address: endpoint.address.to_text(), port: endpoint.port }
    }
}

impl Clone for AddressPort {
    fn clone(&self) -> (copy: Self)
        ensures
            copy@ == self@,
    {
        AddressPort { address: self.address.clone(), port: self.port }
    }
}

} // verus!
