//! The names of sections that hold programs.
//!
//! Such a name is made of pieces with slashes between them, and its first pieces tell the kind of
//! the programs.
use vstd::prelude::*;
use vstd::utf8::encode_utf8;

use crate::octets::{starts_with, starts_with_text};

use super::type_layout::is_text;

verus! {

pub const SLASH: u8 = 0x2f;

/// Whether the first pieces of a name are those of a text.
pub open spec fn begins_with_pieces(name: Seq<u8>, text: Seq<char>) -> bool {
    starts_with_text(name, text) && (name.len() == encode_utf8(text).len() || name[encode_utf8(
        text,
    ).len() as int] == SLASH)
}

fn has_pieces(name: &[u8], text: &str) -> (has: bool)
    ensures
        has == begins_with_pieces(name@, text@),
{
    let length: usize = text.as_bytes().len();
    starts_with(name, text) && (name.len() == length || name[length] == SLASH)
}

/// Programs that are called where code is entered or left, or where a packet comes in.
pub open spec fn is_of_probes(name: Seq<u8>) -> bool {
    ||| name == encode_utf8("xdp"@)
    ||| name == encode_utf8("xdp.frags"@)
    ||| begins_with_pieces(name, "kprobe"@)
    ||| begins_with_pieces(name, "kretprobe"@)
    ||| begins_with_pieces(name, "uprobe"@)
    ||| begins_with_pieces(name, "uprobe.s"@)
    ||| begins_with_pieces(name, "uretprobe"@)
    ||| begins_with_pieces(name, "uretprobe.s"@)
    ||| begins_with_pieces(name, "xdp/cpumap"@)
    ||| begins_with_pieces(name, "xdp/devmap"@)
    ||| begins_with_pieces(name, "xdp.frags/cpumap"@)
    ||| begins_with_pieces(name, "xdp.frags/devmap"@)
}

fn names_probes(name: &[u8]) -> (names: bool)
    ensures
        names == is_of_probes(name@),
{
    is_text(name, "xdp") || is_text(name, "xdp.frags") || has_pieces(name, "kprobe")
        || has_pieces(name, "kretprobe")
        || has_pieces(name, "uprobe")
        || has_pieces(name, "uprobe.s")
        || has_pieces(name, "uretprobe")
        || has_pieces(name, "uretprobe.s")
        || has_pieces(name, "xdp/cpumap")
        || has_pieces(name, "xdp/devmap")
        || has_pieces(name, "xdp.frags/cpumap")
        || has_pieces(name, "xdp.frags/devmap")
}

/// Programs that are called on an event of the kernel.
pub open spec fn is_of_events(name: Seq<u8>) -> bool {
    ||| begins_with_pieces(name, "tp_btf"@)
    ||| begins_with_pieces(name, "tracepoint"@)
    ||| begins_with_pieces(name, "tp"@)
    ||| begins_with_pieces(name, "perf_event"@)
    ||| begins_with_pieces(name, "raw_tp"@)
    ||| begins_with_pieces(name, "raw_tracepoint"@)
    ||| begins_with_pieces(name, "lsm"@)
    ||| begins_with_pieces(name, "lsm.s"@)
    ||| begins_with_pieces(name, "fentry"@)
    ||| begins_with_pieces(name, "fentry.s"@)
    ||| begins_with_pieces(name, "fexit"@)
    ||| begins_with_pieces(name, "fexit.s"@)
    ||| begins_with_pieces(name, "freplace"@)
}

fn names_events(name: &[u8]) -> (names: bool)
    ensures
        names == is_of_events(name@),
{
    has_pieces(name, "tp_btf")
        || has_pieces(name, "tracepoint")
        || has_pieces(name, "tp")
        || has_pieces(name, "perf_event")
        || has_pieces(name, "raw_tp")
        || has_pieces(name, "raw_tracepoint")
        || has_pieces(name, "lsm")
        || has_pieces(name, "lsm.s")
        || has_pieces(name, "fentry")
        || has_pieces(name, "fentry.s")
        || has_pieces(name, "fexit")
        || has_pieces(name, "fexit.s")
        || has_pieces(name, "freplace")
}

/// Programs that are called for a socket or a device.
pub open spec fn is_of_sockets(name: Seq<u8>) -> bool {
    ||| begins_with_pieces(name, "socket"@)
    ||| begins_with_pieces(name, "sk_msg"@)
    ||| begins_with_pieces(name, "sk_skb/stream_parser"@)
    ||| begins_with_pieces(name, "sk_skb/stream_verdict"@)
    ||| begins_with_pieces(name, "sockops"@)
    ||| begins_with_pieces(name, "classifier"@)
    ||| begins_with_pieces(name, "lirc_mode2"@)
    ||| begins_with_pieces(name, "sk_lookup"@)
    ||| begins_with_pieces(name, "cgroup_skb/ingress"@)
    ||| begins_with_pieces(name, "cgroup_skb/egress"@)
}

fn names_sockets(name: &[u8]) -> (names: bool)
    ensures
        names == is_of_sockets(name@),
{
    has_pieces(name, "socket")
        || has_pieces(name, "sk_msg")
        || has_pieces(name, "sk_skb/stream_parser")
        || has_pieces(name, "sk_skb/stream_verdict")
        || has_pieces(name, "sockops")
        || has_pieces(name, "classifier")
        || has_pieces(name, "lirc_mode2")
        || has_pieces(name, "sk_lookup")
        || has_pieces(name, "cgroup_skb/ingress")
        || has_pieces(name, "cgroup_skb/egress")
}

/// Programs that are called for a control group.
pub open spec fn is_of_groups(name: Seq<u8>) -> bool {
    ||| begins_with_pieces(name, "cgroup/skb"@)
    ||| begins_with_pieces(name, "cgroup/sysctl"@)
    ||| begins_with_pieces(name, "cgroup/dev"@)
    ||| begins_with_pieces(name, "cgroup/getsockopt"@)
    ||| begins_with_pieces(name, "cgroup/setsockopt"@)
    ||| begins_with_pieces(name, "cgroup/sock"@)
    ||| begins_with_pieces(name, "cgroup/post_bind4"@)
    ||| begins_with_pieces(name, "cgroup/post_bind6"@)
    ||| begins_with_pieces(name, "cgroup/sock_create"@)
    ||| begins_with_pieces(name, "cgroup/sock_release"@)
    ||| begins_with_pieces(name, "cgroup/bind4"@)
    ||| begins_with_pieces(name, "cgroup/bind6"@)
    ||| begins_with_pieces(name, "cgroup/connect4"@)
    ||| begins_with_pieces(name, "cgroup/connect6"@)
    ||| begins_with_pieces(name, "cgroup/getpeername4"@)
    ||| begins_with_pieces(name, "cgroup/getpeername6"@)
    ||| begins_with_pieces(name, "cgroup/getsockname4"@)
    ||| begins_with_pieces(name, "cgroup/getsockname6"@)
    ||| begins_with_pieces(name, "cgroup/sendmsg4"@)
    ||| begins_with_pieces(name, "cgroup/sendmsg6"@)
    ||| begins_with_pieces(name, "cgroup/recvmsg4"@)
    ||| begins_with_pieces(name, "cgroup/recvmsg6"@)
}

fn names_groups(name: &[u8]) -> (names: bool)
    ensures
        names == is_of_groups(name@),
{
    has_pieces(name, "cgroup/skb")
        || has_pieces(name, "cgroup/sysctl")
        || has_pieces(name, "cgroup/dev")
        || has_pieces(name, "cgroup/getsockopt")
        || has_pieces(name, "cgroup/setsockopt")
        || has_pieces(name, "cgroup/sock")
        || has_pieces(name, "cgroup/post_bind4")
        || has_pieces(name, "cgroup/post_bind6")
        || has_pieces(name, "cgroup/sock_create")
        || has_pieces(name, "cgroup/sock_release")
        || has_pieces(name, "cgroup/bind4")
        || has_pieces(name, "cgroup/bind6")
        || has_pieces(name, "cgroup/connect4")
        || has_pieces(name, "cgroup/connect6")
        || has_pieces(name, "cgroup/getpeername4")
        || has_pieces(name, "cgroup/getpeername6")
        || has_pieces(name, "cgroup/getsockname4")
        || has_pieces(name, "cgroup/getsockname6")
        || has_pieces(name, "cgroup/sendmsg4")
        || has_pieces(name, "cgroup/sendmsg6")
        || has_pieces(name, "cgroup/recvmsg4")
        || has_pieces(name, "cgroup/recvmsg6")
}

/// Whether a section with a name holds programs of a kind that is known.
pub open spec fn is_program_name(name: Seq<u8>) -> bool {
    is_of_probes(name) || is_of_events(name) || is_of_sockets(name) || is_of_groups(name)
}

/// Whether a section with a name holds programs of a kind that is known.
pub fn names_programs(name: &[u8]) -> (names: bool)
    ensures
        names == is_program_name(name@),
{
    names_probes(name) || names_events(name) || names_sockets(name) || names_groups(name)
}

} // verus!
