use capture::ebpf::payload_direction::{
    PayloadDirections, EBPF_SOCKET_PAYLOAD_ALLOW_READ, EBPF_SOCKET_PAYLOAD_ALLOW_WRITE,
};
use capture::Direction;

#[test]
fn payload_directions_map_capture_directions_to_abi_bits() {
    let write_only = PayloadDirections::from_directions(&vec![Direction::Outbound]);
    assert!(write_only.allows(Direction::Outbound));
    assert!(!write_only.allows(Direction::Inbound));
    assert_eq!(write_only.to_abi_mask(), EBPF_SOCKET_PAYLOAD_ALLOW_WRITE);

    let read_only = PayloadDirections::from_directions(&vec![Direction::Inbound]);
    assert!(read_only.allows(Direction::Inbound));
    assert!(!read_only.allows(Direction::Outbound));
    assert_eq!(read_only.to_abi_mask(), EBPF_SOCKET_PAYLOAD_ALLOW_READ);

    let both = PayloadDirections::from_directions(&vec![Direction::Inbound, Direction::Outbound]);
    assert!(both.allows(Direction::Inbound));
    assert!(both.allows(Direction::Outbound));
    assert_eq!(
        both.to_abi_mask(),
        EBPF_SOCKET_PAYLOAD_ALLOW_READ | EBPF_SOCKET_PAYLOAD_ALLOW_WRITE
    );
}

#[test]
fn payload_directions_are_listed_inbound_first() {
    let both = PayloadDirections::from_directions(&vec![Direction::Outbound, Direction::Inbound]);

    assert_eq!(both.directions(), vec![Direction::Inbound, Direction::Outbound]);
    assert!(PayloadDirections::empty().directions().is_empty());
    assert!(PayloadDirections::empty().is_empty());
    assert_eq!(PayloadDirections::empty().to_abi_mask(), 0);
}
