use capture::ebpf::descriptor_lease::{DescriptorLease, DescriptorLeaseKey};
use capture::ebpf::types::{EbpfCloseRangeTracepointObservation, EbpfObservedProcess};

#[test]
fn descriptor_lease_rejects_invalid_identity_material() {
    assert!(DescriptorLease::new(100, -1, 9, 10).is_none());
    assert!(DescriptorLease::new(100, 7, 0, 10).is_none());
    assert!(DescriptorLease::new(100, 7, 9, 0).is_none());
}

#[test]
fn descriptor_lease_key_rejects_unmatched_events_without_generation() {
    assert!(DescriptorLeaseKey::from_observed(100, -1, 10).is_none());
    assert!(DescriptorLeaseKey::from_observed(100, 7, 0).is_none());
}

#[test]
fn descriptor_lease_keeps_its_parts() {
    let lease = DescriptorLease::new(100, 7, 9, 10).expect("valid descriptor lease");

    assert_eq!(lease.tgid(), 100);
    assert_eq!(lease.fd(), 7);
    assert_eq!(lease.fd_table_epoch(), 9);
    assert_eq!(lease.fd_generation(), 10);
    let key = lease.key();
    assert_eq!(Some(key), DescriptorLeaseKey::from_observed(100, 7, 10));
    assert_eq!((key.tgid(), key.fd(), key.fd_generation()), (100, 7, 10));
}

#[test]
fn close_range_holds_the_descriptors_between_its_ends() {
    let range = EbpfCloseRangeTracepointObservation {
        process: EbpfObservedProcess {
            pid: 101,
            tgid: 100,
            uid: 1000,
            gid: 1000,
            command: [0; 16],
        },
        first_fd: 4,
        last_fd: 10,
    };
    let key = |tgid, fd| DescriptorLeaseKey::from_observed(tgid, fd, 1).expect("valid key");

    assert!(!key(100, 3).is_in_close_range(&range));
    assert!(key(100, 4).is_in_close_range(&range));
    assert!(key(100, 10).is_in_close_range(&range));
    assert!(!key(100, 11).is_in_close_range(&range));
    assert!(!key(200, 5).is_in_close_range(&range));
}

#[test]
fn allowances_are_shared_by_generations_of_a_descriptor_number() {
    let key = |tgid, fd, generation| {
        DescriptorLeaseKey::from_observed(tgid, fd, generation).expect("valid key")
    };

    assert!(key(100, 7, 1).has_same_allow_map_key(key(100, 7, 2)));
    assert!(!key(100, 7, 1).has_same_allow_map_key(key(100, 8, 1)));
    assert!(!key(100, 7, 1).has_same_allow_map_key(key(200, 7, 1)));
}
