use capture::libpcap::stream::budget::{PendingCount, PendingIndex, StreamKey};
use capture::{Direction, FlowIdentity};

#[test]
fn pending_victims_returns_oldest_current_candidate() {
    let mut index = PendingIndex::default();
    let first = stream_key("first", Direction::Outbound);
    let second = stream_key("second", Direction::Outbound);

    index.update(&first, 1, pending_count(1, 10));
    index.update(&second, 2, pending_count(1, 10));
    index.update(&first, 3, pending_count(2, 20));

    assert_eq!(index.pop_oldest(), Some(second));
    assert_eq!(index.pop_oldest(), Some(first));
    assert_eq!(index.pop_oldest(), None);
}

#[test]
fn pending_victims_ignores_cleared_candidates() {
    let mut index = PendingIndex::default();
    let first = stream_key("first", Direction::Outbound);
    let second = stream_key("second", Direction::Outbound);

    index.update(&first, 1, pending_count(1, 10));
    index.update(&second, 2, pending_count(1, 10));
    index.remove(&first);

    assert_eq!(index.pop_oldest(), Some(second));
    assert_eq!(index.pop_oldest(), None);
}

fn pending_count(segments: usize, bytes: usize) -> PendingCount {
    PendingCount { segments, bytes }
}

fn stream_key(flow_id: &str, direction: Direction) -> StreamKey {
    StreamKey::new(FlowIdentity(flow_id.to_string()), direction)
}
