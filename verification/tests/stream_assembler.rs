use bytes::Bytes;
use capture::libpcap::stream::assembler::{DirectionStreamAssembler, StreamPiece};
use capture::libpcap::stream::assembly::BUFFER_LIMIT_GAP_REASON;
use capture::libpcap::stream::budget::{PendingCount, MAX_PENDING_SEGMENTS};
use capture::libpcap::stream::tracking::FLOW_CLOSE_GAP_REASON;

#[test]
fn contiguous_segments_advance_offsets() {
    let mut stream = DirectionStreamAssembler::default();

    let pieces = [
        stream.ingest(100, b"GET "),
        stream.ingest(104, b"/ HTTP/1.1\r\n\r\n"),
    ]
    .into_iter()
    .flatten()
    .collect::<Vec<_>>();

    assert_eq!(
        pieces,
        vec![
            bytes_piece(0, b"GET "),
            bytes_piece(4, b"/ HTTP/1.1\r\n\r\n"),
        ]
    );
}

#[test]
fn duplicate_retransmission_emits_no_bytes() {
    let mut stream = DirectionStreamAssembler::default();

    assert_eq!(stream.ingest(100, b"GET "), vec![bytes_piece(0, b"GET ")]);
    assert!(stream.ingest(100, b"GET ").is_empty());
}

#[test]
fn partial_retransmission_trims_emitted_prefix() {
    let mut stream = DirectionStreamAssembler::default();

    assert_eq!(stream.ingest(100, b"GET "), vec![bytes_piece(0, b"GET ")]);
    assert_eq!(stream.ingest(102, b"T /"), vec![bytes_piece(4, b"/")]);
}

#[test]
fn out_of_order_segment_waits_for_missing_bytes() {
    let mut stream = DirectionStreamAssembler::default();

    assert_eq!(stream.ingest(100, b"GET "), vec![bytes_piece(0, b"GET ")]);
    assert!(stream.ingest(106, b"HTTP").is_empty());

    assert_eq!(
        stream.ingest(104, b"/ "),
        vec![bytes_piece(4, b"/ "), bytes_piece(6, b"HTTP")]
    );
}

#[test]
fn sequence_wraparound_keeps_stream_offsets_monotonic() {
    let mut stream = DirectionStreamAssembler::default();

    assert_eq!(
        stream.ingest(u32::MAX - 1, b"ab"),
        vec![bytes_piece(0, b"ab")]
    );
    assert_eq!(stream.ingest(0, b"cd"), vec![bytes_piece(2, b"cd")]);

    let mut reordered = DirectionStreamAssembler::default();
    assert_eq!(
        reordered.ingest(u32::MAX - 1, b"a"),
        vec![bytes_piece(0, b"a")]
    );
    assert!(reordered.ingest(1, b"c").is_empty());
    assert_eq!(
        reordered.ingest(u32::MAX, b"bb"),
        vec![bytes_piece(1, b"bb"), bytes_piece(3, b"c")]
    );

    let mut closing = DirectionStreamAssembler::default();
    assert_eq!(
        closing.ingest(u32::MAX - 1, b"a"),
        vec![bytes_piece(0, b"a")]
    );
    assert_eq!(
        closing.close_at(1, FLOW_CLOSE_GAP_REASON),
        vec![StreamPiece::Gap {
            expected_offset: 1,
            next_offset: Some(3),
            reason: FLOW_CLOSE_GAP_REASON,
        }]
    );
}

#[test]
fn flush_pending_emits_explicit_gap_before_unresolved_payload() {
    let mut stream = DirectionStreamAssembler::default();

    assert_eq!(stream.ingest(100, b"GET "), vec![bytes_piece(0, b"GET ")]);
    assert!(stream.ingest(108, b"HTTP").is_empty());

    assert_eq!(
        stream.flush_pending(FLOW_CLOSE_GAP_REASON),
        vec![
            StreamPiece::Gap {
                expected_offset: 4,
                next_offset: Some(8),
                reason: FLOW_CLOSE_GAP_REASON,
            },
            bytes_piece(8, b"HTTP"),
        ]
    );
}

#[test]
fn close_at_sequence_emits_tail_gap_without_pending_payload() {
    let mut stream = DirectionStreamAssembler::default();

    assert_eq!(stream.ingest(100, b"GET "), vec![bytes_piece(0, b"GET ")]);

    assert_eq!(
        stream.close_at(108, FLOW_CLOSE_GAP_REASON),
        vec![StreamPiece::Gap {
            expected_offset: 4,
            next_offset: Some(8),
            reason: FLOW_CLOSE_GAP_REASON,
        }]
    );
}

#[test]
fn close_at_sequence_discards_pending_payload_after_close_boundary() {
    let mut stream = DirectionStreamAssembler::default();

    assert_eq!(stream.ingest(100, b"GET "), vec![bytes_piece(0, b"GET ")]);
    assert!(stream.ingest(120, b"BAD").is_empty());

    assert_eq!(
        stream.close_at(108, FLOW_CLOSE_GAP_REASON),
        vec![StreamPiece::Gap {
            expected_offset: 4,
            next_offset: Some(8),
            reason: FLOW_CLOSE_GAP_REASON,
        }]
    );
    assert_eq!(stream.pending_count(), PendingCount::default());
    assert!(stream.flush_pending(FLOW_CLOSE_GAP_REASON).is_empty());
    assert!(stream.ingest(120, b"BAD").is_empty());
}

#[test]
fn close_at_sequence_trims_pending_payload_crossing_close_boundary() {
    let mut stream = DirectionStreamAssembler::default();

    assert_eq!(stream.ingest(100, b"GET "), vec![bytes_piece(0, b"GET ")]);
    assert!(stream.ingest(108, b"HTTPBAD").is_empty());

    assert_eq!(
        stream.close_at(112, FLOW_CLOSE_GAP_REASON),
        vec![
            StreamPiece::Gap {
                expected_offset: 4,
                next_offset: Some(8),
                reason: FLOW_CLOSE_GAP_REASON,
            },
            bytes_piece(8, b"HTTP"),
        ]
    );
    assert_eq!(stream.pending_count(), PendingCount::default());
}

#[test]
fn closed_direction_ignores_payload_starting_at_close_boundary() {
    let mut stream = DirectionStreamAssembler::default();

    assert_eq!(stream.ingest(100, b"GET "), vec![bytes_piece(0, b"GET ")]);
    assert!(stream.close_at(104, FLOW_CLOSE_GAP_REASON).is_empty());

    assert!(stream.ingest(104, b"BAD").is_empty());
    assert!(stream.ingest(120, b"BAD").is_empty());
}

#[test]
fn flush_pending_emits_multiple_gaps_in_stream_order() {
    let mut stream = DirectionStreamAssembler::default();

    assert_eq!(stream.ingest(100, b"GET "), vec![bytes_piece(0, b"GET ")]);
    assert!(stream.ingest(108, b"AA").is_empty());
    assert!(stream.ingest(114, b"BB").is_empty());

    assert_eq!(
        stream.flush_pending(FLOW_CLOSE_GAP_REASON),
        vec![
            StreamPiece::Gap {
                expected_offset: 4,
                next_offset: Some(8),
                reason: FLOW_CLOSE_GAP_REASON,
            },
            bytes_piece(8, b"AA"),
            StreamPiece::Gap {
                expected_offset: 10,
                next_offset: Some(14),
                reason: FLOW_CLOSE_GAP_REASON,
            },
            bytes_piece(14, b"BB"),
        ]
    );
}

#[test]
fn buffer_pressure_emits_gap_and_pending_payload() {
    let mut stream = DirectionStreamAssembler::default();

    assert_eq!(stream.ingest(100, b"GET "), vec![bytes_piece(0, b"GET ")]);
    for index in 0..MAX_PENDING_SEGMENTS {
        assert!(stream.ingest(200 + index as u32 * 10, b"x").is_empty());
    }

    assert_eq!(
        stream.ingest(900, b"z"),
        vec![
            StreamPiece::Gap {
                expected_offset: 4,
                next_offset: Some(100),
                reason: BUFFER_LIMIT_GAP_REASON,
            },
            bytes_piece(100, b"x"),
        ]
    );
}

fn bytes_piece(stream_offset: u64, bytes: &[u8]) -> StreamPiece {
    StreamPiece::Bytes {
        stream_offset,
        bytes: Bytes::copy_from_slice(bytes),
    }
}

/// Where a piece starts and ends in the stream.
fn stretch(piece: &StreamPiece) -> (u64, u64) {
    match piece {
        StreamPiece::Bytes {
            stream_offset,
            bytes,
        } => (*stream_offset, *stream_offset + bytes.len() as u64),
        StreamPiece::Gap {
            expected_offset,
            next_offset,
            ..
        } => (*expected_offset, next_offset.expect("a known end")),
    }
}

#[test]
fn calls_in_any_order_cover_the_stream() {
    let sent = b"abcdefghijklmnopqrstuvwxyz";
    let mut stream = DirectionStreamAssembler::default();
    let mut pieces = Vec::new();
    for (start, end) in [(0, 3), (6, 9), (1, 4), (12, 15), (8, 13), (20, 22)] {
        pieces.extend(stream.ingest((u32::MAX - 5).wrapping_add(start as u32), &sent[start..end]));
    }
    pieces.extend(stream.force_gap_for_buffer_limit(FLOW_CLOSE_GAP_REASON));
    pieces.extend(stream.flush_pending(FLOW_CLOSE_GAP_REASON));
    pieces.extend(stream.close_at((u32::MAX - 5).wrapping_add(24), FLOW_CLOSE_GAP_REASON));
    let mut offset = 0;
    for piece in &pieces {
        let (start, end) = stretch(piece);
        assert_eq!(start, offset);
        assert!(end > start);
        if let StreamPiece::Bytes { bytes, .. } = piece {
            assert_eq!(bytes.as_ref(), &sent[start as usize..end as usize]);
        }
        offset = end;
    }
    assert_eq!(offset, 24);
}

#[test]
fn nothing_is_delivered_behind_the_close() {
    let mut stream = DirectionStreamAssembler::default();
    stream.ingest(100, b"ab");
    stream.ingest(106, b"ghij");
    let pieces = stream.close_at(108, FLOW_CLOSE_GAP_REASON);
    assert_eq!(stretch(pieces.last().expect("a last piece")), (6, 8));
    assert!(stream.close_at(108, FLOW_CLOSE_GAP_REASON).is_empty());
    assert!(stream.close_at(200, FLOW_CLOSE_GAP_REASON).is_empty());
    assert!(stream.ingest(108, b"ij").is_empty());
    assert!(stream.ingest(102, b"cdefghij").is_empty());
    assert!(stream.flush_pending(FLOW_CLOSE_GAP_REASON).is_empty());
}
