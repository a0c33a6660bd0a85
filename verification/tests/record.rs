use hyperbug::record::{
    read_all, write_event, write_header, EventKind, RecordedEvent, RecordingHeader, Replayer, FORMAT_VERSION,
};

#[test]
fn write_event_then_read_all_round_trips_exactly() {
    let mut w = Vec::new();
    write_header(&mut w, &RecordingHeader { mem_size: 256u64 * 1024 * 1024, precise: true });
    write_event(&mut w, 100, 10, EventKind::KeyboardRx, b"hi");
    write_event(&mut w, 250, 20, EventKind::NetRx, &[0xde, 0xad, 0xbe, 0xef]);
    write_event(&mut w, 250, 20, EventKind::KeyboardRx, b""); // empty data must round-trip too

    let (header, events) = read_all("r.bin", &w).unwrap();
    assert_eq!(header.mem_size, 256 * 1024 * 1024);
    assert!(header.precise);
    assert_eq!(
        events,
        vec![
            RecordedEvent { branch_count: 100, elapsed_ms: 10, kind: EventKind::KeyboardRx, data: b"hi".to_vec() },
            RecordedEvent {
                branch_count: 250,
                elapsed_ms: 20,
                kind: EventKind::NetRx,
                data: vec![0xde, 0xad, 0xbe, 0xef]
            },
            RecordedEvent { branch_count: 250, elapsed_ms: 20, kind: EventKind::KeyboardRx, data: Vec::new() },
        ]
    );
}

fn header(magic: &[u8], version: u32, mem_size: u64, precise: u8) -> Vec<u8> {
    let mut v = magic.to_vec();
    v.extend_from_slice(&version.to_le_bytes());
    v.extend_from_slice(&mem_size.to_le_bytes());
    v.push(precise);
    v
}

#[test]
fn read_all_rejects_a_bad_magic_and_a_truncated_file() {
    assert!(read_all("r.bin", b"NOPE").is_err());

    // A header that claims an event follows but is cut off mid-event
    // must be a clean error, not a panic.
    let mut file = header(b"HBRR", FORMAT_VERSION, 0, 0);
    file.push(EventKind::KeyboardRx.to_byte());
    file.extend_from_slice(&0u64.to_le_bytes()); // branch_count
    file.extend_from_slice(&0u64.to_le_bytes()); // elapsed_ms
    file.extend_from_slice(&100u32.to_le_bytes()); // claims 100 bytes of data
    file.extend_from_slice(b"only a few"); // far fewer than claimed
    assert!(read_all("r.bin", &file).is_err());
}

#[test]
fn another_format_version_or_an_unknown_event_is_refused() {
    let old = read_all("r.bin", &header(b"HBRR", 1, 0, 0)).unwrap_err();
    assert!(old.contains("r.bin"), "got: {old}");
    let mut file = header(b"HBRR", FORMAT_VERSION, 0, 0);
    assert_eq!(read_all("r.bin", &file).unwrap().1.len(), 0);
    file.push(9);
    file.extend_from_slice(&[0; 20]);
    assert!(read_all("r.bin", &file).is_err());
    assert_eq!(EventKind::from_byte(3), Some(EventKind::RngBytes));
    assert_eq!(EventKind::from_byte(9), None);
}

/// `elapsed_ms` is fixed at `u64::MAX` for every event so these tests
/// exercise the branch-count path in isolation.
fn recording(mem_size: u64, events: &[(EventKind, u64, &[u8])]) -> Vec<u8> {
    let mut w = Vec::new();
    write_header(&mut w, &RecordingHeader { mem_size, precise: true });
    for &(kind, branch_count, data) in events {
        write_event(&mut w, branch_count, u64::MAX, kind, data);
    }
    w
}

#[test]
fn replayer_rejects_a_mem_size_mismatch_without_needing_a_real_counter() {
    let data = recording(128 * 1024 * 1024, &[]);
    let err = match Replayer::start("r.bin", &data, 256 * 1024 * 1024) {
        Ok(_) => panic!("a mem_size mismatch must be refused"),
        Err(e) => e,
    };
    assert!(err.contains("128"), "got: {err}");
    assert!(err.contains("256"), "got: {err}");
}

#[test]
fn replayer_delivers_a_keyboard_event_at_position_zero_and_withholds_a_later_one() {
    let data = recording(4096, &[(EventKind::KeyboardRx, 0, b"a"), (EventKind::KeyboardRx, 1_000_000_000, b"b")]);
    let mut replayer = Replayer::start("r.bin", &data, 4096).ok().unwrap();
    assert_eq!(replayer.poll_keyboard(0, 0), Some(b"a".to_vec()), "position 0 should deliver immediately");
    assert_eq!(replayer.poll_keyboard(0, 5), None, "a later position should not deliver before it is reached");
    assert_eq!(replayer.poll_keyboard(1_000_000_000, 5), Some(b"b".to_vec()));
    assert_eq!(replayer.poll_keyboard(u64::MAX, u64::MAX), None);
}

#[test]
fn replayer_falls_back_to_wall_clock_when_the_branch_counter_would_never_reach_position() {
    let mut data = Vec::new();
    write_header(&mut data, &RecordingHeader { mem_size: 4096, precise: true });
    // A branch count that is never reached, but a time of 0.
    write_event(&mut data, u64::MAX, 0, EventKind::KeyboardRx, b"z");
    let mut replayer = Replayer::start("r.bin", &data, 4096).ok().unwrap();
    assert_eq!(
        replayer.poll_keyboard(0, 0),
        Some(b"z".to_vec()),
        "an unreachable branch_count must not block delivery forever — the wall-clock \
         fallback should have fired"
    );
}

#[test]
fn replayer_serves_rng_bytes_in_order_split_across_recorded_chunks() {
    let data = recording(4096, &[(EventKind::RngBytes, 0, &[1, 2, 3, 4]), (EventKind::RngBytes, 0, &[5, 6])]);
    let mut replayer = Replayer::start("r.bin", &data, 4096).ok().unwrap();

    // A request smaller than the first recorded chunk: served from
    // within it.
    assert_eq!(replayer.next_rng_bytes(2), Some(vec![1, 2]));
    // A request spanning the rest of the first chunk plus into the
    // second: must be seamlessly joined.
    assert_eq!(replayer.next_rng_bytes(3), Some(vec![3, 4, 5]));
    assert_eq!(replayer.next_rng_bytes(1), Some(vec![6]));
    assert!(!replayer.rng_exhausted());
    // Exhausted: falls back to `None` rather than blocking or padding.
    assert_eq!(replayer.next_rng_bytes(1), None);
    assert!(replayer.rng_exhausted());
}

#[test]
fn replayer_counts_skipped_net_events_without_disturbing_other_streams() {
    let data = recording(
        4096,
        &[(EventKind::NetRx, 0, &[0xaa]), (EventKind::KeyboardRx, 0, b"x"), (EventKind::NetRx, 0, &[0xbb])],
    );
    let mut replayer = Replayer::start("r.bin", &data, 4096).ok().unwrap();
    assert_eq!(replayer.skipped_net_events(), 2);
    assert_eq!(
        replayer.poll_keyboard(0, 0),
        Some(b"x".to_vec()),
        "the net events must not have displaced the keyboard one"
    );
}
