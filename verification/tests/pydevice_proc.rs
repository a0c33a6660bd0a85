use std::time::Duration;

use hyperbug::mem::GuestMemory;
use hyperbug::plugin::PluginIdentity;
use hyperbug::pydevice_proc::{
    done_reply, frame_len, handle_read_mem, handle_write_mem, mask_flags, on_frame, read_frame, read_reply, read_request,
    write_frame, write_reply, write_request, CallEvent, LoadAction, Loader, ReaderAction, SandboxState, Timeout,
    CALL_TIMEOUT_MS, LOAD_TIMEOUT_MS, MAX_FRAME_LEN, MSG_CB_RAISE_IRQ, MSG_CB_WRITE_MEM, MSG_ERR, MSG_HAS_RESET,
    MSG_HAS_TICK, MSG_IDENTITY, MSG_OK, MSG_OK_BOOL, MSG_OK_BYTES,
};

/// A well-formed frame within the size cap round-trips through
/// `read_frame` exactly as written.
#[test]
fn read_frame_round_trips_a_well_formed_frame() {
    let mut buf = Vec::new();
    write_frame(&mut buf, 0x42, b"hello");
    let (msg_type, payload) = read_frame(&mut buf.as_slice()).expect("a well-formed frame must parse");
    assert_eq!(msg_type, 0x42);
    assert_eq!(payload, b"hello");
}

/// A length prefix claiming more than `MAX_FRAME_LEN` is refused
/// outright — `read_frame` returns `None` (the same as a dead pipe)
/// instead of allocating a buffer sized from an untrusted child
/// process's own claimed length.
#[test]
fn read_frame_refuses_a_length_past_the_cap_without_allocating_it() {
    let mut buf = Vec::new();
    buf.extend_from_slice(&u32::MAX.to_le_bytes()); // ~4 GiB claimed
    // No body needed: a real allocation attempt for a claimed length
    // this large would itself be the failure this test guards
    // against, so the cap must reject before ever trying to read it.
    let start = std::time::Instant::now();
    let result = read_frame(&mut buf.as_slice());
    assert!(result.is_none(), "a length past MAX_FRAME_LEN must be refused, not honored");
    assert!(start.elapsed() < Duration::from_secs(1));
}

/// `handle_read_mem`/`handle_write_mem` are plain functions (no
/// subprocess needed to exercise them directly) — checking the exact
/// same confinement through the CB_READ_MEM/CB_WRITE_MEM wire-protocol
/// handlers a real sandboxed plugin's `self.hyperbug.read_mem`/
/// `write_mem` calls round-trip through.
#[test]
fn a_declared_dma_range_confines_the_cb_read_write_mem_handlers() {
    // 16 KiB, larger than the declared range, so an out-of-range
    // address used below is still real, in-bounds guest RAM — the
    // point is isolating the DMA-range check from the separate
    // out-of-guest-RAM check `dma_outside_guest_ram_...` already
    // covers.
    let mut mem = GuestMemory::new(16384).unwrap();
    let range = Some((0x1000u64, 0x1000u64)); // [0x1000, 0x2000)

    let mut read_payload = 0x1000u64.to_le_bytes().to_vec();
    read_payload.extend_from_slice(&0x10u32.to_le_bytes());
    let (msg_type, _) = handle_read_mem(&read_payload, &mem, range);
    assert_eq!(msg_type, MSG_OK_BYTES, "the start of the declared range");

    let mut write_payload = 0x1ff0u64.to_le_bytes().to_vec();
    write_payload.extend_from_slice(&[0u8; 16]);
    let (msg_type, _) = handle_write_mem(&write_payload, &mut mem, range);
    assert_eq!(msg_type, MSG_OK, "the end of the declared range");

    let mut read_payload = 0x0f00u64.to_le_bytes().to_vec();
    read_payload.extend_from_slice(&0x10u32.to_le_bytes());
    let (msg_type, err) = handle_read_mem(&read_payload, &mem, range);
    assert_eq!(msg_type, MSG_ERR);
    assert!(
        String::from_utf8_lossy(&err).contains("DMA range"),
        "in guest RAM but outside the declared range must still be refused"
    );

    let mut write_payload = 0x1ff8u64.to_le_bytes().to_vec();
    write_payload.extend_from_slice(&[0u8; 16]);
    let (msg_type, err) = handle_write_mem(&write_payload, &mut mem, range);
    assert_eq!(msg_type, MSG_ERR);
    assert!(
        String::from_utf8_lossy(&err).contains("DMA range"),
        "a write straddling past the declared range's end"
    );
}

/// A hostile plugin's `CB_READ_MEM` can claim any `size` up to
/// `u32::MAX` in its 12-byte request — nothing about the wire
/// frame's own length limits that value. `handle_read_mem` must
/// reject an out-of-bounds request before allocating a host buffer
/// sized from it, not after; this confirms the out-of-bounds error
/// path completes quickly and without the process visibly ballooning
/// its memory, for a size (a few GiB) that would be a real, painful
/// allocation if attempted.
#[test]
fn a_huge_out_of_bounds_read_size_is_rejected_before_allocating() {
    let mem = GuestMemory::new(4096).unwrap();
    let mut payload = 0u64.to_le_bytes().to_vec();
    payload.extend_from_slice(&0xF000_0000u32.to_le_bytes()); // ~3.75 GiB, well past guest RAM
    let start = std::time::Instant::now();
    let (msg_type, err) = handle_read_mem(&payload, &mem, None);
    assert_eq!(msg_type, MSG_ERR);
    assert!(String::from_utf8_lossy(&err).contains("outside guest memory"));
    assert!(start.elapsed() < Duration::from_secs(1), "rejecting an oversized size must not allocate it first");
}

#[test]
fn a_frame_is_its_length_its_type_and_its_payload() {
    let mut buf = Vec::new();
    write_frame(&mut buf, 3, &[7, 8]);
    assert_eq!(buf, [3, 0, 0, 0, 3, 7, 8]);
    assert_eq!(frame_len(&buf), Some(3));
    assert_eq!(frame_len(&(MAX_FRAME_LEN + 1).to_le_bytes()), None);
    assert_eq!(frame_len(&[0; 4]), None);
    let mut rest = &buf[..6];
    assert_eq!(read_frame(&mut rest), None, "a frame that is not whole yet");
    assert!(rest.is_empty(), "all of a frame that is cut short is taken");
}

#[test]
fn what_a_refused_frame_leaves_behind() {
    let mut short: &[u8] = &[1, 0, 0];
    assert_eq!(read_frame(&mut short), None);
    assert!(short.is_empty());

    // A length of zero, and one past the cap: the header is gone, and the next
    // frame is read from there.
    for len in [0u32, MAX_FRAME_LEN + 1] {
        let mut buf = len.to_le_bytes().to_vec();
        write_frame(&mut buf, 3, &[7, 8]);
        let mut rest = buf.as_slice();
        assert_eq!(read_frame(&mut rest), None);
        assert_eq!(rest, &buf[4..]);
        assert_eq!(read_frame(&mut rest), Some((3, vec![7, 8])));
        assert!(rest.is_empty());
    }
}

#[test]
fn a_malformed_callback_is_an_error() {
    let mut mem = GuestMemory::new(16).unwrap();
    assert_eq!(handle_read_mem(&[0; 11], &mem, None), (MSG_ERR, b"malformed CB_READ_MEM".to_vec()));
    let (t, _) = handle_write_mem(&[0; 7], &mut mem, None);
    assert_eq!(t, MSG_ERR);
}

#[test]
fn a_plugin_that_times_out_is_killed_once_and_never_called_again() {
    let mut state = SandboxState::new();
    assert!(state.begin_call().is_ok());
    let (r, kill) = state.end_call(CallEvent::Reply(MSG_OK, vec![]), Timeout::Call);
    assert_eq!((r, kill), (Ok((MSG_OK, vec![])), false));
    let (r, kill) = state.end_call(CallEvent::TimedOut, Timeout::Call);
    assert_eq!(r.unwrap_err(), "sandboxed device didn't respond within 200ms; killed");
    assert!(kill);
    assert_eq!(state.begin_call().unwrap_err(), "device is faulted (a prior call timed out or crashed it)");
    let (r, kill) = state.end_call(CallEvent::Disconnected, Timeout::Load);
    assert!(r.is_err());
    assert!(!kill);
    assert_eq!(Timeout::Call.millis(), CALL_TIMEOUT_MS);
    assert_eq!(Timeout::Load.millis(), LOAD_TIMEOUT_MS);
}

#[test]
fn requests_and_replies_have_their_shapes() {
    assert_eq!(read_request(0x10, 4), [0x10, 0, 0, 0, 0, 0, 0, 0, 4, 0, 0, 0]);
    assert_eq!(write_request(1, &[9]), [1, 0, 0, 0, 0, 0, 0, 0, 9]);
    let mut data = [0u8; 2];
    assert_eq!(read_reply(MSG_OK_BYTES, &[1, 2], &mut data), Ok(()));
    assert_eq!(data, [1, 2]);
    assert_eq!(
        read_reply(MSG_OK_BYTES, &[1], &mut data).unwrap_err(),
        "sandboxed device read() returned 1 bytes, expected 2"
    );
    assert_eq!(write_reply(MSG_OK_BOOL, &[1]), Ok(true));
    assert_eq!(write_reply(MSG_OK_BOOL, &[]), Ok(false));
    assert_eq!(write_reply(MSG_ERR, b"no\xff").unwrap_err(), "no\u{fffd}");
    assert_eq!(done_reply(MSG_OK, &[]), Ok(()));
    assert_eq!(done_reply(0x42, &[]).unwrap_err(), "sandboxed device sent unexpected reply type 0x42");
}

#[test]
fn an_identity_is_read_field_by_field() {
    let mut p = vec![1, 0x34, 0x12, 0xef, 0xbe, 0, 0, 0xff, 0];
    for k in 0..6u32 {
        p.extend_from_slice(&(k * 16).to_le_bytes());
    }
    p.extend_from_slice(&[0b100001, 9, 1]);
    let id = PluginIdentity::parse_sandboxed_reply(&p);
    assert_eq!((id.vendor_id, id.device_id, id.class_code), (0x1234, 0xbeef, 0xff_0000));
    assert_eq!(id.bar_sizes, [0, 16, 32, 48, 64, 80]);
    assert_eq!(id.bar_is_io, [true, false, false, false, false, true]);
    assert_eq!((id.interrupt_line, id.msi_capable), (9, true));
    assert_eq!(mask_flags(2), [false, true, false, false, false, false]);
    assert_eq!(PluginIdentity::parse_sandboxed_reply(&p[..35]), PluginIdentity::default());
    p[0] = 0;
    assert_eq!(PluginIdentity::parse_sandboxed_reply(&p), PluginIdentity::default());
}

#[test]
fn a_plugin_is_loaded_question_by_question() {
    let mut l = Loader::new("d.py".into(), "D".into(), true);
    assert!(matches!(l.ready(Some((MSG_OK, vec![]))), LoadAction::Call(MSG_IDENTITY)));
    assert!(matches!(l.answered(Ok((MSG_ERR, vec![]))), LoadAction::Call(MSG_HAS_TICK)));
    assert_eq!(l.identity, PluginIdentity::default());
    assert!(matches!(l.answered(Ok((MSG_OK_BOOL, vec![1]))), LoadAction::Call(MSG_HAS_RESET)));
    assert!(matches!(l.answered(Ok((MSG_OK_BOOL, vec![0]))), LoadAction::Done));
    assert!(l.state.has_tick && !l.state.has_reset);
}

#[test]
fn a_plugin_that_fails_to_load_says_why() {
    let mut l = Loader::new("bad.py".into(), "Whatever".into(), false);
    match l.ready(Some((MSG_ERR, b"No module named x".to_vec()))) {
        LoadAction::Failed(e) => {
            assert!(e.text().contains("loading sandboxed device bad.py (Whatever): No module named x"))
        },
        other => panic!("{other:?}"),
    }
    assert!(matches!(l.ready(None), LoadAction::Killed(_)));
    assert!(matches!(l.ready(Some((MSG_OK, vec![]))), LoadAction::Call(MSG_HAS_TICK)));
    assert!(matches!(l.answered(Err("gone".into())), LoadAction::Failed(_)));
}

#[test]
fn a_plugins_own_frames_are_served_while_it_is_called() {
    let mut mem = GuestMemory::new(32).unwrap();
    let mut write = 4u64.to_le_bytes().to_vec();
    write.extend_from_slice(&[5, 6]);
    match on_frame(MSG_CB_WRITE_MEM, write, &mut mem, None) {
        ReaderAction::Send(t, p) => assert_eq!((t, p), (MSG_OK, vec![])),
        other => panic!("{other:?}"),
    }
    assert_eq!(mem.read_vec(4, 2), Some(vec![5, 6]));
    assert!(matches!(on_frame(MSG_CB_RAISE_IRQ, vec![], &mut mem, None), ReaderAction::RaiseIrq));
    assert!(matches!(on_frame(MSG_OK, vec![1], &mut mem, None), ReaderAction::Forward(MSG_OK, p) if p == [1]));
}
