use hyperbug::gdbstub::{
    frame_packet, from_hex, to_hex, Breakpoints, DebugAction, GdbStub, PacketAction, PacketReader,
};
use hyperbug::mem::GuestMemory;
use hyperbug::regs::{Regs, Sregs};

#[test]
fn gdbstub_hex_round_trips() {
    let data = vec![0xde, 0xad, 0xbe, 0xef];
    assert_eq!(to_hex(&data), "deadbeef");
    assert_eq!(from_hex("deadbeef").unwrap(), data);
    assert_eq!(from_hex("odd"), None);
    assert_eq!(from_hex("zz"), None);
}

fn feed_all(reader: &mut PacketReader, bytes: &[u8], no_ack: bool) -> (Vec<u8>, Vec<String>) {
    let (mut acks, mut packets) = (Vec::new(), Vec::new());
    for &b in bytes {
        let (ack, packet) = reader.feed(b, no_ack);
        acks.extend(ack);
        packets.extend(packet);
    }
    (acks, packets)
}

#[test]
fn packet_framing_round_trips() {
    let mut reader = PacketReader::new();
    // The checksum of 'g' (0x67) is 0x67 itself.
    assert_eq!(frame_packet("g"), b"$g#67");
    assert_eq!(feed_all(&mut reader, b"$g#67", false), (b"+".to_vec(), vec!["g".to_string()]));
    assert_eq!(frame_packet("E01"), b"$E01#a6");
    assert_eq!(feed_all(&mut reader, b"+noise$E01#a6", false), (b"+".to_vec(), vec!["E01".to_string()]));
}

#[test]
fn a_packet_with_a_wrong_checksum_is_asked_for_again() {
    let mut reader = PacketReader::new();
    assert_eq!(feed_all(&mut reader, b"$g#00", false), (b"-".to_vec(), vec![]));
    assert_eq!(feed_all(&mut reader, b"$g#67", true), (vec![], vec!["g".to_string()]));
}

fn reply(stub: &mut GdbStub, mem: &mut GuestMemory, packet: &str) -> String {
    match stub.handle_packet(packet, Some(Regs::default()), Some(Sregs::default()), mem) {
        PacketAction::Reply(s) => s,
        other => panic!("{other:?}"),
    }
}

#[test]
fn breakpoint_bookkeeping_shadows_the_patched_byte_on_read_and_write() {
    let mut mem = GuestMemory::new(4096).unwrap();
    mem.write_checked(0x100, &[0x90, 0x90, 0x90, 0x90]);

    let mut stub = GdbStub::new();
    assert_eq!(reply(&mut stub, &mut mem, "Z0,101,1"), "OK");
    let mut raw = [0u8; 4];
    mem.read_checked(0x100, &mut raw);
    assert_eq!(raw, [0x90, 0xCC, 0x90, 0x90], "the real memory does contain 0xCC");

    assert_eq!(
        reply(&mut stub, &mut mem, "m100,4"),
        "90909090",
        "the shadowed read must show the original byte, not 0xCC"
    );

    assert_eq!(reply(&mut stub, &mut mem, "M100,4:01020304"), "OK");
    mem.read_checked(0x100, &mut raw);
    assert_eq!(raw, [1, 0xCC, 3, 4], "the breakpoint stays in place");
    assert_eq!(reply(&mut stub, &mut mem, "m100,4"), "01020304");
    assert_eq!(reply(&mut stub, &mut mem, "z0,101,1"), "OK");
    mem.read_checked(0x100, &mut raw);
    assert_eq!(raw, [1, 2, 3, 4]);
}

#[test]
fn setting_a_breakpoint_twice_keeps_the_byte_behind_it() {
    let mut mem = GuestMemory::new(16).unwrap();
    mem.write_checked(3, &[0x55]);
    let mut stub = GdbStub::new();
    assert_eq!(reply(&mut stub, &mut mem, "Z0,3,1"), "OK");
    assert_eq!(reply(&mut stub, &mut mem, "Z0,3,1"), "OK");
    assert_eq!(reply(&mut stub, &mut mem, "z0,3,1"), "OK");
    assert_eq!(mem.read_vec(3, 1), Some(vec![0x55]));

    let mut table = Breakpoints::new();
    table.insert(3, 0x55);
    table.insert(3, 0xcc);
    assert_eq!(table.get(3), Some(0x55));
    assert_eq!(table.remove(3), Some(0x55));
    assert_eq!(table.get(3), None);
}

#[test]
fn bad_requests_are_answered_with_an_error() {
    let mut mem = GuestMemory::new(16).unwrap();
    let mut stub = GdbStub::new();
    assert_eq!(reply(&mut stub, &mut mem, "m8,9"), "E01");
    assert_eq!(reply(&mut stub, &mut mem, "mzz,1"), "E01");
    assert_eq!(reply(&mut stub, &mut mem, "M0,2:00"), "E01");
    assert_eq!(reply(&mut stub, &mut mem, "Z0,10,1"), "E01");
    assert_eq!(reply(&mut stub, &mut mem, "G00"), "E01;expected at least 136 bytes, got 1");
    assert_eq!(reply(&mut stub, &mut mem, "Gzz"), "E01;bad hex");
    assert_eq!(reply(&mut stub, &mut mem, "vCont?"), "");
    assert_eq!(GdbStub::registers_written(Err("EIO".into())), "E01;EIO");
    assert_eq!(GdbStub::registers_written(Ok(())), "OK");
}

#[test]
fn registers_read_are_the_registers_written() {
    let regs = Regs { rax: 0x0102_0304_0506_0708, rip: 0xffff_ffff_8000_0000, rflags: 0x246, ..Default::default() };
    let mut mem = GuestMemory::new(16).unwrap();
    let mut stub = GdbStub::new();
    let block = match stub.handle_packet("g", Some(regs), Some(Sregs::default()), &mut mem) {
        PacketAction::Reply(s) => s,
        other => panic!("{other:?}"),
    };
    assert!(block.starts_with("0807060504030201"));
    match stub.handle_packet(&format!("G{block}"), Some(Regs::default()), None, &mut mem) {
        PacketAction::WriteRegs(r) => assert_eq!(r, regs),
        other => panic!("{other:?}"),
    }
    assert!(matches!(
        stub.handle_packet(&format!("G{block}"), None, None, &mut mem),
        PacketAction::RegsUnavailable
    ));
    assert!(matches!(stub.handle_packet("g", None, None, &mut mem), PacketAction::Reply(s) if s == "E01"));
}

#[test]
fn continuing_from_a_breakpoint_steps_over_it_first() {
    let mut mem = GuestMemory::new(64).unwrap();
    mem.write_checked(0x10, &[0x90, 0x90]);
    let mut stub = GdbStub::new();
    assert_eq!(reply(&mut stub, &mut mem, "Z0,10,1"), "OK");
    let at = Regs { rip: 0x10, ..Default::default() };
    match stub.handle_packet("c", Some(at), None, &mut mem) {
        PacketAction::Resume(None, control) => assert_eq!(control, 0x10003),
        other => panic!("{other:?}"),
    }
    assert_eq!(mem.read_vec(0x10, 1), Some(vec![0x90]));
    assert!(!stub.is_stopped());
    match stub.handle_debug_exit(0x11, 0x11, &mut mem) {
        DebugAction::Resumed(control) => assert_eq!(control, 0x10001),
        other => panic!("{other:?}"),
    }
    assert_eq!(mem.read_vec(0x10, 1), Some(vec![0xcc]));
    assert!(matches!(stub.handle_debug_exit(0x10, 0x10, &mut mem), DebugAction::Stop));
    assert!(stub.is_stopped());
    assert!(matches!(stub.handle_debug_exit(0x20, 0x20, &mut mem), DebugAction::ForwardToGuest));
}

#[test]
fn a_step_stops_after_one_instruction() {
    let mut mem = GuestMemory::new(64).unwrap();
    let mut stub = GdbStub::new();
    match stub.handle_packet("s8", Some(Regs::default()), None, &mut mem) {
        PacketAction::Resume(Some(r), control) => {
            assert_eq!(r.rip, 8);
            assert_eq!(control, 0x10003);
        },
        other => panic!("{other:?}"),
    }
    assert!(matches!(stub.handle_debug_exit(9, 9, &mut mem), DebugAction::Stop));
    assert!(matches!(stub.handle_packet("c", None, None, &mut mem), PacketAction::NoRegs));
}

#[test]
fn detaching_takes_every_breakpoint_out() {
    let mut mem = GuestMemory::new(64).unwrap();
    mem.write_checked(0, &[1, 2, 3, 4]);
    let mut stub = GdbStub::new();
    assert_eq!(reply(&mut stub, &mut mem, "Z0,1,1"), "OK");
    assert_eq!(reply(&mut stub, &mut mem, "Z0,3,1"), "OK");
    assert!(matches!(stub.handle_packet("D", None, None, &mut mem), PacketAction::Detach));
    assert_eq!(mem.read_vec(0, 4), Some(vec![1, 2, 3, 4]));
    assert!(!stub.is_attached());
    assert!(!stub.is_stopped());
}

#[test]
fn killing_ends_the_session() {
    let mut mem = GuestMemory::from_vec(vec![]);
    let mut stub = GdbStub::new();
    assert_eq!(reply(&mut stub, &mut mem, "?"), "S05");
    assert!(reply(&mut stub, &mut mem, "qSupported:multiprocess+").starts_with("PacketSize="));
    assert!(!stub.is_no_ack());
    assert_eq!(reply(&mut stub, &mut mem, "QStartNoAckMode"), "OK");
    assert!(stub.is_no_ack());
    assert!(matches!(stub.handle_packet("k", None, None, &mut mem), PacketAction::Kill));
    assert!(stub.wants_kill());
}
