use hyperbug::control::{
    admits, apply_reg_assignments, from_hex, handle_command, parse_addr, set_regs_reply, snapshot_reply, write_hex,
    machine_command, Client, CommandOutcome, MachineCommand, MAX_CLIENTS, MAX_LINE,
};
use hyperbug::machine::PluginSelector;
use hyperbug::mem::GuestMemory;
use hyperbug::regs::Regs;

#[test]
fn control_hex_round_trips() {
    let data: Vec<u8> = (0..=255u8).collect();
    let mut hex = String::new();
    write_hex(&data, &mut hex);
    assert_eq!(hex.len(), 512);
    assert_eq!(from_hex(&hex).unwrap(), data);
    assert_eq!(from_hex("DEADbeef").unwrap(), vec![0xde, 0xad, 0xbe, 0xef]);
}

#[test]
fn from_hex_rejects_bad_input_instead_of_panicking() {
    assert_eq!(from_hex("abc"), None, "odd length");
    assert_eq!(from_hex("zz"), None, "non-hex digits");
    // A byte pair may straddle a multi-byte character.
    assert_eq!(from_hex("aéa"), None);
    assert_eq!(from_hex("é"), None);
    assert_eq!(from_hex("ée"), None);
}

#[test]
fn parse_addr_accepts_both_prefixed_and_bare_hex() {
    assert_eq!(parse_addr("0x1000"), Some(0x1000));
    assert_eq!(parse_addr("1000"), Some(0x1000));
    assert_eq!(parse_addr("nope"), None);
}

#[test]
fn write_regs_touches_only_the_named_fields() {
    let mut regs = Regs { rip: 0x1111, rax: 0x2222, rsp: 0x3333, ..Default::default() };
    apply_reg_assignments(&mut regs, &["rip=0xdead", "rax=beef"]).unwrap();
    assert_eq!(regs.rip, 0xdead, "0x-prefixed value");
    assert_eq!(regs.rax, 0xbeef, "bare hex value");
    assert_eq!(regs.rsp, 0x3333, "an unnamed register must be left alone");
}

#[test]
fn write_regs_covers_every_field_the_regs_reply_prints() {
    // The two directions have to stay symmetric: a `regs` reply should
    // be editable and handed straight back to `write_regs`.
    let names = [
        "rip", "rsp", "rbp", "rflags", "rax", "rbx", "rcx", "rdx", "rsi", "rdi", "r8", "r9",
        "r10", "r11", "r12", "r13", "r14", "r15",
    ];
    let mut regs = Regs::default();
    for (i, name) in names.iter().enumerate() {
        let value = (i as u64) + 1;
        let assignment = format!("{name}={value:x}");
        apply_reg_assignments(&mut regs, &[assignment.as_str()])
            .unwrap_or_else(|e| panic!("{name} should be writable: {e}"));
    }
    assert_eq!(regs.rip, 1);
    assert_eq!(regs.r15, 18);
}

#[test]
fn write_regs_rejects_bad_input() {
    let mut regs = Regs::default();
    assert!(apply_reg_assignments(&mut regs, &["rip"]).is_err(), "no '='");
    assert!(
        apply_reg_assignments(&mut regs, &["cr3=0"]).is_err(),
        "cr3 is not a general-purpose register"
    );
    assert!(apply_reg_assignments(&mut regs, &["rip=zzz"]).is_err(), "not hex");
    assert!(apply_reg_assignments(&mut regs, &[]).is_err(), "no assignments");
}


#[test]
fn client_frames_lines_across_partial_writes_and_notices_eof() {
    let mut client = Client::new();

    assert!(client.receive(b"regs\nread_"));
    assert_eq!(client.next_line().as_deref(), Some("regs"));
    assert_eq!(client.next_line(), None, "a partial line isn't served yet");

    assert!(client.receive(b"mem 0 4\n"));
    assert_eq!(client.next_line().as_deref(), Some("read_mem 0 4"));
}

#[test]
fn accepts_several_clients_and_caps_the_rest() {
    let mut clients: Vec<Client> = Vec::new();
    for _ in 0..MAX_CLIENTS + 2 {
        if admits(clients.len()) {
            clients.push(Client::new());
        }
    }
    assert_eq!(clients.len(), MAX_CLIENTS, "excess connections are refused, not silently queued");

    // Each attached client keeps its own line buffer, so a partial
    // line from one doesn't corrupt another's.
    assert!(clients[0].receive(b"re"));
    assert!(clients[1].receive(b"regs\n"));
    assert_eq!(clients[0].next_line(), None);
    assert_eq!(clients[1].next_line().as_deref(), Some("regs"));
}

#[test]
fn a_line_that_never_ends_marks_the_client_dead() {
    let mut client = Client::new();
    assert!(client.receive(&vec![b'a'; MAX_LINE]));
    assert!(!client.receive(b"a"));
}

#[test]
fn a_line_that_is_not_utf8_is_replaced_not_refused() {
    let mut client = Client::new();
    assert!(client.receive(b"re\xffgs\nok\xc3\xa9\n"));
    assert_eq!(client.next_line().as_deref(), Some("re\u{fffd}gs"));
    assert_eq!(client.next_line().as_deref(), Some("ok\u{e9}"));
}

#[test]
fn commands_for_the_machine_are_told_apart() {
    assert!(matches!(machine_command("fork /tmp/s"), Some(MachineCommand::Fork(p)) if p == "/tmp/s"));
    assert!(matches!(machine_command(" migrate  h:1 "), Some(MachineCommand::Migrate(a)) if a == "h:1"));
    assert!(matches!(
        machine_command("reload_device mmio 0xd0000000"),
        Some(MachineCommand::Reload(PluginSelector::Mmio(0xd000_0000)))
    ));
    assert!(matches!(machine_command("reset_device pci 3"), Some(MachineCommand::Reset(PluginSelector::Pci(3)))));
    for incomplete in ["fork", "migrate", "reload_device", "reset_device pci 256", "reload_device mmio zz"] {
        assert!(matches!(machine_command(incomplete), Some(MachineCommand::Usage(u)) if u.starts_with("ERR usage: ")));
    }
    assert!(machine_command("regs").is_none() && machine_command("").is_none());
}

fn reply(line: &str, mem: &mut GuestMemory) -> String {
    match handle_command(line, mem, Ok(Regs { rip: 0x10, r15: 0xff, ..Default::default() })) {
        CommandOutcome::Reply(s) => s,
        other => panic!("{other:?}"),
    }
}

#[test]
fn what_is_written_is_read_back() {
    let mut mem = GuestMemory::new(4096).unwrap();
    assert_eq!(reply("write_mem 0x100 DEADbeef", &mut mem), "OK");
    assert_eq!(reply("read_mem 100 4", &mut mem), "OK deadbeef");
    assert_eq!(reply("read_mem 0xff 6", &mut mem), "OK 00deadbeef00");
}

#[test]
fn every_refusal_has_its_reply() {
    let mut mem = GuestMemory::new(4096).unwrap();
    assert_eq!(reply("", &mut mem), "ERR unknown command");
    assert_eq!(reply("frobnicate", &mut mem), "ERR unknown command");
    assert_eq!(reply("read_mem 0", &mut mem), "ERR usage: read_mem <hex_addr> <len>");
    assert_eq!(reply("read_mem zz 4", &mut mem), "ERR bad address or length");
    assert_eq!(reply("read_mem 0 1048577", &mut mem), "ERR read_mem length 1048577 exceeds the 1048576-byte limit");
    assert_eq!(reply("read_mem 0xffe 4", &mut mem), "ERR read_mem(0xffe, 4) is out of bounds");
    assert_eq!(reply("write_mem 0", &mut mem), "ERR usage: write_mem <hex_addr> <hex_bytes>");
    assert_eq!(reply("write_mem zz 00", &mut mem), "ERR bad address");
    assert_eq!(reply("write_mem 0 0", &mut mem), "ERR bad hex data");
    assert_eq!(reply("write_mem 0xfff 0102", &mut mem), "ERR write_mem(0xfff, 2 bytes) is out of bounds");
    assert_eq!(reply("snapshot", &mut mem), "ERR usage: snapshot <path>");
    assert_eq!(set_regs_reply(Err("EINVAL".into())), "ERR KVM_SET_REGS failed: EINVAL");
    assert_eq!(snapshot_reply(Err("disk full".into())), "ERR disk full");
    assert_eq!(set_regs_reply(Ok(())), "OK");
    assert_eq!(snapshot_reply(Ok(())), "OK");
    let failed = handle_command("regs", &mut mem, Err("EINTR".into()));
    assert!(matches!(failed, CommandOutcome::Reply(s) if s == "ERR KVM_GET_REGS failed: EINTR"));
}

#[test]
fn a_regs_reply_can_be_handed_back() {
    let mut mem = GuestMemory::from_vec(vec![]);
    let shown = reply("regs", &mut mem);
    assert!(shown.starts_with("OK rip=0x10 rsp=0x0 rbp=0x0 rflags=0x0 rax=0x0"), "got: {shown}");
    assert!(shown.ends_with(" r15=0xff"));
    let line = format!("write_regs {}", &shown[3..]);
    match handle_command(&line, &mut mem, Ok(Regs::default())) {
        CommandOutcome::SetRegs(r) => assert_eq!(r, Regs { rip: 0x10, r15: 0xff, ..Default::default() }),
        other => panic!("{other:?}"),
    }
}

#[test]
fn a_snapshot_names_its_path() {
    let mut mem = GuestMemory::from_vec(vec![]);
    match handle_command("snapshot /tmp/s extra", &mut mem, Ok(Regs::default())) {
        CommandOutcome::Snapshot(p) => assert_eq!(p, "/tmp/s"),
        other => panic!("{other:?}"),
    }
}
