use hyperbug::config::DEFAULT_CMDLINE;
use hyperbug::device::{IoBus, MmioBus, SharedDevice};
use hyperbug::error::{new_exit_slot, request_exit};
use hyperbug::fork::{after_fork, before_fork, child_args, validate_forkable, AfterFork, ForkStep};
use hyperbug::launch::{
    boot_source, check_snapshot_devices, check_snapshot_memory, final_outcome, load_guest, restore_device_state,
    restore_memory, setup_bsp, validate_launch, validate_memory, validate_record, validate_restore, validate_smp,
    BootSource,
};
use hyperbug::loader::{put_u32, CMDLINE_START, KERNEL_START, ZERO_PAGE_START};
use hyperbug::machine::{build_plan, virtio_place, BuildStep, Machine, PluginTransportKind};
use hyperbug::mem::GuestMemory;
use hyperbug::migrate::{after_transfer, before_transfer, validate_migratable};
use hyperbug::pci::{HostBridge, PciBus, PciConfig};
use hyperbug::plugin::PluginIdentity;
use hyperbug::reactor::{
    handle_stdin, handle_tap, handle_vsock_bridge, push_rx, ReactorPause, Source, Sources, StdinState, Watched,
};
use hyperbug::regs::Sregs;
use hyperbug::serial::{Serial, COM1_BASE, IER_RDI, REG_IER};
use hyperbug::{Args, GuestExit, HyperbugError};

fn parse(line: &str) -> Args {
    Args::parse(line.split_whitespace().map(str::to_string).collect()).unwrap()
}

#[test]
fn memory_is_bounded_on_both_sides() {
    assert_eq!(validate_memory(&parse("--kernel k --mem 64")).unwrap(), 64 << 20);
    let text = |line: &str| validate_memory(&parse(line)).unwrap_err().text();
    assert_eq!(text("--kernel k --mem 31"), "configuration error: --mem must be at least 32 MiB");
    assert!(text("--kernel k --mem 18446744073709551615").ends_with("overflows"));
    assert!(text("--kernel k --mem 250881").contains("identity-map limit"));
    assert!(validate_memory(&parse("--kernel k --mem 250880")).is_ok());
}

#[test]
fn cpus_are_bounded_by_the_host() {
    assert_eq!(validate_smp(&parse("--kernel k --smp 4"), 4).unwrap(), 4);
    assert!(validate_smp(&parse("--kernel k --smp 5"), 4).is_err());
    assert!(validate_smp(&parse("--kernel k --smp 0"), 4).is_err());
}

#[test]
fn record_and_replay_exclude_each_other() {
    assert!(validate_record(&parse("--kernel k --record r")).is_ok());
    assert!(validate_record(&parse("--kernel k --record r --smp 2")).is_err());
    assert!(validate_record(&parse("--kernel k --replay r --smp 2")).is_err());
    assert!(validate_record(&parse("--kernel k --record r --replay q")).is_err());
}

#[test]
fn a_restore_needs_what_a_snapshot_holds() {
    assert!(validate_restore(&parse("--kernel k --device d:C:1000:10")).is_ok());
    assert!(validate_restore(&parse("--kernel k --restore s")).is_ok());
    assert!(validate_restore(&parse("--kernel k --restore s --device d:C:1000:10")).is_err());
    assert!(validate_restore(&parse("--kernel k --restore s --migrate-listen a:1")).is_err());
    assert!(validate_restore(&parse("--kernel k --migrate-listen a:1 --smp 2")).is_err());
    assert!(check_snapshot_memory(1 << 20, 1 << 20).is_ok());
    assert!(check_snapshot_memory(1 << 20, 2 << 20).unwrap_err().text().contains("1 MiB of guest memory"));
    assert!(check_snapshot_devices(2, 2).is_ok());
    assert!(check_snapshot_devices(2, 3).is_err());
}

fn fake_kernel() -> Vec<u8> {
    let mut raw = vec![0u8; 1024 + 512];
    raw[0x1f1] = 1;
    raw[0x1fe..0x200].copy_from_slice(&0xaa55u16.to_le_bytes());
    raw[0x202..0x206].copy_from_slice(b"HdrS");
    raw[0x236] = 1;
    put_u32(&mut raw, 0x238, 2047);
    raw[1024] = 0xf4;
    raw
}

#[test]
fn a_guest_is_loaded_with_all_it_needs() {
    let mem_size: u64 = 64 << 20;
    let mut mem = GuestMemory::new(mem_size as usize).unwrap();
    let args = parse("--kernel k --initrd i");
    let entry = load_guest(&args, fake_kernel(), Some(vec![7; 10]), &[0u8; 40], &mut mem, mem_size, 2).unwrap();
    assert_eq!(entry, KERNEL_START + 0x200);
    assert_eq!(mem.read_vec(KERNEL_START, 1), Some(vec![0xf4]));
    let n = DEFAULT_CMDLINE.len() as u64;
    assert_eq!(mem.read_vec(CMDLINE_START, n), Some(DEFAULT_CMDLINE.as_bytes().to_vec()));
    let ramdisk = u64::from(mem.read_u32_checked(ZERO_PAGE_START + 0x218).unwrap());
    assert_eq!(mem.read_vec(ramdisk, 10), Some(vec![7; 10]));
    assert_eq!(mem.read_vec(0xe0000, 8), Some(b"RSD PTR ".to_vec()));

    let mut sregs = Sregs::default();
    let regs = setup_bsp(&mut mem, &mut sregs, mem_size, entry).unwrap();
    assert_eq!((regs.rip, regs.rsi, regs.rflags), (entry, ZERO_PAGE_START, 2));
    assert_eq!(sregs.cr3, 0x9000);
    assert_eq!(mem.read_vec(CMDLINE_START, n), Some(DEFAULT_CMDLINE.as_bytes().to_vec()));
}

#[test]
fn a_guest_that_cannot_be_loaded_says_why() {
    let mut mem = GuestMemory::new(64 << 20).unwrap();
    assert!(load_guest(&parse("--kernel k"), vec![0; 10], None, &[], &mut mem, 64 << 20, 1).is_err());
    let mut line = parse("--kernel k");
    line.cmdline = "a".repeat(2047);
    assert!(load_guest(&line, fake_kernel(), None, &[], &mut mem, 64 << 20, 1).is_err());
}

#[test]
fn a_plan_has_what_was_asked_for() {
    let plan = build_plan(&parse("--kernel k --disk a --disk b --net --device d:C:1000:10 --pci-device d:C:3"));
    assert!(plan.contains(&BuildStep::Disk(1)) && !plan.contains(&BuildStep::Disk(2)));
    assert!(plan.contains(&BuildStep::Net));
    assert!(plan.contains(&BuildStep::MmioPlugin(PluginTransportKind::InProcess, 0)));
    assert!(plan.contains(&BuildStep::PciPlugin(PluginTransportKind::InProcess, 0)));
    assert!(!plan.contains(&BuildStep::I2c) && !plan.contains(&BuildStep::Vsock));
    let many = "--kernel k".to_string() + &" --disk a".repeat(9);
    assert!(build_plan(&parse(&many)).contains(&BuildStep::TooManyDisks));
}

#[test]
fn devices_are_numbered_and_slots_are_taken_once() {
    let mut m = Machine::new();
    assert!(m.add_irq(4));
    assert!(!m.add_irq(4));
    assert_eq!(m.register_io(0x600, 2), SharedDevice { id: 0 });
    let (bridge, events) = m.register_pci(0, PciConfig::snapshot(&HostBridge)).unwrap();
    assert_eq!(bridge, SharedDevice { id: 1 });
    assert!(events.is_empty());
    assert!(m.register_pci(0, PciConfig::snapshot(&HostBridge)).is_err());
    let id = PluginIdentity { interrupt_line: 9, msi_capable: true, ..Default::default() };
    m.add_pci_plugin(PluginTransportKind::InProcess, "p".into(), None, 2, None, None, &id).unwrap();
    assert_eq!(m.msi_devfn(9), Some(16));
    assert_eq!(m.msi_devfn(4), None);
    m.add_mmio_plugin(PluginTransportKind::Native, "q".into(), None, 0xd000_0000, 0x100, None, None);
    assert!(m.mmio_bus.find_device(0xd000_00ff).is_some());
}

#[test]
fn a_reserved_slot_is_a_configuration_error_for_every_plugin() {
    let kinds = [
        PluginTransportKind::InProcess,
        PluginTransportKind::Sandboxed,
        PluginTransportKind::Native,
        PluginTransportKind::Wasm,
    ];
    for kind in kinds {
        for number in 0..32u8 {
            let mut m = Machine::new();
            let id = PluginIdentity { interrupt_line: 9, ..Default::default() };
            let r = m.add_pci_plugin(kind, "p".into(), None, number, None, None, &id);
            assert_eq!(r.is_err(), (4..=23).contains(&number), "slot {number}");
            if let Err(e) = r {
                assert!(matches!(e, HyperbugError::Config(_)));
                assert!(e.text().ends_with(&format!(
                    "PCI device number {number} is reserved for hyperbug's own virtio devices — use 1-3 or 24-31"
                )));
                assert!(m.irqs.is_empty() && m.plugin_registry.is_empty());
            }
        }
    }
    let mut m = Machine::new();
    m.register_pci(0, PciConfig::snapshot(&HostBridge)).unwrap();
    let taken = m.add_pci_plugin(PluginTransportKind::Native, "p".into(), None, 0, None, None, &PluginIdentity::default());
    assert!(taken.unwrap_err().text().contains("already in use"));
}

#[test]
fn tokens_are_numbered_kind_by_kind() {
    let s = Sources { taps: 1, notifies: 2, blks: 1, gpios: 1 };
    let all = [
        Source::Stdin,
        Source::Tap(0),
        Source::Notify(0),
        Source::Notify(1),
        Source::Blk(0),
        Source::Gpio(0),
        Source::Vsock,
    ];
    for (i, source) in all.into_iter().enumerate() {
        assert_eq!(s.token(source), i as u64);
        assert_eq!(s.source(i as u64), source);
    }
}

#[test]
fn what_precedes_the_escape_byte_still_reaches_the_guest() {
    let step = handle_stdin(Some(b"ab\x1dcd"), 64);
    assert_eq!((step.deliver, step.quit, step.next), (2, true, Some(StdinState::Open)));
    let full = handle_stdin(Some(b"abcd"), 4);
    assert_eq!((full.deliver, full.quit, full.next), (4, false, None));
    assert_eq!(handle_stdin(Some(b""), 4).next, Some(StdinState::Open));
    assert_eq!(handle_stdin(None, 4).next, Some(StdinState::Closed));

    let mut serial = Serial::new();
    assert!(!push_rx(&mut serial, b"a"));
    serial.handle_out(COM1_BASE + REG_IER, &[IER_RDI]);
    assert!(push_rx(&mut serial, b"b"));
    assert!(!push_rx(&mut serial, b""));
}

#[test]
fn the_thread_parks_only_where_it_checks_in() {
    let mut p = ReactorPause::new();
    assert!(!p.check_in());
    p.request();
    assert!(!p.is_paused());
    assert!(p.check_in());
    assert!(!p.may_run());
    assert!(p.request_and_wait());
    p.resume();
    assert!(p.may_run());
    p.request();
    assert!(!p.request_and_wait());
    assert!(!p.check_in());
}

#[test]
fn a_guest_with_what_cannot_be_captured_is_not_cloned_or_moved() {
    assert!(validate_forkable(&parse("--kernel k --disk a --net")).is_ok());
    for extra in [
        "--smp 2",
        "--device d:C:1000:10",
        "--pci-device-sandboxed d:C:3",
        "--native-device n:1000:10",
        "--wasm-pci-device w:3",
        "--i2c-device e:E:50",
        "--gpio-device g:G",
        "--record r",
        "--replay r",
        "--gdb-stub a:1",
        "--trace-file t",
    ] {
        let args = parse(&format!("--kernel k {extra}"));
        assert!(validate_forkable(&args).unwrap_err().starts_with("fork "), "{extra}");
        assert!(validate_migratable(&args).unwrap_err().starts_with("migrate "), "{extra}");
    }
}

#[test]
fn a_clone_has_its_own_socket_and_shares_nothing_else() {
    let args = parse("--kernel k --control-socket a --crash-dir c --restore r --disk d");
    let child = child_args(args, "b".into());
    assert_eq!(child.control_socket.as_deref(), Some("b"));
    assert_eq!(child.restore, None);
    assert_eq!(child.crash_dir.as_deref(), Some("c"));
    assert_eq!(child.disks, ["d"]);
}

#[test]
fn each_side_of_a_fork_knows_what_to_do() {
    assert!(matches!(before_fork(true), ForkStep::Clone));
    assert!(matches!(before_fork(false), ForkStep::Refuse(e) if e.ends_with("refusing to fork")));
    assert!(matches!(after_fork(-1, "EAGAIN"), AfterFork::Parent(Err(e)) if e == "fork() failed: EAGAIN"));
    assert!(matches!(after_fork(42, ""), AfterFork::Parent(Ok(42))));
    assert!(matches!(after_fork(0, ""), AfterFork::Child));
}

#[test]
fn a_failed_transfer_leaves_the_guest_running() {
    assert!(before_transfer(true).is_ok());
    assert!(before_transfer(false).unwrap_err().ends_with("refusing to migrate"));
    let mut slot = new_exit_slot();
    assert_eq!(after_transfer(Err("refused".into()), &mut slot), (true, Err("refused".into())));
    assert!(!slot.is_requested());
    assert_eq!(after_transfer(Ok(()), &mut slot), (false, Ok(())));
    assert_eq!(slot.take().unwrap().unwrap(), GuestExit::MigratedAway);
}

#[test]
fn the_first_complaint_about_a_launch_is_reported() {
    assert_eq!(validate_launch(&parse("--kernel k --mem 64 --smp 2"), 4).unwrap(), (64 << 20, 2));
    let text = |line: &str| validate_launch(&parse(line), 4).unwrap_err().text();
    assert!(text("--kernel k --mem 1 --smp 9 --record r").contains("--mem"));
    assert!(text("--kernel k --smp 9 --record r").contains("--smp 9"));
    assert!(text("--kernel k --smp 2 --restore s --record r").contains("--restore"));
    assert!(text("--kernel k --smp 2 --record r").contains("--record"));
}

#[test]
fn a_guest_comes_from_where_the_command_line_says() {
    assert_eq!(boot_source(&parse("--kernel k")), BootSource::Kernel);
    assert_eq!(boot_source(&parse("--kernel k --migrate-listen a:1")), BootSource::Migration);
    assert_eq!(boot_source(&parse("--kernel k --restore s")), BootSource::Snapshot);
}

#[test]
fn saved_memory_replaces_what_was_there() {
    let mut mem = GuestMemory::from_vec(vec![9; 4]);
    assert!(restore_memory(&mut mem, &[1; 4], 8, 4).is_err());
    assert!(restore_memory(&mut mem, &[1; 5], 4, 4).unwrap_err().text().contains("doesn't fit"));
    assert_eq!(mem.read_vec(0, 4), Some(vec![9; 4]));
    restore_memory(&mut mem, &[1, 2, 3, 4], 4, 4).unwrap();
    assert_eq!(mem.read_vec(0, 4), Some(vec![1, 2, 3, 4]));
}

#[test]
fn saved_devices_are_restored_in_order() {
    let (mut serial, mut pci, mut mmio, mut io) = (Serial::new(), PciBus::new(), MmioBus::new(), IoBus::new());
    let (s, p) = (serial.save_state(), pci.save_state());
    let mut restore = |s: &[u8], p: &[u8], saved: usize| {
        restore_device_state(&mut serial, &mut pci, &mut mmio, &mut io, s, p, saved, 1).0
    };
    assert!(restore(&s, &p, 1).is_ok());
    assert!(restore(&s, &p, 2).unwrap_err().text().contains("2 virtio device(s)"));
    assert!(restore(&[], &p, 1).is_err());
    assert!(restore(&s, &[], 1).is_err());
}

#[test]
fn what_was_recorded_first_is_how_the_run_ended() {
    let mut slot = new_exit_slot();
    assert_eq!(final_outcome(&slot, Ok(GuestExit::TripleFault)).unwrap(), GuestExit::TripleFault);
    request_exit(&mut slot, Err(HyperbugError::Io("gone".into())));
    assert_eq!(final_outcome(&slot, Ok(GuestExit::TripleFault)).unwrap_err().text(), "I/O error: gone");
}

#[test]
fn only_what_is_there_is_watched() {
    let w = Watched {
        suppress_stdin: true,
        taps: 1,
        notifies: 1,
        blks: vec![false, true],
        gpios: vec![true],
        vsock: false,
    };
    assert_eq!(
        w.watch_list(),
        [(Source::Tap(0), 1), (Source::Notify(0), 2), (Source::Blk(1), 4), (Source::Gpio(0), 5)]
    );
    for (source, token) in w.watch_list() {
        assert_eq!(w.dispatch(token), Some(source));
    }
    assert_eq!(w.dispatch(6), None);
    let all = Watched { suppress_stdin: false, taps: 0, notifies: 0, blks: vec![], gpios: vec![], vsock: true };
    assert_eq!(all.watch_list(), [(Source::Stdin, 0), (Source::Vsock, 1)]);
}

#[test]
fn packets_are_drained_until_one_is_not_taken() {
    assert_eq!((handle_tap(true, Some(11)).deliver, handle_tap(true, Some(11)).again), (Some(11), true));
    assert_eq!((handle_tap(true, None).deliver, handle_tap(true, None).again), (None, false));
    assert!(!handle_tap(false, None).again);
    assert_eq!(handle_vsock_bridge(&[Some(1), Some(2), None]), Some(2));
    assert_eq!(handle_vsock_bridge(&[None]), None);
}

#[test]
fn each_virtio_device_has_its_place() {
    let disk = virtio_place(BuildStep::Disk(7)).unwrap();
    assert_eq!((disk.slot, disk.gsi, disk.snapshot), (11, 10, true));
    assert_eq!(virtio_place(BuildStep::Disk(8)), None);
    let vsock = virtio_place(BuildStep::Vsock).unwrap();
    assert_eq!((vsock.slot, vsock.gsi, vsock.snapshot), (23, 15, false));
    assert_eq!(virtio_place(BuildStep::HostBridge), None);
}

#[test]
fn a_virtio_device_is_watched_and_saved() {
    let mut m = Machine::new();
    let mut config = PciConfig::snapshot(&HostBridge);
    config.ioevents = vec![(0, 16, 0), (0, 16, 1)];
    let device = m.add_virtio(4, 10, config, true).unwrap();
    assert_eq!(m.virtio_notifies.len(), 2);
    assert_eq!((m.virtio_notifies[1].entry, m.virtio_notifies[1].datamatch, m.virtio_notifies[1].gsi), (1, 1, 10));
    assert_eq!(m.virtio_snapshots, [device]);
    assert!(m.add_virtio(4, 10, PciConfig::snapshot(&HostBridge), true).is_err());
}
