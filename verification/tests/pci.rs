use hyperbug::device::{Device, IoBus, MmioBus, SharedDevice};
use hyperbug::pci::{
    HostBridge, IoEventAction, PciBus, PciDevice, BAR_OFFSET, CAP_ID_MSI, CONFIG_ADDRESS, CONFIG_DATA, MSI_CAP_ADDRESS,
    MSI_CAP_DATA, MSI_CAP_OFFSET, MSI_CTRL_BYTE, MSI_CTRL_ENABLE, NUM_BARS, REG_CAPABILITIES_PTR, REG_COMMAND_STATUS,
    STATUS_CAP_LIST,
};

const DEV: SharedDevice = SharedDevice { id: 0 };

struct DummyMsiDevice {
    bar0: u32,
}

impl PciDevice for DummyMsiDevice {
    fn vendor_id(&self) -> u16 {
        0x1234
    }
    fn device_id(&self) -> u16 {
        0xbeef
    }
    fn class_code(&self) -> u32 {
        0xff_00_00
    }
    fn bar_sizes(&self) -> [u32; NUM_BARS] {
        [self.bar0, 0, 0, 0, 0, 0]
    }
    fn interrupt_line(&self) -> u8 {
        9
    }
    fn msi_capable(&self) -> bool {
        true
    }
}

impl Device for DummyMsiDevice {
    fn read(&mut self, _offset: u64, data: &mut [u8]) {
        data.fill(0x5a);
    }
    fn write(&mut self, _offset: u64, _data: &[u8]) -> bool {
        false
    }
}

struct Harness {
    bus: PciBus,
    mmio: MmioBus,
    io: IoBus,
}

impl Harness {
    fn new(devfn: u8, bar0: u32) -> (Self, Vec<DummyMsiDevice>) {
        let dev = DummyMsiDevice { bar0 };
        let mut bus = PciBus::new();
        bus.register(devfn, &dev, DEV).unwrap();
        (Self { bus, mmio: MmioBus::new(), io: IoBus::new() }, vec![dev])
    }

    /// Drives the *actual* `io_out`/`io_in` port interface a real guest
    /// uses (CONFIG_ADDRESS latch, then CONFIG_DATA), not the private
    /// `config_read`/`config_write` directly.
    fn select(&mut self, devfn: u8, reg: u16) {
        let address = 0x8000_0000 | (u32::from(devfn) << 8) | u32::from(reg);
        self.bus.io_out(CONFIG_ADDRESS, &address.to_le_bytes(), &mut self.mmio, &mut self.io);
    }

    fn read_dword(&mut self) -> u32 {
        let mut data = [0u8; 4];
        self.bus.io_in(CONFIG_DATA, &mut data);
        u32::from_le_bytes(data)
    }

    fn write_at(&mut self, byte_offset: u16, data: &[u8]) {
        self.bus.io_out(CONFIG_DATA + byte_offset, data, &mut self.mmio, &mut self.io);
    }
}

#[test]
fn a_non_msi_capable_device_reports_no_capabilities() {
    let mut bus = PciBus::new();
    bus.register(0, &HostBridge, DEV).unwrap();
    let mut h = Harness { bus, mmio: MmioBus::new(), io: IoBus::new() };

    h.select(0, REG_COMMAND_STATUS);
    assert_eq!(h.read_dword() >> 16, 0, "no capabilities-list bit without msi_capable");

    h.select(0, REG_CAPABILITIES_PTR);
    assert_eq!(h.read_dword(), 0, "capabilities pointer must be 0");
}

#[test]
fn registering_two_devices_at_one_slot_is_an_error_not_a_panic() {
    let mut bus = PciBus::new();
    assert!(bus.register(0x20, &HostBridge, DEV).is_ok());
    assert!(bus.register(0x20, &HostBridge, DEV).is_err());
}

#[test]
fn msi_capable_device_advertises_the_capability_and_status_bit() {
    let (mut h, _dev) = Harness::new(0x08, 0);

    h.select(0x08, REG_COMMAND_STATUS);
    assert_eq!(h.read_dword() >> 16, u32::from(STATUS_CAP_LIST));

    h.select(0x08, REG_CAPABILITIES_PTR);
    assert_eq!(h.read_dword(), u32::from(MSI_CAP_OFFSET));

    h.select(0x08, MSI_CAP_OFFSET);
    let cap_header = h.read_dword();
    assert_eq!(cap_header & 0xff, u32::from(CAP_ID_MSI), "capability ID must be MSI (0x05)");
    assert_eq!((cap_header >> 16) & 1, 0, "MSI must start disabled");
}

#[test]
fn enabling_msi_and_programming_address_data_is_reflected_in_msi_state() {
    let devfn = 0x10;
    let (mut h, _dev) = Harness::new(devfn, 0);
    assert_eq!(h.bus.msi_state(devfn), None, "MSI starts disabled");

    h.select(devfn, MSI_CAP_ADDRESS);
    h.write_at(0, &0xfee0_1234u32.to_le_bytes());

    h.select(devfn, MSI_CAP_DATA);
    h.write_at(0, &0x0042u16.to_le_bytes());

    // The enable bit's own sub-dword write (byte_offset == 2 within the
    // MSI_CAP_OFFSET dword).
    h.select(devfn, MSI_CAP_OFFSET);
    h.write_at(MSI_CTRL_BYTE, &MSI_CTRL_ENABLE.to_le_bytes());

    assert_eq!(h.bus.msi_state(devfn), Some((0xfee0_1234, 0x0042)));
}

#[test]
fn the_standard_bar_sizing_sequence_reports_the_size_and_maps_the_final_address() {
    let devfn = 0x18;
    let (mut h, mut dev) = Harness::new(devfn, 0x1000);
    h.select(devfn, BAR_OFFSET);

    // 1. write all-1s, 2. read back the size mask...
    h.write_at(0, &0xffff_ffffu32.to_le_bytes());
    assert_eq!(h.read_dword(), 0xffff_f000, "size mask for a 4 KiB memory BAR");

    // 3. ...restore the original (unassigned) value: nothing should be
    // mapped at guest-physical 0 as a result.
    h.write_at(0, &0u32.to_le_bytes());
    let mut probe = [0u8; 1];
    assert!(!h.mmio.read(&mut dev, 0, &mut probe), "restoring a BAR to 0 must map nothing");

    // 4. the real assignment maps it for real.
    h.write_at(0, &0xd000_0000u32.to_le_bytes());
    assert!(h.mmio.read(&mut dev, 0xd000_0000, &mut probe));
    assert_eq!(probe[0], 0x5a);
}

#[test]
fn reprogramming_a_bar_back_to_unassigned_removes_the_stale_mapping() {
    let devfn = 0x18;
    let (mut h, mut dev) = Harness::new(devfn, 0x1000);
    h.select(devfn, BAR_OFFSET);

    h.write_at(0, &0xd000_0000u32.to_le_bytes());
    let mut probe = [0u8; 1];
    assert!(h.mmio.read(&mut dev, 0xd000_0000, &mut probe));

    h.write_at(0, &0u32.to_le_bytes());
    assert!(
        !h.mmio.read(&mut dev, 0xd000_0000, &mut probe),
        "a device whose BAR the guest reclaimed must stop answering there"
    );
}

#[test]
fn snapshot_round_trip_restores_bar_mapping_command_and_msi_state() {
    let devfn = 0x20;
    let (mut h, mut dev) = Harness::new(devfn, 0x1000);
    h.select(devfn, BAR_OFFSET);
    h.write_at(0, &0xd000_0000u32.to_le_bytes());
    h.select(devfn, REG_COMMAND_STATUS);
    h.write_at(0, &0x0007u16.to_le_bytes());
    h.select(devfn, MSI_CAP_ADDRESS);
    h.write_at(0, &0xfee0_1234u32.to_le_bytes());
    h.select(devfn, MSI_CAP_DATA);
    h.write_at(0, &0x0042u16.to_le_bytes());
    h.select(devfn, MSI_CAP_OFFSET);
    h.write_at(MSI_CTRL_BYTE, &MSI_CTRL_ENABLE.to_le_bytes());

    let blob = h.bus.save_state();

    // Restoring into a *fresh* bus (same devices registered, as a real
    // relaunch from `Args` would do) and fresh buses (nothing mapped
    // yet, as a restore's freshly-built `Machine` would have) — the
    // whole point is that this doesn't depend on guest PCI enumeration
    // ever running.
    let mut fresh_bus = PciBus::new();
    fresh_bus.register(devfn, &dev[0], DEV).unwrap();
    let mut fresh_mmio = MmioBus::new();
    let mut fresh_io = IoBus::new();
    fresh_bus.restore_state(&blob, &mut fresh_mmio, &mut fresh_io).0.unwrap();

    let mut probe = [0u8; 1];
    assert!(fresh_mmio.read(&mut dev, 0xd000_0000, &mut probe), "BAR mapping must be restored");
    assert_eq!(probe[0], 0x5a);
    assert_eq!(fresh_bus.msi_state(devfn), Some((0xfee0_1234, 0x0042)), "MSI state must be restored");

    let mut h2 = Harness { bus: fresh_bus, mmio: fresh_mmio, io: fresh_io };
    h2.select(devfn, REG_COMMAND_STATUS);
    assert_eq!(h2.read_dword() & 0xffff, 0x0007, "command register must be restored");
}

#[test]
fn restoring_a_devfn_the_current_launch_never_registered_is_an_error() {
    let mut bus = PciBus::new();
    let mut mmio = MmioBus::new();
    let mut io = IoBus::new();
    // A single-slot save whose one entry (devfn 0x40) has no BARs/
    // MSI set — restoring it against an empty bus must fail cleanly,
    // not panic or silently do nothing.
    let mut blob = Vec::new();
    blob.extend_from_slice(&1u32.to_le_bytes()); // one slot
    blob.push(0x40); // devfn
    blob.extend(std::iter::repeat_n(0u8, NUM_BARS)); // no BAR present, for every BAR
    blob.extend_from_slice(&0u16.to_le_bytes()); // command
    blob.push(0); // msi disabled
    blob.extend_from_slice(&0u32.to_le_bytes()); // msi address
    blob.extend_from_slice(&0u16.to_le_bytes()); // msi data
    assert!(bus.restore_state(&blob, &mut mmio, &mut io).0.is_err());
}

#[test]
fn state_saves_the_same_again_and_is_refused_when_cut_short_or_of_another_device() {
    let (mut h, dev) = Harness::new(0x20, 0x1000);
    h.bus.register(0x28, &DummyMsiDevice { bar0: 0x100 }, SharedDevice { id: 1 }).unwrap();
    for (devfn, base) in [(0x20, 0xd000_0000u32), (0x28, 0xd100_0000)] {
        h.select(devfn, BAR_OFFSET);
        h.write_at(0, &base.to_le_bytes());
        h.select(devfn, REG_COMMAND_STATUS);
        h.write_at(0, &[devfn, 1]);
    }
    h.select(0x28, MSI_CAP_ADDRESS);
    h.write_at(0, &0xfee0_1234u32.to_le_bytes());
    h.select(0x28, MSI_CAP_OFFSET);
    h.write_at(MSI_CTRL_BYTE, &MSI_CTRL_ENABLE.to_le_bytes());
    let blob = h.bus.save_state();

    let fresh = || {
        let (mut f, _) = Harness::new(0x20, 0x1000);
        f.bus.register(0x28, &DummyMsiDevice { bar0: 0x100 }, SharedDevice { id: 1 }).unwrap();
        f
    };
    let mut f = fresh();
    assert!(f.bus.restore_state(&blob, &mut f.mmio, &mut f.io).0.is_ok());
    assert_eq!(f.bus.save_state(), blob);
    for devfn in 0..=u8::MAX {
        assert_eq!(f.bus.msi_state(devfn), h.bus.msi_state(devfn));
    }
    assert_eq!(f.bus.msi_state(0x28), Some((0xfee0_1234, 0)));

    for n in 0..blob.len() {
        let mut f = fresh();
        let (r, _) = f.bus.restore_state(&blob[..n], &mut f.mmio, &mut f.io);
        assert_eq!(r.unwrap_err(), "saved state is truncated", "of the first {n} bytes");
    }

    let mut lone = PciBus::new();
    lone.register(0x20, &dev[0], DEV).unwrap();
    let (r, _) = lone.restore_state(&blob, &mut MmioBus::new(), &mut IoBus::new());
    assert_eq!(
        r.unwrap_err(),
        "snapshot references PCI devfn 0x28, which this launch's configuration doesn't have — device wiring must match exactly"
    );
}

/// Sequences of selections of any device and any register, of writes of any
/// few bytes anywhere in the data window, and of reads.
#[test]
fn arbitrary_config_space_traffic_never_panics() {
    let mut x: u64 = 0x2545_f491_4f6c_dd1d;
    let mut next = move || {
        x ^= x << 13;
        x ^= x >> 7;
        x ^= x << 17;
        x
    };
    for _ in 0..512 {
        let (mut h, _dev) = Harness::new(0x08, 0x1000);
        for _ in 0..next() % 64 {
            match next() % 4 {
                0 => h.select(next() as u8, next() as u16 & 0xfc),
                1 => h.select(0x08, next() as u16 & 0xfc),
                2 => {
                    let len = next() as usize % 8;
                    let data: Vec<u8> = (0..len).map(|_| next() as u8).collect();
                    h.write_at(next() as u16 % 4, &data);
                },
                _ => {
                    let _ = h.read_dword();
                },
            }
        }
    }
}

struct Notifying;

impl PciDevice for Notifying {
    fn vendor_id(&self) -> u16 {
        0x1af4
    }
    fn device_id(&self) -> u16 {
        0x1001
    }
    fn class_code(&self) -> u32 {
        0x01_00_00
    }
    fn bar_sizes(&self) -> [u32; NUM_BARS] {
        [0x40, 0, 0, 0, 0, 0]
    }
    fn bar_is_io(&self, index: usize) -> bool {
        index == 0
    }
    fn ioevent_entries(&self) -> Vec<(u8, u64, u16)> {
        vec![(0, 0x10, 1)]
    }
}

#[test]
fn a_bar_with_events_is_bound_moved_and_unbound() {
    let (mut bus, mut mmio, mut io) = (PciBus::with_vm(), MmioBus::new(), IoBus::new());
    bus.register(0x08, &Notifying, DEV).unwrap();
    let address = 0x8000_0000u32 | 0x08 << 8 | u32::from(BAR_OFFSET);
    assert!(bus.io_out(CONFIG_ADDRESS, &address.to_le_bytes(), &mut mmio, &mut io).is_empty());

    let bound = bus.io_out(CONFIG_DATA, &0xc000u32.to_le_bytes(), &mut mmio, &mut io);
    let at = |bind: bool, addr: u64| IoEventAction { devfn: 0x08, entry: 0, bind, is_io: true, addr, datamatch: 1 };
    assert_eq!(bound, [at(true, 0xc010)]);
    bus.ioevent_bound(bound[0]);

    let moved = bus.io_out(CONFIG_DATA, &0xd000u32.to_le_bytes(), &mut mmio, &mut io);
    assert_eq!(moved, [at(false, 0xc010), at(true, 0xd010)]);
    bus.ioevent_bound(moved[1]);

    let gone = bus.io_out(CONFIG_DATA, &0u32.to_le_bytes(), &mut mmio, &mut io);
    assert_eq!(gone, [at(false, 0xd010)]);
}

#[test]
fn an_event_that_could_not_be_bound_is_not_undone() {
    let (mut bus, mut mmio, mut io) = (PciBus::with_vm(), MmioBus::new(), IoBus::new());
    bus.register(0x08, &Notifying, DEV).unwrap();
    let address = 0x8000_0000u32 | 0x08 << 8 | u32::from(BAR_OFFSET);
    bus.io_out(CONFIG_ADDRESS, &address.to_le_bytes(), &mut mmio, &mut io);
    assert_eq!(bus.io_out(CONFIG_DATA, &0xc000u32.to_le_bytes(), &mut mmio, &mut io).len(), 1);
    assert!(bus.io_out(CONFIG_DATA, &0u32.to_le_bytes(), &mut mmio, &mut io).is_empty());
}

#[test]
fn sizing_leaves_the_base_in_place() {
    let (mut h, mut dev) = Harness::new(0x18, 0x1000);
    h.select(0x18, BAR_OFFSET);
    h.write_at(0, &0xd000_0000u32.to_le_bytes());
    h.write_at(0, &0xffff_ffffu32.to_le_bytes());
    assert_eq!(h.read_dword(), 0xffff_f000);
    let mut probe = [0u8; 1];
    assert!(h.mmio.read(&mut dev, 0xd000_0fff, &mut probe));
    assert_eq!(h.read_dword(), 0xd000_0000);
}

#[test]
fn an_absent_device_reads_as_ones() {
    let (mut h, _dev) = Harness::new(0x18, 0x1000);
    h.select(0x20, 0);
    assert_eq!(h.read_dword(), 0xffff_ffff);
    h.select(0x18, 0);
    assert_eq!(h.read_dword(), 0xbeef_1234);
    assert!(PciBus::owns_port(0xcf8) && PciBus::owns_port(0xcff) && !PciBus::owns_port(0xcf9));
}

#[test]
fn saved_state_that_ends_early_is_an_error() {
    let (mut h, _dev) = Harness::new(0x18, 0x1000);
    let blob = h.bus.save_state();
    let (r, _) = h.bus.restore_state(&blob[..blob.len() - 1], &mut h.mmio, &mut h.io);
    assert!(r.is_err());
}
