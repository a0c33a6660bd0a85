use hyperbug::device::Device;
use hyperbug::gpio::FiredLines;
use hyperbug::irq::IrqRegistry;
use hyperbug::logging::Level;
use hyperbug::machine::{reload_plugin, PluginRegistryEntry, PluginSelector, PluginTransportKind};
use hyperbug::device::SharedDevice;
use hyperbug::mem::GuestMemory;
use hyperbug::native_plugin::{check_abi_version, host_read_mem, host_write_mem, native_identity, NativeIdentity};
use hyperbug::pci::PciDevice;
use hyperbug::plugin::{rate_limited_log, PluginIdentity, PluginTransport, ScriptedDevice};
use hyperbug::pydevice::{
    check_api_version, check_gpio_bank, module_name, read_mem, take_read_result, write_mem, PluginAttributes,
};

/// A plugin that answers with a version number, or fails.
struct Scripted {
    version: u8,
    fails: bool,
    ticks: Option<u32>,
}

fn scripted(version: u8) -> Scripted {
    Scripted { version, fails: false, ticks: None }
}

impl PluginTransport for Scripted {
    fn call_read(&mut self, _offset: u64, data: &mut [u8]) -> Result<(), String> {
        data.fill(self.version);
        if self.fails {
            return Err("boom".into());
        }
        Ok(())
    }
    fn call_write(&mut self, _offset: u64, data: &[u8]) -> Result<bool, String> {
        if self.fails {
            return Err("boom".into());
        }
        Ok(data[0] == 1)
    }
    fn call_tick(&mut self) -> Result<(), String> {
        self.ticks = self.ticks.map(|n| n + 1);
        if self.fails {
            return Err("tick boom".into());
        }
        Ok(())
    }
    fn has_tick(&self) -> bool {
        self.ticks.is_some()
    }
    fn call_reset(&mut self) -> Result<(), String> {
        self.ticks = Some(0);
        Ok(())
    }
    fn has_reset(&self) -> bool {
        self.ticks.is_some()
    }
}

fn device(version: u8) -> ScriptedDevice<Scripted> {
    ScriptedDevice::new(scripted(version), PluginIdentity::default(), false)
}

fn entry(is_pci: bool) -> PluginRegistryEntry {
    PluginRegistryEntry {
        selector: if is_pci { PluginSelector::Pci(5) } else { PluginSelector::Mmio(0xd0000000) },
        path: "versioned.py".into(),
        class: Some("Versioned".into()),
        dma_range: None,
        resource_limits: None,
        transport: PluginTransportKind::InProcess,
        is_pci,
        device: SharedDevice { id: 0 },
    }
}

#[test]
fn reload_plugin_picks_up_a_genuinely_edited_plugin_file() {
    let mut dev = device(1);
    let mut val = [0u8; 1];
    dev.read(0, &mut val);
    assert_eq!(val, [1], "the original plugin should report version 1");
    reload_plugin(&entry(false), &mut dev, device(2)).expect("reload should succeed");
    dev.read(0, &mut val);
    assert_eq!(val, [2], "the reloaded plugin should report the edited version");
}

#[test]
fn reload_plugin_refuses_a_pci_identity_change_and_leaves_the_device_untouched() {
    let original = PluginIdentity { vendor_id: 0x1234, device_id: 1, ..Default::default() };
    let mut dev = ScriptedDevice::new(scripted(1), original, false);
    let edited = PluginIdentity { vendor_id: 0x1234, device_id: 2, ..Default::default() };
    let fresh = ScriptedDevice::new(scripted(2), edited, false);
    let err = reload_plugin(&entry(true), &mut dev, fresh).expect_err("a changed PCI identity must refuse the reload");
    assert!(err.contains("identity changed"), "got: {err}");
    assert_eq!(dev.identity(), original);
    let mut val = [0u8; 1];
    dev.read(0, &mut val);
    assert_eq!(val, [1]);
    let same = ScriptedDevice::new(scripted(3), original, true);
    reload_plugin(&entry(true), &mut dev, same).expect("the same identity reloads");
    assert!(dev.take_pending_irq());
}

#[test]
fn a_failing_plugin_reads_as_zeroes_and_asks_for_nothing() {
    let mut dev = device(7);
    assert!(dev.write(0, &[1]));
    assert!(!dev.write(0, &[0]));
    dev.transport.fails = true;
    let mut val = [9u8; 4];
    dev.read(0, &mut val);
    assert_eq!(val, [0; 4]);
    assert!(!dev.write(0, &[1]));
    assert_eq!(dev.take_log(), ["boom (occurrence #1)", "boom (occurrence #1)"]);
    assert!(dev.take_log().is_empty());
    assert_eq!((dev.read_error_count, dev.write_error_count), (1, 1));
}

#[test]
fn tick_is_a_no_op_for_a_plugin_that_does_not_define_it() {
    let mut dev = device(1);
    dev.tick();
    assert_eq!(dev.transport.ticks, None);
    dev.transport.ticks = Some(0);
    dev.tick();
    dev.tick();
    assert_eq!(dev.transport.ticks, Some(2));
    dev.transport.fails = true;
    dev.tick();
    assert_eq!(dev.take_log(), ["tick boom (occurrence #1)"]);
}

#[test]
fn reset_is_a_no_op_for_a_plugin_that_does_not_define_it() {
    let mut dev = device(1);
    dev.reset();
    assert_eq!(dev.transport.ticks, None);
    dev.transport.ticks = Some(5);
    dev.reset();
    assert_eq!(dev.transport.ticks, Some(0));
}

#[test]
fn a_spontaneous_interrupt_is_taken_once() {
    let mut dev = device(1);
    assert!(!dev.take_pending_irq());
    dev.raise_irq();
    assert!(dev.take_pending_irq());
    assert!(!dev.take_pending_irq());
}

#[test]
fn errors_are_logged_five_times_and_then_every_thousandth() {
    let mut count = 0;
    let logged: Vec<u32> = (1..=2000).filter(|_| rate_limited_log(&mut count, "e").is_some()).collect();
    assert_eq!(logged, [1, 2, 3, 4, 5, 1000, 2000]);
    let mut full = u64::MAX;
    assert_eq!(rate_limited_log(&mut full, "e"), None);
    assert_eq!(full, u64::MAX);
}

#[test]
fn pci_identity_is_snapshotted_from_the_plugins_attributes() {
    let id = PluginIdentity::snapshot(&PluginAttributes {
        vendor_id: Ok(0x1234),
        device_id: Ok(0x0001),
        class_code: Ok(0xff_00_00),
        bar_sizes: Ok(vec![0x10]),
        io_bars: None,
        interrupt_line: Some(9),
        msi_capable: Some(true),
    });
    let device = ScriptedDevice::new(scripted(0), id, false);

    assert_eq!(device.vendor_id(), 0x1234);
    assert_eq!(device.device_id(), 0x0001);
    assert_eq!(device.class_code(), 0xff_00_00);
    assert_eq!(device.bar_sizes()[0], 0x10);
    assert_eq!(device.bar_sizes()[1], 0, "unlisted BARs are unimplemented");
    assert!(!device.bar_is_io(0), "no `io_bars` attribute means memory-space");
    assert_eq!(device.interrupt_line(), 9);
    assert!(device.msi_capable());
}

#[test]
fn an_identity_keeps_what_fits_and_what_exists() {
    let id = PluginIdentity::snapshot(&PluginAttributes {
        vendor_id: Ok(0x1_1234),
        device_id: Ok(0x11e9),
        class_code: Ok(0xff_0000),
        bar_sizes: Ok(vec![0x1000, 0x20]),
        io_bars: Some(Ok(vec![1, 9])),
        interrupt_line: Some(5),
        msi_capable: Some(true),
    });
    let dev = ScriptedDevice::new(scripted(0), id, false);
    assert_eq!((dev.vendor_id(), dev.device_id(), dev.class_code()), (0x1234, 0x11e9, 0xff_0000));
    assert_eq!(dev.bar_sizes(), [0x1000, 0x20, 0, 0, 0, 0]);
    assert!(!dev.bar_is_io(0) && dev.bar_is_io(1) && !dev.bar_is_io(9));
    assert_eq!((dev.interrupt_line(), dev.msi_capable()), (5, true));
    assert!(id.same(&id) && !id.same(&PluginIdentity::default()));
}

#[test]
fn what_is_wrong_with_a_plugins_attributes_is_logged_in_order() {
    let mut a = PluginAttributes {
        vendor_id: Ok(1),
        device_id: Err("no device".to_string()),
        class_code: Err("no class".to_string()),
        bar_sizes: Ok(vec![0x10; 7]),
        io_bars: Some(Ok(vec![1, 6, 0, 9])),
        interrupt_line: None,
        msi_capable: None,
    };
    let line = |level, text: &str| (level, text.to_string());
    assert_eq!(
        PluginIdentity::snapshot_log(&a),
        [
            line(
                Level::Warn,
                "python PCI device's `bar_sizes` has 7 entries, only 6 BARs exist; truncating"
            ),
            line(Level::Warn, "python PCI device's `io_bars` names BAR 6, which doesn't exist"),
            line(Level::Warn, "python PCI device's `io_bars` names BAR 9, which doesn't exist"),
            line(Level::Error, "python PCI device missing/invalid `device_id`: no device"),
            line(Level::Error, "python PCI device missing/invalid `class_code`: no class"),
        ]
    );

    a.vendor_id = Err("no vendor".to_string());
    a.device_id = Ok(2);
    a.class_code = Ok(3);
    a.bar_sizes = Err("no sizes".to_string());
    a.io_bars = Some(Err("not a list".to_string()));
    assert_eq!(
        PluginIdentity::snapshot_log(&a),
        [
            line(Level::Error, "python PCI device missing/invalid `bar_sizes`: no sizes"),
            line(Level::Error, "python PCI device's `io_bars` must be a list of ints: not a list"),
            line(Level::Error, "python PCI device missing/invalid `vendor_id`: no vendor"),
        ]
    );
    let id = PluginIdentity::snapshot(&a);
    assert_eq!((id.vendor_id, id.device_id, id.bar_sizes, id.bar_is_io), (0, 2, [0; 6], [false; 6]));

    a.vendor_id = Ok(1);
    a.bar_sizes = Ok(vec![0x10; 6]);
    a.io_bars = None;
    assert_eq!(PluginIdentity::snapshot_log(&a), []);
}

#[test]
fn a_mismatched_api_version_is_refused_at_load() {
    let msg = check_api_version(Some(999999), "old.py").unwrap_err();
    assert!(msg.contains("hyperbug_api_version=999999"), "got: {msg}");
    assert!(msg.contains("needs a newer hyperbug"), "got: {msg}");
}

#[test]
fn a_too_old_api_version_is_refused_at_load() {
    let msg = check_api_version(Some(0), "ancient.py").unwrap_err();
    assert!(msg.contains("hyperbug_api_version=0"), "got: {msg}");
    assert!(msg.contains("needs updating"), "got: {msg}");
}

#[test]
fn a_plugin_with_no_declared_api_version_loads_fine() {
    assert_eq!(check_api_version(None, "new.py"), Ok(()));
    assert_eq!(check_api_version(Some(1), "new.py"), Ok(()));
}

#[test]
fn dma_outside_guest_ram_raises_rather_than_reading_garbage() {
    let mut mem = GuestMemory::new(4096).unwrap();
    assert!(read_mem(&mem, None, 4090, 16).unwrap_err().contains("out of bounds"));
    assert!(write_mem(&mut mem, None, 4090, &[0; 16]).unwrap_err().contains("out of bounds"));
    assert!(read_mem(&mem, None, u64::MAX, 16).is_err());
}

#[test]
fn a_declared_dma_range_confines_read_mem_and_write_mem() {
    let mut mem = GuestMemory::new(16384).unwrap();
    let range = Some((0x1000, 0x1000));
    assert!(write_mem(&mut mem, range, 0x1ff0, &[7; 16]).is_ok());
    assert_eq!(read_mem(&mem, range, 0x1fff, 1), Ok(vec![7]));
    assert!(read_mem(&mem, range, 0x0f00, 16).unwrap_err().contains("DMA range"));
    assert!(write_mem(&mut mem, range, 0x1ff8, &[0; 16]).unwrap_err().contains("DMA range"));
    assert_eq!(host_read_mem(&mem, range, 0x1fff, 1), Some(vec![7]));
    assert_eq!(host_read_mem(&mem, range, 0x0fff, 1), None);
    assert!(!host_write_mem(&mut mem, range, 0x2000, &[1]));
    assert!(host_write_mem(&mut mem, None, 0x2000, &[1]));
}

#[test]
fn a_read_of_the_wrong_length_is_copied_as_far_as_it_goes() {
    let mut data = [9u8; 3];
    assert!(take_read_result(&[1, 2], &mut data).is_err());
    assert_eq!(data, [1, 2, 9]);
    assert!(take_read_result(&[4, 5, 6], &mut data).is_ok());
    assert_eq!(data, [4, 5, 6]);
}

#[test]
fn modules_and_banks_are_checked() {
    assert_eq!(module_name("hyperbug_plugin", 12), "hyperbug_plugin_12");
    assert_eq!(check_gpio_bank("g.py", 0, 0).unwrap_err(), "g.py's ngpio can't be zero");
    assert!(check_gpio_bank("g.py", 2, 3).is_err());
    assert!(check_gpio_bank("g.py", 2, 2).is_ok());
    assert!(check_gpio_bank("g.py", 2, 0).is_ok());
}

#[test]
fn a_mismatched_abi_version_is_refused_at_load() {
    let msg = check_abi_version("p.so", 99).unwrap_err();
    assert!(msg.contains("hyperbug_plugin_abi_version=99"), "got: {msg}");
    assert!(check_abi_version("p.so", 1).is_ok());
}

#[test]
fn a_native_identity_counts_only_on_the_pci_bus() {
    let n = NativeIdentity {
        vendor_id: 1,
        device_id: 2,
        class_code: 3,
        bar_sizes: [16, 0, 0, 0, 0, 0],
        io_bars_mask: 1,
        interrupt_line: 4,
        msi_capable: 1,
    };
    assert_eq!(native_identity(true, Some(n)).bar_is_io[0], true);
    assert_eq!(native_identity(true, Some(n)).device_id, 2);
    assert_eq!(native_identity(false, Some(n)), PluginIdentity::default());
    assert_eq!(native_identity(true, None), PluginIdentity::default());
}

#[test]
fn fired_lines_are_reported_once_in_order() {
    let mut fired = FiredLines::new();
    fired.raise_irq(3);
    fired.raise_irq(1);
    assert_eq!(fired.take(), [3, 1]);
    assert!(fired.take().is_empty());
}

#[test]
fn a_line_is_made_once_and_shared() {
    let mut irqs = IrqRegistry::new();
    assert!(irqs.is_missing(10));
    irqs.register(10, "first");
    irqs.register(10, "second");
    assert!(!irqs.is_missing(10));
    assert_eq!(irqs.line(10), Some(&"first"));
    assert_eq!(irqs.line(11), None);
}
