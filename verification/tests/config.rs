use hyperbug::config::{
    GpioDeviceSpec, I2cDeviceSpec, NativeDeviceSpec, NativePciDeviceSpec, ResourceLimits, DEFAULT_CMDLINE,
    DEFAULT_MEM_MB,
};
use hyperbug::{Args, DeviceSpec, PciDeviceSpec, USAGE};

fn argv(s: &str) -> Vec<String> {
    s.split_whitespace().map(str::to_string).collect()
}

#[test]
fn a_minimal_command_line_uses_every_default() {
    let args = Args::parse(argv("--kernel vmlinuz")).unwrap();
    assert_eq!(args.kernel, "vmlinuz");
    assert_eq!(args.mem_mb, DEFAULT_MEM_MB);
    assert_eq!(args.cmdline, DEFAULT_CMDLINE);
    assert_eq!(args.smp, 1);
    assert!(!args.net);
    assert!(args.disks.is_empty());
}

#[test]
fn repeated_flags_accumulate_in_order() {
    let args = Args::parse(argv("--kernel k --disk a --disk b")).unwrap();
    assert_eq!(args.disks, ["a", "b"]);
}

#[test]
fn sandboxed_device_specs_are_kept_separate_from_in_process_ones() {
    let args = Args::parse(argv(
        "--kernel k --device d.py:A:0x1000:0x10 \
         --device-sandboxed s.py:B:0x2000:0x10 \
         --pci-device-sandboxed s.py:C:3",
    ))
    .unwrap();
    assert_eq!(args.devices.len(), 1);
    assert_eq!(args.devices[0].class, "A");
    assert_eq!(args.sandboxed_devices.len(), 1);
    assert_eq!(args.sandboxed_devices[0].class, "B");
    assert_eq!(args.sandboxed_pci_devices.len(), 1);
    assert_eq!(args.sandboxed_pci_devices[0].class, "C");
}

#[test]
fn missing_values_and_unknown_flags_are_errors_not_silent_defaults() {
    assert!(Args::parse(argv("--kernel")).is_err(), "flag with no value");
    assert!(Args::parse(argv("--disk a")).is_err(), "no --kernel at all");
    assert!(Args::parse(argv("--kernel k --nope")).is_err(), "unknown flag");
    assert!(Args::parse(argv("--kernel k --mem banana")).is_err());
    assert!(Args::parse(argv("--kernel k --smp banana")).is_err());
}

#[test]
fn device_specs_parse_hex_with_or_without_a_prefix() {
    let spec = DeviceSpec::parse("d.py:Cls:0xd0000000:1000").unwrap();
    assert_eq!(spec.path, "d.py");
    assert_eq!(spec.class, "Cls");
    assert_eq!(spec.base, 0xd000_0000);
    assert_eq!(spec.size, 0x1000);
}

#[test]
fn malformed_device_specs_are_rejected() {
    assert!(DeviceSpec::parse("d.py:Cls:0x1000").is_err(), "too few fields");
    assert!(DeviceSpec::parse("d.py:Cls:nothex:1000").is_err());
    assert!(DeviceSpec::parse("d.py:Cls:0x1000:0").is_err(), "zero size maps nothing");
    assert!(
        DeviceSpec::parse("d.py:Cls:ffffffffffffffff:1000").is_err(),
        "a range that wraps the address space"
    );
}

#[test]
fn pci_device_specs_bound_the_device_number() {
    assert_eq!(PciDeviceSpec::parse("d.py:Cls:3").unwrap().devfn(), 24);
    assert!(PciDeviceSpec::parse("d.py:Cls:32").is_err());
    assert!(PciDeviceSpec::parse("d.py:Cls:-1").is_err());
    assert!(PciDeviceSpec::parse("d.py:Cls").is_err());
}

#[test]
fn an_optional_dma_range_is_parsed_for_both_device_and_pci_device_specs() {
    let spec = DeviceSpec::parse("d.py:Cls:0x1000:0x100:0x2000:0x1000").unwrap();
    assert_eq!(spec.dma_range, Some((0x2000, 0x1000)));
    assert_eq!(DeviceSpec::parse("d.py:Cls:0x1000:0x100").unwrap().dma_range, None, "no trailing fields");

    let spec = PciDeviceSpec::parse("d.py:Cls:3:0x2000:0x1000").unwrap();
    assert_eq!(spec.dma_range, Some((0x2000, 0x1000)));
    assert_eq!(PciDeviceSpec::parse("d.py:Cls:3").unwrap().dma_range, None, "no trailing fields");
}

#[test]
fn a_malformed_dma_range_is_rejected_not_silently_dropped() {
    assert!(DeviceSpec::parse("d.py:Cls:0x1000:0x100:onlyonefield").is_err());
    assert!(DeviceSpec::parse("d.py:Cls:0x1000:0x100:notahex:0x1000").is_err());
    assert!(DeviceSpec::parse("d.py:Cls:0x1000:0x100:0x2000:0").is_err(), "zero-sized DMA range");
    assert!(
        DeviceSpec::parse("d.py:Cls:0x1000:0x100:ffffffffffffffff:0x1000").is_err(),
        "a DMA range that wraps the address space"
    );
    assert!(PciDeviceSpec::parse("d.py:Cls:3:onlyonefield").is_err());
}

#[test]
fn resource_limits_are_parsed_with_or_without_a_dma_range() {
    // mem=/cpu= alone, no DMA range at all.
    let spec = DeviceSpec::parse("d.py:Cls:0x1000:0x100:mem=128").unwrap();
    assert_eq!(spec.dma_range, None);
    assert_eq!(spec.resource_limits, Some(ResourceLimits { mem_limit_mb: Some(128), cpu_quota_percent: None }));

    let spec = DeviceSpec::parse("d.py:Cls:0x1000:0x100:cpu=50").unwrap();
    assert_eq!(spec.resource_limits.unwrap().cpu_quota_percent, Some(50));

    // Both a DMA range and resource limits together.
    let spec = DeviceSpec::parse("d.py:Cls:0x1000:0x100:0x2000:0x1000:mem=64:cpu=25").unwrap();
    assert_eq!(spec.dma_range, Some((0x2000, 0x1000)));
    assert_eq!(
        spec.resource_limits,
        Some(ResourceLimits { mem_limit_mb: Some(64), cpu_quota_percent: Some(25) })
    );

    // No trailing fields at all: neither is set (not `Some(default)`).
    assert_eq!(DeviceSpec::parse("d.py:Cls:0x1000:0x100").unwrap().resource_limits, None);

    let spec = PciDeviceSpec::parse("d.py:Cls:3:mem=256").unwrap();
    assert_eq!(spec.resource_limits.unwrap().mem_limit_mb, Some(256));
}

#[test]
fn malformed_resource_limits_are_rejected() {
    assert!(DeviceSpec::parse("d.py:Cls:0x1000:0x100:mem=0").is_err(), "zero mem limit");
    assert!(DeviceSpec::parse("d.py:Cls:0x1000:0x100:mem=notanumber").is_err());
    assert!(DeviceSpec::parse("d.py:Cls:0x1000:0x100:cpu=0").is_err(), "zero cpu quota");
    assert!(DeviceSpec::parse("d.py:Cls:0x1000:0x100:cpu=20000").is_err(), "cpu quota out of range");
    assert!(DeviceSpec::parse("d.py:Cls:0x1000:0x100:bogus=1").is_err(), "unrecognized key");
    assert!(DeviceSpec::parse("d.py:Cls:0x1000:0x100:notkeyvalue").is_err(), "not a key=value token at all");
}

#[test]
fn resource_limits_are_rejected_on_non_sandboxed_device_flags() {
    let Err(err) = Args::parse(argv("--kernel k --device d.py:Cls:0x1000:0x100:mem=128")) else {
        panic!("expected a config error");
    };
    assert!(err.contains("--device-sandboxed"), "got: {err}");

    let Err(err) = Args::parse(argv("--kernel k --pci-device d.py:Cls:3:cpu=50")) else {
        panic!("expected a config error");
    };
    assert!(err.contains("--pci-device-sandboxed"), "got: {err}");

    // The same specs are fine on the sandboxed flags.
    assert!(Args::parse(argv("--kernel k --device-sandboxed d.py:Cls:0x1000:0x100:mem=128")).is_ok());
    assert!(Args::parse(argv("--kernel k --pci-device-sandboxed d.py:Cls:3:cpu=50")).is_ok());
}

fn error_of(line: &str) -> String {
    match Args::parse(argv(line)) {
        Ok(_) => panic!("expected an error"),
        Err(e) => e,
    }
}

#[test]
fn every_flag_sets_its_own_field() {
    let args = Args::parse(argv(
        "--kernel k --initrd i --mem 64 --cmdline quiet --smp 4 --net --rng-modern --control-socket c \
         --restore r --migrate-listen m --trace-file t --crash-dir d --gdb-stub g --record rec --replay rep \
         --uart2-log u2 --uart3-log u3 --uart4-log u4 --vsock-uds v",
    ))
    .unwrap();
    assert_eq!(args.initrd.as_deref(), Some("i"));
    assert_eq!(args.mem_mb, 64);
    assert_eq!(args.cmdline, "quiet");
    assert_eq!(args.smp, 4);
    assert!(args.net);
    assert!(args.rng_modern);
    assert_eq!(args.control_socket.as_deref(), Some("c"));
    assert_eq!(args.restore.as_deref(), Some("r"));
    assert_eq!(args.migrate_listen.as_deref(), Some("m"));
    assert_eq!(args.trace_file.as_deref(), Some("t"));
    assert_eq!(args.crash_dir.as_deref(), Some("d"));
    assert_eq!(args.gdb_stub.as_deref(), Some("g"));
    assert_eq!(args.record.as_deref(), Some("rec"));
    assert_eq!(args.replay.as_deref(), Some("rep"));
    assert_eq!(args.uart2_log.as_deref(), Some("u2"));
    assert_eq!(args.uart3_log.as_deref(), Some("u3"));
    assert_eq!(args.uart4_log.as_deref(), Some("u4"));
    assert_eq!(args.vsock_uds.as_deref(), Some("v"));
}

#[test]
fn the_other_plugin_flags_fill_their_own_lists() {
    let args = Args::parse(argv(
        "--kernel k --native-device n.so:0x1000:0x10 --native-pci-device p.so:4 --wasm-device w:2000:20 \
         --wasm-pci-device q:5:0x100:0x10 --i2c-device e.py:Eeprom:0x50 --gpio-device g.py:Bank",
    ))
    .unwrap();
    assert_eq!(args.native_devices[0].base, 0x1000);
    assert_eq!(args.native_pci_devices[0].devfn(), 32);
    assert_eq!(args.wasm_devices[0].size, 0x20);
    assert_eq!(args.wasm_pci_devices[0].dma_range, Some((0x100, 0x10)));
    assert_eq!(args.i2c_devices[0].addr, 0x50);
    assert_eq!(args.gpio_devices[0].class, "Bank");
}

#[test]
fn neighbouring_flags_may_be_swapped() {
    let shown = |line: &str| {
        let a = Args::parse(argv(line)).unwrap();
        (a.kernel, a.disks, a.net, a.mem_mb)
    };
    assert_eq!(
        shown("--kernel k --disk a --net --disk b --mem 64"),
        shown("--disk a --kernel k --disk b --net --mem 64")
    );
    assert_ne!(shown("--kernel k --disk a --disk b"), shown("--kernel k --disk b --disk a"));
    assert!(Args::parse(argv("--kernel k --mem x --smp 2")).is_err());
    assert!(Args::parse(argv("--kernel k --smp 2 --mem x")).is_err());
}

#[test]
fn the_usage_names_the_kernel_flag() {
    assert!(USAGE.contains("--kernel"));
}

#[test]
fn later_specs_of_each_kind_are_checked_too() {
    assert!(NativeDeviceSpec::parse("--native-device", "n.so:0x1000").is_err());
    assert!(NativeDeviceSpec::parse("--native-device", "n.so:0x1000:0").is_err());
    assert_eq!(NativePciDeviceSpec::parse("--native-pci-device", "n.so:31").unwrap().devfn(), 248);
    assert!(NativePciDeviceSpec::parse("--native-pci-device", "n.so:32").is_err());
    assert!(I2cDeviceSpec::parse("e.py:Eeprom:0x80").is_err());
    assert_eq!(I2cDeviceSpec::parse("e.py:Eeprom:0x7f").unwrap().addr, 0x7f);
    assert!(GpioDeviceSpec::parse("g.py").is_err());
}

#[test]
fn a_later_flag_overrides_an_earlier_one() {
    let args = Args::parse(argv("--kernel a --mem 64 --kernel b --mem 128")).unwrap();
    assert_eq!(args.kernel, "b");
    assert_eq!(args.mem_mb, 128);
}

#[test]
fn errors_quote_what_they_refuse() {
    assert_eq!(error_of("--kernel k --mem banana"), "bad --mem \"banana\": invalid digit found in string");
    assert_eq!(error_of("--kernel k --smp 256"), "bad --smp \"256\": number too large to fit in target type");
    assert_eq!(error_of("--kernel"), "--kernel requires an argument");
    assert_eq!(
        DeviceSpec::parse("d.py:Cls:0x1000:0").unwrap_err(),
        "--device \"d.py:Cls:0x1000:0\" has a zero size"
    );
    assert_eq!(
        DeviceSpec::parse("d\t\"\u{1}.py:Cls:0x1000:0").unwrap_err(),
        "--device \"d\\t\\\"\\u{1}.py:Cls:0x1000:0\" has a zero size"
    );
    assert_eq!(PciDeviceSpec::parse("d.py:Cls:40").unwrap_err(), "PCI device number 40 must be 0-31");
    assert_eq!(
        DeviceSpec::parse("d.py:Cls:0x1000:0x100:mem=0").unwrap_err(),
        "\"d.py:Cls:0x1000:0x100:mem=0\" has a zero mem= limit"
    );
}
