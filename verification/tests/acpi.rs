use hyperbug::acpi::{
    build_fadt, build_madt, build_rsdp, build_rsdt, build_xsdt, checksum, finish, sdt_header, setup_acpi,
    system_io_gas, zero_gas, ResetControl, SleepControl, ACPI_LIMIT, RSDP_ADDR, RSDP_LEN,
};
use hyperbug::device::Device;
use hyperbug::error::new_exit_slot;
use hyperbug::mem::GuestMemory;
use hyperbug::GuestExit;

/// Stands for a compiled DSDT: a table whose header is right and whose body
/// is not looked at.
fn dsdt() -> Vec<u8> {
    let mut t = sdt_header(*b"DSDT", 2, *b"HYPERBUG");
    t.extend_from_slice(&[0x5b; 200]);
    finish(t)
}

// Plausible stand-in addresses for the tests that need one; the real
// ones are assigned dynamically by `setup_acpi`.
const SOME_DSDT: u64 = 0xe0020;
const SOME_FADT: u64 = 0xe0100;
const SOME_MADT: u64 = 0xe0300;

fn table_checksum_is_zero(table: &[u8]) {
    let sum = table.iter().fold(0u8, |acc, &b| acc.wrapping_add(b));
    assert_eq!(sum, 0, "table doesn't sum to zero — checksum is wrong");
}

/// Reads the 4-byte signature and 32-bit length every SDT header
/// starts with, so a test can find a placed table without knowing the
/// layout `setup_acpi` chose.
fn header_at(mem: &GuestMemory, addr: u64) -> ([u8; 4], u32) {
    let mut sig = [0u8; 4];
    assert!(mem.read_checked(addr, &mut sig));
    (sig, mem.read_u32_checked(addr + 4).unwrap())
}

#[test]
fn table_checksums_are_valid() {
    table_checksum_is_zero(&build_madt(1));
    table_checksum_is_zero(&build_fadt(SOME_DSDT as u32));
    table_checksum_is_zero(&build_xsdt(&[SOME_FADT, SOME_MADT]));
    table_checksum_is_zero(&build_rsdt(&[SOME_FADT as u32, SOME_MADT as u32]));
    // RSDP has two independent checksums (v1 covers the first 20
    // bytes, extended covers all 36) — check both explicitly rather
    // than just the whole-table sum, since a bug isolated to just the
    // extended-checksum byte's own placement wouldn't show up in a
    // single whole-table check.
    let rsdp = build_rsdp(SOME_FADT as u32, SOME_MADT);
    table_checksum_is_zero(&rsdp[..20]);
    table_checksum_is_zero(&rsdp);
}

/// The MADT grows by 8 bytes per vCPU. Every table must still be intact at
/// the maximum vCPU count the CLI can express.
#[test]
fn every_table_survives_the_largest_possible_madt() {
    let mut mem = GuestMemory::new(0x20_0000).unwrap();
    setup_acpi(&mut mem, u8::MAX, &dsdt()).expect("255 vCPUs' worth of tables must still fit");

    let mut rsdp = [0u8; 8];
    assert!(mem.read_checked(RSDP_ADDR, &mut rsdp));
    assert_eq!(&rsdp, b"RSD PTR ", "the RSDP must be where an OS scans for it");

    // Walk the RSDT the way an OS does, and confirm each entry it
    // points at still has its own intact signature and length.
    let rsdt_addr = u64::from(mem.read_u32_checked(RSDP_ADDR + 16).unwrap());
    let (sig, rsdt_len) = header_at(&mem, rsdt_addr);
    assert_eq!(&sig, b"RSDT");
    table_checksum_is_zero(&read_table(&mem, rsdt_addr, rsdt_len));

    let entries = (rsdt_len as u64 - 36) / 4;
    assert_eq!(entries, 2, "FADT and MADT");
    for i in 0..entries {
        let entry = u64::from(mem.read_u32_checked(rsdt_addr + 36 + i * 4).unwrap());
        let (sig, len) = header_at(&mem, entry);
        assert!(&sig == b"FACP" || &sig == b"APIC", "unexpected table signature {sig:?}");
        table_checksum_is_zero(&read_table(&mem, entry, len));
    }
}

fn read_table(mem: &GuestMemory, addr: u64, len: u32) -> Vec<u8> {
    let mut buf = vec![0u8; len as usize];
    assert!(mem.read_checked(addr, &mut buf));
    buf
}

#[test]
fn tables_are_placed_without_overlapping_each_other() {
    let mut mem = GuestMemory::new(0x20_0000).unwrap();
    setup_acpi(&mut mem, 4, &dsdt()).unwrap();

    let rsdt_addr = u64::from(mem.read_u32_checked(RSDP_ADDR + 16).unwrap());
    let xsdt_addr = mem.read_u64_checked(RSDP_ADDR + 24).unwrap();
    let (_, rsdt_len) = header_at(&mem, rsdt_addr);
    let (_, xsdt_len) = header_at(&mem, xsdt_addr);

    let fadt_addr = u64::from(mem.read_u32_checked(rsdt_addr + 36).unwrap());
    let madt_addr = u64::from(mem.read_u32_checked(rsdt_addr + 40).unwrap());
    let (_, fadt_len) = header_at(&mem, fadt_addr);
    let (_, madt_len) = header_at(&mem, madt_addr);
    // FADT offset 40 is the 32-bit DSDT pointer.
    let dsdt_addr = u64::from(mem.read_u32_checked(fadt_addr + 40).unwrap());

    let mut spans = [
        (RSDP_ADDR, RSDP_LEN),
        (dsdt_addr, dsdt().len() as u64),
        (fadt_addr, u64::from(fadt_len)),
        (madt_addr, u64::from(madt_len)),
        (xsdt_addr, u64::from(xsdt_len)),
        (rsdt_addr, u64::from(rsdt_len)),
    ];
    spans.sort_unstable();
    for pair in spans.windows(2) {
        let (addr, len) = pair[0];
        assert!(addr + len <= pair[1].0, "table at {addr:#x} overlaps the next one");
    }
    assert!(spans.last().unwrap().0 + spans.last().unwrap().1 <= ACPI_LIMIT);
}

#[test]
fn a_dsdt_that_does_not_fit_is_refused() {
    let mut mem = GuestMemory::new(0x20_0000).unwrap();
    let big = vec![0u8; (ACPI_LIMIT - RSDP_ADDR) as usize];
    assert!(setup_acpi(&mut mem, 1, &big).is_err());
}

#[test]
fn a_checksum_makes_the_sum_zero() {
    assert_eq!(checksum(&[1, 2, 3]), 250);
    assert_eq!(checksum(&[]), 0);
    assert_eq!(checksum(&[0x80, 0x80]), 0);
}

#[test]
fn register_addresses_are_twelve_bytes() {
    assert_eq!(zero_gas(), [0u8; 12]);
    assert_eq!(system_io_gas(0x600), [1, 8, 0, 1, 0, 6, 0, 0, 0, 0, 0, 0]);
}

#[test]
fn writing_the_sleep_enable_bit_powers_off() {
    let mut dev = SleepControl::new(new_exit_slot());
    dev.write(0, &[0x00]);
    assert!(!dev.exit.is_requested());
    dev.write(0, &[0x34]);
    assert_eq!(dev.exit.take().unwrap().unwrap(), GuestExit::CleanShutdown);
}

#[test]
fn writing_the_reset_value_asks_for_a_reboot() {
    let mut dev = ResetControl::new(new_exit_slot());
    dev.write(0, &[0x02]);
    assert!(!dev.exit.is_requested());
    dev.write(0, &[0x01]);
    assert_eq!(dev.exit.take().unwrap().unwrap(), GuestExit::RequestedReboot);
}
