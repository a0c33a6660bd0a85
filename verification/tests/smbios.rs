use hyperbug::mem::GuestMemory;
use hyperbug::smbios::{
    append_strings, build_bios_info, build_chassis_info, build_end_marker, build_entry_point, build_system_info,
    setup_smbios, ENTRY_POINT_LEN, SMBIOS_BASE, SMBIOS_LIMIT, TABLE_ADDR,
};

/// Every structure's declared `length` (offset 1) must never exceed
/// its own formatted area — a real DMI walker trusts this field to
/// find the next structure's start (skip `length` bytes, then scan
/// for the double-NUL string-set terminator), so an inflated value
/// would make it skip into the middle of this structure's own
/// strings.
#[test]
fn every_structures_declared_length_is_at_most_its_formatted_area() {
    for t in [build_bios_info(0), build_system_info(1), build_chassis_info(2), build_end_marker(3)] {
        let declared_len = t[1] as usize;
        assert!(declared_len <= t.len(), "type {} declares length {declared_len} but is only {} bytes", t[0], t.len());
    }
}

/// A real DMI walker (`dmi_walk_early`) finds the next structure by
/// skipping `length` bytes, then scanning forward for a `\0\0` pair
/// — this must actually find the *real* end of the string-set, not
/// wander into whatever follows.
#[test]
fn each_structures_string_set_is_correctly_double_nul_terminated() {
    for t in [build_bios_info(0), build_system_info(1), build_chassis_info(2), build_end_marker(3)] {
        let formatted_len = t[1] as usize;
        let strings = &t[formatted_len..];
        // Find the first `\0\0` pair scanning from the start of the
        // string-set — it must be exactly the tail of `t`, i.e. the
        // structure doesn't have trailing garbage after its real
        // terminator.
        let mut i = 0;
        while i + 1 < strings.len() && !(strings[i] == 0 && strings[i + 1] == 0) {
            i += 1;
        }
        assert_eq!(i + 2, strings.len(), "type {}'s string-set has trailing bytes after its double-NUL terminator", t[0]);
    }
}

/// The combined `_SM_`/`_DMI_` entry point must satisfy both
/// checksums `dmi_present()` actually validates.
#[test]
fn the_entry_point_satisfies_both_real_checksums() {
    let entry = build_entry_point(0x1234, 100, 4, 27);
    assert_eq!(&entry[0..4], b"_SM_");
    assert_eq!(&entry[16..21], b"_DMI_");
    let sum_all: u8 = entry.iter().fold(0u8, |acc, &b| acc.wrapping_add(b));
    assert_eq!(sum_all, 0, "the whole 31-byte entry point must sum to zero");
    let sum_dmi: u8 = entry[16..31].iter().fold(0u8, |acc, &b| acc.wrapping_add(b));
    assert_eq!(sum_dmi, 0, "the trailing 15-byte _DMI_ sub-structure must independently sum to zero");
}

/// `setup_smbios` must actually fit its table inside the reserved
/// region without ever touching guest memory past `SMBIOS_LIMIT` —
/// checked here against real numbers rather than trusted by
/// inspection.
#[test]
fn the_real_table_fits_comfortably_inside_the_reserved_region() {
    let total = build_bios_info(0).len() + build_system_info(1).len() + build_chassis_info(2).len() + build_end_marker(3).len();
    assert!(
        TABLE_ADDR + total as u64 <= SMBIOS_LIMIT,
        "the real table ({total} bytes) must fit in [{TABLE_ADDR:#x}, {SMBIOS_LIMIT:#x})"
    );
}

/// `setup_smbios` actually writes real, checksummed bytes into guest
/// memory at the addresses a real Linux guest's `dmi_scan_machine`
/// would scan.
#[test]
fn setup_smbios_writes_a_real_valid_entry_point_into_guest_memory() {
    let mut mem = GuestMemory::new(2 * 1024 * 1024).unwrap();
    setup_smbios(&mut mem).unwrap();
    let mut entry = [0u8; ENTRY_POINT_LEN as usize];
    assert!(mem.read_checked(SMBIOS_BASE, &mut entry));
    assert_eq!(&entry[0..4], b"_SM_");
    let sum: u8 = entry.iter().fold(0u8, |acc, &b| acc.wrapping_add(b));
    assert_eq!(sum, 0);
}

#[test]
fn a_string_set_ends_with_two_nuls() {
    let mut t = vec![9u8];
    append_strings(&mut t, &["a", "bc"]);
    assert_eq!(t, [9, b'a', 0, b'b', b'c', 0, 0]);
    let mut empty = Vec::new();
    append_strings(&mut empty, &[]);
    assert_eq!(empty, [0, 0]);
}

#[test]
fn the_entry_point_points_at_the_table() {
    let mut mem = GuestMemory::new(2 * 1024 * 1024).unwrap();
    setup_smbios(&mut mem).unwrap();
    assert_eq!(u64::from(mem.read_u32_checked(SMBIOS_BASE + 24).unwrap()), TABLE_ADDR);
    assert_eq!(mem.read_u16_checked(SMBIOS_BASE + 28), Some(4));
}
