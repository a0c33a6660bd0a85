use hyperbug::pmu::{
    attr_bytes, branch_event, count_from, detect_host_vendor, is_precise, speclockmap_workaround_in,
    vendor_from_cpuid, CpuVendor,
};

#[test]
fn detects_a_real_known_vendor_on_this_host() {
    // Doesn't assert *which* vendor: this suite runs on whatever
    // hardware is available.
    let vendor = detect_host_vendor();
    assert_ne!(vendor, CpuVendor::Other, "this host's CPUID should report a known vendor");
    println!("detected host vendor: {vendor:?}");
}

fn word(s: &[u8]) -> u32 {
    u32::from_le_bytes([s[0], s[1], s[2], s[3]])
}

#[test]
fn a_vendor_is_known_by_its_name() {
    let of = |name: &[u8]| vendor_from_cpuid(word(&name[0..4]), word(&name[4..8]), word(&name[8..12]));
    assert_eq!(of(b"GenuineIntel"), CpuVendor::Intel);
    assert_eq!(of(b"AuthenticAMD"), CpuVendor::Amd);
    assert_eq!(of(b"CentaurHauls"), CpuVendor::Other);
}

#[test]
fn each_vendor_has_its_branch_event() {
    let amd = branch_event(CpuVendor::Amd, true).unwrap();
    assert_eq!((amd.config, amd.flags), (0xc2, 0x8_0021));
    let intel = branch_event(CpuVendor::Intel, false).unwrap();
    assert_eq!((intel.config, intel.flags), (0xc4, 0x1_0021));
    assert!(branch_event(CpuVendor::Other, true).is_err());
    let attr = attr_bytes(&amd);
    assert_eq!(attr.len(), 72);
    assert_eq!(attr[0..8], [4, 0, 0, 0, 72, 0, 0, 0]);
    assert_eq!(attr[8], 0xc2);
    assert_eq!(attr[40..43], [0x21, 0, 8]);
}

#[test]
fn amd_counts_are_exact_only_with_the_workaround() {
    assert!(is_precise(CpuVendor::Intel, None));
    assert!(is_precise(CpuVendor::Amd, Some(true)));
    assert!(!is_precise(CpuVendor::Amd, Some(false)));
    assert!(!is_precise(CpuVendor::Amd, None));
    assert!(!is_precise(CpuVendor::Other, Some(true)));
    assert!(speclockmap_workaround_in(1 << 54));
    assert!(!speclockmap_workaround_in(1 << 54 | 1 << 10));
    assert!(!speclockmap_workaround_in(0));
}

#[test]
fn a_short_read_counts_nothing() {
    assert_eq!(count_from(&[1, 2, 0, 0, 0, 0, 0, 0], 8), 0x201);
    assert_eq!(count_from(&[1, 2, 0, 0, 0, 0, 0, 0], -1), 0);
}
