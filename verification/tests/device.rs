use hyperbug::device::{api_version_supported, dma_range_allows, Bus, Device, SharedDevice};

#[test]
fn dma_range_allows_only_ranges_fully_inside_the_declared_bound() {
    assert!(dma_range_allows(None, 0, u64::MAX), "no declared range means unrestricted");

    let range = Some((0x1000, 0x1000)); // [0x1000, 0x2000)
    assert!(dma_range_allows(range, 0x1000, 0x1000), "exactly the whole range");
    assert!(dma_range_allows(range, 0x1500, 0x100), "a sub-range");
    assert!(!dma_range_allows(range, 0x0f00, 0x100), "starts before the range");
    assert!(!dma_range_allows(range, 0x1f00, 0x200), "ends past the range");
    assert!(!dma_range_allows(range, 0, 0x2000), "spans the whole range and beyond");
    assert!(!dma_range_allows(range, u64::MAX - 15, 32), "an overflowing request");
}

struct Dummy;

impl Device for Dummy {
    fn read(&mut self, _offset: u64, data: &mut [u8]) {
        data.fill(0xa5);
    }
    fn write(&mut self, _offset: u64, _data: &[u8]) -> bool {
        true
    }
}

fn dummies(n: usize) -> Vec<Dummy> {
    (0..n).map(|_| Dummy).collect()
}

const FIRST: SharedDevice = SharedDevice { id: 0 };
const SECOND: SharedDevice = SharedDevice { id: 1 };

#[test]
fn a_region_whose_end_would_overflow_still_dispatches_correctly() {
    // A guest is free to program a BAR near the top of the address
    // space, where `base + size` does not fit.
    let mut devs = dummies(2);
    let mut bus = Bus::new();
    bus.register(u64::MAX - 15, 64, FIRST, None);

    let mut data = [0u8; 4];
    assert!(bus.read(&mut devs, u64::MAX - 15, &mut data), "the base address must dispatch");
    assert_eq!(data, [0xa5; 4]);
    assert!(bus.read(&mut devs, u64::MAX, &mut data), "the saturated top address must dispatch");
    assert!(!bus.read(&mut devs, u64::MAX - 16, &mut data), "one below the base must not");
}

#[test]
fn find_device_returns_the_same_handle_offset_and_irq_as_a_direct_dispatch() {
    let mut bus = Bus::new();
    bus.register(0x2000, 0x100, FIRST, Some(7));

    let (found, offset, irq) = bus.find_device(0x2010).expect("must find the registered device");
    assert_eq!(found, FIRST, "must be the same underlying device, not a copy");
    assert_eq!(offset, 0x10);
    assert_eq!(irq, Some(7));

    assert!(bus.find_device(0x3000).is_none(), "an unmapped address must find nothing");
}

#[test]
fn re_registering_a_device_moves_its_mapping_instead_of_duplicating_it() {
    let mut devs = dummies(2);
    let mut bus = Bus::new();
    bus.register(0x1000, 0x100, FIRST, None);
    bus.register(0x2000, 0x100, FIRST, None);

    let mut data = [0u8; 1];
    assert!(!bus.read(&mut devs, 0x1000, &mut data), "the old mapping must be gone");
    assert!(bus.read(&mut devs, 0x2000, &mut data), "the new mapping must be live");
}

#[test]
fn unregister_removes_a_mapping_entirely() {
    let mut devs = dummies(2);
    let mut bus = Bus::new();
    bus.register(0x1000, 0x100, FIRST, Some(9));
    assert_eq!(bus.write(&mut devs, 0x1000, &[1]), Some(Some(9)));

    bus.unregister(FIRST);
    assert_eq!(bus.write(&mut devs, 0x1000, &[1]), None, "nothing should answer at a reclaimed address");
}

#[test]
fn an_overlapping_registration_is_refused_and_leaves_the_original_working() {
    let mut devs = dummies(2);
    let mut bus = Bus::new();
    bus.register(0x1000, 0x100, FIRST, None);
    bus.register(0x1080, 0x100, SECOND, None); // overlaps the tail of the first

    let mut data = [0u8; 1];
    assert!(bus.read(&mut devs, 0x10ff, &mut data), "the original mapping must survive");
    assert!(!bus.read(&mut devs, 0x1100, &mut data), "the refused mapping must not be live");
}

#[test]
fn a_write_names_the_line_only_if_the_device_asks() {
    struct Quiet;
    impl Device for Quiet {
        fn read(&mut self, _offset: u64, _data: &mut [u8]) {}
        fn write(&mut self, _offset: u64, _data: &[u8]) -> bool {
            false
        }
    }
    let mut devs = vec![Quiet];
    let mut bus = Bus::new();
    bus.register(0x10, 4, FIRST, Some(5));
    assert_eq!(bus.write(&mut devs, 0x12, &[0]), Some(None));
    assert!(!devs[0].take_pending_irq());
}

#[test]
fn plugin_api_versions_are_bounded_on_both_sides() {
    assert!(!api_version_supported(0));
    assert!(api_version_supported(1));
    assert!(!api_version_supported(2));
}
