use hyperbug::gdt::{
    gdt_entry, max_identity_map, setup_gdt, setup_page_tables, BOOT_GDT_OFFSET, GIB, PAGE_2MB, PDE_START, PDPTE_START,
    PD_TABLE_SIZE, PML4_START,
};
use hyperbug::mem::GuestMemory;
use hyperbug::regs::Sregs;

fn pml4e(mem: &GuestMemory) -> u64 {
    mem.read_u64_checked(PML4_START).unwrap()
}

fn pdpte(mem: &GuestMemory, gib: u64) -> u64 {
    mem.read_u64_checked(PDPTE_START + gib * 8).unwrap()
}

fn pde(mem: &GuestMemory, pd_table: u64, index: u64) -> u64 {
    mem.read_u64_checked(pd_table + index * 8).unwrap()
}

#[test]
fn rejects_more_than_the_advertised_maximum() {
    let max = max_identity_map();
    let mut mem = GuestMemory::new((max + GIB) as usize).unwrap();
    let mut sregs = Sregs::default();
    assert!(setup_page_tables(&mut mem, &mut sregs, max + GIB).is_err());
}

#[test]
fn maps_exactly_at_the_advertised_maximum() {
    let max = max_identity_map();
    let mut mem = GuestMemory::new(max as usize).unwrap();
    let mut sregs = Sregs::default();
    setup_page_tables(&mut mem, &mut sregs, max).expect("must succeed at exactly the max");

    assert_eq!(pml4e(&mem) & !0xfff, PDPTE_START);

    let num_gib = max / GIB;
    // First and last PDPT entries point at the right, distinct PD tables.
    let first_pd = PDE_START;
    let last_pd = PDE_START + (num_gib - 1) * PD_TABLE_SIZE;
    assert_eq!(pdpte(&mem, 0) & !0xfff, first_pd);
    assert_eq!(pdpte(&mem, num_gib - 1) & !0xfff, last_pd);

    // The very last 2 MiB page of the very last GiB maps the correct
    // physical address.
    let pages_per_gib = GIB / PAGE_2MB;
    let last_page_phys = pde(&mem, last_pd, pages_per_gib - 1) & !0xfff;
    assert_eq!(last_page_phys, max - PAGE_2MB);

    // Every PD entry actually written is present+writable+huge, and
    // nothing beyond the last GiB's PDPT slot got a stray write.
    assert_eq!(pdpte(&mem, num_gib), 0);
}

#[test]
fn handles_a_partial_final_gib_correctly() {
    // Not a multiple of GIB: exercises the `pages_in_this_gib`
    // truncation for the last, incomplete table.
    let mem_size = 3 * GIB + 17 * PAGE_2MB;
    let mut mem = GuestMemory::new(mem_size as usize).unwrap();
    let mut sregs = Sregs::default();
    setup_page_tables(&mut mem, &mut sregs, mem_size).unwrap();

    let last_pd = PDE_START + 3 * PD_TABLE_SIZE;
    // The 17 valid pages in the final, partial GiB map the right
    // physical addresses...
    for i in 0..17 {
        let phys = pde(&mem, last_pd, i) & !0xfff;
        assert_eq!(phys, 3 * GIB + i * PAGE_2MB);
    }
    // ...and the 18th entry in that table was never written (still 0),
    // rather than the loop over-running into the next GiB's addresses.
    assert_eq!(pde(&mem, last_pd, 17), 0);
}

#[test]
fn the_segment_registers_match_the_descriptor_table() {
    let mut mem = GuestMemory::new(0x20_0000).unwrap();
    let mut sregs = Sregs::default();
    setup_gdt(&mut mem, &mut sregs);
    assert_eq!(mem.read_u64_checked(BOOT_GDT_OFFSET), Some(0));
    assert_eq!(mem.read_u64_checked(BOOT_GDT_OFFSET + 8), Some(0x00af_9b00_0000_ffff));
    assert_eq!(mem.read_u64_checked(BOOT_GDT_OFFSET + 16), Some(0x00cf_9300_0000_ffff));
    assert_eq!(sregs.cs.selector, 8);
    assert_eq!(sregs.cs.l, 1);
    assert_eq!(sregs.ds.selector, 16);
    assert_eq!(sregs.cs.limit, 0xf_ffff);
}

#[test]
fn a_descriptor_scatters_its_fields() {
    assert_eq!(gdt_entry(0xa09b, 0x1234_5678, 0xf_ffff), 0x12af_9b34_5678_ffff);
}
