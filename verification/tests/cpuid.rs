use hyperbug::cpuid::{curate, CpuidEntry, ECX_MONITOR, EDX_HTT};

fn real_leaf(function: u32, index: u32, eax: u32, ebx: u32, ecx: u32, edx: u32) -> CpuidEntry {
    CpuidEntry { function, index, eax, ebx, ecx, edx, flags: 0 }
}

#[test]
fn clears_monitor_mwait_and_htt_and_sets_this_vcpus_real_apic_id() {
    let leaf1 = real_leaf(1, 0, 0x00a60f12, 0x0a100800, 0xf7f83203, 0x078bfbff);
    let mut cpuid = vec![leaf1];
    curate(&mut cpuid, 3, 4);
    let e = &cpuid[0];

    assert_eq!(e.ecx & ECX_MONITOR, 0, "MONITOR/MWAIT must be cleared");
    assert_eq!(e.edx & EDX_HTT, 0, "HTT must be cleared — MADT is the authoritative SMP topology source");
    assert_eq!(e.ebx >> 24, 3, "initial APIC ID must match this specific vCPU, not the host's");
    assert_eq!((e.ebx >> 16) & 0xff, 4, "logical processor count must reflect the real vCPU count");
    // eax (stepping/model/family) and the rest of ebx (brand index,
    // CLFLUSH size) are real, needed values — curate must leave them
    // alone.
    assert_eq!(e.eax, 0x00a60f12);
    assert_eq!(e.ebx & 0x0000_ffff, 0x0a100800 & 0x0000_ffff);
}

#[test]
fn zeroes_the_leaked_x2apic_id_in_leaf_0xb() {
    // EBX=0 already terminates topology enumeration
    // per spec, but EDX leaked a real host thread's x2APIC id (0xa).
    let leaf_b = real_leaf(0xb, 0, 0x0, 0x0, 0x0, 0xa);
    let mut cpuid = vec![leaf_b];
    curate(&mut cpuid, 0, 1);
    assert_eq!(cpuid[0].edx, 0, "x2APIC id must not leak the host's");
}

#[test]
fn clears_the_host_physical_thread_count_from_leaf_0x80000008() {
    // ecx=0x400f encodes "16 physical threads" (0xf+1)
    // in bits 7:0 and an ApicIdCoreIdSize in bits 15:12 — both
    // host-topology fields hyperbug shouldn't repeat regardless of
    // how many vCPUs it's actually modeling.
    let leaf_ext8 = real_leaf(0x8000_0008, 0, 0x00303030, 0x531ad205, 0x400f, 0x0);
    let mut cpuid = vec![leaf_ext8];
    curate(&mut cpuid, 0, 1);
    let e = &cpuid[0];
    assert_eq!(e.ecx & 0xf0ff, 0, "physical thread count / APIC core-ID size must be cleared");
    // eax (physical/linear address size) feeds gdt.rs's page tables —
    // must survive untouched.
    assert_eq!(e.eax, 0x00303030);
}

#[test]
fn curating_twice_changes_nothing_more() {
    let mut once = vec![
        real_leaf(1, 0, 0x00a60f12, 0x0a100800, 0xf7f83203, 0x078bfbff),
        real_leaf(0xb, 1, 0, 2, 0x102, 0xa),
        real_leaf(7, 0, 1, 2, 3, 4),
    ];
    curate(&mut once, 2, 8);
    let mut twice = once.clone();
    curate(&mut twice, 2, 8);
    for i in 0..3 {
        assert_eq!((once[i].eax, once[i].ebx, once[i].ecx, once[i].edx), (twice[i].eax, twice[i].ebx, twice[i].ecx, twice[i].edx));
    }
    assert_eq!((once[2].eax, once[2].ebx, once[2].ecx, once[2].edx), (1, 2, 3, 4));
}
