//! Curating the CPUID leaves that a hypervisor reports, so that a guest sees
//! its own CPUs and not the topology of the host.

use vstd::prelude::*;

verus! {

/// MONITOR/MWAIT, in ECX of leaf 1.
pub const ECX_MONITOR: u32 = 0x8;

/// Several threads in one core, in EDX of leaf 1.
pub const EDX_HTT: u32 = 0x1000_0000;

/// One CPUID leaf.
#[derive(Clone, Copy, Debug, PartialEq, Eq, Structural)]
pub struct CpuidEntry {
    pub function: u32,
    pub index: u32,
    pub flags: u32,
    pub eax: u32,
    pub ebx: u32,
    pub ecx: u32,
    pub edx: u32,
}

/// A leaf as the CPU `apic_id` of `num_cpus` reports it. Leaf 1 names this CPU
/// and the number of CPUs, and neither MONITOR nor threads; leaf 0xb gives no
/// x2APIC ID away; leaf 0x80000008 no thread count and no size of core IDs.
/// All else stays as it is.
pub open spec fn curated(e: CpuidEntry, apic_id: u8, num_cpus: u8) -> CpuidEntry {
    if e.function == 1 {
        CpuidEntry {
            ecx: e.ecx & !ECX_MONITOR,
            edx: e.edx & !EDX_HTT,
            ebx: (e.ebx & 0x0000_ffffu32) | ((apic_id as u32) << 24u32) | ((num_cpus as u32) << 16u32),
            ..e
        }
    } else if e.function == 0xb {
        CpuidEntry { edx: 0, ..e }
    } else if e.function == 0x8000_0008 {
        CpuidEntry { ecx: e.ecx & !0xf0ffu32, ..e }
    } else {
        e
    }
}

/// Curates every leaf for the CPU `apic_id` of `num_cpus`.
pub fn curate(cpuid: &mut Vec<CpuidEntry>, apic_id: u8, num_cpus: u8)
    ensures
        final(cpuid)@ == Seq::new(
            old(cpuid)@.len(),
            |i: int| curated(old(cpuid)@[i], apic_id, num_cpus),
        ),
{
    let n: usize = cpuid.len();
    let mut i: usize = 0;
    while i < n
        invariant
            i <= n == cpuid@.len() == old(cpuid)@.len(),
            forall|k: int|
                0 <= k < n ==> #[trigger] cpuid@[k] == (if k < i {
                    curated(old(cpuid)@[k], apic_id, num_cpus)
                } else {
                    old(cpuid)@[k]
                }),
        decreases n - i,
    {
        let e: CpuidEntry = cpuid[i];
        if e.function == 1 {
            let ebx: u32 = (e.ebx & 0x0000_ffffu32) | ((apic_id as u32) << 24u32) | ((num_cpus as u32)
                << 16u32);
            cpuid.set(
                i,
                CpuidEntry { ecx: e.ecx & !ECX_MONITOR, edx: e.edx & !EDX_HTT, ebx, ..e },
            );
        } else if e.function == 0xb {
            cpuid.set(i, CpuidEntry { edx: 0, ..e });
        } else if e.function == 0x8000_0008 {
            cpuid.set(i, CpuidEntry { ecx: e.ecx & !0xf0ffu32, ..e });
        }
        i += 1;
    }
    assert(cpuid@ =~= Seq::new(
        old(cpuid)@.len(),
        |i: int| curated(old(cpuid)@[i], apic_id, num_cpus),
    ));
}

/// Leaf 1 names this CPU in its highest byte and the number of CPUs in the
/// next, keeps the rest of EBX, and reports neither MONITOR nor threads.
pub proof fn law_leaf_one(e: CpuidEntry, apic_id: u8, num_cpus: u8)
    requires
        e.function == 1,
    ensures
        ({
            let c = curated(e, apic_id, num_cpus);
            &&& c.ebx >> 24u32 == apic_id
            &&& (c.ebx >> 16u32) & 0xffu32 == num_cpus
            &&& c.ebx & 0xffffu32 == e.ebx & 0xffffu32
            &&& c.ecx & ECX_MONITOR == 0
            &&& c.edx & EDX_HTT == 0
            &&& c.eax == e.eax
        }),
{
    let (b, a, n, c, d) = (e.ebx, apic_id as u32, num_cpus as u32, e.ecx, e.edx);
    assert(a <= 0xff && n <= 0xff ==> ((b & 0x0000_ffffu32) | (a << 24u32) | (n << 16u32)) >> 24u32 == a
        && (((b & 0x0000_ffffu32) | (a << 24u32) | (n << 16u32)) >> 16u32) & 0xffu32 == n && ((b
        & 0x0000_ffffu32) | (a << 24u32) | (n << 16u32)) & 0xffffu32 == b & 0xffffu32) by (bit_vector);
    assert((c & !0x8u32) & 0x8u32 == 0) by (bit_vector);
    assert((d & !0x1000_0000u32) & 0x1000_0000u32 == 0) by (bit_vector);
}

/// Curating a second time for the same CPU changes nothing.
pub proof fn law_curate_once(e: CpuidEntry, apic_id: u8, num_cpus: u8)
    ensures
        curated(curated(e, apic_id, num_cpus), apic_id, num_cpus) == curated(e, apic_id, num_cpus),
{
    let (b, a, n, c, d) = (e.ebx, apic_id as u32, num_cpus as u32, e.ecx, e.edx);
    assert(a <= 0xff && n <= 0xff ==> (((b & 0x0000_ffffu32) | (a << 24u32) | (n << 16u32)) & 0x0000_ffffu32)
        | (a << 24u32) | (n << 16u32) == (b & 0x0000_ffffu32) | (a << 24u32) | (n << 16u32)) by (bit_vector);
    assert((c & !0x8u32) & !0x8u32 == c & !0x8u32) by (bit_vector);
    assert((d & !0x1000_0000u32) & !0x1000_0000u32 == d & !0x1000_0000u32) by (bit_vector);
    assert((c & !0xf0ffu32) & !0xf0ffu32 == c & !0xf0ffu32) by (bit_vector);
}

/// What a guest may not see of the host is gone, and everything else is as the
/// host has it. In leaf 1 only the monitor and thread-sibling bits are cleared,
/// in leaf 0xb the APIC id, and in leaf 0x80000008 the thread count and the
/// width of the core id; no other leaf changes at all.
pub proof fn law_other_features_are_kept(e: CpuidEntry, apic_id: u8, num_cpus: u8)
    ensures
        ({
            let c = curated(e, apic_id, num_cpus);
            &&& c.function == e.function
            &&& c.index == e.index
            &&& c.flags == e.flags
            &&& c.eax == e.eax
            &&& e.function == 1 ==> c.ecx | 0x8u32 == e.ecx | 0x8u32 && c.ecx & 0x8u32 == 0 && c.edx | 0x1000_0000u32
                == e.edx | 0x1000_0000u32 && c.edx & 0x1000_0000u32 == 0
            &&& e.function == 0xb ==> c.edx == 0 && c.ebx == e.ebx && c.ecx == e.ecx
            &&& e.function == 0x8000_0008 ==> c.ecx | 0xf0ffu32 == e.ecx | 0xf0ffu32 && c.ecx & 0xf0ffu32 == 0 && c.ebx
                == e.ebx && c.edx == e.edx
            &&& e.function != 1 && e.function != 0xb && e.function != 0x8000_0008 ==> c == e
        }),
{
    let (x, y) = (e.ecx, e.edx);
    assert((x & !0x8u32) | 0x8u32 == x | 0x8u32 && (x & !0x8u32) & 0x8u32 == 0 && (y & !0x1000_0000u32) | 0x1000_0000u32
        == y | 0x1000_0000u32 && (y & !0x1000_0000u32) & 0x1000_0000u32 == 0 && (x & !0xf0ffu32) | 0xf0ffu32 == x
        | 0xf0ffu32 && (x & !0xf0ffu32) & 0xf0ffu32 == 0) by (bit_vector);
}

} // verus!
