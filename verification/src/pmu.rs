//! The host's branch counter: which raw event counts retired branches on the
//! host's CPU, how it is configured, and whether its counts can be trusted.
//!
//! The two vendors have different events of different precision. On AMD the
//! count is exact only while a speculation feature is switched off, which
//! shows in a model-specific register. Any other vendor is refused.

use vstd::prelude::*;
use vstd::string::*;

use crate::bytes::{get_u64, le32, le64, push_u32, push_u64, push_zeroes, u64_at, zeroes};

verus! {

/// Who made the host's CPU.
#[derive(Clone, Copy, Debug, PartialEq, Eq, Structural)]
pub enum CpuVendor {
    Intel,
    Amd,
    Other,
}

/// Leaf 0 of CPUID, in the order EBX, EDX, ECX.
pub type VendorWords = (u32, u32, u32);

/// The vendor that leaf 0 of CPUID names: the registers hold the twelve
/// letters of `GenuineIntel` or `AuthenticAMD`.
pub open spec fn vendor_of(w: VendorWords) -> CpuVendor {
    if w == (0x756e_6547u32, 0x4965_6e69u32, 0x6c65_746eu32) {
        CpuVendor::Intel
    } else if w == (0x6874_7541u32, 0x6974_6e65u32, 0x444d_4163u32) {
        CpuVendor::Amd
    } else {
        CpuVendor::Other
    }
}

/// The vendor that leaf 0 of CPUID names.
pub fn vendor_from_cpuid(ebx: u32, edx: u32, ecx: u32) -> (r: CpuVendor)
    ensures
        r == vendor_of((ebx, edx, ecx)),
{
    if ebx == 0x756e_6547 && edx == 0x4965_6e69 && ecx == 0x6c65_746e {
        CpuVendor::Intel
    } else if ebx == 0x6874_7541 && edx == 0x6974_6e65 && ecx == 0x444d_4163 {
        CpuVendor::Amd
    } else {
        CpuVendor::Other
    }
}

/// EBX, EDX and ECX of leaf 0 of CPUID, as std's `__cpuid` reads them from the
/// CPU that this runs on. Nothing is claimed of them.
#[verifier::external_body]
fn cpuid_leaf_0() -> (r: (u32, u32, u32)) {
    let l = std::arch::x86_64::__cpuid(0);
    (l.ebx, l.edx, l.ecx)
}

/// Whether `v` is the vendor that the host's CPU names: the one whose name is
/// in registers that leaf 0 can come back with on this host.
pub closed spec fn is_host_vendor(v: CpuVendor) -> bool {
    exists|regs: (u32, u32, u32)| #[trigger] call_ensures(cpuid_leaf_0, (), regs) && v == vendor_of(regs)
}

/// The vendor of the CPU that this runs on: what `vendor_from_cpuid` makes of
/// the CPU's own leaf 0, which is the machine's to say.
pub fn detect_host_vendor() -> (r: CpuVendor)
    ensures
        is_host_vendor(r),
{
    let (ebx, edx, ecx) = cpuid_leaf_0();
    vendor_from_cpuid(ebx, edx, ecx)
}

/// AMD: retired branch instructions.
pub const AMD_RETIRED_BRANCHES_EVENT: u64 = 0xc2;

/// Intel: retired conditional branches.
pub const INTEL_BR_INST_RETIRED_CONDITIONAL: u64 = 0xc4;

/// A raw event.
pub const PERF_TYPE_RAW: u32 = 4;

/// The size of the attributes of an event.
pub const PERF_ATTR_SIZE_VER1: u32 = 72;

/// The counter starts switched off.
pub const ATTR_DISABLED: u64 = 0x1;

/// The kernel's own branches are not counted.
pub const ATTR_EXCLUDE_KERNEL: u64 = 0x20;

/// Where the precision that is asked for stands.
pub const ATTR_PRECISE_IP_SHIFT: u64 = 15;

/// Only what a guest executes is counted.
pub const ATTR_EXCLUDE_HOST: u64 = 0x8_0000;

/// An event to count.
#[derive(Clone, Copy, Debug, PartialEq, Eq, Structural)]
pub struct BranchEvent {
    /// Which event.
    pub config: u64,
    /// How it is counted.
    pub flags: u64,
}

/// The event that counts branches on a vendor's CPUs.
pub open spec fn branch_event_of(vendor: CpuVendor, exclude_host: bool) -> Option<BranchEvent> {
    let host = if exclude_host { 0x8_0000int } else { 0 };
    match vendor {
        CpuVendor::Amd => Some(
            BranchEvent { config: AMD_RETIRED_BRANCHES_EVENT, flags: (0x21 + host) as u64 },
        ),
        CpuVendor::Intel => Some(
            BranchEvent {
                config: INTEL_BR_INST_RETIRED_CONDITIONAL,
                flags: (0x1_0021 + host) as u64,
            },
        ),
        CpuVendor::Other => None,
    }
}

/// The event that counts branches on a vendor's CPUs. Intel's is asked for
/// with little skid; an unknown vendor is an error.
pub fn branch_event(vendor: CpuVendor, exclude_host: bool) -> (r: Result<BranchEvent, String>)
    ensures
        match r {
            Ok(e) => branch_event_of(vendor, exclude_host) == Some(e),
            Err(m) => branch_event_of(vendor, exclude_host) is None && m@
                == "record/replay's branch counter needs a known host CPU vendor (Intel or AMD); this host's CPUID reports neither"@,
        },
{
    let (config, precise_ip): (u64, u64) = match vendor {
        CpuVendor::Amd => (AMD_RETIRED_BRANCHES_EVENT, 0),
        CpuVendor::Intel => (INTEL_BR_INST_RETIRED_CONDITIONAL, 2),
        CpuVendor::Other => {
            return Err(
                "record/replay's branch counter needs a known host CPU vendor (Intel or AMD); this host's CPUID reports neither".to_owned(),
            );
        },
    };
    assert(0x1u64 | 0x20u64 | (0u64 << 15u64) == 0x21u64) by (bit_vector);
    assert(0x1u64 | 0x20u64 | (2u64 << 15u64) == 0x1_0021u64) by (bit_vector);
    assert(0x21u64 | 0x8_0000u64 == 0x8_0021u64) by (bit_vector);
    assert(0x1_0021u64 | 0x8_0000u64 == 0x9_0021u64) by (bit_vector);
    let mut flags: u64 = ATTR_DISABLED | ATTR_EXCLUDE_KERNEL | (precise_ip << ATTR_PRECISE_IP_SHIFT);
    if exclude_host {
        flags = flags | ATTR_EXCLUDE_HOST;
    }
    Ok(BranchEvent { config, flags })
}

/// The attributes of an event, as the kernel takes them: type, size and
/// event, then the sampling fields, which are not used, the flags, and zeroes.
pub fn attr_bytes(e: &BranchEvent) -> (r: Vec<u8>)
    ensures
        r@ == le32(PERF_TYPE_RAW) + le32(PERF_ATTR_SIZE_VER1) + le64(e.config) + zeroes(24) + le64(
            e.flags,
        ) + zeroes(24),
        r@.len() == PERF_ATTR_SIZE_VER1,
{
    let mut v: Vec<u8> = Vec::new();
    push_u32(&mut v, PERF_TYPE_RAW);
    push_u32(&mut v, PERF_ATTR_SIZE_VER1);
    push_u64(&mut v, e.config);
    push_zeroes(&mut v, 24);
    push_u64(&mut v, e.flags);
    push_zeroes(&mut v, 24);
    assert(v@ =~= le32(PERF_TYPE_RAW) + le32(PERF_ATTR_SIZE_VER1) + le64(e.config) + zeroes(24) + le64(
        e.flags,
    ) + zeroes(24));
    v
}

/// Whether the counts of a vendor's CPU can be trusted to be exact: always on
/// Intel, and on AMD only if the speculation feature is known to be off.
pub fn is_precise(vendor: CpuVendor, workaround: Option<bool>) -> (r: bool)
    ensures
        r == (vendor == CpuVendor::Intel || (vendor == CpuVendor::Amd && workaround == Some(true))),
{
    match vendor {
        CpuVendor::Intel => true,
        CpuVendor::Amd => match workaround {
            Some(w) => w,
            None => false,
        },
        CpuVendor::Other => false,
    }
}

/// Whether the register that controls the speculation feature says that it is
/// off: bit 54 set and bit 10 clear.
pub fn speclockmap_workaround_in(msr: u64) -> (r: bool)
    ensures
        r == (msr & 0x40_0000_0000_0000u64 != 0 && msr & 0x400u64 == 0),
{
    msr & 0x40_0000_0000_0000u64 != 0 && msr & 0x400u64 == 0
}

/// The count in `buf`, of which `n` bytes were read; 0 if that is not the
/// whole of it.
pub fn count_from(buf: &[u8], n: i64) -> (r: u64)
    requires
        buf@.len() == 8,
    ensures
        r == (if n == 8 { u64_at(buf@, 0) } else { 0u64 }),
{
    if n == 8 {
        get_u64(buf, 0)
    } else {
        0
    }
}

/// The vendor is the one whose name the three registers spell, in the order
/// that the processor gives them: `GenuineIntel`, `AuthenticAMD`, or another.
pub proof fn law_vendor_is_spelled_out(w: VendorWords)
    ensures
        ({
            let name = le32(w.0) + le32(w.1) + le32(w.2);
            &&& vendor_of(w) == CpuVendor::Intel <==> (forall|k: int|
                0 <= k < 12 ==> #[trigger] name[k] == "GenuineIntel"@[k] as u8)
            &&& vendor_of(w) == CpuVendor::Amd <==> (forall|k: int|
                0 <= k < 12 ==> #[trigger] name[k] == "AuthenticAMD"@[k] as u8)
        }),
{
    reveal_strlit("GenuineIntel");
    reveal_strlit("AuthenticAMD");
    let name = le32(w.0) + le32(w.1) + le32(w.2);
    assert(name.len() == 12);
    lemma_spells(w.0, 0x756e_6547);
    lemma_spells(w.1, 0x4965_6e69);
    lemma_spells(w.2, 0x6c65_746e);
    lemma_spells(w.0, 0x6874_7541);
    lemma_spells(w.1, 0x6974_6e65);
    lemma_spells(w.2, 0x444d_4163);
    let i = "GenuineIntel"@;
    let a = "AuthenticAMD"@;
    assert(i[0] == 'G' && i[1] == 'e' && i[2] == 'n' && i[3] == 'u' && i[4] == 'i' && i[5] == 'n' && i[6] == 'e' && i[7]
        == 'I' && i[8] == 'n' && i[9] == 't' && i[10] == 'e' && i[11] == 'l');
    assert(a[0] == 'A' && a[1] == 'u' && a[2] == 't' && a[3] == 'h' && a[4] == 'e' && a[5] == 'n' && a[6] == 't' && a[7]
        == 'i' && a[8] == 'c' && a[9] == 'A' && a[10] == 'M' && a[11] == 'D');
    if forall|k: int| 0 <= k < 12 ==> #[trigger] name[k] == i[k] as u8 {
        assert(name[0] == 0x47 && name[1] == 0x65 && name[2] == 0x6e && name[3] == 0x75);
        assert(name[4] == 0x69 && name[5] == 0x6e && name[6] == 0x65 && name[7] == 0x49);
        assert(name[8] == 0x6e && name[9] == 0x74 && name[10] == 0x65 && name[11] == 0x6c);
    }
    if forall|k: int| 0 <= k < 12 ==> #[trigger] name[k] == a[k] as u8 {
        assert(name[0] == 0x41 && name[1] == 0x75 && name[2] == 0x74 && name[3] == 0x68);
        assert(name[4] == 0x65 && name[5] == 0x6e && name[6] == 0x74 && name[7] == 0x69);
        assert(name[8] == 0x63 && name[9] == 0x41 && name[10] == 0x4d && name[11] == 0x44);
    }
}

proof fn lemma_spells(x: u32, y: u32)
    ensures
        x == y <==> le32(x)[0] == le32(y)[0] && le32(x)[1] == le32(y)[1] && le32(x)[2] == le32(y)[2] && le32(x)[3]
            == le32(y)[3],
{
    crate::bytes::law_little_endian(0, x, 0);
    crate::bytes::law_little_endian(0, y, 0);
}

/// The counter counts retired branches, AMD's or Intel's conditional ones,
/// starts switched off, leaves the kernel out, and the host if that is asked
/// for; on Intel it is counted exactly. There is none for other processors.
pub proof fn law_branch_events(exclude_host: bool)
    ensures
        branch_event_of(CpuVendor::Other, exclude_host) is None,
        branch_event_of(CpuVendor::Amd, exclude_host) matches Some(e) && e.config == 0xc2 && e.flags as int / 0x8000 % 4
            == 0,
        branch_event_of(CpuVendor::Intel, exclude_host) matches Some(e) && e.config == 0xc4 && e.flags as int / 0x8000
            % 4 == 2,
        forall|v: CpuVendor|
            (#[trigger] branch_event_of(v, exclude_host)) matches Some(e) ==> e.flags % 2 == 1 && e.flags / 32 % 2 == 1
                && (e.flags / 0x8_0000 % 2 == 1 <==> exclude_host),
{
}

/// A count is what the counter gave, if it gave all eight bytes, and zero
/// otherwise. Positions are exact on Intel, and on AMD where the workaround is
/// in place.
pub proof fn law_counts(buf: &[u8], n: i64, r: u64, vendor: CpuVendor, workaround: Option<bool>, precise: bool)
    requires
        call_ensures(count_from, (buf, n), r),
        call_ensures(is_precise, (vendor, workaround), precise),
    ensures
        n == 8 ==> r == buf@[0] + 0x100 * buf@[1] + 0x1_0000 * buf@[2] + 0x100_0000 * buf@[3] + 0x1_0000_0000 * buf@[4]
            + 0x100_0000_0000 * buf@[5] + 0x1_0000_0000_0000 * buf@[6] + 0x100_0000_0000_0000 * buf@[7],
        n != 8 ==> r == 0,
        precise <==> vendor is Intel || (vendor is Amd && workaround == Some(true)),
{
    crate::bytes::law_little_endian_reads(buf@, 0);
}

/// The description of the counter that the kernel is given: its type and size,
/// the event, and the flags, each at its place, and nothing else.
pub proof fn law_counter_description(e: &BranchEvent, r: Vec<u8>, k: int)
    requires
        call_ensures(attr_bytes, (e,), r),
        0 <= k < 72,
    ensures
        r@.len() == 72,
        crate::bytes::u32_at(r@, 0) == 4,
        crate::bytes::u32_at(r@, 4) == 72,
        u64_at(r@, 8) == e.config,
        u64_at(r@, 40) == e.flags,
        16 <= k < 40 || 48 <= k ==> r@[k] == 0,
{
    assert forall|j: int| 0 <= j < 4 implies r@[0 + j] == #[trigger] le32(4)[j] by {}
    crate::bytes::lemma_u32_le(r@, 0, 4);
    assert forall|j: int| 0 <= j < 4 implies r@[4 + j] == #[trigger] le32(72)[j] by {}
    crate::bytes::lemma_u32_le(r@, 4, 72);
    assert forall|j: int| 0 <= j < 8 implies r@[8 + j] == #[trigger] le64(e.config)[j] by {}
    crate::bytes::lemma_u64_le(r@, 8, e.config);
    assert forall|j: int| 0 <= j < 8 implies r@[40 + j] == #[trigger] le64(e.flags)[j] by {}
    crate::bytes::lemma_u64_le(r@, 40, e.flags);
}

} // verus!
