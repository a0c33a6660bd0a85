//! ACPI tables: RSDP, RSDT, XSDT, FADT and MADT around a given DSDT, and the
//! two devices through which a guest shuts down and restarts.
//!
//! The tables use the hardware-reduced model: there is no fixed ACPI
//! hardware, and all of its register blocks are declared absent.

use vstd::prelude::*;
use vstd::string::*;

use crate::bytes::{fill, le16, le32, le32_all, le64, le64_all, push_slice, push_u16, push_u32, push_u32_all, push_u64, push_u64_all, push_zeroes, splice, sum8, sum_bytes, byte_sum, lemma_byte_sum_update, zeroes};
use crate::device::Device;
use crate::error::{request_exit, ExitSlot, GuestExit, HyperbugError, Outcome};
use crate::mem::GuestMemory;
use crate::text::{cat5, dec, dec_string};

verus! {

/// Where the local APIC is.
pub const LAPIC_ADDR: u32 = 0xfee0_0000;

/// Where the I/O APIC is.
pub const IOAPIC_ADDR: u32 = 0xfec0_0000;

/// Where the window for the tables begins.
pub const ACPI_BASE: u64 = 0xe0000;

/// Where the window ends: the last 4 KiB below 1 MiB are left to the SMBIOS
/// tables.
pub const ACPI_LIMIT: u64 = 0xff000;

/// Where the RSDP is: an operating system finds it by scanning from here.
pub const RSDP_ADDR: u64 = 0xe0000;

/// How long the RSDP is.
pub const RSDP_LEN: u64 = 36;

/// The sleep control register; the sleep status register is the next port.
pub const SLEEP_CONTROL_PORT: u16 = 0x600;

/// The sleep-enable bit of the sleep control register.
pub const SLP_EN: u8 = 0x20;

/// The reset register.
pub const RESET_PORT: u16 = 0x604;

/// What restarts the guest when it is written there.
pub const RESET_VALUE: u8 = 0x01;

/// The byte that brings the sum of `s` to zero, modulo 256.
pub open spec fn complement(s: Seq<u8>) -> u8 {
    ((256 - sum8(s)) % 256) as u8
}

/// The byte that brings the sum of `bytes` to zero, modulo 256.
pub fn checksum(bytes: &[u8]) -> (r: u8)
    ensures
        r == complement(bytes@),
{
    let sum: u8 = sum_bytes(bytes);
    0u8.wrapping_sub(sum)
}

/// Setting a byte that is zero to the complement brings the sum to zero.
pub proof fn lemma_complement(s: Seq<u8>, i: int)
    requires
        0 <= i < s.len(),
        s[i] == 0,
    ensures
        sum8(s.update(i, complement(s))) == 0,
{
    lemma_byte_sum_update(s, i, complement(s));
    let c = complement(s) as int;
    let b = byte_sum(s) as int;
    assert((b + c) % 256 == 0) by {
        assert(c == (256 - b % 256) % 256);
    }
}

/// A table header with length and checksum still zero.
pub open spec fn header(signature: Seq<u8>, revision: u8, oem_table_id: Seq<u8>) -> Seq<u8> {
    signature + le32(0) + seq![revision, 0u8] + oem_id() + oem_table_id + le32(1) + compiler_id() + le32(
        1,
    )
}

/// `HYPRBG`.
pub open spec fn oem_id() -> Seq<u8> {
    seq![0x48u8, 0x59u8, 0x50u8, 0x52u8, 0x42u8, 0x47u8]
}

/// `HYBG`.
pub open spec fn compiler_id() -> Seq<u8> {
    seq![0x48u8, 0x59u8, 0x42u8, 0x47u8]
}

/// A header for the table `signature`. Length and checksum are filled in by
/// `finish`.
pub fn sdt_header(signature: [u8; 4], revision: u8, oem_table_id: [u8; 8]) -> (r: Vec<u8>)
    ensures
        r@ == header(signature@, revision, oem_table_id@),
        r@.len() == 36,
{
    let oem: [u8; 6] = [0x48, 0x59, 0x50, 0x52, 0x42, 0x47];
    let compiler: [u8; 4] = [0x48, 0x59, 0x42, 0x47];
    assert(oem@ =~= oem_id());
    assert(compiler@ =~= compiler_id());
    let mut h: Vec<u8> = Vec::new();
    push_slice(&mut h, signature.as_slice());
    push_u32(&mut h, 0);
    h.push(revision);
    h.push(0);
    push_slice(&mut h, oem.as_slice());
    push_slice(&mut h, oem_table_id.as_slice());
    push_u32(&mut h, 1);
    push_slice(&mut h, compiler.as_slice());
    push_u32(&mut h, 1);
    assert(h@ =~= header(signature@, revision, oem_table_id@));
    h
}

/// `t` with its length in bytes 4 to 7 and, in byte 9, what brings the sum of
/// all bytes to zero.
pub open spec fn finished(t: Seq<u8>) -> Seq<u8> {
    let u = splice(t, 4, le32((t.len() % 0x1_0000_0000) as u32)).update(9, 0u8);
    u.update(9, complement(u))
}

/// Completes a table.
pub fn finish(table: Vec<u8>) -> (r: Vec<u8>)
    requires
        table@.len() >= 10,
    ensures
        r@ == finished(table@),
{
    let mut t = table;
    let len: u32 = (t.len() as u64 % 0x1_0000_0000) as u32;
    let mut l: Vec<u8> = Vec::new();
    push_u32(&mut l, len);
    assert(l@ =~= le32(len));
    crate::bytes::put(&mut t, 4, l.as_slice());
    t.set(9, 0);
    let c: u8 = checksum(t.as_slice());
    t.set(9, c);
    t
}

/// A finished table sums to zero, and says how long it is.
pub proof fn law_finished_sums_to_zero(t: Seq<u8>)
    requires
        t.len() >= 10,
    ensures
        sum8(finished(t)) == 0,
        finished(t).len() == t.len(),
        t.len() <= u32::MAX ==> crate::bytes::u32_at(finished(t), 4) == t.len(),
{
    let l = (t.len() % 0x1_0000_0000) as u32;
    let u = splice(t, 4, le32(l)).update(9, 0u8);
    lemma_complement(u, 9);
    let f = finished(t);
    assert forall|k: int| 0 <= k < 4 implies f[4 + k] == #[trigger] le32(l)[k] by {}
    crate::bytes::lemma_u32_le(f, 4, l);
}

/// The MADT's entries for the first `n` CPUs: each is its own local APIC.
pub open spec fn cpu_entries(n: nat) -> Seq<u8>
    decreases n,
{
    if n == 0 {
        seq![]
    } else {
        cpu_entries((n - 1) as nat) + (seq![0u8, 8u8, (n - 1) as u8, (n - 1) as u8] + le32(1))
    }
}

/// The MADT of a machine with `num_cpus` CPUs.
#[verifier::opaque]
pub open spec fn madt(num_cpus: u8) -> Seq<u8> {
    finished(
        header(
            seq![0x41u8, 0x50u8, 0x49u8, 0x43u8],
            3,
            seq![0x48u8, 0x42u8, 0x4du8, 0x41u8, 0x44u8, 0x54u8, 0u8, 0u8],
        ) + le32(LAPIC_ADDR) + le32(1) + cpu_entries(num_cpus as nat) + (seq![1u8, 12u8, 0u8, 0u8]
            + le32(IOAPIC_ADDR) + le32(0)),
    )
}

/// The MADT of a machine with `num_cpus` CPUs.
pub fn build_madt(num_cpus: u8) -> (r: Vec<u8>)
    ensures
        r@ == madt(num_cpus),
{
    proof {
        reveal(madt);
    }
    let sig: [u8; 4] = [0x41, 0x50, 0x49, 0x43];
    let id: [u8; 8] = [0x48, 0x42, 0x4d, 0x41, 0x44, 0x54, 0, 0];
    assert(sig@ =~= seq![0x41u8, 0x50u8, 0x49u8, 0x43u8]);
    assert(id@ =~= seq![0x48u8, 0x42u8, 0x4du8, 0x41u8, 0x44u8, 0x54u8, 0u8, 0u8]);
    let mut t: Vec<u8> = sdt_header(sig, 3, id);
    let ghost h = t@;
    push_u32(&mut t, LAPIC_ADDR);
    push_u32(&mut t, 1);
    let ghost start = h + le32(LAPIC_ADDR) + le32(1);
    let mut cpu: u8 = 0;
    assert(t@ =~= start + cpu_entries(0));
    while cpu < num_cpus
        invariant
            cpu <= num_cpus,
            start.len() == 44,
            t@ == start + cpu_entries(cpu as nat),
        decreases num_cpus - cpu,
    {
        let ghost before = t@;
        t.push(0);
        t.push(8);
        t.push(cpu);
        t.push(cpu);
        push_u32(&mut t, 1);
        assert(t@ =~= before + (seq![0u8, 8u8, cpu, cpu] + le32(1)));
        cpu += 1;
        assert(t@ =~= start + cpu_entries(cpu as nat));
    }
    let ghost before = t@;
    t.push(1);
    t.push(12);
    t.push(0);
    t.push(0);
    push_u32(&mut t, IOAPIC_ADDR);
    push_u32(&mut t, 0);
    assert(t@ =~= before + (seq![1u8, 12u8, 0u8, 0u8] + le32(IOAPIC_ADDR) + le32(0)));
    finish(t)
}

/// An address structure for a byte-wide I/O port.
pub open spec fn io_gas(port: u16) -> Seq<u8> {
    seq![1u8, 8u8, 0u8, 1u8] + le64(port as u64)
}

/// An address structure that says there is no such register block.
pub fn zero_gas() -> (r: [u8; 12])
    ensures
        r@ == zeroes(12),
{
    let r: [u8; 12] = [0, 0, 0, 0, 0, 0, 0, 0, 0, 0, 0, 0];
    assert(r@ =~= zeroes(12));
    r
}

/// An address structure for a byte-wide I/O port.
pub fn system_io_gas(port: u16) -> (r: Vec<u8>)
    ensures
        r@ == io_gas(port),
{
    let mut g: Vec<u8> = Vec::new();
    g.push(1);
    g.push(8);
    g.push(0);
    g.push(1);
    push_u64(&mut g, port as u64);
    assert(g@ =~= io_gas(port));
    g
}

/// What follows the header of the FADT, up to the reset register.
pub open spec fn fadt_fixed(dsdt_addr: u32) -> Seq<u8> {
    le32(0) + le32(dsdt_addr) + zeroes(52) + le16(0xffff) + le16(0xffff) + zeroes(9) + le16(0x000c)
        + zeroes(1) + le32(0x0010_0401)
}

/// What follows that: the reset register, the 64-bit pointers, eight register
/// blocks that are absent, and the sleep registers.
pub open spec fn fadt_extended(dsdt_addr: u32) -> Seq<u8> {
    io_gas(RESET_PORT) + seq![RESET_VALUE] + zeroes(11) + le64(dsdt_addr as u64) + zeroes(96) + io_gas(
        SLEEP_CONTROL_PORT,
    ) + io_gas((SLEEP_CONTROL_PORT + 1) as u16) + le64(0)
}

/// The FADT of a machine whose DSDT is at `dsdt_addr`.
#[verifier::opaque]
pub open spec fn fadt(dsdt_addr: u32) -> Seq<u8> {
    finished(
        header(
            seq![0x46u8, 0x41u8, 0x43u8, 0x50u8],
            6,
            seq![0x48u8, 0x42u8, 0x46u8, 0x41u8, 0x44u8, 0x54u8, 0u8, 0u8],
        ) + fadt_fixed(dsdt_addr) + fadt_extended(dsdt_addr),
    )
}

fn push_fadt_fixed(t: &mut Vec<u8>, dsdt_addr: u32)
    ensures
        final(t)@ == old(t)@ + fadt_fixed(dsdt_addr),
{
    // No FACS, then the DSDT.
    push_u32(t, 0);
    push_u32(t, dsdt_addr);
    // Model, profile, SCI, SMI command and its four values; eight event and
    // control blocks; their lengths, the GPE1 base and C-state control.
    push_zeroes(t, 52);
    // Neither C2 nor C3 is supported.
    push_u16(t, 0xffff);
    push_u16(t, 0xffff);
    // Flush size and stride, duty cycle, alarms, century.
    push_zeroes(t, 9);
    // No VGA, no MSI restriction: the boot architecture flags.
    push_u16(t, 0x000c);
    push_zeroes(t, 1);
    // Hardware-reduced, with a reset register.
    push_u32(t, 0x0010_0401);
    assert(t@ =~= old(t)@ + fadt_fixed(dsdt_addr));
}

fn push_fadt_extended(t: &mut Vec<u8>, dsdt_addr: u32)
    ensures
        final(t)@ == old(t)@ + fadt_extended(dsdt_addr),
{
    let reset = system_io_gas(RESET_PORT);
    let sleep = system_io_gas(SLEEP_CONTROL_PORT);
    let status = system_io_gas(SLEEP_CONTROL_PORT + 1);
    push_slice(t, reset.as_slice());
    t.push(RESET_VALUE);
    // ARM flags, minor revision and the 64-bit FACS pointer.
    push_zeroes(t, 11);
    push_u64(t, dsdt_addr as u64);
    let none = zero_gas();
    let ghost before = t@;
    let mut i: usize = 0;
    assert(t@ =~= before + zeroes(0));
    while i < 8
        invariant
            i <= 8,
            none@ == zeroes(12),
            t@ == before + zeroes((12 * i) as nat),
        decreases 8 - i,
    {
        push_slice(t, none.as_slice());
        i += 1;
        assert(t@ =~= before + zeroes((12 * i) as nat));
    }
    push_slice(t, sleep.as_slice());
    push_slice(t, status.as_slice());
    push_u64(t, 0);
    assert(t@ =~= old(t)@ + fadt_extended(dsdt_addr));
}

/// The FADT of a machine whose DSDT is at `dsdt_addr`.
pub fn build_fadt(dsdt_addr: u32) -> (r: Vec<u8>)
    ensures
        r@ == fadt(dsdt_addr),
{
    proof {
        reveal(fadt);
    }
    let sig: [u8; 4] = [0x46, 0x41, 0x43, 0x50];
    let id: [u8; 8] = [0x48, 0x42, 0x46, 0x41, 0x44, 0x54, 0, 0];
    assert(sig@ =~= seq![0x46u8, 0x41u8, 0x43u8, 0x50u8]);
    assert(id@ =~= seq![0x48u8, 0x42u8, 0x46u8, 0x41u8, 0x44u8, 0x54u8, 0u8, 0u8]);
    let mut t: Vec<u8> = sdt_header(sig, 6, id);
    push_fadt_fixed(&mut t, dsdt_addr);
    push_fadt_extended(&mut t, dsdt_addr);
    finish(t)
}

/// The XSDT that lists the tables at `entries`.
#[verifier::opaque]
pub open spec fn xsdt(entries: Seq<u64>) -> Seq<u8> {
    finished(
        header(
            seq![0x58u8, 0x53u8, 0x44u8, 0x54u8],
            1,
            seq![0x48u8, 0x42u8, 0x58u8, 0x53u8, 0x44u8, 0x54u8, 0u8, 0u8],
        ) + le64_all(entries),
    )
}

/// The XSDT that lists the tables at `entries`.
pub fn build_xsdt(entries: &[u64]) -> (r: Vec<u8>)
    ensures
        r@ == xsdt(entries@),
{
    proof {
        reveal(xsdt);
    }
    let sig: [u8; 4] = [0x58, 0x53, 0x44, 0x54];
    let id: [u8; 8] = [0x48, 0x42, 0x58, 0x53, 0x44, 0x54, 0, 0];
    assert(sig@ =~= seq![0x58u8, 0x53u8, 0x44u8, 0x54u8]);
    assert(id@ =~= seq![0x48u8, 0x42u8, 0x58u8, 0x53u8, 0x44u8, 0x54u8, 0u8, 0u8]);
    let mut t: Vec<u8> = sdt_header(sig, 1, id);
    push_u64_all(&mut t, entries);
    finish(t)
}

/// The RSDT that lists the tables at `entries`.
#[verifier::opaque]
pub open spec fn rsdt(entries: Seq<u32>) -> Seq<u8> {
    finished(
        header(
            seq![0x52u8, 0x53u8, 0x44u8, 0x54u8],
            1,
            seq![0x48u8, 0x42u8, 0x52u8, 0x53u8, 0x44u8, 0x54u8, 0u8, 0u8],
        ) + le32_all(entries),
    )
}

/// The RSDT that lists the tables at `entries`.
pub fn build_rsdt(entries: &[u32]) -> (r: Vec<u8>)
    ensures
        r@ == rsdt(entries@),
{
    proof {
        reveal(rsdt);
    }
    let sig: [u8; 4] = [0x52, 0x53, 0x44, 0x54];
    let id: [u8; 8] = [0x48, 0x42, 0x52, 0x53, 0x44, 0x54, 0, 0];
    assert(sig@ =~= seq![0x52u8, 0x53u8, 0x44u8, 0x54u8]);
    assert(id@ =~= seq![0x48u8, 0x42u8, 0x52u8, 0x53u8, 0x44u8, 0x54u8, 0u8, 0u8]);
    let mut t: Vec<u8> = sdt_header(sig, 1, id);
    push_u32_all(&mut t, entries);
    finish(t)
}

/// `RSD PTR `.
pub open spec fn rsdp_signature() -> Seq<u8> {
    seq![0x52u8, 0x53u8, 0x44u8, 0x20u8, 0x50u8, 0x54u8, 0x52u8, 0x20u8]
}

/// The RSDP with both checksums still zero.
pub open spec fn rsdp_blank(rsdt_addr: u32, xsdt_addr: u64) -> Seq<u8> {
    rsdp_signature() + seq![0u8] + oem_id() + seq![2u8] + le32(rsdt_addr) + le32(36) + le64(xsdt_addr)
        + zeroes(4)
}

/// The RSDP: the first checksum covers the first 20 bytes, the second all 36.
#[verifier::opaque]
pub open spec fn rsdp(rsdt_addr: u32, xsdt_addr: u64) -> Seq<u8> {
    let b = rsdp_blank(rsdt_addr, xsdt_addr);
    let c = b.update(8, complement(b.take(20)));
    c.update(32, complement(c))
}

/// The RSDP that points at the RSDT and the XSDT.
pub fn build_rsdp(rsdt_addr: u32, xsdt_addr: u64) -> (r: Vec<u8>)
    ensures
        r@ == rsdp(rsdt_addr, xsdt_addr),
        r@.len() == 36,
{
    proof {
        reveal(rsdp);
    }
    let sig: [u8; 8] = [0x52, 0x53, 0x44, 0x20, 0x50, 0x54, 0x52, 0x20];
    let oem: [u8; 6] = [0x48, 0x59, 0x50, 0x52, 0x42, 0x47];
    assert(sig@ =~= rsdp_signature());
    assert(oem@ =~= oem_id());
    let mut r: Vec<u8> = Vec::new();
    push_slice(&mut r, sig.as_slice());
    r.push(0);
    push_slice(&mut r, oem.as_slice());
    r.push(2);
    push_u32(&mut r, rsdt_addr);
    push_u32(&mut r, 36);
    push_u64(&mut r, xsdt_addr);
    push_zeroes(&mut r, 4);
    assert(r@ =~= rsdp_blank(rsdt_addr, xsdt_addr));
    let first: Vec<u8> = crate::bytes::copy_range(r.as_slice(), 0, 20);
    assert(first@ =~= r@.take(20));
    r.set(8, checksum(first.as_slice()));
    let c: u8 = checksum(r.as_slice());
    r.set(32, c);
    r
}

/// Both checksums of the RSDP hold.
pub proof fn law_rsdp_sums_to_zero(rsdt_addr: u32, xsdt_addr: u64)
    ensures
        rsdp(rsdt_addr, xsdt_addr).len() == 36,
        sum8(rsdp(rsdt_addr, xsdt_addr).take(20)) == 0,
        sum8(rsdp(rsdt_addr, xsdt_addr)) == 0,
{
    reveal(rsdp);
    let b = rsdp_blank(rsdt_addr, xsdt_addr);
    assert(b.len() == 36);
    assert(b[8] == 0 && b[32] == 0);
    let c = b.update(8, complement(b.take(20)));
    lemma_complement(b.take(20), 8);
    assert(rsdp(rsdt_addr, xsdt_addr).take(20) =~= b.take(20).update(8, complement(b.take(20))));
    lemma_complement(c, 32);
}

/// The next multiple of 16 that is not below `n`.
pub open spec fn align_up(n: int) -> int {
    (n + 15) / 16 * 16
}

/// A table, what messages call it, and where it goes.
pub struct PlacedTable {
    pub name: Seq<char>,
    pub at: int,
    pub bytes: Seq<u8>,
}

impl PlacedTable {
    /// The address behind the table.
    pub open spec fn end(self) -> int {
        self.at + self.bytes.len()
    }
}

/// The tables of a machine in the order in which they are placed, each at the
/// first aligned address behind the one before it.
pub open spec fn acpi_tables(dsdt: Seq<u8>, num_cpus: u8) -> Seq<PlacedTable> {
    let dsdt_at = RSDP_ADDR + 48;
    let fadt_at = align_up(dsdt_at + dsdt.len());
    let fadt_bytes = fadt(dsdt_at as u32);
    let madt_at = align_up(fadt_at + fadt_bytes.len());
    let madt_bytes = madt(num_cpus);
    let xsdt_at = align_up(madt_at + madt_bytes.len());
    let xsdt_bytes = xsdt(seq![fadt_at as u64, madt_at as u64]);
    let rsdt_at = align_up(xsdt_at + xsdt_bytes.len());
    let rsdt_bytes = rsdt(seq![fadt_at as u32, madt_at as u32]);
    seq![
        PlacedTable { name: "DSDT"@, at: dsdt_at, bytes: dsdt },
        PlacedTable { name: "FADT"@, at: fadt_at, bytes: fadt_bytes },
        PlacedTable { name: "MADT"@, at: madt_at, bytes: madt_bytes },
        PlacedTable { name: "XSDT"@, at: xsdt_at, bytes: xsdt_bytes },
        PlacedTable { name: "RSDT"@, at: rsdt_at, bytes: rsdt_bytes },
    ]
}

/// How many of the tables, from table `k` on, come before the first that does
/// not fit in the window.
pub open spec fn fitting(ts: Seq<PlacedTable>, k: nat) -> nat
    decreases ts.len() - k,
{
    if k >= ts.len() || ts[k as int].end() > ACPI_LIMIT {
        k
    } else {
        fitting(ts, k + 1)
    }
}

/// `mem` with the first `k` tables in their places.
pub open spec fn with_tables(mem: Seq<u8>, ts: Seq<PlacedTable>, k: nat) -> Seq<u8>
    decreases k,
{
    if k == 0 {
        mem
    } else {
        splice(with_tables(mem, ts, (k - 1) as nat), ts[k - 1].at, ts[k - 1].bytes)
    }
}

/// `mem` with every table in its place, and the RSDP that points at them.
pub open spec fn acpi_image(mem: Seq<u8>, ts: Seq<PlacedTable>) -> Seq<u8> {
    splice(with_tables(mem, ts, 5), RSDP_ADDR as int, rsdp(ts[4].at as u32, ts[3].at as u64))
}

/// The message for a table that does not fit.
pub open spec fn overrun(t: PlacedTable) -> Seq<char> {
    "ACPI "@ + t.name + " table ("@ + dec(t.bytes.len())
        + " bytes) overruns the 126976 bytes of BIOS-area window at 0xe0000 — reduce --smp, or move the tables"@
}

/// Puts `table` at `*next` and moves `*next` to the first aligned address
/// behind it. A table that would leave the window is not written.
fn place(mem: &mut GuestMemory, next: &mut u64, name: &str, table: &[u8]) -> (r: Result<u64, HyperbugError>)
    requires
        *old(next) <= ACPI_LIMIT,
        *old(next) % 16 == 0,
        old(mem)@.len() >= ACPI_LIMIT,
    ensures
        final(mem)@.len() == old(mem)@.len(),
        ({
            let t = PlacedTable { name: name@, at: *old(next) as int, bytes: table@ };
            match r {
                Ok(addr) => {
                    &&& t.end() <= ACPI_LIMIT
                    &&& addr == *old(next)
                    &&& *final(next) == align_up(t.end())
                    &&& *final(next) <= ACPI_LIMIT
                    &&& final(mem)@ == splice(old(mem)@, t.at, t.bytes)
                },
                Err(e) => {
                    &&& t.end() > ACPI_LIMIT
                    &&& e matches HyperbugError::Config(m) && m@ == overrun(t)
                    &&& *final(next) == *old(next)
                    &&& final(mem)@ == old(mem)@
                },
            }
        }),
{
    let addr: u64 = *next;
    if table.len() as u64 > ACPI_LIMIT - addr {
        let n = dec_string(table.len() as u64);
        return Err(
            HyperbugError::Config(
                cat5(
                    "ACPI ",
                    name,
                    " table (",
                    n.as_str(),
                    " bytes) overruns the 126976 bytes of BIOS-area window at 0xe0000 — reduce --smp, or move the tables",
                ),
            ),
        );
    }
    mem.write_slice_unchecked_boot_only(addr, table);
    let end: u64 = addr + table.len() as u64;
    *next = (end + 15) / 16 * 16;
    Ok(addr)
}

proof fn lemma_fitting(ts: Seq<PlacedTable>, k: nat, n: nat)
    requires
        k <= n <= ts.len(),
        forall|i: int| k <= i < n ==> (#[trigger] ts[i]).end() <= ACPI_LIMIT,
        n < ts.len() ==> ts[n as int].end() > ACPI_LIMIT,
    ensures
        fitting(ts, k) == n,
    decreases n - k,
{
    if k < n {
        assert(ts[k as int].end() <= ACPI_LIMIT);
        lemma_fitting(ts, k + 1, n);
    }
}

/// Writes the tables of a machine with `num_cpus` CPUs and the definition
/// block `dsdt` into guest memory. If a table does not fit, those before it
/// stay written.
pub fn setup_acpi(mem: &mut GuestMemory, num_cpus: u8, dsdt: &[u8]) -> (r: Result<(), HyperbugError>)
    requires
        old(mem)@.len() >= ACPI_LIMIT,
    ensures
        final(mem)@.len() == old(mem)@.len(),
        ({
            let ts = acpi_tables(dsdt@, num_cpus);
            let n = fitting(ts, 0);
            match r {
                Ok(_) => n == 5 && final(mem)@ == acpi_image(old(mem)@, ts),
                Err(e) => {
                    &&& n < 5
                    &&& e matches HyperbugError::Config(m) && m@ == overrun(ts[n as int])
                    &&& final(mem)@ == with_tables(old(mem)@, ts, n)
                },
            }
        }),
{
    let ghost ts = acpi_tables(dsdt@, num_cpus);
    let ghost m0 = mem@;
    proof {
        reveal_with_fuel(with_tables, 6);
    }
    let mut next: u64 = RSDP_ADDR + 48;
    match place(mem, &mut next, "DSDT", dsdt) {
        Ok(_) => {},
        Err(e) => {
            proof {
                lemma_fitting(ts, 0, 0);
            }
            return Err(e);
        },
    }
    let fadt_bytes = build_fadt((RSDP_ADDR + 48) as u32);
    let fadt_addr: u64 = match place(mem, &mut next, "FADT", fadt_bytes.as_slice()) {
        Ok(a) => a,
        Err(e) => {
            proof {
                lemma_fitting(ts, 0, 1);
            }
            return Err(e);
        },
    };
    let madt_bytes = build_madt(num_cpus);
    let madt_addr: u64 = match place(mem, &mut next, "MADT", madt_bytes.as_slice()) {
        Ok(a) => a,
        Err(e) => {
            proof {
                lemma_fitting(ts, 0, 2);
            }
            return Err(e);
        },
    };
    let wide: [u64; 2] = [fadt_addr, madt_addr];
    assert(wide@ =~= seq![fadt_addr, madt_addr]);
    let xsdt_bytes = build_xsdt(wide.as_slice());
    let xsdt_addr: u64 = match place(mem, &mut next, "XSDT", xsdt_bytes.as_slice()) {
        Ok(a) => a,
        Err(e) => {
            proof {
                lemma_fitting(ts, 0, 3);
            }
            return Err(e);
        },
    };
    let narrow: [u32; 2] = [fadt_addr as u32, madt_addr as u32];
    assert(narrow@ =~= seq![fadt_addr as u32, madt_addr as u32]);
    let rsdt_bytes = build_rsdt(narrow.as_slice());
    let rsdt_addr: u64 = match place(mem, &mut next, "RSDT", rsdt_bytes.as_slice()) {
        Ok(a) => a,
        Err(e) => {
            proof {
                lemma_fitting(ts, 0, 4);
            }
            return Err(e);
        },
    };
    proof {
        lemma_fitting(ts, 0, 5);
    }
    let pointer = build_rsdp(rsdt_addr as u32, xsdt_addr);
    mem.write_slice_unchecked_boot_only(RSDP_ADDR, pointer.as_slice());
    Ok(())
}

/// What of the tables that were placed before stays: every table is found
/// whole at its address, none shares a byte with another or with the RSDP,
/// and no byte outside the window is touched. Here for the first `k`.
proof fn lemma_tables_intact(mem: Seq<u8>, ts: Seq<PlacedTable>, k: nat)
    requires
        k <= ts.len(),
        mem.len() >= ACPI_LIMIT,
        forall|i: int|
            0 <= i < k ==> RSDP_ADDR + 36 <= (#[trigger] ts[i]).at && ts[i].end() <= ACPI_LIMIT,
        forall|i: int, j: int| 0 <= i < j < k ==> (#[trigger] ts[i]).end() <= (#[trigger] ts[j]).at,
    ensures
        with_tables(mem, ts, k).len() == mem.len(),
        forall|i: int|
            0 <= i < k ==> with_tables(mem, ts, k).subrange((#[trigger] ts[i]).at, ts[i].end())
                == ts[i].bytes,
        forall|a: int|
            0 <= a < mem.len() && !(RSDP_ADDR + 36 <= a < ACPI_LIMIT) ==> #[trigger] with_tables(
                mem,
                ts,
                k,
            )[a] == mem[a],
    decreases k,
{
    if k > 0 {
        let p = (k - 1) as nat;
        lemma_tables_intact(mem, ts, p);
        let was = with_tables(mem, ts, p);
        let now = with_tables(mem, ts, k);
        assert forall|i: int| 0 <= i < k implies now.subrange((#[trigger] ts[i]).at, ts[i].end())
            == ts[i].bytes by {
            if i < p {
                assert(ts[i].end() <= ts[p as int].at);
                assert(was.subrange(ts[i].at, ts[i].end()) == ts[i].bytes);
                assert(now.subrange(ts[i].at, ts[i].end()) =~= was.subrange(ts[i].at, ts[i].end()));
            } else {
                assert(now.subrange(ts[i].at, ts[i].end()) =~= ts[i].bytes);
            }
        }
    }
}

/// The tables of a machine that fit follow one another inside the window,
/// behind the RSDP, without sharing a byte; each is found whole in memory and
/// so is the RSDP; and memory outside the window is as it was.
pub proof fn law_tables_do_not_overlap(mem: Seq<u8>, dsdt: Seq<u8>, num_cpus: u8)
    requires
        mem.len() >= ACPI_LIMIT,
        fitting(acpi_tables(dsdt, num_cpus), 0) == 5,
    ensures
        ({
            let ts = acpi_tables(dsdt, num_cpus);
            let image = acpi_image(mem, ts);
            &&& image.len() == mem.len()
            &&& forall|i: int|
                0 <= i < 5 ==> RSDP_ADDR + RSDP_LEN <= (#[trigger] ts[i]).at && ts[i].end() <= ACPI_LIMIT
                    && ts[i].at % 16 == 0
            &&& forall|i: int, j: int|
                0 <= i < j < 5 ==> (#[trigger] ts[i]).end() <= (#[trigger] ts[j]).at
            &&& forall|i: int|
                0 <= i < 5 ==> image.subrange((#[trigger] ts[i]).at, ts[i].end()) == ts[i].bytes
            &&& image.subrange(RSDP_ADDR as int, RSDP_ADDR + RSDP_LEN) == rsdp(
                ts[4].at as u32,
                ts[3].at as u64,
            )
            &&& forall|a: int|
                0 <= a < mem.len() && !(ACPI_BASE <= a < ACPI_LIMIT) ==> #[trigger] image[a] == mem[a]
        }),
{
    let ts = acpi_tables(dsdt, num_cpus);
    let image = acpi_image(mem, ts);
    reveal_with_fuel(fitting, 6);
    assert(ts[0].end() <= ACPI_LIMIT && ts[1].end() <= ACPI_LIMIT && ts[2].end() <= ACPI_LIMIT && ts[3].end()
        <= ACPI_LIMIT && ts[4].end() <= ACPI_LIMIT);
    assert(ts[0].end() <= ts[1].at && ts[1].end() <= ts[2].at && ts[2].end() <= ts[3].at && ts[3].end()
        <= ts[4].at);
    assert(ts[0].at <= ts[0].end() && ts[1].at <= ts[1].end() && ts[2].at <= ts[2].end() && ts[3].at
        <= ts[3].end());
    lemma_tables_intact(mem, ts, 5);
    let t5 = with_tables(mem, ts, 5);
    law_rsdp_sums_to_zero(ts[4].at as u32, ts[3].at as u64);
    assert forall|i: int| 0 <= i < 5 implies image.subrange((#[trigger] ts[i]).at, ts[i].end())
        == ts[i].bytes by {
        assert(t5.subrange(ts[i].at, ts[i].end()) == ts[i].bytes);
        assert(image.subrange(ts[i].at, ts[i].end()) =~= t5.subrange(ts[i].at, ts[i].end()));
    }
    assert(image.subrange(RSDP_ADDR as int, RSDP_ADDR + RSDP_LEN) =~= rsdp(
        ts[4].at as u32,
        ts[3].at as u64,
    ));
}

/// Every table but the given DSDT sums to zero.
pub proof fn law_tables_sum_to_zero(dsdt: Seq<u8>, num_cpus: u8)
    ensures
        forall|i: int|
            1 <= i < 5 ==> sum8((#[trigger] acpi_tables(dsdt, num_cpus)[i]).bytes) == 0,
{
    reveal(fadt);
    reveal(madt);
    reveal(xsdt);
    reveal(rsdt);
    let ts = acpi_tables(dsdt, num_cpus);
    let f = header(
        seq![0x46u8, 0x41u8, 0x43u8, 0x50u8],
        6,
        seq![0x48u8, 0x42u8, 0x46u8, 0x41u8, 0x44u8, 0x54u8, 0u8, 0u8],
    ) + fadt_fixed((RSDP_ADDR + 48) as u32) + fadt_extended((RSDP_ADDR + 48) as u32);
    law_finished_sums_to_zero(f);
    let m = header(
        seq![0x41u8, 0x50u8, 0x49u8, 0x43u8],
        3,
        seq![0x48u8, 0x42u8, 0x4du8, 0x41u8, 0x44u8, 0x54u8, 0u8, 0u8],
    ) + le32(LAPIC_ADDR) + le32(1) + cpu_entries(num_cpus as nat) + (seq![1u8, 12u8, 0u8, 0u8] + le32(
        IOAPIC_ADDR,
    ) + le32(0));
    law_finished_sums_to_zero(m);
    let x = header(
        seq![0x58u8, 0x53u8, 0x44u8, 0x54u8],
        1,
        seq![0x48u8, 0x42u8, 0x58u8, 0x53u8, 0x44u8, 0x54u8, 0u8, 0u8],
    ) + le64_all(seq![ts[1].at as u64, ts[2].at as u64]);
    law_finished_sums_to_zero(x);
    let r = header(
        seq![0x52u8, 0x53u8, 0x44u8, 0x54u8],
        1,
        seq![0x48u8, 0x42u8, 0x52u8, 0x53u8, 0x44u8, 0x54u8, 0u8, 0u8],
    ) + le32_all(seq![ts[1].at as u32, ts[2].at as u32]);
    law_finished_sums_to_zero(r);
}

proof fn lemma_cpu_entries_len(n: nat)
    ensures
        cpu_entries(n).len() == 8 * n,
    decreases n,
{
    if n > 0 {
        lemma_cpu_entries_len((n - 1) as nat);
    }
}

/// However many CPUs a machine has, its tables fit beside every DSDT of up to
/// 100 KiB.
#[verifier::spinoff_prover]
pub proof fn law_tables_fit(dsdt: Seq<u8>, num_cpus: u8)
    requires
        dsdt.len() <= 102_400,
    ensures
        fitting(acpi_tables(dsdt, num_cpus), 0) == 5,
{
    let ts = acpi_tables(dsdt, num_cpus);
    law_fadt_describes_the_machine(ts[0].at as u32);
    lemma_madt_front(num_cpus);
    law_root_tables_list_their_entries(
        seq![ts[1].at as u64, ts[2].at as u64],
        seq![ts[1].at as u32, ts[2].at as u32],
        0,
    );
    assert(ts[1].bytes.len() == 276);
    assert(ts[2].bytes.len() == 56 + 8 * num_cpus);
    assert(ts[3].bytes.len() == 52);
    assert(ts[4].bytes.len() == 44);
    lemma_fitting(ts, 0, 5);
}

/// The register that a guest writes to shut down.
pub struct SleepControl {
    pub exit: ExitSlot,
}

/// What is recorded once `outcome` is asked for as well.
pub open spec fn requested(slot: Option<Outcome>, outcome: Outcome) -> Option<Outcome> {
    if slot is Some {
        slot
    } else {
        Some(outcome)
    }
}

impl SleepControl {
    /// A register that records a shutdown in `exit`.
    pub fn new(exit: ExitSlot) -> (r: Self)
        ensures
            r.exit == exit,
    {
        SleepControl { exit }
    }
}

impl Device for SleepControl {
    open spec fn reads(pre: Self, post: Self, offset: u64, before: Seq<u8>, after: Seq<u8>) -> bool {
        after == zeroes(before.len()) && post == pre
    }

    open spec fn writes(pre: Self, post: Self, offset: u64, data: Seq<u8>, irq: bool) -> bool {
        &&& !irq
        &&& post.exit@ == (if data.len() > 0 && data[0] & SLP_EN != 0 {
            requested(pre.exit@, Ok(GuestExit::CleanShutdown))
        } else {
            pre.exit@
        })
    }

    fn read(&mut self, offset: u64, data: &mut [u8]) {
        fill(data, 0);
        assert(data@ =~= zeroes(old(data)@.len()));
    }

    fn write(&mut self, offset: u64, data: &[u8]) -> (irq: bool) {
        if data.len() > 0 && data[0] & SLP_EN != 0 {
            request_exit(&mut self.exit, Ok(GuestExit::CleanShutdown));
        }
        false
    }
}

/// The register that a guest writes to restart.
pub struct ResetControl {
    pub exit: ExitSlot,
}

impl ResetControl {
    /// A register that records a restart in `exit`.
    pub fn new(exit: ExitSlot) -> (r: Self)
        ensures
            r.exit == exit,
    {
        ResetControl { exit }
    }
}

impl Device for ResetControl {
    open spec fn reads(pre: Self, post: Self, offset: u64, before: Seq<u8>, after: Seq<u8>) -> bool {
        after == zeroes(before.len()) && post == pre
    }

    open spec fn writes(pre: Self, post: Self, offset: u64, data: Seq<u8>, irq: bool) -> bool {
        &&& !irq
        &&& post.exit@ == (if data.len() > 0 && data[0] == RESET_VALUE {
            requested(pre.exit@, Ok(GuestExit::RequestedReboot))
        } else {
            pre.exit@
        })
    }

    fn read(&mut self, offset: u64, data: &mut [u8]) {
        fill(data, 0);
        assert(data@ =~= zeroes(old(data)@.len()));
    }

    fn write(&mut self, offset: u64, data: &[u8]) -> (irq: bool) {
        if data.len() > 0 && data[0] == RESET_VALUE {
            request_exit(&mut self.exit, Ok(GuestExit::RequestedReboot));
        }
        false
    }
}

proof fn lemma_finished_keeps(t: Seq<u8>, i: int)
    requires
        t.len() >= 10,
        0 <= i < t.len(),
        i < 4 || i == 8 || i >= 10,
    ensures
        finished(t)[i] == t[i],
        finished(t).len() == t.len(),
{
}

/// Whether a table begins with a signature, its own length, a revision and the
/// names of its maker.
pub open spec fn begins_as(t: Seq<u8>, signature: Seq<char>, revision: u8) -> bool {
    &&& t.len() >= 36
    &&& forall|k: int| 0 <= k < 4 ==> #[trigger] t[k] == signature[k] as u8
    &&& crate::bytes::u32_at(t, 4) == t.len()
    &&& t[8] == revision
    &&& forall|k: int| 0 <= k < 6 ==> #[trigger] t[10 + k] == "HYPRBG"@[k] as u8
    &&& crate::bytes::u32_at(t, 24) == 1
    &&& forall|k: int| 0 <= k < 4 ==> #[trigger] t[28 + k] == "HYBG"@[k] as u8
    &&& crate::bytes::u32_at(t, 32) == 1
}

#[verifier::spinoff_prover]
proof fn lemma_begins_as(signature: Seq<u8>, text: Seq<char>, revision: u8, id: Seq<u8>, rest: Seq<u8>)
    requires
        signature.len() == 4,
        text.len() == 4,
        id.len() == 8,
        forall|k: int| 0 <= k < 4 ==> #[trigger] signature[k] == text[k] as u8,
        rest.len() < 0x1000_0000,
    ensures
        begins_as(finished(header(signature, revision, id) + rest), text, revision),
        finished(header(signature, revision, id) + rest).len() == 36 + rest.len(),
        forall|k: int| 36 <= k < 36 + rest.len() ==> #[trigger] finished(header(signature, revision, id) + rest)[k] == rest[k - 36],
{
    reveal_strlit("HYPRBG");
    reveal_strlit("HYBG");
    let h = header(signature, revision, id);
    let t = h + rest;
    assert(h.len() == 36);
    let f = finished(t);
    law_finished_sums_to_zero(t);
    assert forall|i: int| 0 <= i < t.len() && (i < 4 || i == 8 || i >= 10) implies f[i] == #[trigger] t[i] by {
        lemma_finished_keeps(t, i);
    }
    assert(t[8] == revision);
    assert forall|k: int| 0 <= k < 4 implies #[trigger] f[k] == text[k] as u8 by {
        assert(t[k] == signature[k]);
    }
    assert forall|k: int| 0 <= k < 6 implies #[trigger] f[10 + k] == "HYPRBG"@[k] as u8 by {
        assert(t[10 + k] == oem_id()[k]);
    }
    assert forall|k: int| 0 <= k < 4 implies #[trigger] f[28 + k] == "HYBG"@[k] as u8 by {
        assert(t[28 + k] == compiler_id()[k]);
    }
    assert forall|k: int| 0 <= k < 4 implies f[24 + k] == #[trigger] le32(1)[k] by {
        assert(t[24 + k] == le32(1)[k]);
    }
    crate::bytes::lemma_u32_le(f, 24, 1);
    assert forall|k: int| 0 <= k < 4 implies f[32 + k] == #[trigger] le32(1)[k] by {
        assert(t[32 + k] == le32(1)[k]);
    }
    crate::bytes::lemma_u32_le(f, 32, 1);
    assert forall|k: int| 36 <= k < 36 + rest.len() implies #[trigger] f[k] == rest[k - 36] by {
        assert(t[k] == rest[k - 36]);
    }
}

proof fn lemma_cpu_entry(n: nat, i: int)
    requires
        0 <= i < n <= 256,
    ensures
        cpu_entries(n).len() == 8 * n,
        cpu_entries(n).subrange(8 * i, 8 * i + 8) == seq![0u8, 8u8, i as u8, i as u8, 1u8, 0u8, 0u8, 0u8],
    decreases n,
{
    let m = (n - 1) as nat;
    lemma_cpu_entries_len(m);
    let e = seq![0u8, 8u8, m as u8, m as u8] + le32(1);
    if i < m {
        lemma_cpu_entry(m, i);
        assert(cpu_entries(n).subrange(8 * i, 8 * i + 8) =~= cpu_entries(m).subrange(8 * i, 8 * i + 8));
    } else {
        assert(cpu_entries(n).subrange(8 * i, 8 * i + 8) =~= e);
        assert(e =~= seq![0u8, 8u8, i as u8, i as u8, 1u8, 0u8, 0u8, 0u8]);
    }
}

spec fn io_apic_entry() -> Seq<u8> {
    seq![1u8, 12u8, 0u8, 0u8] + le32(IOAPIC_ADDR) + le32(0)
}

spec fn madt_rest(n: nat) -> Seq<u8> {
    le32(LAPIC_ADDR) + le32(1) + cpu_entries(n) + io_apic_entry()
}

proof fn lemma_madt(num_cpus: u8)
    ensures
        ({
            let m = madt(num_cpus);
            let rest = madt_rest(num_cpus as nat);
            &&& begins_as(m, "APIC"@, 3)
            &&& rest.len() == 20 + 8 * num_cpus
            &&& m.len() == 36 + rest.len()
            &&& forall|k: int| 36 <= k < 36 + rest.len() ==> #[trigger] m[k] == rest[k - 36]
        }),
{
    reveal(madt);
    reveal_strlit("APIC");
    let n = num_cpus as nat;
    let rest = madt_rest(n);
    let sig = seq![0x41u8, 0x50u8, 0x49u8, 0x43u8];
    let id = seq![0x48u8, 0x42u8, 0x4du8, 0x41u8, 0x44u8, 0x54u8, 0u8, 0u8];
    let h = header(sig, 3, id);
    lemma_cpu_entries_len(n);
    assert(h + rest =~= h + le32(LAPIC_ADDR) + le32(1) + cpu_entries(n) + io_apic_entry());
    lemma_begins_as(sig, "APIC"@, 3, id, rest);
}

proof fn lemma_madt_front(num_cpus: u8)
    ensures
        ({
            let m = madt(num_cpus);
            &&& begins_as(m, "APIC"@, 3)
            &&& m.len() == 56 + 8 * num_cpus
            &&& crate::bytes::u32_at(m, 36) == 0xfee0_0000
            &&& crate::bytes::u32_at(m, 40) == 1
        }),
{
    lemma_madt(num_cpus);
    lemma_cpu_entries_len(num_cpus as nat);
    let m = madt(num_cpus);
    let rest = madt_rest(num_cpus as nat);
    assert forall|k: int| 0 <= k < 4 implies m[36 + k] == #[trigger] le32(LAPIC_ADDR)[k] by {
        assert(m[36 + k] == rest[k]);
    }
    crate::bytes::lemma_u32_le(m, 36, LAPIC_ADDR);
    assert forall|k: int| 0 <= k < 4 implies m[40 + k] == #[trigger] le32(1)[k] by {
        assert(m[40 + k] == rest[4 + k]);
    }
    crate::bytes::lemma_u32_le(m, 40, 1);
}

#[verifier::spinoff_prover]
proof fn lemma_madt_entry(num_cpus: u8, i: int)
    requires
        0 <= i < num_cpus,
    ensures
        ({
            let m = madt(num_cpus);
            &&& m[44 + 8 * i] == 0
            &&& m[45 + 8 * i] == 8
            &&& m[46 + 8 * i] == i
            &&& m[47 + 8 * i] == i
            &&& m[48 + 8 * i] == 1
            &&& m[49 + 8 * i] == 0
            &&& m[50 + 8 * i] == 0
            &&& m[51 + 8 * i] == 0
        }),
{
    lemma_madt(num_cpus);
    let n = num_cpus as nat;
    lemma_cpu_entry(n, i);
    let m = madt(num_cpus);
    let rest = madt_rest(n);
    let c = cpu_entries(n);
    let e = c.subrange(8 * i, 8 * i + 8);
    let at = 8 * i;
    assert(0 <= at && at + 8 <= c.len());
    assert forall|k: int| 0 <= k < 8 implies m[44 + at + k] == #[trigger] e[k] by {
        assert(m[44 + at + k] == rest[8 + at + k]);
        assert(rest[8 + at + k] == c[at + k]);
    }
    assert(m[44 + at + 0] == e[0] && m[44 + at + 1] == e[1] && m[44 + at + 2] == e[2] && m[44 + at + 3] == e[3]);
    assert(m[44 + at + 4] == e[4] && m[44 + at + 5] == e[5] && m[44 + at + 6] == e[6] && m[44 + at + 7] == e[7]);
}

proof fn lemma_madt_end(num_cpus: u8)
    ensures
        ({
            let m = madt(num_cpus);
            let end = 44 + 8 * num_cpus;
            &&& m[end] == 1
            &&& m[end + 1] == 12
            &&& m[end + 2] == 0
            &&& crate::bytes::u32_at(m, end + 4) == 0xfec0_0000
            &&& crate::bytes::u32_at(m, end + 8) == 0
        }),
{
    lemma_madt(num_cpus);
    let n = num_cpus as nat;
    lemma_cpu_entries_len(n);
    let m = madt(num_cpus);
    let rest = madt_rest(n);
    let io = io_apic_entry();
    let end = 44 + 8 * num_cpus;
    assert forall|k: int| 0 <= k < 12 implies m[end + k] == #[trigger] io[k] by {
        assert(m[end + k] == rest[end - 36 + k]);
    }
    assert(m[end + 0] == io[0] && m[end + 1] == io[1] && m[end + 2] == io[2]);
    assert forall|k: int| 0 <= k < 4 implies m[end + 4 + k] == #[trigger] le32(IOAPIC_ADDR)[k] by {
        assert(m[end + (4 + k)] == io[4 + k]);
    }
    crate::bytes::lemma_u32_le(m, end + 4, IOAPIC_ADDR);
    assert forall|k: int| 0 <= k < 4 implies m[end + 8 + k] == #[trigger] le32(0)[k] by {
        assert(m[end + (8 + k)] == io[8 + k]);
    }
    crate::bytes::lemma_u32_le(m, end + 8, 0);
}

/// The table of interrupt controllers lists every CPU once, in order: entry
/// `i` is an enabled local APIC whose processor and APIC ids are both `i`, so
/// no two share one. It names the local APICs' address in front of them and
/// ends with the one I/O APIC, whose inputs begin at interrupt 0.
pub proof fn law_madt_lists_every_cpu(num_cpus: u8, i: int, j: int)
    requires
        0 <= i < num_cpus,
        0 <= j < num_cpus,
    ensures
        ({
            let m = madt(num_cpus);
            let end = 44 + 8 * num_cpus;
            &&& begins_as(m, "APIC"@, 3)
            &&& m.len() == end + 12
            &&& crate::bytes::u32_at(m, 36) == 0xfee0_0000
            &&& crate::bytes::u32_at(m, 40) == 1
            &&& m[44 + 8 * i] == 0
            &&& m[45 + 8 * i] == 8
            &&& m[46 + 8 * i] == i
            &&& m[47 + 8 * i] == i
            &&& m[48 + 8 * i] == 1
            &&& m[49 + 8 * i] == 0
            &&& m[50 + 8 * i] == 0
            &&& m[51 + 8 * i] == 0
            &&& i != j ==> m[47 + 8 * i] != m[47 + 8 * j]
            &&& m[end] == 1
            &&& m[end + 1] == 12
            &&& m[end + 2] == 0
            &&& crate::bytes::u32_at(m, end + 4) == 0xfec0_0000
            &&& crate::bytes::u32_at(m, end + 8) == 0
        }),
{
    lemma_madt_front(num_cpus);
    lemma_madt_entry(num_cpus, i);
    lemma_madt_entry(num_cpus, j);
    lemma_madt_end(num_cpus);
}

#[verifier::spinoff_prover]
proof fn lemma_fadt_rest(dsdt_addr: u32)
    ensures
        ({
            let rest = fadt_fixed(dsdt_addr) + fadt_extended(dsdt_addr);
            &&& rest.len() == 240
            &&& crate::bytes::u32_at(rest, 0) == 0
            &&& crate::bytes::u32_at(rest, 4) == dsdt_addr
            &&& crate::bytes::u16_at(rest, 60) == 0xffff
            &&& crate::bytes::u16_at(rest, 62) == 0xffff
            &&& crate::bytes::u16_at(rest, 73) == 0x000c
            &&& crate::bytes::u32_at(rest, 76) == 0x0010_0401
            &&& rest.subrange(80, 92) == io_gas(0x604)
            &&& rest[92] == 1
            &&& crate::bytes::u64_at(rest, 104) == dsdt_addr
            &&& rest.subrange(208, 220) == io_gas(0x600)
            &&& rest.subrange(220, 232) == io_gas(0x601)
        }),
{
    let a = fadt_fixed(dsdt_addr);
    let b = fadt_extended(dsdt_addr);
    let rest = a + b;
    assert(a.len() == 80);
    assert(b.len() == 160);
    assert forall|k: int| 0 <= k < 4 implies rest[0 + k] == #[trigger] le32(0)[k] by {}
    crate::bytes::lemma_u32_le(rest, 0, 0);
    assert forall|k: int| 0 <= k < 4 implies rest[4 + k] == #[trigger] le32(dsdt_addr)[k] by {}
    crate::bytes::lemma_u32_le(rest, 4, dsdt_addr);
    crate::bytes::lemma_u16_le(rest, 60, 0xffff);
    crate::bytes::lemma_u16_le(rest, 62, 0xffff);
    crate::bytes::lemma_u16_le(rest, 73, 0x000c);
    assert forall|k: int| 0 <= k < 4 implies rest[76 + k] == #[trigger] le32(0x0010_0401)[k] by {}
    crate::bytes::lemma_u32_le(rest, 76, 0x0010_0401);
    assert(rest.subrange(80, 92) =~= io_gas(0x604));
    assert forall|k: int| 0 <= k < 8 implies rest[104 + k] == #[trigger] le64(dsdt_addr as u64)[k] by {}
    crate::bytes::lemma_u64_le(rest, 104, dsdt_addr as u64);
    assert(rest.subrange(208, 220) =~= io_gas(0x600));
    assert(rest.subrange(220, 232) =~= io_gas(0x601));
}

/// Whether the twelve bytes of `t` from `i` on name an 8-bit register at an I/O
/// port.
pub open spec fn names_port(t: Seq<u8>, i: int, port: u16) -> bool {
    &&& t[i] == 1
    &&& t[i + 1] == 8
    &&& t[i + 2] == 0
    &&& t[i + 3] == 1
    &&& crate::bytes::u64_at(t, i + 4) == port
}

proof fn lemma_names_port(t: Seq<u8>, i: int, port: u16)
    requires
        0 <= i,
        i + 12 <= t.len(),
        t.subrange(i, i + 12) == io_gas(port),
    ensures
        names_port(t, i, port),
{
    let g = io_gas(port);
    assert forall|k: int| 0 <= k < 12 implies t[i + k] == #[trigger] g[k] by {
        assert(t.subrange(i, i + 12)[k] == t[i + k]);
    }
    assert(t[i + 0] == g[0] && t[i + 1] == g[1] && t[i + 2] == g[2] && t[i + 3] == g[3]);
    assert forall|k: int| 0 <= k < 8 implies t[i + 4 + k] == #[trigger] le64(port as u64)[k] by {
        assert(t[i + (4 + k)] == g[4 + k]);
    }
    crate::bytes::lemma_u64_le(t, i + 4, port as u64);
}

/// The fixed description table tells a guest where the DSDT is, twice, that it
/// is to use the reduced hardware model, that writing 1 to port 0x604 restarts
/// the machine, and that it is put to sleep and woken by ports 0x600 and 0x601.
pub proof fn law_fadt_describes_the_machine(dsdt_addr: u32)
    ensures
        ({
            let f = fadt(dsdt_addr);
            &&& begins_as(f, "FACP"@, 6)
            &&& f.len() == 276
            &&& crate::bytes::u32_at(f, 36) == 0
            &&& crate::bytes::u32_at(f, 40) == dsdt_addr
            &&& crate::bytes::u16_at(f, 96) == 0xffff
            &&& crate::bytes::u16_at(f, 98) == 0xffff
            &&& crate::bytes::u16_at(f, 109) == 0x000c
            &&& crate::bytes::u32_at(f, 112) == 0x0010_0401
            &&& names_port(f, 116, 0x604)
            &&& f[128] == 1
            &&& crate::bytes::u64_at(f, 140) == dsdt_addr
            &&& names_port(f, 244, 0x600)
            &&& names_port(f, 256, 0x601)
        }),
{
    reveal(fadt);
    reveal_strlit("FACP");
    let rest = fadt_fixed(dsdt_addr) + fadt_extended(dsdt_addr);
    let sig = seq![0x46u8, 0x41u8, 0x43u8, 0x50u8];
    let id = seq![0x48u8, 0x42u8, 0x46u8, 0x41u8, 0x44u8, 0x54u8, 0u8, 0u8];
    let h = header(sig, 6, id);
    lemma_fadt_rest(dsdt_addr);
    assert(h + rest =~= h + fadt_fixed(dsdt_addr) + fadt_extended(dsdt_addr));
    lemma_begins_as(sig, "FACP"@, 6, id, rest);
    let f = fadt(dsdt_addr);
    assert forall|k: int| 0 <= k < 240 implies f[36 + k] == #[trigger] rest[k] by {}
    crate::bytes::lemma_u32_same(rest, 0, f, 36);
    crate::bytes::lemma_u32_same(rest, 4, f, 40);
    crate::bytes::lemma_u16_same(rest, 60, f, 96);
    crate::bytes::lemma_u16_same(rest, 62, f, 98);
    crate::bytes::lemma_u16_same(rest, 73, f, 109);
    crate::bytes::lemma_u32_same(rest, 76, f, 112);
    assert(f[128] == rest[92]);
    crate::bytes::lemma_u64_same(rest, 104, f, 140);
    assert(f.subrange(116, 128) =~= rest.subrange(80, 92));
    assert(f.subrange(244, 256) =~= rest.subrange(208, 220));
    assert(f.subrange(256, 268) =~= rest.subrange(220, 232));
    lemma_names_port(f, 116, 0x604);
    lemma_names_port(f, 244, 0x600);
    lemma_names_port(f, 256, 0x601);
}

/// The two root tables hold the addresses that they are given, in order and in
/// full, and nothing else.
pub proof fn law_root_tables_list_their_entries(wide: Seq<u64>, narrow: Seq<u32>, i: int)
    requires
        wide.len() < 0x100_0000,
        narrow.len() < 0x100_0000,
    ensures
        begins_as(xsdt(wide), "XSDT"@, 1),
        xsdt(wide).len() == 36 + 8 * wide.len(),
        0 <= i < wide.len() ==> crate::bytes::u64_at(xsdt(wide), 36 + 8 * i) == wide[i],
        begins_as(rsdt(narrow), "RSDT"@, 1),
        rsdt(narrow).len() == 36 + 4 * narrow.len(),
        0 <= i < narrow.len() ==> crate::bytes::u32_at(rsdt(narrow), 36 + 4 * i) == narrow[i],
{
    reveal(xsdt);
    reveal(rsdt);
    reveal_strlit("XSDT");
    reveal_strlit("RSDT");
    let (a, b) = (le64_all(wide), le32_all(narrow));
    crate::bytes::law_lists_of_numbers(wide, narrow, i);
    lemma_begins_as(
        seq![0x58u8, 0x53u8, 0x44u8, 0x54u8],
        "XSDT"@,
        1,
        seq![0x48u8, 0x42u8, 0x58u8, 0x53u8, 0x44u8, 0x54u8, 0u8, 0u8],
        a,
    );
    lemma_begins_as(
        seq![0x52u8, 0x53u8, 0x44u8, 0x54u8],
        "RSDT"@,
        1,
        seq![0x48u8, 0x42u8, 0x52u8, 0x53u8, 0x44u8, 0x54u8, 0u8, 0u8],
        b,
    );
    let (x, r) = (xsdt(wide), rsdt(narrow));
    if 0 <= i < wide.len() {
        let part = a.subrange(8 * i, 8 * i + 8);
        assert forall|k: int| 0 <= k < 8 implies x[36 + 8 * i + k] == #[trigger] le64(wide[i])[k] by {
            assert(part[k] == a[8 * i + k]);
        }
        crate::bytes::lemma_u64_le(x, 36 + 8 * i, wide[i]);
    }
    if 0 <= i < narrow.len() {
        let part = b.subrange(4 * i, 4 * i + 4);
        assert forall|k: int| 0 <= k < 4 implies r[36 + 4 * i + k] == #[trigger] le32(narrow[i])[k] by {
            assert(part[k] == b[4 * i + k]);
        }
        crate::bytes::lemma_u32_le(r, 36 + 4 * i, narrow[i]);
    }
}

/// The root pointer has the signature that a guest scans for, is of the second
/// version, gives its length, and names both root tables.
pub proof fn law_root_pointer_names_the_tables(rsdt_addr: u32, xsdt_addr: u64, k: int)
    ensures
        ({
            let r = rsdp(rsdt_addr, xsdt_addr);
            &&& r.len() == 36
            &&& 0 <= k < 8 ==> r[k] == "RSD PTR "@[k] as u8
            &&& 0 <= k < 6 ==> r[9 + k] == "HYPRBG"@[k] as u8
            &&& r[15] == 2
            &&& crate::bytes::u32_at(r, 16) == rsdt_addr
            &&& crate::bytes::u32_at(r, 20) == 36
            &&& crate::bytes::u64_at(r, 24) == xsdt_addr
        }),
{
    reveal(rsdp);
    reveal_strlit("RSD PTR ");
    reveal_strlit("HYPRBG");
    let b = rsdp_blank(rsdt_addr, xsdt_addr);
    let r = rsdp(rsdt_addr, xsdt_addr);
    assert(b.len() == 36);
    assert forall|i: int| 0 <= i < 36 && i != 8 && i != 32 implies r[i] == #[trigger] b[i] by {}
    assert(b[15] == 2);
    if 0 <= k < 8 {
        assert(b[k] == rsdp_signature()[k]);
    }
    if 0 <= k < 6 {
        assert(b[9 + k] == oem_id()[k]);
    }
    assert forall|j: int| 0 <= j < 4 implies r[16 + j] == #[trigger] le32(rsdt_addr)[j] by {
        assert(b[16 + j] == le32(rsdt_addr)[j]);
    }
    crate::bytes::lemma_u32_le(r, 16, rsdt_addr);
    assert forall|j: int| 0 <= j < 4 implies r[20 + j] == #[trigger] le32(36)[j] by {
        assert(b[20 + j] == le32(36)[j]);
    }
    crate::bytes::lemma_u32_le(r, 20, 36);
    assert forall|j: int| 0 <= j < 8 implies r[24 + j] == #[trigger] le64(xsdt_addr)[j] by {
        assert(b[24 + j] == le64(xsdt_addr)[j]);
    }
    crate::bytes::lemma_u64_le(r, 24, xsdt_addr);
}

proof fn lemma_number_in_image(image: Seq<u8>, at: int, t: Seq<u8>, i: int)
    requires
        0 <= at,
        at + t.len() <= image.len(),
        image.subrange(at, at + t.len()) == t,
        0 <= i,
    ensures
        i + 4 <= t.len() ==> crate::bytes::u32_at(image, at + i) == crate::bytes::u32_at(t, i),
        i + 8 <= t.len() ==> crate::bytes::u64_at(image, at + i) == crate::bytes::u64_at(t, i),
{
    assert forall|k: int| 0 <= k < t.len() implies image[at + k] == #[trigger] t[k] by {
        assert(image.subrange(at, at + t.len())[k] == image[at + k]);
    }
    if i + 4 <= t.len() {
        assert forall|k: int| 0 <= k < 4 implies t[i + k] == #[trigger] image[at + i + k] by {
            assert(image[at + (i + k)] == t[i + k]);
        }
        crate::bytes::lemma_u32_same(t, i, image, at + i);
    }
    if i + 8 <= t.len() {
        assert forall|k: int| 0 <= k < 8 implies t[i + k] == #[trigger] image[at + i + k] by {
            assert(image[at + (i + k)] == t[i + k]);
        }
        crate::bytes::lemma_u64_same(t, i, image, at + i);
    }
}

/// A guest that follows the pointers from the root at 0xe0000 finds every
/// table: both root tables, in each of them the fixed description table and
/// then the table of interrupt controllers, and in the former the DSDT, byte
/// for byte as it was given.
#[verifier::spinoff_prover]
pub proof fn law_guest_finds_every_table(mem: Seq<u8>, dsdt: Seq<u8>, num_cpus: u8)
    requires
        mem.len() >= ACPI_LIMIT,
        fitting(acpi_tables(dsdt, num_cpus), 0) == 5,
    ensures
        ({
            let m = acpi_image(mem, acpi_tables(dsdt, num_cpus));
            let xsdt_at = crate::bytes::u64_at(m, 0xe0018) as int;
            let rsdt_at = crate::bytes::u32_at(m, 0xe0010) as int;
            let fadt_at = crate::bytes::u64_at(m, xsdt_at + 36) as int;
            let madt_at = crate::bytes::u64_at(m, xsdt_at + 44) as int;
            let dsdt_at = crate::bytes::u32_at(m, fadt_at + 40) as int;
            &&& crate::bytes::u32_at(m, rsdt_at + 36) == fadt_at
            &&& crate::bytes::u32_at(m, rsdt_at + 40) == madt_at
            &&& m.subrange(fadt_at, fadt_at + 276) == fadt(dsdt_at as u32)
            &&& m.subrange(madt_at, madt_at + madt(num_cpus).len()) == madt(num_cpus)
            &&& m.subrange(dsdt_at, dsdt_at + dsdt.len()) == dsdt
            &&& forall|a: int| 0 <= a < mem.len() && !(0xe0000 <= a < 0xff000) ==> #[trigger] m[a] == mem[a]
        }),
{
    let ts = acpi_tables(dsdt, num_cpus);
    let m = acpi_image(mem, ts);
    law_tables_do_not_overlap(mem, dsdt, num_cpus);
    assert(ts[0].at <= 0xff000 && ts[1].at <= 0xff000 && ts[2].at <= 0xff000 && ts[3].at <= 0xff000 && ts[4].at
        <= 0xff000) by {
        assert(ts[0].end() <= ACPI_LIMIT && ts[1].end() <= ACPI_LIMIT && ts[2].end() <= ACPI_LIMIT && ts[3].end()
            <= ACPI_LIMIT && ts[4].end() <= ACPI_LIMIT);
    }
    let (wide, narrow) = (seq![ts[1].at as u64, ts[2].at as u64], seq![ts[1].at as u32, ts[2].at as u32]);
    let root = rsdp(ts[4].at as u32, ts[3].at as u64);
    law_root_pointer_names_the_tables(ts[4].at as u32, ts[3].at as u64, 0);
    lemma_number_in_image(m, 0xe0000, root, 16);
    lemma_number_in_image(m, 0xe0000, root, 24);
    law_root_tables_list_their_entries(wide, narrow, 0);
    law_root_tables_list_their_entries(wide, narrow, 1);
    assert(m.subrange(ts[3].at, ts[3].end()) == ts[3].bytes && m.subrange(ts[4].at, ts[4].end()) == ts[4].bytes);
    lemma_number_in_image(m, ts[3].at, xsdt(wide), 36);
    lemma_number_in_image(m, ts[3].at, xsdt(wide), 44);
    lemma_number_in_image(m, ts[4].at, rsdt(narrow), 36);
    lemma_number_in_image(m, ts[4].at, rsdt(narrow), 40);
    law_fadt_describes_the_machine(ts[0].at as u32);
    assert(m.subrange(ts[1].at, ts[1].end()) == ts[1].bytes && m.subrange(ts[2].at, ts[2].end()) == ts[2].bytes
        && m.subrange(ts[0].at, ts[0].end()) == ts[0].bytes);
    lemma_number_in_image(m, ts[1].at, fadt(ts[0].at as u32), 40);
}

/// The power registers end the run as a guest expects. The sleep-enable bit,
/// bit 5, shuts down, and a 1 in the reset register restarts; the first of
/// several requests counts. Nothing else that is written does anything, and
/// both registers read as zero.
pub proof fn law_power_registers(
    s0: SleepControl,
    s1: SleepControl,
    r0: ResetControl,
    r1: ResetControl,
    offset: u64,
    data: Seq<u8>,
    irq: bool,
    before: Seq<u8>,
    after: Seq<u8>,
    k: int,
)
    ensures
        SleepControl::writes(s0, s1, offset, data, irq) ==> !irq && s1.exit@ == (if data.len() > 0 && data[0] / 32 % 2
            == 1 && s0.exit@ is None {
            Some(Ok(GuestExit::CleanShutdown))
        } else {
            s0.exit@
        }),
        ResetControl::writes(r0, r1, offset, data, irq) ==> !irq && r1.exit@ == (if data.len() > 0 && data[0] == 1
            && r0.exit@ is None {
            Some(Ok(GuestExit::RequestedReboot))
        } else {
            r0.exit@
        }),
        SleepControl::reads(s0, s1, offset, before, after) && 0 <= k < before.len() ==> s1 == s0 && after.len()
            == before.len() && after[k] == 0,
        ResetControl::reads(r0, r1, offset, before, after) && 0 <= k < before.len() ==> r1 == r0 && after.len()
            == before.len() && after[k] == 0,
{
    if data.len() > 0 {
        let b = data[0];
        assert((b & 0x20u8 != 0) == (b / 32u8 % 2u8 == 1u8)) by (bit_vector);
    }
}

} // verus!
