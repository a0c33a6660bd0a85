//! What a CPU needs to start in long mode: a flat descriptor table, and page
//! tables that map guest memory to itself in pages of 2 MiB.

use vstd::prelude::*;
use vstd::string::*;

use crate::bytes::{le64, le64_all, lemma_u64_le, lemma_u64_same, splice, u64_at};
use crate::loader::KERNEL_START;
use crate::mem::GuestMemory;
use crate::regs::{Segment, Sregs};
use crate::text::{cat5, dec, dec_string};

verus! {

/// Where the descriptor table goes.
pub const BOOT_GDT_OFFSET: u64 = 0x500;

/// Where the top-level page table goes.
pub const PML4_START: u64 = 0x9000;

/// Where the second-level page table goes: one page.
pub const PDPTE_START: u64 = 0xa000;

/// Where the third-level page tables go: one page for each GiB.
pub const PDE_START: u64 = 0xb000;

/// The size of a page.
pub const PAGE_2MB: u64 = 0x20_0000;

/// What one third-level table maps.
pub const GIB: u64 = 0x4000_0000;

/// The size of a page table.
pub const PD_TABLE_SIZE: u64 = 4096;

/// How many entries a page table has.
pub const MAX_PDPT_ENTRIES: u64 = 512;

/// The most guest memory that can be mapped: one third-level table for each
/// GiB fits below the kernel, and one second-level table lists them.
pub open spec fn identity_limit() -> int {
    245int * 0x4000_0000int
}

/// The most guest memory that can be mapped.
pub fn max_identity_map() -> (r: u64)
    ensures
        r == identity_limit(),
        r == ((KERNEL_START - PDE_START) / PD_TABLE_SIZE as int) * GIB,
        r <= MAX_PDPT_ENTRIES * GIB,
{
    let tables: u64 = (KERNEL_START - PDE_START) / PD_TABLE_SIZE;
    let n: u64 = if tables < MAX_PDPT_ENTRIES { tables } else { MAX_PDPT_ENTRIES };
    n * GIB
}

/// A segment descriptor.
pub open spec fn descriptor(flags: u16, base: u32, limit: u32) -> u64 {
    (((base as u64) & 0xff000000u64) << 32u64) | (((flags as u64) & 0x0000f0ffu64) << 40u64) | (((
    limit as u64) & 0x000f0000u64) << 32u64) | (((base as u64) & 0x00ffffffu64) << 16u64) | ((
    limit as u64) & 0x0000ffffu64)
}

/// A segment descriptor.
pub fn gdt_entry(flags: u16, base: u32, limit: u32) -> (r: u64)
    ensures
        r == descriptor(flags, base, limit),
{
    (((base as u64) & 0xff000000u64) << 32u64) | (((flags as u64) & 0x0000f0ffu64) << 40u64) | (((
    limit as u64) & 0x000f0000u64) << 32u64) | (((base as u64) & 0x00ffffffu64) << 16u64) | ((
    limit as u64) & 0x0000ffffu64)
}

/// The two descriptors of the boot table: a flat 64-bit code segment and a
/// flat data segment.
pub proof fn law_flat_descriptors()
    ensures
        descriptor(0xa09b, 0, 0xfffff) == 0x00af_9b00_0000_ffffu64,
        descriptor(0xc093, 0, 0xfffff) == 0x00cf_9300_0000_ffffu64,
{
    let f = 0xa09bu16 as u64;
    let g = 0xc093u16 as u64;
    let b = 0u32 as u64;
    let l = 0xfffffu32 as u64;
    assert(f == 0xa09bu64 && b == 0u64 && l == 0xfffffu64 ==> ((b & 0xff000000u64) << 32u64) | ((f
        & 0x0000f0ffu64) << 40u64) | ((l & 0x000f0000u64) << 32u64) | ((b & 0x00ffffffu64) << 16u64) | (l
        & 0x0000ffffu64) == 0x00af_9b00_0000_ffffu64) by (bit_vector);
    assert(g == 0xc093u64 && b == 0u64 && l == 0xfffffu64 ==> ((b & 0xff000000u64) << 32u64) | ((g
        & 0x0000f0ffu64) << 40u64) | ((l & 0x000f0000u64) << 32u64) | ((b & 0x00ffffffu64) << 16u64) | (l
        & 0x0000ffffu64) == 0x00cf_9300_0000_ffffu64) by (bit_vector);
}

/// The boot table: null, code, data.
pub open spec fn gdt_words() -> Seq<u64> {
    seq![0u64, descriptor(0xa09b, 0, 0xfffff), descriptor(0xc093, 0, 0xfffff)]
}

/// The code segment that goes with the boot table.
pub open spec fn code_segment() -> Segment {
    Segment {
        base: 0,
        limit: 0xfffff,
        selector: 0x08,
        type_: 0xb,
        present: 1,
        dpl: 0,
        db: 0,
        s: 1,
        l: 1,
        g: 1,
        avl: 0,
        unusable: 0,
    }
}

/// The data segment that goes with the boot table.
pub open spec fn data_segment() -> Segment {
    Segment { selector: 0x10, type_: 0x3, l: 0, db: 1, ..code_segment() }
}

/// Writes the boot table into guest memory and points `sregs` at it.
pub fn setup_gdt(mem: &mut GuestMemory, sregs: &mut Sregs)
    requires
        old(mem)@.len() >= BOOT_GDT_OFFSET + 24,
    ensures
        final(mem)@ == splice(old(mem)@, BOOT_GDT_OFFSET as int, le64_all(gdt_words())),
        *final(sregs) == (Sregs {
            gdt_base: BOOT_GDT_OFFSET,
            gdt_limit: 23,
            cs: code_segment(),
            ds: data_segment(),
            es: data_segment(),
            fs: data_segment(),
            gs: data_segment(),
            ss: data_segment(),
            ..*old(sregs)
        }),
{
    let words: [u64; 3] = [0, gdt_entry(0xa09b, 0, 0xfffff), gdt_entry(0xc093, 0, 0xfffff)];
    assert(words@ =~= gdt_words());
    let mut bytes: Vec<u8> = Vec::new();
    crate::bytes::push_u64_all(&mut bytes, words.as_slice());
    assert(bytes@ =~= le64_all(gdt_words()));
    proof {
        crate::bytes::lemma_le64_all(gdt_words(), seq![]);
    }
    mem.write_slice_unchecked_boot_only(BOOT_GDT_OFFSET, bytes.as_slice());
    sregs.gdt_base = BOOT_GDT_OFFSET;
    sregs.gdt_limit = 23;
    let code = Segment {
        base: 0,
        limit: 0xfffff,
        selector: 0x08,
        type_: 0xb,
        present: 1,
        dpl: 0,
        db: 0,
        s: 1,
        l: 1,
        g: 1,
        avl: 0,
        unusable: 0,
    };
    let data = Segment { selector: 0x10, type_: 0x3, l: 0, db: 1, ..code };
    sregs.cs = code;
    sregs.ds = data;
    sregs.es = data;
    sregs.fs = data;
    sregs.gs = data;
    sregs.ss = data;
}

/// How many GiB are mapped: those that hold memory, and at least one.
pub open spec fn gib_count(mem_size: int) -> int {
    if mem_size <= 0 {
        1
    } else {
        (mem_size + 0x3fff_ffff) / 0x4000_0000
    }
}

/// How many pages of the GiB `g` are mapped.
pub open spec fn page_count(mem_size: int, g: int) -> int {
    let left = mem_size - g * 0x4000_0000;
    if left <= 0 {
        0
    } else if left >= 0x4000_0000 {
        512
    } else {
        (left + 0x1f_ffff) / 0x20_0000
    }
}

/// Entry `g` of the second-level table.
pub open spec fn pdpte(mem: Seq<u8>, g: int) -> u64 {
    u64_at(mem, 0xa000 + 8 * g)
}

/// Entry `i` of the third-level table of the GiB `g`.
pub open spec fn pde(mem: Seq<u8>, g: int, i: int) -> u64 {
    u64_at(mem, 0xb000 + 4096 * g + 8 * i)
}

/// Whether the byte at `a` belongs to an entry that is written.
pub open spec fn in_tables(mem_size: int, a: int) -> bool {
    ||| 0x9000 <= a < 0x9008
    ||| 0xa000 <= a < 0xa000 + 8 * gib_count(mem_size)
    ||| 0xb000 <= a < 0xb000 + 4096 * gib_count(mem_size) && (a - 0xb000) % 4096 < 8 * page_count(
        mem_size,
        (a - 0xb000) / 4096,
    )
}

/// The page tables for `mem_size` bytes were written over `old_mem`: one
/// top-level entry, one second-level entry for each GiB, and one entry for
/// each page, that maps it to itself. Nothing else changed.
pub open spec fn tables_written(old_mem: Seq<u8>, mem: Seq<u8>, mem_size: int) -> bool {
    &&& mem.len() == old_mem.len()
    &&& u64_at(mem, 0x9000) == 0xa003
    &&& forall|g: int| 0 <= g < gib_count(mem_size) ==> #[trigger] pdpte(mem, g) == 0xb003 + 4096 * g
    &&& forall|g: int, i: int|
        0 <= g < gib_count(mem_size) && 0 <= i < page_count(mem_size, g) ==> #[trigger] pde(mem, g, i)
            == g * 0x4000_0000 + i * 0x20_0000 + 0x83
    &&& forall|a: int|
        0 <= a < mem.len() && !in_tables(mem_size, a) ==> #[trigger] mem[a] == old_mem[a]
}

proof fn lemma_slot(s: Seq<u8>, at: int, v: u64)
    requires
        0 <= at,
        at + 8 <= s.len(),
    ensures
        splice(s, at, le64(v)).len() == s.len(),
        u64_at(splice(s, at, le64(v)), at) == v,
        forall|b: int|
            0 <= b && b + 8 <= s.len() && (b + 8 <= at || at + 8 <= b) ==> #[trigger] u64_at(
                splice(s, at, le64(v)),
                b,
            ) == u64_at(s, b),
{
    let t = splice(s, at, le64(v));
    assert forall|k: int| 0 <= k < 8 implies t[at + k] == #[trigger] le64(v)[k] by {}
    lemma_u64_le(t, at, v);
    assert forall|b: int|
        0 <= b && b + 8 <= s.len() && (b + 8 <= at || at + 8 <= b) implies #[trigger] u64_at(t, b)
        == u64_at(s, b) by {
        lemma_u64_same(t, b, s, b);
    }
}

/// The message for more memory than can be mapped.
pub open spec fn too_much_memory(mem_size: u64) -> Seq<char> {
    "guest memory of "@ + dec(mem_size as nat) + " bytes exceeds the "@ + dec(
        identity_limit() as nat,
    ) + "-byte identity-map limit (bounded by free low memory for page tables before KERNEL_START)"@
}

fn write_pages(mem: &mut GuestMemory, mem_size: u64, gib: u64)
    requires
        mem_size <= identity_limit(),
        gib < gib_count(mem_size as int),
        old(mem)@.len() >= 0xb000 + 4096 * gib_count(mem_size as int),
    ensures
        final(mem)@.len() == old(mem)@.len(),
        forall|i: int|
            0 <= i < page_count(mem_size as int, gib as int) ==> #[trigger] pde(final(mem)@, gib as int, i)
                == gib * 0x4000_0000 + i * 0x20_0000 + 0x83,
        forall|a: int|
            0 <= a < old(mem)@.len() && !(0xb000 + 4096 * gib <= a < 0xb000 + 4096 * gib + 8
                * page_count(mem_size as int, gib as int)) ==> #[trigger] final(mem)@[a] == old(mem)@[a],
{
    let base: u64 = gib * GIB;
    let left: u64 = mem_size.saturating_sub(base);
    let whole: u64 = if left < GIB { left } else { GIB };
    let pages: u64 = (whole + (PAGE_2MB - 1)) / PAGE_2MB;
    assert(pages == page_count(mem_size as int, gib as int));
    let table: u64 = PDE_START + gib * PD_TABLE_SIZE;
    let mut i: u64 = 0;
    while i < pages
        invariant
            i <= pages <= 512,
            gib < 245,
            base == gib * 0x4000_0000,
            table == 0xb000 + 4096 * gib,
            mem@.len() == old(mem)@.len(),
            mem@.len() >= table + 4096,
            forall|k: int|
                0 <= k < i ==> #[trigger] pde(mem@, gib as int, k) == gib * 0x4000_0000 + k * 0x20_0000
                    + 0x83,
            forall|a: int|
                0 <= a < old(mem)@.len() && !(table <= a < table + 8 * i) ==> #[trigger] mem@[a]
                    == old(mem)@[a],
        decreases pages - i,
    {
        let phys: u64 = base + i * PAGE_2MB;
        let ghost before = mem@;
        proof {
            lemma_slot(before, table + 8 * i, (phys + 0x83) as u64);
        }
        mem.write_obj_unchecked_boot_only(table + i * 8, phys + 0x83);
        assert forall|k: int| 0 <= k < i + 1 implies #[trigger] pde(mem@, gib as int, k) == gib
            * 0x4000_0000 + k * 0x20_0000 + 0x83 by {
            if k < i {
                assert(pde(before, gib as int, k) == gib * 0x4000_0000 + k * 0x20_0000 + 0x83);
                assert(u64_at(mem@, 0xb000 + 4096 * gib + 8 * k) == u64_at(
                    before,
                    0xb000 + 4096 * gib + 8 * k,
                ));
            }
        }
        i += 1;
    }
}

/// Maps guest memory `[0, mem_size)` to itself and points `sregs` at the page
/// tables. More memory than can be mapped is an error, and nothing is then
/// touched.
pub fn setup_page_tables(mem: &mut GuestMemory, sregs: &mut Sregs, mem_size: u64) -> (r: Result<(), String>)
    requires
        mem_size <= identity_limit() ==> old(mem)@.len() >= 0xb000 + 4096 * gib_count(mem_size as int),
    ensures
        match r {
            Ok(_) => {
                &&& mem_size <= identity_limit()
                &&& tables_written(old(mem)@, final(mem)@, mem_size as int)
                &&& *final(sregs) == (Sregs {
                    cr3: PML4_START,
                    cr4: 0x20,
                    cr0: 0x80050033,
                    efer: 0x500,
                    ..*old(sregs)
                })
            },
            Err(e) => {
                &&& mem_size > identity_limit()
                &&& e@ == too_much_memory(mem_size)
                &&& final(mem)@ == old(mem)@
                &&& *final(sregs) == *old(sregs)
            },
        },
{
    let max: u64 = max_identity_map();
    if mem_size > max {
        let n = dec_string(mem_size);
        let m = dec_string(max);
        return Err(
            cat5(
                "guest memory of ",
                n.as_str(),
                " bytes exceeds the ",
                m.as_str(),
                "-byte identity-map limit (bounded by free low memory for page tables before KERNEL_START)",
            ),
        );
    }
    let num_gib: u64 = if mem_size == 0 { 1 } else { (mem_size + (GIB - 1)) / GIB };
    assert(num_gib == gib_count(mem_size as int));
    let ghost m0 = mem@;
    proof {
        lemma_slot(m0, 0x9000, 0xa003);
    }
    mem.write_obj_unchecked_boot_only(PML4_START, PDPTE_START + 3);
    let mut gib: u64 = 0;
    while gib < num_gib
        invariant
            gib <= num_gib <= 245,
            num_gib == gib_count(mem_size as int),
            mem_size <= identity_limit(),
            m0 == old(mem)@,
            mem@.len() == m0.len(),
            mem@.len() >= 0xb000 + 4096 * num_gib,
            u64_at(mem@, 0x9000) == 0xa003,
            forall|g: int| 0 <= g < gib ==> #[trigger] pdpte(mem@, g) == 0xb003 + 4096 * g,
            forall|g: int, i: int|
                0 <= g < gib && 0 <= i < page_count(mem_size as int, g) ==> #[trigger] pde(mem@, g, i)
                    == g * 0x4000_0000 + i * 0x20_0000 + 0x83,
            forall|a: int|
                0 <= a < m0.len() && !in_tables(mem_size as int, a) ==> #[trigger] mem@[a] == m0[a],
        decreases num_gib - gib,
    {
        let ghost m1 = mem@;
        let ghost at = 0xa000 + 8 * gib;
        proof {
            lemma_slot(m1, at, (0xb003 + 4096 * gib) as u64);
        }
        mem.write_obj_unchecked_boot_only(PDPTE_START + gib * 8, PDE_START + gib * PD_TABLE_SIZE + 3);
        let ghost m2 = mem@;
        write_pages(mem, mem_size, gib);
        let ghost m3 = mem@;
        proof {
            let n = page_count(mem_size as int, gib as int);
            let t = 0xb000 + 4096 * gib;
            assert(n <= 512);
            // What lies below the third-level table, and above it, is as it was.
            assert forall|b: int| 0 <= b && b + 8 <= m3.len() && (b + 8 <= t || t + 8 * n <= b) implies #[trigger] u64_at(
                m3,
                b,
            ) == u64_at(m2, b) by {
                lemma_u64_same(m3, b, m2, b);
            }
            assert(u64_at(m3, 0x9000) == u64_at(m2, 0x9000));
            assert forall|g: int| 0 <= g < gib + 1 implies #[trigger] pdpte(m3, g) == 0xb003 + 4096 * g by {
                assert(u64_at(m3, 0xa000 + 8 * g) == u64_at(m2, 0xa000 + 8 * g));
                if g < gib {
                    assert(pdpte(m1, g) == 0xb003 + 4096 * g);
                    assert(u64_at(m2, 0xa000 + 8 * g) == u64_at(m1, 0xa000 + 8 * g));
                }
            }
            assert forall|g: int, i: int|
                0 <= g < gib + 1 && 0 <= i < page_count(mem_size as int, g) implies #[trigger] pde(m3, g, i)
                == g * 0x4000_0000 + i * 0x20_0000 + 0x83 by {
                if g < gib {
                    let b = 0xb000 + 4096 * g + 8 * i;
                    assert(i < 512);
                    assert(u64_at(m3, b) == u64_at(m2, b));
                    assert(u64_at(m2, b) == u64_at(m1, b));
                    assert(pde(m1, g, i) == g * 0x4000_0000 + i * 0x20_0000 + 0x83);
                }
            }
            assert forall|a: int| 0 <= a < m0.len() && !in_tables(mem_size as int, a) implies #[trigger] m3[a] == m0[a] by {
                if t <= a < t + 8 * n {
                    assert((a - 0xb000) / 4096 == gib && (a - 0xb000) % 4096 == a - t);
                }
                assert(m3[a] == m2[a]);
                assert(m2[a] == m1[a]);
            }
        }
        gib += 1;
    }
    sregs.cr3 = PML4_START;
    sregs.cr4 = 0x20;
    sregs.cr0 = 0x80050033;
    sregs.efer = 0x500;
    Ok(())
}

/// The physical address that `va` is mapped to by the page tables at `cr3`,
/// in pages of 2 MiB. Bit 0 of an entry says that it is present, bit 7 of a
/// third-level entry that it maps a page.
pub open spec fn translate(mem: Seq<u8>, cr3: int, va: int) -> Option<int> {
    let e4 = u64_at(mem, cr3 + 8 * (va / 0x80_0000_0000 % 512)) as int;
    let e3 = u64_at(mem, e4 / 4096 * 4096 + 8 * (va / 0x4000_0000 % 512)) as int;
    let e2 = u64_at(mem, e3 / 4096 * 4096 + 8 * (va / 0x20_0000 % 512)) as int;
    if e4 % 2 == 1 && e3 % 2 == 1 && e2 % 2 == 1 && e2 / 128 % 2 == 1 {
        Some(e2 / 0x20_0000 * 0x20_0000 + va % 0x20_0000)
    } else {
        None
    }
}

/// The page tables map every address of guest memory to itself.
pub proof fn law_identity_map(old_mem: Seq<u8>, mem: Seq<u8>, mem_size: int, va: int)
    requires
        0 <= va < mem_size <= identity_limit(),
        tables_written(old_mem, mem, mem_size),
    ensures
        translate(mem, PML4_START as int, va) == Some(va),
{
    let g = va / 0x4000_0000;
    let i = va / 0x20_0000 % 512;
    assert(va / 0x80_0000_0000 == 0);
    assert(0 <= g < gib_count(mem_size));
    assert(g % 512 == g);
    assert(pdpte(mem, g) == 0xb003 + 4096 * g);
    let within = va - g * 0x4000_0000;
    assert(i == within / 0x20_0000) by {
        assert(va / 0x20_0000 == g * 512 + within / 0x20_0000);
    }
    assert(i < page_count(mem_size, g));
    assert(pde(mem, g, i) == g * 0x4000_0000 + i * 0x20_0000 + 0x83);
    let e2 = g * 0x4000_0000 + i * 0x20_0000 + 0x83;
    assert(e2 == 0x20_0000 * (512 * g + i) + 0x83);
    assert(e2 / 0x20_0000 == 512 * g + i);
    assert(e2 / 128 % 2 == 1);
    assert(e2 % 2 == 1);
    let e3 = 0xb003 + 4096 * g;
    assert(e3 / 4096 == 11 + g);
    assert(e3 % 2 == 1);
    assert(va == (512 * g + i) * 0x20_0000 + va % 0x20_0000);
}

/// Whether a descriptor, as it stands in the table, says of a segment what the
/// processor was told of it: the same base, limit, type and flags, at the place
/// that the selector names.
pub open spec fn describes(table: Seq<u64>, s: Segment) -> bool {
    let d = table[s.selector as int / 8] as int;
    &&& s.selector as int / 8 < table.len()
    &&& s.selector % 8 == 0
    &&& d / 0x1_0000 % 0x100_0000 + 0x100_0000 * (d / 0x100_0000_0000_0000) == s.base
    &&& d % 0x1_0000 + 0x1_0000 * (d / 0x1_0000_0000_0000 % 16) == s.limit
    &&& d / 0x100_0000_0000 % 16 == s.type_
    &&& d / 0x1000_0000_0000 % 2 == s.s
    &&& d / 0x2000_0000_0000 % 4 == s.dpl
    &&& d / 0x8000_0000_0000 % 2 == s.present
    &&& d / 0x10_0000_0000_0000 % 2 == s.avl
    &&& d / 0x20_0000_0000_0000 % 2 == s.l
    &&& d / 0x40_0000_0000_0000 % 2 == s.db
    &&& d / 0x80_0000_0000_0000 % 2 == s.g
}

/// The table in memory and the segments that the processor starts with agree,
/// and are what 64-bit code needs: a flat code segment that is 64-bit, and a
/// flat data segment that can be written.
pub proof fn law_segments_agree_with_the_table()
    ensures
        gdt_words().len() == 3,
        gdt_words()[0] == 0,
        describes(gdt_words(), code_segment()),
        describes(gdt_words(), data_segment()),
        code_segment().selector != 0,
        data_segment().selector != 0,
        code_segment().l == 1 && code_segment().db == 0 && code_segment().present == 1 && code_segment().type_ / 8 == 1,
        data_segment().present == 1 && data_segment().type_ / 8 == 0 && data_segment().type_ / 2 % 2 == 1,
        code_segment().base == 0 && data_segment().base == 0,
        code_segment().unusable == 0 && data_segment().unusable == 0,
{
    law_flat_descriptors();
}

/// A descriptor holds its base, its limit and its flags, each in full.
pub proof fn law_descriptor_fields(flags: u16, base: u32, limit: u32)
    ensures
        ({
            let d = descriptor(flags, base, limit);
            &&& ((d >> 16u64) & 0xff_ffffu64) | ((d >> 32u64) & 0xff00_0000u64) == base
            &&& (d & 0xffffu64) | ((d >> 32u64) & 0xf_0000u64) == limit & 0xf_ffffu32
            &&& (d >> 40u64) & 0xf0ffu64 == flags & 0xf0ffu16
        }),
{
    let d = descriptor(flags, base, limit);
    assert(d == (((base as u64) & 0xff000000u64) << 32u64) | (((flags as u64) & 0x0000f0ffu64) << 40u64) | (((
    limit as u64) & 0x000f0000u64) << 32u64) | (((base as u64) & 0x00ffffffu64) << 16u64) | ((limit as u64)
        & 0x0000ffffu64) ==> (((d >> 16u64) & 0xff_ffffu64) | ((d >> 32u64) & 0xff00_0000u64) == base as u64 && (d
        & 0xffffu64) | ((d >> 32u64) & 0xf_0000u64) == (limit & 0xf_ffffu32) as u64 && (d >> 40u64) & 0xf0ffu64 == (
    flags & 0xf0ffu16) as u64)) by (bit_vector);
}

/// The page tables lie between the boot data and the kernel, so that nothing
/// else is overwritten, and every page that they map can be written. Memory
/// that they do not cover is refused.
pub proof fn law_page_tables_stay_low(old_mem: Seq<u8>, mem: Seq<u8>, mem_size: int, g: int, i: int, a: int)
    requires
        0 <= mem_size <= identity_limit(),
        tables_written(old_mem, mem, mem_size),
        0 <= a < mem.len(),
    ensures
        mem.len() == old_mem.len(),
        !(0x9000 <= a < 0x10_0000) ==> mem[a] == old_mem[a],
        u64_at(mem, 0x9000) as int / 2 % 2 == 1,
        0 <= g && 0x4000_0000 * g < mem_size ==> pdpte(mem, g) as int / 2 % 2 == 1,
        0 <= g && 0 <= i < 512 && 0x4000_0000 * g + 0x20_0000 * i < mem_size ==> pde(mem, g, i) as int / 2 % 2 == 1,
        identity_limit() == 245 * 0x4000_0000,
{
    assert(gib_count(mem_size) <= 245);
    if 0 <= g && 0x4000_0000 * g < mem_size {
        assert(g < gib_count(mem_size));
        assert(pdpte(mem, g) == 0xb003 + 4096 * g);
        if 0 <= i < 512 && 0x4000_0000 * g + 0x20_0000 * i < mem_size {
            assert(i < page_count(mem_size, g));
            assert(pde(mem, g, i) == g * 0x4000_0000 + i * 0x20_0000 + 0x83);
        }
    }
    if !(0x9000 <= a < 0x10_0000) {
        assert(!in_tables(mem_size, a));
    }
}

} // verus!
