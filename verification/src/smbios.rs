//! SMBIOS tables: a 32-bit entry point and the structures for the BIOS, the
//! system, the chassis and the end of the table.
//!
//! They stand in the last 4 KiB below 1 MiB, where a guest scans for the
//! entry point. A structure is a formatted area, whose length it declares,
//! and a set of strings, each with a NUL behind it, with one more NUL at the
//! end.

use vstd::prelude::*;
use vstd::string::*;
use vstd::utf8::*;

use crate::acpi::{checksum, complement, lemma_complement};
use crate::bytes::{copy_range, le16, le32, push_slice, push_u16, push_u32, push_zeroes, splice, sum8, zeroes};
use crate::error::HyperbugError;
use crate::mem::GuestMemory;

verus! {

/// Where the entry point stands.
pub const SMBIOS_BASE: u64 = 0xff000;

/// Where the space for the tables ends.
pub const SMBIOS_LIMIT: u64 = 0x10_0000;

/// How long the entry point is.
pub const ENTRY_POINT_LEN: u64 = 31;

/// Where the structures begin.
pub const TABLE_ADDR: u64 = 0xff020;

/// Strings one after the other, each with a NUL behind it.
pub open spec fn terminated(ss: Seq<Seq<u8>>) -> Seq<u8>
    decreases ss.len(),
{
    if ss.len() == 0 {
        seq![]
    } else {
        terminated(ss.drop_last()) + ss.last().push(0u8)
    }
}

/// The string set of a structure.
pub open spec fn string_set(ss: Seq<Seq<u8>>) -> Seq<u8> {
    if ss.len() == 0 {
        seq![0u8, 0u8]
    } else {
        terminated(ss).push(0u8)
    }
}

/// The bytes of a list of strings.
pub open spec fn all_bytes(ss: Seq<&str>) -> Seq<Seq<u8>> {
    Seq::new(ss.len(), |i: int| encode_utf8(ss[i]@))
}

/// Appends the string set of a structure.
pub fn append_strings(t: &mut Vec<u8>, strings: &[&str])
    ensures
        final(t)@ == old(t)@ + string_set(all_bytes(strings@)),
{
    let ghost ss = all_bytes(strings@);
    if strings.len() == 0 {
        t.push(0);
        t.push(0);
        assert(t@ =~= old(t)@ + string_set(ss));
        return;
    }
    let mut i: usize = 0;
    assert(ss.take(0) =~= seq![]);
    assert(t@ =~= old(t)@ + terminated(ss.take(0)));
    while i < strings.len()
        invariant
            i <= strings@.len(),
            ss == all_bytes(strings@),
            t@ == old(t)@ + terminated(ss.take(i as int)),
        decreases strings@.len() - i,
    {
        let ghost before = t@;
        assert(ss.take(i as int + 1).drop_last() =~= ss.take(i as int));
        assert(ss.take(i as int + 1).last() == ss[i as int]);
        push_slice(t, strings[i].as_bytes());
        t.push(0);
        assert(t@ =~= before + ss[i as int].push(0u8));
        i += 1;
        assert(t@ =~= old(t)@ + terminated(ss.take(i as int)));
    }
    assert(ss.take(i as int) =~= ss);
    t.push(0);
    assert(t@ =~= old(t)@ + string_set(ss));
}

/// A string that can stand in a string set: not empty, and without NUL.
pub open spec fn plain(s: Seq<u8>) -> bool {
    s.len() > 0 && forall|k: int| 0 <= k < s.len() ==> #[trigger] s[k] != 0
}

proof fn lemma_terminated(ss: Seq<Seq<u8>>)
    requires
        forall|i: int| 0 <= i < ss.len() ==> plain(#[trigger] ss[i]),
    ensures
        ss.len() > 0 ==> terminated(ss).len() >= 2 && terminated(ss).last() == 0,
        ss.len() > 0 ==> terminated(ss)[0] != 0,
        forall|k: int|
            0 <= k < terminated(ss).len() - 1 ==> !(#[trigger] terminated(ss)[k] == 0 && terminated(
                ss,
            )[k + 1] == 0),
    decreases ss.len(),
{
    if ss.len() > 0 {
        let init = ss.drop_last();
        assert forall|i: int| 0 <= i < init.len() implies plain(#[trigger] init[i]) by {
            assert(init[i] == ss[i]);
        }
        lemma_terminated(init);
        let a = terminated(init);
        let s = ss.last();
        assert(plain(ss[ss.len() - 1]));
        let all = terminated(ss);
        assert forall|k: int| 0 <= k < all.len() - 1 implies !(#[trigger] all[k] == 0 && all[k + 1] == 0) by {
            if k + 1 < a.len() {
                assert(all[k] == a[k] && all[k + 1] == a[k + 1]);
            } else if k + 1 == a.len() {
                assert(all[k + 1] == s[0]);
            } else if k + 1 < all.len() - 1 {
                assert(all[k + 1] == s[k + 1 - a.len()]);
            } else {
                assert(all[k] == s[k - a.len()]);
            }
        }
        if init.len() > 0 {
            assert(all[0] == a[0]);
        } else {
            assert(a =~= seq![]);
            assert(all[0] == s[0]);
        }
    }
}

/// A walker that skips a structure's formatted area and then looks for two
/// NULs finds them at the very end of the string set, and not before.
pub proof fn law_string_set_ends_once(ss: Seq<Seq<u8>>)
    requires
        forall|i: int| 0 <= i < ss.len() ==> plain(#[trigger] ss[i]),
    ensures
        ({
            let s = string_set(ss);
            &&& s.len() >= 2
            &&& s[s.len() - 2] == 0 && s[s.len() - 1] == 0
            &&& forall|k: int| 0 <= k < s.len() - 2 ==> !(#[trigger] s[k] == 0 && s[k + 1] == 0)
        }),
{
    if ss.len() > 0 {
        lemma_terminated(ss);
        let t = terminated(ss);
        let s = string_set(ss);
        assert forall|k: int| 0 <= k < s.len() - 2 implies !(#[trigger] s[k] == 0 && s[k + 1] == 0) by {
            assert(s[k] == t[k] && s[k + 1] == t[k + 1]);
        }
    }
}

/// The strings of the BIOS structure.
pub open spec fn bios_strings() -> Seq<Seq<u8>> {
    seq![encode_utf8("hyperbug"@), encode_utf8("1.0"@), encode_utf8("01/01/2026"@)]
}

/// The BIOS structure: vendor, version and date, no size and no
/// characteristics claimed, release 1.0, no embedded controller.
pub open spec fn bios_info(handle: u16) -> Seq<u8> {
    seq![0u8, 24u8] + le16(handle) + seq![1u8, 2u8] + le16(0xE000) + seq![3u8, 0u8] + zeroes(8) + seq![
        0u8, 0u8, 1u8, 0u8, 0xffu8, 0xffu8,
    ] + string_set(bios_strings())
}

/// The BIOS structure.
pub fn build_bios_info(handle: u16) -> (r: Vec<u8>)
    ensures
        r@ == bios_info(handle),
{
    let mut t: Vec<u8> = Vec::new();
    t.push(0);
    t.push(24);
    push_u16(&mut t, handle);
    t.push(1);
    t.push(2);
    push_u16(&mut t, 0xE000);
    t.push(3);
    t.push(0);
    push_zeroes(&mut t, 8);
    t.push(0);
    t.push(0);
    t.push(1);
    t.push(0);
    t.push(0xff);
    t.push(0xff);
    assert(t@ =~= seq![0u8, 24u8] + le16(handle) + seq![1u8, 2u8] + le16(0xE000) + seq![3u8, 0u8] + zeroes(8) + seq![
        0u8, 0u8, 1u8, 0u8, 0xffu8, 0xffu8,
    ]);
    let strings: [&str; 3] = ["hyperbug", "1.0", "01/01/2026"];
    append_strings(&mut t, strings.as_slice());
    assert(all_bytes(strings@) =~= bios_strings());
    t
}

/// The strings of the system structure.
pub open spec fn system_strings() -> Seq<Seq<u8>> {
    seq![
        encode_utf8("hyperbug"@), encode_utf8("hyperbug-vm"@), encode_utf8("1.0"@),
        encode_utf8("HB-0000-0001"@), encode_utf8("hyperbug"@),
    ]
}

/// A fixed UUID, plainly a made-up one.
pub open spec fn uuid() -> Seq<u8> {
    seq![
        0x48u8, 0x59u8, 0x42u8, 0x47u8, 0x00u8, 0x01u8, 0x00u8, 0x01u8, 0x00u8, 0x01u8, 0x48u8, 0x59u8,
        0x42u8, 0x55u8, 0x47u8, 0x00u8,
    ]
}

/// The system structure: manufacturer, product, version and serial number,
/// UUID, woken by the power switch, no SKU, family.
pub open spec fn system_info(handle: u16) -> Seq<u8> {
    seq![1u8, 27u8] + le16(handle) + seq![1u8, 2u8, 3u8, 4u8] + uuid() + seq![6u8, 0u8, 5u8] + string_set(
        system_strings(),
    )
}

/// The system structure.
pub fn build_system_info(handle: u16) -> (r: Vec<u8>)
    ensures
        r@ == system_info(handle),
{
    let mut t: Vec<u8> = Vec::new();
    t.push(1);
    t.push(27);
    push_u16(&mut t, handle);
    t.push(1);
    t.push(2);
    t.push(3);
    t.push(4);
    let id: [u8; 16] = [
        0x48, 0x59, 0x42, 0x47, 0x00, 0x01, 0x00, 0x01, 0x00, 0x01, 0x48, 0x59, 0x42, 0x55, 0x47, 0x00,
    ];
    assert(id@ =~= uuid());
    push_slice(&mut t, id.as_slice());
    t.push(6);
    t.push(0);
    t.push(5);
    assert(t@ =~= seq![1u8, 27u8] + le16(handle) + seq![1u8, 2u8, 3u8, 4u8] + uuid() + seq![6u8, 0u8, 5u8]);
    let strings: [&str; 5] = ["hyperbug", "hyperbug-vm", "1.0", "HB-0000-0001", "hyperbug"];
    append_strings(&mut t, strings.as_slice());
    assert(all_bytes(strings@) =~= system_strings());
    t
}

/// The strings of the chassis structure.
pub open spec fn chassis_strings() -> Seq<Seq<u8>> {
    seq![encode_utf8("hyperbug"@), encode_utf8("1.0"@), encode_utf8("HB-CHASSIS-0001"@)]
}

/// The chassis structure: manufacturer, a rack mount chassis, version and
/// serial number, no asset tag.
pub open spec fn chassis_info(handle: u16) -> Seq<u8> {
    seq![3u8, 9u8] + le16(handle) + seq![1u8, 0x17u8, 2u8, 3u8, 0u8] + string_set(chassis_strings())
}

/// The chassis structure.
pub fn build_chassis_info(handle: u16) -> (r: Vec<u8>)
    ensures
        r@ == chassis_info(handle),
{
    let mut t: Vec<u8> = Vec::new();
    t.push(3);
    t.push(9);
    push_u16(&mut t, handle);
    t.push(1);
    t.push(0x17);
    t.push(2);
    t.push(3);
    t.push(0);
    assert(t@ =~= seq![3u8, 9u8] + le16(handle) + seq![1u8, 0x17u8, 2u8, 3u8, 0u8]);
    let strings: [&str; 3] = ["hyperbug", "1.0", "HB-CHASSIS-0001"];
    append_strings(&mut t, strings.as_slice());
    assert(all_bytes(strings@) =~= chassis_strings());
    t
}

/// The structure that ends the table.
pub open spec fn end_marker(handle: u16) -> Seq<u8> {
    seq![127u8, 4u8] + le16(handle) + string_set(seq![])
}

/// The structure that ends the table.
pub fn build_end_marker(handle: u16) -> (r: Vec<u8>)
    ensures
        r@ == end_marker(handle),
{
    let mut t: Vec<u8> = Vec::new();
    t.push(127);
    t.push(4);
    push_u16(&mut t, handle);
    assert(t@ =~= seq![127u8, 4u8] + le16(handle));
    let strings: Vec<&str> = Vec::new();
    append_strings(&mut t, strings.as_slice());
    assert(all_bytes(strings@) =~= seq![]);
    t
}

/// The entry point with both checksums still zero.
pub open spec fn entry_blank(table_addr: u32, table_len: u16, num_structures: u16, max_structure_size: u16) -> Seq<u8> {
    seq![0x5fu8, 0x53u8, 0x4du8, 0x5fu8, 0u8, 31u8, 2u8, 8u8] + le16(max_structure_size) + zeroes(6) + seq![
        0x5fu8, 0x44u8, 0x4du8, 0x49u8, 0x5fu8, 0u8,
    ] + le16(table_len) + le32(table_addr) + le16(num_structures) + seq![0x28u8]
}

/// The entry point: one checksum covers the last 15 bytes, and then one all
/// of them.
pub open spec fn entry_point(table_addr: u32, table_len: u16, num_structures: u16, max_structure_size: u16) -> Seq<u8> {
    let b = entry_blank(table_addr, table_len, num_structures, max_structure_size);
    let c = b.update(21, complement(b.subrange(16, 31)));
    c.update(4, complement(c))
}

/// The entry point for a table of `num_structures` structures.
pub fn build_entry_point(table_addr: u32, table_len: u16, num_structures: u16, max_structure_size: u16) -> (r: Vec<u8>)
    ensures
        r@ == entry_point(table_addr, table_len, num_structures, max_structure_size),
        r@.len() == ENTRY_POINT_LEN,
{
    let mut e: Vec<u8> = Vec::new();
    e.push(0x5f);
    e.push(0x53);
    e.push(0x4d);
    e.push(0x5f);
    e.push(0);
    e.push(31);
    e.push(2);
    e.push(8);
    push_u16(&mut e, max_structure_size);
    push_zeroes(&mut e, 6);
    e.push(0x5f);
    e.push(0x44);
    e.push(0x4d);
    e.push(0x49);
    e.push(0x5f);
    e.push(0);
    push_u16(&mut e, table_len);
    push_u32(&mut e, table_addr);
    push_u16(&mut e, num_structures);
    e.push(0x28);
    assert(e@ =~= entry_blank(table_addr, table_len, num_structures, max_structure_size));
    let tail: Vec<u8> = copy_range(e.as_slice(), 16, 31);
    e.set(21, checksum(tail.as_slice()));
    let c: u8 = checksum(e.as_slice());
    e.set(4, c);
    e
}

/// Both checksums of the entry point hold.
pub proof fn law_entry_point_sums_to_zero(table_addr: u32, table_len: u16, num_structures: u16, max_structure_size: u16)
    ensures
        ({
            let e = entry_point(table_addr, table_len, num_structures, max_structure_size);
            &&& e.len() == 31
            &&& sum8(e) == 0
            &&& sum8(e.subrange(16, 31)) == 0
        }),
{
    let b = entry_blank(table_addr, table_len, num_structures, max_structure_size);
    assert(b.len() == 31);
    assert(b[21] == 0 && b[4] == 0);
    let t = b.subrange(16, 31);
    let c = b.update(21, complement(t));
    let e = entry_point(table_addr, table_len, num_structures, max_structure_size);
    lemma_complement(t, 5);
    assert(e.subrange(16, 31) =~= t.update(5, complement(t)));
    lemma_complement(c, 4);
}

/// The structures, one after the other.
pub open spec fn structures() -> Seq<u8> {
    bios_info(0) + system_info(1) + chassis_info(2) + end_marker(3)
}

proof fn lemma_ascii(s: &str)
    requires
        s.is_ascii(),
    ensures
        encode_utf8(s@).len() == s@.len(),
        forall|k: int| 0 <= k < s@.len() ==> #[trigger] encode_utf8(s@)[k] == s@[k] as u8,
{
    is_ascii_chars_encode_utf8(s@);
}

/// How long the structures are. Every string is plain, so every string set
/// ends where its structure does.
pub proof fn law_structure_sizes(handle: u16)
    ensures
        bios_info(handle).len() == 49,
        system_info(handle).len() == 75,
        chassis_info(handle).len() == 39,
        end_marker(handle).len() == 6,
        forall|i: int| 0 <= i < bios_strings().len() ==> plain(#[trigger] bios_strings()[i]),
        forall|i: int| 0 <= i < system_strings().len() ==> plain(#[trigger] system_strings()[i]),
        forall|i: int| 0 <= i < chassis_strings().len() ==> plain(#[trigger] chassis_strings()[i]),
{
    reveal_strlit("hyperbug");
    reveal_strlit("1.0");
    reveal_strlit("01/01/2026");
    reveal_strlit("hyperbug-vm");
    reveal_strlit("HB-0000-0001");
    reveal_strlit("HB-CHASSIS-0001");
    lemma_ascii("hyperbug");
    lemma_ascii("1.0");
    lemma_ascii("01/01/2026");
    lemma_ascii("hyperbug-vm");
    lemma_ascii("HB-0000-0001");
    lemma_ascii("HB-CHASSIS-0001");
    reveal_with_fuel(terminated, 6);
    let b = bios_strings();
    assert(b.drop_last() =~= seq![b[0], b[1]]);
    assert(b.drop_last().drop_last() =~= seq![b[0]]);
    assert(b.drop_last().drop_last().drop_last() =~= seq![]);
    let c = chassis_strings();
    assert(c.drop_last() =~= seq![c[0], c[1]]);
    assert(c.drop_last().drop_last() =~= seq![c[0]]);
    assert(c.drop_last().drop_last().drop_last() =~= seq![]);
    let s = system_strings();
    assert(s.drop_last() =~= seq![s[0], s[1], s[2], s[3]]);
    assert(s.drop_last().drop_last() =~= seq![s[0], s[1], s[2]]);
    assert(s.drop_last().drop_last().drop_last() =~= seq![s[0], s[1]]);
    assert(s.drop_last().drop_last().drop_last().drop_last() =~= seq![s[0]]);
    assert(s.drop_last().drop_last().drop_last().drop_last().drop_last() =~= seq![]);
}

/// The memory of a guest with the tables written.
pub open spec fn smbios_image(mem: Seq<u8>) -> Seq<u8> {
    splice(
        splice(mem, SMBIOS_BASE as int, entry_point(TABLE_ADDR as u32, 169, 4, 75)),
        TABLE_ADDR as int,
        structures(),
    )
}

/// Writes the entry point and the structures into guest memory.
pub fn setup_smbios(mem: &mut GuestMemory) -> (r: Result<(), HyperbugError>)
    requires
        old(mem)@.len() >= SMBIOS_LIMIT,
    ensures
        r is Ok,
        final(mem)@ == smbios_image(old(mem)@),
{
    let bios = build_bios_info(0);
    let system = build_system_info(1);
    let chassis = build_chassis_info(2);
    let end = build_end_marker(3);
    proof {
        law_structure_sizes(0);
        law_structure_sizes(1);
        law_structure_sizes(2);
        law_structure_sizes(3);
    }
    let mut largest: usize = bios.len();
    if system.len() > largest {
        largest = system.len();
    }
    if chassis.len() > largest {
        largest = chassis.len();
    }
    if end.len() > largest {
        largest = end.len();
    }
    let mut table: Vec<u8> = Vec::new();
    push_slice(&mut table, bios.as_slice());
    push_slice(&mut table, system.as_slice());
    push_slice(&mut table, chassis.as_slice());
    push_slice(&mut table, end.as_slice());
    assert(table@ =~= structures());
    let entry = build_entry_point(TABLE_ADDR as u32, table.len() as u16, 4, largest as u16);
    mem.write_slice_unchecked_boot_only(SMBIOS_BASE, entry.as_slice());
    mem.write_slice_unchecked_boot_only(TABLE_ADDR, table.as_slice());
    Ok(())
}

/// The tables fit in the space reserved for them, do not share a byte with
/// one another or with the ACPI window, and nothing else is touched.
pub proof fn law_smbios_stays_in_its_space(mem: Seq<u8>, a: int)
    requires
        mem.len() >= SMBIOS_LIMIT,
        0 <= a < mem.len(),
    ensures
        smbios_image(mem).len() == mem.len(),
        structures().len() == 169,
        SMBIOS_BASE + ENTRY_POINT_LEN <= TABLE_ADDR,
        TABLE_ADDR + structures().len() <= SMBIOS_LIMIT,
        crate::acpi::ACPI_LIMIT <= SMBIOS_BASE,
        !(SMBIOS_BASE <= a < SMBIOS_LIMIT) ==> smbios_image(mem)[a] == mem[a],
        smbios_image(mem).subrange(SMBIOS_BASE as int, SMBIOS_BASE + ENTRY_POINT_LEN) == entry_point(
            TABLE_ADDR as u32,
            169,
            4,
            75,
        ),
        smbios_image(mem).subrange(TABLE_ADDR as int, TABLE_ADDR + 169) == structures(),
{
    law_structure_sizes(0);
    law_structure_sizes(1);
    law_structure_sizes(2);
    law_structure_sizes(3);
    law_entry_point_sums_to_zero(TABLE_ADDR as u32, 169, 4, 75);
    let e = entry_point(TABLE_ADDR as u32, 169, 4, 75);
    assert(smbios_image(mem).subrange(SMBIOS_BASE as int, SMBIOS_BASE + ENTRY_POINT_LEN) =~= e);
    assert(smbios_image(mem).subrange(TABLE_ADDR as int, TABLE_ADDR + 169) =~= structures());
}

/// Strings stand behind a structure one after the other, each with its zero,
/// and one zero more ends them.
pub proof fn law_strings_stand_in_order(a: Seq<u8>, more: Seq<Seq<u8>>)
    ensures
        string_set(seq![]) == seq![0u8, 0u8],
        string_set(seq![a]) == a + seq![0u8, 0u8],
        more.len() > 0 ==> string_set(seq![a] + more) == a + seq![0u8] + string_set(more),
{
    assert(seq![a].drop_last() =~= seq![]);
    reveal_with_fuel(terminated, 2);
    assert(string_set(seq![a]) =~= a + seq![0u8, 0u8]);
    if more.len() > 0 {
        lemma_terminated_front(a, more);
        assert(string_set(seq![a] + more) =~= a + seq![0u8] + string_set(more));
    }
}

proof fn lemma_terminated_front(a: Seq<u8>, more: Seq<Seq<u8>>)
    ensures
        terminated(seq![a] + more) == a.push(0u8) + terminated(more),
    decreases more.len(),
{
    let all = seq![a] + more;
    if more.len() == 0 {
        assert(all.drop_last() =~= seq![]);
        reveal_with_fuel(terminated, 2);
        assert(terminated(all) =~= a.push(0u8) + terminated(more));
    } else {
        assert(all.drop_last() =~= seq![a] + more.drop_last());
        lemma_terminated_front(a, more.drop_last());
        assert(terminated(all) =~= a.push(0u8) + terminated(more));
    }
}

/// Each structure says what it is, how long its fields are and what its handle
/// is, refers to its strings by number, and is followed by them.
#[verifier::spinoff_prover]
pub proof fn law_structures_describe_themselves(handle: u16)
    ensures
        ({
            let b = bios_info(handle);
            &&& b[0] == 0
            &&& b[1] == 24
            &&& crate::bytes::u16_at(b, 2) == handle
            &&& b[4] == 1
            &&& b[5] == 2
            &&& crate::bytes::u16_at(b, 6) == 0xe000
            &&& b[8] == 3
            &&& b.skip(24) == string_set(
                seq![encode_utf8("hyperbug"@), encode_utf8("1.0"@), encode_utf8("01/01/2026"@)],
            )
        }),
        ({
            let s = system_info(handle);
            &&& s[0] == 1
            &&& s[1] == 27
            &&& crate::bytes::u16_at(s, 2) == handle
            &&& s[4] == 1
            &&& s[5] == 2
            &&& s[6] == 3
            &&& s[7] == 4
            &&& s.subrange(8, 24) == uuid()
            &&& s[24] == 6
            &&& s[26] == 5
            &&& s.skip(27) == string_set(
                seq![
                    encode_utf8("hyperbug"@),
                    encode_utf8("hyperbug-vm"@),
                    encode_utf8("1.0"@),
                    encode_utf8("HB-0000-0001"@),
                    encode_utf8("hyperbug"@),
                ],
            )
        }),
        ({
            let c = chassis_info(handle);
            &&& c[0] == 3
            &&& c[1] == 9
            &&& crate::bytes::u16_at(c, 2) == handle
            &&& c[4] == 1
            &&& c[6] == 2
            &&& c[7] == 3
            &&& c.skip(9) == string_set(
                seq![encode_utf8("hyperbug"@), encode_utf8("1.0"@), encode_utf8("HB-CHASSIS-0001"@)],
            )
        }),
        ({
            let e = end_marker(handle);
            &&& e[0] == 127
            &&& e[1] == 4
            &&& crate::bytes::u16_at(e, 2) == handle
            &&& e.skip(4) == seq![0u8, 0u8]
        }),
{
    let (b, s, c, e) = (bios_info(handle), system_info(handle), chassis_info(handle), end_marker(handle));
    crate::bytes::lemma_u16_le(b, 2, handle);
    crate::bytes::lemma_u16_le(b, 6, 0xe000);
    assert(b.skip(24) =~= string_set(bios_strings()));
    crate::bytes::lemma_u16_le(s, 2, handle);
    assert(s.subrange(8, 24) =~= uuid());
    assert(s.skip(27) =~= string_set(system_strings()));
    crate::bytes::lemma_u16_le(c, 2, handle);
    assert(c.skip(9) =~= string_set(chassis_strings()));
    crate::bytes::lemma_u16_le(e, 2, handle);
    assert(e.skip(4) =~= seq![0u8, 0u8]);
}

/// The entry point has the two marks that a guest scans for, and says where the
/// structures are, how long they are in all, how many there are and how long
/// the longest is.
pub proof fn law_entry_point_fields(table_addr: u32, table_len: u16, num_structures: u16, max_structure_size: u16)
    ensures
        ({
            let e = entry_point(table_addr, table_len, num_structures, max_structure_size);
            &&& e.len() == 31
            &&& e[0] == '_' as u8 && e[1] == 'S' as u8 && e[2] == 'M' as u8 && e[3] == '_' as u8
            &&& e[5] == 31
            &&& e[6] == 2
            &&& e[7] == 8
            &&& crate::bytes::u16_at(e, 8) == max_structure_size
            &&& e[16] == '_' as u8 && e[17] == 'D' as u8 && e[18] == 'M' as u8 && e[19] == 'I' as u8 && e[20]
                == '_' as u8
            &&& crate::bytes::u16_at(e, 22) == table_len
            &&& crate::bytes::u32_at(e, 24) == table_addr
            &&& crate::bytes::u16_at(e, 28) == num_structures
            &&& e[30] == 0x28
        }),
{
    let b = entry_blank(table_addr, table_len, num_structures, max_structure_size);
    let e = entry_point(table_addr, table_len, num_structures, max_structure_size);
    assert(b.len() == 31);
    assert forall|i: int| 0 <= i < 31 && i != 4 && i != 21 implies e[i] == #[trigger] b[i] by {}
    assert(b[0] == 0x5f && b[1] == 0x53 && b[2] == 0x4d && b[3] == 0x5f && b[5] == 31 && b[6] == 2 && b[7] == 8);
    assert(b[16] == 0x5f && b[17] == 0x44 && b[18] == 0x4d && b[19] == 0x49 && b[20] == 0x5f && b[30] == 0x28);
    assert(b[8] == le16(max_structure_size)[0] && b[9] == le16(max_structure_size)[1]);
    crate::bytes::lemma_u16_le(e, 8, max_structure_size);
    assert(b[22] == le16(table_len)[0] && b[23] == le16(table_len)[1]);
    crate::bytes::lemma_u16_le(e, 22, table_len);
    assert forall|k: int| 0 <= k < 4 implies e[24 + k] == #[trigger] le32(table_addr)[k] by {
        assert(b[24 + k] == le32(table_addr)[k]);
    }
    crate::bytes::lemma_u32_le(e, 24, table_addr);
    assert(b[28] == le16(num_structures)[0] && b[29] == le16(num_structures)[1]);
    crate::bytes::lemma_u16_le(e, 28, num_structures);
}

/// A guest that finds the entry point at 0xff000 finds the structures by it:
/// the numbers that it gives are those of the structures that are there, four
/// of them, of the BIOS, the system, the chassis, and the one that ends them.
#[verifier::spinoff_prover]
pub proof fn law_guest_finds_the_structures(mem: Seq<u8>)
    requires
        mem.len() >= 0x10_0000,
    ensures
        ({
            let m = smbios_image(mem);
            let at = crate::bytes::u32_at(m, 0xff018) as int;
            let len = crate::bytes::u16_at(m, 0xff016) as int;
            &&& m[0xff000] == '_' as u8 && m[0xff001] == 'S' as u8 && m[0xff002] == 'M' as u8 && m[0xff003] == '_' as u8
            &&& crate::bytes::u16_at(m, 0xff01c) == 4
            &&& m.subrange(at, at + len) == bios_info(0) + system_info(1) + chassis_info(2) + end_marker(3)
            &&& crate::bytes::u16_at(m, 0xff008) == system_info(1).len()
            &&& bios_info(0).len() <= system_info(1).len()
            &&& chassis_info(2).len() <= system_info(1).len()
            &&& end_marker(3).len() <= system_info(1).len()
        }),
{
    let m = smbios_image(mem);
    let e = entry_point(0xff020, 169, 4, 75);
    law_smbios_stays_in_its_space(mem, 0);
    law_entry_point_fields(0xff020, 169, 4, 75);
    assert forall|k: int| 0 <= k < 31 implies #[trigger] e[k] == m[0xff000 + k] by {
        assert(m.subrange(0xff000, 0xff01f)[k] == m[0xff000 + k]);
    }
    assert(e[0] == m[0xff000] && e[1] == m[0xff001] && e[2] == m[0xff002] && e[3] == m[0xff003]);
    assert forall|k: int| 0 <= k < 2 implies e[8 + k] == #[trigger] m[0xff008 + k] by {
        assert(e[8 + k] == m[0xff000 + (8 + k)]);
    }
    crate::bytes::lemma_u16_same(e, 8, m, 0xff008);
    assert forall|k: int| 0 <= k < 2 implies e[22 + k] == #[trigger] m[0xff016 + k] by {
        assert(e[22 + k] == m[0xff000 + (22 + k)]);
    }
    crate::bytes::lemma_u16_same(e, 22, m, 0xff016);
    assert forall|k: int| 0 <= k < 4 implies e[24 + k] == #[trigger] m[0xff018 + k] by {
        assert(e[24 + k] == m[0xff000 + (24 + k)]);
    }
    crate::bytes::lemma_u32_same(e, 24, m, 0xff018);
    assert forall|k: int| 0 <= k < 2 implies e[28 + k] == #[trigger] m[0xff01c + k] by {
        assert(e[28 + k] == m[0xff000 + (28 + k)]);
    }
    crate::bytes::lemma_u16_same(e, 28, m, 0xff01c);
    law_structure_sizes(0);
    law_structure_sizes(1);
    law_structure_sizes(2);
    law_structure_sizes(3);
}

} // verus!
