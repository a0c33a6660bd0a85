//! The Linux x86-64 boot protocol: checking a bzImage, placing the kernel, its
//! command line and its initramfs, and building the zero page.

use vstd::prelude::*;
use vstd::string::*;
use vstd::utf8::*;

use crate::bytes::{copy_range, get_u16, get_u32, le32, le64, lemma_u32_le, lemma_u64_le, push_u32, push_u64, push_zeroes, put, splice, u16_at, u32_at, u64_at, zeroes};
use crate::mem::GuestMemory;
use crate::text::{cat5, dec, dec_string, hex0x, hex0x_string};

verus! {

/// Where the protected-mode kernel goes: 1 MiB.
pub const KERNEL_START: u64 = 0x100000;

/// Where the zero page goes; it is one page long.
pub const ZERO_PAGE_START: u64 = 0x7000;

/// Where the command line goes.
pub const CMDLINE_START: u64 = 0x20000;

/// The top of the first stack, one page below the command line.
pub const BOOT_STACK_TOP: u64 = 0x1f000;

/// Where the setup header begins, with the number of setup sectors.
pub const HDR_OFFSET: usize = 0x1f1;
/// The boot signature.
pub const BOOT_FLAG_OFF: usize = 0x1fe;
/// The `HdrS` magic.
pub const HEADER_MAGIC_OFF: usize = 0x202;
/// The load flags of newer kernels.
pub const XLOADFLAGS_OFF: usize = 0x236;
/// Who loaded the kernel.
pub const TYPE_OF_LOADER_OFF: usize = 0x210;
/// Where the initramfs is.
pub const RAMDISK_IMAGE_OFF: usize = 0x218;
/// How long the initramfs is.
pub const RAMDISK_SIZE_OFF: usize = 0x21c;
/// Where the command line is.
pub const CMD_LINE_PTR_OFF: usize = 0x228;
/// How long a command line the kernel accepts.
pub const CMDLINE_SIZE_OFF: usize = 0x238;
/// How many memory ranges there are.
pub const E820_ENTRIES_OFF: usize = 0x1e8;
/// The memory ranges.
pub const E820_TABLE_OFF: usize = 0x2d0;

/// An image this long holds every header field.
pub const MIN_HEADER_LEN: usize = 0x300;
/// What stands at `BOOT_FLAG_OFF`.
pub const BOOT_FLAG_MAGIC: u16 = 0xaa55;
/// What stands at `HEADER_MAGIC_OFF`.
pub const HDRS_MAGIC: u32 = 0x5372_6448;
/// The load flag of a kernel with a 64-bit entry point.
pub const XLF_KERNEL_64: u16 = 1;
/// The longest command line that a kernel without the field accepts.
pub const LEGACY_CMDLINE_MAX: u32 = 255;
/// Where usable low memory ends.
pub const EBDA_START: u64 = 0x9_fc00;
/// The kind of a usable memory range.
pub const E820_RAM: u32 = 1;
/// The initramfs is placed below this: its address has 32 bits.
pub const RAMDISK_ADDR_LIMIT: u64 = 0x1_0000_0000;

/// A kernel in guest memory.
#[derive(Clone, Copy, Debug, PartialEq, Eq, Structural)]
pub struct LoadedKernel {
    /// The 64-bit entry point.
    pub entry_point: u64,
}

/// The size of the setup area: 512 bytes for each setup sector and for the
/// boot sector. No setup sectors means four.
pub open spec fn setup_size_of(raw: Seq<u8>) -> int {
    ((if raw[0x1f1] == 0 { 4 } else { raw[0x1f1] as int }) + 1) * 512
}

/// Why an image cannot be booted, if it cannot.
pub open spec fn image_error(raw: Seq<u8>) -> Option<Seq<char>> {
    if raw.len() < 0x300 {
        Some("file too small to be a bzImage"@)
    } else if u16_at(raw, 0x1fe) != BOOT_FLAG_MAGIC {
        Some("missing 0xAA55 boot signature"@)
    } else if u32_at(raw, 0x202) != HDRS_MAGIC {
        Some("missing \"HdrS\" header magic"@)
    } else if u16_at(raw, 0x236) & XLF_KERNEL_64 == 0 {
        Some("kernel does not support the 64-bit boot protocol"@)
    } else if raw.len() <= setup_size_of(raw) {
        Some("truncated bzImage: no protected-mode code past setup"@)
    } else {
        None
    }
}

/// An image that can be booted.
pub struct BzImage {
    raw: Vec<u8>,
    setup_size: usize,
}

impl View for BzImage {
    type V = Seq<u8>;

    closed spec fn view(&self) -> Seq<u8> {
        self.raw@
    }
}

/// The longest command line, with its NUL, that the kernel accepts.
pub open spec fn cmdline_max_of(raw: Seq<u8>) -> u32 {
    if u32_at(raw, 0x238) == 0 {
        LEGACY_CMDLINE_MAX
    } else {
        u32_at(raw, 0x238)
    }
}

/// The message for a command line that is too long.
pub open spec fn cmdline_too_long(len: nat, kernel_max: u32) -> Seq<char> {
    "--cmdline is "@ + dec(len) + " bytes; this kernel accepts at most "@ + dec(
        if kernel_max == 0 { 0 } else { (kernel_max - 1) as nat },
    ) + " and only 917503 bytes are reserved for it"@
}

/// One usable memory range of the zero page.
pub open spec fn e820_entry(base: u64, len: u64) -> Seq<u8> {
    le64(base) + le64(len) + le32(E820_RAM)
}

/// The zero page with the kernel's own setup header, the loader's type and
/// the command line pointer.
pub open spec fn zero_page_header(raw: Seq<u8>) -> Seq<u8> {
    let end = if setup_size_of(raw) < 4096 { setup_size_of(raw) } else { 4096 };
    splice(
        splice(zeroes(4096), 0x1f1, raw.subrange(0x1f1, end)).update(0x210, 0xffu8),
        0x228,
        le32(0x20000),
    )
}

/// `z` with where the initramfs is, if there is one.
pub open spec fn with_ramdisk(z: Seq<u8>, initramfs: Option<Initramfs>) -> Seq<u8> {
    match initramfs {
        Some(i) => splice(
            splice(z, 0x218, le32((i.addr % 0x1_0000_0000) as u32)),
            0x21c,
            le32((i.size % 0x1_0000_0000) as u32),
        ),
        None => z,
    }
}

/// `z` with the memory ranges: low memory, and what is above 1 MiB.
pub open spec fn with_e820(z: Seq<u8>, mem_size: u64) -> Seq<u8> {
    let low = splice(z, 0x2d0, e820_entry(0, EBDA_START));
    if mem_size > KERNEL_START {
        splice(low, 0x2e4, e820_entry(KERNEL_START, (mem_size - KERNEL_START) as u64)).update(
            0x1e8,
            2u8,
        )
    } else {
        low.update(0x1e8, 1u8)
    }
}

/// The zero page of a guest.
pub open spec fn zero_page(raw: Seq<u8>, mem_size: u64, initramfs: Option<Initramfs>) -> Seq<u8> {
    with_e820(with_ramdisk(zero_page_header(raw), initramfs), mem_size)
}

/// Overwrites four bytes of `buf` with a number.
pub fn put_u32(buf: &mut Vec<u8>, off: usize, val: u32)
    requires
        off + 4 <= old(buf)@.len(),
    ensures
        final(buf)@ == splice(old(buf)@, off as int, le32(val)),
{
    let mut v: Vec<u8> = Vec::new();
    push_u32(&mut v, val);
    assert(v@ =~= le32(val));
    put(buf, off, v.as_slice());
}

fn put_e820(buf: &mut Vec<u8>, off: usize, base: u64, len: u64)
    requires
        off + 20 <= old(buf)@.len(),
    ensures
        final(buf)@ == splice(old(buf)@, off as int, e820_entry(base, len)),
{
    let mut v: Vec<u8> = Vec::new();
    push_u64(&mut v, base);
    push_u64(&mut v, len);
    push_u32(&mut v, E820_RAM);
    assert(v@ =~= e820_entry(base, len));
    put(buf, off, v.as_slice());
}

fn bad(msg: &str) -> (r: String)
    ensures
        r@ == msg@,
{
    msg.to_owned()
}

impl BzImage {
    #[verifier::type_invariant]
    spec fn inv(self) -> bool {
        image_error(self.raw@) is None && self.setup_size == setup_size_of(self.raw@)
    }

    /// Checks an image. Every check that it can be booted is made here.
    pub fn parse(raw: Vec<u8>) -> (r: Result<Self, String>)
        ensures
            match r {
                Ok(b) => image_error(raw@) is None && b@ == raw@,
                Err(e) => image_error(raw@) == Some(e@),
            },
    {
        if raw.len() < MIN_HEADER_LEN {
            return Err(bad("file too small to be a bzImage"));
        }
        let s = raw.as_slice();
        if get_u16(s, BOOT_FLAG_OFF) != BOOT_FLAG_MAGIC {
            return Err(bad("missing 0xAA55 boot signature"));
        }
        if get_u32(s, HEADER_MAGIC_OFF) != HDRS_MAGIC {
            return Err(bad("missing \"HdrS\" header magic"));
        }
        if get_u16(s, XLOADFLAGS_OFF) & XLF_KERNEL_64 == 0 {
            return Err(bad("kernel does not support the 64-bit boot protocol"));
        }
        let sects: usize = if raw[HDR_OFFSET] == 0 { 4 } else { raw[HDR_OFFSET] as usize };
        let setup_size: usize = (sects + 1) * 512;
        if raw.len() <= setup_size {
            return Err(bad("truncated bzImage: no protected-mode code past setup"));
        }
        Ok(BzImage { raw, setup_size })
    }

    /// The longest command line, with its NUL, that the kernel accepts.
    pub fn cmdline_max(&self) -> (r: u32)
        ensures
            r == cmdline_max_of(self@),
    {
        proof {
            use_type_invariant(self);
        }
        let n: u32 = get_u32(self.raw.as_slice(), CMDLINE_SIZE_OFF);
        if n == 0 {
            LEGACY_CMDLINE_MAX
        } else {
            n
        }
    }

    /// Puts the protected-mode kernel at `KERNEL_START`, if it fits in
    /// `mem_size` bytes.
    pub fn load(&self, mem: &mut GuestMemory, mem_size: u64) -> (r: Result<LoadedKernel, String>)
        requires
            mem_size <= old(mem)@.len(),
        ensures
            ({
                let code = self@.skip(setup_size_of(self@));
                match r {
                    Ok(k) => {
                        &&& KERNEL_START + code.len() <= mem_size
                        &&& k.entry_point == KERNEL_START + 0x200
                        &&& final(mem)@ == splice(old(mem)@, KERNEL_START as int, code)
                    },
                    Err(e) => {
                        &&& KERNEL_START + code.len() > mem_size
                        &&& e@ == "guest memory too small to hold the kernel image"@
                        &&& final(mem)@ == old(mem)@
                    },
                }
            }),
    {
        proof {
            use_type_invariant(self);
        }
        let code: Vec<u8> = copy_range(self.raw.as_slice(), self.setup_size, self.raw.len());
        assert(code@ =~= self@.skip(setup_size_of(self@)));
        if mem_size < KERNEL_START || code.len() as u64 > mem_size - KERNEL_START {
            return Err(bad("guest memory too small to hold the kernel image"));
        }
        mem.write_slice_unchecked_boot_only(KERNEL_START, code.as_slice());
        Ok(LoadedKernel { entry_point: KERNEL_START + 0x200 })
    }

    /// Puts the command line, with a NUL behind it, at `CMDLINE_START`, unless
    /// it is longer than the kernel accepts or than the space below the
    /// kernel.
    pub fn write_cmdline(&self, mem: &mut GuestMemory, cmdline: &str) -> (r: Result<(), String>)
        requires
            old(mem)@.len() >= KERNEL_START,
        ensures
            ({
                let text = encode_utf8(cmdline@);
                let max = cmdline_max_of(self@);
                match r {
                    Ok(_) => {
                        &&& text.len() + 1 <= KERNEL_START - CMDLINE_START
                        &&& text.len() + 1 <= max
                        &&& final(mem)@ == splice(
                            old(mem)@,
                            CMDLINE_START as int,
                            text.push(0u8),
                        )
                    },
                    Err(e) => {
                        &&& text.len() + 1 > KERNEL_START - CMDLINE_START || text.len() + 1 > max
                        &&& e@ == cmdline_too_long(text.len(), max)
                        &&& final(mem)@ == old(mem)@
                    },
                }
            }),
    {
        let text = cmdline.as_bytes();
        let len: u64 = text.len() as u64;
        let room: u64 = KERNEL_START - CMDLINE_START;
        let max: u64 = self.cmdline_max() as u64;
        if len >= room || len >= max {
            let n = dec_string(len);
            let m = dec_string(max.saturating_sub(1));
            return Err(
                cat5(
                    "--cmdline is ",
                    n.as_str(),
                    " bytes; this kernel accepts at most ",
                    m.as_str(),
                    " and only 917503 bytes are reserved for it",
                ),
            );
        }
        let mut line: Vec<u8> = copy_range(text, 0, text.len());
        line.push(0);
        assert(line@ =~= text@.push(0u8));
        mem.write_slice_unchecked_boot_only(CMDLINE_START, line.as_slice());
        Ok(())
    }

    /// Builds the zero page at `ZERO_PAGE_START`.
    pub fn build_zero_page(&self, mem: &mut GuestMemory, mem_size: u64, initramfs: Option<Initramfs>)
        requires
            old(mem)@.len() >= ZERO_PAGE_START + 4096,
        ensures
            final(mem)@ == splice(
                old(mem)@,
                ZERO_PAGE_START as int,
                zero_page(self@, mem_size, initramfs),
            ),
    {
        proof {
            use_type_invariant(self);
        }
        let mut page: Vec<u8> = Vec::new();
        push_zeroes(&mut page, 4096);
        assert(page@ =~= zeroes(4096));
        let end: usize = if self.setup_size < 4096 { self.setup_size } else { 4096 };
        let header: Vec<u8> = copy_range(self.raw.as_slice(), HDR_OFFSET, end);
        put(&mut page, HDR_OFFSET, header.as_slice());
        page.set(TYPE_OF_LOADER_OFF, 0xff);
        put_u32(&mut page, CMD_LINE_PTR_OFF, CMDLINE_START as u32);
        if let Some(i) = initramfs {
            put_u32(&mut page, RAMDISK_IMAGE_OFF, (i.addr % 0x1_0000_0000) as u32);
            put_u32(&mut page, RAMDISK_SIZE_OFF, (i.size % 0x1_0000_0000) as u32);
        }
        put_e820(&mut page, E820_TABLE_OFF, 0, EBDA_START);
        if mem_size > KERNEL_START {
            put_e820(&mut page, E820_TABLE_OFF + 20, KERNEL_START, mem_size - KERNEL_START);
            page.set(E820_ENTRIES_OFF, 2);
        } else {
            page.set(E820_ENTRIES_OFF, 1);
        }
        mem.write_slice_unchecked_boot_only(ZERO_PAGE_START, page.as_slice());
    }
}

/// The zero page tells the kernel where its command line is and which memory
/// it may use, and keeps every other header field as the image has it.
pub proof fn law_zero_page_describes_the_guest(raw: Seq<u8>, mem_size: u64, initramfs: Option<Initramfs>)
    requires
        image_error(raw) is None,
        initramfs matches Some(i) ==> i.addr <= u32::MAX && i.size <= u32::MAX,
    ensures
        ({
            let z = zero_page(raw, mem_size, initramfs);
            &&& z.len() == 4096
            &&& u32_at(z, 0x228) == CMDLINE_START
            &&& u64_at(z, 0x2d0) == 0
            &&& u64_at(z, 0x2d8) == EBDA_START
            &&& u32_at(z, 0x2e0) == E820_RAM
            &&& mem_size > KERNEL_START ==> z[0x1e8] == 2 && u64_at(z, 0x2e4) == KERNEL_START && u64_at(
                z,
                0x2ec,
            ) == mem_size - KERNEL_START && u32_at(z, 0x2f4) == E820_RAM
            &&& mem_size <= KERNEL_START ==> z[0x1e8] == 1
            &&& initramfs matches Some(i) ==> u32_at(z, 0x218) == i.addr && u32_at(z, 0x21c) == i.size
            &&& z[0x210] == 0xff
            &&& forall|k: int|
                0x22c <= k < 0x2d0 ==> #[trigger] z[k] == raw[k]
        }),
{
    let z = zero_page(raw, mem_size, initramfs);
    assert forall|k: int| 0 <= k < 4 implies z[0x228 + k] == #[trigger] le32(0x20000)[k] by {}
    lemma_u32_le(z, 0x228, 0x20000);
    let low = e820_entry(0, EBDA_START);
    assert forall|k: int| 0 <= k < 20 implies z[0x2d0 + k] == #[trigger] low[k] by {}
    lemma_entry_read(z, 0x2d0, 0, EBDA_START);
    if mem_size > KERNEL_START {
        let high = e820_entry(KERNEL_START, (mem_size - KERNEL_START) as u64);
        assert forall|k: int| 0 <= k < 20 implies z[0x2e4 + k] == #[trigger] high[k] by {}
        lemma_entry_read(z, 0x2e4, KERNEL_START, (mem_size - KERNEL_START) as u64);
    }
    if let Some(i) = initramfs {
        let (a, b) = (i.addr as u32, i.size as u32);
        assert forall|k: int| 0 <= k < 4 implies z[0x218 + k] == #[trigger] le32(a)[k] by {}
        assert forall|k: int| 0 <= k < 4 implies z[0x21c + k] == #[trigger] le32(b)[k] by {}
        lemma_u32_le(z, 0x218, a);
        lemma_u32_le(z, 0x21c, b);
    }
}

proof fn lemma_entry_read(z: Seq<u8>, at: int, base: u64, len: u64)
    requires
        0 <= at,
        at + 20 <= z.len(),
        forall|k: int| 0 <= k < 20 ==> z[at + k] == #[trigger] e820_entry(base, len)[k],
    ensures
        u64_at(z, at) == base,
        u64_at(z, at + 8) == len,
        u32_at(z, at + 16) == E820_RAM,
{
    let e = e820_entry(base, len);
    assert forall|k: int| 0 <= k < 8 implies z[at + k] == #[trigger] le64(base)[k] by {
        assert(e[k] == le64(base)[k]);
    }
    assert forall|k: int| 0 <= k < 8 implies z[at + 8 + k] == #[trigger] le64(len)[k] by {
        assert(e[8 + k] == le64(len)[k]);
        assert(z[at + (8 + k)] == e[8 + k]);
    }
    assert forall|k: int| 0 <= k < 4 implies z[at + 16 + k] == #[trigger] le32(E820_RAM)[k] by {
        assert(e[16 + k] == le32(E820_RAM)[k]);
        assert(z[at + (16 + k)] == e[16 + k]);
    }
    lemma_u64_le(z, at, base);
    lemma_u64_le(z, at + 8, len);
    lemma_u32_le(z, at + 16, E820_RAM);
}

/// Where an initramfs is in guest memory.
#[derive(Clone, Copy, Debug, PartialEq, Eq, Structural)]
pub struct Initramfs {
    pub addr: u64,
    pub size: u64,
}

/// The end of the memory that an initramfs may use.
pub open spec fn ramdisk_top(mem_size: u64) -> u64 {
    if mem_size < RAMDISK_ADDR_LIMIT {
        mem_size
    } else {
        RAMDISK_ADDR_LIMIT
    }
}

/// Where an initramfs of `size` bytes goes: as high as it fits, at a multiple
/// of 4 KiB.
pub open spec fn ramdisk_addr(size: int, mem_size: u64) -> int {
    (ramdisk_top(mem_size) - size) / 4096 * 4096
}

impl Initramfs {
    /// Decides where an initramfs of `size` bytes goes. One that is empty, or
    /// that does not fit between the kernel and the end of the memory that it
    /// may use, is refused.
    pub fn place(size: u64, mem_size: u64) -> (r: Result<Self, String>)
        ensures
            ({
                let top = ramdisk_top(mem_size);
                match r {
                    Ok(i) => {
                        &&& size > 0
                        &&& KERNEL_START + size <= top
                        &&& i.addr == ramdisk_addr(size as int, mem_size)
                        &&& i.size == size
                    },
                    Err(e) => if size == 0 {
                        e@ == "initramfs is empty"@
                    } else {
                        &&& KERNEL_START + size > top
                        &&& e@ == "initramfs of "@ + dec(size as nat) + " bytes doesn't fit below "@
                            + hex0x(top as nat) + " in guest memory"@
                    },
                }
            }),
    {
        let top: u64 = if mem_size < RAMDISK_ADDR_LIMIT { mem_size } else { RAMDISK_ADDR_LIMIT };
        if size == 0 {
            return Err(bad("initramfs is empty"));
        }
        if size > top.saturating_sub(KERNEL_START) {
            let n = dec_string(size);
            let t = hex0x_string(top);
            return Err(
                cat5("initramfs of ", n.as_str(), " bytes doesn't fit below ", t.as_str(), " in guest memory"),
            );
        }
        Ok(Initramfs { addr: (top - size) / 4096 * 4096, size })
    }

    /// Puts the initramfs `raw` into guest memory.
    pub fn load(mem: &mut GuestMemory, raw: &[u8], mem_size: u64) -> (r: Result<Self, String>)
        requires
            mem_size <= old(mem)@.len(),
        ensures
            ({
                let top = ramdisk_top(mem_size);
                let size = raw@.len();
                match r {
                    Ok(i) => {
                        &&& size > 0
                        &&& KERNEL_START + size <= top
                        &&& i.addr == ramdisk_addr(size as int, mem_size)
                        &&& i.size == size
                        &&& final(mem)@ == splice(old(mem)@, i.addr as int, raw@)
                    },
                    Err(e) => {
                        &&& final(mem)@ == old(mem)@
                        &&& if size == 0 {
                            e@ == "initramfs is empty"@
                        } else {
                            &&& KERNEL_START + size > top
                            &&& e@ == "initramfs of "@ + dec(size) + " bytes doesn't fit below "@
                                + hex0x(top as nat) + " in guest memory"@
                        }
                    },
                }
            }),
    {
        let i = Initramfs::place(raw.len() as u64, mem_size)?;
        mem.write_slice_unchecked_boot_only(i.addr, raw);
        Ok(i)
    }
}

/// An initramfs that is placed lies above the start of the kernel, inside
/// guest memory and within reach of a 32-bit address, at a multiple of 4 KiB.
pub proof fn law_initramfs_placement(size: int, mem_size: u64)
    requires
        size > 0,
        KERNEL_START + size <= ramdisk_top(mem_size),
    ensures
        ({
            let addr = ramdisk_addr(size, mem_size);
            &&& KERNEL_START <= addr
            &&& addr + size <= mem_size
            &&& addr + size <= RAMDISK_ADDR_LIMIT
            &&& addr % 4096 == 0
        }),
{
}

/// A file is taken for a kernel if and only if it has the marks of one: the
/// boot signature, the letters `HdrS`, the flag of the 64-bit boot protocol,
/// and code behind as many sectors of setup as it says, where none means four,
/// and one more.
pub proof fn law_what_is_a_kernel(raw: Seq<u8>)
    ensures
        image_error(raw) is None <==> {
            &&& raw.len() >= 0x300
            &&& raw[0x1fe] == 0x55
            &&& raw[0x1ff] == 0xaa
            &&& raw[0x202] == 'H' as u8
            &&& raw[0x203] == 'd' as u8
            &&& raw[0x204] == 'r' as u8
            &&& raw[0x205] == 'S' as u8
            &&& raw[0x236] % 2 == 1
            &&& raw.len() > 512 + 512 * (if raw[0x1f1] == 0 { 4int } else { raw[0x1f1] as int })
        },
        setup_size_of(raw) == 512 + 512 * (if raw[0x1f1] == 0 { 4int } else { raw[0x1f1] as int }),
        raw.len() < 0x300 ==> image_error(raw) is Some,
{
    crate::bytes::law_little_endian_reads(raw, 0x1fe);
    crate::bytes::law_little_endian_reads(raw, 0x202);
    crate::bytes::law_little_endian_reads(raw, 0x236);
    let x = u16_at(raw, 0x236);
    assert((x & 1u16 != 0) == (x % 2u16 == 1u16)) by (bit_vector);
    let h = u32_at(raw, 0x202);
    lemma_four(h, raw[0x202], raw[0x203], raw[0x204], raw[0x205]);
}

proof fn lemma_four(x: u32, a: u8, b: u8, c: u8, d: u8)
    requires
        x == a + 0x100 * b + 0x1_0000 * c + 0x100_0000 * d,
    ensures
        x == 0x5372_6448 <==> a == 0x48 && b == 0x64 && c == 0x72 && d == 0x53,
{
}

/// The longest command line that a kernel takes is what it says, and 255 bytes
/// where it says nothing.
pub proof fn law_command_line_limit(raw: Seq<u8>)
    ensures
        ({
            let said = raw[0x238] + 0x100 * raw[0x239] + 0x1_0000 * raw[0x23a] + 0x100_0000 * raw[0x23b];
            cmdline_max_of(raw) == (if said == 0 { 255int } else { said })
        }),
{
    crate::bytes::law_little_endian_reads(raw, 0x238);
}

/// The zero page byte by byte: the setup header stands in it at its own place
/// as the image has it, but for the fields that a loader fills in, and nothing
/// else does. Those say that the loader has no number of its own, that the
/// command line is at 0x20000, and where the initramfs is, if there is one. The
/// memory map has the memory below 0x9fc00, and that from 1 MiB to the end.
pub proof fn law_zero_page_fields(raw: Seq<u8>, mem_size: u64, initramfs: Option<Initramfs>, k: int)
    requires
        image_error(raw) is None,
        initramfs matches Some(i) ==> i.addr <= u32::MAX && i.size <= u32::MAX,
        0 <= k < 4096,
    ensures
        ({
            let z = zero_page(raw, mem_size, initramfs);
            let ranges = if mem_size > 0x10_0000 { 2int } else { 1int };
            let map_end = 0x2d0 + 20 * ranges;
            &&& z[0x1e8] == ranges
            &&& z[0x210] == 0xff
            &&& u32_at(z, 0x228) == 0x2_0000
            &&& u64_at(z, 0x2d0) == 0
            &&& u64_at(z, 0x2d8) == 0x9_fc00
            &&& u32_at(z, 0x2e0) == 1
            &&& ranges == 2 ==> u64_at(z, 0x2e4) == 0x10_0000 && u64_at(z, 0x2ec) == mem_size - 0x10_0000 && u32_at(
                z,
                0x2f4,
            ) == 1
            &&& initramfs matches Some(i) ==> u32_at(z, 0x218) == i.addr && u32_at(z, 0x21c) == i.size
            &&& k != 0x1e8 && k != 0x210 && !(0x228 <= k < 0x22c) && !(0x2d0 <= k < map_end) && !(initramfs is Some
                && 0x218 <= k < 0x220) ==> z[k] == (if 0x1f1 <= k < setup_size_of(raw) { raw[k] } else { 0u8 })
        }),
{
    law_zero_page_describes_the_guest(raw, mem_size, initramfs);
}

/// An initramfs goes as high as it can: no higher multiple of 4 KiB has room
/// for it below the end of memory and below 4 GiB.
pub proof fn law_initramfs_is_as_high_as_it_fits(size: int, mem_size: u64)
    requires
        size > 0,
        0x10_0000 + size <= mem_size,
        0x10_0000 + size <= 0x1_0000_0000,
    ensures
        ({
            let addr = ramdisk_addr(size, mem_size);
            &&& 0x10_0000 <= addr
            &&& addr % 4096 == 0
            &&& addr + size <= mem_size
            &&& addr + size <= 0x1_0000_0000
            &&& addr + 4096 + size > mem_size || addr + 4096 + size > 0x1_0000_0000
        }),
{
}

} // verus!
