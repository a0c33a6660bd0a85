use hyperbug::loader::{
    put_u32, BzImage, Initramfs, BOOT_FLAG_MAGIC, BOOT_FLAG_OFF, CMDLINE_SIZE_OFF, CMDLINE_START, CMD_LINE_PTR_OFF,
    E820_ENTRIES_OFF, E820_TABLE_OFF, EBDA_START, HDRS_MAGIC, HDR_OFFSET, HEADER_MAGIC_OFF, KERNEL_START,
    RAMDISK_ADDR_LIMIT, XLF_KERNEL_64, XLOADFLAGS_OFF, ZERO_PAGE_START,
};
use hyperbug::mem::GuestMemory;

/// A minimal file with just enough valid header for `parse` to accept
/// it, plus `code_len` bytes of "protected-mode kernel".
fn fake_bzimage(code_len: usize) -> Vec<u8> {
    let setup_sects = 1u8;
    let setup_size = (usize::from(setup_sects) + 1) * 512;
    let mut raw = vec![0u8; setup_size + code_len];
    raw[HDR_OFFSET] = setup_sects;
    raw[BOOT_FLAG_OFF..BOOT_FLAG_OFF + 2].copy_from_slice(&BOOT_FLAG_MAGIC.to_le_bytes());
    raw[HEADER_MAGIC_OFF..HEADER_MAGIC_OFF + 4].copy_from_slice(&HDRS_MAGIC.to_le_bytes());
    raw[XLOADFLAGS_OFF..XLOADFLAGS_OFF + 2].copy_from_slice(&XLF_KERNEL_64.to_le_bytes());
    put_u32(&mut raw, CMDLINE_SIZE_OFF, 2047);
    raw
}

#[test]
fn rejects_files_that_are_not_64_bit_bzimages() {
    assert!(BzImage::parse(vec![0u8; 16]).is_err(), "too small");

    let mut no_magic = fake_bzimage(512);
    no_magic[HEADER_MAGIC_OFF] ^= 0xff;
    assert!(BzImage::parse(no_magic).is_err(), "bad HdrS magic");

    let mut no_64bit = fake_bzimage(512);
    no_64bit[XLOADFLAGS_OFF] = 0;
    assert!(BzImage::parse(no_64bit).is_err(), "no 64-bit boot support");

    let truncated = fake_bzimage(0);
    assert!(BzImage::parse(truncated).is_err(), "no code past setup");
}

#[test]
fn a_too_long_cmdline_is_rejected_instead_of_overwriting_the_kernel() {
    let image = BzImage::parse(fake_bzimage(512)).unwrap();
    let mut mem = GuestMemory::new(0x20_0000).unwrap();

    assert!(image.write_cmdline(&mut mem, "console=ttyS0").is_ok());
    assert!(
        image.write_cmdline(&mut mem, &"a".repeat(2047)).is_err(),
        "one byte past the kernel's own declared cmdline_size (with its NUL)"
    );
}

#[test]
fn the_cmdline_is_written_null_terminated() {
    let image = BzImage::parse(fake_bzimage(512)).unwrap();
    let mut mem = GuestMemory::new(0x20_0000).unwrap();
    image.write_cmdline(&mut mem, "quiet").unwrap();

    let mut buf = [0u8; 6];
    assert!(mem.read_checked(CMDLINE_START, &mut buf));
    assert_eq!(&buf, b"quiet\0");
}

#[test]
fn an_initramfs_larger_than_guest_ram_is_rejected_without_underflowing() {
    let mut mem = GuestMemory::new(0x20_0000).unwrap();
    let err = Initramfs::load(&mut mem, &vec![0u8; 4 * 1024 * 1024], 0x20_0000);
    assert!(err.is_err());
}

#[test]
fn an_initramfs_stays_below_the_32_bit_ramdisk_field_limit() {
    let placed = Initramfs::place(8192, 6 * 1024 * 1024 * 1024).unwrap();
    assert!(
        placed.addr + placed.size <= RAMDISK_ADDR_LIMIT,
        "placed at {:#x}, which a 32-bit ramdisk_image field can't express",
        placed.addr
    );
    assert_eq!(placed.size, 8192);
}

#[test]
fn the_zero_page_describes_low_ram_and_everything_above_1_mib() {
    let image = BzImage::parse(fake_bzimage(512)).unwrap();
    let mem_size = 0x20_0000;
    let mut mem = GuestMemory::new(mem_size as usize).unwrap();
    image.build_zero_page(&mut mem, mem_size, None);

    let mut entries = [0u8; 1];
    assert!(mem.read_checked(ZERO_PAGE_START + E820_ENTRIES_OFF as u64, &mut entries));
    assert_eq!(entries[0], 2);

    let table = ZERO_PAGE_START + E820_TABLE_OFF as u64;
    assert_eq!(mem.read_u64_checked(table).unwrap(), 0);
    assert_eq!(mem.read_u64_checked(table + 8).unwrap(), EBDA_START);
    assert_eq!(mem.read_u64_checked(table + 20).unwrap(), KERNEL_START);
    assert_eq!(mem.read_u64_checked(table + 28).unwrap(), mem_size - KERNEL_START);

    // The command-line pointer the kernel actually follows.
    assert_eq!(
        u64::from(mem.read_u32_checked(ZERO_PAGE_START + CMD_LINE_PTR_OFF as u64).unwrap()),
        CMDLINE_START
    );
}

#[test]
fn an_initramfs_is_written_page_aligned_below_the_top() {
    let mut mem = GuestMemory::new(0x40_0000).unwrap();
    let placed = Initramfs::load(&mut mem, &[0x5a; 5000], 0x40_0000).unwrap();
    assert_eq!(placed.addr, 0x3f_e000);
    assert_eq!(placed.size, 5000);
    assert_eq!(mem.read_vec(placed.addr, 5000), Some(vec![0x5a; 5000]));
}

#[test]
fn the_kernel_is_loaded_without_its_setup_sectors() {
    let mut raw = fake_bzimage(512);
    raw[1024] = 0x90;
    let image = BzImage::parse(raw).unwrap();
    let mut mem = GuestMemory::new(0x20_0000).unwrap();
    let loaded = image.load(&mut mem, 0x20_0000).unwrap();
    assert_eq!(mem.read_vec(KERNEL_START, 2), Some(vec![0x90, 0]));
    assert_eq!(loaded.entry_point, KERNEL_START + 0x200);
    assert!(image.load(&mut mem, KERNEL_START + 511).is_err());
}

#[test]
fn zero_setup_sectors_mean_four() {
    let mut raw = fake_bzimage(4096);
    raw[HDR_OFFSET] = 0;
    raw[5 * 512] = 0x77;
    let image = BzImage::parse(raw).unwrap();
    let mut mem = GuestMemory::new(0x20_0000).unwrap();
    image.load(&mut mem, 0x20_0000).unwrap();
    assert_eq!(mem.read_vec(KERNEL_START, 1), Some(vec![0x77]));
}
