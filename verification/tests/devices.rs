use hyperbug::devices::wasm_dma_demo::{
    hyperbug_pci_identity, hyperbug_read, hyperbug_reset, hyperbug_tick, hyperbug_write, DmaDemo,
};
use hyperbug::devices::{wasm_dma_demo, wasm_scratch};
use hyperbug::mem::GuestMemory;

#[test]
fn scratch_registers_keep_what_is_written() {
    let mut regs = wasm_scratch::ScratchRegs::new();
    assert_eq!(wasm_scratch::hyperbug_abi_version(), 1);
    assert_eq!(wasm_scratch::hyperbug_write(&mut regs, 14, &[1, 2, 3]), 0);
    let mut data = [9u8; 4];
    wasm_scratch::hyperbug_read(&regs, 13, &mut data);
    assert_eq!(data, [0, 1, 2, 0]);
    wasm_scratch::hyperbug_read(&regs, -1, &mut data);
    assert_eq!(data, [0; 4], "a negative offset is past the last register");
    wasm_scratch::hyperbug_read(&regs, 0x1_0000_000e, &mut data);
    assert_eq!(data, [1, 2, 0, 0], "addresses have 32 bits");
}

#[test]
fn the_demo_reverses_its_buffer_in_guest_memory() {
    let mut mem = GuestMemory::new(4096).unwrap();
    mem.write_checked(0x100, &[1, 2, 3, 4]);
    let mut d = DmaDemo::new();
    assert_eq!(wasm_dma_demo::hyperbug_abi_version(), 1);
    assert_eq!(hyperbug_write(&mut d, &mut mem, None, 0, &0x100u64.to_le_bytes()), (0, false));
    assert_eq!(hyperbug_write(&mut d, &mut mem, None, 8, &4u32.to_le_bytes()), (0, false));
    assert_eq!(hyperbug_write(&mut d, &mut mem, None, 12, &[0]), (0, false));
    assert_eq!(hyperbug_write(&mut d, &mut mem, None, 12, &[1]), (0, true));
    assert_eq!(mem.read_vec(0x100, 4), Some(vec![4, 3, 2, 1]));
    assert_eq!(hyperbug_write(&mut d, &mut mem, None, 12, &[1]), (0, true));
    assert_eq!(mem.read_vec(0x100, 4), Some(vec![1, 2, 3, 4]));
    let mut data = [7u8; 4];
    hyperbug_read(&d, 8, &mut data);
    assert_eq!(data, [4, 0, 0, 0]);
    hyperbug_read(&d, 3, &mut data);
    assert_eq!(data, [0; 4]);
}

#[test]
fn the_demo_stays_inside_its_range() {
    let mut mem = GuestMemory::new(4096).unwrap();
    mem.write_checked(0, &[1, 2]);
    let mut d = DmaDemo { buffer_addr: 0, buffer_len: 2, tick_count: 0 };
    assert_eq!(hyperbug_write(&mut d, &mut mem, Some((0x100, 0x10)), 12, &[1]), (0, true));
    assert_eq!(mem.read_vec(0, 2), Some(vec![1, 2]));
    d.buffer_len = 1000;
    assert_eq!(hyperbug_write(&mut d, &mut mem, None, 12, &[1]), (0, true));
    assert_eq!(mem.read_vec(254, 2), Some(vec![2, 1]), "no more than 256 bytes are reversed");
}

#[test]
fn the_demo_ticks_resets_and_has_an_identity() {
    let mut d = DmaDemo { buffer_addr: 5, buffer_len: 6, tick_count: 0 };
    hyperbug_tick(&mut d);
    assert_eq!(d.tick_count, 1);
    hyperbug_reset(&mut d);
    assert_eq!(d, DmaDemo::new());
    let (has, id) = hyperbug_pci_identity();
    assert_eq!(has, 1);
    assert_eq!(id.len(), 35);
    assert_eq!(id[..12], [0x34, 0x12, 2, 0, 0, 0, 0xff, 0, 0x10, 0, 0, 0]);
    assert_eq!(id[32..], [0, 9, 1]);
}
