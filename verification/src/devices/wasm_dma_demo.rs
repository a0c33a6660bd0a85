//! A plugin that uses all that a plugin can: it has a PCI identity, reads and
//! writes guest memory, raises an interrupt, ticks and resets.
//!
//! Its registers are the address of a buffer in guest memory (8 bytes at 0),
//! the length of the buffer (4 bytes at 8) and a trigger (1 byte at 12).
//! Writing anything but 0 to the trigger reverses the buffer in guest memory
//! and raises the interrupt.

use vstd::prelude::*;

use crate::bytes::{get_u32, get_u64, le16, le32, le64, push_u16, push_u32, push_u64, push_zeroes, splice, u32_at, u64_at, zeroes};
use crate::device::dma_allowed;
use crate::mem::GuestMemory;
use crate::native_plugin::{host_read_mem, host_write_mem};

verus! {

/// The longest buffer that is reversed; of a longer one, only this much is.
pub const MAX_BUFFER: u32 = 256;

/// The state of the plugin.
#[derive(Clone, Copy, Debug, PartialEq, Eq, Structural)]
pub struct DmaDemo {
    pub buffer_addr: u64,
    pub buffer_len: u32,
    pub tick_count: u32,
}

impl DmaDemo {
    /// A plugin that was just loaded.
    pub fn new() -> (r: Self)
        ensures
            r == (DmaDemo { buffer_addr: 0, buffer_len: 0, tick_count: 0 }),
    {
        DmaDemo { buffer_addr: 0, buffer_len: 0, tick_count: 0 }
    }

    /// How much of the buffer is reversed.
    pub open spec fn span(self) -> int {
        if self.buffer_len < MAX_BUFFER {
            self.buffer_len as int
        } else {
            MAX_BUFFER as int
        }
    }
}

/// The version of the plugin interface that this plugin speaks.
pub fn hyperbug_abi_version() -> (r: i32)
    ensures
        r == 1,
{
    1
}

/// What 16 bytes from `offset` read as.
pub open spec fn register_bytes(d: DmaDemo, offset: i64) -> Seq<u8> {
    if offset == 0 {
        le64(d.buffer_addr) + zeroes(8)
    } else if offset == 8 {
        le32(d.buffer_len) + zeroes(12)
    } else {
        zeroes(16)
    }
}

/// Reads the registers at `offset`. No access is longer than 16 bytes; what
/// is past them is left alone.
pub fn hyperbug_read(d: &DmaDemo, offset: i64, data: &mut [u8])
    ensures
        final(data)@ == Seq::new(
            old(data)@.len(),
            |k: int| if k < 16 { register_bytes(*d, offset)[k] } else { old(data)@[k] },
        ),
{
    let mut buf: Vec<u8> = Vec::new();
    if offset == 0 {
        push_u64(&mut buf, d.buffer_addr);
        push_zeroes(&mut buf, 8);
    } else if offset == 8 {
        push_u32(&mut buf, d.buffer_len);
        push_zeroes(&mut buf, 12);
    } else {
        push_zeroes(&mut buf, 16);
    }
    assert(buf@ =~= register_bytes(*d, offset));
    let mut i: usize = 0;
    while i < data.len() && i < 16
        invariant
            i <= data@.len() == old(data)@.len(),
            i <= 16,
            buf@ == register_bytes(*d, offset),
            buf@.len() == 16,
            forall|k: int|
                0 <= k < data@.len() ==> data@[k] == (if k < i {
                    register_bytes(*d, offset)[k]
                } else {
                    old(data)@[k]
                }),
        decreases data@.len() - i,
    {
        data[i] = buf[i];
        i += 1;
    }
    assert(data@ =~= Seq::new(
        old(data)@.len(),
        |k: int| if k < 16 { register_bytes(*d, offset)[k] } else { old(data)@[k] },
    ));
}

/// Guest memory once the buffer was reversed. A buffer that the plugin may not
/// reach stays as it is.
pub open spec fn buffer_reversed(d: DmaDemo, mem: Seq<u8>, dma_range: Option<(u64, u64)>) -> Seq<u8> {
    if dma_allowed(dma_range, d.buffer_addr as int, d.span()) && d.buffer_addr + d.span() <= mem.len() {
        splice(
            mem,
            d.buffer_addr as int,
            mem.subrange(d.buffer_addr as int, d.buffer_addr + d.span()).reverse(),
        )
    } else {
        mem
    }
}

/// Reverses the buffer in guest memory.
pub fn reverse_buffer_via_dma(d: &DmaDemo, mem: &mut GuestMemory, dma_range: Option<(u64, u64)>)
    ensures
        final(mem)@ == buffer_reversed(*d, old(mem)@, dma_range),
{
    let len: u32 = if d.buffer_len < MAX_BUFFER { d.buffer_len } else { MAX_BUFFER };
    let bytes: Vec<u8> = match host_read_mem(mem, dma_range, d.buffer_addr, len as u64) {
        Some(b) => b,
        None => {
            return;
        },
    };
    let n: usize = bytes.len();
    let mut out: Vec<u8> = Vec::new();
    let mut i: usize = 0;
    while i < n
        invariant
            i <= n == bytes@.len(),
            out@.len() == i,
            forall|k: int| 0 <= k < i ==> out@[k] == bytes@[n - 1 - k],
        decreases n - i,
    {
        out.push(bytes[n - 1 - i]);
        i += 1;
    }
    assert(out@ =~= bytes@.reverse());
    let _ = host_write_mem(mem, dma_range, d.buffer_addr, out.as_slice());
}

/// The first 16 bytes of what is written, with zeroes where there are fewer.
pub open spec fn padded(data: Seq<u8>) -> Seq<u8> {
    Seq::new(16, |k: int| if k < data.len() { data[k] } else { 0u8 })
}

/// The plugin, guest memory, and whether the interrupt is raised, after `data`
/// was written at `offset`.
pub open spec fn write_effect(
    d: DmaDemo,
    mem: Seq<u8>,
    dma_range: Option<(u64, u64)>,
    offset: i64,
    data: Seq<u8>,
) -> (DmaDemo, Seq<u8>, bool) {
    let b = padded(data);
    if offset == 0 {
        (DmaDemo { buffer_addr: u64_at(b, 0), ..d }, mem, false)
    } else if offset == 8 {
        (DmaDemo { buffer_len: u32_at(b, 0), ..d }, mem, false)
    } else if offset == 12 && b[0] != 0 {
        (d, buffer_reversed(d, mem, dma_range), true)
    } else {
        (d, mem, false)
    }
}

/// Writes `data` at `offset`. Returns a status, which asks for nothing, and
/// whether the plugin raised its interrupt by itself.
pub fn hyperbug_write(
    d: &mut DmaDemo,
    mem: &mut GuestMemory,
    dma_range: Option<(u64, u64)>,
    offset: i64,
    data: &[u8],
) -> (r: (i32, bool))
    ensures
        r.0 == 0,
        (*final(d), final(mem)@, r.1) == write_effect(*old(d), old(mem)@, dma_range, offset, data@),
{
    let mut buf: Vec<u8> = Vec::new();
    let mut i: usize = 0;
    while i < 16
        invariant
            i <= 16,
            buf@.len() == i,
            forall|k: int| 0 <= k < i ==> buf@[k] == padded(data@)[k],
        decreases 16 - i,
    {
        let b: u8 = if i < data.len() { data[i] } else { 0 };
        buf.push(b);
        i += 1;
    }
    assert(buf@ =~= padded(data@));
    if offset == 0 {
        d.buffer_addr = get_u64(buf.as_slice(), 0);
    } else if offset == 8 {
        d.buffer_len = get_u32(buf.as_slice(), 0);
    } else if offset == 12 {
        if buf[0] != 0 {
            reverse_buffer_via_dma(d, mem, dma_range);
            return (0, true);
        }
    }
    (0, false)
}

/// Counts a tick.
pub fn hyperbug_tick(d: &mut DmaDemo)
    requires
        old(d).tick_count < u32::MAX,
    ensures
        *final(d) == (DmaDemo { tick_count: (old(d).tick_count + 1) as u32, ..*old(d) }),
{
    d.tick_count = d.tick_count + 1;
}

/// Returns the plugin to the state that it was loaded in.
pub fn hyperbug_reset(d: &mut DmaDemo)
    ensures
        *final(d) == (DmaDemo { buffer_addr: 0, buffer_len: 0, tick_count: 0 }),
{
    *d = DmaDemo::new();
}

/// The identity as the plugin writes it: IDs, class, BAR sizes, the mask of
/// BARs in I/O space, interrupt line, MSI.
pub open spec fn identity_bytes() -> Seq<u8> {
    le16(0x1234) + le16(0x0002) + le32(0xff0000) + le32(0x10) + zeroes(20) + seq![0u8, 9u8, 1u8]
}

/// The plugin's PCI identity; that it has one is the first part.
pub fn hyperbug_pci_identity() -> (r: (i32, Vec<u8>))
    ensures
        r.0 == 1,
        r.1@ == identity_bytes(),
{
    let mut out: Vec<u8> = Vec::new();
    push_u16(&mut out, 0x1234);
    push_u16(&mut out, 0x0002);
    push_u32(&mut out, 0xff0000);
    push_u32(&mut out, 0x10);
    push_zeroes(&mut out, 20);
    out.push(0);
    out.push(9);
    out.push(1);
    assert(out@ =~= identity_bytes());
    (1, out)
}

/// Triggering twice puts guest memory back as it was.
pub proof fn law_two_triggers_undo_each_other(d: DmaDemo, mem: Seq<u8>, dma_range: Option<(u64, u64)>)
    ensures
        buffer_reversed(d, buffer_reversed(d, mem, dma_range), dma_range) == mem,
{
    let once = buffer_reversed(d, mem, dma_range);
    if once != mem {
        let a = d.buffer_addr as int;
        let part = mem.subrange(a, a + d.span());
        assert(once.subrange(a, a + d.span()) =~= part.reverse());
        assert(part.reverse().reverse() =~= part);
    }
    assert(buffer_reversed(d, once, dma_range) =~= mem);
}

/// The registers read back what was written to them, and the others are left
/// alone; writing the address or the length does not touch memory.
pub proof fn law_registers_read_back(
    d: DmaDemo,
    mem: Seq<u8>,
    dma_range: Option<(u64, u64)>,
    addr: u64,
    len: u32,
    k: int,
)
    ensures
        ({
            let (d1, mem1, irq1) = write_effect(d, mem, dma_range, 0, le64(addr));
            let (d2, mem2, irq2) = write_effect(d, mem, dma_range, 8, le32(len));
            &&& d1 == (DmaDemo { buffer_addr: addr, ..d })
            &&& d2 == (DmaDemo { buffer_len: len, ..d })
            &&& mem1 == mem && mem2 == mem
            &&& !irq1 && !irq2
            &&& 0 <= k < 8 ==> register_bytes(d1, 0)[k] == le64(addr)[k]
            &&& 0 <= k < 4 ==> register_bytes(d2, 8)[k] == le32(len)[k]
            &&& 8 <= k < 16 ==> register_bytes(d1, 0)[k] == 0
            &&& 4 <= k < 16 ==> register_bytes(d2, 8)[k] == 0
        }),
{
    let (a, b) = (padded(le64(addr)), padded(le32(len)));
    assert forall|j: int| 0 <= j < 8 implies a[0 + j] == #[trigger] le64(addr)[j] by {}
    crate::bytes::lemma_u64_le(a, 0, addr);
    assert forall|j: int| 0 <= j < 4 implies b[0 + j] == #[trigger] le32(len)[j] by {}
    crate::bytes::lemma_u32_le(b, 0, len);
}

/// The trigger reverses the buffer in place, at most 256 bytes of it, raises
/// an interrupt, and touches nothing else. A buffer that is not all in guest
/// memory and in the device's range is left alone. A zero does nothing, nor
/// does a write elsewhere.
pub proof fn law_trigger_reverses_the_buffer(
    d: DmaDemo,
    mem: Seq<u8>,
    dma_range: Option<(u64, u64)>,
    data: Seq<u8>,
    offset: i64,
    i: int,
)
    requires
        0 <= i < mem.len(),
    ensures
        ({
            let (d1, mem1, irq) = write_effect(d, mem, dma_range, 12, data);
            let n = if d.buffer_len < 256 { d.buffer_len as int } else { 256 };
            let in_range = match dma_range {
                None => true,
                Some((base, size)) => base + size <= u64::MAX && base <= d.buffer_addr && d.buffer_addr + n <= base
                    + size,
            };
            let go = data.len() > 0 && data[0] != 0;
            &&& d1 == d
            &&& irq == go
            &&& mem1.len() == mem.len()
            &&& mem1[i] == (if go && in_range && d.buffer_addr + n <= mem.len() && d.buffer_addr <= i < d.buffer_addr
                + n {
                mem[d.buffer_addr + (n - 1 - (i - d.buffer_addr))]
            } else {
                mem[i]
            })
        }),
        offset != 0 && offset != 8 && offset != 12 ==> write_effect(d, mem, dma_range, offset, data) == (
            d,
            mem,
            false,
        ) && register_bytes(d, offset) == zeroes(16),
{
}

/// The identity in bytes: vendor 0x1234, device 2, one BAR of 16 bytes in
/// memory space, interrupt line 9, and MSI.
pub proof fn law_identity_fields(k: int)
    ensures
        ({
            let b = identity_bytes();
            &&& b.len() == 35
            &&& crate::bytes::u16_at(b, 0) == 0x1234
            &&& crate::bytes::u16_at(b, 2) == 2
            &&& u32_at(b, 4) == 0xff_0000
            &&& u32_at(b, 8) == 0x10
            &&& 12 <= k < 32 ==> b[k] == 0
            &&& b[32] == 0
            &&& b[33] == 9
            &&& b[34] == 1
        }),
{
    let b = identity_bytes();
    crate::bytes::lemma_u16_le(b, 0, 0x1234);
    crate::bytes::lemma_u16_le(b, 2, 2);
    assert forall|j: int| 0 <= j < 4 implies b[4 + j] == #[trigger] le32(0xff0000)[j] by {}
    crate::bytes::lemma_u32_le(b, 4, 0xff0000);
    assert forall|j: int| 0 <= j < 4 implies b[8 + j] == #[trigger] le32(0x10)[j] by {}
    crate::bytes::lemma_u32_le(b, 8, 0x10);
}

} // verus!
