//! PCI configuration space: enough for a guest to enumerate the devices on
//! bus 0 through the `0xCF8`/`0xCFC` ports, size and program their base
//! address registers (BARs), and have the registers behind a BAR show up on
//! the `MmioBus` or `IoBus`.
//!
//! There are no bridges and no multi-function devices. A device may have a
//! single-message MSI capability and a block of further capability bytes.
//! What a device reports about itself is read once, when it is registered.
//!
//! A device may ask for I/O events: writes at a given place behind a BAR that
//! the hypervisor is to catch by itself. Binding them is the caller's work;
//! a configuration write returns which bindings to undo and to make.

use vstd::prelude::*;
use vstd::string::*;

use crate::bytes::{fill, get_u16, get_u32, le16, le32, push_u16, push_u32, u16_at, u32_at};
use crate::device::{answers, clashes, law_others_keep_answering, law_registered_answers, law_unregistered_answers_nowhere, lemma_registered, lemma_without, region_of, regions_wf, registered, without, Bus, Device, IoBus, MmioBus, Region, SharedDevice};
use crate::snapshot::{take_u16, take_u32, take_u8, truncated};
use crate::text::{cat5, dec, dec_string, hex0x, hex0x_string};

verus! {

/// The port that latches the configuration address.
pub const CONFIG_ADDRESS: u16 = 0xcf8;

/// The first of the four ports of the data window.
pub const CONFIG_DATA: u16 = 0xcfc;

/// The last port of the data window.
pub const CONFIG_DATA_END: u16 = 0xcff;

/// How many BARs a device has.
pub const NUM_BARS: usize = 6;

/// The configuration register of the first BAR.
pub const BAR_OFFSET: u16 = 0x10;

/// The configuration register of the last BAR.
pub const BAR_OFFSET_END: u16 = 0x24;

/// Vendor and device ID.
pub const REG_ID: u16 = 0x00;

/// Command and status.
pub const REG_COMMAND_STATUS: u16 = 0x04;

/// Class code and revision.
pub const REG_CLASS: u16 = 0x08;

/// Header type.
pub const REG_HEADER_TYPE: u16 = 0x0c;

/// Where the capability list begins.
pub const REG_CAPABILITIES_PTR: u16 = 0x34;

/// Interrupt line and pin.
pub const REG_INTERRUPT: u16 = 0x3c;

/// The status bit that says there is a capability list.
pub const STATUS_CAP_LIST: u16 = 0x0010;

/// The capability ID of MSI.
pub const CAP_ID_MSI: u8 = 0x05;

/// Where the MSI capability stands.
pub const MSI_CAP_OFFSET: u16 = 0x40;

/// Where the MSI message address stands.
pub const MSI_CAP_ADDRESS: u16 = 0x44;

/// Where the MSI message data stands.
pub const MSI_CAP_DATA: u16 = 0x48;

/// The MSI enable bit of the message control word.
pub const MSI_CTRL_ENABLE: u16 = 1;

/// The byte of the MSI capability's first dword where message control stands.
pub const MSI_CTRL_BYTE: u16 = 2;

/// Where a device's further capabilities stand.
pub const EXTRA_CAP_OFFSET: u16 = 0x50;

/// What a PCI device reports about itself.
pub trait PciDevice: Sized {
    /// Vendor ID.
    fn vendor_id(&self) -> u16;

    /// Device ID.
    fn device_id(&self) -> u16;

    /// Class, subclass and programming interface, in 24 bits.
    fn class_code(&self) -> u32;

    /// The sizes of the BARs; 0 is a BAR that is not there.
    fn bar_sizes(&self) -> [u32; 6];

    /// Whether BAR `index` is in I/O space.
    fn bar_is_io(&self, index: usize) -> (r: bool)
        default_ensures
            !r,
    {
        false
    }

    /// The interrupt line; 0 is none.
    fn interrupt_line(&self) -> (r: u8)
        default_ensures
            r == 0,
    {
        0
    }

    /// The interrupt pin; 1 is INTA#.
    fn interrupt_pin(&self) -> (r: u8)
        default_ensures
            r == 1,
    {
        1
    }

    /// Whether the device has the MSI capability.
    fn msi_capable(&self) -> (r: bool)
        default_ensures
            !r,
    {
        false
    }

    /// The bytes of further capabilities, placed at `EXTRA_CAP_OFFSET`.
    fn extra_capabilities(&self) -> (r: Vec<u8>)
        default_ensures
            r@.len() == 0,
    {
        Vec::new()
    }

    /// The revision.
    fn revision_id(&self) -> (r: u8)
        default_ensures
            r == 0,
    {
        0
    }

    /// BAR index, offset behind the BAR and matching value of each write
    /// that the hypervisor is to catch by itself.
    fn ioevent_entries(&self) -> (r: Vec<(u8, u64, u16)>)
        default_ensures
            r@.len() == 0,
    {
        Vec::new()
    }

    /// Handles a write that was so caught. Whether the device's interrupt is
    /// to be raised.
    fn handle_ioevent(&mut self, datamatch: u16) -> (r: bool)
        default_ensures
            !r,
            *final(self) == *old(self),
    {
        false
    }
}

/// The fixed part of a device's configuration space.
#[derive(Debug)]
pub struct PciIdentity {
    pub vendor_id: u16,
    pub device_id: u16,
    pub class_code: u32,
    pub revision_id: u8,
    pub interrupt_line: u8,
    pub interrupt_pin: u8,
    pub msi_capable: bool,
    pub extra_caps: Vec<u8>,
}

impl PciIdentity {
    /// Reads what `dev` reports about itself.
    pub fn snapshot<D: PciDevice>(dev: &D) -> (r: Self)
        ensures
            call_ensures(D::vendor_id, (dev,), r.vendor_id),
            call_ensures(D::device_id, (dev,), r.device_id),
            call_ensures(D::class_code, (dev,), r.class_code),
            call_ensures(D::revision_id, (dev,), r.revision_id),
            call_ensures(D::interrupt_line, (dev,), r.interrupt_line),
            call_ensures(D::interrupt_pin, (dev,), r.interrupt_pin),
            call_ensures(D::msi_capable, (dev,), r.msi_capable),
            call_ensures(D::extra_capabilities, (dev,), r.extra_caps),
    {
        PciIdentity {
            vendor_id: dev.vendor_id(),
            device_id: dev.device_id(),
            class_code: dev.class_code(),
            revision_id: dev.revision_id(),
            interrupt_line: dev.interrupt_line(),
            interrupt_pin: dev.interrupt_pin(),
            msi_capable: dev.msi_capable(),
            extra_caps: dev.extra_capabilities(),
        }
    }

    /// The interrupt to hand a bus mapping; line 0 is none.
    pub open spec fn spec_irq(self) -> Option<u32> {
        if self.interrupt_line != 0 {
            Some(self.interrupt_line as u32)
        } else {
            None
        }
    }

    /// The interrupt to hand a bus mapping; line 0 is none.
    pub fn irq(&self) -> (r: Option<u32>)
        ensures
            r == self.spec_irq(),
    {
        if self.interrupt_line != 0 {
            Some(self.interrupt_line as u32)
        } else {
            None
        }
    }
}

/// One BAR.
#[derive(Clone, Copy, Debug, PartialEq, Eq, Structural)]
pub struct BarState {
    /// The size; 0 is a BAR that is not there.
    pub size: u32,
    /// Whether the BAR is in I/O space.
    pub is_io: bool,
    /// The base that the guest programmed, if any.
    pub base: Option<u32>,
    /// The guest wrote all ones and has not read the mask back yet.
    pub sizing: bool,
}

impl BarState {
    /// The bits that a base occupies.
    pub open spec fn spec_align_mask(self) -> u32 {
        if self.is_io {
            0xffff_fffcu32
        } else {
            0xffff_fff0u32
        }
    }

    /// The space bit: 1 is I/O, 0 is memory.
    pub open spec fn spec_space_bit(self) -> u32 {
        if self.is_io {
            1u32
        } else {
            0u32
        }
    }

    /// What the guest reads.
    pub open spec fn value(self) -> u32 {
        if self.size == 0 {
            0u32
        } else if self.sizing {
            (!((self.size - 1) as u32) & self.spec_align_mask()) | self.spec_space_bit()
        } else {
            match self.base {
                Some(b) => b | self.spec_space_bit(),
                None => 0u32,
            }
        }
    }

    /// The BAR after a read; only a read of the whole register ends sizing.
    pub open spec fn after_read(self, full_dword: bool) -> BarState {
        if self.size != 0 && self.sizing && full_dword {
            BarState { sizing: false, ..self }
        } else {
            self
        }
    }

    /// A BAR that is not there has no base, and a base holds address bits
    /// only.
    pub open spec fn wf(self) -> bool {
        match self.base {
            Some(b) => self.size != 0 && b & self.spec_align_mask() == b,
            None => true,
        }
    }

    /// The bits that a base occupies.
    pub fn align_mask(&self) -> (r: u32)
        ensures
            r == self.spec_align_mask(),
    {
        if self.is_io {
            0xffff_fffc
        } else {
            0xffff_fff0
        }
    }

    /// The space bit: 1 is I/O, 0 is memory.
    pub fn space_bit(&self) -> (r: u32)
        ensures
            r == self.spec_space_bit(),
    {
        if self.is_io {
            1
        } else {
            0
        }
    }

    /// Whether the BAR is there.
    pub fn implemented(&self) -> (r: bool)
        ensures
            r == (self.size != 0),
    {
        self.size != 0
    }
}

/// The MSI registers.
#[derive(Clone, Copy, Debug, PartialEq, Eq, Structural)]
pub struct MsiState {
    pub enabled: bool,
    pub address: u32,
    pub data: u16,
}

/// A write that the hypervisor is to catch, and where it is bound now.
#[derive(Clone, Copy, Debug, PartialEq, Eq, Structural)]
pub struct IoEventBinding {
    pub bar_index: u8,
    pub offset: u64,
    pub datamatch: u16,
    pub registered_addr: Option<u64>,
}

/// A binding to make or to undo.
#[derive(Clone, Copy, Debug, PartialEq, Eq, Structural)]
pub struct IoEventAction {
    /// The device.
    pub devfn: u8,
    /// Which of the device's entries.
    pub entry: usize,
    /// To make it, or to undo it.
    pub bind: bool,
    /// Whether `addr` is an I/O port.
    pub is_io: bool,
    /// Where.
    pub addr: u64,
    /// The value that a write must have.
    pub datamatch: u16,
}

/// One registered device.
#[derive(Debug)]
pub struct Slot {
    pub identity: PciIdentity,
    pub mmio_device: SharedDevice,
    pub bars: [BarState; 6],
    pub command: u16,
    pub msi: MsiState,
    pub ioevents: Vec<IoEventBinding>,
}

/// What a slot holds.
pub struct SlotView {
    pub identity: PciIdentity,
    pub mmio_device: SharedDevice,
    pub bars: Seq<BarState>,
    pub command: u16,
    pub msi: MsiState,
    pub ioevents: Seq<IoEventBinding>,
}

impl View for Slot {
    type V = SlotView;

    open spec fn view(&self) -> SlotView {
        SlotView {
            identity: self.identity,
            mmio_device: self.mmio_device,
            bars: self.bars@,
            command: self.command,
            msi: self.msi,
            ioevents: self.ioevents@,
        }
    }
}

impl SlotView {
    /// Six well-formed BARs, and no event so far out that its address could
    /// leave the address space.
    pub open spec fn wf(self) -> bool {
        &&& self.bars.len() == 6
        &&& forall|i: int| 0 <= i < 6 ==> (#[trigger] self.bars[i]).wf()
        &&& forall|k: int|
            0 <= k < self.ioevents.len() ==> (#[trigger] self.ioevents[k]).offset + 0xffff_ffff
                <= u64::MAX
    }
}

/// A host bridge: every x86 machine has one at 00:00.0.
pub struct HostBridge;

impl PciDevice for HostBridge {
    fn vendor_id(&self) -> (r: u16)
        ensures
            r == 0x1234,
    {
        0x1234
    }

    fn device_id(&self) -> (r: u16)
        ensures
            r == 0x0001,
    {
        0x0001
    }

    fn class_code(&self) -> (r: u32)
        ensures
            r == 0x06_00_00,
    {
        0x06_00_00
    }

    fn bar_sizes(&self) -> (r: [u32; 6])
        ensures
            r@ == seq![0u32, 0u32, 0u32, 0u32, 0u32, 0u32],
    {
        let r: [u32; 6] = [0, 0, 0, 0, 0, 0];
        assert(r@ =~= seq![0u32, 0u32, 0u32, 0u32, 0u32, 0u32]);
        r
    }

    fn interrupt_pin(&self) -> (r: u8)
        ensures
            r == 0,
    {
        0
    }
}

impl Device for HostBridge {
    open spec fn reads(pre: Self, post: Self, offset: u64, before: Seq<u8>, after: Seq<u8>) -> bool {
        after == Seq::new(before.len(), |i: int| 0u8)
    }

    open spec fn writes(pre: Self, post: Self, offset: u64, data: Seq<u8>, irq: bool) -> bool {
        !irq
    }

    fn read(&mut self, offset: u64, data: &mut [u8]) {
        fill(data, 0);
    }

    fn write(&mut self, offset: u64, data: &[u8]) -> (irq: bool) {
        false
    }
}

/// A slot with its place on bus 0, device and function.
pub type SlotEntry = (u8, SlotView);

/// What a PCI bus holds.
pub struct PciView {
    pub slots: Seq<SlotEntry>,
    pub address: u32,
    pub vm: bool,
}

/// No two slots share a place, and every slot is well-formed.
pub open spec fn slots_wf(s: Seq<SlotEntry>) -> bool {
    &&& forall|i: int| 0 <= i < s.len() ==> (#[trigger] s[i]).1.wf()
    &&& forall|i: int, j: int| 0 <= i < j < s.len() ==> (#[trigger] s[i]).0 != (#[trigger] s[j]).0
}

/// The position of the slot at `devfn`, if there is one.
pub open spec fn slot_at(s: Seq<SlotEntry>, devfn: u8) -> Option<int>
    decreases s.len(),
{
    if s.len() == 0 {
        None
    } else if s.last().0 == devfn {
        Some(s.len() - 1)
    } else {
        slot_at(s.drop_last(), devfn)
    }
}

/// The message address and data of the device at `devfn`, if there is one and
/// its MSI is enabled.
pub open spec fn msi_at(s: Seq<SlotEntry>, devfn: u8) -> Option<(u32, u16)> {
    match slot_at(s, devfn) {
        Some(i) => if s[i].1.msi.enabled {
            Some((s[i].1.msi.address, s[i].1.msi.data))
        } else {
            None
        },
        None => None,
    }
}

/// The slot found is at `devfn`; if none is found, none is there.
pub proof fn lemma_slot_at(s: Seq<SlotEntry>, devfn: u8)
    ensures
        match slot_at(s, devfn) {
            Some(i) => 0 <= i < s.len() && s[i].0 == devfn,
            None => forall|i: int| 0 <= i < s.len() ==> (#[trigger] s[i]).0 != devfn,
        },
    decreases s.len(),
{
    if s.len() > 0 && s.last().0 != devfn {
        lemma_slot_at(s.drop_last(), devfn);
        if slot_at(s.drop_last(), devfn) is None {
            assert forall|i: int| 0 <= i < s.len() implies (#[trigger] s[i]).0 != devfn by {
                if i < s.len() - 1 {
                    assert(s.drop_last()[i] == s[i]);
                }
            }
        }
    }
}

/// The slot at `i` is the one found for its own place.
pub proof fn lemma_slot_at_is(s: Seq<SlotEntry>, devfn: u8, i: int)
    requires
        slots_wf(s),
        0 <= i < s.len(),
        s[i].0 == devfn,
    ensures
        slot_at(s, devfn) == Some(i),
{
    lemma_slot_at(s, devfn);
    let k = slot_at(s, devfn)->0;
    if k < i {
        assert(s[k].0 != s[i].0);
    } else if i < k {
        assert(s[i].0 != s[k].0);
    }
}

/// The device and the dword-aligned register that a configuration address
/// selects; none unless the enable bit is set and the bus is 0.
pub open spec fn decode(address: u32) -> Option<(u8, u16)> {
    if address & 0x8000_0000u32 == 0 || (address >> 16u32) & 0xffu32 != 0 {
        None
    } else {
        Some((((address >> 8u32) & 0xffu32) as u8, (address & 0xfcu32) as u16))
    }
}

/// The BAR that a register belongs to.
pub open spec fn bar_of(reg: u16) -> Option<int> {
    if BAR_OFFSET <= reg <= BAR_OFFSET_END && (reg - BAR_OFFSET) % 4 == 0 {
        Some((reg - BAR_OFFSET) / 4)
    } else {
        None
    }
}

/// A dword of a device's further capabilities; zero past their end.
pub open spec fn extra_cap(bytes: Seq<u8>, reg: u16) -> u32 {
    if reg < EXTRA_CAP_OFFSET {
        0u32
    } else {
        let at = reg - EXTRA_CAP_OFFSET;
        u32_at(Seq::new(4, |k: int| if at + k < bytes.len() { bytes[at + k] } else { 0u8 }), 0)
    }
}

/// What the register `reg` of a slot reads as.
pub open spec fn config_dword(slot: SlotView, reg: u16) -> u32 {
    let id = slot.identity;
    let caps = id.msi_capable || id.extra_caps@.len() != 0;
    if reg == REG_ID {
        ((id.device_id as u32) << 16u32) | (id.vendor_id as u32)
    } else if reg == REG_COMMAND_STATUS {
        ((if caps { 0x10u32 } else { 0u32 }) << 16u32) | (slot.command as u32)
    } else if reg == REG_CLASS {
        (id.class_code << 8u32) | (id.revision_id as u32)
    } else if reg == REG_HEADER_TYPE {
        0u32
    } else if reg == REG_CAPABILITIES_PTR && id.msi_capable {
        MSI_CAP_OFFSET as u32
    } else if reg == REG_CAPABILITIES_PTR && id.extra_caps@.len() != 0 {
        EXTRA_CAP_OFFSET as u32
    } else if reg == REG_INTERRUPT {
        (id.interrupt_line as u32) | ((id.interrupt_pin as u32) << 8u32)
    } else if reg == MSI_CAP_OFFSET && id.msi_capable {
        let next = if id.extra_caps@.len() == 0 { 0u32 } else { EXTRA_CAP_OFFSET as u32 };
        let ctrl = if slot.msi.enabled { 1u32 } else { 0u32 };
        (CAP_ID_MSI as u32) | (next << 8u32) | (ctrl << 16u32)
    } else if reg == MSI_CAP_ADDRESS && id.msi_capable {
        slot.msi.address
    } else if reg == MSI_CAP_DATA && id.msi_capable {
        slot.msi.data as u32
    } else {
        match bar_of(reg) {
            Some(i) => slot.bars[i].value(),
            None => extra_cap(id.extra_caps@, reg),
        }
    }
}

/// A slot after its register `reg` was read.
pub open spec fn slot_after_read(slot: SlotView, reg: u16, full_dword: bool) -> SlotView {
    match bar_of(reg) {
        Some(i) => SlotView { bars: slot.bars.update(i, slot.bars[i].after_read(full_dword)), ..slot },
        None => slot,
    }
}

/// The bytes of `dword` from byte `off` on, and all ones past its end.
pub open spec fn window(dword: u32, off: int, len: nat) -> Seq<u8> {
    Seq::new(len, |k: int| if k < 4 - off { le32(dword)[off + k] } else { 0xffu8 })
}

/// The selected slot's position and register.
pub open spec fn selected(v: PciView) -> Option<(int, u16)> {
    match decode(v.address) {
        Some((devfn, reg)) => match slot_at(v.slots, devfn) {
            Some(i) => Some((i, reg)),
            None => None,
        },
        None => None,
    }
}

/// What a read of `len` bytes at byte `off` of the data window gives.
pub open spec fn config_bytes(v: PciView, off: int, len: nat) -> Seq<u8> {
    match selected(v) {
        Some((i, reg)) => window(config_dword(v.slots[i].1, reg), off, len),
        None => Seq::new(len, |k: int| 0xffu8),
    }
}

/// The bus after such a read.
pub open spec fn config_after_read(v: PciView, off: int, len: nat) -> PciView {
    match selected(v) {
        Some((i, reg)) => PciView {
            slots: v.slots.update(
                i,
                (v.slots[i].0, slot_after_read(v.slots[i].1, reg, off == 0 && len == 4)),
            ),
            ..v
        },
        None => v,
    }
}

/// The bindings to undo and to make when BAR `index` of a device moves to
/// `base`, entry by entry: the old one goes, and a new one comes unless the
/// BAR was cleared.
pub open spec fn rebind_actions(
    evs: Seq<IoEventBinding>,
    devfn: u8,
    index: int,
    is_io: bool,
    base: u32,
) -> Seq<IoEventAction>
    decreases evs.len(),
{
    if evs.len() == 0 {
        seq![]
    } else {
        let before = rebind_actions(evs.drop_last(), devfn, index, is_io, base);
        let e = evs.last();
        let entry = (evs.len() - 1) as usize;
        if e.bar_index != index {
            before
        } else {
            let undone = match e.registered_addr {
                Some(addr) => before.push(
                    IoEventAction { devfn, entry, bind: false, is_io, addr, datamatch: e.datamatch },
                ),
                None => before,
            };
            if base == 0 {
                undone
            } else {
                undone.push(
                    IoEventAction {
                        devfn,
                        entry,
                        bind: true,
                        is_io,
                        addr: (base + e.offset) as u64,
                        datamatch: e.datamatch,
                    },
                )
            }
        }
    }
}

/// The bindings afterwards: those of the BAR are open until they are reported
/// made.
pub open spec fn rebound(evs: Seq<IoEventBinding>, index: int) -> Seq<IoEventBinding> {
    Seq::new(
        evs.len(),
        |k: int|
            if evs[k].bar_index == index {
                IoEventBinding { registered_addr: None, ..evs[k] }
            } else {
                evs[k]
            },
    )
}

/// A slot and the buses that it is mapped on, and the bindings to undo and to
/// make.
pub struct SlotWrite {
    pub slot: SlotView,
    pub mmio: Seq<Region>,
    pub io: Seq<Region>,
    pub actions: Seq<IoEventAction>,
}

/// What writing `val` to BAR `index` does. All ones begin sizing. Any other
/// value is a base: zero unmaps the device, another maps it there.
pub open spec fn bar_written(
    w: SlotWrite,
    devfn: u8,
    index: int,
    val: u32,
    vm: bool,
) -> SlotWrite {
    let bar = w.slot.bars[index];
    if bar.size == 0 {
        w
    } else if val == 0xffff_ffff {
        SlotWrite {
            slot: SlotView {
                bars: w.slot.bars.update(index, BarState { sizing: true, ..bar }),
                ..w.slot
            },
            ..w
        }
    } else {
        let base = val & bar.spec_align_mask();
        let dev = w.slot.mmio_device;
        let bars = w.slot.bars.update(index, BarState { base: Some(base), ..bar });
        let old_bus = if bar.is_io { w.io } else { w.mmio };
        let bus = if base == 0 {
            without(old_bus, dev)
        } else {
            registered(old_bus, base as u64, bar.size as u64, dev, w.slot.identity.spec_irq())
        };
        SlotWrite {
            slot: SlotView {
                bars,
                ioevents: if vm { rebound(w.slot.ioevents, index) } else { w.slot.ioevents },
                ..w.slot
            },
            mmio: if bar.is_io { w.mmio } else { bus },
            io: if bar.is_io { bus } else { w.io },
            actions: if vm {
                w.actions + rebind_actions(w.slot.ioevents, devfn, index, bar.is_io, base)
            } else {
                w.actions
            },
        }
    }
}

/// What a write of `data` at byte `off` of the register `reg` does.
pub open spec fn register_written(
    w: SlotWrite,
    devfn: u8,
    reg: u16,
    off: int,
    data: Seq<u8>,
    vm: bool,
) -> SlotWrite {
    let msi = w.slot.identity.msi_capable;
    if reg == REG_COMMAND_STATUS && off == 0 && data.len() >= 2 {
        SlotWrite { slot: SlotView { command: u16_at(data, 0), ..w.slot }, ..w }
    } else if reg == MSI_CAP_OFFSET && msi && off == MSI_CTRL_BYTE && data.len() >= 2 {
        SlotWrite {
            slot: SlotView {
                msi: MsiState { enabled: u16_at(data, 0) & MSI_CTRL_ENABLE != 0, ..w.slot.msi },
                ..w.slot
            },
            ..w
        }
    } else if reg == MSI_CAP_ADDRESS && msi && off == 0 && data.len() == 4 {
        SlotWrite {
            slot: SlotView { msi: MsiState { address: u32_at(data, 0), ..w.slot.msi }, ..w.slot },
            ..w
        }
    } else if reg == MSI_CAP_DATA && msi && off == 0 && data.len() >= 2 {
        SlotWrite {
            slot: SlotView { msi: MsiState { data: u16_at(data, 0), ..w.slot.msi }, ..w.slot },
            ..w
        }
    } else if bar_of(reg) is Some && off == 0 && data.len() == 4 {
        bar_written(w, devfn, bar_of(reg)->0, u32_at(data, 0), vm)
    } else {
        w
    }
}

/// A PCI bus, the buses that its devices are mapped on, and the bindings to
/// undo and to make.
pub struct Wires {
    pub pci: PciView,
    pub mmio: Seq<Region>,
    pub io: Seq<Region>,
    pub actions: Seq<IoEventAction>,
}

/// `w` with the slot at position `i` and the buses as `s` has them.
pub open spec fn with_slot(w: Wires, i: int, s: SlotWrite) -> Wires {
    Wires {
        pci: PciView { slots: w.pci.slots.update(i, (w.pci.slots[i].0, s.slot)), ..w.pci },
        mmio: s.mmio,
        io: s.io,
        actions: s.actions,
    }
}

/// The slot at position `i` and the buses.
pub open spec fn slot_of(w: Wires, i: int) -> SlotWrite {
    SlotWrite { slot: w.pci.slots[i].1, mmio: w.mmio, io: w.io, actions: w.actions }
}

/// What a guest write of `data` at byte `off` of the data window does.
pub open spec fn config_written(w: Wires, off: int, data: Seq<u8>) -> Wires {
    match selected(w.pci) {
        Some((i, reg)) => with_slot(
            w,
            i,
            register_written(slot_of(w, i), w.pci.slots[i].0, reg, off, data, w.pci.vm),
        ),
        None => w,
    }
}

/// What a guest write of `data` at `port` does.
pub open spec fn port_written(w: Wires, port: u16, data: Seq<u8>) -> Wires {
    if port == CONFIG_ADDRESS && data.len() == 4 {
        Wires { pci: PciView { address: u32_at(data, 0), ..w.pci }, ..w }
    } else if CONFIG_DATA <= port <= CONFIG_DATA_END {
        config_written(w, port - CONFIG_DATA, data)
    } else {
        w
    }
}

/// Writing a BAR keeps a slot well-formed.
pub proof fn lemma_bar_written_wf(w: SlotWrite, devfn: u8, index: int, val: u32, vm: bool)
    requires
        w.slot.wf(),
        0 <= index < 6,
    ensures
        bar_written(w, devfn, index, val, vm).slot.wf(),
{
    let bar = w.slot.bars[index];
    let m = bar.spec_align_mask();
    assert((val & m) & m == val & m) by (bit_vector);
    let r = bar_written(w, devfn, index, val, vm).slot;
    assert forall|i: int| 0 <= i < 6 implies (#[trigger] r.bars[i]).wf() by {
        assert(w.slot.bars[i].wf());
    }
    assert forall|k: int| 0 <= k < r.ioevents.len() implies (#[trigger] r.ioevents[k]).offset
        + 0xffff_ffff <= u64::MAX by {
        assert(w.slot.ioevents[k].offset + 0xffff_ffff <= u64::MAX);
    }
}

/// Replacing a slot by a well-formed one keeps the bus well-formed.
pub proof fn lemma_with_slot_wf(w: Wires, i: int, s: SlotWrite)
    requires
        slots_wf(w.pci.slots),
        0 <= i < w.pci.slots.len(),
        s.slot.wf(),
    ensures
        slots_wf(with_slot(w, i, s).pci.slots),
{
    let was = w.pci.slots;
    let now = with_slot(w, i, s).pci.slots;
    assert forall|j: int| 0 <= j < now.len() implies (#[trigger] now[j]).1.wf() by {
        assert(was[j].1.wf());
    }
    assert forall|a: int, b: int| 0 <= a < b < now.len() implies (#[trigger] now[a]).0 != (
    #[trigger] now[b]).0 by {
        assert(was[a].0 != was[b].0);
    }
}

/// A BAR's base as it is saved: a flag, and the base behind it if there is
/// one.
pub open spec fn base_bytes(base: Option<u32>) -> Seq<u8> {
    match base {
        Some(b) => seq![1u8] + le32(b),
        None => seq![0u8],
    }
}

/// The bases of the first `n` BARs as they are saved.
pub open spec fn bases_bytes(bars: Seq<BarState>, n: nat) -> Seq<u8>
    decreases n,
{
    if n == 0 {
        seq![]
    } else {
        bases_bytes(bars, (n - 1) as nat) + base_bytes(bars[n - 1].base)
    }
}

/// A slot as it is saved.
pub open spec fn record_bytes(e: SlotEntry) -> Seq<u8> {
    seq![e.0] + bases_bytes(e.1.bars, 6) + le16(e.1.command) + seq![
        if e.1.msi.enabled { 1u8 } else { 0u8 },
    ] + le32(e.1.msi.address) + le16(e.1.msi.data)
}

/// The first `n` slots as they are saved.
pub open spec fn records_bytes(slots: Seq<SlotEntry>, n: nat) -> Seq<u8>
    decreases n,
{
    if n == 0 {
        seq![]
    } else {
        records_bytes(slots, (n - 1) as nat) + record_bytes(slots[n - 1])
    }
}

/// The state of a bus as it is saved: the number of slots, then each slot.
pub open spec fn saved(slots: Seq<SlotEntry>) -> Seq<u8> {
    le32(slots.len() as u32) + records_bytes(slots, slots.len())
}

/// Bases read off the front of `buf`, and what follows them.
pub open spec fn take_bases(buf: Seq<u8>, n: nat) -> Option<(Seq<Option<u32>>, Seq<u8>)>
    decreases n,
{
    if n == 0 {
        Some((seq![], buf))
    } else {
        match take_bases(buf, (n - 1) as nat) {
            None => None,
            Some((bases, rest)) => if rest.len() < 1 {
                None
            } else if rest[0] == 0 {
                Some((bases.push(None), rest.skip(1)))
            } else if rest.len() < 5 {
                None
            } else {
                Some((bases.push(Some(u32_at(rest.skip(1), 0))), rest.skip(5)))
            },
        }
    }
}

/// A slot read from saved state.
pub struct SavedSlot {
    pub devfn: u8,
    pub bases: Seq<Option<u32>>,
    pub command: u16,
    pub msi: MsiState,
}

/// A slot read off the front of `buf`, and what follows it.
pub open spec fn take_record(buf: Seq<u8>) -> Option<(SavedSlot, Seq<u8>)> {
    if buf.len() < 1 {
        None
    } else {
        match take_bases(buf.skip(1), 6) {
            None => None,
            Some((bases, rest)) => if rest.len() < 9 {
                None
            } else {
                Some(
                    (
                        SavedSlot {
                            devfn: buf[0],
                            bases,
                            command: u16_at(rest, 0),
                            msi: MsiState {
                                enabled: rest[2] != 0,
                                address: u32_at(rest, 3),
                                data: u16_at(rest, 7),
                            },
                        },
                        rest.skip(9),
                    ),
                )
            },
        }
    }
}

/// The bases among the first `n` that are there, written to their BARs in
/// order.
pub open spec fn bases_restored(
    w: SlotWrite,
    devfn: u8,
    bases: Seq<Option<u32>>,
    n: nat,
    vm: bool,
) -> SlotWrite
    decreases n,
{
    if n == 0 {
        w
    } else {
        let before = bases_restored(w, devfn, bases, (n - 1) as nat, vm);
        match bases[n - 1] {
            Some(b) => bar_written(before, devfn, n - 1, b, vm),
            None => before,
        }
    }
}

/// A slot brought to a saved state.
pub open spec fn slot_restored(w: SlotWrite, rec: SavedSlot, vm: bool) -> SlotWrite {
    bases_restored(
        SlotWrite { slot: SlotView { command: rec.command, msi: rec.msi, ..w.slot }, ..w },
        rec.devfn,
        rec.bases,
        6,
        vm,
    )
}

/// The message for saved state of a device that is not there.
pub open spec fn unknown_devfn(devfn: u8) -> Seq<char> {
    "snapshot references PCI devfn "@ + hex0x(devfn as nat)
        + ", which this launch's configuration doesn't have — device wiring must match exactly"@
}

/// `count` slots read off `buf` and brought to their saved states one after
/// the other; the first that is cut short or not there ends it.
pub open spec fn records_restored(w: Wires, buf: Seq<u8>, count: nat) -> (Wires, Result<(), Seq<char>>)
    decreases count,
{
    if count == 0 {
        (w, Ok(()))
    } else {
        match take_record(buf) {
            None => (w, Err(truncated())),
            Some((rec, rest)) => match slot_at(w.pci.slots, rec.devfn) {
                None => (w, Err(unknown_devfn(rec.devfn))),
                Some(i) => records_restored(
                    with_slot(w, i, slot_restored(slot_of(w, i), rec, w.pci.vm)),
                    rest,
                    (count - 1) as nat,
                ),
            },
        }
    }
}

/// A bus brought to a saved state.
pub open spec fn restored(w: Wires, data: Seq<u8>) -> (Wires, Result<(), Seq<char>>) {
    if data.len() < 4 {
        (w, Err(truncated()))
    } else {
        records_restored(w, data.skip(4), u32_at(data, 0) as nat)
    }
}

/// Writing back bases keeps a slot well-formed.
pub proof fn lemma_bases_restored_wf(
    w: SlotWrite,
    devfn: u8,
    bases: Seq<Option<u32>>,
    n: nat,
    vm: bool,
)
    requires
        w.slot.wf(),
        n <= 6,
    ensures
        bases_restored(w, devfn, bases, n, vm).slot.wf(),
    decreases n,
{
    if n > 0 {
        lemma_bases_restored_wf(w, devfn, bases, (n - 1) as nat, vm);
        if let Some(b) = bases[n - 1] {
            lemma_bar_written_wf(
                bases_restored(w, devfn, bases, (n - 1) as nat, vm),
                devfn,
                n - 1,
                b,
                vm,
            );
        }
    }
}

/// Bytes distinct from one another are at most 256.
proof fn lemma_slots_bounded(s: Seq<SlotEntry>)
    requires
        slots_wf(s),
    ensures
        s.len() <= 256,
{
    let f = s.map_values(|e: SlotEntry| e.0 as int);
    assert forall|i: int, j: int| 0 <= i < f.len() && 0 <= j < f.len() && i != j implies f[i]
        != f[j] by {
        if i < j {
            assert(s[i].0 != s[j].0);
        } else {
            assert(s[j].0 != s[i].0);
        }
    }
    f.unique_seq_to_set();
    vstd::set_lib::lemma_int_range(0, 256);
    assert(f.to_set().subset_of(vstd::set_lib::set_int_range(0, 256)));
    vstd::set_lib::lemma_len_subset(f.to_set(), vstd::set_lib::set_int_range(0, 256));
}

/// A PCI bus.
pub struct PciBus {
    slots: Vec<(u8, Slot)>,
    address: u32,
    vm: bool,
}

/// The views of a list of slots.
pub open spec fn slot_views(s: Seq<(u8, Slot)>) -> Seq<SlotEntry> {
    Seq::new(s.len(), |i: int| (s[i].0, s[i].1@))
}

impl View for PciBus {
    type V = PciView;

    closed spec fn view(&self) -> PciView {
        PciView { slots: slot_views(self.slots@), address: self.address, vm: self.vm }
    }
}

/// The message for a place that is taken.
pub open spec fn slot_in_use(devfn: u8) -> Seq<char> {
    "PCI device number "@ + dec((devfn / 8) as nat) + " (devfn "@ + hex0x(devfn as nat)
        + ") is already in use — two devices were registered at the same slot"@
}

/// What a device hands over when it is registered.
#[derive(Debug)]
pub struct PciConfig {
    pub identity: PciIdentity,
    pub bar_sizes: [u32; 6],
    pub bar_is_io: [bool; 6],
    pub ioevents: Vec<(u8, u64, u16)>,
}

impl PciConfig {
    /// Whether `c` is what `dev` reports about itself.
    pub open spec fn reported_by<D: PciDevice>(c: PciConfig, dev: &D) -> bool {
        &&& call_ensures(D::vendor_id, (dev,), c.identity.vendor_id)
        &&& call_ensures(D::device_id, (dev,), c.identity.device_id)
        &&& call_ensures(D::class_code, (dev,), c.identity.class_code)
        &&& call_ensures(D::revision_id, (dev,), c.identity.revision_id)
        &&& call_ensures(D::interrupt_line, (dev,), c.identity.interrupt_line)
        &&& call_ensures(D::interrupt_pin, (dev,), c.identity.interrupt_pin)
        &&& call_ensures(D::msi_capable, (dev,), c.identity.msi_capable)
        &&& call_ensures(D::extra_capabilities, (dev,), c.identity.extra_caps)
        &&& call_ensures(D::bar_sizes, (dev,), c.bar_sizes)
        &&& call_ensures(D::bar_is_io, (dev, 0), c.bar_is_io@[0])
        &&& call_ensures(D::bar_is_io, (dev, 1), c.bar_is_io@[1])
        &&& call_ensures(D::bar_is_io, (dev, 2), c.bar_is_io@[2])
        &&& call_ensures(D::bar_is_io, (dev, 3), c.bar_is_io@[3])
        &&& call_ensures(D::bar_is_io, (dev, 4), c.bar_is_io@[4])
        &&& call_ensures(D::bar_is_io, (dev, 5), c.bar_is_io@[5])
        &&& call_ensures(D::ioevent_entries, (dev,), c.ioevents)
    }

    /// Whether no event's address could leave the address space.
    pub open spec fn events_in_range(self) -> bool {
        forall|k: int|
            0 <= k < self.ioevents@.len() ==> (#[trigger] self.ioevents@[k]).1 + 0xffff_ffff
                <= u64::MAX
    }

    /// Reads what `dev` reports about itself.
    pub fn snapshot<D: PciDevice>(dev: &D) -> (r: Self)
        ensures
            PciConfig::reported_by(r, dev),
    {
        let bar_is_io: [bool; 6] = [
            dev.bar_is_io(0),
            dev.bar_is_io(1),
            dev.bar_is_io(2),
            dev.bar_is_io(3),
            dev.bar_is_io(4),
            dev.bar_is_io(5),
        ];
        PciConfig {
            identity: PciIdentity::snapshot(dev),
            bar_sizes: dev.bar_sizes(),
            bar_is_io,
            ioevents: dev.ioevent_entries(),
        }
    }
}

/// The slot of a device that was just registered.
pub open spec fn fresh_slot(c: PciConfig, device: SharedDevice) -> SlotView {
    SlotView {
        identity: c.identity,
        mmio_device: device,
        bars: Seq::new(
            6,
            |i: int|
                BarState { size: c.bar_sizes@[i], is_io: c.bar_is_io@[i], base: None, sizing: false },
        ),
        command: 0,
        msi: MsiState { enabled: false, address: 0, data: 0 },
        ioevents: Seq::new(
            c.ioevents@.len(),
            |k: int|
                IoEventBinding {
                    bar_index: c.ioevents@[k].0,
                    offset: c.ioevents@[k].1,
                    datamatch: c.ioevents@[k].2,
                    registered_addr: None,
                },
        ),
    }
}

impl PciBus {
    /// The bus is well-formed.
    pub open spec fn wf(&self) -> bool {
        slots_wf(self@.slots)
    }

    /// An empty bus whose devices' I/O events are never bound.
    pub fn new() -> (r: Self)
        ensures
            r.wf(),
            r@.slots.len() == 0,
            r@.address == 0,
            !r@.vm,
    {
        PciBus { slots: Vec::new(), address: 0, vm: false }
    }

    /// An empty bus whose devices' I/O events are bound once their BAR has a
    /// base.
    pub fn with_vm() -> (r: Self)
        ensures
            r.wf(),
            r@.slots.len() == 0,
            r@.address == 0,
            r@.vm,
    {
        PciBus { slots: Vec::new(), address: 0, vm: true }
    }

    /// Whether `port` belongs to the configuration mechanism.
    pub fn owns_port(port: u16) -> (r: bool)
        ensures
            r == (port == CONFIG_ADDRESS || CONFIG_DATA <= port <= CONFIG_DATA_END),
    {
        port == CONFIG_ADDRESS || (CONFIG_DATA <= port && port <= CONFIG_DATA_END)
    }

    fn find_slot(&self, devfn: u8) -> (r: Option<usize>)
        requires
            self.wf(),
        ensures
            match r {
                Some(i) => i < self.slots@.len() && slot_at(self@.slots, devfn) == Some(i as int)
                    && self.slots@[i as int].0 == devfn,
                None => slot_at(self@.slots, devfn) is None,
            },
    {
        let mut i: usize = 0;
        while i < self.slots.len()
            invariant
                i <= self.slots@.len(),
                self.wf(),
                forall|k: int| 0 <= k < i ==> (#[trigger] self@.slots[k]).0 != devfn,
            decreases self.slots@.len() - i,
        {
            if self.slots[i].0 == devfn {
                proof {
                    assert(self@.slots[i as int].0 == devfn);
                    lemma_slot_at_is(self@.slots, devfn, i as int);
                }
                return Some(i);
            }
            assert(self@.slots[i as int].0 != devfn);
            i += 1;
        }
        proof {
            lemma_slot_at(self@.slots, devfn);
        }
        None
    }

    /// Registers a device that reports `config` at `devfn`, with `mmio_device`
    /// answering behind its BARs. Returns the number and the matching value
    /// of each of its I/O events. A place that is taken is an error.
    pub fn register_config(&mut self, devfn: u8, config: PciConfig, mmio_device: SharedDevice) -> (r: Result<
        Vec<(usize, u16)>,
        String,
    >)
        requires
            old(self).wf(),
            config.events_in_range(),
        ensures
            final(self).wf(),
            match r {
                Ok(events) => {
                    &&& slot_at(old(self)@.slots, devfn) is None
                    &&& final(self)@ == (PciView {
                        slots: old(self)@.slots.push((devfn, fresh_slot(config, mmio_device))),
                        ..old(self)@
                    })
                    &&& events@ == Seq::new(
                        config.ioevents@.len(),
                        |k: int| (k as usize, config.ioevents@[k].2),
                    )
                },
                Err(e) => {
                    &&& slot_at(old(self)@.slots, devfn) is Some
                    &&& e@ == slot_in_use(devfn)
                    &&& final(self)@ == old(self)@
                },
            },
    {
        if self.find_slot(devfn).is_some() {
            let n = dec_string((devfn / 8) as u64);
            let at = hex0x_string(devfn as u64);
            return Err(
                cat5(
                    "PCI device number ",
                    n.as_str(),
                    " (devfn ",
                    at.as_str(),
                    ") is already in use — two devices were registered at the same slot",
                ),
            );
        }
        let s: [u32; 6] = config.bar_sizes;
        let io: [bool; 6] = config.bar_is_io;
        let bars: [BarState; 6] = [
            BarState { size: s[0], is_io: io[0], base: None, sizing: false },
            BarState { size: s[1], is_io: io[1], base: None, sizing: false },
            BarState { size: s[2], is_io: io[2], base: None, sizing: false },
            BarState { size: s[3], is_io: io[3], base: None, sizing: false },
            BarState { size: s[4], is_io: io[4], base: None, sizing: false },
            BarState { size: s[5], is_io: io[5], base: None, sizing: false },
        ];
        let mut ioevents: Vec<IoEventBinding> = Vec::new();
        let mut events: Vec<(usize, u16)> = Vec::new();
        let mut k: usize = 0;
        while k < config.ioevents.len()
            invariant
                k <= config.ioevents@.len(),
                ioevents@.len() == k,
                events@.len() == k,
                forall|i: int|
                    0 <= i < k ==> ioevents@[i] == (IoEventBinding {
                        bar_index: config.ioevents@[i].0,
                        offset: config.ioevents@[i].1,
                        datamatch: config.ioevents@[i].2,
                        registered_addr: None,
                    }),
                forall|i: int| 0 <= i < k ==> events@[i] == (i as usize, config.ioevents@[i].2),
            decreases config.ioevents@.len() - k,
        {
            let (bar_index, offset, datamatch) = config.ioevents[k];
            ioevents.push(IoEventBinding { bar_index, offset, datamatch, registered_addr: None });
            events.push((k, datamatch));
            k += 1;
        }
        let ghost c = config;
        let slot = Slot {
            identity: config.identity,
            mmio_device,
            bars,
            command: 0,
            msi: MsiState { enabled: false, address: 0, data: 0 },
            ioevents,
        };
        proof {
            let f = fresh_slot(c, mmio_device);
            assert(slot@.bars =~= f.bars);
            assert(slot@.ioevents =~= f.ioevents);
            assert(slot@ == f);
            lemma_slot_at(old(self)@.slots, devfn);
            assert forall|i: int| 0 <= i < 6 implies (#[trigger] f.bars[i]).wf() by {}
            assert forall|k: int| 0 <= k < f.ioevents.len() implies (#[trigger] f.ioevents[k]).offset + 0xffff_ffff
                <= u64::MAX by {
                assert(c.ioevents@[k].1 + 0xffff_ffff <= u64::MAX);
            }
            assert(f.wf());
        }
        self.slots.push((devfn, slot));
        proof {
            let want = old(self)@.slots.push((devfn, fresh_slot(c, mmio_device)));
            assert(self@.slots =~= want);
            assert forall|i: int, j: int| 0 <= i < j < want.len() implies (#[trigger] want[i]).0 != (#[trigger] want[j]).0 by {
                assert(want[i] == old(self)@.slots[i]);
                if j < want.len() - 1 {
                    assert(want[j] == old(self)@.slots[j]);
                }
            }
            assert forall|i: int| 0 <= i < want.len() implies (#[trigger] want[i]).1.wf() by {
                if i < want.len() - 1 {
                    assert(want[i] == old(self)@.slots[i]);
                }
            }
            assert(events@ =~= Seq::new(
                c.ioevents@.len(),
                |k: int| (k as usize, c.ioevents@[k].2),
            ));
        }
        Ok(events)
    }

    /// Registers `device` at `devfn`: what it reports about itself is read
    /// here, once.
    pub fn register<D: PciDevice>(&mut self, devfn: u8, device: &D, mmio_device: SharedDevice) -> (r: Result<
        Vec<(usize, u16)>,
        String,
    >)
        requires
            old(self).wf(),
            forall|v: Vec<(u8, u64, u16)>, k: int|
                call_ensures(D::ioevent_entries, (device,), v) && 0 <= k < v@.len() ==> (
                #[trigger] v@[k]).1 + 0xffff_ffff <= u64::MAX,
        ensures
            final(self).wf(),
            match r {
                Ok(events) => {
                    &&& slot_at(old(self)@.slots, devfn) is None
                    &&& exists|c: PciConfig| #[trigger]
                        PciConfig::reported_by(c, device) && final(self)@ == (PciView {
                            slots: old(self)@.slots.push((devfn, fresh_slot(c, mmio_device))),
                            ..old(self)@
                        }) && events@ == Seq::new(
                            c.ioevents@.len(),
                            |k: int| (k as usize, c.ioevents@[k].2),
                        )
                },
                Err(e) => {
                    &&& slot_at(old(self)@.slots, devfn) is Some
                    &&& e@ == slot_in_use(devfn)
                    &&& final(self)@ == old(self)@
                },
            },
    {
        let config = PciConfig::snapshot(device);
        self.register_config(devfn, config, mmio_device)
    }

    fn decode_address(&self) -> (r: Option<(u8, u16)>)
        ensures
            r == decode(self@.address),
    {
        let a: u32 = self.address;
        if a & 0x8000_0000u32 == 0 {
            return None;
        }
        if (a >> 16u32) & 0xffu32 != 0 {
            return None;
        }
        assert((a >> 8u32) & 0xffu32 <= 0xff && a & 0xfcu32 <= 0xfc) by (bit_vector);
        Some((((a >> 8u32) & 0xffu32) as u8, (a & 0xfcu32) as u16))
    }

    fn bar_index(reg: u16) -> (r: Option<usize>)
        ensures
            match r {
                Some(i) => bar_of(reg) == Some(i as int) && i < 6,
                None => bar_of(reg) is None,
            },
    {
        if BAR_OFFSET <= reg && reg <= BAR_OFFSET_END && (reg - BAR_OFFSET) % 4 == 0 {
            Some(((reg - BAR_OFFSET) / 4) as usize)
        } else {
            None
        }
    }

    fn read_bar(bar: &BarState) -> (r: u32)
        ensures
            r == bar.value(),
    {
        if !bar.implemented() {
            return 0;
        }
        if bar.sizing {
            return (!(bar.size - 1) & bar.align_mask()) | bar.space_bit();
        }
        match bar.base {
            Some(b) => b | bar.space_bit(),
            None => 0,
        }
    }

    fn read_extra_cap(bytes: &Vec<u8>, reg: u16) -> (r: u32)
        ensures
            r == extra_cap(bytes@, reg),
    {
        if reg < EXTRA_CAP_OFFSET {
            return 0;
        }
        let at: usize = (reg - EXTRA_CAP_OFFSET) as usize;
        let mut buf: Vec<u8> = Vec::new();
        let mut k: usize = 0;
        while k < 4
            invariant
                k <= 4,
                at <= 0xffff,
                buf@.len() == k,
                forall|i: int| 0 <= i < k ==> buf@[i] == (if at + i < bytes@.len() { bytes@[at + i] } else { 0u8 }),
            decreases 4 - k,
        {
            if at + k < bytes.len() {
                buf.push(bytes[at + k]);
            } else {
                buf.push(0);
            }
            k += 1;
        }
        assert(buf@ =~= Seq::new(4, |k: int| if at + k < bytes@.len() { bytes@[at + k] } else { 0u8 }));
        get_u32(buf.as_slice(), 0)
    }

    fn read_register(slot: &Slot, reg: u16) -> (r: u32)
        requires
            slot@.wf(),
        ensures
            r == config_dword(slot@, reg),
    {
        let id = &slot.identity;
        let has_extra = id.extra_caps.len() != 0;
        if reg == REG_ID {
            ((id.device_id as u32) << 16u32) | (id.vendor_id as u32)
        } else if reg == REG_COMMAND_STATUS {
            let status: u32 = if id.msi_capable || has_extra { STATUS_CAP_LIST as u32 } else { 0 };
            (status << 16u32) | (slot.command as u32)
        } else if reg == REG_CLASS {
            (id.class_code << 8u32) | (id.revision_id as u32)
        } else if reg == REG_HEADER_TYPE {
            0
        } else if reg == REG_CAPABILITIES_PTR && id.msi_capable {
            MSI_CAP_OFFSET as u32
        } else if reg == REG_CAPABILITIES_PTR && has_extra {
            EXTRA_CAP_OFFSET as u32
        } else if reg == REG_INTERRUPT {
            (id.interrupt_line as u32) | ((id.interrupt_pin as u32) << 8u32)
        } else if reg == MSI_CAP_OFFSET && id.msi_capable {
            let next: u32 = if has_extra { EXTRA_CAP_OFFSET as u32 } else { 0 };
            let ctrl: u32 = if slot.msi.enabled { MSI_CTRL_ENABLE as u32 } else { 0 };
            (CAP_ID_MSI as u32) | (next << 8u32) | (ctrl << 16u32)
        } else if reg == MSI_CAP_ADDRESS && id.msi_capable {
            slot.msi.address
        } else if reg == MSI_CAP_DATA && id.msi_capable {
            slot.msi.data as u32
        } else {
            match Self::bar_index(reg) {
                Some(i) => Self::read_bar(&slot.bars[i]),
                None => Self::read_extra_cap(&id.extra_caps, reg),
            }
        }
    }

    fn config_read(&mut self, byte_offset: u16, data: &mut [u8])
        requires
            old(self).wf(),
            byte_offset < 4,
        ensures
            final(self).wf(),
            final(self)@ == config_after_read(old(self)@, byte_offset as int, old(data)@.len()),
            final(data)@ == config_bytes(old(self)@, byte_offset as int, old(data)@.len()),
    {
        fill(data, 0xff);
        let (devfn, reg) = match self.decode_address() {
            Some(p) => p,
            None => {
                return;
            },
        };
        let full_dword = byte_offset == 0 && data.len() == 4;
        let i: usize = match self.find_slot(devfn) {
            Some(i) => i,
            None => {
                return;
            },
        };
        assert(self@.slots[i as int].1 == self.slots@[i as int].1@);
        let dword: u32 = Self::read_register(&self.slots[i].1, reg);
        if let Some(b) = Self::bar_index(reg) {
            let slot = &mut self.slots[i].1;
            let bar: BarState = slot.bars[b];
            if bar.size != 0 && bar.sizing && full_dword {
                slot.bars[b] = BarState { sizing: false, ..bar };
            }
        }
        proof {
            let want = config_after_read(old(self)@, byte_offset as int, data@.len());
            let k = i as int;
            assert(self.slots@[k].1@.bars =~= want.slots[k].1.bars);
            assert(self@.slots[k] == want.slots[k]);
            assert(self@.slots =~= want.slots);
            let was = old(self)@.slots[k].1;
            let now = want.slots[k].1;
            assert forall|j: int| 0 <= j < 6 implies (#[trigger] now.bars[j]).wf() by {
                assert(was.bars[j].wf());
            }
            assert(now.ioevents == was.ioevents);
            assert(now.wf());
            assert forall|j: int| 0 <= j < want.slots.len() implies (#[trigger] want.slots[j]).1.wf() by {
                assert(old(self)@.slots[j].1.wf());
            }
            assert forall|a: int, b: int| 0 <= a < b < want.slots.len() implies (#[trigger] want.slots[a]).0 != (#[trigger] want.slots[b]).0 by {
                assert(old(self)@.slots[a].0 != old(self)@.slots[b].0);
            }
        }
        let mut bytes: Vec<u8> = Vec::new();
        push_u32(&mut bytes, dword);
        let off: usize = byte_offset as usize;
        let mut k: usize = 0;
        let ghost len = old(data)@.len();
        while k < data.len() && k < 4 - off
            invariant
                k <= data@.len() == len,
                off < 4,
                k <= 4 - off,
                bytes@ == Seq::<u8>::empty() + le32(dword),
                forall|j: int| 0 <= j < len ==> data@[j] == (if j < k { le32(dword)[off + j] } else { 0xffu8 }),
            decreases data@.len() - k,
        {
            data[k] = bytes[off + k];
            k += 1;
        }
        assert(data@ =~= window(dword, off as int, len));
    }

    /// Handles a guest read of `data.len()` bytes at `port`.
    pub fn io_in(&mut self, port: u16, data: &mut [u8])
        requires
            old(self).wf(),
        ensures
            final(self).wf(),
            if port == CONFIG_ADDRESS && old(data)@.len() == 4 {
                final(self)@ == old(self)@ && final(data)@ == le32(old(self)@.address)
            } else if CONFIG_DATA <= port <= CONFIG_DATA_END {
                &&& final(self)@ == config_after_read(
                    old(self)@,
                    port - CONFIG_DATA,
                    old(data)@.len(),
                )
                &&& final(data)@ == config_bytes(old(self)@, port - CONFIG_DATA, old(data)@.len())
            } else {
                &&& final(self)@ == old(self)@
                &&& final(data)@ == Seq::new(old(data)@.len(), |k: int| 0xffu8)
            },
    {
        if port == CONFIG_ADDRESS && data.len() == 4 {
            let a: u32 = self.address;
            data[0] = (a % 256) as u8;
            data[1] = (a / 256 % 256) as u8;
            data[2] = (a / 65536 % 256) as u8;
            data[3] = (a / 16777216) as u8;
            assert(data@ =~= le32(a));
        } else if CONFIG_DATA <= port && port <= CONFIG_DATA_END {
            self.config_read(port - CONFIG_DATA, data);
        } else {
            fill(data, 0xff);
        }
    }

    /// The message address and data of the device at `devfn`, if its MSI is
    /// enabled.
    pub fn msi_state(&self, devfn: u8) -> (r: Option<(u32, u16)>)
        requires
            self.wf(),
        ensures
            r == msi_at(self@.slots, devfn),
    {
        match self.find_slot(devfn) {
            Some(i) => {
                assert(self@.slots[i as int].1 == self.slots@[i as int].1@);
                let m: MsiState = self.slots[i].1.msi;
                if m.enabled {
                    Some((m.address, m.data))
                } else {
                    None
                }
            },
            None => None,
        }
    }

    fn rebind_ioevents(slot: &mut Slot, devfn: u8, index: usize, is_io: bool, base: u32) -> (r: Vec<
        IoEventAction,
    >)
        requires
            old(slot)@.wf(),
        ensures
            final(slot)@ == (SlotView {
                ioevents: rebound(old(slot)@.ioevents, index as int),
                ..old(slot)@
            }),
            r@ == rebind_actions(old(slot)@.ioevents, devfn, index as int, is_io, base),
    {
        let mut out: Vec<IoEventAction> = Vec::new();
        let mut k: usize = 0;
        let ghost evs = slot.ioevents@;
        assert(evs.take(0) =~= seq![]);
        while k < slot.ioevents.len()
            invariant
                k <= slot.ioevents@.len() == evs.len(),
                evs == old(slot)@.ioevents,
                old(slot)@.wf(),
                slot@ == (SlotView { ioevents: slot.ioevents@, ..old(slot)@ }),
                forall|j: int|
                    0 <= j < evs.len() ==> #[trigger] slot.ioevents@[j] == (if j < k {
                        rebound(evs, index as int)[j]
                    } else {
                        evs[j]
                    }),
                out@ == rebind_actions(evs.take(k as int), devfn, index as int, is_io, base),
            decreases evs.len() - k,
        {
            assert(evs.take(k as int + 1).drop_last() =~= evs.take(k as int));
            assert(evs.take(k as int + 1).last() == evs[k as int]);
            let e: IoEventBinding = slot.ioevents[k];
            assert(e == evs[k as int]);
            assert(old(slot)@.ioevents[k as int].offset + 0xffff_ffff <= u64::MAX);
            if e.bar_index as usize == index {
                if let Some(addr) = e.registered_addr {
                    out.push(
                        IoEventAction { devfn, entry: k, bind: false, is_io, addr, datamatch: e.datamatch },
                    );
                }
                if base != 0 {
                    let addr: u64 = base as u64 + e.offset;
                    out.push(
                        IoEventAction { devfn, entry: k, bind: true, is_io, addr, datamatch: e.datamatch },
                    );
                }
                slot.ioevents.set(k, IoEventBinding { registered_addr: None, ..e });
            }
            k += 1;
        }
        assert(evs.take(k as int) =~= evs);
        assert(slot.ioevents@ =~= rebound(evs, index as int));
        out
    }

    fn write_bar(
        slot: &mut Slot,
        devfn: u8,
        index: usize,
        val: u32,
        mmio: &mut MmioBus,
        io: &mut IoBus,
        vm: bool,
    ) -> (r: Vec<IoEventAction>)
        requires
            old(slot)@.wf(),
            index < 6,
        ensures
            final(slot)@.wf(),
            ({
                let w = SlotWrite {
                    slot: old(slot)@,
                    mmio: old(mmio)@,
                    io: old(io)@,
                    actions: Seq::empty(),
                };
                bar_written(w, devfn, index as int, val, vm) == SlotWrite {
                    slot: final(slot)@,
                    mmio: final(mmio)@,
                    io: final(io)@,
                    actions: r@,
                }
            }),
    {
        let ghost w = SlotWrite {
            slot: slot@,
            mmio: mmio@,
            io: io@,
            actions: Seq::empty(),
        };
        let ghost want = bar_written(w, devfn, index as int, val, vm);
        proof {
            lemma_bar_written_wf(w, devfn, index as int, val, vm);
        }
        let irq = slot.identity.irq();
        let bar: BarState = slot.bars[index];
        if !bar.implemented() {
            let none: Vec<IoEventAction> = Vec::new();
            assert(none@ =~= want.actions);
            return none;
        }
        if val == 0xffff_ffff {
            slot.bars[index] = BarState { sizing: true, ..bar };
            assert(slot@.bars =~= want.slot.bars);
            let none: Vec<IoEventAction> = Vec::new();
            assert(none@ =~= want.actions);
            return none;
        }
        let base: u32 = val & bar.align_mask();
        slot.bars[index] = BarState { base: Some(base), ..bar };
        assert(slot@.bars =~= want.slot.bars);
        let dev: SharedDevice = slot.mmio_device;
        if bar.is_io {
            Self::remap(io, base, bar.size, dev, irq);
        } else {
            Self::remap(mmio, base, bar.size, dev, irq);
        }
        if vm {
            proof {
                let mid = slot@;
                assert(mid.ioevents == w.slot.ioevents);
                assert forall|i: int| 0 <= i < 6 implies (#[trigger] mid.bars[i]).wf() by {
                    assert(want.slot.bars[i].wf());
                }
                assert(mid.wf());
            }
            let out = Self::rebind_ioevents(slot, devfn, index, bar.is_io, base);
            assert(out@ =~= want.actions);
            out
        } else {
            let none: Vec<IoEventAction> = Vec::new();
            assert(none@ =~= want.actions);
            none
        }
    }

    fn remap(bus: &mut Bus, base: u32, size: u32, dev: SharedDevice, irq: Option<u32>)
        ensures
            final(bus)@ == (if base == 0 {
                without(old(bus)@, dev)
            } else {
                registered(old(bus)@, base as u64, size as u64, dev, irq)
            }),
    {
        if base == 0 {
            bus.unregister(dev);
        } else {
            bus.register(base as u64, size as u64, dev, irq);
        }
    }

    fn config_write(
        &mut self,
        byte_offset: u16,
        data: &[u8],
        mmio: &mut MmioBus,
        io: &mut IoBus,
    ) -> (r: Vec<IoEventAction>)
        requires
            old(self).wf(),
            byte_offset < 4,
        ensures
            final(self).wf(),
            config_written(
                (Wires { pci: old(self)@, mmio: old(mmio)@, io: old(io)@, actions: Seq::empty() }),
                byte_offset as int,
                data@,
            ) == (Wires { pci: final(self)@, mmio: final(mmio)@, io: final(io)@, actions: r@ }),
    {
        let ghost w = Wires { pci: self@, mmio: mmio@, io: io@, actions: Seq::empty() };
        let ghost want = config_written(w, byte_offset as int, data@);
        let mut out: Vec<IoEventAction> = Vec::new();
        assert(out@ =~= Seq::empty());
        let (devfn, reg) = match self.decode_address() {
            Some(p) => p,
            None => {
                return out;
            },
        };
        let i: usize = match self.find_slot(devfn) {
            Some(i) => i,
            None => {
                return out;
            },
        };
        let vm = self.vm;
        assert(self@.slots[i as int] == (devfn, self.slots@[i as int].1@));
        let ghost s0 = slot_of(w, i as int);
        let ghost s1 = register_written(s0, devfn, reg, byte_offset as int, data@, vm);
        let slot = &mut self.slots[i].1;
        let msi = slot.identity.msi_capable;
        if reg == REG_COMMAND_STATUS && byte_offset == 0 && data.len() >= 2 {
            slot.command = get_u16(data, 0);
        } else if reg == MSI_CAP_OFFSET && msi && byte_offset == MSI_CTRL_BYTE && data.len() >= 2 {
            let ctrl: u16 = get_u16(data, 0);
            slot.msi.enabled = ctrl & MSI_CTRL_ENABLE != 0;
        } else if reg == MSI_CAP_ADDRESS && msi && byte_offset == 0 && data.len() == 4 {
            slot.msi.address = get_u32(data, 0);
        } else if reg == MSI_CAP_DATA && msi && byte_offset == 0 && data.len() >= 2 {
            slot.msi.data = get_u16(data, 0);
        } else if let Some(b) = Self::bar_index(reg) {
            if byte_offset == 0 && data.len() == 4 {
                let val: u32 = get_u32(data, 0);
                out = Self::write_bar(slot, devfn, b, val, mmio, io, vm);
            }
        }
        proof {
            let k = i as int;
            assert(self.slots@[k].1@ == s1.slot);
            assert(self@.slots =~= want.pci.slots);
            assert(out@ =~= s1.actions);
            if bar_of(reg) is Some {
                lemma_bar_written_wf(s0, devfn, bar_of(reg)->0, u32_at(data@, 0), vm);
            }
            let t = s1.slot;
            if t.bars == s0.slot.bars && t.ioevents == s0.slot.ioevents {
                assert(t.wf());
            }
            lemma_with_slot_wf(w, k, s1);
        }
        out
    }

    /// Handles a guest write of `data` at `port`. Returns which of the
    /// devices' I/O events to unbind and to bind, in that order.
    pub fn io_out(
        &mut self,
        port: u16,
        data: &[u8],
        mmio: &mut MmioBus,
        io: &mut IoBus,
    ) -> (r: Vec<IoEventAction>)
        requires
            old(self).wf(),
        ensures
            final(self).wf(),
            port_written(
                (Wires { pci: old(self)@, mmio: old(mmio)@, io: old(io)@, actions: Seq::empty() }),
                port,
                data@,
            ) == (Wires { pci: final(self)@, mmio: final(mmio)@, io: final(io)@, actions: r@ }),
    {
        if port == CONFIG_ADDRESS && data.len() == 4 {
            self.address = get_u32(data, 0);
            let none: Vec<IoEventAction> = Vec::new();
            assert(none@ =~= Seq::empty());
            none
        } else if CONFIG_DATA <= port && port <= CONFIG_DATA_END {
            self.config_write(port - CONFIG_DATA, data, mmio, io)
        } else {
            let none: Vec<IoEventAction> = Vec::new();
            assert(none@ =~= Seq::empty());
            none
        }
    }

    /// Records that a binding that `io_out` asked for was made.
    pub fn ioevent_bound(&mut self, action: IoEventAction)
        requires
            old(self).wf(),
        ensures
            final(self).wf(),
            final(self)@.address == old(self)@.address,
            final(self)@.vm == old(self)@.vm,
            final(self)@.slots == (match slot_at(old(self)@.slots, action.devfn) {
                Some(i) => {
                    let s = old(self)@.slots[i].1;
                    if action.bind && action.entry < s.ioevents.len() {
                        old(self)@.slots.update(
                            i,
                            (
                                action.devfn,
                                SlotView {
                                    ioevents: s.ioevents.update(
                                        action.entry as int,
                                        IoEventBinding {
                                            registered_addr: Some(action.addr),
                                            ..s.ioevents[action.entry as int]
                                        },
                                    ),
                                    ..s
                                },
                            ),
                        )
                    } else {
                        old(self)@.slots
                    }
                },
                None => old(self)@.slots,
            }),
    {
        match self.find_slot(action.devfn) {
            Some(i) => {
                assert(self@.slots[i as int] == (action.devfn, self.slots@[i as int].1@));
                if action.bind && action.entry < self.slots[i].1.ioevents.len() {
                    let ghost w = Wires { pci: self@, mmio: Seq::empty(), io: Seq::empty(), actions: Seq::empty() };
                    let ghost s0 = slot_of(w, i as int);
                    let ghost t = SlotView {
                        ioevents: s0.slot.ioevents.update(
                            action.entry as int,
                            IoEventBinding {
                                registered_addr: Some(action.addr),
                                ..s0.slot.ioevents[action.entry as int]
                            },
                        ),
                        ..s0.slot
                    };
                    let slot = &mut self.slots[i].1;
                    let e: IoEventBinding = slot.ioevents[action.entry];
                    slot.ioevents.set(
                        action.entry,
                        IoEventBinding { registered_addr: Some(action.addr), ..e },
                    );
                    proof {
                        assert(self.slots@[i as int].1@ == t);
                        assert forall|k: int| 0 <= k < t.ioevents.len() implies (#[trigger] t.ioevents[k]).offset + 0xffff_ffff <= u64::MAX by {
                            assert(s0.slot.ioevents[k].offset + 0xffff_ffff <= u64::MAX);
                        }
                        lemma_with_slot_wf(w, i as int, SlotWrite { slot: t, ..s0 });
                        assert(self@.slots =~= old(self)@.slots.update(i as int, (action.devfn, t)));
                    }
                }
            },
            None => {},
        }
    }

    /// The state of every slot, as bytes: the bases of its BARs, the command
    /// register and the MSI registers. What the devices report about
    /// themselves is not saved: registering them again brings it back.
    pub fn save_state(&self) -> (r: Vec<u8>)
        requires
            self.wf(),
        ensures
            r@ == saved(self@.slots),
    {
        proof {
            lemma_slots_bounded(self@.slots);
        }
        let ghost slots = self@.slots;
        let mut buf: Vec<u8> = Vec::new();
        push_u32(&mut buf, self.slots.len() as u32);
        assert(buf@ =~= le32(slots.len() as u32) + records_bytes(slots, 0));
        let mut i: usize = 0;
        while i < self.slots.len()
            invariant
                i <= self.slots@.len(),
                slots == self@.slots,
                self.wf(),
                buf@ == le32(slots.len() as u32) + records_bytes(slots, i as nat),
            decreases self.slots@.len() - i,
        {
            let ghost start = buf@;
            let entry = &self.slots[i];
            let slot = &entry.1;
            assert(slots[i as int] == (entry.0, slot@));
            buf.push(entry.0);
            let ghost e = slots[i as int];
            let mut b: usize = 0;
            assert(buf@ =~= start + seq![e.0] + bases_bytes(e.1.bars, 0));
            while b < 6
                invariant
                    b <= 6,
                    e.1 == slot@,
                    e.1.wf(),
                    buf@ == start + seq![e.0] + bases_bytes(e.1.bars, b as nat),
                decreases 6 - b,
            {
                let ghost at = buf@;
                match slot.bars[b].base {
                    Some(base) => {
                        buf.push(1);
                        push_u32(&mut buf, base);
                        assert(buf@ =~= at + base_bytes(Some(base)));
                    },
                    None => {
                        buf.push(0);
                        assert(buf@ =~= at + base_bytes(None));
                    },
                }
                b += 1;
                assert(buf@ =~= start + seq![e.0] + bases_bytes(e.1.bars, b as nat));
            }
            push_u16(&mut buf, slot.command);
            buf.push(if slot.msi.enabled { 1 } else { 0 });
            push_u32(&mut buf, slot.msi.address);
            push_u16(&mut buf, slot.msi.data);
            assert(buf@ =~= start + record_bytes(e));
            i += 1;
            assert(buf@ =~= le32(slots.len() as u32) + records_bytes(slots, i as nat));
        }
        buf
    }

    fn read_bases(buf: &mut &[u8]) -> (r: Result<Vec<Option<u32>>, String>)
        ensures
            match r {
                Ok(v) => take_bases(old(buf)@, 6) == Some((v@, final(buf)@)) && v@.len() == 6,
                Err(e) => take_bases(old(buf)@, 6) is None && e@ == truncated(),
            },
    {
        let mut bases: Vec<Option<u32>> = Vec::new();
        let mut k: usize = 0;
        let ghost start = buf@;
        assert(bases@ =~= seq![]);
        reveal_with_fuel(take_bases, 2);
        while k < 6
            invariant
                k <= 6,
                bases@.len() == k,
                start == old(buf)@,
                take_bases(start, k as nat) == Some((bases@, buf@)),
            decreases 6 - k,
        {
            let ghost at = buf@;
            let flag: u8 = match take_u8(buf) {
                Ok(f) => f,
                Err(e) => {
                    proof {
                        lemma_take_bases_fails(start, k as nat + 1, 6);
                    }
                    return Err(e);
                },
            };
            if flag != 0 {
                let base: u32 = match take_u32(buf) {
                    Ok(b) => b,
                    Err(e) => {
                        proof {
                            lemma_take_bases_fails(start, k as nat + 1, 6);
                        }
                        return Err(e);
                    },
                };
                assert(at.skip(1).skip(4) =~= at.skip(5));
                bases.push(Some(base));
            } else {
                bases.push(None);
            }
            k += 1;
        }
        Ok(bases)
    }

    /// Brings the bus to a state that `save_state` gave. Every device must be
    /// registered already; state of one that is not is an error. The bases of
    /// the BARs are written as a guest would write them, so the devices show
    /// up on the buses again. What was restored before an error stays.
    pub fn restore_state(&mut self, data: &[u8], mmio: &mut MmioBus, io: &mut IoBus) -> (r: (
        Result<(), String>,
        Vec<IoEventAction>,
    ))
        requires
            old(self).wf(),
        ensures
            final(self).wf(),
            ({
                let (w, e) = restored(
                    (Wires { pci: old(self)@, mmio: old(mmio)@, io: old(io)@, actions: Seq::empty() }),
                    data@,
                );
                &&& w == (Wires { pci: final(self)@, mmio: final(mmio)@, io: final(io)@, actions: r.1@ })
                &&& match r.0 {
                    Ok(_) => e is Ok,
                    Err(m) => e == Err::<(), Seq<char>>(m@),
                }
            }),
    {
        let ghost w0 = Wires { pci: self@, mmio: mmio@, io: io@, actions: Seq::empty() };
        let ghost want = restored(w0, data@);
        let mut out: Vec<IoEventAction> = Vec::new();
        assert(out@ =~= Seq::empty());
        let mut buf = data;
        let count: u32 = match take_u32(&mut buf) {
            Ok(c) => c,
            Err(e) => {
                return (Err(e), out);
            },
        };
        let vm = self.vm;
        let mut done: u32 = 0;
        while done < count
            invariant
                done <= count,
                vm == self.vm,
                self.wf(),
                w0 == (Wires {
                    pci: old(self)@,
                    mmio: old(mmio)@,
                    io: old(io)@,
                    actions: Seq::empty(),
                }),
                want == restored(w0, data@),
                want == records_restored(
                    (Wires { pci: self@, mmio: mmio@, io: io@, actions: out@ }),
                    buf@,
                    (count - done) as nat,
                ),
            decreases count - done,
        {
            let ghost w = Wires { pci: self@, mmio: mmio@, io: io@, actions: out@ };
            let ghost start = buf@;
            let devfn: u8 = match take_u8(&mut buf) {
                Ok(x) => x,
                Err(e) => {
                    assert(take_record(start) is None);
                    return (Err(e), out);
                },
            };
            let bases: Vec<Option<u32>> = match Self::read_bases(&mut buf) {
                Ok(v) => v,
                Err(e) => {
                    assert(take_record(start) is None);
                    return (Err(e), out);
                },
            };
            let ghost rest = buf@;
            let command: u16 = match take_u16(&mut buf) {
                Ok(x) => x,
                Err(e) => {
                    assert(take_record(start) is None);
                    return (Err(e), out);
                },
            };
            let enabled: u8 = match take_u8(&mut buf) {
                Ok(x) => x,
                Err(e) => {
                    assert(take_record(start) is None);
                    return (Err(e), out);
                },
            };
            let address: u32 = match take_u32(&mut buf) {
                Ok(x) => x,
                Err(e) => {
                    assert(take_record(start) is None);
                    return (Err(e), out);
                },
            };
            let msi_data: u16 = match take_u16(&mut buf) {
                Ok(x) => x,
                Err(e) => {
                    assert(take_record(start) is None);
                    return (Err(e), out);
                },
            };
            let ghost rec = SavedSlot {
                devfn,
                bases: bases@,
                command,
                msi: MsiState { enabled: enabled != 0, address, data: msi_data },
            };
            proof {
                assert(rest.skip(2).skip(1).skip(4).skip(2) =~= rest.skip(9));
                crate::bytes::lemma_u32_same(rest, 3, rest.skip(2).skip(1), 0);
                crate::bytes::lemma_u16_same(rest, 7, rest.skip(2).skip(1).skip(4), 0);
                assert(take_record(start) == Some((rec, buf@)));
            }
            let i: usize = match self.find_slot(devfn) {
                Some(i) => i,
                None => {
                    let at = hex0x_string(devfn as u64);
                    let m = crate::text::cat3(
                        "snapshot references PCI devfn ",
                        at.as_str(),
                        ", which this launch's configuration doesn't have — device wiring must match exactly",
                    );
                    return (Err(m), out);
                },
            };
            assert(self@.slots[i as int] == (devfn, self.slots@[i as int].1@));
            let ghost s0 = slot_of(w, i as int);
            let slot = &mut self.slots[i].1;
            slot.command = command;
            slot.msi = MsiState { enabled: enabled != 0, address, data: msi_data };
            let ghost s1 = SlotWrite {
                slot: SlotView { command: rec.command, msi: rec.msi, ..s0.slot },
                ..s0
            };
            assert(s1.slot.wf());
            let mut b: usize = 0;
            while b < 6
                invariant
                    b <= 6,
                    bases@.len() == 6,
                    slot@.wf(),
                    bases_restored(s1, devfn, bases@, b as nat, vm) == (SlotWrite {
                        slot: slot@,
                        mmio: mmio@,
                        io: io@,
                        actions: out@,
                    }),
                decreases 6 - b,
            {
                if let Some(base) = bases[b] {
                    let ghost before = bases_restored(s1, devfn, bases@, b as nat, vm);
                    let mut more = Self::write_bar(slot, devfn, b, base, mmio, io, vm);
                    let ghost m = more@;
                    proof {
                        lemma_actions_appended(before, devfn, b as int, base, vm);
                    }
                    out.append(&mut more);
                    assert(out@ =~= before.actions + m);
                }
                b += 1;
            }
            proof {
                let s2 = slot_restored(s0, rec, vm);
                lemma_bases_restored_wf(s1, devfn, bases@, 6, vm);
                lemma_with_slot_wf(w, i as int, s2);
                assert(self@.slots =~= with_slot(w, i as int, s2).pci.slots);
                assert(with_slot(w, i as int, s2) == (Wires { pci: self@, mmio: mmio@, io: io@, actions: out@ }));
            }
            done += 1;
        }
        (Ok(()), out)
    }
}

/// A list of bases that is cut short stays cut short.
proof fn lemma_take_bases_fails(buf: Seq<u8>, k: nat, n: nat)
    requires
        k <= n,
        take_bases(buf, k) is None,
    ensures
        take_bases(buf, n) is None,
    decreases n,
{
    if k < n {
        lemma_take_bases_fails(buf, k, (n - 1) as nat);
    }
}

/// A BAR write only adds to the bindings to undo and to make.
proof fn lemma_actions_appended(w: SlotWrite, devfn: u8, index: int, val: u32, vm: bool)
    ensures
        ({
            let z = bar_written(SlotWrite { actions: Seq::empty(), ..w }, devfn, index, val, vm);
            bar_written(w, devfn, index, val, vm) == (SlotWrite { actions: w.actions + z.actions, ..z })
        }),
{
    let z = bar_written(SlotWrite { actions: Seq::empty(), ..w }, devfn, index, val, vm);
    assert(bar_written(w, devfn, index, val, vm).actions =~= w.actions + z.actions);
}

/// The bases of a slot's BARs.
pub open spec fn bases_of(bars: Seq<BarState>, n: nat) -> Seq<Option<u32>> {
    Seq::new(n, |k: int| bars[k].base)
}

proof fn lemma_take_bases_saved(bars: Seq<BarState>, n: nat, tail: Seq<u8>)
    requires
        n <= bars.len(),
    ensures
        take_bases(bases_bytes(bars, n) + tail, n) == Some((bases_of(bars, n), tail)),
    decreases n,
{
    let buf = bases_bytes(bars, n) + tail;
    if n == 0 {
        assert(buf =~= tail);
        assert(bases_of(bars, 0) =~= seq![]);
    } else {
        let m = (n - 1) as nat;
        let one = base_bytes(bars[m as int].base);
        assert(buf =~= bases_bytes(bars, m) + (one + tail));
        lemma_take_bases_saved(bars, m, one + tail);
        let rest = one + tail;
        match bars[m as int].base {
            Some(b) => {
                crate::bytes::lemma_u32_le(rest.skip(1), 0, b);
                assert(rest.skip(5) =~= tail);
                assert(bases_of(bars, n) =~= bases_of(bars, m).push(Some(b)));
            },
            None => {
                assert(rest.skip(1) =~= tail);
                assert(bases_of(bars, n) =~= bases_of(bars, m).push(None));
            },
        }
    }
}

/// A slot as it was saved.
pub open spec fn saved_slot(e: SlotEntry) -> SavedSlot {
    SavedSlot { devfn: e.0, bases: bases_of(e.1.bars, 6), command: e.1.command, msi: e.1.msi }
}

proof fn lemma_take_record_saved(e: SlotEntry, tail: Seq<u8>)
    requires
        e.1.wf(),
    ensures
        take_record(record_bytes(e) + tail) == Some((saved_slot(e), tail)),
{
    let buf = record_bytes(e) + tail;
    let flag = seq![if e.1.msi.enabled { 1u8 } else { 0u8 }];
    let rest = le16(e.1.command) + flag + le32(e.1.msi.address) + le16(e.1.msi.data) + tail;
    assert(buf.skip(1) =~= bases_bytes(e.1.bars, 6) + rest);
    lemma_take_bases_saved(e.1.bars, 6, rest);
    crate::bytes::lemma_u16_le(rest, 0, e.1.command);
    assert forall|k: int| 0 <= k < 4 implies rest[3 + k] == #[trigger] le32(e.1.msi.address)[k] by {}
    crate::bytes::lemma_u32_le(rest, 3, e.1.msi.address);
    crate::bytes::lemma_u16_le(rest, 7, e.1.msi.data);
    assert(rest.skip(9) =~= tail);
}

spec fn records_from(slots: Seq<SlotEntry>, i: nat) -> Seq<u8>
    decreases slots.len() - i,
{
    if i >= slots.len() {
        seq![]
    } else {
        record_bytes(slots[i as int]) + records_from(slots, i + 1)
    }
}

proof fn lemma_records_from(slots: Seq<SlotEntry>, i: nat)
    requires
        i <= slots.len(),
    ensures
        records_bytes(slots, slots.len()) =~= records_bytes(slots, i) + records_from(slots, i),
    decreases slots.len() - i,
{
    if i < slots.len() {
        lemma_records_from(slots, i + 1);
    }
}

/// Whether two slots stand at the same place and have the same BARs.
pub open spec fn same_wiring(a: SlotEntry, b: SlotEntry) -> bool {
    &&& a.0 == b.0
    &&& forall|j: int|
        0 <= j < 6 ==> (#[trigger] a.1.bars[j]).size == b.1.bars[j].size && a.1.bars[j].is_io
            == b.1.bars[j].is_io
}

/// Whether no BAR of a slot has a base.
pub open spec fn unassigned(a: SlotEntry) -> bool {
    forall|j: int| 0 <= j < 6 ==> (#[trigger] a.1.bars[j]).base is None
}

/// Whether two slots have the same configuration-space state.
pub open spec fn same_state(a: SlotEntry, b: SlotEntry) -> bool {
    &&& a.1.command == b.1.command
    &&& a.1.msi == b.1.msi
    &&& forall|j: int| 0 <= j < 6 ==> (#[trigger] a.1.bars[j]).base == b.1.bars[j].base
}

proof fn lemma_bases_restored(w: SlotWrite, e: SlotEntry, n: nat, vm: bool)
    requires
        w.slot.wf(),
        e.1.wf(),
        n <= 6,
        same_wiring((e.0, w.slot), e),
        unassigned((e.0, w.slot)),
    ensures
        ({
            let r = bases_restored(w, e.0, bases_of(e.1.bars, 6), n, vm).slot;
            &&& r.wf()
            &&& r.command == w.slot.command
            &&& r.msi == w.slot.msi
            &&& same_wiring((e.0, r), e)
            &&& forall|j: int|
                0 <= j < 6 ==> (#[trigger] r.bars[j]).base == (if j < n {
                    e.1.bars[j].base
                } else {
                    None
                })
        }),
    decreases n,
{
    lemma_bases_restored_wf(w, e.0, bases_of(e.1.bars, 6), n, vm);
    if n > 0 {
        let m = (n - 1) as nat;
        lemma_bases_restored(w, e, m, vm);
        let before = bases_restored(w, e.0, bases_of(e.1.bars, 6), m, vm);
        let bar = before.slot.bars[m as int];
        assert(bar.size == e.1.bars[m as int].size && bar.is_io == e.1.bars[m as int].is_io);
        assert(e.1.bars[m as int].wf());
        let r = bases_restored(w, e.0, bases_of(e.1.bars, 6), n, vm).slot;
        if let Some(b) = e.1.bars[m as int].base {
            assert(b & 0xffff_fffcu32 == b ==> b != 0xffff_ffffu32) by (bit_vector);
            assert(b & 0xffff_fff0u32 == b ==> b != 0xffff_ffffu32) by (bit_vector);
            assert(r.bars =~= before.slot.bars.update(m as int, BarState { base: Some(b), ..bar }));
        }
        assert forall|j: int| 0 <= j < 6 implies (#[trigger] r.bars[j]).base == (if j < n {
            e.1.bars[j].base
        } else {
            None
        }) by {
            assert(before.slot.bars[j].base == (if j < m { e.1.bars[j].base } else { None }));
        }
        assert forall|j: int| 0 <= j < 6 implies (#[trigger] r.bars[j]).size == e.1.bars[j].size
            && r.bars[j].is_io == e.1.bars[j].is_io by {
            assert(before.slot.bars[j].size == e.1.bars[j].size);
        }
    }
}

proof fn lemma_restore_from(a: Seq<SlotEntry>, w: Wires, i: nat)
    requires
        i <= a.len(),
        slots_wf(a),
        slots_wf(w.pci.slots),
        w.pci.slots.len() == a.len(),
        forall|k: int| 0 <= k < a.len() ==> same_wiring(#[trigger] w.pci.slots[k], a[k]),
        forall|k: int| i <= k < a.len() ==> unassigned(#[trigger] w.pci.slots[k]),
        forall|k: int| 0 <= k < i ==> same_state(#[trigger] w.pci.slots[k], a[k]),
    ensures
        ({
            let (r, e) = records_restored(w, records_from(a, i), (a.len() - i) as nat);
            &&& e is Ok
            &&& r.pci.slots.len() == a.len()
            &&& forall|k: int|
                0 <= k < a.len() ==> (#[trigger] r.pci.slots[k]).0 == a[k].0 && same_state(r.pci.slots[k], a[k])
        }),
    decreases a.len() - i,
{
    if i < a.len() {
        let e = a[i as int];
        assert(a[i as int].1.wf());
        lemma_take_record_saved(e, records_from(a, i + 1));
        let rec = saved_slot(e);
        assert(same_wiring(w.pci.slots[i as int], e));
        lemma_slot_at_is(w.pci.slots, e.0, i as int);
        let s0 = slot_of(w, i as int);
        assert(w.pci.slots[i as int].1.wf());
        let s1 = SlotWrite { slot: SlotView { command: rec.command, msi: rec.msi, ..s0.slot }, ..s0 };
        assert(unassigned(w.pci.slots[i as int]));
        assert forall|j: int| 0 <= j < 6 implies (#[trigger] s1.slot.bars[j]).size == e.1.bars[j].size
            && s1.slot.bars[j].is_io == e.1.bars[j].is_io by {
            assert(w.pci.slots[i as int].1.bars[j].size == e.1.bars[j].size);
        }
        assert forall|j: int| 0 <= j < 6 implies (#[trigger] s1.slot.bars[j]).base is None by {
            assert(w.pci.slots[i as int].1.bars[j].base is None);
        }
        assert forall|j: int| 0 <= j < 6 implies (#[trigger] s1.slot.bars[j]).wf() by {
            assert(w.pci.slots[i as int].1.bars[j].wf());
        }
        lemma_bases_restored(s1, e, 6, w.pci.vm);
        let s2 = slot_restored(s0, rec, w.pci.vm);
        let w2 = with_slot(w, i as int, s2);
        lemma_with_slot_wf(w, i as int, s2);
        assert forall|k: int| 0 <= k < a.len() implies same_wiring(#[trigger] w2.pci.slots[k], a[k]) by {
            assert(same_wiring(w.pci.slots[k], a[k]));
        }
        assert forall|k: int| i + 1 <= k < a.len() implies unassigned(#[trigger] w2.pci.slots[k]) by {
            assert(unassigned(w.pci.slots[k]));
        }
        assert forall|k: int| 0 <= k < i + 1 implies same_state(#[trigger] w2.pci.slots[k], a[k]) by {
            if k < i {
                assert(same_state(w.pci.slots[k], a[k]));
            }
        }
        lemma_restore_from(a, w2, i + 1);
    } else {
        assert forall|k: int| 0 <= k < a.len() implies (#[trigger] w.pci.slots[k]).0 == a[k].0 by {
            assert(same_wiring(w.pci.slots[k], a[k]));
        }
    }
}

proof fn lemma_bases_bytes_same(a: SlotEntry, b: SlotEntry, n: nat)
    requires
        n <= 6,
        same_state(a, b),
    ensures
        bases_bytes(a.1.bars, n) == bases_bytes(b.1.bars, n),
    decreases n,
{
    if n > 0 {
        lemma_bases_bytes_same(a, b, (n - 1) as nat);
        assert(a.1.bars[n - 1].base == b.1.bars[n - 1].base);
    }
}

proof fn lemma_records_bytes_same(a: Seq<SlotEntry>, b: Seq<SlotEntry>, n: nat)
    requires
        n <= a.len(),
        a.len() == b.len(),
        forall|k: int| 0 <= k < a.len() ==> (#[trigger] b[k]).0 == a[k].0 && same_state(b[k], a[k]),
    ensures
        records_bytes(a, n) == records_bytes(b, n),
    decreases n,
{
    if n > 0 {
        lemma_records_bytes_same(a, b, (n - 1) as nat);
        assert(b[n - 1].0 == a[n - 1].0);
        lemma_bases_bytes_same(b[n - 1], a[n - 1], 6);
    }
}

proof fn lemma_slot_at_same(a: Seq<SlotEntry>, b: Seq<SlotEntry>, devfn: u8)
    requires
        a.len() == b.len(),
        forall|k: int| 0 <= k < a.len() ==> (#[trigger] b[k]).0 == a[k].0,
    ensures
        slot_at(b, devfn) == slot_at(a, devfn),
    decreases a.len(),
{
    if a.len() > 0 {
        assert(b[b.len() - 1].0 == a[a.len() - 1].0);
        assert forall|k: int| 0 <= k < a.len() - 1 implies (#[trigger] b.drop_last()[k]).0 == a.drop_last()[k].0 by {
            assert(b[k].0 == a[k].0);
        }
        lemma_slot_at_same(a.drop_last(), b.drop_last(), devfn);
    }
}

/// Restoring saved state into a bus that has the same devices registered and
/// no BAR assigned succeeds, and brings back every slot's BAR bases, command
/// register and MSI registers: the bus saves as the same bytes again, and
/// every device's messages go where they went.
pub proof fn law_save_then_restore(a: Seq<SlotEntry>, w: Wires)
    requires
        slots_wf(a),
        slots_wf(w.pci.slots),
        w.pci.slots.len() == a.len(),
        forall|k: int|
            0 <= k < a.len() ==> same_wiring(#[trigger] w.pci.slots[k], a[k]) && unassigned(
                w.pci.slots[k],
            ),
    ensures
        ({
            let (r, e) = restored(w, saved(a));
            &&& e is Ok
            &&& r.pci.slots.len() == a.len()
            &&& forall|k: int|
                0 <= k < a.len() ==> (#[trigger] r.pci.slots[k]).0 == a[k].0 && same_state(r.pci.slots[k], a[k])
            &&& saved(r.pci.slots) == saved(a)
            &&& forall|devfn: u8| #[trigger] msi_at(r.pci.slots, devfn) == msi_at(a, devfn)
        }),
{
    lemma_slots_bounded(a);
    lemma_records_from(a, 0);
    let data = saved(a);
    crate::bytes::lemma_u32_le(data, 0, a.len() as u32);
    assert(data.skip(4) =~= records_from(a, 0));
    lemma_restore_from(a, w, 0);
    let now = restored(w, data).0.pci.slots;
    lemma_records_bytes_same(a, now, a.len());
    assert forall|devfn: u8| #[trigger] msi_at(now, devfn) == msi_at(a, devfn) by {
        lemma_slot_at_same(a, now, devfn);
        lemma_slot_at(a, devfn);
        if let Some(i) = slot_at(a, devfn) {
            assert(same_state(now[i], a[i]));
        }
    }
}

proof fn lemma_take_bases_more(buf: Seq<u8>, more: Seq<u8>, n: nat)
    requires
        take_bases(buf, n) is Some,
    ensures
        take_bases(buf + more, n) == Some(((take_bases(buf, n)->0).0, (take_bases(buf, n)->0).1 + more)),
    decreases n,
{
    if n > 0 {
        let m = (n - 1) as nat;
        lemma_take_bases_more(buf, more, m);
        let rest = (take_bases(buf, m)->0).1;
        if rest[0] == 0 {
            assert((rest + more).skip(1) =~= rest.skip(1) + more);
        } else {
            assert((rest + more).skip(5) =~= rest.skip(5) + more);
            crate::bytes::lemma_u32_same(rest.skip(1), 0, (rest + more).skip(1), 0);
        }
    }
}

proof fn lemma_take_record_more(buf: Seq<u8>, more: Seq<u8>)
    requires
        take_record(buf) is Some,
    ensures
        take_record(buf + more) == Some(((take_record(buf)->0).0, (take_record(buf)->0).1 + more)),
{
    lemma_take_bases_more(buf.skip(1), more, 6);
    assert((buf + more).skip(1) =~= buf.skip(1) + more);
    let rest = (take_bases(buf.skip(1), 6)->0).1;
    assert((rest + more).skip(9) =~= rest.skip(9) + more);
    crate::bytes::lemma_u16_same(rest, 0, rest + more, 0);
    crate::bytes::lemma_u32_same(rest, 3, rest + more, 3);
    crate::bytes::lemma_u16_same(rest, 7, rest + more, 7);
}

proof fn lemma_restore_cut_short(a: Seq<SlotEntry>, w: Wires, i: nat, buf: Seq<u8>, missing: Seq<u8>)
    requires
        i <= a.len(),
        slots_wf(a),
        buf + missing == records_from(a, i),
        missing.len() > 0,
    ensures
        ({
            let e = records_restored(w, buf, (a.len() - i) as nat).1;
            &&& e is Err
            &&& (forall|k: int| i <= k < a.len() ==> slot_at(w.pci.slots, (#[trigger] a[k]).0) is Some) ==> e
                == Err::<(), Seq<char>>(truncated())
        }),
    decreases a.len() - i,
{
    assert((buf + missing).len() > 0);
    assert(a[i as int].1.wf());
    if let Some((rec, rest)) = take_record(buf) {
        lemma_take_record_more(buf, missing);
        lemma_take_record_saved(a[i as int], records_from(a, i + 1));
        lemma_slot_at(w.pci.slots, rec.devfn);
        if let Some(p) = slot_at(w.pci.slots, rec.devfn) {
            let w2 = with_slot(w, p, slot_restored(slot_of(w, p), rec, w.pci.vm));
            assert forall|k: int| i + 1 <= k < a.len() implies slot_at(w2.pci.slots, (#[trigger] a[k]).0) == slot_at(
                w.pci.slots,
                a[k].0,
            ) by {
                lemma_slot_at_same(w.pci.slots, w2.pci.slots, a[k].0);
            }
            lemma_restore_cut_short(a, w2, i + 1, rest, missing);
        } else {
            assert(slot_at(w.pci.slots, a[i as int].0) is None);
        }
    }
}

/// Saved state that is cut short anywhere is refused. If every device in it is
/// there, the message says that it is cut short.
pub proof fn law_cut_short_state_is_refused(a: Seq<SlotEntry>, w: Wires, n: int)
    requires
        slots_wf(a),
        0 <= n < saved(a).len(),
    ensures
        ({
            let e = restored(w, saved(a).take(n)).1;
            &&& e is Err
            &&& (forall|k: int| 0 <= k < a.len() ==> slot_at(w.pci.slots, (#[trigger] a[k]).0) is Some) ==> e
                == Err::<(), Seq<char>>(truncated())
        }),
{
    let data = saved(a);
    let cut = data.take(n);
    if n >= 4 {
        lemma_slots_bounded(a);
        lemma_records_from(a, 0);
        crate::bytes::lemma_u32_le(data, 0, a.len() as u32);
        crate::bytes::lemma_u32_same(data, 0, cut, 0);
        assert(cut.skip(4) + data.skip(n) =~= records_from(a, 0));
        lemma_restore_cut_short(a, w, 0, cut.skip(4), data.skip(n));
    }
}

proof fn lemma_restore_missing(a: Seq<SlotEntry>, w: Wires, i: nat, k: int)
    requires
        i <= k < a.len(),
        slots_wf(a),
        slot_at(w.pci.slots, a[k].0) is None,
    ensures
        ({
            let e = records_restored(w, records_from(a, i), (a.len() - i) as nat).1;
            &&& e is Err
            &&& (forall|m: int| i <= m < k ==> slot_at(w.pci.slots, (#[trigger] a[m]).0) is Some) ==> e
                == Err::<(), Seq<char>>(unknown_devfn(a[k].0))
        }),
    decreases a.len() - i,
{
    let e = a[i as int];
    assert(e.1.wf());
    lemma_take_record_saved(e, records_from(a, i + 1));
    lemma_slot_at(w.pci.slots, e.0);
    if let Some(p) = slot_at(w.pci.slots, e.0) {
        let w2 = with_slot(w, p, slot_restored(slot_of(w, p), saved_slot(e), w.pci.vm));
        assert forall|m: int| i < m < a.len() implies slot_at(w2.pci.slots, (#[trigger] a[m]).0) == slot_at(
            w.pci.slots,
            a[m].0,
        ) by {
            lemma_slot_at_same(w.pci.slots, w2.pci.slots, a[m].0);
        }
        lemma_restore_missing(a, w2, i + 1, k);
    }
}

/// Saved state of a device that the bus does not have is refused, and the
/// message names the first such device.
pub proof fn law_state_of_a_missing_device_is_refused(a: Seq<SlotEntry>, w: Wires, k: int)
    requires
        slots_wf(a),
        0 <= k < a.len(),
        slot_at(w.pci.slots, a[k].0) is None,
    ensures
        ({
            let e = restored(w, saved(a)).1;
            &&& e is Err
            &&& (forall|m: int| 0 <= m < k ==> slot_at(w.pci.slots, (#[trigger] a[m]).0) is Some) ==> e
                == Err::<(), Seq<char>>(unknown_devfn(a[k].0))
        }),
{
    let data = saved(a);
    lemma_slots_bounded(a);
    lemma_records_from(a, 0);
    crate::bytes::lemma_u32_le(data, 0, a.len() as u32);
    assert(data.skip(4) =~= records_from(a, 0));
    lemma_restore_missing(a, w, 0, k);
}

/// The bus of one space.
pub open spec fn bus_of(w: SlotWrite, is_io: bool) -> Seq<Region> {
    if is_io {
        w.io
    } else {
        w.mmio
    }
}

/// The bus of one space.
pub open spec fn bus_in(w: Wires, is_io: bool) -> Seq<Region> {
    if is_io {
        w.io
    } else {
        w.mmio
    }
}

/// Whether no device but `dev` has a region that shares an address with `r`.
pub open spec fn clear_of(s: Seq<Region>, dev: SharedDevice, r: Region) -> bool {
    forall|i: int| 0 <= i < s.len() && (#[trigger] s[i]).device != dev ==> !s[i].overlaps(r)
}

/// The region that a BAR asks for.
pub open spec fn bar_region(slot: SlotView, bar: BarState) -> Region {
    region_of(bar.base->0 as u64, bar.size as u64, slot.mmio_device, slot.identity.spec_irq())
}

/// Whether a BAR is assigned a base other than zero.
pub open spec fn assigned(bar: BarState) -> bool {
    bar.base is Some && bar.base->0 != 0
}

proof fn lemma_registered_clear(
    s: Seq<Region>,
    base: u64,
    size: u64,
    device: SharedDevice,
    irq: Option<u32>,
    dev: SharedDevice,
    r: Region,
)
    requires
        clear_of(s, dev, r),
        device == dev || !region_of(base, size, device, irq).overlaps(r),
    ensures
        clear_of(registered(s, base, size, device, irq), dev, r),
        clear_of(without(s, device), dev, r),
{
    lemma_without(s, device);
    let rest = without(s, device);
    assert forall|i: int| 0 <= i < rest.len() && (#[trigger] rest[i]).device != dev implies !rest[i].overlaps(r) by {
        let j = choose|j: int| 0 <= j < s.len() && s[j] == rest[i];
        assert(s[j].device != dev);
    }
    let t = registered(s, base, size, device, irq);
    assert forall|i: int| 0 <= i < t.len() && (#[trigger] t[i]).device != dev implies !t[i].overlaps(r) by {
        if i < rest.len() {
            assert(t[i] == rest[i]);
        }
    }
}

/// Bringing back one slot's bases leaves another device's mapping alone.
proof fn lemma_other_slot_restored(
    w: SlotWrite,
    e: SlotEntry,
    n: nat,
    vm: bool,
    is_io: bool,
    dev: SharedDevice,
    r: Region,
)
    requires
        w.slot.wf(),
        e.1.wf(),
        n <= 6,
        same_wiring((e.0, w.slot), e),
        unassigned((e.0, w.slot)),
        w.slot.mmio_device != dev,
        regions_wf(bus_of(w, is_io)),
        clear_of(bus_of(w, is_io), dev, r),
        forall|m: int|
            0 <= m < 6 && assigned(#[trigger] e.1.bars[m]) && e.1.bars[m].is_io == is_io ==> !bar_region(
                w.slot,
                e.1.bars[m],
            ).overlaps(r),
    ensures
        ({
            let z = bases_restored(w, e.0, bases_of(e.1.bars, 6), n, vm);
            &&& z.slot.mmio_device == w.slot.mmio_device
            &&& z.slot.identity == w.slot.identity
            &&& regions_wf(bus_of(z, is_io))
            &&& clear_of(bus_of(z, is_io), dev, r)
            &&& forall|addr: u64, offset: u64, irq: Option<u32>|
                answers(bus_of(w, is_io), addr, dev, offset, irq) ==> #[trigger] answers(
                    bus_of(z, is_io),
                    addr,
                    dev,
                    offset,
                    irq,
                )
        }),
    decreases n,
{
    if n > 0 {
        let m = (n - 1) as nat;
        lemma_other_slot_restored(w, e, m, vm, is_io, dev, r);
        lemma_bases_restored(w, e, m, vm);
        let y = bases_restored(w, e.0, bases_of(e.1.bars, 6), m, vm);
        let z = bases_restored(w, e.0, bases_of(e.1.bars, 6), n, vm);
        let bar = y.slot.bars[m as int];
        let was = e.1.bars[m as int];
        assert(bar.size == was.size && bar.is_io == was.is_io);
        assert(was.wf());
        if let Some(b) = was.base {
            assert(b & 0xffff_fffcu32 == b ==> b != 0xffff_ffffu32) by (bit_vector);
            assert(b & 0xffff_fff0u32 == b ==> b != 0xffff_ffffu32) by (bit_vector);
            assert(b & bar.spec_align_mask() == b);
            if bar.is_io == is_io {
                let s = bus_of(y, is_io);
                let d = y.slot.mmio_device;
                let irq = y.slot.identity.spec_irq();
                lemma_without(s, d);
                lemma_registered(s, b as u64, bar.size as u64, d, irq);
                if b != 0 {
                    assert(assigned(e.1.bars[m as int]));
                    assert(bar_region(w.slot, was) == region_of(b as u64, bar.size as u64, d, irq));
                    lemma_registered_clear(s, b as u64, bar.size as u64, d, irq, dev, r);
                } else {
                    lemma_without_clear(s, d, dev, r);
                }
                assert forall|addr: u64, offset: u64, i: Option<u32>|
                    answers(bus_of(w, is_io), addr, dev, offset, i) implies #[trigger] answers(
                    bus_of(z, is_io),
                    addr,
                    dev,
                    offset,
                    i,
                ) by {
                    assert(answers(s, addr, dev, offset, i));
                    law_others_keep_answering(s, b as u64, bar.size as u64, d, irq, addr, dev, offset, i);
                }
            }
        }
    }
}

proof fn lemma_without_clear(s: Seq<Region>, device: SharedDevice, dev: SharedDevice, r: Region)
    requires
        clear_of(s, dev, r),
    ensures
        clear_of(without(s, device), dev, r),
{
    lemma_without(s, device);
    let rest = without(s, device);
    assert forall|i: int| 0 <= i < rest.len() && (#[trigger] rest[i]).device != dev implies !rest[i].overlaps(r) by {
        let j = choose|j: int| 0 <= j < s.len() && s[j] == rest[i];
        assert(s[j].device != dev);
    }
}

/// Bringing back a slot's bases maps the device at the base of its BAR `i`,
/// the only one of its space.
proof fn lemma_own_slot_restored(w: SlotWrite, e: SlotEntry, n: nat, vm: bool, i: int)
    requires
        w.slot.wf(),
        e.1.wf(),
        n <= 6,
        0 <= i < 6,
        same_wiring((e.0, w.slot), e),
        unassigned((e.0, w.slot)),
        assigned(e.1.bars[i]),
        forall|m: int|
            0 <= m < 6 && m != i && (#[trigger] e.1.bars[m]).is_io == e.1.bars[i].is_io ==> e.1.bars[m].base is None,
        regions_wf(bus_of(w, e.1.bars[i].is_io)),
        clear_of(bus_of(w, e.1.bars[i].is_io), w.slot.mmio_device, bar_region(w.slot, e.1.bars[i])),
    ensures
        ({
            let is_io = e.1.bars[i].is_io;
            let r = bar_region(w.slot, e.1.bars[i]);
            let z = bases_restored(w, e.0, bases_of(e.1.bars, 6), n, vm);
            &&& z.slot.mmio_device == w.slot.mmio_device
            &&& z.slot.identity == w.slot.identity
            &&& regions_wf(bus_of(z, is_io))
            &&& clear_of(bus_of(z, is_io), w.slot.mmio_device, r)
            &&& n > i ==> forall|addr: u64|
                r.base <= addr < r.base + e.1.bars[i].size ==> #[trigger] answers(
                    bus_of(z, is_io),
                    addr,
                    r.device,
                    (addr - r.base) as u64,
                    r.irq,
                )
        }),
    decreases n,
{
    if n > 0 {
        let m = (n - 1) as nat;
        lemma_own_slot_restored(w, e, m, vm, i);
        lemma_bases_restored(w, e, m, vm);
        let is_io = e.1.bars[i].is_io;
        let r = bar_region(w.slot, e.1.bars[i]);
        let y = bases_restored(w, e.0, bases_of(e.1.bars, 6), m, vm);
        let z = bases_restored(w, e.0, bases_of(e.1.bars, 6), n, vm);
        let bar = y.slot.bars[m as int];
        let was = e.1.bars[m as int];
        assert(bar.size == was.size && bar.is_io == was.is_io);
        assert(was.wf());
        if let Some(b) = was.base {
            assert(b & 0xffff_fffcu32 == b ==> b != 0xffff_ffffu32) by (bit_vector);
            assert(b & 0xffff_fff0u32 == b ==> b != 0xffff_ffffu32) by (bit_vector);
            assert(b & bar.spec_align_mask() == b);
            if bar.is_io == is_io {
                assert(m == i);
                let s = bus_of(y, is_io);
                let d = y.slot.mmio_device;
                let irq = y.slot.identity.spec_irq();
                lemma_without(s, d);
                lemma_without_clear(s, d, d, r);
                lemma_registered(s, b as u64, bar.size as u64, d, irq);
                lemma_registered_clear(s, b as u64, bar.size as u64, d, irq, d, r);
                assert(r == region_of(b as u64, bar.size as u64, d, irq));
                assert(!clashes(without(s, d), r)) by {
                    if clashes(without(s, d), r) {
                        let j = choose|j: int| 0 <= j < without(s, d).len() && (#[trigger] without(s, d)[j]).overlaps(r);
                        assert(without(s, d)[j].device != d);
                    }
                }
                assert forall|addr: u64| r.base <= addr < r.base + e.1.bars[i].size implies #[trigger] answers(
                    bus_of(z, is_io),
                    addr,
                    r.device,
                    (addr - r.base) as u64,
                    r.irq,
                ) by {
                    law_registered_answers(s, b as u64, bar.size as u64, d, irq, addr);
                }
            }
        }
    }
}

/// What every step of restoring keeps, once the slots before `i` are back.
spec fn mapped_again(a: Seq<SlotEntry>, w: Wires, i: nat, k: int, j: int) -> bool {
    let bus = bus_in(w, a[k].1.bars[j].is_io);
    let dev = w.pci.slots[k].1.mmio_device;
    let r = bar_region(w.pci.slots[k].1, a[k].1.bars[j]);
    &&& regions_wf(bus)
    &&& clear_of(bus, dev, r)
    &&& k < i ==> forall|addr: u64|
        r.base <= addr < r.base + a[k].1.bars[j].size ==> #[trigger] answers(
            bus,
            addr,
            dev,
            (addr - r.base) as u64,
            r.irq,
        )
}

/// Whether BAR `j` of slot `k` is assigned, is the slot's only BAR in its
/// space that has a base, and asks for a region that no BAR of another slot
/// asks for. `now` are the slots with the devices that stand there now.
pub open spec fn lone_bar(a: Seq<SlotEntry>, now: Seq<SlotEntry>, k: int, j: int) -> bool {
    let bar = a[k].1.bars[j];
    let r = bar_region(now[k].1, bar);
    &&& assigned(bar)
    &&& forall|m: int|
        0 <= m < 6 && m != j && (#[trigger] a[k].1.bars[m]).is_io == bar.is_io ==> a[k].1.bars[m].base is None
    &&& forall|o: int, m: int|
        0 <= o < a.len() && o != k && 0 <= m < 6 && assigned(#[trigger] a[o].1.bars[m])
            && a[o].1.bars[m].is_io == bar.is_io ==> !bar_region(now[o].1, a[o].1.bars[m]).overlaps(r)
}

/// Whether no two slots hold the same device.
pub open spec fn devices_apart(slots: Seq<SlotEntry>) -> bool {
    forall|o: int, p: int|
        0 <= o < p < slots.len() ==> (#[trigger] slots[o]).1.mmio_device != (#[trigger] slots[p]).1.mmio_device
}

proof fn lemma_mapped_from(a: Seq<SlotEntry>, w: Wires, i: nat, k: int, j: int)
    requires
        i <= a.len(),
        slots_wf(a),
        slots_wf(w.pci.slots),
        w.pci.slots.len() == a.len(),
        devices_apart(w.pci.slots),
        forall|o: int| 0 <= o < a.len() ==> same_wiring(#[trigger] w.pci.slots[o], a[o]),
        forall|o: int| i <= o < a.len() ==> unassigned(#[trigger] w.pci.slots[o]),
        0 <= k < a.len(),
        0 <= j < 6,
        lone_bar(a, w.pci.slots, k, j),
        mapped_again(a, w, i, k, j),
    ensures
        ({
            let z = records_restored(w, records_from(a, i), (a.len() - i) as nat).0;
            &&& z.pci.slots.len() == a.len()
            &&& z.pci.slots[k].1.mmio_device == w.pci.slots[k].1.mmio_device
            &&& z.pci.slots[k].1.identity == w.pci.slots[k].1.identity
            &&& mapped_again(a, z, a.len(), k, j)
        }),
    decreases a.len() - i,
{
    if i < a.len() {
        let e = a[i as int];
        assert(a[i as int].1.wf());
        assert(a[k].1.wf());
        lemma_take_record_saved(e, records_from(a, i + 1));
        let rec = saved_slot(e);
        assert(same_wiring(w.pci.slots[i as int], e));
        lemma_slot_at_is(w.pci.slots, e.0, i as int);
        let s0 = slot_of(w, i as int);
        assert(w.pci.slots[i as int].1.wf());
        let s1 = SlotWrite { slot: SlotView { command: rec.command, msi: rec.msi, ..s0.slot }, ..s0 };
        assert(unassigned(w.pci.slots[i as int]));
        assert forall|m: int| 0 <= m < 6 implies (#[trigger] s1.slot.bars[m]).size == e.1.bars[m].size
            && s1.slot.bars[m].is_io == e.1.bars[m].is_io by {
            assert(w.pci.slots[i as int].1.bars[m].size == e.1.bars[m].size);
        }
        assert forall|m: int| 0 <= m < 6 implies (#[trigger] s1.slot.bars[m]).base is None by {
            assert(w.pci.slots[i as int].1.bars[m].base is None);
        }
        assert forall|m: int| 0 <= m < 6 implies (#[trigger] s1.slot.bars[m]).wf() by {
            assert(w.pci.slots[i as int].1.bars[m].wf());
        }
        lemma_bases_restored(s1, e, 6, w.pci.vm);
        let s2 = slot_restored(s0, rec, w.pci.vm);
        let w2 = with_slot(w, i as int, s2);
        lemma_with_slot_wf(w, i as int, s2);
        let is_io = a[k].1.bars[j].is_io;
        let dev = w.pci.slots[k].1.mmio_device;
        let r = bar_region(w.pci.slots[k].1, a[k].1.bars[j]);
        if i == k {
            lemma_own_slot_restored(s1, e, 6, w.pci.vm, j);
        } else {
            if i < k {
                assert(w.pci.slots[i as int].1.mmio_device != w.pci.slots[k].1.mmio_device);
            } else {
                assert(w.pci.slots[k].1.mmio_device != w.pci.slots[i as int].1.mmio_device);
            }
            assert forall|m: int|
                0 <= m < 6 && assigned(#[trigger] e.1.bars[m]) && e.1.bars[m].is_io == is_io implies !bar_region(
                s1.slot,
                e.1.bars[m],
            ).overlaps(r) by {
                assert(assigned(a[i as int].1.bars[m]));
                assert(bar_region(s1.slot, e.1.bars[m]) == bar_region(w.pci.slots[i as int].1, a[i as int].1.bars[m]));
            }
            lemma_other_slot_restored(s1, e, 6, w.pci.vm, is_io, dev, r);
        }
        assert(s2.slot.mmio_device == w.pci.slots[i as int].1.mmio_device);
        assert(s2.slot.identity == w.pci.slots[i as int].1.identity);
        assert forall|o: int, p: int| 0 <= o < p < a.len() implies (#[trigger] w2.pci.slots[o]).1.mmio_device != (
        #[trigger] w2.pci.slots[p]).1.mmio_device by {
            assert(w.pci.slots[o].1.mmio_device != w.pci.slots[p].1.mmio_device);
        }
        assert forall|o: int| 0 <= o < a.len() implies same_wiring(#[trigger] w2.pci.slots[o], a[o]) by {
            assert(same_wiring(w.pci.slots[o], a[o]));
        }
        assert forall|o: int| i + 1 <= o < a.len() implies unassigned(#[trigger] w2.pci.slots[o]) by {
            assert(unassigned(w.pci.slots[o]));
        }
        assert(bar_region(w2.pci.slots[k].1, a[k].1.bars[j]) == r);
        assert forall|o: int, m: int|
            0 <= o < a.len() && o != k && 0 <= m < 6 && assigned(#[trigger] a[o].1.bars[m])
                && a[o].1.bars[m].is_io == is_io implies !bar_region(w2.pci.slots[o].1, a[o].1.bars[m]).overlaps(r) by {
            assert(!bar_region(w.pci.slots[o].1, a[o].1.bars[m]).overlaps(r));
        }
        assert(bus_in(w2, is_io) == bus_of(s2, is_io));
        assert(bus_in(w, is_io) == bus_of(s1, is_io));
        if k < i + 1 {
            assert forall|addr: u64| r.base <= addr < r.base + a[k].1.bars[j].size implies #[trigger] answers(
                bus_in(w2, is_io),
                addr,
                dev,
                (addr - r.base) as u64,
                r.irq,
            ) by {
                if k < i {
                    assert(answers(bus_in(w, is_io), addr, dev, (addr - r.base) as u64, r.irq));
                    assert(answers(bus_of(s1, is_io), addr, dev, (addr - r.base) as u64, r.irq));
                }
                let z = bases_restored(s1, e.0, bases_of(e.1.bars, 6), 6, w.pci.vm);
                assert(s2 == z);
                if k == i {
                    let q = bar_region(s1.slot, e.1.bars[j]);
                    assert(q == r);
                    assert(answers(bus_of(z, is_io), addr, q.device, (addr - q.base) as u64, q.irq));
                } else {
                    assert(answers(bus_of(z, is_io), addr, dev, (addr - r.base) as u64, r.irq));
                }
            }
        }
        assert(mapped_again(a, w2, i + 1, k, j));
        lemma_mapped_from(a, w2, i + 1, k, j);
    }
}

/// Restoring saved state puts devices back where they answered: a device whose
/// BAR is its only one in that space, at an address that no other device
/// claims, answers there again, over the whole of the BAR.
pub proof fn law_restore_maps_again(a: Seq<SlotEntry>, w: Wires, k: int, j: int, addr: u64)
    requires
        slots_wf(a),
        slots_wf(w.pci.slots),
        w.pci.slots.len() == a.len(),
        devices_apart(w.pci.slots),
        forall|o: int| 0 <= o < a.len() ==> same_wiring(#[trigger] w.pci.slots[o], a[o]) && unassigned(w.pci.slots[o]),
        w.mmio.len() == 0,
        w.io.len() == 0,
        0 <= k < a.len(),
        0 <= j < 6,
        lone_bar(a, w.pci.slots, k, j),
        a[k].1.bars[j].base->0 <= addr < a[k].1.bars[j].base->0 + a[k].1.bars[j].size,
    ensures
        ({
            let z = restored(w, saved(a)).0;
            answers(
                bus_in(z, a[k].1.bars[j].is_io),
                addr,
                w.pci.slots[k].1.mmio_device,
                (addr - a[k].1.bars[j].base->0) as u64,
                w.pci.slots[k].1.identity.spec_irq(),
            )
        }),
{
    lemma_slots_bounded(a);
    lemma_records_from(a, 0);
    let data = saved(a);
    crate::bytes::lemma_u32_le(data, 0, a.len() as u32);
    assert(data.skip(4) =~= records_from(a, 0));
    lemma_mapped_from(a, w, 0, k, j);
    let r = bar_region(w.pci.slots[k].1, a[k].1.bars[j]);
    assert(r.base <= addr < r.base + a[k].1.bars[j].size);
}

/// A BAR that the guest clears is no longer answered: its device answers
/// nowhere in that space.
pub proof fn law_cleared_bar_answers_nowhere(
    w: SlotWrite,
    devfn: u8,
    index: int,
    vm: bool,
    addr: u64,
    offset: u64,
    irq: Option<u32>,
)
    requires
        w.slot.bars[index].size != 0,
    ensures
        !answers(
            bus_of(bar_written(w, devfn, index, 0, vm), w.slot.bars[index].is_io),
            addr,
            w.slot.mmio_device,
            offset,
            irq,
        ),
{
    let m = w.slot.bars[index].spec_align_mask();
    assert(0u32 & m == 0) by (bit_vector);
    law_unregistered_answers_nowhere(bus_of(w, w.slot.bars[index].is_io), w.slot.mmio_device, addr, offset, irq);
}

/// The BAR sizing sequence: what a BAR reads as after all ones were written,
/// with the flag bits cleared, inverted and increased by one, is its size,
/// for every size that a BAR can have.
pub proof fn law_bar_sizing(bar: BarState)
    requires
        bar.sizing,
        bar.size & ((bar.size - 1) as u32) == 0,
        bar.size >= (if bar.is_io { 4u32 } else { 16u32 }),
    ensures
        !(bar.value() & bar.spec_align_mask()) + 1 == bar.size,
{
    let z = bar.size;
    let m = (z - 1) as u32;
    assert(z & m == 0 && m == (z - 1) as u32 && z >= 16u32 ==> !(((!m & 0xffff_fff0u32) | 0u32)
        & 0xffff_fff0u32) == m) by (bit_vector);
    assert(z & m == 0 && m == (z - 1) as u32 && z >= 4u32 ==> !(((!m & 0xffff_fffcu32) | 1u32)
        & 0xffff_fffcu32) == m) by (bit_vector);
}

/// Reading the whole register once ends sizing and changes nothing else; the
/// base that was there before is then read again.
pub proof fn law_sizing_keeps_the_base(bar: BarState)
    requires
        bar.size != 0,
        !bar.sizing,
    ensures
        (BarState { sizing: true, ..bar }).after_read(true) == bar,
        (BarState { sizing: true, ..bar }).after_read(false) == (BarState { sizing: true, ..bar }),
{
}

/// What a guest gets for byte `at` of the configuration space of `devfn`: it
/// writes the address to one port, and reads one byte from the port behind
/// which that byte stands.
#[verifier::opaque]
pub open spec fn guest_reads(w: Wires, devfn: u8, at: u8) -> u8 {
    config_bytes(port_written(w, 0xcf8, seq![at, devfn, 0u8, 0x80u8]).pci, (at % 4) as int, 1)[0]
}

/// What a guest's write of `data` to byte `at` of the configuration space of
/// `devfn` leaves: it writes the address to one port, and the data to the port
/// behind which that byte stands.
pub open spec fn guest_writes(w: Wires, devfn: u8, at: u8, data: Seq<u8>) -> Wires {
    port_written(port_written(w, 0xcf8, seq![at, devfn, 0u8, 0x80u8]), (0xcfc + at % 4) as u16, data)
}

proof fn lemma_selects(w: Wires, devfn: u8, at: u8)
    ensures
        ({
            let v = port_written(w, 0xcf8, seq![at, devfn, 0u8, 0x80u8]);
            &&& v == (Wires { pci: PciView { address: v.pci.address, ..w.pci }, ..w })
            &&& decode(v.pci.address) == Some((devfn, (at - at % 4) as u16))
        }),
{
    let bytes = seq![at, devfn, 0u8, 0x80u8];
    crate::bytes::law_little_endian_reads(bytes, 0);
    let a = u32_at(bytes, 0);
    assert(a == at + 0x100 * devfn + 0x8000_0000);
    assert(a == (at as u32) + 0x100u32 * (devfn as u32) + 0x8000_0000u32 ==> (a & 0x8000_0000u32 != 0 && (a >> 16u32)
        & 0xffu32 == 0 && ((a >> 8u32) & 0xffu32) == devfn as u32 && (a & 0xfcu32) + (at as u32) % 4u32 == at as u32))
        by (bit_vector);
}

proof fn lemma_guest_reads(w: Wires, i: int, at: u8)
    requires
        slots_wf(w.pci.slots),
        0 <= i < w.pci.slots.len(),
    ensures
        guest_reads(w, w.pci.slots[i].0, at) == le32(config_dword(w.pci.slots[i].1, (at - at % 4) as u16))[(at
            % 4) as int],
{
    reveal(guest_reads);
    lemma_selects(w, w.pci.slots[i].0, at);
    lemma_slot_at_is(w.pci.slots, w.pci.slots[i].0, i);
}

#[verifier::spinoff_prover]
proof fn lemma_le32_of(x: u32, b0: u8, b1: u8, b2: u8, b3: u8)
    requires
        x == b0 + 0x100 * b1 + 0x1_0000 * b2 + 0x100_0000 * b3,
    ensures
        le32(x) == seq![b0, b1, b2, b3],
{
    let y = b1 + 0x100 * b2 + 0x1_0000 * b3;
    let z = b2 + 0x100 * b3;
    assert(x == b0 + 0x100 * y && x % 256 == b0 && x / 256 == y);
    assert(y == b1 + 0x100 * z && y % 256 == b1 && y / 256 == z);
    assert(z % 256 == b2 && z / 256 == b3);
    assert(x / 65536 == z && x / 16777216 == b3);
    assert(le32(x) =~= seq![b0, b1, b2, b3]);
}

proof fn lemma_guest_reads_register(w: Wires, i: int, at: u8, b0: u8, b1: u8, b2: u8, b3: u8)
    requires
        slots_wf(w.pci.slots),
        0 <= i < w.pci.slots.len(),
        at % 4 == 0,
        config_dword(w.pci.slots[i].1, at as u16) == b0 + 0x100 * b1 + 0x1_0000 * b2 + 0x100_0000 * b3,
    ensures
        guest_reads(w, w.pci.slots[i].0, at) == b0,
        guest_reads(w, w.pci.slots[i].0, (at + 1) as u8) == b1,
        guest_reads(w, w.pci.slots[i].0, (at + 2) as u8) == b2,
        guest_reads(w, w.pci.slots[i].0, (at + 3) as u8) == b3,
{
    lemma_le32_of(config_dword(w.pci.slots[i].1, at as u16), b0, b1, b2, b3);
    lemma_guest_reads(w, i, at);
    lemma_guest_reads(w, i, (at + 1) as u8);
    lemma_guest_reads(w, i, (at + 2) as u8);
    lemma_guest_reads(w, i, (at + 3) as u8);
}

proof fn lemma_two_digits(x: u16)
    ensures
        ((x % 256) as u8) + 0x100 * ((x / 256) as u8) == x,
{
}

proof fn lemma_two_digits_are(a: u8, b: u8, c: u8, d: u8)
    requires
        a + 0x100 * b == c + 0x100 * d,
    ensures
        a == c,
        b == d,
{
}

proof fn lemma_four_digits(x: u32)
    ensures
        ((x % 256) as u8) + 0x100 * ((x / 256 % 256) as u8) + 0x1_0000 * ((x / 65536 % 256) as u8) + 0x100_0000 * ((x
            / 16777216) as u8) == x,
{
}

proof fn lemma_halves(hi: u16, lo: u16, a: u8, b: u8, class: u32)
    ensures
        ((hi as u32) << 16u32) | (lo as u32) == 0x1_0000 * hi + lo,
        (a as u32) | ((b as u32) << 8u32) == a + 0x100 * b,
        (class << 8u32) | (a as u32) == 0x100 * (class % 0x100_0000) + a,
{
    assert(((hi as u32) << 16u32) | (lo as u32) == 0x1_0000u32 * (hi as u32) + (lo as u32) && (a as u32) | ((b as u32)
        << 8u32) == (a as u32) + 0x100u32 * (b as u32) && (class << 8u32) | (a as u32) == 0x100u32 * (class
        % 0x100_0000u32) + (a as u32)) by (bit_vector);
}

/// A guest that reads the header of a device's configuration space finds what
/// the device reported, each where the PCI standard puts it: the identity, the
/// class and the revision, a header of type 0, and the interrupt line in front
/// of the interrupt pin. The command register is there as it was written, and
/// the status has its capability bit if there are capabilities.
#[verifier::spinoff_prover]
pub proof fn law_guest_reads_the_header(w: Wires, i: int)
    requires
        slots_wf(w.pci.slots),
        0 <= i < w.pci.slots.len(),
    ensures
        ({
            let (devfn, s) = w.pci.slots[i];
            let id = s.identity;
            let caps = id.msi_capable || id.extra_caps@.len() > 0;
            &&& guest_reads(w, devfn, 0x00) + 0x100 * guest_reads(w, devfn, 0x01) == id.vendor_id
            &&& guest_reads(w, devfn, 0x02) + 0x100 * guest_reads(w, devfn, 0x03) == id.device_id
            &&& guest_reads(w, devfn, 0x04) + 0x100 * guest_reads(w, devfn, 0x05) == s.command
            &&& guest_reads(w, devfn, 0x06) == (if caps { 0x10u8 } else { 0u8 })
            &&& guest_reads(w, devfn, 0x07) == 0
            &&& guest_reads(w, devfn, 0x08) == id.revision_id
            &&& guest_reads(w, devfn, 0x09) + 0x100 * guest_reads(w, devfn, 0x0a) + 0x1_0000 * guest_reads(
                w,
                devfn,
                0x0b,
            ) == id.class_code % 0x100_0000
            &&& guest_reads(w, devfn, 0x0e) == 0
            &&& guest_reads(w, devfn, 0x3c) == id.interrupt_line
            &&& guest_reads(w, devfn, 0x3d) == id.interrupt_pin
            &&& guest_reads(w, devfn, 0x3e) == 0
            &&& guest_reads(w, devfn, 0x3f) == 0
        }),
{
    let (devfn, s) = w.pci.slots[i];
    let id = s.identity;
    let caps = id.msi_capable || id.extra_caps@.len() > 0;
    let status = if caps { 0x10u8 } else { 0u8 };
    lemma_halves(id.device_id, id.vendor_id, id.revision_id, 0, id.class_code);
    lemma_halves(status as u16, s.command, id.interrupt_line, id.interrupt_pin, 0);
    lemma_two_digits(id.vendor_id);
    lemma_two_digits(id.device_id);
    lemma_two_digits(s.command);
    let class = id.class_code % 0x100_0000;
    lemma_four_digits(class);
    lemma_guest_reads_register(
        w,
        i,
        0x00,
        (id.vendor_id % 256) as u8,
        (id.vendor_id / 256) as u8,
        (id.device_id % 256) as u8,
        (id.device_id / 256) as u8,
    );
    lemma_guest_reads_register(w, i, 0x04, (s.command % 256) as u8, (s.command / 256) as u8, status, 0);
    lemma_guest_reads_register(
        w,
        i,
        0x08,
        id.revision_id,
        (class % 256) as u8,
        (class / 256 % 256) as u8,
        (class / 65536 % 256) as u8,
    );
    lemma_guest_reads_register(w, i, 0x0c, 0, 0, 0, 0);
    lemma_guest_reads_register(w, i, 0x3c, id.interrupt_line, id.interrupt_pin, 0, 0);
}

/// The capability list that a guest walks: the pointer in the header leads to
/// the MSI capability, if the device has it, and from there, or at once, to
/// the device's own bytes, which are there in full and followed by zeroes.
#[verifier::spinoff_prover]
pub proof fn law_guest_walks_the_capabilities(w: Wires, i: int, k: int)
    requires
        slots_wf(w.pci.slots),
        0 <= i < w.pci.slots.len(),
        0 <= k < 0xb0,
    ensures
        ({
            let (devfn, s) = w.pci.slots[i];
            let id = s.identity;
            let own = id.extra_caps@;
            &&& guest_reads(w, devfn, 0x34) == (if id.msi_capable {
                0x40u8
            } else if own.len() > 0 {
                0x50u8
            } else {
                0u8
            })
            &&& id.msi_capable ==> {
                &&& guest_reads(w, devfn, 0x40) == 0x05
                &&& guest_reads(w, devfn, 0x41) == (if own.len() > 0 { 0x50u8 } else { 0u8 })
                &&& guest_reads(w, devfn, 0x42) == (if s.msi.enabled { 1u8 } else { 0u8 })
                &&& guest_reads(w, devfn, 0x43) == 0
                &&& guest_reads(w, devfn, 0x44) + 0x100 * guest_reads(w, devfn, 0x45) + 0x1_0000 * guest_reads(
                    w,
                    devfn,
                    0x46,
                ) + 0x100_0000 * guest_reads(w, devfn, 0x47) == s.msi.address
                &&& guest_reads(w, devfn, 0x48) + 0x100 * guest_reads(w, devfn, 0x49) == s.msi.data
            }
            &&& guest_reads(w, devfn, (0x50 + k) as u8) == (if k < own.len() { own[k] } else { 0u8 })
        }),
{
    let (devfn, s) = w.pci.slots[i];
    let own = s.identity.extra_caps@;
    let next = if own.len() > 0 { 0x50u8 } else { 0u8 };
    let ctrl = if s.msi.enabled { 1u8 } else { 0u8 };
    assert(0x05u32 | (0u32 << 8u32) | (0u32 << 16u32) == 0x5 && 0x05u32 | (0u32 << 8u32) | (1u32 << 16u32) == 0x1_0005
        && 0x05u32 | (0x50u32 << 8u32) | (0u32 << 16u32) == 0x5005 && 0x05u32 | (0x50u32 << 8u32) | (1u32 << 16u32)
        == 0x1_5005) by (bit_vector);
    if s.identity.msi_capable {
        let (address, data) = (s.msi.address, s.msi.data);
        lemma_guest_reads_register(w, i, 0x34, 0x40, 0, 0, 0);
        lemma_guest_reads_register(w, i, 0x40, 0x05, next, ctrl, 0);
        lemma_four_digits(address);
        lemma_guest_reads_register(
            w,
            i,
            0x44,
            (address % 256) as u8,
            (address / 256 % 256) as u8,
            (address / 65536 % 256) as u8,
            (address / 16777216) as u8,
        );
        lemma_two_digits(data);
        lemma_guest_reads_register(w, i, 0x48, (data % 256) as u8, (data / 256) as u8, 0, 0);
    } else if own.len() > 0 {
        lemma_guest_reads_register(w, i, 0x34, 0x50, 0, 0, 0);
    } else {
        assert(config_dword(s, 0x34) == 0);
        lemma_guest_reads_register(w, i, 0x34, 0, 0, 0, 0);
    }
    let at = (0x50 + k) as u8;
    let reg = (at - at % 4) as u16;
    let from = reg - 0x50;
    let four = Seq::new(4, |m: int| if from + m < own.len() { own[from + m] } else { 0u8 });
    crate::bytes::law_little_endian_reads(four, 0);
    assert(config_dword(s, reg) == extra_cap(own, reg));
    lemma_guest_reads_register(w, i, reg as u8, four[0], four[1], four[2], four[3]);
    assert(four[k - from] == (if k < own.len() { own[k] } else { 0u8 }));
    assert(at == reg || at == reg + 1 || at == reg + 2 || at == reg + 3);
}

/// A read of several bytes gives each byte that a read of that byte alone
/// gives, and all ones past the end of the register.
pub proof fn law_wide_reads(w: Wires, devfn: u8, at: u8, len: nat, k: int)
    requires
        0 <= k < len,
    ensures
        ({
            let v = port_written(w, 0xcf8, seq![at, devfn, 0u8, 0x80u8]).pci;
            &&& config_bytes(v, (at % 4) as int, len).len() == len
            &&& config_bytes(v, (at % 4) as int, len)[k] == (if at % 4 + k < 4 {
                guest_reads(w, devfn, (at + k) as u8)
            } else {
                0xffu8
            })
        }),
{
    reveal(guest_reads);
    lemma_selects(w, devfn, at);
    if at % 4 + k < 4 {
        lemma_selects(w, devfn, (at + k) as u8);
    }
}

/// Where no device is registered, a guest reads all ones; so it does with an
/// address that is not enabled, or on a bus other than the first. Nothing
/// that it writes there changes anything but the address.
pub proof fn law_absent_devices_read_as_ones(w: Wires, a: Seq<u8>, off: int, len: nat, k: int, data: Seq<u8>)
    requires
        a.len() == 4,
        a[3] < 0x80 || a[2] != 0 || forall|i: int| 0 <= i < w.pci.slots.len() ==> (#[trigger] w.pci.slots[i]).0 != a[1],
        0 <= off < 4,
        0 <= k < len,
    ensures
        ({
            let v = port_written(w, 0xcf8, a);
            &&& v.pci.slots == w.pci.slots
            &&& v.mmio == w.mmio
            &&& v.io == w.io
            &&& config_bytes(v.pci, off, len)[k] == 0xff
            &&& config_after_read(v.pci, off, len) == v.pci
            &&& port_written(v, (0xcfc + off) as u16, data) == v
        }),
{
    let x = u32_at(a, 0);
    let (a0, a1, a2, a3) = (a[0], a[1], a[2], a[3]);
    crate::bytes::law_little_endian_reads(a, 0);
    assert(x == (a0 as u32) + 0x100u32 * (a1 as u32) + 0x1_0000u32 * (a2 as u32) + 0x100_0000u32 * (a3 as u32) ==> ((x
        & 0x8000_0000u32 == 0) == (a3 < 0x80u8) && (x >> 16u32) & 0xffu32 == a2 as u32 && (x >> 8u32) & 0xffu32
        == a1 as u32)) by (bit_vector);
    lemma_slot_at(w.pci.slots, a[1]);
}

proof fn lemma_guest_writes(w: Wires, i: int, at: u8, data: Seq<u8>)
    requires
        slots_wf(w.pci.slots),
        0 <= i < w.pci.slots.len(),
    ensures
        ({
            let z = guest_writes(w, w.pci.slots[i].0, at, data);
            let s = register_written(
                slot_of(w, i),
                w.pci.slots[i].0,
                (at - at % 4) as u16,
                (at % 4) as int,
                data,
                w.pci.vm,
            );
            z == with_slot((Wires { pci: PciView { address: z.pci.address, ..w.pci }, ..w }), i, s)
        }),
{
    lemma_selects(w, w.pci.slots[i].0, at);
    lemma_slot_at_is(w.pci.slots, w.pci.slots[i].0, i);
}

/// A guest that programs MSI, the address, the data and the enable bit, has the
/// device's messages go where it said. Nothing else of the device changes, and
/// nothing of any other device.
#[verifier::spinoff_prover]
pub proof fn law_guest_programs_msi(w: Wires, i: int, address: Seq<u8>, data: Seq<u8>, enable: bool)
    requires
        slots_wf(w.pci.slots),
        0 <= i < w.pci.slots.len(),
        w.pci.slots[i].1.identity.msi_capable,
        address.len() == 4,
        data.len() == 2,
    ensures
        ({
            let devfn = w.pci.slots[i].0;
            let w1 = guest_writes(w, devfn, 0x44, address);
            let w2 = guest_writes(w1, devfn, 0x48, data);
            let z = guest_writes(w2, devfn, 0x42, seq![if enable { 1u8 } else { 0u8 }, 0u8]);
            &&& msi_at(z.pci.slots, devfn) == (if enable {
                Some(
                    (
                        (address[0] + 0x100 * address[1] + 0x1_0000 * address[2] + 0x100_0000 * address[3]) as u32,
                        (data[0] + 0x100 * data[1]) as u16,
                    ),
                )
            } else {
                None
            })
            &&& z.pci.slots == w.pci.slots.update(
                i,
                (devfn, SlotView { msi: z.pci.slots[i].1.msi, ..w.pci.slots[i].1 }),
            )
            &&& z.mmio == w.mmio
            &&& z.io == w.io
            &&& z.actions == w.actions
        }),
{
    let devfn = w.pci.slots[i].0;
    let w1 = guest_writes(w, devfn, 0x44, address);
    lemma_guest_writes(w, i, 0x44, address);
    crate::bytes::law_little_endian_reads(address, 0);
    assert(w.pci.slots[i].1.wf());
    lemma_with_slot_wf(w, i, register_written(slot_of(w, i), devfn, 0x44, 0, address, w.pci.vm));
    let w2 = guest_writes(w1, devfn, 0x48, data);
    lemma_guest_writes(w1, i, 0x48, data);
    crate::bytes::law_little_endian_reads(data, 0);
    lemma_with_slot_wf(w1, i, register_written(slot_of(w1, i), devfn, 0x48, 0, data, w.pci.vm));
    let ctrl = seq![if enable { 1u8 } else { 0u8 }, 0u8];
    let z = guest_writes(w2, devfn, 0x42, ctrl);
    lemma_guest_writes(w2, i, 0x42, ctrl);
    crate::bytes::law_little_endian_reads(ctrl, 0);
    assert(1u16 & 1u16 == 1 && 0u16 & 1u16 == 0) by (bit_vector);
    lemma_with_slot_wf(w2, i, register_written(slot_of(w2, i), devfn, 0x40, 2, ctrl, w.pci.vm));
    lemma_slot_at_is(z.pci.slots, devfn, i);
    assert(z.pci.slots =~= w.pci.slots.update(i, (devfn, SlotView { msi: z.pci.slots[i].1.msi, ..w.pci.slots[i].1 })));
}

/// What a guest writes to the command register it reads back, and nothing else
/// changes.
pub proof fn law_guest_writes_the_command(w: Wires, i: int, lo: u8, hi: u8)
    requires
        slots_wf(w.pci.slots),
        0 <= i < w.pci.slots.len(),
    ensures
        ({
            let devfn = w.pci.slots[i].0;
            let z = guest_writes(w, devfn, 0x04, seq![lo, hi]);
            &&& guest_reads(z, devfn, 0x04) == lo
            &&& guest_reads(z, devfn, 0x05) == hi
            &&& z.pci.slots == w.pci.slots.update(
                i,
                (devfn, SlotView { command: z.pci.slots[i].1.command, ..w.pci.slots[i].1 }),
            )
            &&& z.mmio == w.mmio
            &&& z.io == w.io
        }),
{
    let devfn = w.pci.slots[i].0;
    let data = seq![lo, hi];
    let z = guest_writes(w, devfn, 0x04, data);
    lemma_guest_writes(w, i, 0x04, data);
    crate::bytes::law_little_endian_reads(data, 0);
    assert(w.pci.slots[i].1.wf());
    lemma_with_slot_wf(w, i, register_written(slot_of(w, i), devfn, 0x04, 0, data, w.pci.vm));
    law_guest_reads_the_header(z, i);
    lemma_two_digits_are(guest_reads(z, devfn, 0x04), guest_reads(z, devfn, 0x05), lo, hi);
    assert(z.pci.slots =~= w.pci.slots.update(
        i,
        (devfn, SlotView { command: z.pci.slots[i].1.command, ..w.pci.slots[i].1 }),
    ));
}

proof fn lemma_cleared_flags(val: u32)
    ensures
        val & 0xffff_fff0u32 == val - val % 16,
        val & 0xffff_fffcu32 == val - val % 4,
        (val & 0xffff_fff0u32) | 0u32 == val & 0xffff_fff0u32,
        (val & 0xffff_fffcu32) | 1u32 == (val & 0xffff_fffcu32) + 1,
{
    assert(((val & 0xffff_fff0u32) + val % 16u32 == val) && ((val & 0xffff_fffcu32) + val % 4u32 == val) && ((val
        & 0xffff_fff0u32) | 0u32 == val & 0xffff_fff0u32) && ((val & 0xffff_fffcu32) | 1u32 == (val & 0xffff_fffcu32)
        + 1u32)) by (bit_vector);
}

/// Whether a device other than `dev` answers somewhere from `from` on and below
/// `to`.
pub open spec fn taken_by_others(bus: Seq<Region>, dev: SharedDevice, from: int, to: int) -> bool {
    exists|k: int|
        0 <= k < bus.len() && (#[trigger] bus[k]).device != dev && bus[k].base < to && from <= bus[k].last
}

/// A guest that writes an address to a BAR has the device answer there: at
/// every byte of the BAR's size, by the distance from the address, and with
/// the interrupt line that the configuration space shows. That holds unless
/// another device already answers in that range. The address reads back with
/// the bit that tells I/O space. The other space stays as it is, and other
/// devices go on answering where they did.
#[verifier::spinoff_prover]
pub proof fn law_guest_maps_a_bar(
    w: Wires,
    i: int,
    j: int,
    data: Seq<u8>,
    at: u64,
    other: SharedDevice,
    other_at: u64,
    offset: u64,
    irq: Option<u32>,
)
    requires
        slots_wf(w.pci.slots),
        regions_wf(w.mmio),
        regions_wf(w.io),
        0 <= i < w.pci.slots.len(),
        0 <= j < 6,
        data.len() == 4,
    ensures
        ({
            let (devfn, s) = w.pci.slots[i];
            let bar = s.bars[j];
            let val = data[0] + 0x100 * data[1] + 0x1_0000 * data[2] + 0x100_0000 * data[3];
            let base = if bar.is_io { val - val % 4 } else { val - val % 16 };
            let bar_at = (0x10 + 4 * j) as u8;
            let line = guest_reads(w, devfn, 0x3c);
            let z = guest_writes(w, devfn, bar_at, data);
            let bus = bus_in(w, bar.is_io);
            let now = bus_in(z, bar.is_io);
            let taken = taken_by_others(bus, s.mmio_device, base, base + bar.size);
            bar.size > 0 && val != 0xffff_ffff ==> {
                &&& base > 0 && !taken && base <= at < base + bar.size ==> answers(
                    now,
                    at,
                    s.mmio_device,
                    (at - base) as u64,
                    if line == 0 { None } else { Some(line as u32) },
                )
                &&& answers(now, at, s.mmio_device, offset, irq) ==> base > 0 && base <= at < base + bar.size
                &&& other != s.mmio_device && answers(bus, other_at, other, offset, irq) ==> answers(
                    now,
                    other_at,
                    other,
                    offset,
                    irq,
                )
                &&& if bar.is_io { z.mmio == w.mmio } else { z.io == w.io }
                &&& !bar.sizing ==> guest_reads(z, devfn, bar_at) + 0x100 * guest_reads(z, devfn, (bar_at + 1) as u8)
                    + 0x1_0000 * guest_reads(z, devfn, (bar_at + 2) as u8) + 0x100_0000 * guest_reads(
                    z,
                    devfn,
                    (bar_at + 3) as u8,
                ) == base + (if bar.is_io { 1int } else { 0int })
            }
        }),
{
    let (devfn, s) = w.pci.slots[i];
    let bar = s.bars[j];
    crate::bytes::law_little_endian_reads(data, 0);
    let val = u32_at(data, 0);
    lemma_cleared_flags(val);
    let base = val & bar.spec_align_mask();
    let bar_at = (0x10 + 4 * j) as u8;
    let z = guest_writes(w, devfn, bar_at, data);
    lemma_guest_writes(w, i, bar_at, data);
    assert(w.pci.slots[i].1.wf());
    assert(bar_of(bar_at as u16) == Some(j));
    let bus = bus_in(w, bar.is_io);
    let now = bus_in(z, bar.is_io);
    let dev = s.mmio_device;
    let line = s.identity.spec_irq();
    law_guest_reads_the_header(w, i);
    if bar.size > 0 && val != 0xffff_ffff {
        let s2 = bar_written(slot_of(w, i), devfn, j, val, w.pci.vm);
        assert(register_written(slot_of(w, i), devfn, bar_at as u16, 0, data, w.pci.vm) == s2);
        lemma_bar_written_wf(slot_of(w, i), devfn, j, val, w.pci.vm);
        lemma_with_slot_wf(w, i, s2);
        assert(z.pci.slots == with_slot(w, i, s2).pci.slots);
        if base > 0 {
            assert(now == registered(bus, base as u64, bar.size as u64, dev, line));
            if answers(now, at, dev, offset, irq) {
                crate::device::law_re_registering_moves(
                    bus,
                    base as u64,
                    bar.size as u64,
                    dev,
                    line,
                    at,
                    offset,
                    irq,
                );
            }
            let r = region_of(base as u64, bar.size as u64, dev, line);
            if base <= at < base + bar.size && !taken_by_others(bus, dev, base as int, base + bar.size) {
                if clashes(without(bus, dev), r) {
                    lemma_without(bus, dev);
                    let k = choose|k: int| 0 <= k < without(bus, dev).len() && (#[trigger] without(bus, dev)[k]).overlaps(r);
                    assert(without(bus, dev).contains(without(bus, dev)[k]));
                    let m = choose|m: int| 0 <= m < bus.len() && bus[m] == without(bus, dev)[k];
                    assert(bus[m].device != dev);
                }
                law_registered_answers(bus, base as u64, bar.size as u64, dev, line, at);
            }
            if other != dev && answers(bus, other_at, other, offset, irq) {
                law_others_keep_answering(bus, base as u64, bar.size as u64, dev, line, other_at, other, offset, irq);
            }
        } else {
            assert(now == without(bus, dev));
            law_unregistered_answers_nowhere(bus, dev, at, offset, irq);
            if other != dev && answers(bus, other_at, other, offset, irq) {
                law_others_keep_answering(bus, 0, 0, dev, None, other_at, other, offset, irq);
            }
        }
        if !bar.sizing {
            let x = (base + (if bar.is_io { 1int } else { 0int })) as u32;
            assert(z.pci.slots[i].1.bars[j].value() == x);
            lemma_reg_is_a_bar(bar_at, j);
            assert(config_dword(z.pci.slots[i].1, bar_at as u16) == x);
            lemma_four_digits(x);
            lemma_guest_reads_register(
                z,
                i,
                bar_at,
                (x % 256) as u8,
                (x / 256 % 256) as u8,
                (x / 65536 % 256) as u8,
                (x / 16777216) as u8,
            );
        }
    }
}

proof fn lemma_reg_is_a_bar(at: u8, j: int)
    requires
        0 <= j < 6,
        at == 0x10 + 4 * j,
    ensures
        bar_of(at as u16) == Some(j),
        forall|s: SlotView| #[trigger] config_dword(s, at as u16) == s.bars[j].value(),
{
}

/// The sizing sequence as a guest does it: all ones written to a BAR change
/// nothing on the buses; the register then reads, once, as the complement of
/// the size less one, with the flags of its space; and after that as it did
/// before.
#[verifier::spinoff_prover]
pub proof fn law_guest_sizes_a_bar(w: Wires, i: int, j: int)
    requires
        slots_wf(w.pci.slots),
        0 <= i < w.pci.slots.len(),
        0 <= j < 6,
        w.pci.slots[i].1.bars[j].size > 0,
        !w.pci.slots[i].1.bars[j].sizing,
    ensures
        ({
            let (devfn, s) = w.pci.slots[i];
            let bar = s.bars[j];
            let at = (0x10 + 4 * j) as u8;
            let flags = if bar.is_io { 4int } else { 16int };
            let z = guest_writes(w, devfn, at, seq![0xffu8, 0xffu8, 0xffu8, 0xffu8]);
            let first = config_bytes(z.pci, 0, 4);
            let x = first[0] + 0x100 * first[1] + 0x1_0000 * first[2] + 0x100_0000 * first[3];
            let after = config_after_read(z.pci, 0, 4);
            &&& z.mmio == w.mmio
            &&& z.io == w.io
            &&& z.actions == w.actions
            &&& x % flags == (if bar.is_io { 1int } else { 0int })
            &&& bar.size as int % flags == 0 ==> x - x % flags == 0x1_0000_0000 - bar.size
            &&& after.slots == w.pci.slots
            &&& config_bytes(after, 0, 4) == config_bytes((PciView { address: z.pci.address, ..w.pci }), 0, 4)
        }),
{
    let (devfn, s) = w.pci.slots[i];
    let bar = s.bars[j];
    let at = (0x10 + 4 * j) as u8;
    let ones = seq![0xffu8, 0xffu8, 0xffu8, 0xffu8];
    crate::bytes::law_little_endian_reads(ones, 0);
    lemma_guest_writes(w, i, at, ones);
    lemma_reg_is_a_bar(at, j);
    lemma_selects(w, devfn, at);
    let z = guest_writes(w, devfn, at, ones);
    assert(w.pci.slots[i].1.wf());
    lemma_bar_written_wf(slot_of(w, i), devfn, j, 0xffff_ffff, w.pci.vm);
    let s2 = bar_written(slot_of(w, i), devfn, j, 0xffff_ffff, w.pci.vm);
    assert(register_written(slot_of(w, i), devfn, at as u16, 0, ones, w.pci.vm) == s2);
    lemma_with_slot_wf(w, i, s2);
    lemma_slot_at_is(w.pci.slots, devfn, i);
    lemma_slot_at_is(z.pci.slots, devfn, i);
    let m = (bar.size - 1) as u32;
    lemma_cleared_flags(!m);
    assert(!m == 0xffff_ffffu32 - m) by (bit_vector);
    let x = z.pci.slots[i].1.bars[j].value();
    assert(x == config_dword(z.pci.slots[i].1, at as u16));
    crate::bytes::law_little_endian(0, x, 0);
    if bar.is_io {
        assert(x == (!m & 0xffff_fffcu32) + 1 && x % 4 == 1);
        assert(bar.size as int % 4 == 0 ==> x - x % 4 == 0x1_0000_0000 - bar.size);
    } else {
        assert(x == !m & 0xffff_fff0u32 && x % 16 == 0);
        assert(bar.size as int % 16 == 0 ==> x - x % 16 == 0x1_0000_0000 - bar.size);
    }
    let first = config_bytes(z.pci, 0, 4);
    assert(first =~= le32(x));
    let after = config_after_read(z.pci, 0, 4);
    assert(after.slots[i].1.bars =~= w.pci.slots[i].1.bars);
    assert(after.slots =~= w.pci.slots);
}

/// A BAR that the device does not implement reads as zero, whatever is written
/// to it, and does nothing on the buses.
pub proof fn law_missing_bars_do_nothing(w: Wires, i: int, j: int, data: Seq<u8>)
    requires
        slots_wf(w.pci.slots),
        0 <= i < w.pci.slots.len(),
        0 <= j < 6,
        w.pci.slots[i].1.bars[j].size == 0,
    ensures
        ({
            let devfn = w.pci.slots[i].0;
            let at = (0x10 + 4 * j) as u8;
            let z = guest_writes(w, devfn, at, data);
            &&& guest_reads(w, devfn, at) == 0
            &&& guest_reads(w, devfn, (at + 1) as u8) == 0
            &&& guest_reads(w, devfn, (at + 2) as u8) == 0
            &&& guest_reads(w, devfn, (at + 3) as u8) == 0
            &&& z.pci.slots == w.pci.slots
            &&& z.mmio == w.mmio
            &&& z.io == w.io
            &&& z.actions == w.actions
        }),
{
    let devfn = w.pci.slots[i].0;
    let at = (0x10 + 4 * j) as u8;
    lemma_reg_is_a_bar(at, j);
    lemma_guest_writes(w, i, at, data);
    lemma_guest_reads_register(w, i, at, 0, 0, 0, 0);
    let z = guest_writes(w, devfn, at, data);
    assert(z.pci.slots =~= w.pci.slots);
}

/// Whatever a guest writes to a device's configuration space, the devices at
/// other places stay as they are, and so does what the device reported: its
/// identity, and the kind and size of its BARs.
pub proof fn law_writes_stay_with_their_device(w: Wires, i: int, at: u8, data: Seq<u8>, o: int, j: int)
    requires
        slots_wf(w.pci.slots),
        0 <= i < w.pci.slots.len(),
        0 <= o < w.pci.slots.len(),
        0 <= j < 6,
    ensures
        ({
            let z = guest_writes(w, w.pci.slots[i].0, at, data);
            &&& z.pci.slots.len() == w.pci.slots.len()
            &&& z.pci.vm == w.pci.vm
            &&& z.pci.slots[o].0 == w.pci.slots[o].0
            &&& o != i ==> z.pci.slots[o] == w.pci.slots[o]
            &&& z.pci.slots[o].1.identity == w.pci.slots[o].1.identity
            &&& z.pci.slots[o].1.mmio_device == w.pci.slots[o].1.mmio_device
            &&& z.pci.slots[o].1.bars[j].size == w.pci.slots[o].1.bars[j].size
            &&& z.pci.slots[o].1.bars[j].is_io == w.pci.slots[o].1.bars[j].is_io
            &&& 0x10 + 4 * j != at ==> z.pci.slots[o].1.bars[j] == w.pci.slots[o].1.bars[j]
            &&& !(0x10 <= at < 0x28 && at % 4 == 0 && data.len() == 4) ==> z.mmio == w.mmio && z.io == w.io
        }),
{
    lemma_guest_writes(w, i, at, data);
    assert(w.pci.slots[i].1.wf());
    assert(w.pci.slots[o].1.wf());
}

/// Reading configuration space changes nothing but that it may end a sizing
/// sequence.
pub proof fn law_reads_change_nothing_else(v: PciView, off: int, len: nat, o: int, j: int)
    requires
        slots_wf(v.slots),
        0 <= o < v.slots.len(),
        0 <= j < 6,
    ensures
        ({
            let z = config_after_read(v, off, len);
            &&& z.address == v.address
            &&& z.vm == v.vm
            &&& z.slots.len() == v.slots.len()
            &&& z.slots[o].0 == v.slots[o].0
            &&& z.slots[o].1 == (SlotView { bars: z.slots[o].1.bars, ..v.slots[o].1 })
            &&& z.slots[o].1.bars[j] == (BarState { sizing: z.slots[o].1.bars[j].sizing, ..v.slots[o].1.bars[j] })
            &&& z.slots[o].1.bars[j].sizing ==> v.slots[o].1.bars[j].sizing
            &&& len != 4 || off != 0 ==> z.slots[o].1.bars[j].sizing == v.slots[o].1.bars[j].sizing
        }),
{
    assert(v.slots[o].1.wf());
    match selected(v) {
        Some((i, reg)) => {
            lemma_slot_at(v.slots, (decode(v.address)->0).0);
            assert(v.slots[i].1.wf());
        },
        None => {},
    }
}

/// A device that was just registered is found at its place with all that it
/// reported, answers on no bus, sends no messages and has every BAR unset.
#[verifier::spinoff_prover]
pub proof fn law_a_new_device_is_as_it_reported(
    w: Wires,
    devfn: u8,
    c: PciConfig,
    device: SharedDevice,
    j: int,
    k: int,
)
    requires
        slots_wf(w.pci.slots),
        c.events_in_range(),
        forall|i: int| 0 <= i < w.pci.slots.len() ==> (#[trigger] w.pci.slots[i]).0 != devfn,
        0 <= j < 6,
    ensures
        ({
            let z = Wires { pci: PciView { slots: w.pci.slots.push((devfn, fresh_slot(c, device))), ..w.pci }, ..w };
            let s = z.pci.slots.last().1;
            let at = (0x10 + 4 * j) as u8;
            &&& guest_reads(z, devfn, 0x00) + 0x100 * guest_reads(z, devfn, 0x01) == c.identity.vendor_id
            &&& guest_reads(z, devfn, 0x02) + 0x100 * guest_reads(z, devfn, 0x03) == c.identity.device_id
            &&& guest_reads(z, devfn, 0x04) == 0
            &&& guest_reads(z, devfn, 0x05) == 0
            &&& guest_reads(z, devfn, 0x08) == c.identity.revision_id
            &&& guest_reads(z, devfn, 0x3c) == c.identity.interrupt_line
            &&& guest_reads(z, devfn, 0x3d) == c.identity.interrupt_pin
            &&& msi_at(z.pci.slots, devfn) is None
            &&& !s.msi.enabled
            &&& s.identity == c.identity
            &&& s.mmio_device == device
            &&& s.bars[j].size == c.bar_sizes@[j]
            &&& s.bars[j].is_io == c.bar_is_io@[j]
            &&& s.bars[j].base is None
            &&& !s.bars[j].sizing
            &&& guest_reads(z, devfn, at) == 0
            &&& s.ioevents.len() == c.ioevents@.len()
            &&& 0 <= k < c.ioevents@.len() ==> {
                &&& s.ioevents[k].bar_index == c.ioevents@[k].0
                &&& s.ioevents[k].offset == c.ioevents@[k].1
                &&& s.ioevents[k].datamatch == c.ioevents@[k].2
                &&& s.ioevents[k].registered_addr is None
            }
        }),
{
    let z = Wires { pci: PciView { slots: w.pci.slots.push((devfn, fresh_slot(c, device))), ..w.pci }, ..w };
    let n = w.pci.slots.len() as int;
    let at = (0x10 + 4 * j) as u8;
    let f = fresh_slot(c, device);
    assert forall|m: int| 0 <= m < f.ioevents.len() implies (#[trigger] f.ioevents[m]).offset + 0xffff_ffff
        <= u64::MAX by {
        assert(c.ioevents@[m].1 + 0xffff_ffff <= u64::MAX);
    }
    assert(f.wf());
    assert(slots_wf(z.pci.slots)) by {
        assert forall|i: int| 0 <= i < z.pci.slots.len() implies (#[trigger] z.pci.slots[i]).1.wf() by {
            if i < n {
                assert(w.pci.slots[i].1.wf());
            }
        }
        assert forall|a: int, b: int| 0 <= a < b < z.pci.slots.len() implies (#[trigger] z.pci.slots[a]).0 != (
        #[trigger] z.pci.slots[b]).0 by {
            assert(w.pci.slots[a].0 != devfn);
            if b < n {
                assert(w.pci.slots[a].0 != w.pci.slots[b].0);
            }
        }
    }
    law_guest_reads_the_header(z, n);
    lemma_slot_at_is(z.pci.slots, devfn, n);
    lemma_reg_is_a_bar(at, j);
    assert(f.bars[j].value() == 0);
    lemma_guest_reads_register(z, n, at, 0, 0, 0, 0);
}

/// Whether `a` undoes what event `k` of `evs` has, or makes what it asks for
/// once its BAR is at `base`.
pub open spec fn follows_event(a: IoEventAction, evs: Seq<IoEventBinding>, devfn: u8, is_io: bool, base: u32, k: int) -> bool {
    &&& a.devfn == devfn
    &&& a.entry == k
    &&& a.is_io == is_io
    &&& a.datamatch == evs[k].datamatch
    &&& if a.bind {
        base != 0 && a.addr == base + evs[k].offset
    } else {
        evs[k].registered_addr == Some(a.addr)
    }
}

/// When a BAR moves, its events move with it: each that was bound is undone
/// where it was, and each is made at its distance from the new base, if there
/// is one, the undoing first. Events of other BARs are left alone.
#[verifier::spinoff_prover]
pub proof fn law_events_follow_their_bar(
    evs: Seq<IoEventBinding>,
    devfn: u8,
    index: int,
    is_io: bool,
    base: u32,
    k: int,
)
    requires
        evs.len() <= usize::MAX,
        0 <= k < evs.len(),
        forall|m: int| 0 <= m < evs.len() ==> (#[trigger] evs[m]).offset + 0xffff_ffff <= u64::MAX,
    ensures
        ({
            let r = rebind_actions(evs, devfn, index, is_io, base);
            let mine = evs[k].bar_index == index;
            &&& (exists|p: int| 0 <= p < r.len() && (#[trigger] r[p]).entry == k && !r[p].bind) <==> mine
                && evs[k].registered_addr is Some
            &&& (exists|p: int| 0 <= p < r.len() && (#[trigger] r[p]).entry == k && r[p].bind) <==> mine && base != 0
            &&& forall|p: int|
                0 <= p < r.len() && (#[trigger] r[p]).entry == k ==> follows_event(r[p], evs, devfn, is_io, base, k)
            &&& forall|p: int, q: int|
                0 <= p < q < r.len() && (#[trigger] r[p]).entry == k && (#[trigger] r[q]).entry == k ==> !r[p].bind
                    && r[q].bind
            &&& rebound(evs, index).len() == evs.len()
            &&& rebound(evs, index)[k] == (IoEventBinding {
                registered_addr: if mine { None } else { evs[k].registered_addr },
                ..evs[k]
            })
        }),
    decreases evs.len(),
{
    let n = evs.len() - 1;
    let head = evs.drop_last();
    let before = rebind_actions(head, devfn, index, is_io, base);
    let r = rebind_actions(evs, devfn, index, is_io, base);
    lemma_rebind_entries(head, devfn, index, is_io, base);
    assert forall|m: int| 0 <= m < head.len() implies (#[trigger] head[m]).offset + 0xffff_ffff <= u64::MAX by {
        assert(head[m] == evs[m]);
    }
    assert(forall|p: int| 0 <= p < before.len() ==> r[p] == before[p]);
    if k < n {
        law_events_follow_their_bar(head, devfn, index, is_io, base, k);
        assert(head[k] == evs[k]);
        assert forall|p: int| 0 <= p < before.len() && (#[trigger] before[p]).entry == k implies r[p].entry == k by {}
        assert forall|p: int| before.len() <= p < r.len() implies (#[trigger] r[p]).entry == n by {}
        if exists|p: int| 0 <= p < r.len() && (#[trigger] r[p]).entry == k && !r[p].bind {
            let p = choose|p: int| 0 <= p < r.len() && (#[trigger] r[p]).entry == k && !r[p].bind;
            assert(before[p].entry == k && !before[p].bind);
        }
        if exists|p: int| 0 <= p < r.len() && (#[trigger] r[p]).entry == k && r[p].bind {
            let p = choose|p: int| 0 <= p < r.len() && (#[trigger] r[p]).entry == k && r[p].bind;
            assert(before[p].entry == k && before[p].bind);
        }
        assert forall|p: int| 0 <= p < r.len() && (#[trigger] r[p]).entry == k implies follows_event(
            r[p],
            evs,
            devfn,
            is_io,
            base,
            k,
        ) by {
            assert(before[p].entry == k);
        }
        assert forall|p: int, q: int|
            0 <= p < q < r.len() && (#[trigger] r[p]).entry == k && (#[trigger] r[q]).entry == k implies !r[p].bind
            && r[q].bind by {
            assert(before[p].entry == k && before[q].entry == k);
        }
    } else {
        let b = before.len() as int;
        assert(forall|p: int| 0 <= p < b ==> (#[trigger] r[p]).entry < n);
        if evs[k].bar_index == index {
            if evs[k].registered_addr is Some {
                assert(r[b].entry == k && !r[b].bind);
                if base != 0 {
                    assert(r[b + 1].entry == k && r[b + 1].bind);
                }
            } else if base != 0 {
                assert(r[b].entry == k && r[b].bind);
            }
        }
    }
}

proof fn lemma_rebind_entries(evs: Seq<IoEventBinding>, devfn: u8, index: int, is_io: bool, base: u32)
    requires
        evs.len() <= usize::MAX,
    ensures
        forall|p: int|
            0 <= p < rebind_actions(evs, devfn, index, is_io, base).len() ==> (#[trigger] rebind_actions(
                evs,
                devfn,
                index,
                is_io,
                base,
            )[p]).entry < evs.len(),
    decreases evs.len(),
{
    if evs.len() > 0 {
        lemma_rebind_entries(evs.drop_last(), devfn, index, is_io, base);
        let before = rebind_actions(evs.drop_last(), devfn, index, is_io, base);
        let r = rebind_actions(evs, devfn, index, is_io, base);
        assert forall|p: int| 0 <= p < r.len() implies (#[trigger] r[p]).entry < evs.len() by {
            if p < before.len() {
                assert(r[p] == before[p]);
            }
        }
    }
}

/// Registers that nothing stands in read as zero: the cache line and the
/// latency, those between the BARs and the capability pointer, and those of the
/// MSI capability where there is none.
pub proof fn law_reserved_registers_read_as_zero(w: Wires, i: int, at: u8)
    requires
        slots_wf(w.pci.slots),
        0 <= i < w.pci.slots.len(),
        0x0c <= at < 0x10 || 0x28 <= at < 0x34 || 0x38 <= at < 0x3c || 0x4c <= at < 0x50 || (0x40 <= at < 0x50
            && !w.pci.slots[i].1.identity.msi_capable),
    ensures
        guest_reads(w, w.pci.slots[i].0, at) == 0,
{
    let reg = (at - at % 4) as u8;
    assert(config_dword(w.pci.slots[i].1, reg as u16) == 0);
    lemma_guest_reads_register(w, i, reg, 0, 0, 0, 0);
    assert(at == reg || at == reg + 1 || at == reg + 2 || at == reg + 3);
}

/// What a guest gets at the ports themselves. The address that it wrote to port
/// 0xcf8 reads back there; at ports 0xcfc to 0xcff it reads the bytes of the
/// register that it selected, from the byte that the port stands for; and a
/// write there does what a write to that byte does. Other ports are not the
/// bus's.
#[verifier::spinoff_prover]
pub proof fn law_ports(
    bus: &mut PciBus,
    port: u16,
    data: &mut [u8],
    other: &mut PciBus,
    out_port: u16,
    out: &[u8],
    mmio: &mut MmioBus,
    io: &mut IoBus,
    actions: Vec<IoEventAction>,
    devfn: u8,
    at: u8,
    k: int,
)
    requires
        call_ensures(PciBus::io_in, (bus, port, data), ()),
        call_ensures(PciBus::io_out, (other, out_port, out, mmio, io), actions),
        0 <= k < old(data)@.len(),
    ensures
        final(data)@.len() == old(data)@.len(),
        port == 0xcf8 && old(data)@.len() == 4 ==> final(bus)@ == old(bus)@ && u32_at(final(data)@, 0)
            == old(bus)@.address,
        ({
            let w = Wires { pci: old(bus)@, mmio: old(mmio)@, io: old(io)@, actions: seq![] };
            old(bus)@ == port_written(w, 0xcf8, seq![at, devfn, 0u8, 0x80u8]).pci && port == 0xcfc + at % 4 && at % 4 + k
                < 4 ==> final(data)@[k] == guest_reads(w, devfn, (at + k) as u8)
        }),
        port < 0xcf8 || port > 0xcff ==> final(bus)@ == old(bus)@ && final(data)@[k] == 0xff,
        out_port == 0xcf8 && out@.len() == 4 ==> final(other)@ == (PciView {
            address: u32_at(out@, 0),
            ..old(other)@
        }) && final(mmio)@ == old(mmio)@ && final(io)@ == old(io)@,
        out_port < 0xcf8 || out_port > 0xcff ==> final(other)@ == old(other)@ && final(mmio)@ == old(mmio)@
            && final(io)@ == old(io)@ && actions@.len() == 0,
        ({
            let w = Wires { pci: old(other)@, mmio: old(mmio)@, io: old(io)@, actions: seq![] };
            let z = port_written(w, out_port, out@);
            final(other)@ == z.pci && final(mmio)@ == z.mmio && final(io)@ == z.io && actions@ == z.actions
        }),
{
    let w = Wires { pci: old(bus)@, mmio: old(mmio)@, io: old(io)@, actions: seq![] };
    if port == 0xcf8 && old(data)@.len() == 4 {
        let a = old(bus)@.address;
        assert forall|j: int| 0 <= j < 4 implies final(data)@[0 + j] == #[trigger] le32(a)[j] by {}
        crate::bytes::lemma_u32_le(final(data)@, 0, a);
    }
    law_wide_reads(w, devfn, at, old(data)@.len(), k);
}

} // verus!
