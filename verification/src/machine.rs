//! The device model of a machine: which devices a guest has, in which PCI
//! slots and on which interrupt lines, and what is kept about its plugins.
//!
//! Opening disks, creating interfaces and loading plugins is the caller's
//! work. `build_plan` says what is to be made, in order; the methods of
//! `Machine` take what was made and put it in its place.

use vstd::prelude::*;
use vstd::string::*;

use crate::config::{opt_view, Args, ArgsView, ResourceLimits};
use crate::device::{registered, IoBus, MmioBus, SharedDevice};
use crate::error::HyperbugError;
use crate::pci::{fresh_slot, slot_at, slot_in_use, PciBus, PciConfig, PciIdentity, PciView};
use crate::plugin::{PluginIdentity, PluginTransport, ScriptedDevice};
use crate::serial::{COM1_IRQ, COM2_IRQ, COM3_IRQ, COM4_IRQ};
use crate::text::{cat3, dec, dec_string, push_dec};

verus! {

/// The slot of the host bridge.
pub const SLOT_HOST_BRIDGE: u8 = 0;
/// The slot of the first disk.
pub const SLOT_BLK_BASE: u8 = 4;
/// How many disks there can be.
pub const BLK_MAX_DISKS: usize = 8;
/// The slot of the network device.
pub const SLOT_NET: u8 = 16;
/// The slot of the RNG.
pub const SLOT_RNG: u8 = 17;
/// The slot of the I2C adapter.
pub const SLOT_I2C: u8 = 18;
/// The slot of the first GPIO bank.
pub const SLOT_GPIO_BASE: u8 = 19;
/// How many GPIO banks there can be.
pub const GPIO_MAX_BANKS: usize = 4;
/// The slot of the vsock adapter.
pub const SLOT_VSOCK: u8 = 23;
/// The first slot that no plugin can have.
pub const FIRST_RESERVED_SLOT: u8 = 4;
/// The last slot that no plugin can have.
pub const LAST_RESERVED_SLOT: u8 = 23;

/// The interrupt line that all disks share.
pub const GSI_BLK: u8 = 10;
/// The interrupt line of the network device.
pub const GSI_NET: u8 = 11;
/// The interrupt line of the RNG.
pub const GSI_RNG: u8 = 12;
/// The interrupt line of the I2C adapter.
pub const GSI_I2C: u8 = 13;
/// The interrupt line that all GPIO banks share.
pub const GSI_GPIO: u8 = 14;
/// The interrupt line of the vsock adapter.
pub const GSI_VSOCK: u8 = 15;

/// How a plugin is loaded.
#[derive(Clone, Copy, Debug, PartialEq, Eq, Structural)]
pub enum PluginTransportKind {
    InProcess,
    Sandboxed,
    Native,
    Wasm,
}

/// A plugin, named as on the command line.
#[derive(Clone, Copy, Debug, PartialEq, Eq, Structural)]
pub enum PluginSelector {
    /// By its base address.
    Mmio(u64),
    /// By its PCI device number.
    Pci(u8),
}

/// One thing to do to make a machine.
#[derive(Clone, Copy, Debug, PartialEq, Eq, Structural)]
pub enum BuildStep {
    /// Make an interrupt line.
    Irq(u32),
    /// Open the log of an extra UART: 0 is the second UART.
    Uart(u8),
    /// Map the sleep control registers.
    SleepControl,
    /// Map the reset register.
    ResetControl,
    /// Load the plugin with this number among those of its kind, and map it.
    MmioPlugin(PluginTransportKind, usize),
    /// Register the host bridge.
    HostBridge,
    /// More disks than there are slots: fail.
    TooManyDisks,
    /// Open a disk and register it.
    Disk(usize),
    /// Create the network interface and register it.
    Net,
    /// Load the I2C targets and register their adapter.
    I2c,
    /// More GPIO banks than there are slots: fail.
    TooManyBanks,
    /// Load a GPIO bank and register its adapter.
    GpioBank(usize),
    /// Set up the vsock adapter and register it.
    Vsock,
    /// Register the RNG.
    Rng,
    /// Load the plugin with this number among those of its kind, and register
    /// it.
    PciPlugin(PluginTransportKind, usize),
    /// Open the control socket.
    Control,
}

/// The slot that a step fills. It depends on the step alone, whatever else the
/// machine has: interrupt routing is fixed by slot.
pub open spec fn fixed_slot(s: BuildStep) -> Option<int> {
    match s {
        BuildStep::HostBridge => Some(0),
        BuildStep::Disk(i) => Some(4 + i),
        BuildStep::Net => Some(16),
        BuildStep::Rng => Some(17),
        BuildStep::I2c => Some(18),
        BuildStep::GpioBank(i) => Some(19 + i),
        BuildStep::Vsock => Some(23),
        _ => None,
    }
}

/// Where a virtio device goes.
#[derive(Clone, Copy, Debug, PartialEq, Eq, Structural)]
pub struct VirtioPlace {
    /// Its slot.
    pub slot: u8,
    /// Its interrupt line.
    pub gsi: u8,
    /// Whether its state is part of a snapshot.
    pub snapshot: bool,
}

/// Where the virtio device of a step goes; none for a step without one. The
/// vsock adapter alone is not part of a snapshot.
pub open spec fn virtio_place_of(s: BuildStep) -> Option<VirtioPlace> {
    match s {
        BuildStep::Disk(i) if i < BLK_MAX_DISKS => Some(
            VirtioPlace { slot: (4 + i) as u8, gsi: 10, snapshot: true },
        ),
        BuildStep::Net => Some(VirtioPlace { slot: 16, gsi: 11, snapshot: true }),
        BuildStep::Rng => Some(VirtioPlace { slot: 17, gsi: 12, snapshot: true }),
        BuildStep::I2c => Some(VirtioPlace { slot: 18, gsi: 13, snapshot: true }),
        BuildStep::GpioBank(i) if i < GPIO_MAX_BANKS => Some(
            VirtioPlace { slot: (19 + i) as u8, gsi: 14, snapshot: true },
        ),
        BuildStep::Vsock => Some(VirtioPlace { slot: 23, gsi: 15, snapshot: false }),
        _ => None,
    }
}

/// Where the virtio device of a step goes.
pub fn virtio_place(s: BuildStep) -> (r: Option<VirtioPlace>)
    ensures
        r == virtio_place_of(s),
        r matches Some(p) ==> fixed_slot(s) == Some(p.slot as int),
{
    match s {
        BuildStep::Disk(i) if i < BLK_MAX_DISKS => Some(
            VirtioPlace { slot: SLOT_BLK_BASE + i as u8, gsi: GSI_BLK, snapshot: true },
        ),
        BuildStep::Net => Some(VirtioPlace { slot: SLOT_NET, gsi: GSI_NET, snapshot: true }),
        BuildStep::Rng => Some(VirtioPlace { slot: SLOT_RNG, gsi: GSI_RNG, snapshot: true }),
        BuildStep::I2c => Some(VirtioPlace { slot: SLOT_I2C, gsi: GSI_I2C, snapshot: true }),
        BuildStep::GpioBank(i) if i < GPIO_MAX_BANKS => Some(
            VirtioPlace { slot: SLOT_GPIO_BASE + i as u8, gsi: GSI_GPIO, snapshot: true },
        ),
        BuildStep::Vsock => Some(VirtioPlace { slot: SLOT_VSOCK, gsi: GSI_VSOCK, snapshot: false }),
        _ => None,
    }
}

/// Whether a slot is kept for the machine's own virtio devices, whatever it
/// has of them.
pub open spec fn is_reserved(slot: int) -> bool {
    FIRST_RESERVED_SLOT <= slot <= LAST_RESERVED_SLOT
}

/// The message for a plugin in a slot that is reserved.
pub open spec fn slot_reserved(device_number: u8) -> Seq<char> {
    "PCI device number "@ + dec(device_number as nat)
        + " is reserved for hyperbug's own virtio devices — use 1-3 or 24-31"@
}

/// The plugins of one kind, numbered, at fixed addresses.
pub open spec fn mmio_steps(kind: PluginTransportKind, n: nat) -> Seq<BuildStep> {
    Seq::new(n, |i: int| BuildStep::MmioPlugin(kind, i as usize))
}

/// The plugins of one kind, numbered, on the PCI bus.
pub open spec fn pci_steps(kind: PluginTransportKind, n: nat) -> Seq<BuildStep> {
    Seq::new(n, |i: int| BuildStep::PciPlugin(kind, i as usize))
}

/// The extra UARTs that are asked for, each with its interrupt line.
pub open spec fn uart_steps(a: ArgsView) -> Seq<BuildStep> {
    pair_if(a.uart2_log is Some, BuildStep::Uart(0), BuildStep::Irq(COM2_IRQ)) + pair_if(
        a.uart3_log is Some,
        BuildStep::Uart(1),
        BuildStep::Irq(COM3_IRQ),
    ) + pair_if(a.uart4_log is Some, BuildStep::Uart(2), BuildStep::Irq(COM4_IRQ))
}

/// The disks that are asked for.
pub open spec fn disk_steps(n: nat) -> Seq<BuildStep> {
    if n > BLK_MAX_DISKS {
        seq![BuildStep::TooManyDisks]
    } else if n == 0 {
        seq![]
    } else {
        seq![BuildStep::Irq(10)] + Seq::new(n, |i: int| BuildStep::Disk(i as usize))
    }
}

/// The GPIO banks that are asked for.
pub open spec fn gpio_steps(n: nat) -> Seq<BuildStep> {
    if n == 0 {
        seq![]
    } else if n > GPIO_MAX_BANKS {
        seq![BuildStep::TooManyBanks]
    } else {
        seq![BuildStep::Irq(14)] + Seq::new(n, |i: int| BuildStep::GpioBank(i as usize))
    }
}

/// What is made first: the console's interrupt line, the extra UARTs, the
/// power registers, the plugins at fixed addresses, the host bridge.
pub open spec fn plan_head(a: ArgsView) -> Seq<BuildStep> {
    seq![BuildStep::Irq(COM1_IRQ)] + uart_steps(a) + seq![BuildStep::SleepControl, BuildStep::ResetControl]
        + mmio_steps(PluginTransportKind::InProcess, a.devices.len()) + mmio_steps(
        PluginTransportKind::Sandboxed,
        a.sandboxed_devices.len(),
    ) + mmio_steps(PluginTransportKind::Native, a.native_devices.len()) + mmio_steps(
        PluginTransportKind::Wasm,
        a.wasm_devices.len(),
    ) + seq![BuildStep::HostBridge]
}

/// Two steps, if they are asked for.
pub open spec fn pair_if(asked: bool, a: BuildStep, b: BuildStep) -> Seq<BuildStep> {
    if asked {
        seq![a, b]
    } else {
        seq![]
    }
}

/// What is made next: disks, network, I2C, GPIO, vsock and the RNG.
pub open spec fn plan_middle(a: ArgsView) -> Seq<BuildStep> {
    disk_steps(a.disks.len()) + pair_if(a.net, BuildStep::Net, BuildStep::Irq(11)) + pair_if(
        a.i2c_devices.len() > 0,
        BuildStep::I2c,
        BuildStep::Irq(13),
    ) + gpio_steps(a.gpio_devices.len()) + pair_if(
        a.vsock_uds is Some,
        BuildStep::Vsock,
        BuildStep::Irq(15),
    ) + pair_if(true, BuildStep::Rng, BuildStep::Irq(12))
}

/// What is made last: the plugins on the PCI bus, and the control socket.
pub open spec fn plan_tail(a: ArgsView) -> Seq<BuildStep> {
    pci_steps(PluginTransportKind::InProcess, a.pci_devices.len()) + pci_steps(
        PluginTransportKind::Sandboxed,
        a.sandboxed_pci_devices.len(),
    ) + pci_steps(PluginTransportKind::Native, a.native_pci_devices.len()) + pci_steps(
        PluginTransportKind::Wasm,
        a.wasm_pci_devices.len(),
    ) + (if a.control_socket is Some { seq![BuildStep::Control] } else { seq![] })
}

/// Everything to do to make the machine that `a` describes, in order. A step
/// that fails ends it.
pub open spec fn plan(a: ArgsView) -> Seq<BuildStep> {
    plan_head(a) + plan_middle(a) + plan_tail(a)
}

fn push_mmio(out: &mut Vec<BuildStep>, kind: PluginTransportKind, n: usize)
    ensures
        final(out)@ == old(out)@ + mmio_steps(kind, n as nat),
{
    let ghost start = out@;
    let mut i: usize = 0;
    assert(out@ =~= start + mmio_steps(kind, 0));
    while i < n
        invariant
            i <= n,
            out@ == start + mmio_steps(kind, i as nat),
        decreases n - i,
    {
        out.push(BuildStep::MmioPlugin(kind, i));
        i += 1;
        assert(out@ =~= start + mmio_steps(kind, i as nat));
    }
}

fn push_pci(out: &mut Vec<BuildStep>, kind: PluginTransportKind, n: usize)
    ensures
        final(out)@ == old(out)@ + pci_steps(kind, n as nat),
{
    let ghost start = out@;
    let mut i: usize = 0;
    assert(out@ =~= start + pci_steps(kind, 0));
    while i < n
        invariant
            i <= n,
            out@ == start + pci_steps(kind, i as nat),
        decreases n - i,
    {
        out.push(BuildStep::PciPlugin(kind, i));
        i += 1;
        assert(out@ =~= start + pci_steps(kind, i as nat));
    }
}

fn push_pair(out: &mut Vec<BuildStep>, asked: bool, a: BuildStep, b: BuildStep)
    ensures
        final(out)@ == old(out)@ + pair_if(asked, a, b),
{
    let ghost start = out@;
    if asked {
        out.push(a);
        out.push(b);
    }
    assert(out@ =~= start + pair_if(asked, a, b));
}

fn push_uarts(out: &mut Vec<BuildStep>, args: &Args)
    ensures
        final(out)@ == old(out)@ + uart_steps(args@),
{
    let ghost start = out@;
    push_pair(out, args.uart2_log.is_some(), BuildStep::Uart(0), BuildStep::Irq(COM2_IRQ));
    push_pair(out, args.uart3_log.is_some(), BuildStep::Uart(1), BuildStep::Irq(COM3_IRQ));
    push_pair(out, args.uart4_log.is_some(), BuildStep::Uart(2), BuildStep::Irq(COM4_IRQ));
    assert(out@ =~= start + uart_steps(args@));
}

fn push_head(out: &mut Vec<BuildStep>, args: &Args)
    ensures
        final(out)@ == old(out)@ + plan_head(args@),
{
    let ghost start = out@;
    out.push(BuildStep::Irq(COM1_IRQ));
    push_uarts(out, args);
    let ghost p1 = seq![BuildStep::Irq(COM1_IRQ)] + uart_steps(args@);
    assert(out@ =~= start + p1);
    out.push(BuildStep::SleepControl);
    out.push(BuildStep::ResetControl);
    let ghost p2 = p1 + seq![BuildStep::SleepControl, BuildStep::ResetControl];
    assert(out@ =~= start + p2);
    push_mmio(out, PluginTransportKind::InProcess, args.devices.len());
    let ghost p3 = p2 + mmio_steps(PluginTransportKind::InProcess, args@.devices.len());
    assert(out@ =~= start + p3);
    push_mmio(out, PluginTransportKind::Sandboxed, args.sandboxed_devices.len());
    let ghost p4 = p3 + mmio_steps(PluginTransportKind::Sandboxed, args@.sandboxed_devices.len());
    assert(out@ =~= start + p4);
    push_mmio(out, PluginTransportKind::Native, args.native_devices.len());
    let ghost p5 = p4 + mmio_steps(PluginTransportKind::Native, args@.native_devices.len());
    assert(out@ =~= start + p5);
    push_mmio(out, PluginTransportKind::Wasm, args.wasm_devices.len());
    let ghost p6 = p5 + mmio_steps(PluginTransportKind::Wasm, args@.wasm_devices.len());
    assert(out@ =~= start + p6);
    out.push(BuildStep::HostBridge);
    assert(out@ =~= start + (p6 + seq![BuildStep::HostBridge]));
}

fn push_disks(out: &mut Vec<BuildStep>, n: usize)
    ensures
        final(out)@ == old(out)@ + disk_steps(n as nat),
{
    let ghost start = out@;
    if n > BLK_MAX_DISKS {
        out.push(BuildStep::TooManyDisks);
        assert(out@ =~= start + disk_steps(n as nat));
        return;
    }
    if n == 0 {
        assert(out@ =~= start + disk_steps(0));
        return;
    }
    out.push(BuildStep::Irq(GSI_BLK as u32));
    let mut i: usize = 0;
    assert(out@ =~= start + seq![BuildStep::Irq(10)] + Seq::new(0, |i: int| BuildStep::Disk(i as usize)));
    while i < n
        invariant
            i <= n,
            out@ == start + seq![BuildStep::Irq(10)] + Seq::new(i as nat, |i: int| BuildStep::Disk(i as usize)),
        decreases n - i,
    {
        out.push(BuildStep::Disk(i));
        i += 1;
        assert(out@ =~= start + seq![BuildStep::Irq(10)] + Seq::new(i as nat, |i: int| BuildStep::Disk(i as usize)));
    }
    assert(out@ =~= start + disk_steps(n as nat));
}

fn push_banks(out: &mut Vec<BuildStep>, n: usize)
    ensures
        final(out)@ == old(out)@ + gpio_steps(n as nat),
{
    let ghost start = out@;
    if n == 0 {
        assert(out@ =~= start + gpio_steps(0));
        return;
    }
    if n > GPIO_MAX_BANKS {
        out.push(BuildStep::TooManyBanks);
        assert(out@ =~= start + gpio_steps(n as nat));
        return;
    }
    out.push(BuildStep::Irq(GSI_GPIO as u32));
    let mut i: usize = 0;
    assert(out@ =~= start + seq![BuildStep::Irq(14)] + Seq::new(0, |i: int| BuildStep::GpioBank(i as usize)));
    while i < n
        invariant
            i <= n,
            out@ == start + seq![BuildStep::Irq(14)] + Seq::new(i as nat, |i: int| BuildStep::GpioBank(i as usize)),
        decreases n - i,
    {
        out.push(BuildStep::GpioBank(i));
        i += 1;
        assert(out@ =~= start + seq![BuildStep::Irq(14)] + Seq::new(i as nat, |i: int| BuildStep::GpioBank(i as usize)));
    }
    assert(out@ =~= start + gpio_steps(n as nat));
}

proof fn lemma_joined(a: Seq<BuildStep>, b: Seq<BuildStep>, c: Seq<BuildStep>)
    ensures
        a + b + c == a + (b + c),
{
    assert(a + b + c =~= a + (b + c));
}

fn push_middle(out: &mut Vec<BuildStep>, args: &Args)
    ensures
        final(out)@ == old(out)@ + plan_middle(args@),
{
    let ghost start = out@;
    let ghost d = disk_steps(args@.disks.len());
    let ghost n = pair_if(args@.net, BuildStep::Net, BuildStep::Irq(11));
    let ghost i = pair_if(args@.i2c_devices.len() > 0, BuildStep::I2c, BuildStep::Irq(13));
    let ghost g = gpio_steps(args@.gpio_devices.len());
    let ghost v = pair_if(args@.vsock_uds is Some, BuildStep::Vsock, BuildStep::Irq(15));
    let ghost r = pair_if(true, BuildStep::Rng, BuildStep::Irq(12));
    push_disks(out, args.disks.len());
    push_pair(out, args.net, BuildStep::Net, BuildStep::Irq(GSI_NET as u32));
    push_pair(out, args.i2c_devices.len() > 0, BuildStep::I2c, BuildStep::Irq(GSI_I2C as u32));
    push_banks(out, args.gpio_devices.len());
    push_pair(out, args.vsock_uds.is_some(), BuildStep::Vsock, BuildStep::Irq(GSI_VSOCK as u32));
    push_pair(out, true, BuildStep::Rng, BuildStep::Irq(GSI_RNG as u32));
    proof {
        lemma_joined(start, d, n);
        lemma_joined(start, d + n, i);
        lemma_joined(start, d + n + i, g);
        lemma_joined(start, d + n + i + g, v);
        lemma_joined(start, d + n + i + g + v, r);
    }
}

fn push_tail(out: &mut Vec<BuildStep>, args: &Args)
    ensures
        final(out)@ == old(out)@ + plan_tail(args@),
{
    let ghost start = out@;
    push_pci(out, PluginTransportKind::InProcess, args.pci_devices.len());
    push_pci(out, PluginTransportKind::Sandboxed, args.sandboxed_pci_devices.len());
    push_pci(out, PluginTransportKind::Native, args.native_pci_devices.len());
    push_pci(out, PluginTransportKind::Wasm, args.wasm_pci_devices.len());
    if args.control_socket.is_some() {
        out.push(BuildStep::Control);
    }
    assert(out@ =~= start + plan_tail(args@));
}

/// Everything to do to make the machine that `args` describes, in order.
pub fn build_plan(args: &Args) -> (r: Vec<BuildStep>)
    ensures
        r@ == plan(args@),
{
    let mut out: Vec<BuildStep> = Vec::new();
    push_head(&mut out, args);
    push_middle(&mut out, args);
    push_tail(&mut out, args);
    assert(out@ =~= plan(args@));
    out
}

/// The slots of a machine's own devices are all different, whatever it has.
/// Slot 0 is the host bridge's, and all others are reserved: 1 to 3 and 24 to
/// 31 are left to plugins.
pub proof fn law_fixed_slots_are_apart(a: BuildStep, b: BuildStep)
    requires
        fixed_slot(a) is Some,
        fixed_slot(b) is Some,
        a != b,
        a matches BuildStep::Disk(i) ==> i < BLK_MAX_DISKS,
        b matches BuildStep::Disk(i) ==> i < BLK_MAX_DISKS,
        a matches BuildStep::GpioBank(i) ==> i < GPIO_MAX_BANKS,
        b matches BuildStep::GpioBank(i) ==> i < GPIO_MAX_BANKS,
    ensures
        fixed_slot(a) != fixed_slot(b),
        a is HostBridge ==> fixed_slot(a) == Some(0int),
        !(a is HostBridge) ==> is_reserved(fixed_slot(a)->0),
{
}

/// Whether a step stays within the slots for disks and GPIO banks.
pub open spec fn in_slots(s: BuildStep) -> bool {
    match s {
        BuildStep::Disk(i) => i < BLK_MAX_DISKS,
        BuildStep::GpioBank(i) => i < GPIO_MAX_BANKS,
        _ => true,
    }
}

spec fn all_in_slots(s: Seq<BuildStep>) -> bool {
    forall|k: int| 0 <= k < s.len() ==> in_slots(#[trigger] s[k])
}

proof fn lemma_in_slots_add(a: Seq<BuildStep>, b: Seq<BuildStep>)
    requires
        all_in_slots(a),
        all_in_slots(b),
    ensures
        all_in_slots(a + b),
{
    assert forall|k: int| 0 <= k < (a + b).len() implies in_slots(#[trigger] (a + b)[k]) by {
        if k < a.len() {
            assert((a + b)[k] == a[k]);
        } else {
            assert((a + b)[k] == b[k - a.len()]);
        }
    }
}

/// A plan opens no more disks and loads no more GPIO banks than there are
/// slots for.
pub proof fn law_plan_stays_in_its_slots(a: ArgsView, k: int)
    requires
        0 <= k < plan(a).len(),
    ensures
        in_slots(plan(a)[k]),
{
    let d = disk_steps(a.disks.len());
    let n = pair_if(a.net, BuildStep::Net, BuildStep::Irq(11));
    let i = pair_if(a.i2c_devices.len() > 0, BuildStep::I2c, BuildStep::Irq(13));
    let g = gpio_steps(a.gpio_devices.len());
    let v = pair_if(a.vsock_uds is Some, BuildStep::Vsock, BuildStep::Irq(15));
    let r = pair_if(true, BuildStep::Rng, BuildStep::Irq(12));
    assert(all_in_slots(d) && all_in_slots(n) && all_in_slots(i) && all_in_slots(g) && all_in_slots(v)
        && all_in_slots(r));
    lemma_in_slots_add(d, n);
    lemma_in_slots_add(d + n, i);
    lemma_in_slots_add(d + n + i, g);
    lemma_in_slots_add(d + n + i + g, v);
    lemma_in_slots_add(d + n + i + g + v, r);
    assert(all_in_slots(plan_middle(a)));
    let h1 = seq![BuildStep::Irq(COM1_IRQ)];
    let h2 = uart_steps(a);
    let h3 = seq![BuildStep::SleepControl, BuildStep::ResetControl];
    let m1 = mmio_steps(PluginTransportKind::InProcess, a.devices.len());
    let m2 = mmio_steps(PluginTransportKind::Sandboxed, a.sandboxed_devices.len());
    let m3 = mmio_steps(PluginTransportKind::Native, a.native_devices.len());
    let m4 = mmio_steps(PluginTransportKind::Wasm, a.wasm_devices.len());
    let h4 = seq![BuildStep::HostBridge];
    assert(all_in_slots(h1) && all_in_slots(h2) && all_in_slots(h3) && all_in_slots(m1) && all_in_slots(m2)
        && all_in_slots(m3) && all_in_slots(m4) && all_in_slots(h4));
    lemma_in_slots_add(h1, h2);
    lemma_in_slots_add(h1 + h2, h3);
    lemma_in_slots_add(h1 + h2 + h3, m1);
    lemma_in_slots_add(h1 + h2 + h3 + m1, m2);
    lemma_in_slots_add(h1 + h2 + h3 + m1 + m2, m3);
    lemma_in_slots_add(h1 + h2 + h3 + m1 + m2 + m3, m4);
    lemma_in_slots_add(h1 + h2 + h3 + m1 + m2 + m3 + m4, h4);
    assert(all_in_slots(plan_head(a)));
    let t1 = pci_steps(PluginTransportKind::InProcess, a.pci_devices.len());
    let t2 = pci_steps(PluginTransportKind::Sandboxed, a.sandboxed_pci_devices.len());
    let t3 = pci_steps(PluginTransportKind::Native, a.native_pci_devices.len());
    let t4 = pci_steps(PluginTransportKind::Wasm, a.wasm_pci_devices.len());
    let t5 = if a.control_socket is Some { seq![BuildStep::Control] } else { seq![] };
    assert(all_in_slots(t1) && all_in_slots(t2) && all_in_slots(t3) && all_in_slots(t4) && all_in_slots(t5));
    lemma_in_slots_add(t1, t2);
    lemma_in_slots_add(t1 + t2, t3);
    lemma_in_slots_add(t1 + t2 + t3, t4);
    lemma_in_slots_add(t1 + t2 + t3 + t4, t5);
    assert(all_in_slots(plan_tail(a)));
    lemma_in_slots_add(plan_head(a), plan_middle(a));
    lemma_in_slots_add(plan_head(a) + plan_middle(a), plan_tail(a));
}

/// A plugin on the PCI bus that can raise its own interrupt.
#[derive(Clone, Copy, Debug, PartialEq, Eq, Structural)]
pub struct PluginPciDevice {
    pub device: SharedDevice,
    /// The line to raise, or to deliver as MSI where the guest enabled it.
    pub irq: u32,
}

/// What is needed to load a plugin again, with what it was loaded with.
#[derive(Debug)]
pub struct PluginRegistryEntry {
    pub selector: PluginSelector,
    pub path: String,
    /// A native or WASM plugin has none.
    pub class: Option<String>,
    pub dma_range: Option<(u64, u64)>,
    pub resource_limits: Option<ResourceLimits>,
    pub transport: PluginTransportKind,
    pub is_pci: bool,
    pub device: SharedDevice,
}

/// What a registry entry holds.
pub struct RegistryView {
    pub selector: PluginSelector,
    pub path: Seq<char>,
    pub class: Option<Seq<char>>,
    pub dma_range: Option<(u64, u64)>,
    pub resource_limits: Option<ResourceLimits>,
    pub transport: PluginTransportKind,
    pub is_pci: bool,
    pub device: SharedDevice,
}

impl View for PluginRegistryEntry {
    type V = RegistryView;

    open spec fn view(&self) -> RegistryView {
        RegistryView {
            selector: self.selector,
            path: self.path@,
            class: opt_view(self.class),
            dma_range: self.dma_range,
            resource_limits: self.resource_limits,
            transport: self.transport,
            is_pci: self.is_pci,
            device: self.device,
        }
    }
}

/// The views of a registry.
pub open spec fn registry_views(s: Seq<PluginRegistryEntry>) -> Seq<RegistryView> {
    s.map_values(|e: PluginRegistryEntry| e@)
}

/// An I/O event of a device, and the line to raise when handling it asks for
/// that.
#[derive(Clone, Copy, Debug, PartialEq, Eq, Structural)]
pub struct VirtioNotifyTarget {
    pub device: SharedDevice,
    pub devfn: u8,
    pub entry: usize,
    pub datamatch: u16,
    pub gsi: u32,
}

/// A machine that is being made, or that runs.
pub struct Machine {
    pub mmio_bus: MmioBus,
    pub io_bus: IoBus,
    pub pci_bus: PciBus,
    /// Every interrupt line, in the order in which they were made.
    pub irqs: Vec<u32>,
    /// How many devices there are: they are numbered from 0.
    pub device_count: usize,
    /// The plugins to ask for an interrupt of their own.
    pub plugin_pci_devices: Vec<PluginPciDevice>,
    /// The line and the place of each plugin that can use MSI.
    pub msi_devfns: Vec<(u32, u8)>,
    pub plugin_registry: Vec<PluginRegistryEntry>,
    pub virtio_notifies: Vec<VirtioNotifyTarget>,
    /// The devices whose state is part of a snapshot, in order.
    pub virtio_snapshots: Vec<SharedDevice>,
}

/// What a machine holds.
pub struct MachineView {
    pub mmio: Seq<crate::device::Region>,
    pub io: Seq<crate::device::Region>,
    pub pci: PciView,
    pub irqs: Seq<u32>,
    pub device_count: nat,
    pub plugin_pci_devices: Seq<PluginPciDevice>,
    pub msi_devfns: Seq<(u32, u8)>,
    pub registry: Seq<RegistryView>,
    pub notifies: Seq<VirtioNotifyTarget>,
    pub snapshots: Seq<SharedDevice>,
}

impl View for Machine {
    type V = MachineView;

    open spec fn view(&self) -> MachineView {
        MachineView {
            mmio: self.mmio_bus@,
            io: self.io_bus@,
            pci: self.pci_bus@,
            irqs: self.irqs@,
            device_count: self.device_count as nat,
            plugin_pci_devices: self.plugin_pci_devices@,
            msi_devfns: self.msi_devfns@,
            registry: registry_views(self.plugin_registry@),
            notifies: self.virtio_notifies@,
            snapshots: self.virtio_snapshots@,
        }
    }
}

/// The lines after one more is asked for: several devices may share one.
pub open spec fn with_irq(irqs: Seq<u32>, gsi: u32) -> Seq<u32> {
    if irqs.contains(gsi) {
        irqs
    } else {
        irqs.push(gsi)
    }
}

/// Whether `c` is what a plugin with this identity reports.
pub open spec fn is_plugin_config(c: PciConfig, id: PluginIdentity) -> bool {
    &&& c.identity.vendor_id == id.vendor_id
    &&& c.identity.device_id == id.device_id
    &&& c.identity.class_code == id.class_code
    &&& c.identity.revision_id == 0
    &&& c.identity.interrupt_line == id.interrupt_line
    &&& c.identity.interrupt_pin == 1
    &&& c.identity.msi_capable == id.msi_capable
    &&& c.identity.extra_caps@.len() == 0
    &&& c.bar_sizes == id.bar_sizes
    &&& c.bar_is_io == id.bar_is_io
    &&& c.ioevents@.len() == 0
}

fn plugin_config(id: &PluginIdentity) -> (r: PciConfig)
    ensures
        is_plugin_config(r, *id),
{
    PciConfig {
        identity: PciIdentity {
            vendor_id: id.vendor_id,
            device_id: id.device_id,
            class_code: id.class_code,
            revision_id: 0,
            interrupt_line: id.interrupt_line,
            interrupt_pin: 1,
            msi_capable: id.msi_capable,
            extra_caps: Vec::new(),
        },
        bar_sizes: id.bar_sizes,
        bar_is_io: id.bar_is_io,
        ioevents: Vec::new(),
    }
}

/// The I/O events of a device, with the line `gsi`.
pub open spec fn notifies_of(
    device: SharedDevice,
    devfn: u8,
    events: Seq<(usize, u16)>,
    gsi: u32,
) -> Seq<VirtioNotifyTarget> {
    Seq::new(
        events.len(),
        |k: int|
            VirtioNotifyTarget { device, devfn, entry: events[k].0, datamatch: events[k].1, gsi },
    )
}

/// The device that the next one to be made will be.
pub open spec fn next_device(v: MachineView) -> SharedDevice {
    SharedDevice { id: v.device_count as usize }
}

/// Where a plugin on the PCI bus stands in the registry.
pub open spec fn pci_entry(
    transport: PluginTransportKind,
    path: Seq<char>,
    class: Option<Seq<char>>,
    device_number: u8,
    dma_range: Option<(u64, u64)>,
    limits: Option<ResourceLimits>,
    device: SharedDevice,
) -> RegistryView {
    RegistryView {
        selector: PluginSelector::Pci(device_number),
        path,
        class,
        dma_range,
        resource_limits: limits,
        transport,
        is_pci: true,
        device,
    }
}

/// `v` with the interrupt of a plugin wired up: its line, and its place if it
/// can use MSI. A plugin without a line has neither.
pub open spec fn plugin_irq_wired(v: MachineView, id: PluginIdentity, devfn: u8) -> MachineView {
    if id.interrupt_line == 0 {
        v
    } else {
        let line = id.interrupt_line as u32;
        MachineView {
            irqs: with_irq(v.irqs, line),
            msi_devfns: if id.msi_capable { v.msi_devfns.push((line, devfn)) } else { v.msi_devfns },
            ..v
        }
    }
}

impl Machine {
    /// Whether the PCI bus is well-formed and there is room for one more
    /// device.
    pub open spec fn wf(&self) -> bool {
        self.pci_bus.wf() && self.device_count < usize::MAX
    }

    /// A machine with nothing in it.
    pub fn new() -> (r: Self)
        ensures
            r.wf(),
            r@.mmio.len() == 0,
            r@.io.len() == 0,
            r@.pci.slots.len() == 0,
            r@.pci.vm,
            r@.irqs.len() == 0,
            r@.device_count == 0,
            r@.plugin_pci_devices.len() == 0,
            r@.msi_devfns.len() == 0,
            r@.registry.len() == 0,
            r@.notifies.len() == 0,
            r@.snapshots.len() == 0,
    {
        Machine {
            mmio_bus: MmioBus::new(),
            io_bus: IoBus::new(),
            pci_bus: PciBus::with_vm(),
            irqs: Vec::new(),
            device_count: 0,
            plugin_pci_devices: Vec::new(),
            msi_devfns: Vec::new(),
            plugin_registry: Vec::new(),
            virtio_notifies: Vec::new(),
            virtio_snapshots: Vec::new(),
        }
    }

    /// Adds an interrupt line. Whether it still has to be made.
    pub fn add_irq(&mut self, gsi: u32) -> (r: bool)
        ensures
            r == !old(self)@.irqs.contains(gsi),
            final(self)@ == (MachineView { irqs: with_irq(old(self)@.irqs, gsi), ..old(self)@ }),
            final(self).pci_bus == old(self).pci_bus,
            final(self).device_count == old(self).device_count,
    {
        let mut i: usize = 0;
        while i < self.irqs.len()
            invariant
                i <= self.irqs@.len(),
                *self == *old(self),
                forall|k: int| 0 <= k < i ==> #[trigger] self.irqs@[k] != gsi,
            decreases self.irqs@.len() - i,
        {
            if self.irqs[i] == gsi {
                return false;
            }
            i += 1;
        }
        self.irqs.push(gsi);
        true
    }

    /// Maps a new device at an I/O port.
    pub fn register_io(&mut self, port: u16, size: u64) -> (r: SharedDevice)
        requires
            old(self).wf(),
        ensures
            r == next_device(old(self)@),
            final(self).pci_bus == old(self).pci_bus,
            final(self)@ == (MachineView {
                io: registered(old(self)@.io, port as u64, size, r, None),
                device_count: old(self)@.device_count + 1,
                ..old(self)@
            }),
    {
        let device = SharedDevice { id: self.device_count };
        self.device_count = self.device_count + 1;
        self.io_bus.register(port as u64, size, device, None);
        device
    }

    /// Maps a plugin that was loaded at its fixed address, and remembers how
    /// it was loaded.
    pub fn add_mmio_plugin(
        &mut self,
        transport: PluginTransportKind,
        path: String,
        class: Option<String>,
        base: u64,
        size: u64,
        dma_range: Option<(u64, u64)>,
        limits: Option<ResourceLimits>,
    ) -> (r: SharedDevice)
        requires
            old(self).wf(),
        ensures
            r == next_device(old(self)@),
            final(self).pci_bus == old(self).pci_bus,
            final(self)@ == (MachineView {
                mmio: registered(old(self)@.mmio, base, size, r, None),
                device_count: old(self)@.device_count + 1,
                registry: old(self)@.registry.push(
                    RegistryView {
                        selector: PluginSelector::Mmio(base),
                        path: path@,
                        class: opt_view(class),
                        dma_range,
                        resource_limits: limits,
                        transport,
                        is_pci: false,
                        device: r,
                    },
                ),
                ..old(self)@
            }),
    {
        let device = SharedDevice { id: self.device_count };
        self.device_count = self.device_count + 1;
        self.mmio_bus.register(base, size, device, None);
        self.plugin_registry.push(
            PluginRegistryEntry {
                selector: PluginSelector::Mmio(base),
                path,
                class,
                dma_range,
                resource_limits: limits,
                transport,
                is_pci: false,
                device,
            },
        );
        proof {
            let e = self.plugin_registry@[self.plugin_registry@.len() - 1]@;
            assert(self@.registry =~= old(self)@.registry.push(e));
        }
        device
    }

    /// Registers a new device on the PCI bus. A slot that is taken is a
    /// configuration error.
    pub fn register_pci(&mut self, device_number: u8, config: PciConfig) -> (r: Result<
        (SharedDevice, Vec<(usize, u16)>),
        HyperbugError,
    >)
        requires
            old(self).wf(),
            config.events_in_range(),
        ensures
            final(self).pci_bus.wf(),
            ({
                let devfn = crate::config::devfn_of(device_number);
                match r {
                    Ok((device, events)) => {
                        &&& slot_at(old(self)@.pci.slots, devfn) is None
                        &&& device == next_device(old(self)@)
                        &&& events@ == Seq::new(
                            config.ioevents@.len(),
                            |k: int| (k as usize, config.ioevents@[k].2),
                        )
                        &&& final(self)@ == (MachineView {
                            pci: PciView {
                                slots: old(self)@.pci.slots.push((devfn, fresh_slot(config, device))),
                                ..old(self)@.pci
                            },
                            device_count: old(self)@.device_count + 1,
                            ..old(self)@
                        })
                    },
                    Err(e) => {
                        &&& slot_at(old(self)@.pci.slots, devfn) is Some
                        &&& e matches HyperbugError::Config(m) && m@ == slot_in_use(devfn)
                        &&& final(self)@ == old(self)@
                    },
                }
            }),
    {
        let devfn: u8 = crate::config::devfn_from(device_number);
        let device = SharedDevice { id: self.device_count };
        match self.pci_bus.register_config(devfn, config, device) {
            Ok(events) => {
                self.device_count = self.device_count + 1;
                Ok((device, events))
            },
            Err(m) => Err(HyperbugError::Config(m)),
        }
    }

    /// Registers a virtio device: its I/O events are watched with the line
    /// `gsi`, and its state is part of a snapshot if `snapshot` says so.
    pub fn add_virtio(&mut self, device_number: u8, gsi: u8, config: PciConfig, snapshot: bool) -> (r: Result<
        SharedDevice,
        HyperbugError,
    >)
        requires
            old(self).wf(),
            config.events_in_range(),
        ensures
            final(self).pci_bus.wf(),
            ({
                let devfn = crate::config::devfn_of(device_number);
                match r {
                    Ok(device) => {
                        let events = Seq::new(
                            config.ioevents@.len(),
                            |k: int| (k as usize, config.ioevents@[k].2),
                        );
                        &&& slot_at(old(self)@.pci.slots, devfn) is None
                        &&& device == next_device(old(self)@)
                        &&& final(self)@ == (MachineView {
                            pci: PciView {
                                slots: old(self)@.pci.slots.push((devfn, fresh_slot(config, device))),
                                ..old(self)@.pci
                            },
                            device_count: old(self)@.device_count + 1,
                            notifies: old(self)@.notifies + notifies_of(device, devfn, events, gsi as u32),
                            snapshots: if snapshot {
                                old(self)@.snapshots.push(device)
                            } else {
                                old(self)@.snapshots
                            },
                            ..old(self)@
                        })
                    },
                    Err(e) => {
                        &&& slot_at(old(self)@.pci.slots, devfn) is Some
                        &&& e matches HyperbugError::Config(m) && m@ == slot_in_use(devfn)
                        &&& final(self)@ == old(self)@
                    },
                }
            }),
    {
        let (device, events) = self.register_pci(device_number, config)?;
        let devfn: u8 = crate::config::devfn_from(device_number);
        let ghost before = self.virtio_notifies@;
        let ghost bus = self.pci_bus;
        let ghost v0 = self@;
        let mut k: usize = 0;
        assert(self.virtio_notifies@ =~= before + notifies_of(device, devfn, events@.take(0), gsi as u32));
        while k < events.len()
            invariant
                k <= events@.len(),
                self.pci_bus == bus,
                self@ == (MachineView { notifies: self.virtio_notifies@, ..v0 }),
                self.virtio_notifies@ == before + notifies_of(device, devfn, events@.take(k as int), gsi as u32),
            decreases events@.len() - k,
        {
            let (entry, datamatch) = events[k];
            self.virtio_notifies.push(
                VirtioNotifyTarget { device, devfn, entry, datamatch, gsi: gsi as u32 },
            );
            k += 1;
            assert(self.virtio_notifies@ =~= before + notifies_of(device, devfn, events@.take(k as int), gsi as u32));
        }
        assert(events@.take(k as int) =~= events@);
        if snapshot {
            self.virtio_snapshots.push(device);
        }
        Ok(device)
    }

    /// Registers a plugin that was loaded on the PCI bus, wires up its
    /// interrupt, and remembers how it was loaded. A slot that is reserved for
    /// the machine's own devices is a configuration error, with nothing
    /// changed, and so is one that is taken.
    pub fn add_pci_plugin(
        &mut self,
        transport: PluginTransportKind,
        path: String,
        class: Option<String>,
        device_number: u8,
        dma_range: Option<(u64, u64)>,
        limits: Option<ResourceLimits>,
        identity: &PluginIdentity,
    ) -> (r: Result<SharedDevice, HyperbugError>)
        requires
            old(self).wf(),
        ensures
            final(self).pci_bus.wf(),
            ({
                let devfn = crate::config::devfn_of(device_number);
                let w = plugin_irq_wired(old(self)@, *identity, devfn);
                match r {
                    Ok(device) => {
                        &&& !is_reserved(device_number as int)
                        &&& slot_at(old(self)@.pci.slots, devfn) is None
                        &&& device == next_device(old(self)@)
                        &&& exists|c: PciConfig| #[trigger]
                            is_plugin_config(c, *identity) && final(self)@ == (MachineView {
                                pci: PciView {
                                    slots: w.pci.slots.push((devfn, fresh_slot(c, device))),
                                    ..w.pci
                                },
                                device_count: w.device_count + 1,
                                registry: w.registry.push(
                                    pci_entry(
                                        transport,
                                        path@,
                                        opt_view(class),
                                        device_number,
                                        dma_range,
                                        limits,
                                        device,
                                    ),
                                ),
                                plugin_pci_devices: if identity.interrupt_line != 0 {
                                    w.plugin_pci_devices.push(
                                        PluginPciDevice { device, irq: identity.interrupt_line as u32 },
                                    )
                                } else {
                                    w.plugin_pci_devices
                                },
                                ..w
                            })
                    },
                    Err(e) => if is_reserved(device_number as int) {
                        &&& e matches HyperbugError::Config(m) && m@ == slot_reserved(device_number)
                        &&& final(self)@ == old(self)@
                    } else {
                        &&& slot_at(old(self)@.pci.slots, devfn) is Some
                        &&& e matches HyperbugError::Config(m) && m@ == slot_in_use(devfn)
                        &&& final(self)@ == w
                    },
                }
            }),
    {
        if FIRST_RESERVED_SLOT <= device_number && device_number <= LAST_RESERVED_SLOT {
            let n = dec_string(device_number as u64);
            return Err(
                HyperbugError::Config(
                    cat3(
                        "PCI device number ",
                        n.as_str(),
                        " is reserved for hyperbug's own virtio devices — use 1-3 or 24-31",
                    ),
                ),
            );
        }
        let devfn: u8 = crate::config::devfn_from(device_number);
        let line: u32 = identity.interrupt_line as u32;
        if line != 0 {
            self.add_irq(line);
            if identity.msi_capable {
                self.msi_devfns.push((line, devfn));
            }
        }
        let config = plugin_config(identity);
        let ghost c = config;
        let (device, events) = self.register_pci(device_number, config)?;
        let ghost mid = self@;
        self.plugin_registry.push(
            PluginRegistryEntry {
                selector: PluginSelector::Pci(device_number),
                path,
                class,
                dma_range,
                resource_limits: limits,
                transport,
                is_pci: true,
                device,
            },
        );
        proof {
            let e = self.plugin_registry@[self.plugin_registry@.len() - 1]@;
            assert(self@.registry =~= mid.registry.push(e));
        }
        if line != 0 {
            self.plugin_pci_devices.push(PluginPciDevice { device, irq: line });
        }
        assert(is_plugin_config(c, *identity));
        Ok(device)
    }

    /// The place of the device whose MSI is to be asked for before `irq` is
    /// raised: the first plugin with that line that can use MSI.
    pub fn msi_devfn(&self, irq: u32) -> (r: Option<u8>)
        ensures
            match r {
                Some(d) => exists|i: int|
                    0 <= i < self.msi_devfns@.len() && self.msi_devfns@[i] == (irq, d) && forall|k: int|
                        0 <= k < i ==> (#[trigger] self.msi_devfns@[k]).0 != irq,
                None => forall|k: int|
                    0 <= k < self.msi_devfns@.len() ==> (#[trigger] self.msi_devfns@[k]).0 != irq,
            },
    {
        let mut i: usize = 0;
        while i < self.msi_devfns.len()
            invariant
                i <= self.msi_devfns@.len(),
                forall|k: int| 0 <= k < i ==> (#[trigger] self.msi_devfns@[k]).0 != irq,
            decreases self.msi_devfns@.len() - i,
        {
            let (line, devfn) = self.msi_devfns[i];
            if line == irq {
                assert(self.msi_devfns@[i as int] == (irq, devfn));
                return Some(devfn);
            }
            i += 1;
        }
        None
    }
}

/// The message for more disks than there are slots.
pub fn too_many_disks(n: usize) -> (r: HyperbugError)
    ensures
        r matches HyperbugError::Config(m) && m@ == "--disk given "@ + dec(n as nat)
            + " times, but only 8 PCI slots are reserved for disks"@,
{
    let s = dec_string(n as u64);
    HyperbugError::Config(
        cat3("--disk given ", s.as_str(), " times, but only 8 PCI slots are reserved for disks"),
    )
}

/// The message for more GPIO banks than there are slots.
pub fn too_many_banks(n: usize) -> (r: HyperbugError)
    ensures
        r matches HyperbugError::Config(m) && m@ == "--gpio-device given "@ + dec(n as nat)
            + " times, but only 4 PCI slots are reserved for GPIO banks"@,
{
    let s = dec_string(n as u64);
    HyperbugError::Config(
        cat3("--gpio-device given ", s.as_str(), " times, but only 4 PCI slots are reserved for GPIO banks"),
    )
}

/// A truth value in words.
pub open spec fn bool_text(b: bool) -> Seq<char> {
    if b {
        "true"@
    } else {
        "false"@
    }
}

/// An identity in words.
pub open spec fn identity_text(acc: Seq<char>, i: PluginIdentity) -> Seq<char> {
    let t = acc + "PluginIdentity { vendor_id: "@ + dec(i.vendor_id as nat);
    let t = t + ", device_id: "@ + dec(i.device_id as nat);
    let t = t + ", class_code: "@ + dec(i.class_code as nat);
    let t = t + ", bar_sizes: ["@ + dec(i.bar_sizes@[0] as nat);
    let t = t + ", "@ + dec(i.bar_sizes@[1] as nat);
    let t = t + ", "@ + dec(i.bar_sizes@[2] as nat);
    let t = t + ", "@ + dec(i.bar_sizes@[3] as nat);
    let t = t + ", "@ + dec(i.bar_sizes@[4] as nat);
    let t = t + ", "@ + dec(i.bar_sizes@[5] as nat);
    let t = t + "], bar_is_io: ["@ + bool_text(i.bar_is_io@[0]);
    let t = t + ", "@ + bool_text(i.bar_is_io@[1]);
    let t = t + ", "@ + bool_text(i.bar_is_io@[2]);
    let t = t + ", "@ + bool_text(i.bar_is_io@[3]);
    let t = t + ", "@ + bool_text(i.bar_is_io@[4]);
    let t = t + ", "@ + bool_text(i.bar_is_io@[5]);
    let t = t + "], interrupt_line: "@ + dec(i.interrupt_line as nat);
    let t = t + ", msi_capable: "@ + bool_text(i.msi_capable);
    t + " }"@
}

fn push_number(out: &mut String, label: &str, n: u64)
    ensures
        final(out)@ == old(out)@ + label@ + dec(n as nat),
{
    out.append(label);
    push_dec(out, n);
}

fn push_bool(out: &mut String, label: &str, b: bool)
    ensures
        final(out)@ == old(out)@ + label@ + bool_text(b),
{
    out.append(label);
    out.append(if b { "true" } else { "false" });
}

fn push_identity(out: &mut String, i: &PluginIdentity)
    ensures
        final(out)@ == identity_text(old(out)@, *i),
{
    push_number(out, "PluginIdentity { vendor_id: ", i.vendor_id as u64);
    push_number(out, ", device_id: ", i.device_id as u64);
    push_number(out, ", class_code: ", i.class_code as u64);
    push_number(out, ", bar_sizes: [", i.bar_sizes[0] as u64);
    push_number(out, ", ", i.bar_sizes[1] as u64);
    push_number(out, ", ", i.bar_sizes[2] as u64);
    push_number(out, ", ", i.bar_sizes[3] as u64);
    push_number(out, ", ", i.bar_sizes[4] as u64);
    push_number(out, ", ", i.bar_sizes[5] as u64);
    push_bool(out, "], bar_is_io: [", i.bar_is_io[0]);
    push_bool(out, ", ", i.bar_is_io[1]);
    push_bool(out, ", ", i.bar_is_io[2]);
    push_bool(out, ", ", i.bar_is_io[3]);
    push_bool(out, ", ", i.bar_is_io[4]);
    push_bool(out, ", ", i.bar_is_io[5]);
    push_number(out, "], interrupt_line: ", i.interrupt_line as u64);
    push_bool(out, ", msi_capable: ", i.msi_capable);
    out.append(" }");
}

/// The message for a plugin whose identity changed.
pub open spec fn identity_changed(old_id: PluginIdentity, new_id: PluginIdentity) -> Seq<char> {
    identity_text(
        identity_text(
            "reload refused: the reloaded plugin's PCI identity changed — vendor/device/class/BAR sizes/IRQ/MSI must stay exactly the same across a reload, since the PCI bus caches them at first registration and won't notice a change here (old="@,
            old_id,
        ) + ", new="@,
        new_id,
    ) + ")"@
}

/// Puts the freshly loaded `fresh` in place of a plugin. A plugin on the PCI
/// bus must have kept its identity, which the bus read once; if it changed,
/// the running plugin is left as it is.
pub fn reload_plugin<T: PluginTransport>(
    entry: &PluginRegistryEntry,
    device: &mut ScriptedDevice<T>,
    fresh: ScriptedDevice<T>,
) -> (r: Result<(), String>)
    ensures
        match r {
            Ok(_) => {
                &&& !entry.is_pci || old(device).identity == fresh.identity
                &&& final(device).transport == fresh.transport
                &&& final(device).identity == fresh.identity
                &&& final(device).irq_pending == fresh.irq_pending
                &&& final(device).read_error_count == 0
                &&& final(device).write_error_count == 0
                &&& final(device).tick_error_count == 0
                &&& final(device).reset_error_count == 0
                &&& final(device).log@ == old(device).log@
            },
            Err(e) => {
                &&& entry.is_pci
                &&& old(device).identity != fresh.identity
                &&& *final(device) == *old(device)
                &&& e@ == identity_changed(old(device).identity, fresh.identity)
            },
        },
{
    if entry.is_pci {
        let was = device.identity();
        let now = fresh.identity();
        if !now.same(&was) {
            let mut m = "reload refused: the reloaded plugin's PCI identity changed — vendor/device/class/BAR sizes/IRQ/MSI must stay exactly the same across a reload, since the PCI bus caches them at first registration and won't notice a change here (old=".to_owned();
            push_identity(&mut m, &was);
            m.append(", new=");
            push_identity(&mut m, &now);
            m.append(")");
            return Err(m);
        }
    }
    device.reload(fresh);
    Ok(())
}

/// Whether the arguments ask for a step of the plan.
pub open spec fn asked_for(a: ArgsView, s: BuildStep) -> bool {
    match s {
        BuildStep::Irq(g) => {
            ||| g == 4
            ||| g == 12
            ||| g == 3 && (a.uart2_log is Some || a.uart4_log is Some)
            ||| g == 10 && 0 < a.disks.len() <= 8
            ||| g == 11 && a.net
            ||| g == 13 && a.i2c_devices.len() > 0
            ||| g == 14 && 0 < a.gpio_devices.len() <= 4
            ||| g == 15 && a.vsock_uds is Some
        },
        BuildStep::Uart(i) => {
            ||| i == 0 && a.uart2_log is Some
            ||| i == 1 && a.uart3_log is Some
            ||| i == 2 && a.uart4_log is Some
        },
        BuildStep::SleepControl => true,
        BuildStep::ResetControl => true,
        BuildStep::HostBridge => true,
        BuildStep::Rng => true,
        BuildStep::MmioPlugin(kind, i) => match kind {
            PluginTransportKind::InProcess => i < a.devices.len(),
            PluginTransportKind::Sandboxed => i < a.sandboxed_devices.len(),
            PluginTransportKind::Native => i < a.native_devices.len(),
            PluginTransportKind::Wasm => i < a.wasm_devices.len(),
        },
        BuildStep::PciPlugin(kind, i) => match kind {
            PluginTransportKind::InProcess => i < a.pci_devices.len(),
            PluginTransportKind::Sandboxed => i < a.sandboxed_pci_devices.len(),
            PluginTransportKind::Native => i < a.native_pci_devices.len(),
            PluginTransportKind::Wasm => i < a.wasm_pci_devices.len(),
        },
        BuildStep::TooManyDisks => a.disks.len() > 8,
        BuildStep::Disk(i) => i < a.disks.len() <= 8,
        BuildStep::Net => a.net,
        BuildStep::I2c => a.i2c_devices.len() > 0,
        BuildStep::TooManyBanks => a.gpio_devices.len() > 4,
        BuildStep::GpioBank(i) => i < a.gpio_devices.len() <= 4,
        BuildStep::Vsock => a.vsock_uds is Some,
        BuildStep::Control => a.control_socket is Some,
    }
}

proof fn lemma_contains_add(a: Seq<BuildStep>, b: Seq<BuildStep>, x: BuildStep)
    ensures
        (a + b).contains(x) <==> a.contains(x) || b.contains(x),
{
    let s = a + b;
    if a.contains(x) {
        let k = choose|k: int| 0 <= k < a.len() && a[k] == x;
        assert(s[k] == x);
    }
    if b.contains(x) {
        let k = choose|k: int| 0 <= k < b.len() && b[k] == x;
        assert(s[a.len() + k] == x);
    }
    if s.contains(x) {
        let k = choose|k: int| 0 <= k < s.len() && s[k] == x;
        if k < a.len() {
            assert(a[k] == x);
        } else {
            assert(b[k - a.len()] == x);
        }
    }
}

proof fn lemma_contains_pair(asked: bool, a: BuildStep, b: BuildStep, x: BuildStep)
    ensures
        pair_if(asked, a, b).contains(x) <==> asked && (x == a || x == b),
        seq![a].contains(x) <==> x == a,
        seq![a, b].contains(x) <==> x == a || x == b,
{
    assert(seq![a][0] == a);
    assert(seq![a, b][0] == a && seq![a, b][1] == b);
}

proof fn lemma_contains_plugins(kind: PluginTransportKind, n: nat, x: BuildStep)
    requires
        n <= usize::MAX,
    ensures
        mmio_steps(kind, n).contains(x) <==> (x matches BuildStep::MmioPlugin(k, i) && k == kind && i < n),
        pci_steps(kind, n).contains(x) <==> (x matches BuildStep::PciPlugin(k, i) && k == kind && i < n),
{
    if let BuildStep::MmioPlugin(k, i) = x {
        if k == kind && i < n {
            assert(mmio_steps(kind, n)[i as int] == x);
        }
    }
    if let BuildStep::PciPlugin(k, i) = x {
        if k == kind && i < n {
            assert(pci_steps(kind, n)[i as int] == x);
        }
    }
}

proof fn lemma_contains_disks(n: nat, m: nat, x: BuildStep)
    requires
        n <= usize::MAX,
        m <= usize::MAX,
    ensures
        disk_steps(n).contains(x) <==> {
            ||| n > 8 && x == BuildStep::TooManyDisks
            ||| 0 < n <= 8 && (x == BuildStep::Irq(10) || (x matches BuildStep::Disk(i) && i < n))
        },
        gpio_steps(m).contains(x) <==> {
            ||| m > 4 && x == BuildStep::TooManyBanks
            ||| 0 < m <= 4 && (x == BuildStep::Irq(14) || (x matches BuildStep::GpioBank(i) && i < m))
        },
{
    lemma_contains_pair(true, BuildStep::TooManyDisks, BuildStep::Irq(10), x);
    lemma_contains_pair(true, BuildStep::TooManyBanks, BuildStep::Irq(14), x);
    lemma_contains_pair(true, BuildStep::Irq(10), BuildStep::Irq(14), x);
    lemma_contains_pair(true, BuildStep::Irq(14), BuildStep::Irq(10), x);
    let d = Seq::new(n, |i: int| BuildStep::Disk(i as usize));
    let g = Seq::new(m, |i: int| BuildStep::GpioBank(i as usize));
    lemma_contains_add(seq![BuildStep::Irq(10)], d, x);
    lemma_contains_add(seq![BuildStep::Irq(14)], g, x);
    if let BuildStep::Disk(i) = x {
        if i < n {
            assert(d[i as int] == x);
        }
    }
    if let BuildStep::GpioBank(i) = x {
        if i < m {
            assert(g[i as int] == x);
        }
    }
}

proof fn lemma_contains_head(a: ArgsView, x: BuildStep)
    requires
        a.devices.len() <= usize::MAX,
        a.sandboxed_devices.len() <= usize::MAX,
        a.native_devices.len() <= usize::MAX,
        a.wasm_devices.len() <= usize::MAX,
    ensures
        plan_head(a).contains(x) <==> {
            ||| x == BuildStep::Irq(4)
            ||| x == BuildStep::Irq(3) && (a.uart2_log is Some || a.uart4_log is Some)
            ||| x is Uart && asked_for(a, x)
            ||| x is SleepControl
            ||| x is ResetControl
            ||| x is MmioPlugin && asked_for(a, x)
            ||| x is HostBridge
        },
{
    let (i, s, n, w) = (
        mmio_steps(PluginTransportKind::InProcess, a.devices.len()),
        mmio_steps(PluginTransportKind::Sandboxed, a.sandboxed_devices.len()),
        mmio_steps(PluginTransportKind::Native, a.native_devices.len()),
        mmio_steps(PluginTransportKind::Wasm, a.wasm_devices.len()),
    );
    lemma_contains_plugins(PluginTransportKind::InProcess, a.devices.len(), x);
    lemma_contains_plugins(PluginTransportKind::Sandboxed, a.sandboxed_devices.len(), x);
    lemma_contains_plugins(PluginTransportKind::Native, a.native_devices.len(), x);
    lemma_contains_plugins(PluginTransportKind::Wasm, a.wasm_devices.len(), x);
    lemma_contains_pair(true, BuildStep::Irq(4), BuildStep::HostBridge, x);
    lemma_contains_pair(true, BuildStep::HostBridge, BuildStep::Irq(4), x);
    lemma_contains_pair(true, BuildStep::SleepControl, BuildStep::ResetControl, x);
    lemma_contains_pair(a.uart2_log is Some, BuildStep::Uart(0), BuildStep::Irq(3), x);
    lemma_contains_pair(a.uart3_log is Some, BuildStep::Uart(1), BuildStep::Irq(4), x);
    lemma_contains_pair(a.uart4_log is Some, BuildStep::Uart(2), BuildStep::Irq(3), x);
    let u2 = pair_if(a.uart2_log is Some, BuildStep::Uart(0), BuildStep::Irq(3));
    let u3 = pair_if(a.uart3_log is Some, BuildStep::Uart(1), BuildStep::Irq(4));
    let u4 = pair_if(a.uart4_log is Some, BuildStep::Uart(2), BuildStep::Irq(3));
    lemma_contains_add(u2, u3, x);
    lemma_contains_add(u2 + u3, u4, x);
    let first = seq![BuildStep::Irq(4)];
    let power = seq![BuildStep::SleepControl, BuildStep::ResetControl];
    let t1 = first + uart_steps(a);
    lemma_contains_add(first, uart_steps(a), x);
    lemma_contains_add(t1, power, x);
    let t2 = t1 + power;
    lemma_contains_add(t2, i, x);
    lemma_contains_add(t2 + i, s, x);
    lemma_contains_add(t2 + i + s, n, x);
    lemma_contains_add(t2 + i + s + n, w, x);
    lemma_contains_add(t2 + i + s + n + w, seq![BuildStep::HostBridge], x);
}

proof fn lemma_contains_middle(a: ArgsView, x: BuildStep)
    requires
        a.disks.len() <= usize::MAX,
        a.gpio_devices.len() <= usize::MAX,
    ensures
        plan_middle(a).contains(x) <==> {
            ||| disk_steps(a.disks.len()).contains(x)
            ||| a.net && (x is Net || x == BuildStep::Irq(11))
            ||| a.i2c_devices.len() > 0 && (x is I2c || x == BuildStep::Irq(13))
            ||| gpio_steps(a.gpio_devices.len()).contains(x)
            ||| a.vsock_uds is Some && (x is Vsock || x == BuildStep::Irq(15))
            ||| x is Rng
            ||| x == BuildStep::Irq(12)
        },
{
    let d = disk_steps(a.disks.len());
    let n = pair_if(a.net, BuildStep::Net, BuildStep::Irq(11));
    let i = pair_if(a.i2c_devices.len() > 0, BuildStep::I2c, BuildStep::Irq(13));
    let g = gpio_steps(a.gpio_devices.len());
    let v = pair_if(a.vsock_uds is Some, BuildStep::Vsock, BuildStep::Irq(15));
    let r = pair_if(true, BuildStep::Rng, BuildStep::Irq(12));
    lemma_contains_pair(a.net, BuildStep::Net, BuildStep::Irq(11), x);
    lemma_contains_pair(a.i2c_devices.len() > 0, BuildStep::I2c, BuildStep::Irq(13), x);
    lemma_contains_pair(a.vsock_uds is Some, BuildStep::Vsock, BuildStep::Irq(15), x);
    lemma_contains_pair(true, BuildStep::Rng, BuildStep::Irq(12), x);
    lemma_contains_add(d, n, x);
    lemma_contains_add(d + n, i, x);
    lemma_contains_add(d + n + i, g, x);
    lemma_contains_add(d + n + i + g, v, x);
    lemma_contains_add(d + n + i + g + v, r, x);
}

proof fn lemma_contains_tail(a: ArgsView, x: BuildStep)
    requires
        a.pci_devices.len() <= usize::MAX,
        a.sandboxed_pci_devices.len() <= usize::MAX,
        a.native_pci_devices.len() <= usize::MAX,
        a.wasm_pci_devices.len() <= usize::MAX,
    ensures
        plan_tail(a).contains(x) <==> (x is PciPlugin && asked_for(a, x)) || (x is Control && a.control_socket is Some),
{
    let (i, s, n, w) = (
        pci_steps(PluginTransportKind::InProcess, a.pci_devices.len()),
        pci_steps(PluginTransportKind::Sandboxed, a.sandboxed_pci_devices.len()),
        pci_steps(PluginTransportKind::Native, a.native_pci_devices.len()),
        pci_steps(PluginTransportKind::Wasm, a.wasm_pci_devices.len()),
    );
    lemma_contains_plugins(PluginTransportKind::InProcess, a.pci_devices.len(), x);
    lemma_contains_plugins(PluginTransportKind::Sandboxed, a.sandboxed_pci_devices.len(), x);
    lemma_contains_plugins(PluginTransportKind::Native, a.native_pci_devices.len(), x);
    lemma_contains_plugins(PluginTransportKind::Wasm, a.wasm_pci_devices.len(), x);
    lemma_contains_pair(true, BuildStep::Control, BuildStep::Net, x);
    let c: Seq<BuildStep> = if a.control_socket is Some { seq![BuildStep::Control] } else { seq![] };
    lemma_contains_add(i, s, x);
    lemma_contains_add(i + s, n, x);
    lemma_contains_add(i + s + n, w, x);
    lemma_contains_add(i + s + n + w, c, x);
}

/// Whether a machine's lists are as long as lists can be.
pub open spec fn lists_fit(a: ArgsView) -> bool {
    &&& a.devices.len() <= usize::MAX
    &&& a.sandboxed_devices.len() <= usize::MAX
    &&& a.native_devices.len() <= usize::MAX
    &&& a.wasm_devices.len() <= usize::MAX
    &&& a.pci_devices.len() <= usize::MAX
    &&& a.sandboxed_pci_devices.len() <= usize::MAX
    &&& a.native_pci_devices.len() <= usize::MAX
    &&& a.wasm_pci_devices.len() <= usize::MAX
    &&& a.disks.len() <= usize::MAX
    &&& a.gpio_devices.len() <= usize::MAX
}

/// A machine is built of exactly what its arguments ask for: the plan has a
/// step if and only if it is asked for, and for every device of the machine's
/// own the interrupt line that the device is given.
pub proof fn law_plan_has_what_is_asked_for(a: ArgsView, x: BuildStep)
    requires
        lists_fit(a),
    ensures
        plan(a).contains(x) <==> asked_for(a, x),
        plan(a).contains(x) && virtio_place_of(x) is Some ==> plan(a).contains(
            BuildStep::Irq((virtio_place_of(x)->0).gsi as u32),
        ),
{
    lemma_plan_contains(a, x);
    if asked_for(a, x) && virtio_place_of(x) is Some {
        lemma_plan_contains(a, BuildStep::Irq((virtio_place_of(x)->0).gsi as u32));
    }
}

proof fn lemma_plan_contains(a: ArgsView, x: BuildStep)
    requires
        lists_fit(a),
    ensures
        plan(a).contains(x) <==> asked_for(a, x),
{
    lemma_contains_add(plan_head(a), plan_middle(a), x);
    lemma_contains_add(plan_head(a) + plan_middle(a), plan_tail(a), x);
    lemma_contains_head(a, x);
    lemma_contains_middle(a, x);
    lemma_contains_tail(a, x);
    lemma_contains_disks(a.disks.len(), a.gpio_devices.len(), x);
}

/// The machine's own devices have the places that the ACPI tables give them:
/// the disks from 4 on, network, random numbers and I2C at 16, 17 and 18, GPIO
/// from 19 on and vsock at 23, on interrupts 10 to 15, one for each kind. All
/// but vsock are part of a snapshot. Plugins may not be put there.
pub proof fn law_virtio_places(i: usize, slot: int)
    ensures
        i < 8 ==> virtio_place_of(BuildStep::Disk(i)) == Some(VirtioPlace { slot: (4 + i) as u8, gsi: 10, snapshot: true }),
        i >= 8 ==> virtio_place_of(BuildStep::Disk(i)) is None,
        virtio_place_of(BuildStep::Net) == Some(VirtioPlace { slot: 16, gsi: 11, snapshot: true }),
        virtio_place_of(BuildStep::Rng) == Some(VirtioPlace { slot: 17, gsi: 12, snapshot: true }),
        virtio_place_of(BuildStep::I2c) == Some(VirtioPlace { slot: 18, gsi: 13, snapshot: true }),
        i < 4 ==> virtio_place_of(BuildStep::GpioBank(i)) == Some(
            VirtioPlace { slot: (19 + i) as u8, gsi: 14, snapshot: true },
        ),
        i >= 4 ==> virtio_place_of(BuildStep::GpioBank(i)) is None,
        virtio_place_of(BuildStep::Vsock) == Some(VirtioPlace { slot: 23, gsi: 15, snapshot: false }),
        is_reserved(slot) <==> 4 <= slot <= 23,
{
}

/// An interrupt line is prepared once, however often it is asked for, and no
/// other is lost.
pub proof fn law_interrupt_lines(irqs: Seq<u32>, gsi: u32, other: u32)
    ensures
        with_irq(irqs, gsi).contains(gsi),
        other != gsi ==> (with_irq(irqs, gsi).contains(other) <==> irqs.contains(other)),
        irqs.no_duplicates() ==> with_irq(irqs, gsi).no_duplicates(),
        with_irq(with_irq(irqs, gsi), gsi) == with_irq(irqs, gsi),
{
    let w = irqs.push(gsi);
    assert(w[irqs.len() as int] == gsi);
    if irqs.contains(other) {
        let k = choose|k: int| 0 <= k < irqs.len() && irqs[k] == other;
        assert(w[k] == other);
    }
    if w.contains(other) && other != gsi {
        let k = choose|k: int| 0 <= k < w.len() && w[k] == other;
        assert(irqs[k] == other);
    }
}

/// A plugin's interrupt line is prepared, if it has one, and its messages can
/// be found by that line if it can send any. Nothing else of the machine
/// changes.
pub proof fn law_plugin_interrupts(v: MachineView, id: PluginIdentity, devfn: u8)
    ensures
        ({
            let w = plugin_irq_wired(v, id, devfn);
            let line = id.interrupt_line as u32;
            &&& w == (MachineView { irqs: w.irqs, msi_devfns: w.msi_devfns, ..v })
            &&& line == 0 ==> w == v
            &&& line != 0 ==> w.irqs == with_irq(v.irqs, line)
            &&& line != 0 && id.msi_capable ==> w.msi_devfns == v.msi_devfns.push((line, devfn))
            &&& !id.msi_capable ==> w.msi_devfns == v.msi_devfns
        }),
{
}

/// A guest that reads the configuration space of a plugin finds the identity
/// that the plugin gave: its IDs and class, its interrupt line on the first
/// pin, and its BARs, each of its size and in its space.
pub proof fn law_guest_sees_a_plugin(
    w: crate::pci::Wires,
    devfn: u8,
    c: PciConfig,
    id: PluginIdentity,
    device: SharedDevice,
    j: int,
)
    requires
        crate::pci::slots_wf(w.pci.slots),
        forall|i: int| 0 <= i < w.pci.slots.len() ==> (#[trigger] w.pci.slots[i]).0 != devfn,
        is_plugin_config(c, id),
        0 <= j < 6,
    ensures
        ({
            let slots = w.pci.slots.push((devfn, fresh_slot(c, device)));
            let z = crate::pci::Wires { pci: PciView { slots, ..w.pci }, ..w };
            let s = slots.last().1;
            &&& crate::pci::guest_reads(z, devfn, 0x00) + 0x100 * crate::pci::guest_reads(z, devfn, 0x01)
                == id.vendor_id
            &&& crate::pci::guest_reads(z, devfn, 0x02) + 0x100 * crate::pci::guest_reads(z, devfn, 0x03)
                == id.device_id
            &&& crate::pci::guest_reads(z, devfn, 0x08) == 0
            &&& crate::pci::guest_reads(z, devfn, 0x3c) == id.interrupt_line
            &&& crate::pci::guest_reads(z, devfn, 0x3d) == 1
            &&& s.identity.class_code == id.class_code
            &&& s.identity.msi_capable == id.msi_capable
            &&& s.mmio_device == device
            &&& s.bars[j].size == id.bar_sizes@[j]
            &&& s.bars[j].is_io == id.bar_is_io@[j]
            &&& s.ioevents.len() == 0
        }),
{
    crate::pci::law_a_new_device_is_as_it_reported(w, devfn, c, device, j, 0);
}

/// What is remembered of a plugin is what it was loaded with.
pub proof fn law_plugins_are_remembered(
    transport: PluginTransportKind,
    path: Seq<char>,
    class: Option<Seq<char>>,
    device_number: u8,
    dma_range: Option<(u64, u64)>,
    limits: Option<ResourceLimits>,
    device: SharedDevice,
    events: Seq<(usize, u16)>,
    devfn: u8,
    gsi: u32,
    k: int,
)
    ensures
        ({
            let e = pci_entry(transport, path, class, device_number, dma_range, limits, device);
            &&& e.selector == PluginSelector::Pci(device_number)
            &&& e.path == path
            &&& e.class == class
            &&& e.dma_range == dma_range
            &&& e.resource_limits == limits
            &&& e.transport == transport
            &&& e.is_pci
            &&& e.device == device
        }),
        ({
            let n = notifies_of(device, devfn, events, gsi);
            &&& n.len() == events.len()
            &&& 0 <= k < events.len() ==> n[k].device == device && n[k].devfn == devfn && n[k].entry == events[k].0
                && n[k].datamatch == events[k].1 && n[k].gsi == gsi
        }),
{
}

/// A plugin is replaced by its fresh copy, with its errors forgotten; but one
/// on the PCI bus only if the copy has the same identity, and is left as it is
/// otherwise.
pub proof fn law_reloading<T: PluginTransport>(
    entry: &PluginRegistryEntry,
    device: &mut ScriptedDevice<T>,
    fresh: ScriptedDevice<T>,
    r: Result<(), String>,
)
    requires
        call_ensures(reload_plugin::<T>, (entry, device, fresh), r),
    ensures
        r is Ok <==> !entry.is_pci || old(device).identity == fresh.identity,
        r is Ok ==> final(device).transport == fresh.transport && final(device).identity == fresh.identity
            && final(device).read_error_count == 0 && final(device).write_error_count == 0,
        r is Err ==> *final(device) == *old(device),
{
}

} // verus!
