//! The device interface and the bus that dispatches guest accesses.
//!
//! A `Bus` maps address ranges to devices. The same dispatch serves guest
//! physical addresses (`MmioBus`) and I/O ports (`IoBus`). A bus does not own
//! its devices: it holds handles, so that the caller can release whatever
//! guards the bus before it calls into a device, and so that a PCI bus can
//! move a device's mapping as the guest programs its base address registers.

use vstd::prelude::*;

verus! {

/// The newest plugin interface version that this build implements.
pub const PLUGIN_API_VERSION: u32 = 1;

/// The oldest plugin interface version that this build still accepts.
pub const PLUGIN_API_MIN_SUPPORTED: u32 = 1;

/// Whether a plugin that declares `declared` can be loaded.
pub fn api_version_supported(declared: u32) -> (r: bool)
    ensures
        r == (PLUGIN_API_MIN_SUPPORTED <= declared <= PLUGIN_API_VERSION),
{
    declared <= PLUGIN_API_VERSION && declared >= PLUGIN_API_MIN_SUPPORTED
}

/// Whether a device confined to `range`, a base and a size, may touch
/// `[addr, addr + len)`.
pub open spec fn dma_allowed(range: Option<(u64, u64)>, addr: int, len: int) -> bool {
    match range {
        None => true,
        Some((base, size)) => {
            &&& base <= addr
            &&& addr + len <= base + size
            &&& base + size <= u64::MAX
        },
    }
}

/// Whether `[addr, addr + len)` lies entirely within a device's declared DMA
/// range. `None` is a device with no confinement, which may touch anything.
/// A declared range that runs past the end of the address space allows
/// nothing.
pub fn dma_range_allows(range: Option<(u64, u64)>, addr: u64, len: u64) -> (r: bool)
    ensures
        r == dma_allowed(range, addr as int, len as int),
{
    let (base, size) = match range {
        Some(p) => p,
        None => {
            return true;
        },
    };
    let end: u64 = match addr.checked_add(len) {
        Some(e) => e,
        None => {
            return false;
        },
    };
    let range_end: u64 = match base.checked_add(size) {
        Some(e) => e,
        None => {
            return false;
        },
    };
    addr >= base && end <= range_end
}

/// Every byte of an allowed access lies in the declared range.
pub proof fn law_dma_confinement(range: (u64, u64), addr: u64, len: u64, byte: int)
    requires
        dma_allowed(Some(range), addr as int, len as int),
        addr <= byte < addr + len,
    ensures
        range.0 <= byte < range.0 + range.1,
        byte <= u64::MAX,
{
}

/// A device addressed by offsets from its own base.
pub trait Device: Sized {
    /// What a read of `before.len()` bytes at `offset` may do to the device
    /// and to the buffer. Anything, unless the device says more.
    open spec fn reads(pre: Self, post: Self, offset: u64, before: Seq<u8>, after: Seq<u8>) -> bool {
        true
    }

    /// What a write of `data` at `offset` may do to the device and answer.
    /// Anything, unless the device says more.
    open spec fn writes(pre: Self, post: Self, offset: u64, data: Seq<u8>, irq: bool) -> bool {
        true
    }

    /// Fills `data` from `offset`.
    fn read(&mut self, offset: u64, data: &mut [u8])
        ensures
            Self::reads(*old(self), *final(self), offset, old(data)@, final(data)@),
            final(data)@.len() == old(data)@.len(),
    ;

    /// Takes `data` at `offset`. `true` asks for the device's configured
    /// interrupt; a device that has none configured has this ignored.
    fn write(&mut self, offset: u64, data: &[u8]) -> (irq: bool)
        ensures
            Self::writes(*old(self), *final(self), offset, data@, irq),
    ;

    /// Whether the device wants an interrupt outside of a write. Clears
    /// whatever it reports.
    fn take_pending_irq(&mut self) -> (r: bool)
        default_ensures
            !r,
            *final(self) == *old(self),
    {
        false
    }

    /// Called once per loop iteration, for work that no register access
    /// drives.
    fn tick(&mut self)
        default_ensures
            *final(self) == *old(self),
    {
    }

    /// Returns the device to its initial state, on request.
    fn reset(&mut self)
        default_ensures
            *final(self) == *old(self),
    {
    }
}

/// A handle to a device. Equal handles are one device.
#[derive(Clone, Copy, Debug, PartialEq, Eq, Structural)]
pub struct SharedDevice {
    /// The device's place among the devices of its machine.
    pub id: usize,
}

/// A range of addresses and the device that answers there.
#[derive(Clone, Copy, Debug, PartialEq, Eq, Structural)]
pub struct Region {
    /// The first address covered.
    pub base: u64,
    /// The last address covered, inclusive: a region that reaches the top of
    /// the address space has no exclusive end.
    pub last: u64,
    /// Who answers.
    pub device: SharedDevice,
    /// The interrupt to raise when a write asks for one.
    pub irq: Option<u32>,
}

impl Region {
    /// Whether the region covers `addr`.
    pub open spec fn covers(self, addr: u64) -> bool {
        self.base <= addr <= self.last
    }

    /// Whether two regions share an address.
    pub open spec fn overlaps(self, other: Region) -> bool {
        self.base <= other.last && other.base <= self.last
    }

    /// Whether the region covers `addr`.
    pub fn contains(&self, addr: u64) -> (r: bool)
        ensures
            r == self.covers(addr),
    {
        addr >= self.base && addr <= self.last
    }
}

/// No region is empty, no two share an address, no device has two.
pub open spec fn regions_wf(s: Seq<Region>) -> bool {
    &&& forall|i: int| 0 <= i < s.len() ==> (#[trigger] s[i]).base <= s[i].last
    &&& forall|i: int, j: int|
        0 <= i < j < s.len() ==> !(#[trigger] s[i]).overlaps(#[trigger] s[j]) && s[i].device
            != s[j].device
}

/// `s` without the mapping of `device`.
pub open spec fn without(s: Seq<Region>, device: SharedDevice) -> Seq<Region>
    decreases s.len(),
{
    if s.len() == 0 {
        seq![]
    } else if s.last().device == device {
        without(s.drop_last(), device)
    } else {
        without(s.drop_last(), device).push(s.last())
    }
}

/// The region that mapping `size` bytes at `base` asks for. One that runs
/// past the top of the address space ends there.
pub open spec fn region_of(base: u64, size: u64, device: SharedDevice, irq: Option<u32>) -> Region {
    Region {
        base,
        last: if base + size - 1 > u64::MAX { u64::MAX } else { (base + size - 1) as u64 },
        device,
        irq,
    }
}

/// Whether a region of `s` shares an address with `r`.
pub open spec fn clashes(s: Seq<Region>, r: Region) -> bool {
    exists|i: int| 0 <= i < s.len() && (#[trigger] s[i]).overlaps(r)
}

/// The mappings after a device is mapped: its old mapping is gone, and the
/// new one is there unless it is empty or would share an address with another
/// device's.
pub open spec fn registered(
    s: Seq<Region>,
    base: u64,
    size: u64,
    device: SharedDevice,
    irq: Option<u32>,
) -> Seq<Region> {
    let rest = without(s, device);
    let r = region_of(base, size, device, irq);
    if size == 0 || clashes(rest, r) {
        rest
    } else {
        rest.push(r)
    }
}

/// Which device answers at `addr`, at which offset, with which interrupt.
pub open spec fn answers(s: Seq<Region>, addr: u64, device: SharedDevice, offset: u64, irq: Option<u32>) -> bool {
    exists|i: int|
        0 <= i < s.len() && (#[trigger] s[i]).covers(addr) && s[i].device == device && s[i].irq
            == irq && offset == addr - s[i].base
}

/// Whether some device answers at `addr`.
pub open spec fn mapped(s: Seq<Region>, addr: u64) -> bool {
    exists|i: int| 0 <= i < s.len() && (#[trigger] s[i]).covers(addr)
}

/// The regions that remain are those of the other devices, in their order.
pub proof fn lemma_without(s: Seq<Region>, device: SharedDevice)
    ensures
        without(s, device).len() <= s.len(),
        forall|i: int|
            0 <= i < without(s, device).len() ==> (#[trigger] without(s, device)[i]).device
                != device && s.contains(without(s, device)[i]),
        forall|i: int|
            0 <= i < s.len() && (#[trigger] s[i]).device != device ==> without(
                s,
                device,
            ).contains(s[i]),
        regions_wf(s) ==> regions_wf(without(s, device)),
    decreases s.len(),
{
    if s.len() > 0 {
        let t = s.drop_last();
        lemma_without(t, device);
        let w = without(t, device);
        let full = without(s, device);
        assert forall|i: int| 0 <= i < full.len() implies (#[trigger] full[i]).device != device
            && s.contains(full[i]) by {
            if i < w.len() {
                assert(full[i] == w[i]);
                let k = choose|k: int| 0 <= k < t.len() && t[k] == w[i];
                assert(s[k] == w[i]);
            } else {
                assert(full[i] == s[s.len() - 1]);
            }
        }
        assert forall|i: int| 0 <= i < s.len() && (#[trigger] s[i]).device != device implies full.contains(
            s[i],
        ) by {
            if i < t.len() {
                assert(t[i] == s[i]);
                let k = choose|k: int| 0 <= k < w.len() && w[k] == s[i];
                assert(full[k] == s[i]);
            } else {
                assert(full[full.len() - 1] == s[i]);
            }
        }
        if regions_wf(s) {
            assert forall|i: int| 0 <= i < t.len() implies (#[trigger] t[i]).base <= t[i].last by {
                assert(s[i] == t[i]);
            }
            assert forall|i: int, j: int| 0 <= i < j < t.len() implies !(#[trigger] t[i]).overlaps(
                #[trigger] t[j],
            ) && t[i].device != t[j].device by {
                assert(s[i] == t[i] && s[j] == t[j]);
            }
            assert(regions_wf(t));
            assert forall|i: int| 0 <= i < full.len() implies (#[trigger] full[i]).base
                <= full[i].last by {
                let k = choose|k: int| 0 <= k < s.len() && s[k] == full[i];
                assert(s[k].base <= s[k].last);
            }
            assert forall|i: int, j: int| 0 <= i < j < full.len() implies !(#[trigger] full[i]).overlaps(
                #[trigger] full[j],
            ) && full[i].device != full[j].device by {
                if j < w.len() {
                    assert(full[i] == w[i] && full[j] == w[j]);
                } else {
                    assert(full[i] == w[i]);
                    assert(t.contains(w[i]));
                    let k = choose|k: int| 0 <= k < t.len() && t[k] == w[i];
                    assert(s[k] == w[i] && s[s.len() - 1] == full[j]);
                }
            }
        }
    }
}

/// Mapping a device keeps the regions in order.
pub proof fn lemma_registered(
    s: Seq<Region>,
    base: u64,
    size: u64,
    device: SharedDevice,
    irq: Option<u32>,
)
    requires
        regions_wf(s),
    ensures
        regions_wf(registered(s, base, size, device, irq)),
{
    lemma_without(s, device);
    let rest = without(s, device);
    let r = region_of(base, size, device, irq);
    if size != 0 && !clashes(rest, r) {
        let full = rest.push(r);
        assert forall|i: int, j: int| 0 <= i < j < full.len() implies !(#[trigger] full[i]).overlaps(
            #[trigger] full[j],
        ) && full[i].device != full[j].device by {
            if j < rest.len() {
                assert(full[i] == rest[i] && full[j] == rest[j]);
            } else {
                assert(full[i] == rest[i] && full[j] == r);
            }
        }
        assert forall|i: int| 0 <= i < full.len() implies (#[trigger] full[i]).base <= full[i].last by {
            if i < rest.len() {
                assert(full[i] == rest[i]);
            }
        }
    }
}

/// A set of address ranges, each with the device that answers there.
pub struct Bus {
    regions: Vec<Region>,
}

/// A bus keyed by guest physical address.
pub type MmioBus = Bus;

/// A bus keyed by I/O port.
pub type IoBus = Bus;

impl View for Bus {
    type V = Seq<Region>;

    closed spec fn view(&self) -> Seq<Region> {
        self.regions@
    }
}

impl Default for Bus {
    fn default() -> (r: Self)
        ensures
            r@ == Seq::<Region>::empty(),
    {
        Bus { regions: Vec::new() }
    }
}

impl Bus {
    #[verifier::type_invariant]
    spec fn inv(self) -> bool {
        regions_wf(self.regions@)
    }

    /// A bus with nothing mapped.
    pub fn new() -> (r: Self)
        ensures
            r@ == Seq::<Region>::empty(),
    {
        Bus { regions: Vec::new() }
    }

    /// Maps `size` addresses from `base` on to `device`. Whatever mapping the
    /// device had is replaced. A mapping that would share an address with
    /// another device's is refused: the device is then left with none, and
    /// the other one keeps working.
    pub fn register(&mut self, base: u64, size: u64, device: SharedDevice, irq: Option<u32>)
        ensures
            final(self)@ == registered(old(self)@, base, size, device, irq),
            regions_wf(final(self)@),
    {
        proof {
            use_type_invariant(&*self);
            lemma_registered(self@, base, size, device, irq);
            lemma_without(self@, device);
        }
        self.unregister(device);
        if size == 0 {
            return;
        }
        let last: u64 = base.saturating_add(size - 1);
        let r = Region { base, last, device, irq };
        let mut i: usize = 0;
        while i < self.regions.len()
            invariant
                i <= self.regions@.len(),
                self.regions@ == without(old(self)@, device),
                r == region_of(base, size, device, irq),
                r.base == base,
                r.last == last,
                regions_wf(self.regions@),
                size != 0,
                forall|k: int| 0 <= k < i ==> !(#[trigger] self.regions@[k]).overlaps(r),
            decreases self.regions@.len() - i,
        {
            let c: Region = self.regions[i];
            if base <= c.last && c.base <= last {
                assert(self.regions@[i as int].overlaps(r));
                return;
            }
            i += 1;
        }
        let mut regions: Vec<Region> = Vec::new();
        core::mem::swap(&mut regions, &mut self.regions);
        regions.push(r);
        self.regions = regions;
    }

    /// Drops the mapping of `device`, if it has one.
    pub fn unregister(&mut self, device: SharedDevice)
        ensures
            final(self)@ == without(old(self)@, device),
            regions_wf(final(self)@),
    {
        proof {
            use_type_invariant(&*self);
            lemma_without(self@, device);
        }
        let mut kept: Vec<Region> = Vec::new();
        let mut i: usize = 0;
        assert(self.regions@.take(0) =~= seq![]);
        while i < self.regions.len()
            invariant
                i <= self.regions@.len(),
                self.regions@ == old(self)@,
                kept@ == without(self.regions@.take(i as int), device),
            decreases self.regions@.len() - i,
        {
            let r: Region = self.regions[i];
            assert(self.regions@.take(i as int + 1).drop_last() =~= self.regions@.take(i as int));
            if r.device != device {
                kept.push(r);
            }
            i += 1;
        }
        assert(self.regions@.take(i as int) =~= old(self)@);
        self.regions = kept;
    }

    fn find(&self, addr: u64) -> (r: Option<usize>)
        ensures
            match r {
                Some(i) => i < self@.len() && self@[i as int].covers(addr),
                None => !mapped(self@, addr),
            },
    {
        let mut i: usize = 0;
        while i < self.regions.len()
            invariant
                i <= self.regions@.len(),
                forall|k: int| 0 <= k < i ==> !(#[trigger] self.regions@[k]).covers(addr),
            decreases self.regions@.len() - i,
        {
            if self.regions[i].contains(addr) {
                return Some(i);
            }
            i += 1;
        }
        None
    }

    /// The device that covers `addr`, the offset of `addr` within it and its
    /// interrupt, without calling into it.
    pub fn find_device(&self, addr: u64) -> (r: Option<(SharedDevice, u64, Option<u32>)>)
        ensures
            match r {
                Some((device, offset, irq)) => answers(self@, addr, device, offset, irq),
                None => !mapped(self@, addr),
            },
            regions_wf(self@),
    {
        proof {
            use_type_invariant(self);
        }
        match self.find(addr) {
            Some(i) => {
                let r: Region = self.regions[i];
                Some((r.device, addr - r.base, r.irq))
            },
            None => None,
        }
    }

    /// Reads from the device that covers `addr`, if one does, out of the
    /// machine's `devices`. The other devices are left alone.
    pub fn read<D: Device>(&self, devices: &mut Vec<D>, addr: u64, data: &mut [u8]) -> (r: bool)
        requires
            forall|i: int| 0 <= i < self@.len() ==> (#[trigger] self@[i]).device.id < old(devices)@.len(),
        ensures
            r == mapped(self@, addr),
            !r ==> final(devices)@ == old(devices)@ && final(data)@ == old(data)@,
            r ==> exists|device: SharedDevice, offset: u64, irq: Option<u32>|
                #[trigger] answers(self@, addr, device, offset, irq)
                && D::reads(old(devices)@[device.id as int], final(devices)@[device.id as int], offset, old(data)@, final(data)@)
                && final(devices)@ == old(devices)@.update(device.id as int, final(devices)@[device.id as int]),
    {
        match self.find_device(addr) {
            Some((device, offset, irq)) => {
                let ghost i = choose|i: int| 0 <= i < self@.len() && (#[trigger] self@[i]).covers(addr) && self@[i].device == device && self@[i].irq == irq && offset == addr - self@[i].base;
                assert(self@[i].device.id < devices@.len());
                let dev = &mut devices[device.id];
                dev.read(offset, data);
                assert(devices@ =~= old(devices)@.update(device.id as int, devices@[device.id as int]));
                assert(answers(self@, addr, device, offset, irq));
                true
            },
            None => false,
        }
    }

    /// Writes to the device that covers `addr`, out of the machine's
    /// `devices`. `None` if there is none; otherwise the interrupt to raise,
    /// if the device asked for one and has one configured.
    pub fn write<D: Device>(&self, devices: &mut Vec<D>, addr: u64, data: &[u8]) -> (r: Option<Option<u32>>)
        requires
            forall|i: int| 0 <= i < self@.len() ==> (#[trigger] self@[i]).device.id < old(devices)@.len(),
        ensures
            r is Some == mapped(self@, addr),
            r is None ==> final(devices)@ == old(devices)@,
            r matches Some(raised) ==> exists|device: SharedDevice, offset: u64, irq: Option<u32>, wants: bool|
                #[trigger] answers(self@, addr, device, offset, irq)
                && #[trigger] D::writes(old(devices)@[device.id as int], final(devices)@[device.id as int], offset, data@, wants)
                && final(devices)@ == old(devices)@.update(device.id as int, final(devices)@[device.id as int])
                && raised == (if wants { irq } else { None }),
    {
        match self.find_device(addr) {
            Some((device, offset, irq)) => {
                let ghost i = choose|i: int| 0 <= i < self@.len() && (#[trigger] self@[i]).covers(addr) && self@[i].device == device && self@[i].irq == irq && offset == addr - self@[i].base;
                assert(self@[i].device.id < devices@.len());
                let dev = &mut devices[device.id];
                let wants = dev.write(offset, data);
                assert(devices@ =~= old(devices)@.update(device.id as int, devices@[device.id as int]));
                assert(answers(self@, addr, device, offset, irq));
                if wants {
                    Some(irq)
                } else {
                    Some(None)
                }
            },
            None => None,
        }
    }
}

/// At most one device answers at an address, always at the same offset and
/// with the same interrupt.
pub proof fn law_one_answer(
    s: Seq<Region>,
    addr: u64,
    d1: SharedDevice,
    o1: u64,
    i1: Option<u32>,
    d2: SharedDevice,
    o2: u64,
    i2: Option<u32>,
)
    requires
        regions_wf(s),
        answers(s, addr, d1, o1, i1),
        answers(s, addr, d2, o2, i2),
    ensures
        d1 == d2,
        o1 == o2,
        i1 == i2,
{
    let a = choose|i: int| 0 <= i < s.len() && (#[trigger] s[i]).covers(addr) && s[i].device == d1 && s[i].irq == i1 && o1 == addr - s[i].base;
    let b = choose|i: int| 0 <= i < s.len() && (#[trigger] s[i]).covers(addr) && s[i].device == d2 && s[i].irq == i2 && o2 == addr - s[i].base;
    if a < b {
        assert(!s[a].overlaps(s[b]));
    } else if b < a {
        assert(!s[b].overlaps(s[a]));
    }
}

/// A mapping that clashes with no other device's answers at every address it
/// covers, the last address of the address space included.
pub proof fn law_registered_answers(
    s: Seq<Region>,
    base: u64,
    size: u64,
    device: SharedDevice,
    irq: Option<u32>,
    addr: u64,
)
    requires
        regions_wf(s),
        size != 0,
        !clashes(without(s, device), region_of(base, size, device, irq)),
        base <= addr < base + size,
    ensures
        answers(registered(s, base, size, device, irq), addr, device, (addr - base) as u64, irq),
{
    let t = registered(s, base, size, device, irq);
    assert(t[t.len() - 1] == region_of(base, size, device, irq));
    assert(t[t.len() - 1].covers(addr));
}

/// Mapping or unmapping one device never changes what another answers.
pub proof fn law_others_keep_answering(
    s: Seq<Region>,
    base: u64,
    size: u64,
    device: SharedDevice,
    irq: Option<u32>,
    addr: u64,
    other: SharedDevice,
    offset: u64,
    other_irq: Option<u32>,
)
    requires
        regions_wf(s),
        other != device,
        answers(s, addr, other, offset, other_irq),
    ensures
        answers(registered(s, base, size, device, irq), addr, other, offset, other_irq),
        answers(without(s, device), addr, other, offset, other_irq),
{
    lemma_without(s, device);
    let i = choose|i: int| 0 <= i < s.len() && (#[trigger] s[i]).covers(addr) && s[i].device == other && s[i].irq == other_irq && offset == addr - s[i].base;
    let rest = without(s, device);
    let k = choose|k: int| 0 <= k < rest.len() && rest[k] == s[i];
    assert(rest[k].covers(addr));
    let t = registered(s, base, size, device, irq);
    assert(t[k] == rest[k]);
}

/// A device that was unmapped answers nowhere.
pub proof fn law_unregistered_answers_nowhere(
    s: Seq<Region>,
    device: SharedDevice,
    addr: u64,
    offset: u64,
    irq: Option<u32>,
)
    ensures
        !answers(without(s, device), addr, device, offset, irq),
{
    lemma_without(s, device);
}

/// Mapping a device again moves it: it answers only inside the new mapping.
pub proof fn law_re_registering_moves(
    s: Seq<Region>,
    base: u64,
    size: u64,
    device: SharedDevice,
    irq: Option<u32>,
    addr: u64,
    offset: u64,
    any_irq: Option<u32>,
)
    requires
        answers(registered(s, base, size, device, irq), addr, device, offset, any_irq),
    ensures
        base <= addr < base + size,
        offset == addr - base,
        any_irq == irq,
{
    lemma_without(s, device);
}

} // verus!
