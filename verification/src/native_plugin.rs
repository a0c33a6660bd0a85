//! Native plugins: what is made of the version and the identity that a shared
//! object reports, and what it may do with guest memory. Loading it is the
//! caller's.

use vstd::prelude::*;
use vstd::string::*;

use crate::bytes::splice;
use crate::device::{dma_allowed, dma_range_allows, PLUGIN_API_MIN_SUPPORTED, PLUGIN_API_VERSION};
use crate::mem::GuestMemory;
use crate::plugin::{is_inert, PluginIdentity};
use crate::pydevice_proc::{mask_bit, mask_flags};
use crate::text::{cat4, dec, dec_string};

verus! {

/// The identity that a native plugin fills in.
#[derive(Clone, Copy, Debug)]
pub struct NativeIdentity {
    pub vendor_id: u16,
    pub device_id: u16,
    pub class_code: u32,
    pub bar_sizes: [u32; 6],
    /// Bit `i` is set if BAR `i` is in I/O space.
    pub io_bars_mask: u8,
    pub interrupt_line: u8,
    pub msi_capable: u8,
}

/// Whether `i` is the identity of a plugin that is on the PCI bus or not, and
/// that reported `n` or nothing.
pub open spec fn is_native_identity(i: PluginIdentity, want_pci: bool, reported: Option<NativeIdentity>) -> bool {
    match reported {
        Some(n) if want_pci => {
            &&& i.vendor_id == n.vendor_id
            &&& i.device_id == n.device_id
            &&& i.class_code == n.class_code
            &&& i.bar_sizes == n.bar_sizes
            &&& forall|k: int| 0 <= k < 6 ==> #[trigger] i.bar_is_io@[k] == mask_bit(n.io_bars_mask, k)
            &&& i.interrupt_line == n.interrupt_line
            &&& i.msi_capable == (n.msi_capable != 0)
        },
        _ => is_inert(i),
    }
}

/// The identity of a plugin that reported `reported`.
pub fn native_identity(want_pci: bool, reported: Option<NativeIdentity>) -> (r: PluginIdentity)
    ensures
        is_native_identity(r, want_pci, reported),
{
    if !want_pci {
        return PluginIdentity::default();
    }
    match reported {
        None => PluginIdentity::default(),
        Some(n) => PluginIdentity {
            vendor_id: n.vendor_id,
            device_id: n.device_id,
            class_code: n.class_code,
            bar_sizes: n.bar_sizes,
            bar_is_io: mask_flags(n.io_bars_mask),
            interrupt_line: n.interrupt_line,
            msi_capable: n.msi_capable != 0,
        },
    }
}

/// Whether a plugin that declares `declared` can be loaded.
pub fn check_abi_version(path: &str, declared: u32) -> (r: Result<(), String>)
    ensures
        match r {
            Ok(_) => PLUGIN_API_MIN_SUPPORTED <= declared <= PLUGIN_API_VERSION,
            Err(e) => {
                &&& !(PLUGIN_API_MIN_SUPPORTED <= declared <= PLUGIN_API_VERSION)
                &&& e@ == path@ + " declares hyperbug_plugin_abi_version="@ + dec(declared as nat)
                    + ", but this hyperbug build supports the range [1, 1]"@
            },
        },
{
    if crate::device::api_version_supported(declared) {
        return Ok(());
    }
    let n = dec_string(declared as u64);
    Err(
        cat4(
            path,
            " declares hyperbug_plugin_abi_version=",
            n.as_str(),
            ", but this hyperbug build supports the range [1, 1]",
        ),
    )
}

/// The bytes that a plugin reads from guest memory; none if it may not.
pub fn host_read_mem(mem: &GuestMemory, dma_range: Option<(u64, u64)>, addr: u64, size: u64) -> (r: Option<Vec<u8>>)
    ensures
        match r {
            Some(v) => {
                &&& dma_allowed(dma_range, addr as int, size as int)
                &&& addr + size <= mem@.len()
                &&& v@ == mem@.subrange(addr as int, addr + size)
            },
            None => !dma_allowed(dma_range, addr as int, size as int) || addr + size > mem@.len(),
        },
{
    if !dma_range_allows(dma_range, addr, size) {
        return None;
    }
    mem.read_vec(addr, size)
}

/// Writes for a plugin into guest memory. `false`, with nothing written, if it
/// may not.
pub fn host_write_mem(mem: &mut GuestMemory, dma_range: Option<(u64, u64)>, addr: u64, data: &[u8]) -> (r: bool)
    ensures
        r == (dma_allowed(dma_range, addr as int, data@.len() as int) && addr + data@.len()
            <= old(mem)@.len()),
        final(mem)@ == (if r { splice(old(mem)@, addr as int, data@) } else { old(mem)@ }),
{
    if !dma_range_allows(dma_range, addr, data.len() as u64) {
        return false;
    }
    mem.write_checked(addr, data)
}

/// A native plugin on the PCI bus is what it reports, field by field, with one
/// bit of its mask for each BAR in I/O space. One that is not on the bus, or
/// that reports nothing, is inert.
pub proof fn law_native_identity_is_taken_over(
    i: PluginIdentity,
    want_pci: bool,
    reported: Option<NativeIdentity>,
    k: int,
)
    requires
        is_native_identity(i, want_pci, reported),
        0 <= k < 6,
    ensures
        want_pci && reported is Some ==> {
            let n = reported->0;
            let m = n.io_bars_mask as int;
            &&& i.vendor_id == n.vendor_id
            &&& i.device_id == n.device_id
            &&& i.class_code == n.class_code
            &&& i.bar_sizes@[k] == n.bar_sizes@[k]
            &&& i.bar_is_io@[k] <==> (k == 0 && m % 2 == 1) || (k == 1 && m / 2 % 2 == 1) || (k == 2 && m / 4 % 2 == 1)
                || (k == 3 && m / 8 % 2 == 1) || (k == 4 && m / 16 % 2 == 1) || (k == 5 && m / 32 % 2 == 1)
            &&& i.interrupt_line == n.interrupt_line
            &&& i.msi_capable <==> n.msi_capable != 0
        },
        !want_pci || reported is None ==> i.vendor_id == 0 && i.device_id == 0 && i.class_code == 0 && i.bar_sizes@[k]
            == 0 && !i.bar_is_io@[k] && i.interrupt_line == 0 && !i.msi_capable,
{
    if want_pci && reported is Some {
        let n = reported->0;
        crate::pydevice_proc::law_mask_bits(n.io_bars_mask);
        assert(i.bar_is_io@[k] == mask_bit(n.io_bars_mask, k));
    }
}

/// A native plugin that reads guest memory gets the bytes at the address that
/// it asked for, if all of them are in guest memory and in its range, and
/// nothing otherwise.
pub proof fn law_native_reads(mem: &GuestMemory, dma_range: Option<(u64, u64)>, addr: u64, size: u64, r: Option<Vec<u8>>, k: int)
    requires
        call_ensures(host_read_mem, (mem, dma_range, addr, size), r),
    ensures
        ({
            let in_range = match dma_range {
                None => true,
                Some((base, len)) => base + len <= u64::MAX && base <= addr && addr + size <= base + len,
            };
            match r {
                Some(v) => {
                    &&& in_range
                    &&& addr + size <= mem@.len()
                    &&& v@.len() == size
                    &&& 0 <= k < size ==> v@[k] == mem@[addr + k]
                },
                None => !in_range || addr + size > mem@.len(),
            }
        }),
{
}

/// A native plugin that writes guest memory changes the bytes at the address
/// that it named, under the same conditions, and no others.
pub proof fn law_native_writes(mem: &mut GuestMemory, dma_range: Option<(u64, u64)>, addr: u64, data: &[u8], r: bool, i: int)
    requires
        call_ensures(host_write_mem, (mem, dma_range, addr, data), r),
        0 <= i < old(mem)@.len(),
    ensures
        final(mem)@.len() == old(mem)@.len(),
        final(mem)@[i] == (if r && addr <= i < addr + data@.len() { data@[i - addr] } else { old(mem)@[i] }),
{
}

/// A native plugin is refused if and only if it declares a version of the
/// interface other than the one that there is.
pub proof fn law_native_versions(path: &str, declared: u32, r: Result<(), String>)
    requires
        call_ensures(check_abi_version, (path, declared), r),
    ensures
        r is Ok <==> declared == 1,
{
}

} // verus!
