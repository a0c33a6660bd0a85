//! In-process Python plugins: what is made of a plugin's attributes, and what
//! a plugin may do with guest memory. The interpreter is the caller's.

use vstd::prelude::*;
use vstd::string::*;

use crate::bytes::splice;
use crate::device::{dma_allowed, dma_range_allows, PLUGIN_API_MIN_SUPPORTED, PLUGIN_API_VERSION};
use crate::logging::Level;
use crate::mem::GuestMemory;
use crate::plugin::PluginIdentity;
use crate::text::{cat2, cat3, cat4, cat5, dec, dec_string, hex0x, hex0x_string};

verus! {

/// The attributes of a PCI plugin. One that every plugin must have is an error
/// where it is absent or of the wrong type, in the interpreter's words.
pub struct PluginAttributes {
    pub vendor_id: Result<u32, String>,
    pub device_id: Result<u32, String>,
    pub class_code: Result<u32, String>,
    pub bar_sizes: Result<Vec<u32>, String>,
    /// The BARs that are in I/O space. `None` where the attribute is absent,
    /// an error where it is of the wrong type.
    pub io_bars: Option<Result<Vec<usize>, String>>,
    /// `None` where the attribute is absent or of the wrong type.
    pub interrupt_line: Option<u8>,
    /// `None` where the attribute is absent or of the wrong type.
    pub msi_capable: Option<bool>,
}

/// An attribute that counts as 0 where there is none.
pub open spec fn or_zero(a: Result<u32, String>) -> u32 {
    match a {
        Ok(v) => v,
        Err(_) => 0,
    }
}

/// Whether `i` is the identity that the attributes give. The IDs are cut to 16
/// bits. BARs past the sixth, in either list, do not exist.
pub open spec fn is_identity_from(i: PluginIdentity, a: PluginAttributes) -> bool {
    &&& i.vendor_id == or_zero(a.vendor_id) % 0x1_0000
    &&& i.device_id == or_zero(a.device_id) % 0x1_0000
    &&& i.class_code == or_zero(a.class_code)
    &&& forall|k: int|
        0 <= k < 6 ==> #[trigger] i.bar_sizes@[k] == (match a.bar_sizes {
            Ok(v) => if k < v@.len() { v@[k] } else { 0u32 },
            Err(_) => 0u32,
        })
    &&& forall|k: int|
        0 <= k < 6 ==> #[trigger] i.bar_is_io@[k] == (match a.io_bars {
            Some(Ok(v)) => v@.contains(k as usize),
            _ => false,
        })
    &&& i.interrupt_line == (match a.interrupt_line {
        Some(v) => v,
        None => 0u8,
    })
    &&& i.msi_capable == (a.msi_capable == Some(true))
}

fn zero_or(a: &Result<u32, String>) -> (r: u32)
    ensures
        r == or_zero(*a),
{
    match a {
        Ok(v) => *v,
        Err(_) => 0,
    }
}

/// A log line as a value: its level and its text.
pub type Line = (Level, Seq<char>);

/// Log lines as values.
pub open spec fn lines(v: Seq<(Level, String)>) -> Seq<Line> {
    v.map_values(|l: (Level, String)| (l.0, l.1@))
}

/// What is logged of an attribute that every plugin must have, and that this
/// one has or has not.
pub open spec fn missing_lines<T>(a: Result<T, String>, name: Seq<char>) -> Seq<Line> {
    match a {
        Ok(_) => seq![],
        Err(e) => seq![(Level::Error, "python PCI device missing/invalid `"@ + name + "`: "@ + e@)],
    }
}

/// What is logged of the BARs' sizes: that there are too many, or none.
pub open spec fn bar_sizes_lines(a: Result<Vec<u32>, String>) -> Seq<Line> {
    match a {
        Ok(v) if v@.len() > 6 => seq![
            (
                Level::Warn,
                "python PCI device's `bar_sizes` has "@ + dec(v@.len()) + " entries, only 6 BARs exist; truncating"@,
            ),
        ],
        _ => missing_lines(a, "bar_sizes"@),
    }
}

/// What is logged of a list of BARs: one line for each entry that is no BAR.
pub open spec fn unknown_bar_lines(bars: Seq<usize>) -> Seq<Line>
    decreases bars.len(),
{
    if bars.len() == 0 {
        seq![]
    } else if bars.last() >= 6 {
        unknown_bar_lines(bars.drop_last()).push(
            (
                Level::Warn,
                "python PCI device's `io_bars` names BAR "@ + dec(bars.last() as nat) + ", which doesn't exist"@,
            ),
        )
    } else {
        unknown_bar_lines(bars.drop_last())
    }
}

/// What is logged of the BARs in I/O space. Where the attribute is absent,
/// there are none, and nothing to say.
pub open spec fn io_bars_lines(a: Option<Result<Vec<usize>, String>>) -> Seq<Line> {
    match a {
        None => seq![],
        Some(Ok(v)) => unknown_bar_lines(v@),
        Some(Err(e)) => seq![(Level::Error, "python PCI device's `io_bars` must be a list of ints: "@ + e@)],
    }
}

/// All that is logged while an identity is made of the attributes.
pub open spec fn snapshot_lines(a: PluginAttributes) -> Seq<Line> {
    bar_sizes_lines(a.bar_sizes) + io_bars_lines(a.io_bars) + missing_lines(a.vendor_id, "vendor_id"@)
        + missing_lines(a.device_id, "device_id"@) + missing_lines(a.class_code, "class_code"@)
}

fn push_line(out: &mut Vec<(Level, String)>, level: Level, text: String)
    ensures
        lines(final(out)@) == lines(old(out)@).push((level, text@)),
{
    out.push((level, text));
    assert(lines(out@) =~= lines(old(out)@).push((level, text@)));
}

fn push_missing<T>(out: &mut Vec<(Level, String)>, a: &Result<T, String>, name: &str)
    ensures
        lines(final(out)@) == lines(old(out)@) + missing_lines(*a, name@),
{
    if let Err(e) = a {
        push_line(out, Level::Error, cat4("python PCI device missing/invalid `", name, "`: ", e.as_str()));
    }
    assert(lines(out@) =~= lines(old(out)@) + missing_lines(*a, name@));
}

fn push_unknown_bars(out: &mut Vec<(Level, String)>, bars: &Vec<usize>)
    ensures
        lines(final(out)@) == lines(old(out)@) + unknown_bar_lines(bars@),
{
    let mut i: usize = 0;
    assert(lines(out@) =~= lines(old(out)@) + unknown_bar_lines(bars@.take(0)));
    while i < bars.len()
        invariant
            i <= bars@.len(),
            lines(out@) == lines(old(out)@) + unknown_bar_lines(bars@.take(i as int)),
        decreases bars@.len() - i,
    {
        let b: usize = bars[i];
        assert(bars@.take(i + 1).drop_last() =~= bars@.take(i as int));
        if b >= 6 {
            let n = dec_string(b as u64);
            push_line(
                out,
                Level::Warn,
                cat3("python PCI device's `io_bars` names BAR ", n.as_str(), ", which doesn't exist"),
            );
        }
        assert(lines(out@) =~= lines(old(out)@) + unknown_bar_lines(bars@.take(i + 1)));
        i += 1;
    }
    assert(bars@.take(i as int) =~= bars@);
}

impl PluginIdentity {
    /// The identity that a plugin's attributes give.
    pub fn snapshot(a: &PluginAttributes) -> (r: Self)
        ensures
            is_identity_from(r, *a),
    {
        let mut bar_sizes: [u32; 6] = [0, 0, 0, 0, 0, 0];
        if let Ok(sizes) = &a.bar_sizes {
            let mut i: usize = 0;
            while i < 6 && i < sizes.len()
                invariant
                    i <= 6,
                    i <= sizes@.len(),
                    forall|k: int|
                        0 <= k < 6 ==> #[trigger] bar_sizes@[k] == (if k < i { sizes@[k] } else { 0u32 }),
                decreases 6 - i,
            {
                bar_sizes[i] = sizes[i];
                i += 1;
            }
        }
        let mut bar_is_io: [bool; 6] = [false, false, false, false, false, false];
        if let Some(Ok(bars)) = &a.io_bars {
            let mut i: usize = 0;
            while i < bars.len()
                invariant
                    i <= bars@.len(),
                    forall|k: int|
                        0 <= k < 6 ==> #[trigger] bar_is_io@[k] == bars@.take(i as int).contains(k as usize),
                decreases bars@.len() - i,
            {
                let b: usize = bars[i];
                let ghost before = bar_is_io@;
                if b < 6 {
                    bar_is_io[b] = true;
                }
                proof {
                    let t = bars@.take(i as int + 1);
                    let u = bars@.take(i as int);
                    assert(t[i as int] == b);
                    assert forall|k: int| 0 <= k < 6 implies #[trigger] bar_is_io@[k] == t.contains(k as usize) by {
                        assert(before[k] == u.contains(k as usize));
                        if t.contains(k as usize) && k != b {
                            let m = choose|m: int| 0 <= m < t.len() && t[m] == k as usize;
                            assert(u[m] == k as usize);
                        }
                        if u.contains(k as usize) {
                            let m = choose|m: int| 0 <= m < u.len() && u[m] == k as usize;
                            assert(t[m] == k as usize);
                        }
                    }
                }
                i += 1;
            }
            assert(bars@.take(i as int) =~= bars@);
        }
        PluginIdentity {
            vendor_id: (zero_or(&a.vendor_id) % 0x1_0000) as u16,
            device_id: (zero_or(&a.device_id) % 0x1_0000) as u16,
            class_code: zero_or(&a.class_code),
            bar_sizes,
            bar_is_io,
            interrupt_line: match a.interrupt_line {
                Some(v) => v,
                None => 0,
            },
            msi_capable: match a.msi_capable {
                Some(b) => b,
                None => false,
            },
        }
    }

    /// What is to be logged of a plugin's attributes: what is missing, and
    /// what names a BAR that does not exist, in the order in which it is found.
    pub fn snapshot_log(a: &PluginAttributes) -> (r: Vec<(Level, String)>)
        ensures
            lines(r@) == snapshot_lines(*a),
    {
        let mut out: Vec<(Level, String)> = Vec::new();
        assert(lines(out@) =~= seq![]);
        match &a.bar_sizes {
            Ok(v) => if v.len() > 6 {
                let n = dec_string(v.len() as u64);
                push_line(
                    &mut out,
                    Level::Warn,
                    cat3(
                        "python PCI device's `bar_sizes` has ",
                        n.as_str(),
                        " entries, only 6 BARs exist; truncating",
                    ),
                );
            },
            Err(_) => push_missing(&mut out, &a.bar_sizes, "bar_sizes"),
        }
        assert(lines(out@) =~= bar_sizes_lines(a.bar_sizes));
        match &a.io_bars {
            None => {},
            Some(Ok(bars)) => push_unknown_bars(&mut out, bars),
            Some(Err(e)) => push_line(
                &mut out,
                Level::Error,
                cat2("python PCI device's `io_bars` must be a list of ints: ", e.as_str()),
            ),
        }
        assert(lines(out@) =~= bar_sizes_lines(a.bar_sizes) + io_bars_lines(a.io_bars));
        push_missing(&mut out, &a.vendor_id, "vendor_id");
        push_missing(&mut out, &a.device_id, "device_id");
        push_missing(&mut out, &a.class_code, "class_code");
        out
    }
}

/// How a message names a read.
pub open spec fn read_name(addr: u64, size: nat) -> Seq<char> {
    "read_mem("@ + hex0x(addr as nat) + ", "@ + dec(size) + ")"@
}

/// How a message names a write.
pub open spec fn write_name(addr: u64, len: nat) -> Seq<char> {
    "write_mem("@ + hex0x(addr as nat) + ", "@ + dec(len) + " bytes)"@
}

/// What a plugin confined to `dma_range` reads from guest memory.
pub fn read_mem(mem: &GuestMemory, dma_range: Option<(u64, u64)>, addr: u64, size: u64) -> (r: Result<Vec<u8>, String>)
    ensures
        if !dma_allowed(dma_range, addr as int, size as int) {
            r matches Err(e) && e@ == read_name(addr, size as nat)
                + " is outside this device's declared DMA range"@
        } else if addr + size > mem@.len() {
            r matches Err(e) && e@ == read_name(addr, size as nat) + " is out of bounds"@
        } else {
            r matches Ok(v) && v@ == mem@.subrange(addr as int, addr + size)
        },
{
    let allowed = dma_range_allows(dma_range, addr, size);
    if allowed {
        if let Some(v) = mem.read_vec(addr, size) {
            return Ok(v);
        }
    }
    let a = hex0x_string(addr);
    let n = dec_string(size);
    let name = cat5("read_mem(", a.as_str(), ", ", n.as_str(), ")");
    if allowed {
        Err(cat2(name.as_str(), " is out of bounds"))
    } else {
        Err(cat2(name.as_str(), " is outside this device's declared DMA range"))
    }
}

/// Writes `data` into guest memory for a plugin confined to `dma_range`. A
/// write that is refused changes nothing.
pub fn write_mem(mem: &mut GuestMemory, dma_range: Option<(u64, u64)>, addr: u64, data: &[u8]) -> (r: Result<(), String>)
    ensures
        if !dma_allowed(dma_range, addr as int, data@.len() as int) {
            &&& r matches Err(e) && e@ == write_name(addr, data@.len())
                + " is outside this device's declared DMA range"@
            &&& final(mem)@ == old(mem)@
        } else if addr + data@.len() > old(mem)@.len() {
            &&& r matches Err(e) && e@ == write_name(addr, data@.len()) + " is out of bounds"@
            &&& final(mem)@ == old(mem)@
        } else {
            r is Ok && final(mem)@ == splice(old(mem)@, addr as int, data@)
        },
{
    let allowed = dma_range_allows(dma_range, addr, data.len() as u64);
    if allowed {
        if mem.write_checked(addr, data) {
            return Ok(());
        }
    }
    let a = hex0x_string(addr);
    let n = dec_string(data.len() as u64);
    let name = cat5("write_mem(", a.as_str(), ", ", n.as_str(), " bytes)");
    if allowed {
        Err(cat2(name.as_str(), " is out of bounds"))
    } else {
        Err(cat2(name.as_str(), " is outside this device's declared DMA range"))
    }
}

/// Why a plugin that declares a version cannot be loaded, if it cannot.
pub open spec fn version_error(path: Seq<char>, declared: Option<u32>) -> Option<Seq<char>> {
    match declared {
        None => None,
        Some(d) => if d > PLUGIN_API_VERSION {
            Some(
                path + " declares hyperbug_api_version="@ + dec(d as nat)
                    + ", but this hyperbug build only implements up to version 1 — this plugin needs a newer hyperbug"@,
            )
        } else if d < PLUGIN_API_MIN_SUPPORTED {
            Some(
                path + " declares hyperbug_api_version="@ + dec(d as nat)
                    + ", but this hyperbug build no longer supports anything older than version 1 — the plugin needs updating for a breaking ABI change"@,
            )
        } else {
            None
        },
    }
}

/// Whether a plugin can be loaded. One that declares no version can.
pub fn check_api_version(declared: Option<u32>, path: &str) -> (r: Result<(), String>)
    ensures
        match r {
            Ok(_) => version_error(path@, declared) is None,
            Err(e) => version_error(path@, declared) == Some(e@),
        },
{
    let d: u32 = match declared {
        Some(d) => d,
        None => {
            return Ok(());
        },
    };
    let n = dec_string(d as u64);
    if d > PLUGIN_API_VERSION {
        return Err(
            cat4(
                path,
                " declares hyperbug_api_version=",
                n.as_str(),
                ", but this hyperbug build only implements up to version 1 — this plugin needs a newer hyperbug",
            ),
        );
    }
    if d < PLUGIN_API_MIN_SUPPORTED {
        return Err(
            cat4(
                path,
                " declares hyperbug_api_version=",
                n.as_str(),
                ", but this hyperbug build no longer supports anything older than version 1 — the plugin needs updating for a breaking ABI change",
            ),
        );
    }
    Ok(())
}

/// Takes what a plugin's `read` returned into `data`. A result of another
/// length is copied as far as it goes, and is an error.
pub fn take_read_result(result: &[u8], data: &mut [u8]) -> (r: Result<(), String>)
    ensures
        final(data)@.len() == old(data)@.len(),
        forall|k: int|
            0 <= k < final(data)@.len() ==> #[trigger] final(data)@[k] == (if k < result@.len() {
                result@[k]
            } else {
                old(data)@[k]
            }),
        match r {
            Ok(_) => result@.len() == old(data)@.len(),
            Err(e) => result@.len() != old(data)@.len() && e@ == "python device read() returned "@ + dec(
                result@.len(),
            ) + " bytes, expected "@ + dec(old(data)@.len()),
        },
{
    let mut i: usize = 0;
    while i < result.len() && i < data.len()
        invariant
            i <= result@.len(),
            i <= data@.len(),
            data@.len() == old(data)@.len(),
            forall|k: int|
                0 <= k < data@.len() ==> #[trigger] data@[k] == (if k < i { result@[k] } else {
                    old(data)@[k]
                }),
        decreases data@.len() - i,
    {
        data[i] = result[i];
        i += 1;
    }
    if result.len() != data.len() {
        let a = dec_string(result.len() as u64);
        let b = dec_string(data.len() as u64);
        return Err(cat4("python device read() returned ", a.as_str(), " bytes, expected ", b.as_str()));
    }
    Ok(())
}

/// The name of the module that the plugin number `id` is loaded as.
pub fn module_name(prefix: &str, id: u64) -> (r: String)
    ensures
        r@ == prefix@ + "_"@ + dec(id as nat),
{
    let n = dec_string(id);
    cat3(prefix, "_", n.as_str())
}

/// Whether a GPIO bank can have `ngpio` lines with `names` names.
pub fn check_gpio_bank(path: &str, ngpio: u16, names: usize) -> (r: Result<(), String>)
    ensures
        if ngpio == 0 {
            r matches Err(e) && e@ == path@ + "'s ngpio can't be zero"@
        } else if names != 0 && names != ngpio {
            r matches Err(e) && e@ == path@ + ": `names` has "@ + dec(names as nat)
                + " entries but `ngpio` is "@ + (dec(ngpio as nat)
                + " — must match exactly, or be omitted entirely"@)
        } else {
            r is Ok
        },
{
    if ngpio == 0 {
        return Err(cat2(path, "'s ngpio can't be zero"));
    }
    if names != 0 && names != ngpio as usize {
        let a = dec_string(names as u64);
        let b = dec_string(ngpio as u64);
        let tail = cat2(b.as_str(), " — must match exactly, or be omitted entirely");
        return Err(cat5(path, ": `names` has ", a.as_str(), " entries but `ngpio` is ", tail.as_str()));
    }
    Ok(())
}

/// Every attribute of a plugin shows in its identity: the IDs in their 16 bits,
/// the class, the first six BAR sizes each at its place, I/O space for exactly
/// the BARs that were named, the interrupt line and the MSI flag. What is
/// missing counts as zero.
pub proof fn law_identity_shows_every_attribute(i: PluginIdentity, a: PluginAttributes, k: int)
    requires
        is_identity_from(i, a),
        0 <= k < 6,
    ensures
        a.vendor_id matches Ok(v) ==> (v < 0x1_0000 ==> i.vendor_id == v) && i.vendor_id == v % 0x1_0000,
        a.device_id matches Ok(v) ==> (v < 0x1_0000 ==> i.device_id == v) && i.device_id == v % 0x1_0000,
        a.class_code matches Ok(v) ==> i.class_code == v,
        a.vendor_id is Err ==> i.vendor_id == 0,
        a.device_id is Err ==> i.device_id == 0,
        a.class_code is Err ==> i.class_code == 0,
        a.bar_sizes matches Ok(v) ==> i.bar_sizes@[k] == (if k < v@.len() { v@[k] } else { 0u32 }),
        a.bar_sizes is Err ==> i.bar_sizes@[k] == 0,
        i.bar_is_io@[k] <==> (a.io_bars matches Some(Ok(v)) && exists|n: int| 0 <= n < v@.len() && #[trigger] v@[n] == k),
        i.interrupt_line == (match a.interrupt_line {
            Some(l) => l,
            None => 0u8,
        }),
        i.msi_capable <==> a.msi_capable == Some(true),
{
    if let Some(Ok(v)) = a.io_bars {
        if v@.contains(k as usize) {
            let n = choose|n: int| 0 <= n < v@.len() && v@[n] == k as usize;
            assert(v@[n] == k);
        }
    }
}

/// Nothing is logged of attributes that are all as they should be, and
/// something of all others; each of the four that are required is complained
/// of if it is missing, and each BAR that does not exist.
pub proof fn law_complaints(a: PluginAttributes, bars: Seq<usize>, more: Seq<usize>, b: usize)
    ensures
        snapshot_lines(a).len() == 0 <==> {
            &&& a.vendor_id is Ok
            &&& a.device_id is Ok
            &&& a.class_code is Ok
            &&& a.bar_sizes matches Ok(v) && v@.len() <= 6
            &&& match a.io_bars {
                None => true,
                Some(Ok(v)) => unknown_bar_lines(v@).len() == 0,
                Some(Err(_)) => false,
            }
        },
        unknown_bar_lines(bars + more) == unknown_bar_lines(bars) + unknown_bar_lines(more),
        unknown_bar_lines(seq![b]).len() == (if b < 6 { 0nat } else { 1nat }),
        unknown_bar_lines(seq![]).len() == 0,
    decreases more.len(),
{
    let all = bars + more;
    if more.len() == 0 {
        assert(all =~= bars);
        assert(unknown_bar_lines(bars) + unknown_bar_lines(more) =~= unknown_bar_lines(bars));
    } else {
        assert(all.drop_last() =~= bars + more.drop_last());
        law_complaints(a, bars, more.drop_last(), b);
        assert(unknown_bar_lines(all) =~= unknown_bar_lines(bars) + unknown_bar_lines(more));
    }
    reveal_with_fuel(unknown_bar_lines, 2);
    assert(seq![b].drop_last() =~= seq![]);
}

/// A plugin is refused if and only if it declares a version of the interface
/// other than the one that there is.
pub proof fn law_versions(path: Seq<char>, declared: Option<u32>)
    ensures
        version_error(path, declared) is None <==> declared is None || declared == Some(1u32),
{
}

/// A Python plugin that reads guest memory gets the bytes at the address that
/// it asked for, if all of them are in guest memory and in its range, and an
/// error otherwise.
pub proof fn law_python_reads(
    mem: &GuestMemory,
    dma_range: Option<(u64, u64)>,
    addr: u64,
    size: u64,
    r: Result<Vec<u8>, String>,
    k: int,
)
    requires
        call_ensures(read_mem, (mem, dma_range, addr, size), r),
    ensures
        ({
            let in_range = match dma_range {
                None => true,
                Some((base, len)) => base + len <= u64::MAX && base <= addr && addr + size <= base + len,
            };
            match r {
                Ok(v) => {
                    &&& in_range
                    &&& addr + size <= mem@.len()
                    &&& v@.len() == size
                    &&& 0 <= k < size ==> v@[k] == mem@[addr + k]
                },
                Err(_) => !in_range || addr + size > mem@.len(),
            }
        }),
{
}

/// A Python plugin that writes guest memory changes the bytes at the address
/// that it named, under the same conditions, and no others. A write that is
/// refused changes nothing.
pub proof fn law_python_writes(
    mem: &mut GuestMemory,
    dma_range: Option<(u64, u64)>,
    addr: u64,
    data: &[u8],
    r: Result<(), String>,
    i: int,
)
    requires
        call_ensures(write_mem, (mem, dma_range, addr, data), r),
        0 <= i < old(mem)@.len(),
    ensures
        r is Ok <==> addr + data@.len() <= old(mem)@.len() && (match dma_range {
            None => true,
            Some((base, len)) => base + len <= u64::MAX && base <= addr && addr + data@.len() <= base + len,
        }),
        final(mem)@.len() == old(mem)@.len(),
        final(mem)@[i] == (if r is Ok && addr <= i < addr + data@.len() { data@[i - addr] } else { old(mem)@[i] }),
{
}

/// What a plugin's code returned for a read is what the guest reads, if it is
/// as long as was asked for; otherwise that is an error.
pub proof fn law_read_results_are_taken(result: &[u8], data: &mut [u8], r: Result<(), String>)
    requires
        call_ensures(take_read_result, (result, data), r),
    ensures
        r is Ok <==> result@.len() == old(data)@.len(),
        r is Ok ==> final(data)@ == result@,
{
    if r is Ok {
        assert(final(data)@ =~= result@);
    }
}

/// A GPIO bank has at least one line, and as many names as lines or none.
pub proof fn law_gpio_banks(path: &str, ngpio: u16, names: usize, r: Result<(), String>)
    requires
        call_ensures(check_gpio_bank, (path, ngpio, names), r),
    ensures
        r is Ok <==> ngpio > 0 && (names == 0 || names == ngpio),
{
}

} // verus!
