//! Saved machine state: when a running guest's state can be captured, and how
//! values are taken one after the other off the front of saved bytes.

use vstd::prelude::*;
use vstd::slice::slice_subrange;
use vstd::string::*;

use crate::config::{Args, ArgsView};
use crate::text::cat2;
use crate::bytes::{get_u16, get_u32, lemma_u16_same, lemma_u32_same, u16_at, u32_at};

verus! {

/// The message for saved state that ends too early.
pub open spec fn truncated() -> Seq<char> {
    "saved state is truncated"@
}

fn truncated_error() -> (r: String)
    ensures
        r@ == truncated(),
{
    "saved state is truncated".to_owned()
}

/// Takes the first `n` bytes off `buf`, which is left alone if it has fewer.
pub fn take<'a>(buf: &mut &'a [u8], n: usize) -> (r: Result<&'a [u8], String>)
    ensures
        match r {
            Ok(t) => {
                &&& n <= old(buf)@.len()
                &&& t@ == old(buf)@.take(n as int)
                &&& final(buf)@ == old(buf)@.skip(n as int)
            },
            Err(e) => {
                &&& n > old(buf)@.len()
                &&& e@ == truncated()
                &&& final(buf)@ == old(buf)@
            },
        },
{
    let whole: &'a [u8] = *buf;
    if n > whole.len() {
        return Err(truncated_error());
    }
    let head = slice_subrange(whole, 0, n);
    let tail = slice_subrange(whole, n, whole.len());
    *buf = tail;
    assert(head@ =~= old(buf)@.take(n as int));
    assert(tail@ =~= old(buf)@.skip(n as int));
    Ok(head)
}

/// Takes one byte off the front of `buf`.
pub fn take_u8(buf: &mut &[u8]) -> (r: Result<u8, String>)
    ensures
        match r {
            Ok(x) => {
                &&& 1 <= old(buf)@.len()
                &&& x == old(buf)@[0]
                &&& final(buf)@ == old(buf)@.skip(1)
            },
            Err(e) => old(buf)@.len() < 1 && e@ == truncated() && final(buf)@ == old(buf)@,
        },
{
    let t = take(buf, 1)?;
    Ok(t[0])
}

/// Takes a little-endian 16-bit number off the front of `buf`.
pub fn take_u16(buf: &mut &[u8]) -> (r: Result<u16, String>)
    ensures
        match r {
            Ok(x) => {
                &&& 2 <= old(buf)@.len()
                &&& x == u16_at(old(buf)@, 0)
                &&& final(buf)@ == old(buf)@.skip(2)
            },
            Err(e) => old(buf)@.len() < 2 && e@ == truncated() && final(buf)@ == old(buf)@,
        },
{
    let t = take(buf, 2)?;
    proof {
        lemma_u16_same(old(buf)@, 0, t@, 0);
    }
    Ok(get_u16(t, 0))
}

/// Takes a little-endian 32-bit number off the front of `buf`.
pub fn take_u32(buf: &mut &[u8]) -> (r: Result<u32, String>)
    ensures
        match r {
            Ok(x) => {
                &&& 4 <= old(buf)@.len()
                &&& x == u32_at(old(buf)@, 0)
                &&& final(buf)@ == old(buf)@.skip(4)
            },
            Err(e) => old(buf)@.len() < 4 && e@ == truncated() && final(buf)@ == old(buf)@,
        },
{
    let t = take(buf, 4)?;
    proof {
        lemma_u32_same(old(buf)@, 0, t@, 0);
    }
    Ok(get_u32(t, 0))
}

/// Whether a guest has a plugin of any kind.
pub open spec fn has_any_plugin(a: ArgsView) -> bool {
    a.devices.len() > 0 || a.pci_devices.len() > 0 || a.sandboxed_devices.len() > 0
        || a.sandboxed_pci_devices.len() > 0 || a.native_devices.len() > 0 || a.native_pci_devices.len() > 0
        || a.wasm_devices.len() > 0 || a.wasm_pci_devices.len() > 0 || a.i2c_devices.len() > 0
        || a.gpio_devices.len() > 0
}

/// Why the state of a running guest cannot be captured for `verb`, if it
/// cannot.
pub open spec fn capture_error(a: ArgsView, verb: Seq<char>) -> Option<Seq<char>> {
    if a.smp != 1 {
        Some(verb + " only supports --smp 1 today"@)
    } else if has_any_plugin(a) {
        Some(verb + " doesn't support device plugins: their state can't be captured"@)
    } else if a.record is Some || a.replay is Some {
        Some(verb + " doesn't support --record/--replay"@)
    } else if a.gdb_stub is Some {
        Some(verb + " doesn't support --gdb-stub"@)
    } else if a.trace_file is Some {
        Some(verb + " doesn't support --trace-file"@)
    } else {
        None
    }
}

/// Whether the state of a running guest can be captured for `verb`: with one
/// CPU, without plugins, and while it is not recorded, replayed, debugged or
/// traced.
pub fn validate_capturable(args: &Args, verb: &str) -> (r: Result<(), String>)
    ensures
        match r {
            Ok(_) => capture_error(args@, verb@) is None,
            Err(e) => capture_error(args@, verb@) == Some(e@),
        },
{
    if args.smp != 1 {
        return Err(cat2(verb, " only supports --smp 1 today"));
    }
    if args.devices.len() > 0 || args.pci_devices.len() > 0 || args.sandboxed_devices.len() > 0
        || args.sandboxed_pci_devices.len() > 0 || args.native_devices.len() > 0
        || args.native_pci_devices.len() > 0 || args.wasm_devices.len() > 0
        || args.wasm_pci_devices.len() > 0 || args.i2c_devices.len() > 0 || args.gpio_devices.len() > 0 {
        return Err(cat2(verb, " doesn't support device plugins: their state can't be captured"));
    }
    if args.record.is_some() || args.replay.is_some() {
        return Err(cat2(verb, " doesn't support --record/--replay"));
    }
    if args.gdb_stub.is_some() {
        return Err(cat2(verb, " doesn't support --gdb-stub"));
    }
    if args.trace_file.is_some() {
        return Err(cat2(verb, " doesn't support --trace-file"));
    }
    Ok(())
}

/// A running guest can be captured if and only if it has one CPU, no plugin of
/// any kind, neither records nor replays, and is neither debugged nor traced.
pub proof fn law_what_can_be_captured(a: ArgsView, verb: Seq<char>)
    ensures
        capture_error(a, verb) is None <==> {
            &&& a.smp == 1
            &&& a.devices.len() + a.pci_devices.len() + a.sandboxed_devices.len() + a.sandboxed_pci_devices.len()
                + a.native_devices.len() + a.native_pci_devices.len() + a.wasm_devices.len()
                + a.wasm_pci_devices.len() + a.i2c_devices.len() + a.gpio_devices.len() == 0
            &&& a.record is None
            &&& a.replay is None
            &&& a.gdb_stub is None
            &&& a.trace_file is None
        },
{
}

} // verus!
