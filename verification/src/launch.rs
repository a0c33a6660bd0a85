//! From a command line to a guest that can start: which configurations are
//! accepted, and what is put into guest memory and registers.

use vstd::prelude::*;
use vstd::string::*;
use vstd::utf8::*;

use crate::acpi::{acpi_image, acpi_tables, fitting, overrun, setup_acpi, with_tables};
use crate::bytes::splice;
use crate::config::{Args, ArgsView};
use crate::device::{IoBus, MmioBus};
use crate::error::{same_outcome, ExitSlot, HyperbugError, Outcome};
use crate::gdt::{gib_count, identity_limit, max_identity_map, setup_gdt, setup_page_tables, tables_written, too_much_memory};
use crate::loader::{cmdline_max_of, cmdline_too_long, image_error, ramdisk_addr, ramdisk_top, setup_size_of, zero_page, BzImage, Initramfs, BOOT_STACK_TOP, CMDLINE_START, KERNEL_START, ZERO_PAGE_START};
use crate::mem::GuestMemory;
use crate::pci::{IoEventAction, PciBus, Wires};
use crate::regs::{Regs, Sregs};
use crate::serial::Serial;
use crate::smbios::{setup_smbios, smbios_image, SMBIOS_LIMIT};
use crate::snapshot::truncated;
use crate::text::{cat2, cat3, cat4, cat5, dec, dec_string, hex0x};

verus! {

/// The least memory that the fixed layout of low memory needs, in megabytes.
pub const MIN_MEM_MB: u64 = 32;

/// Whether a result is a configuration error with this message.
pub open spec fn config_error<T>(r: Result<T, HyperbugError>, m: Seq<char>) -> bool {
    r matches Err(HyperbugError::Config(e)) && e@ == m
}

/// Why a guest cannot have `mb` megabytes of memory, if it cannot.
pub open spec fn memory_error(mb: u64) -> Option<Seq<char>> {
    if mb < MIN_MEM_MB {
        Some("--mem must be at least 32 MiB"@)
    } else if mb * 1048576 > u64::MAX {
        Some("--mem "@ + dec(mb as nat) + " MiB overflows"@)
    } else if mb * 1048576 > identity_limit() {
        Some(
            "--mem "@ + dec(mb as nat) + " MiB exceeds the current "@ + dec(250880)
                + " MiB identity-map limit"@,
        )
    } else {
        None
    }
}

/// Guest memory in bytes, if it is neither too little nor more than can be
/// mapped.
pub fn validate_memory(args: &Args) -> (r: Result<u64, HyperbugError>)
    ensures
        match memory_error(args.mem_mb) {
            Some(m) => config_error(r, m),
            None => r matches Ok(n) && n == args.mem_mb * 1048576,
        },
{
    let mb: u64 = args.mem_mb;
    if mb < MIN_MEM_MB {
        return Err(HyperbugError::Config("--mem must be at least 32 MiB".to_owned()));
    }
    let s = dec_string(mb);
    let size: u64 = match mb.checked_mul(1048576) {
        Some(n) => n,
        None => {
            return Err(HyperbugError::Config(cat3("--mem ", s.as_str(), " MiB overflows")));
        },
    };
    let max: u64 = max_identity_map();
    if size > max {
        let m = dec_string(max / 1048576);
        return Err(
            HyperbugError::Config(
                cat5("--mem ", s.as_str(), " MiB exceeds the current ", m.as_str(), " MiB identity-map limit"),
            ),
        );
    }
    Ok(size)
}

/// Why a guest cannot have `smp` CPUs on a host that supports `max_vcpus`, if
/// it cannot.
pub open spec fn smp_error(smp: u8, max_vcpus: usize) -> Option<Seq<char>> {
    if smp == 0 {
        Some("--smp must be at least 1"@)
    } else if smp > max_vcpus {
        Some(
            "--smp "@ + dec(smp as nat) + " exceeds this host's KVM_CAP_NR_VCPUS ("@ + dec(
                max_vcpus as nat,
            ) + ")"@,
        )
    } else {
        None
    }
}

/// The number of CPUs, if the host supports as many as `max_vcpus`.
pub fn validate_smp(args: &Args, max_vcpus: usize) -> (r: Result<u8, HyperbugError>)
    ensures
        match smp_error(args.smp, max_vcpus) {
            Some(m) => config_error(r, m),
            None => r matches Ok(n) && n == args.smp,
        },
{
    if args.smp == 0 {
        return Err(HyperbugError::Config("--smp must be at least 1".to_owned()));
    }
    if args.smp as usize > max_vcpus {
        let n = dec_string(args.smp as u64);
        let m = dec_string(max_vcpus as u64);
        return Err(
            HyperbugError::Config(
                cat5("--smp ", n.as_str(), " exceeds this host's KVM_CAP_NR_VCPUS (", m.as_str(), ")"),
            ),
        );
    }
    Ok(args.smp)
}

/// Why a run cannot be recorded or replayed as asked for, if it cannot.
pub open spec fn record_error(a: ArgsView) -> Option<Seq<char>> {
    if a.record is Some && a.smp != 1 {
        Some("--record only supports --smp 1 today"@)
    } else if a.replay is Some && a.smp != 1 {
        Some("--replay only supports --smp 1 today"@)
    } else if a.record is Some && a.replay is Some {
        Some("--record and --replay are mutually exclusive"@)
    } else {
        None
    }
}

/// Whether a run can be recorded or replayed as asked for: with one CPU only,
/// and not both at once.
pub fn validate_record(args: &Args) -> (r: Result<(), HyperbugError>)
    ensures
        match record_error(args@) {
            Some(m) => config_error(r, m),
            None => r is Ok,
        },
{
    if args.record.is_some() && args.smp != 1 {
        return Err(HyperbugError::Config("--record only supports --smp 1 today".to_owned()));
    }
    if args.replay.is_some() && args.smp != 1 {
        return Err(HyperbugError::Config("--replay only supports --smp 1 today".to_owned()));
    }
    if args.record.is_some() && args.replay.is_some() {
        return Err(HyperbugError::Config("--record and --replay are mutually exclusive".to_owned()));
    }
    Ok(())
}

/// Whether a guest has devices whose state a snapshot does not hold.
pub open spec fn has_plugins(a: ArgsView) -> bool {
    a.devices.len() > 0 || a.pci_devices.len() > 0 || a.sandboxed_devices.len() > 0
        || a.sandboxed_pci_devices.len() > 0 || a.i2c_devices.len() > 0 || a.gpio_devices.len() > 0
        || a.vsock_uds is Some
}

/// Why a guest cannot be resumed as asked for, if it cannot.
pub open spec fn restore_error(a: ArgsView) -> Option<Seq<char>> {
    let flag = if a.restore is Some { "--restore"@ } else { "--migrate-listen"@ };
    if a.restore is Some && a.migrate_listen is Some {
        Some("--restore and --migrate-listen are mutually exclusive"@)
    } else if a.restore is None && a.migrate_listen is None {
        None
    } else if a.smp != 1 {
        Some(flag + " only supports --smp 1 today"@)
    } else if has_plugins(a) {
        Some(
            flag
                + " doesn't support Python device plugins yet — their state isn't part of a snapshot"@,
        )
    } else {
        None
    }
}

/// Whether a guest can be resumed as asked for: from one source only, with one
/// CPU, and without plugins.
pub fn validate_restore(args: &Args) -> (r: Result<(), HyperbugError>)
    ensures
        match restore_error(args@) {
            Some(m) => config_error(r, m),
            None => r is Ok,
        },
{
    if args.restore.is_some() && args.migrate_listen.is_some() {
        return Err(
            HyperbugError::Config("--restore and --migrate-listen are mutually exclusive".to_owned()),
        );
    }
    if args.restore.is_none() && args.migrate_listen.is_none() {
        return Ok(());
    }
    let flag = if args.restore.is_some() { "--restore" } else { "--migrate-listen" };
    if args.smp != 1 {
        return Err(HyperbugError::Config(cat2(flag, " only supports --smp 1 today")));
    }
    if args.devices.len() > 0 || args.pci_devices.len() > 0 || args.sandboxed_devices.len() > 0
        || args.sandboxed_pci_devices.len() > 0 || args.i2c_devices.len() > 0 || args.gpio_devices.len() > 0
        || args.vsock_uds.is_some() {
        return Err(
            HyperbugError::Config(
                cat2(
                    flag,
                    " doesn't support Python device plugins yet — their state isn't part of a snapshot",
                ),
            ),
        );
    }
    Ok(())
}

/// Why a run cannot be started on a host that supports `max_vcpus` CPUs, if it
/// cannot: the first complaint of memory, CPUs, restoring and recording.
pub open spec fn launch_error(a: ArgsView, max_vcpus: usize) -> Option<Seq<char>> {
    if memory_error(a.mem_mb) is Some {
        memory_error(a.mem_mb)
    } else if smp_error(a.smp, max_vcpus) is Some {
        smp_error(a.smp, max_vcpus)
    } else if restore_error(a) is Some {
        restore_error(a)
    } else {
        record_error(a)
    }
}

/// Checks everything that can be checked of a run before it starts. Returns
/// memory in bytes, and CPUs.
pub fn validate_launch(args: &Args, max_vcpus: usize) -> (r: Result<(u64, u8), HyperbugError>)
    ensures
        match launch_error(args@, max_vcpus) {
            Some(m) => config_error(r, m),
            None => r matches Ok((mem_size, cpus)) && mem_size == args.mem_mb * 1048576 && cpus == args.smp,
        },
{
    let mem_size: u64 = match validate_memory(args) {
        Ok(n) => n,
        Err(e) => {
            return Err(e);
        },
    };
    let cpus: u8 = match validate_smp(args, max_vcpus) {
        Ok(n) => n,
        Err(e) => {
            return Err(e);
        },
    };
    if let Err(e) = validate_restore(args) {
        return Err(e);
    }
    if let Err(e) = validate_record(args) {
        return Err(e);
    }
    Ok((mem_size, cpus))
}

/// Where a guest comes from.
#[derive(Clone, Copy, Debug, PartialEq, Eq, Structural)]
pub enum BootSource {
    /// The kernel that the command line names.
    Kernel,
    /// The snapshot that `--restore` names.
    Snapshot,
    /// Another process, that connects to `--migrate-listen`.
    Migration,
}

/// Where a guest comes from. A snapshot outranks a migration.
pub fn boot_source(args: &Args) -> (r: BootSource)
    ensures
        r == (if args@.restore is Some {
            BootSource::Snapshot
        } else if args@.migrate_listen is Some {
            BootSource::Migration
        } else {
            BootSource::Kernel
        }),
{
    if args.restore.is_some() {
        BootSource::Snapshot
    } else if args.migrate_listen.is_some() {
        BootSource::Migration
    } else {
        BootSource::Kernel
    }
}

/// The message for a snapshot of a guest with another memory size.
pub open spec fn memory_mismatch(recorded: u64, mem_size: u64) -> Seq<char> {
    "snapshot was taken with "@ + dec((recorded / 1048576) as nat)
        + " MiB of guest memory, this launch has "@ + dec((mem_size / 1048576) as nat)
        + " MiB (--mem must match exactly to restore)"@
}

/// Whether the memory of a snapshot is that of this guest.
pub fn check_snapshot_memory(recorded: u64, mem_size: u64) -> (r: Result<(), HyperbugError>)
    ensures
        if recorded != mem_size {
            config_error(r, memory_mismatch(recorded, mem_size))
        } else {
            r is Ok
        },
{
    if recorded != mem_size {
        let a = dec_string(recorded / 1048576);
        let b = dec_string(mem_size / 1048576);
        return Err(
            HyperbugError::Config(
                cat5(
                    "snapshot was taken with ",
                    a.as_str(),
                    " MiB of guest memory, this launch has ",
                    b.as_str(),
                    " MiB (--mem must match exactly to restore)",
                ),
            ),
        );
    }
    Ok(())
}

/// Puts the memory of a snapshot, which says of itself that it is of a guest
/// with `recorded` bytes, into the memory of a guest with `mem_size`.
pub fn restore_memory(mem: &mut GuestMemory, memory: &[u8], recorded: u64, mem_size: u64) -> (r: Result<
    (),
    HyperbugError,
>)
    ensures
        if recorded != mem_size {
            config_error(r, memory_mismatch(recorded, mem_size)) && final(mem)@ == old(mem)@
        } else if memory@.len() > old(mem)@.len() {
            config_error(
                r,
                "snapshot's own memory dump doesn't fit the guest RAM it claims to describe"@,
            ) && final(mem)@ == old(mem)@
        } else {
            r is Ok && final(mem)@ == splice(old(mem)@, 0, memory@)
        },
{
    if let Err(e) = check_snapshot_memory(recorded, mem_size) {
        return Err(e);
    }
    if !mem.write_checked(0, memory) {
        return Err(
            HyperbugError::Config(
                "snapshot's own memory dump doesn't fit the guest RAM it claims to describe".to_owned(),
            ),
        );
    }
    Ok(())
}

/// The message for a snapshot of a guest with other devices.
pub open spec fn device_mismatch(saved: usize, present: usize) -> Seq<char> {
    "snapshot has "@ + dec(saved as nat) + " virtio device(s), this launch's configuration has "@ + dec(
        present as nat,
    ) + " — --disk/--net/--rng-modern must match exactly to restore"@
}

/// Whether a snapshot holds the state of as many devices as this guest has.
pub fn check_snapshot_devices(saved: usize, present: usize) -> (r: Result<(), HyperbugError>)
    ensures
        if saved != present {
            config_error(r, device_mismatch(saved, present))
        } else {
            r is Ok
        },
{
    if saved != present {
        let a = dec_string(saved as u64);
        let b = dec_string(present as u64);
        return Err(
            HyperbugError::Config(
                cat5(
                    "snapshot has ",
                    a.as_str(),
                    " virtio device(s), this launch's configuration has ",
                    b.as_str(),
                    " — --disk/--net/--rng-modern must match exactly to restore",
                ),
            ),
        );
    }
    Ok(())
}

/// A failure to load a guest, in parts.
pub enum LoadFailure {
    Io(Seq<char>),
    Config(Seq<char>),
}

/// Whether an error is this failure.
pub open spec fn is_failure(e: HyperbugError, f: LoadFailure) -> bool {
    match f {
        LoadFailure::Io(m) => e matches HyperbugError::Io(t) && t@ == m,
        LoadFailure::Config(m) => e matches HyperbugError::Config(t) && t@ == m,
    }
}

/// What is loaded.
pub struct GuestFiles {
    /// The path and the contents of the kernel.
    pub kernel_path: Seq<char>,
    pub kernel: Seq<u8>,
    /// The path and the contents of the initramfs, if there is one.
    pub initrd: Option<(Seq<char>, Seq<u8>)>,
    pub cmdline: Seq<char>,
    pub dsdt: Seq<u8>,
}

/// Memory with the kernel in it, or as it is instead, and why.
pub open spec fn kernel_stage(f: GuestFiles, mem: Seq<u8>, mem_size: u64) -> Result<Seq<u8>, (Seq<u8>, LoadFailure)> {
    match image_error(f.kernel) {
        Some(m) => Err((mem, LoadFailure::Io("reading kernel "@ + f.kernel_path + ": "@ + m))),
        None => {
            let code = f.kernel.skip(setup_size_of(f.kernel));
            if KERNEL_START + code.len() > mem_size {
                Err((mem, LoadFailure::Io("guest memory too small to hold the kernel image"@)))
            } else {
                Ok(splice(mem, KERNEL_START as int, code))
            }
        },
    }
}

/// Memory with the initramfs in it as well, and where it is.
pub open spec fn initrd_stage(f: GuestFiles, mem: Seq<u8>, mem_size: u64) -> Result<
    (Seq<u8>, Option<Initramfs>),
    (Seq<u8>, LoadFailure),
> {
    match f.initrd {
        None => Ok((mem, None)),
        Some((path, raw)) => {
            let top = ramdisk_top(mem_size);
            let prefix = "loading initramfs "@ + path + ": "@;
            if raw.len() == 0 {
                Err((mem, LoadFailure::Io(prefix + "initramfs is empty"@)))
            } else if KERNEL_START + raw.len() > top {
                Err(
                    (
                        mem,
                        LoadFailure::Io(
                            prefix + ("initramfs of "@ + dec(raw.len()) + " bytes doesn't fit below "@
                                + hex0x(top as nat) + " in guest memory"@),
                        ),
                    ),
                )
            } else {
                let at = ramdisk_addr(raw.len() as int, mem_size);
                Ok(
                    (
                        splice(mem, at, raw),
                        Some(Initramfs { addr: at as u64, size: raw.len() as u64 }),
                    ),
                )
            }
        },
    }
}

/// Memory with the command line and the zero page in it as well.
pub open spec fn boot_stage(f: GuestFiles, mem: Seq<u8>, mem_size: u64, initramfs: Option<Initramfs>) -> Result<
    Seq<u8>,
    (Seq<u8>, LoadFailure),
> {
    let text = encode_utf8(f.cmdline);
    let max = cmdline_max_of(f.kernel);
    if text.len() + 1 > KERNEL_START - CMDLINE_START || text.len() + 1 > max {
        Err((mem, LoadFailure::Config(cmdline_too_long(text.len(), max))))
    } else {
        Ok(
            splice(
                splice(mem, CMDLINE_START as int, text.push(0u8)),
                ZERO_PAGE_START as int,
                zero_page(f.kernel, mem_size, initramfs),
            ),
        )
    }
}

/// Memory with the ACPI and SMBIOS tables in it as well.
pub open spec fn table_stage(f: GuestFiles, mem: Seq<u8>, num_cpus: u8) -> Result<Seq<u8>, (Seq<u8>, LoadFailure)> {
    let ts = acpi_tables(f.dsdt, num_cpus);
    if fitting(ts, 0) < 5 {
        Err(
            (
                with_tables(mem, ts, fitting(ts, 0)),
                LoadFailure::Config(overrun(ts[fitting(ts, 0) as int])),
            ),
        )
    } else {
        Ok(smbios_image(acpi_image(mem, ts)))
    }
}

/// Guest memory after everything was loaded, or as the first failure leaves
/// it.
pub open spec fn loaded_guest(f: GuestFiles, mem: Seq<u8>, mem_size: u64, num_cpus: u8) -> Result<Seq<u8>, (Seq<u8>, LoadFailure)> {
    match kernel_stage(f, mem, mem_size) {
        Err(e) => Err(e),
        Ok(m1) => match initrd_stage(f, m1, mem_size) {
            Err(e) => Err(e),
            Ok((m2, initramfs)) => match boot_stage(f, m2, mem_size, initramfs) {
                Err(e) => Err(e),
                Ok(m3) => table_stage(f, m3, num_cpus),
            },
        },
    }
}

/// The files of a guest, as they are given.
pub open spec fn files_of(args: &Args, kernel: Seq<u8>, initrd: Option<Seq<u8>>, dsdt: Seq<u8>) -> GuestFiles {
    GuestFiles {
        kernel_path: args.kernel@,
        kernel,
        initrd: match (args.initrd, initrd) {
            (Some(p), Some(raw)) => Some((p@, raw)),
            _ => None,
        },
        cmdline: args.cmdline@,
        dsdt,
    }
}

/// The view of bytes that may be there.
pub open spec fn opt_bytes(v: Option<Vec<u8>>) -> Option<Seq<u8>> {
    match v {
        Some(b) => Some(b@),
        None => None,
    }
}

/// Puts kernel, initramfs, command line, zero page and tables into guest
/// memory, and returns the kernel's entry point. `initrd` is the contents of
/// the initramfs that `args` names. After a failure, memory holds what was put
/// there before it.
pub fn load_guest(
    args: &Args,
    kernel: Vec<u8>,
    initrd: Option<Vec<u8>>,
    dsdt: &[u8],
    mem: &mut GuestMemory,
    mem_size: u64,
    num_cpus: u8,
) -> (r: Result<u64, HyperbugError>)
    requires
        SMBIOS_LIMIT <= mem_size <= old(mem)@.len(),
        args.initrd is Some == initrd is Some,
    ensures
        final(mem)@.len() == old(mem)@.len(),
        ({
            let f = files_of(args, kernel@, opt_bytes(initrd), dsdt@);
            match (r, loaded_guest(f, old(mem)@, mem_size, num_cpus)) {
                (Ok(entry), Ok(m)) => final(mem)@ == m && entry == KERNEL_START + 0x200,
                (Err(e), Err((m, why))) => is_failure(e, why) && final(mem)@ == m,
                _ => false,
            }
        }),
{
    let ghost f = files_of(args, kernel@, opt_bytes(initrd), dsdt@);
    let image = match BzImage::parse(kernel) {
        Ok(b) => b,
        Err(e) => {
            return Err(HyperbugError::Io(cat4("reading kernel ", args.kernel.as_str(), ": ", e.as_str())));
        },
    };
    let loaded = match image.load(mem, mem_size) {
        Ok(k) => k,
        Err(e) => {
            return Err(HyperbugError::Io(e));
        },
    };
    assert(kernel_stage(f, old(mem)@, mem_size) == Ok::<Seq<u8>, (Seq<u8>, LoadFailure)>(mem@));
    let ghost m1 = mem@;
    let mut initramfs: Option<Initramfs> = None;
    if let Some(path) = &args.initrd {
        if let Some(raw) = &initrd {
            match Initramfs::load(mem, raw.as_slice(), mem_size) {
                Ok(i) => {
                    initramfs = Some(i);
                },
                Err(e) => {
                    return Err(
                        HyperbugError::Io(cat4("loading initramfs ", path.as_str(), ": ", e.as_str())),
                    );
                },
            }
        }
    }
    assert(initrd_stage(f, m1, mem_size) == Ok::<(Seq<u8>, Option<Initramfs>), (Seq<u8>, LoadFailure)>((mem@, initramfs)));
    let ghost m2 = mem@;
    match image.write_cmdline(mem, args.cmdline.as_str()) {
        Ok(_) => {},
        Err(e) => {
            return Err(HyperbugError::Config(e));
        },
    }
    image.build_zero_page(mem, mem_size, initramfs);
    assert(boot_stage(f, m2, mem_size, initramfs) == Ok::<Seq<u8>, (Seq<u8>, LoadFailure)>(mem@));
    setup_acpi(mem, num_cpus, dsdt)?;
    setup_smbios(mem)?;
    Ok(loaded.entry_point)
}

/// The registers that the first CPU starts with.
pub open spec fn start_regs(entry_point: u64) -> Regs {
    Regs {
        rax: 0, rbx: 0, rcx: 0, rdx: 0, rsi: ZERO_PAGE_START, rdi: 0, rsp: BOOT_STACK_TOP, rbp: 0,
        r8: 0, r9: 0, r10: 0, r11: 0, r12: 0, r13: 0, r14: 0, r15: 0,
        rip: entry_point, rflags: 2,
    }
}

/// Writes the descriptor and page tables of the first CPU, brings `sregs` into
/// long mode, and returns the registers that it starts with.
pub fn setup_bsp(mem: &mut GuestMemory, sregs: &mut Sregs, mem_size: u64, entry_point: u64) -> (r: Result<
    Regs,
    HyperbugError,
>)
    requires
        mem_size <= identity_limit() ==> old(mem)@.len() >= 0xb000 + 4096 * gib_count(mem_size as int),
        old(mem)@.len() >= 0x518,
    ensures
        ({
            let with_gdt = splice(old(mem)@, 0x500, crate::bytes::le64_all(crate::gdt::gdt_words()));
            let segments = Sregs {
                gdt_base: 0x500,
                gdt_limit: 23,
                cs: crate::gdt::code_segment(),
                ds: crate::gdt::data_segment(),
                es: crate::gdt::data_segment(),
                fs: crate::gdt::data_segment(),
                gs: crate::gdt::data_segment(),
                ss: crate::gdt::data_segment(),
                ..*old(sregs)
            };
            match r {
                Ok(regs) => {
                    &&& mem_size <= identity_limit()
                    &&& regs == start_regs(entry_point)
                    &&& tables_written(with_gdt, final(mem)@, mem_size as int)
                    &&& *final(sregs) == (Sregs {
                        cr3: 0x9000,
                        cr4: 0x20,
                        cr0: 0x80050033,
                        efer: 0x500,
                        ..segments
                    })
                },
                Err(e) => {
                    &&& mem_size > identity_limit()
                    &&& e matches HyperbugError::Config(m) && m@ == too_much_memory(mem_size)
                    &&& final(mem)@ == with_gdt
                    &&& *final(sregs) == segments
                },
            }
        }),
{
    setup_gdt(mem, sregs);
    match setup_page_tables(mem, sregs, mem_size) {
        Ok(_) => {},
        Err(e) => {
            return Err(HyperbugError::Config(e));
        },
    }
    let zero = Regs::default();
    Ok(Regs { rip: entry_point, rsi: ZERO_PAGE_START, rsp: BOOT_STACK_TOP, rflags: 2, ..zero })
}

/// What the boot code puts below 1 MiB stands apart, for every guest of up to
/// 19 GiB whose kernel accepts no command line of more than 768 KiB:
/// descriptor table, zero page, page tables, a page of stack, command line,
/// ACPI window, SMBIOS space and kernel follow one another.
pub proof fn law_boot_layout(mem_size: int, cmdline_max: u32)
    requires
        0 <= mem_size <= 19 * 0x4000_0000,
        cmdline_max <= 0xc_0000,
    ensures
        crate::gdt::BOOT_GDT_OFFSET + 24 <= ZERO_PAGE_START,
        ZERO_PAGE_START + 4096 <= crate::gdt::PML4_START,
        crate::gdt::PML4_START + 4096 <= crate::gdt::PDPTE_START,
        crate::gdt::PDPTE_START + 4096 <= crate::gdt::PDE_START,
        crate::gdt::PDE_START + 4096 * gib_count(mem_size) <= BOOT_STACK_TOP - 4096,
        BOOT_STACK_TOP <= CMDLINE_START,
        CMDLINE_START + cmdline_max <= crate::acpi::ACPI_BASE,
        crate::acpi::ACPI_LIMIT <= crate::smbios::SMBIOS_BASE,
        SMBIOS_LIMIT <= KERNEL_START,
{
}

/// Brings the devices of a new machine to a saved state: first the console,
/// then the PCI bus, and then there must be as many virtio devices as were
/// saved, to be restored one by one. Returns what is to be bound at the
/// hypervisor, also where it fails on the way.
pub fn restore_device_state(
    serial: &mut Serial,
    pci: &mut PciBus,
    mmio: &mut MmioBus,
    io: &mut IoBus,
    serial_blob: &[u8],
    pci_blob: &[u8],
    saved: usize,
    present: usize,
) -> (r: (Result<(), HyperbugError>, Vec<IoEventAction>))
    requires
        old(pci).wf(),
    ensures
        final(pci).wf(),
        ({
            let (s, ok) = crate::serial::restored(old(serial)@, serial_blob@);
            let before = Wires { pci: old(pci)@, mmio: old(mmio)@, io: old(io)@, actions: Seq::empty() };
            let (w, e) = crate::pci::restored(before, pci_blob@);
            let after = Wires { pci: final(pci)@, mmio: final(mmio)@, io: final(io)@, actions: r.1@ };
            &&& final(serial)@ == s
            &&& if !ok {
                after == before && config_error(r.0, truncated())
            } else {
                &&& after == w
                &&& match e {
                    Err(m) => config_error(r.0, m),
                    Ok(_) => if saved != present {
                        config_error(r.0, device_mismatch(saved, present))
                    } else {
                        r.0 is Ok
                    },
                }
            }
        }),
{
    if let Err(e) = serial.restore_state(serial_blob) {
        let none: Vec<IoEventAction> = Vec::new();
        assert(none@ =~= Seq::empty());
        return (Err(HyperbugError::Config(e)), none);
    }
    let (r, actions) = pci.restore_state(pci_blob, mmio, io);
    match r {
        Err(e) => (Err(HyperbugError::Config(e)), actions),
        Ok(_) => (check_snapshot_devices(saved, present), actions),
    }
}

/// How a run ended: as was recorded first, or else as the boot CPU ended.
pub fn final_outcome(slot: &ExitSlot, bsp: Outcome) -> (r: Outcome)
    ensures
        match slot@ {
            Some(first) => same_outcome(r, first),
            None => r == bsp,
        },
{
    match slot.take() {
        Some(o) => o,
        None => bsp,
    }
}

/// A launch is accepted if and only if it has between 32 MiB and 245 GiB of
/// memory and between one CPU and as many as the host allows; restores from at
/// most one source, and then with one CPU and no plugins; and records or
/// replays but not both, and then with one CPU.
pub proof fn law_what_can_be_launched(a: ArgsView, max_vcpus: usize)
    ensures
        launch_error(a, max_vcpus) is None <==> {
            let restores = a.restore is Some || a.migrate_listen is Some;
            let plugins = a.devices.len() + a.pci_devices.len() + a.sandboxed_devices.len()
                + a.sandboxed_pci_devices.len() + a.i2c_devices.len() + a.gpio_devices.len();
            &&& 32 <= a.mem_mb <= 245 * 1024
            &&& 1 <= a.smp <= max_vcpus
            &&& !(a.restore is Some && a.migrate_listen is Some)
            &&& restores ==> a.smp == 1 && plugins == 0 && a.vsock_uds is None
            &&& !(a.record is Some && a.replay is Some)
            &&& a.record is Some || a.replay is Some ==> a.smp == 1
        },
{
}

/// A guest that was loaded has everything where it looks for it: the kernel's
/// code from 1 MiB on, the command line with its final zero at 0x20000, the
/// zero page at 0x7000, and the initramfs where the zero page says, all of it
/// whole. That is so where the command line ends below the tables at 0xe0000
/// and the initramfs does not reach down into the kernel.
#[verifier::spinoff_prover]
pub proof fn law_a_loaded_guest_has_its_files(f: GuestFiles, mem: Seq<u8>, mem_size: u64, num_cpus: u8)
    requires
        0x10_0000 <= mem_size <= mem.len(),
        loaded_guest(f, mem, mem_size, num_cpus) is Ok,
        encode_utf8(f.cmdline).len() < 0xc_0000,
        f.initrd matches Some((path, raw)) ==> 0x10_0000 + f.kernel.len() - setup_size_of(f.kernel) <= ramdisk_addr(
            raw.len() as int,
            mem_size,
        ),
    ensures
        ({
            let m = loaded_guest(f, mem, mem_size, num_cpus)->Ok_0;
            let code = f.kernel.skip(setup_size_of(f.kernel));
            let text = encode_utf8(f.cmdline);
            &&& m.len() == mem.len()
            &&& 0x10_0000 + code.len() <= mem_size
            &&& m.subrange(0x10_0000, 0x10_0000int + code.len()) == code
            &&& m.subrange(0x2_0000, 0x2_0000int + text.len()) == text
            &&& m[0x2_0000int + text.len()] == 0
            &&& match f.initrd {
                None => m.subrange(0x7000, 0x8000) == zero_page(f.kernel, mem_size, None),
                Some((path, raw)) => {
                    let at = crate::bytes::u32_at(m, 0x7218) as int;
                    &&& m.subrange(0x7000, 0x8000) == zero_page(
                        f.kernel,
                        mem_size,
                        Some(Initramfs { addr: at as u64, size: raw.len() as u64 }),
                    )
                    &&& crate::bytes::u32_at(m, 0x721c) == raw.len()
                    &&& at + raw.len() <= mem_size
                    &&& m.subrange(at, at + raw.len()) == raw
                },
            }
        }),
{
    let code = f.kernel.skip(setup_size_of(f.kernel));
    let text = encode_utf8(f.cmdline);
    let m1 = splice(mem, 0x10_0000, code);
    let (m2, initramfs) = initrd_stage(f, m1, mem_size)->Ok_0;
    let line = text.push(0u8);
    let z = zero_page(f.kernel, mem_size, initramfs);
    let m3 = splice(splice(m2, 0x2_0000, line), 0x7000, z);
    let ts = acpi_tables(f.dsdt, num_cpus);
    let m4 = acpi_image(m3, ts);
    let m = smbios_image(m4);
    assert(loaded_guest(f, mem, mem_size, num_cpus) == Ok::<Seq<u8>, (Seq<u8>, LoadFailure)>(m));
    lemma_fitting_is_all(f.dsdt, num_cpus);
    crate::loader::law_zero_page_describes_the_guest(f.kernel, mem_size, initramfs);
    if let Some((path, raw)) = f.initrd {
        crate::loader::law_initramfs_placement(raw.len() as int, mem_size);
    }
    crate::acpi::law_tables_do_not_overlap(m3, f.dsdt, num_cpus);
    assert forall|a: int| 0 <= a < mem.len() && !(0xe_0000 <= a < 0x10_0000) implies #[trigger] m[a] == m3[a] by {
        crate::smbios::law_smbios_stays_in_its_space(m4, a);
        assert(m4[a] == m3[a]);
    }
    crate::smbios::law_smbios_stays_in_its_space(m4, 0);
    assert(m.subrange(0x10_0000, 0x10_0000int + code.len()) =~= code);
    assert(m.subrange(0x2_0000, 0x2_0000int + text.len()) =~= text);
    assert(m.subrange(0x7000, 0x8000) =~= z);
    if let Some((path, raw)) = f.initrd {
        let at = ramdisk_addr(raw.len() as int, mem_size);
        assert forall|k: int| 0 <= k < 4096 implies #[trigger] z[k] == m[0x7000 + k] by {
            assert(m.subrange(0x7000, 0x8000)[k] == m[0x7000 + k]);
        }
        assert forall|k: int| 0 <= k < 4 implies z[0x218 + k] == #[trigger] m[0x7218 + k] by {
            assert(z[0x218 + k] == m[0x7000 + (0x218 + k)]);
        }
        crate::bytes::lemma_u32_same(z, 0x218, m, 0x7218);
        assert forall|k: int| 0 <= k < 4 implies z[0x21c + k] == #[trigger] m[0x721c + k] by {
            assert(z[0x21c + k] == m[0x7000 + (0x21c + k)]);
        }
        crate::bytes::lemma_u32_same(z, 0x21c, m, 0x721c);
        assert(m.subrange(at, at + raw.len()) =~= raw);
    }
}

proof fn lemma_fitting_is_all(dsdt: Seq<u8>, num_cpus: u8)
    requires
        fitting(acpi_tables(dsdt, num_cpus), 0) >= 5,
    ensures
        fitting(acpi_tables(dsdt, num_cpus), 0) == 5,
{
    lemma_fitting_bound(acpi_tables(dsdt, num_cpus), 0);
}

proof fn lemma_fitting_bound(ts: Seq<crate::acpi::PlacedTable>, k: nat)
    requires
        k <= ts.len(),
    ensures
        fitting(ts, k) <= ts.len(),
    decreases ts.len() - k,
{
    if k < ts.len() {
        lemma_fitting_bound(ts, k + 1);
    }
}

/// The first CPU starts at the kernel's entry, with the address of the zero
/// page where the kernel looks for it, a stack below the command line,
/// interrupts off, and nothing in any other register.
pub proof fn law_start_of_the_first_cpu(entry_point: u64)
    ensures
        ({
            let r = start_regs(entry_point);
            &&& r.rip == entry_point
            &&& r.rsi == 0x7000
            &&& r.rsp == 0x1_f000
            &&& r.rflags == 2
            &&& r.rax == 0 && r.rbx == 0 && r.rcx == 0 && r.rdx == 0 && r.rdi == 0 && r.rbp == 0
            &&& r.r8 == 0 && r.r9 == 0 && r.r10 == 0 && r.r11 == 0
            &&& r.r12 == 0 && r.r13 == 0 && r.r14 == 0 && r.r15 == 0
        }),
{
}

/// The memory of a snapshot is brought back in full, into a guest of the same
/// size, or not at all.
pub proof fn law_memory_is_restored(
    mem: &mut GuestMemory,
    memory: &[u8],
    recorded: u64,
    mem_size: u64,
    r: Result<(), HyperbugError>,
    i: int,
)
    requires
        call_ensures(restore_memory, (mem, memory, recorded, mem_size), r),
        0 <= i < old(mem)@.len(),
    ensures
        r is Ok <==> recorded == mem_size && memory@.len() <= old(mem)@.len(),
        final(mem)@.len() == old(mem)@.len(),
        r is Ok ==> final(mem)@[i] == (if i < memory@.len() { memory@[i] } else { old(mem)@[i] }),
        r is Err ==> final(mem)@ == old(mem)@,
{
}

/// A guest that is set up runs 64-bit code with its own memory mapped: long
/// mode is on and active, paging and its extension are on, the page tables are
/// where the processor looks, and the segments are flat.
pub proof fn law_the_first_cpu_is_in_long_mode(
    mem: &mut GuestMemory,
    sregs: &mut Sregs,
    mem_size: u64,
    entry_point: u64,
    r: Result<Regs, HyperbugError>,
    va: int,
)
    requires
        call_ensures(setup_bsp, (mem, sregs, mem_size, entry_point), r),
        r is Ok,
        0 <= va < mem_size,
    ensures
        crate::gdt::translate(final(mem)@, final(sregs).cr3 as int, va) == Some(va),
        final(sregs).efer as int / 0x100 % 2 == 1,
        final(sregs).efer as int / 0x400 % 2 == 1,
        final(sregs).cr0 % 2 == 1,
        final(sregs).cr0 as int / 0x8000_0000 % 2 == 1,
        final(sregs).cr4 as int / 0x20 % 2 == 1,
        final(sregs).gdt_limit == 8 * crate::gdt::gdt_words().len() - 1,
        crate::gdt::describes(crate::gdt::gdt_words(), final(sregs).cs),
        crate::gdt::describes(crate::gdt::gdt_words(), final(sregs).ss),
        final(sregs).cs.l == 1,
        r matches Ok(regs) && regs.rip == entry_point && regs.rsi == 0x7000,
{
    let with_gdt = splice(old(mem)@, 0x500, crate::bytes::le64_all(crate::gdt::gdt_words()));
    crate::gdt::law_identity_map(with_gdt, final(mem)@, mem_size as int, va);
    crate::gdt::law_segments_agree_with_the_table();
}

/// A guest starts from its kernel unless it is restored, from a file or from
/// another host.
pub proof fn law_where_a_guest_comes_from(args: &Args, s: BootSource)
    requires
        call_ensures(boot_source, (args,), s),
    ensures
        s is Kernel <==> args@.restore is None && args@.migrate_listen is None,
        s is Snapshot <==> args@.restore is Some,
{
}

/// The run ends as was first asked for, and as the first CPU ended if nobody
/// asked.
pub proof fn law_how_a_run_ends(slot: &ExitSlot, bsp: Outcome, r: Outcome)
    requires
        call_ensures(final_outcome, (slot, bsp), r),
    ensures
        slot@ matches Some(first) ==> same_outcome(r, first),
        slot@ is None ==> r == bsp,
{
}

} // verus!
