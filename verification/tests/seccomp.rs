use hyperbug::seccomp::{build_filter, denied_syscalls, EPERM};

/// The filter itself builds and compiles to a real BPF program on
/// this architecture.
#[test]
fn the_filter_builds_and_compiles_on_this_architecture() {
    let bpf = build_filter("x86_64").expect("filter should build and compile");
    assert!(!bpf.is_empty(), "a real filter should never compile to zero BPF instructions");
}

#[test]
fn the_denied_calls_have_this_architectures_numbers() {
    let named = [
        libc::SYS_ptrace,
        libc::SYS_process_vm_readv,
        libc::SYS_process_vm_writev,
        libc::SYS_mount,
        libc::SYS_umount2,
        libc::SYS_pivot_root,
        libc::SYS_chroot,
        libc::SYS_reboot,
        libc::SYS_kexec_load,
        libc::SYS_kexec_file_load,
        libc::SYS_init_module,
        libc::SYS_finit_module,
        libc::SYS_delete_module,
        libc::SYS_iopl,
        libc::SYS_ioperm,
        libc::SYS_swapon,
        libc::SYS_swapoff,
        libc::SYS_acct,
        libc::SYS_quotactl,
        libc::SYS_settimeofday,
        libc::SYS_clock_settime,
        libc::SYS_sethostname,
        libc::SYS_setdomainname,
        libc::SYS_unshare,
        libc::SYS_setns,
        libc::SYS_personality,
        libc::SYS_bpf,
        libc::SYS_perf_event_open,
    ];
    assert_eq!(denied_syscalls(), named);
    assert_eq!(EPERM as i32, libc::EPERM);
}

#[test]
fn every_denied_call_is_compared_and_refused_with_eperm() {
    let bpf = build_filter("x86_64").unwrap();
    assert_eq!(bpf.len(), 145);
    for n in denied_syscalls() {
        assert!(bpf.iter().any(|i| i.k == n as u32 && i.code == 0x15), "no comparison with {n}");
    }
    // SECCOMP_RET_ERRNO with EPERM, and SECCOMP_RET_ALLOW.
    assert!(bpf.iter().any(|i| i.code == 0x06 && i.k == 0x0005_0001));
    assert_eq!(bpf.last().map(|i| (i.code, i.k)), Some((0x06, 0x7fff_0000)));
}

#[test]
fn the_architecture_is_part_of_the_filter() {
    assert_eq!(build_filter("X86_64").unwrap(), build_filter("x86_64").unwrap());
    assert_ne!(build_filter("aarch64").unwrap(), build_filter("x86_64").unwrap());
    assert_ne!(build_filter("riscv64").unwrap(), build_filter("aarch64").unwrap());
    assert_eq!(build_filter("sparc").unwrap_err(), "unsupported architecture for seccomp: sparc");
}
