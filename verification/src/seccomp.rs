//! The system calls that a sandboxed plugin's process may not make, and the
//! filter that refuses them.
//!
//! It is a deny-list: an interpreter needs too many system calls, and too
//! different ones from version to version, to list what is allowed. What is
//! denied has no use in a device plugin and would let it out of its process or
//! damage the host. A denied call fails with `EPERM`; every other is left
//! alone.

use vstd::prelude::*;
use vstd::string::*;

use crate::logging::lower;
use crate::text::cat2;

verus! {

/// The error that a denied system call gives.
pub const EPERM: u32 = 1;

/// The denied system calls, by their x86-64 numbers.
pub open spec fn denied() -> Seq<i64> {
    seq![
        101i64, 310i64, 311i64, 165i64, 166i64, 155i64, 161i64, 169i64, 246i64, 320i64, 175i64, 313i64,
        176i64, 172i64, 173i64, 167i64, 168i64, 163i64, 179i64, 164i64, 227i64, 170i64, 171i64, 272i64,
        308i64, 135i64, 321i64, 298i64,
    ]
}

/// The denied system calls.
pub fn denied_syscalls() -> (r: Vec<i64>)
    ensures
        r@ == denied(),
{
    let mut v: Vec<i64> = Vec::new();
    // ptrace, process_vm_readv, process_vm_writev
    v.push(101);
    v.push(310);
    v.push(311);
    // mount, umount2, pivot_root, chroot
    v.push(165);
    v.push(166);
    v.push(155);
    v.push(161);
    // reboot, kexec_load, kexec_file_load
    v.push(169);
    v.push(246);
    v.push(320);
    // init_module, finit_module, delete_module
    v.push(175);
    v.push(313);
    v.push(176);
    // iopl, ioperm
    v.push(172);
    v.push(173);
    // swapon, swapoff, acct, quotactl
    v.push(167);
    v.push(168);
    v.push(163);
    v.push(179);
    // settimeofday, clock_settime, sethostname, setdomainname
    v.push(164);
    v.push(227);
    v.push(170);
    v.push(171);
    // unshare, setns, personality
    v.push(272);
    v.push(308);
    v.push(135);
    // bpf, perf_event_open
    v.push(321);
    v.push(298);
    assert(v@ =~= denied());
    v
}

/// An architecture that a filter can be made for.
#[derive(Clone, Copy, Debug, PartialEq, Eq, Structural)]
pub enum Arch {
    X86_64,
    Aarch64,
    Riscv64,
}

/// What a filter does with a system call: let it through, or answer it with
/// an error number.
#[derive(Clone, Copy, Debug, PartialEq, Eq, Structural)]
pub enum Action {
    Allow,
    Errno(u32),
}

/// One instruction of a filter.
#[derive(Clone, Copy, Debug, PartialEq, Eq, Structural)]
pub struct BpfInsn {
    pub code: u16,
    pub jt: u8,
    pub jf: u8,
    pub k: u32,
}

/// An error of the filter compiler.
#[verifier::external_type_specification]
#[verifier::external_body]
pub struct ExBackendError(seccompiler::BackendError);

/// The architecture that a name of ASCII letters denotes, in any mix of cases.
pub open spec fn arch_named(name: Seq<char>) -> Option<Arch> {
    if lower(name) == "x86_64"@ {
        Some(Arch::X86_64)
    } else if lower(name) == "aarch64"@ {
        Some(Arch::Aarch64)
    } else if lower(name) == "riscv64"@ {
        Some(Arch::Riscv64)
    } else {
        None
    }
}

/// The architecture that the filter compiler finds under a name.
pub uninterp spec fn target_arch(name: Seq<char>) -> Option<Arch>;

/// The architecture that seccompiler's `TargetArch::try_from` finds under
/// `name`. It compares the lower-cased name with the three that it knows. That
/// is spelled out for names in ASCII, for which lower case needs no tables.
#[verifier::external_body]
fn parse_arch(name: &str) -> (r: Result<Arch, seccompiler::BackendError>)
    ensures
        match target_arch(name@) {
            Some(a) => r == Ok::<Arch, seccompiler::BackendError>(a),
            None => r is Err,
        },
        name.is_ascii() ==> match arch_named(name@) {
            Some(a) => r == Ok::<Arch, seccompiler::BackendError>(a),
            None => r is Err,
        },
{
    Ok(match seccompiler::TargetArch::try_from(name)? {
        seccompiler::TargetArch::x86_64 => Arch::X86_64,
        seccompiler::TargetArch::aarch64 => Arch::Aarch64,
        seccompiler::TargetArch::riscv64 => Arch::Riscv64,
    })
}

/// The program that does `on_match` with the system calls `calls` and
/// `otherwise` with all others.
pub uninterp spec fn filter_program(calls: Seq<i64>, otherwise: Action, on_match: Action, arch: Arch) -> Seq<
    BpfInsn,
>;

/// Compiles a list of system calls with seccompiler: `SeccompFilter::new`,
/// with each system call without conditions, `otherwise` for what does not
/// match and `on_match` for what does, turned into a `BpfProgram`. The program
/// is named and not spelled out. It fails if the two actions are the same, or
/// if the program would reach 4096 instructions, and takes five for each
/// system call and five besides. A number outside of 32 bits would make it
/// panic.
#[verifier::external_body]
fn compile_filter(calls: &Vec<i64>, otherwise: Action, on_match: Action, arch: Arch) -> (r: Result<
    Vec<BpfInsn>,
    seccompiler::BackendError,
>)
    requires
        forall|i: int| 0 <= i < calls@.len() ==> 0 <= #[trigger] calls@[i] <= u32::MAX,
    ensures
        r matches Ok(p) ==> p@ == filter_program(calls@, otherwise, on_match, arch),
        otherwise == on_match ==> r is Err,
        otherwise != on_match && calls@.len() <= 800 ==> r is Ok,
        r matches Ok(p) ==> calls@.len() > 0 && calls@.no_duplicates() ==> p@.len() == 5 * calls@.len() + 5,
{
    let action = |a| match a {
        Action::Allow => seccompiler::SeccompAction::Allow,
        Action::Errno(e) => seccompiler::SeccompAction::Errno(e),
    };
    let target = match arch {
        Arch::X86_64 => seccompiler::TargetArch::x86_64,
        Arch::Aarch64 => seccompiler::TargetArch::aarch64,
        Arch::Riscv64 => seccompiler::TargetArch::riscv64,
    };
    let rules = calls.iter().map(|n| (*n, Vec::new())).collect();
    let filter = seccompiler::SeccompFilter::new(rules, action(otherwise), action(on_match), target)?;
    let program = seccompiler::BpfProgram::try_from(filter)?;
    Ok(program.iter().map(|i| BpfInsn { code: i.code, jt: i.jt, jf: i.jf, k: i.k }).collect())
}

/// Every denied system call has a number of its own, and one of 32 bits.
pub proof fn law_denied_are_distinct()
    ensures
        denied().len() == 28,
        denied().no_duplicates(),
        forall|i: int| 0 <= i < denied().len() ==> 0 <= #[trigger] denied()[i] <= u32::MAX,
{
}

/// The filter for the processor architecture `arch`: it refuses every denied
/// system call with `EPERM` and allows all others. An architecture that filters cannot be made for
/// is an error.
pub fn build_filter(arch: &str) -> (r: Result<Vec<BpfInsn>, String>)
    ensures
        arch.is_ascii() ==> target_arch(arch@) == arch_named(arch@),
        match target_arch(arch@) {
            Some(a) => r matches Ok(p) && p@ == filter_program(denied(), Action::Allow, Action::Errno(EPERM), a)
                && p@.len() == 145,
            None => r matches Err(e) && e@ == "unsupported architecture for seccomp: "@ + arch@,
        },
{
    let target = match parse_arch(arch) {
        Ok(a) => a,
        Err(_) => {
            return Err(cat2("unsupported architecture for seccomp: ", arch));
        },
    };
    let deny = denied_syscalls();
    proof {
        law_denied_are_distinct();
    }
    match compile_filter(&deny, Action::Allow, Action::Errno(EPERM), target) {
        Ok(p) => Ok(p),
        Err(_) => Err("compiling seccomp filter to BPF".to_owned()),
    }
}

} // verus!
