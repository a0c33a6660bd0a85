# hyperbug

A small virtual machine monitor for Linux KVM, whose devices can be Python
scripts, shared objects or processes of their own.

`src/` is the library: everything that the monitor decides and computes, with
contracts that Verus proves. It makes no system call. `app/` is the program
around it: the ioctls, sockets, files, threads and interpreter calls, which hand
plain values to the library and do what it answers.

| Modules | What they hold |
|---|---|
| `bytes`, `text`, `hex`, `regs` | encodings that the other modules speak of |
| `mem`, `loader`, `gdt`, `acpi`, `smbios`, `launch` | guest memory and what is put there before the guest starts |
| `cpuid`, `pmu` | the processor that a guest sees, and the branch counter |
| `device`, `pci`, `serial`, `irq`, `i2c`, `gpio`, `machine` | devices, buses, and how a machine is put together |
| `plugin`, `pydevice`, `pydevice_proc`, `native_plugin`, `cgroup`, `seccomp`, `devices` | device plugins: their protocol, their confinement, two examples |
| `control`, `gdbstub`, `record` | the control socket, the debugger stub, record and replay |
| `config`, `error`, `logging`, `crashdump`, `reactor`, `snapshot`, `fork`, `migrate` | a run from its command line to its end |

Each module states its laws as public proof functions whose names begin with
`law_`: what a snapshot brings back, that a plugin stays inside of its memory
range, that a debugger sees memory as if it had set no breakpoint, that tables
do not overlap.

The library trusts five calls, each behind one function that says what is
claimed of it: `text::quote` and `text::lossy` (formatting and decoding of
std), `pmu::cpuid_leaf_0` (the processor's own identification), and
`seccomp::parse_arch` and `seccomp::compile_filter` (the seccomp compiler).

The program expects the compiled ACPI DSDT and the Python package under
`/usr/share/hyperbug`. It has no virtio devices and no WASM runtime: the library
places them, and the program says so when a command line asks for one.
