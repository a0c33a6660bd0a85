//! hyperbug: the logic of a small virtual machine monitor for KVM.
//!
//! The crate holds what the monitor decides and computes, with its contracts
//! proved: how a command line is read, how a kernel and its tables are laid
//! out in guest memory, how the serial port and the PCI bus answer, what the
//! debugger, control-socket and plugin protocols mean, and when a run ends.
//! The system calls around it (KVM, sockets, files, threads, the Python
//! interpreter) are made by the program, which hands plain values in and takes
//! plain values back.

// Values and their encodings.
pub mod bytes;
pub mod hex;
pub mod regs;
pub mod text;

// The guest's memory, and what is put there before it starts.
pub mod acpi;
pub mod gdt;
pub mod loader;
pub mod mem;
pub mod smbios;

// The processor.
pub mod cpuid;
pub mod pmu;

// Devices and the buses that they sit on.
pub mod device;
pub mod gpio;
pub mod i2c;
pub mod irq;
pub mod pci;
pub mod serial;

// Device plugins.
pub mod cgroup;
pub mod devices;
pub mod native_plugin;
pub mod plugin;
pub mod pydevice;
pub mod pydevice_proc;
pub mod seccomp;

// Protocols spoken with the outside.
pub mod control;
pub mod gdbstub;
pub mod record;

// A run from its command line to its end.
pub mod config;
pub mod crashdump;
pub mod error;
pub mod fork;
pub mod launch;
pub mod logging;
pub mod machine;
pub mod migrate;
pub mod reactor;
pub mod snapshot;

pub use config::{Args, DeviceSpec, PciDeviceSpec, USAGE};
pub use error::{GuestExit, HyperbugError};
