//! The registers of a virtual CPU.

use vstd::prelude::*;

verus! {

/// The general-purpose registers, the instruction pointer and the flags.
#[derive(Clone, Copy, Debug, PartialEq, Eq, Structural)]
pub struct Regs {
    pub rax: u64,
    pub rbx: u64,
    pub rcx: u64,
    pub rdx: u64,
    pub rsi: u64,
    pub rdi: u64,
    pub rsp: u64,
    pub rbp: u64,
    pub r8: u64,
    pub r9: u64,
    pub r10: u64,
    pub r11: u64,
    pub r12: u64,
    pub r13: u64,
    pub r14: u64,
    pub r15: u64,
    pub rip: u64,
    pub rflags: u64,
}

impl Default for Regs {
    fn default() -> (r: Self)
        ensures
            r == (Regs {
                rax: 0, rbx: 0, rcx: 0, rdx: 0, rsi: 0, rdi: 0, rsp: 0, rbp: 0,
                r8: 0, r9: 0, r10: 0, r11: 0, r12: 0, r13: 0, r14: 0, r15: 0,
                rip: 0, rflags: 0,
            }),
    {
        Regs {
            rax: 0, rbx: 0, rcx: 0, rdx: 0, rsi: 0, rdi: 0, rsp: 0, rbp: 0,
            r8: 0, r9: 0, r10: 0, r11: 0, r12: 0, r13: 0, r14: 0, r15: 0,
            rip: 0, rflags: 0,
        }
    }
}

/// A segment register with its hidden descriptor.
#[derive(Clone, Copy, Debug, PartialEq, Eq, Structural)]
pub struct Segment {
    pub base: u64,
    pub limit: u32,
    pub selector: u16,
    pub type_: u8,
    pub present: u8,
    pub dpl: u8,
    pub db: u8,
    pub s: u8,
    pub l: u8,
    pub g: u8,
    pub avl: u8,
    pub unusable: u8,
}

/// A segment register that is all zero.
pub open spec fn null_segment() -> Segment {
    Segment {
        base: 0, limit: 0, selector: 0, type_: 0, present: 0, dpl: 0, db: 0, s: 0, l: 0, g: 0,
        avl: 0, unusable: 0,
    }
}

impl Default for Segment {
    fn default() -> (r: Self)
        ensures
            r == null_segment(),
    {
        Segment {
            base: 0, limit: 0, selector: 0, type_: 0, present: 0, dpl: 0, db: 0, s: 0, l: 0, g: 0,
            avl: 0, unusable: 0,
        }
    }
}

/// The segment and control registers.
#[derive(Clone, Copy, Debug, PartialEq, Eq, Structural)]
pub struct Sregs {
    pub cs: Segment,
    pub ds: Segment,
    pub es: Segment,
    pub fs: Segment,
    pub gs: Segment,
    pub ss: Segment,
    pub gdt_base: u64,
    pub gdt_limit: u16,
    pub cr0: u64,
    pub cr2: u64,
    pub cr3: u64,
    pub cr4: u64,
    pub efer: u64,
}

impl Default for Sregs {
    fn default() -> (r: Self)
        ensures
            r == (Sregs {
                cs: null_segment(), ds: null_segment(), es: null_segment(), fs: null_segment(),
                gs: null_segment(), ss: null_segment(), gdt_base: 0, gdt_limit: 0, cr0: 0, cr2: 0,
                cr3: 0, cr4: 0, efer: 0,
            }),
    {
        let z = Segment::default();
        Sregs {
            cs: z, ds: z, es: z, fs: z, gs: z, ss: z, gdt_base: 0, gdt_limit: 0, cr0: 0, cr2: 0,
            cr3: 0, cr4: 0, efer: 0,
        }
    }
}

} // verus!
