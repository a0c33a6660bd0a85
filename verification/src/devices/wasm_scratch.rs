//! The simplest possible plugin: a file of 16 one-byte registers, with no PCI
//! identity, no DMA, no interrupt.

use vstd::prelude::*;

verus! {

/// How many registers there are.
pub const NUM_REGS: usize = 16;

/// The registers.
pub struct ScratchRegs {
    regs: Vec<u8>,
}

impl View for ScratchRegs {
    type V = Seq<u8>;

    closed spec fn view(&self) -> Seq<u8> {
        self.regs@
    }
}

impl ScratchRegs {
    #[verifier::type_invariant]
    spec fn inv(self) -> bool {
        self.regs@.len() == NUM_REGS
    }

    /// Registers that are all zero.
    pub fn new() -> (r: Self)
        ensures
            r@ == Seq::new(16, |i: int| 0u8),
    {
        let mut regs: Vec<u8> = Vec::new();
        crate::bytes::push_zeroes(&mut regs, NUM_REGS);
        assert(regs@ =~= Seq::new(16, |i: int| 0u8));
        ScratchRegs { regs }
    }
}

/// The version of the plugin interface that this plugin speaks.
pub fn hyperbug_abi_version() -> (r: i32)
    ensures
        r == 1,
{
    1
}

/// The first register of an access. Addresses have 32 bits.
pub open spec fn first_reg(offset: i64) -> int {
    offset as int % 0x1_0000_0000
}

fn start_of(offset: i64) -> (r: u64)
    ensures
        r == first_reg(offset),
{
    if offset >= 0 {
        (offset % 0x1_0000_0000) as u64
    } else {
        let below: i64 = -(offset + 1);
        (0xffff_ffff - below % 0x1_0000_0000) as u64
    }
}

/// Reads `data.len()` registers from `offset`. What is past the last one
/// reads as zero.
pub fn hyperbug_read(regs: &ScratchRegs, offset: i64, data: &mut [u8])
    ensures
        regs@.len() == 16,
        final(data)@ == Seq::new(
            old(data)@.len(),
            |k: int| if first_reg(offset) + k < 16 { regs@[first_reg(offset) + k] } else { 0u8 },
        ),
{
    proof {
        use_type_invariant(regs);
    }
    let at: u64 = start_of(offset);
    let mut i: usize = 0;
    while i < data.len()
        invariant
            i <= data@.len() == old(data)@.len(),
            at == first_reg(offset),
            regs@.len() == 16,
            regs@ == regs.regs@,
            forall|k: int|
                0 <= k < i ==> data@[k] == (if first_reg(offset) + k < 16 {
                    regs@[first_reg(offset) + k]
                } else {
                    0u8
                }),
        decreases data@.len() - i,
    {
        let v: u8 = if at < 16 && i < 16 && at as usize + i < 16 { regs.regs[at as usize + i] } else { 0 };
        data[i] = v;
        i += 1;
    }
    assert(data@ =~= Seq::new(
        old(data)@.len(),
        |k: int| if first_reg(offset) + k < 16 { regs@[first_reg(offset) + k] } else { 0u8 },
    ));
}

/// The registers after `data` was written at `offset`. What goes past the last
/// one is dropped.
pub open spec fn written(regs: Seq<u8>, offset: i64, data: Seq<u8>) -> Seq<u8> {
    let at = first_reg(offset);
    Seq::new(regs.len(), |k: int| if at <= k < at + data.len() { data[k - at] } else { regs[k] })
}

/// Writes `data` at `offset`. It never asks for an interrupt.
pub fn hyperbug_write(regs: &mut ScratchRegs, offset: i64, data: &[u8]) -> (r: i32)
    ensures
        r == 0,
        final(regs)@ == written(old(regs)@, offset, data@),
{
    proof {
        use_type_invariant(&*regs);
    }
    let at: u64 = start_of(offset);
    let mut v: Vec<u8> = Vec::new();
    let mut k: u64 = 0;
    while k < 16
        invariant
            k <= 16,
            v@.len() == k,
            at == first_reg(offset),
            regs.regs@.len() == 16,
            regs.regs@ == old(regs)@,
            forall|j: int| 0 <= j < k ==> v@[j] == written(old(regs)@, offset, data@)[j],
        decreases 16 - k,
    {
        let b: u8 = if at <= k && k - at < data.len() as u64 {
            data[(k - at) as usize]
        } else {
            regs.regs[k as usize]
        };
        v.push(b);
        k += 1;
    }
    regs.regs = v;
    assert(regs@ =~= written(old(regs)@, offset, data@));
    0
}

/// What is written inside of the register file is read back.
pub proof fn law_written_is_read_back(regs: Seq<u8>, offset: i64, data: Seq<u8>, k: int)
    requires
        regs.len() == 16,
        0 <= k < data.len(),
        first_reg(offset) + k < 16,
    ensures
        written(regs, offset, data)[first_reg(offset) + k] == data[k],
{
}

/// A write changes the registers that it names and no others, and none past
/// the last.
pub proof fn law_writes_leave_other_registers(regs: Seq<u8>, offset: i64, data: Seq<u8>, k: int)
    requires
        regs.len() == 16,
        0 <= offset < 0x1_0000_0000,
        0 <= k < 16,
    ensures
        written(regs, offset, data).len() == 16,
        written(regs, offset, data)[k] == (if offset <= k < offset + data.len() { data[k - offset] } else { regs[k] }),
        first_reg(offset) == offset,
{
}

} // verus!
