//! A GDB remote-protocol stub for one virtual CPU: software breakpoints,
//! memory and register access, continue and single step.
//!
//! This module holds the stub's state and decisions. The caller owns the
//! connection and the CPU: it feeds received bytes to a `PacketReader`, hands
//! complete packets to `GdbStub::handle_packet`, and does what the returned
//! `PacketAction` says.
//!
//! Registers travel in the classic amd64 order, little-endian: `rax`, `rbx`,
//! `rcx`, `rdx`, `rsi`, `rdi`, `rbp`, `rsp`, `r8` to `r15` and `rip` in eight
//! bytes each, then `eflags`, `cs`, `ss`, `ds`, `es`, `fs` and `gs` in four.

use std::collections::HashMap;

use vstd::prelude::*;
use vstd::std_specs::iter::IteratorSpec;
use vstd::string::*;
use vstd::utf8::*;

pub use crate::hex::{from_hex, hex_value, to_hex};
use crate::hex::{hex_bytes, hex_text, is_hex_text};
use crate::bytes::{get_u32, get_u64, le32, le32_all, le64_all, lemma_le64_all, push_slice, push_u32_all, push_u64_all, splice, sum8, sum_bytes, u32_at, u64_at};
use crate::mem::GuestMemory;
use crate::regs::{Regs, Sregs};
use crate::text::{digit_char, digit_value, digits_from, hex, lossy, lossy_text, parse_uint};
use crate::text::{cat2, dec, dec_string, hex_number, read_hex, rest, split_first, split_once, starts_with, str_eq, strip_prefix};

verus! {

/// The exception vector of a breakpoint.
pub const BP_VECTOR: u8 = 3;

/// The one-byte breakpoint instruction.
pub const INT3: u8 = 0xCC;

/// The most bytes that one memory read returns.
pub const MAX_READ: u64 = 1 << 20;

/// Debugging of the guest is on.
pub const GUESTDBG_ENABLE: u32 = 1;

/// The guest stops after one instruction.
pub const GUESTDBG_SINGLESTEP: u32 = 2;

/// Breakpoint instructions stop the guest.
pub const GUESTDBG_USE_SW_BP: u32 = 0x10000;

/// What the CPU loop is to do after a debug exit.
#[derive(Clone, Copy, Debug, PartialEq, Eq, Structural)]
pub enum DebugAction {
    /// A breakpoint of the stub's own or a completed single step: a stop is
    /// to be reported, and the debugger's next command awaited.
    Stop,
    /// A breakpoint instruction of the guest's own: it is to be delivered to
    /// the guest, which then keeps running.
    ForwardToGuest,
    /// An internal step over one of the stub's own breakpoints is complete;
    /// the guest keeps running with this debug control word.
    Resumed(u32),
}

/// The breakpoints that are set: addresses, each with the byte that the
/// breakpoint instruction stands in for.
pub struct Breakpoints {
    entries: HashMap<u64, u8>,
}

impl View for Breakpoints {
    type V = Map<u64, u8>;

    closed spec fn view(&self) -> Map<u64, u8> {
        self.entries@
    }
}

impl Breakpoints {
    /// No breakpoints.
    pub fn new() -> (r: Self)
        ensures
            r@ == Map::<u64, u8>::empty(),
    {
        Breakpoints { entries: HashMap::new() }
    }

    /// The byte behind the breakpoint at `addr`.
    pub fn get(&self, addr: u64) -> (r: Option<u8>)
        ensures
            r == (if self@.contains_key(addr) { Some(self@[addr]) } else { None }),
    {
        broadcast use vstd::std_specs::hash::group_hash_axioms;

        match self.entries.get(&addr) {
            Some(b) => Some(*b),
            None => None,
        }
    }

    /// Sets the breakpoint at `addr`, unless one is there already.
    pub fn insert(&mut self, addr: u64, byte: u8)
        ensures
            final(self)@ == (if old(self)@.contains_key(addr) {
                old(self)@
            } else {
                old(self)@.insert(addr, byte)
            }),
    {
        broadcast use vstd::std_specs::hash::group_hash_axioms;

        if !self.entries.contains_key(&addr) {
            self.entries.insert(addr, byte);
        }
    }

    /// Removes the breakpoint at `addr` and returns the byte behind it.
    pub fn remove(&mut self, addr: u64) -> (r: Option<u8>)
        ensures
            r == (if old(self)@.contains_key(addr) { Some(old(self)@[addr]) } else { None }),
            final(self)@ == old(self)@.remove(addr),
    {
        broadcast use vstd::std_specs::hash::group_hash_axioms;

        let r = self.entries.remove(&addr);
        assert(self@ =~= old(self)@.remove(addr));
        r
    }

    /// Puts the bytes behind the breakpoints back into `mem`.
    fn unpatch(&self, mem: &mut GuestMemory)
        ensures
            final(mem)@ == unpatched(old(mem)@, self@),
    {
        broadcast use vstd::std_specs::hash::group_hash_axioms;

        let size: usize = mem.size();
        let ghost all = vstd::std_specs::hash::spec_keys_iter(&self.entries).remaining();
        assert forall|k: int| 0 <= k < all.len() implies self@.contains_key(*#[trigger] all[k]) by {
            assert(all.unref()[k] == *all[k]);
            assert(all.unref().to_set().contains(*all[k]));
        }
        for key in keys: self.entries.keys()
            invariant
                size == old(mem)@.len() == mem@.len(),
                forall|k: int| 0 <= k < keys.seq().len() ==> self@.contains_key(*#[trigger] keys.seq()[k]),
                forall|a: int|
                    0 <= a < size ==> #[trigger] mem@[a] == (if exists|k: int|
                        0 <= k < keys.index() && *(#[trigger] keys.seq()[k]) == a {
                        self@[a as u64]
                    } else {
                        old(mem)@[a]
                    }),
        {
            let addr: u64 = *key;
            let byte: u8 = match self.get(addr) {
                Some(b) => b,
                None => 0,
            };
            let one: [u8; 1] = [byte];
            mem.write_checked(addr, one.as_slice());
        }
        assert(mem@ =~= unpatched(old(mem)@, self@));
    }

    /// Replaces the bytes of `buf`, read at `addr`, that breakpoints stand in
    /// for.
    fn shadow(&self, addr: u64, buf: &mut Vec<u8>)
        requires
            addr + old(buf)@.len() <= u64::MAX,
        ensures
            final(buf)@ == shadowed(old(buf)@, self@, addr),
    {
        let n: usize = buf.len();
        let mut i: usize = 0;
        while i < n
            invariant
                i <= n == buf@.len() == old(buf)@.len(),
                addr + n <= u64::MAX,
                forall|k: int|
                    0 <= k < n ==> #[trigger] buf@[k] == (if k < i {
                        shadowed(old(buf)@, self@, addr)[k]
                    } else {
                        old(buf)@[k]
                    }),
            decreases n - i,
        {
            if let Some(byte) = self.get(addr + i as u64) {
                buf.set(i, byte);
            }
            i += 1;
        }
        assert(buf@ =~= shadowed(old(buf)@, self@, addr));
    }

    /// Takes over `data`, just written at `addr`: the bytes that fall on a
    /// breakpoint become the ones behind it, and the breakpoint instruction
    /// is put back.
    fn absorb(&mut self, addr: u64, data: &Vec<u8>, mem: &mut GuestMemory)
        requires
            addr + data@.len() <= old(mem)@.len(),
        ensures
            final(self)@ == absorbed(old(self)@, addr, data@),
            final(mem)@ == repatched(old(mem)@, old(self)@, addr, data@.len()),
    {
        broadcast use vstd::std_specs::hash::group_hash_axioms;

        let size: usize = mem.size();
        let n: usize = data.len();
        let mut i: usize = 0;
        assert(self@ =~= absorbed(old(self)@, addr, data@.take(0)));
        assert(mem@ =~= repatched(old(mem)@, old(self)@, addr, 0));
        while i < n
            invariant
                i <= n == data@.len(),
                size == mem@.len() == old(mem)@.len(),
                addr + n <= size,
                self@ == absorbed(old(self)@, addr, data@.take(i as int)),
                mem@ == repatched(old(mem)@, old(self)@, addr, i as nat),
            decreases n - i,
        {
            let at: u64 = addr + i as u64;
            if self.entries.contains_key(&at) {
                self.entries.insert(at, data[i]);
                let one: [u8; 1] = [INT3];
                mem.write_checked(at, one.as_slice());
            }
            i += 1;
            assert(self@ =~= absorbed(old(self)@, addr, data@.take(i as int)));
            assert(mem@ =~= repatched(old(mem)@, old(self)@, addr, i as nat));
        }
        assert(data@.take(i as int) =~= data@);
    }
}

/// Memory as it would be with no breakpoint set.
pub open spec fn unpatched(mem: Seq<u8>, bps: Map<u64, u8>) -> Seq<u8> {
    Seq::new(mem.len(), |i: int| if bps.contains_key(i as u64) { bps[i as u64] } else { mem[i] })
}

/// `buf`, read at `addr`, as it would be with no breakpoint set.
pub open spec fn shadowed(buf: Seq<u8>, bps: Map<u64, u8>, addr: u64) -> Seq<u8> {
    Seq::new(
        buf.len(),
        |k: int|
            if bps.contains_key((addr + k) as u64) { bps[(addr + k) as u64] } else { buf[k] },
    )
}

/// The breakpoints after `data` was written at `addr`.
pub open spec fn absorbed(bps: Map<u64, u8>, addr: u64, data: Seq<u8>) -> Map<u64, u8> {
    Map::new(
        |a: u64| bps.contains_key(a),
        |a: u64| if addr <= a < addr + data.len() { data[a - addr] } else { bps[a] },
    )
}

/// Memory with the breakpoint instructions put back in `[addr, addr + len)`.
pub open spec fn repatched(mem: Seq<u8>, bps: Map<u64, u8>, addr: u64, len: nat) -> Seq<u8> {
    Seq::new(
        mem.len(),
        |i: int|
            if addr <= i < addr + len && bps.contains_key(i as u64) { INT3 } else { mem[i] },
    )
}

/// The state of a stub.
pub struct GdbView {
    /// The breakpoints, each with the byte behind it.
    pub breakpoints: Map<u64, u8>,
    /// A debugger is connected.
    pub attached: bool,
    /// The guest is not to run.
    pub stopped: bool,
    /// The debugger asked for the end of the run.
    pub killed: bool,
    /// Packets are no longer acknowledged.
    pub no_ack: bool,
    /// The guest runs for one instruction only.
    pub was_stepping: bool,
    /// The breakpoint that is being stepped over.
    pub pending_step_over: Option<u64>,
    /// Whether the guest keeps running after that step.
    pub resume_after_step_over: bool,
}

/// `mem` with `byte` at `addr`, if that is inside.
pub open spec fn poked(mem: Seq<u8>, addr: u64, byte: u8) -> Seq<u8> {
    if addr < mem.len() {
        splice(mem, addr as int, seq![byte])
    } else {
        mem
    }
}

/// The debug control word of a guest that runs with breakpoints.
pub open spec fn control_word(single_step: bool) -> u32 {
    if single_step {
        0x10003u32
    } else {
        0x10001u32
    }
}

/// The stub and memory after the guest was let go with its instruction
/// pointer at `rip`. If a breakpoint is set right there, the byte behind it is
/// put back and one instruction is stepped first.
pub open spec fn resumed(v: GdbView, mem: Seq<u8>, rip: u64, single_step: bool) -> (GdbView, Seq<u8>, u32) {
    if v.breakpoints.contains_key(rip) {
        (
            GdbView {
                pending_step_over: Some(rip),
                resume_after_step_over: !single_step,
                was_stepping: true,
                stopped: false,
                ..v
            },
            poked(mem, rip, v.breakpoints[rip]),
            control_word(true),
        )
    } else {
        (
            GdbView { pending_step_over: None, was_stepping: single_step, stopped: false, ..v },
            mem,
            control_word(single_step),
        )
    }
}

/// The 64-bit registers in the order of the register block.
pub open spec fn register_words(r: Regs) -> Seq<u64> {
    seq![
        r.rax, r.rbx, r.rcx, r.rdx, r.rsi, r.rdi, r.rbp, r.rsp, r.r8, r.r9, r.r10, r.r11, r.r12,
        r.r13, r.r14, r.r15, r.rip,
    ]
}

/// The 32-bit registers in the order of the register block.
pub open spec fn register_halves(r: Regs, s: Sregs) -> Seq<u32> {
    seq![
        (r.rflags % 0x1_0000_0000) as u32, s.cs.selector as u32, s.ss.selector as u32,
        s.ds.selector as u32, s.es.selector as u32, s.fs.selector as u32, s.gs.selector as u32,
    ]
}

/// The register block of `g`.
pub open spec fn register_bytes(r: Regs, s: Sregs) -> Seq<u8> {
    le64_all(register_words(r)) + le32_all(register_halves(r, s))
}

/// `r` with what a register block holds. The flags are there only in a block
/// that is long enough; the segment selectors are not taken over.
pub open spec fn registers_from(b: Seq<u8>, r: Regs) -> Regs {
    Regs {
        rax: u64_at(b, 0),
        rbx: u64_at(b, 8),
        rcx: u64_at(b, 16),
        rdx: u64_at(b, 24),
        rsi: u64_at(b, 32),
        rdi: u64_at(b, 40),
        rbp: u64_at(b, 48),
        rsp: u64_at(b, 56),
        r8: u64_at(b, 64),
        r9: u64_at(b, 72),
        r10: u64_at(b, 80),
        r11: u64_at(b, 88),
        r12: u64_at(b, 96),
        r13: u64_at(b, 104),
        r14: u64_at(b, 112),
        r15: u64_at(b, 120),
        rip: u64_at(b, 128),
        rflags: if b.len() >= 140 { u32_at(b, 136) as u64 } else { r.rflags },
    }
}

/// What a packet asks of whoever holds the connection and the CPU.
#[derive(Debug)]
pub enum PacketAction {
    /// Send this reply.
    Reply(String),
    /// Set these registers, then send `registers_written` of the outcome.
    WriteRegs(Regs),
    /// Set these registers, if any, then this debug control word, and run the
    /// guest. No reply: the next stop sends one.
    Resume(Option<Regs>, u32),
    /// Send `OK`, and set the debug control word 0.
    Detach,
    /// End the run. No reply.
    Kill,
    /// The registers could not be read: send `registers_written` of that
    /// failure.
    RegsUnavailable,
    /// The registers could not be read, and the guest cannot be resumed
    /// without them: end the session with that failure.
    NoRegs,
}

/// What an action holds.
pub enum ActionView {
    Reply(Seq<char>),
    WriteRegs(Regs),
    Resume(Option<Regs>, u32),
    Detach,
    Kill,
    RegsUnavailable,
    NoRegs,
}

impl View for PacketAction {
    type V = ActionView;

    open spec fn view(&self) -> ActionView {
        match *self {
            PacketAction::Reply(s) => ActionView::Reply(s@),
            PacketAction::WriteRegs(r) => ActionView::WriteRegs(r),
            PacketAction::Resume(r, c) => ActionView::Resume(r, c),
            PacketAction::Detach => ActionView::Detach,
            PacketAction::Kill => ActionView::Kill,
            PacketAction::RegsUnavailable => ActionView::RegsUnavailable,
            PacketAction::NoRegs => ActionView::NoRegs,
        }
    }
}

/// The reply to `m` with the argument `arg`: the bytes as they would be with
/// no breakpoint set.
pub open spec fn read_reply(mem: Seq<u8>, bps: Map<u64, u8>, arg: Seq<char>) -> Seq<char> {
    match split_first(arg, ',') {
        None => "E01"@,
        Some((a, l)) => match (hex_number(a), hex_number(l)) {
            (Some(addr), Some(len)) => if len > MAX_READ || addr + len > mem.len() {
                "E01"@
            } else {
                hex_text(shadowed(mem.subrange(addr as int, addr + len), bps, addr))
            },
            _ => "E01"@,
        },
    }
}

/// The address and the bytes of `M` with the argument `arg`.
pub open spec fn write_request(arg: Seq<char>) -> Option<(u64, Seq<u8>)> {
    match split_first(arg, ':') {
        None => None,
        Some((header, data)) => match split_first(header, ',') {
            None => None,
            Some((a, l)) => match (hex_number(a), hex_number(l)) {
                (Some(addr), Some(len)) => if is_hex_text(data) && hex_bytes(data).len() == len {
                    Some((addr, hex_bytes(data)))
                } else {
                    None
                },
                _ => None,
            },
        },
    }
}

/// Breakpoints, memory and the reply after `M` with the argument `arg`.
pub open spec fn write_effect(mem: Seq<u8>, bps: Map<u64, u8>, arg: Seq<char>) -> (
    Map<u64, u8>,
    Seq<u8>,
    Seq<char>,
) {
    match write_request(arg) {
        Some((addr, data)) => if addr + data.len() <= mem.len() {
            (
                absorbed(bps, addr, data),
                repatched(splice(mem, addr as int, data), bps, addr, data.len()),
                "OK"@,
            )
        } else {
            (bps, mem, "E01"@)
        },
        None => (bps, mem, "E01"@),
    }
}

/// The address of a breakpoint packet with the argument `arg`.
pub open spec fn bp_address(arg: Seq<char>) -> Option<u64> {
    match split_first(arg, ',') {
        None => None,
        Some((a, _)) => hex_number(a),
    }
}

/// Breakpoints, memory and the reply after `Z0` with the argument `arg`.
pub open spec fn insert_effect(mem: Seq<u8>, bps: Map<u64, u8>, arg: Seq<char>) -> (
    Map<u64, u8>,
    Seq<u8>,
    Seq<char>,
) {
    match bp_address(arg) {
        Some(addr) => if addr < mem.len() {
            (
                if bps.contains_key(addr) { bps } else { bps.insert(addr, mem[addr as int]) },
                poked(mem, addr, INT3),
                "OK"@,
            )
        } else {
            (bps, mem, "E01"@)
        },
        None => (bps, mem, "E01"@),
    }
}

/// Breakpoints, memory and the reply after `z0` with the argument `arg`.
pub open spec fn remove_effect(mem: Seq<u8>, bps: Map<u64, u8>, arg: Seq<char>) -> (
    Map<u64, u8>,
    Seq<u8>,
    Seq<char>,
) {
    match bp_address(arg) {
        Some(addr) => (
            bps.remove(addr),
            if bps.contains_key(addr) { poked(mem, addr, bps[addr]) } else { mem },
            "OK"@,
        ),
        None => (bps, mem, "E01"@),
    }
}

/// The action for `G` with the argument `arg`.
pub open spec fn write_regs_action(regs: Option<Regs>, arg: Seq<char>) -> ActionView {
    if !is_hex_text(arg) {
        ActionView::Reply("E01;"@ + "bad hex"@)
    } else if hex_bytes(arg).len() < 136 {
        ActionView::Reply(
            "E01;"@ + ("expected at least 136 bytes, got "@ + dec(hex_bytes(arg).len())),
        )
    } else {
        match regs {
            Some(r) => ActionView::WriteRegs(registers_from(hex_bytes(arg), r)),
            None => ActionView::RegsUnavailable,
        }
    }
}

/// Stub, memory and action after a `c` or `s` with the argument `arg`, which
/// may name the address to run from.
pub open spec fn resume_effect(v: GdbView, mem: Seq<u8>, regs: Option<Regs>, arg: Seq<char>, single_step: bool) -> (
    GdbView,
    Seq<u8>,
    ActionView,
) {
    match regs {
        None => (v, mem, ActionView::NoRegs),
        Some(r) => {
            let set = match hex_number(arg) {
                Some(addr) => Some(Regs { rip: addr, ..r }),
                None => None,
            };
            let rip = match set {
                Some(s) => s.rip,
                None => r.rip,
            };
            let (v2, mem2, control) = resumed(v, mem, rip, single_step);
            (v2, mem2, ActionView::Resume(set, control))
        },
    }
}

/// Stub, memory and action after a packet.
pub open spec fn packet_effect(
    v: GdbView,
    mem: Seq<u8>,
    regs: Option<Regs>,
    sregs: Option<Sregs>,
    packet: Seq<char>,
) -> (GdbView, Seq<u8>, ActionView) {
    let bps = v.breakpoints;
    if packet.len() == 0 {
        (v, mem, ActionView::Reply(""@))
    } else {
        let c = packet[0];
        let arg = packet.skip(1);
        if c == '?' {
            (v, mem, ActionView::Reply("S05"@))
        } else if c == 'g' {
            match (regs, sregs) {
                (Some(r), Some(s)) => (v, mem, ActionView::Reply(hex_text(register_bytes(r, s)))),
                _ => (v, mem, ActionView::Reply("E01"@)),
            }
        } else if c == 'G' {
            (v, mem, write_regs_action(regs, arg))
        } else if c == 'm' {
            (v, mem, ActionView::Reply(read_reply(mem, bps, arg)))
        } else if c == 'M' {
            let (b, m, reply) = write_effect(mem, bps, arg);
            (GdbView { breakpoints: b, ..v }, m, ActionView::Reply(reply))
        } else if c == 'c' {
            resume_effect(v, mem, regs, arg, false)
        } else if c == 's' {
            resume_effect(v, mem, regs, arg, true)
        } else if starts_with(packet, "Z0,"@) {
            let (b, m, reply) = insert_effect(mem, bps, packet.skip(3));
            (GdbView { breakpoints: b, ..v }, m, ActionView::Reply(reply))
        } else if starts_with(packet, "z0,"@) {
            let (b, m, reply) = remove_effect(mem, bps, packet.skip(3));
            (GdbView { breakpoints: b, ..v }, m, ActionView::Reply(reply))
        } else if c == 'D' {
            (
                GdbView { breakpoints: Map::empty(), attached: false, stopped: false, ..v },
                unpatched(mem, bps),
                ActionView::Detach,
            )
        } else if c == 'k' {
            (GdbView { killed: true, attached: false, ..v }, mem, ActionView::Kill)
        } else if starts_with(packet, "qSupported"@) {
            (v, mem, ActionView::Reply("PacketSize=4000"@))
        } else if packet == "QStartNoAckMode"@ {
            (GdbView { no_ack: true, ..v }, mem, ActionView::Reply("OK"@))
        } else {
            (v, mem, ActionView::Reply(""@))
        }
    }
}

/// Stub, memory and action after a debug exit at `pc`, with the instruction
/// pointer at `rip`.
pub open spec fn debug_exit_effect(v: GdbView, mem: Seq<u8>, pc: u64, rip: u64) -> (
    GdbView,
    Seq<u8>,
    DebugAction,
) {
    if v.was_stepping {
        match v.pending_step_over {
            Some(addr) => {
                let v1 = GdbView { was_stepping: false, pending_step_over: None, ..v };
                let m1 = poked(mem, addr, INT3);
                if v.resume_after_step_over {
                    let (v2, m2, control) = resumed(v1, m1, rip, false);
                    (v2, m2, DebugAction::Resumed(control))
                } else {
                    (GdbView { stopped: true, ..v1 }, m1, DebugAction::Stop)
                }
            },
            None => (
                GdbView { was_stepping: false, stopped: true, ..v },
                mem,
                DebugAction::Stop,
            ),
        }
    } else if v.breakpoints.contains_key(pc) {
        (GdbView { stopped: true, ..v }, mem, DebugAction::Stop)
    } else {
        (v, mem, DebugAction::ForwardToGuest)
    }
}

/// A stub with one debugger connected.
pub struct GdbStub {
    breakpoints: Breakpoints,
    attached: bool,
    stopped: bool,
    killed: bool,
    no_ack: bool,
    was_stepping: bool,
    pending_step_over: Option<u64>,
    resume_after_step_over: bool,
}

impl View for GdbStub {
    type V = GdbView;

    closed spec fn view(&self) -> GdbView {
        GdbView {
            breakpoints: self.breakpoints@,
            attached: self.attached,
            stopped: self.stopped,
            killed: self.killed,
            no_ack: self.no_ack,
            was_stepping: self.was_stepping,
            pending_step_over: self.pending_step_over,
            resume_after_step_over: self.resume_after_step_over,
        }
    }
}

impl GdbStub {
    /// The stub of a debugger that has just connected: the guest is halted.
    pub fn new() -> (r: Self)
        ensures
            r@ == (GdbView {
                breakpoints: Map::empty(),
                attached: true,
                stopped: true,
                killed: false,
                no_ack: false,
                was_stepping: false,
                pending_step_over: None,
                resume_after_step_over: false,
            }),
    {
        GdbStub {
            breakpoints: Breakpoints::new(),
            attached: true,
            stopped: true,
            killed: false,
            no_ack: false,
            was_stepping: false,
            pending_step_over: None,
            resume_after_step_over: false,
        }
    }

    /// Whether a debugger is connected.
    pub fn is_attached(&self) -> (r: bool)
        ensures
            r == self@.attached,
    {
        self.attached
    }

    /// Whether the guest is not to run.
    pub fn is_stopped(&self) -> (r: bool)
        ensures
            r == self@.stopped,
    {
        self.stopped
    }

    /// Whether the debugger asked for the end of the run.
    pub fn wants_kill(&self) -> (r: bool)
        ensures
            r == self@.killed,
    {
        self.killed
    }

    /// Whether packets are no longer acknowledged.
    pub fn is_no_ack(&self) -> (r: bool)
        ensures
            r == self@.no_ack,
    {
        self.no_ack
    }

    fn poke(mem: &mut GuestMemory, addr: u64, byte: u8)
        ensures
            final(mem)@ == poked(old(mem)@, addr, byte),
    {
        let one: [u8; 1] = [byte];
        assert(one@ =~= seq![byte]);
        mem.write_checked(addr, one.as_slice());
    }

    fn resume(&mut self, rip: u64, single_step: bool, mem: &mut GuestMemory) -> (control: u32)
        ensures
            (final(self)@, final(mem)@, control) == resumed(old(self)@, old(mem)@, rip, single_step),
    {
        let mut force = single_step;
        match self.breakpoints.get(rip) {
            Some(orig) => {
                Self::poke(mem, rip, orig);
                self.pending_step_over = Some(rip);
                self.resume_after_step_over = !single_step;
                force = true;
            },
            None => {
                self.pending_step_over = None;
            },
        }
        self.was_stepping = force;
        self.stopped = false;
        assert(1u32 | 0x10000u32 == 0x10001u32) by (bit_vector);
        assert(0x10001u32 | 2u32 == 0x10003u32) by (bit_vector);
        let mut control: u32 = GUESTDBG_ENABLE | GUESTDBG_USE_SW_BP;
        if force {
            control = control | GUESTDBG_SINGLESTEP;
        }
        control
    }

    /// Decides whether a debug exit is the stub's business or the guest's
    /// own. `pc` is the address of the instruction that trapped, `rip` the
    /// instruction pointer.
    pub fn handle_debug_exit(&mut self, pc: u64, rip: u64, mem: &mut GuestMemory) -> (r: DebugAction)
        ensures
            (final(self)@, final(mem)@, r) == debug_exit_effect(old(self)@, old(mem)@, pc, rip),
    {
        if self.was_stepping {
            self.was_stepping = false;
            if let Some(addr) = self.pending_step_over {
                self.pending_step_over = None;
                Self::poke(mem, addr, INT3);
                if self.resume_after_step_over {
                    let control: u32 = self.resume(rip, false, mem);
                    return DebugAction::Resumed(control);
                }
            }
            self.stopped = true;
            return DebugAction::Stop;
        }
        if self.breakpoints.get(pc).is_some() {
            self.stopped = true;
            DebugAction::Stop
        } else {
            DebugAction::ForwardToGuest
        }
    }

    fn insert_breakpoint(&mut self, mem: &mut GuestMemory, arg: &str) -> (r: String)
        ensures
            ({
                let (b, m, reply) = insert_effect(old(mem)@, old(self)@.breakpoints, arg@);
                &&& final(self)@ == (GdbView { breakpoints: b, ..old(self)@ })
                &&& final(mem)@ == m
                &&& r@ == reply
            }),
    {
        let addr: u64 = match split_once(arg, ',') {
            Some((a, _)) => match read_hex(a) {
                Some(addr) => addr,
                None => {
                    return "E01".to_owned();
                },
            },
            None => {
                return "E01".to_owned();
            },
        };
        let orig: u8 = match mem.read_vec(addr, 1) {
            Some(v) => v[0],
            None => {
                return "E01".to_owned();
            },
        };
        self.breakpoints.insert(addr, orig);
        Self::poke(mem, addr, INT3);
        "OK".to_owned()
    }

    fn remove_breakpoint(&mut self, mem: &mut GuestMemory, arg: &str) -> (r: String)
        ensures
            ({
                let (b, m, reply) = remove_effect(old(mem)@, old(self)@.breakpoints, arg@);
                &&& final(self)@ == (GdbView { breakpoints: b, ..old(self)@ })
                &&& final(mem)@ == m
                &&& r@ == reply
            }),
    {
        let addr: u64 = match split_once(arg, ',') {
            Some((a, _)) => match read_hex(a) {
                Some(addr) => addr,
                None => {
                    return "E01".to_owned();
                },
            },
            None => {
                return "E01".to_owned();
            },
        };
        if let Some(orig) = self.breakpoints.remove(addr) {
            Self::poke(mem, addr, orig);
        }
        "OK".to_owned()
    }

    fn read_memory(&self, mem: &GuestMemory, arg: &str) -> (r: String)
        ensures
            r@ == read_reply(mem@, self@.breakpoints, arg@),
    {
        let (a, l) = match split_once(arg, ',') {
            Some(p) => p,
            None => {
                return "E01".to_owned();
            },
        };
        let (addr, len) = match (read_hex(a), read_hex(l)) {
            (Some(addr), Some(len)) => (addr, len),
            _ => {
                return "E01".to_owned();
            },
        };
        if len > MAX_READ {
            return "E01".to_owned();
        }
        let size: usize = mem.size();
        let mut buf: Vec<u8> = match mem.read_vec(addr, len) {
            Some(v) => v,
            None => {
                return "E01".to_owned();
            },
        };
        self.breakpoints.shadow(addr, &mut buf);
        to_hex(buf.as_slice())
    }

    fn write_memory(&mut self, mem: &mut GuestMemory, arg: &str) -> (r: String)
        ensures
            ({
                let (b, m, reply) = write_effect(old(mem)@, old(self)@.breakpoints, arg@);
                &&& final(self)@ == (GdbView { breakpoints: b, ..old(self)@ })
                &&& final(mem)@ == m
                &&& r@ == reply
            }),
    {
        let (header, data_hex) = match split_once(arg, ':') {
            Some(p) => p,
            None => {
                return "E01".to_owned();
            },
        };
        let (a, l) = match split_once(header, ',') {
            Some(p) => p,
            None => {
                return "E01".to_owned();
            },
        };
        let (addr, len) = match (read_hex(a), read_hex(l)) {
            (Some(addr), Some(len)) => (addr, len),
            _ => {
                return "E01".to_owned();
            },
        };
        let data: Vec<u8> = match from_hex(data_hex) {
            Some(d) => d,
            None => {
                return "E01".to_owned();
            },
        };
        if data.len() as u64 != len {
            return "E01".to_owned();
        }
        if !mem.write_checked(addr, data.as_slice()) {
            return "E01".to_owned();
        }
        self.breakpoints.absorb(addr, &data, mem);
        "OK".to_owned()
    }

    fn read_all_registers(r: &Regs, s: &Sregs) -> (reply: String)
        ensures
            reply@ == hex_text(register_bytes(*r, *s)),
    {
        let words: [u64; 17] = [
            r.rax, r.rbx, r.rcx, r.rdx, r.rsi, r.rdi, r.rbp, r.rsp, r.r8, r.r9, r.r10, r.r11, r.r12,
            r.r13, r.r14, r.r15, r.rip,
        ];
        let halves: [u32; 7] = [
            (r.rflags % 0x1_0000_0000) as u32, s.cs.selector as u32, s.ss.selector as u32,
            s.ds.selector as u32, s.es.selector as u32, s.fs.selector as u32, s.gs.selector as u32,
        ];
        assert(words@ =~= register_words(*r));
        assert(halves@ =~= register_halves(*r, *s));
        let mut b: Vec<u8> = Vec::new();
        push_u64_all(&mut b, words.as_slice());
        push_u32_all(&mut b, halves.as_slice());
        assert(b@ =~= register_bytes(*r, *s));
        to_hex(b.as_slice())
    }

    fn write_all_registers(regs: Option<Regs>, hex: &str) -> (r: PacketAction)
        ensures
            r@ == write_regs_action(regs, hex@),
    {
        let b: Vec<u8> = match from_hex(hex) {
            Some(b) => b,
            None => {
                return PacketAction::Reply(cat2("E01;", "bad hex"));
            },
        };
        if b.len() < 136 {
            let n = dec_string(b.len() as u64);
            let m = cat2("expected at least 136 bytes, got ", n.as_str());
            return PacketAction::Reply(cat2("E01;", m.as_str()));
        }
        let s = b.as_slice();
        match regs {
            None => PacketAction::RegsUnavailable,
            Some(r) => {
                let rflags: u64 = if b.len() >= 140 { get_u32(s, 136) as u64 } else { r.rflags };
                PacketAction::WriteRegs(
                    Regs {
                        rax: get_u64(s, 0),
                        rbx: get_u64(s, 8),
                        rcx: get_u64(s, 16),
                        rdx: get_u64(s, 24),
                        rsi: get_u64(s, 32),
                        rdi: get_u64(s, 40),
                        rbp: get_u64(s, 48),
                        rsp: get_u64(s, 56),
                        r8: get_u64(s, 64),
                        r9: get_u64(s, 72),
                        r10: get_u64(s, 80),
                        r11: get_u64(s, 88),
                        r12: get_u64(s, 96),
                        r13: get_u64(s, 104),
                        r14: get_u64(s, 112),
                        r15: get_u64(s, 120),
                        rip: get_u64(s, 128),
                        rflags,
                    },
                )
            },
        }
    }

    /// The reply to `G` once the registers were set, or could not be.
    pub fn registers_written(outcome: Result<(), String>) -> (r: String)
        ensures
            r@ == (match outcome {
                Ok(_) => "OK"@,
                Err(e) => "E01;"@ + e@,
            }),
    {
        match outcome {
            Ok(_) => "OK".to_owned(),
            Err(e) => cat2("E01;", e.as_str()),
        }
    }

    fn resume_packet(&mut self, regs: Option<Regs>, arg: &str, single_step: bool, mem: &mut GuestMemory) -> (r: PacketAction)
        ensures
            (final(self)@, final(mem)@, r@) == resume_effect(old(self)@, old(mem)@, regs, arg@, single_step),
    {
        let r: Regs = match regs {
            Some(r) => r,
            None => {
                return PacketAction::NoRegs;
            },
        };
        let set: Option<Regs> = match read_hex(arg) {
            Some(addr) => Some(Regs { rip: addr, ..r }),
            None => None,
        };
        let rip: u64 = match set {
            Some(s) => s.rip,
            None => r.rip,
        };
        let control: u32 = self.resume(rip, single_step, mem);
        PacketAction::Resume(set, control)
    }

    /// Handles one packet. `regs` and `sregs` are the registers of the CPU, if
    /// they could be read.
    pub fn handle_packet(
        &mut self,
        packet: &str,
        regs: Option<Regs>,
        sregs: Option<Sregs>,
        mem: &mut GuestMemory,
    ) -> (r: PacketAction)
        ensures
            (final(self)@, final(mem)@, r@) == packet_effect(
                old(self)@,
                old(mem)@,
                regs,
                sregs,
                packet@,
            ),
    {
        proof {
            reveal_strlit("Z0,");
            reveal_strlit("z0,");
        }
        if packet.is_empty() {
            return PacketAction::Reply("".to_owned());
        }
        let c: char = packet.get_char(0);
        let arg = rest(packet);
        if c == '?' {
            PacketAction::Reply("S05".to_owned())
        } else if c == 'g' {
            match (regs, sregs) {
                (Some(r), Some(s)) => PacketAction::Reply(Self::read_all_registers(&r, &s)),
                _ => PacketAction::Reply("E01".to_owned()),
            }
        } else if c == 'G' {
            Self::write_all_registers(regs, arg)
        } else if c == 'm' {
            PacketAction::Reply(self.read_memory(mem, arg))
        } else if c == 'M' {
            PacketAction::Reply(self.write_memory(mem, arg))
        } else if c == 'c' {
            self.resume_packet(regs, arg, false, mem)
        } else if c == 's' {
            self.resume_packet(regs, arg, true, mem)
        } else if let Some(bp) = strip_prefix(packet, "Z0,") {
            PacketAction::Reply(self.insert_breakpoint(mem, bp))
        } else if let Some(bp) = strip_prefix(packet, "z0,") {
            PacketAction::Reply(self.remove_breakpoint(mem, bp))
        } else if c == 'D' {
            self.breakpoints.unpatch(mem);
            self.breakpoints = Breakpoints::new();
            self.attached = false;
            self.stopped = false;
            PacketAction::Detach
        } else if c == 'k' {
            self.killed = true;
            self.attached = false;
            PacketAction::Kill
        } else if strip_prefix(packet, "qSupported").is_some() {
            PacketAction::Reply("PacketSize=4000".to_owned())
        } else if str_eq(packet, "QStartNoAckMode") {
            self.no_ack = true;
            PacketAction::Reply("OK".to_owned())
        } else {
            PacketAction::Reply("".to_owned())
        }
    }
}

/// Reading memory shows it as it would be with no breakpoint set.
pub proof fn law_reads_show_own_memory(mem: Seq<u8>, bps: Map<u64, u8>, addr: u64, len: u64)
    requires
        addr + len <= mem.len() <= u64::MAX,
    ensures
        shadowed(mem.subrange(addr as int, addr + len), bps, addr) == unpatched(mem, bps).subrange(
            addr as int,
            addr + len,
        ),
{
    assert(shadowed(mem.subrange(addr as int, addr + len), bps, addr) =~= unpatched(
        mem,
        bps,
    ).subrange(addr as int, addr + len));
}

/// What holds of a stub and its guest's memory at every moment: a breakpoint
/// instruction stands at every breakpoint but the one that is being stepped
/// over, and one is stepped over only while the guest runs for one
/// instruction.
pub open spec fn consistent(v: GdbView, mem: Seq<u8>) -> bool {
    &&& forall|a: u64| #[trigger]
        v.breakpoints.contains_key(a) ==> a < mem.len() && (v.pending_step_over == Some(a)
            || mem[a as int] == INT3)
    &&& match v.pending_step_over {
        Some(a) => v.breakpoints.contains_key(a) && v.was_stepping && !v.stopped,
        None => true,
    }
}

proof fn lemma_poke_behind(mem: Seq<u8>, bps: Map<u64, u8>, addr: u64, byte: u8)
    requires
        bps.contains_key(addr),
        mem.len() <= u64::MAX,
    ensures
        unpatched(poked(mem, addr, byte), bps) == unpatched(mem, bps),
{
    assert(unpatched(poked(mem, addr, byte), bps) =~= unpatched(mem, bps));
}

/// Letting the guest go keeps the stub consistent and the guest's own memory
/// as it was.
pub proof fn law_resume_keeps_memory(v: GdbView, mem: Seq<u8>, rip: u64, single_step: bool)
    requires
        consistent(v, mem),
        v.pending_step_over is None,
        mem.len() <= u64::MAX,
    ensures
        ({
            let (v2, mem2, c) = resumed(v, mem, rip, single_step);
            &&& consistent(v2, mem2)
            &&& unpatched(mem2, v2.breakpoints) == unpatched(mem, v.breakpoints)
        }),
{
    if v.breakpoints.contains_key(rip) {
        lemma_poke_behind(mem, v.breakpoints, rip, v.breakpoints[rip]);
    }
}

/// Whatever the debugger sends while the guest is stopped, the stub stays
/// consistent, and unless it is a memory write the guest's own memory stays
/// as it was.
pub proof fn law_packets_keep_memory(
    v: GdbView,
    mem: Seq<u8>,
    regs: Option<Regs>,
    sregs: Option<Sregs>,
    packet: Seq<char>,
)
    requires
        consistent(v, mem),
        v.stopped,
        mem.len() <= u64::MAX,
    ensures
        ({
            let (v2, mem2, a) = packet_effect(v, mem, regs, sregs, packet);
            &&& consistent(v2, mem2)
            &&& mem2.len() == mem.len()
            &&& (packet.len() > 0 && packet[0] == 'M') || unpatched(mem2, v2.breakpoints)
                == unpatched(mem, v.breakpoints)
        }),
{
    reveal_strlit("Z0,");
    reveal_strlit("z0,");
    if packet.len() > 0 {
        let c = packet[0];
        let arg = packet.skip(1);
        let bps = v.breakpoints;
        if c == 'M' {
            law_write_is_seen(v, mem, arg);
        } else if c == 'c' || c == 's' {
            if let Some(r) = regs {
                let rip = match hex_number(arg) {
                    Some(addr) => addr,
                    None => r.rip,
                };
                law_resume_keeps_memory(v, mem, rip, c == 's');
            }
        } else if starts_with(packet, "Z0,"@) {
            let (b, m, reply) = insert_effect(mem, bps, packet.skip(3));
            assert(unpatched(m, b) =~= unpatched(mem, bps));
        } else if starts_with(packet, "z0,"@) {
            let (b, m, reply) = remove_effect(mem, bps, packet.skip(3));
            assert(unpatched(m, b) =~= unpatched(mem, bps));
        } else if c == 'D' {
            assert(unpatched(unpatched(mem, bps), Map::empty()) =~= unpatched(mem, bps));
        }
    }
}

/// A memory write changes the guest's own memory as if no breakpoint were set,
/// and leaves every breakpoint in force; a refused one changes nothing.
pub proof fn law_write_is_seen(v: GdbView, mem: Seq<u8>, arg: Seq<char>)
    requires
        consistent(v, mem),
        v.stopped,
        mem.len() <= u64::MAX,
    ensures
        ({
            let (b, m, reply) = write_effect(mem, v.breakpoints, arg);
            &&& consistent(GdbView { breakpoints: b, ..v }, m)
            &&& b.dom() == v.breakpoints.dom()
            &&& m.len() == mem.len()
            &&& unpatched(m, b) == (match write_request(arg) {
                Some((addr, data)) => if addr + data.len() <= mem.len() {
                    splice(unpatched(mem, v.breakpoints), addr as int, data)
                } else {
                    unpatched(mem, v.breakpoints)
                },
                None => unpatched(mem, v.breakpoints),
            })
        }),
{
    let (b, m, reply) = write_effect(mem, v.breakpoints, arg);
    assert(b.dom() =~= v.breakpoints.dom());
    if let Some((addr, data)) = write_request(arg) {
        if addr + data.len() <= mem.len() {
            assert(unpatched(m, b) =~= splice(unpatched(mem, v.breakpoints), addr as int, data));
        }
    }
}

/// A detached guest has its own memory back, with no breakpoint left.
pub proof fn law_detach_restores(
    v: GdbView,
    mem: Seq<u8>,
    regs: Option<Regs>,
    sregs: Option<Sregs>,
    packet: Seq<char>,
)
    requires
        packet.len() > 0,
        packet[0] == 'D',
    ensures
        ({
            let (v2, mem2, a) = packet_effect(v, mem, regs, sregs, packet);
            &&& mem2 == unpatched(mem, v.breakpoints)
            &&& v2.breakpoints == Map::<u64, u8>::empty()
            &&& !v2.attached
        }),
{
    reveal_strlit("Z0,");
    reveal_strlit("z0,");
    assert("Z0,"@[0] == 'Z' && "z0,"@[0] == 'z');
    if starts_with(packet, "Z0,"@) {
        assert(packet.take(3)[0] == packet[0]);
    }
    if starts_with(packet, "z0,"@) {
        assert(packet.take(3)[0] == packet[0]);
    }
}

/// A debug exit keeps the stub consistent and the guest's own memory as it
/// was.
pub proof fn law_debug_exits_keep_memory(v: GdbView, mem: Seq<u8>, pc: u64, rip: u64)
    requires
        consistent(v, mem),
        mem.len() <= u64::MAX,
    ensures
        ({
            let (v2, mem2, a) = debug_exit_effect(v, mem, pc, rip);
            &&& consistent(v2, mem2)
            &&& unpatched(mem2, v2.breakpoints) == unpatched(mem, v.breakpoints)
        }),
{
    if v.was_stepping {
        if let Some(addr) = v.pending_step_over {
            let v1 = GdbView { was_stepping: false, pending_step_over: None, ..v };
            let m1 = poked(mem, addr, INT3);
            lemma_poke_behind(mem, v.breakpoints, addr, INT3);
            assert(consistent(v1, m1));
            if v.resume_after_step_over {
                law_resume_keeps_memory(v1, m1, rip, false);
            }
        }
    }
}

/// Setting a breakpoint and removing it again leaves memory and breakpoints
/// as they were.
pub proof fn law_insert_then_remove(mem: Seq<u8>, bps: Map<u64, u8>, arg: Seq<char>, addr: u64)
    requires
        bp_address(arg) == Some(addr),
        addr < mem.len(),
        !bps.contains_key(addr),
    ensures
        ({
            let (b1, m1, r1) = insert_effect(mem, bps, arg);
            let (b2, m2, r2) = remove_effect(m1, b1, arg);
            &&& m1[addr as int] == INT3
            &&& m2 == mem
            &&& b2 == bps
        }),
{
    let (b1, m1, r1) = insert_effect(mem, bps, arg);
    let (b2, m2, r2) = remove_effect(m1, b1, arg);
    assert(m2 =~= mem);
    assert(b2 =~= bps);
}

/// The registers that a `G` of a `g` block sets are those that the block was
/// made of, with the flags cut to 32 bits.
pub proof fn law_registers_round_trip(r: Regs, s: Sregs, other: Regs)
    ensures
        registers_from(register_bytes(r, s), other) == (Regs {
            rflags: (r.rflags % 0x1_0000_0000) as u64,
            ..r
        }),
        register_bytes(r, s).len() == 164,
{
    let b = register_bytes(r, s);
    let w = register_words(r);
    let h = register_halves(r, s);
    lemma_le64_all(w, le32_all(h));
    assert(w[0] == r.rax && w[1] == r.rbx && w[2] == r.rcx && w[3] == r.rdx && w[4] == r.rsi && w[5]
        == r.rdi && w[6] == r.rbp && w[7] == r.rsp && w[8] == r.r8 && w[9] == r.r9 && w[10] == r.r10
        && w[11] == r.r11 && w[12] == r.r12 && w[13] == r.r13 && w[14] == r.r14 && w[15] == r.r15
        && w[16] == r.rip);
    lemma_le32_all(h);
    assert forall|k: int| 0 <= k < 4 implies b[136 + k] == #[trigger] le32(h[0])[k] by {
        assert(b[136 + k] == le32_all(h)[k]);
        assert(le32_all(h).subrange(0, 4)[k] == le32_all(h)[k]);
    }
    crate::bytes::lemma_u32_le(b, 136, h[0]);
}

proof fn lemma_le32_all(ws: Seq<u32>)
    ensures
        le32_all(ws).len() == 4 * ws.len(),
        ws.len() > 0 ==> le32_all(ws).subrange(0, 4) == le32(ws[0]),
    decreases ws.len(),
{
    if ws.len() > 0 {
        lemma_le32_all(ws.drop_last());
        if ws.len() == 1 {
            assert(le32_all(ws.drop_last()) =~= seq![]);
            assert(le32_all(ws).subrange(0, 4) =~= le32(ws[0]));
        } else {
            assert(le32_all(ws).subrange(0, 4) =~= le32_all(ws.drop_last()).subrange(0, 4));
        }
    }
}

/// Where in a packet the reader is.
#[derive(Clone, Copy, Debug, PartialEq, Eq, Structural)]
pub enum ReaderState {
    /// Before the `$`.
    Idle,
    /// Between the `$` and the `#`.
    Data,
    /// Before the first digit of the checksum.
    FirstDigit,
    /// Before the second digit, with the first one.
    SecondDigit(u8),
}

/// What a reader holds.
pub struct ReaderView {
    pub state: ReaderState,
    pub data: Seq<u8>,
}

/// The checksum that two characters denote; two that denote none stand for
/// one that cannot match.
pub open spec fn received_checksum(first: u8, second: u8, expected: u8) -> u8 {
    match parse_uint(seq![first as char, second as char], 16, 255) {
        Ok(n) => n as u8,
        Err(_) => (255 - expected) as u8,
    }
}

/// The reader after one more byte, the acknowledgement to send and the packet
/// that is complete, if any. A packet whose checksum is wrong is refused, or,
/// where nothing is acknowledged, taken as an empty one.
pub open spec fn reader_step(r: ReaderView, byte: u8, no_ack: bool) -> (
    ReaderView,
    Option<u8>,
    Option<Seq<u8>>,
) {
    match r.state {
        ReaderState::Idle => if byte == 0x24 {
            (ReaderView { state: ReaderState::Data, data: seq![] }, None, None)
        } else {
            (r, None, None)
        },
        ReaderState::Data => if byte == 0x23 {
            (ReaderView { state: ReaderState::FirstDigit, ..r }, None, None)
        } else {
            (ReaderView { data: r.data.push(byte), ..r }, None, None)
        },
        ReaderState::FirstDigit => (
            ReaderView { state: ReaderState::SecondDigit(byte), ..r },
            None,
            None,
        ),
        ReaderState::SecondDigit(first) => {
            let good = received_checksum(first, byte, sum8(r.data)) == sum8(r.data);
            let ack = if no_ack {
                None
            } else if good {
                Some(0x2bu8)
            } else {
                Some(0x2du8)
            };
            let packet = if good {
                Some(r.data)
            } else if no_ack {
                Some(seq![])
            } else {
                None
            };
            (ReaderView { state: ReaderState::Idle, data: seq![] }, ack, packet)
        },
    }
}

/// Puts packets together from received bytes.
pub struct PacketReader {
    state: ReaderState,
    data: Vec<u8>,
}

impl View for PacketReader {
    type V = ReaderView;

    closed spec fn view(&self) -> ReaderView {
        ReaderView { state: self.state, data: self.data@ }
    }
}

impl PacketReader {
    /// A reader before its first packet.
    pub fn new() -> (r: Self)
        ensures
            r@ == (ReaderView { state: ReaderState::Idle, data: seq![] }),
    {
        let r = PacketReader { state: ReaderState::Idle, data: Vec::new() };
        assert(r@.data =~= seq![]);
        r
    }

    /// Takes one received byte. Returns the acknowledgement to send and the
    /// packet that is complete, if any.
    pub fn feed(&mut self, byte: u8, no_ack: bool) -> (r: (Option<u8>, Option<String>))
        ensures
            ({
                let (v, ack, packet) = reader_step(old(self)@, byte, no_ack);
                &&& final(self)@ == v
                &&& r.0 == ack
                &&& match (r.1, packet) {
                    (Some(s), Some(p)) => s@ == lossy_text(p) && (valid_utf8(p) ==> s@ == decode_utf8(
                        p,
                    )),
                    (None, None) => true,
                    _ => false,
                }
            }),
    {
        match self.state {
            ReaderState::Idle => {
                if byte == 0x24 {
                    self.state = ReaderState::Data;
                    self.data = Vec::new();
                    assert(self.data@ =~= seq![]);
                }
                (None, None)
            },
            ReaderState::Data => {
                if byte == 0x23 {
                    self.state = ReaderState::FirstDigit;
                } else {
                    self.data.push(byte);
                }
                (None, None)
            },
            ReaderState::FirstDigit => {
                self.state = ReaderState::SecondDigit(byte);
                (None, None)
            },
            ReaderState::SecondDigit(first) => {
                let expected: u8 = sum_bytes(self.data.as_slice());
                let received: u8 = checksum_of(first, byte, expected);
                let mut data: Vec<u8> = Vec::new();
                assert(data@ =~= seq![]);
                core::mem::swap(&mut data, &mut self.data);
                self.state = ReaderState::Idle;
                let ack: Option<u8> = if no_ack {
                    None
                } else if received == expected {
                    Some(0x2b)
                } else {
                    Some(0x2d)
                };
                if received == expected {
                    (ack, Some(lossy(data.as_slice())))
                } else if no_ack {
                    let none: Vec<u8> = Vec::new();
                    assert(none@ =~= seq![]);
                    (ack, Some(lossy(none.as_slice())))
                } else {
                    (ack, None)
                }
            },
        }
    }
}

fn checksum_of(first: u8, second: u8, expected: u8) -> (r: u8)
    ensures
        r == received_checksum(first, second, expected),
{
    let (a, b) = (first as char, second as char);
    proof {
        reveal_with_fuel(digits_from, 3);
        let t = seq![a, b];
        assert(t.skip(1) =~= seq![b]);
        assert(seq![b].skip(1) =~= seq![]);
    }
    let hi = hex_value(first);
    let lo = hex_value(second);
    match lo {
        None => 255 - expected,
        Some(l) => match hi {
            Some(h) => 16 * h + l,
            None => if first == 0x2b {
                l
            } else {
                255 - expected
            },
        },
    }
}

/// The two lower-case hexadecimal digits of a checksum.
pub open spec fn checksum_digits(sum: u8) -> Seq<u8> {
    seq![digit_char((sum / 16) as int) as u8, digit_char((sum % 16) as int) as u8]
}

/// A packet as it is sent: `$`, the data, `#` and the checksum.
pub open spec fn framed(data: Seq<u8>) -> Seq<u8> {
    seq![0x24u8] + data + seq![0x23u8] + checksum_digits(sum8(data))
}

fn ascii_digit(d: u8) -> (r: u8)
    requires
        d < 16,
    ensures
        r == digit_char(d as int) as u8,
{
    if d < 10 {
        0x30 + d
    } else {
        0x61 + (d - 10)
    }
}

/// The bytes to send for the reply `data`.
pub fn frame_packet(data: &str) -> (r: Vec<u8>)
    ensures
        r@ == framed(data.spec_bytes()),
{
    let b = data.as_bytes();
    let sum: u8 = sum_bytes(b);
    let mut out: Vec<u8> = Vec::new();
    out.push(0x24);
    push_slice(&mut out, b);
    out.push(0x23);
    out.push(ascii_digit(sum / 16));
    out.push(ascii_digit(sum % 16));
    assert(out@ =~= framed(b@));
    out
}

/// The reader after all of `bytes`.
pub open spec fn reader_after(r: ReaderView, bytes: Seq<u8>, no_ack: bool) -> ReaderView
    decreases bytes.len(),
{
    if bytes.len() == 0 {
        r
    } else {
        reader_step(reader_after(r, bytes.drop_last(), no_ack), bytes.last(), no_ack).0
    }
}

#[verifier::spinoff_prover]
proof fn lemma_reader_data(data: Seq<u8>, no_ack: bool)
    requires
        !data.contains(0x23u8),
    ensures
        reader_after(
            (ReaderView { state: ReaderState::Idle, data: seq![] }),
            seq![0x24u8] + data,
            no_ack,
        ) == (ReaderView { state: ReaderState::Data, data }),
    decreases data.len(),
{
    let idle = ReaderView { state: ReaderState::Idle, data: seq![] };
    let all = seq![0x24u8] + data;
    assert(reader_after(idle, all, no_ack) == reader_step(
        reader_after(idle, all.drop_last(), no_ack),
        all.last(),
        no_ack,
    ).0);
    if data.len() == 0 {
        assert(all.drop_last() =~= seq![]);
        assert(data =~= seq![]);
        assert(all.last() == 0x24u8);
        assert(reader_after(idle, seq![], no_ack) == idle);
    } else {
        let t = data.drop_last();
        assert(all.drop_last() =~= seq![0x24u8] + t);
        assert(all.last() == data.last());
        assert forall|i: int| 0 <= i < t.len() implies t[i] != 0x23u8 by {
            assert(data[i] == t[i]);
        }
        lemma_reader_data(t, no_ack);
        assert(data.last() != 0x23u8) by {
            assert(data[data.len() - 1] == data.last());
        }
        assert(t.push(data.last()) =~= data);
    }
}

/// A packet that was framed is received as it was, once its last byte is
/// there, and acknowledged, for all data that holds no `#`.
pub proof fn law_framing_round_trip(data: Seq<u8>, no_ack: bool)
    requires
        !data.contains(0x23u8),
    ensures
        ({
            let idle = ReaderView { state: ReaderState::Idle, data: seq![] };
            let f = framed(data);
            reader_step(reader_after(idle, f.drop_last(), no_ack), f.last(), no_ack) == (
                idle,
                if no_ack { None } else { Some(0x2bu8) },
                Some(data),
            )
        }),
{
    let idle = ReaderView { state: ReaderState::Idle, data: seq![] };
    let f = framed(data);
    let a = seq![0x24u8] + data;
    let d = checksum_digits(sum8(data));
    let f1 = f.drop_last();
    let f2 = f1.drop_last();
    assert(f2 =~= a + seq![0x23u8]);
    assert(f2.drop_last() =~= a);
    lemma_reader_data(data, no_ack);
    assert(reader_after(idle, f2, no_ack) == (ReaderView { state: ReaderState::FirstDigit, data }));
    assert(f1.last() == d[0]);
    assert(f.last() == d[1]);
    let sum = sum8(data);
    let (x, y) = (d[0] as char, d[1] as char);
    assert(x == digit_char((sum / 16) as int) && y == digit_char((sum % 16) as int));
    reveal_with_fuel(digits_from, 3);
    let t = seq![x, y];
    assert(t.skip(1) =~= seq![y]);
    assert(seq![y].skip(1) =~= seq![]);
    assert(digit_value(x, 16) == Some((sum / 16) as nat));
    assert(digit_value(y, 16) == Some((sum % 16) as nat));
    assert(received_checksum(d[0], d[1], sum) == sum);
}

/// A step that the debugger asked for is reported. Wherever the instruction
/// pointer is, on a breakpoint or not, the guest runs in single steps after an
/// `s` packet, and the next debug exit, whatever the guest did to its memory,
/// stops it; the breakpoints are in place again.
#[verifier::spinoff_prover]
pub proof fn law_a_step_is_reported(
    v: GdbView,
    mem: Seq<u8>,
    regs: Regs,
    sregs: Option<Sregs>,
    arg: Seq<char>,
    then: Seq<u8>,
    pc: u64,
    rip: u64,
)
    ensures
        ({
            let from = match hex_number(arg) {
                Some(addr) => addr,
                None => regs.rip,
            };
            let (v1, mem1, a) = packet_effect(v, mem, Some(regs), sregs, seq!['s'] + arg);
            let (v2, mem2, exit) = debug_exit_effect(v1, then, pc, rip);
            &&& a matches ActionView::Resume(set, control) && control == 0x10003 && set == (match hex_number(arg) {
                Some(addr) => Some(Regs { rip: addr, ..regs }),
                None => None,
            })
            &&& !v1.stopped
            &&& v.breakpoints.contains_key(from) && from < mem.len() ==> mem1 == mem.update(
                from as int,
                v.breakpoints[from],
            )
            &&& !v.breakpoints.contains_key(from) ==> mem1 == mem
            &&& exit == DebugAction::Stop
            &&& v2.stopped
            &&& v2.breakpoints == v.breakpoints
            &&& v.breakpoints.contains_key(from) && from < then.len() ==> mem2 == then.update(from as int, 0xcc)
            &&& !v.breakpoints.contains_key(from) ==> mem2 == then
        }),
{
    let packet = seq!['s'] + arg;
    assert(packet.skip(1) =~= arg);
    let from = match hex_number(arg) {
        Some(addr) => addr,
        None => regs.rip,
    };
    if from < mem.len() {
        lemma_poked(mem, from, v.breakpoints[from]);
    }
    if from < then.len() {
        lemma_poked(then, from, 0xcc);
    }
}

proof fn lemma_poked(mem: Seq<u8>, addr: u64, byte: u8)
    requires
        addr < mem.len(),
    ensures
        poked(mem, addr, byte) == mem.update(addr as int, byte),
{
    assert(poked(mem, addr, byte) =~= mem.update(addr as int, byte));
}

/// After a `c` packet the guest runs until it meets a breakpoint. From a
/// breakpoint it first makes one step on the byte that was there before: the
/// debug exit of that step puts the breakpoint back, is not reported, and lets
/// the guest run on. Elsewhere it runs at once, and a debug exit on a
/// breakpoint stops it; one elsewhere is the guest's own.
#[verifier::spinoff_prover]
pub proof fn law_a_continue_runs_to_a_breakpoint(
    v: GdbView,
    mem: Seq<u8>,
    regs: Regs,
    sregs: Option<Sregs>,
    arg: Seq<char>,
    then: Seq<u8>,
    pc: u64,
    rip: u64,
)
    ensures
        ({
            let from = match hex_number(arg) {
                Some(addr) => addr,
                None => regs.rip,
            };
            let (v1, mem1, a) = packet_effect(v, mem, Some(regs), sregs, seq!['c'] + arg);
            let (v2, mem2, exit) = debug_exit_effect(v1, then, pc, rip);
            &&& a matches ActionView::Resume(set, control) && control == (if v.breakpoints.contains_key(from) {
                0x10003u32
            } else {
                0x10001u32
            }) && set == (match hex_number(arg) {
                Some(addr) => Some(Regs { rip: addr, ..regs }),
                None => None,
            })
            &&& !v1.stopped
            &&& v2.breakpoints == v.breakpoints
            &&& if v.breakpoints.contains_key(from) {
                &&& from < mem.len() ==> mem1 == mem.update(from as int, v.breakpoints[from])
                &&& exit == DebugAction::Resumed(
                    if v.breakpoints.contains_key(rip) { 0x10003u32 } else { 0x10001u32 },
                )
                &&& !v2.stopped
                &&& from < then.len() && rip != from ==> mem2[from as int] == 0xcc
                &&& from < then.len() && !v.breakpoints.contains_key(rip) ==> mem2 == then.update(from as int, 0xcc)
            } else if v.breakpoints.contains_key(pc) {
                &&& mem1 == mem
                &&& exit == DebugAction::Stop
                &&& v2.stopped
                &&& mem2 == then
            } else {
                &&& mem1 == mem
                &&& exit == DebugAction::ForwardToGuest
                &&& !v2.stopped
                &&& mem2 == then
            }
        }),
{
    let packet = seq!['c'] + arg;
    assert(packet.skip(1) =~= arg);
    let from = match hex_number(arg) {
        Some(addr) => addr,
        None => regs.rip,
    };
    if from < mem.len() {
        lemma_poked(mem, from, v.breakpoints[from]);
    }
    if from < then.len() {
        lemma_poked(then, from, 0xcc);
    }
}

proof fn lemma_number_then(prefix: Seq<char>, addr: u64, c: char, tail: Seq<char>)
    requires
        c == ',' || c == ':',
    ensures
        ({
            let s = prefix + hex(addr as nat) + seq![c] + tail;
            &&& s.skip(prefix.len() as int) == hex(addr as nat) + seq![c] + tail
            &&& split_first(hex(addr as nat) + seq![c] + tail, c) == Some((hex(addr as nat), tail))
            &&& hex_number(hex(addr as nat)) == Some(addr)
            &&& !hex(addr as nat).contains(':')
            &&& !hex(addr as nat).contains(',')
        }),
{
    let h = hex(addr as nat);
    let s = prefix + h + seq![c] + tail;
    assert(s.skip(prefix.len() as int) =~= h + seq![c] + tail);
    crate::text::law_numeral_round_trip(addr as nat, 16, u64::MAX as nat);
    assert forall|k: int| 0 <= k < h.len() implies h[k] != ',' && h[k] != ':' by {
        assert(digit_value(h[k], 16) is Some);
    }
    crate::text::law_split_once(h, tail, c);
}

/// Setting a breakpoint puts the breakpoint instruction at its address and
/// keeps the byte that the guest has there; clearing it puts that byte back.
/// Nothing else of memory, and no other breakpoint, changes.
#[verifier::spinoff_prover]
pub proof fn law_breakpoint_packets(
    v: GdbView,
    mem: Seq<u8>,
    regs: Option<Regs>,
    sregs: Option<Sregs>,
    addr: u64,
    kind: Seq<char>,
)
    ensures
        ({
            let (v1, mem1, a1) = packet_effect(v, mem, regs, sregs, "Z0,"@ + hex(addr as nat) + seq![','] + kind);
            let (v2, mem2, a2) = packet_effect(v, mem, regs, sregs, "z0,"@ + hex(addr as nat) + seq![','] + kind);
            let known = v.breakpoints.contains_key(addr);
            &&& v1 == (GdbView { breakpoints: v1.breakpoints, ..v })
            &&& v2 == (GdbView { breakpoints: v2.breakpoints, ..v })
            &&& if addr < mem.len() {
                &&& a1 == ActionView::Reply("OK"@)
                &&& mem1 == mem.update(addr as int, 0xcc)
                &&& v1.breakpoints == v.breakpoints.insert(
                    addr,
                    if known { v.breakpoints[addr] } else { mem[addr as int] },
                )
            } else {
                &&& a1 == ActionView::Reply("E01"@)
                &&& mem1 == mem
                &&& v1 == v
            }
            &&& a2 == ActionView::Reply("OK"@)
            &&& mem2 == (if known && addr < mem.len() {
                mem.update(addr as int, v.breakpoints[addr])
            } else {
                mem
            })
            &&& v2.breakpoints == v.breakpoints.remove(addr)
        }),
{
    reveal_strlit("Z0,");
    reveal_strlit("z0,");
    let h = hex(addr as nat);
    let (set, clear) = ("Z0,"@ + h + seq![','] + kind, "z0,"@ + h + seq![','] + kind);
    lemma_number_then("Z0,"@, addr, ',', kind);
    lemma_number_then("z0,"@, addr, ',', kind);
    assert(set.take(3) =~= "Z0,"@);
    assert(clear.take(3) =~= "z0,"@);
    assert(set[0] == 'Z' && clear[0] == 'z');
    assert(clear.take(3)[0] != "Z0,"@[0]);
    if addr < mem.len() {
        lemma_poked(mem, addr, 0xcc);
        if v.breakpoints.contains_key(addr) {
            lemma_poked(mem, addr, v.breakpoints[addr]);
            assert(v.breakpoints.insert(addr, v.breakpoints[addr]) =~= v.breakpoints);
        }
    }
}

/// Reading memory shows each byte as the guest has it, with no trace of the
/// breakpoints; more than the memory holds, or than a reply may, is an error.
/// Writing memory changes what the guest has at that range, and nothing else,
/// and leaves every breakpoint in place.
#[verifier::spinoff_prover]
pub proof fn law_memory_packets(
    v: GdbView,
    mem: Seq<u8>,
    regs: Option<Regs>,
    sregs: Option<Sregs>,
    addr: u64,
    len: u64,
    data: Seq<u8>,
    i: u64,
)
    requires
        mem.len() <= u64::MAX,
        data.len() <= u64::MAX,
    ensures
        ({
            let read = "m"@ + hex(addr as nat) + seq![','] + hex(len as nat);
            let write = "M"@ + hex(addr as nat) + seq![','] + hex(data.len()) + seq![':'] + hex_text(data);
            let (v1, mem1, a1) = packet_effect(v, mem, regs, sregs, read);
            let (v2, mem2, a2) = packet_effect(v, mem, regs, sregs, write);
            let inside = addr <= i < addr + data.len();
            &&& v1 == v
            &&& mem1 == mem
            &&& if len > 0x10_0000 || addr + len > mem.len() {
                a1 == ActionView::Reply("E01"@)
            } else {
                a1 matches ActionView::Reply(text) && is_hex_text(text) && hex_bytes(text).len() == len && (i < len
                    ==> hex_bytes(text)[i as int] == (if v.breakpoints.contains_key((addr + i) as u64) {
                    v.breakpoints[(addr + i) as u64]
                } else {
                    mem[addr + i]
                }))
            }
            &&& v2 == (GdbView { breakpoints: v2.breakpoints, ..v })
            &&& mem2.len() == mem.len()
            &&& v2.breakpoints.dom() == v.breakpoints.dom()
            &&& if addr + data.len() > mem.len() {
                &&& a2 == ActionView::Reply("E01"@)
                &&& mem2 == mem
                &&& v2 == v
            } else {
                &&& a2 == ActionView::Reply("OK"@)
                &&& i < mem.len() ==> mem2[i as int] == (if !inside {
                    mem[i as int]
                } else if v.breakpoints.contains_key(i) {
                    0xcc
                } else {
                    data[i - addr]
                })
                &&& v.breakpoints.contains_key(i) ==> v2.breakpoints[i] == (if inside {
                    data[i - addr]
                } else {
                    v.breakpoints[i]
                })
            }
        }),
{
    reveal_strlit("m");
    reveal_strlit("M");
    let h = hex(addr as nat);
    let read = "m"@ + h + seq![','] + hex(len as nat);
    lemma_number_then("m"@, addr, ',', hex(len as nat));
    lemma_number_then(seq![], len, ',', seq![]);
    assert(read[0] == 'm');
    assert(read.skip(1) =~= h + seq![','] + hex(len as nat));
    assert(1u64 << 20 == 0x10_0000u64) by (bit_vector);
    let write = "M"@ + h + seq![','] + hex(data.len()) + seq![':'] + hex_text(data);
    assert(write[0] == 'M');
    let header = h + seq![','] + hex(data.len());
    lemma_number_then(seq![], data.len() as u64, ':', hex_text(data));
    lemma_number_then(seq![], addr, ',', hex(data.len()));
    assert(write.skip(1) =~= header + seq![':'] + hex_text(data));
    assert forall|k: int| 0 <= k < header.len() implies header[k] != ':' by {
        if k < h.len() {
            assert(h.contains(h[k]));
        } else if k > h.len() {
            assert(hex(data.len()).contains(hex(data.len())[k - h.len() - 1]));
        }
    }
    crate::text::law_split_once(header, hex_text(data), ':');
    crate::hex::law_hex_round_trip(data);
    assert(write_request(write.skip(1)) == Some((addr, data)));
    if len <= 0x10_0000 && addr + len <= mem.len() {
        crate::hex::law_hex_round_trip(shadowed(mem.subrange(addr as int, addr + len), v.breakpoints, addr));
    }
    let (v2, mem2, a2) = packet_effect(v, mem, regs, sregs, write);
    assert(v2.breakpoints.dom() =~= v.breakpoints.dom());
}

/// The registers are sent in the order that the debugger knows them by: the
/// general ones and the instruction pointer in eight bytes each, then the
/// flags and the segment selectors in four.
pub proof fn law_register_order(r: Regs, s: Sregs)
    ensures
        ({
            let b = register_bytes(r, s);
            &&& b.len() == 164
            &&& u64_at(b, 0) == r.rax
            &&& u64_at(b, 8) == r.rbx
            &&& u64_at(b, 16) == r.rcx
            &&& u64_at(b, 24) == r.rdx
            &&& u64_at(b, 32) == r.rsi
            &&& u64_at(b, 40) == r.rdi
            &&& u64_at(b, 48) == r.rbp
            &&& u64_at(b, 56) == r.rsp
            &&& u64_at(b, 64) == r.r8
            &&& u64_at(b, 72) == r.r9
            &&& u64_at(b, 80) == r.r10
            &&& u64_at(b, 88) == r.r11
            &&& u64_at(b, 96) == r.r12
            &&& u64_at(b, 104) == r.r13
            &&& u64_at(b, 112) == r.r14
            &&& u64_at(b, 120) == r.r15
            &&& u64_at(b, 128) == r.rip
            &&& u32_at(b, 136) == r.rflags % 0x1_0000_0000
            &&& u32_at(b, 140) == s.cs.selector
            &&& u32_at(b, 144) == s.ss.selector
            &&& u32_at(b, 148) == s.ds.selector
            &&& u32_at(b, 152) == s.es.selector
            &&& u32_at(b, 156) == s.fs.selector
            &&& u32_at(b, 160) == s.gs.selector
        }),
{
    let b = register_bytes(r, s);
    let ws = register_words(r);
    let hs = register_halves(r, s);
    lemma_le64_all(ws, le32_all(hs));
    assert forall|i: int| 0 <= i < 17 implies u64_at(b, 8 * i) == #[trigger] ws[i] by {}
    assert(u64_at(b, 0) == ws[0]
        && u64_at(b, 8) == ws[1]
        && u64_at(b, 16) == ws[2]
        && u64_at(b, 24) == ws[3]
        && u64_at(b, 32) == ws[4]
        && u64_at(b, 40) == ws[5]
        && u64_at(b, 48) == ws[6]
        && u64_at(b, 56) == ws[7]
        && u64_at(b, 64) == ws[8]
        && u64_at(b, 72) == ws[9]
        && u64_at(b, 80) == ws[10]
        && u64_at(b, 88) == ws[11]
        && u64_at(b, 96) == ws[12]
        && u64_at(b, 104) == ws[13]
        && u64_at(b, 112) == ws[14]
        && u64_at(b, 120) == ws[15]
        && u64_at(b, 128) == ws[16]);
    lemma_half(r, s, 0);
    lemma_half(r, s, 1);
    lemma_half(r, s, 2);
    lemma_half(r, s, 3);
    lemma_half(r, s, 4);
    lemma_half(r, s, 5);
    lemma_half(r, s, 6);
}

proof fn lemma_half(r: Regs, s: Sregs, i: int)
    requires
        0 <= i < 7,
    ensures
        u32_at(register_bytes(r, s), 136 + 4 * i) == register_halves(r, s)[i],
        register_bytes(r, s).len() == 164,
{
    let b = register_bytes(r, s);
    let hs = register_halves(r, s);
    crate::bytes::law_lists_of_numbers(register_words(r), hs, i);
    let part = le32_all(hs).subrange(4 * i, 4 * i + 4);
    assert forall|k: int| 0 <= k < 4 implies b[136 + 4 * i + k] == #[trigger] le32(hs[i])[k] by {
        assert(part[k] == le32_all(hs)[4 * i + k]);
    }
    crate::bytes::lemma_u32_le(b, 136 + 4 * i, hs[i]);
}

/// The register packets: `g` sends all registers, and `G` with what `g` sent
/// sets the general ones, the instruction pointer and the flags to that.
pub proof fn law_register_packets(v: GdbView, mem: Seq<u8>, r: Regs, s: Sregs, now: Regs, sregs: Option<Sregs>)
    ensures
        ({
            let (v1, mem1, a1) = packet_effect(v, mem, Some(r), Some(s), "g"@);
            &&& v1 == v
            &&& mem1 == mem
            &&& a1 matches ActionView::Reply(text) && is_hex_text(text) && hex_bytes(text) == register_bytes(r, s)
                && packet_effect(v, mem, Some(now), sregs, seq!['G'] + text) == (
                v,
                mem,
                ActionView::WriteRegs(Regs { rflags: (r.rflags % 0x1_0000_0000) as u64, ..r }),
            )
        }),
{
    reveal_strlit("g");
    assert("g"@[0] == 'g');
    let b = register_bytes(r, s);
    crate::hex::law_hex_round_trip(b);
    law_registers_round_trip(r, s, now);
    let p = seq!['G'] + hex_text(b);
    assert(p[0] == 'G');
    assert(p.skip(1) =~= hex_text(b));
}

/// The remaining packets: why the guest stopped, leaving it, ending it, what
/// the stub supports, and that no packet is to be acknowledged any more. One
/// that the stub does not know is answered with nothing. Leaving puts back
/// every byte that a breakpoint stood on.
#[verifier::spinoff_prover]
pub proof fn law_other_packets(
    v: GdbView,
    mem: Seq<u8>,
    regs: Option<Regs>,
    sregs: Option<Sregs>,
    tail: Seq<char>,
    i: u64,
)
    requires
        mem.len() <= u64::MAX,
    ensures
        packet_effect(v, mem, regs, sregs, "?"@) == (v, mem, ActionView::Reply("S05"@)),
        packet_effect(v, mem, regs, sregs, seq![]) == (v, mem, ActionView::Reply(""@)),
        packet_effect(v, mem, regs, sregs, "qSupported"@ + tail) == (v, mem, ActionView::Reply("PacketSize=4000"@)),
        packet_effect(v, mem, regs, sregs, "QStartNoAckMode"@) == (
            GdbView { no_ack: true, ..v },
            mem,
            ActionView::Reply("OK"@),
        ),
        packet_effect(v, mem, regs, sregs, seq!['v'] + tail) == (v, mem, ActionView::Reply(""@)),
        packet_effect(v, mem, regs, sregs, "Z1"@ + tail) == (v, mem, ActionView::Reply(""@)),
        packet_effect(v, mem, None, sregs, "g"@) == (v, mem, ActionView::Reply("E01"@)),
        packet_effect(v, mem, None, sregs, "c"@) == (v, mem, ActionView::NoRegs),
        packet_effect(v, mem, None, sregs, "s"@) == (v, mem, ActionView::NoRegs),
        ({
            let (v1, mem1, a1) = packet_effect(v, mem, regs, sregs, seq!['k'] + tail);
            &&& a1 == ActionView::Kill
            &&& v1.killed
            &&& !v1.attached
            &&& v1.breakpoints == v.breakpoints
            &&& mem1 == mem
        }),
        ({
            let (v1, mem1, a1) = packet_effect(v, mem, regs, sregs, seq!['D'] + tail);
            &&& a1 == ActionView::Detach
            &&& !v1.attached
            &&& !v1.stopped
            &&& v1.killed == v.killed
            &&& forall|a: u64| !v1.breakpoints.contains_key(a)
            &&& mem1.len() == mem.len()
            &&& i < mem.len() ==> mem1[i as int] == (if v.breakpoints.contains_key(i) {
                v.breakpoints[i]
            } else {
                mem[i as int]
            })
        }),
{
    reveal_strlit("?");
    reveal_strlit("g");
    reveal_strlit("c");
    reveal_strlit("s");
    reveal_strlit("Z0,");
    reveal_strlit("z0,");
    reveal_strlit("Z1");
    reveal_strlit("qSupported");
    reveal_strlit("QStartNoAckMode");
    assert("?"@[0] == '?' && "g"@[0] == 'g' && "c"@[0] == 'c' && "s"@[0] == 's');
    let q = "qSupported"@ + tail;
    assert(q[0] == 'q');
    assert(q.take(10) =~= "qSupported"@);
    assert(q.take(3)[0] == 'q');
    let n = "QStartNoAckMode"@;
    assert(n[0] == 'Q' && n.take(3)[0] == 'Q' && n.take(10)[0] == 'Q');
    assert("Z0,"@[0] == 'Z' && "z0,"@[0] == 'z' && "qSupported"@[0] == 'q' && "Z0,"@[1] == '0');
    let w = seq!['v'] + tail;
    assert(w[0] == 'v');
    if w.len() >= 3 {
        assert(w.take(3)[0] == 'v');
    }
    if w.len() >= 10 {
        assert(w.take(10)[0] == 'v');
    }
    let z = "Z1"@ + tail;
    assert(z[0] == 'Z' && z[1] == '1');
    if z.len() >= 3 {
        assert(z.take(3)[0] == 'Z' && z.take(3)[1] == '1');
    }
    if z.len() >= 10 {
        assert(z.take(10)[0] == 'Z');
    }
    let k = seq!['k'] + tail;
    assert(k[0] == 'k');
    let d = seq!['D'] + tail;
    assert(d[0] == 'D');
    if k.len() >= 3 {
        assert(k.take(3)[0] == 'k' && d.take(3)[0] == 'D');
    }
}

proof fn lemma_checksum_read(hi: u8, lo: u8, expected: u8)
    requires
        hi < 16,
        lo < 16,
    ensures
        received_checksum(digit_char(hi as int) as u8, digit_char(lo as int) as u8, expected) == 16 * hi + lo,
{
    let (x, y) = (digit_char(hi as int), digit_char(lo as int));
    reveal_with_fuel(digits_from, 3);
    let t = seq![x, y];
    assert(t.skip(1) =~= seq![y]);
    assert(seq![y].skip(1) =~= seq![]);
    assert(digit_value(x, 16) == Some(hi as nat));
    assert(digit_value(y, 16) == Some(lo as nat));
    assert((x as u8) as char == x && (y as u8) as char == y);
}

/// A frame is the data between `$` and `#` and two small digits of the sum of
/// its bytes. A frame that arrives with other digits is refused: with acks, a
/// `-` asks for it again and nothing is delivered. Bytes outside of a frame
/// are passed over.
#[verifier::spinoff_prover]
pub proof fn law_frames(data: Seq<u8>, hi: u8, lo: u8, noise: u8, no_ack: bool)
    requires
        !data.contains(0x23u8),
        hi < 16,
        lo < 16,
        noise != 0x24,
    ensures
        ({
            let f = framed(data);
            let n = data.len() as int;
            let idle = ReaderView { state: ReaderState::Idle, data: seq![] };
            let sum = sum8(data);
            let wrong = seq![0x24u8] + data + seq![0x23u8, digit_char(hi as int) as u8];
            let (r, ack, packet) = reader_step(reader_after(idle, wrong, false), digit_char(lo as int) as u8, false);
            &&& f.len() == n + 4
            &&& f[0] == '$' as u8
            &&& f.subrange(1, n + 1) == data
            &&& f[n + 1] == '#' as u8
            &&& f[n + 2] == (if sum / 16 < 10 { 0x30 + sum / 16 } else { 0x57 + sum / 16 })
            &&& f[n + 3] == (if sum % 16 < 10 { 0x30 + sum % 16 } else { 0x57 + sum % 16 })
            &&& r == idle
            &&& 16 * hi + lo != sum ==> ack == Some('-' as u8) && packet is None
            &&& 16 * hi + lo == sum ==> ack == Some('+' as u8) && packet == Some(data)
            &&& reader_step(idle, noise, no_ack) == (idle, None::<u8>, None::<Seq<u8>>)
        }),
{
    let f = framed(data);
    let n = data.len() as int;
    let sum = sum8(data);
    assert(f.subrange(1, n + 1) =~= data);
    crate::text::law_digits(sum as int / 16, 'a', 16);
    crate::text::law_digits(sum as int % 16, 'a', 16);
    let idle = ReaderView { state: ReaderState::Idle, data: seq![] };
    let wrong = seq![0x24u8] + data + seq![0x23u8, digit_char(hi as int) as u8];
    let w2 = wrong.drop_last();
    assert(w2 =~= seq![0x24u8] + data + seq![0x23u8]);
    assert(w2.drop_last() =~= seq![0x24u8] + data);
    lemma_reader_data(data, false);
    assert(reader_after(idle, w2, false) == (ReaderView { state: ReaderState::FirstDigit, data }));
    assert(wrong.last() == digit_char(hi as int) as u8);
    assert(reader_after(idle, wrong, false) == (ReaderView {
        state: ReaderState::SecondDigit(digit_char(hi as int) as u8),
        data,
    }));
    lemma_checksum_read(hi, lo, sum);
}

} // verus!
