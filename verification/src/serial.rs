//! A 16550-compatible UART, as far as a console driver needs it: polled and
//! interrupt-driven output, input, and the scratch register that drivers
//! probe. The transmitter is always empty.

use std::collections::VecDeque;

use vstd::prelude::*;
use vstd::string::*;

use crate::bytes::{fill, le32, lemma_u32_between, push_slice, push_u32, u32_at, zeroes};
use crate::snapshot::{take, take_u32, take_u8, truncated};

verus! {

/// The first port of COM1.
pub const COM1_BASE: u16 = 0x3f8;

/// How many ports it has.
pub const COM1_PORTS: u16 = 8;

/// Its interrupt.
pub const COM1_IRQ: u32 = 4;

/// The interrupt of COM2.
pub const COM2_IRQ: u32 = 3;

/// The interrupt of COM3, which it shares with COM1.
pub const COM3_IRQ: u32 = 4;

/// The interrupt of COM4, which it shares with COM2.
pub const COM4_IRQ: u32 = 3;

/// Receive buffer when read, transmit holding register when written.
pub const REG_RBR: u16 = 0;
/// Interrupt enable.
pub const REG_IER: u16 = 1;
/// Interrupt identification.
pub const REG_IIR: u16 = 2;
/// Line status.
pub const REG_LSR: u16 = 5;
/// Modem status.
pub const REG_MSR: u16 = 6;
/// Scratch.
pub const REG_SCR: u16 = 7;

/// Interrupt when data was received.
pub const IER_RDI: u8 = 0x01;
/// Interrupt when the transmitter is empty.
pub const IER_THRI: u8 = 0x02;
/// The enable bits that exist.
pub const IER_MASK: u8 = 0x0f;
/// No interrupt is pending.
pub const IIR_NO_INTERRUPT: u8 = 0x01;
/// The transmitter is empty.
pub const IIR_THRI: u8 = 0x02;
/// Data was received.
pub const IIR_RDI: u8 = 0x04;
/// Data is ready.
pub const LSR_DR: u8 = 0x01;
/// The transmitter is empty, both its registers.
pub const LSR_THRE_TEMT: u8 = 0x60;
/// The line looks connected.
pub const MSR_CTS_DSR_DCD: u8 = 0xb0;

/// The state of a UART.
pub struct SerialView {
    /// The interrupts that are enabled.
    pub ier: u8,
    /// The scratch register.
    pub scratch: u8,
    /// Input that the guest has not read yet.
    pub rx: Seq<u8>,
    /// Output that the host has not taken yet.
    pub tx: Seq<u8>,
}

/// Whether the interrupt `bit` is enabled.
pub open spec fn enabled(v: SerialView, bit: u8) -> bool {
    v.ier & bit != 0
}

/// The UART and whether its interrupt is to be raised, after the guest wrote
/// `data` at `port`. Enabling an interrupt whose condition holds raises it at
/// once, and so does output while the transmitter interrupt is enabled.
pub open spec fn out_effect(v: SerialView, port: u16, data: Seq<u8>) -> (SerialView, bool) {
    if data.len() == 0 {
        (v, false)
    } else if port == COM1_BASE + REG_RBR {
        (SerialView { tx: v.tx + data, ..v }, enabled(v, IER_THRI))
    } else if port == COM1_BASE + REG_IER {
        let n = SerialView { ier: data[0] & IER_MASK, ..v };
        (n, enabled(n, IER_THRI) || (enabled(n, IER_RDI) && n.rx.len() > 0))
    } else if port == COM1_BASE + REG_SCR {
        (SerialView { scratch: data[0], ..v }, false)
    } else {
        (v, false)
    }
}

/// The UART and the value of the register, after the guest read `port`.
/// Received data outranks an empty transmitter.
pub open spec fn in_effect(v: SerialView, port: u16) -> (SerialView, u8) {
    if port == COM1_BASE + REG_RBR {
        if v.rx.len() > 0 {
            (SerialView { rx: v.rx.skip(1), ..v }, v.rx[0])
        } else {
            (v, 0)
        }
    } else if port == COM1_BASE + REG_IIR {
        if enabled(v, IER_RDI) && v.rx.len() > 0 {
            (v, IIR_RDI)
        } else if enabled(v, IER_THRI) {
            (v, IIR_THRI)
        } else {
            (v, IIR_NO_INTERRUPT)
        }
    } else if port == COM1_BASE + REG_IER {
        (v, v.ier)
    } else if port == COM1_BASE + REG_LSR {
        (v, if v.rx.len() == 0 { 0x60u8 } else { 0x61u8 })
    } else if port == COM1_BASE + REG_MSR {
        (v, MSR_CTS_DSR_DCD)
    } else if port == COM1_BASE + REG_SCR {
        (v, v.scratch)
    } else {
        (v, 0)
    }
}

/// What a read of `len` bytes gives: the value, and zeroes behind it.
pub open spec fn in_bytes(value: u8, len: nat) -> Seq<u8> {
    Seq::new(len, |k: int| if k == 0 { value } else { 0u8 })
}

/// A UART as it is saved.
pub open spec fn saved(v: SerialView) -> Seq<u8> {
    seq![v.ier, v.scratch] + le32((v.rx.len() % 0x1_0000_0000) as u32) + v.rx
}

/// A UART brought to a saved state, and whether that was possible. What was
/// read before the state ended too early is in effect.
pub open spec fn restored(v: SerialView, data: Seq<u8>) -> (SerialView, bool) {
    if data.len() < 1 {
        (v, false)
    } else if data.len() < 2 {
        (SerialView { ier: data[0], ..v }, false)
    } else {
        let w = SerialView { ier: data[0], scratch: data[1], ..v };
        if data.len() < 6 || data.len() < 6 + u32_at(data, 2) {
            (w, false)
        } else {
            (SerialView { rx: data.subrange(6, 6 + u32_at(data, 2)), ..w }, true)
        }
    }
}

/// A UART.
pub struct Serial {
    ier: u8,
    scratch: u8,
    rx: VecDeque<u8>,
    tx: Vec<u8>,
}

impl View for Serial {
    type V = SerialView;

    closed spec fn view(&self) -> SerialView {
        SerialView { ier: self.ier, scratch: self.scratch, rx: self.rx@, tx: self.tx@ }
    }
}

impl Serial {
    /// A UART with nothing enabled and nothing queued.
    pub fn new() -> (r: Self)
        ensures
            r@ == (SerialView { ier: 0, scratch: 0, rx: seq![], tx: seq![] }),
    {
        let r = Serial { ier: 0, scratch: 0, rx: VecDeque::new(), tx: Vec::new() };
        assert(r@.rx =~= seq![]);
        assert(r@.tx =~= seq![]);
        r
    }

    /// Takes a byte of input for the guest. Whether the interrupt is to be
    /// raised.
    pub fn push_rx_byte(&mut self, byte: u8) -> (r: bool)
        ensures
            final(self)@ == (SerialView { rx: old(self)@.rx.push(byte), ..old(self)@ }),
            r == enabled(old(self)@, IER_RDI),
    {
        self.rx.push_back(byte);
        self.ier & IER_RDI != 0
    }

    /// The output since the last call.
    pub fn take_tx(&mut self) -> (r: Vec<u8>)
        ensures
            r@ == old(self)@.tx,
            final(self)@ == (SerialView { tx: seq![], ..old(self)@ }),
    {
        let mut out: Vec<u8> = Vec::new();
        assert(out@ =~= seq![]);
        core::mem::swap(&mut out, &mut self.tx);
        out
    }

    /// Handles a write of `data` at `port`. Whether the interrupt is to be
    /// raised.
    pub fn handle_out(&mut self, port: u16, data: &[u8]) -> (r: bool)
        ensures
            (final(self)@, r) == out_effect(old(self)@, port, data@),
    {
        if data.len() == 0 {
            return false;
        }
        let byte: u8 = data[0];
        let reg: u16 = port.wrapping_sub(COM1_BASE);
        if reg == REG_RBR {
            push_slice(&mut self.tx, data);
            self.ier & IER_THRI != 0
        } else if reg == REG_IER {
            self.ier = byte & IER_MASK;
            self.ier & IER_THRI != 0 || (self.ier & IER_RDI != 0 && self.rx.len() != 0)
        } else if reg == REG_SCR {
            self.scratch = byte;
            false
        } else {
            false
        }
    }

    /// Handles a read into `data` at `port`.
    pub fn handle_in(&mut self, port: u16, data: &mut [u8])
        ensures
            ({
                let (v, value) = in_effect(old(self)@, port);
                final(self)@ == v && final(data)@ == in_bytes(value, old(data)@.len())
            }),
    {
        fill(data, 0);
        let reg: u16 = port.wrapping_sub(COM1_BASE);
        let value: u8 = if reg == REG_RBR {
            match self.rx.pop_front() {
                Some(b) => {
                    assert(self.rx@ =~= old(self)@.rx.skip(1));
                    b
                },
                None => 0,
            }
        } else if reg == REG_IIR {
            if self.ier & IER_RDI != 0 && self.rx.len() != 0 {
                IIR_RDI
            } else if self.ier & IER_THRI != 0 {
                IIR_THRI
            } else {
                IIR_NO_INTERRUPT
            }
        } else if reg == REG_IER {
            self.ier
        } else if reg == REG_LSR {
            let ready: u8 = if self.rx.len() == 0 { 0 } else { LSR_DR };
            assert(0x60u8 | 0u8 == 0x60u8) by (bit_vector);
            assert(0x60u8 | 0x01u8 == 0x61u8) by (bit_vector);
            LSR_THRE_TEMT | ready
        } else if reg == REG_MSR {
            MSR_CTS_DSR_DCD
        } else if reg == REG_SCR {
            self.scratch
        } else {
            0
        };
        if data.len() > 0 {
            data[0] = value;
        }
        assert(data@ =~= in_bytes(value, old(data)@.len()));
    }

    /// The state, as bytes.
    pub fn save_state(&self) -> (r: Vec<u8>)
        ensures
            r@ == saved(self@),
    {
        let mut buf: Vec<u8> = Vec::new();
        buf.push(self.ier);
        buf.push(self.scratch);
        push_u32(&mut buf, (self.rx.len() as u64 % 0x1_0000_0000) as u32);
        let ghost head = seq![self.ier, self.scratch] + le32((self.rx@.len() % 0x1_0000_0000) as u32);
        let n: usize = self.rx.len();
        let mut i: usize = 0;
        assert(buf@ =~= head + self.rx@.take(0));
        while i < n
            invariant
                i <= n == self.rx@.len(),
                buf@ == head + self.rx@.take(i as int),
            decreases n - i,
        {
            buf.push(self.rx[i]);
            i += 1;
            assert(buf@ =~= head + self.rx@.take(i as int));
        }
        assert(self.rx@.take(i as int) =~= self.rx@);
        buf
    }

    /// Brings the UART to a state that `save_state` gave.
    pub fn restore_state(&mut self, data: &[u8]) -> (r: Result<(), String>)
        ensures
            ({
                let (v, ok) = restored(old(self)@, data@);
                &&& final(self)@ == v
                &&& match r {
                    Ok(_) => ok,
                    Err(e) => !ok && e@ == truncated(),
                }
            }),
    {
        let mut buf = data;
        self.ier = take_u8(&mut buf)?;
        assert(data@.len() >= 2 ==> data@.skip(1)[0] == data@[1]);
        self.scratch = take_u8(&mut buf)?;
        proof {
            assert(data@.skip(1).skip(1) =~= data@.skip(2));
            if data@.len() >= 6 {
                crate::bytes::lemma_u32_same(data@.skip(2), 0, data@, 2);
            }
        }
        let n: usize = take_u32(&mut buf)? as usize;
        assert(data@.skip(2).skip(4) =~= data@.skip(6));
        let queued = take(&mut buf, n)?;
        let mut rx: VecDeque<u8> = VecDeque::new();
        let mut i: usize = 0;
        assert(rx@ =~= queued@.take(0));
        while i < n
            invariant
                i <= n == queued@.len(),
                rx@ == queued@.take(i as int),
            decreases n - i,
        {
            rx.push_back(queued[i]);
            i += 1;
            assert(rx@ =~= queued@.take(i as int));
        }
        assert(queued@ =~= data@.subrange(6, 6 + n as int));
        assert(rx@ =~= queued@);
        self.rx = rx;
        Ok(())
    }
}

/// A saved state that is restored is the state that was saved: interrupts,
/// scratch register, and queued input in its order.
pub proof fn law_save_then_restore(v: SerialView, other: SerialView)
    requires
        v.rx.len() <= u32::MAX,
    ensures
        restored(other, saved(v)) == (
            SerialView { ier: v.ier, scratch: v.scratch, rx: v.rx, tx: other.tx },
            true,
        ),
{
    let data = saved(v);
    let n = v.rx.len() as u32;
    let a = seq![v.ier, v.scratch];
    assert(data =~= a + le32(n) + v.rx);
    lemma_u32_between(a, n, v.rx);
    assert(data.subrange(6, 6 + n as int) =~= v.rx);
}

/// Enabling the transmitter interrupt raises it at once: the transmitter is
/// always empty.
pub proof fn law_enabling_thri_raises(v: SerialView, data: Seq<u8>)
    requires
        data.len() > 0,
        data[0] & IER_THRI != 0,
    ensures
        out_effect(v, (COM1_BASE + REG_IER) as u16, data).1,
{
    let b = data[0];
    assert((b & 0x0fu8) & 0x02u8 == b & 0x02u8) by (bit_vector);
}

/// Input is read in the order in which it came: a byte that arrives waits
/// behind those that came before it.
pub proof fn law_input_in_order(v: SerialView, byte: u8)
    ensures
        in_effect(SerialView { rx: v.rx.push(byte), ..v }, COM1_BASE) == (if v.rx.len() == 0 {
            (v, byte)
        } else {
            (SerialView { rx: v.rx.skip(1).push(byte), ..v }, v.rx[0])
        }),
{
    if v.rx.len() == 0 {
        assert(v.rx.push(byte).skip(1) =~= v.rx);
    } else {
        assert(v.rx.push(byte).skip(1) =~= v.rx.skip(1).push(byte));
    }
}

proof fn lemma_bits(b: u8)
    ensures
        (b & 0x01u8 != 0) == (b % 2 == 1),
        (b & 0x02u8 != 0) == (b / 2 % 2 == 1),
        b & 0x0fu8 == b % 16,
{
    assert((b & 0x01u8 != 0) == (b % 2u8 == 1u8) && (b & 0x02u8 != 0) == (b / 2u8 % 2u8 == 1u8) && b & 0x0fu8 == b
        % 16u8) by (bit_vector);
}

/// What a guest writes to the data port goes out, every byte and in order, and
/// changes nothing else. The transmitter is at once empty again, which raises
/// an interrupt if the guest asked for that.
pub proof fn law_output_in_order(v: SerialView, a: Seq<u8>, b: Seq<u8>)
    requires
        a.len() > 0,
        b.len() > 0,
    ensures
        ({
            let (v1, irq) = out_effect(v, 0x3f8, a);
            let v2 = out_effect(v1, 0x3f8, b).0;
            &&& v1 == (SerialView { tx: v.tx + a, ..v })
            &&& v2.tx == v.tx + a + b
            &&& irq == (v.ier / 2 % 2 == 1)
        }),
{
    lemma_bits(v.ier);
}

/// The registers as a guest sees them: it reads back which interrupts it
/// enabled, of the four that there are, and what it put into the scratch
/// register. The line status says whether input is waiting, and that output
/// can always be sent. The modem lines are up. A write of nothing, or to
/// another port, does nothing, and another port reads as zero.
pub proof fn law_serial_registers(v: SerialView, data: Seq<u8>, port: u16)
    requires
        data.len() > 0,
    ensures
        in_effect(out_effect(v, 0x3f9, data).0, 0x3f9).1 == data[0] % 16,
        out_effect(v, 0x3f9, data).0 == (SerialView { ier: (data[0] % 16) as u8, ..v }),
        out_effect(v, 0x3ff, data) == (SerialView { scratch: data[0], ..v }, false),
        in_effect(out_effect(v, 0x3ff, data).0, 0x3ff).1 == data[0],
        in_effect(v, 0x3f9) == (v, v.ier),
        in_effect(v, 0x3ff) == (v, v.scratch),
        in_effect(v, 0x3fd) == (v, if v.rx.len() > 0 { 0x61u8 } else { 0x60u8 }),
        in_effect(v, 0x3fe) == (v, 0xb0u8),
        out_effect(v, port, seq![]) == (v, false),
        port != 0x3f8 && port != 0x3f9 && port != 0x3ff ==> out_effect(v, port, data) == (v, false),
        port < 0x3f8 || port > 0x3ff || port == 0x3fb || port == 0x3fc ==> in_effect(v, port) == (v, 0u8),
{
    lemma_bits(data[0]);
}

/// The interrupt that the guest finds is the one that it enabled and that is
/// due, input before output; there is one exactly if enabling raises the line,
/// and a byte that arrives raises it exactly if input is enabled.
pub proof fn law_serial_interrupts(v: SerialView, data: Seq<u8>)
    requires
        data.len() > 0,
    ensures
        ({
            let id = in_effect(v, 0x3fa).1;
            let input = v.ier % 2 == 1 && v.rx.len() > 0;
            let output = v.ier / 2 % 2 == 1;
            &&& in_effect(v, 0x3fa).0 == v
            &&& id == (if input {
                0x04u8
            } else if output {
                0x02u8
            } else {
                0x01u8
            })
        }),
        ({
            let (w, irq) = out_effect(v, 0x3f9, data);
            irq == (in_effect(w, 0x3fa).1 != 0x01)
        }),
        enabled(v, 0x01) == (v.ier % 2 == 1),
{
    lemma_bits(v.ier);
    lemma_bits(data[0]);
    lemma_bits((data[0] % 16) as u8);
}

/// Input is read byte by byte in the order in which it came, and then as zero.
pub proof fn law_input_is_read_in_order(v: SerialView, k: nat)
    requires
        k <= v.rx.len(),
    ensures
        ({
            let w = SerialView { rx: v.rx.skip(k as int), ..v };
            if k < v.rx.len() {
                in_effect(w, 0x3f8) == (SerialView { rx: v.rx.skip(k as int + 1), ..v }, v.rx[k as int])
            } else {
                in_effect(w, 0x3f8) == (w, 0u8)
            }
        }),
{
    if k < v.rx.len() {
        assert(v.rx.skip(k as int).skip(1) =~= v.rx.skip(k as int + 1));
    }
}

/// A read of several bytes has the register in the first and zeroes behind.
pub proof fn law_wide_serial_reads(value: u8, len: nat, k: int)
    requires
        0 <= k < len,
    ensures
        in_bytes(value, len).len() == len,
        in_bytes(value, len)[k] == (if k == 0 { value } else { 0u8 }),
{
}

/// Saved state that is cut short anywhere is refused.
pub proof fn law_cut_short_state_is_refused(v: SerialView, other: SerialView, n: int)
    requires
        v.rx.len() <= u32::MAX,
        0 <= n < saved(v).len(),
    ensures
        !restored(other, saved(v).take(n)).1,
{
    let s = saved(v);
    let c = s.take(n);
    if n >= 6 {
        let len = v.rx.len() as u32;
        assert forall|k: int| 0 <= k < 4 implies c[2 + k] == #[trigger] le32(len)[k] by {
            assert(s[2 + k] == le32(len)[k]);
        }
        crate::bytes::lemma_u32_le(c, 2, len);
    }
}

/// A byte that arrives waits behind those that came before, and raises the line
/// if the guest asked for that. Output is handed out once.
pub proof fn law_bytes_arrive(s: &mut Serial, byte: u8, irq: bool, t: &mut Serial, out: Vec<u8>)
    requires
        call_ensures(Serial::push_rx_byte, (s, byte), irq),
        call_ensures(Serial::take_tx, (t,), out),
    ensures
        final(s)@.rx == old(s)@.rx + seq![byte],
        final(s)@.tx == old(s)@.tx,
        final(s)@.ier == old(s)@.ier,
        irq <==> old(s)@.ier % 2 == 1,
        out@ == old(t)@.tx,
        final(t)@.tx.len() == 0,
        final(t)@.rx == old(t)@.rx,
        final(t)@.ier == old(t)@.ier,
{
    lemma_bits(old(s)@.ier);
    assert(old(s)@.rx.push(byte) =~= old(s)@.rx + seq![byte]);
}

} // verus!
