//! Sandboxed plugins: a plugin runs in a process of its own and is reached
//! over a pair of pipes.
//!
//! This module holds the wire format and every decision about what is sent
//! and received; the process and the pipes are the caller's. A frame is a
//! 32-bit little-endian length, a type byte and a payload; the length counts
//! the type byte and the payload. While the plugin handles a call it may ask
//! for guest memory or raise its interrupt before it replies.

use vstd::prelude::*;
use vstd::slice::slice_to_vec;
use vstd::string::*;
use vstd::utf8::*;

use crate::bytes::{copy_range, get_u16, get_u32, get_u64, le32, le64, lemma_u32_between, push_slice, push_u32, push_u64, splice, u16_at, u32_at, u64_at};
use crate::device::{dma_allowed, dma_range_allows};
use crate::error::HyperbugError;
use crate::mem::GuestMemory;
use crate::plugin::{is_inert, PluginIdentity};
use crate::text::{cat2, cat3, cat5, dec, dec_string, hex0x, hex0x_string, lossy, lossy_text};

verus! {

/// What is your PCI identity?
pub const MSG_IDENTITY: u8 = 1;
/// Read a register.
pub const MSG_READ: u8 = 2;
/// Write a register.
pub const MSG_WRITE: u8 = 3;
/// Do you have a `tick`?
pub const MSG_HAS_TICK: u8 = 4;
/// Tick.
pub const MSG_TICK: u8 = 5;
/// Shut down.
pub const MSG_SHUTDOWN: u8 = 6;
/// Do you have a `reset`?
pub const MSG_HAS_RESET: u8 = 7;
/// Reset.
pub const MSG_RESET: u8 = 8;
/// Done.
pub const MSG_OK: u8 = 0x80;
/// Done, with bytes.
pub const MSG_OK_BYTES: u8 = 0x81;
/// Done, with a truth value.
pub const MSG_OK_BOOL: u8 = 0x82;
/// Done, with an identity.
pub const MSG_OK_IDENTITY: u8 = 0x83;
/// Failed, with a message.
pub const MSG_ERR: u8 = 0xFF;
/// The plugin reads guest memory.
pub const MSG_CB_READ_MEM: u8 = 0x90;
/// The plugin writes guest memory.
pub const MSG_CB_WRITE_MEM: u8 = 0x91;
/// The plugin raises its interrupt.
pub const MSG_CB_RAISE_IRQ: u8 = 0x92;

/// The longest frame accepted: the other side is not trusted to say how much
/// memory to set aside.
pub const MAX_FRAME_LEN: u32 = 64 * 1024 * 1024;

/// How long a call may take, in milliseconds.
pub const CALL_TIMEOUT_MS: u64 = 200;

/// How long loading may take, in milliseconds.
pub const LOAD_TIMEOUT_MS: u64 = 5000;

/// A frame as it is sent. The length field has 32 bits.
pub open spec fn frame(msg_type: u8, payload: Seq<u8>) -> Seq<u8> {
    le32(((payload.len() + 1) % 0x1_0000_0000) as u32) + seq![msg_type] + payload
}

/// The type and the payload of the frame at the front of `buf`, and what
/// follows it. None if there is no whole frame, or one whose length is 0 or
/// more than is accepted.
pub open spec fn unframe(buf: Seq<u8>) -> Option<(u8, Seq<u8>, Seq<u8>)> {
    if buf.len() < 4 {
        None
    } else {
        let len = u32_at(buf, 0);
        if len == 0 || len > MAX_FRAME_LEN || buf.len() < 4 + len {
            None
        } else {
            Some((buf[4], buf.subrange(5, 4 + len), buf.skip(4 + len)))
        }
    }
}

proof fn lemma_next_mod(x: nat)
    ensures
        (x % 0x1_0000_0000 + 1) % 0x1_0000_0000 == (x + 1) % 0x1_0000_0000,
{
    vstd::arithmetic::div_mod::lemma_add_mod_noop(x as int, 1, 0x1_0000_0000);
}

/// Appends a frame.
pub fn write_frame(out: &mut Vec<u8>, msg_type: u8, payload: &[u8])
    ensures
        final(out)@ == old(out)@ + frame(msg_type, payload@),
{
    let n: u64 = payload.len() as u64 % 0x1_0000_0000;
    let len: u32 = ((n + 1) % 0x1_0000_0000) as u32;
    proof {
        lemma_next_mod(payload@.len());
    }
    push_u32(out, len);
    out.push(msg_type);
    push_slice(out, payload);
    let ghost l = le32(len);
    assert(l.len() == 4);
    assert(frame(msg_type, payload@) == l + seq![msg_type] + payload@);
    assert(out@ =~= old(out)@ + frame(msg_type, payload@));
}

/// How long the rest of a frame with this header is; none if it is not to be
/// read at all.
pub fn frame_len(header: &[u8]) -> (r: Option<u32>)
    requires
        header@.len() >= 4,
    ensures
        ({
            let len = u32_at(header@, 0);
            r == (if len == 0 || len > MAX_FRAME_LEN { None } else { Some(len) })
        }),
{
    let len: u32 = get_u32(header, 0);
    if len == 0 || len > MAX_FRAME_LEN {
        None
    } else {
        Some(len)
    }
}

/// What is left of `buf` once no frame could be read off its front: all is
/// taken in search of the rest of a frame that is cut short, and of a frame
/// that is not to be read at all, only the header is.
pub open spec fn after_refusal(buf: Seq<u8>) -> Seq<u8> {
    if buf.len() < 4 || 0 < u32_at(buf, 0) <= MAX_FRAME_LEN {
        seq![]
    } else {
        buf.skip(4)
    }
}

/// Takes a frame off the front of `buf`. Where there is none, what was looked
/// at is gone all the same, as with any stream.
pub fn read_frame(buf: &mut &[u8]) -> (r: Option<(u8, Vec<u8>)>)
    ensures
        match (r, unframe(old(buf)@)) {
            (Some((t, p)), Some((t2, p2, rest))) => t == t2 && p@ == p2 && final(buf)@ == rest,
            (None, None) => final(buf)@ == after_refusal(old(buf)@),
            _ => false,
        },
{
    let whole: &[u8] = *buf;
    let n: usize = whole.len();
    let none = vstd::slice::slice_subrange(whole, n, n);
    assert(none@ =~= seq![]);
    if n < 4 {
        *buf = none;
        return None;
    }
    let len: usize = match frame_len(whole) {
        Some(l) => l as usize,
        None => {
            let body = vstd::slice::slice_subrange(whole, 4, n);
            assert(body@ =~= whole@.skip(4));
            *buf = body;
            return None;
        },
    };
    if n - 4 < len {
        *buf = none;
        return None;
    }
    let payload: Vec<u8> = copy_range(whole, 5, 4 + len);
    let t: u8 = whole[4];
    let rest = vstd::slice::slice_subrange(whole, 4 + len, n);
    assert(rest@ =~= whole@.skip(4 + len as int));
    *buf = rest;
    Some((t, payload))
}

/// A frame that was written is read back as it was, whatever follows it, for
/// every payload that a frame may hold.
pub proof fn law_frame_round_trip(msg_type: u8, payload: Seq<u8>, tail: Seq<u8>)
    requires
        payload.len() + 1 <= MAX_FRAME_LEN,
    ensures
        unframe(frame(msg_type, payload) + tail) == Some((msg_type, payload, tail)),
{
    let len = (payload.len() + 1) as u32;
    let buf = frame(msg_type, payload) + tail;
    let rest = seq![msg_type] + payload + tail;
    assert(buf =~= Seq::<u8>::empty() + le32(len) + rest);
    lemma_u32_between(Seq::empty(), len, rest);
    assert(buf[4] == msg_type);
    assert(buf.subrange(5, 4 + len) =~= payload);
    assert(buf.skip(4 + len as int) =~= tail);
}

/// Bit `i` of `mask`.
pub open spec fn mask_bit(mask: u8, i: int) -> bool {
    mask & (1u8 << (i as u8)) != 0
}

/// Whether `i` is the identity in the payload of a reply: all zero unless the
/// payload begins with a 1 and is long enough.
pub open spec fn is_identity_of(i: PluginIdentity, payload: Seq<u8>) -> bool {
    if payload.len() < 36 || payload[0] != 1 {
        is_inert(i)
    } else {
        &&& i.vendor_id == u16_at(payload, 1)
        &&& i.device_id == u16_at(payload, 3)
        &&& i.class_code == u32_at(payload, 5)
        &&& forall|k: int| 0 <= k < 6 ==> #[trigger] i.bar_sizes@[k] == u32_at(payload, 9 + 4 * k)
        &&& forall|k: int| 0 <= k < 6 ==> #[trigger] i.bar_is_io@[k] == mask_bit(payload[33], k)
        &&& i.interrupt_line == payload[34]
        &&& i.msi_capable == (payload[35] != 0)
    }
}

/// The six flags of a mask.
pub fn mask_flags(mask: u8) -> (r: [bool; 6])
    ensures
        forall|k: int| 0 <= k < 6 ==> #[trigger] r@[k] == mask_bit(mask, k),
{
    [
        mask & (1u8 << 0u8) != 0,
        mask & (1u8 << 1u8) != 0,
        mask & (1u8 << 2u8) != 0,
        mask & (1u8 << 3u8) != 0,
        mask & (1u8 << 4u8) != 0,
        mask & (1u8 << 5u8) != 0,
    ]
}

impl PluginIdentity {
    /// Reads the payload of an identity reply. One that cannot be read is an
    /// identity that is all zero.
    pub fn parse_sandboxed_reply(payload: &[u8]) -> (r: Self)
        ensures
            is_identity_of(r, payload@),
    {
        if payload.len() < 36 || payload[0] != 1 {
            return PluginIdentity::default();
        }
        let bar_sizes: [u32; 6] = [
            get_u32(payload, 9),
            get_u32(payload, 13),
            get_u32(payload, 17),
            get_u32(payload, 21),
            get_u32(payload, 25),
            get_u32(payload, 29),
        ];
        PluginIdentity {
            vendor_id: get_u16(payload, 1),
            device_id: get_u16(payload, 3),
            class_code: get_u32(payload, 5),
            bar_sizes,
            bar_is_io: mask_flags(payload[33]),
            interrupt_line: payload[34],
            msi_capable: payload[35] != 0,
        }
    }
}

/// The message for an access that the plugin may not make.
pub open spec fn outside_text(addr: u64, size: nat, what: Seq<char>) -> Seq<char> {
    "address "@ + hex0x(addr as nat) + "+"@ + hex0x(size) + what
}

fn outside_bytes(addr: u64, size: u64, what: &str) -> (r: Vec<u8>)
    ensures
        r@ == encode_utf8(outside_text(addr, size as nat, what@)),
{
    let a = hex0x_string(addr);
    let s = hex0x_string(size);
    let m = cat5("address ", a.as_str(), "+", s.as_str(), what);
    slice_to_vec(m.as_str().as_bytes())
}

/// The answer to a plugin that reads guest memory: address and size in, bytes
/// or a message out.
pub open spec fn read_mem_answer(payload: Seq<u8>, mem: Seq<u8>, dma_range: Option<(u64, u64)>) -> (
    u8,
    Seq<u8>,
) {
    if payload.len() < 12 {
        (MSG_ERR, encode_utf8("malformed CB_READ_MEM"@))
    } else {
        let addr = u64_at(payload, 0);
        let size = u32_at(payload, 8);
        if !dma_allowed(dma_range, addr as int, size as int) {
            (
                MSG_ERR,
                encode_utf8(
                    outside_text(addr, size as nat, " is outside this device's declared DMA range"@),
                ),
            )
        } else if addr + size > mem.len() {
            (MSG_ERR, encode_utf8(outside_text(addr, size as nat, " is outside guest memory"@)))
        } else {
            (MSG_OK_BYTES, mem.subrange(addr as int, addr + size))
        }
    }
}

/// Answers a plugin that reads guest memory.
pub fn handle_read_mem(payload: &[u8], mem: &GuestMemory, dma_range: Option<(u64, u64)>) -> (r: (u8, Vec<u8>))
    ensures
        (r.0, r.1@) == read_mem_answer(payload@, mem@, dma_range),
{
    if payload.len() < 12 {
        return (MSG_ERR, slice_to_vec("malformed CB_READ_MEM".as_bytes()));
    }
    let addr: u64 = get_u64(payload, 0);
    let size: u64 = get_u32(payload, 8) as u64;
    if !dma_range_allows(dma_range, addr, size) {
        return (MSG_ERR, outside_bytes(addr, size, " is outside this device's declared DMA range"));
    }
    match mem.read_vec(addr, size) {
        Some(v) => (MSG_OK_BYTES, v),
        None => (MSG_ERR, outside_bytes(addr, size, " is outside guest memory")),
    }
}

/// Memory and the answer after a plugin writes guest memory: address and
/// bytes in, nothing or a message out.
pub open spec fn write_mem_answer(payload: Seq<u8>, mem: Seq<u8>, dma_range: Option<(u64, u64)>) -> (
    Seq<u8>,
    u8,
    Seq<u8>,
) {
    if payload.len() < 8 {
        (mem, MSG_ERR, encode_utf8("malformed CB_WRITE_MEM"@))
    } else {
        let addr = u64_at(payload, 0);
        let data = payload.skip(8);
        if !dma_allowed(dma_range, addr as int, data.len() as int) {
            (
                mem,
                MSG_ERR,
                encode_utf8(
                    outside_text(addr, data.len(), " is outside this device's declared DMA range"@),
                ),
            )
        } else if addr + data.len() > mem.len() {
            (mem, MSG_ERR, encode_utf8(outside_text(addr, data.len(), " is outside guest memory"@)))
        } else {
            (splice(mem, addr as int, data), MSG_OK, seq![])
        }
    }
}

/// Answers a plugin that writes guest memory.
pub fn handle_write_mem(payload: &[u8], mem: &mut GuestMemory, dma_range: Option<(u64, u64)>) -> (r: (
    u8,
    Vec<u8>,
))
    ensures
        (final(mem)@, r.0, r.1@) == write_mem_answer(payload@, old(mem)@, dma_range),
{
    if payload.len() < 8 {
        return (MSG_ERR, slice_to_vec("malformed CB_WRITE_MEM".as_bytes()));
    }
    let addr: u64 = get_u64(payload, 0);
    let data: Vec<u8> = copy_range(payload, 8, payload.len());
    assert(data@ =~= payload@.skip(8));
    let n: u64 = data.len() as u64;
    if !dma_range_allows(dma_range, addr, n) {
        return (MSG_ERR, outside_bytes(addr, n, " is outside this device's declared DMA range"));
    }
    if mem.write_checked(addr, data.as_slice()) {
        let none: Vec<u8> = Vec::new();
        assert(none@ =~= seq![]);
        (MSG_OK, none)
    } else {
        (MSG_ERR, outside_bytes(addr, n, " is outside guest memory"))
    }
}

/// A confined plugin can neither read nor change a byte outside its range:
/// what it reads lies inside, and every other byte of memory stays as it was.
pub proof fn law_plugin_confinement(payload: Seq<u8>, mem: Seq<u8>, range: (u64, u64), i: int)
    requires
        0 <= i < mem.len(),
        !(range.0 <= i < range.0 + range.1),
    ensures
        write_mem_answer(payload, mem, Some(range)).0[i] == mem[i],
        write_mem_answer(payload, mem, Some(range)).0.len() == mem.len(),
        read_mem_answer(payload, mem, Some(range)).0 == MSG_OK_BYTES ==> !(u64_at(payload, 0) <= i
            < u64_at(payload, 0) + u32_at(payload, 8)),
{
}

/// What to do with a frame that a plugin sent.
#[derive(Debug)]
pub enum ReaderAction {
    /// Its interrupt is pending.
    RaiseIrq,
    /// Send it this frame.
    Send(u8, Vec<u8>),
    /// It is the reply that a call waits for.
    Forward(u8, Vec<u8>),
}

/// Handles a frame that a plugin sent: requests are answered against guest
/// memory, and everything else is a reply.
pub fn on_frame(
    msg_type: u8,
    payload: Vec<u8>,
    mem: &mut GuestMemory,
    dma_range: Option<(u64, u64)>,
) -> (r: ReaderAction)
    ensures
        if msg_type == MSG_CB_RAISE_IRQ {
            r is RaiseIrq && final(mem)@ == old(mem)@
        } else if msg_type == MSG_CB_READ_MEM {
            &&& r matches ReaderAction::Send(t, p) && (t, p@) == read_mem_answer(
                payload@,
                old(mem)@,
                dma_range,
            )
            &&& final(mem)@ == old(mem)@
        } else if msg_type == MSG_CB_WRITE_MEM {
            r matches ReaderAction::Send(t, p) && (final(mem)@, t, p@) == write_mem_answer(
                payload@,
                old(mem)@,
                dma_range,
            )
        } else {
            r == ReaderAction::Forward(msg_type, payload) && final(mem)@ == old(mem)@
        },
{
    if msg_type == MSG_CB_RAISE_IRQ {
        ReaderAction::RaiseIrq
    } else if msg_type == MSG_CB_READ_MEM {
        let (t, p) = handle_read_mem(payload.as_slice(), mem, dma_range);
        ReaderAction::Send(t, p)
    } else if msg_type == MSG_CB_WRITE_MEM {
        let (t, p) = handle_write_mem(payload.as_slice(), mem, dma_range);
        ReaderAction::Send(t, p)
    } else {
        ReaderAction::Forward(msg_type, payload)
    }
}

/// How long a call may take.
#[derive(Clone, Copy, Debug, PartialEq, Eq, Structural)]
pub enum Timeout {
    /// `CALL_TIMEOUT_MS`.
    Call,
    /// `LOAD_TIMEOUT_MS`.
    Load,
}

impl Timeout {
    /// The time in words.
    pub open spec fn words(self) -> Seq<char> {
        match self {
            Timeout::Call => "200ms"@,
            Timeout::Load => "5s"@,
        }
    }

    /// The time in words.
    pub fn text(self) -> (r: &'static str)
        ensures
            r@ == self.words(),
    {
        match self {
            Timeout::Call => "200ms",
            Timeout::Load => "5s",
        }
    }

    /// The time in milliseconds.
    pub fn millis(self) -> (r: u64)
        ensures
            r == (if self == Timeout::Call { CALL_TIMEOUT_MS } else { LOAD_TIMEOUT_MS }),
    {
        match self {
            Timeout::Call => CALL_TIMEOUT_MS,
            Timeout::Load => LOAD_TIMEOUT_MS,
        }
    }
}

/// What became of a call.
#[derive(Debug)]
pub enum CallEvent {
    /// The request could not be written.
    WriteFailed,
    /// A reply came in time.
    Reply(u8, Vec<u8>),
    /// No reply came in time.
    TimedOut,
    /// The process is gone.
    Disconnected,
}

/// The state of a sandboxed plugin. One that failed to answer once is never
/// talked to again.
#[derive(Clone, Copy, Debug, PartialEq, Eq, Structural)]
pub struct SandboxState {
    pub faulted: bool,
    pub has_tick: bool,
    pub has_reset: bool,
}

/// The outcome of a call, messages as text.
pub open spec fn call_outcome(ev: CallEvent, timeout: Timeout) -> Result<(u8, Seq<u8>), Seq<char>> {
    match ev {
        CallEvent::Reply(t, p) => Ok((t, p@)),
        CallEvent::WriteFailed => Err("failed to write to sandboxed device's stdin"@),
        CallEvent::TimedOut => Err(
            "sandboxed device didn't respond within "@ + timeout.words() + "; killed"@,
        ),
        CallEvent::Disconnected => Err("sandboxed device's process exited unexpectedly"@),
    }
}

impl SandboxState {
    /// A plugin of which nothing is known yet.
    pub fn new() -> (r: Self)
        ensures
            r == (SandboxState { faulted: false, has_tick: false, has_reset: false }),
    {
        SandboxState { faulted: false, has_tick: false, has_reset: false }
    }

    /// Whether a call may be made at all; the error if not.
    pub fn begin_call(&self) -> (r: Result<(), String>)
        ensures
            match r {
                Ok(_) => !self.faulted,
                Err(e) => self.faulted && e@
                    == "device is faulted (a prior call timed out or crashed it)"@,
            },
    {
        if self.faulted {
            Err("device is faulted (a prior call timed out or crashed it)".to_owned())
        } else {
            Ok(())
        }
    }

    /// Gives the plugin up. Whether its process is to be killed now: the
    /// first time only.
    pub fn fault(&mut self) -> (kill: bool)
        ensures
            kill == !old(self).faulted,
            *final(self) == (SandboxState { faulted: true, ..*old(self) }),
    {
        let kill = !self.faulted;
        self.faulted = true;
        kill
    }

    /// The outcome of a call, and whether the process is to be killed now.
    /// Anything but a reply gives the plugin up.
    pub fn end_call(&mut self, ev: CallEvent, timeout: Timeout) -> (r: (Result<(u8, Vec<u8>), String>, bool))
        ensures
            match (r.0, call_outcome(ev, timeout)) {
                (Ok((t, p)), Ok((t2, p2))) => t == t2 && p@ == p2 && !r.1 && *final(self) == *old(self),
                (Err(e), Err(m)) => e@ == m && r.1 == !old(self).faulted && *final(self) == (
                SandboxState { faulted: true, ..*old(self) }),
                _ => false,
            },
    {
        match ev {
            CallEvent::Reply(t, p) => (Ok((t, p)), false),
            CallEvent::WriteFailed => {
                let kill = self.fault();
                (Err("failed to write to sandboxed device's stdin".to_owned()), kill)
            },
            CallEvent::TimedOut => {
                let kill = self.fault();
                (
                    Err(cat3("sandboxed device didn't respond within ", timeout.text(), "; killed")),
                    kill,
                )
            },
            CallEvent::Disconnected => {
                let kill = self.fault();
                (Err("sandboxed device's process exited unexpectedly".to_owned()), kill)
            },
        }
    }
}

/// The payload of a read request.
pub fn read_request(offset: u64, len: usize) -> (r: Vec<u8>)
    ensures
        r@ == le64(offset) + le32((len as nat % 0x1_0000_0000) as u32),
{
    let mut v: Vec<u8> = Vec::new();
    push_u64(&mut v, offset);
    push_u32(&mut v, (len as u64 % 0x1_0000_0000) as u32);
    assert(v@ =~= le64(offset) + le32((len as nat % 0x1_0000_0000) as u32));
    v
}

/// The payload of a write request.
pub fn write_request(offset: u64, data: &[u8]) -> (r: Vec<u8>)
    ensures
        r@ == le64(offset) + data@,
{
    let mut v: Vec<u8> = Vec::new();
    push_u64(&mut v, offset);
    push_slice(&mut v, data);
    assert(v@ =~= le64(offset) + data@);
    v
}

/// The message of a reply that is not the one expected.
pub open spec fn bad_reply(msg_type: u8, payload: Seq<u8>) -> Seq<char> {
    if msg_type == MSG_ERR {
        lossy_text(payload)
    } else {
        "sandboxed device sent unexpected reply type "@ + hex0x(msg_type as nat)
    }
}

fn bad_reply_error(msg_type: u8, payload: &[u8]) -> (r: String)
    ensures
        r@ == bad_reply(msg_type, payload@),
{
    if msg_type == MSG_ERR {
        lossy(payload)
    } else {
        let h = hex0x_string(msg_type as u64);
        cat2("sandboxed device sent unexpected reply type ", h.as_str())
    }
}

/// Takes the reply to a read into `data`, which is left alone on an error.
pub fn read_reply(msg_type: u8, payload: &[u8], data: &mut [u8]) -> (r: Result<(), String>)
    ensures
        if msg_type != MSG_OK_BYTES {
            &&& r matches Err(e) && e@ == bad_reply(msg_type, payload@)
            &&& final(data)@ == old(data)@
        } else if payload@.len() != old(data)@.len() {
            &&& r matches Err(e) && e@ == "sandboxed device read() returned "@ + dec(payload@.len())
                + " bytes, expected "@ + dec(old(data)@.len())
            &&& final(data)@ == old(data)@
        } else {
            r is Ok && final(data)@ == payload@
        },
{
    if msg_type != MSG_OK_BYTES {
        return Err(bad_reply_error(msg_type, payload));
    }
    if payload.len() != data.len() {
        let a = dec_string(payload.len() as u64);
        let b = dec_string(data.len() as u64);
        return Err(
            crate::text::cat4(
                "sandboxed device read() returned ",
                a.as_str(),
                " bytes, expected ",
                b.as_str(),
            ),
        );
    }
    let mut i: usize = 0;
    while i < data.len()
        invariant
            i <= data@.len() == payload@.len() == old(data)@.len(),
            forall|k: int| 0 <= k < i ==> data@[k] == payload@[k],
        decreases data@.len() - i,
    {
        data[i] = payload[i];
        i += 1;
    }
    assert(data@ =~= payload@);
    Ok(())
}

/// The answer in the reply to a write.
pub fn write_reply(msg_type: u8, payload: &[u8]) -> (r: Result<bool, String>)
    ensures
        match r {
            Ok(b) => msg_type == MSG_OK_BOOL && b == (payload@.len() > 0 && payload@[0] != 0),
            Err(e) => msg_type != MSG_OK_BOOL && e@ == bad_reply(msg_type, payload@),
        },
{
    if msg_type == MSG_OK_BOOL {
        Ok(payload.len() > 0 && payload[0] != 0)
    } else {
        Err(bad_reply_error(msg_type, payload))
    }
}

/// The reply to a tick or a reset.
pub fn done_reply(msg_type: u8, payload: &[u8]) -> (r: Result<(), String>)
    ensures
        match r {
            Ok(_) => msg_type == MSG_OK,
            Err(e) => msg_type != MSG_OK && e@ == bad_reply(msg_type, payload@),
        },
{
    if msg_type == MSG_OK {
        Ok(())
    } else {
        Err(bad_reply_error(msg_type, payload))
    }
}

/// What is awaited while a plugin is loaded.
#[derive(Clone, Copy, Debug, PartialEq, Eq, Structural)]
pub enum LoadStage {
    Ready,
    Identity,
    HasTick,
    HasReset,
    Loaded,
}

/// What to do next to load a plugin.
#[derive(Debug)]
pub enum LoadAction {
    /// Make this call, without payload, and hand back its outcome.
    Call(u8),
    /// The plugin is loaded.
    Done,
    /// It failed.
    Failed(HyperbugError),
    /// It failed; kill the process.
    Killed(HyperbugError),
}

/// A plugin that is being loaded.
pub struct Loader {
    pub path: String,
    pub class_name: String,
    pub want_pci: bool,
    pub stage: LoadStage,
    pub identity: PluginIdentity,
    pub state: SandboxState,
}

/// How a message names the plugin `path`, class `class_name`.
pub open spec fn plugin_name(path: Seq<char>, class_name: Seq<char>) -> Seq<char> {
    path + " ("@ + class_name + ")"@
}

/// Whether an action is a failure to load with this message.
pub open spec fn failed_with(a: LoadAction, m: Seq<char>) -> bool {
    a matches LoadAction::Failed(HyperbugError::Python(e)) && e@ == m
}

/// Whether the answer to a question is yes.
pub open spec fn says_yes(msg_type: u8, payload: Seq<u8>) -> bool {
    msg_type == MSG_OK_BOOL && payload.len() > 0 && payload[0] == 1
}

impl Loader {
    /// A plugin whose process was just started.
    pub fn new(path: String, class_name: String, want_pci: bool) -> (r: Self)
        ensures
            r.path@ == path@,
            r.class_name@ == class_name@,
            r.want_pci == want_pci,
            r.stage == LoadStage::Ready,
            is_inert(r.identity),
            r.state == (SandboxState { faulted: false, has_tick: false, has_reset: false }),
    {
        Loader {
            path,
            class_name,
            want_pci,
            stage: LoadStage::Ready,
            identity: PluginIdentity::default(),
            state: SandboxState::new(),
        }
    }

    fn name(&self) -> (r: String)
        ensures
            r@ == plugin_name(self.path@, self.class_name@),
    {
        crate::text::cat4(self.path.as_str(), " (", self.class_name.as_str(), ")")
    }

    /// Takes the first frame of the plugin, or that none came in time: it
    /// says whether the plugin's code could be loaded.
    pub fn ready(&mut self, first: Option<(u8, Vec<u8>)>) -> (r: LoadAction)
        ensures
            final(self).path == old(self).path,
            final(self).class_name == old(self).class_name,
            final(self).want_pci == old(self).want_pci,
            final(self).identity == old(self).identity,
            final(self).state == old(self).state,
            ({
                let name = plugin_name(old(self).path@, old(self).class_name@);
                match first {
                    None => r matches LoadAction::Killed(HyperbugError::Python(e)) && e@
                        == "sandboxed device "@ + name + " didn't finish loading within 5s"@
                        && final(self).stage == old(self).stage,
                    Some((t, p)) => if t == MSG_OK {
                        if old(self).want_pci {
                            r == LoadAction::Call(MSG_IDENTITY) && final(self).stage
                                == LoadStage::Identity
                        } else {
                            r == LoadAction::Call(MSG_HAS_TICK) && final(self).stage
                                == LoadStage::HasTick
                        }
                    } else if t == MSG_ERR {
                        failed_with(r, "loading sandboxed device "@ + name + ": "@ + lossy_text(p@))
                            && final(self).stage == old(self).stage
                    } else {
                        failed_with(
                            r,
                            "loading sandboxed device "@ + name + ": unexpected reply type "@ + hex0x(
                                t as nat,
                            ),
                        ) && final(self).stage == old(self).stage
                    },
                }
            }),
    {
        let name = self.name();
        match first {
            None => LoadAction::Killed(
                HyperbugError::Python(
                    cat3("sandboxed device ", name.as_str(), " didn't finish loading within 5s"),
                ),
            ),
            Some((t, p)) => {
                if t == MSG_OK {
                    if self.want_pci {
                        self.stage = LoadStage::Identity;
                        LoadAction::Call(MSG_IDENTITY)
                    } else {
                        self.stage = LoadStage::HasTick;
                        LoadAction::Call(MSG_HAS_TICK)
                    }
                } else if t == MSG_ERR {
                    let m = lossy(p.as_slice());
                    LoadAction::Failed(
                        HyperbugError::Python(
                            crate::text::cat4("loading sandboxed device ", name.as_str(), ": ", m.as_str()),
                        ),
                    )
                } else {
                    let h = hex0x_string(t as u64);
                    LoadAction::Failed(
                        HyperbugError::Python(
                            crate::text::cat4(
                                "loading sandboxed device ",
                                name.as_str(),
                                ": unexpected reply type ",
                                h.as_str(),
                            ),
                        ),
                    )
                }
            },
        }
    }

    /// Takes the outcome of the call that was asked for last.
    pub fn answered(&mut self, outcome: Result<(u8, Vec<u8>), String>) -> (r: LoadAction)
        requires
            old(self).stage != LoadStage::Ready,
            old(self).stage != LoadStage::Loaded,
        ensures
            final(self).path == old(self).path,
            final(self).class_name == old(self).class_name,
            final(self).want_pci == old(self).want_pci,
            match outcome {
                Err(e) => {
                    &&& failed_with(r, e@)
                    &&& final(self).stage == old(self).stage
                    &&& final(self).identity == old(self).identity
                    &&& final(self).state == old(self).state
                },
                Ok((t, p)) => match old(self).stage {
                    LoadStage::Identity => {
                        &&& r == LoadAction::Call(MSG_HAS_TICK)
                        &&& final(self).stage == LoadStage::HasTick
                        &&& final(self).state == old(self).state
                        &&& if t == MSG_OK_IDENTITY {
                            is_identity_of(final(self).identity, p@)
                        } else {
                            final(self).identity == old(self).identity
                        }
                    },
                    LoadStage::HasTick => {
                        &&& r == LoadAction::Call(MSG_HAS_RESET)
                        &&& final(self).stage == LoadStage::HasReset
                        &&& final(self).identity == old(self).identity
                        &&& final(self).state == (SandboxState {
                            has_tick: says_yes(t, p@),
                            ..old(self).state
                        })
                    },
                    _ => {
                        &&& r is Done
                        &&& final(self).stage == LoadStage::Loaded
                        &&& final(self).identity == old(self).identity
                        &&& final(self).state == (SandboxState {
                            has_reset: says_yes(t, p@),
                            ..old(self).state
                        })
                    },
                },
            },
    {
        let (t, p) = match outcome {
            Ok(x) => x,
            Err(e) => {
                return LoadAction::Failed(HyperbugError::Python(e));
            },
        };
        let yes = t == MSG_OK_BOOL && p.len() > 0 && p[0] == 1;
        match self.stage {
            LoadStage::Identity => {
                if t == MSG_OK_IDENTITY {
                    self.identity = PluginIdentity::parse_sandboxed_reply(p.as_slice());
                }
                self.stage = LoadStage::HasTick;
                LoadAction::Call(MSG_HAS_TICK)
            },
            LoadStage::HasTick => {
                self.state.has_tick = yes;
                self.stage = LoadStage::HasReset;
                LoadAction::Call(MSG_HAS_RESET)
            },
            _ => {
                self.state.has_reset = yes;
                self.stage = LoadStage::Loaded;
                LoadAction::Done
            },
        }
    }
}

/// A frame is the number of bytes that follow, in four bytes, then the type,
/// then the payload as it is.
pub proof fn law_frame_layout(msg_type: u8, payload: Seq<u8>)
    requires
        payload.len() < 0xffff_ffff,
    ensures
        ({
            let f = frame(msg_type, payload);
            &&& f.len() == payload.len() + 5
            &&& f[0] + 0x100 * f[1] + 0x1_0000 * f[2] + 0x100_0000 * f[3] == payload.len() + 1
            &&& f[4] == msg_type
            &&& f.skip(5) == payload
        }),
{
    let f = frame(msg_type, payload);
    let n = (payload.len() + 1) as u32;
    crate::bytes::law_little_endian(0, n, 0);
    assert(f[0] == le32(n)[0] && f[1] == le32(n)[1] && f[2] == le32(n)[2] && f[3] == le32(n)[3]);
    assert(f.skip(5) =~= payload);
}

/// A frame that claims to be empty, or larger than 64 MiB, is refused whatever
/// follows it, and only its header is gone. A frame that is cut short is
/// refused too, and all of it is gone.
pub proof fn law_refused_frames(buf: Seq<u8>)
    ensures
        ({
            let n = buf[0] + 0x100 * buf[1] + 0x1_0000 * buf[2] + 0x100_0000 * buf[3];
            &&& buf.len() < 4 ==> unframe(buf) is None && after_refusal(buf).len() == 0
            &&& buf.len() >= 4 && (n == 0 || n > 0x400_0000) ==> unframe(buf) is None && after_refusal(buf)
                == buf.skip(4)
            &&& buf.len() >= 4 && 0 < n <= 0x400_0000 && buf.len() < 4 + n ==> unframe(buf) is None && after_refusal(
                buf,
            ).len() == 0
            &&& buf.len() >= 4 && 0 < n <= 0x400_0000 && buf.len() >= 4 + n ==> unframe(buf) is Some
        }),
{
    crate::bytes::law_little_endian_reads(buf, 0);
}

/// A plugin that reads guest memory gets the bytes at the address that it
/// asked for, as many as it asked for, if all of them are in guest memory and
/// in the range that it was given. Otherwise it gets an error.
pub proof fn law_plugin_reads_what_is_there(
    addr: u64,
    size: u32,
    more: Seq<u8>,
    mem: Seq<u8>,
    dma_range: Option<(u64, u64)>,
    k: int,
)
    ensures
        ({
            let (t, answer) = read_mem_answer(le64(addr) + le32(size) + more, mem, dma_range);
            let in_range = match dma_range {
                None => true,
                Some((base, len)) => base + len <= u64::MAX && base <= addr && addr + size <= base + len,
            };
            if in_range && addr + size <= mem.len() {
                &&& t == 0x81
                &&& answer.len() == size
                &&& 0 <= k < size ==> answer[k] == mem[addr + k]
            } else {
                t == 0xff
            }
        }),
{
    let payload = le64(addr) + le32(size) + more;
    assert forall|j: int| 0 <= j < 8 implies payload[0 + j] == #[trigger] le64(addr)[j] by {}
    crate::bytes::lemma_u64_le(payload, 0, addr);
    assert forall|j: int| 0 <= j < 4 implies payload[8 + j] == #[trigger] le32(size)[j] by {}
    crate::bytes::lemma_u32_le(payload, 8, size);
}

/// A plugin that writes guest memory changes the bytes at the address that it
/// named and no others, under the same conditions as for a read, and reads
/// back what it wrote. A write that is refused changes nothing.
#[verifier::spinoff_prover]
pub proof fn law_plugin_reads_back_what_it_wrote(
    addr: u64,
    data: Seq<u8>,
    mem: Seq<u8>,
    dma_range: Option<(u64, u64)>,
    i: int,
)
    requires
        data.len() <= u32::MAX,
    ensures
        ({
            let (after, t, answer) = write_mem_answer(le64(addr) + data, mem, dma_range);
            let in_range = match dma_range {
                None => true,
                Some((base, len)) => base + len <= u64::MAX && base <= addr && addr + data.len() <= base + len,
            };
            &&& answer.len() == 0 || t == 0xff
            &&& after.len() == mem.len()
            &&& if in_range && addr + data.len() <= mem.len() {
                &&& t == 0x80
                &&& 0 <= i < mem.len() ==> after[i] == (if addr <= i < addr + data.len() {
                    data[i - addr]
                } else {
                    mem[i]
                })
                &&& read_mem_answer(le64(addr) + le32(data.len() as u32), after, dma_range) == (0x81u8, data)
            } else {
                &&& t == 0xff
                &&& after == mem
            }
        }),
{
    let payload = le64(addr) + data;
    assert forall|j: int| 0 <= j < 8 implies payload[0 + j] == #[trigger] le64(addr)[j] by {}
    crate::bytes::lemma_u64_le(payload, 0, addr);
    assert(payload.skip(8) =~= data);
    let (after, t, answer) = write_mem_answer(payload, mem, dma_range);
    let size = data.len() as u32;
    let ask = le64(addr) + le32(size);
    assert(ask + seq![] =~= ask);
    law_plugin_reads_what_is_there(addr, size, seq![], after, dma_range, 0);
    if t == 0x80 {
        assert forall|k: int| 0 <= k < size implies read_mem_answer(ask, after, dma_range).1[k] == data[k] by {
            law_plugin_reads_what_is_there(addr, size, seq![], after, dma_range, k);
        }
        assert(read_mem_answer(ask, after, dma_range).1 =~= data);
    }
}

/// A request that does not even hold an address, or for a read a size, is an
/// error and changes nothing.
pub proof fn law_malformed_requests(payload: Seq<u8>, mem: Seq<u8>, dma_range: Option<(u64, u64)>)
    ensures
        payload.len() < 12 ==> read_mem_answer(payload, mem, dma_range).0 == 0xff,
        payload.len() < 8 ==> write_mem_answer(payload, mem, dma_range).1 == 0xff,
        payload.len() < 8 ==> write_mem_answer(payload, mem, dma_range).0 == mem,
{
}

/// The identity that a plugin sends is taken over field by field: the two IDs,
/// the class, six BAR sizes, one bit for each BAR in I/O space, the interrupt
/// line and the MSI flag.
#[verifier::spinoff_prover]
pub proof fn law_identity_is_taken_over(
    i: PluginIdentity,
    vendor: u16,
    device: u16,
    class: u32,
    sizes: Seq<u32>,
    mask: u8,
    line: u8,
    msi: u8,
    more: Seq<u8>,
    k: int,
)
    requires
        sizes.len() == 6,
        0 <= k < 6,
        is_identity_of(
            i,
            seq![1u8] + crate::bytes::le16(vendor) + crate::bytes::le16(device) + le32(class) + crate::bytes::le32_all(
                sizes,
            ) + seq![mask, line, msi] + more,
        ),
    ensures
        i.vendor_id == vendor,
        i.device_id == device,
        i.class_code == class,
        i.bar_sizes@[k] == sizes[k],
        i.bar_is_io@[k] == ((mask as int / (if k == 0 {
            1int
        } else if k == 1 {
            2
        } else if k == 2 {
            4
        } else if k == 3 {
            8
        } else if k == 4 {
            16
        } else {
            32
        })) % 2 == 1),
        i.interrupt_line == line,
        i.msi_capable == (msi != 0),
{
    let bars = crate::bytes::le32_all(sizes);
    let payload = seq![1u8] + crate::bytes::le16(vendor) + crate::bytes::le16(device) + le32(class) + bars + seq![
        mask,
        line,
        msi,
    ] + more;
    crate::bytes::law_lists_of_numbers(seq![], sizes, k);
    crate::bytes::lemma_u16_le(payload, 1, vendor);
    crate::bytes::lemma_u16_le(payload, 3, device);
    assert forall|j: int| 0 <= j < 4 implies payload[5 + j] == #[trigger] le32(class)[j] by {}
    crate::bytes::lemma_u32_le(payload, 5, class);
    let part = bars.subrange(4 * k, 4 * k + 4);
    assert forall|j: int| 0 <= j < 4 implies payload[9 + 4 * k + j] == #[trigger] le32(sizes[k])[j] by {
        assert(part[j] == bars[4 * k + j]);
    }
    crate::bytes::lemma_u32_le(payload, 9 + 4 * k, sizes[k]);
    assert(i.bar_sizes@[k] == u32_at(payload, 9 + 4 * k));
    assert(i.bar_is_io@[k] == mask_bit(payload[33], k));
    law_mask_bits(mask);
}

/// A mask has one bit for each BAR, the lowest for the first.
pub proof fn law_mask_bits(mask: u8)
    ensures
        mask_bit(mask, 0) == (mask % 2 == 1),
        mask_bit(mask, 1) == (mask / 2 % 2 == 1),
        mask_bit(mask, 2) == (mask / 4 % 2 == 1),
        mask_bit(mask, 3) == (mask / 8 % 2 == 1),
        mask_bit(mask, 4) == (mask / 16 % 2 == 1),
        mask_bit(mask, 5) == (mask / 32 % 2 == 1),
{
    assert((mask & (1u8 << 0u8) != 0) == (mask % 2u8 == 1u8) && (mask & (1u8 << 1u8) != 0) == (mask / 2u8 % 2u8 == 1u8)
        && (mask & (1u8 << 2u8) != 0) == (mask / 4u8 % 2u8 == 1u8) && (mask & (1u8 << 3u8) != 0) == (mask / 8u8 % 2u8
        == 1u8) && (mask & (1u8 << 4u8) != 0) == (mask / 16u8 % 2u8 == 1u8) && (mask & (1u8 << 5u8) != 0) == (mask
        / 32u8 % 2u8 == 1u8)) by (bit_vector);
}

/// An identity that is too short, or that says that there is none, is inert: no
/// BARs and no interrupt.
pub proof fn law_missing_identity_is_inert(i: PluginIdentity, payload: Seq<u8>, k: int)
    requires
        is_identity_of(i, payload),
        payload.len() < 36 || payload[0] != 1,
        0 <= k < 6,
    ensures
        i.vendor_id == 0,
        i.device_id == 0,
        i.class_code == 0,
        i.bar_sizes@[k] == 0,
        !i.bar_is_io@[k],
        i.interrupt_line == 0,
        !i.msi_capable,
{
}

/// A call to a plugin succeeds with the reply that came, as it came, and with
/// nothing else: a pipe that is closed, silence, or the end of the process is
/// a failure.
pub proof fn law_only_replies_succeed(ev: CallEvent, timeout: Timeout)
    ensures
        match ev {
            CallEvent::Reply(t, p) => call_outcome(ev, timeout) == Ok::<(u8, Seq<u8>), Seq<char>>((t, p@)),
            _ => call_outcome(ev, timeout) is Err,
        },
        says_yes(0x82, seq![1u8]),
        !says_yes(0x82, seq![0u8]),
        !says_yes(0x82, seq![]),
        !says_yes(0x80, seq![1u8]),
        !says_yes(0xff, seq![1u8]),
{
}

/// A callback of a sandboxed plugin is answered at once and kept from whoever
/// waits for a reply; every other frame is handed on as it is. Only a write
/// changes memory.
pub proof fn law_callbacks(
    msg_type: u8,
    payload: Vec<u8>,
    mem: &mut GuestMemory,
    dma_range: Option<(u64, u64)>,
    r: ReaderAction,
)
    requires
        call_ensures(on_frame, (msg_type, payload, mem, dma_range), r),
    ensures
        r is RaiseIrq <==> msg_type == 0x92,
        r is Send <==> msg_type == 0x90 || msg_type == 0x91,
        r matches ReaderAction::Forward(t, p) ==> t == msg_type && p == payload,
        msg_type != 0x91 ==> final(mem)@ == old(mem)@,
        msg_type == 0x90 ==> (r matches ReaderAction::Send(t, p) && (t, p@) == read_mem_answer(
            payload@,
            old(mem)@,
            dma_range,
        )),
        msg_type == 0x91 ==> (r matches ReaderAction::Send(t, p) && (final(mem)@, t, p@) == write_mem_answer(
            payload@,
            old(mem)@,
            dma_range,
        )),
{
}

/// The requests that the guest's accesses become, in bytes: where, and then how
/// much to read or what to write.
pub proof fn law_requests_in_bytes(offset: u64, len: usize, data: &[u8], r: Vec<u8>, w: Vec<u8>)
    requires
        len <= u32::MAX,
        call_ensures(read_request, (offset, len), r),
        call_ensures(write_request, (offset, data), w),
    ensures
        r@.len() == 12,
        u64_at(r@, 0) == offset,
        u32_at(r@, 8) == len,
        w@.len() == 8 + data@.len(),
        u64_at(w@, 0) == offset,
        w@.skip(8) == data@,
{
    let n = len as u32;
    assert forall|j: int| 0 <= j < 8 implies r@[0 + j] == #[trigger] le64(offset)[j] by {}
    crate::bytes::lemma_u64_le(r@, 0, offset);
    assert forall|j: int| 0 <= j < 4 implies r@[8 + j] == #[trigger] le32(n)[j] by {}
    crate::bytes::lemma_u32_le(r@, 8, n);
    assert forall|j: int| 0 <= j < 8 implies w@[0 + j] == #[trigger] le64(offset)[j] by {}
    crate::bytes::lemma_u64_le(w@, 0, offset);
    assert(w@.skip(8) =~= data@);
}

/// A read succeeds only with as many bytes as were asked for, and those are
/// what the guest gets. A write reports whether the plugin asked for an
/// interrupt. An answer of another type is an error, and changes nothing.
pub proof fn law_replies(
    msg_type: u8,
    payload: &[u8],
    data: &mut [u8],
    r: Result<(), String>,
    w: Result<bool, String>,
    d: Result<(), String>,
)
    requires
        call_ensures(read_reply, (msg_type, payload, data), r),
        call_ensures(write_reply, (msg_type, payload), w),
        call_ensures(done_reply, (msg_type, payload), d),
    ensures
        r is Ok <==> msg_type == 0x81 && payload@.len() == old(data)@.len(),
        r is Ok ==> final(data)@ == payload@,
        r is Err ==> final(data)@ == old(data)@,
        w is Ok <==> msg_type == 0x82,
        w matches Ok(irq) ==> (irq <==> payload@.len() > 0 && payload@[0] != 0),
        d is Ok <==> msg_type == 0x80,
{
}

/// A plugin that once failed to answer is killed once, and never called again;
/// one that answers stays as it is.
pub proof fn law_a_faulted_plugin_stays_faulted(
    state: &mut SandboxState,
    ev: CallEvent,
    timeout: Timeout,
    r: (Result<(u8, Vec<u8>), String>, bool),
    later: &SandboxState,
    again: Result<(), String>,
)
    requires
        call_ensures(SandboxState::end_call, (state, ev, timeout), r),
        *later == *final(state),
        call_ensures(SandboxState::begin_call, (later,), again),
    ensures
        r.0 is Ok <==> ev is Reply,
        ev is Reply ==> *final(state) == *old(state) && !r.1,
        !(ev is Reply) ==> again is Err && (r.1 <==> !old(state).faulted),
        old(state).faulted ==> again is Err,
        !old(state).faulted && ev is Reply ==> again is Ok,
{
}

/// Loading asks for the identity, if the plugin is to be on the PCI bus, then
/// whether it ticks, then whether it can be reset, and is then done, with the
/// answers that came.
pub proof fn law_loading(
    a: &mut Loader,
    first: Option<(u8, Vec<u8>)>,
    ra: LoadAction,
    b: &mut Loader,
    outcome: Result<(u8, Vec<u8>), String>,
    rb: LoadAction,
)
    requires
        call_ensures(Loader::ready, (a, first), ra),
        old(b).stage is Identity || old(b).stage is HasTick || old(b).stage is HasReset,
        call_ensures(Loader::answered, (b, outcome), rb),
    ensures
        first is None ==> ra is Killed,
        first matches Some((t, p)) ==> if t == 0x80 {
            ra == LoadAction::Call(if old(a).want_pci { 1u8 } else { 4u8 })
        } else {
            ra is Failed
        },
        ra == LoadAction::Call(1) ==> final(a).stage is Identity,
        ra == LoadAction::Call(4) ==> final(a).stage is HasTick,
        outcome is Err ==> rb is Failed,
        outcome is Ok && old(b).stage is Identity ==> rb == LoadAction::Call(4) && final(b).stage is HasTick,
        outcome is Ok && old(b).stage is HasTick ==> rb == LoadAction::Call(7) && final(b).stage is HasReset,
        outcome is Ok && old(b).stage is HasReset ==> rb is Done,
        outcome matches Ok((t, p)) ==> {
            let yes = t == 0x82 && p@.len() > 0 && p@[0] == 1;
            &&& old(b).stage is Identity && t == 0x83 ==> is_identity_of(final(b).identity, p@)
            &&& old(b).stage is HasTick ==> final(b).state.has_tick == yes && final(b).identity == old(b).identity
            &&& old(b).stage is HasReset ==> final(b).state.has_reset == yes && final(b).state.has_tick
                == old(b).state.has_tick && final(b).identity == old(b).identity
        },
{
}

} // verus!
