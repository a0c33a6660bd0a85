//! Recordings of the asynchronous events of a run: what was delivered to the
//! guest, and when, so that it can be delivered again.
//!
//! A recording is the bytes `HBRR`, a format version, the size of guest
//! memory, a byte that says whether positions are exact, and then one event
//! after the other: its kind, the branch count and the milliseconds at which
//! it was delivered, the length of its data and the data. Numbers are
//! little-endian.

use vstd::prelude::*;
use vstd::string::*;

use crate::bytes::{bytes_eq, copy_range, get_u32, get_u64, le32, le64, lemma_u32_between, lemma_u32_le, lemma_u32_same, lemma_u64_between, lemma_u64_le, lemma_u64_same, push_slice, push_u32, push_u64, u32_at, u64_at};
use crate::text::{cat2, cat3, cat4, cat5, dec, dec_string, hex0x, hex0x_string};

verus! {

/// The format version that is written and read.
pub const FORMAT_VERSION: u32 = 2;

/// What kind of event it was.
#[derive(Clone, Copy, Debug, PartialEq, Eq, Structural)]
pub enum EventKind {
    /// A byte typed at the console.
    KeyboardRx,
    /// A packet received from the network.
    NetRx,
    /// Random bytes that the RNG returned.
    RngBytes,
}

impl EventKind {
    /// The byte that stands for the kind.
    pub open spec fn byte(self) -> u8 {
        match self {
            EventKind::KeyboardRx => 1,
            EventKind::NetRx => 2,
            EventKind::RngBytes => 3,
        }
    }

    /// The kind that a byte stands for.
    pub open spec fn of_byte(b: u8) -> Option<EventKind> {
        if b == 1 {
            Some(EventKind::KeyboardRx)
        } else if b == 2 {
            Some(EventKind::NetRx)
        } else if b == 3 {
            Some(EventKind::RngBytes)
        } else {
            None
        }
    }

    /// The byte that stands for the kind.
    pub fn to_byte(self) -> (r: u8)
        ensures
            r == self.byte(),
    {
        match self {
            EventKind::KeyboardRx => 1,
            EventKind::NetRx => 2,
            EventKind::RngBytes => 3,
        }
    }

    /// The kind that a byte stands for.
    pub fn from_byte(b: u8) -> (r: Option<Self>)
        ensures
            r == EventKind::of_byte(b),
    {
        if b == 1 {
            Some(EventKind::KeyboardRx)
        } else if b == 2 {
            Some(EventKind::NetRx)
        } else if b == 3 {
            Some(EventKind::RngBytes)
        } else {
            None
        }
    }
}

/// The byte of a kind stands for that kind, and a byte that stands for a kind
/// is that kind's byte.
pub proof fn law_kind_round_trip(k: EventKind, b: u8)
    ensures
        EventKind::of_byte(k.byte()) == Some(k),
        EventKind::of_byte(b) matches Some(j) ==> j.byte() == b,
{
}

/// One recorded event.
#[derive(Debug, PartialEq, Eq)]
pub struct RecordedEvent {
    /// The branch counter when it was delivered.
    pub branch_count: u64,
    /// Milliseconds since the recording began: a bound where the counter is
    /// not exact.
    pub elapsed_ms: u64,
    pub kind: EventKind,
    pub data: Vec<u8>,
}

/// What a recorded event holds.
pub struct EventView {
    pub branch_count: u64,
    pub elapsed_ms: u64,
    pub kind: EventKind,
    pub data: Seq<u8>,
}

impl View for RecordedEvent {
    type V = EventView;

    open spec fn view(&self) -> EventView {
        EventView {
            branch_count: self.branch_count,
            elapsed_ms: self.elapsed_ms,
            kind: self.kind,
            data: self.data@,
        }
    }
}

/// The views of a list of events.
pub open spec fn event_views(s: Seq<RecordedEvent>) -> Seq<EventView> {
    s.map_values(|e: RecordedEvent| e@)
}

/// What stands before the events.
#[derive(Clone, Copy, Debug, PartialEq, Eq, Structural)]
pub struct RecordingHeader {
    /// Guest memory in bytes.
    pub mem_size: u64,
    /// Whether the branch counts are exact.
    pub precise: bool,
}

/// The bytes that a recording begins with.
pub open spec fn magic() -> Seq<u8> {
    seq![0x48u8, 0x42u8, 0x52u8, 0x52u8]
}

/// A header as it is written.
pub open spec fn header_bytes(h: RecordingHeader) -> Seq<u8> {
    magic() + le32(FORMAT_VERSION) + le64(h.mem_size) + seq![if h.precise { 1u8 } else { 0u8 }]
}

/// An event as it is written. The length field has 32 bits.
pub open spec fn event_bytes(e: EventView) -> Seq<u8> {
    seq![e.kind.byte()] + le64(e.branch_count) + le64(e.elapsed_ms) + le32(
        (e.data.len() % 0x1_0000_0000) as u32,
    ) + e.data
}

/// Events as they are written, one after the other.
pub open spec fn events_bytes(es: Seq<EventView>) -> Seq<u8>
    decreases es.len(),
{
    if es.len() == 0 {
        seq![]
    } else {
        event_bytes(es[0]) + events_bytes(es.skip(1))
    }
}

fn magic_bytes() -> (r: [u8; 4])
    ensures
        r@ == magic(),
{
    let r: [u8; 4] = [0x48, 0x42, 0x52, 0x52];
    assert(r@ =~= magic());
    r
}

/// Appends a header.
pub fn write_header(out: &mut Vec<u8>, header: &RecordingHeader)
    ensures
        final(out)@ == old(out)@ + header_bytes(*header),
{
    let m = magic_bytes();
    push_slice(out, m.as_slice());
    push_u32(out, FORMAT_VERSION);
    push_u64(out, header.mem_size);
    out.push(if header.precise { 1 } else { 0 });
    assert(out@ =~= old(out)@ + header_bytes(*header));
}

/// Appends an event.
pub fn write_event(out: &mut Vec<u8>, branch_count: u64, elapsed_ms: u64, kind: EventKind, data: &[u8])
    ensures
        final(out)@ == old(out)@ + event_bytes(
            (EventView { branch_count, elapsed_ms, kind, data: data@ }),
        ),
{
    out.push(kind.to_byte());
    push_u64(out, branch_count);
    push_u64(out, elapsed_ms);
    push_u32(out, (data.len() as u64 % 0x1_0000_0000) as u32);
    push_slice(out, data);
    assert(out@ =~= old(out)@ + event_bytes(
        (EventView { branch_count, elapsed_ms, kind, data: data@ }),
    ));
}

/// The message for a recording that ends too early.
pub open spec fn cut_short() -> Seq<char> {
    "failed to fill whole buffer"@
}

fn cut_short_error() -> (r: String)
    ensures
        r@ == cut_short(),
{
    "failed to fill whole buffer".to_owned()
}

/// How long the first event of `buf` is, its data included.
#[verifier::opaque]
pub open spec fn event_len(buf: Seq<u8>) -> int {
    21 + u32_at(buf, 17)
}

/// The first event of `buf`, of kind `kind`.
#[verifier::opaque]
pub open spec fn event_of(buf: Seq<u8>, kind: EventKind) -> EventView {
    EventView {
        branch_count: u64_at(buf, 1),
        elapsed_ms: u64_at(buf, 9),
        kind,
        data: buf.subrange(21, 21 + u32_at(buf, 17)),
    }
}

/// The events that `buf` holds; `path` is what the messages call it.
pub open spec fn events_in(buf: Seq<u8>, path: Seq<char>) -> Result<Seq<EventView>, Seq<char>>
    decreases buf.len(),
{
    if buf.len() == 0 {
        Ok(seq![])
    } else {
        match EventKind::of_byte(buf[0]) {
            None => Err(path + ": unknown event kind byte "@ + hex0x(buf[0] as nat)),
            Some(kind) => if buf.len() < 21 || buf.len() < event_len(buf) {
                Err(cut_short())
            } else {
                proof {
                    reveal(event_len);
                }
                match events_in(buf.skip(event_len(buf)), path) {
                    Err(m) => Err(m),
                    Ok(es) => Ok(seq![event_of(buf, kind)] + es),
                }
            },
        }
    }
}

fn read_event(data: &[u8], at: usize, kind: EventKind) -> (r: Option<(RecordedEvent, usize)>)
    requires
        at + 21 <= data@.len(),
    ensures
        ({
            let buf = data@.skip(at as int);
            match r {
                Some((e, end)) => {
                    &&& event_len(buf) <= buf.len()
                    &&& event_len(buf) >= 21
                    &&& e@ == event_of(buf, kind)
                    &&& end == at + event_len(buf)
                },
                None => event_len(buf) > buf.len(),
            }
        }),
{
    let n: usize = data.len();
    let branch_count: u64 = get_u64(data, at + 1);
    let elapsed_ms: u64 = get_u64(data, at + 9);
    let len: usize = get_u32(data, at + 17) as usize;
    let ghost buf = data@.skip(at as int);
    proof {
        lemma_u64_same(buf, 1, data@, at + 1);
        lemma_u64_same(buf, 9, data@, at + 9);
        lemma_u32_same(buf, 17, data@, at + 17);
        reveal(event_len);
        reveal(event_of);
    }
    if n - at - 21 < len {
        return None;
    }
    let payload: Vec<u8> = copy_range(data, at + 21, at + 21 + len);
    assert(payload@ =~= buf.subrange(21, 21 + len as int));
    Some((RecordedEvent { branch_count, elapsed_ms, kind, data: payload }, at + 21 + len))
}

/// The header and the events that the recording `data` holds.
pub open spec fn recording(data: Seq<u8>, path: Seq<char>) -> Result<
    (RecordingHeader, Seq<EventView>),
    Seq<char>,
> {
    if data.len() < 4 {
        Err(cut_short())
    } else if data.take(4) != magic() {
        Err(path + " doesn't look like a hyperbug recording (bad magic)"@)
    } else if data.len() < 8 {
        Err(cut_short())
    } else if u32_at(data, 4) != FORMAT_VERSION {
        Err(
            path + " is recording format version "@ + dec(u32_at(data, 4) as nat)
                + ", this build only reads 2"@,
        )
    } else if data.len() < 17 {
        Err(cut_short())
    } else {
        match events_in(data.skip(17), path) {
            Err(m) => Err(m),
            Ok(es) => Ok(
                (RecordingHeader { mem_size: u64_at(data, 8), precise: data[16] != 0 }, es),
            ),
        }
    }
}

/// Reads a whole recording.
pub fn read_all(path: &str, data: &[u8]) -> (r: Result<(RecordingHeader, Vec<RecordedEvent>), String>)
    ensures
        match (r, recording(data@, path@)) {
            (Ok((h, es)), Ok((h2, es2))) => h == h2 && event_views(es@) == es2,
            (Err(e), Err(m)) => e@ == m,
            _ => false,
        },
{
    let n: usize = data.len();
    if n < 4 {
        return Err(cut_short_error());
    }
    let m = magic_bytes();
    let head: Vec<u8> = copy_range(data, 0, 4);
    assert(head@ =~= data@.take(4));
    if !bytes_eq(head.as_slice(), m.as_slice()) {
        return Err(cat2(path, " doesn't look like a hyperbug recording (bad magic)"));
    }
    if n < 8 {
        return Err(cut_short_error());
    }
    let version: u32 = get_u32(data, 4);
    if version != FORMAT_VERSION {
        let v = dec_string(version as u64);
        return Err(
            cat4(path, " is recording format version ", v.as_str(), ", this build only reads 2"),
        );
    }
    if n < 17 {
        return Err(cut_short_error());
    }
    let mem_size: u64 = get_u64(data, 8);
    let precise = data[16] != 0;
    let mut events: Vec<RecordedEvent> = Vec::new();
    let mut at: usize = 17;
    let ghost whole = events_in(data@.skip(17), path@);
    assert(event_views(events@) =~= seq![]);
    assert(whole matches Ok(es) ==> seq![] + es =~= es);
    while at < n
        invariant
            17 <= at <= n == data@.len(),
            recording(data@, path@) == (match whole {
                Err(m) => Err(m),
                Ok(es) => Ok((RecordingHeader { mem_size, precise }, es)),
            }),
            whole == (match events_in(data@.skip(at as int), path@) {
                Err(m) => Err(m),
                Ok(es) => Ok(event_views(events@) + es),
            }),
        decreases n - at,
    {
        let ghost buf = data@.skip(at as int);
        assert(buf[0] == data@[at as int]);
        let kind = match EventKind::from_byte(data[at]) {
            Some(k) => k,
            None => {
                let h = hex0x_string(data[at] as u64);
                return Err(cat3(path, ": unknown event kind byte ", h.as_str()));
            },
        };
        if n - at < 21 {
            return Err(cut_short_error());
        }
        let (event, end) = match read_event(data, at, kind) {
            Some(p) => p,
            None => {
                return Err(cut_short_error());
            },
        };
        let ghost before = event_views(events@);
        let ghost e = event@;
        events.push(event);
        proof {
            assert(buf.skip(event_len(buf)) =~= data@.skip(end as int));
            assert(event_views(events@) =~= before.push(e));
            if let Ok(es) = events_in(buf.skip(event_len(buf)), path@) {
                assert(before + (seq![e] + es) =~= event_views(events@) + es);
            }
        }
        at = end;
    }
    assert(data@.skip(at as int) =~= seq![]);
    assert(event_views(events@) + Seq::<EventView>::empty() =~= event_views(events@));
    Ok((RecordingHeader { mem_size, precise }, events))
}

proof fn lemma_event_read_back(e: EventView, tail: Seq<u8>)
    requires
        e.data.len() <= u32::MAX,
    ensures
        ({
            let buf = event_bytes(e) + tail;
            &&& buf[0] == e.kind.byte()
            &&& event_len(buf) == 21 + e.data.len()
            &&& event_of(buf, e.kind) == e
            &&& buf.skip(event_len(buf)) == tail
            &&& buf.len() >= event_len(buf)
        }),
{
    reveal(event_len);
    reveal(event_of);
    let buf = event_bytes(e) + tail;
    let n = e.data.len() as u32;
    let a = seq![e.kind.byte()];
    let b = le64(e.branch_count);
    let c = le64(e.elapsed_ms);
    let d = le32(n);
    let rest = e.data + tail;
    assert(b.len() == 8 && c.len() == 8 && d.len() == 4);
    assert(buf =~= a + b + (c + d + rest));
    assert(buf =~= (a + b) + c + (d + rest));
    assert(buf =~= (a + b + c) + d + rest);
    lemma_u64_between(a, e.branch_count, c + d + rest);
    lemma_u64_between(a + b, e.elapsed_ms, d + rest);
    lemma_u32_between(a + b + c, n, rest);
    assert(buf.subrange(21, 21 + n as int) =~= e.data);
    assert(buf.skip(21 + n as int) =~= tail);
    assert(buf[0] == a[0]);
}

proof fn lemma_events_read_back(es: Seq<EventView>, path: Seq<char>)
    requires
        forall|i: int| 0 <= i < es.len() ==> (#[trigger] es[i]).data.len() <= u32::MAX,
    ensures
        events_in(events_bytes(es), path) == Ok::<Seq<EventView>, Seq<char>>(es),
    decreases es.len(),
{
    if es.len() == 0 {
        assert(es =~= seq![]);
    } else {
        let rest = es.skip(1);
        assert forall|i: int| 0 <= i < rest.len() implies (#[trigger] rest[i]).data.len() <= u32::MAX by {
            assert(rest[i] == es[i + 1]);
        }
        lemma_events_read_back(rest, path);
        lemma_event_read_back(es[0], events_bytes(rest));
        law_kind_round_trip(es[0].kind, 0);
        assert(seq![es[0]] + rest =~= es);
    }
}

/// What was written is read back as it was, for all events whose length fits
/// its field.
pub proof fn law_recording_round_trip(h: RecordingHeader, es: Seq<EventView>, path: Seq<char>)
    requires
        forall|i: int| 0 <= i < es.len() ==> (#[trigger] es[i]).data.len() <= u32::MAX,
    ensures
        recording(header_bytes(h) + events_bytes(es), path) == Ok::<
            (RecordingHeader, Seq<EventView>),
            Seq<char>,
        >((h, es)),
{
    let data = header_bytes(h) + events_bytes(es);
    assert(data.take(4) =~= magic());
    assert forall|k: int| 0 <= k < 4 implies data[4 + k] == #[trigger] le32(FORMAT_VERSION)[k] by {}
    lemma_u32_le(data, 4, FORMAT_VERSION);
    assert forall|k: int| 0 <= k < 8 implies data[8 + k] == #[trigger] le64(h.mem_size)[k] by {}
    lemma_u64_le(data, 8, h.mem_size);
    assert(data.skip(17) =~= events_bytes(es));
    lemma_events_read_back(es, path);
}

/// The keyboard events of a recording, in order.
pub open spec fn keyboard_of(es: Seq<EventView>) -> Seq<EventView>
    decreases es.len(),
{
    if es.len() == 0 {
        seq![]
    } else if es.last().kind == EventKind::KeyboardRx {
        keyboard_of(es.drop_last()).push(es.last())
    } else {
        keyboard_of(es.drop_last())
    }
}

/// The random bytes of a recording, in order.
pub open spec fn rng_of(es: Seq<EventView>) -> Seq<u8>
    decreases es.len(),
{
    if es.len() == 0 {
        seq![]
    } else if es.last().kind == EventKind::RngBytes {
        rng_of(es.drop_last()) + es.last().data
    } else {
        rng_of(es.drop_last())
    }
}

/// How many network packets a recording holds.
pub open spec fn net_count(es: Seq<EventView>) -> nat
    decreases es.len(),
{
    if es.len() == 0 {
        0
    } else if es.last().kind == EventKind::NetRx {
        net_count(es.drop_last()) + 1
    } else {
        net_count(es.drop_last())
    }
}

/// The state of a replay.
pub struct ReplayView {
    /// Every keyboard event.
    pub keyboard: Seq<EventView>,
    /// How many of them were delivered.
    pub next_keyboard: nat,
    /// The random bytes that were not handed out yet.
    pub rng: Seq<u8>,
    /// How many network packets are not replayed.
    pub skipped_net_events: nat,
    /// A request for random bytes could not be met.
    pub rng_exhausted: bool,
}

/// Delivers a recording again: keyboard input when its time has come, random
/// bytes in order. Network packets are not replayed.
pub struct Replayer {
    keyboard_events: Vec<RecordedEvent>,
    next_keyboard: usize,
    rng_data: Vec<u8>,
    rng_next: usize,
    skipped_net_events: usize,
    rng_exhausted_warned: bool,
}

impl View for Replayer {
    type V = ReplayView;

    closed spec fn view(&self) -> ReplayView {
        ReplayView {
            keyboard: event_views(self.keyboard_events@),
            next_keyboard: self.next_keyboard as nat,
            rng: self.rng_data@.skip(self.rng_next as int),
            skipped_net_events: self.skipped_net_events as nat,
            rng_exhausted: self.rng_exhausted_warned,
        }
    }
}

/// The message for a recording of a guest with another memory size.
pub open spec fn mem_mismatch(path: Seq<char>, recorded: u64, now: u64) -> Seq<char> {
    path + " was recorded with "@ + dec((recorded / 1048576) as nat)
        + " MiB of guest memory, this launch has "@ + (dec((now / 1048576) as nat)
        + " MiB (--mem must match exactly to replay)"@)
}

/// What a poll leaves when the branch counter and the clock stand so, and what
/// it delivers.
pub open spec fn polled(v: ReplayView, branch_count: u64, elapsed_ms: u64) -> (ReplayView, Option<Seq<u8>>) {
    if v.next_keyboard >= v.keyboard.len() {
        (v, None)
    } else {
        let next = v.keyboard[v.next_keyboard as int];
        if branch_count >= next.branch_count || elapsed_ms >= next.elapsed_ms {
            (ReplayView { next_keyboard: v.next_keyboard + 1, ..v }, Some(next.data))
        } else {
            (v, None)
        }
    }
}

/// What a request for random bytes leaves, and what it gets.
pub open spec fn rng_taken(v: ReplayView, want: nat) -> (ReplayView, Option<Seq<u8>>) {
    if want > v.rng.len() {
        (ReplayView { rng_exhausted: true, ..v }, None)
    } else {
        (ReplayView { rng: v.rng.skip(want as int), ..v }, Some(v.rng.take(want as int)))
    }
}

impl Replayer {
    #[verifier::type_invariant]
    spec fn inv(self) -> bool {
        self.next_keyboard <= self.keyboard_events@.len() && self.rng_next <= self.rng_data@.len()
    }

    /// Prepares the replay of the recording `data` for a guest with
    /// `mem_size` bytes of memory.
    pub fn start(path: &str, data: &[u8], mem_size: u64) -> (r: Result<Self, String>)
        ensures
            match (r, recording(data@, path@)) {
                (Ok(p), Ok((h, es))) => h.mem_size == mem_size && p@ == (ReplayView {
                    keyboard: keyboard_of(es),
                    next_keyboard: 0,
                    rng: rng_of(es),
                    skipped_net_events: net_count(es),
                    rng_exhausted: false,
                }),
                (Err(e), Ok((h, es))) => h.mem_size != mem_size && e@ == mem_mismatch(
                    path@,
                    h.mem_size,
                    mem_size,
                ),
                (Err(e), Err(m)) => e@ == m,
                _ => false,
            },
    {
        let (header, events) = read_all(path, data)?;
        if header.mem_size != mem_size {
            let a = dec_string(header.mem_size / 1048576);
            let b = dec_string(mem_size / 1048576);
            let tail = cat2(b.as_str(), " MiB (--mem must match exactly to replay)");
            return Err(
                cat5(path, " was recorded with ", a.as_str(), " MiB of guest memory, this launch has ", tail.as_str()),
            );
        }
        let ghost es = event_views(events@);
        let mut keyboard_events: Vec<RecordedEvent> = Vec::new();
        let mut rng_data: Vec<u8> = Vec::new();
        let mut skipped_net_events: usize = 0;
        let mut events = events;
        let n: usize = events.len();
        let mut i: usize = 0;
        assert(es.take(0) =~= seq![]);
        assert(event_views(keyboard_events@) =~= seq![]);
        assert(rng_data@ =~= seq![]);
        let ghost all = events@;
        while i < n
            invariant
                i <= n == events@.len() == all.len(),
                es == event_views(all),
                forall|k: int| i <= k < n ==> events@[k] == all[k],
                event_views(keyboard_events@) == keyboard_of(es.take(i as int)),
                rng_data@ == rng_of(es.take(i as int)),
                skipped_net_events == net_count(es.take(i as int)),
                skipped_net_events <= i,
            decreases n - i,
        {
            proof {
                assert(es.take(i as int + 1).drop_last() =~= es.take(i as int));
                assert(es.take(i as int + 1).last() == all[i as int]@);
            }
            let branch_count: u64 = events[i].branch_count;
            let elapsed_ms: u64 = events[i].elapsed_ms;
            match events[i].kind {
                EventKind::KeyboardRx => {
                    let copy: Vec<u8> = copy_range(events[i].data.as_slice(), 0, events[i].data.len());
                    let ghost before = event_views(keyboard_events@);
                    keyboard_events.push(
                        RecordedEvent { branch_count, elapsed_ms, kind: EventKind::KeyboardRx, data: copy },
                    );
                    assert(copy@ =~= all[i as int].data@);
                    assert(event_views(keyboard_events@) =~= before.push(all[i as int]@));
                },
                EventKind::RngBytes => {
                    push_slice(&mut rng_data, events[i].data.as_slice());
                },
                EventKind::NetRx => {
                    skipped_net_events += 1;
                },
            }
            i += 1;
        }
        assert(es.take(i as int) =~= es);
        let p = Replayer {
            keyboard_events,
            next_keyboard: 0,
            rng_data,
            rng_next: 0,
            skipped_net_events,
            rng_exhausted_warned: false,
        };
        assert(p.rng_data@.skip(0) =~= p.rng_data@);
        Ok(p)
    }

    /// How many recorded network packets are not replayed.
    pub fn skipped_net_events(&self) -> (r: usize)
        ensures
            r == self@.skipped_net_events,
    {
        self.skipped_net_events
    }

    /// Whether a request for random bytes could not be met.
    pub fn rng_exhausted(&self) -> (r: bool)
        ensures
            r == self@.rng_exhausted,
    {
        self.rng_exhausted_warned
    }

    /// The data of the next keyboard event, once the branch counter or the
    /// clock has reached its place, whichever comes first.
    pub fn poll_keyboard(&mut self, branch_count: u64, elapsed_ms: u64) -> (r: Option<Vec<u8>>)
        ensures
            ({
                let k = old(self)@.next_keyboard;
                let due = k < old(self)@.keyboard.len() && (branch_count
                    >= old(self)@.keyboard[k as int].branch_count || elapsed_ms
                    >= old(self)@.keyboard[k as int].elapsed_ms);
                &&& match r {
                    Some(d) => due && d@ == old(self)@.keyboard[k as int].data,
                    None => !due,
                }
                &&& final(self)@ == (ReplayView {
                    next_keyboard: if due { k + 1 } else { k },
                    ..old(self)@
                })
            }),
            final(self)@ == polled(old(self)@, branch_count, elapsed_ms).0,
            match (r, polled(old(self)@, branch_count, elapsed_ms).1) {
                (Some(d), Some(e)) => d@ == e,
                (None, None) => true,
                _ => false,
            },
    {
        proof {
            use_type_invariant(&*self);
        }
        let k: usize = self.next_keyboard;
        if k >= self.keyboard_events.len() {
            return None;
        }
        let next = &self.keyboard_events[k];
        assert(self@.keyboard[k as int] == next@);
        if branch_count >= next.branch_count || elapsed_ms >= next.elapsed_ms {
            let d: Vec<u8> = copy_range(next.data.as_slice(), 0, next.data.len());
            assert(d@ =~= next.data@);
            self.next_keyboard = k + 1;
            Some(d)
        } else {
            None
        }
    }

    /// The next `want` random bytes of the recording; `None`, with nothing
    /// taken, once it has fewer.
    pub fn next_rng_bytes(&mut self, want: usize) -> (r: Option<Vec<u8>>)
        ensures
            match r {
                Some(v) => {
                    &&& want <= old(self)@.rng.len()
                    &&& v@ == old(self)@.rng.take(want as int)
                    &&& final(self)@ == (ReplayView {
                        rng: old(self)@.rng.skip(want as int),
                        ..old(self)@
                    })
                },
                None => {
                    &&& want > old(self)@.rng.len()
                    &&& final(self)@ == (ReplayView { rng_exhausted: true, ..old(self)@ })
                },
            },
            final(self)@ == rng_taken(old(self)@, want as nat).0,
            match (r, rng_taken(old(self)@, want as nat).1) {
                (Some(d), Some(e)) => d@ == e,
                (None, None) => true,
                _ => false,
            },
    {
        proof {
            use_type_invariant(&*self);
        }
        let at: usize = self.rng_next;
        let n: usize = self.rng_data.len();
        if n - at < want {
            self.rng_exhausted_warned = true;
            return None;
        }
        let v: Vec<u8> = copy_range(self.rng_data.as_slice(), at, at + want);
        self.rng_next = at + want;
        assert(v@ =~= old(self)@.rng.take(want as int));
        assert(self@.rng =~= old(self)@.rng.skip(want as int));
        Some(v)
    }
}

/// How the random bytes are cut into requests does not matter: `a` bytes and
/// then `b` bytes are the same as `a + b` at once.
pub proof fn law_rng_requests_compose(rng: Seq<u8>, a: nat, b: nat)
    requires
        a + b <= rng.len(),
    ensures
        rng.take(a as int) + rng.skip(a as int).take(b as int) == rng.take((a + b) as int),
        rng.skip(a as int).skip(b as int) == rng.skip((a + b) as int),
{
    assert(rng.take(a as int) + rng.skip(a as int).take(b as int) =~= rng.take((a + b) as int));
    assert(rng.skip(a as int).skip(b as int) =~= rng.skip((a + b) as int));
}

/// What is to be replayed of a recording: its keyboard events are exactly those
/// of that kind, in their order and unchanged; its random bytes are those of
/// all events of that kind, one after the other; and every network packet is
/// counted. What two recordings have, one after the other, is what the one has
/// and then what the other has.
#[verifier::spinoff_prover]
pub proof fn law_replay_takes_all_of_a_kind(es: Seq<EventView>, more: Seq<EventView>, e: EventView)
    ensures
        keyboard_of(es) == es.filter(|x: EventView| x.kind == EventKind::KeyboardRx),
        net_count(es) == es.filter(|x: EventView| x.kind == EventKind::NetRx).len(),
        keyboard_of(es + more) == keyboard_of(es) + keyboard_of(more),
        rng_of(es + more) == rng_of(es) + rng_of(more),
        net_count(es + more) == net_count(es) + net_count(more),
        keyboard_of(seq![e]) == (if e.kind == EventKind::KeyboardRx { seq![e] } else { seq![] }),
        rng_of(seq![e]) == (if e.kind == EventKind::RngBytes { e.data } else { seq![] }),
        net_count(seq![e]) == (if e.kind == EventKind::NetRx { 1nat } else { 0nat }),
    decreases es.len() + more.len(),
{
    let keys = |x: EventView| x.kind == EventKind::KeyboardRx;
    let packets = |x: EventView| x.kind == EventKind::NetRx;
    reveal(Seq::filter);
    if es.len() > 0 {
        law_replay_takes_all_of_a_kind(es.drop_last(), seq![], e);
    }
    let all = es + more;
    if more.len() == 0 {
        assert(all =~= es);
        assert(more =~= seq![]);
        assert(keyboard_of(es) + keyboard_of(more) =~= keyboard_of(es));
        assert(rng_of(es) + rng_of(more) =~= rng_of(es));
    } else {
        assert(all.drop_last() =~= es + more.drop_last());
        law_replay_takes_all_of_a_kind(es, more.drop_last(), e);
        assert(keyboard_of(all) =~= keyboard_of(es) + keyboard_of(more));
        assert(rng_of(all) =~= rng_of(es) + rng_of(more));
    }
    let one = seq![e];
    assert(one.drop_last() =~= seq![]);
    assert(keyboard_of(one) =~= (if e.kind == EventKind::KeyboardRx { seq![e] } else { seq![] }));
    assert(rng_of(one) =~= (if e.kind == EventKind::RngBytes { e.data } else { seq![] }));
}

/// A recording that was written is replayed in full: what is read back has
/// every keyboard event as it was recorded, and every random byte.
pub proof fn law_a_recording_is_replayed(h: RecordingHeader, es: Seq<EventView>, path: Seq<char>)
    requires
        forall|i: int| 0 <= i < es.len() ==> (#[trigger] es[i]).data.len() <= u32::MAX,
    ensures
        recording(header_bytes(h) + events_bytes(es), path) matches Ok((h2, es2)) && h2 == h && keyboard_of(es2)
            == es.filter(|x: EventView| x.kind == EventKind::KeyboardRx) && rng_of(es2) == rng_of(es),
{
    law_recording_round_trip(h, es, path);
    law_replay_takes_all_of_a_kind(es, seq![], es[0]);
}

/// The data of events, one after the other.
pub open spec fn all_data(es: Seq<EventView>) -> Seq<u8>
    decreases es.len(),
{
    if es.len() == 0 {
        seq![]
    } else {
        all_data(es.drop_last()) + es.last().data
    }
}

/// What a row of polls leaves, and all that it delivered.
pub open spec fn polled_all(v: ReplayView, polls: Seq<(u64, u64)>) -> (ReplayView, Seq<u8>)
    decreases polls.len(),
{
    if polls.len() == 0 {
        (v, seq![])
    } else {
        let (before, out) = polled_all(v, polls.drop_last());
        let (after, data) = polled(before, polls.last().0, polls.last().1);
        (
            after,
            match data {
                Some(d) => out + d,
                None => out,
            },
        )
    }
}

/// Polling delivers the recorded keyboard data once each and in order: what any
/// row of polls has delivered is the data of the events that are no longer
/// waiting. Nothing is delivered before its branch count or its time is
/// reached, and once either is, nothing is held back.
pub proof fn law_polls_deliver_all_keys(v: ReplayView, polls: Seq<(u64, u64)>, branch_count: u64, elapsed_ms: u64)
    requires
        v.next_keyboard <= v.keyboard.len(),
    ensures
        ({
            let (z, out) = polled_all(v, polls);
            &&& v.next_keyboard <= z.next_keyboard <= v.keyboard.len()
            &&& z.keyboard == v.keyboard
            &&& z.rng == v.rng
            &&& out == all_data(v.keyboard.subrange(v.next_keyboard as int, z.next_keyboard as int))
        }),
        v.next_keyboard < v.keyboard.len() ==> {
            let next = v.keyboard[v.next_keyboard as int];
            let (z, out) = polled(v, branch_count, elapsed_ms);
            if next.branch_count <= branch_count || next.elapsed_ms <= elapsed_ms {
                out == Some(next.data) && z.next_keyboard == v.next_keyboard + 1
            } else {
                out is None && z == v
            }
        },
    decreases polls.len(),
{
    let n = v.next_keyboard as int;
    if polls.len() == 0 {
        assert(v.keyboard.subrange(n, n) =~= seq![]);
    } else {
        law_polls_deliver_all_keys(v, polls.drop_last(), branch_count, elapsed_ms);
        let (before, out) = polled_all(v, polls.drop_last());
        let k = before.next_keyboard as int;
        if k < v.keyboard.len() {
            assert(v.keyboard.subrange(n, k + 1).drop_last() =~= v.keyboard.subrange(n, k));
        }
    }
}

/// Random bytes are handed out from the front, as many as are asked for, and
/// never twice; a request for more than is left takes nothing.
pub proof fn law_random_bytes_come_in_order(v: ReplayView, want: nat)
    ensures
        ({
            let (z, out) = rng_taken(v, want);
            match out {
                Some(d) => d.len() == want && d + z.rng == v.rng && z.rng_exhausted == v.rng_exhausted,
                None => want > v.rng.len() && z.rng == v.rng && z.rng_exhausted,
            }
        }),
        want <= v.rng.len() ==> rng_taken(v, want).1 is Some,
        rng_taken(v, want).0.keyboard == v.keyboard,
        rng_taken(v, want).0.next_keyboard == v.next_keyboard,
{
    if want <= v.rng.len() {
        assert(v.rng.take(want as int) + v.rng.skip(want as int) =~= v.rng);
    }
}

/// An event in bytes: its kind, the branch count, the time, the length of the
/// data, and the data.
pub proof fn law_event_layout(e: EventView)
    requires
        e.data.len() <= u32::MAX,
    ensures
        ({
            let b = event_bytes(e);
            &&& b.len() == 21 + e.data.len()
            &&& b[0] == (match e.kind {
                EventKind::KeyboardRx => 1u8,
                EventKind::NetRx => 2u8,
                EventKind::RngBytes => 3u8,
            })
            &&& u64_at(b, 1) == e.branch_count
            &&& u64_at(b, 9) == e.elapsed_ms
            &&& u32_at(b, 17) == e.data.len()
            &&& b.skip(21) == e.data
        }),
{
    let b = event_bytes(e);
    let n = e.data.len() as u32;
    assert forall|k: int| 0 <= k < 8 implies b[1 + k] == #[trigger] le64(e.branch_count)[k] by {}
    lemma_u64_le(b, 1, e.branch_count);
    assert forall|k: int| 0 <= k < 8 implies b[9 + k] == #[trigger] le64(e.elapsed_ms)[k] by {}
    lemma_u64_le(b, 9, e.elapsed_ms);
    assert forall|k: int| 0 <= k < 4 implies b[17 + k] == #[trigger] le32(n)[k] by {}
    lemma_u32_le(b, 17, n);
    assert(b.skip(21) =~= e.data);
}

/// The header of a recording: four letters, the version, the size of guest
/// memory, and whether the counter was precise. Bytes that begin otherwise, or
/// with another version, are refused.
#[verifier::spinoff_prover]
pub proof fn law_header_layout(h: RecordingHeader, data: Seq<u8>, path: Seq<char>)
    ensures
        ({
            let b = header_bytes(h);
            &&& b.len() == 17
            &&& b[0] == 'H' as u8
            &&& b[1] == 'B' as u8
            &&& b[2] == 'R' as u8
            &&& b[3] == 'R' as u8
            &&& u32_at(b, 4) == 2
            &&& u64_at(b, 8) == h.mem_size
            &&& b[16] == (if h.precise { 1u8 } else { 0u8 })
        }),
        recording(data, path) is Ok ==> data.len() >= 17 && data.take(4) == header_bytes(h).take(4) && u32_at(data, 4)
            == 2 && recording(data, path)->Ok_0.0.mem_size == u64_at(data, 8) && recording(data, path)->Ok_0.0.precise
            == (data[16] != 0),
{
    let b = header_bytes(h);
    assert forall|k: int| 0 <= k < 4 implies b[4 + k] == #[trigger] le32(FORMAT_VERSION)[k] by {}
    lemma_u32_le(b, 4, FORMAT_VERSION);
    assert forall|k: int| 0 <= k < 8 implies b[8 + k] == #[trigger] le64(h.mem_size)[k] by {}
    lemma_u64_le(b, 8, h.mem_size);
    assert(b.take(4) =~= magic());
}

/// An event that is cut short makes the recording unreadable, and so does one
/// of a kind that there is not.
pub proof fn law_broken_events_are_refused(e: EventView, n: int, buf: Seq<u8>, path: Seq<char>)
    requires
        e.data.len() <= u32::MAX,
        0 < n < event_bytes(e).len(),
    ensures
        events_in(event_bytes(e).take(n), path) is Err,
        buf.len() > 0 && (buf[0] == 0 || buf[0] > 3) ==> events_in(buf, path) is Err,
        events_in(seq![], path) == Ok::<Seq<EventView>, Seq<char>>(seq![]),
{
    reveal(event_len);
    let b = event_bytes(e);
    law_event_layout(e);
    law_kind_round_trip(e.kind, 0);
    let c = b.take(n);
    assert(c[0] == b[0]);
    if n >= 21 {
        lemma_u32_same(b, 17, c, 17);
    }
}

} // verus!
