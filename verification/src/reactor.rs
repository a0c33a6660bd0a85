//! The decisions of the thread that waits for host input: what each event
//! token stands for, what is done with console input, and how the thread is
//! parked while the process is forked.

use vstd::prelude::*;

use crate::serial::{enabled, Serial, SerialView, IER_RDI};

verus! {

/// Ctrl-], which ends the run.
pub const ESCAPE_BYTE: u8 = 0x1d;

/// The token of console input.
pub const STDIN_TOKEN: u64 = 0;

/// How long the thread sleeps at most, in milliseconds.
pub const QUIESCENT_TIMEOUT_MS: i32 = 200;

/// How long a pause is waited for, in milliseconds.
pub const PAUSE_ACK_TIMEOUT_MS: u64 = 2000;

/// What a source of events is.
#[derive(Clone, Copy, Debug, PartialEq, Eq, Structural)]
pub enum Source {
    /// Console input.
    Stdin,
    /// A network interface.
    Tap(usize),
    /// An I/O event of a virtio device.
    Notify(usize),
    /// A finished disk request.
    Blk(usize),
    /// A GPIO line that fired.
    Gpio(usize),
    /// The vsock bridge.
    Vsock,
}

/// How many sources of each kind there are.
#[derive(Clone, Copy, Debug, PartialEq, Eq, Structural)]
pub struct Sources {
    pub taps: usize,
    pub notifies: usize,
    pub blks: usize,
    pub gpios: usize,
}

impl Sources {
    /// Whether there are tokens for all of them.
    pub open spec fn wf(self) -> bool {
        self.taps + self.notifies + self.blks + self.gpios < u64::MAX
    }

    /// The token of the first I/O event.
    pub open spec fn notify_base(self) -> int {
        self.taps + 1
    }

    /// The token of the first disk.
    pub open spec fn blk_base(self) -> int {
        self.notify_base() + self.notifies
    }

    /// The token of the first GPIO bank.
    pub open spec fn gpio_base(self) -> int {
        self.blk_base() + self.blks
    }

    /// The token of the vsock bridge.
    pub open spec fn vsock_token(self) -> int {
        self.gpio_base() + self.gpios
    }

    /// Whether `s` is one of these sources.
    pub open spec fn has(self, s: Source) -> bool {
        match s {
            Source::Tap(i) => i < self.taps,
            Source::Notify(i) => i < self.notifies,
            Source::Blk(i) => i < self.blks,
            Source::Gpio(i) => i < self.gpios,
            _ => true,
        }
    }

    /// The token of a source: they are numbered kind by kind.
    pub open spec fn token_of(self, s: Source) -> int {
        match s {
            Source::Stdin => 0,
            Source::Tap(i) => i + 1,
            Source::Notify(i) => self.notify_base() + i,
            Source::Blk(i) => self.blk_base() + i,
            Source::Gpio(i) => self.gpio_base() + i,
            Source::Vsock => self.vsock_token(),
        }
    }

    /// The source that a token stands for.
    pub open spec fn source_of(self, token: u64) -> Source {
        if token == STDIN_TOKEN {
            Source::Stdin
        } else if token < self.notify_base() {
            Source::Tap((token - 1) as usize)
        } else if token < self.blk_base() {
            Source::Notify((token - self.notify_base()) as usize)
        } else if token < self.gpio_base() {
            Source::Blk((token - self.blk_base()) as usize)
        } else if token < self.vsock_token() {
            Source::Gpio((token - self.gpio_base()) as usize)
        } else {
            Source::Vsock
        }
    }

    /// The token to watch a source with.
    pub fn token(&self, s: Source) -> (r: u64)
        requires
            self.wf(),
            self.has(s),
        ensures
            r == self.token_of(s),
    {
        let notify: u64 = self.taps as u64 + 1;
        let blk: u64 = notify + self.notifies as u64;
        let gpio: u64 = blk + self.blks as u64;
        match s {
            Source::Stdin => STDIN_TOKEN,
            Source::Tap(i) => i as u64 + 1,
            Source::Notify(i) => notify + i as u64,
            Source::Blk(i) => blk + i as u64,
            Source::Gpio(i) => gpio + i as u64,
            Source::Vsock => gpio + self.gpios as u64,
        }
    }

    /// What to do for an event with this token.
    pub fn source(&self, token: u64) -> (r: Source)
        requires
            self.wf(),
        ensures
            r == self.source_of(token),
    {
        let notify: u64 = self.taps as u64 + 1;
        let blk: u64 = notify + self.notifies as u64;
        let gpio: u64 = blk + self.blks as u64;
        let vsock: u64 = gpio + self.gpios as u64;
        if token == STDIN_TOKEN {
            Source::Stdin
        } else if token < notify {
            Source::Tap((token - 1) as usize)
        } else if token < blk {
            Source::Notify((token - notify) as usize)
        } else if token < gpio {
            Source::Blk((token - blk) as usize)
        } else if token < vsock {
            Source::Gpio((token - gpio) as usize)
        } else {
            Source::Vsock
        }
    }
}

/// The token of a source stands for that source, so no two share one.
pub proof fn law_tokens_round_trip(c: Sources, s: Source)
    requires
        c.wf(),
        c.has(s),
    ensures
        0 <= c.token_of(s) <= u64::MAX,
        c.source_of(c.token_of(s) as u64) == s,
{
}

/// What the thread is to watch.
pub struct Watched {
    /// Console input is not: it comes from a recording.
    pub suppress_stdin: bool,
    /// How many network interfaces there are.
    pub taps: usize,
    /// How many I/O events there are.
    pub notifies: usize,
    /// Of each disk, whether it has something to watch.
    pub blks: Vec<bool>,
    /// Of each GPIO bank, whether it has something to watch.
    pub gpios: Vec<bool>,
    /// There is a vsock bridge.
    pub vsock: bool,
}

impl Watched {
    /// How many sources of each kind there are.
    pub open spec fn counts(self) -> Sources {
        Sources {
            taps: self.taps,
            notifies: self.notifies,
            blks: self.blks.len(),
            gpios: self.gpios.len(),
        }
    }

    /// How many sources of each kind there are.
    pub fn sources(&self) -> (r: Sources)
        ensures
            r == self.counts(),
    {
        Sources {
            taps: self.taps,
            notifies: self.notifies,
            blks: self.blks.len(),
            gpios: self.gpios.len(),
        }
    }

    /// The first `n` sources of a kind of which all are watched.
    pub open spec fn all_of(self, n: nat, kind: spec_fn(usize) -> Source) -> Seq<(Source, u64)> {
        Seq::new(n, |i: int| (kind(i as usize), self.counts().token_of(kind(i as usize)) as u64))
    }

    /// Those of the first `n` sources of a kind that have something to watch.
    pub open spec fn those_of(self, flags: Seq<bool>, n: nat, kind: spec_fn(usize) -> Source) -> Seq<(Source, u64)>
        decreases n,
    {
        if n == 0 {
            seq![]
        } else {
            let before = self.those_of(flags, (n - 1) as nat, kind);
            let s = kind((n - 1) as usize);
            if flags[n - 1] {
                before.push((s, self.counts().token_of(s) as u64))
            } else {
                before
            }
        }
    }

    /// The sources that are watched, with their tokens, in order.
    pub open spec fn list(self) -> Seq<(Source, u64)> {
        (if self.suppress_stdin { seq![] } else { seq![(Source::Stdin, STDIN_TOKEN)] })
            + self.all_of(self.taps as nat, |i: usize| Source::Tap(i))
            + self.all_of(self.notifies as nat, |i: usize| Source::Notify(i))
            + self.those_of(self.blks@, self.blks@.len(), |i: usize| Source::Blk(i))
            + self.those_of(self.gpios@, self.gpios@.len(), |i: usize| Source::Gpio(i))
            + (if self.vsock {
            seq![(Source::Vsock, self.counts().vsock_token() as u64)]
        } else {
            seq![]
        })
    }

    /// Whether an event of this source can be handled.
    pub open spec fn handles(self, s: Source) -> bool {
        self.counts().has(s) && (s is Vsock ==> self.vsock)
    }

    /// The sources to watch, with their tokens, in order.
    pub fn watch_list(&self) -> (r: Vec<(Source, u64)>)
        requires
            self.counts().wf(),
        ensures
            r@ == self.list(),
    {
        let c = self.sources();
        let mut out: Vec<(Source, u64)> = Vec::new();
        if !self.suppress_stdin {
            out.push((Source::Stdin, STDIN_TOKEN));
        }
        let ghost p0 = out@;
        assert(p0 =~= if self.suppress_stdin { seq![] } else { seq![(Source::Stdin, STDIN_TOKEN)] });
        let ghost tap = |i: usize| Source::Tap(i);
        let mut i: usize = 0;
        assert(out@ =~= p0 + self.all_of(0, tap));
        while i < self.taps
            invariant
                i <= self.taps,
                c == self.counts(),
                c.wf(),
                tap == (|i: usize| Source::Tap(i)),
                out@ == p0 + self.all_of(i as nat, tap),
            decreases self.taps - i,
        {
            out.push((Source::Tap(i), c.token(Source::Tap(i))));
            i += 1;
            assert(out@ =~= p0 + self.all_of(i as nat, tap));
        }
        let ghost p1 = out@;
        let ghost notify = |i: usize| Source::Notify(i);
        i = 0;
        assert(out@ =~= p1 + self.all_of(0, notify));
        while i < self.notifies
            invariant
                i <= self.notifies,
                c == self.counts(),
                c.wf(),
                notify == (|i: usize| Source::Notify(i)),
                out@ == p1 + self.all_of(i as nat, notify),
            decreases self.notifies - i,
        {
            out.push((Source::Notify(i), c.token(Source::Notify(i))));
            i += 1;
            assert(out@ =~= p1 + self.all_of(i as nat, notify));
        }
        let ghost p2 = out@;
        let ghost blk = |i: usize| Source::Blk(i);
        i = 0;
        assert(out@ =~= p2 + self.those_of(self.blks@, 0, blk));
        while i < self.blks.len()
            invariant
                i <= self.blks@.len(),
                c == self.counts(),
                c.wf(),
                blk == (|i: usize| Source::Blk(i)),
                out@ == p2 + self.those_of(self.blks@, i as nat, blk),
            decreases self.blks@.len() - i,
        {
            if self.blks[i] {
                out.push((Source::Blk(i), c.token(Source::Blk(i))));
            }
            i += 1;
            assert(out@ =~= p2 + self.those_of(self.blks@, i as nat, blk));
        }
        let ghost p3 = out@;
        let ghost gpio = |i: usize| Source::Gpio(i);
        i = 0;
        assert(out@ =~= p3 + self.those_of(self.gpios@, 0, gpio));
        while i < self.gpios.len()
            invariant
                i <= self.gpios@.len(),
                c == self.counts(),
                c.wf(),
                gpio == (|i: usize| Source::Gpio(i)),
                out@ == p3 + self.those_of(self.gpios@, i as nat, gpio),
            decreases self.gpios@.len() - i,
        {
            if self.gpios[i] {
                out.push((Source::Gpio(i), c.token(Source::Gpio(i))));
            }
            i += 1;
            assert(out@ =~= p3 + self.those_of(self.gpios@, i as nat, gpio));
        }
        if self.vsock {
            out.push((Source::Vsock, c.token(Source::Vsock)));
        }
        assert(out@ =~= self.list());
        out
    }

    /// What to do for an event with this token; nothing if there is no such
    /// device.
    pub fn dispatch(&self, token: u64) -> (r: Option<Source>)
        requires
            self.counts().wf(),
        ensures
            r == ({
                let s = self.counts().source_of(token);
                if self.handles(s) {
                    Some(s)
                } else {
                    None
                }
            }),
    {
        let s = self.sources().source(token);
        match s {
            Source::Vsock => if self.vsock {
                Some(s)
            } else {
                None
            },
            _ => Some(s),
        }
    }
}

/// Everything that is watched is handled as what it is: the token of each
/// entry of the list leads back to its source.
pub proof fn law_what_is_watched_is_handled(w: Watched, k: int)
    requires
        w.counts().wf(),
        0 <= k < w.list().len(),
    ensures
        w.counts().source_of(w.list()[k].1) == w.list()[k].0,
        w.handles(w.list()[k].0),
{
    let blk = |i: usize| Source::Blk(i);
    let gpio = |i: usize| Source::Gpio(i);
    let tap = |i: usize| Source::Tap(i);
    let notify = |i: usize| Source::Notify(i);
    assert forall|s: Source| w.counts().has(s) implies w.counts().source_of(
        #[trigger] w.counts().token_of(s) as u64,
    ) == s by {
        law_tokens_round_trip(w.counts(), s);
    }
    lemma_those_are_present(w, w.blks@, w.blks@.len(), blk);
    lemma_those_are_present(w, w.gpios@, w.gpios@.len(), gpio);
    let e = w.list()[k];
    let head = if w.suppress_stdin { seq![] } else { seq![(Source::Stdin, STDIN_TOKEN)] };
    let n0 = head.len() as int;
    let n1 = n0 + w.taps;
    let n2 = n1 + w.notifies;
    let blks = w.those_of(w.blks@, w.blks@.len(), blk);
    let gpios = w.those_of(w.gpios@, w.gpios@.len(), gpio);
    let n3 = n2 + blks.len();
    let n4 = n3 + gpios.len();
    if k < n0 {
        assert(e == (Source::Stdin, STDIN_TOKEN));
    } else if k < n1 {
        assert(e == w.all_of(w.taps as nat, tap)[k - n0]);
    } else if k < n2 {
        assert(e == w.all_of(w.notifies as nat, notify)[k - n1]);
    } else if k < n3 {
        assert(e == blks[k - n2]);
    } else if k < n4 {
        assert(e == gpios[k - n3]);
    } else {
        assert(e == (Source::Vsock, w.counts().vsock_token() as u64));
        assert(w.counts().token_of(Source::Vsock) == w.counts().vsock_token());
    }
}

proof fn lemma_those_are_present(w: Watched, flags: Seq<bool>, n: nat, kind: spec_fn(usize) -> Source)
    requires
        n <= flags.len() <= usize::MAX,
    ensures
        forall|k: int|
            0 <= k < w.those_of(flags, n, kind).len() ==> exists|i: usize|
                i < n && (#[trigger] w.those_of(flags, n, kind)[k]) == (
                    #[trigger] kind(i),
                    w.counts().token_of(kind(i)) as u64,
                ),
    decreases n,
{
    if n > 0 {
        let m = (n - 1) as nat;
        lemma_those_are_present(w, flags, m, kind);
        let t = w.those_of(flags, n, kind);
        let u = w.those_of(flags, m, kind);
        assert forall|k: int| 0 <= k < t.len() implies exists|i: usize|
            i < n && (#[trigger] t[k]) == (#[trigger] kind(i), w.counts().token_of(kind(i)) as u64) by {
            if k < u.len() {
                assert(t[k] == u[k]);
                let i = choose|i: usize| i < m && u[k] == (#[trigger] kind(i), w.counts().token_of(kind(i)) as u64);
                assert(i < n && t[k] == (kind(i), w.counts().token_of(kind(i)) as u64));
            } else {
                let i = m as usize;
                assert(i < n && t[k] == (kind(i), w.counts().token_of(kind(i)) as u64));
            }
        }
    }
}

/// What to do with a packet that was read from a network interface.
#[derive(Clone, Copy, Debug, PartialEq, Eq, Structural)]
pub struct TapStep {
    /// Record the packet, and raise this interrupt.
    pub deliver: Option<u32>,
    /// Read the next packet.
    pub again: bool,
}

/// Decides what to do after a read from a network interface. `packet` is
/// whether there was one, and `taken` the interrupt to raise if the guest took
/// it. A guest with no room for a packet gets no more until the next event.
pub fn handle_tap(packet: bool, taken: Option<u32>) -> (r: TapStep)
    ensures
        r == (if packet {
            TapStep { deliver: taken, again: taken is Some }
        } else {
            TapStep { deliver: None, again: false }
        }),
{
    if packet {
        TapStep { deliver: taken, again: taken.is_some() }
    } else {
        TapStep { deliver: None, again: false }
    }
}

/// The interrupt to raise once after several packets were offered to the
/// guest, each with the interrupt to raise if it was taken: the last of them.
pub open spec fn last_irq(taken: Seq<Option<u32>>) -> Option<u32>
    decreases taken.len(),
{
    if taken.len() == 0 {
        None
    } else if taken.last() is Some {
        taken.last()
    } else {
        last_irq(taken.drop_last())
    }
}

/// The interrupt to raise once after several packets were offered to the
/// guest.
pub fn handle_vsock_bridge(taken: &[Option<u32>]) -> (r: Option<u32>)
    ensures
        r == last_irq(taken@),
{
    let mut n: usize = taken.len();
    assert(taken@.take(n as int) =~= taken@);
    while n > 0
        invariant
            n <= taken@.len(),
            last_irq(taken@) == last_irq(taken@.take(n as int)),
        decreases n,
    {
        assert(taken@.take(n as int).last() == taken@[n - 1]);
        assert(taken@.take(n as int).drop_last() =~= taken@.take(n - 1));
        if taken[n - 1].is_some() {
            return taken[n - 1];
        }
        n -= 1;
    }
    None
}

/// Whether console input can still come.
#[derive(Clone, Copy, Debug, PartialEq, Eq, Structural)]
pub enum StdinState {
    Open,
    Closed,
}

/// What to do with console input that was read.
#[derive(Clone, Copy, Debug, PartialEq, Eq, Structural)]
pub struct StdinStep {
    /// How many of the bytes go to the guest.
    pub deliver: usize,
    /// Whether the operator quit.
    pub quit: bool,
    /// Whether to read again, and if not, whether input can still come.
    pub next: Option<StdinState>,
}

/// The position of the first escape byte.
pub open spec fn escape_at(s: Seq<u8>) -> Option<nat>
    decreases s.len(),
{
    if s.len() == 0 {
        None
    } else if s[0] == ESCAPE_BYTE {
        Some(0)
    } else {
        match escape_at(s.skip(1)) {
            Some(i) => Some(i + 1),
            None => None,
        }
    }
}

/// What to do with the outcome of a read into a buffer of `capacity` bytes:
/// none at the end of input, otherwise the bytes, of which there may be none
/// right now. What precedes an escape byte still goes to the guest.
pub open spec fn stdin_step(read: Option<Seq<u8>>, capacity: nat) -> StdinStep {
    match read {
        None => StdinStep { deliver: 0, quit: false, next: Some(StdinState::Closed) },
        Some(s) => match escape_at(s) {
            Some(i) => StdinStep {
                deliver: i as usize,
                quit: true,
                next: Some(StdinState::Open),
            },
            None => StdinStep {
                deliver: s.len() as usize,
                quit: false,
                next: if s.len() > 0 && s.len() == capacity { None } else { Some(StdinState::Open) },
            },
        },
    }
}

/// Decides what to do with console input that was read.
pub fn handle_stdin(read: Option<&[u8]>, capacity: usize) -> (r: StdinStep)
    ensures
        r == stdin_step(
            match read {
                Some(s) => Some(s@),
                None => None,
            },
            capacity as nat,
        ),
{
    let s = match read {
        Some(s) => s,
        None => {
            return StdinStep { deliver: 0, quit: false, next: Some(StdinState::Closed) };
        },
    };
    let mut i: usize = 0;
    assert(s@.skip(0) =~= s@);
    while i < s.len()
        invariant
            i <= s@.len(),
            read == Some(s),
            match escape_at(s@.skip(i as int)) {
                Some(k) => escape_at(s@) == Some((i + k) as nat),
                None => escape_at(s@) is None,
            },
        decreases s@.len() - i,
    {
        assert(s@.skip(i as int)[0] == s@[i as int]);
        assert(s@.skip(i as int).skip(1) =~= s@.skip(i as int + 1));
        if s[i] == ESCAPE_BYTE {
            return StdinStep { deliver: i, quit: true, next: Some(StdinState::Open) };
        }
        i += 1;
    }
    let next = if s.len() > 0 && s.len() == capacity { None } else { Some(StdinState::Open) };
    StdinStep { deliver: s.len(), quit: false, next }
}

/// Hands input to the console. Whether its interrupt is to be raised.
pub fn push_rx(serial: &mut Serial, bytes: &[u8]) -> (r: bool)
    ensures
        final(serial)@ == (SerialView { rx: old(serial)@.rx + bytes@, ..old(serial)@ }),
        r == (bytes@.len() > 0 && enabled(old(serial)@, IER_RDI)),
{
    let mut wants_irq = false;
    let mut i: usize = 0;
    assert(serial@.rx =~= old(serial)@.rx + bytes@.take(0));
    while i < bytes.len()
        invariant
            i <= bytes@.len(),
            serial@ == (SerialView { rx: old(serial)@.rx + bytes@.take(i as int), ..old(serial)@ }),
            wants_irq == (i > 0 && enabled(old(serial)@, IER_RDI)),
        decreases bytes@.len() - i,
    {
        let w = serial.push_rx_byte(bytes[i]);
        if w {
            wants_irq = true;
        }
        i += 1;
        assert(serial@.rx =~= old(serial)@.rx + bytes@.take(i as int));
    }
    assert(bytes@.take(i as int) =~= bytes@);
    wants_irq
}

/// Whether the thread runs, is asked to park, or is parked.
#[derive(Clone, Copy, Debug, PartialEq, Eq, Structural)]
pub enum PauseState {
    Running,
    Requested,
    Paused,
}

/// One change of the rendezvous.
pub enum PauseEvent {
    CheckIn,
    Request,
    EndWait,
    Resume,
}

/// The state after a change.
pub open spec fn pause_after(s: PauseState, e: PauseEvent) -> PauseState {
    match e {
        PauseEvent::CheckIn => if s == PauseState::Requested { PauseState::Paused } else { s },
        PauseEvent::Request => PauseState::Requested,
        PauseEvent::EndWait => if s == PauseState::Paused { s } else { PauseState::Running },
        PauseEvent::Resume => PauseState::Running,
    }
}

/// The rendezvous at which the thread parks, holding no lock. Waiting is the
/// caller's: each method is one change of state made under the lock that
/// guards this, and says who is to wait or to be woken.
pub struct ReactorPause {
    state: PauseState,
}

impl View for ReactorPause {
    type V = PauseState;

    closed spec fn view(&self) -> PauseState {
        self.state
    }
}

impl Default for ReactorPause {
    fn default() -> (r: Self)
        ensures
            r@ == PauseState::Running,
    {
        ReactorPause { state: PauseState::Running }
    }
}

impl ReactorPause {
    /// A thread that runs.
    pub fn new() -> (r: Self)
        ensures
            r@ == PauseState::Running,
    {
        ReactorPause { state: PauseState::Running }
    }

    /// The thread is at its safe point. Whether it is to wake the requester
    /// and wait until it `may_run`.
    pub fn check_in(&mut self) -> (r: bool)
        ensures
            r == (old(self)@ == PauseState::Requested),
            final(self)@ == pause_after(old(self)@, PauseEvent::CheckIn),
    {
        if self.state != PauseState::Requested {
            return false;
        }
        self.state = PauseState::Paused;
        true
    }

    /// Whether a thread that waits at its safe point may go on.
    pub fn may_run(&self) -> (r: bool)
        ensures
            r == (self@ != PauseState::Paused),
    {
        self.state != PauseState::Paused
    }

    /// Asks the thread to park. The requester is to wait until it is, or for
    /// `PAUSE_ACK_TIMEOUT_MS`.
    pub fn request(&mut self)
        ensures
            final(self)@ == pause_after(old(self)@, PauseEvent::Request),
    {
        self.state = PauseState::Requested;
    }

    /// Whether the thread is parked.
    pub fn is_paused(&self) -> (r: bool)
        ensures
            r == (self@ == PauseState::Paused),
    {
        self.state == PauseState::Paused
    }

    /// Ends the requester's wait. `true` if the thread is parked; otherwise
    /// the request is withdrawn, and the process must not be forked.
    pub fn request_and_wait(&mut self) -> (r: bool)
        ensures
            r == (old(self)@ == PauseState::Paused),
            final(self)@ == pause_after(old(self)@, PauseEvent::EndWait),
    {
        if self.state == PauseState::Paused {
            true
        } else {
            self.state = PauseState::Running;
            false
        }
    }

    /// Lets the thread go on.
    pub fn resume(&mut self)
        ensures
            final(self)@ == pause_after(old(self)@, PauseEvent::Resume),
    {
        self.state = PauseState::Running;
    }
}

/// The thread is parked only by its own check-in, after a request; nothing
/// else parks it, and what ends a wait without success leaves it running.
pub proof fn law_only_the_thread_parks_itself(s: PauseState, e: PauseEvent)
    ensures
        pause_after(s, e) == PauseState::Paused && s != PauseState::Paused ==> e is CheckIn && s
            == PauseState::Requested,
        pause_after(pause_after(PauseState::Requested, PauseEvent::EndWait), PauseEvent::CheckIn)
            == PauseState::Running,
{
}

proof fn lemma_those_are_listed(w: Watched, flags: Seq<bool>, n: nat, kind: spec_fn(usize) -> Source, i: int)
    requires
        0 <= i < n <= flags.len(),
        flags[i],
    ensures
        w.those_of(flags, n, kind).contains((kind(i as usize), w.counts().token_of(kind(i as usize)) as u64)),
    decreases n,
{
    let before = w.those_of(flags, (n - 1) as nat, kind);
    let e = (kind(i as usize), w.counts().token_of(kind(i as usize)) as u64);
    if i == n - 1 {
        assert(w.those_of(flags, n, kind).last() == e);
    } else {
        lemma_those_are_listed(w, flags, (n - 1) as nat, kind, i);
        let k = choose|k: int| 0 <= k < before.len() && before[k] == e;
        assert(w.those_of(flags, n, kind)[k] == e);
    }
}

/// Everything that has something to wait for is watched, under its own token:
/// the terminal unless that is suppressed, every network interface, every
/// notification, each disk and each GPIO bank that completes on its own, and
/// the vsock bridge if there is one.
pub proof fn law_everything_is_watched(w: Watched, i: usize)
    requires
        w.counts().wf(),
    ensures
        w.list().contains((Source::Stdin, 0u64)) || w.suppress_stdin,
        i < w.taps ==> w.list().contains((Source::Tap(i), w.counts().token_of(Source::Tap(i)) as u64)),
        i < w.notifies ==> w.list().contains((Source::Notify(i), w.counts().token_of(Source::Notify(i)) as u64)),
        i < w.blks@.len() && w.blks@[i as int] ==> w.list().contains(
            (Source::Blk(i), w.counts().token_of(Source::Blk(i)) as u64),
        ),
        i < w.gpios@.len() && w.gpios@[i as int] ==> w.list().contains(
            (Source::Gpio(i), w.counts().token_of(Source::Gpio(i)) as u64),
        ),
        w.vsock ==> w.list().contains((Source::Vsock, w.counts().token_of(Source::Vsock) as u64)),
{
    let a: Seq<(Source, u64)> = if w.suppress_stdin { seq![] } else { seq![(Source::Stdin, STDIN_TOKEN)] };
    let b = w.all_of(w.taps as nat, |i: usize| Source::Tap(i));
    let c = w.all_of(w.notifies as nat, |i: usize| Source::Notify(i));
    let d = w.those_of(w.blks@, w.blks@.len(), |i: usize| Source::Blk(i));
    let e = w.those_of(w.gpios@, w.gpios@.len(), |i: usize| Source::Gpio(i));
    let all = w.list();
    let (nb, nc, nd, ne) = (
        a.len() as int,
        (a.len() + b.len()) as int,
        (a.len() + b.len() + c.len()) as int,
        (a.len() + b.len() + c.len() + d.len()) as int,
    );
    if !w.suppress_stdin {
        assert(all[0] == (Source::Stdin, 0u64));
    }
    if i < w.taps {
        assert(b[i as int] == (Source::Tap(i), w.counts().token_of(Source::Tap(i)) as u64));
        assert(all[nb + i] == b[i as int]);
    }
    if i < w.notifies {
        assert(c[i as int] == (Source::Notify(i), w.counts().token_of(Source::Notify(i)) as u64));
        assert(all[nc + i] == c[i as int]);
    }
    if i < w.blks@.len() && w.blks@[i as int] {
        let x = (Source::Blk(i), w.counts().token_of(Source::Blk(i)) as u64);
        lemma_those_are_listed(w, w.blks@, w.blks@.len(), |i: usize| Source::Blk(i), i as int);
        assert(d.contains(x));
        let k = choose|k: int| 0 <= k < d.len() && d[k] == x;
        assert(all[nd + k] == x);
    }
    if i < w.gpios@.len() && w.gpios@[i as int] {
        let x = (Source::Gpio(i), w.counts().token_of(Source::Gpio(i)) as u64);
        lemma_those_are_listed(w, w.gpios@, w.gpios@.len(), |i: usize| Source::Gpio(i), i as int);
        assert(e.contains(x));
        let k = choose|k: int| 0 <= k < e.len() && e[k] == x;
        assert(all[ne + k] == x);
    }
    if w.vsock {
        assert(all.last() == (Source::Vsock, w.counts().token_of(Source::Vsock) as u64));
        assert(all[all.len() - 1] == all.last());
    }
}

/// What is not there, or not wanted, is not watched.
pub proof fn law_nothing_else_is_watched(w: Watched, k: int)
    requires
        w.counts().wf(),
        0 <= k < w.list().len(),
    ensures
        match w.list()[k].0 {
            Source::Stdin => !w.suppress_stdin,
            Source::Tap(i) => i < w.taps,
            Source::Notify(i) => i < w.notifies,
            Source::Blk(i) => i < w.blks@.len() && w.blks@[i as int],
            Source::Gpio(i) => i < w.gpios@.len() && w.gpios@[i as int],
            Source::Vsock => w.vsock,
        },
{
    let a: Seq<(Source, u64)> = if w.suppress_stdin { seq![] } else { seq![(Source::Stdin, STDIN_TOKEN)] };
    let b = w.all_of(w.taps as nat, |i: usize| Source::Tap(i));
    let c = w.all_of(w.notifies as nat, |i: usize| Source::Notify(i));
    let d = w.those_of(w.blks@, w.blks@.len(), |i: usize| Source::Blk(i));
    let e = w.those_of(w.gpios@, w.gpios@.len(), |i: usize| Source::Gpio(i));
    lemma_those_are_flagged(w, w.blks@, w.blks@.len(), |i: usize| Source::Blk(i));
    lemma_those_are_flagged(w, w.gpios@, w.gpios@.len(), |i: usize| Source::Gpio(i));
    let (nb, nc, nd, ne, nf) = (
        a.len() as int,
        (a.len() + b.len()) as int,
        (a.len() + b.len() + c.len()) as int,
        (a.len() + b.len() + c.len() + d.len()) as int,
        (a.len() + b.len() + c.len() + d.len() + e.len()) as int,
    );
    let all = w.list();
    if k < nb {
        assert(all[k] == a[k]);
    } else if k < nc {
        assert(all[k] == b[k - nb]);
    } else if k < nd {
        assert(all[k] == c[k - nc]);
    } else if k < ne {
        assert(all[k] == d[k - nd]);
    } else if k < nf {
        assert(all[k] == e[k - ne]);
    }
}

spec fn flagged(flags: Seq<bool>, n: nat, kind: spec_fn(usize) -> Source, s: Source) -> bool {
    exists|i: usize| i < n && flags[i as int] && s == #[trigger] kind(i)
}

proof fn lemma_those_are_flagged(w: Watched, flags: Seq<bool>, n: nat, kind: spec_fn(usize) -> Source)
    requires
        n <= flags.len() <= usize::MAX,
    ensures
        forall|k: int|
            0 <= k < w.those_of(flags, n, kind).len() ==> flagged(
                flags,
                n,
                kind,
                (#[trigger] w.those_of(flags, n, kind)[k]).0,
            ),
    decreases n,
{
    if n > 0 {
        let m = (n - 1) as nat;
        lemma_those_are_flagged(w, flags, m, kind);
        let t = w.those_of(flags, n, kind);
        let u = w.those_of(flags, m, kind);
        assert forall|k: int| 0 <= k < t.len() implies flagged(flags, n, kind, (#[trigger] t[k]).0) by {
            if k < u.len() {
                assert(t[k] == u[k]);
                assert(flagged(flags, m, kind, u[k].0));
                let i = choose|i: usize| i < m && flags[i as int] && u[k].0 == #[trigger] kind(i);
                assert(i < n && flags[i as int] && t[k].0 == kind(i));
            } else {
                let i = m as usize;
                assert(i < n && flags[i as int] && t[k].0 == kind(i));
            }
        }
    }
}

/// Of several interrupts that are asked for, the last is raised; if none is,
/// none is.
pub proof fn law_last_interrupt(taken: Seq<Option<u32>>)
    ensures
        match last_irq(taken) {
            Some(x) => exists|i: int|
                0 <= i < taken.len() && #[trigger] taken[i] == Some(x) && forall|k: int|
                    i < k < taken.len() ==> (#[trigger] taken[k]) is None,
            None => forall|k: int| 0 <= k < taken.len() ==> (#[trigger] taken[k]) is None,
        },
    decreases taken.len(),
{
    if taken.len() > 0 {
        let n = taken.len() - 1;
        let t = taken.drop_last();
        if taken.last() is Some {
            assert(taken[n] == taken.last());
        } else {
            law_last_interrupt(t);
            assert(taken[n] is None);
            match last_irq(t) {
                Some(x) => {
                    let i = choose|i: int|
                        0 <= i < t.len() && #[trigger] t[i] == Some(x) && forall|k: int|
                            i < k < t.len() ==> (#[trigger] t[k]) is None;
                    assert(taken[i] == Some(x));
                    assert forall|k: int| i < k < taken.len() implies (#[trigger] taken[k]) is None by {
                        if k < n {
                            assert(t[k] is None);
                        }
                    }
                },
                None => {
                    assert forall|k: int| 0 <= k < taken.len() implies (#[trigger] taken[k]) is None by {
                        if k < n {
                            assert(t[k] is None);
                        }
                    }
                },
            }
        }
    }
}

/// Terminal input reaches the guest in full, up to the escape character, which
/// ends the run and reaches nobody, nor does what follows it. The end of input
/// closes it, and nothing else does; a buffer that came back full is read
/// again.
pub proof fn law_terminal_input(s: Seq<u8>, capacity: nat)
    requires
        s.len() <= usize::MAX,
    ensures
        stdin_step(None, capacity).deliver == 0,
        stdin_step(None, capacity).next == Some(StdinState::Closed),
        !stdin_step(None, capacity).quit,
        ({
            let r = stdin_step(Some(s), capacity);
            &&& r.quit <==> s.contains(0x1d)
            &&& r.deliver <= s.len()
            &&& forall|k: int| 0 <= k < r.deliver ==> #[trigger] s[k] != 0x1d
            &&& r.quit ==> s[r.deliver as int] == 0x1d
            &&& !r.quit ==> r.deliver == s.len()
            &&& r.next != Some(StdinState::Closed)
            &&& r.next is None <==> !r.quit && s.len() > 0 && s.len() == capacity
        }),
{
    lemma_escape(s);
}

proof fn lemma_escape(s: Seq<u8>)
    ensures
        match escape_at(s) {
            Some(i) => i < s.len() && s[i as int] == 0x1d && forall|k: int| 0 <= k < i ==> #[trigger] s[k] != 0x1d,
            None => forall|k: int| 0 <= k < s.len() ==> #[trigger] s[k] != 0x1d,
        },
    decreases s.len(),
{
    if s.len() > 0 && s[0] != 0x1d {
        let t = s.skip(1);
        lemma_escape(t);
        match escape_at(t) {
            Some(i) => {
                assert forall|k: int| 0 <= k < i + 1 implies #[trigger] s[k] != 0x1d by {
                    if k > 0 {
                        assert(t[k - 1] == s[k]);
                    }
                }
            },
            None => {
                assert forall|k: int| 0 <= k < s.len() implies #[trigger] s[k] != 0x1d by {
                    if k > 0 {
                        assert(t[k - 1] == s[k]);
                    }
                }
            },
        }
    }
}

/// A pause takes hold when the thread next checks in, lasts through the end of
/// the wait for it, and ends when the thread is told to go on. A thread that
/// nobody asked to pause runs on.
pub proof fn law_pausing(s: PauseState)
    ensures
        pause_after(pause_after(s, PauseEvent::Request), PauseEvent::CheckIn) == PauseState::Paused,
        pause_after(PauseState::Paused, PauseEvent::EndWait) == PauseState::Paused,
        pause_after(PauseState::Paused, PauseEvent::CheckIn) == PauseState::Paused,
        pause_after(s, PauseEvent::Resume) == PauseState::Running,
        pause_after(PauseState::Running, PauseEvent::CheckIn) == PauseState::Running,
        s != PauseState::Paused ==> pause_after(s, PauseEvent::EndWait) == PauseState::Running,
{
}

/// Input reaches the serial port in order, with an interrupt if the guest asked
/// for one; a packet that a device took raises that device's line and is
/// followed by the next.
pub proof fn law_input_is_delivered(
    serial: &mut Serial,
    bytes: &[u8],
    irq: bool,
    packet: bool,
    taken: Option<u32>,
    step: TapStep,
)
    requires
        call_ensures(push_rx, (serial, bytes), irq),
        call_ensures(handle_tap, (packet, taken), step),
    ensures
        final(serial)@.rx == old(serial)@.rx + bytes@,
        final(serial)@.tx == old(serial)@.tx,
        irq ==> bytes@.len() > 0,
        packet ==> step.deliver == taken && (step.again <==> taken is Some),
        !packet ==> step.deliver is None && !step.again,
{
}

} // verus!
