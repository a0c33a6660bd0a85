//! The core of a scripted device plugin, whatever reaches the plugin's code:
//! its PCI identity, its spontaneous interrupt, and what a failing plugin
//! does to the guest, which is nothing.

use vstd::prelude::*;
use vstd::string::*;

use crate::bytes::{fill, zeroes};
use crate::device::Device;
use crate::pci::{PciDevice, NUM_BARS};
use crate::text::{cat4, dec, dec_string, string_views};

verus! {

/// A plugin's PCI identity, read once when it is loaded. All zero for a
/// plugin that is not on the PCI bus.
#[derive(Clone, Copy, Debug, PartialEq, Eq)]
pub struct PluginIdentity {
    pub vendor_id: u16,
    pub device_id: u16,
    pub class_code: u32,
    pub bar_sizes: [u32; 6],
    pub bar_is_io: [bool; 6],
    pub interrupt_line: u8,
    pub msi_capable: bool,
}

/// Whether an identity is all zero.
pub open spec fn is_inert(i: PluginIdentity) -> bool {
    &&& i.vendor_id == 0
    &&& i.device_id == 0
    &&& i.class_code == 0
    &&& i.bar_sizes@ == seq![0u32, 0u32, 0u32, 0u32, 0u32, 0u32]
    &&& i.bar_is_io@ == seq![false, false, false, false, false, false]
    &&& i.interrupt_line == 0
    &&& !i.msi_capable
}

impl Default for PluginIdentity {
    fn default() -> (r: Self)
        ensures
            is_inert(r),
    {
        let r = PluginIdentity {
            vendor_id: 0,
            device_id: 0,
            class_code: 0,
            bar_sizes: [0, 0, 0, 0, 0, 0],
            bar_is_io: [false, false, false, false, false, false],
            interrupt_line: 0,
            msi_capable: false,
        };
        assert(r.bar_sizes@ =~= seq![0u32, 0u32, 0u32, 0u32, 0u32, 0u32]);
        assert(r.bar_is_io@ =~= seq![false, false, false, false, false, false]);
        r
    }
}

impl PluginIdentity {
    /// Whether two identities agree in every field.
    pub fn same(&self, other: &PluginIdentity) -> (r: bool)
        ensures
            r == (*self == *other),
    {
        let mut i: usize = 0;
        while i < 6
            invariant
                i <= 6,
                forall|k: int| 0 <= k < i ==> #[trigger] self.bar_sizes@[k] == other.bar_sizes@[k],
                forall|k: int| 0 <= k < i ==> #[trigger] self.bar_is_io@[k] == other.bar_is_io@[k],
            decreases 6 - i,
        {
            if self.bar_sizes[i] != other.bar_sizes[i] || self.bar_is_io[i] != other.bar_is_io[i] {
                return false;
            }
            i += 1;
        }
        proof {
            assert(self.bar_sizes@ =~= other.bar_sizes@);
            assert(self.bar_is_io@ =~= other.bar_is_io@);
            assert(self.bar_sizes =~= other.bar_sizes);
            assert(self.bar_is_io =~= other.bar_is_io);
        }
        self.vendor_id == other.vendor_id && self.device_id == other.device_id && self.class_code
            == other.class_code && self.interrupt_line == other.interrupt_line && self.msi_capable
            == other.msi_capable
    }
}

/// What went wrong, if anything did.
pub open spec fn failure(r: Result<(), String>) -> Option<Seq<char>> {
    match r {
        Ok(_) => None,
        Err(e) => Some(e@),
    }
}

/// How calls reach a plugin's code. What each call may do is up to the
/// transport: anything, unless it says more.
pub trait PluginTransport: Sized {
    /// What a read call may do: the transport before and after, the buffer
    /// before and after, and what went wrong, if anything did.
    open spec fn reads(
        pre: Self,
        post: Self,
        offset: u64,
        before: Seq<u8>,
        after: Seq<u8>,
        err: Option<Seq<char>>,
    ) -> bool {
        true
    }

    /// What a write call may do: the transport before and after, and the
    /// answer or what went wrong.
    open spec fn writes(pre: Self, post: Self, offset: u64, data: Seq<u8>, answer: Result<bool, Seq<char>>) -> bool {
        true
    }

    /// What a tick call may do to the transport, and what went wrong, if
    /// anything did.
    open spec fn ticks(pre: Self, post: Self, err: Option<Seq<char>>) -> bool {
        true
    }

    /// What a reset call may do to the transport, and what went wrong, if
    /// anything did.
    open spec fn resets(pre: Self, post: Self, err: Option<Seq<char>>) -> bool {
        true
    }

    /// Fills the whole of `data` from `offset`, or says what went wrong.
    fn call_read(&mut self, offset: u64, data: &mut [u8]) -> (r: Result<(), String>)
        ensures
            final(data)@.len() == old(data)@.len(),
            Self::reads(*old(self), *final(self), offset, old(data)@, final(data)@, failure(r)),
    ;

    /// Writes `data` at `offset`; `true` asks for the device's interrupt.
    fn call_write(&mut self, offset: u64, data: &[u8]) -> (r: Result<bool, String>)
        ensures
            Self::writes(
                *old(self),
                *final(self),
                offset,
                data@,
                match r {
                    Ok(b) => Ok(b),
                    Err(e) => Err(e@),
                },
            ),
    ;

    /// Calls the plugin's `tick`. Only called where there is one.
    fn call_tick(&mut self) -> (r: Result<(), String>)
        ensures
            Self::ticks(*old(self), *final(self), failure(r)),
    ;

    /// Whether the plugin has a `tick`.
    fn has_tick(&self) -> bool;

    /// Calls the plugin's `reset`. Only called where there is one.
    fn call_reset(&mut self) -> (r: Result<(), String>)
        ensures
            Self::resets(*old(self), *final(self), failure(r)),
    ;

    /// Whether the plugin has a `reset`.
    fn has_reset(&self) -> bool;
}

/// Whether the occurrence with this number is logged: the first five are, and
/// then every thousandth.
pub open spec fn is_logged(count: u64) -> bool {
    count <= 5 || count % 1000 == 0
}

/// One more than `count`, as far as it goes.
pub open spec fn counted(count: u64) -> u64 {
    if count < u64::MAX {
        (count + 1) as u64
    } else {
        count
    }
}

/// The line for the occurrence `count` of the error `msg`.
pub open spec fn log_text(msg: Seq<char>, count: u64) -> Seq<char> {
    msg + " (occurrence #"@ + dec(count as nat) + ")"@
}

/// The count and the log after a call that failed as `err` says, if it did.
pub open spec fn noted(count: u64, log: Seq<Seq<char>>, err: Option<Seq<char>>) -> (u64, Seq<Seq<char>>) {
    match err {
        None => (count, log),
        Some(msg) => {
            let n = counted(count);
            (n, if is_logged(n) { log.push(log_text(msg, n)) } else { log })
        },
    }
}

/// Counts an error, and returns the line to log if this occurrence is logged.
pub fn rate_limited_log(count: &mut u64, msg: &str) -> (r: Option<String>)
    ensures
        *final(count) == counted(*old(count)),
        match r {
            Some(line) => is_logged(*final(count)) && line@ == log_text(msg@, *final(count)),
            None => !is_logged(*final(count)),
        },
{
    *count = count.saturating_add(1);
    if *count <= 5 || *count % 1000 == 0 {
        let n = dec_string(*count);
        Some(cat4(msg, " (occurrence #", n.as_str(), ")"))
    } else {
        None
    }
}

/// A device plugin. An error of the plugin's is counted and logged, and is
/// otherwise nothing: a failed read gives zeroes, a failed write asks for no
/// interrupt.
pub struct ScriptedDevice<T: PluginTransport> {
    pub transport: T,
    pub identity: PluginIdentity,
    /// The plugin asked for an interrupt on its own.
    pub irq_pending: bool,
    pub read_error_count: u64,
    pub write_error_count: u64,
    pub tick_error_count: u64,
    pub reset_error_count: u64,
    /// Lines to log that were not taken yet.
    pub log: Vec<String>,
}

impl<T: PluginTransport> ScriptedDevice<T> {
    /// The lines to log, as text.
    pub open spec fn lines(self) -> Seq<Seq<char>> {
        string_views(self.log@)
    }

    /// Whether nothing changed but what a read may change.
    pub open spec fn same_but_reading(self, pre: Self) -> bool {
        self == (ScriptedDevice {
            transport: self.transport,
            read_error_count: self.read_error_count,
            log: self.log,
            ..pre
        })
    }

    /// Whether nothing changed but what a write may change.
    pub open spec fn same_but_writing(self, pre: Self) -> bool {
        self == (ScriptedDevice {
            transport: self.transport,
            write_error_count: self.write_error_count,
            log: self.log,
            ..pre
        })
    }

    /// Whether nothing changed but what a tick may change.
    pub open spec fn same_but_ticking(self, pre: Self) -> bool {
        self == (ScriptedDevice {
            transport: self.transport,
            tick_error_count: self.tick_error_count,
            log: self.log,
            ..pre
        })
    }

    /// Whether nothing changed but what a reset may change.
    pub open spec fn same_but_resetting(self, pre: Self) -> bool {
        self == (ScriptedDevice {
            transport: self.transport,
            reset_error_count: self.reset_error_count,
            log: self.log,
            ..pre
        })
    }

    /// Whether a tick call may have led from here to `post`.
    pub open spec fn ticked(self, post: Self) -> bool {
        &&& post.same_but_ticking(self)
        &&& exists|err: Option<Seq<char>>|
            #[trigger] T::ticks(self.transport, post.transport, err) && (
            post.tick_error_count, post.lines()) == noted(self.tick_error_count, self.lines(), err)
    }

    /// Whether a reset call may have led from here to `post`.
    pub open spec fn was_reset(self, post: Self) -> bool {
        &&& post.same_but_resetting(self)
        &&& exists|err: Option<Seq<char>>|
            #[trigger] T::resets(self.transport, post.transport, err) && (
            post.reset_error_count, post.lines()) == noted(self.reset_error_count, self.lines(), err)
    }

    /// A device that has just been loaded.
    pub fn new(transport: T, identity: PluginIdentity, irq_pending: bool) -> (r: Self)
        ensures
            r.transport == transport,
            r.identity == identity,
            r.irq_pending == irq_pending,
            r.read_error_count == 0,
            r.write_error_count == 0,
            r.tick_error_count == 0,
            r.reset_error_count == 0,
            r.log@.len() == 0,
    {
        ScriptedDevice {
            transport,
            identity,
            irq_pending,
            read_error_count: 0,
            write_error_count: 0,
            tick_error_count: 0,
            reset_error_count: 0,
            log: Vec::new(),
        }
    }

    /// The identity that was read when the plugin was loaded.
    pub fn identity(&self) -> (r: PluginIdentity)
        ensures
            r == self.identity,
    {
        self.identity
    }

    /// Puts the freshly loaded `fresh` in place of the plugin. Its pending
    /// interrupt comes with it, and errors are counted anew.
    pub fn reload(&mut self, fresh: ScriptedDevice<T>)
        ensures
            final(self).transport == fresh.transport,
            final(self).identity == fresh.identity,
            final(self).irq_pending == fresh.irq_pending,
            final(self).read_error_count == 0,
            final(self).write_error_count == 0,
            final(self).tick_error_count == 0,
            final(self).reset_error_count == 0,
            final(self).log@ == old(self).log@,
    {
        self.transport = fresh.transport;
        self.identity = fresh.identity;
        self.irq_pending = fresh.irq_pending;
        self.read_error_count = 0;
        self.write_error_count = 0;
        self.tick_error_count = 0;
        self.reset_error_count = 0;
    }

    /// Records that the plugin asked for an interrupt on its own.
    pub fn raise_irq(&mut self)
        ensures
            *final(self) == (ScriptedDevice { irq_pending: true, ..*old(self) }),
    {
        self.irq_pending = true;
    }

    /// The lines to log since the last call.
    pub fn take_log(&mut self) -> (r: Vec<String>)
        ensures
            r@ == old(self).log@,
            *final(self) == (ScriptedDevice { log: final(self).log, ..*old(self) }),
            final(self).log@.len() == 0,
    {
        let mut out: Vec<String> = Vec::new();
        core::mem::swap(&mut out, &mut self.log);
        out
    }

    fn note(&mut self, line: Option<String>)
        ensures
            *final(self) == (ScriptedDevice { log: final(self).log, ..*old(self) }),
            match line {
                Some(l) => final(self).lines() == old(self).lines().push(l@),
                None => final(self).log@ == old(self).log@,
            },
    {
        if let Some(l) = line {
            let ghost text = l@;
            self.log.push(l);
            assert(self.lines() =~= old(self).lines().push(text));
        }
    }
}

impl<T: PluginTransport> Device for ScriptedDevice<T> {
    open spec fn reads(pre: Self, post: Self, offset: u64, before: Seq<u8>, after: Seq<u8>) -> bool {
        &&& post.same_but_reading(pre)
        &&& exists|filled: Seq<u8>, err: Option<Seq<char>>|
            #[trigger] T::reads(pre.transport, post.transport, offset, zeroes(before.len()), filled, err)
            && after == (if err is None { filled } else { zeroes(before.len()) })
            && (post.read_error_count, post.lines()) == noted(pre.read_error_count, pre.lines(), err)
    }

    open spec fn writes(pre: Self, post: Self, offset: u64, data: Seq<u8>, irq: bool) -> bool {
        &&& post.same_but_writing(pre)
        &&& exists|answer: Result<bool, Seq<char>>|
            #[trigger] T::writes(pre.transport, post.transport, offset, data, answer)
            && irq == (answer == Ok::<bool, Seq<char>>(true))
            && (post.write_error_count, post.lines()) == noted(
                pre.write_error_count,
                pre.lines(),
                match answer {
                    Ok(_) => None,
                    Err(m) => Some(m),
                },
            )
    }

    fn read(&mut self, offset: u64, data: &mut [u8]) {
        fill(data, 0);
        assert(data@ =~= zeroes(old(data)@.len()));
        let r = self.transport.call_read(offset, data);
        let ghost filled = data@;
        match r {
            Ok(_) => {
                assert(T::reads(old(self).transport, self.transport, offset, zeroes(old(data)@.len()), filled, None));
            },
            Err(msg) => {
                fill(data, 0);
                assert(data@ =~= zeroes(old(data)@.len()));
                let line = rate_limited_log(&mut self.read_error_count, msg.as_str());
                self.note(line);
                assert(T::reads(old(self).transport, self.transport, offset, zeroes(old(data)@.len()), filled, Some(msg@)));
            },
        }
    }

    fn write(&mut self, offset: u64, data: &[u8]) -> (irq: bool) {
        match self.transport.call_write(offset, data) {
            Ok(wants_irq) => {
                assert(T::writes(old(self).transport, self.transport, offset, data@, Ok(wants_irq)));
                wants_irq
            },
            Err(msg) => {
                let line = rate_limited_log(&mut self.write_error_count, msg.as_str());
                self.note(line);
                assert(T::writes(old(self).transport, self.transport, offset, data@, Err(msg@)));
                false
            },
        }
    }

    fn take_pending_irq(&mut self) -> (r: bool)
        ensures
            r == old(self).irq_pending,
            *final(self) == (ScriptedDevice { irq_pending: false, ..*old(self) }),
    {
        let r = self.irq_pending;
        self.irq_pending = false;
        r
    }

    fn tick(&mut self)
        ensures
            exists|defined: bool|
                #[trigger] call_ensures(T::has_tick, (&old(self).transport,), defined) && (!defined ==> *final(self)
                    == *old(self)) && (defined ==> old(self).ticked(*final(self))),
    {
        let defined = self.transport.has_tick();
        assert(call_ensures(T::has_tick, (&old(self).transport,), defined));
        if !defined {
            return;
        }
        match self.transport.call_tick() {
            Ok(_) => {
                assert(T::ticks(old(self).transport, self.transport, None));
            },
            Err(msg) => {
                let line = rate_limited_log(&mut self.tick_error_count, msg.as_str());
                self.note(line);
                assert(T::ticks(old(self).transport, self.transport, Some(msg@)));
            },
        }
    }

    fn reset(&mut self)
        ensures
            exists|defined: bool|
                #[trigger] call_ensures(T::has_reset, (&old(self).transport,), defined) && (!defined ==> *final(self)
                    == *old(self)) && (defined ==> old(self).was_reset(*final(self))),
    {
        let defined = self.transport.has_reset();
        assert(call_ensures(T::has_reset, (&old(self).transport,), defined));
        if !defined {
            return;
        }
        match self.transport.call_reset() {
            Ok(_) => {
                assert(T::resets(old(self).transport, self.transport, None));
            },
            Err(msg) => {
                let line = rate_limited_log(&mut self.reset_error_count, msg.as_str());
                self.note(line);
                assert(T::resets(old(self).transport, self.transport, Some(msg@)));
            },
        }
    }
}

impl<T: PluginTransport> PciDevice for ScriptedDevice<T> {
    fn vendor_id(&self) -> (r: u16)
        ensures
            r == self.identity.vendor_id,
    {
        self.identity.vendor_id
    }

    fn device_id(&self) -> (r: u16)
        ensures
            r == self.identity.device_id,
    {
        self.identity.device_id
    }

    fn class_code(&self) -> (r: u32)
        ensures
            r == self.identity.class_code,
    {
        self.identity.class_code
    }

    fn bar_sizes(&self) -> (r: [u32; 6])
        ensures
            r == self.identity.bar_sizes,
    {
        self.identity.bar_sizes
    }

    fn bar_is_io(&self, index: usize) -> (r: bool)
        ensures
            r == (index < 6 && self.identity.bar_is_io@[index as int]),
    {
        if index < NUM_BARS {
            self.identity.bar_is_io[index]
        } else {
            false
        }
    }

    fn interrupt_line(&self) -> (r: u8)
        ensures
            r == self.identity.interrupt_line,
    {
        self.identity.interrupt_line
    }

    fn msi_capable(&self) -> (r: bool)
        ensures
            r == self.identity.msi_capable,
    {
        self.identity.msi_capable
    }
}

/// Failures are all counted, and reported without flooding the log: each of the
/// first five, and after that one in a thousand, with its number. What
/// succeeds is neither counted nor reported.
pub proof fn law_failures_are_reported_sparingly(count: u64, log: Seq<Seq<char>>, msg: Seq<char>)
    requires
        count < u64::MAX,
    ensures
        noted(count, log, None) == (count, log),
        ({
            let (n, lines) = noted(count, log, Some(msg));
            &&& n == count + 1
            &&& lines == (if count < 5 || (count + 1) % 1000 == 0 {
                log.push(msg + " (occurrence #"@ + dec((count + 1) as nat) + ")"@)
            } else {
                log
            })
        }),
{
}

/// A guest that reads from a plugin gets what the plugin gave for that place,
/// if it succeeded, and zeroes otherwise. The device is else as it was.
pub proof fn law_plugin_reads<T: PluginTransport>(
    pre: ScriptedDevice<T>,
    post: ScriptedDevice<T>,
    offset: u64,
    before: Seq<u8>,
    after: Seq<u8>,
    blank: Seq<u8>,
)
    requires
        ScriptedDevice::<T>::reads(pre, post, offset, before, after),
        blank.len() == before.len(),
        forall|k: int| 0 <= k < blank.len() ==> #[trigger] blank[k] == 0,
    ensures
        post.identity == pre.identity,
        post.irq_pending == pre.irq_pending,
        post.write_error_count == pre.write_error_count,
        exists|filled: Seq<u8>, err: Option<Seq<char>>|
            {
                &&& #[trigger] T::reads(
                    pre.transport,
                    post.transport,
                    offset,
                    blank,
                    filled,
                    err,
                )
                &&& err is None ==> after == filled && post.read_error_count == pre.read_error_count && post.lines()
                    == pre.lines()
                &&& err is Some ==> after.len() == before.len() && (forall|k: int|
                    0 <= k < before.len() ==> #[trigger] after[k] == 0) && (pre.read_error_count < u64::MAX ==>
                    post.read_error_count == pre.read_error_count + 1)
            },
{
    assert(zeroes(before.len()) =~= blank);
}

/// A guest that writes to a plugin has the plugin's own code handle the data at
/// that place, and gets an interrupt if and only if that code asked for one.
pub proof fn law_plugin_writes<T: PluginTransport>(
    pre: ScriptedDevice<T>,
    post: ScriptedDevice<T>,
    offset: u64,
    data: Seq<u8>,
    irq: bool,
)
    requires
        ScriptedDevice::<T>::writes(pre, post, offset, data, irq),
    ensures
        post.identity == pre.identity,
        post.irq_pending == pre.irq_pending,
        post.read_error_count == pre.read_error_count,
        exists|answer: Result<bool, Seq<char>>|
            {
                &&& #[trigger] T::writes(pre.transport, post.transport, offset, data, answer)
                &&& irq <==> answer == Ok::<bool, Seq<char>>(true)
                &&& answer is Ok ==> post.write_error_count == pre.write_error_count && post.lines() == pre.lines()
                &&& answer is Err && pre.write_error_count < u64::MAX ==> post.write_error_count
                    == pre.write_error_count + 1
            },
{
}

/// Ticking and resetting reach the plugin's own code, and what goes wrong there
/// is counted on its own.
pub proof fn law_plugin_ticks_and_resets<T: PluginTransport>(pre: ScriptedDevice<T>, post: ScriptedDevice<T>)
    ensures
        pre.ticked(post) ==> post.identity == pre.identity && post.reset_error_count == pre.reset_error_count && exists|
            err: Option<Seq<char>>,
        | #[trigger] T::ticks(pre.transport, post.transport, err) && (err is None ==> post.tick_error_count
            == pre.tick_error_count),
        pre.was_reset(post) ==> post.identity == pre.identity && post.tick_error_count == pre.tick_error_count
            && exists|err: Option<Seq<char>>| #[trigger]
            T::resets(pre.transport, post.transport, err) && (err is None ==> post.reset_error_count
                == pre.reset_error_count),
{
}

} // verus!
