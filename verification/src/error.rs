//! Why a launch failed, why a run ended, and the slot in which the first of
//! several parties records the outcome.

use vstd::prelude::*;
use vstd::string::*;

use crate::text::cat3;

verus! {

/// The exit codes of a run that ended on its own.
pub const EXIT_CLEAN_SHUTDOWN: i32 = 0;

/// The guest asked to be restarted.
pub const EXIT_REQUESTED_REBOOT: i32 = 10;

/// The guest faulted beyond recovery.
pub const EXIT_TRIPLE_FAULT: i32 = 11;

/// The guest now runs elsewhere.
pub const EXIT_MIGRATED_AWAY: i32 = 13;

/// A failure, with a message.
#[derive(Clone, Debug)]
pub enum HyperbugError {
    /// Something on the host: a file, a socket, a device.
    Io(String),
    /// The hypervisor, or an exit that nothing handles.
    Kvm(String),
    /// A plugin that failed to load.
    Python(String),
    /// What the caller asked for does not work.
    Config(String),
}

impl HyperbugError {
    /// The failure in words.
    pub open spec fn words(self) -> Seq<char> {
        match self {
            HyperbugError::Io(m) => "I/O error"@ + ": "@ + m@,
            HyperbugError::Kvm(m) => "KVM error"@ + ": "@ + m@,
            HyperbugError::Python(m) => "Python device error"@ + ": "@ + m@,
            HyperbugError::Config(m) => "configuration error"@ + ": "@ + m@,
        }
    }

    /// The failure in words.
    pub fn text(&self) -> (r: String)
        ensures
            r@ == self.words(),
    {
        match self {
            HyperbugError::Io(m) => cat3("I/O error", ": ", m.as_str()),
            HyperbugError::Kvm(m) => cat3("KVM error", ": ", m.as_str()),
            HyperbugError::Python(m) => cat3("Python device error", ": ", m.as_str()),
            HyperbugError::Config(m) => cat3("configuration error", ": ", m.as_str()),
        }
    }

    /// The exit code of a process that failed so: 2 for what the caller asked
    /// for, 1 for everything else.
    pub fn exit_code(&self) -> (r: i32)
        ensures
            r == (if self is Config { 2i32 } else { 1i32 }),
    {
        match self {
            HyperbugError::Config(_) => 2,
            _ => 1,
        }
    }
}

/// Why a guest's run ended.
#[derive(Clone, Copy, Debug, PartialEq, Eq, Structural)]
pub enum GuestExit {
    CleanShutdown,
    RequestedReboot,
    TripleFault,
    /// The operator quit.
    UserQuit,
    /// The guest now runs elsewhere.
    MigratedAway,
}

impl GuestExit {
    /// The process exit code.
    pub fn code(self) -> (r: i32)
        ensures
            r == (match self {
                GuestExit::CleanShutdown => 0i32,
                GuestExit::RequestedReboot => 10i32,
                GuestExit::TripleFault => 11i32,
                GuestExit::UserQuit => 1i32,
                GuestExit::MigratedAway => 13i32,
            }),
    {
        match self {
            GuestExit::CleanShutdown => EXIT_CLEAN_SHUTDOWN,
            GuestExit::RequestedReboot => EXIT_REQUESTED_REBOOT,
            GuestExit::TripleFault => EXIT_TRIPLE_FAULT,
            GuestExit::UserQuit => 1,
            GuestExit::MigratedAway => EXIT_MIGRATED_AWAY,
        }
    }
}

/// How a run ended.
pub type Outcome = Result<GuestExit, HyperbugError>;

/// Whether two outcomes are the same, messages included.
pub open spec fn same_outcome(a: Outcome, b: Outcome) -> bool {
    match (a, b) {
        (Ok(x), Ok(y)) => x == y,
        (Err(HyperbugError::Io(m)), Err(HyperbugError::Io(n))) => m@ == n@,
        (Err(HyperbugError::Kvm(m)), Err(HyperbugError::Kvm(n))) => m@ == n@,
        (Err(HyperbugError::Python(m)), Err(HyperbugError::Python(n))) => m@ == n@,
        (Err(HyperbugError::Config(m)), Err(HyperbugError::Config(n))) => m@ == n@,
        _ => false,
    }
}

/// Where the end of a run is recorded. The first to ask for it decides.
pub struct ExitSignal {
    result: Option<Outcome>,
}

/// The slot that all parties of a run share.
pub type ExitSlot = ExitSignal;

impl View for ExitSignal {
    type V = Option<Outcome>;

    closed spec fn view(&self) -> Option<Outcome> {
        self.result
    }
}

impl ExitSignal {
    /// Whether someone asked for the end of the run.
    pub fn is_requested(&self) -> (r: bool)
        ensures
            r == (self@ is Some),
    {
        self.result.is_some()
    }

    /// The recorded outcome, once someone asked for the end of the run. It
    /// stays recorded.
    pub fn take(&self) -> (r: Option<Outcome>)
        ensures
            match (r, self@) {
                (Some(a), Some(b)) => same_outcome(a, b),
                (None, None) => true,
                _ => false,
            },
    {
        match &self.result {
            None => None,
            Some(Ok(e)) => Some(Ok(*e)),
            Some(Err(HyperbugError::Io(m))) => Some(Err(HyperbugError::Io(m.clone()))),
            Some(Err(HyperbugError::Kvm(m))) => Some(Err(HyperbugError::Kvm(m.clone()))),
            Some(Err(HyperbugError::Python(m))) => Some(Err(HyperbugError::Python(m.clone()))),
            Some(Err(HyperbugError::Config(m))) => Some(Err(HyperbugError::Config(m.clone()))),
        }
    }
}

/// A slot with nothing recorded.
pub fn new_exit_slot() -> (r: ExitSlot)
    ensures
        r@ is None,
{
    ExitSignal { result: None }
}

/// Records `result`, unless something is recorded already.
pub fn request_exit(slot: &mut ExitSlot, result: Outcome)
    ensures
        final(slot)@ == (if old(slot)@ is Some { old(slot)@ } else { Some(result) }),
{
    if slot.result.is_none() {
        slot.result = Some(result);
    }
}

/// What `slot` holds after all of `requests`, in their order.
pub open spec fn after_requests(slot: Option<Outcome>, requests: Seq<Outcome>) -> Option<Outcome>
    decreases requests.len(),
{
    if requests.len() == 0 {
        slot
    } else {
        let before = after_requests(slot, requests.drop_last());
        if before is Some {
            before
        } else {
            Some(requests.last())
        }
    }
}

/// The first writer wins: whatever is requested later, the first request into
/// an empty slot is what it holds.
pub proof fn law_first_writer_wins(requests: Seq<Outcome>)
    requires
        requests.len() > 0,
    ensures
        after_requests(None, requests) == Some(requests[0]),
    decreases requests.len(),
{
    reveal_with_fuel(after_requests, 2);
    if requests.len() > 1 {
        law_first_writer_wins(requests.drop_last());
        assert(requests.drop_last()[0] == requests[0]);
    } else {
        assert(requests.drop_last() =~= seq![]);
        assert(requests.last() == requests[0]);
    }
}

/// Outcomes count as the same only if they end the process the same way and in
/// the same words; every outcome is the same as itself.
pub proof fn law_same_outcomes(a: Outcome, b: Outcome)
    ensures
        same_outcome(a, a),
        same_outcome(a, b) ==> match (a, b) {
            (Ok(x), Ok(y)) => x == y,
            (Err(x), Err(y)) => x.words() == y.words() && (x is Io <==> y is Io) && (x is Kvm <==> y is Kvm) && (
            x is Python <==> y is Python) && (x is Config <==> y is Config),
            _ => false,
        },
{
}

/// A failure in words says what kind it is, and then its message in full.
pub proof fn law_failures_in_words(e: HyperbugError)
    ensures
        e.words() == match e {
            HyperbugError::Io(m) => "I/O error: "@ + m@,
            HyperbugError::Kvm(m) => "KVM error: "@ + m@,
            HyperbugError::Python(m) => "Python device error: "@ + m@,
            HyperbugError::Config(m) => "configuration error: "@ + m@,
        },
{
    reveal_strlit(": ");
    reveal_strlit("I/O error");
    reveal_strlit("I/O error: ");
    reveal_strlit("KVM error");
    reveal_strlit("KVM error: ");
    reveal_strlit("Python device error");
    reveal_strlit("Python device error: ");
    reveal_strlit("configuration error");
    reveal_strlit("configuration error: ");
    assert("I/O error"@ + ": "@ =~= "I/O error: "@);
    assert("KVM error"@ + ": "@ =~= "KVM error: "@);
    assert("Python device error"@ + ": "@ =~= "Python device error: "@);
    assert("configuration error"@ + ": "@ =~= "configuration error: "@);
}

/// The exit codes tell the ends of a run apart: zero only for a clean shutdown,
/// and 2 only for what the caller asked for.
pub proof fn law_exit_codes(a: GuestExit, b: GuestExit, ca: i32, cb: i32, e: &HyperbugError, ce: i32)
    requires
        call_ensures(GuestExit::code, (a,), ca),
        call_ensures(GuestExit::code, (b,), cb),
        call_ensures(HyperbugError::exit_code, (e,), ce),
    ensures
        ca == cb ==> a == b,
        ca == 0 <==> a is CleanShutdown,
        ca == 10 <==> a is RequestedReboot,
        ca == 11 <==> a is TripleFault,
        ca == 13 <==> a is MigratedAway,
        ca == 1 <==> a is UserQuit,
        ce == 2 <==> e is Config,
        ce == 1 <==> !(e is Config),
{
}

/// A slot keeps the first request and hands it out as it was made.
pub proof fn law_requests_are_kept(slot: &mut ExitSlot, result: Outcome)
    requires
        call_ensures(request_exit, (slot, result), ()),
    ensures
        old(slot)@ is None ==> final(slot)@ == Some(result),
        old(slot)@ is Some ==> final(slot)@ == old(slot)@,
{
}

} // verus!
