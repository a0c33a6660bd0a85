//! Moving a running guest to another process: when that can be done, and what
//! follows each outcome. A guest whose transfer failed keeps running.

use vstd::prelude::*;
use vstd::string::*;

use crate::config::Args;
use crate::error::{request_exit, ExitSlot, GuestExit};
use crate::snapshot::{capture_error, validate_capturable};

verus! {

/// Whether this guest can be moved.
pub fn validate_migratable(args: &Args) -> (r: Result<(), String>)
    ensures
        match r {
            Ok(_) => capture_error(args@, "migrate"@) is None,
            Err(e) => capture_error(args@, "migrate"@) == Some(e@),
        },
{
    validate_capturable(args, "migrate")
}

/// What follows a request to move, once the thread that waits for host input
/// was asked to park.
pub fn before_transfer(parked: bool) -> (r: Result<(), String>)
    ensures
        match r {
            Ok(_) => parked,
            Err(e) => !parked && e@ == "reactor thread did not pause in time; refusing to migrate"@,
        },
{
    if parked {
        Ok(())
    } else {
        Err("reactor thread did not pause in time; refusing to migrate".to_owned())
    }
}

/// What follows a transfer. If it succeeded, the run ends here; if not, the
/// guest is let go on, as if nothing had been tried. Returns whether the
/// parked thread is to go on, and the reply.
pub fn after_transfer(result: Result<(), String>, exit: &mut ExitSlot) -> (r: (bool, Result<(), String>))
    ensures
        match result {
            Ok(_) => {
                &&& !r.0
                &&& r.1 is Ok
                &&& final(exit)@ == (if old(exit)@ is Some {
                    old(exit)@
                } else {
                    Some(Ok::<GuestExit, crate::error::HyperbugError>(GuestExit::MigratedAway))
                })
            },
            Err(e) => {
                &&& r.0
                &&& r.1 matches Err(m) && m@ == e@
                &&& final(exit)@ == old(exit)@
            },
        },
{
    match result {
        Ok(_) => {
            request_exit(exit, Ok(GuestExit::MigratedAway));
            (false, Ok(()))
        },
        Err(e) => (true, Err(e)),
    }
}

/// A guest that was sent away stops here, and one that could not be sent runs
/// on as if nothing had happened. Nothing is sent before the other thread
/// rests.
pub proof fn law_a_guest_runs_in_one_place(
    result: Result<(), String>,
    exit: &mut ExitSlot,
    r: (bool, Result<(), String>),
    parked: bool,
    b: Result<(), String>,
)
    requires
        call_ensures(after_transfer, (result, exit), r),
        call_ensures(before_transfer, (parked,), b),
    ensures
        r.0 <==> result is Err,
        r.1 is Ok <==> result is Ok,
        result is Ok ==> final(exit)@ is Some,
        result is Ok && old(exit)@ is None ==> final(exit)@ == Some(
            Ok::<GuestExit, crate::error::HyperbugError>(GuestExit::MigratedAway),
        ),
        result is Err ==> final(exit)@ == old(exit)@,
        b is Ok <==> parked,
{
}

} // verus!
