//! Cloning a running guest into a process of its own: when that can be done,
//! what the clone is started with, and what follows each outcome.

use vstd::prelude::*;
use vstd::string::*;

use crate::config::{Args, ArgsView};
use crate::snapshot::{capture_error, validate_capturable};
use crate::text::cat2;

verus! {

/// Whether this guest can be cloned.
pub fn validate_forkable(args: &Args) -> (r: Result<(), String>)
    ensures
        match r {
            Ok(_) => capture_error(args@, "fork"@) is None,
            Err(e) => capture_error(args@, "fork"@) == Some(e@),
        },
{
    validate_capturable(args, "fork")
}

/// What the clone is started with: everything as it is, a control socket of
/// its own, and nothing that cannot be shared with its parent.
pub fn child_args(args: Args, control_socket: String) -> (r: Args)
    ensures
        r@ == (ArgsView {
            control_socket: Some(control_socket@),
            restore: None,
            migrate_listen: None,
            record: None,
            replay: None,
            gdb_stub: None,
            trace_file: None,
            ..args@
        }),
{
    let mut a = args;
    a.control_socket = Some(control_socket);
    a.restore = None;
    a.migrate_listen = None;
    a.record = None;
    a.replay = None;
    a.gdb_stub = None;
    a.trace_file = None;
    a
}

/// What follows a request to clone, once the thread that waits for host input
/// was asked to park.
#[derive(Debug)]
pub enum ForkStep {
    /// It did not park: do not clone, and reply with this error.
    Refuse(String),
    /// It parked: clone now.
    Clone,
}

/// Decides whether to clone.
pub fn before_fork(parked: bool) -> (r: ForkStep)
    ensures
        if parked {
            r is Clone
        } else {
            r matches ForkStep::Refuse(e) && e@
                == "reactor thread did not pause in time; refusing to fork"@
        },
{
    if parked {
        ForkStep::Clone
    } else {
        ForkStep::Refuse("reactor thread did not pause in time; refusing to fork".to_owned())
    }
}

/// What a process does after the call that clones it.
#[derive(Debug)]
pub enum AfterFork {
    /// The parent: let the parked thread go on, and reply.
    Parent(Result<i32, String>),
    /// The clone: become a guest of its own.
    Child,
}

/// Decides what to do after the call that clones returned `pid`; `error` is
/// why, if it failed.
pub fn after_fork(pid: i32, error: &str) -> (r: AfterFork)
    ensures
        if pid < 0 {
            r matches AfterFork::Parent(Err(e)) && e@ == "fork() failed: "@ + error@
        } else if pid > 0 {
            r == AfterFork::Parent(Ok(pid))
        } else {
            r is Child
        },
{
    if pid < 0 {
        AfterFork::Parent(Err(cat2("fork() failed: ", error)))
    } else if pid > 0 {
        AfterFork::Parent(Ok(pid))
    } else {
        AfterFork::Child
    }
}

/// A forked guest goes on with the arguments of its parent, but for its own
/// control socket, and for what only the first of a family may do: restoring,
/// recording, replaying, being debugged and being traced.
pub proof fn law_a_child_is_like_its_parent(args: Args, control_socket: String, r: Args)
    requires
        call_ensures(child_args, (args, control_socket), r),
    ensures
        r@.control_socket == Some(control_socket@),
        r@.kernel == args@.kernel,
        r@.mem_mb == args@.mem_mb,
        r@.smp == args@.smp,
        r@.cmdline == args@.cmdline,
        r@.disks == args@.disks,
        r@.net == args@.net,
        r@.initrd == args@.initrd,
        r@.vsock_uds == args@.vsock_uds,
        r@.crash_dir == args@.crash_dir,
        r@.restore is None && r@.migrate_listen is None && r@.record is None && r@.replay is None,
        r@.gdb_stub is None && r@.trace_file is None,
{
}

/// The parent learns the child's number, the child that it is one, and a
/// failure is an error; and nothing is cloned before the other thread rests.
pub proof fn law_forking(pid: i32, error: &str, r: AfterFork, parked: bool, s: ForkStep)
    requires
        call_ensures(after_fork, (pid, error), r),
        call_ensures(before_fork, (parked,), s),
    ensures
        r is Child <==> pid == 0,
        pid > 0 ==> r == AfterFork::Parent(Ok(pid)),
        pid < 0 ==> (r matches AfterFork::Parent(Err(_))),
        s is Clone <==> parked,
{
}

} // verus!
