//! Process management: how the parent of the linking child leaves.
//!
//! Exiting from a program with large memory usage is slow -- it may take
//! a few hundred milliseconds. To hide the latency, the linker forks a
//! child that does the actual work, and the parent exits as soon as the
//! child reports over a pipe that the output is complete, or mirrors how
//! the child ended when it never does. Forking, the pipe and waiting are
//! the program's part; the decision is here.

use vstd::prelude::*;

verus! {

/// A `waitpid` status says the child exited normally (its low seven bits
/// are zero).
pub open spec fn status_exited(status: i32) -> bool {
    status & 0x7f == 0
}

/// The exit code in a `waitpid` status: its second byte.
pub open spec fn status_exit_code(status: i32) -> i32 {
    (status >> 8) & 0xff
}

/// A `waitpid` status says a signal killed the child: its low seven bits
/// hold the signal, neither zero (exited) nor 0x7f (stopped).
pub open spec fn status_signaled(status: i32) -> bool {
    status & 0x7f != 0 && status & 0x7f != 0x7f
}

/// The signal in a `waitpid` status: its low seven bits.
pub open spec fn status_signal(status: i32) -> i32 {
    status & 0x7f
}

/// Calls `libc::WIFEXITED`, which both the Linux and the Apple
/// definitions in libc compute as `(status & 0x7f) == 0`.
#[verifier::external_body]
fn wifexited(status: i32) -> (r: bool)
    ensures
        r == status_exited(status),
{
    libc::WIFEXITED(status)
}

/// Calls `libc::WEXITSTATUS`, which both the Linux and the Apple
/// definitions in libc compute as `(status >> 8) & 0xff`.
#[verifier::external_body]
fn wexitstatus(status: i32) -> (r: i32)
    ensures
        r == status_exit_code(status),
{
    libc::WEXITSTATUS(status)
}

/// Calls `libc::WIFSIGNALED`. libc computes it on Linux as
/// `((status & 0x7f) + 1) as i8 >= 2` and on Apple as "the low seven bits
/// are neither 0x7f nor zero"; both are true exactly when those bits lie
/// between 1 and 0x7e.
#[verifier::external_body]
fn wifsignaled(status: i32) -> (r: bool)
    ensures
        r == status_signaled(status),
{
    libc::WIFSIGNALED(status)
}

/// Calls `libc::WTERMSIG`, which both the Linux and the Apple definitions
/// in libc compute as `status & 0x7f`.
#[verifier::external_body]
fn wtermsig(status: i32) -> (r: i32)
    ensures
        r == status_signal(status),
{
    libc::WTERMSIG(status)
}

/// How the parent leaves.
#[derive(Debug, PartialEq, Eq, Structural)]
pub enum ParentExit {
    /// Exit with this status.
    Exit(i32),
    /// Die of this signal; should raising it return, exit with status 1.
    Raise(i32),
}

/// What the parent does once the child is done: a byte from the child
/// (`notified`) means the output is complete, and the parent exits with
/// success at once, leaving the child to exit slowly. Otherwise the child
/// ended without reporting, and the parent mirrors `status` as `waitpid`
/// gives it: the child's exit code, or the signal that killed it, or
/// failure.
pub open spec fn parent_outcome(notified: bool, status: i32) -> ParentExit {
    if notified {
        ParentExit::Exit(0)
    } else if status_exited(status) {
        ParentExit::Exit(status_exit_code(status))
    } else if status_signaled(status) {
        ParentExit::Raise(status_signal(status))
    } else {
        ParentExit::Exit(1)
    }
}

/// Decides how the parent leaves (see `parent_outcome`); `status` is
/// read only when the child did not report.
pub fn parent_exit(notified: bool, status: i32) -> (r: ParentExit)
    ensures
        r == parent_outcome(notified, status),
{
    if notified {
        return ParentExit::Exit(0);
    }
    if wifexited(status) {
        return ParentExit::Exit(wexitstatus(status));
    }
    if wifsignaled(status) {
        return ParentExit::Raise(wtermsig(status));
    }
    ParentExit::Exit(1)
}

} // verus!
