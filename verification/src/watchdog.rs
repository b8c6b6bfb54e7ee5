//! The decisions of a tool runner that enforces a timeout by polling.
//!
//! The caller starts the process and then, in a loop, asks whether it has
//! exited; each answer is an event, and `poll_step` says what to do next:
//! finish with a result, sleep and ask again, or kill the process because it
//! ran too long.
use vstd::prelude::*;
use crate::runner::{IoKind, exit_code_of};
use crate::text::signed_decimal;

verus! {

/// What a finished tool printed, its exit code, and how many nanoseconds
/// the run took.
#[derive(Debug)]
pub struct ToolOutput {
    pub exit_code: i32,
    pub stdout: String,
    pub stderr: String,
    pub duration_nanos: u128,
}

/// Why a tool run failed.
#[derive(Debug)]
pub enum ToolError {
    NotFound(String),
    PermissionDenied(String),
    ExecutionFailed(String),
    NonZeroExit { exit_code: i32, stderr: String },
    /// It was killed after running this many nanoseconds.
    Timeout { elapsed_nanos: u128 },
}

/// The error for a program that could not be started.
pub fn spawn_error(kind: IoKind, message: String) -> (r: ToolError)
    ensures
        kind is NotFound ==> r == ToolError::NotFound(message),
        kind is PermissionDenied ==> r == ToolError::PermissionDenied(message),
        kind is Other ==> r == ToolError::ExecutionFailed(message),
{
    match kind {
        IoKind::NotFound => ToolError::NotFound(message),
        IoKind::PermissionDenied => ToolError::PermissionDenied(message),
        IoKind::Other => ToolError::ExecutionFailed(message),
    }
}

/// What asking a running process for its status gave.
#[derive(Debug)]
pub enum Poll {
    /// It has exited, with this code (none when a signal ended it), having
    /// printed this; this many nanoseconds have passed since it was started,
    /// counted once its output was read.
    Exited { code: Option<i32>, stdout: String, stderr: String, elapsed_nanos: u128 },
    /// It is still running, this many nanoseconds after it was started.
    Running { elapsed_nanos: u128 },
    /// Asking failed.
    WaitFailed(String),
}

/// What to do after a poll.
#[derive(Debug)]
pub enum Step {
    /// The run is over, with this result.
    Finished(Result<ToolOutput, ToolError>),
    /// Wait a little and poll again.
    Sleep,
    /// The run took longer than allowed: kill the process, then report a
    /// timeout.
    Kill,
}

/// The next step of a run allowed `timeout_nanos` nanoseconds.
pub fn poll_step(event: Poll, timeout_nanos: u128) -> (r: Step)
    ensures
        event matches Poll::Exited { code, stdout, stderr, elapsed_nanos } ==> (if exit_code_of(
            code,
        ) == 0 {
            r == Step::Finished(Ok(ToolOutput { exit_code: 0, stdout, stderr, duration_nanos: elapsed_nanos }))
        } else {
            r == Step::Finished(Err(ToolError::NonZeroExit { exit_code: exit_code_of(code), stderr }))
        }),
        event matches Poll::Running { elapsed_nanos } ==> (if elapsed_nanos > timeout_nanos {
            r is Kill
        } else {
            r is Sleep
        }),
        event matches Poll::WaitFailed(e) ==> r == Step::Finished(
            Err::<ToolOutput, ToolError>(ToolError::ExecutionFailed(e)),
        ),
{
    match event {
        Poll::Exited { code, stdout, stderr, elapsed_nanos } => {
            let exit_code = match code {
                Some(c) => c,
                None => -1i32,
            };
            if exit_code != 0 {
                return Step::Finished(Err(ToolError::NonZeroExit { exit_code, stderr }));
            }
            Step::Finished(Ok(ToolOutput { exit_code, stdout, stderr, duration_nanos: elapsed_nanos }))
        },
        Poll::Running { elapsed_nanos } => {
            if elapsed_nanos > timeout_nanos {
                Step::Kill
            } else {
                Step::Sleep
            }
        },
        Poll::WaitFailed(e) => Step::Finished(Err(ToolError::ExecutionFailed(e))),
    }
}

/// What a report shows of a result, given the run's time in seconds as
/// already written out (the time a successful run took, or the time after
/// which a run was killed).
pub open spec fn output_body(result: Result<ToolOutput, ToolError>, seconds: Seq<char>) -> Seq<char> {
    match result {
        Ok(out) => "Success (exit "@ + signed_decimal(out.exit_code as int) + ") in "@ + seconds
            + "s\nstdout: "@ + out.stdout@ + "\n"@,
        Err(ToolError::NotFound(e)) => "NotFound: "@ + e@ + "\n"@,
        Err(ToolError::PermissionDenied(e)) => "PermissionDenied: "@ + e@ + "\n"@,
        Err(ToolError::Timeout { .. }) => "TIMEOUT after "@ + seconds + "s\n"@,
        Err(ToolError::ExecutionFailed(e)) => "ExecutionFailed: "@ + e@ + "\n"@,
        Err(ToolError::NonZeroExit { exit_code, stderr }) => "Exit code: "@ + signed_decimal(
            exit_code as int,
        ) + "\nstderr: "@ + stderr@ + "\n"@,
    }
}

/// The report of one run of `cmd` that was allowed `timeout_secs` seconds:
/// a header line between empty lines, then what the run gave. `seconds` is
/// the run's time in seconds, written with two decimals.
pub fn output_report(
    result: &Result<ToolOutput, ToolError>,
    cmd: &str,
    timeout_secs: i32,
    seconds: &str,
) -> (r: String)
    ensures
        r@ == "\n--- "@ + cmd@ + " ("@ + signed_decimal(timeout_secs as int) + "s timeout) ---\n\n"@
            + output_body(*result, seconds@),
{
    let mut r = crate::text::concat2("\n--- ", cmd);
    r.append(" (");
    let t = crate::text::i64_text(timeout_secs as i64);
    r.append(t.as_str());
    r.append("s timeout) ---\n\n");
    let ghost head = r@;
    match result {
        Ok(out) => {
            r.append("Success (exit ");
            let c = crate::text::i64_text(out.exit_code as i64);
            r.append(c.as_str());
            r.append(") in ");
            r.append(seconds);
            r.append("s\nstdout: ");
            r.append(out.stdout.as_str());
            r.append("\n");
        },
        Err(ToolError::NotFound(e)) => {
            r.append("NotFound: ");
            r.append(e.as_str());
            r.append("\n");
        },
        Err(ToolError::PermissionDenied(e)) => {
            r.append("PermissionDenied: ");
            r.append(e.as_str());
            r.append("\n");
        },
        Err(ToolError::Timeout { .. }) => {
            r.append("TIMEOUT after ");
            r.append(seconds);
            r.append("s\n");
        },
        Err(ToolError::ExecutionFailed(e)) => {
            r.append("ExecutionFailed: ");
            r.append(e.as_str());
            r.append("\n");
        },
        Err(ToolError::NonZeroExit { exit_code, stderr }) => {
            r.append("Exit code: ");
            let c = crate::text::i64_text(*exit_code as i64);
            r.append(c.as_str());
            r.append("\nstderr: ");
            r.append(stderr.as_str());
            r.append("\n");
        },
    }
    assert(r@ =~= head + output_body(*result, seconds@));
    r
}

} // verus!
