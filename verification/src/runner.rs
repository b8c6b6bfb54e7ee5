//! The decisions of a one-shot tool runner: how a launch failure or an exit
//! status becomes a result, and how a result is reported.
//!
//! The process itself is started by the caller, which hands in what the
//! operating system answered.
use vstd::prelude::*;
use crate::text::signed_decimal;

verus! {

/// What a finished tool printed, and its exit code.
#[derive(Debug)]
pub struct ToolOutput {
    pub stdout: String,
    pub stderr: String,
    pub exit_code: i32,
}

/// Why a tool run failed.
#[derive(Debug)]
pub enum ToolError {
    /// The program does not exist.
    NotFound(String),
    /// The operating system refused to run it for another reason.
    ExecutionFailed(String),
    /// It ran and exited with a code other than 0.
    NonZeroExit { exit_code: i32, stderr: String },
}

/// The class of an operating system error.
#[derive(Debug)]
pub enum IoKind {
    NotFound,
    PermissionDenied,
    Other,
}

/// The error for a program that could not be started.
pub fn launch_error(kind: IoKind, message: String) -> (r: ToolError)
    ensures
        kind is NotFound ==> r == ToolError::NotFound(message),
        !(kind is NotFound) ==> r == ToolError::ExecutionFailed(message),
{
    match kind {
        IoKind::NotFound => ToolError::NotFound(message),
        _ => ToolError::ExecutionFailed(message),
    }
}

/// The exit code of a finished program: its code, or -1 when a signal ended
/// it.
pub open spec fn exit_code_of(code: Option<i32>) -> i32 {
    match code {
        Some(c) => c,
        None => -1i32,
    }
}

/// The result of a finished program: its output when it exited with 0,
/// else the exit code and what it printed on standard error.
pub fn exit_result(code: Option<i32>, stdout: String, stderr: String) -> (r: Result<ToolOutput, ToolError>)
    ensures
        exit_code_of(code) == 0 ==> r == Ok::<ToolOutput, ToolError>(ToolOutput { stdout, stderr, exit_code: 0 }),
        exit_code_of(code) != 0 ==> r == Err::<ToolOutput, ToolError>(
            ToolError::NonZeroExit { exit_code: exit_code_of(code), stderr },
        ),
{
    let exit_code = match code {
        Some(c) => c,
        None => -1i32,
    };
    if exit_code != 0 {
        return Err(ToolError::NonZeroExit { exit_code, stderr });
    }
    Ok(ToolOutput { stdout, stderr, exit_code })
}

/// What a report shows of a result.
pub open spec fn report_body(result: Result<ToolOutput, ToolError>) -> Seq<char> {
    match result {
        Ok(out) => out.stdout@,
        Err(ToolError::NotFound(e)) => "\u{274c} Not installed: "@ + e@,
        Err(ToolError::ExecutionFailed(e)) => e@,
        Err(ToolError::NonZeroExit { exit_code, stderr }) => "exit code: "@ + signed_decimal(
            exit_code as int,
        ) + "\nstderr: "@ + stderr@,
    }
}

/// The report of one tool run: a header naming the tool, what it gave, and
/// an empty line.
pub fn print_result(tool: &str, result: &Result<ToolOutput, ToolError>) -> (r: String)
    ensures
        r@ == "--- "@ + tool@ + " ---\n"@ + report_body(*result) + "\n\n"@,
{
    let mut r = crate::text::concat3("--- ", tool, " ---\n");
    match result {
        Ok(out) => r.append(out.stdout.as_str()),
        Err(ToolError::NotFound(e)) => {
            r.append("\u{274c} Not installed: ");
            r.append(e.as_str());
        },
        Err(ToolError::ExecutionFailed(e)) => r.append(e.as_str()),
        Err(ToolError::NonZeroExit { exit_code, stderr }) => {
            r.append("exit code: ");
            let code = crate::text::i64_text(*exit_code as i64);
            r.append(code.as_str());
            r.append("\nstderr: ");
            r.append(stderr.as_str());
        },
    }
    r.append("\n\n");
    r
}

/// What a command that ran to its end gave: its exit code (none when a
/// signal ended it), whether it succeeded, and what it printed.
#[derive(Debug)]
pub struct CommandOutput {
    pub code: Option<i32>,
    pub success: bool,
    pub stdout: String,
    pub stderr: String,
}

/// The details of a command run, or the error that running it gave.
pub open spec fn details_text(result: Result<CommandOutput, String>) -> Seq<char> {
    match result {
        Ok(out) => (match out.code {
            Some(c) => "Exit code: "@ + signed_decimal(c as int) + "\n"@,
            None => Seq::<char>::empty(),
        }) + "Success: "@ + (if out.success {
            "true"@
        } else {
            "false"@
        }) + "\nstdout: "@ + out.stdout@ + "\nstderr: "@ + out.stderr@ + "\n\n\n"@,
        Err(e) => "Error: "@ + e@ + "\n"@,
    }
}

/// The details of a command run: its exit code when it has one, whether it
/// succeeded and what it printed, followed by empty lines; or the error.
pub fn print_details(result: &Result<CommandOutput, String>) -> (r: String)
    ensures
        r@ == details_text(*result),
{
    match result {
        Ok(out) => {
            let mut r = String::new();
            let ghost start = r@;
            match out.code {
                Some(c) => {
                    r.append("Exit code: ");
                    let t = crate::text::i64_text(c as i64);
                    r.append(t.as_str());
                    r.append("\n");
                },
                None => {},
            }
            r.append("Success: ");
            if out.success {
                r.append("true");
            } else {
                r.append("false");
            }
            r.append("\nstdout: ");
            r.append(out.stdout.as_str());
            r.append("\nstderr: ");
            r.append(out.stderr.as_str());
            r.append("\n\n\n");
            assert(start =~= Seq::<char>::empty());
            assert(r@ =~= details_text(*result));
            r
        },
        Err(e) => crate::text::concat3("Error: ", e.as_str(), "\n"),
    }
}

} // verus!
