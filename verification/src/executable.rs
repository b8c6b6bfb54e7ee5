//! Tool runners behind a common interface: the results they give, their
//! errors and how both read, and the decisions of their polling loop.
use vstd::prelude::*;
use crate::runner::{IoKind, exit_code_of};
use crate::text::{decimal, signed_decimal};

verus! {

/// How a tool run ended.
#[derive(Debug)]
pub enum ToolResult {
    /// It exited with 0 after this many nanoseconds, having printed this.
    Success { stdout: String, elapsed_nanos: u128 },
    /// It exited with another code.
    Failure { stderr: String, exit_code: i32 },
    /// It was killed after running this many nanoseconds.
    Timeout { elapsed_nanos: u128 },
}

/// The text that describes a result, given its time in seconds as already
/// written out.
pub open spec fn result_text(result: ToolResult, seconds: Seq<char>) -> Seq<char> {
    match result {
        ToolResult::Success { stdout, .. } => "Success in "@ + seconds + "s - stdout: "@ + stdout@,
        ToolResult::Failure { stderr, exit_code } => "Failure (exit "@ + signed_decimal(
            exit_code as int,
        ) + ") - stderr: "@ + stderr@,
        ToolResult::Timeout { .. } => "Timeout after "@ + seconds + "s"@,
    }
}

impl ToolResult {
    /// Describes the result. `seconds` is its time in seconds (how long a
    /// successful run took, or after how long a run was killed), written
    /// with two decimals.
    pub fn describe(&self, seconds: &str) -> (r: String)
        ensures
            r@ == result_text(*self, seconds@),
    {
        match self {
            ToolResult::Success { stdout, .. } => crate::text::concat4(
                "Success in ",
                seconds,
                "s - stdout: ",
                stdout.as_str(),
            ),
            ToolResult::Failure { stderr, exit_code } => {
                let c = crate::text::i64_text(*exit_code as i64);
                crate::text::concat4("Failure (exit ", c.as_str(), ") - stderr: ", stderr.as_str())
            },
            ToolResult::Timeout { .. } => crate::text::concat3("Timeout after ", seconds, "s"),
        }
    }
}

/// Why a tool could not be run.
#[derive(Debug)]
pub enum ToolError {
    NotFound(String),
    PermissionDenied(String),
    ExecutionFailed(String),
}

/// The text that describes an error.
pub open spec fn error_text(e: ToolError) -> Seq<char> {
    match e {
        ToolError::NotFound(m) => "NotFound: "@ + m@,
        ToolError::PermissionDenied(m) => "PermissionDenied: "@ + m@,
        ToolError::ExecutionFailed(m) => "ExecutionFailed: "@ + m@,
    }
}

impl ToolError {
    /// The error for an operating system error of a given class.
    pub fn from_kind(kind: IoKind, message: String) -> (r: ToolError)
        ensures
            kind is NotFound ==> r == ToolError::NotFound(message),
            kind is PermissionDenied ==> r == ToolError::PermissionDenied(message),
            kind is Other ==> r == ToolError::ExecutionFailed(message),
    {
        match kind {
            IoKind::NotFound => ToolError::NotFound(message),
            IoKind::PermissionDenied => ToolError::PermissionDenied(message),
            IoKind::Other => ToolError::ExecutionFailed(message),
        }
    }

    /// Describes the error: its kind, a colon, and the message.
    pub fn describe(&self) -> (r: String)
        ensures
            r@ == error_text(*self),
    {
        match self {
            ToolError::NotFound(m) => crate::text::concat2("NotFound: ", m.as_str()),
            ToolError::PermissionDenied(m) => crate::text::concat2("PermissionDenied: ", m.as_str()),
            ToolError::ExecutionFailed(m) => crate::text::concat2("ExecutionFailed: ", m.as_str()),
        }
    }
}

/// The description of a runner: its name followed by ` runner`.
pub fn description(name: &str) -> (r: String)
    ensures
        r@ == name@ + " runner"@,
{
    crate::text::concat2(name, " runner")
}

/// What asking a running tool for its status gave.
#[derive(Debug)]
pub enum RunEvent {
    /// It has exited with this code (none when a signal ended it), having
    /// printed this; this many nanoseconds have passed since the start.
    Exited { code: Option<i32>, stdout: String, stderr: String, elapsed_nanos: u128 },
    /// It is still running, this many nanoseconds after the start.
    Running { elapsed_nanos: u128 },
    /// Asking failed.
    WaitFailed(String),
}

/// What to do after a poll.
#[derive(Debug)]
pub enum RunStep {
    Finished(Result<ToolResult, ToolError>),
    Sleep,
    /// Kill the process, then report a timeout.
    Kill,
}

/// The next step of a run allowed `timeout_nanos` nanoseconds.
pub fn runner_step(event: RunEvent, timeout_nanos: u128) -> (r: RunStep)
    ensures
        event matches RunEvent::Exited { code, stdout, stderr, elapsed_nanos } ==> (if exit_code_of(
            code,
        ) == 0 {
            r == RunStep::Finished(Ok(ToolResult::Success { stdout, elapsed_nanos }))
        } else {
            r == RunStep::Finished(
                Ok(ToolResult::Failure { stderr, exit_code: exit_code_of(code) }),
            )
        }),
        event matches RunEvent::Running { elapsed_nanos } ==> (if elapsed_nanos > timeout_nanos {
            r is Kill
        } else {
            r is Sleep
        }),
        event matches RunEvent::WaitFailed(e) ==> r == RunStep::Finished(
            Err::<ToolResult, ToolError>(ToolError::ExecutionFailed(e)),
        ),
{
    match event {
        RunEvent::Exited { code, stdout, stderr, elapsed_nanos } => {
            let exit_code = match code {
                Some(c) => c,
                None => -1i32,
            };
            if exit_code != 0 {
                return RunStep::Finished(Ok(ToolResult::Failure { stderr, exit_code }));
            }
            RunStep::Finished(Ok(ToolResult::Success { stdout, elapsed_nanos }))
        },
        RunEvent::Running { elapsed_nanos } => {
            if elapsed_nanos > timeout_nanos {
                RunStep::Kill
            } else {
                RunStep::Sleep
            }
        },
        RunEvent::WaitFailed(e) => RunStep::Finished(Err(ToolError::ExecutionFailed(e))),
    }
}

/// A tool that can be run and described.
pub trait Executable {
    /// The tool's name.
    fn name(&self) -> &str;

    /// Runs the tool.
    fn run(&self) -> Result<ToolResult, ToolError>;

    /// The tool's description: a name that `name` gives for this tool,
    /// followed by ` runner`.
    fn description(&self) -> (r: String)
        ensures
            exists|n: &str| call_ensures(Self::name, (self,), n) && r@ == n@ + " runner"@,
    {
        let n = self.name();
        let r = description(n);
        assert(call_ensures(Self::name, (self,), n));
        r
    }
}

/// What asking a tool for its name and description, and running it, may
/// give.
pub trait Outcomes {
    /// Whether `name` may give this text.
    spec fn may_be_named(&self, name: Seq<char>) -> bool;

    /// Whether `description` may give this text.
    spec fn may_describe(&self, description: Seq<char>) -> bool;

    /// Whether running the tool may give `outcome`.
    spec fn may_give(&self, outcome: Result<ToolResult, ToolError>) -> bool;
}

impl<T: Executable + ?Sized> Outcomes for T {
    open spec fn may_be_named(&self, name: Seq<char>) -> bool {
        exists|n: &str| call_ensures(T::name, (self,), n) && n@ == name
    }

    open spec fn may_describe(&self, description: Seq<char>) -> bool {
        exists|d: String| call_ensures(T::description, (self,), d) && d@ == description
    }

    open spec fn may_give(&self, outcome: Result<ToolResult, ToolError>) -> bool {
        call_ensures(T::run, (self,), outcome)
    }
}

/// Asks one tool for its name and description, then runs it.
fn report_on<T: Executable + ?Sized>(tool: &T) -> (r: RunReport)
    ensures
        tool.may_be_named(r.name@),
        tool.may_describe(r.description@),
        tool.may_give(r.outcome),
{
    let n = tool.name();
    let name = n.to_owned();
    assert(call_ensures(T::name, (tool,), n));
    let description = tool.description();
    assert(call_ensures(T::description, (tool,), description));
    let outcome = tool.run();
    RunReport { name, description, outcome }
}

/// What running one tool gave: its name, its description and its outcome.
#[derive(Debug)]
pub struct RunReport {
    pub name: String,
    pub description: String,
    pub outcome: Result<ToolResult, ToolError>,
}

/// Runs each tool in turn and reports on it, in order.
pub fn run_all(tools: Vec<Box<dyn Executable>>) -> (r: Vec<RunReport>)
    ensures
        r@.len() == tools@.len(),
        forall|i: int|
            0 <= i < tools@.len() ==> {
                &&& tools@[i].may_be_named(#[trigger] r@[i].name@)
                &&& tools@[i].may_describe(r@[i].description@)
                &&& tools@[i].may_give(r@[i].outcome)
            },
{
    let mut reports: Vec<RunReport> = Vec::new();
    let n = tools.len();
    let mut i: usize = 0;
    while i < n
        invariant
            i <= n,
            n == tools@.len(),
            reports@.len() == i,
            forall|k: int|
                0 <= k < i ==> {
                    &&& tools@[k].may_be_named(#[trigger] reports@[k].name@)
                    &&& tools@[k].may_describe(reports@[k].description@)
                    &&& tools@[k].may_give(reports@[k].outcome)
                },
        decreases n - i,
    {
        let report = report_on(&*tools[i]);
        reports.push(report);
        i = i + 1;
    }
    reports
}

/// What the report of a run shows of its outcome, given the run's time in
/// seconds as already written out.
pub open spec fn outcome_text(outcome: Result<ToolResult, ToolError>, seconds: Seq<char>) -> Seq<char> {
    match outcome {
        Ok(ToolResult::Success { stdout, .. }) => "Success in "@ + seconds + "s\nstdout: "@ + stdout@
            + "\n\n"@,
        Ok(ToolResult::Failure { stderr, exit_code }) => "Failure (exit "@ + signed_decimal(
            exit_code as int,
        ) + ")\nstderr: "@ + stderr@ + "\n\n"@,
        Ok(ToolResult::Timeout { .. }) => "TIMEOUT after "@ + seconds + "s\n\n"@,
        Err(e) => error_text(e) + "\n\n"@,
    }
}

/// The report of one run: the line `Running: ` with the tool's description,
/// then what the run gave. `seconds` is the run's time in seconds (the time
/// a successful run took, or the time after which it was killed), written
/// with two decimals.
pub fn tool_report(description: &str, outcome: &Result<ToolResult, ToolError>, seconds: &str) -> (r: String)
    ensures
        r@ == "Running: "@ + description@ + "\n"@ + outcome_text(*outcome, seconds@),
{
    let mut r = crate::text::concat3("Running: ", description, "\n");
    let ghost head = r@;
    match outcome {
        Ok(ToolResult::Success { stdout, .. }) => {
            r.append("Success in ");
            r.append(seconds);
            r.append("s\nstdout: ");
            r.append(stdout.as_str());
            r.append("\n\n");
        },
        Ok(ToolResult::Failure { stderr, exit_code }) => {
            r.append("Failure (exit ");
            let c = crate::text::i64_text(*exit_code as i64);
            r.append(c.as_str());
            r.append(")\nstderr: ");
            r.append(stderr.as_str());
            r.append("\n\n");
        },
        Ok(ToolResult::Timeout { .. }) => {
            r.append("TIMEOUT after ");
            r.append(seconds);
            r.append("s\n\n");
        },
        Err(e) => {
            let t = e.describe();
            r.append(t.as_str());
            r.append("\n\n");
        },
    }
    assert(r@ =~= head + outcome_text(*outcome, seconds@));
    r
}

/// The line that reports starting `cmd`: the process id of the started
/// process, or the error that starting it gave.
pub fn print_result(cmd: &str, output: &Result<u32, ToolError>) -> (r: String)
    ensures
        *output matches Ok(pid) ==> r@ == cmd@ + ": spwaned successfully (PID: "@ + decimal(pid as nat)
            + ")"@,
        *output matches Err(e) ==> r@ == cmd@ + ": "@ + error_text(e),
{
    let mut r = crate::text::concat2(cmd, ": ");
    match output {
        Ok(pid) => {
            r.append("spwaned successfully (PID: ");
            crate::text::push_decimal(&mut r, *pid as u64);
            r.append(")");
            proof {
                reveal_strlit(": ");
                reveal_strlit("spwaned successfully (PID: ");
                reveal_strlit(": spwaned successfully (PID: ");
            }
        },
        Err(e) => {
            let t = e.describe();
            r.append(t.as_str());
        },
    }
    r
}

} // verus!
