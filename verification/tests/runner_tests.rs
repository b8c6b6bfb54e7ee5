use achilles::executable::{self, description, run_all, runner_step, tool_report, Executable, RunEvent, RunStep, ToolResult};
use achilles::runner::{exit_result, launch_error, print_details, print_result, CommandOutput, IoKind, ToolError, ToolOutput};
use achilles::watchdog::{self, output_report, poll_step, spawn_error, Poll, Step};

#[test]
fn launch_errors() {
    assert!(matches!(launch_error(IoKind::NotFound, "gone".into()), ToolError::NotFound(m) if m == "gone"));
    assert!(matches!(launch_error(IoKind::PermissionDenied, "no".into()), ToolError::ExecutionFailed(m) if m == "no"));
    assert!(matches!(launch_error(IoKind::Other, "x".into()), ToolError::ExecutionFailed(m) if m == "x"));
}

#[test]
fn exit_results() {
    match exit_result(Some(0), "hello\n".into(), "".into()) {
        Ok(out) => {
            assert_eq!(out.stdout, "hello\n");
            assert_eq!(out.exit_code, 0);
        }
        Err(_) => panic!("exit 0 must succeed"),
    }
    assert!(matches!(exit_result(Some(2), "".into(), "bad".into()),
        Err(ToolError::NonZeroExit { exit_code: 2, stderr }) if stderr == "bad"));
    assert!(matches!(exit_result(None, "".into(), "killed".into()),
        Err(ToolError::NonZeroExit { exit_code: -1, .. })));
}

#[test]
fn tool_reports() {
    let ok: Result<ToolOutput, ToolError> = Ok(ToolOutput { stdout: "Linux".into(), stderr: "".into(), exit_code: 0 });
    assert_eq!(print_result("uname -a", &ok), "--- uname -a ---\nLinux\n\n");
    let missing: Result<ToolOutput, ToolError> = Err(ToolError::NotFound("No such file".into()));
    assert_eq!(print_result("namp", &missing), "--- namp ---\n\u{274c} Not installed: No such file\n\n");
    let failed: Result<ToolOutput, ToolError> = Err(ToolError::NonZeroExit { exit_code: 2, stderr: "oops".into() });
    assert_eq!(print_result("ls", &failed), "--- ls ---\nexit code: 2\nstderr: oops\n\n");
    let other: Result<ToolOutput, ToolError> = Err(ToolError::ExecutionFailed("denied".into()));
    assert_eq!(print_result("id", &other), "--- id ---\ndenied\n\n");
}

#[test]
fn watchdog_steps() {
    assert!(matches!(spawn_error(IoKind::NotFound, "a".into()), watchdog::ToolError::NotFound(_)));
    assert!(matches!(spawn_error(IoKind::PermissionDenied, "a".into()), watchdog::ToolError::PermissionDenied(_)));
    assert!(matches!(spawn_error(IoKind::Other, "a".into()), watchdog::ToolError::ExecutionFailed(_)));
    assert!(matches!(poll_step(Poll::Running { elapsed_nanos: 5 }, 10), Step::Sleep));
    assert!(matches!(poll_step(Poll::Running { elapsed_nanos: 10 }, 10), Step::Sleep));
    assert!(matches!(poll_step(Poll::Running { elapsed_nanos: 11 }, 10), Step::Kill));
    assert!(matches!(poll_step(Poll::Running { elapsed_nanos: 1 }, 0), Step::Kill));
    match poll_step(Poll::Exited { code: Some(0), stdout: "hi".into(), stderr: "".into(), elapsed_nanos: 7 }, 10) {
        Step::Finished(Ok(out)) => {
            assert_eq!(out.stdout, "hi");
            assert_eq!(out.exit_code, 0);
            assert_eq!(out.duration_nanos, 7);
        }
        _ => panic!("expected success"),
    }
    assert!(matches!(poll_step(Poll::Exited { code: Some(1), stdout: "".into(), stderr: "e".into(), elapsed_nanos: 3 }, 10),
        Step::Finished(Err(watchdog::ToolError::NonZeroExit { exit_code: 1, .. }))));
    assert!(matches!(poll_step(Poll::WaitFailed("w".into()), 10),
        Step::Finished(Err(watchdog::ToolError::ExecutionFailed(_)))));
}

#[test]
fn runner_steps_and_texts() {
    assert_eq!(description("echo"), "echo runner");
    let e = executable::ToolError::from_kind(IoKind::NotFound, "No such file or Directory (os error 2)".into());
    assert_eq!(e.describe(), "NotFound: No such file or Directory (os error 2)");
    assert_eq!(executable::ToolError::from_kind(IoKind::PermissionDenied, "permission denied".into()).describe(), "PermissionDenied: permission denied");
    assert_eq!(executable::ToolError::from_kind(IoKind::Other, "Out of Memory".into()).describe(), "ExecutionFailed: Out of Memory");
    match runner_step(RunEvent::Exited { code: Some(0), stdout: "ok".into(), stderr: "".into(), elapsed_nanos: 7 }, 100) {
        RunStep::Finished(Ok(ToolResult::Success { stdout, elapsed_nanos })) => {
            assert_eq!(stdout, "ok");
            assert_eq!(elapsed_nanos, 7);
        }
        _ => panic!("expected success"),
    }
    assert!(matches!(runner_step(RunEvent::Exited { code: Some(2), stdout: "".into(), stderr: "no".into(), elapsed_nanos: 7 }, 100),
        RunStep::Finished(Ok(ToolResult::Failure { exit_code: 2, .. }))));
    assert!(matches!(runner_step(RunEvent::Running { elapsed_nanos: 101 }, 100), RunStep::Kill));
    assert!(matches!(runner_step(RunEvent::Running { elapsed_nanos: 100 }, 100), RunStep::Sleep));
    assert!(matches!(runner_step(RunEvent::WaitFailed("x".into()), 100),
        RunStep::Finished(Err(executable::ToolError::ExecutionFailed(_)))));
}

struct FixedTool {
    label: &'static str,
    fails: bool,
}

impl Executable for FixedTool {
    fn name(&self) -> &str {
        self.label
    }

    fn run(&self) -> Result<ToolResult, executable::ToolError> {
        if self.fails {
            Err(executable::ToolError::NotFound(self.label.to_string()))
        } else {
            Ok(ToolResult::Success { stdout: self.label.to_string(), elapsed_nanos: 5 })
        }
    }
}

#[test]
fn run_all_reports_each_tool_in_order() {
    let tools: Vec<Box<dyn Executable>> = vec![
        Box::new(FixedTool { label: "echo", fails: false }),
        Box::new(FixedTool { label: "ls", fails: true }),
    ];
    let reports = run_all(tools);
    assert_eq!(reports.len(), 2);
    assert_eq!(reports[0].name, "echo");
    assert_eq!(reports[0].description, "echo runner");
    assert!(matches!(&reports[0].outcome, Ok(ToolResult::Success { stdout, elapsed_nanos: 5 }) if stdout == "echo"));
    assert_eq!(reports[1].name, "ls");
    assert_eq!(reports[1].description, "ls runner");
    assert!(matches!(&reports[1].outcome, Err(executable::ToolError::NotFound(m)) if m == "ls"));
    assert!(run_all(Vec::new()).is_empty());
}

#[test]
fn watchdog_reports() {
    let ok: Result<watchdog::ToolOutput, watchdog::ToolError> =
        Ok(watchdog::ToolOutput { exit_code: 0, stdout: "Hello\n".into(), stderr: "".into(), duration_nanos: 3 });
    assert_eq!(
        output_report(&ok, "Zero timeout", 0, "0.00"),
        "\n--- Zero timeout (0s timeout) ---\n\nSuccess (exit 0) in 0.00s\nstdout: Hello\n\n"
    );
    let timeout: Result<watchdog::ToolOutput, watchdog::ToolError> = Err(watchdog::ToolError::Timeout { elapsed_nanos: 1 });
    assert_eq!(output_report(&timeout, "sleep", 2, "2.05"), "\n--- sleep (2s timeout) ---\n\nTIMEOUT after 2.05s\n");
    let nz: Result<watchdog::ToolOutput, watchdog::ToolError> =
        Err(watchdog::ToolError::NonZeroExit { exit_code: 2, stderr: "bad flag".into() });
    assert_eq!(
        output_report(&nz, "ls", 5, ""),
        "\n--- ls (5s timeout) ---\n\nExit code: 2\nstderr: bad flag\n"
    );
    let nf: Result<watchdog::ToolOutput, watchdog::ToolError> = Err(watchdog::ToolError::NotFound("gone".into()));
    assert_eq!(output_report(&nf, "x", -1, ""), "\n--- x (-1s timeout) ---\n\nNotFound: gone\n");
    let pd: Result<watchdog::ToolOutput, watchdog::ToolError> = Err(watchdog::ToolError::PermissionDenied("no".into()));
    assert_eq!(output_report(&pd, "x", 5, ""), "\n--- x (5s timeout) ---\n\nPermissionDenied: no\n");
    let ef: Result<watchdog::ToolOutput, watchdog::ToolError> = Err(watchdog::ToolError::ExecutionFailed("oom".into()));
    assert_eq!(output_report(&ef, "x", 5, ""), "\n--- x (5s timeout) ---\n\nExecutionFailed: oom\n");
}

#[test]
fn command_details() {
    let ok: Result<CommandOutput, String> =
        Ok(CommandOutput { code: Some(0), success: true, stdout: "a\n".into(), stderr: "".into() });
    assert_eq!(print_details(&ok), "Exit code: 0\nSuccess: true\nstdout: a\n\nstderr: \n\n\n");
    let failed: Result<CommandOutput, String> =
        Ok(CommandOutput { code: Some(2), success: false, stdout: "".into(), stderr: "no such dir".into() });
    assert_eq!(print_details(&failed), "Exit code: 2\nSuccess: false\nstdout: \nstderr: no such dir\n\n\n");
    let killed: Result<CommandOutput, String> =
        Ok(CommandOutput { code: None, success: false, stdout: "".into(), stderr: "".into() });
    assert_eq!(print_details(&killed), "Success: false\nstdout: \nstderr: \n\n\n");
    let err: Result<CommandOutput, String> = Err("No such file or directory (os error 2)".into());
    assert_eq!(print_details(&err), "Error: No such file or directory (os error 2)\n");
}

#[test]
fn tool_reports_and_spawn_lines() {
    let ok: Result<ToolResult, executable::ToolError> =
        Ok(ToolResult::Success { stdout: "hello from trait\n".into(), elapsed_nanos: 1 });
    assert_eq!(
        tool_report("echo runner", &ok, "0.00"),
        "Running: echo runner\nSuccess in 0.00s\nstdout: hello from trait\n\n\n"
    );
    let fail: Result<ToolResult, executable::ToolError> =
        Ok(ToolResult::Failure { stderr: "denied".into(), exit_code: 2 });
    assert_eq!(tool_report("ls runner", &fail, ""), "Running: ls runner\nFailure (exit 2)\nstderr: denied\n\n");
    let timeout: Result<ToolResult, executable::ToolError> = Ok(ToolResult::Timeout { elapsed_nanos: 1 });
    assert_eq!(tool_report("ls runner", &timeout, "5.10"), "Running: ls runner\nTIMEOUT after 5.10s\n\n");
    let err: Result<ToolResult, executable::ToolError> = Err(executable::ToolError::PermissionDenied("no".into()));
    assert_eq!(tool_report("ls runner", &err, ""), "Running: ls runner\nPermissionDenied: no\n\n");

    assert_eq!(executable::print_result("echo", &Ok(4242)), "echo: spwaned successfully (PID: 4242)");
    assert_eq!(
        executable::print_result("fake_binary", &Err(executable::ToolError::NotFound("No such file".into()))),
        "fake_binary: NotFound: No such file"
    );

    assert_eq!(
        ToolResult::Success { stdout: "hello".into(), elapsed_nanos: 10 }.describe("0.01"),
        "Success in 0.01s - stdout: hello"
    );
    assert_eq!(
        ToolResult::Failure { stderr: "permission denied".into(), exit_code: -2 }.describe(""),
        "Failure (exit -2) - stderr: permission denied"
    );
    assert_eq!(ToolResult::Timeout { elapsed_nanos: 10 }.describe("10.00"), "Timeout after 10.00s");
}
