//! Commands: their output, their end, and the groups of a run.
use kiru::exec::chain::{
    body_after_approval, chain_rows, command_before_call, find_function, resolve_project_env,
    ChainAction, ChainEvent, ChainRun,
};
use kiru::exec::context::{shell_argv, ExecContext, ProjectExec, RunContext};
use kiru::exec::direnv::{allow_command, allow_outcome};
use kiru::exec::error::{failure_status, failure_status_or_success, RuntimeError};
use kiru::exec::kill::RunKillSwitch;
use kiru::exec::machine::Update;
use kiru::exec::model::TaskStatus;
use kiru::exec::report::{report_all, report_task_outcome, TaskEnd, TaskOutcome, TaskRunError};
use kiru::exec::subprocess::{
    capture_text, describe_exit_failure, line_text, report_text, strip_line_end, ExitStatus, Order, Report,
    SubprocessError, SubprocessExit, SubprocessLine, Supervisor,
};
use kiru::ir::{Instruction, Ir, Project, Template};
use kiru::names::NameMap;
use kiru::plan::Call;

fn out(s: &str) -> SubprocessLine {
    SubprocessLine::Stdout(s.to_string())
}

fn err(s: &str) -> SubprocessLine {
    SubprocessLine::Stderr(s.to_string())
}

const OK: ExitStatus = ExitStatus {
    signal: None,
    code: Some(0),
};

const TERMINATED: ExitStatus = ExitStatus {
    signal: Some(15),
    code: None,
};

#[test]
fn kill_switch_flag_transitions() {
    let mut switch = RunKillSwitch::new();
    assert!(!switch.is_failed(), "a fresh switch is not failed");
    // Killing with no live groups registered is a no-op.
    assert!(switch.kill_all().is_empty());
    assert!(!switch.is_failed(), "kill_all alone does not mark failed");
    assert!(switch.fail().is_empty());
    assert!(switch.is_failed(), "fail() marks the switch");
}

#[test]
fn fail_kills_the_live_child_and_marks_it_as_a_victim() {
    let mut switch = RunKillSwitch::new();
    let argv = vec!["sleep".to_string(), "60".to_string()];
    let mut child = Supervisor::start("sleep 60", &argv, false).unwrap();
    assert_eq!(
        child.step(&mut switch, Report::Spawned(42)),
        Order::Receive
    );
    assert_eq!(switch.live_group_count(), 1, "child registered its group");

    assert_eq!(switch.fail(), vec![42]);
    assert_eq!(child.step(&mut switch, Report::Closed), Order::Wait);
    match child.step(&mut switch, Report::Waited(TERMINATED)) {
        Order::Done(Ok(exit)) => {
            assert_eq!(exit.status.signal, Some(15));
            assert!(exit.killed_by_switch, "killed child is a switch victim");
        }
        other => panic!("expected an exit, got {other:?}"),
    }
    assert_eq!(switch.live_group_count(), 0, "group deregistered");
    assert!(switch.killed(42));
    assert!(!switch.is_live(42));
}

#[test]
fn groups_are_counted_once_and_listed_in_order() {
    let mut switch = RunKillSwitch::new();
    switch.register(3);
    switch.register(5);
    switch.register(3);
    assert_eq!(switch.survivors(), vec![3, 5]);
    switch.mark_killed(5);
    assert!(switch.killed(5));
    assert!(!switch.killed(3));
    switch.deregister(3);
    assert_eq!(switch.survivors(), vec![5]);
}

#[test]
fn a_command_started_after_the_failure_is_stopped() {
    let mut switch = RunKillSwitch::new();
    switch.fail();
    let mut child = Supervisor::start("x", &vec!["x".to_string()], true).unwrap();
    assert_eq!(
        child.step(&mut switch, Report::Spawned(7)),
        Order::Terminate
    );
    assert_eq!(
        child.step(&mut switch, Report::Waited(OK)),
        Order::Done(Ok(SubprocessExit {
            status: OK,
            killed_by_switch: true
        }))
    );
    assert_eq!(switch.live_group_count(), 0);
}

/// The capture primitive returns reconstructed text untrimmed; each caller
/// decides what trailing text its use allows.
#[test]
fn capture_returns_text_for_the_caller_to_trim() {
    let mut lines = Vec::new();
    for raw in ["x\n", "\n"] {
        lines.push(out(&line_text(raw.as_bytes().to_vec())));
    }
    let text = capture_text(&lines);
    assert_eq!(text, "x\n\n");
}

/// Invalid UTF-8 must not truncate the stream: the rest of the output still
/// arrives, with the bad byte decoded lossily.
#[test]
fn invalid_utf8_output_is_preserved_lossily() {
    let mut lines = Vec::new();
    for raw in [&b"ok\n"[..], &b"\xff\n"[..]] {
        lines.push(out(&line_text(raw.to_vec())));
    }
    assert_eq!(lines.len(), 2, "both lines are read: {lines:?}");
    assert_eq!(lines[0], SubprocessLine::Stdout("ok".to_string()));
    match &lines[1] {
        SubprocessLine::Stdout(line) => {
            assert!(line.contains('\u{FFFD}'), "lossy decode: {line:?}");
        }
        other => panic!("expected stdout, got {other:?}"),
    }
}

/// A command that runs for too long is stopped, whatever it does about it.
#[test]
fn timeout_escalates_to_sigkill() {
    let mut switch = RunKillSwitch::new();
    let argv = vec!["sh".to_string()];
    let mut child = Supervisor::start("trap-term", &argv, true).unwrap();
    child.step(&mut switch, Report::Spawned(9));
    child.step(&mut switch, Report::Line(out("started")));
    child.step(&mut switch, Report::Line(err("warned")));
    assert_eq!(child.step(&mut switch, Report::Expired), Order::Terminate);
    let result = match child.step(&mut switch, Report::Waited(TERMINATED)) {
        Order::Done(result) => result,
        other => panic!("expected the end, got {other:?}"),
    };
    assert!(matches!(result, Err(SubprocessError::Timeout { .. })));
    assert_eq!(
        result.unwrap_err().message(),
        "command timed out: trap-term: warned"
    );
    assert_eq!(switch.live_group_count(), 0);
}

#[test]
fn there_must_be_something_to_start() {
    assert_eq!(
        Supervisor::start("x", &Vec::new(), false)
            .unwrap_err()
            .message(),
        "failed to spawn process: run_subprocess requires at least one argument (argv[0])"
    );
    let mut switch = RunKillSwitch::new();
    let mut child = Supervisor::start("x", &vec!["x".to_string()], false).unwrap();
    assert_eq!(
        child.step(&mut switch, Report::NotSpawned("no such file".to_string())),
        Order::Done(Err(SubprocessError::Spawn("no such file".to_string())))
    );
}

#[test]
fn a_wait_that_fails_is_reported() {
    let mut switch = RunKillSwitch::new();
    let mut child = Supervisor::start("x", &vec!["x".to_string()], false).unwrap();
    child.step(&mut switch, Report::Spawned(1));
    child.step(&mut switch, Report::Closed);
    assert_eq!(
        child.step(&mut switch, Report::WaitFailed("gone".to_string())),
        Order::Done(Err(SubprocessError::Spawn("gone".to_string())))
    );
}

#[test]
fn timeouts_show_the_error_stream_first() {
    let timeout = |stdout: &str, stderr: &str| SubprocessError::Timeout {
        command: "c".to_string(),
        partial_stdout: stdout.to_string(),
        partial_stderr: stderr.to_string(),
    };
    assert_eq!(timeout(" a \n", "").message(), "command timed out: c: a");
    assert_eq!(timeout("a", " b\n").message(), "command timed out: c: b");
    assert_eq!(timeout("\n", " ").message(), "command timed out: c");
}

#[test]
fn exits_are_described() {
    let status = |signal, code| ExitStatus { signal, code };
    assert_eq!(
        describe_exit_failure(&status(Some(9), None)),
        "terminated by signal 9"
    );
    assert_eq!(
        describe_exit_failure(&status(None, Some(-1))),
        "exited with code -1"
    );
    assert_eq!(
        describe_exit_failure(&status(None, None)),
        "exited abnormally"
    );
    assert!(status(None, Some(0)).success());
    assert!(!status(Some(15), None).success());
    assert_eq!(report_text(&vec![out("a"), err("b")]), "a\nb\n");
    assert_eq!(capture_text(&vec![out("a"), err("b")]), "a\n");
}

#[test]
fn line_ends_are_stripped() {
    let mut bytes = b"  a\r\n\n".to_vec();
    strip_line_end(&mut bytes);
    assert_eq!(bytes, b"  a");
    assert_eq!(line_text(b"a\xffb\r\n".to_vec()), "a\u{fffd}b");
    assert_eq!(line_text("\u{e9}\n".as_bytes().to_vec()), "\u{e9}");
}

// ── direnv ───────────────────────────────────────────────────────────────────

fn exited(code: i32) -> Result<SubprocessExit, SubprocessError> {
    Ok(SubprocessExit {
        status: ExitStatus {
            signal: None,
            code: Some(code),
        },
        killed_by_switch: false,
    })
}

#[test]
fn allow_succeeds_when_direnv_exits_zero() {
    let command = allow_command("/src/app");
    assert_eq!(command.argv, vec!["direnv", "allow", "/src/app"]);
    assert_eq!(command.desc, "direnv allow /src/app");
    let lines = vec![out("fake direnv: allow /src/app")];
    allow_outcome(&command.desc, exited(0), &lines, 0).unwrap();
}

#[test]
fn allow_fails_loudly_with_direnv_output() {
    let command = allow_command("/src/app");
    let lines = vec![out("fake direnv: allow /src/app")];
    let error = allow_outcome(&command.desc, exited(1), &lines, 0).unwrap_err();
    let rendered = error.message();
    assert!(rendered.contains("fake direnv:"), "{rendered}");
    assert!(rendered.contains("allow"), "{rendered}");
}

#[test]
fn allow_fails_loudly_with_the_exit_cause_when_silent() {
    let command = allow_command("/src/app");
    let error = allow_outcome(&command.desc, exited(1), &Vec::new(), 0).unwrap_err();
    assert!(
        error.message().contains("exited with code 1"),
        "{}",
        error.message()
    );
}

#[test]
fn an_approval_can_be_stopped_or_run_for_too_long() {
    let stopped = Ok(SubprocessExit {
        status: TERMINATED,
        killed_by_switch: true,
    });
    assert_eq!(
        allow_outcome("direnv allow x", stopped, &Vec::new(), 5),
        Err(RuntimeError::Cancelled(
            "stopped because another chain failed".to_string()
        ))
    );
    let late = Err(SubprocessError::Timeout {
        command: "direnv allow x".to_string(),
        partial_stdout: String::new(),
        partial_stderr: String::new(),
    });
    assert_eq!(
        allow_outcome("direnv allow x", late, &Vec::new(), 5),
        Err(RuntimeError::Timeout {
            cmd: "direnv allow x".to_string(),
            secs: 5
        })
    );
    let missing = Err(SubprocessError::Spawn("no such file".to_string()));
    assert_eq!(
        allow_outcome("direnv allow x", missing, &Vec::new(), 5)
            .unwrap_err()
            .message(),
        "execution failed: direnv allow x: failed to spawn process: no such file"
    );
}

// ── Contexts ─────────────────────────────────────────────────────────────────

#[test]
fn commands_run_in_a_shell_with_the_last_layer_on_top() {
    assert_eq!(shell_argv("sh", "ls", None), vec!["sh", "-c", "ls"]);
    assert_eq!(
        shell_argv("sh", "ls", Some("/p")),
        vec!["direnv", "exec", "/p", "sh", "-c", "ls"]
    );
    let mut context = ExecContext::new("/p".to_string(), true);
    for (a, b) in [("1", "x"), ("2", "y")] {
        let mut layer = NameMap::new();
        layer.insert("A".to_string(), a.to_string());
        layer.insert(format!("B{a}"), b.to_string());
        context.env_layers.push(layer);
    }
    let run = RunContext {
        shell: "bash".to_string(),
        timeout: None,
        projects: NameMap::new(),
    };
    let command = context.fork().command(&run, "ls");
    assert_eq!(
        command.argv,
        vec!["direnv", "exec", "/p", "bash", "-c", "ls"]
    );
    assert_eq!(command.dir.as_deref(), Some("/p"));
    assert_eq!(
        command.env.into_entries(),
        vec![
            ("A".to_string(), "2".to_string()),
            ("B1".to_string(), "x".to_string()),
            ("B2".to_string(), "y".to_string()),
        ]
    );
}

#[test]
fn errors_have_messages_and_statuses() {
    let errors = [
        RuntimeError::Lookup("x".to_string()),
        RuntimeError::Io("x".to_string()),
        RuntimeError::exec_io_error("cmd", "x"),
        RuntimeError::Timeout {
            cmd: "cmd".to_string(),
            secs: 30,
        },
        RuntimeError::Cancelled("x".to_string()),
    ];
    let messages: Vec<String> = errors.iter().map(|e| e.message()).collect();
    assert_eq!(
        messages,
        vec![
            "lookup error: x",
            "IO error: x",
            "execution failed: cmd: x",
            "timeout: command timed out after 30s: cmd",
            "cancelled: x",
        ]
    );
    assert_eq!(errors[0].line(), "Error: lookup error: x");
    assert_eq!(failure_status(&errors[4]), TaskStatus::Cancelled);
    assert_eq!(failure_status(&errors[3]), TaskStatus::Error);
    assert_eq!(failure_status_or_success(&Ok(())), TaskStatus::Success);
}

// ── Tasks and chains ─────────────────────────────────────────────────────────

#[test]
fn tasks_show_how_they_ended() {
    assert_eq!(
        report_task_outcome(2, &TaskOutcome::Success),
        (vec![Update::Status(2, TaskStatus::Success)], false)
    );
    let error = TaskOutcome::Error(RuntimeError::Lookup("x".to_string()));
    assert_eq!(
        report_task_outcome(2, &error),
        (
            vec![
                Update::Output(2, "Error: lookup error: x".to_string()),
                Update::Status(2, TaskStatus::Error)
            ],
            true
        )
    );
    let late = TaskOutcome::Error(RuntimeError::Timeout {
        cmd: "c".to_string(),
        secs: 1,
    });
    assert_eq!(
        report_task_outcome(2, &late),
        (vec![Update::Status(2, TaskStatus::Error)], true)
    );
    let ends = vec![
        TaskEnd {
            index: 0,
            outcome: TaskOutcome::Success,
        },
        TaskEnd {
            index: 1,
            outcome: TaskOutcome::Panic("boom".to_string()),
        },
    ];
    assert_eq!(
        report_all(&ends),
        (
            vec![
                Update::Output(1, "Task panicked: boom".to_string()),
                Update::Status(1, TaskStatus::Error)
            ],
            Err(TaskRunError::TaskFailed)
        )
    );
    assert_eq!(report_all(&Vec::new()), (Vec::new(), Ok(())));
}

fn call(project: &str, function: &str) -> Call {
    Call {
        project: project.to_string(),
        function: function.to_string(),
    }
}

#[test]
fn chains_take_rows_one_after_another() {
    let chains = vec![
        vec![call("a", "f"), call("b", "g")],
        vec![],
        vec![call("c", "h")],
    ];
    let rows = chain_rows(&chains);
    assert_eq!(rows[0].label, "a::f => b::g");
    assert_eq!(rows[0].tasks, vec!["a::f", "b::g"]);
    assert_eq!(
        rows.iter().map(|r| r.start).collect::<Vec<usize>>(),
        vec![0, 2, 2]
    );
    assert_eq!(rows[1].label, "");
    assert_eq!(
        rows.iter().map(|r| r.report).collect::<Vec<usize>>(),
        vec![1, 2, 2]
    );
}

#[test]
fn a_chain_stops_at_its_first_failure() {
    let run = ChainRun::new(4, 3);
    let (run, updates, action) = run.step(ChainEvent::RunFailed(false));
    assert_eq!(updates, vec![Update::Status(4, TaskStatus::Running)]);
    assert!(matches!(action, ChainAction::Call(0)));
    let (run, _, action) = run.step(ChainEvent::Called(Ok(())));
    assert!(matches!(action, ChainAction::CheckRun));
    let (run, _, _) = run.step(ChainEvent::RunFailed(false));
    let error = RuntimeError::Lookup("x".to_string());
    let (_, updates, action) = run.step(ChainEvent::Called(Err(error)));
    assert_eq!(
        updates,
        vec![
            Update::Output(5, "Error: lookup error: x".to_string()),
            Update::Status(5, TaskStatus::Error),
            Update::Status(6, TaskStatus::Cancelled),
        ]
    );
    assert!(matches!(
        action,
        ChainAction::Done {
            result: Err(RuntimeError::Lookup(_)),
            fail_run: true
        }
    ));
}

#[test]
fn a_chain_is_cancelled_when_the_run_has_failed() {
    let (_, updates, action) = ChainRun::new(0, 2).step(ChainEvent::RunFailed(true));
    assert_eq!(
        updates,
        vec![
            Update::Status(0, TaskStatus::Cancelled),
            Update::Status(1, TaskStatus::Cancelled),
        ]
    );
    assert!(matches!(
        action,
        ChainAction::Done {
            result: Err(RuntimeError::Cancelled(_)),
            fail_run: false
        }
    ));
    let (_, updates, action) = ChainRun::new(0, 0).step(ChainEvent::RunFailed(true));
    assert!(updates.is_empty());
    assert!(matches!(action, ChainAction::Done { result: Ok(()), .. }));
}

#[test]
fn calls_are_looked_up_by_project_and_function() {
    let mut project = Project::default();
    project.functions.insert(
        "f".to_string(),
        vec![Instruction::Log(Template::lit("x"))],
    );
    let mut ir = Ir::default();
    ir.projects.insert("p".to_string(), project);
    assert_eq!(find_function(&ir, "f", "p").unwrap().len(), 1);
    assert_eq!(
        find_function(&ir, "g", "p").unwrap_err().message(),
        "lookup error: unknown function g in project p"
    );
    assert_eq!(
        find_function(&ir, "f", "q").unwrap_err().message(),
        "lookup error: unknown project: q"
    );
    let mut projects = NameMap::new();
    projects.insert(
        "p".to_string(),
        ProjectExec {
            dir: "/p".to_string(),
            direnv: true,
        },
    );
    let known = resolve_project_env(&projects, "/here", "p");
    assert_eq!((known.dir.as_str(), known.direnv), ("/p", true));
    assert_eq!(
        command_before_call(&known).unwrap().argv,
        vec!["direnv", "allow", "/p"]
    );
    let refused = Err(RuntimeError::Lookup("first".to_string()));
    assert_eq!(
        body_after_approval(&ir, &call("q", "f"), refused)
            .unwrap_err()
            .message(),
        "lookup error: first"
    );
    assert_eq!(
        body_after_approval(&ir, &call("p", "f"), Ok(()))
            .unwrap()
            .len(),
        1
    );
    let unknown = resolve_project_env(&projects, "/here", "q");
    assert!(command_before_call(&unknown).is_none());
    assert_eq!((unknown.dir.as_str(), unknown.direnv), ("/here", false));
}
