//! The execution of programs, with commands that are made up.
use kiru::exec::context::{ExecContext, ProjectExec, RunContext};
use kiru::exec::error::RuntimeError;
use kiru::exec::machine::{apply, Action, DirChange, Event, Joined, Machine};
use kiru::exec::model::{Display, TaskStatus};
use kiru::exec::resolve::{resolve, Resolved, Values};
use kiru::exec::subprocess::{ExitStatus, SubprocessError, SubprocessExit, SubprocessLine};
use kiru::ir::program::{NodeKind, Program, ProgramBuilder};
use kiru::ir::{EnvPair, Segment, Template};
use kiru::names::NameMap;
use kiru::plan::ArmPattern;

fn lit(s: &str) -> Template {
    Template::lit(s)
}

fn cmd(inner: &str) -> Template {
    Template {
        parts: vec![Segment::Cmd(lit(inner))],
    }
}

/// The world that a program runs in: what its commands would do, and a record
/// of what was run.
struct World {
    run: RunContext,
    failed: bool,
    ran: Vec<String>,
    /// How the approval of an environment ends.
    approval: i32,
    /// The statuses of a node at the time when its command ran.
    seen: Vec<TaskStatus>,
}

impl World {
    fn new(projects: Vec<(&str, &str, bool)>) -> World {
        let mut map = NameMap::new();
        for (name, dir, direnv) in projects {
            map.insert(
                name.to_string(),
                ProjectExec {
                    dir: dir.to_string(),
                    direnv,
                },
            );
        }
        World {
            run: RunContext {
                shell: "sh".to_string(),
                timeout: Some(30),
                projects: map,
            },
            failed: false,
            ran: Vec::new(),
            approval: 0,
            seen: Vec::new(),
        }
    }

    fn output_of(&mut self, command: &str) -> Result<String, SubprocessError> {
        self.ran.push(command.to_string());
        match command {
            "printf hi" => Ok("hi\n".to_string()),
            "printf app" => Ok("app\n".to_string()),
            "printf '  '" => Ok("  \n".to_string()),
            "printf 'a\n\n'" => Ok("a\n\n".to_string()),
            "stamp" => Ok("value\n".to_string()),
            "sleep 60" => Err(SubprocessError::Timeout {
                command: command.to_string(),
                partial_stdout: String::new(),
                partial_stderr: String::new(),
            }),
            "broken" => Err(SubprocessError::Spawn("no shell".to_string())),
            _ => Ok(String::new()),
        }
    }
}

fn exit(code: i32) -> Result<SubprocessExit, SubprocessError> {
    Ok(SubprocessExit {
        status: ExitStatus {
            signal: None,
            code: Some(code),
        },
        killed_by_switch: false,
    })
}

/// Runs a body to its end: the outcome, and the directory that it ends in.
fn drive(
    program: &Program,
    world: &mut World,
    display: &mut Display,
    machine: Machine,
) -> (Result<(), RuntimeError>, String) {
    let mut machine = machine;
    let mut event = Event::Go;
    let mut started: Vec<(usize, Joined)> = Vec::new();
    loop {
        let next = machine.step(program, &world.run, event);
        apply(display, next.updates);
        machine = next.machine;
        event = match next.action {
            Action::Continue => Event::Go,
            Action::CheckRun => Event::RunFailed(world.failed),
            Action::Capture(command) => Event::Captured(world.output_of(&command.desc)),
            Action::RunLive { node, command } => {
                world.ran.push(command.desc.clone());
                world.seen.push(display.state(node).status);
                Event::Exited(match command.desc.as_str() {
                    "exit 7" => exit(7),
                    "echo '   indented'" => {
                        display.push_output(node, "   indented".to_string());
                        exit(0)
                    }
                    "killed" => Ok(SubprocessExit {
                        status: ExitStatus {
                            signal: Some(15),
                            code: None,
                        },
                        killed_by_switch: true,
                    }),
                    "sleep 60" => Err(SubprocessError::Timeout {
                        command: "sleep 60".to_string(),
                        partial_stdout: String::new(),
                        partial_stderr: String::new(),
                    }),
                    _ => exit(0),
                })
            }
            Action::ChangeDir { from, target } => Event::DirChanged(match target.as_str() {
                "." => DirChange::Found(from),
                "missing" => DirChange::Missing("No such file or directory".to_string()),
                "file" => DirChange::NotADirectory,
                _ => DirChange::Found(target),
            }),
            Action::Allow(command) => {
                world.ran.push(command.desc.clone());
                Event::Approved {
                    end: exit(world.approval),
                    lines: vec![SubprocessLine::Stderr("not trusted".to_string())],
                }
            }
            Action::Spawn { node, body } => {
                let (outcome, _) = drive(program, world, display, body);
                started.push((node, Joined::Ended(outcome)));
                Event::Go
            }
            Action::FailRun => {
                world.failed = true;
                Event::Go
            }
            Action::Join(nodes) => {
                let mut ends = Vec::new();
                for node in nodes {
                    let at = started.iter().position(|(n, _)| *n == node).unwrap();
                    ends.push(started.remove(at).1);
                }
                Event::Joined(ends)
            }
            Action::Done(outcome) => return (outcome, machine.context.cwd),
        };
    }
}

fn run_it(
    build: ProgramBuilder,
    roots: Vec<usize>,
    world: &mut World,
) -> (Result<(), RuntimeError>, String, Display) {
    let mut runs = NameMap::new();
    runs.insert("r".to_string(), roots);
    let program = build.build(runs);
    assert!(program.is_closed());
    let mut display = Display::for_program(&program);
    let context = ExecContext::new("/here".to_string(), false);
    let machine = Machine::start(context, program.run_children("r").to_vec());
    let (outcome, cwd) = drive(&program, world, &mut display, machine);
    (outcome, cwd, display)
}

fn status(display: &Display, id: usize) -> TaskStatus {
    display.state(id).status
}

#[test]
fn test_switch_first_match() {
    let mut build = ProgramBuilder::default();
    let log = build.push(NodeKind::Log(lit("first")), vec![]);
    let taken = build.push(NodeKind::Arm(ArmPattern::Lit("a".to_string())), vec![log]);
    let default = build.push(NodeKind::Arm(ArmPattern::Default), vec![]);
    let switch = build.push(NodeKind::Switch(lit("a")), vec![taken, default]);
    let (outcome, _, display) = run_it(build, vec![switch], &mut World::new(vec![]));
    outcome.unwrap();

    assert_eq!(status(&display, taken), TaskStatus::Success);
    assert_eq!(status(&display, log), TaskStatus::Success);
    assert_eq!(status(&display, default), TaskStatus::Skipped);
}

#[test]
fn test_async_runs_and_joins() {
    let mut build = ProgramBuilder::default();
    let log = build.push(NodeKind::Log(lit("async ran")), vec![]);
    let group = build.push(NodeKind::Async, vec![log]);
    let (outcome, _, display) = run_it(build, vec![group], &mut World::new(vec![]));
    outcome.unwrap();

    assert_eq!(status(&display, group), TaskStatus::Success);
    assert_eq!(status(&display, log), TaskStatus::Success);
}

#[test]
fn test_context_unknown_project_errors() {
    let mut build = ProgramBuilder::default();
    let project = build.push(NodeKind::Project(lit("missing")), vec![]);
    let (outcome, _, _) = run_it(build, vec![project], &mut World::new(vec![]));
    let error = outcome.unwrap_err();
    assert!(
        error.message().contains("unknown project"),
        "{}",
        error.message()
    );
    assert_eq!(
        error.message(),
        "lookup error: unknown project: `missing` (no [project.missing] entry in kiru.toml)"
    );
}

#[test]
fn test_context_restores_cwd() {
    let mut build = ProgramBuilder::default();
    let cd = build.push(NodeKind::Cd(lit("/elsewhere")), vec![]);
    let project = build.push(NodeKind::Project(lit("p")), vec![cd]);
    let mut world = World::new(vec![("p", "/proj", false)]);
    let (outcome, cwd, _) = run_it(build, vec![project], &mut world);
    outcome.unwrap();
    assert_eq!(cwd, "/here", "context cwd must not leak out");
}

#[test]
fn test_context_failure_is_reported_on_its_first_row() {
    let mut build = ProgramBuilder::default();
    let first = build.push(NodeKind::Log(lit("a")), vec![]);
    let second = build.push(NodeKind::Log(lit("b")), vec![]);
    let project = build.push(NodeKind::Project(lit("missing")), vec![first, second]);
    let (outcome, _, display) = run_it(build, vec![project], &mut World::new(vec![]));
    let error = outcome.unwrap_err();
    assert!(error.message().contains("unknown project"));
    assert_eq!(status(&display, first), TaskStatus::Error);
    assert_eq!(status(&display, second), TaskStatus::Cancelled);
    assert!(
        display
            .state(first)
            .output
            .iter()
            .any(|line| line.contains("unknown project")),
        "the error is rendered on the first row"
    );
}

#[test]
fn test_untaken_switch_arms_are_skipped() {
    let mut build = ProgramBuilder::default();
    let taken_log = build.push(NodeKind::Log(lit("taken")), vec![]);
    let taken = build.push(
        NodeKind::Arm(ArmPattern::Lit("a".to_string())),
        vec![taken_log],
    );
    let untaken_log = build.push(NodeKind::Log(lit("untaken")), vec![]);
    let untaken = build.push(NodeKind::Arm(ArmPattern::Default), vec![untaken_log]);
    let switch = build.push(NodeKind::Switch(lit("a")), vec![taken, untaken]);
    let (outcome, _, display) = run_it(build, vec![switch], &mut World::new(vec![]));
    outcome.unwrap();

    assert_eq!(status(&display, taken), TaskStatus::Success);
    assert_eq!(status(&display, untaken), TaskStatus::Skipped);
    assert_eq!(status(&display, untaken_log), TaskStatus::Skipped);
    assert_ne!(
        status(&display, untaken_log),
        TaskStatus::Running,
        "skipped steps never run"
    );
}

#[test]
fn test_dynamic_labels_resolve_at_runtime() {
    let mut build = ProgramBuilder::default();
    let exec = build.push(
        NodeKind::Exec(Template {
            parts: vec![
                Segment::Lit("echo ".to_string()),
                Segment::Cmd(lit("printf hi")),
            ],
        }),
        vec![],
    );
    let log = build.push(NodeKind::Log(cmd("printf hi")), vec![]);
    let mut world = World::new(vec![]);
    let (outcome, _, display) = run_it(build, vec![exec, log], &mut world);
    outcome.unwrap();
    assert_eq!(world.ran, vec!["printf hi", "echo hi", "printf hi"]);

    assert_eq!(
        display.state(exec).label.as_deref(),
        Some("exec: echo hi"),
        "the executed command renames its node"
    );
    assert_eq!(
        display.state(log).label.as_deref(),
        Some("log: hi"),
        "the logged data renames its node"
    );
    assert!(
        display.state(log).output.is_empty(),
        "a resolved log is its label, not an output line"
    );
}

#[test]
fn test_dynamic_project_name_annotates_body_rows() {
    let mut build = ProgramBuilder::default();
    let log = build.push(NodeKind::Log(lit("inside")), vec![]);
    let project = build.push(NodeKind::Project(cmd("printf app")), vec![log]);
    let mut world = World::new(vec![("app", "/app", false)]);
    let (outcome, _, display) = run_it(build, vec![project], &mut world);
    outcome.unwrap();

    assert_eq!(
        display.state(log).project.as_deref(),
        Some("app"),
        "the body row is annotated with the resolved name"
    );
}

#[test]
fn test_failure_renders_once_on_its_own_row() {
    let mut build = ProgramBuilder::default();
    let exec = build.push(NodeKind::Exec(lit("exit 7")), vec![]);
    let env = build.push(NodeKind::Env(Vec::new()), vec![exec]);
    let (outcome, _, display) = run_it(build, vec![env], &mut World::new(vec![]));
    outcome.unwrap_err();

    let mut error_lines: Vec<(usize, String)> = Vec::new();
    for (id, state) in display.states().iter().enumerate() {
        for line in state.output.iter().filter(|l| l.starts_with("Error:")) {
            error_lines.push((id, line.clone()));
        }
    }
    assert_eq!(
        error_lines.len(),
        1,
        "exactly one error line: {error_lines:?}"
    );
    assert_eq!(error_lines[0].0, exec, "on the node that failed");
    assert_eq!(
        error_lines[0].1,
        "Error: execution failed: exit 7: exited with code 7"
    );
    assert_eq!(status(&display, exec), TaskStatus::Error);
    assert_eq!(status(&display, env), TaskStatus::Error);
    assert!(
        display.state(env).output.is_empty(),
        "the enclosing block does not repeat the error"
    );
}

#[test]
fn test_started_leaf_reports_running() {
    let mut build = ProgramBuilder::default();
    let exec = build.push(NodeKind::Exec(lit("sleep 1")), vec![]);
    let mut world = World::new(vec![]);
    let (outcome, _, display) = run_it(build, vec![exec], &mut world);
    outcome.unwrap();
    assert_eq!(
        world.seen,
        vec![TaskStatus::Running],
        "a running leaf must report Running"
    );
    assert_eq!(status(&display, exec), TaskStatus::Success);
}

/// A variable whose value takes a command.
fn counter_var() -> Segment {
    Segment::Ref {
        id: 0,
        template: cmd("stamp"),
    }
}

fn counter_log() -> NodeKind {
    NodeKind::Log(Template {
        parts: vec![counter_var()],
    })
}

fn counted(world: &World) -> usize {
    world.ran.iter().filter(|c| *c == "stamp").count()
}

#[test]
fn test_variable_value_is_computed_once_and_reused() {
    let mut build = ProgramBuilder::default();
    let log = build.push(
        NodeKind::Log(Template {
            parts: vec![counter_var(), counter_var()],
        }),
        vec![],
    );
    let mut world = World::new(vec![]);
    let (outcome, _, display) = run_it(build, vec![log], &mut world);
    outcome.unwrap();

    assert_eq!(counted(&world), 1, "the command ran once");
    assert_eq!(
        display.state(log).label.as_deref(),
        Some("log: valuevalue"),
        "both uses see the same computed text"
    );
}

#[test]
fn test_variable_value_survives_a_project_entry() {
    let mut build = ProgramBuilder::default();
    let before = build.push(counter_log(), vec![]);
    let inside = build.push(counter_log(), vec![]);
    let project = build.push(NodeKind::Project(lit("p")), vec![inside]);
    let mut world = World::new(vec![("p", "/proj", false)]);
    let (outcome, _, display) = run_it(build, vec![before, project], &mut world);
    outcome.unwrap();

    assert_eq!(
        counted(&world),
        1,
        "computed before the project, reused inside"
    );
    assert_eq!(display.state(before).label.as_deref(), Some("log: value"));
    assert_eq!(display.state(inside).label.as_deref(), Some("log: value"));
}

#[test]
fn test_variable_value_is_reused_across_async_copy() {
    let mut build = ProgramBuilder::default();
    let inside = build.push(counter_log(), vec![]);
    let group = build.push(NodeKind::Async, vec![inside]);
    let before = build.push(counter_log(), vec![]);
    let mut world = World::new(vec![]);
    let (outcome, _, display) = run_it(build, vec![before, group], &mut world);
    outcome.unwrap();

    assert_eq!(counted(&world), 1, "computed once, reused in the copy");
    assert_eq!(display.state(inside).label.as_deref(), Some("log: value"));
}

#[test]
fn test_variable_first_used_in_each_async_is_computed_there() {
    let mut build = ProgramBuilder::default();
    let in_a = build.push(counter_log(), vec![]);
    let group_a = build.push(NodeKind::Async, vec![in_a]);
    let in_b = build.push(counter_log(), vec![]);
    let group_b = build.push(NodeKind::Async, vec![in_b]);
    let mut world = World::new(vec![]);
    let (outcome, _, display) = run_it(build, vec![group_a, group_b], &mut world);
    outcome.unwrap();

    assert_eq!(counted(&world), 2, "each async copy computes its own value");
    assert_eq!(display.state(in_a).label.as_deref(), Some("log: value"));
    assert_eq!(display.state(in_b).label.as_deref(), Some("log: value"));
}

#[test]
fn test_capture_keeps_spaces_and_drops_newlines() {
    let mut build = ProgramBuilder::default();
    let spaces = build.push(NodeKind::Log(cmd("printf '  '")), vec![]);
    let trailing = build.push(NodeKind::Log(cmd("printf 'a\n\n'")), vec![]);
    let mut world = World::new(vec![]);
    let (outcome, _, display) = run_it(build, vec![spaces, trailing], &mut world);
    outcome.unwrap();

    assert_eq!(display.state(spaces).label.as_deref(), Some("log:   "));
    assert_eq!(display.state(trailing).label.as_deref(), Some("log: a"));
}

#[test]
fn test_output_keeps_leading_whitespace() {
    let mut build = ProgramBuilder::default();
    let exec = build.push(NodeKind::Exec(lit("echo '   indented'")), vec![]);
    let (outcome, _, display) = run_it(build, vec![exec], &mut World::new(vec![]));
    outcome.unwrap();

    assert_eq!(
        display.state(exec).output,
        vec!["   indented".to_string()],
        "indentation survives"
    );
}

#[test]
fn test_async_context_is_isolated() {
    let mut build = ProgramBuilder::default();
    let cd = build.push(NodeKind::Cd(lit("/other")), vec![]);
    let group = build.push(NodeKind::Async, vec![cd]);
    let (outcome, cwd, _) = run_it(build, vec![group], &mut World::new(vec![]));
    outcome.unwrap();
    assert_eq!(
        cwd, "/here",
        "a cd inside async must not leak into the enclosing context"
    );
}

// ── More of the same ─────────────────────────────────────────────────────────

/// A failure cancels what follows it, and makes the run fail.
#[test]
fn a_failure_cancels_what_follows() {
    let mut build = ProgramBuilder::default();
    let bad = build.push(NodeKind::Exec(lit("exit 7")), vec![]);
    let inner = build.push(NodeKind::Log(lit("x")), vec![]);
    let after = build.push(NodeKind::Async, vec![inner]);
    let mut world = World::new(vec![]);
    let (outcome, _, display) = run_it(build, vec![bad, after], &mut world);
    assert!(outcome.is_err());
    assert!(world.failed);
    assert_eq!(status(&display, after), TaskStatus::Cancelled);
    assert_eq!(status(&display, inner), TaskStatus::Cancelled);
}

/// In a run that has failed nothing is started.
#[test]
fn nothing_starts_in_a_failed_run() {
    let mut build = ProgramBuilder::default();
    let exec = build.push(NodeKind::Exec(lit("true")), vec![]);
    let mut world = World::new(vec![]);
    world.failed = true;
    let (outcome, _, display) = run_it(build, vec![exec], &mut world);
    assert_eq!(
        outcome,
        Err(RuntimeError::Cancelled(
            "run failed in another task".to_string()
        ))
    );
    assert!(world.ran.is_empty());
    assert_eq!(status(&display, exec), TaskStatus::Cancelled);
}

/// A command that the run stopped is cancelled, and does not fail the run.
#[test]
fn a_stopped_command_is_cancelled() {
    let mut build = ProgramBuilder::default();
    let exec = build.push(NodeKind::Exec(lit("killed")), vec![]);
    let mut world = World::new(vec![]);
    let (outcome, _, display) = run_it(build, vec![exec], &mut world);
    assert!(matches!(outcome, Err(RuntimeError::Cancelled(_))));
    assert!(!world.failed);
    assert_eq!(status(&display, exec), TaskStatus::Cancelled);
}

#[test]
fn a_timeout_is_shown_with_its_limit() {
    let mut build = ProgramBuilder::default();
    let exec = build.push(NodeKind::Exec(lit("sleep 60")), vec![]);
    let (outcome, _, display) = run_it(build, vec![exec], &mut World::new(vec![]));
    assert!(outcome.unwrap_err().is_timeout());
    assert_eq!(
        display.state(exec).output,
        vec!["Error: timeout: command timed out after 30s: sleep 60".to_string()]
    );
    assert_eq!(status(&display, exec), TaskStatus::Error);
}

/// In a template a timeout leaves no text; a command that cannot be started
/// fails the statement.
#[test]
fn commands_in_templates_may_run_for_too_long() {
    let mut build = ProgramBuilder::default();
    let late = build.push(NodeKind::Log(cmd("sleep 60")), vec![]);
    let broken = build.push(NodeKind::Log(cmd("broken")), vec![]);
    let (outcome, _, display) = run_it(build, vec![late, broken], &mut World::new(vec![]));
    assert_eq!(display.state(late).label.as_deref(), Some("log: "));
    assert_eq!(status(&display, late), TaskStatus::Success);
    assert_eq!(
        outcome.unwrap_err().message(),
        "execution failed: broken: failed to spawn process: no shell"
    );
    assert_eq!(status(&display, broken), TaskStatus::Error);
}

#[test]
fn directories_that_cannot_be_entered_are_named() {
    for (target, message) in [
        (
            "missing",
            "lookup error: cd missing: No such file or directory",
        ),
        ("file", "lookup error: cd file: not a directory"),
    ] {
        let mut build = ProgramBuilder::default();
        let cd = build.push(NodeKind::Cd(lit(target)), vec![]);
        let (outcome, cwd, display) = run_it(build, vec![cd], &mut World::new(vec![]));
        assert_eq!(outcome.unwrap_err().message(), message);
        assert_eq!(cwd, "/here");
        assert_eq!(display.state(cd).output, vec![format!("Error: {message}")]);
    }
    let mut build = ProgramBuilder::default();
    let cd = build.push(NodeKind::Cd(cmd("printf hi")), vec![]);
    let (outcome, cwd, display) = run_it(build, vec![cd], &mut World::new(vec![]));
    outcome.unwrap();
    assert_eq!(cwd, "hi");
    assert_eq!(display.state(cd).label.as_deref(), Some("cd: hi"));
}

#[test]
fn an_empty_project_name_is_refused() {
    let mut build = ProgramBuilder::default();
    let project = build.push(NodeKind::Project(cmd("true")), vec![]);
    let (outcome, _, display) = run_it(build, vec![project], &mut World::new(vec![]));
    assert_eq!(
        outcome.unwrap_err().message(),
        "lookup error: project name resolved to empty"
    );
    assert_eq!(status(&display, project), TaskStatus::Error);
}

#[test]
fn an_environment_is_approved_before_it_is_used() {
    let mut build = ProgramBuilder::default();
    let log = build.push(NodeKind::Log(lit("x")), vec![]);
    let project = build.push(NodeKind::Project(lit("p")), vec![log]);
    let mut world = World::new(vec![("p", "/proj", true)]);
    let (outcome, cwd, _) = run_it(build, vec![project], &mut world);
    outcome.unwrap();
    assert_eq!(world.ran, vec!["direnv allow /proj"]);
    assert_eq!(cwd, "/here");

    let mut build = ProgramBuilder::default();
    let log = build.push(NodeKind::Log(lit("x")), vec![]);
    let project = build.push(NodeKind::Project(lit("p")), vec![log]);
    let mut world = World::new(vec![("p", "/proj", true)]);
    world.approval = 1;
    let (outcome, _, display) = run_it(build, vec![project], &mut world);
    assert_eq!(
        outcome.unwrap_err().message(),
        "execution failed: direnv allow /proj: not trusted"
    );
    assert_eq!(status(&display, log), TaskStatus::Error);
}

/// The variables of a block hold in its body alone.
#[test]
fn variables_hold_in_their_block() {
    let mut build = ProgramBuilder::default();
    let inside = build.push(NodeKind::Log(lit("x")), vec![]);
    let env = build.push(
        NodeKind::Env(vec![
            EnvPair {
                key: "A".to_string(),
                value: cmd("printf hi"),
            },
            EnvPair {
                key: "B".to_string(),
                value: lit("b"),
            },
        ]),
        vec![inside],
    );
    let mut runs = NameMap::new();
    runs.insert("r".to_string(), vec![env]);
    let program = build.build(runs);
    let world = World::new(vec![]);
    let mut machine = Machine::start(ExecContext::new("/".to_string(), false), vec![env]);
    let mut event = Event::Go;
    let mut depth: Vec<usize> = Vec::new();
    let mut layer = Vec::new();
    loop {
        let next = machine.step(&program, &world.run, event);
        machine = next.machine;
        depth.push(machine.context.env_layers.len());
        if machine.context.env_layers.len() == 1 && layer.is_empty() {
            layer = machine.context.fork().env_layers.remove(0).into_entries();
        }
        event = match next.action {
            Action::CheckRun => Event::RunFailed(false),
            Action::Capture(_) => Event::Captured(Ok("hi\n".to_string())),
            Action::Done(outcome) => {
                outcome.unwrap();
                break;
            }
            _ => Event::Go,
        };
    }
    assert_eq!(depth.first(), Some(&0));
    assert_eq!(depth.iter().max(), Some(&1));
    assert_eq!(depth.last(), Some(&0));
    assert_eq!(
        layer,
        vec![
            ("A".to_string(), "hi".to_string()),
            ("B".to_string(), "b".to_string()),
        ]
    );
}

/// A body answers for those beside it; its own failure comes first.
#[test]
fn a_body_beside_another_may_fail_or_break_off() {
    let mut build = ProgramBuilder::default();
    let group = build.push(NodeKind::Async, vec![]);
    let mut runs = NameMap::new();
    runs.insert("r".to_string(), vec![group]);
    let program = build.build(runs);
    let world = World::new(vec![]);
    let mut display = Display::for_program(&program);
    let mut machine = Machine::start(ExecContext::new("/".to_string(), false), vec![group]);
    let mut event = Event::Go;
    let outcome = loop {
        let next = machine.step(&program, &world.run, event);
        machine = next.machine;
        apply(&mut display, next.updates);
        event = match next.action {
            Action::CheckRun => Event::RunFailed(false),
            Action::Join(nodes) => {
                assert_eq!(nodes, vec![group]);
                Event::Joined(vec![Joined::Panicked])
            }
            Action::Done(outcome) => break outcome,
            _ => Event::Go,
        };
    };
    assert_eq!(
        outcome.unwrap_err().message(),
        "execution failed: async: task panicked"
    );
    assert_eq!(status(&display, group), TaskStatus::Error);
}

#[test]
fn a_template_asks_for_one_output_after_another() {
    let t = Template {
        parts: vec![
            Segment::Lit("<".to_string()),
            Segment::Cmd(Template {
                parts: vec![
                    Segment::Lit("cat ".to_string()),
                    Segment::Cmd(lit("ls")),
                ],
            }),
            Segment::Lit(">".to_string()),
        ],
    };
    let asked = |outputs: Vec<String>| match resolve(&t, Values::new(), &outputs, 0) {
        Resolved::Run { cmd, .. } => format!("run {cmd}"),
        Resolved::Text { text, used, .. } => format!("{used}: {text}"),
    };
    assert_eq!(asked(vec![]), "run ls");
    assert_eq!(asked(vec!["f".to_string()]), "run cat f");
    assert_eq!(asked(vec!["f".to_string(), "body".to_string()]), "2: <body>");
}
