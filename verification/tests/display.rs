//! The display: states, rows, colours and the final text.
use kiru::exec::colors::{colored_line_string, Color, OK_ANSI, RESET, TEXT_ANSI};
use kiru::exec::model::{spinner_frame, Display, Model, TaskStatus};
use kiru::exec::rows::{format_final_output, row_line, visible_rows, MAX_PANEL_HEIGHT};
use kiru::exec::sync::{
    current_display, git_line, git_outcome, sync_header, sync_message, sync_plan, sync_row_line,
    ProjectSync,
};
use kiru::exec::subprocess::{ExitStatus, SubprocessError, SubprocessExit, SubprocessLine};
use kiru::exec::view::{is_cancel_key, next_frame, next_spinner, view_height, Frame};
use kiru::ir::program::{NodeKind, Program, ProgramBuilder};
use kiru::ir::run_plan::PlanLine;
use kiru::ir::{EnvPair, Template};
use kiru::names::NameMap;
use kiru::plan::ArmPattern;
use kiru::tree::branches;

fn lit(s: &str) -> Template {
    Template::lit(s)
}

fn one_run(name: &str, roots: Vec<usize>) -> NameMap<Vec<usize>> {
    let mut runs = NameMap::new();
    runs.insert(name.to_string(), roots);
    runs
}

#[test]
fn colored_line_string_round_trips() {
    let rendered = colored_line_string("hello");
    assert_eq!(rendered, format!("{TEXT_ANSI}hello{RESET}"));
    let already_colored = format!("{OK_ANSI}done{RESET}");
    assert_eq!(colored_line_string(&already_colored), already_colored);
}

#[test]
fn skipped_rows_are_terminal() {
    let mut display = Display::with_labels(vec!["a".to_string(), "b".to_string()]);
    display.set_status(0, TaskStatus::Success);
    display.set_status(1, TaskStatus::Skipped);
    assert!(
        display.all_done(),
        "a skipped switch arm is terminal, not pending"
    );
}

#[test]
fn state_updates_are_addressed_by_id() {
    let mut display = Display::with_labels(vec!["row".to_string()]);
    display.set_status(0, TaskStatus::Running);
    display.push_output(0, "line".to_string());
    display.set_label(0, "resolved".to_string());
    display.set_project(0, "kiru".to_string());
    let state = display.state(0);
    assert_eq!(state.status, TaskStatus::Running);
    assert_eq!(state.output, vec!["line".to_string()]);
    assert_eq!(state.label.as_deref(), Some("resolved"));
    assert_eq!(state.project.as_deref(), Some("kiru"));
}

#[test]
fn skipped_lines_are_terminal() {
    let mut model = Model::from_plan(vec![
        PlanLine {
            row: 0,
            depth: 0,
            label: "switch case a".to_string(),
            project: None,
            prefix: "├─ ".to_string(),
            output_prefix: "│    ".to_string(),
        },
        PlanLine {
            row: 1,
            depth: 0,
            label: "switch default".to_string(),
            project: None,
            prefix: "└─ ".to_string(),
            output_prefix: "     ".to_string(),
        },
    ]);
    model.update_task_status(0, TaskStatus::Success);
    model.update_task_status(1, TaskStatus::Skipped);
    assert!(
        model.all_done(),
        "a skipped switch arm is terminal, not pending"
    );
}

#[test]
fn model_lines_carry_prefix_and_project() {
    let plan = vec![
        PlanLine {
            row: 0,
            depth: 0,
            label: "async".to_string(),
            project: Some("kiru".to_string()),
            prefix: "└─ ".to_string(),
            output_prefix: "     ".to_string(),
        },
        PlanLine {
            row: 1,
            depth: 1,
            label: "exec cargo test".to_string(),
            project: Some("kiru".to_string()),
            prefix: "   └─ ".to_string(),
            output_prefix: "        ".to_string(),
        },
    ];
    let model = Model::from_plan(plan);
    assert_eq!(model.tasks[1].prefix, "   └─ ");
    assert_eq!(model.tasks[1].project.as_deref(), Some("kiru"));
    assert_eq!(model.tasks.len(), 2, "line position equals row index");
}

#[test]
fn a_model_keeps_output_and_ignores_rows_that_are_not_there() {
    let mut model = Model::from_plan(sync_plan(&vec![project("")]));
    assert!(!model.all_done());
    model.append_output(0, "line".to_string());
    model.append_output(9, "lost".to_string());
    model.update_task_status(9, TaskStatus::Error);
    assert_eq!(model.tasks[0].output, vec!["line".to_string()]);
    assert_eq!(model.tasks[0].status, TaskStatus::Pending);
    assert_eq!(model.tasks[0].name, "app");
}

#[test]
fn dump_renders_the_settled_tree_structure() {
    let mut build = ProgramBuilder::default();
    let child_a = build.push(NodeKind::Log(lit("a")), vec![]);
    let group_a = build.push(NodeKind::Async, vec![child_a]);
    let child_b = build.push(NodeKind::Log(lit("b")), vec![]);
    let group_b = build.push(NodeKind::Async, vec![child_b]);
    let program = build.build(one_run("d", vec![group_a, group_b]));
    let display = Display::for_program(&program);

    let dump = format_final_output(&program, &display, "d");
    let lines: Vec<&str> = dump.lines().filter(|line| !line.is_empty()).collect();
    assert_eq!(lines.len(), 4, "one line per row: {dump:?}");
    assert!(lines[0].contains("async"), "{}", lines[0]);
    assert!(
        !lines[0].contains("├─") && !lines[0].contains("└─"),
        "the outermost level has no branch: {}",
        lines[0]
    );
    assert!(
        lines[1].contains("└─") && lines[1].contains("log: a"),
        "{}",
        lines[1]
    );
    assert!(lines[2].contains("async"), "{}", lines[2]);
    assert!(
        lines[3].contains("└─") && lines[3].contains("log: b"),
        "{}",
        lines[3]
    );
}

#[test]
fn skipped_subtrees_are_hidden_from_the_dump() {
    let mut build = ProgramBuilder::default();
    let taken_log = build.push(NodeKind::Log(lit("taken")), vec![]);
    let taken = build.push(
        NodeKind::Arm(ArmPattern::Lit("a".to_string())),
        vec![taken_log],
    );
    let untaken_log = build.push(NodeKind::Log(lit("untaken")), vec![]);
    let untaken = build.push(NodeKind::Arm(ArmPattern::Default), vec![untaken_log]);
    let switch = build.push(NodeKind::Switch(lit("a")), vec![taken, untaken]);
    let tail = build.push(NodeKind::Log(lit("after")), vec![]);
    let program = build.build(one_run("d", vec![switch, tail]));
    let mut display = Display::for_program(&program);
    display.set_status(taken, TaskStatus::Success);
    display.set_status(taken_log, TaskStatus::Success);
    display.set_status(untaken, TaskStatus::Skipped);
    display.set_status(untaken_log, TaskStatus::Skipped);
    display.set_status(tail, TaskStatus::Success);

    let dump = format_final_output(&program, &display, "d");
    assert!(
        !dump.contains("untaken"),
        "hidden arm stays hidden: {dump:?}"
    );
    let lines: Vec<&str> = dump.lines().filter(|line| !line.is_empty()).collect();
    assert_eq!(lines.len(), 3, "{dump:?}");
    assert!(lines[0].contains("switch case a"), "{}", lines[0]);
    assert!(
        lines[1].contains("└─") && lines[1].contains("log: taken"),
        "{}",
        lines[1]
    );
    assert!(lines[2].contains("log: after"), "{}", lines[2]);
}

#[test]
fn resolved_values_render_in_the_dump() {
    let mut build = ProgramBuilder::default();
    let log = build.push(NodeKind::Log(lit("$(date)")), vec![]);
    let project = build.push(NodeKind::Project(lit("$(echo app)")), vec![log]);
    let program = build.build(one_run("d", vec![project]));
    let mut display = Display::for_program(&program);
    display.set_label(log, "log: Fri".to_string());
    display.set_project(log, "app".to_string());

    let dump = format_final_output(&program, &display, "d");
    assert!(dump.contains("log: Fri"), "{dump:?}");
    assert!(dump.contains("[app]"), "{dump:?}");
}

/// The text of a row is exact: mark, label, project and the last lines of its
/// output.
#[test]
fn a_dump_shows_the_last_lines_of_the_output() {
    let mut build = ProgramBuilder::default();
    let exec = build.push(NodeKind::Exec(lit("make")), vec![]);
    let project = build.push(NodeKind::Project(lit("app")), vec![exec]);
    let program = build.build(one_run("d", vec![project]));
    let mut display = Display::for_program(&program);
    display.set_status(exec, TaskStatus::Success);
    for i in 0..MAX_PANEL_HEIGHT + 2 {
        display.push_output(exec, format!("{i}"));
    }
    let mut expected = "\n\u{1b}[92m✓\u{1b}[0m exec: make [app]\n".to_string();
    expected.push_str("     \u{1b}[90m↑ 2 lines hidden \u{1b}[0m\n");
    for i in 2..MAX_PANEL_HEIGHT + 2 {
        expected.push_str(&format!("     \u{1b}[97m{i}\u{1b}[0m\n"));
    }
    assert_eq!(format_final_output(&program, &display, "d"), expected);
}

#[test]
fn a_live_row_shows_mark_label_and_project() {
    let mut build = ProgramBuilder::default();
    let log = build.push(NodeKind::Log(lit("x")), vec![]);
    let env = build.push(
        NodeKind::Env(vec![
            EnvPair {
                key: "A".to_string(),
                value: lit("1"),
            },
            EnvPair {
                key: "B".to_string(),
                value: lit("2"),
            },
        ]),
        vec![log],
    );
    let project = build.push(NodeKind::Project(lit("app")), vec![env]);
    let program = build.build(one_run("d", vec![project]));
    let mut display = Display::for_program(&program);
    display.set_status(env, TaskStatus::Running);
    let rows = visible_rows(&program, &display, "d");
    let lines: Vec<String> = rows
        .iter()
        .map(|row| row_line(row, display.state(row.node), 12))
        .collect();
    assert_eq!(
        lines,
        vec![
            "⠹ env: A, B [app]".to_string(),
            "   └─ · log: x [app]".to_string(),
        ]
    );
    assert_eq!(program.run_row_count("d"), 2);
    assert_eq!(program.run_row_count("missing"), 0);
    assert_eq!(program.visit_subtree(&[project]), vec![project, env, log]);
}

#[test]
fn branches_follow_the_depths() {
    let found = branches(&vec![0, 1, 2, 1, 0]);
    let prefixes: Vec<&str> = found.iter().map(|b| b.prefix.as_str()).collect();
    assert_eq!(
        prefixes,
        vec!["", "│  ├─ ", "│  │  └─ ", "│  └─ ", ""]
    );
    assert_eq!(found[0].output_prefix, "│    ");
    assert_eq!(found[2].output_prefix, "│  │       ");
    assert_eq!(found[4].output_prefix, "     ");
}

#[test]
fn arenas_with_cycles_or_holes_are_not_closed() {
    let mut build = ProgramBuilder::new();
    build.push(NodeKind::Async, vec![1]);
    build.push(NodeKind::Async, vec![]);
    let forward: Program = build.build(NameMap::new());
    assert!(forward.is_closed(), "children may follow their parent");

    let mut build = ProgramBuilder::new();
    build.push(NodeKind::Async, vec![1]);
    build.push(NodeKind::Async, vec![0]);
    assert!(!build.build(NameMap::new()).is_closed(), "a cycle");

    let mut build = ProgramBuilder::new();
    build.push(NodeKind::Async, vec![5]);
    assert!(!build.build(NameMap::new()).is_closed(), "a hole");
}

#[test]
fn statuses_have_marks_and_colours() {
    assert_eq!(TaskStatus::Success.glyph(0), '✓');
    assert_eq!(TaskStatus::Error.glyph(0), '✗');
    assert_eq!(TaskStatus::Cancelled.glyph(0), '■');
    assert_eq!(TaskStatus::Skipped.glyph(0), '-');
    assert_eq!(TaskStatus::Pending.glyph(0), '·');
    assert_eq!(TaskStatus::Running.glyph(13), '⠸');
    assert_eq!(spinner_frame(9), '⠏');
    assert_eq!(TaskStatus::Success.color(), Color::Indexed(10));
    assert_eq!(TaskStatus::Cancelled.color(), Color::White);
    assert_eq!(TaskStatus::Error.ansi(), "\u{1b}[91m");
    assert_eq!(TaskStatus::Skipped.ansi(), "\u{1b}[90m");
    assert_eq!(TaskStatus::default(), TaskStatus::Pending);
}

// ── Sync ─────────────────────────────────────────────────────────────────────

fn project(branch: &str) -> ProjectSync {
    ProjectSync {
        name: "app".to_string(),
        url: "git@host:app".to_string(),
        dir: "/src/app".to_string(),
        branch: branch.to_string(),
    }
}

#[test]
fn a_project_is_cloned_or_brought_up_to_date() {
    let plain = project("");
    assert_eq!(
        plain.git_command(false).argv,
        vec!["git", "clone", "git@host:app", "/src/app"]
    );
    assert_eq!(
        plain.git_command(true).argv,
        vec!["git", "-C", "/src/app", "pull", "--ff-only"]
    );
    let branched = project("main");
    assert_eq!(
        branched.git_command(false).argv,
        vec!["git", "clone", "-b", "main", "git@host:app", "/src/app"]
    );
    assert_eq!(
        branched.git_command(true).argv,
        vec!["git", "-C", "/src/app", "pull", "--ff-only", "origin", "main"]
    );
    assert_eq!(plain.git_command(true).desc, "git pull app");
    assert_eq!(plain.git_command(false).desc, "git clone app");
}

#[test]
fn an_announcement_is_shown_without_its_start() {
    let line = project("").announce(true);
    assert_eq!(line, "update   app -> /src/app");
    assert_eq!(sync_message(&line), "app -> /src/app");
    assert_eq!(
        sync_message(&project("").announce(false)),
        "app -> /src/app"
    );
    assert_eq!(sync_message("Already up to date."), "Already up to date.");
    assert_eq!(sync_message("update  done"), "done");
}

#[test]
fn the_sync_view_counts_what_is_done() {
    let mut display = Display::with_labels(vec!["a".to_string(), "b".to_string()]);
    assert_eq!(
        sync_header(&display, 10).as_deref(),
        Some("⠋ Syncing projects (0/2)")
    );
    display.set_status(0, TaskStatus::Error);
    display.push_output(0, "first".to_string());
    display.push_output(0, "last".to_string());
    assert_eq!(
        sync_header(&display, 1).as_deref(),
        Some("⠙ Syncing projects (1/2)")
    );
    assert_eq!(sync_row_line(&display, 0), "├── [a]  last");
    assert_eq!(sync_row_line(&display, 1), "└── [b]  ");
    assert_eq!(current_display(display.state(0)), "last");
    display.set_status(1, TaskStatus::Success);
    assert_eq!(sync_header(&display, 1), None);
    assert_eq!(display.len(), display.states().len());
}

#[test]
fn the_end_of_git_is_judged_by_its_status() {
    assert_eq!(
        git_line(&SubprocessLine::Stdout("x".to_string())),
        "    x"
    );
    assert_eq!(git_line(&SubprocessLine::Stderr("x".to_string())), "x");
    let end = |signal, code| {
        Ok(SubprocessExit {
            status: ExitStatus { signal, code },
            killed_by_switch: false,
        })
    };
    assert_eq!(git_outcome("git pull app", end(None, Some(0))), Ok(()));
    assert_eq!(
        git_outcome("git pull app", end(None, Some(128)))
            .unwrap_err()
            .message(),
        "execution failed: git pull app: exited with code 128"
    );
    assert_eq!(
        git_outcome(
            "git pull app",
            Err(SubprocessError::Spawn("no git".to_string()))
        )
        .unwrap_err()
        .message(),
        "execution failed: git pull app: failed to spawn process: no git"
    );
}

// ── The live view ────────────────────────────────────────────────────────────

#[test]
fn the_view_ends_or_is_drawn_again() {
    assert_eq!(next_frame(true, true, false), Frame::Cancel);
    assert_eq!(next_frame(false, true, true), Frame::End);
    assert_eq!(next_frame(false, false, true), Frame::Cancel);
    assert_eq!(next_frame(false, false, false), Frame::Draw);
    assert!(is_cancel_key('q', false));
    assert!(is_cancel_key('c', true));
    assert!(!is_cancel_key('c', false));
    assert_eq!(view_height(7), 7);
    assert_eq!(view_height(70000), u16::MAX);
    assert_eq!(next_spinner(9), 0);
    assert_eq!(next_spinner(3), 4);
    assert_eq!(next_spinner(27), 8);
}
