//! The execution form and its kirufiles.
use kiru::ir::serialize::{fmt_instruction, render_ir_literal, write_template};
use kiru::ir::{Arm, EnvPair, Instruction, Ir, Segment, Template};
use kiru::names::NameMap;
use kiru::plan::{ArmPattern, Call};

fn sample_ir() -> Ir {
    let check_cmd = || Template {
        parts: vec![Segment::Cmd(Template::lit("test -f $HOME"))],
    };

    let ssh_body = vec![
        Instruction::Exec {
            command: check_cmd(),
        },
        Instruction::Switch {
            subject: check_cmd(),
            arms: vec![
                Arm {
                    row: 1,
                    pattern: ArmPattern::Lit("1".to_string()),
                    body: vec![Instruction::Step {
                        row: 2,
                        label: "log switching".to_string(),
                        body: vec![Instruction::Log(Template::lit("switching"))],
                    }],
                },
                Arm {
                    row: 3,
                    pattern: ArmPattern::Default,
                    body: vec![Instruction::Step {
                        row: 4,
                        label: "log default".to_string(),
                        body: vec![Instruction::Log(Template::lit("default"))],
                    }],
                },
            ],
        },
        Instruction::Env {
            pairs: vec![EnvPair {
                key: "GO".to_string(),
                value: Template::lit("1"),
            }],
            body: vec![Instruction::Cd(Template::lit("project"))],
        },
    ];

    let mut runs = NameMap::new();
    runs.insert(
        "bootstrap".to_string(),
        vec![
            Instruction::Step {
                row: 0,
                label: "nix::ssh".to_string(),
                body: vec![Instruction::Context {
                    project: Template::lit("nix"),
                    body: ssh_body,
                }],
            },
            Instruction::Async {
                body: vec![Instruction::Step {
                    row: 1,
                    label: "async".to_string(),
                    body: vec![Instruction::Log(Template::lit("concurrent"))],
                }],
            },
        ],
    );

    Ir {
        runs,
        ..Ir::default()
    }
}

#[test]
fn tests_test_kirufile_round_trip() {
    let ir = sample_ir();
    let text = ir.serialize();
    let parsed = Ir::deserialize(&text).expect("should parse");
    assert_eq!(ir, parsed, "round trip mismatch:\n{}", text);
}

#[test]
fn tests_test_kirufile_escapes() {
    let mut ir = Ir::default();
    ir.runs.insert(
        "p".to_string(),
        vec![Instruction::Step {
            row: 0,
            label: "weird \"label\"".to_string(),
            body: vec![Instruction::Exec {
                command: Template::lit("has \"quotes\" and ) parens"),
            }],
        }],
    );
    let text = ir.serialize();
    let parsed = Ir::deserialize(&text).expect("should parse");
    assert_eq!(
        parsed.runs.get("p").unwrap()[0],
        Instruction::Step {
            row: 0,
            label: "weird \"label\"".to_string(),
            body: vec![Instruction::Exec {
                command: Template::lit("has \"quotes\" and ) parens"),
            }],
        }
    );
}

#[test]
fn test_kirufile_version_entry_rejected() {
    // The version marker is gone from the format; kirufiles carrying it
    // (from older builds) must be rejected, not silently tolerated.
    let text = "(kirufile\n  (version 1)\n)\n";
    assert!(Ir::deserialize(text).is_err());
}

#[test]
fn test_kirufile_trailing_content_rejected() {
    // Anything after the root s-expression means a truncated or
    // concatenated file; it must never half-load.
    let text = "(kirufile)\n(run rogue (stage (call p f)))\n";
    assert!(Ir::deserialize(text).is_err());
}
/// Tree prefixes: the outermost level lists plain (no branch), nested
/// lines draw connectors, and ancestor bars continue through non-last
/// blocks.
#[test]
fn test_run_plan_tree_prefixes() {
    fn step(row: usize, label: &str) -> Instruction {
        Instruction::Step {
            row,
            label: label.to_string(),
            body: Vec::new(),
        }
    }
    let async_step = |row: usize, child_row: usize, child: &str| Instruction::Step {
        row,
        label: "async".to_string(),
        body: vec![Instruction::Async {
            body: vec![step(child_row, child)],
        }],
    };

    let mut runs = NameMap::new();
    runs.insert(
        "d".to_string(),
        vec![
            async_step(0, 1, "exec a"),
            step(2, "log main"),
            async_step(3, 4, "exec b"),
        ],
    );
    let ir = Ir {
        runs,
        ..Ir::default()
    };
    let plan = ir.run_plan("d");
    let rendered: Vec<(&str, &str)> = plan
        .iter()
        .map(|line| (line.prefix.as_str(), line.label.as_str()))
        .collect();
    assert_eq!(
        rendered,
        vec![
            ("", "async"),
            ("│  └─ ", "exec a"),
            ("", "log main"),
            ("", "async"),
            ("   └─ ", "exec b"),
        ]
    );
}


/// Steps and arms are rows; a context names the project of the rows in it.
#[test]
fn a_plan_shows_arms_and_projects() {
    let mut runs = NameMap::new();
    runs.insert(
        "r".to_string(),
        vec![Instruction::Context {
            project: Template::lit("app"),
            body: vec![Instruction::Switch {
                subject: Template::lit("x"),
                arms: vec![
                    Arm {
                        row: 0,
                        pattern: ArmPattern::Lit(String::new()),
                        body: vec![Instruction::Step {
                            row: 1,
                            label: "log a".to_string(),
                            body: vec![Instruction::Log(Template::lit("a"))],
                        }],
                    },
                    Arm {
                        row: 2,
                        pattern: ArmPattern::Default,
                        body: vec![],
                    },
                ],
            }],
        }],
    );
    let ir = Ir {
        runs,
        ..Ir::default()
    };
    let plan = ir.run_plan("r");
    let rows: Vec<(usize, usize, &str, Option<&str>, &str, &str)> = plan
        .iter()
        .map(|l| {
            (
                l.row,
                l.depth,
                l.label.as_str(),
                l.project.as_deref(),
                l.prefix.as_str(),
                l.output_prefix.as_str(),
            )
        })
        .collect();
    assert_eq!(
        rows,
        vec![
            (0, 0, "switch case \"\"", Some("app"), "", "│    "),
            (1, 1, "log a", Some("app"), "│  └─ ", "│       "),
            (2, 0, "switch default", Some("app"), "", "     "),
        ]
    );
    assert!(ir.run_plan("missing").is_empty());
}

/// A command with its place and a variable survive writing and reading.
#[test]
fn places_and_variables_are_read_back() {
    let value = Template {
        parts: vec![Segment::CmdAt {
            template: Template::lit("date"),
            start: 3,
            len: 4,
            file: "a.kiru".to_string(),
        }],
    };
    let mut runs = NameMap::new();
    runs.insert(
        "r".to_string(),
        vec![Instruction::Log(Template {
            parts: vec![Segment::Ref {
                id: 7,
                template: value,
            }],
        })],
    );
    let ir = Ir {
        runs,
        ..Ir::default()
    };
    let text = ir.serialize();
    assert_eq!(Ir::deserialize(&text).expect("should parse"), ir);
}

#[test]
fn templates_are_shown_with_their_commands() {
    let t = Template {
        parts: vec![
            Segment::Lit("at ".to_string()),
            Segment::Cmd(Template::lit("date")),
        ],
    };
    assert_eq!(write_template(&t), "(t (lit \"at \") (cmd (t (lit \"date\"))))");
    assert_eq!(render_ir_literal(&t), "at date");
    assert_eq!(t.plan_text(), "at $(date)");
    assert!(t.is_dynamic());
    assert!(!Template::lit("x").is_dynamic());
    let call = Call {
        project: "p".to_string(),
        function: "f".to_string(),
    };
    assert_eq!(call.fqn(), "p::f");
    let pair = EnvPair {
        key: "K".to_string(),
        value: t,
    };
    assert_eq!(pair.key, "K");
}

/// Texts of every kind are read back.
#[test]
fn any_text_of_the_execution_form_is_read_back() {
    let text = "\u{1b}[0m caf\u{e9} \u{200b}\"\\\n";
    let mut runs = NameMap::new();
    runs.insert(
        "r".to_string(),
        vec![Instruction::Step {
            row: 3,
            label: text.to_string(),
            body: vec![Instruction::Env {
                pairs: vec![EnvPair {
                    key: "K".to_string(),
                    value: Template::lit(text),
                }],
                body: vec![Instruction::Env {
                    pairs: vec![],
                    body: vec![],
                }],
            }],
        }],
    );
    let mut ir = Ir {
        shell: text.to_string(),
        runs,
        ..Ir::default()
    };
    ir.sources.insert(text.to_string(), text.to_string());
    assert_eq!(Ir::deserialize(&ir.serialize()), Ok(ir));
}

/// The indented form is the inline form between its indent and a line break.
#[test]
fn an_instruction_is_written_inline_or_as_a_line() {
    let inst = Instruction::Log(Template::lit("x"));
    let mut inline = "> ".to_string();
    fmt_instruction(&mut inline, &inst, None);
    assert_eq!(inline, "> (log (t (lit \"x\")))");
    let mut line = String::new();
    fmt_instruction(&mut line, &inst, Some(2));
    assert_eq!(line, "    (log (t (lit \"x\")))\n");
}
